//! Searching in the launcher and the finder: the query as typed, the matching
//! entries, the selection that arrows move, and the status line.
use vstd::prelude::*;
use crate::input::text::{append_str, push_char};

verus! {

/// `c` is white space in Unicode (the `White_Space` property).
pub open spec fn white_space(c: char) -> bool {
    let v = c as u32;
    (0x9 <= v <= 0xd) || v == 0x20 || v == 0x85 || v == 0xa0 || v == 0x1680 || (0x2000 <= v <= 0x200a) || v
        == 0x2028 || v == 0x2029 || v == 0x202f || v == 0x205f || v == 0x3000
}

/// Number of white-space characters at the start of `s`.
pub open spec fn leading_spaces(s: Seq<char>) -> nat
    decreases s.len(),
{
    if s.len() > 0 && white_space(s[0]) {
        1 + leading_spaces(s.drop_first())
    } else {
        0
    }
}

/// Number of white-space characters at the end of `s`.
pub open spec fn trailing_spaces(s: Seq<char>) -> nat
    decreases s.len(),
{
    if s.len() > 0 && white_space(s.last()) {
        1 + trailing_spaces(s.drop_last())
    } else {
        0
    }
}

/// `s` without white space at either end.
pub open spec fn trimmed(s: Seq<char>) -> Seq<char> {
    if leading_spaces(s) == s.len() {
        Seq::empty()
    } else {
        s.subrange(leading_spaces(s) as int, s.len() - trailing_spaces(s))
    }
}

/// The decimal digits of `n`.
pub open spec fn decimal(n: nat) -> Seq<char>
    decreases n,
{
    if n < 10 {
        seq![digit(n)]
    } else {
        decimal(n / 10).push(digit(n % 10))
    }
}

pub open spec fn digit(d: nat) -> char {
    if d == 0 {
        '0'
    } else if d == 1 {
        '1'
    } else if d == 2 {
        '2'
    } else if d == 3 {
        '3'
    } else if d == 4 {
        '4'
    } else if d == 5 {
        '5'
    } else if d == 6 {
        '6'
    } else if d == 7 {
        '7'
    } else if d == 8 {
        '8'
    } else {
        '9'
    }
}

pub fn is_space(c: char) -> (r: bool)
    ensures
        r == white_space(c),
{
    let v = c as u32;
    (0x9 <= v && v <= 0xd) || v == 0x20 || v == 0x85 || v == 0xa0 || v == 0x1680 || (0x2000 <= v && v <= 0x200a)
        || v == 0x2028 || v == 0x2029 || v == 0x202f || v == 0x205f || v == 0x3000
}

proof fn lemma_leading_bound(s: Seq<char>)
    ensures
        leading_spaces(s) <= s.len(),
        forall|i: int| 0 <= i < leading_spaces(s) ==> white_space(#[trigger] s[i]),
        leading_spaces(s) < s.len() ==> !white_space(s[leading_spaces(s) as int]),
    decreases s.len(),
{
    if s.len() > 0 && white_space(s[0]) {
        lemma_leading_bound(s.drop_first());
        assert forall|i: int| 0 <= i < leading_spaces(s) implies white_space(#[trigger] s[i]) by {
            if i > 0 {
                assert(s[i] == s.drop_first()[i - 1]);
            }
        }
    }
}

proof fn lemma_trailing_bound(s: Seq<char>)
    ensures
        trailing_spaces(s) <= s.len(),
        forall|i: int| s.len() - trailing_spaces(s) <= i < s.len() ==> white_space(#[trigger] s[i]),
        trailing_spaces(s) < s.len() ==> !white_space(s[s.len() - trailing_spaces(s) - 1]),
    decreases s.len(),
{
    if s.len() > 0 && white_space(s.last()) {
        lemma_trailing_bound(s.drop_last());
        assert forall|i: int| s.len() - trailing_spaces(s) <= i < s.len() implies white_space(#[trigger] s[i]) by {
            if i < s.len() - 1 {
                assert(s[i] == s.drop_last()[i]);
            }
        }
    }
}

/// Counts the white space at the start of `s` from index `i` on.
proof fn lemma_leading_from(s: Seq<char>, i: int)
    requires
        0 <= i <= s.len(),
        forall|j: int| 0 <= j < i ==> white_space(#[trigger] s[j]),
    ensures
        leading_spaces(s) == i + leading_spaces(s.skip(i)),
    decreases i,
{
    if i > 0 {
        assert(s.drop_first().skip(i - 1) =~= s.skip(i));
        assert forall|j: int| 0 <= j < i - 1 implies white_space(#[trigger] s.drop_first()[j]) by {
            assert(s.drop_first()[j] == s[j + 1]);
        }
        lemma_leading_from(s.drop_first(), i - 1);
    } else {
        assert(s.skip(0) =~= s);
    }
}

/// Counts the white space at the end of `s` before index `k`.
proof fn lemma_trailing_from(s: Seq<char>, k: int)
    requires
        0 <= k <= s.len(),
        forall|j: int| k <= j < s.len() ==> white_space(#[trigger] s[j]),
    ensures
        trailing_spaces(s) == (s.len() - k) + trailing_spaces(s.take(k)),
    decreases s.len() - k,
{
    if k < s.len() {
        assert(s.drop_last().take(k) =~= s.take(k));
        assert forall|j: int| k <= j < s.len() - 1 implies white_space(#[trigger] s.drop_last()[j]) by {
            assert(s.drop_last()[j] == s[j]);
        }
        lemma_trailing_from(s.drop_last(), k);
    } else {
        assert(s.take(k) =~= s);
    }
}

/// `s` without white space at either end, as `str::trim` gives it.
pub fn trim(s: &str) -> (r: String)
    ensures
        r@ == trimmed(s@),
{
    let ghost t = s@;
    crate::input::text::char_count_fits(s);
    let mut chars: Vec<char> = Vec::new();
    for c in it: s.chars()
        invariant
            it.seq() == t,
            chars@ == t.take(it.index() as int),
    {
        chars.push(c);
        proof {
            assert(t.take(it.index() + 1) =~= t.take(it.index() as int).push(c));
        }
    }
    proof {
        assert(t.take(t.len() as int) =~= t);
    }
    let n = chars.len();
    let mut lo: usize = 0;
    while lo < n && is_space(chars[lo])
        invariant
            chars@ == t,
            n == t.len(),
            lo <= n,
            forall|j: int| 0 <= j < lo ==> white_space(#[trigger] t[j]),
        decreases n - lo,
    {
        lo = lo + 1;
    }
    proof {
        lemma_leading_from(t, lo as int);
        if lo < n {
        } else {
            assert(t.skip(lo as int).len() == 0);
        }
        lemma_leading_bound(t);
    }
    let mut r = String::new();
    if lo == n {
        proof {
            assert(r@ =~= trimmed(t));
        }
        return r;
    }
    let mut hi: usize = n;
    while hi > lo && is_space(chars[hi - 1])
        invariant
            chars@ == t,
            n == t.len(),
            lo < n,
            !white_space(t[lo as int]),
            lo <= hi <= n,
            forall|j: int| hi <= j < n ==> white_space(#[trigger] t[j]),
        decreases hi,
    {
        hi = hi - 1;
    }
    proof {
        lemma_trailing_from(t, hi as int);
        assert(hi > lo);
        assert(trailing_spaces(t.take(hi as int)) == 0);
    }
    let mut i = lo;
    while i < hi
        invariant
            chars@ == t,
            lo <= i <= hi <= n,
            n == t.len(),
            r@ == t.subrange(lo as int, i as int),
        decreases hi - i,
    {
        push_char(&mut r, chars[i]);
        proof {
            assert(t.subrange(lo as int, i + 1) =~= t.subrange(lo as int, i as int).push(t[i as int]));
        }
        i = i + 1;
    }
    r
}

/// The decimal form of `n`.
pub fn decimal_text(n: usize) -> (r: String)
    ensures
        r@ == decimal(n as nat),
{
    let mut digits: Vec<char> = Vec::new();
    let mut m = n;
    // Digits are found from the least significant one.
    loop
        invariant_except_break
            m <= n,
            decimal(n as nat) == decimal(m as nat) + digits@.reverse(),
        ensures
            decimal(n as nat) == digits@.reverse(),
        decreases m,
    {
        let d = m % 10;
        let c = if d == 0 {
            '0'
        } else if d == 1 {
            '1'
        } else if d == 2 {
            '2'
        } else if d == 3 {
            '3'
        } else if d == 4 {
            '4'
        } else if d == 5 {
            '5'
        } else if d == 6 {
            '6'
        } else if d == 7 {
            '7'
        } else if d == 8 {
            '8'
        } else {
            '9'
        };
        if m < 10 {
            proof {
                assert(decimal(m as nat) == seq![c]);
            }
            digits.push(c);
            proof {
                assert(seq![c] + digits@.drop_last().reverse() =~= digits@.reverse());
            }
            break;
        }
        proof {
            assert(decimal(m as nat) == decimal((m / 10) as nat).push(c));
            assert(decimal((m / 10) as nat).push(c) + digits@.reverse() =~= decimal((m / 10) as nat) + digits@.push(
                c,
            ).reverse());
        }
        digits.push(c);
        m = m / 10;
    }
    let mut r = String::new();
    let mut i = digits.len();
    while i > 0
        invariant
            i <= digits@.len(),
            decimal(n as nat) == digits@.reverse(),
            r@ == digits@.reverse().take(digits@.len() - i),
        decreases i,
    {
        i = i - 1;
        push_char(&mut r, digits[i]);
        proof {
            let rev = digits@.reverse();
            assert(rev[digits@.len() - 1 - i] == digits@[i as int]);
            assert(rev.take(digits@.len() - i) =~= rev.take(digits@.len() - i - 1).push(digits@[i as int]));
        }
    }
    proof {
        assert(digits@.reverse().take(digits@.len() as int) =~= digits@.reverse());
    }
    r
}

/// The selection after the down arrow: the next entry, wrapping around to the
/// first; the first when nothing valid is selected; none in an empty list.
pub open spec fn next_selection(selected: Option<usize>, len: nat) -> Option<usize> {
    if len == 0 {
        None
    } else {
        match selected {
            Some(i) => if i < len {
                Some(((i + 1) % (len as int)) as usize)
            } else {
                Some(0)
            },
            None => Some(0),
        }
    }
}

/// The selection after the up arrow: the previous entry, wrapping around to the
/// last; the last when nothing valid is selected; none in an empty list.
pub open spec fn previous_selection(selected: Option<usize>, len: nat) -> Option<usize> {
    if len == 0 {
        None
    } else {
        match selected {
            Some(i) => if i < len && i > 0 {
                Some((i - 1) as usize)
            } else {
                Some((len - 1) as usize)
            },
            None => Some((len - 1) as usize),
        }
    }
}

pub fn select_next(selected: Option<usize>, len: usize) -> (r: Option<usize>)
    ensures
        r == next_selection(selected, len as nat),
{
    if len == 0 {
        return None;
    }
    match selected {
        Some(i) => if i < len {
            proof {
                if i + 1 < len {
                    assert((i + 1) % (len as int) == i + 1) by (nonlinear_arith)
                        requires
                            i + 1 < len,
                    ;
                } else {
                    assert((i + 1) % (len as int) == 0) by (nonlinear_arith)
                        requires
                            i + 1 == len,
                    ;
                }
            }
            Some(if i + 1 == len { 0 } else { i + 1 })
        } else {
            Some(0)
        },
        None => Some(0),
    }
}

pub fn select_previous(selected: Option<usize>, len: usize) -> (r: Option<usize>)
    ensures
        r == previous_selection(selected, len as nat),
{
    if len == 0 {
        return None;
    }
    match selected {
        Some(i) => if i < len && i > 0 {
            Some(i - 1)
        } else {
            Some(len - 1)
        },
        None => Some(len - 1),
    }
}

/// Moving down then up, or up then down, comes back to the selected entry; a
/// selection always stays within the list.
pub proof fn lemma_selection_round_trip(i: usize, len: usize)
    requires
        i < len,
    ensures
        previous_selection(next_selection(Some(i), len as nat), len as nat) == Some(i),
        next_selection(previous_selection(Some(i), len as nat), len as nat) == Some(i),
        next_selection(Some(i), len as nat)->0 < len,
        previous_selection(Some(i), len as nat)->0 < len,
{
    if i + 1 < len {
        assert((i + 1) % (len as int) == i + 1) by (nonlinear_arith)
            requires
                i + 1 < len,
        ;
    } else {
        assert((i + 1) % (len as int) == 0) by (nonlinear_arith)
            requires
                i + 1 == len,
        ;
    }
    if i == 0 {
        if len > 1 {
            assert(((len - 1) + 1) % (len as int) == 0) by (nonlinear_arith)
                requires
                    len > 1,
            ;
        } else {
            assert((1int) % (1int) == 0);
        }
    } else {
        assert(((i - 1) + 1) % (len as int) == i) by (nonlinear_arith)
            requires
                0 < i < len,
        ;
    }
}

} // verus!
