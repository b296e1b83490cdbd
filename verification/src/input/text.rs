//! Offsets into UTF-8 text: byte offsets, UTF-16 offsets and grapheme boundaries.
use vstd::prelude::*;
use unicode_segmentation::UnicodeSegmentation;
use vstd::utf8::*;

verus! {

/// Number of bytes in the UTF-8 encoding of `c`.
pub open spec fn utf8_len(c: char) -> nat {
    if (c as u32) < 0x80 {
        1
    } else if (c as u32) < 0x800 {
        2
    } else if (c as u32) < 0x10000 {
        3
    } else {
        4
    }
}

/// Number of UTF-16 code units that encode `c`.
pub open spec fn utf16_len(c: char) -> nat {
    if (c as u32) < 0x10000 {
        1
    } else {
        2
    }
}

/// Number of bytes in the UTF-8 encoding of `s`.
pub open spec fn byte_len(s: Seq<char>) -> nat
    decreases s.len(),
{
    if s.len() == 0 {
        0
    } else {
        byte_len(s.drop_last()) + utf8_len(s.last())
    }
}

/// Number of UTF-16 code units in the encoding of `s`.
pub open spec fn utf16_units(s: Seq<char>) -> nat
    decreases s.len(),
{
    if s.len() == 0 {
        0
    } else {
        utf16_units(s.drop_last()) + utf16_len(s.last())
    }
}

pub proof fn lemma_byte_len_push(s: Seq<char>, c: char)
    ensures
        byte_len(s.push(c)) == byte_len(s) + utf8_len(c),
{
    assert(s.push(c).drop_last() =~= s);
}

/// A text has at most as many characters as bytes.
pub proof fn lemma_len_le_byte_len(s: Seq<char>)
    ensures
        s.len() <= byte_len(s),
    decreases s.len(),
{
    if s.len() > 0 {
        lemma_len_le_byte_len(s.drop_last());
    }
}

/// The number of characters of `s` fits in a `usize`.
pub fn char_count_fits(s: &str)
    ensures
        s@.len() <= usize::MAX,
{
    let n = s.as_bytes().len();
    proof {
        lemma_encode_utf8_len(s@);
        lemma_len_le_byte_len(s@);
    }
}

pub proof fn lemma_utf16_units_push(s: Seq<char>, c: char)
    ensures
        utf16_units(s.push(c)) == utf16_units(s) + utf16_len(c),
{
    assert(s.push(c).drop_last() =~= s);
}

pub proof fn lemma_byte_len_add(a: Seq<char>, b: Seq<char>)
    ensures
        byte_len(a + b) == byte_len(a) + byte_len(b),
    decreases b.len(),
{
    if b.len() == 0 {
        assert(a + b =~= a);
    } else {
        lemma_byte_len_add(a, b.drop_last());
        assert((a + b).drop_last() =~= a + b.drop_last());
    }
}

pub proof fn lemma_utf16_units_add(a: Seq<char>, b: Seq<char>)
    ensures
        utf16_units(a + b) == utf16_units(a) + utf16_units(b),
    decreases b.len(),
{
    if b.len() == 0 {
        assert(a + b =~= a);
    } else {
        lemma_utf16_units_add(a, b.drop_last());
        assert((a + b).drop_last() =~= a + b.drop_last());
    }
}

pub proof fn lemma_utf16_le_bytes(s: Seq<char>)
    ensures
        utf16_units(s) <= byte_len(s),
    decreases s.len(),
{
    if s.len() > 0 {
        lemma_utf16_le_bytes(s.drop_last());
    }
}

proof fn lemma_encode_scalar_len(c: char)
    ensures
        encode_scalar(c as u32).len() == utf8_len(c),
{
    broadcast use char_is_scalar;
    assert(is_scalar(c as u32));
}

/// The UTF-8 encoding that `str::len` counts has `byte_len` bytes.
pub proof fn lemma_encode_utf8_len(s: Seq<char>)
    ensures
        encode_utf8(s).len() == byte_len(s),
    decreases s.len(),
{
    if s.len() > 0 {
        lemma_encode_utf8_len(s.drop_first());
        lemma_encode_scalar_len(s[0]);
        lemma_byte_len_add(seq![s[0]], s.drop_first());
        assert(seq![s[0]] + s.drop_first() =~= s);
        let one = seq![s[0]];
        assert(one.drop_last() =~= Seq::<char>::empty());
        assert(byte_len(one.drop_last()) == 0);
        assert(one.last() == s[0]);
        assert(byte_len(one) == utf8_len(s[0]));
        assert(encode_utf8(s) == encode_scalar(s[0] as u32) + encode_utf8(s.drop_first()));
    }
}

/// The number of leading characters of `s` whose encoding starts before byte `offset`.
pub open spec fn chars_before_byte(s: Seq<char>, offset: int) -> nat
    decreases s.len(),
{
    if s.len() == 0 {
        0
    } else if byte_len(s.drop_last()) < offset {
        s.len()
    } else {
        chars_before_byte(s.drop_last(), offset)
    }
}

/// The number of leading characters of `s` that start before UTF-16 offset `offset`.
pub open spec fn chars_before_unit(s: Seq<char>, offset: int) -> nat
    decreases s.len(),
{
    if s.len() == 0 {
        0
    } else if utf16_units(s.drop_last()) < offset {
        s.len()
    } else {
        chars_before_unit(s.drop_last(), offset)
    }
}

/// The UTF-16 offset that corresponds to byte offset `offset` in `s`.
pub open spec fn spec_to_utf16(s: Seq<char>, offset: int) -> nat {
    utf16_units(s.take(chars_before_byte(s, offset) as int))
}

/// The byte offset that corresponds to UTF-16 offset `offset` in `s`.
pub open spec fn spec_from_utf16(s: Seq<char>, offset: int) -> nat {
    byte_len(s.take(chars_before_unit(s, offset) as int))
}

pub fn char_utf8_len(c: char) -> (n: usize)
    ensures
        n == utf8_len(c),
{
    let v = c as u32;
    if v < 0x80 {
        1
    } else if v < 0x800 {
        2
    } else if v < 0x10000 {
        3
    } else {
        4
    }
}

pub fn char_utf16_len(c: char) -> (n: usize)
    ensures
        n == utf16_len(c),
{
    if (c as u32) < 0x10000 {
        1
    } else {
        2
    }
}

pub proof fn lemma_chars_before_byte_push(s: Seq<char>, c: char, offset: int)
    ensures
        chars_before_byte(s.push(c), offset) == if byte_len(s) < offset {
            s.len() + 1
        } else {
            chars_before_byte(s, offset)
        },
        chars_before_byte(s, offset) <= s.len(),
        byte_len(s) < offset ==> chars_before_byte(s, offset) == s.len(),
    decreases s.len(),
{
    assert(s.push(c).drop_last() =~= s);
    if s.len() > 0 {
        lemma_chars_before_byte_push(s.drop_last(), s.last(), offset);
        assert(s.drop_last().push(s.last()) =~= s);
    }
}

pub proof fn lemma_chars_before_unit_push(s: Seq<char>, c: char, offset: int)
    ensures
        chars_before_unit(s.push(c), offset) == if utf16_units(s) < offset {
            s.len() + 1
        } else {
            chars_before_unit(s, offset)
        },
        chars_before_unit(s, offset) <= s.len(),
        utf16_units(s) < offset ==> chars_before_unit(s, offset) == s.len(),
    decreases s.len(),
{
    assert(s.push(c).drop_last() =~= s);
    if s.len() > 0 {
        lemma_chars_before_unit_push(s.drop_last(), s.last(), offset);
        assert(s.drop_last().push(s.last()) =~= s);
    }
}

/// Converts a byte offset into `text` into a UTF-16 offset: the UTF-16 length of
/// the characters that start before `offset`.
pub fn to_utf16(text: &str, offset: usize) -> (r: usize)
    ensures
        r == spec_to_utf16(text@, offset as int),
{
    let ghost s = text@;
    let mut units: usize = 0;
    let mut bytes: usize = 0;
    let ghost mut done: Seq<char> = Seq::empty();
    proof {
        lemma_encode_utf8_len(s);
    }
    let len = text.as_bytes().len();
    for c in it: text.chars()
        invariant
            it.seq() == s,
            done == s.take(it.index() as int),
            bytes == byte_len(done),
            units == spec_to_utf16(done, offset as int),
            units <= utf16_units(done),
            byte_len(s) == len,
    {
        proof {
            lemma_chars_before_byte_push(done, c, offset as int);
            lemma_byte_len_push(done, c);
            lemma_utf16_units_push(done, c);
            assert(s.take(it.index() + 1) =~= done.push(c));
            lemma_byte_len_add(done.push(c), s.skip(it.index() + 1));
            assert(done.push(c) + s.skip(it.index() + 1) =~= s);
            lemma_utf16_le_bytes(done.push(c));
        }
        if bytes < offset {
            proof {
                assert(done.push(c).take(done.len() + 1 as int) =~= done.push(c));
                assert(done.take(done.len() as int) =~= done);
            }
            units = units + char_utf16_len(c);
        } else {
            proof {
                let k = chars_before_byte(done, offset as int);
                assert(done.push(c).take(k as int) =~= done.take(k as int));
            }
        }
        bytes = bytes + char_utf8_len(c);
        proof {
            done = done.push(c);
        }
    }
    proof {
        assert(done =~= s);
    }
    units
}

/// Converts a UTF-16 offset into `text` into a byte offset: the start of the first
/// character at which at least `offset` UTF-16 code units precede, or the length of
/// `text` when there is none.
pub fn from_utf16(text: &str, offset: usize) -> (r: usize)
    ensures
        r == spec_from_utf16(text@, offset as int),
{
    let ghost s = text@;
    let mut units: usize = 0;
    let mut bytes: usize = 0;
    let mut result: usize = 0;
    let ghost mut done: Seq<char> = Seq::empty();
    proof {
        lemma_encode_utf8_len(s);
    }
    let len = text.as_bytes().len();
    for c in it: text.chars()
        invariant
            it.seq() == s,
            done == s.take(it.index() as int),
            bytes == byte_len(done),
            units == utf16_units(done),
            result == spec_from_utf16(done, offset as int),
            byte_len(s) == len,
    {
        proof {
            lemma_chars_before_unit_push(done, c, offset as int);
            lemma_byte_len_push(done, c);
            lemma_utf16_units_push(done, c);
            assert(s.take(it.index() + 1) =~= done.push(c));
            lemma_byte_len_add(done.push(c), s.skip(it.index() + 1));
            assert(done.push(c) + s.skip(it.index() + 1) =~= s);
            lemma_utf16_le_bytes(done.push(c));
        }
        let width = char_utf8_len(c);
        if units < offset {
            proof {
                assert(done.push(c).take(done.len() + 1 as int) =~= done.push(c));
            }
            result = bytes + width;
        } else {
            proof {
                let k = chars_before_unit(done, offset as int);
                assert(done.push(c).take(k as int) =~= done.take(k as int));
            }
        }
        units = units + char_utf16_len(c);
        bytes = bytes + width;
        proof {
            done = done.push(c);
        }
    }
    proof {
        assert(done =~= s);
    }
    result
}

/// The character that `normalize` puts in place of `c`: line and paragraph
/// separators and tabs become a space.
pub open spec fn normalize_char(c: char) -> char {
    if c == '\n' || c == '\r' || c == '\t' || c == '\u{2028}' || c == '\u{2029}' {
        ' '
    } else {
        c
    }
}

/// Replaces line breaks, tabs and Unicode line/paragraph separators with spaces,
/// so that the text fits on a single line.
pub fn normalize(text: &str) -> (r: String)
    ensures
        r@ == text@.map_values(|c: char| normalize_char(c)),
{
    let ghost s = text@;
    let mut out = String::new();
    for c in it: text.chars()
        invariant
            it.seq() == s,
            out@ == s.take(it.index() as int).map_values(|c: char| normalize_char(c)),
    {
        let n = if c == '\n' || c == '\r' || c == '\t' || c == '\u{2028}' || c == '\u{2029}' {
            ' '
        } else {
            c
        };
        push_char(&mut out, n);
        proof {
            assert(s.take(it.index() + 1).map_values(|c: char| normalize_char(c)) =~= s.take(
                it.index() as int,
            ).map_values(|c: char| normalize_char(c)).push(n));
        }
    }
    proof {
        assert(s.take(s.len() as int) =~= s);
    }
    out
}

/// `String::push`: appends one character.
#[verifier::external_body]
pub(crate) fn push_char(s: &mut String, c: char)
    ensures
        final(s)@ == old(s)@.push(c),
{
    s.push(c);
}

/// Appends the characters of `src` to `dst`.
pub(crate) fn append_str(dst: &mut String, src: &str)
    ensures
        final(dst)@ == old(dst)@ + src@,
{
    let ghost start = dst@;
    for c in it: src.chars()
        invariant
            it.seq() == src@,
            dst@ == start + src@.take(it.index() as int),
    {
        push_char(dst, c);
        proof {
            assert(src@.take(it.index() + 1) =~= src@.take(it.index() as int).push(c));
            assert(dst@ =~= start + src@.take(it.index() + 1));
        }
    }
    proof {
        assert(src@.take(src@.len() as int) =~= src@);
    }
}

/// `b` is the byte offset at which some character of `s` starts, or the end of `s`.
pub open spec fn is_boundary(s: Seq<char>, b: int) -> bool {
    exists|k: int| 0 <= k <= s.len() && #[trigger] byte_len(s.take(k)) == b
}

pub proof fn lemma_boundary_ends(s: Seq<char>)
    ensures
        is_boundary(s, 0),
        is_boundary(s, byte_len(s) as int),
{
    assert(s.take(0) =~= Seq::<char>::empty());
    assert(byte_len(s.take(0)) == 0);
    assert(s.take(s.len() as int) =~= s);
    assert(byte_len(s.take(s.len() as int)) == byte_len(s));
}

/// Prefixes of longer strings encode to strictly more bytes.
pub proof fn lemma_prefix_bytes(s: Seq<char>, i: int, j: int)
    requires
        0 <= i <= j <= s.len(),
    ensures
        byte_len(s.take(i)) + (j - i) <= byte_len(s.take(j)),
        byte_len(s.take(j)) <= byte_len(s),
    decreases j - i,
{
    if i < j {
        lemma_prefix_bytes(s, i, j - 1);
        assert(s.take(j).drop_last() =~= s.take(j - 1));
    }
    lemma_byte_len_add(s.take(j), s.skip(j));
    assert(s.take(j) + s.skip(j) =~= s);
}

/// The character index at a boundary: `k` characters precede byte offset `byte_len(s.take(k))`.
pub proof fn lemma_chars_before_boundary(s: Seq<char>, k: int)
    requires
        0 <= k <= s.len(),
    ensures
        chars_before_byte(s, byte_len(s.take(k)) as int) == k,
    decreases s.len(),
{
    if s.len() > 0 {
        let t = s.drop_last();
        if k == s.len() {
            assert(s.take(k) =~= s);
            assert(t.push(s.last()) =~= s);
            lemma_byte_len_push(t, s.last());
        } else {
            assert(t.take(k) =~= s.take(k));
            lemma_prefix_bytes(s, k, s.len() - 1);
            assert(s.take(s.len() - 1) =~= t);
            lemma_chars_before_boundary(t, k);
        }
    } else {
        assert(s.take(k) =~= s);
    }
}

/// Byte offsets at which grapheme clusters of `text` start, as reported by
/// Unicode text segmentation.
pub uninterp spec fn grapheme_starts(text: Seq<char>) -> Seq<usize>;

/// Byte offsets at which the word-boundary segments of `text` start, as reported by
/// Unicode text segmentation.
pub uninterp spec fn word_bound_starts(text: Seq<char>) -> Seq<usize>;

/// The starts of a segmentation of `text` into non-empty pieces: strictly increasing
/// character boundaries, the first one at 0, none at the end.
pub open spec fn segment_starts(text: Seq<char>, starts: Seq<usize>) -> bool {
    &&& (starts.len() == 0 <==> text.len() == 0)
    &&& (starts.len() > 0 ==> starts[0] == 0)
    &&& forall|i: int, j: int| 0 <= i < j < starts.len() ==> starts[i] < starts[j]
    &&& forall|i: int|
        0 <= i < starts.len() ==> starts[i] < byte_len(text) && is_boundary(text, starts[i] as int)
}

/// `UnicodeSegmentation::grapheme_indices` (extended clusters): the byte offset of
/// each grapheme cluster of `text`, in order. The clusters are the non-empty pieces
/// that make up `text`, so their offsets are increasing character boundaries that
/// start at 0.
#[verifier::external_body]
fn grapheme_indices(text: &str) -> (r: Vec<usize>)
    ensures
        r@ == grapheme_starts(text@),
        segment_starts(text@, r@),
{
    text.grapheme_indices(true).map(|(index, _)| index).collect()
}

/// `UnicodeSegmentation::split_word_bound_indices`: the byte offset of each
/// word-boundary segment of `text`, in order. The segments are the non-empty pieces
/// that make up `text`, so their offsets are increasing character boundaries that
/// start at 0.
#[verifier::external_body]
fn split_word_bound_indices(text: &str) -> (r: Vec<usize>)
    ensures
        r@ == word_bound_starts(text@),
        segment_starts(text@, r@),
{
    text.split_word_bound_indices().map(|(index, _)| index).collect()
}

/// Number of leading elements of `seq` that are at most `bound`.
pub open spec fn leading_at_most(seq: Seq<usize>, bound: int) -> nat
    decreases seq.len(),
{
    if seq.len() == 0 {
        0
    } else if seq[0] <= bound {
        1 + leading_at_most(seq.drop_first(), bound)
    } else {
        0
    }
}

/// Number of leading elements of `seq` that are below `bound`.
pub open spec fn leading_below(seq: Seq<usize>, bound: int) -> nat
    decreases seq.len(),
{
    if seq.len() == 0 {
        0
    } else if seq[0] < bound {
        1 + leading_below(seq.drop_first(), bound)
    } else {
        0
    }
}

/// The grapheme starts of `text` followed by its length.
pub open spec fn grapheme_bounds(text: Seq<char>) -> Seq<usize> {
    grapheme_starts(text).push(byte_len(text) as usize)
}

/// The greatest grapheme boundary (or the end of `text`) reached by scanning the
/// boundaries in order while they do not pass `offset`; 0 when even the first
/// passes it.
pub open spec fn spec_floor_boundary(text: Seq<char>, offset: int) -> int {
    let bounds = grapheme_bounds(text);
    let n = leading_at_most(bounds, offset);
    if n == 0 {
        0
    } else {
        bounds[n - 1] as int
    }
}

/// The last grapheme start of `text` before byte `x`, or 0.
pub open spec fn spec_previous_start(starts: Seq<usize>, x: int) -> int
    decreases starts.len(),
{
    if starts.len() == 0 {
        0
    } else if starts.last() < x {
        starts.last() as int
    } else {
        spec_previous_start(starts.drop_last(), x)
    }
}

/// The first grapheme start of `text` after byte `x`, or `end`.
pub open spec fn spec_next_start(starts: Seq<usize>, x: int, end: int) -> int
    decreases starts.len(),
{
    if starts.len() == 0 {
        end
    } else if starts[0] > x {
        starts[0] as int
    } else {
        spec_next_start(starts.drop_first(), x, end)
    }
}

proof fn lemma_leading_at_most(seq: Seq<usize>, bound: int, i: int)
    requires
        0 <= i <= seq.len(),
        forall|j: int| 0 <= j < i ==> seq[j] <= bound,
        i == seq.len() || seq[i] > bound,
    ensures
        leading_at_most(seq, bound) == i,
    decreases i,
{
    if i > 0 {
        lemma_leading_at_most(seq.drop_first(), bound, i - 1);
    }
}

proof fn lemma_leading_below(seq: Seq<usize>, bound: int, i: int)
    requires
        0 <= i <= seq.len(),
        forall|j: int| 0 <= j < i ==> seq[j] < bound,
        i == seq.len() || seq[i] >= bound,
    ensures
        leading_below(seq, bound) == i,
    decreases i,
{
    if i > 0 {
        lemma_leading_below(seq.drop_first(), bound, i - 1);
    }
}

/// The greatest grapheme boundary of `text` (its end included) that does not pass
/// `offset`, or 0.
pub fn floor_boundary(text: &str, offset: usize) -> (r: usize)
    ensures
        r == spec_floor_boundary(text@, offset as int),
        is_boundary(text@, r as int),
        r <= offset || r == 0,
        offset as int >= byte_len(text@) ==> r == byte_len(text@),
{
    let starts = grapheme_indices(text);
    let len = text.as_bytes().len();
    proof {
        lemma_encode_utf8_len(text@);
        lemma_boundary_ends(text@);
    }
    let ghost bounds = starts@.push(len);
    let mut i: usize = 0;
    while i < starts.len() && starts[i] <= offset
        invariant
            i <= starts@.len(),
            bounds == starts@.push(len),
            forall|j: int| 0 <= j < i ==> bounds[j] <= offset,
        decreases starts@.len() - i,
    {
        i = i + 1;
    }
    proof {
        if i > 0 {
            assert(bounds[i - 1] == starts@[i - 1]);
        }
    }
    let r = if i < starts.len() {
        proof {
            lemma_leading_at_most(bounds, offset as int, i as int);
        }
        if i == 0 { 0 } else { starts[i - 1] }
    } else if len <= offset {
        proof {
            lemma_leading_at_most(bounds, offset as int, i as int + 1);
        }
        len
    } else {
        proof {
            lemma_leading_at_most(bounds, offset as int, i as int);
        }
        if i == 0 { 0 } else { starts[i - 1] }
    };
    r
}

/// The last grapheme start of `text` before byte `x`, or 0.
pub fn previous_grapheme_start(text: &str, x: usize) -> (r: usize)
    ensures
        r == spec_previous_start(grapheme_starts(text@), x as int),
        is_boundary(text@, r as int),
        r < x || r == 0,
{
    let starts = grapheme_indices(text);
    proof {
        lemma_boundary_ends(text@);
    }
    let mut i = starts.len();
    proof {
        assert(starts@.take(starts@.len() as int) =~= starts@);
    }
    while i > 0 && starts[i - 1] >= x
        invariant
            i <= starts@.len(),
            spec_previous_start(starts@.take(i as int), x as int)
                == spec_previous_start(starts@, x as int),
        decreases i,
    {
        proof {
            assert(starts@.take(i as int).drop_last() =~= starts@.take(i - 1));
        }
        i = i - 1;
    }
    proof {
        assert(starts@.take(starts@.len() as int) =~= starts@);
    }
    if i == 0 {
        proof {
            assert(starts@.take(0) =~= Seq::<usize>::empty());
        }
        0
    } else {
        proof {
            assert(starts@.take(i as int).last() == starts@[i - 1]);
        }
        starts[i - 1]
    }
}

/// The first grapheme start of `text` after byte `x`, or the length of `text`.
pub fn next_grapheme_start(text: &str, x: usize) -> (r: usize)
    ensures
        r == spec_next_start(grapheme_starts(text@), x as int, byte_len(text@) as int),
        is_boundary(text@, r as int),
        r > x || r == byte_len(text@),
        segment_starts(text@, grapheme_starts(text@)),
        byte_len(text@) <= usize::MAX,
{
    let starts = grapheme_indices(text);
    let len = text.as_bytes().len();
    proof {
        lemma_encode_utf8_len(text@);
        lemma_boundary_ends(text@);
    }
    let mut i: usize = 0;
    proof {
        assert(starts@.skip(0) =~= starts@);
    }
    while i < starts.len() && starts[i] <= x
        invariant
            i <= starts@.len(),
            spec_next_start(starts@.skip(i as int), x as int, len as int)
                == spec_next_start(starts@, x as int, len as int),
        decreases starts@.len() - i,
    {
        proof {
            assert(starts@.skip(i as int).drop_first() =~= starts@.skip(i + 1));
        }
        i = i + 1;
    }
    proof {
        assert(starts@.skip(0) =~= starts@);
    }
    if i < starts.len() {
        starts[i]
    } else {
        proof {
            assert(starts@.skip(i as int) =~= Seq::<usize>::empty());
        }
        len
    }
}

/// The next grapheme start after `x` (or `end` when there is none) lies past
/// `x`, is a start or `end`, and no start lies strictly between.
pub proof fn lemma_next_start(starts: Seq<usize>, x: int, end: int)
    requires
        forall|i: int, j: int| 0 <= i < j < starts.len() ==> starts[i] < starts[j],
        forall|i: int| 0 <= i < starts.len() ==> starts[i] < end,
        x < end,
    ensures
        x < spec_next_start(starts, x, end) <= end,
        spec_next_start(starts, x, end) == end || exists|k: int|
            0 <= k < starts.len() && starts[k] == spec_next_start(starts, x, end),
        forall|k: int| 0 <= k < starts.len() && starts[k] > x ==> starts[k] >= spec_next_start(starts, x, end),
    decreases starts.len(),
{
    if starts.len() > 0 {
        let t = starts.drop_first();
        lemma_next_start(t, x, end);
        if starts[0] > x {
            assert forall|k: int| 0 <= k < starts.len() && #[trigger] starts[k] > x implies starts[k] >= starts[0] by {
                if k > 0 {
                    assert(starts[0] < starts[k]);
                }
            }
        } else {
            assert forall|k: int| 0 <= k < starts.len() && starts[k] > x implies starts[k] >= spec_next_start(
                starts,
                x,
                end,
            ) by {
                assert(k != 0);
                assert(starts[k] == t[k - 1]);
            }
            if spec_next_start(t, x, end) != end {
                let k = choose|k: int| 0 <= k < t.len() && t[k] == spec_next_start(t, x, end);
                assert(starts[k + 1] == t[k]);
            }
        }
    }
}

/// The elements that `leading_at_most` counts are at most the bound.
proof fn lemma_leading_at_most_le(seq: Seq<usize>, bound: int)
    ensures
        leading_at_most(seq, bound) <= seq.len(),
        forall|j: int| 0 <= j < leading_at_most(seq, bound) ==> seq[j] <= bound,
    decreases seq.len(),
{
    if seq.len() > 0 && seq[0] <= bound {
        lemma_leading_at_most_le(seq.drop_first(), bound);
        assert forall|j: int| 0 <= j < leading_at_most(seq, bound) implies seq[j] <= bound by {
            if j > 0 {
                assert(seq[j] == seq.drop_first()[j - 1]);
            }
        }
    }
}

/// Flooring to a grapheme boundary gives no more than the offset, and leaves a
/// grapheme start or the end of the text where it is.
pub proof fn lemma_floor_boundary(text: Seq<char>, b: int)
    requires
        segment_starts(text, grapheme_starts(text)),
        byte_len(text) <= usize::MAX,
        0 <= b,
    ensures
        0 <= spec_floor_boundary(text, b) <= b,
        (b == byte_len(text) || exists|k: int|
            0 <= k < grapheme_starts(text).len() && grapheme_starts(text)[k] == b) ==> spec_floor_boundary(text, b)
            == b,
{
    let starts = grapheme_starts(text);
    let bounds = grapheme_bounds(text);
    lemma_leading_at_most_le(bounds, b);
    assert(bounds.len() == starts.len() + 1);
    assert(bounds[starts.len() as int] == byte_len(text));
    assert forall|i: int, j: int| 0 <= i < j < bounds.len() implies bounds[i] < bounds[j] by {
        assert(bounds[i] == starts[i]);
        if j == starts.len() {
            assert(starts[i] < byte_len(text));
        } else {
            assert(bounds[j] == starts[j]);
            assert(starts[i] < starts[j]);
        }
    }
    if b == byte_len(text) {
        assert forall|j: int| 0 <= j < starts.len() + 1 implies bounds[j] <= b by {
            if j < starts.len() {
                assert(bounds[j] == starts[j]);
            }
        }
        lemma_leading_at_most(bounds, b, starts.len() + 1int);
    } else if exists|k: int| 0 <= k < starts.len() && starts[k] == b {
        let k = choose|k: int| 0 <= k < starts.len() && starts[k] == b;
        assert(bounds[k] == starts[k]);
        assert forall|j: int| 0 <= j < k + 1 implies bounds[j] <= b by {
            if j < k {
                assert(bounds[j] < bounds[k]);
            }
        }
        assert(bounds[k + 1] > bounds[k]);
        lemma_leading_at_most(bounds, b, k + 1);
    }
}

/// Two distinct boundaries hold at least one character between them.
pub proof fn lemma_range_between_boundaries(s: Seq<char>, c: int, n: int)
    requires
        is_boundary(s, c),
        is_boundary(s, n),
        c < n,
    ensures
        byte_range(s, c, n).len() > 0,
{
    let kc = choose|k: int| 0 <= k <= s.len() && #[trigger] byte_len(s.take(k)) == c;
    let kn = choose|k: int| 0 <= k <= s.len() && #[trigger] byte_len(s.take(k)) == n;
    lemma_prefix_bytes_order(s, kc, kn);
    lemma_chars_before_boundary(s, kc);
    lemma_chars_before_boundary(s, kn);
}

/// Prefix byte lengths are strictly increasing in the prefix length.
pub proof fn lemma_prefix_bytes_order(s: Seq<char>, a: int, b: int)
    requires
        0 <= a <= s.len(),
        0 <= b <= s.len(),
    ensures
        (byte_len(s.take(a)) < byte_len(s.take(b))) <==> (a < b),
        (byte_len(s.take(a)) == byte_len(s.take(b))) <==> (a == b),
{
    if a <= b {
        lemma_prefix_bytes(s, a, b);
    } else {
        lemma_prefix_bytes(s, b, a);
    }
}

/// The characters of `s` that start in the byte range from boundary `start` to
/// boundary `end`.
pub open spec fn byte_range(s: Seq<char>, start: int, end: int) -> Seq<char> {
    s.subrange(chars_before_byte(s, start) as int, chars_before_byte(s, end) as int)
}

/// `s` with the characters in the byte range from boundary `start` to boundary `end`
/// replaced by `insert`.
pub open spec fn replace_bytes(s: Seq<char>, start: int, end: int, insert: Seq<char>) -> Seq<char> {
    s.take(chars_before_byte(s, start) as int) + insert + s.skip(chars_before_byte(s, end) as int)
}

/// Appends to `out` the characters of `text` that start in the byte range
/// `start..end`, whose ends are character boundaries.
fn push_byte_range(out: &mut String, text: &str, start: usize, end: usize)
    requires
        start <= end,
        is_boundary(text@, start as int),
        is_boundary(text@, end as int),
    ensures
        final(out)@ == old(out)@ + byte_range(text@, start as int, end as int),
{
    let ghost s = text@;
    let ghost out0 = out@;
    let ghost ks = choose|k: int| 0 <= k <= s.len() && #[trigger] byte_len(s.take(k)) == start;
    let ghost ke = choose|k: int| 0 <= k <= s.len() && #[trigger] byte_len(s.take(k)) == end;
    proof {
        lemma_chars_before_boundary(s, ks);
        lemma_chars_before_boundary(s, ke);
        lemma_prefix_bytes_order(s, ks, ke);
        lemma_encode_utf8_len(s);
    }
    let len = text.as_bytes().len();
    let mut pos: usize = 0;
    for c in it: text.chars()
        invariant
            it.seq() == s,
            0 <= ks <= ke <= s.len(),
            byte_len(s.take(ks)) == start,
            byte_len(s.take(ke)) == end,
            it.index() <= s.len(),
            pos == byte_len(s.take(it.index() as int)),
            byte_len(s) == len,
            out@ == out0 + s.subrange(
                if ks < it.index() { ks } else { it.index() as int },
                if ke < it.index() { ke } else { it.index() as int },
            ),
    {
        let ghost k = it.index() as int;
        proof {
            lemma_prefix_bytes_order(s, k, ks);
            lemma_prefix_bytes_order(s, k, ke);
            lemma_prefix_bytes(s, k + 1, s.len() as int);
            assert(s.take(k + 1) =~= s.take(k).push(c));
            lemma_byte_len_push(s.take(k), c);
            assert(s.take(s.len() as int) =~= s);
        }
        if start <= pos && pos < end {
            push_char(out, c);
            proof {
                assert(s.subrange(ks, k + 1) =~= s.subrange(ks, k).push(c));
            }
        }
        pos = pos + char_utf8_len(c);
    }
}

/// The text between two character boundaries of `text`.
pub fn substring(text: &str, start: usize, end: usize) -> (r: String)
    requires
        start <= end,
        is_boundary(text@, start as int),
        is_boundary(text@, end as int),
    ensures
        r@ == byte_range(text@, start as int, end as int),
{
    let mut out = String::new();
    push_byte_range(&mut out, text, start, end);
    out
}

/// `text` with the part between two of its character boundaries replaced by `insert`.
pub fn replace_range(text: &str, start: usize, end: usize, insert: &str) -> (r: String)
    requires
        start <= end,
        is_boundary(text@, start as int),
        is_boundary(text@, end as int),
    ensures
        r@ == replace_bytes(text@, start as int, end as int, insert@),
{
    let ghost s = text@;
    let len = text.as_bytes().len();
    proof {
        lemma_encode_utf8_len(s);
        lemma_boundary_ends(s);
        lemma_chars_before_boundary(s, 0);
        lemma_chars_before_boundary(s, s.len() as int);
        assert(s.take(0) =~= Seq::<char>::empty());
        assert(s.take(s.len() as int) =~= s);
        let ke = choose|k: int| 0 <= k <= s.len() && #[trigger] byte_len(s.take(k)) == end;
        lemma_prefix_bytes(s, ke, s.len() as int);
    }
    let mut out = String::new();
    push_byte_range(&mut out, text, 0, start);
    out.append(insert);
    push_byte_range(&mut out, text, end, len);
    proof {
        assert(out@ =~= replace_bytes(s, start as int, end as int, insert@));
    }
    out
}

/// Number of grapheme clusters of `text` that start before byte `offset`.
pub fn grapheme_count_below(text: &str, offset: usize) -> (r: usize)
    ensures
        r == leading_below(grapheme_starts(text@), offset as int),
        r <= byte_len(text@),
{
    let starts = grapheme_indices(text);
    let mut i: usize = 0;
    while i < starts.len() && starts[i] < offset
        invariant
            i <= starts@.len(),
            forall|j: int| 0 <= j < i ==> starts@[j] < offset,
        decreases starts@.len() - i,
    {
        i = i + 1;
    }
    proof {
        lemma_leading_below(starts@, offset as int, i as int);
        lemma_starts_count(text@, starts@);
    }
    i
}

/// A segmentation of `text` has at most as many pieces as `text` has bytes.
proof fn lemma_starts_count(text: Seq<char>, starts: Seq<usize>)
    requires
        segment_starts(text, starts),
    ensures
        starts.len() <= byte_len(text),
{
    if starts.len() > 0 {
        assert forall|i: int| 0 <= i < starts.len() implies starts[i] >= i by {
            lemma_increasing_at_least_index(starts, i);
        }
        assert(starts[starts.len() - 1] < byte_len(text));
    }
}

proof fn lemma_increasing_at_least_index(starts: Seq<usize>, i: int)
    requires
        0 <= i < starts.len(),
        forall|a: int, b: int| 0 <= a < b < starts.len() ==> starts[a] < starts[b],
    ensures
        starts[i] >= i,
    decreases i,
{
    if i > 0 {
        lemma_increasing_at_least_index(starts, i - 1);
    }
}

/// Number of grapheme clusters of `text`.
pub fn grapheme_count(text: &str) -> (r: usize)
    ensures
        r == grapheme_starts(text@).len(),
{
    let starts = grapheme_indices(text);
    starts.len()
}

/// The start of the `n`-th grapheme cluster of `text`, or the length of `text`
/// when it has no more than `n` clusters.
pub fn nth_grapheme_start(text: &str, n: usize) -> (r: usize)
    ensures
        r == if n < grapheme_starts(text@).len() {
            grapheme_starts(text@)[n as int] as int
        } else {
            byte_len(text@) as int
        },
        is_boundary(text@, r as int),
{
    let starts = grapheme_indices(text);
    proof {
        lemma_encode_utf8_len(text@);
        lemma_boundary_ends(text@);
    }
    if n < starts.len() {
        starts[n]
    } else {
        text.as_bytes().len()
    }
}

/// The end of segment `i` of a segmentation with the given starts: the next start,
/// or the end of the text.
pub open spec fn segment_end(starts: Seq<usize>, i: int, end: int) -> int {
    if i + 1 < starts.len() {
        starts[i + 1] as int
    } else {
        end
    }
}

/// The first segment, from index `i` on, that contains byte `offset`.
pub open spec fn segment_containing(starts: Seq<usize>, end: int, offset: int, i: int) -> Option<(usize, usize)>
    decreases starts.len() - i,
{
    if i < 0 || i >= starts.len() {
        None
    } else if starts[i] <= offset && offset < segment_end(starts, i, end) {
        Some((starts[i], segment_end(starts, i, end) as usize))
    } else {
        segment_containing(starts, end, offset, i + 1)
    }
}

/// The word-boundary segment of `text` that contains byte `offset`, as a byte range.
pub fn word_range_at(text: &str, offset: usize) -> (r: Option<(usize, usize)>)
    ensures
        r == segment_containing(word_bound_starts(text@), byte_len(text@) as int, offset as int, 0),
        r matches Some((a, b)) ==> a <= offset < b && is_boundary(text@, a as int) && is_boundary(text@, b as int),
{
    let starts = split_word_bound_indices(text);
    let len = text.as_bytes().len();
    proof {
        lemma_encode_utf8_len(text@);
        lemma_boundary_ends(text@);
    }
    let mut i: usize = 0;
    while i < starts.len()
        invariant
            i <= starts@.len(),
            byte_len(text@) == len,
            is_boundary(text@, len as int),
            starts@ == word_bound_starts(text@),
            segment_starts(text@, starts@),
            segment_containing(starts@, len as int, offset as int, i as int)
                == segment_containing(starts@, len as int, offset as int, 0),
        decreases starts@.len() - i,
    {
        let end = if i + 1 < starts.len() { starts[i + 1] } else { len };
        if starts[i] <= offset && offset < end {
            proof {
                assert(is_boundary(text@, starts@[i as int] as int));
                if i + 1 < starts@.len() {
                    assert(is_boundary(text@, starts@[i + 1] as int));
                }
            }
            return Some((starts[i], end));
        }
        i = i + 1;
    }
    None
}

/// Whether the text between two character boundaries of `text` equals `other`.
pub fn byte_range_equals(text: &str, start: usize, end: usize, other: &str) -> (r: bool)
    requires
        start <= end,
        is_boundary(text@, start as int),
        is_boundary(text@, end as int),
    ensures
        r == (byte_range(text@, start as int, end as int) == other@),
{
    let part = substring(text, start, end);
    let other = other.to_owned();
    part == other
}

/// The byte offset that `from_utf16` finds is a character boundary.
pub proof fn lemma_from_utf16_boundary(s: Seq<char>, offset: int)
    ensures
        is_boundary(s, spec_from_utf16(s, offset) as int),
        spec_from_utf16(s, offset) <= byte_len(s),
{
    let k = chars_before_unit(s, offset);
    if s.len() > 0 {
        lemma_chars_before_unit_push(s.drop_last(), s.last(), offset);
        assert(s.drop_last().push(s.last()) =~= s);
    }
    assert(byte_len(s.take(k as int)) == spec_from_utf16(s, offset));
    lemma_prefix_bytes(s, k as int, s.len() as int);
}

/// Replacing a byte range keeps the bytes around it, and every character boundary
/// of the inserted text is one of the result.
pub proof fn lemma_replace_bytes(s: Seq<char>, start: int, end: int, t: Seq<char>, k: int)
    requires
        start <= end,
        is_boundary(s, start),
        is_boundary(s, end),
        0 <= k <= t.len(),
    ensures
        byte_len(replace_bytes(s, start, end, t)) == start + byte_len(t) + (byte_len(s) - end),
        is_boundary(replace_bytes(s, start, end, t), start + byte_len(t.take(k))),
        start + byte_len(t.take(k)) <= byte_len(replace_bytes(s, start, end, t)),
        byte_len(t.take(k)) <= byte_len(t),
{
    let ks = choose|j: int| 0 <= j <= s.len() && #[trigger] byte_len(s.take(j)) == start;
    let ke = choose|j: int| 0 <= j <= s.len() && #[trigger] byte_len(s.take(j)) == end;
    lemma_chars_before_boundary(s, ks);
    lemma_chars_before_boundary(s, ke);
    let a = s.take(ks);
    let b = s.skip(ke);
    let r = replace_bytes(s, start, end, t);
    assert(r == a + t + b);
    lemma_byte_len_add(a + t, b);
    lemma_byte_len_add(a, t);
    lemma_byte_len_add(s.take(ke), b);
    assert(s.take(ke) + b =~= s);
    assert(r.take(ks + k) =~= a + t.take(k));
    lemma_byte_len_add(a, t.take(k));
    lemma_prefix_bytes(t, k, t.len() as int);
    assert(t.take(t.len() as int) =~= t);
    lemma_prefix_bytes(r, ks + k, r.len() as int);
    assert(r.take(r.len() as int) =~= r);
}

/// Prefixes of longer strings have strictly more UTF-16 code units.
proof fn lemma_prefix_units(s: Seq<char>, i: int, j: int)
    requires
        0 <= i <= j <= s.len(),
    ensures
        utf16_units(s.take(i)) + (j - i) <= utf16_units(s.take(j)),
    decreases j - i,
{
    if i < j {
        lemma_prefix_units(s, i, j - 1);
        assert(s.take(j).drop_last() =~= s.take(j - 1));
    }
}

/// The character index at a UTF-16 boundary: `k` characters precede UTF-16
/// offset `utf16_units(s.take(k))`.
proof fn lemma_chars_before_unit_at(s: Seq<char>, k: int)
    requires
        0 <= k <= s.len(),
    ensures
        chars_before_unit(s, utf16_units(s.take(k)) as int) == k,
    decreases s.len(),
{
    if s.len() > 0 {
        let t = s.drop_last();
        if k == s.len() {
            assert(s.take(k) =~= s);
            assert(t.push(s.last()) =~= s);
            lemma_utf16_units_push(t, s.last());
        } else {
            assert(t.take(k) =~= s.take(k));
            lemma_prefix_units(s, k, s.len() - 1);
            assert(s.take(s.len() - 1) =~= t);
            lemma_chars_before_unit_at(t, k);
        }
    } else {
        assert(s.take(k) =~= s);
    }
}

/// Converting a character boundary to a UTF-16 offset and back gives the same
/// byte offset.
pub proof fn lemma_utf16_round_trip(s: Seq<char>, offset: int)
    requires
        is_boundary(s, offset),
    ensures
        spec_from_utf16(s, spec_to_utf16(s, offset) as int) == offset,
{
    let k = choose|k: int| 0 <= k <= s.len() && #[trigger] byte_len(s.take(k)) == offset;
    lemma_chars_before_boundary(s, k);
    lemma_chars_before_unit_at(s, k);
}

pub proof fn lemma_chars_before_unit_bound(s: Seq<char>, offset: int)
    ensures
        chars_before_unit(s, offset) <= s.len(),
{
    if s.len() > 0 {
        lemma_chars_before_unit_push(s.drop_last(), s.last(), offset);
        assert(s.drop_last().push(s.last()) =~= s);
    }
}

} // verus!
