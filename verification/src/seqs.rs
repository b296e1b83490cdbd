//! Facts about sequences that the modules of this crate share.
use vstd::prelude::*;

verus! {

/// No element of `s` occurs twice.
pub open spec fn no_repeats<A>(s: Seq<A>) -> bool {
    forall|i: int, j: int| 0 <= i < j < s.len() ==> s[i] != s[j]
}

pub open spec fn differs_from<A>(k: A) -> spec_fn(A) -> bool {
    |x: A| x != k
}

pub proof fn lemma_filter_all<A>(s: Seq<A>, p: spec_fn(A) -> bool)
    requires
        forall|i: int| 0 <= i < s.len() ==> p(s[i]),
    ensures
        s.filter(p) == s,
    decreases s.len(),
{
    reveal(Seq::filter);
    if s.len() > 0 {
        lemma_filter_all(s.drop_last(), p);
        assert(s.drop_last().push(s.last()) =~= s);
    }
}

pub proof fn lemma_filter_none<A>(s: Seq<A>, p: spec_fn(A) -> bool)
    requires
        forall|i: int| 0 <= i < s.len() ==> !p(s[i]),
    ensures
        s.filter(p) == Seq::<A>::empty(),
    decreases s.len(),
{
    reveal(Seq::filter);
    if s.len() > 0 {
        lemma_filter_none(s.drop_last(), p);
    }
    assert(s.filter(p) =~= Seq::<A>::empty());
}

/// Removing the element at `i` of a sequence without repeats is dropping that
/// element wherever it occurs.
pub proof fn lemma_remove_no_repeats<A>(s: Seq<A>, i: int)
    requires
        no_repeats(s),
        0 <= i < s.len(),
    ensures
        s.filter(differs_from(s[i])) == s.remove(i),
        no_repeats(s.remove(i)),
{
    let k = s[i];
    let a = s.take(i);
    let m = seq![s[i]];
    let c = s.skip(i + 1);
    assert(s =~= a + m + c);
    Seq::filter_distributes_over_add(a + m, c, differs_from(k));
    Seq::filter_distributes_over_add(a, m, differs_from(k));
    assert forall|j: int| 0 <= j < a.len() implies differs_from(k)(a[j]) by {
        assert(a[j] == s[j]);
    }
    assert forall|j: int| 0 <= j < c.len() implies differs_from(k)(c[j]) by {
        assert(c[j] == s[i + 1 + j]);
    }
    lemma_filter_all(a, differs_from(k));
    lemma_filter_all(c, differs_from(k));
    lemma_filter_none(m, differs_from(k));
    assert(a + Seq::<A>::empty() + c =~= s.remove(i));
    let r = s.remove(i);
    assert forall|x: int, y: int| 0 <= x < y < r.len() implies r[x] != r[y] by {
        let x0 = if x < i { x } else { x + 1 };
        let y0 = if y < i { y } else { y + 1 };
        assert(r[x] == s[x0]);
        assert(r[y] == s[y0]);
    }
}

/// A filter keeps a sequence free of repeats.
pub proof fn lemma_filter_no_repeats<A>(s: Seq<A>, p: spec_fn(A) -> bool)
    requires
        no_repeats(s),
    ensures
        no_repeats(s.filter(p)),
    decreases s.len(),
{
    reveal(Seq::filter);
    if s.len() > 0 {
        let t = s.drop_last();
        assert(no_repeats(t));
        lemma_filter_no_repeats(t, p);
        if p(s.last()) {
            let f = t.filter(p);
            assert forall|i: int, j: int| 0 <= i < j < f.push(s.last()).len() implies f.push(s.last())[i] != f.push(
                s.last(),
            )[j] by {
                if j == f.len() {
                    t.lemma_filter_contains_rev(p, f[i]);
                    assert(f.contains(f[i]));
                    if f[i] == s.last() {
                        let k = choose|k: int| 0 <= k < t.len() && t[k] == s.last();
                        assert(s[k] == s[s.len() - 1]);
                    }
                }
            }
        }
    }
}

} // verus!
