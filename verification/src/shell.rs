//! The shell's outputs: which display is primary, which is focused, and which one
//! a newly opened window should use.
use vstd::prelude::*;
use crate::watcher::{less_than, text_lt};

verus! {

/// The value of `uuid::Uuid::new_v5(&uuid::Uuid::NAMESPACE_DNS, name)` (as a
/// `u128`) for the UTF-8 bytes of `name`: the UUID that names an output.
pub uninterp spec fn dns_uuid_v5(name: Seq<char>) -> u128;

/// `uuid::Uuid::new_v5` in the DNS namespace, on the UTF-8 bytes of `name`, read
/// as a `u128` (`Uuid::as_u128`). The result is named, not computed here.
#[verifier::external_body]
pub(crate) fn output_uuid(name: &str) -> (r: u128)
    ensures
        r == dns_uuid_v5(name@),
{
    uuid::Uuid::new_v5(&uuid::Uuid::NAMESPACE_DNS, name.as_bytes()).as_u128()
}

/// `n` is the least name, in `String` order, of the bars configured as primary.
pub open spec fn is_least_primary(bars: Seq<(String, bool)>, n: Seq<char>) -> bool {
    &&& exists|i: int| 0 <= i < bars.len() && bars[i].1 && bars[i].0@ == n
    &&& forall|j: int| 0 <= j < bars.len() && bars[j].1 ==> !text_lt(#[trigger] bars[j].0@, n)
}

pub open spec fn has_primary(bars: Seq<(String, bool)>) -> bool {
    exists|i: int| 0 <= i < bars.len() && #[trigger] bars[i].1
}

/// The least name, in `String` order, of the outputs whose bar is configured as
/// primary. `bars` pairs each output name with that setting.
pub fn primary_output_name(bars: &Vec<(String, bool)>) -> (r: Option<String>)
    ensures
        r is None <==> !has_primary(bars@),
        r matches Some(n) ==> is_least_primary(bars@, n@),
{
    let mut best: Option<String> = None;
    let mut i: usize = 0;
    while i < bars.len()
        invariant
            i <= bars@.len(),
            best is None <==> !has_primary(bars@.take(i as int)),
            best matches Some(n) ==> is_least_primary(bars@.take(i as int), n@),
        decreases bars@.len() - i,
    {
        let ghost t = bars@.take(i as int);
        let ghost t1 = bars@.take(i + 1);
        proof {
            assert(t1 =~= t.push(bars@[i as int]));
        }
        if bars[i].1 {
            let replace = match &best {
                None => true,
                Some(n) => less_than(bars[i].0.as_str(), n.as_str()),
            };
            if replace {
                proof {
                    if best is Some {
                    let n = best->0;
                        assert forall|j: int| 0 <= j < t1.len() && t1[j].1 implies !text_lt(#[trigger] t1[j].0@, bars@[i as int].0@) by {
                            if j < i {
                                assert(t[j] == t1[j]);
                                assert(!text_lt(t[j].0@, n@));
                                if text_lt(t1[j].0@, bars@[i as int].0@) {
                                    crate::watcher::lemma_text_lt_transitive(t1[j].0@, bars@[i as int].0@, n@);
                                }
                            } else {
                                crate::watcher::lemma_text_lt_order(bars@[i as int].0@, bars@[i as int].0@);
                            }
                        }
                    } else {
                        assert forall|j: int| 0 <= j < t1.len() && t1[j].1 implies !text_lt(#[trigger] t1[j].0@, bars@[i as int].0@) by {
                            if j < i {
                                assert(t[j] == t1[j]);
                                assert(has_primary(t));
                            } else {
                                crate::watcher::lemma_text_lt_order(bars@[i as int].0@, bars@[i as int].0@);
                            }
                        }
                    }
                    assert(t1[i as int].1);
                }
                best = Some(bars[i].0.clone());
            } else {
                proof {
                    let n = best->0;
                    assert(!text_lt(bars@[i as int].0@, n@));
                    let k = choose|k: int| 0 <= k < t.len() && t[k].1 && t[k].0@ == n@;
                    assert(t1[k] == t[k]);
                    assert forall|j: int| 0 <= j < t1.len() && t1[j].1 implies !text_lt(#[trigger] t1[j].0@, n@) by {
                        if j < i {
                            assert(t[j] == t1[j]);
                        }
                    }
                    assert(has_primary(t1)) by {
                        assert(t1[k].1);
                    }
                }
            }
        } else {
            proof {
                if has_primary(t1) {
                    let k = choose|k: int| 0 <= k < t1.len() && #[trigger] t1[k].1;
                    assert(k < i);
                    assert(t[k] == t1[k]);
                }
                if best is Some {
                    let n = best->0;
                    let k = choose|k: int| 0 <= k < t.len() && t[k].1 && t[k].0@ == n@;
                    assert(t1[k] == t[k]);
                    assert forall|j: int| 0 <= j < t1.len() && t1[j].1 implies !text_lt(#[trigger] t1[j].0@, n@) by {
                        if j < i {
                            assert(t[j] == t1[j]);
                        }
                    }
                }
                if has_primary(t) {
                    let k = choose|k: int| 0 <= k < t.len() && #[trigger] t[k].1;
                    assert(t1[k] == t[k]);
                }
            }
        }
        i = i + 1;
    }
    proof {
        assert(bars@.take(bars@.len() as int) =~= bars@);
    }
    best
}

/// The UUID of the primary output: that of the least name of the outputs whose
/// bar is configured as primary.
pub fn primary_output_uuid(bars: &Vec<(String, bool)>) -> (r: Option<u128>)
    ensures
        r is None <==> !has_primary(bars@),
        r matches Some(u) ==> exists|n: Seq<char>| is_least_primary(bars@, n) && u == dns_uuid_v5(n),
{
    match primary_output_name(bars) {
        Some(n) => Some(output_uuid(n.as_str())),
        None => None,
    }
}

/// A connected display as the shell sees it: the platform's identifier, and the
/// UUID derived from its output name when the platform can report one.
#[derive(Clone, Copy, Debug, PartialEq, Eq, Structural)]
pub struct Display {
    pub id: u64,
    pub uuid: Option<u128>,
}

/// A display together with its role in the shell.
#[derive(Clone, Copy, Debug, PartialEq, Eq, Structural)]
pub struct GhostShellOutput {
    /// The platform display.
    pub display: Display,
    /// Whether the display is configured as primary.
    pub is_primary: bool,
    /// Whether the display currently has focus.
    pub is_focused: bool,
}

/// State of the shell: its active outputs, ordered by display identifier.
pub struct GhostShell {
    outputs: Vec<GhostShellOutput>,
}

/// The displays of `s` that carry identifier `k`, in order.
pub open spec fn with_id(s: Seq<Display>, k: u64) -> Seq<Display> {
    s.filter(|d: Display| d.id == k)
}

pub open spec fn sorted_by_id(s: Seq<Display>) -> bool {
    forall|i: int, j: int| 0 <= i < j < s.len() ==> s[i].id <= s[j].id
}

/// `b` orders the displays of `a` by identifier, keeping displays with equal
/// identifiers in the order they have in `a`.
pub open spec fn stable_sorted_by_id(a: Seq<Display>, b: Seq<Display>) -> bool {
    &&& sorted_by_id(b)
    &&& forall|k: u64| #[trigger] with_id(b, k) == with_id(a, k)
}

/// `display` reports UUID `uuid`.
pub open spec fn has_uuid(display: Display, uuid: Option<u128>) -> bool {
    match uuid {
        Some(u) => display.uuid == Some(u),
        None => false,
    }
}

proof fn lemma_insert_with_id(s: Seq<Display>, pos: int, x: Display, k: u64)
    requires
        0 <= pos <= s.len(),
        forall|i: int| 0 <= i < pos ==> s[i].id <= x.id,
        forall|i: int| pos <= i < s.len() ==> s[i].id > x.id,
    ensures
        with_id(s.insert(pos, x), k) == if x.id == k {
            with_id(s, k).push(x)
        } else {
            with_id(s, k)
        },
{
    let p = |d: Display| d.id == k;
    let a = s.take(pos);
    let b = s.skip(pos);
    assert(s =~= a + b);
    assert(s.insert(pos, x) =~= a.push(x) + b);
    Seq::filter_distributes_over_add(a, b, p);
    Seq::filter_distributes_over_add(a.push(x), b, p);
    a.lemma_filter_push(x, p);
    if x.id == k {
        assert forall|i: int| 0 <= i < b.len() implies !p(b[i]) by {}
        crate::seqs::lemma_filter_none(b, p);
        assert(b.filter(p) =~= Seq::<Display>::empty());
        assert(a.filter(p) + Seq::<Display>::empty() =~= a.filter(p));
    }
}

/// Orders displays by identifier; displays with equal identifiers keep their order.
pub fn sort_displays(displays: &Vec<Display>) -> (r: Vec<Display>)
    ensures
        stable_sorted_by_id(displays@, r@),
        r@.len() == displays@.len(),
{
    let mut out: Vec<Display> = Vec::new();
    let mut i: usize = 0;
    while i < displays.len()
        invariant
            i <= displays@.len(),
            out@.len() == i,
            sorted_by_id(out@),
            forall|k: u64| #[trigger] with_id(out@, k) == with_id(displays@.take(i as int), k),
        decreases displays@.len() - i,
    {
        let x = displays[i];
        let mut pos: usize = 0;
        while pos < out.len() && out[pos].id <= x.id
            invariant
                pos <= out@.len(),
                forall|j: int| 0 <= j < pos ==> out@[j].id <= x.id,
            decreases out@.len() - pos,
        {
            pos = pos + 1;
        }
        proof {
            assert forall|j: int| pos <= j < out@.len() implies out@[j].id > x.id by {
                assert(out@[pos as int].id > x.id);
            }
            assert forall|k: u64| #[trigger] with_id(out@.insert(pos as int, x), k)
                == with_id(displays@.take(i + 1), k) by {
                lemma_insert_with_id(out@, pos as int, x, k);
                assert(displays@.take(i + 1) =~= displays@.take(i as int).push(x));
                displays@.take(i as int).lemma_filter_push(x, |d: Display| d.id == k);
            }
        }
        out.insert(pos, x);
        i = i + 1;
    }
    proof {
        assert(displays@.take(displays@.len() as int) =~= displays@);
    }
    out
}

/// The outputs for the given displays (ordered by identifier): the display whose
/// UUID is `primary` is primary, or else the first one; none is focused.
pub open spec fn outputs_for(sorted: Seq<Display>, primary: Option<u128>) -> Seq<GhostShellOutput> {
    let marked = sorted.map_values(
        |d: Display| GhostShellOutput { display: d, is_primary: has_uuid(d, primary), is_focused: false },
    );
    if (exists|i: int| 0 <= i < marked.len() && marked[i].is_primary) || marked.len() == 0 {
        marked
    } else {
        marked.update(0, GhostShellOutput { is_primary: true, ..marked[0] })
    }
}

/// `outputs` with focus on the displays that report UUID `focused`.
pub open spec fn with_focus(outputs: Seq<GhostShellOutput>, focused: Option<u128>) -> Seq<GhostShellOutput> {
    outputs.map_values(
        |o: GhostShellOutput| GhostShellOutput { is_focused: has_uuid(o.display, focused), ..o },
    )
}

/// Index of the first output satisfying `p`.
pub open spec fn first_index(outputs: Seq<GhostShellOutput>, p: spec_fn(GhostShellOutput) -> bool) -> Option<int> {
    if exists|i: int| 0 <= i < outputs.len() && p(outputs[i]) {
        Some(choose|i: int| 0 <= i < outputs.len() && p(outputs[i]) && forall|j: int| 0 <= j < i ==> !p(outputs[j]))
    } else {
        None
    }
}

/// Whenever some display is connected, some output is primary: the display
/// whose UUID is configured as primary, or else the first one by identifier.
pub proof fn lemma_connected_displays_have_a_primary(sorted: Seq<Display>, primary: Option<u128>, focused: Option<u128>)
    requires
        sorted.len() > 0,
    ensures
        exists|i: int|
            0 <= i < sorted.len() && (#[trigger] with_focus(outputs_for(sorted, primary), focused)[i]).is_primary,
        forall|i: int|
            0 <= i < sorted.len() && has_uuid(sorted[i], primary) ==> (#[trigger] with_focus(
                outputs_for(sorted, primary),
                focused,
            )[i]).is_primary,
        (forall|i: int| 0 <= i < sorted.len() ==> !has_uuid(#[trigger] sorted[i], primary)) ==> with_focus(
            outputs_for(sorted, primary),
            focused,
        )[0].is_primary,
{
    let marked = sorted.map_values(
        |d: Display| GhostShellOutput { display: d, is_primary: has_uuid(d, primary), is_focused: false },
    );
    let o = outputs_for(sorted, primary);
    let f = with_focus(o, focused);
    if exists|i: int| 0 <= i < marked.len() && marked[i].is_primary {
        let i = choose|i: int| 0 <= i < marked.len() && marked[i].is_primary;
        assert(f[i].is_primary);
    } else {
        assert(f[0].is_primary);
    }
}

/// Outputs keep the displays in order; only displays reporting the focused UUID
/// are focused, so clearing the focus leaves no output focused.
pub proof fn lemma_focus_follows_uuid(outputs: Seq<GhostShellOutput>, focused: Option<u128>)
    ensures
        with_focus(outputs, focused).len() == outputs.len(),
        forall|i: int|
            0 <= i < outputs.len() ==> (#[trigger] with_focus(outputs, focused)[i]).is_focused == has_uuid(
                outputs[i].display,
                focused,
            ) && with_focus(outputs, focused)[i].display == outputs[i].display
                && with_focus(outputs, focused)[i].is_primary == outputs[i].is_primary,
        first_index(with_focus(outputs, None), |o: GhostShellOutput| o.is_focused) is None,
{
    let f = with_focus(outputs, None);
    assert(!(exists|i: int| 0 <= i < f.len() && (|o: GhostShellOutput| o.is_focused)(f[i])));
}

impl GhostShell {
    pub closed spec fn outputs_view(&self) -> Seq<GhostShellOutput> {
        self.outputs@
    }

    /// A shell with the given outputs.
    pub fn new(outputs: Vec<GhostShellOutput>) -> (r: GhostShell)
        ensures
            r.outputs_view() == outputs@,
    {
        GhostShell { outputs }
    }

    /// Focuses the outputs whose display reports UUID `display_uuid`, and no other.
    pub fn set_focused_output(&mut self, display_uuid: Option<u128>)
        ensures
            final(self).outputs_view() == with_focus(old(self).outputs_view(), display_uuid),
    {
        let ghost old_outputs = self.outputs@;
        let mut i: usize = 0;
        while i < self.outputs.len()
            invariant
                i <= self.outputs@.len(),
                self.outputs@.len() == old_outputs.len(),
                forall|j: int| 0 <= j < i ==> self.outputs@[j] == (GhostShellOutput {
                    is_focused: has_uuid(old_outputs[j].display, display_uuid),
                    ..old_outputs[j]
                }),
                forall|j: int| i <= j < self.outputs@.len() ==> self.outputs@[j] == old_outputs[j],
            decreases old_outputs.len() - i,
        {
            let output = self.outputs[i];
            let focused = match display_uuid {
                Some(f) => match output.display.uuid {
                    Some(u) => u == f,
                    None => false,
                },
                None => false,
            };
            self.outputs.set(i, GhostShellOutput { is_focused: focused, ..output });
            i = i + 1;
        }
        proof {
            assert(self.outputs@ =~= with_focus(old_outputs, display_uuid));
        }
    }

    /// Replaces the outputs with the given displays, ordered by identifier. The
    /// display with UUID `primary` is primary, or else the first one; the display
    /// with UUID `focused` is focused.
    pub fn set_displays(&mut self, displays: Vec<Display>, primary: Option<u128>, focused: Option<u128>)
        ensures
            exists|sorted: Seq<Display>|
                stable_sorted_by_id(displays@, sorted)
                && final(self).outputs_view() == with_focus(outputs_for(sorted, primary), focused),
    {
        let sorted = sort_displays(&displays);
        let mut outputs: Vec<GhostShellOutput> = Vec::new();
        let mut any_primary = false;
        let mut i: usize = 0;
        while i < sorted.len()
            invariant
                i <= sorted@.len(),
                outputs@ == sorted@.take(i as int).map_values(
                    |d: Display| GhostShellOutput { display: d, is_primary: has_uuid(d, primary), is_focused: false },
                ),
                any_primary == exists|j: int| 0 <= j < i && has_uuid(#[trigger] sorted@[j], primary),
            decreases sorted@.len() - i,
        {
            let d = sorted[i];
            let is_primary = match primary {
                Some(p) => match d.uuid {
                    Some(u) => u == p,
                    None => false,
                },
                None => false,
            };
            outputs.push(GhostShellOutput { display: d, is_primary, is_focused: false });
            proof {
                assert(sorted@.take(i + 1) =~= sorted@.take(i as int).push(d));
                assert(outputs@ =~= sorted@.take(i + 1).map_values(
                    |d: Display| GhostShellOutput { display: d, is_primary: has_uuid(d, primary), is_focused: false },
                ));
                assert(is_primary == has_uuid(sorted@[i as int], primary));
            }
            any_primary = any_primary || is_primary;
            i = i + 1;
        }
        proof {
            assert(sorted@.take(sorted@.len() as int) =~= sorted@);
            let marked = sorted@.map_values(
                |d: Display| GhostShellOutput { display: d, is_primary: has_uuid(d, primary), is_focused: false },
            );
            assert(any_primary == exists|j: int| 0 <= j < marked.len() && marked[j].is_primary) by {
                if any_primary {
                    let j = choose|j: int| 0 <= j < i && has_uuid(#[trigger] sorted@[j], primary);
                    assert(marked[j].is_primary);
                }
            }
        }
        if !any_primary && outputs.len() > 0 {
            let first = outputs[0];
            outputs.set(0, GhostShellOutput { is_primary: true, ..first });
        }
        self.outputs = outputs;
        self.set_focused_output(focused);
        proof {
            assert(self.outputs@ == with_focus(outputs_for(sorted@, primary), focused));
        }
    }

    /// The output to use: the focused one, else the primary one.
    pub fn get_output(&self) -> (r: Option<GhostShellOutput>)
        ensures
            r == match first_index(self.outputs_view(), |o: GhostShellOutput| o.is_focused) {
                Some(i) => Some(self.outputs_view()[i]),
                None => match first_index(self.outputs_view(), |o: GhostShellOutput| o.is_primary) {
                    Some(i) => Some(self.outputs_view()[i]),
                    None => if self.outputs_view().len() > 0 {
                        Some(self.outputs_view()[0])
                    } else {
                        None
                    },
                },
            },
    {
        match self.get_focused_output() {
            Some(o) => Some(o),
            None => self.get_primary_output(),
        }
    }

    /// All outputs.
    pub fn get_outputs(&self) -> (r: &Vec<GhostShellOutput>)
        ensures
            r@ == self.outputs_view(),
    {
        &self.outputs
    }

    /// The first focused output.
    pub fn get_focused_output(&self) -> (r: Option<GhostShellOutput>)
        ensures
            r == match first_index(self.outputs_view(), |o: GhostShellOutput| o.is_focused) {
                Some(i) => Some(self.outputs_view()[i]),
                None => None,
            },
    {
        let mut i: usize = 0;
        while i < self.outputs.len()
            invariant
                i <= self.outputs@.len(),
                forall|j: int| 0 <= j < i ==> !self.outputs@[j].is_focused,
            decreases self.outputs@.len() - i,
        {
            if self.outputs[i].is_focused {
                proof {
                    let p = |o: GhostShellOutput| o.is_focused;
                    let w = first_index(self.outputs@, p);
                    assert(p(self.outputs@[i as int]));
                    let c = w->0;
                    assert(c == i) by {
                        if c < i {
                        } else if c > i {
                        }
                    }
                }
                return Some(self.outputs[i]);
            }
            i = i + 1;
        }
        None
    }

    /// The first primary output, else the first output.
    pub fn get_primary_output(&self) -> (r: Option<GhostShellOutput>)
        ensures
            r == match first_index(self.outputs_view(), |o: GhostShellOutput| o.is_primary) {
                Some(i) => Some(self.outputs_view()[i]),
                None => if self.outputs_view().len() > 0 {
                    Some(self.outputs_view()[0])
                } else {
                    None
                },
            },
    {
        let mut i: usize = 0;
        while i < self.outputs.len()
            invariant
                i <= self.outputs@.len(),
                forall|j: int| 0 <= j < i ==> !self.outputs@[j].is_primary,
            decreases self.outputs@.len() - i,
        {
            if self.outputs[i].is_primary {
                proof {
                    let p = |o: GhostShellOutput| o.is_primary;
                    let w = first_index(self.outputs@, p);
                    assert(p(self.outputs@[i as int]));
                    let c = w->0;
                    assert(c == i) by {
                        if c < i {
                        } else if c > i {
                        }
                    }
                }
                return Some(self.outputs[i]);
            }
            i = i + 1;
        }
        if self.outputs.len() > 0 {
            Some(self.outputs[0])
        } else {
            None
        }
    }

    /// The displays of all outputs, in order.
    pub fn get_displays(&self) -> (r: Vec<Display>)
        ensures
            r@ == self.outputs_view().map_values(|o: GhostShellOutput| o.display),
    {
        let mut r: Vec<Display> = Vec::new();
        let mut i: usize = 0;
        while i < self.outputs.len()
            invariant
                i <= self.outputs@.len(),
                r@ == self.outputs@.take(i as int).map_values(|o: GhostShellOutput| o.display),
            decreases self.outputs@.len() - i,
        {
            r.push(self.outputs[i].display);
            proof {
                assert(self.outputs@.take(i + 1) =~= self.outputs@.take(i as int).push(self.outputs@[i as int]));
                assert(r@ =~= self.outputs@.take(i + 1).map_values(|o: GhostShellOutput| o.display));
            }
            i = i + 1;
        }
        proof {
            assert(self.outputs@.take(self.outputs@.len() as int) =~= self.outputs@);
        }
        r
    }
}

} // verus!
