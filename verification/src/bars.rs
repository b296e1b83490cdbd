//! Which bars the shell keeps open: one per configured output that is connected,
//! reopened when its output moves to another display.
use vstd::prelude::*;
use crate::shell::{dns_uuid_v5, output_uuid, Display};

verus! {

/// A bar to show: the identity of its output, the display it goes on, and the
/// index of its configuration.
pub type DesiredBar = (u128, Display, usize);

/// What to do with the bars.
pub struct BarPlan {
    /// Identities of the open bars to close.
    pub close: Vec<u128>,
    /// Bars to open.
    pub open: Vec<DesiredBar>,
}

/// The first display that reports UUID `u`.
pub open spec fn display_with_uuid(displays: Seq<Display>, u: u128) -> Option<Display>
    decreases displays.len(),
{
    if displays.len() == 0 {
        None
    } else if displays[0].uuid == Some(u) {
        Some(displays[0])
    } else {
        display_with_uuid(displays.drop_first(), u)
    }
}

/// The bars wanted for the configured outputs (by name, in configuration
/// order): those whose output is connected, each on the first display that
/// reports the output's UUID.
pub open spec fn desired_spec(outputs: Seq<Seq<char>>, displays: Seq<Display>) -> Seq<DesiredBar>
    decreases outputs.len(),
{
    if outputs.len() == 0 {
        Seq::empty()
    } else {
        let rest = desired_spec(outputs.drop_last(), displays);
        let u = dns_uuid_v5(outputs.last());
        match display_with_uuid(displays, u) {
            Some(d) => rest.push((u, d, (outputs.len() - 1) as usize)),
            None => rest,
        }
    }
}

/// An open bar (identity, display) stays when a bar is wanted for its identity
/// on the same display.
pub open spec fn stays(desired: Seq<DesiredBar>, bar: (u128, u64)) -> bool {
    exists|i: int| 0 <= i < desired.len() && desired[i].0 == bar.0 && desired[i].1.id == bar.1
}

pub open spec fn bar_closes(desired: Seq<DesiredBar>) -> spec_fn((u128, u64)) -> bool {
    |bar: (u128, u64)| !stays(desired, bar)
}

/// A wanted bar is opened unless a bar that stays already shows its identity.
pub open spec fn bar_opens(desired: Seq<DesiredBar>, open: Seq<(u128, u64)>) -> spec_fn(DesiredBar) -> bool {
    |d: DesiredBar| !(exists|j: int| 0 <= j < open.len() && open[j].0 == d.0 && stays(desired, open[j]))
}

fn find_display(displays: &Vec<Display>, u: u128) -> (r: Option<Display>)
    ensures
        r == display_with_uuid(displays@, u),
{
    let mut i: usize = 0;
    proof {
        assert(displays@.skip(0) =~= displays@);
    }
    while i < displays.len()
        invariant
            i <= displays@.len(),
            display_with_uuid(displays@, u) == display_with_uuid(displays@.skip(i as int), u),
        decreases displays@.len() - i,
    {
        let d = displays[i];
        let hit = match d.uuid {
            Some(v) => v == u,
            None => false,
        };
        if hit {
            return Some(d);
        }
        proof {
            assert(displays@.skip(i as int).drop_first() =~= displays@.skip(i + 1));
        }
        i = i + 1;
    }
    None
}

/// The bars wanted for the configured outputs.
pub fn desired_bars(outputs: &Vec<String>, displays: &Vec<Display>) -> (r: Vec<DesiredBar>)
    ensures
        r@ == desired_spec(crate::watcher::texts(outputs@), displays@),
{
    let ghost names = crate::watcher::texts(outputs@);
    let mut r: Vec<DesiredBar> = Vec::new();
    let mut i: usize = 0;
    while i < outputs.len()
        invariant
            i <= outputs@.len(),
            names == crate::watcher::texts(outputs@),
            r@ == desired_spec(names.take(i as int), displays@),
        decreases outputs@.len() - i,
    {
        let u = output_uuid(outputs[i].as_str());
        proof {
            assert(names.take(i + 1).drop_last() =~= names.take(i as int));
            assert(names.take(i + 1).last() == outputs@[i as int]@);
        }
        match find_display(displays, u) {
            Some(d) => r.push((u, d, i)),
            None => {},
        }
        i = i + 1;
    }
    proof {
        assert(names.take(outputs@.len() as int) =~= names);
    }
    r
}

/// Whether a bar is wanted for `identity` on display `display`.
fn is_wanted(desired: &Vec<DesiredBar>, identity: u128, display: u64) -> (r: bool)
    ensures
        r == stays(desired@, (identity, display)),
{
    let mut i: usize = 0;
    while i < desired.len()
        invariant
            i <= desired@.len(),
            forall|j: int| 0 <= j < i ==> !(desired@[j].0 == identity && desired@[j].1.id == display),
        decreases desired@.len() - i,
    {
        if desired[i].0 == identity && desired[i].1.id == display {
            return true;
        }
        i = i + 1;
    }
    false
}

/// What to do with the open bars (identity and display of each) to show the
/// wanted ones: close those not wanted where they are, open those missing.
pub fn reconcile_bars(desired: &Vec<DesiredBar>, open: &Vec<(u128, u64)>) -> (r: BarPlan)
    ensures
        r.close@ == open@.filter(bar_closes(desired@)).map_values(|b: (u128, u64)| b.0),
        r.open@ == desired@.filter(bar_opens(desired@, open@)),
{
    let mut closing: Vec<(u128, u64)> = Vec::new();
    let mut close: Vec<u128> = Vec::new();
    let mut i: usize = 0;
    while i < open.len()
        invariant
            i <= open@.len(),
            closing@ == open@.take(i as int).filter(bar_closes(desired@)),
            close@ == closing@.map_values(|b: (u128, u64)| b.0),
        decreases open@.len() - i,
    {
        let bar = open[i];
        proof {
            assert(open@.take(i + 1) =~= open@.take(i as int).push(bar));
            open@.take(i as int).lemma_filter_push(bar, bar_closes(desired@));
        }
        if !is_wanted(desired, bar.0, bar.1) {
            closing.push(bar);
            close.push(bar.0);
            proof {
                assert(close@ =~= closing@.map_values(|b: (u128, u64)| b.0));
            }
        }
        i = i + 1;
    }
    proof {
        assert(open@.take(open@.len() as int) =~= open@);
    }
    let mut opening: Vec<DesiredBar> = Vec::new();
    let mut k: usize = 0;
    while k < desired.len()
        invariant
            k <= desired@.len(),
            opening@ == desired@.take(k as int).filter(bar_opens(desired@, open@)),
        decreases desired@.len() - k,
    {
        let d = desired[k];
        proof {
            assert(desired@.take(k + 1) =~= desired@.take(k as int).push(d));
            desired@.take(k as int).lemma_filter_push(d, bar_opens(desired@, open@));
        }
        let mut shown = false;
        let mut j: usize = 0;
        while j < open.len()
            invariant
                j <= open@.len(),
                shown == exists|m: int| 0 <= m < j && open@[m].0 == d.0 && stays(desired@, open@[m]),
            decreases open@.len() - j,
        {
            if open[j].0 == d.0 && is_wanted(desired, open[j].0, open[j].1) {
                shown = true;
            }
            j = j + 1;
        }
        if !shown {
            opening.push(d);
        }
        k = k + 1;
    }
    proof {
        assert(desired@.take(desired@.len() as int) =~= desired@);
    }
    BarPlan { close, open: opening }
}

/// After the plan is carried out, every wanted bar is shown exactly where it is
/// wanted: a bar that stays is on its wanted display, and a bar that is not
/// shown by one that stays is opened.
pub proof fn lemma_plan_shows_wanted_bars(desired: Seq<DesiredBar>, open: Seq<(u128, u64)>, i: int)
    requires
        0 <= i < desired.len(),
    ensures
        (exists|j: int| 0 <= j < open.len() && open[j].0 == desired[i].0 && stays(desired, open[j]))
            || desired.filter(bar_opens(desired, open)).contains(desired[i]),
{
    if !(exists|j: int| 0 <= j < open.len() && open[j].0 == desired[i].0 && stays(desired, open[j])) {
        assert(bar_opens(desired, open)(desired[i]));
        desired.lemma_filter_contains(bar_opens(desired, open), i);
    }
}

} // verus!
