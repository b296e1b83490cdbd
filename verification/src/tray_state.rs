//! The tray items the shell shows, kept up to date from registrations,
//! property changes and unregistrations.
use vstd::prelude::*;
use crate::tray::{
    pixmaps_view, text_view, tool_tip_view, IconPixmap, ItemView, StatusNotifierId, StatusNotifierItem, ToolTip,
};

verus! {

/// A change reported by the tray host.
pub enum StatusNotifierStateUpdate {
    Registered(StatusNotifierItem),
    Updated(StatusNotifierItem),
    Unregistered(StatusNotifierId),
}

/// What changed in the tray.
#[derive(Clone, Debug, PartialEq, Eq)]
pub enum StatusNotifierEvent {
    Registered(StatusNotifierItem),
    Updated(StatusNotifierItem),
    Unregistered(StatusNotifierId),
}

/// The tray items, at most one per identifier.
pub struct StatusNotifierState {
    items: Vec<StatusNotifierItem>,
}

pub enum TrayUpdateView {
    Registered(ItemView),
    Updated(ItemView),
    Unregistered((Seq<char>, Seq<char>)),
}

pub enum TrayEventView {
    Registered(ItemView),
    Updated(ItemView),
    Unregistered((Seq<char>, Seq<char>)),
}

impl View for StatusNotifierStateUpdate {
    type V = TrayUpdateView;

    open spec fn view(&self) -> TrayUpdateView {
        match self {
            StatusNotifierStateUpdate::Registered(i) => TrayUpdateView::Registered(i@),
            StatusNotifierStateUpdate::Updated(i) => TrayUpdateView::Updated(i@),
            StatusNotifierStateUpdate::Unregistered(id) => TrayUpdateView::Unregistered(id.view()),
        }
    }
}

impl View for StatusNotifierEvent {
    type V = TrayEventView;

    open spec fn view(&self) -> TrayEventView {
        match self {
            StatusNotifierEvent::Registered(i) => TrayEventView::Registered(i@),
            StatusNotifierEvent::Updated(i) => TrayEventView::Updated(i@),
            StatusNotifierEvent::Unregistered(id) => TrayEventView::Unregistered(id.view()),
        }
    }
}

pub open spec fn event_view(e: Option<StatusNotifierEvent>) -> Option<TrayEventView> {
    match e {
        Some(x) => Some(x@),
        None => None,
    }
}

pub open spec fn unique_ids(s: Seq<ItemView>) -> bool {
    forall|i: int, j: int| 0 <= i < j < s.len() ==> s[i].id != s[j].id
}

pub open spec fn contains_id(s: Seq<ItemView>, k: (Seq<char>, Seq<char>)) -> bool {
    exists|i: int| 0 <= i < s.len() && s[i].id == k
}

pub open spec fn index_of(s: Seq<ItemView>, k: (Seq<char>, Seq<char>)) -> int {
    choose|i: int| 0 <= i < s.len() && s[i].id == k
}

pub open spec fn other_id(k: (Seq<char>, Seq<char>)) -> spec_fn(ItemView) -> bool {
    |x: ItemView| x.id != k
}

/// `s` with `item` stored under its identifier: in place of the item with that
/// identifier, or added at the end.
pub open spec fn put(s: Seq<ItemView>, item: ItemView) -> Seq<ItemView> {
    if contains_id(s, item.id) {
        s.update(index_of(s, item.id), item)
    } else {
        s.push(item)
    }
}

/// `s` without the item with identifier `k`.
pub open spec fn drop_id(s: Seq<ItemView>, k: (Seq<char>, Seq<char>)) -> Seq<ItemView> {
    s.filter(other_id(k))
}

/// The items after an update from the host, and the event to report, if any:
/// an update of an unknown item and the unregistration of an unknown item are
/// ignored.
pub open spec fn apply_tray(s: Seq<ItemView>, update: TrayUpdateView) -> (Seq<ItemView>, Option<TrayEventView>) {
    match update {
        TrayUpdateView::Registered(item) => (put(s, item), Some(TrayEventView::Registered(item))),
        TrayUpdateView::Updated(item) => if contains_id(s, item.id) {
            (put(s, item), Some(TrayEventView::Updated(item)))
        } else {
            (s, None)
        },
        TrayUpdateView::Unregistered(k) => if contains_id(s, k) {
            (drop_id(s, k), Some(TrayEventView::Unregistered(k)))
        } else {
            (s, None)
        },
    }
}

/// The items after an event has been recorded.
pub open spec fn record_tray(s: Seq<ItemView>, event: TrayEventView) -> Seq<ItemView> {
    match event {
        TrayEventView::Registered(item) => put(s, item),
        TrayEventView::Updated(item) => put(s, item),
        TrayEventView::Unregistered(k) => drop_id(s, k),
    }
}

proof fn lemma_remove_unique(s: Seq<ItemView>, i: int)
    requires
        unique_ids(s),
        0 <= i < s.len(),
    ensures
        drop_id(s, s[i].id) == s.remove(i),
        unique_ids(s.remove(i)),
{
    let k = s[i].id;
    let a = s.take(i);
    let m = seq![s[i]];
    let c = s.skip(i + 1);
    assert(s =~= a + m + c);
    Seq::filter_distributes_over_add(a + m, c, other_id(k));
    Seq::filter_distributes_over_add(a, m, other_id(k));
    assert forall|j: int| 0 <= j < a.len() implies other_id(k)(a[j]) by {
        assert(a[j] == s[j]);
    }
    assert forall|j: int| 0 <= j < c.len() implies other_id(k)(c[j]) by {
        assert(c[j] == s[i + 1 + j]);
    }
    crate::seqs::lemma_filter_all(a, other_id(k));
    crate::seqs::lemma_filter_all(c, other_id(k));
    crate::seqs::lemma_filter_none(m, other_id(k));
    assert(a + Seq::<ItemView>::empty() + c =~= s.remove(i));
    let r = s.remove(i);
    assert forall|x: int, y: int| 0 <= x < y < r.len() implies r[x].id != r[y].id by {
        let x0 = if x < i { x } else { x + 1 };
        let y0 = if y < i { y } else { y + 1 };
        assert(r[x] == s[x0]);
        assert(r[y] == s[y0]);
    }
}

fn dup_bytes(v: &Vec<u8>) -> (r: Vec<u8>)
    ensures
        r@ == v@,
{
    let mut r: Vec<u8> = Vec::new();
    let mut i: usize = 0;
    while i < v.len()
        invariant
            i <= v@.len(),
            r@ == v@.take(i as int),
        decreases v@.len() - i,
    {
        r.push(v[i]);
        proof {
            assert(v@.take(i + 1) =~= v@.take(i as int).push(v@[i as int]));
        }
        i = i + 1;
    }
    proof {
        assert(v@.take(v@.len() as int) =~= v@);
    }
    r
}

fn dup_pixmaps(v: &Vec<IconPixmap>) -> (r: Vec<IconPixmap>)
    ensures
        pixmaps_view(r@) == pixmaps_view(v@),
{
    let mut r: Vec<IconPixmap> = Vec::new();
    let mut i: usize = 0;
    while i < v.len()
        invariant
            i <= v@.len(),
            pixmaps_view(r@) == pixmaps_view(v@.take(i as int)),
        decreases v@.len() - i,
    {
        let p = &v[i];
        let ghost prev = r@;
        r.push(IconPixmap { width: p.width, height: p.height, argb: dup_bytes(&p.argb) });
        proof {
            assert(v@.take(i + 1) =~= v@.take(i as int).push(v@[i as int]));
            assert(pixmaps_view(r@) =~= pixmaps_view(prev).push(v@[i as int]@));
            assert(pixmaps_view(v@.take(i + 1)) =~= pixmaps_view(v@.take(i as int)).push(v@[i as int]@));
        }
        i = i + 1;
    }
    proof {
        assert(v@.take(v@.len() as int) =~= v@);
    }
    r
}

fn dup_text(t: &Option<String>) -> (r: Option<String>)
    ensures
        text_view(r) == text_view(*t),
{
    match t {
        Some(s) => Some(s.clone()),
        None => None,
    }
}

fn dup_tool_tip(t: &Option<ToolTip>) -> (r: Option<ToolTip>)
    ensures
        tool_tip_view(r) == tool_tip_view(*t),
{
    match t {
        Some(x) => Some(
            ToolTip {
                icon_name: x.icon_name.clone(),
                icon_pixmaps: dup_pixmaps(&x.icon_pixmaps),
                title: x.title.clone(),
                description: x.description.clone(),
            },
        ),
        None => None,
    }
}

impl StatusNotifierItem {
    /// A copy of the item.
    pub fn duplicate(&self) -> (r: StatusNotifierItem)
        ensures
            r@ == self@,
    {
        StatusNotifierItem {
            id: self.id.duplicate(),
            category: dup_text(&self.category),
            identifier: dup_text(&self.identifier),
            title: dup_text(&self.title),
            status: dup_text(&self.status),
            window_id: self.window_id,
            icon_name: dup_text(&self.icon_name),
            icon_pixmaps: dup_pixmaps(&self.icon_pixmaps),
            overlay_icon_name: dup_text(&self.overlay_icon_name),
            overlay_icon_pixmaps: dup_pixmaps(&self.overlay_icon_pixmaps),
            attention_icon_name: dup_text(&self.attention_icon_name),
            attention_icon_pixmaps: dup_pixmaps(&self.attention_icon_pixmaps),
            attention_movie_name: dup_text(&self.attention_movie_name),
            tool_tip: dup_tool_tip(&self.tool_tip),
            item_is_menu: self.item_is_menu,
            menu: dup_text(&self.menu),
            icon_theme_path: dup_text(&self.icon_theme_path),
        }
    }
}

impl StatusNotifierState {
    pub closed spec fn view(&self) -> Seq<ItemView> {
        self.items@.map_values(|i: StatusNotifierItem| i@)
    }

    pub closed spec fn wf(&self) -> bool {
        unique_ids(self.view())
    }

    /// A tray without items.
    pub fn new() -> (r: StatusNotifierState)
        ensures
            r.wf(),
            r.view() == Seq::<ItemView>::empty(),
    {
        let r = StatusNotifierState { items: Vec::new() };
        proof {
            assert(r.view() =~= Seq::<ItemView>::empty());
        }
        r
    }

    /// All items.
    pub fn items(&self) -> (r: &Vec<StatusNotifierItem>)
        ensures
            r@.map_values(|i: StatusNotifierItem| i@) == self.view(),
    {
        &self.items
    }

    /// Index of the item with identifier `id`.
    fn find(&self, id: &StatusNotifierId) -> (r: Option<usize>)
        requires
            self.wf(),
        ensures
            r is None <==> !contains_id(self.view(), id.view()),
            r matches Some(i) ==> i < self.items@.len() && i == index_of(self.view(), id.view()),
    {
        let ghost s = self.view();
        let mut i: usize = 0;
        while i < self.items.len()
            invariant
                i <= self.items@.len(),
                s == self.view(),
                unique_ids(s),
                forall|j: int| 0 <= j < i ==> s[j].id != id.view(),
            decreases self.items@.len() - i,
        {
            if self.items[i].id.same_as(id) {
                proof {
                    let c = index_of(s, id.view());
                    assert(s[i as int].id == id.view());
                    if c != i {
                        if c < i {
                        } else {
                            assert(s[i as int].id != s[c].id);
                        }
                    }
                }
                return Some(i);
            }
            i = i + 1;
        }
        None
    }

    /// The item with identifier `id`.
    pub fn item(&self, id: &StatusNotifierId) -> (r: Option<&StatusNotifierItem>)
        requires
            self.wf(),
        ensures
            match r {
                Some(item) => contains_id(self.view(), id.view()) && item@ == self.view()[index_of(
                    self.view(),
                    id.view(),
                )],
                None => !contains_id(self.view(), id.view()),
            },
            lookup(self.view(), id.view()) == match r {
                Some(item) => Some(item@),
                None => None::<ItemView>,
            },
    {
        match self.find(id) {
            Some(i) => Some(&self.items[i]),
            None => None,
        }
    }

    /// Stores `item` under its identifier.
    fn put(&mut self, item: StatusNotifierItem)
        requires
            old(self).wf(),
        ensures
            final(self).wf(),
            final(self).view() == put(old(self).view(), item@),
    {
        let ghost s = self.view();
        match self.find(&item.id) {
            Some(i) => {
                self.items.set(i, item);
                proof {
                    assert(self.view() =~= s.update(i as int, item@));
                    assert forall|a: int, b: int| 0 <= a < b < self.view().len() implies self.view()[a].id
                        != self.view()[b].id by {
                        assert(s[i as int].id == item@.id);
                    }
                }
            },
            None => {
                self.items.push(item);
                proof {
                    assert(self.view() =~= s.push(item@));
                }
            },
        }
    }

    /// Removes the item at index `i`.
    fn drop_at(&mut self, i: usize)
        requires
            old(self).wf(),
            i < old(self).items@.len(),
        ensures
            final(self).wf(),
            final(self).view() == drop_id(old(self).view(), old(self).view()[i as int].id),
    {
        let ghost s = self.view();
        self.items.remove(i);
        proof {
            lemma_remove_unique(s, i as int);
            assert(self.view() =~= s.remove(i as int));
        }
    }

    /// Applies an update from the host and returns the event to report: an
    /// update of an unknown item, or the unregistration of an unknown item, is
    /// ignored.
    pub fn apply(&mut self, update: StatusNotifierStateUpdate) -> (r: Option<StatusNotifierEvent>)
        requires
            old(self).wf(),
        ensures
            final(self).wf(),
            (final(self).view(), event_view(r)) == apply_tray(old(self).view(), update@),
    {
        match update {
            StatusNotifierStateUpdate::Registered(item) => {
                let copy = item.duplicate();
                self.put(copy);
                Some(StatusNotifierEvent::Registered(item))
            },
            StatusNotifierStateUpdate::Updated(item) => {
                if self.find(&item.id).is_none() {
                    return None;
                }
                let copy = item.duplicate();
                self.put(copy);
                Some(StatusNotifierEvent::Updated(item))
            },
            StatusNotifierStateUpdate::Unregistered(id) => {
                match self.find(&id) {
                    Some(i) => {
                        self.drop_at(i);
                        Some(StatusNotifierEvent::Unregistered(id))
                    },
                    None => None,
                }
            },
        }
    }

    /// Records an event: a registered or updated item is stored, an
    /// unregistered one is dropped.
    pub fn record(&mut self, event: &StatusNotifierEvent)
        requires
            old(self).wf(),
        ensures
            final(self).wf(),
            final(self).view() == record_tray(old(self).view(), event@),
    {
        match event {
            StatusNotifierEvent::Registered(item) => self.put(item.duplicate()),
            StatusNotifierEvent::Updated(item) => self.put(item.duplicate()),
            StatusNotifierEvent::Unregistered(id) => {
                match self.find(id) {
                    Some(i) => self.drop_at(i),
                    None => {
                        proof {
                            let s = self.view();
                            assert forall|j: int| 0 <= j < s.len() implies other_id(id.view())(s[j]) by {}
                            crate::seqs::lemma_filter_all(s, other_id(id.view()));
                        }
                    },
                }
            },
        }
    }
}

/// After an item registers, it is known under its identifier, as registered;
/// after it unregisters, it is no longer known.
pub proof fn lemma_register_then_lookup(s: Seq<ItemView>, item: ItemView)
    requires
        unique_ids(s),
    ensures
        contains_id(apply_tray(s, TrayUpdateView::Registered(item)).0, item.id),
        ({
            let t = apply_tray(s, TrayUpdateView::Registered(item)).0;
            t[index_of(t, item.id)] == item
        }),
        !contains_id(apply_tray(apply_tray(s, TrayUpdateView::Registered(item)).0, TrayUpdateView::Unregistered(item.id)).0, item.id),
{
    let t = put(s, item);
    if contains_id(s, item.id) {
        let i = index_of(s, item.id);
        assert(t[i].id == item.id);
    } else {
        assert(t[s.len() as int].id == item.id);
    }
    let c = index_of(t, item.id);
    assert(unique_ids(t)) by {
        if contains_id(s, item.id) {
            let i = index_of(s, item.id);
            assert forall|a: int, b: int| 0 <= a < b < t.len() implies t[a].id != t[b].id by {
                assert(s[i].id == item.id);
            }
        }
    }
    if contains_id(s, item.id) {
        let i = index_of(s, item.id);
        assert(c == i) by {
            if c != i {
                assert(t[c].id == t[i].id);
            }
        }
    } else {
        assert(c == s.len()) by {
            if c != s.len() {
                assert(t[c] == s[c]);
            }
        }
    }
    let u = drop_id(t, item.id);
    assert(!contains_id(u, item.id)) by {
        if contains_id(u, item.id) {
            let j = choose|j: int| 0 <= j < u.len() && u[j].id == item.id;
            t.lemma_filter_pred(other_id(item.id), j);
        }
    }
}

/// The item known under identifier `k`, if any.
pub open spec fn lookup(s: Seq<ItemView>, k: (Seq<char>, Seq<char>)) -> Option<ItemView> {
    if contains_id(s, k) {
        Some(s[index_of(s, k)])
    } else {
        None
    }
}

/// In a tray without repeated identifiers, each item is what its identifier finds.
proof fn lemma_lookup_at(s: Seq<ItemView>, j: int)
    requires
        unique_ids(s),
        0 <= j < s.len(),
    ensures
        lookup(s, s[j].id) == Some(s[j]),
{
    assert(contains_id(s, s[j].id));
    let c = index_of(s, s[j].id);
    if c != j {
        assert(s[c].id == s[j].id);
    }
}

/// Storing an item keeps identifiers unique; it is then what its identifier
/// finds, and every other identifier finds what it found before.
proof fn lemma_put_lookup(s: Seq<ItemView>, item: ItemView, k: (Seq<char>, Seq<char>))
    requires
        unique_ids(s),
    ensures
        unique_ids(put(s, item)),
        lookup(put(s, item), k) == (if k == item.id {
            Some(item)
        } else {
            lookup(s, k)
        }),
{
    let t = put(s, item);
    if contains_id(s, item.id) {
        let i = index_of(s, item.id);
        assert forall|a: int, b: int| 0 <= a < b < t.len() implies t[a].id != t[b].id by {
            assert(s[i].id == item.id);
        }
        lemma_lookup_at(t, i);
        if k != item.id {
            if contains_id(s, k) {
                let j = index_of(s, k);
                assert(j != i);
                assert(t[j] == s[j]);
                lemma_lookup_at(t, j);
                lemma_lookup_at(s, j);
            } else if contains_id(t, k) {
                let j = choose|j: int| 0 <= j < t.len() && t[j].id == k;
                assert(s[j].id == k);
            }
        }
    } else {
        assert forall|a: int, b: int| 0 <= a < b < t.len() implies t[a].id != t[b].id by {
            if b == s.len() {
                assert(s[a].id != item.id);
            }
        }
        lemma_lookup_at(t, s.len() as int);
        if k != item.id {
            if contains_id(s, k) {
                let j = index_of(s, k);
                assert(t[j] == s[j]);
                lemma_lookup_at(t, j);
                lemma_lookup_at(s, j);
            } else if contains_id(t, k) {
                let j = choose|j: int| 0 <= j < t.len() && t[j].id == k;
                assert(s[j].id == k);
            }
        }
    }
}

/// Dropping identifier `id` keeps identifiers unique; `id` then finds nothing,
/// and every other identifier finds what it found before.
proof fn lemma_drop_lookup(s: Seq<ItemView>, id: (Seq<char>, Seq<char>), k: (Seq<char>, Seq<char>))
    requires
        unique_ids(s),
    ensures
        unique_ids(drop_id(s, id)),
        lookup(drop_id(s, id), k) == (if k == id {
            None
        } else {
            lookup(s, k)
        }),
{
    if contains_id(s, id) {
        let i = index_of(s, id);
        lemma_remove_unique(s, i);
        let t = s.remove(i);
        if k == id {
            if contains_id(t, k) {
                let j = choose|j: int| 0 <= j < t.len() && t[j].id == k;
                let j0 = if j < i { j } else { j + 1 };
                assert(s[j0].id == s[i].id);
            }
        } else if contains_id(s, k) {
            let j0 = index_of(s, k);
            assert(j0 != i);
            let j = if j0 < i { j0 } else { j0 - 1 };
            assert(t[j] == s[j0]);
            lemma_lookup_at(t, j);
            lemma_lookup_at(s, j0);
        } else if contains_id(t, k) {
            let j = choose|j: int| 0 <= j < t.len() && t[j].id == k;
            let j0 = if j < i { j } else { j + 1 };
            assert(s[j0].id == k);
        }
    } else {
        assert forall|j: int| 0 <= j < s.len() implies other_id(id)(s[j]) by {}
        crate::seqs::lemma_filter_all(s, other_id(id));
    }
}

/// What an update does to the tray, identifier by identifier: a registration
/// stores the item and reports it; an update of a registered item stores and
/// reports it, while one of an unknown item changes nothing and reports
/// nothing; an unregistration forgets the identifier, reported only when it was
/// registered. No other identifier is affected, and identifiers stay unique.
pub proof fn lemma_tray_update_lookup(s: Seq<ItemView>, update: TrayUpdateView, k: (Seq<char>, Seq<char>))
    requires
        unique_ids(s),
    ensures
        unique_ids(apply_tray(s, update).0),
        match update {
            TrayUpdateView::Registered(item) => {
                &&& apply_tray(s, update).1 == Some(TrayEventView::Registered(item))
                &&& lookup(apply_tray(s, update).0, k) == if k == item.id {
                    Some(item)
                } else {
                    lookup(s, k)
                }
            },
            TrayUpdateView::Updated(item) => if contains_id(s, item.id) {
                &&& apply_tray(s, update).1 == Some(TrayEventView::Updated(item))
                &&& lookup(apply_tray(s, update).0, k) == if k == item.id {
                    Some(item)
                } else {
                    lookup(s, k)
                }
            } else {
                apply_tray(s, update) == (s, None::<TrayEventView>)
            },
            TrayUpdateView::Unregistered(id) => {
                &&& lookup(apply_tray(s, update).0, k) == if k == id {
                    None
                } else {
                    lookup(s, k)
                }
                &&& (apply_tray(s, update).1 == if contains_id(s, id) {
                    Some(TrayEventView::Unregistered(id))
                } else {
                    None
                })
            },
        },
{
    match update {
        TrayUpdateView::Registered(item) => lemma_put_lookup(s, item, k),
        TrayUpdateView::Updated(item) => lemma_put_lookup(s, item, k),
        TrayUpdateView::Unregistered(id) => {
            lemma_drop_lookup(s, id, k);
            if !contains_id(s, id) {
                assert(lookup(s, id) is None);
            }
        },
    }
}

} // verus!
