//! The tray watcher: which items are registered, what a registration names, and
//! how the tray host follows items as they come and go.
use vstd::prelude::*;
use crate::input::text::append_str;
use crate::tray::{parse_registration, RegistrationError, StatusNotifierId, DEFAULT_ITEM_PATH};

verus! {

/// A change of the registered items.
#[derive(Clone, Debug, PartialEq, Eq)]
pub enum WatcherEvent {
    Registered(String),
    Unregistered(String),
}

/// The items currently registered with the watcher, each once.
pub struct Watcher {
    items: Vec<String>,
}

/// Why a registration is refused.
#[derive(Clone, Copy, Debug, PartialEq, Eq, Structural)]
pub enum RegisterError {
    /// Neither a service nor an object path was given.
    MissingServiceOrPath,
    /// An object path was given, but the message has no sender.
    MissingSender,
}

/// What the tray host does after a watcher event.
#[derive(Debug)]
pub enum HostAction {
    /// Nothing to do.
    Ignore,
    /// Start following the item.
    Watch(StatusNotifierId),
    /// Stop following the item and report it removed.
    Remove(StatusNotifierId),
}

/// The items that the tray host follows, each once.
pub struct TrayHost {
    watched: Vec<StatusNotifierId>,
}

pub open spec fn texts(s: Seq<String>) -> Seq<Seq<char>> {
    s.map_values(|x: String| x@)
}

/// `s` holds no text twice.
pub open spec fn distinct(s: Seq<Seq<char>>) -> bool {
    forall|i: int, j: int| 0 <= i < j < s.len() ==> s[i] != s[j]
}

/// `a` comes strictly before `b` in byte order.
pub open spec fn bytes_lt(a: Seq<u8>, b: Seq<u8>) -> bool
    decreases a.len(),
{
    if a.len() == 0 {
        b.len() > 0
    } else if b.len() == 0 {
        false
    } else if a[0] != b[0] {
        a[0] < b[0]
    } else {
        bytes_lt(a.drop_first(), b.drop_first())
    }
}

/// `a` comes strictly before `b` in the order of `String`: that of their UTF-8 bytes.
pub open spec fn text_lt(a: Seq<char>, b: Seq<char>) -> bool {
    bytes_lt(vstd::utf8::encode_utf8(a), vstd::utf8::encode_utf8(b))
}

/// `s` is in strictly increasing order.
pub open spec fn sorted_texts(s: Seq<Seq<char>>) -> bool {
    forall|i: int, j: int| 0 <= i < j < s.len() ==> text_lt(s[i], s[j])
}

/// `prefix` begins `s`.
pub open spec fn starts_with(s: Seq<char>, prefix: Seq<char>) -> bool {
    prefix.len() <= s.len() && s.take(prefix.len() as int) == prefix
}

/// The service and object path that a registration asks for: an object path
/// belongs to the sender of the request; a service uses the default path.
pub open spec fn target_of(
    service_or_path: Seq<char>,
    sender: Option<Seq<char>>,
) -> Result<(Seq<char>, Seq<char>), RegisterError> {
    if service_or_path.len() == 0 {
        Err(RegisterError::MissingServiceOrPath)
    } else if service_or_path[0] == '/' {
        match sender {
            Some(s) => Ok((s, service_or_path)),
            None => Err(RegisterError::MissingSender),
        }
    } else {
        Ok((service_or_path, DEFAULT_ITEM_PATH@))
    }
}

proof fn lemma_bytes_lt_irreflexive(a: Seq<u8>)
    ensures
        !bytes_lt(a, a),
    decreases a.len(),
{
    if a.len() > 0 {
        lemma_bytes_lt_irreflexive(a.drop_first());
    }
}

proof fn lemma_bytes_lt_transitive(a: Seq<u8>, b: Seq<u8>, c: Seq<u8>)
    requires
        bytes_lt(a, b),
        bytes_lt(b, c),
    ensures
        bytes_lt(a, c),
    decreases a.len(),
{
    if a.len() > 0 && b.len() > 0 && c.len() > 0 && a[0] == b[0] && b[0] == c[0] {
        lemma_bytes_lt_transitive(a.drop_first(), b.drop_first(), c.drop_first());
    }
}

proof fn lemma_bytes_lt_total(a: Seq<u8>, b: Seq<u8>)
    ensures
        a == b || bytes_lt(a, b) || bytes_lt(b, a),
    decreases a.len(),
{
    if a.len() > 0 && b.len() > 0 && a[0] == b[0] {
        lemma_bytes_lt_total(a.drop_first(), b.drop_first());
        if a.drop_first() == b.drop_first() {
            assert(a =~= seq![a[0]] + a.drop_first());
            assert(b =~= seq![b[0]] + b.drop_first());
        }
    } else if a.len() == 0 && b.len() == 0 {
        assert(a =~= b);
    }
}

pub proof fn lemma_text_lt_transitive(a: Seq<char>, b: Seq<char>, c: Seq<char>)
    requires
        text_lt(a, b) || a == b,
        text_lt(b, c),
    ensures
        text_lt(a, c),
{
    if a != b {
        lemma_bytes_lt_transitive(vstd::utf8::encode_utf8(a), vstd::utf8::encode_utf8(b), vstd::utf8::encode_utf8(c));
    }
}

pub proof fn lemma_text_lt_order(a: Seq<char>, b: Seq<char>)
    ensures
        !text_lt(a, a),
        a == b || text_lt(a, b) || text_lt(b, a),
{
    lemma_bytes_lt_irreflexive(vstd::utf8::encode_utf8(a));
    lemma_bytes_lt_total(vstd::utf8::encode_utf8(a), vstd::utf8::encode_utf8(b));
    if vstd::utf8::encode_utf8(a) == vstd::utf8::encode_utf8(b) {
        vstd::utf8::encode_utf8_decode_utf8(a);
        vstd::utf8::encode_utf8_decode_utf8(b);
    }
}

/// Whether `a` comes strictly before `b` in byte order.
pub(crate) fn less_than(a: &str, b: &str) -> (r: bool)
    ensures
        r == text_lt(a@, b@),
{
    let x = a.as_bytes();
    let y = b.as_bytes();
    let ghost xs = x@;
    let ghost ys = y@;
    let mut i: usize = 0;
    proof {
        assert(xs.skip(0) =~= xs);
        assert(ys.skip(0) =~= ys);
    }
    while i < x.len() && i < y.len() && x[i] == y[i]
        invariant
            i <= xs.len(),
            i <= ys.len(),
            xs == x@,
            ys == y@,
            bytes_lt(xs, ys) == bytes_lt(xs.skip(i as int), ys.skip(i as int)),
        decreases xs.len() - i,
    {
        proof {
            assert(xs.skip(i as int).drop_first() =~= xs.skip(i + 1));
            assert(ys.skip(i as int).drop_first() =~= ys.skip(i + 1));
        }
        i = i + 1;
    }
    if i == x.len() {
        i < y.len()
    } else if i == y.len() {
        false
    } else {
        x[i] < y[i]
    }
}

/// The first character of `s`.
fn first_char(s: &str) -> (r: Option<char>)
    ensures
        r == if s@.len() > 0 {
            Some(s@[0])
        } else {
            None::<char>
        },
{
    broadcast use vstd::string::axiom_spec_iter, vstd::string::next_postcondition;

    let mut it = s.chars();
    it.next()
}

/// Decides the service and object path of a registration request.
pub fn registration_target(service_or_path: &str, sender: Option<String>) -> (r: Result<(String, String), RegisterError>)
    ensures
        match target_of(service_or_path@, crate::tray::text_view(sender)) {
            Ok((service, path)) => r matches Ok((s, p)) && s@ == service && p@ == path,
            Err(e) => r == Err::<(String, String), RegisterError>(e),
        },
{
    match first_char(service_or_path) {
        None => Err(RegisterError::MissingServiceOrPath),
        Some(c) => {
            if c == '/' {
                match sender {
                    Some(s) => Ok((s, service_or_path.to_owned())),
                    None => Err(RegisterError::MissingSender),
                }
            } else {
                Ok((service_or_path.to_owned(), DEFAULT_ITEM_PATH.to_owned()))
            }
        },
    }
}

/// The item that a registration adds: its service followed by its path.
pub fn item_name(service: &str, path: &str) -> (r: String)
    ensures
        r@ == service@ + path@,
{
    let mut r = String::new();
    append_str(&mut r, service);
    append_str(&mut r, path);
    proof {
        assert(r@ =~= service@ + path@);
    }
    r
}

/// Whether `s` begins with `prefix`.
pub(crate) fn has_prefix(s: &str, prefix: &str) -> (r: bool)
    ensures
        r == starts_with(s@, prefix@),
{
    let ghost a = s@;
    let ghost p = prefix@;
    crate::input::text::char_count_fits(s);
    let mut matched: usize = 0;
    let mut ok = true;
    for c in it: prefix.chars()
        invariant
            it.seq() == p,
            a == s@,
            p == prefix@,
            a.len() <= usize::MAX,
            ok ==> matched == it.index() && matched <= a.len() && a.take(matched as int) == p.take(
                matched as int,
            ),
            !ok ==> !starts_with(a, p),
    {
        if ok {
            match char_at(s, matched) {
                Some(d) => {
                    if d == c {
                        proof {
                            assert(a.take(matched + 1) =~= a.take(matched as int).push(d));
                            assert(p.take(matched + 1) =~= p.take(matched as int).push(c));
                        }
                        matched = matched + 1;
                    } else {
                        ok = false;
                        proof {
                            if starts_with(a, p) {
                                assert(a.take(p.len() as int)[matched as int] == a[matched as int]);
                            }
                        }
                    }
                },
                None => {
                    ok = false;
                },
            }
        }
    }
    proof {
        assert(p.take(p.len() as int) =~= p);
    }
    ok
}

/// The character of `s` at index `i`.
fn char_at(s: &str, i: usize) -> (r: Option<char>)
    ensures
        r == if i < s@.len() {
            Some(s@[i as int])
        } else {
            None::<char>
        },
{
    let mut k: usize = 0;
    for c in it: s.chars()
        invariant
            it.seq() == s@,
            k == it.index(),
            k <= i,
    {
        if k == i {
            return Some(c);
        }
        k = k + 1;
    }
    None
}

impl Watcher {
    pub closed spec fn view(&self) -> Set<Seq<char>> {
        texts(self.items@).to_set()
    }

    pub closed spec fn wf(&self) -> bool {
        distinct(texts(self.items@))
    }

    /// A watcher without items.
    pub fn new() -> (r: Watcher)
        ensures
            r.wf(),
            r.view() == Set::<Seq<char>>::empty(),
    {
        let r = Watcher { items: Vec::new() };
        proof {
            assert(texts(r.items@) =~= Seq::<Seq<char>>::empty());
            assert(r.view() =~= Set::<Seq<char>>::empty());
        }
        r
    }

    /// The registered items, each once, in no particular order.
    pub fn items(&self) -> (r: &Vec<String>)
        requires
            self.wf(),
        ensures
            texts(r@).to_set() == self.view(),
            distinct(texts(r@)),
    {
        &self.items
    }

    fn position(&self, item: &str) -> (r: Option<usize>)
        ensures
            match r {
                Some(i) => i < self.items@.len() && self.items@[i as int]@ == item@,
                None => !self.view().contains(item@),
            },
            r is Some <==> self.view().contains(item@),
    {
        let mut i: usize = 0;
        while i < self.items.len()
            invariant
                i <= self.items@.len(),
                forall|j: int| 0 <= j < i ==> self.items@[j]@ != item@,
            decreases self.items@.len() - i,
        {
            if same_text(self.items[i].as_str(), item) {
                proof {
                    assert(texts(self.items@)[i as int] == item@);
                }
                return Some(i);
            }
            i = i + 1;
        }
        proof {
            if self.view().contains(item@) {
                let j = choose|j: int| 0 <= j < texts(self.items@).len() && texts(self.items@)[j] == item@;
                assert(self.items@[j]@ == item@);
            }
        }
        None
    }

    /// Whether `item` is registered.
    pub fn contains(&self, item: &str) -> (r: bool)
        ensures
            r == self.view().contains(item@),
    {
        self.position(item).is_some()
    }

    /// Records a registration or unregistration. Returns whether the items
    /// changed, that is whether the event is to be passed on.
    pub fn apply(&mut self, event: &WatcherEvent) -> (changed: bool)
        requires
            old(self).wf(),
        ensures
            final(self).wf(),
            match event {
                WatcherEvent::Registered(item) => final(self).view() == old(self).view().insert(item@) && changed
                    == !old(self).view().contains(item@),
                WatcherEvent::Unregistered(item) => final(self).view() == old(self).view().remove(item@)
                    && changed == old(self).view().contains(item@),
            },
    {
        match event {
            WatcherEvent::Registered(item) => self.insert(item),
            WatcherEvent::Unregistered(item) => self.remove(item.as_str()),
        }
    }

    /// Adds `item`; returns whether it was new.
    pub fn insert(&mut self, item: &String) -> (added: bool)
        requires
            old(self).wf(),
        ensures
            final(self).wf(),
            final(self).view() == old(self).view().insert(item@),
            added == !old(self).view().contains(item@),
    {
        let ghost s = texts(self.items@);
        if self.position(item.as_str()).is_some() {
            proof {
                assert(self.view() =~= self.view().insert(item@));
            }
            return false;
        }
        self.items.push(item.clone());
        proof {
            assert(texts(self.items@) =~= s.push(item@));
            assert(texts(self.items@).to_set() =~= s.to_set().insert(item@)) by {
                assert forall|x: Seq<char>| texts(self.items@).to_set().contains(x) <==> s.to_set().insert(item@).contains(
                    x,
                ) by {
                    if texts(self.items@).contains(x) && x != item@ {
                        let j = choose|j: int| 0 <= j < texts(self.items@).len() && texts(self.items@)[j] == x;
                        assert(s[j] == x);
                    }
                    if s.contains(x) {
                        let j = choose|j: int| 0 <= j < s.len() && s[j] == x;
                        assert(texts(self.items@)[j] == x);
                    }
                    if x == item@ {
                        assert(texts(self.items@)[s.len() as int] == x);
                    }
                }
            }
        }
        true
    }

    /// Removes `item`; returns whether it was registered.
    pub fn remove(&mut self, item: &str) -> (removed: bool)
        requires
            old(self).wf(),
        ensures
            final(self).wf(),
            final(self).view() == old(self).view().remove(item@),
            removed == old(self).view().contains(item@),
    {
        let ghost s = texts(self.items@);
        match self.position(item) {
            Some(i) => {
                self.items.remove(i);
                proof {
                    let t = texts(self.items@);
                    assert(t =~= s.remove(i as int));
                    assert forall|a: int, b: int| 0 <= a < b < t.len() implies t[a] != t[b] by {
                        let a0 = if a < i { a } else { a + 1 };
                        let b0 = if b < i { b } else { b + 1 };
                        assert(t[a] == s[a0]);
                        assert(t[b] == s[b0]);
                    }
                    assert(t.to_set() =~= s.to_set().remove(item@)) by {
                        assert forall|x: Seq<char>| t.to_set().contains(x) <==> s.to_set().remove(item@).contains(x) by {
                            if t.contains(x) {
                                let j = choose|j: int| 0 <= j < t.len() && t[j] == x;
                                let j0 = if j < i { j } else { j + 1 };
                                assert(s[j0] == x);
                                assert(x != item@) by {
                                    if x == item@ {
                                        assert(s[j0] == s[i as int]);
                                    }
                                }
                            }
                            if s.contains(x) && x != item@ {
                                let j = choose|j: int| 0 <= j < s.len() && s[j] == x;
                                if j < i {
                                    assert(t[j] == x);
                                } else {
                                    assert(j != i);
                                    assert(t[j - 1] == x);
                                }
                            }
                        }
                    }
                }
                true
            },
            None => {
                proof {
                    assert(self.view() =~= self.view().remove(item@));
                }
                false
            },
        }
    }

    /// Removes the items of `service` (those that begin with the service and a
    /// slash) and returns them.
    pub fn remove_items_for_service(&mut self, service: &str) -> (removed: Vec<String>)
        requires
            old(self).wf(),
        ensures
            final(self).wf(),
            distinct(texts(removed@)),
            texts(removed@).to_set() == old(self).view().filter(
                |x: Seq<char>| starts_with(x, service@.push('/')),
            ),
            final(self).view() == old(self).view().filter(|x: Seq<char>| !starts_with(x, service@.push('/'))),
    {
        let mut prefix = String::new();
        append_str(&mut prefix, service);
        crate::input::text::push_char(&mut prefix, '/');
        let ghost p = prefix@;
        let ghost s = texts(self.items@);
        let mut kept: Vec<String> = Vec::new();
        let mut removed: Vec<String> = Vec::new();
        let mut i: usize = 0;
        while i < self.items.len()
            invariant
                p == service@.push('/'),
                p == prefix@,
                s == texts(self.items@),
                distinct(s),
                i <= s.len(),
                texts(kept@) == s.take(i as int).filter(|x: Seq<char>| !starts_with(x, p)),
                texts(removed@) == s.take(i as int).filter(|x: Seq<char>| starts_with(x, p)),
            decreases s.len() - i,
        {
            let item = self.items[i].clone();
            let ghost before_kept = kept@;
            let ghost before_removed = removed@;
            proof {
                assert(s.take(i + 1) =~= s.take(i as int).push(s[i as int]));
                s.take(i as int).lemma_filter_push(s[i as int], |x: Seq<char>| !starts_with(x, p));
                s.take(i as int).lemma_filter_push(s[i as int], |x: Seq<char>| starts_with(x, p));
            }
            if has_prefix(item.as_str(), prefix.as_str()) {
                removed.push(item);
                proof {
                    assert(texts(removed@) =~= texts(before_removed).push(s[i as int]));
                }
            } else {
                kept.push(item);
                proof {
                    assert(texts(kept@) =~= texts(before_kept).push(s[i as int]));
                }
            }
            i = i + 1;
        }
        proof {
            assert(s.take(s.len() as int) =~= s);
            crate::seqs::lemma_filter_no_repeats(s, |x: Seq<char>| !starts_with(x, p));
            crate::seqs::lemma_filter_no_repeats(s, |x: Seq<char>| starts_with(x, p));
            lemma_filter_to_set(s, |x: Seq<char>| !starts_with(x, p));
            lemma_filter_to_set(s, |x: Seq<char>| starts_with(x, p));
        }
        self.items = kept;
        removed
    }

    /// The registered items in increasing order, as the bus property lists them.
    pub fn registered_items(&self) -> (r: Vec<String>)
        requires
            self.wf(),
        ensures
            sorted_texts(texts(r@)),
            texts(r@).to_set() == self.view(),
    {
        let mut r: Vec<String> = Vec::new();
        let ghost s = texts(self.items@);
        let mut i: usize = 0;
        while i < self.items.len()
            invariant
                s == texts(self.items@),
                distinct(s),
                i <= s.len(),
                sorted_texts(texts(r@)),
                texts(r@).to_set() == s.take(i as int).to_set(),
            decreases s.len() - i,
        {
            let item = self.items[i].clone();
            let mut pos: usize = 0;
            let mut go = true;
            while go && pos < r.len()
                invariant
                    pos <= r@.len(),
                    forall|j: int| 0 <= j < pos ==> text_lt(#[trigger] r@[j]@, item@),
                    !go ==> pos < r@.len() && !text_lt(r@[pos as int]@, item@),
                decreases r@.len() - pos + if go { 1int } else { 0int },
            {
                if less_than(r[pos].as_str(), item.as_str()) {
                    pos = pos + 1;
                } else {
                    go = false;
                }
            }
            let ghost before = texts(r@);
            proof {
                assert(item@ == s[i as int]);
                assert(!before.contains(item@)) by {
                    if before.contains(item@) {
                        let j = choose|j: int| 0 <= j < before.len() && before[j] == item@;
                        assert(before.to_set().contains(item@));
                        let t0 = s.take(i as int);
                        assert(t0.to_set().contains(item@));
                        let k = choose|k: int| 0 <= k < t0.len() && t0[k] == item@;
                        assert(s[k] == s[i as int]);
                    }
                }
                assert forall|j: int| pos <= j < before.len() implies text_lt(item@, before[j]) by {
                    lemma_text_lt_order(before[pos as int], item@);
                    assert(before[pos as int] != item@) by {
                        assert(before.contains(before[pos as int]));
                    }
                    if j > pos {
                        assert(sorted_texts(before));
                        assert(text_lt(before[pos as int], before[j]));
                        lemma_bytes_lt_transitive(
                            vstd::utf8::encode_utf8(item@),
                            vstd::utf8::encode_utf8(before[pos as int]),
                            vstd::utf8::encode_utf8(before[j]),
                        );
                    }
                }
            }
            r.insert(pos, item);
            proof {
                let after = texts(r@);
                assert(after =~= before.insert(pos as int, s[i as int]));
                assert forall|a: int, b: int| 0 <= a < b < after.len() implies text_lt(after[a], after[b]) by {
                    if a < pos && b > pos {
                        lemma_bytes_lt_transitive(
                            vstd::utf8::encode_utf8(after[a]),
                            vstd::utf8::encode_utf8(item@),
                            vstd::utf8::encode_utf8(after[b]),
                        );
                    }
                }
                assert(s.take(i + 1) =~= s.take(i as int).push(s[i as int]));
                assert(after.to_set() =~= before.to_set().insert(s[i as int])) by {
                    assert forall|x: Seq<char>| after.to_set().contains(x) <==> before.to_set().insert(s[i as int]).contains(
                        x,
                    ) by {
                        if after.contains(x) {
                            let j = choose|j: int| 0 <= j < after.len() && after[j] == x;
                            if j < pos {
                                assert(before[j] == x);
                            } else if j > pos {
                                assert(before[j - 1] == x);
                            }
                        }
                        if before.contains(x) {
                            let j = choose|j: int| 0 <= j < before.len() && before[j] == x;
                            if j < pos {
                                assert(after[j] == x);
                            } else {
                                assert(after[j + 1] == x);
                            }
                        }
                        if x == s[i as int] {
                            assert(after[pos as int] == x);
                        }
                    }
                }
                let t1 = s.take(i + 1);
                let t0 = s.take(i as int);
                assert(t1.to_set() =~= t0.to_set().insert(s[i as int])) by {
                    assert forall|x: Seq<char>| t1.to_set().contains(x) <==> t0.to_set().insert(s[i as int]).contains(x) by {
                        if t1.contains(x) {
                            let j = choose|j: int| 0 <= j < t1.len() && t1[j] == x;
                            if j < i {
                                assert(t0[j] == x);
                            }
                        }
                        if t0.contains(x) {
                            let j = choose|j: int| 0 <= j < t0.len() && t0[j] == x;
                            assert(t1[j] == x);
                        }
                        if x == s[i as int] {
                            assert(t1[i as int] == x);
                        }
                    }
                }
            }
            i = i + 1;
        }
        proof {
            assert(s.take(s.len() as int) =~= s);
        }
        r
    }
}

/// Whether two texts of the same length in bytes are equal.
pub(crate) fn same_text(a: &str, b: &str) -> (r: bool)
    ensures
        r == (a@ == b@),
{
    let x = a.as_bytes();
    let y = b.as_bytes();
    if x.len() != y.len() {
        proof {
            if a@ == b@ {
            }
        }
        return false;
    }
    let mut i: usize = 0;
    while i < x.len()
        invariant
            i <= x@.len(),
            x@.len() == y@.len(),
            x@ == vstd::utf8::encode_utf8(a@),
            y@ == vstd::utf8::encode_utf8(b@),
            x@.take(i as int) == y@.take(i as int),
        decreases x@.len() - i,
    {
        if x[i] != y[i] {
            proof {
                if a@ == b@ {
                }
            }
            return false;
        }
        proof {
            assert(x@.take(i + 1) =~= x@.take(i as int).push(x@[i as int]));
            assert(y@.take(i + 1) =~= y@.take(i as int).push(y@[i as int]));
        }
        i = i + 1;
    }
    proof {
        assert(x@.take(x@.len() as int) =~= x@);
        assert(y@.take(y@.len() as int) =~= y@);
        vstd::utf8::encode_utf8_decode_utf8(a@);
        vstd::utf8::encode_utf8_decode_utf8(b@);
    }
    true
}

proof fn lemma_filter_to_set(s: Seq<Seq<char>>, p: spec_fn(Seq<char>) -> bool)
    ensures
        s.filter(p).to_set() == s.to_set().filter(p),
{
    assert forall|x: Seq<char>| s.filter(p).to_set().contains(x) <==> s.to_set().filter(p).contains(x) by {
        if s.filter(p).contains(x) {
            s.lemma_filter_contains_rev(p, x);
        }
        if s.contains(x) && p(x) {
            let j = choose|j: int| 0 <= j < s.len() && s[j] == x;
            s.lemma_filter_contains(p, j);
        }
    }
    assert(s.filter(p).to_set() =~= s.to_set().filter(p));
}

pub open spec fn ids_view(s: Seq<StatusNotifierId>) -> Seq<(Seq<char>, Seq<char>)> {
    s.map_values(|id: StatusNotifierId| id.view())
}

pub open spec fn of_service(service: Seq<char>) -> spec_fn((Seq<char>, Seq<char>)) -> bool {
    |k: (Seq<char>, Seq<char>)| k.0 == service
}

pub open spec fn not_of_service(service: Seq<char>) -> spec_fn((Seq<char>, Seq<char>)) -> bool {
    |k: (Seq<char>, Seq<char>)| k.0 != service
}

impl TrayHost {
    pub closed spec fn view(&self) -> Seq<(Seq<char>, Seq<char>)> {
        ids_view(self.watched@)
    }

    pub closed spec fn wf(&self) -> bool {
        crate::seqs::no_repeats(self.view())
    }

    /// A host that follows no item.
    pub fn new() -> (r: TrayHost)
        ensures
            r.wf(),
            r.view() == Seq::<(Seq<char>, Seq<char>)>::empty(),
    {
        let r = TrayHost { watched: Vec::new() };
        proof {
            assert(r.view() =~= Seq::<(Seq<char>, Seq<char>)>::empty());
        }
        r
    }

    /// The items followed, in the order they were first followed.
    pub fn watched(&self) -> (r: &Vec<StatusNotifierId>)
        ensures
            ids_view(r@) == self.view(),
    {
        &self.watched
    }

    fn find(&self, id: &StatusNotifierId) -> (r: Option<usize>)
        requires
            self.wf(),
        ensures
            r is None <==> !self.view().contains(id.view()),
            r matches Some(i) ==> i < self.view().len() && self.view()[i as int] == id.view(),
    {
        let mut i: usize = 0;
        while i < self.watched.len()
            invariant
                i <= self.watched@.len(),
                forall|j: int| 0 <= j < i ==> self.view()[j] != id.view(),
            decreases self.watched@.len() - i,
        {
            if self.watched[i].same_as(id) {
                proof {
                    assert(self.view()[i as int] == id.view());
                }
                return Some(i);
            }
            i = i + 1;
        }
        None
    }

    /// An item registered. A registration that names no service is ignored, as
    /// is one of an item whose follower still runs (`running`); otherwise the
    /// item is followed from now on.
    pub fn on_registered(&mut self, registration: &str, running: bool) -> (r: HostAction)
        requires
            old(self).wf(),
        ensures
            final(self).wf(),
            match parse_registration(registration@) {
                None => r is Ignore && final(self).view() == old(self).view(),
                Some(k) => if old(self).view().contains(k) && running {
                    r is Ignore && final(self).view() == old(self).view()
                } else {
                    (r matches HostAction::Watch(id) && id.view() == k) && final(self).view() == if old(
                        self,
                    ).view().contains(k) {
                        old(self).view()
                    } else {
                        old(self).view().push(k)
                    }
                },
            },
    {
        let id = match StatusNotifierId::from_registered_item(registration) {
            Ok(id) => id,
            Err(_) => return HostAction::Ignore,
        };
        match self.find(&id) {
            Some(_) => {
                if running {
                    HostAction::Ignore
                } else {
                    HostAction::Watch(id)
                }
            },
            None => {
                let ghost s = self.view();
                self.watched.push(id.duplicate());
                proof {
                    assert(self.view() =~= s.push(id.view()));
                }
                HostAction::Watch(id)
            },
        }
    }

    /// An item unregistered: it is no longer followed and is reported removed
    /// if it was followed. A registration that names no service is an error.
    pub fn on_unregistered(&mut self, registration: &str) -> (r: Result<HostAction, RegistrationError>)
        requires
            old(self).wf(),
        ensures
            final(self).wf(),
            match parse_registration(registration@) {
                None => r == Err::<HostAction, RegistrationError>(RegistrationError::MissingServiceName)
                    && final(self).view() == old(self).view(),
                Some(k) => final(self).view() == old(self).view().filter(crate::seqs::differs_from(k)) && if old(
                    self,
                ).view().contains(k) {
                    r matches Ok(HostAction::Remove(id)) && id.view() == k
                } else {
                    r matches Ok(HostAction::Ignore)
                },
            },
    {
        let id = match StatusNotifierId::from_registered_item(registration) {
            Ok(id) => id,
            Err(e) => return Err(e),
        };
        let ghost s = self.view();
        match self.find(&id) {
            Some(i) => {
                self.watched.remove(i);
                proof {
                    crate::seqs::lemma_remove_no_repeats(s, i as int);
                    assert(self.view() =~= s.remove(i as int));
                }
                Ok(HostAction::Remove(id))
            },
            None => {
                proof {
                    assert forall|j: int| 0 <= j < s.len() implies crate::seqs::differs_from(id.view())(s[j]) by {
                        assert(s.contains(s[j]));
                    }
                    crate::seqs::lemma_filter_all(s, crate::seqs::differs_from(id.view()));
                }
                Ok(HostAction::Ignore)
            },
        }
    }

    /// A bus name lost its owner: the items of that service are no longer
    /// followed, and are returned to be reported removed.
    pub fn on_owner_lost(&mut self, service: &str) -> (removed: Vec<StatusNotifierId>)
        requires
            old(self).wf(),
        ensures
            final(self).wf(),
            ids_view(removed@) == old(self).view().filter(of_service(service@)),
            final(self).view() == old(self).view().filter(not_of_service(service@)),
    {
        let ghost s = self.view();
        let mut kept: Vec<StatusNotifierId> = Vec::new();
        let mut removed: Vec<StatusNotifierId> = Vec::new();
        let mut i: usize = 0;
        while i < self.watched.len()
            invariant
                s == self.view(),
                i <= s.len(),
                ids_view(kept@) == s.take(i as int).filter(not_of_service(service@)),
                ids_view(removed@) == s.take(i as int).filter(of_service(service@)),
            decreases s.len() - i,
        {
            let id = self.watched[i].duplicate();
            let ghost before_kept = kept@;
            let ghost before_removed = removed@;
            proof {
                assert(s.take(i + 1) =~= s.take(i as int).push(s[i as int]));
                s.take(i as int).lemma_filter_push(s[i as int], not_of_service(service@));
                s.take(i as int).lemma_filter_push(s[i as int], of_service(service@));
            }
            if same_text(id.service(), service) {
                removed.push(id);
                proof {
                    assert(ids_view(removed@) =~= ids_view(before_removed).push(s[i as int]));
                }
            } else {
                kept.push(id);
                proof {
                    assert(ids_view(kept@) =~= ids_view(before_kept).push(s[i as int]));
                }
            }
            i = i + 1;
        }
        proof {
            assert(s.take(s.len() as int) =~= s);
            crate::seqs::lemma_filter_no_repeats(s, not_of_service(service@));
        }
        self.watched = kept;
        removed
    }
}

} // verus!
