//! The objects of the sound server that the audio backend follows: nodes (which
//! become endpoints), devices with their routes, and the default metadata. This
//! is the bookkeeping that decides what to publish when objects come and go.
use std::collections::{BTreeMap, BTreeSet};

use vstd::prelude::*;
use vstd::std_specs::cmp::OrdSpec;
use vstd::std_specs::iter::IteratorSpec;
use crate::audio::{
    default_key_direction, direction_of_default_key, AudioCommandError, AudioDirection,
    AudioEndpointId, AudioUpdate, AudioUpdateView, CommandErrorView,
};

verus! {

broadcast use {vstd::std_specs::btree::group_btree_axioms, vstd::laws_cmp::group_laws_cmp};

/// `c` is one of the decimal digits `0` to `9`.
pub open spec fn is_digit(c: char) -> bool {
    '0' <= c && c <= '9'
}

/// The number that the decimal digits `d` write.
pub open spec fn digits_value(d: Seq<char>) -> int
    decreases d.len(),
{
    if d.len() == 0 {
        0
    } else {
        digits_value(d.drop_last()) * 10 + (d.last() as int - '0' as int)
    }
}

/// The number that `d` writes when it is one or more decimal digits and the
/// number is at most `limit`.
pub open spec fn decimal_value(d: Seq<char>, limit: int) -> Option<int> {
    if d.len() > 0 && (forall|i: int| 0 <= i < d.len() ==> is_digit(#[trigger] d[i])) && digits_value(d) <= limit {
        Some(digits_value(d))
    } else {
        None
    }
}

/// `d` without a leading `+`, if it has one.
pub open spec fn without_plus(d: Seq<char>) -> Seq<char> {
    if d.len() > 0 && d[0] == '+' {
        d.drop_first()
    } else {
        d
    }
}

/// What `str::parse::<u32>` reads in `s`: an optional `+`, then decimal digits
/// whose number fits in a `u32`; anything else is no number.
pub open spec fn parse_u32(s: Seq<char>) -> Option<u32> {
    match decimal_value(without_plus(s), u32::MAX as int) {
        Some(v) => Some(v as u32),
        None => None,
    }
}

/// What `str::parse::<i32>` reads in `s`: an optional sign, then decimal digits
/// whose number, with its sign, fits in an `i32`; anything else is no number.
pub open spec fn parse_i32(s: Seq<char>) -> Option<i32> {
    if s.len() > 0 && s[0] == '-' {
        match decimal_value(s.drop_first(), 0x8000_0000) {
            Some(v) => Some((-v) as i32),
            None => None,
        }
    } else {
        match decimal_value(without_plus(s), i32::MAX as int) {
            Some(v) => Some(v as i32),
            None => None,
        }
    }
}

/// More digits write no smaller number.
proof fn lemma_digits_grow(d: Seq<char>, k: int)
    requires
        0 <= k <= d.len(),
        forall|i: int| 0 <= i < d.len() ==> is_digit(#[trigger] d[i]),
    ensures
        digits_value(d.take(k)) <= digits_value(d),
        digits_value(d) >= 0,
    decreases d.len(),
{
    if d.len() > 0 {
        let t = d.drop_last();
        assert forall|i: int| 0 <= i < t.len() implies is_digit(#[trigger] t[i]) by {
            assert(t[i] == d[i]);
        }
        if k < d.len() {
            lemma_digits_grow(t, k);
            assert(t.take(k) =~= d.take(k));
        } else {
            lemma_digits_grow(t, 0);
            assert(d.take(k) =~= d);
        }
        assert(is_digit(d[d.len() - 1]));
    } else {
        assert(d.take(k) =~= d);
    }
}

/// The number written by `chars` from `start` on, when it is one or more
/// decimal digits and at most `limit`.
fn decimal(chars: &Vec<char>, start: usize, limit: u64) -> (r: Option<u64>)
    requires
        start <= chars@.len(),
        limit <= 0x1_0000_0000,
    ensures
        match r {
            Some(v) => decimal_value(chars@.skip(start as int), limit as int) == Some(v as int),
            None => decimal_value(chars@.skip(start as int), limit as int) is None,
        },
{
    let ghost d = chars@.skip(start as int);
    if start == chars.len() {
        return None;
    }
    let mut v: u64 = 0;
    let mut i: usize = start;
    while i < chars.len()
        invariant
            start <= i <= chars@.len(),
            d == chars@.skip(start as int),
            limit <= 0x1_0000_0000,
            v <= limit,
            v == digits_value(d.take(i - start)),
            forall|j: int| 0 <= j < i - start ==> is_digit(#[trigger] d[j]),
        decreases chars@.len() - i,
    {
        let c = chars[i];
        assert(d[i - start] == c);
        if !(c >= '0' && c <= '9') {
            return None;
        }
        let digit = (c as u32 - '0' as u32) as u64;
        proof {
            let p = d.take(i - start + 1);
            assert(p.drop_last() =~= d.take(i - start));
            assert(p.last() == c);
        }
        v = v * 10 + digit;
        if v > limit {
            proof {
                if forall|j: int| 0 <= j < d.len() ==> is_digit(#[trigger] d[j]) {
                    lemma_digits_grow(d, i - start + 1);
                }
            }
            return None;
        }
        i = i + 1;
    }
    proof {
        assert(d.take(i - start) =~= d);
    }
    Some(v)
}

fn chars_of(s: &str) -> (r: Vec<char>)
    ensures
        r@ == s@,
{
    let ghost t = s@;
    crate::input::text::char_count_fits(s);
    let mut chars: Vec<char> = Vec::new();
    for c in it: s.chars()
        invariant
            it.seq() == t,
            chars@ == t.take(it.index() as int),
    {
        chars.push(c);
        proof {
            assert(t.take(it.index() + 1) =~= t.take(it.index() as int).push(c));
        }
    }
    proof {
        assert(t.take(t.len() as int) =~= t);
    }
    chars
}

/// Reads a property as an unsigned number (`device.id`), as `str::parse::<u32>`
/// does; `None` when it is malformed or too large.
pub fn parse_device_id(s: &str) -> (r: Option<u32>)
    ensures
        r == parse_u32(s@),
{
    let chars = chars_of(s);
    let start: usize = if chars.len() > 0 && chars[0] == '+' { 1 } else { 0 };
    proof {
        assert(chars@.skip(start as int) =~= without_plus(s@));
    }
    match decimal(&chars, start, 0xffff_ffff) {
        Some(v) => Some(v as u32),
        None => None,
    }
}

/// Reads a property as a signed number (`card.profile.device`), as
/// `str::parse::<i32>` does; `None` when it is malformed or out of range.
pub fn parse_profile_device(s: &str) -> (r: Option<i32>)
    ensures
        r == parse_i32(s@),
{
    let chars = chars_of(s);
    if chars.len() > 0 && chars[0] == '-' {
        proof {
            assert(chars@.skip(1) =~= s@.drop_first());
        }
        match decimal(&chars, 1, 0x8000_0000) {
            Some(v) => {
                let r: i64 = 0 - (v as i64);
                Some(r as i32)
            },
            None => None,
        }
    } else {
        let start: usize = if chars.len() > 0 && chars[0] == '+' { 1 } else { 0 };
        proof {
            assert(chars@.skip(start as int) =~= without_plus(s@));
        }
        match decimal(&chars, start, 0x7fff_ffff) {
            Some(v) => Some(v as i32),
            None => None,
        }
    }
}

/// A node of the sound server that is an audio endpoint.
#[derive(Clone, Copy, Debug, PartialEq, Eq, Structural)]
pub struct NodeEntry {
    pub global_id: u32,
    pub endpoint: AudioEndpointId,
    /// The device that the node belongs to (`device.id`).
    pub device: Option<u32>,
    /// The device route that carries the node (`card.profile.device`).
    pub profile_device: Option<i32>,
}

/// Where the volume and mute state of a node come from.
#[derive(Clone, Copy, Debug, PartialEq, Eq, Structural)]
pub enum MixerSource {
    /// The route `route` of device `device`.
    Route { device: u32, route: i32 },
    /// The node's own properties.
    Node,
}

/// What removing an object of the sound server leads to.
#[derive(Debug, PartialEq, Eq)]
pub struct Removal {
    /// The endpoint of a removed node, reported removed.
    pub endpoint: Option<AudioEndpointId>,
    /// Nodes of a removed device, published again (in increasing order).
    pub republish: Vec<u32>,
    /// The default metadata went away: both defaults are unknown now.
    pub defaults_cleared: bool,
}

/// Identifiers are exhausted.
#[derive(Clone, Copy, Debug, PartialEq, Eq, Structural)]
pub struct IdsExhausted;

/// The followed objects: nodes by global identifier, devices by identifier
/// (each with the keys of the routes it has), the default metadata objects,
/// and the last endpoint identifier handed out.
pub struct AudioGraph {
    nodes: BTreeMap<u32, NodeEntry>,
    devices: BTreeMap<u32, BTreeSet<i32>>,
    metadata: BTreeSet<u32>,
    next_id: u64,
}

pub struct GraphView {
    pub nodes: Map<u32, NodeEntry>,
    pub devices: Map<u32, Set<i32>>,
    pub metadata: Set<u32>,
    pub next_id: u64,
}

pub open spec fn has_node(g: GraphView, id: u32) -> bool {
    g.nodes.contains_key(id)
}

pub open spec fn has_device(g: GraphView, id: u32) -> bool {
    g.devices.contains_key(id)
}

/// The routes of device `id`.
pub open spec fn routes_of(g: GraphView, id: u32) -> Set<i32> {
    g.devices[id]
}

/// The node with global identifier `id`.
pub open spec fn node_of(g: GraphView, id: u32) -> NodeEntry {
    g.nodes[id]
}

/// Where the mixer of node `id` is: the route of its device that carries it,
/// when the device and that route are known, else the node itself.
pub open spec fn mixer_source_spec(g: GraphView, id: u32) -> MixerSource {
    let n = node_of(g, id);
    match (n.device, n.profile_device) {
        (Some(d), Some(p)) => if has_device(g, d) && routes_of(g, d).contains(p) {
            MixerSource::Route { device: d, route: p }
        } else {
            MixerSource::Node
        },
        _ => MixerSource::Node,
    }
}

/// `s` is in strictly increasing order.
pub open spec fn increasing(s: Seq<u32>) -> bool {
    forall|i: int, j: int| 0 <= i < j < s.len() ==> s[i] < s[j]
}

/// The nodes of device `d`, by global identifier.
pub open spec fn device_nodes(g: GraphView, d: u32) -> Set<u32> {
    Set::new(|id: u32| has_node(g, id) && node_of(g, id).device == Some(d))
}

/// The object identifier of the sound server's core.
pub const CORE_ID: u32 = 0;

/// The value of a property of the default metadata, read as JSON.
#[derive(Clone, Debug, PartialEq, Eq)]
pub enum DefaultValue {
    /// No value: the property was removed.
    Unset,
    /// A JSON object whose `name` is this string.
    Named(String),
    /// Text that is not JSON.
    Invalid,
    /// JSON without a string `name`.
    Unnamed,
}

pub enum DefaultValueView {
    Unset,
    Named(Seq<char>),
    Invalid,
    Unnamed,
}

impl View for DefaultValue {
    type V = DefaultValueView;

    open spec fn view(&self) -> DefaultValueView {
        match self {
            DefaultValue::Unset => DefaultValueView::Unset,
            DefaultValue::Named(n) => DefaultValueView::Named(n@),
            DefaultValue::Invalid => DefaultValueView::Invalid,
            DefaultValue::Unnamed => DefaultValueView::Unnamed,
        }
    }
}

/// What `serde_json` reads in `text`: `None` when it is not JSON, else the
/// string under the key `name` if the value is an object that has one.
pub uninterp spec fn json_object_name(text: Seq<char>) -> Option<Option<Seq<char>>>;

pub open spec fn json_name_view(r: Option<Option<String>>) -> Option<Option<Seq<char>>> {
    match r {
        None => None,
        Some(None) => Some(None),
        Some(Some(n)) => Some(Some(n@)),
    }
}

/// `serde_json::from_str::<serde_json::Value>(text)`, then `Value::get("name")`
/// and `Value::as_str` on what it read: `None` when the text is not JSON.
/// The result is named, not computed here.
#[verifier::external_body]
fn json_name(text: &str) -> (r: Option<Option<String>>)
    ensures
        json_name_view(r) == json_object_name(text@),
{
    match serde_json::from_str::<serde_json::Value>(text) {
        Ok(value) => Some(value.get("name").and_then(serde_json::Value::as_str).map(str::to_owned)),
        Err(_) => None,
    }
}

/// The value of a default-metadata property, from what its JSON text names.
pub open spec fn default_value_of(value: Option<Seq<char>>) -> DefaultValueView {
    match value {
        None => DefaultValueView::Unset,
        Some(text) => match json_object_name(text) {
            None => DefaultValueView::Invalid,
            Some(None) => DefaultValueView::Unnamed,
            Some(Some(n)) => DefaultValueView::Named(n),
        },
    }
}

/// Reads the JSON text of a default-metadata property: no text leaves the
/// default unset; text that is not JSON is invalid; JSON without a string
/// `name` is unnamed; otherwise the default is the node of that name.
pub fn default_value(value: Option<&str>) -> (r: DefaultValue)
    ensures
        r@ == default_value_of(
            match value {
                Some(v) => Some(v@),
                None => None,
            },
        ),
{
    match value {
        None => DefaultValue::Unset,
        Some(text) => match json_name(text) {
            None => DefaultValue::Invalid,
            Some(None) => DefaultValue::Unnamed,
            Some(Some(n)) => DefaultValue::Named(n),
        },
    }
}

pub open spec fn updates_view(updates: Seq<AudioUpdate>) -> Seq<AudioUpdateView> {
    updates.map_values(|u: AudioUpdate| u@)
}

pub open spec fn unknown_default(direction: AudioDirection) -> AudioUpdateView {
    AudioUpdateView::Default(direction, None)
}

pub open spec fn metadata_failure(message: Seq<char>) -> AudioUpdateView {
    AudioUpdateView::CommandFailed(CommandErrorView { endpoint: None, message })
}

/// What a property of the default metadata reports: only properties of the
/// core count; a cleared property set makes both defaults unknown; the keys of
/// the default sink and source set the default of their direction to the named
/// node, or make it unknown (reporting why) when the value names none.
pub open spec fn metadata_updates(subject: u32, key: Option<Seq<char>>, value: DefaultValueView) -> Seq<
    AudioUpdateView,
> {
    if subject != CORE_ID {
        Seq::empty()
    } else {
        match key {
            None => seq![unknown_default(AudioDirection::Input), unknown_default(AudioDirection::Output)],
            Some(k) => match default_key_direction(k) {
                None => Seq::empty(),
                Some(d) => match value {
                    DefaultValueView::Unset => seq![unknown_default(d)],
                    DefaultValueView::Named(n) => seq![AudioUpdateView::Default(d, Some(n))],
                    DefaultValueView::Invalid => seq![
                        unknown_default(d),
                        metadata_failure("invalid default audio metadata"@),
                    ],
                    DefaultValueView::Unnamed => seq![
                        unknown_default(d),
                        metadata_failure("default audio metadata has no name"@),
                    ],
                },
            },
        }
    }
}

/// The updates that a property of the default metadata leads to.
pub fn metadata_property(subject: u32, key: Option<&str>, value: DefaultValue) -> (r: Vec<AudioUpdate>)
    ensures
        updates_view(r@) == metadata_updates(
            subject,
            match key {
                Some(k) => Some(k@),
                None => None,
            },
            value@,
        ),
{
    let mut r: Vec<AudioUpdate> = Vec::new();
    if subject != CORE_ID {
        proof {
            assert(updates_view(r@) =~= Seq::<AudioUpdateView>::empty());
        }
        return r;
    }
    let direction = match key {
        None => {
            r.push(AudioUpdate::Default(AudioDirection::Input, None));
            r.push(AudioUpdate::Default(AudioDirection::Output, None));
            proof {
                assert(updates_view(r@) =~= seq![
                    unknown_default(AudioDirection::Input),
                    unknown_default(AudioDirection::Output),
                ]);
            }
            return r;
        },
        Some(k) => match direction_of_default_key(k) {
            Some(d) => d,
            None => {
                proof {
                    assert(updates_view(r@) =~= Seq::<AudioUpdateView>::empty());
                }
                return r;
            },
        },
    };
    match value {
        DefaultValue::Unset => {
            r.push(AudioUpdate::Default(direction, None));
        },
        DefaultValue::Named(n) => {
            r.push(AudioUpdate::Default(direction, Some(n)));
        },
        DefaultValue::Invalid => {
            r.push(AudioUpdate::Default(direction, None));
            r.push(
                AudioUpdate::CommandFailed(
                    AudioCommandError { endpoint: None, message: "invalid default audio metadata".to_owned() },
                ),
            );
        },
        DefaultValue::Unnamed => {
            r.push(AudioUpdate::Default(direction, None));
            r.push(
                AudioUpdate::CommandFailed(
                    AudioCommandError { endpoint: None, message: "default audio metadata has no name".to_owned() },
                ),
            );
        },
    }
    proof {
        let k = match key {
            Some(k) => Some(k@),
            None => None,
        };
        let expected = metadata_updates(subject, k, value@);
        assert(updates_view(r@).len() == expected.len());
        assert(updates_view(r@) =~= expected);
    }
    r
}

/// Why a route parameter cannot be read.
#[derive(Clone, Copy, Debug, PartialEq, Eq, Structural)]
pub enum RouteError {
    /// The route has mixer properties but no index.
    NoIndex,
    /// The route has mixer properties but no profile device.
    NoProfileDevice,
}

impl RouteError {
    /// The message reported for the error.
    pub fn message(&self) -> (r: String)
        ensures
            r@ == match self {
                RouteError::NoIndex => "audio route has no index"@,
                RouteError::NoProfileDevice => "audio route has no profile device"@,
            },
    {
        match self {
            RouteError::NoIndex => "audio route has no index".to_owned(),
            RouteError::NoProfileDevice => "audio route has no profile device".to_owned(),
        }
    }
}

/// The index and profile device of a route parameter, from what it carries: a
/// route without mixer properties is of no interest (`None`); one with them
/// needs both its index and its profile device.
pub fn route_key(index: Option<i32>, device: Option<i32>, has_mixer: bool) -> (r: Result<Option<(i32, i32)>, RouteError>)
    ensures
        !has_mixer ==> r == Ok::<Option<(i32, i32)>, RouteError>(None),
        has_mixer && index is None ==> r == Err::<Option<(i32, i32)>, RouteError>(RouteError::NoIndex),
        has_mixer && index is Some && device is None ==> r == Err::<Option<(i32, i32)>, RouteError>(
            RouteError::NoProfileDevice,
        ),
        has_mixer && index is Some && device is Some ==> r == Ok::<Option<(i32, i32)>, RouteError>(
            Some((index->0, device->0)),
        ),
{
    if !has_mixer {
        return Ok(None);
    }
    match (index, device) {
        (None, _) => Err(RouteError::NoIndex),
        (Some(_), None) => Err(RouteError::NoProfileDevice),
        (Some(i), Some(d)) => Ok(Some((i, d))),
    }
}

/// The kind of an error that the sound server's core reports.
#[derive(Clone, Copy, Debug, PartialEq, Eq, Structural)]
pub enum CoreErrorKind {
    /// The connection broke.
    BrokenPipe,
    /// The object went away.
    NotFound,
    Other,
}

/// What the backend does with an error that the core reports.
#[derive(Clone, Copy, Debug, PartialEq, Eq, Structural)]
pub enum CoreErrorAction {
    /// The connection is lost: report the backend unavailable and stop.
    Disconnect,
    /// An object disappeared between discovery and binding: nothing to do.
    Ignore,
    /// Report a failed command, for the endpoint of the object if it has one.
    Report,
}

/// Only a broken connection of the core itself ends the backend; an object
/// that vanished is benign; anything else is reported.
pub fn core_error_action(object: u32, kind: CoreErrorKind) -> (r: CoreErrorAction)
    ensures
        r == (if object == CORE_ID && kind == CoreErrorKind::BrokenPipe {
            CoreErrorAction::Disconnect
        } else if kind == CoreErrorKind::NotFound {
            CoreErrorAction::Ignore
        } else {
            CoreErrorAction::Report
        }),
{
    if object == CORE_ID && kind == CoreErrorKind::BrokenPipe {
        CoreErrorAction::Disconnect
    } else if kind == CoreErrorKind::NotFound {
        CoreErrorAction::Ignore
    } else {
        CoreErrorAction::Report
    }
}

/// The entries of a map's iterator come by increasing key.
proof fn lemma_entries_increasing<V>(s: Seq<(&u32, &V)>)
    requires
        vstd::std_specs::btree::increasing_seq(s.map_values(|kv: (&u32, &V)| *kv.0)),
    ensures
        forall|i: int, j: int| 0 <= i < j < s.len() ==> *s[i].0 < *s[j].0,
{
    let ks = s.map_values(|kv: (&u32, &V)| *kv.0);
    assert forall|i: int, j: int| 0 <= i < j < s.len() implies *s[i].0 < *s[j].0 by {
        assert(ks[i] == *s[i].0);
        assert(ks[j] == *s[j].0);
        assert(ks[i].cmp_spec(&ks[j]) is Less);
    }
}

impl AudioGraph {
    pub closed spec fn view(&self) -> GraphView {
        GraphView {
            nodes: self.nodes@,
            devices: self.devices@.map_values(|routes: BTreeSet<i32>| routes@),
            metadata: self.metadata@,
            next_id: self.next_id,
        }
    }

    /// Each node is stored under its own global identifier.
    pub closed spec fn wf(&self) -> bool {
        forall|id: u32| #[trigger] self.nodes@.contains_key(id) ==> self.nodes@[id].global_id == id
    }

    /// Nothing followed yet.
    pub fn new() -> (r: AudioGraph)
        ensures
            r.wf(),
            r.view() == (GraphView {
                nodes: Map::empty(),
                devices: Map::empty(),
                metadata: Set::empty(),
                next_id: 0,
            }),
    {
        let r = AudioGraph { nodes: BTreeMap::new(), devices: BTreeMap::new(), metadata: BTreeSet::new(), next_id: 0 };
        proof {
            assert(r.view().devices =~= Map::<u32, Set<i32>>::empty());
        }
        r
    }

    /// The identifier for a new endpoint: the next one, or none when exhausted.
    pub fn allocate_id(&mut self) -> (r: Result<AudioEndpointId, IdsExhausted>)
        requires
            old(self).wf(),
        ensures
            final(self).wf(),
            old(self).view().next_id < u64::MAX ==> r == Ok::<AudioEndpointId, IdsExhausted>(
                AudioEndpointId((old(self).view().next_id + 1) as u64),
            ) && final(self).view() == (GraphView { next_id: (old(self).view().next_id + 1) as u64, ..old(self).view() }),
            old(self).view().next_id == u64::MAX ==> r == Err::<AudioEndpointId, IdsExhausted>(IdsExhausted)
                && final(self).view() == old(self).view(),
    {
        match self.next_id.checked_add(1) {
            Some(n) => {
                self.next_id = n;
                Ok(AudioEndpointId(n))
            },
            None => Err(IdsExhausted),
        }
    }

    /// Follows a node (replacing one with the same global identifier).
    pub fn insert_node(&mut self, node: NodeEntry)
        requires
            old(self).wf(),
        ensures
            final(self).wf(),
            final(self).view() == (GraphView {
                nodes: old(self).view().nodes.insert(node.global_id, node),
                ..old(self).view()
            }),
    {
        self.nodes.insert(node.global_id, node);
    }

    /// Follows node `global_id` with a new endpoint identifier (replacing a node
    /// with the same global identifier); fails, changing nothing, when the
    /// identifiers are exhausted.
    pub fn follow_node(&mut self, global_id: u32, device: Option<u32>, profile_device: Option<i32>) -> (r: Result<
        AudioEndpointId,
        IdsExhausted,
    >)
        requires
            old(self).wf(),
        ensures
            final(self).wf(),
            old(self).view().next_id == u64::MAX ==> r == Err::<AudioEndpointId, IdsExhausted>(IdsExhausted)
                && final(self).view() == old(self).view(),
            old(self).view().next_id < u64::MAX ==> {
                let endpoint = AudioEndpointId((old(self).view().next_id + 1) as u64);
                &&& r == Ok::<AudioEndpointId, IdsExhausted>(endpoint)
                &&& final(self).view() == (GraphView {
                    nodes: old(self).view().nodes.insert(
                        global_id,
                        NodeEntry { global_id, endpoint, device, profile_device },
                    ),
                    next_id: (old(self).view().next_id + 1) as u64,
                    ..old(self).view()
                })
            },
    {
        let endpoint = match self.allocate_id() {
            Ok(e) => e,
            Err(e) => return Err(e),
        };
        self.insert_node(NodeEntry { global_id, endpoint, device, profile_device });
        Ok(endpoint)
    }

    /// Follows device `id`, with no routes known yet (replacing a device with
    /// the same identifier).
    pub fn follow_device(&mut self, id: u32)
        requires
            old(self).wf(),
        ensures
            final(self).wf(),
            final(self).view() == (GraphView {
                devices: old(self).view().devices.insert(id, Set::empty()),
                ..old(self).view()
            }),
    {
        self.devices.insert(id, BTreeSet::new());
        proof {
            assert(self.view().devices =~= old(self).view().devices.insert(id, Set::empty()));
        }
    }

    /// Records route `route` of device `id`; tells whether the device is
    /// followed, which is when anything changes.
    pub fn insert_route(&mut self, id: u32, route: i32) -> (r: bool)
        requires
            old(self).wf(),
        ensures
            final(self).wf(),
            r == has_device(old(self).view(), id),
            r ==> final(self).view() == (GraphView {
                devices: old(self).view().devices.insert(id, routes_of(old(self).view(), id).insert(route)),
                ..old(self).view()
            }),
            !r ==> final(self).view() == old(self).view(),
    {
        match self.devices.remove(&id) {
            Some(mut routes) => {
                routes.insert(route);
                self.devices.insert(id, routes);
                proof {
                    assert(self.view().devices =~= old(self).view().devices.insert(
                        id,
                        routes_of(old(self).view(), id).insert(route),
                    ));
                }
                true
            },
            None => {
                proof {
                    assert(self.view().devices =~= old(self).view().devices);
                }
                false
            },
        }
    }

    /// Forgets the routes of device `id`: they are enumerated again when the
    /// device's route parameters change. Tells whether the device is followed.
    pub fn clear_routes(&mut self, id: u32) -> (r: bool)
        requires
            old(self).wf(),
        ensures
            final(self).wf(),
            r == has_device(old(self).view(), id),
            r ==> final(self).view() == (GraphView {
                devices: old(self).view().devices.insert(id, Set::empty()),
                ..old(self).view()
            }),
            !r ==> final(self).view() == old(self).view(),
    {
        if self.devices.contains_key(&id) {
            self.devices.insert(id, BTreeSet::new());
            proof {
                assert(self.view().devices =~= old(self).view().devices.insert(id, Set::empty()));
            }
            true
        } else {
            false
        }
    }

    /// Follows default metadata object `id`.
    pub fn follow_metadata(&mut self, id: u32)
        requires
            old(self).wf(),
        ensures
            final(self).wf(),
            final(self).view() == (GraphView { metadata: old(self).view().metadata.insert(id), ..old(self).view() }),
    {
        self.metadata.insert(id);
    }

    /// The node that carries endpoint `endpoint`, if any.
    pub fn endpoint_node(&self, endpoint: AudioEndpointId) -> (r: Option<u32>)
        requires
            self.wf(),
        ensures
            r is None <==> !(exists|id: u32| has_node(self.view(), id) && #[trigger] node_of(self.view(), id).endpoint
                == endpoint),
            r matches Some(id) ==> has_node(self.view(), id) && node_of(self.view(), id).endpoint == endpoint,
    {
        let ghost s = self.nodes.iter().remaining();
        for kv in it: self.nodes.iter()
            invariant
                it.seq() == s,
                s == vstd::std_specs::btree::spec_btree_map_iter(&self.nodes).remaining(),
                forall|j: int| 0 <= j < it.index() ==> (#[trigger] s[j].1).endpoint != endpoint,
        {
            let (k, n) = kv;
            proof {
                assert(kv == s[it.index() as int]);
                assert(self.nodes@.contains_key(*s[it.index() as int].0));
            }
            if n.endpoint == endpoint {
                return Some(*k);
            }
        }
        proof {
            if exists|id: u32| has_node(self.view(), id) && #[trigger] node_of(self.view(), id).endpoint == endpoint {
                let id = choose|id: u32| has_node(self.view(), id) && #[trigger] node_of(self.view(), id).endpoint
                    == endpoint;
                assert(s.contains((&id, &self.nodes@[id])));
                let j = choose|j: int| 0 <= j < s.len() && s[j] == (&id, &self.nodes@[id]);
                assert(s[j].1.endpoint == endpoint);
            }
        }
        None
    }

    /// Stops following object `id`, whatever kind it is: a removed node's
    /// endpoint is reported removed, the nodes of a removed device are published
    /// again (their mixer is now their own), and a removed default metadata
    /// object clears both defaults.
    pub fn remove(&mut self, id: u32) -> (r: Removal)
        requires
            old(self).wf(),
        ensures
            final(self).wf(),
            final(self).view() == (GraphView {
                nodes: old(self).view().nodes.remove(id),
                devices: old(self).view().devices.remove(id),
                metadata: old(self).view().metadata.remove(id),
                next_id: old(self).view().next_id,
            }),
            r.endpoint == (if has_node(old(self).view(), id) {
                Some(node_of(old(self).view(), id).endpoint)
            } else {
                None::<AudioEndpointId>
            }),
            has_device(old(self).view(), id) ==> increasing(r.republish@) && r.republish@.to_set() == device_nodes(
                final(self).view(),
                id,
            ),
            !has_device(old(self).view(), id) ==> r.republish@.len() == 0,
            r.defaults_cleared == old(self).view().metadata.contains(id),
    {
        let endpoint = match self.nodes.remove(&id) {
            Some(node) => Some(node.endpoint),
            None => None,
        };
        let republish = match self.devices.remove(&id) {
            Some(_) => self.nodes_of_device(id),
            None => Vec::new(),
        };
        let defaults_cleared = self.metadata.remove(&id);
        proof {
            assert(self.view().devices =~= old(self).view().devices.remove(id));
        }
        Removal { endpoint, republish, defaults_cleared }
    }

    /// Where the mixer of node `id` is.
    pub fn mixer_source(&self, id: u32) -> (r: Option<MixerSource>)
        requires
            self.wf(),
        ensures
            r is None <==> !has_node(self.view(), id),
            r matches Some(s) ==> s == mixer_source_spec(self.view(), id),
    {
        let n = match self.nodes.get(&id) {
            Some(n) => n,
            None => return None,
        };
        match (n.device, n.profile_device) {
            (Some(d), Some(p)) => match self.devices.get(&d) {
                Some(routes) => {
                    if routes.contains(&p) {
                        Some(MixerSource::Route { device: d, route: p })
                    } else {
                        Some(MixerSource::Node)
                    }
                },
                None => Some(MixerSource::Node),
            },
            _ => Some(MixerSource::Node),
        }
    }

    /// The nodes of device `d`, in increasing order of global identifier.
    pub fn nodes_of_device(&self, d: u32) -> (r: Vec<u32>)
        requires
            self.wf(),
        ensures
            increasing(r@),
            r@.to_set() == device_nodes(self.view(), d),
    {
        let ghost s = self.nodes.iter().remaining();
        let mut r: Vec<u32> = Vec::new();
        for kv in it: self.nodes.iter()
            invariant
                it.seq() == s,
                s == vstd::std_specs::btree::spec_btree_map_iter(&self.nodes).remaining(),
                vstd::std_specs::btree::increasing_seq(s.map_values(|kv: (&u32, &NodeEntry)| *kv.0)),
                increasing(r@),
                forall|x: u32| r@.contains(x) <==> exists|j: int|
                    0 <= j < it.index() && #[trigger] s[j].0 == &x && s[j].1.device == Some(d),
        {
            let (k, n) = kv;
            let ghost before = r@;
            let ghost at = it.index() as int;
            proof {
                assert(kv == s[at]);
                lemma_entries_increasing(s);
            }
            if n.device == Some(d) {
                r.push(*k);
                proof {
                    assert forall|a: int, b: int| 0 <= a < b < r@.len() implies r@[a] < r@[b] by {
                        if b == before.len() {
                            assert(r@[a] == before[a]);
                            assert(before.contains(before[a]));
                            let j = choose|j: int|
                                0 <= j < at && #[trigger] s[j].0 == &before[a] && s[j].1.device == Some(d);
                            assert(*s[j].0 < *s[at].0);
                        }
                    }
                }
            }
            proof {
                assert forall|x: u32| r@.contains(x) <==> exists|j: int|
                    0 <= j < at + 1 && #[trigger] s[j].0 == &x && s[j].1.device == Some(d) by {
                    if r@.contains(x) && x != *k {
                        let q = choose|q: int| 0 <= q < r@.len() && r@[q] == x;
                        assert(before[q] == x);
                    }
                    if before.contains(x) {
                        let q = choose|q: int| 0 <= q < before.len() && before[q] == x;
                        assert(r@[q] == x);
                    }
                    if n.device == Some(d) {
                        assert(r@[before.len() as int] == *k);
                    }
                    if before.contains(x) && x == *k {
                        let j = choose|j: int| 0 <= j < at && #[trigger] s[j].0 == &x && s[j].1.device == Some(d);
                        assert(*s[j].0 < *s[at].0);
                    }
                }
            }
        }
        proof {
            assert forall|x: u32| r@.to_set().contains(x) <==> device_nodes(self.view(), d).contains(x) by {
                if r@.contains(x) {
                    let j = choose|j: int| 0 <= j < s.len() && #[trigger] s[j].0 == &x && s[j].1.device == Some(d);
                    assert(self.nodes@.contains_key(*s[j].0));
                }
                if self.nodes@.contains_key(x) && self.nodes@[x].device == Some(d) {
                    assert(s.contains((&x, &self.nodes@[x])));
                    let j = choose|j: int| 0 <= j < s.len() && s[j] == (&x, &self.nodes@[x]);
                    assert(s[j].0 == &x);
                }
            }
            assert(r@.to_set() =~= device_nodes(self.view(), d));
        }
        r
    }
}

} // verus!
