//! Audio endpoints as the shell tracks them: endpoints come and go, metadata names
//! the default input and output, and the connection to the sound server can drop.
//! Every update yields the events that a view needs to refresh.
use vstd::prelude::*;

verus! {

/// Identifier of an audio endpoint, as given by the sound server.
#[derive(Clone, Copy, Debug, PartialEq, Eq, Structural, Hash, PartialOrd, Ord)]
pub struct AudioEndpointId(pub u64);

/// Whether an endpoint records or plays sound.
#[derive(Clone, Copy, Debug, PartialEq, Eq, Structural)]
pub enum AudioDirection {
    Input,
    Output,
}

/// An audio endpoint (a sink or a source).
#[derive(Clone, Debug, PartialEq, Eq)]
pub struct AudioEndpoint {
    pub id: AudioEndpointId,
    pub direction: AudioDirection,
    pub name: String,
    pub description: String,
    /// Bit pattern (`f32::to_bits`) of the cubic volume, where 1.0 is 100%.
    /// `None` means not yet known or unsupported.
    pub volume: Option<u32>,
    pub muted: Option<bool>,
}

/// State of the connection to the sound server.
#[derive(Clone, Debug, PartialEq, Eq)]
pub enum AudioConnectionStatus {
    Connecting,
    Connected,
    Unavailable(String),
    Stopped,
}

/// A command that the sound server refused.
#[derive(Clone, Debug, PartialEq, Eq)]
pub struct AudioCommandError {
    pub endpoint: Option<AudioEndpointId>,
    pub message: String,
}

/// What changed after an update.
#[derive(Clone, Debug, PartialEq, Eq)]
pub enum AudioEvent {
    Added(AudioEndpoint),
    Updated(AudioEndpoint),
    Removed(AudioEndpointId),
    DefaultsChanged,
    ConnectionChanged,
    CommandFailed(AudioCommandError),
}

/// An update reported by the sound-server backend.
pub enum AudioUpdate {
    Endpoint(AudioEndpoint),
    Removed(AudioEndpointId),
    Default(AudioDirection, Option<String>),
    Connection(AudioConnectionStatus),
    CommandFailed(AudioCommandError),
}

/// Why a command cannot be sent to an endpoint.
#[derive(Clone, Copy, Debug, PartialEq, Eq, Structural)]
pub enum AudioSendError {
    /// The sound server is not connected.
    NotConnected,
    /// The endpoint no longer exists.
    UnknownEndpoint,
}

/// What the shell knows about audio. Endpoints are kept ordered by identifier.
pub struct AudioState {
    endpoints: Vec<AudioEndpoint>,
    default_input: Option<AudioEndpointId>,
    default_output: Option<AudioEndpointId>,
    connection_status: AudioConnectionStatus,
    default_input_name: Option<String>,
    default_output_name: Option<String>,
}

// ----- mathematical model -----

pub struct EndpointView {
    pub id: AudioEndpointId,
    pub direction: AudioDirection,
    pub name: Seq<char>,
    pub description: Seq<char>,
    pub volume: Option<u32>,
    pub muted: Option<bool>,
}

pub enum ConnectionView {
    Connecting,
    Connected,
    Unavailable(Seq<char>),
    Stopped,
}

pub struct CommandErrorView {
    pub endpoint: Option<AudioEndpointId>,
    pub message: Seq<char>,
}

pub enum AudioEventView {
    Added(EndpointView),
    Updated(EndpointView),
    Removed(AudioEndpointId),
    DefaultsChanged,
    ConnectionChanged,
    CommandFailed(CommandErrorView),
}

pub enum AudioUpdateView {
    Endpoint(EndpointView),
    Removed(AudioEndpointId),
    Default(AudioDirection, Option<Seq<char>>),
    Connection(ConnectionView),
    CommandFailed(CommandErrorView),
}

pub struct AudioStateView {
    pub endpoints: Seq<EndpointView>,
    pub default_input: Option<AudioEndpointId>,
    pub default_output: Option<AudioEndpointId>,
    pub status: ConnectionView,
    pub input_name: Option<Seq<char>>,
    pub output_name: Option<Seq<char>>,
}

pub open spec fn name_view(name: Option<String>) -> Option<Seq<char>> {
    match name {
        Some(n) => Some(n@),
        None => None,
    }
}

impl View for AudioEndpoint {
    type V = EndpointView;

    open spec fn view(&self) -> EndpointView {
        EndpointView {
            id: self.id,
            direction: self.direction,
            name: self.name@,
            description: self.description@,
            volume: self.volume,
            muted: self.muted,
        }
    }
}

impl View for AudioConnectionStatus {
    type V = ConnectionView;

    open spec fn view(&self) -> ConnectionView {
        match self {
            AudioConnectionStatus::Connecting => ConnectionView::Connecting,
            AudioConnectionStatus::Connected => ConnectionView::Connected,
            AudioConnectionStatus::Unavailable(m) => ConnectionView::Unavailable(m@),
            AudioConnectionStatus::Stopped => ConnectionView::Stopped,
        }
    }
}

impl View for AudioCommandError {
    type V = CommandErrorView;

    open spec fn view(&self) -> CommandErrorView {
        CommandErrorView { endpoint: self.endpoint, message: self.message@ }
    }
}

impl View for AudioEvent {
    type V = AudioEventView;

    open spec fn view(&self) -> AudioEventView {
        match self {
            AudioEvent::Added(e) => AudioEventView::Added(e@),
            AudioEvent::Updated(e) => AudioEventView::Updated(e@),
            AudioEvent::Removed(id) => AudioEventView::Removed(*id),
            AudioEvent::DefaultsChanged => AudioEventView::DefaultsChanged,
            AudioEvent::ConnectionChanged => AudioEventView::ConnectionChanged,
            AudioEvent::CommandFailed(err) => AudioEventView::CommandFailed(err@),
        }
    }
}

impl View for AudioUpdate {
    type V = AudioUpdateView;

    open spec fn view(&self) -> AudioUpdateView {
        match self {
            AudioUpdate::Endpoint(e) => AudioUpdateView::Endpoint(e@),
            AudioUpdate::Removed(id) => AudioUpdateView::Removed(*id),
            AudioUpdate::Default(d, n) => AudioUpdateView::Default(*d, name_view(*n)),
            AudioUpdate::Connection(s) => AudioUpdateView::Connection(s@),
            AudioUpdate::CommandFailed(err) => AudioUpdateView::CommandFailed(err@),
        }
    }
}

pub open spec fn events_view(events: Seq<AudioEvent>) -> Seq<AudioEventView> {
    events.map_values(|e: AudioEvent| e@)
}

/// Identifiers strictly increase along `s`.
pub open spec fn ordered_by_id(s: Seq<EndpointView>) -> bool {
    forall|i: int, j: int| 0 <= i < j < s.len() ==> s[i].id.0 < s[j].id.0
}

pub open spec fn id_below(k: u64) -> spec_fn(EndpointView) -> bool {
    |e: EndpointView| e.id.0 < k
}

pub open spec fn id_above(k: u64) -> spec_fn(EndpointView) -> bool {
    |e: EndpointView| e.id.0 > k
}

pub open spec fn id_other(k: u64) -> spec_fn(EndpointView) -> bool {
    |e: EndpointView| e.id.0 != k
}

pub open spec fn has_id(s: Seq<EndpointView>, k: u64) -> bool {
    exists|i: int| 0 <= i < s.len() && s[i].id.0 == k
}

/// `s` with `e` stored under its identifier, replacing an endpoint with the same one.
pub open spec fn upsert(s: Seq<EndpointView>, e: EndpointView) -> Seq<EndpointView> {
    s.filter(id_below(e.id.0)) + seq![e] + s.filter(id_above(e.id.0))
}

/// The first endpoint of `s` with the given direction and name.
pub open spec fn find_default(s: Seq<EndpointView>, direction: AudioDirection, name: Option<Seq<char>>) -> Option<
    AudioEndpointId,
>
    decreases s.len(),
{
    match name {
        None => None,
        Some(n) => if s.len() == 0 {
            None
        } else if s[0].direction == direction && s[0].name == n {
            Some(s[0].id)
        } else {
            find_default(s.drop_first(), direction, name)
        },
    }
}

pub open spec fn removal_events(s: Seq<EndpointView>) -> Seq<AudioEventView> {
    s.map_values(|e: EndpointView| AudioEventView::Removed(e.id))
}

/// Resolves the default endpoints from their names; reports a change.
pub open spec fn resolve_defaults(st: AudioStateView, events: Seq<AudioEventView>) -> (AudioStateView, Seq<AudioEventView>) {
    let input = find_default(st.endpoints, AudioDirection::Input, st.input_name);
    let output = find_default(st.endpoints, AudioDirection::Output, st.output_name);
    if input != st.default_input || output != st.default_output {
        (AudioStateView { default_input: input, default_output: output, ..st }, events.push(AudioEventView::DefaultsChanged))
    } else {
        (st, events)
    }
}

pub open spec fn is_down(status: ConnectionView) -> bool {
    status is Unavailable || status is Stopped
}

/// The state after `update`, and the events it yields.
pub open spec fn apply_update(st: AudioStateView, update: AudioUpdateView) -> (AudioStateView, Seq<AudioEventView>) {
    match update {
        AudioUpdateView::Endpoint(e) => {
            if st.endpoints.contains(e) {
                (st, seq![])
            } else {
                let event = if has_id(st.endpoints, e.id.0) {
                    AudioEventView::Updated(e)
                } else {
                    AudioEventView::Added(e)
                };
                resolve_defaults(AudioStateView { endpoints: upsert(st.endpoints, e), ..st }, seq![event])
            }
        },
        AudioUpdateView::Removed(id) => {
            let events = if has_id(st.endpoints, id.0) {
                seq![AudioEventView::Removed(id)]
            } else {
                seq![]
            };
            resolve_defaults(AudioStateView { endpoints: st.endpoints.filter(id_other(id.0)), ..st }, events)
        },
        AudioUpdateView::Default(direction, name) => match direction {
            AudioDirection::Input => resolve_defaults(AudioStateView { input_name: name, ..st }, seq![]),
            AudioDirection::Output => resolve_defaults(AudioStateView { output_name: name, ..st }, seq![]),
        },
        AudioUpdateView::Connection(status) => {
            if st.status == status {
                (st, seq![])
            } else if is_down(status) {
                resolve_defaults(
                    AudioStateView {
                        endpoints: seq![],
                        status,
                        input_name: None,
                        output_name: None,
                        ..st
                    },
                    removal_events(st.endpoints).push(AudioEventView::ConnectionChanged),
                )
            } else {
                resolve_defaults(AudioStateView { status, ..st }, seq![AudioEventView::ConnectionChanged])
            }
        },
        AudioUpdateView::CommandFailed(err) => resolve_defaults(st, seq![AudioEventView::CommandFailed(err)]),
    }
}

// ----- lemmas on ordered endpoint sequences -----

proof fn lemma_split_below(s: Seq<EndpointView>, pos: int, k: u64)
    requires
        0 <= pos <= s.len(),
        forall|j: int| 0 <= j < pos ==> s[j].id.0 < k,
        forall|j: int| pos <= j < s.len() ==> s[j].id.0 >= k,
    ensures
        s.filter(id_below(k)) == s.take(pos),
{
    let a = s.take(pos);
    let b = s.skip(pos);
    assert(s =~= a + b);
    Seq::filter_distributes_over_add(a, b, id_below(k));
    crate::seqs::lemma_filter_all(a, id_below(k));
    crate::seqs::lemma_filter_none(b, id_below(k));
    assert(a + Seq::<EndpointView>::empty() =~= a);
}

proof fn lemma_split_present(s: Seq<EndpointView>, pos: int, k: u64)
    requires
        ordered_by_id(s),
        0 <= pos < s.len(),
        s[pos].id.0 == k,
    ensures
        s.filter(id_above(k)) == s.skip(pos + 1),
        s.filter(id_other(k)) == s.remove(pos),
        has_id(s, k),
{
    let a = s.take(pos);
    let c = s.skip(pos + 1);
    let m = seq![s[pos]];
    assert(s =~= a + m + c);
    Seq::filter_distributes_over_add(a + m, c, id_above(k));
    Seq::filter_distributes_over_add(a, m, id_above(k));
    Seq::filter_distributes_over_add(a + m, c, id_other(k));
    Seq::filter_distributes_over_add(a, m, id_other(k));
    crate::seqs::lemma_filter_none(a, id_above(k));
    crate::seqs::lemma_filter_none(m, id_above(k));
    crate::seqs::lemma_filter_none(m, id_other(k));
    crate::seqs::lemma_filter_all(a, id_other(k));
    crate::seqs::lemma_filter_all(c, id_above(k));
    crate::seqs::lemma_filter_all(c, id_other(k));
    assert(Seq::<EndpointView>::empty() + Seq::<EndpointView>::empty() + c =~= c);
    assert(a + Seq::<EndpointView>::empty() + c =~= s.remove(pos));
}

proof fn lemma_split_absent(s: Seq<EndpointView>, pos: int, k: u64)
    requires
        ordered_by_id(s),
        0 <= pos <= s.len(),
        forall|j: int| 0 <= j < pos ==> s[j].id.0 < k,
        forall|j: int| pos <= j < s.len() ==> s[j].id.0 >= k,
        !(pos < s.len() && s[pos].id.0 == k),
    ensures
        s.filter(id_above(k)) == s.skip(pos),
        s.filter(id_other(k)) == s,
        !has_id(s, k),
{
    let a = s.take(pos);
    let b = s.skip(pos);
    assert(s =~= a + b);
    assert forall|j: int| pos <= j < s.len() implies s[j].id.0 > k by {
        if j > pos {
            assert(s[pos].id.0 < s[j].id.0);
        }
    }
    Seq::filter_distributes_over_add(a, b, id_above(k));
    crate::seqs::lemma_filter_none(a, id_above(k));
    crate::seqs::lemma_filter_all(b, id_above(k));
    crate::seqs::lemma_filter_all(s, id_other(k));
    assert(Seq::<EndpointView>::empty() + b =~= b);
}

/// Splitting an ordered sequence at the first identifier not below `k`.
proof fn lemma_split(s: Seq<EndpointView>, pos: int, k: u64)
    requires
        ordered_by_id(s),
        0 <= pos <= s.len(),
        forall|j: int| 0 <= j < pos ==> s[j].id.0 < k,
        forall|j: int| pos <= j < s.len() ==> s[j].id.0 >= k,
    ensures
        s.filter(id_below(k)) == s.take(pos),
        pos < s.len() && s[pos].id.0 == k ==> s.filter(id_above(k)) == s.skip(pos + 1),
        pos < s.len() && s[pos].id.0 == k ==> s.filter(id_other(k)) == s.remove(pos),
        !(pos < s.len() && s[pos].id.0 == k) ==> s.filter(id_above(k)) == s.skip(pos),
        !(pos < s.len() && s[pos].id.0 == k) ==> s.filter(id_other(k)) == s,
        has_id(s, k) <==> (pos < s.len() && s[pos].id.0 == k),
{
    lemma_split_below(s, pos, k);
    if pos < s.len() && s[pos].id.0 == k {
        lemma_split_present(s, pos, k);
    } else {
        lemma_split_absent(s, pos, k);
    }
}

proof fn lemma_find_default_step(s: Seq<EndpointView>, i: int, direction: AudioDirection, name: Option<Seq<char>>)
    requires
        0 <= i < s.len(),
        name is Some,
        !(s[i].direction == direction && s[i].name == name->0),
    ensures
        find_default(s.skip(i), direction, name) == find_default(s.skip(i + 1), direction, name),
{
    assert(s.skip(i).drop_first() =~= s.skip(i + 1));
}

// ----- laws -----

/// The defaults are those that their names resolve to.
pub open spec fn resolved(st: AudioStateView) -> bool {
    &&& st.default_input == find_default(st.endpoints, AudioDirection::Input, st.input_name)
    &&& st.default_output == find_default(st.endpoints, AudioDirection::Output, st.output_name)
}

/// A default that a name resolves to is an endpoint of that direction and name.
pub proof fn lemma_find_default_found(s: Seq<EndpointView>, direction: AudioDirection, name: Option<Seq<char>>)
    ensures
        find_default(s, direction, name) matches Some(id) ==> exists|i: int|
            0 <= i < s.len() && s[i].id == id && s[i].direction == direction && name == Some(#[trigger] s[i].name),
        find_default(s, direction, name) is None ==> forall|i: int|
            0 <= i < s.len() ==> !(s[i].direction == direction && name == Some(#[trigger] s[i].name)),
    decreases s.len(),
{
    if name is Some && s.len() > 0 {
        lemma_find_default_found(s.drop_first(), direction, name);
        if !(s[0].direction == direction && s[0].name == name->0) {
            if let Some(id) = find_default(s, direction, name) {
                let i = choose|i: int|
                    0 <= i < s.len() - 1 && s.drop_first()[i].id == id && s.drop_first()[i].direction == direction
                        && name == Some(#[trigger] s.drop_first()[i].name);
                assert(s[i + 1] == s.drop_first()[i]);
            } else {
                assert forall|i: int| 0 <= i < s.len() implies !(s[i].direction == direction && name == Some(
                    #[trigger] s[i].name,
                )) by {
                    if i > 0 {
                        assert(s[i] == s.drop_first()[i - 1]);
                    }
                }
            }
        }
    }
}

/// Every update leaves the defaults resolved from their names: a default always
/// names a known endpoint of its direction whose name is the configured one.
pub proof fn lemma_apply_resolves_defaults(st: AudioStateView, update: AudioUpdateView)
    requires
        resolved(st),
    ensures
        resolved(apply_update(st, update).0),
        apply_update(st, update).0.default_output matches Some(id) ==> exists|i: int|
            0 <= i < apply_update(st, update).0.endpoints.len() && apply_update(st, update).0.endpoints[i].id == id
                && apply_update(st, update).0.endpoints[i].direction == AudioDirection::Output
                && apply_update(st, update).0.output_name == Some(#[trigger] apply_update(st, update).0.endpoints[i].name),
        apply_update(st, update).0.default_input matches Some(id) ==> exists|i: int|
            0 <= i < apply_update(st, update).0.endpoints.len() && apply_update(st, update).0.endpoints[i].id == id
                && apply_update(st, update).0.endpoints[i].direction == AudioDirection::Input
                && apply_update(st, update).0.input_name == Some(#[trigger] apply_update(st, update).0.endpoints[i].name),
{
    let next = apply_update(st, update).0;
    lemma_find_default_found(next.endpoints, AudioDirection::Output, next.output_name);
    lemma_find_default_found(next.endpoints, AudioDirection::Input, next.input_name);
}

/// An endpoint that is already known as it is yields no event and changes nothing.
pub proof fn lemma_unchanged_endpoint_is_silent(st: AudioStateView, e: EndpointView)
    requires
        st.endpoints.contains(e),
    ensures
        apply_update(st, AudioUpdateView::Endpoint(e)) == (st, Seq::<AudioEventView>::empty()),
{
}

/// When the connection drops, no endpoint and no default survive; each known
/// endpoint is reported removed, in order, before the connection change.
pub proof fn lemma_disconnect_clears(st: AudioStateView, status: ConnectionView)
    requires
        is_down(status),
        st.status != status,
    ensures
        apply_update(st, AudioUpdateView::Connection(status)).0.endpoints.len() == 0,
        apply_update(st, AudioUpdateView::Connection(status)).0.default_input is None,
        apply_update(st, AudioUpdateView::Connection(status)).0.default_output is None,
        apply_update(st, AudioUpdateView::Connection(status)).0.status == status,
        apply_update(st, AudioUpdateView::Connection(status)).1.take(st.endpoints.len() as int) == removal_events(
            st.endpoints,
        ),
{
    let r = apply_update(st, AudioUpdateView::Connection(status));
    assert(r.1.take(st.endpoints.len() as int) =~= removal_events(st.endpoints));
}

/// Metadata and endpoints can arrive in either order: naming the default before
/// or after the endpoint arrives leads to the same state.
pub proof fn lemma_default_and_endpoint_commute(
    st: AudioStateView,
    direction: AudioDirection,
    name: Option<Seq<char>>,
    e: EndpointView,
)
    ensures
        apply_update(apply_update(st, AudioUpdateView::Default(direction, name)).0, AudioUpdateView::Endpoint(e)).0
            == apply_update(apply_update(st, AudioUpdateView::Endpoint(e)).0, AudioUpdateView::Default(direction, name)).0,
{
}

/// The state that the shell starts from: no endpoint, no default, connecting.
pub open spec fn initial_audio() -> AudioStateView {
    AudioStateView {
        endpoints: seq![],
        default_input: None,
        default_output: None,
        status: ConnectionView::Connecting,
        input_name: None,
        output_name: None,
    }
}

/// The state after `updates`, applied in order to `st`.
pub open spec fn apply_all(st: AudioStateView, updates: Seq<AudioUpdateView>) -> AudioStateView
    decreases updates.len(),
{
    if updates.len() == 0 {
        st
    } else {
        apply_update(apply_all(st, updates.drop_last()), updates.last()).0
    }
}

/// The name of the default of `direction` after `updates`: the one that the
/// latest default update of that direction gave, forgotten by any change of the
/// connection to unavailable or stopped since.
pub open spec fn latest_name(st: AudioStateView, updates: Seq<AudioUpdateView>, direction: AudioDirection) -> Option<
    Seq<char>,
>
    decreases updates.len(),
{
    if updates.len() == 0 {
        match direction {
            AudioDirection::Input => st.input_name,
            AudioDirection::Output => st.output_name,
        }
    } else {
        let before = apply_all(st, updates.drop_last());
        match updates.last() {
            AudioUpdateView::Default(d, n) => if d == direction {
                n
            } else {
                latest_name(st, updates.drop_last(), direction)
            },
            AudioUpdateView::Connection(status) => if before.status != status && is_down(status) {
                None
            } else {
                latest_name(st, updates.drop_last(), direction)
            },
            _ => latest_name(st, updates.drop_last(), direction),
        }
    }
}

/// `id` is the lowest identifier among the endpoints of `s` with that direction
/// and name (`None`: there is none).
pub open spec fn lowest_match(
    s: Seq<EndpointView>,
    direction: AudioDirection,
    name: Option<Seq<char>>,
    id: Option<AudioEndpointId>,
) -> bool {
    match id {
        None => forall|i: int| 0 <= i < s.len() ==> !(s[i].direction == direction && name == Some(#[trigger] s[i].name)),
        Some(k) => {
            &&& exists|i: int|
                0 <= i < s.len() && s[i].id == k && s[i].direction == direction && name == Some(#[trigger] s[i].name)
            &&& forall|j: int|
                0 <= j < s.len() && s[j].direction == direction && name == Some(#[trigger] s[j].name) ==> k.0 <= s[j].id.0
        },
    }
}

/// The default that a name resolves to is the first endpoint with that
/// direction and name.
proof fn lemma_find_default_first(s: Seq<EndpointView>, direction: AudioDirection, name: Option<Seq<char>>)
    ensures
        find_default(s, direction, name) matches Some(id) ==> exists|i: int|
            0 <= i < s.len() && s[i].id == id && s[i].direction == direction && name == Some(#[trigger] s[i].name)
                && forall|k: int| 0 <= k < i ==> !(s[k].direction == direction && name == Some(s[k].name)),
    decreases s.len(),
{
    if name is Some && s.len() > 0 && !(s[0].direction == direction && s[0].name == name->0) {
        let t = s.drop_first();
        lemma_find_default_first(t, direction, name);
        if let Some(id) = find_default(s, direction, name) {
            let i = choose|i: int|
                0 <= i < t.len() && t[i].id == id && t[i].direction == direction && name == Some(#[trigger] t[i].name)
                    && forall|k: int| 0 <= k < i ==> !(t[k].direction == direction && name == Some(t[k].name));
            assert(s[i + 1] == t[i]);
            assert forall|k: int| 0 <= k < i + 1 implies !(s[k].direction == direction && name == Some(s[k].name)) by {
                if k > 0 {
                    assert(s[k] == t[k - 1]);
                }
            }
        }
    }
}

/// Among endpoints ordered by identifier, a name resolves to the endpoint with
/// the lowest identifier of that direction and name.
proof fn lemma_find_default_lowest(s: Seq<EndpointView>, direction: AudioDirection, name: Option<Seq<char>>)
    requires
        ordered_by_id(s),
    ensures
        lowest_match(s, direction, name, find_default(s, direction, name)),
{
    lemma_find_default_found(s, direction, name);
    lemma_find_default_first(s, direction, name);
    if let Some(id) = find_default(s, direction, name) {
        let i = choose|i: int|
            0 <= i < s.len() && s[i].id == id && s[i].direction == direction && name == Some(#[trigger] s[i].name)
                && forall|k: int| 0 <= k < i ==> !(s[k].direction == direction && name == Some(s[k].name));
        assert forall|j: int|
            0 <= j < s.len() && s[j].direction == direction && name == Some(#[trigger] s[j].name) implies id.0
            <= s[j].id.0 by {
            if j < i {
                assert(!(s[j].direction == direction && name == Some(s[j].name)));
            } else if j > i {
                assert(s[i].id.0 < s[j].id.0);
            }
        }
    }
}

/// A filter keeps endpoints ordered by identifier.
proof fn lemma_filter_ordered(s: Seq<EndpointView>, p: spec_fn(EndpointView) -> bool)
    requires
        ordered_by_id(s),
    ensures
        ordered_by_id(s.filter(p)),
        forall|i: int| 0 <= i < s.filter(p).len() ==> s.contains(#[trigger] s.filter(p)[i]),
    decreases s.len(),
{
    reveal(Seq::filter);
    if s.len() > 0 {
        let t = s.drop_last();
        lemma_filter_ordered(t, p);
        let f = t.filter(p);
        assert forall|i: int| 0 <= i < f.len() implies s.contains(#[trigger] f[i]) by {
            let k = choose|k: int| 0 <= k < t.len() && t[k] == f[i];
            assert(s[k] == f[i]);
        }
        if p(s.last()) {
            let g = f.push(s.last());
            assert forall|a: int, b: int| 0 <= a < b < g.len() implies g[a].id.0 < g[b].id.0 by {
                if b == f.len() {
                    assert(t.contains(f[a]));
                    let k = choose|k: int| 0 <= k < t.len() && t[k] == f[a];
                    assert(s[k] == t[k]);
                    assert(s[k].id.0 < s[s.len() - 1].id.0);
                }
            }
            assert forall|i: int| 0 <= i < g.len() implies s.contains(#[trigger] g[i]) by {
                if i == f.len() {
                    assert(s[s.len() - 1] == g[i]);
                } else {
                    assert(g[i] == f[i]);
                }
            }
        }
    }
}

/// Every update keeps the endpoints ordered by identifier.
proof fn lemma_apply_keeps_order(st: AudioStateView, update: AudioUpdateView)
    requires
        ordered_by_id(st.endpoints),
    ensures
        ordered_by_id(apply_update(st, update).0.endpoints),
{
    match update {
        AudioUpdateView::Endpoint(e) => {
            if !st.endpoints.contains(e) {
                let a = st.endpoints.filter(id_below(e.id.0));
                let c = st.endpoints.filter(id_above(e.id.0));
                lemma_filter_ordered(st.endpoints, id_below(e.id.0));
                lemma_filter_ordered(st.endpoints, id_above(e.id.0));
                let u = upsert(st.endpoints, e);
                assert(u =~= a + seq![e] + c);
                assert forall|x: int, y: int| 0 <= x < y < u.len() implies u[x].id.0 < u[y].id.0 by {
                    if x < a.len() {
                        st.endpoints.lemma_filter_pred(id_below(e.id.0), x);
                    }
                    if y > a.len() {
                        st.endpoints.lemma_filter_pred(id_above(e.id.0), y - a.len() - 1);
                    }
                    if x > a.len() {
                        st.endpoints.lemma_filter_pred(id_above(e.id.0), x - a.len() - 1);
                    }
                    if y < a.len() {
                        st.endpoints.lemma_filter_pred(id_below(e.id.0), y);
                    }
                }
            }
        },
        AudioUpdateView::Removed(id) => {
            lemma_filter_ordered(st.endpoints, id_other(id.0));
        },
        _ => {},
    }
}

/// Over any history of updates from the start: the endpoints stay ordered by
/// identifier; the default names are those the latest default updates gave
/// (forgotten when the connection goes down); and each default is the endpoint
/// with the lowest identifier of its direction and name, or none when no
/// endpoint has them.
pub proof fn lemma_audio_history(updates: Seq<AudioUpdateView>)
    ensures
        ordered_by_id(apply_all(initial_audio(), updates).endpoints),
        resolved(apply_all(initial_audio(), updates)),
        apply_all(initial_audio(), updates).input_name == latest_name(initial_audio(), updates, AudioDirection::Input),
        apply_all(initial_audio(), updates).output_name == latest_name(initial_audio(), updates, AudioDirection::Output),
        lowest_match(
            apply_all(initial_audio(), updates).endpoints,
            AudioDirection::Input,
            apply_all(initial_audio(), updates).input_name,
            apply_all(initial_audio(), updates).default_input,
        ),
        lowest_match(
            apply_all(initial_audio(), updates).endpoints,
            AudioDirection::Output,
            apply_all(initial_audio(), updates).output_name,
            apply_all(initial_audio(), updates).default_output,
        ),
    decreases updates.len(),
{
    let s = apply_all(initial_audio(), updates);
    if updates.len() > 0 {
        let prefix = updates.drop_last();
        lemma_audio_history(prefix);
        let before = apply_all(initial_audio(), prefix);
        lemma_apply_keeps_order(before, updates.last());
        lemma_apply_resolves_defaults(before, updates.last());
    }
    lemma_find_default_lowest(s.endpoints, AudioDirection::Input, s.input_name);
    lemma_find_default_lowest(s.endpoints, AudioDirection::Output, s.output_name);
}

/// An update reports `DefaultsChanged` exactly when it changes a default, and
/// then as its last event; no other event of it is `DefaultsChanged`.
pub proof fn lemma_defaults_changed_is_reported(st: AudioStateView, update: AudioUpdateView)
    requires
        resolved(st),
    ensures
        ({
            let (next, events) = apply_update(st, update);
            &&& (events.len() > 0 && events.last() == AudioEventView::DefaultsChanged) <==> (next.default_input
                != st.default_input || next.default_output != st.default_output)
            &&& forall|i: int| 0 <= i < events.len() - 1 ==> events[i] != AudioEventView::DefaultsChanged
        }),
{
    let (next, events) = apply_update(st, update);
    match update {
        AudioUpdateView::Connection(status) => {
            if st.status != status && is_down(status) {
                let base = removal_events(st.endpoints).push(AudioEventView::ConnectionChanged);
                assert forall|i: int| 0 <= i < base.len() implies base[i] != AudioEventView::DefaultsChanged by {
                    if i < st.endpoints.len() {
                        assert(base[i] == AudioEventView::Removed(st.endpoints[i].id));
                    }
                }
                if events.len() > base.len() {
                    assert(events == base.push(AudioEventView::DefaultsChanged));
                    assert forall|i: int| 0 <= i < events.len() - 1 implies events[i]
                        != AudioEventView::DefaultsChanged by {
                        assert(events[i] == base[i]);
                    }
                }
            }
        },
        _ => {},
    }
}

// ----- executable code -----

fn same_name(a: &Option<String>, b: &String) -> (r: bool)
    ensures
        r == (name_view(*a) == Some(b@)),
{
    match a {
        Some(n) => *n == *b,
        None => false,
    }
}

fn clone_name(a: &Option<String>) -> (r: Option<String>)
    ensures
        name_view(r) == name_view(*a),
{
    match a {
        Some(n) => Some(n.clone()),
        None => None,
    }
}

/// The direction of a node by its `media.class` property: sinks play, sources
/// (virtual ones too) record; other nodes are no audio endpoints.
pub open spec fn class_direction(class: Seq<char>) -> Option<AudioDirection> {
    if class == "Audio/Sink"@ {
        Some(AudioDirection::Output)
    } else if class == "Audio/Source"@ || class == "Audio/Source/Virtual"@ {
        Some(AudioDirection::Input)
    } else {
        None
    }
}

/// The direction whose default a metadata key names.
pub open spec fn default_key_direction(key: Seq<char>) -> Option<AudioDirection> {
    if key == "default.audio.sink"@ {
        Some(AudioDirection::Output)
    } else if key == "default.audio.source"@ {
        Some(AudioDirection::Input)
    } else {
        None
    }
}

/// The direction of a node by its `media.class` property.
pub fn direction_of_class(class: &str) -> (r: Option<AudioDirection>)
    ensures
        r == class_direction(class@),
{
    if crate::watcher::same_text(class, "Audio/Sink") {
        Some(AudioDirection::Output)
    } else if crate::watcher::same_text(class, "Audio/Source") || crate::watcher::same_text(class, "Audio/Source/Virtual") {
        Some(AudioDirection::Input)
    } else {
        None
    }
}

/// The direction whose default a metadata key names.
pub fn direction_of_default_key(key: &str) -> (r: Option<AudioDirection>)
    ensures
        r == default_key_direction(key@),
{
    if crate::watcher::same_text(key, "default.audio.sink") {
        Some(AudioDirection::Output)
    } else if crate::watcher::same_text(key, "default.audio.source") {
        Some(AudioDirection::Input)
    } else {
        None
    }
}

/// A new endpoint from the properties of a node: its `node.name` (empty when
/// missing), and as description its `node.description`, else its `node.nick`,
/// else its name. Volume and mute are not known yet.
pub fn new_endpoint(
    id: AudioEndpointId,
    direction: AudioDirection,
    name: Option<&str>,
    description: Option<&str>,
    nick: Option<&str>,
) -> (r: AudioEndpoint)
    ensures
        r.id == id,
        r.direction == direction,
        r.name@ == match name {
            Some(n) => n@,
            None => Seq::<char>::empty(),
        },
        r.description@ == match description {
            Some(d) => d@,
            None => match nick {
                Some(k) => k@,
                None => r.name@,
            },
        },
        r.volume is None,
        r.muted is None,
{
    let name: String = match name {
        Some(n) => n.to_owned(),
        None => String::new(),
    };
    let description: String = match description {
        Some(d) => d.to_owned(),
        None => match nick {
            Some(k) => k.to_owned(),
            None => name.clone(),
        },
    };
    AudioEndpoint { id, direction, name, description, volume: None, muted: None }
}

/// What a command asks the sound server to change.
#[derive(Clone, Copy, Debug, PartialEq, Eq, Structural)]
pub enum MixerRequest {
    Volume,
    Mute,
}

/// Where a mixer change is written.
#[derive(Clone, Copy, Debug, PartialEq, Eq, Structural)]
pub enum ParameterTarget {
    /// The route of the endpoint's device.
    DeviceRoute,
    /// The endpoint's node itself.
    Node,
}

/// Why a mixer change cannot be written.
#[derive(Clone, Copy, Debug, PartialEq, Eq, Structural)]
pub enum ParameterError {
    EndpointRemoved,
    VolumeUnavailable,
    MuteUnavailable,
    RouteReadOnly,
    NodeReadOnly,
}

/// Decides where a mixer change goes. `node_found`: the endpoint still has a
/// node; `route`: whether its device route, if it has one, is writable;
/// `has_volume`/`has_mute`: what the mixer in use reports (a volume request
/// needs channel volumes or a volume); `node_writable`: whether the node's own
/// properties are writable.
pub fn parameter_target(
    node_found: bool,
    request: MixerRequest,
    has_volume: bool,
    has_mute: bool,
    route: Option<bool>,
    node_writable: bool,
) -> (r: Result<ParameterTarget, ParameterError>)
    ensures
        !node_found ==> r == Err::<ParameterTarget, ParameterError>(ParameterError::EndpointRemoved),
        node_found && request == MixerRequest::Volume && !has_volume ==> r == Err::<ParameterTarget, ParameterError>(
            ParameterError::VolumeUnavailable,
        ),
        node_found && request == MixerRequest::Mute && !has_mute ==> r == Err::<ParameterTarget, ParameterError>(
            ParameterError::MuteUnavailable,
        ),
        node_found && (if request == MixerRequest::Volume { has_volume } else { has_mute }) ==> r == match route {
            Some(writable) => if writable {
                Ok::<ParameterTarget, ParameterError>(ParameterTarget::DeviceRoute)
            } else {
                Err(ParameterError::RouteReadOnly)
            },
            None => if node_writable {
                Ok(ParameterTarget::Node)
            } else {
                Err(ParameterError::NodeReadOnly)
            },
        },
{
    if !node_found {
        return Err(ParameterError::EndpointRemoved);
    }
    match request {
        MixerRequest::Volume => if !has_volume {
            return Err(ParameterError::VolumeUnavailable);
        },
        MixerRequest::Mute => if !has_mute {
            return Err(ParameterError::MuteUnavailable);
        },
    }
    match route {
        Some(writable) => if writable {
            Ok(ParameterTarget::DeviceRoute)
        } else {
            Err(ParameterError::RouteReadOnly)
        },
        None => if node_writable {
            Ok(ParameterTarget::Node)
        } else {
            Err(ParameterError::NodeReadOnly)
        },
    }
}

impl AudioEndpoint {
    /// A copy of the endpoint.
    pub fn duplicate(&self) -> (r: AudioEndpoint)
        ensures
            r@ == self@,
    {
        AudioEndpoint {
            id: self.id,
            direction: self.direction,
            name: self.name.clone(),
            description: self.description.clone(),
            volume: self.volume,
            muted: self.muted,
        }
    }

    /// Whether both describe the same endpoint in the same condition.
    pub fn same_as(&self, other: &AudioEndpoint) -> (r: bool)
        ensures
            r == (self@ == other@),
    {
        let same_volume = match (self.volume, other.volume) {
            (Some(a), Some(b)) => a == b,
            (None, None) => true,
            _ => false,
        };
        let same_muted = match (self.muted, other.muted) {
            (Some(a), Some(b)) => a == b,
            (None, None) => true,
            _ => false,
        };
        self.id.0 == other.id.0 && self.direction == other.direction && self.name == other.name
            && self.description == other.description && same_volume && same_muted
    }
}

impl AudioConnectionStatus {
    /// Whether both statuses are the same.
    pub fn same_as(&self, other: &AudioConnectionStatus) -> (r: bool)
        ensures
            r == (self@ == other@),
    {
        match (self, other) {
            (AudioConnectionStatus::Connecting, AudioConnectionStatus::Connecting) => true,
            (AudioConnectionStatus::Connected, AudioConnectionStatus::Connected) => true,
            (AudioConnectionStatus::Unavailable(a), AudioConnectionStatus::Unavailable(b)) => *a == *b,
            (AudioConnectionStatus::Stopped, AudioConnectionStatus::Stopped) => true,
            _ => false,
        }
    }
}

impl Default for AudioConnectionStatus {
    fn default() -> (r: AudioConnectionStatus)
        ensures
            r == AudioConnectionStatus::Connecting,
    {
        AudioConnectionStatus::Connecting
    }
}

impl AudioState {
    pub closed spec fn view(&self) -> AudioStateView {
        AudioStateView {
            endpoints: self.endpoints@.map_values(|e: AudioEndpoint| e@),
            default_input: self.default_input,
            default_output: self.default_output,
            status: self.connection_status@,
            input_name: name_view(self.default_input_name),
            output_name: name_view(self.default_output_name),
        }
    }

    /// Endpoints are kept ordered by identifier.
    pub closed spec fn wf(&self) -> bool {
        ordered_by_id(self.endpoints@.map_values(|e: AudioEndpoint| e@))
    }

    /// A state with no endpoint, no default, connecting.
    pub fn new() -> (r: AudioState)
        ensures
            r.wf(),
            r.view() == (AudioStateView {
                endpoints: seq![],
                default_input: None,
                default_output: None,
                status: ConnectionView::Connecting,
                input_name: None,
                output_name: None,
            }),
    {
        let r = AudioState {
            endpoints: Vec::new(),
            default_input: None,
            default_output: None,
            connection_status: AudioConnectionStatus::Connecting,
            default_input_name: None,
            default_output_name: None,
        };
        proof {
            assert(r.view().endpoints =~= seq![]);
        }
        r
    }

    /// The endpoints, ordered by identifier.
    pub fn endpoints(&self) -> (r: &Vec<AudioEndpoint>)
        ensures
            r@.map_values(|e: AudioEndpoint| e@) == self.view().endpoints,
    {
        &self.endpoints
    }

    pub fn default_input(&self) -> (r: Option<AudioEndpointId>)
        ensures
            r == self.view().default_input,
    {
        self.default_input
    }

    pub fn default_output(&self) -> (r: Option<AudioEndpointId>)
        ensures
            r == self.view().default_output,
    {
        self.default_output
    }

    pub fn connection_status(&self) -> (r: &AudioConnectionStatus)
        ensures
            r@ == self.view().status,
    {
        &self.connection_status
    }

    /// Whether an endpoint with identifier `id` is known.
    pub fn contains(&self, id: AudioEndpointId) -> (r: bool)
        requires
            self.wf(),
        ensures
            r == has_id(self.view().endpoints, id.0),
    {
        let pos = self.position(id.0);
        pos < self.endpoints.len() && self.endpoints[pos].id.0 == id.0
    }

    /// Checks that a command for `endpoint` can be sent: the server is connected
    /// and the endpoint exists.
    pub fn check_command(&self, endpoint: AudioEndpointId) -> (r: Result<(), AudioSendError>)
        requires
            self.wf(),
        ensures
            !(self.view().status is Connected) ==> r == Err::<(), AudioSendError>(AudioSendError::NotConnected),
            self.view().status is Connected && !has_id(self.view().endpoints, endpoint.0) ==> r == Err::<
                (),
                AudioSendError,
            >(AudioSendError::UnknownEndpoint),
            self.view().status is Connected && has_id(self.view().endpoints, endpoint.0) ==> r is Ok,
    {
        match self.connection_status {
            AudioConnectionStatus::Connected => {},
            _ => return Err(AudioSendError::NotConnected),
        }
        if !self.contains(endpoint) {
            return Err(AudioSendError::UnknownEndpoint);
        }
        Ok(())
    }

    /// Index of the first endpoint whose identifier is not below `k`.
    fn position(&self, k: u64) -> (pos: usize)
        requires
            self.wf(),
        ensures
            pos <= self.endpoints@.len(),
            forall|j: int| 0 <= j < pos ==> self.endpoints@[j].id.0 < k,
            forall|j: int| pos <= j < self.endpoints@.len() ==> self.endpoints@[j].id.0 >= k,
            has_id(self.view().endpoints, k) <==> (pos < self.endpoints@.len() && self.endpoints@[pos as int].id.0 == k),
    {
        let ghost s = self.view().endpoints;
        let mut pos: usize = 0;
        while pos < self.endpoints.len() && self.endpoints[pos].id.0 < k
            invariant
                pos <= self.endpoints@.len(),
                forall|j: int| 0 <= j < pos ==> self.endpoints@[j].id.0 < k,
            decreases self.endpoints@.len() - pos,
        {
            pos = pos + 1;
        }
        proof {
            assert forall|j: int| pos <= j < self.endpoints@.len() implies self.endpoints@[j].id.0 >= k by {
                assert(s[pos as int].id.0 <= s[j].id.0);
            }
            lemma_split(s, pos as int, k);
        }
        pos
    }

    /// The first endpoint with the given direction and name.
    fn find_default(&self, direction: AudioDirection, name: &Option<String>) -> (r: Option<AudioEndpointId>)
        ensures
            r == find_default(self.view().endpoints, direction, name_view(*name)),
    {
        let ghost s = self.view().endpoints;
        if name.is_none() {
            return None;
        }
        let mut i: usize = 0;
        proof {
            assert(s.skip(0) =~= s);
        }
        while i < self.endpoints.len()
            invariant
                i <= s.len(),
                s == self.view().endpoints,
                name is Some,
                find_default(s, direction, name_view(*name)) == find_default(s.skip(i as int), direction, name_view(*name)),
            decreases s.len() - i,
        {
            let e = &self.endpoints[i];
            if e.direction == direction && same_name(name, &e.name) {
                return Some(e.id);
            }
            proof {
                lemma_find_default_step(s, i as int, direction, name_view(*name));
            }
            i = i + 1;
        }
        proof {
            assert(s.skip(i as int).len() == 0);
        }
        None
    }

    /// Resolves the defaults from their names and reports a change.
    fn resolve_defaults(&mut self, events: &mut Vec<AudioEvent>)
        ensures
            (final(self).view(), events_view(final(events)@)) == resolve_defaults(old(self).view(), events_view(old(events)@)),
            final(self).endpoints@ == old(self).endpoints@,
    {
        let input = self.find_default(AudioDirection::Input, &self.default_input_name);
        let output = self.find_default(AudioDirection::Output, &self.default_output_name);
        let changed_input = match (input, self.default_input) {
            (Some(a), Some(b)) => a.0 != b.0,
            (None, None) => false,
            _ => true,
        };
        let changed_output = match (output, self.default_output) {
            (Some(a), Some(b)) => a.0 != b.0,
            (None, None) => false,
            _ => true,
        };
        if changed_input || changed_output {
            self.default_input = input;
            self.default_output = output;
            events.push(AudioEvent::DefaultsChanged);
            proof {
                assert(events_view(events@) =~= events_view(old(events)@).push(AudioEventView::DefaultsChanged));
            }
        }
    }

    /// Applies an update from the backend and returns the events it yields.
    /// Metadata and endpoints can arrive in either order: the defaults are
    /// resolved again after every change.
    pub fn apply(&mut self, update: AudioUpdate) -> (events: Vec<AudioEvent>)
        requires
            old(self).wf(),
        ensures
            final(self).wf(),
            (final(self).view(), events_view(events@)) == apply_update(old(self).view(), update@),
    {
        let ghost s0 = self.view().endpoints;
        let mut events: Vec<AudioEvent> = Vec::new();
        proof {
            assert(events_view(events@) =~= seq![]);
        }
        match update {
            AudioUpdate::Endpoint(endpoint) => {
                let pos = self.position(endpoint.id.0);
                let present = pos < self.endpoints.len() && self.endpoints[pos].id.0 == endpoint.id.0;
                if present && self.endpoints[pos].same_as(&endpoint) {
                    proof {
                        assert(s0.contains(endpoint@)) by {
                            assert(s0[pos as int] == endpoint@);
                        }
                    }
                    return events;
                }
                proof {
                    assert(!s0.contains(endpoint@)) by {
                        if s0.contains(endpoint@) {
                            let j = choose|j: int| 0 <= j < s0.len() && s0[j] == endpoint@;
                            if j < pos {
                            } else if j > pos {
                                assert(s0[pos as int].id.0 < s0[j].id.0);
                            }
                        }
                    }
                }
                let copy = endpoint.duplicate();
                if present {
                    events.push(AudioEvent::Updated(copy));
                    self.endpoints.set(pos, endpoint);
                } else {
                    events.push(AudioEvent::Added(copy));
                    self.endpoints.insert(pos, endpoint);
                }
                proof {
                    lemma_split(s0, pos as int, endpoint.id.0);
                    let s1 = self.view().endpoints;
                    if present {
                        assert(s1 =~= s0.take(pos as int) + seq![endpoint@] + s0.skip(pos + 1));
                    } else {
                        assert(s1 =~= s0.take(pos as int) + seq![endpoint@] + s0.skip(pos as int));
                    }
                    assert(s1 == upsert(s0, endpoint@));
                    assert forall|a: int, b: int| 0 <= a < b < s1.len() implies s1[a].id.0 < s1[b].id.0 by {
                        if b < pos {
                        } else if b == pos {
                        } else if a < pos {
                            assert(s0[pos as int].id.0 <= s1[b].id.0);
                        } else if a == pos {
                            if !present {
                                assert(s1[b] == s0[b - 1]);
                                assert(s0[b - 1].id.0 != endpoint.id.0);
                            }
                        } else {
                        }
                    }
                    assert(events_view(events@) =~= seq![
                        if present { AudioEventView::Updated(endpoint@) } else { AudioEventView::Added(endpoint@) },
                    ]);
                }
            },
            AudioUpdate::Removed(id) => {
                let pos = self.position(id.0);
                if pos < self.endpoints.len() && self.endpoints[pos].id.0 == id.0 {
                    self.endpoints.remove(pos);
                    events.push(AudioEvent::Removed(id));
                    proof {
                        assert(events_view(events@) =~= seq![AudioEventView::Removed(id)]);
                    }
                }
                proof {
                    lemma_split(s0, pos as int, id.0);
                    assert(self.view().endpoints =~= s0.filter(id_other(id.0)));
                    let s1 = self.view().endpoints;
                    assert forall|a: int, b: int| 0 <= a < b < s1.len() implies s1[a].id.0 < s1[b].id.0 by {
                        if pos < s0.len() && s0[pos as int].id.0 == id.0 {
                            let a0 = if a < pos { a } else { a + 1 };
                            let b0 = if b < pos { b } else { b + 1 };
                            assert(s1[a] == s0[a0]);
                            assert(s1[b] == s0[b0]);
                        }
                    }
                }
            },
            AudioUpdate::Default(direction, name) => {
                match direction {
                    AudioDirection::Input => {
                        self.default_input_name = name;
                    },
                    AudioDirection::Output => {
                        self.default_output_name = name;
                    },
                }
            },
            AudioUpdate::Connection(status) => {
                if self.connection_status.same_as(&status) {
                    return events;
                }
                let down = match status {
                    AudioConnectionStatus::Unavailable(_) => true,
                    AudioConnectionStatus::Stopped => true,
                    _ => false,
                };
                if down {
                    let mut i: usize = 0;
                    while i < self.endpoints.len()
                        invariant
                            i <= s0.len(),
                            self.view().endpoints == s0,
                            events_view(events@) == removal_events(s0.take(i as int)),
                        decreases s0.len() - i,
                    {
                        let ghost before = events@;
                        events.push(AudioEvent::Removed(self.endpoints[i].id));
                        proof {
                            assert(events@ =~= before.push(AudioEvent::Removed(s0[i as int].id)));
                            assert(events_view(events@) =~= events_view(before).push(AudioEventView::Removed(s0[i as int].id)));
                            assert(s0.take(i + 1) =~= s0.take(i as int).push(s0[i as int]));
                            assert(events_view(events@) =~= removal_events(s0.take(i + 1)));
                        }
                        i = i + 1;
                    }
                    proof {
                        assert(s0.take(s0.len() as int) =~= s0);
                    }
                    self.endpoints = Vec::new();
                    self.default_input_name = None;
                    self.default_output_name = None;
                    proof {
                        assert(self.view().endpoints =~= seq![]);
                    }
                }
                self.connection_status = status;
                events.push(AudioEvent::ConnectionChanged);
                proof {
                    assert(events_view(events@) =~= events_view(events@.drop_last()).push(AudioEventView::ConnectionChanged));
                    if !down {
                        assert(events_view(events@) =~= seq![AudioEventView::ConnectionChanged]);
                    }
                }
            },
            AudioUpdate::CommandFailed(error) => {
                events.push(AudioEvent::CommandFailed(error));
                proof {
                    assert(events_view(events@) =~= seq![AudioEventView::CommandFailed(error@)]);
                }
            },
        }
        self.resolve_defaults(&mut events);
        events
    }
}

impl Default for AudioState {
    fn default() -> (r: AudioState)
        ensures
            r.wf(),
            r.view().endpoints.len() == 0,
            r.view().default_input is None,
            r.view().default_output is None,
            r.view().status is Connecting,
            r.view().input_name is None,
            r.view().output_name is None,
    {
        AudioState::new()
    }
}

} // verus!
