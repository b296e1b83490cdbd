use ghost_shell::audio::{
    direction_of_class, direction_of_default_key, new_endpoint, parameter_target, AudioCommandError,
    AudioConnectionStatus, AudioDirection, AudioEndpoint, AudioEndpointId, AudioEvent, AudioSendError, AudioState,
    AudioUpdate, MixerRequest, ParameterError, ParameterTarget,
};

fn endpoint() -> AudioEndpoint {
    AudioEndpoint {
        id: AudioEndpointId(1),
        direction: AudioDirection::Output,
        name: "speakers".into(),
        description: "Speakers".into(),
        volume: None,
        muted: None,
    }
}

#[test]
fn metadata_before_node_resolves_when_node_arrives() {
    let mut state = AudioState::default();
    assert!(state
        .apply(AudioUpdate::Default(AudioDirection::Output, Some("speakers".into())))
        .is_empty());
    let events = state.apply(AudioUpdate::Endpoint(endpoint()));
    assert_eq!(state.default_output(), Some(AudioEndpointId(1)));
    assert!(matches!(events.as_slice(), [AudioEvent::Added(_), AudioEvent::DefaultsChanged]));
}

#[test]
fn node_before_metadata_and_removal_update_default() {
    let mut state = AudioState::default();
    state.apply(AudioUpdate::Endpoint(endpoint()));
    assert_eq!(
        state.apply(AudioUpdate::Default(AudioDirection::Output, Some("speakers".into()))),
        vec![AudioEvent::DefaultsChanged]
    );
    assert_eq!(
        state.apply(AudioUpdate::Removed(AudioEndpointId(1))),
        vec![AudioEvent::Removed(AudioEndpointId(1)), AudioEvent::DefaultsChanged]
    );
    assert_eq!(state.default_output(), None);
}

#[test]
fn unchanged_updates_do_not_emit_events() {
    let mut state = AudioState::default();
    state.apply(AudioUpdate::Endpoint(endpoint()));
    assert!(state.apply(AudioUpdate::Endpoint(endpoint())).is_empty());
    let mut changed = endpoint();
    changed.muted = Some(true);
    assert_eq!(state.apply(AudioUpdate::Endpoint(changed.clone())), vec![AudioEvent::Updated(changed)]);
}

#[test]
fn disconnect_clears_stale_state() {
    let mut state = AudioState::default();
    state.apply(AudioUpdate::Endpoint(endpoint()));
    state.apply(AudioUpdate::Default(AudioDirection::Output, Some("speakers".into())));
    state.apply(AudioUpdate::Connection(AudioConnectionStatus::Unavailable("disconnected".into())));
    assert!(state.endpoints().is_empty());
    assert_eq!(state.default_output(), None);
    state.apply(AudioUpdate::Endpoint(endpoint()));
    assert_eq!(state.default_output(), None);
}

#[test]
fn endpoints_stay_ordered_and_disconnect_reports_each_removal() {
    let mut state = AudioState::new();
    for id in [5u64, 2, 9] {
        let mut e = endpoint();
        e.id = AudioEndpointId(id);
        e.name = format!("sink-{id}");
        state.apply(AudioUpdate::Endpoint(e));
    }
    let ids: Vec<u64> = state.endpoints().iter().map(|e| e.id.0).collect();
    assert_eq!(ids, vec![2, 5, 9]);
    let events = state.apply(AudioUpdate::Connection(AudioConnectionStatus::Stopped));
    assert_eq!(
        events,
        vec![
            AudioEvent::Removed(AudioEndpointId(2)),
            AudioEvent::Removed(AudioEndpointId(5)),
            AudioEvent::Removed(AudioEndpointId(9)),
            AudioEvent::ConnectionChanged,
        ]
    );
    assert!(state.apply(AudioUpdate::Connection(AudioConnectionStatus::Stopped)).is_empty());
}

#[test]
fn connection_changes_and_command_failures_are_reported() {
    let mut state = AudioState::new();
    assert_eq!(
        state.apply(AudioUpdate::Connection(AudioConnectionStatus::Connected)),
        vec![AudioEvent::ConnectionChanged]
    );
    assert_eq!(*state.connection_status(), AudioConnectionStatus::Connected);
    let error = AudioCommandError { endpoint: Some(AudioEndpointId(3)), message: "refused".into() };
    assert_eq!(state.apply(AudioUpdate::CommandFailed(error.clone())), vec![AudioEvent::CommandFailed(error)]);
}

#[test]
fn input_default_resolves_only_to_an_input() {
    let mut state = AudioState::new();
    state.apply(AudioUpdate::Endpoint(endpoint()));
    assert!(state.apply(AudioUpdate::Default(AudioDirection::Input, Some("speakers".into()))).is_empty());
    assert_eq!(state.default_input(), None);
    let mut mic = endpoint();
    mic.id = AudioEndpointId(4);
    mic.direction = AudioDirection::Input;
    assert_eq!(
        state.apply(AudioUpdate::Endpoint(mic.clone())),
        vec![AudioEvent::Added(mic), AudioEvent::DefaultsChanged]
    );
    assert_eq!(state.default_input(), Some(AudioEndpointId(4)));
}

#[test]
fn commands_need_a_connection_and_a_known_endpoint() {
    let mut state = AudioState::new();
    assert_eq!(state.check_command(AudioEndpointId(1)), Err(AudioSendError::NotConnected));
    state.apply(AudioUpdate::Connection(AudioConnectionStatus::Connected));
    assert_eq!(state.check_command(AudioEndpointId(1)), Err(AudioSendError::UnknownEndpoint));
    state.apply(AudioUpdate::Endpoint(endpoint()));
    assert_eq!(state.check_command(AudioEndpointId(1)), Ok(()));
}

#[test]
fn node_properties_and_metadata_keys() {
    assert_eq!(direction_of_class("Audio/Sink"), Some(AudioDirection::Output));
    assert_eq!(direction_of_class("Audio/Source"), Some(AudioDirection::Input));
    assert_eq!(direction_of_class("Audio/Source/Virtual"), Some(AudioDirection::Input));
    assert_eq!(direction_of_class("Video/Source"), None);
    assert_eq!(direction_of_default_key("default.audio.sink"), Some(AudioDirection::Output));
    assert_eq!(direction_of_default_key("default.audio.source"), Some(AudioDirection::Input));
    assert_eq!(direction_of_default_key("default.video.source"), None);
    let e = new_endpoint(AudioEndpointId(3), AudioDirection::Output, Some("alsa.out"), None, Some("Speakers"));
    assert_eq!(e.name, "alsa.out");
    assert_eq!(e.description, "Speakers");
    let e = new_endpoint(AudioEndpointId(3), AudioDirection::Output, Some("alsa.out"), None, None);
    assert_eq!(e.description, "alsa.out");
    let e = new_endpoint(AudioEndpointId(3), AudioDirection::Input, None, Some("Mic"), Some("m"));
    assert_eq!(e.name, "");
    assert_eq!(e.description, "Mic");
}

#[test]
fn mixer_changes_go_where_they_can_be_written() {
    assert_eq!(
        parameter_target(false, MixerRequest::Volume, true, true, None, true),
        Err(ParameterError::EndpointRemoved)
    );
    assert_eq!(
        parameter_target(true, MixerRequest::Volume, false, true, None, true),
        Err(ParameterError::VolumeUnavailable)
    );
    assert_eq!(
        parameter_target(true, MixerRequest::Mute, true, false, Some(true), true),
        Err(ParameterError::MuteUnavailable)
    );
    assert_eq!(
        parameter_target(true, MixerRequest::Mute, true, true, Some(false), true),
        Err(ParameterError::RouteReadOnly)
    );
    assert_eq!(
        parameter_target(true, MixerRequest::Volume, true, false, Some(true), false),
        Ok(ParameterTarget::DeviceRoute)
    );
    assert_eq!(parameter_target(true, MixerRequest::Volume, true, false, None, false), Err(ParameterError::NodeReadOnly));
    assert_eq!(parameter_target(true, MixerRequest::Volume, true, false, None, true), Ok(ParameterTarget::Node));
}
