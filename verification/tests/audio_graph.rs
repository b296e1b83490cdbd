use ghost_shell::audio::{AudioCommandError, AudioDirection, AudioEndpointId, AudioUpdate};
use ghost_shell::audio_graph::{
    core_error_action, default_value, metadata_property, parse_device_id, parse_profile_device, route_key, AudioGraph, CoreErrorAction, CoreErrorKind, DefaultValue,
    MixerSource, RouteError, CORE_ID,
};

#[test]
fn nodes_get_consecutive_endpoint_identifiers() {
    let mut graph = AudioGraph::new();
    assert_eq!(graph.follow_node(40, None, None), Ok(AudioEndpointId(1)));
    assert_eq!(graph.follow_node(41, None, None), Ok(AudioEndpointId(2)));
    // A node announced again gets a fresh endpoint.
    assert_eq!(graph.follow_node(40, None, None), Ok(AudioEndpointId(3)));
    assert_eq!(graph.endpoint_node(AudioEndpointId(3)), Some(40));
    assert_eq!(graph.endpoint_node(AudioEndpointId(1)), None);
    assert_eq!(graph.endpoint_node(AudioEndpointId(2)), Some(41));
}

#[test]
fn mixer_comes_from_the_device_route_once_known() {
    let mut graph = AudioGraph::new();
    graph.follow_node(50, Some(7), Some(1)).unwrap();
    assert_eq!(graph.mixer_source(50), Some(MixerSource::Node));
    graph.follow_device(7);
    assert_eq!(graph.mixer_source(50), Some(MixerSource::Node));
    assert!(graph.insert_route(7, 1));
    assert_eq!(graph.mixer_source(50), Some(MixerSource::Route { device: 7, route: 1 }));
    assert!(graph.clear_routes(7));
    assert_eq!(graph.mixer_source(50), Some(MixerSource::Node));
    assert!(!graph.insert_route(8, 1));
    assert_eq!(graph.mixer_source(51), None);
}

#[test]
fn removing_a_node_reports_its_endpoint() {
    let mut graph = AudioGraph::new();
    graph.follow_node(60, None, None).unwrap();
    graph.follow_node(61, None, None).unwrap();
    let removal = graph.remove(60);
    assert_eq!(removal.endpoint, Some(AudioEndpointId(1)));
    assert!(removal.republish.is_empty());
    assert!(!removal.defaults_cleared);
    assert_eq!(graph.mixer_source(60), None);
    assert_eq!(graph.mixer_source(61), Some(MixerSource::Node));
    let again = graph.remove(60);
    assert_eq!(again.endpoint, None);
}

#[test]
fn removing_a_device_republishes_its_nodes_in_order() {
    let mut graph = AudioGraph::new();
    graph.follow_device(9);
    graph.insert_route(9, 0);
    graph.follow_node(72, Some(9), Some(0)).unwrap();
    graph.follow_node(70, Some(9), None).unwrap();
    graph.follow_node(71, Some(3), None).unwrap();
    assert_eq!(graph.nodes_of_device(9), vec![70, 72]);
    let removal = graph.remove(9);
    assert_eq!(removal.endpoint, None);
    assert_eq!(removal.republish, vec![70, 72]);
    assert_eq!(graph.mixer_source(72), Some(MixerSource::Node));
}

#[test]
fn removing_default_metadata_clears_defaults() {
    let mut graph = AudioGraph::new();
    graph.follow_metadata(30);
    graph.follow_metadata(30);
    assert!(graph.remove(30).defaults_cleared);
    assert!(!graph.remove(30).defaults_cleared);
}

#[test]
fn metadata_defaults_are_set_and_cleared() {
    let named = metadata_property(CORE_ID, Some("default.audio.sink"), DefaultValue::Named("alsa_output.test".into()));
    assert!(matches!(named.as_slice(), [AudioUpdate::Default(AudioDirection::Output, Some(n))] if n == "alsa_output.test"));
    let unset = metadata_property(CORE_ID, Some("default.audio.source"), DefaultValue::Unset);
    assert!(matches!(unset.as_slice(), [AudioUpdate::Default(AudioDirection::Input, None)]));
    let invalid = metadata_property(CORE_ID, Some("default.audio.sink"), DefaultValue::Invalid);
    assert!(matches!(invalid.as_slice(), [
        AudioUpdate::Default(AudioDirection::Output, None),
        AudioUpdate::CommandFailed(AudioCommandError { endpoint: None, message }),
    ] if message == "invalid default audio metadata"));
    let unnamed = metadata_property(CORE_ID, Some("default.audio.sink"), DefaultValue::Unnamed);
    assert!(matches!(unnamed.as_slice(), [
        AudioUpdate::Default(AudioDirection::Output, None),
        AudioUpdate::CommandFailed(AudioCommandError { endpoint: None, message }),
    ] if message == "default audio metadata has no name"));
    let cleared = metadata_property(CORE_ID, None, DefaultValue::Unset);
    assert!(matches!(cleared.as_slice(), [
        AudioUpdate::Default(AudioDirection::Input, None),
        AudioUpdate::Default(AudioDirection::Output, None),
    ]));
    assert!(metadata_property(5, Some("default.audio.sink"), DefaultValue::Unset).is_empty());
    assert!(metadata_property(CORE_ID, Some("other.key"), DefaultValue::Unset).is_empty());
}

#[test]
fn routes_need_index_and_device() {
    assert_eq!(route_key(Some(3), Some(1), true), Ok(Some((3, 1))));
    assert_eq!(route_key(Some(3), Some(1), false), Ok(None));
    assert_eq!(route_key(None, Some(1), true), Err(RouteError::NoIndex));
    assert_eq!(route_key(Some(3), None, true), Err(RouteError::NoProfileDevice));
    assert_eq!(RouteError::NoIndex.message(), "audio route has no index");
    assert_eq!(RouteError::NoProfileDevice.message(), "audio route has no profile device");
}

#[test]
fn only_a_broken_core_disconnects() {
    assert_eq!(core_error_action(CORE_ID, CoreErrorKind::BrokenPipe), CoreErrorAction::Disconnect);
    assert_eq!(core_error_action(12, CoreErrorKind::BrokenPipe), CoreErrorAction::Report);
    assert_eq!(core_error_action(12, CoreErrorKind::NotFound), CoreErrorAction::Ignore);
    assert_eq!(core_error_action(CORE_ID, CoreErrorKind::Other), CoreErrorAction::Report);
}

#[test]
fn parses_and_clears_defaults() {
    assert_eq!(
        default_value(Some(r#"{"name":"alsa_output.test"}"#)),
        DefaultValue::Named("alsa_output.test".into())
    );
    assert_eq!(default_value(None), DefaultValue::Unset);
    assert_eq!(default_value(Some("not json")), DefaultValue::Invalid);
    assert_eq!(default_value(Some("{}")), DefaultValue::Unnamed);
}

#[test]
fn device_properties_parse_as_numbers() {
    assert_eq!(parse_device_id("42"), Some(42));
    assert_eq!(parse_device_id("+7"), Some(7));
    assert_eq!(parse_device_id("4294967295"), Some(u32::MAX));
    assert_eq!(parse_device_id("4294967296"), None);
    assert_eq!(parse_device_id("-1"), None);
    assert_eq!(parse_device_id(""), None);
    assert_eq!(parse_device_id("+"), None);
    assert_eq!(parse_device_id("12a"), None);
    assert_eq!(parse_device_id(" 1"), None);
    assert_eq!(parse_profile_device("-3"), Some(-3));
    assert_eq!(parse_profile_device("+3"), Some(3));
    assert_eq!(parse_profile_device("-2147483648"), Some(i32::MIN));
    assert_eq!(parse_profile_device("2147483647"), Some(i32::MAX));
    assert_eq!(parse_profile_device("2147483648"), None);
    assert_eq!(parse_profile_device("-2147483649"), None);
    assert_eq!(parse_profile_device("-"), None);
    assert_eq!(parse_profile_device("٣"), None);
    for text in ["0", "17", "+9", "-9", "x", "", "99999999999"] {
        assert_eq!(parse_device_id(text), text.parse::<u32>().ok(), "{text}");
        assert_eq!(parse_profile_device(text), text.parse::<i32>().ok(), "{text}");
    }
}
