use ghost_shell::bars::{desired_bars, reconcile_bars};
use ghost_shell::shell::{primary_output_name, primary_output_uuid, Display, GhostShell};
use uuid::Uuid;

fn uuid_of(name: &str) -> u128 {
    Uuid::new_v5(&Uuid::NAMESPACE_DNS, name.as_bytes()).as_u128()
}

fn display(id: u64, name: &str) -> Display {
    Display { id, uuid: Some(uuid_of(name)) }
}

#[test]
fn disconnected_primary_falls_back_and_reconnection_uses_new_handle() {
    let internal = display(1, "eDP-1");
    let external = display(2, "DP-1");
    let primary = external.uuid;
    let mut shell = GhostShell::new(Vec::new());
    shell.set_displays(vec![internal, external], primary, primary);
    assert_eq!(shell.get_output().unwrap().display.id, 2);

    shell.set_displays(vec![internal], primary, primary);
    assert_eq!(shell.get_output().unwrap().display.id, internal.id);
    assert!(shell.get_focused_output().is_none());
    assert!(shell.get_primary_output().unwrap().is_primary);

    let reconnected = display(3, "DP-1");
    shell.set_displays(vec![internal, reconnected], primary, None);
    assert_eq!(shell.get_output().unwrap().display.id, 3);
}

#[test]
fn no_connected_displays_is_valid() {
    let mut shell = GhostShell::new(Vec::new());
    shell.set_displays(vec![display(1, "eDP-1")], None, None);
    shell.set_displays(Vec::new(), None, None);
    assert!(shell.get_output().is_none());
    assert!(shell.get_primary_output().is_none());
    assert!(shell.get_displays().is_empty());
}

#[test]
fn focus_can_be_cleared_without_retaining_an_old_output() {
    let internal = display(1, "eDP-1");
    let external = display(2, "DP-1");
    let focused = external.uuid;
    let mut shell = GhostShell::new(Vec::new());
    shell.set_displays(vec![external, internal], None, focused);
    assert_eq!(shell.get_output().unwrap().display.id, 2);
    shell.set_focused_output(None);
    assert_eq!(shell.get_output().unwrap().display.id, 1);
}

#[test]
fn outputs_are_ordered_by_identifier_and_first_is_primary_by_default() {
    let mut shell = GhostShell::new(Vec::new());
    shell.set_displays(vec![display(7, "HDMI-A-1"), display(3, "DP-2"), display(5, "eDP-1")], None, None);
    let ids: Vec<u64> = shell.get_displays().iter().map(|d| d.id).collect();
    assert_eq!(ids, vec![3, 5, 7]);
    let outputs = shell.get_outputs();
    assert!(outputs[0].is_primary);
    assert!(!outputs[1].is_primary && !outputs[2].is_primary);
    assert!(outputs.iter().all(|o| !o.is_focused));
    assert_eq!(shell.get_output().unwrap().display.id, 3);
}

#[test]
fn display_without_uuid_is_never_primary_by_configuration() {
    let mut shell = GhostShell::new(Vec::new());
    let anonymous = Display { id: 1, uuid: None };
    shell.set_displays(vec![anonymous, display(2, "DP-1")], Some(uuid_of("DP-1")), None);
    let outputs = shell.get_outputs();
    assert!(!outputs[0].is_primary);
    assert!(outputs[1].is_primary);
}

#[test]
fn primary_output_is_the_least_primary_bar_name() {
    let bars = vec![
        ("HDMI-A-1".to_string(), true),
        ("DP-2".to_string(), true),
        ("eDP-1".to_string(), false),
    ];
    assert_eq!(primary_output_name(&bars), Some("DP-2".to_string()));
    assert_eq!(primary_output_uuid(&bars), Some(uuid_of("DP-2")));
    assert_ne!(primary_output_uuid(&bars), Some(uuid_of("HDMI-A-1")));
    let none = vec![("eDP-1".to_string(), false)];
    assert_eq!(primary_output_name(&none), None);
    assert_eq!(primary_output_uuid(&none), None);
}

#[test]
fn bars_follow_their_outputs() {
    let outputs = vec!["DP-1".to_string(), "HDMI-A-1".to_string(), "eDP-1".to_string()];
    let displays = vec![display(4, "eDP-1"), display(9, "DP-1")];
    let desired = desired_bars(&outputs, &displays);
    assert_eq!(desired.len(), 2);
    assert_eq!((desired[0].0, desired[0].1.id, desired[0].2), (uuid_of("DP-1"), 9, 0));
    assert_eq!((desired[1].0, desired[1].1.id, desired[1].2), (uuid_of("eDP-1"), 4, 2));
    // The DP-1 bar moved to another display, the HDMI one is gone, eDP-1 stays.
    let open = vec![(uuid_of("DP-1"), 2u64), (uuid_of("HDMI-A-1"), 3), (uuid_of("eDP-1"), 4)];
    let plan = reconcile_bars(&desired, &open);
    assert_eq!(plan.close, vec![uuid_of("DP-1"), uuid_of("HDMI-A-1")]);
    assert_eq!(plan.open.len(), 1);
    assert_eq!((plan.open[0].0, plan.open[0].1.id), (uuid_of("DP-1"), 9));
}
