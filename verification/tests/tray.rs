use ghost_shell::dbus_menu::{
    item_type_from_property, non_empty, MenuId, MenuItem, MenuItemProperties, MenuItemType, MenuLayout,
};
use ghost_shell::tray::{
    convert_icon_pixmaps, first_item, IconPixmap, ItemProperties, RegistrationError, StatusNotifierId, StatusNotifierItem, ToolTip,
};
use ghost_shell::tray_state::{StatusNotifierEvent, StatusNotifierState, StatusNotifierStateUpdate};
use ghost_shell::watcher::{registration_target, HostAction, RegisterError, TrayHost, Watcher, WatcherEvent};

#[test]
fn parses_registered_item_with_default_path() {
    let id = StatusNotifierId::from_registered_item("org.example.Item").expect("valid status notifier item");

    assert_eq!(id.service(), "org.example.Item");
    assert_eq!(id.object_path(), "/StatusNotifierItem",);
}

#[test]
fn parses_registered_item_with_explicit_path() {
    let id = StatusNotifierId::from_registered_item(":1.42/org/example/StatusNotifierItem")
        .expect("valid status notifier item");

    assert_eq!(id.service(), ":1.42");
    assert_eq!(id.object_path(), "/org/example/StatusNotifierItem",);
}

#[test]
fn registration_without_service_is_refused() {
    assert_eq!(StatusNotifierId::from_registration("").err(), Some(RegistrationError::MissingServiceName));
    assert_eq!(
        StatusNotifierId::from_registration("/org/example/Item").err(),
        Some(RegistrationError::MissingServiceName)
    );
    let id = StatusNotifierId::from_registration("a/b/c").unwrap();
    assert_eq!(id.service(), "a");
    assert_eq!(id.object_path(), "/b/c");
}

#[test]
fn identifier_text_parses_back() {
    for text in ["org.example.Item", ":1.42/org/example/StatusNotifierItem", "x/"] {
        let id = StatusNotifierId::from_registration(text).unwrap();
        let again = StatusNotifierId::from_registration(&id.to_text()).unwrap();
        assert_eq!(again, id);
    }
    let id = StatusNotifierId::from_registration("org.example.Item").unwrap();
    assert_eq!(id.to_text(), "org.example.Item/StatusNotifierItem");
}

fn item(registration: &str, title: &str) -> StatusNotifierItem {
    let mut item = StatusNotifierItem::empty(StatusNotifierId::from_registration(registration).unwrap());
    item.title = Some(title.to_string());
    item
}

#[test]
fn tray_state_ignores_unknown_items() {
    let mut state = StatusNotifierState::new();
    let a = item(":1.5", "first");
    assert_eq!(
        state.apply(StatusNotifierStateUpdate::Updated(a.clone())),
        None
    );
    assert_eq!(
        state.apply(StatusNotifierStateUpdate::Registered(a.clone())),
        Some(StatusNotifierEvent::Registered(a.clone()))
    );
    let a2 = item(":1.5", "second");
    assert_eq!(
        state.apply(StatusNotifierStateUpdate::Updated(a2.clone())),
        Some(StatusNotifierEvent::Updated(a2.clone()))
    );
    assert_eq!(state.items().len(), 1);
    assert_eq!(state.item(&a.id).unwrap().title.as_deref(), Some("second"));
    assert_eq!(
        state.apply(StatusNotifierStateUpdate::Unregistered(a.id.clone())),
        Some(StatusNotifierEvent::Unregistered(a.id.clone()))
    );
    assert!(state.item(&a.id).is_none());
    assert_eq!(state.apply(StatusNotifierStateUpdate::Unregistered(a.id.clone())), None);
}

#[test]
fn recorded_events_keep_one_item_per_identifier() {
    let mut state = StatusNotifierState::new();
    let a = item(":1.5", "first");
    let b = item(":1.6", "other");
    state.record(&StatusNotifierEvent::Registered(a.clone()));
    state.record(&StatusNotifierEvent::Registered(b.clone()));
    state.record(&StatusNotifierEvent::Updated(item(":1.5", "again")));
    assert_eq!(state.items().len(), 2);
    assert_eq!(state.item(&a.id).unwrap().title.as_deref(), Some("again"));
    state.record(&StatusNotifierEvent::Unregistered(b.id.clone()));
    assert!(state.item(&b.id).is_none());
    assert_eq!(state.items().len(), 1);
}

#[test]
fn pixmaps_keep_their_order_and_data() {
    let pixmaps = convert_icon_pixmaps(vec![(1, 2, vec![1, 2, 3]), (16, 16, vec![9])]);
    assert_eq!(
        pixmaps,
        vec![
            IconPixmap { width: 1, height: 2, argb: vec![1, 2, 3] },
            IconPixmap { width: 16, height: 16, argb: vec![9] },
        ]
    );
}

#[test]
fn watcher_reports_only_changes() {
    let mut watcher = Watcher::new();
    assert!(watcher.apply(&WatcherEvent::Registered(":1.5/item".into())));
    assert!(!watcher.apply(&WatcherEvent::Registered(":1.5/item".into())));
    assert!(watcher.contains(":1.5/item"));
    assert!(!watcher.contains(":1.5"));
    assert!(watcher.apply(&WatcherEvent::Unregistered(":1.5/item".into())));
    assert!(!watcher.apply(&WatcherEvent::Unregistered(":1.5/item".into())));
    assert!(!watcher.contains(":1.5/item"));
}

#[test]
fn watcher_lists_sorted_items_and_drops_a_service() {
    let mut watcher = Watcher::new();
    for item in ["b.app/StatusNotifierItem", ":1.7/x", "a.app/StatusNotifierItem", "a.app/other"] {
        assert!(watcher.insert(&item.to_string()));
    }
    assert_eq!(
        watcher.registered_items(),
        vec![":1.7/x", "a.app/StatusNotifierItem", "a.app/other", "b.app/StatusNotifierItem"]
    );
    let mut removed = watcher.remove_items_for_service("a.app");
    removed.sort();
    assert_eq!(removed, vec!["a.app/StatusNotifierItem", "a.app/other"]);
    assert_eq!(watcher.registered_items(), vec![":1.7/x", "b.app/StatusNotifierItem"]);
    assert!(watcher.remove_items_for_service("a").is_empty());
}

#[test]
fn registration_targets() {
    assert_eq!(registration_target("", None), Err(RegisterError::MissingServiceOrPath));
    assert_eq!(registration_target("/item", None), Err(RegisterError::MissingSender));
    assert_eq!(
        registration_target("/item", Some(":1.9".into())),
        Ok((":1.9".to_string(), "/item".to_string()))
    );
    assert_eq!(
        registration_target("org.app", Some(":1.9".into())),
        Ok(("org.app".to_string(), "/StatusNotifierItem".to_string()))
    );
}

#[test]
fn tray_host_follows_items() {
    let mut host = TrayHost::new();
    assert!(matches!(host.on_registered("/bad", false), HostAction::Ignore));
    match host.on_registered(":1.5/item", false) {
        HostAction::Watch(id) => assert_eq!(id.service(), ":1.5"),
        other => panic!("unexpected {other:?}"),
    }
    assert!(matches!(host.on_registered(":1.5/item", true), HostAction::Ignore));
    assert!(matches!(host.on_registered(":1.5/item", false), HostAction::Watch(_)));
    assert_eq!(host.watched().len(), 1);
    host.on_registered(":1.6", false);
    let removed = host.on_owner_lost(":1.5");
    assert_eq!(removed.len(), 1);
    assert_eq!(removed[0].object_path(), "/item");
    assert!(matches!(host.on_unregistered(":1.6"), Ok(HostAction::Remove(_))));
    assert!(matches!(host.on_unregistered(":1.6"), Ok(HostAction::Ignore)));
    assert_eq!(host.on_unregistered("").err(), Some(RegistrationError::MissingServiceName));
    assert!(host.watched().is_empty());
}

#[test]
fn menu_item_types_and_ids() {
    assert_eq!(item_type_from_property(None), MenuItemType::Standard);
    assert_eq!(item_type_from_property(Some("standard".into())), MenuItemType::Standard);
    assert_eq!(item_type_from_property(Some("separator".into())), MenuItemType::Separator);
    assert_eq!(item_type_from_property(Some("other".into())), MenuItemType::Other("other".into()));
    assert_eq!(non_empty(Some(String::new())), None);
    assert_eq!(non_empty(Some("x".into())), Some("x".to_string()));
    let id = MenuId::new(":1.5".into(), "/MenuBar".into());
    assert_eq!(id.service(), ":1.5");
    assert_eq!(id.object_path(), "/MenuBar");
    assert_eq!(id.to_text(), ":1.5/MenuBar");
}

fn no_menu_properties() -> MenuItemProperties {
    MenuItemProperties {
        item_type: None,
        label: None,
        enabled: None,
        visible: None,
        icon_name: None,
        icon_data: None,
        shortcut: None,
        toggle_type: None,
        toggle_state: None,
        children_display: None,
    }
}

#[test]
fn menu_item_properties_take_their_defaults() {
    let item = MenuItem::from_properties(3, no_menu_properties(), Vec::new());
    assert_eq!(item.id, 3);
    assert_eq!(item.item_type, MenuItemType::Standard);
    assert_eq!(item.label, "");
    assert!(item.enabled && item.visible);
    assert_eq!(item.icon_name, None);
    assert!(item.icon_data.is_empty() && item.shortcut.is_empty());
    assert_eq!(item.toggle_state, -1);
    assert_eq!(item.children_display, None);

    let child = MenuItem::from_properties(4, no_menu_properties(), Vec::new());
    let mut properties = no_menu_properties();
    properties.item_type = Some("separator".into());
    properties.label = Some("Quit".into());
    properties.enabled = Some(false);
    properties.icon_name = Some(String::new());
    properties.toggle_type = Some("checkmark".into());
    properties.toggle_state = Some(1);
    properties.children_display = Some("submenu".into());
    let item = MenuItem::from_properties(5, properties, vec![child]);
    assert_eq!(item.item_type, MenuItemType::Separator);
    assert_eq!(item.label, "Quit");
    assert!(!item.enabled && item.visible);
    assert_eq!(item.icon_name, None);
    assert_eq!(item.toggle_type.as_deref(), Some("checkmark"));
    assert_eq!(item.toggle_state, 1);
    assert_eq!(item.children_display.as_deref(), Some("submenu"));
    assert_eq!(item.children.len(), 1);
    assert_eq!(item.children[0].id, 4);
}

#[test]
fn item_properties_fill_the_item() {
    let id = StatusNotifierId::from_registered_item("org.example.Item").unwrap();
    let item = StatusNotifierItem::from_properties(
        id.clone(),
        ItemProperties {
            category: Some("ApplicationStatus".into()),
            identifier: Some("example".into()),
            title: None,
            status: Some("Active".into()),
            window_id: Some(7),
            icon_name: Some("example-icon".into()),
            icon_pixmaps: Some(vec![(1, 1, vec![255, 0, 0, 0])]),
            overlay_icon_name: None,
            overlay_icon_pixmaps: None,
            attention_icon_name: None,
            attention_icon_pixmaps: None,
            attention_movie_name: None,
            tool_tip: Some(("tip-icon".into(), Vec::new(), "Title".into(), "Text".into())),
            item_is_menu: Some(true),
            menu: Some("/MenuBar".into()),
            icon_theme_path: None,
        },
    );
    assert_eq!(item.id, id);
    assert_eq!(item.category.as_deref(), Some("ApplicationStatus"));
    assert_eq!(item.window_id, Some(7));
    assert_eq!(item.icon_pixmaps, vec![IconPixmap { width: 1, height: 1, argb: vec![255, 0, 0, 0] }]);
    assert!(item.overlay_icon_pixmaps.is_empty());
    assert_eq!(
        item.tool_tip,
        Some(ToolTip {
            icon_name: "tip-icon".into(),
            icon_pixmaps: Vec::new(),
            title: "Title".into(),
            description: "Text".into(),
        })
    );
    assert_eq!(item.menu.as_deref(), Some("/MenuBar"));
}

#[test]
fn layout_items_are_the_visible_top_level_entries() {
    let shown = MenuItem::from_properties(1, no_menu_properties(), Vec::new());
    let mut hidden_properties = no_menu_properties();
    hidden_properties.visible = Some(false);
    let hidden = MenuItem::from_properties(2, hidden_properties, Vec::new());
    let last = MenuItem::from_properties(3, no_menu_properties(), Vec::new());
    let root = MenuItem::from_properties(0, no_menu_properties(), vec![shown, hidden, last]);
    let layout = MenuLayout { id: MenuId::new(":1.5".into(), "/MenuBar".into()), revision: 1, root };
    let ids: Vec<i32> = layout.items().iter().map(|item| item.id).collect();
    assert_eq!(ids, vec![1, 3]);
}

#[test]
fn first_event_is_the_fetched_item_or_an_empty_one() {
    let id = StatusNotifierId::from_registered_item(":1.9/item").unwrap();
    let empty = first_item(id.clone(), None);
    assert_eq!(empty, StatusNotifierItem::empty(id.clone()));
    let mut fetched = StatusNotifierItem::empty(id.clone());
    fetched.title = Some("Title".into());
    assert_eq!(first_item(id, Some(fetched.clone())), fetched);
}
