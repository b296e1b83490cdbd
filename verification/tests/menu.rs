use ghost_shell::menu::{submenu_key, ConfirmOutcome, PopupMenu, PopupMenuItem, Side, SubmenuKey};

#[test]
fn navigation_skips_disabled_items_and_separators() {
    let mut menu = PopupMenu::new()
        .item(PopupMenuItem::separator())
        .item(PopupMenuItem::new("Disabled".into()).disabled(true))
        .item(PopupMenuItem::new("First".into()))
        .separator()
        .item(PopupMenuItem::new("Last".into()));
    for (backwards, expected) in [(false, 2), (false, 4), (false, 2), (true, 4)] {
        menu.select_next(backwards);
        assert_eq!(menu.selected_index, Some(expected));
    }
}

#[test]
fn disabled_selection_cannot_be_confirmed() {
    let mut menu = PopupMenu::new().item(PopupMenuItem::new("Disabled".into()).disabled(true).on_click());
    assert_eq!(menu.next_clickable(false), None);
    assert_eq!(menu.next_clickable(true), None);
    menu.selected_index = Some(0);
    assert_eq!(menu.confirm(), ConfirmOutcome::Nothing);
    assert_eq!(menu.selected_index, Some(0));
}

#[test]
fn submenu_keyboard_focus_and_dismissal_reach_parent() {
    let mut menu = PopupMenu::new().item(PopupMenuItem::submenu("More".into()));
    let mut submenu = PopupMenu::new()
        .item(PopupMenuItem::new("Disabled".into()).disabled(true))
        .item(PopupMenuItem::new("Open".into()).on_click());
    menu.select_next(false);
    assert_eq!(menu.active_submenu(), Some(0));
    assert_eq!(submenu_key(false, true), SubmenuKey::Select);
    submenu.select_next(false);
    assert_eq!(submenu.selected_index, Some(1));
    assert_eq!(submenu_key(true, true), SubmenuKey::Unselect);
    assert_eq!(submenu.confirm(), ConfirmOutcome::RunHandler(1));
    assert_eq!(submenu.selected_index, None);
    assert_eq!(menu.confirm(), ConfirmOutcome::OpenSubmenu(0));
    menu.dismiss();
    assert_eq!(menu.active_submenu(), None);
}

#[test]
fn popup_menu_item_a11y_label_uses_visible_label() {
    assert_eq!(PopupMenuItem::new("Open".into()).a11y_label(), Some("Open".into()));
    assert_eq!(PopupMenuItem::link("Docs".into()).a11y_label(), Some("Docs".into()));
    assert_eq!(PopupMenuItem::label("Recent files".into()).a11y_label(), Some("Recent files".into()));
    assert_eq!(PopupMenuItem::submenu("More".into()).a11y_label(), Some("More".into()));
    assert_eq!(PopupMenuItem::separator().a11y_label(), None);
    assert_eq!(PopupMenuItem::element().a11y_label(), None);
}

#[test]
fn separators_never_lead_or_repeat() {
    let menu = PopupMenu::new().separator().item(PopupMenuItem::new("A".into())).separator().separator();
    assert_eq!(menu.menu_items.len(), 2);
    assert!(menu.is_drawn(0));
    assert!(!menu.is_drawn(1));
}

#[test]
fn confirm_prefers_handler_then_action() {
    let mut menu = PopupMenu::new()
        .item(PopupMenuItem::new("Act".into()).action())
        .item(PopupMenuItem::new("Both".into()).action().on_click())
        .item(PopupMenuItem::new("Plain".into()));
    menu.selected_index = Some(0);
    assert_eq!(menu.confirm(), ConfirmOutcome::DispatchAction(0));
    menu.selected_index = Some(1);
    assert_eq!(menu.confirm(), ConfirmOutcome::RunHandler(1));
    menu.selected_index = Some(2);
    assert_eq!(menu.confirm(), ConfirmOutcome::Dismiss(2));
    assert_eq!(menu.confirm(), ConfirmOutcome::Nothing);
}

#[test]
fn hover_and_presentation() {
    let mut menu = PopupMenu::new()
        .check_side(Side::Right)
        .item(PopupMenuItem::new("Checked".into()).checked(true))
        .item(PopupMenuItem::link("Docs".into()))
        .item(PopupMenuItem::submenu("More".into()).icon());
    menu.on_hover(1, true);
    assert_eq!(menu.selected_index, Some(1));
    menu.on_hover(1, false);
    assert_eq!(menu.selected_index, None);
    menu.on_hover(2, true);
    menu.on_hover(2, false);
    assert_eq!(menu.selected_index, Some(2));
    assert!(menu.has_left_icon());
    let checked = menu.presentation(0);
    assert!(checked.right_check && !checked.left_check);
    let link = menu.presentation(1);
    assert!(link.link_icon);
    let more = menu.presentation(2);
    assert!(more.chevron && more.submenu_open && more.selected);
    assert!(!menu.dismisses_on_click_outside(false));
}
