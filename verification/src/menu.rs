//! Popup menu model: item kinds, keyboard navigation and confirmation.
use vstd::prelude::*;

verus! {

/// The side on which a menu shows its check mark.
#[derive(Clone, Copy, Debug, PartialEq, Eq, Structural)]
pub enum Side {
    Left,
    Right,
}

impl Side {
    pub fn is_left(self) -> (r: bool)
        ensures
            r == (self == Side::Left),
    {
        matches!(self, Side::Left)
    }

    pub fn is_right(self) -> (r: bool)
        ensures
            r == (self == Side::Right),
    {
        matches!(self, Side::Right)
    }
}

/// An item of a popup menu, as far as navigation and confirmation see it.
#[derive(Clone, Debug, PartialEq, Eq)]
pub enum PopupMenuItem {
    /// A menu separator item.
    Separator,
    /// A non-interactive label item.
    Label(String),
    /// A standard menu item.
    Item {
        label: String,
        has_icon: bool,
        disabled: bool,
        checked: bool,
        is_link: bool,
        has_action: bool,
        has_handler: bool,
    },
    /// A menu item with custom element render.
    ElementItem { has_icon: bool, disabled: bool, checked: bool, has_action: bool, has_handler: bool },
    /// A submenu item that opens another popup menu.
    Submenu { label: String, has_icon: bool, disabled: bool },
}

/// What confirming the selected item does.
#[derive(Clone, Copy, Debug, PartialEq, Eq, Structural)]
pub enum ConfirmOutcome {
    /// Nothing: no item is selected, or it cannot be confirmed.
    Nothing,
    /// Run the click handler of the item, then dismiss the menu.
    RunHandler(usize),
    /// Dispatch the action of the item, then dismiss the menu.
    DispatchAction(usize),
    /// Dismiss the menu: the item has neither handler nor action.
    Dismiss(usize),
    /// Open the submenu of the item and select its first item.
    OpenSubmenu(usize),
}

/// What a horizontal arrow key does to the active submenu.
#[derive(Clone, Copy, Debug, PartialEq, Eq, Structural)]
pub enum SubmenuKey {
    /// Focus the submenu and select its first item.
    Select,
    /// Clear the submenu's selection.
    Unselect,
}

/// How an item is drawn.
#[derive(Clone, Copy, Debug, PartialEq, Eq, Structural)]
pub struct ItemPresentation {
    /// The item is the selected one.
    pub selected: bool,
    /// A click on the item confirms it.
    pub clickable: bool,
    /// The item is drawn disabled.
    pub disabled: bool,
    /// A check mark is drawn on the left.
    pub left_check: bool,
    /// A check mark is drawn on the right.
    pub right_check: bool,
    /// An external-link icon follows the label.
    pub link_icon: bool,
    /// A chevron marks a submenu.
    pub chevron: bool,
    /// The submenu is open.
    pub submenu_open: bool,
}

/// A popup menu: its items, the selected one, and where check marks go.
pub struct PopupMenu {
    pub menu_items: Vec<PopupMenuItem>,
    pub selected_index: Option<usize>,
    pub check_side: Side,
    pub external_link_icon: bool,
}

/// The item can be clicked, selected by the keyboard and confirmed.
pub open spec fn is_clickable(item: PopupMenuItem) -> bool {
    match item {
        PopupMenuItem::Item { disabled, .. } => !disabled,
        PopupMenuItem::ElementItem { disabled, .. } => !disabled,
        PopupMenuItem::Submenu { disabled, .. } => !disabled,
        _ => false,
    }
}

pub open spec fn is_checked(item: PopupMenuItem) -> bool {
    match item {
        PopupMenuItem::Item { checked, .. } => checked,
        PopupMenuItem::ElementItem { checked, .. } => checked,
        _ => false,
    }
}

pub open spec fn has_left_icon(item: PopupMenuItem, check_side: Side) -> bool {
    match item {
        PopupMenuItem::Item { has_icon, checked, .. } => has_icon || (check_side == Side::Left && checked),
        PopupMenuItem::ElementItem { has_icon, checked, .. } => has_icon || (check_side == Side::Left && checked),
        PopupMenuItem::Submenu { has_icon, .. } => has_icon,
        _ => false,
    }
}

/// The first clickable index at or after `lo`.
pub open spec fn first_clickable_from(items: Seq<PopupMenuItem>, lo: int) -> Option<int>
    decreases items.len() - lo,
{
    if lo < 0 || lo >= items.len() {
        None
    } else if is_clickable(items[lo]) {
        Some(lo)
    } else {
        first_clickable_from(items, lo + 1)
    }
}

/// The last clickable index before `hi`.
pub open spec fn last_clickable_before(items: Seq<PopupMenuItem>, hi: int) -> Option<int>
    decreases hi,
{
    if hi <= 0 || hi > items.len() {
        None
    } else if is_clickable(items[hi - 1]) {
        Some(hi - 1)
    } else {
        last_clickable_before(items, hi - 1)
    }
}

pub open spec fn or_else(a: Option<int>, b: Option<int>) -> Option<int> {
    match a {
        Some(x) => Some(x),
        None => b,
    }
}

/// The clickable item that the up (`backwards`) or down arrow selects: the
/// nearest one past the selection, wrapping around.
pub open spec fn next_clickable_spec(items: Seq<PopupMenuItem>, selected: Option<usize>, backwards: bool) -> Option<int> {
    if backwards {
        let hi = match selected {
            Some(s) => if s < items.len() {
                s as int
            } else {
                items.len() as int
            },
            None => 0,
        };
        or_else(last_clickable_before(items, hi), last_clickable_before(items, items.len() as int))
    } else {
        let lo = match selected {
            Some(s) => s + 1,
            None => 0,
        };
        or_else(first_clickable_from(items, lo), first_clickable_from(items, 0))
    }
}

/// The outcome of confirming the selected item.
pub open spec fn confirm_spec(items: Seq<PopupMenuItem>, selected: Option<usize>) -> ConfirmOutcome {
    match selected {
        None => ConfirmOutcome::Nothing,
        Some(i) => if i >= items.len() {
            ConfirmOutcome::Nothing
        } else {
            match items[i as int] {
                PopupMenuItem::Item { disabled, has_handler, has_action, .. } => if disabled {
                    ConfirmOutcome::Nothing
                } else if has_handler {
                    ConfirmOutcome::RunHandler(i)
                } else if has_action {
                    ConfirmOutcome::DispatchAction(i)
                } else {
                    ConfirmOutcome::Dismiss(i)
                },
                PopupMenuItem::ElementItem { disabled, has_handler, has_action, .. } => if disabled {
                    ConfirmOutcome::Nothing
                } else if has_handler {
                    ConfirmOutcome::RunHandler(i)
                } else if has_action {
                    ConfirmOutcome::DispatchAction(i)
                } else {
                    ConfirmOutcome::Dismiss(i)
                },
                PopupMenuItem::Submenu { disabled, .. } => if disabled {
                    ConfirmOutcome::Nothing
                } else {
                    ConfirmOutcome::OpenSubmenu(i)
                },
                _ => ConfirmOutcome::Nothing,
            }
        },
    }
}

/// The selected item is an enabled submenu.
pub open spec fn active_submenu_spec(items: Seq<PopupMenuItem>, selected: Option<usize>) -> Option<usize> {
    match selected {
        Some(i) => if i < items.len() && items[i as int] is Submenu && !items[i as int]->Submenu_disabled {
            Some(i)
        } else {
            None
        },
        None => None,
    }
}

impl PopupMenuItem {
    /// A standard item with the given label.
    pub fn new(label: String) -> (r: PopupMenuItem)
        ensures
            r matches PopupMenuItem::Item { label: l, has_icon, disabled, checked, is_link, has_action, has_handler }
                && l == label && !has_icon && !disabled && !checked && !is_link && !has_action && !has_handler,
    {
        PopupMenuItem::Item {
            label,
            has_icon: false,
            disabled: false,
            checked: false,
            is_link: false,
            has_action: false,
            has_handler: false,
        }
    }

    /// An item drawn by its own element.
    pub fn element() -> (r: PopupMenuItem)
        ensures
            r == (PopupMenuItem::ElementItem {
                has_icon: false,
                disabled: false,
                checked: false,
                has_action: false,
                has_handler: false,
            }),
    {
        PopupMenuItem::ElementItem { has_icon: false, disabled: false, checked: false, has_action: false, has_handler: false }
    }

    /// An item that opens a submenu.
    pub fn submenu(label: String) -> (r: PopupMenuItem)
        ensures
            r matches PopupMenuItem::Submenu { label: l, has_icon, disabled } && l == label && !has_icon && !disabled,
    {
        PopupMenuItem::Submenu { label, has_icon: false, disabled: false }
    }

    /// A separator.
    pub fn separator() -> (r: PopupMenuItem)
        ensures
            r == PopupMenuItem::Separator,
    {
        PopupMenuItem::Separator
    }

    /// A label that cannot be clicked.
    pub fn label(label: String) -> (r: PopupMenuItem)
        ensures
            r matches PopupMenuItem::Label(l) && l == label,
    {
        PopupMenuItem::Label(label)
    }

    /// An item that opens a link when clicked.
    pub fn link(label: String) -> (r: PopupMenuItem)
        ensures
            r matches PopupMenuItem::Item { label: l, has_icon, disabled, checked, is_link, has_action, has_handler }
                && l == label && !has_icon && !disabled && !checked && is_link && !has_action && has_handler,
    {
        PopupMenuItem::Item {
            label,
            has_icon: false,
            disabled: false,
            checked: false,
            is_link: true,
            has_action: false,
            has_handler: true,
        }
    }

    /// Gives the item an icon (a separator or a label has none).
    pub fn icon(self) -> (r: PopupMenuItem)
        ensures
            match self {
                PopupMenuItem::Item { label, disabled, checked, is_link, has_action, has_handler, .. } => r
                    == (PopupMenuItem::Item { label, has_icon: true, disabled, checked, is_link, has_action, has_handler }),
                PopupMenuItem::ElementItem { disabled, checked, has_action, has_handler, .. } => r
                    == (PopupMenuItem::ElementItem { has_icon: true, disabled, checked, has_action, has_handler }),
                PopupMenuItem::Submenu { label, disabled, .. } => r == (PopupMenuItem::Submenu {
                    label,
                    has_icon: true,
                    disabled,
                }),
                _ => r == self,
            },
    {
        match self {
            PopupMenuItem::Item { label, disabled, checked, is_link, has_action, has_handler, .. } => PopupMenuItem::Item {
                label,
                has_icon: true,
                disabled,
                checked,
                is_link,
                has_action,
                has_handler,
            },
            PopupMenuItem::ElementItem { disabled, checked, has_action, has_handler, .. } => PopupMenuItem::ElementItem {
                has_icon: true,
                disabled,
                checked,
                has_action,
                has_handler,
            },
            PopupMenuItem::Submenu { label, disabled, .. } => PopupMenuItem::Submenu { label, has_icon: true, disabled },
            other => other,
        }
    }

    /// Sets whether the item is disabled (a separator or a label is unchanged).
    pub fn disabled(self, disabled: bool) -> (r: PopupMenuItem)
        ensures
            match self {
                PopupMenuItem::Item { label, has_icon, checked, is_link, has_action, has_handler, .. } => r
                    == (PopupMenuItem::Item { label, has_icon, disabled, checked, is_link, has_action, has_handler }),
                PopupMenuItem::ElementItem { has_icon, checked, has_action, has_handler, .. } => r
                    == (PopupMenuItem::ElementItem { has_icon, disabled, checked, has_action, has_handler }),
                PopupMenuItem::Submenu { label, has_icon, .. } => r == (PopupMenuItem::Submenu {
                    label,
                    has_icon,
                    disabled,
                }),
                _ => r == self,
            },
    {
        match self {
            PopupMenuItem::Item { label, has_icon, checked, is_link, has_action, has_handler, .. } => PopupMenuItem::Item {
                label,
                has_icon,
                disabled,
                checked,
                is_link,
                has_action,
                has_handler,
            },
            PopupMenuItem::ElementItem { has_icon, checked, has_action, has_handler, .. } => PopupMenuItem::ElementItem {
                has_icon,
                disabled,
                checked,
                has_action,
                has_handler,
            },
            PopupMenuItem::Submenu { label, has_icon, .. } => PopupMenuItem::Submenu { label, has_icon, disabled },
            other => other,
        }
    }

    /// Sets whether the item is checked (only standard and element items are).
    pub fn checked(self, checked: bool) -> (r: PopupMenuItem)
        ensures
            match self {
                PopupMenuItem::Item { label, has_icon, disabled, is_link, has_action, has_handler, .. } => r
                    == (PopupMenuItem::Item { label, has_icon, disabled, checked, is_link, has_action, has_handler }),
                PopupMenuItem::ElementItem { has_icon, disabled, has_action, has_handler, .. } => r
                    == (PopupMenuItem::ElementItem { has_icon, disabled, checked, has_action, has_handler }),
                _ => r == self,
            },
    {
        match self {
            PopupMenuItem::Item { label, has_icon, disabled, is_link, has_action, has_handler, .. } => PopupMenuItem::Item {
                label,
                has_icon,
                disabled,
                checked,
                is_link,
                has_action,
                has_handler,
            },
            PopupMenuItem::ElementItem { has_icon, disabled, has_action, has_handler, .. } => PopupMenuItem::ElementItem {
                has_icon,
                disabled,
                checked,
                has_action,
                has_handler,
            },
            other => other,
        }
    }

    /// Gives the item an action to dispatch when confirmed.
    pub fn action(self) -> (r: PopupMenuItem)
        ensures
            match self {
                PopupMenuItem::Item { label, has_icon, disabled, checked, is_link, has_handler, .. } => r
                    == (PopupMenuItem::Item { label, has_icon, disabled, checked, is_link, has_action: true, has_handler }),
                PopupMenuItem::ElementItem { has_icon, disabled, checked, has_handler, .. } => r
                    == (PopupMenuItem::ElementItem { has_icon, disabled, checked, has_action: true, has_handler }),
                _ => r == self,
            },
    {
        match self {
            PopupMenuItem::Item { label, has_icon, disabled, checked, is_link, has_handler, .. } => PopupMenuItem::Item {
                label,
                has_icon,
                disabled,
                checked,
                is_link,
                has_action: true,
                has_handler,
            },
            PopupMenuItem::ElementItem { has_icon, disabled, checked, has_handler, .. } => PopupMenuItem::ElementItem {
                has_icon,
                disabled,
                checked,
                has_action: true,
                has_handler,
            },
            other => other,
        }
    }

    /// Gives the item a click handler.
    pub fn on_click(self) -> (r: PopupMenuItem)
        ensures
            match self {
                PopupMenuItem::Item { label, has_icon, disabled, checked, is_link, has_action, .. } => r
                    == (PopupMenuItem::Item { label, has_icon, disabled, checked, is_link, has_action, has_handler: true }),
                PopupMenuItem::ElementItem { has_icon, disabled, checked, has_action, .. } => r
                    == (PopupMenuItem::ElementItem { has_icon, disabled, checked, has_action, has_handler: true }),
                _ => r == self,
            },
    {
        match self {
            PopupMenuItem::Item { label, has_icon, disabled, checked, is_link, has_action, .. } => PopupMenuItem::Item {
                label,
                has_icon,
                disabled,
                checked,
                is_link,
                has_action,
                has_handler: true,
            },
            PopupMenuItem::ElementItem { has_icon, disabled, checked, has_action, .. } => PopupMenuItem::ElementItem {
                has_icon,
                disabled,
                checked,
                has_action,
                has_handler: true,
            },
            other => other,
        }
    }

    pub fn is_clickable(&self) -> (r: bool)
        ensures
            r == is_clickable(*self),
    {
        match self {
            PopupMenuItem::Item { disabled, .. } => !*disabled,
            PopupMenuItem::ElementItem { disabled, .. } => !*disabled,
            PopupMenuItem::Submenu { disabled, .. } => !*disabled,
            _ => false,
        }
    }

    pub fn is_separator(&self) -> (r: bool)
        ensures
            r == (*self is Separator),
    {
        matches!(self, PopupMenuItem::Separator)
    }

    pub fn is_checked(&self) -> (r: bool)
        ensures
            r == is_checked(*self),
    {
        match self {
            PopupMenuItem::Item { checked, .. } => *checked,
            PopupMenuItem::ElementItem { checked, .. } => *checked,
            _ => false,
        }
    }

    /// Whether the item takes room on the left for an icon or a check mark.
    pub fn has_left_icon(&self, check_side: Side) -> (r: bool)
        ensures
            r == has_left_icon(*self, check_side),
    {
        match self {
            PopupMenuItem::Item { has_icon, checked, .. } => *has_icon || (check_side.is_left() && *checked),
            PopupMenuItem::ElementItem { has_icon, checked, .. } => *has_icon || (check_side.is_left() && *checked),
            PopupMenuItem::Submenu { has_icon, .. } => *has_icon,
            _ => false,
        }
    }

    /// The label that assistive technologies announce: the visible label of a
    /// standard item, a label or a submenu.
    pub fn a11y_label(&self) -> (r: Option<String>)
        ensures
            match *self {
                PopupMenuItem::Item { label, .. } => r matches Some(l) && l@ == label@,
                PopupMenuItem::Label(label) => r matches Some(l) && l@ == label@,
                PopupMenuItem::Submenu { label, .. } => r matches Some(l) && l@ == label@,
                _ => r is None,
            },
    {
        match self {
            PopupMenuItem::Item { label, .. } => Some(label.clone()),
            PopupMenuItem::Label(label) => Some(label.clone()),
            PopupMenuItem::Submenu { label, .. } => Some(label.clone()),
            _ => None,
        }
    }
}

/// Which arrow key acts on the active submenu: the one that points to where the
/// submenu opens selects it, the other unselects it.
pub fn submenu_key(left_key: bool, anchored_left: bool) -> (r: SubmenuKey)
    ensures
        r == if left_key == anchored_left {
            SubmenuKey::Unselect
        } else {
            SubmenuKey::Select
        },
{
    if left_key == anchored_left {
        SubmenuKey::Unselect
    } else {
        SubmenuKey::Select
    }
}

impl PopupMenu {
    /// An empty menu with no selection, checks on the left and link icons shown.
    pub fn new() -> (r: PopupMenu)
        ensures
            r.menu_items@.len() == 0,
            r.selected_index is None,
            r.check_side == Side::Left,
            r.external_link_icon,
    {
        PopupMenu { menu_items: Vec::new(), selected_index: None, check_side: Side::Left, external_link_icon: true }
    }

    /// Adds an item.
    pub fn item(self, item: PopupMenuItem) -> (r: PopupMenu)
        ensures
            r.menu_items@ == self.menu_items@.push(item),
            r.selected_index == self.selected_index,
            r.check_side == self.check_side,
            r.external_link_icon == self.external_link_icon,
    {
        let mut menu = self;
        menu.menu_items.push(item);
        menu
    }

    /// Adds a separator, unless the menu is empty or already ends with one.
    pub fn separator(self) -> (r: PopupMenu)
        ensures
            r.menu_items@ == if self.menu_items@.len() == 0 || self.menu_items@.last() is Separator {
                self.menu_items@
            } else {
                self.menu_items@.push(PopupMenuItem::Separator)
            },
            r.selected_index == self.selected_index,
            r.check_side == self.check_side,
            r.external_link_icon == self.external_link_icon,
    {
        let mut menu = self;
        let n = menu.menu_items.len();
        if n == 0 {
            return menu;
        }
        if menu.menu_items[n - 1].is_separator() {
            return menu;
        }
        menu.menu_items.push(PopupMenuItem::Separator);
        menu
    }

    /// Sets the side of check marks.
    pub fn check_side(self, side: Side) -> (r: PopupMenu)
        ensures
            r.menu_items@ == self.menu_items@,
            r.selected_index == self.selected_index,
            r.check_side == side,
            r.external_link_icon == self.external_link_icon,
    {
        let mut menu = self;
        menu.check_side = side;
        menu
    }

    /// Sets whether link items show an external-link icon.
    pub fn external_link_icon(self, visible: bool) -> (r: PopupMenu)
        ensures
            r.menu_items@ == self.menu_items@,
            r.selected_index == self.selected_index,
            r.check_side == self.check_side,
            r.external_link_icon == visible,
    {
        let mut menu = self;
        menu.external_link_icon = visible;
        menu
    }

    pub fn is_empty(&self) -> (r: bool)
        ensures
            r == (self.menu_items@.len() == 0),
    {
        self.menu_items.len() == 0
    }

    /// Removes every item and the selection, before the items are built again.
    pub fn clear(&mut self)
        ensures
            final(self).menu_items@.len() == 0,
            final(self).selected_index is None,
            final(self).check_side == old(self).check_side,
            final(self).external_link_icon == old(self).external_link_icon,
    {
        self.menu_items = Vec::new();
        self.selected_index = None;
    }

    fn first_clickable_from(&self, lo: usize) -> (r: Option<usize>)
        ensures
            r matches Some(i) ==> first_clickable_from(self.menu_items@, lo as int) == Some(i as int),
            r is None ==> first_clickable_from(self.menu_items@, lo as int) is None,
    {
        let mut i = lo;
        while i < self.menu_items.len()
            invariant
                lo <= i,
                first_clickable_from(self.menu_items@, lo as int) == first_clickable_from(self.menu_items@, i as int),
            decreases self.menu_items@.len() - i,
        {
            if self.menu_items[i].is_clickable() {
                return Some(i);
            }
            i = i + 1;
        }
        None
    }

    fn last_clickable_before(&self, hi: usize) -> (r: Option<usize>)
        requires
            hi <= self.menu_items@.len(),
        ensures
            r matches Some(i) ==> last_clickable_before(self.menu_items@, hi as int) == Some(i as int),
            r is None ==> last_clickable_before(self.menu_items@, hi as int) is None,
    {
        let mut i = hi;
        while i > 0
            invariant
                i <= hi <= self.menu_items@.len(),
                last_clickable_before(self.menu_items@, hi as int) == last_clickable_before(self.menu_items@, i as int),
            decreases i,
        {
            if self.menu_items[i - 1].is_clickable() {
                return Some(i - 1);
            }
            i = i - 1;
        }
        None
    }

    /// The clickable item that the up (`backwards`) or down arrow selects.
    pub fn next_clickable(&self, backwards: bool) -> (r: Option<usize>)
        ensures
            match r {
                Some(i) => next_clickable_spec(self.menu_items@, self.selected_index, backwards) == Some(i as int),
                None => next_clickable_spec(self.menu_items@, self.selected_index, backwards) is None,
            },
    {
        let n = self.menu_items.len();
        if backwards {
            let hi = match self.selected_index {
                Some(s) => if s < n {
                    s
                } else {
                    n
                },
                None => 0,
            };
            match self.last_clickable_before(hi) {
                Some(i) => Some(i),
                None => self.last_clickable_before(n),
            }
        } else {
            let found = match self.selected_index {
                Some(s) => if s < n {
                    self.first_clickable_from(s + 1)
                } else {
                    None
                },
                None => self.first_clickable_from(0),
            };
            match found {
                Some(i) => Some(i),
                None => self.first_clickable_from(0),
            }
        }
    }

    /// Moves the selection with the up (`backwards`) or down arrow.
    pub fn select_next(&mut self, backwards: bool)
        ensures
            final(self).menu_items@ == old(self).menu_items@,
            final(self).check_side == old(self).check_side,
            final(self).external_link_icon == old(self).external_link_icon,
            match next_clickable_spec(old(self).menu_items@, old(self).selected_index, backwards) {
                Some(i) => final(self).selected_index == Some(i as usize),
                None => final(self).selected_index is None,
            },
    {
        self.selected_index = self.next_clickable(backwards);
    }

    /// What confirming the selection does; a confirmed standard or element item
    /// also dismisses the menu, which clears the selection.
    pub fn confirm(&mut self) -> (r: ConfirmOutcome)
        ensures
            r == confirm_spec(old(self).menu_items@, old(self).selected_index),
            final(self).menu_items@ == old(self).menu_items@,
            final(self).check_side == old(self).check_side,
            final(self).external_link_icon == old(self).external_link_icon,
            final(self).selected_index == match r {
                ConfirmOutcome::RunHandler(_) | ConfirmOutcome::DispatchAction(_) | ConfirmOutcome::Dismiss(_) => None,
                _ => old(self).selected_index,
            },
    {
        let r = match self.selected_index {
            None => ConfirmOutcome::Nothing,
            Some(i) => if i >= self.menu_items.len() {
                ConfirmOutcome::Nothing
            } else {
                match &self.menu_items[i] {
                    PopupMenuItem::Item { disabled, has_handler, has_action, .. } => if *disabled {
                        ConfirmOutcome::Nothing
                    } else if *has_handler {
                        ConfirmOutcome::RunHandler(i)
                    } else if *has_action {
                        ConfirmOutcome::DispatchAction(i)
                    } else {
                        ConfirmOutcome::Dismiss(i)
                    },
                    PopupMenuItem::ElementItem { disabled, has_handler, has_action, .. } => if *disabled {
                        ConfirmOutcome::Nothing
                    } else if *has_handler {
                        ConfirmOutcome::RunHandler(i)
                    } else if *has_action {
                        ConfirmOutcome::DispatchAction(i)
                    } else {
                        ConfirmOutcome::Dismiss(i)
                    },
                    PopupMenuItem::Submenu { disabled, .. } => if *disabled {
                        ConfirmOutcome::Nothing
                    } else {
                        ConfirmOutcome::OpenSubmenu(i)
                    },
                    _ => ConfirmOutcome::Nothing,
                }
            },
        };
        match r {
            ConfirmOutcome::RunHandler(_) | ConfirmOutcome::DispatchAction(_) | ConfirmOutcome::Dismiss(_) => {
                self.dismiss();
            },
            _ => {},
        }
        r
    }

    /// Dismisses the menu: nothing stays selected.
    pub fn dismiss(&mut self)
        ensures
            final(self).selected_index is None,
            final(self).menu_items@ == old(self).menu_items@,
            final(self).check_side == old(self).check_side,
            final(self).external_link_icon == old(self).external_link_icon,
    {
        self.selected_index = None;
    }

    /// The index of the selected item when it is an enabled submenu.
    pub fn active_submenu(&self) -> (r: Option<usize>)
        ensures
            r == active_submenu_spec(self.menu_items@, self.selected_index),
    {
        match self.selected_index {
            Some(i) => if i < self.menu_items.len() {
                match &self.menu_items[i] {
                    PopupMenuItem::Submenu { disabled, .. } => if *disabled {
                        None
                    } else {
                        Some(i)
                    },
                    _ => None,
                }
            } else {
                None
            },
            None => None,
        }
    }

    /// Whether a click outside the menu dismisses it: not when it lands in the
    /// parent menu, nor while a submenu is open (the click may be inside it).
    pub fn dismisses_on_click_outside(&self, inside_parent: bool) -> (r: bool)
        ensures
            r == (!inside_parent && active_submenu_spec(self.menu_items@, self.selected_index) is None),
    {
        !inside_parent && self.active_submenu().is_none()
    }

    /// The pointer entered (`hovered`) or left item `ix`: entering a clickable
    /// item selects it; leaving the selected item unselects it unless it is a
    /// submenu.
    pub fn on_hover(&mut self, ix: usize, hovered: bool)
        ensures
            final(self).menu_items@ == old(self).menu_items@,
            final(self).check_side == old(self).check_side,
            final(self).external_link_icon == old(self).external_link_icon,
            final(self).selected_index == if hovered && ix < old(self).menu_items@.len() && is_clickable(
                old(self).menu_items@[ix as int],
            ) {
                Some(ix)
            } else if !(ix < old(self).menu_items@.len() && old(self).menu_items@[ix as int] is Submenu)
                && old(self).selected_index == Some(ix) {
                None
            } else {
                old(self).selected_index
            },
    {
        let n = self.menu_items.len();
        if hovered && ix < n && self.menu_items[ix].is_clickable() {
            self.selected_index = Some(ix);
        } else {
            let is_submenu = ix < n && matches!(self.menu_items[ix], PopupMenuItem::Submenu { .. });
            let selected = match self.selected_index {
                Some(s) => s == ix,
                None => false,
            };
            if !is_submenu && selected {
                self.selected_index = None;
            }
        }
    }

    /// Whether some item takes room on the left for an icon or a check mark.
    pub fn has_left_icon(&self) -> (r: bool)
        ensures
            r == exists|i: int| 0 <= i < self.menu_items@.len() && has_left_icon(#[trigger] self.menu_items@[i], self.check_side),
    {
        let mut i: usize = 0;
        while i < self.menu_items.len()
            invariant
                i <= self.menu_items@.len(),
                forall|j: int| 0 <= j < i ==> !has_left_icon(#[trigger] self.menu_items@[j], self.check_side),
            decreases self.menu_items@.len() - i,
        {
            if self.menu_items[i].has_left_icon(self.check_side) {
                return true;
            }
            i = i + 1;
        }
        false
    }

    /// Whether item `ix` is drawn: a separator at the end of the menu is not.
    pub fn is_drawn(&self, ix: usize) -> (r: bool)
        requires
            ix < self.menu_items@.len(),
        ensures
            r == !(ix + 1 == self.menu_items@.len() && self.menu_items@[ix as int] is Separator),
    {
        !(ix == self.menu_items.len() - 1 && self.menu_items[ix].is_separator())
    }

    /// How item `ix` is drawn.
    pub fn presentation(&self, ix: usize) -> (r: ItemPresentation)
        requires
            ix < self.menu_items@.len(),
        ensures
            r.selected == (self.selected_index == Some(ix)),
            r.clickable == is_clickable(self.menu_items@[ix as int]),
            r.disabled == match self.menu_items@[ix as int] {
                PopupMenuItem::Item { disabled, .. } => disabled,
                PopupMenuItem::ElementItem { disabled, .. } => disabled,
                PopupMenuItem::Submenu { disabled, .. } => disabled,
                _ => true,
            },
            r.left_check == (self.check_side == Side::Left && is_checked(self.menu_items@[ix as int])),
            r.right_check == (self.check_side == Side::Right && is_checked(self.menu_items@[ix as int])),
            r.link_icon == (self.menu_items@[ix as int] matches PopupMenuItem::Item { is_link, .. } && is_link
                && self.external_link_icon),
            r.chevron == (self.menu_items@[ix as int] is Submenu),
            r.submenu_open == (self.menu_items@[ix as int] is Submenu && self.selected_index == Some(ix)),
    {
        let item = &self.menu_items[ix];
        let selected = match self.selected_index {
            Some(s) => s == ix,
            None => false,
        };
        let checked = item.is_checked();
        let disabled = match item {
            PopupMenuItem::Item { disabled, .. } => *disabled,
            PopupMenuItem::ElementItem { disabled, .. } => *disabled,
            PopupMenuItem::Submenu { disabled, .. } => *disabled,
            _ => true,
        };
        let link_icon = match item {
            PopupMenuItem::Item { is_link, .. } => *is_link && self.external_link_icon,
            _ => false,
        };
        let is_submenu = matches!(item, PopupMenuItem::Submenu { .. });
        ItemPresentation {
            selected,
            clickable: item.is_clickable(),
            disabled,
            left_check: self.check_side.is_left() && checked,
            right_check: self.check_side.is_right() && checked,
            link_icon,
            chevron: is_submenu,
            submenu_open: is_submenu && selected,
        }
    }
}

proof fn lemma_first_clickable(items: Seq<PopupMenuItem>, lo: int)
    ensures
        first_clickable_from(items, lo) matches Some(i) ==> lo <= i < items.len() && is_clickable(items[i]),
        first_clickable_from(items, lo) is None ==> forall|j: int|
            lo <= j < items.len() && 0 <= lo ==> !is_clickable(#[trigger] items[j]),
    decreases items.len() - lo,
{
    if 0 <= lo < items.len() && !is_clickable(items[lo]) {
        lemma_first_clickable(items, lo + 1);
        assert forall|j: int| lo <= j < items.len() && first_clickable_from(items, lo) is None implies !is_clickable(
            #[trigger] items[j],
        ) by {
            if j > lo {
            }
        }
    }
}

proof fn lemma_last_clickable(items: Seq<PopupMenuItem>, hi: int)
    ensures
        last_clickable_before(items, hi) matches Some(i) ==> 0 <= i < hi && i < items.len() && is_clickable(items[i]),
        last_clickable_before(items, hi) is None && hi <= items.len() ==> forall|j: int|
            0 <= j < hi ==> !is_clickable(#[trigger] items[j]),
    decreases hi,
{
    if 0 < hi <= items.len() && !is_clickable(items[hi - 1]) {
        lemma_last_clickable(items, hi - 1);
    }
}

/// Keyboard navigation lands only on clickable items (never on a separator, a
/// label or a disabled item), and finds none only when no item is clickable.
pub proof fn lemma_navigation_selects_clickable(items: Seq<PopupMenuItem>, selected: Option<usize>, backwards: bool)
    ensures
        next_clickable_spec(items, selected, backwards) matches Some(i) ==> 0 <= i < items.len() && is_clickable(
            items[i],
        ),
        next_clickable_spec(items, selected, backwards) is None <==> forall|j: int|
            0 <= j < items.len() ==> !is_clickable(#[trigger] items[j]),
{
    let n = items.len() as int;
    lemma_first_clickable(items, 0);
    lemma_last_clickable(items, n);
    match selected {
        Some(s) => {
            lemma_first_clickable(items, s + 1);
            let hi = if s < n {
                s as int
            } else {
                n
            };
            lemma_last_clickable(items, hi);
        },
        None => {
            lemma_last_clickable(items, 0);
        },
    }
}

/// A disabled item, a separator or a label is never confirmed, and confirming
/// it leaves the selection as it is.
pub proof fn lemma_unclickable_is_not_confirmed(items: Seq<PopupMenuItem>, selected: usize)
    requires
        selected < items.len(),
        !is_clickable(items[selected as int]),
    ensures
        confirm_spec(items, Some(selected)) == ConfirmOutcome::Nothing,
{
}

/// The first clickable index from `lo` skips no clickable item.
proof fn lemma_first_clickable_least(items: Seq<PopupMenuItem>, lo: int)
    requires
        0 <= lo,
    ensures
        first_clickable_from(items, lo) matches Some(i) ==> forall|j: int| lo <= j < i ==> !is_clickable(#[trigger] items[j]),
    decreases items.len() - lo,
{
    if lo < items.len() && !is_clickable(items[lo]) {
        lemma_first_clickable_least(items, lo + 1);
    }
}

/// The last clickable index before `hi` skips no clickable item.
proof fn lemma_last_clickable_greatest(items: Seq<PopupMenuItem>, hi: int)
    ensures
        last_clickable_before(items, hi) matches Some(i) ==> forall|j: int| i < j < hi ==> !is_clickable(#[trigger] items[j]),
    decreases hi,
{
    if 0 < hi <= items.len() && !is_clickable(items[hi - 1]) {
        lemma_last_clickable_greatest(items, hi - 1);
    }
}

/// The arrows move to the nearest clickable item in their direction. With item
/// `s` selected, the up arrow selects the closest clickable item above it, and
/// only when there is none wraps to the last clickable item; the down arrow
/// selects the closest clickable item below it, and only when there is none
/// wraps to the first one. With nothing selected, up selects the last clickable
/// item and down the first.
pub proof fn lemma_navigation_moves_to_nearest(items: Seq<PopupMenuItem>, s: usize)
    ensures
        (exists|j: int| 0 <= j < s && j < items.len() && #[trigger] is_clickable(items[j])) ==> (next_clickable_spec(
            items,
            Some(s),
            true,
        ) matches Some(i) && i < s && is_clickable(items[i]) && forall|j: int|
            i < j < s && j < items.len() ==> !is_clickable(#[trigger] items[j])),
        !(exists|j: int| 0 <= j < s && j < items.len() && #[trigger] is_clickable(items[j])) ==> (
        next_clickable_spec(items, Some(s), true) matches Some(i) ==> forall|j: int|
            i < j < items.len() ==> !is_clickable(#[trigger] items[j])),
        (exists|j: int| s < j < items.len() && #[trigger] is_clickable(items[j])) ==> (next_clickable_spec(
            items,
            Some(s),
            false,
        ) matches Some(i) && s < i < items.len() && is_clickable(items[i]) && forall|j: int|
            s < j < i ==> !is_clickable(#[trigger] items[j])),
        !(exists|j: int| s < j < items.len() && #[trigger] is_clickable(items[j])) ==> (next_clickable_spec(
            items,
            Some(s),
            false,
        ) matches Some(i) ==> forall|j: int| 0 <= j < i ==> !is_clickable(#[trigger] items[j])),
        next_clickable_spec(items, None, true) matches Some(i) ==> forall|j: int|
            i < j < items.len() ==> !is_clickable(#[trigger] items[j]),
        next_clickable_spec(items, None, false) matches Some(i) ==> forall|j: int|
            0 <= j < i ==> !is_clickable(#[trigger] items[j]),
{
    let n = items.len() as int;
    lemma_last_clickable(items, n);
    lemma_last_clickable_greatest(items, n);
    lemma_last_clickable(items, 0);
    lemma_first_clickable(items, 0);
    lemma_first_clickable_least(items, 0);
    let hi = if s < n {
        s as int
    } else {
        n
    };
    lemma_last_clickable(items, hi);
    lemma_last_clickable_greatest(items, hi);
    lemma_first_clickable(items, s + 1);
    lemma_first_clickable_least(items, s + 1);
    if exists|j: int| 0 <= j < s && j < items.len() && #[trigger] is_clickable(items[j]) {
        let j = choose|j: int| 0 <= j < s && j < items.len() && #[trigger] is_clickable(items[j]);
        assert(j < hi);
    }
    if exists|j: int| s < j < items.len() && #[trigger] is_clickable(items[j]) {
        let j = choose|j: int| s < j < items.len() && #[trigger] is_clickable(items[j]);
        assert(s + 1 <= j);
    }
}

} // verus!
