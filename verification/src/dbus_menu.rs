//! Menus that tray items export over the bus (the DBusMenu protocol): how a menu
//! is named, and the items of its layout.
use vstd::prelude::*;
use crate::input::text::append_str;

verus! {

/// Where a menu lives: its bus name and its object path.
#[derive(Clone, Debug, PartialEq, Eq, Hash, PartialOrd, Ord)]
pub struct MenuId {
    service: String,
    object_path: String,
}

/// The kind of a menu item.
#[derive(Clone, Debug, PartialEq, Eq)]
pub enum MenuItemType {
    Standard,
    Separator,
    Other(String),
}

/// An item of a menu layout, with its children.
#[derive(Debug, PartialEq, Eq)]
pub struct MenuItem {
    pub id: i32,
    pub item_type: MenuItemType,
    pub label: String,
    pub enabled: bool,
    pub visible: bool,
    pub icon_name: Option<String>,
    pub icon_data: Vec<u8>,
    pub shortcut: Vec<Vec<String>>,
    pub toggle_type: Option<String>,
    pub toggle_state: i32,
    pub children_display: Option<String>,
    pub children: Vec<MenuItem>,
}

/// The layout of a menu at some revision; item 0 is the root container.
#[derive(Debug, PartialEq, Eq)]
pub struct MenuLayout {
    pub id: MenuId,
    pub revision: u32,
    pub root: MenuItem,
}

pub enum MenuItemTypeView {
    Standard,
    Separator,
    Other(Seq<char>),
}

impl View for MenuItemType {
    type V = MenuItemTypeView;

    open spec fn view(&self) -> MenuItemTypeView {
        match self {
            MenuItemType::Standard => MenuItemTypeView::Standard,
            MenuItemType::Separator => MenuItemTypeView::Separator,
            MenuItemType::Other(s) => MenuItemTypeView::Other(s@),
        }
    }
}

/// The kind that a `type` property names: none or `standard` is a standard
/// item, `separator` a separator; any other value is kept as it is.
pub open spec fn item_type_of(value: Option<Seq<char>>) -> MenuItemTypeView {
    match value {
        None => MenuItemTypeView::Standard,
        Some(v) => if v == "standard"@ {
            MenuItemTypeView::Standard
        } else if v == "separator"@ {
            MenuItemTypeView::Separator
        } else {
            MenuItemTypeView::Other(v)
        },
    }
}

/// Decodes the `type` property of a menu item.
pub fn item_type_from_property(value: Option<String>) -> (r: MenuItemType)
    ensures
        r@ == item_type_of(crate::tray::text_view(value)),
{
    match value {
        None => MenuItemType::Standard,
        Some(v) => {
            let standard = "standard".to_owned();
            let separator = "separator".to_owned();
            if v == standard {
                MenuItemType::Standard
            } else if v == separator {
                MenuItemType::Separator
            } else {
                MenuItemType::Other(v)
            }
        },
    }
}

/// A string property, where an empty value counts as absent.
pub fn non_empty(value: Option<String>) -> (r: Option<String>)
    ensures
        crate::tray::text_view(r) == match crate::tray::text_view(value) {
            Some(v) => if v.len() == 0 {
                None
            } else {
                Some(v)
            },
            None => None,
        },
{
    match value {
        Some(v) => {
            if v.as_str().as_bytes().len() == 0 {
                proof {
                    crate::input::text::lemma_encode_utf8_len(v@);
                    crate::input::text::lemma_len_le_byte_len(v@);
                    assert(v@ =~= Seq::<char>::empty());
                }
                None
            } else {
                proof {
                    crate::input::text::lemma_encode_utf8_len(v@);
                    if v@.len() == 0 {
                        assert(v@ =~= Seq::<char>::empty());
                    }
                }
                Some(v)
            }
        },
        None => None,
    }
}

/// The properties of a menu item as read from the bus, each one present when
/// the item has it and it decoded to the expected type.
pub struct MenuItemProperties {
    pub item_type: Option<String>,
    pub label: Option<String>,
    pub enabled: Option<bool>,
    pub visible: Option<bool>,
    pub icon_name: Option<String>,
    pub icon_data: Option<Vec<u8>>,
    pub shortcut: Option<Vec<Vec<String>>>,
    pub toggle_type: Option<String>,
    pub toggle_state: Option<i32>,
    pub children_display: Option<String>,
}

/// A string property where an empty value counts as absent.
pub open spec fn non_empty_view(value: Option<String>) -> Option<Seq<char>> {
    match crate::tray::text_view(value) {
        Some(v) => if v.len() == 0 {
            None
        } else {
            Some(v)
        },
        None => None,
    }
}

impl MenuItem {
    /// The item `id` with `children` that its properties describe: a missing
    /// label is empty, a missing `enabled` or `visible` is true, missing icon
    /// data and shortcuts are empty, a missing toggle state is -1, and empty
    /// icon names, toggle types and children-display values count as absent.
    pub fn from_properties(id: i32, p: MenuItemProperties, children: Vec<MenuItem>) -> (r: MenuItem)
        ensures
            r.id == id,
            r.item_type@ == item_type_of(crate::tray::text_view(p.item_type)),
            r.label@ == match p.label {
                Some(l) => l@,
                None => Seq::<char>::empty(),
            },
            r.enabled == match p.enabled {
                Some(e) => e,
                None => true,
            },
            r.visible == match p.visible {
                Some(v) => v,
                None => true,
            },
            crate::tray::text_view(r.icon_name) == non_empty_view(p.icon_name),
            r.icon_data@ == match p.icon_data {
                Some(d) => d@,
                None => Seq::<u8>::empty(),
            },
            r.shortcut@ == match p.shortcut {
                Some(s) => s@,
                None => Seq::<Vec<String>>::empty(),
            },
            crate::tray::text_view(r.toggle_type) == non_empty_view(p.toggle_type),
            r.toggle_state == match p.toggle_state {
                Some(t) => t,
                None => -1i32,
            },
            crate::tray::text_view(r.children_display) == non_empty_view(p.children_display),
            r.children@ == children@,
    {
        MenuItem {
            id,
            item_type: item_type_from_property(p.item_type),
            label: match p.label {
                Some(l) => l,
                None => String::new(),
            },
            enabled: match p.enabled {
                Some(e) => e,
                None => true,
            },
            visible: match p.visible {
                Some(v) => v,
                None => true,
            },
            icon_name: non_empty(p.icon_name),
            icon_data: match p.icon_data {
                Some(d) => d,
                None => Vec::new(),
            },
            shortcut: match p.shortcut {
                Some(s) => s,
                None => Vec::new(),
            },
            toggle_type: non_empty(p.toggle_type),
            toggle_state: match p.toggle_state {
                Some(t) => t,
                None => -1,
            },
            children_display: non_empty(p.children_display),
            children,
        }
    }
}

impl MenuId {
    pub closed spec fn view(&self) -> (Seq<char>, Seq<char>) {
        (self.service@, self.object_path@)
    }

    /// The menu at `object_path` of bus name `service`.
    pub fn new(service: String, object_path: String) -> (r: MenuId)
        ensures
            r.view() == (service@, object_path@),
    {
        MenuId { service, object_path }
    }

    /// The bus name.
    pub fn service(&self) -> (r: &str)
        ensures
            r@ == self.view().0,
    {
        self.service.as_str()
    }

    /// The object path.
    pub fn object_path(&self) -> (r: &str)
        ensures
            r@ == self.view().1,
    {
        self.object_path.as_str()
    }

    /// The menu as text: its bus name followed by its object path.
    pub fn to_text(&self) -> (r: String)
        ensures
            r@ == self.view().0 + self.view().1,
    {
        let mut r = String::new();
        append_str(&mut r, self.service.as_str());
        append_str(&mut r, self.object_path.as_str());
        proof {
            assert(r@ =~= self.view().0 + self.view().1);
        }
        r
    }
}

/// The entries of `items` that are visible, in order.
pub open spec fn visible_items(items: Seq<MenuItem>) -> Seq<MenuItem> {
    items.filter(|c: MenuItem| c.visible)
}

impl MenuLayout {
    /// The top-level visible entries: the visible children of the root
    /// container (item 0), in order.
    pub fn items(&self) -> (r: Vec<&MenuItem>)
        ensures
            r@.map_values(|c: &MenuItem| *c) == visible_items(self.root.children@),
    {
        let children = &self.root.children;
        let ghost all = children@;
        let mut r: Vec<&MenuItem> = Vec::new();
        let mut i: usize = 0;
        while i < children.len()
            invariant
                i <= all.len(),
                all == children@,
                r@.map_values(|c: &MenuItem| *c) == visible_items(all.take(i as int)),
            decreases all.len() - i,
        {
            let c = &children[i];
            let ghost before = r@;
            proof {
                assert(all.take(i + 1) =~= all.take(i as int).push(all[i as int]));
                all.take(i as int).lemma_filter_push(all[i as int], |c: MenuItem| c.visible);
            }
            if c.visible {
                r.push(c);
                proof {
                    assert(r@.map_values(|c: &MenuItem| *c) =~= before.map_values(|c: &MenuItem| *c).push(
                        all[i as int],
                    ));
                }
            }
            i = i + 1;
        }
        proof {
            assert(all.take(all.len() as int) =~= all);
        }
        r
    }
}

} // verus!
