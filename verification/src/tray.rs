//! System tray items (the StatusNotifierItem protocol): how an item is named on
//! the bus, what the shell knows of each item, and how it keeps track of them.
use vstd::prelude::*;
use crate::input::text::{append_str, push_char};

verus! {

/// The object path of an item that registered with its bus name alone.
pub const DEFAULT_ITEM_PATH: &'static str = "/StatusNotifierItem";

/// A registration that names no service.
#[derive(Clone, Copy, Debug, PartialEq, Eq, Structural)]
pub enum RegistrationError {
    MissingServiceName,
}

/// Where a tray item lives: its bus name and its object path.
#[derive(Clone, Debug, PartialEq, Eq, Hash, PartialOrd, Ord)]
pub struct StatusNotifierId {
    service: String,
    object_path: String,
}

/// `s` holds no slash.
pub open spec fn no_slash(s: Seq<char>) -> bool {
    forall|i: int| 0 <= i < s.len() ==> s[i] != '/'
}

/// `i` is the index of the first slash of `s`.
pub open spec fn is_first_slash(s: Seq<char>, i: int) -> bool {
    0 <= i < s.len() && s[i] == '/' && no_slash(s.take(i))
}

/// The service and object path that a registration names: the text before its
/// first slash and the rest, or the whole text and the default path when it has
/// no slash. `None` where no service is named.
pub open spec fn parse_registration(s: Seq<char>) -> Option<(Seq<char>, Seq<char>)> {
    if no_slash(s) {
        if s.len() == 0 {
            None
        } else {
            Some((s, DEFAULT_ITEM_PATH@))
        }
    } else {
        let i = choose|i: int| is_first_slash(s, i);
        if i > 0 {
            Some((s.take(i), s.skip(i)))
        } else {
            None
        }
    }
}

proof fn lemma_first_slash_unique(s: Seq<char>, i: int, j: int)
    requires
        is_first_slash(s, i),
        is_first_slash(s, j),
    ensures
        i == j,
{
    if i < j {
        assert(s.take(j)[i] == s[i]);
    } else if j < i {
        assert(s.take(i)[j] == s[j]);
    }
}

proof fn lemma_first_slash_exists(s: Seq<char>)
    requires
        !no_slash(s),
    ensures
        exists|i: int| is_first_slash(s, i),
    decreases s.len(),
{
    let t = s.drop_last();
    if no_slash(t) {
        assert(t =~= s.take(s.len() - 1));
        let j = choose|j: int| 0 <= j < s.len() && s[j] == '/';
        if j < s.len() - 1 {
            assert(t[j] == s[j]);
        }
        assert(is_first_slash(s, s.len() - 1));
    } else {
        lemma_first_slash_exists(t);
        let i = choose|i: int| is_first_slash(t, i);
        assert(t.take(i) =~= s.take(i));
        assert(is_first_slash(s, i));
    }
}

proof fn lemma_parse_at(s: Seq<char>, i: int)
    requires
        is_first_slash(s, i),
    ensures
        parse_registration(s) == if i > 0 {
            Some((s.take(i), s.skip(i)))
        } else {
            None::<(Seq<char>, Seq<char>)>
        },
{
    assert(!no_slash(s));
    let k = choose|k: int| is_first_slash(s, k);
    lemma_first_slash_unique(s, i, k);
}

impl StatusNotifierId {
    pub closed spec fn view(&self) -> (Seq<char>, Seq<char>) {
        (self.service@, self.object_path@)
    }

    /// Parses a registration as the watcher reports it: a bus name followed by an
    /// optional object path (`:1.42/org/example/Item`), where a missing path
    /// means `/StatusNotifierItem`.
    pub fn from_registration(registration: &str) -> (r: Result<StatusNotifierId, RegistrationError>)
        ensures
            match parse_registration(registration@) {
                Some(parts) => r matches Ok(id) && id.view() == parts,
                None => r == Err::<StatusNotifierId, RegistrationError>(RegistrationError::MissingServiceName),
            },
    {
        let ghost s = registration@;
        let mut service = String::new();
        let mut path = String::new();
        let mut seen = false;
        let mut named = false;
        let ghost mut slash: int = 0;
        for c in it: registration.chars()
            invariant
                it.seq() == s,
                named == (service@.len() > 0),
                !seen ==> service@ == s.take(it.index() as int) && no_slash(s.take(it.index() as int)),
                !seen ==> path@.len() == 0,
                seen ==> slash <= it.index(),
                seen ==> is_first_slash(s, slash) && service@ == s.take(slash) && path@ == s.subrange(
                    slash,
                    it.index() as int,
                ),
        {
            if !seen && c == '/' {
                seen = true;
                proof {
                    slash = it.index() as int;
                }
            }
            if seen {
                push_char(&mut path, c);
            } else {
                push_char(&mut service, c);
                named = true;
            }
            proof {
                let n = it.index() as int;
                if seen {
                    assert(path@ =~= s.subrange(slash, n + 1));
                } else {
                    assert(service@ =~= s.take(n + 1));
                    assert(s.take(n + 1) =~= s.take(n).push(c));
                }
            }
        }
        proof {
            assert(s.take(s.len() as int) =~= s);
            assert(s.subrange(slash, s.len() as int) =~= s.skip(slash));
        }
        if seen {
            proof {
                lemma_parse_at(s, slash);
            }
            if !named {
                return Err(RegistrationError::MissingServiceName);
            }
            Ok(StatusNotifierId { service, object_path: path })
        } else {
            if !named {
                return Err(RegistrationError::MissingServiceName);
            }
            Ok(StatusNotifierId { service, object_path: DEFAULT_ITEM_PATH.to_owned() })
        }
    }

    /// Parses an item as the watcher lists it; the same form as a registration.
    pub fn from_registered_item(item: &str) -> (r: Result<StatusNotifierId, RegistrationError>)
        ensures
            match parse_registration(item@) {
                Some(parts) => r matches Ok(id) && id.view() == parts,
                None => r == Err::<StatusNotifierId, RegistrationError>(RegistrationError::MissingServiceName),
            },
    {
        StatusNotifierId::from_registration(item)
    }

    /// The bus name of the item.
    pub fn service(&self) -> (r: &str)
        ensures
            r@ == self.view().0,
    {
        self.service.as_str()
    }

    /// The object path of the item.
    pub fn object_path(&self) -> (r: &str)
        ensures
            r@ == self.view().1,
    {
        self.object_path.as_str()
    }

    /// The item as text: its bus name followed by its object path.
    pub fn to_text(&self) -> (r: String)
        ensures
            r@ == self.view().0 + self.view().1,
    {
        let mut r = String::new();
        append_str(&mut r, self.service.as_str());
        append_str(&mut r, self.object_path.as_str());
        proof {
            assert(r@ =~= self.view().0 + self.view().1);
        }
        r
    }

    /// A copy of the identifier.
    pub fn duplicate(&self) -> (r: StatusNotifierId)
        ensures
            r.view() == self.view(),
    {
        StatusNotifierId { service: self.service.clone(), object_path: self.object_path.clone() }
    }

    /// Whether both name the same item.
    pub fn same_as(&self, other: &StatusNotifierId) -> (r: bool)
        ensures
            r == (self.view() == other.view()),
    {
        self.service == other.service && self.object_path == other.object_path
    }
}

/// The text form of a service and a path: the one followed by the other.
pub open spec fn joined(parts: (Seq<char>, Seq<char>)) -> Seq<char> {
    parts.0 + parts.1
}

/// The text form of an identifier parses back to the same identifier.
pub proof fn lemma_text_round_trip(s: Seq<char>)
    requires
        parse_registration(s) is Some,
    ensures
        parse_registration(joined(parse_registration(s)->0)) == parse_registration(s),
{
    let (a, b) = parse_registration(s)->0;
    reveal_strlit("/StatusNotifierItem");
    if no_slash(s) {
        let t = s + DEFAULT_ITEM_PATH@;
        assert(t.take(s.len() as int) =~= s);
        assert(t[s.len() as int] == '/');
        lemma_parse_at(t, s.len() as int);
        assert(t.skip(s.len() as int) =~= DEFAULT_ITEM_PATH@);
    } else {
        lemma_first_slash_exists(s);
        let i = choose|i: int| is_first_slash(s, i);
        lemma_parse_at(s, i);
        assert(a + b =~= s);
    }
}

/// An icon as ARGB32 pixels in network byte order.
#[derive(Clone, Debug, PartialEq, Eq)]
pub struct IconPixmap {
    pub width: i32,
    pub height: i32,
    pub argb: Vec<u8>,
}

/// The tool tip of a tray item.
#[derive(Clone, Debug, PartialEq, Eq)]
pub struct ToolTip {
    pub icon_name: String,
    pub icon_pixmaps: Vec<IconPixmap>,
    pub title: String,
    pub description: String,
}

/// What the shell knows of a tray item.
#[derive(Clone, Debug, PartialEq, Eq)]
pub struct StatusNotifierItem {
    pub id: StatusNotifierId,
    pub category: Option<String>,
    pub identifier: Option<String>,
    pub title: Option<String>,
    pub status: Option<String>,
    pub window_id: Option<u32>,
    pub icon_name: Option<String>,
    pub icon_pixmaps: Vec<IconPixmap>,
    pub overlay_icon_name: Option<String>,
    pub overlay_icon_pixmaps: Vec<IconPixmap>,
    pub attention_icon_name: Option<String>,
    pub attention_icon_pixmaps: Vec<IconPixmap>,
    pub attention_movie_name: Option<String>,
    pub tool_tip: Option<ToolTip>,
    pub item_is_menu: Option<bool>,
    pub menu: Option<String>,
    /// KDE extension used by real-world implementations.
    pub icon_theme_path: Option<String>,
}

/// A tray item changed.
#[derive(Clone, Debug, PartialEq, Eq)]
pub enum ItemEvent {
    Updated(StatusNotifierItem),
}

pub struct PixmapView {
    pub width: i32,
    pub height: i32,
    pub argb: Seq<u8>,
}

pub struct ToolTipView {
    pub icon_name: Seq<char>,
    pub icon_pixmaps: Seq<PixmapView>,
    pub title: Seq<char>,
    pub description: Seq<char>,
}

pub struct ItemView {
    pub id: (Seq<char>, Seq<char>),
    pub category: Option<Seq<char>>,
    pub identifier: Option<Seq<char>>,
    pub title: Option<Seq<char>>,
    pub status: Option<Seq<char>>,
    pub window_id: Option<u32>,
    pub icon_name: Option<Seq<char>>,
    pub icon_pixmaps: Seq<PixmapView>,
    pub overlay_icon_name: Option<Seq<char>>,
    pub overlay_icon_pixmaps: Seq<PixmapView>,
    pub attention_icon_name: Option<Seq<char>>,
    pub attention_icon_pixmaps: Seq<PixmapView>,
    pub attention_movie_name: Option<Seq<char>>,
    pub tool_tip: Option<ToolTipView>,
    pub item_is_menu: Option<bool>,
    pub menu: Option<Seq<char>>,
    pub icon_theme_path: Option<Seq<char>>,
}

pub open spec fn text_view(t: Option<String>) -> Option<Seq<char>> {
    match t {
        Some(s) => Some(s@),
        None => None,
    }
}

impl View for IconPixmap {
    type V = PixmapView;

    open spec fn view(&self) -> PixmapView {
        PixmapView { width: self.width, height: self.height, argb: self.argb@ }
    }
}

pub open spec fn pixmaps_view(p: Seq<IconPixmap>) -> Seq<PixmapView> {
    p.map_values(|x: IconPixmap| x@)
}

impl View for ToolTip {
    type V = ToolTipView;

    open spec fn view(&self) -> ToolTipView {
        ToolTipView {
            icon_name: self.icon_name@,
            icon_pixmaps: pixmaps_view(self.icon_pixmaps@),
            title: self.title@,
            description: self.description@,
        }
    }
}

pub open spec fn tool_tip_view(t: Option<ToolTip>) -> Option<ToolTipView> {
    match t {
        Some(x) => Some(x@),
        None => None,
    }
}

impl View for StatusNotifierItem {
    type V = ItemView;

    open spec fn view(&self) -> ItemView {
        ItemView {
            id: self.id.view(),
            category: text_view(self.category),
            identifier: text_view(self.identifier),
            title: text_view(self.title),
            status: text_view(self.status),
            window_id: self.window_id,
            icon_name: text_view(self.icon_name),
            icon_pixmaps: pixmaps_view(self.icon_pixmaps@),
            overlay_icon_name: text_view(self.overlay_icon_name),
            overlay_icon_pixmaps: pixmaps_view(self.overlay_icon_pixmaps@),
            attention_icon_name: text_view(self.attention_icon_name),
            attention_icon_pixmaps: pixmaps_view(self.attention_icon_pixmaps@),
            attention_movie_name: text_view(self.attention_movie_name),
            tool_tip: tool_tip_view(self.tool_tip),
            item_is_menu: self.item_is_menu,
            menu: text_view(self.menu),
            icon_theme_path: text_view(self.icon_theme_path),
        }
    }
}

/// Pixmaps as the bus carries them: width, height and ARGB data.
pub open spec fn raw_pixmaps_view(raw: Seq<(i32, i32, Vec<u8>)>) -> Seq<PixmapView> {
    raw.map_values(|r: (i32, i32, Vec<u8>)| PixmapView { width: r.0, height: r.1, argb: r.2@ })
}

/// Turns pixmaps as the bus carries them into icon pixmaps, in order.
pub fn convert_icon_pixmaps(raw: Vec<(i32, i32, Vec<u8>)>) -> (r: Vec<IconPixmap>)
    ensures
        pixmaps_view(r@) == raw_pixmaps_view(raw@),
{
    let mut raw = raw;
    let ghost all = raw@;
    let mut r: Vec<IconPixmap> = Vec::new();
    while raw.len() > 0
        invariant
            raw@.len() <= all.len(),
            raw@ == all.skip(all.len() - raw@.len()),
            pixmaps_view(r@) == raw_pixmaps_view(all.take(all.len() - raw@.len())),
        decreases raw@.len(),
    {
        let ghost k = all.len() - raw@.len();
        let (width, height, argb) = raw.remove(0);
        let ghost prev = r@;
        r.push(IconPixmap { width, height, argb });
        proof {
            assert(all[k] == (width, height, argb)) by {
                assert(all.skip(k)[0] == all[k]);
            }
            assert(pixmaps_view(r@) =~= pixmaps_view(prev).push(PixmapView { width, height, argb: argb@ }));
            assert(raw@ =~= all.skip(k + 1));
            assert(all.take(k + 1) =~= all.take(k).push(all[k]));
            assert(pixmaps_view(r@) =~= raw_pixmaps_view(all.take(k + 1)));
        }
    }
    proof {
        assert(all.take(all.len() as int) =~= all);
    }
    r
}

/// The item of which nothing is known but its identifier `id`.
pub open spec fn empty_item(id: (Seq<char>, Seq<char>)) -> ItemView {
    ItemView {
        id,
        category: None,
        identifier: None,
        title: None,
        status: None,
        window_id: None,
        icon_name: None,
        icon_pixmaps: Seq::empty(),
        overlay_icon_name: None,
        overlay_icon_pixmaps: Seq::empty(),
        attention_icon_name: None,
        attention_icon_pixmaps: Seq::empty(),
        attention_movie_name: None,
        tool_tip: None,
        item_is_menu: None,
        menu: None,
        icon_theme_path: None,
    }
}

/// The first item that a follower of tray item `id` reports: the item as
/// fetched from the bus, or, when fetching failed, the empty item for `id`.
pub fn first_item(id: StatusNotifierId, fetched: Option<StatusNotifierItem>) -> (r: StatusNotifierItem)
    ensures
        r@ == match fetched {
            Some(item) => item@,
            None => empty_item(id.view()),
        },
{
    match fetched {
        Some(item) => item,
        None => StatusNotifierItem::empty(id),
    }
}

impl StatusNotifierItem {
    /// An item of which nothing is known but its identifier.
    pub fn empty(id: StatusNotifierId) -> (r: StatusNotifierItem)
        ensures
            r@ == empty_item(id.view()),
            r.id == id,
            r.category is None && r.identifier is None && r.title is None && r.status is None,
            r.window_id is None && r.icon_name is None && r.icon_pixmaps@.len() == 0,
            r.overlay_icon_name is None && r.overlay_icon_pixmaps@.len() == 0,
            r.attention_icon_name is None && r.attention_icon_pixmaps@.len() == 0,
            r.attention_movie_name is None && r.tool_tip is None && r.item_is_menu is None,
            r.menu is None && r.icon_theme_path is None,
    {
        let r = StatusNotifierItem {
            id,
            category: None,
            identifier: None,
            title: None,
            status: None,
            window_id: None,
            icon_name: None,
            icon_pixmaps: Vec::new(),
            overlay_icon_name: None,
            overlay_icon_pixmaps: Vec::new(),
            attention_icon_name: None,
            attention_icon_pixmaps: Vec::new(),
            attention_movie_name: None,
            tool_tip: None,
            item_is_menu: None,
            menu: None,
            icon_theme_path: None,
        };
        proof {
            assert(pixmaps_view(r.icon_pixmaps@) =~= Seq::<PixmapView>::empty());
            assert(pixmaps_view(r.overlay_icon_pixmaps@) =~= Seq::<PixmapView>::empty());
            assert(pixmaps_view(r.attention_icon_pixmaps@) =~= Seq::<PixmapView>::empty());
        }
        r
    }
}

/// The properties of a tray item as read from the bus, each one present when
/// the item has it and it decoded to the expected type. Pixmaps are width,
/// height and ARGB data; a tool tip is its icon name, pixmaps, title and
/// description; the menu is an object path.
pub struct ItemProperties {
    pub category: Option<String>,
    pub identifier: Option<String>,
    pub title: Option<String>,
    pub status: Option<String>,
    pub window_id: Option<u32>,
    pub icon_name: Option<String>,
    pub icon_pixmaps: Option<Vec<(i32, i32, Vec<u8>)>>,
    pub overlay_icon_name: Option<String>,
    pub overlay_icon_pixmaps: Option<Vec<(i32, i32, Vec<u8>)>>,
    pub attention_icon_name: Option<String>,
    pub attention_icon_pixmaps: Option<Vec<(i32, i32, Vec<u8>)>>,
    pub attention_movie_name: Option<String>,
    pub tool_tip: Option<(String, Vec<(i32, i32, Vec<u8>)>, String, String)>,
    pub item_is_menu: Option<bool>,
    pub menu: Option<String>,
    pub icon_theme_path: Option<String>,
}

/// Pixmaps of a property, none when the property is missing.
pub open spec fn raw_pixmaps_or_none(raw: Option<Vec<(i32, i32, Vec<u8>)>>) -> Seq<PixmapView> {
    match raw {
        Some(r) => raw_pixmaps_view(r@),
        None => Seq::empty(),
    }
}

/// The tool tip that a tool-tip property describes.
pub open spec fn raw_tool_tip_view(raw: Option<(String, Vec<(i32, i32, Vec<u8>)>, String, String)>) -> Option<
    ToolTipView,
> {
    match raw {
        Some(t) => Some(
            ToolTipView {
                icon_name: t.0@,
                icon_pixmaps: raw_pixmaps_view(t.1@),
                title: t.2@,
                description: t.3@,
            },
        ),
        None => None,
    }
}

/// The item that properties describe: each field is its property, pixmaps
/// missing are none.
pub open spec fn item_of_properties(id: (Seq<char>, Seq<char>), p: ItemProperties) -> ItemView {
    ItemView {
        id,
        category: text_view(p.category),
        identifier: text_view(p.identifier),
        title: text_view(p.title),
        status: text_view(p.status),
        window_id: p.window_id,
        icon_name: text_view(p.icon_name),
        icon_pixmaps: raw_pixmaps_or_none(p.icon_pixmaps),
        overlay_icon_name: text_view(p.overlay_icon_name),
        overlay_icon_pixmaps: raw_pixmaps_or_none(p.overlay_icon_pixmaps),
        attention_icon_name: text_view(p.attention_icon_name),
        attention_icon_pixmaps: raw_pixmaps_or_none(p.attention_icon_pixmaps),
        attention_movie_name: text_view(p.attention_movie_name),
        tool_tip: raw_tool_tip_view(p.tool_tip),
        item_is_menu: p.item_is_menu,
        menu: text_view(p.menu),
        icon_theme_path: text_view(p.icon_theme_path),
    }
}

fn pixmaps_or_none(raw: Option<Vec<(i32, i32, Vec<u8>)>>) -> (r: Vec<IconPixmap>)
    ensures
        pixmaps_view(r@) == raw_pixmaps_or_none(raw),
{
    match raw {
        Some(r) => convert_icon_pixmaps(r),
        None => {
            let r: Vec<IconPixmap> = Vec::new();
            proof {
                assert(pixmaps_view(r@) =~= Seq::<PixmapView>::empty());
            }
            r
        },
    }
}

impl StatusNotifierItem {
    /// The item with identifier `id` that its properties describe.
    pub fn from_properties(id: StatusNotifierId, p: ItemProperties) -> (r: StatusNotifierItem)
        ensures
            r@ == item_of_properties(id.view(), p),
    {
        let ghost gp = p;
        let tool_tip = match p.tool_tip {
            Some((icon_name, pixmaps, title, description)) => Some(
                ToolTip { icon_name, icon_pixmaps: convert_icon_pixmaps(pixmaps), title, description },
            ),
            None => None,
        };
        StatusNotifierItem {
            id,
            category: p.category,
            identifier: p.identifier,
            title: p.title,
            status: p.status,
            window_id: p.window_id,
            icon_name: p.icon_name,
            icon_pixmaps: pixmaps_or_none(p.icon_pixmaps),
            overlay_icon_name: p.overlay_icon_name,
            overlay_icon_pixmaps: pixmaps_or_none(p.overlay_icon_pixmaps),
            attention_icon_name: p.attention_icon_name,
            attention_icon_pixmaps: pixmaps_or_none(p.attention_icon_pixmaps),
            attention_movie_name: p.attention_movie_name,
            tool_tip,
            item_is_menu: p.item_is_menu,
            menu: p.menu,
            icon_theme_path: p.icon_theme_path,
        }
    }
}

} // verus!
