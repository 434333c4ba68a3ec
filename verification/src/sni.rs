//! Domain model of a StatusNotifierItem, the tray protocol defined by
//! freedesktop.org/KDE and implemented by libappindicator, libayatana and Qt.
//!
//! Only the shape of the data and pure derivations live here. Talking to the
//! application that owns the item is the daemon's job.

use vstd::prelude::*;

use crate::icon::{best_pick, pick_best, pixmap_valid, same_pixmaps, Pixmap, SpecPixmap};
use crate::props::{
    prop_bool, prop_int, prop_pixmaps, prop_text, PropMap, PropValue, SpecPropValue,
};
use crate::text::{
    chars_of, concat, is_white_space, same_text, string_of, trim, trim_end, trim_start,
    trim_start_char, trimmed,
};

verus! {

/// Well-known bus name every tray application looks for.
pub const WATCHER_BUS_NAME: &'static str = "org.kde.StatusNotifierWatcher";

pub const WATCHER_OBJECT_PATH: &'static str = "/StatusNotifierWatcher";

pub const WATCHER_INTERFACE: &'static str = "org.kde.StatusNotifierWatcher";

pub const HOST_INTERFACE: &'static str = "org.kde.StatusNotifierHost";

/// Interface a tray item exposes.
pub const ITEM_INTERFACE: &'static str = "org.kde.StatusNotifierItem";

/// Object path used when the registration did not name one.
pub const DEFAULT_ITEM_PATH: &'static str = "/StatusNotifierItem";

/// Marker path meaning "this item has no menu".
pub const NO_DBUSMENU_PATH: &'static str = "/NO_DBUSMENU";

/// `Status` of an item: controls visibility and which icon is shown.
#[derive(Clone, Copy, Debug, PartialEq, Eq, Structural)]
pub enum Status {
    /// The item asks not to be displayed at all.
    Passive,
    Active,
    /// The item wants attention: its attention icon takes over.
    NeedsAttention,
}

pub open spec fn status_name(status: Status) -> Seq<char> {
    match status {
        Status::Passive => "Passive"@,
        Status::Active => "Active"@,
        Status::NeedsAttention => "NeedsAttention"@,
    }
}

/// Unknown values map to `Active`, the least surprising default.
pub open spec fn status_named(name: Seq<char>) -> Status {
    if name == "Passive"@ {
        Status::Passive
    } else if name == "NeedsAttention"@ {
        Status::NeedsAttention
    } else {
        Status::Active
    }
}

impl Status {
    pub fn as_str(self) -> (r: &'static str)
        ensures
            r@ == status_name(self),
    {
        match self {
            Status::Passive => "Passive",
            Status::Active => "Active",
            Status::NeedsAttention => "NeedsAttention",
        }
    }

    /// Unknown values map to `Active`, the least surprising default.
    pub fn parse(value: &str) -> (r: Self)
        ensures
            r == status_named(value@),
    {
        if same_text(value, "Passive") {
            Status::Passive
        } else if same_text(value, "NeedsAttention") {
            Status::NeedsAttention
        } else {
            Status::Active
        }
    }
}

/// A status survives being written out and read back.
pub proof fn lemma_status_round_trip(status: Status)
    ensures
        status_named(status_name(status)) == status,
{
    reveal_strlit("Passive");
    reveal_strlit("Active");
    reveal_strlit("NeedsAttention");
    assert("Passive"@.len() == 7 && "Active"@.len() == 6 && "NeedsAttention"@.len() == 14);
}

/// Coarse classification of what the item represents.
#[derive(Clone, Copy, Debug, PartialEq, Eq, Structural)]
pub enum Category {
    ApplicationStatus,
    Communications,
    SystemServices,
    Hardware,
}

pub open spec fn category_name(category: Category) -> Seq<char> {
    match category {
        Category::ApplicationStatus => "ApplicationStatus"@,
        Category::Communications => "Communications"@,
        Category::SystemServices => "SystemServices"@,
        Category::Hardware => "Hardware"@,
    }
}

/// Unknown values map to `ApplicationStatus`.
pub open spec fn category_named(name: Seq<char>) -> Category {
    if name == "Communications"@ {
        Category::Communications
    } else if name == "SystemServices"@ {
        Category::SystemServices
    } else if name == "Hardware"@ {
        Category::Hardware
    } else {
        Category::ApplicationStatus
    }
}

impl Category {
    pub fn as_str(self) -> (r: &'static str)
        ensures
            r@ == category_name(self),
    {
        match self {
            Category::ApplicationStatus => "ApplicationStatus",
            Category::Communications => "Communications",
            Category::SystemServices => "SystemServices",
            Category::Hardware => "Hardware",
        }
    }

    pub fn parse(value: &str) -> (r: Self)
        ensures
            r == category_named(value@),
    {
        if same_text(value, "Communications") {
            Category::Communications
        } else if same_text(value, "SystemServices") {
            Category::SystemServices
        } else if same_text(value, "Hardware") {
            Category::Hardware
        } else {
            Category::ApplicationStatus
        }
    }
}

/// A category survives being written out and read back.
pub proof fn lemma_category_round_trip(category: Category)
    ensures
        category_named(category_name(category)) == category,
{
    reveal_strlit("ApplicationStatus");
    reveal_strlit("Communications");
    reveal_strlit("SystemServices");
    reveal_strlit("Hardware");
    assert("ApplicationStatus"@.len() == 17 && "Communications"@.len() == 14
        && "SystemServices"@.len() == 14 && "Hardware"@.len() == 8);
    assert("Communications"@[0] != "SystemServices"@[0]);
}

/// An icon as the application supplies it: a theme name *and* a list of raw
/// pixmaps, either of which may be empty.
#[derive(Debug, PartialEq)]
pub struct Icon {
    pub name: String,
    pub theme_path: String,
    pub pixmaps: Vec<Pixmap>,
}

/// The mathematical value of an [`Icon`].
pub struct SpecIcon {
    pub name: Seq<char>,
    pub theme_path: Seq<char>,
    pub pixmaps: Seq<SpecPixmap>,
}

impl DeepView for Icon {
    type V = SpecIcon;

    open spec fn deep_view(&self) -> SpecIcon {
        SpecIcon {
            name: self.name@,
            theme_path: self.theme_path@,
            pixmaps: self.pixmaps.deep_view(),
        }
    }
}

impl View for Icon {
    type V = SpecIcon;

    open spec fn view(&self) -> SpecIcon {
        self.deep_view()
    }
}

impl Clone for Icon {
    fn clone(&self) -> (r: Self)
        ensures
            r@ == self@,
    {
        let pixmaps = self.pixmaps.clone();
        assert(pixmaps.deep_view() =~= self.pixmaps.deep_view());
        Icon { name: self.name.clone(), theme_path: self.theme_path.clone(), pixmaps }
    }
}

pub open spec fn empty_icon() -> SpecIcon {
    SpecIcon { name: seq![], theme_path: seq![], pixmaps: seq![] }
}

impl Default for Icon {
    fn default() -> (r: Self)
        ensures
            r@ == empty_icon(),
    {
        let r = Icon { name: String::new(), theme_path: String::new(), pixmaps: Vec::new() };
        assert(r.pixmaps.deep_view() =~= seq![]);
        r
    }
}

/// An icon is empty when it has neither a name nor a usable pixmap.
pub open spec fn icon_empty(icon: SpecIcon) -> bool {
    icon.name.len() == 0 && !(exists|i: int|
        0 <= i < icon.pixmaps.len() && pixmap_valid(#[trigger] icon.pixmaps[i]))
}

impl Icon {
    pub fn is_empty(&self) -> (r: bool)
        ensures
            r == icon_empty(self@),
    {
        if !self.name.as_str().is_empty() {
            return false;
        }
        let mut i: usize = 0;
        while i < self.pixmaps.len()
            invariant
                i <= self.pixmaps@.len(),
                forall|j: int| 0 <= j < i ==> !pixmap_valid(#[trigger] self@.pixmaps[j]),
            decreases self.pixmaps.len() - i,
        {
            if self.pixmaps[i].is_valid() {
                assert(pixmap_valid(self@.pixmaps[i as int]));
                return false;
            }
            i += 1;
        }
        true
    }

    /// The pixmap closest to `target` pixels, if any.
    pub fn best_pixmap(&self, target: u32) -> (r: Option<&Pixmap>)
        ensures
            match r {
                None => best_pick(self@.pixmaps, target) is None,
                Some(p) => best_pick(self@.pixmaps, target) == Some(p@),
            },
    {
        pick_best(self.pixmaps.as_slice(), target)
    }
}

/// The hover tooltip of an item.
#[derive(Debug, PartialEq)]
pub struct ToolTip {
    pub icon_name: String,
    pub icon_pixmaps: Vec<Pixmap>,
    pub title: String,
    pub description: String,
}

/// The mathematical value of a [`ToolTip`].
pub struct SpecToolTip {
    pub icon_name: Seq<char>,
    pub icon_pixmaps: Seq<SpecPixmap>,
    pub title: Seq<char>,
    pub description: Seq<char>,
}

impl DeepView for ToolTip {
    type V = SpecToolTip;

    open spec fn deep_view(&self) -> SpecToolTip {
        SpecToolTip {
            icon_name: self.icon_name@,
            icon_pixmaps: self.icon_pixmaps.deep_view(),
            title: self.title@,
            description: self.description@,
        }
    }
}

impl View for ToolTip {
    type V = SpecToolTip;

    open spec fn view(&self) -> SpecToolTip {
        self.deep_view()
    }
}

impl Clone for ToolTip {
    fn clone(&self) -> (r: Self)
        ensures
            r@ == self@,
    {
        let icon_pixmaps = self.icon_pixmaps.clone();
        assert(icon_pixmaps.deep_view() =~= self.icon_pixmaps.deep_view());
        ToolTip {
            icon_name: self.icon_name.clone(),
            icon_pixmaps,
            title: self.title.clone(),
            description: self.description.clone(),
        }
    }
}

pub open spec fn empty_tooltip() -> SpecToolTip {
    SpecToolTip { icon_name: seq![], icon_pixmaps: seq![], title: seq![], description: seq![] }
}

impl Default for ToolTip {
    fn default() -> (r: Self)
        ensures
            r@ == empty_tooltip(),
    {
        let r = ToolTip {
            icon_name: String::new(),
            icon_pixmaps: Vec::new(),
            title: String::new(),
            description: String::new(),
        };
        assert(r.icon_pixmaps.deep_view() =~= seq![]);
        r
    }
}

/// All properties of a StatusNotifierItem, decoded and defaulted.
#[derive(Debug, PartialEq)]
pub struct ItemProps {
    pub category: Category,
    pub id: String,
    pub title: String,
    pub status: Status,
    pub window_id: u32,
    pub icon_theme_path: String,
    pub icon: Icon,
    pub overlay: Icon,
    pub attention: Icon,
    pub attention_movie: String,
    pub tooltip: ToolTip,
    /// Object path of the item's `com.canonical.dbusmenu`, or empty.
    pub menu_path: String,
    /// When true a left click should open the menu instead of activating.
    pub item_is_menu: bool,
    pub icon_accessible_desc: String,
    pub attention_accessible_desc: String,
    /// Ayatana extension: short text shown next to the icon.
    pub label: String,
    pub label_guide: String,
}

/// The mathematical value of an [`ItemProps`].
pub struct SpecItemProps {
    pub category: Category,
    pub id: Seq<char>,
    pub title: Seq<char>,
    pub status: Status,
    pub window_id: u32,
    pub icon_theme_path: Seq<char>,
    pub icon: SpecIcon,
    pub overlay: SpecIcon,
    pub attention: SpecIcon,
    pub attention_movie: Seq<char>,
    pub tooltip: SpecToolTip,
    pub menu_path: Seq<char>,
    pub item_is_menu: bool,
    pub icon_accessible_desc: Seq<char>,
    pub attention_accessible_desc: Seq<char>,
    pub label: Seq<char>,
    pub label_guide: Seq<char>,
}

impl DeepView for ItemProps {
    type V = SpecItemProps;

    open spec fn deep_view(&self) -> SpecItemProps {
        SpecItemProps {
            category: self.category,
            id: self.id@,
            title: self.title@,
            status: self.status,
            window_id: self.window_id,
            icon_theme_path: self.icon_theme_path@,
            icon: self.icon@,
            overlay: self.overlay@,
            attention: self.attention@,
            attention_movie: self.attention_movie@,
            tooltip: self.tooltip@,
            menu_path: self.menu_path@,
            item_is_menu: self.item_is_menu,
            icon_accessible_desc: self.icon_accessible_desc@,
            attention_accessible_desc: self.attention_accessible_desc@,
            label: self.label@,
            label_guide: self.label_guide@,
        }
    }
}

impl View for ItemProps {
    type V = SpecItemProps;

    open spec fn view(&self) -> SpecItemProps {
        self.deep_view()
    }
}

impl Clone for ItemProps {
    fn clone(&self) -> (r: Self)
        ensures
            r@ == self@,
    {
        ItemProps {
            category: self.category,
            id: self.id.clone(),
            title: self.title.clone(),
            status: self.status,
            window_id: self.window_id,
            icon_theme_path: self.icon_theme_path.clone(),
            icon: self.icon.clone(),
            overlay: self.overlay.clone(),
            attention: self.attention.clone(),
            attention_movie: self.attention_movie.clone(),
            tooltip: self.tooltip.clone(),
            menu_path: self.menu_path.clone(),
            item_is_menu: self.item_is_menu,
            icon_accessible_desc: self.icon_accessible_desc.clone(),
            attention_accessible_desc: self.attention_accessible_desc.clone(),
            label: self.label.clone(),
            label_guide: self.label_guide.clone(),
        }
    }
}

/// The properties of an item that said nothing about itself.
pub open spec fn default_props() -> SpecItemProps {
    SpecItemProps {
        category: Category::ApplicationStatus,
        id: seq![],
        title: seq![],
        status: Status::Active,
        window_id: 0,
        icon_theme_path: seq![],
        icon: empty_icon(),
        overlay: empty_icon(),
        attention: empty_icon(),
        attention_movie: seq![],
        tooltip: empty_tooltip(),
        menu_path: seq![],
        item_is_menu: false,
        icon_accessible_desc: seq![],
        attention_accessible_desc: seq![],
        label: seq![],
        label_guide: seq![],
    }
}

impl Default for ItemProps {
    fn default() -> (r: Self)
        ensures
            r@ == default_props(),
    {
        ItemProps {
            category: Category::ApplicationStatus,
            id: String::new(),
            title: String::new(),
            status: Status::Active,
            window_id: 0,
            icon_theme_path: String::new(),
            icon: Icon::default(),
            overlay: Icon::default(),
            attention: Icon::default(),
            attention_movie: String::new(),
            tooltip: ToolTip::default(),
            menu_path: String::new(),
            item_is_menu: false,
            icon_accessible_desc: String::new(),
            attention_accessible_desc: String::new(),
            label: String::new(),
            label_guide: String::new(),
        }
    }
}

/// Whether two icons are equal.
pub fn same_icon(a: &Icon, b: &Icon) -> (r: bool)
    ensures
        r == (a@ == b@),
{
    same_text(a.name.as_str(), b.name.as_str()) && same_text(
        a.theme_path.as_str(),
        b.theme_path.as_str(),
    ) && same_pixmaps(&a.pixmaps, &b.pixmaps)
}

/// Whether two tooltips are equal.
pub fn same_tooltip(a: &ToolTip, b: &ToolTip) -> (r: bool)
    ensures
        r == (a@ == b@),
{
    same_text(a.icon_name.as_str(), b.icon_name.as_str()) && same_pixmaps(
        &a.icon_pixmaps,
        &b.icon_pixmaps,
    ) && same_text(a.title.as_str(), b.title.as_str()) && same_text(
        a.description.as_str(),
        b.description.as_str(),
    )
}

/// Whether two sets of item properties are equal.
pub fn same_props(a: &ItemProps, b: &ItemProps) -> (r: bool)
    ensures
        r == (a@ == b@),
{
    a.category == b.category && same_text(a.id.as_str(), b.id.as_str()) && same_text(
        a.title.as_str(),
        b.title.as_str(),
    ) && a.status == b.status && a.window_id == b.window_id && same_text(
        a.icon_theme_path.as_str(),
        b.icon_theme_path.as_str(),
    ) && same_icon(&a.icon, &b.icon) && same_icon(&a.overlay, &b.overlay) && same_icon(
        &a.attention,
        &b.attention,
    ) && same_text(a.attention_movie.as_str(), b.attention_movie.as_str()) && same_tooltip(
        &a.tooltip,
        &b.tooltip,
    ) && same_text(a.menu_path.as_str(), b.menu_path.as_str()) && a.item_is_menu
        == b.item_is_menu && same_text(
        a.icon_accessible_desc.as_str(),
        b.icon_accessible_desc.as_str(),
    ) && same_text(a.attention_accessible_desc.as_str(), b.attention_accessible_desc.as_str())
        && same_text(a.label.as_str(), b.label.as_str()) && same_text(
        a.label_guide.as_str(),
        b.label_guide.as_str(),
    )
}

/// One property assignment folded into the properties. Unknown properties
/// are ignored so that spec additions do not break older trays.
pub open spec fn props_with(p: SpecItemProps, name: Seq<char>, v: SpecPropValue) -> SpecItemProps {
    if name == "Category"@ {
        SpecItemProps { category: category_named(prop_text(v)), ..p }
    } else if name == "Id"@ {
        SpecItemProps { id: prop_text(v), ..p }
    } else if name == "Title"@ {
        SpecItemProps { title: prop_text(v), ..p }
    } else if name == "Status"@ {
        SpecItemProps { status: status_named(prop_text(v)), ..p }
    } else if name == "WindowId"@ {
        SpecItemProps {
            window_id: match prop_int(v) {
                Some(i) => i as u32,
                None => 0,
            },
            ..p
        }
    } else if name == "IconThemePath"@ {
        let path = prop_text(v);
        SpecItemProps {
            icon_theme_path: path,
            icon: SpecIcon { theme_path: path, ..p.icon },
            overlay: SpecIcon { theme_path: path, ..p.overlay },
            attention: SpecIcon { theme_path: path, ..p.attention },
            ..p
        }
    } else if name == "IconName"@ {
        SpecItemProps { icon: SpecIcon { name: prop_text(v), ..p.icon }, ..p }
    } else if name == "IconPixmap"@ {
        SpecItemProps { icon: SpecIcon { pixmaps: prop_pixmaps(v), ..p.icon }, ..p }
    } else if name == "OverlayIconName"@ {
        SpecItemProps { overlay: SpecIcon { name: prop_text(v), ..p.overlay }, ..p }
    } else if name == "OverlayIconPixmap"@ {
        SpecItemProps { overlay: SpecIcon { pixmaps: prop_pixmaps(v), ..p.overlay }, ..p }
    } else if name == "AttentionIconName"@ {
        SpecItemProps { attention: SpecIcon { name: prop_text(v), ..p.attention }, ..p }
    } else if name == "AttentionIconPixmap"@ {
        SpecItemProps { attention: SpecIcon { pixmaps: prop_pixmaps(v), ..p.attention }, ..p }
    } else if name == "AttentionMovieName"@ {
        SpecItemProps { attention_movie: prop_text(v), ..p }
    } else if name == "IconAccessibleDesc"@ {
        SpecItemProps { icon_accessible_desc: prop_text(v), ..p }
    } else if name == "AttentionAccessibleDesc"@ {
        SpecItemProps { attention_accessible_desc: prop_text(v), ..p }
    } else if name == "ItemIsMenu"@ {
        SpecItemProps { item_is_menu: prop_bool(v, false), ..p }
    } else if name == "Menu"@ {
        SpecItemProps { menu_path: prop_text(v), ..p }
    } else if name == "XAyatanaLabel"@ {
        SpecItemProps { label: prop_text(v), ..p }
    } else if name == "XAyatanaLabelGuide"@ {
        SpecItemProps { label_guide: prop_text(v), ..p }
    } else if name == "ToolTip"@ {
        match v {
            SpecPropValue::ToolTip(t) => SpecItemProps { tooltip: t, ..p },
            _ => p,
        }
    } else {
        p
    }
}

/// A whole property dictionary folded into the properties, in order.
pub open spec fn props_with_all(p: SpecItemProps, map: Seq<(Seq<char>, SpecPropValue)>) -> SpecItemProps
    decreases map.len(),
{
    if map.len() == 0 {
        p
    } else {
        let (name, value) = map.last();
        props_with(props_with_all(p, map.drop_last()), name, value)
    }
}

fn text_of(value: &PropValue) -> (r: String)
    ensures
        r@ == prop_text(value@),
{
    match value.as_str() {
        Some(text) => text.to_owned(),
        None => String::new(),
    }
}

fn pixmaps_of(value: &PropValue) -> (r: Vec<Pixmap>)
    ensures
        r.deep_view() == prop_pixmaps(value@),
{
    match value {
        PropValue::Pixmaps(pixmaps) => {
            let r = pixmaps.clone();
            assert(r.deep_view() =~= pixmaps.deep_view());
            r
        },
        _ => {
            let r: Vec<Pixmap> = Vec::new();
            assert(r.deep_view() =~= seq![]);
            r
        },
    }
}

/// The text an item is announced under: the attention description while it
/// needs attention, else its icon description, its label or its title, and
/// its id when all of those are empty.
pub open spec fn accessible_name_of(p: SpecItemProps) -> Seq<char> {
    let name = if p.status == Status::NeedsAttention && p.attention_accessible_desc.len() > 0 {
        p.attention_accessible_desc
    } else if p.icon_accessible_desc.len() > 0 {
        p.icon_accessible_desc
    } else if p.label.len() > 0 {
        p.label
    } else {
        p.title
    };
    if name.len() == 0 {
        p.id
    } else {
        name
    }
}

/// The icon shown right now: the attention icon while the item needs
/// attention and has one, otherwise the normal icon.
pub open spec fn effective_icon_of(p: SpecItemProps) -> SpecIcon {
    if p.status == Status::NeedsAttention && !icon_empty(p.attention) {
        p.attention
    } else {
        p.icon
    }
}

/// An item exposes a menu unless it has no menu path or the marker path that
/// says it has none.
pub open spec fn has_menu_of(p: SpecItemProps) -> bool {
    p.menu_path.len() > 0 && p.menu_path != "/NO_DBUSMENU"@
}

impl ItemProps {
    pub fn from_map(map: PropMap) -> (r: Self)
        ensures
            r@ == props_with_all(default_props(), map.deep_view()),
    {
        Self::default().with_properties(&map)
    }

    /// Fold a whole property dictionary into a copy of `self`.
    pub fn with_properties(self, properties: &PropMap) -> (r: Self)
        ensures
            r@ == props_with_all(self@, properties.deep_view()),
    {
        let ghost start = self@;
        let mut props = self;
        let mut i: usize = 0;
        assert(properties.deep_view().take(0) =~= seq![]);
        while i < properties.len()
            invariant
                i <= properties@.len(),
                props@ == props_with_all(start, properties.deep_view().take(i as int)),
            decreases properties.len() - i,
        {
            let (name, value) = &properties[i];
            assert(properties.deep_view().take(i + 1).drop_last() =~= properties.deep_view().take(
                i as int,
            ));
            assert(properties.deep_view().take(i + 1).last() == properties.deep_view()[i as int]);
            props = props.with_property(name.as_str(), value.clone());
            i += 1;
        }
        assert(properties.deep_view().take(properties@.len() as int) =~= properties.deep_view());
        props
    }

    /// Fold one assignment into a copy of `self`. Unknown properties are
    /// ignored so that spec additions do not break older trays.
    pub fn with_property(self, name: &str, value: PropValue) -> (r: Self)
        ensures
            r@ == props_with(self@, name@, value@),
    {
        let mut p = self;
        if same_text(name, "Category") {
            p.category = Category::parse(text_of(&value).as_str());
        } else if same_text(name, "Id") {
            p.id = text_of(&value);
        } else if same_text(name, "Title") {
            p.title = text_of(&value);
        } else if same_text(name, "Status") {
            p.status = Status::parse(text_of(&value).as_str());
        } else if same_text(name, "WindowId") {
            p.window_id = match value.as_int() {
                Some(i) => i as u32,
                None => 0,
            };
        } else if same_text(name, "IconThemePath") {
            p.icon_theme_path = text_of(&value);
            let path = p.icon_theme_path.clone();
            p.icon.theme_path = path.clone();
            p.overlay.theme_path = path.clone();
            p.attention.theme_path = path;
        } else if same_text(name, "IconName") {
            p.icon.name = text_of(&value);
        } else if same_text(name, "IconPixmap") {
            p.icon.pixmaps = pixmaps_of(&value);
        } else if same_text(name, "OverlayIconName") {
            p.overlay.name = text_of(&value);
        } else if same_text(name, "OverlayIconPixmap") {
            p.overlay.pixmaps = pixmaps_of(&value);
        } else if same_text(name, "AttentionIconName") {
            p.attention.name = text_of(&value);
        } else if same_text(name, "AttentionIconPixmap") {
            p.attention.pixmaps = pixmaps_of(&value);
        } else if same_text(name, "AttentionMovieName") {
            p.attention_movie = text_of(&value);
        } else if same_text(name, "IconAccessibleDesc") {
            p.icon_accessible_desc = text_of(&value);
        } else if same_text(name, "AttentionAccessibleDesc") {
            p.attention_accessible_desc = text_of(&value);
        } else if same_text(name, "ItemIsMenu") {
            p.item_is_menu = match value.as_bool() {
                Some(b) => b,
                None => false,
            };
        } else if same_text(name, "Menu") {
            p.menu_path = text_of(&value);
        } else if same_text(name, "XAyatanaLabel") {
            p.label = text_of(&value);
        } else if same_text(name, "XAyatanaLabelGuide") {
            p.label_guide = text_of(&value);
        } else if same_text(name, "ToolTip") {
            if let PropValue::ToolTip(tooltip) = value {
                p.tooltip = *tooltip;
            }
        }
        p
    }

    /// The icon to display right now: items that need attention show their
    /// attention icon when they have one.
    pub fn effective_icon(&self) -> (r: &Icon)
        ensures
            r@ == effective_icon_of(self@),
    {
        if self.status == Status::NeedsAttention && !self.attention.is_empty() {
            &self.attention
        } else {
            &self.icon
        }
    }

    /// Per the spec, `Passive` items must not be shown.
    pub fn is_visible(&self) -> (r: bool)
        ensures
            r == (self.status != Status::Passive),
    {
        self.status != Status::Passive
    }

    /// Text used by assistive technologies and as a fallback title.
    pub fn accessible_name(&self) -> (r: &str)
        ensures
            r@ == accessible_name_of(self@),
    {
        let name: &str = if self.status == Status::NeedsAttention
            && !self.attention_accessible_desc.as_str().is_empty() {
            self.attention_accessible_desc.as_str()
        } else if !self.icon_accessible_desc.as_str().is_empty() {
            self.icon_accessible_desc.as_str()
        } else if !self.label.as_str().is_empty() {
            self.label.as_str()
        } else {
            self.title.as_str()
        };
        if name.is_empty() {
            self.id.as_str()
        } else {
            name
        }
    }

    /// True when the item exposes a menu we can show.
    pub fn has_menu(&self) -> (r: bool)
        ensures
            r == has_menu_of(self@),
    {
        !self.menu_path.as_str().is_empty() && !same_text(self.menu_path.as_str(), NO_DBUSMENU_PATH)
    }
}

/// Where a tray item lives on the bus.
#[derive(Debug, PartialEq, Eq)]
pub struct ServiceRef {
    pub bus_name: String,
    pub object_path: String,
}

/// The mathematical value of a [`ServiceRef`].
pub struct SpecServiceRef {
    pub bus_name: Seq<char>,
    pub object_path: Seq<char>,
}

impl DeepView for ServiceRef {
    type V = SpecServiceRef;

    open spec fn deep_view(&self) -> SpecServiceRef {
        SpecServiceRef { bus_name: self.bus_name@, object_path: self.object_path@ }
    }
}

impl View for ServiceRef {
    type V = SpecServiceRef;

    open spec fn view(&self) -> SpecServiceRef {
        self.deep_view()
    }
}

impl Clone for ServiceRef {
    fn clone(&self) -> (r: Self)
        ensures
            r@ == self@,
    {
        ServiceRef { bus_name: self.bus_name.clone(), object_path: self.object_path.clone() }
    }
}

/// Whether two services are the same.
pub fn same_service(a: &ServiceRef, b: &ServiceRef) -> (r: bool)
    ensures
        r == (a@ == b@),
{
    same_text(a.bus_name.as_str(), b.bus_name.as_str()) && same_text(
        a.object_path.as_str(),
        b.object_path.as_str(),
    )
}

/// `k` is where `c` first occurs in `s`.
pub open spec fn is_first(s: Seq<char>, c: char, k: int) -> bool {
    0 <= k < s.len() && s[k] == c && forall|j: int| 0 <= j < k ==> s[j] != c
}

/// An object path as the registration spells it, made absolute: empty means
/// the default item path, and leading slashes collapse into one.
pub open spec fn normal_path(p: Seq<char>) -> Seq<char> {
    if p.len() == 0 {
        "/StatusNotifierItem"@
    } else {
        seq!['/'] + trim_start_char(p, '/')
    }
}

/// The service a `RegisterStatusNotifierItem` argument names, for a caller
/// with unique name `caller`.
pub open spec fn resolved(service: Seq<char>, caller: Seq<char>) -> SpecServiceRef {
    let s = trim(service);
    if s.len() == 0 {
        SpecServiceRef { bus_name: caller, object_path: "/StatusNotifierItem"@ }
    } else if exists|k: int| is_first(s, '/', k) {
        let k = choose|k: int| is_first(s, '/', k);
        let bus = s.take(k);
        let path = normal_path(s.skip(k + 1));
        if bus.len() == 0 {
            SpecServiceRef { bus_name: caller, object_path: path }
        } else {
            SpecServiceRef { bus_name: bus, object_path: path }
        }
    } else {
        SpecServiceRef { bus_name: s, object_path: "/StatusNotifierItem"@ }
    }
}

fn normalize_path(object_path: &str) -> (r: String)
    ensures
        r@ == normal_path(object_path@),
{
    let v = chars_of(object_path);
    if v.len() == 0 {
        return DEFAULT_ITEM_PATH.to_owned();
    }
    let mut i: usize = 0;
    assert(v@.skip(0) =~= v@);
    while i < v.len() && v[i] == '/'
        invariant
            i <= v@.len(),
            v@ == object_path@,
            trim_start_char(v@, '/') == trim_start_char(v@.skip(i as int), '/'),
        decreases v.len() - i,
    {
        assert(v@.skip(i as int).drop_first() =~= v@.skip(i + 1));
        i += 1;
    }
    let rest = string_of(&v, i, v.len());
    assert(rest@ =~= v@.skip(i as int));
    proof {
        reveal_strlit("/");
    }
    concat("/", rest.as_str())
}

impl ServiceRef {
    /// Resolve the `service` argument of `RegisterStatusNotifierItem`.
    ///
    /// The spec allows three spellings, depending on how much the client
    /// bothers to say about itself:
    ///
    /// * `"/Some/Path"` — path on the caller's own connection,
    /// * `"bus.name/Some/Path"` — explicit bus name and path,
    /// * `"bus.name"` — explicit bus name, default item path.
    pub fn resolve(service: &str, caller: &str) -> (r: Self)
        ensures
            r@ == resolved(service@, caller@),
    {
        let service = trimmed(service);
        let v = chars_of(service.as_str());
        if v.len() == 0 {
            return Self { bus_name: caller.to_owned(), object_path: DEFAULT_ITEM_PATH.to_owned() };
        }
        let mut k: usize = 0;
        while k < v.len() && v[k] != '/'
            invariant
                k <= v@.len(),
                forall|j: int| 0 <= j < k ==> v@[j] != '/',
            decreases v.len() - k,
        {
            k += 1;
        }
        if k < v.len() {
            assert(is_first(v@, '/', k as int));
            assert forall|m: int| is_first(v@, '/', m) implies m == k by {
                if m < k {
                    assert(v@[m] != '/');
                } else if m > k {
                    assert(v@[k as int] == '/');
                }
            }
            let bus_name = string_of(&v, 0, k);
            let path = string_of(&v, k + 1, v.len());
            assert(bus_name@ =~= v@.take(k as int));
            assert(path@ =~= v@.skip(k + 1));
            let object_path = normalize_path(path.as_str());
            if bus_name.as_str().is_empty() {
                Self { bus_name: caller.to_owned(), object_path }
            } else {
                Self { bus_name, object_path }
            }
        } else {
            assert(!exists|m: int| is_first(v@, '/', m));
            Self { bus_name: service, object_path: DEFAULT_ITEM_PATH.to_owned() }
        }
    }

    /// The spelling other clients see: `bus.name/Object/Path`. Used by
    /// `RegisteredStatusNotifierItems` and by the registration signals of the
    /// watcher, and accepted again by [`ServiceRef::resolve`].
    pub fn registration_id(&self) -> (r: String)
        ensures
            r@ == self@.bus_name + self@.object_path,
    {
        concat(self.bus_name.as_str(), self.object_path.as_str())
    }
}

/// A service named by its registration id resolves back to itself, whoever
/// the caller is, as long as the id can be read one way only: a non-empty bus
/// name without slashes and an absolute object path, with no white space at
/// either end.
pub proof fn lemma_registration_id_round_trip(s: SpecServiceRef, caller: Seq<char>)
    requires
        s.bus_name.len() > 0,
        !is_white_space(s.bus_name[0]),
        forall|j: int| 0 <= j < s.bus_name.len() ==> s.bus_name[j] != '/',
        s.object_path.len() >= 2,
        s.object_path[0] == '/',
        s.object_path[1] != '/',
        !is_white_space(s.object_path.last()),
    ensures
        resolved(s.bus_name + s.object_path, caller) == s,
{
    let t = s.bus_name + s.object_path;
    let n = s.bus_name.len() as int;
    assert(t[0] == s.bus_name[0]);
    assert(t.last() == s.object_path.last());
    assert(trim_start(t) == t);
    assert(trim_end(t) == t);
    assert(t[n] == '/');
    assert(is_first(t, '/', n));
    assert forall|m: int| is_first(t, '/', m) implies m == n by {
        if m < n {
            assert(t[m] == s.bus_name[m]);
        } else if m > n {
            assert(t[n] == '/');
        }
    }
    let k = choose|k: int| is_first(t, '/', k);
    assert(k == n);
    assert(t.take(k) =~= s.bus_name);
    let rest = t.skip(k + 1);
    assert(rest =~= s.object_path.skip(1));
    assert(rest[0] == s.object_path[1]);
    assert(trim_start_char(rest, '/') == rest);
    assert(seq!['/'] + rest =~= s.object_path);
}

/// How an item is named to the user: while it needs attention, by its
/// attention description when it has one; else by its icon description,
/// else by its label, else by its title; and by its id only when all of
/// those are empty.
pub proof fn lemma_accessible_name(p: SpecItemProps)
    ensures
        p.status == Status::NeedsAttention && p.attention_accessible_desc.len() > 0
            ==> accessible_name_of(p) == p.attention_accessible_desc,
        !(p.status == Status::NeedsAttention && p.attention_accessible_desc.len() > 0)
            && p.icon_accessible_desc.len() > 0 ==> accessible_name_of(p) == p.icon_accessible_desc,
        p.attention_accessible_desc.len() == 0 && p.icon_accessible_desc.len() == 0
            && p.label.len() > 0 ==> accessible_name_of(p) == p.label,
        p.attention_accessible_desc.len() == 0 && p.icon_accessible_desc.len() == 0
            && p.label.len() == 0 && p.title.len() > 0 ==> accessible_name_of(p) == p.title,
        p.attention_accessible_desc.len() == 0 && p.icon_accessible_desc.len() == 0
            && p.label.len() == 0 && p.title.len() == 0 ==> accessible_name_of(p) == p.id,
        accessible_name_of(p).len() == 0 ==> p.title.len() == 0 && p.id.len() == 0,
{
}

} // verus!
