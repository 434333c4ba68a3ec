//! The data contract shared with the GNOME Shell extension and the settings
//! app over D-Bus.
//!
//! These types are deliberately dumb records: they carry a fully resolved,
//! self-contained picture of one tray item or one menu so that the shell can
//! render them without knowing anything about StatusNotifierItem. All
//! decisions — which pixmap to use, how overlays blend, what a menu node means
//! — have already been made in this crate.

use vstd::prelude::*;

use crate::icon::{best_pick, composite, composited, pixmap_valid, Pixmap, SpecPixmap};
use crate::menu::{
    found_among, found_in, kind_name, leaf, same_chords, toggle_state_number, toggle_type_name, MenuNode,
    MenuTree, NodeKind, SpecMenuNode, SpecMenuTree, ToggleState, ToggleType, ROOT_ID,
    kind_named, toggle_state_of, toggle_type_named,
};
use crate::model::{Item, SpecItem};
use crate::props::clone_string_lists;
use crate::sni::{
    accessible_name_of, effective_icon_of, has_menu_of, icon_empty, status_name, Icon, SpecIcon,
    SpecToolTip, ToolTip,
};

verus! {

/// One icon, ready to paint.
///
/// `data` holds raw ARGB32 pixels in network byte order (`width * 4` bytes
/// per row), which is what `St.ImageContent` and `gdk::MemoryTexture` both
/// accept directly. `name` is only filled in when the application supplied no
/// pixel data at all and the theme has to be consulted instead.
#[derive(Debug, PartialEq, Eq)]
pub struct IconView {
    pub name: String,
    pub theme_path: String,
    pub width: i32,
    pub height: i32,
    pub row_stride: i32,
    pub data: Vec<u8>,
}

/// The mathematical value of an [`IconView`].
pub struct SpecIconView {
    pub name: Seq<char>,
    pub theme_path: Seq<char>,
    pub width: i32,
    pub height: i32,
    pub row_stride: i32,
    pub data: Seq<u8>,
}

impl View for IconView {
    type V = SpecIconView;

    open spec fn view(&self) -> SpecIconView {
        SpecIconView {
            name: self.name@,
            theme_path: self.theme_path@,
            width: self.width,
            height: self.height,
            row_stride: self.row_stride,
            data: self.data@,
        }
    }
}

impl DeepView for IconView {
    type V = SpecIconView;

    open spec fn deep_view(&self) -> SpecIconView {
        self@
    }
}

impl Clone for IconView {
    fn clone(&self) -> (r: Self)
        ensures
            r@ == self@,
    {
        IconView {
            name: self.name.clone(),
            theme_path: self.theme_path.clone(),
            width: self.width,
            height: self.height,
            row_stride: self.row_stride,
            data: self.data.clone(),
        }
    }
}

/// An icon that only names a theme icon.
pub open spec fn named_icon(name: Seq<char>, theme_path: Seq<char>) -> SpecIconView {
    SpecIconView { name, theme_path, width: 0, height: 0, row_stride: 0, data: seq![] }
}

impl Default for IconView {
    fn default() -> (r: Self)
        ensures
            r@ == named_icon(seq![], seq![]),
    {
        let r = IconView {
            name: String::new(),
            theme_path: String::new(),
            width: 0,
            height: 0,
            row_stride: 0,
            data: Vec::new(),
        };
        assert(r@.data =~= seq![]);
        r
    }
}

/// An icon carrying the pixels of `p`.
pub open spec fn pixmap_icon(p: SpecPixmap) -> SpecIconView {
    SpecIconView {
        name: seq![],
        theme_path: seq![],
        width: p.width,
        height: p.height,
        row_stride: (p.width * 4) as i32,
        data: p.data,
    }
}

/// The icon shown for `base` with `overlay` drawn on top at `target` pixels:
/// the best pixmap of each, composited, or the theme name when the base has
/// no usable pixmap.
pub open spec fn resolved_icon(base: SpecIcon, overlay: Option<SpecIcon>, target: u32) -> SpecIconView {
    match best_pick(base.pixmaps, target) {
        Some(p) => {
            let merged = match overlay {
                Some(o) => match best_pick(o.pixmaps, target) {
                    Some(q) => composited(p, q),
                    None => p,
                },
                None => p,
            };
            pixmap_icon(merged)
        },
        None => named_icon(base.name, base.theme_path),
    }
}

impl IconView {
    /// Resolve `base` (with `overlay` drawn on top) at `target` pixels.
    ///
    /// Pixel data wins over theme names: it is what the application drew,
    /// it lets overlays be blended here rather than in two different GUI
    /// toolkits, and it needs no icon theme lookups. Theme names are kept as
    /// a fallback for applications that only name their icon.
    pub fn resolve(base: &Icon, overlay: Option<&Icon>, target: u32) -> (r: Self)
        ensures
            r@ == resolved_icon(base@, overlay.deep_view(), target),
    {
        match base.best_pixmap(target) {
            Some(pixmap) => {
                let merged = match overlay {
                    Some(o) => match o.best_pixmap(target) {
                        Some(top) => composite(pixmap, top),
                        None => pixmap.clone(),
                    },
                    None => pixmap.clone(),
                };
                proof {
                    let ghost chosen = best_pick(base@.pixmaps, target);
                    let i = choose|i: int| crate::icon::is_pick(base@.pixmaps, target, i);
                    assert(pixmap_valid(base@.pixmaps[i]));
                    assert(pixmap_valid(merged@));
                    assert(merged.data.len() == merged@.data.len());
                    assert(merged@.width * 4 <= merged@.width * merged@.height * 4) by (nonlinear_arith)
                        requires
                            merged@.width > 0,
                            merged@.height > 0,
                    ;
                }
                Self::from_pixmap(&merged)
            },
            None => Self::named(base.name.as_str(), base.theme_path.as_str()),
        }
    }

    pub fn from_pixmap(pixmap: &Pixmap) -> (r: Self)
        requires
            0 <= pixmap.width,
            pixmap.width * 4 <= usize::MAX,
        ensures
            r@ == pixmap_icon(pixmap@),
    {
        Self {
            name: String::new(),
            theme_path: String::new(),
            width: pixmap.width,
            height: pixmap.height,
            row_stride: pixmap.row_stride() as i32,
            data: pixmap.data.clone(),
        }
    }

    pub fn named(name: &str, theme_path: &str) -> (r: Self)
        ensures
            r@ == named_icon(name@, theme_path@),
    {
        let r = Self {
            name: name.to_owned(),
            theme_path: theme_path.to_owned(),
            width: 0,
            height: 0,
            row_stride: 0,
            data: Vec::new(),
        };
        assert(r@.data =~= seq![]);
        r
    }

    pub fn is_empty(&self) -> (r: bool)
        ensures
            r == (self@.name.len() == 0 && self@.data.len() == 0),
    {
        self.name.as_str().is_empty() && self.data.len() == 0
    }

    /// The pixels, if this icon carries any.
    pub fn to_pixmap(&self) -> (r: Option<Pixmap>)
        ensures
            match r {
                Some(p) => self@.data.len() > 0 && p@ == (SpecPixmap {
                    width: self@.width,
                    height: self@.height,
                    data: self@.data,
                }),
                None => self@.data.len() == 0,
            },
    {
        if self.data.len() == 0 {
            None
        } else {
            Some(Pixmap::new(self.width, self.height, self.data.clone()))
        }
    }
}

/// One tray item as the panel shows it.
#[derive(Debug, PartialEq)]
pub struct ItemView {
    /// Stable key used for configuration (hide, reorder).
    pub key: String,
    /// The application's own id, e.g. `"steam"`.
    pub app_id: String,
    pub title: String,
    pub tooltip: String,
    /// `"Passive"`, `"Active"` or `"NeedsAttention"`.
    pub status: String,
    pub accessible_name: String,
    pub has_menu: bool,
    /// A left click should open the menu instead of activating the item.
    pub item_is_menu: bool,
    pub icon: IconView,
}

/// The mathematical value of an [`ItemView`].
pub struct SpecItemView {
    pub key: Seq<char>,
    pub app_id: Seq<char>,
    pub title: Seq<char>,
    pub tooltip: Seq<char>,
    pub status: Seq<char>,
    pub accessible_name: Seq<char>,
    pub has_menu: bool,
    pub item_is_menu: bool,
    pub icon: SpecIconView,
}

impl View for ItemView {
    type V = SpecItemView;

    open spec fn view(&self) -> SpecItemView {
        SpecItemView {
            key: self.key@,
            app_id: self.app_id@,
            title: self.title@,
            tooltip: self.tooltip@,
            status: self.status@,
            accessible_name: self.accessible_name@,
            has_menu: self.has_menu,
            item_is_menu: self.item_is_menu,
            icon: self.icon@,
        }
    }
}

impl DeepView for ItemView {
    type V = SpecItemView;

    open spec fn deep_view(&self) -> SpecItemView {
        self@
    }
}

impl Clone for ItemView {
    fn clone(&self) -> (r: Self)
        ensures
            r@ == self@,
    {
        ItemView {
            key: self.key.clone(),
            app_id: self.app_id.clone(),
            title: self.title.clone(),
            tooltip: self.tooltip.clone(),
            status: self.status.clone(),
            accessible_name: self.accessible_name.clone(),
            has_menu: self.has_menu,
            item_is_menu: self.item_is_menu,
            icon: self.icon.clone(),
        }
    }
}

/// A copy of a list of item views.
pub fn clone_item_views(v: &Vec<ItemView>) -> (r: Vec<ItemView>)
    ensures
        r.deep_view() == v.deep_view(),
{
    let mut r: Vec<ItemView> = Vec::new();
    let mut i: usize = 0;
    while i < v.len()
        invariant
            i <= v@.len(),
            r.deep_view() == v.deep_view().take(i as int),
        decreases v.len() - i,
    {
        let c = v[i].clone();
        let ghost before = r.deep_view();
        r.push(c);
        assert(r.deep_view() =~= before.push(v.deep_view()[i as int]));
        assert(v.deep_view().take(i + 1) =~= v.deep_view().take(i as int).push(v.deep_view()[i as int]));
        i += 1;
    }
    assert(v.deep_view().take(v@.len() as int) =~= v.deep_view());
    r
}

/// The tooltip text shown: the description, or the title without one.
pub open spec fn tooltip_text_of(t: SpecToolTip) -> Seq<char> {
    if t.description.len() == 0 {
        t.title
    } else {
        t.description
    }
}

/// How the panel shows `item` at `size` device pixels.
pub open spec fn item_view_of(item: SpecItem, size: u32) -> SpecItemView {
    let props = item.props;
    SpecItemView {
        key: item.key,
        app_id: props.id,
        title: props.title,
        tooltip: tooltip_text_of(props.tooltip),
        status: status_name(props.status),
        accessible_name: accessible_name_of(props),
        has_menu: has_menu_of(props),
        item_is_menu: props.item_is_menu,
        icon: resolved_icon(
            effective_icon_of(props),
            if icon_empty(props.overlay) {
                None
            } else {
                Some(props.overlay)
            },
            size,
        ),
    }
}

impl ItemView {
    pub fn of(item: &Item, icon_pixel_size: u32) -> (r: Self)
        ensures
            r@ == item_view_of(item@, icon_pixel_size),
    {
        let props = &item.props;
        let overlay = if props.overlay.is_empty() {
            None
        } else {
            Some(&props.overlay)
        };
        Self {
            key: item.key.to_string(),
            app_id: props.id.clone(),
            title: props.title.clone(),
            tooltip: tooltip_text(&props.tooltip),
            status: props.status.as_str().to_owned(),
            accessible_name: props.accessible_name().to_owned(),
            has_menu: props.has_menu(),
            item_is_menu: props.item_is_menu,
            icon: IconView::resolve(props.effective_icon(), overlay, icon_pixel_size),
        }
    }
}

fn tooltip_text(tooltip: &ToolTip) -> (r: String)
    ensures
        r@ == tooltip_text_of(tooltip@),
{
    if tooltip.description.as_str().is_empty() {
        tooltip.title.clone()
    } else {
        tooltip.description.clone()
    }
}

/// One menu entry. Nodes are sent as a flat, pre-order list with parent ids
/// rather than as a recursive tree, which keeps the D-Bus signature simple
/// for the JavaScript side.
#[derive(Debug, PartialEq)]
pub struct MenuNodeView {
    pub id: i32,
    pub parent: i32,
    /// `"standard"` or `"separator"`.
    pub kind: String,
    /// Label with the access key marker already stripped.
    pub label: String,
    pub enabled: bool,
    pub visible: bool,
    /// `-1` (not checkable), `0` (off) or `1` (on).
    pub toggle_state: i32,
    /// `"none"`, `"checkmark"` or `"radio"`.
    pub toggle_type: String,
    pub icon_name: String,
    /// Key chords like `[["Control", "Q"]]`.
    pub shortcut: Vec<Vec<String>>,
    pub has_children: bool,
}

/// The mathematical value of a [`MenuNodeView`].
pub struct SpecMenuNodeView {
    pub id: i32,
    pub parent: i32,
    pub kind: Seq<char>,
    pub label: Seq<char>,
    pub enabled: bool,
    pub visible: bool,
    pub toggle_state: i32,
    pub toggle_type: Seq<char>,
    pub icon_name: Seq<char>,
    pub shortcut: Seq<Seq<Seq<char>>>,
    pub has_children: bool,
}

impl View for MenuNodeView {
    type V = SpecMenuNodeView;

    open spec fn view(&self) -> SpecMenuNodeView {
        SpecMenuNodeView {
            id: self.id,
            parent: self.parent,
            kind: self.kind@,
            label: self.label@,
            enabled: self.enabled,
            visible: self.visible,
            toggle_state: self.toggle_state,
            toggle_type: self.toggle_type@,
            icon_name: self.icon_name@,
            shortcut: self.shortcut.deep_view(),
            has_children: self.has_children,
        }
    }
}

impl DeepView for MenuNodeView {
    type V = SpecMenuNodeView;

    open spec fn deep_view(&self) -> SpecMenuNodeView {
        self@
    }
}

/// How a node is sent, under parent `parent`.
pub open spec fn node_entry(n: SpecMenuNode, parent: i32) -> SpecMenuNodeView {
    SpecMenuNodeView {
        id: n.id,
        parent,
        kind: kind_name(n.kind),
        label: n.label,
        enabled: n.enabled,
        visible: n.visible,
        toggle_state: toggle_state_number(n.toggle_state),
        toggle_type: toggle_type_name(n.toggle_type),
        icon_name: n.icon_name,
        shortcut: n.shortcut,
        has_children: n.children.len() > 0,
    }
}

impl MenuNodeView {
    pub fn of(node: &MenuNode, parent: i32) -> (r: Self)
        ensures
            r@ == node_entry(node@, parent),
    {
        Self {
            id: node.id,
            parent,
            kind: node.kind.as_str().to_owned(),
            label: node.label.clone(),
            enabled: node.enabled,
            visible: node.visible,
            toggle_state: node.toggle_state.as_i32(),
            toggle_type: node.toggle_type.as_str().to_owned(),
            icon_name: node.icon_name.clone(),
            shortcut: clone_string_lists(&node.shortcut),
            has_children: node.children.len() != 0,
        }
    }
}

/// A whole menu for one item.
#[derive(Debug, PartialEq)]
pub struct MenuView {
    pub key: String,
    pub revision: u64,
    pub nodes: Vec<MenuNodeView>,
}

/// The mathematical value of a [`MenuView`].
pub struct SpecMenuView {
    pub key: Seq<char>,
    pub revision: u64,
    pub nodes: Seq<SpecMenuNodeView>,
}

impl View for MenuView {
    type V = SpecMenuView;

    open spec fn view(&self) -> SpecMenuView {
        SpecMenuView { key: self.key@, revision: self.revision, nodes: self.nodes.deep_view() }
    }
}

/// A tree and its descendants in pre-order, the tree itself under `parent`.
pub open spec fn flat_node(n: SpecMenuNode, parent: i32) -> Seq<SpecMenuNodeView>
    decreases n,
{
    seq![node_entry(n, parent)] + flat_all(n.children, n.id)
}

/// The trees `s`, all under `parent`, and their descendants in pre-order.
pub open spec fn flat_all(s: Seq<SpecMenuNode>, parent: i32) -> Seq<SpecMenuNodeView>
    decreases s,
{
    if s.len() == 0 {
        seq![]
    } else {
        flat_all(s.subrange(0, s.len() - 1), parent) + flat_node(s[s.len() - 1], parent)
    }
}

/// The wire form of a menu: its revision and every node below the invisible
/// root, in pre-order.
pub open spec fn flattened(key: Seq<char>, tree: SpecMenuTree) -> SpecMenuView {
    SpecMenuView { key, revision: tree.revision, nodes: flat_all(tree.root.children, tree.root.id) }
}

/// Flatten a menu tree into the wire representation, pre-order, skipping the
/// invisible root node.
pub fn flatten_menu(key: &str, tree: &MenuTree) -> (r: MenuView)
    ensures
        r@ == flattened(key@, tree@),
{
    let mut nodes: Vec<MenuNodeView> = Vec::new();
    assert(tree@.root.children =~= tree.root.children.deep_view());
    flatten_into(&tree.root.children, tree.root.id, &mut nodes);
    assert(nodes.deep_view() =~= flat_all(tree@.root.children, tree@.root.id));
    MenuView { key: key.to_owned(), revision: tree.revision, nodes }
}

fn flatten_into(siblings: &Vec<MenuNode>, parent: i32, out: &mut Vec<MenuNodeView>)
    ensures
        final(out).deep_view() == old(out).deep_view() + flat_all(siblings.deep_view(), parent),
    decreases siblings,
{
    let ghost s = siblings.deep_view();
    let ghost start = out.deep_view();
    let mut i: usize = 0;
    assert(s.subrange(0, 0) =~= seq![]);
    assert(start + seq![] =~= start);
    while i < siblings.len()
        invariant
            i <= siblings@.len(),
            s == siblings.deep_view(),
            out.deep_view() == start + flat_all(s.subrange(0, i as int), parent),
        decreases siblings.len() - i,
    {
        let node = &siblings[i];
        assert(s[i as int] == node@);
        let ghost before = out.deep_view();
        let entry = MenuNodeView::of(node, parent);
        let ghost ev = entry@;
        out.push(entry);
        let ghost pushed = out.deep_view();
        assert(pushed =~= before.push(ev));
        assert(node@.children =~= node.children.deep_view());
        flatten_into(&node.children, node.id, out);
        assert(s.subrange(0, i + 1).subrange(0, i as int) =~= s.subrange(0, i as int));
        assert(s.subrange(0, i + 1)[i as int] == node@);
        assert(flat_node(node@, parent) == seq![ev] + flat_all(node@.children, node@.id));
        assert(flat_all(s.subrange(0, i + 1), parent) == flat_all(s.subrange(0, i as int), parent)
            + flat_node(node@, parent));
        assert(out.deep_view() =~= start + flat_all(s.subrange(0, i + 1), parent));
        i += 1;
    }
    assert(s.subrange(0, siblings@.len() as int) =~= s);
}

/// `n` with `child` appended to the children of its first node in
/// pre-order with id `id`.
pub open spec fn attached(n: SpecMenuNode, id: i32, child: SpecMenuNode) -> SpecMenuNode
    decreases n,
{
    if n.id == id {
        SpecMenuNode { children: n.children.push(child), ..n }
    } else {
        SpecMenuNode { children: attached_among(n.children, id, child), ..n }
    }
}

/// The trees `s` with `child` appended under the first node in pre-order
/// with id `id`.
pub open spec fn attached_among(s: Seq<SpecMenuNode>, id: i32, child: SpecMenuNode) -> Seq<
    SpecMenuNode,
>
    decreases s,
{
    if s.len() == 0 {
        s
    } else if found_in(s[0], id) is Some {
        seq![attached(s[0], id, child)] + s.subrange(1, s.len() as int)
    } else {
        seq![s[0]] + attached_among(s.subrange(1, s.len() as int), id, child)
    }
}

/// The node a wire entry describes, without children.
pub open spec fn entry_node(v: SpecMenuNodeView) -> SpecMenuNode {
    SpecMenuNode {
        id: v.id,
        kind: kind_named(v.kind),
        label: v.label,
        enabled: v.enabled,
        visible: v.visible,
        toggle_state: toggle_state_of(v.toggle_state as i64),
        toggle_type: toggle_type_named(v.toggle_type),
        icon_name: v.icon_name,
        shortcut: v.shortcut,
        children: seq![],
    }
}

/// `root` with the node of `v` added: under the first node with its parent
/// id, or under the root when there is none.
pub open spec fn with_entry(root: SpecMenuNode, v: SpecMenuNodeView) -> SpecMenuNode {
    if found_in(root, v.parent) is Some {
        attached(root, v.parent, entry_node(v))
    } else {
        SpecMenuNode { children: root.children.push(entry_node(v)), ..root }
    }
}

/// The tree rebuilt from wire entries, in order, starting from an empty
/// root.
pub open spec fn inflated(nodes: Seq<SpecMenuNodeView>) -> SpecMenuNode
    decreases nodes.len(),
{
    if nodes.len() == 0 {
        leaf(ROOT_ID)
    } else {
        with_entry(inflated(nodes.drop_last()), nodes.last())
    }
}

/// Rebuild a [`MenuTree`] from the flat representation. Useful for tests and
/// for clients that want the same navigation code as the daemon.
pub fn inflate_menu(view: &MenuView) -> (r: MenuTree)
    ensures
        r@ == (SpecMenuTree { revision: view.revision, root: inflated(view@.nodes) }),
{
    let ghost nodes = view@.nodes;
    let mut root = MenuNode::new(ROOT_ID);
    let mut i: usize = 0;
    assert(nodes.take(0) =~= seq![]);
    while i < view.nodes.len()
        invariant
            i <= view.nodes@.len(),
            nodes == view@.nodes,
            root@ == inflated(nodes.take(i as int)),
        decreases view.nodes.len() - i,
    {
        let node = &view.nodes[i];
        assert(nodes[i as int] == node@);
        let mut rebuilt = MenuNode::new(node.id);
        rebuilt.kind = NodeKind::parse(node.kind.as_str());
        rebuilt.label = node.label.clone();
        rebuilt.enabled = node.enabled;
        rebuilt.visible = node.visible;
        rebuilt.toggle_state = ToggleState::parse(node.toggle_state as i64);
        rebuilt.toggle_type = ToggleType::parse(node.toggle_type.as_str());
        rebuilt.icon_name = node.icon_name.clone();
        rebuilt.shortcut = clone_string_lists(&node.shortcut);
        assert(rebuilt@ == entry_node(node@)) by {
            assert(rebuilt@.children =~= seq![]);
        }
        assert(nodes.take(i + 1).drop_last() =~= nodes.take(i as int));
        let (next, back) = attach(root, node.parent, rebuilt);
        root = match back {
            None => next,
            Some(orphan) => {
                let mut r = next;
                let ghost before = r@;
                r.children.push(orphan);
                assert(r@.children =~= before.children.push(entry_node(node@)));
                r
            },
        };
        i += 1;
    }
    assert(nodes.take(view.nodes@.len() as int) =~= nodes);
    MenuTree { revision: view.revision, root }
}

proof fn lemma_found_among_split(s: Seq<SpecMenuNode>, id: i32, k: int, child: SpecMenuNode)
    requires
        0 <= k < s.len(),
        found_among(s.take(k), id) is None,
    ensures
        found_in(s[k], id) is None ==> found_among(s.take(k + 1), id) is None,
        found_in(s[k], id) is Some ==> found_among(s, id) is Some && attached_among(s, id, child)
            == s.take(k) + seq![attached(s[k], id, child)] + s.skip(k + 1),
    decreases k,
{
    let t = s.subrange(1, s.len() as int);
    if k == 0 {
        let one = s.take(1);
        assert(one[0] == s[0]);
        assert(one.subrange(1, 1) =~= Seq::<SpecMenuNode>::empty());
        assert(found_among(Seq::<SpecMenuNode>::empty(), id) is None);
        if found_in(s[0], id) is None {
            assert(found_among(one, id) == found_among(one.subrange(1, 1), id));
        }
        assert(s.take(0) + seq![attached(s[0], id, child)] + s.skip(1) =~= seq![
            attached(s[0], id, child),
        ] + t);
    } else {
        let p = s.take(k);
        assert(p[0] == s[0]);
        assert(p.subrange(1, k) =~= t.take(k - 1));
        lemma_found_among_split(t, id, k - 1, child);
        assert(t[k - 1] == s[k]);
        let q = s.take(k + 1);
        assert(q[0] == s[0]);
        assert(q.subrange(1, k + 1) =~= t.take(k));
        assert(found_in(s[0], id) is None);
        assert(found_among(q, id) == found_among(q.subrange(1, k + 1), id));
        assert(found_among(s, id) == found_among(t, id));
        assert(seq![s[0]] + (t.take(k - 1) + seq![attached(s[k], id, child)] + t.skip(k)) =~= s.take(
            k,
        ) + seq![attached(s[k], id, child)] + s.skip(k + 1));
    }
}

/// Append `child` under the first node of `node` in pre-order with id `id`.
/// When there is none, `node` comes back unchanged together with `child`.
#[verifier::loop_isolation(false)]
fn attach(node: MenuNode, id: i32, child: MenuNode) -> (r: (MenuNode, Option<MenuNode>))
    ensures
        match r.1 {
            None => found_in(node@, id) is Some && r.0@ == attached(node@, id, child@),
            Some(c) => found_in(node@, id) is None && r.0@ == node@ && c@ == child@,
        },
    decreases node,
{
    let ghost n = node@;
    let ghost whole = node;
    if node.id == id {
        let mut node = node;
        node.children.push(child);
        assert(node@.children =~= n.children.push(child@));
        return (node, None);
    }
    let MenuNode {
        id: node_id,
        kind,
        label,
        enabled,
        visible,
        toggle_state,
        toggle_type,
        icon_name,
        shortcut,
        children,
    } = node;
    let ghost kids = n.children;
    let mut rest = children;
    let mut done: Vec<MenuNode> = Vec::new();
    let mut pending: Option<MenuNode> = Some(child);
    assert(kids.take(0) =~= seq![]);
    assert(done.deep_view() =~= seq![]);
    while rest.len() > 0
        invariant
            rest@.len() <= kids.len(),
            kids == n.children,
            n == whole@,
            n.id != id,
            kids.len() == whole.children@.len(),
            forall|j: int|
                0 <= j < rest@.len() ==> #[trigger] rest@[j] == whole.children@[kids.len()
                    - rest@.len() + j],
            match pending {
                Some(c) => {
                    &&& c@ == child@
                    &&& found_among(kids.take(kids.len() - rest@.len()), id) is None
                    &&& done.deep_view() == kids.take(kids.len() - rest@.len())
                },
                None => {
                    &&& found_among(kids, id) is Some
                    &&& done.deep_view() + kids.skip(kids.len() - rest@.len()) == attached_among(
                        kids,
                        id,
                        child@,
                    )
                },
            },
        decreases rest.len(),
    {
        let ghost k = kids.len() - rest@.len();
        let ghost prev = rest@;
        let c = rest.remove(0);
        assert(c == prev[0]);
        assert(c == whole.children@[k]);
        assert(c@ == kids[k]);
        assert forall|j: int| 0 <= j < rest@.len() implies #[trigger] rest@[j]
            == whole.children@[kids.len() - rest@.len() + j] by {
            assert(rest@[j] == prev[j + 1]);
        }
        let ghost before = done.deep_view();
        match pending {
            Some(ch) => {
                proof {
                    lemma_found_among_split(kids, id, k, child@);
                    assert(decreases_to!(whole => whole.children));
                    assert(decreases_to!(whole.children => whole.children@));
                    assert(decreases_to!(whole.children@ => whole.children@[k]));
                    assert(decreases_to!(whole => c));
                }
                let (c2, back) = attach(c, id, ch);
                let ghost c2v = c2@;
                done.push(c2);
                assert(done.deep_view() =~= before.push(c2v));
                assert(kids.take(k + 1) =~= kids.take(k).push(kids[k]));
                proof {
                    if back is None {
                        assert(done.deep_view() + kids.skip(k + 1) =~= kids.take(k) + seq![
                            attached(kids[k], id, child@),
                        ] + kids.skip(k + 1));
                    }
                }
                pending = back;
            },
            None => {
                let ghost cv = c@;
                done.push(c);
                assert(done.deep_view() =~= before.push(cv));
                assert(done.deep_view() + kids.skip(k + 1) =~= before + kids.skip(k));
            },
        }
    }
    let r = MenuNode {
        id: node_id,
        kind,
        label,
        enabled,
        visible,
        toggle_state,
        toggle_type,
        icon_name,
        shortcut,
        children: done,
    };
    proof {
        assert(kids.take(kids.len() as int) =~= kids);
        assert(kids.skip(kids.len() as int) =~= Seq::<SpecMenuNode>::empty());
        assert(r@.children =~= done.deep_view());
        if pending is None {
            assert(done.deep_view() + kids.skip(kids.len() as int) =~= done.deep_view());
        }
    }
    (r, pending)
}

/// User preferences as sent over the wire.
#[derive(Debug, PartialEq, Default)]
pub struct ConfigView {
    /// Logical pixels.
    pub icon_size: i32,
    /// `"registered"`, `"manual"` or `"title"`.
    pub sort: String,
    pub order: Vec<String>,
    pub hidden: Vec<String>,
    pub show_when_empty: bool,
    /// `"left"`, `"center"` or `"right"`.
    pub panel_box: String,
    pub panel_position: i32,
}

/// The mathematical value of a [`ConfigView`].
pub struct SpecConfigView {
    pub icon_size: i32,
    pub sort: Seq<char>,
    pub order: Seq<Seq<char>>,
    pub hidden: Seq<Seq<char>>,
    pub show_when_empty: bool,
    pub panel_box: Seq<char>,
    pub panel_position: i32,
}

impl DeepView for ConfigView {
    type V = SpecConfigView;

    open spec fn deep_view(&self) -> SpecConfigView {
        SpecConfigView {
            icon_size: self.icon_size,
            sort: self.sort@,
            order: self.order.deep_view(),
            hidden: self.hidden.deep_view(),
            show_when_empty: self.show_when_empty,
            panel_box: self.panel_box@,
            panel_position: self.panel_position,
        }
    }
}

impl View for ConfigView {
    type V = SpecConfigView;

    open spec fn view(&self) -> SpecConfigView {
        self.deep_view()
    }
}

impl Clone for ConfigView {
    fn clone(&self) -> (r: Self)
        ensures
            r@ == self@,
    {
        let r = ConfigView {
            icon_size: self.icon_size,
            sort: self.sort.clone(),
            order: self.order.clone(),
            hidden: self.hidden.clone(),
            show_when_empty: self.show_when_empty,
            panel_box: self.panel_box.clone(),
            panel_position: self.panel_position,
        };
        assert(r.order.deep_view() =~= self.order.deep_view());
        assert(r.hidden.deep_view() =~= self.hidden.deep_view());
        r
    }
}

/// What the daemon knows about itself and the bus, for diagnostics.
#[derive(Debug, PartialEq, Default)]
pub struct StatusView {
    pub version: String,
    pub watcher_name: String,
    /// Whether `org.kde.StatusNotifierWatcher` is ours.
    pub watcher_owned: bool,
    /// Its current owner, empty when nobody owns it.
    pub watcher_owner: String,
    pub host_registered: bool,
    pub item_count: i32,
    pub revision: u64,
    pub config_path: String,
    /// Last error worth showing a user, empty when all is well.
    pub last_error: String,
}

/// The mathematical value of a [`StatusView`].
pub struct SpecStatusView {
    pub version: Seq<char>,
    pub watcher_name: Seq<char>,
    pub watcher_owned: bool,
    pub watcher_owner: Seq<char>,
    pub host_registered: bool,
    pub item_count: i32,
    pub revision: u64,
    pub config_path: Seq<char>,
    pub last_error: Seq<char>,
}

impl View for StatusView {
    type V = SpecStatusView;

    open spec fn view(&self) -> SpecStatusView {
        SpecStatusView {
            version: self.version@,
            watcher_name: self.watcher_name@,
            watcher_owned: self.watcher_owned,
            watcher_owner: self.watcher_owner@,
            host_registered: self.host_registered,
            item_count: self.item_count,
            revision: self.revision,
            config_path: self.config_path@,
            last_error: self.last_error@,
        }
    }
}

impl DeepView for StatusView {
    type V = SpecStatusView;

    open spec fn deep_view(&self) -> SpecStatusView {
        self@
    }
}

impl Clone for StatusView {
    fn clone(&self) -> (r: Self)
        ensures
            r@ == self@,
    {
        StatusView {
            version: self.version.clone(),
            watcher_name: self.watcher_name.clone(),
            watcher_owned: self.watcher_owned,
            watcher_owner: self.watcher_owner.clone(),
            host_registered: self.host_registered,
            item_count: self.item_count,
            revision: self.revision,
            config_path: self.config_path.clone(),
            last_error: self.last_error.clone(),
        }
    }
}

/// The icon a view shows comes from the icon the item shows right now:
/// while the item needs attention and has an attention icon, that icon,
/// otherwise its normal icon, with the overlay (when it has one) on top. An
/// icon that carries no usable pixels is shown by its theme name.
pub proof fn lemma_view_shows_current_icon(item: SpecItem, size: u32)
    ensures
        ({
            let p = item.props;
            let overlay = if icon_empty(p.overlay) {
                None
            } else {
                Some(p.overlay)
            };
            let attention = p.status == crate::sni::Status::NeedsAttention && !icon_empty(p.attention);
            &&& attention ==> item_view_of(item, size).icon == resolved_icon(p.attention, overlay, size)
            &&& !attention ==> item_view_of(item, size).icon == resolved_icon(p.icon, overlay, size)
            &&& attention && (forall|j: int|
                0 <= j < p.attention.pixmaps.len() ==> !pixmap_valid(#[trigger] p.attention.pixmaps[j]))
                ==> item_view_of(item, size).icon.name == p.attention.name
        }),
{
    let p = item.props;
    lemma_no_pixels_named(p.attention, if icon_empty(p.overlay) {
        None
    } else {
        Some(p.overlay)
    }, size);
}

/// An icon without a usable pixmap resolves to its theme name.
pub proof fn lemma_no_pixels_named(icon: SpecIcon, overlay: Option<SpecIcon>, size: u32)
    ensures
        (forall|j: int| 0 <= j < icon.pixmaps.len() ==> !pixmap_valid(#[trigger] icon.pixmaps[j]))
            ==> resolved_icon(icon, overlay, size) == named_icon(icon.name, icon.theme_path),
{
    if forall|j: int| 0 <= j < icon.pixmaps.len() ==> !pixmap_valid(#[trigger] icon.pixmaps[j]) {
        if exists|i: int| crate::icon::is_pick(icon.pixmaps, size, i) {
            let i = choose|i: int| crate::icon::is_pick(icon.pixmaps, size, i);
            let t = crate::icon::clamp_target(size);
            if crate::icon::any_fits(icon.pixmaps, t) {
                assert(crate::icon::fits(icon.pixmaps[i], t));
            } else {
                assert(pixmap_valid(icon.pixmaps[i]));
            }
        }
    }
}

/// A view carries the item's own key, id, title and menu flag, and names
/// it the way the item is named to the user.
pub proof fn lemma_view_fields(item: SpecItem, size: u32)
    ensures
        item_view_of(item, size).key == item.key,
        item_view_of(item, size).app_id == item.props.id,
        item_view_of(item, size).title == item.props.title,
        item_view_of(item, size).item_is_menu == item.props.item_is_menu,
        item_view_of(item, size).accessible_name == accessible_name_of(item.props),
        item.props.label.len() == 0 && item.props.icon_accessible_desc.len() == 0
            && item.props.attention_accessible_desc.len() == 0 && item.props.title.len() > 0
            ==> item_view_of(item, size).accessible_name == item.props.title,
{
    crate::sni::lemma_accessible_name(item.props);
}

} // verus!
