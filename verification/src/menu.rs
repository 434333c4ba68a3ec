//! Domain model of a `com.canonical.dbusmenu`, the menu protocol used by
//! StatusNotifierItem clients (Qt, libdbusmenu, libayatana).
//!
//! Menus arrive as deeply nested property bags. This module turns them into a
//! [`MenuTree`] of typed [`MenuNode`]s and keeps it up to date as the
//! application patches its menu.

use vstd::prelude::*;

use crate::props::{
    clone_string_lists, prop_bool, prop_int, prop_text, PropMap, PropValue, SpecPropValue,
};
use crate::text::{chars_of, same_strings, same_text, string_of};

verus! {

pub const DBUSMENU_INTERFACE: &'static str = "com.canonical.dbusmenu";

/// Marker path meaning "this item has no menu".
pub const NO_DBUSMENU_PATH: &'static str = "/NO_DBUSMENU";

/// The id of the invisible root node.
pub const ROOT_ID: i32 = 0;

/// What a node is.
#[derive(Clone, Copy, Debug, PartialEq, Eq, Structural)]
pub enum NodeKind {
    Standard,
    Separator,
}

pub open spec fn kind_name(kind: NodeKind) -> Seq<char> {
    match kind {
        NodeKind::Standard => "standard"@,
        NodeKind::Separator => "separator"@,
    }
}

pub open spec fn kind_named(name: Seq<char>) -> NodeKind {
    if name == "separator"@ {
        NodeKind::Separator
    } else {
        NodeKind::Standard
    }
}

impl NodeKind {
    pub fn as_str(self) -> (r: &'static str)
        ensures
            r@ == kind_name(self),
    {
        match self {
            NodeKind::Standard => "standard",
            NodeKind::Separator => "separator",
        }
    }

    pub fn parse(value: &str) -> (r: Self)
        ensures
            r == kind_named(value@),
    {
        if same_text(value, "separator") {
            NodeKind::Separator
        } else {
            NodeKind::Standard
        }
    }
}

impl Default for NodeKind {
    fn default() -> (r: Self)
        ensures
            r == NodeKind::Standard,
    {
        NodeKind::Standard
    }
}

/// A node kind survives being written out and read back.
pub proof fn lemma_kind_round_trip(kind: NodeKind)
    ensures
        kind_named(kind_name(kind)) == kind,
{
    reveal_strlit("standard");
    reveal_strlit("separator");
    assert("standard"@.len() == 8 && "separator"@.len() == 9);
}

/// State of a checkable item: `-1` when the item is not checkable.
#[derive(Clone, Copy, Debug, PartialEq, Eq, Structural)]
pub enum ToggleState {
    Unset,
    Off,
    On,
}

pub open spec fn toggle_state_number(state: ToggleState) -> i32 {
    match state {
        ToggleState::Unset => -1i32,
        ToggleState::Off => 0i32,
        ToggleState::On => 1i32,
    }
}

pub open spec fn toggle_state_of(value: i64) -> ToggleState {
    if value == 0 {
        ToggleState::Off
    } else if value == 1 {
        ToggleState::On
    } else {
        ToggleState::Unset
    }
}

impl ToggleState {
    pub fn as_i32(self) -> (r: i32)
        ensures
            r == toggle_state_number(self),
    {
        match self {
            ToggleState::Unset => -1,
            ToggleState::Off => 0,
            ToggleState::On => 1,
        }
    }

    pub fn parse(value: i64) -> (r: Self)
        ensures
            r == toggle_state_of(value),
    {
        if value == 0 {
            ToggleState::Off
        } else if value == 1 {
            ToggleState::On
        } else {
            ToggleState::Unset
        }
    }
}

impl Default for ToggleState {
    fn default() -> (r: Self)
        ensures
            r == ToggleState::Unset,
    {
        ToggleState::Unset
    }
}

/// A toggle state survives being written out as a number and read back.
pub proof fn lemma_toggle_state_round_trip(state: ToggleState)
    ensures
        toggle_state_of(toggle_state_number(state) as i64) == state,
{
}

/// How a checkable item behaves.
#[derive(Clone, Copy, Debug, PartialEq, Eq, Structural)]
pub enum ToggleType {
    /// Not checkable; written `none` on the wire.
    Plain,
    Checkmark,
    Radio,
}

pub open spec fn toggle_type_name(toggle: ToggleType) -> Seq<char> {
    match toggle {
        ToggleType::Plain => "none"@,
        ToggleType::Checkmark => "checkmark"@,
        ToggleType::Radio => "radio"@,
    }
}

pub open spec fn toggle_type_named(name: Seq<char>) -> ToggleType {
    if name == "checkmark"@ {
        ToggleType::Checkmark
    } else if name == "radio"@ {
        ToggleType::Radio
    } else {
        ToggleType::Plain
    }
}

impl ToggleType {
    pub fn as_str(self) -> (r: &'static str)
        ensures
            r@ == toggle_type_name(self),
    {
        match self {
            ToggleType::Plain => "none",
            ToggleType::Checkmark => "checkmark",
            ToggleType::Radio => "radio",
        }
    }

    pub fn parse(value: &str) -> (r: Self)
        ensures
            r == toggle_type_named(value@),
    {
        if same_text(value, "checkmark") {
            ToggleType::Checkmark
        } else if same_text(value, "radio") {
            ToggleType::Radio
        } else {
            ToggleType::Plain
        }
    }
}

impl Default for ToggleType {
    fn default() -> (r: Self)
        ensures
            r == ToggleType::Plain,
    {
        ToggleType::Plain
    }
}

/// A toggle type survives being written out and read back.
pub proof fn lemma_toggle_type_round_trip(toggle: ToggleType)
    ensures
        toggle_type_named(toggle_type_name(toggle)) == toggle,
{
    reveal_strlit("none");
    reveal_strlit("checkmark");
    reveal_strlit("radio");
    assert("none"@.len() == 4 && "checkmark"@.len() == 9 && "radio"@.len() == 5);
}

/// A dbusmenu label rendered as text: `"__"` is a literal underscore and
/// every other `"_"` is an access key marker, which is not displayed.
pub open spec fn stripped(s: Seq<char>) -> Seq<char>
    decreases s.len(),
{
    if s.len() == 0 {
        seq![]
    } else if s[0] != '_' {
        seq![s[0]] + stripped(s.skip(1))
    } else if s.len() >= 2 && s[1] == '_' {
        seq!['_'] + stripped(s.skip(2))
    } else {
        stripped(s.skip(1))
    }
}

/// The access key of a label: the character after the first `"_"` that is
/// not part of an escaped `"__"`.
pub open spec fn mnemonic(s: Seq<char>) -> Option<char>
    decreases s.len(),
{
    if s.len() == 0 {
        None
    } else if s[0] != '_' {
        mnemonic(s.skip(1))
    } else if s.len() == 1 {
        None
    } else if s[1] == '_' {
        mnemonic(s.skip(2))
    } else {
        Some(s[1])
    }
}

/// Render a dbusmenu label as text.
///
/// The protocol encodes access keys in the label: `"__"` is a literal
/// underscore, and the first remaining `"_"` marks the access key (the
/// character after it) and is not displayed. So `"_Quit"` becomes `"Quit"`
/// with the access key `Q`, and `"A__B"` becomes `"A_B"`.
pub fn strip_mnemonic(label: &str) -> (r: String)
    ensures
        r@ == stripped(label@),
{
    let v = chars_of(label);
    let n = v.len();
    let mut out: Vec<char> = Vec::new();
    let mut i: usize = 0;
    assert(v@.skip(0) =~= v@);
    while i < n
        invariant
            i <= n == v@.len(),
            stripped(v@) == out@ + stripped(v@.skip(i as int)),
        decreases n - i,
    {
        let ghost rest = v@.skip(i as int);
        let ch = v[i];
        if ch != '_' {
            out.push(ch);
            assert(rest.skip(1) =~= v@.skip(i + 1));
            assert(stripped(v@) =~= out@ + stripped(v@.skip(i + 1)));
            i += 1;
        } else if i + 1 < n && v[i + 1] == '_' {
            out.push('_');
            assert(rest.skip(2) =~= v@.skip(i + 2));
            assert(stripped(v@) =~= out@ + stripped(v@.skip(i + 2)));
            i += 2;
        } else {
            assert(rest.skip(1) =~= v@.skip(i + 1));
            i += 1;
        }
    }
    assert(v@.skip(n as int) =~= seq![]);
    assert(out@ + seq![] =~= out@);
    let r = string_of(&out, 0, out.len());
    assert(out@.subrange(0, out@.len() as int) =~= out@);
    r
}

/// The access key marked in a label, if any.
pub fn mnemonic_of(label: &str) -> (r: Option<char>)
    ensures
        r == mnemonic(label@),
{
    let v = chars_of(label);
    let n = v.len();
    let mut i: usize = 0;
    assert(v@.skip(0) =~= v@);
    while i < n
        invariant
            i <= n == v@.len(),
            v@ == label@,
            mnemonic(v@) == mnemonic(v@.skip(i as int)),
        decreases n - i,
    {
        let ghost rest = v@.skip(i as int);
        if v[i] != '_' {
            assert(rest.skip(1) =~= v@.skip(i + 1));
            i += 1;
        } else if i + 1 == n {
            assert(rest.len() == 1 && rest[0] == '_');
            return None;
        } else if v[i + 1] == '_' {
            assert(rest.skip(2) =~= v@.skip(i + 2));
            i += 2;
        } else {
            assert(rest[0] == '_' && rest[1] == v@[i + 1]);
            return Some(v[i + 1]);
        }
    }
    None
}

/// One entry of a menu, with its children.
#[derive(Debug, PartialEq)]
pub struct MenuNode {
    pub id: i32,
    pub kind: NodeKind,
    pub label: String,
    pub enabled: bool,
    pub visible: bool,
    pub toggle_state: ToggleState,
    pub toggle_type: ToggleType,
    pub icon_name: String,
    /// Accelerator as a list of key chords, e.g. `[["Control", "Q"]]`.
    pub shortcut: Vec<Vec<String>>,
    pub children: Vec<MenuNode>,
}

/// The mathematical value of a [`MenuNode`]: the same tree, with text as
/// character sequences.
pub struct SpecMenuNode {
    pub id: i32,
    pub kind: NodeKind,
    pub label: Seq<char>,
    pub enabled: bool,
    pub visible: bool,
    pub toggle_state: ToggleState,
    pub toggle_type: ToggleType,
    pub icon_name: Seq<char>,
    pub shortcut: Seq<Seq<Seq<char>>>,
    pub children: Seq<SpecMenuNode>,
}

/// A node with id `id`, no children and every property at its spec default.
pub open spec fn leaf(id: i32) -> SpecMenuNode {
    SpecMenuNode {
        id,
        kind: NodeKind::Standard,
        label: seq![],
        enabled: true,
        visible: true,
        toggle_state: ToggleState::Unset,
        toggle_type: ToggleType::Plain,
        icon_name: seq![],
        shortcut: seq![],
        children: seq![],
    }
}

pub open spec fn node_view(n: MenuNode) -> SpecMenuNode
    decreases n,
{
    SpecMenuNode {
        id: n.id,
        kind: n.kind,
        label: n.label@,
        enabled: n.enabled,
        visible: n.visible,
        toggle_state: n.toggle_state,
        toggle_type: n.toggle_type,
        icon_name: n.icon_name@,
        shortcut: n.shortcut.deep_view(),
        children: Seq::new(
            n.children@.len(),
            |i: int|
                if 0 <= i < n.children@.len() {
                    node_view(n.children@[i])
                } else {
                    leaf(0)
                },
        ),
    }
}

impl View for MenuNode {
    type V = SpecMenuNode;

    open spec fn view(&self) -> SpecMenuNode {
        node_view(*self)
    }
}

impl DeepView for MenuNode {
    type V = SpecMenuNode;

    open spec fn deep_view(&self) -> SpecMenuNode {
        node_view(*self)
    }
}

impl Clone for MenuNode {
    fn clone(&self) -> (r: Self)
        ensures
            r@ == self@,
        decreases self,
    {
        let mut children: Vec<MenuNode> = Vec::new();
        let mut i: usize = 0;
        while i < self.children.len()
            invariant
                i <= self.children@.len(),
                children@.len() == i,
                forall|j: int| 0 <= j < i ==> (#[trigger] children@[j])@ == self.children@[j]@,
            decreases self.children.len() - i,
        {
            let c = self.children[i].clone();
            children.push(c);
            i += 1;
        }
        let r = MenuNode {
            id: self.id,
            kind: self.kind,
            label: self.label.clone(),
            enabled: self.enabled,
            visible: self.visible,
            toggle_state: self.toggle_state,
            toggle_type: self.toggle_type,
            icon_name: self.icon_name.clone(),
            shortcut: clone_string_lists(&self.shortcut),
            children,
        };
        assert(r@.children =~= self@.children);
        r
    }
}

impl Default for MenuNode {
    fn default() -> (r: Self)
        ensures
            r@ == leaf(ROOT_ID),
    {
        MenuNode::new(ROOT_ID)
    }
}

/// One property assignment folded into a node. Unknown properties leave
/// the node as it is.
pub open spec fn node_with(n: SpecMenuNode, name: Seq<char>, v: SpecPropValue) -> SpecMenuNode {
    if name == "type"@ {
        SpecMenuNode { kind: kind_named(prop_text(v)), ..n }
    } else if name == "label"@ {
        SpecMenuNode { label: stripped(prop_text(v)), ..n }
    } else if name == "enabled"@ {
        SpecMenuNode { enabled: prop_bool(v, true), ..n }
    } else if name == "visible"@ {
        SpecMenuNode { visible: prop_bool(v, true), ..n }
    } else if name == "toggle-state"@ {
        SpecMenuNode {
            toggle_state: toggle_state_of(
                match prop_int(v) {
                    Some(i) => i,
                    None => -1i64,
                },
            ),
            ..n
        }
    } else if name == "toggle-type"@ {
        SpecMenuNode { toggle_type: toggle_type_named(prop_text(v)), ..n }
    } else if name == "icon-name"@ {
        SpecMenuNode { icon_name: prop_text(v), ..n }
    } else if name == "shortcut"@ {
        match v {
            SpecPropValue::StringLists(chords) => SpecMenuNode { shortcut: chords, ..n },
            _ => n,
        }
    } else {
        n
    }
}

/// A property dictionary folded into a node, in order.
pub open spec fn node_with_all(n: SpecMenuNode, map: Seq<(Seq<char>, SpecPropValue)>) -> SpecMenuNode
    decreases map.len(),
{
    if map.len() == 0 {
        n
    } else {
        let (name, value) = map.last();
        node_with(node_with_all(n, map.drop_last()), name, value)
    }
}

/// A node with one property reset to its spec default.
pub open spec fn node_without(n: SpecMenuNode, name: Seq<char>) -> SpecMenuNode {
    let d = leaf(n.id);
    if name == "type"@ {
        SpecMenuNode { kind: d.kind, ..n }
    } else if name == "label"@ {
        SpecMenuNode { label: d.label, ..n }
    } else if name == "enabled"@ {
        SpecMenuNode { enabled: d.enabled, ..n }
    } else if name == "visible"@ {
        SpecMenuNode { visible: d.visible, ..n }
    } else if name == "toggle-state"@ {
        SpecMenuNode { toggle_state: d.toggle_state, ..n }
    } else if name == "toggle-type"@ {
        SpecMenuNode { toggle_type: d.toggle_type, ..n }
    } else if name == "icon-name"@ {
        SpecMenuNode { icon_name: d.icon_name, ..n }
    } else if name == "shortcut"@ {
        SpecMenuNode { shortcut: d.shortcut, ..n }
    } else {
        n
    }
}

/// Several properties reset, in order.
pub open spec fn node_without_all(n: SpecMenuNode, names: Seq<Seq<char>>) -> SpecMenuNode
    decreases names.len(),
{
    if names.len() == 0 {
        n
    } else {
        node_without(node_without_all(n, names.drop_last()), names.last())
    }
}

/// The first node in pre-order, `n` itself included, whose id is `id`.
pub open spec fn found_in(n: SpecMenuNode, id: i32) -> Option<SpecMenuNode>
    decreases n,
{
    if n.id == id {
        Some(n)
    } else {
        found_among(n.children, id)
    }
}

/// The first node in pre-order among the trees `s` whose id is `id`.
pub open spec fn found_among(s: Seq<SpecMenuNode>, id: i32) -> Option<SpecMenuNode>
    decreases s,
{
    if s.len() == 0 {
        None
    } else {
        match found_in(s[0], id) {
            Some(m) => Some(m),
            None => found_among(s.subrange(1, s.len() as int), id),
        }
    }
}

/// Number of nodes in a tree, the root included.
pub open spec fn node_count(n: SpecMenuNode) -> nat
    decreases n,
{
    1 + nodes_count(n.children)
}

/// Number of nodes in the trees `s`.
pub open spec fn nodes_count(s: Seq<SpecMenuNode>) -> nat
    decreases s,
{
    if s.len() == 0 {
        0
    } else {
        nodes_count(s.subrange(0, s.len() - 1)) + node_count(s[s.len() - 1])
    }
}

proof fn lemma_nodes_count_prefix(s: Seq<SpecMenuNode>, i: int)
    requires
        0 <= i <= s.len(),
    ensures
        nodes_count(s.subrange(0, i)) <= nodes_count(s),
    decreases s.len(),
{
    if i < s.len() {
        let t = s.subrange(0, s.len() - 1);
        assert(t.subrange(0, i) =~= s.subrange(0, i));
        lemma_nodes_count_prefix(t, i);
    } else {
        assert(s.subrange(0, i) =~= s);
    }
}

impl MenuNode {
    pub fn new(id: i32) -> (r: Self)
        ensures
            r@ == leaf(id),
    {
        let r = MenuNode {
            id,
            kind: NodeKind::Standard,
            label: String::new(),
            enabled: true,
            visible: true,
            toggle_state: ToggleState::Unset,
            toggle_type: ToggleType::Plain,
            icon_name: String::new(),
            shortcut: Vec::new(),
            children: Vec::new(),
        };
        assert(r@.shortcut =~= seq![]);
        assert(r@.children =~= seq![]);
        r
    }

    /// Fold a property dictionary into a copy of the node.
    pub fn with_properties(self, properties: &PropMap) -> (r: Self)
        ensures
            r@ == node_with_all(self@, properties.deep_view()),
    {
        let ghost start = self@;
        let mut node = self;
        let mut i: usize = 0;
        assert(properties.deep_view().take(0) =~= seq![]);
        while i < properties.len()
            invariant
                i <= properties@.len(),
                node@ == node_with_all(start, properties.deep_view().take(i as int)),
            decreases properties.len() - i,
        {
            let (name, value) = &properties[i];
            assert(properties.deep_view().take(i + 1).drop_last() =~= properties.deep_view().take(
                i as int,
            ));
            assert(properties.deep_view().take(i + 1).last() == properties.deep_view()[i as int]);
            node = node.with_property(name.as_str(), value.clone());
            i += 1;
        }
        assert(properties.deep_view().take(properties@.len() as int) =~= properties.deep_view());
        node
    }

    pub fn with_property(self, name: &str, value: PropValue) -> (r: Self)
        ensures
            r@ == node_with(self@, name@, value@),
    {
        let mut n = self;
        if same_text(name, "type") {
            n.kind = NodeKind::parse(text_of(&value).as_str());
        } else if same_text(name, "label") {
            // The label carries the access key marker; see [`strip_mnemonic`].
            n.label = strip_mnemonic(text_of(&value).as_str());
        } else if same_text(name, "enabled") {
            n.enabled = match value.as_bool() {
                Some(b) => b,
                None => true,
            };
        } else if same_text(name, "visible") {
            n.visible = match value.as_bool() {
                Some(b) => b,
                None => true,
            };
        } else if same_text(name, "toggle-state") {
            n.toggle_state = ToggleState::parse(
                match value.as_int() {
                    Some(i) => i,
                    None => -1,
                },
            );
        } else if same_text(name, "toggle-type") {
            n.toggle_type = ToggleType::parse(text_of(&value).as_str());
        } else if same_text(name, "icon-name") {
            n.icon_name = text_of(&value);
        } else if same_text(name, "shortcut") {
            if let PropValue::StringLists(chords) = value {
                n.shortcut = chords;
            }
        }
        n
    }

    /// A copy of the node with a property reset to its spec default.
    pub fn without_property(self, name: &str) -> (r: Self)
        ensures
            r@ == node_without(self@, name@),
    {
        let mut n = self;
        let default = MenuNode::new(n.id);
        if same_text(name, "type") {
            n.kind = default.kind;
        } else if same_text(name, "label") {
            n.label = default.label;
        } else if same_text(name, "enabled") {
            n.enabled = default.enabled;
        } else if same_text(name, "visible") {
            n.visible = default.visible;
        } else if same_text(name, "toggle-state") {
            n.toggle_state = default.toggle_state;
        } else if same_text(name, "toggle-type") {
            n.toggle_type = default.toggle_type;
        } else if same_text(name, "icon-name") {
            n.icon_name = default.icon_name;
        } else if same_text(name, "shortcut") {
            n.shortcut = default.shortcut;
        }
        n
    }

    pub fn is_separator(&self) -> (r: bool)
        ensures
            r == (self@.kind == NodeKind::Separator),
    {
        self.kind == NodeKind::Separator
    }

    /// The first node in pre-order, `self` included, whose id is `id`.
    pub fn find(&self, id: i32) -> (r: Option<&MenuNode>)
        ensures
            match r {
                Some(m) => found_in(self@, id) == Some(m@),
                None => found_in(self@, id) is None,
            },
        decreases self,
    {
        if self.id == id {
            return Some(self);
        }
        let ghost kids = self@.children;
        let mut i: usize = 0;
        assert(kids.subrange(0, kids.len() as int) =~= kids);
        while i < self.children.len()
            invariant
                i <= self.children@.len(),
                kids == self@.children,
                self.id != id,
                found_in(self@, id) == found_among(kids.subrange(i as int, kids.len() as int), id),
            decreases self.children.len() - i,
        {
            let ghost rest = kids.subrange(i as int, kids.len() as int);
            assert(rest[0] == self.children@[i as int]@);
            assert(rest.subrange(1, rest.len() as int) =~= kids.subrange(i + 1, kids.len() as int));
            match self.children[i].find(id) {
                Some(m) => {
                    return Some(m);
                },
                None => {},
            }
            i += 1;
        }
        None
    }

    /// Number of nodes in this subtree, including `self`.
    pub fn len(&self) -> (r: usize)
        requires
            node_count(self@) <= usize::MAX,
        ensures
            r == node_count(self@),
        decreases self,
    {
        let ghost kids = self@.children;
        let mut total: usize = 1;
        let mut i: usize = 0;
        assert(kids.subrange(0, 0) =~= seq![]);
        while i < self.children.len()
            invariant
                i <= self.children@.len(),
                kids == self@.children,
                node_count(self@) <= usize::MAX,
                total == 1 + nodes_count(kids.subrange(0, i as int)),
            decreases self.children.len() - i,
        {
            proof {
                lemma_nodes_count_prefix(kids, i + 1);
                assert(kids.subrange(0, i + 1).subrange(0, i as int) =~= kids.subrange(0, i as int));
                assert(kids[i as int] == self.children@[i as int]@);
            }
            let n = self.children[i].len();
            total = total + n;
            i += 1;
        }
        assert(kids.subrange(0, kids.len() as int) =~= kids);
        total
    }

    /// Whether the node has no children: its subtree is itself alone.
    pub fn is_empty(&self) -> (r: bool)
        ensures
            r == (node_count(self@) == 1),
    {
        proof {
            if self@.children.len() > 0 {
                let kids = self@.children;
                assert(kids.subrange(0, kids.len() - 1).len() >= 0);
                assert(node_count(kids[kids.len() - 1]) >= 1);
            }
        }
        self.children.len() == 0
    }
}

/// A menu: the root node (whose children are the visible entries) plus the
/// revision reported by the application.
#[derive(Debug, PartialEq)]
pub struct MenuTree {
    pub revision: u64,
    pub root: MenuNode,
}

/// The mathematical value of a [`MenuTree`].
pub struct SpecMenuTree {
    pub revision: u64,
    pub root: SpecMenuNode,
}

impl View for MenuTree {
    type V = SpecMenuTree;

    open spec fn view(&self) -> SpecMenuTree {
        SpecMenuTree { revision: self.revision, root: self.root@ }
    }
}

impl DeepView for MenuTree {
    type V = SpecMenuTree;

    open spec fn deep_view(&self) -> SpecMenuTree {
        self@
    }
}

impl Clone for MenuTree {
    fn clone(&self) -> (r: Self)
        ensures
            r@ == self@,
    {
        MenuTree { revision: self.revision, root: self.root.clone() }
    }
}

impl Default for MenuTree {
    fn default() -> (r: Self)
        ensures
            r@ == (SpecMenuTree { revision: 0, root: leaf(ROOT_ID) }),
    {
        MenuTree { revision: 0, root: MenuNode::new(ROOT_ID) }
    }
}

/// The property updates of `ups` addressed to node `id`, folded into `n` in
/// order.
pub open spec fn updates_applied(
    n: SpecMenuNode,
    id: i32,
    ups: Seq<(i32, Seq<(Seq<char>, SpecPropValue)>)>,
) -> SpecMenuNode
    decreases ups.len(),
{
    if ups.len() == 0 {
        n
    } else {
        let prev = updates_applied(n, id, ups.drop_last());
        if ups.last().0 == id {
            node_with_all(prev, ups.last().1)
        } else {
            prev
        }
    }
}

/// The property removals of `rems` addressed to node `id`, applied to `n` in
/// order.
pub open spec fn removals_applied(
    n: SpecMenuNode,
    id: i32,
    rems: Seq<(i32, Seq<Seq<char>>)>,
) -> SpecMenuNode
    decreases rems.len(),
{
    if rems.len() == 0 {
        n
    } else {
        let prev = removals_applied(n, id, rems.drop_last());
        if rems.last().0 == id {
            node_without_all(prev, rems.last().1)
        } else {
            prev
        }
    }
}

/// A tree with an `ItemsPropertiesUpdated` patch applied to every node:
/// first the children, then the node's own updates, then its removals.
pub open spec fn patched(
    n: SpecMenuNode,
    ups: Seq<(i32, Seq<(Seq<char>, SpecPropValue)>)>,
    rems: Seq<(i32, Seq<Seq<char>>)>,
) -> SpecMenuNode
    decreases n,
{
    let node = SpecMenuNode { children: patched_all(n.children, ups, rems), ..n };
    removals_applied(updates_applied(node, n.id, ups), n.id, rems)
}

/// Each of the trees `s` patched.
pub open spec fn patched_all(
    s: Seq<SpecMenuNode>,
    ups: Seq<(i32, Seq<(Seq<char>, SpecPropValue)>)>,
    rems: Seq<(i32, Seq<Seq<char>>)>,
) -> Seq<SpecMenuNode>
    decreases s,
{
    if s.len() == 0 {
        seq![]
    } else {
        patched_all(s.subrange(0, s.len() - 1), ups, rems).push(patched(s[s.len() - 1], ups, rems))
    }
}

proof fn lemma_patched_all_index(
    s: Seq<SpecMenuNode>,
    ups: Seq<(i32, Seq<(Seq<char>, SpecPropValue)>)>,
    rems: Seq<(i32, Seq<Seq<char>>)>,
)
    ensures
        patched_all(s, ups, rems).len() == s.len(),
        forall|j: int|
            0 <= j < s.len() ==> #[trigger] patched_all(s, ups, rems)[j] == patched(s[j], ups, rems),
    decreases s.len(),
{
    if s.len() > 0 {
        let t = s.subrange(0, s.len() - 1);
        lemma_patched_all_index(t, ups, rems);
        assert forall|j: int| 0 <= j < s.len() implies #[trigger] patched_all(s, ups, rems)[j]
            == patched(s[j], ups, rems) by {
            if j < s.len() - 1 {
                assert(t[j] == s[j]);
            }
        }
    }
}

impl MenuTree {
    /// A copy with the `ItemsPropertiesUpdated` patch applied: properties of
    /// existing nodes replaced or reset, children untouched.
    pub fn updated(&self, updates: &[(i32, PropMap)], removals: &[(i32, Vec<String>)]) -> (r: Self)
        ensures
            r@ == (SpecMenuTree {
                revision: self@.revision,
                root: patched(self@.root, updates.deep_view(), removals.deep_view()),
            }),
    {
        MenuTree { revision: self.revision, root: patch_node(&self.root, updates, removals) }
    }

    /// The first node in pre-order whose id is `id`, the root included.
    pub fn find(&self, id: i32) -> (r: Option<&MenuNode>)
        ensures
            match r {
                Some(m) => found_in(self@.root, id) == Some(m@),
                None => found_in(self@.root, id) is None,
            },
    {
        self.root.find(id)
    }
}

fn patch_node(node: &MenuNode, updates: &[(i32, PropMap)], removals: &[(i32, Vec<String>)]) -> (r:
    MenuNode)
    ensures
        r@ == patched(node@, updates.deep_view(), removals.deep_view()),
    decreases node,
{
    let ghost ups = updates.deep_view();
    let ghost rems = removals.deep_view();
    let ghost kids = node@.children;
    let id = node.id;
    let mut children: Vec<MenuNode> = Vec::new();
    let mut i: usize = 0;
    while i < node.children.len()
        invariant
            i <= node.children@.len(),
            kids == node@.children,
            ups == updates.deep_view(),
            rems == removals.deep_view(),
            children@.len() == i,
            forall|j: int| 0 <= j < i ==> (#[trigger] children@[j])@ == patched(kids[j], ups, rems),
        decreases node.children.len() - i,
    {
        assert(kids[i as int] == node.children@[i as int]@);
        let c = patch_node(&node.children[i], updates, removals);
        children.push(c);
        i += 1;
    }
    let mut out = MenuNode {
        id,
        kind: node.kind,
        label: node.label.clone(),
        enabled: node.enabled,
        visible: node.visible,
        toggle_state: node.toggle_state,
        toggle_type: node.toggle_type,
        icon_name: node.icon_name.clone(),
        shortcut: clone_string_lists(&node.shortcut),
        children,
    };
    let ghost base = SpecMenuNode { children: patched_all(kids, ups, rems), ..node@ };
    proof {
        lemma_patched_all_index(kids, ups, rems);
        assert(out@.children =~= patched_all(kids, ups, rems));
        assert(out@ == base);
    }
    let mut k: usize = 0;
    assert(ups.take(0) =~= seq![]);
    while k < updates.len()
        invariant
            k <= updates@.len(),
            ups == updates.deep_view(),
            out@ == updates_applied(base, id, ups.take(k as int)),
        decreases updates.len() - k,
    {
        let (target, properties) = &updates[k];
        assert(ups.take(k + 1).drop_last() =~= ups.take(k as int));
        assert(ups.take(k + 1).last() == ups[k as int]);
        if *target == id {
            out = out.with_properties(properties);
        }
        k += 1;
    }
    assert(ups.take(updates@.len() as int) =~= ups);
    let ghost updated = out@;
    let mut k: usize = 0;
    assert(rems.take(0) =~= seq![]);
    while k < removals.len()
        invariant
            k <= removals@.len(),
            rems == removals.deep_view(),
            out@ == removals_applied(updated, id, rems.take(k as int)),
        decreases removals.len() - k,
    {
        let (target, names) = &removals[k];
        assert(rems.take(k + 1).drop_last() =~= rems.take(k as int));
        assert(rems.take(k + 1).last() == rems[k as int]);
        if *target == id {
            let ghost before = out@;
            let mut m: usize = 0;
            assert(names.deep_view().take(0) =~= seq![]);
            while m < names.len()
                invariant
                    m <= names@.len(),
                    out@ == node_without_all(before, names.deep_view().take(m as int)),
                decreases names.len() - m,
            {
                assert(names.deep_view().take(m + 1).drop_last() =~= names.deep_view().take(
                    m as int,
                ));
                out = out.without_property(names[m].as_str());
                m += 1;
            }
            assert(names.deep_view().take(names@.len() as int) =~= names.deep_view());
        }
        k += 1;
    }
    assert(rems.take(removals@.len() as int) =~= rems);
    out
}

/// Removing a property undoes whatever an assignment to it did: the node
/// is as if the property had been reset without the assignment.
pub proof fn lemma_removal_undoes_assignment(n: SpecMenuNode, name: Seq<char>, v: SpecPropValue)
    ensures
        node_without(node_with(n, name, v), name) == node_without(n, name),
{
}

/// A label without underscores is shown as it is.
pub proof fn lemma_plain_label_unchanged(s: Seq<char>)
    requires
        forall|j: int| 0 <= j < s.len() ==> s[j] != '_',
    ensures
        stripped(s) == s,
    decreases s.len(),
{
    if s.len() > 0 {
        lemma_plain_label_unchanged(s.skip(1));
        assert(seq![s[0]] + s.skip(1) =~= s);
    }
}

/// The ids of a tree in pre-order.
pub open spec fn preorder_ids(n: SpecMenuNode) -> Seq<i32>
    decreases n,
{
    seq![n.id] + preorder_ids_among(n.children)
}

/// The ids of the trees `s` in pre-order.
pub open spec fn preorder_ids_among(s: Seq<SpecMenuNode>) -> Seq<i32>
    decreases s,
{
    if s.len() == 0 {
        seq![]
    } else {
        preorder_ids_among(s.subrange(0, s.len() - 1)) + preorder_ids(s[s.len() - 1])
    }
}

proof fn lemma_assignments_keep_frame(n: SpecMenuNode, map: Seq<(Seq<char>, SpecPropValue)>)
    ensures
        node_with_all(n, map).id == n.id,
        node_with_all(n, map).children == n.children,
    decreases map.len(),
{
    if map.len() > 0 {
        lemma_assignments_keep_frame(n, map.drop_last());
    }
}

proof fn lemma_removals_keep_frame(n: SpecMenuNode, names: Seq<Seq<char>>)
    ensures
        node_without_all(n, names).id == n.id,
        node_without_all(n, names).children == n.children,
    decreases names.len(),
{
    if names.len() > 0 {
        lemma_removals_keep_frame(n, names.drop_last());
    }
}

proof fn lemma_updates_keep_frame(
    n: SpecMenuNode,
    id: i32,
    ups: Seq<(i32, Seq<(Seq<char>, SpecPropValue)>)>,
)
    ensures
        updates_applied(n, id, ups).id == n.id,
        updates_applied(n, id, ups).children == n.children,
    decreases ups.len(),
{
    if ups.len() > 0 {
        lemma_updates_keep_frame(n, id, ups.drop_last());
        lemma_assignments_keep_frame(updates_applied(n, id, ups.drop_last()), ups.last().1);
    }
}

proof fn lemma_removals_applied_keep_frame(
    n: SpecMenuNode,
    id: i32,
    rems: Seq<(i32, Seq<Seq<char>>)>,
)
    ensures
        removals_applied(n, id, rems).id == n.id,
        removals_applied(n, id, rems).children == n.children,
    decreases rems.len(),
{
    if rems.len() > 0 {
        lemma_removals_applied_keep_frame(n, id, rems.drop_last());
        lemma_removals_keep_frame(removals_applied(n, id, rems.drop_last()), rems.last().1);
    }
}

/// A patch changes properties only: the tree keeps its shape, node for node
/// with the same ids in the same pre-order, and so its size.
pub proof fn lemma_patch_keeps_shape(
    n: SpecMenuNode,
    ups: Seq<(i32, Seq<(Seq<char>, SpecPropValue)>)>,
    rems: Seq<(i32, Seq<Seq<char>>)>,
)
    ensures
        preorder_ids(patched(n, ups, rems)) == preorder_ids(n),
        node_count(patched(n, ups, rems)) == node_count(n),
    decreases n,
{
    let node = SpecMenuNode { children: patched_all(n.children, ups, rems), ..n };
    lemma_updates_keep_frame(node, n.id, ups);
    lemma_removals_applied_keep_frame(updates_applied(node, n.id, ups), n.id, rems);
    lemma_patch_all_keeps_shape(n.children, ups, rems);
}

proof fn lemma_patch_all_keeps_shape(
    s: Seq<SpecMenuNode>,
    ups: Seq<(i32, Seq<(Seq<char>, SpecPropValue)>)>,
    rems: Seq<(i32, Seq<Seq<char>>)>,
)
    ensures
        preorder_ids_among(patched_all(s, ups, rems)) == preorder_ids_among(s),
        nodes_count(patched_all(s, ups, rems)) == nodes_count(s),
    decreases s,
{
    if s.len() > 0 {
        let t = s.subrange(0, s.len() - 1);
        let p = patched_all(s, ups, rems);
        lemma_patch_all_keeps_shape(t, ups, rems);
        lemma_patch_keeps_shape(s[s.len() - 1], ups, rems);
        assert(p.subrange(0, p.len() - 1) =~= patched_all(t, ups, rems));
        assert(p[p.len() - 1] == patched(s[s.len() - 1], ups, rems));
    }
}

/// What a search finds carries the id that was asked for.
pub proof fn lemma_found_has_id(n: SpecMenuNode, id: i32)
    ensures
        found_in(n, id) matches Some(m) ==> m.id == id,
    decreases n,
{
    if n.id != id {
        lemma_found_among_has_id(n.children, id);
    }
}

proof fn lemma_found_among_has_id(s: Seq<SpecMenuNode>, id: i32)
    ensures
        found_among(s, id) matches Some(m) ==> m.id == id,
    decreases s,
{
    if s.len() > 0 {
        lemma_found_has_id(s[0], id);
        lemma_found_among_has_id(s.subrange(1, s.len() as int), id);
    }
}

/// Whether two lists of key chords are the same.
pub fn same_chords(a: &Vec<Vec<String>>, b: &Vec<Vec<String>>) -> (r: bool)
    ensures
        r == (a.deep_view() == b.deep_view()),
{
    if a.len() != b.len() {
        assert(a.deep_view().len() != b.deep_view().len());
        return false;
    }
    let mut i: usize = 0;
    while i < a.len()
        invariant
            i <= a@.len() == b@.len(),
            forall|j: int| 0 <= j < i ==> a.deep_view()[j] == b.deep_view()[j],
        decreases a.len() - i,
    {
        if !same_strings(&a[i], &b[i]) {
            assert(a.deep_view()[i as int] != b.deep_view()[i as int]);
            return false;
        }
        i += 1;
    }
    assert(a.deep_view() =~= b.deep_view());
    true
}

/// Whether two menu trees are equal, node for node.
pub fn same_node(a: &MenuNode, b: &MenuNode) -> (r: bool)
    ensures
        r == (a@ == b@),
    decreases a,
{
    if a.id != b.id || a.kind != b.kind || a.enabled != b.enabled || a.visible != b.visible
        || a.toggle_state != b.toggle_state || a.toggle_type != b.toggle_type {
        return false;
    }
    if !same_text(a.label.as_str(), b.label.as_str()) || !same_text(
        a.icon_name.as_str(),
        b.icon_name.as_str(),
    ) {
        return false;
    }
    if !same_chords(&a.shortcut, &b.shortcut) {
        return false;
    }
    if a.children.len() != b.children.len() {
        assert(a@.children.len() != b@.children.len());
        return false;
    }
    let mut i: usize = 0;
    while i < a.children.len()
        invariant
            i <= a.children@.len() == b.children@.len(),
            forall|j: int| 0 <= j < i ==> a@.children[j] == b@.children[j],
        decreases a.children.len() - i,
    {
        assert(a@.children[i as int] == a.children@[i as int]@);
        assert(b@.children[i as int] == b.children@[i as int]@);
        if !same_node(&a.children[i], &b.children[i]) {
            return false;
        }
        i += 1;
    }
    assert(a@.children =~= b@.children);
    true
}

/// Whether two menus are equal: same revision, same tree.
pub fn same_menu(a: &MenuTree, b: &MenuTree) -> (r: bool)
    ensures
        r == (a@ == b@),
{
    a.revision == b.revision && same_node(&a.root, &b.root)
}

/// Whether two optional menus are equal.
pub fn same_optional_menu(a: &Option<MenuTree>, b: &Option<MenuTree>) -> (r: bool)
    ensures
        r == (a.deep_view() == b.deep_view()),
{
    match (a, b) {
        (Some(x), Some(y)) => same_menu(x, y),
        (None, None) => true,
        _ => false,
    }
}

fn text_of(value: &PropValue) -> (r: String)
    ensures
        r@ == prop_text(value@),
{
    match value.as_str() {
        Some(text) => text.to_owned(),
        None => String::new(),
    }
}

} // verus!
