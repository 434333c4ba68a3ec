//! The state machine of the tray: what is registered, what is configured and
//! what should happen next.
//!
//! [`update`] is the only place state changes. It is a pure fold over
//! [`Event`]s that returns the next [`State`] and a list of [`Effect`]s —
//! side effects like emitting D-Bus signals or saving the config file are
//! carried out by the caller. That keeps every decision in the tray testable
//! without a session bus.

use vstd::prelude::*;
use vstd::set_lib::{lemma_int_range, lemma_len_subset, lemma_map_size, set_int_range};

use crate::config::{same_config, Config, SpecConfig};
use crate::menu::{same_optional_menu, MenuTree, SpecMenuTree};
use crate::rules::{display_order, is_visible, item_visible, ordered_keys};
use crate::view::{item_view_of, ItemView, SpecItemView};
use crate::sni::{same_props, same_service, ItemProps, ServiceRef, SpecItemProps, SpecServiceRef};
use crate::text::{
    chars_of, concat, control, decimal, is_control, lemma_decimal_injective, push_decimal,
    same_text, string_of, trim, trimmed,
};

verus! {

/// Stable identifier of a tray item, used in the panel, in the settings app
/// and in the config file. Derived from the application's `Id` so that it
/// survives the application restarting; uniquified when two items collide.
#[derive(Debug, PartialEq, Eq, PartialOrd, Ord, Hash)]
pub struct Key(String);

impl View for Key {
    type V = Seq<char>;

    closed spec fn view(&self) -> Seq<char> {
        self.0@
    }
}

impl DeepView for Key {
    type V = Seq<char>;

    open spec fn deep_view(&self) -> Seq<char> {
        self@
    }
}

impl Clone for Key {
    fn clone(&self) -> (r: Self)
        ensures
            r@ == self@,
    {
        Key(self.0.clone())
    }
}

impl Key {
    pub fn new(value: &str) -> (r: Self)
        ensures
            r@ == value@,
    {
        Key(value.to_owned())
    }

    /// A key holding `value` itself.
    pub fn from_string(value: String) -> (r: Self)
        ensures
            r@ == value@,
    {
        Key(value)
    }

    pub fn as_str(&self) -> (r: &str)
        ensures
            r@ == self@,
    {
        self.0.as_str()
    }

    /// The key as it is written in the config file and shown to users.
    pub fn to_string(&self) -> (r: String)
        ensures
            r@ == self@,
    {
        self.0.clone()
    }
}

impl From<String> for Key {
    fn from(value: String) -> Self {
        Key(value)
    }
}

impl vstd::std_specs::convert::FromSpecImpl<String> for Key {
    open spec fn obeys_from_spec() -> bool {
        true
    }

    closed spec fn from_spec(v: String) -> Key {
        Key(v)
    }
}

/// A registered tray item: where it lives, what it says about itself and its
/// menu, if it has one.
#[derive(Debug, PartialEq)]
pub struct Item {
    pub key: Key,
    pub service: ServiceRef,
    pub props: ItemProps,
    pub menu: Option<MenuTree>,
}

/// The mathematical value of an [`Item`].
pub struct SpecItem {
    pub key: Seq<char>,
    pub service: SpecServiceRef,
    pub props: SpecItemProps,
    pub menu: Option<SpecMenuTree>,
}

impl View for Item {
    type V = SpecItem;

    open spec fn view(&self) -> SpecItem {
        SpecItem {
            key: self.key@,
            service: self.service@,
            props: self.props@,
            menu: self.menu.deep_view(),
        }
    }
}

impl DeepView for Item {
    type V = SpecItem;

    open spec fn deep_view(&self) -> SpecItem {
        self@
    }
}

impl Clone for Item {
    fn clone(&self) -> (r: Self)
        ensures
            r@ == self@,
    {
        let menu = match &self.menu {
            Some(m) => Some(m.clone()),
            None => None,
        };
        Item {
            key: self.key.clone(),
            service: self.service.clone(),
            props: self.props.clone(),
            menu,
        }
    }
}

/// The whole tray: configuration plus the registered items in registration
/// order.
#[derive(Debug, PartialEq)]
pub struct State {
    pub config: Config,
    pub items: Vec<Item>,
    /// Bumped whenever the visible content changes; used by clients to skip
    /// stale updates.
    pub revision: u64,
}

/// The mathematical value of a [`State`].
pub struct SpecState {
    pub config: SpecConfig,
    pub items: Seq<SpecItem>,
    pub revision: u64,
}

impl View for State {
    type V = SpecState;

    open spec fn view(&self) -> SpecState {
        SpecState { config: self.config@, items: self.items.deep_view(), revision: self.revision }
    }
}

impl Clone for State {
    fn clone(&self) -> (r: Self)
        ensures
            r@ == self@,
    {
        let mut items: Vec<Item> = Vec::new();
        let mut i: usize = 0;
        while i < self.items.len()
            invariant
                i <= self.items@.len(),
                items.deep_view() == self.items.deep_view().take(i as int),
            decreases self.items.len() - i,
        {
            let ghost before = items.deep_view();
            items.push(self.items[i].clone());
            assert(items.deep_view() =~= before.push(self.items.deep_view()[i as int]));
            assert(self.items.deep_view().take(i + 1) =~= self.items.deep_view().take(
                i as int,
            ).push(self.items.deep_view()[i as int]));
            i += 1;
        }
        assert(self.items.deep_view().take(self.items@.len() as int) =~= self.items.deep_view());
        State { config: self.config.clone(), items, revision: self.revision }
    }
}

impl Default for State {
    fn default() -> (r: Self)
        ensures
            r@ == (SpecState { config: crate::config::default_config(), items: seq![], revision: 0 }),
    {
        let r = State { config: Config::default(), items: Vec::new(), revision: 0 };
        assert(r@.items =~= seq![]);
        r
    }
}

/// The keys of `items`, in order.
pub open spec fn keys_of(items: Seq<SpecItem>) -> Seq<Seq<char>> {
    items.map_values(|item: SpecItem| item.key)
}

/// `i` is the first position of an item with key `key`.
pub open spec fn first_with_key(items: Seq<SpecItem>, key: Seq<char>, i: int) -> bool {
    &&& 0 <= i < items.len()
    &&& items[i].key == key
    &&& forall|j: int| 0 <= j < i ==> items[j].key != key
}

/// The position of the first item with key `key`, if any.
pub open spec fn key_index(items: Seq<SpecItem>, key: Seq<char>) -> Option<int> {
    if exists|i: int| first_with_key(items, key, i) {
        Some(choose|i: int| first_with_key(items, key, i))
    } else {
        None
    }
}

/// At most one position is the first with a given key.
pub proof fn lemma_first_with_key_unique(items: Seq<SpecItem>, key: Seq<char>, i: int, j: int)
    requires
        first_with_key(items, key, i),
        first_with_key(items, key, j),
    ensures
        i == j,
{
    if i < j {
        assert(items[i].key == key);
    } else if j < i {
        assert(items[j].key == key);
    }
}

proof fn lemma_first_with_key_exists(items: Seq<SpecItem>, key: Seq<char>, k: int)
    requires
        0 <= k < items.len(),
        items[k].key == key,
    ensures
        exists|i: int| first_with_key(items, key, i),
    decreases k,
{
    if exists|j: int| 0 <= j < k && items[j].key == key {
        let j = choose|j: int| 0 <= j < k && items[j].key == key;
        lemma_first_with_key_exists(items, key, j);
    } else {
        assert(first_with_key(items, key, k));
    }
}

/// The item index of a key is found exactly when some item has that key.
pub proof fn lemma_key_index(items: Seq<SpecItem>, key: Seq<char>)
    ensures
        key_index(items, key) is Some <==> keys_of(items).contains(key),
        key_index(items, key) matches Some(i) ==> first_with_key(items, key, i),
{
    if keys_of(items).contains(key) {
        let k = choose|k: int| 0 <= k < keys_of(items).len() && keys_of(items)[k] == key;
        lemma_first_with_key_exists(items, key, k);
    } else {
        if exists|i: int| first_with_key(items, key, i) {
            let i = choose|i: int| first_with_key(items, key, i);
            assert(keys_of(items)[i] == key);
        }
    }
}

/// A user facing id made into a config-safe key: trimmed, control
/// characters replaced, and a placeholder when nothing is left.
pub open spec fn sanitized(s: Seq<char>) -> Seq<char> {
    let t = trim(s).map_values(|c: char| if is_control(c) { '_' } else { c });
    if t.len() == 0 {
        "item"@
    } else {
        t
    }
}

/// The key tried for the `n`-th item wanting `base`: `base#n`.
pub open spec fn candidate(base: Seq<char>, n: nat) -> Seq<char> {
    base + seq!['#'] + decimal(n)
}

/// `n` is the least suffix from 2 on whose candidate no key in `keys` uses.
pub open spec fn free_suffix(keys: Seq<Seq<char>>, base: Seq<char>, n: nat) -> bool {
    &&& n >= 2
    &&& !keys.contains(candidate(base, n))
    &&& forall|m: nat| 2 <= m < n ==> keys.contains(#[trigger] candidate(base, m))
}

/// The key an item preferring `preferred` gets next to items with `keys`:
/// the sanitised preference itself when it is free, otherwise the first free
/// `base#n`.
pub open spec fn allocated_key(keys: Seq<Seq<char>>, preferred: Seq<char>) -> Seq<char> {
    let base = sanitized(preferred);
    if !keys.contains(base) {
        base
    } else {
        candidate(base, choose|n: nat| free_suffix(keys, base, n))
    }
}

/// Different suffixes make different candidate keys.
pub proof fn lemma_candidate_injective(base: Seq<char>, a: nat, b: nat)
    requires
        candidate(base, a) == candidate(base, b),
    ensures
        a == b,
{
    let k = base.len() + 1int;
    assert(candidate(base, a).skip(k) =~= decimal(a));
    assert(candidate(base, b).skip(k) =~= decimal(b));
    lemma_decimal_injective(a, b);
}

/// Only as many candidates as there are keys can be taken: if every suffix
/// below `n` is taken, `n` is at most two more than the number of keys.
proof fn lemma_taken_candidates_bounded(keys: Seq<Seq<char>>, base: Seq<char>, n: nat)
    requires
        n >= 2,
        forall|m: nat| 2 <= m < n ==> keys.contains(#[trigger] candidate(base, m)),
    ensures
        n <= keys.len() + 2,
{
    let x = set_int_range(2, n as int);
    let f = |i: int| candidate(base, i as nat);
    let y = x.map(f);
    lemma_int_range(2, n as int);
    assert forall|a: int, b: int| x.contains(a) && x.contains(b) && #[trigger] f(a) == #[trigger] f(
        b,
    ) implies a == b by {
        lemma_candidate_injective(base, a as nat, b as nat);
    }
    lemma_map_size(x, y, f);
    assert forall|k: Seq<char>| y.contains(k) implies keys.to_set().contains(k) by {
        let i = choose|i: int| x.contains(i) && f(i) == k;
        assert(keys.contains(candidate(base, i as nat)));
    }
    keys.lemma_cardinality_of_set();
    lemma_len_subset(y, keys.to_set());
}

proof fn lemma_free_suffix_from(keys: Seq<Seq<char>>, base: Seq<char>, n: nat)
    requires
        n >= 2,
        forall|m: nat| 2 <= m < n ==> keys.contains(#[trigger] candidate(base, m)),
    ensures
        exists|k: nat| free_suffix(keys, base, k),
    decreases keys.len() + 3 - n,
{
    lemma_taken_candidates_bounded(keys, base, n);
    if keys.contains(candidate(base, n)) {
        lemma_taken_candidates_bounded(keys, base, n + 1);
        lemma_free_suffix_from(keys, base, n + 1);
    } else {
        assert(free_suffix(keys, base, n));
    }
}

/// Some suffix is always free, so the key allocation is well defined.
pub proof fn lemma_free_suffix_exists(keys: Seq<Seq<char>>, base: Seq<char>)
    ensures
        exists|n: nat| free_suffix(keys, base, n),
{
    lemma_free_suffix_from(keys, base, 2);
}

/// Only one suffix is the first free one.
pub proof fn lemma_free_suffix_unique(keys: Seq<Seq<char>>, base: Seq<char>, a: nat, b: nat)
    requires
        free_suffix(keys, base, a),
        free_suffix(keys, base, b),
    ensures
        a == b,
{
}

/// Turn a user facing id into a config-safe key.
fn sanitize_key(preferred: &str) -> (r: String)
    ensures
        r@ == sanitized(preferred@),
{
    let t = trimmed(preferred);
    let v = chars_of(t.as_str());
    let mut out: Vec<char> = Vec::new();
    let mut i: usize = 0;
    while i < v.len()
        invariant
            i <= v@.len(),
            v@ == trim(preferred@),
            out@ == v@.take(i as int).map_values(|c: char| if is_control(c) { '_' } else { c }),
        decreases v.len() - i,
    {
        let c = v[i];
        out.push(if control(c) { '_' } else { c });
        assert(v@.take(i + 1) =~= v@.take(i as int).push(c));
        assert(out@ =~= v@.take(i + 1).map_values(|c: char| if is_control(c) { '_' } else { c }));
        i += 1;
    }
    assert(v@.take(v@.len() as int) =~= v@);
    if out.len() == 0 {
        "item".to_owned()
    } else {
        string_of(&out, 0, out.len())
    }
}

impl State {
    /// The first item with key `key`.
    pub fn item(&self, key: &str) -> (r: Option<&Item>)
        ensures
            match key_index(self@.items, key@) {
                Some(i) => r is Some && r->0@ == self@.items[i],
                None => r is None,
            },
    {
        let mut i: usize = 0;
        while i < self.items.len()
            invariant
                i <= self.items@.len(),
                forall|j: int| 0 <= j < i ==> self@.items[j].key != key@,
            decreases self.items.len() - i,
        {
            assert(self@.items[i as int] == self.items@[i as int]@);
            if same_text(self.items[i].key.as_str(), key) {
                proof {
                    assert(first_with_key(self@.items, key@, i as int));
                    let k = choose|k: int| first_with_key(self@.items, key@, k);
                    lemma_first_with_key_unique(self@.items, key@, i as int, k);
                }
                return Some(&self.items[i]);
            }
            i += 1;
        }
        None
    }

    /// The first item with key `key`, for changing it in place.
    pub fn item_mut(&mut self, key: &str) -> (r: Option<&mut Item>)
        ensures
            match key_index(old(self)@.items, key@) {
                Some(i) => {
                    &&& r is Some
                    &&& (*r->0)@ == old(self)@.items[i]
                    &&& final(self)@.items =~= old(self)@.items.update(i, (*final(r->0))@)
                },
                None => r is None && final(self)@.items == old(self)@.items,
            },
            final(self)@.config == old(self)@.config,
            final(self)@.revision == old(self)@.revision,
    {
        let mut i: usize = 0;
        while i < self.items.len()
            invariant
                i <= self.items@.len(),
                *self == *old(self),
                forall|j: int| 0 <= j < i ==> self@.items[j].key != key@,
            decreases self.items.len() - i,
        {
            assert(self@.items[i as int] == self.items@[i as int]@);
            if same_text(self.items[i].key.as_str(), key) {
                proof {
                    assert(first_with_key(self@.items, key@, i as int));
                    let k = choose|k: int| first_with_key(self@.items, key@, k);
                    lemma_first_with_key_unique(self@.items, key@, i as int, k);
                }
                return Some(&mut self.items[i]);
            }
            i += 1;
        }
        proof {
            if exists|k: int| first_with_key(self@.items, key@, k) {
                let k = choose|k: int| first_with_key(self@.items, key@, k);
                assert(self@.items[k].key == key@);
            }
        }
        None
    }

    /// The position of the first item with key `key`.
    pub fn position(&self, key: &str) -> (r: Option<usize>)
        ensures
            match r {
                Some(i) => key_index(self@.items, key@) == Some(i as int),
                None => key_index(self@.items, key@) is None,
            },
    {
        let mut i: usize = 0;
        while i < self.items.len()
            invariant
                i <= self.items@.len(),
                forall|j: int| 0 <= j < i ==> self@.items[j].key != key@,
            decreases self.items.len() - i,
        {
            assert(self@.items[i as int] == self.items@[i as int]@);
            if same_text(self.items[i].key.as_str(), key) {
                proof {
                    assert(first_with_key(self@.items, key@, i as int));
                    let k = choose|k: int| first_with_key(self@.items, key@, k);
                    lemma_first_with_key_unique(self@.items, key@, i as int, k);
                }
                return Some(i);
            }
            i += 1;
        }
        proof {
            if exists|k: int| first_with_key(self@.items, key@, k) {
                let k = choose|k: int| first_with_key(self@.items, key@, k);
                assert(self@.items[k].key == key@);
            }
        }
        None
    }

    /// Whether some item has key `key`.
    pub fn has_key(&self, key: &str) -> (r: bool)
        ensures
            r == keys_of(self@.items).contains(key@),
    {
        proof {
            lemma_key_index(self@.items, key@);
        }
        self.item(key).is_some()
    }

    /// A key derived from `preferred` that no current item uses.
    pub fn allocate_key(&self, preferred: &str) -> (r: Key)
        ensures
            r@ == allocated_key(keys_of(self@.items), preferred@),
            !keys_of(self@.items).contains(r@),
    {
        let ghost keys = keys_of(self@.items);
        let base = sanitize_key(preferred);
        if !self.has_key(base.as_str()) {
            return Key::from_string(base);
        }
        let count = self.items.len();
        let mut suffix: u128 = 2;
        loop
            invariant
                keys == keys_of(self@.items),
                base@ == sanitized(preferred@),
                keys.contains(base@),
                2 <= suffix <= keys.len() + 2,
                keys.len() == self.items@.len(),
                count == self.items@.len(),
                count <= usize::MAX,
                forall|m: nat| 2 <= m < suffix ==> keys.contains(#[trigger] candidate(base@, m)),
            decreases keys.len() + 2 - suffix,
        {
            let mut candidate_key = concat(base.as_str(), "#");
            push_decimal(&mut candidate_key, suffix);
            proof {
                reveal_strlit("#");
                assert(candidate_key@ =~= candidate(base@, suffix as nat));
            }
            if !self.has_key(candidate_key.as_str()) {
                proof {
                    assert(free_suffix(keys, base@, suffix as nat));
                    let n = choose|n: nat| free_suffix(keys, base@, n);
                    lemma_free_suffix_unique(keys, base@, suffix as nat, n);
                }
                return Key::from_string(candidate_key);
            }
            proof {
                lemma_taken_candidates_bounded(keys, base@, (suffix + 1) as nat);
            }
            suffix = suffix + 1;
        }
    }
}

/// Something that happened to the tray.
#[derive(Debug, PartialEq)]
pub enum Event {
    /// An application registered a tray item.
    Registered { service: ServiceRef, props: ItemProps },
    /// Its bus name went away or it stopped answering.
    Vanished(Key),
    /// It published new properties (a new icon, a new status, ...).
    PropsUpdated { key: Key, props: ItemProps },
    /// Its menu changed.
    MenuUpdated { key: Key, menu: Option<MenuTree> },
    /// The user changed the configuration.
    ConfigUpdated(Config),
}

/// The mathematical value of an [`Event`].
pub enum SpecEvent {
    Registered { service: SpecServiceRef, props: SpecItemProps },
    Vanished(Seq<char>),
    PropsUpdated { key: Seq<char>, props: SpecItemProps },
    MenuUpdated { key: Seq<char>, menu: Option<SpecMenuTree> },
    ConfigUpdated(SpecConfig),
}

impl View for Event {
    type V = SpecEvent;

    open spec fn view(&self) -> SpecEvent {
        match self {
            Event::Registered { service, props } => SpecEvent::Registered {
                service: service@,
                props: props@,
            },
            Event::Vanished(key) => SpecEvent::Vanished(key@),
            Event::PropsUpdated { key, props } => SpecEvent::PropsUpdated {
                key: key@,
                props: props@,
            },
            Event::MenuUpdated { key, menu } => SpecEvent::MenuUpdated {
                key: key@,
                menu: menu.deep_view(),
            },
            Event::ConfigUpdated(config) => SpecEvent::ConfigUpdated(config@),
        }
    }
}

impl DeepView for Event {
    type V = SpecEvent;

    open spec fn deep_view(&self) -> SpecEvent {
        self@
    }
}

/// A side effect for the caller to carry out.
#[derive(Debug, PartialEq)]
pub enum Effect {
    /// The list of visible items changed; clients should call `ListItems`.
    ItemsChanged { revision: u64 },
    /// One item's menu changed.
    MenuChanged { key: Key },
    /// The configuration changed; clients should call `GetConfig`.
    ConfigChanged { revision: u64 },
    /// The configuration should be written to disk.
    PersistConfig(Config),
}

/// The mathematical value of an [`Effect`].
pub enum SpecEffect {
    ItemsChanged { revision: u64 },
    MenuChanged { key: Seq<char> },
    ConfigChanged { revision: u64 },
    PersistConfig(SpecConfig),
}

impl View for Effect {
    type V = SpecEffect;

    open spec fn view(&self) -> SpecEffect {
        match self {
            Effect::ItemsChanged { revision } => SpecEffect::ItemsChanged { revision: *revision },
            Effect::MenuChanged { key } => SpecEffect::MenuChanged { key: key@ },
            Effect::ConfigChanged { revision } => SpecEffect::ConfigChanged { revision: *revision },
            Effect::PersistConfig(config) => SpecEffect::PersistConfig(config@),
        }
    }
}

impl DeepView for Effect {
    type V = SpecEffect;

    open spec fn deep_view(&self) -> SpecEffect {
        self@
    }
}

impl Clone for Effect {
    fn clone(&self) -> (r: Self)
        ensures
            r@ == self@,
    {
        match self {
            Effect::ItemsChanged { revision } => Effect::ItemsChanged { revision: *revision },
            Effect::MenuChanged { key } => Effect::MenuChanged { key: key.clone() },
            Effect::ConfigChanged { revision } => Effect::ConfigChanged { revision: *revision },
            Effect::PersistConfig(config) => Effect::PersistConfig(config.clone()),
        }
    }
}

/// The revision bumped and the visible items announced.
pub open spec fn announced(s: SpecState) -> (SpecState, Seq<SpecEffect>) {
    let revision = (s.revision + 1) as u64;
    (SpecState { revision, ..s }, seq![SpecEffect::ItemsChanged { revision }])
}

/// Holds of items living elsewhere than `service`.
pub open spec fn other_service(service: SpecServiceRef) -> spec_fn(SpecItem) -> bool {
    |item: SpecItem| item.service != service
}

/// Holds of items with another key than `key`.
pub open spec fn other_key(key: Seq<char>) -> spec_fn(SpecItem) -> bool {
    |item: SpecItem| item.key != key
}

/// What an item would like to be called: its id, or its title without one.
pub open spec fn preferred_name(props: SpecItemProps) -> Seq<char> {
    if props.id.len() == 0 {
        props.title
    } else {
        props.id
    }
}

/// An item registers: any earlier incarnation at the same service goes, and
/// the new one is appended under a fresh key.
pub open spec fn on_registered(s: SpecState, service: SpecServiceRef, props: SpecItemProps) -> (
    SpecState,
    Seq<SpecEffect>,
) {
    let kept = s.items.filter(other_service(service));
    let key = allocated_key(keys_of(kept), preferred_name(props));
    announced(SpecState { items: kept.push(SpecItem { key, service, props, menu: None }), ..s })
}

/// An item goes away; nothing happens when no item had that key.
pub open spec fn on_vanished(s: SpecState, key: Seq<char>) -> (SpecState, Seq<SpecEffect>) {
    let kept = s.items.filter(other_key(key));
    if kept.len() == s.items.len() {
        (s, seq![])
    } else {
        announced(SpecState { items: kept, ..s })
    }
}

/// An item publishes properties; only a real change is announced.
pub open spec fn on_props_updated(s: SpecState, key: Seq<char>, props: SpecItemProps) -> (
    SpecState,
    Seq<SpecEffect>,
) {
    match key_index(s.items, key) {
        None => (s, seq![]),
        Some(i) => if s.items[i].props == props {
            (s, seq![])
        } else {
            announced(SpecState { items: s.items.update(i, SpecItem { props, ..s.items[i] }), ..s })
        },
    }
}

/// An item's menu changes; only the menu is announced, and only when it
/// really changed.
pub open spec fn on_menu_updated(s: SpecState, key: Seq<char>, menu: Option<SpecMenuTree>) -> (
    SpecState,
    Seq<SpecEffect>,
) {
    match key_index(s.items, key) {
        None => (s, seq![]),
        Some(i) => if s.items[i].menu == menu {
            (s, seq![])
        } else {
            (
                SpecState { items: s.items.update(i, SpecItem { menu, ..s.items[i] }), ..s },
                seq![SpecEffect::MenuChanged { key }],
            )
        },
    }
}

/// The user sets a configuration: it is normalised, the items are announced,
/// and a real change is announced and persisted.
pub open spec fn on_config_updated(s: SpecState, c: SpecConfig) -> (SpecState, Seq<SpecEffect>) {
    let config = crate::config::normalize(c);
    let next = SpecState { config, ..announced(s).0 };
    if s.config != config {
        (
            next,
            announced(s).1 + seq![
                SpecEffect::ConfigChanged { revision: next.revision },
                SpecEffect::PersistConfig(config),
            ],
        )
    } else {
        (next, announced(s).1)
    }
}

/// One event folded into the state.
pub open spec fn step(s: SpecState, e: SpecEvent) -> (SpecState, Seq<SpecEffect>) {
    match e {
        SpecEvent::Registered { service, props } => on_registered(s, service, props),
        SpecEvent::Vanished(key) => on_vanished(s, key),
        SpecEvent::PropsUpdated { key, props } => on_props_updated(s, key, props),
        SpecEvent::MenuUpdated { key, menu } => on_menu_updated(s, key, menu),
        SpecEvent::ConfigUpdated(config) => on_config_updated(s, config),
    }
}

/// A sequence of events folded into the state, with all their effects in
/// order.
pub open spec fn steps(s: SpecState, events: Seq<SpecEvent>) -> (SpecState, Seq<SpecEffect>)
    decreases events.len(),
{
    if events.len() == 0 {
        (s, seq![])
    } else {
        let (before, effects) = steps(s, events.drop_last());
        let (after, more) = step(before, events.last());
        (after, effects + more)
    }
}

/// The items of `items` living elsewhere than `service`, in order.
fn retain_other_services(items: Vec<Item>, service: &ServiceRef) -> (r: Vec<Item>)
    ensures
        r.deep_view() == items.deep_view().filter(other_service(service@)),
{
    let ghost orig = items.deep_view();
    let ghost keep = other_service(service@);
    let mut rest = items;
    let mut kept: Vec<Item> = Vec::new();
    assert(orig.take(0).filter(keep) =~= seq![]) by {
        reveal(Seq::filter);
    }
    assert(orig.skip(0) =~= orig);
    while rest.len() > 0
        invariant
            keep == other_service(service@),
            rest@.len() <= orig.len(),
            rest.deep_view() == orig.skip(orig.len() - rest@.len()),
            kept.deep_view() == orig.take(orig.len() - rest@.len()).filter(keep),
        decreases rest.len(),
    {
        let ghost done = orig.len() - rest@.len();
        let ghost prev = rest@;
        let ghost prev_view = rest.deep_view();
        assert(prev_view[0] == prev[0]@);
        let item = rest.remove(0);
        assert(item == prev[0]);
        assert(item@ == orig[done]);
        assert forall|j: int| 0 <= j < rest@.len() implies rest.deep_view()[j] == orig.skip(
            done + 1,
        )[j] by {
            assert(rest@[j] == prev[j + 1]);
            assert(prev_view[j + 1] == prev[j + 1]@);
        }
        assert(rest.deep_view() =~= orig.skip(done + 1));
        assert(orig.take(done + 1) =~= orig.take(done).push(orig[done]));
        proof {
            orig.take(done).lemma_filter_push(orig[done], keep);
        }
        assert(keep(orig[done]) == (orig[done].service != service@));
        if !same_service(&item.service, service) {
            let ghost before = kept.deep_view();
            kept.push(item);
            assert(kept.deep_view() =~= before.push(orig[done]));
        }
    }
    assert(orig.take(orig.len() as int) =~= orig);
    kept
}

/// The items of `items` with another key than `key`, in order.
fn retain_other_keys(items: Vec<Item>, key: &Key) -> (r: Vec<Item>)
    ensures
        r.deep_view() == items.deep_view().filter(other_key(key@)),
{
    let ghost orig = items.deep_view();
    let ghost keep = other_key(key@);
    let mut rest = items;
    let mut kept: Vec<Item> = Vec::new();
    assert(orig.take(0).filter(keep) =~= seq![]) by {
        reveal(Seq::filter);
    }
    assert(orig.skip(0) =~= orig);
    while rest.len() > 0
        invariant
            keep == other_key(key@),
            rest@.len() <= orig.len(),
            rest.deep_view() == orig.skip(orig.len() - rest@.len()),
            kept.deep_view() == orig.take(orig.len() - rest@.len()).filter(keep),
        decreases rest.len(),
    {
        let ghost done = orig.len() - rest@.len();
        let ghost prev = rest@;
        let ghost prev_view = rest.deep_view();
        assert(prev_view[0] == prev[0]@);
        let item = rest.remove(0);
        assert(item == prev[0]);
        assert(item@ == orig[done]);
        assert forall|j: int| 0 <= j < rest@.len() implies rest.deep_view()[j] == orig.skip(
            done + 1,
        )[j] by {
            assert(rest@[j] == prev[j + 1]);
            assert(prev_view[j + 1] == prev[j + 1]@);
        }
        assert(rest.deep_view() =~= orig.skip(done + 1));
        assert(orig.take(done + 1) =~= orig.take(done).push(orig[done]));
        proof {
            orig.take(done).lemma_filter_push(orig[done], keep);
        }
        assert(keep(orig[done]) == (orig[done].key != key@));
        if !same_text(item.key.as_str(), key.as_str()) {
            let ghost before = kept.deep_view();
            kept.push(item);
            assert(kept.deep_view() =~= before.push(orig[done]));
        }
    }
    assert(orig.take(orig.len() as int) =~= orig);
    kept
}

/// Bump the revision and announce that the visible items may have changed.
fn announce_items(state: State) -> (r: (State, Vec<Effect>))
    requires
        state.revision < u64::MAX,
    ensures
        r.0@ == announced(state@).0,
        r.1.deep_view() == announced(state@).1,
{
    let ghost before = state@;
    let mut state = state;
    state.revision = state.revision + 1;
    let effects = vec![Effect::ItemsChanged { revision: state.revision }];
    assert(effects.deep_view() =~= announced(before).1);
    (state, effects)
}

proof fn lemma_filter_keeps_all<A>(s: Seq<A>, p: spec_fn(A) -> bool)
    requires
        s.filter(p).len() == s.len(),
    ensures
        s.filter(p) == s,
    decreases s.len(),
{
    reveal(Seq::filter);
    if s.len() > 0 {
        s.drop_last().lemma_filter_len(p);
        if p(s.last()) {
            lemma_filter_keeps_all(s.drop_last(), p);
            assert(s.drop_last().push(s.last()) =~= s);
        }
    }
}

fn register(state: State, service: ServiceRef, props: ItemProps) -> (r: (State, Vec<Effect>))
    requires
        state.revision < u64::MAX,
    ensures
        r.0@ == on_registered(state@, service@, props@).0,
        r.1.deep_view() == on_registered(state@, service@, props@).1,
{
    // Re-registration is how applications update their identity after a
    // restart; drop the previous incarnation first so it cannot linger.
    let State { config, items, revision } = state;
    let items = retain_other_services(items, &service);
    let mut next = State { config, items, revision };
    let key = if props.id.as_str().is_empty() {
        next.allocate_key(props.title.as_str())
    } else {
        next.allocate_key(props.id.as_str())
    };
    let ghost kept = next@.items;
    let item = Item { key, service, props, menu: None };
    let ghost added = item@;
    next.items.push(item);
    assert(next@.items =~= kept.push(added));
    announce_items(next)
}

fn vanish(state: State, key: Key) -> (r: (State, Vec<Effect>))
    requires
        state.revision < u64::MAX || !keys_of(state@.items).contains(key@),
    ensures
        r.0@ == on_vanished(state@, key@).0,
        r.1.deep_view() == on_vanished(state@, key@).1,
{
    let ghost s = state@;
    let before = state.items.len();
    let State { config, items, revision } = state;
    let items = retain_other_keys(items, &key);
    let next = State { config, items, revision };
    if next.items.len() == before {
        proof {
            lemma_filter_keeps_all(s.items, other_key(key@));
        }
        let none: Vec<Effect> = Vec::new();
        assert(none.deep_view() =~= seq![]);
        return (next, none);
    }
    proof {
        if !keys_of(s.items).contains(key@) {
            assert forall|i: int| 0 <= i < s.items.len() implies #[trigger] other_key(key@)(
                s.items[i],
            ) by {
                assert(keys_of(s.items)[i] == s.items[i].key);
            }
            lemma_filter_all(s.items, other_key(key@));
        }
    }
    announce_items(next)
}

fn update_props(state: State, key: Key, props: ItemProps) -> (r: (State, Vec<Effect>))
    requires
        state.revision < u64::MAX || !announces(state@, SpecEvent::PropsUpdated { key: key@, props: props@ }),
    ensures
        r.0@ == on_props_updated(state@, key@, props@).0,
        r.1.deep_view() == on_props_updated(state@, key@, props@).1,
{
    let none: Vec<Effect> = Vec::new();
    assert(none.deep_view() =~= seq![]);
    let mut state = state;
    let ghost s = state@;
    proof {
        lemma_key_index(s.items, key@);
    }
    let found = state.position(key.as_str());
    match found {
        None => (state, none),
        Some(i) => {
            assert(s.items[i as int] == state.items@[i as int]@);
            if same_props(&state.items[i].props, &props) {
                return (state, none);
            }
            let ghost old_item = s.items[i as int];
            state.items[i].props = props;
            assert(state@.items =~= s.items.update(i as int, SpecItem { props: props@, ..old_item }));
            announce_items(state)
        },
    }
}

fn update_menu(state: State, key: Key, menu: Option<MenuTree>) -> (r: (State, Vec<Effect>))
    ensures
        r.0@ == on_menu_updated(state@, key@, menu.deep_view()).0,
        r.1.deep_view() == on_menu_updated(state@, key@, menu.deep_view()).1,
{
    let none: Vec<Effect> = Vec::new();
    assert(none.deep_view() =~= seq![]);
    let mut state = state;
    let ghost s = state@;
    proof {
        lemma_key_index(s.items, key@);
    }
    let found = state.position(key.as_str());
    match found {
        None => (state, none),
        Some(i) => {
            assert(s.items[i as int] == state.items@[i as int]@);
            if same_optional_menu(&state.items[i].menu, &menu) {
                return (state, none);
            }
            let ghost old_item = s.items[i as int];
            let ghost new_menu = menu.deep_view();
            state.items[i].menu = menu;
            assert(state@.items =~= s.items.update(i as int, SpecItem { menu: new_menu, ..old_item }));
            // The icon strip is unchanged, so only the menu needs announcing.
            let effects = vec![Effect::MenuChanged { key }];
            assert(effects.deep_view() =~= seq![SpecEffect::MenuChanged { key: key@ }]);
            (state, effects)
        },
    }
}

fn update_config(state: State, config: Config) -> (r: (State, Vec<Effect>))
    requires
        state.revision < u64::MAX,
    ensures
        r.0@ == on_config_updated(state@, config@).0,
        r.1.deep_view() == on_config_updated(state@, config@).1,
{
    let ghost s = state@;
    let config = config.normalized();
    let config_changed = !same_config(&state.config, &config);
    let (mut state, mut effects) = announce_items(state);
    state.config = config;
    if config_changed {
        let ghost before = effects.deep_view();
        effects.push(Effect::ConfigChanged { revision: state.revision });
        effects.push(Effect::PersistConfig(state.config.clone()));
        assert(effects.deep_view() =~= before + seq![
            SpecEffect::ConfigChanged { revision: state.revision },
            SpecEffect::PersistConfig(state.config@),
        ]);
    }
    (state, effects)
}

/// Whether `e` moves the revision of `s` on: it registers an item, removes
/// one, changes an item's properties or hands in a configuration. A menu
/// never does.
pub open spec fn announces(s: SpecState, e: SpecEvent) -> bool {
    match e {
        SpecEvent::Registered { .. } => true,
        SpecEvent::Vanished(key) => keys_of(s.items).contains(key),
        SpecEvent::PropsUpdated { key, props } => match key_index(s.items, key) {
            Some(i) => s.items[i].props != props,
            None => false,
        },
        SpecEvent::MenuUpdated { .. } => false,
        SpecEvent::ConfigUpdated(_) => true,
    }
}

/// Whether folding `event` into `state` moves the revision on; the revision
/// must not be at its maximum then.
pub fn announces_change(state: &State, event: &Event) -> (r: bool)
    ensures
        r == announces(state@, event@),
{
    match event {
        Event::Registered { .. } => true,
        Event::Vanished(key) => state.has_key(key.as_str()),
        Event::PropsUpdated { key, props } => {
            proof {
                lemma_key_index(state@.items, key@);
            }
            match state.position(key.as_str()) {
                Some(i) => {
                    assert(state@.items[i as int] == state.items@[i as int]@);
                    !same_props(&state.items[i].props, props)
                },
                None => false,
            }
        },
        Event::MenuUpdated { .. } => false,
        Event::ConfigUpdated(_) => true,
    }
}

/// Fold one event into the state. Pure: no I/O, no signalling.
pub fn update(state: State, event: Event) -> (r: (State, Vec<Effect>))
    requires
        state.revision < u64::MAX || !announces(state@, event@),
    ensures
        r.0@ == step(state@, event@).0,
        r.1.deep_view() == step(state@, event@).1,
{
    match event {
        Event::Registered { service, props } => register(state, service, props),
        Event::Vanished(key) => vanish(state, key),
        Event::PropsUpdated { key, props } => update_props(state, key, props),
        Event::MenuUpdated { key, menu } => update_menu(state, key, menu),
        Event::ConfigUpdated(config) => update_config(state, config),
    }
}

/// An event moves the revision on by one at most.
pub proof fn lemma_step_revision(s: SpecState, e: SpecEvent)
    requires
        s.revision < u64::MAX,
    ensures
        step(s, e).0.revision == s.revision || step(s, e).0.revision == s.revision + 1,
{
}

/// Folding `events` from `s` never finds the revision at its maximum when
/// an event would move it on.
pub open spec fn revisions_fit(s: SpecState, events: Seq<SpecEvent>) -> bool
    decreases events.len(),
{
    if events.len() == 0 {
        true
    } else {
        let before = steps(s, events.drop_last()).0;
        &&& revisions_fit(s, events.drop_last())
        &&& (before.revision < u64::MAX || !announces(before, events.last()))
    }
}

proof fn lemma_revisions_fit_prefix(s: SpecState, events: Seq<SpecEvent>, k: int)
    requires
        revisions_fit(s, events),
        0 <= k <= events.len(),
    ensures
        revisions_fit(s, events.take(k)),
    decreases events.len(),
{
    if k == events.len() {
        assert(events.take(k) =~= events);
    } else {
        assert(events.drop_last().take(k) =~= events.take(k));
        lemma_revisions_fit_prefix(s, events.drop_last(), k);
    }
}

/// Fold a sequence of events, e.g. everything that happened while the
/// settings app was closed.
pub fn update_all(state: State, events: Vec<Event>) -> (r: (State, Vec<Effect>))
    requires
        revisions_fit(state@, events.deep_view()),
    ensures
        r.0@ == steps(state@, events.deep_view()).0,
        r.1.deep_view() == steps(state@, events.deep_view()).1,
{
    let ghost s = state@;
    let ghost orig = events.deep_view();
    let mut rest = events;
    let mut state = state;
    let mut effects: Vec<Effect> = Vec::new();
    assert(orig.take(0) =~= seq![]);
    assert(orig.skip(0) =~= orig);
    assert(effects.deep_view() =~= seq![]);
    while rest.len() > 0
        invariant
            rest@.len() <= orig.len(),
            revisions_fit(s, orig),
            rest.deep_view() == orig.skip(orig.len() - rest@.len()),
            state@ == steps(s, orig.take(orig.len() - rest@.len())).0,
            effects.deep_view() == steps(s, orig.take(orig.len() - rest@.len())).1,
        decreases rest.len(),
    {
        let ghost done = orig.len() - rest@.len();
        let ghost prev = rest@;
        let ghost prev_view = rest.deep_view();
        assert(prev_view[0] == prev[0]@);
        let event = rest.remove(0);
        assert(event == prev[0]);
        assert forall|j: int| 0 <= j < rest@.len() implies rest.deep_view()[j] == orig.skip(
            done + 1,
        )[j] by {
            assert(rest@[j] == prev[j + 1]);
            assert(prev_view[j + 1] == prev[j + 1]@);
        }
        assert(rest.deep_view() =~= orig.skip(done + 1));
        assert(orig.take(done + 1).drop_last() =~= orig.take(done));
        assert(orig.take(done + 1).last() == event@);
        proof {
            lemma_revisions_fit_prefix(s, orig, done + 1);
        }
        let (next, more) = update(state, event);
        let ghost before = effects.deep_view();
        let mut more = more;
        let ghost added = more.deep_view();
        effects.append(&mut more);
        assert(effects.deep_view() =~= before + added);
        state = next;
    }
    assert(orig.take(orig.len() as int) =~= orig);
    (state, effects)
}

/// No two items share a key.
pub open spec fn keys_distinct(items: Seq<SpecItem>) -> bool {
    forall|i: int, j: int| 0 <= i < j < items.len() ==> items[i].key != items[j].key
}

proof fn lemma_filter_from<A>(s: Seq<A>, p: spec_fn(A) -> bool, i: int)
    requires
        0 <= i < s.filter(p).len(),
    ensures
        exists|j: int| 0 <= j < s.len() && s[j] == s.filter(p)[i],
    decreases s.len(),
{
    reveal(Seq::filter);
    let t = s.drop_last();
    t.lemma_filter_len(p);
    if i < t.filter(p).len() {
        lemma_filter_from(t, p, i);
        let j = choose|j: int| 0 <= j < t.len() && t[j] == t.filter(p)[i];
        assert(s[j] == s.filter(p)[i]);
    } else {
        assert(s[s.len() - 1] == s.filter(p)[i]);
    }
}

/// What a filter keeps is exactly what the sequence holds and the predicate
/// accepts.
pub proof fn lemma_filter_contains<A>(s: Seq<A>, p: spec_fn(A) -> bool, x: A)
    ensures
        s.filter(p).contains(x) <==> s.contains(x) && p(x),
{
    if s.filter(p).contains(x) {
        let i = choose|i: int| 0 <= i < s.filter(p).len() && s.filter(p)[i] == x;
        lemma_filter_from(s, p, i);
        s.lemma_filter_pred(p, i);
    }
    if s.contains(x) && p(x) {
        let i = choose|i: int| 0 <= i < s.len() && s[i] == x;
        s.lemma_filter_contains(p, i);
    }
}

proof fn lemma_filter_keeps_distinct(s: Seq<SpecItem>, p: spec_fn(SpecItem) -> bool)
    requires
        keys_distinct(s),
    ensures
        keys_distinct(s.filter(p)),
    decreases s.len(),
{
    reveal(Seq::filter);
    if s.len() > 0 {
        let t = s.drop_last();
        assert(keys_distinct(t));
        lemma_filter_keeps_distinct(t, p);
        if p(s.last()) {
            let f = t.filter(p);
            assert forall|i: int| 0 <= i < f.len() implies f[i].key != s.last().key by {
                lemma_filter_from(t, p, i);
                let j = choose|j: int| 0 <= j < t.len() && t[j] == f[i];
                assert(s[j] == t[j]);
            }
            assert(keys_distinct(f.push(s.last())));
        }
    }
}

proof fn lemma_filter_all<A>(s: Seq<A>, p: spec_fn(A) -> bool)
    requires
        forall|i: int| 0 <= i < s.len() ==> p(s[i]),
    ensures
        s.filter(p) == s,
    decreases s.len(),
{
    reveal(Seq::filter);
    if s.len() > 0 {
        lemma_filter_all(s.drop_last(), p);
        assert(s.drop_last().push(s.last()) =~= s);
    }
}

/// The allocated key is never one of the keys already in use.
pub proof fn lemma_allocated_key_fresh(keys: Seq<Seq<char>>, preferred: Seq<char>)
    ensures
        !keys.contains(allocated_key(keys, preferred)),
{
    lemma_free_suffix_exists(keys, sanitized(preferred));
}

/// Every event keeps the keys of the registered items distinct.
pub proof fn lemma_step_keeps_keys_distinct(s: SpecState, e: SpecEvent)
    requires
        keys_distinct(s.items),
    ensures
        keys_distinct(step(s, e).0.items),
{
    match e {
        SpecEvent::Registered { service, props } => {
            let kept = s.items.filter(other_service(service));
            lemma_filter_keeps_distinct(s.items, other_service(service));
            let key = allocated_key(keys_of(kept), preferred_name(props));
            lemma_allocated_key_fresh(keys_of(kept), preferred_name(props));
            let items = kept.push(SpecItem { key, service, props, menu: None });
            assert forall|i: int, j: int| 0 <= i < j < items.len() implies items[i].key
                != items[j].key by {
                if j == items.len() - 1 {
                    assert(keys_of(kept)[i] == kept[i].key);
                }
            }
        },
        SpecEvent::Vanished(key) => {
            lemma_filter_keeps_distinct(s.items, other_key(key));
        },
        SpecEvent::PropsUpdated { key, props } => {
            lemma_key_index(s.items, key);
        },
        SpecEvent::MenuUpdated { key, menu } => {
            lemma_key_index(s.items, key);
        },
        SpecEvent::ConfigUpdated(config) => {},
    }
}

/// No two items live at the same service.
pub open spec fn services_distinct(items: Seq<SpecItem>) -> bool {
    forall|i: int, j: int| 0 <= i < j < items.len() ==> items[i].service != items[j].service
}

proof fn lemma_filter_keeps_services_distinct(s: Seq<SpecItem>, p: spec_fn(SpecItem) -> bool)
    requires
        services_distinct(s),
    ensures
        services_distinct(s.filter(p)),
    decreases s.len(),
{
    reveal(Seq::filter);
    if s.len() > 0 {
        let t = s.drop_last();
        assert(services_distinct(t));
        lemma_filter_keeps_services_distinct(t, p);
        if p(s.last()) {
            let f = t.filter(p);
            assert forall|i: int| 0 <= i < f.len() implies f[i].service != s.last().service by {
                lemma_filter_from(t, p, i);
                let j = choose|j: int| 0 <= j < t.len() && t[j] == f[i];
                assert(s[j] == t[j]);
            }
            assert(services_distinct(f.push(s.last())));
        }
    }
}

/// Every event keeps the services of the registered items distinct: no
/// service ever shows two icons.
pub proof fn lemma_step_keeps_services_distinct(s: SpecState, e: SpecEvent)
    requires
        services_distinct(s.items),
    ensures
        services_distinct(step(s, e).0.items),
{
    match e {
        SpecEvent::Registered { service, props } => {
            let kept = s.items.filter(other_service(service));
            lemma_filter_keeps_services_distinct(s.items, other_service(service));
            let key = allocated_key(keys_of(kept), preferred_name(props));
            let items = kept.push(SpecItem { key, service, props, menu: None });
            assert forall|i: int, j: int| 0 <= i < j < items.len() implies items[i].service
                != items[j].service by {
                if j == items.len() - 1 {
                    s.items.lemma_filter_pred(other_service(service), i);
                }
            }
        },
        SpecEvent::Vanished(key) => {
            lemma_filter_keeps_services_distinct(s.items, other_key(key));
        },
        SpecEvent::PropsUpdated { key, props } => {
            lemma_key_index(s.items, key);
        },
        SpecEvent::MenuUpdated { key, menu } => {
            lemma_key_index(s.items, key);
        },
        SpecEvent::ConfigUpdated(config) => {},
    }
}

/// Folding a batch is folding its first event, then the rest: the state
/// the rest starts from is the one the first event left, and the effects
/// come in that order. An empty batch changes nothing and emits nothing.
pub proof fn lemma_steps_first_then_rest(s: SpecState, e: SpecEvent, rest: Seq<SpecEvent>)
    ensures
        steps(s, Seq::<SpecEvent>::empty()) == (s, Seq::<SpecEffect>::empty()),
        steps(s, seq![e] + rest) == ({
            let (s1, f1) = step(s, e);
            let (s2, f2) = steps(s1, rest);
            (s2, f1 + f2)
        }),
    decreases rest.len(),
{
    let (s1, f1) = step(s, e);
    let empty = Seq::<SpecEvent>::empty();
    assert(steps(s, empty) == (s, Seq::<SpecEffect>::empty()));
    if rest.len() == 0 {
        assert(seq![e] + rest =~= seq![e]);
        assert(seq![e].drop_last() =~= empty);
        assert(seq![e].last() == e);
        assert(Seq::<SpecEffect>::empty() + f1 =~= f1);
        assert(steps(s, seq![e]) == (s1, f1));
        assert(rest =~= empty);
        assert(steps(s1, rest) == (s1, Seq::<SpecEffect>::empty()));
        assert(f1 + Seq::<SpecEffect>::empty() =~= f1);
    } else {
        lemma_steps_first_then_rest(s, e, rest.drop_last());
        let whole = seq![e] + rest;
        assert(whole.drop_last() =~= seq![e] + rest.drop_last());
        assert(whole.last() == rest.last());
        let (a, fa) = steps(s1, rest.drop_last());
        let (b, fb) = step(a, rest.last());
        assert(steps(s1, rest) == (b, fa + fb));
        assert(steps(s, whole.drop_last()) == (a, f1 + fa));
        assert(steps(s, whole) == (b, f1 + fa + fb));
        assert(f1 + fa + fb =~= f1 + (fa + fb));
    }
}

/// Registering replaces an earlier incarnation: afterwards exactly one item
/// lives at the service, the new one, registered last with the properties it
/// brought.
pub proof fn lemma_registration_replaces(s: SpecState, service: SpecServiceRef, props: SpecItemProps)
    ensures
        ({
            let items = on_registered(s, service, props).0.items;
            &&& items.len() >= 1
            &&& items.drop_last() == s.items.filter(other_service(service))
            &&& items.last().service == service
            &&& items.last().props == props
            &&& items.last().menu is None
            &&& forall|i: int| 0 <= i < items.len() - 1 ==> items[i].service != service
        }),
{
    let kept = s.items.filter(other_service(service));
    assert forall|i: int| 0 <= i < kept.len() implies kept[i].service != service by {
        s.items.lemma_filter_pred(other_service(service), i);
    }
}

/// The whole law of an event, in one statement: from items with distinct
/// keys and distinct services, every event leaves items with distinct keys
/// and distinct services, and a registration leaves exactly one item at its
/// service, the last one, after the other items in their old order.
pub proof fn lemma_step_law(s: SpecState, e: SpecEvent)
    requires
        keys_distinct(s.items),
        services_distinct(s.items),
    ensures
        keys_distinct(step(s, e).0.items),
        services_distinct(step(s, e).0.items),
        e matches SpecEvent::Registered { service, props } ==> {
            let items = step(s, e).0.items;
            &&& items.len() >= 1
            &&& items.last().service == service
            &&& items.drop_last() == s.items.filter(other_service(service))
            &&& forall|i: int| 0 <= i < items.len() - 1 ==> items[i].service != service
        },
{
    lemma_step_keeps_keys_distinct(s, e);
    lemma_step_keeps_services_distinct(s, e);
    if let SpecEvent::Registered { service, props } = e {
        lemma_registration_replaces(s, service, props);
    }
}

/// New properties for an item are kept: after `PropsUpdated` for the first
/// item with `key` (at `i`), that item carries exactly the new properties
/// and keeps its key, service and menu; every other item and the
/// configuration stay as they were; and the change is announced exactly
/// when the properties differ, under the next revision.
pub proof fn lemma_props_update_stored(s: SpecState, key: Seq<char>, props: SpecItemProps, i: int)
    requires
        first_with_key(s.items, key, i),
        s.revision < u64::MAX,
    ensures
        ({
            let (n, effects) = step(s, SpecEvent::PropsUpdated { key, props });
            &&& n.items.len() == s.items.len()
            &&& n.items[i].props == props
            &&& n.items[i].key == s.items[i].key
            &&& n.items[i].service == s.items[i].service
            &&& n.items[i].menu == s.items[i].menu
            &&& forall|j: int| 0 <= j < s.items.len() && j != i ==> n.items[j] == s.items[j]
            &&& n.config == s.config
            &&& (s.items[i].props != props ==> n.revision == s.revision + 1 && effects == seq![
                SpecEffect::ItemsChanged { revision: (s.revision + 1) as u64 },
            ])
            &&& (s.items[i].props == props ==> n == s && effects.len() == 0)
        }),
{
    assert(keys_of(s.items)[i] == key);
    lemma_key_index(s.items, key);
    let k = key_index(s.items, key)->0;
    lemma_first_with_key_unique(s.items, key, i, k);
}

/// A vanished item is gone, and vanishing again changes nothing and emits
/// nothing.
pub proof fn lemma_vanish_idempotent(s: SpecState, key: Seq<char>)
    ensures
        !keys_of(on_vanished(s, key).0.items).contains(key),
        on_vanished(on_vanished(s, key).0, key) == (on_vanished(s, key).0, Seq::<SpecEffect>::empty()),
{
    let kept = s.items.filter(other_key(key));
    assert forall|i: int| 0 <= i < kept.len() implies other_key(key)(kept[i]) by {
        s.items.lemma_filter_pred(other_key(key), i);
    }
    lemma_filter_all(kept, other_key(key));
    if kept.len() == s.items.len() {
        lemma_filter_keeps_all(s.items, other_key(key));
    }
    let after = on_vanished(s, key).0;
    assert(after.items == kept);
    if keys_of(after.items).contains(key) {
        let i = choose|i: int| 0 <= i < keys_of(after.items).len() && keys_of(after.items)[i] == key;
        assert(other_key(key)(kept[i]));
    }
}

/// An application that comes back after its item went away gets its old key
/// again, so the preferences kept under that key apply to it: after the
/// item with key `key` vanishes, a registration whose id (or title) makes
/// that key is appended under exactly `key`.
pub proof fn lemma_restart_keeps_key(
    s: SpecState,
    key: Seq<char>,
    service: SpecServiceRef,
    props: SpecItemProps,
)
    requires
        sanitized(preferred_name(props)) == key,
    ensures
        ({
            let gone = step(s, SpecEvent::Vanished(key)).0;
            let back = step(gone, SpecEvent::Registered { service, props }).0;
            &&& back.items.len() >= 1
            &&& back.items.last().key == key
            &&& back.items.last().service == service
        }),
{
    lemma_vanish_idempotent(s, key);
    let gone = on_vanished(s, key).0;
    let kept = gone.items.filter(other_service(service));
    if keys_of(kept).contains(key) {
        let i = choose|i: int| 0 <= i < keys_of(kept).len() && keys_of(kept)[i] == key;
        lemma_filter_from(gone.items, other_service(service), i);
        let j = choose|j: int| 0 <= j < gone.items.len() && gone.items[j] == kept[i];
        assert(keys_of(gone.items)[j] == key);
    }
    assert(allocated_key(keys_of(kept), preferred_name(props)) == key);
}

/// Publishing the properties an item already has changes nothing and emits
/// nothing; so does re-sending its menu.
pub proof fn lemma_unchanged_updates_are_silent(s: SpecState, i: int)
    requires
        0 <= i < s.items.len(),
        keys_distinct(s.items),
    ensures
        on_props_updated(s, s.items[i].key, s.items[i].props) == (s, Seq::<SpecEffect>::empty()),
        on_menu_updated(s, s.items[i].key, s.items[i].menu) == (s, Seq::<SpecEffect>::empty()),
{
    let key = s.items[i].key;
    lemma_key_index(s.items, key);
    assert(keys_of(s.items)[i] == key);
    let k = key_index(s.items, key)->0;
    if k < i {
        assert(s.items[k].key != s.items[i].key);
    } else if k > i {
        assert(s.items[i].key == key);
    }
}

/// A configuration is stored normalised; it is persisted, and announced as
/// changed, exactly when the normalised form differs from the current one.
pub proof fn lemma_config_update(s: SpecState, c: SpecConfig)
    requires
        s.revision < u64::MAX,
    ensures
        on_config_updated(s, c).0.config == crate::config::normalize(c),
        crate::config::is_normalized(on_config_updated(s, c).0.config),
        on_config_updated(s, c).1.contains(SpecEffect::PersistConfig(crate::config::normalize(c)))
            <==> s.config != crate::config::normalize(c),
        on_config_updated(s, c).0.items == s.items,
{
    crate::config::lemma_normalize_normalizes(c);
    let effects = on_config_updated(s, c).1;
    if s.config != crate::config::normalize(c) {
        assert(effects[2] == SpecEffect::PersistConfig(crate::config::normalize(c)));
    } else {
        if effects.contains(SpecEffect::PersistConfig(crate::config::normalize(c))) {
            let j = choose|j: int| 0 <= j < effects.len() && effects[j] == SpecEffect::PersistConfig(
                crate::config::normalize(c),
            );
            assert(effects[0] is ItemsChanged);
        }
    }
}

/// The revision moves exactly when the visible items are announced, and
/// then by one, announcing the new revision.
pub proof fn lemma_revision_tracks_announcements(s: SpecState, e: SpecEvent)
    requires
        s.revision < u64::MAX,
    ensures
        step(s, e).0.revision == s.revision + 1 <==> (step(s, e).1.len() > 0 && step(s, e).1[0]
            == SpecEffect::ItemsChanged { revision: (s.revision + 1) as u64 }),
        step(s, e).0.revision == s.revision || step(s, e).0.revision == s.revision + 1,
{
}

/// The views of the visible items among `order`, in that order, at `size`
/// device pixels.
pub open spec fn shown_views(s: SpecState, order: Seq<Seq<char>>, size: u32) -> Seq<SpecItemView>
    decreases order.len(),
{
    if order.len() == 0 {
        seq![]
    } else {
        let prev = shown_views(s, order.drop_last(), size);
        match key_index(s.items, order.last()) {
            Some(i) => if item_visible(s.items[i], s.config) {
                prev.push(item_view_of(s.items[i], size))
            } else {
                prev
            },
            None => prev,
        }
    }
}

/// The views of all items among `order`, hidden ones included.
pub open spec fn all_views(s: SpecState, order: Seq<Seq<char>>, size: u32) -> Seq<SpecItemView>
    decreases order.len(),
{
    if order.len() == 0 {
        seq![]
    } else {
        let prev = all_views(s, order.drop_last(), size);
        match key_index(s.items, order.last()) {
            Some(i) => prev.push(item_view_of(s.items[i], size)),
            None => prev,
        }
    }
}

fn views_in_order(state: &State, order: &Vec<Key>, icon_pixel_size: u32, visible_only: bool) -> (r:
    Vec<ItemView>)
    ensures
        r.deep_view() == (if visible_only {
            shown_views(state@, order.deep_view(), icon_pixel_size)
        } else {
            all_views(state@, order.deep_view(), icon_pixel_size)
        }),
{
    let ghost o = order.deep_view();
    let mut out: Vec<ItemView> = Vec::new();
    let mut k: usize = 0;
    assert(o.take(0) =~= seq![]);
    while k < order.len()
        invariant
            k <= o.len(),
            o == order.deep_view(),
            out.deep_view() == (if visible_only {
                shown_views(state@, o.take(k as int), icon_pixel_size)
            } else {
                all_views(state@, o.take(k as int), icon_pixel_size)
            }),
        decreases order.len() - k,
    {
        assert(o.take(k + 1).drop_last() =~= o.take(k as int));
        assert(o.take(k + 1).last() == order@[k as int]@);
        let ghost before = out.deep_view();
        match state.item(order[k].as_str()) {
            Some(item) => {
                if !visible_only || is_visible(item, &state.config) {
                    let v = ItemView::of(item, icon_pixel_size);
                    let ghost vv = v@;
                    out.push(v);
                    assert(out.deep_view() =~= before.push(vv));
                }
            },
            None => {},
        }
        k += 1;
    }
    assert(o.take(o.len() as int) =~= o);
    out
}

/// The items to show, in order, rendered at `icon_pixel_size` device pixels.
/// Hidden and passive items are left out entirely.
pub fn snapshot(state: &State, icon_pixel_size: u32) -> (r: Vec<ItemView>)
    ensures
        r.deep_view() == shown_views(
            state@,
            display_order(state@.items, state@.config),
            icon_pixel_size,
        ),
{
    let items = state.items.as_slice();
    assert(items.deep_view() =~= state@.items);
    let order = ordered_keys(items, &state.config);
    views_in_order(state, &order, icon_pixel_size, true)
}

/// Every registered item, in display order, including the hidden and passive
/// ones: this is the picture the settings app needs to manage the tray.
pub fn snapshot_all(state: &State, icon_pixel_size: u32) -> (r: Vec<ItemView>)
    ensures
        r.deep_view() == all_views(state@, display_order(state@.items, state@.config), icon_pixel_size),
{
    let items = state.items.as_slice();
    assert(items.deep_view() =~= state@.items);
    let order = ordered_keys(items, &state.config);
    views_in_order(state, &order, icon_pixel_size, false)
}

/// Item keys a user could hide or reorder, including the hidden ones.
pub fn all_keys(state: &State) -> (r: Vec<Key>)
    ensures
        r.deep_view() == display_order(state@.items, state@.config),
{
    let items = state.items.as_slice();
    assert(items.deep_view() =~= state@.items);
    ordered_keys(items, &state.config)
}

} // verus!
