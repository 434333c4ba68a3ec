//! The decisions of the tray daemon: what its D-Bus methods answer, what it
//! logs, where its config lives and when an item counts as gone.
//!
//! The daemon itself talks to the bus and the file system; everything it
//! decides on the way is a function here, from plain values to plain values.

use vstd::prelude::*;

use crate::config::{config_with_order, Config};
use crate::model::{keys_of, key_index, Effect, Key, SpecEffect, SpecItem, SpecState, State};
use crate::rules::{display_order, moved, moved_order, ordered_keys};
use crate::sni::{has_menu_of, ServiceRef, SpecServiceRef, WATCHER_BUS_NAME};
use crate::text::{concat, decimal, push_chars, push_decimal, same_text};
use crate::view::{flatten_menu, flattened, SpecMenuView, SpecStatusView, MenuView, StatusView};

verus! {

/// The log line for one effect.
pub open spec fn effect_text(effect: SpecEffect) -> Seq<char> {
    match effect {
        SpecEffect::ItemsChanged { revision } => "items changed (rev "@ + decimal(revision as nat)
            + ")"@,
        SpecEffect::MenuChanged { key } => "menu changed ("@ + key + ")"@,
        SpecEffect::ConfigChanged { .. } => "config changed"@,
        SpecEffect::PersistConfig(_) => "config saved"@,
    }
}

/// The log lines of several effects, separated by commas.
pub open spec fn effects_text(effects: Seq<SpecEffect>) -> Seq<char>
    decreases effects.len(),
{
    if effects.len() == 0 {
        seq![]
    } else if effects.len() == 1 {
        effect_text(effects[0])
    } else {
        effects_text(effects.drop_last()) + ", "@ + effect_text(effects.last())
    }
}

/// Convenience for logging what the reducer decided.
pub fn describe(effects: &[Effect]) -> (r: String)
    ensures
        r@ == effects_text(effects.deep_view()),
{
    let ghost e = effects.deep_view();
    let mut out = String::new();
    let mut i: usize = 0;
    assert(e.take(0) =~= seq![]);
    while i < effects.len()
        invariant
            i <= e.len(),
            e == effects.deep_view(),
            out@ == effects_text(e.take(i as int)),
        decreases effects.len() - i,
    {
        let ghost before = out@;
        assert(e.take(i + 1).drop_last() =~= e.take(i as int));
        assert(e.take(i + 1).last() == effects@[i as int]@);
        if i > 0 {
            push_chars(&mut out, ", ");
        }
        let ghost separated = out@;
        match &effects[i] {
            Effect::ItemsChanged { revision } => {
                push_chars(&mut out, "items changed (rev ");
                push_decimal(&mut out, *revision as u128);
                push_chars(&mut out, ")");
            },
            Effect::MenuChanged { key } => {
                push_chars(&mut out, "menu changed (");
                push_chars(&mut out, key.as_str());
                push_chars(&mut out, ")");
            },
            Effect::ConfigChanged { .. } => {
                push_chars(&mut out, "config changed");
            },
            Effect::PersistConfig(_) => {
                push_chars(&mut out, "config saved");
            },
        }
        assert(out@ =~= separated + effect_text(e[i as int]));
        proof {
            if i > 0 {
                assert(out@ =~= before + ", "@ + effect_text(e[i as int]));
            } else {
                assert(before =~= seq![]);
            }
        }
        i += 1;
    }
    assert(e.take(e.len() as int) =~= e);
    out
}

/// What the caller needs to know about the watcher name, filled in by main.
#[derive(Debug, PartialEq, Default)]
pub struct WatcherStatus {
    pub owned: bool,
    pub owner: String,
    pub host_registered: bool,
}

impl Clone for WatcherStatus {
    fn clone(&self) -> (r: Self)
        ensures
            r.owned == self.owned,
            r.owner@ == self.owner@,
            r.host_registered == self.host_registered,
    {
        WatcherStatus {
            owned: self.owned,
            owner: self.owner.clone(),
            host_registered: self.host_registered,
        }
    }
}

/// The watcher name is ours when its owner is our own, known, unique name.
pub fn watcher_owned(owner: &str, our_name: &str) -> (r: bool)
    ensures
        r == (owner@ == our_name@ && our_name@.len() > 0),
{
    same_text(owner, our_name) && !our_name.is_empty()
}

/// The tray hosts registered with the watcher, each once. We register
/// ourselves so that applications know their icons are visible.
pub struct Hosts {
    names: Vec<String>,
}

impl View for Hosts {
    type V = Set<Seq<char>>;

    closed spec fn view(&self) -> Set<Seq<char>> {
        self.names.deep_view().to_set()
    }
}

impl Hosts {
    pub fn new() -> (r: Self)
        ensures
            r@ == Set::<Seq<char>>::empty(),
    {
        let r = Hosts { names: Vec::new() };
        assert(r.names.deep_view() =~= seq![]);
        assert(r@ =~= Set::<Seq<char>>::empty());
        r
    }

    /// Add a host, returning true when it was not known yet.
    pub fn add(&mut self, name: &str) -> (r: bool)
        ensures
            r == !old(self)@.contains(name@),
            final(self)@ == old(self)@.insert(name@),
    {
        let ghost before = self.names.deep_view();
        let mut i: usize = 0;
        while i < self.names.len()
            invariant
                i <= before.len(),
                before == self.names.deep_view(),
                *self == *old(self),
                forall|j: int| 0 <= j < i ==> before[j] != name@,
            decreases self.names.len() - i,
        {
            assert(before[i as int] == self.names@[i as int]@);
            if same_text(self.names[i].as_str(), name) {
                proof {
                    assert(before.contains(name@));
                    assert(old(self)@.insert(name@) =~= old(self)@);
                }
                return false;
            }
            i += 1;
        }
        assert(!before.contains(name@));
        self.names.push(name.to_owned());
        assert(self.names.deep_view() =~= before.push(name@));
        proof {
            let pushed = before.push(name@);
            assert forall|x: Seq<char>| pushed.contains(x) implies before.to_set().insert(name@).contains(
                x,
            ) by {
                let j = choose|j: int| 0 <= j < pushed.len() && pushed[j] == x;
                if j < before.len() {
                    assert(before[j] == x);
                }
            }
            assert forall|x: Seq<char>| before.to_set().insert(name@).contains(x) implies pushed.contains(
                x,
            ) by {
                if x == name@ {
                    assert(pushed[before.len() as int] == x);
                } else {
                    let j = choose|j: int| 0 <= j < before.len() && before[j] == x;
                    assert(pushed[j] == x);
                }
            }
            assert(pushed.to_set() =~= before.to_set().insert(name@));
        }
        true
    }

    pub fn is_empty(&self) -> (r: bool)
        ensures
            r == (self@ == Set::<Seq<char>>::empty()),
    {
        let r = self.names.len() == 0;
        proof {
            let s = self.names.deep_view();
            if r {
                assert(s =~= seq![]);
                assert(s.to_set() =~= Set::<Seq<char>>::empty());
            } else {
                assert(s.to_set().contains(s[0]));
            }
        }
        r
    }
}

/// `base` joined with the relative path `name`, as `Path::join` does it.
pub open spec fn path_join(base: Seq<char>, name: Seq<char>) -> Seq<char> {
    if base.len() == 0 {
        name
    } else if base.last() == '/' {
        base + name
    } else {
        base + seq!['/'] + name
    }
}

fn join(base: &str, name: &str) -> (r: String)
    ensures
        r@ == path_join(base@, name@),
{
    if base.is_empty() {
        return name.to_owned();
    }
    let v = crate::text::chars_of(base);
    if v[v.len() - 1] == '/' {
        concat(base, name)
    } else {
        let mut s = concat(base, "/");
        push_chars(&mut s, name);
        proof {
            reveal_strlit("/");
        }
        s
    }
}

/// The directory of the config file, following the XDG base directory spec:
/// `$XDG_CONFIG_HOME` when it is absolute, else `$HOME/.config`, else
/// `.config`, each with `taskbar` appended.
pub open spec fn config_dir_of(xdg_config_home: Option<Seq<char>>, home: Option<Seq<char>>) -> Seq<
    char,
> {
    let base = match xdg_config_home {
        Some(x) if x.len() > 0 && x[0] == '/' => x,
        _ => match home {
            Some(h) => path_join(h, ".config"@),
            None => ".config"@,
        },
    };
    path_join(base, "taskbar"@)
}

/// Directory of the config file, from the values of `XDG_CONFIG_HOME` and
/// `HOME`.
pub fn config_dir(xdg_config_home: Option<&str>, home: Option<&str>) -> (r: String)
    ensures
        r@ == config_dir_of(
            match xdg_config_home {
                Some(x) => Some(x@),
                None => None,
            },
            match home {
                Some(h) => Some(h@),
                None => None,
            },
        ),
{
    let absolute = match xdg_config_home {
        Some(x) => !x.is_empty() && crate::text::chars_of(x)[0] == '/',
        None => false,
    };
    let base = if absolute {
        match xdg_config_home {
            Some(x) => x.to_owned(),
            None => String::new(),
        }
    } else {
        match home {
            Some(h) => join(h, ".config"),
            None => ".config".to_owned(),
        }
    };
    join(base.as_str(), "taskbar")
}

/// The config file itself.
pub fn config_path(xdg_config_home: Option<&str>, home: Option<&str>) -> (r: String)
    ensures
        r@ == path_join(
            config_dir_of(
                match xdg_config_home {
                    Some(x) => Some(x@),
                    None => None,
                },
                match home {
                    Some(h) => Some(h@),
                    None => None,
                },
            ),
            "config.toml"@,
        ),
{
    let dir = config_dir(xdg_config_home, home);
    join(dir.as_str(), "config.toml")
}

/// The cached menu of one item, flattened, if the item is there and has one.
pub fn menu_of(state: &State, key: &str) -> (r: Option<MenuView>)
    ensures
        match key_index(state@.items, key@) {
            Some(i) => match state@.items[i].menu {
                Some(tree) => r is Some && r->0@ == flattened(key@, tree),
                None => r is None,
            },
            None => r is None,
        },
{
    match state.item(key) {
        Some(item) => match &item.menu {
            Some(tree) => Some(flatten_menu(key, tree)),
            None => None,
        },
        None => None,
    }
}

/// Where an item lives on the bus, so callers can talk to it.
pub fn service_of(state: &State, key: &str) -> (r: Option<ServiceRef>)
    ensures
        match key_index(state@.items, key@) {
            Some(i) => r is Some && r->0@ == state@.items[i].service,
            None => r is None,
        },
{
    match state.item(key) {
        Some(item) => Some(item.service.clone()),
        None => None,
    }
}

/// The menu path of one item, if it has a menu.
pub fn menu_path_of(state: &State, key: &str) -> (r: Option<String>)
    ensures
        match key_index(state@.items, key@) {
            Some(i) => if has_menu_of(state@.items[i].props) {
                r is Some && r->0@ == state@.items[i].props.menu_path
            } else {
                r is None
            },
            None => r is None,
        },
{
    match state.item(key) {
        Some(item) => if item.props.has_menu() {
            Some(item.props.menu_path.clone())
        } else {
            None
        },
        None => None,
    }
}

/// `i` is the first item registered with `service`.
pub open spec fn first_with_service(items: Seq<SpecItem>, service: SpecServiceRef, i: int) -> bool {
    &&& 0 <= i < items.len()
    &&& items[i].service == service
    &&& forall|j: int| 0 <= j < i ==> items[j].service != service
}

/// The key an item registered with `service` was given.
pub fn key_for_service(state: &State, service: &ServiceRef) -> (r: Option<Key>)
    ensures
        match r {
            Some(key) => exists|i: int|
                first_with_service(state@.items, service@, i) && key@ == state@.items[i].key,
            None => forall|i: int|
                0 <= i < state@.items.len() ==> state@.items[i].service != service@,
        },
{
    let mut i: usize = 0;
    while i < state.items.len()
        invariant
            i <= state.items@.len(),
            forall|j: int| 0 <= j < i ==> state@.items[j].service != service@,
        decreases state.items.len() - i,
    {
        assert(state@.items[i as int] == state.items@[i as int]@);
        if crate::sni::same_service(&state.items[i].service, service) {
            assert(first_with_service(state@.items, service@, i as int));
            return Some(state.items[i].key.clone());
        }
        i += 1;
    }
    None
}

/// The keys of the items living at bus name `bus_name`, in registration
/// order.
pub fn keys_of_bus_name(state: &State, bus_name: &str) -> (r: Vec<Key>)
    ensures
        r.deep_view() == keys_of(
            state@.items.filter(|item: SpecItem| item.service.bus_name == bus_name@),
        ),
{
    let ghost items = state@.items;
    let ghost keep = |item: SpecItem| item.service.bus_name == bus_name@;
    let mut out: Vec<Key> = Vec::new();
    let mut i: usize = 0;
    assert(items.take(0).filter(keep) =~= seq![]) by {
        reveal(Seq::filter);
    }
    while i < state.items.len()
        invariant
            i <= items.len(),
            items == state@.items,
            keep == (|item: SpecItem| item.service.bus_name == bus_name@),
            out.deep_view() == keys_of(items.take(i as int).filter(keep)),
        decreases state.items.len() - i,
    {
        assert(items[i as int] == state.items@[i as int]@);
        assert(items.take(i + 1) =~= items.take(i as int).push(items[i as int]));
        proof {
            items.take(i as int).lemma_filter_push(items[i as int], keep);
        }
        if same_text(state.items[i].service.bus_name.as_str(), bus_name) {
            let ghost before = out.deep_view();
            let key = state.items[i].key.clone();
            let ghost kv = key@;
            out.push(key);
            assert(out.deep_view() =~= before.push(kv));
            assert(keys_of(items.take(i + 1).filter(keep)) =~= keys_of(
                items.take(i as int).filter(keep),
            ).push(kv));
        }
        i += 1;
    }
    assert(items.take(items.len() as int) =~= items);
    out
}

/// The registration ids of all items, as `RegisteredStatusNotifierItems`
/// lists them.
pub fn registered_ids(state: &State) -> (r: Vec<String>)
    ensures
        r.deep_view() == state@.items.map_values(
            |item: SpecItem| item.service.bus_name + item.service.object_path,
        ),
{
    let ghost items = state@.items;
    let mut out: Vec<String> = Vec::new();
    let mut i: usize = 0;
    while i < state.items.len()
        invariant
            i <= items.len(),
            items == state@.items,
            out.deep_view() == items.map_values(
                |item: SpecItem| item.service.bus_name + item.service.object_path,
            ).take(i as int),
        decreases state.items.len() - i,
    {
        assert(items[i as int] == state.items@[i as int]@);
        let id = state.items[i].service.registration_id();
        let ghost before = out.deep_view();
        let ghost idv = id@;
        out.push(id);
        assert(out.deep_view() =~= before.push(idv));
        assert(items.map_values(|item: SpecItem| item.service.bus_name + item.service.object_path).take(
            i + 1,
        ) =~= items.map_values(
            |item: SpecItem| item.service.bus_name + item.service.object_path,
        ).take(i as int).push(idv));
        i += 1;
    }
    assert(items.map_values(|item: SpecItem| item.service.bus_name + item.service.object_path).take(
        items.len() as int,
    ) =~= items.map_values(|item: SpecItem| item.service.bus_name + item.service.object_path));
    out
}

/// The diagnostics the settings app shows.
pub fn status_view(
    version: &str,
    watcher: WatcherStatus,
    item_count: usize,
    revision: u64,
    config_path: &str,
    last_error: String,
) -> (r: StatusView)
    ensures
        r@ == (SpecStatusView {
            version: version@,
            watcher_name: WATCHER_BUS_NAME@,
            watcher_owned: watcher.owned,
            watcher_owner: watcher.owner@,
            host_registered: watcher.host_registered,
            item_count: item_count as i32,
            revision,
            config_path: config_path@,
            last_error: last_error@,
        }),
{
    StatusView {
        version: version.to_owned(),
        watcher_name: WATCHER_BUS_NAME.to_owned(),
        watcher_owned: watcher.owned,
        watcher_owner: watcher.owner,
        host_registered: watcher.host_registered,
        item_count: item_count as i32,
        revision,
        config_path: config_path.to_owned(),
        last_error,
    }
}

/// A requested icon size, falling back to the configured one.
pub fn icon_size(icon_pixel_size: i32, configured: u32) -> (r: u32)
    ensures
        r == (if icon_pixel_size > 0 {
            icon_pixel_size as u32
        } else {
            configured
        }),
{
    if icon_pixel_size > 0 {
        icon_pixel_size as u32
    } else {
        configured
    }
}

/// The configuration after moving `key` by `delta` places in the order the
/// user sees, or `None` when the move changes nothing (unknown key, or past
/// either end).
pub fn moved_config(state: &State, key: &str, delta: i32) -> (r: Option<Config>)
    ensures
        match moved(display_order(state@.items, state@.config), key@, delta) {
            Some(order) => r is Some && r->0@ == config_with_order(state@.config, order),
            None => r is None,
        },
{
    let items = state.items.as_slice();
    assert(items.deep_view() =~= state@.items);
    let current = ordered_keys(items, &state.config);
    match moved_order(current.as_slice(), key, delta) {
        Some(order) => Some(state.config.clone().with_order(order)),
        None => None,
    }
}

/// How many failed probes in a row make an item count as gone.
pub const PROBES_BEFORE_GONE: u8 = 2;

/// The outcome of probing an item that had failed `failed` probes in a row:
/// the new count, and whether the item is now considered gone.
pub fn after_probe(failed: u8, answered: bool) -> (r: (u8, bool))
    requires
        failed < PROBES_BEFORE_GONE,
    ensures
        answered ==> r == (0u8, false),
        !answered ==> r.0 == failed + 1 && r.1 == (failed + 1 >= PROBES_BEFORE_GONE),
{
    if answered {
        (0, false)
    } else {
        let next = failed + 1;
        (next, next >= PROBES_BEFORE_GONE)
    }
}

/// Whether a `NameOwnerChanged` signal means the items of that name are
/// gone: the name lost its owner or changed hands.
pub fn name_change_drops_items(old_owner: &str, new_owner: &str) -> (r: bool)
    ensures
        r == !(new_owner@.len() > 0 && new_owner@ == old_owner@),
{
    !(!new_owner.is_empty() && same_text(new_owner, old_owner))
}

/// The reply to a `RequestName` call.
#[derive(Clone, Copy, Debug, PartialEq, Eq, Structural)]
pub enum NameReply {
    PrimaryOwner,
    InQueue,
    Exists,
    AlreadyOwner,
}

/// The reply to a `RequestName` call, mapped to something worth logging.
pub fn describe_name_reply(reply: NameReply) -> (r: &'static str)
    ensures
        r@ == match reply {
            NameReply::PrimaryOwner => "primary owner"@,
            NameReply::InQueue => "queued behind another owner"@,
            NameReply::Exists => "already owned by someone else"@,
            NameReply::AlreadyOwner => "already ours"@,
        },
{
    match reply {
        NameReply::PrimaryOwner => "primary owner",
        NameReply::InQueue => "queued behind another owner",
        NameReply::Exists => "already owned by someone else",
        NameReply::AlreadyOwner => "already ours",
    }
}

} // verus!
