//! The state machine of the settings app.
//!
//! Pure by construction: [`update`] turns a message into the next [`State`]
//! plus the [`Call`]s that should be made, and nothing else happens here. The
//! GTK side only collects messages and carries out calls.

use vstd::prelude::*;

use crate::config::{clamp_i32, contains_text};
use crate::model::lemma_filter_contains;
use crate::text::{concat, decimal, push_chars, push_decimal, same_text, trim, trimmed};
use crate::view::{
    clone_item_views, ConfigView, ItemView, SpecConfigView, SpecItemView, SpecStatusView,
    StatusView,
};

verus! {

/// Everything the window shows.
#[derive(Debug, PartialEq, Default)]
pub struct State {
    /// The daemon answered at least once.
    pub loaded: bool,
    pub status: Option<StatusView>,
    pub config: ConfigView,
    pub items: Vec<ItemView>,
    /// Last error worth showing, cleared by the next success.
    pub error: Option<String>,
}

/// The mathematical value of a [`State`].
pub struct SpecState {
    pub loaded: bool,
    pub status: Option<SpecStatusView>,
    pub config: SpecConfigView,
    pub items: Seq<SpecItemView>,
    pub error: Option<Seq<char>>,
}

impl View for State {
    type V = SpecState;

    open spec fn view(&self) -> SpecState {
        SpecState {
            loaded: self.loaded,
            status: self.status.deep_view(),
            config: self.config@,
            items: self.items.deep_view(),
            error: self.error.deep_view(),
        }
    }
}

impl Clone for State {
    fn clone(&self) -> (r: Self)
        ensures
            r@ == self@,
    {
        let status = match &self.status {
            Some(s) => Some(s.clone()),
            None => None,
        };
        let error = match &self.error {
            Some(e) => Some(e.clone()),
            None => None,
        };
        State {
            loaded: self.loaded,
            status,
            config: self.config.clone(),
            items: clone_item_views(&self.items),
            error,
        }
    }
}

/// `i` is the first position of an item with key `key`.
pub open spec fn first_item_at(items: Seq<SpecItemView>, key: Seq<char>, i: int) -> bool {
    &&& 0 <= i < items.len()
    &&& items[i].key == key
    &&& forall|j: int| 0 <= j < i ==> items[j].key != key
}

/// The position of the first item with key `key`.
pub open spec fn item_position(items: Seq<SpecItemView>, key: Seq<char>) -> Option<int> {
    if exists|i: int| first_item_at(items, key, i) {
        Some(choose|i: int| first_item_at(items, key, i))
    } else {
        None
    }
}

impl State {
    pub fn is_hidden(&self, key: &str) -> (r: bool)
        ensures
            r == self@.config.hidden.contains(key@),
    {
        contains_text(&self.config.hidden, key)
    }

    /// The place of `key` in the displayed order.
    pub fn position(&self, key: &str) -> (r: Option<usize>)
        ensures
            match r {
                Some(i) => item_position(self@.items, key@) == Some(i as int),
                None => item_position(self@.items, key@) is None,
            },
    {
        let ghost items = self@.items;
        let mut i: usize = 0;
        while i < self.items.len()
            invariant
                i <= self.items@.len(),
                items == self@.items,
                forall|j: int| 0 <= j < i ==> items[j].key != key@,
            decreases self.items.len() - i,
        {
            assert(items[i as int] == self.items@[i as int]@);
            if same_text(self.items[i].key.as_str(), key) {
                proof {
                    assert(first_item_at(items, key@, i as int));
                    let k = choose|k: int| first_item_at(items, key@, k);
                    if k < i {
                        assert(items[k].key == key@);
                    } else if k > i {
                        assert(items[i as int].key == key@);
                    }
                }
                return Some(i);
            }
            i += 1;
        }
        proof {
            if exists|k: int| first_item_at(items, key@, k) {
                let k = choose|k: int| first_item_at(items, key@, k);
                assert(items[k].key == key@);
            }
        }
        None
    }
}

/// A complete picture of the tray, as `ListAllItems` and friends report it:
/// this is the only thing that can replace what the window shows.
#[derive(Debug, PartialEq, Default)]
pub struct Snapshot {
    pub status: StatusView,
    pub config: ConfigView,
    pub items: Vec<ItemView>,
}

/// The mathematical value of a [`Snapshot`].
pub struct SpecSnapshot {
    pub status: SpecStatusView,
    pub config: SpecConfigView,
    pub items: Seq<SpecItemView>,
}

impl View for Snapshot {
    type V = SpecSnapshot;

    open spec fn view(&self) -> SpecSnapshot {
        SpecSnapshot {
            status: self.status@,
            config: self.config@,
            items: self.items.deep_view(),
        }
    }
}

/// Something happened: a reply arrived or the user asked for a change.
#[derive(Debug, PartialEq)]
pub enum Msg {
    /// A full picture arrived from the daemon.
    Loaded(Box<Snapshot>),
    Failed(String),
    /// The daemon announced a change; ask for a new picture.
    Refresh,
    SetIconSize(i32),
    SetSort(String),
    SetPanelBox(String),
    SetPanelPosition(i32),
    SetShowWhenEmpty(bool),
    SetItemHidden(String, bool),
    MoveItem(String, i32),
}

/// The mathematical value of a [`Msg`].
pub enum SpecMsg {
    Loaded(SpecSnapshot),
    Failed(Seq<char>),
    Refresh,
    SetIconSize(i32),
    SetSort(Seq<char>),
    SetPanelBox(Seq<char>),
    SetPanelPosition(i32),
    SetShowWhenEmpty(bool),
    SetItemHidden(Seq<char>, bool),
    MoveItem(Seq<char>, i32),
}

impl View for Msg {
    type V = SpecMsg;

    open spec fn view(&self) -> SpecMsg {
        match self {
            Msg::Loaded(snapshot) => SpecMsg::Loaded((**snapshot)@),
            Msg::Failed(error) => SpecMsg::Failed(error@),
            Msg::Refresh => SpecMsg::Refresh,
            Msg::SetIconSize(size) => SpecMsg::SetIconSize(*size),
            Msg::SetSort(sort) => SpecMsg::SetSort(sort@),
            Msg::SetPanelBox(area) => SpecMsg::SetPanelBox(area@),
            Msg::SetPanelPosition(position) => SpecMsg::SetPanelPosition(*position),
            Msg::SetShowWhenEmpty(show) => SpecMsg::SetShowWhenEmpty(*show),
            Msg::SetItemHidden(key, hidden) => SpecMsg::SetItemHidden(key@, *hidden),
            Msg::MoveItem(key, delta) => SpecMsg::MoveItem(key@, *delta),
        }
    }
}

/// Something the app should do — all of it outside this module.
#[derive(Debug, PartialEq)]
pub enum Call {
    Load,
    /// Hand a new configuration to the daemon, which persists it.
    SetConfig(ConfigView),
    /// Let the daemon move an item in the displayed order.
    MoveItem(String, i32),
}

/// The mathematical value of a [`Call`].
pub enum SpecCall {
    Load,
    SetConfig(SpecConfigView),
    MoveItem(Seq<char>, i32),
}

impl View for Call {
    type V = SpecCall;

    open spec fn view(&self) -> SpecCall {
        match self {
            Call::Load => SpecCall::Load,
            Call::SetConfig(config) => SpecCall::SetConfig(config@),
            Call::MoveItem(key, delta) => SpecCall::MoveItem(key@, *delta),
        }
    }
}

impl DeepView for Call {
    type V = SpecCall;

    open spec fn deep_view(&self) -> SpecCall {
        self@
    }
}

/// The window shows `config` at once, and the daemon is asked to keep it.
pub open spec fn configured(s: SpecState, config: SpecConfigView) -> (SpecState, Seq<SpecCall>) {
    (SpecState { config, error: None, ..s }, seq![SpecCall::SetConfig(config)])
}

/// Holds of every key but `key`.
pub open spec fn not_key(key: Seq<char>) -> spec_fn(Seq<char>) -> bool {
    |entry: Seq<char>| entry != key
}

/// The hidden keys with `key` hidden or shown: every copy of it removed, and
/// appended once when it is hidden.
pub open spec fn hidden_with(hidden: Seq<Seq<char>>, key: Seq<char>, hide: bool) -> Seq<Seq<char>> {
    let kept = hidden.filter(not_key(key));
    if hide {
        kept.push(key)
    } else {
        kept
    }
}

/// One message folded into the window's state.
pub open spec fn settings_step(s: SpecState, m: SpecMsg) -> (SpecState, Seq<SpecCall>) {
    match m {
        SpecMsg::Loaded(snapshot) => (
            SpecState {
                loaded: true,
                status: Some(snapshot.status),
                config: snapshot.config,
                items: snapshot.items,
                error: None,
            },
            seq![],
        ),
        SpecMsg::Failed(error) => (SpecState { error: Some(error), ..s }, seq![]),
        SpecMsg::Refresh => (s, seq![SpecCall::Load]),
        SpecMsg::SetIconSize(size) => configured(
            s,
            SpecConfigView { icon_size: clamp_i32(size, 8, 128), ..s.config },
        ),
        SpecMsg::SetSort(sort) => configured(s, SpecConfigView { sort, ..s.config }),
        SpecMsg::SetPanelBox(area) => configured(s, SpecConfigView { panel_box: area, ..s.config }),
        SpecMsg::SetPanelPosition(position) => configured(
            s,
            SpecConfigView { panel_position: clamp_i32(position, 0, 64), ..s.config },
        ),
        SpecMsg::SetShowWhenEmpty(show) => configured(
            s,
            SpecConfigView { show_when_empty: show, ..s.config },
        ),
        SpecMsg::SetItemHidden(key, hide) => configured(
            s,
            SpecConfigView { hidden: hidden_with(s.config.hidden, key, hide), ..s.config },
        ),
        SpecMsg::MoveItem(key, delta) => (s, seq![SpecCall::MoveItem(key, delta)]),
    }
}

fn clamp(value: i32, low: i32, high: i32) -> (r: i32)
    requires
        low <= high,
    ensures
        r == clamp_i32(value, low, high),
{
    if value < low {
        low
    } else if value > high {
        high
    } else {
        value
    }
}

/// Fold one message into the next state. Pure: the calls are returned, never
/// performed.
pub fn update(state: &State, msg: Msg) -> (r: (State, Vec<Call>))
    ensures
        r.0@ == settings_step(state@, msg@).0,
        r.1.deep_view() == settings_step(state@, msg@).1,
{
    let none: Vec<Call> = Vec::new();
    assert(none.deep_view() =~= seq![]);
    match msg {
        Msg::Loaded(snapshot) => {
            let Snapshot { status, config, items } = *snapshot;
            (State { loaded: true, status: Some(status), config, items, error: None }, none)
        },
        Msg::Failed(error) => {
            let mut next = state.clone();
            next.error = Some(error);
            (next, none)
        },
        Msg::Refresh => {
            let calls = vec![Call::Load];
            assert(calls.deep_view() =~= seq![SpecCall::Load]);
            (state.clone(), calls)
        },
        Msg::SetIconSize(icon_size) => {
            let mut config = state.config.clone();
            config.icon_size = clamp(icon_size, 8, 128);
            with_config(state, config)
        },
        Msg::SetSort(sort) => {
            let mut config = state.config.clone();
            config.sort = sort;
            with_config(state, config)
        },
        Msg::SetPanelBox(panel_box) => {
            let mut config = state.config.clone();
            config.panel_box = panel_box;
            with_config(state, config)
        },
        Msg::SetPanelPosition(position) => {
            let mut config = state.config.clone();
            config.panel_position = clamp(position, 0, 64);
            with_config(state, config)
        },
        Msg::SetShowWhenEmpty(show) => {
            let mut config = state.config.clone();
            config.show_when_empty = show;
            with_config(state, config)
        },
        Msg::SetItemHidden(key, hidden) => {
            let mut config = state.config.clone();
            config.hidden = hidden_keys(&state.config.hidden, key, hidden);
            with_config(state, config)
        },
        // Ordering is the daemon's job (it owns the persisted order), so the
        // request is forwarded and the view is refreshed when it answers.
        Msg::MoveItem(key, delta) => {
            let ghost k = key@;
            let calls = vec![Call::MoveItem(key, delta)];
            assert(calls.deep_view() =~= seq![SpecCall::MoveItem(k, delta)]);
            (state.clone(), calls)
        },
    }
}

fn hidden_keys(hidden: &Vec<String>, key: String, hide: bool) -> (r: Vec<String>)
    ensures
        r.deep_view() == hidden_with(hidden.deep_view(), key@, hide),
{
    let ghost h = hidden.deep_view();
    let ghost keep = not_key(key@);
    let mut kept: Vec<String> = Vec::new();
    let mut i: usize = 0;
    assert(h.take(0).filter(keep) =~= seq![]) by {
        reveal(Seq::filter);
    }
    while i < hidden.len()
        invariant
            i <= h.len(),
            h == hidden.deep_view(),
            keep == not_key(key@),
            kept.deep_view() == h.take(i as int).filter(keep),
        decreases hidden.len() - i,
    {
        assert(h.take(i + 1) =~= h.take(i as int).push(h[i as int]));
        proof {
            h.take(i as int).lemma_filter_push(h[i as int], keep);
        }
        assert(keep(h[i as int]) == (h[i as int] != key@));
        if !same_text(hidden[i].as_str(), key.as_str()) {
            let ghost before = kept.deep_view();
            kept.push(hidden[i].clone());
            assert(kept.deep_view() =~= before.push(h[i as int]));
        }
        i += 1;
    }
    assert(h.take(h.len() as int) =~= h);
    if hide {
        let ghost before = kept.deep_view();
        let ghost k = key@;
        kept.push(key);
        assert(kept.deep_view() =~= before.push(k));
    }
    kept
}

/// Change the configuration, show the result at once and ask the daemon to
/// keep it. The daemon owns the config file, so this is the only write path.
pub fn with_config(state: &State, config: ConfigView) -> (r: (State, Vec<Call>))
    ensures
        r.0@ == configured(state@, config@).0,
        r.1.deep_view() == configured(state@, config@).1,
{
    let mut next = state.clone();
    next.config = config.clone();
    next.error = None;
    let ghost c = config@;
    let calls = vec![Call::SetConfig(config)];
    assert(calls.deep_view() =~= seq![SpecCall::SetConfig(c)]);
    (next, calls)
}

/// What follows a call that changes something on the daemon: a failure is
/// reported with its text, and a call that went through is followed by a
/// reload (`None`), so what the window shows is what the daemon kept.
pub fn call_outcome(result: Result<(), String>) -> (r: Option<Msg>)
    ensures
        match result {
            Ok(()) => r is None,
            Err(error) => r is Some && r->0@ == SpecMsg::Failed(error@),
        },
{
    match result {
        Ok(()) => None,
        Err(error) => Some(Msg::Failed(error)),
    }
}

/// The message a reload turns into: the whole picture when all three
/// answers came, else the first error in the order status, configuration,
/// items.
pub fn load_reply(
    status: Result<StatusView, String>,
    config: Result<ConfigView, String>,
    items: Result<Vec<ItemView>, String>,
) -> (r: Msg)
    ensures
        match (status, config, items) {
            (Ok(s), Ok(c), Ok(i)) => r@ == SpecMsg::Loaded(
                SpecSnapshot { status: s@, config: c@, items: i.deep_view() },
            ),
            (Err(e), _, _) => r@ == SpecMsg::Failed(e@),
            (Ok(_), Err(e), _) => r@ == SpecMsg::Failed(e@),
            (Ok(_), Ok(_), Err(e)) => r@ == SpecMsg::Failed(e@),
        },
{
    match (status, config, items) {
        (Ok(status), Ok(config), Ok(items)) => Msg::Loaded(Box::new(Snapshot { status, config, items })),
        (Err(error), _, _) => Msg::Failed(error),
        (Ok(_), Err(error), _) => Msg::Failed(error),
        (Ok(_), Ok(_), Err(error)) => Msg::Failed(error),
    }
}

/// The title of an item's row: its title, or its id without one.
pub fn row_title(item: &ItemView) -> (r: &str)
    ensures
        r@ == (if item@.title.len() == 0 {
            item@.app_id
        } else {
            item@.title
        }),
{
    if item.title.as_str().is_empty() {
        item.app_id.as_str()
    } else {
        item.title.as_str()
    }
}

/// The separator between the parts of a subtitle.
pub open spec fn subtitle_separator() -> Seq<char> {
    "  \u{b7}  "@
}

/// The subtitle of an item's row: its id and, when it is unusual, its
/// status, separated by a dot.
pub open spec fn subtitle(item: SpecItemView) -> Seq<char> {
    let status = if item.status == "NeedsAttention"@ {
        "needs attention"@
    } else if item.status == "Passive"@ {
        "hidden by the application"@
    } else {
        seq![]
    };
    if item.app_id.len() > 0 && status.len() > 0 {
        item.app_id + subtitle_separator() + status
    } else if item.app_id.len() > 0 {
        item.app_id
    } else {
        status
    }
}

pub fn subtitle_of(item: &ItemView) -> (r: String)
    ensures
        r@ == subtitle(item@),
{
    let status: &str = if same_text(item.status.as_str(), "NeedsAttention") {
        "needs attention"
    } else if same_text(item.status.as_str(), "Passive") {
        "hidden by the application"
    } else {
        ""
    };
    proof {
        reveal_strlit("needs attention");
        reveal_strlit("hidden by the application");
        reveal_strlit("");
    }
    if !item.app_id.as_str().is_empty() && !status.is_empty() {
        let mut r = concat(item.app_id.as_str(), "  \u{b7}  ");
        push_chars(&mut r, status);
        r
    } else if !item.app_id.as_str().is_empty() {
        item.app_id.clone()
    } else {
        status.to_owned()
    }
}

/// The option a choice row shows at `index`, or the option at `fallback`
/// when `index` is past the three.
pub fn option_at<'a>(options: [&'a str; 3], index: u32, fallback: usize) -> (r: &'a str)
    requires
        fallback < 3,
    ensures
        r@ == (if index < 3 {
            options[index as int]@
        } else {
            options[fallback as int]@
        }),
{
    if index < 3 {
        options[index as usize]
    } else {
        options[fallback]
    }
}

/// A control of the settings window that the user changed, with what it
/// now shows.
#[derive(Debug, PartialEq)]
pub enum Control {
    /// The icon size spin row.
    IconSize(i32),
    /// The sort choice row, at this index.
    Sort(u32),
    /// The "show when empty" switch.
    ShowWhenEmpty(bool),
    /// The panel area choice row, at this index.
    PanelBox(u32),
    /// The panel position spin row.
    PanelPosition(i32),
    /// The up arrow of the row of this key.
    MoveUp(String),
    /// The down arrow of the row of this key.
    MoveDown(String),
    /// The visibility switch of the row of this key, now on or off.
    Visible(String, bool),
}

/// The mathematical value of a [`Control`].
pub enum SpecControl {
    IconSize(i32),
    Sort(u32),
    ShowWhenEmpty(bool),
    PanelBox(u32),
    PanelPosition(i32),
    MoveUp(Seq<char>),
    MoveDown(Seq<char>),
    Visible(Seq<char>, bool),
}

impl View for Control {
    type V = SpecControl;

    open spec fn view(&self) -> SpecControl {
        match self {
            Control::IconSize(v) => SpecControl::IconSize(*v),
            Control::Sort(i) => SpecControl::Sort(*i),
            Control::ShowWhenEmpty(b) => SpecControl::ShowWhenEmpty(*b),
            Control::PanelBox(i) => SpecControl::PanelBox(*i),
            Control::PanelPosition(v) => SpecControl::PanelPosition(*v),
            Control::MoveUp(key) => SpecControl::MoveUp(key@),
            Control::MoveDown(key) => SpecControl::MoveDown(key@),
            Control::Visible(key, on) => SpecControl::Visible(key@, *on),
        }
    }
}

/// The sort mode a choice row shows at `index`; past the end, the first.
pub open spec fn sort_at(index: u32) -> Seq<char> {
    if index == 1 {
        "manual"@
    } else if index == 2 {
        "title"@
    } else {
        "registered"@
    }
}

/// The panel area a choice row shows at `index`; past the end, the last.
pub open spec fn panel_box_at(index: u32) -> Seq<char> {
    if index == 0 {
        "left"@
    } else if index == 1 {
        "center"@
    } else {
        "right"@
    }
}

/// The message a changed control sends. Changes the window makes itself
/// while it shows the state (`applying`) send nothing from the settings
/// rows or the visibility switches; the arrow buttons always send.
pub open spec fn control_msg(c: SpecControl, applying: bool) -> Option<SpecMsg> {
    match c {
        SpecControl::MoveUp(key) => Some(SpecMsg::MoveItem(key, -1i32)),
        SpecControl::MoveDown(key) => Some(SpecMsg::MoveItem(key, 1i32)),
        _ => if applying {
            None
        } else {
            Some(
                match c {
                    SpecControl::IconSize(v) => SpecMsg::SetIconSize(v),
                    SpecControl::Sort(i) => SpecMsg::SetSort(sort_at(i)),
                    SpecControl::ShowWhenEmpty(b) => SpecMsg::SetShowWhenEmpty(b),
                    SpecControl::PanelBox(i) => SpecMsg::SetPanelBox(panel_box_at(i)),
                    SpecControl::PanelPosition(v) => SpecMsg::SetPanelPosition(v),
                    SpecControl::Visible(key, on) => SpecMsg::SetItemHidden(key, !on),
                    SpecControl::MoveUp(key) => SpecMsg::MoveItem(key, -1i32),
                    SpecControl::MoveDown(key) => SpecMsg::MoveItem(key, 1i32),
                },
            )
        },
    }
}

/// The message to send for a changed control, if any.
pub fn control_message(control: Control, applying: bool) -> (r: Option<Msg>)
    ensures
        match control_msg(control@, applying) {
            Some(m) => r is Some && r->0@ == m,
            None => r is None,
        },
{
    match control {
        Control::MoveUp(key) => Some(Msg::MoveItem(key, -1)),
        Control::MoveDown(key) => Some(Msg::MoveItem(key, 1)),
        Control::IconSize(v) => if applying {
            None
        } else {
            Some(Msg::SetIconSize(v))
        },
        Control::Sort(i) => if applying {
            None
        } else {
            let mode = option_at(["registered", "manual", "title"], i, 0);
            Some(Msg::SetSort(mode.to_owned()))
        },
        Control::ShowWhenEmpty(b) => if applying {
            None
        } else {
            Some(Msg::SetShowWhenEmpty(b))
        },
        Control::PanelBox(i) => if applying {
            None
        } else {
            let area = option_at(["left", "center", "right"], i, 2);
            Some(Msg::SetPanelBox(area.to_owned()))
        },
        Control::PanelPosition(v) => if applying {
            None
        } else {
            Some(Msg::SetPanelPosition(v))
        },
        Control::Visible(key, on) => if applying {
            None
        } else {
            Some(Msg::SetItemHidden(key, !on))
        },
    }
}

/// The keys of the items, in order.
pub open spec fn item_keys(items: Seq<SpecItemView>) -> Seq<Seq<char>> {
    items.map_values(|item: SpecItemView| item.key)
}

/// The controls of row `i`: whether its switch is on (the item is not
/// hidden), and whether its up and down arrows can be used. Rows that are
/// kept take their place from the first item with their key, rebuilt rows
/// from their index.
pub open spec fn row_controls(s: SpecState, i: int, keep: bool) -> (bool, bool, bool) {
    let p = if keep {
        match item_position(s.items, s.items[i].key) {
            Some(q) => q,
            None => 0,
        }
    } else {
        i
    };
    (!s.config.hidden.contains(s.items[i].key), p > 0, p + 1 < s.items.len())
}

/// How the item rows follow the state: whether the rows already shown, for
/// `shown_keys`, can stay (the same keys in the same order, so a switch is
/// never rebuilt under the pointer) or must be rebuilt, and each row's
/// controls as (switch on, up arrow enabled, down arrow enabled).
pub fn item_rows(shown_keys: &Vec<String>, state: &State) -> (r: (bool, Vec<(bool, bool, bool)>))
    ensures
        r.0 <==> shown_keys.deep_view() == item_keys(state@.items),
        r.1@.len() == state@.items.len(),
        forall|i: int| 0 <= i < r.1@.len() ==> #[trigger] r.1@[i] == row_controls(state@, i, r.0),
{
    let ghost items = state@.items;
    let ghost shown = shown_keys.deep_view();
    let n = state.items.len();
    let mut keep = shown_keys.len() == n;
    assert(item_keys(items).len() == n);
    let mut k: usize = 0;
    while k < n && keep
        invariant
            n == items.len(),
            items == state@.items,
            shown == shown_keys.deep_view(),
            k <= n,
            keep ==> shown.len() == n && forall|j: int| 0 <= j < k ==> shown[j] == items[j].key,
            !keep ==> shown != item_keys(items),
        decreases n - k,
    {
        assert(items[k as int] == state.items@[k as int]@);
        if !same_text(shown_keys[k].as_str(), state.items[k].key.as_str()) {
            keep = false;
            assert(item_keys(items)[k as int] == items[k as int].key);
        }
        k += 1;
    }
    if keep {
        assert(shown =~= item_keys(items));
    }
    let mut rows: Vec<(bool, bool, bool)> = Vec::new();
    let mut i: usize = 0;
    while i < n
        invariant
            n == items.len(),
            items == state@.items,
            i <= n,
            rows@.len() == i,
            forall|j: int| 0 <= j < i ==> #[trigger] rows@[j] == row_controls(state@, j, keep),
        decreases n - i,
    {
        assert(items[i as int] == state.items@[i as int]@);
        let key = state.items[i].key.as_str();
        let on = !state.is_hidden(key);
        let p: usize = if keep {
            match state.position(key) {
                Some(q) => q,
                None => 0,
            }
        } else {
            i
        };
        let up = p > 0;
        let down = p + 1 < n;
        rows.push((on, up, down));
        i += 1;
    }
    (keep, rows)
}

/// The note above the item rows: how to add an item when there is none,
/// how to use the rows otherwise.
pub fn items_note(state: &State) -> (r: &'static str)
    ensures
        r@ == (if state@.items.len() == 0 {
            "No tray items are registered. Start an application with a tray icon \u{2014} `taskbar-testitem` works \u{2014} and it will show up here."@
        } else {
            "Turn an item off to hide it from the panel. The arrow buttons move it within the tray."@
        }),
{
    if state.items.len() == 0 {
        "No tray items are registered. Start an application with a tray icon \u{2014} `taskbar-testitem` works \u{2014} and it will show up here."
    } else {
        "Turn an item off to hide it from the panel. The arrow buttons move it within the tray."
    }
}

/// The place of `value` among three options, the first when it is none of
/// them.
pub fn index_of(options: [&str; 3], value: &str) -> (r: usize)
    ensures
        r == (if options[0]@ == value@ {
            0usize
        } else if options[1]@ == value@ {
            1usize
        } else if options[2]@ == value@ {
            2usize
        } else {
            0usize
        }),
{
    if same_text(options[0], value) {
        0
    } else if same_text(options[1], value) {
        1
    } else if same_text(options[2], value) {
        2
    } else {
        0
    }
}

/// `n` written in decimal, with a minus sign when it is negative.
pub open spec fn signed_decimal(n: int) -> Seq<char> {
    if n < 0 {
        seq!['-'] + decimal((-n) as nat)
    } else {
        decimal(n as nat)
    }
}

fn push_signed(s: &mut String, n: i32)
    ensures
        final(s)@ == old(s)@ + signed_decimal(n as int),
{
    if n < 0 {
        push_chars(s, "-");
        proof {
            reveal_strlit("-");
        }
        let magnitude: u128 = (0i64 - n as i64) as u128;
        push_decimal(s, magnitude);
    } else {
        push_decimal(s, n as u128);
    }
}

/// The five lines of the status group: version and item count, who owns
/// the watcher name, how many items the window shows, the config file and
/// the last error, each trimmed.
pub open spec fn status_lines(s: SpecState) -> Seq<Seq<char>> {
    seq![
        trim(
            match s.status {
                Some(st) => st.version + "  \u{b7}  "@ + signed_decimal(st.item_count as int)
                    + " item(s)"@,
                None => "not reachable"@,
            },
        ),
        trim(
            match s.status {
                Some(st) => if st.watcher_owned {
                    "ours"@
                } else if st.watcher_owner.len() == 0 {
                    "nobody owns it"@
                } else {
                    "owned by "@ + st.watcher_owner
                },
                None => "unknown"@,
            },
        ),
        trim(decimal(s.items.len())),
        trim(
            match s.status {
                Some(st) => st.config_path,
                None => seq![],
            },
        ),
        trim(
            match s.error {
                Some(e) => e,
                None => seq![],
            },
        ),
    ]
}

/// The texts of the status group, in order.
pub fn status_texts(state: &State) -> (r: Vec<String>)
    ensures
        r.deep_view() == status_lines(state@),
{
    let first = match &state.status {
        Some(st) => {
            let mut line = concat(st.version.as_str(), "  \u{b7}  ");
            push_signed(&mut line, st.item_count);
            push_chars(&mut line, " item(s)");
            line
        },
        None => "not reachable".to_owned(),
    };
    let second = match &state.status {
        Some(st) => if st.watcher_owned {
            "ours".to_owned()
        } else if st.watcher_owner.as_str().is_empty() {
            "nobody owns it".to_owned()
        } else {
            concat("owned by ", st.watcher_owner.as_str())
        },
        None => "unknown".to_owned(),
    };
    let mut count = String::new();
    push_decimal(&mut count, state.items.len() as u128);
    let fourth = match &state.status {
        Some(st) => st.config_path.clone(),
        None => String::new(),
    };
    let fifth = match &state.error {
        Some(e) => e.clone(),
        None => String::new(),
    };
    let r = vec![
        trimmed(first.as_str()),
        trimmed(second.as_str()),
        trimmed(count.as_str()),
        trimmed(fourth.as_str()),
        trimmed(fifth.as_str()),
    ];
    assert(count@ =~= decimal(state@.items.len()));
    assert(r.deep_view() =~= status_lines(state@));
    r
}

/// Hiding a key shows it as hidden and showing it again as not hidden; no
/// other key changes state.
pub proof fn lemma_hidden_with(hidden: Seq<Seq<char>>, key: Seq<char>, hide: bool, other: Seq<char>)
    ensures
        hidden_with(hidden, key, hide).contains(key) == hide,
        other != key ==> hidden_with(hidden, key, hide).contains(other) == hidden.contains(other),
{
    let kept = hidden.filter(not_key(key));
    lemma_filter_contains(hidden, not_key(key), key);
    lemma_filter_contains(hidden, not_key(key), other);
    if hide {
        assert(kept.push(key)[kept.len() as int] == key);
        if other != key {
            if kept.push(key).contains(other) {
                let i = choose|i: int| 0 <= i < kept.push(key).len() && kept.push(key)[i] == other;
                assert(kept[i] == other);
            }
            if kept.contains(other) {
                let i = choose|i: int| 0 <= i < kept.len() && kept[i] == other;
                assert(kept.push(key)[i] == other);
            }
        }
    }
}

/// A settings change the user makes leaves the icon size within 8 to 128
/// and the panel position within 0 to 64 when they were there before.
pub proof fn lemma_settings_bounded(s: SpecState, m: SpecMsg)
    requires
        8 <= s.config.icon_size <= 128,
        0 <= s.config.panel_position <= 64,
        !(m is Loaded),
    ensures
        8 <= settings_step(s, m).0.config.icon_size <= 128,
        0 <= settings_step(s, m).0.config.panel_position <= 64,
{
}

} // verus!
