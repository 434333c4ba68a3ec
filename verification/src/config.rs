//! User preferences.
//!
//! The config is a plain value: the daemon owns the file on disk and every
//! other component reads and writes it through the daemon's D-Bus API, so
//! there is exactly one writer and one source of truth.

use vstd::prelude::*;

use crate::text::{same_strings, same_text, trim, trimmed};
use crate::view::{ConfigView, SpecConfigView};

verus! {

/// How tray icons are ordered in the panel.
#[derive(Clone, Copy, Debug, PartialEq, Eq, Structural)]
pub enum SortMode {
    /// Order in which applications registered their icon.
    Registered,
    /// Manual order maintained by the user ([`Config::order`]).
    Manual,
    /// Alphabetically by the item's title.
    Title,
}

pub open spec fn sort_mode_name(mode: SortMode) -> Seq<char> {
    match mode {
        SortMode::Registered => "registered"@,
        SortMode::Manual => "manual"@,
        SortMode::Title => "title"@,
    }
}

/// Unknown names fall back to registration order.
pub open spec fn sort_mode_named(name: Seq<char>) -> SortMode {
    if name == "manual"@ {
        SortMode::Manual
    } else if name == "title"@ {
        SortMode::Title
    } else {
        SortMode::Registered
    }
}

impl SortMode {
    pub fn as_str(self) -> (r: &'static str)
        ensures
            r@ == sort_mode_name(self),
    {
        match self {
            SortMode::Registered => "registered",
            SortMode::Manual => "manual",
            SortMode::Title => "title",
        }
    }

    pub fn parse(value: &str) -> (r: Self)
        ensures
            r == sort_mode_named(value@),
    {
        if same_text(value, "manual") {
            SortMode::Manual
        } else if same_text(value, "title") {
            SortMode::Title
        } else {
            SortMode::Registered
        }
    }
}

/// A sort mode survives being written out and read back.
pub proof fn lemma_sort_mode_round_trip(mode: SortMode)
    ensures
        sort_mode_named(sort_mode_name(mode)) == mode,
{
    reveal_strlit("registered");
    reveal_strlit("manual");
    reveal_strlit("title");
    assert("registered"@.len() == 10 && "manual"@.len() == 6 && "title"@.len() == 5);
}

/// The panel area the tray indicator is added to.
#[derive(Clone, Copy, Debug, PartialEq, Eq, Structural)]
pub enum PanelBox {
    Left,
    Center,
    Right,
}

pub open spec fn panel_box_name(area: PanelBox) -> Seq<char> {
    match area {
        PanelBox::Left => "left"@,
        PanelBox::Center => "center"@,
        PanelBox::Right => "right"@,
    }
}

/// Unknown names fall back to the right area.
pub open spec fn panel_box_named(name: Seq<char>) -> PanelBox {
    if name == "left"@ {
        PanelBox::Left
    } else if name == "center"@ {
        PanelBox::Center
    } else {
        PanelBox::Right
    }
}

impl PanelBox {
    pub fn as_str(self) -> (r: &'static str)
        ensures
            r@ == panel_box_name(self),
    {
        match self {
            PanelBox::Left => "left",
            PanelBox::Center => "center",
            PanelBox::Right => "right",
        }
    }

    pub fn parse(value: &str) -> (r: Self)
        ensures
            r == panel_box_named(value@),
    {
        if same_text(value, "left") {
            PanelBox::Left
        } else if same_text(value, "center") {
            PanelBox::Center
        } else {
            PanelBox::Right
        }
    }
}

/// A panel area survives being written out and read back.
pub proof fn lemma_panel_box_round_trip(area: PanelBox)
    ensures
        panel_box_named(panel_box_name(area)) == area,
{
    reveal_strlit("left");
    reveal_strlit("center");
    reveal_strlit("right");
    assert("left"@.len() == 4 && "center"@.len() == 6 && "right"@.len() == 5);
}

/// Everything the user can configure. `order` and `hidden` refer to item keys
/// (see [`crate::model::Key`]).
#[derive(Debug, PartialEq)]
pub struct Config {
    /// Height of a tray icon in logical pixels.
    pub icon_size: u32,
    pub sort: SortMode,
    /// Manual ordering of item keys; items not listed keep registration order
    /// and come last.
    pub order: Vec<String>,
    /// Item keys the user asked to hide.
    pub hidden: Vec<String>,
    /// Keep the indicator in the panel while no item is registered.
    pub show_when_empty: bool,
    /// Panel area the indicator lives in.
    pub panel_box: PanelBox,
    /// Position inside that area.
    pub panel_position: i32,
}

/// The mathematical value of a [`Config`].
pub struct SpecConfig {
    pub icon_size: u32,
    pub sort: SortMode,
    pub order: Seq<Seq<char>>,
    pub hidden: Seq<Seq<char>>,
    pub show_when_empty: bool,
    pub panel_box: PanelBox,
    pub panel_position: i32,
}

impl DeepView for Config {
    type V = SpecConfig;

    open spec fn deep_view(&self) -> SpecConfig {
        SpecConfig {
            icon_size: self.icon_size,
            sort: self.sort,
            order: self.order.deep_view(),
            hidden: self.hidden.deep_view(),
            show_when_empty: self.show_when_empty,
            panel_box: self.panel_box,
            panel_position: self.panel_position,
        }
    }
}

impl View for Config {
    type V = SpecConfig;

    open spec fn view(&self) -> SpecConfig {
        self.deep_view()
    }
}

impl Clone for Config {
    fn clone(&self) -> (r: Self)
        ensures
            r@ == self@,
    {
        let r = Config {
            icon_size: self.icon_size,
            sort: self.sort,
            order: self.order.clone(),
            hidden: self.hidden.clone(),
            show_when_empty: self.show_when_empty,
            panel_box: self.panel_box,
            panel_position: self.panel_position,
        };
        assert(r.order.deep_view() =~= self.order.deep_view());
        assert(r.hidden.deep_view() =~= self.hidden.deep_view());
        r
    }
}

pub open spec fn default_config() -> SpecConfig {
    SpecConfig {
        icon_size: 16,
        sort: SortMode::Registered,
        order: seq![],
        hidden: seq![],
        show_when_empty: false,
        panel_box: PanelBox::Right,
        panel_position: 0,
    }
}

impl Default for Config {
    fn default() -> (r: Self)
        ensures
            r@ == default_config(),
    {
        let r = Config {
            icon_size: 16,
            sort: SortMode::Registered,
            order: Vec::new(),
            hidden: Vec::new(),
            show_when_empty: false,
            panel_box: PanelBox::Right,
            panel_position: 0,
        };
        assert(r.order.deep_view() =~= seq![]);
        assert(r.hidden.deep_view() =~= seq![]);
        r
    }
}

/// The keys kept by normalisation: trimmed, non-empty, first occurrence only.
pub open spec fn dedupe(keys: Seq<Seq<char>>) -> Seq<Seq<char>>
    decreases keys.len(),
{
    if keys.len() == 0 {
        seq![]
    } else {
        let kept = dedupe(keys.drop_last());
        let key = trim(keys.last());
        if key.len() > 0 && !kept.contains(key) {
            kept.push(key)
        } else {
            kept
        }
    }
}

pub open spec fn clamp_u32(value: u32, low: u32, high: u32) -> u32 {
    if value < low {
        low
    } else if value > high {
        high
    } else {
        value
    }
}

pub open spec fn clamp_i32(value: i32, low: i32, high: i32) -> i32 {
    if value < low {
        low
    } else if value > high {
        high
    } else {
        value
    }
}

/// `Config::normalized` of a config.
pub open spec fn normalize(c: SpecConfig) -> SpecConfig {
    SpecConfig {
        icon_size: clamp_u32(c.icon_size, 8, 128),
        sort: c.sort,
        order: dedupe(c.order),
        hidden: dedupe(c.hidden),
        show_when_empty: c.show_when_empty,
        panel_box: c.panel_box,
        panel_position: clamp_i32(c.panel_position, 0, 64),
    }
}

/// Keys as normalisation leaves them: trimmed, non-empty, each once.
pub open spec fn keys_normal(keys: Seq<Seq<char>>) -> bool {
    &&& forall|i: int| 0 <= i < keys.len() ==> #[trigger] trim(keys[i]) == keys[i] && keys[i].len()
        > 0
    &&& forall|i: int, j: int| 0 <= i < j < keys.len() ==> keys[i] != keys[j]
}

/// The invariants every downstream user of a config may rely on.
pub open spec fn is_normalized(c: SpecConfig) -> bool {
    &&& 8 <= c.icon_size <= 128
    &&& 0 <= c.panel_position <= 64
    &&& keys_normal(c.order)
    &&& keys_normal(c.hidden)
}

/// Every element of `keys` except those equal to `key`, in order.
pub open spec fn without_key(keys: Seq<Seq<char>>, key: Seq<char>) -> Seq<Seq<char>> {
    keys.filter(other_than(key))
}

/// Holds of every key but `key`.
pub open spec fn other_than(key: Seq<char>) -> spec_fn(Seq<char>) -> bool {
    |entry: Seq<char>| entry != key
}

/// `Config::with_hidden` of a config.
pub open spec fn config_with_hidden(c: SpecConfig, key: Seq<char>, hidden: bool) -> SpecConfig {
    let kept = without_key(c.hidden, key);
    normalize(SpecConfig { hidden: if hidden { kept.push(key) } else { kept }, ..c })
}

/// `Config::with_order` of a config.
pub open spec fn config_with_order(c: SpecConfig, order: Seq<Seq<char>>) -> SpecConfig {
    normalize(SpecConfig { sort: SortMode::Manual, order: order, ..c })
}

/// The wire form of a config.
pub open spec fn config_to_view(c: SpecConfig) -> SpecConfigView {
    SpecConfigView {
        icon_size: c.icon_size as i32,
        sort: sort_mode_name(c.sort),
        order: c.order,
        hidden: c.hidden,
        show_when_empty: c.show_when_empty,
        panel_box: panel_box_name(c.panel_box),
        panel_position: c.panel_position,
    }
}

/// The config a wire form describes, normalised.
pub open spec fn config_from_view(v: SpecConfigView) -> SpecConfig {
    normalize(
        SpecConfig {
            icon_size: v.icon_size as u32,
            sort: sort_mode_named(v.sort),
            order: v.order,
            hidden: v.hidden,
            show_when_empty: v.show_when_empty,
            panel_box: panel_box_named(v.panel_box),
            panel_position: v.panel_position,
        },
    )
}

/// Whether `keys` holds `key`.
pub fn contains_text(keys: &Vec<String>, key: &str) -> (r: bool)
    ensures
        r == keys.deep_view().contains(key@),
{
    let mut i: usize = 0;
    while i < keys.len()
        invariant
            i <= keys@.len(),
            forall|j: int| 0 <= j < i ==> keys.deep_view()[j] != key@,
        decreases keys.len() - i,
    {
        if same_text(keys[i].as_str(), key) {
            assert(keys.deep_view()[i as int] == key@);
            return true;
        }
        i += 1;
    }
    false
}

fn dedupe_keys(keys: &Vec<String>) -> (r: Vec<String>)
    ensures
        r.deep_view() == dedupe(keys.deep_view()),
{
    let mut out: Vec<String> = Vec::new();
    let mut i: usize = 0;
    assert(keys.deep_view().take(0) =~= seq![]);
    while i < keys.len()
        invariant
            i <= keys@.len(),
            out.deep_view() == dedupe(keys.deep_view().take(i as int)),
        decreases keys.len() - i,
    {
        let key = trimmed(keys[i].as_str());
        let ghost prefix = keys.deep_view().take(i + 1);
        assert(prefix.drop_last() =~= keys.deep_view().take(i as int));
        assert(prefix.last() == keys.deep_view()[i as int]);
        if !key.as_str().is_empty() && !contains_text(&out, key.as_str()) {
            let ghost before = out.deep_view();
            out.push(key);
            assert(out.deep_view() =~= before.push(key@));
        }
        i += 1;
    }
    assert(keys.deep_view().take(keys@.len() as int) =~= keys.deep_view());
    out
}

/// Whether two configurations are equal.
pub fn same_config(a: &Config, b: &Config) -> (r: bool)
    ensures
        r == (a@ == b@),
{
    a.icon_size == b.icon_size && a.sort == b.sort && same_strings(&a.order, &b.order)
        && same_strings(&a.hidden, &b.hidden) && a.show_when_empty == b.show_when_empty
        && a.panel_box == b.panel_box && a.panel_position == b.panel_position
}

impl Config {
    /// A copy with invariants enforced: bounded icon size, no empty or
    /// duplicated keys. Everything downstream may assume a normalised config.
    pub fn normalized(self) -> (r: Self)
        ensures
            r@ == normalize(self@),
            is_normalized(r@),
    {
        let icon_size = if self.icon_size < 8 {
            8
        } else if self.icon_size > 128 {
            128
        } else {
            self.icon_size
        };
        let panel_position = if self.panel_position < 0 {
            0
        } else if self.panel_position > 64 {
            64
        } else {
            self.panel_position
        };
        let r = Config {
            icon_size,
            sort: self.sort,
            order: dedupe_keys(&self.order),
            hidden: dedupe_keys(&self.hidden),
            show_when_empty: self.show_when_empty,
            panel_box: self.panel_box,
            panel_position,
        };
        proof {
            lemma_dedupe_normal(self@.order);
            lemma_dedupe_normal(self@.hidden);
        }
        r
    }

    pub fn is_hidden(&self, key: &str) -> (r: bool)
        ensures
            r == self@.hidden.contains(key@),
    {
        contains_text(&self.hidden, key)
    }

    /// A copy with `key` hidden or shown again.
    pub fn with_hidden(self, key: &str, hidden: bool) -> (r: Self)
        ensures
            r@ == config_with_hidden(self@, key@, hidden),
            is_normalized(r@),
    {
        let mut kept: Vec<String> = Vec::new();
        let mut i: usize = 0;
        let ghost keep = other_than(key@);
        assert(self.hidden.deep_view().take(0).filter(keep) =~= seq![]);
        while i < self.hidden.len()
            invariant
                i <= self.hidden@.len(),
                keep == other_than(key@),
                kept.deep_view() == self.hidden.deep_view().take(i as int).filter(keep),
            decreases self.hidden.len() - i,
        {
            proof {
                let prefix = self.hidden.deep_view().take(i as int);
                assert(self.hidden.deep_view().take(i + 1) =~= prefix.push(
                    self.hidden.deep_view()[i as int],
                ));
                prefix.lemma_filter_push(self.hidden.deep_view()[i as int], keep);
            }
            let ghost entry = self.hidden.deep_view()[i as int];
            assert(entry == self.hidden@[i as int]@);
            if !same_text(self.hidden[i].as_str(), key) {
                let ghost before = kept.deep_view();
                kept.push(self.hidden[i].clone());
                assert(keep(entry));
                assert(kept.deep_view() =~= before.push(entry));
            } else {
                assert(!keep(entry));
            }
            i += 1;
        }
        assert(self.hidden.deep_view().take(self.hidden@.len() as int) =~= self.hidden.deep_view());
        if hidden {
            let ghost before = kept.deep_view();
            kept.push(key.to_owned());
            assert(kept.deep_view() =~= before.push(key@));
        }
        let next = Config {
            icon_size: self.icon_size,
            sort: self.sort,
            order: self.order,
            hidden: kept,
            show_when_empty: self.show_when_empty,
            panel_box: self.panel_box,
            panel_position: self.panel_position,
        };
        next.normalized()
    }

    /// A copy ordered by `order` (which becomes the manual order).
    pub fn with_order(self, order: Vec<String>) -> (r: Self)
        ensures
            r@ == config_with_order(self@, order.deep_view()),
            is_normalized(r@),
    {
        let next = Config {
            icon_size: self.icon_size,
            sort: SortMode::Manual,
            order,
            hidden: self.hidden,
            show_when_empty: self.show_when_empty,
            panel_box: self.panel_box,
            panel_position: self.panel_position,
        };
        next.normalized()
    }

    pub fn to_view(&self) -> (r: ConfigView)
        ensures
            r@ == config_to_view(self@),
    {
        let r = ConfigView {
            icon_size: self.icon_size as i32,
            sort: self.sort.as_str().to_owned(),
            order: self.order.clone(),
            hidden: self.hidden.clone(),
            show_when_empty: self.show_when_empty,
            panel_box: self.panel_box.as_str().to_owned(),
            panel_position: self.panel_position,
        };
        assert(r.order.deep_view() =~= self.order.deep_view());
        assert(r.hidden.deep_view() =~= self.hidden.deep_view());
        r
    }

    pub fn from_view(view: ConfigView) -> (r: Self)
        ensures
            r@ == config_from_view(view@),
            is_normalized(r@),
    {
        let c = Config {
            icon_size: view.icon_size as u32,
            sort: SortMode::parse(view.sort.as_str()),
            order: view.order,
            hidden: view.hidden,
            show_when_empty: view.show_when_empty,
            panel_box: PanelBox::parse(view.panel_box.as_str()),
            panel_position: view.panel_position,
        };
        c.normalized()
    }
}

// ---------------------------------------------------------------------------
// Laws

proof fn lemma_trim_start_shape(s: Seq<char>)
    ensures
        crate::text::trim_start(s).len() == 0 || !crate::text::is_white_space(
            crate::text::trim_start(s)[0],
        ),
        crate::text::trim_start(crate::text::trim_start(s)) == crate::text::trim_start(s),
    decreases s.len(),
{
    if s.len() > 0 && crate::text::is_white_space(s[0]) {
        lemma_trim_start_shape(s.drop_first());
    }
}

proof fn lemma_trim_end_keeps_head(s: Seq<char>)
    requires
        s.len() == 0 || !crate::text::is_white_space(s[0]),
    ensures
        crate::text::trim_end(s).len() == 0 || crate::text::trim_end(s)[0] == s[0],
        crate::text::trim_end(s).len() == 0 || !crate::text::is_white_space(
            crate::text::trim_end(s).last(),
        ),
    decreases s.len(),
{
    if s.len() > 0 && crate::text::is_white_space(s.last()) {
        lemma_trim_end_keeps_head(s.drop_last());
    }
}

proof fn lemma_trim_end_fixed(s: Seq<char>)
    requires
        s.len() == 0 || !crate::text::is_white_space(s.last()),
    ensures
        crate::text::trim_end(s) == s,
{
}

proof fn lemma_trim_start_fixed(s: Seq<char>)
    requires
        s.len() == 0 || !crate::text::is_white_space(s[0]),
    ensures
        crate::text::trim_start(s) == s,
{
}

/// Trimming twice is trimming once.
pub proof fn lemma_trim_idempotent(s: Seq<char>)
    ensures
        trim(trim(s)) == trim(s),
{
    let t = crate::text::trim_start(s);
    lemma_trim_start_shape(s);
    lemma_trim_end_keeps_head(t);
    let u = crate::text::trim_end(t);
    lemma_trim_start_fixed(u);
    lemma_trim_end_fixed(u);
}

proof fn lemma_dedupe_normal(keys: Seq<Seq<char>>)
    ensures
        keys_normal(dedupe(keys)),
    decreases keys.len(),
{
    if keys.len() > 0 {
        lemma_dedupe_normal(keys.drop_last());
        lemma_trim_idempotent(keys.last());
        let kept = dedupe(keys.drop_last());
        let key = trim(keys.last());
        if key.len() > 0 && !kept.contains(key) {
            let out = kept.push(key);
            assert forall|i: int, j: int| 0 <= i < j < out.len() implies out[i] != out[j] by {
                if j == out.len() - 1 {
                    assert(kept[i] == out[i]);
                }
            }
            assert forall|i: int| 0 <= i < out.len() implies #[trigger] trim(out[i]) == out[i]
                && out[i].len() > 0 by {
                if i < kept.len() {
                    assert(out[i] == kept[i]);
                }
            }
        }
    }
}

proof fn lemma_dedupe_of_normal(keys: Seq<Seq<char>>)
    requires
        keys_normal(keys),
    ensures
        dedupe(keys) == keys,
    decreases keys.len(),
{
    if keys.len() > 0 {
        let init = keys.drop_last();
        assert(keys_normal(init)) by {
            assert forall|i: int| 0 <= i < init.len() implies #[trigger] trim(init[i]) == init[i]
                && init[i].len() > 0 by {
                assert(init[i] == keys[i]);
            }
        }
        lemma_dedupe_of_normal(init);
        assert(trim(keys.last()) == keys.last());
        assert(!init.contains(keys.last())) by {
            if init.contains(keys.last()) {
                let i = choose|i: int| 0 <= i < init.len() && init[i] == keys.last();
                assert(keys[i] == keys[keys.len() - 1]);
            }
        }
        assert(init.push(keys.last()) =~= keys);
    }
}

/// Normalising leaves a configuration every downstream user may rely on.
pub proof fn lemma_normalize_normalizes(c: SpecConfig)
    ensures
        is_normalized(normalize(c)),
{
    lemma_dedupe_normal(c.order);
    lemma_dedupe_normal(c.hidden);
}

/// Normalising a normalised config changes nothing.
pub proof fn lemma_normalize_fixed(c: SpecConfig)
    requires
        is_normalized(c),
    ensures
        normalize(c) == c,
{
    lemma_dedupe_of_normal(c.order);
    lemma_dedupe_of_normal(c.hidden);
}

/// Normalisation is idempotent, and its result is normalised.
pub proof fn lemma_normalize_idempotent(c: SpecConfig)
    ensures
        is_normalized(normalize(c)),
        normalize(normalize(c)) == normalize(c),
{
    lemma_dedupe_normal(c.order);
    lemma_dedupe_normal(c.hidden);
    lemma_normalize_fixed(normalize(c));
}

/// A normalised config survives the trip through its wire form.
pub proof fn lemma_config_view_round_trip(c: SpecConfig)
    requires
        is_normalized(c),
    ensures
        config_from_view(config_to_view(c)) == c,
{
    lemma_sort_mode_round_trip(c.sort);
    lemma_panel_box_round_trip(c.panel_box);
    assert((c.icon_size as i32) as u32 == c.icon_size);
    lemma_normalize_fixed(c);
}

proof fn lemma_without_key(keys: Seq<Seq<char>>, key: Seq<char>)
    requires
        keys_normal(keys),
    ensures
        keys_normal(without_key(keys, key)),
        forall|x: Seq<char>| #[trigger]
            without_key(keys, key).contains(x) <==> (keys.contains(x) && x != key),
    decreases keys.len(),
{
    let keep = other_than(key);
    if keys.len() == 0 {
        assert(without_key(keys, key) =~= seq![]) by {
            reveal(Seq::filter);
        }
    } else {
        let init = keys.drop_last();
        let last = keys.last();
        assert(keys_normal(init)) by {
            assert forall|i: int| 0 <= i < init.len() implies #[trigger] trim(init[i]) == init[i]
                && init[i].len() > 0 by {
                assert(init[i] == keys[i]);
            }
        }
        lemma_without_key(init, key);
        assert(init.push(last) =~= keys);
        init.lemma_filter_push(last, keep);
        let rest = without_key(init, key);
        assert(!init.contains(last)) by {
            if init.contains(last) {
                let i = choose|i: int| 0 <= i < init.len() && init[i] == last;
                assert(keys[i] == keys[keys.len() - 1]);
            }
        }
        if last != key {
            let out = rest.push(last);
            assert(without_key(keys, key) == out);
            assert forall|i: int, j: int| 0 <= i < j < out.len() implies out[i] != out[j] by {
                if j == out.len() - 1 {
                    assert(rest.contains(rest[i]));
                    assert(out[i] == rest[i]);
                }
            }
            assert forall|i: int| 0 <= i < out.len() implies #[trigger] trim(out[i]) == out[i]
                && out[i].len() > 0 by {
                if i < rest.len() {
                    assert(out[i] == rest[i]);
                }
            }
            assert forall|x: Seq<char>| #[trigger] out.contains(x) <==> (keys.contains(x) && x
                != key) by {
                if out.contains(x) {
                    let i = choose|i: int| 0 <= i < out.len() && out[i] == x;
                    if i < rest.len() {
                        assert(rest[i] == x);
                        assert(rest.contains(x));
                        let k = choose|k: int| 0 <= k < init.len() && init[k] == x;
                        assert(keys[k] == x);
                    } else {
                        assert(keys[keys.len() - 1] == x);
                    }
                }
                if keys.contains(x) && x != key {
                    let i = choose|i: int| 0 <= i < keys.len() && keys[i] == x;
                    if i < init.len() {
                        assert(init[i] == x);
                        assert(rest.contains(x));
                        let k = choose|k: int| 0 <= k < rest.len() && rest[k] == x;
                        assert(out[k] == x);
                    } else {
                        assert(out[out.len() - 1] == x);
                    }
                }
            }
        } else {
            assert(without_key(keys, key) == rest);
            assert forall|x: Seq<char>| #[trigger] rest.contains(x) <==> (keys.contains(x) && x
                != key) by {
                if keys.contains(x) && x != key {
                    let i = choose|i: int| 0 <= i < keys.len() && keys[i] == x;
                    assert(i < init.len());
                    assert(init[i] == x);
                }
                if rest.contains(x) {
                    let k = choose|k: int| 0 <= k < init.len() && init[k] == x;
                    assert(keys[k] == x);
                }
            }
        }
    }
}

/// Hiding a key hides it, showing it again shows it, and no other key
/// changes its visibility.
pub proof fn lemma_with_hidden(c: SpecConfig, key: Seq<char>, hidden: bool, other: Seq<char>)
    requires
        is_normalized(c),
        trim(key) == key,
        key.len() > 0,
    ensures
        config_with_hidden(c, key, hidden).hidden.contains(key) == hidden,
        other != key ==> config_with_hidden(c, key, hidden).hidden.contains(other)
            == c.hidden.contains(other),
        config_with_hidden(c, key, hidden).order == c.order,
        config_with_hidden(c, key, hidden).sort == c.sort,
{
    lemma_without_key(c.hidden, key);
    let kept = without_key(c.hidden, key);
    lemma_dedupe_of_normal(c.order);
    if hidden {
        let out = kept.push(key);
        assert(!kept.contains(key));
        assert(keys_normal(out)) by {
            assert forall|i: int, j: int| 0 <= i < j < out.len() implies out[i] != out[j] by {
                if j == out.len() - 1 {
                    assert(out[i] == kept[i]);
                    assert(kept.contains(kept[i]));
                }
            }
            assert forall|i: int| 0 <= i < out.len() implies #[trigger] trim(out[i]) == out[i]
                && out[i].len() > 0 by {
                if i < kept.len() {
                    assert(out[i] == kept[i]);
                }
            }
        }
        lemma_dedupe_of_normal(out);
        assert(out[out.len() - 1] == key);
        if other != key {
            if out.contains(other) {
                let i = choose|i: int| 0 <= i < out.len() && out[i] == other;
                assert(kept[i] == other);
            }
            if kept.contains(other) {
                let i = choose|i: int| 0 <= i < kept.len() && kept[i] == other;
                assert(out[i] == other);
            }
        }
    } else {
        lemma_dedupe_of_normal(kept);
    }
}

} // verus!
