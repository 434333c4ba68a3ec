//! Ordering and visibility of tray items.
//!
//! Pure queries and permutations over the registered items; the panel shows
//! exactly what these functions return.

use vstd::prelude::*;

use crate::config::{contains_text, Config, SortMode, SpecConfig};
use crate::model::{keys_of, Item, Key, SpecItem};
use crate::sni::{accessible_name_of, Status};
use crate::text::{
    lemma_text_lt_irreflexive, lemma_text_lt_total, lemma_text_lt_transitive, lowercase,
    same_text, text_less, text_lt, to_lowercase,
};

verus! {

/// Where an item goes when items are sorted: by position first, then by
/// name, then by key.
struct Rank {
    position: usize,
    name: String,
    key: String,
}

/// The mathematical value of a rank.
pub struct SpecRank {
    pub position: int,
    pub name: Seq<char>,
    pub key: Seq<char>,
}

impl View for Rank {
    type V = SpecRank;

    closed spec fn view(&self) -> SpecRank {
        SpecRank { position: self.position as int, name: self.name@, key: self.key@ }
    }
}

/// The order of ranks: position, then name, then key, texts compared
/// lexicographically.
pub open spec fn rank_lt(a: SpecRank, b: SpecRank) -> bool {
    ||| a.position < b.position
    ||| a.position == b.position && text_lt(a.name, b.name)
    ||| a.position == b.position && a.name == b.name && text_lt(a.key, b.key)
}

proof fn lemma_rank_lt_irreflexive(a: SpecRank)
    ensures
        !rank_lt(a, a),
{
    lemma_text_lt_irreflexive(a.name);
    lemma_text_lt_irreflexive(a.key);
}

proof fn lemma_rank_lt_transitive(a: SpecRank, b: SpecRank, c: SpecRank)
    requires
        rank_lt(a, b),
        rank_lt(b, c),
    ensures
        rank_lt(a, c),
{
    if a.position == b.position && b.position == c.position {
        if text_lt(a.name, b.name) && text_lt(b.name, c.name) {
            lemma_text_lt_transitive(a.name, b.name, c.name);
        } else if a.name == b.name && b.name == c.name {
            lemma_text_lt_transitive(a.key, b.key, c.key);
        }
    }
}

proof fn lemma_rank_lt_total(a: SpecRank, b: SpecRank)
    requires
        a != b,
    ensures
        rank_lt(a, b) || rank_lt(b, a),
{
    if a.position == b.position {
        if a.name != b.name {
            lemma_text_lt_total(a.name, b.name);
        } else {
            lemma_text_lt_total(a.key, b.key);
        }
    }
}

/// "Not after" is transitive.
proof fn lemma_rank_le_transitive(a: SpecRank, b: SpecRank, c: SpecRank)
    requires
        !rank_lt(a, b),
        !rank_lt(b, c),
    ensures
        !rank_lt(a, c),
{
    if rank_lt(a, c) {
        if a == b {
        } else {
            lemma_rank_lt_total(a, b);
            lemma_rank_lt_transitive(b, a, c);
        }
    }
}

proof fn lemma_rank_lt_asymmetric(a: SpecRank, b: SpecRank)
    requires
        rank_lt(a, b),
    ensures
        !rank_lt(b, a),
{
    if rank_lt(b, a) {
        lemma_rank_lt_transitive(a, b, a);
        lemma_rank_lt_irreflexive(a);
    }
}

/// `perm` lists the positions of `ranks` in stably sorted order: each
/// position once, never a later rank before an earlier one, and equal ranks
/// in their original order.
pub open spec fn is_stable_sort(ranks: Seq<SpecRank>, perm: Seq<int>) -> bool {
    &&& perm.len() == ranks.len()
    &&& forall|k: int| 0 <= k < perm.len() ==> 0 <= #[trigger] perm[k] < ranks.len()
    &&& forall|k: int, l: int| 0 <= k < l < perm.len() ==> perm[k] != perm[l]
    &&& forall|k: int, l: int|
        0 <= k < l < perm.len() ==> !rank_lt(ranks[perm[l]], ranks[perm[k]])
    &&& forall|k: int, l: int|
        0 <= k < l < perm.len() && ranks[perm[k]] == ranks[perm[l]] ==> perm[k] < perm[l]
}

/// The positions of `out` as integers.
pub open spec fn as_ints(out: Seq<usize>) -> Seq<int> {
    out.map_values(|x: usize| x as int)
}

fn rank_less(a: &Rank, b: &Rank) -> (r: bool)
    ensures
        r == rank_lt(a@, b@),
{
    a.position < b.position || (a.position == b.position && (text_less(
        a.name.as_str(),
        b.name.as_str(),
    ) || (same_text(a.name.as_str(), b.name.as_str()) && text_less(
        a.key.as_str(),
        b.key.as_str(),
    ))))
}

/// A stable insertion sort of the positions of `ranks`.
fn stable_order(ranks: &Vec<Rank>) -> (r: Vec<usize>)
    ensures
        is_stable_sort(ranks@.map_values(|x: Rank| x@), as_ints(r@)),
{
    let ghost rs = ranks@.map_values(|x: Rank| x@);
    let mut out: Vec<usize> = Vec::new();
    let mut i: usize = 0;
    while i < ranks.len()
        invariant
            i <= ranks@.len(),
            rs == ranks@.map_values(|x: Rank| x@),
            out@.len() == i,
            forall|k: int| 0 <= k < out@.len() ==> #[trigger] out@[k] < i,
            forall|k: int, l: int| 0 <= k < l < out@.len() ==> out@[k] != out@[l],
            forall|k: int, l: int|
                0 <= k < l < out@.len() ==> !rank_lt(rs[out@[l] as int], rs[out@[k] as int]),
            forall|k: int, l: int|
                0 <= k < l < out@.len() && rs[out@[k] as int] == rs[out@[l] as int] ==> out@[k]
                    < out@[l],
        decreases ranks.len() - i,
    {
        let mut j: usize = out.len();
        while j > 0 && rank_less(&ranks[i], &ranks[out[j - 1]])
            invariant
                i < ranks@.len(),
                rs == ranks@.map_values(|x: Rank| x@),
                j <= out@.len(),
                forall|k: int| 0 <= k < out@.len() ==> #[trigger] out@[k] < i,
                forall|m: int| j <= m < out@.len() ==> rank_lt(rs[i as int], rs[out@[m] as int]),
            decreases j,
        {
            j -= 1;
        }
        proof {
            if j > 0 {
                assert(!rank_lt(rs[i as int], rs[out@[j - 1] as int]));
            }
        }
        let ghost before = out@;
        out.insert(j, i);
        proof {
            let ri = rs[i as int];
            assert forall|m: int| 0 <= m < out@.len() implies #[trigger] out@[m] == (if m < j {
                before[m]
            } else if m == j {
                i
            } else {
                before[m - 1]
            }) by {}
            assert forall|k: int, l: int| 0 <= k < l < out@.len() implies !rank_lt(
                rs[out@[l] as int],
                rs[out@[k] as int],
            ) by {
                if l == j {
                    if k < j - 1 {
                        assert(!rank_lt(rs[before[j - 1] as int], rs[before[k] as int]));
                        assert(!rank_lt(ri, rs[before[j - 1] as int]));
                        lemma_rank_le_transitive(ri, rs[before[j - 1] as int], rs[before[k] as int]);
                    }
                } else if k == j {
                    lemma_rank_lt_asymmetric(ri, rs[before[l - 1] as int]);
                }
            }
            assert forall|k: int, l: int|
                0 <= k < l < out@.len() && rs[out@[k] as int] == rs[out@[l] as int] implies out@[k]
                < out@[l] by {
                if k == j {
                    lemma_rank_lt_irreflexive(ri);
                }
            }
        }
        i += 1;
    }
    proof {
        let p = as_ints(out@);
        assert forall|k: int, l: int| 0 <= k < l < p.len() implies !rank_lt(
            rs[p[l]],
            rs[p[k]],
        ) by {}
    }
    out
}

proof fn lemma_positions_in_range(ranks: Seq<SpecRank>, perm: Seq<usize>, n: nat)
    requires
        is_stable_sort(ranks, as_ints(perm)),
        ranks.len() == n,
    ensures
        forall|k: int| 0 <= k < perm.len() ==> #[trigger] perm[k] < n,
{
    assert forall|k: int| 0 <= k < perm.len() implies #[trigger] perm[k] < n by {
        assert(as_ints(perm)[k] == perm[k] as int);
    }
}

/// The position of `key` in a manual order: its first place there, or last
/// of all when it is not listed.
pub open spec fn manual_position(order: Seq<Seq<char>>, key: Seq<char>) -> int
    decreases order.len(),
{
    if order.len() == 0 {
        usize::MAX as int
    } else if order[0] == key {
        0
    } else {
        let rest = manual_position(order.skip(1), key);
        if rest == usize::MAX {
            usize::MAX as int
        } else {
            rest + 1
        }
    }
}

proof fn lemma_manual_position_bound(order: Seq<Seq<char>>, key: Seq<char>)
    ensures
        manual_position(order, key) == usize::MAX || 0 <= manual_position(order, key) < order.len(),
    decreases order.len(),
{
    if order.len() > 0 {
        lemma_manual_position_bound(order.skip(1), key);
    }
}

fn position_of(order: &Vec<String>, key: &str) -> (r: usize)
    ensures
        r == manual_position(order.deep_view(), key@),
{
    let ghost o = order.deep_view();
    let mut i: usize = 0;
    assert(o.skip(0) =~= o);
    while i < order.len()
        invariant
            i <= o.len(),
            o == order.deep_view(),
            forall|j: int| 0 <= j < i ==> o[j] != key@,
            manual_position(o, key@) == (if manual_position(o.skip(i as int), key@) == usize::MAX {
                usize::MAX as int
            } else {
                manual_position(o.skip(i as int), key@) + i
            }),
        decreases order.len() - i,
    {
        let ghost rest = o.skip(i as int);
        assert(rest[0] == o[i as int]);
        if same_text(order[i].as_str(), key) {
            return i;
        }
        assert(rest.skip(1) =~= o.skip(i + 1));
        proof {
            lemma_manual_position_bound(o.skip(i + 1), key@);
        }
        i += 1;
    }
    usize::MAX
}

/// The rank of an item when sorting by title: its lowercased visible name,
/// then its key.
pub open spec fn title_rank(item: SpecItem) -> SpecRank {
    SpecRank { position: 0, name: lowercase(accessible_name_of(item.props)), key: item.key }
}

/// The rank of an item when sorting manually: its place in `order`.
pub open spec fn manual_rank(item: SpecItem, order: Seq<Seq<char>>) -> SpecRank {
    SpecRank { position: manual_position(order, item.key), name: seq![], key: seq![] }
}

/// `out` holds the keys of `items` in the stable order of `ranks`.
pub open spec fn sorted_keys(items: Seq<SpecItem>, ranks: Seq<SpecRank>, out: Seq<Seq<char>>) -> bool {
    exists|perm: Seq<int>|
        is_stable_sort(ranks, perm) && out == perm.map_values(|p: int| items[p].key)
}

/// `out` is the order in which `config` shows `items`.
pub open spec fn is_ordering(items: Seq<SpecItem>, config: SpecConfig, out: Seq<Seq<char>>) -> bool {
    match config.sort {
        SortMode::Registered => out == keys_of(items),
        SortMode::Title => sorted_keys(items, items.map_values(|it: SpecItem| title_rank(it)), out),
        SortMode::Manual => sorted_keys(
            items,
            items.map_values(|it: SpecItem| manual_rank(it, config.order)),
            out,
        ),
    }
}

fn keys_in_order(items: &[Item], perm: &Vec<usize>) -> (r: Vec<Key>)
    requires
        forall|k: int| 0 <= k < perm@.len() ==> #[trigger] perm@[k] < items@.len(),
    ensures
        r.deep_view() == as_ints(perm@).map_values(|p: int| items.deep_view()[p].key),
{
    let mut out: Vec<Key> = Vec::new();
    let mut k: usize = 0;
    while k < perm.len()
        invariant
            k <= perm@.len(),
            forall|m: int| 0 <= m < perm@.len() ==> #[trigger] perm@[m] < items@.len(),
            out.deep_view() == as_ints(perm@).take(k as int).map_values(
                |p: int| items.deep_view()[p].key,
            ),
        decreases perm.len() - k,
    {
        let ghost before = out.deep_view();
        let p = perm[k];
        let key = items[p].key.clone();
        assert(items.deep_view()[p as int] == items@[p as int]@);
        let ghost kv = key@;
        out.push(key);
        assert(out.deep_view() =~= before.push(kv));
        assert(as_ints(perm@).take(k + 1) =~= as_ints(perm@).take(k as int).push(p as int));
        assert(as_ints(perm@).take(k + 1).map_values(|p: int| items.deep_view()[p].key)
            =~= as_ints(perm@).take(k as int).map_values(|p: int| items.deep_view()[p].key).push(
            kv,
        ));
        k += 1;
    }
    assert(as_ints(perm@).take(perm@.len() as int) =~= as_ints(perm@));
    out
}

/// The order in which items are shown: whatever the user arranged when the
/// sort mode is manual, otherwise registration order or alphabetical order.
/// Items without an explicit place keep their registration order and come
/// last.
pub fn ordered_keys(items: &[Item], config: &Config) -> (r: Vec<Key>)
    ensures
        is_ordering(items.deep_view(), config@, r.deep_view()),
        r.deep_view() == display_order(items.deep_view(), config@),
{
    let r = keys_in_display_order(items, config);
    proof {
        lemma_ordering_unique(items.deep_view(), config@, r.deep_view());
    }
    r
}

fn keys_in_display_order(items: &[Item], config: &Config) -> (r: Vec<Key>)
    ensures
        is_ordering(items.deep_view(), config@, r.deep_view()),
{
    let ghost its = items.deep_view();
    match config.sort {
        SortMode::Registered => {
            let mut out: Vec<Key> = Vec::new();
            let mut k: usize = 0;
            while k < items.len()
                invariant
                    k <= items@.len(),
                    its == items.deep_view(),
                    out.deep_view() == keys_of(its.take(k as int)),
                decreases items.len() - k,
            {
                let ghost before = out.deep_view();
                let key = items[k].key.clone();
                let ghost kv = key@;
                out.push(key);
                assert(its[k as int] == items@[k as int]@);
                assert(out.deep_view() =~= before.push(kv));
                assert(its.take(k + 1) =~= its.take(k as int).push(its[k as int]));
                assert(keys_of(its.take(k + 1)) =~= keys_of(its.take(k as int)).push(kv));
                k += 1;
            }
            assert(its.take(items@.len() as int) =~= its);
            out
        },
        SortMode::Title => {
            let mut named: Vec<(String, Key)> = Vec::new();
            let mut k: usize = 0;
            while k < items.len()
                invariant
                    k <= items@.len(),
                    its == items.deep_view(),
                    named.deep_view() == its.take(k as int).map_values(
                        |it: SpecItem| (lowercase(accessible_name_of(it.props)), it.key),
                    ),
                decreases items.len() - k,
            {
                let name = to_lowercase(items[k].props.accessible_name());
                let key = items[k].key.clone();
                assert(its[k as int] == items@[k as int]@);
                let ghost entry = (name@, key@);
                let ghost before = named.deep_view();
                named.push((name, key));
                assert(named.deep_view() =~= before.push(entry));
                assert(its.take(k + 1) =~= its.take(k as int).push(its[k as int]));
                assert(its.take(k + 1).map_values(
                    |it: SpecItem| (lowercase(accessible_name_of(it.props)), it.key),
                ) =~= its.take(k as int).map_values(
                    |it: SpecItem| (lowercase(accessible_name_of(it.props)), it.key),
                ).push(entry));
                k += 1;
            }
            assert(its.take(items@.len() as int) =~= its);
            let out = keys_by_name(named.as_slice());
            proof {
                let nv = named.deep_view();
                assert(name_ranks(nv) =~= its.map_values(|it: SpecItem| title_rank(it)));
                let perm = choose|perm: Seq<int>|
                    is_stable_sort(name_ranks(nv), perm) && out.deep_view() == perm.map_values(
                        |p: int| nv[p].1,
                    );
                assert(perm.map_values(|p: int| nv[p].1) =~= perm.map_values(
                    |p: int| its[p].key,
                ));
            }
            out
        },
        SortMode::Manual => manual_order(items, &config.order),
    }
}

/// The ranks of keys sorted by name: by the name, then by the key.
pub open spec fn name_ranks(named: Seq<(Seq<char>, Seq<char>)>) -> Seq<SpecRank> {
    named.map_values(|e: (Seq<char>, Seq<char>)| SpecRank { position: 0, name: e.0, key: e.1 })
}

/// The keys of `named` (pairs of a name and a key) sorted by name, then by
/// key; pairs that tie keep their order. This is how items are ordered by
/// title, once each title has been lowercased.
pub fn keys_by_name(named: &[(String, Key)]) -> (r: Vec<Key>)
    ensures
        exists|perm: Seq<int>|
            is_stable_sort(name_ranks(named.deep_view()), perm) && r.deep_view() == perm.map_values(
                |p: int| named.deep_view()[p].1,
            ),
{
    let ghost nv = named.deep_view();
    let mut ranks: Vec<Rank> = Vec::new();
    let mut k: usize = 0;
    while k < named.len()
        invariant
            k <= named@.len(),
            nv == named.deep_view(),
            ranks@.map_values(|x: Rank| x@) == name_ranks(nv.take(k as int)),
        decreases named.len() - k,
    {
        let rank = Rank { position: 0, name: named[k].0.clone(), key: named[k].1.to_string() };
        assert(nv[k as int] == (named@[k as int].0@, named@[k as int].1@));
        let ghost before = ranks@;
        ranks.push(rank);
        assert(ranks@ =~= before.push(rank));
        assert(ranks@.map_values(|x: Rank| x@) =~= before.map_values(|x: Rank| x@).push(rank@));
        assert(nv.take(k + 1) =~= nv.take(k as int).push(nv[k as int]));
        assert(name_ranks(nv.take(k + 1)) =~= name_ranks(nv.take(k as int)).push(rank@));
        k += 1;
    }
    assert(nv.take(named@.len() as int) =~= nv);
    let perm = stable_order(&ranks);
    proof {
        lemma_positions_in_range(ranks@.map_values(|x: Rank| x@), perm@, named@.len());
    }
    let mut out: Vec<Key> = Vec::new();
    let mut j: usize = 0;
    while j < perm.len()
        invariant
            j <= perm@.len(),
            nv == named.deep_view(),
            forall|m: int| 0 <= m < perm@.len() ==> #[trigger] perm@[m] < named@.len(),
            out.deep_view() == as_ints(perm@).take(j as int).map_values(|p: int| nv[p].1),
        decreases perm.len() - j,
    {
        let p = perm[j];
        let key = named[p].1.clone();
        assert(nv[p as int].1 == named@[p as int].1@);
        let ghost kv = key@;
        let ghost before = out.deep_view();
        out.push(key);
        assert(out.deep_view() =~= before.push(kv));
        assert(as_ints(perm@).take(j + 1) =~= as_ints(perm@).take(j as int).push(p as int));
        assert(as_ints(perm@).take(j + 1).map_values(|p: int| nv[p].1) =~= as_ints(perm@).take(
            j as int,
        ).map_values(|p: int| nv[p].1).push(kv));
        j += 1;
    }
    assert(as_ints(perm@).take(perm@.len() as int) =~= as_ints(perm@));
    out
}

fn manual_order(items: &[Item], order: &Vec<String>) -> (r: Vec<Key>)
    ensures
        sorted_keys(
            items.deep_view(),
            items.deep_view().map_values(|it: SpecItem| manual_rank(it, order.deep_view())),
            r.deep_view(),
        ),
{
    let ghost its = items.deep_view();
    let ghost o = order.deep_view();
    let mut ranks: Vec<Rank> = Vec::new();
    let mut k: usize = 0;
    while k < items.len()
        invariant
            k <= items@.len(),
            its == items.deep_view(),
            o == order.deep_view(),
            ranks@.map_values(|x: Rank| x@) == its.take(k as int).map_values(
                |it: SpecItem| manual_rank(it, o),
            ),
        decreases items.len() - k,
    {
        let position = position_of(order, items[k].key.as_str());
        let rank = Rank { position, name: String::new(), key: String::new() };
        assert(its[k as int] == items@[k as int]@);
        assert(rank@ == manual_rank(its[k as int], o));
        let ghost before = ranks@;
        ranks.push(rank);
        assert(ranks@ =~= before.push(rank));
        assert(ranks@.map_values(|x: Rank| x@) =~= before.map_values(|x: Rank| x@).push(rank@));
        assert(its.take(k + 1) =~= its.take(k as int).push(its[k as int]));
        assert(its.take(k + 1).map_values(|it: SpecItem| manual_rank(it, o)) =~= its.take(
            k as int,
        ).map_values(|it: SpecItem| manual_rank(it, o)).push(manual_rank(its[k as int], o)));
        k += 1;
    }
    assert(its.take(items@.len() as int) =~= its);
    let perm = stable_order(&ranks);
    proof {
        lemma_positions_in_range(ranks@.map_values(|x: Rank| x@), perm@, items@.len());
    }
    keys_in_order(items, &perm)
}

/// Whether an item is shown: it does not ask to be hidden and the user did
/// not hide it.
pub open spec fn item_visible(item: SpecItem, config: SpecConfig) -> bool {
    item.props.status != Status::Passive && !config.hidden.contains(item.key)
}

/// Whether an item is shown at all: it must not be hidden by the user and it
/// must not be asking to be hidden (`Status == "Passive"`).
pub fn is_visible(item: &Item, config: &Config) -> (r: bool)
    ensures
        r == item_visible(item@, config@),
{
    item.props.is_visible() && !config.is_hidden(item.key.as_str())
}

/// `i` is the first place where `key` occurs in `keys`.
pub open spec fn first_at(keys: Seq<Seq<char>>, key: Seq<char>, i: int) -> bool {
    &&& 0 <= i < keys.len()
    &&& keys[i] == key
    &&& forall|j: int| 0 <= j < i ==> keys[j] != key
}

/// The order after moving `key` by `delta` places, when the key is there
/// and the move stays inside the order.
pub open spec fn moved(keys: Seq<Seq<char>>, key: Seq<char>, delta: i32) -> Option<Seq<Seq<char>>> {
    if exists|i: int| first_at(keys, key, i) {
        let from = choose|i: int| first_at(keys, key, i);
        let to = from + delta;
        if to < 0 || to >= keys.len() {
            None
        } else {
            Some(keys.remove(from).insert(to, key))
        }
    } else {
        None
    }
}

/// The order that results from moving `key` by `delta` places in the order the
/// user currently sees (`current`, e.g. from [`ordered_keys`]). Returns the
/// new manual order, or `None` when the move is a no-op (unknown key or moving
/// past either end).
pub fn moved_order(current: &[Key], key: &str, delta: i32) -> (r: Option<Vec<String>>)
    ensures
        match r {
            Some(order) => moved(current.deep_view(), key@, delta) == Some(order.deep_view()),
            None => moved(current.deep_view(), key@, delta) is None,
        },
{
    let ghost keys = current.deep_view();
    let mut from: usize = 0;
    while from < current.len() && !same_text(current[from].as_str(), key)
        invariant
            from <= current@.len(),
            keys == current.deep_view(),
            forall|j: int| 0 <= j < from ==> keys[j] != key@,
        decreases current.len() - from,
    {
        assert(keys[from as int] == current@[from as int]@);
        from += 1;
    }
    if from == current.len() {
        proof {
            if exists|i: int| first_at(keys, key@, i) {
                let i = choose|i: int| first_at(keys, key@, i);
                assert(keys[i] == key@);
            }
        }
        return None;
    }
    proof {
        assert(keys[from as int] == current@[from as int]@);
        assert(first_at(keys, key@, from as int));
        let i = choose|i: int| first_at(keys, key@, i);
        if i < from {
            assert(keys[i] == key@);
        } else if i > from {
            assert(keys[from as int] == key@);
        }
    }
    let to: i128 = from as i128 + delta as i128;
    if to < 0 || to >= current.len() as i128 {
        return None;
    }
    let mut order: Vec<String> = Vec::new();
    let mut k: usize = 0;
    while k < current.len()
        invariant
            k <= current@.len(),
            keys == current.deep_view(),
            order.deep_view() == keys.take(k as int),
        decreases current.len() - k,
    {
        let ghost before = order.deep_view();
        let s = current[k].to_string();
        assert(keys[k as int] == current@[k as int]@);
        order.push(s);
        assert(order.deep_view() =~= before.push(keys[k as int]));
        assert(keys.take(k + 1) =~= keys.take(k as int).push(keys[k as int]));
        k += 1;
    }
    assert(keys.take(current@.len() as int) =~= keys);
    let ghost full = order.deep_view();
    let moving = order.remove(from);
    assert(order.deep_view() =~= full.remove(from as int));
    let ghost removed = order.deep_view();
    order.insert(to as usize, moving);
    assert(order.deep_view() =~= removed.insert(to as int, key@));
    Some(order)
}

/// Moving a key back by the same number of places restores the order, when
/// every key occurs once.
pub proof fn lemma_move_back_restores(keys: Seq<Seq<char>>, key: Seq<char>, delta: i32)
    requires
        forall|i: int, j: int| 0 <= i < j < keys.len() ==> keys[i] != keys[j],
        delta != i32::MIN,
        moved(keys, key, delta) is Some,
    ensures
        moved(moved(keys, key, delta)->0, key, -delta as i32) == Some(keys),
{
    let from = choose|i: int| first_at(keys, key, i);
    let to = from + delta;
    let o = keys.remove(from).insert(to, key);
    assert(o[to] == key);
    assert forall|j: int| 0 <= j < o.len() && j != to implies o[j] != key by {
        if j < from && j < to {
            assert(o[j] == keys[j]);
        } else if j > from && j > to {
            assert(o[j] == keys[j]);
        } else if from < to {
            assert(o[j] == keys[j + 1]);
        } else {
            assert(o[j] == keys[j - 1]);
        }
    }
    assert(first_at(o, key, to));
    let back = choose|i: int| first_at(o, key, i);
    assert(back == to);
    assert(o.remove(to) =~= keys.remove(from));
    assert(keys.remove(from).insert(from, key) =~= keys);
}

/// What an ordering lists is the keys of the items: as many as there are
/// items, each an item's key, and every item's key among them.
pub proof fn lemma_ordering_lists_every_item(items: Seq<SpecItem>, config: SpecConfig, out: Seq<Seq<char>>)
    requires
        is_ordering(items, config, out),
    ensures
        out.len() == items.len(),
        forall|k: int| 0 <= k < out.len() ==> keys_of(items).contains(#[trigger] out[k]),
        forall|i: int| 0 <= i < items.len() ==> out.contains(#[trigger] items[i].key),
{
    match config.sort {
        SortMode::Registered => {
            assert forall|k: int| 0 <= k < out.len() implies keys_of(items).contains(
                #[trigger] out[k],
            ) by {}
            assert forall|i: int| 0 <= i < items.len() implies out.contains(
                #[trigger] items[i].key,
            ) by {
                assert(out[i] == items[i].key);
            }
        },
        SortMode::Title => {
            lemma_sorted_keys_list_every_item(
                items,
                items.map_values(|it: SpecItem| title_rank(it)),
                out,
            );
        },
        SortMode::Manual => {
            lemma_sorted_keys_list_every_item(
                items,
                items.map_values(|it: SpecItem| manual_rank(it, config.order)),
                out,
            );
        },
    }
}

/// `perm` lists position `i`.
pub open spec fn lists(perm: Seq<int>, i: int) -> bool {
    exists|k: int| 0 <= k < perm.len() && perm[k] == i
}

/// A stable sort lists every position.
proof fn lemma_sort_hits_every_position(ranks: Seq<SpecRank>, perm: Seq<int>)
    requires
        is_stable_sort(ranks, perm),
    ensures
        forall|i: int| 0 <= i < ranks.len() ==> #[trigger] lists(perm, i),
{
    let hit = Set::new(|p: int| exists|k: int| 0 <= k < perm.len() && perm[k] == p);
    let all = vstd::set_lib::set_int_range(0, ranks.len() as int);
    let positions = vstd::set_lib::set_int_range(0, perm.len() as int);
    let f = |k: int| perm[k];
    vstd::set_lib::lemma_int_range(0, ranks.len() as int);
    vstd::set_lib::lemma_int_range(0, perm.len() as int);
    assert forall|a: int, b: int| positions.contains(a) && positions.contains(b) && #[trigger] f(a)
        == #[trigger] f(b) implies a == b by {
        if a < b {
            assert(perm[a] != perm[b]);
        } else if b < a {
            assert(perm[b] != perm[a]);
        }
    }
    assert forall|p: int| positions.map(f).contains(p) implies hit.contains(p) by {
        let k = choose|k: int| positions.contains(k) && f(k) == p;
        assert(0 <= k < perm.len() && perm[k] == p);
    }
    assert forall|p: int| hit.contains(p) implies positions.map(f).contains(p) by {
        let k = choose|k: int| 0 <= k < perm.len() && perm[k] == p;
        assert(positions.contains(k) && f(k) == p);
    }
    assert(positions.map(f) =~= hit);
    vstd::set_lib::lemma_map_size(positions, hit, f);
    assert(hit.subset_of(all));
    vstd::set_lib::lemma_subset_equality(hit, all);
    assert forall|i: int| 0 <= i < ranks.len() implies #[trigger] lists(perm, i) by {
        assert(all.contains(i));
        assert(hit.contains(i));
    }
}

/// A stable sort is unique: two of the same ranks list the same positions.
pub proof fn lemma_stable_sort_unique(ranks: Seq<SpecRank>, p: Seq<int>, q: Seq<int>)
    requires
        is_stable_sort(ranks, p),
        is_stable_sort(ranks, q),
    ensures
        p == q,
{
    lemma_sort_hits_every_position(ranks, p);
    lemma_sort_hits_every_position(ranks, q);
    if exists|k: int| 0 <= k < p.len() && p[k] != q[k] {
        let k0 = choose|k: int| 0 <= k < p.len() && p[k] != q[k];
        lemma_first_difference(p, q, k0);
        let k = choose|k: int|
            0 <= k < p.len() && p[k] != q[k] && forall|j: int| 0 <= j < k ==> p[j] == q[j];
        let a = p[k];
        let b = q[k];
        assert(lists(p, b));
        assert(lists(q, a));
        let l = choose|l: int| 0 <= l < p.len() && p[l] == b;
        let m = choose|m: int| 0 <= m < q.len() && q[m] == a;
        if l < k {
            assert(q[l] == p[l]);
        }
        if m < k {
            assert(p[m] == q[m]);
        }
        assert(k < l && k < m);
        assert(!rank_lt(ranks[b], ranks[a]));
        assert(!rank_lt(ranks[a], ranks[b]));
        if ranks[a] != ranks[b] {
            lemma_rank_lt_total(ranks[a], ranks[b]);
        }
        assert(a < b);
        assert(b < a);
    }
    assert(p =~= q);
}

proof fn lemma_first_difference(p: Seq<int>, q: Seq<int>, k0: int)
    requires
        p.len() == q.len(),
        0 <= k0 < p.len(),
        p[k0] != q[k0],
    ensures
        exists|k: int| 0 <= k < p.len() && p[k] != q[k] && forall|j: int| 0 <= j < k ==> p[j] == q[j],
    decreases k0,
{
    if exists|j: int| 0 <= j < k0 && p[j] != q[j] {
        let j = choose|j: int| 0 <= j < k0 && p[j] != q[j];
        lemma_first_difference(p, q, j);
    } else {
        assert(p[k0] != q[k0] && forall|j: int| 0 <= j < k0 ==> p[j] == q[j]);
    }
}

/// Sorted by title, items come in the order of their lowercased visible
/// names: the ordering lists every item once, by a permutation under which
/// no later item has a name before an earlier one.
pub proof fn lemma_title_order_by_name(items: Seq<SpecItem>, config: SpecConfig, out: Seq<Seq<char>>)
    requires
        config.sort == SortMode::Title,
        is_ordering(items, config, out),
    ensures
        exists|perm: Seq<int>|
            {
                &&& perm.len() == items.len()
                &&& forall|k: int| 0 <= k < perm.len() ==> 0 <= #[trigger] perm[k] < items.len()
                &&& forall|k: int, l: int| 0 <= k < l < perm.len() ==> perm[k] != perm[l]
                &&& out == perm.map_values(|p: int| items[p].key)
                &&& forall|k: int, l: int|
                    0 <= k < l < perm.len() ==> !text_lt(
                        lowercase(accessible_name_of(items[perm[l]].props)),
                        lowercase(accessible_name_of(items[perm[k]].props)),
                    )
            },
{
    let ranks = items.map_values(|it: SpecItem| title_rank(it));
    let perm = choose|perm: Seq<int>|
        is_stable_sort(ranks, perm) && out == perm.map_values(|p: int| items[p].key);
    assert forall|k: int, l: int| 0 <= k < l < perm.len() implies !text_lt(
        lowercase(accessible_name_of(items[perm[l]].props)),
        lowercase(accessible_name_of(items[perm[k]].props)),
    ) by {
        assert(!rank_lt(ranks[perm[l]], ranks[perm[k]]));
        assert(ranks[perm[l]] == title_rank(items[perm[l]]));
        assert(ranks[perm[k]] == title_rank(items[perm[k]]));
    }
}

/// The order in which `config` shows `items`.
pub open spec fn display_order(items: Seq<SpecItem>, config: SpecConfig) -> Seq<Seq<char>> {
    choose|out: Seq<Seq<char>>| is_ordering(items, config, out)
}

/// There is one ordering only, so whatever meets [`is_ordering`] is the
/// display order.
pub proof fn lemma_ordering_unique(items: Seq<SpecItem>, config: SpecConfig, out: Seq<Seq<char>>)
    requires
        is_ordering(items, config, out),
    ensures
        display_order(items, config) == out,
{
    let other = display_order(items, config);
    assert(is_ordering(items, config, other));
    match config.sort {
        SortMode::Registered => {},
        SortMode::Title => {
            let ranks = items.map_values(|it: SpecItem| title_rank(it));
            let p = choose|perm: Seq<int>|
                is_stable_sort(ranks, perm) && out == perm.map_values(|k: int| items[k].key);
            let q = choose|perm: Seq<int>|
                is_stable_sort(ranks, perm) && other == perm.map_values(|k: int| items[k].key);
            lemma_stable_sort_unique(ranks, p, q);
        },
        SortMode::Manual => {
            let ranks = items.map_values(|it: SpecItem| manual_rank(it, config.order));
            let p = choose|perm: Seq<int>|
                is_stable_sort(ranks, perm) && out == perm.map_values(|k: int| items[k].key);
            let q = choose|perm: Seq<int>|
                is_stable_sort(ranks, perm) && other == perm.map_values(|k: int| items[k].key);
            lemma_stable_sort_unique(ranks, p, q);
        },
    }
}

proof fn lemma_sorted_keys_list_every_item(items: Seq<SpecItem>, ranks: Seq<SpecRank>, out: Seq<Seq<char>>)
    requires
        ranks.len() == items.len(),
        sorted_keys(items, ranks, out),
    ensures
        out.len() == items.len(),
        forall|k: int| 0 <= k < out.len() ==> keys_of(items).contains(#[trigger] out[k]),
        forall|i: int| 0 <= i < items.len() ==> out.contains(#[trigger] items[i].key),
{
    let perm = choose|perm: Seq<int>|
        is_stable_sort(ranks, perm) && out == perm.map_values(|p: int| items[p].key);
    assert forall|k: int| 0 <= k < out.len() implies keys_of(items).contains(#[trigger] out[k]) by {
        assert(0 <= perm[k] < items.len());
        assert(keys_of(items)[perm[k]] == out[k]);
    }
    lemma_sort_hits_every_position(ranks, perm);
    assert forall|i: int| 0 <= i < items.len() implies out.contains(#[trigger] items[i].key) by {
        assert(lists(perm, i));
        let k = choose|k: int| 0 <= k < perm.len() && perm[k] == i;
        assert(out[k] == items[i].key);
    }
}

} // verus!
