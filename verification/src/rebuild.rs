//! Why a menu sent flat comes back as the same tree: [`inflate_menu`]
//! undoes [`flatten_menu`] for every menu whose ids are distinct and whose
//! root is the bare invisible root node.
//!
//! [`inflate_menu`]: crate::view::inflate_menu
//! [`flatten_menu`]: crate::view::flatten_menu

use vstd::prelude::*;

use crate::menu::{
    found_among, found_in, leaf, lemma_kind_round_trip, lemma_toggle_state_round_trip,
    lemma_toggle_type_round_trip, preorder_ids, preorder_ids_among, SpecMenuNode, SpecMenuTree,
    ROOT_ID,
};
use crate::view::{
    attached, attached_among, entry_node, flat_all, flat_node, flattened, inflated, node_entry,
    with_entry,
};

verus! {

/// `n` with `xs` appended to the children of its first node in pre-order
/// with id `id`.
pub open spec fn extended(n: SpecMenuNode, id: i32, xs: Seq<SpecMenuNode>) -> SpecMenuNode
    decreases n,
{
    if n.id == id {
        SpecMenuNode { children: n.children + xs, ..n }
    } else {
        SpecMenuNode { children: extended_among(n.children, id, xs), ..n }
    }
}

/// The trees `s` with `xs` appended under the first node in pre-order with
/// id `id`.
pub open spec fn extended_among(s: Seq<SpecMenuNode>, id: i32, xs: Seq<SpecMenuNode>) -> Seq<
    SpecMenuNode,
>
    decreases s,
{
    if s.len() == 0 {
        s
    } else if found_in(s[0], id) is Some {
        seq![extended(s[0], id, xs)] + s.subrange(1, s.len() as int)
    } else {
        seq![s[0]] + extended_among(s.subrange(1, s.len() as int), id, xs)
    }
}

/// No id occurs twice in the tree `n`.
pub open spec fn distinct_ids(n: SpecMenuNode) -> bool
    decreases n,
{
    found_among(n.children, n.id) is None && distinct_ids_among(n.children)
}

/// No id occurs twice among the trees `s`.
pub open spec fn distinct_ids_among(s: Seq<SpecMenuNode>) -> bool
    decreases s,
{
    if s.len() == 0 {
        true
    } else {
        &&& distinct_ids_among(s.subrange(0, s.len() - 1))
        &&& distinct_ids(s[s.len() - 1])
        &&& forall|q: i32|
            #[trigger] found_in(s[s.len() - 1], q) is Some ==> found_among(
                s.subrange(0, s.len() - 1),
                q,
            ) is None
    }
}

/// `root` with the wire entries `es` added in order.
pub open spec fn entries_applied(root: SpecMenuNode, es: Seq<crate::view::SpecMenuNodeView>) -> SpecMenuNode
    decreases es.len(),
{
    if es.len() == 0 {
        root
    } else {
        with_entry(entries_applied(root, es.drop_last()), es.last())
    }
}

proof fn lemma_inflated_is_applied(es: Seq<crate::view::SpecMenuNodeView>)
    ensures
        inflated(es) == entries_applied(leaf(ROOT_ID), es),
    decreases es.len(),
{
    if es.len() > 0 {
        lemma_inflated_is_applied(es.drop_last());
    }
}

proof fn lemma_applied_concat(
    root: SpecMenuNode,
    a: Seq<crate::view::SpecMenuNodeView>,
    b: Seq<crate::view::SpecMenuNodeView>,
)
    ensures
        entries_applied(root, a + b) == entries_applied(entries_applied(root, a), b),
    decreases b.len(),
{
    if b.len() == 0 {
        assert(a + b =~= a);
    } else {
        assert((a + b).drop_last() =~= a + b.drop_last());
        assert((a + b).last() == b.last());
        lemma_applied_concat(root, a, b.drop_last());
    }
}

proof fn lemma_found_among_concat(a: Seq<SpecMenuNode>, b: Seq<SpecMenuNode>, q: i32)
    ensures
        found_among(a + b, q) == (if found_among(a, q) is Some {
            found_among(a, q)
        } else {
            found_among(b, q)
        }),
    decreases a.len(),
{
    if a.len() == 0 {
        assert(a + b =~= b);
    } else {
        let t = a.subrange(1, a.len() as int);
        assert((a + b)[0] == a[0]);
        assert((a + b).subrange(1, (a + b).len() as int) =~= t + b);
        lemma_found_among_concat(t, b, q);
    }
}

proof fn lemma_found_among_single(x: SpecMenuNode, q: i32)
    ensures
        found_among(seq![x], q) == found_in(x, q),
{
    assert(seq![x][0] == x);
    assert(seq![x].subrange(1, 1) =~= Seq::<SpecMenuNode>::empty());
    assert(found_among(Seq::<SpecMenuNode>::empty(), q) is None);
}

proof fn lemma_found_among_push(s: Seq<SpecMenuNode>, x: SpecMenuNode, q: i32)
    ensures
        found_among(s.push(x), q) is Some <==> (found_among(s, q) is Some || found_in(x, q) is Some),
{
    assert(s.push(x) =~= s + seq![x]);
    lemma_found_among_concat(s, seq![x], q);
    lemma_found_among_single(x, q);
}

proof fn lemma_extended_nothing(n: SpecMenuNode, id: i32)
    ensures
        extended(n, id, seq![]) == n,
    decreases n,
{
    if n.id == id {
        assert(n.children + seq![] =~= n.children);
    } else {
        lemma_extended_among_nothing(n.children, id);
    }
}

proof fn lemma_extended_among_nothing(s: Seq<SpecMenuNode>, id: i32)
    ensures
        extended_among(s, id, seq![]) == s,
    decreases s,
{
    if s.len() > 0 {
        let t = s.subrange(1, s.len() as int);
        if found_in(s[0], id) is Some {
            lemma_extended_nothing(s[0], id);
        } else {
            lemma_extended_among_nothing(t, id);
        }
        assert(seq![s[0]] + t =~= s);
    }
}

/// Extending a tree adds exactly the nodes of `xs`.
proof fn lemma_extended_found(n: SpecMenuNode, id: i32, xs: Seq<SpecMenuNode>, q: i32)
    requires
        found_in(n, id) is Some,
    ensures
        found_in(extended(n, id, xs), q) is Some <==> (found_in(n, q) is Some || found_among(
            xs,
            q,
        ) is Some),
    decreases n,
{
    if n.id == id {
        lemma_found_among_concat(n.children, xs, q);
    } else {
        lemma_extended_among_found(n.children, id, xs, q);
    }
}

proof fn lemma_extended_among_found(s: Seq<SpecMenuNode>, id: i32, xs: Seq<SpecMenuNode>, q: i32)
    requires
        found_among(s, id) is Some,
    ensures
        found_among(extended_among(s, id, xs), q) is Some <==> (found_among(s, q) is Some
            || found_among(xs, q) is Some),
    decreases s,
{
    let t = s.subrange(1, s.len() as int);
    let e = extended_among(s, id, xs);
    if found_in(s[0], id) is Some {
        lemma_extended_found(s[0], id, xs, q);
        assert(e[0] == extended(s[0], id, xs));
        assert(e.subrange(1, e.len() as int) =~= t);
    } else {
        lemma_extended_among_found(t, id, xs, q);
        assert(e[0] == s[0]);
        assert(e.subrange(1, e.len() as int) =~= extended_among(t, id, xs));
    }
}

/// Attaching one more child where `xs` went is extending by `xs` and that
/// child.
proof fn lemma_attached_after_extended(n: SpecMenuNode, id: i32, xs: Seq<SpecMenuNode>, c: SpecMenuNode)
    requires
        found_in(n, id) is Some,
    ensures
        attached(extended(n, id, xs), id, c) == extended(n, id, xs.push(c)),
    decreases n,
{
    if n.id == id {
        assert((n.children + xs).push(c) =~= n.children + xs.push(c));
    } else {
        lemma_attached_among_after_extended(n.children, id, xs, c);
    }
}

proof fn lemma_attached_among_after_extended(
    s: Seq<SpecMenuNode>,
    id: i32,
    xs: Seq<SpecMenuNode>,
    c: SpecMenuNode,
)
    requires
        found_among(s, id) is Some,
    ensures
        attached_among(extended_among(s, id, xs), id, c) == extended_among(s, id, xs.push(c)),
    decreases s,
{
    let t = s.subrange(1, s.len() as int);
    let e = extended_among(s, id, xs);
    if found_in(s[0], id) is Some {
        lemma_extended_found(s[0], id, xs, id);
        lemma_attached_after_extended(s[0], id, xs, c);
        assert(e[0] == extended(s[0], id, xs));
        assert(e.subrange(1, e.len() as int) =~= t);
    } else {
        lemma_attached_among_after_extended(t, id, xs, c);
        assert(e[0] == s[0]);
        assert(e.subrange(1, e.len() as int) =~= extended_among(t, id, xs));
        assert(seq![s[0]] + attached_among(extended_among(t, id, xs), id, c) =~= seq![s[0]]
            + extended_among(t, id, xs.push(c)));
    }
}

/// Extending among trees of which the first ones lack `id` leaves those
/// alone.
proof fn lemma_extended_among_concat(
    a: Seq<SpecMenuNode>,
    b: Seq<SpecMenuNode>,
    id: i32,
    xs: Seq<SpecMenuNode>,
)
    requires
        found_among(a, id) is None,
    ensures
        extended_among(a + b, id, xs) == a + extended_among(b, id, xs),
    decreases a.len(),
{
    if a.len() == 0 {
        assert(a + b =~= b);
        assert(a + extended_among(b, id, xs) =~= extended_among(b, id, xs));
    } else {
        let t = a.subrange(1, a.len() as int);
        assert((a + b)[0] == a[0]);
        assert((a + b).subrange(1, (a + b).len() as int) =~= t + b);
        lemma_extended_among_concat(t, b, id, xs);
        assert(seq![a[0]] + (t + extended_among(b, id, xs)) =~= a + extended_among(b, id, xs));
    }
}

/// The children of a leaf that was just appended under `id` can be added to
/// it afterwards, when its id `m` occurs nowhere else.
proof fn lemma_extended_leaf(
    n: SpecMenuNode,
    id: i32,
    xs: Seq<SpecMenuNode>,
    x: SpecMenuNode,
)
    requires
        found_in(n, id) is Some,
        found_in(n, x.id) is None,
        found_among(xs, x.id) is None,
    ensures
        extended(extended(n, id, xs.push(SpecMenuNode { children: seq![], ..x })), x.id, x.children)
            == extended(n, id, xs.push(x)),
    decreases n,
{
    let bare = SpecMenuNode { children: seq![], ..x };
    if n.id == id {
        let a = n.children + xs;
        lemma_found_among_concat(n.children, xs, x.id);
        assert(n.children + xs.push(bare) =~= a + seq![bare]);
        lemma_extended_among_concat(a, seq![bare], x.id, x.children);
        let one = seq![bare];
        assert(one[0] == bare);
        assert(one.subrange(1, 1) =~= Seq::<SpecMenuNode>::empty());
        assert(extended_among(one, x.id, x.children) =~= seq![extended(bare, x.id, x.children)]);
        assert(bare.children + x.children =~= x.children);
        assert(extended(bare, x.id, x.children) == x);
        assert(a + seq![x] =~= n.children + xs.push(x));
    } else {
        lemma_extended_among_leaf(n.children, id, xs, x);
    }
}

proof fn lemma_extended_among_leaf(
    s: Seq<SpecMenuNode>,
    id: i32,
    xs: Seq<SpecMenuNode>,
    x: SpecMenuNode,
)
    requires
        found_among(s, id) is Some,
        found_among(s, x.id) is None,
        found_among(xs, x.id) is None,
    ensures
        extended_among(
            extended_among(s, id, xs.push(SpecMenuNode { children: seq![], ..x })),
            x.id,
            x.children,
        ) == extended_among(s, id, xs.push(x)),
    decreases s,
{
    let bare = SpecMenuNode { children: seq![], ..x };
    let ys = xs.push(bare);
    let t = s.subrange(1, s.len() as int);
    let e = extended_among(s, id, ys);
    if found_in(s[0], id) is Some {
        lemma_found_among_push(xs, bare, x.id);
        lemma_extended_found(s[0], id, ys, x.id);
        lemma_extended_leaf(s[0], id, xs, x);
        assert(e[0] == extended(s[0], id, ys));
        assert(e.subrange(1, e.len() as int) =~= t);
    } else {
        lemma_extended_among_leaf(t, id, xs, x);
        assert(e[0] == s[0]);
        assert(e.subrange(1, e.len() as int) =~= extended_among(t, id, ys));
        assert(seq![s[0]] + extended_among(extended_among(t, id, ys), x.id, x.children) =~= seq![
            s[0],
        ] + extended_among(t, id, xs.push(x)));
    }
}

/// The wire entry of a node, read back, is the node without its children.
proof fn lemma_entry_read_back(n: SpecMenuNode, parent: i32)
    ensures
        entry_node(node_entry(n, parent)) == (SpecMenuNode { children: seq![], ..n }),
{
    lemma_kind_round_trip(n.kind);
    lemma_toggle_state_round_trip(n.toggle_state);
    lemma_toggle_type_round_trip(n.toggle_type);
}

/// Adding the flat entries of the trees `s`, all under `parent`, to a tree
/// that holds `parent` and none of their ids appends `s` under `parent`.
proof fn lemma_applied_flat(r: SpecMenuNode, parent: i32, s: Seq<SpecMenuNode>)
    requires
        found_in(r, parent) is Some,
        distinct_ids_among(s),
        forall|q: i32| #[trigger] found_among(s, q) is Some ==> found_in(r, q) is None,
    ensures
        entries_applied(r, flat_all(s, parent)) == extended(r, parent, s),
    decreases s,
{
    if s.len() == 0 {
        lemma_extended_nothing(r, parent);
        assert(extended(r, parent, s) == extended(r, parent, seq![])) by {
            assert(s =~= seq![]);
        }
    } else {
        let init = s.subrange(0, s.len() - 1);
        let n = s[s.len() - 1];
        let bare = SpecMenuNode { children: seq![], ..n };
        assert(s =~= init.push(n));
        assert forall|q: i32| #[trigger] found_among(init, q) is Some implies found_in(r, q) is None by {
            lemma_found_among_push(init, n, q);
        }
        lemma_applied_flat(r, parent, init);
        let r1 = extended(r, parent, init);
        let e = node_entry(n, parent);
        let rest = flat_all(n.children, n.id);
        assert(flat_node(n, parent) == seq![e] + rest);
        assert(flat_all(s, parent) == flat_all(init, parent) + flat_node(n, parent));
        lemma_applied_concat(r, flat_all(init, parent), seq![e] + rest);
        lemma_applied_concat(r1, seq![e], rest);
        assert(seq![e].drop_last() =~= Seq::<crate::view::SpecMenuNodeView>::empty());
        assert(entries_applied(r1, Seq::<crate::view::SpecMenuNodeView>::empty()) == r1);
        assert(seq![e].last() == e);
        assert(entries_applied(r1, seq![e]) == with_entry(r1, e));
        lemma_extended_found(r, parent, init, parent);
        lemma_entry_read_back(n, parent);
        lemma_attached_after_extended(r, parent, init, bare);
        let r2 = extended(r, parent, init.push(bare));
        assert(with_entry(r1, e) == r2);
        // the subtree of n goes under the leaf just added
        lemma_found_among_push(init, bare, n.id);
        lemma_extended_found(r, parent, init.push(bare), n.id);
        assert(found_in(n, n.id) is Some);
        lemma_found_among_push(init, n, n.id);
        assert(distinct_ids(n));
        assert(distinct_ids_among(n.children));
        assert forall|q: i32| #[trigger] found_among(n.children, q) is Some implies found_in(r2, q) is None by {
            assert(found_in(n, q) is Some);
            assert(found_among(init, q) is None);
            assert(q != n.id);
            assert(found_among(Seq::<SpecMenuNode>::empty(), q) is None);
            assert(found_in(bare, q) is None);
            lemma_found_among_push(init, n, q);
            lemma_found_among_push(init, bare, q);
            lemma_extended_found(r, parent, init.push(bare), q);
        }
        assert(decreases_to!(s => s[s.len() - 1]));
        assert(decreases_to!(n => n.children));
        lemma_applied_flat(r2, n.id, n.children);
        lemma_extended_leaf(r, parent, init, n);
    }
}

/// A node with id `q` is found exactly when `q` is among the pre-order ids.
proof fn lemma_found_iff_listed(n: SpecMenuNode, q: i32)
    ensures
        found_in(n, q) is Some <==> preorder_ids(n).contains(q),
    decreases n,
{
    lemma_found_among_iff_listed(n.children, q);
    let ids = preorder_ids(n);
    assert(ids == seq![n.id] + preorder_ids_among(n.children));
    assert(ids[0] == n.id);
    if preorder_ids_among(n.children).contains(q) {
        let j = choose|j: int| 0 <= j < preorder_ids_among(n.children).len()
            && preorder_ids_among(n.children)[j] == q;
        assert(ids[j + 1] == q);
    }
    if ids.contains(q) && n.id != q {
        let j = choose|j: int| 0 <= j < ids.len() && ids[j] == q;
        assert(preorder_ids_among(n.children)[j - 1] == q);
    }
}

proof fn lemma_found_among_iff_listed(s: Seq<SpecMenuNode>, q: i32)
    ensures
        found_among(s, q) is Some <==> preorder_ids_among(s).contains(q),
    decreases s,
{
    if s.len() > 0 {
        let init = s.subrange(0, s.len() - 1);
        let x = s[s.len() - 1];
        assert(s =~= init.push(x));
        lemma_found_among_push(init, x, q);
        lemma_found_among_iff_listed(init, q);
        lemma_found_iff_listed(x, q);
        let a = preorder_ids_among(init);
        let b = preorder_ids(x);
        assert(preorder_ids_among(s) == a + b);
        if a.contains(q) {
            let j = choose|j: int| 0 <= j < a.len() && a[j] == q;
            assert((a + b)[j] == q);
        }
        if b.contains(q) {
            let j = choose|j: int| 0 <= j < b.len() && b[j] == q;
            assert((a + b)[a.len() + j] == q);
        }
        if (a + b).contains(q) {
            let j = choose|j: int| 0 <= j < (a + b).len() && (a + b)[j] == q;
            if j < a.len() {
                assert(a[j] == q);
            } else {
                assert(b[j - a.len()] == q);
            }
        }
    }
}

proof fn lemma_no_duplicates_split(a: Seq<i32>, b: Seq<i32>)
    requires
        (a + b).no_duplicates(),
    ensures
        a.no_duplicates(),
        b.no_duplicates(),
        forall|q: i32| #[trigger] b.contains(q) ==> !a.contains(q),
{
    let c = a + b;
    assert forall|i: int, j: int| 0 <= i < a.len() && 0 <= j < a.len() && i != j implies a[i]
        != a[j] by {
        assert(c[i] == a[i] && c[j] == a[j]);
    }
    assert forall|i: int, j: int| 0 <= i < b.len() && 0 <= j < b.len() && i != j implies b[i]
        != b[j] by {
        assert(c[a.len() + i] == b[i] && c[a.len() + j] == b[j]);
    }
    assert forall|q: i32| #[trigger] b.contains(q) implies !a.contains(q) by {
        if a.contains(q) {
            let i = choose|i: int| 0 <= i < a.len() && a[i] == q;
            let j = choose|j: int| 0 <= j < b.len() && b[j] == q;
            assert(c[i] == q && c[a.len() + j] == q);
        }
    }
}

/// Distinct pre-order ids are distinct ids in the sense of the tree.
proof fn lemma_distinct_ids(n: SpecMenuNode)
    requires
        preorder_ids(n).no_duplicates(),
    ensures
        distinct_ids(n),
    decreases n,
{
    let rest = preorder_ids_among(n.children);
    assert(preorder_ids(n) == seq![n.id] + rest);
    lemma_no_duplicates_split(seq![n.id], rest);
    lemma_found_among_iff_listed(n.children, n.id);
    assert(seq![n.id].contains(n.id)) by {
        assert(seq![n.id][0] == n.id);
    }
    lemma_distinct_ids_among(n.children);
}

proof fn lemma_distinct_ids_among(s: Seq<SpecMenuNode>)
    requires
        preorder_ids_among(s).no_duplicates(),
    ensures
        distinct_ids_among(s),
    decreases s,
{
    if s.len() > 0 {
        let init = s.subrange(0, s.len() - 1);
        let x = s[s.len() - 1];
        let a = preorder_ids_among(init);
        let b = preorder_ids(x);
        assert(preorder_ids_among(s) == a + b);
        lemma_no_duplicates_split(a, b);
        lemma_distinct_ids_among(init);
        lemma_distinct_ids(x);
        assert forall|q: i32| #[trigger] found_in(x, q) is Some implies found_among(init, q) is None by {
            lemma_found_iff_listed(x, q);
            lemma_found_among_iff_listed(init, q);
        }
    }
}

/// Inflating a flattened menu gives the menu back, when its ids are
/// distinct and its root is the bare invisible root: nothing is lost or
/// reordered on the way through the wire form.
pub proof fn lemma_inflate_undoes_flatten(key: Seq<char>, tree: SpecMenuTree)
    requires
        tree.root == (SpecMenuNode { children: tree.root.children, ..leaf(ROOT_ID) }),
        preorder_ids(tree.root).no_duplicates(),
    ensures
        (SpecMenuTree { revision: flattened(key, tree).revision, root: inflated(flattened(key, tree).nodes) })
            == tree,
{
    let root = tree.root;
    let bare = leaf(ROOT_ID);
    lemma_distinct_ids(root);
    assert(distinct_ids_among(root.children));
    assert(found_in(bare, ROOT_ID) is Some);
    assert forall|q: i32| #[trigger] found_among(root.children, q) is Some implies found_in(bare, q) is None by {
        assert(found_among(Seq::<SpecMenuNode>::empty(), q) is None);
        assert(bare.children =~= Seq::<SpecMenuNode>::empty());
    }
    lemma_applied_flat(bare, ROOT_ID, root.children);
    lemma_inflated_is_applied(flat_all(root.children, root.id));
    assert(bare.children + root.children =~= root.children);
}

} // verus!
