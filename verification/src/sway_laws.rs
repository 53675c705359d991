//! What holds of every sway tree.

use vstd::multiset::Multiset;
use vstd::prelude::*;

use crate::geometry::{law_low_bits_are_congruent, law_low_bits_keep_what_fits, Region};
use crate::json::Tree;
use crate::lists::{
    first_match, law_first_match_is_first, lemma_filter_all, lemma_filter_map_add,
    lemma_filter_map_has, lemma_filter_nothing, lemma_first_match_add, lemma_flatten_all,
    lemma_flatten_none, lemma_flatten_take, lemma_partition_permutes,
};
use crate::sway::{lemma_first_match_reached, lemma_window_at_node};
use crate::sway_model::{
    active_rect, app_id, by_focus, children, children_ranked, content_rect, covers, floating_first,
    focus_ids, focus_order, focus_order_under, focus_test, focused_name, focused_node,
    focused_window, has_focus, hidden, identifier, is_window, lemma_by_focus_children,
    lemma_children_smaller, moved_to_scratchpad, nodes_of, nodes_under, own_identifier, place, rank,
    rank_test, reached, reached_under, rect, scratchpad, scratchpad_under, title, whole_number,
    window_test, window_under, WindowInfo,
};

verus! {

/// The identifiers of all windows of the tree, in the tree's own order.
pub open spec fn identifiers(node: Tree) -> Seq<Seq<char>> {
    nodes_of(node).filter_map(identified())
}

/// The reading of a node as a window's identifier.
pub open spec fn identified() -> spec_fn(Tree) -> Option<Seq<char>> {
    |n: Tree| identifier(n)
}

/// The identifiers under the first `n` children of a node.
spec fn identifiers_under(node: Tree, n: nat) -> Seq<Seq<char>> {
    nodes_under(node, n).filter_map(identified())
}

proof fn lemma_identifiers(node: Tree)
    ensures
        identifiers(node) == own_identifier(node) + identifiers_under(
            node,
            children(node).len(),
        ),
{
    lemma_filter_map_add(seq![node], nodes_under(node, children(node).len()), identified());
    Seq::lemma_filter_map_singleton(node, identified());
    assert(seq![node].filter_map(identified()) =~= own_identifier(node));
}

proof fn lemma_identifiers_under(node: Tree, n: nat)
    requires
        n < children(node).len(),
    ensures
        identifiers_under(node, n + 1) == identifiers_under(node, n) + identifiers(
            children(node)[n as int],
        ),
{
    lemma_filter_map_add(nodes_under(node, n), nodes_of(children(node)[n as int]), identified());
}

/// The nodes of a child are nodes of the parent.
proof fn lemma_child_nodes(node: Tree, k: int, n: Tree)
    requires
        0 <= k < children(node).len(),
        nodes_of(children(node)[k]).contains(n),
    ensures
        nodes_of(node).contains(n),
{
    lemma_child_nodes_under(node, k, children(node).len(), n);
    let under = nodes_under(node, children(node).len());
    let j = choose|j: int| 0 <= j < under.len() && under[j] == n;
    assert(nodes_of(node)[j + 1] == n);
}

proof fn lemma_child_nodes_under(node: Tree, k: int, m: nat, n: Tree)
    requires
        0 <= k < m <= children(node).len(),
        nodes_of(children(node)[k]).contains(n),
    ensures
        nodes_under(node, m).contains(n),
    decreases m,
{
    let front = nodes_under(node, (m - 1) as nat);
    let last = nodes_of(children(node)[m - 1]);
    if k == m - 1 {
        let j = choose|j: int| 0 <= j < last.len() && last[j] == n;
        assert((front + last)[front.len() + j] == n);
    } else {
        lemma_child_nodes_under(node, k, (m - 1) as nat, n);
        let j = choose|j: int| 0 <= j < front.len() && front[j] == n;
        assert((front + last)[j] == n);
    }
}

/// A node of the tree is its top or a node of a child.
proof fn lemma_node_places(node: Tree, n: Tree)
    requires
        nodes_of(node).contains(n),
    ensures
        n == node || exists|k: int|
            0 <= k < children(node).len() && nodes_of(#[trigger] children(node)[k]).contains(n),
{
    let under = nodes_under(node, children(node).len());
    let j = choose|j: int| 0 <= j < nodes_of(node).len() && nodes_of(node)[j] == n;
    if j > 0 {
        assert(under[j - 1] == n);
        lemma_node_places_under(node, children(node).len(), n);
    }
}

proof fn lemma_node_places_under(node: Tree, m: nat, n: Tree)
    requires
        m <= children(node).len(),
        nodes_under(node, m).contains(n),
    ensures
        exists|k: int| 0 <= k < m && nodes_of(#[trigger] children(node)[k]).contains(n),
    decreases m,
{
    let front = nodes_under(node, (m - 1) as nat);
    let last = nodes_of(children(node)[m - 1]);
    let j = choose|j: int| 0 <= j < nodes_under(node, m).len() && nodes_under(node, m)[j] == n;
    if j < front.len() {
        assert(front[j] == n);
        lemma_node_places_under(node, (m - 1) as nat, n);
    } else {
        assert(last[j - front.len()] == n);
    }
}

/// A node is among its own nodes.
proof fn lemma_self_node(node: Tree)
    ensures
        nodes_of(node).contains(node),
{
    assert(nodes_of(node)[0] == node);
}

/// The nodes of a node of the tree are nodes of the tree.
proof fn lemma_nodes_transitive(node: Tree, m: Tree, n: Tree)
    requires
        nodes_of(node).contains(m),
        nodes_of(m).contains(n),
    ensures
        nodes_of(node).contains(n),
    decreases node,
{
    if m != node {
        lemma_node_places(node, m);
        let k = choose|k: int|
            0 <= k < children(node).len() && nodes_of(#[trigger] children(node)[k]).contains(m);
        lemma_children_smaller(node);
        lemma_nodes_transitive(children(node)[k], m, n);
        lemma_child_nodes(node, k, n);
    }
}

/// A rank is the place of a named id, or the number of ids.
proof fn lemma_rank_bounds(ids: Seq<i64>, child: Tree)
    ensures
        0 <= rank(ids, child) <= ids.len(),
{
    if let Some(id) = child.signed_field("id"@) {
        lemma_place_bounds(ids, id);
    }
}

proof fn lemma_place_bounds(ids: Seq<i64>, id: i64)
    ensures
        0 <= place(ids, id) <= ids.len(),
    decreases ids.len(),
{
    if ids.len() > 0 && ids[0] != id {
        lemma_place_bounds(ids.drop_first(), id);
    }
}

/// Ranking the children of a node neither drops nor adds nor repeats one.
pub proof fn law_by_focus_permutes(node: Tree)
    ensures
        by_focus(node).to_multiset() == children(node).to_multiset(),
{
    let ids = focus_ids(node);
    let parts = Seq::new(ids.len() + 1, |r: int| children_ranked(node, r));
    assert forall|i: int| 0 <= i < children(node).len() implies 0 <= rank(
        ids,
        #[trigger] children(node)[i],
    ) < parts.len() by {
        lemma_rank_bounds(ids, children(node)[i]);
    }
    lemma_partition_permutes(
        children(node),
        parts,
        |c: Tree| rank(ids, c),
        |r: int| rank_test(ids, r),
    );
}

/// Children that are named earlier in the `focus` array come earlier.
pub proof fn law_by_focus_sorted(node: Tree, i: int, j: int)
    requires
        0 <= i < j < by_focus(node).len(),
    ensures
        rank(focus_ids(node), by_focus(node)[i]) <= rank(focus_ids(node), by_focus(node)[j]),
{
    let ids = focus_ids(node);
    let parts = Seq::new(ids.len() + 1, |r: int| children_ranked(node, r));
    lemma_flatten_all(parts);
    lemma_ranks_sorted(node, parts, parts.len() as int, i, j);
}

proof fn lemma_ranks_sorted(node: Tree, parts: Seq<Seq<Tree>>, m: int, i: int, j: int)
    requires
        0 <= m <= parts.len(),
        forall|p: int|
            0 <= p < parts.len() ==> #[trigger] parts[p] == children_ranked(node, p),
        0 <= i <= j < parts.take(m).flatten().len(),
    ensures
        rank(focus_ids(node), parts.take(m).flatten()[i]) <= rank(
            focus_ids(node),
            parts.take(m).flatten()[j],
        ) < m,
    decreases m,
{
    let ids = focus_ids(node);
    if m == 0 {
        lemma_flatten_none(parts);
    } else {
        lemma_flatten_take(parts, m - 1);
        let front = parts.take(m - 1).flatten();
        let last = parts[m - 1];
        if j >= front.len() {
            let r = m - 1;
            children(node).lemma_filter_pred(rank_test(ids, r), j - front.len());
            if i < front.len() {
                lemma_ranks_sorted(node, parts, m - 1, i, i);
            } else {
                children(node).lemma_filter_pred(rank_test(ids, r), i - front.len());
            }
        } else {
            lemma_ranks_sorted(node, parts, m - 1, i, j);
        }
    }
}

/// Children of one rank, among them those that the `focus` array does not name, stay in the
/// tree's own order.
pub proof fn law_by_focus_stable(node: Tree, r: int)
    requires
        0 <= r <= focus_ids(node).len(),
    ensures
        by_focus(node).filter(rank_test(focus_ids(node), r)) == children(node).filter(
            rank_test(focus_ids(node), r),
        ),
{
    let ids = focus_ids(node);
    let parts = Seq::new(ids.len() + 1, |p: int| children_ranked(node, p));
    lemma_flatten_all(parts);
    lemma_rank_kept(node, parts, parts.len() as int, r);
}

proof fn lemma_rank_kept(node: Tree, parts: Seq<Seq<Tree>>, m: int, r: int)
    requires
        0 <= m <= parts.len(),
        0 <= r < parts.len(),
        forall|p: int|
            0 <= p < parts.len() ==> #[trigger] parts[p] == children_ranked(node, p),
    ensures
        parts.take(m).flatten().filter(rank_test(focus_ids(node), r)) == (if r < m {
            children_ranked(node, r)
        } else {
            Seq::empty()
        }),
    decreases m,
{
    let ids = focus_ids(node);
    let test = rank_test(ids, r);
    if m == 0 {
        lemma_flatten_none(parts);
        lemma_filter_nothing(parts.take(0).flatten(), test);
    } else {
        lemma_rank_kept(node, parts, m - 1, r);
        lemma_flatten_take(parts, m - 1);
        let front = parts.take(m - 1).flatten();
        Seq::filter_distributes_over_add(front, parts[m - 1], test);
        lemma_rank_filter(node, m - 1, r);
        if r == m - 1 {
            assert(front.filter(test) + children_ranked(node, r) =~= children_ranked(node, r));
        } else {
            assert(front.filter(test) + Seq::<Tree>::empty() =~= front.filter(test));
        }
    }
}

/// Of the children of one rank, all or none have another.
proof fn lemma_rank_filter(node: Tree, p: int, r: int)
    ensures
        children_ranked(node, p).filter(rank_test(focus_ids(node), r)) == (if p == r {
            children_ranked(node, r)
        } else {
            Seq::empty()
        }),
{
    let ids = focus_ids(node);
    let part = children_ranked(node, p);
    assert forall|i: int| 0 <= i < part.len() implies rank(ids, #[trigger] part[i]) == p by {
        children(node).lemma_filter_pred(rank_test(ids, p), i);
    }
    if p == r {
        lemma_filter_all(part, rank_test(ids, r));
    } else {
        lemma_filter_nothing(part, rank_test(ids, r));
    }
}

/// The identifiers in a subtree, added to those of other subtrees.
spec fn tally() -> spec_fn(Multiset<Seq<char>>, Tree) -> Multiset<Seq<char>> {
    |sum: Multiset<Seq<char>>, n: Tree| sum.add(identifiers(n).to_multiset())
}

/// The focus order lists every window of the tree, ranked or not, as often as the tree has
/// it, and nothing else.
pub proof fn law_focus_order_lists_every_window(node: Tree)
    ensures
        focus_order(node).to_multiset() == identifiers(node).to_multiset(),
    decreases node,
{
    let none = Multiset::<Seq<char>>::empty();
    let own = own_identifier(node);
    let ranked = by_focus(node);
    let kids = children(node);
    lemma_by_focus_children(node);
    assert forall|k: int| 0 <= k < ranked.len() implies focus_order(
        #[trigger] ranked[k],
    ).to_multiset() == identifiers(ranked[k]).to_multiset() by {
        law_focus_order_lists_every_window(ranked[k]);
    }
    lemma_order_tally(node, ranked.len());
    lemma_identifiers_tally(node, kids.len());
    assert(ranked.take(ranked.len() as int) =~= ranked);
    assert(kids.take(kids.len() as int) =~= kids);
    law_by_focus_permutes(node);
    assert(vstd::seq_lib::commutative_foldl(tally())) by {
        assert forall|x: Tree, y: Tree, v: Multiset<Seq<char>>| #[trigger]
            tally()(tally()(v, x), y) == tally()(tally()(v, y), x) by {
            assert(tally()(tally()(v, x), y) =~= tally()(tally()(v, y), x));
        }
    }
    vstd::seq_lib::lemma_fold_left_permutation(ranked, kids, tally(), none);
    lemma_identifiers(node);
    vstd::seq_lib::lemma_multiset_commutative(own, focus_order_under(node, ranked.len()));
    vstd::seq_lib::lemma_multiset_commutative(own, identifiers_under(node, kids.len()));
}

proof fn lemma_order_tally(node: Tree, n: nat)
    requires
        n <= by_focus(node).len(),
        forall|k: int|
            0 <= k < by_focus(node).len() ==> focus_order(
                #[trigger] by_focus(node)[k],
            ).to_multiset() == identifiers(by_focus(node)[k]).to_multiset(),
    ensures
        focus_order_under(node, n).to_multiset() == by_focus(node).take(n as int).fold_left(
            Multiset::empty(),
            tally(),
        ),
    decreases n,
{
    broadcast use vstd::seq_lib::group_to_multiset_ensures;

    let ranked = by_focus(node);
    if n == 0 {
        assert(ranked.take(0).len() == 0);
        assert(focus_order_under(node, 0).to_multiset() =~= Multiset::empty());
    } else {
        lemma_order_tally(node, (n - 1) as nat);
        assert(ranked.take(n as int).drop_last() =~= ranked.take(n - 1));
        vstd::seq_lib::lemma_multiset_commutative(
            focus_order_under(node, (n - 1) as nat),
            focus_order(ranked[n - 1]),
        );
    }
}

proof fn lemma_identifiers_tally(node: Tree, n: nat)
    requires
        n <= children(node).len(),
    ensures
        identifiers_under(node, n).to_multiset() == children(node).take(n as int).fold_left(
            Multiset::empty(),
            tally(),
        ),
    decreases n,
{
    broadcast use vstd::seq_lib::group_to_multiset_ensures;

    let kids = children(node);
    if n == 0 {
        assert(kids.take(0).len() == 0);
        assert(identifiers_under(node, 0).to_multiset() =~= Multiset::empty());
    } else {
        lemma_identifiers_tally(node, (n - 1) as nat);
        lemma_identifiers_under(node, (n - 1) as nat);
        assert(kids.take(n as int).drop_last() =~= kids.take(n - 1));
        vstd::seq_lib::lemma_multiset_commutative(
            identifiers_under(node, (n - 1) as nat),
            identifiers(kids[n - 1]),
        );
    }
}

/// Where no node names children in a `focus` array, the focus order is the order in which
/// the tree lists the windows.
pub proof fn law_tree_order_without_focus_arrays(node: Tree)
    requires
        forall|n: Tree| #[trigger] nodes_of(node).contains(n) ==> focus_ids(n).len() == 0,
    ensures
        focus_order(node) == identifiers(node),
    decreases node,
{
    lemma_self_node(node);
    let ids = focus_ids(node);
    let kids = children(node);
    assert forall|i: int| 0 <= i < kids.len() implies rank_test(ids, 0)(#[trigger] kids[i]) by {
        lemma_rank_bounds(ids, kids[i]);
    }
    lemma_filter_all(kids, rank_test(ids, 0));
    let parts = Seq::new(ids.len() + 1, |r: int| children_ranked(node, r));
    assert(parts =~= seq![children_ranked(node, 0)]);
    parts.lemma_flatten_one_element();
    assert(by_focus(node) == kids);
    lemma_children_smaller(node);
    assert forall|k: int| 0 <= k < kids.len() implies focus_order(#[trigger] kids[k])
        == identifiers(kids[k]) by {
        assert forall|n: Tree| #[trigger] nodes_of(kids[k]).contains(n) implies focus_ids(n).len()
            == 0 by {
            lemma_child_nodes(node, k, n);
        }
        law_tree_order_without_focus_arrays(kids[k]);
    }
    lemma_tree_order_under(node, kids.len());
    lemma_identifiers(node);
}

proof fn lemma_tree_order_under(node: Tree, n: nat)
    requires
        n <= children(node).len(),
        by_focus(node) == children(node),
        forall|k: int|
            0 <= k < children(node).len() ==> focus_order(#[trigger] children(node)[k])
                == identifiers(children(node)[k]),
    ensures
        focus_order_under(node, n) == identifiers_under(node, n),
    decreases n,
{
    if n > 0 {
        lemma_tree_order_under(node, (n - 1) as nat);
        lemma_identifiers_under(node, (n - 1) as nat);
    }
}

/// Whether the `focus` arrays lead from the top to `n`, through nodes that are no windows: from
/// each of them to the child that was focused last.
pub open spec fn focus_leads_to(node: Tree, n: Tree) -> bool
    decreases node,
{
    ||| n == node
    ||| {
        &&& identifier(node) is None
        &&& by_focus(node).len() > 0
        &&& {
            proof {
                lemma_by_focus_children(node);
            }
            focus_leads_to(by_focus(node)[0], n)
        }
    }
}

/// Where the `focus` arrays lead to the node that has the focus, and it is a window, that
/// window leads the focus order.
pub proof fn law_focused_window_leads(node: Tree)
    requires
        focused_window(node) is Some,
        focus_leads_to(node, focused_node(node)->0),
    ensures
        focus_order(node).len() > 0,
        focus_order(node)[0] == focused_window(node)->0,
{
    lemma_led_to_leads(node, focused_node(node)->0);
}

proof fn lemma_led_to_leads(node: Tree, n: Tree)
    requires
        identifier(n) is Some,
        focus_leads_to(node, n),
    ensures
        focus_order(node).len() > 0,
        focus_order(node)[0] == identifier(n)->0,
    decreases node,
{
    if n == node {
        assert(focus_order(node)[0] == own_identifier(node)[0]);
    } else {
        lemma_by_focus_children(node);
        lemma_led_to_leads(by_focus(node)[0], n);
        lemma_order_starts(node, by_focus(node).len());
        assert(own_identifier(node) + focus_order_under(node, by_focus(node).len())
            =~= focus_order_under(node, by_focus(node).len()));
    }
}

/// The order under a node starts with that of its first child, where that has a window.
proof fn lemma_order_starts(node: Tree, n: nat)
    requires
        0 < n <= by_focus(node).len(),
        focus_order(by_focus(node)[0]).len() > 0,
    ensures
        focus_order_under(node, n).len() > 0,
        focus_order_under(node, n)[0] == focus_order(by_focus(node)[0])[0],
    decreases n,
{
    if n == 1 {
        assert(focus_order_under(node, 0) =~= Seq::empty());
        assert(focus_order_under(node, 1) =~= focus_order(by_focus(node)[0]));
    } else {
        lemma_order_starts(node, (n - 1) as nat);
    }
}

/// The window that has the focus is one of the windows in the focus order.
pub proof fn law_focused_window_is_listed(node: Tree)
    requires
        focused_window(node) is Some,
    ensures
        focus_order(node).contains(focused_window(node)->0),
{
    broadcast use vstd::seq_lib::group_to_multiset_ensures;

    let n = focused_node(node)->0;
    let found = nodes_of(node).filter(focus_test());
    assert(found.contains(found[0]));
    nodes_of(node).lemma_filter_contains_rev(focus_test(), n);
    lemma_filter_map_has(nodes_of(node), identified(), n, focused_window(node)->0);
    law_focus_order_lists_every_window(node);
    assert(identifiers(node).to_multiset().count(focused_window(node)->0) > 0);
}

/// The single node that has the focus is found.
pub proof fn law_single_focused_node_is_found(node: Tree, n: Tree)
    requires
        nodes_of(node).contains(n),
        has_focus(n),
        forall|m: Tree| #[trigger] nodes_of(node).contains(m) && has_focus(m) ==> m == n,
    ensures
        focused_node(node) == Some(n),
{
    let found = nodes_of(node).filter(focus_test());
    let k = choose|k: int| 0 <= k < nodes_of(node).len() && nodes_of(node)[k] == n;
    nodes_of(node).lemma_filter_contains(focus_test(), k);
    nodes_of(node).lemma_filter_pred(focus_test(), 0);
    assert(found.contains(found[0]));
    nodes_of(node).lemma_filter_contains_rev(focus_test(), found[0]);
}

/// Where no node has the focus, no window has it.
pub proof fn law_no_focus_no_focused_window(node: Tree)
    requires
        forall|n: Tree| #[trigger] nodes_of(node).contains(n) ==> !has_focus(n),
    ensures
        focused_node(node) is None,
        focused_window(node) is None,
{
    assert forall|i: int| 0 <= i < nodes_of(node).len() implies !focus_test()(
        #[trigger] nodes_of(node)[i],
    ) by {
        assert(nodes_of(node).contains(nodes_of(node)[i]));
    }
    lemma_filter_nothing(nodes_of(node), focus_test());
}

/// Whether two trees have the same windows in the same places, with the same ids and `focus`
/// arrays; what else their nodes say may differ, such as which of them has the focus.
pub open spec fn alike(a: Tree, b: Tree) -> bool
    decreases a,
{
    proof {
        lemma_children_smaller(a);
    }
    &&& identifier(a) == identifier(b)
    &&& a.signed_field("id"@) == b.signed_field("id"@)
    &&& focus_ids(a) == focus_ids(b)
    &&& children(a).len() == children(b).len()
    &&& forall|k: int|
        0 <= k < children(a).len() ==> alike(#[trigger] children(a)[k], children(b)[k])
}

/// Whether two lists have trees that are alike in the same places.
spec fn pairwise(s: Seq<Tree>, t: Seq<Tree>) -> bool {
    &&& s.len() == t.len()
    &&& forall|k: int| 0 <= k < s.len() ==> alike(#[trigger] s[k], t[k])
}

proof fn lemma_pairwise_add(a: Seq<Tree>, b: Seq<Tree>, c: Seq<Tree>, d: Seq<Tree>)
    requires
        pairwise(a, c),
        pairwise(b, d),
    ensures
        pairwise(a + b, c + d),
{
    assert forall|k: int| 0 <= k < (a + b).len() implies alike(
        #[trigger] (a + b)[k],
        (c + d)[k],
    ) by {
        if k < a.len() {
            assert(alike(a[k], c[k]));
        } else {
            assert(alike(b[k - a.len()], d[k - a.len()]));
        }
    }
}

proof fn lemma_pairwise_ranked(s: Seq<Tree>, t: Seq<Tree>, ids: Seq<i64>, r: int)
    requires
        pairwise(s, t),
    ensures
        pairwise(s.filter(rank_test(ids, r)), t.filter(rank_test(ids, r))),
    decreases s.len(),
{
    let test = rank_test(ids, r);
    reveal(Seq::filter);
    if s.len() > 0 {
        let (a, b) = (s.drop_last(), t.drop_last());
        assert forall|k: int| 0 <= k < a.len() implies alike(#[trigger] a[k], b[k]) by {
            assert(alike(s[k], t[k]));
        }
        lemma_pairwise_ranked(a, b, ids, r);
        assert(alike(s[s.len() - 1], t[s.len() - 1]));
        assert(test(s.last()) == test(t.last()));
        if test(s.last()) {
            assert(s.filter(test) =~= a.filter(test) + seq![s.last()]);
            assert(t.filter(test) =~= b.filter(test) + seq![t.last()]);
            lemma_pairwise_add(a.filter(test), seq![s.last()], b.filter(test), seq![t.last()]);
        }
    }
}

proof fn lemma_pairwise_flatten(ps: Seq<Seq<Tree>>, qs: Seq<Seq<Tree>>, n: int)
    requires
        ps.len() == qs.len(),
        0 <= n <= ps.len(),
        forall|k: int| 0 <= k < ps.len() ==> pairwise(#[trigger] ps[k], qs[k]),
    ensures
        pairwise(ps.take(n).flatten(), qs.take(n).flatten()),
    decreases n,
{
    if n == 0 {
        lemma_flatten_none(ps);
        lemma_flatten_none(qs);
    } else {
        lemma_pairwise_flatten(ps, qs, n - 1);
        lemma_flatten_take(ps, n - 1);
        lemma_flatten_take(qs, n - 1);
        assert(pairwise(ps[n - 1], qs[n - 1]));
        lemma_pairwise_add(
            ps.take(n - 1).flatten(),
            ps[n - 1],
            qs.take(n - 1).flatten(),
            qs[n - 1],
        );
    }
}

/// The focus order tells which window was focused last whether or not a window has the focus
/// now: it depends on the windows, the ids and the `focus` arrays alone.
pub proof fn law_focus_order_ignores_the_rest(a: Tree, b: Tree)
    requires
        alike(a, b),
    ensures
        focus_order(a) == focus_order(b),
    decreases a,
{
    let ids = focus_ids(a);
    let ps = Seq::new(ids.len() + 1, |r: int| children_ranked(a, r));
    let qs = Seq::new(ids.len() + 1, |r: int| children_ranked(b, r));
    assert forall|k: int| 0 <= k < ps.len() implies pairwise(#[trigger] ps[k], qs[k]) by {
        lemma_pairwise_ranked(children(a), children(b), ids, k);
    }
    lemma_pairwise_flatten(ps, qs, ps.len() as int);
    lemma_flatten_all(ps);
    lemma_flatten_all(qs);
    lemma_by_focus_children(a);
    assert forall|k: int| 0 <= k < by_focus(a).len() implies focus_order(#[trigger] by_focus(a)[k])
        == focus_order(by_focus(b)[k]) by {
        assert(alike(by_focus(a)[k], by_focus(b)[k]));
        law_focus_order_ignores_the_rest(by_focus(a)[k], by_focus(b)[k]);
    }
    lemma_same_order_under(a, b, by_focus(a).len());
}

proof fn lemma_same_order_under(a: Tree, b: Tree, n: nat)
    requires
        n <= by_focus(a).len() == by_focus(b).len(),
        forall|k: int|
            0 <= k < by_focus(a).len() ==> focus_order(#[trigger] by_focus(a)[k]) == focus_order(
                by_focus(b)[k],
            ),
    ensures
        focus_order_under(a, n) == focus_order_under(b, n),
    decreases n,
{
    if n > 0 {
        lemma_same_order_under(a, b, (n - 1) as nat);
        assert(focus_order(by_focus(a)[n - 1]) == focus_order(by_focus(b)[n - 1]));
    }
}

/// Under a node in the scratchpad every window is in the scratchpad.
pub proof fn law_scratchpad_container(node: Tree, inside: bool)
    requires
        inside || moved_to_scratchpad(node),
    ensures
        scratchpad(node, inside) == identifiers(node),
    decreases node, children(node).len() + 1,
{
    lemma_scratchpad_all_under(node, children(node).len());
    lemma_identifiers(node);
}

proof fn lemma_scratchpad_all_under(node: Tree, n: nat)
    requires
        n <= children(node).len(),
    ensures
        scratchpad_under(node, true, n) == identifiers_under(node, n),
    decreases node, n,
{
    if n > 0 {
        lemma_children_smaller(node);
        lemma_scratchpad_all_under(node, (n - 1) as nat);
        law_scratchpad_container(children(node)[n - 1], true);
        lemma_identifiers_under(node, (n - 1) as nat);
    }
}

/// Whether a window with this identifier is at or under a node that was moved to the
/// scratchpad.
pub open spec fn stashed(node: Tree, id: Seq<char>) -> bool {
    exists|m: Tree, n: Tree|
        #![trigger nodes_of(node).contains(m), nodes_of(m).contains(n)]
        nodes_of(node).contains(m) && moved_to_scratchpad(m) && nodes_of(m).contains(n)
            && identifier(n) == Some(id)
}

/// A window is in the scratchpad exactly where it, or a node above it, was moved there.
pub proof fn law_scratchpad_inherited(node: Tree, id: Seq<char>)
    ensures
        scratchpad(node, false).contains(id) <==> stashed(node, id),
    decreases node,
{
    lemma_self_node(node);
    lemma_children_smaller(node);
    if moved_to_scratchpad(node) {
        law_scratchpad_container(node, false);
        if identifiers(node).contains(id) {
            nodes_of(node).lemma_filter_map_contains(identified(), id);
            let n = choose|n: Tree| #[trigger]
                nodes_of(node).contains(n) && identified()(n) == Some(id);
            assert(nodes_of(node).contains(node) && nodes_of(node).contains(n));
        }
        if stashed(node, id) {
            let (m, n) = choose|m: Tree, n: Tree|
                #![trigger nodes_of(node).contains(m), nodes_of(m).contains(n)]
                nodes_of(node).contains(m) && moved_to_scratchpad(m) && nodes_of(m).contains(n)
                    && identifier(n) == Some(id);
            lemma_nodes_transitive(node, m, n);
            lemma_filter_map_has(nodes_of(node), identified(), n, id);
        }
    } else {
        let len = children(node).len();
        assert(Seq::<Seq<char>>::empty() + scratchpad_under(node, false, len)
            =~= scratchpad_under(node, false, len));
        if scratchpad(node, false).contains(id) {
            lemma_scratchpad_places(node, len, id);
            let k = choose|k: int|
                0 <= k < len && scratchpad(#[trigger] children(node)[k], false).contains(id);
            law_scratchpad_inherited(children(node)[k], id);
            let (m, n) = choose|m: Tree, n: Tree|
                #![trigger nodes_of(children(node)[k]).contains(m), nodes_of(m).contains(n)]
                nodes_of(children(node)[k]).contains(m) && moved_to_scratchpad(m) && nodes_of(
                    m,
                ).contains(n) && identifier(n) == Some(id);
            lemma_child_nodes(node, k, m);
        }
        if stashed(node, id) {
            let (m, n) = choose|m: Tree, n: Tree|
                #![trigger nodes_of(node).contains(m), nodes_of(m).contains(n)]
                nodes_of(node).contains(m) && moved_to_scratchpad(m) && nodes_of(m).contains(n)
                    && identifier(n) == Some(id);
            lemma_node_places(node, m);
            let k = choose|k: int|
                0 <= k < len && nodes_of(#[trigger] children(node)[k]).contains(m);
            assert(stashed(children(node)[k], id));
            law_scratchpad_inherited(children(node)[k], id);
            lemma_scratchpad_has(node, k, len, id);
        }
    }
}

proof fn lemma_scratchpad_places(node: Tree, m: nat, id: Seq<char>)
    requires
        m <= children(node).len(),
        scratchpad_under(node, false, m).contains(id),
    ensures
        exists|k: int|
            0 <= k < m && scratchpad(#[trigger] children(node)[k], false).contains(id),
    decreases m,
{
    let all = scratchpad_under(node, false, m);
    let front = scratchpad_under(node, false, (m - 1) as nat);
    let last = scratchpad(children(node)[m - 1], false);
    let j = choose|j: int| 0 <= j < all.len() && all[j] == id;
    if j < front.len() {
        assert(front[j] == id);
        lemma_scratchpad_places(node, (m - 1) as nat, id);
    } else {
        assert(last[j - front.len()] == id);
    }
}

proof fn lemma_scratchpad_has(node: Tree, k: int, m: nat, id: Seq<char>)
    requires
        0 <= k < m <= children(node).len(),
        scratchpad(children(node)[k], false).contains(id),
    ensures
        scratchpad_under(node, false, m).contains(id),
    decreases m,
{
    let front = scratchpad_under(node, false, (m - 1) as nat);
    let last = scratchpad(children(node)[m - 1], false);
    if k == m - 1 {
        let j = choose|j: int| 0 <= j < last.len() && last[j] == id;
        assert((front + last)[front.len() + j] == id);
    } else {
        lemma_scratchpad_has(node, k, (m - 1) as nat, id);
        let j = choose|j: int| 0 <= j < front.len() && front[j] == id;
        assert((front + last)[j] == id);
    }
}

/// Every window in the scratchpad is in the focus order.
pub proof fn law_scratchpad_windows_are_listed(node: Tree, id: Seq<char>)
    requires
        scratchpad(node, false).contains(id),
    ensures
        focus_order(node).contains(id),
{
    broadcast use vstd::seq_lib::group_to_multiset_ensures;

    law_scratchpad_inherited(node, id);
    let (m, n) = choose|m: Tree, n: Tree|
        #![trigger nodes_of(node).contains(m), nodes_of(m).contains(n)]
        nodes_of(node).contains(m) && moved_to_scratchpad(m) && nodes_of(m).contains(n)
            && identifier(n) == Some(id);
    lemma_nodes_transitive(node, m, n);
    lemma_filter_map_has(nodes_of(node), identified(), n, id);
    law_focus_order_lists_every_window(node);
    assert(identifiers(node).to_multiset().count(id) > 0);
}

/// Where no node was moved to the scratchpad, the scratchpad is empty.
pub proof fn law_nothing_moved_nothing_in_scratchpad(node: Tree)
    requires
        forall|n: Tree| #[trigger] nodes_of(node).contains(n) ==> !moved_to_scratchpad(n),
    ensures
        scratchpad(node, false) == Seq::<Seq<char>>::empty(),
{
    let all = scratchpad(node, false);
    if all.len() > 0 {
        assert(all.contains(all[0]));
        law_scratchpad_inherited(node, all[0]);
    }
    assert(all =~= Seq::empty());
}

/// Whether a node is on screen at the point: it, and every node above it, is not hidden, and
/// every node on the way down from the top covers the point.
pub open spec fn exposed(node: Tree, n: Tree, x: i32, y: i32) -> bool
    decreases node,
{
    proof {
        lemma_children_smaller(node);
    }
    !hidden(node) && (n == node || exists|k: int|
        0 <= k < floating_first(node).len() && covers(#[trigger] floating_first(node)[k], x, y)
            && exposed(floating_first(node)[k], n, x, y))
}

/// The window under a point is a window of the tree that is on screen at the point and covers
/// it; no window that is on screen there is overlooked.
pub proof fn law_window_under_is_exposed(node: Tree, x: i32, y: i32)
    ensures
        window_under(node, x, y) matches Some(w) ==> exists|n: Tree|
            #[trigger] exposed(node, n, x, y) && is_window(n) && covers(n, x, y) && w
                == (WindowInfo { app_id: app_id(n), title: title(n), rect: content_rect(n)->0 }),
        window_under(node, x, y) is None ==> forall|n: Tree| #[trigger]
            exposed(node, n, x, y) ==> !(is_window(n) && covers(n, x, y)),
{
    let all = reached(node, x, y);
    let test = window_test(x, y);
    let found = all.filter(test);
    if found.len() > 0 {
        let n = found[0];
        all.lemma_filter_pred(test, 0);
        assert(found.contains(n));
        all.lemma_filter_contains_rev(test, n);
        lemma_reached_exposed(node, n, x, y);
        assert(exposed(node, n, x, y));
    } else {
        assert forall|n: Tree| #[trigger] exposed(node, n, x, y) implies !(is_window(n) && covers(
            n,
            x,
            y,
        )) by {
            lemma_reached_exposed(node, n, x, y);
            let j = choose|j: int| 0 <= j < all.len() && all[j] == n;
            if test(n) {
                all.lemma_filter_contains(test, j);
            }
        }
    }
}

proof fn lemma_reached_exposed(node: Tree, n: Tree, x: i32, y: i32)
    ensures
        reached(node, x, y).contains(n) <==> exposed(node, n, x, y),
    decreases node, floating_first(node).len() + 1,
{
    let len = floating_first(node).len();
    if !hidden(node) {
        let under = reached_under(node, x, y, len);
        lemma_reached_under_exposed(node, n, x, y, len);
        if n == node {
            assert(reached(node, x, y)[under.len() as int] == n);
        } else if reached(node, x, y).contains(n) {
            let j = choose|j: int|
                0 <= j < reached(node, x, y).len() && reached(node, x, y)[j] == n;
            assert(under[j] == n);
        } else if under.contains(n) {
            let j = choose|j: int| 0 <= j < under.len() && under[j] == n;
            assert(reached(node, x, y)[j] == n);
        }
    }
}

proof fn lemma_reached_under_exposed(node: Tree, n: Tree, x: i32, y: i32, m: nat)
    requires
        m <= floating_first(node).len(),
    ensures
        reached_under(node, x, y, m).contains(n) <==> exists|k: int|
            0 <= k < m && covers(#[trigger] floating_first(node)[k], x, y) && exposed(
                floating_first(node)[k],
                n,
                x,
                y,
            ),
    decreases node, m,
{
    if m > 0 {
        lemma_children_smaller(node);
        let child = floating_first(node)[m - 1];
        let front = reached_under(node, x, y, (m - 1) as nat);
        let last = if covers(child, x, y) {
            reached(child, x, y)
        } else {
            Seq::empty()
        };
        let all = reached_under(node, x, y, m);
        lemma_reached_under_exposed(node, n, x, y, (m - 1) as nat);
        lemma_reached_exposed(child, n, x, y);
        if all.contains(n) {
            let j = choose|j: int| 0 <= j < all.len() && all[j] == n;
            if j < front.len() {
                assert(front[j] == n);
            } else {
                assert(last[j - front.len()] == n);
            }
        }
        if front.contains(n) {
            let j = choose|j: int| 0 <= j < front.len() && front[j] == n;
            assert(all[j] == n);
        }
        if last.contains(n) {
            let j = choose|j: int| 0 <= j < last.len() && last[j] == n;
            assert(all[front.len() + j] == n);
        }
    }
}

/// A hidden node hides all that is under it.
pub proof fn law_hidden_tree_has_no_window(node: Tree, x: i32, y: i32)
    requires
        hidden(node),
    ensures
        window_under(node, x, y) is None,
{
    lemma_filter_nothing(reached(node, x, y), window_test(x, y));
}

/// The innermost window wins: where a child covers the point and has a window under it, and
/// no child before it has one, the window is the child's, whatever the node itself is.
pub proof fn law_innermost_window_wins(node: Tree, k: int, x: i32, y: i32)
    requires
        !hidden(node),
        0 <= k < floating_first(node).len(),
        covers(floating_first(node)[k], x, y),
        window_under(floating_first(node)[k], x, y) is Some,
        forall|j: int|
            0 <= j < k && covers(#[trigger] floating_first(node)[j], x, y) ==> window_under(
                floating_first(node)[j],
                x,
                y,
            ) is None,
    ensures
        window_under(node, x, y) == window_under(floating_first(node)[k], x, y),
{
    let test = window_test(x, y);
    let len = floating_first(node).len();
    lemma_no_window_before(node, k as nat, x, y);
    lemma_first_match_add(
        reached_under(node, x, y, k as nat),
        reached(floating_first(node)[k], x, y),
        test,
    );
    lemma_first_match_reached(node, x, y, (k + 1) as nat, len);
    lemma_first_match_add(reached_under(node, x, y, len), seq![node], test);
}

proof fn lemma_no_window_before(node: Tree, k: nat, x: i32, y: i32)
    requires
        k <= floating_first(node).len(),
        forall|j: int|
            0 <= j < k && covers(#[trigger] floating_first(node)[j], x, y) ==> window_under(
                floating_first(node)[j],
                x,
                y,
            ) is None,
    ensures
        first_match(reached_under(node, x, y, k), window_test(x, y)) is None,
    decreases k,
{
    let test = window_test(x, y);
    if k == 0 {
        lemma_filter_nothing(reached_under(node, x, y, 0), test);
    } else {
        lemma_no_window_before(node, (k - 1) as nat, x, y);
        let child = floating_first(node)[k - 1];
        let last = if covers(child, x, y) {
            reached(child, x, y)
        } else {
            Seq::empty()
        };
        lemma_filter_nothing(Seq::<Tree>::empty(), test);
        lemma_first_match_add(reached_under(node, x, y, (k - 1) as nat), last, test);
    }
}

/// A node has a content rectangle exactly where it has a rectangle.
pub proof fn law_content_rect_where_rect(node: Tree)
    ensures
        content_rect(node) is Some <==> rect(node) is Some,
{
}

/// An active window rectangle is that of the node that has the focus, and one is found
/// wherever a window with a rectangle has it.
pub proof fn law_active_rect_is_focused(node: Tree)
    ensures
        active_rect(node) is Some ==> focused_node(node) is Some && has_focus(
            focused_node(node)->0,
        ) && active_rect(node) == rect(focused_node(node)->0),
        focused_node(node) is Some && is_window(focused_node(node)->0) ==> active_rect(node)
            == rect(focused_node(node)->0),
{
    if focused_node(node) is Some {
        nodes_of(node).lemma_filter_pred(focus_test(), 0);
    }
}

/// The nodes of a tree are its top, then the nodes of each tiled child, then those of each
/// floating child, all in the order of the reply.
pub proof fn law_nodes_are_the_top_and_all_below(node: Tree)
    ensures
        nodes_of(node) == seq![node] + (node.items_field("nodes"@) + node.items_field(
            "floating_nodes"@,
        )).map_values(|c: Tree| nodes_of(c)).flatten(),
{
    let parts = children(node).map_values(|c: Tree| nodes_of(c));
    lemma_nodes_under_flat(node, parts, children(node).len());
    lemma_flatten_all(parts);
    assert(parts =~= (node.items_field("nodes"@) + node.items_field("floating_nodes"@)).map_values(
        |c: Tree| nodes_of(c),
    ));
}

proof fn lemma_nodes_under_flat(node: Tree, parts: Seq<Seq<Tree>>, n: nat)
    requires
        n <= children(node).len() == parts.len(),
        forall|k: int| 0 <= k < parts.len() ==> #[trigger] parts[k] == nodes_of(children(node)[k]),
    ensures
        nodes_under(node, n) == parts.take(n as int).flatten(),
    decreases n,
{
    if n == 0 {
        lemma_flatten_none(parts);
    } else {
        lemma_nodes_under_flat(node, parts, (n - 1) as nat);
        lemma_flatten_take(parts, n - 1);
    }
}

/// Every item of a node's `nodes` and `floating_nodes`, at whatever depth, is a node of the
/// tree.
pub proof fn law_children_are_nodes(root: Tree, n: Tree, k: int)
    requires
        nodes_of(root).contains(n),
    ensures
        nodes_of(root).contains(root),
        0 <= k < n.items_field("nodes"@).len() ==> nodes_of(root).contains(
            n.items_field("nodes"@)[k],
        ),
        0 <= k < n.items_field("floating_nodes"@).len() ==> nodes_of(root).contains(
            n.items_field("floating_nodes"@)[k],
        ),
{
    lemma_self_node(root);
    let tiled = n.items_field("nodes"@);
    if 0 <= k < tiled.len() {
        assert(children(n)[k] == tiled[k]);
        lemma_self_node(tiled[k]);
        lemma_child_nodes(n, k, tiled[k]);
        lemma_nodes_transitive(root, n, tiled[k]);
    }
    let floating = n.items_field("floating_nodes"@);
    if 0 <= k < floating.len() {
        assert(children(n)[tiled.len() + k] == floating[k]);
        lemma_self_node(floating[k]);
        lemma_child_nodes(n, tiled.len() + k, floating[k]);
        lemma_nodes_transitive(root, n, floating[k]);
    }
}

/// A node names a window by a non-empty `foreign_toplevel_identifier`, whatever else it says.
pub proof fn law_identifier_is_the_toplevel_identifier(n: Tree, s: Seq<char>)
    ensures
        identifier(n) == Some(s) <==> n.text_field("foreign_toplevel_identifier"@) == Some(s)
            && s.len() > 0,
{
}

/// The reading of a node as the text of its `foreign_toplevel_identifier`, where there is one.
pub open spec fn toplevel_identifier() -> spec_fn(Tree) -> Option<Seq<char>> {
    |n: Tree|
        match n.field("foreign_toplevel_identifier"@) {
            Some(Tree::Text(s)) => if s.len() > 0 {
                Some(s)
            } else {
                None
            },
            _ => None,
        }
}

/// The focus order holds the identifier of each node that has one, X11 windows and windows that
/// are hidden, in the scratchpad or in no `focus` array among them, as often as the tree does.
pub proof fn law_focus_order_is_all_identifiers(root: Tree)
    ensures
        focus_order(root).to_multiset() == nodes_of(root).filter_map(
            toplevel_identifier(),
        ).to_multiset(),
{
    law_focus_order_lists_every_window(root);
    assert(toplevel_identifier() =~= identified());
}

/// Whatever a node's other fields are, its non-empty `foreign_toplevel_identifier` is in the
/// focus order.
pub proof fn law_identified_node_is_in_the_focus_order(root: Tree, n: Tree, s: Seq<char>)
    requires
        nodes_of(root).contains(n),
        n.text_field("foreign_toplevel_identifier"@) == Some(s),
        s.len() > 0,
    ensures
        focus_order(root).contains(s),
{
    broadcast use vstd::seq_lib::group_to_multiset_ensures;

    lemma_filter_map_has(nodes_of(root), identified(), n, s);
    law_focus_order_lists_every_window(root);
    assert(identifiers(root).to_multiset().count(s) > 0);
}

/// Nothing is in the focus order but the `foreign_toplevel_identifier` of some node.
pub proof fn law_focus_order_holds_only_identifiers(root: Tree, s: Seq<char>)
    requires
        focus_order(root).contains(s),
    ensures
        s.len() > 0,
        exists|n: Tree| #[trigger]
            nodes_of(root).contains(n) && n.text_field("foreign_toplevel_identifier"@) == Some(s),
{
    broadcast use vstd::seq_lib::group_to_multiset_ensures;

    law_focus_order_lists_every_window(root);
    assert(focus_order(root).to_multiset().count(s) > 0);
    assert(identifiers(root).contains(s));
    nodes_of(root).lemma_filter_map_contains(identified(), s);
    let n = choose|n: Tree| #[trigger] nodes_of(root).contains(n) && identified()(n) == Some(s);
    assert(nodes_of(root).contains(n));
}

/// The focus order of a tree is the window at its top, if it is one, followed by the focus
/// orders of its children, those that were focused later first.
pub proof fn law_focus_order_is_top_then_children(node: Tree)
    ensures
        focus_order(node) == (match node.text_field("foreign_toplevel_identifier"@) {
            Some(s) => if s.len() > 0 {
                seq![s]
            } else {
                Seq::empty()
            },
            None => Seq::empty(),
        }) + by_focus(node).map_values(|c: Tree| focus_order(c)).flatten(),
{
    let parts = by_focus(node).map_values(|c: Tree| focus_order(c));
    lemma_focus_order_flat(node, parts, by_focus(node).len());
    lemma_flatten_all(parts);
}

proof fn lemma_focus_order_flat(node: Tree, parts: Seq<Seq<Seq<char>>>, n: nat)
    requires
        n <= by_focus(node).len() == parts.len(),
        forall|k: int|
            0 <= k < parts.len() ==> #[trigger] parts[k] == focus_order(by_focus(node)[k]),
    ensures
        focus_order_under(node, n) == parts.take(n as int).flatten(),
    decreases n,
{
    if n == 0 {
        lemma_flatten_none(parts);
    } else {
        lemma_focus_order_flat(node, parts, (n - 1) as nat);
        lemma_flatten_take(parts, n - 1);
    }
}

/// The ranked children of a node are the items of its `nodes` and `floating_nodes`, each as
/// often as it stands there.
pub proof fn law_by_focus_ranks_tiled_and_floating(node: Tree)
    ensures
        by_focus(node).to_multiset() == (node.items_field("nodes"@) + node.items_field(
            "floating_nodes"@,
        )).to_multiset(),
{
    law_by_focus_permutes(node);
}

/// The ids in a `focus` array are its whole numbers, in its order.
pub proof fn law_focus_ids_are_the_focus_array(node: Tree)
    ensures
        focus_ids(node) == node.items_field("focus"@).filter_map(
            |item: Tree|
                match item {
                    Tree::Integer(i) => if i64::MIN <= i <= i64::MAX {
                        Some(i as i64)
                    } else {
                        None
                    },
                    _ => None,
                },
        ),
{
    let reading = |item: Tree|
        match item {
            Tree::Integer(i) => if i64::MIN <= i <= i64::MAX {
                Some(i as i64)
            } else {
                None::<i64>
            },
            _ => None::<i64>,
        };
    assert(reading =~= whole_number());
}

/// Whether the `k`-th id of a list is the first that is a child's `id`.
pub open spec fn named_at(ids: Seq<i64>, child: Tree, k: int) -> bool {
    &&& 0 <= k < ids.len()
    &&& child.signed_field("id"@) == Some(ids[k])
    &&& forall|j: int| 0 <= j < k ==> #[trigger] ids[j] != ids[k]
}

/// Whether no id of a list is a child's `id`.
pub open spec fn unnamed(ids: Seq<i64>, child: Tree) -> bool {
    forall|j: int| 0 <= j < ids.len() ==> child.signed_field("id"@) != Some(#[trigger] ids[j])
}

/// A rank is the first place at which a list of ids names the child; a child that it does not
/// name ranks past the end.
pub proof fn law_rank_is_the_first_place(ids: Seq<i64>, child: Tree)
    ensures
        forall|k: int| #[trigger] named_at(ids, child, k) ==> rank(ids, child) == k,
        unnamed(ids, child) <==> rank(ids, child) == ids.len(),
        rank(ids, child) == ids.len() || named_at(ids, child, rank(ids, child)),
{
    if let Some(id) = child.signed_field("id"@) {
        lemma_place_first(ids, id);
        let r = rank(ids, child);
        assert forall|k: int| #[trigger] named_at(ids, child, k) implies r == k by {
            assert(ids[k] == id);
            if r < k {
                assert(ids[r] == id);
            }
        }
        if unnamed(ids, child) && r < ids.len() {
            assert(ids[r] == id);
        }
        if r < ids.len() {
            assert(ids[r] == id);
        }
    }
}

proof fn lemma_place_first(ids: Seq<i64>, id: i64)
    ensures
        0 <= place(ids, id) <= ids.len(),
        place(ids, id) < ids.len() ==> ids[place(ids, id)] == id,
        forall|j: int| 0 <= j < place(ids, id) ==> #[trigger] ids[j] != id,
    decreases ids.len(),
{
    if ids.len() > 0 && ids[0] != id {
        let rest = ids.drop_first();
        lemma_place_first(rest, id);
        assert forall|j: int| 0 <= j < place(ids, id) implies #[trigger] ids[j] != id by {
            if j > 0 {
                assert(rest[j - 1] == ids[j]);
            }
        }
    }
}

/// A child never comes before one that was focused later: of two ranked children, where the
/// `focus` array names the later one in the list, it names the earlier one at the same place or
/// before it; children that it does not name come last.
pub proof fn law_most_recently_focused_first(node: Tree, i: int, j: int, q: int)
    requires
        0 <= i < j < by_focus(node).len(),
        named_at(focus_ids(node), by_focus(node)[j], q),
    ensures
        exists|p: int| p <= q && #[trigger] named_at(focus_ids(node), by_focus(node)[i], p),
{
    let ids = focus_ids(node);
    law_by_focus_sorted(node, i, j);
    law_rank_is_the_first_place(ids, by_focus(node)[i]);
    law_rank_is_the_first_place(ids, by_focus(node)[j]);
    assert(named_at(ids, by_focus(node)[i], rank(ids, by_focus(node)[i])));
}

/// Children that the `focus` array names at the same place, or does not name at all, stay in
/// the order of the reply, tiled before floating.
pub proof fn law_equally_focused_stay_in_order(node: Tree, k: int)
    requires
        0 <= k < focus_ids(node).len(),
    ensures
        by_focus(node).filter(|c: Tree| named_at(focus_ids(node), c, k)) == (node.items_field(
            "nodes"@,
        ) + node.items_field("floating_nodes"@)).filter(
            |c: Tree| named_at(focus_ids(node), c, k),
        ),
        by_focus(node).filter(|c: Tree| unnamed(focus_ids(node), c)) == (node.items_field("nodes"@)
            + node.items_field("floating_nodes"@)).filter(|c: Tree| unnamed(focus_ids(node), c)),
{
    let ids = focus_ids(node);
    let named = |c: Tree| named_at(ids, c, k);
    let left = |c: Tree| unnamed(ids, c);
    assert forall|c: Tree| #[trigger] named(c) == rank_test(ids, k)(c) by {
        law_rank_is_the_first_place(ids, c);
    }
    assert(named =~= rank_test(ids, k));
    assert forall|c: Tree| #[trigger] left(c) == rank_test(ids, ids.len() as int)(c) by {
        law_rank_is_the_first_place(ids, c);
    }
    assert(left =~= rank_test(ids, ids.len() as int));
    law_by_focus_stable(node, k);
    law_by_focus_stable(node, ids.len() as int);
}

/// Children that no `focus` array names stay in the order of the reply.
pub proof fn law_unranked_children_stay_in_order(node: Tree)
    requires
        focus_ids(node).len() == 0,
    ensures
        by_focus(node) == node.items_field("nodes"@) + node.items_field("floating_nodes"@),
{
    let ids = focus_ids(node);
    let kids = children(node);
    assert forall|i: int| 0 <= i < kids.len() implies rank_test(ids, 0)(#[trigger] kids[i]) by {
        lemma_rank_bounds(ids, kids[i]);
    }
    lemma_filter_all(kids, rank_test(ids, 0));
    let parts = Seq::new(ids.len() + 1, |r: int| children_ranked(node, r));
    assert(parts =~= seq![children_ranked(node, 0)]);
    parts.lemma_flatten_one_element();
}

/// A node is a window exactly where it has an `app_id` that is not null, or X11
/// `window_properties` of any kind.
pub proof fn law_windows_by_their_fields(n: Tree, id: Tree)
    ensures
        n.field("app_id"@) == Some(id) && id != Tree::Null ==> is_window(n),
        n.field("window_properties"@) is Some ==> is_window(n),
        is_window(n) && n.field("window_properties"@) is None ==> n.field("app_id"@) is Some
            && n.field("app_id"@) != Some(Tree::Null),
{
}

/// Whether a node carries `"focused": true`.
pub open spec fn flagged(n: Tree) -> bool {
    n.field("focused"@) == Some(Tree::Bool(true))
}

/// The node with the focus is the first in the tree's order that says `"focused": true`; there
/// is none only where no node says so.
pub proof fn law_focused_node_is_the_first_flagged(root: Tree)
    ensures
        focused_node(root) matches Some(n) ==> exists|i: int|
            #![trigger nodes_of(root)[i]]
            0 <= i < nodes_of(root).len() && nodes_of(root)[i] == n && flagged(n) && forall|j: int|
                0 <= j < i ==> !flagged(#[trigger] nodes_of(root)[j]),
        focused_node(root) is None ==> forall|j: int|
            0 <= j < nodes_of(root).len() ==> !flagged(#[trigger] nodes_of(root)[j]),
{
    law_first_match_is_first(nodes_of(root), focus_test());
    let all = nodes_of(root);
    assert forall|j: int| 0 <= j < all.len() implies flagged(#[trigger] all[j])
        == focus_test()(all[j]) by {}
    if focused_node(root) is Some {
        let i = choose|i: int|
            #![trigger all[i]]
            0 <= i < all.len() && all[i] == focused_node(root)->0 && focus_test()(all[i])
                && forall|j: int| 0 <= j < i ==> !focus_test()(#[trigger] all[j]);
        assert(flagged(all[i]));
        assert forall|j: int| 0 <= j < i implies !flagged(#[trigger] all[j]) by {
            assert(!focus_test()(all[j]));
        }
    }
}

/// The focused window is the identifier of the node with the focus, where that node is a
/// window by its `app_id` or its `window_properties`; else there is none.
pub proof fn law_focused_window_is_the_focused_node(root: Tree, n: Tree, s: Seq<char>)
    requires
        focused_node(root) == Some(n),
    ensures
        focused_window(root) == Some(s) <==> s.len() > 0 && n.text_field(
            "foreign_toplevel_identifier"@,
        ) == Some(s) && (n.field("window_properties"@) is Some || (n.field("app_id"@) is Some
            && n.field("app_id"@) != Some(Tree::Null))),
{
}

/// A window is in the scratchpad only where it, or a node above it, has a `scratchpad_state` that
/// is a string other than `none`.
pub proof fn law_scratchpad_goes_by_state(root: Tree, s: Seq<char>)
    ensures
        scratchpad(root, false).contains(s) ==> s.len() > 0 && exists|m: Tree, n: Tree|
            #![trigger nodes_of(root).contains(m), nodes_of(m).contains(n)]
            nodes_of(root).contains(m) && nodes_of(m).contains(n) && m.text_field(
                "scratchpad_state"@,
            ) is Some && m.text_field("scratchpad_state"@) != Some("none"@) && n.text_field(
                "foreign_toplevel_identifier"@,
            ) == Some(s),
{
    law_scratchpad_inherited(root, s);
    if scratchpad(root, false).contains(s) {
        let (m, n) = choose|m: Tree, n: Tree|
            #![trigger nodes_of(root).contains(m), nodes_of(m).contains(n)]
            nodes_of(root).contains(m) && moved_to_scratchpad(m) && nodes_of(m).contains(n)
                && identifier(n) == Some(s);
        assert(nodes_of(root).contains(m) && nodes_of(m).contains(n));
    }
}

/// Whatever else its nodes say, and whether they are shown or not, a window at or under a node
/// with a `scratchpad_state` other than `none` is in the scratchpad.
pub proof fn law_moved_windows_are_in_the_scratchpad(
    root: Tree,
    m: Tree,
    state: Seq<char>,
    n: Tree,
    s: Seq<char>,
)
    requires
        nodes_of(root).contains(m),
        m.text_field("scratchpad_state"@) == Some(state),
        state != "none"@,
        nodes_of(m).contains(n),
        n.text_field("foreign_toplevel_identifier"@) == Some(s),
        s.len() > 0,
    ensures
        scratchpad(root, false).contains(s),
{
    assert(moved_to_scratchpad(m) && identifier(n) == Some(s));
    assert(nodes_of(root).contains(m) && nodes_of(m).contains(n));
    law_scratchpad_inherited(root, s);
}

/// Under a node in the scratchpad the windows in it are all that have an identifier.
pub proof fn law_everything_inside_is_in_the_scratchpad(root: Tree)
    ensures
        scratchpad(root, true) == nodes_of(root).filter_map(toplevel_identifier()),
{
    law_scratchpad_container(root, true);
    assert(toplevel_identifier() =~= identified());
}

/// A rectangle is read from the four numbers under `rect`, each from its own field, and is there
/// only where all four are.
pub proof fn law_rect_is_its_four_numbers(n: Tree, o: Tree, x: i64, y: i64, w: u64, h: u64)
    requires
        n.field("rect"@) == Some(o),
    ensures
        o.signed_field("x"@) == Some(x) && o.signed_field("y"@) == Some(y) && o.unsigned_field(
            "width"@,
        ) == Some(w) && o.unsigned_field("height"@) == Some(h) ==> {
            &&& rect(n) matches Some(r)
            &&& (r.x - x) % 0x1_0000_0000 == 0
            &&& (r.y - y) % 0x1_0000_0000 == 0
            &&& (r.w - w) % 0x1_0000_0000 == 0
            &&& (r.h - h) % 0x1_0000_0000 == 0
        },
        rect(n) is Some ==> o.signed_field("x"@) is Some && o.signed_field("y"@) is Some
            && o.unsigned_field("width"@) is Some && o.unsigned_field("height"@) is Some,
{
    law_low_bits_are_congruent(x as int);
    law_low_bits_are_congruent(y as int);
    law_low_bits_are_congruent(w as int);
    law_low_bits_are_congruent(h as int);
}

/// Without a `rect` there is no rectangle.
pub proof fn law_no_rect_without_the_field(n: Tree)
    requires
        n.field("rect"@) is None,
    ensures
        rect(n) is None,
        content_rect(n) is None,
{
}

/// The content rectangle is the `window_rect`, where that has a width and a height, moved by the
/// node's own corner.
pub proof fn law_content_rect_is_moved_by_the_corner(n: Tree, r: Region, o: Tree, w: u64, h: u64)
    requires
        rect(n) == Some(r),
        n.field("window_rect"@) == Some(o),
        o.unsigned_field("width"@) == Some(w),
        o.unsigned_field("height"@) == Some(h),
        w > 0,
        h > 0,
    ensures
        content_rect(n) matches Some(c) && {
            &&& o.signed_field("x"@) matches Some(dx) ==> (c.x - r.x - dx) % 0x1_0000_0000 == 0
            &&& o.signed_field("x"@) is None ==> c.x == r.x
            &&& o.signed_field("y"@) matches Some(dy) ==> (c.y - r.y - dy) % 0x1_0000_0000 == 0
            &&& o.signed_field("y"@) is None ==> c.y == r.y
            &&& (c.w - w) % 0x1_0000_0000 == 0
            &&& (c.h - h) % 0x1_0000_0000 == 0
        },
{
    let dx: int = match o.signed_field("x"@) {
        Some(v) => v as int,
        None => 0,
    };
    let dy: int = match o.signed_field("y"@) {
        Some(v) => v as int,
        None => 0,
    };
    law_low_bits_are_congruent(r.x + dx);
    law_low_bits_are_congruent(r.y + dy);
    law_low_bits_keep_what_fits(r.x + dx);
    law_low_bits_keep_what_fits(r.y + dy);
    law_low_bits_are_congruent(w as int);
    law_low_bits_are_congruent(h as int);
}

/// A `window_rect` without a width and a height above zero leaves the node's own rectangle.
pub proof fn law_content_rect_without_extent_is_the_rect(n: Tree)
    requires
        n.field("window_rect"@) matches Some(o) ==> !(o.unsigned_field("width"@) matches Some(w)
            && w > 0) || !(o.unsigned_field("height"@) matches Some(h) && h > 0),
    ensures
        content_rect(n) == rect(n),
{
}

/// A node covers the points of its rectangle: from its corner on, its extent long.
pub proof fn law_covers_is_the_rect(n: Tree, r: Region, x: i32, y: i32)
    requires
        rect(n) == Some(r),
    ensures
        covers(n, x, y) <==> r.x <= x < r.x + r.w && r.y <= y < r.y + r.h,
{
}

/// A node without a rectangle covers nothing.
pub proof fn law_nothing_is_covered_without_a_rect(n: Tree, x: i32, y: i32)
    requires
        rect(n) is None,
    ensures
        !covers(n, x, y),
{
}

/// A node is hidden exactly where it says `"visible": false`; one that says nothing of it, or
/// something else, is not.
pub proof fn law_hidden_says_so(n: Tree)
    ensures
        hidden(n) <==> n.field("visible"@) == Some(Tree::Bool(false)),
{
}

/// An application id is the `app_id` where that is a string; else the `class` of the
/// `window_properties`, whatever else these hold; else nothing.
pub proof fn law_app_id_by_name(n: Tree, s: Seq<char>, o: Tree)
    ensures
        n.text_field("app_id"@) == Some(s) ==> app_id(n) == s,
        n.text_field("app_id"@) is None && n.field("window_properties"@) == Some(o)
            && o.text_field("class"@) == Some(s) ==> app_id(n) == s,
        n.text_field("app_id"@) is None && n.field("window_properties"@) == Some(o)
            && o.text_field("class"@) is None ==> app_id(n).len() == 0,
        n.text_field("app_id"@) is None && n.field("window_properties"@) is None ==> app_id(n).len()
            == 0,
{
}

/// A title is the `name` where that is a string; else nothing.
pub proof fn law_title_by_name(n: Tree, s: Seq<char>)
    ensures
        n.text_field("name"@) == Some(s) ==> title(n) == s,
        n.text_field("name"@) is None ==> title(n).len() == 0,
{
}

/// Whether a window reference names a node: by its `app_id` or else its X11 class, and by its
/// `name`, with its content rectangle.
pub open spec fn names(w: WindowInfo, n: Tree) -> bool {
    &&& match (n.text_field("app_id"@), n.field("window_properties"@)) {
        (Some(id), _) => w.app_id == id,
        (None, Some(o)) => match o.text_field("class"@) {
            Some(class) => w.app_id == class,
            None => w.app_id.len() == 0,
        },
        (None, None) => w.app_id.len() == 0,
    }
    &&& match n.text_field("name"@) {
        Some(name) => w.title == name,
        None => w.title.len() == 0,
    }
    &&& content_rect(n) == Some(w.rect)
}

/// Whether a node is a window, by its `app_id` or its `window_properties`, whose rectangle
/// contains the point.
pub open spec fn window_at_point(n: Tree, x: i32, y: i32) -> bool {
    &&& n.field("window_properties"@) is Some || (n.field("app_id"@) is Some && n.field("app_id"@)
        != Some(Tree::Null))
    &&& rect(n) matches Some(r) && r.x <= x < r.x + r.w && r.y <= y < r.y + r.h
}

/// The window that is found under a point is a node of the tree, is a window there, does not say
/// that it is hidden, and is the one that the reference names.
pub proof fn law_window_found_is_a_node(root: Tree, x: i32, y: i32)
    ensures
        window_under(root, x, y) matches Some(w) ==> exists|n: Tree| #[trigger]
            nodes_of(root).contains(n) && window_at_point(n, x, y) && n.field("visible"@) != Some(
                Tree::Bool(false),
            ) && names(w, n),
{
    let all = reached(root, x, y);
    let test = window_test(x, y);
    if window_under(root, x, y) is Some {
        let n = all.filter(test)[0];
        all.lemma_filter_pred(test, 0);
        assert(all.filter(test).contains(n));
        all.lemma_filter_contains_rev(test, n);
        lemma_reached_exposed(root, n, x, y);
        lemma_exposed_node(root, n, x, y);
        assert(nodes_of(root).contains(n));
    }
}

proof fn lemma_exposed_node(root: Tree, n: Tree, x: i32, y: i32)
    requires
        exposed(root, n, x, y),
    ensures
        nodes_of(root).contains(n),
        !hidden(n),
    decreases root,
{
    lemma_self_node(root);
    lemma_children_smaller(root);
    if n != root {
        let floating = root.items_field("floating_nodes"@);
        let tiled = root.items_field("nodes"@);
        let k = choose|k: int|
            0 <= k < floating_first(root).len() && covers(
                #[trigger] floating_first(root)[k],
                x,
                y,
            ) && exposed(floating_first(root)[k], n, x, y);
        let child = floating_first(root)[k];
        lemma_exposed_node(child, n, x, y);
        if k < floating.len() {
            assert(children(root)[tiled.len() + k] == child);
            lemma_child_nodes(root, tiled.len() + k, n);
        } else {
            assert(children(root)[k - floating.len()] == child);
            lemma_child_nodes(root, k - floating.len(), n);
        }
    }
}

/// The children of a node in the order in which they are looked through: floating ones, which
/// lie on top, before tiled ones.
pub open spec fn top_first(node: Tree) -> Seq<Tree> {
    node.items_field("floating_nodes"@) + node.items_field("nodes"@)
}

/// Whether a child has a window under the point, and its rectangle contains the point.
pub open spec fn has_window_under(child: Tree, x: i32, y: i32) -> bool {
    &&& rect(child) matches Some(r) && r.x <= x < r.x + r.w && r.y <= y < r.y + r.h
    &&& window_under(child, x, y) is Some
}

/// What is under a point in a node that is not hidden is what is under it in the topmost child
/// that has a window there; the node itself only where no child has one and it is a window
/// there; else nothing. In a hidden node there is nothing.
pub proof fn law_window_under_is_the_topmost(node: Tree, x: i32, y: i32, k: int)
    ensures
        node.field("visible"@) == Some(Tree::Bool(false)) ==> window_under(node, x, y) is None,
        node.field("visible"@) != Some(Tree::Bool(false)) && 0 <= k < top_first(node).len()
            && has_window_under(top_first(node)[k], x, y) && (forall|j: int|
            0 <= j < k ==> !has_window_under(#[trigger] top_first(node)[j], x, y))
            ==> window_under(node, x, y) == window_under(top_first(node)[k], x, y),
        node.field("visible"@) != Some(Tree::Bool(false)) && (forall|j: int|
            0 <= j < top_first(node).len() ==> !has_window_under(
                #[trigger] top_first(node)[j],
                x,
                y,
            )) ==> (window_under(node, x, y) is Some <==> window_at_point(node, x, y)) && (
        window_under(node, x, y) matches Some(w) ==> names(w, node)),
{
    assert(top_first(node) =~= floating_first(node));
    if hidden(node) {
        law_hidden_tree_has_no_window(node, x, y);
    } else {
        if 0 <= k < top_first(node).len() && has_window_under(top_first(node)[k], x, y) && (forall|
            j: int,
        |
            0 <= j < k ==> !has_window_under(#[trigger] top_first(node)[j], x, y)) {
            assert forall|j: int|
                0 <= j < k && covers(
                    #[trigger] floating_first(node)[j],
                    x,
                    y,
                ) implies window_under(floating_first(node)[j], x, y) is None by {
                assert(!has_window_under(top_first(node)[j], x, y));
            }
            law_innermost_window_wins(node, k, x, y);
        }
        if forall|j: int|
            0 <= j < top_first(node).len() ==> !has_window_under(
                #[trigger] top_first(node)[j],
                x,
                y,
            ) {
            let len = floating_first(node).len();
            assert forall|j: int|
                0 <= j < len && covers(
                    #[trigger] floating_first(node)[j],
                    x,
                    y,
                ) implies window_under(floating_first(node)[j], x, y) is None by {
                assert(!has_window_under(top_first(node)[j], x, y));
            }
            lemma_no_window_before(node, len, x, y);
            lemma_window_at_node(node, x, y);
        }
    }
}

/// There is an active window exactly where the node with the focus has a rectangle and is a
/// window, or a container of type `con` or `floating_con` with a name; its rectangle is the
/// node's own.
pub proof fn law_active_window_by_its_fields(root: Tree, n: Tree, r: Region)
    requires
        focused_node(root) == Some(n),
    ensures
        active_rect(root) == Some(r) <==> rect(n) == Some(r) && (n.field("window_properties"@)
            is Some || (n.field("app_id"@) is Some && n.field("app_id"@) != Some(Tree::Null)) || ((
        n.field("type"@) == Some(Tree::Text("con"@)) || n.field("type"@) == Some(
            Tree::Text("floating_con"@),
        )) && n.field("name"@) is Some && n.field("name"@) != Some(Tree::Null))),
{
}

/// Without a node that has the focus there is no active window.
pub proof fn law_no_active_window_without_focus(root: Tree)
    requires
        focused_node(root) is None,
    ensures
        active_rect(root) is None,
        focused_window(root) is None,
{
}

/// The focused output is the `name` of the first item of an array that says `"focused": true`.
pub proof fn law_focused_output_is_the_first_flagged(outputs: Seq<Tree>, i: int, s: Seq<char>)
    requires
        0 <= i < outputs.len(),
        flagged(outputs[i]),
        forall|j: int| 0 <= j < i ==> !flagged(#[trigger] outputs[j]),
    ensures
        focused_name(Tree::Array(outputs)) == Some(s) <==> outputs[i].field("name"@) == Some(
            Tree::Text(s),
        ),
{
    law_first_match_is_first(outputs, focus_test());
    assert(focus_test()(outputs[i]));
    assert forall|j: int| 0 <= j < outputs.len() implies flagged(#[trigger] outputs[j])
        == focus_test()(outputs[j]) by {}
    let found = first_match(outputs, focus_test())->0;
    let k = choose|k: int|
        #![trigger outputs[k]]
        0 <= k < outputs.len() && outputs[k] == found && focus_test()(outputs[k]) && forall|
            j: int,
        |
            0 <= j < k ==> !focus_test()(#[trigger] outputs[j]);
    assert(flagged(outputs[k]));
    assert(k == i);
}

/// No output is focused where none says so, or where the reply is no array.
pub proof fn law_no_focused_output_without_a_flag(answer: Tree)
    requires
        answer matches Tree::Array(outputs) ==> forall|j: int|
            0 <= j < outputs.len() ==> !flagged(#[trigger] outputs[j]),
    ensures
        focused_name(answer) is None,
{
    if let Tree::Array(outputs) = answer {
        assert forall|j: int| 0 <= j < outputs.len() implies !focus_test()(
            #[trigger] outputs[j],
        ) by {
            assert(!flagged(outputs[j]));
        }
        lemma_filter_nothing(outputs, focus_test());
    }
}

} // verus!
