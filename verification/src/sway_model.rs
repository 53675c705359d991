//! What a sway `get_tree` reply says, as mathematics.

use vstd::prelude::*;

use crate::geometry::{low_i32, low_u32, point_inside, Region};
use crate::json::{lemma_items_smaller, Tree};
use crate::lists::{first_match, lemma_flatten_member};

verus! {

/// The tiled children of a node.
pub open spec fn tiled(node: Tree) -> Seq<Tree> {
    node.items_field("nodes"@)
}

/// The floating children of a node.
pub open spec fn floating(node: Tree) -> Seq<Tree> {
    node.items_field("floating_nodes"@)
}

/// All children of a node, in the tree's own order: the tiled ones, then the floating ones.
pub open spec fn children(node: Tree) -> Seq<Tree> {
    tiled(node) + floating(node)
}

/// The children of a node, the floating ones first.
pub open spec fn floating_first(node: Tree) -> Seq<Tree> {
    floating(node) + tiled(node)
}

/// Children are parts of their parent.
pub proof fn lemma_children_smaller(node: Tree)
    ensures
        forall|i: int|
            0 <= i < children(node).len() ==> decreases_to!(node => #[trigger] children(node)[i]),
        forall|i: int|
            0 <= i < floating_first(node).len() ==> decreases_to!(
                node => #[trigger] floating_first(node)[i]
            ),
{
    lemma_items_smaller(node, "nodes"@);
    lemma_items_smaller(node, "floating_nodes"@);
    let t = tiled(node);
    let f = floating(node);
    assert forall|i: int| 0 <= i < children(node).len() implies decreases_to!(
        node => #[trigger] children(node)[i]
    ) by {
        if i < t.len() {
            assert(children(node)[i] == node.items_field("nodes"@)[i]);
        } else {
            assert(children(node)[i] == node.items_field("floating_nodes"@)[i - t.len()]);
        }
    }
    assert forall|i: int| 0 <= i < floating_first(node).len() implies decreases_to!(
        node => #[trigger] floating_first(node)[i]
    ) by {
        if i < f.len() {
            assert(floating_first(node)[i] == node.items_field("floating_nodes"@)[i]);
        } else {
            assert(floating_first(node)[i] == node.items_field("nodes"@)[i - f.len()]);
        }
    }
}

/// Every node of the tree, each before the nodes under it, children in the tree's own order.
pub open spec fn nodes_of(node: Tree) -> Seq<Tree>
    decreases node, children(node).len() + 1,
{
    seq![node] + nodes_under(node, children(node).len())
}

/// The nodes of the first `n` children of a node.
pub open spec fn nodes_under(node: Tree, n: nat) -> Seq<Tree>
    decreases node, n,
{
    if 0 < n <= children(node).len() {
        proof {
            lemma_children_smaller(node);
        }
        nodes_under(node, (n - 1) as nat) + nodes_of(children(node)[n - 1])
    } else {
        Seq::empty()
    }
}

/// The name by which a window is found again: its `foreign_toplevel_identifier`, where that
/// is a non-empty string.
pub open spec fn identifier(node: Tree) -> Option<Seq<char>> {
    match node.text_field("foreign_toplevel_identifier"@) {
        Some(id) => if id.len() > 0 {
            Some(id)
        } else {
            None
        },
        None => None,
    }
}

/// The identifier of a node as a list of at most one.
pub open spec fn own_identifier(node: Tree) -> Seq<Seq<char>> {
    match identifier(node) {
        Some(id) => seq![id],
        None => Seq::empty(),
    }
}

/// Whether a node carries `"focused": true`.
pub open spec fn has_focus(node: Tree) -> bool {
    node.flag_field("focused"@) == Some(true)
}

/// The test for the focus.
pub open spec fn focus_test() -> spec_fn(Tree) -> bool {
    |n: Tree| has_focus(n)
}

/// The first node of the tree that has the focus.
pub open spec fn focused_node(node: Tree) -> Option<Tree> {
    first_match(nodes_of(node), focus_test())
}

/// Whether a node is a window, as opposed to a container, workspace or output.
pub open spec fn is_window(node: Tree) -> bool {
    node.has_non_null("app_id"@) || node.field("window_properties"@) is Some
}

/// The identifier of the window that has the focus, if a window has it.
pub open spec fn focused_window(node: Tree) -> Option<Seq<char>> {
    match focused_node(node) {
        Some(n) => if is_window(n) {
            identifier(n)
        } else {
            None
        },
        None => None,
    }
}

/// The ids in a node's `focus` array, most recently focused first.
pub open spec fn focus_ids(node: Tree) -> Seq<i64> {
    node.items_field("focus"@).filter_map(whole_number())
}

/// The reading of an item as an id.
pub open spec fn whole_number() -> spec_fn(Tree) -> Option<i64> {
    |item: Tree| item.signed()
}

/// The place of `id` in a list, or the list's length where it is not in it.
pub open spec fn place(ids: Seq<i64>, id: i64) -> int
    decreases ids.len(),
{
    if ids.len() == 0 || ids[0] == id {
        0
    } else {
        1 + place(ids.drop_first(), id)
    }
}

/// The rank of a child among the focused ids; a child that they do not name comes last.
pub open spec fn rank(ids: Seq<i64>, child: Tree) -> int {
    match child.signed_field("id"@) {
        Some(id) => place(ids, id),
        None => ids.len() as int,
    }
}

/// The children of one rank, in the tree's own order.
pub open spec fn children_ranked(node: Tree, r: int) -> Seq<Tree> {
    children(node).filter(rank_test(focus_ids(node), r))
}

/// The test for a rank.
pub open spec fn rank_test(ids: Seq<i64>, r: int) -> spec_fn(Tree) -> bool {
    |child: Tree| rank(ids, child) == r
}

/// The children of a node, most recently focused first; those of one rank stay in the
/// tree's own order.
pub open spec fn by_focus(node: Tree) -> Seq<Tree> {
    Seq::new(focus_ids(node).len() + 1, |r: int| children_ranked(node, r)).flatten()
}

/// Ranking children adds none.
pub proof fn lemma_by_focus_children(node: Tree)
    ensures
        forall|i: int|
            0 <= i < by_focus(node).len() ==> children(node).contains(
                #[trigger] by_focus(node)[i],
            ) && decreases_to!(node => by_focus(node)[i]),
{
    lemma_children_smaller(node);
    let parts = Seq::new(focus_ids(node).len() + 1, |r: int| children_ranked(node, r));
    assert forall|i: int| 0 <= i < by_focus(node).len() implies children(node).contains(
        #[trigger] by_focus(node)[i],
    ) && decreases_to!(node => by_focus(node)[i]) by {
        lemma_flatten_member(parts, i);
        let (p, q) = choose|p: int, q: int|
            0 <= p < parts.len() && 0 <= q < parts[p].len() && #[trigger] parts[p][q]
                == parts.flatten()[i];
        assert(parts[p] == children_ranked(node, p));
        assert(children_ranked(node, p).contains(by_focus(node)[i]));
        children(node).lemma_filter_contains_rev(
            rank_test(focus_ids(node), p),
            by_focus(node)[i],
        );
        let k = choose|k: int|
            0 <= k < children(node).len() && children(node)[k] == by_focus(node)[i];
        assert(decreases_to!(node => children(node)[k]));
    }
}

/// The windows of the tree, most recently focused first.
pub open spec fn focus_order(node: Tree) -> Seq<Seq<char>>
    decreases node, by_focus(node).len() + 1,
{
    own_identifier(node) + focus_order_under(node, by_focus(node).len())
}

/// The windows under the first `n` children of a node, most recently focused first.
pub open spec fn focus_order_under(node: Tree, n: nat) -> Seq<Seq<char>>
    decreases node, n,
{
    if 0 < n <= by_focus(node).len() {
        proof {
            lemma_by_focus_children(node);
        }
        focus_order_under(node, (n - 1) as nat) + focus_order(by_focus(node)[n - 1])
    } else {
        Seq::empty()
    }
}

/// Whether a node was itself moved to the scratchpad: its `scratchpad_state` is a string
/// other than `none`.
pub open spec fn moved_to_scratchpad(node: Tree) -> bool {
    match node.text_field("scratchpad_state"@) {
        Some(state) => state != "none"@,
        None => false,
    }
}

/// The windows of the tree that sit in the scratchpad, in the tree's own order. All that is
/// under a node in the scratchpad is in it too; `inside` says that the node is under one.
pub open spec fn scratchpad(node: Tree, inside: bool) -> Seq<Seq<char>>
    decreases node, children(node).len() + 1,
{
    let now_inside = inside || moved_to_scratchpad(node);
    let own = if now_inside {
        own_identifier(node)
    } else {
        Seq::empty()
    };
    own + scratchpad_under(node, now_inside, children(node).len())
}

/// The windows under the first `n` children of a node that sit in the scratchpad.
pub open spec fn scratchpad_under(node: Tree, inside: bool, n: nat) -> Seq<Seq<char>>
    decreases node, n,
{
    if 0 < n <= children(node).len() {
        proof {
            lemma_children_smaller(node);
        }
        scratchpad_under(node, inside, (n - 1) as nat) + scratchpad(children(node)[n - 1], inside)
    } else {
        Seq::empty()
    }
}

/// The rectangle under a node's `rect`.
pub open spec fn rect(node: Tree) -> Option<Region> {
    match node.field("rect"@) {
        Some(r) => match (
            r.signed_field("x"@),
            r.signed_field("y"@),
            r.unsigned_field("width"@),
            r.unsigned_field("height"@),
        ) {
            (Some(x), Some(y), Some(w), Some(h)) => Some(
                Region {
                    x: low_i32(x as int),
                    y: low_i32(y as int),
                    w: low_u32(w as int),
                    h: low_u32(h as int),
                },
            ),
            _ => None,
        },
        None => None,
    }
}

/// The offset under `key` of a `window_rect`; nothing where there is none.
pub open spec fn offset(window_rect: Tree, key: Seq<char>) -> int {
    match window_rect.signed_field(key) {
        Some(v) => v as int,
        None => 0,
    }
}

/// The rectangle of a node's content: its `window_rect`, where that has an extent, placed
/// from the node's own corner; else the node's own rectangle.
pub open spec fn content_rect(node: Tree) -> Option<Region> {
    match rect(node) {
        Some(r) => match node.field("window_rect"@) {
            Some(inner) => match (
                inner.unsigned_field("width"@),
                inner.unsigned_field("height"@),
            ) {
                (Some(w), Some(h)) => if w > 0 && h > 0 {
                    Some(
                        Region {
                            x: low_i32(r.x + offset(inner, "x"@)),
                            y: low_i32(r.y + offset(inner, "y"@)),
                            w: low_u32(w as int),
                            h: low_u32(h as int),
                        },
                    )
                } else {
                    Some(r)
                },
                _ => Some(r),
            },
            None => Some(r),
        },
        None => None,
    }
}

/// Whether a node's rectangle contains the point.
pub open spec fn covers(node: Tree, x: i32, y: i32) -> bool {
    rect(node) is Some && point_inside(rect(node)->0, x, y)
}

/// Whether a node says that it is not on screen.
pub open spec fn hidden(node: Tree) -> bool {
    node.flag_field("visible"@) == Some(false)
}

/// The nodes on screen that are reached from the top through nodes that cover the point,
/// each after the nodes under it, floating children before tiled ones.
pub open spec fn reached(node: Tree, x: i32, y: i32) -> Seq<Tree>
    decreases node, floating_first(node).len() + 1,
{
    if hidden(node) {
        Seq::empty()
    } else {
        reached_under(node, x, y, floating_first(node).len()) + seq![node]
    }
}

/// The nodes that are reached through the first `n` children of a node.
pub open spec fn reached_under(node: Tree, x: i32, y: i32, n: nat) -> Seq<Tree>
    decreases node, n,
{
    if 0 < n <= floating_first(node).len() {
        proof {
            lemma_children_smaller(node);
        }
        let child = floating_first(node)[n - 1];
        reached_under(node, x, y, (n - 1) as nat) + if covers(child, x, y) {
            reached(child, x, y)
        } else {
            Seq::empty()
        }
    } else {
        Seq::empty()
    }
}

/// The test for a window that covers the point.
pub open spec fn window_test(x: i32, y: i32) -> spec_fn(Tree) -> bool {
    |n: Tree| is_window(n) && covers(n, x, y)
}

/// The mathematical value of a [`WindowRef`].
pub struct WindowInfo {
    /// The application id.
    pub app_id: Seq<char>,
    /// The title.
    pub title: Seq<char>,
    /// The content area.
    pub rect: Region,
}

/// The application id of a window: its `app_id`, or else its X11 class, or else nothing.
pub open spec fn app_id(node: Tree) -> Seq<char> {
    match node.text_field("app_id"@) {
        Some(id) => id,
        None => match node.field("window_properties"@) {
            Some(properties) => match properties.text_field("class"@) {
                Some(class) => class,
                None => Seq::empty(),
            },
            None => Seq::empty(),
        },
    }
}

/// The title of a window.
pub open spec fn title(node: Tree) -> Seq<char> {
    match node.text_field("name"@) {
        Some(name) => name,
        None => Seq::empty(),
    }
}

/// The innermost window on screen under the point.
pub open spec fn window_under(node: Tree, x: i32, y: i32) -> Option<WindowInfo> {
    match first_match(reached(node, x, y), window_test(x, y)) {
        Some(n) => Some(
            WindowInfo { app_id: app_id(n), title: title(n), rect: content_rect(n)->0 },
        ),
        None => None,
    }
}

/// Whether the node with the focus counts as an active window: a window, or a named
/// container.
pub open spec fn is_active_window(node: Tree) -> bool {
    ||| is_window(node)
    ||| {
        &&& node.text_field("type"@) == Some("con"@) || node.text_field("type"@) == Some(
            "floating_con"@,
        )
        &&& node.has_non_null("name"@)
    }
}

/// The rectangle of the active window, if a window has the focus.
pub open spec fn active_rect(node: Tree) -> Option<Region> {
    match focused_node(node) {
        Some(n) => if is_active_window(n) {
            rect(n)
        } else {
            None
        },
        None => None,
    }
}

/// The name of the first item of an array that has the focus.
pub open spec fn focused_name(outputs: Tree) -> Option<Seq<char>> {
    match outputs.items() {
        Some(items) => match first_match(items, focus_test()) {
            Some(output) => output.text_field("name"@),
            None => None,
        },
        None => None,
    }
}

} // verus!
