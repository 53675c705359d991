//! Reading sway's `get_tree` and `get_outputs` replies.

use vstd::hash_set::StringHashSet;
use vstd::prelude::*;

use crate::geometry::{contains, low_i32, signed_low, unsigned_low, Region};
use crate::json::{ref_views, views, Json, Tree};
use crate::lists::{
    first_match, lemma_filter_one, lemma_first_match_add, lemma_first_match_at, lemma_flatten_all,
    lemma_flatten_none, lemma_flatten_take, lemma_no_match_in_nothing,
};
use crate::sway_model::{
    active_rect, by_focus, children, children_ranked, content_rect, covers, floating_first,
    focus_ids, focus_order, focus_order_under, focus_test, focused_name, focused_node,
    focused_window, has_focus, hidden, is_window, lemma_by_focus_children, lemma_children_smaller,
    nodes_of, nodes_under, own_identifier, place, rank, rank_test, reached, reached_under, rect,
    scratchpad, scratchpad_under, whole_number, window_test, window_under, WindowInfo,
};
use crate::text::same_text;

verus! {

/// A window's identity and content geometry, for binding a region mirror to the window under
/// it: `app_id` and `title` match a toplevel, `rect` is its content area.
#[derive(Debug)]
pub struct WindowRef {
    /// The window's application id.
    pub app_id: String,
    /// The window title.
    pub title: String,
    /// The window's content area in the global logical space.
    pub rect: Region,
}

impl View for WindowRef {
    type V = WindowInfo;

    open spec fn view(&self) -> WindowInfo {
        WindowInfo { app_id: self.app_id@, title: self.title@, rect: self.rect }
    }
}

/// Sway's window focus order: which windows exist, most recently focused first, and which
/// one holds the focus right now. Both fields name windows by their
/// `foreign_toplevel_identifier`.
#[derive(Debug, Clone)]
pub struct FocusOrder {
    /// Every window in the tree, most recently focused first.
    pub order: Vec<String>,
    /// The window that has the focus, if a *window* does: focus on a layer surface or an
    /// empty workspace leaves this `None` while `order` still tells which window was
    /// focused last.
    pub focused: Option<String>,
}

impl Default for FocusOrder {
    fn default() -> (empty: Self)
        ensures
            empty.order@.len() == 0,
            empty.focused is None,
    {
        FocusOrder { order: Vec::new(), focused: None }
    }
}

/// A set of windows, by their `foreign_toplevel_identifier`.
pub type Identifiers = StringHashSet;

/// The characters of a list of strings.
pub open spec fn texts(list: Seq<String>) -> Seq<Seq<char>> {
    Seq::new(list.len(), |i: int| list[i]@)
}

/// The children of a node, in the tree's own order.
fn children_of<'a>(node: &'a Json) -> (kids: Vec<&'a Json>)
    ensures
        ref_views(kids@) == children(node@),
{
    let mut kids: Vec<&'a Json> = Vec::new();
    node.push_items("nodes", &mut kids);
    node.push_items("floating_nodes", &mut kids);
    assert(ref_views(kids@) =~= children(node@));
    kids
}

/// The children of a node, the floating ones first.
fn floating_first_of<'a>(node: &'a Json) -> (kids: Vec<&'a Json>)
    ensures
        ref_views(kids@) == floating_first(node@),
{
    let mut kids: Vec<&'a Json> = Vec::new();
    node.push_items("floating_nodes", &mut kids);
    node.push_items("nodes", &mut kids);
    assert(ref_views(kids@) =~= floating_first(node@));
    kids
}

/// The single node with `"focused": true` in a sway tree (the active container); the first
/// one, should there be several.
pub fn find_focused<'a>(node: &'a Json) -> (found: Option<&'a Json>)
    ensures
        found is Some <==> focused_node(node@) is Some,
        found is Some ==> (found->0)@ == focused_node(node@)->0,
    decreases node@,
{
    let ghost tree = node@;
    proof {
        lemma_focused_top(tree);
        lemma_no_match_in_nothing(focus_test());
    }
    if node.flag_field("focused") == Some(true) {
        return Some(node);
    }
    let kids = children_of(node);
    let mut i: usize = 0;
    while i < kids.len()
        invariant
            i <= kids@.len(),
            tree == node@,
            !has_focus(tree),
            ref_views(kids@) == children(tree),
            first_match(nodes_under(tree, i as nat), focus_test()) is None,
        decreases kids@.len() - i,
    {
        proof {
            lemma_children_smaller(tree);
            assert(kids@[i as int]@ == children(tree)[i as int]);
            lemma_focused_child(tree, i as int);
        }
        if let Some(found) = find_focused(kids[i]) {
            return Some(found);
        }
        i += 1;
    }
    None
}

/// The top of a tree is the first of its nodes.
proof fn lemma_focused_top(node: Tree)
    ensures
        focused_node(node) == (if has_focus(node) {
            Some(node)
        } else {
            first_match(nodes_under(node, children(node).len()), focus_test())
        }),
{
    lemma_filter_one(node, focus_test());
    lemma_first_match_add(seq![node], nodes_under(node, children(node).len()), focus_test());
}

/// Past children without the focus, the next child has it or is passed over too.
proof fn lemma_focused_child(node: Tree, i: int)
    requires
        !has_focus(node),
        0 <= i < children(node).len(),
        first_match(nodes_under(node, i as nat), focus_test()) is None,
    ensures
        ({
            let found = focused_node(children(node)[i]);
            if found is Some {
                focused_node(node) == found
            } else {
                first_match(nodes_under(node, (i + 1) as nat), focus_test()) is None
            }
        }),
{
    lemma_focused_top(node);
    lemma_first_match_add(
        nodes_under(node, i as nat),
        nodes_of(children(node)[i]),
        focus_test(),
    );
    lemma_first_match_under(node, (i + 1) as nat, children(node).len());
}

/// A match under the first children is the first match of all.
proof fn lemma_first_match_under(node: Tree, n: nat, m: nat)
    requires
        n <= m <= children(node).len(),
    ensures
        first_match(nodes_under(node, n), focus_test()) is Some ==> first_match(
            nodes_under(node, m),
            focus_test(),
        ) == first_match(nodes_under(node, n), focus_test()),
    decreases m,
{
    if n < m {
        lemma_first_match_under(node, n, (m - 1) as nat);
        lemma_first_match_add(
            nodes_under(node, (m - 1) as nat),
            nodes_of(children(node)[m - 1]),
            focus_test(),
        );
    }
}

/// Whether a sway node is a window (as opposed to a container, workspace or output).
pub fn sway_is_window(node: &Json) -> (window: bool)
    ensures
        window == is_window(node@),
{
    node.has_non_null("app_id") || node.get("window_properties").is_some()
}

/// Reads a sway `rect` object into a logical [`Region`].
pub fn rect_of(node: &Json) -> (region: Option<Region>)
    ensures
        region == rect(node@),
{
    let r = node.get("rect")?;
    let x: i64 = r.signed_field("x")?;
    let y: i64 = r.signed_field("y")?;
    let w: u64 = r.unsigned_field("width")?;
    let h: u64 = r.unsigned_field("height")?;
    Some(Region { x: signed_low(x), y: signed_low(y), w: unsigned_low(w), h: unsigned_low(h) })
}

/// A coordinate moved by an offset, counted in 32 bits.
fn shifted(start: i32, by: Option<i64>) -> (moved: i32)
    ensures
        moved == low_i32(start + match by {
            Some(v) => v as int,
            None => 0,
        }),
{
    let offset: i32 = match by {
        Some(v) => signed_low(v),
        None => 0,
    };
    signed_low(start as i64 + offset as i64)
}

/// A node's content rectangle in global logical coordinates: its `rect` shifted by the
/// `window_rect` (content offset within the node), so that it lines up with what a capture of
/// the window contains (no server-side borders).
pub fn sway_content_rect(node: &Json) -> (region: Option<Region>)
    ensures
        region == content_rect(node@),
{
    let rect = rect_of(node)?;
    if let Some(inner) = node.get("window_rect") {
        if let (Some(w), Some(h)) = (
            inner.unsigned_field("width"),
            inner.unsigned_field("height"),
        ) {
            if w > 0 && h > 0 {
                return Some(
                    Region {
                        x: shifted(rect.x, inner.signed_field("x")),
                        y: shifted(rect.y, inner.signed_field("y")),
                        w: unsigned_low(w),
                        h: unsigned_low(h),
                    },
                );
            }
        }
    }
    Some(rect)
}

/// Whether a node's rectangle contains the point.
fn covers_point(node: &Json, x: i32, y: i32) -> (inside: bool)
    ensures
        inside == covers(node@, x, y),
{
    match rect_of(node) {
        Some(r) => contains(&r, x, y),
        None => false,
    }
}

/// A match through the first children is the first match of all.
pub(crate) proof fn lemma_first_match_reached(node: Tree, x: i32, y: i32, n: nat, m: nat)
    requires
        n <= m <= floating_first(node).len(),
    ensures
        first_match(reached_under(node, x, y, n), window_test(x, y)) is Some ==> first_match(
            reached_under(node, x, y, m),
            window_test(x, y),
        ) == first_match(reached_under(node, x, y, n), window_test(x, y)),
    decreases m,
{
    if n < m {
        lemma_first_match_reached(node, x, y, n, (m - 1) as nat);
        let child = floating_first(node)[m - 1];
        lemma_first_match_add(
            reached_under(node, x, y, (m - 1) as nat),
            if covers(child, x, y) {
                reached(child, x, y)
            } else {
                Seq::empty()
            },
            window_test(x, y),
        );
    }
}

/// Past children without a window under the point, the next child has the first one or is
/// passed over too.
proof fn lemma_window_at_child(node: Tree, x: i32, y: i32, i: int)
    requires
        !hidden(node),
        0 <= i < floating_first(node).len(),
        first_match(reached_under(node, x, y, i as nat), window_test(x, y)) is None,
    ensures
        ({
            let child = floating_first(node)[i];
            let found = first_match(reached(child, x, y), window_test(x, y));
            if covers(child, x, y) && found is Some {
                first_match(reached(node, x, y), window_test(x, y)) == found
            } else {
                first_match(reached_under(node, x, y, (i + 1) as nat), window_test(x, y)) is None
            }
        }),
{
    let test = window_test(x, y);
    let len = floating_first(node).len();
    let child = floating_first(node)[i];
    let nodes = if covers(child, x, y) {
        reached(child, x, y)
    } else {
        Seq::empty()
    };
    lemma_no_match_in_nothing(test);
    lemma_first_match_add(reached_under(node, x, y, i as nat), nodes, test);
    lemma_first_match_reached(node, x, y, (i + 1) as nat, len);
    lemma_first_match_add(reached_under(node, x, y, len), seq![node], test);
}

/// Where no child has a window under the point, the node itself is the window, or there is
/// none.
pub(crate) proof fn lemma_window_at_node(node: Tree, x: i32, y: i32)
    requires
        !hidden(node),
        first_match(
            reached_under(node, x, y, floating_first(node).len()),
            window_test(x, y),
        ) is None,
    ensures
        first_match(reached(node, x, y), window_test(x, y)) == (if is_window(node) && covers(
            node,
            x,
            y,
        ) {
            Some(node)
        } else {
            None
        }),
{
    let test = window_test(x, y);
    lemma_filter_one(node, test);
    lemma_first_match_add(reached_under(node, x, y, floating_first(node).len()), seq![node], test);
}

/// A string out of a text that may be missing.
fn text_or_empty(text: Option<&str>) -> (s: String)
    ensures
        s@ == match text {
            Some(t) => t@,
            None => Seq::<char>::empty(),
        },
{
    match text {
        Some(t) => t.to_owned(),
        None => String::new(),
    }
}

/// The deepest window node on screen whose `rect` contains the global logical point `(x, y)`.
pub fn sway_window_at(node: &Json, x: i32, y: i32) -> (window: Option<WindowRef>)
    ensures
        window is Some <==> window_under(node@, x, y) is Some,
        window is Some ==> (window->0)@ == window_under(node@, x, y)->0,
    decreases node@,
{
    let ghost tree = node@;
    proof {
        lemma_no_match_in_nothing(window_test(x, y));
    }
    // Windows on hidden workspaces, and those behind others in tabs or stacks, keep their
    // geometry in the tree.
    if node.flag_field("visible") == Some(false) {
        return None;
    }
    // Children first, so that the innermost window wins.
    let kids = floating_first_of(node);
    let mut i: usize = 0;
    while i < kids.len()
        invariant
            i <= kids@.len(),
            tree == node@,
            !hidden(tree),
            ref_views(kids@) == floating_first(tree),
            first_match(reached_under(tree, x, y, i as nat), window_test(x, y)) is None,
        decreases kids@.len() - i,
    {
        proof {
            lemma_children_smaller(tree);
            assert(kids@[i as int]@ == floating_first(tree)[i as int]);
            lemma_window_at_child(tree, x, y, i as int);
        }
        if covers_point(kids[i], x, y) {
            if let Some(found) = sway_window_at(kids[i], x, y) {
                return Some(found);
            }
        }
        i += 1;
    }
    proof {
        lemma_window_at_node(tree, x, y);
    }
    if sway_is_window(node) && covers_point(node, x, y) {
        let app_id = match node.text_field("app_id") {
            Some(id) => id.to_owned(),
            None => match node.get("window_properties") {
                Some(properties) => text_or_empty(properties.text_field("class")),
                None => String::new(),
            },
        };
        return Some(
            WindowRef {
                app_id,
                title: text_or_empty(node.text_field("name")),
                rect: sway_content_rect(node)?,
            },
        );
    }
    None
}

/// The ids in a node's `focus` array.
fn focus_of(node: &Json) -> (ids: Vec<i64>)
    ensures
        ids@ == focus_ids(node@),
{
    let mut items: Vec<&Json> = Vec::new();
    node.push_items("focus", &mut items);
    let ghost all = node@.items_field("focus"@);
    assert(ref_views(items@) =~= all);
    let mut ids: Vec<i64> = Vec::new();
    let mut i: usize = 0;
    while i < items.len()
        invariant
            i <= items@.len(),
            ref_views(items@) == all,
            ids@ == all.take(i as int).filter_map(whole_number()),
        decreases items@.len() - i,
    {
        proof {
            all.lemma_filter_map_take_succ(whole_number(), i as int);
            assert(items@[i as int]@ == all[i as int]);
        }
        if let Some(id) = items[i].as_i64() {
            ids.push(id);
        }
        i += 1;
    }
    assert(all.take(all.len() as int) =~= all);
    ids
}

/// The rank of a child among the focused ids.
fn rank_of(ids: &Vec<i64>, child: &Json) -> (r: usize)
    ensures
        r == rank(ids@, child@),
        r <= ids@.len(),
{
    let id: i64 = match child.signed_field("id") {
        Some(id) => id,
        None => return ids.len(),
    };
    let mut i: usize = 0;
    assert(ids@.skip(0) =~= ids@);
    while i < ids.len()
        invariant
            i <= ids@.len(),
            child@.signed_field("id"@) == Some(id),
            place(ids@, id) == i + place(ids@.skip(i as int), id),
        decreases ids@.len() - i,
    {
        assert(ids@.skip(i as int)[0] == ids@[i as int]);
        if ids[i] == id {
            return i;
        }
        assert(ids@.skip(i as int).drop_first() =~= ids@.skip(i + 1));
        i += 1;
    }
    i
}

/// Appends the children of one rank.
fn push_ranked<'a>(
    kids: &Vec<&'a Json>,
    ranks: &Vec<usize>,
    r: usize,
    out: &mut Vec<&'a Json>,
    Ghost(ids): Ghost<Seq<i64>>,
)
    requires
        kids@.len() == ranks@.len(),
        forall|i: int|
            0 <= i < kids@.len() ==> #[trigger] ranks@[i] == rank(ids, kids@[i]@),
    ensures
        ref_views(final(out)@) == ref_views(old(out)@) + ref_views(kids@).filter(
            rank_test(ids, r as int),
        ),
{
    let ghost before = ref_views(out@);
    let ghost all = ref_views(kids@);
    let ghost test = rank_test(ids, r as int);
    let mut i: usize = 0;
    proof {
        reveal(Seq::filter);
        assert(all.take(0).len() == 0);
        assert(ref_views(out@) =~= before + all.take(0).filter(test));
    }
    while i < kids.len()
        invariant
            i <= kids@.len(),
            kids@.len() == ranks@.len(),
            all == ref_views(kids@),
            test == rank_test(ids, r as int),
            forall|k: int|
                0 <= k < kids@.len() ==> #[trigger] ranks@[k] == rank(ids, kids@[k]@),
            ref_views(out@) == before + all.take(i as int).filter(test),
        decreases kids@.len() - i,
    {
        let ghost so_far = out@;
        proof {
            reveal(Seq::filter);
            assert(all.take(i + 1).drop_last() =~= all.take(i as int));
            assert(all.take(i + 1).last() == kids@[i as int]@);
        }
        if ranks[i] == r {
            out.push(kids[i]);
            assert(ref_views(out@) =~= ref_views(so_far).push(kids@[i as int]@));
            assert(before + all.take(i + 1).filter(test) =~= (before + all.take(i as int).filter(
                test,
            )).push(kids@[i as int]@));
        }
        i += 1;
    }
    assert(all.take(all.len() as int) =~= all);
}

/// The children of a node, most recently focused first.
fn by_focus_of<'a>(node: &'a Json) -> (kids: Vec<&'a Json>)
    ensures
        ref_views(kids@) == by_focus(node@),
{
    let focus = focus_of(node);
    let kids = children_of(node);
    let ghost ids = focus@;
    let mut ranks: Vec<usize> = Vec::new();
    let mut i: usize = 0;
    while i < kids.len()
        invariant
            i <= kids@.len(),
            i == ranks@.len(),
            ids == focus@,
            forall|k: int| 0 <= k < i ==> #[trigger] ranks@[k] == rank(ids, kids@[k]@),
        decreases kids@.len() - i,
    {
        ranks.push(rank_of(&focus, kids[i]));
        i += 1;
    }
    let ghost parts = Seq::new(
        focus_ids(node@).len() + 1,
        |r: int| children_ranked(node@, r),
    );
    let mut ordered: Vec<&'a Json> = Vec::new();
    let mut r: usize = 0;
    proof {
        lemma_flatten_none(parts);
        assert(ref_views(ordered@) =~= parts.take(0).flatten());
    }
    while r < focus.len()
        invariant
            r <= focus@.len(),
            ids == focus@,
            ids == focus_ids(node@),
            ref_views(kids@) == children(node@),
            kids@.len() == ranks@.len(),
            forall|k: int|
                0 <= k < kids@.len() ==> #[trigger] ranks@[k] == rank(ids, kids@[k]@),
            parts.len() == ids.len() + 1,
            forall|k: int|
                0 <= k < parts.len() ==> #[trigger] parts[k] == children_ranked(node@, k),
            ref_views(ordered@) == parts.take(r as int).flatten(),
        decreases focus@.len() - r,
    {
        push_ranked(&kids, &ranks, r, &mut ordered, Ghost(ids));
        proof {
            lemma_flatten_take(parts, r as int);
        }
        r += 1;
    }
    push_ranked(&kids, &ranks, r, &mut ordered, Ghost(ids));
    proof {
        lemma_flatten_take(parts, r as int);
        lemma_flatten_all(parts);
    }
    ordered
}

/// Appends the windows of a tree, most recently focused first.
pub fn collect_focus_order(node: &Json, out: &mut Vec<String>)
    ensures
        texts(final(out)@) == texts(old(out)@) + focus_order(node@),
    decreases node@,
{
    let ghost tree = node@;
    let ghost before = texts(out@);
    if let Some(id) = node.text_field("foreign_toplevel_identifier") {
        if !id.is_empty() {
            out.push(id.to_owned());
        }
    }
    let ghost own = own_identifier(tree);
    assert(texts(out@) =~= before + own);
    let kids = by_focus_of(node);
    let mut i: usize = 0;
    assert(before + own =~= before + own + focus_order_under(tree, 0));
    while i < kids.len()
        invariant
            i <= kids@.len(),
            tree == node@,
            ref_views(kids@) == by_focus(tree),
            texts(out@) == before + own + focus_order_under(tree, i as nat),
        decreases kids@.len() - i,
    {
        proof {
            lemma_by_focus_children(tree);
            assert(kids@[i as int]@ == by_focus(tree)[i as int]);
        }
        collect_focus_order(kids[i], out);
        assert(before + own + focus_order_under(tree, i as nat) + focus_order(
            by_focus(tree)[i as int],
        ) =~= before + own + focus_order_under(tree, (i + 1) as nat));
        i += 1;
    }
    assert(before + own + focus_order_under(tree, by_focus(tree).len()) =~= before + focus_order(
        tree,
    ));
}

/// Reads sway's focus order out of a `get_tree` reply.
pub fn sway_focus_order_of(root: &Json) -> (focus: FocusOrder)
    ensures
        texts(focus.order@) == focus_order(root@),
        focus.focused is Some <==> focused_window(root@) is Some,
        focus.focused is Some ==> (focus.focused->0)@ == focused_window(root@)->0,
{
    let mut order: Vec<String> = Vec::new();
    assert(texts(order@) =~= Seq::empty());
    collect_focus_order(root, &mut order);
    assert(texts(order@) =~= focus_order(root@));
    let focused = match find_focused(root) {
        Some(n) => if sway_is_window(n) {
            match n.text_field("foreign_toplevel_identifier") {
                Some(id) => if id.is_empty() {
                    None
                } else {
                    Some(id.to_owned())
                },
                None => None,
            }
        } else {
            None
        },
        None => None,
    };
    FocusOrder { order, focused }
}

/// Adds the windows of a tree that sit in the scratchpad. Membership is inherited, hence
/// `in_scratchpad`: sway flags only the node that was moved, so a *container* sent to the
/// scratchpad is the only flagged node while the windows under it still read `none`.
pub fn collect_scratchpad(node: &Json, in_scratchpad: bool, out: &mut Identifiers)
    ensures
        final(out)@ == old(out)@.union(scratchpad(node@, in_scratchpad).to_set()),
    decreases node@,
{
    let ghost tree = node@;
    let ghost before = out@;
    let moved = match node.text_field("scratchpad_state") {
        Some(state) => !same_text(state, "none"),
        None => false,
    };
    let inside = in_scratchpad || moved;
    let ghost own = if inside {
        own_identifier(tree)
    } else {
        Seq::empty()
    };
    if inside {
        if let Some(id) = node.text_field("foreign_toplevel_identifier") {
            if !id.is_empty() {
                out.insert(id.to_owned());
            }
        }
    }
    proof {
        if own.len() > 0 {
            assert(own[0] == own[0]);
            assert(forall|id: Seq<char>| own.contains(id) <==> id == own[0]);
        }
        assert(out@ =~= before.union(own.to_set()));
        assert((own + scratchpad_under(tree, inside, 0)) =~= own);
    }
    let kids = children_of(node);
    let mut i: usize = 0;
    while i < kids.len()
        invariant
            i <= kids@.len(),
            tree == node@,
            ref_views(kids@) == children(tree),
            out@ == before.union((own + scratchpad_under(tree, inside, i as nat)).to_set()),
        decreases kids@.len() - i,
    {
        proof {
            lemma_children_smaller(tree);
            assert(kids@[i as int]@ == children(tree)[i as int]);
        }
        collect_scratchpad(kids[i], inside, out);
        proof {
            let a = own + scratchpad_under(tree, inside, i as nat);
            let b = scratchpad(children(tree)[i as int], inside);
            assert(own + scratchpad_under(tree, inside, (i + 1) as nat) =~= a + b);
            lemma_set_of_add(a, b);
            assert(out@ =~= before.union((a + b).to_set()));
        }
        i += 1;
    }
}

/// The members of two lists in a row.
proof fn lemma_set_of_add(a: Seq<Seq<char>>, b: Seq<Seq<char>>)
    ensures
        (a + b).to_set() == a.to_set().union(b.to_set()),
{
    assert forall|id: Seq<char>|
        a.to_set().contains(id) || b.to_set().contains(id) implies (a + b).to_set().contains(
        id,
    ) by {
        if a.contains(id) {
            let k = choose|k: int| 0 <= k < a.len() && a[k] == id;
            assert((a + b)[k] == id);
        } else {
            let k = choose|k: int| 0 <= k < b.len() && b[k] == id;
            assert((a + b)[a.len() + k] == id);
        }
    }
    assert((a + b).to_set() =~= a.to_set().union(b.to_set()));
}

/// The windows in sway's scratchpad, by `foreign_toplevel_identifier`, out of a `get_tree`
/// reply.
pub fn sway_scratchpad_identifiers(root: &Json) -> (ids: Identifiers)
    ensures
        ids@ == scratchpad(root@, false).to_set(),
{
    let mut ids = StringHashSet::new();
    collect_scratchpad(root, false, &mut ids);
    assert(ids@ =~= scratchpad(root@, false).to_set());
    ids
}

/// The rectangle of the active window, out of a `get_tree` reply. A focused empty workspace
/// is not an active window.
pub fn sway_active_window_rect(root: &Json) -> (region: Option<Region>)
    ensures
        region == active_rect(root@),
{
    let node = find_focused(root)?;
    let container = match node.text_field("type") {
        Some(kind) => same_text(kind, "con") || same_text(kind, "floating_con"),
        None => false,
    };
    let window = sway_is_window(node) || (container && node.has_non_null("name"));
    if !window {
        return None;
    }
    rect_of(node)
}

/// The first item of an array that has the focus.
pub(crate) fn first_focused<'a>(outputs: &'a Json) -> (found: Option<&'a Json>)
    ensures
        found is Some <==> outputs@.items() is Some && first_match(
            outputs@.items()->0,
            focus_test(),
        ) is Some,
        found is Some ==> (found->0)@ == first_match(outputs@.items()->0, focus_test())->0,
{
    let items = outputs.as_array()?;
    let ghost all = outputs@.items()->0;
    let mut i: usize = 0;
    proof {
        lemma_no_match_in_nothing(focus_test());
        assert(all.take(0) =~= Seq::empty());
    }
    while i < items.len()
        invariant
            i <= items@.len(),
            outputs@.items() == Some(all),
            views(items@) == all,
            first_match(all.take(i as int), focus_test()) is None,
        decreases items@.len() - i,
    {
        proof {
            assert(items@[i as int]@ == all[i as int]);
            lemma_first_match_at(all, focus_test(), i as int);
        }
        if items[i].flag_field("focused") == Some(true) {
            return Some(&items[i]);
        }
        i += 1;
    }
    assert(all.take(all.len() as int) =~= all);
    None
}

/// The name of the focused output, out of a `get_outputs` reply.
pub fn sway_focused_output(outputs: &Json) -> (name: Option<String>)
    ensures
        name is Some <==> focused_name(outputs@) is Some,
        name is Some ==> (name->0)@ == focused_name(outputs@)->0,
{
    match first_focused(outputs)?.text_field("name") {
        Some(name) => Some(name.to_owned()),
        None => None,
    }
}

/// A list of strings stands for the list of their characters.
pub proof fn law_texts_are_the_strings(list: Seq<String>)
    ensures
        texts(list).len() == list.len(),
        forall|i: int| 0 <= i < list.len() ==> #[trigger] texts(list)[i] == list[i]@,
{
}

} // verus!
