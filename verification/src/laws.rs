//! Laws of the tree walker: where capture can start, what it captures, and
//! when it cannot start at all.

use vstd::prelude::*;
use crate::dom::Node;
use crate::dom::NodeData;
use crate::dom::all_text;
use crate::dom::all_text_from;
use crate::dom::children_have_bare_p;
use crate::dom::children_have_table;
use crate::dom::is_bare_p;
use crate::dom::is_table;
use crate::dom::own_text;
use crate::dom::subtree_has_bare_p;
use crate::dom::subtree_has_table;
use crate::walker::WalkOut;
use crate::walker::extracted_text;
use crate::walker::step_flags;
use crate::walker::walk_children;
use crate::walker::walk_node;

verus! {

/// The outcome of looking for the walker's trigger in preorder: either the
/// first bare paragraph reached while armed, or the value the armed flag has
/// after the whole subtree has been scanned.
pub enum TrigSearch {
    Found { p: Node },
    NotFound { armed: bool },
}

/// Preorder search for the trigger, starting at `n` with the given armed
/// flag: a bare paragraph met while armed is the trigger; a `table` element
/// arms the search; the flag is threaded through the children left to right.
pub open spec fn find_trigger(n: Node, armed: bool) -> TrigSearch
    decreases n, 1int, 0int,
{
    if is_bare_p(n.data) && armed {
        TrigSearch::Found { p: n }
    } else {
        let armed1 = if is_bare_p(n.data) {
            armed
        } else if is_table(n.data) {
            true
        } else {
            armed
        };
        find_trigger_children(n, 0, armed1)
    }
}

/// Preorder trigger search over the children of `n` from index `i` on.
pub open spec fn find_trigger_children(n: Node, i: int, armed: bool) -> TrigSearch
    decreases n, 0int, n.children.len() - i,
{
    if i < 0 || i >= n.children.len() {
        TrigSearch::NotFound { armed }
    } else {
        match find_trigger(n.children[i], armed) {
            TrigSearch::Found { p } => TrigSearch::Found { p },
            TrigSearch::NotFound { armed: a2 } => find_trigger_children(n, i + 1, a2),
        }
    }
}

/// No element is a bare paragraph and a `table` at once: the tag names have
/// different lengths.
proof fn lemma_bare_p_not_table(d: NodeData)
    ensures
        !(is_bare_p(d) && is_table(d)),
{
}

/// Once searching is over, a subtree visited with emission off is skipped
/// whole: nothing is captured and the flags pass through unchanged.
proof fn lemma_skip_children(n: Node, i: int, armed: bool)
    ensures
        walk_children(n, i, false, false, armed) == (WalkOut {
            text: Seq::<char>::empty(),
            searching: false,
            armed,
        }),
    decreases n.children.len() - i,
{
    if 0 <= i < n.children.len() {
        lemma_skip_children(n, i + 1, armed);
        let first = walk_node(n.children[i], false, false, armed);
        assert(first == (WalkOut { text: Seq::<char>::empty(), searching: false, armed }));
        let rest = walk_children(n, i + 1, false, false, armed);
        assert(first.text + rest.text =~= Seq::<char>::empty());
    }
}

/// Once the trigger has fired, a subtree visited with emission on yields all
/// of its text, and the armed flag records whether a `table` stood in it.
proof fn lemma_emit_node(n: Node, armed: bool)
    ensures
        walk_node(n, true, false, armed) == (WalkOut {
            text: all_text(n),
            searching: false,
            armed: armed || subtree_has_table(n),
        }),
    decreases n, 1int, 0int,
{
    lemma_bare_p_not_table(n.data);
    let fl = step_flags(n.data, true, false, armed);
    assert(fl == (true, false, armed || is_table(n.data)));
    lemma_emit_children(n, 0, armed || is_table(n.data));
    assert(walk_node(n, true, false, armed).text =~= all_text(n));
}

/// `lemma_emit_node`, over the children of `n` from index `i` on.
proof fn lemma_emit_children(n: Node, i: int, armed: bool)
    ensures
        walk_children(n, i, true, false, armed) == (WalkOut {
            text: all_text_from(n, i),
            searching: false,
            armed: armed || children_have_table(n, i),
        }),
    decreases n, 0int, n.children.len() - i,
{
    if 0 <= i < n.children.len() {
        lemma_emit_node(n.children[i], armed);
        lemma_emit_children(n, i + 1, armed || subtree_has_table(n.children[i]));
    } else {
        assert(walk_children(n, i, true, false, armed).text =~= all_text_from(n, i));
    }
}

/// The heart of the walker: begun in search mode, the walk either finds the
/// first bare paragraph reached while armed and captures exactly the text of
/// that paragraph's subtree — nothing before it, nothing after it — or finds
/// no trigger and captures nothing.
pub proof fn lemma_walk_characterized(n: Node, armed: bool)
    ensures
        ({
            match find_trigger(n, armed) {
                TrigSearch::Found { p } => is_bare_p(p.data) && walk_node(n, false, true, armed)
                    == (WalkOut {
                    text: all_text(p),
                    searching: false,
                    armed: subtree_has_table(p),
                }),
                TrigSearch::NotFound { armed: a2 } => walk_node(n, false, true, armed)
                    == (WalkOut { text: Seq::<char>::empty(), searching: true, armed: a2 }),
            }
        }),
    decreases n, 1int, 0int,
{
    lemma_bare_p_not_table(n.data);
    if is_bare_p(n.data) && armed {
        lemma_emit_children(n, 0, false);
        assert(own_text(n.data) =~= Seq::<char>::empty());
        assert(walk_node(n, false, true, armed).text =~= all_text(n));
        assert(subtree_has_table(n) == children_have_table(n, 0));
    } else {
        let armed1 = if is_bare_p(n.data) {
            armed
        } else if is_table(n.data) {
            true
        } else {
            armed
        };
        assert(step_flags(n.data, false, true, armed) == (false, true, armed1));
        lemma_walk_children_characterized(n, 0, armed1);
        let wc = walk_children(n, 0, false, true, armed1);
        assert(walk_node(n, false, true, armed).text =~= wc.text);
    }
}

/// `lemma_walk_characterized`, over the children of `n` from index `i` on.
proof fn lemma_walk_children_characterized(n: Node, i: int, armed: bool)
    ensures
        ({
            match find_trigger_children(n, i, armed) {
                TrigSearch::Found { p } => is_bare_p(p.data) && walk_children(
                    n,
                    i,
                    false,
                    true,
                    armed,
                ) == (WalkOut { text: all_text(p), searching: false, armed: subtree_has_table(p) }),
                TrigSearch::NotFound { armed: a2 } => walk_children(n, i, false, true, armed)
                    == (WalkOut { text: Seq::<char>::empty(), searching: true, armed: a2 }),
            }
        }),
    decreases n, 0int, n.children.len() - i,
{
    if 0 <= i < n.children.len() {
        let child = n.children[i];
        lemma_walk_characterized(child, armed);
        match find_trigger(child, armed) {
            TrigSearch::Found { p } => {
                lemma_skip_children(n, i + 1, subtree_has_table(p));
                assert(all_text(p) + Seq::<char>::empty() =~= all_text(p));
            },
            TrigSearch::NotFound { armed: a2 } => {
                lemma_walk_children_characterized(n, i + 1, a2);
                let rest = walk_children(n, i + 1, false, true, a2);
                assert(Seq::<char>::empty() + rest.text =~= rest.text);
            },
        }
    }
}

/// Law: capture begins exactly at the first bare paragraph reached, in
/// document order, while a `table` has armed the walker, and yields the full
/// text of that paragraph's subtree; a walk that finds no such paragraph
/// yields nothing.
pub proof fn lemma_capture_starts_at_trigger(root: Node)
    ensures
        ({
            match find_trigger(root, false) {
                TrigSearch::Found { p } => is_bare_p(p.data) && extracted_text(root) == all_text(p),
                TrigSearch::NotFound { armed: _ } => extracted_text(root) == Seq::<char>::empty(),
            }
        }),
{
    lemma_walk_characterized(root, false);
}

/// Without a `table` element the search can never become armed, so no
/// trigger is found.
proof fn lemma_no_table_no_trigger(n: Node)
    requires
        !subtree_has_table(n),
    ensures
        find_trigger(n, false) == (TrigSearch::NotFound { armed: false }),
    decreases n, 1int, 0int,
{
    lemma_no_table_children_no_trigger(n, 0);
}

/// `lemma_no_table_no_trigger`, over the children of `n` from index `i` on.
proof fn lemma_no_table_children_no_trigger(n: Node, i: int)
    requires
        !children_have_table(n, i),
    ensures
        find_trigger_children(n, i, false) == (TrigSearch::NotFound { armed: false }),
    decreases n, 0int, n.children.len() - i,
{
    if 0 <= i < n.children.len() {
        lemma_no_table_no_trigger(n.children[i]);
        lemma_no_table_children_no_trigger(n, i + 1);
    }
}

/// Law: a tree without a `table` element yields the empty extraction.
pub proof fn lemma_no_table_yields_empty(root: Node)
    requires
        !subtree_has_table(root),
    ensures
        extracted_text(root) == Seq::<char>::empty(),
{
    lemma_no_table_no_trigger(root);
    lemma_capture_starts_at_trigger(root);
}

/// Without a bare paragraph no trigger is found, however the search is armed.
proof fn lemma_no_bare_p_no_trigger(n: Node, armed: bool)
    requires
        !subtree_has_bare_p(n),
    ensures
        find_trigger(n, armed) matches TrigSearch::NotFound { .. },
    decreases n, 1int, 0int,
{
    let armed1 = if is_bare_p(n.data) {
        armed
    } else if is_table(n.data) {
        true
    } else {
        armed
    };
    lemma_no_bare_p_children_no_trigger(n, 0, armed1);
}

/// `lemma_no_bare_p_no_trigger`, over the children of `n` from index `i` on.
proof fn lemma_no_bare_p_children_no_trigger(n: Node, i: int, armed: bool)
    requires
        !children_have_bare_p(n, i),
    ensures
        find_trigger_children(n, i, armed) matches TrigSearch::NotFound { .. },
    decreases n, 0int, n.children.len() - i,
{
    if 0 <= i < n.children.len() {
        lemma_no_bare_p_no_trigger(n.children[i], armed);
        let a2 = find_trigger(n.children[i], armed)->NotFound_armed;
        lemma_no_bare_p_children_no_trigger(n, i + 1, a2);
    }
}

/// Law: paragraphs with a non-empty attribute set never trigger capture,
/// even after a `table`: a tree without a bare paragraph yields the empty
/// extraction.
pub proof fn lemma_attributed_p_never_triggers(root: Node)
    requires
        !subtree_has_bare_p(root),
    ensures
        extracted_text(root) == Seq::<char>::empty(),
{
    lemma_no_bare_p_no_trigger(root, false);
    lemma_capture_starts_at_trigger(root);
}

} // verus!
