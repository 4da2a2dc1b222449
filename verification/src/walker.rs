//! The extraction state machine: a single depth-first pass that looks for the
//! first bare paragraph after a `table` element and collects the text of that
//! paragraph's subtree.

use vstd::prelude::*;
use vstd::string::StringExecFns;
use crate::dom::Node;
use crate::dom::NodeData;
use crate::dom::data_is_bare_p;
use crate::dom::data_is_table;
use crate::dom::is_bare_p;
use crate::dom::is_table;
use crate::dom::own_text;

verus! {

/// The outcome of walking one subtree: the text appended to the collector and
/// the final values of the two shared flags.
pub ghost struct WalkOut {
    pub text: Seq<char>,
    pub searching: bool,
    pub armed: bool,
}

/// How visiting one node changes the walker's state: the emission flag handed
/// to the node's children, then the shared `searching` and `armed` flags. A
/// bare paragraph met while searching and armed fires the trigger; a `table`
/// element arms the walker; everything else changes nothing.
pub open spec fn step_flags(d: NodeData, emit: bool, searching: bool, armed: bool) -> (bool, bool, bool) {
    if is_bare_p(d) {
        if searching && armed {
            (true, false, false)
        } else {
            (emit, searching, armed)
        }
    } else if is_table(d) {
        (emit, searching, true)
    } else {
        (emit, searching, armed)
    }
}

/// What one recursive visit of `n` produces. A visit with emission off and
/// searching over is skipped whole; otherwise the node's own text is taken
/// when emitting, the trigger rule is applied, and the children are visited
/// in document order with the two shared flags threaded through them.
pub open spec fn walk_node(n: Node, emit: bool, searching: bool, armed: bool) -> WalkOut
    decreases n, 1int, 0int,
{
    if !emit && !searching {
        WalkOut { text: Seq::empty(), searching, armed }
    } else {
        let own = if emit {
            own_text(n.data)
        } else {
            Seq::empty()
        };
        let fl = step_flags(n.data, emit, searching, armed);
        let rest = walk_children(n, 0, fl.0, fl.1, fl.2);
        WalkOut { text: own + rest.text, searching: rest.searching, armed: rest.armed }
    }
}

/// The combined outcome of visiting the children of `n` from index `i` on,
/// each with the same emission flag, the shared flags threaded left to right.
pub open spec fn walk_children(n: Node, i: int, emit: bool, searching: bool, armed: bool) -> WalkOut
    decreases n, 0int, n.children.len() - i,
{
    if i < 0 || i >= n.children.len() {
        WalkOut { text: Seq::empty(), searching, armed }
    } else {
        let first = walk_node(n.children[i], emit, searching, armed);
        let rest = walk_children(n, i + 1, emit, first.searching, first.armed);
        WalkOut { text: first.text + rest.text, searching: rest.searching, armed: rest.armed }
    }
}

/// The text the walker extracts from a whole tree: it starts searching,
/// unarmed and not yet emitting.
pub open spec fn extracted_text(root: Node) -> Seq<char> {
    walk_node(root, false, true, false).text
}

/// One recursive visit of the walker. `is_important` is the emission flag for
/// this subtree; `is_searching_info` and `is_next_important` are the shared
/// searching and armed flags; text is appended to `collector`.
pub fn parse(
    is_important: bool,
    is_searching_info: &mut bool,
    is_next_important: &mut bool,
    handle: &Node,
    collector: &mut String,
)
    ensures
        ({
            let out = walk_node(
                *handle,
                is_important,
                *old(is_searching_info),
                *old(is_next_important),
            );
            &&& final(collector)@ == old(collector)@ + out.text
            &&& *final(is_searching_info) == out.searching
            &&& *final(is_next_important) == out.armed
        }),
    decreases *handle,
{
    if !is_important && !*is_searching_info {
        proof {
            assert(collector@ + Seq::<char>::empty() =~= collector@);
        }
        return;
    }
    let ghost s0 = *is_searching_info;
    let ghost a0 = *is_next_important;
    let ghost own = if is_important {
        own_text(handle.data)
    } else {
        Seq::<char>::empty()
    };
    if let NodeData::Text { content } = &handle.data {
        if is_important {
            collector.append(content.as_str());
        }
    }
    proof {
        assert(collector@ =~= old(collector)@ + own);
    }
    let mut next_command = is_important;
    if data_is_bare_p(&handle.data) {
        if *is_searching_info && *is_next_important {
            next_command = true;
            *is_searching_info = false;
            *is_next_important = false;
        }
    } else if data_is_table(&handle.data) {
        *is_next_important = true;
    }
    proof {
        assert((next_command, *is_searching_info, *is_next_important) == step_flags(
            handle.data,
            is_important,
            s0,
            a0,
        ));
    }
    let ghost s1 = *is_searching_info;
    let ghost a1 = *is_next_important;
    let ghost base = collector@;
    proof {
        assert(collector@.skip(base.len() as int) =~= Seq::<char>::empty());
        assert(collector@.take(base.len() as int) =~= base);
        assert(Seq::<char>::empty() + walk_children(*handle, 0, next_command, s1, a1).text
            =~= walk_children(*handle, 0, next_command, s1, a1).text);
    }
    let mut i: usize = 0;
    while i < handle.children.len()
        invariant
            i <= handle.children.len(),
            base.len() <= collector@.len(),
            collector@.take(base.len() as int) == base,
            ({
                let done = collector@.skip(base.len() as int);
                let rem = walk_children(
                    *handle,
                    i as int,
                    next_command,
                    *is_searching_info,
                    *is_next_important,
                );
                let whole = walk_children(*handle, 0, next_command, s1, a1);
                &&& whole.text == done + rem.text
                &&& whole.searching == rem.searching
                &&& whole.armed == rem.armed
            }),
        decreases handle.children.len() - i,
    {
        let ghost before = collector@;
        let ghost si = *is_searching_info;
        let ghost ai = *is_next_important;
        let ghost child_out = walk_node(handle.children@[i as int], next_command, si, ai);
        parse(
            next_command,
            is_searching_info,
            is_next_important,
            &handle.children[i],
            collector,
        );
        proof {
            assert(collector@.take(base.len() as int) =~= base);
            assert(collector@.skip(base.len() as int) =~= before.skip(base.len() as int)
                + child_out.text);
            assert(before.skip(base.len() as int) + (child_out.text + walk_children(
                *handle,
                i as int + 1,
                next_command,
                *is_searching_info,
                *is_next_important,
            ).text) =~= (before.skip(base.len() as int) + child_out.text) + walk_children(
                *handle,
                i as int + 1,
                next_command,
                *is_searching_info,
                *is_next_important,
            ).text);
        }
        i += 1;
    }
    proof {
        let whole = walk_children(*handle, 0, next_command, s1, a1);
        assert(collector@ =~= base + collector@.skip(base.len() as int));
        assert((old(collector)@ + own) + whole.text =~= old(collector)@ + (own + whole.text));
    }
}

/// Walks a whole tree and returns the collected raw text.
pub fn get_info(handle: &Node) -> (result: String)
    ensures
        result@ == extracted_text(*handle),
{
    let mut worth_starting = true;
    let mut result = String::new();
    let mut next_ready = false;
    parse(false, &mut worth_starting, &mut next_ready, handle, &mut result);
    proof {
        assert(Seq::<char>::empty() + extracted_text(*handle) =~= extracted_text(*handle));
    }
    result
}

} // verus!
