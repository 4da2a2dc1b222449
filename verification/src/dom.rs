//! The document tree the walker consumes: each node carries literal text, an
//! element head (tag name and attributes), or some other opaque node kind,
//! plus its children in document order.

use vstd::prelude::*;
use crate::text::chars_eq_ignore_case;
use crate::text::eq_ignore_ascii_case;
use crate::text::str_to_chars;

verus! {

/// The payload of a tree node. Node kinds other than text and elements
/// (comments, the document root, doctypes) are all `Other`: the walker
/// traverses them without reading anything from them.
pub enum NodeData {
    Text { content: String },
    Element { tag_name: String, attrs: Vec<(String, String)> },
    Other,
}

/// A node of the document tree; `children` are in document order. The tree is
/// finite by construction and is never mutated by the walker.
pub struct Node {
    pub data: NodeData,
    pub children: Vec<Node>,
}

/// The text a node itself contributes: its literal content for a text node,
/// nothing otherwise.
pub open spec fn own_text(d: NodeData) -> Seq<char> {
    match d {
        NodeData::Text { content } => content@,
        _ => Seq::empty(),
    }
}

/// A bare paragraph: an element whose tag name is `p` up to ASCII case and
/// whose attribute set is empty.
pub open spec fn is_bare_p(d: NodeData) -> bool {
    match d {
        NodeData::Element { tag_name, attrs } => eq_ignore_ascii_case(tag_name@, seq!['p'])
            && attrs@.len() == 0,
        _ => false,
    }
}

/// An element whose tag name is `table` up to ASCII case.
pub open spec fn is_table(d: NodeData) -> bool {
    match d {
        NodeData::Element { tag_name, .. } => eq_ignore_ascii_case(
            tag_name@,
            seq!['t', 'a', 'b', 'l', 'e'],
        ),
        _ => false,
    }
}

/// The concatenation, in document order, of every text node in the subtree.
pub open spec fn all_text(n: Node) -> Seq<char>
    decreases n, 1int, 0int,
{
    own_text(n.data) + all_text_from(n, 0)
}

/// The concatenation of `all_text` over the children of `n` from index `i` on.
pub open spec fn all_text_from(n: Node, i: int) -> Seq<char>
    decreases n, 0int, n.children.len() - i,
{
    if i < 0 || i >= n.children.len() {
        Seq::empty()
    } else {
        all_text(n.children[i]) + all_text_from(n, i + 1)
    }
}

/// Whether the subtree rooted at `n` holds a `table` element anywhere.
pub open spec fn subtree_has_table(n: Node) -> bool
    decreases n, 1int, 0int,
{
    is_table(n.data) || children_have_table(n, 0)
}

/// Whether a `table` element stands in any child subtree of `n` from index `i` on.
pub open spec fn children_have_table(n: Node, i: int) -> bool
    decreases n, 0int, n.children.len() - i,
{
    if i < 0 || i >= n.children.len() {
        false
    } else {
        subtree_has_table(n.children[i]) || children_have_table(n, i + 1)
    }
}

/// Whether the subtree rooted at `n` holds a bare paragraph anywhere.
pub open spec fn subtree_has_bare_p(n: Node) -> bool
    decreases n, 1int, 0int,
{
    is_bare_p(n.data) || children_have_bare_p(n, 0)
}

/// Whether a bare paragraph stands in any child subtree of `n` from index `i` on.
pub open spec fn children_have_bare_p(n: Node, i: int) -> bool
    decreases n, 0int, n.children.len() - i,
{
    if i < 0 || i >= n.children.len() {
        false
    } else {
        subtree_has_bare_p(n.children[i]) || children_have_bare_p(n, i + 1)
    }
}

fn p_pattern() -> (v: Vec<char>)
    ensures
        v@ == seq!['p'],
{
    let mut v: Vec<char> = Vec::new();
    v.push('p');
    proof {
        assert(v@ =~= seq!['p']);
    }
    v
}

fn table_pattern() -> (v: Vec<char>)
    ensures
        v@ == seq!['t', 'a', 'b', 'l', 'e'],
{
    let mut v: Vec<char> = Vec::new();
    v.push('t');
    v.push('a');
    v.push('b');
    v.push('l');
    v.push('e');
    proof {
        assert(v@ =~= seq!['t', 'a', 'b', 'l', 'e']);
    }
    v
}

/// Decides whether a node payload is a bare paragraph.
pub fn data_is_bare_p(d: &NodeData) -> (r: bool)
    ensures
        r == is_bare_p(*d),
{
    match d {
        NodeData::Element { tag_name, attrs } => {
            let tchars = str_to_chars(tag_name.as_str());
            let pat = p_pattern();
            chars_eq_ignore_case(&tchars, &pat) && attrs.len() == 0
        },
        _ => false,
    }
}

/// Decides whether a node payload is a `table` element.
pub fn data_is_table(d: &NodeData) -> (r: bool)
    ensures
        r == is_table(*d),
{
    match d {
        NodeData::Element { tag_name, .. } => {
            let tchars = str_to_chars(tag_name.as_str());
            let pat = table_pattern();
            chars_eq_ignore_case(&tchars, &pat)
        },
        _ => false,
    }
}

} // verus!
