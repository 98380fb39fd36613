use vstd::prelude::*;

use crate::text::chars_of;

verus! {

#[verifier::external_type_specification]
#[verifier::external_body]
pub struct ExNode(html_parser::Node);

/// A node of parsed markup: the part of a markup tree that extraction reads.
pub enum MarkupNode {
    Text(String),
    Element(MarkupElement),
    Comment(String),
}

/// An element of parsed markup: its tag name, its classes and its children.
pub struct MarkupElement {
    pub name: String,
    pub classes: Vec<String>,
    pub children: Vec<MarkupNode>,
}

/// What html_parser makes of a markup string: its top-level nodes, or
/// nothing where the markup does not parse.
pub uninterp spec fn parsed_markup(s: Seq<char>) -> Option<Seq<MarkupNode>>;

/// Relies on html_parser's public `Node` fields: copies one parsed node into
/// the library's tree, variant for variant.
#[verifier::external_body]
fn node_from(n: &html_parser::Node) -> MarkupNode {
    match n {
        html_parser::Node::Text(t) => MarkupNode::Text(t.clone()),
        html_parser::Node::Comment(t) => MarkupNode::Comment(t.clone()),
        html_parser::Node::Element(e) => MarkupNode::Element(MarkupElement {
            name: e.name.clone(),
            classes: e.classes.clone(),
            children: e.children.iter().map(node_from).collect(),
        }),
    }
}

/// Relies on html_parser::Dom::parse: the top-level nodes of the markup, or
/// `None` where the parser reports an error. The result depends on the
/// markup alone.
#[verifier::external_body]
pub(crate) fn parse_markup(s: &str) -> (r: Option<Vec<MarkupNode>>)
    ensures
        match r {
            Some(v) => parsed_markup(s@) == Some(v@),
            None => parsed_markup(s@) is None,
        },
{
    html_parser::Dom::parse(s).ok().map(|d| d.children.iter().map(node_from).collect())
}

/// The text of a node that is a text node.
pub open spec fn text_of(n: MarkupNode) -> Option<Seq<char>> {
    match n {
        MarkupNode::Text(t) => Some(t@),
        _ => None,
    }
}

/// The text of the first child of `e`, where that child is a text node.
pub open spec fn first_child_text(e: MarkupElement) -> Option<Seq<char>> {
    if e.children@.len() > 0 {
        text_of(e.children@[0])
    } else {
        None
    }
}

/// `e` carries the class `c`.
pub open spec fn has_class(e: MarkupElement, c: Seq<char>) -> bool {
    exists|k: int| 0 <= k < e.classes@.len() && e.classes@[k]@ == c
}

/// A node that opens a block: an element other than a line break.
pub open spec fn is_block(n: MarkupNode) -> bool {
    match n {
        MarkupNode::Element(e) => e.name@ != "br"@,
        _ => false,
    }
}

/// `i` is the position of the first block among `nodes`.
pub open spec fn is_first_block(nodes: Seq<MarkupNode>, i: int) -> bool {
    0 <= i < nodes.len() && is_block(nodes[i]) && forall|j: int| 0 <= j < i ==> !is_block(nodes[j])
}

/// The first block among `nodes`, if any.
pub open spec fn first_block(nodes: Seq<MarkupNode>) -> Option<MarkupElement> {
    if exists|i: int| is_first_block(nodes, i) {
        let i = choose|i: int| is_first_block(nodes, i);
        Some(nodes[i]->Element_0)
    } else {
        None
    }
}

/// Whether two strings hold the same characters.
pub fn same_text(a: &str, b: &str) -> (r: bool)
    ensures
        r == (a@ == b@),
{
    let x = chars_of(a);
    let y = chars_of(b);
    if x.len() != y.len() {
        return false;
    }
    let mut k: usize = 0;
    while k < x.len()
        invariant
            x@ == a@,
            y@ == b@,
            x@.len() == y@.len(),
            k <= x@.len(),
            forall|m: int| 0 <= m < k ==> x@[m] == y@[m],
        decreases x@.len() - k,
    {
        if x[k] != y[k] {
            return false;
        }
        k = k + 1;
    }
    assert(x@ =~= y@);
    true
}

/// Whether `e` carries the class `c`.
pub fn element_has_class(e: &MarkupElement, c: &str) -> (r: bool)
    ensures
        r == has_class(*e, c@),
{
    let mut k: usize = 0;
    while k < e.classes.len()
        invariant
            k <= e.classes@.len(),
            forall|m: int| 0 <= m < k ==> e.classes@[m]@ != c@,
        decreases e.classes@.len() - k,
    {
        if same_text(e.classes[k].as_str(), c) {
            return true;
        }
        k = k + 1;
    }
    false
}

/// The first block among `nodes`, if any.
pub fn find_first_block(nodes: &Vec<MarkupNode>) -> (r: Option<&MarkupElement>)
    ensures
        match r {
            Some(e) => first_block(nodes@) == Some(*e),
            None => first_block(nodes@) is None,
        },
{
    let mut i: usize = 0;
    while i < nodes.len()
        invariant
            i <= nodes@.len(),
            forall|j: int| 0 <= j < i ==> !is_block(nodes@[j]),
        decreases nodes@.len() - i,
    {
        match &nodes[i] {
            MarkupNode::Element(e) => {
                if !same_text(e.name.as_str(), "br") {
                    proof {
                        assert(is_first_block(nodes@, i as int));
                        let c = choose|c: int| is_first_block(nodes@, c);
                        if c < i {
                            assert(!is_block(nodes@[c]));
                        } else if i < c {
                            assert(!is_block(nodes@[i as int]));
                        }
                    }
                    return Some(e);
                }
            },
            _ => {},
        }
        i = i + 1;
    }
    None
}

/// The text of a node that is a text node.
pub fn node_text(n: &MarkupNode) -> (r: Option<&String>)
    ensures
        match r {
            Some(t) => text_of(*n) == Some(t@),
            None => text_of(*n) is None,
        },
{
    match n {
        MarkupNode::Text(t) => Some(t),
        _ => None,
    }
}

/// The text of the first child of `e`, where that child is a text node.
pub fn element_first_text(e: &MarkupElement) -> (r: Option<&String>)
    ensures
        match r {
            Some(t) => first_child_text(*e) == Some(t@),
            None => first_child_text(*e) is None,
        },
{
    if e.children.len() > 0 {
        node_text(&e.children[0])
    } else {
        None
    }
}

} // verus!
