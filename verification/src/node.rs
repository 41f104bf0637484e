//! The node tree: an ordered, rooted tree of element and text nodes, together
//! with its mathematical model.

use vstd::prelude::*;

verus! {

/// Mathematical model of a node: either an element with a tag, attributes,
/// inline style declarations and ordered children, or a text leaf.
#[verifier::ext_equal]
pub enum NodeModel {
    Element {
        tag: Seq<char>,
        attrs: Seq<(Seq<char>, Seq<char>)>,
        styles: Seq<(Seq<char>, Seq<char>)>,
        children: Seq<NodeModel>,
    },
    Text(Seq<char>),
}

/// A displayable node. An element carries a tag identity, named attributes,
/// opaque style declarations, and an ordered list of children; a text node is
/// an immutable string leaf and never has children.
#[derive(Debug, PartialEq)]
pub enum Node {
    Element {
        tag: String,
        attrs: Vec<(String, String)>,
        styles: Vec<(String, String)>,
        children: Vec<Node>,
    },
    Text(String),
}

/// The model of an attribute or style pair: both strings as character
/// sequences.
pub open spec fn pair_model(p: (String, String)) -> (Seq<char>, Seq<char>) {
    (p.0@, p.1@)
}

/// The models of a sequence of attribute or style pairs, in order.
pub open spec fn pairs_model(ps: Seq<(String, String)>) -> Seq<(Seq<char>, Seq<char>)> {
    ps.map_values(|p: (String, String)| pair_model(p))
}

/// The model of a node: the same tree with every string replaced by its
/// character sequence.
pub open spec fn node_model(n: Node) -> NodeModel
    decreases n,
{
    match n {
        Node::Text(s) => NodeModel::Text(s@),
        Node::Element { tag, attrs, styles, children } => NodeModel::Element {
            tag: tag@,
            attrs: pairs_model(attrs@),
            styles: pairs_model(styles@),
            children: nodes_model(children@),
        },
    }
}

/// The models of a sequence of nodes, in order.
pub open spec fn nodes_model(s: Seq<Node>) -> Seq<NodeModel>
    decreases s,
{
    if s.len() == 0 {
        Seq::empty()
    } else {
        seq![node_model(s[0])] + nodes_model(s.subrange(1, s.len() as int))
    }
}

/// `nodes_model` maps `node_model` over the sequence, element by element.
pub proof fn lemma_nodes_model(s: Seq<Node>)
    ensures
        nodes_model(s).len() == s.len(),
        forall|i: int| 0 <= i < s.len() ==> nodes_model(s)[i] == node_model(s[i]),
    decreases s.len(),
{
    if s.len() > 0 {
        lemma_nodes_model(s.subrange(1, s.len() as int));
    }
}

/// Appending a node appends its model.
pub proof fn lemma_nodes_model_push(s: Seq<Node>, x: Node)
    ensures
        nodes_model(s.push(x)) == nodes_model(s).push(node_model(x)),
{
    lemma_nodes_model(s.push(x));
    lemma_nodes_model(s);
    assert(nodes_model(s.push(x)) =~= nodes_model(s).push(node_model(x)));
}

impl View for Node {
    type V = NodeModel;

    open spec fn view(&self) -> NodeModel {
        node_model(*self)
    }
}

impl Node {
    /// Builds a text leaf.
    pub fn text(s: String) -> (r: Node)
        ensures
            r@ == NodeModel::Text(s@),
    {
        Node::Text(s)
    }

    /// Builds an element node from its tag, attributes, style declarations
    /// and ordered children.
    pub fn element(
        tag: String,
        attrs: Vec<(String, String)>,
        styles: Vec<(String, String)>,
        children: Vec<Node>,
    ) -> (r: Node)
        ensures
            r@ == (NodeModel::Element {
                tag: tag@,
                attrs: pairs_model(attrs@),
                styles: pairs_model(styles@),
                children: nodes_model(children@),
            }),
    {
        Node::Element { tag, attrs, styles, children }
    }
}

} // verus!
