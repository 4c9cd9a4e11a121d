//! The node tree the parser produces and the emitter consumes.
//!
//! Each executable type has a spec-level mirror over `Seq`, reached
//! through a deep view; the parser and emitter contracts are stated
//! over the mirrors.

use vstd::prelude::*;

verus! {

/// An attribute value as scanned.
pub enum AttrValue {
    /// A boolean attribute written with no value.
    BoolTrue,
    /// Quoted or unquoted scanned text, unescaped.
    Str(Vec<char>),
    /// Raw text captured between `{` and the first `}`, passed through
    /// verbatim.
    JsExpr(Vec<char>),
}

/// An element: tag, attributes in insertion order, children.
pub struct ElementNode {
    pub tag: Vec<char>,
    pub attrs: Vec<(Vec<char>, AttrValue)>,
    pub children: Vec<Node>,
    pub self_closing: bool,
}

/// A node of the template tree.
pub enum Node {
    Element(ElementNode),
    Text(Vec<char>),
}

/// Spec-level mirror of `AttrValue`.
pub enum SpecAttrValue {
    BoolTrue,
    Str(Seq<char>),
    JsExpr(Seq<char>),
}

/// Spec-level mirror of `ElementNode`.
pub struct SpecElement {
    pub tag: Seq<char>,
    pub attrs: Seq<(Seq<char>, SpecAttrValue)>,
    pub children: Seq<SpecNode>,
    pub self_closing: bool,
}

/// Spec-level mirror of `Node`.
pub enum SpecNode {
    Element(SpecElement),
    Text(Seq<char>),
}

impl AttrValue {
    pub open spec fn deep(self) -> SpecAttrValue {
        match self {
            AttrValue::BoolTrue => SpecAttrValue::BoolTrue,
            AttrValue::Str(s) => SpecAttrValue::Str(s@),
            AttrValue::JsExpr(e) => SpecAttrValue::JsExpr(e@),
        }
    }
}

pub open spec fn deep_attr(a: (Vec<char>, AttrValue)) -> (Seq<char>, SpecAttrValue) {
    (a.0@, a.1.deep())
}

pub open spec fn deep_attrs(l: Seq<(Vec<char>, AttrValue)>) -> Seq<(Seq<char>, SpecAttrValue)> {
    l.map_values(|a: (Vec<char>, AttrValue)| deep_attr(a))
}

impl ElementNode {
    pub open spec fn deep(self) -> SpecElement
        decreases self,
    {
        SpecElement {
            tag: self.tag@,
            attrs: deep_attrs(self.attrs@),
            children: deep_nodes(self.children@),
            self_closing: self.self_closing,
        }
    }
}

impl Node {
    pub open spec fn deep(self) -> SpecNode
        decreases self,
    {
        match self {
            Node::Text(t) => SpecNode::Text(t@),
            Node::Element(e) => SpecNode::Element(e.deep()),
        }
    }
}

/// Deep view of a sequence of nodes.
pub open spec fn deep_nodes(ns: Seq<Node>) -> Seq<SpecNode>
    decreases ns,
{
    if ns.len() == 0 {
        Seq::empty()
    } else {
        seq![ns[0].deep()] + deep_nodes(ns.drop_first())
    }
}

/// The deep view keeps the length and maps each node in place.
pub proof fn lemma_deep_nodes(ns: Seq<Node>)
    ensures
        deep_nodes(ns).len() == ns.len(),
        forall|j: int| 0 <= j < ns.len() ==> deep_nodes(ns)[j] == ns[j].deep(),
    decreases ns,
{
    if ns.len() > 0 {
        lemma_deep_nodes(ns.drop_first());
    }
}

/// Appending a node and then taking the deep view appends the node's
/// deep view.
pub proof fn lemma_deep_nodes_push(v: Seq<Node>, n: Node)
    ensures
        deep_nodes(v.push(n)) == deep_nodes(v) + seq![n.deep()],
    decreases v,
{
    if v.len() == 0 {
        assert(v.push(n)[0] == n);
        assert(v.push(n).drop_first() =~= Seq::<Node>::empty());
        assert(deep_nodes(v.push(n).drop_first()) == Seq::<SpecNode>::empty());
        assert(deep_nodes(v.push(n)) =~= deep_nodes(v) + seq![n.deep()]);
    } else {
        assert(v.push(n).drop_first() =~= v.drop_first().push(n));
        lemma_deep_nodes_push(v.drop_first(), n);
        assert(v.push(n)[0] == v[0]);
        assert(deep_nodes(v.push(n)) == seq![v[0].deep()] + deep_nodes(v.push(n).drop_first()));
        assert(deep_nodes(v.push(n)) =~= deep_nodes(v) + seq![n.deep()]);
    }
}

/// An element marked self-closing holds no children; this holds of
/// every node the parser builds.
pub open spec fn node_wf(n: SpecNode) -> bool
    decreases n,
{
    match n {
        SpecNode::Text(_) => true,
        SpecNode::Element(e) => (e.self_closing ==> e.children.len() == 0) && nodes_wf(e.children),
    }
}

pub open spec fn nodes_wf(ns: Seq<SpecNode>) -> bool
    decreases ns,
{
    ns.len() == 0 || (node_wf(ns[0]) && nodes_wf(ns.drop_first()))
}

} // verus!
