//! The structural-shape law: the nesting depth of call parentheses in
//! an emitted expression equals the nesting depth of the source
//! element tree.
//!
//! Parentheses inside embedded text would be counted by a textual
//! reader too, so the law is stated for trees whose texts, tag names
//! and attribute values hold no parenthesis characters; everything the
//! emitter adds around them is then accounted for exactly.

use vstd::prelude::*;
use crate::ast::{SpecAttrValue, SpecElement, SpecNode, node_wf, nodes_wf};
use crate::emit::{
    emit_attr_pair_spec, emit_attr_value_spec, emit_attrs_list_spec, emit_attrs_spec,
    emit_element_spec, emit_list_spec, emit_node_spec, emit_text_spec, js_body, js_escape_char,
    js_string_spec, tpl_body, tpl_escape_char,
};
use crate::scan::{trim_spec, scan_ws_end, scan_ws_rend, lemma_scan_ws_end, lemma_scan_ws_rend};

verus! {

pub open spec fn imax(a: int, b: int) -> int {
    if a >= b {
        a
    } else {
        b
    }
}

/// What one character contributes to parenthesis nesting.
pub open spec fn pdelta(c: char) -> int {
    if c == '(' {
        1
    } else if c == ')' {
        -1
    } else {
        0
    }
}

/// Opens minus closes over the whole text.
pub open spec fn pnet(s: Seq<char>) -> int
    decreases s.len(),
{
    if s.len() == 0 {
        0
    } else {
        pdelta(s[0]) + pnet(s.drop_first())
    }
}

/// The deepest parenthesis nesting reached while reading the text.
pub open spec fn pmax(s: Seq<char>) -> int
    decreases s.len(),
{
    if s.len() == 0 {
        0
    } else {
        imax(0, pdelta(s[0]) + pmax(s.drop_first()))
    }
}

/// The text holds no parenthesis characters.
pub open spec fn paren_free(s: Seq<char>) -> bool {
    forall|j: int| 0 <= j < s.len() ==> (#[trigger] s[j]) != '(' && s[j] != ')'
}

pub open spec fn attr_paren_free(a: (Seq<char>, SpecAttrValue)) -> bool {
    &&& paren_free(a.0)
    &&& match a.1 {
        SpecAttrValue::BoolTrue => true,
        SpecAttrValue::Str(s) => paren_free(s),
        SpecAttrValue::JsExpr(e) => paren_free(e),
    }
}

pub open spec fn attrs_paren_free(l: Seq<(Seq<char>, SpecAttrValue)>) -> bool
    decreases l,
{
    l.len() == 0 || (attr_paren_free(l[0]) && attrs_paren_free(l.drop_first()))
}

pub open spec fn node_paren_free(n: SpecNode) -> bool
    decreases n, 1int,
{
    match n {
        SpecNode::Text(t) => paren_free(t),
        SpecNode::Element(e) => paren_free(e.tag) && attrs_paren_free(e.attrs) && list_paren_free(
            e.children,
        ),
    }
}

pub open spec fn list_paren_free(ns: Seq<SpecNode>) -> bool
    decreases ns, 2int,
{
    ns.len() == 0 || (node_paren_free(ns[0]) && list_paren_free(ns.drop_first()))
}

/// Nesting depth of the source tree: a text node nests nothing, an
/// element nests one level around its deepest child.
pub open spec fn tree_depth(n: SpecNode) -> int
    decreases n, 1int,
{
    match n {
        SpecNode::Text(_) => 0,
        SpecNode::Element(e) => 1 + list_depth(e.children),
    }
}

pub open spec fn list_depth(ns: Seq<SpecNode>) -> int
    decreases ns, 2int,
{
    if ns.len() == 0 {
        0
    } else {
        imax(tree_depth(ns[0]), list_depth(ns.drop_first()))
    }
}

proof fn lemma_p_empty()
    ensures
        pnet(Seq::<char>::empty()) == 0,
        pmax(Seq::<char>::empty()) == 0,
{
}

proof fn lemma_p_single(c: char)
    ensures
        pnet(seq![c]) == pdelta(c),
        pmax(seq![c]) == imax(0, pdelta(c)),
{
    assert(seq![c].drop_first() =~= Seq::<char>::empty());
    lemma_p_empty();
    assert(pnet(seq![c].drop_first()) == 0);
    assert(pmax(seq![c].drop_first()) == 0);
}

proof fn lemma_p_two(c: char, d: char)
    ensures
        pnet(seq![c, d]) == pdelta(c) + pdelta(d),
        pmax(seq![c, d]) == imax(0, pdelta(c) + imax(0, pdelta(d))),
{
    assert(seq![c, d].drop_first() =~= seq![d]);
    lemma_p_single(d);
    assert(pnet(seq![c, d].drop_first()) == pdelta(d));
    assert(pmax(seq![c, d].drop_first()) == imax(0, pdelta(d)));
}

pub proof fn lemma_pmax_nonneg(s: Seq<char>)
    ensures
        pmax(s) >= 0,
    decreases s.len(),
{
    if s.len() > 0 {
        lemma_pmax_nonneg(s.drop_first());
    }
}

pub proof fn lemma_pnet_concat(a: Seq<char>, b: Seq<char>)
    ensures
        pnet(a + b) == pnet(a) + pnet(b),
    decreases a.len(),
{
    if a.len() == 0 {
        assert(a + b =~= b);
    } else {
        assert((a + b).drop_first() =~= a.drop_first() + b);
        assert((a + b)[0] == a[0]);
        lemma_pnet_concat(a.drop_first(), b);
    }
}

pub proof fn lemma_pmax_concat(a: Seq<char>, b: Seq<char>)
    ensures
        pmax(a + b) == imax(pmax(a), pnet(a) + pmax(b)),
    decreases a.len(),
{
    lemma_pmax_nonneg(b);
    if a.len() == 0 {
        assert(a + b =~= b);
    } else {
        assert((a + b).drop_first() =~= a.drop_first() + b);
        assert((a + b)[0] == a[0]);
        lemma_pmax_concat(a.drop_first(), b);
    }
}

pub proof fn lemma_paren_free_flat(s: Seq<char>)
    requires
        paren_free(s),
    ensures
        pnet(s) == 0,
        pmax(s) == 0,
    decreases s.len(),
{
    if s.len() > 0 {
        assert(paren_free(s.drop_first())) by {
            assert(forall|j: int|
                0 <= j < s.drop_first().len() ==> (#[trigger] s.drop_first()[j]) == s[j + 1]);
        }
        lemma_paren_free_flat(s.drop_first());
        assert(pdelta(s[0]) == 0);
    }
}

pub proof fn lemma_paren_free_concat(a: Seq<char>, b: Seq<char>)
    requires
        paren_free(a),
        paren_free(b),
    ensures
        paren_free(a + b),
{
    assert forall|j: int| 0 <= j < (a + b).len() implies ((#[trigger] (a + b)[j]) != '(' && (a
        + b)[j] != ')') by {
        if j < a.len() {
            assert((a + b)[j] == a[j]);
        } else {
            assert((a + b)[j] == b[j - a.len()]);
        }
    }
}

pub proof fn lemma_js_body_paren_free(s: Seq<char>)
    requires
        paren_free(s),
    ensures
        paren_free(js_body(s)),
    decreases s.len(),
{
    if s.len() == 0 {
    } else {
        assert(paren_free(s.drop_first())) by {
            assert(forall|j: int|
                0 <= j < s.drop_first().len() ==> (#[trigger] s.drop_first()[j]) == s[j + 1]);
        }
        lemma_js_body_paren_free(s.drop_first());
        assert(paren_free(js_escape_char(s[0])));
        lemma_paren_free_concat(js_escape_char(s[0]), js_body(s.drop_first()));
    }
}

pub proof fn lemma_tpl_body_paren_free(s: Seq<char>)
    requires
        paren_free(s),
    ensures
        paren_free(tpl_body(s)),
    decreases s.len(),
{
    if s.len() == 0 {
    } else {
        assert(paren_free(s.drop_first())) by {
            assert(forall|j: int|
                0 <= j < s.drop_first().len() ==> (#[trigger] s.drop_first()[j]) == s[j + 1]);
        }
        lemma_tpl_body_paren_free(s.drop_first());
        assert(paren_free(tpl_escape_char(s[0])));
        lemma_paren_free_concat(tpl_escape_char(s[0]), tpl_body(s.drop_first()));
    }
}

pub proof fn lemma_js_string_paren_free(s: Seq<char>)
    requires
        paren_free(s),
    ensures
        paren_free(js_string_spec(s)),
{
    lemma_js_body_paren_free(s);
    assert(paren_free(seq!['"']));
    lemma_paren_free_concat(seq!['"'], js_body(s));
    lemma_paren_free_concat(seq!['"'] + js_body(s), seq!['"']);
}

pub proof fn lemma_emit_text_paren_free(t: Seq<char>)
    requires
        paren_free(t),
    ensures
        paren_free(emit_text_spec(t)),
{
    lemma_js_string_paren_free(t);
    lemma_tpl_body_paren_free(t);
    assert(paren_free(seq!['`']));
    lemma_paren_free_concat(seq!['`'], tpl_body(t));
    lemma_paren_free_concat(seq!['`'] + tpl_body(t), seq!['`']);
}

pub proof fn lemma_trim_paren_free(e: Seq<char>)
    requires
        paren_free(e),
    ensures
        paren_free(trim_spec(e)),
{
    let a = scan_ws_end(e, 0);
    lemma_scan_ws_end(e, 0);
    if a == e.len() {
    } else {
        let b = scan_ws_rend(e, e.len() as int);
        lemma_scan_ws_rend(e, e.len() as int);
        assert(b > a) by {
            if b <= a {
                assert(crate::chars::is_ws_char(e[a]));
            }
        }
        assert(forall|j: int|
            0 <= j < (b - a) ==> (#[trigger] e.subrange(a, b)[j]) == e[j + a]);
    }
}

pub proof fn lemma_attr_value_paren_free(v: SpecAttrValue)
    requires
        match v {
            SpecAttrValue::BoolTrue => true,
            SpecAttrValue::Str(s) => paren_free(s),
            SpecAttrValue::JsExpr(e) => paren_free(e),
        },
    ensures
        paren_free(emit_attr_value_spec(v)),
{
    match v {
        SpecAttrValue::BoolTrue => {
            assert(paren_free(seq!['t', 'r', 'u', 'e']));
        },
        SpecAttrValue::Str(s) => {
            lemma_js_string_paren_free(s);
        },
        SpecAttrValue::JsExpr(e) => {
            lemma_trim_paren_free(e);
        },
    }
}

pub proof fn lemma_attrs_list_paren_free(l: Seq<(Seq<char>, SpecAttrValue)>)
    requires
        attrs_paren_free(l),
    ensures
        paren_free(emit_attrs_list_spec(l)),
    decreases l.len(),
{
    if l.len() == 0 {
        assert(paren_free(emit_attrs_list_spec(l)));
    } else {
        lemma_js_string_paren_free(l[0].0);
        lemma_attr_value_paren_free(l[0].1);
        assert(paren_free(seq![':', ' ']));
        lemma_paren_free_concat(js_string_spec(l[0].0), seq![':', ' ']);
        lemma_paren_free_concat(
            js_string_spec(l[0].0) + seq![':', ' '],
            emit_attr_value_spec(l[0].1),
        );
        if l.len() == 1 {
        } else {
            lemma_attrs_list_paren_free(l.drop_first());
            assert(paren_free(seq![',', ' ']));
            lemma_paren_free_concat(emit_attr_pair_spec(l[0]), seq![',', ' ']);
            lemma_paren_free_concat(
                emit_attr_pair_spec(l[0]) + seq![',', ' '],
                emit_attrs_list_spec(l.drop_first()),
            );
        }
    }
}

pub proof fn lemma_attrs_paren_free(l: Seq<(Seq<char>, SpecAttrValue)>)
    requires
        attrs_paren_free(l),
    ensures
        paren_free(emit_attrs_spec(l)),
{
    if l.len() == 0 {
        assert(paren_free(seq!['{', '}']));
    } else {
        lemma_attrs_list_paren_free(l);
        assert(paren_free(seq!['{']));
        assert(paren_free(seq!['}']));
        lemma_paren_free_concat(seq!['{'], emit_attrs_list_spec(l));
        lemma_paren_free_concat(seq!['{'] + emit_attrs_list_spec(l), seq!['}']);
    }
}

/// The fixed opener `element(` followed by the tag literal and the
/// attributes object reaches depth one and stays open by one.
proof fn lemma_head_depth(e: SpecElement)
    requires
        paren_free(e.tag),
        attrs_paren_free(e.attrs),
    ensures
        pnet(
            seq!['e', 'l', 'e', 'm', 'e', 'n', 't', '('] + js_string_spec(e.tag) + seq![',', ' ']
                + emit_attrs_spec(e.attrs),
        ) == 1,
        pmax(
            seq!['e', 'l', 'e', 'm', 'e', 'n', 't', '('] + js_string_spec(e.tag) + seq![',', ' ']
                + emit_attrs_spec(e.attrs),
        ) == 1,
{
    let a: Seq<char> = seq!['e', 'l', 'e', 'm', 'e', 'n', 't', '('];
    let w: Seq<char> = seq!['e', 'l', 'e', 'm', 'e', 'n', 't'];
    assert(a =~= w + seq!['(']);
    assert(paren_free(w));
    lemma_paren_free_flat(w);
    lemma_p_single('(');
    lemma_pnet_concat(w, seq!['(']);
    lemma_pmax_concat(w, seq!['(']);
    assert(pnet(a) == 1);
    assert(pmax(a) == 1);
    lemma_js_string_paren_free(e.tag);
    lemma_paren_free_flat(js_string_spec(e.tag));
    lemma_pnet_concat(a, js_string_spec(e.tag));
    lemma_pmax_concat(a, js_string_spec(e.tag));
    let ab = a + js_string_spec(e.tag);
    assert(pnet(ab) == 1 && pmax(ab) == 1);
    assert(paren_free(seq![',', ' ']));
    lemma_paren_free_flat(seq![',', ' ']);
    lemma_pnet_concat(ab, seq![',', ' ']);
    lemma_pmax_concat(ab, seq![',', ' ']);
    let abc = ab + seq![',', ' '];
    assert(pnet(abc) == 1 && pmax(abc) == 1);
    lemma_attrs_paren_free(e.attrs);
    lemma_paren_free_flat(emit_attrs_spec(e.attrs));
    lemma_pnet_concat(abc, emit_attrs_spec(e.attrs));
    lemma_pmax_concat(abc, emit_attrs_spec(e.attrs));
}

/// The structural-shape law: for trees whose embedded texts hold no
/// parentheses, the deepest parenthesis nesting of the emitted
/// expression equals the nesting depth of the source element tree,
/// and the expression is balanced.
pub proof fn lemma_emit_depth(n: SpecNode)
    requires
        node_paren_free(n),
        node_wf(n),
    ensures
        pnet(emit_node_spec(n)) == 0,
        pmax(emit_node_spec(n)) == tree_depth(n),
    decreases n, 1int,
{
    match n {
        SpecNode::Text(t) => {
            lemma_emit_text_paren_free(t);
            lemma_paren_free_flat(emit_text_spec(t));
        },
        SpecNode::Element(e) => {
            let head = seq!['e', 'l', 'e', 'm', 'e', 'n', 't', '('] + js_string_spec(e.tag)
                + seq![',', ' '] + emit_attrs_spec(e.attrs);
            lemma_head_depth(e);
            lemma_list_depth_nonneg(e.children);
            if e.self_closing || e.children.len() == 0 {
                lemma_p_single(')');
                assert(pnet(seq![')']) == -1 && pmax(seq![')']) == 0);
                lemma_pnet_concat(head, seq![')']);
                lemma_pmax_concat(head, seq![')']);
                assert(e.children.len() == 0);
                assert(list_depth(e.children) == 0);
                assert(tree_depth(n) == 1);
            } else if e.children.len() == 1 {
                assert(node_paren_free(e.children[0])) by {
                    assert(list_paren_free(e.children));
                }
                assert(node_wf(e.children[0])) by {
                    assert(nodes_wf(e.children));
                }
                lemma_emit_depth(e.children[0]);
                assert(paren_free(seq![',', ' ']));
                lemma_paren_free_flat(seq![',', ' ']);
                lemma_pnet_concat(head, seq![',', ' ']);
                lemma_pmax_concat(head, seq![',', ' ']);
                let hs = head + seq![',', ' '];
                lemma_pnet_concat(hs, emit_node_spec(e.children[0]));
                lemma_pmax_concat(hs, emit_node_spec(e.children[0]));
                let hsc = hs + emit_node_spec(e.children[0]);
                lemma_p_single(')');
                assert(pnet(seq![')']) == -1 && pmax(seq![')']) == 0);
                lemma_pnet_concat(hsc, seq![')']);
                lemma_pmax_concat(hsc, seq![')']);
                lemma_tree_depth_nonneg(e.children[0]);
                assert(e.children.drop_first() =~= Seq::<SpecNode>::empty());
                assert(list_depth(Seq::<SpecNode>::empty()) == 0);
                assert(list_depth(e.children.drop_first()) == 0);
                assert(list_depth(e.children) == imax(tree_depth(e.children[0]), 0));
            } else {
                lemma_emit_list_depth(e.children);
                assert(paren_free(seq![',', ' ', '[']));
                lemma_paren_free_flat(seq![',', ' ', '[']);
                lemma_pnet_concat(head, seq![',', ' ', '[']);
                lemma_pmax_concat(head, seq![',', ' ', '[']);
                let hs = head + seq![',', ' ', '['];
                lemma_pnet_concat(hs, emit_list_spec(e.children));
                lemma_pmax_concat(hs, emit_list_spec(e.children));
                let hsl = hs + emit_list_spec(e.children);
                lemma_p_two(']', ')');
                assert(pnet(seq![']', ')']) == -1 && pmax(seq![']', ')']) == 0);
                lemma_pnet_concat(hsl, seq![']', ')']);
                lemma_pmax_concat(hsl, seq![']', ')']);
            }
        },
    }
}

pub proof fn lemma_emit_list_depth(ns: Seq<SpecNode>)
    requires
        list_paren_free(ns),
        nodes_wf(ns),
    ensures
        pnet(emit_list_spec(ns)) == 0,
        pmax(emit_list_spec(ns)) == list_depth(ns),
    decreases ns, 2int,
{
    if ns.len() == 0 {
    } else if ns.len() == 1 {
        lemma_emit_depth(ns[0]);
        lemma_tree_depth_nonneg(ns[0]);
        assert(ns.drop_first() =~= Seq::<SpecNode>::empty());
        assert(list_depth(Seq::<SpecNode>::empty()) == 0);
        assert(list_depth(ns.drop_first()) == 0);
    } else {
        lemma_emit_depth(ns[0]);
        lemma_emit_list_depth(ns.drop_first());
        lemma_tree_depth_nonneg(ns[0]);
        lemma_list_depth_nonneg(ns.drop_first());
        assert(paren_free(seq![',', ' ']));
        lemma_paren_free_flat(seq![',', ' ']);
        lemma_pnet_concat(emit_node_spec(ns[0]), seq![',', ' ']);
        lemma_pmax_concat(emit_node_spec(ns[0]), seq![',', ' ']);
        let hs = emit_node_spec(ns[0]) + seq![',', ' '];
        lemma_pnet_concat(hs, emit_list_spec(ns.drop_first()));
        lemma_pmax_concat(hs, emit_list_spec(ns.drop_first()));
    }
}

pub proof fn lemma_tree_depth_nonneg(n: SpecNode)
    ensures
        tree_depth(n) >= 0,
    decreases n, 1int,
{
    match n {
        SpecNode::Text(_) => {
        },
        SpecNode::Element(e) => {
            lemma_list_depth_nonneg(e.children);
        },
    }
}

pub proof fn lemma_list_depth_nonneg(ns: Seq<SpecNode>)
    ensures
        list_depth(ns) >= 0,
    decreases ns, 2int,
{
    if ns.len() > 0 {
        lemma_tree_depth_nonneg(ns[0]);
        lemma_list_depth_nonneg(ns.drop_first());
    }
}

} // verus!
