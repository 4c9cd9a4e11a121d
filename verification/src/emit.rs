//! The emitter: turns the node tree into the generated source text.
//!
//! Every emission is specified by a spec function over the spec-level
//! tree; the executable functions are proved to produce exactly the
//! specified character sequence.

use vstd::prelude::*;
use crate::ast::{
    AttrValue, ElementNode, Node, SpecAttrValue, SpecElement, SpecNode, deep_attr, deep_attrs,
    deep_nodes, lemma_deep_nodes,
};
use crate::chars::is_ws;
use crate::scan::{scan_ws_end, scan_ws_rend, trim_spec};

verus! {

/// How one character is written inside a quoted string literal:
/// quote, backslash, newline, carriage return and tab are escaped,
/// everything else passes through.
pub open spec fn js_escape_char(c: char) -> Seq<char> {
    if c == '"' {
        seq!['\\', '"']
    } else if c == '\\' {
        seq!['\\', '\\']
    } else if c == '\n' {
        seq!['\\', 'n']
    } else if c == '\r' {
        seq!['\\', 'r']
    } else if c == '\t' {
        seq!['\\', 't']
    } else {
        seq![c]
    }
}

/// The body of a quoted string literal for `s`.
pub open spec fn js_body(s: Seq<char>) -> Seq<char>
    decreases s.len(),
{
    if s.len() == 0 {
        Seq::empty()
    } else {
        js_escape_char(s[0]) + js_body(s.drop_first())
    }
}

/// The full quoted string literal for `s`.
pub open spec fn js_string_spec(s: Seq<char>) -> Seq<char> {
    seq!['"'] + js_body(s) + seq!['"']
}

/// Whether the text holds the interpolation marker `${`.
pub open spec fn contains_interp(s: Seq<char>) -> bool {
    exists|k: int| 0 <= k && k + 1 < s.len() && s[k] == '$' && #[trigger] s[k + 1] == '{'
}

/// Inside an interpolation literal only the delimiter itself is
/// escaped; `${...}` placeholders stay live.
pub open spec fn tpl_escape_char(c: char) -> Seq<char> {
    if c == '`' {
        seq!['\\', '`']
    } else {
        seq![c]
    }
}

pub open spec fn tpl_body(s: Seq<char>) -> Seq<char>
    decreases s.len(),
{
    if s.len() == 0 {
        Seq::empty()
    } else {
        tpl_escape_char(s[0]) + tpl_body(s.drop_first())
    }
}

/// A text node: an interpolation literal when it holds `${`, else a
/// quoted, escaped string literal.
pub open spec fn emit_text_spec(t: Seq<char>) -> Seq<char> {
    if contains_interp(t) {
        seq!['`'] + tpl_body(t) + seq!['`']
    } else {
        js_string_spec(t)
    }
}

/// An attribute value: `true` for a bare attribute, a string literal
/// for scanned text, and the trimmed raw expression for `{...}`.
pub open spec fn emit_attr_value_spec(v: SpecAttrValue) -> Seq<char> {
    match v {
        SpecAttrValue::BoolTrue => seq!['t', 'r', 'u', 'e'],
        SpecAttrValue::Str(s) => js_string_spec(s),
        SpecAttrValue::JsExpr(e) => trim_spec(e),
    }
}

/// One `key: value` entry; the key is always a quoted string literal.
pub open spec fn emit_attr_pair_spec(a: (Seq<char>, SpecAttrValue)) -> Seq<char> {
    js_string_spec(a.0) + seq![':', ' '] + emit_attr_value_spec(a.1)
}

/// The comma-joined attribute entries, in insertion order.
pub open spec fn emit_attrs_list_spec(attrs: Seq<(Seq<char>, SpecAttrValue)>) -> Seq<char>
    decreases attrs.len(),
{
    if attrs.len() == 0 {
        Seq::empty()
    } else if attrs.len() == 1 {
        emit_attr_pair_spec(attrs[0])
    } else {
        emit_attr_pair_spec(attrs[0]) + seq![',', ' '] + emit_attrs_list_spec(attrs.drop_first())
    }
}

/// The attributes object literal; `{}` when there are none.
pub open spec fn emit_attrs_spec(attrs: Seq<(Seq<char>, SpecAttrValue)>) -> Seq<char> {
    if attrs.len() == 0 {
        seq!['{', '}']
    } else {
        seq!['{'] + emit_attrs_list_spec(attrs) + seq!['}']
    }
}

/// One node's expression.
pub open spec fn emit_node_spec(n: SpecNode) -> Seq<char>
    decreases n, 1int,
{
    match n {
        SpecNode::Text(t) => emit_text_spec(t),
        SpecNode::Element(e) => emit_element_spec(e),
    }
}

/// An element's `element(tag, attrs[, children])` call. The children
/// argument is omitted for self-closing or childless elements, a bare
/// expression for one child, and a bracketed list otherwise.
pub open spec fn emit_element_spec(e: SpecElement) -> Seq<char>
    decreases e, 0int,
{
    let head = seq!['e', 'l', 'e', 'm', 'e', 'n', 't', '('] + js_string_spec(e.tag)
        + seq![',', ' '] + emit_attrs_spec(e.attrs);
    if e.self_closing || e.children.len() == 0 {
        head + seq![')']
    } else if e.children.len() == 1 {
        head + seq![',', ' '] + emit_node_spec(e.children[0]) + seq![')']
    } else {
        head + seq![',', ' ', '['] + emit_list_spec(e.children) + seq![']', ')']
    }
}

/// The comma-joined expressions of a list of nodes.
pub open spec fn emit_list_spec(ns: Seq<SpecNode>) -> Seq<char>
    decreases ns, 2int,
{
    if ns.len() == 0 {
        Seq::empty()
    } else if ns.len() == 1 {
        emit_node_spec(ns[0])
    } else {
        emit_node_spec(ns[0]) + seq![',', ' '] + emit_list_spec(ns.drop_first())
    }
}

/// The top-level wrapping: no roots emit `("")`, one root its own
/// expression, several a `Fragment`-wrapped call.
pub open spec fn emit_nodes_spec(ns: Seq<SpecNode>) -> Seq<char> {
    if ns.len() == 0 {
        seq!['(', '"', '"', ')']
    } else if ns.len() == 1 {
        emit_node_spec(ns[0])
    } else {
        seq!['e', 'l', 'e', 'm', 'e', 'n', 't', '(', 'F', 'r', 'a', 'g', 'm', 'e', 'n', 't',
            ',', ' ', '{', '}', ',', ' ', '['] + emit_list_spec(ns) + seq![']', ')']
    }
}

pub proof fn lemma_js_body_push(s: Seq<char>, c: char)
    ensures
        js_body(s.push(c)) == js_body(s) + js_escape_char(c),
    decreases s.len(),
{
    if s.len() == 0 {
        assert(s.push(c)[0] == c);
        assert(s.push(c).drop_first() =~= Seq::<char>::empty());
        assert(js_body(s.push(c).drop_first()) == Seq::<char>::empty());
        assert(js_body(s.push(c)) == js_escape_char(c) + js_body(s.push(c).drop_first()));
        assert(js_body(s.push(c)) =~= js_body(s) + js_escape_char(c));
    } else {
        assert(s.push(c).drop_first() =~= s.drop_first().push(c));
        lemma_js_body_push(s.drop_first(), c);
        assert(s.push(c)[0] == s[0]);
        assert(js_body(s.push(c)) == js_escape_char(s[0]) + js_body(s.push(c).drop_first()));
        assert(js_body(s.push(c).drop_first()) == js_body(s.drop_first()) + js_escape_char(c));
        assert(js_body(s) == js_escape_char(s[0]) + js_body(s.drop_first()));
        assert(js_body(s.push(c)) =~= js_body(s) + js_escape_char(c));
    }
}

pub proof fn lemma_tpl_body_push(s: Seq<char>, c: char)
    ensures
        tpl_body(s.push(c)) == tpl_body(s) + tpl_escape_char(c),
    decreases s.len(),
{
    if s.len() == 0 {
        assert(s.push(c)[0] == c);
        assert(s.push(c).drop_first() =~= Seq::<char>::empty());
        assert(tpl_body(s.push(c).drop_first()) == Seq::<char>::empty());
        assert(tpl_body(s.push(c)) == tpl_escape_char(c) + tpl_body(s.push(c).drop_first()));
        assert(tpl_body(s.push(c)) =~= tpl_body(s) + tpl_escape_char(c));
    } else {
        assert(s.push(c).drop_first() =~= s.drop_first().push(c));
        lemma_tpl_body_push(s.drop_first(), c);
        assert(s.push(c)[0] == s[0]);
        assert(tpl_body(s.push(c)) == tpl_escape_char(s[0]) + tpl_body(s.push(c).drop_first()));
        assert(tpl_body(s.push(c).drop_first()) == tpl_body(s.drop_first()) + tpl_escape_char(c));
        assert(tpl_body(s) == tpl_escape_char(s[0]) + tpl_body(s.drop_first()));
        assert(tpl_body(s.push(c)) =~= tpl_body(s) + tpl_escape_char(c));
    }
}

pub proof fn lemma_emit_attrs_list_push(p: Seq<(Seq<char>, SpecAttrValue)>, x: (Seq<char>, SpecAttrValue))
    ensures
        emit_attrs_list_spec(p.push(x)) == if p.len() == 0 {
            emit_attr_pair_spec(x)
        } else {
            emit_attrs_list_spec(p) + seq![',', ' '] + emit_attr_pair_spec(x)
        },
    decreases p.len(),
{
    if p.len() == 0 {
        assert(p.push(x)[0] == x);
        assert(p.push(x).len() == 1);
    } else {
        assert(p.push(x).drop_first() =~= p.drop_first().push(x));
        lemma_emit_attrs_list_push(p.drop_first(), x);
        assert(p.push(x)[0] == p[0]);
        if p.len() == 1 {
            assert(emit_attrs_list_spec(p.push(x)) =~= emit_attrs_list_spec(p) + seq![',', ' ']
                + emit_attr_pair_spec(x));
        } else {
            assert(emit_attrs_list_spec(p.push(x)) =~= emit_attrs_list_spec(p) + seq![',', ' ']
                + emit_attr_pair_spec(x));
        }
    }
}

pub proof fn lemma_emit_list_push(p: Seq<SpecNode>, x: SpecNode)
    ensures
        emit_list_spec(p.push(x)) == if p.len() == 0 {
            emit_node_spec(x)
        } else {
            emit_list_spec(p) + seq![',', ' '] + emit_node_spec(x)
        },
    decreases p.len(),
{
    if p.len() == 0 {
        assert(p.push(x)[0] == x);
        assert(p.push(x).len() == 1);
    } else {
        assert(p.push(x).drop_first() =~= p.drop_first().push(x));
        lemma_emit_list_push(p.drop_first(), x);
        assert(p.push(x)[0] == p[0]);
        assert(emit_list_spec(p.push(x)) =~= emit_list_spec(p) + seq![',', ' ']
            + emit_node_spec(x));
    }
}

/// Whether the text holds the interpolation marker `${`.
pub fn has_interp(t: &Vec<char>) -> (r: bool)
    ensures
        r == contains_interp(t@),
{
    if t.len() < 2 {
        return false;
    }
    let mut k: usize = 0;
    while k < t.len() - 1
        invariant
            t@.len() >= 2,
            k <= t@.len() - 1,
            forall|j: int| 0 <= j && j + 1 < k + 1 ==> !(t@[j] == '$' && #[trigger] t@[j + 1] == '{'),
        decreases t@.len() - k,
    {
        if t[k] == '$' && t[k + 1] == '{' {
            proof {
                assert(contains_interp(t@));
            }
            return true;
        }
        k += 1;
    }
    false
}

/// Whether every character of the text is whitespace.
pub fn text_is_all_ws(t: &Vec<char>) -> (r: bool)
    ensures
        r == crate::grammar::all_ws(t@),
{
    let mut k: usize = 0;
    while k < t.len()
        invariant
            k <= t@.len(),
            forall|j: int| 0 <= j < k ==> #[trigger] crate::chars::is_ws_char(t@[j]),
        decreases t@.len() - k,
    {
        if !is_ws(t[k]) {
            return false;
        }
        k += 1;
    }
    true
}

/// The input with leading and trailing whitespace removed.
pub fn trim_chars(t: &Vec<char>) -> (r: Vec<char>)
    ensures
        r@ == trim_spec(t@),
{
    let n = t.len();
    let mut a: usize = 0;
    while a < n && is_ws(t[a])
        invariant
            a <= n,
            n == t@.len(),
            scan_ws_end(t@, 0) == scan_ws_end(t@, a as int),
        decreases n - a,
    {
        a += 1;
    }
    proof {
        assert(scan_ws_end(t@, 0) == a as int);
    }
    if a == n {
        let r: Vec<char> = Vec::new();
        proof {
            assert(r@ =~= trim_spec(t@));
        }
        return r;
    }
    let mut b: usize = n;
    while b > a && is_ws(t[b - 1])
        invariant
            a < n,
            n == t@.len(),
            a + 1 <= b <= n,
            !crate::chars::is_ws_char(t@[a as int]),
            scan_ws_rend(t@, n as int) == scan_ws_rend(t@, b as int),
        decreases b,
    {
        b -= 1;
    }
    proof {
        assert(scan_ws_rend(t@, n as int) == b as int);
    }
    let mut r: Vec<char> = Vec::new();
    let mut k: usize = a;
    while k < b
        invariant
            a <= k <= b <= n,
            n == t@.len(),
            r@ == t@.subrange(a as int, k as int),
        decreases b - k,
    {
        let c = t[k];
        r.push(c);
        proof {
            assert(r@ =~= t@.subrange(a as int, k + 1 as int));
        }
        k += 1;
    }
    proof {
        assert(r@ =~= trim_spec(t@));
    }
    r
}

/// A quoted, escaped string literal for the text.
pub fn js_string(t: &Vec<char>) -> (r: Vec<char>)
    ensures
        r@ == js_string_spec(t@),
{
    let mut out: Vec<char> = Vec::new();
    out.push('"');
    let mut k: usize = 0;
    while k < t.len()
        invariant
            k <= t@.len(),
            out@ == seq!['"'] + js_body(t@.subrange(0, k as int)),
        decreases t@.len() - k,
    {
        let c = t[k];
        if c == '"' {
            out.push('\\');
            out.push('"');
        } else if c == '\\' {
            out.push('\\');
            out.push('\\');
        } else if c == '\n' {
            out.push('\\');
            out.push('n');
        } else if c == '\r' {
            out.push('\\');
            out.push('r');
        } else if c == '\t' {
            out.push('\\');
            out.push('t');
        } else {
            out.push(c);
        }
        proof {
            assert(t@.subrange(0, k + 1 as int) =~= t@.subrange(0, k as int).push(t@[k as int]));
            lemma_js_body_push(t@.subrange(0, k as int), t@[k as int]);
            assert(out@ =~= seq!['"'] + js_body(t@.subrange(0, k + 1 as int)));
        }
        k += 1;
    }
    out.push('"');
    proof {
        assert(t@.subrange(0, t@.len() as int) =~= t@);
        assert(out@ =~= js_string_spec(t@));
    }
    out
}

/// A text node's expression.
pub fn emit_text(t: &Vec<char>) -> (r: Vec<char>)
    ensures
        r@ == emit_text_spec(t@),
{
    if !has_interp(t) {
        return js_string(t);
    }
    let mut out: Vec<char> = Vec::new();
    out.push('`');
    let mut k: usize = 0;
    while k < t.len()
        invariant
            k <= t@.len(),
            out@ == seq!['`'] + tpl_body(t@.subrange(0, k as int)),
        decreases t@.len() - k,
    {
        let c = t[k];
        if c == '`' {
            out.push('\\');
            out.push('`');
        } else {
            out.push(c);
        }
        proof {
            assert(t@.subrange(0, k + 1 as int) =~= t@.subrange(0, k as int).push(t@[k as int]));
            lemma_tpl_body_push(t@.subrange(0, k as int), t@[k as int]);
            assert(out@ =~= seq!['`'] + tpl_body(t@.subrange(0, k + 1 as int)));
        }
        k += 1;
    }
    out.push('`');
    proof {
        assert(t@.subrange(0, t@.len() as int) =~= t@);
    }
    out
}

/// The attributes object literal, entries in insertion order.
pub fn emit_attrs(attrs: &Vec<(Vec<char>, AttrValue)>) -> (r: Vec<char>)
    ensures
        r@ == emit_attrs_spec(deep_attrs(attrs@)),
{
    let ghost dl = deep_attrs(attrs@);
    proof {
        assert(dl.len() == attrs@.len());
    }
    if attrs.len() == 0 {
        let mut out: Vec<char> = Vec::new();
        out.push('{');
        out.push('}');
        proof {
            assert(out@ =~= emit_attrs_spec(dl));
        }
        return out;
    }
    let mut out: Vec<char> = Vec::new();
    out.push('{');
    let mut k: usize = 0;
    while k < attrs.len()
        invariant
            k <= attrs@.len(),
            attrs@.len() >= 1,
            dl == deep_attrs(attrs@),
            dl.len() == attrs@.len(),
            out@ == seq!['{'] + emit_attrs_list_spec(dl.subrange(0, k as int)),
        decreases attrs@.len() - k,
    {
        if k > 0 {
            out.push(',');
            out.push(' ');
        }
        let mut key_js = js_string(&attrs[k].0);
        out.append(&mut key_js);
        out.push(':');
        out.push(' ');
        match &attrs[k].1 {
            AttrValue::BoolTrue => {
                out.push('t');
                out.push('r');
                out.push('u');
                out.push('e');
            },
            AttrValue::Str(s) => {
                let mut v = js_string(s);
                out.append(&mut v);
            },
            AttrValue::JsExpr(e) => {
                let mut v = trim_chars(e);
                out.append(&mut v);
            },
        }
        proof {
            assert(dl[k as int] == deep_attr(attrs@[k as int]));
            assert(dl.subrange(0, k + 1 as int) =~= dl.subrange(0, k as int).push(dl[k as int]));
            lemma_emit_attrs_list_push(dl.subrange(0, k as int), dl[k as int]);
            assert(out@ =~= seq!['{'] + emit_attrs_list_spec(dl.subrange(0, k + 1 as int)));
        }
        k += 1;
    }
    out.push('}');
    proof {
        assert(dl.subrange(0, dl.len() as int) =~= dl);
        assert(out@ =~= emit_attrs_spec(dl));
    }
    out
}

/// One node's expression.
pub fn emit_node(n: &Node) -> (r: Vec<char>)
    ensures
        r@ == emit_node_spec(n.deep()),
    decreases n, 1int,
{
    match n {
        Node::Text(t) => emit_text(t),
        Node::Element(el) => emit_element(el),
    }
}

/// An element's `element(tag, attrs[, children])` call.
pub fn emit_element(el: &ElementNode) -> (r: Vec<char>)
    ensures
        r@ == emit_element_spec(
            crate::ast::SpecElement {
                tag: el.tag@,
                attrs: deep_attrs(el.attrs@),
                children: deep_nodes(el.children@),
                self_closing: el.self_closing,
            },
        ),
    decreases el, 0int,
{
    let ghost de = crate::ast::SpecElement {
        tag: el.tag@,
        attrs: deep_attrs(el.attrs@),
        children: deep_nodes(el.children@),
        self_closing: el.self_closing,
    };
    proof {
        lemma_deep_nodes(el.children@);
    }
    let mut out: Vec<char> = Vec::new();
    out.push('e');
    out.push('l');
    out.push('e');
    out.push('m');
    out.push('e');
    out.push('n');
    out.push('t');
    out.push('(');
    let mut tag_js = js_string(&el.tag);
    out.append(&mut tag_js);
    out.push(',');
    out.push(' ');
    let mut attrs_js = emit_attrs(&el.attrs);
    out.append(&mut attrs_js);
    proof {
        assert(out@ =~= seq!['e', 'l', 'e', 'm', 'e', 'n', 't', '('] + js_string_spec(de.tag)
            + seq![',', ' '] + emit_attrs_spec(de.attrs));
    }
    if el.self_closing || el.children.len() == 0 {
        out.push(')');
        proof {
            assert(out@ =~= emit_element_spec(de));
        }
        return out;
    }
    out.push(',');
    out.push(' ');
    if el.children.len() == 1 {
        proof {
            assert(decreases_to!(el => el.children));
            assert(decreases_to!(el.children => el.children@));
            assert(decreases_to!(el.children@ => el.children@[0]));
        }
        let mut c = emit_node(&el.children[0]);
        out.append(&mut c);
        out.push(')');
        proof {
            assert(de.children[0] == el.children@[0].deep());
            assert(out@ =~= emit_element_spec(de));
        }
        return out;
    }
    out.push('[');
    let ghost head = out@;
    let mut k: usize = 0;
    while k < el.children.len()
        invariant
            k <= el.children@.len(),
            el.children@.len() >= 2,
            de.children == deep_nodes(el.children@),
            de.children.len() == el.children@.len(),
            forall|j: int| 0 <= j < el.children@.len() ==> de.children[j] == el.children@[j].deep(),
            head == out@.subrange(0, head.len() as int) && head.len() <= out@.len(),
            out@ == head + emit_list_spec(de.children.subrange(0, k as int)),
        decreases el.children@.len() - k,
    {
        if k > 0 {
            out.push(',');
            out.push(' ');
        }
        proof {
            assert(decreases_to!(el => el.children));
            assert(decreases_to!(el.children => el.children@));
            assert(decreases_to!(el.children@ => el.children@[k as int]));
        }
        let mut c = emit_node(&el.children[k]);
        out.append(&mut c);
        proof {
            assert(de.children.subrange(0, k + 1 as int) =~= de.children.subrange(
                0,
                k as int,
            ).push(de.children[k as int]));
            lemma_emit_list_push(de.children.subrange(0, k as int), de.children[k as int]);
            assert(out@ =~= head + emit_list_spec(de.children.subrange(0, k + 1 as int)));
            assert(head =~= out@.subrange(0, head.len() as int));
        }
        k += 1;
    }
    out.push(']');
    out.push(')');
    proof {
        assert(de.children.subrange(0, de.children.len() as int) =~= de.children);
        assert(out@ =~= emit_element_spec(de));
    }
    out
}

/// The top-level expression for the root nodes.
pub fn emit_nodes(nodes: &Vec<Node>) -> (r: Vec<char>)
    ensures
        r@ == emit_nodes_spec(deep_nodes(nodes@)),
{
    let ghost dn = deep_nodes(nodes@);
    proof {
        lemma_deep_nodes(nodes@);
    }
    if nodes.len() == 0 {
        let mut out: Vec<char> = Vec::new();
        out.push('(');
        out.push('"');
        out.push('"');
        out.push(')');
        proof {
            assert(out@ =~= emit_nodes_spec(dn));
        }
        return out;
    }
    if nodes.len() == 1 {
        let r = emit_node(&nodes[0]);
        proof {
            assert(dn[0] == nodes@[0].deep());
        }
        return r;
    }
    let mut out: Vec<char> = Vec::new();
    out.push('e');
    out.push('l');
    out.push('e');
    out.push('m');
    out.push('e');
    out.push('n');
    out.push('t');
    out.push('(');
    out.push('F');
    out.push('r');
    out.push('a');
    out.push('g');
    out.push('m');
    out.push('e');
    out.push('n');
    out.push('t');
    out.push(',');
    out.push(' ');
    out.push('{');
    out.push('}');
    out.push(',');
    out.push(' ');
    out.push('[');
    let ghost head = out@;
    proof {
        assert(head =~= seq!['e', 'l', 'e', 'm', 'e', 'n', 't', '(', 'F', 'r', 'a', 'g', 'm',
            'e', 'n', 't', ',', ' ', '{', '}', ',', ' ', '[']);
    }
    let mut k: usize = 0;
    while k < nodes.len()
        invariant
            k <= nodes@.len(),
            nodes@.len() >= 2,
            dn == deep_nodes(nodes@),
            dn.len() == nodes@.len(),
            forall|j: int| 0 <= j < nodes@.len() ==> dn[j] == nodes@[j].deep(),
            head.len() <= out@.len() && head == out@.subrange(0, head.len() as int),
            out@ == head + emit_list_spec(dn.subrange(0, k as int)),
        decreases nodes@.len() - k,
    {
        if k > 0 {
            out.push(',');
            out.push(' ');
        }
        let mut c = emit_node(&nodes[k]);
        out.append(&mut c);
        proof {
            assert(dn.subrange(0, k + 1 as int) =~= dn.subrange(0, k as int).push(dn[k as int]));
            lemma_emit_list_push(dn.subrange(0, k as int), dn[k as int]);
            assert(out@ =~= head + emit_list_spec(dn.subrange(0, k + 1 as int)));
            assert(head =~= out@.subrange(0, head.len() as int));
        }
        k += 1;
    }
    out.push(']');
    out.push(')');
    proof {
        assert(dn.subrange(0, dn.len() as int) =~= dn);
        assert(out@ =~= emit_nodes_spec(dn));
    }
    out
}

} // verus!
