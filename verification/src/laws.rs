//! Properties of the compiler, stated and proved over its spec
//! functions.

use vstd::prelude::*;
use crate::ast::{SpecNode, node_wf, nodes_wf};
use crate::chars::is_void_tag;
use crate::compiler::spec_compile;
use crate::emit::{
    contains_interp, emit_text_spec, js_body, js_escape_char, js_string_spec, tpl_body,
};
use crate::chars::is_ws_char;
use crate::grammar::{
    all_ws, capitalize_spec, normalize_attr_name_spec, open_tag_spec, parse_element_spec,
    parse_nodes_spec, step_pos,
};
use crate::scan::{scan_until_end, lemma_scan_until_end};

verus! {

/// Compiling is deterministic: the output is a function of the
/// template text alone, so any two results of compiling the same text
/// are equal. Together with `compile_template`'s contract this pins
/// two calls on one input to identical strings.
pub proof fn lemma_compile_deterministic(r1: Seq<char>, r2: Seq<char>, s: Seq<char>)
    requires
        r1 == spec_compile(s),
        r2 == spec_compile(s),
    ensures
        r1 == r2,
{
}

/// A template of whitespace alone compiles to the empty-root form
/// `() => ("")`: its single text run is dropped.
pub proof fn lemma_whitespace_only_compiles_empty(s: Seq<char>)
    requires
        all_ws(s),
    ensures
        spec_compile(s) == seq!['(', ')', ' ', '=', '>', ' ', '(', '"', '"', ')'],
{
    if s.len() == 0 {
        assert(parse_nodes_spec(s, 0).0 =~= Seq::<SpecNode>::empty());
    } else {
        assert(is_ws_char(s[0]));
        assert(s[0] != '<');
        let t = scan_until_end(s, 0, '<');
        lemma_scan_until_end(s, 0, '<');
        assert(t == s.len()) by {
            if t < s.len() {
                assert(s[t] == '<');
                assert(is_ws_char(s[t]));
            }
        }
        assert(all_ws(s.subrange(0, t))) by {
            assert(forall|j: int| 0 <= j < t ==> s.subrange(0, t)[j] == s[j]);
        }
        assert(step_pos(0, t, s.len() as int) == t);
        assert(parse_nodes_spec(s, s.len() as int).0 =~= Seq::<SpecNode>::empty());
        assert(parse_nodes_spec(s, 0).0 =~= Seq::<SpecNode>::empty());
    }
    assert(spec_compile(s) =~= seq!['(', ')', ' ', '=', '>', ' ', '(', '"', '"', ')']);
}

/// The two event-binding syntaxes agree: `on:rest` and `@rest`
/// normalize to the same attribute name.
pub proof fn lemma_event_name_normalization(rest: Seq<char>)
    ensures
        normalize_attr_name_spec(seq!['o', 'n', ':'] + rest) == normalize_attr_name_spec(
            seq!['@'] + rest,
        ),
{
    let a = seq!['o', 'n', ':'] + rest;
    let b = seq!['@'] + rest;
    assert(a.skip(3) =~= rest);
    assert(b.skip(1) =~= rest);
    assert(normalize_attr_name_spec(a) == seq!['o', 'n'] + capitalize_spec(rest));
    assert(normalize_attr_name_spec(b) == seq!['o', 'n'] + capitalize_spec(rest));
}

/// Text without the `${` marker becomes a plain escaped string
/// literal; text with it becomes an interpolation literal whose body
/// escapes only the delimiter, so the marker survives verbatim.
pub proof fn lemma_text_emission(t: Seq<char>)
    ensures
        !contains_interp(t) ==> emit_text_spec(t) == js_string_spec(t),
        contains_interp(t) ==> emit_text_spec(t) == seq!['`'] + tpl_body(t) + seq!['`'],
{
}

/// How a minimal reader undoes one escape.
pub open spec fn read_escape(c: char) -> char {
    if c == 'n' {
        '\n'
    } else if c == 'r' {
        '\r'
    } else if c == 't' {
        '\t'
    } else {
        c
    }
}

/// A minimal string-literal reader for the body of a quoted literal:
/// a backslash takes the next character as an escape, anything else is
/// itself.
pub open spec fn js_unescape(s: Seq<char>) -> Seq<char>
    decreases s.len(),
{
    if s.len() == 0 {
        Seq::empty()
    } else if s[0] == '\\' && s.len() >= 2 {
        seq![read_escape(s[1])] + js_unescape(s.skip(2))
    } else {
        seq![s[0]] + js_unescape(s.drop_first())
    }
}

/// Escaping round-trips: re-reading the emitted string-literal body
/// reproduces the original text exactly, for every text.
pub proof fn lemma_escape_round_trip(t: Seq<char>)
    ensures
        js_unescape(js_body(t)) == t,
        js_unescape(js_string_spec(t).subrange(1, js_string_spec(t).len() - 1)) == t,
    decreases t.len(),
{
    assert(js_string_spec(t).subrange(1, js_string_spec(t).len() - 1) =~= js_body(t));
    if t.len() == 0 {
        assert(js_unescape(js_body(t)) =~= t);
    } else {
        let c = t[0];
        let rest = t.drop_first();
        lemma_escape_round_trip(rest);
        let e = js_escape_char(c);
        assert(js_body(t) == e + js_body(rest));
        if c == '"' || c == '\\' || c == '\n' || c == '\r' || c == '\t' {
            assert(e.len() == 2 && e[0] == '\\');
            assert(js_body(t)[0] == '\\');
            assert(js_body(t)[1] == e[1]);
            assert(js_body(t).len() >= 2);
            assert(js_body(t).skip(2) =~= js_body(rest));
            assert(read_escape(e[1]) == c);
            assert(js_unescape(js_body(t)) == seq![c] + js_unescape(js_body(rest)));
            assert(js_unescape(js_body(t)) =~= t);
        } else {
            assert(e =~= seq![c]);
            assert(js_body(t)[0] == c);
            assert(c != '\\');
            assert(js_body(t).drop_first() =~= js_body(rest));
            assert(js_unescape(js_body(t)) == seq![c] + js_unescape(js_body(rest)));
            assert(js_unescape(js_body(t)) =~= t);
        }
    }
}

/// Every element the parser returns is well formed: an element marked
/// self-closing holds no children, recursively.
pub proof fn lemma_parse_element_wf(s: Seq<char>, i: int)
    requires
        0 <= i <= s.len(),
    ensures
        parse_element_spec(s, i).0 matches Some(el) ==> node_wf(SpecNode::Element(el)),
    decreases s.len() - i, 0int,
{
    if i < s.len() && s[i] == '<' && !(i + 1 < s.len() && s[i + 1] == '/') {
        let r = open_tag_spec(s, i);
        if r.0 is Some {
            let ot = r.0->0;
            if ot.2 || is_void_tag(ot.0) {
                assert(parse_element_spec(s, i).0 matches Some(el) ==> node_wf(
                    SpecNode::Element(el),
                ));
            } else {
                lemma_parse_nodes_wf(s, step_pos(i, r.1, s.len() as int));
            }
        }
    }
}

/// Every node list the parser returns is well formed.
pub proof fn lemma_parse_nodes_wf(s: Seq<char>, i: int)
    requires
        0 <= i <= s.len(),
    ensures
        nodes_wf(parse_nodes_spec(s, i).0),
    decreases s.len() - i, 1int,
{
    if i >= s.len() {
    } else if s[i] == '<' && i + 1 < s.len() && s[i + 1] == '/' {
    } else if s[i] == '<' {
        lemma_parse_element_wf(s, i);
        let r = parse_element_spec(s, i);
        match r.0 {
            Some(el) => {
                lemma_parse_nodes_wf(s, step_pos(i, r.1, s.len() as int));
                let rest = parse_nodes_spec(s, step_pos(i, r.1, s.len() as int)).0;
                let whole = seq![SpecNode::Element(el)] + rest;
                assert(whole[0] == SpecNode::Element(el));
                assert(whole.drop_first() =~= rest);
                assert(nodes_wf(whole));
            },
            None => {
                let t = scan_until_end(s, i + 1, '<');
                lemma_parse_nodes_wf(s, step_pos(i, t, s.len() as int));
                let rest = parse_nodes_spec(s, step_pos(i, t, s.len() as int)).0;
                let whole = seq![SpecNode::Text(s.subrange(i, t))] + rest;
                assert(whole[0] == SpecNode::Text(s.subrange(i, t)));
                assert(node_wf(whole[0]));
                assert(whole.drop_first() =~= rest);
                assert(nodes_wf(whole));
            },
        }
    } else {
        let t = scan_until_end(s, i, '<');
        lemma_parse_nodes_wf(s, step_pos(i, t, s.len() as int));
        let rest = parse_nodes_spec(s, step_pos(i, t, s.len() as int)).0;
        let whole = seq![SpecNode::Text(s.subrange(i, t))] + rest;
        assert(whole[0] == SpecNode::Text(s.subrange(i, t)));
        assert(node_wf(whole[0]));
        assert(whole.drop_first() =~= rest);
        assert(nodes_wf(whole));
    }
}


/// No text node of the tree is blank: its content does not trim to
/// empty.
pub open spec fn node_text_kept(n: SpecNode) -> bool
    decreases n, 1int,
{
    match n {
        SpecNode::Text(t) => !all_ws(t),
        SpecNode::Element(e) => nodes_text_kept(e.children),
    }
}

pub open spec fn nodes_text_kept(ns: Seq<SpecNode>) -> bool
    decreases ns, 2int,
{
    ns.len() == 0 || (node_text_kept(ns[0]) && nodes_text_kept(ns.drop_first()))
}

/// Whitespace-only text runs never materialize: every text node in an
/// element the parser returns has content that does not trim to
/// empty. Ordinary runs are checked before they are kept, and the
/// fallback text after a failed element attempt starts with `<`.
pub proof fn lemma_parse_element_text_kept(s: Seq<char>, i: int)
    requires
        0 <= i <= s.len(),
    ensures
        parse_element_spec(s, i).0 matches Some(el) ==> nodes_text_kept(el.children),
    decreases s.len() - i, 0int,
{
    if i < s.len() && s[i] == '<' && !(i + 1 < s.len() && s[i + 1] == '/') {
        let r = open_tag_spec(s, i);
        if r.0 is Some {
            let ot = r.0->0;
            if ot.2 || is_void_tag(ot.0) {
                assert(nodes_text_kept(Seq::<SpecNode>::empty()));
            } else {
                lemma_parse_nodes_text_kept(s, step_pos(i, r.1, s.len() as int));
            }
        }
    }
}

/// Whitespace-only text runs never materialize in any node list the
/// parser returns.
pub proof fn lemma_parse_nodes_text_kept(s: Seq<char>, i: int)
    requires
        0 <= i <= s.len(),
    ensures
        nodes_text_kept(parse_nodes_spec(s, i).0),
    decreases s.len() - i, 1int,
{
    if i >= s.len() {
    } else if s[i] == '<' && i + 1 < s.len() && s[i + 1] == '/' {
    } else if s[i] == '<' {
        lemma_parse_element_text_kept(s, i);
        let r = parse_element_spec(s, i);
        match r.0 {
            Some(el) => {
                lemma_parse_nodes_text_kept(s, step_pos(i, r.1, s.len() as int));
                let rest = parse_nodes_spec(s, step_pos(i, r.1, s.len() as int)).0;
                let whole = seq![SpecNode::Element(el)] + rest;
                assert(whole[0] == SpecNode::Element(el));
                assert(node_text_kept(whole[0]));
                assert(whole.drop_first() =~= rest);
                assert(nodes_text_kept(whole));
            },
            None => {
                let t = scan_until_end(s, i + 1, '<');
                lemma_scan_until_end(s, i + 1, '<');
                lemma_parse_nodes_text_kept(s, step_pos(i, t, s.len() as int));
                let rest = parse_nodes_spec(s, step_pos(i, t, s.len() as int)).0;
                let txt = s.subrange(i, t);
                assert(txt.len() >= 1);
                assert(txt[0] == '<');
                assert(!all_ws(txt)) by {
                    if all_ws(txt) {
                        assert(is_ws_char(txt[0]));
                    }
                }
                let whole = seq![SpecNode::Text(txt)] + rest;
                assert(whole[0] == SpecNode::Text(txt));
                assert(node_text_kept(whole[0]));
                assert(whole.drop_first() =~= rest);
                assert(nodes_text_kept(whole));
            },
        }
    } else {
        let t = scan_until_end(s, i, '<');
        lemma_parse_nodes_text_kept(s, step_pos(i, t, s.len() as int));
        let rest = parse_nodes_spec(s, step_pos(i, t, s.len() as int)).0;
        let txt = s.subrange(i, t);
        if !all_ws(txt) {
            let whole = seq![SpecNode::Text(txt)] + rest;
            assert(whole[0] == SpecNode::Text(txt));
            assert(node_text_kept(whole[0]));
            assert(whole.drop_first() =~= rest);
            assert(nodes_text_kept(whole));
        }
    }
}

} // verus!
