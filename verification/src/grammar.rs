//! The grammar of templates, as a spec-level recursive-descent parser.
//!
//! These functions define, position by position, what the executable
//! parser returns on every input. Parsing never fails: malformed open
//! tags degrade into text nodes, and a missing or mismatched closing
//! tag is accepted silently.

use vstd::prelude::*;
use crate::ast::{SpecAttrValue, SpecElement, SpecNode};
use crate::chars::{is_ws_char, is_void_tag, upper_of};
use crate::scan::{
    scan_ws_end, scan_tag_name_end, scan_attr_name_end, scan_until_end, scan_unquoted_end,
    lemma_scan_ws_end, lemma_scan_tag_name_end, lemma_scan_attr_name_end, lemma_scan_until_end,
    lemma_scan_unquoted_end,
};

verus! {

/// Every character of the run is whitespace.
pub open spec fn all_ws(t: Seq<char>) -> bool {
    forall|j: int| 0 <= j < t.len() ==> #[trigger] is_ws_char(t[j])
}

/// The first character mapped to its uppercase form, the rest kept.
pub open spec fn capitalize_spec(s: Seq<char>) -> Seq<char> {
    if s.len() == 0 {
        Seq::empty()
    } else {
        upper_of(s[0]) + s.drop_first()
    }
}

/// `on:rest` and `@rest` both become `on` followed by `rest`
/// capitalized; every other name passes through unchanged.
pub open spec fn normalize_attr_name_spec(name: Seq<char>) -> Seq<char> {
    if name.len() >= 3 && name[0] == 'o' && name[1] == 'n' && name[2] == ':' {
        seq!['o', 'n'] + capitalize_spec(name.skip(3))
    } else if name.len() >= 1 && name[0] == '@' {
        seq!['o', 'n'] + capitalize_spec(name.skip(1))
    } else {
        name
    }
}

/// A guarded step to a later position, used for the positions that
/// recursive calls resume from. The parser's positions always satisfy
/// `i < j <= len`, so the guard is exact; it also makes termination of
/// the definitions plain.
pub open spec fn step_pos(i: int, j: int, len: int) -> int {
    if i < j && j <= len {
        j
    } else if i + 1 <= len {
        i + 1
    } else {
        len
    }
}

/// An attribute value at `i`: `{...}` as a host expression up to the
/// first `}`, a quoted string up to the matching quote, otherwise an
/// unquoted token.
pub open spec fn parse_attr_value_spec(s: Seq<char>, i: int) -> (SpecAttrValue, int)
    recommends
        0 <= i <= s.len(),
{
    if i < s.len() && s[i] == '{' {
        let e = scan_until_end(s, i + 1, '}');
        (SpecAttrValue::JsExpr(s.subrange(i + 1, e)), if e < s.len() { e + 1 } else { e })
    } else if i < s.len() && s[i] == '"' {
        let e = scan_until_end(s, i + 1, '"');
        (SpecAttrValue::Str(s.subrange(i + 1, e)), if e < s.len() { e + 1 } else { e })
    } else if i < s.len() && s[i] == '\'' {
        let e = scan_until_end(s, i + 1, '\'');
        (SpecAttrValue::Str(s.subrange(i + 1, e)), if e < s.len() { e + 1 } else { e })
    } else {
        let e = scan_unquoted_end(s, i);
        (SpecAttrValue::Str(s.subrange(i, e)), e)
    }
}

/// The attribute list of an open tag, scanned until `>`, `/>` or the
/// end of input. An empty name consumes one character and scanning
/// resumes.
pub open spec fn parse_attrs_spec(s: Seq<char>, i: int) -> (Seq<(Seq<char>, SpecAttrValue)>, int)
    decreases s.len() - i
        when 0 <= i <= s.len()
{
    if i >= s.len() {
        (Seq::empty(), i)
    } else {
        let j = scan_ws_end(s, i);
        if j >= s.len() || s[j] == '>' || (s[j] == '/' && j + 1 < s.len() && s[j + 1] == '>') {
            (Seq::empty(), j)
        } else {
            let ne = scan_attr_name_end(s, j);
            if ne == j {
                parse_attrs_spec(s, step_pos(i, j + 1, s.len() as int))
            } else {
                let name = s.subrange(j, ne);
                let k = scan_ws_end(s, ne);
                if k < s.len() && s[k] == '=' {
                    let m = scan_ws_end(s, k + 1);
                    let v = parse_attr_value_spec(s, m);
                    let rest = parse_attrs_spec(s, step_pos(i, v.1, s.len() as int));
                    (seq![(normalize_attr_name_spec(name), v.0)] + rest.0, rest.1)
                } else {
                    let rest = parse_attrs_spec(s, step_pos(i, k, s.len() as int));
                    (seq![(normalize_attr_name_spec(name), SpecAttrValue::BoolTrue)] + rest.0,
                    rest.1)
                }
            }
        }
    }
}

/// The open tag at `i` (which holds `<`): whitespace, tag name,
/// attributes, then `/>`, `>`, or failure. On failure the position
/// reached is where scanning stopped; the caller degrades to a text
/// node that starts back at the `<`.
pub open spec fn open_tag_spec(s: Seq<char>, i: int) -> (
    Option<(Seq<char>, Seq<(Seq<char>, SpecAttrValue)>, bool)>,
    int,
)
    recommends
        0 <= i < s.len(),
{
    let j = scan_ws_end(s, i + 1);
    let te = scan_tag_name_end(s, j);
    if te == j {
        (None, j)
    } else {
        let tag = s.subrange(j, te);
        let r = parse_attrs_spec(s, te);
        if r.1 < s.len() && s[r.1] == '/' && r.1 + 1 < s.len() && s[r.1 + 1] == '>' {
            (Some((tag, r.0, true)), r.1 + 2)
        } else if r.1 < s.len() && s[r.1] == '>' {
            (Some((tag, r.0, false)), r.1 + 1)
        } else {
            (None, r.1)
        }
    }
}

/// Consumes a `</...>` closer at `q` if one is present; the closing
/// tag name is discarded without checking it against the opener.
pub open spec fn close_tag_skip_spec(s: Seq<char>, q: int) -> int
    recommends
        0 <= q <= s.len(),
{
    if q + 1 < s.len() && s[q] == '<' && s[q + 1] == '/' {
        let a = scan_ws_end(s, q + 2);
        let b = scan_tag_name_end(s, a);
        let c = scan_until_end(s, b, '>');
        if c < s.len() {
            c + 1
        } else {
            c
        }
    } else {
        q
    }
}

/// An element at `i`: requires `<` not followed by `/`. A self-closing
/// or void element takes no children; otherwise children are parsed
/// until a closer or the end of input, and a closer is skipped.
pub open spec fn parse_element_spec(s: Seq<char>, i: int) -> (Option<SpecElement>, int)
    decreases s.len() - i, 0int
        when 0 <= i <= s.len()
{
    if !(i < s.len() && s[i] == '<') || (i + 1 < s.len() && s[i + 1] == '/') {
        (None, i)
    } else {
        let r = open_tag_spec(s, i);
        match r.0 {
            None => (None, r.1),
            Some(ot) => {
                if ot.2 {
                    (
                        Some(
                            SpecElement {
                                tag: ot.0,
                                attrs: ot.1,
                                children: Seq::empty(),
                                self_closing: true,
                            },
                        ),
                        r.1,
                    )
                } else if is_void_tag(ot.0) {
                    (
                        Some(
                            SpecElement {
                                tag: ot.0,
                                attrs: ot.1,
                                children: Seq::empty(),
                                self_closing: true,
                            },
                        ),
                        r.1,
                    )
                } else {
                    let c = parse_nodes_spec(s, step_pos(i, r.1, s.len() as int));
                    (
                        Some(
                            SpecElement {
                                tag: ot.0,
                                attrs: ot.1,
                                children: c.0,
                                self_closing: false,
                            },
                        ),
                        close_tag_skip_spec(s, c.1),
                    )
                }
            },
        }
    }
}

/// The sibling nodes from `i` up to the end of input or a `</` marker.
/// Text runs that are only whitespace are dropped; when an element
/// fails to parse, the `<` and the following run of non-`<` characters
/// are kept as one text node, without the whitespace check (the `<`
/// itself makes the run non-blank).
pub open spec fn parse_nodes_spec(s: Seq<char>, i: int) -> (Seq<SpecNode>, int)
    decreases s.len() - i, 1int
        when 0 <= i <= s.len()
{
    if i >= s.len() {
        (Seq::empty(), i)
    } else if s[i] == '<' && i + 1 < s.len() && s[i + 1] == '/' {
        (Seq::empty(), i)
    } else if s[i] == '<' {
        let r = parse_element_spec(s, i);
        match r.0 {
            Some(el) => {
                let rest = parse_nodes_spec(s, step_pos(i, r.1, s.len() as int));
                (seq![SpecNode::Element(el)] + rest.0, rest.1)
            },
            None => {
                let t = scan_until_end(s, i + 1, '<');
                let rest = parse_nodes_spec(s, step_pos(i, t, s.len() as int));
                (seq![SpecNode::Text(s.subrange(i, t))] + rest.0, rest.1)
            },
        }
    } else {
        let t = scan_until_end(s, i, '<');
        let txt = s.subrange(i, t);
        let rest = parse_nodes_spec(s, step_pos(i, t, s.len() as int));
        if all_ws(txt) {
            rest
        } else {
            (seq![SpecNode::Text(txt)] + rest.0, rest.1)
        }
    }
}

pub proof fn lemma_attr_value_bounds(s: Seq<char>, i: int)
    requires
        0 <= i <= s.len(),
    ensures
        i <= parse_attr_value_spec(s, i).1 <= s.len(),
{
    if i < s.len() && s[i] == '{' {
        lemma_scan_until_end(s, i + 1, '}');
    } else if i < s.len() && s[i] == '"' {
        lemma_scan_until_end(s, i + 1, '"');
    } else if i < s.len() && s[i] == '\'' {
        lemma_scan_until_end(s, i + 1, '\'');
    } else {
        lemma_scan_unquoted_end(s, i);
    }
}

pub proof fn lemma_parse_attrs_bounds(s: Seq<char>, i: int)
    requires
        0 <= i <= s.len(),
    ensures
        i <= parse_attrs_spec(s, i).1 <= s.len(),
    decreases s.len() - i,
{
    if i < s.len() {
        let j = scan_ws_end(s, i);
        lemma_scan_ws_end(s, i);
        if !(j >= s.len() || s[j] == '>' || (s[j] == '/' && j + 1 < s.len() && s[j + 1] == '>')) {
            let ne = scan_attr_name_end(s, j);
            lemma_scan_attr_name_end(s, j);
            if ne == j {
                lemma_parse_attrs_bounds(s, j + 1);
            } else {
                let k = scan_ws_end(s, ne);
                lemma_scan_ws_end(s, ne);
                if k < s.len() && s[k] == '=' {
                    let m = scan_ws_end(s, k + 1);
                    lemma_scan_ws_end(s, k + 1);
                    lemma_attr_value_bounds(s, m);
                    let v = parse_attr_value_spec(s, m);
                    lemma_parse_attrs_bounds(s, step_pos(i, v.1, s.len() as int));
                } else {
                    lemma_parse_attrs_bounds(s, step_pos(i, k, s.len() as int));
                }
            }
        }
    }
}

pub proof fn lemma_open_tag_bounds(s: Seq<char>, i: int)
    requires
        0 <= i < s.len(),
    ensures
        i < open_tag_spec(s, i).1 <= s.len(),
{
    let j = scan_ws_end(s, i + 1);
    lemma_scan_ws_end(s, i + 1);
    let te = scan_tag_name_end(s, j);
    lemma_scan_tag_name_end(s, j);
    if te != j {
        lemma_parse_attrs_bounds(s, te);
    }
}

pub proof fn lemma_close_tag_bounds(s: Seq<char>, q: int)
    requires
        0 <= q <= s.len(),
    ensures
        q <= close_tag_skip_spec(s, q) <= s.len(),
{
    if q + 1 < s.len() && s[q] == '<' && s[q + 1] == '/' {
        let a = scan_ws_end(s, q + 2);
        lemma_scan_ws_end(s, q + 2);
        let b = scan_tag_name_end(s, a);
        lemma_scan_tag_name_end(s, a);
        lemma_scan_until_end(s, b, '>');
    }
}

/// The element parser never moves the cursor backwards, stays inside
/// the input, and makes progress whenever it is at an opener.
pub proof fn lemma_parse_element_bounds(s: Seq<char>, i: int)
    requires
        0 <= i <= s.len(),
    ensures
        i <= parse_element_spec(s, i).1 <= s.len(),
        (i < s.len() && s[i] == '<' && !(i + 1 < s.len() && s[i + 1] == '/'))
            ==> parse_element_spec(s, i).1 > i,
    decreases s.len() - i, 0int,
{
    if i < s.len() && s[i] == '<' && !(i + 1 < s.len() && s[i + 1] == '/') {
        lemma_open_tag_bounds(s, i);
        let r = open_tag_spec(s, i);
        if r.0 is Some {
            let ot = r.0->0;
            if !ot.2 && !is_void_tag(ot.0) {
                lemma_parse_nodes_bounds(s, step_pos(i, r.1, s.len() as int));
                let c = parse_nodes_spec(s, step_pos(i, r.1, s.len() as int));
                lemma_close_tag_bounds(s, c.1);
            }
        }
    }
}

/// The sibling parser never moves the cursor backwards and stays
/// inside the input.
pub proof fn lemma_parse_nodes_bounds(s: Seq<char>, i: int)
    requires
        0 <= i <= s.len(),
    ensures
        i <= parse_nodes_spec(s, i).1 <= s.len(),
    decreases s.len() - i, 1int,
{
    if i >= s.len() {
    } else if s[i] == '<' && i + 1 < s.len() && s[i + 1] == '/' {
    } else if s[i] == '<' {
        lemma_parse_element_bounds(s, i);
        let r = parse_element_spec(s, i);
        match r.0 {
            Some(el) => {
                lemma_parse_nodes_bounds(s, step_pos(i, r.1, s.len() as int));
            },
            None => {
                lemma_scan_until_end(s, i + 1, '<');
                let t = scan_until_end(s, i + 1, '<');
                lemma_parse_nodes_bounds(s, step_pos(i, t, s.len() as int));
            },
        }
    } else {
        lemma_scan_until_end(s, i, '<');
        let t = scan_until_end(s, i, '<');
        lemma_parse_nodes_bounds(s, step_pos(i, t, s.len() as int));
    }
}

} // verus!
