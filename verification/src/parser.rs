//! The executable recursive-descent parser, proved to return exactly
//! what the grammar's spec functions define.

use vstd::prelude::*;
use crate::ast::{AttrValue, ElementNode, Node, deep_attr, deep_attrs, deep_nodes,
    lemma_deep_nodes_push};
use crate::chars::{char_to_uppercase, is_name_end, is_tag_char_exec, is_void_element, is_ws,
    upper_of};
use crate::emit::text_is_all_ws;
use crate::grammar::{
    capitalize_spec, normalize_attr_name_spec, open_tag_spec, close_tag_skip_spec,
    parse_attr_value_spec, parse_attrs_spec, parse_element_spec, parse_nodes_spec, step_pos,
    lemma_attr_value_bounds, lemma_parse_attrs_bounds, lemma_parse_element_bounds,
    lemma_parse_nodes_bounds,
};
use crate::scan::{
    scan_attr_name_end, scan_tag_name_end, scan_until_end, scan_unquoted_end, scan_ws_end,
    lemma_scan_attr_name_end, lemma_scan_tag_name_end, lemma_scan_until_end, lemma_scan_ws_end,
};

verus! {

/// The first character mapped to its uppercase form, the rest kept.
pub fn capitalize(s: &Vec<char>) -> (r: Vec<char>)
    ensures
        r@ == capitalize_spec(s@),
{
    if s.len() == 0 {
        let r: Vec<char> = Vec::new();
        proof {
            assert(r@ =~= capitalize_spec(s@));
        }
        return r;
    }
    let mut r = char_to_uppercase(s[0]);
    let mut k: usize = 1;
    while k < s.len()
        invariant
            1 <= k <= s@.len(),
            s@.len() >= 1,
            r@ == upper_of(s@[0]) + s@.subrange(1, k as int),
        decreases s@.len() - k,
    {
        let c = s[k];
        r.push(c);
        proof {
            assert(upper_of(s@[0]) + s@.subrange(1, k + 1 as int) =~= (upper_of(s@[0])
                + s@.subrange(1, k as int)).push(s@[k as int]));
        }
        k += 1;
    }
    proof {
        assert(s@.subrange(1, s@.len() as int) =~= s@.drop_first());
        assert(r@ =~= capitalize_spec(s@));
    }
    r
}

/// `on:rest` and `@rest` become `on` + `Rest`; other names pass
/// through unchanged.
pub fn normalize_attr_name(name: &Vec<char>) -> (r: Vec<char>)
    ensures
        r@ == normalize_attr_name_spec(name@),
{
    let on_form = name.len() >= 3 && name[0] == 'o' && name[1] == 'n' && name[2] == ':';
    let at_form = name.len() >= 1 && name[0] == '@';
    if on_form || at_form {
        let start: usize = if on_form {
            3
        } else {
            1
        };
        let mut rest: Vec<char> = Vec::new();
        let mut k: usize = start;
        while k < name.len()
            invariant
                start <= k <= name@.len(),
                rest@ == name@.subrange(start as int, k as int),
            decreases name@.len() - k,
        {
            let c = name[k];
            rest.push(c);
            proof {
                assert(name@.subrange(start as int, k + 1 as int) =~= name@.subrange(
                    start as int,
                    k as int,
                ).push(name@[k as int]));
            }
            k += 1;
        }
        proof {
            assert(rest@ =~= name@.skip(start as int));
        }
        let cap = capitalize(&rest);
        let mut out: Vec<char> = Vec::new();
        out.push('o');
        out.push('n');
        let mut j: usize = 0;
        while j < cap.len()
            invariant
                j <= cap@.len(),
                out@ == seq!['o', 'n'] + cap@.subrange(0, j as int),
            decreases cap@.len() - j,
        {
            let c = cap[j];
            out.push(c);
            proof {
                assert(seq!['o', 'n'] + cap@.subrange(0, j + 1 as int) =~= (seq!['o', 'n']
                    + cap@.subrange(0, j as int)).push(cap@[j as int]));
            }
            j += 1;
        }
        proof {
            assert(cap@.subrange(0, cap@.len() as int) =~= cap@);
            assert(out@ =~= normalize_attr_name_spec(name@));
        }
        out
    } else {
        let mut out: Vec<char> = Vec::new();
        let mut k: usize = 0;
        while k < name.len()
            invariant
                k <= name@.len(),
                out@ == name@.subrange(0, k as int),
            decreases name@.len() - k,
        {
            let c = name[k];
            out.push(c);
            proof {
                assert(name@.subrange(0, k + 1 as int) =~= name@.subrange(0, k as int).push(
                    name@[k as int],
                ));
            }
            k += 1;
        }
        proof {
            assert(out@ =~= name@);
        }
        out
    }
}

/// A cursor over the template text, advanced by whole characters.
pub struct Parser<'a> {
    pub s: &'a [char],
    pub i: usize,
}

impl<'a> Parser<'a> {
    /// The cursor never leaves the input.
    pub open spec fn wf(self) -> bool {
        self.i <= self.s@.len()
    }

    pub fn new(s: &'a [char]) -> (r: Parser<'a>)
        ensures
            r.wf(),
            r.s@ == s@,
            r.i == 0,
    {
        Parser { s, i: 0 }
    }

    pub fn eof(&self) -> (r: bool)
        ensures
            r == (self.i >= self.s@.len()),
    {
        self.i >= self.s.len()
    }

    /// Advances the cursor past whitespace.
    pub fn skip_ws(&mut self)
        requires
            old(self).wf(),
        ensures
            final(self).wf(),
            final(self).s@ == old(self).s@,
            final(self).i as int == scan_ws_end(old(self).s@, old(self).i as int),
    {
        while self.i < self.s.len() && is_ws(self.s[self.i])
            invariant
                self.wf(),
                self.s@ == old(self).s@,
                old(self).i <= self.i,
                scan_ws_end(self.s@, old(self).i as int) == scan_ws_end(self.s@, self.i as int),
            decreases self.s@.len() - self.i,
        {
            self.i = self.i + 1;
        }
    }

    /// Scans the run of tag-name characters at the cursor.
    pub fn parse_tag_name(&mut self) -> (r: Vec<char>)
        requires
            old(self).wf(),
        ensures
            final(self).wf(),
            final(self).s@ == old(self).s@,
            final(self).i as int == scan_tag_name_end(old(self).s@, old(self).i as int),
            r@ == old(self).s@.subrange(
                old(self).i as int,
                scan_tag_name_end(old(self).s@, old(self).i as int),
            ),
    {
        let mut out: Vec<char> = Vec::new();
        while self.i < self.s.len() && is_tag_char_exec(self.s[self.i])
            invariant
                self.wf(),
                self.s@ == old(self).s@,
                old(self).i <= self.i,
                out@ == self.s@.subrange(old(self).i as int, self.i as int),
                scan_tag_name_end(self.s@, old(self).i as int) == scan_tag_name_end(
                    self.s@,
                    self.i as int,
                ),
            decreases self.s@.len() - self.i,
        {
            let c = self.s[self.i];
            out.push(c);
            proof {
                assert(self.s@.subrange(old(self).i as int, self.i + 1 as int) =~= self.s@.subrange(
                    old(self).i as int,
                    self.i as int,
                ).push(self.s@[self.i as int]));
            }
            self.i = self.i + 1;
        }
        out
    }

    /// Scans the run of attribute-name characters at the cursor.
    pub fn parse_attr_name(&mut self) -> (r: Vec<char>)
        requires
            old(self).wf(),
        ensures
            final(self).wf(),
            final(self).s@ == old(self).s@,
            final(self).i as int == scan_attr_name_end(old(self).s@, old(self).i as int),
            r@ == old(self).s@.subrange(
                old(self).i as int,
                scan_attr_name_end(old(self).s@, old(self).i as int),
            ),
    {
        let mut out: Vec<char> = Vec::new();
        while self.i < self.s.len() && !is_name_end(self.s[self.i])
            invariant
                self.wf(),
                self.s@ == old(self).s@,
                old(self).i <= self.i,
                out@ == self.s@.subrange(old(self).i as int, self.i as int),
                scan_attr_name_end(self.s@, old(self).i as int) == scan_attr_name_end(
                    self.s@,
                    self.i as int,
                ),
            decreases self.s@.len() - self.i,
        {
            let c = self.s[self.i];
            out.push(c);
            proof {
                assert(self.s@.subrange(old(self).i as int, self.i + 1 as int) =~= self.s@.subrange(
                    old(self).i as int,
                    self.i as int,
                ).push(self.s@[self.i as int]));
            }
            self.i = self.i + 1;
        }
        out
    }

    /// Collects text up to the next `<` (exclusive) or the end of
    /// input.
    pub fn collect_text_until_tag(&mut self) -> (r: Vec<char>)
        requires
            old(self).wf(),
        ensures
            final(self).wf(),
            final(self).s@ == old(self).s@,
            final(self).i as int == scan_until_end(old(self).s@, old(self).i as int, '<'),
            r@ == old(self).s@.subrange(
                old(self).i as int,
                scan_until_end(old(self).s@, old(self).i as int, '<'),
            ),
    {
        let mut out: Vec<char> = Vec::new();
        while self.i < self.s.len() && self.s[self.i] != '<'
            invariant
                self.wf(),
                self.s@ == old(self).s@,
                old(self).i <= self.i,
                out@ == self.s@.subrange(old(self).i as int, self.i as int),
                scan_until_end(self.s@, old(self).i as int, '<') == scan_until_end(
                    self.s@,
                    self.i as int,
                    '<',
                ),
            decreases self.s@.len() - self.i,
        {
            let c = self.s[self.i];
            out.push(c);
            proof {
                assert(self.s@.subrange(old(self).i as int, self.i + 1 as int) =~= self.s@.subrange(
                    old(self).i as int,
                    self.i as int,
                ).push(self.s@[self.i as int]));
            }
            self.i = self.i + 1;
        }
        out
    }

    /// Collects text up to the closing quote (exclusive) or the end of
    /// input; the quote itself is left for the caller.
    pub fn collect_until_quote(&mut self, q: char) -> (r: Vec<char>)
        requires
            old(self).wf(),
        ensures
            final(self).wf(),
            final(self).s@ == old(self).s@,
            final(self).i as int == scan_until_end(old(self).s@, old(self).i as int, q),
            r@ == old(self).s@.subrange(
                old(self).i as int,
                scan_until_end(old(self).s@, old(self).i as int, q),
            ),
    {
        let mut out: Vec<char> = Vec::new();
        while self.i < self.s.len() && self.s[self.i] != q
            invariant
                self.wf(),
                self.s@ == old(self).s@,
                old(self).i <= self.i,
                out@ == self.s@.subrange(old(self).i as int, self.i as int),
                scan_until_end(self.s@, old(self).i as int, q) == scan_until_end(
                    self.s@,
                    self.i as int,
                    q,
                ),
            decreases self.s@.len() - self.i,
        {
            let c = self.s[self.i];
            out.push(c);
            proof {
                assert(self.s@.subrange(old(self).i as int, self.i + 1 as int) =~= self.s@.subrange(
                    old(self).i as int,
                    self.i as int,
                ).push(self.s@[self.i as int]));
            }
            self.i = self.i + 1;
        }
        out
    }

    /// Collects text up to the first `}`; the brace, if found, is
    /// consumed. Nested braces are not tracked: the first `}` ends the
    /// expression.
    pub fn collect_until_matching_brace(&mut self) -> (r: Vec<char>)
        requires
            old(self).wf(),
        ensures
            final(self).wf(),
            final(self).s@ == old(self).s@,
            final(self).i as int == ({
                let e = scan_until_end(old(self).s@, old(self).i as int, '}');
                if e < old(self).s@.len() {
                    e + 1
                } else {
                    e
                }
            }),
            r@ == old(self).s@.subrange(
                old(self).i as int,
                scan_until_end(old(self).s@, old(self).i as int, '}'),
            ),
    {
        let mut out: Vec<char> = Vec::new();
        while self.i < self.s.len() && self.s[self.i] != '}'
            invariant
                self.wf(),
                self.s@ == old(self).s@,
                old(self).i <= self.i,
                out@ == self.s@.subrange(old(self).i as int, self.i as int),
                scan_until_end(self.s@, old(self).i as int, '}') == scan_until_end(
                    self.s@,
                    self.i as int,
                    '}',
                ),
            decreases self.s@.len() - self.i,
        {
            let c = self.s[self.i];
            out.push(c);
            proof {
                assert(self.s@.subrange(old(self).i as int, self.i + 1 as int) =~= self.s@.subrange(
                    old(self).i as int,
                    self.i as int,
                ).push(self.s@[self.i as int]));
            }
            self.i = self.i + 1;
        }
        if self.i < self.s.len() {
            self.i = self.i + 1;
        }
        out
    }

    /// Scans one attribute value: `{...}`, a quoted string, or an
    /// unquoted token.
    pub fn parse_attr_value(&mut self) -> (r: AttrValue)
        requires
            old(self).wf(),
        ensures
            final(self).wf(),
            final(self).s@ == old(self).s@,
            old(self).i <= final(self).i,
            r.deep() == parse_attr_value_spec(old(self).s@, old(self).i as int).0,
            final(self).i as int == parse_attr_value_spec(old(self).s@, old(self).i as int).1,
    {
        let ghost s0 = old(self).s@;
        let ghost i0 = old(self).i as int;
        if self.i < self.s.len() && self.s[self.i] == '{' {
            self.i = self.i + 1;
            let e = self.collect_until_matching_brace();
            proof {
                lemma_scan_until_end(s0, i0 + 1, '}');
            }
            return AttrValue::JsExpr(e);
        }
        if self.i < self.s.len() && self.s[self.i] == '"' {
            self.i = self.i + 1;
            let v = self.collect_until_quote('"');
            proof {
                lemma_scan_until_end(s0, i0 + 1, '"');
            }
            if self.i < self.s.len() {
                self.i = self.i + 1;
            }
            return AttrValue::Str(v);
        }
        if self.i < self.s.len() && self.s[self.i] == '\'' {
            self.i = self.i + 1;
            let v = self.collect_until_quote('\'');
            proof {
                lemma_scan_until_end(s0, i0 + 1, '\'');
            }
            if self.i < self.s.len() {
                self.i = self.i + 1;
            }
            return AttrValue::Str(v);
        }
        let mut out: Vec<char> = Vec::new();
        while self.i < self.s.len() && !(is_ws(self.s[self.i]) || self.s[self.i] == '>' || (
        self.s[self.i] == '/' && self.i + 1 < self.s.len() && self.s[self.i + 1] == '>'))
            invariant
                s0 == old(self).s@,
                i0 == old(self).i as int,
                self.wf(),
                self.s@ == s0,
                i0 <= self.i as int,
                out@ == s0.subrange(i0, self.i as int),
                scan_unquoted_end(s0, i0) == scan_unquoted_end(s0, self.i as int),
            decreases s0.len() - self.i,
        {
            let c = self.s[self.i];
            out.push(c);
            proof {
                assert(s0.subrange(i0, self.i + 1 as int) =~= s0.subrange(i0, self.i as int).push(
                    s0[self.i as int],
                ));
            }
            self.i = self.i + 1;
        }
        proof {
            assert(scan_unquoted_end(s0, i0) == self.i as int);
        }
        AttrValue::Str(out)
    }

    /// Scans the attribute list of an open tag, stopping at `>`, `/>`
    /// or the end of input. An empty name consumes one character, so
    /// scanning always makes progress.
    pub fn parse_attributes(&mut self) -> (r: Vec<(Vec<char>, AttrValue)>)
        requires
            old(self).wf(),
        ensures
            final(self).wf(),
            final(self).s@ == old(self).s@,
            old(self).i <= final(self).i,
            deep_attrs(r@) == parse_attrs_spec(old(self).s@, old(self).i as int).0,
            final(self).i as int == parse_attrs_spec(old(self).s@, old(self).i as int).1,
    {
        let ghost s0 = old(self).s@;
        let ghost i0 = old(self).i as int;
        let mut attrs: Vec<(Vec<char>, AttrValue)> = Vec::new();
        proof {
            assert(deep_attrs(attrs@) =~= Seq::<(Seq<char>, crate::ast::SpecAttrValue)>::empty());
        }
        loop
            invariant
                s0 == old(self).s@,
                i0 == old(self).i as int,
                self.wf(),
                self.s@ == s0,
                i0 <= self.i as int,
                parse_attrs_spec(s0, i0).0 == deep_attrs(attrs@) + parse_attrs_spec(
                    s0,
                    self.i as int,
                ).0,
                parse_attrs_spec(s0, i0).1 == parse_attrs_spec(s0, self.i as int).1,
            ensures
                self.wf(),
                self.s@ == s0,
                i0 <= self.i as int,
                parse_attrs_spec(s0, i0).0 == deep_attrs(attrs@),
                parse_attrs_spec(s0, i0).1 == self.i as int,
            decreases s0.len() - self.i,
        {
            let ghost ip = self.i as int;
            self.skip_ws();
            proof {
                lemma_scan_ws_end(s0, ip);
            }
            let ghost j = self.i as int;
            if self.eof() {
                proof {
                    assert(parse_attrs_spec(s0, ip) == (
                        Seq::<(Seq<char>, crate::ast::SpecAttrValue)>::empty(),
                        j,
                    ));
                    assert(parse_attrs_spec(s0, j) == (
                        Seq::<(Seq<char>, crate::ast::SpecAttrValue)>::empty(),
                        j,
                    ));
                    assert(deep_attrs(attrs@) + parse_attrs_spec(s0, ip).0 =~= deep_attrs(attrs@));
                }
                break;
            }
            let c = self.s[self.i];
            if c == '>' || (c == '/' && self.i + 1 < self.s.len() && self.s[self.i + 1] == '>') {
                proof {
                    assert(scan_ws_end(s0, j) == j);
                    assert(parse_attrs_spec(s0, ip) == (
                        Seq::<(Seq<char>, crate::ast::SpecAttrValue)>::empty(),
                        j,
                    ));
                    assert(parse_attrs_spec(s0, j) == (
                        Seq::<(Seq<char>, crate::ast::SpecAttrValue)>::empty(),
                        j,
                    ));
                    assert(deep_attrs(attrs@) + parse_attrs_spec(s0, ip).0 =~= deep_attrs(attrs@));
                }
                break;
            }
            let raw = self.parse_attr_name();
            proof {
                lemma_scan_attr_name_end(s0, j);
            }
            let ghost ne = self.i as int;
            if raw.len() == 0 {
                self.i = self.i + 1;
                proof {
                    assert(ne == j);
                    assert(step_pos(ip, j + 1, s0.len() as int) == j + 1);
                }
                continue;
            }
            proof {
                assert(ne > j);
            }
            self.skip_ws();
            proof {
                lemma_scan_ws_end(s0, ne);
            }
            let ghost k = self.i as int;
            let ghost name_spec = s0.subrange(j, ne);
            if self.i < self.s.len() && self.s[self.i] == '=' {
                self.i = self.i + 1;
                self.skip_ws();
                proof {
                    lemma_scan_ws_end(s0, k + 1);
                }
                let ghost m = self.i as int;
                let val = self.parse_attr_value();
                proof {
                    lemma_attr_value_bounds(s0, m);
                }
                let ghost q = self.i as int;
                let norm = normalize_attr_name(&raw);
                attrs.push((norm, val));
                proof {
                    assert(step_pos(ip, q, s0.len() as int) == q);
                    let pair = (normalize_attr_name_spec(name_spec),
                        parse_attr_value_spec(s0, m).0);
                    assert(parse_attrs_spec(s0, ip).0 == seq![pair] + parse_attrs_spec(s0, q).0);
                    assert(parse_attrs_spec(s0, ip).1 == parse_attrs_spec(s0, q).1);
                    assert(deep_attrs(attrs@) =~= deep_attrs(attrs@.drop_last()).push(
                        deep_attr(attrs@.last()),
                    ));
                    assert(deep_attr(attrs@.last()) == pair);
                    assert(deep_attrs(attrs@) + parse_attrs_spec(s0, q).0 =~= deep_attrs(
                        attrs@.drop_last(),
                    ) + (seq![pair] + parse_attrs_spec(s0, q).0));
                }
            } else {
                let norm = normalize_attr_name(&raw);
                attrs.push((norm, AttrValue::BoolTrue));
                proof {
                    assert(step_pos(ip, k, s0.len() as int) == k);
                    let pair = (normalize_attr_name_spec(name_spec),
                        crate::ast::SpecAttrValue::BoolTrue);
                    assert(parse_attrs_spec(s0, ip).0 == seq![pair] + parse_attrs_spec(s0, k).0);
                    assert(parse_attrs_spec(s0, ip).1 == parse_attrs_spec(s0, k).1);
                    assert(deep_attrs(attrs@) =~= deep_attrs(attrs@.drop_last()).push(
                        deep_attr(attrs@.last()),
                    ));
                    assert(deep_attr(attrs@.last()) == pair);
                    assert(deep_attrs(attrs@) + parse_attrs_spec(s0, k).0 =~= deep_attrs(
                        attrs@.drop_last(),
                    ) + (seq![pair] + parse_attrs_spec(s0, k).0));
                }
            }
        }
        attrs
    }

    /// Parses one element at the cursor. On failure the cursor stays
    /// where scanning stopped and the caller degrades to a text node
    /// that starts back at the `<`.
    pub fn parse_element(&mut self) -> (r: Option<ElementNode>)
        requires
            old(self).wf(),
        ensures
            final(self).wf(),
            final(self).s@ == old(self).s@,
            old(self).i <= final(self).i,
            final(self).i as int == parse_element_spec(old(self).s@, old(self).i as int).1,
            match r {
                Some(el) => parse_element_spec(old(self).s@, old(self).i as int).0 == Some(
                    el.deep(),
                ),
                None => parse_element_spec(old(self).s@, old(self).i as int).0 is None,
            },
        decreases self.s@.len() - self.i, 0int,
    {
        let ghost s0 = old(self).s@;
        let ghost i0 = old(self).i as int;
        if !(self.i < self.s.len() && self.s[self.i] == '<') || (self.i + 1 < self.s.len()
            && self.s[self.i + 1] == '/') {
            return None;
        }
        self.i = self.i + 1;
        self.skip_ws();
        proof {
            lemma_scan_ws_end(s0, i0 + 1);
        }
        let ghost j = self.i as int;
        let tag = self.parse_tag_name();
        proof {
            lemma_scan_tag_name_end(s0, j);
        }
        let ghost te = self.i as int;
        if tag.len() == 0 {
            proof {
                assert(te == j);
                assert(open_tag_spec(s0, i0).0 is None);
                assert(open_tag_spec(s0, i0).1 == j);
            }
            return None;
        }
        proof {
            assert(te > j);
        }
        let attrs = self.parse_attributes();
        proof {
            lemma_parse_attrs_bounds(s0, te);
        }
        let ghost k = self.i as int;
        let ghost tag_spec = s0.subrange(j, te);
        proof {
            assert(tag@ == tag_spec);
        }
        if self.i < self.s.len() && self.s[self.i] == '/' && self.i + 1 < self.s.len()
            && self.s[self.i + 1] == '>' {
            self.i = self.i + 2;
            let el = ElementNode { tag, attrs, children: Vec::new(), self_closing: true };
            proof {
                assert(open_tag_spec(s0, i0).0 == Some((tag_spec, parse_attrs_spec(s0, te).0, true)));
                assert(open_tag_spec(s0, i0).1 == k + 2);
                assert(deep_nodes(el.children@) =~= Seq::<crate::ast::SpecNode>::empty());
                assert(parse_element_spec(s0, i0).0 == Some(el.deep()));
                assert(parse_element_spec(s0, i0).1 == k + 2);
            }
            return Some(el);
        }
        if self.i < self.s.len() && self.s[self.i] == '>' {
            self.i = self.i + 1;
        } else {
            proof {
                assert(open_tag_spec(s0, i0).0 is None);
                assert(open_tag_spec(s0, i0).1 == k);
                assert(parse_element_spec(s0, i0).0 is None);
                assert(parse_element_spec(s0, i0).1 == k);
            }
            return None;
        }
        let ghost p = self.i as int;
        let is_void = is_void_element(tag.as_slice());
        proof {
            assert(open_tag_spec(s0, i0).0 == Some((tag_spec, parse_attrs_spec(s0, te).0, false)));
            assert(open_tag_spec(s0, i0).1 == p);
        }
        if is_void {
            let el = ElementNode { tag, attrs, children: Vec::new(), self_closing: true };
            proof {
                assert(deep_nodes(el.children@) =~= Seq::<crate::ast::SpecNode>::empty());
                assert(parse_element_spec(s0, i0).0 == Some(el.deep()));
                assert(parse_element_spec(s0, i0).1 == p);
            }
            return Some(el);
        }
        proof {
            assert(step_pos(i0, p, s0.len() as int) == p);
        }
        let children = self.parse_nodes();
        let ghost q = self.i as int;
        proof {
            lemma_parse_nodes_bounds(s0, p);
            assert(q == parse_nodes_spec(s0, p).1);
        }
        if self.i < self.s.len() && self.s[self.i] == '<' && self.i + 1 < self.s.len()
            && self.s[self.i + 1] == '/' {
            self.i = self.i + 2;
            self.skip_ws();
            proof {
                lemma_scan_ws_end(s0, q + 2);
            }
            let ghost a = self.i as int;
            let _close = self.parse_tag_name();
            proof {
                lemma_scan_tag_name_end(s0, a);
            }
            let ghost b = self.i as int;
            while self.i < self.s.len() && self.s[self.i] != '>'
                invariant
                    s0 == old(self).s@,
                    self.wf(),
                    self.s@ == s0,
                    0 <= b <= self.i as int,
                    scan_until_end(s0, b, '>') == scan_until_end(s0, self.i as int, '>'),
                decreases s0.len() - self.i,
            {
                self.i = self.i + 1;
            }
            proof {
                assert(scan_until_end(s0, b, '>') == self.i as int);
            }
            if self.i < self.s.len() {
                self.i = self.i + 1;
            }
            proof {
                assert(close_tag_skip_spec(s0, q) == self.i as int);
            }
        } else {
            proof {
                assert(close_tag_skip_spec(s0, q) == q);
            }
        }
        let el = ElementNode { tag, attrs, children, self_closing: false };
        proof {
            assert(parse_element_spec(s0, i0).0 == Some(el.deep()));
            assert(parse_element_spec(s0, i0).1 == self.i as int);
        }
        Some(el)
    }

    /// Parses sibling nodes until the end of input or a `</` marker.
    pub fn parse_nodes(&mut self) -> (r: Vec<Node>)
        requires
            old(self).wf(),
        ensures
            final(self).wf(),
            final(self).s@ == old(self).s@,
            old(self).i <= final(self).i,
            deep_nodes(r@) == parse_nodes_spec(old(self).s@, old(self).i as int).0,
            final(self).i as int == parse_nodes_spec(old(self).s@, old(self).i as int).1,
        decreases self.s@.len() - self.i, 1int,
    {
        let ghost s0 = old(self).s@;
        let ghost i0 = old(self).i as int;
        let mut nodes: Vec<Node> = Vec::new();
        proof {
            assert(deep_nodes(nodes@) =~= Seq::<crate::ast::SpecNode>::empty());
        }
        loop
            invariant
                s0 == old(self).s@,
                i0 == old(self).i as int,
                self.wf(),
                self.s@ == s0,
                i0 <= self.i as int,
                parse_nodes_spec(s0, i0).0 == deep_nodes(nodes@) + parse_nodes_spec(
                    s0,
                    self.i as int,
                ).0,
                parse_nodes_spec(s0, i0).1 == parse_nodes_spec(s0, self.i as int).1,
            ensures
                self.wf(),
                self.s@ == s0,
                i0 <= self.i as int,
                parse_nodes_spec(s0, i0).0 == deep_nodes(nodes@),
                parse_nodes_spec(s0, i0).1 == self.i as int,
            decreases s0.len() - self.i,
        {
            let ghost ip = self.i as int;
            if self.eof() {
                proof {
                    assert(parse_nodes_spec(s0, ip).0 =~= Seq::<crate::ast::SpecNode>::empty());
                    assert(deep_nodes(nodes@) + parse_nodes_spec(s0, ip).0 =~= deep_nodes(nodes@));
                }
                break;
            }
            if self.s[self.i] == '<' && self.i + 1 < self.s.len() && self.s[self.i + 1] == '/' {
                proof {
                    assert(parse_nodes_spec(s0, ip).0 =~= Seq::<crate::ast::SpecNode>::empty());
                    assert(deep_nodes(nodes@) + parse_nodes_spec(s0, ip).0 =~= deep_nodes(nodes@));
                }
                break;
            }
            if self.s[self.i] == '<' {
                let start = self.i;
                let el_opt = self.parse_element();
                proof {
                    lemma_parse_element_bounds(s0, ip);
                }
                let ghost jp = self.i as int;
                match el_opt {
                    Some(el) => {
                        proof {
                            assert(step_pos(ip, jp, s0.len() as int) == jp);
                        }
                        let ghost old_nodes = nodes@;
                        let ghost dn = el.deep();
                        nodes.push(Node::Element(el));
                        proof {
                            lemma_deep_nodes_push(old_nodes, nodes@.last());
                            assert(nodes@.last().deep() == crate::ast::SpecNode::Element(dn));
                            assert(parse_nodes_spec(s0, ip).0 == seq![
                                crate::ast::SpecNode::Element(dn),
                            ] + parse_nodes_spec(s0, jp).0);
                            assert(parse_nodes_spec(s0, ip).1 == parse_nodes_spec(s0, jp).1);
                            assert(deep_nodes(nodes@) + parse_nodes_spec(s0, jp).0 =~= deep_nodes(
                                old_nodes,
                            ) + (seq![crate::ast::SpecNode::Element(dn)] + parse_nodes_spec(
                                s0,
                                jp,
                            ).0));
                        }
                    },
                    None => {
                        self.i = start + 1;
                        let rest_text = self.collect_text_until_tag();
                        let ghost tend = self.i as int;
                        let mut txt: Vec<char> = Vec::new();
                        txt.push('<');
                        let mut tail = rest_text;
                        txt.append(&mut tail);
                        proof {
                            lemma_scan_until_end(s0, ip + 1, '<');
                            assert(step_pos(ip, tend, s0.len() as int) == tend);
                            assert(txt@ =~= s0.subrange(ip, tend));
                        }
                        let ghost old_nodes = nodes@;
                        let ghost tv = txt@;
                        nodes.push(Node::Text(txt));
                        proof {
                            lemma_deep_nodes_push(old_nodes, nodes@.last());
                            assert(nodes@.last().deep() == crate::ast::SpecNode::Text(tv));
                            assert(parse_nodes_spec(s0, ip).0 == seq![
                                crate::ast::SpecNode::Text(tv),
                            ] + parse_nodes_spec(s0, tend).0);
                            assert(parse_nodes_spec(s0, ip).1 == parse_nodes_spec(s0, tend).1);
                            assert(deep_nodes(nodes@) + parse_nodes_spec(s0, tend).0 =~= deep_nodes(
                                old_nodes,
                            ) + (seq![crate::ast::SpecNode::Text(tv)] + parse_nodes_spec(
                                s0,
                                tend,
                            ).0));
                        }
                    },
                }
            } else {
                let t = self.collect_text_until_tag();
                let ghost tend = self.i as int;
                let aw = text_is_all_ws(&t);
                proof {
                    lemma_scan_until_end(s0, ip, '<');
                    lemma_scan_until_end(s0, ip + 1, '<');
                    assert(tend > ip);
                    assert(step_pos(ip, tend, s0.len() as int) == tend);
                }
                if !aw {
                    let ghost old_nodes = nodes@;
                    let ghost tv = t@;
                    nodes.push(Node::Text(t));
                    proof {
                        lemma_deep_nodes_push(old_nodes, nodes@.last());
                        assert(nodes@.last().deep() == crate::ast::SpecNode::Text(tv));
                        assert(parse_nodes_spec(s0, ip).0 == seq![crate::ast::SpecNode::Text(tv)]
                            + parse_nodes_spec(s0, tend).0);
                        assert(parse_nodes_spec(s0, ip).1 == parse_nodes_spec(s0, tend).1);
                        assert(deep_nodes(nodes@) + parse_nodes_spec(s0, tend).0 =~= deep_nodes(
                            old_nodes,
                        ) + (seq![crate::ast::SpecNode::Text(tv)] + parse_nodes_spec(s0, tend).0));
                    }
                } else {
                    proof {
                        assert(parse_nodes_spec(s0, ip).0 == parse_nodes_spec(s0, tend).0);
                        assert(parse_nodes_spec(s0, ip).1 == parse_nodes_spec(s0, tend).1);
                    }
                }
            }
        }
        nodes
    }
}

} // verus!
