//! Character classes and string helpers shared by the parser and the
//! emitter.
//!
//! The scanner works over sequences of whole characters, so the library
//! converts between `&str` and `Vec<char>` at its boundary and keeps
//! every predicate on characters as a spec function of its own.

use vstd::prelude::*;
use vstd::string::StrSliceExecFns;

verus! {

/// The Unicode `White_Space` characters, the set `char::is_whitespace`
/// recognizes.
pub open spec fn is_ws_char(c: char) -> bool {
    let u = c as u32;
    u == 0x20 || u == 0x09 || u == 0x0A || u == 0x0B || u == 0x0C || u == 0x0D || u == 0x85
        || u == 0xA0 || u == 0x1680 || (0x2000 <= u && u <= 0x200A) || u == 0x2028 || u == 0x2029
        || u == 0x202F || u == 0x205F || u == 0x3000
}

pub fn is_ws(c: char) -> (r: bool)
    ensures
        r == is_ws_char(c),
{
    let u = c as u32;
    u == 0x20 || u == 0x09 || u == 0x0A || u == 0x0B || u == 0x0C || u == 0x0D || u == 0x85
        || u == 0xA0 || u == 0x1680 || (0x2000 <= u && u <= 0x200A) || u == 0x2028 || u == 0x2029
        || u == 0x202F || u == 0x205F || u == 0x3000
}

/// Characters allowed in a tag name: ASCII alphanumerics, `-`, `_`, `:`.
pub open spec fn is_tag_char(c: char) -> bool {
    let u = c as u32;
    (0x30 <= u && u <= 0x39) || (0x41 <= u && u <= 0x5A) || (0x61 <= u && u <= 0x7A) || c == '-'
        || c == '_' || c == ':'
}

pub fn is_tag_char_exec(c: char) -> (r: bool)
    ensures
        r == is_tag_char(c),
{
    let u = c as u32;
    (0x30 <= u && u <= 0x39) || (0x41 <= u && u <= 0x5A) || (0x61 <= u && u <= 0x7A) || c == '-'
        || c == '_' || c == ':'
}

/// A character that ends an attribute name: whitespace, `=`, `>`, `/`.
pub open spec fn is_name_end_char(c: char) -> bool {
    is_ws_char(c) || c == '=' || c == '>' || c == '/'
}

pub fn is_name_end(c: char) -> (r: bool)
    ensures
        r == is_name_end_char(c),
{
    is_ws(c) || c == '=' || c == '>' || c == '/'
}

/// The fixed set of void elements: tags that never have children,
/// whether or not the markup writes a closing slash.
pub open spec fn is_void_tag(t: Seq<char>) -> bool {
    ||| t == "area"@
    ||| t == "base"@
    ||| t == "br"@
    ||| t == "col"@
    ||| t == "embed"@
    ||| t == "hr"@
    ||| t == "img"@
    ||| t == "input"@
    ||| t == "link"@
    ||| t == "meta"@
    ||| t == "param"@
    ||| t == "source"@
    ||| t == "track"@
    ||| t == "wbr"@
}

/// Compares a scanned character sequence against a fixed word.
pub fn tag_is(t: &[char], w: &str) -> (r: bool)
    ensures
        r == (t@ == w@),
{
    let n = w.unicode_len();
    if t.len() != n {
        proof {
            assert(t@.len() != w@.len());
        }
        return false;
    }
    let mut k: usize = 0;
    while k < n
        invariant
            n == w@.len(),
            t@.len() == n,
            k <= n,
            forall|j: int| 0 <= j < k ==> t@[j] == w@[j],
        decreases n - k,
    {
        if t[k] != w.get_char(k) {
            proof {
                assert(t@[k as int] != w@[k as int]);
            }
            return false;
        }
        k += 1;
    }
    proof {
        assert(t@ =~= w@);
    }
    true
}

pub fn is_void_element(tag: &[char]) -> (r: bool)
    ensures
        r == is_void_tag(tag@),
{
    tag_is(tag, "area") || tag_is(tag, "base") || tag_is(tag, "br") || tag_is(tag, "col")
        || tag_is(tag, "embed") || tag_is(tag, "hr") || tag_is(tag, "img") || tag_is(tag, "input")
        || tag_is(tag, "link") || tag_is(tag, "meta") || tag_is(tag, "param") || tag_is(
        tag,
        "source",
    ) || tag_is(tag, "track") || tag_is(tag, "wbr")
}

/// Reads a `&str` into its sequence of characters.
pub fn str_to_chars(s: &str) -> (r: Vec<char>)
    ensures
        r@ == s@,
{
    let n = s.unicode_len();
    let mut r: Vec<char> = Vec::new();
    let mut k: usize = 0;
    while k < n
        invariant
            n == s@.len(),
            k <= n,
            r@ == s@.subrange(0, k as int),
        decreases n - k,
    {
        let c = s.get_char(k);
        r.push(c);
        proof {
            assert(r@ =~= s@.subrange(0, k + 1 as int));
        }
        k += 1;
    }
    proof {
        assert(s@.subrange(0, n as int) =~= s@);
    }
    r
}

/// Relies on `String`'s `FromIterator` over `char`: collecting an
/// iterator of characters builds the string holding exactly those
/// characters, in order.
#[verifier::external_body]
pub(crate) fn chars_to_string(v: &Vec<char>) -> (r: String)
    ensures
        r@ == v@,
{
    v.iter().collect()
}

/// The Unicode uppercase mapping of a character, a function of the
/// character alone.
pub uninterp spec fn upper_of(c: char) -> Seq<char>;

/// Relies on `char::to_uppercase`: yields the Unicode uppercase mapping
/// of the character, determined by the character alone.
#[verifier::external_body]
pub(crate) fn char_to_uppercase(c: char) -> (r: Vec<char>)
    ensures
        r@ == upper_of(c),
{
    c.to_uppercase().collect()
}

} // verus!
