//! Scanning primitives of the parser, as spec functions.
//!
//! Each scanner maps a position in the input to the end of a maximal
//! run of characters (whitespace, tag-name characters, text up to a
//! stop character, ...). The executable parser is proved to advance its
//! cursor to exactly these positions.

use vstd::prelude::*;
use crate::chars::{is_ws_char, is_tag_char, is_name_end_char};

verus! {

/// End of the run of whitespace starting at `i`.
pub open spec fn scan_ws_end(s: Seq<char>, i: int) -> int
    decreases s.len() - i,
    when 0 <= i <= s.len()
{
    if i >= s.len() {
        i
    } else if is_ws_char(s[i]) {
        scan_ws_end(s, i + 1)
    } else {
        i
    }
}

/// End of the run of tag-name characters starting at `i`.
pub open spec fn scan_tag_name_end(s: Seq<char>, i: int) -> int
    decreases s.len() - i,
    when 0 <= i <= s.len()
{
    if i >= s.len() {
        i
    } else if is_tag_char(s[i]) {
        scan_tag_name_end(s, i + 1)
    } else {
        i
    }
}

/// End of the run of attribute-name characters starting at `i`.
pub open spec fn scan_attr_name_end(s: Seq<char>, i: int) -> int
    decreases s.len() - i,
    when 0 <= i <= s.len()
{
    if i >= s.len() {
        i
    } else if !is_name_end_char(s[i]) {
        scan_attr_name_end(s, i + 1)
    } else {
        i
    }
}

/// First position at or after `i` holding `stop`, or the end of input.
pub open spec fn scan_until_end(s: Seq<char>, i: int, stop: char) -> int
    decreases s.len() - i,
    when 0 <= i <= s.len()
{
    if i >= s.len() {
        i
    } else if s[i] == stop {
        i
    } else {
        scan_until_end(s, i + 1, stop)
    }
}

/// Whether an unquoted attribute value ends at position `i`: at
/// whitespace, at `>`, or at the two-character sequence `/>`.
pub open spec fn unquoted_stop_at(s: Seq<char>, i: int) -> bool {
    is_ws_char(s[i]) || s[i] == '>' || (s[i] == '/' && i + 1 < s.len() && s[i + 1] == '>')
}

/// End of an unquoted attribute value starting at `i`.
pub open spec fn scan_unquoted_end(s: Seq<char>, i: int) -> int
    decreases s.len() - i,
    when 0 <= i <= s.len()
{
    if i >= s.len() {
        i
    } else if unquoted_stop_at(s, i) {
        i
    } else {
        scan_unquoted_end(s, i + 1)
    }
}

/// Start of the run of trailing whitespace that ends at `i`.
pub open spec fn scan_ws_rend(s: Seq<char>, i: int) -> int
    decreases i,
    when 0 <= i <= s.len()
{
    if i <= 0 {
        0
    } else if is_ws_char(s[i - 1]) {
        scan_ws_rend(s, i - 1)
    } else {
        i
    }
}

/// The input with leading and trailing whitespace removed.
pub open spec fn trim_spec(s: Seq<char>) -> Seq<char> {
    let a = scan_ws_end(s, 0);
    if a == s.len() {
        Seq::empty()
    } else {
        s.subrange(a, scan_ws_rend(s, s.len() as int))
    }
}

pub proof fn lemma_scan_ws_end(s: Seq<char>, i: int)
    requires
        0 <= i <= s.len(),
    ensures
        i <= scan_ws_end(s, i) <= s.len(),
        forall|j: int| i <= j < scan_ws_end(s, i) ==> is_ws_char(s[j]),
        scan_ws_end(s, i) < s.len() ==> !is_ws_char(s[scan_ws_end(s, i)]),
    decreases s.len() - i,
{
    if i < s.len() && is_ws_char(s[i]) {
        lemma_scan_ws_end(s, i + 1);
    }
}

pub proof fn lemma_scan_tag_name_end(s: Seq<char>, i: int)
    requires
        0 <= i <= s.len(),
    ensures
        i <= scan_tag_name_end(s, i) <= s.len(),
        forall|j: int| i <= j < scan_tag_name_end(s, i) ==> is_tag_char(s[j]),
        scan_tag_name_end(s, i) < s.len() ==> !is_tag_char(s[scan_tag_name_end(s, i)]),
    decreases s.len() - i,
{
    if i < s.len() && is_tag_char(s[i]) {
        lemma_scan_tag_name_end(s, i + 1);
    }
}

pub proof fn lemma_scan_attr_name_end(s: Seq<char>, i: int)
    requires
        0 <= i <= s.len(),
    ensures
        i <= scan_attr_name_end(s, i) <= s.len(),
        forall|j: int| i <= j < scan_attr_name_end(s, i) ==> !is_name_end_char(s[j]),
        scan_attr_name_end(s, i) < s.len() ==> is_name_end_char(s[scan_attr_name_end(s, i)]),
    decreases s.len() - i,
{
    if i < s.len() && !is_name_end_char(s[i]) {
        lemma_scan_attr_name_end(s, i + 1);
    }
}

pub proof fn lemma_scan_until_end(s: Seq<char>, i: int, stop: char)
    requires
        0 <= i <= s.len(),
    ensures
        i <= scan_until_end(s, i, stop) <= s.len(),
        forall|j: int| i <= j < scan_until_end(s, i, stop) ==> s[j] != stop,
        scan_until_end(s, i, stop) < s.len() ==> s[scan_until_end(s, i, stop)] == stop,
    decreases s.len() - i,
{
    if i < s.len() && s[i] != stop {
        lemma_scan_until_end(s, i + 1, stop);
    }
}

pub proof fn lemma_scan_unquoted_end(s: Seq<char>, i: int)
    requires
        0 <= i <= s.len(),
    ensures
        i <= scan_unquoted_end(s, i) <= s.len(),
        forall|j: int| i <= j < scan_unquoted_end(s, i) ==> !unquoted_stop_at(s, j),
        scan_unquoted_end(s, i) < s.len() ==> unquoted_stop_at(s, scan_unquoted_end(s, i)),
    decreases s.len() - i,
{
    if i < s.len() && !unquoted_stop_at(s, i) {
        lemma_scan_unquoted_end(s, i + 1);
    }
}

pub proof fn lemma_scan_ws_rend(s: Seq<char>, i: int)
    requires
        0 <= i <= s.len(),
    ensures
        0 <= scan_ws_rend(s, i) <= i,
        forall|j: int| scan_ws_rend(s, i) <= j < i ==> is_ws_char(s[j]),
        scan_ws_rend(s, i) > 0 ==> !is_ws_char(s[scan_ws_rend(s, i) - 1]),
    decreases i,
{
    if i > 0 && is_ws_char(s[i - 1]) {
        lemma_scan_ws_rend(s, i - 1);
    }
}

/// A run of whitespace only is scanned to the end of the input.
pub proof fn lemma_scan_ws_end_all(s: Seq<char>, i: int)
    requires
        0 <= i <= s.len(),
        forall|j: int| 0 <= j < s.len() ==> is_ws_char(s[j]),
    ensures
        scan_ws_end(s, i) == s.len(),
    decreases s.len() - i,
{
    if i < s.len() {
        lemma_scan_ws_end_all(s, i + 1);
    }
}

} // verus!
