//! The compiler entry point: template text in, generated source out.

use vstd::prelude::*;
use crate::chars::{chars_to_string, str_to_chars};
use crate::emit::{emit_nodes, emit_nodes_spec};
use crate::grammar::parse_nodes_spec;
use crate::parser::Parser;

verus! {

/// What compiling a template yields: `() => ` followed by the
/// expression for the template's root nodes.
pub open spec fn spec_compile(s: Seq<char>) -> Seq<char> {
    seq!['(', ')', ' ', '=', '>', ' '] + emit_nodes_spec(parse_nodes_spec(s, 0).0)
}

/// Compiles a template string into the source text of a no-argument
/// function that builds the element-descriptor tree. Total: no input
/// is rejected.
pub fn compile_template_sync(input: &str) -> (r: String)
    ensures
        r@ == spec_compile(input@),
{
    let cs = str_to_chars(input);
    let mut p = Parser::new(cs.as_slice());
    let nodes = p.parse_nodes();
    let mut expr = emit_nodes(&nodes);
    let mut out: Vec<char> = Vec::new();
    out.push('(');
    out.push(')');
    out.push(' ');
    out.push('=');
    out.push('>');
    out.push(' ');
    out.append(&mut expr);
    proof {
        assert(out@ =~= spec_compile(input@));
    }
    chars_to_string(&out)
}

/// The public compile operation; same contract as the synchronous
/// form it forwards to.
pub fn compile_template(input: &str) -> (r: String)
    ensures
        r@ == spec_compile(input@),
{
    compile_template_sync(input)
}

} // verus!
