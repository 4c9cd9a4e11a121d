//! A template compiler: it turns an HTML-like template string into the
//! source text of a function that builds a tree of element descriptors.
//!
//! The compiler is a single pass: a recursive-descent parser produces a
//! node tree, and an emitter walks that tree and prints nested `h(...)`
//! calls. Both passes are specified by spec-level functions over
//! sequences of characters, and every executable function is proved to
//! compute exactly what its spec function says.

pub mod ast;
pub mod chars;
pub mod compiler;
pub mod depth;
pub mod emit;
pub mod laws;
pub mod grammar;
pub mod parser;
pub mod scan;

pub use chars::is_void_element;
pub use compiler::{compile_template, compile_template_sync};
