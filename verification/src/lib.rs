//! A compiler for a line-oriented, tag-delimited markup language.
//!
//! Source text written with `#`-prefixed control tags and bare keywords is
//! compiled into a single HTML5 document string.  The front end is a pull-based
//! lexer, a recursive-descent parser with one-token lookahead, a stack of
//! variable scopes, and an incremental document builder that guarantees a
//! well-formed document on completion.  Compilation either returns the complete
//! document or one of three error kinds; it never returns partial output.

use vstd::prelude::*;

pub mod chars;
pub mod error;
pub mod htmlgen;
pub mod lexer;
pub mod parser;
pub mod scope;
pub mod token;

verus! {

/// Compile a complete source text into an HTML document string.
///
/// Whether the compilation succeeds, and the whole output when it does, are a
/// function of the source text alone: compiling the same source twice yields
/// byte-identical output.  On success the output renders a well-formed
/// fragment trace: the doctype and root element first, comments and at most
/// one head section, then exactly one body, closed once, then the closing
/// tag.  On error no output is produced.
pub fn compile(input: &str) -> (r: Result<String, error::CompileError>)
    ensures
        (match parser::sp_compile(input@) {
            Ok(doc) => r is Ok && r->Ok_0@ == doc,
            Err(k) => r is Err && r->Err_0.kind == k,
        }),
        r is Ok ==> exists|fs: Seq<htmlgen::FragV>|
            #[trigger] htmlgen::doc_trace_wf(fs) && r->Ok_0@ == htmlgen::spec_render(fs),
{
    parser::FrontEnd::new(input).run()
}

} // verus!
