//! The source-language front end, end to end: scan, parse, emit.  Today the
//! language compiles every accepted source to the same image — a program
//! node with an empty body followed by the emitter's trailing `Push 1` —
//! so the output bytes are pinned exactly.

use vstd::prelude::*;

use crate::emitter::{emit, trailer_bytes};
use crate::lexer::{lex, lex_spec, lexable, token_models};
use crate::parser::{node_bytes, pairs_bytes, parse, parseable, stmts_pairs, ASTNode, InstrValuePair, Statement};

verus! {

/// Whether a source text is accepted by the whole front end: the scan
/// succeeds and the token stream it yields parses.
pub open spec fn compilable(s: Seq<char>) -> bool {
    &&& lexable(s, 0)
    &&& forall|ts: Seq<crate::lexer::Token>|
        #[trigger] token_models(ts) == lex_spec(s, 0) ==> parseable(ts)
}

/// Compile an accepted source text.  Every accepted source compiles to the
/// same bytes: the empty program body plus the emitter's trailer.
pub fn compile(code: String) -> (r: Vec<u8>)
    requires
        code.is_ascii(),
        compilable(code@),
    ensures
        r@ == trailer_bytes(),
{
    let tokens = lex(code);
    let ast = parse(tokens);
    let r = emit(ast);
    proof {
        let f = *ast->Prog_0;
        assert(node_bytes(ast) == node_bytes(f));
        assert(f matches ASTNode::FunDecl(name, stmts) && stmts@ == Seq::<Statement>::empty());
        assert(stmts_pairs(Seq::<Statement>::empty(), 0) == Seq::<InstrValuePair>::empty());
        assert(pairs_bytes(Seq::<InstrValuePair>::empty(), 0) == Seq::<u8>::empty());
        assert(node_bytes(f) == Seq::<u8>::empty());
        assert(r@ =~= trailer_bytes());
    }
    r
}

} // verus!
