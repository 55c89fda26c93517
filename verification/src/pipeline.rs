//! The whole compilation pipeline over one token run: tree building,
//! type checking and code generation, in that order, stopping at the
//! first failure.
//!
//! The contract states the pipeline ordering: a tree-building failure
//! is returned as it is; on a well-formed tree, a type-checking failure
//! is returned as it is and code generation is never reached; only on a
//! tree that passed both stages does the generator run, and then the
//! whole outcome equals the generator's spec mirror run from its fresh
//! state — success exactly when the mirror succeeds, and the emitted
//! lines exactly the mirror's, ending with the data segment that holds
//! every interned literal exactly once, in encounter order.

use vstd::prelude::*;
use crate::token::Token;
use crate::ast::{Ast, view_asts};
use crate::codegen::{CodeGen, CodeGenV, ends_with_data_segment, lits_asts, spec_generate_at};
use crate::diag::{CompileError, view_err};
use crate::parse::spec_parse;
use crate::typecheck::{CheckerV, TypeChecker, spec_check_block};

verus! {

/// The state a fresh type checker starts from.
pub open spec fn initial_checker() -> CheckerV {
    CheckerV { cur: None, fns: Seq::empty(), scopes: Seq::empty() }
}

/// The state a fresh code generator starts from.
pub open spec fn initial_gen() -> CodeGenV {
    CodeGenV {
        out: Seq::empty(),
        strings: Seq::empty(),
        vars: Seq::empty(),
        block_count: 1usize,
        stack_offset: 0usize,
        cur: Seq::empty(),
    }
}

/// Runs the tree builder, the type checker and the code generator in
/// sequence on one token run, with pre-lexed streams for inclusions and
/// a nesting budget.  With `entry` set the output is a whole program,
/// preamble and data segment included.
#[verifier::rlimit(60)]
pub fn compile(
    tokens: &Vec<Token>,
    sources: &Vec<(String, Vec<Token>)>,
    depth: usize,
    entry: bool,
) -> (r: Result<(Vec<Ast>, CodeGen), CompileError>)
    ensures
        spec_parse(tokens@, sources@, depth as nat) matches Err(pe) ==> r matches Err(e)
            && view_err(e) == pe,
        spec_parse(tokens@, sources@, depth as nat) matches Ok(tree) ==> (spec_check_block(
            initial_checker(),
            tree,
            false,
        ).1 matches Err(ce) ==> r matches Err(e) && view_err(e) == ce),
        spec_parse(tokens@, sources@, depth as nat) matches Ok(tree) ==> (r matches Ok(p)
            ==> spec_check_block(initial_checker(), tree, false).1 is Ok && view_asts(p.0@)
            == tree && p.1@.strings == lits_asts(tree, 0)),
        spec_parse(tokens@, sources@, depth as nat) matches Ok(tree) ==> (spec_check_block(
            initial_checker(),
            tree,
            false,
        ).1 is Ok ==> ({
            let (gv, rr) = spec_generate_at(initial_gen(), tree, entry);
            &&& r is Ok <==> rr is Ok
            &&& r matches Ok(p) ==> p.1@ == gv
        })),
        entry ==> (r matches Ok(p) ==> ends_with_data_segment(p.1@)),
        r matches Err(e) ==> ((spec_parse(tokens@, sources@, depth as nat) matches Ok(tree)
            && spec_check_block(initial_checker(), tree, false).1 is Ok) ==> view_err(e)
            is Internal),
{
    let ast = match Ast::parse(tokens, sources, depth) {
        Ok(a) => a,
        Err(e) => {
            return Err(e);
        },
    };
    let mut checker = TypeChecker::new();
    proof {
        assert(checker@ =~= initial_checker());
    }
    match checker.check(&ast, false) {
        Ok(_) => {},
        Err(e) => {
            return Err(e);
        },
    }
    let mut gen = CodeGen::new();
    proof {
        assert(gen@ =~= initial_gen());
    }
    match gen.generate(&ast, entry) {
        Ok(_) => {},
        Err(e) => {
            return Err(e);
        },
    }
    proof {
        assert(gen@.strings =~= lits_asts(view_asts(ast@), 0));
    }
    Ok((ast, gen))
}

} // verus!
