//! The whole pipeline: source text to Rust code, or the errors that stop it.

use vstd::prelude::*;

use crate::ast::Decl;
use crate::codegen::{info_collect, program_code, CodeGen, GenInfo};
use crate::error::{CompilerError, LustcResult};
use crate::ast::decls_model;
use crate::grammar::program_at;
use crate::lexer::{is_lex_error, lexed};
use crate::parser::{is_parse_error, reports_parse_errors, top_bound};
use crate::resolver::{all_resolve_errors, decls_errs, messages, program_env, reported, Resolver};
use crate::typechecker::{all_type_errors, decls_reports, program_types, type_reports, TypeChecker};

verus! {

/// The tables of a generator that has seen nothing.
pub open spec fn empty_info() -> GenInfo {
    GenInfo {
        inductives: seq![],
        structs: seq![],
        namespaces: seq![],
        zero_arg: seq![],
        opened: seq![],
        members: seq![],
    }
}

/// The Rust code of a program that resolves and type-checks.
pub open spec fn generated_code(ds: Seq<Decl>) -> Seq<char> {
    program_code(info_collect(empty_info(), ds, seq![]), ds)
}

/// Whether `out` is the code of `ds`, every name of which resolves and
/// which type-checks.
pub open spec fn compiles_to(ds: Seq<Decl>, out: Seq<char>) -> bool {
    &&& decls_errs(program_env(ds), ds).len() == 0
    &&& decls_reports(program_types(ds), ds).len() == 0
    &&& out == generated_code(ds)
}

/// Whether `r` is what compiling the parsed program `ds` gives: the
/// resolver's errors, if any; otherwise the type checker's, if any;
/// otherwise the generated code.
pub open spec fn compile_outcome(ds: Seq<Decl>, r: LustcResult<String>) -> bool {
    &&& decls_errs(program_env(ds), ds).len() > 0 ==> (r matches Err(CompilerError::Multiple(es))
        && all_resolve_errors(es@) && reported(es@) == messages(decls_errs(program_env(ds), ds)))
    &&& decls_errs(program_env(ds), ds).len() == 0 && decls_reports(program_types(ds), ds).len()
        > 0 ==> (r matches Err(CompilerError::Multiple(es)) && all_type_errors(es@) && type_reports(
        es@,
    ) == decls_reports(program_types(ds), ds))
    &&& decls_errs(program_env(ds), ds).len() == 0 && decls_reports(program_types(ds), ds).len()
        == 0 ==> (r matches Ok(out) && out@ == generated_code(ds))
}

/// Resolves, type-checks and generates code for a parsed program. The
/// resolver's errors, if any, are reported; otherwise the type checker's, if
/// any; otherwise the generated code is returned.
pub fn compile_decls(decls: &Vec<Decl>) -> (r: LustcResult<String>)
    ensures
        compile_outcome(decls@, r),
{
    let resolver = Resolver::new();
    match resolver.resolve(decls) {
        Ok(()) => {},
        Err(errs) => return Err(CompilerError::Multiple(errs)),
    }
    let checker = TypeChecker::new();
    match checker.check(decls) {
        Ok(()) => {},
        Err(errs) => return Err(CompilerError::Multiple(errs)),
    }
    let mut codegen = CodeGen::new();
    assert(codegen.info() == empty_info());
    let r = codegen.generate(decls);
    assert(codegen.emitted() =~= generated_code(decls@));
    r
}

/// Compiles source text to Rust code: a lexing error is returned as it
/// comes; parse errors all together; then what `compile_outcome` says of the
/// program parsed (its declarations are the parser's, up to their views).
#[verifier::spinoff_prover]
#[verifier::rlimit(40)]
pub fn compile(source: &str) -> (r: LustcResult<String>)
    requires
        source@.len() <= usize::MAX / 8,
    ensures
        r matches Err(e) ==> (e is LexError || e is Multiple),
        r matches Ok(out) ==> exists|ds: Seq<Decl>| compiles_to(ds, out@),
        match lexed(source@) {
            Err((m, sp)) => r matches Err(e) && is_lex_error(e, m, sp),
            Ok(ls) => if program_at(ls, 0, top_bound()).1.len() > 0 {
                r matches Err(e) && reports_parse_errors(e, program_at(ls, 0, top_bound()).1)
            } else {
                exists|ds: Seq<Decl>|
                    decls_model(ds) == program_at(ls, 0, top_bound()).0 && #[trigger] compile_outcome(
                        ds,
                        r,
                    )
            },
        },
{
    let parsed = crate::loader::parse_source(source);
    let decls = match parsed {
        Ok(ds) => ds,
        Err(e) => {
            proof {
                if lexed(source@) is Ok {
                    let fs = program_at(lexed(source@)->Ok_0, 0, top_bound()).1;
                    let es = e->Multiple_0;
                    assert forall|k: int| 0 <= k < fs.len() implies is_parse_error(
                        #[trigger] es@[k],
                        fs[k].0,
                        fs[k].1,
                    ) by {
                        assert(es@[0 + k] == es@[k]);
                    }
                }
            }
            return Err(e);
        },
    };
    let r = compile_decls(&decls);
    proof {
        if r is Ok {
            assert(compiles_to(decls@, r->Ok_0@));
        }
        assert(compile_outcome(decls@, r));
    }
    r
}

} // verus!
