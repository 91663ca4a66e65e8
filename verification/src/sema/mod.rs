//! The semantic checker: declarations, scopes, types and their errors.
pub mod builtins;
pub mod checker;
pub mod decls;
pub mod error;
pub mod infer;
pub mod laws;
pub mod table;
pub mod types;

pub use error::SemanticError;
pub use types::Type;
pub use checker::Checker;

use vstd::prelude::*;
use crate::ast::Program;
use crate::env::Env;
use decls::{same_shell, duplicate_errors, first_class, first_proto, last_class, members_from, program_sig, registered_as, shell_fields};
use builtins::{builtin_class, builtin_method, builtin_shell, builtin_members, opt_fsig};
use infer::{classes_errs, classes_ok, end_table, entry_errs, fns_errs, mframes, mscope, with_constants, Ctx};
use checker::{cycle_errors, opt_sig, ClassInfo};
use table::Table;
use types::TypeV;
use error::err_views;

verus! {

/// In `t`, each built-in class keeps its base and its empty constructor, and
/// one that `program` does not declare again keeps its methods and its lack
/// of attributes.
#[verifier::opaque]
pub open spec fn builtins_kept(t: Table<ClassInfo>, program: Program) -> bool {
    &&& forall|x: Seq<char>| builtin_class(x) ==> #[trigger] builtin_shell(t, x)
    &&& forall|x: Seq<char>|
        builtin_class(x) && last_class(program.classes@, x) is None ==> #[trigger] builtin_members(t, x)
}

proof fn lemma_builtins_kept(c0: Checker, c1: Checker, program: Program)
    requires
        forall|n: Seq<char>| #[trigger] c0.classes.has(n) == builtin_class(n),
        c0.base_of("Object"@) is None,
        c0.base_of("String"@) == Some("Object"@),
        c0.base_of("Number"@) == Some("Object"@),
        c0.base_of("Boolean"@) == Some("Object"@),
        forall|n: Seq<char>, m: Seq<char>|
            builtin_class(n) ==> #[trigger] opt_sig(c0.classes.spec_get(n)->Some_0.methods.spec_get(m))
                == builtin_method(n, m),
        forall|n: Seq<char>|
            builtin_class(n) ==> c0.classes.spec_get(n)->Some_0.attributes.entries().len() == 0
                && c0.classes.spec_get(n)->Some_0.ctor_params@.len() == 0,
        forall|c: Seq<char>|
            c0.classes.has(c) ==> same_shell(
                #[trigger] c1.classes.spec_get(c)->Some_0,
                c0.classes.spec_get(c)->Some_0,
            ),
        forall|c: Seq<char>|
            c0.classes.has(c) && last_class(program.classes@, c) is None
                ==> #[trigger] c1.classes.spec_get(c) == c0.classes.spec_get(c),
        forall|c: Seq<char>| #[trigger] c1.classes.has(c) == (c0.classes.has(c) || first_class(program.classes@, c) is Some),
    ensures
        builtins_kept(c1.classes, program),
{
    reveal(builtins_kept);
    assert forall|x: Seq<char>| builtin_class(x) implies #[trigger] builtin_shell(c1.classes, x) by {
        assert(c0.classes.has(x));
        assert(c1.classes.has(x));
        assert(same_shell(c1.classes.spec_get(x)->Some_0, c0.classes.spec_get(x)->Some_0));
    }
    assert forall|x: Seq<char>|
        builtin_class(x) && last_class(program.classes@, x) is None implies #[trigger] builtin_members(c1.classes, x) by {
        assert(c0.classes.has(x));
        assert(c1.classes.spec_get(x) == c0.classes.spec_get(x));
    }
}

/// `r` is what checking `program` reports: the duplicate declarations, the
/// inheritance cycles, then each class's errors (its base and its members,
/// the attribute types found so far in scope), each function's and the entry
/// expression's, in the tables the declarations give.
#[verifier::opaque]
pub open spec fn checked(program: Program, r: Seq<SemanticError>) -> bool {
    &&& duplicate_errors(program).len() <= r.len()
    &&& err_views(r).subrange(0, duplicate_errors(program).len() as int) == duplicate_errors(program)
    &&& exists|c: Ctx, t1: Table<ClassInfo>, chains: Seq<Seq<Table<ClassInfo>>>|
        #![trigger classes_ok(c.ps, c.fs, program.classes@, chains, t1)]
        {
            &&& c.cur is None
            &&& forall|n: Seq<char>| #[trigger] opt_fsig(c.fs.spec_get(n)) == program_sig(program, n)
            &&& forall|x: Seq<char>|
                #[trigger] t1.has(x) == (builtin_class(x) || first_class(program.classes@, x) is Some)
            &&& forall|x: Seq<char>|
                !builtin_class(x) && first_class(program.classes@, x) is Some ==> #[trigger] shell_fields(
                    t1.spec_get(x)->Some_0,
                    first_class(program.classes@, x)->Some_0,
                )
            &&& forall|x: Seq<char>|
                t1.has(x) && last_class(program.classes@, x) is Some ==> #[trigger] members_from(
                    t1.spec_get(x)->Some_0,
                    last_class(program.classes@, x)->Some_0.members@,
                )
            &&& builtins_kept(t1, program)
            &&& forall|p: Seq<char>| #[trigger] c.ps.has(p) == (first_proto(program.protocols@, p) is Some)
            &&& forall|p: Seq<char>, m: Seq<char>|
                first_proto(program.protocols@, p) is Some ==> #[trigger] registered_as(
                    c.ps.spec_get(p)->Some_0,
                    first_proto(program.protocols@, p)->Some_0,
                    m,
                )
            &&& classes_ok(c.ps, c.fs, program.classes@, chains, t1)
            &&& c.cls == end_table(t1, chains)
            &&& err_views(r) == duplicate_errors(program) + cycle_errors(t1, t1.entries()) + classes_errs(
                c.ps,
                c.fs,
                program.classes@,
                chains,
            ) + fns_errs(c, program.functions@) + entry_errs(c, program.entry, with_constants(seq![Seq::empty()]))
        }
}

/// Runs both passes of the checker on a program and gives the errors found,
/// in the order found; none means the program is valid.
pub fn check(program: &Program) -> (r: Vec<SemanticError>)
    ensures
        checked(*program, r@),
{
    proof {
        reveal(checked);
    }
    let mut checker = Checker::new();
    let ghost c0 = checker;
    checker.collect_declarations(program);
    proof {
        assert((|c: Seq<char>| c0.classes.has(c)) =~= (|c: Seq<char>| builtins::builtin_class(c)));
        assert((|n: Seq<char>| c0.functions.has(n)) =~= (|n: Seq<char>| builtins::builtin_fn(n) is Some)) by {
            assert forall|n: Seq<char>| c0.functions.has(n) == (builtins::builtin_fn(n) is Some) by {
                assert(builtins::opt_fsig(c0.functions.spec_get(n)) == builtins::builtin_fn(n));
            }
        }
        assert((|n: Seq<char>| c0.builtins().contains(n)) =~= (|n: Seq<char>| builtins::builtin_fn(n) is Some));
        assert(err_views(c0.errors@) =~= Seq::empty());
    }
    let ghost c1 = checker;
    let mut global: Env<Type> = Env::new();
    let ghost gf = global.frames();
    checker.check_program(program, &mut global);
    proof {
        assert(mframes(gf) =~= seq![Seq::<(Seq<char>, TypeV)>::empty()]) by {
            assert(gf.len() == 1);
            assert(mscope(gf[0]) =~= Seq::<(Seq<char>, TypeV)>::empty());
        }
        let chains = choose|chains: Seq<Seq<Table<ClassInfo>>>|
            #![trigger classes_ok(c1.protocols, c1.functions, program.classes@, chains, c1.classes)]
            {
                &&& classes_ok(c1.protocols, c1.functions, program.classes@, chains, c1.classes)
                &&& checker.classes == end_table(c1.classes, chains)
                &&& err_views(checker.errors@) == err_views(c1.errors@) + classes_errs(
                    c1.protocols,
                    c1.functions,
                    program.classes@,
                    chains,
                ) + fns_errs(checker.ctx(), program.functions@) + entry_errs(
                    checker.ctx(),
                    program.entry,
                    with_constants(mframes(gf)),
                )
            };
        assert forall|n: Seq<char>| #[trigger] opt_fsig(checker.ctx().fs.spec_get(n)) == program_sig(*program, n) by {
            assert(opt_fsig(c1.functions.spec_get(n)) == decls::macro_after(
                program.macros@,
                n,
                decls::fn_after(c0.functions, c0.builtins(), program.functions@, n),
            ));
            decls::lemma_fn_after_builtins(c0.functions, c0.builtins(), program.functions@, n);
        }
        assert forall|x: Seq<char>|
            #[trigger] c1.classes.has(x) == (builtin_class(x) || first_class(program.classes@, x) is Some) by {
            assert(c0.classes.has(x) == builtin_class(x));
        }
        lemma_builtins_kept(c0, c1, *program);
        assert forall|p: Seq<char>| !#[trigger] c0.protocols.has(p) by {
            assert(c0.protocols.entries().len() == 0);
        }
        let d = duplicate_errors(*program);
        assert(err_views(c1.errors@) =~= d + cycle_errors(c1.classes, c1.classes.entries()));
        assert(checker.ctx().ps == c1.protocols);
        assert(checker.ctx().fs == c1.functions);
        assert(classes_ok(checker.ctx().ps, checker.ctx().fs, program.classes@, chains, c1.classes));
        assert(err_views(checker.errors@).subrange(0, d.len() as int) =~= d);
    }
    checker.errors
}

} // verus!
