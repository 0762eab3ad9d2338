//! Registration of the starter library's canonical names.
//!
//! The starter natives themselves (IEEE-double arithmetic and `print`)
//! are external collaborators supplied by the host through the
//! [`crate::execution::NativeHost`] trait; the core only fixes the
//! handle each canonical name is bound to in a fresh root scope.

use vstd::prelude::*;
use crate::types::{
    Interp, Scope, Value, ValueModel, spec_lookup, table_put,
};

verus! {

/// Handle of the native addition function `+`.
pub const HANDLE_PLUS: u32 = 0;

/// Handle of the native subtraction function `-`.
pub const HANDLE_MINUS: u32 = 1;

/// Handle of the native multiplication function `*`.
pub const HANDLE_TIMES: u32 = 2;

/// Handle of the native division function `/`.
pub const HANDLE_DIVIDE: u32 = 3;

/// Handle of the native printing function `print`.
pub const HANDLE_PRINT: u32 = 4;

/// Register a native function under `name` in the local table of `scope`:
/// the registration call the core exposes to the standard-library
/// collaborator.
pub fn put_function(env: &mut Interp, scope: usize, name: &str, func: u32)
    requires
        old(env).wf(),
        scope < old(env).scopes@.len(),
    ensures
        final(env).wf(),
        final(env).scopes@.len() == old(env).scopes@.len(),
        final(env).model().objects == old(env).model().objects,
        forall|k: int|
            0 <= k < old(env).model().scopes.len() ==> (#[trigger] final(env).model().scopes[k]).parent
                == old(env).model().scopes[k].parent,
        forall|k: int|
            0 <= k < old(env).model().scopes.len() && k != scope as int ==> (#[trigger] final(env).model().scopes[k]).local
                == old(env).model().scopes[k].local,
        final(env).model().scopes[scope as int].local == old(env).model().scopes[
            scope as int
        ].local.push((name@, ValueModel::ForeignFunction(func))),
{
    let ghost mid = env.model();
    let n = name.to_owned();
    table_put(&mut env.scopes[scope].local, n, Value::ForeignFunction(func));
    proof {
        let post = env.model();
        assert(post.scopes.len() == mid.scopes.len());
        assert forall|k: int| 0 <= k < post.scopes.len() implies (
        #[trigger] post.scopes[k]).parent == mid.scopes[k].parent by {}
        assert forall|k: int| 0 <= k < post.scopes.len() && k != scope as int implies (
        #[trigger] post.scopes[k]).local == mid.scopes[k].local by {}
        assert(post.wf());
    }
}

/// Register the starter library's five canonical names — `+`, `-`, `*`,
/// `/`, `print` — in the local table of `scope`, each bound to its
/// canonical native-function handle. Exactly those five bindings are
/// appended; every other binding, name and scope is left unchanged.
pub fn export_default_lib(env: &mut Interp, scope: usize)
    requires
        old(env).wf(),
        scope < old(env).scopes@.len(),
    ensures
        final(env).wf(),
        final(env).scopes@.len() == old(env).scopes@.len(),
        final(env).model().objects == old(env).model().objects,
        forall|k: int|
            0 <= k < old(env).model().scopes.len() ==> (#[trigger] final(env).model().scopes[k]).parent
                == old(env).model().scopes[k].parent,
        forall|k: int|
            0 <= k < old(env).model().scopes.len() && k != scope as int ==> (#[trigger] final(env).model().scopes[k]).local
                == old(env).model().scopes[k].local,
        final(env).model().scopes[scope as int].local == old(env).model().scopes[
            scope as int
        ].local.push(("+"@, ValueModel::ForeignFunction(HANDLE_PLUS))).push(
            ("-"@, ValueModel::ForeignFunction(HANDLE_MINUS)),
        ).push(("*"@, ValueModel::ForeignFunction(HANDLE_TIMES))).push(
            ("/"@, ValueModel::ForeignFunction(HANDLE_DIVIDE)),
        ).push(("print"@, ValueModel::ForeignFunction(HANDLE_PRINT))),
        spec_lookup(final(env).model().scopes[scope as int].local, "+"@) == Some(
            ValueModel::ForeignFunction(HANDLE_PLUS),
        ),
        spec_lookup(final(env).model().scopes[scope as int].local, "-"@) == Some(
            ValueModel::ForeignFunction(HANDLE_MINUS),
        ),
        spec_lookup(final(env).model().scopes[scope as int].local, "*"@) == Some(
            ValueModel::ForeignFunction(HANDLE_TIMES),
        ),
        spec_lookup(final(env).model().scopes[scope as int].local, "/"@) == Some(
            ValueModel::ForeignFunction(HANDLE_DIVIDE),
        ),
        spec_lookup(final(env).model().scopes[scope as int].local, "print"@) == Some(
            ValueModel::ForeignFunction(HANDLE_PRINT),
        ),
{
    put_function(env, scope, "+", HANDLE_PLUS);
    let ghost l1 = env.model().scopes[scope as int].local;
    put_function(env, scope, "-", HANDLE_MINUS);
    let ghost l2 = env.model().scopes[scope as int].local;
    put_function(env, scope, "*", HANDLE_TIMES);
    let ghost l3 = env.model().scopes[scope as int].local;
    put_function(env, scope, "/", HANDLE_DIVIDE);
    let ghost l4 = env.model().scopes[scope as int].local;
    put_function(env, scope, "print", HANDLE_PRINT);
    let ghost l5 = env.model().scopes[scope as int].local;
    proof {
        reveal_strlit("+");
        reveal_strlit("-");
        reveal_strlit("*");
        reveal_strlit("/");
        reveal_strlit("print");
        assert(l5.drop_last() =~= l4);
        assert(l4.drop_last() =~= l3);
        assert(l3.drop_last() =~= l2);
        assert(l2.drop_last() =~= l1);
        assert("+"@[0] == '+' && "-"@[0] == '-' && "*"@[0] == '*' && "/"@[0] == '/');
        assert("+"@.len() == 1 && "-"@.len() == 1 && "*"@.len() == 1 && "/"@.len() == 1
            && "print"@.len() == 5);
        reveal_with_fuel(spec_lookup, 6);
    }
}

/// Construct a fresh arena holding one parentless root scope whose local
/// table holds exactly the starter library's five canonical names and
/// nothing else; the root's handle is 0.
pub fn make_scope() -> (r: (Interp, usize))
    ensures
        r.0.wf(),
        r.1 == 0,
        r.0.scopes@.len() == 1,
        r.0.model().objects.len() == 0,
        r.0.model().scopes[0].parent is None,
        r.0.model().scopes[0].local == Seq::<(Seq<char>, ValueModel)>::empty().push(
            ("+"@, ValueModel::ForeignFunction(HANDLE_PLUS)),
        ).push(("-"@, ValueModel::ForeignFunction(HANDLE_MINUS))).push(
            ("*"@, ValueModel::ForeignFunction(HANDLE_TIMES)),
        ).push(("/"@, ValueModel::ForeignFunction(HANDLE_DIVIDE))).push(
            ("print"@, ValueModel::ForeignFunction(HANDLE_PRINT)),
        ),
        spec_lookup(r.0.model().scopes[0].local, "+"@) == Some(
            ValueModel::ForeignFunction(HANDLE_PLUS),
        ),
        spec_lookup(r.0.model().scopes[0].local, "-"@) == Some(
            ValueModel::ForeignFunction(HANDLE_MINUS),
        ),
        spec_lookup(r.0.model().scopes[0].local, "*"@) == Some(
            ValueModel::ForeignFunction(HANDLE_TIMES),
        ),
        spec_lookup(r.0.model().scopes[0].local, "/"@) == Some(
            ValueModel::ForeignFunction(HANDLE_DIVIDE),
        ),
        spec_lookup(r.0.model().scopes[0].local, "print"@) == Some(
            ValueModel::ForeignFunction(HANDLE_PRINT),
        ),
{
    let mut env = Interp { scopes: Vec::new(), objects: Vec::new() };
    env.scopes.push(Scope { local: Vec::new(), parent: None });
    proof {
        assert(env.model().scopes.len() == 1);
        assert(env.wf());
        assert(env.model().scopes[0].local =~= Seq::<(Seq<char>, ValueModel)>::empty());
    }
    export_default_lib(&mut env, 0);
    (env, 0)
}

} // verus!
