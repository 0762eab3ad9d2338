//! Evaluator: a pure recursive tree-walk over the AST against a scope,
//! producing values, performing shadowing assignment, and calling
//! host-supplied native functions through the uniform calling convention.
//!
//! Argument expressions are evaluated left to right. A call builds a
//! fresh call frame — a new child scope of the caller's scope, the
//! callable in stack slot 0, the argument values after it, the return
//! slot initialized to `Nil` — invokes the host once, and reads exactly
//! one value from the frame's return slot.

use vstd::prelude::*;
use crate::ast::{AST, ASTNode, ASTValue, Ast, AstValue};
use crate::types::{
    EvalError, EvalErrorModel, FunctionEnv, Interp, InterpModel, Literal, ScopeModel, Value,
    ValueModel, child_scope, lit_value, resolve, spec_lookup, spec_resolve, table_put,
    value_result_model,
};

verus! {

/// The host side of the native-function bridge: it owns the native
/// functions registered under each handle and runs the one named by
/// `handle` against the frame, writing its result into the frame's
/// return slot. An embedding host implements this trait; nothing is
/// assumed about what a call does to the frame.
pub trait NativeHost {
    /// Run the native function registered under `handle` on `frame`.
    fn call(&mut self, handle: u32, frame: &mut FunctionEnv) -> Result<(), EvalError>;
}

/// How evaluation in `scope` may change the arena: object tables are
/// untouched, every existing scope keeps its parent, only the executing
/// scope's local table may change among existing scopes, and fresh call
/// scopes may be appended at the end.
pub open spec fn env_evolves(pre: InterpModel, post: InterpModel, scope: int) -> bool {
    &&& pre.scopes.len() <= post.scopes.len()
    &&& post.objects == pre.objects
    &&& forall|k: int|
        0 <= k < pre.scopes.len() ==> (#[trigger] post.scopes[k]).parent == pre.scopes[k].parent
    &&& forall|k: int|
        0 <= k < pre.scopes.len() && k != scope ==> (#[trigger] post.scopes[k]).local
            == pre.scopes[k].local
}

proof fn lemma_env_evolves_trans(a: InterpModel, b: InterpModel, c: InterpModel, scope: int)
    requires
        env_evolves(a, b, scope),
        env_evolves(b, c, scope),
    ensures
        env_evolves(a, c, scope),
{
}

/// The result of an assignment's right-hand side, where no host call can
/// be involved: atoms evaluate to their immediate value, identifiers
/// resolve against the scope chain. A parenthesized right-hand side may
/// call the host and has no fixed result (`None`).
pub open spec fn spec_eval_rhs(m: InterpModel, scope: int, v: AstValue) -> Option<
    Result<ValueModel, EvalErrorModel>,
> {
    match v {
        AstValue::Number(t) => Some(Ok(ValueModel::Number(t))),
        AstValue::String(t) => Some(Ok(ValueModel::String(t))),
        AstValue::Literal(l) => Some(Ok(lit_value(l))),
        AstValue::Id(n) => Some(spec_resolve(m, scope, n)),
        AstValue::Expression(_) => None,
    }
}

/// The completed calling convention for the form `es`, with the chain of
/// arena states `ms` and evaluated values `vals`: the head `es[0]` was
/// evaluated first, to the native-function value `vals[0]`; the argument
/// expressions were evaluated left to right, `es[i]` yielding `vals[i]`
/// and carrying the arena from `ms[i]` to `ms[i+1]`; and the final arena
/// is exactly the post-argument arena plus one fresh call scope — empty
/// local table, parent the caller's scope. `vals` is the stack of the
/// frame handed to the host: the callable in slot 0, user-visible
/// arguments from slot 1 on.
pub open spec fn spec_call_frame_with(
    ms: Seq<InterpModel>,
    vals: Seq<ValueModel>,
    pre: InterpModel,
    post: InterpModel,
    scope: int,
    es: Seq<Ast>,
) -> bool
    decreases es, 0int,
{
    &&& es.len() >= 1
    &&& vals.len() == es.len()
    &&& ms.len() == es.len() + 1
    &&& ms[0] == pre
    &&& (forall|i: int|
        0 <= i < es.len() ==> spec_eval_ensures(ms[i], ms[i + 1], scope, es[i], Ok(#[trigger] vals[i])))
    &&& (forall|i: int| 0 <= i < ms.len() ==> (#[trigger] ms[i]).wf())
    &&& vals[0] is ForeignFunction
    &&& post.objects == ms[es.len() as int].objects
    &&& post.scopes == ms[es.len() as int].scopes.push(
        ScopeModel { local: Seq::empty(), parent: Some(scope) },
    )
}

/// A call of the form `es` went through to the host: some chain of
/// states and values realizes the calling convention.
pub open spec fn spec_call_completed(
    pre: InterpModel,
    post: InterpModel,
    scope: int,
    es: Seq<Ast>,
) -> bool
    decreases es, 1int,
{
    exists|ms: Seq<InterpModel>, vals: Seq<ValueModel>|
        #![trigger ms[0], vals.len()]
        {
            &&& ms[0] == pre
            &&& vals.len() == es.len()
            &&& spec_call_frame_with(ms, vals, pre, post, scope, es)
        }
}

/// The head and the first `k` arguments of the form `es` evaluated
/// successfully (chained through `ms` with values `vals`), and then the
/// evaluation of `es[k]` failed with `e`, before any host call.
pub open spec fn spec_call_steps_err_with(
    ms: Seq<InterpModel>,
    vals: Seq<ValueModel>,
    k: int,
    pre: InterpModel,
    post: InterpModel,
    scope: int,
    es: Seq<Ast>,
    e: EvalErrorModel,
) -> bool
    decreases es, 0int,
{
    &&& 0 <= k < es.len()
    &&& ms.len() == k + 2
    &&& vals.len() == k
    &&& ms[0] == pre
    &&& ms[k + 1] == post
    &&& (forall|i: int|
        0 <= i < k ==> spec_eval_ensures(ms[i], ms[i + 1], scope, es[i], Ok(#[trigger] vals[i])))
    &&& (forall|i: int| 0 <= i < ms.len() ==> (#[trigger] ms[i]).wf())
    &&& spec_eval_ensures(ms[k], ms[k + 1], scope, es[k], Err(e))
}

/// Some step of the call failed with `e` before any host call.
pub open spec fn spec_call_step_err(
    pre: InterpModel,
    post: InterpModel,
    scope: int,
    es: Seq<Ast>,
    e: EvalErrorModel,
) -> bool
    decreases es, 1int,
{
    exists|ms: Seq<InterpModel>, vals: Seq<ValueModel>|
        #![trigger ms[0], vals.len()]
        {
            &&& ms[0] == pre
            &&& spec_call_steps_err_with(ms, vals, vals.len() as int, pre, post, scope, es, e)
        }
}

/// The head of `es` evaluated successfully to `c`, which is not a
/// native-function value, so the call stopped before any argument was
/// evaluated, leaving the arena at the post-head state.
pub open spec fn spec_call_head_not_callable_with(
    m1: InterpModel,
    c: ValueModel,
    pre: InterpModel,
    post: InterpModel,
    scope: int,
    es: Seq<Ast>,
) -> bool
    decreases es, 0int,
{
    &&& es.len() >= 1
    &&& spec_eval_ensures(pre, m1, scope, es[0], Ok(c))
    &&& m1.wf()
    &&& !(c is ForeignFunction)
    &&& post == m1
}

/// The call stopped with `NotCallable`: the head evaluated to something
/// that is not a native-function value.
pub open spec fn spec_call_head_not_callable(
    pre: InterpModel,
    post: InterpModel,
    scope: int,
    es: Seq<Ast>,
) -> bool
    decreases es, 1int,
{
    exists|ms: Seq<InterpModel>, vals: Seq<ValueModel>|
        #![trigger ms[0], vals.len()]
        {
            &&& ms.len() == 2
            &&& vals.len() == 1
            &&& ms[0] == pre
            &&& spec_call_head_not_callable_with(ms[1], vals[0], pre, post, scope, es)
        }
}

/// What a call of a parenthesized form guarantees. An empty form yields
/// `Nil` and leaves the arena unchanged. A successful result means the
/// whole calling convention was realized: head first, arguments left to
/// right, one fresh call scope; what the native function then wrote into
/// the return slot is the host's business. An error is exactly one of:
/// a failing head or argument evaluation (its error, before any host
/// call), a head value that is no native function (`NotCallable` — this
/// includes `Function` values, the reserved user-function capability
/// that no syntax of this core produces), or
/// the host's own error after a completed call. Where the head is an
/// identifier or an atom, the pre-call outcomes are additionally pinned:
/// a failed resolution propagates that error and a non-callable head
/// value is `NotCallable`, both before any argument is evaluated and
/// with the arena unchanged.
pub open spec fn spec_call_ensures(
    pre: InterpModel,
    post: InterpModel,
    scope: int,
    es: Seq<Ast>,
    r: Result<ValueModel, EvalErrorModel>,
) -> bool
    decreases es, 2int,
{
    &&& (es.len() == 0 ==> post == pre && r == Ok::<ValueModel, EvalErrorModel>(ValueModel::Nil))
    &&& (es.len() > 0 ==> match r {
        Ok(v) => spec_call_completed(pre, post, scope, es),
        Err(e) => {
            ||| spec_call_step_err(pre, post, scope, es, e)
            ||| (e == EvalErrorModel::NotCallable && spec_call_head_not_callable(
                pre,
                post,
                scope,
                es,
            ))
            ||| spec_call_completed(pre, post, scope, es)
        },
    })
    &&& (es.len() > 0 ==> match es[0] {
        Ast::Id(f) => match spec_resolve(pre, scope, f) {
            Ok(v) => !(v is ForeignFunction) ==> (post == pre && r == Err::<
                ValueModel,
                EvalErrorModel,
            >(EvalErrorModel::NotCallable)),
            Err(e) => post == pre && r == Err::<ValueModel, EvalErrorModel>(e),
        },
        Ast::Number(_) => post == pre && r == Err::<ValueModel, EvalErrorModel>(
            EvalErrorModel::NotCallable,
        ),
        Ast::String(_) => post == pre && r == Err::<ValueModel, EvalErrorModel>(
            EvalErrorModel::NotCallable,
        ),
        Ast::Literal(_) => post == pre && r == Err::<ValueModel, EvalErrorModel>(
            EvalErrorModel::NotCallable,
        ),
        _ => true,
    })
}

/// An assignment whose right-hand side called the host, completing with
/// the value `val`: the rhs call carried the arena from `pre` to `mid`,
/// and the final arena is `mid` with exactly the one binding
/// `name -> val` appended to the executing scope's local table.
pub open spec fn spec_assign_call_ok_with(
    mid: InterpModel,
    pre: InterpModel,
    post: InterpModel,
    scope: int,
    name: Seq<char>,
    es: Seq<Ast>,
    val: ValueModel,
) -> bool
    decreases es, 3int,
{
    &&& mid.wf()
    &&& 0 <= scope < mid.scopes.len()
    &&& spec_call_ensures(pre, mid, scope, es, Ok(val))
    &&& post.objects == mid.objects
    &&& post.scopes == mid.scopes.update(
        scope,
        ScopeModel {
            local: mid.scopes[scope].local.push((name, val)),
            parent: mid.scopes[scope].parent,
        },
    )
}

/// An assignment whose right-hand side call failed with `e`: the error
/// propagates and nothing is bound, the arena being exactly what the
/// failing call left.
pub open spec fn spec_assign_call_err_with(
    mid: InterpModel,
    pre: InterpModel,
    post: InterpModel,
    scope: int,
    es: Seq<Ast>,
    e: EvalErrorModel,
) -> bool
    decreases es, 3int,
{
    &&& mid.wf()
    &&& spec_call_ensures(pre, mid, scope, es, Err(e))
    &&& post == mid
}

/// What evaluating one node guarantees, by node kind.
pub open spec fn spec_eval_ensures(
    pre: InterpModel,
    post: InterpModel,
    scope: int,
    node: Ast,
    r: Result<ValueModel, EvalErrorModel>,
) -> bool
    decreases node, 4int,
{
    match node {
        Ast::Number(t) => post == pre && r == Ok::<ValueModel, EvalErrorModel>(
            ValueModel::Number(t),
        ),
        Ast::String(t) => post == pre && r == Ok::<ValueModel, EvalErrorModel>(
            ValueModel::String(t),
        ),
        Ast::Literal(l) => post == pre && r == Ok::<ValueModel, EvalErrorModel>(lit_value(l)),
        Ast::Id(n) => post == pre && r == spec_resolve(pre, scope, n),
        Ast::Equals(name, v) => {
            &&& (match r {
                Ok(val) => spec_lookup(post.scopes[scope].local, name) == Some(val),
                Err(_) => true,
            })
            &&& (match spec_eval_rhs(pre, scope, v) {
                Some(Ok(val)) => {
                    &&& r == Ok::<ValueModel, EvalErrorModel>(val)
                    &&& post.objects == pre.objects
                    &&& post.scopes.len() == pre.scopes.len()
                    &&& post.scopes == pre.scopes.update(
                        scope,
                        ScopeModel {
                            local: pre.scopes[scope].local.push((name, val)),
                            parent: pre.scopes[scope].parent,
                        },
                    )
                },
                Some(Err(e)) => r == Err::<ValueModel, EvalErrorModel>(e) && post == pre,
                None => match v {
                    AstValue::Expression(es) => match r {
                        Ok(val) => exists|mid: InterpModel|
                            #![trigger mid.wf()]
                            spec_assign_call_ok_with(mid, pre, post, scope, name, es, val),
                        Err(e) => exists|mid: InterpModel|
                            #![trigger mid.wf()]
                            spec_assign_call_err_with(mid, pre, post, scope, es, e),
                    },
                    _ => true,
                },
            })
        },
        Ast::Expression(es) => spec_call_ensures(pre, post, scope, es, r),
    }
}

/// Evaluate one node against `scope`: atoms yield their immediate value,
/// identifiers resolve against the scope chain, assignment writes into
/// the executing scope's local table (shadowing, never outer mutation)
/// and yields the assigned value, and a parenthesized form performs a
/// call.
pub fn evaluate<H: NativeHost>(
    env: &mut Interp,
    host: &mut H,
    scope: usize,
    node: &ASTNode,
) -> (r: Result<Value, EvalError>)
    requires
        old(env).wf(),
        scope < old(env).scopes@.len(),
    ensures
        final(env).wf(),
        env_evolves(old(env).model(), final(env).model(), scope as int),
        spec_eval_ensures(
            old(env).model(),
            final(env).model(),
            scope as int,
            node.model(),
            value_result_model(r),
        ),
    decreases node, 2int,
{
    match node {
        ASTNode::Number(t) => Ok(Value::Number(t.clone())),
        ASTNode::String(t) => Ok(Value::String(t.clone())),
        ASTNode::Literal(l) => Ok(
            match l {
                Literal::True => Value::True,
                Literal::False => Value::False,
                Literal::Nil => Value::Nil,
            },
        ),
        ASTNode::Id(n) => resolve(env, scope, n),
        ASTNode::Equals(name, v) => {
            match evaluate_value(env, host, scope, v) {
                Ok(val) => {
                    let ghost mid = env.model();
                    let vclone = val.clone();
                    table_put(&mut env.scopes[scope].local, name.clone(), vclone);
                    proof {
                        let post = env.model();
                        assert(post.scopes.len() == mid.scopes.len());
                        assert forall|k: int| 0 <= k < post.scopes.len() implies (
                        #[trigger] post.scopes[k]).parent == mid.scopes[k].parent by {}
                        assert forall|k: int|
                            0 <= k < post.scopes.len() && k != scope as int implies (
                        #[trigger] post.scopes[k]).local == mid.scopes[k].local by {}
                        assert(post.wf());
                        assert(env_evolves(mid, post, scope as int));
                        lemma_env_evolves_trans(old(env).model(), mid, post, scope as int);
                        assert(post.scopes =~= mid.scopes.update(
                            scope as int,
                            ScopeModel {
                                local: mid.scopes[scope as int].local.push((name@, val.model())),
                                parent: mid.scopes[scope as int].parent,
                            },
                        ));
                        let vm = v.model();
                        if vm is Expression {
                            assert(mid.wf());
                            assert(spec_assign_call_ok_with(
                                mid,
                                old(env).model(),
                                post,
                                scope as int,
                                name@,
                                vm->Expression_0,
                                val.model(),
                            ));
                        }
                    }
                    Ok(val)
                },
                Err(e) => {
                    proof {
                        let vm = v.model();
                        if vm is Expression {
                            assert(env.model().wf());
                            assert(spec_assign_call_err_with(
                                env.model(),
                                old(env).model(),
                                env.model(),
                                scope as int,
                                vm->Expression_0,
                                e.model(),
                            ));
                        }
                    }
                    Err(e)
                },
            }
        },
        ASTNode::Expression(children) => execute_expression(env, host, scope, children),
    }
}

/// Evaluate an assignment's right-hand side against `scope`.
fn evaluate_value<H: NativeHost>(
    env: &mut Interp,
    host: &mut H,
    scope: usize,
    v: &ASTValue,
) -> (r: Result<Value, EvalError>)
    requires
        old(env).wf(),
        scope < old(env).scopes@.len(),
    ensures
        final(env).wf(),
        env_evolves(old(env).model(), final(env).model(), scope as int),
        match spec_eval_rhs(old(env).model(), scope as int, v.model()) {
            Some(res) => value_result_model(r) == res && final(env).model() == old(env).model(),
            None => v.model() matches AstValue::Expression(es) && spec_call_ensures(
                old(env).model(),
                final(env).model(),
                scope as int,
                es,
                value_result_model(r),
            ),
        },
    decreases v, 2int,
{
    match v {
        ASTValue::Number(t) => Ok(Value::Number(t.clone())),
        ASTValue::String(t) => Ok(Value::String(t.clone())),
        ASTValue::Literal(l) => Ok(
            match l {
                Literal::True => Value::True,
                Literal::False => Value::False,
                Literal::Nil => Value::Nil,
            },
        ),
        ASTValue::Id(n) => resolve(env, scope, n),
        ASTValue::Expression(children) => execute_expression(env, host, scope, children),
    }
}

/// Evaluate the head of a nonempty form to a native-function value and
/// the arguments left to right, and build the call frame handed to the
/// host: a fresh child scope of `scope` with an empty local table, the
/// callable in stack slot 0, the argument values after it in order, and
/// the return slot initialized to `Nil`. The returned handle is the
/// callable's. Errors are exactly the pre-call failures: a failing head
/// or argument evaluation propagates its error, and a head value that
/// is no native function is `NotCallable`.
#[verifier::loop_isolation(false)]
pub fn build_call_frame<H: NativeHost>(
    env: &mut Interp,
    host: &mut H,
    scope: usize,
    expression: &AST,
) -> (r: Result<(FunctionEnv, u32), EvalError>)
    requires
        old(env).wf(),
        scope < old(env).scopes@.len(),
        expression@.len() > 0,
    ensures
        final(env).wf(),
        env_evolves(old(env).model(), final(env).model(), scope as int),
        match r {
            Ok(p) => {
                &&& p.0.model().retval == ValueModel::Nil
                &&& p.0.model().stack.len() == expression@.len()
                &&& p.0.model().stack[0] == ValueModel::ForeignFunction(p.1)
                &&& p.0.model().scope == final(env).model().scopes.len() - 1
                &&& final(env).model().scopes.last() == (ScopeModel {
                    local: Seq::empty(),
                    parent: Some(scope as int),
                })
                &&& exists|ms: Seq<InterpModel>|
                    #![trigger ms[0]]
                    {
                        &&& ms[0] == old(env).model()
                        &&& spec_call_frame_with(
                            ms,
                            p.0.model().stack,
                            old(env).model(),
                            final(env).model(),
                            scope as int,
                            ASTNode::model_seq(expression@),
                        )
                    }
            },
            Err(e) => spec_call_ensures(
                old(env).model(),
                final(env).model(),
                scope as int,
                ASTNode::model_seq(expression@),
                Err(e.model()),
            ),
        },
    decreases expression, 0int,
{
    let ghost pre = old(env).model();
    let ghost es = ASTNode::model_seq(expression@);
    proof {
        crate::ast::lemma_model_seq_len(expression@);
        crate::ast::lemma_model_seq_index(expression@, 0);
    }
    let ghost mut ms: Seq<InterpModel> = seq![pre];
    let ghost mut vals: Seq<ValueModel> = seq![];
    let callee = match evaluate(env, host, scope, &expression[0]) {
        Ok(v) => v,
        Err(e) => {
            proof {
                let msw: Seq<InterpModel> = seq![pre, env.model()];
                let vw: Seq<ValueModel> = Seq::empty();
                assert(msw[0] == pre && vw.len() == 0);
                assert(spec_call_steps_err_with(
                    msw,
                    vw,
                    0,
                    pre,
                    env.model(),
                    scope as int,
                    es,
                    e.model(),
                ));
                assert(spec_call_step_err(pre, env.model(), scope as int, es, e.model()));
            }
            return Err(e);
        },
    };
    let ghost gcallee = callee.model();
    proof {
        ms = ms.push(env.model());
        vals = vals.push(gcallee);
    }
    // User-defined functions are a reserved capability: no syntax of this
    // core produces a `Function` value, so only host-registered native
    // functions can be invoked.
    let fhandle = match &callee {
        Value::ForeignFunction(h) => *h,
        _ => {
            proof {
                let msw: Seq<InterpModel> = seq![pre, env.model()];
                let vw: Seq<ValueModel> = seq![gcallee];
                assert(msw[0] == pre && msw[1] == env.model() && vw.len() == 1 && vw[0]
                    == gcallee);
                assert(spec_call_head_not_callable_with(
                    msw[1],
                    vw[0],
                    pre,
                    env.model(),
                    scope as int,
                    es,
                ));
                assert(spec_call_head_not_callable(pre, env.model(), scope as int, es));
            }
            return Err(EvalError::NotCallable);
        },
    };
    let mut stack: Vec<Value> = Vec::new();
    stack.push(callee);
    let mut idx: usize = 1;
    while idx < expression.len()
        invariant
            1 <= idx <= expression@.len(),
            env.wf(),
            scope < env.scopes@.len(),
            env_evolves(pre, env.model(), scope as int),
            ms.len() == idx + 1,
            vals.len() == idx,
            ms[0] == pre,
            ms[idx as int] == env.model(),
            forall|i: int|
                0 <= i < idx ==> spec_eval_ensures(
                    ms[i],
                    ms[i + 1],
                    scope as int,
                    es[i],
                    Ok(#[trigger] vals[i]),
                ),
            forall|i: int| 0 <= i < ms.len() ==> (#[trigger] ms[i]).wf(),
            vals[0] == ValueModel::ForeignFunction(fhandle),
            stack@.len() == idx,
            forall|i: int| 0 <= i < idx ==> (#[trigger] stack@[i]).model() == vals[i],
        decreases expression@.len() - idx,
    {
        proof {
            crate::ast::lemma_model_seq_index(expression@, idx as int);
        }
        let ghost ms0 = ms;
        let ghost vals0 = vals;
        match evaluate(env, host, scope, &expression[idx]) {
            Ok(v) => {
                let ghost gv = v.model();
                stack.push(v);
                proof {
                    ms = ms.push(env.model());
                    vals = vals.push(gv);
                    assert forall|i: int| 0 <= i < idx + 1 implies spec_eval_ensures(
                        ms[i],
                        ms[i + 1],
                        scope as int,
                        es[i],
                        Ok(#[trigger] vals[i]),
                    ) by {
                        if i < idx {
                            assert(ms[i] == ms0[i]);
                            assert(ms[i + 1] == ms0[i + 1]);
                            assert(vals[i] == vals0[i]);
                        }
                    }
                }
            },
            Err(e) => {
                proof {
                    let ms2 = ms.push(env.model());
                    assert(ms2[0] == pre && vals.len() == idx);
                    assert(spec_call_steps_err_with(
                        ms2,
                        vals,
                        idx as int,
                        pre,
                        env.model(),
                        scope as int,
                        es,
                        e.model(),
                    ));
                    assert(spec_call_step_err(pre, env.model(), scope as int, es, e.model()));
                }
                return Err(e);
            },
        }
        idx += 1;
    }
    let ghost after_args = env.model();
    let frame_scope = child_scope(env, scope);
    proof {
        assert(env_evolves(after_args, env.model(), scope as int));
        lemma_env_evolves_trans(pre, after_args, env.model(), scope as int);
    }
    let frame = FunctionEnv { scope: frame_scope, stack, retval: Value::Nil };
    proof {
        assert(frame.model().stack =~= vals);
        assert(ms[0] == pre && vals.len() == es.len());
        assert(spec_call_frame_with(ms, vals, pre, env.model(), scope as int, es));
    }
    Ok((frame, fhandle))
}

/// The call's result from what the host left behind: a native call that
/// reported success returns exactly the frame's single return slot; a
/// failing one returns the host's error unchanged, attributed to that
/// one call.
pub fn finish_call(frame: FunctionEnv, res: Result<(), EvalError>) -> (r: Result<
    Value,
    EvalError,
>)
    ensures
        match res {
            Ok(_) => value_result_model(r) == Ok::<ValueModel, EvalErrorModel>(
                frame.model().retval,
            ),
            Err(e) => value_result_model(r) == Err::<ValueModel, EvalErrorModel>(e.model()),
        },
{
    match res {
        Ok(()) => Ok(frame.retval),
        Err(e) => Err(e),
    }
}

/// Perform the call written as a parenthesized form: an empty form
/// yields `Nil`; otherwise build the call frame (head first, arguments
/// left to right, a fresh child scope of the caller's scope), invoke the
/// host exactly once on it, and return the frame's return slot as the
/// call's result — or the host's error.
pub fn execute_expression<H: NativeHost>(
    env: &mut Interp,
    host: &mut H,
    scope: usize,
    expression: &AST,
) -> (r: Result<Value, EvalError>)
    requires
        old(env).wf(),
        scope < old(env).scopes@.len(),
    ensures
        final(env).wf(),
        env_evolves(old(env).model(), final(env).model(), scope as int),
        spec_call_ensures(
            old(env).model(),
            final(env).model(),
            scope as int,
            ASTNode::model_seq(expression@),
            value_result_model(r),
        ),
    decreases expression, 1int,
{
    let ghost pre = old(env).model();
    let ghost es = ASTNode::model_seq(expression@);
    proof {
        crate::ast::lemma_model_seq_len(expression@);
    }
    if expression.len() == 0 {
        return Ok(Value::Nil);
    }
    match build_call_frame(env, host, scope, expression) {
        Ok((mut frame, fhandle)) => {
            let ghost gstack = frame.model().stack;
            let ghost mid = env.model();
            proof {
                let ms0 = choose|ms: Seq<InterpModel>|
                    #![trigger ms[0]]
                    {
                        &&& ms[0] == pre
                        &&& spec_call_frame_with(ms, gstack, pre, mid, scope as int, es)
                    };
                assert(spec_call_frame_with(ms0, gstack, pre, mid, scope as int, es));
                assert(ms0[0] == pre && gstack.len() == es.len());
                assert(spec_call_completed(pre, mid, scope as int, es));
                lemma_frame_head_pinned(ms0, gstack, pre, mid, scope as int, es);
            }
            let res = host.call(fhandle, &mut frame);
            finish_call(frame, res)
        },
        Err(e) => Err(e),
    }
}

/// From a realized calling convention, the pinned pre-call outcomes for
/// identifier and atom heads are vacuous: the head resolved to a
/// native-function value, and an atom head is impossible.
proof fn lemma_frame_head_pinned(
    ms: Seq<InterpModel>,
    vals: Seq<ValueModel>,
    pre: InterpModel,
    post: InterpModel,
    scope: int,
    es: Seq<Ast>,
)
    requires
        spec_call_frame_with(ms, vals, pre, post, scope, es),
    ensures
        match es[0] {
            Ast::Id(f) => spec_resolve(pre, scope, f) == Ok::<ValueModel, EvalErrorModel>(vals[0]),
            Ast::Number(_) => false,
            Ast::String(_) => false,
            Ast::Literal(_) => false,
            _ => true,
        },
{
    assert(spec_call_frame_with(ms, vals, pre, post, scope, es));
    assert(spec_eval_ensures(ms[0], ms[1], scope, es[0], Ok(vals[0])));
}

/// The chain of a whole program run: `nodes[i]` carried the arena from
/// `ms[i]` to `ms[i+1]` and yielded `vals[i]`, every intermediate arena
/// well formed.
pub open spec fn spec_exec_steps(
    ms: Seq<InterpModel>,
    vals: Seq<ValueModel>,
    scope: int,
    nodes: Seq<Ast>,
    n: int,
) -> bool {
    &&& (forall|i: int|
        0 <= i < n ==> spec_eval_ensures(ms[i], ms[i + 1], scope, nodes[i], Ok(#[trigger] vals[i])))
    &&& (forall|i: int| 0 <= i < ms.len() ==> (#[trigger] ms[i]).wf())
}

/// A successful program run realized by the state chain `ms` and the
/// per-form values `vals`: every form evaluated in order, and the
/// program's value is the last form's (Nil for an empty program).
pub open spec fn spec_exec_chain_ok_with(
    ms: Seq<InterpModel>,
    vals: Seq<ValueModel>,
    pre: InterpModel,
    post: InterpModel,
    scope: int,
    nodes: Seq<Ast>,
    v: ValueModel,
) -> bool {
    &&& ms.len() == nodes.len() + 1
    &&& vals.len() == nodes.len()
    &&& ms[0] == pre
    &&& ms[nodes.len() as int] == post
    &&& spec_exec_steps(ms, vals, scope, nodes, nodes.len() as int)
    &&& v == if nodes.len() == 0 {
        ValueModel::Nil
    } else {
        vals.last()
    }
}

/// A failed program run: the first `k` forms evaluated in order, and
/// form `k` failed with `e`, aborting the run there.
pub open spec fn spec_exec_chain_err_with(
    ms: Seq<InterpModel>,
    vals: Seq<ValueModel>,
    k: int,
    pre: InterpModel,
    post: InterpModel,
    scope: int,
    nodes: Seq<Ast>,
    e: EvalErrorModel,
) -> bool {
    &&& 0 <= k < nodes.len()
    &&& ms.len() == k + 2
    &&& vals.len() == k
    &&& ms[0] == pre
    &&& ms[k + 1] == post
    &&& spec_exec_steps(ms, vals, scope, nodes, k)
    &&& spec_eval_ensures(ms[k], ms[k + 1], scope, nodes[k], Err(e))
}

/// What running a whole program guarantees: some chain of arena states
/// and values realizes the run, form by form in order — completely for
/// a success, up to and including the first failing form for an error.
pub open spec fn spec_exec_chain(
    pre: InterpModel,
    post: InterpModel,
    scope: int,
    nodes: Seq<Ast>,
    r: Result<ValueModel, EvalErrorModel>,
) -> bool {
    match r {
        Ok(v) => exists|ms: Seq<InterpModel>, vals: Seq<ValueModel>| #[trigger] spec_exec_chain_ok_with(
            ms,
            vals,
            pre,
            post,
            scope,
            nodes,
            v,
        ),
        Err(e) => exists|
            ms: Seq<InterpModel>,
            vals: Seq<ValueModel>,
            k: int,
        | #[trigger] spec_exec_chain_err_with(ms, vals, k, pre, post, scope, nodes, e),
    }
}

/// Evaluate each top-level form of a program in order against `scope`;
/// the first error aborts. The result is the last form's value, `Nil`
/// for an empty program; the whole run is pinned by `spec_exec_chain`.
#[verifier::loop_isolation(false)]
pub fn execute<H: NativeHost>(
    env: &mut Interp,
    host: &mut H,
    scope: usize,
    ast: &AST,
) -> (r: Result<Value, EvalError>)
    requires
        old(env).wf(),
        scope < old(env).scopes@.len(),
    ensures
        final(env).wf(),
        env_evolves(old(env).model(), final(env).model(), scope as int),
        spec_exec_chain(
            old(env).model(),
            final(env).model(),
            scope as int,
            ASTNode::model_seq(ast@),
            value_result_model(r),
        ),
        ast@.len() == 0 ==> final(env).model() == old(env).model() && value_result_model(r)
            == Ok::<ValueModel, EvalErrorModel>(ValueModel::Nil),
        ast@.len() == 1 ==> spec_eval_ensures(
            old(env).model(),
            final(env).model(),
            scope as int,
            ast@[0].model(),
            value_result_model(r),
        ),
{
    let ghost pre = old(env).model();
    let ghost nodes = ASTNode::model_seq(ast@);
    proof {
        crate::ast::lemma_model_seq_len(ast@);
    }
    let ghost mut ms: Seq<InterpModel> = seq![pre];
    let ghost mut vals: Seq<ValueModel> = seq![];
    let mut result = Value::Nil;
    let mut i: usize = 0;
    while i < ast.len()
        invariant
            i <= ast@.len(),
            env.wf(),
            scope < env.scopes@.len(),
            env_evolves(pre, env.model(), scope as int),
            ms.len() == i + 1,
            vals.len() == i,
            ms[0] == pre,
            ms[i as int] == env.model(),
            spec_exec_steps(ms, vals, scope as int, nodes, i as int),
            i > 0 ==> result.model() == vals[i - 1],
            i == 0 ==> env.model() == pre && result.model() == ValueModel::Nil,
            ast@.len() == 1 && i == 1 ==> spec_eval_ensures(
                pre,
                env.model(),
                scope as int,
                ast@[0].model(),
                Ok::<ValueModel, EvalErrorModel>(result.model()),
            ),
        decreases ast@.len() - i,
    {
        let ghost step = env.model();
        proof {
            crate::ast::lemma_model_seq_index(ast@, i as int);
        }
        let ghost ms0 = ms;
        let ghost vals0 = vals;
        match evaluate(env, host, scope, &ast[i]) {
            Ok(v) => {
                let ghost gv = v.model();
                result = v;
                proof {
                    ms = ms.push(env.model());
                    vals = vals.push(gv);
                    assert forall|j: int| 0 <= j < i + 1 implies spec_eval_ensures(
                        ms[j],
                        ms[j + 1],
                        scope as int,
                        nodes[j],
                        Ok(#[trigger] vals[j]),
                    ) by {
                        if j < i {
                            assert(ms[j] == ms0[j]);
                            assert(ms[j + 1] == ms0[j + 1]);
                            assert(vals[j] == vals0[j]);
                        }
                    }
                    lemma_env_evolves_trans(pre, step, env.model(), scope as int);
                }
            },
            Err(e) => {
                proof {
                    lemma_env_evolves_trans(pre, step, env.model(), scope as int);
                    let ms2 = ms.push(env.model());
                    assert(spec_exec_chain_err_with(
                        ms2,
                        vals,
                        i as int,
                        pre,
                        env.model(),
                        scope as int,
                        nodes,
                        e.model(),
                    ));
                }
                return Err(e);
            },
        }
        i += 1;
    }
    proof {
        assert(spec_exec_chain_ok_with(
            ms,
            vals,
            pre,
            env.model(),
            scope as int,
            nodes,
            result.model(),
        ));
    }
    Ok(result)
}

/// Law: running the two-form program that binds `name` to the number
/// literal `t` and then resolves `name`, when it succeeds, yields
/// exactly `Number(t)`, and `name` is bound to `Number(t)` in the
/// scope's local table afterwards.
pub proof fn lemma_program_assign_then_resolve(
    pre: InterpModel,
    post: InterpModel,
    scope: int,
    name: Seq<char>,
    t: Seq<char>,
    r: Result<ValueModel, EvalErrorModel>,
)
    requires
        pre.wf(),
        0 <= scope < pre.scopes.len(),
        spec_exec_chain(
            pre,
            post,
            scope,
            seq![Ast::Equals(name, AstValue::Number(t)), Ast::Id(name)],
            r,
        ),
        r is Ok,
    ensures
        r == Ok::<ValueModel, EvalErrorModel>(ValueModel::Number(t)),
        spec_lookup(post.scopes[scope].local, name) == Some(ValueModel::Number(t)),
{
    let nodes = seq![Ast::Equals(name, AstValue::Number(t)), Ast::Id(name)];
    let v = r->Ok_0;
    let (ms, vals) = choose|ms: Seq<InterpModel>, vals: Seq<ValueModel>| spec_exec_chain_ok_with(
        ms,
        vals,
        pre,
        post,
        scope,
        nodes,
        v,
    );
    assert(spec_exec_chain_ok_with(ms, vals, pre, post, scope, nodes, v));
    assert(spec_eval_ensures(ms[0], ms[1], scope, nodes[0], Ok(vals[0])));
    assert(vals[0] == ValueModel::Number(t));
    assert(ms[1].scopes[scope].local == pre.scopes[scope].local.push(
        (name, ValueModel::Number(t)),
    ));
    assert(spec_lookup(ms[1].scopes[scope].local, name) == Some(ValueModel::Number(t)));
    crate::types::lemma_local_binding_resolves(ms[1], scope, name, ValueModel::Number(t));
    assert(spec_eval_ensures(ms[1], ms[2], scope, nodes[1], Ok(vals[1])));
    assert(vals[1] == ValueModel::Number(t));
    assert(post == ms[2]);
}

} // verus!
