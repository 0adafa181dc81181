//! What holds of every evaluation: the laws of the evaluator, stated over
//! the semantics and proved from them.

use crate::builtins::primitive_world;
use crate::env::World;
use crate::semantics::{
    apply_closure_spec, arity_ok, bind_pairs_spec, bind_params_spec, call_spec, call_world_spec,
    def_bang_spec, eval_ast_spec, eval_spec, eval_upto_spec, if_spec, let_star_spec,
    special_form_spec, Outcome,
};
use crate::types::{seq_eq, value_eq, Callable, Failure, Flavor, SpecialForm, Value};
use vstd::prelude::*;

verus! {

/// Steps that work in one scope, or in scopes that were opened on the way,
/// add up to a step that works in that scope.
pub proof fn lemma_steps_chain(a: World, b: World, c: World, at: nat, first: nat, second: nat)
    requires
        a.steps_to(b, first),
        b.steps_to(c, second),
        first == at || first >= a.scopes.len(),
        second == at || second >= a.scopes.len(),
    ensures
        a.steps_to(c, at),
{
    assert forall|i: int|
        #![trigger a.scopes[i]]
        #![trigger c.scopes[i]]
        0 <= i < a.scopes.len() implies c.scopes[i].parent == a.scopes[i].parent && (i != at
        ==> c.scopes[i] == a.scopes[i]) by {}
    assert forall|j: int|
        #![trigger a.output[j]]
        #![trigger c.output[j]]
        0 <= j < a.output.len() implies c.output[j] == a.output[j] by {}
}

/// Binding a name works in the scope of the binding and in no other.
pub proof fn lemma_bind_steps(w: World, at: nat, key: Seq<char>, value: Value)
    ensures
        w.steps_to(w.bind(at, key, value), at),
{
}

/// Binding parameters works in the scope they are bound in and in no
/// other.
pub proof fn lemma_bind_params_steps(
    w: World,
    scope: nat,
    params: Seq<Seq<char>>,
    args: Seq<Value>,
    n: nat,
)
    ensures
        w.steps_to(bind_params_spec(w, scope, params, args, n), scope),
        bind_params_spec(w, scope, params, args, n).scopes.len() == w.scopes.len(),
    decreases n,
{
    if !(n == 0 || n > params.len() || n > args.len()) {
        lemma_bind_params_steps(w, scope, params, args, (n - 1) as nat);
        let before = bind_params_spec(w, scope, params, args, (n - 1) as nat);
        lemma_steps_chain(w, before, before.bind(scope, params[n - 1], args[n - 1]), scope, scope, scope);
    }
}

/// Evaluation works in the scope it was started in and in scopes that it
/// opens: no other scope changes, no scope is dropped or moved, and nothing
/// written is taken back.
pub proof fn lemma_eval_frame(ast: Value, env: nat, w: World, depth: nat)
    ensures
        w.steps_to(eval_spec(ast, env, w, depth).world, env),
    decreases depth, 1nat, 0nat,
{
    match ast {
        Value::Symbol(_) => {},
        Value::List(Flavor::Round, items) => {
            if items.len() != 0 && depth != 0 {
                lemma_call_frame(items, env, w, (depth - 1) as nat);
            }
        },
        _ => {
            lemma_eval_ast_frame(ast, env, w, depth);
        },
    }
}

/// The same of an expression that is not a call.
pub proof fn lemma_eval_ast_frame(ast: Value, env: nat, w: World, depth: nat)
    ensures
        w.steps_to(eval_ast_spec(ast, env, w, depth).world, env),
    decreases depth, 0nat, 0nat,
{
    match ast {
        Value::List(_, items) => {
            if items.len() != 0 && depth != 0 {
                lemma_eval_upto_frame(items, items.len(), env, w, (depth - 1) as nat);
            }
        },
        _ => {},
    }
}

/// The same of a sequence of expressions.
pub proof fn lemma_eval_upto_frame(items: Seq<Value>, n: nat, env: nat, w: World, depth: nat)
    ensures
        w.steps_to(eval_upto_spec(items, n, env, w, depth).world, env),
    decreases depth, 2nat, n,
{
    if !(n == 0 || n > items.len()) {
        lemma_eval_upto_frame(items, (n - 1) as nat, env, w, depth);
        let before = eval_upto_spec(items, (n - 1) as nat, env, w, depth);
        if before.result is Ok {
            lemma_eval_frame(items[n - 1], env, before.world, depth);
            lemma_steps_chain(
                w,
                before.world,
                eval_spec(items[n - 1], env, before.world, depth).world,
                env,
                env,
                env,
            );
        }
    }
}

/// The same of a call.
pub proof fn lemma_call_frame(items: Seq<Value>, env: nat, w: World, depth: nat)
    ensures
        w.steps_to(call_spec(items, env, w, depth).world, env),
    decreases depth, 5nat, 0nat,
{
    lemma_eval_frame(items[0], env, w, depth);
    let head = eval_spec(items[0], env, w, depth);
    let rest = items.skip(1);
    match head.result {
        Err(_) => {},
        Ok(Value::Callable(Callable::SpecialForm(form))) => {
            lemma_special_form_frame(form, rest, env, head.world, depth);
            let r = special_form_spec(form, rest, env, head.world, depth);
            if form == SpecialForm::Let {
                lemma_steps_chain(w, head.world, r.world, env, env, head.world.scopes.len());
            } else {
                lemma_steps_chain(w, head.world, r.world, env, env, env);
            }
        },
        Ok(Value::Callable(Callable::Primitive(p))) => {
            lemma_eval_upto_frame(rest, rest.len(), env, head.world, depth);
            let args = eval_upto_spec(rest, rest.len(), env, head.world, depth);
            lemma_steps_chain(w, head.world, args.world, env, env, env);
            match args.result {
                Err(_) => {},
                Ok(values) => {
                    let after = primitive_world(p, values, args.world);
                    lemma_steps_chain(w, args.world, after, env, env, env);
                },
            }
        },
        Ok(Value::Callable(Callable::Closure { params, rest_param, body, env: captured })) => {
            lemma_eval_upto_frame(rest, rest.len(), env, head.world, depth);
            let args = eval_upto_spec(rest, rest.len(), env, head.world, depth);
            lemma_steps_chain(w, head.world, args.world, env, env, env);
            match args.result {
                Err(_) => {},
                Ok(values) => {
                    lemma_apply_closure_frame(
                        params,
                        rest_param,
                        body,
                        captured,
                        values,
                        args.world,
                        depth,
                    );
                    let r = apply_closure_spec(
                        params,
                        rest_param,
                        body,
                        captured,
                        values,
                        args.world,
                        depth,
                    );
                    lemma_steps_chain(w, args.world, r.world, env, env, args.world.scopes.len());
                },
            }
        },
        Ok(_) => {},
    }
}

/// The same of a special form; `let*` works only in the scope it opens.
pub proof fn lemma_special_form_frame(
    form: SpecialForm,
    args: Seq<Value>,
    env: nat,
    w: World,
    depth: nat,
)
    ensures
        w.steps_to(
            special_form_spec(form, args, env, w, depth).world,
            if form == SpecialForm::Let {
                w.scopes.len()
            } else {
                env
            },
        ),
    decreases depth, 4nat, 0nat,
{
    match form {
        SpecialForm::Def => lemma_def_bang_frame(args, env, w, depth),
        SpecialForm::Let => lemma_let_star_frame(args, env, w, depth),
        SpecialForm::Do => lemma_eval_upto_frame(args, args.len(), env, w, depth),
        SpecialForm::Fn => {},
        SpecialForm::If => lemma_if_frame(args, env, w, depth),
    }
}

/// `def!` works in the scope of the call.
pub proof fn lemma_def_bang_frame(args: Seq<Value>, env: nat, w: World, depth: nat)
    ensures
        w.steps_to(def_bang_spec(args, env, w, depth).world, env),
    decreases depth, 3nat, 0nat,
{
    if args.len() == 2 && args[0] is Symbol {
        lemma_eval_frame(args[1], env, w, depth);
        let r = eval_spec(args[1], env, w, depth);
        match r.result {
            Ok(v) => {
                lemma_bind_steps(r.world, env, args[0]->Symbol_0, v);
                lemma_steps_chain(w, r.world, r.world.bind(env, args[0]->Symbol_0, v), env, env, env);
            },
            Err(_) => {},
        }
    }
}

/// `if` works in the scope of the call.
pub proof fn lemma_if_frame(args: Seq<Value>, env: nat, w: World, depth: nat)
    ensures
        w.steps_to(if_spec(args, env, w, depth).world, env),
    decreases depth, 3nat, 0nat,
{
    if !(args.len() < 2 || args.len() > 3) {
        lemma_eval_frame(args[0], env, w, depth);
        let c = eval_spec(args[0], env, w, depth);
        match c.result {
            Err(_) => {},
            Ok(v) => {
                if v.truthy() {
                    lemma_eval_frame(args[1], env, c.world, depth);
                    lemma_steps_chain(
                        w,
                        c.world,
                        eval_spec(args[1], env, c.world, depth).world,
                        env,
                        env,
                        env,
                    );
                } else if args.len() == 3 {
                    lemma_eval_frame(args[2], env, c.world, depth);
                    lemma_steps_chain(
                        w,
                        c.world,
                        eval_spec(args[2], env, c.world, depth).world,
                        env,
                        env,
                        env,
                    );
                }
            },
        }
    }
}

/// Binding the pairs of a binding list works in the scope they are bound
/// in.
pub proof fn lemma_bind_pairs_frame(pairs: Seq<Value>, n: nat, scope: nat, w: World, depth: nat)
    ensures
        w.steps_to(bind_pairs_spec(pairs, n, scope, w, depth).world, scope),
    decreases depth, 2nat, n,
{
    if !(n == 0 || 2 * n > pairs.len()) {
        lemma_bind_pairs_frame(pairs, (n - 1) as nat, scope, w, depth);
        let before = bind_pairs_spec(pairs, (n - 1) as nat, scope, w, depth);
        if before.result is Ok {
            match pairs[2 * n - 2] {
                Value::Symbol(key) => {
                    lemma_eval_frame(pairs[2 * n - 1], scope, before.world, depth);
                    let r = eval_spec(pairs[2 * n - 1], scope, before.world, depth);
                    lemma_steps_chain(w, before.world, r.world, scope, scope, scope);
                    match r.result {
                        Ok(v) => {
                            lemma_bind_steps(r.world, scope, key, v);
                            lemma_steps_chain(
                                w,
                                r.world,
                                r.world.bind(scope, key, v),
                                scope,
                                scope,
                                scope,
                            );
                        },
                        Err(_) => {},
                    }
                },
                _ => {},
            }
        }
    }
}

/// The bindings of `let*` do not leak: it works in the scope that it opens,
/// and every scope that was there before is as it was.
pub proof fn lemma_let_star_frame(args: Seq<Value>, env: nat, w: World, depth: nat)
    ensures
        w.steps_to(let_star_spec(args, env, w, depth).world, w.scopes.len()),
    decreases depth, 3nat, 0nat,
{
    if args.len() == 2 {
        match args[0] {
            Value::List(flavor, pairs) => {
                if flavor != Flavor::Curly && pairs.len() % 2 == 0 {
                    let scope = w.scopes.len();
                    let opened = w.open_scope(Some(env));
                    lemma_bind_pairs_frame(pairs, pairs.len() / 2, scope, opened, depth);
                    let bound = bind_pairs_spec(pairs, pairs.len() / 2, scope, opened, depth);
                    lemma_steps_chain(w, opened, bound.world, scope, scope, scope);
                    if bound.result is Ok {
                        lemma_eval_frame(args[1], scope, bound.world, depth);
                        lemma_steps_chain(
                            w,
                            bound.world,
                            eval_spec(args[1], scope, bound.world, depth).world,
                            scope,
                            scope,
                            scope,
                        );
                    }
                }
            },
            _ => {},
        }
    }
}

/// The call of a closure works in the scope that it opens, and every scope
/// that was there before is as it was.
pub proof fn lemma_apply_closure_frame(
    params: Seq<Seq<char>>,
    rest_param: Option<Seq<char>>,
    body: Seq<Value>,
    captured: nat,
    args: Seq<Value>,
    w: World,
    depth: nat,
)
    ensures
        w.steps_to(
            apply_closure_spec(params, rest_param, body, captured, args, w, depth).world,
            w.scopes.len(),
        ),
    decreases depth, 3nat, 0nat,
{
    if arity_ok(params.len(), rest_param is Some, args.len()) {
        let scope = w.scopes.len();
        let opened = w.open_scope(Some(captured));
        lemma_bind_params_steps(opened, scope, params, args, params.len());
        let fixed = bind_params_spec(opened, scope, params, args, params.len());
        lemma_steps_chain(w, opened, fixed, scope, scope, scope);
        let start = call_world_spec(params, rest_param, captured, args, w);
        match rest_param {
            Some(rest) => {
                lemma_steps_chain(w, fixed, start, scope, scope, scope);
            },
            None => {},
        }
        lemma_eval_upto_frame(body, body.len(), scope, start, depth);
        lemma_steps_chain(
            w,
            start,
            eval_upto_spec(body, body.len(), scope, start, depth).world,
            scope,
            scope,
            scope,
        );
    }
}

/// Whether an evaluation ended for another reason than want of depth.
pub open spec fn within_depth<T>(o: Outcome<T>) -> bool {
    !(o.result matches Err(Failure::DepthExceeded))
}

/// The depth is a bound and nothing else: an evaluation that ended within a
/// depth ends in the same way, with the same result and the same world,
/// within every greater depth.
pub proof fn lemma_eval_deeper(ast: Value, env: nat, w: World, depth: nat, more: nat)
    requires
        depth <= more,
        within_depth(eval_spec(ast, env, w, depth)),
    ensures
        eval_spec(ast, env, w, more) == eval_spec(ast, env, w, depth),
    decreases depth, 1nat, 0nat,
{
    match ast {
        Value::Symbol(_) => {},
        Value::List(Flavor::Round, items) => {
            if items.len() != 0 {
                lemma_call_deeper(items, env, w, (depth - 1) as nat, (more - 1) as nat);
            }
        },
        _ => {
            lemma_eval_ast_deeper(ast, env, w, depth, more);
        },
    }
}

/// The same of an expression that is not a call.
pub proof fn lemma_eval_ast_deeper(ast: Value, env: nat, w: World, depth: nat, more: nat)
    requires
        depth <= more,
        within_depth(eval_ast_spec(ast, env, w, depth)),
    ensures
        eval_ast_spec(ast, env, w, more) == eval_ast_spec(ast, env, w, depth),
    decreases depth, 0nat, 0nat,
{
    match ast {
        Value::List(_, items) => {
            if items.len() != 0 {
                lemma_eval_upto_deeper(
                    items,
                    items.len(),
                    env,
                    w,
                    (depth - 1) as nat,
                    (more - 1) as nat,
                );
            }
        },
        _ => {},
    }
}

/// The same of a sequence of expressions.
pub proof fn lemma_eval_upto_deeper(
    items: Seq<Value>,
    n: nat,
    env: nat,
    w: World,
    depth: nat,
    more: nat,
)
    requires
        depth <= more,
        within_depth(eval_upto_spec(items, n, env, w, depth)),
    ensures
        eval_upto_spec(items, n, env, w, more) == eval_upto_spec(items, n, env, w, depth),
    decreases depth, 2nat, n,
{
    if !(n == 0 || n > items.len()) {
        let before = eval_upto_spec(items, (n - 1) as nat, env, w, depth);
        lemma_eval_upto_deeper(items, (n - 1) as nat, env, w, depth, more);
        if before.result is Ok {
            lemma_eval_deeper(items[n - 1], env, before.world, depth, more);
        }
    }
}

/// The same of a call.
pub proof fn lemma_call_deeper(items: Seq<Value>, env: nat, w: World, depth: nat, more: nat)
    requires
        depth <= more,
        within_depth(call_spec(items, env, w, depth)),
    ensures
        call_spec(items, env, w, more) == call_spec(items, env, w, depth),
    decreases depth, 5nat, 0nat,
{
    let head = eval_spec(items[0], env, w, depth);
    let rest = items.skip(1);
    lemma_eval_deeper(items[0], env, w, depth, more);
    match head.result {
        Err(_) => {},
        Ok(Value::Callable(Callable::SpecialForm(form))) => {
            lemma_special_form_deeper(form, rest, env, head.world, depth, more);
        },
        Ok(Value::Callable(Callable::Primitive(_))) => {
            lemma_eval_upto_deeper(rest, rest.len(), env, head.world, depth, more);
        },
        Ok(Value::Callable(Callable::Closure { params, rest_param, body, env: captured })) => {
            lemma_eval_upto_deeper(rest, rest.len(), env, head.world, depth, more);
            let args = eval_upto_spec(rest, rest.len(), env, head.world, depth);
            match args.result {
                Err(_) => {},
                Ok(values) => {
                    lemma_apply_closure_deeper(
                        params,
                        rest_param,
                        body,
                        captured,
                        values,
                        args.world,
                        depth,
                        more,
                    );
                },
            }
        },
        Ok(_) => {},
    }
}

/// The same of a special form.
pub proof fn lemma_special_form_deeper(
    form: SpecialForm,
    args: Seq<Value>,
    env: nat,
    w: World,
    depth: nat,
    more: nat,
)
    requires
        depth <= more,
        within_depth(special_form_spec(form, args, env, w, depth)),
    ensures
        special_form_spec(form, args, env, w, more) == special_form_spec(
            form,
            args,
            env,
            w,
            depth,
        ),
    decreases depth, 4nat, 0nat,
{
    match form {
        SpecialForm::Def => {
            if args.len() == 2 && args[0] is Symbol {
                lemma_eval_deeper(args[1], env, w, depth, more);
            }
        },
        SpecialForm::Let => lemma_let_star_deeper(args, env, w, depth, more),
        SpecialForm::Do => lemma_eval_upto_deeper(args, args.len(), env, w, depth, more),
        SpecialForm::Fn => {},
        SpecialForm::If => {
            if !(args.len() < 2 || args.len() > 3) {
                lemma_eval_deeper(args[0], env, w, depth, more);
                let c = eval_spec(args[0], env, w, depth);
                match c.result {
                    Err(_) => {},
                    Ok(v) => {
                        if v.truthy() {
                            lemma_eval_deeper(args[1], env, c.world, depth, more);
                        } else if args.len() == 3 {
                            lemma_eval_deeper(args[2], env, c.world, depth, more);
                        }
                    },
                }
            }
        },
    }
}

/// The same of the pairs of a binding list.
pub proof fn lemma_bind_pairs_deeper(
    pairs: Seq<Value>,
    n: nat,
    scope: nat,
    w: World,
    depth: nat,
    more: nat,
)
    requires
        depth <= more,
        within_depth(bind_pairs_spec(pairs, n, scope, w, depth)),
    ensures
        bind_pairs_spec(pairs, n, scope, w, more) == bind_pairs_spec(pairs, n, scope, w, depth),
    decreases depth, 2nat, n,
{
    if !(n == 0 || 2 * n > pairs.len()) {
        let before = bind_pairs_spec(pairs, (n - 1) as nat, scope, w, depth);
        lemma_bind_pairs_deeper(pairs, (n - 1) as nat, scope, w, depth, more);
        if before.result is Ok && pairs[2 * n - 2] is Symbol {
            lemma_eval_deeper(pairs[2 * n - 1], scope, before.world, depth, more);
        }
    }
}

/// The same of `let*`.
pub proof fn lemma_let_star_deeper(args: Seq<Value>, env: nat, w: World, depth: nat, more: nat)
    requires
        depth <= more,
        within_depth(let_star_spec(args, env, w, depth)),
    ensures
        let_star_spec(args, env, w, more) == let_star_spec(args, env, w, depth),
    decreases depth, 3nat, 0nat,
{
    if args.len() == 2 {
        match args[0] {
            Value::List(flavor, pairs) => {
                if flavor != Flavor::Curly && pairs.len() % 2 == 0 {
                    let scope = w.scopes.len();
                    let opened = w.open_scope(Some(env));
                    lemma_bind_pairs_deeper(pairs, pairs.len() / 2, scope, opened, depth, more);
                    let bound = bind_pairs_spec(pairs, pairs.len() / 2, scope, opened, depth);
                    if bound.result is Ok {
                        lemma_eval_deeper(args[1], scope, bound.world, depth, more);
                    }
                }
            },
            _ => {},
        }
    }
}

/// The same of the call of a closure.
pub proof fn lemma_apply_closure_deeper(
    params: Seq<Seq<char>>,
    rest_param: Option<Seq<char>>,
    body: Seq<Value>,
    captured: nat,
    args: Seq<Value>,
    w: World,
    depth: nat,
    more: nat,
)
    requires
        depth <= more,
        within_depth(apply_closure_spec(params, rest_param, body, captured, args, w, depth)),
    ensures
        apply_closure_spec(params, rest_param, body, captured, args, w, more)
            == apply_closure_spec(params, rest_param, body, captured, args, w, depth),
    decreases depth, 3nat, 0nat,
{
    if arity_ok(params.len(), rest_param is Some, args.len()) {
        lemma_eval_upto_deeper(
            body,
            body.len(),
            w.scopes.len(),
            call_world_spec(params, rest_param, captured, args, w),
            depth,
            more,
        );
    }
}

/// A number evaluates to itself, in every scope, and changes nothing.
pub proof fn lemma_number_evaluates_to_itself(n: i64, env: nat, w: World, depth: nat)
    ensures
        eval_spec(Value::Number(n), env, w, depth) == (Outcome {
            world: w,
            result: Ok::<Value, Failure>(Value::Number(n)),
        }),
{
}

/// A value that is neither a symbol nor a list with elements evaluates to
/// itself, in every scope, and changes nothing.
pub proof fn lemma_self_evaluating(v: Value, env: nat, w: World, depth: nat)
    requires
        v.self_evaluating(),
    ensures
        eval_spec(v, env, w, depth) == (Outcome { world: w, result: Ok::<Value, Failure>(v) }),
{
}

/// Evaluation is idempotent on such values: what the evaluation of one
/// returns evaluates again to the same value, in any scope and at any
/// depth, and again nothing changes.
pub proof fn lemma_evaluation_idempotent(
    v: Value,
    env: nat,
    w: World,
    depth: nat,
    again_env: nat,
    again_depth: nat,
)
    requires
        v.self_evaluating(),
    ensures
        eval_spec(v, env, w, depth).result is Ok,
        eval_spec(
            eval_spec(v, env, w, depth).result->Ok_0,
            again_env,
            eval_spec(v, env, w, depth).world,
            again_depth,
        ) == eval_spec(v, env, w, depth),
{
    lemma_self_evaluating(v, env, w, depth);
    lemma_self_evaluating(v, again_env, w, again_depth);
}

/// After `def!` has bound a symbol, the symbol evaluates in the same scope
/// to the value that `def!` returned.
pub proof fn lemma_def_then_symbol(
    args: Seq<Value>,
    env: nat,
    w: World,
    depth: nat,
    again_depth: nat,
)
    requires
        env < w.scopes.len(),
        def_bang_spec(args, env, w, depth).result is Ok,
    ensures
        args[0] is Symbol,
        eval_spec(args[0], env, def_bang_spec(args, env, w, depth).world, again_depth) == (Outcome {
            world: def_bang_spec(args, env, w, depth).world,
            result: def_bang_spec(args, env, w, depth).result,
        }),
{
    lemma_eval_frame(args[1], env, w, depth);
}

/// Whether scope `target` is `from` or one of the scopes that `from` was
/// opened in, directly or through others.
pub open spec fn on_chain(w: World, from: nat, target: nat) -> bool
    decreases from,
{
    from == target || (from < w.scopes.len() && match w.scopes[from as int].parent {
        Some(p) => p < from && on_chain(w, p, target),
        None => false,
    })
}

/// A binding is seen only from the scope it was made in and from scopes
/// opened in it: from a scope whose chain does not pass through it, every
/// name means what it meant before.
pub proof fn lemma_bind_unseen_elsewhere(
    w: World,
    env: nat,
    key: Seq<char>,
    value: Value,
    other: nat,
    name: Seq<char>,
)
    requires
        !on_chain(w, other, env),
    ensures
        w.bind(env, key, value).lookup(other, name) == w.lookup(other, name),
    decreases other,
{
    if other < w.scopes.len() && env < w.scopes.len() {
        match w.scopes[other as int].parent {
            Some(p) => {
                if p < other {
                    lemma_bind_unseen_elsewhere(w, env, key, value, p, name);
                }
            },
            None => {},
        }
    }
}

/// A chain of scopes leads to scopes that were opened earlier, never to one
/// that was opened later.
pub proof fn lemma_chain_goes_down(w: World, from: nat, target: nat)
    requires
        from < target,
    ensures
        !on_chain(w, from, target),
    decreases from,
{
    if from < w.scopes.len() {
        match w.scopes[from as int].parent {
            Some(p) => {
                if p < from {
                    lemma_chain_goes_down(w, p, target);
                }
            },
            None => {},
        }
    }
}

/// The chain of a scope stays what it is, whatever is evaluated.
pub proof fn lemma_chain_kept(w: World, later: World, at: nat, from: nat, target: nat)
    requires
        w.steps_to(later, at),
        from < w.scopes.len(),
    ensures
        on_chain(later, from, target) == on_chain(w, from, target),
    decreases from,
{
    match w.scopes[from as int].parent {
        Some(p) => {
            if p < from {
                lemma_chain_kept(w, later, at, p, target);
            }
        },
        None => {},
    }
}

/// What a name means in a scope depends on the scopes of its chain alone:
/// a step that worked in a scope that the chain does not pass through
/// leaves it as it was.
pub proof fn lemma_lookup_kept(w: World, later: World, at: nat, from: nat, name: Seq<char>)
    requires
        w.steps_to(later, at),
        from < w.scopes.len(),
        !on_chain(w, from, at),
    ensures
        later.lookup(from, name) == w.lookup(from, name),
    decreases from,
{
    match w.scopes[from as int].parent {
        Some(p) => {
            if p < from {
                lemma_lookup_kept(w, later, at, p, name);
            }
        },
        None => {},
    }
}

/// What `def!` binds is not seen from a sibling: in a scope whose chain does
/// not pass through the scope of the `def!`, a symbol that was unbound is
/// unbound afterwards, and evaluating it fails.
pub proof fn lemma_def_unseen_in_sibling(
    args: Seq<Value>,
    env: nat,
    w: World,
    depth: nat,
    other: nat,
    again_depth: nat,
)
    requires
        def_bang_spec(args, env, w, depth).result is Ok,
        other < w.scopes.len(),
        !on_chain(w, other, env),
        w.lookup(other, args[0]->Symbol_0) is None,
    ensures
        eval_spec(args[0], other, def_bang_spec(args, env, w, depth).world, again_depth).result
            == Err::<Value, Failure>(Failure::UnboundSymbol(args[0]->Symbol_0)),
{
    let key = args[0]->Symbol_0;
    let r = eval_spec(args[1], env, w, depth);
    lemma_eval_frame(args[1], env, w, depth);
    lemma_lookup_kept(w, r.world, env, other, key);
    lemma_chain_kept(w, r.world, env, other, env);
    lemma_bind_unseen_elsewhere(r.world, env, key, r.result->Ok_0, other, key);
}

/// After `let*`, every name means in every scope that was there what it
/// meant before: what `let*` bound is out of sight.
pub proof fn lemma_let_star_does_not_leak(
    args: Seq<Value>,
    env: nat,
    w: World,
    depth: nat,
    from: nat,
    name: Seq<char>,
)
    requires
        from < w.scopes.len(),
    ensures
        let_star_spec(args, env, w, depth).world.lookup(from, name) == w.lookup(from, name),
{
    lemma_let_star_frame(args, env, w, depth);
    lemma_chain_goes_down(w, from, w.scopes.len());
    lemma_lookup_kept(w, let_star_spec(args, env, w, depth).world, w.scopes.len(), from, name);
}

/// In the world of a call, the variadic parameter is bound to the round
/// list of the arguments that the fixed parameters left.
pub proof fn lemma_rest_bound_to_remaining(
    params: Seq<Seq<char>>,
    rest: Seq<char>,
    captured: nat,
    args: Seq<Value>,
    w: World,
)
    ensures
        call_world_spec(params, Some(rest), captured, args, w).lookup(w.scopes.len(), rest)
            == Some(Value::List(Flavor::Round, args.skip(params.len() as int))),
{
    let scope = w.scopes.len();
    let opened = w.open_scope(Some(captured));
    lemma_bind_params_steps(opened, scope, params, args, params.len());
}

/// Structural equality holds of every value and itself.
pub proof fn lemma_value_eq_reflexive(v: Value)
    ensures
        value_eq(v, v),
    decreases v,
{
    match v {
        Value::List(_, items) => {
            lemma_seq_eq_reflexive(items);
        },
        Value::Callable(Callable::Closure { params, rest_param, body, env }) => {
            lemma_seq_eq_reflexive(body);
        },
        _ => {},
    }
}

/// Structural equality holds of every sequence of values and itself.
pub proof fn lemma_seq_eq_reflexive(items: Seq<Value>)
    ensures
        seq_eq(items, items),
    decreases items,
{
    assert forall|i: int| 0 <= i < items.len() implies value_eq(#[trigger] items[i], items[i]) by {
        lemma_value_eq_reflexive(items[i]);
    }
}

/// A round list and a square list with the same elements are equal:
/// equality does not see the delimiters.
pub proof fn lemma_round_equals_square(items: Seq<Value>)
    ensures
        value_eq(Value::List(Flavor::Round, items), Value::List(Flavor::Square, items)),
        value_eq(Value::List(Flavor::Square, items), Value::List(Flavor::Round, items)),
{
    lemma_seq_eq_reflexive(items);
}

} // verus!
