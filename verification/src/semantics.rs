//! What evaluation means: the result of an expression and the world it
//! leaves behind, as functions of the expression, the scope, the world
//! before and the depth to which calls may nest.

use crate::builtins::{primitive_result, primitive_world};
use crate::env::World;
use crate::types::{Callable, Failure, Flavor, Primitive, SpecialForm, Value};
use vstd::prelude::*;

verus! {

/// How an evaluation ended: the world it left, and its result or the reason
/// of its failure. What was bound or written before a failure stays.
pub ghost struct Outcome<T> {
    pub world: World,
    pub result: Result<T, Failure>,
}

/// The value of a sequence of expressions of which only the last counts:
/// `nil` if there is none.
pub open spec fn last_or_nil(values: Seq<Value>) -> Value {
    if values.len() == 0 {
        Value::Nil
    } else {
        values.last()
    }
}

/// What an expression evaluates to in scope `env`, when lists with elements
/// may be evaluated inside one another to `depth`.
///
/// A symbol is what the chain of scopes binds it to. A round list that is
/// not empty is a call: it takes one level, and fails where none is left.
/// Everything else is treated as [`eval_ast_spec`] says.
pub open spec fn eval_spec(ast: Value, env: nat, w: World, depth: nat) -> Outcome<Value>
    decreases depth, 1nat, 0nat,
{
    match ast {
        Value::Symbol(name) => Outcome {
            world: w,
            result: match w.lookup(env, name) {
                Some(v) => Ok(v),
                None => Err(Failure::UnboundSymbol(name)),
            },
        },
        Value::List(Flavor::Round, items) => if items.len() == 0 {
            Outcome { world: w, result: Ok(ast) }
        } else if depth == 0 {
            Outcome { world: w, result: Err(Failure::DepthExceeded) }
        } else {
            call_spec(items, env, w, (depth - 1) as nat)
        },
        _ => eval_ast_spec(ast, env, w, depth),
    }
}

/// What an expression that is not a call evaluates to: a list becomes the
/// list of the same flavor of what its elements evaluate to, from left to
/// right; any other value is its own result. A list with elements takes
/// one level, and fails where none is left.
pub open spec fn eval_ast_spec(ast: Value, env: nat, w: World, depth: nat) -> Outcome<Value>
    decreases depth, 0nat, 0nat,
{
    match ast {
        Value::List(flavor, items) => if items.len() == 0 {
            Outcome { world: w, result: Ok(ast) }
        } else if depth == 0 {
            Outcome { world: w, result: Err(Failure::DepthExceeded) }
        } else {
            let r = eval_upto_spec(items, items.len(), env, w, (depth - 1) as nat);
            Outcome {
                world: r.world,
                result: match r.result {
                    Ok(values) => Ok(Value::List(flavor, values)),
                    Err(e) => Err(e),
                },
            }
        },
        _ => Outcome { world: w, result: Ok(ast) },
    }
}

/// What the first `n` expressions evaluate to, from left to right, each in
/// the world that the one before it left. The first failure ends it.
pub open spec fn eval_upto_spec(items: Seq<Value>, n: nat, env: nat, w: World, depth: nat) -> Outcome<
    Seq<Value>,
>
    decreases depth, 2nat, n,
{
    if n == 0 || n > items.len() {
        Outcome { world: w, result: Ok(Seq::empty()) }
    } else {
        let before = eval_upto_spec(items, (n - 1) as nat, env, w, depth);
        match before.result {
            Err(_) => before,
            Ok(values) => {
                let r = eval_spec(items[n - 1], env, before.world, depth);
                Outcome {
                    world: r.world,
                    result: match r.result {
                        Ok(v) => Ok(values.push(v)),
                        Err(e) => Err(e),
                    },
                }
            },
        }
    }
}

/// What all the expressions evaluate to, from left to right.
pub open spec fn eval_all_spec(items: Seq<Value>, env: nat, w: World, depth: nat) -> Outcome<
    Seq<Value>,
> {
    eval_upto_spec(items, items.len(), env, w, depth)
}

/// What a call evaluates to. The head is evaluated first and must give a
/// callable. A special form receives the remaining expressions as they are;
/// for a primitive or a closure they are evaluated from left to right in the
/// scope of the call.
pub open spec fn call_spec(items: Seq<Value>, env: nat, w: World, depth: nat) -> Outcome<Value>
    recommends
        items.len() > 0,
    decreases depth, 5nat, 0nat,
{
    let head = eval_spec(items[0], env, w, depth);
    match head.result {
        Err(e) => Outcome { world: head.world, result: Err(e) },
        Ok(Value::Callable(Callable::SpecialForm(form))) => special_form_spec(
            form,
            items.skip(1),
            env,
            head.world,
            depth,
        ),
        Ok(Value::Callable(Callable::Primitive(p))) => {
            let args = eval_upto_spec(items.skip(1), items.skip(1).len(), env, head.world, depth);
            match args.result {
                Err(e) => Outcome { world: args.world, result: Err(e) },
                Ok(values) => Outcome {
                    world: primitive_world(p, values, args.world),
                    result: primitive_result(p, values),
                },
            }
        },
        Ok(Value::Callable(Callable::Closure { params, rest_param, body, env: captured })) => {
            let args = eval_upto_spec(items.skip(1), items.skip(1).len(), env, head.world, depth);
            match args.result {
                Err(e) => Outcome { world: args.world, result: Err(e) },
                Ok(values) => apply_closure_spec(
                    params,
                    rest_param,
                    body,
                    captured,
                    values,
                    args.world,
                    depth,
                ),
            }
        },
        Ok(_) => Outcome { world: head.world, result: Err(Failure::NotCallable) },
    }
}

/// What a special form makes of its argument expressions.
pub open spec fn special_form_spec(
    form: SpecialForm,
    args: Seq<Value>,
    env: nat,
    w: World,
    depth: nat,
) -> Outcome<Value>
    decreases depth, 4nat, 0nat,
{
    match form {
        SpecialForm::Def => def_bang_spec(args, env, w, depth),
        SpecialForm::Let => let_star_spec(args, env, w, depth),
        SpecialForm::Do => do_spec(args, env, w, depth),
        SpecialForm::Fn => Outcome { world: w, result: fn_star_spec(args, env) },
        SpecialForm::If => if_spec(args, env, w, depth),
    }
}

/// `def!`: takes a symbol and an expression, evaluates the expression in
/// the scope of the call, binds the symbol to the value in that scope, and
/// returns the value.
pub open spec fn def_bang_spec(args: Seq<Value>, env: nat, w: World, depth: nat) -> Outcome<Value>
    decreases depth, 3nat, 0nat,
{
    if args.len() != 2 {
        Outcome { world: w, result: Err(Failure::ArityMismatch) }
    } else {
        match args[0] {
            Value::Symbol(key) => {
                let r = eval_spec(args[1], env, w, depth);
                match r.result {
                    Ok(v) => Outcome { world: r.world.bind(env, key, v), result: Ok(v) },
                    Err(e) => Outcome { world: r.world, result: Err(e) },
                }
            },
            _ => Outcome { world: w, result: Err(Failure::TypeError) },
        }
    }
}

/// `do`: evaluates its arguments in order in the scope of the call and
/// returns the value of the last, or `nil` if there is none.
pub open spec fn do_spec(args: Seq<Value>, env: nat, w: World, depth: nat) -> Outcome<Value>
    decreases depth, 3nat, 0nat,
{
    let r = eval_upto_spec(args, args.len(), env, w, depth);
    Outcome {
        world: r.world,
        result: match r.result {
            Ok(values) => Ok(last_or_nil(values)),
            Err(e) => Err(e),
        },
    }
}

/// `if`: takes a condition, an expression for a true condition and, if
/// wanted, one for a false condition. Only the branch that is taken is
/// evaluated; without a branch for a false condition the result is `nil`.
pub open spec fn if_spec(args: Seq<Value>, env: nat, w: World, depth: nat) -> Outcome<Value>
    decreases depth, 3nat, 0nat,
{
    if args.len() < 2 || args.len() > 3 {
        Outcome { world: w, result: Err(Failure::ArityMismatch) }
    } else {
        let c = eval_spec(args[0], env, w, depth);
        match c.result {
            Err(e) => Outcome { world: c.world, result: Err(e) },
            Ok(v) => if v.truthy() {
                eval_spec(args[1], env, c.world, depth)
            } else if args.len() == 3 {
                eval_spec(args[2], env, c.world, depth)
            } else {
                Outcome { world: c.world, result: Ok(Value::Nil) }
            },
        }
    }
}

/// Whether the value is the marker `&` of a parameter list.
pub open spec fn is_amp(v: Value) -> bool {
    v == Value::Symbol(seq!['&'])
}

/// Whether one of the values is the marker `&`.
pub open spec fn has_amp(ps: Seq<Value>) -> bool {
    exists|i: int| 0 <= i < ps.len() && is_amp(#[trigger] ps[i])
}

/// The place of the first marker `&`.
pub open spec fn first_amp(ps: Seq<Value>) -> int {
    choose|i: int|
        0 <= i < ps.len() && is_amp(#[trigger] ps[i]) && forall|j: int|
            0 <= j < i ==> !is_amp(#[trigger] ps[j])
}

/// Whether every value is a symbol.
pub open spec fn all_symbols(ps: Seq<Value>) -> bool {
    forall|i: int| 0 <= i < ps.len() ==> (#[trigger] ps[i]) is Symbol
}

/// The names of a sequence of symbols.
pub open spec fn symbol_names(ps: Seq<Value>) -> Seq<Seq<char>> {
    Seq::new(ps.len(), |i: int| ps[i]->Symbol_0)
}

/// The parameters that a parameter list declares: the fixed ones in order
/// and, where the list ends in `&` and one more symbol, the variadic one.
/// A `&` that is followed by anything but exactly one symbol is malformed;
/// a fixed parameter that is not a symbol is a type error.
pub open spec fn params_spec(ps: Seq<Value>) -> Result<(Seq<Seq<char>>, Option<Seq<char>>), Failure> {
    if has_amp(ps) {
        let pos = first_amp(ps);
        if pos + 2 != ps.len() {
            Err(Failure::MalformedParams)
        } else {
            match ps[pos + 1] {
                Value::Symbol(rest) => if all_symbols(ps.take(pos)) {
                    Ok((symbol_names(ps.take(pos)), Some(rest)))
                } else {
                    Err(Failure::TypeError)
                },
                _ => Err(Failure::MalformedParams),
            }
        }
    } else if all_symbols(ps) {
        Ok((symbol_names(ps), None))
    } else {
        Err(Failure::TypeError)
    }
}

/// `fn*`: takes a round or square list of parameters and a body, and
/// returns the closure of the body over the scope of the call.
pub open spec fn fn_star_spec(args: Seq<Value>, env: nat) -> Result<Value, Failure> {
    if args.len() != 2 {
        Err(Failure::ArityMismatch)
    } else {
        match args[0] {
            Value::List(flavor, ps) => if flavor == Flavor::Curly {
                Err(Failure::TypeError)
            } else {
                match params_spec(ps) {
                    Ok((params, rest_param)) => Ok(
                        Value::Callable(
                            Callable::Closure { params, rest_param, body: seq![args[1]], env },
                        ),
                    ),
                    Err(e) => Err(e),
                }
            },
            _ => Err(Failure::TypeError),
        }
    }
}

/// The first `n` pairs of a binding list, bound one after the other in
/// `scope`: each expression is evaluated in `scope`, so that it sees the
/// bindings before it. A name that is not a symbol is a type error.
pub open spec fn bind_pairs_spec(pairs: Seq<Value>, n: nat, scope: nat, w: World, depth: nat) -> Outcome<
    (),
>
    decreases depth, 2nat, n,
{
    if n == 0 || 2 * n > pairs.len() {
        Outcome { world: w, result: Ok(()) }
    } else {
        let before = bind_pairs_spec(pairs, (n - 1) as nat, scope, w, depth);
        match before.result {
            Err(_) => before,
            Ok(_) => match pairs[2 * n - 2] {
                Value::Symbol(key) => {
                    let r = eval_spec(pairs[2 * n - 1], scope, before.world, depth);
                    match r.result {
                        Ok(v) => Outcome { world: r.world.bind(scope, key, v), result: Ok(()) },
                        Err(e) => Outcome { world: r.world, result: Err(e) },
                    }
                },
                _ => Outcome { world: before.world, result: Err(Failure::TypeError) },
            },
        }
    }
}

/// `let*`: takes a round or square list of alternating names and
/// expressions and a body. It opens one new scope in the scope of the call,
/// binds the pairs in it one after the other, and evaluates the body in it.
pub open spec fn let_star_spec(args: Seq<Value>, env: nat, w: World, depth: nat) -> Outcome<Value>
    decreases depth, 3nat, 0nat,
{
    if args.len() != 2 {
        Outcome { world: w, result: Err(Failure::ArityMismatch) }
    } else {
        match args[0] {
            Value::List(flavor, pairs) => if flavor == Flavor::Curly {
                Outcome { world: w, result: Err(Failure::TypeError) }
            } else if pairs.len() % 2 != 0 {
                Outcome { world: w, result: Err(Failure::BindingArityError) }
            } else {
                let scope = w.scopes.len();
                let bound = bind_pairs_spec(
                    pairs,
                    pairs.len() / 2,
                    scope,
                    w.open_scope(Some(env)),
                    depth,
                );
                match bound.result {
                    Err(e) => Outcome { world: bound.world, result: Err(e) },
                    Ok(_) => eval_spec(args[1], scope, bound.world, depth),
                }
            },
            _ => Outcome { world: w, result: Err(Failure::TypeError) },
        }
    }
}

/// The world after the first `n` parameters are bound in `scope`, each to
/// the argument at its place.
pub open spec fn bind_params_spec(
    w: World,
    scope: nat,
    params: Seq<Seq<char>>,
    args: Seq<Value>,
    n: nat,
) -> World
    decreases n,
{
    if n == 0 || n > params.len() || n > args.len() {
        w
    } else {
        bind_params_spec(w, scope, params, args, (n - 1) as nat).bind(
            scope,
            params[n - 1],
            args[n - 1],
        )
    }
}

/// Whether a closure with `fixed` fixed parameters accepts `given`
/// arguments: exactly as many without a variadic parameter, at least as
/// many with one.
pub open spec fn arity_ok(fixed: nat, variadic: bool, given: nat) -> bool {
    if variadic {
        given >= fixed
    } else {
        given == fixed
    }
}

/// The world in which the body of a closure runs: a new scope opened in the
/// scope that the closure captured, with the fixed parameters bound to the
/// arguments at their places and the variadic parameter, if there is one,
/// to the round list of the arguments that are left.
pub open spec fn call_world_spec(
    params: Seq<Seq<char>>,
    rest_param: Option<Seq<char>>,
    captured: nat,
    args: Seq<Value>,
    w: World,
) -> World {
    let scope = w.scopes.len();
    let fixed = bind_params_spec(w.open_scope(Some(captured)), scope, params, args, params.len());
    match rest_param {
        Some(rest) => fixed.bind(scope, rest, Value::List(Flavor::Round, args.skip(params.len() as int))),
        None => fixed,
    }
}

/// What a closure returns for the given arguments: the value of the last
/// expression of its body, evaluated in the world of the call.
pub open spec fn apply_closure_spec(
    params: Seq<Seq<char>>,
    rest_param: Option<Seq<char>>,
    body: Seq<Value>,
    captured: nat,
    args: Seq<Value>,
    w: World,
    depth: nat,
) -> Outcome<Value>
    decreases depth, 3nat, 0nat,
{
    if !arity_ok(params.len(), rest_param is Some, args.len()) {
        Outcome { world: w, result: Err(Failure::ArityMismatch) }
    } else {
        let r = eval_upto_spec(
            body,
            body.len(),
            w.scopes.len(),
            call_world_spec(params, rest_param, captured, args, w),
            depth,
        );
        Outcome {
            world: r.world,
            result: match r.result {
                Ok(values) => Ok(last_or_nil(values)),
                Err(e) => Err(e),
            },
        }
    }
}

/// Once an expression of a sequence has failed, the ones after it are not
/// evaluated: the failure is the outcome of the whole sequence.
pub proof fn lemma_eval_upto_failed(
    items: Seq<Value>,
    failed: nat,
    n: nat,
    env: nat,
    w: World,
    depth: nat,
)
    requires
        failed <= n <= items.len(),
        eval_upto_spec(items, failed, env, w, depth).result is Err,
    ensures
        eval_upto_spec(items, n, env, w, depth) == eval_upto_spec(items, failed, env, w, depth),
    decreases n,
{
    if n > failed {
        lemma_eval_upto_failed(items, failed, (n - 1) as nat, env, w, depth);
    }
}

/// Once a pair of a binding list has failed, the ones after it are not
/// bound: the failure is the outcome of the whole list.
pub proof fn lemma_bind_pairs_failed(
    pairs: Seq<Value>,
    failed: nat,
    n: nat,
    scope: nat,
    w: World,
    depth: nat,
)
    requires
        failed <= n,
        2 * n <= pairs.len(),
        bind_pairs_spec(pairs, failed, scope, w, depth).result is Err,
    ensures
        bind_pairs_spec(pairs, n, scope, w, depth) == bind_pairs_spec(
            pairs,
            failed,
            scope,
            w,
            depth,
        ),
    decreases n,
{
    if n > failed {
        lemma_bind_pairs_failed(pairs, failed, (n - 1) as nat, scope, w, depth);
    }
}

} // verus!
