//! The evaluator: symbols, calls, the special forms, and the application of
//! closures, each proved to do what the semantics say.

use crate::builtins::{apply_primitive, lemma_primitive_closed, result_view};
use crate::env::Runtime;
use crate::semantics::{
    all_symbols, apply_closure_spec, bind_pairs_spec, bind_params_spec, call_spec, def_bang_spec,
    do_spec, eval_all_spec, eval_ast_spec, eval_spec, eval_upto_spec, fn_star_spec, if_spec,
    is_amp, last_or_nil, lemma_bind_pairs_failed, lemma_eval_upto_failed, let_star_spec,
    special_form_spec, symbol_names, Outcome,
};
use crate::text::string_chars;
use crate::types::{
    all_closed, clone_values, group_value_views, lemma_all_closed_grows, lemma_closed_grows,
    name_opt, names, views, Env, EvalError, Failure, Flavor, Function, MalValue, SpecialForm,
    Value,
};
use vstd::prelude::*;
use vstd::slice::slice_subrange;

verus! {

broadcast use group_value_views;

/// The model of the result of evaluating a sequence of expressions.
pub open spec fn results_view(r: Result<Vec<MalValue>, EvalError>) -> Result<Seq<Value>, Failure> {
    match r {
        Ok(v) => Ok(views(v@)),
        Err(e) => Err(e@),
    }
}

/// What every evaluation keeps: the runtime stays well formed, the depth to
/// which calls may nest is restored, and of the scopes that were there none
/// but `at` has changed.
pub open spec fn kept(before: Runtime, after: Runtime, at: nat) -> bool {
    &&& after.wf()
    &&& after.depth() == before.depth()
    &&& before@.steps_to(after@, at)
}

/// Whether the result, if there is one, is closed in the runtime.
pub open spec fn result_closed(r: Result<MalValue, EvalError>, rt: Runtime) -> bool {
    r matches Ok(v) ==> v@.closed(rt@.scopes.len())
}

/// Evaluates an expression in scope `env`.
///
/// Evaluation nests no deeper than the runtime allows. A list with
/// elements, whether a call, a special form or a square or curly literal,
/// takes one level of [`Runtime::depth_left`] while it is evaluated, and
/// what is evaluated on its behalf, its elements, the branches of an `if`,
/// the body of the closure it calls, has one level less. Symbols, atoms
/// and empty lists take none and are evaluated at any depth. Where a list
/// with elements is met and no level is left, the evaluation fails with
/// [`EvalError::DepthExceeded`]; what was bound or written until then
/// stays. On return the runtime allows what it allowed before.
pub fn eval(ast: &MalValue, env: Env, rt: &mut Runtime) -> (r: Result<MalValue, EvalError>)
    requires
        old(rt).wf(),
        env.valid(old(rt)@),
        ast@.closed(old(rt)@.scopes.len()),
    ensures
        kept(*old(rt), *final(rt), env.bindings as nat),
        result_closed(r, *final(rt)),
        (Outcome { world: final(rt)@, result: result_view(r) }) == eval_spec(
            ast@,
            env.bindings as nat,
            old(rt)@,
            old(rt).depth(),
        ),
    decreases old(rt).depth(), 1nat,
{
    match ast {
        MalValue::Symbol(name) => match env.get(name, rt) {
            Some(v) => Ok(v),
            None => Err(EvalError::UnboundSymbol(name.clone())),
        },
        MalValue::Round(list) => {
            if list.len() == 0 {
                Ok(ast.clone())
            } else {
                let depth = rt.depth_left();
                if depth == 0 {
                    return Err(EvalError::DepthExceeded);
                }
                rt.set_depth(depth - 1);
                let r = eval_function_call(list, env, rt);
                rt.set_depth(depth);
                r
            }
        },
        _ => eval_ast(ast, env, rt),
    }
}

/// Evaluates an expression that is not a call: the elements of a list from
/// left to right, any other value to itself.
pub fn eval_ast(ast: &MalValue, env: Env, rt: &mut Runtime) -> (r: Result<MalValue, EvalError>)
    requires
        old(rt).wf(),
        env.valid(old(rt)@),
        ast@.closed(old(rt)@.scopes.len()),
    ensures
        kept(*old(rt), *final(rt), env.bindings as nat),
        result_closed(r, *final(rt)),
        (Outcome { world: final(rt)@, result: result_view(r) }) == eval_ast_spec(
            ast@,
            env.bindings as nat,
            old(rt)@,
            old(rt).depth(),
        ),
    decreases old(rt).depth(), 0nat,
{
    let list = match ast {
        MalValue::Round(list) => list,
        MalValue::Square(list) => list,
        MalValue::Curly(list) => list,
        _ => {
            return Ok(ast.clone());
        },
    };
    if list.len() == 0 {
        return Ok(ast.clone());
    }
    let depth = rt.depth_left();
    if depth == 0 {
        return Err(EvalError::DepthExceeded);
    }
    rt.set_depth(depth - 1);
    let r = eval_all(list.as_slice(), env, rt);
    rt.set_depth(depth);
    match r {
        Ok(values) => match ast {
            MalValue::Round(_) => Ok(MalValue::Round(values)),
            MalValue::Square(_) => Ok(MalValue::Square(values)),
            _ => Ok(MalValue::Curly(values)),
        },
        Err(e) => Err(e),
    }
}

/// Evaluates the expressions from left to right and returns their values.
/// The first failure ends it.
pub fn eval_all(input: &[MalValue], env: Env, rt: &mut Runtime) -> (r: Result<
    Vec<MalValue>,
    EvalError,
>)
    requires
        old(rt).wf(),
        env.valid(old(rt)@),
        all_closed(views(input@), old(rt)@.scopes.len()),
    ensures
        kept(*old(rt), *final(rt), env.bindings as nat),
        r matches Ok(values) ==> all_closed(views(values@), final(rt)@.scopes.len()),
        (Outcome { world: final(rt)@, result: results_view(r) }) == eval_all_spec(
            views(input@),
            env.bindings as nat,
            old(rt)@,
            old(rt).depth(),
        ),
    decreases old(rt).depth(), 2nat,
{
    let ghost items = views(input@);
    let ghost at = env.bindings as nat;
    let ghost w = old(rt)@;
    let ghost depth = old(rt).depth();
    let mut values: Vec<MalValue> = Vec::new();
    let mut i: usize = 0;
    assert(views(values@) =~= Seq::empty());
    while i < input.len()
        invariant
            i <= input.len(),
            items == views(input@),
            at == env.bindings as nat,
            w == old(rt)@,
            depth == old(rt).depth(),
            env.valid(rt@),
            kept(*old(rt), *rt, at),
            all_closed(items, rt@.scopes.len()),
            all_closed(views(values@), rt@.scopes.len()),
            eval_upto_spec(items, i as nat, at, w, depth) == (Outcome {
                world: rt@,
                result: Ok::<Seq<Value>, Failure>(views(values@)),
            }),
        decreases input.len() - i,
    {
        let ghost before = rt@;
        let ghost sofar = views(values@);
        assert(items[i as int].closed(rt@.scopes.len()));
        match eval(&input[i], env, rt) {
            Ok(v) => {
                values.push(v);
                proof {
                    lemma_all_closed_grows(items, before.scopes.len(), rt@.scopes.len());
                    lemma_all_closed_grows(sofar, before.scopes.len(), rt@.scopes.len());
                    assert(views(values@) =~= sofar.push(v@));
                }
            },
            Err(e) => {
                proof {
                    lemma_eval_upto_failed(items, (i + 1) as nat, items.len(), at, w, depth);
                }
                return Err(e);
            },
        }
        i += 1;
    }
    Ok(values)
}

/// Evaluates the expressions from left to right and returns the value of
/// the last, or `nil` if there is none. The first failure ends it.
pub fn eval_last(input: &[MalValue], env: Env, rt: &mut Runtime) -> (r: Result<
    MalValue,
    EvalError,
>)
    requires
        old(rt).wf(),
        env.valid(old(rt)@),
        all_closed(views(input@), old(rt)@.scopes.len()),
    ensures
        kept(*old(rt), *final(rt), env.bindings as nat),
        result_closed(r, *final(rt)),
        (Outcome { world: final(rt)@, result: result_view(r) }) == do_spec(
            views(input@),
            env.bindings as nat,
            old(rt)@,
            old(rt).depth(),
        ),
    decreases old(rt).depth(), 2nat,
{
    let ghost items = views(input@);
    let ghost at = env.bindings as nat;
    let ghost w = old(rt)@;
    let ghost depth = old(rt).depth();
    let ghost mut values: Seq<Value> = Seq::empty();
    let mut last = MalValue::Nil;
    let mut i: usize = 0;
    while i < input.len()
        invariant
            i <= input.len(),
            items == views(input@),
            at == env.bindings as nat,
            w == old(rt)@,
            depth == old(rt).depth(),
            env.valid(rt@),
            kept(*old(rt), *rt, at),
            all_closed(items, rt@.scopes.len()),
            last@.closed(rt@.scopes.len()),
            last@ == last_or_nil(values),
            eval_upto_spec(items, i as nat, at, w, depth) == (Outcome {
                world: rt@,
                result: Ok::<Seq<Value>, Failure>(values),
            }),
        decreases input.len() - i,
    {
        let ghost before = rt@;
        assert(items[i as int].closed(rt@.scopes.len()));
        match eval(&input[i], env, rt) {
            Ok(v) => {
                last = v;
                proof {
                    lemma_all_closed_grows(items, before.scopes.len(), rt@.scopes.len());
                    values = values.push(v@);
                }
            },
            Err(e) => {
                proof {
                    lemma_eval_upto_failed(items, (i + 1) as nat, items.len(), at, w, depth);
                }
                return Err(e);
            },
        }
        i += 1;
    }
    Ok(last)
}

/// Evaluates a call: a round list that is not empty.
pub fn eval_function_call(list: &Vec<MalValue>, env: Env, rt: &mut Runtime) -> (r: Result<
    MalValue,
    EvalError,
>)
    requires
        old(rt).wf(),
        env.valid(old(rt)@),
        list.len() > 0,
        all_closed(views(list@), old(rt)@.scopes.len()),
    ensures
        kept(*old(rt), *final(rt), env.bindings as nat),
        result_closed(r, *final(rt)),
        (Outcome { world: final(rt)@, result: result_view(r) }) == call_spec(
            views(list@),
            env.bindings as nat,
            old(rt)@,
            old(rt).depth(),
        ),
    decreases old(rt).depth(), 5nat,
{
    let ghost items = views(list@);
    let func = match eval(&list[0], env, rt) {
        Ok(f) => f,
        Err(e) => {
            return Err(e);
        },
    };
    let ghost after_head = rt@;
    let rest = slice_subrange(list.as_slice(), 1, list.len());
    proof {
        lemma_all_closed_grows(items, old(rt)@.scopes.len(), rt@.scopes.len());
        assert(views(rest@) =~= items.skip(1));
        assert(all_closed(views(rest@), rt@.scopes.len())) by {
            assert forall|i: int| 0 <= i < views(rest@).len() implies (#[trigger] views(
                rest@,
            )[i]).closed(rt@.scopes.len()) by {}
        }
    }
    match func {
        MalValue::BuiltinFunction(Function::SpecialForm(form)) => apply_special_form(
            form,
            rest,
            env,
            rt,
        ),
        MalValue::BuiltinFunction(Function::Builtin(p)) => {
            let args = match eval_all(rest, env, rt) {
                Ok(a) => a,
                Err(e) => {
                    return Err(e);
                },
            };
            let r = apply_primitive(p, args.as_slice(), rt);
            proof {
                lemma_primitive_closed(p, views(args@), rt@.scopes.len());
            }
            r
        },
        MalValue::BuiltinFunction(
            Function::UserDefined { params, rest_param, body, env: captured },
        ) => {
            let args = match eval_all(rest, env, rt) {
                Ok(a) => a,
                Err(e) => {
                    return Err(e);
                },
            };
            proof {
                lemma_closed_grows(func@, after_head.scopes.len(), rt@.scopes.len());
            }
            apply_closure(&params, &rest_param, &body, captured, args.as_slice(), rt)
        },
        _ => Err(EvalError::NotCallable),
    }
}

/// Hands the argument expressions of a call to the special form at its
/// head.
pub fn apply_special_form(form: SpecialForm, args: &[MalValue], env: Env, rt: &mut Runtime) -> (r:
    Result<MalValue, EvalError>)
    requires
        old(rt).wf(),
        env.valid(old(rt)@),
        all_closed(views(args@), old(rt)@.scopes.len()),
    ensures
        kept(*old(rt), *final(rt), env.bindings as nat),
        result_closed(r, *final(rt)),
        (Outcome { world: final(rt)@, result: result_view(r) }) == special_form_spec(
            form,
            views(args@),
            env.bindings as nat,
            old(rt)@,
            old(rt).depth(),
        ),
    decreases old(rt).depth(), 4nat,
{
    match form {
        SpecialForm::Def => def_bang(args, env, rt),
        SpecialForm::Let => let_star(args, env, rt),
        SpecialForm::Do => do_func(args, env, rt),
        SpecialForm::Fn => {
            let r = fn_star(args, env);
            proof {
                lemma_fn_star_closed(views(args@), env.bindings as nat, rt@.scopes.len());
            }
            r
        },
        SpecialForm::If => if_special_form(args, env, rt),
    }
}

/// `def!`: binds a symbol in the scope of the call to the value of an
/// expression, and returns the value.
pub fn def_bang(args: &[MalValue], env: Env, rt: &mut Runtime) -> (r: Result<MalValue, EvalError>)
    requires
        old(rt).wf(),
        env.valid(old(rt)@),
        all_closed(views(args@), old(rt)@.scopes.len()),
    ensures
        kept(*old(rt), *final(rt), env.bindings as nat),
        result_closed(r, *final(rt)),
        (Outcome { world: final(rt)@, result: result_view(r) }) == def_bang_spec(
            views(args@),
            env.bindings as nat,
            old(rt)@,
            old(rt).depth(),
        ),
    decreases old(rt).depth(), 3nat,
{
    if args.len() != 2 {
        return Err(EvalError::ArityMismatch);
    }
    let key = match &args[0] {
        MalValue::Symbol(s) => s.clone(),
        _ => {
            return Err(EvalError::TypeError);
        },
    };
    let value = match eval(&args[1], env, rt) {
        Ok(v) => v,
        Err(e) => {
            return Err(e);
        },
    };
    env.set(key, value.clone(), rt);
    Ok(value)
}

/// `do`: evaluates its arguments in order and returns the value of the
/// last, or `nil` if there is none.
pub fn do_func(args: &[MalValue], env: Env, rt: &mut Runtime) -> (r: Result<MalValue, EvalError>)
    requires
        old(rt).wf(),
        env.valid(old(rt)@),
        all_closed(views(args@), old(rt)@.scopes.len()),
    ensures
        kept(*old(rt), *final(rt), env.bindings as nat),
        result_closed(r, *final(rt)),
        (Outcome { world: final(rt)@, result: result_view(r) }) == do_spec(
            views(args@),
            env.bindings as nat,
            old(rt)@,
            old(rt).depth(),
        ),
    decreases old(rt).depth(), 3nat,
{
    eval_last(args, env, rt)
}

/// `if`: evaluates the condition, then the branch that it selects; without
/// a branch for a false condition the result is `nil`.
pub fn if_special_form(args: &[MalValue], env: Env, rt: &mut Runtime) -> (r: Result<
    MalValue,
    EvalError,
>)
    requires
        old(rt).wf(),
        env.valid(old(rt)@),
        all_closed(views(args@), old(rt)@.scopes.len()),
    ensures
        kept(*old(rt), *final(rt), env.bindings as nat),
        result_closed(r, *final(rt)),
        (Outcome { world: final(rt)@, result: result_view(r) }) == if_spec(
            views(args@),
            env.bindings as nat,
            old(rt)@,
            old(rt).depth(),
        ),
    decreases old(rt).depth(), 3nat,
{
    if args.len() < 2 || args.len() > 3 {
        return Err(EvalError::ArityMismatch);
    }
    let ghost items = views(args@);
    let condition = match eval(&args[0], env, rt) {
        Ok(v) => v,
        Err(e) => {
            return Err(e);
        },
    };
    proof {
        lemma_all_closed_grows(items, old(rt)@.scopes.len(), rt@.scopes.len());
    }
    let is_truthy = match condition {
        MalValue::Nil => false,
        MalValue::Bool(false) => false,
        _ => true,
    };
    if is_truthy {
        eval(&args[1], env, rt)
    } else if args.len() == 3 {
        eval(&args[2], env, rt)
    } else {
        Ok(MalValue::Nil)
    }
}

/// Whether the value is the marker `&` of a parameter list.
fn is_amp_symbol(v: &MalValue) -> (b: bool)
    ensures
        b == is_amp(v@),
{
    match v {
        MalValue::Symbol(s) => {
            let chars = string_chars(s.as_str());
            let b = chars.len() == 1 && chars[0] == '&';
            proof {
                if b {
                    assert(s@ =~= seq!['&']);
                }
            }
            b
        },
        _ => false,
    }
}

/// The names of the first `n` values, which must all be symbols.
fn collect_names(ps: &Vec<MalValue>, n: usize) -> (r: Result<Vec<String>, EvalError>)
    requires
        n <= ps.len(),
    ensures
        r is Ok == all_symbols(views(ps@).take(n as int)),
        r matches Ok(list) ==> names(list@) == symbol_names(views(ps@).take(n as int)),
        r matches Err(e) ==> e@ == Failure::TypeError,
{
    let ghost items = views(ps@).take(n as int);
    let mut list: Vec<String> = Vec::new();
    let mut i: usize = 0;
    while i < n
        invariant
            i <= n <= ps.len(),
            items == views(ps@).take(n as int),
            list.len() == i,
            forall|j: int| 0 <= j < i ==> (#[trigger] items[j]) is Symbol,
            forall|j: int| 0 <= j < i ==> (#[trigger] list[j])@ == items[j]->Symbol_0,
        decreases n - i,
    {
        match &ps[i] {
            MalValue::Symbol(s) => {
                list.push(s.clone());
            },
            _ => {
                assert(!(items[i as int] is Symbol));
                return Err(EvalError::TypeError);
            },
        }
        i += 1;
    }
    Ok(list)
}

/// The closure that `fn*` makes captures the scope of the call and what its
/// body captures, nothing else.
pub proof fn lemma_fn_star_closed(args: Seq<Value>, env: nat, n: nat)
    requires
        all_closed(args, n),
        env < n,
    ensures
        fn_star_spec(args, env) matches Ok(v) ==> v.closed(n),
{
}

/// `fn*`: makes the closure of a body over the scope of the call.
pub fn fn_star(args: &[MalValue], env: Env) -> (r: Result<MalValue, EvalError>)
    ensures
        result_view(r) == fn_star_spec(views(args@), env.bindings as nat),
{
    if args.len() != 2 {
        return Err(EvalError::ArityMismatch);
    }
    let param_list = match &args[0] {
        MalValue::Round(list) => list,
        MalValue::Square(list) => list,
        _ => {
            return Err(EvalError::TypeError);
        },
    };
    let ghost ps = views(param_list@);
    let mut pos: usize = 0;
    while pos < param_list.len() && !is_amp_symbol(&param_list[pos])
        invariant
            pos <= param_list.len(),
            ps == views(param_list@),
            forall|j: int| 0 <= j < pos ==> !is_amp(#[trigger] ps[j]),
        decreases param_list.len() - pos,
    {
        pos += 1;
    }
    let (fixed_params, rest_param) = if pos < param_list.len() {
        proof {
            assert(is_amp(ps[pos as int]));
        }
        if param_list.len() - pos != 2 {
            return Err(EvalError::MalformedParams);
        }
        let rest = match &param_list[pos + 1] {
            MalValue::Symbol(s) => s.clone(),
            _ => {
                return Err(EvalError::MalformedParams);
            },
        };
        match collect_names(param_list, pos) {
            Ok(fixed) => (fixed, Some(rest)),
            Err(e) => {
                return Err(e);
            },
        }
    } else {
        assert(ps.take(ps.len() as int) =~= ps);
        match collect_names(param_list, param_list.len()) {
            Ok(fixed) => (fixed, None),
            Err(e) => {
                return Err(e);
            },
        }
    };
    let mut body: Vec<MalValue> = Vec::new();
    body.push(args[1].clone());
    assert(views(body@) =~= seq![views(args@)[1]]);
    Ok(
        MalValue::BuiltinFunction(
            Function::UserDefined { params: fixed_params, rest_param, body, env },
        ),
    )
}

/// `let*`: opens a new scope in the scope of the call, binds the pairs of
/// the binding list in it one after the other, and evaluates the body in
/// it.
pub fn let_star(args: &[MalValue], env: Env, rt: &mut Runtime) -> (r: Result<MalValue, EvalError>)
    requires
        old(rt).wf(),
        env.valid(old(rt)@),
        all_closed(views(args@), old(rt)@.scopes.len()),
    ensures
        kept(*old(rt), *final(rt), old(rt)@.scopes.len()),
        result_closed(r, *final(rt)),
        (Outcome { world: final(rt)@, result: result_view(r) }) == let_star_spec(
            views(args@),
            env.bindings as nat,
            old(rt)@,
            old(rt).depth(),
        ),
    decreases old(rt).depth(), 3nat,
{
    if args.len() != 2 {
        return Err(EvalError::ArityMismatch);
    }
    let bindings_list = match &args[0] {
        MalValue::Round(list) => list,
        MalValue::Square(list) => list,
        _ => {
            return Err(EvalError::TypeError);
        },
    };
    if bindings_list.len() % 2 != 0 {
        return Err(EvalError::BindingArityError);
    }
    let ghost items = views(args@);
    let ghost pairs = views(bindings_list@);
    let ghost w = old(rt)@;
    let ghost depth = old(rt).depth();
    let new_env = Env::new(Some(env.get_bindings()), rt);
    let ghost scope = new_env.bindings as nat;
    let ghost opened = rt@;
    proof {
        lemma_all_closed_grows(items, w.scopes.len(), rt@.scopes.len());
        lemma_all_closed_grows(pairs, w.scopes.len(), rt@.scopes.len());
    }
    let count = bindings_list.len() / 2;
    let mut k: usize = 0;
    while k < count
        invariant
            k <= count,
            count * 2 == bindings_list.len(),
            pairs == views(bindings_list@),
            items == views(args@),
            scope == new_env.bindings as nat,
            scope == w.scopes.len(),
            opened == w.open_scope(Some(env.bindings as nat)),
            items.len() == 2,
            items[0] matches Value::List(flavor, inner) && flavor != Flavor::Curly && inner
                == pairs,
            depth == old(rt).depth(),
            w == old(rt)@,
            new_env.valid(rt@),
            kept(*old(rt), *rt, scope),
            all_closed(pairs, rt@.scopes.len()),
            all_closed(items, rt@.scopes.len()),
            bind_pairs_spec(pairs, k as nat, scope, opened, depth) == (Outcome {
                world: rt@,
                result: Ok::<(), Failure>(()),
            }),
        decreases count - k,
    {
        let ghost before = rt@;
        let key = match &bindings_list[2 * k] {
            MalValue::Symbol(s) => s.clone(),
            _ => {
                proof {
                    lemma_bind_pairs_failed(
                        pairs,
                        (k + 1) as nat,
                        count as nat,
                        scope,
                        opened,
                        depth,
                    );
                }
                return Err(EvalError::TypeError);
            },
        };
        match eval(&bindings_list[2 * k + 1], new_env, rt) {
            Ok(v) => {
                new_env.set(key, v, rt);
                proof {
                    lemma_all_closed_grows(pairs, before.scopes.len(), rt@.scopes.len());
                    lemma_all_closed_grows(items, before.scopes.len(), rt@.scopes.len());
                }
            },
            Err(e) => {
                proof {
                    lemma_bind_pairs_failed(
                        pairs,
                        (k + 1) as nat,
                        count as nat,
                        scope,
                        opened,
                        depth,
                    );
                }
                return Err(e);
            },
        }
        k += 1;
    }
    eval(&args[1], new_env, rt)
}

/// Applies a closure to arguments that were evaluated: opens a new scope in
/// the scope that the closure captured, binds the parameters in it, and
/// evaluates the body in it.
pub fn apply_closure(
    params: &Vec<String>,
    rest_param: &Option<String>,
    body: &Vec<MalValue>,
    captured: Env,
    args: &[MalValue],
    rt: &mut Runtime,
) -> (r: Result<MalValue, EvalError>)
    requires
        old(rt).wf(),
        captured.valid(old(rt)@),
        all_closed(views(body@), old(rt)@.scopes.len()),
        all_closed(views(args@), old(rt)@.scopes.len()),
    ensures
        kept(*old(rt), *final(rt), old(rt)@.scopes.len()),
        result_closed(r, *final(rt)),
        (Outcome { world: final(rt)@, result: result_view(r) }) == apply_closure_spec(
            names(params@),
            name_opt(*rest_param),
            views(body@),
            captured.bindings as nat,
            views(args@),
            old(rt)@,
            old(rt).depth(),
        ),
    decreases old(rt).depth(), 3nat,
{
    let fixed = params.len();
    let given = args.len();
    if given < fixed || (rest_param.is_none() && given > fixed) {
        return Err(EvalError::ArityMismatch);
    }
    let ghost w = old(rt)@;
    let ghost ps = names(params@);
    let ghost vs = views(args@);
    let ghost exprs = views(body@);
    let scope = Env::new(Some(captured.get_bindings()), rt);
    let ghost opened = rt@;
    proof {
        lemma_all_closed_grows(vs, w.scopes.len(), rt@.scopes.len());
        lemma_all_closed_grows(exprs, w.scopes.len(), rt@.scopes.len());
    }
    let mut i: usize = 0;
    while i < fixed
        invariant
            i <= fixed <= given,
            fixed == params.len(),
            given == args.len(),
            ps == names(params@),
            vs == views(args@),
            scope.bindings == w.scopes.len(),
            rt@.scopes.len() == w.scopes.len() + 1,
            kept(*old(rt), *rt, w.scopes.len()),
            all_closed(vs, rt@.scopes.len()),
            rt@ == bind_params_spec(opened, scope.bindings as nat, ps, vs, i as nat),
        decreases fixed - i,
    {
        assert(vs[i as int].closed(rt@.scopes.len()));
        scope.set(params[i].clone(), args[i].clone(), rt);
        i += 1;
    }
    match rest_param {
        Some(rest) => {
            let rest_args = clone_values(slice_subrange(args, fixed, given));
            proof {
                assert(views(rest_args@) =~= vs.skip(fixed as int));
                assert forall|j: int| 0 <= j < views(rest_args@).len() implies (#[trigger] views(
                    rest_args@,
                )[j]).closed(rt@.scopes.len()) by {}
            }
            scope.set(rest.clone(), MalValue::Round(rest_args), rt);
        },
        None => {},
    }
    proof {
        lemma_all_closed_grows(exprs, w.scopes.len(), rt@.scopes.len());
    }
    eval_last(body.as_slice(), scope, rt)
}

} // verus!
