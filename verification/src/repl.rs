//! The steps of the read-eval-print loop: read a line, evaluate its forms
//! in the root scope, and print the values; and the root scope itself, with
//! the primitives and special forms bound in it.

use crate::env::{Runtime, Scope, World};
use crate::eval::eval_all;
use crate::printer::{pr_seq, pr_seq_spec, pr_str, pr_str_spec};
use crate::reader::{parse_input, parse_spec, parse_view, ParseError};
use crate::semantics::eval_all_spec;
use crate::text::{chars_string, push_str};
use crate::types::{
    all_closed, group_value_views, lemma_all_closed_grows, views, Callable, Env, Function,
    MalValue, Primitive, SpecialForm, Value,
};
use vstd::prelude::*;

verus! {

broadcast use group_value_views;

/// The stack, in bytes, that is allowed for one level of nesting.
///
/// With optimisation on a 64-bit machine a level takes less than half of
/// this, whatever the expression: a call of a closure, a special form or a
/// literal with elements. The rest is room for builds that spend more.
pub const STACK_PER_LEVEL: usize = 2048;

/// The depth to which evaluation may nest in a runtime that was not told
/// otherwise: what a stack of two mebibytes carries, the least that a
/// thread gets without asking. It is [`depth_for_stack`] of that size.
///
/// A level is taken by each list with elements for as long as its
/// evaluation lasts: a call, a special form, a square or curly literal.
/// Symbols, atoms and empty lists take none. What counts is how deep such
/// lists are inside one another while they are evaluated, the body of a
/// called closure counting as inside the call; expressions after one
/// another share their levels. A recursive function whose body is
/// `(if (= n 0) 0 (+ n (f (- n 1))))` takes three levels for each call of
/// itself, the call, the `if` and the `+`, so the default admits 341 calls
/// of it inside one another and fails the 342nd with
/// [`crate::types::EvalError::DepthExceeded`]. A host with a larger stack
/// asks for more with [`Runtime::set_depth`]; more depth changes nothing in
/// an evaluation that ended within less
/// ([`crate::laws::lemma_eval_deeper`]).
pub const DEFAULT_DEPTH: usize = 1024;

/// The depth to which evaluation may nest on a stack of the given size:
/// one level for each [`STACK_PER_LEVEL`] bytes.
pub fn depth_for_stack(stack_bytes: usize) -> (depth: usize)
    ensures
        depth == stack_bytes / STACK_PER_LEVEL,
        stack_bytes == 2097152 ==> depth == DEFAULT_DEPTH,
{
    stack_bytes / STACK_PER_LEVEL
}

/// The value that a primitive is bound to.
pub open spec fn primitive_value(p: Primitive) -> Value {
    Value::Callable(Callable::Primitive(p))
}

/// The value that a special form is bound to.
pub open spec fn form_value(f: SpecialForm) -> Value {
    Value::Callable(Callable::SpecialForm(f))
}

/// What the root scope binds: the name of each primitive and of each
/// special form.
pub open spec fn root_vars() -> Map<Seq<char>, Value> {
    Map::<Seq<char>, Value>::empty().insert("+"@, primitive_value(Primitive::Add)).insert(
        "-"@,
        primitive_value(Primitive::Sub),
    ).insert("*"@, primitive_value(Primitive::Mult)).insert(
        "/"@,
        primitive_value(Primitive::Divide),
    ).insert("list"@, primitive_value(Primitive::List)).insert(
        "list?"@,
        primitive_value(Primitive::ListQuestion),
    ).insert("empty?"@, primitive_value(Primitive::EmptyQuestion)).insert(
        "count"@,
        primitive_value(Primitive::Count),
    ).insert("="@, primitive_value(Primitive::Equals)).insert(
        "prn"@,
        primitive_value(Primitive::Prn),
    ).insert("pr-str"@, primitive_value(Primitive::PrStr)).insert(
        "str"@,
        primitive_value(Primitive::Str),
    ).insert("println"@, primitive_value(Primitive::Println)).insert(
        "<"@,
        primitive_value(Primitive::LessThan),
    ).insert("<="@, primitive_value(Primitive::LessThanOrEqual)).insert(
        ">"@,
        primitive_value(Primitive::GreaterThan),
    ).insert(">="@, primitive_value(Primitive::GreaterThanOrEqual)).insert(
        "def!"@,
        form_value(SpecialForm::Def),
    ).insert("let*"@, form_value(SpecialForm::Let)).insert("do"@, form_value(SpecialForm::Do)).insert(
        "fn*"@,
        form_value(SpecialForm::Fn),
    ).insert("if"@, form_value(SpecialForm::If))
}

/// The world that a session starts in: one scope, the root, and nothing
/// written.
pub open spec fn root_world() -> World {
    World { scopes: seq![Scope { vars: root_vars(), parent: None }], output: Seq::empty() }
}

/// Binds a name to a primitive or a special form in the root scope.
fn register(name: &str, f: Function, rt: &mut Runtime)
    requires
        old(rt).wf(),
        old(rt)@.scopes.len() == 1,
        !(f is UserDefined),
    ensures
        final(rt).wf(),
        final(rt).depth() == old(rt).depth(),
        final(rt)@.scopes.len() == 1,
        final(rt)@.scopes[0].parent == old(rt)@.scopes[0].parent,
        final(rt)@.scopes[0].vars == old(rt)@.scopes[0].vars.insert(name@, Value::Callable(f@)),
        final(rt)@.output == old(rt)@.output,
{
    let root = Env { bindings: 0 };
    root.set(name.to_owned(), MalValue::BuiltinFunction(f), rt);
}

/// A runtime with the root scope, in which every primitive and every
/// special form is bound to its name, and that scope. Evaluation may nest
/// in it to [`DEFAULT_DEPTH`].
pub fn create_repl_env() -> (made: (Env, Runtime))
    ensures
        made.1.wf(),
        made.1@ == root_world(),
        made.1.depth() == DEFAULT_DEPTH,
        made.0.bindings == 0,
{
    let mut rt = Runtime::new(DEFAULT_DEPTH);
    let root = Env::new(None, &mut rt);
    register("+", Function::Builtin(Primitive::Add), &mut rt);
    register("-", Function::Builtin(Primitive::Sub), &mut rt);
    register("*", Function::Builtin(Primitive::Mult), &mut rt);
    register("/", Function::Builtin(Primitive::Divide), &mut rt);
    register("list", Function::Builtin(Primitive::List), &mut rt);
    register("list?", Function::Builtin(Primitive::ListQuestion), &mut rt);
    register("empty?", Function::Builtin(Primitive::EmptyQuestion), &mut rt);
    register("count", Function::Builtin(Primitive::Count), &mut rt);
    register("=", Function::Builtin(Primitive::Equals), &mut rt);
    register("prn", Function::Builtin(Primitive::Prn), &mut rt);
    register("pr-str", Function::Builtin(Primitive::PrStr), &mut rt);
    register("str", Function::Builtin(Primitive::Str), &mut rt);
    register("println", Function::Builtin(Primitive::Println), &mut rt);
    register("<", Function::Builtin(Primitive::LessThan), &mut rt);
    register("<=", Function::Builtin(Primitive::LessThanOrEqual), &mut rt);
    register(">", Function::Builtin(Primitive::GreaterThan), &mut rt);
    register(">=", Function::Builtin(Primitive::GreaterThanOrEqual), &mut rt);
    register("def!", Function::SpecialForm(SpecialForm::Def), &mut rt);
    register("let*", Function::SpecialForm(SpecialForm::Let), &mut rt);
    register("do", Function::SpecialForm(SpecialForm::Do), &mut rt);
    register("fn*", Function::SpecialForm(SpecialForm::Fn), &mut rt);
    register("if", Function::SpecialForm(SpecialForm::If), &mut rt);
    assert(rt@.scopes =~= root_world().scopes);
    (root, rt)
}

/// Reads the forms of a line.
pub fn read(input: String) -> (r: Result<Vec<MalValue>, ParseError>)
    ensures
        parse_view(r) == parse_spec(input@),
        r matches Ok(forms) ==> all_closed(views(forms@), 0),
        r matches Ok(forms) ==> forms.len() >= 1 && forms[forms.len() - 1]@ == Value::EndOfInput,
{
    parse_input(input.as_str())
}

/// The readable texts of the values, one space between two of them.
pub fn print(input: &Vec<MalValue>) -> (text: String)
    ensures
        text@ == pr_seq_spec(views(input@), seq![' '], true),
{
    proof {
        reveal_strlit(" ");
        assert(" "@ =~= seq![' ']);
    }
    pr_seq(input.as_slice(), " ", true)
}

/// What one step of the loop answers to a line, and the world it leaves:
/// the readable texts of the values of the forms of the line, or the first
/// error in words. A syntax error is told apart from a failed evaluation:
/// its words stand between double quotes, escaped as a string is in
/// readable text. The mark of the end of input, which the reader puts after
/// the forms, is not evaluated.
pub open spec fn rep_spec(input: Seq<char>, env: nat, w: World, depth: nat) -> (World, Seq<char>) {
    match parse_spec(input) {
        Ok(forms) => {
            let r = eval_all_spec(forms.drop_last(), env, w, depth);
            (
                r.world,
                match r.result {
                    Ok(values) => pr_seq_spec(values, seq![' '], true),
                    Err(e) => "Error: "@ + e.message_spec(),
                },
            )
        },
        Err(e) => (w, "Error: "@ + pr_str_spec(Value::Str(e.message_spec()), true)),
    }
}

/// One step of the loop: reads the forms of the line, evaluates them in
/// `env` from left to right, and returns the readable texts of their values,
/// or the first error in words.
///
/// Each form has the whole depth of the runtime for itself: lists with
/// elements may be evaluated inside one another as deep as
/// [`Runtime::depth_left`] says, [`DEFAULT_DEPTH`] in a runtime made by
/// [`create_repl_env`], and a form that needs more answers with the words
/// of [`crate::types::EvalError::DepthExceeded`]. What was bound or written
/// before an error stays.
pub fn rep(input: String, env: Env, rt: &mut Runtime) -> (text: String)
    requires
        old(rt).wf(),
        env.valid(old(rt)@),
    ensures
        final(rt).wf(),
        final(rt).depth() == old(rt).depth(),
        old(rt)@.steps_to(final(rt)@, env.bindings as nat),
        (final(rt)@, text@) == rep_spec(input@, env.bindings as nat, old(rt)@, old(rt).depth()),
{
    match read(input) {
        Ok(all) => {
            let mut parsed = all;
            let ghost forms = views(parsed@);
            parsed.pop();
            proof {
                assert(views(parsed@) =~= forms.drop_last());
                assert(all_closed(views(parsed@), 0)) by {
                    assert forall|i: int| 0 <= i < views(parsed@).len() implies (
                    #[trigger] views(parsed@)[i]).closed(0) by {}
                }
                lemma_all_closed_grows(views(parsed@), 0, rt@.scopes.len());
            }
            match eval_all(parsed.as_slice(), env, rt) {
                Ok(evaluated) => print(&evaluated),
                Err(e) => {
                    let mut buf: Vec<char> = Vec::new();
                    push_str(&mut buf, "Error: ");
                    push_str(&mut buf, e.message().as_str());
                    chars_string(&buf)
                },
            }
        },
        Err(e) => {
            let mut buf: Vec<char> = Vec::new();
            push_str(&mut buf, "Error: ");
            push_str(&mut buf, pr_str(&MalValue::String(e.message()), true).as_str());
            chars_string(&buf)
        },
    }
}

} // verus!
