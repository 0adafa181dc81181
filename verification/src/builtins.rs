//! The primitives: the native operations of the language, which receive
//! their arguments already evaluated.

use crate::env::{Runtime, World};
use crate::printer::{pr_seq, pr_seq_spec};
use crate::text::string_chars;
use crate::types::{
    all_closed, clone_values, group_value_views, value_eq, views, EvalError, Failure, Flavor,
    MalValue, Primitive, Value,
};
use vstd::prelude::*;

verus! {

/// The model of the result of a primitive.
pub open spec fn result_view(r: Result<MalValue, EvalError>) -> Result<Value, Failure> {
    match r {
        Ok(v) => Ok(v@),
        Err(e) => Err(e@),
    }
}

/// The two numbers that a binary numeric primitive works on: exactly two
/// arguments are asked for, and both must be numbers.
pub open spec fn numbers_spec(args: Seq<Value>) -> Result<(i64, i64), Failure> {
    if args.len() != 2 {
        Err(Failure::ArityMismatch)
    } else {
        match (args[0], args[1]) {
            (Value::Number(a), Value::Number(b)) => Ok((a, b)),
            _ => Err(Failure::TypeError),
        }
    }
}

/// The quotient of two numbers, rounded towards zero; the one quotient that
/// does not fit, that of the least number by -1, wraps around to the least
/// number.
pub open spec fn quotient(a: i64, b: i64) -> i64
    recommends
        b != 0,
{
    match a.checked_div(b) {
        Some(q) => q,
        None => i64::MIN,
    }
}

/// What an arithmetic primitive makes of two numbers. Sums, differences and
/// products wrap around at the ends of the 64-bit range.
pub open spec fn arith_spec(p: Primitive, a: i64, b: i64) -> Result<Value, Failure> {
    match p {
        Primitive::Add => Ok(Value::Number(a.wrapping_add(b))),
        Primitive::Sub => Ok(Value::Number(a.wrapping_sub(b))),
        Primitive::Mult => Ok(Value::Number(a.wrapping_mul(b))),
        _ => if b == 0 {
            Err(Failure::DivideByZero)
        } else {
            Ok(Value::Number(quotient(a, b)))
        },
    }
}

/// What an arithmetic primitive returns for the given arguments.
pub open spec fn arith_args_spec(p: Primitive, args: Seq<Value>) -> Result<Value, Failure> {
    match numbers_spec(args) {
        Ok((a, b)) => arith_spec(p, a, b),
        Err(e) => Err(e),
    }
}

/// What `list` returns: a round list of the arguments.
pub open spec fn list_spec(args: Seq<Value>) -> Result<Value, Failure> {
    Ok(Value::List(Flavor::Round, args))
}

/// What `list?` returns: whether its one argument is a round list.
pub open spec fn list_question_spec(args: Seq<Value>) -> Result<Value, Failure> {
    if args.len() != 1 {
        Err(Failure::ArityMismatch)
    } else {
        Ok(Value::Bool(args[0] matches Value::List(Flavor::Round, _)))
    }
}

/// What `empty?` returns: whether its one argument is a round or square list
/// without elements or a string without characters.
pub open spec fn empty_question_spec(args: Seq<Value>) -> Result<Value, Failure> {
    if args.len() != 1 {
        Err(Failure::ArityMismatch)
    } else {
        Ok(
            Value::Bool(
                match args[0] {
                    Value::List(flavor, items) => flavor != Flavor::Curly && items.len() == 0,
                    Value::Str(s) => s.len() == 0,
                    _ => false,
                },
            ),
        )
    }
}

/// A length as a number of the language: lengths are machine words, and a
/// word that exceeds the 64-bit signed range wraps around.
pub open spec fn length_number(n: nat) -> i64 {
    (n as usize) as i64
}

/// What `count` returns: the number of elements of a round or square list,
/// the number of bytes of a string in UTF-8, zero for `nil`, and `nil` for
/// anything else.
pub open spec fn count_spec(args: Seq<Value>) -> Result<Value, Failure> {
    if args.len() != 1 {
        Err(Failure::ArityMismatch)
    } else {
        Ok(
            match args[0] {
                Value::List(flavor, items) => if flavor != Flavor::Curly {
                    Value::Number(length_number(items.len()))
                } else {
                    Value::Nil
                },
                Value::Str(s) => Value::Number(length_number(vstd::utf8::encode_utf8(s).len())),
                Value::Nil => Value::Number(0),
                _ => Value::Nil,
            },
        )
    }
}

/// What `=` returns: whether its two arguments are structurally equal.
pub open spec fn equals_spec(args: Seq<Value>) -> Result<Value, Failure> {
    if args.len() != 2 {
        Err(Failure::ArityMismatch)
    } else {
        Ok(Value::Bool(value_eq(args[0], args[1])))
    }
}

/// The order relation that an operator sign names, if it names one.
pub open spec fn relation_spec(op: Seq<char>, a: i64, b: i64) -> Option<bool> {
    if op == seq!['<'] {
        Some(a < b)
    } else if op == seq!['<', '='] {
        Some(a <= b)
    } else if op == seq!['>'] {
        Some(a > b)
    } else if op == seq!['>', '='] {
        Some(a >= b)
    } else {
        None
    }
}

/// What a comparison returns: whether the relation that `op` names holds of
/// its two numeric arguments.
pub open spec fn comparison_spec(op: Seq<char>, args: Seq<Value>) -> Result<Value, Failure> {
    match numbers_spec(args) {
        Ok((a, b)) => match relation_spec(op, a, b) {
            Some(holds) => Ok(Value::Bool(holds)),
            None => Err(Failure::TypeError),
        },
        Err(e) => Err(e),
    }
}

/// What `pr-str` returns: the readable texts of the arguments, one space
/// between two of them.
pub open spec fn pr_str_fn_spec(args: Seq<Value>) -> Result<Value, Failure> {
    Ok(Value::Str(pr_seq_spec(args, seq![' '], true)))
}

/// What `str` returns: the display texts of the arguments, one after the
/// other.
pub open spec fn str_fn_spec(args: Seq<Value>) -> Result<Value, Failure> {
    Ok(Value::Str(pr_seq_spec(args, Seq::empty(), false)))
}

/// The line that `prn` writes: the readable texts of the arguments, one
/// space between two of them.
pub open spec fn prn_line(args: Seq<Value>) -> Seq<char> {
    pr_seq_spec(args, seq![' '], true)
}

/// The line that `println` writes: the display texts of the arguments, one
/// after the other, as `str` joins them.
pub open spec fn println_line(args: Seq<Value>) -> Seq<char> {
    pr_seq_spec(args, Seq::empty(), false)
}

/// What a primitive returns for the given arguments. Only the printing
/// primitives need more than this: see [`primitive_world`].
pub open spec fn primitive_result(p: Primitive, args: Seq<Value>) -> Result<Value, Failure> {
    match p {
        Primitive::Add | Primitive::Sub | Primitive::Mult | Primitive::Divide => arith_args_spec(
            p,
            args,
        ),
        Primitive::List => list_spec(args),
        Primitive::ListQuestion => list_question_spec(args),
        Primitive::EmptyQuestion => empty_question_spec(args),
        Primitive::Count => count_spec(args),
        Primitive::Equals => equals_spec(args),
        Primitive::Prn => Ok(Value::Nil),
        Primitive::PrStr => pr_str_fn_spec(args),
        Primitive::Str => str_fn_spec(args),
        Primitive::Println => Ok(Value::Nil),
        Primitive::LessThan => comparison_spec(seq!['<'], args),
        Primitive::LessThanOrEqual => comparison_spec(seq!['<', '='], args),
        Primitive::GreaterThan => comparison_spec(seq!['>'], args),
        Primitive::GreaterThanOrEqual => comparison_spec(seq!['>', '='], args),
    }
}

/// The world after a primitive ran: the printing primitives write one line,
/// the others change nothing.
pub open spec fn primitive_world(p: Primitive, args: Seq<Value>, w: World) -> World {
    match p {
        Primitive::Prn => w.write(prn_line(args)),
        Primitive::Println => w.write(println_line(args)),
        _ => w,
    }
}

/// A primitive makes no closure: what it returns captures only scopes that
/// its arguments capture.
pub proof fn lemma_primitive_closed(p: Primitive, args: Seq<Value>, n: nat)
    requires
        all_closed(args, n),
    ensures
        primitive_result(p, args) matches Ok(v) ==> v.closed(n),
{
}

/// The two numbers of a binary numeric primitive.
pub fn validate_and_extract(args: &[MalValue]) -> (r: Result<(i64, i64), EvalError>)
    ensures
        r is Ok == numbers_spec(views(args@)) is Ok,
        r matches Ok(pair) ==> numbers_spec(views(args@)) == Ok::<(i64, i64), Failure>(pair),
        r matches Err(e) ==> numbers_spec(views(args@)) == Err::<(i64, i64), Failure>(e@),
{
    broadcast use group_value_views;

    if args.len() != 2 {
        return Err(EvalError::ArityMismatch);
    }
    match (&args[0], &args[1]) {
        (MalValue::Number(a), MalValue::Number(b)) => Ok((*a, *b)),
        _ => Err(EvalError::TypeError),
    }
}

/// `+`: the sum of two numbers.
pub fn add(args: &[MalValue]) -> (r: Result<MalValue, EvalError>)
    ensures
        result_view(r) == arith_args_spec(Primitive::Add, views(args@)),
{
    match validate_and_extract(args) {
        Ok((a, b)) => Ok(MalValue::Number(a.wrapping_add(b))),
        Err(e) => Err(e),
    }
}

/// `-`: the difference of two numbers.
pub fn sub(args: &[MalValue]) -> (r: Result<MalValue, EvalError>)
    ensures
        result_view(r) == arith_args_spec(Primitive::Sub, views(args@)),
{
    match validate_and_extract(args) {
        Ok((a, b)) => Ok(MalValue::Number(a.wrapping_sub(b))),
        Err(e) => Err(e),
    }
}

/// `*`: the product of two numbers.
pub fn mult(args: &[MalValue]) -> (r: Result<MalValue, EvalError>)
    ensures
        result_view(r) == arith_args_spec(Primitive::Mult, views(args@)),
{
    match validate_and_extract(args) {
        Ok((a, b)) => Ok(MalValue::Number(a.wrapping_mul(b))),
        Err(e) => Err(e),
    }
}

/// `/`: the quotient of two numbers; a zero divisor is an error.
pub fn divide(args: &[MalValue]) -> (r: Result<MalValue, EvalError>)
    ensures
        result_view(r) == arith_args_spec(Primitive::Divide, views(args@)),
{
    match validate_and_extract(args) {
        Ok((a, b)) => {
            if b != 0 {
                match a.checked_div(b) {
                    Some(q) => Ok(MalValue::Number(q)),
                    None => Ok(MalValue::Number(i64::MIN)),
                }
            } else {
                Err(EvalError::DivideByZero)
            }
        },
        Err(e) => Err(e),
    }
}

/// `list`: a round list of the arguments.
pub fn list(args: &[MalValue]) -> (r: Result<MalValue, EvalError>)
    ensures
        result_view(r) == list_spec(views(args@)),
{
    broadcast use group_value_views;

    Ok(MalValue::Round(clone_values(args)))
}

/// `list?`: whether the argument is a round list.
pub fn list_question(args: &[MalValue]) -> (r: Result<MalValue, EvalError>)
    ensures
        result_view(r) == list_question_spec(views(args@)),
{
    broadcast use group_value_views;

    if args.len() != 1 {
        return Err(EvalError::ArityMismatch);
    }
    match &args[0] {
        MalValue::Round(_) => Ok(MalValue::Bool(true)),
        _ => Ok(MalValue::Bool(false)),
    }
}

/// `empty?`: whether the argument is an empty list or an empty string.
pub fn empty_question(args: &[MalValue]) -> (r: Result<MalValue, EvalError>)
    ensures
        result_view(r) == empty_question_spec(views(args@)),
{
    broadcast use group_value_views;

    if args.len() != 1 {
        return Err(EvalError::ArityMismatch);
    }
    match &args[0] {
        MalValue::Round(list) => Ok(MalValue::Bool(list.len() == 0)),
        MalValue::Square(list) => Ok(MalValue::Bool(list.len() == 0)),
        MalValue::String(s) => Ok(MalValue::Bool(s.as_str().is_empty())),
        _ => Ok(MalValue::Bool(false)),
    }
}

/// `count`: the length of a list or a string.
pub fn count(args: &[MalValue]) -> (r: Result<MalValue, EvalError>)
    ensures
        result_view(r) == count_spec(views(args@)),
{
    broadcast use group_value_views;

    if args.len() != 1 {
        return Err(EvalError::ArityMismatch);
    }
    match &args[0] {
        MalValue::Round(list) => Ok(MalValue::Number(#[verifier::truncate] (list.len() as i64))),
        MalValue::Square(list) => Ok(MalValue::Number(#[verifier::truncate] (list.len() as i64))),
        MalValue::String(s) => Ok(
            MalValue::Number(#[verifier::truncate] (s.as_str().len() as i64)),
        ),
        MalValue::Nil => Ok(MalValue::Number(0)),
        _ => Ok(MalValue::Nil),
    }
}

/// `=`: whether the two arguments are structurally equal.
pub fn equals(args: &[MalValue]) -> (r: Result<MalValue, EvalError>)
    ensures
        result_view(r) == equals_spec(views(args@)),
{
    broadcast use group_value_views;

    if args.len() != 2 {
        return Err(EvalError::ArityMismatch);
    }
    Ok(MalValue::Bool(args[0].equal_to(&args[1])))
}

/// `<`, `<=`, `>`, `>=`: whether the relation that `op` names holds of the
/// two numeric arguments.
pub fn comparison_operator(op: &str, args: &[MalValue]) -> (r: Result<MalValue, EvalError>)
    ensures
        result_view(r) == comparison_spec(op@, views(args@)),
{
    broadcast use group_value_views;

    let (a, b) = match validate_and_extract(args) {
        Ok(pair) => pair,
        Err(e) => {
            return Err(e);
        },
    };
    let sign = string_chars(op);
    let result = if sign.len() == 1 && sign[0] == '<' {
        assert(op@ =~= seq!['<']);
        a < b
    } else if sign.len() == 2 && sign[0] == '<' && sign[1] == '=' {
        assert(op@ =~= seq!['<', '=']);
        a <= b
    } else if sign.len() == 1 && sign[0] == '>' {
        assert(op@ =~= seq!['>']);
        a > b
    } else if sign.len() == 2 && sign[0] == '>' && sign[1] == '=' {
        assert(op@ =~= seq!['>', '=']);
        a >= b
    } else {
        return Err(EvalError::TypeError);
    };
    Ok(MalValue::Bool(result))
}

/// `pr-str`: the readable texts of the arguments, joined by spaces.
pub fn pr_str_fn(args: &[MalValue]) -> (r: Result<MalValue, EvalError>)
    ensures
        result_view(r) == pr_str_fn_spec(views(args@)),
{
    broadcast use group_value_views;

    proof {
        reveal_strlit(" ");
        assert(" "@ =~= seq![' ']);
    }
    Ok(MalValue::String(pr_seq(args, " ", true)))
}

/// `str`: the display texts of the arguments, one after the other.
pub fn str_fn(args: &[MalValue]) -> (r: Result<MalValue, EvalError>)
    ensures
        result_view(r) == str_fn_spec(views(args@)),
{
    broadcast use group_value_views;

    proof {
        reveal_strlit("");
        assert(""@ =~= Seq::<char>::empty());
    }
    Ok(MalValue::String(pr_seq(args, "", false)))
}

/// `prn`: writes the readable texts of the arguments, joined by spaces, as
/// one line, and returns `nil`.
pub fn prn_fn(args: &[MalValue], rt: &mut Runtime) -> (r: Result<MalValue, EvalError>)
    ensures
        r == Ok::<MalValue, EvalError>(MalValue::Nil),
        final(rt)@ == old(rt)@.write(prn_line(views(args@))),
        final(rt).inv() == old(rt).inv(),
        final(rt).depth() == old(rt).depth(),
{
    proof {
        reveal_strlit(" ");
        assert(" "@ =~= seq![' ']);
    }
    rt.write_line(pr_seq(args, " ", true));
    Ok(MalValue::Nil)
}

/// `println`: writes the display texts of the arguments, one after the
/// other, as one line, and returns `nil`.
pub fn println_fn(args: &[MalValue], rt: &mut Runtime) -> (r: Result<MalValue, EvalError>)
    ensures
        r == Ok::<MalValue, EvalError>(MalValue::Nil),
        final(rt)@ == old(rt)@.write(println_line(views(args@))),
        final(rt).inv() == old(rt).inv(),
        final(rt).depth() == old(rt).depth(),
{
    proof {
        reveal_strlit("");
        assert(""@ =~= Seq::<char>::empty());
    }
    rt.write_line(pr_seq(args, "", false));
    Ok(MalValue::Nil)
}

/// Runs a primitive on arguments that were evaluated.
pub fn apply_primitive(p: Primitive, args: &[MalValue], rt: &mut Runtime) -> (r: Result<
    MalValue,
    EvalError,
>)
    ensures
        result_view(r) == primitive_result(p, views(args@)),
        final(rt)@ == primitive_world(p, views(args@), old(rt)@),
        final(rt).inv() == old(rt).inv(),
        final(rt).depth() == old(rt).depth(),
{
    broadcast use group_value_views;

    proof {
        reveal_strlit("<");
        reveal_strlit("<=");
        reveal_strlit(">");
        reveal_strlit(">=");
        assert("<"@ =~= seq!['<']);
        assert("<="@ =~= seq!['<', '=']);
        assert(">"@ =~= seq!['>']);
        assert(">="@ =~= seq!['>', '=']);
    }
    match p {
        Primitive::Add => self::add(args),
        Primitive::Sub => self::sub(args),
        Primitive::Mult => mult(args),
        Primitive::Divide => divide(args),
        Primitive::List => list(args),
        Primitive::ListQuestion => list_question(args),
        Primitive::EmptyQuestion => empty_question(args),
        Primitive::Count => count(args),
        Primitive::Equals => equals(args),
        Primitive::Prn => prn_fn(args, rt),
        Primitive::PrStr => pr_str_fn(args),
        Primitive::Str => str_fn(args),
        Primitive::Println => println_fn(args, rt),
        Primitive::LessThan => comparison_operator("<", args),
        Primitive::LessThanOrEqual => comparison_operator("<=", args),
        Primitive::GreaterThan => comparison_operator(">", args),
        Primitive::GreaterThanOrEqual => comparison_operator(">=", args),
    }
}

} // verus!
