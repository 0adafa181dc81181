//! The value model: every shape an expression or a result can take, with the
//! mathematical view that the contracts of this library speak of.

use crate::text::{chars_string, push_str};
use vstd::prelude::*;
use vstd::std_specs::cmp::PartialEqSpecImpl;

verus! {

/// The native operations that receive their arguments already evaluated.
#[derive(Clone, Copy, Debug, PartialEq, Eq, Structural)]
pub enum Primitive {
    Add,
    Sub,
    Mult,
    Divide,
    List,
    ListQuestion,
    EmptyQuestion,
    Count,
    Equals,
    Prn,
    PrStr,
    Str,
    Println,
    LessThan,
    LessThanOrEqual,
    GreaterThan,
    GreaterThanOrEqual,
}

/// The keywords of the language: operations that receive their argument
/// expressions unevaluated, together with the scope of the call.
#[derive(Clone, Copy, Debug, PartialEq, Eq, Structural)]
pub enum SpecialForm {
    Def,
    Let,
    Do,
    Fn,
    If,
}

/// The delimiters a list was written with.
#[derive(Clone, Copy, Debug, PartialEq, Eq, Structural)]
pub enum Flavor {
    Round,
    Square,
    Curly,
}

/// A scope of the environment chain, named by its place in the runtime's
/// arena of scopes.
#[derive(Clone, Copy, Debug, PartialEq, Eq, Structural)]
pub struct Env {
    pub bindings: usize,
}

/// Something that can stand at the head of a call.
#[derive(Debug)]
pub enum Function {
    Builtin(Primitive),
    SpecialForm(SpecialForm),
    UserDefined { params: Vec<String>, rest_param: Option<String>, body: Vec<MalValue>, env: Env },
}

/// An expression, and equally the result of evaluating one.
#[derive(Debug)]
pub enum MalValue {
    String(String),
    Symbol(String),
    Number(i64),
    Bool(bool),
    Nil,
    Round(Vec<MalValue>),
    Square(Vec<MalValue>),
    Curly(Vec<MalValue>),
    BuiltinFunction(Function),
    EOI,
}

/// The mathematical model of a [`Function`].
pub ghost enum Callable {
    Primitive(Primitive),
    SpecialForm(SpecialForm),
    Closure { params: Seq<Seq<char>>, rest_param: Option<Seq<char>>, body: Seq<Value>, env: nat },
}

/// The mathematical model of a [`MalValue`].
pub ghost enum Value {
    Str(Seq<char>),
    Symbol(Seq<char>),
    Number(i64),
    Bool(bool),
    Nil,
    List(Flavor, Seq<Value>),
    Callable(Callable),
    EndOfInput,
}

/// The models of a sequence of values, element by element.
pub open spec fn views(s: Seq<MalValue>) -> Seq<Value> {
    Seq::new(s.len(), |i: int| s[i]@)
}

/// The models of a sequence of names, element by element.
pub open spec fn names(s: Seq<String>) -> Seq<Seq<char>> {
    Seq::new(s.len(), |i: int| s[i]@)
}

/// The model of an optional name.
pub open spec fn name_opt(s: Option<String>) -> Option<Seq<char>> {
    match s {
        Some(n) => Some(n@),
        None => None,
    }
}

impl Function {
    /// The model of the function; the view of the type.
    pub open spec fn model(&self) -> Callable
        decreases self,
    {
        match self {
            Function::Builtin(p) => Callable::Primitive(*p),
            Function::SpecialForm(f) => Callable::SpecialForm(*f),
            Function::UserDefined { params, rest_param, body, env } => Callable::Closure {
                params: names(params@),
                rest_param: name_opt(*rest_param),
                body: MalValue::items(*body),
                env: env.bindings as nat,
            },
        }
    }
}

impl MalValue {
    /// The model of the value; the view of the type.
    pub open spec fn model(&self) -> Value
        decreases self,
    {
        match self {
            MalValue::String(s) => Value::Str(s@),
            MalValue::Symbol(s) => Value::Symbol(s@),
            MalValue::Number(n) => Value::Number(*n),
            MalValue::Bool(b) => Value::Bool(*b),
            MalValue::Nil => Value::Nil,
            MalValue::Round(v) => Value::List(Flavor::Round, Self::items(*v)),
            MalValue::Square(v) => Value::List(Flavor::Square, Self::items(*v)),
            MalValue::Curly(v) => Value::List(Flavor::Curly, Self::items(*v)),
            MalValue::BuiltinFunction(f) => Value::Callable(f.model()),
            MalValue::EOI => Value::EndOfInput,
        }
    }

    /// The models of the elements of a list, stated so that the model is
    /// seen to be well founded.
    pub open spec fn items(v: Vec<MalValue>) -> Seq<Value>
        decreases v,
    {
        Seq::new(
            v.len() as nat,
            |i: int|
                if 0 <= i < v.len() {
                    v[i].model()
                } else {
                    Value::Nil
                },
        )
    }
}

impl View for Function {
    type V = Callable;

    open spec fn view(&self) -> Callable {
        self.model()
    }
}

impl View for MalValue {
    type V = Value;

    open spec fn view(&self) -> Value {
        self.model()
    }
}

/// The elements of a list are modelled one by one.
pub broadcast proof fn lemma_items(v: Vec<MalValue>)
    ensures
        #[trigger] MalValue::items(v) == views(v@),
{
    reveal_with_fuel(MalValue::items, 2);
}

/// The view of a value, one level unfolded.
pub broadcast proof fn lemma_value_view(v: MalValue)
    ensures
        #[trigger] v@ == (match v {
            MalValue::String(s) => Value::Str(s@),
            MalValue::Symbol(s) => Value::Symbol(s@),
            MalValue::Number(n) => Value::Number(n),
            MalValue::Bool(b) => Value::Bool(b),
            MalValue::Nil => Value::Nil,
            MalValue::Round(x) => Value::List(Flavor::Round, views(x@)),
            MalValue::Square(x) => Value::List(Flavor::Square, views(x@)),
            MalValue::Curly(x) => Value::List(Flavor::Curly, views(x@)),
            MalValue::BuiltinFunction(f) => Value::Callable(f@),
            MalValue::EOI => Value::EndOfInput,
        }),
{
    reveal_with_fuel(MalValue::model, 2);
    match v {
        MalValue::Round(x) => lemma_items(x),
        MalValue::Square(x) => lemma_items(x),
        MalValue::Curly(x) => lemma_items(x),
        _ => {},
    }
}

/// The view of a function, one level unfolded.
pub broadcast proof fn lemma_function_view(f: Function)
    ensures
        #[trigger] f@ == (match f {
            Function::Builtin(p) => Callable::Primitive(p),
            Function::SpecialForm(k) => Callable::SpecialForm(k),
            Function::UserDefined { params, rest_param, body, env } => Callable::Closure {
                params: names(params@),
                rest_param: name_opt(rest_param),
                body: views(body@),
                env: env.bindings as nat,
            },
        }),
{
    reveal_with_fuel(Function::model, 2);
    match f {
        Function::UserDefined { params, rest_param, body, env } => lemma_items(body),
        _ => {},
    }
}

pub broadcast group group_value_views {
    lemma_value_view,
    lemma_function_view,
}

impl Value {
    /// Whether every closure inside the value captures a scope below `n`,
    /// that is, a scope that an arena of `n` scopes holds.
    pub open spec fn closed(self, n: nat) -> bool
        decreases self,
    {
        match self {
            Value::List(_, items) => forall|i: int|
                0 <= i < items.len() ==> (#[trigger] items[i]).closed(n),
            Value::Callable(Callable::Closure { params, rest_param, body, env }) => env < n
                && forall|i: int| 0 <= i < body.len() ==> (#[trigger] body[i]).closed(n),
            _ => true,
        }
    }

    /// Whether evaluation hands the value back as it is, whatever the scope.
    pub open spec fn self_evaluating(self) -> bool {
        match self {
            Value::Symbol(_) => false,
            Value::List(_, items) => items.len() == 0,
            _ => true,
        }
    }

    /// Whether the value counts as true in a condition: everything but `nil`
    /// and `false` does.
    pub open spec fn truthy(self) -> bool {
        self != Value::Nil && self != Value::Bool(false)
    }
}

/// Whether every value of the sequence is closed under `n` scopes.
pub open spec fn all_closed(items: Seq<Value>, n: nat) -> bool {
    forall|i: int| 0 <= i < items.len() ==> (#[trigger] items[i]).closed(n)
}

/// A value that is closed under `n` scopes stays closed when the arena grows.
pub proof fn lemma_closed_grows(v: Value, n: nat, m: nat)
    requires
        v.closed(n),
        n <= m,
    ensures
        v.closed(m),
    decreases v,
{
    match v {
        Value::List(_, items) => {
            assert forall|i: int| 0 <= i < items.len() implies (#[trigger] items[i]).closed(m) by {
                lemma_closed_grows(items[i], n, m);
            }
        },
        Value::Callable(Callable::Closure { params, rest_param, body, env }) => {
            assert forall|i: int| 0 <= i < body.len() implies (#[trigger] body[i]).closed(m) by {
                lemma_closed_grows(body[i], n, m);
            }
        },
        _ => {},
    }
}

/// Values that are closed under `n` scopes stay closed when the arena grows.
pub proof fn lemma_all_closed_grows(items: Seq<Value>, n: nat, m: nat)
    requires
        all_closed(items, n),
        n <= m,
    ensures
        all_closed(items, m),
{
    assert forall|i: int| 0 <= i < items.len() implies (#[trigger] items[i]).closed(m) by {
        lemma_closed_grows(items[i], n, m);
    }
}

/// Whether two list flavors may hold equal lists: round and square lists are
/// interchangeable, a curly list equals only a curly list.
pub open spec fn flavors_match(a: Flavor, b: Flavor) -> bool {
    (a == Flavor::Curly) == (b == Flavor::Curly)
}

/// Structural equality of values. Lists are compared element by element
/// whatever their delimiters; closures by parameters and body, never by the
/// scope they captured.
pub open spec fn value_eq(a: Value, b: Value) -> bool
    decreases a,
{
    match (a, b) {
        (Value::Str(x), Value::Str(y)) => x == y,
        (Value::Symbol(x), Value::Symbol(y)) => x == y,
        (Value::Number(x), Value::Number(y)) => x == y,
        (Value::Bool(x), Value::Bool(y)) => x == y,
        (Value::Nil, Value::Nil) => true,
        (Value::List(fa, xs), Value::List(fb, ys)) => flavors_match(fa, fb) && seq_eq(xs, ys),
        (Value::Callable(f), Value::Callable(g)) => callable_eq(f, g),
        (Value::EndOfInput, Value::EndOfInput) => true,
        _ => false,
    }
}

/// Structural equality of two sequences of values.
pub open spec fn seq_eq(xs: Seq<Value>, ys: Seq<Value>) -> bool
    decreases xs,
{
    xs.len() == ys.len() && forall|i: int|
        0 <= i < xs.len() ==> value_eq(#[trigger] xs[i], ys[i])
}

/// Structural equality of callables: primitives and special forms are equal
/// when they are the same operation, closures when parameters, variadic
/// parameter and body agree.
pub open spec fn callable_eq(f: Callable, g: Callable) -> bool
    decreases f,
{
    match (f, g) {
        (Callable::Primitive(p), Callable::Primitive(q)) => p == q,
        (Callable::SpecialForm(p), Callable::SpecialForm(q)) => p == q,
        (
            Callable::Closure { params: fp, rest_param: fr, body: fb, env: _ },
            Callable::Closure { params: gp, rest_param: gr, body: gb, env: _ },
        ) => fp == gp && seq_eq(fb, gb) && fr == gr,
        _ => false,
    }
}

/// Whether two lists of names hold the same names in the same order.
fn names_equal(a: &Vec<String>, b: &Vec<String>) -> (same: bool)
    ensures
        same == (names(a@) == names(b@)),
{
    if a.len() != b.len() {
        return false;
    }
    let mut i: usize = 0;
    while i < a.len()
        invariant
            i <= a.len(),
            a.len() == b.len(),
            forall|j: int| 0 <= j < i ==> a[j]@ == b[j]@,
        decreases a.len() - i,
    {
        if a[i] != b[i] {
            assert(names(a@)[i as int] != names(b@)[i as int]);
            return false;
        }
        i += 1;
    }
    assert(names(a@) =~= names(b@));
    true
}

/// Whether two optional names agree.
fn name_opt_equal(a: &Option<String>, b: &Option<String>) -> (same: bool)
    ensures
        same == (name_opt(*a) == name_opt(*b)),
{
    match (a, b) {
        (Some(x), Some(y)) => *x == *y,
        (None, None) => true,
        _ => false,
    }
}

/// Whether two vectors of values are structurally equal, element by element.
fn values_equal(xs: &Vec<MalValue>, ys: &Vec<MalValue>) -> (same: bool)
    ensures
        same == seq_eq(views(xs@), views(ys@)),
    decreases xs,
{
    if xs.len() != ys.len() {
        return false;
    }
    let mut i: usize = 0;
    while i < xs.len()
        invariant
            i <= xs.len(),
            xs.len() == ys.len(),
            forall|j: int| 0 <= j < i ==> value_eq(#[trigger] views(xs@)[j], views(ys@)[j]),
        decreases xs.len() - i,
    {
        if !xs[i].equal_to(&ys[i]) {
            assert(!value_eq(views(xs@)[i as int], views(ys@)[i as int]));
            return false;
        }
        i += 1;
    }
    true
}

impl Function {
    /// Structural equality of callables; the captured scope takes no part.
    pub fn equal_to(&self, other: &Function) -> (same: bool)
        ensures
            same == callable_eq(self@, other@),
        decreases self,
    {
        broadcast use group_value_views;

        match (self, other) {
            (Function::Builtin(p), Function::Builtin(q)) => *p == *q,
            (Function::SpecialForm(p), Function::SpecialForm(q)) => *p == *q,
            (
                Function::UserDefined { params: fp, rest_param: fr, body: fb, env: _ },
                Function::UserDefined { params: gp, rest_param: gr, body: gb, env: _ },
            ) => names_equal(fp, gp) && values_equal(fb, gb) && name_opt_equal(fr, gr),
            _ => false,
        }
    }
}

impl MalValue {
    /// Structural equality of values.
    pub fn equal_to(&self, other: &MalValue) -> (same: bool)
        ensures
            same == value_eq(self@, other@),
        decreases self,
    {
        broadcast use group_value_views;

        match (self, other) {
            (MalValue::String(x), MalValue::String(y)) => *x == *y,
            (MalValue::Symbol(x), MalValue::Symbol(y)) => *x == *y,
            (MalValue::Number(x), MalValue::Number(y)) => *x == *y,
            (MalValue::Bool(x), MalValue::Bool(y)) => *x == *y,
            (MalValue::Nil, MalValue::Nil) => true,
            (MalValue::Round(x), MalValue::Round(y)) => values_equal(x, y),
            (MalValue::Square(x), MalValue::Square(y)) => values_equal(x, y),
            (MalValue::Round(x), MalValue::Square(y)) => values_equal(x, y),
            (MalValue::Square(x), MalValue::Round(y)) => values_equal(x, y),
            (MalValue::Curly(x), MalValue::Curly(y)) => values_equal(x, y),
            (MalValue::BuiltinFunction(f), MalValue::BuiltinFunction(g)) => f.equal_to(g),
            (MalValue::EOI, MalValue::EOI) => true,
            _ => false,
        }
    }
}

impl PartialEq for Function {
    fn eq(&self, other: &Function) -> (same: bool) {
        self.equal_to(other)
    }
}

impl PartialEqSpecImpl for Function {
    open spec fn obeys_eq_spec() -> bool {
        true
    }

    open spec fn eq_spec(&self, other: &Function) -> bool {
        callable_eq(self@, other@)
    }
}

impl PartialEq for MalValue {
    fn eq(&self, other: &MalValue) -> (same: bool) {
        self.equal_to(other)
    }
}

impl PartialEqSpecImpl for MalValue {
    open spec fn obeys_eq_spec() -> bool {
        true
    }

    open spec fn eq_spec(&self, other: &MalValue) -> bool {
        value_eq(self@, other@)
    }
}

/// A copy of each name of a list.
fn clone_names(a: &Vec<String>) -> (r: Vec<String>)
    ensures
        names(r@) == names(a@),
{
    let mut out: Vec<String> = Vec::new();
    let mut i: usize = 0;
    while i < a.len()
        invariant
            i <= a.len(),
            out.len() == i,
            forall|j: int| 0 <= j < i ==> out[j]@ == a[j]@,
        decreases a.len() - i,
    {
        out.push(a[i].clone());
        i += 1;
    }
    out
}

/// A deep copy of each value of a vector.
fn clone_vec(xs: &Vec<MalValue>) -> (r: Vec<MalValue>)
    ensures
        views(r@) == views(xs@),
    decreases xs,
{
    let mut out: Vec<MalValue> = Vec::new();
    let mut i: usize = 0;
    while i < xs.len()
        invariant
            i <= xs.len(),
            out.len() == i,
            forall|j: int| 0 <= j < i ==> out[j]@ == xs[j]@,
        decreases xs.len() - i,
    {
        out.push(xs[i].clone());
        i += 1;
    }
    out
}

/// A deep copy of each value of a slice.
pub fn clone_values(xs: &[MalValue]) -> (r: Vec<MalValue>)
    ensures
        views(r@) == views(xs@),
{
    let mut out: Vec<MalValue> = Vec::new();
    let mut i: usize = 0;
    while i < xs.len()
        invariant
            i <= xs.len(),
            out.len() == i,
            forall|j: int| 0 <= j < i ==> out[j]@ == xs[j]@,
        decreases xs.len() - i,
    {
        out.push(xs[i].clone());
        i += 1;
    }
    out
}

impl Clone for Function {
    fn clone(&self) -> (r: Function)
        ensures
            r@ == self@,
        decreases self,
    {
        broadcast use group_value_views;

        match self {
            Function::Builtin(p) => Function::Builtin(*p),
            Function::SpecialForm(f) => Function::SpecialForm(*f),
            Function::UserDefined { params, rest_param, body, env } => {
                let rest = match rest_param {
                    Some(n) => Some(n.clone()),
                    None => None,
                };
                Function::UserDefined {
                    params: clone_names(params),
                    rest_param: rest,
                    body: clone_vec(body),
                    env: *env,
                }
            },
        }
    }
}

impl Clone for MalValue {
    fn clone(&self) -> (r: MalValue)
        ensures
            r@ == self@,
        decreases self,
    {
        broadcast use group_value_views;

        match self {
            MalValue::String(s) => MalValue::String(s.clone()),
            MalValue::Symbol(s) => MalValue::Symbol(s.clone()),
            MalValue::Number(n) => MalValue::Number(*n),
            MalValue::Bool(b) => MalValue::Bool(*b),
            MalValue::Nil => MalValue::Nil,
            MalValue::Round(v) => MalValue::Round(clone_vec(v)),
            MalValue::Square(v) => MalValue::Square(clone_vec(v)),
            MalValue::Curly(v) => MalValue::Curly(clone_vec(v)),
            MalValue::BuiltinFunction(f) => MalValue::BuiltinFunction(f.clone()),
            MalValue::EOI => MalValue::EOI,
        }
    }
}

/// Why an evaluation failed.
#[derive(Debug, PartialEq, Eq)]
pub enum EvalError {
    /// No scope of the chain binds the symbol.
    UnboundSymbol(String),
    /// The head of a call did not evaluate to a function.
    NotCallable,
    /// A function or special form got the wrong number of arguments.
    ArityMismatch,
    /// An argument had the wrong shape.
    TypeError,
    /// The divisor of `/` was zero.
    DivideByZero,
    /// The binding list of `let*` had an odd number of elements.
    BindingArityError,
    /// The `&` of a parameter list was not followed by exactly one symbol.
    MalformedParams,
    /// Lists with elements had to be evaluated inside one another deeper
    /// than the runtime allows.
    DepthExceeded,
}

/// The mathematical model of an [`EvalError`].
pub ghost enum Failure {
    UnboundSymbol(Seq<char>),
    NotCallable,
    ArityMismatch,
    TypeError,
    DivideByZero,
    BindingArityError,
    MalformedParams,
    DepthExceeded,
}

impl View for EvalError {
    type V = Failure;

    open spec fn view(&self) -> Failure {
        match self {
            EvalError::UnboundSymbol(s) => Failure::UnboundSymbol(s@),
            EvalError::NotCallable => Failure::NotCallable,
            EvalError::ArityMismatch => Failure::ArityMismatch,
            EvalError::TypeError => Failure::TypeError,
            EvalError::DivideByZero => Failure::DivideByZero,
            EvalError::BindingArityError => Failure::BindingArityError,
            EvalError::MalformedParams => Failure::MalformedParams,
            EvalError::DepthExceeded => Failure::DepthExceeded,
        }
    }
}

impl Clone for EvalError {
    fn clone(&self) -> (r: EvalError)
        ensures
            r@ == self@,
    {
        match self {
            EvalError::UnboundSymbol(name) => EvalError::UnboundSymbol(name.clone()),
            EvalError::NotCallable => EvalError::NotCallable,
            EvalError::ArityMismatch => EvalError::ArityMismatch,
            EvalError::TypeError => EvalError::TypeError,
            EvalError::DivideByZero => EvalError::DivideByZero,
            EvalError::BindingArityError => EvalError::BindingArityError,
            EvalError::MalformedParams => EvalError::MalformedParams,
            EvalError::DepthExceeded => EvalError::DepthExceeded,
        }
    }
}

impl Failure {
    /// The failure in words.
    pub open spec fn message_spec(self) -> Seq<char> {
        match self {
            Failure::UnboundSymbol(name) => "Symbol '"@ + name + "' not found in environment"@,
            Failure::NotCallable => "First element is not a function"@,
            Failure::ArityMismatch => "Wrong number of arguments"@,
            Failure::TypeError => "Wrong type of argument"@,
            Failure::DivideByZero => "Division by 0"@,
            Failure::BindingArityError => "Bindings must be pairs"@,
            Failure::MalformedParams => "Expected exactly one symbol after &"@,
            Failure::DepthExceeded => "Calls are nested too deeply"@,
        }
    }
}

impl EvalError {
    /// The error in words.
    pub fn message(&self) -> (text: String)
        ensures
            text@ == self@.message_spec(),
    {
        let mut buf: Vec<char> = Vec::new();
        match self {
            EvalError::UnboundSymbol(name) => {
                push_str(&mut buf, "Symbol '");
                push_str(&mut buf, name.as_str());
                push_str(&mut buf, "' not found in environment");
            },
            EvalError::NotCallable => push_str(&mut buf, "First element is not a function"),
            EvalError::ArityMismatch => push_str(&mut buf, "Wrong number of arguments"),
            EvalError::TypeError => push_str(&mut buf, "Wrong type of argument"),
            EvalError::DivideByZero => push_str(&mut buf, "Division by 0"),
            EvalError::BindingArityError => push_str(&mut buf, "Bindings must be pairs"),
            EvalError::MalformedParams => push_str(&mut buf, "Expected exactly one symbol after &"),
            EvalError::DepthExceeded => push_str(&mut buf, "Calls are nested too deeply"),
        }
        chars_string(&buf)
    }
}

} // verus!
