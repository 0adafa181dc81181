use mal::env::Runtime;
use mal::eval::{
    apply_closure, def_bang, do_func, eval, eval_all, eval_ast, eval_last, fn_star,
    if_special_form, let_star,
};
use mal::reader::parse_input;
use mal::repl::{create_repl_env, depth_for_stack, rep, DEFAULT_DEPTH, STACK_PER_LEVEL};
use mal::types::{Env, EvalError, Function, MalValue, Primitive, SpecialForm};

fn sym(name: &str) -> MalValue {
    MalValue::Symbol(name.to_string())
}

fn num(n: i64) -> MalValue {
    MalValue::Number(n)
}

fn round(items: Vec<MalValue>) -> MalValue {
    MalValue::Round(items)
}

fn session() -> (Env, Runtime) {
    create_repl_env()
}

/// Evaluates the first form of `src` in `env`.
fn run(src: &str, env: Env, rt: &mut Runtime) -> Result<MalValue, EvalError> {
    let forms = parse_input(src).expect("the text is well formed");
    eval(&forms[0], env, rt)
}

#[test]
fn numbers_evaluate_to_themselves() {
    let (env, mut rt) = session();
    for n in [0i64, 1, -1, 42, i64::MAX, i64::MIN] {
        assert_eq!(eval(&num(n), env, &mut rt), Ok(num(n)));
    }
}

#[test]
fn self_evaluating_values_come_back_unchanged() {
    let (env, mut rt) = session();
    let values = vec![
        MalValue::Nil,
        MalValue::Bool(true),
        MalValue::Bool(false),
        MalValue::String("text".to_string()),
        MalValue::EOI,
        MalValue::BuiltinFunction(Function::Builtin(Primitive::Add)),
        MalValue::BuiltinFunction(Function::SpecialForm(SpecialForm::If)),
        round(vec![]),
        MalValue::Square(vec![]),
        MalValue::Curly(vec![]),
    ];
    for v in values {
        let once = eval(&v, env, &mut rt).unwrap();
        assert_eq!(once, v);
        let twice = eval(&once, env, &mut rt).unwrap();
        assert_eq!(twice, once);
    }
}

#[test]
fn empty_list_keeps_its_flavor() {
    let (env, mut rt) = session();
    assert!(matches!(eval(&round(vec![]), env, &mut rt), Ok(MalValue::Round(v)) if v.is_empty()));
    assert!(
        matches!(eval(&MalValue::Square(vec![]), env, &mut rt), Ok(MalValue::Square(v)) if v.is_empty())
    );
    assert!(
        matches!(eval(&MalValue::Curly(vec![]), env, &mut rt), Ok(MalValue::Curly(v)) if v.is_empty())
    );
}

#[test]
fn def_then_symbol_in_same_scope() {
    let (env, mut rt) = session();
    assert_eq!(run("(def! x 5)", env, &mut rt), Ok(num(5)));
    assert_eq!(run("x", env, &mut rt), Ok(num(5)));
}

#[test]
fn def_is_not_seen_in_sibling_scope() {
    let (root, mut rt) = session();
    let left = Env::new(Some(root.get_bindings()), &mut rt);
    let right = Env::new(Some(root.get_bindings()), &mut rt);
    assert_eq!(run("(def! x 5)", left, &mut rt), Ok(num(5)));
    assert_eq!(run("x", left, &mut rt), Ok(num(5)));
    assert_eq!(run("x", right, &mut rt), Err(EvalError::UnboundSymbol("x".to_string())));
    assert_eq!(run("x", root, &mut rt), Err(EvalError::UnboundSymbol("x".to_string())));
}

#[test]
fn def_in_unrelated_root_is_not_seen() {
    let (root, mut rt) = session();
    let island = Env::new(None, &mut rt);
    assert_eq!(run("(def! x 5)", root, &mut rt), Ok(num(5)));
    assert_eq!(eval(&sym("x"), island, &mut rt), Err(EvalError::UnboundSymbol("x".to_string())));
}

#[test]
fn unbound_symbol_fails() {
    let (env, mut rt) = session();
    assert_eq!(run("abc", env, &mut rt), Err(EvalError::UnboundSymbol("abc".to_string())));
}

#[test]
fn let_star_later_bindings_see_earlier_ones() {
    let (env, mut rt) = session();
    assert_eq!(run("(let* (a 1 b (+ a 1)) b)", env, &mut rt), Ok(num(2)));
}

#[test]
fn let_star_bindings_do_not_leak() {
    let (env, mut rt) = session();
    assert_eq!(run("(let* (a 1) a)", env, &mut rt), Ok(num(1)));
    assert_eq!(run("a", env, &mut rt), Err(EvalError::UnboundSymbol("a".to_string())));
}

#[test]
fn let_star_shadows_and_leaves_outer_binding() {
    let (env, mut rt) = session();
    assert_eq!(run("(def! a 10)", env, &mut rt), Ok(num(10)));
    assert_eq!(run("(let* (a 1) a)", env, &mut rt), Ok(num(1)));
    assert_eq!(run("a", env, &mut rt), Ok(num(10)));
}

#[test]
fn let_star_accepts_square_bindings() {
    let (env, mut rt) = session();
    assert_eq!(run("(let* [a 2 b 3] (* a b))", env, &mut rt), Ok(num(6)));
}

#[test]
fn let_star_odd_bindings_fail() {
    let (env, mut rt) = session();
    assert_eq!(run("(let* (a 1 b) a)", env, &mut rt), Err(EvalError::BindingArityError));
}

#[test]
fn let_star_wrong_shapes_fail() {
    let (env, mut rt) = session();
    assert_eq!(run("(let* (a 1))", env, &mut rt), Err(EvalError::ArityMismatch));
    assert_eq!(run("(let* 5 1)", env, &mut rt), Err(EvalError::TypeError));
    assert_eq!(run("(let* {a 1} a)", env, &mut rt), Err(EvalError::TypeError));
    assert_eq!(run("(let* (1 2) 3)", env, &mut rt), Err(EvalError::TypeError));
}

#[test]
fn let_star_runs_pairs_before_it_meets_a_bad_name() {
    let (env, mut rt) = session();
    assert_eq!(run("(let* (a (prn 1) 2 3) a)", env, &mut rt), Err(EvalError::TypeError));
    assert_eq!(rt.take_output(), vec!["1".to_string()]);
}

#[test]
fn variadic_closure_binds_rest() {
    let (env, mut rt) = session();
    assert_eq!(
        run("((fn* (a & rest) rest) 1 2 3)", env, &mut rt),
        Ok(round(vec![num(2), num(3)]))
    );
    let one = run("((fn* (a & rest) rest) 1)", env, &mut rt).unwrap();
    assert!(matches!(one, MalValue::Round(ref v) if v.is_empty()));
    assert_eq!(run("((fn* (a & rest) rest))", env, &mut rt), Err(EvalError::ArityMismatch));
}

#[test]
fn closure_without_rest_wants_exact_count() {
    let (env, mut rt) = session();
    assert_eq!(run("((fn* (a b) (+ a b)) 1 2)", env, &mut rt), Ok(num(3)));
    assert_eq!(run("((fn* (a b) (+ a b)) 1)", env, &mut rt), Err(EvalError::ArityMismatch));
    assert_eq!(run("((fn* (a b) (+ a b)) 1 2 3)", env, &mut rt), Err(EvalError::ArityMismatch));
    assert_eq!(run("((fn* () 7))", env, &mut rt), Ok(num(7)));
    assert_eq!(run("((fn* [] 7))", env, &mut rt), Ok(num(7)));
}

#[test]
fn closure_sees_defining_scope_not_calling_scope() {
    let (env, mut rt) = session();
    run("(def! x 1)", env, &mut rt).unwrap();
    run("(def! f (fn* () x))", env, &mut rt).unwrap();
    assert_eq!(run("(let* (x 2) (f))", env, &mut rt), Ok(num(1)));
}

#[test]
fn closure_sees_later_definitions_in_captured_scope() {
    let (env, mut rt) = session();
    run("(def! g (fn* () y))", env, &mut rt).unwrap();
    assert_eq!(run("(g)", env, &mut rt), Err(EvalError::UnboundSymbol("y".to_string())));
    run("(def! y 9)", env, &mut rt).unwrap();
    assert_eq!(run("(g)", env, &mut rt), Ok(num(9)));
}

#[test]
fn closure_captures_let_scope() {
    let (env, mut rt) = session();
    run("(def! adder (let* (n 10) (fn* (m) (+ n m))))", env, &mut rt).unwrap();
    assert_eq!(run("(adder 5)", env, &mut rt), Ok(num(15)));
    assert_eq!(run("n", env, &mut rt), Err(EvalError::UnboundSymbol("n".to_string())));
}

#[test]
fn recursive_function() {
    let (env, mut rt) = session();
    run("(def! fact (fn* (n) (if (<= n 1) 1 (* n (fact (- n 1))))))", env, &mut rt).unwrap();
    assert_eq!(run("(fact 10)", env, &mut rt), Ok(num(3628800)));
}

#[test]
fn fn_star_malformed_parameters() {
    let (env, mut rt) = session();
    assert_eq!(run("(fn* (a &) a)", env, &mut rt), Err(EvalError::MalformedParams));
    assert_eq!(run("(fn* (a & b c) a)", env, &mut rt), Err(EvalError::MalformedParams));
    assert_eq!(run("(fn* (a & 5) a)", env, &mut rt), Err(EvalError::MalformedParams));
    assert_eq!(run("(fn* (a 5) a)", env, &mut rt), Err(EvalError::TypeError));
    assert_eq!(run("(fn* (1 & b) 1)", env, &mut rt), Err(EvalError::TypeError));
    assert_eq!(run("(fn* 5 a)", env, &mut rt), Err(EvalError::TypeError));
    assert_eq!(run("(fn* {a} a)", env, &mut rt), Err(EvalError::TypeError));
    assert_eq!(run("(fn* (a))", env, &mut rt), Err(EvalError::ArityMismatch));
}

#[test]
fn fn_star_makes_closure_over_scope() {
    let (env, mut rt) = session();
    let args = vec![MalValue::Square(vec![sym("a"), sym("&"), sym("more")]), sym("a")];
    let made = fn_star(&args, env).unwrap();
    match made {
        MalValue::BuiltinFunction(Function::UserDefined { params, rest_param, body, env: captured }) => {
            assert_eq!(params, vec!["a".to_string()]);
            assert_eq!(rest_param, Some("more".to_string()));
            assert_eq!(body, vec![sym("a")]);
            assert_eq!(captured, env);
        }
        other => panic!("not a closure: {:?}", other),
    }
    assert_eq!(rt.scope_count(), 1);
    let _ = &mut rt;
}

#[test]
fn apply_closure_binds_positionally_in_new_scope() {
    let (env, mut rt) = session();
    let params = vec!["a".to_string(), "b".to_string()];
    let body = vec![round(vec![sym("-"), sym("a"), sym("b")])];
    let before = rt.scope_count();
    let r = apply_closure(&params, &None, &body, env, &[num(10), num(3)], &mut rt);
    assert_eq!(r, Ok(num(7)));
    assert_eq!(rt.scope_count(), before + 1);
    assert_eq!(env.get(&"a".to_string(), &rt), None);
}

#[test]
fn apply_closure_with_empty_body_gives_nil() {
    let (env, mut rt) = session();
    let r = apply_closure(&vec![], &None, &vec![], env, &[], &mut rt);
    assert_eq!(r, Ok(MalValue::Nil));
}

#[test]
fn round_and_square_lists_are_equal() {
    let (env, mut rt) = session();
    assert_eq!(run("(= (list 1 2) [1 2])", env, &mut rt), Ok(MalValue::Bool(true)));
    assert_eq!(run("(= [1 2] (list 1 2))", env, &mut rt), Ok(MalValue::Bool(true)));
    assert_eq!(run("(= (list 1 2) [1 3])", env, &mut rt), Ok(MalValue::Bool(false)));
    assert_eq!(run("(= (list 1 2) [1 2 3])", env, &mut rt), Ok(MalValue::Bool(false)));
    assert_eq!(run("(= {} {})", env, &mut rt), Ok(MalValue::Bool(true)));
    assert_eq!(run("(= {} [])", env, &mut rt), Ok(MalValue::Bool(false)));
}

#[test]
fn divide_by_zero_and_fixed_arity() {
    let (env, mut rt) = session();
    assert_eq!(run("(/ 10 0)", env, &mut rt), Err(EvalError::DivideByZero));
    assert_eq!(run("(+ 1 2 3)", env, &mut rt), Err(EvalError::ArityMismatch));
    assert_eq!(run("(+ 1)", env, &mut rt), Err(EvalError::ArityMismatch));
    assert_eq!(run("(+ 1 \"a\")", env, &mut rt), Err(EvalError::TypeError));
}

#[test]
fn head_that_is_not_callable_fails() {
    let (env, mut rt) = session();
    assert_eq!(run("(1 2 3)", env, &mut rt), Err(EvalError::NotCallable));
    assert_eq!(run("(\"f\" 1)", env, &mut rt), Err(EvalError::NotCallable));
    assert_eq!(run("(nil)", env, &mut rt), Err(EvalError::NotCallable));
}

#[test]
fn square_and_curly_lists_evaluate_elements_without_calling() {
    let (env, mut rt) = session();
    assert!(matches!(
        run("[(+ 1 2) 4]", env, &mut rt),
        Ok(MalValue::Square(ref v)) if v == &vec![num(3), num(4)]
    ));
    assert!(matches!(
        run("{(+ 1 2) 4}", env, &mut rt),
        Ok(MalValue::Curly(ref v)) if v == &vec![num(3), num(4)]
    ));
    assert_eq!(run("[+ zz]", env, &mut rt), Err(EvalError::UnboundSymbol("zz".to_string())));
}

#[test]
fn eval_ast_evaluates_elements_of_round_list_without_calling() {
    let (env, mut rt) = session();
    let ast = round(vec![num(1), round(vec![sym("+"), num(1), num(1)])]);
    assert!(matches!(
        eval_ast(&ast, env, &mut rt),
        Ok(MalValue::Round(ref v)) if v == &vec![num(1), num(2)]
    ));
    assert_eq!(eval_ast(&sym("nowhere"), env, &mut rt), Ok(sym("nowhere")));
    assert_eq!(eval_ast(&num(3), env, &mut rt), Ok(num(3)));
}

#[test]
fn eval_all_goes_left_to_right_and_stops_at_first_failure() {
    let (env, mut rt) = session();
    let forms = vec![
        round(vec![sym("prn"), num(1)]),
        round(vec![sym("prn"), num(2)]),
        sym("missing"),
        round(vec![sym("prn"), num(3)]),
    ];
    assert_eq!(eval_all(&forms, env, &mut rt), Err(EvalError::UnboundSymbol("missing".to_string())));
    assert_eq!(rt.take_output(), vec!["1".to_string(), "2".to_string()]);
    assert_eq!(eval_all(&[num(1), num(2)], env, &mut rt), Ok(vec![num(1), num(2)]));
    assert_eq!(eval_all(&[], env, &mut rt), Ok(vec![]));
}

#[test]
fn eval_last_returns_last_or_nil() {
    let (env, mut rt) = session();
    assert_eq!(eval_last(&[num(1), num(2), num(3)], env, &mut rt), Ok(num(3)));
    assert_eq!(eval_last(&[], env, &mut rt), Ok(MalValue::Nil));
}

#[test]
fn do_evaluates_in_order() {
    let (env, mut rt) = session();
    assert_eq!(run("(do (def! a 1) (def! b (+ a 1)) b)", env, &mut rt), Ok(num(2)));
    assert_eq!(run("(do)", env, &mut rt), Ok(MalValue::Nil));
    assert_eq!(do_func(&[num(4), num(5)], env, &mut rt), Ok(num(5)));
}

#[test]
fn state_before_a_failure_stays() {
    let (env, mut rt) = session();
    assert_eq!(
        run("(do (def! kept 1) (/ 1 0) (def! lost 2))", env, &mut rt),
        Err(EvalError::DivideByZero)
    );
    assert_eq!(run("kept", env, &mut rt), Ok(num(1)));
    assert_eq!(run("lost", env, &mut rt), Err(EvalError::UnboundSymbol("lost".to_string())));
}

#[test]
fn if_truthiness_and_untaken_branch() {
    let (env, mut rt) = session();
    assert_eq!(run("(if true 1 2)", env, &mut rt), Ok(num(1)));
    assert_eq!(run("(if false 1 2)", env, &mut rt), Ok(num(2)));
    assert_eq!(run("(if nil 1 2)", env, &mut rt), Ok(num(2)));
    assert_eq!(run("(if 0 1 2)", env, &mut rt), Ok(num(1)));
    assert_eq!(run("(if \"\" 1 2)", env, &mut rt), Ok(num(1)));
    assert_eq!(run("(if (list) 1 2)", env, &mut rt), Ok(num(1)));
    assert_eq!(run("(if false 1)", env, &mut rt), Ok(MalValue::Nil));
    assert_eq!(run("(if true 1 (/ 1 0))", env, &mut rt), Ok(num(1)));
    assert_eq!(run("(if false (/ 1 0) 2)", env, &mut rt), Ok(num(2)));
    assert_eq!(run("(if true)", env, &mut rt), Err(EvalError::ArityMismatch));
    assert_eq!(run("(if true 1 2 3)", env, &mut rt), Err(EvalError::ArityMismatch));
    assert_eq!(if_special_form(&[MalValue::Nil, num(1), num(2)], env, &mut rt), Ok(num(2)));
}

#[test]
fn def_bang_shapes() {
    let (env, mut rt) = session();
    assert_eq!(run("(def! 5 1)", env, &mut rt), Err(EvalError::TypeError));
    assert_eq!(run("(def! x)", env, &mut rt), Err(EvalError::ArityMismatch));
    assert_eq!(run("(def! x 1 2)", env, &mut rt), Err(EvalError::ArityMismatch));
    assert_eq!(run("(def! x (/ 1 0))", env, &mut rt), Err(EvalError::DivideByZero));
    assert_eq!(run("x", env, &mut rt), Err(EvalError::UnboundSymbol("x".to_string())));
    assert_eq!(def_bang(&[sym("y"), num(3)], env, &mut rt), Ok(num(3)));
    assert_eq!(env.get(&"y".to_string(), &rt), Some(num(3)));
}

#[test]
fn def_overwrites_in_place() {
    let (env, mut rt) = session();
    run("(def! x 1)", env, &mut rt).unwrap();
    run("(def! x 2)", env, &mut rt).unwrap();
    assert_eq!(run("x", env, &mut rt), Ok(num(2)));
}

#[test]
fn let_star_function_directly() {
    let (env, mut rt) = session();
    let args = vec![round(vec![sym("a"), num(4)]), round(vec![sym("*"), sym("a"), sym("a")])];
    let before = rt.scope_count();
    assert_eq!(let_star(&args, env, &mut rt), Ok(num(16)));
    assert_eq!(rt.scope_count(), before + 1);
}

#[test]
fn runaway_recursion_ends_with_depth_error() {
    let (env, mut rt) = session();
    run("(def! forever (fn* (n) (forever (+ n 1))))", env, &mut rt).unwrap();
    assert_eq!(run("(forever 0)", env, &mut rt), Err(EvalError::DepthExceeded));
    assert_eq!(rt.depth_left(), DEFAULT_DEPTH);
    assert_eq!(run("(+ 1 2)", env, &mut rt), Ok(num(3)));
}

#[test]
fn default_depth_admits_341_nested_calls_of_a_simple_function() {
    let (env, mut rt) = session();
    assert_eq!(DEFAULT_DEPTH, 1024);
    run("(def! f (fn* (n) (if (= n 0) 0 (+ n (f (- n 1))))))", env, &mut rt).unwrap();
    assert_eq!(run("(f 340)", env, &mut rt), Ok(num(57970)));
    assert_eq!(run("(f 341)", env, &mut rt), Err(EvalError::DepthExceeded));
    assert_eq!(rt.depth_left(), DEFAULT_DEPTH);
    rt.set_depth(DEFAULT_DEPTH + 3);
    assert_eq!(run("(f 341)", env, &mut rt), Ok(num(58311)));
}

#[test]
fn a_level_is_taken_by_each_list_with_elements_inside_another() {
    let (env, mut rt) = session();
    rt.set_depth(3);
    assert_eq!(run("(+ 1 (+ 1 (+ 1 1)))", env, &mut rt), Ok(num(4)));
    assert_eq!(run("(+ 1 (+ 1 (+ 1 (+ 1 1))))", env, &mut rt), Err(EvalError::DepthExceeded));
    assert_eq!(run("[1 [2 [3]]]", env, &mut rt).is_ok(), true);
    assert_eq!(run("[1 [2 [3 [4]]]]", env, &mut rt), Err(EvalError::DepthExceeded));
    assert_eq!(run("(do (+ 1 (+ 1 1)) (+ 2 (+ 2 2)) (+ 3 (+ 3 3)))", env, &mut rt), Ok(num(9)));
    assert_eq!(run("(if true (if true (if true 1)))", env, &mut rt), Ok(num(1)));
    assert_eq!(run("(if true (if true (if true ())))", env, &mut rt).is_ok(), true);
    assert_eq!(
        run("(if true (if true (if true (list 1))))", env, &mut rt),
        Err(EvalError::DepthExceeded)
    );
    assert_eq!(run("((fn* (a) a) 1)", env, &mut rt), Ok(num(1)));
    assert_eq!(run("((fn* (a) (+ a (+ a a))) 1)", env, &mut rt), Ok(num(3)));
    assert_eq!(run("((fn* (a) (+ a (+ a (+ a a)))) 1)", env, &mut rt), Err(EvalError::DepthExceeded));
}

#[test]
fn greater_depth_gives_the_same_result() {
    let sources = [
        "(let* (a 2 b (* a a)) [a b (if (< a b) \"less\" nil)])",
        "((fn* (a & more) (list a (count more))) 1 2 3)",
        "(do (def! seen 7) (/ seen 0))",
        "(undefined 1)",
        "(fn* (a &) a)",
    ];
    for src in sources {
        let (env, mut rt) = session();
        rt.set_depth(4);
        let shallow = run(src, env, &mut rt);
        assert_ne!(shallow, Err(EvalError::DepthExceeded), "{}", src);
        let shallow_seen = env.get(&"seen".to_string(), &rt);
        let (deep_env, mut deep_rt) = session();
        deep_rt.set_depth(400);
        assert_eq!(run(src, deep_env, &mut deep_rt), shallow, "{}", src);
        assert_eq!(deep_env.get(&"seen".to_string(), &deep_rt), shallow_seen);
        assert_eq!(deep_rt.scope_count(), rt.scope_count());
    }
}

#[test]
fn depth_follows_the_stack() {
    assert_eq!(STACK_PER_LEVEL, 2048);
    assert_eq!(depth_for_stack(2 * 1024 * 1024), DEFAULT_DEPTH);
    assert_eq!(depth_for_stack(64 * 1024 * 1024), 32768);
    assert_eq!(depth_for_stack(2047), 0);
    assert_eq!(depth_for_stack(2048), 1);
    assert_eq!(depth_for_stack(0), 0);
}

#[test]
fn depth_zero_still_evaluates_atoms() {
    let (env, mut rt) = session();
    rt.set_depth(0);
    assert_eq!(eval(&num(1), env, &mut rt), Ok(num(1)));
    assert_eq!(eval(&sym("+"), env, &mut rt).is_ok(), true);
    assert_eq!(run("(+ 1 2)", env, &mut rt), Err(EvalError::DepthExceeded));
    assert_eq!(run("[1]", env, &mut rt), Err(EvalError::DepthExceeded));
    rt.set_depth(1);
    assert_eq!(run("(+ 1 2)", env, &mut rt), Ok(num(3)));
    assert_eq!(run("(+ 1 (+ 1 1))", env, &mut rt), Err(EvalError::DepthExceeded));
}

#[test]
fn rep_prints_values_and_errors() {
    let (env, mut rt) = session();
    assert_eq!(rep("(+ 1 2)".to_string(), env, &mut rt), "3");
    assert_eq!(rep("1 \"a\" (list 1 [2])".to_string(), env, &mut rt), "1 \"a\" (1 [2])");
    assert_eq!(rep("".to_string(), env, &mut rt), "");
    assert_eq!(rep("; only a comment".to_string(), env, &mut rt), "");
    assert_eq!(rep("(/ 1 0)".to_string(), env, &mut rt), "Error: Division by 0");
    assert_eq!(
        rep("abc".to_string(), env, &mut rt),
        "Error: Symbol 'abc' not found in environment"
    );
    assert_eq!(
        rep("(1 2".to_string(), env, &mut rt),
        "Error: \"unbalanced input: expected a form or ')' at 4\""
    );
    assert_eq!(
        rep("\"abc".to_string(), env, &mut rt),
        "Error: \"unbalanced input: expected '\\\"' at 4\""
    );
    assert_eq!(rep("(fn* (a) a)".to_string(), env, &mut rt), "<#function>");
    assert_eq!(rep("+".to_string(), env, &mut rt), "<#builtin function>");
    assert_eq!(rep("if".to_string(), env, &mut rt), "<#special form>");
}

#[test]
fn rep_keeps_definitions_between_lines() {
    let (env, mut rt) = session();
    assert_eq!(rep("(def! not (fn* (a) (if a false true)))".to_string(), env, &mut rt), "<#function>");
    assert_eq!(rep("(not false)".to_string(), env, &mut rt), "true");
    assert_eq!(rep("(not 1)".to_string(), env, &mut rt), "false");
}

#[test]
fn prn_and_println_write_lines() {
    let (env, mut rt) = session();
    assert_eq!(rep("(prn \"a\\nb\" 1)".to_string(), env, &mut rt), "nil");
    assert_eq!(rep("(println \"a b\" 1)".to_string(), env, &mut rt), "nil");
    assert_eq!(rt.take_output(), vec!["\"a\\nb\" 1".to_string(), "a b1".to_string()]);
    assert_eq!(rt.take_output(), Vec::<String>::new());
}

#[test]
fn every_error_has_its_words() {
    assert_eq!(EvalError::UnboundSymbol("x".to_string()).message(), "Symbol 'x' not found in environment");
    assert_eq!(EvalError::NotCallable.message(), "First element is not a function");
    assert_eq!(EvalError::ArityMismatch.message(), "Wrong number of arguments");
    assert_eq!(EvalError::TypeError.message(), "Wrong type of argument");
    assert_eq!(EvalError::DivideByZero.message(), "Division by 0");
    assert_eq!(EvalError::BindingArityError.message(), "Bindings must be pairs");
    assert_eq!(EvalError::MalformedParams.message(), "Expected exactly one symbol after &");
    assert_eq!(EvalError::DepthExceeded.message(), "Calls are nested too deeply");
}
