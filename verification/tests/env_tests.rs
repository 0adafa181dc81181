use mal::env::{Bindings, Runtime};
use mal::repl::{create_repl_env, DEFAULT_DEPTH};
use mal::types::{Env, Function, MalValue, Primitive, SpecialForm};

fn key(name: &str) -> String {
    name.to_string()
}

#[test]
fn bindings_set_then_find() {
    let mut scope = Bindings::new(None);
    assert_eq!(scope.find(&key("a")), None);
    scope.set(key("a"), MalValue::Number(1));
    scope.set(key("b"), MalValue::Number(2));
    assert_eq!(scope.find(&key("a")), Some(MalValue::Number(1)));
    assert_eq!(scope.find(&key("b")), Some(MalValue::Number(2)));
    assert_eq!(scope.find(&key("c")), None);
    assert_eq!(scope.parent(), None);
}

#[test]
fn bindings_set_overwrites() {
    let mut scope = Bindings::new(Some(3));
    scope.set(key("a"), MalValue::Number(1));
    scope.set(key("b"), MalValue::Number(2));
    scope.set(key("a"), MalValue::Nil);
    assert_eq!(scope.find(&key("a")), Some(MalValue::Nil));
    assert_eq!(scope.find(&key("b")), Some(MalValue::Number(2)));
    assert_eq!(scope.parent(), Some(3));
}

#[test]
fn bindings_get_asks_the_scopes_above() {
    let mut rt = Runtime::new(4);
    let root = Env::new(None, &mut rt);
    let middle = Env::new(Some(root.get_bindings()), &mut rt);
    root.set(key("a"), MalValue::Number(1), &mut rt);
    root.set(key("b"), MalValue::Number(2), &mut rt);
    middle.set(key("b"), MalValue::Number(20), &mut rt);
    let mut scope = Bindings::new(Some(middle.get_bindings()));
    scope.set(key("c"), MalValue::Number(300));
    assert_eq!(scope.get(&key("c"), &rt), Some(MalValue::Number(300)));
    assert_eq!(scope.get(&key("b"), &rt), Some(MalValue::Number(20)));
    assert_eq!(scope.get(&key("a"), &rt), Some(MalValue::Number(1)));
    assert_eq!(scope.get(&key("d"), &rt), None);
    assert_eq!(scope.find(&key("a")), None);
    let lonely = Bindings::new(None);
    assert_eq!(lonely.get(&key("a"), &rt), None);
}

#[test]
fn env_get_walks_the_chain() {
    let mut rt = Runtime::new(4);
    let root = Env::new(None, &mut rt);
    let child = Env::new(Some(root.get_bindings()), &mut rt);
    let grandchild = Env::new(Some(child.get_bindings()), &mut rt);
    root.set(key("a"), MalValue::Number(1), &mut rt);
    child.set(key("b"), MalValue::Number(2), &mut rt);
    assert_eq!(grandchild.get(&key("a"), &rt), Some(MalValue::Number(1)));
    assert_eq!(grandchild.get(&key("b"), &rt), Some(MalValue::Number(2)));
    assert_eq!(grandchild.get(&key("c"), &rt), None);
    assert_eq!(root.get(&key("b"), &rt), None);
    assert_eq!(rt.scope_count(), 3);
}

#[test]
fn env_set_touches_innermost_scope_only() {
    let mut rt = Runtime::new(4);
    let root = Env::new(None, &mut rt);
    let child = Env::new(Some(root.get_bindings()), &mut rt);
    root.set(key("a"), MalValue::Number(1), &mut rt);
    child.set(key("a"), MalValue::Number(2), &mut rt);
    assert_eq!(child.get(&key("a"), &rt), Some(MalValue::Number(2)));
    assert_eq!(root.get(&key("a"), &rt), Some(MalValue::Number(1)));
}

#[test]
fn env_handles_count_up() {
    let mut rt = Runtime::new(4);
    let a = Env::new(None, &mut rt);
    let b = Env::new(None, &mut rt);
    assert_eq!(a.get_bindings(), 0);
    assert_eq!(b.get_bindings(), 1);
    assert_eq!(a, Env { bindings: 0 });
}

#[test]
fn runtime_depth_and_output() {
    let mut rt = Runtime::new(7);
    assert_eq!(rt.depth_left(), 7);
    rt.set_depth(9);
    assert_eq!(rt.depth_left(), 9);
    assert_eq!(rt.scope_count(), 0);
    rt.write_line(key("one"));
    rt.write_line(key("two"));
    assert_eq!(rt.take_output(), vec![key("one"), key("two")]);
    assert_eq!(rt.take_output(), Vec::<String>::new());
}

#[test]
fn root_scope_binds_every_primitive_and_form() {
    let (root, rt) = create_repl_env();
    assert_eq!(root.get_bindings(), 0);
    assert_eq!(rt.scope_count(), 1);
    assert_eq!(rt.depth_left(), DEFAULT_DEPTH);
    let primitives = [
        ("+", Primitive::Add),
        ("-", Primitive::Sub),
        ("*", Primitive::Mult),
        ("/", Primitive::Divide),
        ("list", Primitive::List),
        ("list?", Primitive::ListQuestion),
        ("empty?", Primitive::EmptyQuestion),
        ("count", Primitive::Count),
        ("=", Primitive::Equals),
        ("prn", Primitive::Prn),
        ("pr-str", Primitive::PrStr),
        ("str", Primitive::Str),
        ("println", Primitive::Println),
        ("<", Primitive::LessThan),
        ("<=", Primitive::LessThanOrEqual),
        (">", Primitive::GreaterThan),
        (">=", Primitive::GreaterThanOrEqual),
    ];
    for (name, p) in primitives {
        assert_eq!(
            root.get(&key(name), &rt),
            Some(MalValue::BuiltinFunction(Function::Builtin(p))),
            "{}",
            name
        );
    }
    let forms = [
        ("def!", SpecialForm::Def),
        ("let*", SpecialForm::Let),
        ("do", SpecialForm::Do),
        ("fn*", SpecialForm::Fn),
        ("if", SpecialForm::If),
    ];
    for (name, f) in forms {
        assert_eq!(
            root.get(&key(name), &rt),
            Some(MalValue::BuiltinFunction(Function::SpecialForm(f))),
            "{}",
            name
        );
    }
    assert_eq!(root.get(&key("quote"), &rt), None);
}

#[test]
fn clone_is_deep_and_equal() {
    let v = MalValue::Round(vec![
        MalValue::String(key("a")),
        MalValue::Curly(vec![MalValue::Number(1)]),
        MalValue::BuiltinFunction(Function::UserDefined {
            params: vec![key("p")],
            rest_param: Some(key("r")),
            body: vec![MalValue::Symbol(key("p"))],
            env: Env { bindings: 2 },
        }),
    ]);
    let copy = v.clone();
    assert_eq!(copy, v);
    match copy {
        MalValue::Round(items) => match &items[2] {
            MalValue::BuiltinFunction(Function::UserDefined { params, rest_param, body, env }) => {
                assert_eq!(params, &vec![key("p")]);
                assert_eq!(rest_param, &Some(key("r")));
                assert_eq!(body, &vec![MalValue::Symbol(key("p"))]);
                assert_eq!(env.bindings, 2);
            }
            other => panic!("not a closure: {:?}", other),
        },
        other => panic!("not a list: {:?}", other),
    }
}

#[test]
fn equality_distinguishes_variants() {
    assert_ne!(MalValue::Nil, MalValue::EOI);
    assert_ne!(MalValue::Number(0), MalValue::Nil);
    assert_ne!(MalValue::String(key("a")), MalValue::Symbol(key("a")));
    assert_eq!(MalValue::EOI, MalValue::EOI);
    assert_ne!(MalValue::Curly(vec![]), MalValue::Round(vec![]));
    assert_eq!(MalValue::Square(vec![]), MalValue::Round(vec![]));
    assert!(MalValue::Number(3).equal_to(&MalValue::Number(3)));
    assert!(!Function::Builtin(Primitive::Add).equal_to(&Function::SpecialForm(SpecialForm::Do)));
}
