use mal::printer::{escape_string, pr_seq, pr_str};
use mal::reader::{parse_input, read_form, read_list, unescape_string, Expected, MalParser, ParseError};
use mal::repl::{print, read};
use mal::text::{chars_string, digit_of, digit_of_char, push_decimal, push_digits, push_str, string_chars};
use mal::types::{Env, Flavor, Function, MalValue, Primitive, SpecialForm};

fn sym(name: &str) -> MalValue {
    MalValue::Symbol(name.to_string())
}

fn num(n: i64) -> MalValue {
    MalValue::Number(n)
}

fn text(s: &str) -> MalValue {
    MalValue::String(s.to_string())
}

/// The forms of `src`, without the mark of the end of input.
fn forms(src: &str) -> Vec<MalValue> {
    let mut all = parse_input(src).expect("the text is well formed");
    assert_eq!(all.pop(), Some(MalValue::EOI));
    all
}

fn exactly(a: &MalValue, b: &MalValue) -> bool {
    format!("{:?}", a) == format!("{:?}", b)
}

#[test]
fn reads_atoms() {
    assert!(exactly(&forms("nil")[0], &MalValue::Nil));
    assert!(exactly(&forms("true")[0], &MalValue::Bool(true)));
    assert!(exactly(&forms("false")[0], &MalValue::Bool(false)));
    assert!(exactly(&forms("123")[0], &num(123)));
    assert!(exactly(&forms("-45")[0], &num(-45)));
    assert!(exactly(&forms("0")[0], &num(0)));
    assert!(exactly(&forms("007")[0], &num(7)));
    assert!(exactly(&forms("abc")[0], &sym("abc")));
    assert!(exactly(&forms("-")[0], &sym("-")));
    assert!(exactly(&forms("-a")[0], &sym("-a")));
    assert!(exactly(&forms("1a")[0], &sym("1a")));
    assert!(exactly(&forms("nilly")[0], &sym("nilly")));
    assert!(exactly(&forms("def!")[0], &sym("def!")));
    assert!(exactly(&forms(">=")[0], &sym(">=")));
}

#[test]
fn reads_numbers_at_the_ends_of_the_range() {
    assert!(exactly(&forms("9223372036854775807")[0], &num(i64::MAX)));
    assert!(exactly(&forms("-9223372036854775808")[0], &num(i64::MIN)));
    assert_eq!(
        parse_input("9223372036854775808"),
        Err(ParseError { location: 0, expected: Expected::Number })
    );
    assert_eq!(
        parse_input(" -9223372036854775809"),
        Err(ParseError { location: 1, expected: Expected::Number })
    );
    assert_eq!(
        parse_input("(1 99999999999999999999999999999999999999999)"),
        Err(ParseError { location: 3, expected: Expected::Number })
    );
}

#[test]
fn reads_lists_of_each_flavor() {
    assert!(exactly(&forms("(1 2)")[0], &MalValue::Round(vec![num(1), num(2)])));
    assert!(exactly(&forms("[1 2]")[0], &MalValue::Square(vec![num(1), num(2)])));
    assert!(exactly(&forms("{1 2}")[0], &MalValue::Curly(vec![num(1), num(2)])));
    assert!(exactly(&forms("()")[0], &MalValue::Round(vec![])));
    assert!(exactly(
        &forms("(+ 1 (* 2 [3]))")[0],
        &MalValue::Round(vec![
            sym("+"),
            num(1),
            MalValue::Round(vec![sym("*"), num(2), MalValue::Square(vec![num(3)])]),
        ])
    ));
}

#[test]
fn blanks_commas_and_comments_separate_forms() {
    assert_eq!(forms(" ( 1 ,, 2\t\n3 ) "), vec![MalValue::Round(vec![num(1), num(2), num(3)])]);
    assert_eq!(forms("1 ; one\n2 ; two"), vec![num(1), num(2)]);
    assert_eq!(forms("(1 ; inside\n 2)"), vec![MalValue::Round(vec![num(1), num(2)])]);
    assert_eq!(forms("a(b)c"), vec![sym("a"), MalValue::Round(vec![sym("b")]), sym("c")]);
    assert_eq!(forms("1\"a\"2"), vec![num(1), text("a"), num(2)]);
}

#[test]
fn parse_ends_with_end_of_input_mark() {
    assert_eq!(parse_input(""), Ok(vec![MalValue::EOI]));
    assert_eq!(parse_input("   ; nothing"), Ok(vec![MalValue::EOI]));
    assert_eq!(parse_input("1 2"), Ok(vec![num(1), num(2), MalValue::EOI]));
    assert_eq!(read("x".to_string()), Ok(vec![sym("x"), MalValue::EOI]));
    assert_eq!(MalParser::new("(a)").parse(), Ok(vec![MalValue::Round(vec![sym("a")]), MalValue::EOI]));
}

#[test]
fn reads_strings_with_escapes() {
    assert_eq!(forms("\"abc\""), vec![text("abc")]);
    assert_eq!(forms("\"\""), vec![text("")]);
    assert_eq!(forms("\"a\\nb\""), vec![text("a\nb")]);
    assert_eq!(forms("\"a\\tb\\rc\""), vec![text("a\tb\rc")]);
    assert_eq!(forms("\"q\\\"q\""), vec![text("q\"q")]);
    assert_eq!(forms("\"b\\\\b\""), vec![text("b\\b")]);
    assert_eq!(forms("\"x\\yz\""), vec![text("x\\yz")]);
    assert_eq!(forms("\"(1 2) ; no comment\""), vec![text("(1 2) ; no comment")]);
    assert_eq!(forms("\"\u{e9}\u{4e16}\""), vec![text("\u{e9}\u{4e16}")]);
}

#[test]
fn unescape_string_cases() {
    assert_eq!(unescape_string("a\\nb"), "a\nb");
    assert_eq!(unescape_string("\\\\"), "\\");
    assert_eq!(unescape_string("\\\""), "\"");
    assert_eq!(unescape_string("\\t\\r"), "\t\r");
    assert_eq!(unescape_string("\\q"), "\\q");
    assert_eq!(unescape_string("end\\"), "end\\");
    assert_eq!(unescape_string(""), "");
    assert_eq!(unescape_string("plain"), "plain");
}

#[test]
fn escape_string_cases() {
    assert_eq!(escape_string("a\nb"), "a\\nb");
    assert_eq!(escape_string("\\"), "\\\\");
    assert_eq!(escape_string("\""), "\\\"");
    assert_eq!(escape_string("\t\r"), "\\t\\r");
    assert_eq!(escape_string("plain \u{e9}"), "plain \u{e9}");
    assert_eq!(escape_string(""), "");
}

#[test]
fn unescape_undoes_escape() {
    for s in ["", "a", "\\", "\"", "\n\r\t", "a\\nb", "\\\\\"", "x\\", "\u{e9}\"\u{4e16}\\"] {
        assert_eq!(unescape_string(&escape_string(s)), s);
    }
}

#[test]
fn reads_prefixes() {
    assert_eq!(forms("'a"), vec![MalValue::Round(vec![sym("quote"), sym("a")])]);
    assert_eq!(forms("`a"), vec![MalValue::Round(vec![sym("quasiquote"), sym("a")])]);
    assert_eq!(forms("~a"), vec![MalValue::Round(vec![sym("unquote"), sym("a")])]);
    assert_eq!(forms("~@a"), vec![MalValue::Round(vec![sym("splice-unquote"), sym("a")])]);
    assert_eq!(forms("@a"), vec![MalValue::Round(vec![sym("deref"), sym("a")])]);
    assert_eq!(
        forms("^{a 1} [2]"),
        vec![MalValue::Round(vec![
            sym("with-meta"),
            MalValue::Square(vec![num(2)]),
            MalValue::Curly(vec![sym("a"), num(1)]),
        ])]
    );
    assert_eq!(
        forms("' (1 'b)"),
        vec![MalValue::Round(vec![
            sym("quote"),
            MalValue::Round(vec![num(1), MalValue::Round(vec![sym("quote"), sym("b")])]),
        ])]
    );
    assert!(exactly(&forms("'()")[0], &MalValue::Round(vec![sym("quote"), MalValue::Round(vec![])])));
}

#[test]
fn syntax_errors_say_where_and_what() {
    assert_eq!(
        parse_input("(1 2"),
        Err(ParseError { location: 4, expected: Expected::FormOrClose(Flavor::Round) })
    );
    assert_eq!(
        parse_input("[1 2"),
        Err(ParseError { location: 4, expected: Expected::FormOrClose(Flavor::Square) })
    );
    assert_eq!(
        parse_input("{"),
        Err(ParseError { location: 1, expected: Expected::FormOrClose(Flavor::Curly) })
    );
    assert_eq!(
        parse_input("(1 2]"),
        Err(ParseError { location: 4, expected: Expected::FormOrClose(Flavor::Round) })
    );
    assert_eq!(parse_input(")"), Err(ParseError { location: 0, expected: Expected::Form }));
    assert_eq!(parse_input("1 ]"), Err(ParseError { location: 2, expected: Expected::Form }));
    assert_eq!(
        parse_input("\"abc"),
        Err(ParseError { location: 4, expected: Expected::ClosingQuote })
    );
    assert_eq!(
        parse_input("\"abc\\\""),
        Err(ParseError { location: 6, expected: Expected::ClosingQuote })
    );
    assert_eq!(
        parse_input("\"abc\\"),
        Err(ParseError { location: 5, expected: Expected::ClosingQuote })
    );
    assert_eq!(parse_input("'"), Err(ParseError { location: 1, expected: Expected::Form }));
    assert_eq!(parse_input("' )"), Err(ParseError { location: 2, expected: Expected::Form }));
    assert_eq!(parse_input("^a"), Err(ParseError { location: 2, expected: Expected::Form }));
    assert_eq!(parse_input("^"), Err(ParseError { location: 1, expected: Expected::Form }));
}

#[test]
fn syntax_errors_in_words() {
    assert_eq!(
        ParseError { location: 4, expected: Expected::FormOrClose(Flavor::Round) }.message(),
        "unbalanced input: expected a form or ')' at 4"
    );
    assert_eq!(
        ParseError { location: 12, expected: Expected::FormOrClose(Flavor::Square) }.message(),
        "unbalanced input: expected a form or ']' at 12"
    );
    assert_eq!(
        ParseError { location: 0, expected: Expected::FormOrClose(Flavor::Curly) }.message(),
        "unbalanced input: expected a form or '}' at 0"
    );
    assert_eq!(
        ParseError { location: 3, expected: Expected::Form }.message(),
        "unexpected input: expected a form at 3"
    );
    assert_eq!(
        ParseError { location: 3, expected: Expected::ClosingQuote }.message(),
        "unbalanced input: expected '\"' at 3"
    );
    assert_eq!(
        ParseError { location: 3, expected: Expected::Number }.message(),
        "number out of range: expected an integer of 64 bits at 3"
    );
}

#[test]
fn read_form_and_read_list_report_where_they_stopped() {
    let chars: Vec<char> = "(a b) c".chars().collect();
    let (form, next) = read_form(&chars, 0).unwrap();
    assert!(exactly(&form, &MalValue::Round(vec![sym("a"), sym("b")])));
    assert_eq!(next, 5);
    let (items, after) = read_list(&chars, 1, Flavor::Round).unwrap();
    assert_eq!(items, vec![sym("a"), sym("b")]);
    assert_eq!(after, 5);
    let (atom, end) = read_form(&chars, 6).unwrap();
    assert_eq!(atom, sym("c"));
    assert_eq!(end, 7);
}

#[test]
fn prints_atoms() {
    assert_eq!(pr_str(&MalValue::Nil, true), "nil");
    assert_eq!(pr_str(&MalValue::Bool(true), true), "true");
    assert_eq!(pr_str(&MalValue::Bool(false), false), "false");
    assert_eq!(pr_str(&num(0), true), "0");
    assert_eq!(pr_str(&num(7), true), "7");
    assert_eq!(pr_str(&num(10), true), "10");
    assert_eq!(pr_str(&num(-120), true), "-120");
    assert_eq!(pr_str(&num(i64::MAX), true), "9223372036854775807");
    assert_eq!(pr_str(&num(i64::MIN), true), "-9223372036854775808");
    assert_eq!(pr_str(&sym("a-b"), true), "a-b");
    assert_eq!(pr_str(&MalValue::EOI, true), "");
}

#[test]
fn prints_strings_in_both_modes() {
    assert_eq!(pr_str(&text("a\"b\\c\nd\te\rf"), true), "\"a\\\"b\\\\c\\nd\\te\\rf\"");
    assert_eq!(pr_str(&text("a\"b\\c\nd"), false), "a\"b\\c\nd");
    assert_eq!(pr_str(&text(""), true), "\"\"");
    assert_eq!(pr_str(&text(""), false), "");
    assert_eq!(pr_str(&text("\u{e9}"), true), "\"\u{e9}\"");
}

#[test]
fn prints_lists_with_their_delimiters() {
    assert_eq!(pr_str(&MalValue::Round(vec![num(1), text("a"), sym("b")]), true), "(1 \"a\" b)");
    assert_eq!(pr_str(&MalValue::Round(vec![num(1), text("a"), sym("b")]), false), "(1 a b)");
    assert_eq!(pr_str(&MalValue::Square(vec![num(1), MalValue::Round(vec![])]), true), "[1 ()]");
    assert_eq!(pr_str(&MalValue::Curly(vec![sym("k"), num(1)]), true), "{k 1}");
    assert_eq!(pr_str(&MalValue::Round(vec![]), true), "()");
    assert_eq!(pr_str(&MalValue::Square(vec![]), true), "[]");
    assert_eq!(pr_str(&MalValue::Curly(vec![]), true), "{}");
    assert_eq!(pr_str(&MalValue::Round(vec![num(1)]), true), "(1)");
}

#[test]
fn prints_callables_as_tags() {
    assert_eq!(
        pr_str(&MalValue::BuiltinFunction(Function::Builtin(Primitive::Add)), true),
        "<#builtin function>"
    );
    assert_eq!(
        pr_str(&MalValue::BuiltinFunction(Function::SpecialForm(SpecialForm::Let)), true),
        "<#special form>"
    );
    let closure = MalValue::BuiltinFunction(Function::UserDefined {
        params: vec!["secret".to_string()],
        rest_param: None,
        body: vec![num(42)],
        env: Env { bindings: 0 },
    });
    assert_eq!(pr_str(&closure, true), "<#function>");
    assert_eq!(pr_str(&closure, false), "<#function>");
}

#[test]
fn pr_seq_and_print_join_values() {
    let values = vec![num(1), text("a"), MalValue::Nil];
    assert_eq!(pr_seq(&values, " ", true), "1 \"a\" nil");
    assert_eq!(pr_seq(&values, "", false), "1anil");
    assert_eq!(pr_seq(&values, ", ", false), "1, a, nil");
    assert_eq!(pr_seq(&[], " ", true), "");
    assert_eq!(print(&values), "1 \"a\" nil");
    assert_eq!(print(&vec![]), "");
}

#[test]
fn reading_undoes_readable_printing() {
    let values = vec![
        MalValue::Nil,
        MalValue::Bool(true),
        MalValue::Bool(false),
        num(0),
        num(-1),
        num(i64::MAX),
        num(i64::MIN),
        text(""),
        text("a b"),
        text("q\"u\\o\nt\te\rd"),
        text("\\n"),
        text("; ( ] ' ~@"),
        sym("abc"),
        sym("-"),
        sym("a1"),
        sym("+"),
        sym("truest"),
        MalValue::Round(vec![]),
        MalValue::Square(vec![]),
        MalValue::Curly(vec![]),
        MalValue::Round(vec![num(1), num(2), num(3)]),
        MalValue::Square(vec![text("x"), MalValue::Round(vec![sym("f"), MalValue::Curly(vec![num(-5)])])]),
        MalValue::Round(vec![MalValue::Round(vec![MalValue::Round(vec![])])]),
        MalValue::Round(vec![sym("quote"), sym("a")]),
    ];
    for v in values {
        let printed = pr_str(&v, true);
        let parsed = parse_input(&printed).unwrap();
        assert_eq!(parsed.len(), 2, "{}", printed);
        assert!(exactly(&parsed[0], &v), "{}", printed);
        assert!(exactly(&parsed[1], &MalValue::EOI));
    }
}

#[test]
fn string_and_character_conversions() {
    assert_eq!(string_chars("a\u{e9}b"), vec!['a', '\u{e9}', 'b']);
    assert_eq!(string_chars(""), Vec::<char>::new());
    assert_eq!(chars_string(&vec!['x', '\u{4e16}', 'y']), "x\u{4e16}y");
    assert_eq!(chars_string(&vec![]), "");
    let mut buf = vec!['>'];
    push_str(&mut buf, "ab");
    assert_eq!(buf, vec!['>', 'a', 'b']);
}

#[test]
fn decimal_notation() {
    let mut buf = Vec::new();
    push_digits(0, &mut buf);
    push_digits(u64::MAX, &mut buf);
    assert_eq!(chars_string(&buf), "018446744073709551615");
    let mut signed = Vec::new();
    push_decimal(-907, &mut signed);
    push_decimal(12, &mut signed);
    assert_eq!(chars_string(&signed), "-90712");
    for d in 0..10u64 {
        let c = digit_of(d);
        assert_eq!(c, char::from_digit(d as u32, 10).unwrap());
        assert_eq!(digit_of_char(c), Some(d));
    }
    assert_eq!(digit_of_char('a'), None);
    assert_eq!(digit_of_char('-'), None);
    assert_eq!(digit_of_char('\u{0663}'), None);
}
