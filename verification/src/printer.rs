//! The printer: the text of a value, either readable (strings quoted and
//! escaped, so that the reader gives the value back) or for display.

use crate::text::{chars_string, decimal, push_decimal, push_str, string_chars};
use crate::types::{group_value_views, views, Callable, Flavor, Function, MalValue, Value};
use vstd::prelude::*;

verus! {

/// What a character of a string becomes in readable text: backslash, double
/// quote, newline, carriage return and tab are written as two characters.
pub open spec fn escape_char(c: char) -> Seq<char> {
    if c == '\\' {
        seq!['\\', '\\']
    } else if c == '"' {
        seq!['\\', '"']
    } else if c == '\n' {
        seq!['\\', 'n']
    } else if c == '\r' {
        seq!['\\', 'r']
    } else if c == '\t' {
        seq!['\\', 't']
    } else {
        seq![c]
    }
}

/// The escaped form of the characters of `s` from place `from` on.
pub open spec fn escape_from(s: Seq<char>, from: nat) -> Seq<char>
    decreases s.len() - from,
{
    if from >= s.len() {
        Seq::empty()
    } else {
        escape_char(s[from as int]) + escape_from(s, from + 1)
    }
}

/// The escaped form of a string.
pub open spec fn escape_spec(s: Seq<char>) -> Seq<char> {
    escape_from(s, 0)
}

/// The delimiter that opens a list of the given flavor.
pub open spec fn open_char(flavor: Flavor) -> char {
    match flavor {
        Flavor::Round => '(',
        Flavor::Square => '[',
        Flavor::Curly => '{',
    }
}

/// The delimiter that closes a list of the given flavor.
pub open spec fn close_char(flavor: Flavor) -> char {
    match flavor {
        Flavor::Round => ')',
        Flavor::Square => ']',
        Flavor::Curly => '}',
    }
}

/// The text of a value. In readable text a string is quoted and escaped; for
/// display it is written as it is. A list is its elements between its
/// delimiters, one space between two elements. A callable is a fixed tag.
pub open spec fn pr_str_spec(v: Value, readably: bool) -> Seq<char>
    decreases v, 0nat,
{
    match v {
        Value::Str(s) => if readably {
            seq!['"'] + escape_spec(s) + seq!['"']
        } else {
            s
        },
        Value::Symbol(s) => s,
        Value::Number(n) => decimal(n as int),
        Value::Bool(b) => if b {
            "true"@
        } else {
            "false"@
        },
        Value::Nil => "nil"@,
        Value::List(flavor, items) => seq![open_char(flavor)] + pr_seq_spec(
            items,
            seq![' '],
            readably,
        ) + seq![close_char(flavor)],
        Value::Callable(Callable::Primitive(_)) => "<#builtin function>"@,
        Value::Callable(Callable::SpecialForm(_)) => "<#special form>"@,
        Value::Callable(Callable::Closure { .. }) => "<#function>"@,
        Value::EndOfInput => Seq::empty(),
    }
}

/// The texts of the values from place `from` on, each with `sep` before it.
pub open spec fn pr_tail_spec(items: Seq<Value>, from: nat, sep: Seq<char>, readably: bool) -> Seq<
    char,
>
    decreases items, items.len() - from,
{
    if from >= items.len() {
        Seq::empty()
    } else {
        sep + pr_str_spec(items[from as int], readably) + pr_tail_spec(
            items,
            from + 1,
            sep,
            readably,
        )
    }
}

/// The texts of the values, with `sep` between two of them.
pub open spec fn pr_seq_spec(items: Seq<Value>, sep: Seq<char>, readably: bool) -> Seq<char>
    decreases items, items.len() + 1,
{
    if items.len() == 0 {
        Seq::empty()
    } else {
        pr_str_spec(items[0], readably) + pr_tail_spec(items, 1, sep, readably)
    }
}

/// Appends the escaped form of the characters to `buf`.
fn escape_into(chars: &Vec<char>, buf: &mut Vec<char>)
    ensures
        final(buf)@ == old(buf)@ + escape_spec(chars@),
{
    let mut i: usize = 0;
    while i < chars.len()
        invariant
            i <= chars.len(),
            buf@ + escape_from(chars@, i as nat) == old(buf)@ + escape_spec(chars@),
        decreases chars.len() - i,
    {
        let c = chars[i];
        if c == '\\' {
            buf.push('\\');
            buf.push('\\');
        } else if c == '"' {
            buf.push('\\');
            buf.push('"');
        } else if c == '\n' {
            buf.push('\\');
            buf.push('n');
        } else if c == '\r' {
            buf.push('\\');
            buf.push('r');
        } else if c == '\t' {
            buf.push('\\');
            buf.push('t');
        } else {
            buf.push(c);
        }
        i += 1;
    }
}

/// The escaped form of a string: what stands between the quotes in readable
/// text.
pub fn escape_string(s: &str) -> (escaped: String)
    ensures
        escaped@ == escape_spec(s@),
{
    let chars = string_chars(s);
    let mut buf: Vec<char> = Vec::new();
    escape_into(&chars, &mut buf);
    chars_string(&buf)
}

/// Appends the texts of the values to `buf`, with `sep` between two of them.
fn print_items(items: &Vec<MalValue>, sep: &str, readably: bool, buf: &mut Vec<char>)
    ensures
        final(buf)@ == old(buf)@ + pr_seq_spec(views(items@), sep@, readably),
    decreases items,
{
    if items.len() == 0 {
        return ;
    }
    let ghost all = views(items@);
    print_into(&items[0], readably, buf);
    let mut i: usize = 1;
    while i < items.len()
        invariant
            1 <= i <= items.len(),
            all == views(items@),
            buf@ + pr_tail_spec(all, i as nat, sep@, readably) == old(buf)@ + pr_seq_spec(
                all,
                sep@,
                readably,
            ),
        decreases items.len() - i,
    {
        push_str(buf, sep);
        print_into(&items[i], readably, buf);
        i += 1;
    }
}

/// Appends the text of the value to `buf`.
fn print_into(node: &MalValue, readably: bool, buf: &mut Vec<char>)
    ensures
        final(buf)@ == old(buf)@ + pr_str_spec(node@, readably),
    decreases node,
{
    broadcast use group_value_views;

    match node {
        MalValue::String(s) => {
            if readably {
                let chars = string_chars(s.as_str());
                buf.push('"');
                escape_into(&chars, buf);
                buf.push('"');
            } else {
                push_str(buf, s.as_str());
            }
        },
        MalValue::Symbol(s) => {
            push_str(buf, s.as_str());
        },
        MalValue::Number(n) => {
            push_decimal(*n, buf);
        },
        MalValue::Bool(b) => {
            if *b {
                push_str(buf, "true");
            } else {
                push_str(buf, "false");
            }
        },
        MalValue::Nil => {
            push_str(buf, "nil");
        },
        MalValue::Round(items) => {
            buf.push('(');
            print_items(items, " ", readably, buf);
            buf.push(')');
            proof {
                reveal_strlit(" ");
                assert(" "@ =~= seq![' ']);
            }
        },
        MalValue::Square(items) => {
            buf.push('[');
            print_items(items, " ", readably, buf);
            buf.push(']');
            proof {
                reveal_strlit(" ");
                assert(" "@ =~= seq![' ']);
            }
        },
        MalValue::Curly(items) => {
            buf.push('{');
            print_items(items, " ", readably, buf);
            buf.push('}');
            proof {
                reveal_strlit(" ");
                assert(" "@ =~= seq![' ']);
            }
        },
        MalValue::BuiltinFunction(f) => match f {
            Function::Builtin(_) => {
                push_str(buf, "<#builtin function>");
            },
            Function::SpecialForm(_) => {
                push_str(buf, "<#special form>");
            },
            Function::UserDefined { .. } => {
                push_str(buf, "<#function>");
            },
        },
        MalValue::EOI => {
        },
    }
}

/// The text of a value: readable if `print_readably`, for display otherwise.
pub fn pr_str(node: &MalValue, print_readably: bool) -> (text: String)
    ensures
        text@ == pr_str_spec(node@, print_readably),
{
    let mut buf: Vec<char> = Vec::new();
    print_into(node, print_readably, &mut buf);
    chars_string(&buf)
}

/// The texts of the values joined by `sep`: readable if `print_readably`,
/// for display otherwise.
pub fn pr_seq(items: &[MalValue], sep: &str, print_readably: bool) -> (text: String)
    ensures
        text@ == pr_seq_spec(views(items@), sep@, print_readably),
{
    let mut buf: Vec<char> = Vec::new();
    let ghost all = views(items@);
    if items.len() > 0 {
        print_into(&items[0], print_readably, &mut buf);
        let mut i: usize = 1;
        while i < items.len()
            invariant
                1 <= i <= items.len(),
                all == views(items@),
                buf@ + pr_tail_spec(all, i as nat, sep@, print_readably) == pr_seq_spec(
                    all,
                    sep@,
                    print_readably,
                ),
            decreases items.len() - i,
        {
            push_str(&mut buf, sep);
            print_into(&items[i], print_readably, &mut buf);
            i += 1;
        }
    }
    chars_string(&buf)
}

} // verus!
