//! The reader undoes the printer: the readable text of a value that can be
//! written down reads back as that value.

use crate::laws::lemma_value_eq_reflexive;
use crate::printer::{
    escape_char, escape_from, escape_spec, open_char, pr_seq_spec, pr_str_spec, pr_tail_spec,
};
use crate::reader::{
    blank_len, closer_of, digits_value, integer_value, is_blank, is_closer, is_integer,
    is_special, parse_spec, read_all_spec, read_form_spec, read_seq_spec, string_len, token_len,
    unescape_range, ParseError,
};
use crate::text::{decimal, digit_char, digit_value, digits};
use crate::types::{value_eq, Flavor, Value};
use vstd::prelude::*;

verus! {

/// Whether a name can be written down as a symbol: it has a character, none
/// of its characters is a blank or special, and it is neither `nil`, `true`
/// or `false` nor an integer.
pub open spec fn symbol_name_ok(name: Seq<char>) -> bool {
    &&& name.len() > 0
    &&& forall|i: int| 0 <= i < name.len() ==> !is_special(#[trigger] name[i])
    &&& name != seq!['n', 'i', 'l']
    &&& name != seq!['t', 'r', 'u', 'e']
    &&& name != seq!['f', 'a', 'l', 's', 'e']
    &&& !is_integer(name, 0, name.len())
}

/// Whether a value can be written down: it is `nil`, a truth value, a
/// number, a string, a symbol whose name can be written down, or a list of
/// such values.
pub open spec fn representable(v: Value) -> bool
    decreases v,
{
    match v {
        Value::Symbol(name) => symbol_name_ok(name),
        Value::List(_, items) => forall|i: int|
            0 <= i < items.len() ==> representable(#[trigger] items[i]),
        Value::Callable(_) => false,
        Value::EndOfInput => false,
        _ => true,
    }
}

/// Whether every value of the sequence can be written down.
pub open spec fn all_representable(items: Seq<Value>) -> bool {
    forall|i: int| 0 <= i < items.len() ==> representable(#[trigger] items[i])
}

/// Whether the text `t` stands in `s` at `pos`.
pub open spec fn occurs(s: Seq<char>, pos: nat, t: Seq<char>) -> bool {
    pos + t.len() <= s.len() && forall|i: int|
        pos <= i < pos + t.len() ==> #[trigger] s[i] == t[i - pos]
}

/// Whether an atom that ends before `pos` ends there: the text ends, or a
/// blank or special character stands at `pos`.
pub open spec fn delimited(s: Seq<char>, pos: nat) -> bool {
    pos >= s.len() || is_special(s[pos as int])
}

/// Whether a form can begin with the character.
pub open spec fn starts_form(c: char) -> bool {
    !is_blank(c) && c != ';' && !is_closer(c)
}

/// Where a text of two parts stands, both parts stand.
pub proof fn lemma_occurs_parts(s: Seq<char>, pos: nat, a: Seq<char>, b: Seq<char>)
    requires
        occurs(s, pos, a + b),
    ensures
        occurs(s, pos, a),
        occurs(s, pos + a.len(), b),
{
    assert forall|i: int| pos <= i < pos + a.len() implies #[trigger] s[i] == a[i - pos] by {}
    assert forall|i: int| pos + a.len() <= i < pos + a.len() + b.len() implies #[trigger] s[i]
        == b[i - (pos + a.len())] by {}
}

/// A text stands in itself at the beginning.
pub proof fn lemma_occurs_whole(s: Seq<char>)
    ensures
        occurs(s, 0, s),
{
}

/// There is no blank to skip where a form begins or the text ends.
pub proof fn lemma_no_blank(s: Seq<char>, pos: nat)
    requires
        pos >= s.len() || (!is_blank(s[pos as int]) && s[pos as int] != ';'),
    ensures
        blank_len(s, pos) == 0,
{
}

/// One space before a form is one character of blank.
pub proof fn lemma_one_space(s: Seq<char>, pos: nat)
    requires
        pos + 1 < s.len(),
        s[pos as int] == ' ',
        starts_form(s[pos + 1 as int]),
    ensures
        blank_len(s, pos) == 1,
{
    lemma_no_blank(s, pos + 1);
}

/// An atom is as long as the run of characters that are not special.
pub proof fn lemma_token_len(s: Seq<char>, pos: nat, n: nat)
    requires
        pos + n <= s.len(),
        forall|i: int| pos <= i < pos + n ==> !is_special(#[trigger] s[i]),
        delimited(s, pos + n),
    ensures
        token_len(s, pos) == n,
    decreases n,
{
    if n > 0 {
        lemma_token_len(s, pos + 1, (n - 1) as nat);
    }
}

/// The digits of a number are digits, and at least one.
pub proof fn lemma_digits_are_digits(m: nat)
    ensures
        digits(m).len() >= 1,
        forall|i: int| 0 <= i < digits(m).len() ==> digit_value(#[trigger] digits(m)[i]) is Some,
    decreases m,
{
    if m >= 10 {
        lemma_digits_are_digits(m / 10);
        assert forall|i: int| 0 <= i < digits(m).len() implies digit_value(
            #[trigger] digits(m)[i],
        ) is Some by {}
    }
}

/// A digit is not special, and no form but a number begins with one.
pub proof fn lemma_digit_plain(c: char)
    requires
        digit_value(c) is Some,
    ensures
        !is_special(c),
        c != 'n',
        c != 't',
        c != 'f',
        c != '-',
{
}

/// Where the digits of a number stand, they write that number.
pub proof fn lemma_digits_value(s: Seq<char>, from: nat, m: nat)
    requires
        occurs(s, from, digits(m)),
    ensures
        digits_value(s, from, from + digits(m).len()) == m,
    decreases m,
{
    let to = from + digits(m).len();
    if m < 10 {
        assert(s[from as int] == digits(m)[0]);
        assert(digits_value(s, from, from) == 0);
    } else {
        let init = digits(m / 10);
        let last = digit_char((m % 10) as int);
        assert(digits(m) =~= init + seq![last]);
        lemma_occurs_parts(s, from, init, seq![last]);
        lemma_digits_value(s, from, m / 10);
        assert(s[to - 1] == seq![last][0]);
        assert(digit_value(last) == Some((m % 10) as int));
        assert(digits_value(s, from, to) == digits_value(s, from, (to - 1) as nat) * 10 + (m
            % 10));
    }
}

/// The string between double quotes is as long as its escaped form.
pub proof fn lemma_string_len(s: Seq<char>, pos: nat, text: Seq<char>, from: nat)
    requires
        from <= text.len(),
        occurs(s, pos, escape_from(text, from) + seq!['"']),
    ensures
        string_len(s, pos) == escape_from(text, from).len(),
    decreases text.len() - from,
{
    let quote = seq!['"'];
    if from < text.len() {
        let head = escape_char(text[from as int]);
        let rest = escape_from(text, from + 1);
        lemma_occurs_parts(s, pos, head, rest + quote);
        if head.len() == 2 {
            lemma_string_len(s, pos + 2, text, from + 1);
        } else {
            lemma_string_len(s, pos + 1, text, from + 1);
        }
    }
}

/// The escaped form of a string stands for the string.
pub proof fn lemma_unescape_escaped(s: Seq<char>, pos: nat, text: Seq<char>, from: nat)
    requires
        from <= text.len(),
        occurs(s, pos, escape_from(text, from)),
    ensures
        unescape_range(s, pos, pos + escape_from(text, from).len()) == text.skip(from as int),
    decreases text.len() - from,
{
    if from < text.len() {
        let head = escape_char(text[from as int]);
        let rest = escape_from(text, from + 1);
        lemma_occurs_parts(s, pos, head, rest);
        lemma_unescape_escaped(s, pos + head.len(), text, from + 1);
    }
}

/// The readable text of a value that can be written down is not empty and
/// begins as a form does.
pub proof fn lemma_printed_start(v: Value)
    requires
        representable(v),
    ensures
        pr_str_spec(v, true).len() > 0,
        starts_form(pr_str_spec(v, true)[0]),
{
    reveal_strlit("nil");
    reveal_strlit("true");
    reveal_strlit("false");
    match v {
        Value::Number(n) => {
            if n < 0 {
                lemma_digits_are_digits((-n) as nat);
            } else {
                lemma_digits_are_digits(n as nat);
                lemma_digit_plain(digits(n as nat)[0]);
            }
        },
        _ => {},
    }
}

/// What follows the elements of a list begins with a blank or a closing
/// bracket: an atom before it ends there.
pub proof fn lemma_tail_start(items: Seq<Value>, from: nat, flavor: Flavor)
    ensures
        is_special((pr_tail_spec(items, from, seq![' '], true) + seq![closer_of(flavor)])[0]),
{
}

/// Where the readable text of a value that can be written down stands, and
/// ends as an atom must, the value is read, and reading ends after the
/// text.
pub proof fn lemma_read_printed(v: Value, s: Seq<char>, pos: nat)
    requires
        representable(v),
        occurs(s, pos, pr_str_spec(v, true)),
        delimited(s, pos + pr_str_spec(v, true).len()),
    ensures
        read_form_spec(s, pos) == Ok::<(Value, nat), ParseError>(
            (v, pos + pr_str_spec(v, true).len()),
        ),
    decreases v, 0nat,
{
    match v {
        Value::Nil => {
            lemma_read_keyword(v, s, pos);
        },
        Value::Bool(_) => {
            lemma_read_keyword(v, s, pos);
        },
        Value::Number(n) => {
            lemma_read_number(n, s, pos);
        },
        Value::Symbol(name) => {
            lemma_read_symbol(name, s, pos);
        },
        Value::Str(content) => {
            lemma_read_string(content, s, pos);
        },
        Value::List(flavor, items) => {
            lemma_read_list(flavor, items, s, pos);
        },
        _ => {},
    }
}

/// The same of `nil`, `true` and `false`.
pub proof fn lemma_read_keyword(v: Value, s: Seq<char>, pos: nat)
    requires
        v is Nil || v is Bool,
        occurs(s, pos, pr_str_spec(v, true)),
        delimited(s, pos + pr_str_spec(v, true).len()),
    ensures
        read_form_spec(s, pos) == Ok::<(Value, nat), ParseError>(
            (v, pos + pr_str_spec(v, true).len()),
        ),
{
    let text = pr_str_spec(v, true);
    let end = pos + text.len();
    reveal_strlit("nil");
    reveal_strlit("true");
    reveal_strlit("false");
    if v is Nil {
        assert(text =~= seq!['n', 'i', 'l']);
        lemma_token_len(s, pos, 3);
    } else if v->Bool_0 {
        assert(text =~= seq!['t', 'r', 'u', 'e']);
        lemma_token_len(s, pos, 4);
    } else {
        assert(text =~= seq!['f', 'a', 'l', 's', 'e']);
        lemma_token_len(s, pos, 5);
    }
    let token = s.subrange(pos as int, end as int);
    assert(token =~= text);
}

/// The same of a string.
pub proof fn lemma_read_string(content: Seq<char>, s: Seq<char>, pos: nat)
    requires
        occurs(s, pos, pr_str_spec(Value::Str(content), true)),
    ensures
        read_form_spec(s, pos) == Ok::<(Value, nat), ParseError>(
            (Value::Str(content), pos + pr_str_spec(Value::Str(content), true).len()),
        ),
{
    let quote = seq!['"'];
    let body = escape_spec(content);
    lemma_occurs_parts(s, pos, quote, body + quote);
    lemma_string_len(s, pos + 1, content, 0);
    lemma_occurs_parts(s, pos + 1, body, quote);
    lemma_unescape_escaped(s, pos + 1, content, 0);
    assert(content.skip(0) =~= content);
}

/// The same of a list.
pub proof fn lemma_read_list(flavor: Flavor, items: Seq<Value>, s: Seq<char>, pos: nat)
    requires
        all_representable(items),
        occurs(s, pos, pr_str_spec(Value::List(flavor, items), true)),
    ensures
        read_form_spec(s, pos) == Ok::<(Value, nat), ParseError>(
            (
                Value::List(flavor, items),
                pos + pr_str_spec(Value::List(flavor, items), true).len(),
            ),
        ),
    decreases items, items.len() + 1,
{
    let open = seq![open_char(flavor)];
    let close = seq![closer_of(flavor)];
    let inner = pr_seq_spec(items, seq![' '], true);
    lemma_occurs_parts(s, pos, open, inner + close);
    if items.len() == 0 {
        lemma_no_blank(s, pos + 1);
        assert(items =~= Seq::<Value>::empty());
    } else {
        let first = pr_str_spec(items[0], true);
        let tail = pr_tail_spec(items, 1, seq![' '], true);
        lemma_occurs_parts(s, pos + 1, first, tail + close);
        lemma_printed_start(items[0]);
        lemma_no_blank(s, pos + 1);
        let next = pos + 1 + first.len();
        lemma_tail_start(items, 1, flavor);
        lemma_read_printed(items[0], s, pos + 1);
        let acc = Seq::<Value>::empty().push(items[0]);
        lemma_read_tail(items, 1, s, next, flavor, acc);
        assert(acc + items.skip(1) =~= items);
        assert(read_seq_spec(s, pos + 1, flavor, Seq::empty()) == read_seq_spec(
            s,
            next,
            flavor,
            acc,
        ));
    }
}

/// The same of a number.
pub proof fn lemma_read_number(n: i64, s: Seq<char>, pos: nat)
    requires
        occurs(s, pos, decimal(n as int)),
        delimited(s, pos + decimal(n as int).len()),
    ensures
        read_form_spec(s, pos) == Ok::<(Value, nat), ParseError>(
            (Value::Number(n), pos + decimal(n as int).len()),
        ),
{
    let text = decimal(n as int);
    let end = pos + text.len();
    let magnitude: nat = if n < 0 {
        (-n) as nat
    } else {
        n as nat
    };
    lemma_digits_are_digits(magnitude);
    let start: nat = if n < 0 {
        pos + 1
    } else {
        pos
    };
    if n < 0 {
        lemma_occurs_parts(s, pos, seq!['-'], digits(magnitude));
    }
    assert forall|i: int| start <= i < end implies digit_value(#[trigger] s[i]) is Some by {}
    assert forall|i: int| pos <= i < end implies !is_special(#[trigger] s[i]) by {
        if i >= start {
            lemma_digit_plain(s[i]);
        }
    }
    lemma_token_len(s, pos, text.len());
    lemma_digits_value(s, start, magnitude);
    if n >= 0 {
        lemma_digit_plain(s[pos as int]);
    }
    assert(integer_value(s, pos, end) == n);
}

/// The same of a symbol.
pub proof fn lemma_read_symbol(name: Seq<char>, s: Seq<char>, pos: nat)
    requires
        symbol_name_ok(name),
        occurs(s, pos, name),
        delimited(s, pos + name.len()),
    ensures
        read_form_spec(s, pos) == Ok::<(Value, nat), ParseError>(
            (Value::Symbol(name), pos + name.len()),
        ),
{
    let end = pos + name.len();
    assert forall|i: int| pos <= i < end implies !is_special(#[trigger] s[i]) by {}
    lemma_token_len(s, pos, name.len());
    let token = s.subrange(pos as int, end as int);
    assert(token =~= name);
    if is_integer(s, pos, end) {
        if s[pos as int] == '-' {
            assert forall|i: int| 1 <= i < name.len() implies digit_value(
                #[trigger] name[i],
            ) is Some by {}
        } else {
            assert forall|i: int| 0 <= i < name.len() implies digit_value(
                #[trigger] name[i],
            ) is Some by {
                assert(s[pos + i] == name[i]);
            }
        }
    }
}

/// Where the elements of a list from place `from` on stand, each after one
/// space, and the closing bracket after them, they are read, and reading
/// ends after the bracket.
pub proof fn lemma_read_tail(
    items: Seq<Value>,
    from: nat,
    s: Seq<char>,
    pos: nat,
    flavor: Flavor,
    acc: Seq<Value>,
)
    requires
        all_representable(items),
        1 <= from <= items.len(),
        occurs(s, pos, pr_tail_spec(items, from, seq![' '], true) + seq![closer_of(flavor)]),
    ensures
        read_seq_spec(s, pos, flavor, acc) == Ok::<(Seq<Value>, nat), ParseError>(
            (
                acc + items.skip(from as int),
                pos + pr_tail_spec(items, from, seq![' '], true).len() + 1,
            ),
        ),
    decreases items, items.len() - from,
{
    let space = seq![' '];
    let close = seq![closer_of(flavor)];
    if from >= items.len() {
        lemma_no_blank(s, pos);
    } else {
        let item = items[from as int];
        let text = pr_str_spec(item, true);
        let rest = pr_tail_spec(items, from + 1, space, true);
        lemma_occurs_parts(s, pos, space, text + (rest + close));
        lemma_occurs_parts(s, pos + 1, text, rest + close);
        lemma_printed_start(item);
        lemma_one_space(s, pos);
        let at = pos + 1;
        let next = at + text.len();
        lemma_tail_start(items, from + 1, flavor);
        lemma_read_printed(item, s, at);
        lemma_read_tail(items, from + 1, s, next, flavor, acc.push(item));
        assert(acc.push(item) + items.skip(from + 1 as int) =~= acc + items.skip(from as int));
    }
}

/// Round trip: parsing the readable text of a value that can be written
/// down gives that value, and after it the mark of the end of input. What
/// is read is the value itself, and so structurally equal to it.
pub proof fn lemma_round_trip(v: Value)
    requires
        representable(v),
    ensures
        parse_spec(pr_str_spec(v, true)) == Ok::<Seq<Value>, ParseError>(
            seq![v, Value::EndOfInput],
        ),
        value_eq(parse_spec(pr_str_spec(v, true))->Ok_0[0], v),
{
    lemma_value_eq_reflexive(v);
    let text = pr_str_spec(v, true);
    lemma_printed_start(v);
    lemma_occurs_whole(text);
    lemma_no_blank(text, 0);
    lemma_read_printed(v, text, 0);
    lemma_no_blank(text, text.len());
    let acc = Seq::<Value>::empty().push(v);
    assert(read_all_spec(text, text.len(), acc) == Ok::<Seq<Value>, ParseError>(
        acc.push(Value::EndOfInput),
    ));
    assert(acc.push(Value::EndOfInput) =~= seq![v, Value::EndOfInput]);
}

} // verus!
