//! The reader: from text to the expressions it writes down.
//!
//! Blanks (spaces, tabs, line ends and commas) and comments (from `;` to
//! the end of the line) separate forms and mean nothing else. A form is a
//! list between round, square or curly brackets, a string between double
//! quotes, one of the prefixes `'`, `` ` ``, `~`, `~@`, `@` and `^` with the
//! forms it applies to, or an atom: a run of characters up to the next blank
//! or special character, which is `nil`, `true`, `false`, an integer, or
//! else a symbol.

use crate::text::{chars_string, digit_of_char, digit_value, string_chars};
use crate::text::{digits, push_digits, push_str};
use crate::types::{all_closed, group_value_views, views, Flavor, MalValue, Value};
use vstd::prelude::*;

verus! {

broadcast use group_value_views;

/// What the reader was looking for where it gave up.
#[derive(Clone, Copy, Debug, PartialEq, Eq, Structural)]
pub enum Expected {
    /// A form, where the text ended or a closing bracket stood.
    Form,
    /// A form or the closing bracket of the list that is open.
    FormOrClose(Flavor),
    /// The double quote that closes the string that is open.
    ClosingQuote,
    /// An integer that fits into 64 bits.
    Number,
}

/// A syntax error: the place in the text, counted in characters, and what
/// was expected there.
#[derive(Clone, Copy, Debug, PartialEq, Eq, Structural)]
pub struct ParseError {
    pub location: usize,
    pub expected: Expected,
}

/// What is said of an expectation that was not met.
pub open spec fn expected_text(expected: Expected) -> Seq<char> {
    match expected {
        Expected::Form => "unexpected input: expected a form at "@,
        Expected::FormOrClose(Flavor::Round) => "unbalanced input: expected a form or ')' at "@,
        Expected::FormOrClose(Flavor::Square) => "unbalanced input: expected a form or ']' at "@,
        Expected::FormOrClose(Flavor::Curly) => "unbalanced input: expected a form or '}' at "@,
        Expected::ClosingQuote => "unbalanced input: expected '\"' at "@,
        Expected::Number => "number out of range: expected an integer of 64 bits at "@,
    }
}

impl ParseError {
    /// The error in words: what was expected, and the place in decimal.
    pub open spec fn message_spec(self) -> Seq<char> {
        expected_text(self.expected) + digits(self.location as nat)
    }

    /// The error in words.
    pub fn message(&self) -> (text: String)
        ensures
            text@ == self.message_spec(),
    {
        let mut buf: Vec<char> = Vec::new();
        match self.expected {
            Expected::Form => push_str(&mut buf, "unexpected input: expected a form at "),
            Expected::FormOrClose(Flavor::Round) => push_str(
                &mut buf,
                "unbalanced input: expected a form or ')' at ",
            ),
            Expected::FormOrClose(Flavor::Square) => push_str(
                &mut buf,
                "unbalanced input: expected a form or ']' at ",
            ),
            Expected::FormOrClose(Flavor::Curly) => push_str(
                &mut buf,
                "unbalanced input: expected a form or '}' at ",
            ),
            Expected::ClosingQuote => push_str(&mut buf, "unbalanced input: expected '\"' at "),
            Expected::Number => push_str(
                &mut buf,
                "number out of range: expected an integer of 64 bits at ",
            ),
        }
        push_digits(self.location as u64, &mut buf);
        chars_string(&buf)
    }
}

/// Whether the character separates forms and means nothing else.
pub open spec fn is_blank(c: char) -> bool {
    c == ' ' || c == '\t' || c == '\n' || c == '\r' || c == ','
}

/// Whether the character closes a list.
pub open spec fn is_closer(c: char) -> bool {
    c == ')' || c == ']' || c == '}'
}

/// Whether the character cannot be part of an atom.
pub open spec fn is_special(c: char) -> bool {
    is_blank(c) || is_closer(c) || c == '(' || c == '[' || c == '{' || c == '\'' || c == '"' || c
        == '`' || c == ';' || c == '~' || c == '^' || c == '@'
}

/// The number of characters from `pos` to the end of the text.
pub open spec fn left(s: Seq<char>, pos: nat) -> nat {
    if pos <= s.len() {
        (s.len() - pos) as nat
    } else {
        0
    }
}

/// The number of characters from `pos` to the end of the line, the line end
/// not counted.
pub open spec fn line_len(s: Seq<char>, pos: nat) -> nat
    decreases left(s, pos),
{
    if pos >= s.len() || s[pos as int] == '\n' {
        0
    } else {
        1 + line_len(s, pos + 1)
    }
}

/// The number of characters of blanks and comments that stand at `pos`.
pub open spec fn blank_len(s: Seq<char>, pos: nat) -> nat
    decreases left(s, pos),
{
    if pos >= s.len() {
        0
    } else if is_blank(s[pos as int]) {
        1 + blank_len(s, pos + 1)
    } else if s[pos as int] == ';' {
        let comment = 1 + line_len(s, pos + 1);
        comment + blank_len(s, pos + comment)
    } else {
        0
    }
}

/// The number of characters of the atom that stands at `pos`.
pub open spec fn token_len(s: Seq<char>, pos: nat) -> nat
    decreases left(s, pos),
{
    if pos >= s.len() || is_special(s[pos as int]) {
        0
    } else {
        1 + token_len(s, pos + 1)
    }
}

/// The number of characters at `pos` up to the double quote that closes the
/// string, or up to the end of the text if none does. A backslash takes the
/// character after it with it.
pub open spec fn string_len(s: Seq<char>, pos: nat) -> nat
    decreases left(s, pos),
{
    if pos >= s.len() || s[pos as int] == '"' {
        0
    } else if s[pos as int] == '\\' {
        if pos + 1 >= s.len() {
            1
        } else {
            2 + string_len(s, pos + 2)
        }
    } else {
        1 + string_len(s, pos + 1)
    }
}

/// What a backslash and the character after it stand for. A backslash
/// before any other character than `n`, `r`, `t`, backslash and double
/// quote stands for itself, and so does the character.
pub open spec fn unescape_pair(c: char) -> Seq<char> {
    if c == 'n' {
        seq!['\n']
    } else if c == 'r' {
        seq!['\r']
    } else if c == 't' {
        seq!['\t']
    } else if c == '\\' {
        seq!['\\']
    } else if c == '"' {
        seq!['"']
    } else {
        seq!['\\', c]
    }
}

/// What the characters of `s` from `from` up to `to` stand for between
/// double quotes.
pub open spec fn unescape_range(s: Seq<char>, from: nat, to: nat) -> Seq<char>
    decreases to - from,
{
    if from >= to || to > s.len() {
        Seq::empty()
    } else if s[from as int] == '\\' {
        if from + 1 >= to {
            seq!['\\']
        } else {
            unescape_pair(s[from + 1 as int]) + unescape_range(s, from + 2, to)
        }
    } else {
        seq![s[from as int]] + unescape_range(s, from + 1, to)
    }
}

/// What the text stands for between double quotes.
pub open spec fn unescape_spec(s: Seq<char>) -> Seq<char> {
    unescape_range(s, 0, s.len())
}

/// Whether the characters from `from` up to `to` are digits.
pub open spec fn all_digits(s: Seq<char>, from: nat, to: nat) -> bool {
    forall|i: int| from <= i < to ==> digit_value(#[trigger] s[i]) is Some
}

/// The number that the digits from `from` up to `to` write.
pub open spec fn digits_value(s: Seq<char>, from: nat, to: nat) -> nat
    decreases to,
{
    if to <= from || to > s.len() {
        0
    } else {
        digits_value(s, from, (to - 1) as nat) * 10 + digit_value(s[to - 1])->0 as nat
    }
}

/// Whether the characters from `from` up to `to` write an integer: at least
/// one digit, after a minus sign or not.
pub open spec fn is_integer(s: Seq<char>, from: nat, to: nat) -> bool {
    if from < to <= s.len() && s[from as int] == '-' {
        from + 1 < to && all_digits(s, from + 1, to)
    } else {
        from < to <= s.len() && all_digits(s, from, to)
    }
}

/// The integer that the characters from `from` up to `to` write.
pub open spec fn integer_value(s: Seq<char>, from: nat, to: nat) -> int {
    if s[from as int] == '-' {
        -(digits_value(s, from + 1, to) as int)
    } else {
        digits_value(s, from, to) as int
    }
}

/// The value that the atom from `from` up to `to` writes: `nil`, `true`,
/// `false`, an integer, or else the symbol of that name. An integer that
/// does not fit into 64 bits is an error.
pub open spec fn atom_spec(s: Seq<char>, from: nat, to: nat) -> Result<Value, ParseError> {
    let token = s.subrange(from as int, to as int);
    if token == seq!['n', 'i', 'l'] {
        Ok(Value::Nil)
    } else if token == seq!['t', 'r', 'u', 'e'] {
        Ok(Value::Bool(true))
    } else if token == seq!['f', 'a', 'l', 's', 'e'] {
        Ok(Value::Bool(false))
    } else if is_integer(s, from, to) {
        let n = integer_value(s, from, to);
        if i64::MIN <= n <= i64::MAX {
            Ok(Value::Number(n as i64))
        } else {
            Err(ParseError { location: from as usize, expected: Expected::Number })
        }
    } else {
        Ok(Value::Symbol(token))
    }
}

/// The flavor of the list that the character opens.
pub open spec fn opened_flavor(c: char) -> Option<Flavor> {
    if c == '(' {
        Some(Flavor::Round)
    } else if c == '[' {
        Some(Flavor::Square)
    } else if c == '{' {
        Some(Flavor::Curly)
    } else {
        None
    }
}

/// The character that closes a list of the flavor.
pub open spec fn closer_of(flavor: Flavor) -> char {
    match flavor {
        Flavor::Round => ')',
        Flavor::Square => ']',
        Flavor::Curly => '}',
    }
}

/// The name of the operation that a prefix stands for, and the number of
/// characters of the prefix.
pub open spec fn prefix_spec(s: Seq<char>, pos: nat) -> Option<(Seq<char>, nat)> {
    let c = s[pos as int];
    if c == '\'' {
        Some((seq!['q', 'u', 'o', 't', 'e'], 1nat))
    } else if c == '`' {
        Some((seq!['q', 'u', 'a', 's', 'i', 'q', 'u', 'o', 't', 'e'], 1nat))
    } else if c == '~' {
        if pos + 1 < s.len() && s[pos + 1 as int] == '@' {
            Some((seq!['s', 'p', 'l', 'i', 'c', 'e', '-', 'u', 'n', 'q', 'u', 'o', 't', 'e'], 2nat))
        } else {
            Some((seq!['u', 'n', 'q', 'u', 'o', 't', 'e'], 1nat))
        }
    } else if c == '@' {
        Some((seq!['d', 'e', 'r', 'e', 'f'], 1nat))
    } else {
        None
    }
}

/// The name of the operation that `^` stands for.
pub open spec fn with_meta_name() -> Seq<char> {
    seq!['w', 'i', 't', 'h', '-', 'm', 'e', 't', 'a']
}

/// The error at `pos` with the given expectation.
pub open spec fn error_at(pos: nat, expected: Expected) -> ParseError {
    ParseError { location: pos as usize, expected }
}

/// The form that stands at `pos`, and the place after it. At `pos` there
/// must be a character, and neither a blank nor a comment.
///
/// A prefix applies to the form after it and gives the round list of the
/// name of its operation and that form. `^` applies to two forms, the
/// second of which comes first in the list it gives.
pub open spec fn read_form_spec(s: Seq<char>, pos: nat) -> Result<(Value, nat), ParseError>
    decreases left(s, pos), 0nat,
{
    if pos >= s.len() {
        Err(error_at(pos, Expected::Form))
    } else {
        let c = s[pos as int];
        if opened_flavor(c) is Some {
            let flavor = opened_flavor(c)->0;
            match read_seq_spec(s, pos + 1, flavor, Seq::empty()) {
                Ok((items, next)) => Ok((Value::List(flavor, items), next)),
                Err(e) => Err(e),
            }
        } else if is_closer(c) {
            Err(error_at(pos, Expected::Form))
        } else if c == '"' {
            let end = pos + 1 + string_len(s, pos + 1);
            if end >= s.len() {
                Err(error_at(s.len(), Expected::ClosingQuote))
            } else {
                Ok((Value::Str(unescape_range(s, pos + 1, end)), end + 1))
            }
        } else if prefix_spec(s, pos) is Some {
            let (name, width) = prefix_spec(s, pos)->0;
            let at = pos + width + blank_len(s, pos + width);
            if at >= s.len() {
                Err(error_at(s.len(), Expected::Form))
            } else {
                match read_form_spec(s, at) {
                    Ok((form, next)) => Ok(
                        (Value::List(Flavor::Round, seq![Value::Symbol(name), form]), next),
                    ),
                    Err(e) => Err(e),
                }
            }
        } else if c == '^' {
            let at = pos + 1 + blank_len(s, pos + 1);
            if at >= s.len() {
                Err(error_at(s.len(), Expected::Form))
            } else {
                match read_form_spec(s, at) {
                    Ok((meta, after)) => {
                        let second = after + blank_len(s, after);
                        if after <= at || second >= s.len() {
                            Err(error_at(s.len(), Expected::Form))
                        } else {
                            match read_form_spec(s, second) {
                                Ok((target, next)) => Ok(
                                    (
                                        Value::List(
                                            Flavor::Round,
                                            seq![Value::Symbol(with_meta_name()), target, meta],
                                        ),
                                        next,
                                    ),
                                ),
                                Err(e) => Err(e),
                            }
                        }
                    },
                    Err(e) => Err(e),
                }
            }
        } else if is_special(c) {
            Err(error_at(pos, Expected::Form))
        } else {
            let end = pos + token_len(s, pos);
            match atom_spec(s, pos, end) {
                Ok(v) => Ok((v, end)),
                Err(e) => Err(e),
            }
        }
    }
}

/// The forms of a list of which `acc` have been read, from `pos` up to the
/// closing bracket, and the place after the bracket.
///
/// A form spans at least one character, so the test that reading one has
/// moved on never fails; it is there to make the definition well founded.
pub open spec fn read_seq_spec(s: Seq<char>, pos: nat, flavor: Flavor, acc: Seq<Value>) -> Result<
    (Seq<Value>, nat),
    ParseError,
>
    decreases left(s, pos), 1nat,
{
    let at = pos + blank_len(s, pos);
    if at >= s.len() {
        Err(error_at(s.len(), Expected::FormOrClose(flavor)))
    } else if s[at as int] == closer_of(flavor) {
        Ok((acc, at + 1))
    } else if is_closer(s[at as int]) {
        Err(error_at(at, Expected::FormOrClose(flavor)))
    } else {
        match read_form_spec(s, at) {
            Ok((form, next)) => if next <= at {
                Err(error_at(at, Expected::Form))
            } else {
                read_seq_spec(s, next, flavor, acc.push(form))
            },
            Err(e) => Err(e),
        }
    }
}

/// The forms of a text of which `acc` have been read, from `pos` to the end
/// of the text, and after them the mark of the end of input.
pub open spec fn read_all_spec(s: Seq<char>, pos: nat, acc: Seq<Value>) -> Result<
    Seq<Value>,
    ParseError,
>
    decreases left(s, pos),
{
    let at = pos + blank_len(s, pos);
    if at >= s.len() {
        Ok(acc.push(Value::EndOfInput))
    } else {
        match read_form_spec(s, at) {
            Ok((form, next)) => if next <= at {
                Err(error_at(at, Expected::Form))
            } else {
                read_all_spec(s, next, acc.push(form))
            },
            Err(e) => Err(e),
        }
    }
}

/// The forms that a text writes down, in order, and after them the mark of
/// the end of input; or the first syntax error.
pub open spec fn parse_spec(s: Seq<char>) -> Result<Seq<Value>, ParseError> {
    read_all_spec(s, 0, Seq::empty())
}

/// The model of what reading a form gives.
pub open spec fn form_view(r: Result<(MalValue, usize), ParseError>) -> Result<
    (Value, nat),
    ParseError,
> {
    match r {
        Ok((v, next)) => Ok((v@, next as nat)),
        Err(e) => Err(e),
    }
}

/// The model of what reading the forms of a list gives.
pub open spec fn seq_view(r: Result<(Vec<MalValue>, usize), ParseError>) -> Result<
    (Seq<Value>, nat),
    ParseError,
> {
    match r {
        Ok((v, next)) => Ok((views(v@), next as nat)),
        Err(e) => Err(e),
    }
}

/// The model of what parsing a text gives.
pub open spec fn parse_view(r: Result<Vec<MalValue>, ParseError>) -> Result<
    Seq<Value>,
    ParseError,
> {
    match r {
        Ok(v) => Ok(views(v@)),
        Err(e) => Err(e),
    }
}

/// Whether the character separates forms and means nothing else.
fn blank(c: char) -> (b: bool)
    ensures
        b == is_blank(c),
{
    c == ' ' || c == '\t' || c == '\n' || c == '\r' || c == ','
}

/// Whether the character closes a list.
fn closer(c: char) -> (b: bool)
    ensures
        b == is_closer(c),
{
    c == ')' || c == ']' || c == '}'
}

/// Whether the character cannot be part of an atom.
fn special(c: char) -> (b: bool)
    ensures
        b == is_special(c),
{
    blank(c) || closer(c) || c == '(' || c == '[' || c == '{' || c == '\'' || c == '"' || c == '`'
        || c == ';' || c == '~' || c == '^' || c == '@'
}

/// The place of the end of the line that `pos` is in.
fn line_end(chars: &Vec<char>, pos: usize) -> (end: usize)
    requires
        pos <= chars.len(),
    ensures
        end == pos + line_len(chars@, pos as nat),
        end <= chars.len(),
{
    let mut at = pos;
    while at < chars.len() && chars[at] != '\n'
        invariant
            pos <= at <= chars.len(),
            at + line_len(chars@, at as nat) == pos + line_len(chars@, pos as nat),
        decreases chars.len() - at,
    {
        at += 1;
    }
    at
}

/// The place after the blanks and comments that stand at `pos`.
fn blank_end(chars: &Vec<char>, pos: usize) -> (end: usize)
    requires
        pos <= chars.len(),
    ensures
        end == pos + blank_len(chars@, pos as nat),
        pos <= end <= chars.len(),
{
    let mut at = pos;
    loop
        invariant
            pos <= at <= chars.len(),
            at + blank_len(chars@, at as nat) == pos + blank_len(chars@, pos as nat),
        decreases chars.len() - at,
    {
        if at >= chars.len() {
            return at;
        }
        let c = chars[at];
        if blank(c) {
            at += 1;
        } else if c == ';' {
            at = line_end(chars, at + 1);
        } else {
            return at;
        }
    }
}

/// The place after the atom that stands at `pos`.
fn token_end(chars: &Vec<char>, pos: usize) -> (end: usize)
    requires
        pos <= chars.len(),
    ensures
        end == pos + token_len(chars@, pos as nat),
        pos <= end <= chars.len(),
{
    let mut at = pos;
    while at < chars.len() && !special(chars[at])
        invariant
            pos <= at <= chars.len(),
            at + token_len(chars@, at as nat) == pos + token_len(chars@, pos as nat),
        decreases chars.len() - at,
    {
        at += 1;
    }
    at
}

/// The place of the double quote that closes the string whose characters
/// begin at `pos`, or the end of the text if none does.
fn string_end(chars: &Vec<char>, pos: usize) -> (end: usize)
    requires
        pos <= chars.len(),
    ensures
        end == pos + string_len(chars@, pos as nat),
        pos <= end <= chars.len(),
{
    let mut at = pos;
    loop
        invariant
            pos <= at <= chars.len(),
            at + string_len(chars@, at as nat) == pos + string_len(chars@, pos as nat),
        decreases chars.len() - at,
    {
        if at >= chars.len() {
            return at;
        }
        let c = chars[at];
        if c == '"' {
            return at;
        } else if c == '\\' {
            if at + 1 >= chars.len() {
                return at + 1;
            }
            at += 2;
        } else {
            at += 1;
        }
    }
}

/// What the characters from `from` up to `to` stand for between double
/// quotes.
fn unescape_chars(chars: &Vec<char>, from: usize, to: usize) -> (out: Vec<char>)
    requires
        from <= to <= chars.len(),
    ensures
        out@ == unescape_range(chars@, from as nat, to as nat),
{
    let mut out: Vec<char> = Vec::new();
    let mut at = from;
    while at < to
        invariant
            from <= at <= to <= chars.len(),
            out@ + unescape_range(chars@, at as nat, to as nat) == unescape_range(
                chars@,
                from as nat,
                to as nat,
            ),
        decreases to - at,
    {
        let c = chars[at];
        if c == '\\' {
            if at + 1 >= to {
                out.push('\\');
                at += 1;
            } else {
                let e = chars[at + 1];
                if e == 'n' {
                    out.push('\n');
                } else if e == 'r' {
                    out.push('\r');
                } else if e == 't' {
                    out.push('\t');
                } else if e == '\\' {
                    out.push('\\');
                } else if e == '"' {
                    out.push('"');
                } else {
                    out.push('\\');
                    out.push(e);
                }
                at += 2;
            }
        } else {
            out.push(c);
            at += 1;
        }
    }
    out
}

/// What a text stands for between double quotes: the text with its escapes
/// undone.
pub fn unescape_string(s: &str) -> (text: String)
    ensures
        text@ == unescape_spec(s@),
{
    let chars = string_chars(s);
    let out = unescape_chars(&chars, 0, chars.len());
    chars_string(&out)
}

/// The characters from `from` up to `to` as a string.
fn range_string(chars: &Vec<char>, from: usize, to: usize) -> (text: String)
    requires
        from <= to <= chars.len(),
    ensures
        text@ == chars@.subrange(from as int, to as int),
{
    let mut text = String::new();
    let mut at = from;
    while at < to
        invariant
            from <= at <= to <= chars.len(),
            text@ == chars@.subrange(from as int, at as int),
        decreases to - at,
    {
        text.push(chars[at]);
        at += 1;
    }
    text
}

/// The number that a run of digits writes grows with the run.
proof fn lemma_digits_value_grows(s: Seq<char>, from: nat, mid: nat, to: nat)
    requires
        from <= mid <= to <= s.len(),
    ensures
        digits_value(s, from, mid) <= digits_value(s, from, to),
    decreases to,
{
    if mid < to {
        lemma_digits_value_grows(s, from, mid, (to - 1) as nat);
    }
}

/// Whether the characters from `from` up to `to` are digits.
fn digits_only(chars: &Vec<char>, from: usize, to: usize) -> (b: bool)
    requires
        from <= to <= chars.len(),
    ensures
        b == all_digits(chars@, from as nat, to as nat),
{
    let mut at = from;
    while at < to
        invariant
            from <= at <= to <= chars.len(),
            all_digits(chars@, from as nat, at as nat),
        decreases to - at,
    {
        if digit_of_char(chars[at]).is_none() {
            return false;
        }
        at += 1;
    }
    true
}

/// The number that the digits from `from` up to `to` write, if it is at
/// most 2 to the power 63.
fn digits_number(chars: &Vec<char>, from: usize, to: usize) -> (n: Option<u64>)
    requires
        from <= to <= chars.len(),
        all_digits(chars@, from as nat, to as nat),
    ensures
        n is Some == (digits_value(chars@, from as nat, to as nat) <= 0x8000_0000_0000_0000),
        n is Some ==> n->0 == digits_value(chars@, from as nat, to as nat),
{
    let mut acc: u64 = 0;
    let mut at = from;
    while at < to
        invariant
            from <= at <= to <= chars.len(),
            all_digits(chars@, from as nat, to as nat),
            acc == digits_value(chars@, from as nat, at as nat),
            acc <= 0x8000_0000_0000_0000,
        decreases to - at,
    {
        let d = match digit_of_char(chars[at]) {
            Some(d) => d,
            None => {
                return None;
            },
        };
        proof {
            lemma_digits_value_grows(chars@, from as nat, (at + 1) as nat, to as nat);
        }
        if acc > 922337203685477580 {
            return None;
        }
        let next = acc * 10 + d;
        if next > 0x8000_0000_0000_0000 {
            return None;
        }
        acc = next;
        at += 1;
    }
    Some(acc)
}

/// The value that the atom from `from` up to `to` writes.
fn read_atom(chars: &Vec<char>, from: usize, to: usize) -> (r: Result<MalValue, ParseError>)
    requires
        from < to <= chars.len(),
    ensures
        r is Ok == atom_spec(chars@, from as nat, to as nat) is Ok,
        r matches Ok(v) ==> atom_spec(chars@, from as nat, to as nat) == Ok::<Value, ParseError>(
            v@,
        ),
        r matches Err(e) ==> atom_spec(chars@, from as nat, to as nat) == Err::<Value, ParseError>(
            e,
        ),
{
    let ghost token = chars@.subrange(from as int, to as int);
    let n = to - from;
    if n == 3 && chars[from] == 'n' && chars[from + 1] == 'i' && chars[from + 2] == 'l' {
        assert(token =~= seq!['n', 'i', 'l']);
        return Ok(MalValue::Nil);
    }
    if n == 4 && chars[from] == 't' && chars[from + 1] == 'r' && chars[from + 2] == 'u' && chars[from
        + 3] == 'e' {
        assert(token =~= seq!['t', 'r', 'u', 'e']);
        return Ok(MalValue::Bool(true));
    }
    if n == 5 && chars[from] == 'f' && chars[from + 1] == 'a' && chars[from + 2] == 'l' && chars[from
        + 3] == 's' && chars[from + 4] == 'e' {
        assert(token =~= seq!['f', 'a', 'l', 's', 'e']);
        return Ok(MalValue::Bool(false));
    }
    proof {
        if token == seq!['n', 'i', 'l'] {
            assert(token.len() == 3 && token[0] == 'n' && token[1] == 'i' && token[2] == 'l');
        }
        if token == seq!['t', 'r', 'u', 'e'] {
            assert(token.len() == 4 && token[0] == 't' && token[1] == 'r' && token[2] == 'u'
                && token[3] == 'e');
        }
        if token == seq!['f', 'a', 'l', 's', 'e'] {
            assert(token.len() == 5 && token[0] == 'f' && token[1] == 'a' && token[2] == 'l'
                && token[3] == 's' && token[4] == 'e');
        }
    }
    let negative = chars[from] == '-';
    let start = if negative {
        from + 1
    } else {
        from
    };
    if start < to && digits_only(chars, start, to) {
        match digits_number(chars, start, to) {
            Some(magnitude) => {
                if negative {
                    if magnitude == 0x8000_0000_0000_0000 {
                        Ok(MalValue::Number(i64::MIN))
                    } else {
                        Ok(MalValue::Number(-(magnitude as i64)))
                    }
                } else if magnitude == 0x8000_0000_0000_0000 {
                    Err(ParseError { location: from, expected: Expected::Number })
                } else {
                    Ok(MalValue::Number(magnitude as i64))
                }
            },
            None => Err(ParseError { location: from, expected: Expected::Number }),
        }
    } else {
        Ok(MalValue::Symbol(range_string(chars, from, to)))
    }
}

/// The character that closes a list of the flavor.
fn closer_char(flavor: Flavor) -> (c: char)
    ensures
        c == closer_of(flavor),
{
    match flavor {
        Flavor::Round => ')',
        Flavor::Square => ']',
        Flavor::Curly => '}',
    }
}

/// The round list of the symbol `name` and the given forms.
fn named_list(name: &str, first: MalValue, second: Option<MalValue>) -> (list: MalValue)
    ensures
        list@ == Value::List(
            Flavor::Round,
            match second {
                Some(x) => seq![Value::Symbol(name@), first@, x@],
                None => seq![Value::Symbol(name@), first@],
            },
        ),
        first@.closed(0) && (second matches Some(x) ==> x@.closed(0)) ==> list@.closed(0),
{
    let ghost one = first@;
    let ghost two: Option<Value> = crate::env::value_opt(second);
    let mut items: Vec<MalValue> = Vec::new();
    items.push(MalValue::Symbol(name.to_owned()));
    items.push(first);
    match second {
        Some(x) => {
            items.push(x);
            assert(views(items@) =~= seq![Value::Symbol(name@), one, two->0]);
        },
        None => {
            assert(views(items@) =~= seq![Value::Symbol(name@), one]);
        },
    }
    proof {
        let all = views(items@);
        if one.closed(0) && (two matches Some(x) ==> x.closed(0)) {
            assert forall|i: int| 0 <= i < all.len() implies (#[trigger] all[i]).closed(0) by {}
        }
    }
    MalValue::Round(items)
}

/// Reads the form that stands at `pos`, where there is neither a blank nor
/// a comment, and returns it with the place after it.
pub fn read_form(chars: &Vec<char>, pos: usize) -> (r: Result<(MalValue, usize), ParseError>)
    requires
        pos < chars.len(),
    ensures
        form_view(r) == read_form_spec(chars@, pos as nat),
        r matches Ok((_, next)) ==> pos < next <= chars.len(),
        r matches Ok((form, _)) ==> form@.closed(0),
    decreases chars.len() - pos, 0nat,
{
    let c = chars[pos];
    if c == '(' || c == '[' || c == '{' {
        let flavor = if c == '(' {
            Flavor::Round
        } else if c == '[' {
            Flavor::Square
        } else {
            Flavor::Curly
        };
        match read_list(chars, pos + 1, flavor) {
            Ok((items, next)) => {
                let list = match flavor {
                    Flavor::Round => MalValue::Round(items),
                    Flavor::Square => MalValue::Square(items),
                    Flavor::Curly => MalValue::Curly(items),
                };
                Ok((list, next))
            },
            Err(e) => Err(e),
        }
    } else if closer(c) {
        Err(ParseError { location: pos, expected: Expected::Form })
    } else if c == '"' {
        let end = string_end(chars, pos + 1);
        if end >= chars.len() {
            Err(ParseError { location: chars.len(), expected: Expected::ClosingQuote })
        } else {
            let text = chars_string(&unescape_chars(chars, pos + 1, end));
            Ok((MalValue::String(text), end + 1))
        }
    } else if c == '\'' || c == '`' || c == '~' || c == '@' {
        let spliced = c == '~' && pos + 1 < chars.len() && chars[pos + 1] == '@';
        let width: usize = if spliced {
            2
        } else {
            1
        };
        let at = blank_end(chars, pos + width);
        if at >= chars.len() {
            return Err(ParseError { location: chars.len(), expected: Expected::Form });
        }
        match read_form(chars, at) {
            Ok((form, next)) => {
                proof {
                    reveal_strlit("quote");
                    reveal_strlit("quasiquote");
                    reveal_strlit("splice-unquote");
                    reveal_strlit("unquote");
                    reveal_strlit("deref");
                    assert("quote"@ =~= seq!['q', 'u', 'o', 't', 'e']);
                    assert("quasiquote"@ =~= seq!['q', 'u', 'a', 's', 'i', 'q', 'u', 'o', 't', 'e']);
                    assert("splice-unquote"@ =~= seq![
                        's',
                        'p',
                        'l',
                        'i',
                        'c',
                        'e',
                        '-',
                        'u',
                        'n',
                        'q',
                        'u',
                        'o',
                        't',
                        'e',
                    ]);
                    assert("unquote"@ =~= seq!['u', 'n', 'q', 'u', 'o', 't', 'e']);
                    assert("deref"@ =~= seq!['d', 'e', 'r', 'e', 'f']);
                }
                let name = if c == '\'' {
                    "quote"
                } else if c == '`' {
                    "quasiquote"
                } else if spliced {
                    "splice-unquote"
                } else if c == '~' {
                    "unquote"
                } else {
                    "deref"
                };
                Ok((named_list(name, form, None), next))
            },
            Err(e) => Err(e),
        }
    } else if c == '^' {
        let at = blank_end(chars, pos + 1);
        if at >= chars.len() {
            return Err(ParseError { location: chars.len(), expected: Expected::Form });
        }
        match read_form(chars, at) {
            Ok((meta, after)) => {
                let second = blank_end(chars, after);
                if second >= chars.len() {
                    return Err(ParseError { location: chars.len(), expected: Expected::Form });
                }
                match read_form(chars, second) {
                    Ok((target, next)) => {
                        proof {
                            reveal_strlit("with-meta");
                            assert("with-meta"@ =~= with_meta_name());
                        }
                        Ok((named_list("with-meta", target, Some(meta)), next))
                    },
                    Err(e) => Err(e),
                }
            },
            Err(e) => Err(e),
        }
    } else if special(c) {
        Err(ParseError { location: pos, expected: Expected::Form })
    } else {
        let end = token_end(chars, pos);
        match read_atom(chars, pos, end) {
            Ok(v) => Ok((v, end)),
            Err(e) => Err(e),
        }
    }
}

/// Reads the forms of a list from `pos`, after the opening bracket, up to
/// the closing bracket, and returns them with the place after the bracket.
pub fn read_list(chars: &Vec<char>, pos: usize, flavor: Flavor) -> (r: Result<
    (Vec<MalValue>, usize),
    ParseError,
>)
    requires
        pos <= chars.len(),
    ensures
        seq_view(r) == read_seq_spec(chars@, pos as nat, flavor, Seq::empty()),
        r matches Ok((_, next)) ==> pos < next <= chars.len(),
        r matches Ok((forms, _)) ==> all_closed(views(forms@), 0),
    decreases chars.len() - pos, 1nat,
{
    let mut items: Vec<MalValue> = Vec::new();
    let mut cur = pos;
    assert(views(items@) =~= Seq::empty());
    loop
        invariant
            pos <= cur <= chars.len(),
            read_seq_spec(chars@, pos as nat, flavor, Seq::empty()) == read_seq_spec(
                chars@,
                cur as nat,
                flavor,
                views(items@),
            ),
            all_closed(views(items@), 0),
        decreases chars.len() - cur,
    {
        let at = blank_end(chars, cur);
        if at >= chars.len() {
            return Err(ParseError { location: chars.len(), expected: Expected::FormOrClose(flavor) });
        }
        let c = chars[at];
        if c == closer_char(flavor) {
            return Ok((items, at + 1));
        }
        if closer(c) {
            return Err(ParseError { location: at, expected: Expected::FormOrClose(flavor) });
        }
        let ghost sofar = views(items@);
        match read_form(chars, at) {
            Ok((form, next)) => {
                items.push(form);
                assert(views(items@) =~= sofar.push(form@));
                cur = next;
            },
            Err(e) => {
                return Err(e);
            },
        }
    }
}

/// The parser: the characters of a text, of which it reads the forms.
pub struct MalParser {
    chars: Vec<char>,
}

impl MalParser {
    /// The text that the parser reads.
    pub closed spec fn text(&self) -> Seq<char> {
        self.chars@
    }

    /// A parser for the given text.
    pub fn new(input: &str) -> (parser: MalParser)
        ensures
            parser.text() == input@,
    {
        MalParser { chars: string_chars(input) }
    }

    /// Reads all the forms of the text.
    pub fn parse(&self) -> (r: Result<Vec<MalValue>, ParseError>)
        ensures
            parse_view(r) == parse_spec(self.text()),
            r matches Ok(forms) ==> all_closed(views(forms@), 0),
            r matches Ok(forms) ==> forms.len() >= 1 && forms[forms.len() - 1]@
                == Value::EndOfInput,
    {
        let mut forms: Vec<MalValue> = Vec::new();
        let mut cur: usize = 0;
        assert(views(forms@) =~= Seq::empty());
        loop
            invariant
                cur <= self.chars.len(),
                parse_spec(self.chars@) == read_all_spec(self.chars@, cur as nat, views(forms@)),
                all_closed(views(forms@), 0),
            decreases self.chars.len() - cur,
        {
            let ghost sofar = views(forms@);
            let at = blank_end(&self.chars, cur);
            if at >= self.chars.len() {
                forms.push(MalValue::EOI);
                assert(views(forms@) =~= sofar.push(Value::EndOfInput));
                return Ok(forms);
            }
            match read_form(&self.chars, at) {
                Ok((form, next)) => {
                    forms.push(form);
                    assert(views(forms@) =~= sofar.push(form@));
                    cur = next;
                },
                Err(e) => {
                    return Err(e);
                },
            }
        }
    }
}

/// Reads all the forms of a text: the expressions it writes down, in order,
/// and after them the mark of the end of input; or the first syntax error.
pub fn parse_input(input: &str) -> (r: Result<Vec<MalValue>, ParseError>)
    ensures
        parse_view(r) == parse_spec(input@),
        r matches Ok(forms) ==> all_closed(views(forms@), 0),
        r matches Ok(forms) ==> forms.len() >= 1 && forms[forms.len() - 1]@ == Value::EndOfInput,
{
    MalParser::new(input).parse()
}

} // verus!
