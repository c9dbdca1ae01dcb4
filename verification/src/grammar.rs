//! The dialect, stated as mathematics.
//!
//! Each rule is a function of the input and of a position in it. It says
//! whether the rule matches there, what value it yields, and how many
//! characters an attempt consumes: also a failed one, since a rule that has
//! read its opening token does not hand it back.
//!
//! ```text
//! value    = "null" | "true" | "false" | number | string | array | object
//! number   = digit+
//! string   = '"' (ascii - '"')+ '"'
//! array    = '[' ws ( value ws ',' ws )* ( value ws )? ']'
//! object   = '{' ws ( member ws ',' ws )* ( member ws )? '}'
//! member   = key ws ':' ws value
//! key      = '"' (letter | digit)+ '"'
//! ws       = (' ' | '\t' | '\n' | '\f' | '\r')*
//! ```
//!
//! So a value does not begin with whitespace, a comma may stand before the
//! closing delimiter of a container, and neither a string nor a key is ever
//! empty. A number is read only if it fits `usize`.

use crate::chars::{digit_value, is_digit, is_key_char, is_string_char};
use crate::cursor::{char_at, literal_at, run_len, whitespace_len};
use crate::value::{map_of, Json};
use vstd::prelude::*;

verus! {

/// What an attempt to match a rule comes to.
pub struct Outcome<T> {
    /// What was matched, if the rule matched.
    pub value: Option<T>,
    /// How many characters the attempt read, whether it matched or not.
    pub consumed: nat,
}

/// The rule matched `consumed` characters that stand for `value`.
pub open spec fn found<T>(value: T, consumed: nat) -> Outcome<T> {
    Outcome { value: Some(value), consumed }
}

/// The rule gave up after reading `consumed` characters.
pub open spec fn failed<T>(consumed: nat) -> Outcome<T> {
    Outcome { value: None, consumed }
}

/// The outcome `rest`, reached after `skipped` characters had been read.
pub open spec fn after<T>(skipped: nat, rest: Outcome<T>) -> Outcome<T> {
    Outcome { value: rest.value, consumed: skipped + rest.consumed }
}

/// The number of characters from `pos` to the end of the input. Every rule
/// that calls itself does so on a shorter rest.
pub open spec fn unread(s: Seq<char>, pos: int) -> nat {
    if pos < s.len() {
        (s.len() - pos) as nat
    } else {
        0
    }
}

/// The number that a run of decimal digits denotes.
pub open spec fn decimal_value(digits: Seq<char>) -> nat
    decreases digits.len(),
{
    if digits.len() == 0 {
        0
    } else {
        10 * decimal_value(digits.drop_last()) + digit_value(digits.last())
    }
}

/// The length of the run of digits that starts at `pos`.
pub open spec fn digits_len(s: Seq<char>, pos: int) -> nat {
    run_len(s, pos, |c: char| is_digit(c))
}

/// A number: the longest run of digits, which must not be empty and whose
/// value must fit the machine's word.
pub open spec fn number_at(s: Seq<char>, pos: int) -> Outcome<Json> {
    let n = digits_len(s, pos);
    let value = decimal_value(s.subrange(pos, pos + n));
    if n > 0 && value <= usize::MAX {
        found(Json::Number(value), n)
    } else {
        failed(n)
    }
}

/// A quoted text: a quote, the longest run of characters of `class`, which
/// must not be empty, and a quote. The value is what stands between the
/// quotes.
pub open spec fn quoted_at(s: Seq<char>, pos: int, class: spec_fn(char) -> bool) -> Outcome<
    Seq<char>,
> {
    if !char_at(s, pos, '"') {
        failed(0)
    } else {
        let n = run_len(s, pos + 1, class);
        if n > 0 && char_at(s, pos + 1 + n, '"') {
            found(s.subrange(pos + 1, pos + 1 + n), n + 2)
        } else {
            failed(n + 1)
        }
    }
}

/// A string: a quoted text of ASCII characters.
pub open spec fn string_at(s: Seq<char>, pos: int) -> Outcome<Seq<char>> {
    quoted_at(s, pos, |c: char| is_string_char(c))
}

/// An object key: a quoted text of letters and digits.
pub open spec fn key_at(s: Seq<char>, pos: int) -> Outcome<Seq<char>> {
    quoted_at(s, pos, |c: char| is_key_char(c))
}

/// What may follow an element of a container.
pub enum Separator {
    /// The closing delimiter: the container ends.
    Close,
    /// A comma: the container goes on.
    Comma,
}

/// What follows an element: whitespace, then either the closing delimiter, or
/// a comma and more whitespace.
pub open spec fn separator_at(s: Seq<char>, pos: int, close: char) -> Outcome<Separator> {
    let gap = whitespace_len(s, pos);
    if char_at(s, pos + gap, close) {
        found(Separator::Close, gap + 1)
    } else if char_at(s, pos + gap, ',') {
        found(Separator::Comma, gap + 1 + whitespace_len(s, pos + gap + 1))
    } else {
        failed(gap)
    }
}

/// A string as a value.
pub open spec fn text_at(s: Seq<char>, pos: int) -> Outcome<Json> {
    let text = string_at(s, pos);
    match text.value {
        Some(t) => found(Json::String(t), text.consumed),
        None => failed(text.consumed),
    }
}

/// A value: the first of the alternatives whose opening token stands at
/// `pos`. A rule that fails after its opening token fails the value; no other
/// alternative is tried.
pub open spec fn value_at(s: Seq<char>, pos: int) -> Outcome<Json>
    decreases unread(s, pos), 1int,
{
    if literal_at(s, pos, "null"@) {
        found(Json::Null, "null"@.len())
    } else if literal_at(s, pos, "true"@) {
        found(Json::Bool(true), "true"@.len())
    } else if literal_at(s, pos, "false"@) {
        found(Json::Bool(false), "false"@.len())
    } else if digits_len(s, pos) > 0 {
        number_at(s, pos)
    } else if char_at(s, pos, '"') {
        text_at(s, pos)
    } else if char_at(s, pos, '[') {
        array_at(s, pos)
    } else if char_at(s, pos, '{') {
        object_at(s, pos)
    } else {
        failed(0)
    }
}

/// An array: the opening bracket, whitespace, and the elements up to the
/// closing bracket.
pub open spec fn array_at(s: Seq<char>, pos: int) -> Outcome<Json>
    decreases unread(s, pos), 0int,
{
    if char_at(s, pos, '[') {
        let open = 1 + whitespace_len(s, pos + 1);
        after(open, elements_at(s, pos + open, Seq::empty()))
    } else {
        failed(0)
    }
}

/// An object: the opening brace, whitespace, and the members up to the
/// closing brace.
pub open spec fn object_at(s: Seq<char>, pos: int) -> Outcome<Json>
    decreases unread(s, pos), 0int,
{
    if char_at(s, pos, '{') {
        let open = 1 + whitespace_len(s, pos + 1);
        after(open, members_at(s, pos + open, Seq::empty()))
    } else {
        failed(0)
    }
}

/// The rest of an array of which the elements `done` have been read: the
/// closing bracket, or a value, what follows it, and after a comma the rest
/// again.
pub open spec fn elements_at(s: Seq<char>, pos: int, done: Seq<Json>) -> Outcome<Json>
    decreases unread(s, pos), 2int,
{
    if char_at(s, pos, ']') {
        found(Json::Array(done), 1)
    } else {
        let element = value_at(s, pos);
        match element.value {
            None => failed(element.consumed),
            Some(v) => {
                let next = separator_at(s, pos + element.consumed, ']');
                let used = element.consumed + next.consumed;
                match next.value {
                    None => failed(used),
                    Some(Separator::Close) => found(Json::Array(done.push(v)), used),
                    Some(Separator::Comma) => after(
                        used,
                        elements_at(s, pos + used, done.push(v)),
                    ),
                }
            },
        }
    }
}

/// A member of an object: a key, a colon and a value, with whitespace allowed
/// on both sides of the colon.
pub open spec fn member_at(s: Seq<char>, pos: int) -> Outcome<(Seq<char>, Json)>
    decreases unread(s, pos), 2int,
{
    let key = key_at(s, pos);
    match key.value {
        None => failed(key.consumed),
        Some(k) => {
            let colon = key.consumed + whitespace_len(s, pos + key.consumed);
            if !char_at(s, pos + colon, ':') {
                failed(colon)
            } else {
                let start = colon + 1 + whitespace_len(s, pos + colon + 1);
                let value = value_at(s, pos + start);
                match value.value {
                    None => failed(start + value.consumed),
                    Some(v) => found((k, v), start + value.consumed),
                }
            }
        },
    }
}

/// The rest of an object of which the members `done` have been read, in that
/// order: the closing brace, or a member, what follows it, and after a comma
/// the rest again. The object maps each key to the value of the last member
/// that has it.
pub open spec fn members_at(s: Seq<char>, pos: int, done: Seq<(Seq<char>, Json)>) -> Outcome<
    Json,
>
    decreases unread(s, pos), 3int,
{
    if char_at(s, pos, '}') {
        found(Json::Object(map_of(done)), 1)
    } else {
        let member = member_at(s, pos);
        match member.value {
            None => failed(member.consumed),
            Some(m) => {
                let next = separator_at(s, pos + member.consumed, '}');
                let used = member.consumed + next.consumed;
                match next.value {
                    None => failed(used),
                    Some(Separator::Close) => found(Json::Object(map_of(done.push(m))), used),
                    Some(Separator::Comma) => after(
                        used,
                        members_at(s, pos + used, done.push(m)),
                    ),
                }
            },
        }
    }
}

/// The values that are read one after the other from `pos` on, each where
/// the one before it ended, up to the first attempt that fails.
pub open spec fn values_at(s: Seq<char>, pos: int) -> Seq<Json>
    decreases unread(s, pos),
{
    let first = value_at(s, pos);
    match first.value {
        None => Seq::empty(),
        Some(v) => {
            proof {
                lemma_value_advances(s, pos);
            }
            seq![v] + values_at(s, pos + first.consumed)
        },
    }
}

/// The number of characters that reading those values consumes, the failed
/// attempt that ends the reading included.
pub open spec fn values_len(s: Seq<char>, pos: int) -> nat
    decreases unread(s, pos),
{
    let first = value_at(s, pos);
    match first.value {
        None => first.consumed,
        Some(v) => {
            proof {
                lemma_value_advances(s, pos);
            }
            first.consumed + values_len(s, pos + first.consumed)
        },
    }
}

/// The first character decides which rule reads a value: the rules begin
/// with different characters, and a value begins with one of them.
pub proof fn lemma_value_by_first_char(s: Seq<char>, pos: int)
    ensures
        literal_at(s, pos, "null"@) ==> char_at(s, pos, 'n') && value_at(s, pos) == found(
            Json::Null,
            4,
        ),
        literal_at(s, pos, "true"@) ==> char_at(s, pos, 't') && value_at(s, pos) == found(
            Json::Bool(true),
            4,
        ),
        literal_at(s, pos, "false"@) ==> char_at(s, pos, 'f') && value_at(s, pos) == found(
            Json::Bool(false),
            5,
        ),
        0 <= pos < s.len() && is_digit(s[pos]) ==> digits_len(s, pos) > 0 && value_at(s, pos)
            == number_at(s, pos),
        char_at(s, pos, '"') ==> value_at(s, pos) == text_at(s, pos),
        char_at(s, pos, '[') ==> value_at(s, pos) == array_at(s, pos),
        char_at(s, pos, '{') ==> value_at(s, pos) == object_at(s, pos),
        value_at(s, pos).value is Some ==> {
            ||| literal_at(s, pos, "null"@)
            ||| literal_at(s, pos, "true"@)
            ||| literal_at(s, pos, "false"@)
            ||| 0 <= pos < s.len() && is_digit(s[pos])
            ||| char_at(s, pos, '"')
            ||| char_at(s, pos, '[')
            ||| char_at(s, pos, '{')
        },
{
    reveal_strlit("null");
    reveal_strlit("true");
    reveal_strlit("false");
    assert(literal_at(s, pos, "null"@) ==> s.subrange(pos, pos + 4)[0] == 'n');
    assert(literal_at(s, pos, "true"@) ==> s.subrange(pos, pos + 4)[0] == 't');
    assert(literal_at(s, pos, "false"@) ==> s.subrange(pos, pos + 5)[0] == 'f');
}

/// A value begins inside the input and takes at least one character.
pub proof fn lemma_value_advances(s: Seq<char>, pos: int)
    ensures
        value_at(s, pos).value is Some ==> 0 <= pos < s.len() && value_at(s, pos).consumed >= 1,
{
    reveal_strlit("null");
    reveal_strlit("true");
    reveal_strlit("false");
}

} // verus!
