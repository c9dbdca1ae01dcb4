//! The recursive-descent rules, run on a cursor.

use crate::chars::{
    digit, digit_value, is_digit, is_key_char, is_string_char, key_char, string_char,
};
use crate::cursor::{char_at, decides, lemma_accepted_run, Input};
use crate::grammar::{
    after, decimal_value, elements_at, lemma_value_advances, member_at, members_at, quoted_at,
    separator_at, unread, value_at, values_at, values_len, Separator,
};
use crate::value::{items_of, map_of, Json, JsonMap, JsonValue};
use vstd::prelude::*;

verus! {

/// A run of digits denotes at least what any of its beginnings denotes, and
/// at least ten times what it denotes without its last digit.
pub proof fn lemma_decimal_value_grows(digits: Seq<char>, n: int)
    requires
        0 <= n <= digits.len(),
    ensures
        decimal_value(digits.take(n)) <= decimal_value(digits),
    decreases digits.len() - n,
{
    if n < digits.len() {
        lemma_decimal_value_grows(digits, n + 1);
        assert(digits.take(n + 1).drop_last() == digits.take(n));
    } else {
        assert(digits.take(n) == digits);
    }
}

/// The number that `digits` denotes, where every character of it is a
/// decimal digit and the number fits the machine's word. No digits at all
/// denote zero.
pub fn decimal(digits: &str) -> (value: Option<usize>)
    ensures
        match value {
            Some(n) => n == decimal_value(digits@) && forall|i: int|
                0 <= i < digits@.len() ==> is_digit(#[trigger] digits@[i]),
            None => decimal_value(digits@) > usize::MAX || exists|i: int|
                0 <= i < digits@.len() && !is_digit(#[trigger] digits@[i]),
        },
{
    let mut value: usize = 0;
    for c in it: digits.chars()
        invariant
            it.seq() == digits@,
            value == decimal_value(digits@.take(it.index() as int)),
            forall|i: int| 0 <= i < it.index() ==> is_digit(#[trigger] digits@[i]),
    {
        let ghost k = it.index() as int;
        assert(digits@.take(k + 1).drop_last() == digits@.take(k));
        assert(digits@.take(k + 1).last() == c);
        if !digit(c) {
            assert(!is_digit(digits@[k]));
            return None;
        }
        let unit: usize = (c as u32 - '0' as u32) as usize;
        assert(unit == digit_value(c));
        proof {
            lemma_decimal_value_grows(digits@, k + 1);
        }
        match value.checked_mul(10) {
            None => {
                return None;
            },
            Some(tens) => match tens.checked_add(unit) {
                None => {
                    return None;
                },
                Some(sum) => {
                    value = sum;
                },
            },
        }
    }
    assert(digits@.take(digits@.len() as int) == digits@);
    Some(value)
}

/// What a value that was read, or the lack of one, stands for.
pub open spec fn meaning(value: Option<JsonValue>) -> Option<Json> {
    match value {
        Some(v) => Some(v@),
        None => None,
    }
}

impl Input<char> {
    /// Reads one value at the cursor.
    ///
    /// The alternatives are tried in a fixed order and the first one whose
    /// opening token is there decides: when that rule fails further on, no
    /// value is read, and the cursor stays where the rule gave up. A run of
    /// digits too long for `usize` is no number.
    ///
    /// Containers nest by recursion, one call for each level, without a
    /// limit of depth.
    pub fn next(&mut self) -> (value: Option<JsonValue>)
        ensures
            final(self).text() == old(self).text(),
            final(self).position() == old(self).position() + value_at(
                old(self).text(),
                old(self).position(),
            ).consumed,
            meaning(value) == value_at(old(self).text(), old(self).position()).value,
        decreases unread(old(self).text(), old(self).position()), 0int,
    {
        let ghost s = self.text();
        let ghost pos = self.position();
        if self.parse_str("null") {
            return Some(JsonValue::JsonNull);
        }
        if self.parse_str("true") {
            return Some(JsonValue::JsonBool(true));
        }
        if self.parse_str("false") {
            return Some(JsonValue::JsonBool(false));
        }
        let digits = self.parse_while(digit);
        proof {
            lemma_accepted_run(s, pos, self.position(), digit, |c: char| is_digit(c));
        }
        if let Some(run) = digits {
            return match decimal(run.as_str()) {
                Some(n) => Some(JsonValue::JsonNumber(n)),
                None => None,
            };
        }
        if self.parse_char('"') {
            return match self.quoted_rest(string_char, Ghost(|c: char| is_string_char(c))) {
                Some(text) => Some(JsonValue::JsonString(text)),
                None => None,
            };
        }
        if self.parse_char('[') {
            self.parse_whitespace();
            return self.elements();
        }
        if self.parse_char('{') {
            self.parse_whitespace();
            return self.members();
        }
        None
    }

    /// Reads values one after the other, each where the one before it ended,
    /// and stops for good at the first attempt that reads none. Nothing is
    /// skipped between two values, and nothing tells the end of the input
    /// from text that is no value: either ends the list.
    pub fn parse_all(&mut self) -> (values: Vec<JsonValue>)
        ensures
            final(self).text() == old(self).text(),
            final(self).position() == old(self).position() + values_len(
                old(self).text(),
                old(self).position(),
            ),
            items_of(values@) == values_at(old(self).text(), old(self).position()),
    {
        let ghost s = self.text();
        let ghost start = self.position();
        let mut values: Vec<JsonValue> = Vec::new();
        loop
            invariant
                s == old(self).text(),
                start == old(self).position(),
                self.text() == s,
                start <= self.position(),
                values_at(s, start) == items_of(values@) + values_at(s, self.position()),
                values_len(s, start) == self.position() - start + values_len(s, self.position()),
            decreases unread(s, self.position()),
        {
            let ghost done = items_of(values@);
            proof {
                lemma_value_advances(s, self.position());
            }
            match self.next() {
                Some(value) => {
                    values.push(value);
                    assert(items_of(values@) == done.push(value@));
                    assert(done.push(value@) == done + seq![value@]);
                },
                None => {
                    return values;
                },
            }
        }
    }

    /// Reads the rest of a quoted text, the opening quote of which has been
    /// read: the characters that `test` accepts, and the closing quote.
    fn quoted_rest<F: Fn(char) -> bool>(
        &mut self,
        test: F,
        Ghost(class): Ghost<spec_fn(char) -> bool>,
    ) -> (text: Option<String>)
        requires
            decides(test, class),
            char_at(old(self).text(), old(self).position() - 1, '"'),
        ensures
            final(self).text() == old(self).text(),
            final(self).position() == old(self).position() - 1 + quoted_at(
                old(self).text(),
                old(self).position() - 1,
                class,
            ).consumed,
            match text {
                Some(t) => quoted_at(old(self).text(), old(self).position() - 1, class).value
                    == Some(t@),
                None => quoted_at(old(self).text(), old(self).position() - 1, class).value is None,
            },
    {
        let ghost s = self.text();
        let ghost pos = self.position();
        let run = self.parse_while(test);
        proof {
            lemma_accepted_run(s, pos, self.position(), test, class);
        }
        match run {
            Some(text) => {
                if self.parse_char('"') {
                    Some(text)
                } else {
                    None
                }
            },
            None => None,
        }
    }

    /// Reads what follows an element of a container that `close` ends.
    /// `Some(true)` where the container ends, `Some(false)` where it goes on.
    fn separator(&mut self, close: char) -> (ended: Option<bool>)
        requires
            close != ',',
        ensures
            final(self).text() == old(self).text(),
            final(self).position() == old(self).position() + separator_at(
                old(self).text(),
                old(self).position(),
                close,
            ).consumed,
            match ended {
                Some(true) => separator_at(old(self).text(), old(self).position(), close).value
                    == Some(Separator::Close),
                Some(false) => separator_at(old(self).text(), old(self).position(), close).value
                    == Some(Separator::Comma),
                None => separator_at(old(self).text(), old(self).position(), close).value is None,
            },
    {
        self.parse_whitespace();
        if self.parse_char(close) {
            return Some(true);
        }
        if !self.parse_char(',') {
            return None;
        }
        self.parse_whitespace();
        Some(false)
    }

    /// Reads the rest of an array, the opening bracket of which has been
    /// read.
    fn elements(&mut self) -> (value: Option<JsonValue>)
        ensures
            final(self).text() == old(self).text(),
            final(self).position() == old(self).position() + elements_at(
                old(self).text(),
                old(self).position(),
                Seq::empty(),
            ).consumed,
            meaning(value) == elements_at(
                old(self).text(),
                old(self).position(),
                Seq::empty(),
            ).value,
        decreases unread(old(self).text(), old(self).position()), 1int,
    {
        let ghost s = self.text();
        let ghost start = self.position();
        let mut items: Vec<JsonValue> = Vec::new();
        assert(items_of(items@) == Seq::<Json>::empty());
        loop
            invariant
                s == old(self).text(),
                start == old(self).position(),
                self.text() == s,
                start <= self.position(),
                elements_at(s, start, Seq::empty()) == after(
                    (self.position() - start) as nat,
                    elements_at(s, self.position(), items_of(items@)),
                ),
            decreases unread(s, self.position()),
        {
            let ghost done = items_of(items@);
            if self.parse_char(']') {
                return Some(JsonValue::JsonArray(items));
            }
            match self.next() {
                Some(element) => {
                    items.push(element);
                    assert(items_of(items@) == done.push(element@));
                },
                None => {
                    return None;
                },
            }
            match self.separator(']') {
                Some(true) => {
                    return Some(JsonValue::JsonArray(items));
                },
                Some(false) => {},
                None => {
                    return None;
                },
            }
        }
    }

    /// Reads one member of an object: key, colon and value.
    fn member(&mut self) -> (pair: Option<(String, JsonValue)>)
        ensures
            final(self).text() == old(self).text(),
            final(self).position() == old(self).position() + member_at(
                old(self).text(),
                old(self).position(),
            ).consumed,
            match pair {
                Some(m) => member_at(old(self).text(), old(self).position()).value == Some(
                    (m.0@, m.1@),
                ),
                None => member_at(old(self).text(), old(self).position()).value is None,
            },
        decreases unread(old(self).text(), old(self).position()), 1int,
    {
        if !self.parse_char('"') {
            return None;
        }
        let key = match self.quoted_rest(key_char, Ghost(|c: char| is_key_char(c))) {
            Some(key) => key,
            None => {
                return None;
            },
        };
        self.parse_whitespace();
        if !self.parse_char(':') {
            return None;
        }
        self.parse_whitespace();
        match self.next() {
            Some(value) => Some((key, value)),
            None => None,
        }
    }

    /// Reads the rest of an object, the opening brace of which has been read.
    fn members(&mut self) -> (value: Option<JsonValue>)
        ensures
            final(self).text() == old(self).text(),
            final(self).position() == old(self).position() + members_at(
                old(self).text(),
                old(self).position(),
                Seq::empty(),
            ).consumed,
            meaning(value) == members_at(
                old(self).text(),
                old(self).position(),
                Seq::empty(),
            ).value,
        decreases unread(old(self).text(), old(self).position()), 2int,
    {
        let ghost s = self.text();
        let ghost start = self.position();
        let mut members = JsonMap::new();
        let ghost done: Seq<(Seq<char>, Json)> = Seq::empty();
        loop
            invariant
                s == old(self).text(),
                start == old(self).position(),
                self.text() == s,
                start <= self.position(),
                members@ == map_of(done),
                members_at(s, start, Seq::empty()) == after(
                    (self.position() - start) as nat,
                    members_at(s, self.position(), done),
                ),
            decreases unread(s, self.position()),
        {
            if self.parse_char('}') {
                return Some(JsonValue::JsonObject(members));
            }
            match self.member() {
                Some(pair) => {
                    proof {
                        let before = done;
                        done = before.push((pair.0@, pair.1@));
                        assert(done.drop_last() == before);
                    }
                    members.insert(pair.0, pair.1);
                },
                None => {
                    return None;
                },
            }
            match self.separator('}') {
                Some(true) => {
                    return Some(JsonValue::JsonObject(members));
                },
                Some(false) => {},
                None => {
                    return None;
                },
            }
        }
    }
}

} // verus!
