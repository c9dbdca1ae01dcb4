//! What holds of the dialect for every input, proved from the definitions in
//! [`crate::grammar`].

use crate::chars::{is_digit, is_key_char, is_string_char, is_whitespace};
use crate::cursor::{char_at, lemma_run_len_bounds, literal_at, whitespace_len};
use crate::grammar::{
    digits_len, elements_at, failed, found, key_at, lemma_value_advances,
    lemma_value_by_first_char, member_at, members_at, quoted_at, separator_at, unread, value_at,
    values_at, values_len, Separator,
};
use crate::parser::meaning;
use crate::value::{map_of, Json, JsonValue};
use vstd::prelude::*;

verus! {

/// Reading is a function of the text and of the position: two readings of
/// equal text from the same position read the same value and stop at the
/// same place.
pub proof fn theorem_reading_is_deterministic(a: Seq<char>, b: Seq<char>, pos: int)
    requires
        a =~= b,
    ensures
        value_at(a, pos) == value_at(b, pos),
        values_at(a, pos) == values_at(b, pos),
{
}

/// Reading the same text again from the same position gives an equal value:
/// whatever two readings hand back stands for the same document, so that
/// [`JsonValue::same`] and `==` find the two equal, or both hand back nothing.
pub proof fn theorem_reading_again_is_equal(
    text: Seq<char>,
    pos: int,
    first: Option<JsonValue>,
    second: Option<JsonValue>,
)
    requires
        meaning(first) == value_at(text, pos).value,
        meaning(second) == value_at(text, pos).value,
    ensures
        first is Some <==> second is Some,
        first is Some ==> first->0@ == second->0@,
{
}

/// What follows an element is read from inside the text.
pub proof fn lemma_separator_in_text(s: Seq<char>, pos: int, close: char)
    requires
        0 <= pos <= s.len(),
    ensures
        pos + separator_at(s, pos, close).consumed <= s.len(),
{
    let gap = whitespace_len(s, pos);
    lemma_run_len_bounds(s, pos, |c: char| is_whitespace(c));
    if !char_at(s, pos + gap, close) && char_at(s, pos + gap, ',') {
        lemma_run_len_bounds(s, pos + gap + 1, |c: char| is_whitespace(c));
    }
}

/// A quoted text is read from inside the text.
pub proof fn lemma_quoted_in_text(s: Seq<char>, pos: int, class: spec_fn(char) -> bool)
    requires
        0 <= pos <= s.len(),
    ensures
        pos + quoted_at(s, pos, class).consumed <= s.len(),
{
    if char_at(s, pos, '"') {
        lemma_run_len_bounds(s, pos + 1, class);
    }
}

/// The cursor never leaves the text: an attempt to read a value, whether it
/// succeeds or not, consumes no more than what is left.
pub proof fn theorem_value_in_text(s: Seq<char>, pos: int)
    requires
        0 <= pos <= s.len(),
    ensures
        pos + value_at(s, pos).consumed <= s.len(),
    decreases unread(s, pos), 1int,
{
    reveal_strlit("null");
    reveal_strlit("true");
    reveal_strlit("false");
    if literal_at(s, pos, "null"@) || literal_at(s, pos, "true"@) || literal_at(s, pos, "false"@) {
    } else if digits_len(s, pos) > 0 {
        lemma_run_len_bounds(s, pos, |c: char| is_digit(c));
    } else if char_at(s, pos, '"') {
        lemma_quoted_in_text(s, pos, |c: char| is_string_char(c));
    } else if char_at(s, pos, '[') {
        lemma_run_len_bounds(s, pos + 1, |c: char| is_whitespace(c));
        lemma_elements_in_text(s, pos + 1 + whitespace_len(s, pos + 1), Seq::empty());
    } else if char_at(s, pos, '{') {
        lemma_run_len_bounds(s, pos + 1, |c: char| is_whitespace(c));
        lemma_members_in_text(s, pos + 1 + whitespace_len(s, pos + 1), Seq::empty());
    }
}

/// The rest of an array is read from inside the text.
pub proof fn lemma_elements_in_text(s: Seq<char>, pos: int, done: Seq<Json>)
    requires
        0 <= pos <= s.len(),
    ensures
        pos + elements_at(s, pos, done).consumed <= s.len(),
    decreases unread(s, pos), 2int,
{
    if !char_at(s, pos, ']') {
        theorem_value_in_text(s, pos);
        let element = value_at(s, pos);
        if let Some(v) = element.value {
            lemma_separator_in_text(s, pos + element.consumed, ']');
            let next = separator_at(s, pos + element.consumed, ']');
            if next.value == Some(Separator::Comma) {
                lemma_elements_in_text(s, pos + element.consumed + next.consumed, done.push(v));
            }
        }
    }
}

/// A member is read from inside the text.
pub proof fn lemma_member_in_text(s: Seq<char>, pos: int)
    requires
        0 <= pos <= s.len(),
    ensures
        pos + member_at(s, pos).consumed <= s.len(),
    decreases unread(s, pos), 2int,
{
    lemma_quoted_in_text(s, pos, |c: char| is_key_char(c));
    let key = key_at(s, pos);
    if key.value is Some {
        lemma_run_len_bounds(s, pos + key.consumed, |c: char| is_whitespace(c));
        let colon = key.consumed + whitespace_len(s, pos + key.consumed);
        if char_at(s, pos + colon, ':') {
            lemma_run_len_bounds(s, pos + colon + 1, |c: char| is_whitespace(c));
            theorem_value_in_text(s, pos + colon + 1 + whitespace_len(s, pos + colon + 1));
        }
    }
}

/// The rest of an object is read from inside the text.
pub proof fn lemma_members_in_text(s: Seq<char>, pos: int, done: Seq<(Seq<char>, Json)>)
    requires
        0 <= pos <= s.len(),
    ensures
        pos + members_at(s, pos, done).consumed <= s.len(),
    decreases unread(s, pos), 3int,
{
    if !char_at(s, pos, '}') {
        lemma_member_in_text(s, pos);
        let member = member_at(s, pos);
        if let Some(m) = member.value {
            lemma_separator_in_text(s, pos + member.consumed, '}');
            let next = separator_at(s, pos + member.consumed, '}');
            if next.value == Some(Separator::Comma) {
                lemma_members_in_text(s, pos + member.consumed + next.consumed, done.push(m));
            }
        }
    }
}

/// Reading values one after the other never leaves the text either.
pub proof fn theorem_values_in_text(s: Seq<char>, pos: int)
    requires
        0 <= pos <= s.len(),
    ensures
        pos + values_len(s, pos) <= s.len(),
    decreases unread(s, pos),
{
    theorem_value_in_text(s, pos);
    lemma_value_advances(s, pos);
    if value_at(s, pos).value is Some {
        theorem_values_in_text(s, pos + value_at(s, pos).consumed);
    }
}

/// An opening bracket with the closing one right behind it is the empty
/// array; no whitespace is needed between the two.
pub proof fn theorem_empty_array(s: Seq<char>, pos: int)
    requires
        char_at(s, pos, '['),
        char_at(s, pos + 1, ']'),
    ensures
        value_at(s, pos) == found(Json::Array(Seq::empty()), 2),
{
    lemma_value_by_first_char(s, pos);
}

/// An opening brace with the closing one right behind it is the empty
/// object.
pub proof fn theorem_empty_object(s: Seq<char>, pos: int)
    requires
        char_at(s, pos, '{'),
        char_at(s, pos + 1, '}'),
    ensures
        value_at(s, pos) == found(Json::Object(Map::empty()), 2),
{
    lemma_value_by_first_char(s, pos);
}

/// Two quotes with nothing between them are no string: the attempt reads the
/// first of them and fails.
pub proof fn theorem_empty_string_is_no_value(s: Seq<char>, pos: int)
    requires
        char_at(s, pos, '"'),
        char_at(s, pos + 1, '"'),
    ensures
        value_at(s, pos) == failed::<Json>(1),
{
    lemma_value_by_first_char(s, pos);
}

/// A string that is read is never empty, and holds ASCII characters other
/// than the quote.
pub proof fn theorem_string_is_not_empty(s: Seq<char>, pos: int)
    requires
        value_at(s, pos).value is Some,
        value_at(s, pos).value->0 is String,
    ensures
        value_at(s, pos).value->0->String_0.len() > 0,
        forall|j: int|
            0 <= j < value_at(s, pos).value->0->String_0.len() ==> is_string_char(
                #[trigger] value_at(s, pos).value->0->String_0[j],
            ),
{
    lemma_value_by_first_char(s, pos);
    theorem_value_in_text(s, pos);
    if char_at(s, pos, '[') {
        lemma_elements_are_array(s, pos + 1 + whitespace_len(s, pos + 1), Seq::empty());
    } else if char_at(s, pos, '{') {
        lemma_members_are_object(s, pos + 1 + whitespace_len(s, pos + 1), Seq::empty());
    } else if char_at(s, pos, '"') {
        lemma_run_len_bounds(s, pos + 1, |c: char| is_string_char(c));
    }
}

/// What the rest of an array is read as is an array.
proof fn lemma_elements_are_array(s: Seq<char>, pos: int, done: Seq<Json>)
    ensures
        elements_at(s, pos, done).value is Some ==> elements_at(s, pos, done).value->0 is Array,
    decreases unread(s, pos),
{
    if !char_at(s, pos, ']') {
        let element = value_at(s, pos);
        if let Some(v) = element.value {
            let next = separator_at(s, pos + element.consumed, ']');
            if next.value == Some(Separator::Comma) {
                lemma_elements_are_array(s, pos + element.consumed + next.consumed, done.push(v));
            }
        }
    }
}

/// What the rest of an object is read as is an object.
proof fn lemma_members_are_object(s: Seq<char>, pos: int, done: Seq<(Seq<char>, Json)>)
    ensures
        members_at(s, pos, done).value is Some ==> members_at(s, pos, done).value->0 is Object,
    decreases unread(s, pos),
{
    if !char_at(s, pos, '}') {
        let member = member_at(s, pos);
        if let Some(m) = member.value {
            let next = separator_at(s, pos + member.consumed, '}');
            if next.value == Some(Separator::Comma) {
                lemma_members_are_object(s, pos + member.consumed + next.consumed, done.push(m));
            }
        }
    }
}

/// A string that is not closed is no value: where a quote opens at `pos` and
/// no quote follows it, nothing is read as a value there.
pub proof fn theorem_open_string_is_no_value(s: Seq<char>, pos: int)
    requires
        char_at(s, pos, '"'),
        forall|j: int| pos < j < s.len() ==> s[j] != '"',
    ensures
        value_at(s, pos).value is None,
{
    lemma_value_by_first_char(s, pos);
}

/// A container that is read is closed: the last character that was read for
/// an array is its closing bracket, and for an object its closing brace.
/// So a text that ends inside a container holds no value there.
pub proof fn theorem_container_is_closed(s: Seq<char>, pos: int)
    requires
        value_at(s, pos).value is Some,
    ensures
        char_at(s, pos, '[') ==> char_at(s, pos + value_at(s, pos).consumed - 1, ']'),
        char_at(s, pos, '{') ==> char_at(s, pos + value_at(s, pos).consumed - 1, '}'),
{
    lemma_value_by_first_char(s, pos);
    let open = 1 + whitespace_len(s, pos + 1);
    if char_at(s, pos, '[') {
        lemma_elements_are_closed(s, pos + open, Seq::empty());
    } else if char_at(s, pos, '{') {
        lemma_members_are_closed(s, pos + open, Seq::empty());
    }
}

proof fn lemma_elements_are_closed(s: Seq<char>, pos: int, done: Seq<Json>)
    requires
        elements_at(s, pos, done).value is Some,
    ensures
        char_at(s, pos + elements_at(s, pos, done).consumed - 1, ']'),
    decreases unread(s, pos),
{
    if !char_at(s, pos, ']') {
        let element = value_at(s, pos);
        let next = separator_at(s, pos + element.consumed, ']');
        if next.value == Some(Separator::Comma) {
            lemma_elements_are_closed(
                s,
                pos + element.consumed + next.consumed,
                done.push(element.value->0),
            );
        }
    }
}

proof fn lemma_members_are_closed(s: Seq<char>, pos: int, done: Seq<(Seq<char>, Json)>)
    requires
        members_at(s, pos, done).value is Some,
    ensures
        char_at(s, pos + members_at(s, pos, done).consumed - 1, '}'),
    decreases unread(s, pos),
{
    if !char_at(s, pos, '}') {
        let member = member_at(s, pos);
        let next = separator_at(s, pos + member.consumed, '}');
        if next.value == Some(Separator::Comma) {
            lemma_members_are_closed(
                s,
                pos + member.consumed + next.consumed,
                done.push(member.value->0),
            );
        }
    }
}

/// Of the members of an object that share a key, the last one stays: a pair
/// that no later pair repeats the key of gives the map its value for that
/// key.
pub proof fn theorem_last_member_wins(pairs: Seq<(Seq<char>, Json)>, i: int)
    requires
        0 <= i < pairs.len(),
        forall|j: int| i < j < pairs.len() ==> (#[trigger] pairs[j]).0 != pairs[i].0,
    ensures
        map_of(pairs).contains_key(pairs[i].0),
        map_of(pairs)[pairs[i].0] == pairs[i].1,
    decreases pairs.len(),
{
    if i < pairs.len() - 1 {
        let front = pairs.drop_last();
        assert(front[i] == pairs[i]);
        assert forall|j: int| i < j < front.len() implies (#[trigger] front[j]).0 != front[i].0 by {
            assert(front[j] == pairs[j]);
        }
        theorem_last_member_wins(front, i);
        assert(pairs[pairs.len() - 1].0 != pairs[i].0);
    }
}

/// The members that are read from `pos` on, in their order, up to the one
/// behind which the object closes or the reading fails.
pub open spec fn member_list_at(s: Seq<char>, pos: int) -> Seq<(Seq<char>, Json)>
    decreases unread(s, pos),
{
    if char_at(s, pos, '}') {
        Seq::empty()
    } else {
        let member = member_at(s, pos);
        match member.value {
            None => Seq::empty(),
            Some(m) => {
                let next = separator_at(s, pos + member.consumed, '}');
                if next.value == Some(Separator::Comma) {
                    seq![m] + member_list_at(s, pos + member.consumed + next.consumed)
                } else {
                    seq![m]
                }
            },
        }
    }
}

/// An object that is read holds its members as [`map_of`] puts them
/// together: what was read before, then the members from `pos` on, each
/// replacing an earlier one of the same key.
pub proof fn theorem_object_of_members(s: Seq<char>, pos: int, done: Seq<(Seq<char>, Json)>)
    ensures
        members_at(s, pos, done).value is Some ==> members_at(s, pos, done).value == Some(
            Json::Object(map_of(done + member_list_at(s, pos))),
        ),
    decreases unread(s, pos),
{
    if char_at(s, pos, '}') {
        assert(done + member_list_at(s, pos) == done);
    } else {
        let member = member_at(s, pos);
        if let Some(m) = member.value {
            let next = separator_at(s, pos + member.consumed, '}');
            let used = member.consumed + next.consumed;
            if next.value == Some(Separator::Comma) {
                theorem_object_of_members(s, pos + used, done.push(m));
                assert(done.push(m) + member_list_at(s, pos + used) == done + (seq![m]
                    + member_list_at(s, pos + used)));
            } else {
                assert(done + seq![m] == done.push(m));
            }
        }
    }
}

/// After a value has been read, reading goes on where that value ended: the
/// values read from a position are the first one and then those read from
/// behind it. Where no value can be read, the list ends.
pub proof fn theorem_values_resume(s: Seq<char>, pos: int)
    ensures
        match value_at(s, pos).value {
            Some(first) => values_at(s, pos) == seq![first] + values_at(
                s,
                pos + value_at(s, pos).consumed,
            ),
            None => values_at(s, pos) == Seq::<Json>::empty(),
        },
{
}

} // verus!
