//! Whitespace between the tokens of a container does not change what is
//! read.
//!
//! The places where whitespace may stand are those where the grammar skips
//! it: behind an opening delimiter, behind an element, behind a key, a colon
//! or a comma ([`value_gap`]). [`theorem_whitespace_between_tokens`] says
//! that a run of whitespace put in at such a place leaves the value as it
//! was, and [`theorem_places_stay`] that the places of the shorter text are
//! places of the longer one, so that the first theorem can be used again and
//! again, for any number of places.
//!
//! Both rest on one observation ([`lemma_value_moves`]): what is read at a
//! position depends on the characters that are read there, and on whether a
//! digit follows them, and on nothing else in the text. The proofs follow the
//! grammar rule by rule, and take each place where the whitespace may have
//! been put in by itself.

use crate::chars::{is_digit, is_key_char, is_string_char, is_whitespace};
use crate::cursor::{
    char_at, lemma_run_len, lemma_run_len_bounds, literal_at, run_len, whitespace_len,
};
use crate::grammar::{
    array_at, digits_len, elements_at, key_at, lemma_value_advances, lemma_value_by_first_char,
    member_at, members_at, number_at, object_at, quoted_at, separator_at, unread, value_at,
    Outcome, Separator,
};
use crate::theorems::{
    lemma_elements_in_text, lemma_member_in_text, lemma_members_in_text, lemma_quoted_in_text,
    lemma_separator_in_text, theorem_value_in_text,
};
use crate::value::Json;
use vstd::prelude::*;

verus! {

/// `s` with `gap` put in before the character at `i`.
pub open spec fn insert_at(s: Seq<char>, i: int, gap: Seq<char>) -> Seq<char> {
    s.subrange(0, i) + gap + s.subrange(i, s.len() as int)
}

/// `gap` holds nothing but whitespace.
pub open spec fn all_whitespace(gap: Seq<char>) -> bool {
    forall|j: int| 0 <= j < gap.len() ==> is_whitespace(#[trigger] gap[j])
}

/// `outcome`, with `more` characters read on the way.
pub open spec fn grown<T>(outcome: Outcome<T>, more: nat) -> Outcome<T> {
    Outcome { value: outcome.value, consumed: outcome.consumed + more }
}

/// `i` is a place between two tokens of the container that is read at `pos`,
/// or of a container nested in it: behind an opening delimiter, behind an
/// element, behind a key, a colon or a comma.
pub open spec fn value_gap(s: Seq<char>, pos: int, i: int) -> bool
    decreases unread(s, pos), 1int,
{
    if char_at(s, pos, '[') {
        i == pos + 1 || elements_gap(s, pos + 1 + whitespace_len(s, pos + 1), i)
    } else if char_at(s, pos, '{') {
        i == pos + 1 || members_gap(s, pos + 1 + whitespace_len(s, pos + 1), i)
    } else {
        false
    }
}

/// `i` is such a place in the rest of an array.
pub open spec fn elements_gap(s: Seq<char>, pos: int, i: int) -> bool
    decreases unread(s, pos), 2int,
{
    if char_at(s, pos, ']') {
        false
    } else {
        let element = value_at(s, pos);
        let behind = pos + element.consumed;
        let next = separator_at(s, behind, ']');
        element.value is Some && (value_gap(s, pos, i) || i == behind || (next.value == Some(
            Separator::Comma,
        ) && (i == behind + whitespace_len(s, behind) + 1 || elements_gap(
            s,
            behind + next.consumed,
            i,
        ))))
    }
}

/// `i` is such a place in a member of an object.
pub open spec fn member_gap(s: Seq<char>, pos: int, i: int) -> bool
    decreases unread(s, pos), 2int,
{
    let key = key_at(s, pos);
    let colon = key.consumed + whitespace_len(s, pos + key.consumed);
    let start = colon + 1 + whitespace_len(s, pos + colon + 1);
    key.value is Some && (i == pos + key.consumed || (char_at(s, pos + colon, ':') && (i == pos
        + colon + 1 || value_gap(s, pos + start, i))))
}

/// `i` is such a place in the rest of an object.
pub open spec fn members_gap(s: Seq<char>, pos: int, i: int) -> bool
    decreases unread(s, pos), 3int,
{
    if char_at(s, pos, '}') {
        false
    } else {
        let member = member_at(s, pos);
        let behind = pos + member.consumed;
        let next = separator_at(s, behind, '}');
        member.value is Some && (member_gap(s, pos, i) || i == behind || (next.value == Some(
            Separator::Comma,
        ) && (i == behind + whitespace_len(s, behind) + 1 || members_gap(
            s,
            behind + next.consumed,
            i,
        ))))
    }
}

/// Whitespace between tokens is read over. Where a value is read at `pos`,
/// and `i` is a place between two tokens of it, any run of whitespace may be
/// put in at `i`: the same value is read from the longer text, and the
/// reading ends as many characters later as were put in.
pub proof fn theorem_whitespace_between_tokens(s: Seq<char>, pos: int, i: int, gap: Seq<char>)
    requires
        value_at(s, pos).value is Some,
        value_gap(s, pos, i),
        all_whitespace(gap),
    ensures
        pos < i < pos + value_at(s, pos).consumed <= s.len(),
        value_at(insert_at(s, i, gap), pos) == grown(value_at(s, pos), gap.len()),
{
    lemma_value_gap_inside(s, pos, i);
    lemma_value_advances(s, pos);
    theorem_value_in_text(s, pos);
    let t = insert_at(s, i, gap);
    assert(inserted(s, t, i, gap)) by {
        reveal(inserted);
    }
    lemma_value_gap(s, t, pos, i, gap);
}

/// Where a place lies once more whitespace has been put in before the one at
/// `i`: where it was, if it is `i` or stands before it, and that much further
/// on, if it stands behind.
pub open spec fn moved(j: int, i: int, more: nat) -> int {
    if j <= i {
        j
    } else {
        j + more
    }
}

/// The places stay. Where more whitespace is put in at a place between the
/// tokens of a value, every place between its tokens is one in the longer
/// text too: where it was, if it does not stand behind the whitespace that
/// was put in, and that much further on, if it does. So whitespace can be put
/// in at one place after the other, in any number of them.
pub proof fn theorem_places_stay(s: Seq<char>, pos: int, i: int, gap: Seq<char>, j: int)
    requires
        value_at(s, pos).value is Some,
        value_gap(s, pos, i),
        value_gap(s, pos, j),
        all_whitespace(gap),
    ensures
        value_gap(insert_at(s, i, gap), pos, moved(j, i, gap.len())),
{
    lemma_value_gap_inside(s, pos, i);
    lemma_value_advances(s, pos);
    theorem_value_in_text(s, pos);
    let t = insert_at(s, i, gap);
    assert(inserted(s, t, i, gap)) by {
        reveal(inserted);
    }
    lemma_value_place_stays(s, t, pos, i, gap, j);
}

/// The characters of `a` from `from` up to `to` stand in `b` too, `shift`
/// places further on, and what follows them in `b` does not prolong a number
/// that ends at `to`.
#[verifier::opaque]
pub open spec fn window(a: Seq<char>, b: Seq<char>, from: int, to: int, shift: int) -> bool {
    &&& 0 <= from <= to <= a.len()
    &&& 0 <= from + shift
    &&& to + shift <= b.len()
    &&& forall|j: int| from <= j < to ==> b[j + shift] == #[trigger] a[j]
    &&& (to + shift == b.len() || !is_digit(b[to + shift]) || (to < a.len() && b[to + shift]
        == a[to]))
}

/// A run that stands in both texts, and ends in both, has one length.
proof fn lemma_run_moves(
    a: Seq<char>,
    b: Seq<char>,
    p: int,
    shift: int,
    class: spec_fn(char) -> bool,
)
    requires
        0 <= p <= a.len(),
        0 <= p + shift,
        p + run_len(a, p, class) + shift <= b.len(),
        forall|j: int| p <= j < p + run_len(a, p, class) ==> b[j + shift] == #[trigger] a[j],
        p + run_len(a, p, class) + shift == b.len() || !class(
            b[p + run_len(a, p, class) + shift],
        ),
    ensures
        run_len(b, p + shift, class) == run_len(a, p, class),
{
    let n = run_len(a, p, class);
    lemma_run_len_bounds(a, p, class);
    assert forall|i: int| p + shift <= i < p + shift + n implies class(#[trigger] b[i]) by {
        assert(b[(i - shift) + shift] == a[i - shift]);
    }
    lemma_run_len(b, p + shift, class, n);
}

/// A quoted text that is read in one text is read in the other.
#[verifier::rlimit(100)]
proof fn lemma_quoted_moves(
    a: Seq<char>,
    b: Seq<char>,
    p: int,
    shift: int,
    class: spec_fn(char) -> bool,
)
    requires
        quoted_at(a, p, class).value is Some,
        window(a, b, p, p + quoted_at(a, p, class).consumed, shift),
    ensures
        quoted_at(b, p + shift, class) == quoted_at(a, p, class),
{
    reveal(window);
    let n = run_len(a, p + 1, class);
    assert(b[p + shift] == a[p]);
    assert(b[p + 1 + n + shift] == a[p + 1 + n]);
    lemma_run_len_bounds(a, p + 1, class);
    lemma_run_moves(a, b, p + 1, shift, class);
    assert(b.subrange(p + shift + 1, p + shift + 1 + n) =~= a.subrange(p + 1, p + 1 + n));
}

/// What follows an element in one text follows it in the other.
#[verifier::rlimit(100)]
proof fn lemma_separator_moves(a: Seq<char>, b: Seq<char>, p: int, shift: int, close: char)
    requires
        0 <= p <= a.len(),
        separator_at(a, p, close).value is Some,
        !is_whitespace(close),
        window(a, b, p, p + separator_at(a, p, close).consumed, shift),
        separator_at(a, p, close).value == Some(Separator::Comma) ==> {
            let end = p + separator_at(a, p, close).consumed;
            end + shift == b.len() || (end < a.len() && b[end + shift] == a[end])
        },
    ensures
        separator_at(b, p + shift, close) == separator_at(a, p, close),
{
    reveal(window);
    let gap = whitespace_len(a, p);
    lemma_run_len_bounds(a, p, |c: char| is_whitespace(c));
    assert(b[p + gap + shift] == a[p + gap]);
    lemma_run_moves(a, b, p, shift, |c: char| is_whitespace(c));
    if !char_at(a, p + gap, close) {
        lemma_run_len_bounds(a, p + gap + 1, |c: char| is_whitespace(c));
        lemma_run_moves(a, b, p + gap + 1, shift, |c: char| is_whitespace(c));
    }
}

/// A number that is read in one text is read in the other.
proof fn lemma_number_moves(a: Seq<char>, b: Seq<char>, p: int, shift: int)
    requires
        number_at(a, p).value is Some,
        window(a, b, p, p + number_at(a, p).consumed, shift),
    ensures
        number_at(b, p + shift) == number_at(a, p),
{
    reveal(window);
    let n = digits_len(a, p);
    lemma_run_len_bounds(a, p, |c: char| is_digit(c));
    lemma_run_moves(a, b, p, shift, |c: char| is_digit(c));
    assert(b.subrange(p + shift, p + shift + n) =~= a.subrange(p, p + n));
}

/// A literal that stands in one text stands in the other.
proof fn lemma_literal_moves(a: Seq<char>, b: Seq<char>, p: int, shift: int, lit: Seq<char>)
    requires
        literal_at(a, p, lit),
        window(a, b, p, p + lit.len(), shift),
    ensures
        literal_at(b, p + shift, lit),
{
    reveal(window);
    assert(b.subrange(p + shift, p + shift + lit.len()) =~= a.subrange(p, p + lit.len()));
}

/// A value that is read in one text is read in the other, where the other
/// holds the same characters.
#[verifier::rlimit(100)]
pub proof fn lemma_value_moves(a: Seq<char>, b: Seq<char>, p: int, shift: int)
    requires
        value_at(a, p).value is Some,
        window(a, b, p, p + value_at(a, p).consumed, shift),
    ensures
        value_at(b, p + shift) == value_at(a, p),
    decreases unread(a, p), 1int,
{
    reveal(window);
    reveal_strlit("null");
    reveal_strlit("true");
    reveal_strlit("false");
    lemma_value_advances(a, p);
    lemma_value_by_first_char(a, p);
    lemma_value_by_first_char(b, p + shift);
    assert(b[p + shift] == a[p]);
    if literal_at(a, p, "null"@) {
        lemma_literal_moves(a, b, p, shift, "null"@);
    } else if literal_at(a, p, "true"@) {
        lemma_literal_moves(a, b, p, shift, "true"@);
    } else if literal_at(a, p, "false"@) {
        lemma_literal_moves(a, b, p, shift, "false"@);
    } else if is_digit(a[p]) {
        lemma_number_moves(a, b, p, shift);
    } else if char_at(a, p, '"') {
        lemma_quoted_moves(a, b, p, shift, |c: char| is_string_char(c));
    } else if char_at(a, p, '[') {
        lemma_array_moves(a, b, p, shift);
    } else {
        lemma_object_moves(a, b, p, shift);
    }
}

#[verifier::rlimit(100)]
proof fn lemma_array_moves(a: Seq<char>, b: Seq<char>, p: int, shift: int)
    requires
        array_at(a, p).value is Some,
        window(a, b, p, p + array_at(a, p).consumed, shift),
    ensures
        array_at(b, p + shift) == array_at(a, p),
    decreases unread(a, p), 0int,
{
    reveal(window);
    let open = 1 + whitespace_len(a, p + 1);
    lemma_run_len_bounds(a, p + 1, |c: char| is_whitespace(c));
    assert(b[p + shift] == a[p]);
    assert(b[p + open + shift] == a[p + open]);
    lemma_run_moves(a, b, p + 1, shift, |c: char| is_whitespace(c));
    lemma_elements_moves(a, b, p + open, shift, Seq::empty());
}

#[verifier::rlimit(100)]
proof fn lemma_object_moves(a: Seq<char>, b: Seq<char>, p: int, shift: int)
    requires
        object_at(a, p).value is Some,
        window(a, b, p, p + object_at(a, p).consumed, shift),
    ensures
        object_at(b, p + shift) == object_at(a, p),
    decreases unread(a, p), 0int,
{
    reveal(window);
    let open = 1 + whitespace_len(a, p + 1);
    lemma_run_len_bounds(a, p + 1, |c: char| is_whitespace(c));
    assert(b[p + shift] == a[p]);
    assert(b[p + open + shift] == a[p + open]);
    lemma_run_moves(a, b, p + 1, shift, |c: char| is_whitespace(c));
    lemma_members_moves(a, b, p + open, shift, Seq::empty());
}

#[verifier::rlimit(100)]
proof fn lemma_elements_moves(a: Seq<char>, b: Seq<char>, p: int, shift: int, done: Seq<Json>)
    requires
        elements_at(a, p, done).value is Some,
        window(a, b, p, p + elements_at(a, p, done).consumed, shift),
    ensures
        elements_at(b, p + shift, done) == elements_at(a, p, done),
    decreases unread(a, p), 2int,
{
    reveal(window);
    assert(b[p + shift] == a[p]);
    if !char_at(a, p, ']') {
        let element = value_at(a, p);
        let v = element.value->0;
        let next = separator_at(a, p + element.consumed, ']');
        let used = element.consumed + next.consumed;
        lemma_value_advances(a, p);
        assert(b[p + element.consumed + shift] == a[p + element.consumed]);
        lemma_value_moves(a, b, p, shift);
        if next.value == Some(Separator::Comma) {
            assert(elements_at(a, p + used, done.push(v)).value is Some);
            assert(b[p + used + shift] == a[p + used]);
            lemma_separator_moves(a, b, p + element.consumed, shift, ']');
            lemma_elements_moves(a, b, p + used, shift, done.push(v));
        } else {
            lemma_separator_moves(a, b, p + element.consumed, shift, ']');
        }
    }
}

#[verifier::rlimit(100)]
proof fn lemma_member_moves(a: Seq<char>, b: Seq<char>, p: int, shift: int)
    requires
        member_at(a, p).value is Some,
        window(a, b, p, p + member_at(a, p).consumed, shift),
    ensures
        member_at(b, p + shift) == member_at(a, p),
    decreases unread(a, p), 2int,
{
    reveal(window);
    let key = key_at(a, p);
    let colon = key.consumed + whitespace_len(a, p + key.consumed);
    let start = colon + 1 + whitespace_len(a, p + colon + 1);
    lemma_value_advances(a, p + start);
    lemma_run_len_bounds(a, p + key.consumed, |c: char| is_whitespace(c));
    lemma_run_len_bounds(a, p + colon + 1, |c: char| is_whitespace(c));
    assert(b[p + key.consumed + shift] == a[p + key.consumed]);
    assert(b[p + colon + shift] == a[p + colon]);
    assert(b[p + start + shift] == a[p + start]);
    lemma_quoted_moves(a, b, p, shift, |c: char| is_key_char(c));
    lemma_run_moves(a, b, p + key.consumed, shift, |c: char| is_whitespace(c));
    lemma_run_moves(a, b, p + colon + 1, shift, |c: char| is_whitespace(c));
    lemma_value_moves(a, b, p + start, shift);
}

#[verifier::rlimit(100)]
proof fn lemma_members_moves(
    a: Seq<char>,
    b: Seq<char>,
    p: int,
    shift: int,
    done: Seq<(Seq<char>, Json)>,
)
    requires
        members_at(a, p, done).value is Some,
        window(a, b, p, p + members_at(a, p, done).consumed, shift),
    ensures
        members_at(b, p + shift, done) == members_at(a, p, done),
    decreases unread(a, p), 3int,
{
    reveal(window);
    assert(b[p + shift] == a[p]);
    if !char_at(a, p, '}') {
        let member = member_at(a, p);
        let m = member.value->0;
        let next = separator_at(a, p + member.consumed, '}');
        let used = member.consumed + next.consumed;
        assert(b[p + member.consumed + shift] == a[p + member.consumed]);
        lemma_member_moves(a, b, p, shift);
        if next.value == Some(Separator::Comma) {
            assert(members_at(a, p + used, done.push(m)).value is Some);
            assert(b[p + used + shift] == a[p + used]);
            lemma_separator_moves(a, b, p + member.consumed, shift, '}');
            lemma_members_moves(a, b, p + used, shift, done.push(m));
        } else {
            lemma_separator_moves(a, b, p + member.consumed, shift, '}');
        }
    }
}

/// A place between the tokens of a value lies inside that value.
pub proof fn lemma_value_gap_inside(s: Seq<char>, pos: int, i: int)
    requires
        value_at(s, pos).value is Some,
        value_gap(s, pos, i),
    ensures
        pos < i < pos + value_at(s, pos).consumed,
    decreases unread(s, pos), 1int,
{
    lemma_value_by_first_char(s, pos);
    let open = 1 + whitespace_len(s, pos + 1);
    if char_at(s, pos, '[') {
        if i != pos + 1 {
            lemma_elements_gap_inside(s, pos + open, i, Seq::empty());
        }
    } else {
        if i != pos + 1 {
            lemma_members_gap_inside(s, pos + open, i, Seq::empty());
        }
    }
}

proof fn lemma_elements_gap_inside(s: Seq<char>, pos: int, i: int, done: Seq<Json>)
    requires
        elements_at(s, pos, done).value is Some,
        elements_gap(s, pos, i),
    ensures
        pos < i < pos + elements_at(s, pos, done).consumed,
    decreases unread(s, pos), 2int,
{
    let element = value_at(s, pos);
    let behind = pos + element.consumed;
    let next = separator_at(s, behind, ']');
    lemma_value_advances(s, pos);
    if value_gap(s, pos, i) {
        lemma_value_gap_inside(s, pos, i);
    } else if i == behind {
    } else if i == behind + whitespace_len(s, behind) + 1 {
    } else {
        lemma_elements_gap_inside(s, behind + next.consumed, i, done.push(element.value->0));
    }
}

proof fn lemma_member_gap_inside(s: Seq<char>, pos: int, i: int)
    requires
        member_at(s, pos).value is Some,
        member_gap(s, pos, i),
    ensures
        pos < i < pos + member_at(s, pos).consumed,
    decreases unread(s, pos), 2int,
{
    let key = key_at(s, pos);
    let colon = key.consumed + whitespace_len(s, pos + key.consumed);
    let start = colon + 1 + whitespace_len(s, pos + colon + 1);
    lemma_value_advances(s, pos + start);
    if i == pos + key.consumed {
    } else if i == pos + colon + 1 {
    } else {
        lemma_value_gap_inside(s, pos + start, i);
    }
}

proof fn lemma_members_gap_inside(s: Seq<char>, pos: int, i: int, done: Seq<(Seq<char>, Json)>)
    requires
        members_at(s, pos, done).value is Some,
        members_gap(s, pos, i),
    ensures
        pos < i < pos + members_at(s, pos, done).consumed,
    decreases unread(s, pos), 3int,
{
    let member = member_at(s, pos);
    let behind = pos + member.consumed;
    let next = separator_at(s, behind, '}');
    if member_gap(s, pos, i) {
        lemma_member_gap_inside(s, pos, i);
    } else if i == behind {
    } else if i == behind + whitespace_len(s, behind) + 1 {
    } else {
        lemma_members_gap_inside(s, behind + next.consumed, i, done.push(member.value->0));
    }
}

/// A place between the tokens of a value in one text is one in the other,
/// as many characters further on as the value stands there.
#[verifier::rlimit(100)]
proof fn lemma_value_place_moves(a: Seq<char>, b: Seq<char>, p: int, shift: int, j: int)
    requires
        value_at(a, p).value is Some,
        window(a, b, p, p + value_at(a, p).consumed, shift),
        value_gap(a, p, j),
    ensures
        value_gap(b, p + shift, j + shift),
    decreases unread(a, p), 1int, 1int,
{
    lemma_value_by_first_char(a, p);
    lemma_container_opens(a, b, p, shift);
    let open = 1 + whitespace_len(a, p + 1);
    if j != p + 1 {
        if char_at(a, p, '[') {
            lemma_elements_place_moves(a, b, p + open, shift, Seq::empty(), j);
        } else {
            lemma_members_place_moves(a, b, p + open, shift, Seq::empty(), j);
        }
    }
}

/// The opening delimiter of a container and the whitespace behind it stand in
/// both texts alike, and so does the window of what follows them.
#[verifier::rlimit(100)]
proof fn lemma_container_opens(a: Seq<char>, b: Seq<char>, p: int, shift: int)
    requires
        value_at(a, p).value is Some,
        char_at(a, p, '[') || char_at(a, p, '{'),
        window(a, b, p, p + value_at(a, p).consumed, shift),
    ensures
        0 <= p + shift < b.len(),
        b[p + shift] == a[p],
        whitespace_len(b, p + 1 + shift) == whitespace_len(a, p + 1),
        window(
            a,
            b,
            p + 1 + whitespace_len(a, p + 1),
            p + value_at(a, p).consumed,
            shift,
        ),
{
    reveal(window);
    let class = |c: char| is_whitespace(c);
    let open = 1 + whitespace_len(a, p + 1);
    lemma_value_by_first_char(a, p);
    lemma_run_len_bounds(a, p + 1, class);
    assert(b[p + shift] == a[p]);
    assert(b[p + open + shift] == a[p + open]);
    lemma_run_moves(a, b, p + 1, shift, class);
}

#[verifier::rlimit(100)]
proof fn lemma_elements_place_moves(
    a: Seq<char>,
    b: Seq<char>,
    p: int,
    shift: int,
    done: Seq<Json>,
    j: int,
)
    requires
        elements_at(a, p, done).value is Some,
        window(a, b, p, p + elements_at(a, p, done).consumed, shift),
        elements_gap(a, p, j),
    ensures
        elements_gap(b, p + shift, j + shift),
    decreases unread(a, p), 2int, 0int,
{
    reveal(window);
    let class = |c: char| is_whitespace(c);
    let element = value_at(a, p);
    let v = element.value->0;
    let behind = p + element.consumed;
    let next = separator_at(a, behind, ']');
    let used = element.consumed + next.consumed;
    let g = whitespace_len(a, behind);
    lemma_value_advances(a, p);
    lemma_run_len_bounds(a, behind, class);
    assert(b[p + shift] == a[p]);
    assert(b[behind + shift] == a[behind]);
    assert(b[behind + g + shift] == a[behind + g]);
    lemma_value_moves(a, b, p, shift);
    lemma_run_moves(a, b, behind, shift, class);
    if next.value == Some(Separator::Comma) {
        assert(elements_at(a, p + used, done.push(v)).value is Some);
        assert(b[p + used + shift] == a[p + used]);
    }
    lemma_separator_moves(a, b, behind, shift, ']');
    if value_gap(a, p, j) {
        lemma_value_place_moves(a, b, p, shift, j);
    } else if j == behind {
    } else if j == behind + g + 1 {
    } else {
        lemma_elements_place_moves(a, b, p + used, shift, done.push(v), j);
    }
}

/// The key, the colon and the whitespace of a member stand in both texts
/// alike, and so does the window of its value.
#[verifier::rlimit(100)]
proof fn lemma_member_parts_move(a: Seq<char>, b: Seq<char>, p: int, shift: int)
    requires
        member_at(a, p).value is Some,
        window(a, b, p, p + member_at(a, p).consumed, shift),
    ensures
        key_at(b, p + shift) == key_at(a, p),
        ({
            let key = key_at(a, p);
            let colon = key.consumed + whitespace_len(a, p + key.consumed);
            let start = colon + 1 + whitespace_len(a, p + colon + 1);
            &&& whitespace_len(b, p + key.consumed + shift) == whitespace_len(a, p + key.consumed)
            &&& char_at(b, p + colon + shift, ':')
            &&& whitespace_len(b, p + colon + 1 + shift) == whitespace_len(a, p + colon + 1)
            &&& window(a, b, p + start, p + start + value_at(a, p + start).consumed, shift)
        }),
{
    reveal(window);
    let class = |c: char| is_whitespace(c);
    let key = key_at(a, p);
    let colon = key.consumed + whitespace_len(a, p + key.consumed);
    let start = colon + 1 + whitespace_len(a, p + colon + 1);
    lemma_value_advances(a, p + start);
    lemma_run_len_bounds(a, p + key.consumed, class);
    lemma_run_len_bounds(a, p + colon + 1, class);
    assert(b[p + key.consumed + shift] == a[p + key.consumed]);
    assert(b[p + colon + shift] == a[p + colon]);
    assert(b[p + start + shift] == a[p + start]);
    lemma_quoted_moves(a, b, p, shift, |c: char| is_key_char(c));
    lemma_run_moves(a, b, p + key.consumed, shift, class);
    lemma_run_moves(a, b, p + colon + 1, shift, class);
}

#[verifier::rlimit(100)]
proof fn lemma_member_place_moves(a: Seq<char>, b: Seq<char>, p: int, shift: int, j: int)
    requires
        member_at(a, p).value is Some,
        window(a, b, p, p + member_at(a, p).consumed, shift),
        member_gap(a, p, j),
    ensures
        member_gap(b, p + shift, j + shift),
    decreases unread(a, p), 2int, 0int,
{
    let key = key_at(a, p);
    let colon = key.consumed + whitespace_len(a, p + key.consumed);
    let start = colon + 1 + whitespace_len(a, p + colon + 1);
    lemma_member_parts_move(a, b, p, shift);
    if j != p + key.consumed && j != p + colon + 1 {
        lemma_value_place_moves(a, b, p + start, shift, j);
    }
}

#[verifier::rlimit(100)]
proof fn lemma_members_place_moves(
    a: Seq<char>,
    b: Seq<char>,
    p: int,
    shift: int,
    done: Seq<(Seq<char>, Json)>,
    j: int,
)
    requires
        members_at(a, p, done).value is Some,
        window(a, b, p, p + members_at(a, p, done).consumed, shift),
        members_gap(a, p, j),
    ensures
        members_gap(b, p + shift, j + shift),
    decreases unread(a, p), 3int, 0int,
{
    reveal(window);
    let class = |c: char| is_whitespace(c);
    let member = member_at(a, p);
    let m = member.value->0;
    let behind = p + member.consumed;
    let next = separator_at(a, behind, '}');
    let used = member.consumed + next.consumed;
    let g = whitespace_len(a, behind);
    lemma_run_len_bounds(a, behind, class);
    assert(b[p + shift] == a[p]);
    assert(b[behind + shift] == a[behind]);
    assert(b[behind + g + shift] == a[behind + g]);
    lemma_member_moves(a, b, p, shift);
    lemma_run_moves(a, b, behind, shift, class);
    if next.value == Some(Separator::Comma) {
        assert(members_at(a, p + used, done.push(m)).value is Some);
        assert(b[p + used + shift] == a[p + used]);
    }
    lemma_separator_moves(a, b, behind, shift, '}');
    if member_gap(a, p, j) {
        lemma_member_place_moves(a, b, p, shift, j);
    } else if j == behind {
    } else if j == behind + g + 1 {
    } else {
        lemma_members_place_moves(a, b, p + used, shift, done.push(m), j);
    }
}

/// `t` is `s` with `gap` put in before the character at `i`, said character
/// by character.
#[verifier::opaque]
spec fn inserted(s: Seq<char>, t: Seq<char>, i: int, gap: Seq<char>) -> bool {
    &&& 0 <= i <= s.len()
    &&& t.len() == s.len() + gap.len()
    &&& forall|j: int| 0 <= j < i ==> t[j] == #[trigger] s[j]
    &&& forall|j: int| 0 <= j < gap.len() ==> t[i + j] == #[trigger] gap[j]
    &&& forall|j: int| i <= j < s.len() ==> t[j + gap.len()] == #[trigger] s[j]
}

proof fn lemma_window_before(s: Seq<char>, t: Seq<char>, i: int, gap: Seq<char>, p: int, e: int)
    requires
        inserted(s, t, i, gap),
        all_whitespace(gap),
        0 <= p <= e <= i,
    ensures
        window(s, t, p, e, 0),
{
    reveal(inserted);
    reveal(window);
    if e == i && gap.len() > 0 {
        assert(t[i + 0] == gap[0]);
    } else if e == i && i < s.len() {
        assert(t[i + gap.len()] == s[i]);
    }
}

proof fn lemma_window_behind(s: Seq<char>, t: Seq<char>, i: int, gap: Seq<char>, p: int, e: int)
    requires
        inserted(s, t, i, gap),
        i <= p <= e <= s.len(),
    ensures
        window(s, t, p, e, gap.len() as int),
{
    reveal(inserted);
    reveal(window);
}

/// The whitespace at the place where more was put in is longer by that.
proof fn lemma_gap_run(s: Seq<char>, t: Seq<char>, i: int, gap: Seq<char>)
    requires
        inserted(s, t, i, gap),
        all_whitespace(gap),
    ensures
        whitespace_len(t, i) == gap.len() + whitespace_len(s, i),
{
    reveal(inserted);
    let class = |c: char| is_whitespace(c);
    let n = whitespace_len(s, i);
    let k = gap.len() as int;
    lemma_run_len_bounds(s, i, class);
    assert forall|j: int| i <= j < i + k + n implies class(#[trigger] t[j]) by {
        if j < i + k {
            assert(t[i + (j - i)] == gap[j - i]);
        } else {
            assert(t[(j - k) + k] == s[j - k]);
        }
    }
    if i + n < s.len() {
        assert(t[(i + n) + k] == s[i + n]);
    }
    lemma_run_len(t, i, class, (k + n) as nat);
}

proof fn lemma_run_before(
    s: Seq<char>,
    t: Seq<char>,
    i: int,
    gap: Seq<char>,
    p: int,
    class: spec_fn(char) -> bool,
)
    requires
        inserted(s, t, i, gap),
        0 <= p,
        p + run_len(s, p, class) < i,
    ensures
        run_len(t, p, class) == run_len(s, p, class),
{
    reveal(inserted);
    let n = run_len(s, p, class);
    lemma_run_len_bounds(s, p, class);
    assert(t[p + n] == s[p + n]);
    lemma_run_moves(s, t, p, 0, class);
}

proof fn lemma_run_behind(
    s: Seq<char>,
    t: Seq<char>,
    i: int,
    gap: Seq<char>,
    p: int,
    class: spec_fn(char) -> bool,
)
    requires
        inserted(s, t, i, gap),
        i <= p <= s.len(),
    ensures
        run_len(t, p + gap.len(), class) == run_len(s, p, class),
{
    reveal(inserted);
    let n = run_len(s, p, class);
    lemma_run_len_bounds(s, p, class);
    if p + n < s.len() {
        assert(t[(p + n) + gap.len()] == s[p + n]);
    }
    lemma_run_moves(s, t, p, gap.len() as int, class);
}

proof fn lemma_separator_before(
    s: Seq<char>,
    t: Seq<char>,
    i: int,
    gap: Seq<char>,
    p: int,
    close: char,
)
    requires
        inserted(s, t, i, gap),
        all_whitespace(gap),
        0 <= p,
        !is_whitespace(close),
        separator_at(s, p, close).value is Some,
        p + separator_at(s, p, close).consumed < i,
    ensures
        separator_at(t, p, close) == separator_at(s, p, close),
{
    reveal(inserted);
    let end = p + separator_at(s, p, close).consumed;
    lemma_window_before(s, t, i, gap, p, end);
    assert(t[end] == s[end]);
    lemma_separator_moves(s, t, p, 0, close);
}

proof fn lemma_separator_behind(
    s: Seq<char>,
    t: Seq<char>,
    i: int,
    gap: Seq<char>,
    p: int,
    close: char,
)
    requires
        inserted(s, t, i, gap),
        i <= p <= s.len(),
        !is_whitespace(close),
        separator_at(s, p, close).value is Some,
    ensures
        separator_at(t, p + gap.len(), close) == separator_at(s, p, close),
{
    reveal(inserted);
    let end = p + separator_at(s, p, close).consumed;
    lemma_separator_in_text(s, p, close);
    lemma_window_behind(s, t, i, gap, p, end);
    if end < s.len() {
        assert(t[end + gap.len()] == s[end]);
    }
    lemma_separator_moves(s, t, p, gap.len() as int, close);
}

/// More whitespace right behind an element.
proof fn lemma_separator_gap_first(s: Seq<char>, t: Seq<char>, i: int, gap: Seq<char>, close: char)
    requires
        inserted(s, t, i, gap),
        all_whitespace(gap),
        !is_whitespace(close),
        separator_at(s, i, close).value is Some,
    ensures
        separator_at(t, i, close) == grown(separator_at(s, i, close), gap.len()),
{
    reveal(inserted);
    let class = |c: char| is_whitespace(c);
    let g = whitespace_len(s, i);
    let k = gap.len() as int;
    lemma_gap_run(s, t, i, gap);
    lemma_run_len_bounds(s, i, class);
    assert(t[(i + g) + k] == s[i + g]);
    if !char_at(s, i + g, close) {
        lemma_run_behind(s, t, i, gap, i + g + 1, class);
    }
}

/// More whitespace right behind the comma.
proof fn lemma_separator_gap_second(
    s: Seq<char>,
    t: Seq<char>,
    i: int,
    gap: Seq<char>,
    p: int,
    close: char,
)
    requires
        inserted(s, t, i, gap),
        all_whitespace(gap),
        0 <= p,
        !is_whitespace(close),
        separator_at(s, p, close).value == Some(Separator::Comma),
        i == p + whitespace_len(s, p) + 1,
    ensures
        separator_at(t, p, close) == grown(separator_at(s, p, close), gap.len()),
{
    reveal(inserted);
    let class = |c: char| is_whitespace(c);
    let g = whitespace_len(s, p);
    lemma_run_before(s, t, i, gap, p, class);
    assert(t[p + g] == s[p + g]);
    lemma_gap_run(s, t, i, gap);
}

/// The characters before the place where more was put in stand as they did.
proof fn lemma_char_before(s: Seq<char>, t: Seq<char>, i: int, gap: Seq<char>, p: int)
    requires
        inserted(s, t, i, gap),
        0 <= p < i,
    ensures
        p < s.len(),
        p < t.len(),
        t[p] == s[p],
{
    reveal(inserted);
}

/// A member takes at least one character.
proof fn lemma_member_advances(s: Seq<char>, pos: int)
    ensures
        member_at(s, pos).value is Some ==> 0 <= pos < s.len() && member_at(s, pos).consumed >= 1,
{
}

/// An array is put together from its parts in both texts alike.
proof fn lemma_array_grow(s: Seq<char>, t: Seq<char>, pos: int, first: nat, second: nat)
    requires
        char_at(s, pos, '['),
        char_at(t, pos, '['),
        whitespace_len(t, pos + 1) == whitespace_len(s, pos + 1) + first,
        elements_at(t, pos + 1 + whitespace_len(s, pos + 1) + first, Seq::empty()) == grown(
            elements_at(s, pos + 1 + whitespace_len(s, pos + 1), Seq::empty()),
            second,
        ),
    ensures
        array_at(t, pos) == grown(array_at(s, pos), first + second),
{
}

/// An object is put together from its parts in both texts alike.
proof fn lemma_object_grow(s: Seq<char>, t: Seq<char>, pos: int, first: nat, second: nat)
    requires
        char_at(s, pos, '{'),
        char_at(t, pos, '{'),
        whitespace_len(t, pos + 1) == whitespace_len(s, pos + 1) + first,
        members_at(t, pos + 1 + whitespace_len(s, pos + 1) + first, Seq::empty()) == grown(
            members_at(s, pos + 1 + whitespace_len(s, pos + 1), Seq::empty()),
            second,
        ),
    ensures
        object_at(t, pos) == grown(object_at(s, pos), first + second),
{
}

/// The rest of an array is put together from its parts in both texts alike.
proof fn lemma_elements_grow(
    s: Seq<char>,
    t: Seq<char>,
    pos: int,
    done: Seq<Json>,
    first: nat,
    second: nat,
    third: nat,
)
    requires
        elements_at(s, pos, done).value is Some,
        !char_at(s, pos, ']'),
        !char_at(t, pos, ']'),
        value_at(t, pos) == grown(value_at(s, pos), first),
        separator_at(t, pos + value_at(s, pos).consumed + first, ']') == grown(
            separator_at(s, pos + value_at(s, pos).consumed, ']'),
            second,
        ),
        separator_at(s, pos + value_at(s, pos).consumed, ']').value == Some(Separator::Comma) ==> {
            let used = value_at(s, pos).consumed + separator_at(
                s,
                pos + value_at(s, pos).consumed,
                ']',
            ).consumed;
            elements_at(t, pos + used + first + second, done.push(value_at(s, pos).value->0))
                == grown(elements_at(s, pos + used, done.push(value_at(s, pos).value->0)), third)
        },
        separator_at(s, pos + value_at(s, pos).consumed, ']').value != Some(Separator::Comma)
            ==> third == 0,
    ensures
        elements_at(t, pos, done) == grown(elements_at(s, pos, done), first + second + third),
{
}

/// The rest of an object is put together from its parts in both texts alike.
proof fn lemma_members_grow(
    s: Seq<char>,
    t: Seq<char>,
    pos: int,
    done: Seq<(Seq<char>, Json)>,
    first: nat,
    second: nat,
    third: nat,
)
    requires
        members_at(s, pos, done).value is Some,
        !char_at(s, pos, '}'),
        !char_at(t, pos, '}'),
        member_at(t, pos) == grown(member_at(s, pos), first),
        separator_at(t, pos + member_at(s, pos).consumed + first, '}') == grown(
            separator_at(s, pos + member_at(s, pos).consumed, '}'),
            second,
        ),
        separator_at(s, pos + member_at(s, pos).consumed, '}').value == Some(Separator::Comma)
            ==> {
            let used = member_at(s, pos).consumed + separator_at(
                s,
                pos + member_at(s, pos).consumed,
                '}',
            ).consumed;
            members_at(t, pos + used + first + second, done.push(member_at(s, pos).value->0))
                == grown(members_at(s, pos + used, done.push(member_at(s, pos).value->0)), third)
        },
        separator_at(s, pos + member_at(s, pos).consumed, '}').value != Some(Separator::Comma)
            ==> third == 0,
    ensures
        members_at(t, pos, done) == grown(members_at(s, pos, done), first + second + third),
{
}

/// A member is put together from its parts in both texts alike.
proof fn lemma_member_grow(
    s: Seq<char>,
    t: Seq<char>,
    pos: int,
    first: nat,
    second: nat,
    third: nat,
)
    requires
        member_at(s, pos).value is Some,
        key_at(t, pos) == key_at(s, pos),
        ({
            let key = key_at(s, pos);
            let gap = whitespace_len(s, pos + key.consumed);
            let colon = key.consumed + gap;
            let start = colon + 1 + whitespace_len(s, pos + colon + 1);
            &&& whitespace_len(t, pos + key.consumed) == gap + first
            &&& char_at(t, pos + colon + first, ':')
            &&& whitespace_len(t, pos + colon + first + 1) == whitespace_len(s, pos + colon + 1)
                + second
            &&& value_at(t, pos + start + first + second) == grown(value_at(s, pos + start), third)
        }),
    ensures
        member_at(t, pos) == grown(member_at(s, pos), first + second + third),
{
}

/// More whitespace at a place between the tokens of a value: the same value
/// is read, over that many more characters.
proof fn lemma_value_gap(s: Seq<char>, t: Seq<char>, pos: int, i: int, gap: Seq<char>)
    requires
        value_at(s, pos).value is Some,
        value_gap(s, pos, i),
        inserted(s, t, i, gap),
        all_whitespace(gap),
    ensures
        value_at(t, pos) == grown(value_at(s, pos), gap.len()),
    decreases unread(s, pos), 1int, 1int,
{
    lemma_value_by_first_char(s, pos);
    lemma_value_by_first_char(t, pos);
    lemma_value_gap_inside(s, pos, i);
    lemma_char_before(s, t, i, gap, pos);
    if char_at(s, pos, '[') {
        lemma_array_gap(s, t, pos, i, gap);
    } else {
        lemma_object_gap(s, t, pos, i, gap);
    }
}

/// More whitespace between the tokens of an array.
#[verifier::rlimit(100)]
proof fn lemma_array_gap(s: Seq<char>, t: Seq<char>, pos: int, i: int, gap: Seq<char>)
    requires
        char_at(s, pos, '['),
        char_at(t, pos, '['),
        pos < i,
        array_at(s, pos).value is Some,
        i == pos + 1 || elements_gap(s, pos + 1 + whitespace_len(s, pos + 1), i),
        inserted(s, t, i, gap),
        all_whitespace(gap),
    ensures
        array_at(t, pos) == grown(array_at(s, pos), gap.len()),
    decreases unread(s, pos), 1int, 0int,
{
    let class = |c: char| is_whitespace(c);
    let k = gap.len();
    let open = 1 + whitespace_len(s, pos + 1);
    let rest = elements_at(s, pos + open, Seq::empty());
    lemma_run_len_bounds(s, pos + 1, class);
    lemma_elements_in_text(s, pos + open, Seq::empty());
    if i == pos + 1 {
        lemma_gap_run(s, t, i, gap);
        lemma_window_behind(s, t, i, gap, pos + open, pos + open + rest.consumed);
        lemma_elements_moves(s, t, pos + open, k as int, Seq::empty());
        lemma_array_grow(s, t, pos, k, 0);
    } else {
        lemma_elements_gap_inside(s, pos + open, i, Seq::empty());
        lemma_run_before(s, t, i, gap, pos + 1, class);
        lemma_elements_gap(s, t, pos + open, i, gap, Seq::empty());
        lemma_array_grow(s, t, pos, 0, k);
    }
}

/// More whitespace between the tokens of an object.
#[verifier::rlimit(100)]
proof fn lemma_object_gap(s: Seq<char>, t: Seq<char>, pos: int, i: int, gap: Seq<char>)
    requires
        char_at(s, pos, '{'),
        char_at(t, pos, '{'),
        pos < i,
        object_at(s, pos).value is Some,
        i == pos + 1 || members_gap(s, pos + 1 + whitespace_len(s, pos + 1), i),
        inserted(s, t, i, gap),
        all_whitespace(gap),
    ensures
        object_at(t, pos) == grown(object_at(s, pos), gap.len()),
    decreases unread(s, pos), 1int, 0int,
{
    let class = |c: char| is_whitespace(c);
    let k = gap.len();
    let open = 1 + whitespace_len(s, pos + 1);
    let rest = members_at(s, pos + open, Seq::empty());
    lemma_run_len_bounds(s, pos + 1, class);
    lemma_members_in_text(s, pos + open, Seq::empty());
    if i == pos + 1 {
        lemma_gap_run(s, t, i, gap);
        lemma_window_behind(s, t, i, gap, pos + open, pos + open + rest.consumed);
        lemma_members_moves(s, t, pos + open, k as int, Seq::empty());
        lemma_object_grow(s, t, pos, k, 0);
    } else {
        lemma_members_gap_inside(s, pos + open, i, Seq::empty());
        lemma_run_before(s, t, i, gap, pos + 1, class);
        lemma_members_gap(s, t, pos + open, i, gap, Seq::empty());
        lemma_object_grow(s, t, pos, 0, k);
    }
}

/// More whitespace inside the first element.
#[verifier::rlimit(100)]
proof fn lemma_elements_gap_inside_first(
    s: Seq<char>,
    t: Seq<char>,
    pos: int,
    i: int,
    gap: Seq<char>,
    done: Seq<Json>,
)
    requires
        0 <= pos,
        elements_at(s, pos, done).value is Some,
        !char_at(s, pos, ']'),
        value_gap(s, pos, i),
        inserted(s, t, i, gap),
        all_whitespace(gap),
    ensures
        elements_at(t, pos, done) == grown(elements_at(s, pos, done), gap.len()),
        !char_at(t, pos, ']'),
        value_at(t, pos) == grown(value_at(s, pos), gap.len()),
        separator_at(t, pos + value_at(s, pos).consumed + gap.len(), ']') == separator_at(
            s,
            pos + value_at(s, pos).consumed,
            ']',
        ),
    decreases unread(s, pos), 2int, 0int,
{
    let k = gap.len();
    let first = value_at(s, pos);
    let v = first.value->0;
    let behind = pos + first.consumed;
    let next = separator_at(s, behind, ']');
    let used = first.consumed + next.consumed;
    let rest = elements_at(s, pos + used, done.push(v));
    theorem_value_in_text(s, pos);
    lemma_separator_in_text(s, behind, ']');
    lemma_value_gap_inside(s, pos, i);
    lemma_char_before(s, t, i, gap, pos);
    lemma_value_gap(s, t, pos, i, gap);
    lemma_separator_behind(s, t, i, gap, behind, ']');
    if next.value == Some(Separator::Comma) {
        lemma_elements_in_text(s, pos + used, done.push(v));
        lemma_window_behind(s, t, i, gap, pos + used, pos + used + rest.consumed);
        lemma_elements_moves(s, t, pos + used, k as int, done.push(v));
    }
    lemma_elements_grow(s, t, pos, done, k, 0, 0);
}

/// More whitespace right behind the first element.
#[verifier::rlimit(100)]
proof fn lemma_elements_gap_behind_first(
    s: Seq<char>,
    t: Seq<char>,
    pos: int,
    i: int,
    gap: Seq<char>,
    done: Seq<Json>,
)
    requires
        0 <= pos,
        elements_at(s, pos, done).value is Some,
        !char_at(s, pos, ']'),
        i == pos + value_at(s, pos).consumed,
        inserted(s, t, i, gap),
        all_whitespace(gap),
    ensures
        elements_at(t, pos, done) == grown(elements_at(s, pos, done), gap.len()),
        !char_at(t, pos, ']'),
        value_at(t, pos) == value_at(s, pos),
        separator_at(t, pos + value_at(s, pos).consumed, ']') == grown(
            separator_at(s, pos + value_at(s, pos).consumed, ']'),
            gap.len(),
        ),
{
    let k = gap.len();
    let first = value_at(s, pos);
    let v = first.value->0;
    let behind = pos + first.consumed;
    let next = separator_at(s, behind, ']');
    let used = first.consumed + next.consumed;
    let rest = elements_at(s, pos + used, done.push(v));
    theorem_value_in_text(s, pos);
    lemma_value_advances(s, pos);
    lemma_separator_in_text(s, behind, ']');
    lemma_char_before(s, t, i, gap, pos);
    lemma_window_before(s, t, i, gap, pos, behind);
    lemma_value_moves(s, t, pos, 0);
    lemma_separator_gap_first(s, t, i, gap, ']');
    if next.value == Some(Separator::Comma) {
        lemma_elements_in_text(s, pos + used, done.push(v));
        lemma_window_behind(s, t, i, gap, pos + used, pos + used + rest.consumed);
        lemma_elements_moves(s, t, pos + used, k as int, done.push(v));
    }
    lemma_elements_grow(s, t, pos, done, 0, k, 0);
}

/// More whitespace right behind the comma that follows the first element.
#[verifier::rlimit(100)]
proof fn lemma_elements_gap_behind_comma(
    s: Seq<char>,
    t: Seq<char>,
    pos: int,
    i: int,
    gap: Seq<char>,
    done: Seq<Json>,
)
    requires
        0 <= pos,
        elements_at(s, pos, done).value is Some,
        !char_at(s, pos, ']'),
        separator_at(s, pos + value_at(s, pos).consumed, ']').value == Some(Separator::Comma),
        i == pos + value_at(s, pos).consumed + whitespace_len(s, pos + value_at(s, pos).consumed)
            + 1,
        inserted(s, t, i, gap),
        all_whitespace(gap),
    ensures
        elements_at(t, pos, done) == grown(elements_at(s, pos, done), gap.len()),
        !char_at(t, pos, ']'),
        value_at(t, pos) == value_at(s, pos),
        separator_at(t, pos + value_at(s, pos).consumed, ']') == grown(
            separator_at(s, pos + value_at(s, pos).consumed, ']'),
            gap.len(),
        ),
{
    let k = gap.len();
    let first = value_at(s, pos);
    let v = first.value->0;
    let behind = pos + first.consumed;
    let next = separator_at(s, behind, ']');
    let used = first.consumed + next.consumed;
    let rest = elements_at(s, pos + used, done.push(v));
    theorem_value_in_text(s, pos);
    lemma_value_advances(s, pos);
    lemma_separator_in_text(s, behind, ']');
    lemma_char_before(s, t, i, gap, pos);
    lemma_window_before(s, t, i, gap, pos, behind);
    lemma_value_moves(s, t, pos, 0);
    lemma_separator_gap_second(s, t, i, gap, behind, ']');
    lemma_elements_in_text(s, pos + used, done.push(v));
    lemma_window_behind(s, t, i, gap, pos + used, pos + used + rest.consumed);
    lemma_elements_moves(s, t, pos + used, k as int, done.push(v));
    lemma_elements_grow(s, t, pos, done, 0, k, 0);
}

/// More whitespace further on, behind the first element and its comma.
#[verifier::rlimit(100)]
proof fn lemma_elements_gap_further(
    s: Seq<char>,
    t: Seq<char>,
    pos: int,
    i: int,
    gap: Seq<char>,
    done: Seq<Json>,
)
    requires
        0 <= pos,
        elements_at(s, pos, done).value is Some,
        !char_at(s, pos, ']'),
        separator_at(s, pos + value_at(s, pos).consumed, ']').value == Some(Separator::Comma),
        elements_gap(
            s,
            pos + value_at(s, pos).consumed + separator_at(
                s,
                pos + value_at(s, pos).consumed,
                ']',
            ).consumed,
            i,
        ),
        inserted(s, t, i, gap),
        all_whitespace(gap),
    ensures
        elements_at(t, pos, done) == grown(elements_at(s, pos, done), gap.len()),
        !char_at(t, pos, ']'),
        value_at(t, pos) == value_at(s, pos),
        separator_at(t, pos + value_at(s, pos).consumed, ']') == separator_at(
            s,
            pos + value_at(s, pos).consumed,
            ']',
        ),
    decreases unread(s, pos), 2int, 0int,
{
    let k = gap.len();
    let first = value_at(s, pos);
    let v = first.value->0;
    let behind = pos + first.consumed;
    let next = separator_at(s, behind, ']');
    let used = first.consumed + next.consumed;
    theorem_value_in_text(s, pos);
    lemma_value_advances(s, pos);
    lemma_separator_in_text(s, behind, ']');
    lemma_elements_gap_inside(s, pos + used, i, done.push(v));
    lemma_char_before(s, t, i, gap, pos);
    lemma_window_before(s, t, i, gap, pos, behind);
    lemma_value_moves(s, t, pos, 0);
    lemma_separator_before(s, t, i, gap, behind, ']');
    lemma_elements_gap(s, t, pos + used, i, gap, done.push(v));
    lemma_elements_grow(s, t, pos, done, 0, 0, k);
}

/// More whitespace between the tokens of the rest of an array.
proof fn lemma_elements_gap(
    s: Seq<char>,
    t: Seq<char>,
    pos: int,
    i: int,
    gap: Seq<char>,
    done: Seq<Json>,
)
    requires
        0 <= pos,
        elements_at(s, pos, done).value is Some,
        elements_gap(s, pos, i),
        inserted(s, t, i, gap),
        all_whitespace(gap),
    ensures
        elements_at(t, pos, done) == grown(elements_at(s, pos, done), gap.len()),
    decreases unread(s, pos), 2int, 1int,
{
    let behind = pos + value_at(s, pos).consumed;
    if value_gap(s, pos, i) {
        lemma_elements_gap_inside_first(s, t, pos, i, gap, done);
    } else if i == behind {
        lemma_elements_gap_behind_first(s, t, pos, i, gap, done);
    } else if i == behind + whitespace_len(s, behind) + 1 {
        lemma_elements_gap_behind_comma(s, t, pos, i, gap, done);
    } else {
        lemma_elements_gap_further(s, t, pos, i, gap, done);
    }
}

/// More whitespace right behind the key of a member.
#[verifier::rlimit(100)]
proof fn lemma_member_gap_behind_key(s: Seq<char>, t: Seq<char>, pos: int, i: int, gap: Seq<char>)
    requires
        0 <= pos,
        member_at(s, pos).value is Some,
        i == pos + key_at(s, pos).consumed,
        inserted(s, t, i, gap),
        all_whitespace(gap),
    ensures
        member_at(t, pos) == grown(member_at(s, pos), gap.len()),
        key_at(t, pos) == key_at(s, pos),
        ({
            let key = key_at(s, pos);
            let colon = key.consumed + whitespace_len(s, pos + key.consumed);
            let start = colon + 1 + whitespace_len(s, pos + colon + 1);
            &&& whitespace_len(t, pos + key.consumed) == whitespace_len(s, pos + key.consumed)
                + gap.len()
            &&& char_at(t, pos + colon + gap.len(), ':')
            &&& whitespace_len(t, pos + colon + gap.len() + 1) == whitespace_len(s, pos + colon + 1)
                + 0
            &&& value_at(t, pos + start + gap.len() + 0) == grown(value_at(s, pos + start), 0)
        }),
{
    let class = |c: char| is_whitespace(c);
    let k = gap.len();
    let key = key_at(s, pos);
    let colon = key.consumed + whitespace_len(s, pos + key.consumed);
    let start = colon + 1 + whitespace_len(s, pos + colon + 1);
    let value = value_at(s, pos + start);
    lemma_quoted_in_text(s, pos, |c: char| is_key_char(c));
    lemma_run_len_bounds(s, pos + key.consumed, class);
    lemma_run_len_bounds(s, pos + colon + 1, class);
    theorem_value_in_text(s, pos + start);
    lemma_window_before(s, t, i, gap, pos, pos + key.consumed);
    lemma_quoted_moves(s, t, pos, 0, |c: char| is_key_char(c));
    lemma_gap_run(s, t, i, gap);
    lemma_char_behind(s, t, i, gap, pos + colon);
    lemma_run_behind(s, t, i, gap, pos + colon + 1, class);
    lemma_window_behind(s, t, i, gap, pos + start, pos + start + value.consumed);
    lemma_value_moves(s, t, pos + start, k as int);
    lemma_member_grow(s, t, pos, k, 0, 0);
}

/// More whitespace right behind the colon of a member.
#[verifier::rlimit(100)]
proof fn lemma_member_gap_behind_colon(
    s: Seq<char>,
    t: Seq<char>,
    pos: int,
    i: int,
    gap: Seq<char>,
)
    requires
        0 <= pos,
        member_at(s, pos).value is Some,
        i == pos + key_at(s, pos).consumed + whitespace_len(s, pos + key_at(s, pos).consumed) + 1,
        inserted(s, t, i, gap),
        all_whitespace(gap),
    ensures
        member_at(t, pos) == grown(member_at(s, pos), gap.len()),
        key_at(t, pos) == key_at(s, pos),
        ({
            let key = key_at(s, pos);
            let colon = key.consumed + whitespace_len(s, pos + key.consumed);
            let start = colon + 1 + whitespace_len(s, pos + colon + 1);
            &&& whitespace_len(t, pos + key.consumed) == whitespace_len(s, pos + key.consumed)
                + 0
            &&& char_at(t, pos + colon + 0, ':')
            &&& whitespace_len(t, pos + colon + 0 + 1) == whitespace_len(s, pos + colon + 1)
                + gap.len()
            &&& value_at(t, pos + start + 0 + gap.len()) == grown(value_at(s, pos + start), 0)
        }),
{
    let class = |c: char| is_whitespace(c);
    let k = gap.len();
    let key = key_at(s, pos);
    let colon = key.consumed + whitespace_len(s, pos + key.consumed);
    let start = colon + 1 + whitespace_len(s, pos + colon + 1);
    let value = value_at(s, pos + start);
    lemma_quoted_in_text(s, pos, |c: char| is_key_char(c));
    lemma_run_len_bounds(s, pos + key.consumed, class);
    lemma_run_len_bounds(s, pos + colon + 1, class);
    theorem_value_in_text(s, pos + start);
    lemma_window_before(s, t, i, gap, pos, pos + key.consumed);
    lemma_quoted_moves(s, t, pos, 0, |c: char| is_key_char(c));
    lemma_run_before(s, t, i, gap, pos + key.consumed, class);
    lemma_char_before(s, t, i, gap, pos + colon);
    lemma_gap_run(s, t, i, gap);
    lemma_window_behind(s, t, i, gap, pos + start, pos + start + value.consumed);
    lemma_value_moves(s, t, pos + start, k as int);
    lemma_member_grow(s, t, pos, 0, k, 0);
}

/// More whitespace inside the value of a member.
#[verifier::rlimit(100)]
proof fn lemma_member_gap_in_value(s: Seq<char>, t: Seq<char>, pos: int, i: int, gap: Seq<char>)
    requires
        0 <= pos,
        member_at(s, pos).value is Some,
        value_gap(
            s,
            pos + key_at(s, pos).consumed + whitespace_len(s, pos + key_at(s, pos).consumed) + 1
                + whitespace_len(
                s,
                pos + key_at(s, pos).consumed + whitespace_len(s, pos + key_at(s, pos).consumed)
                    + 1,
            ),
            i,
        ),
        inserted(s, t, i, gap),
        all_whitespace(gap),
    ensures
        member_at(t, pos) == grown(member_at(s, pos), gap.len()),
        key_at(t, pos) == key_at(s, pos),
        ({
            let key = key_at(s, pos);
            let colon = key.consumed + whitespace_len(s, pos + key.consumed);
            let start = colon + 1 + whitespace_len(s, pos + colon + 1);
            &&& whitespace_len(t, pos + key.consumed) == whitespace_len(s, pos + key.consumed)
                + 0
            &&& char_at(t, pos + colon + 0, ':')
            &&& whitespace_len(t, pos + colon + 0 + 1) == whitespace_len(s, pos + colon + 1)
                + 0
            &&& value_at(t, pos + start + 0 + 0) == grown(value_at(s, pos + start), gap.len())
        }),
    decreases unread(s, pos), 2int, 0int,
{
    let class = |c: char| is_whitespace(c);
    let k = gap.len();
    let key = key_at(s, pos);
    let colon = key.consumed + whitespace_len(s, pos + key.consumed);
    let start = colon + 1 + whitespace_len(s, pos + colon + 1);
    lemma_quoted_in_text(s, pos, |c: char| is_key_char(c));
    lemma_run_len_bounds(s, pos + key.consumed, class);
    lemma_run_len_bounds(s, pos + colon + 1, class);
    lemma_value_gap_inside(s, pos + start, i);
    lemma_window_before(s, t, i, gap, pos, pos + key.consumed);
    lemma_quoted_moves(s, t, pos, 0, |c: char| is_key_char(c));
    lemma_run_before(s, t, i, gap, pos + key.consumed, class);
    lemma_char_before(s, t, i, gap, pos + colon);
    lemma_run_before(s, t, i, gap, pos + colon + 1, class);
    lemma_value_gap(s, t, pos + start, i, gap);
    lemma_member_grow(s, t, pos, 0, 0, k);
}

/// More whitespace between the tokens of a member.
proof fn lemma_member_gap(s: Seq<char>, t: Seq<char>, pos: int, i: int, gap: Seq<char>)
    requires
        0 <= pos,
        member_at(s, pos).value is Some,
        member_gap(s, pos, i),
        inserted(s, t, i, gap),
        all_whitespace(gap),
    ensures
        member_at(t, pos) == grown(member_at(s, pos), gap.len()),
    decreases unread(s, pos), 2int, 1int,
{
    let key = key_at(s, pos);
    let colon = key.consumed + whitespace_len(s, pos + key.consumed);
    if i == pos + key.consumed {
        lemma_member_gap_behind_key(s, t, pos, i, gap);
    } else if i == pos + colon + 1 {
        lemma_member_gap_behind_colon(s, t, pos, i, gap);
    } else {
        lemma_member_gap_in_value(s, t, pos, i, gap);
    }
}

/// More whitespace inside the first member.
#[verifier::rlimit(100)]
proof fn lemma_members_gap_inside_first(
    s: Seq<char>,
    t: Seq<char>,
    pos: int,
    i: int,
    gap: Seq<char>,
    done: Seq<(Seq<char>, Json)>,
)
    requires
        0 <= pos,
        members_at(s, pos, done).value is Some,
        !char_at(s, pos, '}'),
        member_gap(s, pos, i),
        inserted(s, t, i, gap),
        all_whitespace(gap),
    ensures
        members_at(t, pos, done) == grown(members_at(s, pos, done), gap.len()),
        !char_at(t, pos, '}'),
        member_at(t, pos) == grown(member_at(s, pos), gap.len()),
        separator_at(t, pos + member_at(s, pos).consumed + gap.len(), '}') == separator_at(
            s,
            pos + member_at(s, pos).consumed,
            '}',
        ),
    decreases unread(s, pos), 3int, 0int,
{
    let k = gap.len();
    let first = member_at(s, pos);
    let v = first.value->0;
    let behind = pos + first.consumed;
    let next = separator_at(s, behind, '}');
    let used = first.consumed + next.consumed;
    let rest = members_at(s, pos + used, done.push(v));
    lemma_member_in_text(s, pos);
    lemma_separator_in_text(s, behind, '}');
    lemma_member_gap_inside(s, pos, i);
    lemma_char_before(s, t, i, gap, pos);
    lemma_member_gap(s, t, pos, i, gap);
    lemma_separator_behind(s, t, i, gap, behind, '}');
    if next.value == Some(Separator::Comma) {
        lemma_members_in_text(s, pos + used, done.push(v));
        lemma_window_behind(s, t, i, gap, pos + used, pos + used + rest.consumed);
        lemma_members_moves(s, t, pos + used, k as int, done.push(v));
    }
    lemma_members_grow(s, t, pos, done, k, 0, 0);
}

/// More whitespace right behind the first member.
#[verifier::rlimit(100)]
proof fn lemma_members_gap_behind_first(
    s: Seq<char>,
    t: Seq<char>,
    pos: int,
    i: int,
    gap: Seq<char>,
    done: Seq<(Seq<char>, Json)>,
)
    requires
        0 <= pos,
        members_at(s, pos, done).value is Some,
        !char_at(s, pos, '}'),
        i == pos + member_at(s, pos).consumed,
        inserted(s, t, i, gap),
        all_whitespace(gap),
    ensures
        members_at(t, pos, done) == grown(members_at(s, pos, done), gap.len()),
        !char_at(t, pos, '}'),
        member_at(t, pos) == member_at(s, pos),
        separator_at(t, pos + member_at(s, pos).consumed, '}') == grown(
            separator_at(s, pos + member_at(s, pos).consumed, '}'),
            gap.len(),
        ),
{
    let k = gap.len();
    let first = member_at(s, pos);
    let v = first.value->0;
    let behind = pos + first.consumed;
    let next = separator_at(s, behind, '}');
    let used = first.consumed + next.consumed;
    let rest = members_at(s, pos + used, done.push(v));
    lemma_member_in_text(s, pos);
    lemma_member_advances(s, pos);
    lemma_separator_in_text(s, behind, '}');
    lemma_char_before(s, t, i, gap, pos);
    lemma_window_before(s, t, i, gap, pos, behind);
    lemma_member_moves(s, t, pos, 0);
    lemma_separator_gap_first(s, t, i, gap, '}');
    if next.value == Some(Separator::Comma) {
        lemma_members_in_text(s, pos + used, done.push(v));
        lemma_window_behind(s, t, i, gap, pos + used, pos + used + rest.consumed);
        lemma_members_moves(s, t, pos + used, k as int, done.push(v));
    }
    lemma_members_grow(s, t, pos, done, 0, k, 0);
}

/// More whitespace right behind the comma that follows the first member.
#[verifier::rlimit(100)]
proof fn lemma_members_gap_behind_comma(
    s: Seq<char>,
    t: Seq<char>,
    pos: int,
    i: int,
    gap: Seq<char>,
    done: Seq<(Seq<char>, Json)>,
)
    requires
        0 <= pos,
        members_at(s, pos, done).value is Some,
        !char_at(s, pos, '}'),
        separator_at(s, pos + member_at(s, pos).consumed, '}').value == Some(Separator::Comma),
        i == pos + member_at(s, pos).consumed + whitespace_len(s, pos + member_at(s, pos).consumed)
            + 1,
        inserted(s, t, i, gap),
        all_whitespace(gap),
    ensures
        members_at(t, pos, done) == grown(members_at(s, pos, done), gap.len()),
        !char_at(t, pos, '}'),
        member_at(t, pos) == member_at(s, pos),
        separator_at(t, pos + member_at(s, pos).consumed, '}') == grown(
            separator_at(s, pos + member_at(s, pos).consumed, '}'),
            gap.len(),
        ),
{
    let k = gap.len();
    let first = member_at(s, pos);
    let v = first.value->0;
    let behind = pos + first.consumed;
    let next = separator_at(s, behind, '}');
    let used = first.consumed + next.consumed;
    let rest = members_at(s, pos + used, done.push(v));
    lemma_member_in_text(s, pos);
    lemma_member_advances(s, pos);
    lemma_separator_in_text(s, behind, '}');
    lemma_char_before(s, t, i, gap, pos);
    lemma_window_before(s, t, i, gap, pos, behind);
    lemma_member_moves(s, t, pos, 0);
    lemma_separator_gap_second(s, t, i, gap, behind, '}');
    lemma_members_in_text(s, pos + used, done.push(v));
    lemma_window_behind(s, t, i, gap, pos + used, pos + used + rest.consumed);
    lemma_members_moves(s, t, pos + used, k as int, done.push(v));
    lemma_members_grow(s, t, pos, done, 0, k, 0);
}

/// More whitespace further on, behind the first member and its comma.
#[verifier::rlimit(100)]
proof fn lemma_members_gap_further(
    s: Seq<char>,
    t: Seq<char>,
    pos: int,
    i: int,
    gap: Seq<char>,
    done: Seq<(Seq<char>, Json)>,
)
    requires
        0 <= pos,
        members_at(s, pos, done).value is Some,
        !char_at(s, pos, '}'),
        separator_at(s, pos + member_at(s, pos).consumed, '}').value == Some(Separator::Comma),
        members_gap(
            s,
            pos + member_at(s, pos).consumed + separator_at(
                s,
                pos + member_at(s, pos).consumed,
                '}',
            ).consumed,
            i,
        ),
        inserted(s, t, i, gap),
        all_whitespace(gap),
    ensures
        members_at(t, pos, done) == grown(members_at(s, pos, done), gap.len()),
        !char_at(t, pos, '}'),
        member_at(t, pos) == member_at(s, pos),
        separator_at(t, pos + member_at(s, pos).consumed, '}') == separator_at(
            s,
            pos + member_at(s, pos).consumed,
            '}',
        ),
    decreases unread(s, pos), 3int, 0int,
{
    let k = gap.len();
    let first = member_at(s, pos);
    let v = first.value->0;
    let behind = pos + first.consumed;
    let next = separator_at(s, behind, '}');
    let used = first.consumed + next.consumed;
    lemma_member_in_text(s, pos);
    lemma_member_advances(s, pos);
    lemma_separator_in_text(s, behind, '}');
    lemma_members_gap_inside(s, pos + used, i, done.push(v));
    lemma_char_before(s, t, i, gap, pos);
    lemma_window_before(s, t, i, gap, pos, behind);
    lemma_member_moves(s, t, pos, 0);
    lemma_separator_before(s, t, i, gap, behind, '}');
    lemma_members_gap(s, t, pos + used, i, gap, done.push(v));
    lemma_members_grow(s, t, pos, done, 0, 0, k);
}

/// More whitespace between the tokens of the rest of an object.
proof fn lemma_members_gap(
    s: Seq<char>,
    t: Seq<char>,
    pos: int,
    i: int,
    gap: Seq<char>,
    done: Seq<(Seq<char>, Json)>,
)
    requires
        0 <= pos,
        members_at(s, pos, done).value is Some,
        members_gap(s, pos, i),
        inserted(s, t, i, gap),
        all_whitespace(gap),
    ensures
        members_at(t, pos, done) == grown(members_at(s, pos, done), gap.len()),
    decreases unread(s, pos), 3int, 1int,
{
    let behind = pos + member_at(s, pos).consumed;
    if member_gap(s, pos, i) {
        lemma_members_gap_inside_first(s, t, pos, i, gap, done);
    } else if i == behind {
        lemma_members_gap_behind_first(s, t, pos, i, gap, done);
    } else if i == behind + whitespace_len(s, behind) + 1 {
        lemma_members_gap_behind_comma(s, t, pos, i, gap, done);
    } else {
        lemma_members_gap_further(s, t, pos, i, gap, done);
    }
}

/// The characters behind the place where more was put in stand further on.
proof fn lemma_char_behind(s: Seq<char>, t: Seq<char>, i: int, gap: Seq<char>, p: int)
    requires
        inserted(s, t, i, gap),
        i <= p < s.len(),
    ensures
        p + gap.len() < t.len(),
        t[p + gap.len()] == s[p],
{
    reveal(inserted);
}

/// The places between the tokens of a value are places between its tokens
/// still, after more whitespace has been put in at one of them.
proof fn lemma_value_place_stays(
    s: Seq<char>,
    t: Seq<char>,
    pos: int,
    i: int,
    gap: Seq<char>,
    j: int,
)
    requires
        value_at(s, pos).value is Some,
        value_gap(s, pos, i),
        value_gap(s, pos, j),
        inserted(s, t, i, gap),
        all_whitespace(gap),
    ensures
        value_gap(t, pos, moved(j, i, gap.len())),
    decreases unread(s, pos), 1int, 1int,
{
    lemma_value_by_first_char(s, pos);
    lemma_value_gap_inside(s, pos, i);
    lemma_char_before(s, t, i, gap, pos);
    if char_at(s, pos, '[') {
        lemma_array_place_stays(s, t, pos, i, gap, j);
    } else {
        lemma_object_place_stays(s, t, pos, i, gap, j);
    }
}

#[verifier::rlimit(100)]
proof fn lemma_array_place_stays(
    s: Seq<char>,
    t: Seq<char>,
    pos: int,
    i: int,
    gap: Seq<char>,
    j: int,
)
    requires
        char_at(s, pos, '['),
        char_at(t, pos, '['),
        pos < i,
        array_at(s, pos).value is Some,
        i == pos + 1 || elements_gap(s, pos + 1 + whitespace_len(s, pos + 1), i),
        j == pos + 1 || elements_gap(s, pos + 1 + whitespace_len(s, pos + 1), j),
        inserted(s, t, i, gap),
        all_whitespace(gap),
    ensures
        moved(j, i, gap.len()) == pos + 1 || elements_gap(
            t,
            pos + 1 + whitespace_len(t, pos + 1),
            moved(j, i, gap.len()),
        ),
    decreases unread(s, pos), 1int, 0int,
{
    let class = |c: char| is_whitespace(c);
    let k = gap.len();
    let open = 1 + whitespace_len(s, pos + 1);
    let rest = elements_at(s, pos + open, Seq::empty());
    lemma_run_len_bounds(s, pos + 1, class);
    lemma_elements_in_text(s, pos + open, Seq::empty());
    if j != pos + 1 {
        lemma_elements_gap_inside(s, pos + open, j, Seq::empty());
        if i == pos + 1 {
            lemma_gap_run(s, t, i, gap);
            lemma_window_behind(s, t, i, gap, pos + open, pos + open + rest.consumed);
            lemma_elements_place_moves(s, t, pos + open, k as int, Seq::empty(), j);
        } else {
            lemma_elements_gap_inside(s, pos + open, i, Seq::empty());
            lemma_run_before(s, t, i, gap, pos + 1, class);
            lemma_elements_place_stays(s, t, pos + open, i, gap, Seq::empty(), j);
        }
    }
}

#[verifier::rlimit(100)]
proof fn lemma_object_place_stays(
    s: Seq<char>,
    t: Seq<char>,
    pos: int,
    i: int,
    gap: Seq<char>,
    j: int,
)
    requires
        char_at(s, pos, '{'),
        char_at(t, pos, '{'),
        pos < i,
        object_at(s, pos).value is Some,
        i == pos + 1 || members_gap(s, pos + 1 + whitespace_len(s, pos + 1), i),
        j == pos + 1 || members_gap(s, pos + 1 + whitespace_len(s, pos + 1), j),
        inserted(s, t, i, gap),
        all_whitespace(gap),
    ensures
        moved(j, i, gap.len()) == pos + 1 || members_gap(
            t,
            pos + 1 + whitespace_len(t, pos + 1),
            moved(j, i, gap.len()),
        ),
    decreases unread(s, pos), 1int, 0int,
{
    let class = |c: char| is_whitespace(c);
    let k = gap.len();
    let open = 1 + whitespace_len(s, pos + 1);
    let rest = members_at(s, pos + open, Seq::empty());
    lemma_run_len_bounds(s, pos + 1, class);
    lemma_members_in_text(s, pos + open, Seq::empty());
    if j != pos + 1 {
        lemma_members_gap_inside(s, pos + open, j, Seq::empty());
        if i == pos + 1 {
            lemma_gap_run(s, t, i, gap);
            lemma_window_behind(s, t, i, gap, pos + open, pos + open + rest.consumed);
            lemma_members_place_moves(s, t, pos + open, k as int, Seq::empty(), j);
        } else {
            lemma_members_gap_inside(s, pos + open, i, Seq::empty());
            lemma_run_before(s, t, i, gap, pos + 1, class);
            lemma_members_place_stays(s, t, pos + open, i, gap, Seq::empty(), j);
        }
    }
}

/// By how much the first element of the rest of an array grows, where more
/// whitespace is put in at the place `i`.
spec fn elements_first_grows(s: Seq<char>, pos: int, i: int, more: nat) -> nat {
    if value_gap(s, pos, i) {
        more
    } else {
        0
    }
}

/// By how much the whitespace behind the first element grows.
spec fn elements_second_grows(s: Seq<char>, pos: int, i: int, more: nat) -> nat {
    if !value_gap(s, pos, i) && i == pos + value_at(s, pos).consumed {
        more
    } else {
        0
    }
}

/// By how much the whitespace behind the comma grows.
spec fn elements_third_grows(s: Seq<char>, pos: int, i: int, more: nat) -> nat {
    let behind = pos + value_at(s, pos).consumed;
    if !value_gap(s, pos, i) && i != behind && i == behind + whitespace_len(s, behind) + 1 {
        more
    } else {
        0
    }
}

/// The parts that the rest of an array is put together from, in the longer
/// text.
#[verifier::rlimit(100)]
proof fn lemma_elements_parts(
    s: Seq<char>,
    t: Seq<char>,
    pos: int,
    i: int,
    gap: Seq<char>,
    done: Seq<Json>,
)
    requires
        0 <= pos,
        elements_at(s, pos, done).value is Some,
        elements_gap(s, pos, i),
        inserted(s, t, i, gap),
        all_whitespace(gap),
    ensures
        ({
            let behind = pos + value_at(s, pos).consumed;
            let next = separator_at(s, behind, ']');
            let first = elements_first_grows(s, pos, i, gap.len());
            let second = elements_second_grows(s, pos, i, gap.len());
            let third = elements_third_grows(s, pos, i, gap.len());
            &&& !char_at(t, pos, ']')
            &&& value_at(s, pos).value is Some
            &&& value_at(t, pos) == grown(value_at(s, pos), first)
            &&& whitespace_len(t, behind + first) == whitespace_len(s, behind) + second
            &&& separator_at(t, behind + first, ']') == grown(next, second + third)
            &&& first > 0 ==> pos < i < behind
            &&& second > 0 ==> i == behind
            &&& third > 0 ==> i == behind + whitespace_len(s, behind) + 1
            &&& first + second + third == 0 && gap.len() > 0 ==> next.value == Some(
                Separator::Comma,
            ) && behind + next.consumed < i && elements_gap(s, behind + next.consumed, i)
        }),
{
    let class = |c: char| is_whitespace(c);
    let first = value_at(s, pos);
    let v = first.value->0;
    let behind = pos + first.consumed;
    let next = separator_at(s, behind, ']');
    let used = first.consumed + next.consumed;
    theorem_value_in_text(s, pos);
    lemma_separator_in_text(s, behind, ']');
    if value_gap(s, pos, i) {
        lemma_value_gap_inside(s, pos, i);
        lemma_elements_gap_inside_first(s, t, pos, i, gap, done);
        lemma_run_behind(s, t, i, gap, behind, class);
    } else if i == behind {
        lemma_elements_gap_behind_first(s, t, pos, i, gap, done);
        lemma_gap_run(s, t, i, gap);
    } else if i == behind + whitespace_len(s, behind) + 1 {
        lemma_elements_gap_behind_comma(s, t, pos, i, gap, done);
        lemma_run_before(s, t, i, gap, behind, class);
    } else {
        lemma_elements_gap_inside(s, pos + used, i, done.push(v));
        lemma_elements_gap_further(s, t, pos, i, gap, done);
        lemma_run_before(s, t, i, gap, behind, class);
    }
}

/// A place of the rest of an array, told from the parts that the rest is
/// put together from.
proof fn lemma_elements_place_found(
    s: Seq<char>,
    t: Seq<char>,
    pos: int,
    first: nat,
    second: nat,
    third: nat,
    j: int,
    to: int,
)
    requires
        !char_at(t, pos, ']'),
        value_at(s, pos).value is Some,
        value_at(t, pos) == grown(value_at(s, pos), first),
        whitespace_len(t, pos + value_at(s, pos).consumed + first) == whitespace_len(
            s,
            pos + value_at(s, pos).consumed,
        ) + second,
        separator_at(t, pos + value_at(s, pos).consumed + first, ']') == grown(
            separator_at(s, pos + value_at(s, pos).consumed, ']'),
            second + third,
        ),
        ({
            let behind = pos + value_at(s, pos).consumed;
            let next = separator_at(s, behind, ']');
            ||| value_gap(t, pos, to)
            ||| j == behind && to == behind + first
            ||| next.value == Some(Separator::Comma) && j == behind + whitespace_len(s, behind)
                + 1 && to == j + first + second
            ||| next.value == Some(Separator::Comma) && elements_gap(
                t,
                behind + next.consumed + first + second + third,
                to,
            )
        }),
    ensures
        elements_gap(t, pos, to),
{
}

/// A place inside the first element stays one.
#[verifier::rlimit(100)]
proof fn lemma_elements_place_in_first(
    s: Seq<char>,
    t: Seq<char>,
    pos: int,
    i: int,
    gap: Seq<char>,
    done: Seq<Json>,
    j: int,
)
    requires
        0 <= pos,
        elements_at(s, pos, done).value is Some,
        value_at(s, pos).value is Some,
        elements_gap(s, pos, i),
        value_gap(s, pos, j),
        value_gap(s, pos, i) || pos + value_at(s, pos).consumed <= i,
        inserted(s, t, i, gap),
        all_whitespace(gap),
    ensures
        value_gap(t, pos, moved(j, i, gap.len())),
    decreases unread(s, pos), 2int, 0int,
{
    let behind = pos + value_at(s, pos).consumed;
    theorem_value_in_text(s, pos);
    if value_gap(s, pos, i) {
        lemma_value_place_stays(s, t, pos, i, gap, j);
    } else {
        lemma_value_gap_inside(s, pos, j);
        lemma_window_before(s, t, i, gap, pos, behind);
        lemma_value_place_moves(s, t, pos, 0, j);
    }
}

/// A place behind the first element and its comma stays one.
#[verifier::rlimit(100)]
proof fn lemma_elements_place_in_rest(
    s: Seq<char>,
    t: Seq<char>,
    pos: int,
    rest: int,
    i: int,
    gap: Seq<char>,
    done: Seq<Json>,
    j: int,
)
    requires
        pos < rest,
        unread(s, rest) < unread(s, pos),
        elements_at(s, rest, done).value is Some,
        elements_gap(s, rest, j),
        i <= rest || elements_gap(s, rest, i),
        inserted(s, t, i, gap),
        all_whitespace(gap),
    ensures
        i <= rest ==> elements_gap(t, rest + gap.len(), moved(j, i, gap.len())),
        rest < i ==> elements_gap(t, rest, moved(j, i, gap.len())),
    decreases unread(s, pos), 2int, 0int,
{
    if i <= rest {
        lemma_elements_gap_inside(s, rest, j, done);
        lemma_elements_in_text(s, rest, done);
        lemma_window_behind(s, t, i, gap, rest, rest + elements_at(s, rest, done).consumed);
        lemma_elements_place_moves(s, t, rest, gap.len() as int, done, j);
    } else {
        lemma_elements_place_stays(s, t, rest, i, gap, done, j);
    }
}

/// The places of the rest of an array stay, after more whitespace has been
/// put in at one of them.
#[verifier::rlimit(100)]
proof fn lemma_elements_place_stays(
    s: Seq<char>,
    t: Seq<char>,
    pos: int,
    i: int,
    gap: Seq<char>,
    done: Seq<Json>,
    j: int,
)
    requires
        0 <= pos,
        elements_at(s, pos, done).value is Some,
        elements_gap(s, pos, i),
        elements_gap(s, pos, j),
        inserted(s, t, i, gap),
        all_whitespace(gap),
    ensures
        elements_gap(t, pos, moved(j, i, gap.len())),
    decreases unread(s, pos), 2int, 1int,
{
    let k = gap.len();
    let behind = pos + value_at(s, pos).consumed;
    let next = separator_at(s, behind, ']');
    let rest = behind + next.consumed;
    let first = elements_first_grows(s, pos, i, k);
    let second = elements_second_grows(s, pos, i, k);
    let third = elements_third_grows(s, pos, i, k);
    lemma_elements_parts(s, t, pos, i, gap, done);
    if k == 0 {
        lemma_nothing_inserted(s, t, i, gap);
    } else if value_gap(s, pos, j) {
        lemma_elements_place_in_first(s, t, pos, i, gap, done, j);
    } else if j == behind {
    } else if j == behind + whitespace_len(s, behind) + 1 {
    } else {
        lemma_value_advances(s, pos);
        lemma_elements_place_in_rest(
            s,
            t,
            pos,
            rest,
            i,
            gap,
            done.push(value_at(s, pos).value->0),
            j,
        );
    }
    if k > 0 {
        lemma_elements_place_found(s, t, pos, first, second, third, j, moved(j, i, k));
    }
}

/// The parts that a member is put together from, in the longer text.
#[verifier::rlimit(100)]
proof fn lemma_member_parts(s: Seq<char>, t: Seq<char>, pos: int, i: int, gap: Seq<char>)
    requires
        0 <= pos,
        member_at(s, pos).value is Some,
        member_gap(s, pos, i),
        inserted(s, t, i, gap),
        all_whitespace(gap),
    ensures
        key_at(s, pos).value is Some,
        key_at(t, pos) == key_at(s, pos),
        ({
            let key = key_at(s, pos);
            let colon = key.consumed + whitespace_len(s, pos + key.consumed);
            let start = colon + 1 + whitespace_len(s, pos + colon + 1);
            let first: nat = if i == pos + key.consumed {
                gap.len()
            } else {
                0
            };
            let second: nat = if i == pos + colon + 1 {
                gap.len()
            } else {
                0
            };
            &&& whitespace_len(t, pos + key.consumed) == whitespace_len(s, pos + key.consumed)
                + first
            &&& char_at(t, pos + colon + first, ':')
            &&& whitespace_len(t, pos + colon + first + 1) == whitespace_len(s, pos + colon + 1)
                + second
            &&& value_at(s, pos + start).value is Some
            &&& first + second == 0 && gap.len() > 0 ==> pos + start < i && value_gap(
                s,
                pos + start,
                i,
            )
        }),
{
    let key = key_at(s, pos);
    let colon = key.consumed + whitespace_len(s, pos + key.consumed);
    let start = colon + 1 + whitespace_len(s, pos + colon + 1);
    if i == pos + key.consumed {
        lemma_member_gap_behind_key(s, t, pos, i, gap);
    } else if i == pos + colon + 1 {
        lemma_member_gap_behind_colon(s, t, pos, i, gap);
    } else {
        lemma_value_gap_inside(s, pos + start, i);
        lemma_member_gap_in_value(s, t, pos, i, gap);
    }
}

/// A place of a member, told from the parts that the member is put together
/// from.
proof fn lemma_member_place_found(
    s: Seq<char>,
    t: Seq<char>,
    pos: int,
    first: nat,
    second: nat,
    j: int,
    to: int,
)
    requires
        key_at(s, pos).value is Some,
        key_at(t, pos) == key_at(s, pos),
        ({
            let key = key_at(s, pos);
            let colon = key.consumed + whitespace_len(s, pos + key.consumed);
            let start = colon + 1 + whitespace_len(s, pos + colon + 1);
            &&& whitespace_len(t, pos + key.consumed) == whitespace_len(s, pos + key.consumed)
                + first
            &&& char_at(t, pos + colon + first, ':')
            &&& whitespace_len(t, pos + colon + first + 1) == whitespace_len(s, pos + colon + 1)
                + second
            &&& {
                ||| j == pos + key.consumed && to == j
                ||| j == pos + colon + 1 && to == j + first
                ||| value_gap(t, pos + start + first + second, to)
            }
        }),
    ensures
        member_gap(t, pos, to),
{
}

/// A place inside the value of a member stays one.
#[verifier::rlimit(100)]
proof fn lemma_member_place_in_value(
    s: Seq<char>,
    t: Seq<char>,
    pos: int,
    value: int,
    i: int,
    gap: Seq<char>,
    j: int,
)
    requires
        pos < value,
        unread(s, value) < unread(s, pos),
        value_at(s, value).value is Some,
        value_gap(s, value, j),
        i <= value || value_gap(s, value, i),
        inserted(s, t, i, gap),
        all_whitespace(gap),
    ensures
        i <= value ==> value_gap(t, value + gap.len(), moved(j, i, gap.len())),
        value < i ==> value_gap(t, value, moved(j, i, gap.len())),
    decreases unread(s, pos), 2int, 0int,
{
    if i <= value {
        lemma_value_gap_inside(s, value, j);
        theorem_value_in_text(s, value);
        lemma_window_behind(s, t, i, gap, value, value + value_at(s, value).consumed);
        lemma_value_place_moves(s, t, value, gap.len() as int, j);
    } else {
        lemma_value_place_stays(s, t, value, i, gap, j);
    }
}

/// The places of a member stay, after more whitespace has been put in at one
/// of them.
#[verifier::rlimit(100)]
proof fn lemma_member_place_stays(
    s: Seq<char>,
    t: Seq<char>,
    pos: int,
    i: int,
    gap: Seq<char>,
    j: int,
)
    requires
        0 <= pos,
        member_at(s, pos).value is Some,
        member_gap(s, pos, i),
        member_gap(s, pos, j),
        inserted(s, t, i, gap),
        all_whitespace(gap),
    ensures
        member_gap(t, pos, moved(j, i, gap.len())),
    decreases unread(s, pos), 2int, 1int,
{
    let k = gap.len();
    let key = key_at(s, pos);
    let colon = key.consumed + whitespace_len(s, pos + key.consumed);
    let start = colon + 1 + whitespace_len(s, pos + colon + 1);
    let first: nat = if i == pos + key.consumed {
        k
    } else {
        0
    };
    let second: nat = if i == pos + colon + 1 {
        k
    } else {
        0
    };
    lemma_member_parts(s, t, pos, i, gap);
    if k == 0 {
        lemma_nothing_inserted(s, t, i, gap);
    } else {
        if j != pos + key.consumed && j != pos + colon + 1 {
            lemma_member_advances(s, pos);
            lemma_member_place_in_value(s, t, pos, pos + start, i, gap, j);
        }
        lemma_member_place_found(s, t, pos, first, second, j, moved(j, i, k));
    }
}

/// By how much the first member of the rest of an object grows, where more
/// whitespace is put in at the place `i`.
spec fn members_first_grows(s: Seq<char>, pos: int, i: int, more: nat) -> nat {
    if member_gap(s, pos, i) {
        more
    } else {
        0
    }
}

/// By how much the whitespace behind the first member grows.
spec fn members_second_grows(s: Seq<char>, pos: int, i: int, more: nat) -> nat {
    if !member_gap(s, pos, i) && i == pos + member_at(s, pos).consumed {
        more
    } else {
        0
    }
}

/// By how much the whitespace behind the comma grows.
spec fn members_third_grows(s: Seq<char>, pos: int, i: int, more: nat) -> nat {
    let behind = pos + member_at(s, pos).consumed;
    if !member_gap(s, pos, i) && i != behind && i == behind + whitespace_len(s, behind) + 1 {
        more
    } else {
        0
    }
}

/// The parts that the rest of an object is put together from, in the longer
/// text.
#[verifier::rlimit(100)]
proof fn lemma_members_parts(
    s: Seq<char>,
    t: Seq<char>,
    pos: int,
    i: int,
    gap: Seq<char>,
    done: Seq<(Seq<char>, Json)>,
)
    requires
        0 <= pos,
        members_at(s, pos, done).value is Some,
        members_gap(s, pos, i),
        inserted(s, t, i, gap),
        all_whitespace(gap),
    ensures
        ({
            let behind = pos + member_at(s, pos).consumed;
            let next = separator_at(s, behind, '}');
            let first = members_first_grows(s, pos, i, gap.len());
            let second = members_second_grows(s, pos, i, gap.len());
            let third = members_third_grows(s, pos, i, gap.len());
            &&& !char_at(t, pos, '}')
            &&& member_at(s, pos).value is Some
            &&& member_at(t, pos) == grown(member_at(s, pos), first)
            &&& whitespace_len(t, behind + first) == whitespace_len(s, behind) + second
            &&& separator_at(t, behind + first, '}') == grown(next, second + third)
            &&& first > 0 ==> pos < i < behind
            &&& second > 0 ==> i == behind
            &&& third > 0 ==> i == behind + whitespace_len(s, behind) + 1
            &&& first + second + third == 0 && gap.len() > 0 ==> next.value == Some(
                Separator::Comma,
            ) && behind + next.consumed < i && members_gap(s, behind + next.consumed, i)
        }),
{
    let class = |c: char| is_whitespace(c);
    let first = member_at(s, pos);
    let v = first.value->0;
    let behind = pos + first.consumed;
    let next = separator_at(s, behind, '}');
    let used = first.consumed + next.consumed;
    lemma_member_in_text(s, pos);
    lemma_separator_in_text(s, behind, '}');
    if member_gap(s, pos, i) {
        lemma_member_gap_inside(s, pos, i);
        lemma_members_gap_inside_first(s, t, pos, i, gap, done);
        lemma_run_behind(s, t, i, gap, behind, class);
    } else if i == behind {
        lemma_members_gap_behind_first(s, t, pos, i, gap, done);
        lemma_gap_run(s, t, i, gap);
    } else if i == behind + whitespace_len(s, behind) + 1 {
        lemma_members_gap_behind_comma(s, t, pos, i, gap, done);
        lemma_run_before(s, t, i, gap, behind, class);
    } else {
        lemma_members_gap_inside(s, pos + used, i, done.push(v));
        lemma_members_gap_further(s, t, pos, i, gap, done);
        lemma_run_before(s, t, i, gap, behind, class);
    }
}

/// A place of the rest of an object, told from the parts that the rest is
/// put together from.
proof fn lemma_members_place_found(
    s: Seq<char>,
    t: Seq<char>,
    pos: int,
    first: nat,
    second: nat,
    third: nat,
    j: int,
    to: int,
)
    requires
        !char_at(t, pos, '}'),
        member_at(s, pos).value is Some,
        member_at(t, pos) == grown(member_at(s, pos), first),
        whitespace_len(t, pos + member_at(s, pos).consumed + first) == whitespace_len(
            s,
            pos + member_at(s, pos).consumed,
        ) + second,
        separator_at(t, pos + member_at(s, pos).consumed + first, '}') == grown(
            separator_at(s, pos + member_at(s, pos).consumed, '}'),
            second + third,
        ),
        ({
            let behind = pos + member_at(s, pos).consumed;
            let next = separator_at(s, behind, '}');
            ||| member_gap(t, pos, to)
            ||| j == behind && to == behind + first
            ||| next.value == Some(Separator::Comma) && j == behind + whitespace_len(s, behind)
                + 1 && to == j + first + second
            ||| next.value == Some(Separator::Comma) && members_gap(
                t,
                behind + next.consumed + first + second + third,
                to,
            )
        }),
    ensures
        members_gap(t, pos, to),
{
}

/// A place inside the first member stays one.
#[verifier::rlimit(100)]
proof fn lemma_members_place_in_first(
    s: Seq<char>,
    t: Seq<char>,
    pos: int,
    i: int,
    gap: Seq<char>,
    done: Seq<(Seq<char>, Json)>,
    j: int,
)
    requires
        0 <= pos,
        members_at(s, pos, done).value is Some,
        member_at(s, pos).value is Some,
        members_gap(s, pos, i),
        member_gap(s, pos, j),
        member_gap(s, pos, i) || pos + member_at(s, pos).consumed <= i,
        inserted(s, t, i, gap),
        all_whitespace(gap),
    ensures
        member_gap(t, pos, moved(j, i, gap.len())),
    decreases unread(s, pos), 3int, 0int,
{
    let behind = pos + member_at(s, pos).consumed;
    lemma_member_in_text(s, pos);
    if member_gap(s, pos, i) {
        lemma_member_place_stays(s, t, pos, i, gap, j);
    } else {
        lemma_member_gap_inside(s, pos, j);
        lemma_window_before(s, t, i, gap, pos, behind);
        lemma_member_place_moves(s, t, pos, 0, j);
    }
}

/// A place behind the first member and its comma stays one.
#[verifier::rlimit(100)]
proof fn lemma_members_place_in_rest(
    s: Seq<char>,
    t: Seq<char>,
    pos: int,
    rest: int,
    i: int,
    gap: Seq<char>,
    done: Seq<(Seq<char>, Json)>,
    j: int,
)
    requires
        pos < rest,
        unread(s, rest) < unread(s, pos),
        members_at(s, rest, done).value is Some,
        members_gap(s, rest, j),
        i <= rest || members_gap(s, rest, i),
        inserted(s, t, i, gap),
        all_whitespace(gap),
    ensures
        i <= rest ==> members_gap(t, rest + gap.len(), moved(j, i, gap.len())),
        rest < i ==> members_gap(t, rest, moved(j, i, gap.len())),
    decreases unread(s, pos), 3int, 0int,
{
    if i <= rest {
        lemma_members_gap_inside(s, rest, j, done);
        lemma_members_in_text(s, rest, done);
        lemma_window_behind(s, t, i, gap, rest, rest + members_at(s, rest, done).consumed);
        lemma_members_place_moves(s, t, rest, gap.len() as int, done, j);
    } else {
        lemma_members_place_stays(s, t, rest, i, gap, done, j);
    }
}

/// The places of the rest of an object stay, after more whitespace has been
/// put in at one of them.
#[verifier::rlimit(100)]
proof fn lemma_members_place_stays(
    s: Seq<char>,
    t: Seq<char>,
    pos: int,
    i: int,
    gap: Seq<char>,
    done: Seq<(Seq<char>, Json)>,
    j: int,
)
    requires
        0 <= pos,
        members_at(s, pos, done).value is Some,
        members_gap(s, pos, i),
        members_gap(s, pos, j),
        inserted(s, t, i, gap),
        all_whitespace(gap),
    ensures
        members_gap(t, pos, moved(j, i, gap.len())),
    decreases unread(s, pos), 3int, 1int,
{
    let k = gap.len();
    let behind = pos + member_at(s, pos).consumed;
    let next = separator_at(s, behind, '}');
    let rest = behind + next.consumed;
    let first = members_first_grows(s, pos, i, k);
    let second = members_second_grows(s, pos, i, k);
    let third = members_third_grows(s, pos, i, k);
    lemma_members_parts(s, t, pos, i, gap, done);
    if k == 0 {
        lemma_nothing_inserted(s, t, i, gap);
    } else if member_gap(s, pos, j) {
        lemma_members_place_in_first(s, t, pos, i, gap, done, j);
    } else if j == behind {
    } else if j == behind + whitespace_len(s, behind) + 1 {
    } else {
        lemma_member_advances(s, pos);
        lemma_members_place_in_rest(
            s,
            t,
            pos,
            rest,
            i,
            gap,
            done.push(member_at(s, pos).value->0),
            j,
        );
    }
    if k > 0 {
        lemma_members_place_found(s, t, pos, first, second, third, j, moved(j, i, k));
    }
}

/// Where nothing was put in, the text is what it was.
proof fn lemma_nothing_inserted(s: Seq<char>, t: Seq<char>, i: int, gap: Seq<char>)
    requires
        inserted(s, t, i, gap),
        gap.len() == 0,
    ensures
        t == s,
{
    reveal(inserted);
    assert(t =~= s);
}

} // verus!
