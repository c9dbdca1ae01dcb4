//! A forward-only cursor over an owned sequence of characters, and the
//! matching primitives that the grammar is built from.
//!
//! A primitive either matches and moves the cursor past what it matched, or
//! leaves the cursor where it was. None of them ever moves it back, and none
//! of them fails in any other way than by reporting that nothing matched.

use crate::chars::{is_whitespace, whitespace};
use vstd::prelude::*;

verus! {

/// `c` stands at `pos`.
pub open spec fn char_at(s: Seq<char>, pos: int, c: char) -> bool {
    0 <= pos < s.len() && s[pos] == c
}

/// The characters from `pos` on begin with `lit`.
pub open spec fn literal_at(s: Seq<char>, pos: int, lit: Seq<char>) -> bool {
    &&& 0 <= pos
    &&& pos + lit.len() <= s.len()
    &&& s.subrange(pos, pos + lit.len()) == lit
}

/// The length of the longest run of characters of `class` that starts at
/// `pos`.
pub open spec fn run_len(s: Seq<char>, pos: int, class: spec_fn(char) -> bool) -> nat
    decreases s.len() - pos,
{
    if 0 <= pos < s.len() && class(s[pos]) {
        1 + run_len(s, pos + 1, class)
    } else {
        0
    }
}

/// The length of the run of whitespace that starts at `pos`.
pub open spec fn whitespace_len(s: Seq<char>, pos: int) -> nat {
    run_len(s, pos, |c: char| is_whitespace(c))
}

/// `test` accepted every character from `pos` up to `end`, and there the
/// input ended or `test` refused the next one.
pub open spec fn accepted_run<F: Fn(char) -> bool>(
    s: Seq<char>,
    pos: int,
    end: int,
    test: F,
) -> bool {
    &&& 0 <= pos <= end <= s.len()
    &&& forall|i: int| pos <= i < end ==> call_ensures(test, (#[trigger] s[i],), true)
    &&& end == s.len() || call_ensures(test, (s[end],), false)
}

/// A run is the longest one as soon as every character in it is of the class
/// and the one behind it, if there is one, is not.
pub proof fn lemma_run_len(s: Seq<char>, pos: int, class: spec_fn(char) -> bool, n: nat)
    requires
        0 <= pos,
        pos + n <= s.len(),
        forall|i: int| pos <= i < pos + n ==> class(#[trigger] s[i]),
        pos + n == s.len() || !class(s[pos + n]),
    ensures
        run_len(s, pos, class) == n,
    decreases n,
{
    if n > 0 {
        lemma_run_len(s, pos + 1, class, (n - 1) as nat);
    }
}

/// `test` can be called on every character and answers as `class` does.
pub open spec fn decides<F: Fn(char) -> bool>(test: F, class: spec_fn(char) -> bool) -> bool {
    &&& forall|c: char| #[trigger] call_requires(test, (c,))
    &&& forall|c: char, answer: bool| #[trigger]
        call_ensures(test, (c,), answer) ==> answer == class(c)
}

/// What a test that decides a class accepted is the longest run of that
/// class.
pub proof fn lemma_accepted_run<F: Fn(char) -> bool>(
    s: Seq<char>,
    pos: int,
    end: int,
    test: F,
    class: spec_fn(char) -> bool,
)
    requires
        accepted_run(s, pos, end, test),
        decides(test, class),
    ensures
        run_len(s, pos, class) == end - pos,
{
    lemma_run_len(s, pos, class, (end - pos) as nat);
}

/// A run stays inside the input, holds only characters of the class, and
/// cannot be extended.
pub proof fn lemma_run_len_bounds(s: Seq<char>, pos: int, class: spec_fn(char) -> bool)
    requires
        0 <= pos <= s.len(),
    ensures
        pos + run_len(s, pos, class) <= s.len(),
        forall|i: int| pos <= i < pos + run_len(s, pos, class) ==> class(#[trigger] s[i]),
        pos + run_len(s, pos, class) == s.len() || !class(s[pos + run_len(s, pos, class)]),
    decreases s.len() - pos,
{
    if pos < s.len() && class(s[pos]) {
        lemma_run_len_bounds(s, pos + 1, class);
    }
}

/// The scanner: the input, and how much of it has been read.
#[derive(Debug)]
pub struct Input<T> {
    location: usize,
    input: Vec<T>,
}

impl<T> Input<T> {
    /// The whole input, read or not.
    pub closed spec fn text(&self) -> Seq<T> {
        self.input@
    }

    /// The number of items already read.
    pub closed spec fn position(&self) -> int {
        self.location as int
    }

    /// The cursor stands inside the input or at its end. This holds of every
    /// cursor at all times.
    #[verifier::type_invariant]
    pub open spec fn in_bounds(&self) -> bool {
        0 <= self.position() <= self.text().len()
    }

    /// A cursor at the start of `input`.
    pub fn new(input: Vec<T>) -> (cursor: Self)
        ensures
            cursor.text() == input@,
            cursor.position() == 0,
    {
        Self { location: 0, input }
    }

    /// How many items have been read.
    pub fn location(&self) -> (at: usize)
        ensures
            at == self.position(),
            at <= self.text().len(),
    {
        proof {
            use_type_invariant(self);
        }
        self.location
    }

    /// How many items the input holds, read or not.
    pub fn len(&self) -> (count: usize)
        ensures
            count == self.text().len(),
    {
        self.input.len()
    }
}

/// `String::push` appends the character to the end of the string and leaves
/// what was there as it is.
pub assume_specification[ std::string::String::push ](text: &mut std::string::String, c: char)
    ensures
        final(text)@ == old(text)@.push(c),
;

impl Input<char> {
    /// Reads `c` if it is the next character.
    pub fn parse_char(&mut self, c: char) -> (matched: bool)
        ensures
            final(self).text() == old(self).text(),
            matched == char_at(old(self).text(), old(self).position(), c),
            final(self).position() == old(self).position() + if matched {
                1int
            } else {
                0
            },
    {
        proof {
            use_type_invariant(&*self);
        }
        if self.location < self.input.len() && self.input[self.location] == c {
            self.location += 1;
            return true;
        }
        false
    }

    /// Reads `s` if the next characters spell it out, all of it or nothing.
    pub fn parse_str(&mut self, s: &str) -> (matched: bool)
        ensures
            final(self).text() == old(self).text(),
            matched == literal_at(old(self).text(), old(self).position(), s@),
            final(self).position() == old(self).position() + if matched {
                s@.len() as int
            } else {
                0
            },
    {
        proof {
            use_type_invariant(&*self);
        }
        let mut end: usize = self.location;
        for c in it: s.chars()
            invariant
                self.location <= end <= self.input.len(),
                end == self.location + it.index(),
                it.seq() == s@,
                forall|k: int| 0 <= k < it.index() ==> self.input@[self.location + k] == s@[k],
        {
            if end >= self.input.len() || self.input[end] != c {
                return false;
            }
            end += 1;
        }
        assert(self.input@.subrange(self.location as int, self.location + s@.len()) =~= s@);
        self.location = end;
        true
    }

    /// Reads the longest run of characters that `p` accepts and hands it
    /// back, or reads nothing where `p` refuses the next character or the
    /// input has ended: an empty run is no match.
    pub fn parse_while<F: Fn(char) -> bool>(&mut self, p: F) -> (run: Option<String>)
        requires
            forall|i: int|
                old(self).position() <= i < old(self).text().len() ==> call_requires(
                    p,
                    (#[trigger] old(self).text()[i],),
                ),
        ensures
            final(self).text() == old(self).text(),
            accepted_run(old(self).text(), old(self).position(), final(self).position(), p),
            match run {
                Some(r) => final(self).position() > old(self).position() && r@ == old(
                    self,
                ).text().subrange(old(self).position(), final(self).position()),
                None => final(self).position() == old(self).position(),
            },
    {
        proof {
            use_type_invariant(&*self);
        }
        let start: usize = self.location;
        let mut idx: usize = start;
        let mut captured = String::new();
        assert forall|i: int| start <= i < self.input.len() implies call_requires(
            p,
            (#[trigger] self.input@[i],),
        ) by {
            assert(self.input@[i] == self.text()[i]);
        }
        while idx < self.input.len() && p(self.input[idx])
            invariant
                start <= idx <= self.input.len(),
                start == self.location,
                forall|i: int|
                    start <= i < self.input.len() ==> call_requires(
                        p,
                        (#[trigger] self.input@[i],),
                    ),
                forall|i: int|
                    start <= i < idx ==> call_ensures(p, (#[trigger] self.input@[i],), true),
                captured@ == self.input@.subrange(start as int, idx as int),
            decreases self.input.len() - idx,
        {
            captured.push(self.input[idx]);
            assert(self.input@.subrange(start as int, idx + 1) == self.input@.subrange(
                start as int,
                idx as int,
            ).push(self.input@[idx as int]));
            idx += 1;
        }
        if idx == start {
            return None;
        }
        self.location = idx;
        Some(captured)
    }

    /// Reads whatever whitespace comes next, which may be none.
    pub fn parse_whitespace(&mut self)
        ensures
            final(self).text() == old(self).text(),
            final(self).position() == old(self).position() + whitespace_len(
                old(self).text(),
                old(self).position(),
            ),
    {
        proof {
            use_type_invariant(&*self);
        }
        let ghost start = self.location;
        while self.location < self.input.len() && whitespace(self.input[self.location])
            invariant
                start <= self.location <= self.input.len(),
                self.input == old(self).input,
                forall|i: int|
                    start <= i < self.location ==> is_whitespace(#[trigger] self.input@[i]),
            decreases self.input.len() - self.location,
        {
            self.location += 1;
        }
        proof {
            lemma_run_len(
                self.input@,
                start as int,
                |c: char| is_whitespace(c),
                (self.location - start) as nat,
            );
        }
    }
}

} // verus!
