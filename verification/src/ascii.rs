//! Parsers for runs of ASCII letters and digits.
use vstd::prelude::*;
use crate::error::{asks_for, backtracks_at, ErrMode, ErrorKind, Needed, PResult, ParseError};
use crate::parser::Parser;
use crate::stream::{starts_with_slice, Stream, StreamIsPartial};
use crate::token::AsChar;

verus! {

/// A class of characters.
#[derive(Debug, Clone, Copy, PartialEq, Eq)]
pub enum CharClass {
    /// The letters `a` to `z` and `A` to `Z`.
    Alpha,
    /// The digits `0` to `9`.
    Digit,
}

impl CharClass {
    /// Whether the character `c` is in the class.
    pub open spec fn holds(self, c: char) -> bool {
        let v = c as u32;
        match self {
            CharClass::Alpha => (0x41 <= v <= 0x5a) || (0x61 <= v <= 0x7a),
            CharClass::Digit => 0x30 <= v <= 0x39,
        }
    }

    /// Whether the character `c` is in the class.
    pub fn test(self, c: char) -> (b: bool)
        ensures
            b == self.holds(c),
    {
        let v = c as u32;
        match self {
            CharClass::Alpha => (0x41 <= v && v <= 0x5a) || (0x61 <= v && v <= 0x7a),
            CharClass::Digit => 0x30 <= v && v <= 0x39,
        }
    }
}

/// The first `n` tokens of `s` are all in `class`, and they are all that
/// are: the token after them, if there is one, is not.
pub open spec fn is_run<T: AsChar>(s: Seq<T>, class: CharClass, n: nat) -> bool {
    &&& n <= s.len()
    &&& forall|j: int| 0 <= j < n ==> class.holds(#[trigger] s[j].char_of())
    &&& n == s.len() || !class.holds(s[n as int].char_of())
}

/// The relation of a parser that takes the longest run of one or more tokens
/// of `class`.
///
/// It yields the run as a slice. Where the first token is not in the class,
/// or on a complete stream there is none, it fails with
/// [`ErrorKind::Slice`]. On a partial stream a run that reaches the end of
/// what is there may still go on, so the parser asks for one more token.
pub open spec fn run_parses<I: StreamIsPartial, E: ParseError<I>>(
    class: CharClass,
    before: I,
    after: I,
    r: PResult<I::Slice, E>,
) -> bool where I::Token: AsChar {
    let tokens = before.tokens();
    if before.partial() && is_run(tokens, class, tokens.len()) {
        after == before && asks_for(r, 1)
    } else if is_run(tokens, class, 0) {
        after == before && backtracks_at(r, before, ErrorKind::Slice)
    } else {
        r matches Ok(s) && exists|n: nat| #[trigger]
            is_run(tokens, class, n) && before.steps_to(n, after) && starts_with_slice(
                before,
                n,
                s,
            )
    }
}

/// Takes the longest run of one or more tokens of `class`.
pub fn run_of<I, E>(input: &mut I, class: CharClass) -> (r: PResult<I::Slice, E>) where
    I: StreamIsPartial + Stream,
    I::Token: AsChar,
    E: ParseError<I>,

    ensures
        run_parses(class, *old(input), *final(input), r),
{
    let total = input.eof_offset();
    let mut probe = input.checkpoint();
    let mut n: usize = 0;
    let mut more = true;
    proof {
        input.lemma_steps_zero();
    }
    while more && n < total
        invariant
            *input == *old(input),
            total == input.tokens().len(),
            n <= total,
            more ==> input.steps_to(n as nat, probe),
            forall|j: int| 0 <= j < n ==> class.holds(#[trigger] input.tokens()[j].char_of()),
            !more ==> n < total && !class.holds(input.tokens()[n as int].char_of()),
        decreases (if more { 1int } else { 0int }) + total - n,
    {
        let ghost here = probe;
        proof {
            input.lemma_steps_tokens(n as nat, here);
        }
        match probe.next_token() {
            Some(t) => {
                if class.test(t.as_char()) {
                    proof {
                        input.lemma_steps_chain(n as nat, here, 1, probe);
                    }
                    n = n + 1;
                } else {
                    more = false;
                }
            },
            None => {
                more = false;
            },
        }
    }
    proof {
        assert(is_run(input.tokens(), class, n as nat));
    }
    if n == total && input.is_partial() {
        Err(ErrMode::Incomplete(Needed::new(1)))
    } else if n == 0 {
        Err(ErrMode::Backtrack(E::from_error_kind(&*input, ErrorKind::Slice)))
    } else {
        Ok(input.next_slice(n))
    }
}

/// Takes one or more ASCII letters.
pub fn alpha1<I, E>(input: &mut I) -> (r: PResult<I::Slice, E>) where
    I: StreamIsPartial + Stream,
    I::Token: AsChar,
    E: ParseError<I>,

    ensures
        run_parses(CharClass::Alpha, *old(input), *final(input), r),
{
    run_of(input, CharClass::Alpha)
}

/// Takes one or more ASCII digits.
pub fn digit1<I, E>(input: &mut I) -> (r: PResult<I::Slice, E>) where
    I: StreamIsPartial + Stream,
    I::Token: AsChar,
    E: ParseError<I>,

    ensures
        run_parses(CharClass::Digit, *old(input), *final(input), r),
{
    run_of(input, CharClass::Digit)
}

/// Takes the longest run of one or more tokens of a class, as [`run_of`]
/// does.
pub struct Run {
    pub class: CharClass,
}

impl<I, E> Parser<I, I::Slice, E> for Run where
    I: StreamIsPartial + Stream,
    I::Token: AsChar,
    E: ParseError<I>,
 {
    open spec fn wf(&self) -> bool {
        true
    }

    open spec fn parses(&self, before: I, after: I, r: PResult<I::Slice, E>) -> bool {
        run_parses(self.class, before, after, r)
    }

    fn parse_next(&mut self, input: &mut I) -> (r: PResult<I::Slice, E>) {
        run_of(input, self.class)
    }
}

} // verus!
