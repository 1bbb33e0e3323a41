//! Parsers for numbers in binary form.
use vstd::prelude::*;
use crate::error::{ErrMode, ErrorKind, Needed, PResult, ParseError};
use crate::parser::Parser;
use crate::stream::{Stream, StreamIsPartial};
use crate::token::runs_short;

verus! {

/// The number that the bytes `hi` and `lo` spell, most significant first.
pub open spec fn be_u16_value(hi: u8, lo: u8) -> u16 {
    (hi as u16 * 256 + lo as u16) as u16
}

/// The relation of [`be_u16`].
///
/// With two bytes left, it consumes them and yields the number they spell.
/// With fewer, it runs short of the difference, with [`ErrorKind::Slice`].
pub open spec fn be_u16_parses<I: StreamIsPartial<Token = u8>, E: ParseError<I>>(
    before: I,
    after: I,
    r: PResult<u16, E>,
) -> bool {
    if before.tokens().len() >= 2 {
        r == Ok::<u16, ErrMode<E>>(be_u16_value(before.tokens()[0], before.tokens()[1]))
            && before.steps_to(2, after)
    } else {
        runs_short(
            before,
            after,
            r,
            (2 - before.tokens().len()) as usize,
            ErrorKind::Slice,
        )
    }
}

/// Reads an unsigned 16-bit number, most significant byte first.
pub fn be_u16<I, E>(input: &mut I) -> (r: PResult<u16, E>) where
    I: StreamIsPartial + Stream<Token = u8>,
    E: ParseError<I>,

    ensures
        be_u16_parses(*old(input), *final(input), r),
{
    let have = input.eof_offset();
    if have < 2 {
        if input.is_partial() {
            Err(ErrMode::Incomplete(Needed::new(2 - have)))
        } else {
            Err(ErrMode::Backtrack(E::from_error_kind(&*input, ErrorKind::Slice)))
        }
    } else {
        let ghost before = *input;
        let hi = match input.next_token() {
            Some(t) => t,
            None => vstd::pervasive::unreached(),
        };
        let ghost mid = *input;
        proof {
            before.lemma_steps_tokens(1, mid);
        }
        let lo = match input.next_token() {
            Some(t) => t,
            None => vstd::pervasive::unreached(),
        };
        proof {
            before.lemma_steps_chain(1, mid, 1, *input);
        }
        Ok(hi as u16 * 256 + lo as u16)
    }
}

/// Reads an unsigned 16-bit number, most significant byte first, as
/// [`be_u16`] does.
pub struct BeU16;

impl<I: StreamIsPartial + Stream<Token = u8>, E: ParseError<I>> Parser<I, u16, E> for BeU16 {
    open spec fn wf(&self) -> bool {
        true
    }

    open spec fn parses(&self, before: I, after: I, r: PResult<u16, E>) -> bool {
        be_u16_parses(before, after, r)
    }

    fn parse_next(&mut self, input: &mut I) -> (r: PResult<u16, E>) {
        be_u16(input)
    }
}

} // verus!
