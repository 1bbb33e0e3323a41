//! Parsers for single tokens and for runs of tokens.
use vstd::prelude::*;
use core::marker::PhantomData;
use crate::error::{asks_for, backtracks_at, ErrMode, ErrorKind, Needed, PResult, ParseError};
use crate::parser::Parser;
use crate::stream::{
    compare_tokens,
    starts_with_slice,
    Compare,
    CompareResult,
    Stream,
    StreamIsPartial,
};

verus! {

/// What running out of tokens means at `before`: on a partial stream a request
/// for `missing` more tokens, on a complete one a recoverable failure of the
/// rule `kind`. Either way the cursor stays.
pub open spec fn runs_short<I: StreamIsPartial, O, E: ParseError<I>>(
    before: I,
    after: I,
    r: PResult<O, E>,
    missing: usize,
    kind: ErrorKind,
) -> bool {
    after == before && if before.partial() {
        asks_for(r, missing)
    } else {
        backtracks_at(r, before, kind)
    }
}

/// The relation of a parser that recognizes the literal `pat`.
///
/// If the stream starts with the pattern, the parser consumes it and yields
/// it as a slice. If the stream ends inside the pattern, the parser runs
/// short of what is missing. Else it fails with [`ErrorKind::Tag`], the
/// cursor unmoved.
pub open spec fn tag_parses<I: Stream + StreamIsPartial, E: ParseError<I>>(
    pat: Seq<I::Token>,
    before: I,
    after: I,
    r: PResult<I::Slice, E>,
) -> bool {
    match compare_tokens(before.tokens(), pat) {
        CompareResult::Match(n) => r matches Ok(s) && before.steps_to(n as nat, after)
            && starts_with_slice(before, n as nat, s),
        CompareResult::Incomplete(missing) => runs_short(
            before,
            after,
            r,
            missing,
            ErrorKind::Tag,
        ),
        CompareResult::Mismatch => after == before && backtracks_at(r, before, ErrorKind::Tag),
    }
}

/// Recognizes a literal pattern.
pub struct Tag<T, I, E> {
    pub tag: T,
    pub i: PhantomData<I>,
    pub e: PhantomData<E>,
}

impl<T, I, E> Tag<T, I, E> {
    /// The parser that recognizes `literal`.
    pub open spec fn of(literal: T) -> Self {
        Tag { tag: literal, i: PhantomData, e: PhantomData }
    }
}

/// A parser that recognizes `literal` and yields the matched slice.
pub fn tag<T, I, E>(literal: T) -> (p: Tag<T, I, E>)
    ensures
        p == Tag::<T, I, E>::of(literal),
{
    Tag { tag: literal, i: PhantomData, e: PhantomData }
}

impl<T, I, E> Parser<I, I::Slice, E> for Tag<T, I, E> where
    T: Copy,
    I: Stream + StreamIsPartial + Compare<T>,
    E: ParseError<I>,
 {
    open spec fn wf(&self) -> bool {
        true
    }

    open spec fn parses(&self, before: I, after: I, r: PResult<I::Slice, E>) -> bool {
        tag_parses(I::pattern(self.tag), before, after, r)
    }

    fn parse_next(&mut self, input: &mut I) -> (r: PResult<I::Slice, E>) {
        literal(input, self.tag)
    }
}

/// Recognizes the literal `t` at the cursor.
pub fn literal<T, I, E>(input: &mut I, t: T) -> (r: PResult<I::Slice, E>) where
    I: Stream + StreamIsPartial + Compare<T>,
    E: ParseError<I>,

    ensures
        tag_parses(I::pattern(t), *old(input), *final(input), r),
{
    match input.compare(t) {
        CompareResult::Match(n) => Ok(input.next_slice(n)),
        CompareResult::Incomplete(missing) => {
            if input.is_partial() {
                Err(ErrMode::Incomplete(Needed::new(missing)))
            } else {
                Err(ErrMode::Backtrack(E::from_error_kind(&*input, ErrorKind::Tag)))
            }
        },
        CompareResult::Mismatch => Err(
            ErrMode::Backtrack(E::from_error_kind(&*input, ErrorKind::Tag)),
        ),
    }
}

/// The relation of a parser that takes exactly `count` tokens.
///
/// With at least `count` tokens left, it yields the first `count` as a slice.
/// With fewer, it runs short of the difference, with [`ErrorKind::Slice`].
pub open spec fn take_parses<I: Stream + StreamIsPartial, E: ParseError<I>>(
    count: usize,
    before: I,
    after: I,
    r: PResult<I::Slice, E>,
) -> bool {
    if count <= before.tokens().len() {
        r matches Ok(s) && before.steps_to(count as nat, after) && starts_with_slice(
            before,
            count as nat,
            s,
        )
    } else {
        runs_short(
            before,
            after,
            r,
            (count - before.tokens().len()) as usize,
            ErrorKind::Slice,
        )
    }
}

/// Takes a fixed number of tokens.
pub struct Take<I, E> {
    pub count: usize,
    pub i: PhantomData<I>,
    pub e: PhantomData<E>,
}

impl<I, E> Take<I, E> {
    /// The parser that takes `count` tokens.
    pub open spec fn of(count: usize) -> Self {
        Take { count, i: PhantomData, e: PhantomData }
    }
}

/// A parser that yields the next `count` tokens as a slice.
pub fn take<I, E>(count: usize) -> (p: Take<I, E>)
    ensures
        p == Take::<I, E>::of(count),
{
    Take { count, i: PhantomData, e: PhantomData }
}

impl<I, E> Parser<I, I::Slice, E> for Take<I, E> where
    I: Stream + StreamIsPartial,
    E: ParseError<I>,
 {
    open spec fn wf(&self) -> bool {
        true
    }

    open spec fn parses(&self, before: I, after: I, r: PResult<I::Slice, E>) -> bool {
        take_parses(self.count, before, after, r)
    }

    fn parse_next(&mut self, input: &mut I) -> (r: PResult<I::Slice, E>) {
        let have = input.eof_offset();
        if self.count <= have {
            Ok(input.next_slice(self.count))
        } else if input.is_partial() {
            Err(ErrMode::Incomplete(Needed::new(self.count - have)))
        } else {
            Err(ErrMode::Backtrack(E::from_error_kind(&*input, ErrorKind::Slice)))
        }
    }
}

/// The relation of a parser that takes one token, whatever it is.
///
/// At the end of the stream it runs short of one token, with
/// [`ErrorKind::Token`].
pub open spec fn any_parses<I: Stream + StreamIsPartial, E: ParseError<I>>(
    before: I,
    after: I,
    r: PResult<I::Token, E>,
) -> bool {
    if before.tokens().len() > 0 {
        r == Ok::<I::Token, ErrMode<E>>(before.tokens()[0]) && before.steps_to(1, after)
    } else {
        runs_short(before, after, r, 1, ErrorKind::Token)
    }
}

/// Takes one token, whatever it is.
pub fn any<I, E>(input: &mut I) -> (r: PResult<I::Token, E>) where
    I: Stream + StreamIsPartial,
    E: ParseError<I>,

    ensures
        any_parses(*old(input), *final(input), r),
{
    match input.next_token() {
        Some(t) => Ok(t),
        None => {
            if input.is_partial() {
                Err(ErrMode::Incomplete(Needed::new(1)))
            } else {
                Err(ErrMode::Backtrack(E::from_error_kind(&*input, ErrorKind::Token)))
            }
        },
    }
}

/// Takes one token, whatever it is, as [`any`] does.
pub struct Any;

impl<I: Stream + StreamIsPartial, E: ParseError<I>> Parser<I, I::Token, E> for Any {
    open spec fn wf(&self) -> bool {
        true
    }

    open spec fn parses(&self, before: I, after: I, r: PResult<I::Token, E>) -> bool {
        any_parses(before, after, r)
    }

    fn parse_next(&mut self, input: &mut I) -> (r: PResult<I::Token, E>) {
        any(input)
    }
}

/// A token that can be read as a character.
pub trait AsChar: Copy {
    /// The character that the token stands for.
    spec fn char_of(self) -> char;

    /// The character that the token stands for.
    fn as_char(self) -> (c: char)
        ensures
            c == self.char_of(),
    ;
}

impl AsChar for u8 {
    open spec fn char_of(self) -> char {
        self as char
    }

    fn as_char(self) -> (c: char) {
        self as char
    }
}

impl AsChar for char {
    open spec fn char_of(self) -> char {
        self
    }

    fn as_char(self) -> (c: char) {
        self
    }
}

/// A set of tokens, given by a test of membership.
pub trait ContainsToken<T>: Copy {
    /// Whether `token` is in the set.
    spec fn contains(self, token: T) -> bool;

    /// Whether `token` is in the set.
    fn contains_token(self, token: T) -> (b: bool)
        ensures
            b == self.contains(token),
    ;
}

/// A byte is the set that holds just this byte.
impl ContainsToken<u8> for u8 {
    open spec fn contains(self, token: u8) -> bool {
        self == token
    }

    fn contains_token(self, token: u8) -> (b: bool) {
        self == token
    }
}

/// A character is the set of the tokens that stand for this character.
impl<T: AsChar> ContainsToken<T> for char {
    open spec fn contains(self, token: T) -> bool {
        self == token.char_of()
    }

    fn contains_token(self, token: T) -> (b: bool) {
        self == token.as_char()
    }
}

/// The relation of a parser that takes one token out of the set `set`.
///
/// A token outside the set is refused with [`ErrorKind::Verify`], the cursor
/// unmoved. At the end of the stream the parser runs short of one token, with
/// [`ErrorKind::Token`].
pub open spec fn one_of_parses<
    I: Stream + StreamIsPartial,
    S: ContainsToken<I::Token>,
    E: ParseError<I>,
>(
    set: S,
    before: I,
    after: I,
    r: PResult<I::Token, E>,
) -> bool {
    if before.tokens().len() == 0 {
        runs_short(before, after, r, 1, ErrorKind::Token)
    } else if set.contains(before.tokens()[0]) {
        r == Ok::<I::Token, ErrMode<E>>(before.tokens()[0]) && before.steps_to(1, after)
    } else {
        after == before && backtracks_at(r, before, ErrorKind::Verify)
    }
}

/// Takes one token out of a set.
pub struct OneOf<S, I, E> {
    pub set: S,
    pub i: PhantomData<I>,
    pub e: PhantomData<E>,
}

impl<S, I, E> OneOf<S, I, E> {
    /// The parser that takes one token of `set`.
    pub open spec fn of(set: S) -> Self {
        OneOf { set, i: PhantomData, e: PhantomData }
    }
}

/// A parser that takes one token if it is in `set`.
pub fn one_of<S, I, E>(set: S) -> (p: OneOf<S, I, E>)
    ensures
        p == OneOf::<S, I, E>::of(set),
{
    OneOf { set, i: PhantomData, e: PhantomData }
}

impl<I, S, E> Parser<I, I::Token, E> for OneOf<S, I, E> where
    I: Stream + StreamIsPartial,
    I::Token: Copy,
    S: ContainsToken<I::Token>,
    E: ParseError<I>,
 {
    open spec fn wf(&self) -> bool {
        true
    }

    open spec fn parses(&self, before: I, after: I, r: PResult<I::Token, E>) -> bool {
        one_of_parses(self.set, before, after, r)
    }

    fn parse_next(&mut self, input: &mut I) -> (r: PResult<I::Token, E>) {
        token_in(input, self.set)
    }
}

/// Takes one token at the cursor if it is in `set`.
pub fn token_in<I, S, E>(input: &mut I, set: S) -> (r: PResult<I::Token, E>) where
    I: Stream + StreamIsPartial,
    I::Token: Copy,
    S: ContainsToken<I::Token>,
    E: ParseError<I>,

    ensures
        one_of_parses(set, *old(input), *final(input), r),
{
    let start = input.checkpoint();
    match any::<I, E>(input) {
        Ok(t) => {
            if set.contains_token(t) {
                Ok(t)
            } else {
                input.reset(start);
                Err(ErrMode::Backtrack(E::from_error_kind(&*input, ErrorKind::Verify)))
            }
        },
        Err(e) => Err(e),
    }
}

} // verus!
