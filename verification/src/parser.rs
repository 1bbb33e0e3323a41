//! The parser abstraction: one operation that advances a cursor and yields an
//! outcome, and what can be used as a parser without wrapping.
use vstd::prelude::*;
use core::marker::PhantomData;
use crate::combinator::{
    AndThen,
    CompleteErr,
    Context,
    ErrInto,
    FlatMap,
    Mapped,
    OutputInto,
    ParseSlice,
    ParseTo,
    Recognize,
    Span,
    TryMap,
    Value,
    Verify,
    VerifyMap,
    Void,
    WithRecognized,
    WithSpan,
};
use crate::error::{
    AddContext,
    ErrMode,
    ErrorKind,
    FromExternalError,
    IResult,
    Needed,
    PResult,
    ParseError,
};
use crate::stream::{Compare, Location, Stream, StreamIsPartial};
use crate::token::{literal, one_of_parses, tag_parses, token_in, AsChar};

verus! {

/// Something that reads a prefix of a stream `I` and yields an `O`, or fails
/// with an [`ErrMode<E>`].
///
/// What a parser does is described by the relation [`Parser::parses`]. A call
/// of [`Parser::parse_next`] always ends in a cursor and an outcome that the
/// relation holds of, and leaves the parser as it was: parsers keep no state
/// from one call to the next.
///
/// The parsers of this crate state their relation in full. A function that
/// advances a cursor is a parser too, but one whose relation covers the
/// outcome only, not the cursor: a caller that wants more of a parser of its
/// own gives it a type of its own and implements this trait for it, or
/// writes it as a function that takes the input by value (see
/// [`from_peek`]).
pub trait Parser<I, O, E>: Sized {
    /// What must hold of a parser before it is called, such as that the
    /// functions it was built from accept every argument.
    spec fn wf(&self) -> bool;

    /// Started with the cursor at `before`, the parser may stop with the
    /// cursor at `after` and the outcome `r`.
    spec fn parses(&self, before: I, after: I, r: PResult<O, E>) -> bool;

    /// Takes tokens from the stream and turns them into the output.
    ///
    /// On success the cursor stands behind what was consumed. On failure it
    /// stands where the parser left it.
    fn parse_next(&mut self, input: &mut I) -> (r: PResult<O, E>)
        requires
            old(self).wf(),
        ensures
            *final(self) == *old(self),
            old(self).parses(*old(input), *final(input), r),
    ;

    /// Runs the parser on an input taken by value and hands back what is left
    /// of it together with the output.
    fn parse_peek(&mut self, input: I) -> (r: IResult<I, O, E>)
        requires
            old(self).wf(),
        ensures
            *final(self) == *old(self),
            match r {
                Ok((rest, o)) => old(self).parses(input, rest, Ok(o)),
                Err(e) => exists|rest: I| old(self).parses(input, rest, Err(e)),
            },
    {
        let mut input = input;
        match self.parse_next(&mut input) {
            Ok(o) => Ok((input, o)),
            Err(err) => Err(err),
        }
    }

    /// Parses all of `input`: runs the parser and then requires the end of
    /// the input.
    ///
    /// The stream type must be a complete one and the parser must not ask for
    /// more input here: streaming callers handle that outcome themselves, with
    /// [`Parser::parse_next`].
    fn parse(&mut self, input: I) -> (r: Result<O, E>) where
        I: Stream + StreamIsPartial,
        E: ParseError<I>,

        requires
            old(self).wf(),
            !I::supports_partial(),
            forall|after: I, n: Needed|
                !old(self).parses(input, after, Err(ErrMode::Incomplete(n))),
        ensures
            *final(self) == *old(self),
            match r {
                Ok(o) => exists|rest: I| #[trigger]
                    stops_at(rest) && old(self).parses(input, rest, Ok(o))
                        && rest.tokens().len() == 0,
                Err(e) => {
                    ||| exists|rest: I| #[trigger]
                        stops_at(rest) && old(self).parses(input, rest, Err(ErrMode::Backtrack(e)))
                    ||| exists|rest: I| #[trigger]
                        stops_at(rest) && old(self).parses(input, rest, Err(ErrMode::Cut(e)))
                    ||| exists|rest: I, o: O| #[trigger]
                        stops_with(rest, o) && old(self).parses(input, rest, Ok(o))
                            && rest.tokens().len() > 0 && e.made_from_kind(rest, ErrorKind::Eof)
                },
            },
    {
        let ghost start = input;
        let mut input = input;
        let r = self.parse_next(&mut input);
        proof {
            assert(stops_at(input));
            if r is Ok {
                assert(stops_with(input, r->Ok_0));
            }
        }
        match r {
            Err(ErrMode::Backtrack(e)) => Err(e),
            Err(ErrMode::Cut(e)) => Err(e),
            Err(ErrMode::Incomplete(n)) => {
                proof {
                    assert(old(self).parses(start, input, Err(ErrMode::Incomplete(n))));
                }
                vstd::pervasive::unreached()
            },
            Ok(o) => {
                if input.eof_offset() == 0 {
                    Ok(o)
                } else {
                    Err(E::from_error_kind(&input, ErrorKind::Eof))
                }
            },
        }
    }

    /// A parser that yields a clone of `val` where this one succeeds.
    fn value<O2>(self, val: O2) -> (p: Value<Self, I, O, O2, E>) where O2: Clone
        ensures
            p == Value::<Self, I, O, O2, E>::of(self, val),
    {
        Value { parser: self, val, i: PhantomData, o: PhantomData, e: PhantomData }
    }

    /// A parser that yields unit where this one succeeds.
    fn void(self) -> (p: Void<Self, I, O, E>)
        ensures
            p == Void::<Self, I, O, E>::of(self),
    {
        Void { parser: self, i: PhantomData, o: PhantomData, e: PhantomData }
    }

    /// A parser that converts the output of this one with [`Into`].
    fn output_into<O2>(self) -> (p: OutputInto<Self, I, O, O2, E>) where O: Into<O2>
        ensures
            p == OutputInto::<Self, I, O, O2, E>::of(self),
    {
        OutputInto { parser: self, i: PhantomData, o: PhantomData, o2: PhantomData, e: PhantomData }
    }

    /// A parser that yields the input that this one consumed.
    fn recognize(self) -> (p: Recognize<Self, I, O, E>) where I: Stream
        ensures
            p == Recognize::<Self, I, O, E>::of(self),
    {
        Recognize { parser: self, i: PhantomData, o: PhantomData, e: PhantomData }
    }

    /// A parser that yields the output of this one with the input that it
    /// consumed.
    fn with_recognized(self) -> (p: WithRecognized<Self, I, O, E>) where I: Stream
        ensures
            p == WithRecognized::<Self, I, O, E>::of(self),
    {
        WithRecognized { parser: self, i: PhantomData, o: PhantomData, e: PhantomData }
    }

    /// A parser that yields the positions between which this one consumed
    /// input.
    fn span(self) -> (p: Span<Self, I, O, E>) where I: Stream + Location
        ensures
            p == Span::<Self, I, O, E>::of(self),
    {
        Span { parser: self, i: PhantomData, o: PhantomData, e: PhantomData }
    }

    /// A parser that yields the output of this one with the positions between
    /// which it consumed input.
    fn with_span(self) -> (p: WithSpan<Self, I, O, E>) where I: Stream + Location
        ensures
            p == WithSpan::<Self, I, O, E>::of(self),
    {
        WithSpan { parser: self, i: PhantomData, o: PhantomData, e: PhantomData }
    }

    /// A parser that applies `map` to the output of this one.
    ///
    /// A verified caller that wants to reason about the result hides the type
    /// of `map` first, with [`crate::combinator::as_fn`]. The same holds of
    /// the other adapters that take a function.
    fn map<G, O2>(self, map: G) -> (p: Mapped<Self, G, I, O, O2, E>) where G: Fn(O) -> O2
        ensures
            p == Mapped::<Self, G, I, O, O2, E>::of(self, map),
    {
        Mapped {
            parser: self,
            map,
            i: PhantomData,
            o: PhantomData,
            o2: PhantomData,
            e: PhantomData,
        }
    }

    /// A parser that applies `map` to the output of this one and fails where
    /// `map` returns an error.
    fn try_map<G, O2, E2>(self, map: G) -> (p: TryMap<Self, G, I, O, O2, E, E2>) where
        G: FnMut(O) -> Result<O2, E2>,
        I: Stream,
        E: FromExternalError<I, E2>,

        ensures
            p == TryMap::<Self, G, I, O, O2, E, E2>::of(self, map),
    {
        TryMap {
            parser: self,
            map,
            i: PhantomData,
            o: PhantomData,
            o2: PhantomData,
            e: PhantomData,
            e2: PhantomData,
        }
    }

    /// A parser that applies `map` to the output of this one and fails where
    /// `map` returns nothing.
    fn verify_map<G, O2>(self, map: G) -> (p: VerifyMap<Self, G, I, O, O2, E>) where
        G: FnMut(O) -> Option<O2>,
        I: Stream,
        E: ParseError<I>,

        ensures
            p == VerifyMap::<Self, G, I, O, O2, E>::of(self, map),
    {
        VerifyMap {
            parser: self,
            map,
            i: PhantomData,
            o: PhantomData,
            o2: PhantomData,
            e: PhantomData,
        }
    }

    /// A parser that reads the output of this one as a value of type `O2`.
    fn parse_to<O2>(self) -> (p: ParseTo<Self, I, O, O2, E>) where
        I: Stream,
        O: ParseSlice<O2>,
        E: ParseError<I>,

        ensures
            p == ParseTo::<Self, I, O, O2, E>::of(self),
    {
        ParseTo { p: self, i: PhantomData, o: PhantomData, o2: PhantomData, e: PhantomData }
    }

    /// A parser that accepts the output of this one only where `filter` holds
    /// of it.
    fn verify<G>(self, filter: G) -> (p: Verify<Self, G, I, O, E>) where
        G: Fn(&O) -> bool,
        I: Stream,
        E: ParseError<I>,

        ensures
            p == Verify::<Self, G, I, O, E>::of(self, filter),
    {
        Verify { parser: self, filter, i: PhantomData, o: PhantomData, e: PhantomData }
    }

    /// A parser that adds the label `context` to the error where this one
    /// fails.
    fn context<C>(self, context: C) -> (p: Context<Self, I, O, E, C>) where
        I: Stream,
        E: AddContext<I, C>,
        C: Clone,

        ensures
            p == Context::<Self, I, O, E, C>::of(self, context),
    {
        Context { parser: self, context, i: PhantomData, o: PhantomData, e: PhantomData }
    }

    /// A parser that fails where this one asks for more input.
    fn complete_err(self) -> (p: CompleteErr<Self>)
        ensures
            p == CompleteErr::<Self>::of(self),
    {
        CompleteErr { f: self }
    }

    /// A parser that converts the error of this one with [`Into`].
    fn err_into<E2>(self) -> (p: ErrInto<Self, I, O, E, E2>) where E: Into<E2>
        ensures
            p == ErrInto::<Self, I, O, E, E2>::of(self),
    {
        ErrInto { parser: self, i: PhantomData, o: PhantomData, e: PhantomData, e2: PhantomData }
    }
}

/// The adapters that put a second parser behind a first one.
pub trait ParserChain<I, O, E>: Parser<I, O, E> {
    /// A parser that runs this one and then the parser that `map` builds from
    /// its output.
    fn flat_map<G, H, O2>(self, map: G) -> (p: FlatMap<Self, G, H, I, O, O2, E>) where
        G: FnMut(O) -> H,
        H: Parser<I, O2, E>,

        ensures
            p == FlatMap::<Self, G, H, I, O, O2, E>::of(self, map),
    {
        FlatMap {
            f: self,
            g: map,
            h: PhantomData,
            i: PhantomData,
            o: PhantomData,
            o2: PhantomData,
            e: PhantomData,
        }
    }

    /// A parser that runs `inner` over the output of this one.
    fn and_then<G, O2>(self, inner: G) -> (p: AndThen<Self, G, I, O, O2, E>) where
        G: Parser<O, O2, E>,
        O: StreamIsPartial,
        I: Stream,

        ensures
            p == AndThen::<Self, G, I, O, O2, E>::of(self, inner),
    {
        AndThen {
            outer: self,
            inner,
            i: PhantomData,
            o: PhantomData,
            o2: PhantomData,
            e: PhantomData,
        }
    }
}

impl<I, O, E, P: Parser<I, O, E>> ParserChain<I, O, E> for P {

}

/// Every run of `p` ends at a cursor that the cursor it started from reaches
/// by moving forward.
pub open spec fn advancing<I: Stream, O, E, P: Parser<I, O, E>>(p: P) -> bool {
    forall|before: I, after: I, r: PResult<O, E>| #[trigger]
        p.parses(before, after, r) ==> crate::stream::reaches(before, after)
}

/// Names `mid` as a cursor at which a parser stopped. It holds of every
/// cursor: the relations below use it to say which cursor they speak of, and
/// a proof asserts it to point at one.
pub open spec fn stops_at<I>(mid: I) -> bool {
    true
}

/// Names `mid` and `o` as a cursor at which a parser stopped and a value
/// that it stopped with. It holds of every pair.
pub open spec fn stops_with<I, O>(mid: I, o: O) -> bool {
    true
}

/// The unit parser consumes nothing and yields unit.
impl<I, E> Parser<I, (), E> for () {
    open spec fn wf(&self) -> bool {
        true
    }

    open spec fn parses(&self, before: I, after: I, r: PResult<(), E>) -> bool {
        after == before && r == Ok::<(), ErrMode<E>>(())
    }

    fn parse_next(&mut self, input: &mut I) -> (r: PResult<(), E>) {
        Ok(())
    }
}

/// A function that advances a cursor is a parser.
///
/// Its relation holds of the outcomes that the function's own contract allows
/// for a call with the cursor at `before`. Of the cursor after the call the
/// relation says nothing: where a function leaves the cursor cannot be told
/// apart from the call. A direct call of [`Parser::parse_next`] does state it:
/// the cursor and the outcome are those of one call that the function's
/// contract allows. A function that takes the input by value can be given a
/// relation that covers the cursor too, with [`from_peek`].
impl<I, O, E, F> Parser<I, O, E> for F where F: FnMut(&mut I) -> PResult<O, E> {
    open spec fn wf(&self) -> bool {
        forall|i: &mut I| call_requires(*self, (i,))
    }

    open spec fn parses(&self, before: I, after: I, r: PResult<O, E>) -> bool {
        exists|i: &mut I| *i == before && #[trigger] call_ensures(*self, (i,), r)
    }

    fn parse_next(&mut self, input: &mut I) -> (r: PResult<O, E>)
        ensures
            exists|i: &mut I|
                *i == *old(input) && *final(i) == *final(input) && call_ensures(
                    *old(self),
                    (i,),
                    r,
                ),
    {
        broadcast use vstd::function::group_function_axioms;

        self(input)
    }
}

/// Turns a function that takes the input by value and returns the rest with
/// the output into a function that advances a cursor, which is a parser.
///
/// The function is handed a clone of the cursor. On success the cursor is set
/// to the rest that the function returned. On failure the cursor is left
/// where it was.
///
/// As a parser, what comes back has the relation of a function that advances
/// a cursor, which covers the outcome and not the cursor; [`from_peek`] makes
/// of the same function a parser whose relation covers both.
pub fn unpeek<I, O, E, F>(peek: F) -> (p: impl FnMut(&mut I) -> PResult<O, E>) where
    F: Fn(I) -> IResult<I, O, E>,
    I: Clone,

    requires
        forall|x: I| call_requires(peek, (x,)),
    ensures
        forall|i: &mut I| call_requires(p, (i,)),
        forall|i: &mut I, r: PResult<O, E>|
            call_ensures(p, (i,), r) ==> exists|c: I|
                cloned(*i, c) && match r {
                    Ok(o) => call_ensures(peek, (c,), Ok((*final(i), o))),
                    Err(e) => call_ensures(peek, (c,), Err(e)) && *final(i) == *i,
                },
{
    move |input: &mut I| -> (r: PResult<O, E>)
        ensures
            exists|c: I|
                cloned(*old(input), c) && match r {
                    Ok(o) => call_ensures(peek, (c,), Ok((*final(input), o))),
                    Err(e) => call_ensures(peek, (c,), Err(e)) && *final(input) == *old(input),
                },
        {
            let c = (*input).clone();
            assert(cloned(*old(input), c));
            match peek(c) {
                Ok((i, o)) => {
                    *input = i;
                    Ok(o)
                },
                Err(err) => Err(err),
            }
        }
}

/// A function that takes the input by value and returns the rest with the
/// output, as a parser with a relation of its own. Built by [`from_peek`].
pub struct FromPeek<F, I, O, E> {
    pub peek: F,
    pub i: PhantomData<I>,
    pub o: PhantomData<O>,
    pub e: PhantomData<E>,
}

/// The function `peek`, called on the clone `c` of the cursor `before`, may
/// give what amounts to the cursor `after` and the outcome `r`: on success
/// the rest that it returned is `after`, on failure `after` is `before`.
pub open spec fn peek_gives<I, O, E, F: Fn(I) -> IResult<I, O, E>>(
    peek: F,
    c: I,
    before: I,
    after: I,
    r: PResult<O, E>,
) -> bool {
    match r {
        Ok(o) => call_ensures(peek, (c,), Ok::<(I, O), ErrMode<E>>((after, o))),
        Err(e) => after == before && call_ensures(peek, (c,), Err::<(I, O), ErrMode<E>>(e)),
    }
}

impl<F, I, O, E> Parser<I, O, E> for FromPeek<F, I, O, E> where
    F: Fn(I) -> IResult<I, O, E>,
    I: Clone,
 {
    /// The function must accept every input.
    open spec fn wf(&self) -> bool {
        forall|x: I| call_requires(self.peek, (x,))
    }

    /// The outcome is one that the function's own contract allows for a clone
    /// of the cursor.
    open spec fn parses(&self, before: I, after: I, r: PResult<O, E>) -> bool {
        exists|c: I| #[trigger] cloned(before, c) && peek_gives(self.peek, c, before, after, r)
    }

    fn parse_next(&mut self, input: &mut I) -> (r: PResult<O, E>) {
        let c = (*input).clone();
        assert(cloned(*old(input), c));
        match (self.peek)(c) {
            Ok((rest, o)) => {
                *input = rest;
                Ok(o)
            },
            Err(e) => Err(e),
        }
    }
}

/// The parser that the function `peek` is, where `peek` takes the input by
/// value and returns the rest with the output.
///
/// Unlike what [`unpeek`] returns, the parser has a relation that says what
/// `peek` does, so that combinators built over it know their part. The type
/// of the function is hidden behind its signature; it accepts what `peek`
/// accepts and returns what `peek` returns.
pub fn from_peek<I, O, E, F>(peek: F) -> (p: FromPeek<
    impl Fn(I) -> IResult<I, O, E>,
    I,
    O,
    E,
>) where
    F: Fn(I) -> IResult<I, O, E>,
    I: Clone,

    ensures
        forall|x: I| call_requires(peek, (x,)) <==> #[trigger] call_requires(p.peek, (x,)),
        forall|x: I, r: IResult<I, O, E>| #[trigger]
            call_ensures(p.peek, (x,), r) <==> call_ensures(peek, (x,), r),
{
    FromPeek { peek, i: PhantomData, o: PhantomData, e: PhantomData }
}

/// A byte is the parser that takes exactly this byte.
impl<I, E> Parser<I, u8, E> for u8 where
    I: StreamIsPartial + Stream<Token = u8>,
    E: ParseError<I>,
 {
    open spec fn wf(&self) -> bool {
        true
    }

    open spec fn parses(&self, before: I, after: I, r: PResult<u8, E>) -> bool {
        one_of_parses(*self, before, after, r)
    }

    fn parse_next(&mut self, input: &mut I) -> (r: PResult<u8, E>) {
        token_in(input, *self)
    }
}

/// A character is the parser that takes one token standing for this
/// character.
impl<I, E> Parser<I, <I as Stream>::Token, E> for char where
    I: StreamIsPartial + Stream,
    <I as Stream>::Token: AsChar + Copy,
    E: ParseError<I>,
 {
    open spec fn wf(&self) -> bool {
        true
    }

    open spec fn parses(&self, before: I, after: I, r: PResult<<I as Stream>::Token, E>) -> bool {
        one_of_parses(*self, before, after, r)
    }

    fn parse_next(&mut self, input: &mut I) -> (r: PResult<<I as Stream>::Token, E>) {
        token_in(input, *self)
    }
}

/// A byte string is the parser that recognizes it as a literal.
impl<'s, I, E> Parser<I, <I as Stream>::Slice, E> for &'s [u8] where
    I: Compare<&'s [u8]> + StreamIsPartial + Stream,
    E: ParseError<I>,
 {
    open spec fn wf(&self) -> bool {
        true
    }

    open spec fn parses(&self, before: I, after: I, r: PResult<<I as Stream>::Slice, E>) -> bool {
        tag_parses(I::pattern(*self), before, after, r)
    }

    fn parse_next(&mut self, input: &mut I) -> (r: PResult<<I as Stream>::Slice, E>) {
        literal(input, *self)
    }
}

/// A byte array is the parser that recognizes it as a literal.
impl<'s, I, E, const N: usize> Parser<I, <I as Stream>::Slice, E> for &'s [u8; N] where
    I: Compare<&'s [u8; N]> + StreamIsPartial + Stream,
    E: ParseError<I>,
 {
    open spec fn wf(&self) -> bool {
        true
    }

    open spec fn parses(&self, before: I, after: I, r: PResult<<I as Stream>::Slice, E>) -> bool {
        tag_parses(I::pattern(*self), before, after, r)
    }

    fn parse_next(&mut self, input: &mut I) -> (r: PResult<<I as Stream>::Slice, E>) {
        literal(input, *self)
    }
}

/// A text literal is the parser that recognizes it.
impl<'s, I, E> Parser<I, <I as Stream>::Slice, E> for &'s str where
    I: Compare<&'s str> + StreamIsPartial + Stream,
    E: ParseError<I>,
 {
    open spec fn wf(&self) -> bool {
        true
    }

    open spec fn parses(&self, before: I, after: I, r: PResult<<I as Stream>::Slice, E>) -> bool {
        tag_parses(I::pattern(*self), before, after, r)
    }

    fn parse_next(&mut self, input: &mut I) -> (r: PResult<<I as Stream>::Slice, E>) {
        literal(input, *self)
    }
}

} // verus!
