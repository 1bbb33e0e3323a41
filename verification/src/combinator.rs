//! Adapters: parsers built from one parser by changing what it yields, what
//! it reports, or when it is accepted.
//!
//! Each adapter passes on what the parser inside does to the cursor and to
//! the outcome, except for what its relation says otherwise.
use vstd::prelude::*;
use core::marker::PhantomData;
use core::ops::Range;
use crate::error::{
    backtracks_at,
    AddContext,
    ErrMode,
    ErrorKind,
    FromExternalError,
    PResult,
    ParseError,
};
use crate::parser::{stops_with, Parser};
use crate::stream::{
    holds_tokens_between,
    starts_with_slice,
    Location,
    Stream,
    StreamIsPartial,
};
use crate::text::{signed_value, unsigned_value};

verus! {

/// Started at `before`, `p` may succeed and stop at `after`.
pub open spec fn succeeds<I, O, E, P: Parser<I, O, E>>(p: P, before: I, after: I) -> bool {
    exists|o: O| #[trigger] stops_with(after, o) && p.parses(before, after, Ok(o))
}

/// The relation of a parser that recognizes the end of the input.
///
/// With no token left it yields the empty slice. With tokens left it fails
/// with [`ErrorKind::Eof`]. The cursor stays where it is.
pub open spec fn eof_parses<I: Stream, E: ParseError<I>>(
    before: I,
    after: I,
    r: PResult<I::Slice, E>,
) -> bool {
    if before.tokens().len() == 0 {
        r matches Ok(s) && before.steps_to(0, after) && starts_with_slice(before, 0, s)
    } else {
        after == before && backtracks_at(r, before, ErrorKind::Eof)
    }
}

/// Succeeds only at the end of the input.
pub fn eof<I, E>(input: &mut I) -> (r: PResult<I::Slice, E>) where I: Stream, E: ParseError<I>
    ensures
        eof_parses(*old(input), *final(input), r),
{
    if input.eof_offset() == 0 {
        Ok(input.next_slice(0))
    } else {
        Err(ErrMode::Backtrack(E::from_error_kind(&*input, ErrorKind::Eof)))
    }
}

/// Hides the type of the function `g` behind its signature; what comes back
/// accepts what `g` accepts and returns what `g` returns.
///
/// The relation of an adapter that holds a function is known to a verified
/// caller only where the function's type is hidden in this way, so such a
/// caller writes `p.map(as_fn(g))`. It serves the adapters that take a
/// function of the output by value: [`Parser::map`], [`Parser::try_map`],
/// [`Parser::verify_map`] and [`crate::parser::ParserChain::flat_map`].
pub fn as_fn<A, B, G: Fn(A) -> B>(g: G) -> (f: impl Fn(A) -> B)
    ensures
        forall|a: A| call_requires(g, (a,)) <==> #[trigger] call_requires(f, (a,)),
        forall|a: A, b: B| #[trigger] call_ensures(f, (a,), b) <==> call_ensures(g, (a,), b),
{
    g
}

/// Hides the type of the test `g` behind its signature, as [`as_fn`] does for
/// a function that takes its argument by value. It serves
/// [`Parser::verify`].
pub fn as_test<A, G: Fn(&A) -> bool>(g: G) -> (f: impl Fn(&A) -> bool)
    ensures
        forall|a: &A| call_requires(g, (a,)) <==> #[trigger] call_requires(f, (a,)),
        forall|a: &A, b: bool| #[trigger] call_ensures(f, (a,), b) <==> call_ensures(g, (a,), b),
{
    g
}

/// Succeeds only at the end of the input, as [`eof`] does.
pub struct Eof;

impl<I: Stream, E: ParseError<I>> Parser<I, I::Slice, E> for Eof {
    open spec fn wf(&self) -> bool {
        true
    }

    open spec fn parses(&self, before: I, after: I, r: PResult<I::Slice, E>) -> bool {
        eof_parses(before, after, r)
    }

    fn parse_next(&mut self, input: &mut I) -> (r: PResult<I::Slice, E>) {
        eof(input)
    }
}

/// Applies a function to the output. Built by [`Parser::map`].
pub struct Mapped<F, G, I, O, O2, E> {
    pub parser: F,
    pub map: G,
    pub i: PhantomData<I>,
    pub o: PhantomData<O>,
    pub o2: PhantomData<O2>,
    pub e: PhantomData<E>,
}

impl<F, G, I, O, O2, E> Mapped<F, G, I, O, O2, E> {
    /// The adapter around the given parts.
    pub open spec fn of(parser: F, map: G) -> Self {
        Mapped { parser, map, i: PhantomData, o: PhantomData, o2: PhantomData, e: PhantomData }
    }
}

impl<F, G, I, O, O2, E> Parser<I, O2, E> for Mapped<F, G, I, O, O2, E> where
    F: Parser<I, O, E>,
    G: Fn(O) -> O2,
 {
    open spec fn wf(&self) -> bool {
        &&& self.parser.wf()
        &&& forall|o: O| call_requires(self.map, (o,))
    }

    /// A success of the inner parser with `o` becomes one with what the
    /// function gives for `o`.
    open spec fn parses(&self, before: I, after: I, r: PResult<O2, E>) -> bool {
        match r {
            Ok(o2) => exists|o: O| #[trigger]
                stops_with(after, o) && self.parser.parses(before, after, Ok(o)) && call_ensures(
                    self.map,
                    (o,),
                    o2,
                ),
            Err(e) => self.parser.parses(before, after, Err(e)),
        }
    }

    fn parse_next(&mut self, input: &mut I) -> (r: PResult<O2, E>) {
        match self.parser.parse_next(input) {
            Ok(o) => {
                proof {
                    assert(stops_with(*input, o));
                }
                Ok((self.map)(o))
            },
            Err(e) => Err(e),
        }
    }
}

/// Yields a fixed value in place of the output. Built by [`Parser::value`].
pub struct Value<F, I, O, O2, E> {
    pub parser: F,
    pub val: O2,
    pub i: PhantomData<I>,
    pub o: PhantomData<O>,
    pub e: PhantomData<E>,
}

impl<F, I, O, O2, E> Value<F, I, O, O2, E> {
    /// The adapter around the given parts.
    pub open spec fn of(parser: F, val: O2) -> Self {
        Value { parser, val, i: PhantomData, o: PhantomData, e: PhantomData }
    }
}

impl<F, I, O, O2, E> Parser<I, O2, E> for Value<F, I, O, O2, E> where
    F: Parser<I, O, E>,
    O2: Clone,
 {
    open spec fn wf(&self) -> bool {
        self.parser.wf()
    }

    /// A success of the inner parser becomes one with a clone of the value.
    open spec fn parses(&self, before: I, after: I, r: PResult<O2, E>) -> bool {
        match r {
            Ok(v) => succeeds(self.parser, before, after) && cloned(self.val, v),
            Err(e) => self.parser.parses(before, after, Err(e)),
        }
    }

    fn parse_next(&mut self, input: &mut I) -> (r: PResult<O2, E>) {
        match self.parser.parse_next(input) {
            Ok(o) => {
                proof {
                    assert(stops_with(*input, o));
                }
                Ok(self.val.clone())
            },
            Err(e) => Err(e),
        }
    }
}

/// Drops the output. Built by [`Parser::void`].
pub struct Void<F, I, O, E> {
    pub parser: F,
    pub i: PhantomData<I>,
    pub o: PhantomData<O>,
    pub e: PhantomData<E>,
}

impl<F, I, O, E> Void<F, I, O, E> {
    /// The adapter around the given parts.
    pub open spec fn of(parser: F) -> Self {
        Void { parser, i: PhantomData, o: PhantomData, e: PhantomData }
    }
}

impl<F, I, O, E> Parser<I, (), E> for Void<F, I, O, E> where F: Parser<I, O, E> {
    open spec fn wf(&self) -> bool {
        self.parser.wf()
    }

    /// A success of the inner parser becomes one with unit.
    open spec fn parses(&self, before: I, after: I, r: PResult<(), E>) -> bool {
        match r {
            Ok(v) => succeeds(self.parser, before, after),
            Err(e) => self.parser.parses(before, after, Err(e)),
        }
    }

    fn parse_next(&mut self, input: &mut I) -> (r: PResult<(), E>) {
        match self.parser.parse_next(input) {
            Ok(o) => {
                proof {
                    assert(stops_with(*input, o));
                }
                Ok(())
            },
            Err(e) => Err(e),
        }
    }
}

/// Converts the output with [`Into`]. Built by [`Parser::output_into`].
pub struct OutputInto<F, I, O, O2, E> {
    pub parser: F,
    pub i: PhantomData<I>,
    pub o: PhantomData<O>,
    pub o2: PhantomData<O2>,
    pub e: PhantomData<E>,
}

impl<F, I, O, O2, E> OutputInto<F, I, O, O2, E> {
    /// The adapter around the given parts.
    pub open spec fn of(parser: F) -> Self {
        OutputInto { parser, i: PhantomData, o: PhantomData, o2: PhantomData, e: PhantomData }
    }
}

impl<F, I, O, O2, E> Parser<I, O2, E> for OutputInto<F, I, O, O2, E> where
    F: Parser<I, O, E>,
    O: Into<O2>,
 {
    open spec fn wf(&self) -> bool {
        self.parser.wf()
    }

    /// A success of the inner parser with `o` becomes one with what the
    /// conversion gives for `o`.
    open spec fn parses(&self, before: I, after: I, r: PResult<O2, E>) -> bool {
        match r {
            Ok(o2) => exists|o: O| #[trigger]
                stops_with(after, o) && self.parser.parses(before, after, Ok(o)) && call_ensures(
                    O::into,
                    (o,),
                    o2,
                ),
            Err(e) => self.parser.parses(before, after, Err(e)),
        }
    }

    fn parse_next(&mut self, input: &mut I) -> (r: PResult<O2, E>) {
        match self.parser.parse_next(input) {
            Ok(o) => {
                proof {
                    assert(stops_with(*input, o));
                }
                Ok(o.into())
            },
            Err(e) => Err(e),
        }
    }
}

/// Started at `before`, `p` may succeed and stop at `after`, which lies `n`
/// tokens further on.
pub open spec fn consumes<I: Stream, O, E, P: Parser<I, O, E>>(
    p: P,
    before: I,
    after: I,
    n: nat,
) -> bool {
    succeeds(p, before, after) && before.steps_to(n, after)
}

/// Yields the consumed input in place of the output. Built by
/// [`Parser::recognize`].
pub struct Recognize<F, I, O, E> {
    pub parser: F,
    pub i: PhantomData<I>,
    pub o: PhantomData<O>,
    pub e: PhantomData<E>,
}

impl<F, I, O, E> Recognize<F, I, O, E> {
    /// The adapter around the given parts.
    pub open spec fn of(parser: F) -> Self {
        Recognize { parser, i: PhantomData, o: PhantomData, e: PhantomData }
    }
}

impl<F, I, O, E> Parser<I, I::Slice, E> for Recognize<F, I, O, E> where
    F: Parser<I, O, E>,
    I: Stream,
 {
    open spec fn wf(&self) -> bool {
        self.parser.wf()
    }

    /// A success of the inner parser becomes one with the slice of the tokens
    /// that the inner parser consumed: as many of the first tokens as fewer
    /// are left after it.
    open spec fn parses(&self, before: I, after: I, r: PResult<I::Slice, E>) -> bool {
        match r {
            Ok(s) => succeeds(self.parser, before, after) && holds_tokens_between(
                before,
                after,
                s,
            ),
            Err(e) => self.parser.parses(before, after, Err(e)),
        }
    }

    fn parse_next(&mut self, input: &mut I) -> (r: PResult<I::Slice, E>) {
        let mut start = input.checkpoint();
        match self.parser.parse_next(input) {
            Ok(o) => {
                proof {
                    assert(stops_with(*input, o));
                }
                match input.tokens_since(&start) {
                    Some(n) => Ok(start.next_slice(n)),
                    None => Ok(start.next_slice(0)),
                }
            },
            Err(e) => Err(e),
        }
    }
}

/// Yields the output together with the consumed input. Built by
/// [`Parser::with_recognized`].
pub struct WithRecognized<F, I, O, E> {
    pub parser: F,
    pub i: PhantomData<I>,
    pub o: PhantomData<O>,
    pub e: PhantomData<E>,
}

impl<F, I, O, E> WithRecognized<F, I, O, E> {
    /// The adapter around the given parts.
    pub open spec fn of(parser: F) -> Self {
        WithRecognized { parser, i: PhantomData, o: PhantomData, e: PhantomData }
    }
}

impl<F, I, O, E> Parser<I, (O, I::Slice), E> for WithRecognized<F, I, O, E> where
    F: Parser<I, O, E>,
    I: Stream,
 {
    open spec fn wf(&self) -> bool {
        self.parser.wf()
    }

    /// A success of the inner parser with `o` becomes one with `o` and the
    /// slice of the tokens that the inner parser consumed.
    open spec fn parses(&self, before: I, after: I, r: PResult<(O, I::Slice), E>) -> bool {
        match r {
            Ok(os) => self.parser.parses(before, after, Ok(os.0)) && holds_tokens_between(
                before,
                after,
                os.1,
            ),
            Err(e) => self.parser.parses(before, after, Err(e)),
        }
    }

    fn parse_next(&mut self, input: &mut I) -> (r: PResult<(O, I::Slice), E>) {
        let mut start = input.checkpoint();
        match self.parser.parse_next(input) {
            Ok(o) => {
                match input.tokens_since(&start) {
                    Some(n) => Ok((o, start.next_slice(n))),
                    None => Ok((o, start.next_slice(0))),
                }
            },
            Err(e) => Err(e),
        }
    }
}

/// Yields the positions between which the input was consumed. Built by
/// [`Parser::span`].
pub struct Span<F, I, O, E> {
    pub parser: F,
    pub i: PhantomData<I>,
    pub o: PhantomData<O>,
    pub e: PhantomData<E>,
}

impl<F, I, O, E> Span<F, I, O, E> {
    /// The adapter around the given parts.
    pub open spec fn of(parser: F) -> Self {
        Span { parser, i: PhantomData, o: PhantomData, e: PhantomData }
    }
}

impl<F, I, O, E> Parser<I, Range<usize>, E> for Span<F, I, O, E> where
    F: Parser<I, O, E>,
    I: Stream + Location,
 {
    open spec fn wf(&self) -> bool {
        self.parser.wf()
    }

    /// A success of the inner parser becomes one with the range from the
    /// position before it to the position after it.
    open spec fn parses(&self, before: I, after: I, r: PResult<Range<usize>, E>) -> bool {
        match r {
            Ok(range) => succeeds(self.parser, before, after) && range.start == before.position()
                && range.end == after.position(),
            Err(e) => self.parser.parses(before, after, Err(e)),
        }
    }

    fn parse_next(&mut self, input: &mut I) -> (r: PResult<Range<usize>, E>) {
        let start = input.location();
        match self.parser.parse_next(input) {
            Ok(o) => {
                proof {
                    assert(stops_with(*input, o));
                }
                let end = input.location();
                Ok(start..end)
            },
            Err(e) => Err(e),
        }
    }
}

/// Yields the output together with the positions between which the input was
/// consumed. Built by [`Parser::with_span`].
pub struct WithSpan<F, I, O, E> {
    pub parser: F,
    pub i: PhantomData<I>,
    pub o: PhantomData<O>,
    pub e: PhantomData<E>,
}

impl<F, I, O, E> WithSpan<F, I, O, E> {
    /// The adapter around the given parts.
    pub open spec fn of(parser: F) -> Self {
        WithSpan { parser, i: PhantomData, o: PhantomData, e: PhantomData }
    }
}

impl<F, I, O, E> Parser<I, (O, Range<usize>), E> for WithSpan<F, I, O, E> where
    F: Parser<I, O, E>,
    I: Stream + Location,
 {
    open spec fn wf(&self) -> bool {
        self.parser.wf()
    }

    /// A success of the inner parser with `o` becomes one with `o` and the
    /// range from the position before it to the position after it.
    open spec fn parses(&self, before: I, after: I, r: PResult<(O, Range<usize>), E>) -> bool {
        match r {
            Ok(os) => self.parser.parses(before, after, Ok(os.0)) && os.1.start
                == before.position() && os.1.end == after.position(),
            Err(e) => self.parser.parses(before, after, Err(e)),
        }
    }

    fn parse_next(&mut self, input: &mut I) -> (r: PResult<(O, Range<usize>), E>) {
        let start = input.location();
        match self.parser.parse_next(input) {
            Ok(o) => {
                let end = input.location();
                Ok((o, start..end))
            },
            Err(e) => Err(e),
        }
    }
}

/// Applies a fallible function to the output. Built by [`Parser::try_map`].
pub struct TryMap<F, G, I, O, O2, E, E2> {
    pub parser: F,
    pub map: G,
    pub i: PhantomData<I>,
    pub o: PhantomData<O>,
    pub o2: PhantomData<O2>,
    pub e: PhantomData<E>,
    pub e2: PhantomData<E2>,
}

impl<F, G, I, O, O2, E, E2> TryMap<F, G, I, O, O2, E, E2> {
    /// The adapter around the given parts.
    pub open spec fn of(parser: F, map: G) -> Self {
        TryMap {
            parser,
            map,
            i: PhantomData,
            o: PhantomData,
            o2: PhantomData,
            e: PhantomData,
            e2: PhantomData,
        }
    }
}

impl<F, G, I, O, O2, E, E2> Parser<I, O2, E> for TryMap<F, G, I, O, O2, E, E2> where
    F: Parser<I, O, E>,
    G: FnMut(O) -> Result<O2, E2>,
    I: Stream,
    E: FromExternalError<I, E2>,
 {
    open spec fn wf(&self) -> bool {
        &&& self.parser.wf()
        &&& forall|o: O| call_requires(self.map, (o,))
    }

    /// A success of the inner parser with `o` becomes what the function makes
    /// of `o`: a success with its value, or, where it refuses `o` with an
    /// error, a recoverable failure of kind [`ErrorKind::Verify`] that
    /// carries this error, with the cursor back at `before`.
    open spec fn parses(&self, before: I, after: I, r: PResult<O2, E>) -> bool {
        match r {
            Ok(o2) => exists|o: O| #[trigger]
                stops_with(after, o) && self.parser.parses(before, after, Ok(o)) && call_ensures(
                    self.map,
                    (o,),
                    Ok(o2),
                ),
            Err(err) => {
                ||| self.parser.parses(before, after, Err(err))
                ||| after == before && exists|stop: I, o: O, e2: E2| #[trigger]
                    stops_with(stop, (o, e2)) && self.parser.parses(before, stop, Ok(o))
                        && call_ensures(self.map, (o,), Err(e2)) && refused_because(
                        err,
                        before,
                        e2,
                    )
            },
        }
    }

    fn parse_next(&mut self, input: &mut I) -> (r: PResult<O2, E>) {
        let start = input.checkpoint();
        match self.parser.parse_next(input) {
            Ok(o) => {
                let ghost stop = *input;
                proof {
                    assert(stops_with(stop, o));
                }
                match (self.map)(o) {
                    Ok(o2) => Ok(o2),
                    Err(e2) => {
                        proof {
                            assert(stops_with(stop, (o, e2)));
                        }
                        input.reset(start);
                        Err(
                            ErrMode::Backtrack(
                                E::from_external_error(&*input, ErrorKind::Verify, e2),
                            ),
                        )
                    },
                }
            },
            Err(e) => Err(e),
        }
    }
}

/// `err` is a recoverable failure of kind [`ErrorKind::Verify`] at `at` that
/// carries the outside error `e2`.
pub open spec fn refused_because<I, E: FromExternalError<I, E2>, E2>(
    err: ErrMode<E>,
    at: I,
    e2: E2,
) -> bool {
    err matches ErrMode::Backtrack(e) && e.made_from_external(at, ErrorKind::Verify, e2)
}

/// `err` is a recoverable failure of kind [`ErrorKind::Verify`] at `at`.
pub open spec fn refused<I, E: ParseError<I>>(err: ErrMode<E>, at: I) -> bool {
    err matches ErrMode::Backtrack(e) && e.made_from_kind(at, ErrorKind::Verify)
}

/// Applies a function that may refuse the output. Built by
/// [`Parser::verify_map`].
pub struct VerifyMap<F, G, I, O, O2, E> {
    pub parser: F,
    pub map: G,
    pub i: PhantomData<I>,
    pub o: PhantomData<O>,
    pub o2: PhantomData<O2>,
    pub e: PhantomData<E>,
}

impl<F, G, I, O, O2, E> VerifyMap<F, G, I, O, O2, E> {
    /// The adapter around the given parts.
    pub open spec fn of(parser: F, map: G) -> Self {
        VerifyMap { parser, map, i: PhantomData, o: PhantomData, o2: PhantomData, e: PhantomData }
    }
}

impl<F, G, I, O, O2, E> Parser<I, O2, E> for VerifyMap<F, G, I, O, O2, E> where
    F: Parser<I, O, E>,
    G: FnMut(O) -> Option<O2>,
    I: Stream,
    E: ParseError<I>,
 {
    open spec fn wf(&self) -> bool {
        &&& self.parser.wf()
        &&& forall|o: O| call_requires(self.map, (o,))
    }

    /// A success of the inner parser with `o` becomes what the function makes
    /// of `o`: a success with its value, or, where it gives none, a
    /// recoverable failure of kind [`ErrorKind::Verify`], with the cursor
    /// back at `before`.
    open spec fn parses(&self, before: I, after: I, r: PResult<O2, E>) -> bool {
        match r {
            Ok(o2) => exists|o: O| #[trigger]
                stops_with(after, o) && self.parser.parses(before, after, Ok(o)) && call_ensures(
                    self.map,
                    (o,),
                    Some(o2),
                ),
            Err(err) => {
                ||| self.parser.parses(before, after, Err(err))
                ||| after == before && refused(err, before) && exists|stop: I, o: O| #[trigger]
                    stops_with(stop, o) && self.parser.parses(before, stop, Ok(o))
                        && call_ensures(self.map, (o,), None::<O2>)
            },
        }
    }

    fn parse_next(&mut self, input: &mut I) -> (r: PResult<O2, E>) {
        let start = input.checkpoint();
        match self.parser.parse_next(input) {
            Ok(o) => {
                proof {
                    assert(stops_with(*input, o));
                }
                match (self.map)(o) {
                    Some(o2) => Ok(o2),
                    None => {
                        input.reset(start);
                        Err(ErrMode::Backtrack(E::from_error_kind(&*input, ErrorKind::Verify)))
                    },
                }
            },
            Err(e) => Err(e),
        }
    }
}

/// Accepts the output only if a predicate holds of it. Built by
/// [`Parser::verify`].
pub struct Verify<F, G, I, O, E> {
    pub parser: F,
    pub filter: G,
    pub i: PhantomData<I>,
    pub o: PhantomData<O>,
    pub e: PhantomData<E>,
}

impl<F, G, I, O, E> Verify<F, G, I, O, E> {
    /// The adapter around the given parts.
    pub open spec fn of(parser: F, filter: G) -> Self {
        Verify { parser, filter, i: PhantomData, o: PhantomData, e: PhantomData }
    }
}

impl<F, G, I, O, E> Parser<I, O, E> for Verify<F, G, I, O, E> where
    F: Parser<I, O, E>,
    G: Fn(&O) -> bool,
    I: Stream,
    E: ParseError<I>,
 {
    open spec fn wf(&self) -> bool {
        &&& self.parser.wf()
        &&& forall|o: &O| call_requires(self.filter, (o,))
    }

    /// A success of the inner parser with `o` stays one where the predicate
    /// accepts `o`. Where it does not, it becomes a recoverable failure of
    /// kind [`ErrorKind::Verify`], with the cursor back at `before`.
    open spec fn parses(&self, before: I, after: I, r: PResult<O, E>) -> bool {
        match r {
            Ok(o) => self.parser.parses(before, after, Ok(o)) && call_ensures(
                self.filter,
                (&o,),
                true,
            ),
            Err(err) => {
                ||| self.parser.parses(before, after, Err(err))
                ||| after == before && refused(err, before) && exists|stop: I, o: O| #[trigger]
                    stops_with(stop, o) && self.parser.parses(before, stop, Ok(o))
                        && call_ensures(self.filter, (&o,), false)
            },
        }
    }

    fn parse_next(&mut self, input: &mut I) -> (r: PResult<O, E>) {
        let start = input.checkpoint();
        match self.parser.parse_next(input) {
            Ok(o) => {
                proof {
                    assert(stops_with(*input, o));
                }
                if (self.filter)(&o) {
                    Ok(o)
                } else {
                    input.reset(start);
                    Err(ErrMode::Backtrack(E::from_error_kind(&*input, ErrorKind::Verify)))
                }
            },
            Err(e) => Err(e),
        }
    }
}

/// Builds a second parser from the output and runs it. Built by
/// [`Parser::flat_map`].
pub struct FlatMap<F, G, H, I, O, O2, E> {
    pub f: F,
    pub g: G,
    pub h: PhantomData<H>,
    pub i: PhantomData<I>,
    pub o: PhantomData<O>,
    pub o2: PhantomData<O2>,
    pub e: PhantomData<E>,
}

impl<F, G, H, I, O, O2, E> FlatMap<F, G, H, I, O, O2, E> {
    /// The adapter around the given parts.
    pub open spec fn of(f: F, g: G) -> Self {
        FlatMap {
            f,
            g,
            h: PhantomData,
            i: PhantomData,
            o: PhantomData,
            o2: PhantomData,
            e: PhantomData,
        }
    }
}

impl<F, G, H, I, O, O2, E> Parser<I, O2, E> for FlatMap<F, G, H, I, O, O2, E> where
    F: Parser<I, O, E>,
    G: FnMut(O) -> H,
    H: Parser<I, O2, E>,
 {
    /// The function must accept every output and only build parsers that may
    /// be called.
    open spec fn wf(&self) -> bool {
        &&& self.f.wf()
        &&& forall|o: O| call_requires(self.g, (o,))
        &&& forall|o: O, h: H| call_ensures(self.g, (o,), h) ==> h.wf()
    }

    /// A failure of the first parser is the outcome. After a success of the
    /// first parser with `o`, the outcome is that of the parser that the
    /// function builds from `o`, started where the first one stopped.
    open spec fn parses(&self, before: I, after: I, r: PResult<O2, E>) -> bool {
        ||| r matches Err(e) && self.f.parses(before, after, Err(e))
        ||| exists|mid: I, o: O, h: H| #[trigger]
            stops_with(mid, (o, h)) && self.f.parses(before, mid, Ok(o)) && call_ensures(
                self.g,
                (o,),
                h,
            ) && h.parses(mid, after, r)
    }

    fn parse_next(&mut self, input: &mut I) -> (r: PResult<O2, E>) {
        match self.f.parse_next(input) {
            Ok(o) => {
                let ghost mid = *input;
                let mut h = (self.g)(o);
                let ghost h0 = h;
                let r = h.parse_next(input);
                proof {
                    assert(stops_with(mid, (o, h0)));
                }
                r
            },
            Err(e) => Err(e),
        }
    }
}

/// Runs a second parser over the output of the first. Built by
/// [`Parser::and_then`].
pub struct AndThen<F, G, I, O, O2, E> {
    pub outer: F,
    pub inner: G,
    pub i: PhantomData<I>,
    pub o: PhantomData<O>,
    pub o2: PhantomData<O2>,
    pub e: PhantomData<E>,
}

impl<F, G, I, O, O2, E> AndThen<F, G, I, O, O2, E> {
    /// The adapter around the given parts.
    pub open spec fn of(outer: F, inner: G) -> Self {
        AndThen { outer, inner, i: PhantomData, o: PhantomData, o2: PhantomData, e: PhantomData }
    }
}

impl<F, G, I, O, O2, E> Parser<I, O2, E> for AndThen<F, G, I, O, O2, E> where
    F: Parser<I, O, E>,
    G: Parser<O, O2, E>,
    O: StreamIsPartial,
    I: Stream,
 {
    open spec fn wf(&self) -> bool {
        self.outer.wf() && self.inner.wf()
    }

    /// A failure of the outer parser is the outcome. After a success of the
    /// outer parser with `o`, the outcome is that of the inner parser run on
    /// `o` marked as complete; where the inner parser fails, the cursor goes
    /// back to `before`.
    open spec fn parses(&self, before: I, after: I, r: PResult<O2, E>) -> bool {
        match r {
            Ok(o2) => exists|o: O, rest: O| #[trigger]
                stops_with(o, rest) && self.outer.parses(before, after, Ok(o))
                    && self.inner.parses(o.completed(), rest, Ok(o2)),
            Err(err) => {
                ||| self.outer.parses(before, after, Err(err))
                ||| after == before && exists|stop: I, o: O, rest: O| #[trigger]
                    stops_with(stop, (o, rest)) && self.outer.parses(before, stop, Ok(o))
                        && self.inner.parses(o.completed(), rest, Err(err))
            },
        }
    }

    fn parse_next(&mut self, input: &mut I) -> (r: PResult<O2, E>) {
        let start = input.checkpoint();
        match self.outer.parse_next(input) {
            Ok(o) => {
                let ghost stop = *input;
                let mut o = o;
                let ghost o0 = o;
                o.complete();
                match self.inner.parse_next(&mut o) {
                    Ok(o2) => {
                        proof {
                            assert(stops_with(o0, o));
                        }
                        Ok(o2)
                    },
                    Err(err) => {
                        proof {
                            assert(stops_with(stop, (o0, o)));
                        }
                        input.reset(start);
                        Err(err)
                    },
                }
            },
            Err(e) => Err(e),
        }
    }
}

/// Adds a label to the error of a failure. Built by [`Parser::context`].
pub struct Context<F, I, O, E, C> {
    pub parser: F,
    pub context: C,
    pub i: PhantomData<I>,
    pub o: PhantomData<O>,
    pub e: PhantomData<E>,
}

impl<F, I, O, E, C> Context<F, I, O, E, C> {
    /// The adapter around the given parts.
    pub open spec fn of(parser: F, context: C) -> Self {
        Context { parser, context, i: PhantomData, o: PhantomData, e: PhantomData }
    }
}

/// `err` is `prev` with a clone of the label `context`, noticed at `at`,
/// recorded in its error value. A request for more input has no error value
/// and stays as it is.
pub open spec fn labelled<I, E: AddContext<I, C>, C: Clone>(
    err: ErrMode<E>,
    prev: ErrMode<E>,
    at: I,
    context: C,
) -> bool {
    match prev {
        ErrMode::Incomplete(n) => err == prev,
        ErrMode::Backtrack(p) => err matches ErrMode::Backtrack(e) && exists|c: C| #[trigger]
            cloned(context, c) && e.with_context(p, at, c),
        ErrMode::Cut(p) => err matches ErrMode::Cut(e) && exists|c: C| #[trigger]
            cloned(context, c) && e.with_context(p, at, c),
    }
}

impl<F, I, O, E, C> Parser<I, O, E> for Context<F, I, O, E, C> where
    F: Parser<I, O, E>,
    I: Stream,
    E: AddContext<I, C>,
    C: Clone,
 {
    open spec fn wf(&self) -> bool {
        self.parser.wf()
    }

    /// A failure of the inner parser gets the label, with the position
    /// `before`, added to its error.
    open spec fn parses(&self, before: I, after: I, r: PResult<O, E>) -> bool {
        match r {
            Ok(o) => self.parser.parses(before, after, Ok(o)),
            Err(err) => exists|prev: ErrMode<E>| #[trigger]
                stops_with(after, prev) && self.parser.parses(before, after, Err(prev))
                    && labelled(err, prev, before, self.context),
        }
    }

    fn parse_next(&mut self, input: &mut I) -> (r: PResult<O, E>) {
        let start = input.checkpoint();
        match self.parser.parse_next(input) {
            Ok(o) => Ok(o),
            Err(prev) => {
                proof {
                    assert(stops_with(*input, prev));
                }
                match prev {
                    ErrMode::Incomplete(n) => Err(ErrMode::Incomplete(n)),
                    ErrMode::Backtrack(p) => {
                        let c = self.context.clone();
                        assert(cloned(self.context, c));
                        Err(ErrMode::Backtrack(p.add_context(&start, c)))
                    },
                    ErrMode::Cut(p) => {
                        let c = self.context.clone();
                        assert(cloned(self.context, c));
                        Err(ErrMode::Cut(p.add_context(&start, c)))
                    },
                }
            },
        }
    }
}

/// Turns a request for more input into a failure. Built by
/// [`Parser::complete_err`].
pub struct CompleteErr<F> {
    pub f: F,
}

impl<F> CompleteErr<F> {
    /// The adapter around the given parts.
    pub open spec fn of(f: F) -> Self {
        CompleteErr { f }
    }
}

/// Started at `before`, `p` may ask for more input.
pub open spec fn asks_more<I, O, E, P: Parser<I, O, E>>(p: P, before: I) -> bool {
    exists|stop: I, n: crate::error::Needed| #[trigger]
        stops_with(stop, n) && p.parses(before, stop, Err(ErrMode::Incomplete(n)))
}

impl<F, I, O, E> Parser<I, O, E> for CompleteErr<F> where
    F: Parser<I, O, E>,
    I: Stream,
    E: ParseError<I>,
 {
    open spec fn wf(&self) -> bool {
        self.f.wf()
    }

    /// Where the inner parser asks for more input, the outcome is a
    /// recoverable failure of kind [`ErrorKind::Complete`], with the cursor
    /// back at `before`. There is no request for more input.
    open spec fn parses(&self, before: I, after: I, r: PResult<O, E>) -> bool {
        match r {
            Err(ErrMode::Incomplete(_)) => false,
            Err(ErrMode::Backtrack(e)) => {
                ||| self.f.parses(before, after, r)
                ||| after == before && asks_more(self.f, before) && e.made_from_kind(
                    before,
                    ErrorKind::Complete,
                )
            },
            _ => self.f.parses(before, after, r),
        }
    }

    fn parse_next(&mut self, input: &mut I) -> (r: PResult<O, E>) {
        let start = input.checkpoint();
        match self.f.parse_next(input) {
            Err(ErrMode::Incomplete(n)) => {
                proof {
                    assert(stops_with(*input, n));
                }
                input.reset(start);
                Err(ErrMode::Backtrack(E::from_error_kind(&*input, ErrorKind::Complete)))
            },
            rest => rest,
        }
    }
}

/// Converts the error with [`Into`]. Built by [`Parser::err_into`].
pub struct ErrInto<F, I, O, E, E2> {
    pub parser: F,
    pub i: PhantomData<I>,
    pub o: PhantomData<O>,
    pub e: PhantomData<E>,
    pub e2: PhantomData<E2>,
}

impl<F, I, O, E, E2> ErrInto<F, I, O, E, E2> {
    /// The adapter around the given parts.
    pub open spec fn of(parser: F) -> Self {
        ErrInto { parser, i: PhantomData, o: PhantomData, e: PhantomData, e2: PhantomData }
    }
}

/// `err` is `prev` with its error value converted. A request for more input
/// has no error value and stays as it is.
pub open spec fn converted<E: Into<E2>, E2>(err: ErrMode<E2>, prev: ErrMode<E>) -> bool {
    match prev {
        ErrMode::Incomplete(n) => err == ErrMode::<E2>::Incomplete(n),
        ErrMode::Backtrack(p) => err matches ErrMode::Backtrack(e) && call_ensures(
            E::into,
            (p,),
            e,
        ),
        ErrMode::Cut(p) => err matches ErrMode::Cut(e) && call_ensures(E::into, (p,), e),
    }
}

impl<F, I, O, E, E2> Parser<I, O, E2> for ErrInto<F, I, O, E, E2> where
    F: Parser<I, O, E>,
    E: Into<E2>,
 {
    open spec fn wf(&self) -> bool {
        self.parser.wf()
    }

    /// A failure of the inner parser has its error converted.
    open spec fn parses(&self, before: I, after: I, r: PResult<O, E2>) -> bool {
        match r {
            Ok(o) => self.parser.parses(before, after, Ok(o)),
            Err(err) => exists|prev: ErrMode<E>| #[trigger]
                stops_with(after, prev) && self.parser.parses(before, after, Err(prev))
                    && converted(err, prev),
        }
    }

    fn parse_next(&mut self, input: &mut I) -> (r: PResult<O, E2>) {
        match self.parser.parse_next(input) {
            Ok(o) => Ok(o),
            Err(prev) => {
                proof {
                    assert(stops_with(*input, prev));
                }
                match prev {
                    ErrMode::Incomplete(n) => Err(ErrMode::Incomplete(n)),
                    ErrMode::Backtrack(p) => Err(ErrMode::Backtrack(p.into())),
                    ErrMode::Cut(p) => Err(ErrMode::Cut(p.into())),
                }
            },
        }
    }
}

/// A slice that can be read as a value of type `R`.
pub trait ParseSlice<R>: Sized {
    /// `r` is what reading this slice as an `R` may give.
    spec fn read_as(&self, r: Option<R>) -> bool;

    /// Reads the slice as a value of type `R`; `None` where it is none.
    fn parse_slice(&self) -> (r: Option<R>)
        ensures
            self.read_as(r),
    ;
}

/// The `u8` that the text `s` spells in decimal; none where it spells no
/// number or one that does not fit.
pub open spec fn text_as_u8(s: Seq<char>) -> Option<u8> {
    match unsigned_value(s) {
        Some(v) => if u8::MIN <= v <= u8::MAX {
            Some(v as u8)
        } else {
            None
        },
        None => None,
    }
}

/// Calls [`str::parse`] for `u8` and drops the error. The text must be
/// decimal digits, with a `+` before them if one likes, and the number must fit.
#[verifier::external_body]
fn parse_u8(s: &str) -> (r: Option<u8>)
    ensures
        r == text_as_u8(s@),
{
    s.parse::<u8>().ok()
}

impl<'a> ParseSlice<u8> for &'a str {
    open spec fn read_as(&self, r: Option<u8>) -> bool {
        r == text_as_u8(self@)
    }

    fn parse_slice(&self) -> (r: Option<u8>) {
        parse_u8(*self)
    }
}

/// The `u32` that the text `s` spells in decimal; none where it spells no
/// number or one that does not fit.
pub open spec fn text_as_u32(s: Seq<char>) -> Option<u32> {
    match unsigned_value(s) {
        Some(v) => if u32::MIN <= v <= u32::MAX {
            Some(v as u32)
        } else {
            None
        },
        None => None,
    }
}

/// Calls [`str::parse`] for `u32` and drops the error. The text must be
/// decimal digits, with a `+` before them if one likes, and the number must fit.
#[verifier::external_body]
fn parse_u32(s: &str) -> (r: Option<u32>)
    ensures
        r == text_as_u32(s@),
{
    s.parse::<u32>().ok()
}

impl<'a> ParseSlice<u32> for &'a str {
    open spec fn read_as(&self, r: Option<u32>) -> bool {
        r == text_as_u32(self@)
    }

    fn parse_slice(&self) -> (r: Option<u32>) {
        parse_u32(*self)
    }
}

/// The `u64` that the text `s` spells in decimal; none where it spells no
/// number or one that does not fit.
pub open spec fn text_as_u64(s: Seq<char>) -> Option<u64> {
    match unsigned_value(s) {
        Some(v) => if u64::MIN <= v <= u64::MAX {
            Some(v as u64)
        } else {
            None
        },
        None => None,
    }
}

/// Calls [`str::parse`] for `u64` and drops the error. The text must be
/// decimal digits, with a `+` before them if one likes, and the number must fit.
#[verifier::external_body]
fn parse_u64(s: &str) -> (r: Option<u64>)
    ensures
        r == text_as_u64(s@),
{
    s.parse::<u64>().ok()
}

impl<'a> ParseSlice<u64> for &'a str {
    open spec fn read_as(&self, r: Option<u64>) -> bool {
        r == text_as_u64(self@)
    }

    fn parse_slice(&self) -> (r: Option<u64>) {
        parse_u64(*self)
    }
}

/// The `i64` that the text `s` spells in decimal; none where it spells no
/// number or one that does not fit.
pub open spec fn text_as_i64(s: Seq<char>) -> Option<i64> {
    match signed_value(s) {
        Some(v) => if i64::MIN <= v <= i64::MAX {
            Some(v as i64)
        } else {
            None
        },
        None => None,
    }
}

/// Calls [`str::parse`] for `i64` and drops the error. The text must be
/// decimal digits, with a `+` or a `-` before them if one likes, and the number must fit.
#[verifier::external_body]
fn parse_i64(s: &str) -> (r: Option<i64>)
    ensures
        r == text_as_i64(s@),
{
    s.parse::<i64>().ok()
}

impl<'a> ParseSlice<i64> for &'a str {
    open spec fn read_as(&self, r: Option<i64>) -> bool {
        r == text_as_i64(self@)
    }

    fn parse_slice(&self) -> (r: Option<i64>) {
        parse_i64(*self)
    }
}

/// Reads the output as a value of another type. Built by
/// [`Parser::parse_to`].
pub struct ParseTo<P, I, O, O2, E> {
    pub p: P,
    pub i: PhantomData<I>,
    pub o: PhantomData<O>,
    pub o2: PhantomData<O2>,
    pub e: PhantomData<E>,
}

impl<P, I, O, O2, E> ParseTo<P, I, O, O2, E> {
    /// The adapter around the given parts.
    pub open spec fn of(p: P) -> Self {
        ParseTo { p, i: PhantomData, o: PhantomData, o2: PhantomData, e: PhantomData }
    }
}

impl<P, I, O, O2, E> Parser<I, O2, E> for ParseTo<P, I, O, O2, E> where
    P: Parser<I, O, E>,
    I: Stream,
    O: ParseSlice<O2>,
    E: ParseError<I>,
 {
    open spec fn wf(&self) -> bool {
        self.p.wf()
    }

    /// A success of the inner parser with `o` becomes a success with the
    /// value that `o` reads as, or, where it reads as none, a recoverable
    /// failure of kind [`ErrorKind::Verify`], with the cursor back at
    /// `before`.
    open spec fn parses(&self, before: I, after: I, r: PResult<O2, E>) -> bool {
        match r {
            Ok(o2) => exists|o: O| #[trigger]
                stops_with(after, o) && self.p.parses(before, after, Ok(o)) && o.read_as(
                    Some(o2),
                ),
            Err(err) => {
                ||| self.p.parses(before, after, Err(err))
                ||| after == before && refused(err, before) && exists|stop: I, o: O| #[trigger]
                    stops_with(stop, o) && self.p.parses(before, stop, Ok(o)) && o.read_as(
                        None::<O2>,
                    )
            },
        }
    }

    fn parse_next(&mut self, input: &mut I) -> (r: PResult<O2, E>) {
        let start = input.checkpoint();
        match self.p.parse_next(input) {
            Ok(o) => {
                proof {
                    assert(stops_with(*input, o));
                }
                match o.parse_slice() {
                    Some(o2) => Ok(o2),
                    None => {
                        input.reset(start);
                        Err(ErrMode::Backtrack(E::from_error_kind(&*input, ErrorKind::Verify)))
                    },
                }
            },
            Err(e) => Err(e),
        }
    }
}

} // verus!
