//! Facts about how the combinators relate to the parsers they are built from
//! and to each other, proved from their relations.
use vstd::prelude::*;
use core::marker::PhantomData;
use core::ops::Range;
use crate::branch::{backtracks, decided, Alternatives, Permuted, RoundSoFar};
use crate::combinator::{consumes, succeeds, Mapped, Recognize, Span, Value};
use crate::error::{
    ErrMode,
    ErrorKind,
    IResult,
    InputError,
    Needed,
    PResult,
    ParseError,
};
use crate::parser::{advancing, peek_gives, stops_at, stops_with, FromPeek, Parser};
use crate::permutation_lists::{
    perm2_end,
    perm2_from_0,
    perm2_from_1,
    perm3_end,
    perm3_from_0,
    perm3_from_1,
    perm3_from_2,
};
use crate::stream::{
    compare_tokens,
    reaches,
    starts_with_slice,
    Compare,
    CompareResult,
    Located,
    Location,
    Partial,
    Stream,
    StreamIsPartial,
};
use crate::token::{Tag, Take};

verus! {

/// The ordered choice between the parsers in `list`, as [`crate::branch::alt`]
/// builds it.
pub open spec fn alt_of<List>(list: List) -> Alternatives<List> {
    Alternatives { list }
}

/// The permutation of the parsers in `list`, as
/// [`crate::branch::permutation`] builds it.
pub open spec fn permutation_of<List>(list: List) -> Permuted<List> {
    Permuted { list }
}

/// The parser `p` with `g` applied to its output, as [`Parser::map`] builds
/// it.
pub open spec fn map_of<I, O, O2, E, P, G>(p: P, g: G) -> Mapped<P, G, I, O, O2, E> {
    Mapped { parser: p, map: g, i: PhantomData, o: PhantomData, o2: PhantomData, e: PhantomData }
}

/// The parser `p` yielding `v`, as [`Parser::value`] builds it.
pub open spec fn value_of<I, O, O2, E, P>(p: P, v: O2) -> Value<P, I, O, O2, E> {
    Value { parser: p, val: v, i: PhantomData, o: PhantomData, e: PhantomData }
}

/// The parser `p` yielding what it consumed, as [`Parser::recognize`] builds
/// it.
pub open spec fn recognize_of<I, O, E, P>(p: P) -> Recognize<P, I, O, E> {
    Recognize { parser: p, i: PhantomData, o: PhantomData, e: PhantomData }
}

/// The parser `p` yielding the positions it ran between, as [`Parser::span`]
/// builds it.
pub open spec fn span_of<I, O, E, P>(p: P) -> Span<P, I, O, E> {
    Span { parser: p, i: PhantomData, o: PhantomData, e: PhantomData }
}

/// Started at `before`, `p` can only succeed.
pub open spec fn always_succeeds<I, O, E, P: Parser<I, O, E>>(p: P, before: I) -> bool {
    forall|after: I, r: PResult<O, E>| #[trigger] p.parses(before, after, r) ==> r is Ok
}

/// Started at `before`, `p` can only fail recoverably.
pub open spec fn always_backtracks<I, O, E, P: Parser<I, O, E>>(p: P, before: I) -> bool {
    forall|after: I, r: PResult<O, E>| #[trigger]
        p.parses(before, after, r) ==> r matches Err(ErrMode::Backtrack(_))
}

/// Ordered choice is left-biased: where the first alternative can only
/// succeed, the choice does exactly what the first alternative does, whatever
/// the second alternative is.
pub proof fn lemma_alt_left_bias<
    I: Stream,
    O,
    E: ParseError<I>,
    A1: Parser<I, O, E>,
    A2: Parser<I, O, E>,
>(
    first: A1,
    second: A2,
    before: I,
)
    requires
        always_succeeds(first, before),
    ensures
        forall|after: I, r: PResult<O, E>|
            (#[trigger] Alternatives::of((first, second)).parses(before, after, r))
                <==> first.parses(before, after, r),
{
    let choice = Alternatives::of((first, second));
    assert forall|after: I, r: PResult<O, E>| #[trigger]
        choice.parses(before, after, r) implies first.parses(before, after, r) by {
        if backtracks(first, before) {
            let (stop, e): (I, E) = choose|stop: I, e: E| #[trigger]
                stops_with(stop, e) && first.parses(before, stop, Err(ErrMode::Backtrack(e)));
            assert(first.parses(before, stop, Err(ErrMode::Backtrack(e))));
        }
    }
}

/// What the first alternative yields, other than a recoverable failure, is
/// what the choice yields: a success, an unrecoverable failure or a request
/// for more input ends the choice, and the second alternative is not tried.
pub proof fn lemma_alt_first_decides<
    I: Stream,
    O,
    E: ParseError<I>,
    A1: Parser<I, O, E>,
    A2: Parser<I, O, E>,
>(
    first: A1,
    second: A2,
    before: I,
    after: I,
    r: PResult<O, E>,
)
    requires
        first.parses(before, after, r),
        decided(r),
    ensures
        Alternatives::of((first, second)).parses(before, after, r),
{
}

/// A request for more input from an alternative ends the choice with that
/// request, whatever the alternatives after it are: stated for the first and
/// the second of three.
pub proof fn lemma_alt_incomplete_ends_choice<
    I: Stream,
    O,
    E: ParseError<I>,
    A1: Parser<I, O, E>,
    A2: Parser<I, O, E>,
    A3: Parser<I, O, E>,
>(first: A1, second: A2, third: A3, before: I, after: I, n: Needed)
    ensures
        first.parses(before, after, Err(ErrMode::Incomplete(n))) ==> Alternatives::of(
            (first, second, third),
        ).parses(before, after, Err(ErrMode::Incomplete(n))),
        backtracks(first, before) && second.parses(before, after, Err(ErrMode::Incomplete(n)))
            ==> Alternatives::of((first, second, third)).parses(
            before,
            after,
            Err(ErrMode::Incomplete(n)),
        ),
{
}

/// An unrecoverable failure of an alternative is the outcome of the choice,
/// whatever the alternatives after it are: stated for the first and the
/// second of three.
pub proof fn lemma_alt_cut_ends_choice<
    I: Stream,
    O,
    E: ParseError<I>,
    A1: Parser<I, O, E>,
    A2: Parser<I, O, E>,
    A3: Parser<I, O, E>,
>(first: A1, second: A2, third: A3, before: I, after: I, e: E)
    ensures
        first.parses(before, after, Err(ErrMode::Cut(e))) ==> Alternatives::of(
            (first, second, third),
        ).parses(before, after, Err(ErrMode::Cut(e))),
        backtracks(first, before) && second.parses(before, after, Err(ErrMode::Cut(e)))
            ==> Alternatives::of((first, second, third)).parses(
            before,
            after,
            Err(ErrMode::Cut(e)),
        ),
{
}

/// A recoverable failure consumes nothing that the next alternative could
/// miss: where the first alternative can only fail recoverably, the choice
/// yields, apart from a recoverable failure, exactly what the second
/// alternative yields when started at the cursor where the choice started.
pub proof fn lemma_alt_sibling_starts_afresh<
    I: Stream,
    O,
    E: ParseError<I>,
    A1: Parser<I, O, E>,
    A2: Parser<I, O, E>,
>(
    first: A1,
    second: A2,
    before: I,
    after: I,
    r: PResult<O, E>,
)
    requires
        always_backtracks(first, before),
        decided(r),
    ensures
        Alternatives::of((first, second)).parses(before, after, r) <==> backtracks(first, before)
            && second.parses(before, after, r),
{
    if Alternatives::of((first, second)).parses(before, after, r) {
        if first.parses(before, after, r) {
            assert(r matches Err(ErrMode::Backtrack(_)));
        }
    }
}

/// Mapping with a function that yields a clone of `v` for every output is
/// the same parser as yielding the value `v`.
pub proof fn lemma_map_to_value<I, O, O2: Clone, E, P: Parser<I, O, E>, G: Fn(O) -> O2>(
    p: P,
    g: G,
    v: O2,
    before: I,
    after: I,
    r: PResult<O2, E>,
)
    requires
        forall|o: O, o2: O2| #[trigger] call_ensures(g, (o,), o2) <==> cloned(v, o2),
    ensures
        Mapped::<P, G, I, O, O2, E>::of(p, g).parses(before, after, r) <==> Value::<
            P,
            I,
            O,
            O2,
            E,
        >::of(p, v).parses(before, after, r),
{
    let m = Mapped::<P, G, I, O, O2, E>::of(p, g);
    let w = Value::<P, I, O, O2, E>::of(p, v);
    match r {
        Ok(o2) => {
            if m.parses(before, after, r) {
                let o = choose|o: O| #[trigger]
                    stops_with(after, o) && p.parses(before, after, Ok(o)) && call_ensures(
                        g,
                        (o,),
                        o2,
                    );
                assert(stops_with(after, o));
                assert(succeeds(p, before, after));
            }
            if w.parses(before, after, r) {
                let o = choose|o: O| #[trigger]
                    stops_with(after, o) && p.parses(before, after, Ok(o));
                assert(call_ensures(g, (o,), o2));
                assert(stops_with(after, o));
            }
        },
        Err(e) => {},
    }
}

/// The span of a run is as long as what the run recognized: where a parser,
/// on one run forward from `before` to `after`, spans `range` and recognizes
/// `s`, the length of `range` is the number of bytes that `s` takes.
pub proof fn lemma_span_is_recognized_length<I: Stream + Location, O, E, P: Parser<I, O, E>>(
    p: P,
    before: I,
    after: I,
    range: Range<usize>,
    s: I::Slice,
)
    requires
        reaches(before, after),
        Span::<P, I, O, E>::of(p).parses(before, after, Ok(range)),
        Recognize::<P, I, O, E>::of(p).parses(before, after, Ok(s)),
    ensures
        range.end - range.start == I::width(I::slice_tokens(s)),
{
    let n = choose|n: nat| before.steps_to(n, after);
    before.lemma_steps_tokens(n, after);
    before.lemma_position_steps(n, after);
}

/// `p` reads no further than it consumes: where it succeeds on some input by
/// consuming `n` tokens, it can only succeed, again by consuming `n` tokens,
/// on any input that holds just these `n` tokens.
pub open spec fn reads_what_it_consumes<I: Stream, O, E, P: Parser<I, O, E>>(p: P) -> bool {
    forall|x1: I, y1: I, n: nat, x2: I, y2: I, r2: PResult<O, E>|
        #![trigger consumes(p, x1, y1, n), p.parses(x2, y2, r2)]
        consumes(p, x1, y1, n) && x2.tokens() == x1.tokens().take(n as int) && p.parses(
            x2,
            y2,
            r2,
        ) ==> r2 is Ok && x2.steps_to(n, y2)
}

/// What a parser recognized can be parsed again: where the slices of a
/// stream are streams of their own tokens and `p` reads no further than it
/// consumes, `p` run on a slice that it recognized on a run forward can only
/// succeed, and consumes all of the slice.
pub proof fn lemma_recognized_parses_again<I: Stream<Slice = I>, O, E, P: Parser<I, O, E>>(
    p: P,
    before: I,
    after: I,
    s: I,
    stop: I,
    r: PResult<O, E>,
)
    requires
        I::slice_tokens(s) == s.tokens(),
        reads_what_it_consumes(p),
        reaches(before, after),
        Recognize::<P, I, O, E>::of(p).parses(before, after, Ok(s)),
        p.parses(s, stop, r),
    ensures
        (r is Ok),
        stop.tokens().len() == 0,
{
    let n = choose|n: nat| before.steps_to(n, after);
    before.lemma_steps_tokens(n, after);
    assert(consumes(p, before, after, n));
    assert(r is Ok && s.steps_to(n, stop));
    s.lemma_steps_tokens(n, stop);
}

/// A permutation yields its outputs in the order of the list, whatever the
/// order in the input: the two parsers matching in the order of the list.
pub proof fn lemma_permutation_in_order<
    I: Stream,
    O1,
    O2,
    E: ParseError<I>,
    A1: Parser<I, O1, E>,
    A2: Parser<I, O2, E>,
>(first: A1, second: A2, before: I, mid: I, after: I, o1: O1, o2: O2)
    requires
        first.parses(before, mid, Ok(o1)),
        second.parses(mid, after, Ok(o2)),
    ensures
        Permuted::of((first, second)).parses(before, after, Ok((o1, o2))),
{
    let ps = (first, second);
    let r = Ok::<(O1, O2), ErrMode<E>>((o1, o2));
    let fresh = RoundSoFar::<E>::fresh();
    assert(perm2_end(ps, (Some(o1), Some(o2)), after, fresh, after, r));
    assert(perm2_from_1(ps, (Some(o1), Some(o2)), after, fresh, after, r));
    assert(perm2_from_0(ps, (Some(o1), Some(o2)), after, fresh, after, r));
    assert(stops_with(after, o2));
    assert(perm2_from_1(ps, (Some(o1), None::<O2>), mid, fresh, after, r));
    assert(perm2_from_0(ps, (Some(o1), None::<O2>), mid, fresh, after, r));
    assert(stops_with(mid, o1));
    assert(perm2_from_0(ps, (None::<O1>, None::<O2>), before, fresh, after, r));
}

/// A permutation yields its outputs in the order of the list, whatever the
/// order in the input: the second parser matching first, where the first
/// does not match, and the first parser matching after it.
pub proof fn lemma_permutation_swapped<
    I: Stream,
    O1,
    O2,
    E: ParseError<I>,
    A1: Parser<I, O1, E>,
    A2: Parser<I, O2, E>,
>(first: A1, second: A2, before: I, stop: I, soft: ErrMode<E>, mid: I, after: I, o1: O1, o2: O2)
    requires
        first.parses(before, stop, Err(soft)),
        !(soft is Cut),
        second.parses(before, mid, Ok(o2)),
        first.parses(mid, after, Ok(o1)),
    ensures
        Permuted::of((first, second)).parses(before, after, Ok((o1, o2))),
{
    let ps = (first, second);
    let r = Ok::<(O1, O2), ErrMode<E>>((o1, o2));
    let fresh = RoundSoFar::<E>::fresh();
    assert(perm2_end(ps, (Some(o1), Some(o2)), after, fresh, after, r));
    assert(perm2_from_1(ps, (Some(o1), Some(o2)), after, fresh, after, r));
    assert(perm2_from_0(ps, (Some(o1), Some(o2)), after, fresh, after, r));
    assert(stops_with(after, o1));
    assert(perm2_from_0(ps, (None::<O1>, Some(o2)), mid, fresh, after, r));
    assert(stops_with(mid, o2));
    assert(perm2_from_1(ps, (None::<O1>, None::<O2>), before, fresh.note(soft), after, r));
    assert(stops_with(stop, soft));
    assert(perm2_from_0(ps, (None::<O1>, None::<O2>), before, fresh, after, r));
}

/// Called twice on the same input, `p` yields the same outcome and stops at
/// the same cursor: its relation holds of at most one cursor and outcome for
/// each cursor it is started at.
pub open spec fn deterministic<I, O, E, P: Parser<I, O, E>>(p: P) -> bool {
    forall|x: I, y1: I, r1: PResult<O, E>, y2: I, r2: PResult<O, E>|
        #![trigger p.parses(x, y1, r1), p.parses(x, y2, r2)]
        p.parses(x, y1, r1) && p.parses(x, y2, r2) ==> y1 == y2 && r1 == r2
}

/// Moving a cursor of type `I` forward by a number of tokens leads to one
/// cursor only, and a number of tokens at the front of a cursor are one
/// slice only.
pub open spec fn exact_stream<I: Stream>() -> bool {
    &&& forall|a: I, n: nat, b: I, c: I|
        #![trigger a.steps_to(n, b), a.steps_to(n, c)]
        a.steps_to(n, b) && a.steps_to(n, c) ==> b == c
    &&& forall|s: I::Slice, t: I::Slice|
        #![trigger I::slice_tokens(s), I::slice_tokens(t)]
        I::slice_tokens(s) == I::slice_tokens(t) ==> s == t
}

/// For each position and kind there is one error of type `E` only.
pub open spec fn exact_errors<I, E: ParseError<I>>() -> bool {
    forall|e1: E, e2: E, at: I, kind: crate::error::ErrorKind|
        #![trigger e1.made_from_kind(at, kind), e2.made_from_kind(at, kind)]
        e1.made_from_kind(at, kind) && e2.made_from_kind(at, kind) ==> e1 == e2
}

/// Adding a frame to an error of type `E` gives one error only.
pub open spec fn exact_frames<I, E: ParseError<I>>() -> bool {
    forall|e1: E, e2: E, prev: E, at: I, kind: crate::error::ErrorKind|
        #![trigger e1.appended_to(prev, at, kind), e2.appended_to(prev, at, kind)]
        e1.appended_to(prev, at, kind) && e2.appended_to(prev, at, kind) ==> e1 == e2
}

/// Byte slices are an exact stream.
pub proof fn lemma_bytes_exact<'a>()
    ensures
        exact_stream::<&'a [u8]>(),
{
    assert forall|a: &'a [u8], n: nat, b: &'a [u8], c: &'a [u8]|
        #![trigger a.steps_to(n, b), a.steps_to(n, c)]
        a.steps_to(n, b) && a.steps_to(n, c) implies b == c by {
        assert(b@ == c@);
        assert(b =~= c);
    }
    assert forall|s: &'a [u8], t: &'a [u8]|
        #![trigger <&'a [u8] as Stream>::slice_tokens(s), <&'a [u8] as Stream>::slice_tokens(t)]
        <&'a [u8] as Stream>::slice_tokens(s) == <&'a [u8] as Stream>::slice_tokens(
            t,
        ) implies s == t by {
        assert(s@ == t@);
        assert(s =~= t);
    }
}

/// A partial stream over an exact stream is exact.
pub proof fn lemma_partial_exact<I: Stream>()
    requires
        exact_stream::<I>(),
    ensures
        exact_stream::<Partial<I>>(),
{
    assert forall|
        a: Partial<I>,
        n: nat,
        b: Partial<I>,
        c: Partial<I>,
    |
        #![trigger a.steps_to(n, b), a.steps_to(n, c)]
        a.steps_to(n, b) && a.steps_to(n, c) implies b == c by {
        assert(a.input.steps_to(n, b.input) && a.input.steps_to(n, c.input));
    }
    assert forall|s: I::Slice, t: I::Slice|
        #![trigger
            <Partial<I> as Stream>::slice_tokens(s),
            <Partial<I> as Stream>::slice_tokens(t),
        ]
        <Partial<I> as Stream>::slice_tokens(s) == <crate::stream::Partial<
            I,
        > as Stream>::slice_tokens(t) implies s == t by {
        assert(I::slice_tokens(s) == I::slice_tokens(t));
    }
}

/// A value of type `I` has one clone only: the value itself.
pub open spec fn exact_clone<I: Clone>() -> bool {
    forall|a: I, b: I| #[trigger] cloned(a, b) ==> a == b
}

/// A byte slice has one clone only.
pub proof fn lemma_bytes_exact_clone<'a>()
    ensures
        exact_clone::<&'a [u8]>(),
{
}

/// A text slice has one clone only.
pub proof fn lemma_text_exact_clone<'a>()
    ensures
        exact_clone::<&'a str>(),
{
}

/// A partial stream has one clone only if the stream inside has.
pub proof fn lemma_partial_exact_clone<I: Clone>()
    requires
        exact_clone::<I>(),
    ensures
        exact_clone::<Partial<I>>(),
{
    assert forall|a: Partial<I>, b: Partial<I>| #[trigger] cloned(a, b) implies a == b by {
        assert(cloned(a.input, b.input));
    }
}

/// A located stream has one clone only.
pub proof fn lemma_located_exact_clone<I: Stream>()
    ensures
        exact_clone::<Located<I>>(),
{
}

/// The minimal error is exact over a stream that has one clone only: a
/// position and a kind make one error, whose position is the cursor itself,
/// and frames added to it change nothing.
pub proof fn lemma_input_error_exact<I: Clone>()
    requires
        exact_clone::<I>(),
    ensures
        exact_errors::<I, InputError<I>>(),
        exact_frames::<I, InputError<I>>(),
        forall|e: InputError<I>, at: I, kind: ErrorKind| #[trigger]
            e.made_from_kind(at, kind) ==> e == (InputError { input: at, kind }),
{
    assert forall|e: InputError<I>, at: I, kind: ErrorKind| #[trigger]
        e.made_from_kind(at, kind) implies e == (InputError { input: at, kind }) by {
        assert(cloned(at, e.input));
    }
}

/// A deterministic parser, called twice on the same input, stops at the same
/// cursor with the same outcome.
pub proof fn lemma_called_twice<I, O, E, P: Parser<I, O, E>>(
    p: P,
    before: I,
    after1: I,
    r1: PResult<O, E>,
    after2: I,
    r2: PResult<O, E>,
)
    requires
        deterministic(p),
        p.parses(before, after1, r1),
        p.parses(before, after2, r2),
    ensures
        after1 == after2,
        r1 == r2,
{
}

/// The unit parser is deterministic.
pub proof fn lemma_unit_deterministic<I, E>()
    ensures
        deterministic::<I, (), E, ()>(()),
{
}

/// A literal is deterministic on an exact stream with exact errors.
pub proof fn lemma_tag_deterministic<T: Copy, I: StreamIsPartial + Compare<T>, E: ParseError<I>>(
    t: T,
)
    requires
        exact_stream::<I>(),
        exact_errors::<I, E>(),
    ensures
        deterministic(Tag::<T, I, E>::of(t)),
{
    let p = Tag::<T, I, E>::of(t);
    assert forall|x: I, y1: I, r1: PResult<I::Slice, E>, y2: I, r2: PResult<I::Slice, E>|
        #![trigger p.parses(x, y1, r1), p.parses(x, y2, r2)]
        p.parses(x, y1, r1) && p.parses(x, y2, r2) implies y1 == y2 && r1 == r2 by {
        match compare_tokens(x.tokens(), I::pattern(t)) {
            CompareResult::Match(n) => {
                assert(x.steps_to(n as nat, y1) && x.steps_to(n as nat, y2));
                assert(I::slice_tokens(r1->Ok_0) == I::slice_tokens(r2->Ok_0));
            },
            CompareResult::Incomplete(missing) => {
                if x.partial() {
                    assert(r1->Err_0->Incomplete_0 == r2->Err_0->Incomplete_0);
                } else {
                    assert(r1->Err_0->Backtrack_0.made_from_kind(x, ErrorKind::Tag));
                    assert(r2->Err_0->Backtrack_0.made_from_kind(x, ErrorKind::Tag));
                }
            },
            CompareResult::Mismatch => {
                assert(r1->Err_0->Backtrack_0.made_from_kind(x, ErrorKind::Tag));
                assert(r2->Err_0->Backtrack_0.made_from_kind(x, ErrorKind::Tag));
            },
        }
    }
}

/// Taking a number of tokens is deterministic on an exact stream with exact
/// errors.
pub proof fn lemma_take_deterministic<I: StreamIsPartial, E: ParseError<I>>(count: usize)
    requires
        exact_stream::<I>(),
        exact_errors::<I, E>(),
    ensures
        deterministic(Take::<I, E>::of(count)),
{
    let p = Take::<I, E>::of(count);
    assert forall|x: I, y1: I, r1: PResult<I::Slice, E>, y2: I, r2: PResult<I::Slice, E>|
        #![trigger p.parses(x, y1, r1), p.parses(x, y2, r2)]
        p.parses(x, y1, r1) && p.parses(x, y2, r2) implies y1 == y2 && r1 == r2 by {
        if count <= x.tokens().len() {
            assert(x.steps_to(count as nat, y1) && x.steps_to(count as nat, y2));
            assert(I::slice_tokens(r1->Ok_0) == I::slice_tokens(r2->Ok_0));
        } else if x.partial() {
            assert(r1->Err_0->Incomplete_0 == r2->Err_0->Incomplete_0);
        } else {
            assert(r1->Err_0->Backtrack_0.made_from_kind(x, ErrorKind::Slice));
            assert(r2->Err_0->Backtrack_0.made_from_kind(x, ErrorKind::Slice));
        }
    }
}

/// Yielding a value in place of the output of a deterministic parser is
/// deterministic where the value has one clone only.
pub proof fn lemma_value_deterministic<I, O, O2: Clone, E, P: Parser<I, O, E>>(p: P, v: O2)
    requires
        deterministic(p),
        forall|a: O2, b: O2|
            #![trigger cloned(v, a), cloned(v, b)]
            cloned(v, a) && cloned(v, b) ==> a == b,
    ensures
        deterministic(Value::<P, I, O, O2, E>::of(p, v)),
{
    let w = Value::<P, I, O, O2, E>::of(p, v);
    assert forall|x: I, y1: I, r1: PResult<O2, E>, y2: I, r2: PResult<O2, E>|
        #![trigger w.parses(x, y1, r1), w.parses(x, y2, r2)]
        w.parses(x, y1, r1) && w.parses(x, y2, r2) implies y1 == y2 && r1 == r2 by {
        let q1: PResult<O, E> = match r1 {
            Ok(o2) => Ok(choose|o: O| #[trigger] stops_with(y1, o) && p.parses(x, y1, Ok(o))),
            Err(e) => Err(e),
        };
        let q2: PResult<O, E> = match r2 {
            Ok(o2) => Ok(choose|o: O| #[trigger] stops_with(y2, o) && p.parses(x, y2, Ok(o))),
            Err(e) => Err(e),
        };
        assert(p.parses(x, y1, q1));
        assert(p.parses(x, y2, q2));
    }
}

/// A sequence of two deterministic parsers is deterministic.
pub proof fn lemma_pair_deterministic<I, O1, O2, E, A1: Parser<I, O1, E>, A2: Parser<I, O2, E>>(
    first: A1,
    second: A2,
)
    requires
        deterministic(first),
        deterministic(second),
    ensures
        deterministic::<I, (O1, O2), E, (A1, A2)>((first, second)),
{
    let p = (first, second);
    assert forall|x: I, y1: I, r1: PResult<(O1, O2), E>, y2: I, r2: PResult<(O1, O2), E>|
        #![trigger p.parses(x, y1, r1), p.parses(x, y2, r2)]
        p.parses(x, y1, r1) && p.parses(x, y2, r2) implies y1 == y2 && r1 == r2 by {
        lemma_pair_outcome(first, second, x, y1, r1);
        lemma_pair_outcome(first, second, x, y2, r2);
    }
}

/// What a sequence of two parsers yields, spelled out by how far it got: the
/// first parser failed, the first succeeded and the second failed, or both
/// succeeded.
pub proof fn lemma_pair_outcome<I, O1, O2, E, A1: Parser<I, O1, E>, A2: Parser<I, O2, E>>(
    first: A1,
    second: A2,
    before: I,
    after: I,
    r: PResult<(O1, O2), E>,
)
    requires
        (first, second).parses(before, after, r),
    ensures
        match r {
            Ok(o) => exists|mid: I| #[trigger]
                stops_at(mid) && first.parses(before, mid, Ok(o.0)) && second.parses(
                    mid,
                    after,
                    Ok(o.1),
                ),
            Err(e) => first.parses(before, after, Err(e)) || exists|mid: I, o1: O1| #[trigger]
                stops_with(mid, o1) && first.parses(before, mid, Ok(o1)) && second.parses(
                    mid,
                    after,
                    Err(e),
                ),
        },
{
    match r {
        Ok(o) => {
            let mid = choose|mid: I| #[trigger]
                stops_at(mid) && (first,).parses(before, mid, Ok((o.0,))) && second.parses(
                    mid,
                    after,
                    Ok(o.1),
                );
            assert(stops_at(mid));
        },
        Err(e) => {
            if !(first,).parses(before, after, Err(e)) {
                let (mid, o): (I, (O1,)) = choose|mid: I, o: (O1,)| #[trigger]
                    stops_with(mid, o) && (first,).parses(before, mid, Ok(o)) && second.parses(
                        mid,
                        after,
                        Err(e),
                    );
                assert(stops_with(mid, o.0));
            }
        },
    }
}

/// The outcome `r` is a recoverable failure with the error `last` under the
/// frame (`at`, `kind`).
pub open spec fn fails_under_frame<I, O, E: ParseError<I>>(
    r: PResult<O, E>,
    last: E,
    at: I,
    kind: ErrorKind,
) -> bool {
    r matches Err(ErrMode::Backtrack(e)) && e.appended_to(last, at, kind)
}

/// An ordered choice between two deterministic parsers is deterministic,
/// where adding a frame to an error gives one error only.
pub proof fn lemma_alt_deterministic<
    I: Stream,
    O,
    E: ParseError<I>,
    A1: Parser<I, O, E>,
    A2: Parser<I, O, E>,
>(
    first: A1,
    second: A2,
)
    requires
        deterministic(first),
        deterministic(second),
        exact_frames::<I, E>(),
    ensures
        deterministic(Alternatives::of((first, second))),
{
    let p = Alternatives::of((first, second));
    assert forall|x: I, y1: I, r1: PResult<O, E>, y2: I, r2: PResult<O, E>|
        #![trigger p.parses(x, y1, r1), p.parses(x, y2, r2)]
        p.parses(x, y1, r1) && p.parses(x, y2, r2) implies y1 == y2 && r1 == r2 by {
        lemma_alt_outcome(first, second, x, y1, r1);
        lemma_alt_outcome(first, second, x, y2, r2);
    }
}

/// What an ordered choice between two parsers yields, spelled out by which
/// alternative decided.
pub proof fn lemma_alt_outcome<
    I: Stream,
    O,
    E: ParseError<I>,
    A1: Parser<I, O, E>,
    A2: Parser<I, O, E>,
>(
    first: A1,
    second: A2,
    before: I,
    after: I,
    r: PResult<O, E>,
)
    requires
        Alternatives::of((first, second)).parses(before, after, r),
    ensures
        ({
            ||| decided(r) && first.parses(before, after, r)
            ||| exists|stop1: I, e1: E| #[trigger]
                stops_with(stop1, e1) && first.parses(before, stop1, Err(ErrMode::Backtrack(e1)))
                    && decided(r) && second.parses(before, after, r)
            ||| exists|stop1: I, e1: E, stop2: I, e2: E| #[trigger]
                stops_with((stop1, e1), (stop2, e2)) && first.parses(
                    before,
                    stop1,
                    Err(ErrMode::Backtrack(e1)),
                ) && second.parses(before, stop2, Err(ErrMode::Backtrack(e2))) && after == before
                    && fails_under_frame(r, e2, before, ErrorKind::Alt)
        }),
{
    if !(decided(r) && first.parses(before, after, r)) {
        let (stop1, e1): (I, E) = choose|stop: I, e: E| #[trigger]
            stops_with(stop, e) && first.parses(before, stop, Err(ErrMode::Backtrack(e)));
        assert(stops_with(stop1, e1));
        if !decided(r) {
            let e = r->Err_0->Backtrack_0;
            let (stop2, e2): (I, E) = choose|stop: I, last: E| #[trigger]
                stops_with(stop, last) && second.parses(before, stop, Err(ErrMode::Backtrack(last)))
                    && e.appended_to(last, before, ErrorKind::Alt);
            assert(stops_with((stop1, e1), (stop2, e2)));
        }
    }
}

/// Mapping a deterministic parser with a function that has one result for
/// each argument gives a deterministic parser.
pub proof fn lemma_map_deterministic<I, O, O2, E, P: Parser<I, O, E>, G: Fn(O) -> O2>(p: P, g: G)
    requires
        deterministic(p),
        forall|o: O, a: O2, b: O2|
            #![trigger call_ensures(g, (o,), a), call_ensures(g, (o,), b)]
            call_ensures(g, (o,), a) && call_ensures(g, (o,), b) ==> a == b,
    ensures
        deterministic(Mapped::<P, G, I, O, O2, E>::of(p, g)),
{
    let m = Mapped::<P, G, I, O, O2, E>::of(p, g);
    assert forall|x: I, y1: I, r1: PResult<O2, E>, y2: I, r2: PResult<O2, E>|
        #![trigger m.parses(x, y1, r1), m.parses(x, y2, r2)]
        m.parses(x, y1, r1) && m.parses(x, y2, r2) implies y1 == y2 && r1 == r2 by {
        let q1: PResult<O, E> = match r1 {
            Ok(o2) => Ok(
                choose|o: O| #[trigger]
                    stops_with(y1, o) && p.parses(x, y1, Ok(o)) && call_ensures(g, (o,), o2),
            ),
            Err(e) => Err(e),
        };
        let q2: PResult<O, E> = match r2 {
            Ok(o2) => Ok(
                choose|o: O| #[trigger]
                    stops_with(y2, o) && p.parses(x, y2, Ok(o)) && call_ensures(g, (o,), o2),
            ),
            Err(e) => Err(e),
        };
        assert(p.parses(x, y1, q1));
        assert(p.parses(x, y2, q2));
    }
}

/// The unit parser only ever moves the cursor forward.
pub proof fn lemma_unit_advancing<I: Stream, E>()
    ensures
        advancing::<I, (), E, ()>(()),
{
    assert forall|before: I, after: I, r: PResult<(), E>| #[trigger]
        ().parses(before, after, r) implies reaches(before, after) by {
        before.lemma_steps_zero();
    }
}

/// A literal only ever moves the cursor forward.
pub proof fn lemma_tag_advancing<T: Copy, I: StreamIsPartial + Compare<T>, E: ParseError<I>>(t: T)
    ensures
        advancing(Tag::<T, I, E>::of(t)),
{
    let p = Tag::<T, I, E>::of(t);
    assert forall|before: I, after: I, r: PResult<I::Slice, E>| #[trigger]
        p.parses(before, after, r) implies reaches(before, after) by {
        before.lemma_steps_zero();
    }
}

/// Taking a number of tokens only ever moves the cursor forward.
pub proof fn lemma_take_advancing<I: StreamIsPartial, E: ParseError<I>>(count: usize)
    ensures
        advancing(Take::<I, E>::of(count)),
{
    let p = Take::<I, E>::of(count);
    assert forall|before: I, after: I, r: PResult<I::Slice, E>| #[trigger]
        p.parses(before, after, r) implies reaches(before, after) by {
        before.lemma_steps_zero();
    }
}

/// Mapping the output of a parser that only moves the cursor forward leaves
/// it so.
pub proof fn lemma_map_advancing<I: Stream, O, O2, E, P: Parser<I, O, E>, G: Fn(O) -> O2>(
    p: P,
    g: G,
)
    requires
        advancing(p),
    ensures
        advancing(Mapped::<P, G, I, O, O2, E>::of(p, g)),
{
    let m = Mapped::<P, G, I, O, O2, E>::of(p, g);
    assert forall|before: I, after: I, r: PResult<O2, E>| #[trigger]
        m.parses(before, after, r) implies reaches(before, after) by {
        match r {
            Ok(o2) => {
                let o = choose|o: O| #[trigger]
                    stops_with(after, o) && p.parses(before, after, Ok(o)) && call_ensures(
                        g,
                        (o,),
                        o2,
                    );
                assert(p.parses(before, after, Ok(o)));
            },
            Err(e) => {},
        }
    }
}

/// `p` asks for more input only on a stream that is partial.
pub open spec fn asks_only_when_partial<I: StreamIsPartial, O, E, P: Parser<I, O, E>>(
    p: P,
) -> bool {
    forall|before: I, after: I, n: Needed| #[trigger]
        p.parses(before, after, Err(ErrMode::Incomplete(n))) ==> before.partial()
}

/// On a stream type that has no partial streams, a parser that asks for more
/// input only on a partial stream never asks for more input. This is what
/// [`Parser::parse`] needs of its parser.
pub proof fn lemma_complete_stream_never_asks<I: StreamIsPartial, O, E, P: Parser<I, O, E>>(
    p: P,
    before: I,
)
    requires
        asks_only_when_partial(p),
        !I::supports_partial(),
    ensures
        forall|after: I, n: Needed| !p.parses(before, after, Err(ErrMode::Incomplete(n))),
{
    before.lemma_partial_is_supported();
}

/// A literal asks for more input only on a partial stream.
pub proof fn lemma_tag_asks_only_when_partial<
    T: Copy,
    I: StreamIsPartial + Compare<T>,
    E: ParseError<I>,
>(t: T)
    ensures
        asks_only_when_partial(Tag::<T, I, E>::of(t)),
{
}

/// Taking a number of tokens asks for more input only on a partial stream.
pub proof fn lemma_take_asks_only_when_partial<I: StreamIsPartial, E: ParseError<I>>(count: usize)
    ensures
        asks_only_when_partial(Take::<I, E>::of(count)),
{
}

/// A sequence of two parsers asks for more input only on a partial stream if
/// both do and the first leaves a stream as partial as it found it.
pub proof fn lemma_pair_asks_only_when_partial<
    I: StreamIsPartial,
    O1,
    O2,
    E,
    A1: Parser<I, O1, E>,
    A2: Parser<I, O2, E>,
>(first: A1, second: A2)
    requires
        asks_only_when_partial(first),
        asks_only_when_partial(second),
        forall|before: I, after: I, o: O1| #[trigger]
            first.parses(before, after, Ok(o)) ==> after.partial() == before.partial(),
    ensures
        asks_only_when_partial::<I, (O1, O2), E, (A1, A2)>((first, second)),
{
    let p = (first, second);
    assert forall|before: I, after: I, n: Needed| #[trigger]
        p.parses(before, after, Err(ErrMode::Incomplete(n))) implies before.partial() by {
        lemma_pair_outcome(first, second, before, after, Err(ErrMode::Incomplete(n)));
    }
}

/// An ordered choice between two parsers asks for more input only on a
/// partial stream if both do.
pub proof fn lemma_alt_asks_only_when_partial<
    I: StreamIsPartial,
    O,
    E: ParseError<I>,
    A1: Parser<I, O, E>,
    A2: Parser<I, O, E>,
>(first: A1, second: A2)
    requires
        asks_only_when_partial(first),
        asks_only_when_partial(second),
    ensures
        asks_only_when_partial(Alternatives::of((first, second))),
{
}

/// Mapping the output of a parser leaves it asking for more input only on a
/// partial stream.
pub proof fn lemma_map_asks_only_when_partial<
    I: StreamIsPartial,
    O,
    O2,
    E,
    P: Parser<I, O, E>,
    G: Fn(O) -> O2,
>(p: P, g: G)
    requires
        asks_only_when_partial(p),
    ensures
        asks_only_when_partial(Mapped::<P, G, I, O, O2, E>::of(p, g)),
{
}

/// A function that takes the input by value only ever moves the cursor
/// forward, as a parser, where it only ever returns a rest that its input
/// reaches and the input has one clone only.
pub proof fn lemma_from_peek_advancing<F: Fn(I) -> IResult<I, O, E>, I: Stream + Clone, O, E>(
    p: FromPeek<F, I, O, E>,
)
    requires
        exact_clone::<I>(),
        forall|c: I, rest: I, o: O| #[trigger]
            call_ensures(p.peek, (c,), Ok::<(I, O), ErrMode<E>>((rest, o))) ==> reaches(c, rest),
    ensures
        advancing(p),
{
    assert forall|before: I, after: I, r: PResult<O, E>| #[trigger]
        p.parses(before, after, r) implies reaches(before, after) by {
        before.lemma_steps_zero();
        let c = choose|c: I| #[trigger]
            cloned(before, c) && peek_gives(p.peek, c, before, after, r);
        assert(cloned(before, c));
    }
}

/// A round of a permutation in which every parser fails recoverably ends the
/// permutation where the round started, whatever the parsers did to the
/// cursor before they failed: the failure is the last parser's error under a
/// frame at the start of the round.
pub proof fn lemma_permutation_fails_at_round_start<
    I: Stream,
    O1,
    O2,
    E: ParseError<I>,
    A1: Parser<I, O1, E>,
    A2: Parser<I, O2, E>,
>(first: A1, second: A2, before: I, stop1: I, e1: E, stop2: I, e2: E, e: E)
    requires
        first.parses(before, stop1, Err(ErrMode::Backtrack(e1))),
        second.parses(before, stop2, Err(ErrMode::Backtrack(e2))),
        e.appended_to(e2, before, ErrorKind::Permutation),
    ensures
        Permuted::of((first, second)).parses(before, before, Err(ErrMode::Backtrack(e))),
{
    let ps = (first, second);
    let r = Err::<(O1, O2), ErrMode<E>>(ErrMode::Backtrack(e));
    let fresh = RoundSoFar::<E>::fresh();
    let none = (None::<O1>, None::<O2>);
    let soft1 = ErrMode::Backtrack(e1);
    let soft2 = ErrMode::Backtrack(e2);
    assert(perm2_end(ps, none, before, fresh.note(soft1).note(soft2), before, r));
    assert(stops_with(stop2, soft2));
    assert(perm2_from_1(ps, none, before, fresh.note(soft1), before, r));
    assert(stops_with(stop1, soft1));
    assert(perm2_from_0(ps, none, before, fresh, before, r));
}

/// A function that takes the input by value is deterministic, as a parser,
/// where it has one result for each input and the input has one clone only.
pub proof fn lemma_from_peek_deterministic<F: Fn(I) -> IResult<I, O, E>, I: Clone, O, E>(
    p: FromPeek<F, I, O, E>,
)
    requires
        exact_clone::<I>(),
        forall|c: I, a: IResult<I, O, E>, b: IResult<I, O, E>|
            #![trigger call_ensures(p.peek, (c,), a), call_ensures(p.peek, (c,), b)]
            call_ensures(p.peek, (c,), a) && call_ensures(p.peek, (c,), b) ==> a == b,
    ensures
        deterministic(p),
{
    assert forall|x: I, y1: I, r1: PResult<O, E>, y2: I, r2: PResult<O, E>|
        #![trigger p.parses(x, y1, r1), p.parses(x, y2, r2)]
        p.parses(x, y1, r1) && p.parses(x, y2, r2) implies y1 == y2 && r1 == r2 by {
        let c1 = choose|c: I| #[trigger] cloned(x, c) && peek_gives(p.peek, c, x, y1, r1);
        let c2 = choose|c: I| #[trigger] cloned(x, c) && peek_gives(p.peek, c, x, y2, r2);
        assert(cloned(x, c1) && cloned(x, c2));
        let a: IResult<I, O, E> = match r1 {
            Ok(o) => Ok((y1, o)),
            Err(e) => Err(e),
        };
        let b: IResult<I, O, E> = match r2 {
            Ok(o) => Ok((y2, o)),
            Err(e) => Err(e),
        };
        assert(call_ensures(p.peek, (x,), a));
        assert(call_ensures(p.peek, (x,), b));
    }
}

/// A permutation of three yields its outputs in the order of the list: the
/// first, then the second, then the third parser matching, each where the one before it
/// stopped, and each parser that stands earlier in the list and has not
/// matched yet failing softly where a later one matches.
pub proof fn lemma_permutation_order_123<
    I: Stream,
    O1,
    O2,
    O3,
    E: ParseError<I>,
    A1: Parser<I,
    O1,
    E>,
    A2: Parser<I,
    O2,
    E>,
    A3: Parser<I,
    O3,
    E>,
>(
    first: A1,
    second: A2,
    third: A3,
    c1: I,
    c2: I,
    c3: I,
    c4: I,
    o1: O1,
    o2: O2,
    o3: O3,
)
    requires
        first.parses(c1, c2, Ok(o1)),
        second.parses(c2, c3, Ok(o2)),
        third.parses(c3, c4, Ok(o3)),
    ensures
        Permuted::of((first, second, third)).parses(c1, c4, Ok((o1, o2, o3))),
{
    let ps = (first, second, third);
    let r = Ok::<(O1, O2, O3), ErrMode<E>>((o1, o2, o3));
    let fresh = RoundSoFar::<E>::fresh();
    let all = (Some(o1), Some(o2), Some(o3));
    assert(perm3_end(ps, all, c4, fresh, c4, r));
    assert(perm3_from_2(ps, all, c4, fresh, c4, r));
    assert(perm3_from_1(ps, all, c4, fresh, c4, r));
    assert(perm3_from_0(ps, all, c4, fresh, c4, r));
    assert(stops_with(c4, o3));
    let got3 = (Some(o1), Some(o2), None::<O3>);
    assert(perm3_from_2(ps, got3, c3, fresh, c4, r));
    assert(perm3_from_1(ps, got3, c3, fresh, c4, r));
    assert(perm3_from_0(ps, got3, c3, fresh, c4, r));
    assert(stops_with(c3, o2));
    let got2 = (Some(o1), None::<O2>, None::<O3>);
    assert(perm3_from_1(ps, got2, c2, fresh, c4, r));
    assert(perm3_from_0(ps, got2, c2, fresh, c4, r));
    assert(stops_with(c2, o1));
    let got1 = (None::<O1>, None::<O2>, None::<O3>);
    assert(perm3_from_0(ps, got1, c1, fresh, c4, r));
}

/// A permutation of three yields its outputs in the order of the list: the
/// first, then the third, then the second parser matching, each where the one before it
/// stopped, and each parser that stands earlier in the list and has not
/// matched yet failing softly where a later one matches.
pub proof fn lemma_permutation_order_132<
    I: Stream,
    O1,
    O2,
    O3,
    E: ParseError<I>,
    A1: Parser<I,
    O1,
    E>,
    A2: Parser<I,
    O2,
    E>,
    A3: Parser<I,
    O3,
    E>,
>(
    first: A1,
    second: A2,
    third: A3,
    c1: I,
    c2: I,
    c3: I,
    c4: I,
    o1: O1,
    o2: O2,
    o3: O3,
    stop22: I,
    soft22: ErrMode<E>,
)
    requires
        first.parses(c1, c2, Ok(o1)),
        second.parses(c2, stop22, Err(soft22)),
        !(soft22 is Cut),
        third.parses(c2, c3, Ok(o3)),
        second.parses(c3, c4, Ok(o2)),
    ensures
        Permuted::of((first, second, third)).parses(c1, c4, Ok((o1, o2, o3))),
{
    let ps = (first, second, third);
    let r = Ok::<(O1, O2, O3), ErrMode<E>>((o1, o2, o3));
    let fresh = RoundSoFar::<E>::fresh();
    let all = (Some(o1), Some(o2), Some(o3));
    assert(perm3_end(ps, all, c4, fresh, c4, r));
    assert(perm3_from_2(ps, all, c4, fresh, c4, r));
    assert(perm3_from_1(ps, all, c4, fresh, c4, r));
    assert(perm3_from_0(ps, all, c4, fresh, c4, r));
    assert(stops_with(c4, o2));
    let got3 = (Some(o1), None::<O2>, Some(o3));
    assert(perm3_from_1(ps, got3, c3, fresh, c4, r));
    assert(perm3_from_0(ps, got3, c3, fresh, c4, r));
    assert(stops_with(c3, o3));
    let got2 = (Some(o1), None::<O2>, None::<O3>);
    assert(perm3_from_2(ps, got2, c2, fresh.note(soft22), c4, r));
    assert(stops_with(stop22, soft22));
    assert(perm3_from_1(ps, got2, c2, fresh, c4, r));
    assert(perm3_from_0(ps, got2, c2, fresh, c4, r));
    assert(stops_with(c2, o1));
    let got1 = (None::<O1>, None::<O2>, None::<O3>);
    assert(perm3_from_0(ps, got1, c1, fresh, c4, r));
}

/// A permutation of three yields its outputs in the order of the list: the
/// second, then the first, then the third parser matching, each where the one before it
/// stopped, and each parser that stands earlier in the list and has not
/// matched yet failing softly where a later one matches.
pub proof fn lemma_permutation_order_213<
    I: Stream,
    O1,
    O2,
    O3,
    E: ParseError<I>,
    A1: Parser<I,
    O1,
    E>,
    A2: Parser<I,
    O2,
    E>,
    A3: Parser<I,
    O3,
    E>,
>(
    first: A1,
    second: A2,
    third: A3,
    c1: I,
    c2: I,
    c3: I,
    c4: I,
    o1: O1,
    o2: O2,
    o3: O3,
    stop11: I,
    soft11: ErrMode<E>,
)
    requires
        first.parses(c1, stop11, Err(soft11)),
        !(soft11 is Cut),
        second.parses(c1, c2, Ok(o2)),
        first.parses(c2, c3, Ok(o1)),
        third.parses(c3, c4, Ok(o3)),
    ensures
        Permuted::of((first, second, third)).parses(c1, c4, Ok((o1, o2, o3))),
{
    let ps = (first, second, third);
    let r = Ok::<(O1, O2, O3), ErrMode<E>>((o1, o2, o3));
    let fresh = RoundSoFar::<E>::fresh();
    let all = (Some(o1), Some(o2), Some(o3));
    assert(perm3_end(ps, all, c4, fresh, c4, r));
    assert(perm3_from_2(ps, all, c4, fresh, c4, r));
    assert(perm3_from_1(ps, all, c4, fresh, c4, r));
    assert(perm3_from_0(ps, all, c4, fresh, c4, r));
    assert(stops_with(c4, o3));
    let got3 = (Some(o1), Some(o2), None::<O3>);
    assert(perm3_from_2(ps, got3, c3, fresh, c4, r));
    assert(perm3_from_1(ps, got3, c3, fresh, c4, r));
    assert(perm3_from_0(ps, got3, c3, fresh, c4, r));
    assert(stops_with(c3, o1));
    let got2 = (None::<O1>, Some(o2), None::<O3>);
    assert(perm3_from_0(ps, got2, c2, fresh, c4, r));
    assert(stops_with(c2, o2));
    let got1 = (None::<O1>, None::<O2>, None::<O3>);
    assert(perm3_from_1(ps, got1, c1, fresh.note(soft11), c4, r));
    assert(stops_with(stop11, soft11));
    assert(perm3_from_0(ps, got1, c1, fresh, c4, r));
}

/// A permutation of three yields its outputs in the order of the list: the
/// second, then the third, then the first parser matching, each where the one before it
/// stopped, and each parser that stands earlier in the list and has not
/// matched yet failing softly where a later one matches.
pub proof fn lemma_permutation_order_231<
    I: Stream,
    O1,
    O2,
    O3,
    E: ParseError<I>,
    A1: Parser<I,
    O1,
    E>,
    A2: Parser<I,
    O2,
    E>,
    A3: Parser<I,
    O3,
    E>,
>(
    first: A1,
    second: A2,
    third: A3,
    c1: I,
    c2: I,
    c3: I,
    c4: I,
    o1: O1,
    o2: O2,
    o3: O3,
    stop11: I,
    soft11: ErrMode<E>,
    stop21: I,
    soft21: ErrMode<E>,
)
    requires
        first.parses(c1, stop11, Err(soft11)),
        !(soft11 is Cut),
        second.parses(c1, c2, Ok(o2)),
        first.parses(c2, stop21, Err(soft21)),
        !(soft21 is Cut),
        third.parses(c2, c3, Ok(o3)),
        first.parses(c3, c4, Ok(o1)),
    ensures
        Permuted::of((first, second, third)).parses(c1, c4, Ok((o1, o2, o3))),
{
    let ps = (first, second, third);
    let r = Ok::<(O1, O2, O3), ErrMode<E>>((o1, o2, o3));
    let fresh = RoundSoFar::<E>::fresh();
    let all = (Some(o1), Some(o2), Some(o3));
    assert(perm3_end(ps, all, c4, fresh, c4, r));
    assert(perm3_from_2(ps, all, c4, fresh, c4, r));
    assert(perm3_from_1(ps, all, c4, fresh, c4, r));
    assert(perm3_from_0(ps, all, c4, fresh, c4, r));
    assert(stops_with(c4, o1));
    let got3 = (None::<O1>, Some(o2), Some(o3));
    assert(perm3_from_0(ps, got3, c3, fresh, c4, r));
    assert(stops_with(c3, o3));
    let got2 = (None::<O1>, Some(o2), None::<O3>);
    assert(perm3_from_2(ps, got2, c2, fresh.note(soft21), c4, r));
    assert(perm3_from_1(ps, got2, c2, fresh.note(soft21), c4, r));
    assert(stops_with(stop21, soft21));
    assert(perm3_from_0(ps, got2, c2, fresh, c4, r));
    assert(stops_with(c2, o2));
    let got1 = (None::<O1>, None::<O2>, None::<O3>);
    assert(perm3_from_1(ps, got1, c1, fresh.note(soft11), c4, r));
    assert(stops_with(stop11, soft11));
    assert(perm3_from_0(ps, got1, c1, fresh, c4, r));
}

/// A permutation of three yields its outputs in the order of the list: the
/// third, then the first, then the second parser matching, each where the one before it
/// stopped, and each parser that stands earlier in the list and has not
/// matched yet failing softly where a later one matches.
pub proof fn lemma_permutation_order_312<
    I: Stream,
    O1,
    O2,
    O3,
    E: ParseError<I>,
    A1: Parser<I,
    O1,
    E>,
    A2: Parser<I,
    O2,
    E>,
    A3: Parser<I,
    O3,
    E>,
>(
    first: A1,
    second: A2,
    third: A3,
    c1: I,
    c2: I,
    c3: I,
    c4: I,
    o1: O1,
    o2: O2,
    o3: O3,
    stop11: I,
    soft11: ErrMode<E>,
    stop12: I,
    soft12: ErrMode<E>,
)
    requires
        first.parses(c1, stop11, Err(soft11)),
        !(soft11 is Cut),
        second.parses(c1, stop12, Err(soft12)),
        !(soft12 is Cut),
        third.parses(c1, c2, Ok(o3)),
        first.parses(c2, c3, Ok(o1)),
        second.parses(c3, c4, Ok(o2)),
    ensures
        Permuted::of((first, second, third)).parses(c1, c4, Ok((o1, o2, o3))),
{
    let ps = (first, second, third);
    let r = Ok::<(O1, O2, O3), ErrMode<E>>((o1, o2, o3));
    let fresh = RoundSoFar::<E>::fresh();
    let all = (Some(o1), Some(o2), Some(o3));
    assert(perm3_end(ps, all, c4, fresh, c4, r));
    assert(perm3_from_2(ps, all, c4, fresh, c4, r));
    assert(perm3_from_1(ps, all, c4, fresh, c4, r));
    assert(perm3_from_0(ps, all, c4, fresh, c4, r));
    assert(stops_with(c4, o2));
    let got3 = (Some(o1), None::<O2>, Some(o3));
    assert(perm3_from_1(ps, got3, c3, fresh, c4, r));
    assert(perm3_from_0(ps, got3, c3, fresh, c4, r));
    assert(stops_with(c3, o1));
    let got2 = (None::<O1>, None::<O2>, Some(o3));
    assert(perm3_from_0(ps, got2, c2, fresh, c4, r));
    assert(stops_with(c2, o3));
    let got1 = (None::<O1>, None::<O2>, None::<O3>);
    assert(perm3_from_2(ps, got1, c1, fresh.note(soft11).note(soft12), c4, r));
    assert(stops_with(stop12, soft12));
    assert(perm3_from_1(ps, got1, c1, fresh.note(soft11), c4, r));
    assert(stops_with(stop11, soft11));
    assert(perm3_from_0(ps, got1, c1, fresh, c4, r));
}

/// A permutation of three yields its outputs in the order of the list: the
/// third, then the second, then the first parser matching, each where the one before it
/// stopped, and each parser that stands earlier in the list and has not
/// matched yet failing softly where a later one matches.
pub proof fn lemma_permutation_order_321<
    I: Stream,
    O1,
    O2,
    O3,
    E: ParseError<I>,
    A1: Parser<I,
    O1,
    E>,
    A2: Parser<I,
    O2,
    E>,
    A3: Parser<I,
    O3,
    E>,
>(
    first: A1,
    second: A2,
    third: A3,
    c1: I,
    c2: I,
    c3: I,
    c4: I,
    o1: O1,
    o2: O2,
    o3: O3,
    stop11: I,
    soft11: ErrMode<E>,
    stop12: I,
    soft12: ErrMode<E>,
    stop21: I,
    soft21: ErrMode<E>,
)
    requires
        first.parses(c1, stop11, Err(soft11)),
        !(soft11 is Cut),
        second.parses(c1, stop12, Err(soft12)),
        !(soft12 is Cut),
        third.parses(c1, c2, Ok(o3)),
        first.parses(c2, stop21, Err(soft21)),
        !(soft21 is Cut),
        second.parses(c2, c3, Ok(o2)),
        first.parses(c3, c4, Ok(o1)),
    ensures
        Permuted::of((first, second, third)).parses(c1, c4, Ok((o1, o2, o3))),
{
    let ps = (first, second, third);
    let r = Ok::<(O1, O2, O3), ErrMode<E>>((o1, o2, o3));
    let fresh = RoundSoFar::<E>::fresh();
    let all = (Some(o1), Some(o2), Some(o3));
    assert(perm3_end(ps, all, c4, fresh, c4, r));
    assert(perm3_from_2(ps, all, c4, fresh, c4, r));
    assert(perm3_from_1(ps, all, c4, fresh, c4, r));
    assert(perm3_from_0(ps, all, c4, fresh, c4, r));
    assert(stops_with(c4, o1));
    let got3 = (None::<O1>, Some(o2), Some(o3));
    assert(perm3_from_0(ps, got3, c3, fresh, c4, r));
    assert(stops_with(c3, o2));
    let got2 = (None::<O1>, None::<O2>, Some(o3));
    assert(perm3_from_1(ps, got2, c2, fresh.note(soft21), c4, r));
    assert(stops_with(stop21, soft21));
    assert(perm3_from_0(ps, got2, c2, fresh, c4, r));
    assert(stops_with(c2, o3));
    let got1 = (None::<O1>, None::<O2>, None::<O3>);
    assert(perm3_from_2(ps, got1, c1, fresh.note(soft11).note(soft12), c4, r));
    assert(stops_with(stop12, soft12));
    assert(perm3_from_1(ps, got1, c1, fresh.note(soft11), c4, r));
    assert(stops_with(stop11, soft11));
    assert(perm3_from_0(ps, got1, c1, fresh, c4, r));
}

} // verus!
