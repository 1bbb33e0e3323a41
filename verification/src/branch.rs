//! Choice: ordered alternation and unordered permutation.
use vstd::prelude::*;
use crate::error::{ErrMode, ErrorKind, Needed, PResult, ParseError};
use crate::parser::{stops_with, Parser};

verus! {

/// Started at `before`, `p` may fail recoverably.
pub open spec fn backtracks<I, O, E, P: Parser<I, O, E>>(p: P, before: I) -> bool {
    exists|stop: I, e: E| #[trigger]
        stops_with(stop, e) && p.parses(before, stop, Err(ErrMode::Backtrack(e)))
}

/// The outcome is anything but a recoverable failure.
pub open spec fn decided<O, E>(r: PResult<O, E>) -> bool {
    !(r matches Err(ErrMode::Backtrack(_)))
}

/// Started at `at`, `p` may fail softly: recoverably, or by asking for more
/// input.
pub open spec fn fails_softly<I, O, E, P: Parser<I, O, E>>(p: P, at: I) -> bool {
    exists|stop: I, soft: ErrMode<E>| #[trigger]
        stops_with(stop, soft) && !(soft is Cut) && p.parses(at, stop, Err(soft))
}

/// What a list of alternatives does where `p` is tried first and `rest` says
/// whether the alternatives after it may give the outcome.
///
/// Whatever `p` yields other than a recoverable failure is the outcome. Where
/// `p` fails recoverably, the alternatives after it are tried, from the same
/// cursor `before`.
pub open spec fn alt_more<I, O, E, P: Parser<I, O, E>>(
    p: P,
    rest: bool,
    before: I,
    after: I,
    r: PResult<O, E>,
) -> bool {
    ||| !(r matches Err(ErrMode::Backtrack(_))) && p.parses(before, after, r)
    ||| backtracks(p, before) && rest
}

/// What a list of alternatives does when only its last one, `p`, is left.
///
/// Whatever `p` yields other than a recoverable failure is the outcome. Where
/// `p` fails recoverably, so does the list: the cursor goes back to `before`,
/// and the error is that of `p` with the frame (`before`,
/// [`ErrorKind::Alt`]) added.
pub open spec fn alt_last<I, O, E: ParseError<I>, P: Parser<I, O, E>>(
    p: P,
    before: I,
    after: I,
    r: PResult<O, E>,
) -> bool {
    match r {
        Err(ErrMode::Backtrack(e)) => after == before && exists|stop: I, last: E| #[trigger]
            stops_with(stop, last) && p.parses(before, stop, Err(ErrMode::Backtrack(last)))
                && e.appended_to(last, before, ErrorKind::Alt),
        _ => p.parses(before, after, r),
    }
}

/// A list of parsers to pick from, tried in order from the same cursor.
pub trait Alt<I, O, E>: Sized {
    /// What must hold of the list before it is used.
    spec fn alt_wf(&self) -> bool;

    /// Started at `before`, the list may stop at `after` with the outcome `r`.
    spec fn chooses(&self, before: I, after: I, r: PResult<O, E>) -> bool;

    /// Tries each parser in turn until one does not fail recoverably.
    fn choice(&mut self, input: &mut I) -> (r: PResult<O, E>)
        requires
            old(self).alt_wf(),
        ensures
            *final(self) == *old(self),
            old(self).chooses(*old(input), *final(input), r),
    ;
}

/// The parser that picks the first alternative that does not fail
/// recoverably.
pub struct Alternatives<List> {
    pub list: List,
}

impl<List> Alternatives<List> {
    /// The ordered choice between the parsers in `list`.
    pub open spec fn of(list: List) -> Self {
        Alternatives { list }
    }
}

/// Ordered choice between the parsers in `list`.
///
/// Each alternative is tried at the cursor where the choice started. The
/// first success, unrecoverable failure or request for more input is the
/// outcome, and no later alternative is tried. Where all fail recoverably,
/// the choice fails recoverably, the cursor unmoved, with the last
/// alternative's error under a frame of kind [`ErrorKind::Alt`].
///
/// A list is a tuple of 2 to 21 parsers with the same output.
pub fn alt<List>(list: List) -> (p: Alternatives<List>)
    ensures
        p == Alternatives::of(list),
{
    Alternatives { list }
}

impl<I, O, E, List: Alt<I, O, E>> Parser<I, O, E> for Alternatives<List> {
    open spec fn wf(&self) -> bool {
        self.list.alt_wf()
    }

    open spec fn parses(&self, before: I, after: I, r: PResult<O, E>) -> bool {
        self.list.chooses(before, after, r)
    }

    fn parse_next(&mut self, input: &mut I) -> (r: PResult<O, E>) {
        self.list.choice(input)
    }
}

/// What a round of a permutation has noted so far of the parsers that did not
/// match: the first request for more input, and the error of the last
/// recoverable failure.
pub struct RoundSoFar<E> {
    pub need: Option<Needed>,
    pub err: Option<E>,
}

impl<E> RoundSoFar<E> {
    /// Nothing noted yet.
    pub open spec fn fresh() -> Self {
        RoundSoFar { need: None, err: None }
    }

    /// The notes with the failure `soft` of one more parser added: a request
    /// for more input is kept if it is the first, the error of a failure
    /// replaces the one noted before.
    pub open spec fn note(self, soft: ErrMode<E>) -> Self {
        match soft {
            ErrMode::Incomplete(n) => RoundSoFar {
                need: if self.need is None {
                    Some(n)
                } else {
                    self.need
                },
                err: self.err,
            },
            ErrMode::Backtrack(e) => RoundSoFar { need: self.need, err: Some(e) },
            ErrMode::Cut(e) => self,
        }
    }
}

/// A list of parsers that must each match once, in any order.
pub trait Permutation<I, O, E>: Sized {
    /// What must hold of the list before it is used.
    spec fn perm_wf(&self) -> bool;

    /// Started at `before`, the list may stop at `after` with the outcome `r`.
    spec fn permutes(&self, before: I, after: I, r: PResult<O, E>) -> bool;

    /// Matches every parser of the list once, in the order in which the input
    /// has them, and yields the outputs in the order of the list.
    fn permutation(&mut self, input: &mut I) -> (r: PResult<O, E>)
        requires
            old(self).perm_wf(),
        ensures
            *final(self) == *old(self),
            old(self).permutes(*old(input), *final(input), r),
    ;
}

/// The parser that matches each parser of a list once, in any order.
pub struct Permuted<List> {
    pub list: List,
}

impl<List> Permuted<List> {
    /// The permutation of the parsers in `list`.
    pub open spec fn of(list: List) -> Self {
        Permuted { list }
    }
}

/// Unordered choice: the parsers in `list` must each match exactly once, one
/// after the other, in whatever order the input has them. The outputs come
/// back in the order of `list`.
///
/// Parsing goes in rounds. In each round every parser that has not matched
/// yet is tried where the round started, in the order of `list`, until one
/// succeeds; the next round starts where it stopped. A round in which none
/// succeeds ends the permutation: with the first request for more input of
/// the round if there was one, else with a recoverable failure of kind
/// [`ErrorKind::Permutation`] around the last parser's error, the cursor back
/// where the round started. An unrecoverable failure ends it at once.
///
/// A list is a tuple of 2 to 8 parsers.
pub fn permutation<List>(list: List) -> (p: Permuted<List>)
    ensures
        p == Permuted::of(list),
{
    Permuted { list }
}

impl<I, O, E, List: Permutation<I, O, E>> Parser<I, O, E> for Permuted<List> {
    open spec fn wf(&self) -> bool {
        self.list.perm_wf()
    }

    open spec fn parses(&self, before: I, after: I, r: PResult<O, E>) -> bool {
        self.list.permutes(before, after, r)
    }

    fn parse_next(&mut self, input: &mut I) -> (r: PResult<O, E>) {
        self.list.permutation(input)
    }
}


} // verus!
