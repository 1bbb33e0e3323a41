//! Tuples of parsers as lists to permute.
//!
//! For each length of tuple there is one relation for a round from each of
//! its parsers on, and one for the end of a round.
use vstd::prelude::*;
use crate::branch::{fails_softly, Permutation, Permuted, RoundSoFar};
use crate::error::{ErrMode, ErrorKind, Needed, PResult, ParseError};
use crate::parser::{stops_with, Parser};
use crate::stream::Stream;

verus! {

/// How many of the 2 parsers have not matched yet.
pub open spec fn perm2_pending<O1, O2>(got: (Option<O1>, Option<O2>)) -> nat {
    (if got.0 is None {
        1nat
    } else {
        0nat
    }) +
        (if got.1 is None {
            1nat
        } else {
            0nat
        })
}

/// What a permutation of 2 parsers does in one round and in the rounds
/// after it.
///
/// The round starts with the cursor at `at`; `got` holds the outputs of the
/// parsers that matched in earlier rounds. Each parser that has not matched
/// yet is tried at `at`, in the order of the tuple. The first that succeeds
/// ends the round: its output is kept and the next round starts where it
/// stopped. An unrecoverable failure is the outcome at once. A recoverable
/// failure or a request for more input is noted in `acc`, and the next
/// parser is tried. This function speaks of the round from its first parser
/// on; the functions after it speak of the round from a later parser on.
pub open spec fn perm2_from_0<I, O1, O2, E, A1, A2>(
    ps: (A1, A2),
    got: (Option<O1>, Option<O2>),
    at: I,
    acc: RoundSoFar<E>,
    after: I,
    r: PResult<(O1, O2), E>,
) -> bool where
    I: Stream,
    E: ParseError<I>,
    A1: Parser<I, O1, E>,
    A2: Parser<I, O2, E>,

    decreases perm2_pending(got), 2nat,
{
    if got.0 is Some {
        perm2_from_1(ps, got, at, acc, after, r)
    } else {
        ||| exists|next: I, o: O1| #[trigger]
            stops_with(next, o) && ps.0.parses(at, next, Ok(o)) && perm2_from_0(
                ps,
                (Some(o), got.1),
                next,
                RoundSoFar::fresh(),
                after,
                r,
            )
        ||| r matches Err(ErrMode::Cut(e)) && ps.0.parses(at, after, Err(ErrMode::Cut(e)))
        ||| exists|stop: I, soft: ErrMode<E>| #[trigger]
            stops_with(stop, soft) && !(soft is Cut) && ps.0.parses(at, stop, Err(soft))
                && perm2_from_1(ps, got, at, acc.note(soft), after, r)
    }
}

/// The rest of a round of a permutation of 2 parsers, from parser 1 on.
pub open spec fn perm2_from_1<I, O1, O2, E, A1, A2>(
    ps: (A1, A2),
    got: (Option<O1>, Option<O2>),
    at: I,
    acc: RoundSoFar<E>,
    after: I,
    r: PResult<(O1, O2), E>,
) -> bool where
    I: Stream,
    E: ParseError<I>,
    A1: Parser<I, O1, E>,
    A2: Parser<I, O2, E>,

    decreases perm2_pending(got), 1nat,
{
    if got.1 is Some {
        perm2_end(ps, got, at, acc, after, r)
    } else {
        ||| exists|next: I, o: O2| #[trigger]
            stops_with(next, o) && ps.1.parses(at, next, Ok(o)) && perm2_from_0(
                ps,
                (got.0, Some(o)),
                next,
                RoundSoFar::fresh(),
                after,
                r,
            )
        ||| r matches Err(ErrMode::Cut(e)) && ps.1.parses(at, after, Err(ErrMode::Cut(e)))
        ||| exists|stop: I, soft: ErrMode<E>| #[trigger]
            stops_with(stop, soft) && !(soft is Cut) && ps.1.parses(at, stop, Err(soft))
                && perm2_end(ps, got, at, acc.note(soft), after, r)
    }
}

/// The end of a round of a permutation of 2 parsers in which no parser
/// succeeded or failed unrecoverably. The cursor goes back to `at`, where
/// the round started. If a parser asked for more input, the first such
/// request is the outcome. Else, if a parser failed, the outcome is a
/// recoverable failure: the last parser's error under a frame of kind
/// [`ErrorKind::Permutation`]. Else every parser has matched, and the
/// outputs are yielded in the order of the tuple.
pub open spec fn perm2_end<I, O1, O2, E, A1, A2>(
    ps: (A1, A2),
    got: (Option<O1>, Option<O2>),
    at: I,
    acc: RoundSoFar<E>,
    after: I,
    r: PResult<(O1, O2), E>,
) -> bool where
    I: Stream,
    E: ParseError<I>,
    A1: Parser<I, O1, E>,
    A2: Parser<I, O2, E>,

    decreases perm2_pending(got), 0nat,
{
    after == at && match acc.need {
        Some(n) => r == Err::<(O1, O2), ErrMode<E>>(ErrMode::Incomplete(n)),
        None => match acc.err {
            Some(last) => r matches Err(ErrMode::Backtrack(e)) && e.appended_to(
                last,
                at,
                ErrorKind::Permutation,
            ),
            None => {
                &&& got.0 is Some
                &&& got.1 is Some
                &&& r == Ok::<(O1, O2), ErrMode<E>>(
                    (got.0->Some_0, got.1->Some_0),
                )
            },
        },
    }
}

impl<I, O1, O2, E, A1, A2> Permutation<I, (O1, O2), E> for (A1, A2) where
    I: Stream,
    E: ParseError<I>,
    A1: Parser<I, O1, E>,
    A2: Parser<I, O2, E>,
 {
    open spec fn perm_wf(&self) -> bool {
        &&& self.0.wf()
        &&& self.1.wf()
    }

    open spec fn permutes(&self, before: I, after: I, r: PResult<(O1, O2), E>) -> bool {
        let none = (None::<O1>, None::<O2>);
        perm2_from_0(*self, none, before, RoundSoFar::fresh(), after, r)
    }

    fn permutation(&mut self, input: &mut I) -> (r: PResult<(O1, O2), E>) {
        let ghost me = *self;
        let ghost x0 = *input;
        let mut got: (Option<O1>, Option<O2>) = (None, None);
        loop
            invariant
                *self == me,
                *old(self) == me,
                *old(input) == x0,
                me.perm_wf(),
                forall|a: I, r: PResult<(O1, O2), E>| #[trigger]
                    perm2_from_0(me, got, *input, RoundSoFar::fresh(), a, r) ==> me.permutes(
                        x0,
                        a,
                        r,
                    ),
            decreases perm2_pending(got),
        {
            let start = input.checkpoint();
            let ghost at = *input;
            let ghost got0 = got;
            let mut need: Option<Needed> = None;
            let mut err: Option<E> = None;
            let ghost acc0 = RoundSoFar::<E>::fresh();
            let ghost mut stop0: I = at;
            let ghost mut soft0: ErrMode<E> = ErrMode::Incomplete(Needed { size: 0 });
            if got.0.is_none() {
                input.reset(start.checkpoint());
                match self.0.parse_next(input) {
                    Ok(o) => {
                        proof {
                            let next = *input;
                            let then = (Some(o), got0.1);
                            assert forall|a: I, r: PResult<(O1, O2), E>| #[trigger]
                                perm2_from_0(me, then, next, RoundSoFar::fresh(), a, r)
                            implies me.permutes(x0, a, r) by {
                                assert(stops_with(next, o));
                                assert(perm2_from_0(me, got0, at, acc0, a, r));
                            }
                        }
                        got.0 = Some(o);
                        continue ;
                    },
                    Err(ErrMode::Cut(e)) => {
                        proof {
                            let r = Err::<(O1, O2), ErrMode<E>>(ErrMode::Cut(e));
                            assert(perm2_from_0(me, got0, at, acc0, *input, r));
                        }
                        return Err(ErrMode::Cut(e));
                    },
                    Err(ErrMode::Backtrack(e)) => {
                        proof {
                            stop0 = *input;
                            soft0 = ErrMode::Backtrack(e);
                        }
                        err = Some(
                            match err {
                                Some(earlier) => earlier.or(e),
                                None => e,
                            },
                        );
                    },
                    Err(ErrMode::Incomplete(n)) => {
                        proof {
                            stop0 = *input;
                            soft0 = ErrMode::Incomplete(n);
                        }
                        if need.is_none() {
                            need = Some(n);
                        }
                    },
                }
            }
            let ghost acc1 = RoundSoFar { need, err };
            assert(got == got0);
            assert(got0.0 is Some ==> acc1 == acc0);
            assert(got0.0 is None ==> acc1 == acc0.note(soft0) && !(soft0 is Cut));
            assert(got0.0 is None ==> me.0.parses(at, stop0, Err(soft0)));
            let ghost mut stop1: I = at;
            let ghost mut soft1: ErrMode<E> = ErrMode::Incomplete(Needed { size: 0 });
            if got.1.is_none() {
                input.reset(start.checkpoint());
                match self.1.parse_next(input) {
                    Ok(o) => {
                        proof {
                            let next = *input;
                            let then = (got0.0, Some(o));
                            assert forall|a: I, r: PResult<(O1, O2), E>| #[trigger]
                                perm2_from_0(me, then, next, RoundSoFar::fresh(), a, r)
                            implies me.permutes(x0, a, r) by {
                                assert(stops_with(next, o));
                                assert(perm2_from_1(me, got0, at, acc1, a, r));
                                assert(stops_with(stop0, soft0));
                                assert(perm2_from_0(me, got0, at, acc0, a, r));
                            }
                        }
                        got.1 = Some(o);
                        continue ;
                    },
                    Err(ErrMode::Cut(e)) => {
                        proof {
                            let r = Err::<(O1, O2), ErrMode<E>>(ErrMode::Cut(e));
                            assert(perm2_from_1(me, got0, at, acc1, *input, r));
                            assert(stops_with(stop0, soft0));
                            assert(perm2_from_0(me, got0, at, acc0, *input, r));
                        }
                        return Err(ErrMode::Cut(e));
                    },
                    Err(ErrMode::Backtrack(e)) => {
                        proof {
                            stop1 = *input;
                            soft1 = ErrMode::Backtrack(e);
                        }
                        err = Some(
                            match err {
                                Some(earlier) => earlier.or(e),
                                None => e,
                            },
                        );
                    },
                    Err(ErrMode::Incomplete(n)) => {
                        proof {
                            stop1 = *input;
                            soft1 = ErrMode::Incomplete(n);
                        }
                        if need.is_none() {
                            need = Some(n);
                        }
                    },
                }
            }
            let ghost acc2 = RoundSoFar { need, err };
            assert(got == got0);
            assert(got0.1 is Some ==> acc2 == acc1);
            assert(got0.1 is None ==> acc2 == acc1.note(soft1) && !(soft1 is Cut));
            assert(got0.1 is None ==> me.1.parses(at, stop1, Err(soft1)));
            input.reset(start);
            let r = match need {
                Some(n) => Err(ErrMode::Incomplete(n)),
                None => match err {
                    Some(e) => Err(ErrMode::Backtrack(e.append(&*input, ErrorKind::Permutation))),
                    None => match got {
                        (Some(o1), Some(o2)) => Ok((o1, o2)),
                        _ => {
                            proof {
                                assert(got0.0 is Some);
                                assert(got0.1 is Some);
                            }
                            vstd::pervasive::unreached()
                        },
                    },
                },
            };
            proof {
                assert(perm2_end(me, got0, at, acc2, *input, r));
                assert(stops_with(stop1, soft1));
                assert(perm2_from_1(me, got0, at, acc1, *input, r));
                assert(stops_with(stop0, soft0));
                assert(perm2_from_0(me, got0, at, acc0, *input, r));
            }
            return r;
        }
    }
}

/// How many of the 3 parsers have not matched yet.
pub open spec fn perm3_pending<O1, O2, O3>(got: (Option<O1>, Option<O2>, Option<O3>)) -> nat {
    (if got.0 is None {
        1nat
    } else {
        0nat
    }) +
        (if got.1 is None {
            1nat
        } else {
            0nat
        }) +
        (if got.2 is None {
            1nat
        } else {
            0nat
        })
}

/// What a permutation of 3 parsers does in one round and in the rounds
/// after it.
///
/// The round starts with the cursor at `at`; `got` holds the outputs of the
/// parsers that matched in earlier rounds. Each parser that has not matched
/// yet is tried at `at`, in the order of the tuple. The first that succeeds
/// ends the round: its output is kept and the next round starts where it
/// stopped. An unrecoverable failure is the outcome at once. A recoverable
/// failure or a request for more input is noted in `acc`, and the next
/// parser is tried. This function speaks of the round from its first parser
/// on; the functions after it speak of the round from a later parser on.
pub open spec fn perm3_from_0<I, O1, O2, O3, E, A1, A2, A3>(
    ps: (A1, A2, A3),
    got: (Option<O1>, Option<O2>, Option<O3>),
    at: I,
    acc: RoundSoFar<E>,
    after: I,
    r: PResult<(O1, O2, O3), E>,
) -> bool where
    I: Stream,
    E: ParseError<I>,
    A1: Parser<I, O1, E>,
    A2: Parser<I, O2, E>,
    A3: Parser<I, O3, E>,

    decreases perm3_pending(got), 3nat,
{
    if got.0 is Some {
        perm3_from_1(ps, got, at, acc, after, r)
    } else {
        ||| exists|next: I, o: O1| #[trigger]
            stops_with(next, o) && ps.0.parses(at, next, Ok(o)) && perm3_from_0(
                ps,
                (Some(o), got.1, got.2),
                next,
                RoundSoFar::fresh(),
                after,
                r,
            )
        ||| r matches Err(ErrMode::Cut(e)) && ps.0.parses(at, after, Err(ErrMode::Cut(e)))
        ||| exists|stop: I, soft: ErrMode<E>| #[trigger]
            stops_with(stop, soft) && !(soft is Cut) && ps.0.parses(at, stop, Err(soft))
                && perm3_from_1(ps, got, at, acc.note(soft), after, r)
    }
}

/// The rest of a round of a permutation of 3 parsers, from parser 1 on.
pub open spec fn perm3_from_1<I, O1, O2, O3, E, A1, A2, A3>(
    ps: (A1, A2, A3),
    got: (Option<O1>, Option<O2>, Option<O3>),
    at: I,
    acc: RoundSoFar<E>,
    after: I,
    r: PResult<(O1, O2, O3), E>,
) -> bool where
    I: Stream,
    E: ParseError<I>,
    A1: Parser<I, O1, E>,
    A2: Parser<I, O2, E>,
    A3: Parser<I, O3, E>,

    decreases perm3_pending(got), 2nat,
{
    if got.1 is Some {
        perm3_from_2(ps, got, at, acc, after, r)
    } else {
        ||| exists|next: I, o: O2| #[trigger]
            stops_with(next, o) && ps.1.parses(at, next, Ok(o)) && perm3_from_0(
                ps,
                (got.0, Some(o), got.2),
                next,
                RoundSoFar::fresh(),
                after,
                r,
            )
        ||| r matches Err(ErrMode::Cut(e)) && ps.1.parses(at, after, Err(ErrMode::Cut(e)))
        ||| exists|stop: I, soft: ErrMode<E>| #[trigger]
            stops_with(stop, soft) && !(soft is Cut) && ps.1.parses(at, stop, Err(soft))
                && perm3_from_2(ps, got, at, acc.note(soft), after, r)
    }
}

/// The rest of a round of a permutation of 3 parsers, from parser 2 on.
pub open spec fn perm3_from_2<I, O1, O2, O3, E, A1, A2, A3>(
    ps: (A1, A2, A3),
    got: (Option<O1>, Option<O2>, Option<O3>),
    at: I,
    acc: RoundSoFar<E>,
    after: I,
    r: PResult<(O1, O2, O3), E>,
) -> bool where
    I: Stream,
    E: ParseError<I>,
    A1: Parser<I, O1, E>,
    A2: Parser<I, O2, E>,
    A3: Parser<I, O3, E>,

    decreases perm3_pending(got), 1nat,
{
    if got.2 is Some {
        perm3_end(ps, got, at, acc, after, r)
    } else {
        ||| exists|next: I, o: O3| #[trigger]
            stops_with(next, o) && ps.2.parses(at, next, Ok(o)) && perm3_from_0(
                ps,
                (got.0, got.1, Some(o)),
                next,
                RoundSoFar::fresh(),
                after,
                r,
            )
        ||| r matches Err(ErrMode::Cut(e)) && ps.2.parses(at, after, Err(ErrMode::Cut(e)))
        ||| exists|stop: I, soft: ErrMode<E>| #[trigger]
            stops_with(stop, soft) && !(soft is Cut) && ps.2.parses(at, stop, Err(soft))
                && perm3_end(ps, got, at, acc.note(soft), after, r)
    }
}

/// The end of a round of a permutation of 3 parsers in which no parser
/// succeeded or failed unrecoverably. The cursor goes back to `at`, where
/// the round started. If a parser asked for more input, the first such
/// request is the outcome. Else, if a parser failed, the outcome is a
/// recoverable failure: the last parser's error under a frame of kind
/// [`ErrorKind::Permutation`]. Else every parser has matched, and the
/// outputs are yielded in the order of the tuple.
pub open spec fn perm3_end<I, O1, O2, O3, E, A1, A2, A3>(
    ps: (A1, A2, A3),
    got: (Option<O1>, Option<O2>, Option<O3>),
    at: I,
    acc: RoundSoFar<E>,
    after: I,
    r: PResult<(O1, O2, O3), E>,
) -> bool where
    I: Stream,
    E: ParseError<I>,
    A1: Parser<I, O1, E>,
    A2: Parser<I, O2, E>,
    A3: Parser<I, O3, E>,

    decreases perm3_pending(got), 0nat,
{
    after == at && match acc.need {
        Some(n) => r == Err::<(O1, O2, O3), ErrMode<E>>(ErrMode::Incomplete(n)),
        None => match acc.err {
            Some(last) => r matches Err(ErrMode::Backtrack(e)) && e.appended_to(
                last,
                at,
                ErrorKind::Permutation,
            ),
            None => {
                &&& got.0 is Some
                &&& got.1 is Some
                &&& got.2 is Some
                &&& r == Ok::<(O1, O2, O3), ErrMode<E>>(
                    (got.0->Some_0, got.1->Some_0, got.2->Some_0),
                )
            },
        },
    }
}

impl<I, O1, O2, O3, E, A1, A2, A3> Permutation<I, (O1, O2, O3), E> for (A1, A2, A3) where
    I: Stream,
    E: ParseError<I>,
    A1: Parser<I, O1, E>,
    A2: Parser<I, O2, E>,
    A3: Parser<I, O3, E>,
 {
    open spec fn perm_wf(&self) -> bool {
        &&& self.0.wf()
        &&& self.1.wf()
        &&& self.2.wf()
    }

    open spec fn permutes(&self, before: I, after: I, r: PResult<(O1, O2, O3), E>) -> bool {
        let none = (None::<O1>, None::<O2>, None::<O3>);
        perm3_from_0(*self, none, before, RoundSoFar::fresh(), after, r)
    }

    fn permutation(&mut self, input: &mut I) -> (r: PResult<(O1, O2, O3), E>) {
        let ghost me = *self;
        let ghost x0 = *input;
        let mut got: (Option<O1>, Option<O2>, Option<O3>) = (None, None, None);
        loop
            invariant
                *self == me,
                *old(self) == me,
                *old(input) == x0,
                me.perm_wf(),
                forall|a: I, r: PResult<(O1, O2, O3), E>| #[trigger]
                    perm3_from_0(me, got, *input, RoundSoFar::fresh(), a, r) ==> me.permutes(
                        x0,
                        a,
                        r,
                    ),
            decreases perm3_pending(got),
        {
            let start = input.checkpoint();
            let ghost at = *input;
            let ghost got0 = got;
            let mut need: Option<Needed> = None;
            let mut err: Option<E> = None;
            let ghost acc0 = RoundSoFar::<E>::fresh();
            let ghost mut stop0: I = at;
            let ghost mut soft0: ErrMode<E> = ErrMode::Incomplete(Needed { size: 0 });
            if got.0.is_none() {
                input.reset(start.checkpoint());
                match self.0.parse_next(input) {
                    Ok(o) => {
                        proof {
                            let next = *input;
                            let then = (Some(o), got0.1, got0.2);
                            assert forall|a: I, r: PResult<(O1, O2, O3), E>| #[trigger]
                                perm3_from_0(me, then, next, RoundSoFar::fresh(), a, r)
                            implies me.permutes(x0, a, r) by {
                                assert(stops_with(next, o));
                                assert(perm3_from_0(me, got0, at, acc0, a, r));
                            }
                        }
                        got.0 = Some(o);
                        continue ;
                    },
                    Err(ErrMode::Cut(e)) => {
                        proof {
                            let r = Err::<(O1, O2, O3), ErrMode<E>>(ErrMode::Cut(e));
                            assert(perm3_from_0(me, got0, at, acc0, *input, r));
                        }
                        return Err(ErrMode::Cut(e));
                    },
                    Err(ErrMode::Backtrack(e)) => {
                        proof {
                            stop0 = *input;
                            soft0 = ErrMode::Backtrack(e);
                        }
                        err = Some(
                            match err {
                                Some(earlier) => earlier.or(e),
                                None => e,
                            },
                        );
                    },
                    Err(ErrMode::Incomplete(n)) => {
                        proof {
                            stop0 = *input;
                            soft0 = ErrMode::Incomplete(n);
                        }
                        if need.is_none() {
                            need = Some(n);
                        }
                    },
                }
            }
            let ghost acc1 = RoundSoFar { need, err };
            assert(got == got0);
            assert(got0.0 is Some ==> acc1 == acc0);
            assert(got0.0 is None ==> acc1 == acc0.note(soft0) && !(soft0 is Cut));
            assert(got0.0 is None ==> me.0.parses(at, stop0, Err(soft0)));
            let ghost mut stop1: I = at;
            let ghost mut soft1: ErrMode<E> = ErrMode::Incomplete(Needed { size: 0 });
            if got.1.is_none() {
                input.reset(start.checkpoint());
                match self.1.parse_next(input) {
                    Ok(o) => {
                        proof {
                            let next = *input;
                            let then = (got0.0, Some(o), got0.2);
                            assert forall|a: I, r: PResult<(O1, O2, O3), E>| #[trigger]
                                perm3_from_0(me, then, next, RoundSoFar::fresh(), a, r)
                            implies me.permutes(x0, a, r) by {
                                assert(stops_with(next, o));
                                assert(perm3_from_1(me, got0, at, acc1, a, r));
                                assert(stops_with(stop0, soft0));
                                assert(perm3_from_0(me, got0, at, acc0, a, r));
                            }
                        }
                        got.1 = Some(o);
                        continue ;
                    },
                    Err(ErrMode::Cut(e)) => {
                        proof {
                            let r = Err::<(O1, O2, O3), ErrMode<E>>(ErrMode::Cut(e));
                            assert(perm3_from_1(me, got0, at, acc1, *input, r));
                            assert(stops_with(stop0, soft0));
                            assert(perm3_from_0(me, got0, at, acc0, *input, r));
                        }
                        return Err(ErrMode::Cut(e));
                    },
                    Err(ErrMode::Backtrack(e)) => {
                        proof {
                            stop1 = *input;
                            soft1 = ErrMode::Backtrack(e);
                        }
                        err = Some(
                            match err {
                                Some(earlier) => earlier.or(e),
                                None => e,
                            },
                        );
                    },
                    Err(ErrMode::Incomplete(n)) => {
                        proof {
                            stop1 = *input;
                            soft1 = ErrMode::Incomplete(n);
                        }
                        if need.is_none() {
                            need = Some(n);
                        }
                    },
                }
            }
            let ghost acc2 = RoundSoFar { need, err };
            assert(got == got0);
            assert(got0.1 is Some ==> acc2 == acc1);
            assert(got0.1 is None ==> acc2 == acc1.note(soft1) && !(soft1 is Cut));
            assert(got0.1 is None ==> me.1.parses(at, stop1, Err(soft1)));
            let ghost mut stop2: I = at;
            let ghost mut soft2: ErrMode<E> = ErrMode::Incomplete(Needed { size: 0 });
            if got.2.is_none() {
                input.reset(start.checkpoint());
                match self.2.parse_next(input) {
                    Ok(o) => {
                        proof {
                            let next = *input;
                            let then = (got0.0, got0.1, Some(o));
                            assert forall|a: I, r: PResult<(O1, O2, O3), E>| #[trigger]
                                perm3_from_0(me, then, next, RoundSoFar::fresh(), a, r)
                            implies me.permutes(x0, a, r) by {
                                assert(stops_with(next, o));
                                assert(perm3_from_2(me, got0, at, acc2, a, r));
                                assert(stops_with(stop1, soft1));
                                assert(perm3_from_1(me, got0, at, acc1, a, r));
                                assert(stops_with(stop0, soft0));
                                assert(perm3_from_0(me, got0, at, acc0, a, r));
                            }
                        }
                        got.2 = Some(o);
                        continue ;
                    },
                    Err(ErrMode::Cut(e)) => {
                        proof {
                            let r = Err::<(O1, O2, O3), ErrMode<E>>(ErrMode::Cut(e));
                            assert(perm3_from_2(me, got0, at, acc2, *input, r));
                            assert(stops_with(stop1, soft1));
                            assert(perm3_from_1(me, got0, at, acc1, *input, r));
                            assert(stops_with(stop0, soft0));
                            assert(perm3_from_0(me, got0, at, acc0, *input, r));
                        }
                        return Err(ErrMode::Cut(e));
                    },
                    Err(ErrMode::Backtrack(e)) => {
                        proof {
                            stop2 = *input;
                            soft2 = ErrMode::Backtrack(e);
                        }
                        err = Some(
                            match err {
                                Some(earlier) => earlier.or(e),
                                None => e,
                            },
                        );
                    },
                    Err(ErrMode::Incomplete(n)) => {
                        proof {
                            stop2 = *input;
                            soft2 = ErrMode::Incomplete(n);
                        }
                        if need.is_none() {
                            need = Some(n);
                        }
                    },
                }
            }
            let ghost acc3 = RoundSoFar { need, err };
            assert(got == got0);
            assert(got0.2 is Some ==> acc3 == acc2);
            assert(got0.2 is None ==> acc3 == acc2.note(soft2) && !(soft2 is Cut));
            assert(got0.2 is None ==> me.2.parses(at, stop2, Err(soft2)));
            input.reset(start);
            let r = match need {
                Some(n) => Err(ErrMode::Incomplete(n)),
                None => match err {
                    Some(e) => Err(ErrMode::Backtrack(e.append(&*input, ErrorKind::Permutation))),
                    None => match got {
                        (Some(o1), Some(o2), Some(o3)) => Ok((o1, o2, o3)),
                        _ => {
                            proof {
                                assert(got0.0 is Some);
                                assert(got0.1 is Some);
                                assert(got0.2 is Some);
                            }
                            vstd::pervasive::unreached()
                        },
                    },
                },
            };
            proof {
                assert(perm3_end(me, got0, at, acc3, *input, r));
                assert(stops_with(stop2, soft2));
                assert(perm3_from_2(me, got0, at, acc2, *input, r));
                assert(stops_with(stop1, soft1));
                assert(perm3_from_1(me, got0, at, acc1, *input, r));
                assert(stops_with(stop0, soft0));
                assert(perm3_from_0(me, got0, at, acc0, *input, r));
            }
            return r;
        }
    }
}

/// How many of the 4 parsers have not matched yet.
pub open spec fn perm4_pending<O1, O2, O3, O4>(
    got: (Option<O1>, Option<O2>, Option<O3>, Option<O4>),
) -> nat {
    (if got.0 is None {
        1nat
    } else {
        0nat
    }) +
        (if got.1 is None {
            1nat
        } else {
            0nat
        }) +
        (if got.2 is None {
            1nat
        } else {
            0nat
        }) +
        (if got.3 is None {
            1nat
        } else {
            0nat
        })
}

/// What a permutation of 4 parsers does in one round and in the rounds
/// after it.
///
/// The round starts with the cursor at `at`; `got` holds the outputs of the
/// parsers that matched in earlier rounds. Each parser that has not matched
/// yet is tried at `at`, in the order of the tuple. The first that succeeds
/// ends the round: its output is kept and the next round starts where it
/// stopped. An unrecoverable failure is the outcome at once. A recoverable
/// failure or a request for more input is noted in `acc`, and the next
/// parser is tried. This function speaks of the round from its first parser
/// on; the functions after it speak of the round from a later parser on.
pub open spec fn perm4_from_0<I, O1, O2, O3, O4, E, A1, A2, A3, A4>(
    ps: (A1, A2, A3, A4),
    got: (Option<O1>, Option<O2>, Option<O3>, Option<O4>),
    at: I,
    acc: RoundSoFar<E>,
    after: I,
    r: PResult<(O1, O2, O3, O4), E>,
) -> bool where
    I: Stream,
    E: ParseError<I>,
    A1: Parser<I, O1, E>,
    A2: Parser<I, O2, E>,
    A3: Parser<I, O3, E>,
    A4: Parser<I, O4, E>,

    decreases perm4_pending(got), 4nat,
{
    if got.0 is Some {
        perm4_from_1(ps, got, at, acc, after, r)
    } else {
        ||| exists|next: I, o: O1| #[trigger]
            stops_with(next, o) && ps.0.parses(at, next, Ok(o)) && perm4_from_0(
                ps,
                (Some(o), got.1, got.2, got.3),
                next,
                RoundSoFar::fresh(),
                after,
                r,
            )
        ||| r matches Err(ErrMode::Cut(e)) && ps.0.parses(at, after, Err(ErrMode::Cut(e)))
        ||| exists|stop: I, soft: ErrMode<E>| #[trigger]
            stops_with(stop, soft) && !(soft is Cut) && ps.0.parses(at, stop, Err(soft))
                && perm4_from_1(ps, got, at, acc.note(soft), after, r)
    }
}

/// The rest of a round of a permutation of 4 parsers, from parser 1 on.
pub open spec fn perm4_from_1<I, O1, O2, O3, O4, E, A1, A2, A3, A4>(
    ps: (A1, A2, A3, A4),
    got: (Option<O1>, Option<O2>, Option<O3>, Option<O4>),
    at: I,
    acc: RoundSoFar<E>,
    after: I,
    r: PResult<(O1, O2, O3, O4), E>,
) -> bool where
    I: Stream,
    E: ParseError<I>,
    A1: Parser<I, O1, E>,
    A2: Parser<I, O2, E>,
    A3: Parser<I, O3, E>,
    A4: Parser<I, O4, E>,

    decreases perm4_pending(got), 3nat,
{
    if got.1 is Some {
        perm4_from_2(ps, got, at, acc, after, r)
    } else {
        ||| exists|next: I, o: O2| #[trigger]
            stops_with(next, o) && ps.1.parses(at, next, Ok(o)) && perm4_from_0(
                ps,
                (got.0, Some(o), got.2, got.3),
                next,
                RoundSoFar::fresh(),
                after,
                r,
            )
        ||| r matches Err(ErrMode::Cut(e)) && ps.1.parses(at, after, Err(ErrMode::Cut(e)))
        ||| exists|stop: I, soft: ErrMode<E>| #[trigger]
            stops_with(stop, soft) && !(soft is Cut) && ps.1.parses(at, stop, Err(soft))
                && perm4_from_2(ps, got, at, acc.note(soft), after, r)
    }
}

/// The rest of a round of a permutation of 4 parsers, from parser 2 on.
pub open spec fn perm4_from_2<I, O1, O2, O3, O4, E, A1, A2, A3, A4>(
    ps: (A1, A2, A3, A4),
    got: (Option<O1>, Option<O2>, Option<O3>, Option<O4>),
    at: I,
    acc: RoundSoFar<E>,
    after: I,
    r: PResult<(O1, O2, O3, O4), E>,
) -> bool where
    I: Stream,
    E: ParseError<I>,
    A1: Parser<I, O1, E>,
    A2: Parser<I, O2, E>,
    A3: Parser<I, O3, E>,
    A4: Parser<I, O4, E>,

    decreases perm4_pending(got), 2nat,
{
    if got.2 is Some {
        perm4_from_3(ps, got, at, acc, after, r)
    } else {
        ||| exists|next: I, o: O3| #[trigger]
            stops_with(next, o) && ps.2.parses(at, next, Ok(o)) && perm4_from_0(
                ps,
                (got.0, got.1, Some(o), got.3),
                next,
                RoundSoFar::fresh(),
                after,
                r,
            )
        ||| r matches Err(ErrMode::Cut(e)) && ps.2.parses(at, after, Err(ErrMode::Cut(e)))
        ||| exists|stop: I, soft: ErrMode<E>| #[trigger]
            stops_with(stop, soft) && !(soft is Cut) && ps.2.parses(at, stop, Err(soft))
                && perm4_from_3(ps, got, at, acc.note(soft), after, r)
    }
}

/// The rest of a round of a permutation of 4 parsers, from parser 3 on.
pub open spec fn perm4_from_3<I, O1, O2, O3, O4, E, A1, A2, A3, A4>(
    ps: (A1, A2, A3, A4),
    got: (Option<O1>, Option<O2>, Option<O3>, Option<O4>),
    at: I,
    acc: RoundSoFar<E>,
    after: I,
    r: PResult<(O1, O2, O3, O4), E>,
) -> bool where
    I: Stream,
    E: ParseError<I>,
    A1: Parser<I, O1, E>,
    A2: Parser<I, O2, E>,
    A3: Parser<I, O3, E>,
    A4: Parser<I, O4, E>,

    decreases perm4_pending(got), 1nat,
{
    if got.3 is Some {
        perm4_end(ps, got, at, acc, after, r)
    } else {
        ||| exists|next: I, o: O4| #[trigger]
            stops_with(next, o) && ps.3.parses(at, next, Ok(o)) && perm4_from_0(
                ps,
                (got.0, got.1, got.2, Some(o)),
                next,
                RoundSoFar::fresh(),
                after,
                r,
            )
        ||| r matches Err(ErrMode::Cut(e)) && ps.3.parses(at, after, Err(ErrMode::Cut(e)))
        ||| exists|stop: I, soft: ErrMode<E>| #[trigger]
            stops_with(stop, soft) && !(soft is Cut) && ps.3.parses(at, stop, Err(soft))
                && perm4_end(ps, got, at, acc.note(soft), after, r)
    }
}

/// The end of a round of a permutation of 4 parsers in which no parser
/// succeeded or failed unrecoverably. The cursor goes back to `at`, where
/// the round started. If a parser asked for more input, the first such
/// request is the outcome. Else, if a parser failed, the outcome is a
/// recoverable failure: the last parser's error under a frame of kind
/// [`ErrorKind::Permutation`]. Else every parser has matched, and the
/// outputs are yielded in the order of the tuple.
pub open spec fn perm4_end<I, O1, O2, O3, O4, E, A1, A2, A3, A4>(
    ps: (A1, A2, A3, A4),
    got: (Option<O1>, Option<O2>, Option<O3>, Option<O4>),
    at: I,
    acc: RoundSoFar<E>,
    after: I,
    r: PResult<(O1, O2, O3, O4), E>,
) -> bool where
    I: Stream,
    E: ParseError<I>,
    A1: Parser<I, O1, E>,
    A2: Parser<I, O2, E>,
    A3: Parser<I, O3, E>,
    A4: Parser<I, O4, E>,

    decreases perm4_pending(got), 0nat,
{
    after == at && match acc.need {
        Some(n) => r == Err::<(O1, O2, O3, O4), ErrMode<E>>(ErrMode::Incomplete(n)),
        None => match acc.err {
            Some(last) => r matches Err(ErrMode::Backtrack(e)) && e.appended_to(
                last,
                at,
                ErrorKind::Permutation,
            ),
            None => {
                &&& got.0 is Some
                &&& got.1 is Some
                &&& got.2 is Some
                &&& got.3 is Some
                &&& r == Ok::<(O1, O2, O3, O4), ErrMode<E>>(
                    (got.0->Some_0, got.1->Some_0, got.2->Some_0, got.3->Some_0),
                )
            },
        },
    }
}

impl<I, O1, O2, O3, O4, E, A1, A2, A3, A4> Permutation<
    I,
    (O1, O2, O3, O4),
    E,
> for (A1, A2, A3, A4) where
    I: Stream,
    E: ParseError<I>,
    A1: Parser<I, O1, E>,
    A2: Parser<I, O2, E>,
    A3: Parser<I, O3, E>,
    A4: Parser<I, O4, E>,
 {
    open spec fn perm_wf(&self) -> bool {
        &&& self.0.wf()
        &&& self.1.wf()
        &&& self.2.wf()
        &&& self.3.wf()
    }

    open spec fn permutes(&self, before: I, after: I, r: PResult<(O1, O2, O3, O4), E>) -> bool {
        let none = (None::<O1>, None::<O2>, None::<O3>, None::<O4>);
        perm4_from_0(*self, none, before, RoundSoFar::fresh(), after, r)
    }

    fn permutation(&mut self, input: &mut I) -> (r: PResult<(O1, O2, O3, O4), E>) {
        let ghost me = *self;
        let ghost x0 = *input;
        let mut got: (Option<O1>, Option<O2>, Option<O3>, Option<O4>) = (None, None, None, None);
        loop
            invariant
                *self == me,
                *old(self) == me,
                *old(input) == x0,
                me.perm_wf(),
                forall|a: I, r: PResult<(O1, O2, O3, O4), E>| #[trigger]
                    perm4_from_0(me, got, *input, RoundSoFar::fresh(), a, r) ==> me.permutes(
                        x0,
                        a,
                        r,
                    ),
            decreases perm4_pending(got),
        {
            let start = input.checkpoint();
            let ghost at = *input;
            let ghost got0 = got;
            let mut need: Option<Needed> = None;
            let mut err: Option<E> = None;
            let ghost acc0 = RoundSoFar::<E>::fresh();
            let ghost mut stop0: I = at;
            let ghost mut soft0: ErrMode<E> = ErrMode::Incomplete(Needed { size: 0 });
            if got.0.is_none() {
                input.reset(start.checkpoint());
                match self.0.parse_next(input) {
                    Ok(o) => {
                        proof {
                            let next = *input;
                            let then = (Some(o), got0.1, got0.2, got0.3);
                            assert forall|a: I, r: PResult<(O1, O2, O3, O4), E>| #[trigger]
                                perm4_from_0(me, then, next, RoundSoFar::fresh(), a, r)
                            implies me.permutes(x0, a, r) by {
                                assert(stops_with(next, o));
                                assert(perm4_from_0(me, got0, at, acc0, a, r));
                            }
                        }
                        got.0 = Some(o);
                        continue ;
                    },
                    Err(ErrMode::Cut(e)) => {
                        proof {
                            let r = Err::<(O1, O2, O3, O4), ErrMode<E>>(ErrMode::Cut(e));
                            assert(perm4_from_0(me, got0, at, acc0, *input, r));
                        }
                        return Err(ErrMode::Cut(e));
                    },
                    Err(ErrMode::Backtrack(e)) => {
                        proof {
                            stop0 = *input;
                            soft0 = ErrMode::Backtrack(e);
                        }
                        err = Some(
                            match err {
                                Some(earlier) => earlier.or(e),
                                None => e,
                            },
                        );
                    },
                    Err(ErrMode::Incomplete(n)) => {
                        proof {
                            stop0 = *input;
                            soft0 = ErrMode::Incomplete(n);
                        }
                        if need.is_none() {
                            need = Some(n);
                        }
                    },
                }
            }
            let ghost acc1 = RoundSoFar { need, err };
            assert(got == got0);
            assert(got0.0 is Some ==> acc1 == acc0);
            assert(got0.0 is None ==> acc1 == acc0.note(soft0) && !(soft0 is Cut));
            assert(got0.0 is None ==> me.0.parses(at, stop0, Err(soft0)));
            let ghost mut stop1: I = at;
            let ghost mut soft1: ErrMode<E> = ErrMode::Incomplete(Needed { size: 0 });
            if got.1.is_none() {
                input.reset(start.checkpoint());
                match self.1.parse_next(input) {
                    Ok(o) => {
                        proof {
                            let next = *input;
                            let then = (got0.0, Some(o), got0.2, got0.3);
                            assert forall|a: I, r: PResult<(O1, O2, O3, O4), E>| #[trigger]
                                perm4_from_0(me, then, next, RoundSoFar::fresh(), a, r)
                            implies me.permutes(x0, a, r) by {
                                assert(stops_with(next, o));
                                assert(perm4_from_1(me, got0, at, acc1, a, r));
                                assert(stops_with(stop0, soft0));
                                assert(perm4_from_0(me, got0, at, acc0, a, r));
                            }
                        }
                        got.1 = Some(o);
                        continue ;
                    },
                    Err(ErrMode::Cut(e)) => {
                        proof {
                            let r = Err::<(O1, O2, O3, O4), ErrMode<E>>(ErrMode::Cut(e));
                            assert(perm4_from_1(me, got0, at, acc1, *input, r));
                            assert(stops_with(stop0, soft0));
                            assert(perm4_from_0(me, got0, at, acc0, *input, r));
                        }
                        return Err(ErrMode::Cut(e));
                    },
                    Err(ErrMode::Backtrack(e)) => {
                        proof {
                            stop1 = *input;
                            soft1 = ErrMode::Backtrack(e);
                        }
                        err = Some(
                            match err {
                                Some(earlier) => earlier.or(e),
                                None => e,
                            },
                        );
                    },
                    Err(ErrMode::Incomplete(n)) => {
                        proof {
                            stop1 = *input;
                            soft1 = ErrMode::Incomplete(n);
                        }
                        if need.is_none() {
                            need = Some(n);
                        }
                    },
                }
            }
            let ghost acc2 = RoundSoFar { need, err };
            assert(got == got0);
            assert(got0.1 is Some ==> acc2 == acc1);
            assert(got0.1 is None ==> acc2 == acc1.note(soft1) && !(soft1 is Cut));
            assert(got0.1 is None ==> me.1.parses(at, stop1, Err(soft1)));
            let ghost mut stop2: I = at;
            let ghost mut soft2: ErrMode<E> = ErrMode::Incomplete(Needed { size: 0 });
            if got.2.is_none() {
                input.reset(start.checkpoint());
                match self.2.parse_next(input) {
                    Ok(o) => {
                        proof {
                            let next = *input;
                            let then = (got0.0, got0.1, Some(o), got0.3);
                            assert forall|a: I, r: PResult<(O1, O2, O3, O4), E>| #[trigger]
                                perm4_from_0(me, then, next, RoundSoFar::fresh(), a, r)
                            implies me.permutes(x0, a, r) by {
                                assert(stops_with(next, o));
                                assert(perm4_from_2(me, got0, at, acc2, a, r));
                                assert(stops_with(stop1, soft1));
                                assert(perm4_from_1(me, got0, at, acc1, a, r));
                                assert(stops_with(stop0, soft0));
                                assert(perm4_from_0(me, got0, at, acc0, a, r));
                            }
                        }
                        got.2 = Some(o);
                        continue ;
                    },
                    Err(ErrMode::Cut(e)) => {
                        proof {
                            let r = Err::<(O1, O2, O3, O4), ErrMode<E>>(ErrMode::Cut(e));
                            assert(perm4_from_2(me, got0, at, acc2, *input, r));
                            assert(stops_with(stop1, soft1));
                            assert(perm4_from_1(me, got0, at, acc1, *input, r));
                            assert(stops_with(stop0, soft0));
                            assert(perm4_from_0(me, got0, at, acc0, *input, r));
                        }
                        return Err(ErrMode::Cut(e));
                    },
                    Err(ErrMode::Backtrack(e)) => {
                        proof {
                            stop2 = *input;
                            soft2 = ErrMode::Backtrack(e);
                        }
                        err = Some(
                            match err {
                                Some(earlier) => earlier.or(e),
                                None => e,
                            },
                        );
                    },
                    Err(ErrMode::Incomplete(n)) => {
                        proof {
                            stop2 = *input;
                            soft2 = ErrMode::Incomplete(n);
                        }
                        if need.is_none() {
                            need = Some(n);
                        }
                    },
                }
            }
            let ghost acc3 = RoundSoFar { need, err };
            assert(got == got0);
            assert(got0.2 is Some ==> acc3 == acc2);
            assert(got0.2 is None ==> acc3 == acc2.note(soft2) && !(soft2 is Cut));
            assert(got0.2 is None ==> me.2.parses(at, stop2, Err(soft2)));
            let ghost mut stop3: I = at;
            let ghost mut soft3: ErrMode<E> = ErrMode::Incomplete(Needed { size: 0 });
            if got.3.is_none() {
                input.reset(start.checkpoint());
                match self.3.parse_next(input) {
                    Ok(o) => {
                        proof {
                            let next = *input;
                            let then = (got0.0, got0.1, got0.2, Some(o));
                            assert forall|a: I, r: PResult<(O1, O2, O3, O4), E>| #[trigger]
                                perm4_from_0(me, then, next, RoundSoFar::fresh(), a, r)
                            implies me.permutes(x0, a, r) by {
                                assert(stops_with(next, o));
                                assert(perm4_from_3(me, got0, at, acc3, a, r));
                                assert(stops_with(stop2, soft2));
                                assert(perm4_from_2(me, got0, at, acc2, a, r));
                                assert(stops_with(stop1, soft1));
                                assert(perm4_from_1(me, got0, at, acc1, a, r));
                                assert(stops_with(stop0, soft0));
                                assert(perm4_from_0(me, got0, at, acc0, a, r));
                            }
                        }
                        got.3 = Some(o);
                        continue ;
                    },
                    Err(ErrMode::Cut(e)) => {
                        proof {
                            let r = Err::<(O1, O2, O3, O4), ErrMode<E>>(ErrMode::Cut(e));
                            assert(perm4_from_3(me, got0, at, acc3, *input, r));
                            assert(stops_with(stop2, soft2));
                            assert(perm4_from_2(me, got0, at, acc2, *input, r));
                            assert(stops_with(stop1, soft1));
                            assert(perm4_from_1(me, got0, at, acc1, *input, r));
                            assert(stops_with(stop0, soft0));
                            assert(perm4_from_0(me, got0, at, acc0, *input, r));
                        }
                        return Err(ErrMode::Cut(e));
                    },
                    Err(ErrMode::Backtrack(e)) => {
                        proof {
                            stop3 = *input;
                            soft3 = ErrMode::Backtrack(e);
                        }
                        err = Some(
                            match err {
                                Some(earlier) => earlier.or(e),
                                None => e,
                            },
                        );
                    },
                    Err(ErrMode::Incomplete(n)) => {
                        proof {
                            stop3 = *input;
                            soft3 = ErrMode::Incomplete(n);
                        }
                        if need.is_none() {
                            need = Some(n);
                        }
                    },
                }
            }
            let ghost acc4 = RoundSoFar { need, err };
            assert(got == got0);
            assert(got0.3 is Some ==> acc4 == acc3);
            assert(got0.3 is None ==> acc4 == acc3.note(soft3) && !(soft3 is Cut));
            assert(got0.3 is None ==> me.3.parses(at, stop3, Err(soft3)));
            input.reset(start);
            let r = match need {
                Some(n) => Err(ErrMode::Incomplete(n)),
                None => match err {
                    Some(e) => Err(ErrMode::Backtrack(e.append(&*input, ErrorKind::Permutation))),
                    None => match got {
                        (Some(o1), Some(o2), Some(o3), Some(o4)) => Ok((o1, o2, o3, o4)),
                        _ => {
                            proof {
                                assert(got0.0 is Some);
                                assert(got0.1 is Some);
                                assert(got0.2 is Some);
                                assert(got0.3 is Some);
                            }
                            vstd::pervasive::unreached()
                        },
                    },
                },
            };
            proof {
                assert(perm4_end(me, got0, at, acc4, *input, r));
                assert(stops_with(stop3, soft3));
                assert(perm4_from_3(me, got0, at, acc3, *input, r));
                assert(stops_with(stop2, soft2));
                assert(perm4_from_2(me, got0, at, acc2, *input, r));
                assert(stops_with(stop1, soft1));
                assert(perm4_from_1(me, got0, at, acc1, *input, r));
                assert(stops_with(stop0, soft0));
                assert(perm4_from_0(me, got0, at, acc0, *input, r));
            }
            return r;
        }
    }
}

/// How many of the 5 parsers have not matched yet.
pub open spec fn perm5_pending<O1, O2, O3, O4, O5>(
    got: (Option<O1>, Option<O2>, Option<O3>, Option<O4>, Option<O5>),
) -> nat {
    (if got.0 is None {
        1nat
    } else {
        0nat
    }) +
        (if got.1 is None {
            1nat
        } else {
            0nat
        }) +
        (if got.2 is None {
            1nat
        } else {
            0nat
        }) +
        (if got.3 is None {
            1nat
        } else {
            0nat
        }) +
        (if got.4 is None {
            1nat
        } else {
            0nat
        })
}

/// What a permutation of 5 parsers does in one round and in the rounds
/// after it.
///
/// The round starts with the cursor at `at`; `got` holds the outputs of the
/// parsers that matched in earlier rounds. Each parser that has not matched
/// yet is tried at `at`, in the order of the tuple. The first that succeeds
/// ends the round: its output is kept and the next round starts where it
/// stopped. An unrecoverable failure is the outcome at once. A recoverable
/// failure or a request for more input is noted in `acc`, and the next
/// parser is tried. This function speaks of the round from its first parser
/// on; the functions after it speak of the round from a later parser on.
pub open spec fn perm5_from_0<I, O1, O2, O3, O4, O5, E, A1, A2, A3, A4, A5>(
    ps: (A1, A2, A3, A4, A5),
    got: (Option<O1>, Option<O2>, Option<O3>, Option<O4>, Option<O5>),
    at: I,
    acc: RoundSoFar<E>,
    after: I,
    r: PResult<(O1, O2, O3, O4, O5), E>,
) -> bool where
    I: Stream,
    E: ParseError<I>,
    A1: Parser<I, O1, E>,
    A2: Parser<I, O2, E>,
    A3: Parser<I, O3, E>,
    A4: Parser<I, O4, E>,
    A5: Parser<I, O5, E>,

    decreases perm5_pending(got), 5nat,
{
    if got.0 is Some {
        perm5_from_1(ps, got, at, acc, after, r)
    } else {
        ||| exists|next: I, o: O1| #[trigger]
            stops_with(next, o) && ps.0.parses(at, next, Ok(o)) && perm5_from_0(
                ps,
                (Some(o), got.1, got.2, got.3, got.4),
                next,
                RoundSoFar::fresh(),
                after,
                r,
            )
        ||| r matches Err(ErrMode::Cut(e)) && ps.0.parses(at, after, Err(ErrMode::Cut(e)))
        ||| exists|stop: I, soft: ErrMode<E>| #[trigger]
            stops_with(stop, soft) && !(soft is Cut) && ps.0.parses(at, stop, Err(soft))
                && perm5_from_1(ps, got, at, acc.note(soft), after, r)
    }
}

/// The rest of a round of a permutation of 5 parsers, from parser 1 on.
pub open spec fn perm5_from_1<I, O1, O2, O3, O4, O5, E, A1, A2, A3, A4, A5>(
    ps: (A1, A2, A3, A4, A5),
    got: (Option<O1>, Option<O2>, Option<O3>, Option<O4>, Option<O5>),
    at: I,
    acc: RoundSoFar<E>,
    after: I,
    r: PResult<(O1, O2, O3, O4, O5), E>,
) -> bool where
    I: Stream,
    E: ParseError<I>,
    A1: Parser<I, O1, E>,
    A2: Parser<I, O2, E>,
    A3: Parser<I, O3, E>,
    A4: Parser<I, O4, E>,
    A5: Parser<I, O5, E>,

    decreases perm5_pending(got), 4nat,
{
    if got.1 is Some {
        perm5_from_2(ps, got, at, acc, after, r)
    } else {
        ||| exists|next: I, o: O2| #[trigger]
            stops_with(next, o) && ps.1.parses(at, next, Ok(o)) && perm5_from_0(
                ps,
                (got.0, Some(o), got.2, got.3, got.4),
                next,
                RoundSoFar::fresh(),
                after,
                r,
            )
        ||| r matches Err(ErrMode::Cut(e)) && ps.1.parses(at, after, Err(ErrMode::Cut(e)))
        ||| exists|stop: I, soft: ErrMode<E>| #[trigger]
            stops_with(stop, soft) && !(soft is Cut) && ps.1.parses(at, stop, Err(soft))
                && perm5_from_2(ps, got, at, acc.note(soft), after, r)
    }
}

/// The rest of a round of a permutation of 5 parsers, from parser 2 on.
pub open spec fn perm5_from_2<I, O1, O2, O3, O4, O5, E, A1, A2, A3, A4, A5>(
    ps: (A1, A2, A3, A4, A5),
    got: (Option<O1>, Option<O2>, Option<O3>, Option<O4>, Option<O5>),
    at: I,
    acc: RoundSoFar<E>,
    after: I,
    r: PResult<(O1, O2, O3, O4, O5), E>,
) -> bool where
    I: Stream,
    E: ParseError<I>,
    A1: Parser<I, O1, E>,
    A2: Parser<I, O2, E>,
    A3: Parser<I, O3, E>,
    A4: Parser<I, O4, E>,
    A5: Parser<I, O5, E>,

    decreases perm5_pending(got), 3nat,
{
    if got.2 is Some {
        perm5_from_3(ps, got, at, acc, after, r)
    } else {
        ||| exists|next: I, o: O3| #[trigger]
            stops_with(next, o) && ps.2.parses(at, next, Ok(o)) && perm5_from_0(
                ps,
                (got.0, got.1, Some(o), got.3, got.4),
                next,
                RoundSoFar::fresh(),
                after,
                r,
            )
        ||| r matches Err(ErrMode::Cut(e)) && ps.2.parses(at, after, Err(ErrMode::Cut(e)))
        ||| exists|stop: I, soft: ErrMode<E>| #[trigger]
            stops_with(stop, soft) && !(soft is Cut) && ps.2.parses(at, stop, Err(soft))
                && perm5_from_3(ps, got, at, acc.note(soft), after, r)
    }
}

/// The rest of a round of a permutation of 5 parsers, from parser 3 on.
pub open spec fn perm5_from_3<I, O1, O2, O3, O4, O5, E, A1, A2, A3, A4, A5>(
    ps: (A1, A2, A3, A4, A5),
    got: (Option<O1>, Option<O2>, Option<O3>, Option<O4>, Option<O5>),
    at: I,
    acc: RoundSoFar<E>,
    after: I,
    r: PResult<(O1, O2, O3, O4, O5), E>,
) -> bool where
    I: Stream,
    E: ParseError<I>,
    A1: Parser<I, O1, E>,
    A2: Parser<I, O2, E>,
    A3: Parser<I, O3, E>,
    A4: Parser<I, O4, E>,
    A5: Parser<I, O5, E>,

    decreases perm5_pending(got), 2nat,
{
    if got.3 is Some {
        perm5_from_4(ps, got, at, acc, after, r)
    } else {
        ||| exists|next: I, o: O4| #[trigger]
            stops_with(next, o) && ps.3.parses(at, next, Ok(o)) && perm5_from_0(
                ps,
                (got.0, got.1, got.2, Some(o), got.4),
                next,
                RoundSoFar::fresh(),
                after,
                r,
            )
        ||| r matches Err(ErrMode::Cut(e)) && ps.3.parses(at, after, Err(ErrMode::Cut(e)))
        ||| exists|stop: I, soft: ErrMode<E>| #[trigger]
            stops_with(stop, soft) && !(soft is Cut) && ps.3.parses(at, stop, Err(soft))
                && perm5_from_4(ps, got, at, acc.note(soft), after, r)
    }
}

/// The rest of a round of a permutation of 5 parsers, from parser 4 on.
pub open spec fn perm5_from_4<I, O1, O2, O3, O4, O5, E, A1, A2, A3, A4, A5>(
    ps: (A1, A2, A3, A4, A5),
    got: (Option<O1>, Option<O2>, Option<O3>, Option<O4>, Option<O5>),
    at: I,
    acc: RoundSoFar<E>,
    after: I,
    r: PResult<(O1, O2, O3, O4, O5), E>,
) -> bool where
    I: Stream,
    E: ParseError<I>,
    A1: Parser<I, O1, E>,
    A2: Parser<I, O2, E>,
    A3: Parser<I, O3, E>,
    A4: Parser<I, O4, E>,
    A5: Parser<I, O5, E>,

    decreases perm5_pending(got), 1nat,
{
    if got.4 is Some {
        perm5_end(ps, got, at, acc, after, r)
    } else {
        ||| exists|next: I, o: O5| #[trigger]
            stops_with(next, o) && ps.4.parses(at, next, Ok(o)) && perm5_from_0(
                ps,
                (got.0, got.1, got.2, got.3, Some(o)),
                next,
                RoundSoFar::fresh(),
                after,
                r,
            )
        ||| r matches Err(ErrMode::Cut(e)) && ps.4.parses(at, after, Err(ErrMode::Cut(e)))
        ||| exists|stop: I, soft: ErrMode<E>| #[trigger]
            stops_with(stop, soft) && !(soft is Cut) && ps.4.parses(at, stop, Err(soft))
                && perm5_end(ps, got, at, acc.note(soft), after, r)
    }
}

/// The end of a round of a permutation of 5 parsers in which no parser
/// succeeded or failed unrecoverably. The cursor goes back to `at`, where
/// the round started. If a parser asked for more input, the first such
/// request is the outcome. Else, if a parser failed, the outcome is a
/// recoverable failure: the last parser's error under a frame of kind
/// [`ErrorKind::Permutation`]. Else every parser has matched, and the
/// outputs are yielded in the order of the tuple.
pub open spec fn perm5_end<I, O1, O2, O3, O4, O5, E, A1, A2, A3, A4, A5>(
    ps: (A1, A2, A3, A4, A5),
    got: (Option<O1>, Option<O2>, Option<O3>, Option<O4>, Option<O5>),
    at: I,
    acc: RoundSoFar<E>,
    after: I,
    r: PResult<(O1, O2, O3, O4, O5), E>,
) -> bool where
    I: Stream,
    E: ParseError<I>,
    A1: Parser<I, O1, E>,
    A2: Parser<I, O2, E>,
    A3: Parser<I, O3, E>,
    A4: Parser<I, O4, E>,
    A5: Parser<I, O5, E>,

    decreases perm5_pending(got), 0nat,
{
    after == at && match acc.need {
        Some(n) => r == Err::<(O1, O2, O3, O4, O5), ErrMode<E>>(ErrMode::Incomplete(n)),
        None => match acc.err {
            Some(last) => r matches Err(ErrMode::Backtrack(e)) && e.appended_to(
                last,
                at,
                ErrorKind::Permutation,
            ),
            None => {
                &&& got.0 is Some
                &&& got.1 is Some
                &&& got.2 is Some
                &&& got.3 is Some
                &&& got.4 is Some
                &&& r == Ok::<(O1, O2, O3, O4, O5), ErrMode<E>>(
                    (got.0->Some_0, got.1->Some_0, got.2->Some_0, got.3->Some_0, got.4->Some_0),
                )
            },
        },
    }
}

impl<I, O1, O2, O3, O4, O5, E, A1, A2, A3, A4, A5> Permutation<
    I,
    (O1, O2, O3, O4, O5),
    E,
> for (A1, A2, A3, A4, A5) where
    I: Stream,
    E: ParseError<I>,
    A1: Parser<I, O1, E>,
    A2: Parser<I, O2, E>,
    A3: Parser<I, O3, E>,
    A4: Parser<I, O4, E>,
    A5: Parser<I, O5, E>,
 {
    open spec fn perm_wf(&self) -> bool {
        &&& self.0.wf()
        &&& self.1.wf()
        &&& self.2.wf()
        &&& self.3.wf()
        &&& self.4.wf()
    }

    open spec fn permutes(&self, before: I, after: I, r: PResult<(O1, O2, O3, O4, O5), E>) -> bool {
        let none = (None::<O1>, None::<O2>, None::<O3>, None::<O4>, None::<O5>);
        perm5_from_0(*self, none, before, RoundSoFar::fresh(), after, r)
    }

    fn permutation(&mut self, input: &mut I) -> (r: PResult<(O1, O2, O3, O4, O5), E>) {
        let ghost me = *self;
        let ghost x0 = *input;
        let mut got: (Option<O1>, Option<O2>, Option<O3>, Option<O4>, Option<O5>) = (
            None, None, None, None, None);
        loop
            invariant
                *self == me,
                *old(self) == me,
                *old(input) == x0,
                me.perm_wf(),
                forall|a: I, r: PResult<(O1, O2, O3, O4, O5), E>| #[trigger]
                    perm5_from_0(me, got, *input, RoundSoFar::fresh(), a, r) ==> me.permutes(
                        x0,
                        a,
                        r,
                    ),
            decreases perm5_pending(got),
        {
            let start = input.checkpoint();
            let ghost at = *input;
            let ghost got0 = got;
            let mut need: Option<Needed> = None;
            let mut err: Option<E> = None;
            let ghost acc0 = RoundSoFar::<E>::fresh();
            let ghost mut stop0: I = at;
            let ghost mut soft0: ErrMode<E> = ErrMode::Incomplete(Needed { size: 0 });
            if got.0.is_none() {
                input.reset(start.checkpoint());
                match self.0.parse_next(input) {
                    Ok(o) => {
                        proof {
                            let next = *input;
                            let then = (Some(o), got0.1, got0.2, got0.3, got0.4);
                            assert forall|a: I, r: PResult<(O1, O2, O3, O4, O5), E>| #[trigger]
                                perm5_from_0(me, then, next, RoundSoFar::fresh(), a, r)
                            implies me.permutes(x0, a, r) by {
                                assert(stops_with(next, o));
                                assert(perm5_from_0(me, got0, at, acc0, a, r));
                            }
                        }
                        got.0 = Some(o);
                        continue ;
                    },
                    Err(ErrMode::Cut(e)) => {
                        proof {
                            let r = Err::<(O1, O2, O3, O4, O5), ErrMode<E>>(ErrMode::Cut(e));
                            assert(perm5_from_0(me, got0, at, acc0, *input, r));
                        }
                        return Err(ErrMode::Cut(e));
                    },
                    Err(ErrMode::Backtrack(e)) => {
                        proof {
                            stop0 = *input;
                            soft0 = ErrMode::Backtrack(e);
                        }
                        err = Some(
                            match err {
                                Some(earlier) => earlier.or(e),
                                None => e,
                            },
                        );
                    },
                    Err(ErrMode::Incomplete(n)) => {
                        proof {
                            stop0 = *input;
                            soft0 = ErrMode::Incomplete(n);
                        }
                        if need.is_none() {
                            need = Some(n);
                        }
                    },
                }
            }
            let ghost acc1 = RoundSoFar { need, err };
            assert(got == got0);
            assert(got0.0 is Some ==> acc1 == acc0);
            assert(got0.0 is None ==> acc1 == acc0.note(soft0) && !(soft0 is Cut));
            assert(got0.0 is None ==> me.0.parses(at, stop0, Err(soft0)));
            let ghost mut stop1: I = at;
            let ghost mut soft1: ErrMode<E> = ErrMode::Incomplete(Needed { size: 0 });
            if got.1.is_none() {
                input.reset(start.checkpoint());
                match self.1.parse_next(input) {
                    Ok(o) => {
                        proof {
                            let next = *input;
                            let then = (got0.0, Some(o), got0.2, got0.3, got0.4);
                            assert forall|a: I, r: PResult<(O1, O2, O3, O4, O5), E>| #[trigger]
                                perm5_from_0(me, then, next, RoundSoFar::fresh(), a, r)
                            implies me.permutes(x0, a, r) by {
                                assert(stops_with(next, o));
                                assert(perm5_from_1(me, got0, at, acc1, a, r));
                                assert(stops_with(stop0, soft0));
                                assert(perm5_from_0(me, got0, at, acc0, a, r));
                            }
                        }
                        got.1 = Some(o);
                        continue ;
                    },
                    Err(ErrMode::Cut(e)) => {
                        proof {
                            let r = Err::<(O1, O2, O3, O4, O5), ErrMode<E>>(ErrMode::Cut(e));
                            assert(perm5_from_1(me, got0, at, acc1, *input, r));
                            assert(stops_with(stop0, soft0));
                            assert(perm5_from_0(me, got0, at, acc0, *input, r));
                        }
                        return Err(ErrMode::Cut(e));
                    },
                    Err(ErrMode::Backtrack(e)) => {
                        proof {
                            stop1 = *input;
                            soft1 = ErrMode::Backtrack(e);
                        }
                        err = Some(
                            match err {
                                Some(earlier) => earlier.or(e),
                                None => e,
                            },
                        );
                    },
                    Err(ErrMode::Incomplete(n)) => {
                        proof {
                            stop1 = *input;
                            soft1 = ErrMode::Incomplete(n);
                        }
                        if need.is_none() {
                            need = Some(n);
                        }
                    },
                }
            }
            let ghost acc2 = RoundSoFar { need, err };
            assert(got == got0);
            assert(got0.1 is Some ==> acc2 == acc1);
            assert(got0.1 is None ==> acc2 == acc1.note(soft1) && !(soft1 is Cut));
            assert(got0.1 is None ==> me.1.parses(at, stop1, Err(soft1)));
            let ghost mut stop2: I = at;
            let ghost mut soft2: ErrMode<E> = ErrMode::Incomplete(Needed { size: 0 });
            if got.2.is_none() {
                input.reset(start.checkpoint());
                match self.2.parse_next(input) {
                    Ok(o) => {
                        proof {
                            let next = *input;
                            let then = (got0.0, got0.1, Some(o), got0.3, got0.4);
                            assert forall|a: I, r: PResult<(O1, O2, O3, O4, O5), E>| #[trigger]
                                perm5_from_0(me, then, next, RoundSoFar::fresh(), a, r)
                            implies me.permutes(x0, a, r) by {
                                assert(stops_with(next, o));
                                assert(perm5_from_2(me, got0, at, acc2, a, r));
                                assert(stops_with(stop1, soft1));
                                assert(perm5_from_1(me, got0, at, acc1, a, r));
                                assert(stops_with(stop0, soft0));
                                assert(perm5_from_0(me, got0, at, acc0, a, r));
                            }
                        }
                        got.2 = Some(o);
                        continue ;
                    },
                    Err(ErrMode::Cut(e)) => {
                        proof {
                            let r = Err::<(O1, O2, O3, O4, O5), ErrMode<E>>(ErrMode::Cut(e));
                            assert(perm5_from_2(me, got0, at, acc2, *input, r));
                            assert(stops_with(stop1, soft1));
                            assert(perm5_from_1(me, got0, at, acc1, *input, r));
                            assert(stops_with(stop0, soft0));
                            assert(perm5_from_0(me, got0, at, acc0, *input, r));
                        }
                        return Err(ErrMode::Cut(e));
                    },
                    Err(ErrMode::Backtrack(e)) => {
                        proof {
                            stop2 = *input;
                            soft2 = ErrMode::Backtrack(e);
                        }
                        err = Some(
                            match err {
                                Some(earlier) => earlier.or(e),
                                None => e,
                            },
                        );
                    },
                    Err(ErrMode::Incomplete(n)) => {
                        proof {
                            stop2 = *input;
                            soft2 = ErrMode::Incomplete(n);
                        }
                        if need.is_none() {
                            need = Some(n);
                        }
                    },
                }
            }
            let ghost acc3 = RoundSoFar { need, err };
            assert(got == got0);
            assert(got0.2 is Some ==> acc3 == acc2);
            assert(got0.2 is None ==> acc3 == acc2.note(soft2) && !(soft2 is Cut));
            assert(got0.2 is None ==> me.2.parses(at, stop2, Err(soft2)));
            let ghost mut stop3: I = at;
            let ghost mut soft3: ErrMode<E> = ErrMode::Incomplete(Needed { size: 0 });
            if got.3.is_none() {
                input.reset(start.checkpoint());
                match self.3.parse_next(input) {
                    Ok(o) => {
                        proof {
                            let next = *input;
                            let then = (got0.0, got0.1, got0.2, Some(o), got0.4);
                            assert forall|a: I, r: PResult<(O1, O2, O3, O4, O5), E>| #[trigger]
                                perm5_from_0(me, then, next, RoundSoFar::fresh(), a, r)
                            implies me.permutes(x0, a, r) by {
                                assert(stops_with(next, o));
                                assert(perm5_from_3(me, got0, at, acc3, a, r));
                                assert(stops_with(stop2, soft2));
                                assert(perm5_from_2(me, got0, at, acc2, a, r));
                                assert(stops_with(stop1, soft1));
                                assert(perm5_from_1(me, got0, at, acc1, a, r));
                                assert(stops_with(stop0, soft0));
                                assert(perm5_from_0(me, got0, at, acc0, a, r));
                            }
                        }
                        got.3 = Some(o);
                        continue ;
                    },
                    Err(ErrMode::Cut(e)) => {
                        proof {
                            let r = Err::<(O1, O2, O3, O4, O5), ErrMode<E>>(ErrMode::Cut(e));
                            assert(perm5_from_3(me, got0, at, acc3, *input, r));
                            assert(stops_with(stop2, soft2));
                            assert(perm5_from_2(me, got0, at, acc2, *input, r));
                            assert(stops_with(stop1, soft1));
                            assert(perm5_from_1(me, got0, at, acc1, *input, r));
                            assert(stops_with(stop0, soft0));
                            assert(perm5_from_0(me, got0, at, acc0, *input, r));
                        }
                        return Err(ErrMode::Cut(e));
                    },
                    Err(ErrMode::Backtrack(e)) => {
                        proof {
                            stop3 = *input;
                            soft3 = ErrMode::Backtrack(e);
                        }
                        err = Some(
                            match err {
                                Some(earlier) => earlier.or(e),
                                None => e,
                            },
                        );
                    },
                    Err(ErrMode::Incomplete(n)) => {
                        proof {
                            stop3 = *input;
                            soft3 = ErrMode::Incomplete(n);
                        }
                        if need.is_none() {
                            need = Some(n);
                        }
                    },
                }
            }
            let ghost acc4 = RoundSoFar { need, err };
            assert(got == got0);
            assert(got0.3 is Some ==> acc4 == acc3);
            assert(got0.3 is None ==> acc4 == acc3.note(soft3) && !(soft3 is Cut));
            assert(got0.3 is None ==> me.3.parses(at, stop3, Err(soft3)));
            let ghost mut stop4: I = at;
            let ghost mut soft4: ErrMode<E> = ErrMode::Incomplete(Needed { size: 0 });
            if got.4.is_none() {
                input.reset(start.checkpoint());
                match self.4.parse_next(input) {
                    Ok(o) => {
                        proof {
                            let next = *input;
                            let then = (got0.0, got0.1, got0.2, got0.3, Some(o));
                            assert forall|a: I, r: PResult<(O1, O2, O3, O4, O5), E>| #[trigger]
                                perm5_from_0(me, then, next, RoundSoFar::fresh(), a, r)
                            implies me.permutes(x0, a, r) by {
                                assert(stops_with(next, o));
                                assert(perm5_from_4(me, got0, at, acc4, a, r));
                                assert(stops_with(stop3, soft3));
                                assert(perm5_from_3(me, got0, at, acc3, a, r));
                                assert(stops_with(stop2, soft2));
                                assert(perm5_from_2(me, got0, at, acc2, a, r));
                                assert(stops_with(stop1, soft1));
                                assert(perm5_from_1(me, got0, at, acc1, a, r));
                                assert(stops_with(stop0, soft0));
                                assert(perm5_from_0(me, got0, at, acc0, a, r));
                            }
                        }
                        got.4 = Some(o);
                        continue ;
                    },
                    Err(ErrMode::Cut(e)) => {
                        proof {
                            let r = Err::<(O1, O2, O3, O4, O5), ErrMode<E>>(ErrMode::Cut(e));
                            assert(perm5_from_4(me, got0, at, acc4, *input, r));
                            assert(stops_with(stop3, soft3));
                            assert(perm5_from_3(me, got0, at, acc3, *input, r));
                            assert(stops_with(stop2, soft2));
                            assert(perm5_from_2(me, got0, at, acc2, *input, r));
                            assert(stops_with(stop1, soft1));
                            assert(perm5_from_1(me, got0, at, acc1, *input, r));
                            assert(stops_with(stop0, soft0));
                            assert(perm5_from_0(me, got0, at, acc0, *input, r));
                        }
                        return Err(ErrMode::Cut(e));
                    },
                    Err(ErrMode::Backtrack(e)) => {
                        proof {
                            stop4 = *input;
                            soft4 = ErrMode::Backtrack(e);
                        }
                        err = Some(
                            match err {
                                Some(earlier) => earlier.or(e),
                                None => e,
                            },
                        );
                    },
                    Err(ErrMode::Incomplete(n)) => {
                        proof {
                            stop4 = *input;
                            soft4 = ErrMode::Incomplete(n);
                        }
                        if need.is_none() {
                            need = Some(n);
                        }
                    },
                }
            }
            let ghost acc5 = RoundSoFar { need, err };
            assert(got == got0);
            assert(got0.4 is Some ==> acc5 == acc4);
            assert(got0.4 is None ==> acc5 == acc4.note(soft4) && !(soft4 is Cut));
            assert(got0.4 is None ==> me.4.parses(at, stop4, Err(soft4)));
            input.reset(start);
            let r = match need {
                Some(n) => Err(ErrMode::Incomplete(n)),
                None => match err {
                    Some(e) => Err(ErrMode::Backtrack(e.append(&*input, ErrorKind::Permutation))),
                    None => match got {
                        (Some(o1), Some(o2), Some(o3), Some(o4), Some(o5)) => Ok(
                            (o1, o2, o3, o4, o5),
                        ),
                        _ => {
                            proof {
                                assert(got0.0 is Some);
                                assert(got0.1 is Some);
                                assert(got0.2 is Some);
                                assert(got0.3 is Some);
                                assert(got0.4 is Some);
                            }
                            vstd::pervasive::unreached()
                        },
                    },
                },
            };
            proof {
                assert(perm5_end(me, got0, at, acc5, *input, r));
                assert(stops_with(stop4, soft4));
                assert(perm5_from_4(me, got0, at, acc4, *input, r));
                assert(stops_with(stop3, soft3));
                assert(perm5_from_3(me, got0, at, acc3, *input, r));
                assert(stops_with(stop2, soft2));
                assert(perm5_from_2(me, got0, at, acc2, *input, r));
                assert(stops_with(stop1, soft1));
                assert(perm5_from_1(me, got0, at, acc1, *input, r));
                assert(stops_with(stop0, soft0));
                assert(perm5_from_0(me, got0, at, acc0, *input, r));
            }
            return r;
        }
    }
}

/// How many of the 6 parsers have not matched yet.
pub open spec fn perm6_pending<O1, O2, O3, O4, O5, O6>(
    got: (Option<O1>, Option<O2>, Option<O3>, Option<O4>, Option<O5>, Option<O6>),
) -> nat {
    (if got.0 is None {
        1nat
    } else {
        0nat
    }) +
        (if got.1 is None {
            1nat
        } else {
            0nat
        }) +
        (if got.2 is None {
            1nat
        } else {
            0nat
        }) +
        (if got.3 is None {
            1nat
        } else {
            0nat
        }) +
        (if got.4 is None {
            1nat
        } else {
            0nat
        }) +
        (if got.5 is None {
            1nat
        } else {
            0nat
        })
}

/// What a permutation of 6 parsers does in one round and in the rounds
/// after it.
///
/// The round starts with the cursor at `at`; `got` holds the outputs of the
/// parsers that matched in earlier rounds. Each parser that has not matched
/// yet is tried at `at`, in the order of the tuple. The first that succeeds
/// ends the round: its output is kept and the next round starts where it
/// stopped. An unrecoverable failure is the outcome at once. A recoverable
/// failure or a request for more input is noted in `acc`, and the next
/// parser is tried. This function speaks of the round from its first parser
/// on; the functions after it speak of the round from a later parser on.
pub open spec fn perm6_from_0<I, O1, O2, O3, O4, O5, O6, E, A1, A2, A3, A4, A5, A6>(
    ps: (A1, A2, A3, A4, A5, A6),
    got: (Option<O1>, Option<O2>, Option<O3>, Option<O4>, Option<O5>, Option<O6>),
    at: I,
    acc: RoundSoFar<E>,
    after: I,
    r: PResult<(O1, O2, O3, O4, O5, O6), E>,
) -> bool where
    I: Stream,
    E: ParseError<I>,
    A1: Parser<I, O1, E>,
    A2: Parser<I, O2, E>,
    A3: Parser<I, O3, E>,
    A4: Parser<I, O4, E>,
    A5: Parser<I, O5, E>,
    A6: Parser<I, O6, E>,

    decreases perm6_pending(got), 6nat,
{
    if got.0 is Some {
        perm6_from_1(ps, got, at, acc, after, r)
    } else {
        ||| exists|next: I, o: O1| #[trigger]
            stops_with(next, o) && ps.0.parses(at, next, Ok(o)) && perm6_from_0(
                ps,
                (Some(o), got.1, got.2, got.3, got.4, got.5),
                next,
                RoundSoFar::fresh(),
                after,
                r,
            )
        ||| r matches Err(ErrMode::Cut(e)) && ps.0.parses(at, after, Err(ErrMode::Cut(e)))
        ||| exists|stop: I, soft: ErrMode<E>| #[trigger]
            stops_with(stop, soft) && !(soft is Cut) && ps.0.parses(at, stop, Err(soft))
                && perm6_from_1(ps, got, at, acc.note(soft), after, r)
    }
}

/// The rest of a round of a permutation of 6 parsers, from parser 1 on.
pub open spec fn perm6_from_1<I, O1, O2, O3, O4, O5, O6, E, A1, A2, A3, A4, A5, A6>(
    ps: (A1, A2, A3, A4, A5, A6),
    got: (Option<O1>, Option<O2>, Option<O3>, Option<O4>, Option<O5>, Option<O6>),
    at: I,
    acc: RoundSoFar<E>,
    after: I,
    r: PResult<(O1, O2, O3, O4, O5, O6), E>,
) -> bool where
    I: Stream,
    E: ParseError<I>,
    A1: Parser<I, O1, E>,
    A2: Parser<I, O2, E>,
    A3: Parser<I, O3, E>,
    A4: Parser<I, O4, E>,
    A5: Parser<I, O5, E>,
    A6: Parser<I, O6, E>,

    decreases perm6_pending(got), 5nat,
{
    if got.1 is Some {
        perm6_from_2(ps, got, at, acc, after, r)
    } else {
        ||| exists|next: I, o: O2| #[trigger]
            stops_with(next, o) && ps.1.parses(at, next, Ok(o)) && perm6_from_0(
                ps,
                (got.0, Some(o), got.2, got.3, got.4, got.5),
                next,
                RoundSoFar::fresh(),
                after,
                r,
            )
        ||| r matches Err(ErrMode::Cut(e)) && ps.1.parses(at, after, Err(ErrMode::Cut(e)))
        ||| exists|stop: I, soft: ErrMode<E>| #[trigger]
            stops_with(stop, soft) && !(soft is Cut) && ps.1.parses(at, stop, Err(soft))
                && perm6_from_2(ps, got, at, acc.note(soft), after, r)
    }
}

/// The rest of a round of a permutation of 6 parsers, from parser 2 on.
pub open spec fn perm6_from_2<I, O1, O2, O3, O4, O5, O6, E, A1, A2, A3, A4, A5, A6>(
    ps: (A1, A2, A3, A4, A5, A6),
    got: (Option<O1>, Option<O2>, Option<O3>, Option<O4>, Option<O5>, Option<O6>),
    at: I,
    acc: RoundSoFar<E>,
    after: I,
    r: PResult<(O1, O2, O3, O4, O5, O6), E>,
) -> bool where
    I: Stream,
    E: ParseError<I>,
    A1: Parser<I, O1, E>,
    A2: Parser<I, O2, E>,
    A3: Parser<I, O3, E>,
    A4: Parser<I, O4, E>,
    A5: Parser<I, O5, E>,
    A6: Parser<I, O6, E>,

    decreases perm6_pending(got), 4nat,
{
    if got.2 is Some {
        perm6_from_3(ps, got, at, acc, after, r)
    } else {
        ||| exists|next: I, o: O3| #[trigger]
            stops_with(next, o) && ps.2.parses(at, next, Ok(o)) && perm6_from_0(
                ps,
                (got.0, got.1, Some(o), got.3, got.4, got.5),
                next,
                RoundSoFar::fresh(),
                after,
                r,
            )
        ||| r matches Err(ErrMode::Cut(e)) && ps.2.parses(at, after, Err(ErrMode::Cut(e)))
        ||| exists|stop: I, soft: ErrMode<E>| #[trigger]
            stops_with(stop, soft) && !(soft is Cut) && ps.2.parses(at, stop, Err(soft))
                && perm6_from_3(ps, got, at, acc.note(soft), after, r)
    }
}

/// The rest of a round of a permutation of 6 parsers, from parser 3 on.
pub open spec fn perm6_from_3<I, O1, O2, O3, O4, O5, O6, E, A1, A2, A3, A4, A5, A6>(
    ps: (A1, A2, A3, A4, A5, A6),
    got: (Option<O1>, Option<O2>, Option<O3>, Option<O4>, Option<O5>, Option<O6>),
    at: I,
    acc: RoundSoFar<E>,
    after: I,
    r: PResult<(O1, O2, O3, O4, O5, O6), E>,
) -> bool where
    I: Stream,
    E: ParseError<I>,
    A1: Parser<I, O1, E>,
    A2: Parser<I, O2, E>,
    A3: Parser<I, O3, E>,
    A4: Parser<I, O4, E>,
    A5: Parser<I, O5, E>,
    A6: Parser<I, O6, E>,

    decreases perm6_pending(got), 3nat,
{
    if got.3 is Some {
        perm6_from_4(ps, got, at, acc, after, r)
    } else {
        ||| exists|next: I, o: O4| #[trigger]
            stops_with(next, o) && ps.3.parses(at, next, Ok(o)) && perm6_from_0(
                ps,
                (got.0, got.1, got.2, Some(o), got.4, got.5),
                next,
                RoundSoFar::fresh(),
                after,
                r,
            )
        ||| r matches Err(ErrMode::Cut(e)) && ps.3.parses(at, after, Err(ErrMode::Cut(e)))
        ||| exists|stop: I, soft: ErrMode<E>| #[trigger]
            stops_with(stop, soft) && !(soft is Cut) && ps.3.parses(at, stop, Err(soft))
                && perm6_from_4(ps, got, at, acc.note(soft), after, r)
    }
}

/// The rest of a round of a permutation of 6 parsers, from parser 4 on.
pub open spec fn perm6_from_4<I, O1, O2, O3, O4, O5, O6, E, A1, A2, A3, A4, A5, A6>(
    ps: (A1, A2, A3, A4, A5, A6),
    got: (Option<O1>, Option<O2>, Option<O3>, Option<O4>, Option<O5>, Option<O6>),
    at: I,
    acc: RoundSoFar<E>,
    after: I,
    r: PResult<(O1, O2, O3, O4, O5, O6), E>,
) -> bool where
    I: Stream,
    E: ParseError<I>,
    A1: Parser<I, O1, E>,
    A2: Parser<I, O2, E>,
    A3: Parser<I, O3, E>,
    A4: Parser<I, O4, E>,
    A5: Parser<I, O5, E>,
    A6: Parser<I, O6, E>,

    decreases perm6_pending(got), 2nat,
{
    if got.4 is Some {
        perm6_from_5(ps, got, at, acc, after, r)
    } else {
        ||| exists|next: I, o: O5| #[trigger]
            stops_with(next, o) && ps.4.parses(at, next, Ok(o)) && perm6_from_0(
                ps,
                (got.0, got.1, got.2, got.3, Some(o), got.5),
                next,
                RoundSoFar::fresh(),
                after,
                r,
            )
        ||| r matches Err(ErrMode::Cut(e)) && ps.4.parses(at, after, Err(ErrMode::Cut(e)))
        ||| exists|stop: I, soft: ErrMode<E>| #[trigger]
            stops_with(stop, soft) && !(soft is Cut) && ps.4.parses(at, stop, Err(soft))
                && perm6_from_5(ps, got, at, acc.note(soft), after, r)
    }
}

/// The rest of a round of a permutation of 6 parsers, from parser 5 on.
pub open spec fn perm6_from_5<I, O1, O2, O3, O4, O5, O6, E, A1, A2, A3, A4, A5, A6>(
    ps: (A1, A2, A3, A4, A5, A6),
    got: (Option<O1>, Option<O2>, Option<O3>, Option<O4>, Option<O5>, Option<O6>),
    at: I,
    acc: RoundSoFar<E>,
    after: I,
    r: PResult<(O1, O2, O3, O4, O5, O6), E>,
) -> bool where
    I: Stream,
    E: ParseError<I>,
    A1: Parser<I, O1, E>,
    A2: Parser<I, O2, E>,
    A3: Parser<I, O3, E>,
    A4: Parser<I, O4, E>,
    A5: Parser<I, O5, E>,
    A6: Parser<I, O6, E>,

    decreases perm6_pending(got), 1nat,
{
    if got.5 is Some {
        perm6_end(ps, got, at, acc, after, r)
    } else {
        ||| exists|next: I, o: O6| #[trigger]
            stops_with(next, o) && ps.5.parses(at, next, Ok(o)) && perm6_from_0(
                ps,
                (got.0, got.1, got.2, got.3, got.4, Some(o)),
                next,
                RoundSoFar::fresh(),
                after,
                r,
            )
        ||| r matches Err(ErrMode::Cut(e)) && ps.5.parses(at, after, Err(ErrMode::Cut(e)))
        ||| exists|stop: I, soft: ErrMode<E>| #[trigger]
            stops_with(stop, soft) && !(soft is Cut) && ps.5.parses(at, stop, Err(soft))
                && perm6_end(ps, got, at, acc.note(soft), after, r)
    }
}

/// The end of a round of a permutation of 6 parsers in which no parser
/// succeeded or failed unrecoverably. The cursor goes back to `at`, where
/// the round started. If a parser asked for more input, the first such
/// request is the outcome. Else, if a parser failed, the outcome is a
/// recoverable failure: the last parser's error under a frame of kind
/// [`ErrorKind::Permutation`]. Else every parser has matched, and the
/// outputs are yielded in the order of the tuple.
pub open spec fn perm6_end<I, O1, O2, O3, O4, O5, O6, E, A1, A2, A3, A4, A5, A6>(
    ps: (A1, A2, A3, A4, A5, A6),
    got: (Option<O1>, Option<O2>, Option<O3>, Option<O4>, Option<O5>, Option<O6>),
    at: I,
    acc: RoundSoFar<E>,
    after: I,
    r: PResult<(O1, O2, O3, O4, O5, O6), E>,
) -> bool where
    I: Stream,
    E: ParseError<I>,
    A1: Parser<I, O1, E>,
    A2: Parser<I, O2, E>,
    A3: Parser<I, O3, E>,
    A4: Parser<I, O4, E>,
    A5: Parser<I, O5, E>,
    A6: Parser<I, O6, E>,

    decreases perm6_pending(got), 0nat,
{
    after == at && match acc.need {
        Some(n) => r == Err::<(O1, O2, O3, O4, O5, O6), ErrMode<E>>(ErrMode::Incomplete(n)),
        None => match acc.err {
            Some(last) => r matches Err(ErrMode::Backtrack(e)) && e.appended_to(
                last,
                at,
                ErrorKind::Permutation,
            ),
            None => {
                &&& got.0 is Some
                &&& got.1 is Some
                &&& got.2 is Some
                &&& got.3 is Some
                &&& got.4 is Some
                &&& got.5 is Some
                &&& r == Ok::<(O1, O2, O3, O4, O5, O6), ErrMode<E>>(
                    (
                        got.0->Some_0, got.1->Some_0, got.2->Some_0, got.3->Some_0, got.4->Some_0,
                        got.5->Some_0,
                    ),
                )
            },
        },
    }
}

impl<I, O1, O2, O3, O4, O5, O6, E, A1, A2, A3, A4, A5, A6> Permutation<
    I,
    (O1, O2, O3, O4, O5, O6),
    E,
> for (A1, A2, A3, A4, A5, A6) where
    I: Stream,
    E: ParseError<I>,
    A1: Parser<I, O1, E>,
    A2: Parser<I, O2, E>,
    A3: Parser<I, O3, E>,
    A4: Parser<I, O4, E>,
    A5: Parser<I, O5, E>,
    A6: Parser<I, O6, E>,
 {
    open spec fn perm_wf(&self) -> bool {
        &&& self.0.wf()
        &&& self.1.wf()
        &&& self.2.wf()
        &&& self.3.wf()
        &&& self.4.wf()
        &&& self.5.wf()
    }

    open spec fn permutes(
        &self,
        before: I,
        after: I,
        r: PResult<(O1, O2, O3, O4, O5, O6), E>,
    ) -> bool {
        let none = (None::<O1>, None::<O2>, None::<O3>, None::<O4>, None::<O5>, None::<O6>);
        perm6_from_0(*self, none, before, RoundSoFar::fresh(), after, r)
    }

    fn permutation(&mut self, input: &mut I) -> (r: PResult<(O1, O2, O3, O4, O5, O6), E>) {
        let ghost me = *self;
        let ghost x0 = *input;
        let mut got: (Option<O1>, Option<O2>, Option<O3>, Option<O4>, Option<O5>, Option<O6>) = (
            None, None, None, None, None, None);
        loop
            invariant
                *self == me,
                *old(self) == me,
                *old(input) == x0,
                me.perm_wf(),
                forall|a: I, r: PResult<(O1, O2, O3, O4, O5, O6), E>| #[trigger]
                    perm6_from_0(me, got, *input, RoundSoFar::fresh(), a, r) ==> me.permutes(
                        x0,
                        a,
                        r,
                    ),
            decreases perm6_pending(got),
        {
            let start = input.checkpoint();
            let ghost at = *input;
            let ghost got0 = got;
            let mut need: Option<Needed> = None;
            let mut err: Option<E> = None;
            let ghost acc0 = RoundSoFar::<E>::fresh();
            let ghost mut stop0: I = at;
            let ghost mut soft0: ErrMode<E> = ErrMode::Incomplete(Needed { size: 0 });
            if got.0.is_none() {
                input.reset(start.checkpoint());
                match self.0.parse_next(input) {
                    Ok(o) => {
                        proof {
                            let next = *input;
                            let then = (Some(o), got0.1, got0.2, got0.3, got0.4, got0.5);
                            assert forall|a: I, r: PResult<(O1, O2, O3, O4, O5, O6), E>| #[trigger]
                                perm6_from_0(me, then, next, RoundSoFar::fresh(), a, r)
                            implies me.permutes(x0, a, r) by {
                                assert(stops_with(next, o));
                                assert(perm6_from_0(me, got0, at, acc0, a, r));
                            }
                        }
                        got.0 = Some(o);
                        continue ;
                    },
                    Err(ErrMode::Cut(e)) => {
                        proof {
                            let r = Err::<(O1, O2, O3, O4, O5, O6), ErrMode<E>>(ErrMode::Cut(e));
                            assert(perm6_from_0(me, got0, at, acc0, *input, r));
                        }
                        return Err(ErrMode::Cut(e));
                    },
                    Err(ErrMode::Backtrack(e)) => {
                        proof {
                            stop0 = *input;
                            soft0 = ErrMode::Backtrack(e);
                        }
                        err = Some(
                            match err {
                                Some(earlier) => earlier.or(e),
                                None => e,
                            },
                        );
                    },
                    Err(ErrMode::Incomplete(n)) => {
                        proof {
                            stop0 = *input;
                            soft0 = ErrMode::Incomplete(n);
                        }
                        if need.is_none() {
                            need = Some(n);
                        }
                    },
                }
            }
            let ghost acc1 = RoundSoFar { need, err };
            assert(got == got0);
            assert(got0.0 is Some ==> acc1 == acc0);
            assert(got0.0 is None ==> acc1 == acc0.note(soft0) && !(soft0 is Cut));
            assert(got0.0 is None ==> me.0.parses(at, stop0, Err(soft0)));
            let ghost mut stop1: I = at;
            let ghost mut soft1: ErrMode<E> = ErrMode::Incomplete(Needed { size: 0 });
            if got.1.is_none() {
                input.reset(start.checkpoint());
                match self.1.parse_next(input) {
                    Ok(o) => {
                        proof {
                            let next = *input;
                            let then = (got0.0, Some(o), got0.2, got0.3, got0.4, got0.5);
                            assert forall|a: I, r: PResult<(O1, O2, O3, O4, O5, O6), E>| #[trigger]
                                perm6_from_0(me, then, next, RoundSoFar::fresh(), a, r)
                            implies me.permutes(x0, a, r) by {
                                assert(stops_with(next, o));
                                assert(perm6_from_1(me, got0, at, acc1, a, r));
                                assert(stops_with(stop0, soft0));
                                assert(perm6_from_0(me, got0, at, acc0, a, r));
                            }
                        }
                        got.1 = Some(o);
                        continue ;
                    },
                    Err(ErrMode::Cut(e)) => {
                        proof {
                            let r = Err::<(O1, O2, O3, O4, O5, O6), ErrMode<E>>(ErrMode::Cut(e));
                            assert(perm6_from_1(me, got0, at, acc1, *input, r));
                            assert(stops_with(stop0, soft0));
                            assert(perm6_from_0(me, got0, at, acc0, *input, r));
                        }
                        return Err(ErrMode::Cut(e));
                    },
                    Err(ErrMode::Backtrack(e)) => {
                        proof {
                            stop1 = *input;
                            soft1 = ErrMode::Backtrack(e);
                        }
                        err = Some(
                            match err {
                                Some(earlier) => earlier.or(e),
                                None => e,
                            },
                        );
                    },
                    Err(ErrMode::Incomplete(n)) => {
                        proof {
                            stop1 = *input;
                            soft1 = ErrMode::Incomplete(n);
                        }
                        if need.is_none() {
                            need = Some(n);
                        }
                    },
                }
            }
            let ghost acc2 = RoundSoFar { need, err };
            assert(got == got0);
            assert(got0.1 is Some ==> acc2 == acc1);
            assert(got0.1 is None ==> acc2 == acc1.note(soft1) && !(soft1 is Cut));
            assert(got0.1 is None ==> me.1.parses(at, stop1, Err(soft1)));
            let ghost mut stop2: I = at;
            let ghost mut soft2: ErrMode<E> = ErrMode::Incomplete(Needed { size: 0 });
            if got.2.is_none() {
                input.reset(start.checkpoint());
                match self.2.parse_next(input) {
                    Ok(o) => {
                        proof {
                            let next = *input;
                            let then = (got0.0, got0.1, Some(o), got0.3, got0.4, got0.5);
                            assert forall|a: I, r: PResult<(O1, O2, O3, O4, O5, O6), E>| #[trigger]
                                perm6_from_0(me, then, next, RoundSoFar::fresh(), a, r)
                            implies me.permutes(x0, a, r) by {
                                assert(stops_with(next, o));
                                assert(perm6_from_2(me, got0, at, acc2, a, r));
                                assert(stops_with(stop1, soft1));
                                assert(perm6_from_1(me, got0, at, acc1, a, r));
                                assert(stops_with(stop0, soft0));
                                assert(perm6_from_0(me, got0, at, acc0, a, r));
                            }
                        }
                        got.2 = Some(o);
                        continue ;
                    },
                    Err(ErrMode::Cut(e)) => {
                        proof {
                            let r = Err::<(O1, O2, O3, O4, O5, O6), ErrMode<E>>(ErrMode::Cut(e));
                            assert(perm6_from_2(me, got0, at, acc2, *input, r));
                            assert(stops_with(stop1, soft1));
                            assert(perm6_from_1(me, got0, at, acc1, *input, r));
                            assert(stops_with(stop0, soft0));
                            assert(perm6_from_0(me, got0, at, acc0, *input, r));
                        }
                        return Err(ErrMode::Cut(e));
                    },
                    Err(ErrMode::Backtrack(e)) => {
                        proof {
                            stop2 = *input;
                            soft2 = ErrMode::Backtrack(e);
                        }
                        err = Some(
                            match err {
                                Some(earlier) => earlier.or(e),
                                None => e,
                            },
                        );
                    },
                    Err(ErrMode::Incomplete(n)) => {
                        proof {
                            stop2 = *input;
                            soft2 = ErrMode::Incomplete(n);
                        }
                        if need.is_none() {
                            need = Some(n);
                        }
                    },
                }
            }
            let ghost acc3 = RoundSoFar { need, err };
            assert(got == got0);
            assert(got0.2 is Some ==> acc3 == acc2);
            assert(got0.2 is None ==> acc3 == acc2.note(soft2) && !(soft2 is Cut));
            assert(got0.2 is None ==> me.2.parses(at, stop2, Err(soft2)));
            let ghost mut stop3: I = at;
            let ghost mut soft3: ErrMode<E> = ErrMode::Incomplete(Needed { size: 0 });
            if got.3.is_none() {
                input.reset(start.checkpoint());
                match self.3.parse_next(input) {
                    Ok(o) => {
                        proof {
                            let next = *input;
                            let then = (got0.0, got0.1, got0.2, Some(o), got0.4, got0.5);
                            assert forall|a: I, r: PResult<(O1, O2, O3, O4, O5, O6), E>| #[trigger]
                                perm6_from_0(me, then, next, RoundSoFar::fresh(), a, r)
                            implies me.permutes(x0, a, r) by {
                                assert(stops_with(next, o));
                                assert(perm6_from_3(me, got0, at, acc3, a, r));
                                assert(stops_with(stop2, soft2));
                                assert(perm6_from_2(me, got0, at, acc2, a, r));
                                assert(stops_with(stop1, soft1));
                                assert(perm6_from_1(me, got0, at, acc1, a, r));
                                assert(stops_with(stop0, soft0));
                                assert(perm6_from_0(me, got0, at, acc0, a, r));
                            }
                        }
                        got.3 = Some(o);
                        continue ;
                    },
                    Err(ErrMode::Cut(e)) => {
                        proof {
                            let r = Err::<(O1, O2, O3, O4, O5, O6), ErrMode<E>>(ErrMode::Cut(e));
                            assert(perm6_from_3(me, got0, at, acc3, *input, r));
                            assert(stops_with(stop2, soft2));
                            assert(perm6_from_2(me, got0, at, acc2, *input, r));
                            assert(stops_with(stop1, soft1));
                            assert(perm6_from_1(me, got0, at, acc1, *input, r));
                            assert(stops_with(stop0, soft0));
                            assert(perm6_from_0(me, got0, at, acc0, *input, r));
                        }
                        return Err(ErrMode::Cut(e));
                    },
                    Err(ErrMode::Backtrack(e)) => {
                        proof {
                            stop3 = *input;
                            soft3 = ErrMode::Backtrack(e);
                        }
                        err = Some(
                            match err {
                                Some(earlier) => earlier.or(e),
                                None => e,
                            },
                        );
                    },
                    Err(ErrMode::Incomplete(n)) => {
                        proof {
                            stop3 = *input;
                            soft3 = ErrMode::Incomplete(n);
                        }
                        if need.is_none() {
                            need = Some(n);
                        }
                    },
                }
            }
            let ghost acc4 = RoundSoFar { need, err };
            assert(got == got0);
            assert(got0.3 is Some ==> acc4 == acc3);
            assert(got0.3 is None ==> acc4 == acc3.note(soft3) && !(soft3 is Cut));
            assert(got0.3 is None ==> me.3.parses(at, stop3, Err(soft3)));
            let ghost mut stop4: I = at;
            let ghost mut soft4: ErrMode<E> = ErrMode::Incomplete(Needed { size: 0 });
            if got.4.is_none() {
                input.reset(start.checkpoint());
                match self.4.parse_next(input) {
                    Ok(o) => {
                        proof {
                            let next = *input;
                            let then = (got0.0, got0.1, got0.2, got0.3, Some(o), got0.5);
                            assert forall|a: I, r: PResult<(O1, O2, O3, O4, O5, O6), E>| #[trigger]
                                perm6_from_0(me, then, next, RoundSoFar::fresh(), a, r)
                            implies me.permutes(x0, a, r) by {
                                assert(stops_with(next, o));
                                assert(perm6_from_4(me, got0, at, acc4, a, r));
                                assert(stops_with(stop3, soft3));
                                assert(perm6_from_3(me, got0, at, acc3, a, r));
                                assert(stops_with(stop2, soft2));
                                assert(perm6_from_2(me, got0, at, acc2, a, r));
                                assert(stops_with(stop1, soft1));
                                assert(perm6_from_1(me, got0, at, acc1, a, r));
                                assert(stops_with(stop0, soft0));
                                assert(perm6_from_0(me, got0, at, acc0, a, r));
                            }
                        }
                        got.4 = Some(o);
                        continue ;
                    },
                    Err(ErrMode::Cut(e)) => {
                        proof {
                            let r = Err::<(O1, O2, O3, O4, O5, O6), ErrMode<E>>(ErrMode::Cut(e));
                            assert(perm6_from_4(me, got0, at, acc4, *input, r));
                            assert(stops_with(stop3, soft3));
                            assert(perm6_from_3(me, got0, at, acc3, *input, r));
                            assert(stops_with(stop2, soft2));
                            assert(perm6_from_2(me, got0, at, acc2, *input, r));
                            assert(stops_with(stop1, soft1));
                            assert(perm6_from_1(me, got0, at, acc1, *input, r));
                            assert(stops_with(stop0, soft0));
                            assert(perm6_from_0(me, got0, at, acc0, *input, r));
                        }
                        return Err(ErrMode::Cut(e));
                    },
                    Err(ErrMode::Backtrack(e)) => {
                        proof {
                            stop4 = *input;
                            soft4 = ErrMode::Backtrack(e);
                        }
                        err = Some(
                            match err {
                                Some(earlier) => earlier.or(e),
                                None => e,
                            },
                        );
                    },
                    Err(ErrMode::Incomplete(n)) => {
                        proof {
                            stop4 = *input;
                            soft4 = ErrMode::Incomplete(n);
                        }
                        if need.is_none() {
                            need = Some(n);
                        }
                    },
                }
            }
            let ghost acc5 = RoundSoFar { need, err };
            assert(got == got0);
            assert(got0.4 is Some ==> acc5 == acc4);
            assert(got0.4 is None ==> acc5 == acc4.note(soft4) && !(soft4 is Cut));
            assert(got0.4 is None ==> me.4.parses(at, stop4, Err(soft4)));
            let ghost mut stop5: I = at;
            let ghost mut soft5: ErrMode<E> = ErrMode::Incomplete(Needed { size: 0 });
            if got.5.is_none() {
                input.reset(start.checkpoint());
                match self.5.parse_next(input) {
                    Ok(o) => {
                        proof {
                            let next = *input;
                            let then = (got0.0, got0.1, got0.2, got0.3, got0.4, Some(o));
                            assert forall|a: I, r: PResult<(O1, O2, O3, O4, O5, O6), E>| #[trigger]
                                perm6_from_0(me, then, next, RoundSoFar::fresh(), a, r)
                            implies me.permutes(x0, a, r) by {
                                assert(stops_with(next, o));
                                assert(perm6_from_5(me, got0, at, acc5, a, r));
                                assert(stops_with(stop4, soft4));
                                assert(perm6_from_4(me, got0, at, acc4, a, r));
                                assert(stops_with(stop3, soft3));
                                assert(perm6_from_3(me, got0, at, acc3, a, r));
                                assert(stops_with(stop2, soft2));
                                assert(perm6_from_2(me, got0, at, acc2, a, r));
                                assert(stops_with(stop1, soft1));
                                assert(perm6_from_1(me, got0, at, acc1, a, r));
                                assert(stops_with(stop0, soft0));
                                assert(perm6_from_0(me, got0, at, acc0, a, r));
                            }
                        }
                        got.5 = Some(o);
                        continue ;
                    },
                    Err(ErrMode::Cut(e)) => {
                        proof {
                            let r = Err::<(O1, O2, O3, O4, O5, O6), ErrMode<E>>(ErrMode::Cut(e));
                            assert(perm6_from_5(me, got0, at, acc5, *input, r));
                            assert(stops_with(stop4, soft4));
                            assert(perm6_from_4(me, got0, at, acc4, *input, r));
                            assert(stops_with(stop3, soft3));
                            assert(perm6_from_3(me, got0, at, acc3, *input, r));
                            assert(stops_with(stop2, soft2));
                            assert(perm6_from_2(me, got0, at, acc2, *input, r));
                            assert(stops_with(stop1, soft1));
                            assert(perm6_from_1(me, got0, at, acc1, *input, r));
                            assert(stops_with(stop0, soft0));
                            assert(perm6_from_0(me, got0, at, acc0, *input, r));
                        }
                        return Err(ErrMode::Cut(e));
                    },
                    Err(ErrMode::Backtrack(e)) => {
                        proof {
                            stop5 = *input;
                            soft5 = ErrMode::Backtrack(e);
                        }
                        err = Some(
                            match err {
                                Some(earlier) => earlier.or(e),
                                None => e,
                            },
                        );
                    },
                    Err(ErrMode::Incomplete(n)) => {
                        proof {
                            stop5 = *input;
                            soft5 = ErrMode::Incomplete(n);
                        }
                        if need.is_none() {
                            need = Some(n);
                        }
                    },
                }
            }
            let ghost acc6 = RoundSoFar { need, err };
            assert(got == got0);
            assert(got0.5 is Some ==> acc6 == acc5);
            assert(got0.5 is None ==> acc6 == acc5.note(soft5) && !(soft5 is Cut));
            assert(got0.5 is None ==> me.5.parses(at, stop5, Err(soft5)));
            input.reset(start);
            let r = match need {
                Some(n) => Err(ErrMode::Incomplete(n)),
                None => match err {
                    Some(e) => Err(ErrMode::Backtrack(e.append(&*input, ErrorKind::Permutation))),
                    None => match got {
                        (Some(o1), Some(o2), Some(o3), Some(o4), Some(o5), Some(o6)) => Ok(
                            (o1, o2, o3, o4, o5, o6),
                        ),
                        _ => {
                            proof {
                                assert(got0.0 is Some);
                                assert(got0.1 is Some);
                                assert(got0.2 is Some);
                                assert(got0.3 is Some);
                                assert(got0.4 is Some);
                                assert(got0.5 is Some);
                            }
                            vstd::pervasive::unreached()
                        },
                    },
                },
            };
            proof {
                assert(perm6_end(me, got0, at, acc6, *input, r));
                assert(stops_with(stop5, soft5));
                assert(perm6_from_5(me, got0, at, acc5, *input, r));
                assert(stops_with(stop4, soft4));
                assert(perm6_from_4(me, got0, at, acc4, *input, r));
                assert(stops_with(stop3, soft3));
                assert(perm6_from_3(me, got0, at, acc3, *input, r));
                assert(stops_with(stop2, soft2));
                assert(perm6_from_2(me, got0, at, acc2, *input, r));
                assert(stops_with(stop1, soft1));
                assert(perm6_from_1(me, got0, at, acc1, *input, r));
                assert(stops_with(stop0, soft0));
                assert(perm6_from_0(me, got0, at, acc0, *input, r));
            }
            return r;
        }
    }
}

/// How many of the 7 parsers have not matched yet.
pub open spec fn perm7_pending<O1, O2, O3, O4, O5, O6, O7>(
    got: (Option<O1>, Option<O2>, Option<O3>, Option<O4>, Option<O5>, Option<O6>, Option<O7>),
) -> nat {
    (if got.0 is None {
        1nat
    } else {
        0nat
    }) +
        (if got.1 is None {
            1nat
        } else {
            0nat
        }) +
        (if got.2 is None {
            1nat
        } else {
            0nat
        }) +
        (if got.3 is None {
            1nat
        } else {
            0nat
        }) +
        (if got.4 is None {
            1nat
        } else {
            0nat
        }) +
        (if got.5 is None {
            1nat
        } else {
            0nat
        }) +
        (if got.6 is None {
            1nat
        } else {
            0nat
        })
}

/// What a permutation of 7 parsers does in one round and in the rounds
/// after it.
///
/// The round starts with the cursor at `at`; `got` holds the outputs of the
/// parsers that matched in earlier rounds. Each parser that has not matched
/// yet is tried at `at`, in the order of the tuple. The first that succeeds
/// ends the round: its output is kept and the next round starts where it
/// stopped. An unrecoverable failure is the outcome at once. A recoverable
/// failure or a request for more input is noted in `acc`, and the next
/// parser is tried. This function speaks of the round from its first parser
/// on; the functions after it speak of the round from a later parser on.
pub open spec fn perm7_from_0<I, O1, O2, O3, O4, O5, O6, O7, E, A1, A2, A3, A4, A5, A6, A7>(
    ps: (A1, A2, A3, A4, A5, A6, A7),
    got: (Option<O1>, Option<O2>, Option<O3>, Option<O4>, Option<O5>, Option<O6>, Option<O7>),
    at: I,
    acc: RoundSoFar<E>,
    after: I,
    r: PResult<(O1, O2, O3, O4, O5, O6, O7), E>,
) -> bool where
    I: Stream,
    E: ParseError<I>,
    A1: Parser<I, O1, E>,
    A2: Parser<I, O2, E>,
    A3: Parser<I, O3, E>,
    A4: Parser<I, O4, E>,
    A5: Parser<I, O5, E>,
    A6: Parser<I, O6, E>,
    A7: Parser<I, O7, E>,

    decreases perm7_pending(got), 7nat,
{
    if got.0 is Some {
        perm7_from_1(ps, got, at, acc, after, r)
    } else {
        ||| exists|next: I, o: O1| #[trigger]
            stops_with(next, o) && ps.0.parses(at, next, Ok(o)) && perm7_from_0(
                ps,
                (Some(o), got.1, got.2, got.3, got.4, got.5, got.6),
                next,
                RoundSoFar::fresh(),
                after,
                r,
            )
        ||| r matches Err(ErrMode::Cut(e)) && ps.0.parses(at, after, Err(ErrMode::Cut(e)))
        ||| exists|stop: I, soft: ErrMode<E>| #[trigger]
            stops_with(stop, soft) && !(soft is Cut) && ps.0.parses(at, stop, Err(soft))
                && perm7_from_1(ps, got, at, acc.note(soft), after, r)
    }
}

/// The rest of a round of a permutation of 7 parsers, from parser 1 on.
pub open spec fn perm7_from_1<I, O1, O2, O3, O4, O5, O6, O7, E, A1, A2, A3, A4, A5, A6, A7>(
    ps: (A1, A2, A3, A4, A5, A6, A7),
    got: (Option<O1>, Option<O2>, Option<O3>, Option<O4>, Option<O5>, Option<O6>, Option<O7>),
    at: I,
    acc: RoundSoFar<E>,
    after: I,
    r: PResult<(O1, O2, O3, O4, O5, O6, O7), E>,
) -> bool where
    I: Stream,
    E: ParseError<I>,
    A1: Parser<I, O1, E>,
    A2: Parser<I, O2, E>,
    A3: Parser<I, O3, E>,
    A4: Parser<I, O4, E>,
    A5: Parser<I, O5, E>,
    A6: Parser<I, O6, E>,
    A7: Parser<I, O7, E>,

    decreases perm7_pending(got), 6nat,
{
    if got.1 is Some {
        perm7_from_2(ps, got, at, acc, after, r)
    } else {
        ||| exists|next: I, o: O2| #[trigger]
            stops_with(next, o) && ps.1.parses(at, next, Ok(o)) && perm7_from_0(
                ps,
                (got.0, Some(o), got.2, got.3, got.4, got.5, got.6),
                next,
                RoundSoFar::fresh(),
                after,
                r,
            )
        ||| r matches Err(ErrMode::Cut(e)) && ps.1.parses(at, after, Err(ErrMode::Cut(e)))
        ||| exists|stop: I, soft: ErrMode<E>| #[trigger]
            stops_with(stop, soft) && !(soft is Cut) && ps.1.parses(at, stop, Err(soft))
                && perm7_from_2(ps, got, at, acc.note(soft), after, r)
    }
}

/// The rest of a round of a permutation of 7 parsers, from parser 2 on.
pub open spec fn perm7_from_2<I, O1, O2, O3, O4, O5, O6, O7, E, A1, A2, A3, A4, A5, A6, A7>(
    ps: (A1, A2, A3, A4, A5, A6, A7),
    got: (Option<O1>, Option<O2>, Option<O3>, Option<O4>, Option<O5>, Option<O6>, Option<O7>),
    at: I,
    acc: RoundSoFar<E>,
    after: I,
    r: PResult<(O1, O2, O3, O4, O5, O6, O7), E>,
) -> bool where
    I: Stream,
    E: ParseError<I>,
    A1: Parser<I, O1, E>,
    A2: Parser<I, O2, E>,
    A3: Parser<I, O3, E>,
    A4: Parser<I, O4, E>,
    A5: Parser<I, O5, E>,
    A6: Parser<I, O6, E>,
    A7: Parser<I, O7, E>,

    decreases perm7_pending(got), 5nat,
{
    if got.2 is Some {
        perm7_from_3(ps, got, at, acc, after, r)
    } else {
        ||| exists|next: I, o: O3| #[trigger]
            stops_with(next, o) && ps.2.parses(at, next, Ok(o)) && perm7_from_0(
                ps,
                (got.0, got.1, Some(o), got.3, got.4, got.5, got.6),
                next,
                RoundSoFar::fresh(),
                after,
                r,
            )
        ||| r matches Err(ErrMode::Cut(e)) && ps.2.parses(at, after, Err(ErrMode::Cut(e)))
        ||| exists|stop: I, soft: ErrMode<E>| #[trigger]
            stops_with(stop, soft) && !(soft is Cut) && ps.2.parses(at, stop, Err(soft))
                && perm7_from_3(ps, got, at, acc.note(soft), after, r)
    }
}

/// The rest of a round of a permutation of 7 parsers, from parser 3 on.
pub open spec fn perm7_from_3<I, O1, O2, O3, O4, O5, O6, O7, E, A1, A2, A3, A4, A5, A6, A7>(
    ps: (A1, A2, A3, A4, A5, A6, A7),
    got: (Option<O1>, Option<O2>, Option<O3>, Option<O4>, Option<O5>, Option<O6>, Option<O7>),
    at: I,
    acc: RoundSoFar<E>,
    after: I,
    r: PResult<(O1, O2, O3, O4, O5, O6, O7), E>,
) -> bool where
    I: Stream,
    E: ParseError<I>,
    A1: Parser<I, O1, E>,
    A2: Parser<I, O2, E>,
    A3: Parser<I, O3, E>,
    A4: Parser<I, O4, E>,
    A5: Parser<I, O5, E>,
    A6: Parser<I, O6, E>,
    A7: Parser<I, O7, E>,

    decreases perm7_pending(got), 4nat,
{
    if got.3 is Some {
        perm7_from_4(ps, got, at, acc, after, r)
    } else {
        ||| exists|next: I, o: O4| #[trigger]
            stops_with(next, o) && ps.3.parses(at, next, Ok(o)) && perm7_from_0(
                ps,
                (got.0, got.1, got.2, Some(o), got.4, got.5, got.6),
                next,
                RoundSoFar::fresh(),
                after,
                r,
            )
        ||| r matches Err(ErrMode::Cut(e)) && ps.3.parses(at, after, Err(ErrMode::Cut(e)))
        ||| exists|stop: I, soft: ErrMode<E>| #[trigger]
            stops_with(stop, soft) && !(soft is Cut) && ps.3.parses(at, stop, Err(soft))
                && perm7_from_4(ps, got, at, acc.note(soft), after, r)
    }
}

/// The rest of a round of a permutation of 7 parsers, from parser 4 on.
pub open spec fn perm7_from_4<I, O1, O2, O3, O4, O5, O6, O7, E, A1, A2, A3, A4, A5, A6, A7>(
    ps: (A1, A2, A3, A4, A5, A6, A7),
    got: (Option<O1>, Option<O2>, Option<O3>, Option<O4>, Option<O5>, Option<O6>, Option<O7>),
    at: I,
    acc: RoundSoFar<E>,
    after: I,
    r: PResult<(O1, O2, O3, O4, O5, O6, O7), E>,
) -> bool where
    I: Stream,
    E: ParseError<I>,
    A1: Parser<I, O1, E>,
    A2: Parser<I, O2, E>,
    A3: Parser<I, O3, E>,
    A4: Parser<I, O4, E>,
    A5: Parser<I, O5, E>,
    A6: Parser<I, O6, E>,
    A7: Parser<I, O7, E>,

    decreases perm7_pending(got), 3nat,
{
    if got.4 is Some {
        perm7_from_5(ps, got, at, acc, after, r)
    } else {
        ||| exists|next: I, o: O5| #[trigger]
            stops_with(next, o) && ps.4.parses(at, next, Ok(o)) && perm7_from_0(
                ps,
                (got.0, got.1, got.2, got.3, Some(o), got.5, got.6),
                next,
                RoundSoFar::fresh(),
                after,
                r,
            )
        ||| r matches Err(ErrMode::Cut(e)) && ps.4.parses(at, after, Err(ErrMode::Cut(e)))
        ||| exists|stop: I, soft: ErrMode<E>| #[trigger]
            stops_with(stop, soft) && !(soft is Cut) && ps.4.parses(at, stop, Err(soft))
                && perm7_from_5(ps, got, at, acc.note(soft), after, r)
    }
}

/// The rest of a round of a permutation of 7 parsers, from parser 5 on.
pub open spec fn perm7_from_5<I, O1, O2, O3, O4, O5, O6, O7, E, A1, A2, A3, A4, A5, A6, A7>(
    ps: (A1, A2, A3, A4, A5, A6, A7),
    got: (Option<O1>, Option<O2>, Option<O3>, Option<O4>, Option<O5>, Option<O6>, Option<O7>),
    at: I,
    acc: RoundSoFar<E>,
    after: I,
    r: PResult<(O1, O2, O3, O4, O5, O6, O7), E>,
) -> bool where
    I: Stream,
    E: ParseError<I>,
    A1: Parser<I, O1, E>,
    A2: Parser<I, O2, E>,
    A3: Parser<I, O3, E>,
    A4: Parser<I, O4, E>,
    A5: Parser<I, O5, E>,
    A6: Parser<I, O6, E>,
    A7: Parser<I, O7, E>,

    decreases perm7_pending(got), 2nat,
{
    if got.5 is Some {
        perm7_from_6(ps, got, at, acc, after, r)
    } else {
        ||| exists|next: I, o: O6| #[trigger]
            stops_with(next, o) && ps.5.parses(at, next, Ok(o)) && perm7_from_0(
                ps,
                (got.0, got.1, got.2, got.3, got.4, Some(o), got.6),
                next,
                RoundSoFar::fresh(),
                after,
                r,
            )
        ||| r matches Err(ErrMode::Cut(e)) && ps.5.parses(at, after, Err(ErrMode::Cut(e)))
        ||| exists|stop: I, soft: ErrMode<E>| #[trigger]
            stops_with(stop, soft) && !(soft is Cut) && ps.5.parses(at, stop, Err(soft))
                && perm7_from_6(ps, got, at, acc.note(soft), after, r)
    }
}

/// The rest of a round of a permutation of 7 parsers, from parser 6 on.
pub open spec fn perm7_from_6<I, O1, O2, O3, O4, O5, O6, O7, E, A1, A2, A3, A4, A5, A6, A7>(
    ps: (A1, A2, A3, A4, A5, A6, A7),
    got: (Option<O1>, Option<O2>, Option<O3>, Option<O4>, Option<O5>, Option<O6>, Option<O7>),
    at: I,
    acc: RoundSoFar<E>,
    after: I,
    r: PResult<(O1, O2, O3, O4, O5, O6, O7), E>,
) -> bool where
    I: Stream,
    E: ParseError<I>,
    A1: Parser<I, O1, E>,
    A2: Parser<I, O2, E>,
    A3: Parser<I, O3, E>,
    A4: Parser<I, O4, E>,
    A5: Parser<I, O5, E>,
    A6: Parser<I, O6, E>,
    A7: Parser<I, O7, E>,

    decreases perm7_pending(got), 1nat,
{
    if got.6 is Some {
        perm7_end(ps, got, at, acc, after, r)
    } else {
        ||| exists|next: I, o: O7| #[trigger]
            stops_with(next, o) && ps.6.parses(at, next, Ok(o)) && perm7_from_0(
                ps,
                (got.0, got.1, got.2, got.3, got.4, got.5, Some(o)),
                next,
                RoundSoFar::fresh(),
                after,
                r,
            )
        ||| r matches Err(ErrMode::Cut(e)) && ps.6.parses(at, after, Err(ErrMode::Cut(e)))
        ||| exists|stop: I, soft: ErrMode<E>| #[trigger]
            stops_with(stop, soft) && !(soft is Cut) && ps.6.parses(at, stop, Err(soft))
                && perm7_end(ps, got, at, acc.note(soft), after, r)
    }
}

/// The end of a round of a permutation of 7 parsers in which no parser
/// succeeded or failed unrecoverably. The cursor goes back to `at`, where
/// the round started. If a parser asked for more input, the first such
/// request is the outcome. Else, if a parser failed, the outcome is a
/// recoverable failure: the last parser's error under a frame of kind
/// [`ErrorKind::Permutation`]. Else every parser has matched, and the
/// outputs are yielded in the order of the tuple.
pub open spec fn perm7_end<I, O1, O2, O3, O4, O5, O6, O7, E, A1, A2, A3, A4, A5, A6, A7>(
    ps: (A1, A2, A3, A4, A5, A6, A7),
    got: (Option<O1>, Option<O2>, Option<O3>, Option<O4>, Option<O5>, Option<O6>, Option<O7>),
    at: I,
    acc: RoundSoFar<E>,
    after: I,
    r: PResult<(O1, O2, O3, O4, O5, O6, O7), E>,
) -> bool where
    I: Stream,
    E: ParseError<I>,
    A1: Parser<I, O1, E>,
    A2: Parser<I, O2, E>,
    A3: Parser<I, O3, E>,
    A4: Parser<I, O4, E>,
    A5: Parser<I, O5, E>,
    A6: Parser<I, O6, E>,
    A7: Parser<I, O7, E>,

    decreases perm7_pending(got), 0nat,
{
    after == at && match acc.need {
        Some(n) => r == Err::<(O1, O2, O3, O4, O5, O6, O7), ErrMode<E>>(ErrMode::Incomplete(n)),
        None => match acc.err {
            Some(last) => r matches Err(ErrMode::Backtrack(e)) && e.appended_to(
                last,
                at,
                ErrorKind::Permutation,
            ),
            None => {
                &&& got.0 is Some
                &&& got.1 is Some
                &&& got.2 is Some
                &&& got.3 is Some
                &&& got.4 is Some
                &&& got.5 is Some
                &&& got.6 is Some
                &&& r == Ok::<(O1, O2, O3, O4, O5, O6, O7), ErrMode<E>>(
                    (
                        got.0->Some_0, got.1->Some_0, got.2->Some_0, got.3->Some_0, got.4->Some_0,
                        got.5->Some_0, got.6->Some_0,
                    ),
                )
            },
        },
    }
}

impl<I, O1, O2, O3, O4, O5, O6, O7, E, A1, A2, A3, A4, A5, A6, A7> Permutation<
    I,
    (O1, O2, O3, O4, O5, O6, O7),
    E,
> for (A1, A2, A3, A4, A5, A6, A7) where
    I: Stream,
    E: ParseError<I>,
    A1: Parser<I, O1, E>,
    A2: Parser<I, O2, E>,
    A3: Parser<I, O3, E>,
    A4: Parser<I, O4, E>,
    A5: Parser<I, O5, E>,
    A6: Parser<I, O6, E>,
    A7: Parser<I, O7, E>,
 {
    open spec fn perm_wf(&self) -> bool {
        &&& self.0.wf()
        &&& self.1.wf()
        &&& self.2.wf()
        &&& self.3.wf()
        &&& self.4.wf()
        &&& self.5.wf()
        &&& self.6.wf()
    }

    open spec fn permutes(
        &self,
        before: I,
        after: I,
        r: PResult<(O1, O2, O3, O4, O5, O6, O7), E>,
    ) -> bool {
        let none = (
            None::<O1>, None::<O2>, None::<O3>, None::<O4>, None::<O5>, None::<O6>, None::<O7>,
        );
        perm7_from_0(*self, none, before, RoundSoFar::fresh(), after, r)
    }

    #[verifier::rlimit(100)]
    fn permutation(&mut self, input: &mut I) -> (r: PResult<(O1, O2, O3, O4, O5, O6, O7), E>) {
        let ghost me = *self;
        let ghost x0 = *input;
        let mut got: (
            Option<O1>, Option<O2>, Option<O3>, Option<O4>, Option<O5>, Option<O6>, Option<O7>,
        ) = (
            None, None, None, None, None, None, None);
        loop
            invariant
                *self == me,
                *old(self) == me,
                *old(input) == x0,
                me.perm_wf(),
                forall|a: I, r: PResult<(O1, O2, O3, O4, O5, O6, O7), E>| #[trigger]
                    perm7_from_0(me, got, *input, RoundSoFar::fresh(), a, r) ==> me.permutes(
                        x0,
                        a,
                        r,
                    ),
            decreases perm7_pending(got),
        {
            let start = input.checkpoint();
            let ghost at = *input;
            let ghost got0 = got;
            let mut need: Option<Needed> = None;
            let mut err: Option<E> = None;
            let ghost acc0 = RoundSoFar::<E>::fresh();
            let ghost mut stop0: I = at;
            let ghost mut soft0: ErrMode<E> = ErrMode::Incomplete(Needed { size: 0 });
            if got.0.is_none() {
                input.reset(start.checkpoint());
                match self.0.parse_next(input) {
                    Ok(o) => {
                        proof {
                            let next = *input;
                            let then = (Some(o), got0.1, got0.2, got0.3, got0.4, got0.5, got0.6);
                            assert forall|
                                a: I,
                                r: PResult<(O1, O2, O3, O4, O5, O6, O7), E>,
                            | #[trigger]
                                perm7_from_0(me, then, next, RoundSoFar::fresh(), a, r)
                            implies me.permutes(x0, a, r) by {
                                assert(stops_with(next, o));
                                assert(perm7_from_0(me, got0, at, acc0, a, r));
                            }
                        }
                        got.0 = Some(o);
                        continue ;
                    },
                    Err(ErrMode::Cut(e)) => {
                        proof {
                            let r = Err::<(O1, O2, O3, O4, O5, O6, O7), ErrMode<E>>(
                                ErrMode::Cut(e),
                            );
                            assert(perm7_from_0(me, got0, at, acc0, *input, r));
                        }
                        return Err(ErrMode::Cut(e));
                    },
                    Err(ErrMode::Backtrack(e)) => {
                        proof {
                            stop0 = *input;
                            soft0 = ErrMode::Backtrack(e);
                        }
                        err = Some(
                            match err {
                                Some(earlier) => earlier.or(e),
                                None => e,
                            },
                        );
                    },
                    Err(ErrMode::Incomplete(n)) => {
                        proof {
                            stop0 = *input;
                            soft0 = ErrMode::Incomplete(n);
                        }
                        if need.is_none() {
                            need = Some(n);
                        }
                    },
                }
            }
            let ghost acc1 = RoundSoFar { need, err };
            assert(got == got0);
            assert(got0.0 is Some ==> acc1 == acc0);
            assert(got0.0 is None ==> acc1 == acc0.note(soft0) && !(soft0 is Cut));
            assert(got0.0 is None ==> me.0.parses(at, stop0, Err(soft0)));
            let ghost mut stop1: I = at;
            let ghost mut soft1: ErrMode<E> = ErrMode::Incomplete(Needed { size: 0 });
            if got.1.is_none() {
                input.reset(start.checkpoint());
                match self.1.parse_next(input) {
                    Ok(o) => {
                        proof {
                            let next = *input;
                            let then = (got0.0, Some(o), got0.2, got0.3, got0.4, got0.5, got0.6);
                            assert forall|
                                a: I,
                                r: PResult<(O1, O2, O3, O4, O5, O6, O7), E>,
                            | #[trigger]
                                perm7_from_0(me, then, next, RoundSoFar::fresh(), a, r)
                            implies me.permutes(x0, a, r) by {
                                assert(stops_with(next, o));
                                assert(perm7_from_1(me, got0, at, acc1, a, r));
                                assert(stops_with(stop0, soft0));
                                assert(perm7_from_0(me, got0, at, acc0, a, r));
                            }
                        }
                        got.1 = Some(o);
                        continue ;
                    },
                    Err(ErrMode::Cut(e)) => {
                        proof {
                            let r = Err::<(O1, O2, O3, O4, O5, O6, O7), ErrMode<E>>(
                                ErrMode::Cut(e),
                            );
                            assert(perm7_from_1(me, got0, at, acc1, *input, r));
                            assert(stops_with(stop0, soft0));
                            assert(perm7_from_0(me, got0, at, acc0, *input, r));
                        }
                        return Err(ErrMode::Cut(e));
                    },
                    Err(ErrMode::Backtrack(e)) => {
                        proof {
                            stop1 = *input;
                            soft1 = ErrMode::Backtrack(e);
                        }
                        err = Some(
                            match err {
                                Some(earlier) => earlier.or(e),
                                None => e,
                            },
                        );
                    },
                    Err(ErrMode::Incomplete(n)) => {
                        proof {
                            stop1 = *input;
                            soft1 = ErrMode::Incomplete(n);
                        }
                        if need.is_none() {
                            need = Some(n);
                        }
                    },
                }
            }
            let ghost acc2 = RoundSoFar { need, err };
            assert(got == got0);
            assert(got0.1 is Some ==> acc2 == acc1);
            assert(got0.1 is None ==> acc2 == acc1.note(soft1) && !(soft1 is Cut));
            assert(got0.1 is None ==> me.1.parses(at, stop1, Err(soft1)));
            let ghost mut stop2: I = at;
            let ghost mut soft2: ErrMode<E> = ErrMode::Incomplete(Needed { size: 0 });
            if got.2.is_none() {
                input.reset(start.checkpoint());
                match self.2.parse_next(input) {
                    Ok(o) => {
                        proof {
                            let next = *input;
                            let then = (got0.0, got0.1, Some(o), got0.3, got0.4, got0.5, got0.6);
                            assert forall|
                                a: I,
                                r: PResult<(O1, O2, O3, O4, O5, O6, O7), E>,
                            | #[trigger]
                                perm7_from_0(me, then, next, RoundSoFar::fresh(), a, r)
                            implies me.permutes(x0, a, r) by {
                                assert(stops_with(next, o));
                                assert(perm7_from_2(me, got0, at, acc2, a, r));
                                assert(stops_with(stop1, soft1));
                                assert(perm7_from_1(me, got0, at, acc1, a, r));
                                assert(stops_with(stop0, soft0));
                                assert(perm7_from_0(me, got0, at, acc0, a, r));
                            }
                        }
                        got.2 = Some(o);
                        continue ;
                    },
                    Err(ErrMode::Cut(e)) => {
                        proof {
                            let r = Err::<(O1, O2, O3, O4, O5, O6, O7), ErrMode<E>>(
                                ErrMode::Cut(e),
                            );
                            assert(perm7_from_2(me, got0, at, acc2, *input, r));
                            assert(stops_with(stop1, soft1));
                            assert(perm7_from_1(me, got0, at, acc1, *input, r));
                            assert(stops_with(stop0, soft0));
                            assert(perm7_from_0(me, got0, at, acc0, *input, r));
                        }
                        return Err(ErrMode::Cut(e));
                    },
                    Err(ErrMode::Backtrack(e)) => {
                        proof {
                            stop2 = *input;
                            soft2 = ErrMode::Backtrack(e);
                        }
                        err = Some(
                            match err {
                                Some(earlier) => earlier.or(e),
                                None => e,
                            },
                        );
                    },
                    Err(ErrMode::Incomplete(n)) => {
                        proof {
                            stop2 = *input;
                            soft2 = ErrMode::Incomplete(n);
                        }
                        if need.is_none() {
                            need = Some(n);
                        }
                    },
                }
            }
            let ghost acc3 = RoundSoFar { need, err };
            assert(got == got0);
            assert(got0.2 is Some ==> acc3 == acc2);
            assert(got0.2 is None ==> acc3 == acc2.note(soft2) && !(soft2 is Cut));
            assert(got0.2 is None ==> me.2.parses(at, stop2, Err(soft2)));
            let ghost mut stop3: I = at;
            let ghost mut soft3: ErrMode<E> = ErrMode::Incomplete(Needed { size: 0 });
            if got.3.is_none() {
                input.reset(start.checkpoint());
                match self.3.parse_next(input) {
                    Ok(o) => {
                        proof {
                            let next = *input;
                            let then = (got0.0, got0.1, got0.2, Some(o), got0.4, got0.5, got0.6);
                            assert forall|
                                a: I,
                                r: PResult<(O1, O2, O3, O4, O5, O6, O7), E>,
                            | #[trigger]
                                perm7_from_0(me, then, next, RoundSoFar::fresh(), a, r)
                            implies me.permutes(x0, a, r) by {
                                assert(stops_with(next, o));
                                assert(perm7_from_3(me, got0, at, acc3, a, r));
                                assert(stops_with(stop2, soft2));
                                assert(perm7_from_2(me, got0, at, acc2, a, r));
                                assert(stops_with(stop1, soft1));
                                assert(perm7_from_1(me, got0, at, acc1, a, r));
                                assert(stops_with(stop0, soft0));
                                assert(perm7_from_0(me, got0, at, acc0, a, r));
                            }
                        }
                        got.3 = Some(o);
                        continue ;
                    },
                    Err(ErrMode::Cut(e)) => {
                        proof {
                            let r = Err::<(O1, O2, O3, O4, O5, O6, O7), ErrMode<E>>(
                                ErrMode::Cut(e),
                            );
                            assert(perm7_from_3(me, got0, at, acc3, *input, r));
                            assert(stops_with(stop2, soft2));
                            assert(perm7_from_2(me, got0, at, acc2, *input, r));
                            assert(stops_with(stop1, soft1));
                            assert(perm7_from_1(me, got0, at, acc1, *input, r));
                            assert(stops_with(stop0, soft0));
                            assert(perm7_from_0(me, got0, at, acc0, *input, r));
                        }
                        return Err(ErrMode::Cut(e));
                    },
                    Err(ErrMode::Backtrack(e)) => {
                        proof {
                            stop3 = *input;
                            soft3 = ErrMode::Backtrack(e);
                        }
                        err = Some(
                            match err {
                                Some(earlier) => earlier.or(e),
                                None => e,
                            },
                        );
                    },
                    Err(ErrMode::Incomplete(n)) => {
                        proof {
                            stop3 = *input;
                            soft3 = ErrMode::Incomplete(n);
                        }
                        if need.is_none() {
                            need = Some(n);
                        }
                    },
                }
            }
            let ghost acc4 = RoundSoFar { need, err };
            assert(got == got0);
            assert(got0.3 is Some ==> acc4 == acc3);
            assert(got0.3 is None ==> acc4 == acc3.note(soft3) && !(soft3 is Cut));
            assert(got0.3 is None ==> me.3.parses(at, stop3, Err(soft3)));
            let ghost mut stop4: I = at;
            let ghost mut soft4: ErrMode<E> = ErrMode::Incomplete(Needed { size: 0 });
            if got.4.is_none() {
                input.reset(start.checkpoint());
                match self.4.parse_next(input) {
                    Ok(o) => {
                        proof {
                            let next = *input;
                            let then = (got0.0, got0.1, got0.2, got0.3, Some(o), got0.5, got0.6);
                            assert forall|
                                a: I,
                                r: PResult<(O1, O2, O3, O4, O5, O6, O7), E>,
                            | #[trigger]
                                perm7_from_0(me, then, next, RoundSoFar::fresh(), a, r)
                            implies me.permutes(x0, a, r) by {
                                assert(stops_with(next, o));
                                assert(perm7_from_4(me, got0, at, acc4, a, r));
                                assert(stops_with(stop3, soft3));
                                assert(perm7_from_3(me, got0, at, acc3, a, r));
                                assert(stops_with(stop2, soft2));
                                assert(perm7_from_2(me, got0, at, acc2, a, r));
                                assert(stops_with(stop1, soft1));
                                assert(perm7_from_1(me, got0, at, acc1, a, r));
                                assert(stops_with(stop0, soft0));
                                assert(perm7_from_0(me, got0, at, acc0, a, r));
                            }
                        }
                        got.4 = Some(o);
                        continue ;
                    },
                    Err(ErrMode::Cut(e)) => {
                        proof {
                            let r = Err::<(O1, O2, O3, O4, O5, O6, O7), ErrMode<E>>(
                                ErrMode::Cut(e),
                            );
                            assert(perm7_from_4(me, got0, at, acc4, *input, r));
                            assert(stops_with(stop3, soft3));
                            assert(perm7_from_3(me, got0, at, acc3, *input, r));
                            assert(stops_with(stop2, soft2));
                            assert(perm7_from_2(me, got0, at, acc2, *input, r));
                            assert(stops_with(stop1, soft1));
                            assert(perm7_from_1(me, got0, at, acc1, *input, r));
                            assert(stops_with(stop0, soft0));
                            assert(perm7_from_0(me, got0, at, acc0, *input, r));
                        }
                        return Err(ErrMode::Cut(e));
                    },
                    Err(ErrMode::Backtrack(e)) => {
                        proof {
                            stop4 = *input;
                            soft4 = ErrMode::Backtrack(e);
                        }
                        err = Some(
                            match err {
                                Some(earlier) => earlier.or(e),
                                None => e,
                            },
                        );
                    },
                    Err(ErrMode::Incomplete(n)) => {
                        proof {
                            stop4 = *input;
                            soft4 = ErrMode::Incomplete(n);
                        }
                        if need.is_none() {
                            need = Some(n);
                        }
                    },
                }
            }
            let ghost acc5 = RoundSoFar { need, err };
            assert(got == got0);
            assert(got0.4 is Some ==> acc5 == acc4);
            assert(got0.4 is None ==> acc5 == acc4.note(soft4) && !(soft4 is Cut));
            assert(got0.4 is None ==> me.4.parses(at, stop4, Err(soft4)));
            let ghost mut stop5: I = at;
            let ghost mut soft5: ErrMode<E> = ErrMode::Incomplete(Needed { size: 0 });
            if got.5.is_none() {
                input.reset(start.checkpoint());
                match self.5.parse_next(input) {
                    Ok(o) => {
                        proof {
                            let next = *input;
                            let then = (got0.0, got0.1, got0.2, got0.3, got0.4, Some(o), got0.6);
                            assert forall|
                                a: I,
                                r: PResult<(O1, O2, O3, O4, O5, O6, O7), E>,
                            | #[trigger]
                                perm7_from_0(me, then, next, RoundSoFar::fresh(), a, r)
                            implies me.permutes(x0, a, r) by {
                                assert(stops_with(next, o));
                                assert(perm7_from_5(me, got0, at, acc5, a, r));
                                assert(stops_with(stop4, soft4));
                                assert(perm7_from_4(me, got0, at, acc4, a, r));
                                assert(stops_with(stop3, soft3));
                                assert(perm7_from_3(me, got0, at, acc3, a, r));
                                assert(stops_with(stop2, soft2));
                                assert(perm7_from_2(me, got0, at, acc2, a, r));
                                assert(stops_with(stop1, soft1));
                                assert(perm7_from_1(me, got0, at, acc1, a, r));
                                assert(stops_with(stop0, soft0));
                                assert(perm7_from_0(me, got0, at, acc0, a, r));
                            }
                        }
                        got.5 = Some(o);
                        continue ;
                    },
                    Err(ErrMode::Cut(e)) => {
                        proof {
                            let r = Err::<(O1, O2, O3, O4, O5, O6, O7), ErrMode<E>>(
                                ErrMode::Cut(e),
                            );
                            assert(perm7_from_5(me, got0, at, acc5, *input, r));
                            assert(stops_with(stop4, soft4));
                            assert(perm7_from_4(me, got0, at, acc4, *input, r));
                            assert(stops_with(stop3, soft3));
                            assert(perm7_from_3(me, got0, at, acc3, *input, r));
                            assert(stops_with(stop2, soft2));
                            assert(perm7_from_2(me, got0, at, acc2, *input, r));
                            assert(stops_with(stop1, soft1));
                            assert(perm7_from_1(me, got0, at, acc1, *input, r));
                            assert(stops_with(stop0, soft0));
                            assert(perm7_from_0(me, got0, at, acc0, *input, r));
                        }
                        return Err(ErrMode::Cut(e));
                    },
                    Err(ErrMode::Backtrack(e)) => {
                        proof {
                            stop5 = *input;
                            soft5 = ErrMode::Backtrack(e);
                        }
                        err = Some(
                            match err {
                                Some(earlier) => earlier.or(e),
                                None => e,
                            },
                        );
                    },
                    Err(ErrMode::Incomplete(n)) => {
                        proof {
                            stop5 = *input;
                            soft5 = ErrMode::Incomplete(n);
                        }
                        if need.is_none() {
                            need = Some(n);
                        }
                    },
                }
            }
            let ghost acc6 = RoundSoFar { need, err };
            assert(got == got0);
            assert(got0.5 is Some ==> acc6 == acc5);
            assert(got0.5 is None ==> acc6 == acc5.note(soft5) && !(soft5 is Cut));
            assert(got0.5 is None ==> me.5.parses(at, stop5, Err(soft5)));
            let ghost mut stop6: I = at;
            let ghost mut soft6: ErrMode<E> = ErrMode::Incomplete(Needed { size: 0 });
            if got.6.is_none() {
                input.reset(start.checkpoint());
                match self.6.parse_next(input) {
                    Ok(o) => {
                        proof {
                            let next = *input;
                            let then = (got0.0, got0.1, got0.2, got0.3, got0.4, got0.5, Some(o));
                            assert forall|
                                a: I,
                                r: PResult<(O1, O2, O3, O4, O5, O6, O7), E>,
                            | #[trigger]
                                perm7_from_0(me, then, next, RoundSoFar::fresh(), a, r)
                            implies me.permutes(x0, a, r) by {
                                assert(stops_with(next, o));
                                assert(perm7_from_6(me, got0, at, acc6, a, r));
                                assert(stops_with(stop5, soft5));
                                assert(perm7_from_5(me, got0, at, acc5, a, r));
                                assert(stops_with(stop4, soft4));
                                assert(perm7_from_4(me, got0, at, acc4, a, r));
                                assert(stops_with(stop3, soft3));
                                assert(perm7_from_3(me, got0, at, acc3, a, r));
                                assert(stops_with(stop2, soft2));
                                assert(perm7_from_2(me, got0, at, acc2, a, r));
                                assert(stops_with(stop1, soft1));
                                assert(perm7_from_1(me, got0, at, acc1, a, r));
                                assert(stops_with(stop0, soft0));
                                assert(perm7_from_0(me, got0, at, acc0, a, r));
                            }
                        }
                        got.6 = Some(o);
                        continue ;
                    },
                    Err(ErrMode::Cut(e)) => {
                        proof {
                            let r = Err::<(O1, O2, O3, O4, O5, O6, O7), ErrMode<E>>(
                                ErrMode::Cut(e),
                            );
                            assert(perm7_from_6(me, got0, at, acc6, *input, r));
                            assert(stops_with(stop5, soft5));
                            assert(perm7_from_5(me, got0, at, acc5, *input, r));
                            assert(stops_with(stop4, soft4));
                            assert(perm7_from_4(me, got0, at, acc4, *input, r));
                            assert(stops_with(stop3, soft3));
                            assert(perm7_from_3(me, got0, at, acc3, *input, r));
                            assert(stops_with(stop2, soft2));
                            assert(perm7_from_2(me, got0, at, acc2, *input, r));
                            assert(stops_with(stop1, soft1));
                            assert(perm7_from_1(me, got0, at, acc1, *input, r));
                            assert(stops_with(stop0, soft0));
                            assert(perm7_from_0(me, got0, at, acc0, *input, r));
                        }
                        return Err(ErrMode::Cut(e));
                    },
                    Err(ErrMode::Backtrack(e)) => {
                        proof {
                            stop6 = *input;
                            soft6 = ErrMode::Backtrack(e);
                        }
                        err = Some(
                            match err {
                                Some(earlier) => earlier.or(e),
                                None => e,
                            },
                        );
                    },
                    Err(ErrMode::Incomplete(n)) => {
                        proof {
                            stop6 = *input;
                            soft6 = ErrMode::Incomplete(n);
                        }
                        if need.is_none() {
                            need = Some(n);
                        }
                    },
                }
            }
            let ghost acc7 = RoundSoFar { need, err };
            assert(got == got0);
            assert(got0.6 is Some ==> acc7 == acc6);
            assert(got0.6 is None ==> acc7 == acc6.note(soft6) && !(soft6 is Cut));
            assert(got0.6 is None ==> me.6.parses(at, stop6, Err(soft6)));
            input.reset(start);
            let r = match need {
                Some(n) => Err(ErrMode::Incomplete(n)),
                None => match err {
                    Some(e) => Err(ErrMode::Backtrack(e.append(&*input, ErrorKind::Permutation))),
                    None => match got {
                        (
                            Some(o1), Some(o2), Some(o3), Some(o4), Some(o5), Some(o6), Some(o7),
                        ) => Ok(
                            (o1, o2, o3, o4, o5, o6, o7),
                        ),
                        _ => {
                            proof {
                                assert(got0.0 is Some);
                                assert(got0.1 is Some);
                                assert(got0.2 is Some);
                                assert(got0.3 is Some);
                                assert(got0.4 is Some);
                                assert(got0.5 is Some);
                                assert(got0.6 is Some);
                            }
                            vstd::pervasive::unreached()
                        },
                    },
                },
            };
            proof {
                assert(perm7_end(me, got0, at, acc7, *input, r));
                assert(stops_with(stop6, soft6));
                assert(perm7_from_6(me, got0, at, acc6, *input, r));
                assert(stops_with(stop5, soft5));
                assert(perm7_from_5(me, got0, at, acc5, *input, r));
                assert(stops_with(stop4, soft4));
                assert(perm7_from_4(me, got0, at, acc4, *input, r));
                assert(stops_with(stop3, soft3));
                assert(perm7_from_3(me, got0, at, acc3, *input, r));
                assert(stops_with(stop2, soft2));
                assert(perm7_from_2(me, got0, at, acc2, *input, r));
                assert(stops_with(stop1, soft1));
                assert(perm7_from_1(me, got0, at, acc1, *input, r));
                assert(stops_with(stop0, soft0));
                assert(perm7_from_0(me, got0, at, acc0, *input, r));
            }
            return r;
        }
    }
}

/// How many of the 8 parsers have not matched yet.
pub open spec fn perm8_pending<O1, O2, O3, O4, O5, O6, O7, O8>(
    got: (
        Option<O1>, Option<O2>, Option<O3>, Option<O4>, Option<O5>, Option<O6>, Option<O7>,
        Option<O8>,
    ),
) -> nat {
    (if got.0 is None {
        1nat
    } else {
        0nat
    }) +
        (if got.1 is None {
            1nat
        } else {
            0nat
        }) +
        (if got.2 is None {
            1nat
        } else {
            0nat
        }) +
        (if got.3 is None {
            1nat
        } else {
            0nat
        }) +
        (if got.4 is None {
            1nat
        } else {
            0nat
        }) +
        (if got.5 is None {
            1nat
        } else {
            0nat
        }) +
        (if got.6 is None {
            1nat
        } else {
            0nat
        }) +
        (if got.7 is None {
            1nat
        } else {
            0nat
        })
}

/// What a permutation of 8 parsers does in one round and in the rounds
/// after it.
///
/// The round starts with the cursor at `at`; `got` holds the outputs of the
/// parsers that matched in earlier rounds. Each parser that has not matched
/// yet is tried at `at`, in the order of the tuple. The first that succeeds
/// ends the round: its output is kept and the next round starts where it
/// stopped. An unrecoverable failure is the outcome at once. A recoverable
/// failure or a request for more input is noted in `acc`, and the next
/// parser is tried. This function speaks of the round from its first parser
/// on; the functions after it speak of the round from a later parser on.
pub open spec fn perm8_from_0<I, O1, O2, O3, O4, O5, O6, O7, O8, E, A1, A2, A3, A4, A5, A6, A7, A8>(
    ps: (A1, A2, A3, A4, A5, A6, A7, A8),
    got: (
        Option<O1>, Option<O2>, Option<O3>, Option<O4>, Option<O5>, Option<O6>, Option<O7>,
        Option<O8>,
    ),
    at: I,
    acc: RoundSoFar<E>,
    after: I,
    r: PResult<(O1, O2, O3, O4, O5, O6, O7, O8), E>,
) -> bool where
    I: Stream,
    E: ParseError<I>,
    A1: Parser<I, O1, E>,
    A2: Parser<I, O2, E>,
    A3: Parser<I, O3, E>,
    A4: Parser<I, O4, E>,
    A5: Parser<I, O5, E>,
    A6: Parser<I, O6, E>,
    A7: Parser<I, O7, E>,
    A8: Parser<I, O8, E>,

    decreases perm8_pending(got), 8nat,
{
    if got.0 is Some {
        perm8_from_1(ps, got, at, acc, after, r)
    } else {
        ||| exists|next: I, o: O1| #[trigger]
            stops_with(next, o) && ps.0.parses(at, next, Ok(o)) && perm8_from_0(
                ps,
                (Some(o), got.1, got.2, got.3, got.4, got.5, got.6, got.7),
                next,
                RoundSoFar::fresh(),
                after,
                r,
            )
        ||| r matches Err(ErrMode::Cut(e)) && ps.0.parses(at, after, Err(ErrMode::Cut(e)))
        ||| exists|stop: I, soft: ErrMode<E>| #[trigger]
            stops_with(stop, soft) && !(soft is Cut) && ps.0.parses(at, stop, Err(soft))
                && perm8_from_1(ps, got, at, acc.note(soft), after, r)
    }
}

/// The rest of a round of a permutation of 8 parsers, from parser 1 on.
pub open spec fn perm8_from_1<I, O1, O2, O3, O4, O5, O6, O7, O8, E, A1, A2, A3, A4, A5, A6, A7, A8>(
    ps: (A1, A2, A3, A4, A5, A6, A7, A8),
    got: (
        Option<O1>, Option<O2>, Option<O3>, Option<O4>, Option<O5>, Option<O6>, Option<O7>,
        Option<O8>,
    ),
    at: I,
    acc: RoundSoFar<E>,
    after: I,
    r: PResult<(O1, O2, O3, O4, O5, O6, O7, O8), E>,
) -> bool where
    I: Stream,
    E: ParseError<I>,
    A1: Parser<I, O1, E>,
    A2: Parser<I, O2, E>,
    A3: Parser<I, O3, E>,
    A4: Parser<I, O4, E>,
    A5: Parser<I, O5, E>,
    A6: Parser<I, O6, E>,
    A7: Parser<I, O7, E>,
    A8: Parser<I, O8, E>,

    decreases perm8_pending(got), 7nat,
{
    if got.1 is Some {
        perm8_from_2(ps, got, at, acc, after, r)
    } else {
        ||| exists|next: I, o: O2| #[trigger]
            stops_with(next, o) && ps.1.parses(at, next, Ok(o)) && perm8_from_0(
                ps,
                (got.0, Some(o), got.2, got.3, got.4, got.5, got.6, got.7),
                next,
                RoundSoFar::fresh(),
                after,
                r,
            )
        ||| r matches Err(ErrMode::Cut(e)) && ps.1.parses(at, after, Err(ErrMode::Cut(e)))
        ||| exists|stop: I, soft: ErrMode<E>| #[trigger]
            stops_with(stop, soft) && !(soft is Cut) && ps.1.parses(at, stop, Err(soft))
                && perm8_from_2(ps, got, at, acc.note(soft), after, r)
    }
}

/// The rest of a round of a permutation of 8 parsers, from parser 2 on.
pub open spec fn perm8_from_2<I, O1, O2, O3, O4, O5, O6, O7, O8, E, A1, A2, A3, A4, A5, A6, A7, A8>(
    ps: (A1, A2, A3, A4, A5, A6, A7, A8),
    got: (
        Option<O1>, Option<O2>, Option<O3>, Option<O4>, Option<O5>, Option<O6>, Option<O7>,
        Option<O8>,
    ),
    at: I,
    acc: RoundSoFar<E>,
    after: I,
    r: PResult<(O1, O2, O3, O4, O5, O6, O7, O8), E>,
) -> bool where
    I: Stream,
    E: ParseError<I>,
    A1: Parser<I, O1, E>,
    A2: Parser<I, O2, E>,
    A3: Parser<I, O3, E>,
    A4: Parser<I, O4, E>,
    A5: Parser<I, O5, E>,
    A6: Parser<I, O6, E>,
    A7: Parser<I, O7, E>,
    A8: Parser<I, O8, E>,

    decreases perm8_pending(got), 6nat,
{
    if got.2 is Some {
        perm8_from_3(ps, got, at, acc, after, r)
    } else {
        ||| exists|next: I, o: O3| #[trigger]
            stops_with(next, o) && ps.2.parses(at, next, Ok(o)) && perm8_from_0(
                ps,
                (got.0, got.1, Some(o), got.3, got.4, got.5, got.6, got.7),
                next,
                RoundSoFar::fresh(),
                after,
                r,
            )
        ||| r matches Err(ErrMode::Cut(e)) && ps.2.parses(at, after, Err(ErrMode::Cut(e)))
        ||| exists|stop: I, soft: ErrMode<E>| #[trigger]
            stops_with(stop, soft) && !(soft is Cut) && ps.2.parses(at, stop, Err(soft))
                && perm8_from_3(ps, got, at, acc.note(soft), after, r)
    }
}

/// The rest of a round of a permutation of 8 parsers, from parser 3 on.
pub open spec fn perm8_from_3<I, O1, O2, O3, O4, O5, O6, O7, O8, E, A1, A2, A3, A4, A5, A6, A7, A8>(
    ps: (A1, A2, A3, A4, A5, A6, A7, A8),
    got: (
        Option<O1>, Option<O2>, Option<O3>, Option<O4>, Option<O5>, Option<O6>, Option<O7>,
        Option<O8>,
    ),
    at: I,
    acc: RoundSoFar<E>,
    after: I,
    r: PResult<(O1, O2, O3, O4, O5, O6, O7, O8), E>,
) -> bool where
    I: Stream,
    E: ParseError<I>,
    A1: Parser<I, O1, E>,
    A2: Parser<I, O2, E>,
    A3: Parser<I, O3, E>,
    A4: Parser<I, O4, E>,
    A5: Parser<I, O5, E>,
    A6: Parser<I, O6, E>,
    A7: Parser<I, O7, E>,
    A8: Parser<I, O8, E>,

    decreases perm8_pending(got), 5nat,
{
    if got.3 is Some {
        perm8_from_4(ps, got, at, acc, after, r)
    } else {
        ||| exists|next: I, o: O4| #[trigger]
            stops_with(next, o) && ps.3.parses(at, next, Ok(o)) && perm8_from_0(
                ps,
                (got.0, got.1, got.2, Some(o), got.4, got.5, got.6, got.7),
                next,
                RoundSoFar::fresh(),
                after,
                r,
            )
        ||| r matches Err(ErrMode::Cut(e)) && ps.3.parses(at, after, Err(ErrMode::Cut(e)))
        ||| exists|stop: I, soft: ErrMode<E>| #[trigger]
            stops_with(stop, soft) && !(soft is Cut) && ps.3.parses(at, stop, Err(soft))
                && perm8_from_4(ps, got, at, acc.note(soft), after, r)
    }
}

/// The rest of a round of a permutation of 8 parsers, from parser 4 on.
pub open spec fn perm8_from_4<I, O1, O2, O3, O4, O5, O6, O7, O8, E, A1, A2, A3, A4, A5, A6, A7, A8>(
    ps: (A1, A2, A3, A4, A5, A6, A7, A8),
    got: (
        Option<O1>, Option<O2>, Option<O3>, Option<O4>, Option<O5>, Option<O6>, Option<O7>,
        Option<O8>,
    ),
    at: I,
    acc: RoundSoFar<E>,
    after: I,
    r: PResult<(O1, O2, O3, O4, O5, O6, O7, O8), E>,
) -> bool where
    I: Stream,
    E: ParseError<I>,
    A1: Parser<I, O1, E>,
    A2: Parser<I, O2, E>,
    A3: Parser<I, O3, E>,
    A4: Parser<I, O4, E>,
    A5: Parser<I, O5, E>,
    A6: Parser<I, O6, E>,
    A7: Parser<I, O7, E>,
    A8: Parser<I, O8, E>,

    decreases perm8_pending(got), 4nat,
{
    if got.4 is Some {
        perm8_from_5(ps, got, at, acc, after, r)
    } else {
        ||| exists|next: I, o: O5| #[trigger]
            stops_with(next, o) && ps.4.parses(at, next, Ok(o)) && perm8_from_0(
                ps,
                (got.0, got.1, got.2, got.3, Some(o), got.5, got.6, got.7),
                next,
                RoundSoFar::fresh(),
                after,
                r,
            )
        ||| r matches Err(ErrMode::Cut(e)) && ps.4.parses(at, after, Err(ErrMode::Cut(e)))
        ||| exists|stop: I, soft: ErrMode<E>| #[trigger]
            stops_with(stop, soft) && !(soft is Cut) && ps.4.parses(at, stop, Err(soft))
                && perm8_from_5(ps, got, at, acc.note(soft), after, r)
    }
}

/// The rest of a round of a permutation of 8 parsers, from parser 5 on.
pub open spec fn perm8_from_5<I, O1, O2, O3, O4, O5, O6, O7, O8, E, A1, A2, A3, A4, A5, A6, A7, A8>(
    ps: (A1, A2, A3, A4, A5, A6, A7, A8),
    got: (
        Option<O1>, Option<O2>, Option<O3>, Option<O4>, Option<O5>, Option<O6>, Option<O7>,
        Option<O8>,
    ),
    at: I,
    acc: RoundSoFar<E>,
    after: I,
    r: PResult<(O1, O2, O3, O4, O5, O6, O7, O8), E>,
) -> bool where
    I: Stream,
    E: ParseError<I>,
    A1: Parser<I, O1, E>,
    A2: Parser<I, O2, E>,
    A3: Parser<I, O3, E>,
    A4: Parser<I, O4, E>,
    A5: Parser<I, O5, E>,
    A6: Parser<I, O6, E>,
    A7: Parser<I, O7, E>,
    A8: Parser<I, O8, E>,

    decreases perm8_pending(got), 3nat,
{
    if got.5 is Some {
        perm8_from_6(ps, got, at, acc, after, r)
    } else {
        ||| exists|next: I, o: O6| #[trigger]
            stops_with(next, o) && ps.5.parses(at, next, Ok(o)) && perm8_from_0(
                ps,
                (got.0, got.1, got.2, got.3, got.4, Some(o), got.6, got.7),
                next,
                RoundSoFar::fresh(),
                after,
                r,
            )
        ||| r matches Err(ErrMode::Cut(e)) && ps.5.parses(at, after, Err(ErrMode::Cut(e)))
        ||| exists|stop: I, soft: ErrMode<E>| #[trigger]
            stops_with(stop, soft) && !(soft is Cut) && ps.5.parses(at, stop, Err(soft))
                && perm8_from_6(ps, got, at, acc.note(soft), after, r)
    }
}

/// The rest of a round of a permutation of 8 parsers, from parser 6 on.
pub open spec fn perm8_from_6<I, O1, O2, O3, O4, O5, O6, O7, O8, E, A1, A2, A3, A4, A5, A6, A7, A8>(
    ps: (A1, A2, A3, A4, A5, A6, A7, A8),
    got: (
        Option<O1>, Option<O2>, Option<O3>, Option<O4>, Option<O5>, Option<O6>, Option<O7>,
        Option<O8>,
    ),
    at: I,
    acc: RoundSoFar<E>,
    after: I,
    r: PResult<(O1, O2, O3, O4, O5, O6, O7, O8), E>,
) -> bool where
    I: Stream,
    E: ParseError<I>,
    A1: Parser<I, O1, E>,
    A2: Parser<I, O2, E>,
    A3: Parser<I, O3, E>,
    A4: Parser<I, O4, E>,
    A5: Parser<I, O5, E>,
    A6: Parser<I, O6, E>,
    A7: Parser<I, O7, E>,
    A8: Parser<I, O8, E>,

    decreases perm8_pending(got), 2nat,
{
    if got.6 is Some {
        perm8_from_7(ps, got, at, acc, after, r)
    } else {
        ||| exists|next: I, o: O7| #[trigger]
            stops_with(next, o) && ps.6.parses(at, next, Ok(o)) && perm8_from_0(
                ps,
                (got.0, got.1, got.2, got.3, got.4, got.5, Some(o), got.7),
                next,
                RoundSoFar::fresh(),
                after,
                r,
            )
        ||| r matches Err(ErrMode::Cut(e)) && ps.6.parses(at, after, Err(ErrMode::Cut(e)))
        ||| exists|stop: I, soft: ErrMode<E>| #[trigger]
            stops_with(stop, soft) && !(soft is Cut) && ps.6.parses(at, stop, Err(soft))
                && perm8_from_7(ps, got, at, acc.note(soft), after, r)
    }
}

/// The rest of a round of a permutation of 8 parsers, from parser 7 on.
pub open spec fn perm8_from_7<I, O1, O2, O3, O4, O5, O6, O7, O8, E, A1, A2, A3, A4, A5, A6, A7, A8>(
    ps: (A1, A2, A3, A4, A5, A6, A7, A8),
    got: (
        Option<O1>, Option<O2>, Option<O3>, Option<O4>, Option<O5>, Option<O6>, Option<O7>,
        Option<O8>,
    ),
    at: I,
    acc: RoundSoFar<E>,
    after: I,
    r: PResult<(O1, O2, O3, O4, O5, O6, O7, O8), E>,
) -> bool where
    I: Stream,
    E: ParseError<I>,
    A1: Parser<I, O1, E>,
    A2: Parser<I, O2, E>,
    A3: Parser<I, O3, E>,
    A4: Parser<I, O4, E>,
    A5: Parser<I, O5, E>,
    A6: Parser<I, O6, E>,
    A7: Parser<I, O7, E>,
    A8: Parser<I, O8, E>,

    decreases perm8_pending(got), 1nat,
{
    if got.7 is Some {
        perm8_end(ps, got, at, acc, after, r)
    } else {
        ||| exists|next: I, o: O8| #[trigger]
            stops_with(next, o) && ps.7.parses(at, next, Ok(o)) && perm8_from_0(
                ps,
                (got.0, got.1, got.2, got.3, got.4, got.5, got.6, Some(o)),
                next,
                RoundSoFar::fresh(),
                after,
                r,
            )
        ||| r matches Err(ErrMode::Cut(e)) && ps.7.parses(at, after, Err(ErrMode::Cut(e)))
        ||| exists|stop: I, soft: ErrMode<E>| #[trigger]
            stops_with(stop, soft) && !(soft is Cut) && ps.7.parses(at, stop, Err(soft))
                && perm8_end(ps, got, at, acc.note(soft), after, r)
    }
}

/// The end of a round of a permutation of 8 parsers in which no parser
/// succeeded or failed unrecoverably. The cursor goes back to `at`, where
/// the round started. If a parser asked for more input, the first such
/// request is the outcome. Else, if a parser failed, the outcome is a
/// recoverable failure: the last parser's error under a frame of kind
/// [`ErrorKind::Permutation`]. Else every parser has matched, and the
/// outputs are yielded in the order of the tuple.
pub open spec fn perm8_end<I, O1, O2, O3, O4, O5, O6, O7, O8, E, A1, A2, A3, A4, A5, A6, A7, A8>(
    ps: (A1, A2, A3, A4, A5, A6, A7, A8),
    got: (
        Option<O1>, Option<O2>, Option<O3>, Option<O4>, Option<O5>, Option<O6>, Option<O7>,
        Option<O8>,
    ),
    at: I,
    acc: RoundSoFar<E>,
    after: I,
    r: PResult<(O1, O2, O3, O4, O5, O6, O7, O8), E>,
) -> bool where
    I: Stream,
    E: ParseError<I>,
    A1: Parser<I, O1, E>,
    A2: Parser<I, O2, E>,
    A3: Parser<I, O3, E>,
    A4: Parser<I, O4, E>,
    A5: Parser<I, O5, E>,
    A6: Parser<I, O6, E>,
    A7: Parser<I, O7, E>,
    A8: Parser<I, O8, E>,

    decreases perm8_pending(got), 0nat,
{
    after == at && match acc.need {
        Some(n) => r == Err::<(O1, O2, O3, O4, O5, O6, O7, O8), ErrMode<E>>(ErrMode::Incomplete(n)),
        None => match acc.err {
            Some(last) => r matches Err(ErrMode::Backtrack(e)) && e.appended_to(
                last,
                at,
                ErrorKind::Permutation,
            ),
            None => {
                &&& got.0 is Some
                &&& got.1 is Some
                &&& got.2 is Some
                &&& got.3 is Some
                &&& got.4 is Some
                &&& got.5 is Some
                &&& got.6 is Some
                &&& got.7 is Some
                &&& r == Ok::<(O1, O2, O3, O4, O5, O6, O7, O8), ErrMode<E>>(
                    (
                        got.0->Some_0, got.1->Some_0, got.2->Some_0, got.3->Some_0, got.4->Some_0,
                        got.5->Some_0, got.6->Some_0, got.7->Some_0,
                    ),
                )
            },
        },
    }
}

impl<I, O1, O2, O3, O4, O5, O6, O7, O8, E, A1, A2, A3, A4, A5, A6, A7, A8> Permutation<
    I,
    (O1, O2, O3, O4, O5, O6, O7, O8),
    E,
> for (A1, A2, A3, A4, A5, A6, A7, A8) where
    I: Stream,
    E: ParseError<I>,
    A1: Parser<I, O1, E>,
    A2: Parser<I, O2, E>,
    A3: Parser<I, O3, E>,
    A4: Parser<I, O4, E>,
    A5: Parser<I, O5, E>,
    A6: Parser<I, O6, E>,
    A7: Parser<I, O7, E>,
    A8: Parser<I, O8, E>,
 {
    open spec fn perm_wf(&self) -> bool {
        &&& self.0.wf()
        &&& self.1.wf()
        &&& self.2.wf()
        &&& self.3.wf()
        &&& self.4.wf()
        &&& self.5.wf()
        &&& self.6.wf()
        &&& self.7.wf()
    }

    open spec fn permutes(
        &self,
        before: I,
        after: I,
        r: PResult<(O1, O2, O3, O4, O5, O6, O7, O8), E>,
    ) -> bool {
        let none = (
            None::<O1>, None::<O2>, None::<O3>, None::<O4>, None::<O5>, None::<O6>, None::<O7>,
            None::<O8>,
        );
        perm8_from_0(*self, none, before, RoundSoFar::fresh(), after, r)
    }

    #[verifier::rlimit(100)]
    fn permutation(&mut self, input: &mut I) -> (r: PResult<(O1, O2, O3, O4, O5, O6, O7, O8), E>) {
        let ghost me = *self;
        let ghost x0 = *input;
        let mut got: (
            Option<O1>, Option<O2>, Option<O3>, Option<O4>, Option<O5>, Option<O6>, Option<O7>,
            Option<O8>,
        ) = (
            None, None, None, None, None, None, None, None);
        loop
            invariant
                *self == me,
                *old(self) == me,
                *old(input) == x0,
                me.perm_wf(),
                forall|a: I, r: PResult<(O1, O2, O3, O4, O5, O6, O7, O8), E>| #[trigger]
                    perm8_from_0(me, got, *input, RoundSoFar::fresh(), a, r) ==> me.permutes(
                        x0,
                        a,
                        r,
                    ),
            decreases perm8_pending(got),
        {
            let start = input.checkpoint();
            let ghost at = *input;
            let ghost got0 = got;
            let mut need: Option<Needed> = None;
            let mut err: Option<E> = None;
            let ghost acc0 = RoundSoFar::<E>::fresh();
            let ghost mut stop0: I = at;
            let ghost mut soft0: ErrMode<E> = ErrMode::Incomplete(Needed { size: 0 });
            if got.0.is_none() {
                input.reset(start.checkpoint());
                match self.0.parse_next(input) {
                    Ok(o) => {
                        proof {
                            let next = *input;
                            let then = (
                                Some(o), got0.1, got0.2, got0.3, got0.4, got0.5, got0.6, got0.7,
                            );
                            assert forall|
                                a: I,
                                r: PResult<(O1, O2, O3, O4, O5, O6, O7, O8), E>,
                            | #[trigger]
                                perm8_from_0(me, then, next, RoundSoFar::fresh(), a, r)
                            implies me.permutes(x0, a, r) by {
                                assert(stops_with(next, o));
                                assert(perm8_from_0(me, got0, at, acc0, a, r));
                            }
                        }
                        got.0 = Some(o);
                        continue ;
                    },
                    Err(ErrMode::Cut(e)) => {
                        proof {
                            let r = Err::<(O1, O2, O3, O4, O5, O6, O7, O8), ErrMode<E>>(
                                ErrMode::Cut(e),
                            );
                            assert(perm8_from_0(me, got0, at, acc0, *input, r));
                        }
                        return Err(ErrMode::Cut(e));
                    },
                    Err(ErrMode::Backtrack(e)) => {
                        proof {
                            stop0 = *input;
                            soft0 = ErrMode::Backtrack(e);
                        }
                        err = Some(
                            match err {
                                Some(earlier) => earlier.or(e),
                                None => e,
                            },
                        );
                    },
                    Err(ErrMode::Incomplete(n)) => {
                        proof {
                            stop0 = *input;
                            soft0 = ErrMode::Incomplete(n);
                        }
                        if need.is_none() {
                            need = Some(n);
                        }
                    },
                }
            }
            let ghost acc1 = RoundSoFar { need, err };
            assert(got == got0);
            assert(got0.0 is Some ==> acc1 == acc0);
            assert(got0.0 is None ==> acc1 == acc0.note(soft0) && !(soft0 is Cut));
            assert(got0.0 is None ==> me.0.parses(at, stop0, Err(soft0)));
            let ghost mut stop1: I = at;
            let ghost mut soft1: ErrMode<E> = ErrMode::Incomplete(Needed { size: 0 });
            if got.1.is_none() {
                input.reset(start.checkpoint());
                match self.1.parse_next(input) {
                    Ok(o) => {
                        proof {
                            let next = *input;
                            let then = (
                                got0.0, Some(o), got0.2, got0.3, got0.4, got0.5, got0.6, got0.7,
                            );
                            assert forall|
                                a: I,
                                r: PResult<(O1, O2, O3, O4, O5, O6, O7, O8), E>,
                            | #[trigger]
                                perm8_from_0(me, then, next, RoundSoFar::fresh(), a, r)
                            implies me.permutes(x0, a, r) by {
                                assert(stops_with(next, o));
                                assert(perm8_from_1(me, got0, at, acc1, a, r));
                                assert(stops_with(stop0, soft0));
                                assert(perm8_from_0(me, got0, at, acc0, a, r));
                            }
                        }
                        got.1 = Some(o);
                        continue ;
                    },
                    Err(ErrMode::Cut(e)) => {
                        proof {
                            let r = Err::<(O1, O2, O3, O4, O5, O6, O7, O8), ErrMode<E>>(
                                ErrMode::Cut(e),
                            );
                            assert(perm8_from_1(me, got0, at, acc1, *input, r));
                            assert(stops_with(stop0, soft0));
                            assert(perm8_from_0(me, got0, at, acc0, *input, r));
                        }
                        return Err(ErrMode::Cut(e));
                    },
                    Err(ErrMode::Backtrack(e)) => {
                        proof {
                            stop1 = *input;
                            soft1 = ErrMode::Backtrack(e);
                        }
                        err = Some(
                            match err {
                                Some(earlier) => earlier.or(e),
                                None => e,
                            },
                        );
                    },
                    Err(ErrMode::Incomplete(n)) => {
                        proof {
                            stop1 = *input;
                            soft1 = ErrMode::Incomplete(n);
                        }
                        if need.is_none() {
                            need = Some(n);
                        }
                    },
                }
            }
            let ghost acc2 = RoundSoFar { need, err };
            assert(got == got0);
            assert(got0.1 is Some ==> acc2 == acc1);
            assert(got0.1 is None ==> acc2 == acc1.note(soft1) && !(soft1 is Cut));
            assert(got0.1 is None ==> me.1.parses(at, stop1, Err(soft1)));
            let ghost mut stop2: I = at;
            let ghost mut soft2: ErrMode<E> = ErrMode::Incomplete(Needed { size: 0 });
            if got.2.is_none() {
                input.reset(start.checkpoint());
                match self.2.parse_next(input) {
                    Ok(o) => {
                        proof {
                            let next = *input;
                            let then = (
                                got0.0, got0.1, Some(o), got0.3, got0.4, got0.5, got0.6, got0.7,
                            );
                            assert forall|
                                a: I,
                                r: PResult<(O1, O2, O3, O4, O5, O6, O7, O8), E>,
                            | #[trigger]
                                perm8_from_0(me, then, next, RoundSoFar::fresh(), a, r)
                            implies me.permutes(x0, a, r) by {
                                assert(stops_with(next, o));
                                assert(perm8_from_2(me, got0, at, acc2, a, r));
                                assert(stops_with(stop1, soft1));
                                assert(perm8_from_1(me, got0, at, acc1, a, r));
                                assert(stops_with(stop0, soft0));
                                assert(perm8_from_0(me, got0, at, acc0, a, r));
                            }
                        }
                        got.2 = Some(o);
                        continue ;
                    },
                    Err(ErrMode::Cut(e)) => {
                        proof {
                            let r = Err::<(O1, O2, O3, O4, O5, O6, O7, O8), ErrMode<E>>(
                                ErrMode::Cut(e),
                            );
                            assert(perm8_from_2(me, got0, at, acc2, *input, r));
                            assert(stops_with(stop1, soft1));
                            assert(perm8_from_1(me, got0, at, acc1, *input, r));
                            assert(stops_with(stop0, soft0));
                            assert(perm8_from_0(me, got0, at, acc0, *input, r));
                        }
                        return Err(ErrMode::Cut(e));
                    },
                    Err(ErrMode::Backtrack(e)) => {
                        proof {
                            stop2 = *input;
                            soft2 = ErrMode::Backtrack(e);
                        }
                        err = Some(
                            match err {
                                Some(earlier) => earlier.or(e),
                                None => e,
                            },
                        );
                    },
                    Err(ErrMode::Incomplete(n)) => {
                        proof {
                            stop2 = *input;
                            soft2 = ErrMode::Incomplete(n);
                        }
                        if need.is_none() {
                            need = Some(n);
                        }
                    },
                }
            }
            let ghost acc3 = RoundSoFar { need, err };
            assert(got == got0);
            assert(got0.2 is Some ==> acc3 == acc2);
            assert(got0.2 is None ==> acc3 == acc2.note(soft2) && !(soft2 is Cut));
            assert(got0.2 is None ==> me.2.parses(at, stop2, Err(soft2)));
            let ghost mut stop3: I = at;
            let ghost mut soft3: ErrMode<E> = ErrMode::Incomplete(Needed { size: 0 });
            if got.3.is_none() {
                input.reset(start.checkpoint());
                match self.3.parse_next(input) {
                    Ok(o) => {
                        proof {
                            let next = *input;
                            let then = (
                                got0.0, got0.1, got0.2, Some(o), got0.4, got0.5, got0.6, got0.7,
                            );
                            assert forall|
                                a: I,
                                r: PResult<(O1, O2, O3, O4, O5, O6, O7, O8), E>,
                            | #[trigger]
                                perm8_from_0(me, then, next, RoundSoFar::fresh(), a, r)
                            implies me.permutes(x0, a, r) by {
                                assert(stops_with(next, o));
                                assert(perm8_from_3(me, got0, at, acc3, a, r));
                                assert(stops_with(stop2, soft2));
                                assert(perm8_from_2(me, got0, at, acc2, a, r));
                                assert(stops_with(stop1, soft1));
                                assert(perm8_from_1(me, got0, at, acc1, a, r));
                                assert(stops_with(stop0, soft0));
                                assert(perm8_from_0(me, got0, at, acc0, a, r));
                            }
                        }
                        got.3 = Some(o);
                        continue ;
                    },
                    Err(ErrMode::Cut(e)) => {
                        proof {
                            let r = Err::<(O1, O2, O3, O4, O5, O6, O7, O8), ErrMode<E>>(
                                ErrMode::Cut(e),
                            );
                            assert(perm8_from_3(me, got0, at, acc3, *input, r));
                            assert(stops_with(stop2, soft2));
                            assert(perm8_from_2(me, got0, at, acc2, *input, r));
                            assert(stops_with(stop1, soft1));
                            assert(perm8_from_1(me, got0, at, acc1, *input, r));
                            assert(stops_with(stop0, soft0));
                            assert(perm8_from_0(me, got0, at, acc0, *input, r));
                        }
                        return Err(ErrMode::Cut(e));
                    },
                    Err(ErrMode::Backtrack(e)) => {
                        proof {
                            stop3 = *input;
                            soft3 = ErrMode::Backtrack(e);
                        }
                        err = Some(
                            match err {
                                Some(earlier) => earlier.or(e),
                                None => e,
                            },
                        );
                    },
                    Err(ErrMode::Incomplete(n)) => {
                        proof {
                            stop3 = *input;
                            soft3 = ErrMode::Incomplete(n);
                        }
                        if need.is_none() {
                            need = Some(n);
                        }
                    },
                }
            }
            let ghost acc4 = RoundSoFar { need, err };
            assert(got == got0);
            assert(got0.3 is Some ==> acc4 == acc3);
            assert(got0.3 is None ==> acc4 == acc3.note(soft3) && !(soft3 is Cut));
            assert(got0.3 is None ==> me.3.parses(at, stop3, Err(soft3)));
            let ghost mut stop4: I = at;
            let ghost mut soft4: ErrMode<E> = ErrMode::Incomplete(Needed { size: 0 });
            if got.4.is_none() {
                input.reset(start.checkpoint());
                match self.4.parse_next(input) {
                    Ok(o) => {
                        proof {
                            let next = *input;
                            let then = (
                                got0.0, got0.1, got0.2, got0.3, Some(o), got0.5, got0.6, got0.7,
                            );
                            assert forall|
                                a: I,
                                r: PResult<(O1, O2, O3, O4, O5, O6, O7, O8), E>,
                            | #[trigger]
                                perm8_from_0(me, then, next, RoundSoFar::fresh(), a, r)
                            implies me.permutes(x0, a, r) by {
                                assert(stops_with(next, o));
                                assert(perm8_from_4(me, got0, at, acc4, a, r));
                                assert(stops_with(stop3, soft3));
                                assert(perm8_from_3(me, got0, at, acc3, a, r));
                                assert(stops_with(stop2, soft2));
                                assert(perm8_from_2(me, got0, at, acc2, a, r));
                                assert(stops_with(stop1, soft1));
                                assert(perm8_from_1(me, got0, at, acc1, a, r));
                                assert(stops_with(stop0, soft0));
                                assert(perm8_from_0(me, got0, at, acc0, a, r));
                            }
                        }
                        got.4 = Some(o);
                        continue ;
                    },
                    Err(ErrMode::Cut(e)) => {
                        proof {
                            let r = Err::<(O1, O2, O3, O4, O5, O6, O7, O8), ErrMode<E>>(
                                ErrMode::Cut(e),
                            );
                            assert(perm8_from_4(me, got0, at, acc4, *input, r));
                            assert(stops_with(stop3, soft3));
                            assert(perm8_from_3(me, got0, at, acc3, *input, r));
                            assert(stops_with(stop2, soft2));
                            assert(perm8_from_2(me, got0, at, acc2, *input, r));
                            assert(stops_with(stop1, soft1));
                            assert(perm8_from_1(me, got0, at, acc1, *input, r));
                            assert(stops_with(stop0, soft0));
                            assert(perm8_from_0(me, got0, at, acc0, *input, r));
                        }
                        return Err(ErrMode::Cut(e));
                    },
                    Err(ErrMode::Backtrack(e)) => {
                        proof {
                            stop4 = *input;
                            soft4 = ErrMode::Backtrack(e);
                        }
                        err = Some(
                            match err {
                                Some(earlier) => earlier.or(e),
                                None => e,
                            },
                        );
                    },
                    Err(ErrMode::Incomplete(n)) => {
                        proof {
                            stop4 = *input;
                            soft4 = ErrMode::Incomplete(n);
                        }
                        if need.is_none() {
                            need = Some(n);
                        }
                    },
                }
            }
            let ghost acc5 = RoundSoFar { need, err };
            assert(got == got0);
            assert(got0.4 is Some ==> acc5 == acc4);
            assert(got0.4 is None ==> acc5 == acc4.note(soft4) && !(soft4 is Cut));
            assert(got0.4 is None ==> me.4.parses(at, stop4, Err(soft4)));
            let ghost mut stop5: I = at;
            let ghost mut soft5: ErrMode<E> = ErrMode::Incomplete(Needed { size: 0 });
            if got.5.is_none() {
                input.reset(start.checkpoint());
                match self.5.parse_next(input) {
                    Ok(o) => {
                        proof {
                            let next = *input;
                            let then = (
                                got0.0, got0.1, got0.2, got0.3, got0.4, Some(o), got0.6, got0.7,
                            );
                            assert forall|
                                a: I,
                                r: PResult<(O1, O2, O3, O4, O5, O6, O7, O8), E>,
                            | #[trigger]
                                perm8_from_0(me, then, next, RoundSoFar::fresh(), a, r)
                            implies me.permutes(x0, a, r) by {
                                assert(stops_with(next, o));
                                assert(perm8_from_5(me, got0, at, acc5, a, r));
                                assert(stops_with(stop4, soft4));
                                assert(perm8_from_4(me, got0, at, acc4, a, r));
                                assert(stops_with(stop3, soft3));
                                assert(perm8_from_3(me, got0, at, acc3, a, r));
                                assert(stops_with(stop2, soft2));
                                assert(perm8_from_2(me, got0, at, acc2, a, r));
                                assert(stops_with(stop1, soft1));
                                assert(perm8_from_1(me, got0, at, acc1, a, r));
                                assert(stops_with(stop0, soft0));
                                assert(perm8_from_0(me, got0, at, acc0, a, r));
                            }
                        }
                        got.5 = Some(o);
                        continue ;
                    },
                    Err(ErrMode::Cut(e)) => {
                        proof {
                            let r = Err::<(O1, O2, O3, O4, O5, O6, O7, O8), ErrMode<E>>(
                                ErrMode::Cut(e),
                            );
                            assert(perm8_from_5(me, got0, at, acc5, *input, r));
                            assert(stops_with(stop4, soft4));
                            assert(perm8_from_4(me, got0, at, acc4, *input, r));
                            assert(stops_with(stop3, soft3));
                            assert(perm8_from_3(me, got0, at, acc3, *input, r));
                            assert(stops_with(stop2, soft2));
                            assert(perm8_from_2(me, got0, at, acc2, *input, r));
                            assert(stops_with(stop1, soft1));
                            assert(perm8_from_1(me, got0, at, acc1, *input, r));
                            assert(stops_with(stop0, soft0));
                            assert(perm8_from_0(me, got0, at, acc0, *input, r));
                        }
                        return Err(ErrMode::Cut(e));
                    },
                    Err(ErrMode::Backtrack(e)) => {
                        proof {
                            stop5 = *input;
                            soft5 = ErrMode::Backtrack(e);
                        }
                        err = Some(
                            match err {
                                Some(earlier) => earlier.or(e),
                                None => e,
                            },
                        );
                    },
                    Err(ErrMode::Incomplete(n)) => {
                        proof {
                            stop5 = *input;
                            soft5 = ErrMode::Incomplete(n);
                        }
                        if need.is_none() {
                            need = Some(n);
                        }
                    },
                }
            }
            let ghost acc6 = RoundSoFar { need, err };
            assert(got == got0);
            assert(got0.5 is Some ==> acc6 == acc5);
            assert(got0.5 is None ==> acc6 == acc5.note(soft5) && !(soft5 is Cut));
            assert(got0.5 is None ==> me.5.parses(at, stop5, Err(soft5)));
            let ghost mut stop6: I = at;
            let ghost mut soft6: ErrMode<E> = ErrMode::Incomplete(Needed { size: 0 });
            if got.6.is_none() {
                input.reset(start.checkpoint());
                match self.6.parse_next(input) {
                    Ok(o) => {
                        proof {
                            let next = *input;
                            let then = (
                                got0.0, got0.1, got0.2, got0.3, got0.4, got0.5, Some(o), got0.7,
                            );
                            assert forall|
                                a: I,
                                r: PResult<(O1, O2, O3, O4, O5, O6, O7, O8), E>,
                            | #[trigger]
                                perm8_from_0(me, then, next, RoundSoFar::fresh(), a, r)
                            implies me.permutes(x0, a, r) by {
                                assert(stops_with(next, o));
                                assert(perm8_from_6(me, got0, at, acc6, a, r));
                                assert(stops_with(stop5, soft5));
                                assert(perm8_from_5(me, got0, at, acc5, a, r));
                                assert(stops_with(stop4, soft4));
                                assert(perm8_from_4(me, got0, at, acc4, a, r));
                                assert(stops_with(stop3, soft3));
                                assert(perm8_from_3(me, got0, at, acc3, a, r));
                                assert(stops_with(stop2, soft2));
                                assert(perm8_from_2(me, got0, at, acc2, a, r));
                                assert(stops_with(stop1, soft1));
                                assert(perm8_from_1(me, got0, at, acc1, a, r));
                                assert(stops_with(stop0, soft0));
                                assert(perm8_from_0(me, got0, at, acc0, a, r));
                            }
                        }
                        got.6 = Some(o);
                        continue ;
                    },
                    Err(ErrMode::Cut(e)) => {
                        proof {
                            let r = Err::<(O1, O2, O3, O4, O5, O6, O7, O8), ErrMode<E>>(
                                ErrMode::Cut(e),
                            );
                            assert(perm8_from_6(me, got0, at, acc6, *input, r));
                            assert(stops_with(stop5, soft5));
                            assert(perm8_from_5(me, got0, at, acc5, *input, r));
                            assert(stops_with(stop4, soft4));
                            assert(perm8_from_4(me, got0, at, acc4, *input, r));
                            assert(stops_with(stop3, soft3));
                            assert(perm8_from_3(me, got0, at, acc3, *input, r));
                            assert(stops_with(stop2, soft2));
                            assert(perm8_from_2(me, got0, at, acc2, *input, r));
                            assert(stops_with(stop1, soft1));
                            assert(perm8_from_1(me, got0, at, acc1, *input, r));
                            assert(stops_with(stop0, soft0));
                            assert(perm8_from_0(me, got0, at, acc0, *input, r));
                        }
                        return Err(ErrMode::Cut(e));
                    },
                    Err(ErrMode::Backtrack(e)) => {
                        proof {
                            stop6 = *input;
                            soft6 = ErrMode::Backtrack(e);
                        }
                        err = Some(
                            match err {
                                Some(earlier) => earlier.or(e),
                                None => e,
                            },
                        );
                    },
                    Err(ErrMode::Incomplete(n)) => {
                        proof {
                            stop6 = *input;
                            soft6 = ErrMode::Incomplete(n);
                        }
                        if need.is_none() {
                            need = Some(n);
                        }
                    },
                }
            }
            let ghost acc7 = RoundSoFar { need, err };
            assert(got == got0);
            assert(got0.6 is Some ==> acc7 == acc6);
            assert(got0.6 is None ==> acc7 == acc6.note(soft6) && !(soft6 is Cut));
            assert(got0.6 is None ==> me.6.parses(at, stop6, Err(soft6)));
            let ghost mut stop7: I = at;
            let ghost mut soft7: ErrMode<E> = ErrMode::Incomplete(Needed { size: 0 });
            if got.7.is_none() {
                input.reset(start.checkpoint());
                match self.7.parse_next(input) {
                    Ok(o) => {
                        proof {
                            let next = *input;
                            let then = (
                                got0.0, got0.1, got0.2, got0.3, got0.4, got0.5, got0.6, Some(o),
                            );
                            assert forall|
                                a: I,
                                r: PResult<(O1, O2, O3, O4, O5, O6, O7, O8), E>,
                            | #[trigger]
                                perm8_from_0(me, then, next, RoundSoFar::fresh(), a, r)
                            implies me.permutes(x0, a, r) by {
                                assert(stops_with(next, o));
                                assert(perm8_from_7(me, got0, at, acc7, a, r));
                                assert(stops_with(stop6, soft6));
                                assert(perm8_from_6(me, got0, at, acc6, a, r));
                                assert(stops_with(stop5, soft5));
                                assert(perm8_from_5(me, got0, at, acc5, a, r));
                                assert(stops_with(stop4, soft4));
                                assert(perm8_from_4(me, got0, at, acc4, a, r));
                                assert(stops_with(stop3, soft3));
                                assert(perm8_from_3(me, got0, at, acc3, a, r));
                                assert(stops_with(stop2, soft2));
                                assert(perm8_from_2(me, got0, at, acc2, a, r));
                                assert(stops_with(stop1, soft1));
                                assert(perm8_from_1(me, got0, at, acc1, a, r));
                                assert(stops_with(stop0, soft0));
                                assert(perm8_from_0(me, got0, at, acc0, a, r));
                            }
                        }
                        got.7 = Some(o);
                        continue ;
                    },
                    Err(ErrMode::Cut(e)) => {
                        proof {
                            let r = Err::<(O1, O2, O3, O4, O5, O6, O7, O8), ErrMode<E>>(
                                ErrMode::Cut(e),
                            );
                            assert(perm8_from_7(me, got0, at, acc7, *input, r));
                            assert(stops_with(stop6, soft6));
                            assert(perm8_from_6(me, got0, at, acc6, *input, r));
                            assert(stops_with(stop5, soft5));
                            assert(perm8_from_5(me, got0, at, acc5, *input, r));
                            assert(stops_with(stop4, soft4));
                            assert(perm8_from_4(me, got0, at, acc4, *input, r));
                            assert(stops_with(stop3, soft3));
                            assert(perm8_from_3(me, got0, at, acc3, *input, r));
                            assert(stops_with(stop2, soft2));
                            assert(perm8_from_2(me, got0, at, acc2, *input, r));
                            assert(stops_with(stop1, soft1));
                            assert(perm8_from_1(me, got0, at, acc1, *input, r));
                            assert(stops_with(stop0, soft0));
                            assert(perm8_from_0(me, got0, at, acc0, *input, r));
                        }
                        return Err(ErrMode::Cut(e));
                    },
                    Err(ErrMode::Backtrack(e)) => {
                        proof {
                            stop7 = *input;
                            soft7 = ErrMode::Backtrack(e);
                        }
                        err = Some(
                            match err {
                                Some(earlier) => earlier.or(e),
                                None => e,
                            },
                        );
                    },
                    Err(ErrMode::Incomplete(n)) => {
                        proof {
                            stop7 = *input;
                            soft7 = ErrMode::Incomplete(n);
                        }
                        if need.is_none() {
                            need = Some(n);
                        }
                    },
                }
            }
            let ghost acc8 = RoundSoFar { need, err };
            assert(got == got0);
            assert(got0.7 is Some ==> acc8 == acc7);
            assert(got0.7 is None ==> acc8 == acc7.note(soft7) && !(soft7 is Cut));
            assert(got0.7 is None ==> me.7.parses(at, stop7, Err(soft7)));
            input.reset(start);
            let r = match need {
                Some(n) => Err(ErrMode::Incomplete(n)),
                None => match err {
                    Some(e) => Err(ErrMode::Backtrack(e.append(&*input, ErrorKind::Permutation))),
                    None => match got {
                        (
                            Some(o1), Some(o2), Some(o3), Some(o4), Some(o5), Some(o6), Some(o7),
                            Some(o8),
                        ) => Ok(
                            (o1, o2, o3, o4, o5, o6, o7, o8),
                        ),
                        _ => {
                            proof {
                                assert(got0.0 is Some);
                                assert(got0.1 is Some);
                                assert(got0.2 is Some);
                                assert(got0.3 is Some);
                                assert(got0.4 is Some);
                                assert(got0.5 is Some);
                                assert(got0.6 is Some);
                                assert(got0.7 is Some);
                            }
                            vstd::pervasive::unreached()
                        },
                    },
                },
            };
            proof {
                assert(perm8_end(me, got0, at, acc8, *input, r));
                assert(stops_with(stop7, soft7));
                assert(perm8_from_7(me, got0, at, acc7, *input, r));
                assert(stops_with(stop6, soft6));
                assert(perm8_from_6(me, got0, at, acc6, *input, r));
                assert(stops_with(stop5, soft5));
                assert(perm8_from_5(me, got0, at, acc5, *input, r));
                assert(stops_with(stop4, soft4));
                assert(perm8_from_4(me, got0, at, acc4, *input, r));
                assert(stops_with(stop3, soft3));
                assert(perm8_from_3(me, got0, at, acc3, *input, r));
                assert(stops_with(stop2, soft2));
                assert(perm8_from_2(me, got0, at, acc2, *input, r));
                assert(stops_with(stop1, soft1));
                assert(perm8_from_1(me, got0, at, acc1, *input, r));
                assert(stops_with(stop0, soft0));
                assert(perm8_from_0(me, got0, at, acc0, *input, r));
            }
            return r;
        }
    }
}

/// The outputs `o` of a permutation of 2 parsers are in the order of the
/// list: each is the output kept in `got` for its parser, or, where none is
/// kept, an output that its parser may yield somewhere.
pub open spec fn perm2_in_order<I, O1, O2, E, A1, A2>(
    ps: (A1, A2),
    got: (Option<O1>, Option<O2>),
    o: (O1, O2),
) -> bool where
    I: Stream,
    E: ParseError<I>,
    A1: Parser<I, O1, E>,
    A2: Parser<I, O2, E>,
{
    &&& match got.0 {
        Some(kept) => o.0 == kept,
        None => exists|c: I, d: I| #[trigger]
            stops_with(c, d) && ps.0.parses(c, d, Ok(o.0)),
    }
    &&& match got.1 {
        Some(kept) => o.1 == kept,
        None => exists|c: I, d: I| #[trigger]
            stops_with(c, d) && ps.1.parses(c, d, Ok(o.1)),
    }
}

/// Where a permutation of 2 parsers succeeds, seen from parser 0 of a round
/// on, its outputs are in the order of the list.
pub proof fn lemma_perm2_from_0_in_order<I, O1, O2, E, A1, A2>(
    ps: (A1, A2),
    got: (Option<O1>, Option<O2>),
    at: I,
    acc: RoundSoFar<E>,
    after: I,
    o: (O1, O2),
) where
    I: Stream,
    E: ParseError<I>,
    A1: Parser<I, O1, E>,
    A2: Parser<I, O2, E>,

    requires
        perm2_from_0(ps, got, at, acc, after, Ok(o)),
    ensures
        perm2_in_order(ps, got, o),
    decreases perm2_pending(got), 2nat,
{
    let r = Ok::<(O1, O2), ErrMode<E>>(o);
    if got.0 is Some {
        lemma_perm2_from_1_in_order(ps, got, at, acc, after, o);
    } else {
        if exists|next: I, v: O1| #[trigger]
            stops_with(next, v) && ps.0.parses(at, next, Ok(v)) && perm2_from_0(
                ps,
                (Some(v), got.1),
                next,
                RoundSoFar::fresh(),
                after,
                r,
            ) {
            let (next, v): (I, O1) = choose|next: I, v: O1| #[trigger]
                stops_with(next, v) && ps.0.parses(at, next, Ok(v)) && perm2_from_0(
                    ps,
                    (Some(v), got.1),
                    next,
                    RoundSoFar::fresh(),
                    after,
                    r,
                );
            let then = (Some(v), got.1);
            lemma_perm2_from_0_in_order(ps, then, next, RoundSoFar::fresh(), after, o);
            assert(stops_with(at, next));
        } else {
            let (stop, soft): (I, ErrMode<E>) = choose|stop: I, soft: ErrMode<E>|
                #[trigger]
                stops_with(stop, soft) && !(soft is Cut) && ps.0.parses(at, stop, Err(soft))
                    && perm2_from_1(ps, got, at, acc.note(soft), after, r);
            lemma_perm2_from_1_in_order(ps, got, at, acc.note(soft), after, o);
        }
    }
}

/// Where a permutation of 2 parsers succeeds, seen from parser 1 of a round
/// on, its outputs are in the order of the list.
pub proof fn lemma_perm2_from_1_in_order<I, O1, O2, E, A1, A2>(
    ps: (A1, A2),
    got: (Option<O1>, Option<O2>),
    at: I,
    acc: RoundSoFar<E>,
    after: I,
    o: (O1, O2),
) where
    I: Stream,
    E: ParseError<I>,
    A1: Parser<I, O1, E>,
    A2: Parser<I, O2, E>,

    requires
        perm2_from_1(ps, got, at, acc, after, Ok(o)),
    ensures
        perm2_in_order(ps, got, o),
    decreases perm2_pending(got), 1nat,
{
    let r = Ok::<(O1, O2), ErrMode<E>>(o);
    if got.1 is Some {
        lemma_perm2_end_in_order(ps, got, at, acc, after, o);
    } else {
        if exists|next: I, v: O2| #[trigger]
            stops_with(next, v) && ps.1.parses(at, next, Ok(v)) && perm2_from_0(
                ps,
                (got.0, Some(v)),
                next,
                RoundSoFar::fresh(),
                after,
                r,
            ) {
            let (next, v): (I, O2) = choose|next: I, v: O2| #[trigger]
                stops_with(next, v) && ps.1.parses(at, next, Ok(v)) && perm2_from_0(
                    ps,
                    (got.0, Some(v)),
                    next,
                    RoundSoFar::fresh(),
                    after,
                    r,
                );
            let then = (got.0, Some(v));
            lemma_perm2_from_0_in_order(ps, then, next, RoundSoFar::fresh(), after, o);
            assert(stops_with(at, next));
        } else {
            let (stop, soft): (I, ErrMode<E>) = choose|stop: I, soft: ErrMode<E>|
                #[trigger]
                stops_with(stop, soft) && !(soft is Cut) && ps.1.parses(at, stop, Err(soft))
                    && perm2_end(ps, got, at, acc.note(soft), after, r);
            lemma_perm2_end_in_order(ps, got, at, acc.note(soft), after, o);
        }
    }
}

/// Where a permutation of 2 parsers succeeds at the end of a round, its
/// outputs are in the order of the list.
pub proof fn lemma_perm2_end_in_order<I, O1, O2, E, A1, A2>(
    ps: (A1, A2),
    got: (Option<O1>, Option<O2>),
    at: I,
    acc: RoundSoFar<E>,
    after: I,
    o: (O1, O2),
) where
    I: Stream,
    E: ParseError<I>,
    A1: Parser<I, O1, E>,
    A2: Parser<I, O2, E>,

    requires
        perm2_end(ps, got, at, acc, after, Ok(o)),
    ensures
        perm2_in_order(ps, got, o),
    decreases perm2_pending(got), 0nat,
{
}

/// A permutation of 2 parsers yields its outputs in the order of the list,
/// whatever the order in which the parsers matched: each output is one that
/// the parser at its place in the list may yield.
pub proof fn lemma_perm2_outputs_in_order<I, O1, O2, E, A1, A2>(
    ps: (A1, A2),
    before: I,
    after: I,
    o: (O1, O2),
) where
    I: Stream,
    E: ParseError<I>,
    A1: Parser<I, O1, E>,
    A2: Parser<I, O2, E>,

    requires
        Permuted::of(ps).parses(before, after, Ok(o)),
    ensures
        exists|c: I, d: I| #[trigger] stops_with(c, d) && ps.0.parses(c, d, Ok(o.0)),
        exists|c: I, d: I| #[trigger] stops_with(c, d) && ps.1.parses(c, d, Ok(o.1)),
{
    let none = (None::<O1>, None::<O2>);
    lemma_perm2_from_0_in_order(ps, none, before, RoundSoFar::fresh(), after, o);
}

/// A permutation of 2 parsers that have all matched yields their outputs, in
/// the order of the list, and leaves the cursor where it is.
pub proof fn lemma_perm2_done<I, O1, O2, E, A1, A2>(
    ps: (A1, A2),
    at: I,
    o: (O1, O2),
) where
    I: Stream,
    E: ParseError<I>,
    A1: Parser<I, O1, E>,
    A2: Parser<I, O2, E>,

    ensures
        perm2_from_0(
            ps,
            (Some(o.0), Some(o.1)),
            at,
            RoundSoFar::fresh(),
            at,
            Ok(o),
        ),
{
    let all = (Some(o.0), Some(o.1));
    let r = Ok::<(O1, O2), ErrMode<E>>(o);
    let fresh = RoundSoFar::<E>::fresh();
    assert(perm2_end(ps, all, at, fresh, at, r));
    assert(perm2_from_1(ps, all, at, fresh, at, r));
    assert(perm2_from_0(ps, all, at, fresh, at, r));
}

/// One round of a permutation of 2 parsers in which parser 0 matches: where
/// every parser before it in the list that has not matched yet fails softly
/// at the start of the round, and it succeeds there, the permutation goes on
/// with its output kept, from where it stopped.
pub proof fn lemma_perm2_round_0<I, O1, O2, E, A1, A2>(
    ps: (A1, A2),
    got: (Option<O1>, Option<O2>),
    at: I,
    next: I,
    v: O1,
    after: I,
    r: PResult<(O1, O2), E>,
) where
    I: Stream,
    E: ParseError<I>,
    A1: Parser<I, O1, E>,
    A2: Parser<I, O2, E>,

    requires
        got.0 is None,
        ps.0.parses(at, next, Ok(v)),
        perm2_from_0(
            ps,
            (Some(v), got.1),
            next,
            RoundSoFar::fresh(),
            after,
            r,
        ),
    ensures
        perm2_from_0(ps, got, at, RoundSoFar::fresh(), after, r),
{
    let acc0 = RoundSoFar::<E>::fresh();
    assert(stops_with(next, v));
    assert(perm2_from_0(ps, got, at, acc0, after, r));
}

/// One round of a permutation of 2 parsers in which parser 1 matches: where
/// every parser before it in the list that has not matched yet fails softly
/// at the start of the round, and it succeeds there, the permutation goes on
/// with its output kept, from where it stopped.
pub proof fn lemma_perm2_round_1<I, O1, O2, E, A1, A2>(
    ps: (A1, A2),
    got: (Option<O1>, Option<O2>),
    at: I,
    next: I,
    v: O2,
    after: I,
    r: PResult<(O1, O2), E>,
) where
    I: Stream,
    E: ParseError<I>,
    A1: Parser<I, O1, E>,
    A2: Parser<I, O2, E>,

    requires
        got.0 is None ==> fails_softly(ps.0, at),
        got.1 is None,
        ps.1.parses(at, next, Ok(v)),
        perm2_from_0(
            ps,
            (got.0, Some(v)),
            next,
            RoundSoFar::fresh(),
            after,
            r,
        ),
    ensures
        perm2_from_0(ps, got, at, RoundSoFar::fresh(), after, r),
{
    let acc0 = RoundSoFar::<E>::fresh();
    let (stop0, soft0): (I, ErrMode<E>) = choose|stop: I, soft: ErrMode<E>| #[trigger]
        stops_with(stop, soft) && !(soft is Cut) && ps.0.parses(at, stop, Err(soft));
    let acc1 = if got.0 is None {
        acc0.note(soft0)
    } else {
        acc0
    };
    assert(stops_with(next, v));
    assert(perm2_from_1(ps, got, at, acc1, after, r));
    assert(stops_with(stop0, soft0));
    assert(perm2_from_0(ps, got, at, acc0, after, r));
}

/// One round of a permutation of 2 parsers in which no parser matches: where
/// every parser that has not matched yet fails recoverably at the start of
/// the round, wherever it left the cursor, the permutation fails recoverably
/// with the cursor at the start of the round, and its error is that of the
/// last such parser under a frame at the start of the round.
pub proof fn lemma_perm2_round_fails<I, O1, O2, E, A1, A2>(
    ps: (A1, A2),
    got: (Option<O1>, Option<O2>),
    at: I,
    stops: (I, I),
    errors: (E, E),
    e: E,
) where
    I: Stream,
    E: ParseError<I>,
    A1: Parser<I, O1, E>,
    A2: Parser<I, O2, E>,

    requires
        got.0 is None ==> ps.0.parses(at, stops.0, Err(ErrMode::Backtrack(errors.0))),
        got.1 is None ==> ps.1.parses(at, stops.1, Err(ErrMode::Backtrack(errors.1))),
        ({
            ||| got.0 is None
            ||| got.1 is None
        }),
        ({
            let last_0 = errors.0;
            let last_1 = if got.1 is None {
                errors.1
            } else {
                last_0
            };
            e.appended_to(last_1, at, ErrorKind::Permutation)
        }),
    ensures
        perm2_from_0(ps, got, at, RoundSoFar::fresh(), at, Err(ErrMode::Backtrack(e))),
{
    let r = Err::<(O1, O2), ErrMode<E>>(ErrMode::Backtrack(e));
    let acc0 = RoundSoFar::<E>::fresh();
    let soft0 = ErrMode::Backtrack(errors.0);
    let acc1 = if got.0 is None {
        acc0.note(soft0)
    } else {
        acc0
    };
    let soft1 = ErrMode::Backtrack(errors.1);
    let acc2 = if got.1 is None {
        acc1.note(soft1)
    } else {
        acc1
    };
    assert(perm2_end(ps, got, at, acc2, at, r));
    assert(stops_with(stops.1, soft1));
    assert(perm2_from_1(ps, got, at, acc1, at, r));
    assert(stops_with(stops.0, soft0));
    assert(perm2_from_0(ps, got, at, acc0, at, r));
}

/// The outputs `o` of a permutation of 3 parsers are in the order of the
/// list: each is the output kept in `got` for its parser, or, where none is
/// kept, an output that its parser may yield somewhere.
pub open spec fn perm3_in_order<I, O1, O2, O3, E, A1, A2, A3>(
    ps: (A1, A2, A3),
    got: (Option<O1>, Option<O2>, Option<O3>),
    o: (O1, O2, O3),
) -> bool where
    I: Stream,
    E: ParseError<I>,
    A1: Parser<I, O1, E>,
    A2: Parser<I, O2, E>,
    A3: Parser<I, O3, E>,
{
    &&& match got.0 {
        Some(kept) => o.0 == kept,
        None => exists|c: I, d: I| #[trigger]
            stops_with(c, d) && ps.0.parses(c, d, Ok(o.0)),
    }
    &&& match got.1 {
        Some(kept) => o.1 == kept,
        None => exists|c: I, d: I| #[trigger]
            stops_with(c, d) && ps.1.parses(c, d, Ok(o.1)),
    }
    &&& match got.2 {
        Some(kept) => o.2 == kept,
        None => exists|c: I, d: I| #[trigger]
            stops_with(c, d) && ps.2.parses(c, d, Ok(o.2)),
    }
}

/// Where a permutation of 3 parsers succeeds, seen from parser 0 of a round
/// on, its outputs are in the order of the list.
pub proof fn lemma_perm3_from_0_in_order<I, O1, O2, O3, E, A1, A2, A3>(
    ps: (A1, A2, A3),
    got: (Option<O1>, Option<O2>, Option<O3>),
    at: I,
    acc: RoundSoFar<E>,
    after: I,
    o: (O1, O2, O3),
) where
    I: Stream,
    E: ParseError<I>,
    A1: Parser<I, O1, E>,
    A2: Parser<I, O2, E>,
    A3: Parser<I, O3, E>,

    requires
        perm3_from_0(ps, got, at, acc, after, Ok(o)),
    ensures
        perm3_in_order(ps, got, o),
    decreases perm3_pending(got), 3nat,
{
    let r = Ok::<(O1, O2, O3), ErrMode<E>>(o);
    if got.0 is Some {
        lemma_perm3_from_1_in_order(ps, got, at, acc, after, o);
    } else {
        if exists|next: I, v: O1| #[trigger]
            stops_with(next, v) && ps.0.parses(at, next, Ok(v)) && perm3_from_0(
                ps,
                (Some(v), got.1, got.2),
                next,
                RoundSoFar::fresh(),
                after,
                r,
            ) {
            let (next, v): (I, O1) = choose|next: I, v: O1| #[trigger]
                stops_with(next, v) && ps.0.parses(at, next, Ok(v)) && perm3_from_0(
                    ps,
                    (Some(v), got.1, got.2),
                    next,
                    RoundSoFar::fresh(),
                    after,
                    r,
                );
            let then = (Some(v), got.1, got.2);
            lemma_perm3_from_0_in_order(ps, then, next, RoundSoFar::fresh(), after, o);
            assert(stops_with(at, next));
        } else {
            let (stop, soft): (I, ErrMode<E>) = choose|stop: I, soft: ErrMode<E>|
                #[trigger]
                stops_with(stop, soft) && !(soft is Cut) && ps.0.parses(at, stop, Err(soft))
                    && perm3_from_1(ps, got, at, acc.note(soft), after, r);
            lemma_perm3_from_1_in_order(ps, got, at, acc.note(soft), after, o);
        }
    }
}

/// Where a permutation of 3 parsers succeeds, seen from parser 1 of a round
/// on, its outputs are in the order of the list.
pub proof fn lemma_perm3_from_1_in_order<I, O1, O2, O3, E, A1, A2, A3>(
    ps: (A1, A2, A3),
    got: (Option<O1>, Option<O2>, Option<O3>),
    at: I,
    acc: RoundSoFar<E>,
    after: I,
    o: (O1, O2, O3),
) where
    I: Stream,
    E: ParseError<I>,
    A1: Parser<I, O1, E>,
    A2: Parser<I, O2, E>,
    A3: Parser<I, O3, E>,

    requires
        perm3_from_1(ps, got, at, acc, after, Ok(o)),
    ensures
        perm3_in_order(ps, got, o),
    decreases perm3_pending(got), 2nat,
{
    let r = Ok::<(O1, O2, O3), ErrMode<E>>(o);
    if got.1 is Some {
        lemma_perm3_from_2_in_order(ps, got, at, acc, after, o);
    } else {
        if exists|next: I, v: O2| #[trigger]
            stops_with(next, v) && ps.1.parses(at, next, Ok(v)) && perm3_from_0(
                ps,
                (got.0, Some(v), got.2),
                next,
                RoundSoFar::fresh(),
                after,
                r,
            ) {
            let (next, v): (I, O2) = choose|next: I, v: O2| #[trigger]
                stops_with(next, v) && ps.1.parses(at, next, Ok(v)) && perm3_from_0(
                    ps,
                    (got.0, Some(v), got.2),
                    next,
                    RoundSoFar::fresh(),
                    after,
                    r,
                );
            let then = (got.0, Some(v), got.2);
            lemma_perm3_from_0_in_order(ps, then, next, RoundSoFar::fresh(), after, o);
            assert(stops_with(at, next));
        } else {
            let (stop, soft): (I, ErrMode<E>) = choose|stop: I, soft: ErrMode<E>|
                #[trigger]
                stops_with(stop, soft) && !(soft is Cut) && ps.1.parses(at, stop, Err(soft))
                    && perm3_from_2(ps, got, at, acc.note(soft), after, r);
            lemma_perm3_from_2_in_order(ps, got, at, acc.note(soft), after, o);
        }
    }
}

/// Where a permutation of 3 parsers succeeds, seen from parser 2 of a round
/// on, its outputs are in the order of the list.
pub proof fn lemma_perm3_from_2_in_order<I, O1, O2, O3, E, A1, A2, A3>(
    ps: (A1, A2, A3),
    got: (Option<O1>, Option<O2>, Option<O3>),
    at: I,
    acc: RoundSoFar<E>,
    after: I,
    o: (O1, O2, O3),
) where
    I: Stream,
    E: ParseError<I>,
    A1: Parser<I, O1, E>,
    A2: Parser<I, O2, E>,
    A3: Parser<I, O3, E>,

    requires
        perm3_from_2(ps, got, at, acc, after, Ok(o)),
    ensures
        perm3_in_order(ps, got, o),
    decreases perm3_pending(got), 1nat,
{
    let r = Ok::<(O1, O2, O3), ErrMode<E>>(o);
    if got.2 is Some {
        lemma_perm3_end_in_order(ps, got, at, acc, after, o);
    } else {
        if exists|next: I, v: O3| #[trigger]
            stops_with(next, v) && ps.2.parses(at, next, Ok(v)) && perm3_from_0(
                ps,
                (got.0, got.1, Some(v)),
                next,
                RoundSoFar::fresh(),
                after,
                r,
            ) {
            let (next, v): (I, O3) = choose|next: I, v: O3| #[trigger]
                stops_with(next, v) && ps.2.parses(at, next, Ok(v)) && perm3_from_0(
                    ps,
                    (got.0, got.1, Some(v)),
                    next,
                    RoundSoFar::fresh(),
                    after,
                    r,
                );
            let then = (got.0, got.1, Some(v));
            lemma_perm3_from_0_in_order(ps, then, next, RoundSoFar::fresh(), after, o);
            assert(stops_with(at, next));
        } else {
            let (stop, soft): (I, ErrMode<E>) = choose|stop: I, soft: ErrMode<E>|
                #[trigger]
                stops_with(stop, soft) && !(soft is Cut) && ps.2.parses(at, stop, Err(soft))
                    && perm3_end(ps, got, at, acc.note(soft), after, r);
            lemma_perm3_end_in_order(ps, got, at, acc.note(soft), after, o);
        }
    }
}

/// Where a permutation of 3 parsers succeeds at the end of a round, its
/// outputs are in the order of the list.
pub proof fn lemma_perm3_end_in_order<I, O1, O2, O3, E, A1, A2, A3>(
    ps: (A1, A2, A3),
    got: (Option<O1>, Option<O2>, Option<O3>),
    at: I,
    acc: RoundSoFar<E>,
    after: I,
    o: (O1, O2, O3),
) where
    I: Stream,
    E: ParseError<I>,
    A1: Parser<I, O1, E>,
    A2: Parser<I, O2, E>,
    A3: Parser<I, O3, E>,

    requires
        perm3_end(ps, got, at, acc, after, Ok(o)),
    ensures
        perm3_in_order(ps, got, o),
    decreases perm3_pending(got), 0nat,
{
}

/// A permutation of 3 parsers yields its outputs in the order of the list,
/// whatever the order in which the parsers matched: each output is one that
/// the parser at its place in the list may yield.
pub proof fn lemma_perm3_outputs_in_order<I, O1, O2, O3, E, A1, A2, A3>(
    ps: (A1, A2, A3),
    before: I,
    after: I,
    o: (O1, O2, O3),
) where
    I: Stream,
    E: ParseError<I>,
    A1: Parser<I, O1, E>,
    A2: Parser<I, O2, E>,
    A3: Parser<I, O3, E>,

    requires
        Permuted::of(ps).parses(before, after, Ok(o)),
    ensures
        exists|c: I, d: I| #[trigger] stops_with(c, d) && ps.0.parses(c, d, Ok(o.0)),
        exists|c: I, d: I| #[trigger] stops_with(c, d) && ps.1.parses(c, d, Ok(o.1)),
        exists|c: I, d: I| #[trigger] stops_with(c, d) && ps.2.parses(c, d, Ok(o.2)),
{
    let none = (None::<O1>, None::<O2>, None::<O3>);
    lemma_perm3_from_0_in_order(ps, none, before, RoundSoFar::fresh(), after, o);
}

/// A permutation of 3 parsers that have all matched yields their outputs, in
/// the order of the list, and leaves the cursor where it is.
pub proof fn lemma_perm3_done<I, O1, O2, O3, E, A1, A2, A3>(
    ps: (A1, A2, A3),
    at: I,
    o: (O1, O2, O3),
) where
    I: Stream,
    E: ParseError<I>,
    A1: Parser<I, O1, E>,
    A2: Parser<I, O2, E>,
    A3: Parser<I, O3, E>,

    ensures
        perm3_from_0(
            ps,
            (Some(o.0), Some(o.1), Some(o.2)),
            at,
            RoundSoFar::fresh(),
            at,
            Ok(o),
        ),
{
    let all = (Some(o.0), Some(o.1), Some(o.2));
    let r = Ok::<(O1, O2, O3), ErrMode<E>>(o);
    let fresh = RoundSoFar::<E>::fresh();
    assert(perm3_end(ps, all, at, fresh, at, r));
    assert(perm3_from_2(ps, all, at, fresh, at, r));
    assert(perm3_from_1(ps, all, at, fresh, at, r));
    assert(perm3_from_0(ps, all, at, fresh, at, r));
}

/// One round of a permutation of 3 parsers in which parser 0 matches: where
/// every parser before it in the list that has not matched yet fails softly
/// at the start of the round, and it succeeds there, the permutation goes on
/// with its output kept, from where it stopped.
pub proof fn lemma_perm3_round_0<I, O1, O2, O3, E, A1, A2, A3>(
    ps: (A1, A2, A3),
    got: (Option<O1>, Option<O2>, Option<O3>),
    at: I,
    next: I,
    v: O1,
    after: I,
    r: PResult<(O1, O2, O3), E>,
) where
    I: Stream,
    E: ParseError<I>,
    A1: Parser<I, O1, E>,
    A2: Parser<I, O2, E>,
    A3: Parser<I, O3, E>,

    requires
        got.0 is None,
        ps.0.parses(at, next, Ok(v)),
        perm3_from_0(
            ps,
            (Some(v), got.1, got.2),
            next,
            RoundSoFar::fresh(),
            after,
            r,
        ),
    ensures
        perm3_from_0(ps, got, at, RoundSoFar::fresh(), after, r),
{
    let acc0 = RoundSoFar::<E>::fresh();
    assert(stops_with(next, v));
    assert(perm3_from_0(ps, got, at, acc0, after, r));
}

/// One round of a permutation of 3 parsers in which parser 1 matches: where
/// every parser before it in the list that has not matched yet fails softly
/// at the start of the round, and it succeeds there, the permutation goes on
/// with its output kept, from where it stopped.
pub proof fn lemma_perm3_round_1<I, O1, O2, O3, E, A1, A2, A3>(
    ps: (A1, A2, A3),
    got: (Option<O1>, Option<O2>, Option<O3>),
    at: I,
    next: I,
    v: O2,
    after: I,
    r: PResult<(O1, O2, O3), E>,
) where
    I: Stream,
    E: ParseError<I>,
    A1: Parser<I, O1, E>,
    A2: Parser<I, O2, E>,
    A3: Parser<I, O3, E>,

    requires
        got.0 is None ==> fails_softly(ps.0, at),
        got.1 is None,
        ps.1.parses(at, next, Ok(v)),
        perm3_from_0(
            ps,
            (got.0, Some(v), got.2),
            next,
            RoundSoFar::fresh(),
            after,
            r,
        ),
    ensures
        perm3_from_0(ps, got, at, RoundSoFar::fresh(), after, r),
{
    let acc0 = RoundSoFar::<E>::fresh();
    let (stop0, soft0): (I, ErrMode<E>) = choose|stop: I, soft: ErrMode<E>| #[trigger]
        stops_with(stop, soft) && !(soft is Cut) && ps.0.parses(at, stop, Err(soft));
    let acc1 = if got.0 is None {
        acc0.note(soft0)
    } else {
        acc0
    };
    assert(stops_with(next, v));
    assert(perm3_from_1(ps, got, at, acc1, after, r));
    assert(stops_with(stop0, soft0));
    assert(perm3_from_0(ps, got, at, acc0, after, r));
}

/// One round of a permutation of 3 parsers in which parser 2 matches: where
/// every parser before it in the list that has not matched yet fails softly
/// at the start of the round, and it succeeds there, the permutation goes on
/// with its output kept, from where it stopped.
pub proof fn lemma_perm3_round_2<I, O1, O2, O3, E, A1, A2, A3>(
    ps: (A1, A2, A3),
    got: (Option<O1>, Option<O2>, Option<O3>),
    at: I,
    next: I,
    v: O3,
    after: I,
    r: PResult<(O1, O2, O3), E>,
) where
    I: Stream,
    E: ParseError<I>,
    A1: Parser<I, O1, E>,
    A2: Parser<I, O2, E>,
    A3: Parser<I, O3, E>,

    requires
        got.0 is None ==> fails_softly(ps.0, at),
        got.1 is None ==> fails_softly(ps.1, at),
        got.2 is None,
        ps.2.parses(at, next, Ok(v)),
        perm3_from_0(
            ps,
            (got.0, got.1, Some(v)),
            next,
            RoundSoFar::fresh(),
            after,
            r,
        ),
    ensures
        perm3_from_0(ps, got, at, RoundSoFar::fresh(), after, r),
{
    let acc0 = RoundSoFar::<E>::fresh();
    let (stop0, soft0): (I, ErrMode<E>) = choose|stop: I, soft: ErrMode<E>| #[trigger]
        stops_with(stop, soft) && !(soft is Cut) && ps.0.parses(at, stop, Err(soft));
    let acc1 = if got.0 is None {
        acc0.note(soft0)
    } else {
        acc0
    };
    let (stop1, soft1): (I, ErrMode<E>) = choose|stop: I, soft: ErrMode<E>| #[trigger]
        stops_with(stop, soft) && !(soft is Cut) && ps.1.parses(at, stop, Err(soft));
    let acc2 = if got.1 is None {
        acc1.note(soft1)
    } else {
        acc1
    };
    assert(stops_with(next, v));
    assert(perm3_from_2(ps, got, at, acc2, after, r));
    assert(stops_with(stop1, soft1));
    assert(perm3_from_1(ps, got, at, acc1, after, r));
    assert(stops_with(stop0, soft0));
    assert(perm3_from_0(ps, got, at, acc0, after, r));
}

/// One round of a permutation of 3 parsers in which no parser matches: where
/// every parser that has not matched yet fails recoverably at the start of
/// the round, wherever it left the cursor, the permutation fails recoverably
/// with the cursor at the start of the round, and its error is that of the
/// last such parser under a frame at the start of the round.
pub proof fn lemma_perm3_round_fails<I, O1, O2, O3, E, A1, A2, A3>(
    ps: (A1, A2, A3),
    got: (Option<O1>, Option<O2>, Option<O3>),
    at: I,
    stops: (I, I, I),
    errors: (E, E, E),
    e: E,
) where
    I: Stream,
    E: ParseError<I>,
    A1: Parser<I, O1, E>,
    A2: Parser<I, O2, E>,
    A3: Parser<I, O3, E>,

    requires
        got.0 is None ==> ps.0.parses(at, stops.0, Err(ErrMode::Backtrack(errors.0))),
        got.1 is None ==> ps.1.parses(at, stops.1, Err(ErrMode::Backtrack(errors.1))),
        got.2 is None ==> ps.2.parses(at, stops.2, Err(ErrMode::Backtrack(errors.2))),
        ({
            ||| got.0 is None
            ||| got.1 is None
            ||| got.2 is None
        }),
        ({
            let last_0 = errors.0;
            let last_1 = if got.1 is None {
                errors.1
            } else {
                last_0
            };
            let last_2 = if got.2 is None {
                errors.2
            } else {
                last_1
            };
            e.appended_to(last_2, at, ErrorKind::Permutation)
        }),
    ensures
        perm3_from_0(ps, got, at, RoundSoFar::fresh(), at, Err(ErrMode::Backtrack(e))),
{
    let r = Err::<(O1, O2, O3), ErrMode<E>>(ErrMode::Backtrack(e));
    let acc0 = RoundSoFar::<E>::fresh();
    let soft0 = ErrMode::Backtrack(errors.0);
    let acc1 = if got.0 is None {
        acc0.note(soft0)
    } else {
        acc0
    };
    let soft1 = ErrMode::Backtrack(errors.1);
    let acc2 = if got.1 is None {
        acc1.note(soft1)
    } else {
        acc1
    };
    let soft2 = ErrMode::Backtrack(errors.2);
    let acc3 = if got.2 is None {
        acc2.note(soft2)
    } else {
        acc2
    };
    assert(perm3_end(ps, got, at, acc3, at, r));
    assert(stops_with(stops.2, soft2));
    assert(perm3_from_2(ps, got, at, acc2, at, r));
    assert(stops_with(stops.1, soft1));
    assert(perm3_from_1(ps, got, at, acc1, at, r));
    assert(stops_with(stops.0, soft0));
    assert(perm3_from_0(ps, got, at, acc0, at, r));
}

/// The outputs `o` of a permutation of 4 parsers are in the order of the
/// list: each is the output kept in `got` for its parser, or, where none is
/// kept, an output that its parser may yield somewhere.
pub open spec fn perm4_in_order<I, O1, O2, O3, O4, E, A1, A2, A3, A4>(
    ps: (A1, A2, A3, A4),
    got: (Option<O1>, Option<O2>, Option<O3>, Option<O4>),
    o: (O1, O2, O3, O4),
) -> bool where
    I: Stream,
    E: ParseError<I>,
    A1: Parser<I, O1, E>,
    A2: Parser<I, O2, E>,
    A3: Parser<I, O3, E>,
    A4: Parser<I, O4, E>,
{
    &&& match got.0 {
        Some(kept) => o.0 == kept,
        None => exists|c: I, d: I| #[trigger]
            stops_with(c, d) && ps.0.parses(c, d, Ok(o.0)),
    }
    &&& match got.1 {
        Some(kept) => o.1 == kept,
        None => exists|c: I, d: I| #[trigger]
            stops_with(c, d) && ps.1.parses(c, d, Ok(o.1)),
    }
    &&& match got.2 {
        Some(kept) => o.2 == kept,
        None => exists|c: I, d: I| #[trigger]
            stops_with(c, d) && ps.2.parses(c, d, Ok(o.2)),
    }
    &&& match got.3 {
        Some(kept) => o.3 == kept,
        None => exists|c: I, d: I| #[trigger]
            stops_with(c, d) && ps.3.parses(c, d, Ok(o.3)),
    }
}

/// Where a permutation of 4 parsers succeeds, seen from parser 0 of a round
/// on, its outputs are in the order of the list.
pub proof fn lemma_perm4_from_0_in_order<I, O1, O2, O3, O4, E, A1, A2, A3, A4>(
    ps: (A1, A2, A3, A4),
    got: (Option<O1>, Option<O2>, Option<O3>, Option<O4>),
    at: I,
    acc: RoundSoFar<E>,
    after: I,
    o: (O1, O2, O3, O4),
) where
    I: Stream,
    E: ParseError<I>,
    A1: Parser<I, O1, E>,
    A2: Parser<I, O2, E>,
    A3: Parser<I, O3, E>,
    A4: Parser<I, O4, E>,

    requires
        perm4_from_0(ps, got, at, acc, after, Ok(o)),
    ensures
        perm4_in_order(ps, got, o),
    decreases perm4_pending(got), 4nat,
{
    let r = Ok::<(O1, O2, O3, O4), ErrMode<E>>(o);
    if got.0 is Some {
        lemma_perm4_from_1_in_order(ps, got, at, acc, after, o);
    } else {
        if exists|next: I, v: O1| #[trigger]
            stops_with(next, v) && ps.0.parses(at, next, Ok(v)) && perm4_from_0(
                ps,
                (Some(v), got.1, got.2, got.3),
                next,
                RoundSoFar::fresh(),
                after,
                r,
            ) {
            let (next, v): (I, O1) = choose|next: I, v: O1| #[trigger]
                stops_with(next, v) && ps.0.parses(at, next, Ok(v)) && perm4_from_0(
                    ps,
                    (Some(v), got.1, got.2, got.3),
                    next,
                    RoundSoFar::fresh(),
                    after,
                    r,
                );
            let then = (Some(v), got.1, got.2, got.3);
            lemma_perm4_from_0_in_order(ps, then, next, RoundSoFar::fresh(), after, o);
            assert(stops_with(at, next));
        } else {
            let (stop, soft): (I, ErrMode<E>) = choose|stop: I, soft: ErrMode<E>|
                #[trigger]
                stops_with(stop, soft) && !(soft is Cut) && ps.0.parses(at, stop, Err(soft))
                    && perm4_from_1(ps, got, at, acc.note(soft), after, r);
            lemma_perm4_from_1_in_order(ps, got, at, acc.note(soft), after, o);
        }
    }
}

/// Where a permutation of 4 parsers succeeds, seen from parser 1 of a round
/// on, its outputs are in the order of the list.
pub proof fn lemma_perm4_from_1_in_order<I, O1, O2, O3, O4, E, A1, A2, A3, A4>(
    ps: (A1, A2, A3, A4),
    got: (Option<O1>, Option<O2>, Option<O3>, Option<O4>),
    at: I,
    acc: RoundSoFar<E>,
    after: I,
    o: (O1, O2, O3, O4),
) where
    I: Stream,
    E: ParseError<I>,
    A1: Parser<I, O1, E>,
    A2: Parser<I, O2, E>,
    A3: Parser<I, O3, E>,
    A4: Parser<I, O4, E>,

    requires
        perm4_from_1(ps, got, at, acc, after, Ok(o)),
    ensures
        perm4_in_order(ps, got, o),
    decreases perm4_pending(got), 3nat,
{
    let r = Ok::<(O1, O2, O3, O4), ErrMode<E>>(o);
    if got.1 is Some {
        lemma_perm4_from_2_in_order(ps, got, at, acc, after, o);
    } else {
        if exists|next: I, v: O2| #[trigger]
            stops_with(next, v) && ps.1.parses(at, next, Ok(v)) && perm4_from_0(
                ps,
                (got.0, Some(v), got.2, got.3),
                next,
                RoundSoFar::fresh(),
                after,
                r,
            ) {
            let (next, v): (I, O2) = choose|next: I, v: O2| #[trigger]
                stops_with(next, v) && ps.1.parses(at, next, Ok(v)) && perm4_from_0(
                    ps,
                    (got.0, Some(v), got.2, got.3),
                    next,
                    RoundSoFar::fresh(),
                    after,
                    r,
                );
            let then = (got.0, Some(v), got.2, got.3);
            lemma_perm4_from_0_in_order(ps, then, next, RoundSoFar::fresh(), after, o);
            assert(stops_with(at, next));
        } else {
            let (stop, soft): (I, ErrMode<E>) = choose|stop: I, soft: ErrMode<E>|
                #[trigger]
                stops_with(stop, soft) && !(soft is Cut) && ps.1.parses(at, stop, Err(soft))
                    && perm4_from_2(ps, got, at, acc.note(soft), after, r);
            lemma_perm4_from_2_in_order(ps, got, at, acc.note(soft), after, o);
        }
    }
}

/// Where a permutation of 4 parsers succeeds, seen from parser 2 of a round
/// on, its outputs are in the order of the list.
pub proof fn lemma_perm4_from_2_in_order<I, O1, O2, O3, O4, E, A1, A2, A3, A4>(
    ps: (A1, A2, A3, A4),
    got: (Option<O1>, Option<O2>, Option<O3>, Option<O4>),
    at: I,
    acc: RoundSoFar<E>,
    after: I,
    o: (O1, O2, O3, O4),
) where
    I: Stream,
    E: ParseError<I>,
    A1: Parser<I, O1, E>,
    A2: Parser<I, O2, E>,
    A3: Parser<I, O3, E>,
    A4: Parser<I, O4, E>,

    requires
        perm4_from_2(ps, got, at, acc, after, Ok(o)),
    ensures
        perm4_in_order(ps, got, o),
    decreases perm4_pending(got), 2nat,
{
    let r = Ok::<(O1, O2, O3, O4), ErrMode<E>>(o);
    if got.2 is Some {
        lemma_perm4_from_3_in_order(ps, got, at, acc, after, o);
    } else {
        if exists|next: I, v: O3| #[trigger]
            stops_with(next, v) && ps.2.parses(at, next, Ok(v)) && perm4_from_0(
                ps,
                (got.0, got.1, Some(v), got.3),
                next,
                RoundSoFar::fresh(),
                after,
                r,
            ) {
            let (next, v): (I, O3) = choose|next: I, v: O3| #[trigger]
                stops_with(next, v) && ps.2.parses(at, next, Ok(v)) && perm4_from_0(
                    ps,
                    (got.0, got.1, Some(v), got.3),
                    next,
                    RoundSoFar::fresh(),
                    after,
                    r,
                );
            let then = (got.0, got.1, Some(v), got.3);
            lemma_perm4_from_0_in_order(ps, then, next, RoundSoFar::fresh(), after, o);
            assert(stops_with(at, next));
        } else {
            let (stop, soft): (I, ErrMode<E>) = choose|stop: I, soft: ErrMode<E>|
                #[trigger]
                stops_with(stop, soft) && !(soft is Cut) && ps.2.parses(at, stop, Err(soft))
                    && perm4_from_3(ps, got, at, acc.note(soft), after, r);
            lemma_perm4_from_3_in_order(ps, got, at, acc.note(soft), after, o);
        }
    }
}

/// Where a permutation of 4 parsers succeeds, seen from parser 3 of a round
/// on, its outputs are in the order of the list.
pub proof fn lemma_perm4_from_3_in_order<I, O1, O2, O3, O4, E, A1, A2, A3, A4>(
    ps: (A1, A2, A3, A4),
    got: (Option<O1>, Option<O2>, Option<O3>, Option<O4>),
    at: I,
    acc: RoundSoFar<E>,
    after: I,
    o: (O1, O2, O3, O4),
) where
    I: Stream,
    E: ParseError<I>,
    A1: Parser<I, O1, E>,
    A2: Parser<I, O2, E>,
    A3: Parser<I, O3, E>,
    A4: Parser<I, O4, E>,

    requires
        perm4_from_3(ps, got, at, acc, after, Ok(o)),
    ensures
        perm4_in_order(ps, got, o),
    decreases perm4_pending(got), 1nat,
{
    let r = Ok::<(O1, O2, O3, O4), ErrMode<E>>(o);
    if got.3 is Some {
        lemma_perm4_end_in_order(ps, got, at, acc, after, o);
    } else {
        if exists|next: I, v: O4| #[trigger]
            stops_with(next, v) && ps.3.parses(at, next, Ok(v)) && perm4_from_0(
                ps,
                (got.0, got.1, got.2, Some(v)),
                next,
                RoundSoFar::fresh(),
                after,
                r,
            ) {
            let (next, v): (I, O4) = choose|next: I, v: O4| #[trigger]
                stops_with(next, v) && ps.3.parses(at, next, Ok(v)) && perm4_from_0(
                    ps,
                    (got.0, got.1, got.2, Some(v)),
                    next,
                    RoundSoFar::fresh(),
                    after,
                    r,
                );
            let then = (got.0, got.1, got.2, Some(v));
            lemma_perm4_from_0_in_order(ps, then, next, RoundSoFar::fresh(), after, o);
            assert(stops_with(at, next));
        } else {
            let (stop, soft): (I, ErrMode<E>) = choose|stop: I, soft: ErrMode<E>|
                #[trigger]
                stops_with(stop, soft) && !(soft is Cut) && ps.3.parses(at, stop, Err(soft))
                    && perm4_end(ps, got, at, acc.note(soft), after, r);
            lemma_perm4_end_in_order(ps, got, at, acc.note(soft), after, o);
        }
    }
}

/// Where a permutation of 4 parsers succeeds at the end of a round, its
/// outputs are in the order of the list.
pub proof fn lemma_perm4_end_in_order<I, O1, O2, O3, O4, E, A1, A2, A3, A4>(
    ps: (A1, A2, A3, A4),
    got: (Option<O1>, Option<O2>, Option<O3>, Option<O4>),
    at: I,
    acc: RoundSoFar<E>,
    after: I,
    o: (O1, O2, O3, O4),
) where
    I: Stream,
    E: ParseError<I>,
    A1: Parser<I, O1, E>,
    A2: Parser<I, O2, E>,
    A3: Parser<I, O3, E>,
    A4: Parser<I, O4, E>,

    requires
        perm4_end(ps, got, at, acc, after, Ok(o)),
    ensures
        perm4_in_order(ps, got, o),
    decreases perm4_pending(got), 0nat,
{
}

/// A permutation of 4 parsers yields its outputs in the order of the list,
/// whatever the order in which the parsers matched: each output is one that
/// the parser at its place in the list may yield.
pub proof fn lemma_perm4_outputs_in_order<I, O1, O2, O3, O4, E, A1, A2, A3, A4>(
    ps: (A1, A2, A3, A4),
    before: I,
    after: I,
    o: (O1, O2, O3, O4),
) where
    I: Stream,
    E: ParseError<I>,
    A1: Parser<I, O1, E>,
    A2: Parser<I, O2, E>,
    A3: Parser<I, O3, E>,
    A4: Parser<I, O4, E>,

    requires
        Permuted::of(ps).parses(before, after, Ok(o)),
    ensures
        exists|c: I, d: I| #[trigger] stops_with(c, d) && ps.0.parses(c, d, Ok(o.0)),
        exists|c: I, d: I| #[trigger] stops_with(c, d) && ps.1.parses(c, d, Ok(o.1)),
        exists|c: I, d: I| #[trigger] stops_with(c, d) && ps.2.parses(c, d, Ok(o.2)),
        exists|c: I, d: I| #[trigger] stops_with(c, d) && ps.3.parses(c, d, Ok(o.3)),
{
    let none = (None::<O1>, None::<O2>, None::<O3>, None::<O4>);
    lemma_perm4_from_0_in_order(ps, none, before, RoundSoFar::fresh(), after, o);
}

/// A permutation of 4 parsers that have all matched yields their outputs, in
/// the order of the list, and leaves the cursor where it is.
pub proof fn lemma_perm4_done<I, O1, O2, O3, O4, E, A1, A2, A3, A4>(
    ps: (A1, A2, A3, A4),
    at: I,
    o: (O1, O2, O3, O4),
) where
    I: Stream,
    E: ParseError<I>,
    A1: Parser<I, O1, E>,
    A2: Parser<I, O2, E>,
    A3: Parser<I, O3, E>,
    A4: Parser<I, O4, E>,

    ensures
        perm4_from_0(
            ps,
            (Some(o.0), Some(o.1), Some(o.2), Some(o.3)),
            at,
            RoundSoFar::fresh(),
            at,
            Ok(o),
        ),
{
    let all = (Some(o.0), Some(o.1), Some(o.2), Some(o.3));
    let r = Ok::<(O1, O2, O3, O4), ErrMode<E>>(o);
    let fresh = RoundSoFar::<E>::fresh();
    assert(perm4_end(ps, all, at, fresh, at, r));
    assert(perm4_from_3(ps, all, at, fresh, at, r));
    assert(perm4_from_2(ps, all, at, fresh, at, r));
    assert(perm4_from_1(ps, all, at, fresh, at, r));
    assert(perm4_from_0(ps, all, at, fresh, at, r));
}

/// One round of a permutation of 4 parsers in which parser 0 matches: where
/// every parser before it in the list that has not matched yet fails softly
/// at the start of the round, and it succeeds there, the permutation goes on
/// with its output kept, from where it stopped.
pub proof fn lemma_perm4_round_0<I, O1, O2, O3, O4, E, A1, A2, A3, A4>(
    ps: (A1, A2, A3, A4),
    got: (Option<O1>, Option<O2>, Option<O3>, Option<O4>),
    at: I,
    next: I,
    v: O1,
    after: I,
    r: PResult<(O1, O2, O3, O4), E>,
) where
    I: Stream,
    E: ParseError<I>,
    A1: Parser<I, O1, E>,
    A2: Parser<I, O2, E>,
    A3: Parser<I, O3, E>,
    A4: Parser<I, O4, E>,

    requires
        got.0 is None,
        ps.0.parses(at, next, Ok(v)),
        perm4_from_0(
            ps,
            (Some(v), got.1, got.2, got.3),
            next,
            RoundSoFar::fresh(),
            after,
            r,
        ),
    ensures
        perm4_from_0(ps, got, at, RoundSoFar::fresh(), after, r),
{
    let acc0 = RoundSoFar::<E>::fresh();
    assert(stops_with(next, v));
    assert(perm4_from_0(ps, got, at, acc0, after, r));
}

/// One round of a permutation of 4 parsers in which parser 1 matches: where
/// every parser before it in the list that has not matched yet fails softly
/// at the start of the round, and it succeeds there, the permutation goes on
/// with its output kept, from where it stopped.
pub proof fn lemma_perm4_round_1<I, O1, O2, O3, O4, E, A1, A2, A3, A4>(
    ps: (A1, A2, A3, A4),
    got: (Option<O1>, Option<O2>, Option<O3>, Option<O4>),
    at: I,
    next: I,
    v: O2,
    after: I,
    r: PResult<(O1, O2, O3, O4), E>,
) where
    I: Stream,
    E: ParseError<I>,
    A1: Parser<I, O1, E>,
    A2: Parser<I, O2, E>,
    A3: Parser<I, O3, E>,
    A4: Parser<I, O4, E>,

    requires
        got.0 is None ==> fails_softly(ps.0, at),
        got.1 is None,
        ps.1.parses(at, next, Ok(v)),
        perm4_from_0(
            ps,
            (got.0, Some(v), got.2, got.3),
            next,
            RoundSoFar::fresh(),
            after,
            r,
        ),
    ensures
        perm4_from_0(ps, got, at, RoundSoFar::fresh(), after, r),
{
    let acc0 = RoundSoFar::<E>::fresh();
    let (stop0, soft0): (I, ErrMode<E>) = choose|stop: I, soft: ErrMode<E>| #[trigger]
        stops_with(stop, soft) && !(soft is Cut) && ps.0.parses(at, stop, Err(soft));
    let acc1 = if got.0 is None {
        acc0.note(soft0)
    } else {
        acc0
    };
    assert(stops_with(next, v));
    assert(perm4_from_1(ps, got, at, acc1, after, r));
    assert(stops_with(stop0, soft0));
    assert(perm4_from_0(ps, got, at, acc0, after, r));
}

/// One round of a permutation of 4 parsers in which parser 2 matches: where
/// every parser before it in the list that has not matched yet fails softly
/// at the start of the round, and it succeeds there, the permutation goes on
/// with its output kept, from where it stopped.
pub proof fn lemma_perm4_round_2<I, O1, O2, O3, O4, E, A1, A2, A3, A4>(
    ps: (A1, A2, A3, A4),
    got: (Option<O1>, Option<O2>, Option<O3>, Option<O4>),
    at: I,
    next: I,
    v: O3,
    after: I,
    r: PResult<(O1, O2, O3, O4), E>,
) where
    I: Stream,
    E: ParseError<I>,
    A1: Parser<I, O1, E>,
    A2: Parser<I, O2, E>,
    A3: Parser<I, O3, E>,
    A4: Parser<I, O4, E>,

    requires
        got.0 is None ==> fails_softly(ps.0, at),
        got.1 is None ==> fails_softly(ps.1, at),
        got.2 is None,
        ps.2.parses(at, next, Ok(v)),
        perm4_from_0(
            ps,
            (got.0, got.1, Some(v), got.3),
            next,
            RoundSoFar::fresh(),
            after,
            r,
        ),
    ensures
        perm4_from_0(ps, got, at, RoundSoFar::fresh(), after, r),
{
    let acc0 = RoundSoFar::<E>::fresh();
    let (stop0, soft0): (I, ErrMode<E>) = choose|stop: I, soft: ErrMode<E>| #[trigger]
        stops_with(stop, soft) && !(soft is Cut) && ps.0.parses(at, stop, Err(soft));
    let acc1 = if got.0 is None {
        acc0.note(soft0)
    } else {
        acc0
    };
    let (stop1, soft1): (I, ErrMode<E>) = choose|stop: I, soft: ErrMode<E>| #[trigger]
        stops_with(stop, soft) && !(soft is Cut) && ps.1.parses(at, stop, Err(soft));
    let acc2 = if got.1 is None {
        acc1.note(soft1)
    } else {
        acc1
    };
    assert(stops_with(next, v));
    assert(perm4_from_2(ps, got, at, acc2, after, r));
    assert(stops_with(stop1, soft1));
    assert(perm4_from_1(ps, got, at, acc1, after, r));
    assert(stops_with(stop0, soft0));
    assert(perm4_from_0(ps, got, at, acc0, after, r));
}

/// One round of a permutation of 4 parsers in which parser 3 matches: where
/// every parser before it in the list that has not matched yet fails softly
/// at the start of the round, and it succeeds there, the permutation goes on
/// with its output kept, from where it stopped.
pub proof fn lemma_perm4_round_3<I, O1, O2, O3, O4, E, A1, A2, A3, A4>(
    ps: (A1, A2, A3, A4),
    got: (Option<O1>, Option<O2>, Option<O3>, Option<O4>),
    at: I,
    next: I,
    v: O4,
    after: I,
    r: PResult<(O1, O2, O3, O4), E>,
) where
    I: Stream,
    E: ParseError<I>,
    A1: Parser<I, O1, E>,
    A2: Parser<I, O2, E>,
    A3: Parser<I, O3, E>,
    A4: Parser<I, O4, E>,

    requires
        got.0 is None ==> fails_softly(ps.0, at),
        got.1 is None ==> fails_softly(ps.1, at),
        got.2 is None ==> fails_softly(ps.2, at),
        got.3 is None,
        ps.3.parses(at, next, Ok(v)),
        perm4_from_0(
            ps,
            (got.0, got.1, got.2, Some(v)),
            next,
            RoundSoFar::fresh(),
            after,
            r,
        ),
    ensures
        perm4_from_0(ps, got, at, RoundSoFar::fresh(), after, r),
{
    let acc0 = RoundSoFar::<E>::fresh();
    let (stop0, soft0): (I, ErrMode<E>) = choose|stop: I, soft: ErrMode<E>| #[trigger]
        stops_with(stop, soft) && !(soft is Cut) && ps.0.parses(at, stop, Err(soft));
    let acc1 = if got.0 is None {
        acc0.note(soft0)
    } else {
        acc0
    };
    let (stop1, soft1): (I, ErrMode<E>) = choose|stop: I, soft: ErrMode<E>| #[trigger]
        stops_with(stop, soft) && !(soft is Cut) && ps.1.parses(at, stop, Err(soft));
    let acc2 = if got.1 is None {
        acc1.note(soft1)
    } else {
        acc1
    };
    let (stop2, soft2): (I, ErrMode<E>) = choose|stop: I, soft: ErrMode<E>| #[trigger]
        stops_with(stop, soft) && !(soft is Cut) && ps.2.parses(at, stop, Err(soft));
    let acc3 = if got.2 is None {
        acc2.note(soft2)
    } else {
        acc2
    };
    assert(stops_with(next, v));
    assert(perm4_from_3(ps, got, at, acc3, after, r));
    assert(stops_with(stop2, soft2));
    assert(perm4_from_2(ps, got, at, acc2, after, r));
    assert(stops_with(stop1, soft1));
    assert(perm4_from_1(ps, got, at, acc1, after, r));
    assert(stops_with(stop0, soft0));
    assert(perm4_from_0(ps, got, at, acc0, after, r));
}

/// One round of a permutation of 4 parsers in which no parser matches: where
/// every parser that has not matched yet fails recoverably at the start of
/// the round, wherever it left the cursor, the permutation fails recoverably
/// with the cursor at the start of the round, and its error is that of the
/// last such parser under a frame at the start of the round.
pub proof fn lemma_perm4_round_fails<I, O1, O2, O3, O4, E, A1, A2, A3, A4>(
    ps: (A1, A2, A3, A4),
    got: (Option<O1>, Option<O2>, Option<O3>, Option<O4>),
    at: I,
    stops: (I, I, I, I),
    errors: (E, E, E, E),
    e: E,
) where
    I: Stream,
    E: ParseError<I>,
    A1: Parser<I, O1, E>,
    A2: Parser<I, O2, E>,
    A3: Parser<I, O3, E>,
    A4: Parser<I, O4, E>,

    requires
        got.0 is None ==> ps.0.parses(at, stops.0, Err(ErrMode::Backtrack(errors.0))),
        got.1 is None ==> ps.1.parses(at, stops.1, Err(ErrMode::Backtrack(errors.1))),
        got.2 is None ==> ps.2.parses(at, stops.2, Err(ErrMode::Backtrack(errors.2))),
        got.3 is None ==> ps.3.parses(at, stops.3, Err(ErrMode::Backtrack(errors.3))),
        ({
            ||| got.0 is None
            ||| got.1 is None
            ||| got.2 is None
            ||| got.3 is None
        }),
        ({
            let last_0 = errors.0;
            let last_1 = if got.1 is None {
                errors.1
            } else {
                last_0
            };
            let last_2 = if got.2 is None {
                errors.2
            } else {
                last_1
            };
            let last_3 = if got.3 is None {
                errors.3
            } else {
                last_2
            };
            e.appended_to(last_3, at, ErrorKind::Permutation)
        }),
    ensures
        perm4_from_0(ps, got, at, RoundSoFar::fresh(), at, Err(ErrMode::Backtrack(e))),
{
    let r = Err::<(O1, O2, O3, O4), ErrMode<E>>(ErrMode::Backtrack(e));
    let acc0 = RoundSoFar::<E>::fresh();
    let soft0 = ErrMode::Backtrack(errors.0);
    let acc1 = if got.0 is None {
        acc0.note(soft0)
    } else {
        acc0
    };
    let soft1 = ErrMode::Backtrack(errors.1);
    let acc2 = if got.1 is None {
        acc1.note(soft1)
    } else {
        acc1
    };
    let soft2 = ErrMode::Backtrack(errors.2);
    let acc3 = if got.2 is None {
        acc2.note(soft2)
    } else {
        acc2
    };
    let soft3 = ErrMode::Backtrack(errors.3);
    let acc4 = if got.3 is None {
        acc3.note(soft3)
    } else {
        acc3
    };
    assert(perm4_end(ps, got, at, acc4, at, r));
    assert(stops_with(stops.3, soft3));
    assert(perm4_from_3(ps, got, at, acc3, at, r));
    assert(stops_with(stops.2, soft2));
    assert(perm4_from_2(ps, got, at, acc2, at, r));
    assert(stops_with(stops.1, soft1));
    assert(perm4_from_1(ps, got, at, acc1, at, r));
    assert(stops_with(stops.0, soft0));
    assert(perm4_from_0(ps, got, at, acc0, at, r));
}

/// The outputs `o` of a permutation of 5 parsers are in the order of the
/// list: each is the output kept in `got` for its parser, or, where none is
/// kept, an output that its parser may yield somewhere.
pub open spec fn perm5_in_order<I, O1, O2, O3, O4, O5, E, A1, A2, A3, A4, A5>(
    ps: (A1, A2, A3, A4, A5),
    got: (Option<O1>, Option<O2>, Option<O3>, Option<O4>, Option<O5>),
    o: (O1, O2, O3, O4, O5),
) -> bool where
    I: Stream,
    E: ParseError<I>,
    A1: Parser<I, O1, E>,
    A2: Parser<I, O2, E>,
    A3: Parser<I, O3, E>,
    A4: Parser<I, O4, E>,
    A5: Parser<I, O5, E>,
{
    &&& match got.0 {
        Some(kept) => o.0 == kept,
        None => exists|c: I, d: I| #[trigger]
            stops_with(c, d) && ps.0.parses(c, d, Ok(o.0)),
    }
    &&& match got.1 {
        Some(kept) => o.1 == kept,
        None => exists|c: I, d: I| #[trigger]
            stops_with(c, d) && ps.1.parses(c, d, Ok(o.1)),
    }
    &&& match got.2 {
        Some(kept) => o.2 == kept,
        None => exists|c: I, d: I| #[trigger]
            stops_with(c, d) && ps.2.parses(c, d, Ok(o.2)),
    }
    &&& match got.3 {
        Some(kept) => o.3 == kept,
        None => exists|c: I, d: I| #[trigger]
            stops_with(c, d) && ps.3.parses(c, d, Ok(o.3)),
    }
    &&& match got.4 {
        Some(kept) => o.4 == kept,
        None => exists|c: I, d: I| #[trigger]
            stops_with(c, d) && ps.4.parses(c, d, Ok(o.4)),
    }
}

/// Where a permutation of 5 parsers succeeds, seen from parser 0 of a round
/// on, its outputs are in the order of the list.
pub proof fn lemma_perm5_from_0_in_order<I, O1, O2, O3, O4, O5, E, A1, A2, A3, A4, A5>(
    ps: (A1, A2, A3, A4, A5),
    got: (Option<O1>, Option<O2>, Option<O3>, Option<O4>, Option<O5>),
    at: I,
    acc: RoundSoFar<E>,
    after: I,
    o: (O1, O2, O3, O4, O5),
) where
    I: Stream,
    E: ParseError<I>,
    A1: Parser<I, O1, E>,
    A2: Parser<I, O2, E>,
    A3: Parser<I, O3, E>,
    A4: Parser<I, O4, E>,
    A5: Parser<I, O5, E>,

    requires
        perm5_from_0(ps, got, at, acc, after, Ok(o)),
    ensures
        perm5_in_order(ps, got, o),
    decreases perm5_pending(got), 5nat,
{
    let r = Ok::<(O1, O2, O3, O4, O5), ErrMode<E>>(o);
    if got.0 is Some {
        lemma_perm5_from_1_in_order(ps, got, at, acc, after, o);
    } else {
        if exists|next: I, v: O1| #[trigger]
            stops_with(next, v) && ps.0.parses(at, next, Ok(v)) && perm5_from_0(
                ps,
                (Some(v), got.1, got.2, got.3, got.4),
                next,
                RoundSoFar::fresh(),
                after,
                r,
            ) {
            let (next, v): (I, O1) = choose|next: I, v: O1| #[trigger]
                stops_with(next, v) && ps.0.parses(at, next, Ok(v)) && perm5_from_0(
                    ps,
                    (Some(v), got.1, got.2, got.3, got.4),
                    next,
                    RoundSoFar::fresh(),
                    after,
                    r,
                );
            let then = (Some(v), got.1, got.2, got.3, got.4);
            lemma_perm5_from_0_in_order(ps, then, next, RoundSoFar::fresh(), after, o);
            assert(stops_with(at, next));
        } else {
            let (stop, soft): (I, ErrMode<E>) = choose|stop: I, soft: ErrMode<E>|
                #[trigger]
                stops_with(stop, soft) && !(soft is Cut) && ps.0.parses(at, stop, Err(soft))
                    && perm5_from_1(ps, got, at, acc.note(soft), after, r);
            lemma_perm5_from_1_in_order(ps, got, at, acc.note(soft), after, o);
        }
    }
}

/// Where a permutation of 5 parsers succeeds, seen from parser 1 of a round
/// on, its outputs are in the order of the list.
pub proof fn lemma_perm5_from_1_in_order<I, O1, O2, O3, O4, O5, E, A1, A2, A3, A4, A5>(
    ps: (A1, A2, A3, A4, A5),
    got: (Option<O1>, Option<O2>, Option<O3>, Option<O4>, Option<O5>),
    at: I,
    acc: RoundSoFar<E>,
    after: I,
    o: (O1, O2, O3, O4, O5),
) where
    I: Stream,
    E: ParseError<I>,
    A1: Parser<I, O1, E>,
    A2: Parser<I, O2, E>,
    A3: Parser<I, O3, E>,
    A4: Parser<I, O4, E>,
    A5: Parser<I, O5, E>,

    requires
        perm5_from_1(ps, got, at, acc, after, Ok(o)),
    ensures
        perm5_in_order(ps, got, o),
    decreases perm5_pending(got), 4nat,
{
    let r = Ok::<(O1, O2, O3, O4, O5), ErrMode<E>>(o);
    if got.1 is Some {
        lemma_perm5_from_2_in_order(ps, got, at, acc, after, o);
    } else {
        if exists|next: I, v: O2| #[trigger]
            stops_with(next, v) && ps.1.parses(at, next, Ok(v)) && perm5_from_0(
                ps,
                (got.0, Some(v), got.2, got.3, got.4),
                next,
                RoundSoFar::fresh(),
                after,
                r,
            ) {
            let (next, v): (I, O2) = choose|next: I, v: O2| #[trigger]
                stops_with(next, v) && ps.1.parses(at, next, Ok(v)) && perm5_from_0(
                    ps,
                    (got.0, Some(v), got.2, got.3, got.4),
                    next,
                    RoundSoFar::fresh(),
                    after,
                    r,
                );
            let then = (got.0, Some(v), got.2, got.3, got.4);
            lemma_perm5_from_0_in_order(ps, then, next, RoundSoFar::fresh(), after, o);
            assert(stops_with(at, next));
        } else {
            let (stop, soft): (I, ErrMode<E>) = choose|stop: I, soft: ErrMode<E>|
                #[trigger]
                stops_with(stop, soft) && !(soft is Cut) && ps.1.parses(at, stop, Err(soft))
                    && perm5_from_2(ps, got, at, acc.note(soft), after, r);
            lemma_perm5_from_2_in_order(ps, got, at, acc.note(soft), after, o);
        }
    }
}

/// Where a permutation of 5 parsers succeeds, seen from parser 2 of a round
/// on, its outputs are in the order of the list.
pub proof fn lemma_perm5_from_2_in_order<I, O1, O2, O3, O4, O5, E, A1, A2, A3, A4, A5>(
    ps: (A1, A2, A3, A4, A5),
    got: (Option<O1>, Option<O2>, Option<O3>, Option<O4>, Option<O5>),
    at: I,
    acc: RoundSoFar<E>,
    after: I,
    o: (O1, O2, O3, O4, O5),
) where
    I: Stream,
    E: ParseError<I>,
    A1: Parser<I, O1, E>,
    A2: Parser<I, O2, E>,
    A3: Parser<I, O3, E>,
    A4: Parser<I, O4, E>,
    A5: Parser<I, O5, E>,

    requires
        perm5_from_2(ps, got, at, acc, after, Ok(o)),
    ensures
        perm5_in_order(ps, got, o),
    decreases perm5_pending(got), 3nat,
{
    let r = Ok::<(O1, O2, O3, O4, O5), ErrMode<E>>(o);
    if got.2 is Some {
        lemma_perm5_from_3_in_order(ps, got, at, acc, after, o);
    } else {
        if exists|next: I, v: O3| #[trigger]
            stops_with(next, v) && ps.2.parses(at, next, Ok(v)) && perm5_from_0(
                ps,
                (got.0, got.1, Some(v), got.3, got.4),
                next,
                RoundSoFar::fresh(),
                after,
                r,
            ) {
            let (next, v): (I, O3) = choose|next: I, v: O3| #[trigger]
                stops_with(next, v) && ps.2.parses(at, next, Ok(v)) && perm5_from_0(
                    ps,
                    (got.0, got.1, Some(v), got.3, got.4),
                    next,
                    RoundSoFar::fresh(),
                    after,
                    r,
                );
            let then = (got.0, got.1, Some(v), got.3, got.4);
            lemma_perm5_from_0_in_order(ps, then, next, RoundSoFar::fresh(), after, o);
            assert(stops_with(at, next));
        } else {
            let (stop, soft): (I, ErrMode<E>) = choose|stop: I, soft: ErrMode<E>|
                #[trigger]
                stops_with(stop, soft) && !(soft is Cut) && ps.2.parses(at, stop, Err(soft))
                    && perm5_from_3(ps, got, at, acc.note(soft), after, r);
            lemma_perm5_from_3_in_order(ps, got, at, acc.note(soft), after, o);
        }
    }
}

/// Where a permutation of 5 parsers succeeds, seen from parser 3 of a round
/// on, its outputs are in the order of the list.
pub proof fn lemma_perm5_from_3_in_order<I, O1, O2, O3, O4, O5, E, A1, A2, A3, A4, A5>(
    ps: (A1, A2, A3, A4, A5),
    got: (Option<O1>, Option<O2>, Option<O3>, Option<O4>, Option<O5>),
    at: I,
    acc: RoundSoFar<E>,
    after: I,
    o: (O1, O2, O3, O4, O5),
) where
    I: Stream,
    E: ParseError<I>,
    A1: Parser<I, O1, E>,
    A2: Parser<I, O2, E>,
    A3: Parser<I, O3, E>,
    A4: Parser<I, O4, E>,
    A5: Parser<I, O5, E>,

    requires
        perm5_from_3(ps, got, at, acc, after, Ok(o)),
    ensures
        perm5_in_order(ps, got, o),
    decreases perm5_pending(got), 2nat,
{
    let r = Ok::<(O1, O2, O3, O4, O5), ErrMode<E>>(o);
    if got.3 is Some {
        lemma_perm5_from_4_in_order(ps, got, at, acc, after, o);
    } else {
        if exists|next: I, v: O4| #[trigger]
            stops_with(next, v) && ps.3.parses(at, next, Ok(v)) && perm5_from_0(
                ps,
                (got.0, got.1, got.2, Some(v), got.4),
                next,
                RoundSoFar::fresh(),
                after,
                r,
            ) {
            let (next, v): (I, O4) = choose|next: I, v: O4| #[trigger]
                stops_with(next, v) && ps.3.parses(at, next, Ok(v)) && perm5_from_0(
                    ps,
                    (got.0, got.1, got.2, Some(v), got.4),
                    next,
                    RoundSoFar::fresh(),
                    after,
                    r,
                );
            let then = (got.0, got.1, got.2, Some(v), got.4);
            lemma_perm5_from_0_in_order(ps, then, next, RoundSoFar::fresh(), after, o);
            assert(stops_with(at, next));
        } else {
            let (stop, soft): (I, ErrMode<E>) = choose|stop: I, soft: ErrMode<E>|
                #[trigger]
                stops_with(stop, soft) && !(soft is Cut) && ps.3.parses(at, stop, Err(soft))
                    && perm5_from_4(ps, got, at, acc.note(soft), after, r);
            lemma_perm5_from_4_in_order(ps, got, at, acc.note(soft), after, o);
        }
    }
}

/// Where a permutation of 5 parsers succeeds, seen from parser 4 of a round
/// on, its outputs are in the order of the list.
pub proof fn lemma_perm5_from_4_in_order<I, O1, O2, O3, O4, O5, E, A1, A2, A3, A4, A5>(
    ps: (A1, A2, A3, A4, A5),
    got: (Option<O1>, Option<O2>, Option<O3>, Option<O4>, Option<O5>),
    at: I,
    acc: RoundSoFar<E>,
    after: I,
    o: (O1, O2, O3, O4, O5),
) where
    I: Stream,
    E: ParseError<I>,
    A1: Parser<I, O1, E>,
    A2: Parser<I, O2, E>,
    A3: Parser<I, O3, E>,
    A4: Parser<I, O4, E>,
    A5: Parser<I, O5, E>,

    requires
        perm5_from_4(ps, got, at, acc, after, Ok(o)),
    ensures
        perm5_in_order(ps, got, o),
    decreases perm5_pending(got), 1nat,
{
    let r = Ok::<(O1, O2, O3, O4, O5), ErrMode<E>>(o);
    if got.4 is Some {
        lemma_perm5_end_in_order(ps, got, at, acc, after, o);
    } else {
        if exists|next: I, v: O5| #[trigger]
            stops_with(next, v) && ps.4.parses(at, next, Ok(v)) && perm5_from_0(
                ps,
                (got.0, got.1, got.2, got.3, Some(v)),
                next,
                RoundSoFar::fresh(),
                after,
                r,
            ) {
            let (next, v): (I, O5) = choose|next: I, v: O5| #[trigger]
                stops_with(next, v) && ps.4.parses(at, next, Ok(v)) && perm5_from_0(
                    ps,
                    (got.0, got.1, got.2, got.3, Some(v)),
                    next,
                    RoundSoFar::fresh(),
                    after,
                    r,
                );
            let then = (got.0, got.1, got.2, got.3, Some(v));
            lemma_perm5_from_0_in_order(ps, then, next, RoundSoFar::fresh(), after, o);
            assert(stops_with(at, next));
        } else {
            let (stop, soft): (I, ErrMode<E>) = choose|stop: I, soft: ErrMode<E>|
                #[trigger]
                stops_with(stop, soft) && !(soft is Cut) && ps.4.parses(at, stop, Err(soft))
                    && perm5_end(ps, got, at, acc.note(soft), after, r);
            lemma_perm5_end_in_order(ps, got, at, acc.note(soft), after, o);
        }
    }
}

/// Where a permutation of 5 parsers succeeds at the end of a round, its
/// outputs are in the order of the list.
pub proof fn lemma_perm5_end_in_order<I, O1, O2, O3, O4, O5, E, A1, A2, A3, A4, A5>(
    ps: (A1, A2, A3, A4, A5),
    got: (Option<O1>, Option<O2>, Option<O3>, Option<O4>, Option<O5>),
    at: I,
    acc: RoundSoFar<E>,
    after: I,
    o: (O1, O2, O3, O4, O5),
) where
    I: Stream,
    E: ParseError<I>,
    A1: Parser<I, O1, E>,
    A2: Parser<I, O2, E>,
    A3: Parser<I, O3, E>,
    A4: Parser<I, O4, E>,
    A5: Parser<I, O5, E>,

    requires
        perm5_end(ps, got, at, acc, after, Ok(o)),
    ensures
        perm5_in_order(ps, got, o),
    decreases perm5_pending(got), 0nat,
{
}

/// A permutation of 5 parsers yields its outputs in the order of the list,
/// whatever the order in which the parsers matched: each output is one that
/// the parser at its place in the list may yield.
pub proof fn lemma_perm5_outputs_in_order<I, O1, O2, O3, O4, O5, E, A1, A2, A3, A4, A5>(
    ps: (A1, A2, A3, A4, A5),
    before: I,
    after: I,
    o: (O1, O2, O3, O4, O5),
) where
    I: Stream,
    E: ParseError<I>,
    A1: Parser<I, O1, E>,
    A2: Parser<I, O2, E>,
    A3: Parser<I, O3, E>,
    A4: Parser<I, O4, E>,
    A5: Parser<I, O5, E>,

    requires
        Permuted::of(ps).parses(before, after, Ok(o)),
    ensures
        exists|c: I, d: I| #[trigger] stops_with(c, d) && ps.0.parses(c, d, Ok(o.0)),
        exists|c: I, d: I| #[trigger] stops_with(c, d) && ps.1.parses(c, d, Ok(o.1)),
        exists|c: I, d: I| #[trigger] stops_with(c, d) && ps.2.parses(c, d, Ok(o.2)),
        exists|c: I, d: I| #[trigger] stops_with(c, d) && ps.3.parses(c, d, Ok(o.3)),
        exists|c: I, d: I| #[trigger] stops_with(c, d) && ps.4.parses(c, d, Ok(o.4)),
{
    let none = (None::<O1>, None::<O2>, None::<O3>, None::<O4>, None::<O5>);
    lemma_perm5_from_0_in_order(ps, none, before, RoundSoFar::fresh(), after, o);
}

/// A permutation of 5 parsers that have all matched yields their outputs, in
/// the order of the list, and leaves the cursor where it is.
pub proof fn lemma_perm5_done<I, O1, O2, O3, O4, O5, E, A1, A2, A3, A4, A5>(
    ps: (A1, A2, A3, A4, A5),
    at: I,
    o: (O1, O2, O3, O4, O5),
) where
    I: Stream,
    E: ParseError<I>,
    A1: Parser<I, O1, E>,
    A2: Parser<I, O2, E>,
    A3: Parser<I, O3, E>,
    A4: Parser<I, O4, E>,
    A5: Parser<I, O5, E>,

    ensures
        perm5_from_0(
            ps,
            (Some(o.0), Some(o.1), Some(o.2), Some(o.3), Some(o.4)),
            at,
            RoundSoFar::fresh(),
            at,
            Ok(o),
        ),
{
    let all = (Some(o.0), Some(o.1), Some(o.2), Some(o.3), Some(o.4));
    let r = Ok::<(O1, O2, O3, O4, O5), ErrMode<E>>(o);
    let fresh = RoundSoFar::<E>::fresh();
    assert(perm5_end(ps, all, at, fresh, at, r));
    assert(perm5_from_4(ps, all, at, fresh, at, r));
    assert(perm5_from_3(ps, all, at, fresh, at, r));
    assert(perm5_from_2(ps, all, at, fresh, at, r));
    assert(perm5_from_1(ps, all, at, fresh, at, r));
    assert(perm5_from_0(ps, all, at, fresh, at, r));
}

/// One round of a permutation of 5 parsers in which parser 0 matches: where
/// every parser before it in the list that has not matched yet fails softly
/// at the start of the round, and it succeeds there, the permutation goes on
/// with its output kept, from where it stopped.
pub proof fn lemma_perm5_round_0<I, O1, O2, O3, O4, O5, E, A1, A2, A3, A4, A5>(
    ps: (A1, A2, A3, A4, A5),
    got: (Option<O1>, Option<O2>, Option<O3>, Option<O4>, Option<O5>),
    at: I,
    next: I,
    v: O1,
    after: I,
    r: PResult<(O1, O2, O3, O4, O5), E>,
) where
    I: Stream,
    E: ParseError<I>,
    A1: Parser<I, O1, E>,
    A2: Parser<I, O2, E>,
    A3: Parser<I, O3, E>,
    A4: Parser<I, O4, E>,
    A5: Parser<I, O5, E>,

    requires
        got.0 is None,
        ps.0.parses(at, next, Ok(v)),
        perm5_from_0(
            ps,
            (Some(v), got.1, got.2, got.3, got.4),
            next,
            RoundSoFar::fresh(),
            after,
            r,
        ),
    ensures
        perm5_from_0(ps, got, at, RoundSoFar::fresh(), after, r),
{
    let acc0 = RoundSoFar::<E>::fresh();
    assert(stops_with(next, v));
    assert(perm5_from_0(ps, got, at, acc0, after, r));
}

/// One round of a permutation of 5 parsers in which parser 1 matches: where
/// every parser before it in the list that has not matched yet fails softly
/// at the start of the round, and it succeeds there, the permutation goes on
/// with its output kept, from where it stopped.
pub proof fn lemma_perm5_round_1<I, O1, O2, O3, O4, O5, E, A1, A2, A3, A4, A5>(
    ps: (A1, A2, A3, A4, A5),
    got: (Option<O1>, Option<O2>, Option<O3>, Option<O4>, Option<O5>),
    at: I,
    next: I,
    v: O2,
    after: I,
    r: PResult<(O1, O2, O3, O4, O5), E>,
) where
    I: Stream,
    E: ParseError<I>,
    A1: Parser<I, O1, E>,
    A2: Parser<I, O2, E>,
    A3: Parser<I, O3, E>,
    A4: Parser<I, O4, E>,
    A5: Parser<I, O5, E>,

    requires
        got.0 is None ==> fails_softly(ps.0, at),
        got.1 is None,
        ps.1.parses(at, next, Ok(v)),
        perm5_from_0(
            ps,
            (got.0, Some(v), got.2, got.3, got.4),
            next,
            RoundSoFar::fresh(),
            after,
            r,
        ),
    ensures
        perm5_from_0(ps, got, at, RoundSoFar::fresh(), after, r),
{
    let acc0 = RoundSoFar::<E>::fresh();
    let (stop0, soft0): (I, ErrMode<E>) = choose|stop: I, soft: ErrMode<E>| #[trigger]
        stops_with(stop, soft) && !(soft is Cut) && ps.0.parses(at, stop, Err(soft));
    let acc1 = if got.0 is None {
        acc0.note(soft0)
    } else {
        acc0
    };
    assert(stops_with(next, v));
    assert(perm5_from_1(ps, got, at, acc1, after, r));
    assert(stops_with(stop0, soft0));
    assert(perm5_from_0(ps, got, at, acc0, after, r));
}

/// One round of a permutation of 5 parsers in which parser 2 matches: where
/// every parser before it in the list that has not matched yet fails softly
/// at the start of the round, and it succeeds there, the permutation goes on
/// with its output kept, from where it stopped.
pub proof fn lemma_perm5_round_2<I, O1, O2, O3, O4, O5, E, A1, A2, A3, A4, A5>(
    ps: (A1, A2, A3, A4, A5),
    got: (Option<O1>, Option<O2>, Option<O3>, Option<O4>, Option<O5>),
    at: I,
    next: I,
    v: O3,
    after: I,
    r: PResult<(O1, O2, O3, O4, O5), E>,
) where
    I: Stream,
    E: ParseError<I>,
    A1: Parser<I, O1, E>,
    A2: Parser<I, O2, E>,
    A3: Parser<I, O3, E>,
    A4: Parser<I, O4, E>,
    A5: Parser<I, O5, E>,

    requires
        got.0 is None ==> fails_softly(ps.0, at),
        got.1 is None ==> fails_softly(ps.1, at),
        got.2 is None,
        ps.2.parses(at, next, Ok(v)),
        perm5_from_0(
            ps,
            (got.0, got.1, Some(v), got.3, got.4),
            next,
            RoundSoFar::fresh(),
            after,
            r,
        ),
    ensures
        perm5_from_0(ps, got, at, RoundSoFar::fresh(), after, r),
{
    let acc0 = RoundSoFar::<E>::fresh();
    let (stop0, soft0): (I, ErrMode<E>) = choose|stop: I, soft: ErrMode<E>| #[trigger]
        stops_with(stop, soft) && !(soft is Cut) && ps.0.parses(at, stop, Err(soft));
    let acc1 = if got.0 is None {
        acc0.note(soft0)
    } else {
        acc0
    };
    let (stop1, soft1): (I, ErrMode<E>) = choose|stop: I, soft: ErrMode<E>| #[trigger]
        stops_with(stop, soft) && !(soft is Cut) && ps.1.parses(at, stop, Err(soft));
    let acc2 = if got.1 is None {
        acc1.note(soft1)
    } else {
        acc1
    };
    assert(stops_with(next, v));
    assert(perm5_from_2(ps, got, at, acc2, after, r));
    assert(stops_with(stop1, soft1));
    assert(perm5_from_1(ps, got, at, acc1, after, r));
    assert(stops_with(stop0, soft0));
    assert(perm5_from_0(ps, got, at, acc0, after, r));
}

/// One round of a permutation of 5 parsers in which parser 3 matches: where
/// every parser before it in the list that has not matched yet fails softly
/// at the start of the round, and it succeeds there, the permutation goes on
/// with its output kept, from where it stopped.
pub proof fn lemma_perm5_round_3<I, O1, O2, O3, O4, O5, E, A1, A2, A3, A4, A5>(
    ps: (A1, A2, A3, A4, A5),
    got: (Option<O1>, Option<O2>, Option<O3>, Option<O4>, Option<O5>),
    at: I,
    next: I,
    v: O4,
    after: I,
    r: PResult<(O1, O2, O3, O4, O5), E>,
) where
    I: Stream,
    E: ParseError<I>,
    A1: Parser<I, O1, E>,
    A2: Parser<I, O2, E>,
    A3: Parser<I, O3, E>,
    A4: Parser<I, O4, E>,
    A5: Parser<I, O5, E>,

    requires
        got.0 is None ==> fails_softly(ps.0, at),
        got.1 is None ==> fails_softly(ps.1, at),
        got.2 is None ==> fails_softly(ps.2, at),
        got.3 is None,
        ps.3.parses(at, next, Ok(v)),
        perm5_from_0(
            ps,
            (got.0, got.1, got.2, Some(v), got.4),
            next,
            RoundSoFar::fresh(),
            after,
            r,
        ),
    ensures
        perm5_from_0(ps, got, at, RoundSoFar::fresh(), after, r),
{
    let acc0 = RoundSoFar::<E>::fresh();
    let (stop0, soft0): (I, ErrMode<E>) = choose|stop: I, soft: ErrMode<E>| #[trigger]
        stops_with(stop, soft) && !(soft is Cut) && ps.0.parses(at, stop, Err(soft));
    let acc1 = if got.0 is None {
        acc0.note(soft0)
    } else {
        acc0
    };
    let (stop1, soft1): (I, ErrMode<E>) = choose|stop: I, soft: ErrMode<E>| #[trigger]
        stops_with(stop, soft) && !(soft is Cut) && ps.1.parses(at, stop, Err(soft));
    let acc2 = if got.1 is None {
        acc1.note(soft1)
    } else {
        acc1
    };
    let (stop2, soft2): (I, ErrMode<E>) = choose|stop: I, soft: ErrMode<E>| #[trigger]
        stops_with(stop, soft) && !(soft is Cut) && ps.2.parses(at, stop, Err(soft));
    let acc3 = if got.2 is None {
        acc2.note(soft2)
    } else {
        acc2
    };
    assert(stops_with(next, v));
    assert(perm5_from_3(ps, got, at, acc3, after, r));
    assert(stops_with(stop2, soft2));
    assert(perm5_from_2(ps, got, at, acc2, after, r));
    assert(stops_with(stop1, soft1));
    assert(perm5_from_1(ps, got, at, acc1, after, r));
    assert(stops_with(stop0, soft0));
    assert(perm5_from_0(ps, got, at, acc0, after, r));
}

/// One round of a permutation of 5 parsers in which parser 4 matches: where
/// every parser before it in the list that has not matched yet fails softly
/// at the start of the round, and it succeeds there, the permutation goes on
/// with its output kept, from where it stopped.
pub proof fn lemma_perm5_round_4<I, O1, O2, O3, O4, O5, E, A1, A2, A3, A4, A5>(
    ps: (A1, A2, A3, A4, A5),
    got: (Option<O1>, Option<O2>, Option<O3>, Option<O4>, Option<O5>),
    at: I,
    next: I,
    v: O5,
    after: I,
    r: PResult<(O1, O2, O3, O4, O5), E>,
) where
    I: Stream,
    E: ParseError<I>,
    A1: Parser<I, O1, E>,
    A2: Parser<I, O2, E>,
    A3: Parser<I, O3, E>,
    A4: Parser<I, O4, E>,
    A5: Parser<I, O5, E>,

    requires
        got.0 is None ==> fails_softly(ps.0, at),
        got.1 is None ==> fails_softly(ps.1, at),
        got.2 is None ==> fails_softly(ps.2, at),
        got.3 is None ==> fails_softly(ps.3, at),
        got.4 is None,
        ps.4.parses(at, next, Ok(v)),
        perm5_from_0(
            ps,
            (got.0, got.1, got.2, got.3, Some(v)),
            next,
            RoundSoFar::fresh(),
            after,
            r,
        ),
    ensures
        perm5_from_0(ps, got, at, RoundSoFar::fresh(), after, r),
{
    let acc0 = RoundSoFar::<E>::fresh();
    let (stop0, soft0): (I, ErrMode<E>) = choose|stop: I, soft: ErrMode<E>| #[trigger]
        stops_with(stop, soft) && !(soft is Cut) && ps.0.parses(at, stop, Err(soft));
    let acc1 = if got.0 is None {
        acc0.note(soft0)
    } else {
        acc0
    };
    let (stop1, soft1): (I, ErrMode<E>) = choose|stop: I, soft: ErrMode<E>| #[trigger]
        stops_with(stop, soft) && !(soft is Cut) && ps.1.parses(at, stop, Err(soft));
    let acc2 = if got.1 is None {
        acc1.note(soft1)
    } else {
        acc1
    };
    let (stop2, soft2): (I, ErrMode<E>) = choose|stop: I, soft: ErrMode<E>| #[trigger]
        stops_with(stop, soft) && !(soft is Cut) && ps.2.parses(at, stop, Err(soft));
    let acc3 = if got.2 is None {
        acc2.note(soft2)
    } else {
        acc2
    };
    let (stop3, soft3): (I, ErrMode<E>) = choose|stop: I, soft: ErrMode<E>| #[trigger]
        stops_with(stop, soft) && !(soft is Cut) && ps.3.parses(at, stop, Err(soft));
    let acc4 = if got.3 is None {
        acc3.note(soft3)
    } else {
        acc3
    };
    assert(stops_with(next, v));
    assert(perm5_from_4(ps, got, at, acc4, after, r));
    assert(stops_with(stop3, soft3));
    assert(perm5_from_3(ps, got, at, acc3, after, r));
    assert(stops_with(stop2, soft2));
    assert(perm5_from_2(ps, got, at, acc2, after, r));
    assert(stops_with(stop1, soft1));
    assert(perm5_from_1(ps, got, at, acc1, after, r));
    assert(stops_with(stop0, soft0));
    assert(perm5_from_0(ps, got, at, acc0, after, r));
}

/// One round of a permutation of 5 parsers in which no parser matches: where
/// every parser that has not matched yet fails recoverably at the start of
/// the round, wherever it left the cursor, the permutation fails recoverably
/// with the cursor at the start of the round, and its error is that of the
/// last such parser under a frame at the start of the round.
pub proof fn lemma_perm5_round_fails<I, O1, O2, O3, O4, O5, E, A1, A2, A3, A4, A5>(
    ps: (A1, A2, A3, A4, A5),
    got: (Option<O1>, Option<O2>, Option<O3>, Option<O4>, Option<O5>),
    at: I,
    stops: (I, I, I, I, I),
    errors: (E, E, E, E, E),
    e: E,
) where
    I: Stream,
    E: ParseError<I>,
    A1: Parser<I, O1, E>,
    A2: Parser<I, O2, E>,
    A3: Parser<I, O3, E>,
    A4: Parser<I, O4, E>,
    A5: Parser<I, O5, E>,

    requires
        got.0 is None ==> ps.0.parses(at, stops.0, Err(ErrMode::Backtrack(errors.0))),
        got.1 is None ==> ps.1.parses(at, stops.1, Err(ErrMode::Backtrack(errors.1))),
        got.2 is None ==> ps.2.parses(at, stops.2, Err(ErrMode::Backtrack(errors.2))),
        got.3 is None ==> ps.3.parses(at, stops.3, Err(ErrMode::Backtrack(errors.3))),
        got.4 is None ==> ps.4.parses(at, stops.4, Err(ErrMode::Backtrack(errors.4))),
        ({
            ||| got.0 is None
            ||| got.1 is None
            ||| got.2 is None
            ||| got.3 is None
            ||| got.4 is None
        }),
        ({
            let last_0 = errors.0;
            let last_1 = if got.1 is None {
                errors.1
            } else {
                last_0
            };
            let last_2 = if got.2 is None {
                errors.2
            } else {
                last_1
            };
            let last_3 = if got.3 is None {
                errors.3
            } else {
                last_2
            };
            let last_4 = if got.4 is None {
                errors.4
            } else {
                last_3
            };
            e.appended_to(last_4, at, ErrorKind::Permutation)
        }),
    ensures
        perm5_from_0(ps, got, at, RoundSoFar::fresh(), at, Err(ErrMode::Backtrack(e))),
{
    let r = Err::<(O1, O2, O3, O4, O5), ErrMode<E>>(ErrMode::Backtrack(e));
    let acc0 = RoundSoFar::<E>::fresh();
    let soft0 = ErrMode::Backtrack(errors.0);
    let acc1 = if got.0 is None {
        acc0.note(soft0)
    } else {
        acc0
    };
    let soft1 = ErrMode::Backtrack(errors.1);
    let acc2 = if got.1 is None {
        acc1.note(soft1)
    } else {
        acc1
    };
    let soft2 = ErrMode::Backtrack(errors.2);
    let acc3 = if got.2 is None {
        acc2.note(soft2)
    } else {
        acc2
    };
    let soft3 = ErrMode::Backtrack(errors.3);
    let acc4 = if got.3 is None {
        acc3.note(soft3)
    } else {
        acc3
    };
    let soft4 = ErrMode::Backtrack(errors.4);
    let acc5 = if got.4 is None {
        acc4.note(soft4)
    } else {
        acc4
    };
    assert(perm5_end(ps, got, at, acc5, at, r));
    assert(stops_with(stops.4, soft4));
    assert(perm5_from_4(ps, got, at, acc4, at, r));
    assert(stops_with(stops.3, soft3));
    assert(perm5_from_3(ps, got, at, acc3, at, r));
    assert(stops_with(stops.2, soft2));
    assert(perm5_from_2(ps, got, at, acc2, at, r));
    assert(stops_with(stops.1, soft1));
    assert(perm5_from_1(ps, got, at, acc1, at, r));
    assert(stops_with(stops.0, soft0));
    assert(perm5_from_0(ps, got, at, acc0, at, r));
}

/// The outputs `o` of a permutation of 6 parsers are in the order of the
/// list: each is the output kept in `got` for its parser, or, where none is
/// kept, an output that its parser may yield somewhere.
pub open spec fn perm6_in_order<I, O1, O2, O3, O4, O5, O6, E, A1, A2, A3, A4, A5, A6>(
    ps: (A1, A2, A3, A4, A5, A6),
    got: (Option<O1>, Option<O2>, Option<O3>, Option<O4>, Option<O5>, Option<O6>),
    o: (O1, O2, O3, O4, O5, O6),
) -> bool where
    I: Stream,
    E: ParseError<I>,
    A1: Parser<I, O1, E>,
    A2: Parser<I, O2, E>,
    A3: Parser<I, O3, E>,
    A4: Parser<I, O4, E>,
    A5: Parser<I, O5, E>,
    A6: Parser<I, O6, E>,
{
    &&& match got.0 {
        Some(kept) => o.0 == kept,
        None => exists|c: I, d: I| #[trigger]
            stops_with(c, d) && ps.0.parses(c, d, Ok(o.0)),
    }
    &&& match got.1 {
        Some(kept) => o.1 == kept,
        None => exists|c: I, d: I| #[trigger]
            stops_with(c, d) && ps.1.parses(c, d, Ok(o.1)),
    }
    &&& match got.2 {
        Some(kept) => o.2 == kept,
        None => exists|c: I, d: I| #[trigger]
            stops_with(c, d) && ps.2.parses(c, d, Ok(o.2)),
    }
    &&& match got.3 {
        Some(kept) => o.3 == kept,
        None => exists|c: I, d: I| #[trigger]
            stops_with(c, d) && ps.3.parses(c, d, Ok(o.3)),
    }
    &&& match got.4 {
        Some(kept) => o.4 == kept,
        None => exists|c: I, d: I| #[trigger]
            stops_with(c, d) && ps.4.parses(c, d, Ok(o.4)),
    }
    &&& match got.5 {
        Some(kept) => o.5 == kept,
        None => exists|c: I, d: I| #[trigger]
            stops_with(c, d) && ps.5.parses(c, d, Ok(o.5)),
    }
}

/// Where a permutation of 6 parsers succeeds, seen from parser 0 of a round
/// on, its outputs are in the order of the list.
pub proof fn lemma_perm6_from_0_in_order<I, O1, O2, O3, O4, O5, O6, E, A1, A2, A3, A4, A5, A6>(
    ps: (A1, A2, A3, A4, A5, A6),
    got: (Option<O1>, Option<O2>, Option<O3>, Option<O4>, Option<O5>, Option<O6>),
    at: I,
    acc: RoundSoFar<E>,
    after: I,
    o: (O1, O2, O3, O4, O5, O6),
) where
    I: Stream,
    E: ParseError<I>,
    A1: Parser<I, O1, E>,
    A2: Parser<I, O2, E>,
    A3: Parser<I, O3, E>,
    A4: Parser<I, O4, E>,
    A5: Parser<I, O5, E>,
    A6: Parser<I, O6, E>,

    requires
        perm6_from_0(ps, got, at, acc, after, Ok(o)),
    ensures
        perm6_in_order(ps, got, o),
    decreases perm6_pending(got), 6nat,
{
    let r = Ok::<(O1, O2, O3, O4, O5, O6), ErrMode<E>>(o);
    if got.0 is Some {
        lemma_perm6_from_1_in_order(ps, got, at, acc, after, o);
    } else {
        if exists|next: I, v: O1| #[trigger]
            stops_with(next, v) && ps.0.parses(at, next, Ok(v)) && perm6_from_0(
                ps,
                (Some(v), got.1, got.2, got.3, got.4, got.5),
                next,
                RoundSoFar::fresh(),
                after,
                r,
            ) {
            let (next, v): (I, O1) = choose|next: I, v: O1| #[trigger]
                stops_with(next, v) && ps.0.parses(at, next, Ok(v)) && perm6_from_0(
                    ps,
                    (Some(v), got.1, got.2, got.3, got.4, got.5),
                    next,
                    RoundSoFar::fresh(),
                    after,
                    r,
                );
            let then = (Some(v), got.1, got.2, got.3, got.4, got.5);
            lemma_perm6_from_0_in_order(ps, then, next, RoundSoFar::fresh(), after, o);
            assert(stops_with(at, next));
        } else {
            let (stop, soft): (I, ErrMode<E>) = choose|stop: I, soft: ErrMode<E>|
                #[trigger]
                stops_with(stop, soft) && !(soft is Cut) && ps.0.parses(at, stop, Err(soft))
                    && perm6_from_1(ps, got, at, acc.note(soft), after, r);
            lemma_perm6_from_1_in_order(ps, got, at, acc.note(soft), after, o);
        }
    }
}

/// Where a permutation of 6 parsers succeeds, seen from parser 1 of a round
/// on, its outputs are in the order of the list.
pub proof fn lemma_perm6_from_1_in_order<I, O1, O2, O3, O4, O5, O6, E, A1, A2, A3, A4, A5, A6>(
    ps: (A1, A2, A3, A4, A5, A6),
    got: (Option<O1>, Option<O2>, Option<O3>, Option<O4>, Option<O5>, Option<O6>),
    at: I,
    acc: RoundSoFar<E>,
    after: I,
    o: (O1, O2, O3, O4, O5, O6),
) where
    I: Stream,
    E: ParseError<I>,
    A1: Parser<I, O1, E>,
    A2: Parser<I, O2, E>,
    A3: Parser<I, O3, E>,
    A4: Parser<I, O4, E>,
    A5: Parser<I, O5, E>,
    A6: Parser<I, O6, E>,

    requires
        perm6_from_1(ps, got, at, acc, after, Ok(o)),
    ensures
        perm6_in_order(ps, got, o),
    decreases perm6_pending(got), 5nat,
{
    let r = Ok::<(O1, O2, O3, O4, O5, O6), ErrMode<E>>(o);
    if got.1 is Some {
        lemma_perm6_from_2_in_order(ps, got, at, acc, after, o);
    } else {
        if exists|next: I, v: O2| #[trigger]
            stops_with(next, v) && ps.1.parses(at, next, Ok(v)) && perm6_from_0(
                ps,
                (got.0, Some(v), got.2, got.3, got.4, got.5),
                next,
                RoundSoFar::fresh(),
                after,
                r,
            ) {
            let (next, v): (I, O2) = choose|next: I, v: O2| #[trigger]
                stops_with(next, v) && ps.1.parses(at, next, Ok(v)) && perm6_from_0(
                    ps,
                    (got.0, Some(v), got.2, got.3, got.4, got.5),
                    next,
                    RoundSoFar::fresh(),
                    after,
                    r,
                );
            let then = (got.0, Some(v), got.2, got.3, got.4, got.5);
            lemma_perm6_from_0_in_order(ps, then, next, RoundSoFar::fresh(), after, o);
            assert(stops_with(at, next));
        } else {
            let (stop, soft): (I, ErrMode<E>) = choose|stop: I, soft: ErrMode<E>|
                #[trigger]
                stops_with(stop, soft) && !(soft is Cut) && ps.1.parses(at, stop, Err(soft))
                    && perm6_from_2(ps, got, at, acc.note(soft), after, r);
            lemma_perm6_from_2_in_order(ps, got, at, acc.note(soft), after, o);
        }
    }
}

/// Where a permutation of 6 parsers succeeds, seen from parser 2 of a round
/// on, its outputs are in the order of the list.
pub proof fn lemma_perm6_from_2_in_order<I, O1, O2, O3, O4, O5, O6, E, A1, A2, A3, A4, A5, A6>(
    ps: (A1, A2, A3, A4, A5, A6),
    got: (Option<O1>, Option<O2>, Option<O3>, Option<O4>, Option<O5>, Option<O6>),
    at: I,
    acc: RoundSoFar<E>,
    after: I,
    o: (O1, O2, O3, O4, O5, O6),
) where
    I: Stream,
    E: ParseError<I>,
    A1: Parser<I, O1, E>,
    A2: Parser<I, O2, E>,
    A3: Parser<I, O3, E>,
    A4: Parser<I, O4, E>,
    A5: Parser<I, O5, E>,
    A6: Parser<I, O6, E>,

    requires
        perm6_from_2(ps, got, at, acc, after, Ok(o)),
    ensures
        perm6_in_order(ps, got, o),
    decreases perm6_pending(got), 4nat,
{
    let r = Ok::<(O1, O2, O3, O4, O5, O6), ErrMode<E>>(o);
    if got.2 is Some {
        lemma_perm6_from_3_in_order(ps, got, at, acc, after, o);
    } else {
        if exists|next: I, v: O3| #[trigger]
            stops_with(next, v) && ps.2.parses(at, next, Ok(v)) && perm6_from_0(
                ps,
                (got.0, got.1, Some(v), got.3, got.4, got.5),
                next,
                RoundSoFar::fresh(),
                after,
                r,
            ) {
            let (next, v): (I, O3) = choose|next: I, v: O3| #[trigger]
                stops_with(next, v) && ps.2.parses(at, next, Ok(v)) && perm6_from_0(
                    ps,
                    (got.0, got.1, Some(v), got.3, got.4, got.5),
                    next,
                    RoundSoFar::fresh(),
                    after,
                    r,
                );
            let then = (got.0, got.1, Some(v), got.3, got.4, got.5);
            lemma_perm6_from_0_in_order(ps, then, next, RoundSoFar::fresh(), after, o);
            assert(stops_with(at, next));
        } else {
            let (stop, soft): (I, ErrMode<E>) = choose|stop: I, soft: ErrMode<E>|
                #[trigger]
                stops_with(stop, soft) && !(soft is Cut) && ps.2.parses(at, stop, Err(soft))
                    && perm6_from_3(ps, got, at, acc.note(soft), after, r);
            lemma_perm6_from_3_in_order(ps, got, at, acc.note(soft), after, o);
        }
    }
}

/// Where a permutation of 6 parsers succeeds, seen from parser 3 of a round
/// on, its outputs are in the order of the list.
pub proof fn lemma_perm6_from_3_in_order<I, O1, O2, O3, O4, O5, O6, E, A1, A2, A3, A4, A5, A6>(
    ps: (A1, A2, A3, A4, A5, A6),
    got: (Option<O1>, Option<O2>, Option<O3>, Option<O4>, Option<O5>, Option<O6>),
    at: I,
    acc: RoundSoFar<E>,
    after: I,
    o: (O1, O2, O3, O4, O5, O6),
) where
    I: Stream,
    E: ParseError<I>,
    A1: Parser<I, O1, E>,
    A2: Parser<I, O2, E>,
    A3: Parser<I, O3, E>,
    A4: Parser<I, O4, E>,
    A5: Parser<I, O5, E>,
    A6: Parser<I, O6, E>,

    requires
        perm6_from_3(ps, got, at, acc, after, Ok(o)),
    ensures
        perm6_in_order(ps, got, o),
    decreases perm6_pending(got), 3nat,
{
    let r = Ok::<(O1, O2, O3, O4, O5, O6), ErrMode<E>>(o);
    if got.3 is Some {
        lemma_perm6_from_4_in_order(ps, got, at, acc, after, o);
    } else {
        if exists|next: I, v: O4| #[trigger]
            stops_with(next, v) && ps.3.parses(at, next, Ok(v)) && perm6_from_0(
                ps,
                (got.0, got.1, got.2, Some(v), got.4, got.5),
                next,
                RoundSoFar::fresh(),
                after,
                r,
            ) {
            let (next, v): (I, O4) = choose|next: I, v: O4| #[trigger]
                stops_with(next, v) && ps.3.parses(at, next, Ok(v)) && perm6_from_0(
                    ps,
                    (got.0, got.1, got.2, Some(v), got.4, got.5),
                    next,
                    RoundSoFar::fresh(),
                    after,
                    r,
                );
            let then = (got.0, got.1, got.2, Some(v), got.4, got.5);
            lemma_perm6_from_0_in_order(ps, then, next, RoundSoFar::fresh(), after, o);
            assert(stops_with(at, next));
        } else {
            let (stop, soft): (I, ErrMode<E>) = choose|stop: I, soft: ErrMode<E>|
                #[trigger]
                stops_with(stop, soft) && !(soft is Cut) && ps.3.parses(at, stop, Err(soft))
                    && perm6_from_4(ps, got, at, acc.note(soft), after, r);
            lemma_perm6_from_4_in_order(ps, got, at, acc.note(soft), after, o);
        }
    }
}

/// Where a permutation of 6 parsers succeeds, seen from parser 4 of a round
/// on, its outputs are in the order of the list.
pub proof fn lemma_perm6_from_4_in_order<I, O1, O2, O3, O4, O5, O6, E, A1, A2, A3, A4, A5, A6>(
    ps: (A1, A2, A3, A4, A5, A6),
    got: (Option<O1>, Option<O2>, Option<O3>, Option<O4>, Option<O5>, Option<O6>),
    at: I,
    acc: RoundSoFar<E>,
    after: I,
    o: (O1, O2, O3, O4, O5, O6),
) where
    I: Stream,
    E: ParseError<I>,
    A1: Parser<I, O1, E>,
    A2: Parser<I, O2, E>,
    A3: Parser<I, O3, E>,
    A4: Parser<I, O4, E>,
    A5: Parser<I, O5, E>,
    A6: Parser<I, O6, E>,

    requires
        perm6_from_4(ps, got, at, acc, after, Ok(o)),
    ensures
        perm6_in_order(ps, got, o),
    decreases perm6_pending(got), 2nat,
{
    let r = Ok::<(O1, O2, O3, O4, O5, O6), ErrMode<E>>(o);
    if got.4 is Some {
        lemma_perm6_from_5_in_order(ps, got, at, acc, after, o);
    } else {
        if exists|next: I, v: O5| #[trigger]
            stops_with(next, v) && ps.4.parses(at, next, Ok(v)) && perm6_from_0(
                ps,
                (got.0, got.1, got.2, got.3, Some(v), got.5),
                next,
                RoundSoFar::fresh(),
                after,
                r,
            ) {
            let (next, v): (I, O5) = choose|next: I, v: O5| #[trigger]
                stops_with(next, v) && ps.4.parses(at, next, Ok(v)) && perm6_from_0(
                    ps,
                    (got.0, got.1, got.2, got.3, Some(v), got.5),
                    next,
                    RoundSoFar::fresh(),
                    after,
                    r,
                );
            let then = (got.0, got.1, got.2, got.3, Some(v), got.5);
            lemma_perm6_from_0_in_order(ps, then, next, RoundSoFar::fresh(), after, o);
            assert(stops_with(at, next));
        } else {
            let (stop, soft): (I, ErrMode<E>) = choose|stop: I, soft: ErrMode<E>|
                #[trigger]
                stops_with(stop, soft) && !(soft is Cut) && ps.4.parses(at, stop, Err(soft))
                    && perm6_from_5(ps, got, at, acc.note(soft), after, r);
            lemma_perm6_from_5_in_order(ps, got, at, acc.note(soft), after, o);
        }
    }
}

/// Where a permutation of 6 parsers succeeds, seen from parser 5 of a round
/// on, its outputs are in the order of the list.
pub proof fn lemma_perm6_from_5_in_order<I, O1, O2, O3, O4, O5, O6, E, A1, A2, A3, A4, A5, A6>(
    ps: (A1, A2, A3, A4, A5, A6),
    got: (Option<O1>, Option<O2>, Option<O3>, Option<O4>, Option<O5>, Option<O6>),
    at: I,
    acc: RoundSoFar<E>,
    after: I,
    o: (O1, O2, O3, O4, O5, O6),
) where
    I: Stream,
    E: ParseError<I>,
    A1: Parser<I, O1, E>,
    A2: Parser<I, O2, E>,
    A3: Parser<I, O3, E>,
    A4: Parser<I, O4, E>,
    A5: Parser<I, O5, E>,
    A6: Parser<I, O6, E>,

    requires
        perm6_from_5(ps, got, at, acc, after, Ok(o)),
    ensures
        perm6_in_order(ps, got, o),
    decreases perm6_pending(got), 1nat,
{
    let r = Ok::<(O1, O2, O3, O4, O5, O6), ErrMode<E>>(o);
    if got.5 is Some {
        lemma_perm6_end_in_order(ps, got, at, acc, after, o);
    } else {
        if exists|next: I, v: O6| #[trigger]
            stops_with(next, v) && ps.5.parses(at, next, Ok(v)) && perm6_from_0(
                ps,
                (got.0, got.1, got.2, got.3, got.4, Some(v)),
                next,
                RoundSoFar::fresh(),
                after,
                r,
            ) {
            let (next, v): (I, O6) = choose|next: I, v: O6| #[trigger]
                stops_with(next, v) && ps.5.parses(at, next, Ok(v)) && perm6_from_0(
                    ps,
                    (got.0, got.1, got.2, got.3, got.4, Some(v)),
                    next,
                    RoundSoFar::fresh(),
                    after,
                    r,
                );
            let then = (got.0, got.1, got.2, got.3, got.4, Some(v));
            lemma_perm6_from_0_in_order(ps, then, next, RoundSoFar::fresh(), after, o);
            assert(stops_with(at, next));
        } else {
            let (stop, soft): (I, ErrMode<E>) = choose|stop: I, soft: ErrMode<E>|
                #[trigger]
                stops_with(stop, soft) && !(soft is Cut) && ps.5.parses(at, stop, Err(soft))
                    && perm6_end(ps, got, at, acc.note(soft), after, r);
            lemma_perm6_end_in_order(ps, got, at, acc.note(soft), after, o);
        }
    }
}

/// Where a permutation of 6 parsers succeeds at the end of a round, its
/// outputs are in the order of the list.
pub proof fn lemma_perm6_end_in_order<I, O1, O2, O3, O4, O5, O6, E, A1, A2, A3, A4, A5, A6>(
    ps: (A1, A2, A3, A4, A5, A6),
    got: (Option<O1>, Option<O2>, Option<O3>, Option<O4>, Option<O5>, Option<O6>),
    at: I,
    acc: RoundSoFar<E>,
    after: I,
    o: (O1, O2, O3, O4, O5, O6),
) where
    I: Stream,
    E: ParseError<I>,
    A1: Parser<I, O1, E>,
    A2: Parser<I, O2, E>,
    A3: Parser<I, O3, E>,
    A4: Parser<I, O4, E>,
    A5: Parser<I, O5, E>,
    A6: Parser<I, O6, E>,

    requires
        perm6_end(ps, got, at, acc, after, Ok(o)),
    ensures
        perm6_in_order(ps, got, o),
    decreases perm6_pending(got), 0nat,
{
}

/// A permutation of 6 parsers yields its outputs in the order of the list,
/// whatever the order in which the parsers matched: each output is one that
/// the parser at its place in the list may yield.
pub proof fn lemma_perm6_outputs_in_order<I, O1, O2, O3, O4, O5, O6, E, A1, A2, A3, A4, A5, A6>(
    ps: (A1, A2, A3, A4, A5, A6),
    before: I,
    after: I,
    o: (O1, O2, O3, O4, O5, O6),
) where
    I: Stream,
    E: ParseError<I>,
    A1: Parser<I, O1, E>,
    A2: Parser<I, O2, E>,
    A3: Parser<I, O3, E>,
    A4: Parser<I, O4, E>,
    A5: Parser<I, O5, E>,
    A6: Parser<I, O6, E>,

    requires
        Permuted::of(ps).parses(before, after, Ok(o)),
    ensures
        exists|c: I, d: I| #[trigger] stops_with(c, d) && ps.0.parses(c, d, Ok(o.0)),
        exists|c: I, d: I| #[trigger] stops_with(c, d) && ps.1.parses(c, d, Ok(o.1)),
        exists|c: I, d: I| #[trigger] stops_with(c, d) && ps.2.parses(c, d, Ok(o.2)),
        exists|c: I, d: I| #[trigger] stops_with(c, d) && ps.3.parses(c, d, Ok(o.3)),
        exists|c: I, d: I| #[trigger] stops_with(c, d) && ps.4.parses(c, d, Ok(o.4)),
        exists|c: I, d: I| #[trigger] stops_with(c, d) && ps.5.parses(c, d, Ok(o.5)),
{
    let none = (None::<O1>, None::<O2>, None::<O3>, None::<O4>, None::<O5>, None::<O6>);
    lemma_perm6_from_0_in_order(ps, none, before, RoundSoFar::fresh(), after, o);
}

/// A permutation of 6 parsers that have all matched yields their outputs, in
/// the order of the list, and leaves the cursor where it is.
pub proof fn lemma_perm6_done<I, O1, O2, O3, O4, O5, O6, E, A1, A2, A3, A4, A5, A6>(
    ps: (A1, A2, A3, A4, A5, A6),
    at: I,
    o: (O1, O2, O3, O4, O5, O6),
) where
    I: Stream,
    E: ParseError<I>,
    A1: Parser<I, O1, E>,
    A2: Parser<I, O2, E>,
    A3: Parser<I, O3, E>,
    A4: Parser<I, O4, E>,
    A5: Parser<I, O5, E>,
    A6: Parser<I, O6, E>,

    ensures
        perm6_from_0(
            ps,
            (Some(o.0), Some(o.1), Some(o.2), Some(o.3), Some(o.4), Some(o.5)),
            at,
            RoundSoFar::fresh(),
            at,
            Ok(o),
        ),
{
    let all = (Some(o.0), Some(o.1), Some(o.2), Some(o.3), Some(o.4), Some(o.5));
    let r = Ok::<(O1, O2, O3, O4, O5, O6), ErrMode<E>>(o);
    let fresh = RoundSoFar::<E>::fresh();
    assert(perm6_end(ps, all, at, fresh, at, r));
    assert(perm6_from_5(ps, all, at, fresh, at, r));
    assert(perm6_from_4(ps, all, at, fresh, at, r));
    assert(perm6_from_3(ps, all, at, fresh, at, r));
    assert(perm6_from_2(ps, all, at, fresh, at, r));
    assert(perm6_from_1(ps, all, at, fresh, at, r));
    assert(perm6_from_0(ps, all, at, fresh, at, r));
}

/// One round of a permutation of 6 parsers in which parser 0 matches: where
/// every parser before it in the list that has not matched yet fails softly
/// at the start of the round, and it succeeds there, the permutation goes on
/// with its output kept, from where it stopped.
pub proof fn lemma_perm6_round_0<I, O1, O2, O3, O4, O5, O6, E, A1, A2, A3, A4, A5, A6>(
    ps: (A1, A2, A3, A4, A5, A6),
    got: (Option<O1>, Option<O2>, Option<O3>, Option<O4>, Option<O5>, Option<O6>),
    at: I,
    next: I,
    v: O1,
    after: I,
    r: PResult<(O1, O2, O3, O4, O5, O6), E>,
) where
    I: Stream,
    E: ParseError<I>,
    A1: Parser<I, O1, E>,
    A2: Parser<I, O2, E>,
    A3: Parser<I, O3, E>,
    A4: Parser<I, O4, E>,
    A5: Parser<I, O5, E>,
    A6: Parser<I, O6, E>,

    requires
        got.0 is None,
        ps.0.parses(at, next, Ok(v)),
        perm6_from_0(
            ps,
            (Some(v), got.1, got.2, got.3, got.4, got.5),
            next,
            RoundSoFar::fresh(),
            after,
            r,
        ),
    ensures
        perm6_from_0(ps, got, at, RoundSoFar::fresh(), after, r),
{
    let acc0 = RoundSoFar::<E>::fresh();
    assert(stops_with(next, v));
    assert(perm6_from_0(ps, got, at, acc0, after, r));
}

/// One round of a permutation of 6 parsers in which parser 1 matches: where
/// every parser before it in the list that has not matched yet fails softly
/// at the start of the round, and it succeeds there, the permutation goes on
/// with its output kept, from where it stopped.
pub proof fn lemma_perm6_round_1<I, O1, O2, O3, O4, O5, O6, E, A1, A2, A3, A4, A5, A6>(
    ps: (A1, A2, A3, A4, A5, A6),
    got: (Option<O1>, Option<O2>, Option<O3>, Option<O4>, Option<O5>, Option<O6>),
    at: I,
    next: I,
    v: O2,
    after: I,
    r: PResult<(O1, O2, O3, O4, O5, O6), E>,
) where
    I: Stream,
    E: ParseError<I>,
    A1: Parser<I, O1, E>,
    A2: Parser<I, O2, E>,
    A3: Parser<I, O3, E>,
    A4: Parser<I, O4, E>,
    A5: Parser<I, O5, E>,
    A6: Parser<I, O6, E>,

    requires
        got.0 is None ==> fails_softly(ps.0, at),
        got.1 is None,
        ps.1.parses(at, next, Ok(v)),
        perm6_from_0(
            ps,
            (got.0, Some(v), got.2, got.3, got.4, got.5),
            next,
            RoundSoFar::fresh(),
            after,
            r,
        ),
    ensures
        perm6_from_0(ps, got, at, RoundSoFar::fresh(), after, r),
{
    let acc0 = RoundSoFar::<E>::fresh();
    let (stop0, soft0): (I, ErrMode<E>) = choose|stop: I, soft: ErrMode<E>| #[trigger]
        stops_with(stop, soft) && !(soft is Cut) && ps.0.parses(at, stop, Err(soft));
    let acc1 = if got.0 is None {
        acc0.note(soft0)
    } else {
        acc0
    };
    assert(stops_with(next, v));
    assert(perm6_from_1(ps, got, at, acc1, after, r));
    assert(stops_with(stop0, soft0));
    assert(perm6_from_0(ps, got, at, acc0, after, r));
}

/// One round of a permutation of 6 parsers in which parser 2 matches: where
/// every parser before it in the list that has not matched yet fails softly
/// at the start of the round, and it succeeds there, the permutation goes on
/// with its output kept, from where it stopped.
pub proof fn lemma_perm6_round_2<I, O1, O2, O3, O4, O5, O6, E, A1, A2, A3, A4, A5, A6>(
    ps: (A1, A2, A3, A4, A5, A6),
    got: (Option<O1>, Option<O2>, Option<O3>, Option<O4>, Option<O5>, Option<O6>),
    at: I,
    next: I,
    v: O3,
    after: I,
    r: PResult<(O1, O2, O3, O4, O5, O6), E>,
) where
    I: Stream,
    E: ParseError<I>,
    A1: Parser<I, O1, E>,
    A2: Parser<I, O2, E>,
    A3: Parser<I, O3, E>,
    A4: Parser<I, O4, E>,
    A5: Parser<I, O5, E>,
    A6: Parser<I, O6, E>,

    requires
        got.0 is None ==> fails_softly(ps.0, at),
        got.1 is None ==> fails_softly(ps.1, at),
        got.2 is None,
        ps.2.parses(at, next, Ok(v)),
        perm6_from_0(
            ps,
            (got.0, got.1, Some(v), got.3, got.4, got.5),
            next,
            RoundSoFar::fresh(),
            after,
            r,
        ),
    ensures
        perm6_from_0(ps, got, at, RoundSoFar::fresh(), after, r),
{
    let acc0 = RoundSoFar::<E>::fresh();
    let (stop0, soft0): (I, ErrMode<E>) = choose|stop: I, soft: ErrMode<E>| #[trigger]
        stops_with(stop, soft) && !(soft is Cut) && ps.0.parses(at, stop, Err(soft));
    let acc1 = if got.0 is None {
        acc0.note(soft0)
    } else {
        acc0
    };
    let (stop1, soft1): (I, ErrMode<E>) = choose|stop: I, soft: ErrMode<E>| #[trigger]
        stops_with(stop, soft) && !(soft is Cut) && ps.1.parses(at, stop, Err(soft));
    let acc2 = if got.1 is None {
        acc1.note(soft1)
    } else {
        acc1
    };
    assert(stops_with(next, v));
    assert(perm6_from_2(ps, got, at, acc2, after, r));
    assert(stops_with(stop1, soft1));
    assert(perm6_from_1(ps, got, at, acc1, after, r));
    assert(stops_with(stop0, soft0));
    assert(perm6_from_0(ps, got, at, acc0, after, r));
}

/// One round of a permutation of 6 parsers in which parser 3 matches: where
/// every parser before it in the list that has not matched yet fails softly
/// at the start of the round, and it succeeds there, the permutation goes on
/// with its output kept, from where it stopped.
pub proof fn lemma_perm6_round_3<I, O1, O2, O3, O4, O5, O6, E, A1, A2, A3, A4, A5, A6>(
    ps: (A1, A2, A3, A4, A5, A6),
    got: (Option<O1>, Option<O2>, Option<O3>, Option<O4>, Option<O5>, Option<O6>),
    at: I,
    next: I,
    v: O4,
    after: I,
    r: PResult<(O1, O2, O3, O4, O5, O6), E>,
) where
    I: Stream,
    E: ParseError<I>,
    A1: Parser<I, O1, E>,
    A2: Parser<I, O2, E>,
    A3: Parser<I, O3, E>,
    A4: Parser<I, O4, E>,
    A5: Parser<I, O5, E>,
    A6: Parser<I, O6, E>,

    requires
        got.0 is None ==> fails_softly(ps.0, at),
        got.1 is None ==> fails_softly(ps.1, at),
        got.2 is None ==> fails_softly(ps.2, at),
        got.3 is None,
        ps.3.parses(at, next, Ok(v)),
        perm6_from_0(
            ps,
            (got.0, got.1, got.2, Some(v), got.4, got.5),
            next,
            RoundSoFar::fresh(),
            after,
            r,
        ),
    ensures
        perm6_from_0(ps, got, at, RoundSoFar::fresh(), after, r),
{
    let acc0 = RoundSoFar::<E>::fresh();
    let (stop0, soft0): (I, ErrMode<E>) = choose|stop: I, soft: ErrMode<E>| #[trigger]
        stops_with(stop, soft) && !(soft is Cut) && ps.0.parses(at, stop, Err(soft));
    let acc1 = if got.0 is None {
        acc0.note(soft0)
    } else {
        acc0
    };
    let (stop1, soft1): (I, ErrMode<E>) = choose|stop: I, soft: ErrMode<E>| #[trigger]
        stops_with(stop, soft) && !(soft is Cut) && ps.1.parses(at, stop, Err(soft));
    let acc2 = if got.1 is None {
        acc1.note(soft1)
    } else {
        acc1
    };
    let (stop2, soft2): (I, ErrMode<E>) = choose|stop: I, soft: ErrMode<E>| #[trigger]
        stops_with(stop, soft) && !(soft is Cut) && ps.2.parses(at, stop, Err(soft));
    let acc3 = if got.2 is None {
        acc2.note(soft2)
    } else {
        acc2
    };
    assert(stops_with(next, v));
    assert(perm6_from_3(ps, got, at, acc3, after, r));
    assert(stops_with(stop2, soft2));
    assert(perm6_from_2(ps, got, at, acc2, after, r));
    assert(stops_with(stop1, soft1));
    assert(perm6_from_1(ps, got, at, acc1, after, r));
    assert(stops_with(stop0, soft0));
    assert(perm6_from_0(ps, got, at, acc0, after, r));
}

/// One round of a permutation of 6 parsers in which parser 4 matches: where
/// every parser before it in the list that has not matched yet fails softly
/// at the start of the round, and it succeeds there, the permutation goes on
/// with its output kept, from where it stopped.
pub proof fn lemma_perm6_round_4<I, O1, O2, O3, O4, O5, O6, E, A1, A2, A3, A4, A5, A6>(
    ps: (A1, A2, A3, A4, A5, A6),
    got: (Option<O1>, Option<O2>, Option<O3>, Option<O4>, Option<O5>, Option<O6>),
    at: I,
    next: I,
    v: O5,
    after: I,
    r: PResult<(O1, O2, O3, O4, O5, O6), E>,
) where
    I: Stream,
    E: ParseError<I>,
    A1: Parser<I, O1, E>,
    A2: Parser<I, O2, E>,
    A3: Parser<I, O3, E>,
    A4: Parser<I, O4, E>,
    A5: Parser<I, O5, E>,
    A6: Parser<I, O6, E>,

    requires
        got.0 is None ==> fails_softly(ps.0, at),
        got.1 is None ==> fails_softly(ps.1, at),
        got.2 is None ==> fails_softly(ps.2, at),
        got.3 is None ==> fails_softly(ps.3, at),
        got.4 is None,
        ps.4.parses(at, next, Ok(v)),
        perm6_from_0(
            ps,
            (got.0, got.1, got.2, got.3, Some(v), got.5),
            next,
            RoundSoFar::fresh(),
            after,
            r,
        ),
    ensures
        perm6_from_0(ps, got, at, RoundSoFar::fresh(), after, r),
{
    let acc0 = RoundSoFar::<E>::fresh();
    let (stop0, soft0): (I, ErrMode<E>) = choose|stop: I, soft: ErrMode<E>| #[trigger]
        stops_with(stop, soft) && !(soft is Cut) && ps.0.parses(at, stop, Err(soft));
    let acc1 = if got.0 is None {
        acc0.note(soft0)
    } else {
        acc0
    };
    let (stop1, soft1): (I, ErrMode<E>) = choose|stop: I, soft: ErrMode<E>| #[trigger]
        stops_with(stop, soft) && !(soft is Cut) && ps.1.parses(at, stop, Err(soft));
    let acc2 = if got.1 is None {
        acc1.note(soft1)
    } else {
        acc1
    };
    let (stop2, soft2): (I, ErrMode<E>) = choose|stop: I, soft: ErrMode<E>| #[trigger]
        stops_with(stop, soft) && !(soft is Cut) && ps.2.parses(at, stop, Err(soft));
    let acc3 = if got.2 is None {
        acc2.note(soft2)
    } else {
        acc2
    };
    let (stop3, soft3): (I, ErrMode<E>) = choose|stop: I, soft: ErrMode<E>| #[trigger]
        stops_with(stop, soft) && !(soft is Cut) && ps.3.parses(at, stop, Err(soft));
    let acc4 = if got.3 is None {
        acc3.note(soft3)
    } else {
        acc3
    };
    assert(stops_with(next, v));
    assert(perm6_from_4(ps, got, at, acc4, after, r));
    assert(stops_with(stop3, soft3));
    assert(perm6_from_3(ps, got, at, acc3, after, r));
    assert(stops_with(stop2, soft2));
    assert(perm6_from_2(ps, got, at, acc2, after, r));
    assert(stops_with(stop1, soft1));
    assert(perm6_from_1(ps, got, at, acc1, after, r));
    assert(stops_with(stop0, soft0));
    assert(perm6_from_0(ps, got, at, acc0, after, r));
}

/// One round of a permutation of 6 parsers in which parser 5 matches: where
/// every parser before it in the list that has not matched yet fails softly
/// at the start of the round, and it succeeds there, the permutation goes on
/// with its output kept, from where it stopped.
pub proof fn lemma_perm6_round_5<I, O1, O2, O3, O4, O5, O6, E, A1, A2, A3, A4, A5, A6>(
    ps: (A1, A2, A3, A4, A5, A6),
    got: (Option<O1>, Option<O2>, Option<O3>, Option<O4>, Option<O5>, Option<O6>),
    at: I,
    next: I,
    v: O6,
    after: I,
    r: PResult<(O1, O2, O3, O4, O5, O6), E>,
) where
    I: Stream,
    E: ParseError<I>,
    A1: Parser<I, O1, E>,
    A2: Parser<I, O2, E>,
    A3: Parser<I, O3, E>,
    A4: Parser<I, O4, E>,
    A5: Parser<I, O5, E>,
    A6: Parser<I, O6, E>,

    requires
        got.0 is None ==> fails_softly(ps.0, at),
        got.1 is None ==> fails_softly(ps.1, at),
        got.2 is None ==> fails_softly(ps.2, at),
        got.3 is None ==> fails_softly(ps.3, at),
        got.4 is None ==> fails_softly(ps.4, at),
        got.5 is None,
        ps.5.parses(at, next, Ok(v)),
        perm6_from_0(
            ps,
            (got.0, got.1, got.2, got.3, got.4, Some(v)),
            next,
            RoundSoFar::fresh(),
            after,
            r,
        ),
    ensures
        perm6_from_0(ps, got, at, RoundSoFar::fresh(), after, r),
{
    let acc0 = RoundSoFar::<E>::fresh();
    let (stop0, soft0): (I, ErrMode<E>) = choose|stop: I, soft: ErrMode<E>| #[trigger]
        stops_with(stop, soft) && !(soft is Cut) && ps.0.parses(at, stop, Err(soft));
    let acc1 = if got.0 is None {
        acc0.note(soft0)
    } else {
        acc0
    };
    let (stop1, soft1): (I, ErrMode<E>) = choose|stop: I, soft: ErrMode<E>| #[trigger]
        stops_with(stop, soft) && !(soft is Cut) && ps.1.parses(at, stop, Err(soft));
    let acc2 = if got.1 is None {
        acc1.note(soft1)
    } else {
        acc1
    };
    let (stop2, soft2): (I, ErrMode<E>) = choose|stop: I, soft: ErrMode<E>| #[trigger]
        stops_with(stop, soft) && !(soft is Cut) && ps.2.parses(at, stop, Err(soft));
    let acc3 = if got.2 is None {
        acc2.note(soft2)
    } else {
        acc2
    };
    let (stop3, soft3): (I, ErrMode<E>) = choose|stop: I, soft: ErrMode<E>| #[trigger]
        stops_with(stop, soft) && !(soft is Cut) && ps.3.parses(at, stop, Err(soft));
    let acc4 = if got.3 is None {
        acc3.note(soft3)
    } else {
        acc3
    };
    let (stop4, soft4): (I, ErrMode<E>) = choose|stop: I, soft: ErrMode<E>| #[trigger]
        stops_with(stop, soft) && !(soft is Cut) && ps.4.parses(at, stop, Err(soft));
    let acc5 = if got.4 is None {
        acc4.note(soft4)
    } else {
        acc4
    };
    assert(stops_with(next, v));
    assert(perm6_from_5(ps, got, at, acc5, after, r));
    assert(stops_with(stop4, soft4));
    assert(perm6_from_4(ps, got, at, acc4, after, r));
    assert(stops_with(stop3, soft3));
    assert(perm6_from_3(ps, got, at, acc3, after, r));
    assert(stops_with(stop2, soft2));
    assert(perm6_from_2(ps, got, at, acc2, after, r));
    assert(stops_with(stop1, soft1));
    assert(perm6_from_1(ps, got, at, acc1, after, r));
    assert(stops_with(stop0, soft0));
    assert(perm6_from_0(ps, got, at, acc0, after, r));
}

/// One round of a permutation of 6 parsers in which no parser matches: where
/// every parser that has not matched yet fails recoverably at the start of
/// the round, wherever it left the cursor, the permutation fails recoverably
/// with the cursor at the start of the round, and its error is that of the
/// last such parser under a frame at the start of the round.
pub proof fn lemma_perm6_round_fails<I, O1, O2, O3, O4, O5, O6, E, A1, A2, A3, A4, A5, A6>(
    ps: (A1, A2, A3, A4, A5, A6),
    got: (Option<O1>, Option<O2>, Option<O3>, Option<O4>, Option<O5>, Option<O6>),
    at: I,
    stops: (I, I, I, I, I, I),
    errors: (E, E, E, E, E, E),
    e: E,
) where
    I: Stream,
    E: ParseError<I>,
    A1: Parser<I, O1, E>,
    A2: Parser<I, O2, E>,
    A3: Parser<I, O3, E>,
    A4: Parser<I, O4, E>,
    A5: Parser<I, O5, E>,
    A6: Parser<I, O6, E>,

    requires
        got.0 is None ==> ps.0.parses(at, stops.0, Err(ErrMode::Backtrack(errors.0))),
        got.1 is None ==> ps.1.parses(at, stops.1, Err(ErrMode::Backtrack(errors.1))),
        got.2 is None ==> ps.2.parses(at, stops.2, Err(ErrMode::Backtrack(errors.2))),
        got.3 is None ==> ps.3.parses(at, stops.3, Err(ErrMode::Backtrack(errors.3))),
        got.4 is None ==> ps.4.parses(at, stops.4, Err(ErrMode::Backtrack(errors.4))),
        got.5 is None ==> ps.5.parses(at, stops.5, Err(ErrMode::Backtrack(errors.5))),
        ({
            ||| got.0 is None
            ||| got.1 is None
            ||| got.2 is None
            ||| got.3 is None
            ||| got.4 is None
            ||| got.5 is None
        }),
        ({
            let last_0 = errors.0;
            let last_1 = if got.1 is None {
                errors.1
            } else {
                last_0
            };
            let last_2 = if got.2 is None {
                errors.2
            } else {
                last_1
            };
            let last_3 = if got.3 is None {
                errors.3
            } else {
                last_2
            };
            let last_4 = if got.4 is None {
                errors.4
            } else {
                last_3
            };
            let last_5 = if got.5 is None {
                errors.5
            } else {
                last_4
            };
            e.appended_to(last_5, at, ErrorKind::Permutation)
        }),
    ensures
        perm6_from_0(ps, got, at, RoundSoFar::fresh(), at, Err(ErrMode::Backtrack(e))),
{
    let r = Err::<(O1, O2, O3, O4, O5, O6), ErrMode<E>>(ErrMode::Backtrack(e));
    let acc0 = RoundSoFar::<E>::fresh();
    let soft0 = ErrMode::Backtrack(errors.0);
    let acc1 = if got.0 is None {
        acc0.note(soft0)
    } else {
        acc0
    };
    let soft1 = ErrMode::Backtrack(errors.1);
    let acc2 = if got.1 is None {
        acc1.note(soft1)
    } else {
        acc1
    };
    let soft2 = ErrMode::Backtrack(errors.2);
    let acc3 = if got.2 is None {
        acc2.note(soft2)
    } else {
        acc2
    };
    let soft3 = ErrMode::Backtrack(errors.3);
    let acc4 = if got.3 is None {
        acc3.note(soft3)
    } else {
        acc3
    };
    let soft4 = ErrMode::Backtrack(errors.4);
    let acc5 = if got.4 is None {
        acc4.note(soft4)
    } else {
        acc4
    };
    let soft5 = ErrMode::Backtrack(errors.5);
    let acc6 = if got.5 is None {
        acc5.note(soft5)
    } else {
        acc5
    };
    assert(perm6_end(ps, got, at, acc6, at, r));
    assert(stops_with(stops.5, soft5));
    assert(perm6_from_5(ps, got, at, acc5, at, r));
    assert(stops_with(stops.4, soft4));
    assert(perm6_from_4(ps, got, at, acc4, at, r));
    assert(stops_with(stops.3, soft3));
    assert(perm6_from_3(ps, got, at, acc3, at, r));
    assert(stops_with(stops.2, soft2));
    assert(perm6_from_2(ps, got, at, acc2, at, r));
    assert(stops_with(stops.1, soft1));
    assert(perm6_from_1(ps, got, at, acc1, at, r));
    assert(stops_with(stops.0, soft0));
    assert(perm6_from_0(ps, got, at, acc0, at, r));
}

/// The outputs `o` of a permutation of 7 parsers are in the order of the
/// list: each is the output kept in `got` for its parser, or, where none is
/// kept, an output that its parser may yield somewhere.
pub open spec fn perm7_in_order<I, O1, O2, O3, O4, O5, O6, O7, E, A1, A2, A3, A4, A5, A6, A7>(
    ps: (A1, A2, A3, A4, A5, A6, A7),
    got: (Option<O1>, Option<O2>, Option<O3>, Option<O4>, Option<O5>, Option<O6>, Option<O7>),
    o: (O1, O2, O3, O4, O5, O6, O7),
) -> bool where
    I: Stream,
    E: ParseError<I>,
    A1: Parser<I, O1, E>,
    A2: Parser<I, O2, E>,
    A3: Parser<I, O3, E>,
    A4: Parser<I, O4, E>,
    A5: Parser<I, O5, E>,
    A6: Parser<I, O6, E>,
    A7: Parser<I, O7, E>,
{
    &&& match got.0 {
        Some(kept) => o.0 == kept,
        None => exists|c: I, d: I| #[trigger]
            stops_with(c, d) && ps.0.parses(c, d, Ok(o.0)),
    }
    &&& match got.1 {
        Some(kept) => o.1 == kept,
        None => exists|c: I, d: I| #[trigger]
            stops_with(c, d) && ps.1.parses(c, d, Ok(o.1)),
    }
    &&& match got.2 {
        Some(kept) => o.2 == kept,
        None => exists|c: I, d: I| #[trigger]
            stops_with(c, d) && ps.2.parses(c, d, Ok(o.2)),
    }
    &&& match got.3 {
        Some(kept) => o.3 == kept,
        None => exists|c: I, d: I| #[trigger]
            stops_with(c, d) && ps.3.parses(c, d, Ok(o.3)),
    }
    &&& match got.4 {
        Some(kept) => o.4 == kept,
        None => exists|c: I, d: I| #[trigger]
            stops_with(c, d) && ps.4.parses(c, d, Ok(o.4)),
    }
    &&& match got.5 {
        Some(kept) => o.5 == kept,
        None => exists|c: I, d: I| #[trigger]
            stops_with(c, d) && ps.5.parses(c, d, Ok(o.5)),
    }
    &&& match got.6 {
        Some(kept) => o.6 == kept,
        None => exists|c: I, d: I| #[trigger]
            stops_with(c, d) && ps.6.parses(c, d, Ok(o.6)),
    }
}

/// Where a permutation of 7 parsers succeeds, seen from parser 0 of a round
/// on, its outputs are in the order of the list.
pub proof fn lemma_perm7_from_0_in_order<
    I, O1, O2, O3, O4, O5, O6, O7, E, A1, A2, A3, A4, A5, A6, A7,
>(
    ps: (A1, A2, A3, A4, A5, A6, A7),
    got: (Option<O1>, Option<O2>, Option<O3>, Option<O4>, Option<O5>, Option<O6>, Option<O7>),
    at: I,
    acc: RoundSoFar<E>,
    after: I,
    o: (O1, O2, O3, O4, O5, O6, O7),
) where
    I: Stream,
    E: ParseError<I>,
    A1: Parser<I, O1, E>,
    A2: Parser<I, O2, E>,
    A3: Parser<I, O3, E>,
    A4: Parser<I, O4, E>,
    A5: Parser<I, O5, E>,
    A6: Parser<I, O6, E>,
    A7: Parser<I, O7, E>,

    requires
        perm7_from_0(ps, got, at, acc, after, Ok(o)),
    ensures
        perm7_in_order(ps, got, o),
    decreases perm7_pending(got), 7nat,
{
    let r = Ok::<(O1, O2, O3, O4, O5, O6, O7), ErrMode<E>>(o);
    if got.0 is Some {
        lemma_perm7_from_1_in_order(ps, got, at, acc, after, o);
    } else {
        if exists|next: I, v: O1| #[trigger]
            stops_with(next, v) && ps.0.parses(at, next, Ok(v)) && perm7_from_0(
                ps,
                (Some(v), got.1, got.2, got.3, got.4, got.5, got.6),
                next,
                RoundSoFar::fresh(),
                after,
                r,
            ) {
            let (next, v): (I, O1) = choose|next: I, v: O1| #[trigger]
                stops_with(next, v) && ps.0.parses(at, next, Ok(v)) && perm7_from_0(
                    ps,
                    (Some(v), got.1, got.2, got.3, got.4, got.5, got.6),
                    next,
                    RoundSoFar::fresh(),
                    after,
                    r,
                );
            let then = (Some(v), got.1, got.2, got.3, got.4, got.5, got.6);
            lemma_perm7_from_0_in_order(ps, then, next, RoundSoFar::fresh(), after, o);
            assert(stops_with(at, next));
        } else {
            let (stop, soft): (I, ErrMode<E>) = choose|stop: I, soft: ErrMode<E>|
                #[trigger]
                stops_with(stop, soft) && !(soft is Cut) && ps.0.parses(at, stop, Err(soft))
                    && perm7_from_1(ps, got, at, acc.note(soft), after, r);
            lemma_perm7_from_1_in_order(ps, got, at, acc.note(soft), after, o);
        }
    }
}

/// Where a permutation of 7 parsers succeeds, seen from parser 1 of a round
/// on, its outputs are in the order of the list.
pub proof fn lemma_perm7_from_1_in_order<
    I, O1, O2, O3, O4, O5, O6, O7, E, A1, A2, A3, A4, A5, A6, A7,
>(
    ps: (A1, A2, A3, A4, A5, A6, A7),
    got: (Option<O1>, Option<O2>, Option<O3>, Option<O4>, Option<O5>, Option<O6>, Option<O7>),
    at: I,
    acc: RoundSoFar<E>,
    after: I,
    o: (O1, O2, O3, O4, O5, O6, O7),
) where
    I: Stream,
    E: ParseError<I>,
    A1: Parser<I, O1, E>,
    A2: Parser<I, O2, E>,
    A3: Parser<I, O3, E>,
    A4: Parser<I, O4, E>,
    A5: Parser<I, O5, E>,
    A6: Parser<I, O6, E>,
    A7: Parser<I, O7, E>,

    requires
        perm7_from_1(ps, got, at, acc, after, Ok(o)),
    ensures
        perm7_in_order(ps, got, o),
    decreases perm7_pending(got), 6nat,
{
    let r = Ok::<(O1, O2, O3, O4, O5, O6, O7), ErrMode<E>>(o);
    if got.1 is Some {
        lemma_perm7_from_2_in_order(ps, got, at, acc, after, o);
    } else {
        if exists|next: I, v: O2| #[trigger]
            stops_with(next, v) && ps.1.parses(at, next, Ok(v)) && perm7_from_0(
                ps,
                (got.0, Some(v), got.2, got.3, got.4, got.5, got.6),
                next,
                RoundSoFar::fresh(),
                after,
                r,
            ) {
            let (next, v): (I, O2) = choose|next: I, v: O2| #[trigger]
                stops_with(next, v) && ps.1.parses(at, next, Ok(v)) && perm7_from_0(
                    ps,
                    (got.0, Some(v), got.2, got.3, got.4, got.5, got.6),
                    next,
                    RoundSoFar::fresh(),
                    after,
                    r,
                );
            let then = (got.0, Some(v), got.2, got.3, got.4, got.5, got.6);
            lemma_perm7_from_0_in_order(ps, then, next, RoundSoFar::fresh(), after, o);
            assert(stops_with(at, next));
        } else {
            let (stop, soft): (I, ErrMode<E>) = choose|stop: I, soft: ErrMode<E>|
                #[trigger]
                stops_with(stop, soft) && !(soft is Cut) && ps.1.parses(at, stop, Err(soft))
                    && perm7_from_2(ps, got, at, acc.note(soft), after, r);
            lemma_perm7_from_2_in_order(ps, got, at, acc.note(soft), after, o);
        }
    }
}

/// Where a permutation of 7 parsers succeeds, seen from parser 2 of a round
/// on, its outputs are in the order of the list.
pub proof fn lemma_perm7_from_2_in_order<
    I, O1, O2, O3, O4, O5, O6, O7, E, A1, A2, A3, A4, A5, A6, A7,
>(
    ps: (A1, A2, A3, A4, A5, A6, A7),
    got: (Option<O1>, Option<O2>, Option<O3>, Option<O4>, Option<O5>, Option<O6>, Option<O7>),
    at: I,
    acc: RoundSoFar<E>,
    after: I,
    o: (O1, O2, O3, O4, O5, O6, O7),
) where
    I: Stream,
    E: ParseError<I>,
    A1: Parser<I, O1, E>,
    A2: Parser<I, O2, E>,
    A3: Parser<I, O3, E>,
    A4: Parser<I, O4, E>,
    A5: Parser<I, O5, E>,
    A6: Parser<I, O6, E>,
    A7: Parser<I, O7, E>,

    requires
        perm7_from_2(ps, got, at, acc, after, Ok(o)),
    ensures
        perm7_in_order(ps, got, o),
    decreases perm7_pending(got), 5nat,
{
    let r = Ok::<(O1, O2, O3, O4, O5, O6, O7), ErrMode<E>>(o);
    if got.2 is Some {
        lemma_perm7_from_3_in_order(ps, got, at, acc, after, o);
    } else {
        if exists|next: I, v: O3| #[trigger]
            stops_with(next, v) && ps.2.parses(at, next, Ok(v)) && perm7_from_0(
                ps,
                (got.0, got.1, Some(v), got.3, got.4, got.5, got.6),
                next,
                RoundSoFar::fresh(),
                after,
                r,
            ) {
            let (next, v): (I, O3) = choose|next: I, v: O3| #[trigger]
                stops_with(next, v) && ps.2.parses(at, next, Ok(v)) && perm7_from_0(
                    ps,
                    (got.0, got.1, Some(v), got.3, got.4, got.5, got.6),
                    next,
                    RoundSoFar::fresh(),
                    after,
                    r,
                );
            let then = (got.0, got.1, Some(v), got.3, got.4, got.5, got.6);
            lemma_perm7_from_0_in_order(ps, then, next, RoundSoFar::fresh(), after, o);
            assert(stops_with(at, next));
        } else {
            let (stop, soft): (I, ErrMode<E>) = choose|stop: I, soft: ErrMode<E>|
                #[trigger]
                stops_with(stop, soft) && !(soft is Cut) && ps.2.parses(at, stop, Err(soft))
                    && perm7_from_3(ps, got, at, acc.note(soft), after, r);
            lemma_perm7_from_3_in_order(ps, got, at, acc.note(soft), after, o);
        }
    }
}

/// Where a permutation of 7 parsers succeeds, seen from parser 3 of a round
/// on, its outputs are in the order of the list.
pub proof fn lemma_perm7_from_3_in_order<
    I, O1, O2, O3, O4, O5, O6, O7, E, A1, A2, A3, A4, A5, A6, A7,
>(
    ps: (A1, A2, A3, A4, A5, A6, A7),
    got: (Option<O1>, Option<O2>, Option<O3>, Option<O4>, Option<O5>, Option<O6>, Option<O7>),
    at: I,
    acc: RoundSoFar<E>,
    after: I,
    o: (O1, O2, O3, O4, O5, O6, O7),
) where
    I: Stream,
    E: ParseError<I>,
    A1: Parser<I, O1, E>,
    A2: Parser<I, O2, E>,
    A3: Parser<I, O3, E>,
    A4: Parser<I, O4, E>,
    A5: Parser<I, O5, E>,
    A6: Parser<I, O6, E>,
    A7: Parser<I, O7, E>,

    requires
        perm7_from_3(ps, got, at, acc, after, Ok(o)),
    ensures
        perm7_in_order(ps, got, o),
    decreases perm7_pending(got), 4nat,
{
    let r = Ok::<(O1, O2, O3, O4, O5, O6, O7), ErrMode<E>>(o);
    if got.3 is Some {
        lemma_perm7_from_4_in_order(ps, got, at, acc, after, o);
    } else {
        if exists|next: I, v: O4| #[trigger]
            stops_with(next, v) && ps.3.parses(at, next, Ok(v)) && perm7_from_0(
                ps,
                (got.0, got.1, got.2, Some(v), got.4, got.5, got.6),
                next,
                RoundSoFar::fresh(),
                after,
                r,
            ) {
            let (next, v): (I, O4) = choose|next: I, v: O4| #[trigger]
                stops_with(next, v) && ps.3.parses(at, next, Ok(v)) && perm7_from_0(
                    ps,
                    (got.0, got.1, got.2, Some(v), got.4, got.5, got.6),
                    next,
                    RoundSoFar::fresh(),
                    after,
                    r,
                );
            let then = (got.0, got.1, got.2, Some(v), got.4, got.5, got.6);
            lemma_perm7_from_0_in_order(ps, then, next, RoundSoFar::fresh(), after, o);
            assert(stops_with(at, next));
        } else {
            let (stop, soft): (I, ErrMode<E>) = choose|stop: I, soft: ErrMode<E>|
                #[trigger]
                stops_with(stop, soft) && !(soft is Cut) && ps.3.parses(at, stop, Err(soft))
                    && perm7_from_4(ps, got, at, acc.note(soft), after, r);
            lemma_perm7_from_4_in_order(ps, got, at, acc.note(soft), after, o);
        }
    }
}

/// Where a permutation of 7 parsers succeeds, seen from parser 4 of a round
/// on, its outputs are in the order of the list.
pub proof fn lemma_perm7_from_4_in_order<
    I, O1, O2, O3, O4, O5, O6, O7, E, A1, A2, A3, A4, A5, A6, A7,
>(
    ps: (A1, A2, A3, A4, A5, A6, A7),
    got: (Option<O1>, Option<O2>, Option<O3>, Option<O4>, Option<O5>, Option<O6>, Option<O7>),
    at: I,
    acc: RoundSoFar<E>,
    after: I,
    o: (O1, O2, O3, O4, O5, O6, O7),
) where
    I: Stream,
    E: ParseError<I>,
    A1: Parser<I, O1, E>,
    A2: Parser<I, O2, E>,
    A3: Parser<I, O3, E>,
    A4: Parser<I, O4, E>,
    A5: Parser<I, O5, E>,
    A6: Parser<I, O6, E>,
    A7: Parser<I, O7, E>,

    requires
        perm7_from_4(ps, got, at, acc, after, Ok(o)),
    ensures
        perm7_in_order(ps, got, o),
    decreases perm7_pending(got), 3nat,
{
    let r = Ok::<(O1, O2, O3, O4, O5, O6, O7), ErrMode<E>>(o);
    if got.4 is Some {
        lemma_perm7_from_5_in_order(ps, got, at, acc, after, o);
    } else {
        if exists|next: I, v: O5| #[trigger]
            stops_with(next, v) && ps.4.parses(at, next, Ok(v)) && perm7_from_0(
                ps,
                (got.0, got.1, got.2, got.3, Some(v), got.5, got.6),
                next,
                RoundSoFar::fresh(),
                after,
                r,
            ) {
            let (next, v): (I, O5) = choose|next: I, v: O5| #[trigger]
                stops_with(next, v) && ps.4.parses(at, next, Ok(v)) && perm7_from_0(
                    ps,
                    (got.0, got.1, got.2, got.3, Some(v), got.5, got.6),
                    next,
                    RoundSoFar::fresh(),
                    after,
                    r,
                );
            let then = (got.0, got.1, got.2, got.3, Some(v), got.5, got.6);
            lemma_perm7_from_0_in_order(ps, then, next, RoundSoFar::fresh(), after, o);
            assert(stops_with(at, next));
        } else {
            let (stop, soft): (I, ErrMode<E>) = choose|stop: I, soft: ErrMode<E>|
                #[trigger]
                stops_with(stop, soft) && !(soft is Cut) && ps.4.parses(at, stop, Err(soft))
                    && perm7_from_5(ps, got, at, acc.note(soft), after, r);
            lemma_perm7_from_5_in_order(ps, got, at, acc.note(soft), after, o);
        }
    }
}

/// Where a permutation of 7 parsers succeeds, seen from parser 5 of a round
/// on, its outputs are in the order of the list.
pub proof fn lemma_perm7_from_5_in_order<
    I, O1, O2, O3, O4, O5, O6, O7, E, A1, A2, A3, A4, A5, A6, A7,
>(
    ps: (A1, A2, A3, A4, A5, A6, A7),
    got: (Option<O1>, Option<O2>, Option<O3>, Option<O4>, Option<O5>, Option<O6>, Option<O7>),
    at: I,
    acc: RoundSoFar<E>,
    after: I,
    o: (O1, O2, O3, O4, O5, O6, O7),
) where
    I: Stream,
    E: ParseError<I>,
    A1: Parser<I, O1, E>,
    A2: Parser<I, O2, E>,
    A3: Parser<I, O3, E>,
    A4: Parser<I, O4, E>,
    A5: Parser<I, O5, E>,
    A6: Parser<I, O6, E>,
    A7: Parser<I, O7, E>,

    requires
        perm7_from_5(ps, got, at, acc, after, Ok(o)),
    ensures
        perm7_in_order(ps, got, o),
    decreases perm7_pending(got), 2nat,
{
    let r = Ok::<(O1, O2, O3, O4, O5, O6, O7), ErrMode<E>>(o);
    if got.5 is Some {
        lemma_perm7_from_6_in_order(ps, got, at, acc, after, o);
    } else {
        if exists|next: I, v: O6| #[trigger]
            stops_with(next, v) && ps.5.parses(at, next, Ok(v)) && perm7_from_0(
                ps,
                (got.0, got.1, got.2, got.3, got.4, Some(v), got.6),
                next,
                RoundSoFar::fresh(),
                after,
                r,
            ) {
            let (next, v): (I, O6) = choose|next: I, v: O6| #[trigger]
                stops_with(next, v) && ps.5.parses(at, next, Ok(v)) && perm7_from_0(
                    ps,
                    (got.0, got.1, got.2, got.3, got.4, Some(v), got.6),
                    next,
                    RoundSoFar::fresh(),
                    after,
                    r,
                );
            let then = (got.0, got.1, got.2, got.3, got.4, Some(v), got.6);
            lemma_perm7_from_0_in_order(ps, then, next, RoundSoFar::fresh(), after, o);
            assert(stops_with(at, next));
        } else {
            let (stop, soft): (I, ErrMode<E>) = choose|stop: I, soft: ErrMode<E>|
                #[trigger]
                stops_with(stop, soft) && !(soft is Cut) && ps.5.parses(at, stop, Err(soft))
                    && perm7_from_6(ps, got, at, acc.note(soft), after, r);
            lemma_perm7_from_6_in_order(ps, got, at, acc.note(soft), after, o);
        }
    }
}

/// Where a permutation of 7 parsers succeeds, seen from parser 6 of a round
/// on, its outputs are in the order of the list.
pub proof fn lemma_perm7_from_6_in_order<
    I, O1, O2, O3, O4, O5, O6, O7, E, A1, A2, A3, A4, A5, A6, A7,
>(
    ps: (A1, A2, A3, A4, A5, A6, A7),
    got: (Option<O1>, Option<O2>, Option<O3>, Option<O4>, Option<O5>, Option<O6>, Option<O7>),
    at: I,
    acc: RoundSoFar<E>,
    after: I,
    o: (O1, O2, O3, O4, O5, O6, O7),
) where
    I: Stream,
    E: ParseError<I>,
    A1: Parser<I, O1, E>,
    A2: Parser<I, O2, E>,
    A3: Parser<I, O3, E>,
    A4: Parser<I, O4, E>,
    A5: Parser<I, O5, E>,
    A6: Parser<I, O6, E>,
    A7: Parser<I, O7, E>,

    requires
        perm7_from_6(ps, got, at, acc, after, Ok(o)),
    ensures
        perm7_in_order(ps, got, o),
    decreases perm7_pending(got), 1nat,
{
    let r = Ok::<(O1, O2, O3, O4, O5, O6, O7), ErrMode<E>>(o);
    if got.6 is Some {
        lemma_perm7_end_in_order(ps, got, at, acc, after, o);
    } else {
        if exists|next: I, v: O7| #[trigger]
            stops_with(next, v) && ps.6.parses(at, next, Ok(v)) && perm7_from_0(
                ps,
                (got.0, got.1, got.2, got.3, got.4, got.5, Some(v)),
                next,
                RoundSoFar::fresh(),
                after,
                r,
            ) {
            let (next, v): (I, O7) = choose|next: I, v: O7| #[trigger]
                stops_with(next, v) && ps.6.parses(at, next, Ok(v)) && perm7_from_0(
                    ps,
                    (got.0, got.1, got.2, got.3, got.4, got.5, Some(v)),
                    next,
                    RoundSoFar::fresh(),
                    after,
                    r,
                );
            let then = (got.0, got.1, got.2, got.3, got.4, got.5, Some(v));
            lemma_perm7_from_0_in_order(ps, then, next, RoundSoFar::fresh(), after, o);
            assert(stops_with(at, next));
        } else {
            let (stop, soft): (I, ErrMode<E>) = choose|stop: I, soft: ErrMode<E>|
                #[trigger]
                stops_with(stop, soft) && !(soft is Cut) && ps.6.parses(at, stop, Err(soft))
                    && perm7_end(ps, got, at, acc.note(soft), after, r);
            lemma_perm7_end_in_order(ps, got, at, acc.note(soft), after, o);
        }
    }
}

/// Where a permutation of 7 parsers succeeds at the end of a round, its
/// outputs are in the order of the list.
pub proof fn lemma_perm7_end_in_order<I, O1, O2, O3, O4, O5, O6, O7, E, A1, A2, A3, A4, A5, A6, A7>(
    ps: (A1, A2, A3, A4, A5, A6, A7),
    got: (Option<O1>, Option<O2>, Option<O3>, Option<O4>, Option<O5>, Option<O6>, Option<O7>),
    at: I,
    acc: RoundSoFar<E>,
    after: I,
    o: (O1, O2, O3, O4, O5, O6, O7),
) where
    I: Stream,
    E: ParseError<I>,
    A1: Parser<I, O1, E>,
    A2: Parser<I, O2, E>,
    A3: Parser<I, O3, E>,
    A4: Parser<I, O4, E>,
    A5: Parser<I, O5, E>,
    A6: Parser<I, O6, E>,
    A7: Parser<I, O7, E>,

    requires
        perm7_end(ps, got, at, acc, after, Ok(o)),
    ensures
        perm7_in_order(ps, got, o),
    decreases perm7_pending(got), 0nat,
{
}

/// A permutation of 7 parsers yields its outputs in the order of the list,
/// whatever the order in which the parsers matched: each output is one that
/// the parser at its place in the list may yield.
pub proof fn lemma_perm7_outputs_in_order<
    I, O1, O2, O3, O4, O5, O6, O7, E, A1, A2, A3, A4, A5, A6, A7,
>(
    ps: (A1, A2, A3, A4, A5, A6, A7),
    before: I,
    after: I,
    o: (O1, O2, O3, O4, O5, O6, O7),
) where
    I: Stream,
    E: ParseError<I>,
    A1: Parser<I, O1, E>,
    A2: Parser<I, O2, E>,
    A3: Parser<I, O3, E>,
    A4: Parser<I, O4, E>,
    A5: Parser<I, O5, E>,
    A6: Parser<I, O6, E>,
    A7: Parser<I, O7, E>,

    requires
        Permuted::of(ps).parses(before, after, Ok(o)),
    ensures
        exists|c: I, d: I| #[trigger] stops_with(c, d) && ps.0.parses(c, d, Ok(o.0)),
        exists|c: I, d: I| #[trigger] stops_with(c, d) && ps.1.parses(c, d, Ok(o.1)),
        exists|c: I, d: I| #[trigger] stops_with(c, d) && ps.2.parses(c, d, Ok(o.2)),
        exists|c: I, d: I| #[trigger] stops_with(c, d) && ps.3.parses(c, d, Ok(o.3)),
        exists|c: I, d: I| #[trigger] stops_with(c, d) && ps.4.parses(c, d, Ok(o.4)),
        exists|c: I, d: I| #[trigger] stops_with(c, d) && ps.5.parses(c, d, Ok(o.5)),
        exists|c: I, d: I| #[trigger] stops_with(c, d) && ps.6.parses(c, d, Ok(o.6)),
{
    let none = (None::<O1>, None::<O2>, None::<O3>, None::<O4>, None::<O5>, None::<O6>, None::<O7>);
    lemma_perm7_from_0_in_order(ps, none, before, RoundSoFar::fresh(), after, o);
}

/// A permutation of 7 parsers that have all matched yields their outputs, in
/// the order of the list, and leaves the cursor where it is.
pub proof fn lemma_perm7_done<I, O1, O2, O3, O4, O5, O6, O7, E, A1, A2, A3, A4, A5, A6, A7>(
    ps: (A1, A2, A3, A4, A5, A6, A7),
    at: I,
    o: (O1, O2, O3, O4, O5, O6, O7),
) where
    I: Stream,
    E: ParseError<I>,
    A1: Parser<I, O1, E>,
    A2: Parser<I, O2, E>,
    A3: Parser<I, O3, E>,
    A4: Parser<I, O4, E>,
    A5: Parser<I, O5, E>,
    A6: Parser<I, O6, E>,
    A7: Parser<I, O7, E>,

    ensures
        perm7_from_0(
            ps,
            (Some(o.0), Some(o.1), Some(o.2), Some(o.3), Some(o.4), Some(o.5), Some(o.6)),
            at,
            RoundSoFar::fresh(),
            at,
            Ok(o),
        ),
{
    let all = (Some(o.0), Some(o.1), Some(o.2), Some(o.3), Some(o.4), Some(o.5), Some(o.6));
    let r = Ok::<(O1, O2, O3, O4, O5, O6, O7), ErrMode<E>>(o);
    let fresh = RoundSoFar::<E>::fresh();
    assert(perm7_end(ps, all, at, fresh, at, r));
    assert(perm7_from_6(ps, all, at, fresh, at, r));
    assert(perm7_from_5(ps, all, at, fresh, at, r));
    assert(perm7_from_4(ps, all, at, fresh, at, r));
    assert(perm7_from_3(ps, all, at, fresh, at, r));
    assert(perm7_from_2(ps, all, at, fresh, at, r));
    assert(perm7_from_1(ps, all, at, fresh, at, r));
    assert(perm7_from_0(ps, all, at, fresh, at, r));
}

/// One round of a permutation of 7 parsers in which parser 0 matches: where
/// every parser before it in the list that has not matched yet fails softly
/// at the start of the round, and it succeeds there, the permutation goes on
/// with its output kept, from where it stopped.
pub proof fn lemma_perm7_round_0<I, O1, O2, O3, O4, O5, O6, O7, E, A1, A2, A3, A4, A5, A6, A7>(
    ps: (A1, A2, A3, A4, A5, A6, A7),
    got: (Option<O1>, Option<O2>, Option<O3>, Option<O4>, Option<O5>, Option<O6>, Option<O7>),
    at: I,
    next: I,
    v: O1,
    after: I,
    r: PResult<(O1, O2, O3, O4, O5, O6, O7), E>,
) where
    I: Stream,
    E: ParseError<I>,
    A1: Parser<I, O1, E>,
    A2: Parser<I, O2, E>,
    A3: Parser<I, O3, E>,
    A4: Parser<I, O4, E>,
    A5: Parser<I, O5, E>,
    A6: Parser<I, O6, E>,
    A7: Parser<I, O7, E>,

    requires
        got.0 is None,
        ps.0.parses(at, next, Ok(v)),
        perm7_from_0(
            ps,
            (Some(v), got.1, got.2, got.3, got.4, got.5, got.6),
            next,
            RoundSoFar::fresh(),
            after,
            r,
        ),
    ensures
        perm7_from_0(ps, got, at, RoundSoFar::fresh(), after, r),
{
    let acc0 = RoundSoFar::<E>::fresh();
    assert(stops_with(next, v));
    assert(perm7_from_0(ps, got, at, acc0, after, r));
}

/// One round of a permutation of 7 parsers in which parser 1 matches: where
/// every parser before it in the list that has not matched yet fails softly
/// at the start of the round, and it succeeds there, the permutation goes on
/// with its output kept, from where it stopped.
pub proof fn lemma_perm7_round_1<I, O1, O2, O3, O4, O5, O6, O7, E, A1, A2, A3, A4, A5, A6, A7>(
    ps: (A1, A2, A3, A4, A5, A6, A7),
    got: (Option<O1>, Option<O2>, Option<O3>, Option<O4>, Option<O5>, Option<O6>, Option<O7>),
    at: I,
    next: I,
    v: O2,
    after: I,
    r: PResult<(O1, O2, O3, O4, O5, O6, O7), E>,
) where
    I: Stream,
    E: ParseError<I>,
    A1: Parser<I, O1, E>,
    A2: Parser<I, O2, E>,
    A3: Parser<I, O3, E>,
    A4: Parser<I, O4, E>,
    A5: Parser<I, O5, E>,
    A6: Parser<I, O6, E>,
    A7: Parser<I, O7, E>,

    requires
        got.0 is None ==> fails_softly(ps.0, at),
        got.1 is None,
        ps.1.parses(at, next, Ok(v)),
        perm7_from_0(
            ps,
            (got.0, Some(v), got.2, got.3, got.4, got.5, got.6),
            next,
            RoundSoFar::fresh(),
            after,
            r,
        ),
    ensures
        perm7_from_0(ps, got, at, RoundSoFar::fresh(), after, r),
{
    let acc0 = RoundSoFar::<E>::fresh();
    let (stop0, soft0): (I, ErrMode<E>) = choose|stop: I, soft: ErrMode<E>| #[trigger]
        stops_with(stop, soft) && !(soft is Cut) && ps.0.parses(at, stop, Err(soft));
    let acc1 = if got.0 is None {
        acc0.note(soft0)
    } else {
        acc0
    };
    assert(stops_with(next, v));
    assert(perm7_from_1(ps, got, at, acc1, after, r));
    assert(stops_with(stop0, soft0));
    assert(perm7_from_0(ps, got, at, acc0, after, r));
}

/// One round of a permutation of 7 parsers in which parser 2 matches: where
/// every parser before it in the list that has not matched yet fails softly
/// at the start of the round, and it succeeds there, the permutation goes on
/// with its output kept, from where it stopped.
pub proof fn lemma_perm7_round_2<I, O1, O2, O3, O4, O5, O6, O7, E, A1, A2, A3, A4, A5, A6, A7>(
    ps: (A1, A2, A3, A4, A5, A6, A7),
    got: (Option<O1>, Option<O2>, Option<O3>, Option<O4>, Option<O5>, Option<O6>, Option<O7>),
    at: I,
    next: I,
    v: O3,
    after: I,
    r: PResult<(O1, O2, O3, O4, O5, O6, O7), E>,
) where
    I: Stream,
    E: ParseError<I>,
    A1: Parser<I, O1, E>,
    A2: Parser<I, O2, E>,
    A3: Parser<I, O3, E>,
    A4: Parser<I, O4, E>,
    A5: Parser<I, O5, E>,
    A6: Parser<I, O6, E>,
    A7: Parser<I, O7, E>,

    requires
        got.0 is None ==> fails_softly(ps.0, at),
        got.1 is None ==> fails_softly(ps.1, at),
        got.2 is None,
        ps.2.parses(at, next, Ok(v)),
        perm7_from_0(
            ps,
            (got.0, got.1, Some(v), got.3, got.4, got.5, got.6),
            next,
            RoundSoFar::fresh(),
            after,
            r,
        ),
    ensures
        perm7_from_0(ps, got, at, RoundSoFar::fresh(), after, r),
{
    let acc0 = RoundSoFar::<E>::fresh();
    let (stop0, soft0): (I, ErrMode<E>) = choose|stop: I, soft: ErrMode<E>| #[trigger]
        stops_with(stop, soft) && !(soft is Cut) && ps.0.parses(at, stop, Err(soft));
    let acc1 = if got.0 is None {
        acc0.note(soft0)
    } else {
        acc0
    };
    let (stop1, soft1): (I, ErrMode<E>) = choose|stop: I, soft: ErrMode<E>| #[trigger]
        stops_with(stop, soft) && !(soft is Cut) && ps.1.parses(at, stop, Err(soft));
    let acc2 = if got.1 is None {
        acc1.note(soft1)
    } else {
        acc1
    };
    assert(stops_with(next, v));
    assert(perm7_from_2(ps, got, at, acc2, after, r));
    assert(stops_with(stop1, soft1));
    assert(perm7_from_1(ps, got, at, acc1, after, r));
    assert(stops_with(stop0, soft0));
    assert(perm7_from_0(ps, got, at, acc0, after, r));
}

/// One round of a permutation of 7 parsers in which parser 3 matches: where
/// every parser before it in the list that has not matched yet fails softly
/// at the start of the round, and it succeeds there, the permutation goes on
/// with its output kept, from where it stopped.
pub proof fn lemma_perm7_round_3<I, O1, O2, O3, O4, O5, O6, O7, E, A1, A2, A3, A4, A5, A6, A7>(
    ps: (A1, A2, A3, A4, A5, A6, A7),
    got: (Option<O1>, Option<O2>, Option<O3>, Option<O4>, Option<O5>, Option<O6>, Option<O7>),
    at: I,
    next: I,
    v: O4,
    after: I,
    r: PResult<(O1, O2, O3, O4, O5, O6, O7), E>,
) where
    I: Stream,
    E: ParseError<I>,
    A1: Parser<I, O1, E>,
    A2: Parser<I, O2, E>,
    A3: Parser<I, O3, E>,
    A4: Parser<I, O4, E>,
    A5: Parser<I, O5, E>,
    A6: Parser<I, O6, E>,
    A7: Parser<I, O7, E>,

    requires
        got.0 is None ==> fails_softly(ps.0, at),
        got.1 is None ==> fails_softly(ps.1, at),
        got.2 is None ==> fails_softly(ps.2, at),
        got.3 is None,
        ps.3.parses(at, next, Ok(v)),
        perm7_from_0(
            ps,
            (got.0, got.1, got.2, Some(v), got.4, got.5, got.6),
            next,
            RoundSoFar::fresh(),
            after,
            r,
        ),
    ensures
        perm7_from_0(ps, got, at, RoundSoFar::fresh(), after, r),
{
    let acc0 = RoundSoFar::<E>::fresh();
    let (stop0, soft0): (I, ErrMode<E>) = choose|stop: I, soft: ErrMode<E>| #[trigger]
        stops_with(stop, soft) && !(soft is Cut) && ps.0.parses(at, stop, Err(soft));
    let acc1 = if got.0 is None {
        acc0.note(soft0)
    } else {
        acc0
    };
    let (stop1, soft1): (I, ErrMode<E>) = choose|stop: I, soft: ErrMode<E>| #[trigger]
        stops_with(stop, soft) && !(soft is Cut) && ps.1.parses(at, stop, Err(soft));
    let acc2 = if got.1 is None {
        acc1.note(soft1)
    } else {
        acc1
    };
    let (stop2, soft2): (I, ErrMode<E>) = choose|stop: I, soft: ErrMode<E>| #[trigger]
        stops_with(stop, soft) && !(soft is Cut) && ps.2.parses(at, stop, Err(soft));
    let acc3 = if got.2 is None {
        acc2.note(soft2)
    } else {
        acc2
    };
    assert(stops_with(next, v));
    assert(perm7_from_3(ps, got, at, acc3, after, r));
    assert(stops_with(stop2, soft2));
    assert(perm7_from_2(ps, got, at, acc2, after, r));
    assert(stops_with(stop1, soft1));
    assert(perm7_from_1(ps, got, at, acc1, after, r));
    assert(stops_with(stop0, soft0));
    assert(perm7_from_0(ps, got, at, acc0, after, r));
}

/// One round of a permutation of 7 parsers in which parser 4 matches: where
/// every parser before it in the list that has not matched yet fails softly
/// at the start of the round, and it succeeds there, the permutation goes on
/// with its output kept, from where it stopped.
pub proof fn lemma_perm7_round_4<I, O1, O2, O3, O4, O5, O6, O7, E, A1, A2, A3, A4, A5, A6, A7>(
    ps: (A1, A2, A3, A4, A5, A6, A7),
    got: (Option<O1>, Option<O2>, Option<O3>, Option<O4>, Option<O5>, Option<O6>, Option<O7>),
    at: I,
    next: I,
    v: O5,
    after: I,
    r: PResult<(O1, O2, O3, O4, O5, O6, O7), E>,
) where
    I: Stream,
    E: ParseError<I>,
    A1: Parser<I, O1, E>,
    A2: Parser<I, O2, E>,
    A3: Parser<I, O3, E>,
    A4: Parser<I, O4, E>,
    A5: Parser<I, O5, E>,
    A6: Parser<I, O6, E>,
    A7: Parser<I, O7, E>,

    requires
        got.0 is None ==> fails_softly(ps.0, at),
        got.1 is None ==> fails_softly(ps.1, at),
        got.2 is None ==> fails_softly(ps.2, at),
        got.3 is None ==> fails_softly(ps.3, at),
        got.4 is None,
        ps.4.parses(at, next, Ok(v)),
        perm7_from_0(
            ps,
            (got.0, got.1, got.2, got.3, Some(v), got.5, got.6),
            next,
            RoundSoFar::fresh(),
            after,
            r,
        ),
    ensures
        perm7_from_0(ps, got, at, RoundSoFar::fresh(), after, r),
{
    let acc0 = RoundSoFar::<E>::fresh();
    let (stop0, soft0): (I, ErrMode<E>) = choose|stop: I, soft: ErrMode<E>| #[trigger]
        stops_with(stop, soft) && !(soft is Cut) && ps.0.parses(at, stop, Err(soft));
    let acc1 = if got.0 is None {
        acc0.note(soft0)
    } else {
        acc0
    };
    let (stop1, soft1): (I, ErrMode<E>) = choose|stop: I, soft: ErrMode<E>| #[trigger]
        stops_with(stop, soft) && !(soft is Cut) && ps.1.parses(at, stop, Err(soft));
    let acc2 = if got.1 is None {
        acc1.note(soft1)
    } else {
        acc1
    };
    let (stop2, soft2): (I, ErrMode<E>) = choose|stop: I, soft: ErrMode<E>| #[trigger]
        stops_with(stop, soft) && !(soft is Cut) && ps.2.parses(at, stop, Err(soft));
    let acc3 = if got.2 is None {
        acc2.note(soft2)
    } else {
        acc2
    };
    let (stop3, soft3): (I, ErrMode<E>) = choose|stop: I, soft: ErrMode<E>| #[trigger]
        stops_with(stop, soft) && !(soft is Cut) && ps.3.parses(at, stop, Err(soft));
    let acc4 = if got.3 is None {
        acc3.note(soft3)
    } else {
        acc3
    };
    assert(stops_with(next, v));
    assert(perm7_from_4(ps, got, at, acc4, after, r));
    assert(stops_with(stop3, soft3));
    assert(perm7_from_3(ps, got, at, acc3, after, r));
    assert(stops_with(stop2, soft2));
    assert(perm7_from_2(ps, got, at, acc2, after, r));
    assert(stops_with(stop1, soft1));
    assert(perm7_from_1(ps, got, at, acc1, after, r));
    assert(stops_with(stop0, soft0));
    assert(perm7_from_0(ps, got, at, acc0, after, r));
}

/// One round of a permutation of 7 parsers in which parser 5 matches: where
/// every parser before it in the list that has not matched yet fails softly
/// at the start of the round, and it succeeds there, the permutation goes on
/// with its output kept, from where it stopped.
pub proof fn lemma_perm7_round_5<I, O1, O2, O3, O4, O5, O6, O7, E, A1, A2, A3, A4, A5, A6, A7>(
    ps: (A1, A2, A3, A4, A5, A6, A7),
    got: (Option<O1>, Option<O2>, Option<O3>, Option<O4>, Option<O5>, Option<O6>, Option<O7>),
    at: I,
    next: I,
    v: O6,
    after: I,
    r: PResult<(O1, O2, O3, O4, O5, O6, O7), E>,
) where
    I: Stream,
    E: ParseError<I>,
    A1: Parser<I, O1, E>,
    A2: Parser<I, O2, E>,
    A3: Parser<I, O3, E>,
    A4: Parser<I, O4, E>,
    A5: Parser<I, O5, E>,
    A6: Parser<I, O6, E>,
    A7: Parser<I, O7, E>,

    requires
        got.0 is None ==> fails_softly(ps.0, at),
        got.1 is None ==> fails_softly(ps.1, at),
        got.2 is None ==> fails_softly(ps.2, at),
        got.3 is None ==> fails_softly(ps.3, at),
        got.4 is None ==> fails_softly(ps.4, at),
        got.5 is None,
        ps.5.parses(at, next, Ok(v)),
        perm7_from_0(
            ps,
            (got.0, got.1, got.2, got.3, got.4, Some(v), got.6),
            next,
            RoundSoFar::fresh(),
            after,
            r,
        ),
    ensures
        perm7_from_0(ps, got, at, RoundSoFar::fresh(), after, r),
{
    let acc0 = RoundSoFar::<E>::fresh();
    let (stop0, soft0): (I, ErrMode<E>) = choose|stop: I, soft: ErrMode<E>| #[trigger]
        stops_with(stop, soft) && !(soft is Cut) && ps.0.parses(at, stop, Err(soft));
    let acc1 = if got.0 is None {
        acc0.note(soft0)
    } else {
        acc0
    };
    let (stop1, soft1): (I, ErrMode<E>) = choose|stop: I, soft: ErrMode<E>| #[trigger]
        stops_with(stop, soft) && !(soft is Cut) && ps.1.parses(at, stop, Err(soft));
    let acc2 = if got.1 is None {
        acc1.note(soft1)
    } else {
        acc1
    };
    let (stop2, soft2): (I, ErrMode<E>) = choose|stop: I, soft: ErrMode<E>| #[trigger]
        stops_with(stop, soft) && !(soft is Cut) && ps.2.parses(at, stop, Err(soft));
    let acc3 = if got.2 is None {
        acc2.note(soft2)
    } else {
        acc2
    };
    let (stop3, soft3): (I, ErrMode<E>) = choose|stop: I, soft: ErrMode<E>| #[trigger]
        stops_with(stop, soft) && !(soft is Cut) && ps.3.parses(at, stop, Err(soft));
    let acc4 = if got.3 is None {
        acc3.note(soft3)
    } else {
        acc3
    };
    let (stop4, soft4): (I, ErrMode<E>) = choose|stop: I, soft: ErrMode<E>| #[trigger]
        stops_with(stop, soft) && !(soft is Cut) && ps.4.parses(at, stop, Err(soft));
    let acc5 = if got.4 is None {
        acc4.note(soft4)
    } else {
        acc4
    };
    assert(stops_with(next, v));
    assert(perm7_from_5(ps, got, at, acc5, after, r));
    assert(stops_with(stop4, soft4));
    assert(perm7_from_4(ps, got, at, acc4, after, r));
    assert(stops_with(stop3, soft3));
    assert(perm7_from_3(ps, got, at, acc3, after, r));
    assert(stops_with(stop2, soft2));
    assert(perm7_from_2(ps, got, at, acc2, after, r));
    assert(stops_with(stop1, soft1));
    assert(perm7_from_1(ps, got, at, acc1, after, r));
    assert(stops_with(stop0, soft0));
    assert(perm7_from_0(ps, got, at, acc0, after, r));
}

/// One round of a permutation of 7 parsers in which parser 6 matches: where
/// every parser before it in the list that has not matched yet fails softly
/// at the start of the round, and it succeeds there, the permutation goes on
/// with its output kept, from where it stopped.
pub proof fn lemma_perm7_round_6<I, O1, O2, O3, O4, O5, O6, O7, E, A1, A2, A3, A4, A5, A6, A7>(
    ps: (A1, A2, A3, A4, A5, A6, A7),
    got: (Option<O1>, Option<O2>, Option<O3>, Option<O4>, Option<O5>, Option<O6>, Option<O7>),
    at: I,
    next: I,
    v: O7,
    after: I,
    r: PResult<(O1, O2, O3, O4, O5, O6, O7), E>,
) where
    I: Stream,
    E: ParseError<I>,
    A1: Parser<I, O1, E>,
    A2: Parser<I, O2, E>,
    A3: Parser<I, O3, E>,
    A4: Parser<I, O4, E>,
    A5: Parser<I, O5, E>,
    A6: Parser<I, O6, E>,
    A7: Parser<I, O7, E>,

    requires
        got.0 is None ==> fails_softly(ps.0, at),
        got.1 is None ==> fails_softly(ps.1, at),
        got.2 is None ==> fails_softly(ps.2, at),
        got.3 is None ==> fails_softly(ps.3, at),
        got.4 is None ==> fails_softly(ps.4, at),
        got.5 is None ==> fails_softly(ps.5, at),
        got.6 is None,
        ps.6.parses(at, next, Ok(v)),
        perm7_from_0(
            ps,
            (got.0, got.1, got.2, got.3, got.4, got.5, Some(v)),
            next,
            RoundSoFar::fresh(),
            after,
            r,
        ),
    ensures
        perm7_from_0(ps, got, at, RoundSoFar::fresh(), after, r),
{
    let acc0 = RoundSoFar::<E>::fresh();
    let (stop0, soft0): (I, ErrMode<E>) = choose|stop: I, soft: ErrMode<E>| #[trigger]
        stops_with(stop, soft) && !(soft is Cut) && ps.0.parses(at, stop, Err(soft));
    let acc1 = if got.0 is None {
        acc0.note(soft0)
    } else {
        acc0
    };
    let (stop1, soft1): (I, ErrMode<E>) = choose|stop: I, soft: ErrMode<E>| #[trigger]
        stops_with(stop, soft) && !(soft is Cut) && ps.1.parses(at, stop, Err(soft));
    let acc2 = if got.1 is None {
        acc1.note(soft1)
    } else {
        acc1
    };
    let (stop2, soft2): (I, ErrMode<E>) = choose|stop: I, soft: ErrMode<E>| #[trigger]
        stops_with(stop, soft) && !(soft is Cut) && ps.2.parses(at, stop, Err(soft));
    let acc3 = if got.2 is None {
        acc2.note(soft2)
    } else {
        acc2
    };
    let (stop3, soft3): (I, ErrMode<E>) = choose|stop: I, soft: ErrMode<E>| #[trigger]
        stops_with(stop, soft) && !(soft is Cut) && ps.3.parses(at, stop, Err(soft));
    let acc4 = if got.3 is None {
        acc3.note(soft3)
    } else {
        acc3
    };
    let (stop4, soft4): (I, ErrMode<E>) = choose|stop: I, soft: ErrMode<E>| #[trigger]
        stops_with(stop, soft) && !(soft is Cut) && ps.4.parses(at, stop, Err(soft));
    let acc5 = if got.4 is None {
        acc4.note(soft4)
    } else {
        acc4
    };
    let (stop5, soft5): (I, ErrMode<E>) = choose|stop: I, soft: ErrMode<E>| #[trigger]
        stops_with(stop, soft) && !(soft is Cut) && ps.5.parses(at, stop, Err(soft));
    let acc6 = if got.5 is None {
        acc5.note(soft5)
    } else {
        acc5
    };
    assert(stops_with(next, v));
    assert(perm7_from_6(ps, got, at, acc6, after, r));
    assert(stops_with(stop5, soft5));
    assert(perm7_from_5(ps, got, at, acc5, after, r));
    assert(stops_with(stop4, soft4));
    assert(perm7_from_4(ps, got, at, acc4, after, r));
    assert(stops_with(stop3, soft3));
    assert(perm7_from_3(ps, got, at, acc3, after, r));
    assert(stops_with(stop2, soft2));
    assert(perm7_from_2(ps, got, at, acc2, after, r));
    assert(stops_with(stop1, soft1));
    assert(perm7_from_1(ps, got, at, acc1, after, r));
    assert(stops_with(stop0, soft0));
    assert(perm7_from_0(ps, got, at, acc0, after, r));
}

/// One round of a permutation of 7 parsers in which no parser matches: where
/// every parser that has not matched yet fails recoverably at the start of
/// the round, wherever it left the cursor, the permutation fails recoverably
/// with the cursor at the start of the round, and its error is that of the
/// last such parser under a frame at the start of the round.
pub proof fn lemma_perm7_round_fails<I, O1, O2, O3, O4, O5, O6, O7, E, A1, A2, A3, A4, A5, A6, A7>(
    ps: (A1, A2, A3, A4, A5, A6, A7),
    got: (Option<O1>, Option<O2>, Option<O3>, Option<O4>, Option<O5>, Option<O6>, Option<O7>),
    at: I,
    stops: (I, I, I, I, I, I, I),
    errors: (E, E, E, E, E, E, E),
    e: E,
) where
    I: Stream,
    E: ParseError<I>,
    A1: Parser<I, O1, E>,
    A2: Parser<I, O2, E>,
    A3: Parser<I, O3, E>,
    A4: Parser<I, O4, E>,
    A5: Parser<I, O5, E>,
    A6: Parser<I, O6, E>,
    A7: Parser<I, O7, E>,

    requires
        got.0 is None ==> ps.0.parses(at, stops.0, Err(ErrMode::Backtrack(errors.0))),
        got.1 is None ==> ps.1.parses(at, stops.1, Err(ErrMode::Backtrack(errors.1))),
        got.2 is None ==> ps.2.parses(at, stops.2, Err(ErrMode::Backtrack(errors.2))),
        got.3 is None ==> ps.3.parses(at, stops.3, Err(ErrMode::Backtrack(errors.3))),
        got.4 is None ==> ps.4.parses(at, stops.4, Err(ErrMode::Backtrack(errors.4))),
        got.5 is None ==> ps.5.parses(at, stops.5, Err(ErrMode::Backtrack(errors.5))),
        got.6 is None ==> ps.6.parses(at, stops.6, Err(ErrMode::Backtrack(errors.6))),
        ({
            ||| got.0 is None
            ||| got.1 is None
            ||| got.2 is None
            ||| got.3 is None
            ||| got.4 is None
            ||| got.5 is None
            ||| got.6 is None
        }),
        ({
            let last_0 = errors.0;
            let last_1 = if got.1 is None {
                errors.1
            } else {
                last_0
            };
            let last_2 = if got.2 is None {
                errors.2
            } else {
                last_1
            };
            let last_3 = if got.3 is None {
                errors.3
            } else {
                last_2
            };
            let last_4 = if got.4 is None {
                errors.4
            } else {
                last_3
            };
            let last_5 = if got.5 is None {
                errors.5
            } else {
                last_4
            };
            let last_6 = if got.6 is None {
                errors.6
            } else {
                last_5
            };
            e.appended_to(last_6, at, ErrorKind::Permutation)
        }),
    ensures
        perm7_from_0(ps, got, at, RoundSoFar::fresh(), at, Err(ErrMode::Backtrack(e))),
{
    let r = Err::<(O1, O2, O3, O4, O5, O6, O7), ErrMode<E>>(ErrMode::Backtrack(e));
    let acc0 = RoundSoFar::<E>::fresh();
    let soft0 = ErrMode::Backtrack(errors.0);
    let acc1 = if got.0 is None {
        acc0.note(soft0)
    } else {
        acc0
    };
    let soft1 = ErrMode::Backtrack(errors.1);
    let acc2 = if got.1 is None {
        acc1.note(soft1)
    } else {
        acc1
    };
    let soft2 = ErrMode::Backtrack(errors.2);
    let acc3 = if got.2 is None {
        acc2.note(soft2)
    } else {
        acc2
    };
    let soft3 = ErrMode::Backtrack(errors.3);
    let acc4 = if got.3 is None {
        acc3.note(soft3)
    } else {
        acc3
    };
    let soft4 = ErrMode::Backtrack(errors.4);
    let acc5 = if got.4 is None {
        acc4.note(soft4)
    } else {
        acc4
    };
    let soft5 = ErrMode::Backtrack(errors.5);
    let acc6 = if got.5 is None {
        acc5.note(soft5)
    } else {
        acc5
    };
    let soft6 = ErrMode::Backtrack(errors.6);
    let acc7 = if got.6 is None {
        acc6.note(soft6)
    } else {
        acc6
    };
    assert(perm7_end(ps, got, at, acc7, at, r));
    assert(stops_with(stops.6, soft6));
    assert(perm7_from_6(ps, got, at, acc6, at, r));
    assert(stops_with(stops.5, soft5));
    assert(perm7_from_5(ps, got, at, acc5, at, r));
    assert(stops_with(stops.4, soft4));
    assert(perm7_from_4(ps, got, at, acc4, at, r));
    assert(stops_with(stops.3, soft3));
    assert(perm7_from_3(ps, got, at, acc3, at, r));
    assert(stops_with(stops.2, soft2));
    assert(perm7_from_2(ps, got, at, acc2, at, r));
    assert(stops_with(stops.1, soft1));
    assert(perm7_from_1(ps, got, at, acc1, at, r));
    assert(stops_with(stops.0, soft0));
    assert(perm7_from_0(ps, got, at, acc0, at, r));
}

/// The outputs `o` of a permutation of 8 parsers are in the order of the
/// list: each is the output kept in `got` for its parser, or, where none is
/// kept, an output that its parser may yield somewhere.
pub open spec fn perm8_in_order<
    I, O1, O2, O3, O4, O5, O6, O7, O8, E, A1, A2, A3, A4, A5, A6, A7, A8,
>(
    ps: (A1, A2, A3, A4, A5, A6, A7, A8),
    got: (
        Option<O1>, Option<O2>, Option<O3>, Option<O4>, Option<O5>, Option<O6>, Option<O7>,
        Option<O8>,
    ),
    o: (O1, O2, O3, O4, O5, O6, O7, O8),
) -> bool where
    I: Stream,
    E: ParseError<I>,
    A1: Parser<I, O1, E>,
    A2: Parser<I, O2, E>,
    A3: Parser<I, O3, E>,
    A4: Parser<I, O4, E>,
    A5: Parser<I, O5, E>,
    A6: Parser<I, O6, E>,
    A7: Parser<I, O7, E>,
    A8: Parser<I, O8, E>,
{
    &&& match got.0 {
        Some(kept) => o.0 == kept,
        None => exists|c: I, d: I| #[trigger]
            stops_with(c, d) && ps.0.parses(c, d, Ok(o.0)),
    }
    &&& match got.1 {
        Some(kept) => o.1 == kept,
        None => exists|c: I, d: I| #[trigger]
            stops_with(c, d) && ps.1.parses(c, d, Ok(o.1)),
    }
    &&& match got.2 {
        Some(kept) => o.2 == kept,
        None => exists|c: I, d: I| #[trigger]
            stops_with(c, d) && ps.2.parses(c, d, Ok(o.2)),
    }
    &&& match got.3 {
        Some(kept) => o.3 == kept,
        None => exists|c: I, d: I| #[trigger]
            stops_with(c, d) && ps.3.parses(c, d, Ok(o.3)),
    }
    &&& match got.4 {
        Some(kept) => o.4 == kept,
        None => exists|c: I, d: I| #[trigger]
            stops_with(c, d) && ps.4.parses(c, d, Ok(o.4)),
    }
    &&& match got.5 {
        Some(kept) => o.5 == kept,
        None => exists|c: I, d: I| #[trigger]
            stops_with(c, d) && ps.5.parses(c, d, Ok(o.5)),
    }
    &&& match got.6 {
        Some(kept) => o.6 == kept,
        None => exists|c: I, d: I| #[trigger]
            stops_with(c, d) && ps.6.parses(c, d, Ok(o.6)),
    }
    &&& match got.7 {
        Some(kept) => o.7 == kept,
        None => exists|c: I, d: I| #[trigger]
            stops_with(c, d) && ps.7.parses(c, d, Ok(o.7)),
    }
}

/// Where a permutation of 8 parsers succeeds, seen from parser 0 of a round
/// on, its outputs are in the order of the list.
pub proof fn lemma_perm8_from_0_in_order<
    I, O1, O2, O3, O4, O5, O6, O7, O8, E, A1, A2, A3, A4, A5, A6, A7, A8,
>(
    ps: (A1, A2, A3, A4, A5, A6, A7, A8),
    got: (
        Option<O1>, Option<O2>, Option<O3>, Option<O4>, Option<O5>, Option<O6>, Option<O7>,
        Option<O8>,
    ),
    at: I,
    acc: RoundSoFar<E>,
    after: I,
    o: (O1, O2, O3, O4, O5, O6, O7, O8),
) where
    I: Stream,
    E: ParseError<I>,
    A1: Parser<I, O1, E>,
    A2: Parser<I, O2, E>,
    A3: Parser<I, O3, E>,
    A4: Parser<I, O4, E>,
    A5: Parser<I, O5, E>,
    A6: Parser<I, O6, E>,
    A7: Parser<I, O7, E>,
    A8: Parser<I, O8, E>,

    requires
        perm8_from_0(ps, got, at, acc, after, Ok(o)),
    ensures
        perm8_in_order(ps, got, o),
    decreases perm8_pending(got), 8nat,
{
    let r = Ok::<(O1, O2, O3, O4, O5, O6, O7, O8), ErrMode<E>>(o);
    if got.0 is Some {
        lemma_perm8_from_1_in_order(ps, got, at, acc, after, o);
    } else {
        if exists|next: I, v: O1| #[trigger]
            stops_with(next, v) && ps.0.parses(at, next, Ok(v)) && perm8_from_0(
                ps,
                (Some(v), got.1, got.2, got.3, got.4, got.5, got.6, got.7),
                next,
                RoundSoFar::fresh(),
                after,
                r,
            ) {
            let (next, v): (I, O1) = choose|next: I, v: O1| #[trigger]
                stops_with(next, v) && ps.0.parses(at, next, Ok(v)) && perm8_from_0(
                    ps,
                    (Some(v), got.1, got.2, got.3, got.4, got.5, got.6, got.7),
                    next,
                    RoundSoFar::fresh(),
                    after,
                    r,
                );
            let then = (Some(v), got.1, got.2, got.3, got.4, got.5, got.6, got.7);
            lemma_perm8_from_0_in_order(ps, then, next, RoundSoFar::fresh(), after, o);
            assert(stops_with(at, next));
        } else {
            let (stop, soft): (I, ErrMode<E>) = choose|stop: I, soft: ErrMode<E>|
                #[trigger]
                stops_with(stop, soft) && !(soft is Cut) && ps.0.parses(at, stop, Err(soft))
                    && perm8_from_1(ps, got, at, acc.note(soft), after, r);
            lemma_perm8_from_1_in_order(ps, got, at, acc.note(soft), after, o);
        }
    }
}

/// Where a permutation of 8 parsers succeeds, seen from parser 1 of a round
/// on, its outputs are in the order of the list.
pub proof fn lemma_perm8_from_1_in_order<
    I, O1, O2, O3, O4, O5, O6, O7, O8, E, A1, A2, A3, A4, A5, A6, A7, A8,
>(
    ps: (A1, A2, A3, A4, A5, A6, A7, A8),
    got: (
        Option<O1>, Option<O2>, Option<O3>, Option<O4>, Option<O5>, Option<O6>, Option<O7>,
        Option<O8>,
    ),
    at: I,
    acc: RoundSoFar<E>,
    after: I,
    o: (O1, O2, O3, O4, O5, O6, O7, O8),
) where
    I: Stream,
    E: ParseError<I>,
    A1: Parser<I, O1, E>,
    A2: Parser<I, O2, E>,
    A3: Parser<I, O3, E>,
    A4: Parser<I, O4, E>,
    A5: Parser<I, O5, E>,
    A6: Parser<I, O6, E>,
    A7: Parser<I, O7, E>,
    A8: Parser<I, O8, E>,

    requires
        perm8_from_1(ps, got, at, acc, after, Ok(o)),
    ensures
        perm8_in_order(ps, got, o),
    decreases perm8_pending(got), 7nat,
{
    let r = Ok::<(O1, O2, O3, O4, O5, O6, O7, O8), ErrMode<E>>(o);
    if got.1 is Some {
        lemma_perm8_from_2_in_order(ps, got, at, acc, after, o);
    } else {
        if exists|next: I, v: O2| #[trigger]
            stops_with(next, v) && ps.1.parses(at, next, Ok(v)) && perm8_from_0(
                ps,
                (got.0, Some(v), got.2, got.3, got.4, got.5, got.6, got.7),
                next,
                RoundSoFar::fresh(),
                after,
                r,
            ) {
            let (next, v): (I, O2) = choose|next: I, v: O2| #[trigger]
                stops_with(next, v) && ps.1.parses(at, next, Ok(v)) && perm8_from_0(
                    ps,
                    (got.0, Some(v), got.2, got.3, got.4, got.5, got.6, got.7),
                    next,
                    RoundSoFar::fresh(),
                    after,
                    r,
                );
            let then = (got.0, Some(v), got.2, got.3, got.4, got.5, got.6, got.7);
            lemma_perm8_from_0_in_order(ps, then, next, RoundSoFar::fresh(), after, o);
            assert(stops_with(at, next));
        } else {
            let (stop, soft): (I, ErrMode<E>) = choose|stop: I, soft: ErrMode<E>|
                #[trigger]
                stops_with(stop, soft) && !(soft is Cut) && ps.1.parses(at, stop, Err(soft))
                    && perm8_from_2(ps, got, at, acc.note(soft), after, r);
            lemma_perm8_from_2_in_order(ps, got, at, acc.note(soft), after, o);
        }
    }
}

/// Where a permutation of 8 parsers succeeds, seen from parser 2 of a round
/// on, its outputs are in the order of the list.
pub proof fn lemma_perm8_from_2_in_order<
    I, O1, O2, O3, O4, O5, O6, O7, O8, E, A1, A2, A3, A4, A5, A6, A7, A8,
>(
    ps: (A1, A2, A3, A4, A5, A6, A7, A8),
    got: (
        Option<O1>, Option<O2>, Option<O3>, Option<O4>, Option<O5>, Option<O6>, Option<O7>,
        Option<O8>,
    ),
    at: I,
    acc: RoundSoFar<E>,
    after: I,
    o: (O1, O2, O3, O4, O5, O6, O7, O8),
) where
    I: Stream,
    E: ParseError<I>,
    A1: Parser<I, O1, E>,
    A2: Parser<I, O2, E>,
    A3: Parser<I, O3, E>,
    A4: Parser<I, O4, E>,
    A5: Parser<I, O5, E>,
    A6: Parser<I, O6, E>,
    A7: Parser<I, O7, E>,
    A8: Parser<I, O8, E>,

    requires
        perm8_from_2(ps, got, at, acc, after, Ok(o)),
    ensures
        perm8_in_order(ps, got, o),
    decreases perm8_pending(got), 6nat,
{
    let r = Ok::<(O1, O2, O3, O4, O5, O6, O7, O8), ErrMode<E>>(o);
    if got.2 is Some {
        lemma_perm8_from_3_in_order(ps, got, at, acc, after, o);
    } else {
        if exists|next: I, v: O3| #[trigger]
            stops_with(next, v) && ps.2.parses(at, next, Ok(v)) && perm8_from_0(
                ps,
                (got.0, got.1, Some(v), got.3, got.4, got.5, got.6, got.7),
                next,
                RoundSoFar::fresh(),
                after,
                r,
            ) {
            let (next, v): (I, O3) = choose|next: I, v: O3| #[trigger]
                stops_with(next, v) && ps.2.parses(at, next, Ok(v)) && perm8_from_0(
                    ps,
                    (got.0, got.1, Some(v), got.3, got.4, got.5, got.6, got.7),
                    next,
                    RoundSoFar::fresh(),
                    after,
                    r,
                );
            let then = (got.0, got.1, Some(v), got.3, got.4, got.5, got.6, got.7);
            lemma_perm8_from_0_in_order(ps, then, next, RoundSoFar::fresh(), after, o);
            assert(stops_with(at, next));
        } else {
            let (stop, soft): (I, ErrMode<E>) = choose|stop: I, soft: ErrMode<E>|
                #[trigger]
                stops_with(stop, soft) && !(soft is Cut) && ps.2.parses(at, stop, Err(soft))
                    && perm8_from_3(ps, got, at, acc.note(soft), after, r);
            lemma_perm8_from_3_in_order(ps, got, at, acc.note(soft), after, o);
        }
    }
}

/// Where a permutation of 8 parsers succeeds, seen from parser 3 of a round
/// on, its outputs are in the order of the list.
pub proof fn lemma_perm8_from_3_in_order<
    I, O1, O2, O3, O4, O5, O6, O7, O8, E, A1, A2, A3, A4, A5, A6, A7, A8,
>(
    ps: (A1, A2, A3, A4, A5, A6, A7, A8),
    got: (
        Option<O1>, Option<O2>, Option<O3>, Option<O4>, Option<O5>, Option<O6>, Option<O7>,
        Option<O8>,
    ),
    at: I,
    acc: RoundSoFar<E>,
    after: I,
    o: (O1, O2, O3, O4, O5, O6, O7, O8),
) where
    I: Stream,
    E: ParseError<I>,
    A1: Parser<I, O1, E>,
    A2: Parser<I, O2, E>,
    A3: Parser<I, O3, E>,
    A4: Parser<I, O4, E>,
    A5: Parser<I, O5, E>,
    A6: Parser<I, O6, E>,
    A7: Parser<I, O7, E>,
    A8: Parser<I, O8, E>,

    requires
        perm8_from_3(ps, got, at, acc, after, Ok(o)),
    ensures
        perm8_in_order(ps, got, o),
    decreases perm8_pending(got), 5nat,
{
    let r = Ok::<(O1, O2, O3, O4, O5, O6, O7, O8), ErrMode<E>>(o);
    if got.3 is Some {
        lemma_perm8_from_4_in_order(ps, got, at, acc, after, o);
    } else {
        if exists|next: I, v: O4| #[trigger]
            stops_with(next, v) && ps.3.parses(at, next, Ok(v)) && perm8_from_0(
                ps,
                (got.0, got.1, got.2, Some(v), got.4, got.5, got.6, got.7),
                next,
                RoundSoFar::fresh(),
                after,
                r,
            ) {
            let (next, v): (I, O4) = choose|next: I, v: O4| #[trigger]
                stops_with(next, v) && ps.3.parses(at, next, Ok(v)) && perm8_from_0(
                    ps,
                    (got.0, got.1, got.2, Some(v), got.4, got.5, got.6, got.7),
                    next,
                    RoundSoFar::fresh(),
                    after,
                    r,
                );
            let then = (got.0, got.1, got.2, Some(v), got.4, got.5, got.6, got.7);
            lemma_perm8_from_0_in_order(ps, then, next, RoundSoFar::fresh(), after, o);
            assert(stops_with(at, next));
        } else {
            let (stop, soft): (I, ErrMode<E>) = choose|stop: I, soft: ErrMode<E>|
                #[trigger]
                stops_with(stop, soft) && !(soft is Cut) && ps.3.parses(at, stop, Err(soft))
                    && perm8_from_4(ps, got, at, acc.note(soft), after, r);
            lemma_perm8_from_4_in_order(ps, got, at, acc.note(soft), after, o);
        }
    }
}

/// Where a permutation of 8 parsers succeeds, seen from parser 4 of a round
/// on, its outputs are in the order of the list.
pub proof fn lemma_perm8_from_4_in_order<
    I, O1, O2, O3, O4, O5, O6, O7, O8, E, A1, A2, A3, A4, A5, A6, A7, A8,
>(
    ps: (A1, A2, A3, A4, A5, A6, A7, A8),
    got: (
        Option<O1>, Option<O2>, Option<O3>, Option<O4>, Option<O5>, Option<O6>, Option<O7>,
        Option<O8>,
    ),
    at: I,
    acc: RoundSoFar<E>,
    after: I,
    o: (O1, O2, O3, O4, O5, O6, O7, O8),
) where
    I: Stream,
    E: ParseError<I>,
    A1: Parser<I, O1, E>,
    A2: Parser<I, O2, E>,
    A3: Parser<I, O3, E>,
    A4: Parser<I, O4, E>,
    A5: Parser<I, O5, E>,
    A6: Parser<I, O6, E>,
    A7: Parser<I, O7, E>,
    A8: Parser<I, O8, E>,

    requires
        perm8_from_4(ps, got, at, acc, after, Ok(o)),
    ensures
        perm8_in_order(ps, got, o),
    decreases perm8_pending(got), 4nat,
{
    let r = Ok::<(O1, O2, O3, O4, O5, O6, O7, O8), ErrMode<E>>(o);
    if got.4 is Some {
        lemma_perm8_from_5_in_order(ps, got, at, acc, after, o);
    } else {
        if exists|next: I, v: O5| #[trigger]
            stops_with(next, v) && ps.4.parses(at, next, Ok(v)) && perm8_from_0(
                ps,
                (got.0, got.1, got.2, got.3, Some(v), got.5, got.6, got.7),
                next,
                RoundSoFar::fresh(),
                after,
                r,
            ) {
            let (next, v): (I, O5) = choose|next: I, v: O5| #[trigger]
                stops_with(next, v) && ps.4.parses(at, next, Ok(v)) && perm8_from_0(
                    ps,
                    (got.0, got.1, got.2, got.3, Some(v), got.5, got.6, got.7),
                    next,
                    RoundSoFar::fresh(),
                    after,
                    r,
                );
            let then = (got.0, got.1, got.2, got.3, Some(v), got.5, got.6, got.7);
            lemma_perm8_from_0_in_order(ps, then, next, RoundSoFar::fresh(), after, o);
            assert(stops_with(at, next));
        } else {
            let (stop, soft): (I, ErrMode<E>) = choose|stop: I, soft: ErrMode<E>|
                #[trigger]
                stops_with(stop, soft) && !(soft is Cut) && ps.4.parses(at, stop, Err(soft))
                    && perm8_from_5(ps, got, at, acc.note(soft), after, r);
            lemma_perm8_from_5_in_order(ps, got, at, acc.note(soft), after, o);
        }
    }
}

/// Where a permutation of 8 parsers succeeds, seen from parser 5 of a round
/// on, its outputs are in the order of the list.
pub proof fn lemma_perm8_from_5_in_order<
    I, O1, O2, O3, O4, O5, O6, O7, O8, E, A1, A2, A3, A4, A5, A6, A7, A8,
>(
    ps: (A1, A2, A3, A4, A5, A6, A7, A8),
    got: (
        Option<O1>, Option<O2>, Option<O3>, Option<O4>, Option<O5>, Option<O6>, Option<O7>,
        Option<O8>,
    ),
    at: I,
    acc: RoundSoFar<E>,
    after: I,
    o: (O1, O2, O3, O4, O5, O6, O7, O8),
) where
    I: Stream,
    E: ParseError<I>,
    A1: Parser<I, O1, E>,
    A2: Parser<I, O2, E>,
    A3: Parser<I, O3, E>,
    A4: Parser<I, O4, E>,
    A5: Parser<I, O5, E>,
    A6: Parser<I, O6, E>,
    A7: Parser<I, O7, E>,
    A8: Parser<I, O8, E>,

    requires
        perm8_from_5(ps, got, at, acc, after, Ok(o)),
    ensures
        perm8_in_order(ps, got, o),
    decreases perm8_pending(got), 3nat,
{
    let r = Ok::<(O1, O2, O3, O4, O5, O6, O7, O8), ErrMode<E>>(o);
    if got.5 is Some {
        lemma_perm8_from_6_in_order(ps, got, at, acc, after, o);
    } else {
        if exists|next: I, v: O6| #[trigger]
            stops_with(next, v) && ps.5.parses(at, next, Ok(v)) && perm8_from_0(
                ps,
                (got.0, got.1, got.2, got.3, got.4, Some(v), got.6, got.7),
                next,
                RoundSoFar::fresh(),
                after,
                r,
            ) {
            let (next, v): (I, O6) = choose|next: I, v: O6| #[trigger]
                stops_with(next, v) && ps.5.parses(at, next, Ok(v)) && perm8_from_0(
                    ps,
                    (got.0, got.1, got.2, got.3, got.4, Some(v), got.6, got.7),
                    next,
                    RoundSoFar::fresh(),
                    after,
                    r,
                );
            let then = (got.0, got.1, got.2, got.3, got.4, Some(v), got.6, got.7);
            lemma_perm8_from_0_in_order(ps, then, next, RoundSoFar::fresh(), after, o);
            assert(stops_with(at, next));
        } else {
            let (stop, soft): (I, ErrMode<E>) = choose|stop: I, soft: ErrMode<E>|
                #[trigger]
                stops_with(stop, soft) && !(soft is Cut) && ps.5.parses(at, stop, Err(soft))
                    && perm8_from_6(ps, got, at, acc.note(soft), after, r);
            lemma_perm8_from_6_in_order(ps, got, at, acc.note(soft), after, o);
        }
    }
}

/// Where a permutation of 8 parsers succeeds, seen from parser 6 of a round
/// on, its outputs are in the order of the list.
pub proof fn lemma_perm8_from_6_in_order<
    I, O1, O2, O3, O4, O5, O6, O7, O8, E, A1, A2, A3, A4, A5, A6, A7, A8,
>(
    ps: (A1, A2, A3, A4, A5, A6, A7, A8),
    got: (
        Option<O1>, Option<O2>, Option<O3>, Option<O4>, Option<O5>, Option<O6>, Option<O7>,
        Option<O8>,
    ),
    at: I,
    acc: RoundSoFar<E>,
    after: I,
    o: (O1, O2, O3, O4, O5, O6, O7, O8),
) where
    I: Stream,
    E: ParseError<I>,
    A1: Parser<I, O1, E>,
    A2: Parser<I, O2, E>,
    A3: Parser<I, O3, E>,
    A4: Parser<I, O4, E>,
    A5: Parser<I, O5, E>,
    A6: Parser<I, O6, E>,
    A7: Parser<I, O7, E>,
    A8: Parser<I, O8, E>,

    requires
        perm8_from_6(ps, got, at, acc, after, Ok(o)),
    ensures
        perm8_in_order(ps, got, o),
    decreases perm8_pending(got), 2nat,
{
    let r = Ok::<(O1, O2, O3, O4, O5, O6, O7, O8), ErrMode<E>>(o);
    if got.6 is Some {
        lemma_perm8_from_7_in_order(ps, got, at, acc, after, o);
    } else {
        if exists|next: I, v: O7| #[trigger]
            stops_with(next, v) && ps.6.parses(at, next, Ok(v)) && perm8_from_0(
                ps,
                (got.0, got.1, got.2, got.3, got.4, got.5, Some(v), got.7),
                next,
                RoundSoFar::fresh(),
                after,
                r,
            ) {
            let (next, v): (I, O7) = choose|next: I, v: O7| #[trigger]
                stops_with(next, v) && ps.6.parses(at, next, Ok(v)) && perm8_from_0(
                    ps,
                    (got.0, got.1, got.2, got.3, got.4, got.5, Some(v), got.7),
                    next,
                    RoundSoFar::fresh(),
                    after,
                    r,
                );
            let then = (got.0, got.1, got.2, got.3, got.4, got.5, Some(v), got.7);
            lemma_perm8_from_0_in_order(ps, then, next, RoundSoFar::fresh(), after, o);
            assert(stops_with(at, next));
        } else {
            let (stop, soft): (I, ErrMode<E>) = choose|stop: I, soft: ErrMode<E>|
                #[trigger]
                stops_with(stop, soft) && !(soft is Cut) && ps.6.parses(at, stop, Err(soft))
                    && perm8_from_7(ps, got, at, acc.note(soft), after, r);
            lemma_perm8_from_7_in_order(ps, got, at, acc.note(soft), after, o);
        }
    }
}

/// Where a permutation of 8 parsers succeeds, seen from parser 7 of a round
/// on, its outputs are in the order of the list.
pub proof fn lemma_perm8_from_7_in_order<
    I, O1, O2, O3, O4, O5, O6, O7, O8, E, A1, A2, A3, A4, A5, A6, A7, A8,
>(
    ps: (A1, A2, A3, A4, A5, A6, A7, A8),
    got: (
        Option<O1>, Option<O2>, Option<O3>, Option<O4>, Option<O5>, Option<O6>, Option<O7>,
        Option<O8>,
    ),
    at: I,
    acc: RoundSoFar<E>,
    after: I,
    o: (O1, O2, O3, O4, O5, O6, O7, O8),
) where
    I: Stream,
    E: ParseError<I>,
    A1: Parser<I, O1, E>,
    A2: Parser<I, O2, E>,
    A3: Parser<I, O3, E>,
    A4: Parser<I, O4, E>,
    A5: Parser<I, O5, E>,
    A6: Parser<I, O6, E>,
    A7: Parser<I, O7, E>,
    A8: Parser<I, O8, E>,

    requires
        perm8_from_7(ps, got, at, acc, after, Ok(o)),
    ensures
        perm8_in_order(ps, got, o),
    decreases perm8_pending(got), 1nat,
{
    let r = Ok::<(O1, O2, O3, O4, O5, O6, O7, O8), ErrMode<E>>(o);
    if got.7 is Some {
        lemma_perm8_end_in_order(ps, got, at, acc, after, o);
    } else {
        if exists|next: I, v: O8| #[trigger]
            stops_with(next, v) && ps.7.parses(at, next, Ok(v)) && perm8_from_0(
                ps,
                (got.0, got.1, got.2, got.3, got.4, got.5, got.6, Some(v)),
                next,
                RoundSoFar::fresh(),
                after,
                r,
            ) {
            let (next, v): (I, O8) = choose|next: I, v: O8| #[trigger]
                stops_with(next, v) && ps.7.parses(at, next, Ok(v)) && perm8_from_0(
                    ps,
                    (got.0, got.1, got.2, got.3, got.4, got.5, got.6, Some(v)),
                    next,
                    RoundSoFar::fresh(),
                    after,
                    r,
                );
            let then = (got.0, got.1, got.2, got.3, got.4, got.5, got.6, Some(v));
            lemma_perm8_from_0_in_order(ps, then, next, RoundSoFar::fresh(), after, o);
            assert(stops_with(at, next));
        } else {
            let (stop, soft): (I, ErrMode<E>) = choose|stop: I, soft: ErrMode<E>|
                #[trigger]
                stops_with(stop, soft) && !(soft is Cut) && ps.7.parses(at, stop, Err(soft))
                    && perm8_end(ps, got, at, acc.note(soft), after, r);
            lemma_perm8_end_in_order(ps, got, at, acc.note(soft), after, o);
        }
    }
}

/// Where a permutation of 8 parsers succeeds at the end of a round, its
/// outputs are in the order of the list.
pub proof fn lemma_perm8_end_in_order<
    I, O1, O2, O3, O4, O5, O6, O7, O8, E, A1, A2, A3, A4, A5, A6, A7, A8,
>(
    ps: (A1, A2, A3, A4, A5, A6, A7, A8),
    got: (
        Option<O1>, Option<O2>, Option<O3>, Option<O4>, Option<O5>, Option<O6>, Option<O7>,
        Option<O8>,
    ),
    at: I,
    acc: RoundSoFar<E>,
    after: I,
    o: (O1, O2, O3, O4, O5, O6, O7, O8),
) where
    I: Stream,
    E: ParseError<I>,
    A1: Parser<I, O1, E>,
    A2: Parser<I, O2, E>,
    A3: Parser<I, O3, E>,
    A4: Parser<I, O4, E>,
    A5: Parser<I, O5, E>,
    A6: Parser<I, O6, E>,
    A7: Parser<I, O7, E>,
    A8: Parser<I, O8, E>,

    requires
        perm8_end(ps, got, at, acc, after, Ok(o)),
    ensures
        perm8_in_order(ps, got, o),
    decreases perm8_pending(got), 0nat,
{
}

/// A permutation of 8 parsers yields its outputs in the order of the list,
/// whatever the order in which the parsers matched: each output is one that
/// the parser at its place in the list may yield.
pub proof fn lemma_perm8_outputs_in_order<
    I, O1, O2, O3, O4, O5, O6, O7, O8, E, A1, A2, A3, A4, A5, A6, A7, A8,
>(
    ps: (A1, A2, A3, A4, A5, A6, A7, A8),
    before: I,
    after: I,
    o: (O1, O2, O3, O4, O5, O6, O7, O8),
) where
    I: Stream,
    E: ParseError<I>,
    A1: Parser<I, O1, E>,
    A2: Parser<I, O2, E>,
    A3: Parser<I, O3, E>,
    A4: Parser<I, O4, E>,
    A5: Parser<I, O5, E>,
    A6: Parser<I, O6, E>,
    A7: Parser<I, O7, E>,
    A8: Parser<I, O8, E>,

    requires
        Permuted::of(ps).parses(before, after, Ok(o)),
    ensures
        exists|c: I, d: I| #[trigger] stops_with(c, d) && ps.0.parses(c, d, Ok(o.0)),
        exists|c: I, d: I| #[trigger] stops_with(c, d) && ps.1.parses(c, d, Ok(o.1)),
        exists|c: I, d: I| #[trigger] stops_with(c, d) && ps.2.parses(c, d, Ok(o.2)),
        exists|c: I, d: I| #[trigger] stops_with(c, d) && ps.3.parses(c, d, Ok(o.3)),
        exists|c: I, d: I| #[trigger] stops_with(c, d) && ps.4.parses(c, d, Ok(o.4)),
        exists|c: I, d: I| #[trigger] stops_with(c, d) && ps.5.parses(c, d, Ok(o.5)),
        exists|c: I, d: I| #[trigger] stops_with(c, d) && ps.6.parses(c, d, Ok(o.6)),
        exists|c: I, d: I| #[trigger] stops_with(c, d) && ps.7.parses(c, d, Ok(o.7)),
{
    let none = (
        None::<O1>, None::<O2>, None::<O3>, None::<O4>, None::<O5>, None::<O6>, None::<O7>,
        None::<O8>,
    );
    lemma_perm8_from_0_in_order(ps, none, before, RoundSoFar::fresh(), after, o);
}

/// A permutation of 8 parsers that have all matched yields their outputs, in
/// the order of the list, and leaves the cursor where it is.
pub proof fn lemma_perm8_done<I, O1, O2, O3, O4, O5, O6, O7, O8, E, A1, A2, A3, A4, A5, A6, A7, A8>(
    ps: (A1, A2, A3, A4, A5, A6, A7, A8),
    at: I,
    o: (O1, O2, O3, O4, O5, O6, O7, O8),
) where
    I: Stream,
    E: ParseError<I>,
    A1: Parser<I, O1, E>,
    A2: Parser<I, O2, E>,
    A3: Parser<I, O3, E>,
    A4: Parser<I, O4, E>,
    A5: Parser<I, O5, E>,
    A6: Parser<I, O6, E>,
    A7: Parser<I, O7, E>,
    A8: Parser<I, O8, E>,

    ensures
        perm8_from_0(
            ps,
            (
                Some(o.0), Some(o.1), Some(o.2), Some(o.3), Some(o.4), Some(o.5), Some(o.6),
                Some(o.7),
            ),
            at,
            RoundSoFar::fresh(),
            at,
            Ok(o),
        ),
{
    let all = (
        Some(o.0), Some(o.1), Some(o.2), Some(o.3), Some(o.4), Some(o.5), Some(o.6), Some(o.7),
    );
    let r = Ok::<(O1, O2, O3, O4, O5, O6, O7, O8), ErrMode<E>>(o);
    let fresh = RoundSoFar::<E>::fresh();
    assert(perm8_end(ps, all, at, fresh, at, r));
    assert(perm8_from_7(ps, all, at, fresh, at, r));
    assert(perm8_from_6(ps, all, at, fresh, at, r));
    assert(perm8_from_5(ps, all, at, fresh, at, r));
    assert(perm8_from_4(ps, all, at, fresh, at, r));
    assert(perm8_from_3(ps, all, at, fresh, at, r));
    assert(perm8_from_2(ps, all, at, fresh, at, r));
    assert(perm8_from_1(ps, all, at, fresh, at, r));
    assert(perm8_from_0(ps, all, at, fresh, at, r));
}

/// One round of a permutation of 8 parsers in which parser 0 matches: where
/// every parser before it in the list that has not matched yet fails softly
/// at the start of the round, and it succeeds there, the permutation goes on
/// with its output kept, from where it stopped.
pub proof fn lemma_perm8_round_0<
    I, O1, O2, O3, O4, O5, O6, O7, O8, E, A1, A2, A3, A4, A5, A6, A7, A8,
>(
    ps: (A1, A2, A3, A4, A5, A6, A7, A8),
    got: (
        Option<O1>, Option<O2>, Option<O3>, Option<O4>, Option<O5>, Option<O6>, Option<O7>,
        Option<O8>,
    ),
    at: I,
    next: I,
    v: O1,
    after: I,
    r: PResult<(O1, O2, O3, O4, O5, O6, O7, O8), E>,
) where
    I: Stream,
    E: ParseError<I>,
    A1: Parser<I, O1, E>,
    A2: Parser<I, O2, E>,
    A3: Parser<I, O3, E>,
    A4: Parser<I, O4, E>,
    A5: Parser<I, O5, E>,
    A6: Parser<I, O6, E>,
    A7: Parser<I, O7, E>,
    A8: Parser<I, O8, E>,

    requires
        got.0 is None,
        ps.0.parses(at, next, Ok(v)),
        perm8_from_0(
            ps,
            (Some(v), got.1, got.2, got.3, got.4, got.5, got.6, got.7),
            next,
            RoundSoFar::fresh(),
            after,
            r,
        ),
    ensures
        perm8_from_0(ps, got, at, RoundSoFar::fresh(), after, r),
{
    let acc0 = RoundSoFar::<E>::fresh();
    assert(stops_with(next, v));
    assert(perm8_from_0(ps, got, at, acc0, after, r));
}

/// One round of a permutation of 8 parsers in which parser 1 matches: where
/// every parser before it in the list that has not matched yet fails softly
/// at the start of the round, and it succeeds there, the permutation goes on
/// with its output kept, from where it stopped.
pub proof fn lemma_perm8_round_1<
    I, O1, O2, O3, O4, O5, O6, O7, O8, E, A1, A2, A3, A4, A5, A6, A7, A8,
>(
    ps: (A1, A2, A3, A4, A5, A6, A7, A8),
    got: (
        Option<O1>, Option<O2>, Option<O3>, Option<O4>, Option<O5>, Option<O6>, Option<O7>,
        Option<O8>,
    ),
    at: I,
    next: I,
    v: O2,
    after: I,
    r: PResult<(O1, O2, O3, O4, O5, O6, O7, O8), E>,
) where
    I: Stream,
    E: ParseError<I>,
    A1: Parser<I, O1, E>,
    A2: Parser<I, O2, E>,
    A3: Parser<I, O3, E>,
    A4: Parser<I, O4, E>,
    A5: Parser<I, O5, E>,
    A6: Parser<I, O6, E>,
    A7: Parser<I, O7, E>,
    A8: Parser<I, O8, E>,

    requires
        got.0 is None ==> fails_softly(ps.0, at),
        got.1 is None,
        ps.1.parses(at, next, Ok(v)),
        perm8_from_0(
            ps,
            (got.0, Some(v), got.2, got.3, got.4, got.5, got.6, got.7),
            next,
            RoundSoFar::fresh(),
            after,
            r,
        ),
    ensures
        perm8_from_0(ps, got, at, RoundSoFar::fresh(), after, r),
{
    let acc0 = RoundSoFar::<E>::fresh();
    let (stop0, soft0): (I, ErrMode<E>) = choose|stop: I, soft: ErrMode<E>| #[trigger]
        stops_with(stop, soft) && !(soft is Cut) && ps.0.parses(at, stop, Err(soft));
    let acc1 = if got.0 is None {
        acc0.note(soft0)
    } else {
        acc0
    };
    assert(stops_with(next, v));
    assert(perm8_from_1(ps, got, at, acc1, after, r));
    assert(stops_with(stop0, soft0));
    assert(perm8_from_0(ps, got, at, acc0, after, r));
}

/// One round of a permutation of 8 parsers in which parser 2 matches: where
/// every parser before it in the list that has not matched yet fails softly
/// at the start of the round, and it succeeds there, the permutation goes on
/// with its output kept, from where it stopped.
pub proof fn lemma_perm8_round_2<
    I, O1, O2, O3, O4, O5, O6, O7, O8, E, A1, A2, A3, A4, A5, A6, A7, A8,
>(
    ps: (A1, A2, A3, A4, A5, A6, A7, A8),
    got: (
        Option<O1>, Option<O2>, Option<O3>, Option<O4>, Option<O5>, Option<O6>, Option<O7>,
        Option<O8>,
    ),
    at: I,
    next: I,
    v: O3,
    after: I,
    r: PResult<(O1, O2, O3, O4, O5, O6, O7, O8), E>,
) where
    I: Stream,
    E: ParseError<I>,
    A1: Parser<I, O1, E>,
    A2: Parser<I, O2, E>,
    A3: Parser<I, O3, E>,
    A4: Parser<I, O4, E>,
    A5: Parser<I, O5, E>,
    A6: Parser<I, O6, E>,
    A7: Parser<I, O7, E>,
    A8: Parser<I, O8, E>,

    requires
        got.0 is None ==> fails_softly(ps.0, at),
        got.1 is None ==> fails_softly(ps.1, at),
        got.2 is None,
        ps.2.parses(at, next, Ok(v)),
        perm8_from_0(
            ps,
            (got.0, got.1, Some(v), got.3, got.4, got.5, got.6, got.7),
            next,
            RoundSoFar::fresh(),
            after,
            r,
        ),
    ensures
        perm8_from_0(ps, got, at, RoundSoFar::fresh(), after, r),
{
    let acc0 = RoundSoFar::<E>::fresh();
    let (stop0, soft0): (I, ErrMode<E>) = choose|stop: I, soft: ErrMode<E>| #[trigger]
        stops_with(stop, soft) && !(soft is Cut) && ps.0.parses(at, stop, Err(soft));
    let acc1 = if got.0 is None {
        acc0.note(soft0)
    } else {
        acc0
    };
    let (stop1, soft1): (I, ErrMode<E>) = choose|stop: I, soft: ErrMode<E>| #[trigger]
        stops_with(stop, soft) && !(soft is Cut) && ps.1.parses(at, stop, Err(soft));
    let acc2 = if got.1 is None {
        acc1.note(soft1)
    } else {
        acc1
    };
    assert(stops_with(next, v));
    assert(perm8_from_2(ps, got, at, acc2, after, r));
    assert(stops_with(stop1, soft1));
    assert(perm8_from_1(ps, got, at, acc1, after, r));
    assert(stops_with(stop0, soft0));
    assert(perm8_from_0(ps, got, at, acc0, after, r));
}

/// One round of a permutation of 8 parsers in which parser 3 matches: where
/// every parser before it in the list that has not matched yet fails softly
/// at the start of the round, and it succeeds there, the permutation goes on
/// with its output kept, from where it stopped.
pub proof fn lemma_perm8_round_3<
    I, O1, O2, O3, O4, O5, O6, O7, O8, E, A1, A2, A3, A4, A5, A6, A7, A8,
>(
    ps: (A1, A2, A3, A4, A5, A6, A7, A8),
    got: (
        Option<O1>, Option<O2>, Option<O3>, Option<O4>, Option<O5>, Option<O6>, Option<O7>,
        Option<O8>,
    ),
    at: I,
    next: I,
    v: O4,
    after: I,
    r: PResult<(O1, O2, O3, O4, O5, O6, O7, O8), E>,
) where
    I: Stream,
    E: ParseError<I>,
    A1: Parser<I, O1, E>,
    A2: Parser<I, O2, E>,
    A3: Parser<I, O3, E>,
    A4: Parser<I, O4, E>,
    A5: Parser<I, O5, E>,
    A6: Parser<I, O6, E>,
    A7: Parser<I, O7, E>,
    A8: Parser<I, O8, E>,

    requires
        got.0 is None ==> fails_softly(ps.0, at),
        got.1 is None ==> fails_softly(ps.1, at),
        got.2 is None ==> fails_softly(ps.2, at),
        got.3 is None,
        ps.3.parses(at, next, Ok(v)),
        perm8_from_0(
            ps,
            (got.0, got.1, got.2, Some(v), got.4, got.5, got.6, got.7),
            next,
            RoundSoFar::fresh(),
            after,
            r,
        ),
    ensures
        perm8_from_0(ps, got, at, RoundSoFar::fresh(), after, r),
{
    let acc0 = RoundSoFar::<E>::fresh();
    let (stop0, soft0): (I, ErrMode<E>) = choose|stop: I, soft: ErrMode<E>| #[trigger]
        stops_with(stop, soft) && !(soft is Cut) && ps.0.parses(at, stop, Err(soft));
    let acc1 = if got.0 is None {
        acc0.note(soft0)
    } else {
        acc0
    };
    let (stop1, soft1): (I, ErrMode<E>) = choose|stop: I, soft: ErrMode<E>| #[trigger]
        stops_with(stop, soft) && !(soft is Cut) && ps.1.parses(at, stop, Err(soft));
    let acc2 = if got.1 is None {
        acc1.note(soft1)
    } else {
        acc1
    };
    let (stop2, soft2): (I, ErrMode<E>) = choose|stop: I, soft: ErrMode<E>| #[trigger]
        stops_with(stop, soft) && !(soft is Cut) && ps.2.parses(at, stop, Err(soft));
    let acc3 = if got.2 is None {
        acc2.note(soft2)
    } else {
        acc2
    };
    assert(stops_with(next, v));
    assert(perm8_from_3(ps, got, at, acc3, after, r));
    assert(stops_with(stop2, soft2));
    assert(perm8_from_2(ps, got, at, acc2, after, r));
    assert(stops_with(stop1, soft1));
    assert(perm8_from_1(ps, got, at, acc1, after, r));
    assert(stops_with(stop0, soft0));
    assert(perm8_from_0(ps, got, at, acc0, after, r));
}

/// One round of a permutation of 8 parsers in which parser 4 matches: where
/// every parser before it in the list that has not matched yet fails softly
/// at the start of the round, and it succeeds there, the permutation goes on
/// with its output kept, from where it stopped.
pub proof fn lemma_perm8_round_4<
    I, O1, O2, O3, O4, O5, O6, O7, O8, E, A1, A2, A3, A4, A5, A6, A7, A8,
>(
    ps: (A1, A2, A3, A4, A5, A6, A7, A8),
    got: (
        Option<O1>, Option<O2>, Option<O3>, Option<O4>, Option<O5>, Option<O6>, Option<O7>,
        Option<O8>,
    ),
    at: I,
    next: I,
    v: O5,
    after: I,
    r: PResult<(O1, O2, O3, O4, O5, O6, O7, O8), E>,
) where
    I: Stream,
    E: ParseError<I>,
    A1: Parser<I, O1, E>,
    A2: Parser<I, O2, E>,
    A3: Parser<I, O3, E>,
    A4: Parser<I, O4, E>,
    A5: Parser<I, O5, E>,
    A6: Parser<I, O6, E>,
    A7: Parser<I, O7, E>,
    A8: Parser<I, O8, E>,

    requires
        got.0 is None ==> fails_softly(ps.0, at),
        got.1 is None ==> fails_softly(ps.1, at),
        got.2 is None ==> fails_softly(ps.2, at),
        got.3 is None ==> fails_softly(ps.3, at),
        got.4 is None,
        ps.4.parses(at, next, Ok(v)),
        perm8_from_0(
            ps,
            (got.0, got.1, got.2, got.3, Some(v), got.5, got.6, got.7),
            next,
            RoundSoFar::fresh(),
            after,
            r,
        ),
    ensures
        perm8_from_0(ps, got, at, RoundSoFar::fresh(), after, r),
{
    let acc0 = RoundSoFar::<E>::fresh();
    let (stop0, soft0): (I, ErrMode<E>) = choose|stop: I, soft: ErrMode<E>| #[trigger]
        stops_with(stop, soft) && !(soft is Cut) && ps.0.parses(at, stop, Err(soft));
    let acc1 = if got.0 is None {
        acc0.note(soft0)
    } else {
        acc0
    };
    let (stop1, soft1): (I, ErrMode<E>) = choose|stop: I, soft: ErrMode<E>| #[trigger]
        stops_with(stop, soft) && !(soft is Cut) && ps.1.parses(at, stop, Err(soft));
    let acc2 = if got.1 is None {
        acc1.note(soft1)
    } else {
        acc1
    };
    let (stop2, soft2): (I, ErrMode<E>) = choose|stop: I, soft: ErrMode<E>| #[trigger]
        stops_with(stop, soft) && !(soft is Cut) && ps.2.parses(at, stop, Err(soft));
    let acc3 = if got.2 is None {
        acc2.note(soft2)
    } else {
        acc2
    };
    let (stop3, soft3): (I, ErrMode<E>) = choose|stop: I, soft: ErrMode<E>| #[trigger]
        stops_with(stop, soft) && !(soft is Cut) && ps.3.parses(at, stop, Err(soft));
    let acc4 = if got.3 is None {
        acc3.note(soft3)
    } else {
        acc3
    };
    assert(stops_with(next, v));
    assert(perm8_from_4(ps, got, at, acc4, after, r));
    assert(stops_with(stop3, soft3));
    assert(perm8_from_3(ps, got, at, acc3, after, r));
    assert(stops_with(stop2, soft2));
    assert(perm8_from_2(ps, got, at, acc2, after, r));
    assert(stops_with(stop1, soft1));
    assert(perm8_from_1(ps, got, at, acc1, after, r));
    assert(stops_with(stop0, soft0));
    assert(perm8_from_0(ps, got, at, acc0, after, r));
}

/// One round of a permutation of 8 parsers in which parser 5 matches: where
/// every parser before it in the list that has not matched yet fails softly
/// at the start of the round, and it succeeds there, the permutation goes on
/// with its output kept, from where it stopped.
pub proof fn lemma_perm8_round_5<
    I, O1, O2, O3, O4, O5, O6, O7, O8, E, A1, A2, A3, A4, A5, A6, A7, A8,
>(
    ps: (A1, A2, A3, A4, A5, A6, A7, A8),
    got: (
        Option<O1>, Option<O2>, Option<O3>, Option<O4>, Option<O5>, Option<O6>, Option<O7>,
        Option<O8>,
    ),
    at: I,
    next: I,
    v: O6,
    after: I,
    r: PResult<(O1, O2, O3, O4, O5, O6, O7, O8), E>,
) where
    I: Stream,
    E: ParseError<I>,
    A1: Parser<I, O1, E>,
    A2: Parser<I, O2, E>,
    A3: Parser<I, O3, E>,
    A4: Parser<I, O4, E>,
    A5: Parser<I, O5, E>,
    A6: Parser<I, O6, E>,
    A7: Parser<I, O7, E>,
    A8: Parser<I, O8, E>,

    requires
        got.0 is None ==> fails_softly(ps.0, at),
        got.1 is None ==> fails_softly(ps.1, at),
        got.2 is None ==> fails_softly(ps.2, at),
        got.3 is None ==> fails_softly(ps.3, at),
        got.4 is None ==> fails_softly(ps.4, at),
        got.5 is None,
        ps.5.parses(at, next, Ok(v)),
        perm8_from_0(
            ps,
            (got.0, got.1, got.2, got.3, got.4, Some(v), got.6, got.7),
            next,
            RoundSoFar::fresh(),
            after,
            r,
        ),
    ensures
        perm8_from_0(ps, got, at, RoundSoFar::fresh(), after, r),
{
    let acc0 = RoundSoFar::<E>::fresh();
    let (stop0, soft0): (I, ErrMode<E>) = choose|stop: I, soft: ErrMode<E>| #[trigger]
        stops_with(stop, soft) && !(soft is Cut) && ps.0.parses(at, stop, Err(soft));
    let acc1 = if got.0 is None {
        acc0.note(soft0)
    } else {
        acc0
    };
    let (stop1, soft1): (I, ErrMode<E>) = choose|stop: I, soft: ErrMode<E>| #[trigger]
        stops_with(stop, soft) && !(soft is Cut) && ps.1.parses(at, stop, Err(soft));
    let acc2 = if got.1 is None {
        acc1.note(soft1)
    } else {
        acc1
    };
    let (stop2, soft2): (I, ErrMode<E>) = choose|stop: I, soft: ErrMode<E>| #[trigger]
        stops_with(stop, soft) && !(soft is Cut) && ps.2.parses(at, stop, Err(soft));
    let acc3 = if got.2 is None {
        acc2.note(soft2)
    } else {
        acc2
    };
    let (stop3, soft3): (I, ErrMode<E>) = choose|stop: I, soft: ErrMode<E>| #[trigger]
        stops_with(stop, soft) && !(soft is Cut) && ps.3.parses(at, stop, Err(soft));
    let acc4 = if got.3 is None {
        acc3.note(soft3)
    } else {
        acc3
    };
    let (stop4, soft4): (I, ErrMode<E>) = choose|stop: I, soft: ErrMode<E>| #[trigger]
        stops_with(stop, soft) && !(soft is Cut) && ps.4.parses(at, stop, Err(soft));
    let acc5 = if got.4 is None {
        acc4.note(soft4)
    } else {
        acc4
    };
    assert(stops_with(next, v));
    assert(perm8_from_5(ps, got, at, acc5, after, r));
    assert(stops_with(stop4, soft4));
    assert(perm8_from_4(ps, got, at, acc4, after, r));
    assert(stops_with(stop3, soft3));
    assert(perm8_from_3(ps, got, at, acc3, after, r));
    assert(stops_with(stop2, soft2));
    assert(perm8_from_2(ps, got, at, acc2, after, r));
    assert(stops_with(stop1, soft1));
    assert(perm8_from_1(ps, got, at, acc1, after, r));
    assert(stops_with(stop0, soft0));
    assert(perm8_from_0(ps, got, at, acc0, after, r));
}

/// One round of a permutation of 8 parsers in which parser 6 matches: where
/// every parser before it in the list that has not matched yet fails softly
/// at the start of the round, and it succeeds there, the permutation goes on
/// with its output kept, from where it stopped.
pub proof fn lemma_perm8_round_6<
    I, O1, O2, O3, O4, O5, O6, O7, O8, E, A1, A2, A3, A4, A5, A6, A7, A8,
>(
    ps: (A1, A2, A3, A4, A5, A6, A7, A8),
    got: (
        Option<O1>, Option<O2>, Option<O3>, Option<O4>, Option<O5>, Option<O6>, Option<O7>,
        Option<O8>,
    ),
    at: I,
    next: I,
    v: O7,
    after: I,
    r: PResult<(O1, O2, O3, O4, O5, O6, O7, O8), E>,
) where
    I: Stream,
    E: ParseError<I>,
    A1: Parser<I, O1, E>,
    A2: Parser<I, O2, E>,
    A3: Parser<I, O3, E>,
    A4: Parser<I, O4, E>,
    A5: Parser<I, O5, E>,
    A6: Parser<I, O6, E>,
    A7: Parser<I, O7, E>,
    A8: Parser<I, O8, E>,

    requires
        got.0 is None ==> fails_softly(ps.0, at),
        got.1 is None ==> fails_softly(ps.1, at),
        got.2 is None ==> fails_softly(ps.2, at),
        got.3 is None ==> fails_softly(ps.3, at),
        got.4 is None ==> fails_softly(ps.4, at),
        got.5 is None ==> fails_softly(ps.5, at),
        got.6 is None,
        ps.6.parses(at, next, Ok(v)),
        perm8_from_0(
            ps,
            (got.0, got.1, got.2, got.3, got.4, got.5, Some(v), got.7),
            next,
            RoundSoFar::fresh(),
            after,
            r,
        ),
    ensures
        perm8_from_0(ps, got, at, RoundSoFar::fresh(), after, r),
{
    let acc0 = RoundSoFar::<E>::fresh();
    let (stop0, soft0): (I, ErrMode<E>) = choose|stop: I, soft: ErrMode<E>| #[trigger]
        stops_with(stop, soft) && !(soft is Cut) && ps.0.parses(at, stop, Err(soft));
    let acc1 = if got.0 is None {
        acc0.note(soft0)
    } else {
        acc0
    };
    let (stop1, soft1): (I, ErrMode<E>) = choose|stop: I, soft: ErrMode<E>| #[trigger]
        stops_with(stop, soft) && !(soft is Cut) && ps.1.parses(at, stop, Err(soft));
    let acc2 = if got.1 is None {
        acc1.note(soft1)
    } else {
        acc1
    };
    let (stop2, soft2): (I, ErrMode<E>) = choose|stop: I, soft: ErrMode<E>| #[trigger]
        stops_with(stop, soft) && !(soft is Cut) && ps.2.parses(at, stop, Err(soft));
    let acc3 = if got.2 is None {
        acc2.note(soft2)
    } else {
        acc2
    };
    let (stop3, soft3): (I, ErrMode<E>) = choose|stop: I, soft: ErrMode<E>| #[trigger]
        stops_with(stop, soft) && !(soft is Cut) && ps.3.parses(at, stop, Err(soft));
    let acc4 = if got.3 is None {
        acc3.note(soft3)
    } else {
        acc3
    };
    let (stop4, soft4): (I, ErrMode<E>) = choose|stop: I, soft: ErrMode<E>| #[trigger]
        stops_with(stop, soft) && !(soft is Cut) && ps.4.parses(at, stop, Err(soft));
    let acc5 = if got.4 is None {
        acc4.note(soft4)
    } else {
        acc4
    };
    let (stop5, soft5): (I, ErrMode<E>) = choose|stop: I, soft: ErrMode<E>| #[trigger]
        stops_with(stop, soft) && !(soft is Cut) && ps.5.parses(at, stop, Err(soft));
    let acc6 = if got.5 is None {
        acc5.note(soft5)
    } else {
        acc5
    };
    assert(stops_with(next, v));
    assert(perm8_from_6(ps, got, at, acc6, after, r));
    assert(stops_with(stop5, soft5));
    assert(perm8_from_5(ps, got, at, acc5, after, r));
    assert(stops_with(stop4, soft4));
    assert(perm8_from_4(ps, got, at, acc4, after, r));
    assert(stops_with(stop3, soft3));
    assert(perm8_from_3(ps, got, at, acc3, after, r));
    assert(stops_with(stop2, soft2));
    assert(perm8_from_2(ps, got, at, acc2, after, r));
    assert(stops_with(stop1, soft1));
    assert(perm8_from_1(ps, got, at, acc1, after, r));
    assert(stops_with(stop0, soft0));
    assert(perm8_from_0(ps, got, at, acc0, after, r));
}

/// One round of a permutation of 8 parsers in which parser 7 matches: where
/// every parser before it in the list that has not matched yet fails softly
/// at the start of the round, and it succeeds there, the permutation goes on
/// with its output kept, from where it stopped.
pub proof fn lemma_perm8_round_7<
    I, O1, O2, O3, O4, O5, O6, O7, O8, E, A1, A2, A3, A4, A5, A6, A7, A8,
>(
    ps: (A1, A2, A3, A4, A5, A6, A7, A8),
    got: (
        Option<O1>, Option<O2>, Option<O3>, Option<O4>, Option<O5>, Option<O6>, Option<O7>,
        Option<O8>,
    ),
    at: I,
    next: I,
    v: O8,
    after: I,
    r: PResult<(O1, O2, O3, O4, O5, O6, O7, O8), E>,
) where
    I: Stream,
    E: ParseError<I>,
    A1: Parser<I, O1, E>,
    A2: Parser<I, O2, E>,
    A3: Parser<I, O3, E>,
    A4: Parser<I, O4, E>,
    A5: Parser<I, O5, E>,
    A6: Parser<I, O6, E>,
    A7: Parser<I, O7, E>,
    A8: Parser<I, O8, E>,

    requires
        got.0 is None ==> fails_softly(ps.0, at),
        got.1 is None ==> fails_softly(ps.1, at),
        got.2 is None ==> fails_softly(ps.2, at),
        got.3 is None ==> fails_softly(ps.3, at),
        got.4 is None ==> fails_softly(ps.4, at),
        got.5 is None ==> fails_softly(ps.5, at),
        got.6 is None ==> fails_softly(ps.6, at),
        got.7 is None,
        ps.7.parses(at, next, Ok(v)),
        perm8_from_0(
            ps,
            (got.0, got.1, got.2, got.3, got.4, got.5, got.6, Some(v)),
            next,
            RoundSoFar::fresh(),
            after,
            r,
        ),
    ensures
        perm8_from_0(ps, got, at, RoundSoFar::fresh(), after, r),
{
    let acc0 = RoundSoFar::<E>::fresh();
    let (stop0, soft0): (I, ErrMode<E>) = choose|stop: I, soft: ErrMode<E>| #[trigger]
        stops_with(stop, soft) && !(soft is Cut) && ps.0.parses(at, stop, Err(soft));
    let acc1 = if got.0 is None {
        acc0.note(soft0)
    } else {
        acc0
    };
    let (stop1, soft1): (I, ErrMode<E>) = choose|stop: I, soft: ErrMode<E>| #[trigger]
        stops_with(stop, soft) && !(soft is Cut) && ps.1.parses(at, stop, Err(soft));
    let acc2 = if got.1 is None {
        acc1.note(soft1)
    } else {
        acc1
    };
    let (stop2, soft2): (I, ErrMode<E>) = choose|stop: I, soft: ErrMode<E>| #[trigger]
        stops_with(stop, soft) && !(soft is Cut) && ps.2.parses(at, stop, Err(soft));
    let acc3 = if got.2 is None {
        acc2.note(soft2)
    } else {
        acc2
    };
    let (stop3, soft3): (I, ErrMode<E>) = choose|stop: I, soft: ErrMode<E>| #[trigger]
        stops_with(stop, soft) && !(soft is Cut) && ps.3.parses(at, stop, Err(soft));
    let acc4 = if got.3 is None {
        acc3.note(soft3)
    } else {
        acc3
    };
    let (stop4, soft4): (I, ErrMode<E>) = choose|stop: I, soft: ErrMode<E>| #[trigger]
        stops_with(stop, soft) && !(soft is Cut) && ps.4.parses(at, stop, Err(soft));
    let acc5 = if got.4 is None {
        acc4.note(soft4)
    } else {
        acc4
    };
    let (stop5, soft5): (I, ErrMode<E>) = choose|stop: I, soft: ErrMode<E>| #[trigger]
        stops_with(stop, soft) && !(soft is Cut) && ps.5.parses(at, stop, Err(soft));
    let acc6 = if got.5 is None {
        acc5.note(soft5)
    } else {
        acc5
    };
    let (stop6, soft6): (I, ErrMode<E>) = choose|stop: I, soft: ErrMode<E>| #[trigger]
        stops_with(stop, soft) && !(soft is Cut) && ps.6.parses(at, stop, Err(soft));
    let acc7 = if got.6 is None {
        acc6.note(soft6)
    } else {
        acc6
    };
    assert(stops_with(next, v));
    assert(perm8_from_7(ps, got, at, acc7, after, r));
    assert(stops_with(stop6, soft6));
    assert(perm8_from_6(ps, got, at, acc6, after, r));
    assert(stops_with(stop5, soft5));
    assert(perm8_from_5(ps, got, at, acc5, after, r));
    assert(stops_with(stop4, soft4));
    assert(perm8_from_4(ps, got, at, acc4, after, r));
    assert(stops_with(stop3, soft3));
    assert(perm8_from_3(ps, got, at, acc3, after, r));
    assert(stops_with(stop2, soft2));
    assert(perm8_from_2(ps, got, at, acc2, after, r));
    assert(stops_with(stop1, soft1));
    assert(perm8_from_1(ps, got, at, acc1, after, r));
    assert(stops_with(stop0, soft0));
    assert(perm8_from_0(ps, got, at, acc0, after, r));
}

/// One round of a permutation of 8 parsers in which no parser matches: where
/// every parser that has not matched yet fails recoverably at the start of
/// the round, wherever it left the cursor, the permutation fails recoverably
/// with the cursor at the start of the round, and its error is that of the
/// last such parser under a frame at the start of the round.
pub proof fn lemma_perm8_round_fails<
    I, O1, O2, O3, O4, O5, O6, O7, O8, E, A1, A2, A3, A4, A5, A6, A7, A8,
>(
    ps: (A1, A2, A3, A4, A5, A6, A7, A8),
    got: (
        Option<O1>, Option<O2>, Option<O3>, Option<O4>, Option<O5>, Option<O6>, Option<O7>,
        Option<O8>,
    ),
    at: I,
    stops: (I, I, I, I, I, I, I, I),
    errors: (E, E, E, E, E, E, E, E),
    e: E,
) where
    I: Stream,
    E: ParseError<I>,
    A1: Parser<I, O1, E>,
    A2: Parser<I, O2, E>,
    A3: Parser<I, O3, E>,
    A4: Parser<I, O4, E>,
    A5: Parser<I, O5, E>,
    A6: Parser<I, O6, E>,
    A7: Parser<I, O7, E>,
    A8: Parser<I, O8, E>,

    requires
        got.0 is None ==> ps.0.parses(at, stops.0, Err(ErrMode::Backtrack(errors.0))),
        got.1 is None ==> ps.1.parses(at, stops.1, Err(ErrMode::Backtrack(errors.1))),
        got.2 is None ==> ps.2.parses(at, stops.2, Err(ErrMode::Backtrack(errors.2))),
        got.3 is None ==> ps.3.parses(at, stops.3, Err(ErrMode::Backtrack(errors.3))),
        got.4 is None ==> ps.4.parses(at, stops.4, Err(ErrMode::Backtrack(errors.4))),
        got.5 is None ==> ps.5.parses(at, stops.5, Err(ErrMode::Backtrack(errors.5))),
        got.6 is None ==> ps.6.parses(at, stops.6, Err(ErrMode::Backtrack(errors.6))),
        got.7 is None ==> ps.7.parses(at, stops.7, Err(ErrMode::Backtrack(errors.7))),
        ({
            ||| got.0 is None
            ||| got.1 is None
            ||| got.2 is None
            ||| got.3 is None
            ||| got.4 is None
            ||| got.5 is None
            ||| got.6 is None
            ||| got.7 is None
        }),
        ({
            let last_0 = errors.0;
            let last_1 = if got.1 is None {
                errors.1
            } else {
                last_0
            };
            let last_2 = if got.2 is None {
                errors.2
            } else {
                last_1
            };
            let last_3 = if got.3 is None {
                errors.3
            } else {
                last_2
            };
            let last_4 = if got.4 is None {
                errors.4
            } else {
                last_3
            };
            let last_5 = if got.5 is None {
                errors.5
            } else {
                last_4
            };
            let last_6 = if got.6 is None {
                errors.6
            } else {
                last_5
            };
            let last_7 = if got.7 is None {
                errors.7
            } else {
                last_6
            };
            e.appended_to(last_7, at, ErrorKind::Permutation)
        }),
    ensures
        perm8_from_0(ps, got, at, RoundSoFar::fresh(), at, Err(ErrMode::Backtrack(e))),
{
    let r = Err::<(O1, O2, O3, O4, O5, O6, O7, O8), ErrMode<E>>(ErrMode::Backtrack(e));
    let acc0 = RoundSoFar::<E>::fresh();
    let soft0 = ErrMode::Backtrack(errors.0);
    let acc1 = if got.0 is None {
        acc0.note(soft0)
    } else {
        acc0
    };
    let soft1 = ErrMode::Backtrack(errors.1);
    let acc2 = if got.1 is None {
        acc1.note(soft1)
    } else {
        acc1
    };
    let soft2 = ErrMode::Backtrack(errors.2);
    let acc3 = if got.2 is None {
        acc2.note(soft2)
    } else {
        acc2
    };
    let soft3 = ErrMode::Backtrack(errors.3);
    let acc4 = if got.3 is None {
        acc3.note(soft3)
    } else {
        acc3
    };
    let soft4 = ErrMode::Backtrack(errors.4);
    let acc5 = if got.4 is None {
        acc4.note(soft4)
    } else {
        acc4
    };
    let soft5 = ErrMode::Backtrack(errors.5);
    let acc6 = if got.5 is None {
        acc5.note(soft5)
    } else {
        acc5
    };
    let soft6 = ErrMode::Backtrack(errors.6);
    let acc7 = if got.6 is None {
        acc6.note(soft6)
    } else {
        acc6
    };
    let soft7 = ErrMode::Backtrack(errors.7);
    let acc8 = if got.7 is None {
        acc7.note(soft7)
    } else {
        acc7
    };
    assert(perm8_end(ps, got, at, acc8, at, r));
    assert(stops_with(stops.7, soft7));
    assert(perm8_from_7(ps, got, at, acc7, at, r));
    assert(stops_with(stops.6, soft6));
    assert(perm8_from_6(ps, got, at, acc6, at, r));
    assert(stops_with(stops.5, soft5));
    assert(perm8_from_5(ps, got, at, acc5, at, r));
    assert(stops_with(stops.4, soft4));
    assert(perm8_from_4(ps, got, at, acc4, at, r));
    assert(stops_with(stops.3, soft3));
    assert(perm8_from_3(ps, got, at, acc3, at, r));
    assert(stops_with(stops.2, soft2));
    assert(perm8_from_2(ps, got, at, acc2, at, r));
    assert(stops_with(stops.1, soft1));
    assert(perm8_from_1(ps, got, at, acc1, at, r));
    assert(stops_with(stops.0, soft0));
    assert(perm8_from_0(ps, got, at, acc0, at, r));
}

} // verus!
