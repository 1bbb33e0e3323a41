//! Tuples of parsers as lists of alternatives.
use vstd::prelude::*;
use crate::branch::{alt_last, alt_more, backtracks, decided, Alt, Alternatives};
use crate::error::{ErrMode, ErrorKind, PResult, ParseError};
use crate::parser::{advancing, stops_with, Parser};
use crate::stream::{reaches, Stream};

verus! {

impl<I, O, E, A1, A2> Alt<I, O, E> for (A1, A2) where
    I: Stream,
    E: ParseError<I>,
    A1: Parser<I, O, E>,
    A2: Parser<I, O, E>,
 {
    open spec fn alt_wf(&self) -> bool {
        &&& self.0.wf()
        &&& self.1.wf()
    }

    open spec fn chooses(&self, before: I, after: I, r: PResult<O, E>) -> bool {
        let from_1 = alt_last(self.1, before, after, r);
        alt_more(self.0, from_1, before, after, r)
    }

    fn choice(&mut self, input: &mut I) -> (r: PResult<O, E>) {
        let ghost me = *self;
        let ghost x0 = *input;
        let start = input.checkpoint();
        let e0 = match self.0.parse_next(input) {
            Err(ErrMode::Backtrack(e)) => e,
            res => {
                return res;
            },
        };
        proof {
            assert(stops_with(*input, e0));
            assert(backtracks(me.0, x0));
        }
        input.reset(start.checkpoint());
        match self.1.parse_next(input) {
            Err(ErrMode::Backtrack(e)) => {
                let ghost last = e;
                let ghost stop = *input;
                let e = e0.or(e);
                input.reset(start);
                let e = e.append(&*input, ErrorKind::Alt);
                proof {
                    assert(stops_with(stop, last));
                }
                Err(ErrMode::Backtrack(e))
            },
            res => res,
        }
    }
}

impl<I, O, E, A1, A2, A3> Alt<I, O, E> for (A1, A2, A3) where
    I: Stream,
    E: ParseError<I>,
    A1: Parser<I, O, E>,
    A2: Parser<I, O, E>,
    A3: Parser<I, O, E>,
 {
    open spec fn alt_wf(&self) -> bool {
        &&& self.0.wf()
        &&& self.1.wf()
        &&& self.2.wf()
    }

    open spec fn chooses(&self, before: I, after: I, r: PResult<O, E>) -> bool {
        let from_2 = alt_last(self.2, before, after, r);
        let from_1 = alt_more(self.1, from_2, before, after, r);
        alt_more(self.0, from_1, before, after, r)
    }

    fn choice(&mut self, input: &mut I) -> (r: PResult<O, E>) {
        let ghost me = *self;
        let ghost x0 = *input;
        let start = input.checkpoint();
        let e0 = match self.0.parse_next(input) {
            Err(ErrMode::Backtrack(e)) => e,
            res => {
                return res;
            },
        };
        proof {
            assert(stops_with(*input, e0));
            assert(backtracks(me.0, x0));
        }
        input.reset(start.checkpoint());
        let e1 = match self.1.parse_next(input) {
            Err(ErrMode::Backtrack(e)) => e,
            res => {
                return res;
            },
        };
        proof {
            assert(stops_with(*input, e1));
            assert(backtracks(me.1, x0));
        }
        let e1 = e0.or(e1);
        input.reset(start.checkpoint());
        match self.2.parse_next(input) {
            Err(ErrMode::Backtrack(e)) => {
                let ghost last = e;
                let ghost stop = *input;
                let e = e1.or(e);
                input.reset(start);
                let e = e.append(&*input, ErrorKind::Alt);
                proof {
                    assert(stops_with(stop, last));
                }
                Err(ErrMode::Backtrack(e))
            },
            res => res,
        }
    }
}

impl<I, O, E, A1, A2, A3, A4> Alt<I, O, E> for (A1, A2, A3, A4) where
    I: Stream,
    E: ParseError<I>,
    A1: Parser<I, O, E>,
    A2: Parser<I, O, E>,
    A3: Parser<I, O, E>,
    A4: Parser<I, O, E>,
 {
    open spec fn alt_wf(&self) -> bool {
        &&& self.0.wf()
        &&& self.1.wf()
        &&& self.2.wf()
        &&& self.3.wf()
    }

    open spec fn chooses(&self, before: I, after: I, r: PResult<O, E>) -> bool {
        let from_3 = alt_last(self.3, before, after, r);
        let from_2 = alt_more(self.2, from_3, before, after, r);
        let from_1 = alt_more(self.1, from_2, before, after, r);
        alt_more(self.0, from_1, before, after, r)
    }

    fn choice(&mut self, input: &mut I) -> (r: PResult<O, E>) {
        let ghost me = *self;
        let ghost x0 = *input;
        let start = input.checkpoint();
        let e0 = match self.0.parse_next(input) {
            Err(ErrMode::Backtrack(e)) => e,
            res => {
                return res;
            },
        };
        proof {
            assert(stops_with(*input, e0));
            assert(backtracks(me.0, x0));
        }
        input.reset(start.checkpoint());
        let e1 = match self.1.parse_next(input) {
            Err(ErrMode::Backtrack(e)) => e,
            res => {
                return res;
            },
        };
        proof {
            assert(stops_with(*input, e1));
            assert(backtracks(me.1, x0));
        }
        let e1 = e0.or(e1);
        input.reset(start.checkpoint());
        let e2 = match self.2.parse_next(input) {
            Err(ErrMode::Backtrack(e)) => e,
            res => {
                return res;
            },
        };
        proof {
            assert(stops_with(*input, e2));
            assert(backtracks(me.2, x0));
        }
        let e2 = e1.or(e2);
        input.reset(start.checkpoint());
        match self.3.parse_next(input) {
            Err(ErrMode::Backtrack(e)) => {
                let ghost last = e;
                let ghost stop = *input;
                let e = e2.or(e);
                input.reset(start);
                let e = e.append(&*input, ErrorKind::Alt);
                proof {
                    assert(stops_with(stop, last));
                }
                Err(ErrMode::Backtrack(e))
            },
            res => res,
        }
    }
}

impl<I, O, E, A1, A2, A3, A4, A5> Alt<I, O, E> for (A1, A2, A3, A4, A5) where
    I: Stream,
    E: ParseError<I>,
    A1: Parser<I, O, E>,
    A2: Parser<I, O, E>,
    A3: Parser<I, O, E>,
    A4: Parser<I, O, E>,
    A5: Parser<I, O, E>,
 {
    open spec fn alt_wf(&self) -> bool {
        &&& self.0.wf()
        &&& self.1.wf()
        &&& self.2.wf()
        &&& self.3.wf()
        &&& self.4.wf()
    }

    open spec fn chooses(&self, before: I, after: I, r: PResult<O, E>) -> bool {
        let from_4 = alt_last(self.4, before, after, r);
        let from_3 = alt_more(self.3, from_4, before, after, r);
        let from_2 = alt_more(self.2, from_3, before, after, r);
        let from_1 = alt_more(self.1, from_2, before, after, r);
        alt_more(self.0, from_1, before, after, r)
    }

    fn choice(&mut self, input: &mut I) -> (r: PResult<O, E>) {
        let ghost me = *self;
        let ghost x0 = *input;
        let start = input.checkpoint();
        let e0 = match self.0.parse_next(input) {
            Err(ErrMode::Backtrack(e)) => e,
            res => {
                return res;
            },
        };
        proof {
            assert(stops_with(*input, e0));
            assert(backtracks(me.0, x0));
        }
        input.reset(start.checkpoint());
        let e1 = match self.1.parse_next(input) {
            Err(ErrMode::Backtrack(e)) => e,
            res => {
                return res;
            },
        };
        proof {
            assert(stops_with(*input, e1));
            assert(backtracks(me.1, x0));
        }
        let e1 = e0.or(e1);
        input.reset(start.checkpoint());
        let e2 = match self.2.parse_next(input) {
            Err(ErrMode::Backtrack(e)) => e,
            res => {
                return res;
            },
        };
        proof {
            assert(stops_with(*input, e2));
            assert(backtracks(me.2, x0));
        }
        let e2 = e1.or(e2);
        input.reset(start.checkpoint());
        let e3 = match self.3.parse_next(input) {
            Err(ErrMode::Backtrack(e)) => e,
            res => {
                return res;
            },
        };
        proof {
            assert(stops_with(*input, e3));
            assert(backtracks(me.3, x0));
        }
        let e3 = e2.or(e3);
        input.reset(start.checkpoint());
        match self.4.parse_next(input) {
            Err(ErrMode::Backtrack(e)) => {
                let ghost last = e;
                let ghost stop = *input;
                let e = e3.or(e);
                input.reset(start);
                let e = e.append(&*input, ErrorKind::Alt);
                proof {
                    assert(stops_with(stop, last));
                }
                Err(ErrMode::Backtrack(e))
            },
            res => res,
        }
    }
}

impl<I, O, E, A1, A2, A3, A4, A5, A6> Alt<I, O, E> for (A1, A2, A3, A4, A5, A6) where
    I: Stream,
    E: ParseError<I>,
    A1: Parser<I, O, E>,
    A2: Parser<I, O, E>,
    A3: Parser<I, O, E>,
    A4: Parser<I, O, E>,
    A5: Parser<I, O, E>,
    A6: Parser<I, O, E>,
 {
    open spec fn alt_wf(&self) -> bool {
        &&& self.0.wf()
        &&& self.1.wf()
        &&& self.2.wf()
        &&& self.3.wf()
        &&& self.4.wf()
        &&& self.5.wf()
    }

    open spec fn chooses(&self, before: I, after: I, r: PResult<O, E>) -> bool {
        let from_5 = alt_last(self.5, before, after, r);
        let from_4 = alt_more(self.4, from_5, before, after, r);
        let from_3 = alt_more(self.3, from_4, before, after, r);
        let from_2 = alt_more(self.2, from_3, before, after, r);
        let from_1 = alt_more(self.1, from_2, before, after, r);
        alt_more(self.0, from_1, before, after, r)
    }

    fn choice(&mut self, input: &mut I) -> (r: PResult<O, E>) {
        let ghost me = *self;
        let ghost x0 = *input;
        let start = input.checkpoint();
        let e0 = match self.0.parse_next(input) {
            Err(ErrMode::Backtrack(e)) => e,
            res => {
                return res;
            },
        };
        proof {
            assert(stops_with(*input, e0));
            assert(backtracks(me.0, x0));
        }
        input.reset(start.checkpoint());
        let e1 = match self.1.parse_next(input) {
            Err(ErrMode::Backtrack(e)) => e,
            res => {
                return res;
            },
        };
        proof {
            assert(stops_with(*input, e1));
            assert(backtracks(me.1, x0));
        }
        let e1 = e0.or(e1);
        input.reset(start.checkpoint());
        let e2 = match self.2.parse_next(input) {
            Err(ErrMode::Backtrack(e)) => e,
            res => {
                return res;
            },
        };
        proof {
            assert(stops_with(*input, e2));
            assert(backtracks(me.2, x0));
        }
        let e2 = e1.or(e2);
        input.reset(start.checkpoint());
        let e3 = match self.3.parse_next(input) {
            Err(ErrMode::Backtrack(e)) => e,
            res => {
                return res;
            },
        };
        proof {
            assert(stops_with(*input, e3));
            assert(backtracks(me.3, x0));
        }
        let e3 = e2.or(e3);
        input.reset(start.checkpoint());
        let e4 = match self.4.parse_next(input) {
            Err(ErrMode::Backtrack(e)) => e,
            res => {
                return res;
            },
        };
        proof {
            assert(stops_with(*input, e4));
            assert(backtracks(me.4, x0));
        }
        let e4 = e3.or(e4);
        input.reset(start.checkpoint());
        match self.5.parse_next(input) {
            Err(ErrMode::Backtrack(e)) => {
                let ghost last = e;
                let ghost stop = *input;
                let e = e4.or(e);
                input.reset(start);
                let e = e.append(&*input, ErrorKind::Alt);
                proof {
                    assert(stops_with(stop, last));
                }
                Err(ErrMode::Backtrack(e))
            },
            res => res,
        }
    }
}

impl<I, O, E, A1, A2, A3, A4, A5, A6, A7> Alt<I, O, E> for (A1, A2, A3, A4, A5, A6, A7) where
    I: Stream,
    E: ParseError<I>,
    A1: Parser<I, O, E>,
    A2: Parser<I, O, E>,
    A3: Parser<I, O, E>,
    A4: Parser<I, O, E>,
    A5: Parser<I, O, E>,
    A6: Parser<I, O, E>,
    A7: Parser<I, O, E>,
 {
    open spec fn alt_wf(&self) -> bool {
        &&& self.0.wf()
        &&& self.1.wf()
        &&& self.2.wf()
        &&& self.3.wf()
        &&& self.4.wf()
        &&& self.5.wf()
        &&& self.6.wf()
    }

    open spec fn chooses(&self, before: I, after: I, r: PResult<O, E>) -> bool {
        let from_6 = alt_last(self.6, before, after, r);
        let from_5 = alt_more(self.5, from_6, before, after, r);
        let from_4 = alt_more(self.4, from_5, before, after, r);
        let from_3 = alt_more(self.3, from_4, before, after, r);
        let from_2 = alt_more(self.2, from_3, before, after, r);
        let from_1 = alt_more(self.1, from_2, before, after, r);
        alt_more(self.0, from_1, before, after, r)
    }

    fn choice(&mut self, input: &mut I) -> (r: PResult<O, E>) {
        let ghost me = *self;
        let ghost x0 = *input;
        let start = input.checkpoint();
        let e0 = match self.0.parse_next(input) {
            Err(ErrMode::Backtrack(e)) => e,
            res => {
                return res;
            },
        };
        proof {
            assert(stops_with(*input, e0));
            assert(backtracks(me.0, x0));
        }
        input.reset(start.checkpoint());
        let e1 = match self.1.parse_next(input) {
            Err(ErrMode::Backtrack(e)) => e,
            res => {
                return res;
            },
        };
        proof {
            assert(stops_with(*input, e1));
            assert(backtracks(me.1, x0));
        }
        let e1 = e0.or(e1);
        input.reset(start.checkpoint());
        let e2 = match self.2.parse_next(input) {
            Err(ErrMode::Backtrack(e)) => e,
            res => {
                return res;
            },
        };
        proof {
            assert(stops_with(*input, e2));
            assert(backtracks(me.2, x0));
        }
        let e2 = e1.or(e2);
        input.reset(start.checkpoint());
        let e3 = match self.3.parse_next(input) {
            Err(ErrMode::Backtrack(e)) => e,
            res => {
                return res;
            },
        };
        proof {
            assert(stops_with(*input, e3));
            assert(backtracks(me.3, x0));
        }
        let e3 = e2.or(e3);
        input.reset(start.checkpoint());
        let e4 = match self.4.parse_next(input) {
            Err(ErrMode::Backtrack(e)) => e,
            res => {
                return res;
            },
        };
        proof {
            assert(stops_with(*input, e4));
            assert(backtracks(me.4, x0));
        }
        let e4 = e3.or(e4);
        input.reset(start.checkpoint());
        let e5 = match self.5.parse_next(input) {
            Err(ErrMode::Backtrack(e)) => e,
            res => {
                return res;
            },
        };
        proof {
            assert(stops_with(*input, e5));
            assert(backtracks(me.5, x0));
        }
        let e5 = e4.or(e5);
        input.reset(start.checkpoint());
        match self.6.parse_next(input) {
            Err(ErrMode::Backtrack(e)) => {
                let ghost last = e;
                let ghost stop = *input;
                let e = e5.or(e);
                input.reset(start);
                let e = e.append(&*input, ErrorKind::Alt);
                proof {
                    assert(stops_with(stop, last));
                }
                Err(ErrMode::Backtrack(e))
            },
            res => res,
        }
    }
}

impl<I, O, E, A1, A2, A3, A4, A5, A6, A7, A8> Alt<I, O, E> for
    (A1, A2, A3, A4, A5, A6, A7, A8) where
    I: Stream,
    E: ParseError<I>,
    A1: Parser<I, O, E>,
    A2: Parser<I, O, E>,
    A3: Parser<I, O, E>,
    A4: Parser<I, O, E>,
    A5: Parser<I, O, E>,
    A6: Parser<I, O, E>,
    A7: Parser<I, O, E>,
    A8: Parser<I, O, E>,
 {
    open spec fn alt_wf(&self) -> bool {
        &&& self.0.wf()
        &&& self.1.wf()
        &&& self.2.wf()
        &&& self.3.wf()
        &&& self.4.wf()
        &&& self.5.wf()
        &&& self.6.wf()
        &&& self.7.wf()
    }

    open spec fn chooses(&self, before: I, after: I, r: PResult<O, E>) -> bool {
        let from_7 = alt_last(self.7, before, after, r);
        let from_6 = alt_more(self.6, from_7, before, after, r);
        let from_5 = alt_more(self.5, from_6, before, after, r);
        let from_4 = alt_more(self.4, from_5, before, after, r);
        let from_3 = alt_more(self.3, from_4, before, after, r);
        let from_2 = alt_more(self.2, from_3, before, after, r);
        let from_1 = alt_more(self.1, from_2, before, after, r);
        alt_more(self.0, from_1, before, after, r)
    }

    fn choice(&mut self, input: &mut I) -> (r: PResult<O, E>) {
        let ghost me = *self;
        let ghost x0 = *input;
        let start = input.checkpoint();
        let e0 = match self.0.parse_next(input) {
            Err(ErrMode::Backtrack(e)) => e,
            res => {
                return res;
            },
        };
        proof {
            assert(stops_with(*input, e0));
            assert(backtracks(me.0, x0));
        }
        input.reset(start.checkpoint());
        let e1 = match self.1.parse_next(input) {
            Err(ErrMode::Backtrack(e)) => e,
            res => {
                return res;
            },
        };
        proof {
            assert(stops_with(*input, e1));
            assert(backtracks(me.1, x0));
        }
        let e1 = e0.or(e1);
        input.reset(start.checkpoint());
        let e2 = match self.2.parse_next(input) {
            Err(ErrMode::Backtrack(e)) => e,
            res => {
                return res;
            },
        };
        proof {
            assert(stops_with(*input, e2));
            assert(backtracks(me.2, x0));
        }
        let e2 = e1.or(e2);
        input.reset(start.checkpoint());
        let e3 = match self.3.parse_next(input) {
            Err(ErrMode::Backtrack(e)) => e,
            res => {
                return res;
            },
        };
        proof {
            assert(stops_with(*input, e3));
            assert(backtracks(me.3, x0));
        }
        let e3 = e2.or(e3);
        input.reset(start.checkpoint());
        let e4 = match self.4.parse_next(input) {
            Err(ErrMode::Backtrack(e)) => e,
            res => {
                return res;
            },
        };
        proof {
            assert(stops_with(*input, e4));
            assert(backtracks(me.4, x0));
        }
        let e4 = e3.or(e4);
        input.reset(start.checkpoint());
        let e5 = match self.5.parse_next(input) {
            Err(ErrMode::Backtrack(e)) => e,
            res => {
                return res;
            },
        };
        proof {
            assert(stops_with(*input, e5));
            assert(backtracks(me.5, x0));
        }
        let e5 = e4.or(e5);
        input.reset(start.checkpoint());
        let e6 = match self.6.parse_next(input) {
            Err(ErrMode::Backtrack(e)) => e,
            res => {
                return res;
            },
        };
        proof {
            assert(stops_with(*input, e6));
            assert(backtracks(me.6, x0));
        }
        let e6 = e5.or(e6);
        input.reset(start.checkpoint());
        match self.7.parse_next(input) {
            Err(ErrMode::Backtrack(e)) => {
                let ghost last = e;
                let ghost stop = *input;
                let e = e6.or(e);
                input.reset(start);
                let e = e.append(&*input, ErrorKind::Alt);
                proof {
                    assert(stops_with(stop, last));
                }
                Err(ErrMode::Backtrack(e))
            },
            res => res,
        }
    }
}

impl<I, O, E, A1, A2, A3, A4, A5, A6, A7, A8, A9> Alt<I, O, E> for
    (A1, A2, A3, A4, A5, A6, A7, A8, A9) where
    I: Stream,
    E: ParseError<I>,
    A1: Parser<I, O, E>,
    A2: Parser<I, O, E>,
    A3: Parser<I, O, E>,
    A4: Parser<I, O, E>,
    A5: Parser<I, O, E>,
    A6: Parser<I, O, E>,
    A7: Parser<I, O, E>,
    A8: Parser<I, O, E>,
    A9: Parser<I, O, E>,
 {
    open spec fn alt_wf(&self) -> bool {
        &&& self.0.wf()
        &&& self.1.wf()
        &&& self.2.wf()
        &&& self.3.wf()
        &&& self.4.wf()
        &&& self.5.wf()
        &&& self.6.wf()
        &&& self.7.wf()
        &&& self.8.wf()
    }

    open spec fn chooses(&self, before: I, after: I, r: PResult<O, E>) -> bool {
        let from_8 = alt_last(self.8, before, after, r);
        let from_7 = alt_more(self.7, from_8, before, after, r);
        let from_6 = alt_more(self.6, from_7, before, after, r);
        let from_5 = alt_more(self.5, from_6, before, after, r);
        let from_4 = alt_more(self.4, from_5, before, after, r);
        let from_3 = alt_more(self.3, from_4, before, after, r);
        let from_2 = alt_more(self.2, from_3, before, after, r);
        let from_1 = alt_more(self.1, from_2, before, after, r);
        alt_more(self.0, from_1, before, after, r)
    }

    fn choice(&mut self, input: &mut I) -> (r: PResult<O, E>) {
        let ghost me = *self;
        let ghost x0 = *input;
        let start = input.checkpoint();
        let e0 = match self.0.parse_next(input) {
            Err(ErrMode::Backtrack(e)) => e,
            res => {
                return res;
            },
        };
        proof {
            assert(stops_with(*input, e0));
            assert(backtracks(me.0, x0));
        }
        input.reset(start.checkpoint());
        let e1 = match self.1.parse_next(input) {
            Err(ErrMode::Backtrack(e)) => e,
            res => {
                return res;
            },
        };
        proof {
            assert(stops_with(*input, e1));
            assert(backtracks(me.1, x0));
        }
        let e1 = e0.or(e1);
        input.reset(start.checkpoint());
        let e2 = match self.2.parse_next(input) {
            Err(ErrMode::Backtrack(e)) => e,
            res => {
                return res;
            },
        };
        proof {
            assert(stops_with(*input, e2));
            assert(backtracks(me.2, x0));
        }
        let e2 = e1.or(e2);
        input.reset(start.checkpoint());
        let e3 = match self.3.parse_next(input) {
            Err(ErrMode::Backtrack(e)) => e,
            res => {
                return res;
            },
        };
        proof {
            assert(stops_with(*input, e3));
            assert(backtracks(me.3, x0));
        }
        let e3 = e2.or(e3);
        input.reset(start.checkpoint());
        let e4 = match self.4.parse_next(input) {
            Err(ErrMode::Backtrack(e)) => e,
            res => {
                return res;
            },
        };
        proof {
            assert(stops_with(*input, e4));
            assert(backtracks(me.4, x0));
        }
        let e4 = e3.or(e4);
        input.reset(start.checkpoint());
        let e5 = match self.5.parse_next(input) {
            Err(ErrMode::Backtrack(e)) => e,
            res => {
                return res;
            },
        };
        proof {
            assert(stops_with(*input, e5));
            assert(backtracks(me.5, x0));
        }
        let e5 = e4.or(e5);
        input.reset(start.checkpoint());
        let e6 = match self.6.parse_next(input) {
            Err(ErrMode::Backtrack(e)) => e,
            res => {
                return res;
            },
        };
        proof {
            assert(stops_with(*input, e6));
            assert(backtracks(me.6, x0));
        }
        let e6 = e5.or(e6);
        input.reset(start.checkpoint());
        let e7 = match self.7.parse_next(input) {
            Err(ErrMode::Backtrack(e)) => e,
            res => {
                return res;
            },
        };
        proof {
            assert(stops_with(*input, e7));
            assert(backtracks(me.7, x0));
        }
        let e7 = e6.or(e7);
        input.reset(start.checkpoint());
        match self.8.parse_next(input) {
            Err(ErrMode::Backtrack(e)) => {
                let ghost last = e;
                let ghost stop = *input;
                let e = e7.or(e);
                input.reset(start);
                let e = e.append(&*input, ErrorKind::Alt);
                proof {
                    assert(stops_with(stop, last));
                }
                Err(ErrMode::Backtrack(e))
            },
            res => res,
        }
    }
}

impl<I, O, E, A1, A2, A3, A4, A5, A6, A7, A8, A9, A10> Alt<I, O, E> for
    (A1, A2, A3, A4, A5, A6, A7, A8, A9, A10) where
    I: Stream,
    E: ParseError<I>,
    A1: Parser<I, O, E>,
    A2: Parser<I, O, E>,
    A3: Parser<I, O, E>,
    A4: Parser<I, O, E>,
    A5: Parser<I, O, E>,
    A6: Parser<I, O, E>,
    A7: Parser<I, O, E>,
    A8: Parser<I, O, E>,
    A9: Parser<I, O, E>,
    A10: Parser<I, O, E>,
 {
    open spec fn alt_wf(&self) -> bool {
        &&& self.0.wf()
        &&& self.1.wf()
        &&& self.2.wf()
        &&& self.3.wf()
        &&& self.4.wf()
        &&& self.5.wf()
        &&& self.6.wf()
        &&& self.7.wf()
        &&& self.8.wf()
        &&& self.9.wf()
    }

    open spec fn chooses(&self, before: I, after: I, r: PResult<O, E>) -> bool {
        let from_9 = alt_last(self.9, before, after, r);
        let from_8 = alt_more(self.8, from_9, before, after, r);
        let from_7 = alt_more(self.7, from_8, before, after, r);
        let from_6 = alt_more(self.6, from_7, before, after, r);
        let from_5 = alt_more(self.5, from_6, before, after, r);
        let from_4 = alt_more(self.4, from_5, before, after, r);
        let from_3 = alt_more(self.3, from_4, before, after, r);
        let from_2 = alt_more(self.2, from_3, before, after, r);
        let from_1 = alt_more(self.1, from_2, before, after, r);
        alt_more(self.0, from_1, before, after, r)
    }

    fn choice(&mut self, input: &mut I) -> (r: PResult<O, E>) {
        let ghost me = *self;
        let ghost x0 = *input;
        let start = input.checkpoint();
        let e0 = match self.0.parse_next(input) {
            Err(ErrMode::Backtrack(e)) => e,
            res => {
                return res;
            },
        };
        proof {
            assert(stops_with(*input, e0));
            assert(backtracks(me.0, x0));
        }
        input.reset(start.checkpoint());
        let e1 = match self.1.parse_next(input) {
            Err(ErrMode::Backtrack(e)) => e,
            res => {
                return res;
            },
        };
        proof {
            assert(stops_with(*input, e1));
            assert(backtracks(me.1, x0));
        }
        let e1 = e0.or(e1);
        input.reset(start.checkpoint());
        let e2 = match self.2.parse_next(input) {
            Err(ErrMode::Backtrack(e)) => e,
            res => {
                return res;
            },
        };
        proof {
            assert(stops_with(*input, e2));
            assert(backtracks(me.2, x0));
        }
        let e2 = e1.or(e2);
        input.reset(start.checkpoint());
        let e3 = match self.3.parse_next(input) {
            Err(ErrMode::Backtrack(e)) => e,
            res => {
                return res;
            },
        };
        proof {
            assert(stops_with(*input, e3));
            assert(backtracks(me.3, x0));
        }
        let e3 = e2.or(e3);
        input.reset(start.checkpoint());
        let e4 = match self.4.parse_next(input) {
            Err(ErrMode::Backtrack(e)) => e,
            res => {
                return res;
            },
        };
        proof {
            assert(stops_with(*input, e4));
            assert(backtracks(me.4, x0));
        }
        let e4 = e3.or(e4);
        input.reset(start.checkpoint());
        let e5 = match self.5.parse_next(input) {
            Err(ErrMode::Backtrack(e)) => e,
            res => {
                return res;
            },
        };
        proof {
            assert(stops_with(*input, e5));
            assert(backtracks(me.5, x0));
        }
        let e5 = e4.or(e5);
        input.reset(start.checkpoint());
        let e6 = match self.6.parse_next(input) {
            Err(ErrMode::Backtrack(e)) => e,
            res => {
                return res;
            },
        };
        proof {
            assert(stops_with(*input, e6));
            assert(backtracks(me.6, x0));
        }
        let e6 = e5.or(e6);
        input.reset(start.checkpoint());
        let e7 = match self.7.parse_next(input) {
            Err(ErrMode::Backtrack(e)) => e,
            res => {
                return res;
            },
        };
        proof {
            assert(stops_with(*input, e7));
            assert(backtracks(me.7, x0));
        }
        let e7 = e6.or(e7);
        input.reset(start.checkpoint());
        let e8 = match self.8.parse_next(input) {
            Err(ErrMode::Backtrack(e)) => e,
            res => {
                return res;
            },
        };
        proof {
            assert(stops_with(*input, e8));
            assert(backtracks(me.8, x0));
        }
        let e8 = e7.or(e8);
        input.reset(start.checkpoint());
        match self.9.parse_next(input) {
            Err(ErrMode::Backtrack(e)) => {
                let ghost last = e;
                let ghost stop = *input;
                let e = e8.or(e);
                input.reset(start);
                let e = e.append(&*input, ErrorKind::Alt);
                proof {
                    assert(stops_with(stop, last));
                }
                Err(ErrMode::Backtrack(e))
            },
            res => res,
        }
    }
}

impl<I, O, E, A1, A2, A3, A4, A5, A6, A7, A8, A9, A10, A11> Alt<I, O, E> for
    (A1, A2, A3, A4, A5, A6, A7, A8, A9, A10, A11) where
    I: Stream,
    E: ParseError<I>,
    A1: Parser<I, O, E>,
    A2: Parser<I, O, E>,
    A3: Parser<I, O, E>,
    A4: Parser<I, O, E>,
    A5: Parser<I, O, E>,
    A6: Parser<I, O, E>,
    A7: Parser<I, O, E>,
    A8: Parser<I, O, E>,
    A9: Parser<I, O, E>,
    A10: Parser<I, O, E>,
    A11: Parser<I, O, E>,
 {
    open spec fn alt_wf(&self) -> bool {
        &&& self.0.wf()
        &&& self.1.wf()
        &&& self.2.wf()
        &&& self.3.wf()
        &&& self.4.wf()
        &&& self.5.wf()
        &&& self.6.wf()
        &&& self.7.wf()
        &&& self.8.wf()
        &&& self.9.wf()
        &&& self.10.wf()
    }

    open spec fn chooses(&self, before: I, after: I, r: PResult<O, E>) -> bool {
        let from_10 = alt_last(self.10, before, after, r);
        let from_9 = alt_more(self.9, from_10, before, after, r);
        let from_8 = alt_more(self.8, from_9, before, after, r);
        let from_7 = alt_more(self.7, from_8, before, after, r);
        let from_6 = alt_more(self.6, from_7, before, after, r);
        let from_5 = alt_more(self.5, from_6, before, after, r);
        let from_4 = alt_more(self.4, from_5, before, after, r);
        let from_3 = alt_more(self.3, from_4, before, after, r);
        let from_2 = alt_more(self.2, from_3, before, after, r);
        let from_1 = alt_more(self.1, from_2, before, after, r);
        alt_more(self.0, from_1, before, after, r)
    }

    fn choice(&mut self, input: &mut I) -> (r: PResult<O, E>) {
        let ghost me = *self;
        let ghost x0 = *input;
        let start = input.checkpoint();
        let e0 = match self.0.parse_next(input) {
            Err(ErrMode::Backtrack(e)) => e,
            res => {
                return res;
            },
        };
        proof {
            assert(stops_with(*input, e0));
            assert(backtracks(me.0, x0));
        }
        input.reset(start.checkpoint());
        let e1 = match self.1.parse_next(input) {
            Err(ErrMode::Backtrack(e)) => e,
            res => {
                return res;
            },
        };
        proof {
            assert(stops_with(*input, e1));
            assert(backtracks(me.1, x0));
        }
        let e1 = e0.or(e1);
        input.reset(start.checkpoint());
        let e2 = match self.2.parse_next(input) {
            Err(ErrMode::Backtrack(e)) => e,
            res => {
                return res;
            },
        };
        proof {
            assert(stops_with(*input, e2));
            assert(backtracks(me.2, x0));
        }
        let e2 = e1.or(e2);
        input.reset(start.checkpoint());
        let e3 = match self.3.parse_next(input) {
            Err(ErrMode::Backtrack(e)) => e,
            res => {
                return res;
            },
        };
        proof {
            assert(stops_with(*input, e3));
            assert(backtracks(me.3, x0));
        }
        let e3 = e2.or(e3);
        input.reset(start.checkpoint());
        let e4 = match self.4.parse_next(input) {
            Err(ErrMode::Backtrack(e)) => e,
            res => {
                return res;
            },
        };
        proof {
            assert(stops_with(*input, e4));
            assert(backtracks(me.4, x0));
        }
        let e4 = e3.or(e4);
        input.reset(start.checkpoint());
        let e5 = match self.5.parse_next(input) {
            Err(ErrMode::Backtrack(e)) => e,
            res => {
                return res;
            },
        };
        proof {
            assert(stops_with(*input, e5));
            assert(backtracks(me.5, x0));
        }
        let e5 = e4.or(e5);
        input.reset(start.checkpoint());
        let e6 = match self.6.parse_next(input) {
            Err(ErrMode::Backtrack(e)) => e,
            res => {
                return res;
            },
        };
        proof {
            assert(stops_with(*input, e6));
            assert(backtracks(me.6, x0));
        }
        let e6 = e5.or(e6);
        input.reset(start.checkpoint());
        let e7 = match self.7.parse_next(input) {
            Err(ErrMode::Backtrack(e)) => e,
            res => {
                return res;
            },
        };
        proof {
            assert(stops_with(*input, e7));
            assert(backtracks(me.7, x0));
        }
        let e7 = e6.or(e7);
        input.reset(start.checkpoint());
        let e8 = match self.8.parse_next(input) {
            Err(ErrMode::Backtrack(e)) => e,
            res => {
                return res;
            },
        };
        proof {
            assert(stops_with(*input, e8));
            assert(backtracks(me.8, x0));
        }
        let e8 = e7.or(e8);
        input.reset(start.checkpoint());
        let e9 = match self.9.parse_next(input) {
            Err(ErrMode::Backtrack(e)) => e,
            res => {
                return res;
            },
        };
        proof {
            assert(stops_with(*input, e9));
            assert(backtracks(me.9, x0));
        }
        let e9 = e8.or(e9);
        input.reset(start.checkpoint());
        match self.10.parse_next(input) {
            Err(ErrMode::Backtrack(e)) => {
                let ghost last = e;
                let ghost stop = *input;
                let e = e9.or(e);
                input.reset(start);
                let e = e.append(&*input, ErrorKind::Alt);
                proof {
                    assert(stops_with(stop, last));
                }
                Err(ErrMode::Backtrack(e))
            },
            res => res,
        }
    }
}

impl<I, O, E, A1, A2, A3, A4, A5, A6, A7, A8, A9, A10, A11, A12> Alt<I, O, E> for
    (A1, A2, A3, A4, A5, A6, A7, A8, A9, A10, A11, A12) where
    I: Stream,
    E: ParseError<I>,
    A1: Parser<I, O, E>,
    A2: Parser<I, O, E>,
    A3: Parser<I, O, E>,
    A4: Parser<I, O, E>,
    A5: Parser<I, O, E>,
    A6: Parser<I, O, E>,
    A7: Parser<I, O, E>,
    A8: Parser<I, O, E>,
    A9: Parser<I, O, E>,
    A10: Parser<I, O, E>,
    A11: Parser<I, O, E>,
    A12: Parser<I, O, E>,
 {
    open spec fn alt_wf(&self) -> bool {
        &&& self.0.wf()
        &&& self.1.wf()
        &&& self.2.wf()
        &&& self.3.wf()
        &&& self.4.wf()
        &&& self.5.wf()
        &&& self.6.wf()
        &&& self.7.wf()
        &&& self.8.wf()
        &&& self.9.wf()
        &&& self.10.wf()
        &&& self.11.wf()
    }

    open spec fn chooses(&self, before: I, after: I, r: PResult<O, E>) -> bool {
        let from_11 = alt_last(self.11, before, after, r);
        let from_10 = alt_more(self.10, from_11, before, after, r);
        let from_9 = alt_more(self.9, from_10, before, after, r);
        let from_8 = alt_more(self.8, from_9, before, after, r);
        let from_7 = alt_more(self.7, from_8, before, after, r);
        let from_6 = alt_more(self.6, from_7, before, after, r);
        let from_5 = alt_more(self.5, from_6, before, after, r);
        let from_4 = alt_more(self.4, from_5, before, after, r);
        let from_3 = alt_more(self.3, from_4, before, after, r);
        let from_2 = alt_more(self.2, from_3, before, after, r);
        let from_1 = alt_more(self.1, from_2, before, after, r);
        alt_more(self.0, from_1, before, after, r)
    }

    fn choice(&mut self, input: &mut I) -> (r: PResult<O, E>) {
        let ghost me = *self;
        let ghost x0 = *input;
        let start = input.checkpoint();
        let e0 = match self.0.parse_next(input) {
            Err(ErrMode::Backtrack(e)) => e,
            res => {
                return res;
            },
        };
        proof {
            assert(stops_with(*input, e0));
            assert(backtracks(me.0, x0));
        }
        input.reset(start.checkpoint());
        let e1 = match self.1.parse_next(input) {
            Err(ErrMode::Backtrack(e)) => e,
            res => {
                return res;
            },
        };
        proof {
            assert(stops_with(*input, e1));
            assert(backtracks(me.1, x0));
        }
        let e1 = e0.or(e1);
        input.reset(start.checkpoint());
        let e2 = match self.2.parse_next(input) {
            Err(ErrMode::Backtrack(e)) => e,
            res => {
                return res;
            },
        };
        proof {
            assert(stops_with(*input, e2));
            assert(backtracks(me.2, x0));
        }
        let e2 = e1.or(e2);
        input.reset(start.checkpoint());
        let e3 = match self.3.parse_next(input) {
            Err(ErrMode::Backtrack(e)) => e,
            res => {
                return res;
            },
        };
        proof {
            assert(stops_with(*input, e3));
            assert(backtracks(me.3, x0));
        }
        let e3 = e2.or(e3);
        input.reset(start.checkpoint());
        let e4 = match self.4.parse_next(input) {
            Err(ErrMode::Backtrack(e)) => e,
            res => {
                return res;
            },
        };
        proof {
            assert(stops_with(*input, e4));
            assert(backtracks(me.4, x0));
        }
        let e4 = e3.or(e4);
        input.reset(start.checkpoint());
        let e5 = match self.5.parse_next(input) {
            Err(ErrMode::Backtrack(e)) => e,
            res => {
                return res;
            },
        };
        proof {
            assert(stops_with(*input, e5));
            assert(backtracks(me.5, x0));
        }
        let e5 = e4.or(e5);
        input.reset(start.checkpoint());
        let e6 = match self.6.parse_next(input) {
            Err(ErrMode::Backtrack(e)) => e,
            res => {
                return res;
            },
        };
        proof {
            assert(stops_with(*input, e6));
            assert(backtracks(me.6, x0));
        }
        let e6 = e5.or(e6);
        input.reset(start.checkpoint());
        let e7 = match self.7.parse_next(input) {
            Err(ErrMode::Backtrack(e)) => e,
            res => {
                return res;
            },
        };
        proof {
            assert(stops_with(*input, e7));
            assert(backtracks(me.7, x0));
        }
        let e7 = e6.or(e7);
        input.reset(start.checkpoint());
        let e8 = match self.8.parse_next(input) {
            Err(ErrMode::Backtrack(e)) => e,
            res => {
                return res;
            },
        };
        proof {
            assert(stops_with(*input, e8));
            assert(backtracks(me.8, x0));
        }
        let e8 = e7.or(e8);
        input.reset(start.checkpoint());
        let e9 = match self.9.parse_next(input) {
            Err(ErrMode::Backtrack(e)) => e,
            res => {
                return res;
            },
        };
        proof {
            assert(stops_with(*input, e9));
            assert(backtracks(me.9, x0));
        }
        let e9 = e8.or(e9);
        input.reset(start.checkpoint());
        let e10 = match self.10.parse_next(input) {
            Err(ErrMode::Backtrack(e)) => e,
            res => {
                return res;
            },
        };
        proof {
            assert(stops_with(*input, e10));
            assert(backtracks(me.10, x0));
        }
        let e10 = e9.or(e10);
        input.reset(start.checkpoint());
        match self.11.parse_next(input) {
            Err(ErrMode::Backtrack(e)) => {
                let ghost last = e;
                let ghost stop = *input;
                let e = e10.or(e);
                input.reset(start);
                let e = e.append(&*input, ErrorKind::Alt);
                proof {
                    assert(stops_with(stop, last));
                }
                Err(ErrMode::Backtrack(e))
            },
            res => res,
        }
    }
}

impl<I, O, E, A1, A2, A3, A4, A5, A6, A7, A8, A9, A10, A11, A12, A13> Alt<I, O, E> for
    (A1, A2, A3, A4, A5, A6, A7, A8, A9, A10, A11, A12, A13) where
    I: Stream,
    E: ParseError<I>,
    A1: Parser<I, O, E>,
    A2: Parser<I, O, E>,
    A3: Parser<I, O, E>,
    A4: Parser<I, O, E>,
    A5: Parser<I, O, E>,
    A6: Parser<I, O, E>,
    A7: Parser<I, O, E>,
    A8: Parser<I, O, E>,
    A9: Parser<I, O, E>,
    A10: Parser<I, O, E>,
    A11: Parser<I, O, E>,
    A12: Parser<I, O, E>,
    A13: Parser<I, O, E>,
 {
    open spec fn alt_wf(&self) -> bool {
        &&& self.0.wf()
        &&& self.1.wf()
        &&& self.2.wf()
        &&& self.3.wf()
        &&& self.4.wf()
        &&& self.5.wf()
        &&& self.6.wf()
        &&& self.7.wf()
        &&& self.8.wf()
        &&& self.9.wf()
        &&& self.10.wf()
        &&& self.11.wf()
        &&& self.12.wf()
    }

    open spec fn chooses(&self, before: I, after: I, r: PResult<O, E>) -> bool {
        let from_12 = alt_last(self.12, before, after, r);
        let from_11 = alt_more(self.11, from_12, before, after, r);
        let from_10 = alt_more(self.10, from_11, before, after, r);
        let from_9 = alt_more(self.9, from_10, before, after, r);
        let from_8 = alt_more(self.8, from_9, before, after, r);
        let from_7 = alt_more(self.7, from_8, before, after, r);
        let from_6 = alt_more(self.6, from_7, before, after, r);
        let from_5 = alt_more(self.5, from_6, before, after, r);
        let from_4 = alt_more(self.4, from_5, before, after, r);
        let from_3 = alt_more(self.3, from_4, before, after, r);
        let from_2 = alt_more(self.2, from_3, before, after, r);
        let from_1 = alt_more(self.1, from_2, before, after, r);
        alt_more(self.0, from_1, before, after, r)
    }

    fn choice(&mut self, input: &mut I) -> (r: PResult<O, E>) {
        let ghost me = *self;
        let ghost x0 = *input;
        let start = input.checkpoint();
        let e0 = match self.0.parse_next(input) {
            Err(ErrMode::Backtrack(e)) => e,
            res => {
                return res;
            },
        };
        proof {
            assert(stops_with(*input, e0));
            assert(backtracks(me.0, x0));
        }
        input.reset(start.checkpoint());
        let e1 = match self.1.parse_next(input) {
            Err(ErrMode::Backtrack(e)) => e,
            res => {
                return res;
            },
        };
        proof {
            assert(stops_with(*input, e1));
            assert(backtracks(me.1, x0));
        }
        let e1 = e0.or(e1);
        input.reset(start.checkpoint());
        let e2 = match self.2.parse_next(input) {
            Err(ErrMode::Backtrack(e)) => e,
            res => {
                return res;
            },
        };
        proof {
            assert(stops_with(*input, e2));
            assert(backtracks(me.2, x0));
        }
        let e2 = e1.or(e2);
        input.reset(start.checkpoint());
        let e3 = match self.3.parse_next(input) {
            Err(ErrMode::Backtrack(e)) => e,
            res => {
                return res;
            },
        };
        proof {
            assert(stops_with(*input, e3));
            assert(backtracks(me.3, x0));
        }
        let e3 = e2.or(e3);
        input.reset(start.checkpoint());
        let e4 = match self.4.parse_next(input) {
            Err(ErrMode::Backtrack(e)) => e,
            res => {
                return res;
            },
        };
        proof {
            assert(stops_with(*input, e4));
            assert(backtracks(me.4, x0));
        }
        let e4 = e3.or(e4);
        input.reset(start.checkpoint());
        let e5 = match self.5.parse_next(input) {
            Err(ErrMode::Backtrack(e)) => e,
            res => {
                return res;
            },
        };
        proof {
            assert(stops_with(*input, e5));
            assert(backtracks(me.5, x0));
        }
        let e5 = e4.or(e5);
        input.reset(start.checkpoint());
        let e6 = match self.6.parse_next(input) {
            Err(ErrMode::Backtrack(e)) => e,
            res => {
                return res;
            },
        };
        proof {
            assert(stops_with(*input, e6));
            assert(backtracks(me.6, x0));
        }
        let e6 = e5.or(e6);
        input.reset(start.checkpoint());
        let e7 = match self.7.parse_next(input) {
            Err(ErrMode::Backtrack(e)) => e,
            res => {
                return res;
            },
        };
        proof {
            assert(stops_with(*input, e7));
            assert(backtracks(me.7, x0));
        }
        let e7 = e6.or(e7);
        input.reset(start.checkpoint());
        let e8 = match self.8.parse_next(input) {
            Err(ErrMode::Backtrack(e)) => e,
            res => {
                return res;
            },
        };
        proof {
            assert(stops_with(*input, e8));
            assert(backtracks(me.8, x0));
        }
        let e8 = e7.or(e8);
        input.reset(start.checkpoint());
        let e9 = match self.9.parse_next(input) {
            Err(ErrMode::Backtrack(e)) => e,
            res => {
                return res;
            },
        };
        proof {
            assert(stops_with(*input, e9));
            assert(backtracks(me.9, x0));
        }
        let e9 = e8.or(e9);
        input.reset(start.checkpoint());
        let e10 = match self.10.parse_next(input) {
            Err(ErrMode::Backtrack(e)) => e,
            res => {
                return res;
            },
        };
        proof {
            assert(stops_with(*input, e10));
            assert(backtracks(me.10, x0));
        }
        let e10 = e9.or(e10);
        input.reset(start.checkpoint());
        let e11 = match self.11.parse_next(input) {
            Err(ErrMode::Backtrack(e)) => e,
            res => {
                return res;
            },
        };
        proof {
            assert(stops_with(*input, e11));
            assert(backtracks(me.11, x0));
        }
        let e11 = e10.or(e11);
        input.reset(start.checkpoint());
        match self.12.parse_next(input) {
            Err(ErrMode::Backtrack(e)) => {
                let ghost last = e;
                let ghost stop = *input;
                let e = e11.or(e);
                input.reset(start);
                let e = e.append(&*input, ErrorKind::Alt);
                proof {
                    assert(stops_with(stop, last));
                }
                Err(ErrMode::Backtrack(e))
            },
            res => res,
        }
    }
}

impl<I, O, E, A1, A2, A3, A4, A5, A6, A7, A8, A9, A10, A11, A12, A13, A14> Alt<I, O, E> for
    (A1, A2, A3, A4, A5, A6, A7, A8, A9, A10, A11, A12, A13, A14) where
    I: Stream,
    E: ParseError<I>,
    A1: Parser<I, O, E>,
    A2: Parser<I, O, E>,
    A3: Parser<I, O, E>,
    A4: Parser<I, O, E>,
    A5: Parser<I, O, E>,
    A6: Parser<I, O, E>,
    A7: Parser<I, O, E>,
    A8: Parser<I, O, E>,
    A9: Parser<I, O, E>,
    A10: Parser<I, O, E>,
    A11: Parser<I, O, E>,
    A12: Parser<I, O, E>,
    A13: Parser<I, O, E>,
    A14: Parser<I, O, E>,
 {
    open spec fn alt_wf(&self) -> bool {
        &&& self.0.wf()
        &&& self.1.wf()
        &&& self.2.wf()
        &&& self.3.wf()
        &&& self.4.wf()
        &&& self.5.wf()
        &&& self.6.wf()
        &&& self.7.wf()
        &&& self.8.wf()
        &&& self.9.wf()
        &&& self.10.wf()
        &&& self.11.wf()
        &&& self.12.wf()
        &&& self.13.wf()
    }

    open spec fn chooses(&self, before: I, after: I, r: PResult<O, E>) -> bool {
        let from_13 = alt_last(self.13, before, after, r);
        let from_12 = alt_more(self.12, from_13, before, after, r);
        let from_11 = alt_more(self.11, from_12, before, after, r);
        let from_10 = alt_more(self.10, from_11, before, after, r);
        let from_9 = alt_more(self.9, from_10, before, after, r);
        let from_8 = alt_more(self.8, from_9, before, after, r);
        let from_7 = alt_more(self.7, from_8, before, after, r);
        let from_6 = alt_more(self.6, from_7, before, after, r);
        let from_5 = alt_more(self.5, from_6, before, after, r);
        let from_4 = alt_more(self.4, from_5, before, after, r);
        let from_3 = alt_more(self.3, from_4, before, after, r);
        let from_2 = alt_more(self.2, from_3, before, after, r);
        let from_1 = alt_more(self.1, from_2, before, after, r);
        alt_more(self.0, from_1, before, after, r)
    }

    fn choice(&mut self, input: &mut I) -> (r: PResult<O, E>) {
        let ghost me = *self;
        let ghost x0 = *input;
        let start = input.checkpoint();
        let e0 = match self.0.parse_next(input) {
            Err(ErrMode::Backtrack(e)) => e,
            res => {
                return res;
            },
        };
        proof {
            assert(stops_with(*input, e0));
            assert(backtracks(me.0, x0));
        }
        input.reset(start.checkpoint());
        let e1 = match self.1.parse_next(input) {
            Err(ErrMode::Backtrack(e)) => e,
            res => {
                return res;
            },
        };
        proof {
            assert(stops_with(*input, e1));
            assert(backtracks(me.1, x0));
        }
        let e1 = e0.or(e1);
        input.reset(start.checkpoint());
        let e2 = match self.2.parse_next(input) {
            Err(ErrMode::Backtrack(e)) => e,
            res => {
                return res;
            },
        };
        proof {
            assert(stops_with(*input, e2));
            assert(backtracks(me.2, x0));
        }
        let e2 = e1.or(e2);
        input.reset(start.checkpoint());
        let e3 = match self.3.parse_next(input) {
            Err(ErrMode::Backtrack(e)) => e,
            res => {
                return res;
            },
        };
        proof {
            assert(stops_with(*input, e3));
            assert(backtracks(me.3, x0));
        }
        let e3 = e2.or(e3);
        input.reset(start.checkpoint());
        let e4 = match self.4.parse_next(input) {
            Err(ErrMode::Backtrack(e)) => e,
            res => {
                return res;
            },
        };
        proof {
            assert(stops_with(*input, e4));
            assert(backtracks(me.4, x0));
        }
        let e4 = e3.or(e4);
        input.reset(start.checkpoint());
        let e5 = match self.5.parse_next(input) {
            Err(ErrMode::Backtrack(e)) => e,
            res => {
                return res;
            },
        };
        proof {
            assert(stops_with(*input, e5));
            assert(backtracks(me.5, x0));
        }
        let e5 = e4.or(e5);
        input.reset(start.checkpoint());
        let e6 = match self.6.parse_next(input) {
            Err(ErrMode::Backtrack(e)) => e,
            res => {
                return res;
            },
        };
        proof {
            assert(stops_with(*input, e6));
            assert(backtracks(me.6, x0));
        }
        let e6 = e5.or(e6);
        input.reset(start.checkpoint());
        let e7 = match self.7.parse_next(input) {
            Err(ErrMode::Backtrack(e)) => e,
            res => {
                return res;
            },
        };
        proof {
            assert(stops_with(*input, e7));
            assert(backtracks(me.7, x0));
        }
        let e7 = e6.or(e7);
        input.reset(start.checkpoint());
        let e8 = match self.8.parse_next(input) {
            Err(ErrMode::Backtrack(e)) => e,
            res => {
                return res;
            },
        };
        proof {
            assert(stops_with(*input, e8));
            assert(backtracks(me.8, x0));
        }
        let e8 = e7.or(e8);
        input.reset(start.checkpoint());
        let e9 = match self.9.parse_next(input) {
            Err(ErrMode::Backtrack(e)) => e,
            res => {
                return res;
            },
        };
        proof {
            assert(stops_with(*input, e9));
            assert(backtracks(me.9, x0));
        }
        let e9 = e8.or(e9);
        input.reset(start.checkpoint());
        let e10 = match self.10.parse_next(input) {
            Err(ErrMode::Backtrack(e)) => e,
            res => {
                return res;
            },
        };
        proof {
            assert(stops_with(*input, e10));
            assert(backtracks(me.10, x0));
        }
        let e10 = e9.or(e10);
        input.reset(start.checkpoint());
        let e11 = match self.11.parse_next(input) {
            Err(ErrMode::Backtrack(e)) => e,
            res => {
                return res;
            },
        };
        proof {
            assert(stops_with(*input, e11));
            assert(backtracks(me.11, x0));
        }
        let e11 = e10.or(e11);
        input.reset(start.checkpoint());
        let e12 = match self.12.parse_next(input) {
            Err(ErrMode::Backtrack(e)) => e,
            res => {
                return res;
            },
        };
        proof {
            assert(stops_with(*input, e12));
            assert(backtracks(me.12, x0));
        }
        let e12 = e11.or(e12);
        input.reset(start.checkpoint());
        match self.13.parse_next(input) {
            Err(ErrMode::Backtrack(e)) => {
                let ghost last = e;
                let ghost stop = *input;
                let e = e12.or(e);
                input.reset(start);
                let e = e.append(&*input, ErrorKind::Alt);
                proof {
                    assert(stops_with(stop, last));
                }
                Err(ErrMode::Backtrack(e))
            },
            res => res,
        }
    }
}

impl<I, O, E, A1, A2, A3, A4, A5, A6, A7, A8, A9, A10, A11, A12, A13, A14, A15> Alt<I, O, E> for
    (A1, A2, A3, A4, A5, A6, A7, A8, A9, A10, A11, A12, A13, A14, A15) where
    I: Stream,
    E: ParseError<I>,
    A1: Parser<I, O, E>,
    A2: Parser<I, O, E>,
    A3: Parser<I, O, E>,
    A4: Parser<I, O, E>,
    A5: Parser<I, O, E>,
    A6: Parser<I, O, E>,
    A7: Parser<I, O, E>,
    A8: Parser<I, O, E>,
    A9: Parser<I, O, E>,
    A10: Parser<I, O, E>,
    A11: Parser<I, O, E>,
    A12: Parser<I, O, E>,
    A13: Parser<I, O, E>,
    A14: Parser<I, O, E>,
    A15: Parser<I, O, E>,
 {
    open spec fn alt_wf(&self) -> bool {
        &&& self.0.wf()
        &&& self.1.wf()
        &&& self.2.wf()
        &&& self.3.wf()
        &&& self.4.wf()
        &&& self.5.wf()
        &&& self.6.wf()
        &&& self.7.wf()
        &&& self.8.wf()
        &&& self.9.wf()
        &&& self.10.wf()
        &&& self.11.wf()
        &&& self.12.wf()
        &&& self.13.wf()
        &&& self.14.wf()
    }

    open spec fn chooses(&self, before: I, after: I, r: PResult<O, E>) -> bool {
        let from_14 = alt_last(self.14, before, after, r);
        let from_13 = alt_more(self.13, from_14, before, after, r);
        let from_12 = alt_more(self.12, from_13, before, after, r);
        let from_11 = alt_more(self.11, from_12, before, after, r);
        let from_10 = alt_more(self.10, from_11, before, after, r);
        let from_9 = alt_more(self.9, from_10, before, after, r);
        let from_8 = alt_more(self.8, from_9, before, after, r);
        let from_7 = alt_more(self.7, from_8, before, after, r);
        let from_6 = alt_more(self.6, from_7, before, after, r);
        let from_5 = alt_more(self.5, from_6, before, after, r);
        let from_4 = alt_more(self.4, from_5, before, after, r);
        let from_3 = alt_more(self.3, from_4, before, after, r);
        let from_2 = alt_more(self.2, from_3, before, after, r);
        let from_1 = alt_more(self.1, from_2, before, after, r);
        alt_more(self.0, from_1, before, after, r)
    }

    fn choice(&mut self, input: &mut I) -> (r: PResult<O, E>) {
        let ghost me = *self;
        let ghost x0 = *input;
        let start = input.checkpoint();
        let e0 = match self.0.parse_next(input) {
            Err(ErrMode::Backtrack(e)) => e,
            res => {
                return res;
            },
        };
        proof {
            assert(stops_with(*input, e0));
            assert(backtracks(me.0, x0));
        }
        input.reset(start.checkpoint());
        let e1 = match self.1.parse_next(input) {
            Err(ErrMode::Backtrack(e)) => e,
            res => {
                return res;
            },
        };
        proof {
            assert(stops_with(*input, e1));
            assert(backtracks(me.1, x0));
        }
        let e1 = e0.or(e1);
        input.reset(start.checkpoint());
        let e2 = match self.2.parse_next(input) {
            Err(ErrMode::Backtrack(e)) => e,
            res => {
                return res;
            },
        };
        proof {
            assert(stops_with(*input, e2));
            assert(backtracks(me.2, x0));
        }
        let e2 = e1.or(e2);
        input.reset(start.checkpoint());
        let e3 = match self.3.parse_next(input) {
            Err(ErrMode::Backtrack(e)) => e,
            res => {
                return res;
            },
        };
        proof {
            assert(stops_with(*input, e3));
            assert(backtracks(me.3, x0));
        }
        let e3 = e2.or(e3);
        input.reset(start.checkpoint());
        let e4 = match self.4.parse_next(input) {
            Err(ErrMode::Backtrack(e)) => e,
            res => {
                return res;
            },
        };
        proof {
            assert(stops_with(*input, e4));
            assert(backtracks(me.4, x0));
        }
        let e4 = e3.or(e4);
        input.reset(start.checkpoint());
        let e5 = match self.5.parse_next(input) {
            Err(ErrMode::Backtrack(e)) => e,
            res => {
                return res;
            },
        };
        proof {
            assert(stops_with(*input, e5));
            assert(backtracks(me.5, x0));
        }
        let e5 = e4.or(e5);
        input.reset(start.checkpoint());
        let e6 = match self.6.parse_next(input) {
            Err(ErrMode::Backtrack(e)) => e,
            res => {
                return res;
            },
        };
        proof {
            assert(stops_with(*input, e6));
            assert(backtracks(me.6, x0));
        }
        let e6 = e5.or(e6);
        input.reset(start.checkpoint());
        let e7 = match self.7.parse_next(input) {
            Err(ErrMode::Backtrack(e)) => e,
            res => {
                return res;
            },
        };
        proof {
            assert(stops_with(*input, e7));
            assert(backtracks(me.7, x0));
        }
        let e7 = e6.or(e7);
        input.reset(start.checkpoint());
        let e8 = match self.8.parse_next(input) {
            Err(ErrMode::Backtrack(e)) => e,
            res => {
                return res;
            },
        };
        proof {
            assert(stops_with(*input, e8));
            assert(backtracks(me.8, x0));
        }
        let e8 = e7.or(e8);
        input.reset(start.checkpoint());
        let e9 = match self.9.parse_next(input) {
            Err(ErrMode::Backtrack(e)) => e,
            res => {
                return res;
            },
        };
        proof {
            assert(stops_with(*input, e9));
            assert(backtracks(me.9, x0));
        }
        let e9 = e8.or(e9);
        input.reset(start.checkpoint());
        let e10 = match self.10.parse_next(input) {
            Err(ErrMode::Backtrack(e)) => e,
            res => {
                return res;
            },
        };
        proof {
            assert(stops_with(*input, e10));
            assert(backtracks(me.10, x0));
        }
        let e10 = e9.or(e10);
        input.reset(start.checkpoint());
        let e11 = match self.11.parse_next(input) {
            Err(ErrMode::Backtrack(e)) => e,
            res => {
                return res;
            },
        };
        proof {
            assert(stops_with(*input, e11));
            assert(backtracks(me.11, x0));
        }
        let e11 = e10.or(e11);
        input.reset(start.checkpoint());
        let e12 = match self.12.parse_next(input) {
            Err(ErrMode::Backtrack(e)) => e,
            res => {
                return res;
            },
        };
        proof {
            assert(stops_with(*input, e12));
            assert(backtracks(me.12, x0));
        }
        let e12 = e11.or(e12);
        input.reset(start.checkpoint());
        let e13 = match self.13.parse_next(input) {
            Err(ErrMode::Backtrack(e)) => e,
            res => {
                return res;
            },
        };
        proof {
            assert(stops_with(*input, e13));
            assert(backtracks(me.13, x0));
        }
        let e13 = e12.or(e13);
        input.reset(start.checkpoint());
        match self.14.parse_next(input) {
            Err(ErrMode::Backtrack(e)) => {
                let ghost last = e;
                let ghost stop = *input;
                let e = e13.or(e);
                input.reset(start);
                let e = e.append(&*input, ErrorKind::Alt);
                proof {
                    assert(stops_with(stop, last));
                }
                Err(ErrMode::Backtrack(e))
            },
            res => res,
        }
    }
}

impl<
    I, O, E, A1, A2, A3, A4, A5, A6, A7, A8, A9, A10, A11, A12, A13, A14, A15, A16,
> Alt<I, O, E> for
    (A1, A2, A3, A4, A5, A6, A7, A8, A9, A10, A11, A12, A13, A14, A15, A16) where
    I: Stream,
    E: ParseError<I>,
    A1: Parser<I, O, E>,
    A2: Parser<I, O, E>,
    A3: Parser<I, O, E>,
    A4: Parser<I, O, E>,
    A5: Parser<I, O, E>,
    A6: Parser<I, O, E>,
    A7: Parser<I, O, E>,
    A8: Parser<I, O, E>,
    A9: Parser<I, O, E>,
    A10: Parser<I, O, E>,
    A11: Parser<I, O, E>,
    A12: Parser<I, O, E>,
    A13: Parser<I, O, E>,
    A14: Parser<I, O, E>,
    A15: Parser<I, O, E>,
    A16: Parser<I, O, E>,
 {
    open spec fn alt_wf(&self) -> bool {
        &&& self.0.wf()
        &&& self.1.wf()
        &&& self.2.wf()
        &&& self.3.wf()
        &&& self.4.wf()
        &&& self.5.wf()
        &&& self.6.wf()
        &&& self.7.wf()
        &&& self.8.wf()
        &&& self.9.wf()
        &&& self.10.wf()
        &&& self.11.wf()
        &&& self.12.wf()
        &&& self.13.wf()
        &&& self.14.wf()
        &&& self.15.wf()
    }

    open spec fn chooses(&self, before: I, after: I, r: PResult<O, E>) -> bool {
        let from_15 = alt_last(self.15, before, after, r);
        let from_14 = alt_more(self.14, from_15, before, after, r);
        let from_13 = alt_more(self.13, from_14, before, after, r);
        let from_12 = alt_more(self.12, from_13, before, after, r);
        let from_11 = alt_more(self.11, from_12, before, after, r);
        let from_10 = alt_more(self.10, from_11, before, after, r);
        let from_9 = alt_more(self.9, from_10, before, after, r);
        let from_8 = alt_more(self.8, from_9, before, after, r);
        let from_7 = alt_more(self.7, from_8, before, after, r);
        let from_6 = alt_more(self.6, from_7, before, after, r);
        let from_5 = alt_more(self.5, from_6, before, after, r);
        let from_4 = alt_more(self.4, from_5, before, after, r);
        let from_3 = alt_more(self.3, from_4, before, after, r);
        let from_2 = alt_more(self.2, from_3, before, after, r);
        let from_1 = alt_more(self.1, from_2, before, after, r);
        alt_more(self.0, from_1, before, after, r)
    }

    fn choice(&mut self, input: &mut I) -> (r: PResult<O, E>) {
        let ghost me = *self;
        let ghost x0 = *input;
        let start = input.checkpoint();
        let e0 = match self.0.parse_next(input) {
            Err(ErrMode::Backtrack(e)) => e,
            res => {
                return res;
            },
        };
        proof {
            assert(stops_with(*input, e0));
            assert(backtracks(me.0, x0));
        }
        input.reset(start.checkpoint());
        let e1 = match self.1.parse_next(input) {
            Err(ErrMode::Backtrack(e)) => e,
            res => {
                return res;
            },
        };
        proof {
            assert(stops_with(*input, e1));
            assert(backtracks(me.1, x0));
        }
        let e1 = e0.or(e1);
        input.reset(start.checkpoint());
        let e2 = match self.2.parse_next(input) {
            Err(ErrMode::Backtrack(e)) => e,
            res => {
                return res;
            },
        };
        proof {
            assert(stops_with(*input, e2));
            assert(backtracks(me.2, x0));
        }
        let e2 = e1.or(e2);
        input.reset(start.checkpoint());
        let e3 = match self.3.parse_next(input) {
            Err(ErrMode::Backtrack(e)) => e,
            res => {
                return res;
            },
        };
        proof {
            assert(stops_with(*input, e3));
            assert(backtracks(me.3, x0));
        }
        let e3 = e2.or(e3);
        input.reset(start.checkpoint());
        let e4 = match self.4.parse_next(input) {
            Err(ErrMode::Backtrack(e)) => e,
            res => {
                return res;
            },
        };
        proof {
            assert(stops_with(*input, e4));
            assert(backtracks(me.4, x0));
        }
        let e4 = e3.or(e4);
        input.reset(start.checkpoint());
        let e5 = match self.5.parse_next(input) {
            Err(ErrMode::Backtrack(e)) => e,
            res => {
                return res;
            },
        };
        proof {
            assert(stops_with(*input, e5));
            assert(backtracks(me.5, x0));
        }
        let e5 = e4.or(e5);
        input.reset(start.checkpoint());
        let e6 = match self.6.parse_next(input) {
            Err(ErrMode::Backtrack(e)) => e,
            res => {
                return res;
            },
        };
        proof {
            assert(stops_with(*input, e6));
            assert(backtracks(me.6, x0));
        }
        let e6 = e5.or(e6);
        input.reset(start.checkpoint());
        let e7 = match self.7.parse_next(input) {
            Err(ErrMode::Backtrack(e)) => e,
            res => {
                return res;
            },
        };
        proof {
            assert(stops_with(*input, e7));
            assert(backtracks(me.7, x0));
        }
        let e7 = e6.or(e7);
        input.reset(start.checkpoint());
        let e8 = match self.8.parse_next(input) {
            Err(ErrMode::Backtrack(e)) => e,
            res => {
                return res;
            },
        };
        proof {
            assert(stops_with(*input, e8));
            assert(backtracks(me.8, x0));
        }
        let e8 = e7.or(e8);
        input.reset(start.checkpoint());
        let e9 = match self.9.parse_next(input) {
            Err(ErrMode::Backtrack(e)) => e,
            res => {
                return res;
            },
        };
        proof {
            assert(stops_with(*input, e9));
            assert(backtracks(me.9, x0));
        }
        let e9 = e8.or(e9);
        input.reset(start.checkpoint());
        let e10 = match self.10.parse_next(input) {
            Err(ErrMode::Backtrack(e)) => e,
            res => {
                return res;
            },
        };
        proof {
            assert(stops_with(*input, e10));
            assert(backtracks(me.10, x0));
        }
        let e10 = e9.or(e10);
        input.reset(start.checkpoint());
        let e11 = match self.11.parse_next(input) {
            Err(ErrMode::Backtrack(e)) => e,
            res => {
                return res;
            },
        };
        proof {
            assert(stops_with(*input, e11));
            assert(backtracks(me.11, x0));
        }
        let e11 = e10.or(e11);
        input.reset(start.checkpoint());
        let e12 = match self.12.parse_next(input) {
            Err(ErrMode::Backtrack(e)) => e,
            res => {
                return res;
            },
        };
        proof {
            assert(stops_with(*input, e12));
            assert(backtracks(me.12, x0));
        }
        let e12 = e11.or(e12);
        input.reset(start.checkpoint());
        let e13 = match self.13.parse_next(input) {
            Err(ErrMode::Backtrack(e)) => e,
            res => {
                return res;
            },
        };
        proof {
            assert(stops_with(*input, e13));
            assert(backtracks(me.13, x0));
        }
        let e13 = e12.or(e13);
        input.reset(start.checkpoint());
        let e14 = match self.14.parse_next(input) {
            Err(ErrMode::Backtrack(e)) => e,
            res => {
                return res;
            },
        };
        proof {
            assert(stops_with(*input, e14));
            assert(backtracks(me.14, x0));
        }
        let e14 = e13.or(e14);
        input.reset(start.checkpoint());
        match self.15.parse_next(input) {
            Err(ErrMode::Backtrack(e)) => {
                let ghost last = e;
                let ghost stop = *input;
                let e = e14.or(e);
                input.reset(start);
                let e = e.append(&*input, ErrorKind::Alt);
                proof {
                    assert(stops_with(stop, last));
                }
                Err(ErrMode::Backtrack(e))
            },
            res => res,
        }
    }
}

impl<
    I, O, E, A1, A2, A3, A4, A5, A6, A7, A8, A9, A10, A11, A12, A13, A14, A15, A16, A17,
> Alt<I, O, E> for
    (A1, A2, A3, A4, A5, A6, A7, A8, A9, A10, A11, A12, A13, A14, A15, A16, A17) where
    I: Stream,
    E: ParseError<I>,
    A1: Parser<I, O, E>,
    A2: Parser<I, O, E>,
    A3: Parser<I, O, E>,
    A4: Parser<I, O, E>,
    A5: Parser<I, O, E>,
    A6: Parser<I, O, E>,
    A7: Parser<I, O, E>,
    A8: Parser<I, O, E>,
    A9: Parser<I, O, E>,
    A10: Parser<I, O, E>,
    A11: Parser<I, O, E>,
    A12: Parser<I, O, E>,
    A13: Parser<I, O, E>,
    A14: Parser<I, O, E>,
    A15: Parser<I, O, E>,
    A16: Parser<I, O, E>,
    A17: Parser<I, O, E>,
 {
    open spec fn alt_wf(&self) -> bool {
        &&& self.0.wf()
        &&& self.1.wf()
        &&& self.2.wf()
        &&& self.3.wf()
        &&& self.4.wf()
        &&& self.5.wf()
        &&& self.6.wf()
        &&& self.7.wf()
        &&& self.8.wf()
        &&& self.9.wf()
        &&& self.10.wf()
        &&& self.11.wf()
        &&& self.12.wf()
        &&& self.13.wf()
        &&& self.14.wf()
        &&& self.15.wf()
        &&& self.16.wf()
    }

    open spec fn chooses(&self, before: I, after: I, r: PResult<O, E>) -> bool {
        let from_16 = alt_last(self.16, before, after, r);
        let from_15 = alt_more(self.15, from_16, before, after, r);
        let from_14 = alt_more(self.14, from_15, before, after, r);
        let from_13 = alt_more(self.13, from_14, before, after, r);
        let from_12 = alt_more(self.12, from_13, before, after, r);
        let from_11 = alt_more(self.11, from_12, before, after, r);
        let from_10 = alt_more(self.10, from_11, before, after, r);
        let from_9 = alt_more(self.9, from_10, before, after, r);
        let from_8 = alt_more(self.8, from_9, before, after, r);
        let from_7 = alt_more(self.7, from_8, before, after, r);
        let from_6 = alt_more(self.6, from_7, before, after, r);
        let from_5 = alt_more(self.5, from_6, before, after, r);
        let from_4 = alt_more(self.4, from_5, before, after, r);
        let from_3 = alt_more(self.3, from_4, before, after, r);
        let from_2 = alt_more(self.2, from_3, before, after, r);
        let from_1 = alt_more(self.1, from_2, before, after, r);
        alt_more(self.0, from_1, before, after, r)
    }

    fn choice(&mut self, input: &mut I) -> (r: PResult<O, E>) {
        let ghost me = *self;
        let ghost x0 = *input;
        let start = input.checkpoint();
        let e0 = match self.0.parse_next(input) {
            Err(ErrMode::Backtrack(e)) => e,
            res => {
                return res;
            },
        };
        proof {
            assert(stops_with(*input, e0));
            assert(backtracks(me.0, x0));
        }
        input.reset(start.checkpoint());
        let e1 = match self.1.parse_next(input) {
            Err(ErrMode::Backtrack(e)) => e,
            res => {
                return res;
            },
        };
        proof {
            assert(stops_with(*input, e1));
            assert(backtracks(me.1, x0));
        }
        let e1 = e0.or(e1);
        input.reset(start.checkpoint());
        let e2 = match self.2.parse_next(input) {
            Err(ErrMode::Backtrack(e)) => e,
            res => {
                return res;
            },
        };
        proof {
            assert(stops_with(*input, e2));
            assert(backtracks(me.2, x0));
        }
        let e2 = e1.or(e2);
        input.reset(start.checkpoint());
        let e3 = match self.3.parse_next(input) {
            Err(ErrMode::Backtrack(e)) => e,
            res => {
                return res;
            },
        };
        proof {
            assert(stops_with(*input, e3));
            assert(backtracks(me.3, x0));
        }
        let e3 = e2.or(e3);
        input.reset(start.checkpoint());
        let e4 = match self.4.parse_next(input) {
            Err(ErrMode::Backtrack(e)) => e,
            res => {
                return res;
            },
        };
        proof {
            assert(stops_with(*input, e4));
            assert(backtracks(me.4, x0));
        }
        let e4 = e3.or(e4);
        input.reset(start.checkpoint());
        let e5 = match self.5.parse_next(input) {
            Err(ErrMode::Backtrack(e)) => e,
            res => {
                return res;
            },
        };
        proof {
            assert(stops_with(*input, e5));
            assert(backtracks(me.5, x0));
        }
        let e5 = e4.or(e5);
        input.reset(start.checkpoint());
        let e6 = match self.6.parse_next(input) {
            Err(ErrMode::Backtrack(e)) => e,
            res => {
                return res;
            },
        };
        proof {
            assert(stops_with(*input, e6));
            assert(backtracks(me.6, x0));
        }
        let e6 = e5.or(e6);
        input.reset(start.checkpoint());
        let e7 = match self.7.parse_next(input) {
            Err(ErrMode::Backtrack(e)) => e,
            res => {
                return res;
            },
        };
        proof {
            assert(stops_with(*input, e7));
            assert(backtracks(me.7, x0));
        }
        let e7 = e6.or(e7);
        input.reset(start.checkpoint());
        let e8 = match self.8.parse_next(input) {
            Err(ErrMode::Backtrack(e)) => e,
            res => {
                return res;
            },
        };
        proof {
            assert(stops_with(*input, e8));
            assert(backtracks(me.8, x0));
        }
        let e8 = e7.or(e8);
        input.reset(start.checkpoint());
        let e9 = match self.9.parse_next(input) {
            Err(ErrMode::Backtrack(e)) => e,
            res => {
                return res;
            },
        };
        proof {
            assert(stops_with(*input, e9));
            assert(backtracks(me.9, x0));
        }
        let e9 = e8.or(e9);
        input.reset(start.checkpoint());
        let e10 = match self.10.parse_next(input) {
            Err(ErrMode::Backtrack(e)) => e,
            res => {
                return res;
            },
        };
        proof {
            assert(stops_with(*input, e10));
            assert(backtracks(me.10, x0));
        }
        let e10 = e9.or(e10);
        input.reset(start.checkpoint());
        let e11 = match self.11.parse_next(input) {
            Err(ErrMode::Backtrack(e)) => e,
            res => {
                return res;
            },
        };
        proof {
            assert(stops_with(*input, e11));
            assert(backtracks(me.11, x0));
        }
        let e11 = e10.or(e11);
        input.reset(start.checkpoint());
        let e12 = match self.12.parse_next(input) {
            Err(ErrMode::Backtrack(e)) => e,
            res => {
                return res;
            },
        };
        proof {
            assert(stops_with(*input, e12));
            assert(backtracks(me.12, x0));
        }
        let e12 = e11.or(e12);
        input.reset(start.checkpoint());
        let e13 = match self.13.parse_next(input) {
            Err(ErrMode::Backtrack(e)) => e,
            res => {
                return res;
            },
        };
        proof {
            assert(stops_with(*input, e13));
            assert(backtracks(me.13, x0));
        }
        let e13 = e12.or(e13);
        input.reset(start.checkpoint());
        let e14 = match self.14.parse_next(input) {
            Err(ErrMode::Backtrack(e)) => e,
            res => {
                return res;
            },
        };
        proof {
            assert(stops_with(*input, e14));
            assert(backtracks(me.14, x0));
        }
        let e14 = e13.or(e14);
        input.reset(start.checkpoint());
        let e15 = match self.15.parse_next(input) {
            Err(ErrMode::Backtrack(e)) => e,
            res => {
                return res;
            },
        };
        proof {
            assert(stops_with(*input, e15));
            assert(backtracks(me.15, x0));
        }
        let e15 = e14.or(e15);
        input.reset(start.checkpoint());
        match self.16.parse_next(input) {
            Err(ErrMode::Backtrack(e)) => {
                let ghost last = e;
                let ghost stop = *input;
                let e = e15.or(e);
                input.reset(start);
                let e = e.append(&*input, ErrorKind::Alt);
                proof {
                    assert(stops_with(stop, last));
                }
                Err(ErrMode::Backtrack(e))
            },
            res => res,
        }
    }
}

impl<
    I, O, E, A1, A2, A3, A4, A5, A6, A7, A8, A9, A10, A11, A12, A13, A14, A15, A16, A17, A18,
> Alt<I, O, E> for
    (A1, A2, A3, A4, A5, A6, A7, A8, A9, A10, A11, A12, A13, A14, A15, A16, A17, A18) where
    I: Stream,
    E: ParseError<I>,
    A1: Parser<I, O, E>,
    A2: Parser<I, O, E>,
    A3: Parser<I, O, E>,
    A4: Parser<I, O, E>,
    A5: Parser<I, O, E>,
    A6: Parser<I, O, E>,
    A7: Parser<I, O, E>,
    A8: Parser<I, O, E>,
    A9: Parser<I, O, E>,
    A10: Parser<I, O, E>,
    A11: Parser<I, O, E>,
    A12: Parser<I, O, E>,
    A13: Parser<I, O, E>,
    A14: Parser<I, O, E>,
    A15: Parser<I, O, E>,
    A16: Parser<I, O, E>,
    A17: Parser<I, O, E>,
    A18: Parser<I, O, E>,
 {
    open spec fn alt_wf(&self) -> bool {
        &&& self.0.wf()
        &&& self.1.wf()
        &&& self.2.wf()
        &&& self.3.wf()
        &&& self.4.wf()
        &&& self.5.wf()
        &&& self.6.wf()
        &&& self.7.wf()
        &&& self.8.wf()
        &&& self.9.wf()
        &&& self.10.wf()
        &&& self.11.wf()
        &&& self.12.wf()
        &&& self.13.wf()
        &&& self.14.wf()
        &&& self.15.wf()
        &&& self.16.wf()
        &&& self.17.wf()
    }

    open spec fn chooses(&self, before: I, after: I, r: PResult<O, E>) -> bool {
        let from_17 = alt_last(self.17, before, after, r);
        let from_16 = alt_more(self.16, from_17, before, after, r);
        let from_15 = alt_more(self.15, from_16, before, after, r);
        let from_14 = alt_more(self.14, from_15, before, after, r);
        let from_13 = alt_more(self.13, from_14, before, after, r);
        let from_12 = alt_more(self.12, from_13, before, after, r);
        let from_11 = alt_more(self.11, from_12, before, after, r);
        let from_10 = alt_more(self.10, from_11, before, after, r);
        let from_9 = alt_more(self.9, from_10, before, after, r);
        let from_8 = alt_more(self.8, from_9, before, after, r);
        let from_7 = alt_more(self.7, from_8, before, after, r);
        let from_6 = alt_more(self.6, from_7, before, after, r);
        let from_5 = alt_more(self.5, from_6, before, after, r);
        let from_4 = alt_more(self.4, from_5, before, after, r);
        let from_3 = alt_more(self.3, from_4, before, after, r);
        let from_2 = alt_more(self.2, from_3, before, after, r);
        let from_1 = alt_more(self.1, from_2, before, after, r);
        alt_more(self.0, from_1, before, after, r)
    }

    fn choice(&mut self, input: &mut I) -> (r: PResult<O, E>) {
        let ghost me = *self;
        let ghost x0 = *input;
        let start = input.checkpoint();
        let e0 = match self.0.parse_next(input) {
            Err(ErrMode::Backtrack(e)) => e,
            res => {
                return res;
            },
        };
        proof {
            assert(stops_with(*input, e0));
            assert(backtracks(me.0, x0));
        }
        input.reset(start.checkpoint());
        let e1 = match self.1.parse_next(input) {
            Err(ErrMode::Backtrack(e)) => e,
            res => {
                return res;
            },
        };
        proof {
            assert(stops_with(*input, e1));
            assert(backtracks(me.1, x0));
        }
        let e1 = e0.or(e1);
        input.reset(start.checkpoint());
        let e2 = match self.2.parse_next(input) {
            Err(ErrMode::Backtrack(e)) => e,
            res => {
                return res;
            },
        };
        proof {
            assert(stops_with(*input, e2));
            assert(backtracks(me.2, x0));
        }
        let e2 = e1.or(e2);
        input.reset(start.checkpoint());
        let e3 = match self.3.parse_next(input) {
            Err(ErrMode::Backtrack(e)) => e,
            res => {
                return res;
            },
        };
        proof {
            assert(stops_with(*input, e3));
            assert(backtracks(me.3, x0));
        }
        let e3 = e2.or(e3);
        input.reset(start.checkpoint());
        let e4 = match self.4.parse_next(input) {
            Err(ErrMode::Backtrack(e)) => e,
            res => {
                return res;
            },
        };
        proof {
            assert(stops_with(*input, e4));
            assert(backtracks(me.4, x0));
        }
        let e4 = e3.or(e4);
        input.reset(start.checkpoint());
        let e5 = match self.5.parse_next(input) {
            Err(ErrMode::Backtrack(e)) => e,
            res => {
                return res;
            },
        };
        proof {
            assert(stops_with(*input, e5));
            assert(backtracks(me.5, x0));
        }
        let e5 = e4.or(e5);
        input.reset(start.checkpoint());
        let e6 = match self.6.parse_next(input) {
            Err(ErrMode::Backtrack(e)) => e,
            res => {
                return res;
            },
        };
        proof {
            assert(stops_with(*input, e6));
            assert(backtracks(me.6, x0));
        }
        let e6 = e5.or(e6);
        input.reset(start.checkpoint());
        let e7 = match self.7.parse_next(input) {
            Err(ErrMode::Backtrack(e)) => e,
            res => {
                return res;
            },
        };
        proof {
            assert(stops_with(*input, e7));
            assert(backtracks(me.7, x0));
        }
        let e7 = e6.or(e7);
        input.reset(start.checkpoint());
        let e8 = match self.8.parse_next(input) {
            Err(ErrMode::Backtrack(e)) => e,
            res => {
                return res;
            },
        };
        proof {
            assert(stops_with(*input, e8));
            assert(backtracks(me.8, x0));
        }
        let e8 = e7.or(e8);
        input.reset(start.checkpoint());
        let e9 = match self.9.parse_next(input) {
            Err(ErrMode::Backtrack(e)) => e,
            res => {
                return res;
            },
        };
        proof {
            assert(stops_with(*input, e9));
            assert(backtracks(me.9, x0));
        }
        let e9 = e8.or(e9);
        input.reset(start.checkpoint());
        let e10 = match self.10.parse_next(input) {
            Err(ErrMode::Backtrack(e)) => e,
            res => {
                return res;
            },
        };
        proof {
            assert(stops_with(*input, e10));
            assert(backtracks(me.10, x0));
        }
        let e10 = e9.or(e10);
        input.reset(start.checkpoint());
        let e11 = match self.11.parse_next(input) {
            Err(ErrMode::Backtrack(e)) => e,
            res => {
                return res;
            },
        };
        proof {
            assert(stops_with(*input, e11));
            assert(backtracks(me.11, x0));
        }
        let e11 = e10.or(e11);
        input.reset(start.checkpoint());
        let e12 = match self.12.parse_next(input) {
            Err(ErrMode::Backtrack(e)) => e,
            res => {
                return res;
            },
        };
        proof {
            assert(stops_with(*input, e12));
            assert(backtracks(me.12, x0));
        }
        let e12 = e11.or(e12);
        input.reset(start.checkpoint());
        let e13 = match self.13.parse_next(input) {
            Err(ErrMode::Backtrack(e)) => e,
            res => {
                return res;
            },
        };
        proof {
            assert(stops_with(*input, e13));
            assert(backtracks(me.13, x0));
        }
        let e13 = e12.or(e13);
        input.reset(start.checkpoint());
        let e14 = match self.14.parse_next(input) {
            Err(ErrMode::Backtrack(e)) => e,
            res => {
                return res;
            },
        };
        proof {
            assert(stops_with(*input, e14));
            assert(backtracks(me.14, x0));
        }
        let e14 = e13.or(e14);
        input.reset(start.checkpoint());
        let e15 = match self.15.parse_next(input) {
            Err(ErrMode::Backtrack(e)) => e,
            res => {
                return res;
            },
        };
        proof {
            assert(stops_with(*input, e15));
            assert(backtracks(me.15, x0));
        }
        let e15 = e14.or(e15);
        input.reset(start.checkpoint());
        let e16 = match self.16.parse_next(input) {
            Err(ErrMode::Backtrack(e)) => e,
            res => {
                return res;
            },
        };
        proof {
            assert(stops_with(*input, e16));
            assert(backtracks(me.16, x0));
        }
        let e16 = e15.or(e16);
        input.reset(start.checkpoint());
        match self.17.parse_next(input) {
            Err(ErrMode::Backtrack(e)) => {
                let ghost last = e;
                let ghost stop = *input;
                let e = e16.or(e);
                input.reset(start);
                let e = e.append(&*input, ErrorKind::Alt);
                proof {
                    assert(stops_with(stop, last));
                }
                Err(ErrMode::Backtrack(e))
            },
            res => res,
        }
    }
}

impl<
    I, O, E, A1, A2, A3, A4, A5, A6, A7, A8, A9, A10, A11, A12, A13, A14, A15, A16, A17, A18, A19,
> Alt<I, O, E> for
    (A1, A2, A3, A4, A5, A6, A7, A8, A9, A10, A11, A12, A13, A14, A15, A16, A17, A18, A19) where
    I: Stream,
    E: ParseError<I>,
    A1: Parser<I, O, E>,
    A2: Parser<I, O, E>,
    A3: Parser<I, O, E>,
    A4: Parser<I, O, E>,
    A5: Parser<I, O, E>,
    A6: Parser<I, O, E>,
    A7: Parser<I, O, E>,
    A8: Parser<I, O, E>,
    A9: Parser<I, O, E>,
    A10: Parser<I, O, E>,
    A11: Parser<I, O, E>,
    A12: Parser<I, O, E>,
    A13: Parser<I, O, E>,
    A14: Parser<I, O, E>,
    A15: Parser<I, O, E>,
    A16: Parser<I, O, E>,
    A17: Parser<I, O, E>,
    A18: Parser<I, O, E>,
    A19: Parser<I, O, E>,
 {
    open spec fn alt_wf(&self) -> bool {
        &&& self.0.wf()
        &&& self.1.wf()
        &&& self.2.wf()
        &&& self.3.wf()
        &&& self.4.wf()
        &&& self.5.wf()
        &&& self.6.wf()
        &&& self.7.wf()
        &&& self.8.wf()
        &&& self.9.wf()
        &&& self.10.wf()
        &&& self.11.wf()
        &&& self.12.wf()
        &&& self.13.wf()
        &&& self.14.wf()
        &&& self.15.wf()
        &&& self.16.wf()
        &&& self.17.wf()
        &&& self.18.wf()
    }

    open spec fn chooses(&self, before: I, after: I, r: PResult<O, E>) -> bool {
        let from_18 = alt_last(self.18, before, after, r);
        let from_17 = alt_more(self.17, from_18, before, after, r);
        let from_16 = alt_more(self.16, from_17, before, after, r);
        let from_15 = alt_more(self.15, from_16, before, after, r);
        let from_14 = alt_more(self.14, from_15, before, after, r);
        let from_13 = alt_more(self.13, from_14, before, after, r);
        let from_12 = alt_more(self.12, from_13, before, after, r);
        let from_11 = alt_more(self.11, from_12, before, after, r);
        let from_10 = alt_more(self.10, from_11, before, after, r);
        let from_9 = alt_more(self.9, from_10, before, after, r);
        let from_8 = alt_more(self.8, from_9, before, after, r);
        let from_7 = alt_more(self.7, from_8, before, after, r);
        let from_6 = alt_more(self.6, from_7, before, after, r);
        let from_5 = alt_more(self.5, from_6, before, after, r);
        let from_4 = alt_more(self.4, from_5, before, after, r);
        let from_3 = alt_more(self.3, from_4, before, after, r);
        let from_2 = alt_more(self.2, from_3, before, after, r);
        let from_1 = alt_more(self.1, from_2, before, after, r);
        alt_more(self.0, from_1, before, after, r)
    }

    fn choice(&mut self, input: &mut I) -> (r: PResult<O, E>) {
        let ghost me = *self;
        let ghost x0 = *input;
        let start = input.checkpoint();
        let e0 = match self.0.parse_next(input) {
            Err(ErrMode::Backtrack(e)) => e,
            res => {
                return res;
            },
        };
        proof {
            assert(stops_with(*input, e0));
            assert(backtracks(me.0, x0));
        }
        input.reset(start.checkpoint());
        let e1 = match self.1.parse_next(input) {
            Err(ErrMode::Backtrack(e)) => e,
            res => {
                return res;
            },
        };
        proof {
            assert(stops_with(*input, e1));
            assert(backtracks(me.1, x0));
        }
        let e1 = e0.or(e1);
        input.reset(start.checkpoint());
        let e2 = match self.2.parse_next(input) {
            Err(ErrMode::Backtrack(e)) => e,
            res => {
                return res;
            },
        };
        proof {
            assert(stops_with(*input, e2));
            assert(backtracks(me.2, x0));
        }
        let e2 = e1.or(e2);
        input.reset(start.checkpoint());
        let e3 = match self.3.parse_next(input) {
            Err(ErrMode::Backtrack(e)) => e,
            res => {
                return res;
            },
        };
        proof {
            assert(stops_with(*input, e3));
            assert(backtracks(me.3, x0));
        }
        let e3 = e2.or(e3);
        input.reset(start.checkpoint());
        let e4 = match self.4.parse_next(input) {
            Err(ErrMode::Backtrack(e)) => e,
            res => {
                return res;
            },
        };
        proof {
            assert(stops_with(*input, e4));
            assert(backtracks(me.4, x0));
        }
        let e4 = e3.or(e4);
        input.reset(start.checkpoint());
        let e5 = match self.5.parse_next(input) {
            Err(ErrMode::Backtrack(e)) => e,
            res => {
                return res;
            },
        };
        proof {
            assert(stops_with(*input, e5));
            assert(backtracks(me.5, x0));
        }
        let e5 = e4.or(e5);
        input.reset(start.checkpoint());
        let e6 = match self.6.parse_next(input) {
            Err(ErrMode::Backtrack(e)) => e,
            res => {
                return res;
            },
        };
        proof {
            assert(stops_with(*input, e6));
            assert(backtracks(me.6, x0));
        }
        let e6 = e5.or(e6);
        input.reset(start.checkpoint());
        let e7 = match self.7.parse_next(input) {
            Err(ErrMode::Backtrack(e)) => e,
            res => {
                return res;
            },
        };
        proof {
            assert(stops_with(*input, e7));
            assert(backtracks(me.7, x0));
        }
        let e7 = e6.or(e7);
        input.reset(start.checkpoint());
        let e8 = match self.8.parse_next(input) {
            Err(ErrMode::Backtrack(e)) => e,
            res => {
                return res;
            },
        };
        proof {
            assert(stops_with(*input, e8));
            assert(backtracks(me.8, x0));
        }
        let e8 = e7.or(e8);
        input.reset(start.checkpoint());
        let e9 = match self.9.parse_next(input) {
            Err(ErrMode::Backtrack(e)) => e,
            res => {
                return res;
            },
        };
        proof {
            assert(stops_with(*input, e9));
            assert(backtracks(me.9, x0));
        }
        let e9 = e8.or(e9);
        input.reset(start.checkpoint());
        let e10 = match self.10.parse_next(input) {
            Err(ErrMode::Backtrack(e)) => e,
            res => {
                return res;
            },
        };
        proof {
            assert(stops_with(*input, e10));
            assert(backtracks(me.10, x0));
        }
        let e10 = e9.or(e10);
        input.reset(start.checkpoint());
        let e11 = match self.11.parse_next(input) {
            Err(ErrMode::Backtrack(e)) => e,
            res => {
                return res;
            },
        };
        proof {
            assert(stops_with(*input, e11));
            assert(backtracks(me.11, x0));
        }
        let e11 = e10.or(e11);
        input.reset(start.checkpoint());
        let e12 = match self.12.parse_next(input) {
            Err(ErrMode::Backtrack(e)) => e,
            res => {
                return res;
            },
        };
        proof {
            assert(stops_with(*input, e12));
            assert(backtracks(me.12, x0));
        }
        let e12 = e11.or(e12);
        input.reset(start.checkpoint());
        let e13 = match self.13.parse_next(input) {
            Err(ErrMode::Backtrack(e)) => e,
            res => {
                return res;
            },
        };
        proof {
            assert(stops_with(*input, e13));
            assert(backtracks(me.13, x0));
        }
        let e13 = e12.or(e13);
        input.reset(start.checkpoint());
        let e14 = match self.14.parse_next(input) {
            Err(ErrMode::Backtrack(e)) => e,
            res => {
                return res;
            },
        };
        proof {
            assert(stops_with(*input, e14));
            assert(backtracks(me.14, x0));
        }
        let e14 = e13.or(e14);
        input.reset(start.checkpoint());
        let e15 = match self.15.parse_next(input) {
            Err(ErrMode::Backtrack(e)) => e,
            res => {
                return res;
            },
        };
        proof {
            assert(stops_with(*input, e15));
            assert(backtracks(me.15, x0));
        }
        let e15 = e14.or(e15);
        input.reset(start.checkpoint());
        let e16 = match self.16.parse_next(input) {
            Err(ErrMode::Backtrack(e)) => e,
            res => {
                return res;
            },
        };
        proof {
            assert(stops_with(*input, e16));
            assert(backtracks(me.16, x0));
        }
        let e16 = e15.or(e16);
        input.reset(start.checkpoint());
        let e17 = match self.17.parse_next(input) {
            Err(ErrMode::Backtrack(e)) => e,
            res => {
                return res;
            },
        };
        proof {
            assert(stops_with(*input, e17));
            assert(backtracks(me.17, x0));
        }
        let e17 = e16.or(e17);
        input.reset(start.checkpoint());
        match self.18.parse_next(input) {
            Err(ErrMode::Backtrack(e)) => {
                let ghost last = e;
                let ghost stop = *input;
                let e = e17.or(e);
                input.reset(start);
                let e = e.append(&*input, ErrorKind::Alt);
                proof {
                    assert(stops_with(stop, last));
                }
                Err(ErrMode::Backtrack(e))
            },
            res => res,
        }
    }
}

impl<
    I, O, E, A1, A2, A3, A4, A5, A6, A7, A8, A9, A10, A11, A12, A13, A14, A15, A16, A17, A18, A19,
    A20,
> Alt<I, O, E> for
    (
        A1, A2, A3, A4, A5, A6, A7, A8, A9, A10, A11, A12, A13, A14, A15, A16, A17, A18, A19, A20,
    ) where
    I: Stream,
    E: ParseError<I>,
    A1: Parser<I, O, E>,
    A2: Parser<I, O, E>,
    A3: Parser<I, O, E>,
    A4: Parser<I, O, E>,
    A5: Parser<I, O, E>,
    A6: Parser<I, O, E>,
    A7: Parser<I, O, E>,
    A8: Parser<I, O, E>,
    A9: Parser<I, O, E>,
    A10: Parser<I, O, E>,
    A11: Parser<I, O, E>,
    A12: Parser<I, O, E>,
    A13: Parser<I, O, E>,
    A14: Parser<I, O, E>,
    A15: Parser<I, O, E>,
    A16: Parser<I, O, E>,
    A17: Parser<I, O, E>,
    A18: Parser<I, O, E>,
    A19: Parser<I, O, E>,
    A20: Parser<I, O, E>,
 {
    open spec fn alt_wf(&self) -> bool {
        &&& self.0.wf()
        &&& self.1.wf()
        &&& self.2.wf()
        &&& self.3.wf()
        &&& self.4.wf()
        &&& self.5.wf()
        &&& self.6.wf()
        &&& self.7.wf()
        &&& self.8.wf()
        &&& self.9.wf()
        &&& self.10.wf()
        &&& self.11.wf()
        &&& self.12.wf()
        &&& self.13.wf()
        &&& self.14.wf()
        &&& self.15.wf()
        &&& self.16.wf()
        &&& self.17.wf()
        &&& self.18.wf()
        &&& self.19.wf()
    }

    open spec fn chooses(&self, before: I, after: I, r: PResult<O, E>) -> bool {
        let from_19 = alt_last(self.19, before, after, r);
        let from_18 = alt_more(self.18, from_19, before, after, r);
        let from_17 = alt_more(self.17, from_18, before, after, r);
        let from_16 = alt_more(self.16, from_17, before, after, r);
        let from_15 = alt_more(self.15, from_16, before, after, r);
        let from_14 = alt_more(self.14, from_15, before, after, r);
        let from_13 = alt_more(self.13, from_14, before, after, r);
        let from_12 = alt_more(self.12, from_13, before, after, r);
        let from_11 = alt_more(self.11, from_12, before, after, r);
        let from_10 = alt_more(self.10, from_11, before, after, r);
        let from_9 = alt_more(self.9, from_10, before, after, r);
        let from_8 = alt_more(self.8, from_9, before, after, r);
        let from_7 = alt_more(self.7, from_8, before, after, r);
        let from_6 = alt_more(self.6, from_7, before, after, r);
        let from_5 = alt_more(self.5, from_6, before, after, r);
        let from_4 = alt_more(self.4, from_5, before, after, r);
        let from_3 = alt_more(self.3, from_4, before, after, r);
        let from_2 = alt_more(self.2, from_3, before, after, r);
        let from_1 = alt_more(self.1, from_2, before, after, r);
        alt_more(self.0, from_1, before, after, r)
    }

    fn choice(&mut self, input: &mut I) -> (r: PResult<O, E>) {
        let ghost me = *self;
        let ghost x0 = *input;
        let start = input.checkpoint();
        let e0 = match self.0.parse_next(input) {
            Err(ErrMode::Backtrack(e)) => e,
            res => {
                return res;
            },
        };
        proof {
            assert(stops_with(*input, e0));
            assert(backtracks(me.0, x0));
        }
        input.reset(start.checkpoint());
        let e1 = match self.1.parse_next(input) {
            Err(ErrMode::Backtrack(e)) => e,
            res => {
                return res;
            },
        };
        proof {
            assert(stops_with(*input, e1));
            assert(backtracks(me.1, x0));
        }
        let e1 = e0.or(e1);
        input.reset(start.checkpoint());
        let e2 = match self.2.parse_next(input) {
            Err(ErrMode::Backtrack(e)) => e,
            res => {
                return res;
            },
        };
        proof {
            assert(stops_with(*input, e2));
            assert(backtracks(me.2, x0));
        }
        let e2 = e1.or(e2);
        input.reset(start.checkpoint());
        let e3 = match self.3.parse_next(input) {
            Err(ErrMode::Backtrack(e)) => e,
            res => {
                return res;
            },
        };
        proof {
            assert(stops_with(*input, e3));
            assert(backtracks(me.3, x0));
        }
        let e3 = e2.or(e3);
        input.reset(start.checkpoint());
        let e4 = match self.4.parse_next(input) {
            Err(ErrMode::Backtrack(e)) => e,
            res => {
                return res;
            },
        };
        proof {
            assert(stops_with(*input, e4));
            assert(backtracks(me.4, x0));
        }
        let e4 = e3.or(e4);
        input.reset(start.checkpoint());
        let e5 = match self.5.parse_next(input) {
            Err(ErrMode::Backtrack(e)) => e,
            res => {
                return res;
            },
        };
        proof {
            assert(stops_with(*input, e5));
            assert(backtracks(me.5, x0));
        }
        let e5 = e4.or(e5);
        input.reset(start.checkpoint());
        let e6 = match self.6.parse_next(input) {
            Err(ErrMode::Backtrack(e)) => e,
            res => {
                return res;
            },
        };
        proof {
            assert(stops_with(*input, e6));
            assert(backtracks(me.6, x0));
        }
        let e6 = e5.or(e6);
        input.reset(start.checkpoint());
        let e7 = match self.7.parse_next(input) {
            Err(ErrMode::Backtrack(e)) => e,
            res => {
                return res;
            },
        };
        proof {
            assert(stops_with(*input, e7));
            assert(backtracks(me.7, x0));
        }
        let e7 = e6.or(e7);
        input.reset(start.checkpoint());
        let e8 = match self.8.parse_next(input) {
            Err(ErrMode::Backtrack(e)) => e,
            res => {
                return res;
            },
        };
        proof {
            assert(stops_with(*input, e8));
            assert(backtracks(me.8, x0));
        }
        let e8 = e7.or(e8);
        input.reset(start.checkpoint());
        let e9 = match self.9.parse_next(input) {
            Err(ErrMode::Backtrack(e)) => e,
            res => {
                return res;
            },
        };
        proof {
            assert(stops_with(*input, e9));
            assert(backtracks(me.9, x0));
        }
        let e9 = e8.or(e9);
        input.reset(start.checkpoint());
        let e10 = match self.10.parse_next(input) {
            Err(ErrMode::Backtrack(e)) => e,
            res => {
                return res;
            },
        };
        proof {
            assert(stops_with(*input, e10));
            assert(backtracks(me.10, x0));
        }
        let e10 = e9.or(e10);
        input.reset(start.checkpoint());
        let e11 = match self.11.parse_next(input) {
            Err(ErrMode::Backtrack(e)) => e,
            res => {
                return res;
            },
        };
        proof {
            assert(stops_with(*input, e11));
            assert(backtracks(me.11, x0));
        }
        let e11 = e10.or(e11);
        input.reset(start.checkpoint());
        let e12 = match self.12.parse_next(input) {
            Err(ErrMode::Backtrack(e)) => e,
            res => {
                return res;
            },
        };
        proof {
            assert(stops_with(*input, e12));
            assert(backtracks(me.12, x0));
        }
        let e12 = e11.or(e12);
        input.reset(start.checkpoint());
        let e13 = match self.13.parse_next(input) {
            Err(ErrMode::Backtrack(e)) => e,
            res => {
                return res;
            },
        };
        proof {
            assert(stops_with(*input, e13));
            assert(backtracks(me.13, x0));
        }
        let e13 = e12.or(e13);
        input.reset(start.checkpoint());
        let e14 = match self.14.parse_next(input) {
            Err(ErrMode::Backtrack(e)) => e,
            res => {
                return res;
            },
        };
        proof {
            assert(stops_with(*input, e14));
            assert(backtracks(me.14, x0));
        }
        let e14 = e13.or(e14);
        input.reset(start.checkpoint());
        let e15 = match self.15.parse_next(input) {
            Err(ErrMode::Backtrack(e)) => e,
            res => {
                return res;
            },
        };
        proof {
            assert(stops_with(*input, e15));
            assert(backtracks(me.15, x0));
        }
        let e15 = e14.or(e15);
        input.reset(start.checkpoint());
        let e16 = match self.16.parse_next(input) {
            Err(ErrMode::Backtrack(e)) => e,
            res => {
                return res;
            },
        };
        proof {
            assert(stops_with(*input, e16));
            assert(backtracks(me.16, x0));
        }
        let e16 = e15.or(e16);
        input.reset(start.checkpoint());
        let e17 = match self.17.parse_next(input) {
            Err(ErrMode::Backtrack(e)) => e,
            res => {
                return res;
            },
        };
        proof {
            assert(stops_with(*input, e17));
            assert(backtracks(me.17, x0));
        }
        let e17 = e16.or(e17);
        input.reset(start.checkpoint());
        let e18 = match self.18.parse_next(input) {
            Err(ErrMode::Backtrack(e)) => e,
            res => {
                return res;
            },
        };
        proof {
            assert(stops_with(*input, e18));
            assert(backtracks(me.18, x0));
        }
        let e18 = e17.or(e18);
        input.reset(start.checkpoint());
        match self.19.parse_next(input) {
            Err(ErrMode::Backtrack(e)) => {
                let ghost last = e;
                let ghost stop = *input;
                let e = e18.or(e);
                input.reset(start);
                let e = e.append(&*input, ErrorKind::Alt);
                proof {
                    assert(stops_with(stop, last));
                }
                Err(ErrMode::Backtrack(e))
            },
            res => res,
        }
    }
}

impl<
    I, O, E, A1, A2, A3, A4, A5, A6, A7, A8, A9, A10, A11, A12, A13, A14, A15, A16, A17, A18, A19,
    A20, A21,
> Alt<I, O, E> for
    (
        A1, A2, A3, A4, A5, A6, A7, A8, A9, A10, A11, A12, A13, A14, A15, A16, A17, A18, A19, A20,
        A21,
    ) where
    I: Stream,
    E: ParseError<I>,
    A1: Parser<I, O, E>,
    A2: Parser<I, O, E>,
    A3: Parser<I, O, E>,
    A4: Parser<I, O, E>,
    A5: Parser<I, O, E>,
    A6: Parser<I, O, E>,
    A7: Parser<I, O, E>,
    A8: Parser<I, O, E>,
    A9: Parser<I, O, E>,
    A10: Parser<I, O, E>,
    A11: Parser<I, O, E>,
    A12: Parser<I, O, E>,
    A13: Parser<I, O, E>,
    A14: Parser<I, O, E>,
    A15: Parser<I, O, E>,
    A16: Parser<I, O, E>,
    A17: Parser<I, O, E>,
    A18: Parser<I, O, E>,
    A19: Parser<I, O, E>,
    A20: Parser<I, O, E>,
    A21: Parser<I, O, E>,
 {
    open spec fn alt_wf(&self) -> bool {
        &&& self.0.wf()
        &&& self.1.wf()
        &&& self.2.wf()
        &&& self.3.wf()
        &&& self.4.wf()
        &&& self.5.wf()
        &&& self.6.wf()
        &&& self.7.wf()
        &&& self.8.wf()
        &&& self.9.wf()
        &&& self.10.wf()
        &&& self.11.wf()
        &&& self.12.wf()
        &&& self.13.wf()
        &&& self.14.wf()
        &&& self.15.wf()
        &&& self.16.wf()
        &&& self.17.wf()
        &&& self.18.wf()
        &&& self.19.wf()
        &&& self.20.wf()
    }

    open spec fn chooses(&self, before: I, after: I, r: PResult<O, E>) -> bool {
        let from_20 = alt_last(self.20, before, after, r);
        let from_19 = alt_more(self.19, from_20, before, after, r);
        let from_18 = alt_more(self.18, from_19, before, after, r);
        let from_17 = alt_more(self.17, from_18, before, after, r);
        let from_16 = alt_more(self.16, from_17, before, after, r);
        let from_15 = alt_more(self.15, from_16, before, after, r);
        let from_14 = alt_more(self.14, from_15, before, after, r);
        let from_13 = alt_more(self.13, from_14, before, after, r);
        let from_12 = alt_more(self.12, from_13, before, after, r);
        let from_11 = alt_more(self.11, from_12, before, after, r);
        let from_10 = alt_more(self.10, from_11, before, after, r);
        let from_9 = alt_more(self.9, from_10, before, after, r);
        let from_8 = alt_more(self.8, from_9, before, after, r);
        let from_7 = alt_more(self.7, from_8, before, after, r);
        let from_6 = alt_more(self.6, from_7, before, after, r);
        let from_5 = alt_more(self.5, from_6, before, after, r);
        let from_4 = alt_more(self.4, from_5, before, after, r);
        let from_3 = alt_more(self.3, from_4, before, after, r);
        let from_2 = alt_more(self.2, from_3, before, after, r);
        let from_1 = alt_more(self.1, from_2, before, after, r);
        alt_more(self.0, from_1, before, after, r)
    }

    fn choice(&mut self, input: &mut I) -> (r: PResult<O, E>) {
        let ghost me = *self;
        let ghost x0 = *input;
        let start = input.checkpoint();
        let e0 = match self.0.parse_next(input) {
            Err(ErrMode::Backtrack(e)) => e,
            res => {
                return res;
            },
        };
        proof {
            assert(stops_with(*input, e0));
            assert(backtracks(me.0, x0));
        }
        input.reset(start.checkpoint());
        let e1 = match self.1.parse_next(input) {
            Err(ErrMode::Backtrack(e)) => e,
            res => {
                return res;
            },
        };
        proof {
            assert(stops_with(*input, e1));
            assert(backtracks(me.1, x0));
        }
        let e1 = e0.or(e1);
        input.reset(start.checkpoint());
        let e2 = match self.2.parse_next(input) {
            Err(ErrMode::Backtrack(e)) => e,
            res => {
                return res;
            },
        };
        proof {
            assert(stops_with(*input, e2));
            assert(backtracks(me.2, x0));
        }
        let e2 = e1.or(e2);
        input.reset(start.checkpoint());
        let e3 = match self.3.parse_next(input) {
            Err(ErrMode::Backtrack(e)) => e,
            res => {
                return res;
            },
        };
        proof {
            assert(stops_with(*input, e3));
            assert(backtracks(me.3, x0));
        }
        let e3 = e2.or(e3);
        input.reset(start.checkpoint());
        let e4 = match self.4.parse_next(input) {
            Err(ErrMode::Backtrack(e)) => e,
            res => {
                return res;
            },
        };
        proof {
            assert(stops_with(*input, e4));
            assert(backtracks(me.4, x0));
        }
        let e4 = e3.or(e4);
        input.reset(start.checkpoint());
        let e5 = match self.5.parse_next(input) {
            Err(ErrMode::Backtrack(e)) => e,
            res => {
                return res;
            },
        };
        proof {
            assert(stops_with(*input, e5));
            assert(backtracks(me.5, x0));
        }
        let e5 = e4.or(e5);
        input.reset(start.checkpoint());
        let e6 = match self.6.parse_next(input) {
            Err(ErrMode::Backtrack(e)) => e,
            res => {
                return res;
            },
        };
        proof {
            assert(stops_with(*input, e6));
            assert(backtracks(me.6, x0));
        }
        let e6 = e5.or(e6);
        input.reset(start.checkpoint());
        let e7 = match self.7.parse_next(input) {
            Err(ErrMode::Backtrack(e)) => e,
            res => {
                return res;
            },
        };
        proof {
            assert(stops_with(*input, e7));
            assert(backtracks(me.7, x0));
        }
        let e7 = e6.or(e7);
        input.reset(start.checkpoint());
        let e8 = match self.8.parse_next(input) {
            Err(ErrMode::Backtrack(e)) => e,
            res => {
                return res;
            },
        };
        proof {
            assert(stops_with(*input, e8));
            assert(backtracks(me.8, x0));
        }
        let e8 = e7.or(e8);
        input.reset(start.checkpoint());
        let e9 = match self.9.parse_next(input) {
            Err(ErrMode::Backtrack(e)) => e,
            res => {
                return res;
            },
        };
        proof {
            assert(stops_with(*input, e9));
            assert(backtracks(me.9, x0));
        }
        let e9 = e8.or(e9);
        input.reset(start.checkpoint());
        let e10 = match self.10.parse_next(input) {
            Err(ErrMode::Backtrack(e)) => e,
            res => {
                return res;
            },
        };
        proof {
            assert(stops_with(*input, e10));
            assert(backtracks(me.10, x0));
        }
        let e10 = e9.or(e10);
        input.reset(start.checkpoint());
        let e11 = match self.11.parse_next(input) {
            Err(ErrMode::Backtrack(e)) => e,
            res => {
                return res;
            },
        };
        proof {
            assert(stops_with(*input, e11));
            assert(backtracks(me.11, x0));
        }
        let e11 = e10.or(e11);
        input.reset(start.checkpoint());
        let e12 = match self.12.parse_next(input) {
            Err(ErrMode::Backtrack(e)) => e,
            res => {
                return res;
            },
        };
        proof {
            assert(stops_with(*input, e12));
            assert(backtracks(me.12, x0));
        }
        let e12 = e11.or(e12);
        input.reset(start.checkpoint());
        let e13 = match self.13.parse_next(input) {
            Err(ErrMode::Backtrack(e)) => e,
            res => {
                return res;
            },
        };
        proof {
            assert(stops_with(*input, e13));
            assert(backtracks(me.13, x0));
        }
        let e13 = e12.or(e13);
        input.reset(start.checkpoint());
        let e14 = match self.14.parse_next(input) {
            Err(ErrMode::Backtrack(e)) => e,
            res => {
                return res;
            },
        };
        proof {
            assert(stops_with(*input, e14));
            assert(backtracks(me.14, x0));
        }
        let e14 = e13.or(e14);
        input.reset(start.checkpoint());
        let e15 = match self.15.parse_next(input) {
            Err(ErrMode::Backtrack(e)) => e,
            res => {
                return res;
            },
        };
        proof {
            assert(stops_with(*input, e15));
            assert(backtracks(me.15, x0));
        }
        let e15 = e14.or(e15);
        input.reset(start.checkpoint());
        let e16 = match self.16.parse_next(input) {
            Err(ErrMode::Backtrack(e)) => e,
            res => {
                return res;
            },
        };
        proof {
            assert(stops_with(*input, e16));
            assert(backtracks(me.16, x0));
        }
        let e16 = e15.or(e16);
        input.reset(start.checkpoint());
        let e17 = match self.17.parse_next(input) {
            Err(ErrMode::Backtrack(e)) => e,
            res => {
                return res;
            },
        };
        proof {
            assert(stops_with(*input, e17));
            assert(backtracks(me.17, x0));
        }
        let e17 = e16.or(e17);
        input.reset(start.checkpoint());
        let e18 = match self.18.parse_next(input) {
            Err(ErrMode::Backtrack(e)) => e,
            res => {
                return res;
            },
        };
        proof {
            assert(stops_with(*input, e18));
            assert(backtracks(me.18, x0));
        }
        let e18 = e17.or(e18);
        input.reset(start.checkpoint());
        let e19 = match self.19.parse_next(input) {
            Err(ErrMode::Backtrack(e)) => e,
            res => {
                return res;
            },
        };
        proof {
            assert(stops_with(*input, e19));
            assert(backtracks(me.19, x0));
        }
        let e19 = e18.or(e19);
        input.reset(start.checkpoint());
        match self.20.parse_next(input) {
            Err(ErrMode::Backtrack(e)) => {
                let ghost last = e;
                let ghost stop = *input;
                let e = e19.or(e);
                input.reset(start);
                let e = e.append(&*input, ErrorKind::Alt);
                proof {
                    assert(stops_with(stop, last));
                }
                Err(ErrMode::Backtrack(e))
            },
            res => res,
        }
    }
}

/// An ordered choice between 2 parsers that only move the cursor forward
/// only moves the cursor forward.
pub proof fn lemma_alt_2_advancing<
    I: Stream,
    O,
    E: ParseError<I>,
    A1: Parser<I, O, E>,
    A2: Parser<I, O, E>,
>(
    list: (A1, A2),
)
    requires
        advancing(list.0),
        advancing(list.1),
    ensures
        advancing(Alternatives::of(list)),
{
    let choice = Alternatives::of(list);
    assert forall|before: I, after: I, r: PResult<O, E>| #[trigger]
        choice.parses(before, after, r) implies reaches(before, after) by {
        before.lemma_steps_zero();
    }
}

/// In a choice between 2 parsers, what an alternative yields other than a
/// recoverable failure is what the choice yields, where all alternatives
/// before it fail recoverably and whatever the alternatives after it are: a
/// success, a request for more input and an unrecoverable failure alike.
pub proof fn lemma_alt_2_decides<
    I: Stream,
    O,
    E: ParseError<I>,
    A1: Parser<I, O, E>,
    A2: Parser<I, O, E>,
>(
    list: (A1, A2),
    before: I,
    after: I,
    r: PResult<O, E>,
)
    requires
        decided(r),
    ensures
        ({
            let choice = Alternatives::of(list).parses(before, after, r);
            let upto_0 = true;
            let upto_1 = upto_0 && backtracks(list.0, before);
            &&& upto_0 && list.0.parses(before, after, r) ==> choice
            &&& upto_1 && list.1.parses(before, after, r) ==> choice
        }),
{
}

/// An ordered choice between 3 parsers that only move the cursor forward
/// only moves the cursor forward.
pub proof fn lemma_alt_3_advancing<
    I: Stream,
    O,
    E: ParseError<I>,
    A1: Parser<I, O, E>,
    A2: Parser<I, O, E>,
    A3: Parser<I, O, E>,
>(
    list: (A1, A2, A3),
)
    requires
        advancing(list.0),
        advancing(list.1),
        advancing(list.2),
    ensures
        advancing(Alternatives::of(list)),
{
    let choice = Alternatives::of(list);
    assert forall|before: I, after: I, r: PResult<O, E>| #[trigger]
        choice.parses(before, after, r) implies reaches(before, after) by {
        before.lemma_steps_zero();
    }
}

/// In a choice between 3 parsers, what an alternative yields other than a
/// recoverable failure is what the choice yields, where all alternatives
/// before it fail recoverably and whatever the alternatives after it are: a
/// success, a request for more input and an unrecoverable failure alike.
pub proof fn lemma_alt_3_decides<
    I: Stream,
    O,
    E: ParseError<I>,
    A1: Parser<I, O, E>,
    A2: Parser<I, O, E>,
    A3: Parser<I, O, E>,
>(
    list: (A1, A2, A3),
    before: I,
    after: I,
    r: PResult<O, E>,
)
    requires
        decided(r),
    ensures
        ({
            let choice = Alternatives::of(list).parses(before, after, r);
            let upto_0 = true;
            let upto_1 = upto_0 && backtracks(list.0, before);
            let upto_2 = upto_1 && backtracks(list.1, before);
            &&& upto_0 && list.0.parses(before, after, r) ==> choice
            &&& upto_1 && list.1.parses(before, after, r) ==> choice
            &&& upto_2 && list.2.parses(before, after, r) ==> choice
        }),
{
}

/// An ordered choice between 4 parsers that only move the cursor forward
/// only moves the cursor forward.
pub proof fn lemma_alt_4_advancing<
    I: Stream,
    O,
    E: ParseError<I>,
    A1: Parser<I, O, E>,
    A2: Parser<I, O, E>,
    A3: Parser<I, O, E>,
    A4: Parser<I, O, E>,
>(
    list: (A1, A2, A3, A4),
)
    requires
        advancing(list.0),
        advancing(list.1),
        advancing(list.2),
        advancing(list.3),
    ensures
        advancing(Alternatives::of(list)),
{
    let choice = Alternatives::of(list);
    assert forall|before: I, after: I, r: PResult<O, E>| #[trigger]
        choice.parses(before, after, r) implies reaches(before, after) by {
        before.lemma_steps_zero();
    }
}

/// In a choice between 4 parsers, what an alternative yields other than a
/// recoverable failure is what the choice yields, where all alternatives
/// before it fail recoverably and whatever the alternatives after it are: a
/// success, a request for more input and an unrecoverable failure alike.
pub proof fn lemma_alt_4_decides<
    I: Stream,
    O,
    E: ParseError<I>,
    A1: Parser<I, O, E>,
    A2: Parser<I, O, E>,
    A3: Parser<I, O, E>,
    A4: Parser<I, O, E>,
>(
    list: (A1, A2, A3, A4),
    before: I,
    after: I,
    r: PResult<O, E>,
)
    requires
        decided(r),
    ensures
        ({
            let choice = Alternatives::of(list).parses(before, after, r);
            let upto_0 = true;
            let upto_1 = upto_0 && backtracks(list.0, before);
            let upto_2 = upto_1 && backtracks(list.1, before);
            let upto_3 = upto_2 && backtracks(list.2, before);
            &&& upto_0 && list.0.parses(before, after, r) ==> choice
            &&& upto_1 && list.1.parses(before, after, r) ==> choice
            &&& upto_2 && list.2.parses(before, after, r) ==> choice
            &&& upto_3 && list.3.parses(before, after, r) ==> choice
        }),
{
}

/// An ordered choice between 5 parsers that only move the cursor forward
/// only moves the cursor forward.
pub proof fn lemma_alt_5_advancing<
    I: Stream,
    O,
    E: ParseError<I>,
    A1: Parser<I, O, E>,
    A2: Parser<I, O, E>,
    A3: Parser<I, O, E>,
    A4: Parser<I, O, E>,
    A5: Parser<I, O, E>,
>(
    list: (A1, A2, A3, A4, A5),
)
    requires
        advancing(list.0),
        advancing(list.1),
        advancing(list.2),
        advancing(list.3),
        advancing(list.4),
    ensures
        advancing(Alternatives::of(list)),
{
    let choice = Alternatives::of(list);
    assert forall|before: I, after: I, r: PResult<O, E>| #[trigger]
        choice.parses(before, after, r) implies reaches(before, after) by {
        before.lemma_steps_zero();
    }
}

/// In a choice between 5 parsers, what an alternative yields other than a
/// recoverable failure is what the choice yields, where all alternatives
/// before it fail recoverably and whatever the alternatives after it are: a
/// success, a request for more input and an unrecoverable failure alike.
pub proof fn lemma_alt_5_decides<
    I: Stream,
    O,
    E: ParseError<I>,
    A1: Parser<I, O, E>,
    A2: Parser<I, O, E>,
    A3: Parser<I, O, E>,
    A4: Parser<I, O, E>,
    A5: Parser<I, O, E>,
>(
    list: (A1, A2, A3, A4, A5),
    before: I,
    after: I,
    r: PResult<O, E>,
)
    requires
        decided(r),
    ensures
        ({
            let choice = Alternatives::of(list).parses(before, after, r);
            let upto_0 = true;
            let upto_1 = upto_0 && backtracks(list.0, before);
            let upto_2 = upto_1 && backtracks(list.1, before);
            let upto_3 = upto_2 && backtracks(list.2, before);
            let upto_4 = upto_3 && backtracks(list.3, before);
            &&& upto_0 && list.0.parses(before, after, r) ==> choice
            &&& upto_1 && list.1.parses(before, after, r) ==> choice
            &&& upto_2 && list.2.parses(before, after, r) ==> choice
            &&& upto_3 && list.3.parses(before, after, r) ==> choice
            &&& upto_4 && list.4.parses(before, after, r) ==> choice
        }),
{
}

/// An ordered choice between 6 parsers that only move the cursor forward
/// only moves the cursor forward.
pub proof fn lemma_alt_6_advancing<
    I: Stream,
    O,
    E: ParseError<I>,
    A1: Parser<I, O, E>,
    A2: Parser<I, O, E>,
    A3: Parser<I, O, E>,
    A4: Parser<I, O, E>,
    A5: Parser<I, O, E>,
    A6: Parser<I, O, E>,
>(
    list: (A1, A2, A3, A4, A5, A6),
)
    requires
        advancing(list.0),
        advancing(list.1),
        advancing(list.2),
        advancing(list.3),
        advancing(list.4),
        advancing(list.5),
    ensures
        advancing(Alternatives::of(list)),
{
    let choice = Alternatives::of(list);
    assert forall|before: I, after: I, r: PResult<O, E>| #[trigger]
        choice.parses(before, after, r) implies reaches(before, after) by {
        before.lemma_steps_zero();
    }
}

/// In a choice between 6 parsers, what an alternative yields other than a
/// recoverable failure is what the choice yields, where all alternatives
/// before it fail recoverably and whatever the alternatives after it are: a
/// success, a request for more input and an unrecoverable failure alike.
pub proof fn lemma_alt_6_decides<
    I: Stream,
    O,
    E: ParseError<I>,
    A1: Parser<I, O, E>,
    A2: Parser<I, O, E>,
    A3: Parser<I, O, E>,
    A4: Parser<I, O, E>,
    A5: Parser<I, O, E>,
    A6: Parser<I, O, E>,
>(
    list: (A1, A2, A3, A4, A5, A6),
    before: I,
    after: I,
    r: PResult<O, E>,
)
    requires
        decided(r),
    ensures
        ({
            let choice = Alternatives::of(list).parses(before, after, r);
            let upto_0 = true;
            let upto_1 = upto_0 && backtracks(list.0, before);
            let upto_2 = upto_1 && backtracks(list.1, before);
            let upto_3 = upto_2 && backtracks(list.2, before);
            let upto_4 = upto_3 && backtracks(list.3, before);
            let upto_5 = upto_4 && backtracks(list.4, before);
            &&& upto_0 && list.0.parses(before, after, r) ==> choice
            &&& upto_1 && list.1.parses(before, after, r) ==> choice
            &&& upto_2 && list.2.parses(before, after, r) ==> choice
            &&& upto_3 && list.3.parses(before, after, r) ==> choice
            &&& upto_4 && list.4.parses(before, after, r) ==> choice
            &&& upto_5 && list.5.parses(before, after, r) ==> choice
        }),
{
}

/// An ordered choice between 7 parsers that only move the cursor forward
/// only moves the cursor forward.
pub proof fn lemma_alt_7_advancing<
    I: Stream,
    O,
    E: ParseError<I>,
    A1: Parser<I, O, E>,
    A2: Parser<I, O, E>,
    A3: Parser<I, O, E>,
    A4: Parser<I, O, E>,
    A5: Parser<I, O, E>,
    A6: Parser<I, O, E>,
    A7: Parser<I, O, E>,
>(
    list: (A1, A2, A3, A4, A5, A6, A7),
)
    requires
        advancing(list.0),
        advancing(list.1),
        advancing(list.2),
        advancing(list.3),
        advancing(list.4),
        advancing(list.5),
        advancing(list.6),
    ensures
        advancing(Alternatives::of(list)),
{
    let choice = Alternatives::of(list);
    assert forall|before: I, after: I, r: PResult<O, E>| #[trigger]
        choice.parses(before, after, r) implies reaches(before, after) by {
        before.lemma_steps_zero();
    }
}

/// In a choice between 7 parsers, what an alternative yields other than a
/// recoverable failure is what the choice yields, where all alternatives
/// before it fail recoverably and whatever the alternatives after it are: a
/// success, a request for more input and an unrecoverable failure alike.
pub proof fn lemma_alt_7_decides<
    I: Stream,
    O,
    E: ParseError<I>,
    A1: Parser<I, O, E>,
    A2: Parser<I, O, E>,
    A3: Parser<I, O, E>,
    A4: Parser<I, O, E>,
    A5: Parser<I, O, E>,
    A6: Parser<I, O, E>,
    A7: Parser<I, O, E>,
>(
    list: (A1, A2, A3, A4, A5, A6, A7),
    before: I,
    after: I,
    r: PResult<O, E>,
)
    requires
        decided(r),
    ensures
        ({
            let choice = Alternatives::of(list).parses(before, after, r);
            let upto_0 = true;
            let upto_1 = upto_0 && backtracks(list.0, before);
            let upto_2 = upto_1 && backtracks(list.1, before);
            let upto_3 = upto_2 && backtracks(list.2, before);
            let upto_4 = upto_3 && backtracks(list.3, before);
            let upto_5 = upto_4 && backtracks(list.4, before);
            let upto_6 = upto_5 && backtracks(list.5, before);
            &&& upto_0 && list.0.parses(before, after, r) ==> choice
            &&& upto_1 && list.1.parses(before, after, r) ==> choice
            &&& upto_2 && list.2.parses(before, after, r) ==> choice
            &&& upto_3 && list.3.parses(before, after, r) ==> choice
            &&& upto_4 && list.4.parses(before, after, r) ==> choice
            &&& upto_5 && list.5.parses(before, after, r) ==> choice
            &&& upto_6 && list.6.parses(before, after, r) ==> choice
        }),
{
}

/// An ordered choice between 8 parsers that only move the cursor forward
/// only moves the cursor forward.
pub proof fn lemma_alt_8_advancing<
    I: Stream,
    O,
    E: ParseError<I>,
    A1: Parser<I, O, E>,
    A2: Parser<I, O, E>,
    A3: Parser<I, O, E>,
    A4: Parser<I, O, E>,
    A5: Parser<I, O, E>,
    A6: Parser<I, O, E>,
    A7: Parser<I, O, E>,
    A8: Parser<I, O, E>,
>(
    list: (A1, A2, A3, A4, A5, A6, A7, A8),
)
    requires
        advancing(list.0),
        advancing(list.1),
        advancing(list.2),
        advancing(list.3),
        advancing(list.4),
        advancing(list.5),
        advancing(list.6),
        advancing(list.7),
    ensures
        advancing(Alternatives::of(list)),
{
    let choice = Alternatives::of(list);
    assert forall|before: I, after: I, r: PResult<O, E>| #[trigger]
        choice.parses(before, after, r) implies reaches(before, after) by {
        before.lemma_steps_zero();
    }
}

/// In a choice between 8 parsers, what an alternative yields other than a
/// recoverable failure is what the choice yields, where all alternatives
/// before it fail recoverably and whatever the alternatives after it are: a
/// success, a request for more input and an unrecoverable failure alike.
pub proof fn lemma_alt_8_decides<
    I: Stream,
    O,
    E: ParseError<I>,
    A1: Parser<I, O, E>,
    A2: Parser<I, O, E>,
    A3: Parser<I, O, E>,
    A4: Parser<I, O, E>,
    A5: Parser<I, O, E>,
    A6: Parser<I, O, E>,
    A7: Parser<I, O, E>,
    A8: Parser<I, O, E>,
>(
    list: (A1, A2, A3, A4, A5, A6, A7, A8),
    before: I,
    after: I,
    r: PResult<O, E>,
)
    requires
        decided(r),
    ensures
        ({
            let choice = Alternatives::of(list).parses(before, after, r);
            let upto_0 = true;
            let upto_1 = upto_0 && backtracks(list.0, before);
            let upto_2 = upto_1 && backtracks(list.1, before);
            let upto_3 = upto_2 && backtracks(list.2, before);
            let upto_4 = upto_3 && backtracks(list.3, before);
            let upto_5 = upto_4 && backtracks(list.4, before);
            let upto_6 = upto_5 && backtracks(list.5, before);
            let upto_7 = upto_6 && backtracks(list.6, before);
            &&& upto_0 && list.0.parses(before, after, r) ==> choice
            &&& upto_1 && list.1.parses(before, after, r) ==> choice
            &&& upto_2 && list.2.parses(before, after, r) ==> choice
            &&& upto_3 && list.3.parses(before, after, r) ==> choice
            &&& upto_4 && list.4.parses(before, after, r) ==> choice
            &&& upto_5 && list.5.parses(before, after, r) ==> choice
            &&& upto_6 && list.6.parses(before, after, r) ==> choice
            &&& upto_7 && list.7.parses(before, after, r) ==> choice
        }),
{
}

/// An ordered choice between 9 parsers that only move the cursor forward
/// only moves the cursor forward.
pub proof fn lemma_alt_9_advancing<
    I: Stream,
    O,
    E: ParseError<I>,
    A1: Parser<I, O, E>,
    A2: Parser<I, O, E>,
    A3: Parser<I, O, E>,
    A4: Parser<I, O, E>,
    A5: Parser<I, O, E>,
    A6: Parser<I, O, E>,
    A7: Parser<I, O, E>,
    A8: Parser<I, O, E>,
    A9: Parser<I, O, E>,
>(
    list: (A1, A2, A3, A4, A5, A6, A7, A8, A9),
)
    requires
        advancing(list.0),
        advancing(list.1),
        advancing(list.2),
        advancing(list.3),
        advancing(list.4),
        advancing(list.5),
        advancing(list.6),
        advancing(list.7),
        advancing(list.8),
    ensures
        advancing(Alternatives::of(list)),
{
    let choice = Alternatives::of(list);
    assert forall|before: I, after: I, r: PResult<O, E>| #[trigger]
        choice.parses(before, after, r) implies reaches(before, after) by {
        before.lemma_steps_zero();
    }
}

/// In a choice between 9 parsers, what an alternative yields other than a
/// recoverable failure is what the choice yields, where all alternatives
/// before it fail recoverably and whatever the alternatives after it are: a
/// success, a request for more input and an unrecoverable failure alike.
pub proof fn lemma_alt_9_decides<
    I: Stream,
    O,
    E: ParseError<I>,
    A1: Parser<I, O, E>,
    A2: Parser<I, O, E>,
    A3: Parser<I, O, E>,
    A4: Parser<I, O, E>,
    A5: Parser<I, O, E>,
    A6: Parser<I, O, E>,
    A7: Parser<I, O, E>,
    A8: Parser<I, O, E>,
    A9: Parser<I, O, E>,
>(
    list: (A1, A2, A3, A4, A5, A6, A7, A8, A9),
    before: I,
    after: I,
    r: PResult<O, E>,
)
    requires
        decided(r),
    ensures
        ({
            let choice = Alternatives::of(list).parses(before, after, r);
            let upto_0 = true;
            let upto_1 = upto_0 && backtracks(list.0, before);
            let upto_2 = upto_1 && backtracks(list.1, before);
            let upto_3 = upto_2 && backtracks(list.2, before);
            let upto_4 = upto_3 && backtracks(list.3, before);
            let upto_5 = upto_4 && backtracks(list.4, before);
            let upto_6 = upto_5 && backtracks(list.5, before);
            let upto_7 = upto_6 && backtracks(list.6, before);
            let upto_8 = upto_7 && backtracks(list.7, before);
            &&& upto_0 && list.0.parses(before, after, r) ==> choice
            &&& upto_1 && list.1.parses(before, after, r) ==> choice
            &&& upto_2 && list.2.parses(before, after, r) ==> choice
            &&& upto_3 && list.3.parses(before, after, r) ==> choice
            &&& upto_4 && list.4.parses(before, after, r) ==> choice
            &&& upto_5 && list.5.parses(before, after, r) ==> choice
            &&& upto_6 && list.6.parses(before, after, r) ==> choice
            &&& upto_7 && list.7.parses(before, after, r) ==> choice
            &&& upto_8 && list.8.parses(before, after, r) ==> choice
        }),
{
}

/// An ordered choice between 10 parsers that only move the cursor forward
/// only moves the cursor forward.
pub proof fn lemma_alt_10_advancing<
    I: Stream,
    O,
    E: ParseError<I>,
    A1: Parser<I, O, E>,
    A2: Parser<I, O, E>,
    A3: Parser<I, O, E>,
    A4: Parser<I, O, E>,
    A5: Parser<I, O, E>,
    A6: Parser<I, O, E>,
    A7: Parser<I, O, E>,
    A8: Parser<I, O, E>,
    A9: Parser<I, O, E>,
    A10: Parser<I, O, E>,
>(
    list: (A1, A2, A3, A4, A5, A6, A7, A8, A9, A10),
)
    requires
        advancing(list.0),
        advancing(list.1),
        advancing(list.2),
        advancing(list.3),
        advancing(list.4),
        advancing(list.5),
        advancing(list.6),
        advancing(list.7),
        advancing(list.8),
        advancing(list.9),
    ensures
        advancing(Alternatives::of(list)),
{
    let choice = Alternatives::of(list);
    assert forall|before: I, after: I, r: PResult<O, E>| #[trigger]
        choice.parses(before, after, r) implies reaches(before, after) by {
        before.lemma_steps_zero();
    }
}

/// In a choice between 10 parsers, what an alternative yields other than a
/// recoverable failure is what the choice yields, where all alternatives
/// before it fail recoverably and whatever the alternatives after it are: a
/// success, a request for more input and an unrecoverable failure alike.
pub proof fn lemma_alt_10_decides<
    I: Stream,
    O,
    E: ParseError<I>,
    A1: Parser<I, O, E>,
    A2: Parser<I, O, E>,
    A3: Parser<I, O, E>,
    A4: Parser<I, O, E>,
    A5: Parser<I, O, E>,
    A6: Parser<I, O, E>,
    A7: Parser<I, O, E>,
    A8: Parser<I, O, E>,
    A9: Parser<I, O, E>,
    A10: Parser<I, O, E>,
>(
    list: (A1, A2, A3, A4, A5, A6, A7, A8, A9, A10),
    before: I,
    after: I,
    r: PResult<O, E>,
)
    requires
        decided(r),
    ensures
        ({
            let choice = Alternatives::of(list).parses(before, after, r);
            let upto_0 = true;
            let upto_1 = upto_0 && backtracks(list.0, before);
            let upto_2 = upto_1 && backtracks(list.1, before);
            let upto_3 = upto_2 && backtracks(list.2, before);
            let upto_4 = upto_3 && backtracks(list.3, before);
            let upto_5 = upto_4 && backtracks(list.4, before);
            let upto_6 = upto_5 && backtracks(list.5, before);
            let upto_7 = upto_6 && backtracks(list.6, before);
            let upto_8 = upto_7 && backtracks(list.7, before);
            let upto_9 = upto_8 && backtracks(list.8, before);
            &&& upto_0 && list.0.parses(before, after, r) ==> choice
            &&& upto_1 && list.1.parses(before, after, r) ==> choice
            &&& upto_2 && list.2.parses(before, after, r) ==> choice
            &&& upto_3 && list.3.parses(before, after, r) ==> choice
            &&& upto_4 && list.4.parses(before, after, r) ==> choice
            &&& upto_5 && list.5.parses(before, after, r) ==> choice
            &&& upto_6 && list.6.parses(before, after, r) ==> choice
            &&& upto_7 && list.7.parses(before, after, r) ==> choice
            &&& upto_8 && list.8.parses(before, after, r) ==> choice
            &&& upto_9 && list.9.parses(before, after, r) ==> choice
        }),
{
}

/// An ordered choice between 11 parsers that only move the cursor forward
/// only moves the cursor forward.
pub proof fn lemma_alt_11_advancing<
    I: Stream,
    O,
    E: ParseError<I>,
    A1: Parser<I, O, E>,
    A2: Parser<I, O, E>,
    A3: Parser<I, O, E>,
    A4: Parser<I, O, E>,
    A5: Parser<I, O, E>,
    A6: Parser<I, O, E>,
    A7: Parser<I, O, E>,
    A8: Parser<I, O, E>,
    A9: Parser<I, O, E>,
    A10: Parser<I, O, E>,
    A11: Parser<I, O, E>,
>(
    list: (A1, A2, A3, A4, A5, A6, A7, A8, A9, A10, A11),
)
    requires
        advancing(list.0),
        advancing(list.1),
        advancing(list.2),
        advancing(list.3),
        advancing(list.4),
        advancing(list.5),
        advancing(list.6),
        advancing(list.7),
        advancing(list.8),
        advancing(list.9),
        advancing(list.10),
    ensures
        advancing(Alternatives::of(list)),
{
    let choice = Alternatives::of(list);
    assert forall|before: I, after: I, r: PResult<O, E>| #[trigger]
        choice.parses(before, after, r) implies reaches(before, after) by {
        before.lemma_steps_zero();
    }
}

/// In a choice between 11 parsers, what an alternative yields other than a
/// recoverable failure is what the choice yields, where all alternatives
/// before it fail recoverably and whatever the alternatives after it are: a
/// success, a request for more input and an unrecoverable failure alike.
pub proof fn lemma_alt_11_decides<
    I: Stream,
    O,
    E: ParseError<I>,
    A1: Parser<I, O, E>,
    A2: Parser<I, O, E>,
    A3: Parser<I, O, E>,
    A4: Parser<I, O, E>,
    A5: Parser<I, O, E>,
    A6: Parser<I, O, E>,
    A7: Parser<I, O, E>,
    A8: Parser<I, O, E>,
    A9: Parser<I, O, E>,
    A10: Parser<I, O, E>,
    A11: Parser<I, O, E>,
>(
    list: (A1, A2, A3, A4, A5, A6, A7, A8, A9, A10, A11),
    before: I,
    after: I,
    r: PResult<O, E>,
)
    requires
        decided(r),
    ensures
        ({
            let choice = Alternatives::of(list).parses(before, after, r);
            let upto_0 = true;
            let upto_1 = upto_0 && backtracks(list.0, before);
            let upto_2 = upto_1 && backtracks(list.1, before);
            let upto_3 = upto_2 && backtracks(list.2, before);
            let upto_4 = upto_3 && backtracks(list.3, before);
            let upto_5 = upto_4 && backtracks(list.4, before);
            let upto_6 = upto_5 && backtracks(list.5, before);
            let upto_7 = upto_6 && backtracks(list.6, before);
            let upto_8 = upto_7 && backtracks(list.7, before);
            let upto_9 = upto_8 && backtracks(list.8, before);
            let upto_10 = upto_9 && backtracks(list.9, before);
            &&& upto_0 && list.0.parses(before, after, r) ==> choice
            &&& upto_1 && list.1.parses(before, after, r) ==> choice
            &&& upto_2 && list.2.parses(before, after, r) ==> choice
            &&& upto_3 && list.3.parses(before, after, r) ==> choice
            &&& upto_4 && list.4.parses(before, after, r) ==> choice
            &&& upto_5 && list.5.parses(before, after, r) ==> choice
            &&& upto_6 && list.6.parses(before, after, r) ==> choice
            &&& upto_7 && list.7.parses(before, after, r) ==> choice
            &&& upto_8 && list.8.parses(before, after, r) ==> choice
            &&& upto_9 && list.9.parses(before, after, r) ==> choice
            &&& upto_10 && list.10.parses(before, after, r) ==> choice
        }),
{
}

/// An ordered choice between 12 parsers that only move the cursor forward
/// only moves the cursor forward.
pub proof fn lemma_alt_12_advancing<
    I: Stream,
    O,
    E: ParseError<I>,
    A1: Parser<I, O, E>,
    A2: Parser<I, O, E>,
    A3: Parser<I, O, E>,
    A4: Parser<I, O, E>,
    A5: Parser<I, O, E>,
    A6: Parser<I, O, E>,
    A7: Parser<I, O, E>,
    A8: Parser<I, O, E>,
    A9: Parser<I, O, E>,
    A10: Parser<I, O, E>,
    A11: Parser<I, O, E>,
    A12: Parser<I, O, E>,
>(
    list: (A1, A2, A3, A4, A5, A6, A7, A8, A9, A10, A11, A12),
)
    requires
        advancing(list.0),
        advancing(list.1),
        advancing(list.2),
        advancing(list.3),
        advancing(list.4),
        advancing(list.5),
        advancing(list.6),
        advancing(list.7),
        advancing(list.8),
        advancing(list.9),
        advancing(list.10),
        advancing(list.11),
    ensures
        advancing(Alternatives::of(list)),
{
    let choice = Alternatives::of(list);
    assert forall|before: I, after: I, r: PResult<O, E>| #[trigger]
        choice.parses(before, after, r) implies reaches(before, after) by {
        before.lemma_steps_zero();
    }
}

/// In a choice between 12 parsers, what an alternative yields other than a
/// recoverable failure is what the choice yields, where all alternatives
/// before it fail recoverably and whatever the alternatives after it are: a
/// success, a request for more input and an unrecoverable failure alike.
pub proof fn lemma_alt_12_decides<
    I: Stream,
    O,
    E: ParseError<I>,
    A1: Parser<I, O, E>,
    A2: Parser<I, O, E>,
    A3: Parser<I, O, E>,
    A4: Parser<I, O, E>,
    A5: Parser<I, O, E>,
    A6: Parser<I, O, E>,
    A7: Parser<I, O, E>,
    A8: Parser<I, O, E>,
    A9: Parser<I, O, E>,
    A10: Parser<I, O, E>,
    A11: Parser<I, O, E>,
    A12: Parser<I, O, E>,
>(
    list: (A1, A2, A3, A4, A5, A6, A7, A8, A9, A10, A11, A12),
    before: I,
    after: I,
    r: PResult<O, E>,
)
    requires
        decided(r),
    ensures
        ({
            let choice = Alternatives::of(list).parses(before, after, r);
            let upto_0 = true;
            let upto_1 = upto_0 && backtracks(list.0, before);
            let upto_2 = upto_1 && backtracks(list.1, before);
            let upto_3 = upto_2 && backtracks(list.2, before);
            let upto_4 = upto_3 && backtracks(list.3, before);
            let upto_5 = upto_4 && backtracks(list.4, before);
            let upto_6 = upto_5 && backtracks(list.5, before);
            let upto_7 = upto_6 && backtracks(list.6, before);
            let upto_8 = upto_7 && backtracks(list.7, before);
            let upto_9 = upto_8 && backtracks(list.8, before);
            let upto_10 = upto_9 && backtracks(list.9, before);
            let upto_11 = upto_10 && backtracks(list.10, before);
            &&& upto_0 && list.0.parses(before, after, r) ==> choice
            &&& upto_1 && list.1.parses(before, after, r) ==> choice
            &&& upto_2 && list.2.parses(before, after, r) ==> choice
            &&& upto_3 && list.3.parses(before, after, r) ==> choice
            &&& upto_4 && list.4.parses(before, after, r) ==> choice
            &&& upto_5 && list.5.parses(before, after, r) ==> choice
            &&& upto_6 && list.6.parses(before, after, r) ==> choice
            &&& upto_7 && list.7.parses(before, after, r) ==> choice
            &&& upto_8 && list.8.parses(before, after, r) ==> choice
            &&& upto_9 && list.9.parses(before, after, r) ==> choice
            &&& upto_10 && list.10.parses(before, after, r) ==> choice
            &&& upto_11 && list.11.parses(before, after, r) ==> choice
        }),
{
}

/// An ordered choice between 13 parsers that only move the cursor forward
/// only moves the cursor forward.
pub proof fn lemma_alt_13_advancing<
    I: Stream,
    O,
    E: ParseError<I>,
    A1: Parser<I, O, E>,
    A2: Parser<I, O, E>,
    A3: Parser<I, O, E>,
    A4: Parser<I, O, E>,
    A5: Parser<I, O, E>,
    A6: Parser<I, O, E>,
    A7: Parser<I, O, E>,
    A8: Parser<I, O, E>,
    A9: Parser<I, O, E>,
    A10: Parser<I, O, E>,
    A11: Parser<I, O, E>,
    A12: Parser<I, O, E>,
    A13: Parser<I, O, E>,
>(
    list: (A1, A2, A3, A4, A5, A6, A7, A8, A9, A10, A11, A12, A13),
)
    requires
        advancing(list.0),
        advancing(list.1),
        advancing(list.2),
        advancing(list.3),
        advancing(list.4),
        advancing(list.5),
        advancing(list.6),
        advancing(list.7),
        advancing(list.8),
        advancing(list.9),
        advancing(list.10),
        advancing(list.11),
        advancing(list.12),
    ensures
        advancing(Alternatives::of(list)),
{
    let choice = Alternatives::of(list);
    assert forall|before: I, after: I, r: PResult<O, E>| #[trigger]
        choice.parses(before, after, r) implies reaches(before, after) by {
        before.lemma_steps_zero();
    }
}

/// In a choice between 13 parsers, what an alternative yields other than a
/// recoverable failure is what the choice yields, where all alternatives
/// before it fail recoverably and whatever the alternatives after it are: a
/// success, a request for more input and an unrecoverable failure alike.
pub proof fn lemma_alt_13_decides<
    I: Stream,
    O,
    E: ParseError<I>,
    A1: Parser<I, O, E>,
    A2: Parser<I, O, E>,
    A3: Parser<I, O, E>,
    A4: Parser<I, O, E>,
    A5: Parser<I, O, E>,
    A6: Parser<I, O, E>,
    A7: Parser<I, O, E>,
    A8: Parser<I, O, E>,
    A9: Parser<I, O, E>,
    A10: Parser<I, O, E>,
    A11: Parser<I, O, E>,
    A12: Parser<I, O, E>,
    A13: Parser<I, O, E>,
>(
    list: (A1, A2, A3, A4, A5, A6, A7, A8, A9, A10, A11, A12, A13),
    before: I,
    after: I,
    r: PResult<O, E>,
)
    requires
        decided(r),
    ensures
        ({
            let choice = Alternatives::of(list).parses(before, after, r);
            let upto_0 = true;
            let upto_1 = upto_0 && backtracks(list.0, before);
            let upto_2 = upto_1 && backtracks(list.1, before);
            let upto_3 = upto_2 && backtracks(list.2, before);
            let upto_4 = upto_3 && backtracks(list.3, before);
            let upto_5 = upto_4 && backtracks(list.4, before);
            let upto_6 = upto_5 && backtracks(list.5, before);
            let upto_7 = upto_6 && backtracks(list.6, before);
            let upto_8 = upto_7 && backtracks(list.7, before);
            let upto_9 = upto_8 && backtracks(list.8, before);
            let upto_10 = upto_9 && backtracks(list.9, before);
            let upto_11 = upto_10 && backtracks(list.10, before);
            let upto_12 = upto_11 && backtracks(list.11, before);
            &&& upto_0 && list.0.parses(before, after, r) ==> choice
            &&& upto_1 && list.1.parses(before, after, r) ==> choice
            &&& upto_2 && list.2.parses(before, after, r) ==> choice
            &&& upto_3 && list.3.parses(before, after, r) ==> choice
            &&& upto_4 && list.4.parses(before, after, r) ==> choice
            &&& upto_5 && list.5.parses(before, after, r) ==> choice
            &&& upto_6 && list.6.parses(before, after, r) ==> choice
            &&& upto_7 && list.7.parses(before, after, r) ==> choice
            &&& upto_8 && list.8.parses(before, after, r) ==> choice
            &&& upto_9 && list.9.parses(before, after, r) ==> choice
            &&& upto_10 && list.10.parses(before, after, r) ==> choice
            &&& upto_11 && list.11.parses(before, after, r) ==> choice
            &&& upto_12 && list.12.parses(before, after, r) ==> choice
        }),
{
}

/// An ordered choice between 14 parsers that only move the cursor forward
/// only moves the cursor forward.
pub proof fn lemma_alt_14_advancing<
    I: Stream,
    O,
    E: ParseError<I>,
    A1: Parser<I, O, E>,
    A2: Parser<I, O, E>,
    A3: Parser<I, O, E>,
    A4: Parser<I, O, E>,
    A5: Parser<I, O, E>,
    A6: Parser<I, O, E>,
    A7: Parser<I, O, E>,
    A8: Parser<I, O, E>,
    A9: Parser<I, O, E>,
    A10: Parser<I, O, E>,
    A11: Parser<I, O, E>,
    A12: Parser<I, O, E>,
    A13: Parser<I, O, E>,
    A14: Parser<I, O, E>,
>(
    list: (A1, A2, A3, A4, A5, A6, A7, A8, A9, A10, A11, A12, A13, A14),
)
    requires
        advancing(list.0),
        advancing(list.1),
        advancing(list.2),
        advancing(list.3),
        advancing(list.4),
        advancing(list.5),
        advancing(list.6),
        advancing(list.7),
        advancing(list.8),
        advancing(list.9),
        advancing(list.10),
        advancing(list.11),
        advancing(list.12),
        advancing(list.13),
    ensures
        advancing(Alternatives::of(list)),
{
    let choice = Alternatives::of(list);
    assert forall|before: I, after: I, r: PResult<O, E>| #[trigger]
        choice.parses(before, after, r) implies reaches(before, after) by {
        before.lemma_steps_zero();
    }
}

/// In a choice between 14 parsers, what an alternative yields other than a
/// recoverable failure is what the choice yields, where all alternatives
/// before it fail recoverably and whatever the alternatives after it are: a
/// success, a request for more input and an unrecoverable failure alike.
pub proof fn lemma_alt_14_decides<
    I: Stream,
    O,
    E: ParseError<I>,
    A1: Parser<I, O, E>,
    A2: Parser<I, O, E>,
    A3: Parser<I, O, E>,
    A4: Parser<I, O, E>,
    A5: Parser<I, O, E>,
    A6: Parser<I, O, E>,
    A7: Parser<I, O, E>,
    A8: Parser<I, O, E>,
    A9: Parser<I, O, E>,
    A10: Parser<I, O, E>,
    A11: Parser<I, O, E>,
    A12: Parser<I, O, E>,
    A13: Parser<I, O, E>,
    A14: Parser<I, O, E>,
>(
    list: (A1, A2, A3, A4, A5, A6, A7, A8, A9, A10, A11, A12, A13, A14),
    before: I,
    after: I,
    r: PResult<O, E>,
)
    requires
        decided(r),
    ensures
        ({
            let choice = Alternatives::of(list).parses(before, after, r);
            let upto_0 = true;
            let upto_1 = upto_0 && backtracks(list.0, before);
            let upto_2 = upto_1 && backtracks(list.1, before);
            let upto_3 = upto_2 && backtracks(list.2, before);
            let upto_4 = upto_3 && backtracks(list.3, before);
            let upto_5 = upto_4 && backtracks(list.4, before);
            let upto_6 = upto_5 && backtracks(list.5, before);
            let upto_7 = upto_6 && backtracks(list.6, before);
            let upto_8 = upto_7 && backtracks(list.7, before);
            let upto_9 = upto_8 && backtracks(list.8, before);
            let upto_10 = upto_9 && backtracks(list.9, before);
            let upto_11 = upto_10 && backtracks(list.10, before);
            let upto_12 = upto_11 && backtracks(list.11, before);
            let upto_13 = upto_12 && backtracks(list.12, before);
            &&& upto_0 && list.0.parses(before, after, r) ==> choice
            &&& upto_1 && list.1.parses(before, after, r) ==> choice
            &&& upto_2 && list.2.parses(before, after, r) ==> choice
            &&& upto_3 && list.3.parses(before, after, r) ==> choice
            &&& upto_4 && list.4.parses(before, after, r) ==> choice
            &&& upto_5 && list.5.parses(before, after, r) ==> choice
            &&& upto_6 && list.6.parses(before, after, r) ==> choice
            &&& upto_7 && list.7.parses(before, after, r) ==> choice
            &&& upto_8 && list.8.parses(before, after, r) ==> choice
            &&& upto_9 && list.9.parses(before, after, r) ==> choice
            &&& upto_10 && list.10.parses(before, after, r) ==> choice
            &&& upto_11 && list.11.parses(before, after, r) ==> choice
            &&& upto_12 && list.12.parses(before, after, r) ==> choice
            &&& upto_13 && list.13.parses(before, after, r) ==> choice
        }),
{
}

/// An ordered choice between 15 parsers that only move the cursor forward
/// only moves the cursor forward.
pub proof fn lemma_alt_15_advancing<
    I: Stream,
    O,
    E: ParseError<I>,
    A1: Parser<I, O, E>,
    A2: Parser<I, O, E>,
    A3: Parser<I, O, E>,
    A4: Parser<I, O, E>,
    A5: Parser<I, O, E>,
    A6: Parser<I, O, E>,
    A7: Parser<I, O, E>,
    A8: Parser<I, O, E>,
    A9: Parser<I, O, E>,
    A10: Parser<I, O, E>,
    A11: Parser<I, O, E>,
    A12: Parser<I, O, E>,
    A13: Parser<I, O, E>,
    A14: Parser<I, O, E>,
    A15: Parser<I, O, E>,
>(
    list: (A1, A2, A3, A4, A5, A6, A7, A8, A9, A10, A11, A12, A13, A14, A15),
)
    requires
        advancing(list.0),
        advancing(list.1),
        advancing(list.2),
        advancing(list.3),
        advancing(list.4),
        advancing(list.5),
        advancing(list.6),
        advancing(list.7),
        advancing(list.8),
        advancing(list.9),
        advancing(list.10),
        advancing(list.11),
        advancing(list.12),
        advancing(list.13),
        advancing(list.14),
    ensures
        advancing(Alternatives::of(list)),
{
    let choice = Alternatives::of(list);
    assert forall|before: I, after: I, r: PResult<O, E>| #[trigger]
        choice.parses(before, after, r) implies reaches(before, after) by {
        before.lemma_steps_zero();
    }
}

/// In a choice between 15 parsers, what an alternative yields other than a
/// recoverable failure is what the choice yields, where all alternatives
/// before it fail recoverably and whatever the alternatives after it are: a
/// success, a request for more input and an unrecoverable failure alike.
pub proof fn lemma_alt_15_decides<
    I: Stream,
    O,
    E: ParseError<I>,
    A1: Parser<I, O, E>,
    A2: Parser<I, O, E>,
    A3: Parser<I, O, E>,
    A4: Parser<I, O, E>,
    A5: Parser<I, O, E>,
    A6: Parser<I, O, E>,
    A7: Parser<I, O, E>,
    A8: Parser<I, O, E>,
    A9: Parser<I, O, E>,
    A10: Parser<I, O, E>,
    A11: Parser<I, O, E>,
    A12: Parser<I, O, E>,
    A13: Parser<I, O, E>,
    A14: Parser<I, O, E>,
    A15: Parser<I, O, E>,
>(
    list: (A1, A2, A3, A4, A5, A6, A7, A8, A9, A10, A11, A12, A13, A14, A15),
    before: I,
    after: I,
    r: PResult<O, E>,
)
    requires
        decided(r),
    ensures
        ({
            let choice = Alternatives::of(list).parses(before, after, r);
            let upto_0 = true;
            let upto_1 = upto_0 && backtracks(list.0, before);
            let upto_2 = upto_1 && backtracks(list.1, before);
            let upto_3 = upto_2 && backtracks(list.2, before);
            let upto_4 = upto_3 && backtracks(list.3, before);
            let upto_5 = upto_4 && backtracks(list.4, before);
            let upto_6 = upto_5 && backtracks(list.5, before);
            let upto_7 = upto_6 && backtracks(list.6, before);
            let upto_8 = upto_7 && backtracks(list.7, before);
            let upto_9 = upto_8 && backtracks(list.8, before);
            let upto_10 = upto_9 && backtracks(list.9, before);
            let upto_11 = upto_10 && backtracks(list.10, before);
            let upto_12 = upto_11 && backtracks(list.11, before);
            let upto_13 = upto_12 && backtracks(list.12, before);
            let upto_14 = upto_13 && backtracks(list.13, before);
            &&& upto_0 && list.0.parses(before, after, r) ==> choice
            &&& upto_1 && list.1.parses(before, after, r) ==> choice
            &&& upto_2 && list.2.parses(before, after, r) ==> choice
            &&& upto_3 && list.3.parses(before, after, r) ==> choice
            &&& upto_4 && list.4.parses(before, after, r) ==> choice
            &&& upto_5 && list.5.parses(before, after, r) ==> choice
            &&& upto_6 && list.6.parses(before, after, r) ==> choice
            &&& upto_7 && list.7.parses(before, after, r) ==> choice
            &&& upto_8 && list.8.parses(before, after, r) ==> choice
            &&& upto_9 && list.9.parses(before, after, r) ==> choice
            &&& upto_10 && list.10.parses(before, after, r) ==> choice
            &&& upto_11 && list.11.parses(before, after, r) ==> choice
            &&& upto_12 && list.12.parses(before, after, r) ==> choice
            &&& upto_13 && list.13.parses(before, after, r) ==> choice
            &&& upto_14 && list.14.parses(before, after, r) ==> choice
        }),
{
}

/// An ordered choice between 16 parsers that only move the cursor forward
/// only moves the cursor forward.
pub proof fn lemma_alt_16_advancing<
    I: Stream,
    O,
    E: ParseError<I>,
    A1: Parser<I, O, E>,
    A2: Parser<I, O, E>,
    A3: Parser<I, O, E>,
    A4: Parser<I, O, E>,
    A5: Parser<I, O, E>,
    A6: Parser<I, O, E>,
    A7: Parser<I, O, E>,
    A8: Parser<I, O, E>,
    A9: Parser<I, O, E>,
    A10: Parser<I, O, E>,
    A11: Parser<I, O, E>,
    A12: Parser<I, O, E>,
    A13: Parser<I, O, E>,
    A14: Parser<I, O, E>,
    A15: Parser<I, O, E>,
    A16: Parser<I, O, E>,
>(
    list: (A1, A2, A3, A4, A5, A6, A7, A8, A9, A10, A11, A12, A13, A14, A15, A16),
)
    requires
        advancing(list.0),
        advancing(list.1),
        advancing(list.2),
        advancing(list.3),
        advancing(list.4),
        advancing(list.5),
        advancing(list.6),
        advancing(list.7),
        advancing(list.8),
        advancing(list.9),
        advancing(list.10),
        advancing(list.11),
        advancing(list.12),
        advancing(list.13),
        advancing(list.14),
        advancing(list.15),
    ensures
        advancing(Alternatives::of(list)),
{
    let choice = Alternatives::of(list);
    assert forall|before: I, after: I, r: PResult<O, E>| #[trigger]
        choice.parses(before, after, r) implies reaches(before, after) by {
        before.lemma_steps_zero();
    }
}

/// In a choice between 16 parsers, what an alternative yields other than a
/// recoverable failure is what the choice yields, where all alternatives
/// before it fail recoverably and whatever the alternatives after it are: a
/// success, a request for more input and an unrecoverable failure alike.
pub proof fn lemma_alt_16_decides<
    I: Stream,
    O,
    E: ParseError<I>,
    A1: Parser<I, O, E>,
    A2: Parser<I, O, E>,
    A3: Parser<I, O, E>,
    A4: Parser<I, O, E>,
    A5: Parser<I, O, E>,
    A6: Parser<I, O, E>,
    A7: Parser<I, O, E>,
    A8: Parser<I, O, E>,
    A9: Parser<I, O, E>,
    A10: Parser<I, O, E>,
    A11: Parser<I, O, E>,
    A12: Parser<I, O, E>,
    A13: Parser<I, O, E>,
    A14: Parser<I, O, E>,
    A15: Parser<I, O, E>,
    A16: Parser<I, O, E>,
>(
    list: (A1, A2, A3, A4, A5, A6, A7, A8, A9, A10, A11, A12, A13, A14, A15, A16),
    before: I,
    after: I,
    r: PResult<O, E>,
)
    requires
        decided(r),
    ensures
        ({
            let choice = Alternatives::of(list).parses(before, after, r);
            let upto_0 = true;
            let upto_1 = upto_0 && backtracks(list.0, before);
            let upto_2 = upto_1 && backtracks(list.1, before);
            let upto_3 = upto_2 && backtracks(list.2, before);
            let upto_4 = upto_3 && backtracks(list.3, before);
            let upto_5 = upto_4 && backtracks(list.4, before);
            let upto_6 = upto_5 && backtracks(list.5, before);
            let upto_7 = upto_6 && backtracks(list.6, before);
            let upto_8 = upto_7 && backtracks(list.7, before);
            let upto_9 = upto_8 && backtracks(list.8, before);
            let upto_10 = upto_9 && backtracks(list.9, before);
            let upto_11 = upto_10 && backtracks(list.10, before);
            let upto_12 = upto_11 && backtracks(list.11, before);
            let upto_13 = upto_12 && backtracks(list.12, before);
            let upto_14 = upto_13 && backtracks(list.13, before);
            let upto_15 = upto_14 && backtracks(list.14, before);
            &&& upto_0 && list.0.parses(before, after, r) ==> choice
            &&& upto_1 && list.1.parses(before, after, r) ==> choice
            &&& upto_2 && list.2.parses(before, after, r) ==> choice
            &&& upto_3 && list.3.parses(before, after, r) ==> choice
            &&& upto_4 && list.4.parses(before, after, r) ==> choice
            &&& upto_5 && list.5.parses(before, after, r) ==> choice
            &&& upto_6 && list.6.parses(before, after, r) ==> choice
            &&& upto_7 && list.7.parses(before, after, r) ==> choice
            &&& upto_8 && list.8.parses(before, after, r) ==> choice
            &&& upto_9 && list.9.parses(before, after, r) ==> choice
            &&& upto_10 && list.10.parses(before, after, r) ==> choice
            &&& upto_11 && list.11.parses(before, after, r) ==> choice
            &&& upto_12 && list.12.parses(before, after, r) ==> choice
            &&& upto_13 && list.13.parses(before, after, r) ==> choice
            &&& upto_14 && list.14.parses(before, after, r) ==> choice
            &&& upto_15 && list.15.parses(before, after, r) ==> choice
        }),
{
}

/// An ordered choice between 17 parsers that only move the cursor forward
/// only moves the cursor forward.
pub proof fn lemma_alt_17_advancing<
    I: Stream,
    O,
    E: ParseError<I>,
    A1: Parser<I, O, E>,
    A2: Parser<I, O, E>,
    A3: Parser<I, O, E>,
    A4: Parser<I, O, E>,
    A5: Parser<I, O, E>,
    A6: Parser<I, O, E>,
    A7: Parser<I, O, E>,
    A8: Parser<I, O, E>,
    A9: Parser<I, O, E>,
    A10: Parser<I, O, E>,
    A11: Parser<I, O, E>,
    A12: Parser<I, O, E>,
    A13: Parser<I, O, E>,
    A14: Parser<I, O, E>,
    A15: Parser<I, O, E>,
    A16: Parser<I, O, E>,
    A17: Parser<I, O, E>,
>(
    list: (A1, A2, A3, A4, A5, A6, A7, A8, A9, A10, A11, A12, A13, A14, A15, A16, A17),
)
    requires
        advancing(list.0),
        advancing(list.1),
        advancing(list.2),
        advancing(list.3),
        advancing(list.4),
        advancing(list.5),
        advancing(list.6),
        advancing(list.7),
        advancing(list.8),
        advancing(list.9),
        advancing(list.10),
        advancing(list.11),
        advancing(list.12),
        advancing(list.13),
        advancing(list.14),
        advancing(list.15),
        advancing(list.16),
    ensures
        advancing(Alternatives::of(list)),
{
    let choice = Alternatives::of(list);
    assert forall|before: I, after: I, r: PResult<O, E>| #[trigger]
        choice.parses(before, after, r) implies reaches(before, after) by {
        before.lemma_steps_zero();
    }
}

/// In a choice between 17 parsers, what an alternative yields other than a
/// recoverable failure is what the choice yields, where all alternatives
/// before it fail recoverably and whatever the alternatives after it are: a
/// success, a request for more input and an unrecoverable failure alike.
pub proof fn lemma_alt_17_decides<
    I: Stream,
    O,
    E: ParseError<I>,
    A1: Parser<I, O, E>,
    A2: Parser<I, O, E>,
    A3: Parser<I, O, E>,
    A4: Parser<I, O, E>,
    A5: Parser<I, O, E>,
    A6: Parser<I, O, E>,
    A7: Parser<I, O, E>,
    A8: Parser<I, O, E>,
    A9: Parser<I, O, E>,
    A10: Parser<I, O, E>,
    A11: Parser<I, O, E>,
    A12: Parser<I, O, E>,
    A13: Parser<I, O, E>,
    A14: Parser<I, O, E>,
    A15: Parser<I, O, E>,
    A16: Parser<I, O, E>,
    A17: Parser<I, O, E>,
>(
    list: (A1, A2, A3, A4, A5, A6, A7, A8, A9, A10, A11, A12, A13, A14, A15, A16, A17),
    before: I,
    after: I,
    r: PResult<O, E>,
)
    requires
        decided(r),
    ensures
        ({
            let choice = Alternatives::of(list).parses(before, after, r);
            let upto_0 = true;
            let upto_1 = upto_0 && backtracks(list.0, before);
            let upto_2 = upto_1 && backtracks(list.1, before);
            let upto_3 = upto_2 && backtracks(list.2, before);
            let upto_4 = upto_3 && backtracks(list.3, before);
            let upto_5 = upto_4 && backtracks(list.4, before);
            let upto_6 = upto_5 && backtracks(list.5, before);
            let upto_7 = upto_6 && backtracks(list.6, before);
            let upto_8 = upto_7 && backtracks(list.7, before);
            let upto_9 = upto_8 && backtracks(list.8, before);
            let upto_10 = upto_9 && backtracks(list.9, before);
            let upto_11 = upto_10 && backtracks(list.10, before);
            let upto_12 = upto_11 && backtracks(list.11, before);
            let upto_13 = upto_12 && backtracks(list.12, before);
            let upto_14 = upto_13 && backtracks(list.13, before);
            let upto_15 = upto_14 && backtracks(list.14, before);
            let upto_16 = upto_15 && backtracks(list.15, before);
            &&& upto_0 && list.0.parses(before, after, r) ==> choice
            &&& upto_1 && list.1.parses(before, after, r) ==> choice
            &&& upto_2 && list.2.parses(before, after, r) ==> choice
            &&& upto_3 && list.3.parses(before, after, r) ==> choice
            &&& upto_4 && list.4.parses(before, after, r) ==> choice
            &&& upto_5 && list.5.parses(before, after, r) ==> choice
            &&& upto_6 && list.6.parses(before, after, r) ==> choice
            &&& upto_7 && list.7.parses(before, after, r) ==> choice
            &&& upto_8 && list.8.parses(before, after, r) ==> choice
            &&& upto_9 && list.9.parses(before, after, r) ==> choice
            &&& upto_10 && list.10.parses(before, after, r) ==> choice
            &&& upto_11 && list.11.parses(before, after, r) ==> choice
            &&& upto_12 && list.12.parses(before, after, r) ==> choice
            &&& upto_13 && list.13.parses(before, after, r) ==> choice
            &&& upto_14 && list.14.parses(before, after, r) ==> choice
            &&& upto_15 && list.15.parses(before, after, r) ==> choice
            &&& upto_16 && list.16.parses(before, after, r) ==> choice
        }),
{
}

/// An ordered choice between 18 parsers that only move the cursor forward
/// only moves the cursor forward.
pub proof fn lemma_alt_18_advancing<
    I: Stream,
    O,
    E: ParseError<I>,
    A1: Parser<I, O, E>,
    A2: Parser<I, O, E>,
    A3: Parser<I, O, E>,
    A4: Parser<I, O, E>,
    A5: Parser<I, O, E>,
    A6: Parser<I, O, E>,
    A7: Parser<I, O, E>,
    A8: Parser<I, O, E>,
    A9: Parser<I, O, E>,
    A10: Parser<I, O, E>,
    A11: Parser<I, O, E>,
    A12: Parser<I, O, E>,
    A13: Parser<I, O, E>,
    A14: Parser<I, O, E>,
    A15: Parser<I, O, E>,
    A16: Parser<I, O, E>,
    A17: Parser<I, O, E>,
    A18: Parser<I, O, E>,
>(
    list: (A1, A2, A3, A4, A5, A6, A7, A8, A9, A10, A11, A12, A13, A14, A15, A16, A17, A18),
)
    requires
        advancing(list.0),
        advancing(list.1),
        advancing(list.2),
        advancing(list.3),
        advancing(list.4),
        advancing(list.5),
        advancing(list.6),
        advancing(list.7),
        advancing(list.8),
        advancing(list.9),
        advancing(list.10),
        advancing(list.11),
        advancing(list.12),
        advancing(list.13),
        advancing(list.14),
        advancing(list.15),
        advancing(list.16),
        advancing(list.17),
    ensures
        advancing(Alternatives::of(list)),
{
    let choice = Alternatives::of(list);
    assert forall|before: I, after: I, r: PResult<O, E>| #[trigger]
        choice.parses(before, after, r) implies reaches(before, after) by {
        before.lemma_steps_zero();
    }
}

/// In a choice between 18 parsers, what an alternative yields other than a
/// recoverable failure is what the choice yields, where all alternatives
/// before it fail recoverably and whatever the alternatives after it are: a
/// success, a request for more input and an unrecoverable failure alike.
pub proof fn lemma_alt_18_decides<
    I: Stream,
    O,
    E: ParseError<I>,
    A1: Parser<I, O, E>,
    A2: Parser<I, O, E>,
    A3: Parser<I, O, E>,
    A4: Parser<I, O, E>,
    A5: Parser<I, O, E>,
    A6: Parser<I, O, E>,
    A7: Parser<I, O, E>,
    A8: Parser<I, O, E>,
    A9: Parser<I, O, E>,
    A10: Parser<I, O, E>,
    A11: Parser<I, O, E>,
    A12: Parser<I, O, E>,
    A13: Parser<I, O, E>,
    A14: Parser<I, O, E>,
    A15: Parser<I, O, E>,
    A16: Parser<I, O, E>,
    A17: Parser<I, O, E>,
    A18: Parser<I, O, E>,
>(
    list: (A1, A2, A3, A4, A5, A6, A7, A8, A9, A10, A11, A12, A13, A14, A15, A16, A17, A18),
    before: I,
    after: I,
    r: PResult<O, E>,
)
    requires
        decided(r),
    ensures
        ({
            let choice = Alternatives::of(list).parses(before, after, r);
            let upto_0 = true;
            let upto_1 = upto_0 && backtracks(list.0, before);
            let upto_2 = upto_1 && backtracks(list.1, before);
            let upto_3 = upto_2 && backtracks(list.2, before);
            let upto_4 = upto_3 && backtracks(list.3, before);
            let upto_5 = upto_4 && backtracks(list.4, before);
            let upto_6 = upto_5 && backtracks(list.5, before);
            let upto_7 = upto_6 && backtracks(list.6, before);
            let upto_8 = upto_7 && backtracks(list.7, before);
            let upto_9 = upto_8 && backtracks(list.8, before);
            let upto_10 = upto_9 && backtracks(list.9, before);
            let upto_11 = upto_10 && backtracks(list.10, before);
            let upto_12 = upto_11 && backtracks(list.11, before);
            let upto_13 = upto_12 && backtracks(list.12, before);
            let upto_14 = upto_13 && backtracks(list.13, before);
            let upto_15 = upto_14 && backtracks(list.14, before);
            let upto_16 = upto_15 && backtracks(list.15, before);
            let upto_17 = upto_16 && backtracks(list.16, before);
            &&& upto_0 && list.0.parses(before, after, r) ==> choice
            &&& upto_1 && list.1.parses(before, after, r) ==> choice
            &&& upto_2 && list.2.parses(before, after, r) ==> choice
            &&& upto_3 && list.3.parses(before, after, r) ==> choice
            &&& upto_4 && list.4.parses(before, after, r) ==> choice
            &&& upto_5 && list.5.parses(before, after, r) ==> choice
            &&& upto_6 && list.6.parses(before, after, r) ==> choice
            &&& upto_7 && list.7.parses(before, after, r) ==> choice
            &&& upto_8 && list.8.parses(before, after, r) ==> choice
            &&& upto_9 && list.9.parses(before, after, r) ==> choice
            &&& upto_10 && list.10.parses(before, after, r) ==> choice
            &&& upto_11 && list.11.parses(before, after, r) ==> choice
            &&& upto_12 && list.12.parses(before, after, r) ==> choice
            &&& upto_13 && list.13.parses(before, after, r) ==> choice
            &&& upto_14 && list.14.parses(before, after, r) ==> choice
            &&& upto_15 && list.15.parses(before, after, r) ==> choice
            &&& upto_16 && list.16.parses(before, after, r) ==> choice
            &&& upto_17 && list.17.parses(before, after, r) ==> choice
        }),
{
}

/// An ordered choice between 19 parsers that only move the cursor forward
/// only moves the cursor forward.
pub proof fn lemma_alt_19_advancing<
    I: Stream,
    O,
    E: ParseError<I>,
    A1: Parser<I, O, E>,
    A2: Parser<I, O, E>,
    A3: Parser<I, O, E>,
    A4: Parser<I, O, E>,
    A5: Parser<I, O, E>,
    A6: Parser<I, O, E>,
    A7: Parser<I, O, E>,
    A8: Parser<I, O, E>,
    A9: Parser<I, O, E>,
    A10: Parser<I, O, E>,
    A11: Parser<I, O, E>,
    A12: Parser<I, O, E>,
    A13: Parser<I, O, E>,
    A14: Parser<I, O, E>,
    A15: Parser<I, O, E>,
    A16: Parser<I, O, E>,
    A17: Parser<I, O, E>,
    A18: Parser<I, O, E>,
    A19: Parser<I, O, E>,
>(
    list: (A1, A2, A3, A4, A5, A6, A7, A8, A9, A10, A11, A12, A13, A14, A15, A16, A17, A18, A19),
)
    requires
        advancing(list.0),
        advancing(list.1),
        advancing(list.2),
        advancing(list.3),
        advancing(list.4),
        advancing(list.5),
        advancing(list.6),
        advancing(list.7),
        advancing(list.8),
        advancing(list.9),
        advancing(list.10),
        advancing(list.11),
        advancing(list.12),
        advancing(list.13),
        advancing(list.14),
        advancing(list.15),
        advancing(list.16),
        advancing(list.17),
        advancing(list.18),
    ensures
        advancing(Alternatives::of(list)),
{
    let choice = Alternatives::of(list);
    assert forall|before: I, after: I, r: PResult<O, E>| #[trigger]
        choice.parses(before, after, r) implies reaches(before, after) by {
        before.lemma_steps_zero();
    }
}

/// In a choice between 19 parsers, what an alternative yields other than a
/// recoverable failure is what the choice yields, where all alternatives
/// before it fail recoverably and whatever the alternatives after it are: a
/// success, a request for more input and an unrecoverable failure alike.
pub proof fn lemma_alt_19_decides<
    I: Stream,
    O,
    E: ParseError<I>,
    A1: Parser<I, O, E>,
    A2: Parser<I, O, E>,
    A3: Parser<I, O, E>,
    A4: Parser<I, O, E>,
    A5: Parser<I, O, E>,
    A6: Parser<I, O, E>,
    A7: Parser<I, O, E>,
    A8: Parser<I, O, E>,
    A9: Parser<I, O, E>,
    A10: Parser<I, O, E>,
    A11: Parser<I, O, E>,
    A12: Parser<I, O, E>,
    A13: Parser<I, O, E>,
    A14: Parser<I, O, E>,
    A15: Parser<I, O, E>,
    A16: Parser<I, O, E>,
    A17: Parser<I, O, E>,
    A18: Parser<I, O, E>,
    A19: Parser<I, O, E>,
>(
    list: (A1, A2, A3, A4, A5, A6, A7, A8, A9, A10, A11, A12, A13, A14, A15, A16, A17, A18, A19),
    before: I,
    after: I,
    r: PResult<O, E>,
)
    requires
        decided(r),
    ensures
        ({
            let choice = Alternatives::of(list).parses(before, after, r);
            let upto_0 = true;
            let upto_1 = upto_0 && backtracks(list.0, before);
            let upto_2 = upto_1 && backtracks(list.1, before);
            let upto_3 = upto_2 && backtracks(list.2, before);
            let upto_4 = upto_3 && backtracks(list.3, before);
            let upto_5 = upto_4 && backtracks(list.4, before);
            let upto_6 = upto_5 && backtracks(list.5, before);
            let upto_7 = upto_6 && backtracks(list.6, before);
            let upto_8 = upto_7 && backtracks(list.7, before);
            let upto_9 = upto_8 && backtracks(list.8, before);
            let upto_10 = upto_9 && backtracks(list.9, before);
            let upto_11 = upto_10 && backtracks(list.10, before);
            let upto_12 = upto_11 && backtracks(list.11, before);
            let upto_13 = upto_12 && backtracks(list.12, before);
            let upto_14 = upto_13 && backtracks(list.13, before);
            let upto_15 = upto_14 && backtracks(list.14, before);
            let upto_16 = upto_15 && backtracks(list.15, before);
            let upto_17 = upto_16 && backtracks(list.16, before);
            let upto_18 = upto_17 && backtracks(list.17, before);
            &&& upto_0 && list.0.parses(before, after, r) ==> choice
            &&& upto_1 && list.1.parses(before, after, r) ==> choice
            &&& upto_2 && list.2.parses(before, after, r) ==> choice
            &&& upto_3 && list.3.parses(before, after, r) ==> choice
            &&& upto_4 && list.4.parses(before, after, r) ==> choice
            &&& upto_5 && list.5.parses(before, after, r) ==> choice
            &&& upto_6 && list.6.parses(before, after, r) ==> choice
            &&& upto_7 && list.7.parses(before, after, r) ==> choice
            &&& upto_8 && list.8.parses(before, after, r) ==> choice
            &&& upto_9 && list.9.parses(before, after, r) ==> choice
            &&& upto_10 && list.10.parses(before, after, r) ==> choice
            &&& upto_11 && list.11.parses(before, after, r) ==> choice
            &&& upto_12 && list.12.parses(before, after, r) ==> choice
            &&& upto_13 && list.13.parses(before, after, r) ==> choice
            &&& upto_14 && list.14.parses(before, after, r) ==> choice
            &&& upto_15 && list.15.parses(before, after, r) ==> choice
            &&& upto_16 && list.16.parses(before, after, r) ==> choice
            &&& upto_17 && list.17.parses(before, after, r) ==> choice
            &&& upto_18 && list.18.parses(before, after, r) ==> choice
        }),
{
}

/// An ordered choice between 20 parsers that only move the cursor forward
/// only moves the cursor forward.
pub proof fn lemma_alt_20_advancing<
    I: Stream,
    O,
    E: ParseError<I>,
    A1: Parser<I, O, E>,
    A2: Parser<I, O, E>,
    A3: Parser<I, O, E>,
    A4: Parser<I, O, E>,
    A5: Parser<I, O, E>,
    A6: Parser<I, O, E>,
    A7: Parser<I, O, E>,
    A8: Parser<I, O, E>,
    A9: Parser<I, O, E>,
    A10: Parser<I, O, E>,
    A11: Parser<I, O, E>,
    A12: Parser<I, O, E>,
    A13: Parser<I, O, E>,
    A14: Parser<I, O, E>,
    A15: Parser<I, O, E>,
    A16: Parser<I, O, E>,
    A17: Parser<I, O, E>,
    A18: Parser<I, O, E>,
    A19: Parser<I, O, E>,
    A20: Parser<I, O, E>,
>(
    list: (
        A1, A2, A3, A4, A5, A6, A7, A8, A9, A10, A11, A12, A13, A14, A15, A16, A17, A18, A19, A20,
    ),
)
    requires
        advancing(list.0),
        advancing(list.1),
        advancing(list.2),
        advancing(list.3),
        advancing(list.4),
        advancing(list.5),
        advancing(list.6),
        advancing(list.7),
        advancing(list.8),
        advancing(list.9),
        advancing(list.10),
        advancing(list.11),
        advancing(list.12),
        advancing(list.13),
        advancing(list.14),
        advancing(list.15),
        advancing(list.16),
        advancing(list.17),
        advancing(list.18),
        advancing(list.19),
    ensures
        advancing(Alternatives::of(list)),
{
    let choice = Alternatives::of(list);
    assert forall|before: I, after: I, r: PResult<O, E>| #[trigger]
        choice.parses(before, after, r) implies reaches(before, after) by {
        before.lemma_steps_zero();
    }
}

/// In a choice between 20 parsers, what an alternative yields other than a
/// recoverable failure is what the choice yields, where all alternatives
/// before it fail recoverably and whatever the alternatives after it are: a
/// success, a request for more input and an unrecoverable failure alike.
pub proof fn lemma_alt_20_decides<
    I: Stream,
    O,
    E: ParseError<I>,
    A1: Parser<I, O, E>,
    A2: Parser<I, O, E>,
    A3: Parser<I, O, E>,
    A4: Parser<I, O, E>,
    A5: Parser<I, O, E>,
    A6: Parser<I, O, E>,
    A7: Parser<I, O, E>,
    A8: Parser<I, O, E>,
    A9: Parser<I, O, E>,
    A10: Parser<I, O, E>,
    A11: Parser<I, O, E>,
    A12: Parser<I, O, E>,
    A13: Parser<I, O, E>,
    A14: Parser<I, O, E>,
    A15: Parser<I, O, E>,
    A16: Parser<I, O, E>,
    A17: Parser<I, O, E>,
    A18: Parser<I, O, E>,
    A19: Parser<I, O, E>,
    A20: Parser<I, O, E>,
>(
    list: (
        A1, A2, A3, A4, A5, A6, A7, A8, A9, A10, A11, A12, A13, A14, A15, A16, A17, A18, A19, A20,
    ),
    before: I,
    after: I,
    r: PResult<O, E>,
)
    requires
        decided(r),
    ensures
        ({
            let choice = Alternatives::of(list).parses(before, after, r);
            let upto_0 = true;
            let upto_1 = upto_0 && backtracks(list.0, before);
            let upto_2 = upto_1 && backtracks(list.1, before);
            let upto_3 = upto_2 && backtracks(list.2, before);
            let upto_4 = upto_3 && backtracks(list.3, before);
            let upto_5 = upto_4 && backtracks(list.4, before);
            let upto_6 = upto_5 && backtracks(list.5, before);
            let upto_7 = upto_6 && backtracks(list.6, before);
            let upto_8 = upto_7 && backtracks(list.7, before);
            let upto_9 = upto_8 && backtracks(list.8, before);
            let upto_10 = upto_9 && backtracks(list.9, before);
            let upto_11 = upto_10 && backtracks(list.10, before);
            let upto_12 = upto_11 && backtracks(list.11, before);
            let upto_13 = upto_12 && backtracks(list.12, before);
            let upto_14 = upto_13 && backtracks(list.13, before);
            let upto_15 = upto_14 && backtracks(list.14, before);
            let upto_16 = upto_15 && backtracks(list.15, before);
            let upto_17 = upto_16 && backtracks(list.16, before);
            let upto_18 = upto_17 && backtracks(list.17, before);
            let upto_19 = upto_18 && backtracks(list.18, before);
            &&& upto_0 && list.0.parses(before, after, r) ==> choice
            &&& upto_1 && list.1.parses(before, after, r) ==> choice
            &&& upto_2 && list.2.parses(before, after, r) ==> choice
            &&& upto_3 && list.3.parses(before, after, r) ==> choice
            &&& upto_4 && list.4.parses(before, after, r) ==> choice
            &&& upto_5 && list.5.parses(before, after, r) ==> choice
            &&& upto_6 && list.6.parses(before, after, r) ==> choice
            &&& upto_7 && list.7.parses(before, after, r) ==> choice
            &&& upto_8 && list.8.parses(before, after, r) ==> choice
            &&& upto_9 && list.9.parses(before, after, r) ==> choice
            &&& upto_10 && list.10.parses(before, after, r) ==> choice
            &&& upto_11 && list.11.parses(before, after, r) ==> choice
            &&& upto_12 && list.12.parses(before, after, r) ==> choice
            &&& upto_13 && list.13.parses(before, after, r) ==> choice
            &&& upto_14 && list.14.parses(before, after, r) ==> choice
            &&& upto_15 && list.15.parses(before, after, r) ==> choice
            &&& upto_16 && list.16.parses(before, after, r) ==> choice
            &&& upto_17 && list.17.parses(before, after, r) ==> choice
            &&& upto_18 && list.18.parses(before, after, r) ==> choice
            &&& upto_19 && list.19.parses(before, after, r) ==> choice
        }),
{
}

/// An ordered choice between 21 parsers that only move the cursor forward
/// only moves the cursor forward.
pub proof fn lemma_alt_21_advancing<
    I: Stream,
    O,
    E: ParseError<I>,
    A1: Parser<I, O, E>,
    A2: Parser<I, O, E>,
    A3: Parser<I, O, E>,
    A4: Parser<I, O, E>,
    A5: Parser<I, O, E>,
    A6: Parser<I, O, E>,
    A7: Parser<I, O, E>,
    A8: Parser<I, O, E>,
    A9: Parser<I, O, E>,
    A10: Parser<I, O, E>,
    A11: Parser<I, O, E>,
    A12: Parser<I, O, E>,
    A13: Parser<I, O, E>,
    A14: Parser<I, O, E>,
    A15: Parser<I, O, E>,
    A16: Parser<I, O, E>,
    A17: Parser<I, O, E>,
    A18: Parser<I, O, E>,
    A19: Parser<I, O, E>,
    A20: Parser<I, O, E>,
    A21: Parser<I, O, E>,
>(
    list: (
        A1, A2, A3, A4, A5, A6, A7, A8, A9, A10, A11, A12, A13, A14, A15, A16, A17, A18, A19, A20,
        A21,
    ),
)
    requires
        advancing(list.0),
        advancing(list.1),
        advancing(list.2),
        advancing(list.3),
        advancing(list.4),
        advancing(list.5),
        advancing(list.6),
        advancing(list.7),
        advancing(list.8),
        advancing(list.9),
        advancing(list.10),
        advancing(list.11),
        advancing(list.12),
        advancing(list.13),
        advancing(list.14),
        advancing(list.15),
        advancing(list.16),
        advancing(list.17),
        advancing(list.18),
        advancing(list.19),
        advancing(list.20),
    ensures
        advancing(Alternatives::of(list)),
{
    let choice = Alternatives::of(list);
    assert forall|before: I, after: I, r: PResult<O, E>| #[trigger]
        choice.parses(before, after, r) implies reaches(before, after) by {
        before.lemma_steps_zero();
    }
}

/// In a choice between 21 parsers, what an alternative yields other than a
/// recoverable failure is what the choice yields, where all alternatives
/// before it fail recoverably and whatever the alternatives after it are: a
/// success, a request for more input and an unrecoverable failure alike.
pub proof fn lemma_alt_21_decides<
    I: Stream,
    O,
    E: ParseError<I>,
    A1: Parser<I, O, E>,
    A2: Parser<I, O, E>,
    A3: Parser<I, O, E>,
    A4: Parser<I, O, E>,
    A5: Parser<I, O, E>,
    A6: Parser<I, O, E>,
    A7: Parser<I, O, E>,
    A8: Parser<I, O, E>,
    A9: Parser<I, O, E>,
    A10: Parser<I, O, E>,
    A11: Parser<I, O, E>,
    A12: Parser<I, O, E>,
    A13: Parser<I, O, E>,
    A14: Parser<I, O, E>,
    A15: Parser<I, O, E>,
    A16: Parser<I, O, E>,
    A17: Parser<I, O, E>,
    A18: Parser<I, O, E>,
    A19: Parser<I, O, E>,
    A20: Parser<I, O, E>,
    A21: Parser<I, O, E>,
>(
    list: (
        A1, A2, A3, A4, A5, A6, A7, A8, A9, A10, A11, A12, A13, A14, A15, A16, A17, A18, A19, A20,
        A21,
    ),
    before: I,
    after: I,
    r: PResult<O, E>,
)
    requires
        decided(r),
    ensures
        ({
            let choice = Alternatives::of(list).parses(before, after, r);
            let upto_0 = true;
            let upto_1 = upto_0 && backtracks(list.0, before);
            let upto_2 = upto_1 && backtracks(list.1, before);
            let upto_3 = upto_2 && backtracks(list.2, before);
            let upto_4 = upto_3 && backtracks(list.3, before);
            let upto_5 = upto_4 && backtracks(list.4, before);
            let upto_6 = upto_5 && backtracks(list.5, before);
            let upto_7 = upto_6 && backtracks(list.6, before);
            let upto_8 = upto_7 && backtracks(list.7, before);
            let upto_9 = upto_8 && backtracks(list.8, before);
            let upto_10 = upto_9 && backtracks(list.9, before);
            let upto_11 = upto_10 && backtracks(list.10, before);
            let upto_12 = upto_11 && backtracks(list.11, before);
            let upto_13 = upto_12 && backtracks(list.12, before);
            let upto_14 = upto_13 && backtracks(list.13, before);
            let upto_15 = upto_14 && backtracks(list.14, before);
            let upto_16 = upto_15 && backtracks(list.15, before);
            let upto_17 = upto_16 && backtracks(list.16, before);
            let upto_18 = upto_17 && backtracks(list.17, before);
            let upto_19 = upto_18 && backtracks(list.18, before);
            let upto_20 = upto_19 && backtracks(list.19, before);
            &&& upto_0 && list.0.parses(before, after, r) ==> choice
            &&& upto_1 && list.1.parses(before, after, r) ==> choice
            &&& upto_2 && list.2.parses(before, after, r) ==> choice
            &&& upto_3 && list.3.parses(before, after, r) ==> choice
            &&& upto_4 && list.4.parses(before, after, r) ==> choice
            &&& upto_5 && list.5.parses(before, after, r) ==> choice
            &&& upto_6 && list.6.parses(before, after, r) ==> choice
            &&& upto_7 && list.7.parses(before, after, r) ==> choice
            &&& upto_8 && list.8.parses(before, after, r) ==> choice
            &&& upto_9 && list.9.parses(before, after, r) ==> choice
            &&& upto_10 && list.10.parses(before, after, r) ==> choice
            &&& upto_11 && list.11.parses(before, after, r) ==> choice
            &&& upto_12 && list.12.parses(before, after, r) ==> choice
            &&& upto_13 && list.13.parses(before, after, r) ==> choice
            &&& upto_14 && list.14.parses(before, after, r) ==> choice
            &&& upto_15 && list.15.parses(before, after, r) ==> choice
            &&& upto_16 && list.16.parses(before, after, r) ==> choice
            &&& upto_17 && list.17.parses(before, after, r) ==> choice
            &&& upto_18 && list.18.parses(before, after, r) ==> choice
            &&& upto_19 && list.19.parses(before, after, r) ==> choice
            &&& upto_20 && list.20.parses(before, after, r) ==> choice
        }),
{
}

} // verus!
