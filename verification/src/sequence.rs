//! Tuples of parsers as sequences: the parsers run one after the other, each
//! where the one before it stopped, and the outputs are yielded as a tuple.
//! The first failure is the outcome of the sequence.
//!
//! The relation of a tuple is stated by way of the tuple without its last
//! parser, the `head`.
use vstd::prelude::*;
use crate::error::PResult;
use crate::parser::{advancing, stops_at, stops_with, Parser};
use crate::stream::{reaches, Stream};

verus! {

impl<I, O1, E, A1> Parser<I, (O1,), E> for (A1,) where
    A1: Parser<I, O1, E>,
 {
    open spec fn wf(&self) -> bool {
        &&& self.0.wf()
    }

    open spec fn parses(&self, before: I, after: I, r: PResult<(O1,), E>) -> bool {
        match r {
            Ok(o) => self.0.parses(before, after, Ok(o.0)),
            Err(e) => self.0.parses(before, after, Err(e)),
        }
    }

    fn parse_next(&mut self, input: &mut I) -> (r: PResult<(O1,), E>) {
        let o1 = match self.0.parse_next(input) {
            Ok(o) => o,
            Err(e) => {
                return Err(e);
            },
        };
        Ok((o1,))
    }
}

impl<I, O1, O2, E, A1, A2> Parser<I, (O1, O2), E> for (A1, A2) where
    A1: Parser<I, O1, E>,
    A2: Parser<I, O2, E>,
 {
    open spec fn wf(&self) -> bool {
        &&& self.0.wf()
        &&& self.1.wf()
    }

    open spec fn parses(&self, before: I, after: I, r: PResult<(O1, O2), E>) -> bool {
        let head = (self.0,);
        match r {
            Ok(o) => {
                let outs = (o.0,);
                exists|mid: I| #[trigger]
                    stops_at(mid) && head.parses(before, mid, Ok(outs)) && self.1.parses(
                        mid,
                        after,
                        Ok(o.1),
                    )
            },
            Err(e) => head.parses(before, after, Err(e)) || exists|mid: I, o: (O1,)| #[trigger]
                stops_with(mid, o) && head.parses(before, mid, Ok(o)) && self.1.parses(
                    mid,
                    after,
                    Err(e),
                ),
        }
    }

    fn parse_next(&mut self, input: &mut I) -> (r: PResult<(O1, O2), E>) {
        let ghost me = *self;
        let ghost x0 = *input;
        let o1 = match self.0.parse_next(input) {
            Ok(o) => o,
            Err(e) => {
                return Err(e);
            },
        };
        let ghost m1 = *input;
        let o2 = match self.1.parse_next(input) {
            Ok(o) => o,
            Err(e) => {
                proof {
                    let outs = (o1,);
                    assert(stops_with(m1, outs));
                }
                return Err(e);
            },
        };
        let ghost m2 = *input;
        proof {
            assert(stops_at(m1));
            let upto = (me.0, me.1);
            let outs = (o1, o2);
            assert(upto.parses(x0, m2, Ok(outs)));
        }
        Ok((o1, o2))
    }
}

impl<I, O1, O2, O3, E, A1, A2, A3> Parser<I, (O1, O2, O3), E> for (A1, A2, A3) where
    A1: Parser<I, O1, E>,
    A2: Parser<I, O2, E>,
    A3: Parser<I, O3, E>,
 {
    open spec fn wf(&self) -> bool {
        &&& self.0.wf()
        &&& self.1.wf()
        &&& self.2.wf()
    }

    open spec fn parses(&self, before: I, after: I, r: PResult<(O1, O2, O3), E>) -> bool {
        let head = (self.0, self.1);
        match r {
            Ok(o) => {
                let outs = (o.0, o.1);
                exists|mid: I| #[trigger]
                    stops_at(mid) && head.parses(before, mid, Ok(outs)) && self.2.parses(
                        mid,
                        after,
                        Ok(o.2),
                    )
            },
            Err(e) => head.parses(before, after, Err(e)) || exists|mid: I, o: (O1, O2)| #[trigger]
                stops_with(mid, o) && head.parses(before, mid, Ok(o)) && self.2.parses(
                    mid,
                    after,
                    Err(e),
                ),
        }
    }

    fn parse_next(&mut self, input: &mut I) -> (r: PResult<(O1, O2, O3), E>) {
        let ghost me = *self;
        let ghost x0 = *input;
        let o1 = match self.0.parse_next(input) {
            Ok(o) => o,
            Err(e) => {
                return Err(e);
            },
        };
        let ghost m1 = *input;
        let o2 = match self.1.parse_next(input) {
            Ok(o) => o,
            Err(e) => {
                proof {
                    let outs = (o1,);
                    assert(stops_with(m1, outs));
                    let upto = (me.0, me.1);
                    assert(upto.parses(x0, *input, Err(e)));
                }
                return Err(e);
            },
        };
        let ghost m2 = *input;
        proof {
            assert(stops_at(m1));
            let upto = (me.0, me.1);
            let outs = (o1, o2);
            assert(upto.parses(x0, m2, Ok(outs)));
        }
        let o3 = match self.2.parse_next(input) {
            Ok(o) => o,
            Err(e) => {
                proof {
                    let outs = (o1, o2);
                    assert(stops_with(m2, outs));
                }
                return Err(e);
            },
        };
        let ghost m3 = *input;
        proof {
            assert(stops_at(m2));
            let upto = (me.0, me.1, me.2);
            let outs = (o1, o2, o3);
            assert(upto.parses(x0, m3, Ok(outs)));
        }
        Ok((o1, o2, o3))
    }
}

impl<I, O1, O2, O3, O4, E, A1, A2, A3, A4> Parser<I, (O1, O2, O3, O4), E> for (A1, A2, A3, A4) where
    A1: Parser<I, O1, E>,
    A2: Parser<I, O2, E>,
    A3: Parser<I, O3, E>,
    A4: Parser<I, O4, E>,
 {
    open spec fn wf(&self) -> bool {
        &&& self.0.wf()
        &&& self.1.wf()
        &&& self.2.wf()
        &&& self.3.wf()
    }

    open spec fn parses(&self, before: I, after: I, r: PResult<(O1, O2, O3, O4), E>) -> bool {
        let head = (self.0, self.1, self.2);
        match r {
            Ok(o) => {
                let outs = (o.0, o.1, o.2);
                exists|mid: I| #[trigger]
                    stops_at(mid) && head.parses(before, mid, Ok(outs)) && self.3.parses(
                        mid,
                        after,
                        Ok(o.3),
                    )
            },
            Err(e) => head.parses(before, after, Err(e)) || exists|
                mid: I,
                o: (O1, O2, O3),
            | #[trigger]
                stops_with(mid, o) && head.parses(before, mid, Ok(o)) && self.3.parses(
                    mid,
                    after,
                    Err(e),
                ),
        }
    }

    fn parse_next(&mut self, input: &mut I) -> (r: PResult<(O1, O2, O3, O4), E>) {
        let ghost me = *self;
        let ghost x0 = *input;
        let o1 = match self.0.parse_next(input) {
            Ok(o) => o,
            Err(e) => {
                return Err(e);
            },
        };
        let ghost m1 = *input;
        let o2 = match self.1.parse_next(input) {
            Ok(o) => o,
            Err(e) => {
                proof {
                    let outs = (o1,);
                    assert(stops_with(m1, outs));
                    let upto = (me.0, me.1);
                    assert(upto.parses(x0, *input, Err(e)));
                }
                return Err(e);
            },
        };
        let ghost m2 = *input;
        proof {
            assert(stops_at(m1));
            let upto = (me.0, me.1);
            let outs = (o1, o2);
            assert(upto.parses(x0, m2, Ok(outs)));
        }
        let o3 = match self.2.parse_next(input) {
            Ok(o) => o,
            Err(e) => {
                proof {
                    let outs = (o1, o2);
                    assert(stops_with(m2, outs));
                    let upto = (me.0, me.1, me.2);
                    assert(upto.parses(x0, *input, Err(e)));
                }
                return Err(e);
            },
        };
        let ghost m3 = *input;
        proof {
            assert(stops_at(m2));
            let upto = (me.0, me.1, me.2);
            let outs = (o1, o2, o3);
            assert(upto.parses(x0, m3, Ok(outs)));
        }
        let o4 = match self.3.parse_next(input) {
            Ok(o) => o,
            Err(e) => {
                proof {
                    let outs = (o1, o2, o3);
                    assert(stops_with(m3, outs));
                }
                return Err(e);
            },
        };
        let ghost m4 = *input;
        proof {
            assert(stops_at(m3));
            let upto = (me.0, me.1, me.2, me.3);
            let outs = (o1, o2, o3, o4);
            assert(upto.parses(x0, m4, Ok(outs)));
        }
        Ok((o1, o2, o3, o4))
    }
}

impl<I, O1, O2, O3, O4, O5, E, A1, A2, A3, A4, A5> Parser<
    I,
    (O1, O2, O3, O4, O5),
    E,
> for
    (A1, A2, A3, A4, A5) where
    A1: Parser<I, O1, E>,
    A2: Parser<I, O2, E>,
    A3: Parser<I, O3, E>,
    A4: Parser<I, O4, E>,
    A5: Parser<I, O5, E>,
 {
    open spec fn wf(&self) -> bool {
        &&& self.0.wf()
        &&& self.1.wf()
        &&& self.2.wf()
        &&& self.3.wf()
        &&& self.4.wf()
    }

    open spec fn parses(&self, before: I, after: I, r: PResult<(O1, O2, O3, O4, O5), E>) -> bool {
        let head = (self.0, self.1, self.2, self.3);
        match r {
            Ok(o) => {
                let outs = (o.0, o.1, o.2, o.3);
                exists|mid: I| #[trigger]
                    stops_at(mid) && head.parses(before, mid, Ok(outs)) && self.4.parses(
                        mid,
                        after,
                        Ok(o.4),
                    )
            },
            Err(e) => head.parses(before, after, Err(e)) || exists|
                mid: I,
                o: (O1, O2, O3, O4),
            | #[trigger]
                stops_with(mid, o) && head.parses(before, mid, Ok(o)) && self.4.parses(
                    mid,
                    after,
                    Err(e),
                ),
        }
    }

    fn parse_next(&mut self, input: &mut I) -> (r: PResult<(O1, O2, O3, O4, O5), E>) {
        let ghost me = *self;
        let ghost x0 = *input;
        let o1 = match self.0.parse_next(input) {
            Ok(o) => o,
            Err(e) => {
                return Err(e);
            },
        };
        let ghost m1 = *input;
        let o2 = match self.1.parse_next(input) {
            Ok(o) => o,
            Err(e) => {
                proof {
                    let outs = (o1,);
                    assert(stops_with(m1, outs));
                    let upto = (me.0, me.1);
                    assert(upto.parses(x0, *input, Err(e)));
                }
                return Err(e);
            },
        };
        let ghost m2 = *input;
        proof {
            assert(stops_at(m1));
            let upto = (me.0, me.1);
            let outs = (o1, o2);
            assert(upto.parses(x0, m2, Ok(outs)));
        }
        let o3 = match self.2.parse_next(input) {
            Ok(o) => o,
            Err(e) => {
                proof {
                    let outs = (o1, o2);
                    assert(stops_with(m2, outs));
                    let upto = (me.0, me.1, me.2);
                    assert(upto.parses(x0, *input, Err(e)));
                }
                return Err(e);
            },
        };
        let ghost m3 = *input;
        proof {
            assert(stops_at(m2));
            let upto = (me.0, me.1, me.2);
            let outs = (o1, o2, o3);
            assert(upto.parses(x0, m3, Ok(outs)));
        }
        let o4 = match self.3.parse_next(input) {
            Ok(o) => o,
            Err(e) => {
                proof {
                    let outs = (o1, o2, o3);
                    assert(stops_with(m3, outs));
                    let upto = (me.0, me.1, me.2, me.3);
                    assert(upto.parses(x0, *input, Err(e)));
                }
                return Err(e);
            },
        };
        let ghost m4 = *input;
        proof {
            assert(stops_at(m3));
            let upto = (me.0, me.1, me.2, me.3);
            let outs = (o1, o2, o3, o4);
            assert(upto.parses(x0, m4, Ok(outs)));
        }
        let o5 = match self.4.parse_next(input) {
            Ok(o) => o,
            Err(e) => {
                proof {
                    let outs = (o1, o2, o3, o4);
                    assert(stops_with(m4, outs));
                }
                return Err(e);
            },
        };
        let ghost m5 = *input;
        proof {
            assert(stops_at(m4));
            let upto = (me.0, me.1, me.2, me.3, me.4);
            let outs = (o1, o2, o3, o4, o5);
            assert(upto.parses(x0, m5, Ok(outs)));
        }
        Ok((o1, o2, o3, o4, o5))
    }
}

impl<I, O1, O2, O3, O4, O5, O6, E, A1, A2, A3, A4, A5, A6> Parser<
    I,
    (O1, O2, O3, O4, O5, O6),
    E,
> for
    (A1, A2, A3, A4, A5, A6) where
    A1: Parser<I, O1, E>,
    A2: Parser<I, O2, E>,
    A3: Parser<I, O3, E>,
    A4: Parser<I, O4, E>,
    A5: Parser<I, O5, E>,
    A6: Parser<I, O6, E>,
 {
    open spec fn wf(&self) -> bool {
        &&& self.0.wf()
        &&& self.1.wf()
        &&& self.2.wf()
        &&& self.3.wf()
        &&& self.4.wf()
        &&& self.5.wf()
    }

    open spec fn parses(
        &self,
        before: I,
        after: I,
        r: PResult<
            (O1, O2, O3, O4, O5, O6),
            E,
        >,
    ) -> bool {
        let head = (self.0, self.1, self.2, self.3, self.4);
        match r {
            Ok(o) => {
                let outs = (o.0, o.1, o.2, o.3, o.4);
                exists|mid: I| #[trigger]
                    stops_at(mid) && head.parses(before, mid, Ok(outs)) && self.5.parses(
                        mid,
                        after,
                        Ok(o.5),
                    )
            },
            Err(e) => head.parses(before, after, Err(e)) || exists|
                mid: I,
                o: (O1, O2, O3, O4, O5),
            | #[trigger]
                stops_with(mid, o) && head.parses(before, mid, Ok(o)) && self.5.parses(
                    mid,
                    after,
                    Err(e),
                ),
        }
    }

    fn parse_next(&mut self, input: &mut I) -> (r: PResult<(O1, O2, O3, O4, O5, O6), E>) {
        let ghost me = *self;
        let ghost x0 = *input;
        let o1 = match self.0.parse_next(input) {
            Ok(o) => o,
            Err(e) => {
                return Err(e);
            },
        };
        let ghost m1 = *input;
        let o2 = match self.1.parse_next(input) {
            Ok(o) => o,
            Err(e) => {
                proof {
                    let outs = (o1,);
                    assert(stops_with(m1, outs));
                    let upto = (me.0, me.1);
                    assert(upto.parses(x0, *input, Err(e)));
                }
                return Err(e);
            },
        };
        let ghost m2 = *input;
        proof {
            assert(stops_at(m1));
            let upto = (me.0, me.1);
            let outs = (o1, o2);
            assert(upto.parses(x0, m2, Ok(outs)));
        }
        let o3 = match self.2.parse_next(input) {
            Ok(o) => o,
            Err(e) => {
                proof {
                    let outs = (o1, o2);
                    assert(stops_with(m2, outs));
                    let upto = (me.0, me.1, me.2);
                    assert(upto.parses(x0, *input, Err(e)));
                }
                return Err(e);
            },
        };
        let ghost m3 = *input;
        proof {
            assert(stops_at(m2));
            let upto = (me.0, me.1, me.2);
            let outs = (o1, o2, o3);
            assert(upto.parses(x0, m3, Ok(outs)));
        }
        let o4 = match self.3.parse_next(input) {
            Ok(o) => o,
            Err(e) => {
                proof {
                    let outs = (o1, o2, o3);
                    assert(stops_with(m3, outs));
                    let upto = (me.0, me.1, me.2, me.3);
                    assert(upto.parses(x0, *input, Err(e)));
                }
                return Err(e);
            },
        };
        let ghost m4 = *input;
        proof {
            assert(stops_at(m3));
            let upto = (me.0, me.1, me.2, me.3);
            let outs = (o1, o2, o3, o4);
            assert(upto.parses(x0, m4, Ok(outs)));
        }
        let o5 = match self.4.parse_next(input) {
            Ok(o) => o,
            Err(e) => {
                proof {
                    let outs = (o1, o2, o3, o4);
                    assert(stops_with(m4, outs));
                    let upto = (me.0, me.1, me.2, me.3, me.4);
                    assert(upto.parses(x0, *input, Err(e)));
                }
                return Err(e);
            },
        };
        let ghost m5 = *input;
        proof {
            assert(stops_at(m4));
            let upto = (me.0, me.1, me.2, me.3, me.4);
            let outs = (o1, o2, o3, o4, o5);
            assert(upto.parses(x0, m5, Ok(outs)));
        }
        let o6 = match self.5.parse_next(input) {
            Ok(o) => o,
            Err(e) => {
                proof {
                    let outs = (o1, o2, o3, o4, o5);
                    assert(stops_with(m5, outs));
                }
                return Err(e);
            },
        };
        let ghost m6 = *input;
        proof {
            assert(stops_at(m5));
            let upto = (me.0, me.1, me.2, me.3, me.4, me.5);
            let outs = (o1, o2, o3, o4, o5, o6);
            assert(upto.parses(x0, m6, Ok(outs)));
        }
        Ok((o1, o2, o3, o4, o5, o6))
    }
}

impl<I, O1, O2, O3, O4, O5, O6, O7, E, A1, A2, A3, A4, A5, A6, A7> Parser<
    I,
    (O1, O2, O3, O4, O5, O6, O7),
    E,
> for
    (A1, A2, A3, A4, A5, A6, A7) where
    A1: Parser<I, O1, E>,
    A2: Parser<I, O2, E>,
    A3: Parser<I, O3, E>,
    A4: Parser<I, O4, E>,
    A5: Parser<I, O5, E>,
    A6: Parser<I, O6, E>,
    A7: Parser<I, O7, E>,
 {
    open spec fn wf(&self) -> bool {
        &&& self.0.wf()
        &&& self.1.wf()
        &&& self.2.wf()
        &&& self.3.wf()
        &&& self.4.wf()
        &&& self.5.wf()
        &&& self.6.wf()
    }

    open spec fn parses(
        &self,
        before: I,
        after: I,
        r: PResult<
            (O1, O2, O3, O4, O5, O6, O7),
            E,
        >,
    ) -> bool {
        let head = (self.0, self.1, self.2, self.3, self.4, self.5);
        match r {
            Ok(o) => {
                let outs = (o.0, o.1, o.2, o.3, o.4, o.5);
                exists|mid: I| #[trigger]
                    stops_at(mid) && head.parses(before, mid, Ok(outs)) && self.6.parses(
                        mid,
                        after,
                        Ok(o.6),
                    )
            },
            Err(e) => head.parses(before, after, Err(e)) || exists|
                mid: I,
                o: (O1, O2, O3, O4, O5, O6),
            | #[trigger]
                stops_with(mid, o) && head.parses(before, mid, Ok(o)) && self.6.parses(
                    mid,
                    after,
                    Err(e),
                ),
        }
    }

    fn parse_next(&mut self, input: &mut I) -> (r: PResult<(O1, O2, O3, O4, O5, O6, O7), E>) {
        let ghost me = *self;
        let ghost x0 = *input;
        let o1 = match self.0.parse_next(input) {
            Ok(o) => o,
            Err(e) => {
                return Err(e);
            },
        };
        let ghost m1 = *input;
        let o2 = match self.1.parse_next(input) {
            Ok(o) => o,
            Err(e) => {
                proof {
                    let outs = (o1,);
                    assert(stops_with(m1, outs));
                    let upto = (me.0, me.1);
                    assert(upto.parses(x0, *input, Err(e)));
                }
                return Err(e);
            },
        };
        let ghost m2 = *input;
        proof {
            assert(stops_at(m1));
            let upto = (me.0, me.1);
            let outs = (o1, o2);
            assert(upto.parses(x0, m2, Ok(outs)));
        }
        let o3 = match self.2.parse_next(input) {
            Ok(o) => o,
            Err(e) => {
                proof {
                    let outs = (o1, o2);
                    assert(stops_with(m2, outs));
                    let upto = (me.0, me.1, me.2);
                    assert(upto.parses(x0, *input, Err(e)));
                }
                return Err(e);
            },
        };
        let ghost m3 = *input;
        proof {
            assert(stops_at(m2));
            let upto = (me.0, me.1, me.2);
            let outs = (o1, o2, o3);
            assert(upto.parses(x0, m3, Ok(outs)));
        }
        let o4 = match self.3.parse_next(input) {
            Ok(o) => o,
            Err(e) => {
                proof {
                    let outs = (o1, o2, o3);
                    assert(stops_with(m3, outs));
                    let upto = (me.0, me.1, me.2, me.3);
                    assert(upto.parses(x0, *input, Err(e)));
                }
                return Err(e);
            },
        };
        let ghost m4 = *input;
        proof {
            assert(stops_at(m3));
            let upto = (me.0, me.1, me.2, me.3);
            let outs = (o1, o2, o3, o4);
            assert(upto.parses(x0, m4, Ok(outs)));
        }
        let o5 = match self.4.parse_next(input) {
            Ok(o) => o,
            Err(e) => {
                proof {
                    let outs = (o1, o2, o3, o4);
                    assert(stops_with(m4, outs));
                    let upto = (me.0, me.1, me.2, me.3, me.4);
                    assert(upto.parses(x0, *input, Err(e)));
                }
                return Err(e);
            },
        };
        let ghost m5 = *input;
        proof {
            assert(stops_at(m4));
            let upto = (me.0, me.1, me.2, me.3, me.4);
            let outs = (o1, o2, o3, o4, o5);
            assert(upto.parses(x0, m5, Ok(outs)));
        }
        let o6 = match self.5.parse_next(input) {
            Ok(o) => o,
            Err(e) => {
                proof {
                    let outs = (o1, o2, o3, o4, o5);
                    assert(stops_with(m5, outs));
                    let upto = (me.0, me.1, me.2, me.3, me.4, me.5);
                    assert(upto.parses(x0, *input, Err(e)));
                }
                return Err(e);
            },
        };
        let ghost m6 = *input;
        proof {
            assert(stops_at(m5));
            let upto = (me.0, me.1, me.2, me.3, me.4, me.5);
            let outs = (o1, o2, o3, o4, o5, o6);
            assert(upto.parses(x0, m6, Ok(outs)));
        }
        let o7 = match self.6.parse_next(input) {
            Ok(o) => o,
            Err(e) => {
                proof {
                    let outs = (o1, o2, o3, o4, o5, o6);
                    assert(stops_with(m6, outs));
                }
                return Err(e);
            },
        };
        let ghost m7 = *input;
        proof {
            assert(stops_at(m6));
            let upto = (me.0, me.1, me.2, me.3, me.4, me.5, me.6);
            let outs = (o1, o2, o3, o4, o5, o6, o7);
            assert(upto.parses(x0, m7, Ok(outs)));
        }
        Ok((o1, o2, o3, o4, o5, o6, o7))
    }
}

impl<I, O1, O2, O3, O4, O5, O6, O7, O8, E, A1, A2, A3, A4, A5, A6, A7, A8> Parser<
    I,
    (O1, O2, O3, O4, O5, O6, O7, O8),
    E,
> for
    (A1, A2, A3, A4, A5, A6, A7, A8) where
    A1: Parser<I, O1, E>,
    A2: Parser<I, O2, E>,
    A3: Parser<I, O3, E>,
    A4: Parser<I, O4, E>,
    A5: Parser<I, O5, E>,
    A6: Parser<I, O6, E>,
    A7: Parser<I, O7, E>,
    A8: Parser<I, O8, E>,
 {
    open spec fn wf(&self) -> bool {
        &&& self.0.wf()
        &&& self.1.wf()
        &&& self.2.wf()
        &&& self.3.wf()
        &&& self.4.wf()
        &&& self.5.wf()
        &&& self.6.wf()
        &&& self.7.wf()
    }

    open spec fn parses(
        &self,
        before: I,
        after: I,
        r: PResult<
            (O1, O2, O3, O4, O5, O6, O7, O8),
            E,
        >,
    ) -> bool {
        let head = (self.0, self.1, self.2, self.3, self.4, self.5, self.6);
        match r {
            Ok(o) => {
                let outs = (o.0, o.1, o.2, o.3, o.4, o.5, o.6);
                exists|mid: I| #[trigger]
                    stops_at(mid) && head.parses(before, mid, Ok(outs)) && self.7.parses(
                        mid,
                        after,
                        Ok(o.7),
                    )
            },
            Err(e) => head.parses(before, after, Err(e)) || exists|
                mid: I,
                o: (O1, O2, O3, O4, O5, O6, O7),
            | #[trigger]
                stops_with(mid, o) && head.parses(before, mid, Ok(o)) && self.7.parses(
                    mid,
                    after,
                    Err(e),
                ),
        }
    }

    fn parse_next(&mut self, input: &mut I) -> (r: PResult<(O1, O2, O3, O4, O5, O6, O7, O8), E>) {
        let ghost me = *self;
        let ghost x0 = *input;
        let o1 = match self.0.parse_next(input) {
            Ok(o) => o,
            Err(e) => {
                return Err(e);
            },
        };
        let ghost m1 = *input;
        let o2 = match self.1.parse_next(input) {
            Ok(o) => o,
            Err(e) => {
                proof {
                    let outs = (o1,);
                    assert(stops_with(m1, outs));
                    let upto = (me.0, me.1);
                    assert(upto.parses(x0, *input, Err(e)));
                }
                return Err(e);
            },
        };
        let ghost m2 = *input;
        proof {
            assert(stops_at(m1));
            let upto = (me.0, me.1);
            let outs = (o1, o2);
            assert(upto.parses(x0, m2, Ok(outs)));
        }
        let o3 = match self.2.parse_next(input) {
            Ok(o) => o,
            Err(e) => {
                proof {
                    let outs = (o1, o2);
                    assert(stops_with(m2, outs));
                    let upto = (me.0, me.1, me.2);
                    assert(upto.parses(x0, *input, Err(e)));
                }
                return Err(e);
            },
        };
        let ghost m3 = *input;
        proof {
            assert(stops_at(m2));
            let upto = (me.0, me.1, me.2);
            let outs = (o1, o2, o3);
            assert(upto.parses(x0, m3, Ok(outs)));
        }
        let o4 = match self.3.parse_next(input) {
            Ok(o) => o,
            Err(e) => {
                proof {
                    let outs = (o1, o2, o3);
                    assert(stops_with(m3, outs));
                    let upto = (me.0, me.1, me.2, me.3);
                    assert(upto.parses(x0, *input, Err(e)));
                }
                return Err(e);
            },
        };
        let ghost m4 = *input;
        proof {
            assert(stops_at(m3));
            let upto = (me.0, me.1, me.2, me.3);
            let outs = (o1, o2, o3, o4);
            assert(upto.parses(x0, m4, Ok(outs)));
        }
        let o5 = match self.4.parse_next(input) {
            Ok(o) => o,
            Err(e) => {
                proof {
                    let outs = (o1, o2, o3, o4);
                    assert(stops_with(m4, outs));
                    let upto = (me.0, me.1, me.2, me.3, me.4);
                    assert(upto.parses(x0, *input, Err(e)));
                }
                return Err(e);
            },
        };
        let ghost m5 = *input;
        proof {
            assert(stops_at(m4));
            let upto = (me.0, me.1, me.2, me.3, me.4);
            let outs = (o1, o2, o3, o4, o5);
            assert(upto.parses(x0, m5, Ok(outs)));
        }
        let o6 = match self.5.parse_next(input) {
            Ok(o) => o,
            Err(e) => {
                proof {
                    let outs = (o1, o2, o3, o4, o5);
                    assert(stops_with(m5, outs));
                    let upto = (me.0, me.1, me.2, me.3, me.4, me.5);
                    assert(upto.parses(x0, *input, Err(e)));
                }
                return Err(e);
            },
        };
        let ghost m6 = *input;
        proof {
            assert(stops_at(m5));
            let upto = (me.0, me.1, me.2, me.3, me.4, me.5);
            let outs = (o1, o2, o3, o4, o5, o6);
            assert(upto.parses(x0, m6, Ok(outs)));
        }
        let o7 = match self.6.parse_next(input) {
            Ok(o) => o,
            Err(e) => {
                proof {
                    let outs = (o1, o2, o3, o4, o5, o6);
                    assert(stops_with(m6, outs));
                    let upto = (me.0, me.1, me.2, me.3, me.4, me.5, me.6);
                    assert(upto.parses(x0, *input, Err(e)));
                }
                return Err(e);
            },
        };
        let ghost m7 = *input;
        proof {
            assert(stops_at(m6));
            let upto = (me.0, me.1, me.2, me.3, me.4, me.5, me.6);
            let outs = (o1, o2, o3, o4, o5, o6, o7);
            assert(upto.parses(x0, m7, Ok(outs)));
        }
        let o8 = match self.7.parse_next(input) {
            Ok(o) => o,
            Err(e) => {
                proof {
                    let outs = (o1, o2, o3, o4, o5, o6, o7);
                    assert(stops_with(m7, outs));
                }
                return Err(e);
            },
        };
        let ghost m8 = *input;
        proof {
            assert(stops_at(m7));
            let upto = (me.0, me.1, me.2, me.3, me.4, me.5, me.6, me.7);
            let outs = (o1, o2, o3, o4, o5, o6, o7, o8);
            assert(upto.parses(x0, m8, Ok(outs)));
        }
        Ok((o1, o2, o3, o4, o5, o6, o7, o8))
    }
}

impl<I, O1, O2, O3, O4, O5, O6, O7, O8, O9, E, A1, A2, A3, A4, A5, A6, A7, A8, A9> Parser<
    I,
    (O1, O2, O3, O4, O5, O6, O7, O8, O9),
    E,
> for
    (A1, A2, A3, A4, A5, A6, A7, A8, A9) where
    A1: Parser<I, O1, E>,
    A2: Parser<I, O2, E>,
    A3: Parser<I, O3, E>,
    A4: Parser<I, O4, E>,
    A5: Parser<I, O5, E>,
    A6: Parser<I, O6, E>,
    A7: Parser<I, O7, E>,
    A8: Parser<I, O8, E>,
    A9: Parser<I, O9, E>,
 {
    open spec fn wf(&self) -> bool {
        &&& self.0.wf()
        &&& self.1.wf()
        &&& self.2.wf()
        &&& self.3.wf()
        &&& self.4.wf()
        &&& self.5.wf()
        &&& self.6.wf()
        &&& self.7.wf()
        &&& self.8.wf()
    }

    open spec fn parses(
        &self,
        before: I,
        after: I,
        r: PResult<
            (O1, O2, O3, O4, O5, O6, O7, O8, O9),
            E,
        >,
    ) -> bool {
        let head = (self.0, self.1, self.2, self.3, self.4, self.5, self.6, self.7);
        match r {
            Ok(o) => {
                let outs = (o.0, o.1, o.2, o.3, o.4, o.5, o.6, o.7);
                exists|mid: I| #[trigger]
                    stops_at(mid) && head.parses(before, mid, Ok(outs)) && self.8.parses(
                        mid,
                        after,
                        Ok(o.8),
                    )
            },
            Err(e) => head.parses(before, after, Err(e)) || exists|
                mid: I,
                o: (O1, O2, O3, O4, O5, O6, O7, O8),
            | #[trigger]
                stops_with(mid, o) && head.parses(before, mid, Ok(o)) && self.8.parses(
                    mid,
                    after,
                    Err(e),
                ),
        }
    }

    fn parse_next(&mut self, input: &mut I) -> (r: PResult<
        (O1, O2, O3, O4, O5, O6, O7, O8, O9),
        E,
    >) {
        let ghost me = *self;
        let ghost x0 = *input;
        let o1 = match self.0.parse_next(input) {
            Ok(o) => o,
            Err(e) => {
                return Err(e);
            },
        };
        let ghost m1 = *input;
        let o2 = match self.1.parse_next(input) {
            Ok(o) => o,
            Err(e) => {
                proof {
                    let outs = (o1,);
                    assert(stops_with(m1, outs));
                    let upto = (me.0, me.1);
                    assert(upto.parses(x0, *input, Err(e)));
                }
                return Err(e);
            },
        };
        let ghost m2 = *input;
        proof {
            assert(stops_at(m1));
            let upto = (me.0, me.1);
            let outs = (o1, o2);
            assert(upto.parses(x0, m2, Ok(outs)));
        }
        let o3 = match self.2.parse_next(input) {
            Ok(o) => o,
            Err(e) => {
                proof {
                    let outs = (o1, o2);
                    assert(stops_with(m2, outs));
                    let upto = (me.0, me.1, me.2);
                    assert(upto.parses(x0, *input, Err(e)));
                }
                return Err(e);
            },
        };
        let ghost m3 = *input;
        proof {
            assert(stops_at(m2));
            let upto = (me.0, me.1, me.2);
            let outs = (o1, o2, o3);
            assert(upto.parses(x0, m3, Ok(outs)));
        }
        let o4 = match self.3.parse_next(input) {
            Ok(o) => o,
            Err(e) => {
                proof {
                    let outs = (o1, o2, o3);
                    assert(stops_with(m3, outs));
                    let upto = (me.0, me.1, me.2, me.3);
                    assert(upto.parses(x0, *input, Err(e)));
                }
                return Err(e);
            },
        };
        let ghost m4 = *input;
        proof {
            assert(stops_at(m3));
            let upto = (me.0, me.1, me.2, me.3);
            let outs = (o1, o2, o3, o4);
            assert(upto.parses(x0, m4, Ok(outs)));
        }
        let o5 = match self.4.parse_next(input) {
            Ok(o) => o,
            Err(e) => {
                proof {
                    let outs = (o1, o2, o3, o4);
                    assert(stops_with(m4, outs));
                    let upto = (me.0, me.1, me.2, me.3, me.4);
                    assert(upto.parses(x0, *input, Err(e)));
                }
                return Err(e);
            },
        };
        let ghost m5 = *input;
        proof {
            assert(stops_at(m4));
            let upto = (me.0, me.1, me.2, me.3, me.4);
            let outs = (o1, o2, o3, o4, o5);
            assert(upto.parses(x0, m5, Ok(outs)));
        }
        let o6 = match self.5.parse_next(input) {
            Ok(o) => o,
            Err(e) => {
                proof {
                    let outs = (o1, o2, o3, o4, o5);
                    assert(stops_with(m5, outs));
                    let upto = (me.0, me.1, me.2, me.3, me.4, me.5);
                    assert(upto.parses(x0, *input, Err(e)));
                }
                return Err(e);
            },
        };
        let ghost m6 = *input;
        proof {
            assert(stops_at(m5));
            let upto = (me.0, me.1, me.2, me.3, me.4, me.5);
            let outs = (o1, o2, o3, o4, o5, o6);
            assert(upto.parses(x0, m6, Ok(outs)));
        }
        let o7 = match self.6.parse_next(input) {
            Ok(o) => o,
            Err(e) => {
                proof {
                    let outs = (o1, o2, o3, o4, o5, o6);
                    assert(stops_with(m6, outs));
                    let upto = (me.0, me.1, me.2, me.3, me.4, me.5, me.6);
                    assert(upto.parses(x0, *input, Err(e)));
                }
                return Err(e);
            },
        };
        let ghost m7 = *input;
        proof {
            assert(stops_at(m6));
            let upto = (me.0, me.1, me.2, me.3, me.4, me.5, me.6);
            let outs = (o1, o2, o3, o4, o5, o6, o7);
            assert(upto.parses(x0, m7, Ok(outs)));
        }
        let o8 = match self.7.parse_next(input) {
            Ok(o) => o,
            Err(e) => {
                proof {
                    let outs = (o1, o2, o3, o4, o5, o6, o7);
                    assert(stops_with(m7, outs));
                    let upto = (me.0, me.1, me.2, me.3, me.4, me.5, me.6, me.7);
                    assert(upto.parses(x0, *input, Err(e)));
                }
                return Err(e);
            },
        };
        let ghost m8 = *input;
        proof {
            assert(stops_at(m7));
            let upto = (me.0, me.1, me.2, me.3, me.4, me.5, me.6, me.7);
            let outs = (o1, o2, o3, o4, o5, o6, o7, o8);
            assert(upto.parses(x0, m8, Ok(outs)));
        }
        let o9 = match self.8.parse_next(input) {
            Ok(o) => o,
            Err(e) => {
                proof {
                    let outs = (o1, o2, o3, o4, o5, o6, o7, o8);
                    assert(stops_with(m8, outs));
                }
                return Err(e);
            },
        };
        let ghost m9 = *input;
        proof {
            assert(stops_at(m8));
            let upto = (me.0, me.1, me.2, me.3, me.4, me.5, me.6, me.7, me.8);
            let outs = (o1, o2, o3, o4, o5, o6, o7, o8, o9);
            assert(upto.parses(x0, m9, Ok(outs)));
        }
        Ok((o1, o2, o3, o4, o5, o6, o7, o8, o9))
    }
}

impl<I, O1, O2, O3, O4, O5, O6, O7, O8, O9, O10, E, A1, A2, A3, A4, A5, A6, A7, A8, A9, A10> Parser<
    I,
    (O1, O2, O3, O4, O5, O6, O7, O8, O9, O10),
    E,
> for
    (A1, A2, A3, A4, A5, A6, A7, A8, A9, A10) where
    A1: Parser<I, O1, E>,
    A2: Parser<I, O2, E>,
    A3: Parser<I, O3, E>,
    A4: Parser<I, O4, E>,
    A5: Parser<I, O5, E>,
    A6: Parser<I, O6, E>,
    A7: Parser<I, O7, E>,
    A8: Parser<I, O8, E>,
    A9: Parser<I, O9, E>,
    A10: Parser<I, O10, E>,
 {
    open spec fn wf(&self) -> bool {
        &&& self.0.wf()
        &&& self.1.wf()
        &&& self.2.wf()
        &&& self.3.wf()
        &&& self.4.wf()
        &&& self.5.wf()
        &&& self.6.wf()
        &&& self.7.wf()
        &&& self.8.wf()
        &&& self.9.wf()
    }

    open spec fn parses(
        &self,
        before: I,
        after: I,
        r: PResult<
            (O1, O2, O3, O4, O5, O6, O7, O8, O9, O10),
            E,
        >,
    ) -> bool {
        let head = (self.0, self.1, self.2, self.3, self.4, self.5, self.6, self.7, self.8);
        match r {
            Ok(o) => {
                let outs = (o.0, o.1, o.2, o.3, o.4, o.5, o.6, o.7, o.8);
                exists|mid: I| #[trigger]
                    stops_at(mid) && head.parses(before, mid, Ok(outs)) && self.9.parses(
                        mid,
                        after,
                        Ok(o.9),
                    )
            },
            Err(e) => head.parses(before, after, Err(e)) || exists|
                mid: I,
                o: (O1, O2, O3, O4, O5, O6, O7, O8, O9),
            | #[trigger]
                stops_with(mid, o) && head.parses(before, mid, Ok(o)) && self.9.parses(
                    mid,
                    after,
                    Err(e),
                ),
        }
    }

    fn parse_next(&mut self, input: &mut I) -> (r: PResult<
        (O1, O2, O3, O4, O5, O6, O7, O8, O9, O10),
        E,
    >) {
        let ghost me = *self;
        let ghost x0 = *input;
        let o1 = match self.0.parse_next(input) {
            Ok(o) => o,
            Err(e) => {
                return Err(e);
            },
        };
        let ghost m1 = *input;
        let o2 = match self.1.parse_next(input) {
            Ok(o) => o,
            Err(e) => {
                proof {
                    let outs = (o1,);
                    assert(stops_with(m1, outs));
                    let upto = (me.0, me.1);
                    assert(upto.parses(x0, *input, Err(e)));
                }
                return Err(e);
            },
        };
        let ghost m2 = *input;
        proof {
            assert(stops_at(m1));
            let upto = (me.0, me.1);
            let outs = (o1, o2);
            assert(upto.parses(x0, m2, Ok(outs)));
        }
        let o3 = match self.2.parse_next(input) {
            Ok(o) => o,
            Err(e) => {
                proof {
                    let outs = (o1, o2);
                    assert(stops_with(m2, outs));
                    let upto = (me.0, me.1, me.2);
                    assert(upto.parses(x0, *input, Err(e)));
                }
                return Err(e);
            },
        };
        let ghost m3 = *input;
        proof {
            assert(stops_at(m2));
            let upto = (me.0, me.1, me.2);
            let outs = (o1, o2, o3);
            assert(upto.parses(x0, m3, Ok(outs)));
        }
        let o4 = match self.3.parse_next(input) {
            Ok(o) => o,
            Err(e) => {
                proof {
                    let outs = (o1, o2, o3);
                    assert(stops_with(m3, outs));
                    let upto = (me.0, me.1, me.2, me.3);
                    assert(upto.parses(x0, *input, Err(e)));
                }
                return Err(e);
            },
        };
        let ghost m4 = *input;
        proof {
            assert(stops_at(m3));
            let upto = (me.0, me.1, me.2, me.3);
            let outs = (o1, o2, o3, o4);
            assert(upto.parses(x0, m4, Ok(outs)));
        }
        let o5 = match self.4.parse_next(input) {
            Ok(o) => o,
            Err(e) => {
                proof {
                    let outs = (o1, o2, o3, o4);
                    assert(stops_with(m4, outs));
                    let upto = (me.0, me.1, me.2, me.3, me.4);
                    assert(upto.parses(x0, *input, Err(e)));
                }
                return Err(e);
            },
        };
        let ghost m5 = *input;
        proof {
            assert(stops_at(m4));
            let upto = (me.0, me.1, me.2, me.3, me.4);
            let outs = (o1, o2, o3, o4, o5);
            assert(upto.parses(x0, m5, Ok(outs)));
        }
        let o6 = match self.5.parse_next(input) {
            Ok(o) => o,
            Err(e) => {
                proof {
                    let outs = (o1, o2, o3, o4, o5);
                    assert(stops_with(m5, outs));
                    let upto = (me.0, me.1, me.2, me.3, me.4, me.5);
                    assert(upto.parses(x0, *input, Err(e)));
                }
                return Err(e);
            },
        };
        let ghost m6 = *input;
        proof {
            assert(stops_at(m5));
            let upto = (me.0, me.1, me.2, me.3, me.4, me.5);
            let outs = (o1, o2, o3, o4, o5, o6);
            assert(upto.parses(x0, m6, Ok(outs)));
        }
        let o7 = match self.6.parse_next(input) {
            Ok(o) => o,
            Err(e) => {
                proof {
                    let outs = (o1, o2, o3, o4, o5, o6);
                    assert(stops_with(m6, outs));
                    let upto = (me.0, me.1, me.2, me.3, me.4, me.5, me.6);
                    assert(upto.parses(x0, *input, Err(e)));
                }
                return Err(e);
            },
        };
        let ghost m7 = *input;
        proof {
            assert(stops_at(m6));
            let upto = (me.0, me.1, me.2, me.3, me.4, me.5, me.6);
            let outs = (o1, o2, o3, o4, o5, o6, o7);
            assert(upto.parses(x0, m7, Ok(outs)));
        }
        let o8 = match self.7.parse_next(input) {
            Ok(o) => o,
            Err(e) => {
                proof {
                    let outs = (o1, o2, o3, o4, o5, o6, o7);
                    assert(stops_with(m7, outs));
                    let upto = (me.0, me.1, me.2, me.3, me.4, me.5, me.6, me.7);
                    assert(upto.parses(x0, *input, Err(e)));
                }
                return Err(e);
            },
        };
        let ghost m8 = *input;
        proof {
            assert(stops_at(m7));
            let upto = (me.0, me.1, me.2, me.3, me.4, me.5, me.6, me.7);
            let outs = (o1, o2, o3, o4, o5, o6, o7, o8);
            assert(upto.parses(x0, m8, Ok(outs)));
        }
        let o9 = match self.8.parse_next(input) {
            Ok(o) => o,
            Err(e) => {
                proof {
                    let outs = (o1, o2, o3, o4, o5, o6, o7, o8);
                    assert(stops_with(m8, outs));
                    let upto = (me.0, me.1, me.2, me.3, me.4, me.5, me.6, me.7, me.8);
                    assert(upto.parses(x0, *input, Err(e)));
                }
                return Err(e);
            },
        };
        let ghost m9 = *input;
        proof {
            assert(stops_at(m8));
            let upto = (me.0, me.1, me.2, me.3, me.4, me.5, me.6, me.7, me.8);
            let outs = (o1, o2, o3, o4, o5, o6, o7, o8, o9);
            assert(upto.parses(x0, m9, Ok(outs)));
        }
        let o10 = match self.9.parse_next(input) {
            Ok(o) => o,
            Err(e) => {
                proof {
                    let outs = (o1, o2, o3, o4, o5, o6, o7, o8, o9);
                    assert(stops_with(m9, outs));
                }
                return Err(e);
            },
        };
        let ghost m10 = *input;
        proof {
            assert(stops_at(m9));
            let upto = (me.0, me.1, me.2, me.3, me.4, me.5, me.6, me.7, me.8, me.9);
            let outs = (o1, o2, o3, o4, o5, o6, o7, o8, o9, o10);
            assert(upto.parses(x0, m10, Ok(outs)));
        }
        Ok((o1, o2, o3, o4, o5, o6, o7, o8, o9, o10))
    }
}

impl<
    I, O1, O2, O3, O4, O5, O6, O7, O8, O9, O10, O11, E, A1, A2, A3, A4, A5, A6, A7, A8, A9, A10,
    A11,
> Parser<
    I,
    (O1, O2, O3, O4, O5, O6, O7, O8, O9, O10, O11),
    E,
> for
    (A1, A2, A3, A4, A5, A6, A7, A8, A9, A10, A11) where
    A1: Parser<I, O1, E>,
    A2: Parser<I, O2, E>,
    A3: Parser<I, O3, E>,
    A4: Parser<I, O4, E>,
    A5: Parser<I, O5, E>,
    A6: Parser<I, O6, E>,
    A7: Parser<I, O7, E>,
    A8: Parser<I, O8, E>,
    A9: Parser<I, O9, E>,
    A10: Parser<I, O10, E>,
    A11: Parser<I, O11, E>,
 {
    open spec fn wf(&self) -> bool {
        &&& self.0.wf()
        &&& self.1.wf()
        &&& self.2.wf()
        &&& self.3.wf()
        &&& self.4.wf()
        &&& self.5.wf()
        &&& self.6.wf()
        &&& self.7.wf()
        &&& self.8.wf()
        &&& self.9.wf()
        &&& self.10.wf()
    }

    open spec fn parses(
        &self,
        before: I,
        after: I,
        r: PResult<
            (O1, O2, O3, O4, O5, O6, O7, O8, O9, O10, O11),
            E,
        >,
    ) -> bool {
        let head = (self.0, self.1, self.2, self.3, self.4, self.5, self.6, self.7, self.8, self.9);
        match r {
            Ok(o) => {
                let outs = (o.0, o.1, o.2, o.3, o.4, o.5, o.6, o.7, o.8, o.9);
                exists|mid: I| #[trigger]
                    stops_at(mid) && head.parses(before, mid, Ok(outs)) && self.10.parses(
                        mid,
                        after,
                        Ok(o.10),
                    )
            },
            Err(e) => head.parses(before, after, Err(e)) || exists|
                mid: I,
                o: (O1, O2, O3, O4, O5, O6, O7, O8, O9, O10),
            | #[trigger]
                stops_with(mid, o) && head.parses(before, mid, Ok(o)) && self.10.parses(
                    mid,
                    after,
                    Err(e),
                ),
        }
    }

    fn parse_next(&mut self, input: &mut I) -> (r: PResult<
        (O1, O2, O3, O4, O5, O6, O7, O8, O9, O10, O11),
        E,
    >) {
        let ghost me = *self;
        let ghost x0 = *input;
        let o1 = match self.0.parse_next(input) {
            Ok(o) => o,
            Err(e) => {
                return Err(e);
            },
        };
        let ghost m1 = *input;
        let o2 = match self.1.parse_next(input) {
            Ok(o) => o,
            Err(e) => {
                proof {
                    let outs = (o1,);
                    assert(stops_with(m1, outs));
                    let upto = (me.0, me.1);
                    assert(upto.parses(x0, *input, Err(e)));
                }
                return Err(e);
            },
        };
        let ghost m2 = *input;
        proof {
            assert(stops_at(m1));
            let upto = (me.0, me.1);
            let outs = (o1, o2);
            assert(upto.parses(x0, m2, Ok(outs)));
        }
        let o3 = match self.2.parse_next(input) {
            Ok(o) => o,
            Err(e) => {
                proof {
                    let outs = (o1, o2);
                    assert(stops_with(m2, outs));
                    let upto = (me.0, me.1, me.2);
                    assert(upto.parses(x0, *input, Err(e)));
                }
                return Err(e);
            },
        };
        let ghost m3 = *input;
        proof {
            assert(stops_at(m2));
            let upto = (me.0, me.1, me.2);
            let outs = (o1, o2, o3);
            assert(upto.parses(x0, m3, Ok(outs)));
        }
        let o4 = match self.3.parse_next(input) {
            Ok(o) => o,
            Err(e) => {
                proof {
                    let outs = (o1, o2, o3);
                    assert(stops_with(m3, outs));
                    let upto = (me.0, me.1, me.2, me.3);
                    assert(upto.parses(x0, *input, Err(e)));
                }
                return Err(e);
            },
        };
        let ghost m4 = *input;
        proof {
            assert(stops_at(m3));
            let upto = (me.0, me.1, me.2, me.3);
            let outs = (o1, o2, o3, o4);
            assert(upto.parses(x0, m4, Ok(outs)));
        }
        let o5 = match self.4.parse_next(input) {
            Ok(o) => o,
            Err(e) => {
                proof {
                    let outs = (o1, o2, o3, o4);
                    assert(stops_with(m4, outs));
                    let upto = (me.0, me.1, me.2, me.3, me.4);
                    assert(upto.parses(x0, *input, Err(e)));
                }
                return Err(e);
            },
        };
        let ghost m5 = *input;
        proof {
            assert(stops_at(m4));
            let upto = (me.0, me.1, me.2, me.3, me.4);
            let outs = (o1, o2, o3, o4, o5);
            assert(upto.parses(x0, m5, Ok(outs)));
        }
        let o6 = match self.5.parse_next(input) {
            Ok(o) => o,
            Err(e) => {
                proof {
                    let outs = (o1, o2, o3, o4, o5);
                    assert(stops_with(m5, outs));
                    let upto = (me.0, me.1, me.2, me.3, me.4, me.5);
                    assert(upto.parses(x0, *input, Err(e)));
                }
                return Err(e);
            },
        };
        let ghost m6 = *input;
        proof {
            assert(stops_at(m5));
            let upto = (me.0, me.1, me.2, me.3, me.4, me.5);
            let outs = (o1, o2, o3, o4, o5, o6);
            assert(upto.parses(x0, m6, Ok(outs)));
        }
        let o7 = match self.6.parse_next(input) {
            Ok(o) => o,
            Err(e) => {
                proof {
                    let outs = (o1, o2, o3, o4, o5, o6);
                    assert(stops_with(m6, outs));
                    let upto = (me.0, me.1, me.2, me.3, me.4, me.5, me.6);
                    assert(upto.parses(x0, *input, Err(e)));
                }
                return Err(e);
            },
        };
        let ghost m7 = *input;
        proof {
            assert(stops_at(m6));
            let upto = (me.0, me.1, me.2, me.3, me.4, me.5, me.6);
            let outs = (o1, o2, o3, o4, o5, o6, o7);
            assert(upto.parses(x0, m7, Ok(outs)));
        }
        let o8 = match self.7.parse_next(input) {
            Ok(o) => o,
            Err(e) => {
                proof {
                    let outs = (o1, o2, o3, o4, o5, o6, o7);
                    assert(stops_with(m7, outs));
                    let upto = (me.0, me.1, me.2, me.3, me.4, me.5, me.6, me.7);
                    assert(upto.parses(x0, *input, Err(e)));
                }
                return Err(e);
            },
        };
        let ghost m8 = *input;
        proof {
            assert(stops_at(m7));
            let upto = (me.0, me.1, me.2, me.3, me.4, me.5, me.6, me.7);
            let outs = (o1, o2, o3, o4, o5, o6, o7, o8);
            assert(upto.parses(x0, m8, Ok(outs)));
        }
        let o9 = match self.8.parse_next(input) {
            Ok(o) => o,
            Err(e) => {
                proof {
                    let outs = (o1, o2, o3, o4, o5, o6, o7, o8);
                    assert(stops_with(m8, outs));
                    let upto = (me.0, me.1, me.2, me.3, me.4, me.5, me.6, me.7, me.8);
                    assert(upto.parses(x0, *input, Err(e)));
                }
                return Err(e);
            },
        };
        let ghost m9 = *input;
        proof {
            assert(stops_at(m8));
            let upto = (me.0, me.1, me.2, me.3, me.4, me.5, me.6, me.7, me.8);
            let outs = (o1, o2, o3, o4, o5, o6, o7, o8, o9);
            assert(upto.parses(x0, m9, Ok(outs)));
        }
        let o10 = match self.9.parse_next(input) {
            Ok(o) => o,
            Err(e) => {
                proof {
                    let outs = (o1, o2, o3, o4, o5, o6, o7, o8, o9);
                    assert(stops_with(m9, outs));
                    let upto = (me.0, me.1, me.2, me.3, me.4, me.5, me.6, me.7, me.8, me.9);
                    assert(upto.parses(x0, *input, Err(e)));
                }
                return Err(e);
            },
        };
        let ghost m10 = *input;
        proof {
            assert(stops_at(m9));
            let upto = (me.0, me.1, me.2, me.3, me.4, me.5, me.6, me.7, me.8, me.9);
            let outs = (o1, o2, o3, o4, o5, o6, o7, o8, o9, o10);
            assert(upto.parses(x0, m10, Ok(outs)));
        }
        let o11 = match self.10.parse_next(input) {
            Ok(o) => o,
            Err(e) => {
                proof {
                    let outs = (o1, o2, o3, o4, o5, o6, o7, o8, o9, o10);
                    assert(stops_with(m10, outs));
                }
                return Err(e);
            },
        };
        let ghost m11 = *input;
        proof {
            assert(stops_at(m10));
            let upto = (me.0, me.1, me.2, me.3, me.4, me.5, me.6, me.7, me.8, me.9, me.10);
            let outs = (o1, o2, o3, o4, o5, o6, o7, o8, o9, o10, o11);
            assert(upto.parses(x0, m11, Ok(outs)));
        }
        Ok((o1, o2, o3, o4, o5, o6, o7, o8, o9, o10, o11))
    }
}

impl<
    I, O1, O2, O3, O4, O5, O6, O7, O8, O9, O10, O11, O12, E, A1, A2, A3, A4, A5, A6, A7, A8, A9,
    A10, A11, A12,
> Parser<
    I,
    (O1, O2, O3, O4, O5, O6, O7, O8, O9, O10, O11, O12),
    E,
> for
    (A1, A2, A3, A4, A5, A6, A7, A8, A9, A10, A11, A12) where
    A1: Parser<I, O1, E>,
    A2: Parser<I, O2, E>,
    A3: Parser<I, O3, E>,
    A4: Parser<I, O4, E>,
    A5: Parser<I, O5, E>,
    A6: Parser<I, O6, E>,
    A7: Parser<I, O7, E>,
    A8: Parser<I, O8, E>,
    A9: Parser<I, O9, E>,
    A10: Parser<I, O10, E>,
    A11: Parser<I, O11, E>,
    A12: Parser<I, O12, E>,
 {
    open spec fn wf(&self) -> bool {
        &&& self.0.wf()
        &&& self.1.wf()
        &&& self.2.wf()
        &&& self.3.wf()
        &&& self.4.wf()
        &&& self.5.wf()
        &&& self.6.wf()
        &&& self.7.wf()
        &&& self.8.wf()
        &&& self.9.wf()
        &&& self.10.wf()
        &&& self.11.wf()
    }

    open spec fn parses(
        &self,
        before: I,
        after: I,
        r: PResult<
            (O1, O2, O3, O4, O5, O6, O7, O8, O9, O10, O11, O12),
            E,
        >,
    ) -> bool {
        let head = (
            self.0, self.1, self.2, self.3, self.4, self.5, self.6, self.7, self.8, self.9, self.10,
        );
        match r {
            Ok(o) => {
                let outs = (o.0, o.1, o.2, o.3, o.4, o.5, o.6, o.7, o.8, o.9, o.10);
                exists|mid: I| #[trigger]
                    stops_at(mid) && head.parses(before, mid, Ok(outs)) && self.11.parses(
                        mid,
                        after,
                        Ok(o.11),
                    )
            },
            Err(e) => head.parses(before, after, Err(e)) || exists|
                mid: I,
                o: (O1, O2, O3, O4, O5, O6, O7, O8, O9, O10, O11),
            | #[trigger]
                stops_with(mid, o) && head.parses(before, mid, Ok(o)) && self.11.parses(
                    mid,
                    after,
                    Err(e),
                ),
        }
    }

    fn parse_next(&mut self, input: &mut I) -> (r: PResult<
        (O1, O2, O3, O4, O5, O6, O7, O8, O9, O10, O11, O12),
        E,
    >) {
        let ghost me = *self;
        let ghost x0 = *input;
        let o1 = match self.0.parse_next(input) {
            Ok(o) => o,
            Err(e) => {
                return Err(e);
            },
        };
        let ghost m1 = *input;
        let o2 = match self.1.parse_next(input) {
            Ok(o) => o,
            Err(e) => {
                proof {
                    let outs = (o1,);
                    assert(stops_with(m1, outs));
                    let upto = (me.0, me.1);
                    assert(upto.parses(x0, *input, Err(e)));
                }
                return Err(e);
            },
        };
        let ghost m2 = *input;
        proof {
            assert(stops_at(m1));
            let upto = (me.0, me.1);
            let outs = (o1, o2);
            assert(upto.parses(x0, m2, Ok(outs)));
        }
        let o3 = match self.2.parse_next(input) {
            Ok(o) => o,
            Err(e) => {
                proof {
                    let outs = (o1, o2);
                    assert(stops_with(m2, outs));
                    let upto = (me.0, me.1, me.2);
                    assert(upto.parses(x0, *input, Err(e)));
                }
                return Err(e);
            },
        };
        let ghost m3 = *input;
        proof {
            assert(stops_at(m2));
            let upto = (me.0, me.1, me.2);
            let outs = (o1, o2, o3);
            assert(upto.parses(x0, m3, Ok(outs)));
        }
        let o4 = match self.3.parse_next(input) {
            Ok(o) => o,
            Err(e) => {
                proof {
                    let outs = (o1, o2, o3);
                    assert(stops_with(m3, outs));
                    let upto = (me.0, me.1, me.2, me.3);
                    assert(upto.parses(x0, *input, Err(e)));
                }
                return Err(e);
            },
        };
        let ghost m4 = *input;
        proof {
            assert(stops_at(m3));
            let upto = (me.0, me.1, me.2, me.3);
            let outs = (o1, o2, o3, o4);
            assert(upto.parses(x0, m4, Ok(outs)));
        }
        let o5 = match self.4.parse_next(input) {
            Ok(o) => o,
            Err(e) => {
                proof {
                    let outs = (o1, o2, o3, o4);
                    assert(stops_with(m4, outs));
                    let upto = (me.0, me.1, me.2, me.3, me.4);
                    assert(upto.parses(x0, *input, Err(e)));
                }
                return Err(e);
            },
        };
        let ghost m5 = *input;
        proof {
            assert(stops_at(m4));
            let upto = (me.0, me.1, me.2, me.3, me.4);
            let outs = (o1, o2, o3, o4, o5);
            assert(upto.parses(x0, m5, Ok(outs)));
        }
        let o6 = match self.5.parse_next(input) {
            Ok(o) => o,
            Err(e) => {
                proof {
                    let outs = (o1, o2, o3, o4, o5);
                    assert(stops_with(m5, outs));
                    let upto = (me.0, me.1, me.2, me.3, me.4, me.5);
                    assert(upto.parses(x0, *input, Err(e)));
                }
                return Err(e);
            },
        };
        let ghost m6 = *input;
        proof {
            assert(stops_at(m5));
            let upto = (me.0, me.1, me.2, me.3, me.4, me.5);
            let outs = (o1, o2, o3, o4, o5, o6);
            assert(upto.parses(x0, m6, Ok(outs)));
        }
        let o7 = match self.6.parse_next(input) {
            Ok(o) => o,
            Err(e) => {
                proof {
                    let outs = (o1, o2, o3, o4, o5, o6);
                    assert(stops_with(m6, outs));
                    let upto = (me.0, me.1, me.2, me.3, me.4, me.5, me.6);
                    assert(upto.parses(x0, *input, Err(e)));
                }
                return Err(e);
            },
        };
        let ghost m7 = *input;
        proof {
            assert(stops_at(m6));
            let upto = (me.0, me.1, me.2, me.3, me.4, me.5, me.6);
            let outs = (o1, o2, o3, o4, o5, o6, o7);
            assert(upto.parses(x0, m7, Ok(outs)));
        }
        let o8 = match self.7.parse_next(input) {
            Ok(o) => o,
            Err(e) => {
                proof {
                    let outs = (o1, o2, o3, o4, o5, o6, o7);
                    assert(stops_with(m7, outs));
                    let upto = (me.0, me.1, me.2, me.3, me.4, me.5, me.6, me.7);
                    assert(upto.parses(x0, *input, Err(e)));
                }
                return Err(e);
            },
        };
        let ghost m8 = *input;
        proof {
            assert(stops_at(m7));
            let upto = (me.0, me.1, me.2, me.3, me.4, me.5, me.6, me.7);
            let outs = (o1, o2, o3, o4, o5, o6, o7, o8);
            assert(upto.parses(x0, m8, Ok(outs)));
        }
        let o9 = match self.8.parse_next(input) {
            Ok(o) => o,
            Err(e) => {
                proof {
                    let outs = (o1, o2, o3, o4, o5, o6, o7, o8);
                    assert(stops_with(m8, outs));
                    let upto = (me.0, me.1, me.2, me.3, me.4, me.5, me.6, me.7, me.8);
                    assert(upto.parses(x0, *input, Err(e)));
                }
                return Err(e);
            },
        };
        let ghost m9 = *input;
        proof {
            assert(stops_at(m8));
            let upto = (me.0, me.1, me.2, me.3, me.4, me.5, me.6, me.7, me.8);
            let outs = (o1, o2, o3, o4, o5, o6, o7, o8, o9);
            assert(upto.parses(x0, m9, Ok(outs)));
        }
        let o10 = match self.9.parse_next(input) {
            Ok(o) => o,
            Err(e) => {
                proof {
                    let outs = (o1, o2, o3, o4, o5, o6, o7, o8, o9);
                    assert(stops_with(m9, outs));
                    let upto = (me.0, me.1, me.2, me.3, me.4, me.5, me.6, me.7, me.8, me.9);
                    assert(upto.parses(x0, *input, Err(e)));
                }
                return Err(e);
            },
        };
        let ghost m10 = *input;
        proof {
            assert(stops_at(m9));
            let upto = (me.0, me.1, me.2, me.3, me.4, me.5, me.6, me.7, me.8, me.9);
            let outs = (o1, o2, o3, o4, o5, o6, o7, o8, o9, o10);
            assert(upto.parses(x0, m10, Ok(outs)));
        }
        let o11 = match self.10.parse_next(input) {
            Ok(o) => o,
            Err(e) => {
                proof {
                    let outs = (o1, o2, o3, o4, o5, o6, o7, o8, o9, o10);
                    assert(stops_with(m10, outs));
                    let upto = (me.0, me.1, me.2, me.3, me.4, me.5, me.6, me.7, me.8, me.9, me.10);
                    assert(upto.parses(x0, *input, Err(e)));
                }
                return Err(e);
            },
        };
        let ghost m11 = *input;
        proof {
            assert(stops_at(m10));
            let upto = (me.0, me.1, me.2, me.3, me.4, me.5, me.6, me.7, me.8, me.9, me.10);
            let outs = (o1, o2, o3, o4, o5, o6, o7, o8, o9, o10, o11);
            assert(upto.parses(x0, m11, Ok(outs)));
        }
        let o12 = match self.11.parse_next(input) {
            Ok(o) => o,
            Err(e) => {
                proof {
                    let outs = (o1, o2, o3, o4, o5, o6, o7, o8, o9, o10, o11);
                    assert(stops_with(m11, outs));
                }
                return Err(e);
            },
        };
        let ghost m12 = *input;
        proof {
            assert(stops_at(m11));
            let upto = (me.0, me.1, me.2, me.3, me.4, me.5, me.6, me.7, me.8, me.9, me.10, me.11);
            let outs = (o1, o2, o3, o4, o5, o6, o7, o8, o9, o10, o11, o12);
            assert(upto.parses(x0, m12, Ok(outs)));
        }
        Ok((o1, o2, o3, o4, o5, o6, o7, o8, o9, o10, o11, o12))
    }
}

impl<
    I, O1, O2, O3, O4, O5, O6, O7, O8, O9, O10, O11, O12, O13, E, A1, A2, A3, A4, A5, A6, A7, A8,
    A9, A10, A11, A12, A13,
> Parser<
    I,
    (O1, O2, O3, O4, O5, O6, O7, O8, O9, O10, O11, O12, O13),
    E,
> for
    (A1, A2, A3, A4, A5, A6, A7, A8, A9, A10, A11, A12, A13) where
    A1: Parser<I, O1, E>,
    A2: Parser<I, O2, E>,
    A3: Parser<I, O3, E>,
    A4: Parser<I, O4, E>,
    A5: Parser<I, O5, E>,
    A6: Parser<I, O6, E>,
    A7: Parser<I, O7, E>,
    A8: Parser<I, O8, E>,
    A9: Parser<I, O9, E>,
    A10: Parser<I, O10, E>,
    A11: Parser<I, O11, E>,
    A12: Parser<I, O12, E>,
    A13: Parser<I, O13, E>,
 {
    open spec fn wf(&self) -> bool {
        &&& self.0.wf()
        &&& self.1.wf()
        &&& self.2.wf()
        &&& self.3.wf()
        &&& self.4.wf()
        &&& self.5.wf()
        &&& self.6.wf()
        &&& self.7.wf()
        &&& self.8.wf()
        &&& self.9.wf()
        &&& self.10.wf()
        &&& self.11.wf()
        &&& self.12.wf()
    }

    open spec fn parses(
        &self,
        before: I,
        after: I,
        r: PResult<
            (O1, O2, O3, O4, O5, O6, O7, O8, O9, O10, O11, O12, O13),
            E,
        >,
    ) -> bool {
        let head = (
            self.0, self.1, self.2, self.3, self.4, self.5, self.6, self.7, self.8, self.9, self.10,
            self.11,
        );
        match r {
            Ok(o) => {
                let outs = (o.0, o.1, o.2, o.3, o.4, o.5, o.6, o.7, o.8, o.9, o.10, o.11);
                exists|mid: I| #[trigger]
                    stops_at(mid) && head.parses(before, mid, Ok(outs)) && self.12.parses(
                        mid,
                        after,
                        Ok(o.12),
                    )
            },
            Err(e) => head.parses(before, after, Err(e)) || exists|
                mid: I,
                o: (O1, O2, O3, O4, O5, O6, O7, O8, O9, O10, O11, O12),
            | #[trigger]
                stops_with(mid, o) && head.parses(before, mid, Ok(o)) && self.12.parses(
                    mid,
                    after,
                    Err(e),
                ),
        }
    }

    fn parse_next(&mut self, input: &mut I) -> (r: PResult<
        (O1, O2, O3, O4, O5, O6, O7, O8, O9, O10, O11, O12, O13),
        E,
    >) {
        let ghost me = *self;
        let ghost x0 = *input;
        let o1 = match self.0.parse_next(input) {
            Ok(o) => o,
            Err(e) => {
                return Err(e);
            },
        };
        let ghost m1 = *input;
        let o2 = match self.1.parse_next(input) {
            Ok(o) => o,
            Err(e) => {
                proof {
                    let outs = (o1,);
                    assert(stops_with(m1, outs));
                    let upto = (me.0, me.1);
                    assert(upto.parses(x0, *input, Err(e)));
                }
                return Err(e);
            },
        };
        let ghost m2 = *input;
        proof {
            assert(stops_at(m1));
            let upto = (me.0, me.1);
            let outs = (o1, o2);
            assert(upto.parses(x0, m2, Ok(outs)));
        }
        let o3 = match self.2.parse_next(input) {
            Ok(o) => o,
            Err(e) => {
                proof {
                    let outs = (o1, o2);
                    assert(stops_with(m2, outs));
                    let upto = (me.0, me.1, me.2);
                    assert(upto.parses(x0, *input, Err(e)));
                }
                return Err(e);
            },
        };
        let ghost m3 = *input;
        proof {
            assert(stops_at(m2));
            let upto = (me.0, me.1, me.2);
            let outs = (o1, o2, o3);
            assert(upto.parses(x0, m3, Ok(outs)));
        }
        let o4 = match self.3.parse_next(input) {
            Ok(o) => o,
            Err(e) => {
                proof {
                    let outs = (o1, o2, o3);
                    assert(stops_with(m3, outs));
                    let upto = (me.0, me.1, me.2, me.3);
                    assert(upto.parses(x0, *input, Err(e)));
                }
                return Err(e);
            },
        };
        let ghost m4 = *input;
        proof {
            assert(stops_at(m3));
            let upto = (me.0, me.1, me.2, me.3);
            let outs = (o1, o2, o3, o4);
            assert(upto.parses(x0, m4, Ok(outs)));
        }
        let o5 = match self.4.parse_next(input) {
            Ok(o) => o,
            Err(e) => {
                proof {
                    let outs = (o1, o2, o3, o4);
                    assert(stops_with(m4, outs));
                    let upto = (me.0, me.1, me.2, me.3, me.4);
                    assert(upto.parses(x0, *input, Err(e)));
                }
                return Err(e);
            },
        };
        let ghost m5 = *input;
        proof {
            assert(stops_at(m4));
            let upto = (me.0, me.1, me.2, me.3, me.4);
            let outs = (o1, o2, o3, o4, o5);
            assert(upto.parses(x0, m5, Ok(outs)));
        }
        let o6 = match self.5.parse_next(input) {
            Ok(o) => o,
            Err(e) => {
                proof {
                    let outs = (o1, o2, o3, o4, o5);
                    assert(stops_with(m5, outs));
                    let upto = (me.0, me.1, me.2, me.3, me.4, me.5);
                    assert(upto.parses(x0, *input, Err(e)));
                }
                return Err(e);
            },
        };
        let ghost m6 = *input;
        proof {
            assert(stops_at(m5));
            let upto = (me.0, me.1, me.2, me.3, me.4, me.5);
            let outs = (o1, o2, o3, o4, o5, o6);
            assert(upto.parses(x0, m6, Ok(outs)));
        }
        let o7 = match self.6.parse_next(input) {
            Ok(o) => o,
            Err(e) => {
                proof {
                    let outs = (o1, o2, o3, o4, o5, o6);
                    assert(stops_with(m6, outs));
                    let upto = (me.0, me.1, me.2, me.3, me.4, me.5, me.6);
                    assert(upto.parses(x0, *input, Err(e)));
                }
                return Err(e);
            },
        };
        let ghost m7 = *input;
        proof {
            assert(stops_at(m6));
            let upto = (me.0, me.1, me.2, me.3, me.4, me.5, me.6);
            let outs = (o1, o2, o3, o4, o5, o6, o7);
            assert(upto.parses(x0, m7, Ok(outs)));
        }
        let o8 = match self.7.parse_next(input) {
            Ok(o) => o,
            Err(e) => {
                proof {
                    let outs = (o1, o2, o3, o4, o5, o6, o7);
                    assert(stops_with(m7, outs));
                    let upto = (me.0, me.1, me.2, me.3, me.4, me.5, me.6, me.7);
                    assert(upto.parses(x0, *input, Err(e)));
                }
                return Err(e);
            },
        };
        let ghost m8 = *input;
        proof {
            assert(stops_at(m7));
            let upto = (me.0, me.1, me.2, me.3, me.4, me.5, me.6, me.7);
            let outs = (o1, o2, o3, o4, o5, o6, o7, o8);
            assert(upto.parses(x0, m8, Ok(outs)));
        }
        let o9 = match self.8.parse_next(input) {
            Ok(o) => o,
            Err(e) => {
                proof {
                    let outs = (o1, o2, o3, o4, o5, o6, o7, o8);
                    assert(stops_with(m8, outs));
                    let upto = (me.0, me.1, me.2, me.3, me.4, me.5, me.6, me.7, me.8);
                    assert(upto.parses(x0, *input, Err(e)));
                }
                return Err(e);
            },
        };
        let ghost m9 = *input;
        proof {
            assert(stops_at(m8));
            let upto = (me.0, me.1, me.2, me.3, me.4, me.5, me.6, me.7, me.8);
            let outs = (o1, o2, o3, o4, o5, o6, o7, o8, o9);
            assert(upto.parses(x0, m9, Ok(outs)));
        }
        let o10 = match self.9.parse_next(input) {
            Ok(o) => o,
            Err(e) => {
                proof {
                    let outs = (o1, o2, o3, o4, o5, o6, o7, o8, o9);
                    assert(stops_with(m9, outs));
                    let upto = (me.0, me.1, me.2, me.3, me.4, me.5, me.6, me.7, me.8, me.9);
                    assert(upto.parses(x0, *input, Err(e)));
                }
                return Err(e);
            },
        };
        let ghost m10 = *input;
        proof {
            assert(stops_at(m9));
            let upto = (me.0, me.1, me.2, me.3, me.4, me.5, me.6, me.7, me.8, me.9);
            let outs = (o1, o2, o3, o4, o5, o6, o7, o8, o9, o10);
            assert(upto.parses(x0, m10, Ok(outs)));
        }
        let o11 = match self.10.parse_next(input) {
            Ok(o) => o,
            Err(e) => {
                proof {
                    let outs = (o1, o2, o3, o4, o5, o6, o7, o8, o9, o10);
                    assert(stops_with(m10, outs));
                    let upto = (me.0, me.1, me.2, me.3, me.4, me.5, me.6, me.7, me.8, me.9, me.10);
                    assert(upto.parses(x0, *input, Err(e)));
                }
                return Err(e);
            },
        };
        let ghost m11 = *input;
        proof {
            assert(stops_at(m10));
            let upto = (me.0, me.1, me.2, me.3, me.4, me.5, me.6, me.7, me.8, me.9, me.10);
            let outs = (o1, o2, o3, o4, o5, o6, o7, o8, o9, o10, o11);
            assert(upto.parses(x0, m11, Ok(outs)));
        }
        let o12 = match self.11.parse_next(input) {
            Ok(o) => o,
            Err(e) => {
                proof {
                    let outs = (o1, o2, o3, o4, o5, o6, o7, o8, o9, o10, o11);
                    assert(stops_with(m11, outs));
                    let upto = (
                        me.0, me.1, me.2, me.3, me.4, me.5, me.6, me.7, me.8, me.9, me.10, me.11,
                    );
                    assert(upto.parses(x0, *input, Err(e)));
                }
                return Err(e);
            },
        };
        let ghost m12 = *input;
        proof {
            assert(stops_at(m11));
            let upto = (me.0, me.1, me.2, me.3, me.4, me.5, me.6, me.7, me.8, me.9, me.10, me.11);
            let outs = (o1, o2, o3, o4, o5, o6, o7, o8, o9, o10, o11, o12);
            assert(upto.parses(x0, m12, Ok(outs)));
        }
        let o13 = match self.12.parse_next(input) {
            Ok(o) => o,
            Err(e) => {
                proof {
                    let outs = (o1, o2, o3, o4, o5, o6, o7, o8, o9, o10, o11, o12);
                    assert(stops_with(m12, outs));
                }
                return Err(e);
            },
        };
        let ghost m13 = *input;
        proof {
            assert(stops_at(m12));
            let upto = (
                me.0, me.1, me.2, me.3, me.4, me.5, me.6, me.7, me.8, me.9, me.10, me.11, me.12,
            );
            let outs = (o1, o2, o3, o4, o5, o6, o7, o8, o9, o10, o11, o12, o13);
            assert(upto.parses(x0, m13, Ok(outs)));
        }
        Ok((o1, o2, o3, o4, o5, o6, o7, o8, o9, o10, o11, o12, o13))
    }
}

impl<
    I, O1, O2, O3, O4, O5, O6, O7, O8, O9, O10, O11, O12, O13, O14, E, A1, A2, A3, A4, A5, A6, A7,
    A8, A9, A10, A11, A12, A13, A14,
> Parser<
    I,
    (O1, O2, O3, O4, O5, O6, O7, O8, O9, O10, O11, O12, O13, O14),
    E,
> for
    (A1, A2, A3, A4, A5, A6, A7, A8, A9, A10, A11, A12, A13, A14) where
    A1: Parser<I, O1, E>,
    A2: Parser<I, O2, E>,
    A3: Parser<I, O3, E>,
    A4: Parser<I, O4, E>,
    A5: Parser<I, O5, E>,
    A6: Parser<I, O6, E>,
    A7: Parser<I, O7, E>,
    A8: Parser<I, O8, E>,
    A9: Parser<I, O9, E>,
    A10: Parser<I, O10, E>,
    A11: Parser<I, O11, E>,
    A12: Parser<I, O12, E>,
    A13: Parser<I, O13, E>,
    A14: Parser<I, O14, E>,
 {
    open spec fn wf(&self) -> bool {
        &&& self.0.wf()
        &&& self.1.wf()
        &&& self.2.wf()
        &&& self.3.wf()
        &&& self.4.wf()
        &&& self.5.wf()
        &&& self.6.wf()
        &&& self.7.wf()
        &&& self.8.wf()
        &&& self.9.wf()
        &&& self.10.wf()
        &&& self.11.wf()
        &&& self.12.wf()
        &&& self.13.wf()
    }

    open spec fn parses(
        &self,
        before: I,
        after: I,
        r: PResult<
            (O1, O2, O3, O4, O5, O6, O7, O8, O9, O10, O11, O12, O13, O14),
            E,
        >,
    ) -> bool {
        let head = (
            self.0, self.1, self.2, self.3, self.4, self.5, self.6, self.7, self.8, self.9, self.10,
            self.11, self.12,
        );
        match r {
            Ok(o) => {
                let outs = (o.0, o.1, o.2, o.3, o.4, o.5, o.6, o.7, o.8, o.9, o.10, o.11, o.12);
                exists|mid: I| #[trigger]
                    stops_at(mid) && head.parses(before, mid, Ok(outs)) && self.13.parses(
                        mid,
                        after,
                        Ok(o.13),
                    )
            },
            Err(e) => head.parses(before, after, Err(e)) || exists|
                mid: I,
                o: (O1, O2, O3, O4, O5, O6, O7, O8, O9, O10, O11, O12, O13),
            | #[trigger]
                stops_with(mid, o) && head.parses(before, mid, Ok(o)) && self.13.parses(
                    mid,
                    after,
                    Err(e),
                ),
        }
    }

    fn parse_next(&mut self, input: &mut I) -> (r: PResult<
        (O1, O2, O3, O4, O5, O6, O7, O8, O9, O10, O11, O12, O13, O14),
        E,
    >) {
        let ghost me = *self;
        let ghost x0 = *input;
        let o1 = match self.0.parse_next(input) {
            Ok(o) => o,
            Err(e) => {
                return Err(e);
            },
        };
        let ghost m1 = *input;
        let o2 = match self.1.parse_next(input) {
            Ok(o) => o,
            Err(e) => {
                proof {
                    let outs = (o1,);
                    assert(stops_with(m1, outs));
                    let upto = (me.0, me.1);
                    assert(upto.parses(x0, *input, Err(e)));
                }
                return Err(e);
            },
        };
        let ghost m2 = *input;
        proof {
            assert(stops_at(m1));
            let upto = (me.0, me.1);
            let outs = (o1, o2);
            assert(upto.parses(x0, m2, Ok(outs)));
        }
        let o3 = match self.2.parse_next(input) {
            Ok(o) => o,
            Err(e) => {
                proof {
                    let outs = (o1, o2);
                    assert(stops_with(m2, outs));
                    let upto = (me.0, me.1, me.2);
                    assert(upto.parses(x0, *input, Err(e)));
                }
                return Err(e);
            },
        };
        let ghost m3 = *input;
        proof {
            assert(stops_at(m2));
            let upto = (me.0, me.1, me.2);
            let outs = (o1, o2, o3);
            assert(upto.parses(x0, m3, Ok(outs)));
        }
        let o4 = match self.3.parse_next(input) {
            Ok(o) => o,
            Err(e) => {
                proof {
                    let outs = (o1, o2, o3);
                    assert(stops_with(m3, outs));
                    let upto = (me.0, me.1, me.2, me.3);
                    assert(upto.parses(x0, *input, Err(e)));
                }
                return Err(e);
            },
        };
        let ghost m4 = *input;
        proof {
            assert(stops_at(m3));
            let upto = (me.0, me.1, me.2, me.3);
            let outs = (o1, o2, o3, o4);
            assert(upto.parses(x0, m4, Ok(outs)));
        }
        let o5 = match self.4.parse_next(input) {
            Ok(o) => o,
            Err(e) => {
                proof {
                    let outs = (o1, o2, o3, o4);
                    assert(stops_with(m4, outs));
                    let upto = (me.0, me.1, me.2, me.3, me.4);
                    assert(upto.parses(x0, *input, Err(e)));
                }
                return Err(e);
            },
        };
        let ghost m5 = *input;
        proof {
            assert(stops_at(m4));
            let upto = (me.0, me.1, me.2, me.3, me.4);
            let outs = (o1, o2, o3, o4, o5);
            assert(upto.parses(x0, m5, Ok(outs)));
        }
        let o6 = match self.5.parse_next(input) {
            Ok(o) => o,
            Err(e) => {
                proof {
                    let outs = (o1, o2, o3, o4, o5);
                    assert(stops_with(m5, outs));
                    let upto = (me.0, me.1, me.2, me.3, me.4, me.5);
                    assert(upto.parses(x0, *input, Err(e)));
                }
                return Err(e);
            },
        };
        let ghost m6 = *input;
        proof {
            assert(stops_at(m5));
            let upto = (me.0, me.1, me.2, me.3, me.4, me.5);
            let outs = (o1, o2, o3, o4, o5, o6);
            assert(upto.parses(x0, m6, Ok(outs)));
        }
        let o7 = match self.6.parse_next(input) {
            Ok(o) => o,
            Err(e) => {
                proof {
                    let outs = (o1, o2, o3, o4, o5, o6);
                    assert(stops_with(m6, outs));
                    let upto = (me.0, me.1, me.2, me.3, me.4, me.5, me.6);
                    assert(upto.parses(x0, *input, Err(e)));
                }
                return Err(e);
            },
        };
        let ghost m7 = *input;
        proof {
            assert(stops_at(m6));
            let upto = (me.0, me.1, me.2, me.3, me.4, me.5, me.6);
            let outs = (o1, o2, o3, o4, o5, o6, o7);
            assert(upto.parses(x0, m7, Ok(outs)));
        }
        let o8 = match self.7.parse_next(input) {
            Ok(o) => o,
            Err(e) => {
                proof {
                    let outs = (o1, o2, o3, o4, o5, o6, o7);
                    assert(stops_with(m7, outs));
                    let upto = (me.0, me.1, me.2, me.3, me.4, me.5, me.6, me.7);
                    assert(upto.parses(x0, *input, Err(e)));
                }
                return Err(e);
            },
        };
        let ghost m8 = *input;
        proof {
            assert(stops_at(m7));
            let upto = (me.0, me.1, me.2, me.3, me.4, me.5, me.6, me.7);
            let outs = (o1, o2, o3, o4, o5, o6, o7, o8);
            assert(upto.parses(x0, m8, Ok(outs)));
        }
        let o9 = match self.8.parse_next(input) {
            Ok(o) => o,
            Err(e) => {
                proof {
                    let outs = (o1, o2, o3, o4, o5, o6, o7, o8);
                    assert(stops_with(m8, outs));
                    let upto = (me.0, me.1, me.2, me.3, me.4, me.5, me.6, me.7, me.8);
                    assert(upto.parses(x0, *input, Err(e)));
                }
                return Err(e);
            },
        };
        let ghost m9 = *input;
        proof {
            assert(stops_at(m8));
            let upto = (me.0, me.1, me.2, me.3, me.4, me.5, me.6, me.7, me.8);
            let outs = (o1, o2, o3, o4, o5, o6, o7, o8, o9);
            assert(upto.parses(x0, m9, Ok(outs)));
        }
        let o10 = match self.9.parse_next(input) {
            Ok(o) => o,
            Err(e) => {
                proof {
                    let outs = (o1, o2, o3, o4, o5, o6, o7, o8, o9);
                    assert(stops_with(m9, outs));
                    let upto = (me.0, me.1, me.2, me.3, me.4, me.5, me.6, me.7, me.8, me.9);
                    assert(upto.parses(x0, *input, Err(e)));
                }
                return Err(e);
            },
        };
        let ghost m10 = *input;
        proof {
            assert(stops_at(m9));
            let upto = (me.0, me.1, me.2, me.3, me.4, me.5, me.6, me.7, me.8, me.9);
            let outs = (o1, o2, o3, o4, o5, o6, o7, o8, o9, o10);
            assert(upto.parses(x0, m10, Ok(outs)));
        }
        let o11 = match self.10.parse_next(input) {
            Ok(o) => o,
            Err(e) => {
                proof {
                    let outs = (o1, o2, o3, o4, o5, o6, o7, o8, o9, o10);
                    assert(stops_with(m10, outs));
                    let upto = (me.0, me.1, me.2, me.3, me.4, me.5, me.6, me.7, me.8, me.9, me.10);
                    assert(upto.parses(x0, *input, Err(e)));
                }
                return Err(e);
            },
        };
        let ghost m11 = *input;
        proof {
            assert(stops_at(m10));
            let upto = (me.0, me.1, me.2, me.3, me.4, me.5, me.6, me.7, me.8, me.9, me.10);
            let outs = (o1, o2, o3, o4, o5, o6, o7, o8, o9, o10, o11);
            assert(upto.parses(x0, m11, Ok(outs)));
        }
        let o12 = match self.11.parse_next(input) {
            Ok(o) => o,
            Err(e) => {
                proof {
                    let outs = (o1, o2, o3, o4, o5, o6, o7, o8, o9, o10, o11);
                    assert(stops_with(m11, outs));
                    let upto = (
                        me.0, me.1, me.2, me.3, me.4, me.5, me.6, me.7, me.8, me.9, me.10, me.11,
                    );
                    assert(upto.parses(x0, *input, Err(e)));
                }
                return Err(e);
            },
        };
        let ghost m12 = *input;
        proof {
            assert(stops_at(m11));
            let upto = (me.0, me.1, me.2, me.3, me.4, me.5, me.6, me.7, me.8, me.9, me.10, me.11);
            let outs = (o1, o2, o3, o4, o5, o6, o7, o8, o9, o10, o11, o12);
            assert(upto.parses(x0, m12, Ok(outs)));
        }
        let o13 = match self.12.parse_next(input) {
            Ok(o) => o,
            Err(e) => {
                proof {
                    let outs = (o1, o2, o3, o4, o5, o6, o7, o8, o9, o10, o11, o12);
                    assert(stops_with(m12, outs));
                    let upto = (
                        me.0, me.1, me.2, me.3, me.4, me.5, me.6, me.7, me.8, me.9, me.10, me.11,
                        me.12,
                    );
                    assert(upto.parses(x0, *input, Err(e)));
                }
                return Err(e);
            },
        };
        let ghost m13 = *input;
        proof {
            assert(stops_at(m12));
            let upto = (
                me.0, me.1, me.2, me.3, me.4, me.5, me.6, me.7, me.8, me.9, me.10, me.11, me.12,
            );
            let outs = (o1, o2, o3, o4, o5, o6, o7, o8, o9, o10, o11, o12, o13);
            assert(upto.parses(x0, m13, Ok(outs)));
        }
        let o14 = match self.13.parse_next(input) {
            Ok(o) => o,
            Err(e) => {
                proof {
                    let outs = (o1, o2, o3, o4, o5, o6, o7, o8, o9, o10, o11, o12, o13);
                    assert(stops_with(m13, outs));
                }
                return Err(e);
            },
        };
        let ghost m14 = *input;
        proof {
            assert(stops_at(m13));
            let upto = (
                me.0, me.1, me.2, me.3, me.4, me.5, me.6, me.7, me.8, me.9, me.10, me.11, me.12,
                me.13,
            );
            let outs = (o1, o2, o3, o4, o5, o6, o7, o8, o9, o10, o11, o12, o13, o14);
            assert(upto.parses(x0, m14, Ok(outs)));
        }
        Ok((o1, o2, o3, o4, o5, o6, o7, o8, o9, o10, o11, o12, o13, o14))
    }
}

impl<
    I, O1, O2, O3, O4, O5, O6, O7, O8, O9, O10, O11, O12, O13, O14, O15, E, A1, A2, A3, A4, A5, A6,
    A7, A8, A9, A10, A11, A12, A13, A14, A15,
> Parser<
    I,
    (O1, O2, O3, O4, O5, O6, O7, O8, O9, O10, O11, O12, O13, O14, O15),
    E,
> for
    (A1, A2, A3, A4, A5, A6, A7, A8, A9, A10, A11, A12, A13, A14, A15) where
    A1: Parser<I, O1, E>,
    A2: Parser<I, O2, E>,
    A3: Parser<I, O3, E>,
    A4: Parser<I, O4, E>,
    A5: Parser<I, O5, E>,
    A6: Parser<I, O6, E>,
    A7: Parser<I, O7, E>,
    A8: Parser<I, O8, E>,
    A9: Parser<I, O9, E>,
    A10: Parser<I, O10, E>,
    A11: Parser<I, O11, E>,
    A12: Parser<I, O12, E>,
    A13: Parser<I, O13, E>,
    A14: Parser<I, O14, E>,
    A15: Parser<I, O15, E>,
 {
    open spec fn wf(&self) -> bool {
        &&& self.0.wf()
        &&& self.1.wf()
        &&& self.2.wf()
        &&& self.3.wf()
        &&& self.4.wf()
        &&& self.5.wf()
        &&& self.6.wf()
        &&& self.7.wf()
        &&& self.8.wf()
        &&& self.9.wf()
        &&& self.10.wf()
        &&& self.11.wf()
        &&& self.12.wf()
        &&& self.13.wf()
        &&& self.14.wf()
    }

    open spec fn parses(
        &self,
        before: I,
        after: I,
        r: PResult<
            (O1, O2, O3, O4, O5, O6, O7, O8, O9, O10, O11, O12, O13, O14, O15),
            E,
        >,
    ) -> bool {
        let head = (
            self.0, self.1, self.2, self.3, self.4, self.5, self.6, self.7, self.8, self.9, self.10,
            self.11, self.12, self.13,
        );
        match r {
            Ok(o) => {
                let outs = (
                    o.0, o.1, o.2, o.3, o.4, o.5, o.6, o.7, o.8, o.9, o.10, o.11, o.12, o.13,
                );
                exists|mid: I| #[trigger]
                    stops_at(mid) && head.parses(before, mid, Ok(outs)) && self.14.parses(
                        mid,
                        after,
                        Ok(o.14),
                    )
            },
            Err(e) => head.parses(before, after, Err(e)) || exists|
                mid: I,
                o: (O1, O2, O3, O4, O5, O6, O7, O8, O9, O10, O11, O12, O13, O14),
            | #[trigger]
                stops_with(mid, o) && head.parses(before, mid, Ok(o)) && self.14.parses(
                    mid,
                    after,
                    Err(e),
                ),
        }
    }

    fn parse_next(&mut self, input: &mut I) -> (r: PResult<
        (O1, O2, O3, O4, O5, O6, O7, O8, O9, O10, O11, O12, O13, O14, O15),
        E,
    >) {
        let ghost me = *self;
        let ghost x0 = *input;
        let o1 = match self.0.parse_next(input) {
            Ok(o) => o,
            Err(e) => {
                return Err(e);
            },
        };
        let ghost m1 = *input;
        let o2 = match self.1.parse_next(input) {
            Ok(o) => o,
            Err(e) => {
                proof {
                    let outs = (o1,);
                    assert(stops_with(m1, outs));
                    let upto = (me.0, me.1);
                    assert(upto.parses(x0, *input, Err(e)));
                }
                return Err(e);
            },
        };
        let ghost m2 = *input;
        proof {
            assert(stops_at(m1));
            let upto = (me.0, me.1);
            let outs = (o1, o2);
            assert(upto.parses(x0, m2, Ok(outs)));
        }
        let o3 = match self.2.parse_next(input) {
            Ok(o) => o,
            Err(e) => {
                proof {
                    let outs = (o1, o2);
                    assert(stops_with(m2, outs));
                    let upto = (me.0, me.1, me.2);
                    assert(upto.parses(x0, *input, Err(e)));
                }
                return Err(e);
            },
        };
        let ghost m3 = *input;
        proof {
            assert(stops_at(m2));
            let upto = (me.0, me.1, me.2);
            let outs = (o1, o2, o3);
            assert(upto.parses(x0, m3, Ok(outs)));
        }
        let o4 = match self.3.parse_next(input) {
            Ok(o) => o,
            Err(e) => {
                proof {
                    let outs = (o1, o2, o3);
                    assert(stops_with(m3, outs));
                    let upto = (me.0, me.1, me.2, me.3);
                    assert(upto.parses(x0, *input, Err(e)));
                }
                return Err(e);
            },
        };
        let ghost m4 = *input;
        proof {
            assert(stops_at(m3));
            let upto = (me.0, me.1, me.2, me.3);
            let outs = (o1, o2, o3, o4);
            assert(upto.parses(x0, m4, Ok(outs)));
        }
        let o5 = match self.4.parse_next(input) {
            Ok(o) => o,
            Err(e) => {
                proof {
                    let outs = (o1, o2, o3, o4);
                    assert(stops_with(m4, outs));
                    let upto = (me.0, me.1, me.2, me.3, me.4);
                    assert(upto.parses(x0, *input, Err(e)));
                }
                return Err(e);
            },
        };
        let ghost m5 = *input;
        proof {
            assert(stops_at(m4));
            let upto = (me.0, me.1, me.2, me.3, me.4);
            let outs = (o1, o2, o3, o4, o5);
            assert(upto.parses(x0, m5, Ok(outs)));
        }
        let o6 = match self.5.parse_next(input) {
            Ok(o) => o,
            Err(e) => {
                proof {
                    let outs = (o1, o2, o3, o4, o5);
                    assert(stops_with(m5, outs));
                    let upto = (me.0, me.1, me.2, me.3, me.4, me.5);
                    assert(upto.parses(x0, *input, Err(e)));
                }
                return Err(e);
            },
        };
        let ghost m6 = *input;
        proof {
            assert(stops_at(m5));
            let upto = (me.0, me.1, me.2, me.3, me.4, me.5);
            let outs = (o1, o2, o3, o4, o5, o6);
            assert(upto.parses(x0, m6, Ok(outs)));
        }
        let o7 = match self.6.parse_next(input) {
            Ok(o) => o,
            Err(e) => {
                proof {
                    let outs = (o1, o2, o3, o4, o5, o6);
                    assert(stops_with(m6, outs));
                    let upto = (me.0, me.1, me.2, me.3, me.4, me.5, me.6);
                    assert(upto.parses(x0, *input, Err(e)));
                }
                return Err(e);
            },
        };
        let ghost m7 = *input;
        proof {
            assert(stops_at(m6));
            let upto = (me.0, me.1, me.2, me.3, me.4, me.5, me.6);
            let outs = (o1, o2, o3, o4, o5, o6, o7);
            assert(upto.parses(x0, m7, Ok(outs)));
        }
        let o8 = match self.7.parse_next(input) {
            Ok(o) => o,
            Err(e) => {
                proof {
                    let outs = (o1, o2, o3, o4, o5, o6, o7);
                    assert(stops_with(m7, outs));
                    let upto = (me.0, me.1, me.2, me.3, me.4, me.5, me.6, me.7);
                    assert(upto.parses(x0, *input, Err(e)));
                }
                return Err(e);
            },
        };
        let ghost m8 = *input;
        proof {
            assert(stops_at(m7));
            let upto = (me.0, me.1, me.2, me.3, me.4, me.5, me.6, me.7);
            let outs = (o1, o2, o3, o4, o5, o6, o7, o8);
            assert(upto.parses(x0, m8, Ok(outs)));
        }
        let o9 = match self.8.parse_next(input) {
            Ok(o) => o,
            Err(e) => {
                proof {
                    let outs = (o1, o2, o3, o4, o5, o6, o7, o8);
                    assert(stops_with(m8, outs));
                    let upto = (me.0, me.1, me.2, me.3, me.4, me.5, me.6, me.7, me.8);
                    assert(upto.parses(x0, *input, Err(e)));
                }
                return Err(e);
            },
        };
        let ghost m9 = *input;
        proof {
            assert(stops_at(m8));
            let upto = (me.0, me.1, me.2, me.3, me.4, me.5, me.6, me.7, me.8);
            let outs = (o1, o2, o3, o4, o5, o6, o7, o8, o9);
            assert(upto.parses(x0, m9, Ok(outs)));
        }
        let o10 = match self.9.parse_next(input) {
            Ok(o) => o,
            Err(e) => {
                proof {
                    let outs = (o1, o2, o3, o4, o5, o6, o7, o8, o9);
                    assert(stops_with(m9, outs));
                    let upto = (me.0, me.1, me.2, me.3, me.4, me.5, me.6, me.7, me.8, me.9);
                    assert(upto.parses(x0, *input, Err(e)));
                }
                return Err(e);
            },
        };
        let ghost m10 = *input;
        proof {
            assert(stops_at(m9));
            let upto = (me.0, me.1, me.2, me.3, me.4, me.5, me.6, me.7, me.8, me.9);
            let outs = (o1, o2, o3, o4, o5, o6, o7, o8, o9, o10);
            assert(upto.parses(x0, m10, Ok(outs)));
        }
        let o11 = match self.10.parse_next(input) {
            Ok(o) => o,
            Err(e) => {
                proof {
                    let outs = (o1, o2, o3, o4, o5, o6, o7, o8, o9, o10);
                    assert(stops_with(m10, outs));
                    let upto = (me.0, me.1, me.2, me.3, me.4, me.5, me.6, me.7, me.8, me.9, me.10);
                    assert(upto.parses(x0, *input, Err(e)));
                }
                return Err(e);
            },
        };
        let ghost m11 = *input;
        proof {
            assert(stops_at(m10));
            let upto = (me.0, me.1, me.2, me.3, me.4, me.5, me.6, me.7, me.8, me.9, me.10);
            let outs = (o1, o2, o3, o4, o5, o6, o7, o8, o9, o10, o11);
            assert(upto.parses(x0, m11, Ok(outs)));
        }
        let o12 = match self.11.parse_next(input) {
            Ok(o) => o,
            Err(e) => {
                proof {
                    let outs = (o1, o2, o3, o4, o5, o6, o7, o8, o9, o10, o11);
                    assert(stops_with(m11, outs));
                    let upto = (
                        me.0, me.1, me.2, me.3, me.4, me.5, me.6, me.7, me.8, me.9, me.10, me.11,
                    );
                    assert(upto.parses(x0, *input, Err(e)));
                }
                return Err(e);
            },
        };
        let ghost m12 = *input;
        proof {
            assert(stops_at(m11));
            let upto = (me.0, me.1, me.2, me.3, me.4, me.5, me.6, me.7, me.8, me.9, me.10, me.11);
            let outs = (o1, o2, o3, o4, o5, o6, o7, o8, o9, o10, o11, o12);
            assert(upto.parses(x0, m12, Ok(outs)));
        }
        let o13 = match self.12.parse_next(input) {
            Ok(o) => o,
            Err(e) => {
                proof {
                    let outs = (o1, o2, o3, o4, o5, o6, o7, o8, o9, o10, o11, o12);
                    assert(stops_with(m12, outs));
                    let upto = (
                        me.0, me.1, me.2, me.3, me.4, me.5, me.6, me.7, me.8, me.9, me.10, me.11,
                        me.12,
                    );
                    assert(upto.parses(x0, *input, Err(e)));
                }
                return Err(e);
            },
        };
        let ghost m13 = *input;
        proof {
            assert(stops_at(m12));
            let upto = (
                me.0, me.1, me.2, me.3, me.4, me.5, me.6, me.7, me.8, me.9, me.10, me.11, me.12,
            );
            let outs = (o1, o2, o3, o4, o5, o6, o7, o8, o9, o10, o11, o12, o13);
            assert(upto.parses(x0, m13, Ok(outs)));
        }
        let o14 = match self.13.parse_next(input) {
            Ok(o) => o,
            Err(e) => {
                proof {
                    let outs = (o1, o2, o3, o4, o5, o6, o7, o8, o9, o10, o11, o12, o13);
                    assert(stops_with(m13, outs));
                    let upto = (
                        me.0, me.1, me.2, me.3, me.4, me.5, me.6, me.7, me.8, me.9, me.10, me.11,
                        me.12, me.13,
                    );
                    assert(upto.parses(x0, *input, Err(e)));
                }
                return Err(e);
            },
        };
        let ghost m14 = *input;
        proof {
            assert(stops_at(m13));
            let upto = (
                me.0, me.1, me.2, me.3, me.4, me.5, me.6, me.7, me.8, me.9, me.10, me.11, me.12,
                me.13,
            );
            let outs = (o1, o2, o3, o4, o5, o6, o7, o8, o9, o10, o11, o12, o13, o14);
            assert(upto.parses(x0, m14, Ok(outs)));
        }
        let o15 = match self.14.parse_next(input) {
            Ok(o) => o,
            Err(e) => {
                proof {
                    let outs = (o1, o2, o3, o4, o5, o6, o7, o8, o9, o10, o11, o12, o13, o14);
                    assert(stops_with(m14, outs));
                }
                return Err(e);
            },
        };
        let ghost m15 = *input;
        proof {
            assert(stops_at(m14));
            let upto = (
                me.0, me.1, me.2, me.3, me.4, me.5, me.6, me.7, me.8, me.9, me.10, me.11, me.12,
                me.13, me.14,
            );
            let outs = (o1, o2, o3, o4, o5, o6, o7, o8, o9, o10, o11, o12, o13, o14, o15);
            assert(upto.parses(x0, m15, Ok(outs)));
        }
        Ok((o1, o2, o3, o4, o5, o6, o7, o8, o9, o10, o11, o12, o13, o14, o15))
    }
}

impl<
    I, O1, O2, O3, O4, O5, O6, O7, O8, O9, O10, O11, O12, O13, O14, O15, O16, E, A1, A2, A3, A4, A5,
    A6, A7, A8, A9, A10, A11, A12, A13, A14, A15, A16,
> Parser<
    I,
    (O1, O2, O3, O4, O5, O6, O7, O8, O9, O10, O11, O12, O13, O14, O15, O16),
    E,
> for
    (A1, A2, A3, A4, A5, A6, A7, A8, A9, A10, A11, A12, A13, A14, A15, A16) where
    A1: Parser<I, O1, E>,
    A2: Parser<I, O2, E>,
    A3: Parser<I, O3, E>,
    A4: Parser<I, O4, E>,
    A5: Parser<I, O5, E>,
    A6: Parser<I, O6, E>,
    A7: Parser<I, O7, E>,
    A8: Parser<I, O8, E>,
    A9: Parser<I, O9, E>,
    A10: Parser<I, O10, E>,
    A11: Parser<I, O11, E>,
    A12: Parser<I, O12, E>,
    A13: Parser<I, O13, E>,
    A14: Parser<I, O14, E>,
    A15: Parser<I, O15, E>,
    A16: Parser<I, O16, E>,
 {
    open spec fn wf(&self) -> bool {
        &&& self.0.wf()
        &&& self.1.wf()
        &&& self.2.wf()
        &&& self.3.wf()
        &&& self.4.wf()
        &&& self.5.wf()
        &&& self.6.wf()
        &&& self.7.wf()
        &&& self.8.wf()
        &&& self.9.wf()
        &&& self.10.wf()
        &&& self.11.wf()
        &&& self.12.wf()
        &&& self.13.wf()
        &&& self.14.wf()
        &&& self.15.wf()
    }

    open spec fn parses(
        &self,
        before: I,
        after: I,
        r: PResult<
            (O1, O2, O3, O4, O5, O6, O7, O8, O9, O10, O11, O12, O13, O14, O15, O16),
            E,
        >,
    ) -> bool {
        let head = (
            self.0, self.1, self.2, self.3, self.4, self.5, self.6, self.7, self.8, self.9, self.10,
            self.11, self.12, self.13, self.14,
        );
        match r {
            Ok(o) => {
                let outs = (
                    o.0, o.1, o.2, o.3, o.4, o.5, o.6, o.7, o.8, o.9, o.10, o.11, o.12, o.13, o.14,
                );
                exists|mid: I| #[trigger]
                    stops_at(mid) && head.parses(before, mid, Ok(outs)) && self.15.parses(
                        mid,
                        after,
                        Ok(o.15),
                    )
            },
            Err(e) => head.parses(before, after, Err(e)) || exists|
                mid: I,
                o: (O1, O2, O3, O4, O5, O6, O7, O8, O9, O10, O11, O12, O13, O14, O15),
            | #[trigger]
                stops_with(mid, o) && head.parses(before, mid, Ok(o)) && self.15.parses(
                    mid,
                    after,
                    Err(e),
                ),
        }
    }

    fn parse_next(&mut self, input: &mut I) -> (r: PResult<
        (O1, O2, O3, O4, O5, O6, O7, O8, O9, O10, O11, O12, O13, O14, O15, O16),
        E,
    >) {
        let ghost me = *self;
        let ghost x0 = *input;
        let o1 = match self.0.parse_next(input) {
            Ok(o) => o,
            Err(e) => {
                return Err(e);
            },
        };
        let ghost m1 = *input;
        let o2 = match self.1.parse_next(input) {
            Ok(o) => o,
            Err(e) => {
                proof {
                    let outs = (o1,);
                    assert(stops_with(m1, outs));
                    let upto = (me.0, me.1);
                    assert(upto.parses(x0, *input, Err(e)));
                }
                return Err(e);
            },
        };
        let ghost m2 = *input;
        proof {
            assert(stops_at(m1));
            let upto = (me.0, me.1);
            let outs = (o1, o2);
            assert(upto.parses(x0, m2, Ok(outs)));
        }
        let o3 = match self.2.parse_next(input) {
            Ok(o) => o,
            Err(e) => {
                proof {
                    let outs = (o1, o2);
                    assert(stops_with(m2, outs));
                    let upto = (me.0, me.1, me.2);
                    assert(upto.parses(x0, *input, Err(e)));
                }
                return Err(e);
            },
        };
        let ghost m3 = *input;
        proof {
            assert(stops_at(m2));
            let upto = (me.0, me.1, me.2);
            let outs = (o1, o2, o3);
            assert(upto.parses(x0, m3, Ok(outs)));
        }
        let o4 = match self.3.parse_next(input) {
            Ok(o) => o,
            Err(e) => {
                proof {
                    let outs = (o1, o2, o3);
                    assert(stops_with(m3, outs));
                    let upto = (me.0, me.1, me.2, me.3);
                    assert(upto.parses(x0, *input, Err(e)));
                }
                return Err(e);
            },
        };
        let ghost m4 = *input;
        proof {
            assert(stops_at(m3));
            let upto = (me.0, me.1, me.2, me.3);
            let outs = (o1, o2, o3, o4);
            assert(upto.parses(x0, m4, Ok(outs)));
        }
        let o5 = match self.4.parse_next(input) {
            Ok(o) => o,
            Err(e) => {
                proof {
                    let outs = (o1, o2, o3, o4);
                    assert(stops_with(m4, outs));
                    let upto = (me.0, me.1, me.2, me.3, me.4);
                    assert(upto.parses(x0, *input, Err(e)));
                }
                return Err(e);
            },
        };
        let ghost m5 = *input;
        proof {
            assert(stops_at(m4));
            let upto = (me.0, me.1, me.2, me.3, me.4);
            let outs = (o1, o2, o3, o4, o5);
            assert(upto.parses(x0, m5, Ok(outs)));
        }
        let o6 = match self.5.parse_next(input) {
            Ok(o) => o,
            Err(e) => {
                proof {
                    let outs = (o1, o2, o3, o4, o5);
                    assert(stops_with(m5, outs));
                    let upto = (me.0, me.1, me.2, me.3, me.4, me.5);
                    assert(upto.parses(x0, *input, Err(e)));
                }
                return Err(e);
            },
        };
        let ghost m6 = *input;
        proof {
            assert(stops_at(m5));
            let upto = (me.0, me.1, me.2, me.3, me.4, me.5);
            let outs = (o1, o2, o3, o4, o5, o6);
            assert(upto.parses(x0, m6, Ok(outs)));
        }
        let o7 = match self.6.parse_next(input) {
            Ok(o) => o,
            Err(e) => {
                proof {
                    let outs = (o1, o2, o3, o4, o5, o6);
                    assert(stops_with(m6, outs));
                    let upto = (me.0, me.1, me.2, me.3, me.4, me.5, me.6);
                    assert(upto.parses(x0, *input, Err(e)));
                }
                return Err(e);
            },
        };
        let ghost m7 = *input;
        proof {
            assert(stops_at(m6));
            let upto = (me.0, me.1, me.2, me.3, me.4, me.5, me.6);
            let outs = (o1, o2, o3, o4, o5, o6, o7);
            assert(upto.parses(x0, m7, Ok(outs)));
        }
        let o8 = match self.7.parse_next(input) {
            Ok(o) => o,
            Err(e) => {
                proof {
                    let outs = (o1, o2, o3, o4, o5, o6, o7);
                    assert(stops_with(m7, outs));
                    let upto = (me.0, me.1, me.2, me.3, me.4, me.5, me.6, me.7);
                    assert(upto.parses(x0, *input, Err(e)));
                }
                return Err(e);
            },
        };
        let ghost m8 = *input;
        proof {
            assert(stops_at(m7));
            let upto = (me.0, me.1, me.2, me.3, me.4, me.5, me.6, me.7);
            let outs = (o1, o2, o3, o4, o5, o6, o7, o8);
            assert(upto.parses(x0, m8, Ok(outs)));
        }
        let o9 = match self.8.parse_next(input) {
            Ok(o) => o,
            Err(e) => {
                proof {
                    let outs = (o1, o2, o3, o4, o5, o6, o7, o8);
                    assert(stops_with(m8, outs));
                    let upto = (me.0, me.1, me.2, me.3, me.4, me.5, me.6, me.7, me.8);
                    assert(upto.parses(x0, *input, Err(e)));
                }
                return Err(e);
            },
        };
        let ghost m9 = *input;
        proof {
            assert(stops_at(m8));
            let upto = (me.0, me.1, me.2, me.3, me.4, me.5, me.6, me.7, me.8);
            let outs = (o1, o2, o3, o4, o5, o6, o7, o8, o9);
            assert(upto.parses(x0, m9, Ok(outs)));
        }
        let o10 = match self.9.parse_next(input) {
            Ok(o) => o,
            Err(e) => {
                proof {
                    let outs = (o1, o2, o3, o4, o5, o6, o7, o8, o9);
                    assert(stops_with(m9, outs));
                    let upto = (me.0, me.1, me.2, me.3, me.4, me.5, me.6, me.7, me.8, me.9);
                    assert(upto.parses(x0, *input, Err(e)));
                }
                return Err(e);
            },
        };
        let ghost m10 = *input;
        proof {
            assert(stops_at(m9));
            let upto = (me.0, me.1, me.2, me.3, me.4, me.5, me.6, me.7, me.8, me.9);
            let outs = (o1, o2, o3, o4, o5, o6, o7, o8, o9, o10);
            assert(upto.parses(x0, m10, Ok(outs)));
        }
        let o11 = match self.10.parse_next(input) {
            Ok(o) => o,
            Err(e) => {
                proof {
                    let outs = (o1, o2, o3, o4, o5, o6, o7, o8, o9, o10);
                    assert(stops_with(m10, outs));
                    let upto = (me.0, me.1, me.2, me.3, me.4, me.5, me.6, me.7, me.8, me.9, me.10);
                    assert(upto.parses(x0, *input, Err(e)));
                }
                return Err(e);
            },
        };
        let ghost m11 = *input;
        proof {
            assert(stops_at(m10));
            let upto = (me.0, me.1, me.2, me.3, me.4, me.5, me.6, me.7, me.8, me.9, me.10);
            let outs = (o1, o2, o3, o4, o5, o6, o7, o8, o9, o10, o11);
            assert(upto.parses(x0, m11, Ok(outs)));
        }
        let o12 = match self.11.parse_next(input) {
            Ok(o) => o,
            Err(e) => {
                proof {
                    let outs = (o1, o2, o3, o4, o5, o6, o7, o8, o9, o10, o11);
                    assert(stops_with(m11, outs));
                    let upto = (
                        me.0, me.1, me.2, me.3, me.4, me.5, me.6, me.7, me.8, me.9, me.10, me.11,
                    );
                    assert(upto.parses(x0, *input, Err(e)));
                }
                return Err(e);
            },
        };
        let ghost m12 = *input;
        proof {
            assert(stops_at(m11));
            let upto = (me.0, me.1, me.2, me.3, me.4, me.5, me.6, me.7, me.8, me.9, me.10, me.11);
            let outs = (o1, o2, o3, o4, o5, o6, o7, o8, o9, o10, o11, o12);
            assert(upto.parses(x0, m12, Ok(outs)));
        }
        let o13 = match self.12.parse_next(input) {
            Ok(o) => o,
            Err(e) => {
                proof {
                    let outs = (o1, o2, o3, o4, o5, o6, o7, o8, o9, o10, o11, o12);
                    assert(stops_with(m12, outs));
                    let upto = (
                        me.0, me.1, me.2, me.3, me.4, me.5, me.6, me.7, me.8, me.9, me.10, me.11,
                        me.12,
                    );
                    assert(upto.parses(x0, *input, Err(e)));
                }
                return Err(e);
            },
        };
        let ghost m13 = *input;
        proof {
            assert(stops_at(m12));
            let upto = (
                me.0, me.1, me.2, me.3, me.4, me.5, me.6, me.7, me.8, me.9, me.10, me.11, me.12,
            );
            let outs = (o1, o2, o3, o4, o5, o6, o7, o8, o9, o10, o11, o12, o13);
            assert(upto.parses(x0, m13, Ok(outs)));
        }
        let o14 = match self.13.parse_next(input) {
            Ok(o) => o,
            Err(e) => {
                proof {
                    let outs = (o1, o2, o3, o4, o5, o6, o7, o8, o9, o10, o11, o12, o13);
                    assert(stops_with(m13, outs));
                    let upto = (
                        me.0, me.1, me.2, me.3, me.4, me.5, me.6, me.7, me.8, me.9, me.10, me.11,
                        me.12, me.13,
                    );
                    assert(upto.parses(x0, *input, Err(e)));
                }
                return Err(e);
            },
        };
        let ghost m14 = *input;
        proof {
            assert(stops_at(m13));
            let upto = (
                me.0, me.1, me.2, me.3, me.4, me.5, me.6, me.7, me.8, me.9, me.10, me.11, me.12,
                me.13,
            );
            let outs = (o1, o2, o3, o4, o5, o6, o7, o8, o9, o10, o11, o12, o13, o14);
            assert(upto.parses(x0, m14, Ok(outs)));
        }
        let o15 = match self.14.parse_next(input) {
            Ok(o) => o,
            Err(e) => {
                proof {
                    let outs = (o1, o2, o3, o4, o5, o6, o7, o8, o9, o10, o11, o12, o13, o14);
                    assert(stops_with(m14, outs));
                    let upto = (
                        me.0, me.1, me.2, me.3, me.4, me.5, me.6, me.7, me.8, me.9, me.10, me.11,
                        me.12, me.13, me.14,
                    );
                    assert(upto.parses(x0, *input, Err(e)));
                }
                return Err(e);
            },
        };
        let ghost m15 = *input;
        proof {
            assert(stops_at(m14));
            let upto = (
                me.0, me.1, me.2, me.3, me.4, me.5, me.6, me.7, me.8, me.9, me.10, me.11, me.12,
                me.13, me.14,
            );
            let outs = (o1, o2, o3, o4, o5, o6, o7, o8, o9, o10, o11, o12, o13, o14, o15);
            assert(upto.parses(x0, m15, Ok(outs)));
        }
        let o16 = match self.15.parse_next(input) {
            Ok(o) => o,
            Err(e) => {
                proof {
                    let outs = (o1, o2, o3, o4, o5, o6, o7, o8, o9, o10, o11, o12, o13, o14, o15);
                    assert(stops_with(m15, outs));
                }
                return Err(e);
            },
        };
        let ghost m16 = *input;
        proof {
            assert(stops_at(m15));
            let upto = (
                me.0, me.1, me.2, me.3, me.4, me.5, me.6, me.7, me.8, me.9, me.10, me.11, me.12,
                me.13, me.14, me.15,
            );
            let outs = (o1, o2, o3, o4, o5, o6, o7, o8, o9, o10, o11, o12, o13, o14, o15, o16);
            assert(upto.parses(x0, m16, Ok(outs)));
        }
        Ok((o1, o2, o3, o4, o5, o6, o7, o8, o9, o10, o11, o12, o13, o14, o15, o16))
    }
}

impl<
    I, O1, O2, O3, O4, O5, O6, O7, O8, O9, O10, O11, O12, O13, O14, O15, O16, O17, E, A1, A2, A3,
    A4, A5, A6, A7, A8, A9, A10, A11, A12, A13, A14, A15, A16, A17,
> Parser<
    I,
    (O1, O2, O3, O4, O5, O6, O7, O8, O9, O10, O11, O12, O13, O14, O15, O16, O17),
    E,
> for
    (A1, A2, A3, A4, A5, A6, A7, A8, A9, A10, A11, A12, A13, A14, A15, A16, A17) where
    A1: Parser<I, O1, E>,
    A2: Parser<I, O2, E>,
    A3: Parser<I, O3, E>,
    A4: Parser<I, O4, E>,
    A5: Parser<I, O5, E>,
    A6: Parser<I, O6, E>,
    A7: Parser<I, O7, E>,
    A8: Parser<I, O8, E>,
    A9: Parser<I, O9, E>,
    A10: Parser<I, O10, E>,
    A11: Parser<I, O11, E>,
    A12: Parser<I, O12, E>,
    A13: Parser<I, O13, E>,
    A14: Parser<I, O14, E>,
    A15: Parser<I, O15, E>,
    A16: Parser<I, O16, E>,
    A17: Parser<I, O17, E>,
 {
    open spec fn wf(&self) -> bool {
        &&& self.0.wf()
        &&& self.1.wf()
        &&& self.2.wf()
        &&& self.3.wf()
        &&& self.4.wf()
        &&& self.5.wf()
        &&& self.6.wf()
        &&& self.7.wf()
        &&& self.8.wf()
        &&& self.9.wf()
        &&& self.10.wf()
        &&& self.11.wf()
        &&& self.12.wf()
        &&& self.13.wf()
        &&& self.14.wf()
        &&& self.15.wf()
        &&& self.16.wf()
    }

    open spec fn parses(
        &self,
        before: I,
        after: I,
        r: PResult<
            (O1, O2, O3, O4, O5, O6, O7, O8, O9, O10, O11, O12, O13, O14, O15, O16, O17),
            E,
        >,
    ) -> bool {
        let head = (
            self.0, self.1, self.2, self.3, self.4, self.5, self.6, self.7, self.8, self.9, self.10,
            self.11, self.12, self.13, self.14, self.15,
        );
        match r {
            Ok(o) => {
                let outs = (
                    o.0, o.1, o.2, o.3, o.4, o.5, o.6, o.7, o.8, o.9, o.10, o.11, o.12, o.13, o.14,
                    o.15,
                );
                exists|mid: I| #[trigger]
                    stops_at(mid) && head.parses(before, mid, Ok(outs)) && self.16.parses(
                        mid,
                        after,
                        Ok(o.16),
                    )
            },
            Err(e) => head.parses(before, after, Err(e)) || exists|
                mid: I,
                o: (O1, O2, O3, O4, O5, O6, O7, O8, O9, O10, O11, O12, O13, O14, O15, O16),
            | #[trigger]
                stops_with(mid, o) && head.parses(before, mid, Ok(o)) && self.16.parses(
                    mid,
                    after,
                    Err(e),
                ),
        }
    }

    fn parse_next(&mut self, input: &mut I) -> (r: PResult<
        (O1, O2, O3, O4, O5, O6, O7, O8, O9, O10, O11, O12, O13, O14, O15, O16, O17),
        E,
    >) {
        let ghost me = *self;
        let ghost x0 = *input;
        let o1 = match self.0.parse_next(input) {
            Ok(o) => o,
            Err(e) => {
                return Err(e);
            },
        };
        let ghost m1 = *input;
        let o2 = match self.1.parse_next(input) {
            Ok(o) => o,
            Err(e) => {
                proof {
                    let outs = (o1,);
                    assert(stops_with(m1, outs));
                    let upto = (me.0, me.1);
                    assert(upto.parses(x0, *input, Err(e)));
                }
                return Err(e);
            },
        };
        let ghost m2 = *input;
        proof {
            assert(stops_at(m1));
            let upto = (me.0, me.1);
            let outs = (o1, o2);
            assert(upto.parses(x0, m2, Ok(outs)));
        }
        let o3 = match self.2.parse_next(input) {
            Ok(o) => o,
            Err(e) => {
                proof {
                    let outs = (o1, o2);
                    assert(stops_with(m2, outs));
                    let upto = (me.0, me.1, me.2);
                    assert(upto.parses(x0, *input, Err(e)));
                }
                return Err(e);
            },
        };
        let ghost m3 = *input;
        proof {
            assert(stops_at(m2));
            let upto = (me.0, me.1, me.2);
            let outs = (o1, o2, o3);
            assert(upto.parses(x0, m3, Ok(outs)));
        }
        let o4 = match self.3.parse_next(input) {
            Ok(o) => o,
            Err(e) => {
                proof {
                    let outs = (o1, o2, o3);
                    assert(stops_with(m3, outs));
                    let upto = (me.0, me.1, me.2, me.3);
                    assert(upto.parses(x0, *input, Err(e)));
                }
                return Err(e);
            },
        };
        let ghost m4 = *input;
        proof {
            assert(stops_at(m3));
            let upto = (me.0, me.1, me.2, me.3);
            let outs = (o1, o2, o3, o4);
            assert(upto.parses(x0, m4, Ok(outs)));
        }
        let o5 = match self.4.parse_next(input) {
            Ok(o) => o,
            Err(e) => {
                proof {
                    let outs = (o1, o2, o3, o4);
                    assert(stops_with(m4, outs));
                    let upto = (me.0, me.1, me.2, me.3, me.4);
                    assert(upto.parses(x0, *input, Err(e)));
                }
                return Err(e);
            },
        };
        let ghost m5 = *input;
        proof {
            assert(stops_at(m4));
            let upto = (me.0, me.1, me.2, me.3, me.4);
            let outs = (o1, o2, o3, o4, o5);
            assert(upto.parses(x0, m5, Ok(outs)));
        }
        let o6 = match self.5.parse_next(input) {
            Ok(o) => o,
            Err(e) => {
                proof {
                    let outs = (o1, o2, o3, o4, o5);
                    assert(stops_with(m5, outs));
                    let upto = (me.0, me.1, me.2, me.3, me.4, me.5);
                    assert(upto.parses(x0, *input, Err(e)));
                }
                return Err(e);
            },
        };
        let ghost m6 = *input;
        proof {
            assert(stops_at(m5));
            let upto = (me.0, me.1, me.2, me.3, me.4, me.5);
            let outs = (o1, o2, o3, o4, o5, o6);
            assert(upto.parses(x0, m6, Ok(outs)));
        }
        let o7 = match self.6.parse_next(input) {
            Ok(o) => o,
            Err(e) => {
                proof {
                    let outs = (o1, o2, o3, o4, o5, o6);
                    assert(stops_with(m6, outs));
                    let upto = (me.0, me.1, me.2, me.3, me.4, me.5, me.6);
                    assert(upto.parses(x0, *input, Err(e)));
                }
                return Err(e);
            },
        };
        let ghost m7 = *input;
        proof {
            assert(stops_at(m6));
            let upto = (me.0, me.1, me.2, me.3, me.4, me.5, me.6);
            let outs = (o1, o2, o3, o4, o5, o6, o7);
            assert(upto.parses(x0, m7, Ok(outs)));
        }
        let o8 = match self.7.parse_next(input) {
            Ok(o) => o,
            Err(e) => {
                proof {
                    let outs = (o1, o2, o3, o4, o5, o6, o7);
                    assert(stops_with(m7, outs));
                    let upto = (me.0, me.1, me.2, me.3, me.4, me.5, me.6, me.7);
                    assert(upto.parses(x0, *input, Err(e)));
                }
                return Err(e);
            },
        };
        let ghost m8 = *input;
        proof {
            assert(stops_at(m7));
            let upto = (me.0, me.1, me.2, me.3, me.4, me.5, me.6, me.7);
            let outs = (o1, o2, o3, o4, o5, o6, o7, o8);
            assert(upto.parses(x0, m8, Ok(outs)));
        }
        let o9 = match self.8.parse_next(input) {
            Ok(o) => o,
            Err(e) => {
                proof {
                    let outs = (o1, o2, o3, o4, o5, o6, o7, o8);
                    assert(stops_with(m8, outs));
                    let upto = (me.0, me.1, me.2, me.3, me.4, me.5, me.6, me.7, me.8);
                    assert(upto.parses(x0, *input, Err(e)));
                }
                return Err(e);
            },
        };
        let ghost m9 = *input;
        proof {
            assert(stops_at(m8));
            let upto = (me.0, me.1, me.2, me.3, me.4, me.5, me.6, me.7, me.8);
            let outs = (o1, o2, o3, o4, o5, o6, o7, o8, o9);
            assert(upto.parses(x0, m9, Ok(outs)));
        }
        let o10 = match self.9.parse_next(input) {
            Ok(o) => o,
            Err(e) => {
                proof {
                    let outs = (o1, o2, o3, o4, o5, o6, o7, o8, o9);
                    assert(stops_with(m9, outs));
                    let upto = (me.0, me.1, me.2, me.3, me.4, me.5, me.6, me.7, me.8, me.9);
                    assert(upto.parses(x0, *input, Err(e)));
                }
                return Err(e);
            },
        };
        let ghost m10 = *input;
        proof {
            assert(stops_at(m9));
            let upto = (me.0, me.1, me.2, me.3, me.4, me.5, me.6, me.7, me.8, me.9);
            let outs = (o1, o2, o3, o4, o5, o6, o7, o8, o9, o10);
            assert(upto.parses(x0, m10, Ok(outs)));
        }
        let o11 = match self.10.parse_next(input) {
            Ok(o) => o,
            Err(e) => {
                proof {
                    let outs = (o1, o2, o3, o4, o5, o6, o7, o8, o9, o10);
                    assert(stops_with(m10, outs));
                    let upto = (me.0, me.1, me.2, me.3, me.4, me.5, me.6, me.7, me.8, me.9, me.10);
                    assert(upto.parses(x0, *input, Err(e)));
                }
                return Err(e);
            },
        };
        let ghost m11 = *input;
        proof {
            assert(stops_at(m10));
            let upto = (me.0, me.1, me.2, me.3, me.4, me.5, me.6, me.7, me.8, me.9, me.10);
            let outs = (o1, o2, o3, o4, o5, o6, o7, o8, o9, o10, o11);
            assert(upto.parses(x0, m11, Ok(outs)));
        }
        let o12 = match self.11.parse_next(input) {
            Ok(o) => o,
            Err(e) => {
                proof {
                    let outs = (o1, o2, o3, o4, o5, o6, o7, o8, o9, o10, o11);
                    assert(stops_with(m11, outs));
                    let upto = (
                        me.0, me.1, me.2, me.3, me.4, me.5, me.6, me.7, me.8, me.9, me.10, me.11,
                    );
                    assert(upto.parses(x0, *input, Err(e)));
                }
                return Err(e);
            },
        };
        let ghost m12 = *input;
        proof {
            assert(stops_at(m11));
            let upto = (me.0, me.1, me.2, me.3, me.4, me.5, me.6, me.7, me.8, me.9, me.10, me.11);
            let outs = (o1, o2, o3, o4, o5, o6, o7, o8, o9, o10, o11, o12);
            assert(upto.parses(x0, m12, Ok(outs)));
        }
        let o13 = match self.12.parse_next(input) {
            Ok(o) => o,
            Err(e) => {
                proof {
                    let outs = (o1, o2, o3, o4, o5, o6, o7, o8, o9, o10, o11, o12);
                    assert(stops_with(m12, outs));
                    let upto = (
                        me.0, me.1, me.2, me.3, me.4, me.5, me.6, me.7, me.8, me.9, me.10, me.11,
                        me.12,
                    );
                    assert(upto.parses(x0, *input, Err(e)));
                }
                return Err(e);
            },
        };
        let ghost m13 = *input;
        proof {
            assert(stops_at(m12));
            let upto = (
                me.0, me.1, me.2, me.3, me.4, me.5, me.6, me.7, me.8, me.9, me.10, me.11, me.12,
            );
            let outs = (o1, o2, o3, o4, o5, o6, o7, o8, o9, o10, o11, o12, o13);
            assert(upto.parses(x0, m13, Ok(outs)));
        }
        let o14 = match self.13.parse_next(input) {
            Ok(o) => o,
            Err(e) => {
                proof {
                    let outs = (o1, o2, o3, o4, o5, o6, o7, o8, o9, o10, o11, o12, o13);
                    assert(stops_with(m13, outs));
                    let upto = (
                        me.0, me.1, me.2, me.3, me.4, me.5, me.6, me.7, me.8, me.9, me.10, me.11,
                        me.12, me.13,
                    );
                    assert(upto.parses(x0, *input, Err(e)));
                }
                return Err(e);
            },
        };
        let ghost m14 = *input;
        proof {
            assert(stops_at(m13));
            let upto = (
                me.0, me.1, me.2, me.3, me.4, me.5, me.6, me.7, me.8, me.9, me.10, me.11, me.12,
                me.13,
            );
            let outs = (o1, o2, o3, o4, o5, o6, o7, o8, o9, o10, o11, o12, o13, o14);
            assert(upto.parses(x0, m14, Ok(outs)));
        }
        let o15 = match self.14.parse_next(input) {
            Ok(o) => o,
            Err(e) => {
                proof {
                    let outs = (o1, o2, o3, o4, o5, o6, o7, o8, o9, o10, o11, o12, o13, o14);
                    assert(stops_with(m14, outs));
                    let upto = (
                        me.0, me.1, me.2, me.3, me.4, me.5, me.6, me.7, me.8, me.9, me.10, me.11,
                        me.12, me.13, me.14,
                    );
                    assert(upto.parses(x0, *input, Err(e)));
                }
                return Err(e);
            },
        };
        let ghost m15 = *input;
        proof {
            assert(stops_at(m14));
            let upto = (
                me.0, me.1, me.2, me.3, me.4, me.5, me.6, me.7, me.8, me.9, me.10, me.11, me.12,
                me.13, me.14,
            );
            let outs = (o1, o2, o3, o4, o5, o6, o7, o8, o9, o10, o11, o12, o13, o14, o15);
            assert(upto.parses(x0, m15, Ok(outs)));
        }
        let o16 = match self.15.parse_next(input) {
            Ok(o) => o,
            Err(e) => {
                proof {
                    let outs = (o1, o2, o3, o4, o5, o6, o7, o8, o9, o10, o11, o12, o13, o14, o15);
                    assert(stops_with(m15, outs));
                    let upto = (
                        me.0, me.1, me.2, me.3, me.4, me.5, me.6, me.7, me.8, me.9, me.10, me.11,
                        me.12, me.13, me.14, me.15,
                    );
                    assert(upto.parses(x0, *input, Err(e)));
                }
                return Err(e);
            },
        };
        let ghost m16 = *input;
        proof {
            assert(stops_at(m15));
            let upto = (
                me.0, me.1, me.2, me.3, me.4, me.5, me.6, me.7, me.8, me.9, me.10, me.11, me.12,
                me.13, me.14, me.15,
            );
            let outs = (o1, o2, o3, o4, o5, o6, o7, o8, o9, o10, o11, o12, o13, o14, o15, o16);
            assert(upto.parses(x0, m16, Ok(outs)));
        }
        let o17 = match self.16.parse_next(input) {
            Ok(o) => o,
            Err(e) => {
                proof {
                    let outs = (
                        o1, o2, o3, o4, o5, o6, o7, o8, o9, o10, o11, o12, o13, o14, o15, o16,
                    );
                    assert(stops_with(m16, outs));
                }
                return Err(e);
            },
        };
        let ghost m17 = *input;
        proof {
            assert(stops_at(m16));
            let upto = (
                me.0, me.1, me.2, me.3, me.4, me.5, me.6, me.7, me.8, me.9, me.10, me.11, me.12,
                me.13, me.14, me.15, me.16,
            );
            let outs = (o1, o2, o3, o4, o5, o6, o7, o8, o9, o10, o11, o12, o13, o14, o15, o16, o17);
            assert(upto.parses(x0, m17, Ok(outs)));
        }
        Ok((o1, o2, o3, o4, o5, o6, o7, o8, o9, o10, o11, o12, o13, o14, o15, o16, o17))
    }
}

impl<
    I, O1, O2, O3, O4, O5, O6, O7, O8, O9, O10, O11, O12, O13, O14, O15, O16, O17, O18, E, A1, A2,
    A3, A4, A5, A6, A7, A8, A9, A10, A11, A12, A13, A14, A15, A16, A17, A18,
> Parser<
    I,
    (O1, O2, O3, O4, O5, O6, O7, O8, O9, O10, O11, O12, O13, O14, O15, O16, O17, O18),
    E,
> for
    (A1, A2, A3, A4, A5, A6, A7, A8, A9, A10, A11, A12, A13, A14, A15, A16, A17, A18) where
    A1: Parser<I, O1, E>,
    A2: Parser<I, O2, E>,
    A3: Parser<I, O3, E>,
    A4: Parser<I, O4, E>,
    A5: Parser<I, O5, E>,
    A6: Parser<I, O6, E>,
    A7: Parser<I, O7, E>,
    A8: Parser<I, O8, E>,
    A9: Parser<I, O9, E>,
    A10: Parser<I, O10, E>,
    A11: Parser<I, O11, E>,
    A12: Parser<I, O12, E>,
    A13: Parser<I, O13, E>,
    A14: Parser<I, O14, E>,
    A15: Parser<I, O15, E>,
    A16: Parser<I, O16, E>,
    A17: Parser<I, O17, E>,
    A18: Parser<I, O18, E>,
 {
    open spec fn wf(&self) -> bool {
        &&& self.0.wf()
        &&& self.1.wf()
        &&& self.2.wf()
        &&& self.3.wf()
        &&& self.4.wf()
        &&& self.5.wf()
        &&& self.6.wf()
        &&& self.7.wf()
        &&& self.8.wf()
        &&& self.9.wf()
        &&& self.10.wf()
        &&& self.11.wf()
        &&& self.12.wf()
        &&& self.13.wf()
        &&& self.14.wf()
        &&& self.15.wf()
        &&& self.16.wf()
        &&& self.17.wf()
    }

    open spec fn parses(
        &self,
        before: I,
        after: I,
        r: PResult<
            (O1, O2, O3, O4, O5, O6, O7, O8, O9, O10, O11, O12, O13, O14, O15, O16, O17, O18),
            E,
        >,
    ) -> bool {
        let head = (
            self.0, self.1, self.2, self.3, self.4, self.5, self.6, self.7, self.8, self.9, self.10,
            self.11, self.12, self.13, self.14, self.15, self.16,
        );
        match r {
            Ok(o) => {
                let outs = (
                    o.0, o.1, o.2, o.3, o.4, o.5, o.6, o.7, o.8, o.9, o.10, o.11, o.12, o.13, o.14,
                    o.15, o.16,
                );
                exists|mid: I| #[trigger]
                    stops_at(mid) && head.parses(before, mid, Ok(outs)) && self.17.parses(
                        mid,
                        after,
                        Ok(o.17),
                    )
            },
            Err(e) => head.parses(before, after, Err(e)) || exists|
                mid: I,
                o: (O1, O2, O3, O4, O5, O6, O7, O8, O9, O10, O11, O12, O13, O14, O15, O16, O17),
            | #[trigger]
                stops_with(mid, o) && head.parses(before, mid, Ok(o)) && self.17.parses(
                    mid,
                    after,
                    Err(e),
                ),
        }
    }

    fn parse_next(&mut self, input: &mut I) -> (r: PResult<
        (O1, O2, O3, O4, O5, O6, O7, O8, O9, O10, O11, O12, O13, O14, O15, O16, O17, O18),
        E,
    >) {
        let ghost me = *self;
        let ghost x0 = *input;
        let o1 = match self.0.parse_next(input) {
            Ok(o) => o,
            Err(e) => {
                return Err(e);
            },
        };
        let ghost m1 = *input;
        let o2 = match self.1.parse_next(input) {
            Ok(o) => o,
            Err(e) => {
                proof {
                    let outs = (o1,);
                    assert(stops_with(m1, outs));
                    let upto = (me.0, me.1);
                    assert(upto.parses(x0, *input, Err(e)));
                }
                return Err(e);
            },
        };
        let ghost m2 = *input;
        proof {
            assert(stops_at(m1));
            let upto = (me.0, me.1);
            let outs = (o1, o2);
            assert(upto.parses(x0, m2, Ok(outs)));
        }
        let o3 = match self.2.parse_next(input) {
            Ok(o) => o,
            Err(e) => {
                proof {
                    let outs = (o1, o2);
                    assert(stops_with(m2, outs));
                    let upto = (me.0, me.1, me.2);
                    assert(upto.parses(x0, *input, Err(e)));
                }
                return Err(e);
            },
        };
        let ghost m3 = *input;
        proof {
            assert(stops_at(m2));
            let upto = (me.0, me.1, me.2);
            let outs = (o1, o2, o3);
            assert(upto.parses(x0, m3, Ok(outs)));
        }
        let o4 = match self.3.parse_next(input) {
            Ok(o) => o,
            Err(e) => {
                proof {
                    let outs = (o1, o2, o3);
                    assert(stops_with(m3, outs));
                    let upto = (me.0, me.1, me.2, me.3);
                    assert(upto.parses(x0, *input, Err(e)));
                }
                return Err(e);
            },
        };
        let ghost m4 = *input;
        proof {
            assert(stops_at(m3));
            let upto = (me.0, me.1, me.2, me.3);
            let outs = (o1, o2, o3, o4);
            assert(upto.parses(x0, m4, Ok(outs)));
        }
        let o5 = match self.4.parse_next(input) {
            Ok(o) => o,
            Err(e) => {
                proof {
                    let outs = (o1, o2, o3, o4);
                    assert(stops_with(m4, outs));
                    let upto = (me.0, me.1, me.2, me.3, me.4);
                    assert(upto.parses(x0, *input, Err(e)));
                }
                return Err(e);
            },
        };
        let ghost m5 = *input;
        proof {
            assert(stops_at(m4));
            let upto = (me.0, me.1, me.2, me.3, me.4);
            let outs = (o1, o2, o3, o4, o5);
            assert(upto.parses(x0, m5, Ok(outs)));
        }
        let o6 = match self.5.parse_next(input) {
            Ok(o) => o,
            Err(e) => {
                proof {
                    let outs = (o1, o2, o3, o4, o5);
                    assert(stops_with(m5, outs));
                    let upto = (me.0, me.1, me.2, me.3, me.4, me.5);
                    assert(upto.parses(x0, *input, Err(e)));
                }
                return Err(e);
            },
        };
        let ghost m6 = *input;
        proof {
            assert(stops_at(m5));
            let upto = (me.0, me.1, me.2, me.3, me.4, me.5);
            let outs = (o1, o2, o3, o4, o5, o6);
            assert(upto.parses(x0, m6, Ok(outs)));
        }
        let o7 = match self.6.parse_next(input) {
            Ok(o) => o,
            Err(e) => {
                proof {
                    let outs = (o1, o2, o3, o4, o5, o6);
                    assert(stops_with(m6, outs));
                    let upto = (me.0, me.1, me.2, me.3, me.4, me.5, me.6);
                    assert(upto.parses(x0, *input, Err(e)));
                }
                return Err(e);
            },
        };
        let ghost m7 = *input;
        proof {
            assert(stops_at(m6));
            let upto = (me.0, me.1, me.2, me.3, me.4, me.5, me.6);
            let outs = (o1, o2, o3, o4, o5, o6, o7);
            assert(upto.parses(x0, m7, Ok(outs)));
        }
        let o8 = match self.7.parse_next(input) {
            Ok(o) => o,
            Err(e) => {
                proof {
                    let outs = (o1, o2, o3, o4, o5, o6, o7);
                    assert(stops_with(m7, outs));
                    let upto = (me.0, me.1, me.2, me.3, me.4, me.5, me.6, me.7);
                    assert(upto.parses(x0, *input, Err(e)));
                }
                return Err(e);
            },
        };
        let ghost m8 = *input;
        proof {
            assert(stops_at(m7));
            let upto = (me.0, me.1, me.2, me.3, me.4, me.5, me.6, me.7);
            let outs = (o1, o2, o3, o4, o5, o6, o7, o8);
            assert(upto.parses(x0, m8, Ok(outs)));
        }
        let o9 = match self.8.parse_next(input) {
            Ok(o) => o,
            Err(e) => {
                proof {
                    let outs = (o1, o2, o3, o4, o5, o6, o7, o8);
                    assert(stops_with(m8, outs));
                    let upto = (me.0, me.1, me.2, me.3, me.4, me.5, me.6, me.7, me.8);
                    assert(upto.parses(x0, *input, Err(e)));
                }
                return Err(e);
            },
        };
        let ghost m9 = *input;
        proof {
            assert(stops_at(m8));
            let upto = (me.0, me.1, me.2, me.3, me.4, me.5, me.6, me.7, me.8);
            let outs = (o1, o2, o3, o4, o5, o6, o7, o8, o9);
            assert(upto.parses(x0, m9, Ok(outs)));
        }
        let o10 = match self.9.parse_next(input) {
            Ok(o) => o,
            Err(e) => {
                proof {
                    let outs = (o1, o2, o3, o4, o5, o6, o7, o8, o9);
                    assert(stops_with(m9, outs));
                    let upto = (me.0, me.1, me.2, me.3, me.4, me.5, me.6, me.7, me.8, me.9);
                    assert(upto.parses(x0, *input, Err(e)));
                }
                return Err(e);
            },
        };
        let ghost m10 = *input;
        proof {
            assert(stops_at(m9));
            let upto = (me.0, me.1, me.2, me.3, me.4, me.5, me.6, me.7, me.8, me.9);
            let outs = (o1, o2, o3, o4, o5, o6, o7, o8, o9, o10);
            assert(upto.parses(x0, m10, Ok(outs)));
        }
        let o11 = match self.10.parse_next(input) {
            Ok(o) => o,
            Err(e) => {
                proof {
                    let outs = (o1, o2, o3, o4, o5, o6, o7, o8, o9, o10);
                    assert(stops_with(m10, outs));
                    let upto = (me.0, me.1, me.2, me.3, me.4, me.5, me.6, me.7, me.8, me.9, me.10);
                    assert(upto.parses(x0, *input, Err(e)));
                }
                return Err(e);
            },
        };
        let ghost m11 = *input;
        proof {
            assert(stops_at(m10));
            let upto = (me.0, me.1, me.2, me.3, me.4, me.5, me.6, me.7, me.8, me.9, me.10);
            let outs = (o1, o2, o3, o4, o5, o6, o7, o8, o9, o10, o11);
            assert(upto.parses(x0, m11, Ok(outs)));
        }
        let o12 = match self.11.parse_next(input) {
            Ok(o) => o,
            Err(e) => {
                proof {
                    let outs = (o1, o2, o3, o4, o5, o6, o7, o8, o9, o10, o11);
                    assert(stops_with(m11, outs));
                    let upto = (
                        me.0, me.1, me.2, me.3, me.4, me.5, me.6, me.7, me.8, me.9, me.10, me.11,
                    );
                    assert(upto.parses(x0, *input, Err(e)));
                }
                return Err(e);
            },
        };
        let ghost m12 = *input;
        proof {
            assert(stops_at(m11));
            let upto = (me.0, me.1, me.2, me.3, me.4, me.5, me.6, me.7, me.8, me.9, me.10, me.11);
            let outs = (o1, o2, o3, o4, o5, o6, o7, o8, o9, o10, o11, o12);
            assert(upto.parses(x0, m12, Ok(outs)));
        }
        let o13 = match self.12.parse_next(input) {
            Ok(o) => o,
            Err(e) => {
                proof {
                    let outs = (o1, o2, o3, o4, o5, o6, o7, o8, o9, o10, o11, o12);
                    assert(stops_with(m12, outs));
                    let upto = (
                        me.0, me.1, me.2, me.3, me.4, me.5, me.6, me.7, me.8, me.9, me.10, me.11,
                        me.12,
                    );
                    assert(upto.parses(x0, *input, Err(e)));
                }
                return Err(e);
            },
        };
        let ghost m13 = *input;
        proof {
            assert(stops_at(m12));
            let upto = (
                me.0, me.1, me.2, me.3, me.4, me.5, me.6, me.7, me.8, me.9, me.10, me.11, me.12,
            );
            let outs = (o1, o2, o3, o4, o5, o6, o7, o8, o9, o10, o11, o12, o13);
            assert(upto.parses(x0, m13, Ok(outs)));
        }
        let o14 = match self.13.parse_next(input) {
            Ok(o) => o,
            Err(e) => {
                proof {
                    let outs = (o1, o2, o3, o4, o5, o6, o7, o8, o9, o10, o11, o12, o13);
                    assert(stops_with(m13, outs));
                    let upto = (
                        me.0, me.1, me.2, me.3, me.4, me.5, me.6, me.7, me.8, me.9, me.10, me.11,
                        me.12, me.13,
                    );
                    assert(upto.parses(x0, *input, Err(e)));
                }
                return Err(e);
            },
        };
        let ghost m14 = *input;
        proof {
            assert(stops_at(m13));
            let upto = (
                me.0, me.1, me.2, me.3, me.4, me.5, me.6, me.7, me.8, me.9, me.10, me.11, me.12,
                me.13,
            );
            let outs = (o1, o2, o3, o4, o5, o6, o7, o8, o9, o10, o11, o12, o13, o14);
            assert(upto.parses(x0, m14, Ok(outs)));
        }
        let o15 = match self.14.parse_next(input) {
            Ok(o) => o,
            Err(e) => {
                proof {
                    let outs = (o1, o2, o3, o4, o5, o6, o7, o8, o9, o10, o11, o12, o13, o14);
                    assert(stops_with(m14, outs));
                    let upto = (
                        me.0, me.1, me.2, me.3, me.4, me.5, me.6, me.7, me.8, me.9, me.10, me.11,
                        me.12, me.13, me.14,
                    );
                    assert(upto.parses(x0, *input, Err(e)));
                }
                return Err(e);
            },
        };
        let ghost m15 = *input;
        proof {
            assert(stops_at(m14));
            let upto = (
                me.0, me.1, me.2, me.3, me.4, me.5, me.6, me.7, me.8, me.9, me.10, me.11, me.12,
                me.13, me.14,
            );
            let outs = (o1, o2, o3, o4, o5, o6, o7, o8, o9, o10, o11, o12, o13, o14, o15);
            assert(upto.parses(x0, m15, Ok(outs)));
        }
        let o16 = match self.15.parse_next(input) {
            Ok(o) => o,
            Err(e) => {
                proof {
                    let outs = (o1, o2, o3, o4, o5, o6, o7, o8, o9, o10, o11, o12, o13, o14, o15);
                    assert(stops_with(m15, outs));
                    let upto = (
                        me.0, me.1, me.2, me.3, me.4, me.5, me.6, me.7, me.8, me.9, me.10, me.11,
                        me.12, me.13, me.14, me.15,
                    );
                    assert(upto.parses(x0, *input, Err(e)));
                }
                return Err(e);
            },
        };
        let ghost m16 = *input;
        proof {
            assert(stops_at(m15));
            let upto = (
                me.0, me.1, me.2, me.3, me.4, me.5, me.6, me.7, me.8, me.9, me.10, me.11, me.12,
                me.13, me.14, me.15,
            );
            let outs = (o1, o2, o3, o4, o5, o6, o7, o8, o9, o10, o11, o12, o13, o14, o15, o16);
            assert(upto.parses(x0, m16, Ok(outs)));
        }
        let o17 = match self.16.parse_next(input) {
            Ok(o) => o,
            Err(e) => {
                proof {
                    let outs = (
                        o1, o2, o3, o4, o5, o6, o7, o8, o9, o10, o11, o12, o13, o14, o15, o16,
                    );
                    assert(stops_with(m16, outs));
                    let upto = (
                        me.0, me.1, me.2, me.3, me.4, me.5, me.6, me.7, me.8, me.9, me.10, me.11,
                        me.12, me.13, me.14, me.15, me.16,
                    );
                    assert(upto.parses(x0, *input, Err(e)));
                }
                return Err(e);
            },
        };
        let ghost m17 = *input;
        proof {
            assert(stops_at(m16));
            let upto = (
                me.0, me.1, me.2, me.3, me.4, me.5, me.6, me.7, me.8, me.9, me.10, me.11, me.12,
                me.13, me.14, me.15, me.16,
            );
            let outs = (o1, o2, o3, o4, o5, o6, o7, o8, o9, o10, o11, o12, o13, o14, o15, o16, o17);
            assert(upto.parses(x0, m17, Ok(outs)));
        }
        let o18 = match self.17.parse_next(input) {
            Ok(o) => o,
            Err(e) => {
                proof {
                    let outs = (
                        o1, o2, o3, o4, o5, o6, o7, o8, o9, o10, o11, o12, o13, o14, o15, o16, o17,
                    );
                    assert(stops_with(m17, outs));
                }
                return Err(e);
            },
        };
        let ghost m18 = *input;
        proof {
            assert(stops_at(m17));
            let upto = (
                me.0, me.1, me.2, me.3, me.4, me.5, me.6, me.7, me.8, me.9, me.10, me.11, me.12,
                me.13, me.14, me.15, me.16, me.17,
            );
            let outs = (
                o1, o2, o3, o4, o5, o6, o7, o8, o9, o10, o11, o12, o13, o14, o15, o16, o17, o18,
            );
            assert(upto.parses(x0, m18, Ok(outs)));
        }
        Ok((o1, o2, o3, o4, o5, o6, o7, o8, o9, o10, o11, o12, o13, o14, o15, o16, o17, o18))
    }
}

impl<
    I, O1, O2, O3, O4, O5, O6, O7, O8, O9, O10, O11, O12, O13, O14, O15, O16, O17, O18, O19, E, A1,
    A2, A3, A4, A5, A6, A7, A8, A9, A10, A11, A12, A13, A14, A15, A16, A17, A18, A19,
> Parser<
    I,
    (O1, O2, O3, O4, O5, O6, O7, O8, O9, O10, O11, O12, O13, O14, O15, O16, O17, O18, O19),
    E,
> for
    (A1, A2, A3, A4, A5, A6, A7, A8, A9, A10, A11, A12, A13, A14, A15, A16, A17, A18, A19) where
    A1: Parser<I, O1, E>,
    A2: Parser<I, O2, E>,
    A3: Parser<I, O3, E>,
    A4: Parser<I, O4, E>,
    A5: Parser<I, O5, E>,
    A6: Parser<I, O6, E>,
    A7: Parser<I, O7, E>,
    A8: Parser<I, O8, E>,
    A9: Parser<I, O9, E>,
    A10: Parser<I, O10, E>,
    A11: Parser<I, O11, E>,
    A12: Parser<I, O12, E>,
    A13: Parser<I, O13, E>,
    A14: Parser<I, O14, E>,
    A15: Parser<I, O15, E>,
    A16: Parser<I, O16, E>,
    A17: Parser<I, O17, E>,
    A18: Parser<I, O18, E>,
    A19: Parser<I, O19, E>,
 {
    open spec fn wf(&self) -> bool {
        &&& self.0.wf()
        &&& self.1.wf()
        &&& self.2.wf()
        &&& self.3.wf()
        &&& self.4.wf()
        &&& self.5.wf()
        &&& self.6.wf()
        &&& self.7.wf()
        &&& self.8.wf()
        &&& self.9.wf()
        &&& self.10.wf()
        &&& self.11.wf()
        &&& self.12.wf()
        &&& self.13.wf()
        &&& self.14.wf()
        &&& self.15.wf()
        &&& self.16.wf()
        &&& self.17.wf()
        &&& self.18.wf()
    }

    open spec fn parses(
        &self,
        before: I,
        after: I,
        r: PResult<
            (O1, O2, O3, O4, O5, O6, O7, O8, O9, O10, O11, O12, O13, O14, O15, O16, O17, O18, O19),
            E,
        >,
    ) -> bool {
        let head = (
            self.0, self.1, self.2, self.3, self.4, self.5, self.6, self.7, self.8, self.9, self.10,
            self.11, self.12, self.13, self.14, self.15, self.16, self.17,
        );
        match r {
            Ok(o) => {
                let outs = (
                    o.0, o.1, o.2, o.3, o.4, o.5, o.6, o.7, o.8, o.9, o.10, o.11, o.12, o.13, o.14,
                    o.15, o.16, o.17,
                );
                exists|mid: I| #[trigger]
                    stops_at(mid) && head.parses(before, mid, Ok(outs)) && self.18.parses(
                        mid,
                        after,
                        Ok(o.18),
                    )
            },
            Err(e) => head.parses(before, after, Err(e)) || exists|
                mid: I,
                o: (
                    O1, O2, O3, O4, O5, O6, O7, O8, O9, O10, O11, O12, O13, O14, O15, O16, O17, O18,
                ),
            | #[trigger]
                stops_with(mid, o) && head.parses(before, mid, Ok(o)) && self.18.parses(
                    mid,
                    after,
                    Err(e),
                ),
        }
    }

    fn parse_next(&mut self, input: &mut I) -> (r: PResult<
        (O1, O2, O3, O4, O5, O6, O7, O8, O9, O10, O11, O12, O13, O14, O15, O16, O17, O18, O19),
        E,
    >) {
        let ghost me = *self;
        let ghost x0 = *input;
        let o1 = match self.0.parse_next(input) {
            Ok(o) => o,
            Err(e) => {
                return Err(e);
            },
        };
        let ghost m1 = *input;
        let o2 = match self.1.parse_next(input) {
            Ok(o) => o,
            Err(e) => {
                proof {
                    let outs = (o1,);
                    assert(stops_with(m1, outs));
                    let upto = (me.0, me.1);
                    assert(upto.parses(x0, *input, Err(e)));
                }
                return Err(e);
            },
        };
        let ghost m2 = *input;
        proof {
            assert(stops_at(m1));
            let upto = (me.0, me.1);
            let outs = (o1, o2);
            assert(upto.parses(x0, m2, Ok(outs)));
        }
        let o3 = match self.2.parse_next(input) {
            Ok(o) => o,
            Err(e) => {
                proof {
                    let outs = (o1, o2);
                    assert(stops_with(m2, outs));
                    let upto = (me.0, me.1, me.2);
                    assert(upto.parses(x0, *input, Err(e)));
                }
                return Err(e);
            },
        };
        let ghost m3 = *input;
        proof {
            assert(stops_at(m2));
            let upto = (me.0, me.1, me.2);
            let outs = (o1, o2, o3);
            assert(upto.parses(x0, m3, Ok(outs)));
        }
        let o4 = match self.3.parse_next(input) {
            Ok(o) => o,
            Err(e) => {
                proof {
                    let outs = (o1, o2, o3);
                    assert(stops_with(m3, outs));
                    let upto = (me.0, me.1, me.2, me.3);
                    assert(upto.parses(x0, *input, Err(e)));
                }
                return Err(e);
            },
        };
        let ghost m4 = *input;
        proof {
            assert(stops_at(m3));
            let upto = (me.0, me.1, me.2, me.3);
            let outs = (o1, o2, o3, o4);
            assert(upto.parses(x0, m4, Ok(outs)));
        }
        let o5 = match self.4.parse_next(input) {
            Ok(o) => o,
            Err(e) => {
                proof {
                    let outs = (o1, o2, o3, o4);
                    assert(stops_with(m4, outs));
                    let upto = (me.0, me.1, me.2, me.3, me.4);
                    assert(upto.parses(x0, *input, Err(e)));
                }
                return Err(e);
            },
        };
        let ghost m5 = *input;
        proof {
            assert(stops_at(m4));
            let upto = (me.0, me.1, me.2, me.3, me.4);
            let outs = (o1, o2, o3, o4, o5);
            assert(upto.parses(x0, m5, Ok(outs)));
        }
        let o6 = match self.5.parse_next(input) {
            Ok(o) => o,
            Err(e) => {
                proof {
                    let outs = (o1, o2, o3, o4, o5);
                    assert(stops_with(m5, outs));
                    let upto = (me.0, me.1, me.2, me.3, me.4, me.5);
                    assert(upto.parses(x0, *input, Err(e)));
                }
                return Err(e);
            },
        };
        let ghost m6 = *input;
        proof {
            assert(stops_at(m5));
            let upto = (me.0, me.1, me.2, me.3, me.4, me.5);
            let outs = (o1, o2, o3, o4, o5, o6);
            assert(upto.parses(x0, m6, Ok(outs)));
        }
        let o7 = match self.6.parse_next(input) {
            Ok(o) => o,
            Err(e) => {
                proof {
                    let outs = (o1, o2, o3, o4, o5, o6);
                    assert(stops_with(m6, outs));
                    let upto = (me.0, me.1, me.2, me.3, me.4, me.5, me.6);
                    assert(upto.parses(x0, *input, Err(e)));
                }
                return Err(e);
            },
        };
        let ghost m7 = *input;
        proof {
            assert(stops_at(m6));
            let upto = (me.0, me.1, me.2, me.3, me.4, me.5, me.6);
            let outs = (o1, o2, o3, o4, o5, o6, o7);
            assert(upto.parses(x0, m7, Ok(outs)));
        }
        let o8 = match self.7.parse_next(input) {
            Ok(o) => o,
            Err(e) => {
                proof {
                    let outs = (o1, o2, o3, o4, o5, o6, o7);
                    assert(stops_with(m7, outs));
                    let upto = (me.0, me.1, me.2, me.3, me.4, me.5, me.6, me.7);
                    assert(upto.parses(x0, *input, Err(e)));
                }
                return Err(e);
            },
        };
        let ghost m8 = *input;
        proof {
            assert(stops_at(m7));
            let upto = (me.0, me.1, me.2, me.3, me.4, me.5, me.6, me.7);
            let outs = (o1, o2, o3, o4, o5, o6, o7, o8);
            assert(upto.parses(x0, m8, Ok(outs)));
        }
        let o9 = match self.8.parse_next(input) {
            Ok(o) => o,
            Err(e) => {
                proof {
                    let outs = (o1, o2, o3, o4, o5, o6, o7, o8);
                    assert(stops_with(m8, outs));
                    let upto = (me.0, me.1, me.2, me.3, me.4, me.5, me.6, me.7, me.8);
                    assert(upto.parses(x0, *input, Err(e)));
                }
                return Err(e);
            },
        };
        let ghost m9 = *input;
        proof {
            assert(stops_at(m8));
            let upto = (me.0, me.1, me.2, me.3, me.4, me.5, me.6, me.7, me.8);
            let outs = (o1, o2, o3, o4, o5, o6, o7, o8, o9);
            assert(upto.parses(x0, m9, Ok(outs)));
        }
        let o10 = match self.9.parse_next(input) {
            Ok(o) => o,
            Err(e) => {
                proof {
                    let outs = (o1, o2, o3, o4, o5, o6, o7, o8, o9);
                    assert(stops_with(m9, outs));
                    let upto = (me.0, me.1, me.2, me.3, me.4, me.5, me.6, me.7, me.8, me.9);
                    assert(upto.parses(x0, *input, Err(e)));
                }
                return Err(e);
            },
        };
        let ghost m10 = *input;
        proof {
            assert(stops_at(m9));
            let upto = (me.0, me.1, me.2, me.3, me.4, me.5, me.6, me.7, me.8, me.9);
            let outs = (o1, o2, o3, o4, o5, o6, o7, o8, o9, o10);
            assert(upto.parses(x0, m10, Ok(outs)));
        }
        let o11 = match self.10.parse_next(input) {
            Ok(o) => o,
            Err(e) => {
                proof {
                    let outs = (o1, o2, o3, o4, o5, o6, o7, o8, o9, o10);
                    assert(stops_with(m10, outs));
                    let upto = (me.0, me.1, me.2, me.3, me.4, me.5, me.6, me.7, me.8, me.9, me.10);
                    assert(upto.parses(x0, *input, Err(e)));
                }
                return Err(e);
            },
        };
        let ghost m11 = *input;
        proof {
            assert(stops_at(m10));
            let upto = (me.0, me.1, me.2, me.3, me.4, me.5, me.6, me.7, me.8, me.9, me.10);
            let outs = (o1, o2, o3, o4, o5, o6, o7, o8, o9, o10, o11);
            assert(upto.parses(x0, m11, Ok(outs)));
        }
        let o12 = match self.11.parse_next(input) {
            Ok(o) => o,
            Err(e) => {
                proof {
                    let outs = (o1, o2, o3, o4, o5, o6, o7, o8, o9, o10, o11);
                    assert(stops_with(m11, outs));
                    let upto = (
                        me.0, me.1, me.2, me.3, me.4, me.5, me.6, me.7, me.8, me.9, me.10, me.11,
                    );
                    assert(upto.parses(x0, *input, Err(e)));
                }
                return Err(e);
            },
        };
        let ghost m12 = *input;
        proof {
            assert(stops_at(m11));
            let upto = (me.0, me.1, me.2, me.3, me.4, me.5, me.6, me.7, me.8, me.9, me.10, me.11);
            let outs = (o1, o2, o3, o4, o5, o6, o7, o8, o9, o10, o11, o12);
            assert(upto.parses(x0, m12, Ok(outs)));
        }
        let o13 = match self.12.parse_next(input) {
            Ok(o) => o,
            Err(e) => {
                proof {
                    let outs = (o1, o2, o3, o4, o5, o6, o7, o8, o9, o10, o11, o12);
                    assert(stops_with(m12, outs));
                    let upto = (
                        me.0, me.1, me.2, me.3, me.4, me.5, me.6, me.7, me.8, me.9, me.10, me.11,
                        me.12,
                    );
                    assert(upto.parses(x0, *input, Err(e)));
                }
                return Err(e);
            },
        };
        let ghost m13 = *input;
        proof {
            assert(stops_at(m12));
            let upto = (
                me.0, me.1, me.2, me.3, me.4, me.5, me.6, me.7, me.8, me.9, me.10, me.11, me.12,
            );
            let outs = (o1, o2, o3, o4, o5, o6, o7, o8, o9, o10, o11, o12, o13);
            assert(upto.parses(x0, m13, Ok(outs)));
        }
        let o14 = match self.13.parse_next(input) {
            Ok(o) => o,
            Err(e) => {
                proof {
                    let outs = (o1, o2, o3, o4, o5, o6, o7, o8, o9, o10, o11, o12, o13);
                    assert(stops_with(m13, outs));
                    let upto = (
                        me.0, me.1, me.2, me.3, me.4, me.5, me.6, me.7, me.8, me.9, me.10, me.11,
                        me.12, me.13,
                    );
                    assert(upto.parses(x0, *input, Err(e)));
                }
                return Err(e);
            },
        };
        let ghost m14 = *input;
        proof {
            assert(stops_at(m13));
            let upto = (
                me.0, me.1, me.2, me.3, me.4, me.5, me.6, me.7, me.8, me.9, me.10, me.11, me.12,
                me.13,
            );
            let outs = (o1, o2, o3, o4, o5, o6, o7, o8, o9, o10, o11, o12, o13, o14);
            assert(upto.parses(x0, m14, Ok(outs)));
        }
        let o15 = match self.14.parse_next(input) {
            Ok(o) => o,
            Err(e) => {
                proof {
                    let outs = (o1, o2, o3, o4, o5, o6, o7, o8, o9, o10, o11, o12, o13, o14);
                    assert(stops_with(m14, outs));
                    let upto = (
                        me.0, me.1, me.2, me.3, me.4, me.5, me.6, me.7, me.8, me.9, me.10, me.11,
                        me.12, me.13, me.14,
                    );
                    assert(upto.parses(x0, *input, Err(e)));
                }
                return Err(e);
            },
        };
        let ghost m15 = *input;
        proof {
            assert(stops_at(m14));
            let upto = (
                me.0, me.1, me.2, me.3, me.4, me.5, me.6, me.7, me.8, me.9, me.10, me.11, me.12,
                me.13, me.14,
            );
            let outs = (o1, o2, o3, o4, o5, o6, o7, o8, o9, o10, o11, o12, o13, o14, o15);
            assert(upto.parses(x0, m15, Ok(outs)));
        }
        let o16 = match self.15.parse_next(input) {
            Ok(o) => o,
            Err(e) => {
                proof {
                    let outs = (o1, o2, o3, o4, o5, o6, o7, o8, o9, o10, o11, o12, o13, o14, o15);
                    assert(stops_with(m15, outs));
                    let upto = (
                        me.0, me.1, me.2, me.3, me.4, me.5, me.6, me.7, me.8, me.9, me.10, me.11,
                        me.12, me.13, me.14, me.15,
                    );
                    assert(upto.parses(x0, *input, Err(e)));
                }
                return Err(e);
            },
        };
        let ghost m16 = *input;
        proof {
            assert(stops_at(m15));
            let upto = (
                me.0, me.1, me.2, me.3, me.4, me.5, me.6, me.7, me.8, me.9, me.10, me.11, me.12,
                me.13, me.14, me.15,
            );
            let outs = (o1, o2, o3, o4, o5, o6, o7, o8, o9, o10, o11, o12, o13, o14, o15, o16);
            assert(upto.parses(x0, m16, Ok(outs)));
        }
        let o17 = match self.16.parse_next(input) {
            Ok(o) => o,
            Err(e) => {
                proof {
                    let outs = (
                        o1, o2, o3, o4, o5, o6, o7, o8, o9, o10, o11, o12, o13, o14, o15, o16,
                    );
                    assert(stops_with(m16, outs));
                    let upto = (
                        me.0, me.1, me.2, me.3, me.4, me.5, me.6, me.7, me.8, me.9, me.10, me.11,
                        me.12, me.13, me.14, me.15, me.16,
                    );
                    assert(upto.parses(x0, *input, Err(e)));
                }
                return Err(e);
            },
        };
        let ghost m17 = *input;
        proof {
            assert(stops_at(m16));
            let upto = (
                me.0, me.1, me.2, me.3, me.4, me.5, me.6, me.7, me.8, me.9, me.10, me.11, me.12,
                me.13, me.14, me.15, me.16,
            );
            let outs = (o1, o2, o3, o4, o5, o6, o7, o8, o9, o10, o11, o12, o13, o14, o15, o16, o17);
            assert(upto.parses(x0, m17, Ok(outs)));
        }
        let o18 = match self.17.parse_next(input) {
            Ok(o) => o,
            Err(e) => {
                proof {
                    let outs = (
                        o1, o2, o3, o4, o5, o6, o7, o8, o9, o10, o11, o12, o13, o14, o15, o16, o17,
                    );
                    assert(stops_with(m17, outs));
                    let upto = (
                        me.0, me.1, me.2, me.3, me.4, me.5, me.6, me.7, me.8, me.9, me.10, me.11,
                        me.12, me.13, me.14, me.15, me.16, me.17,
                    );
                    assert(upto.parses(x0, *input, Err(e)));
                }
                return Err(e);
            },
        };
        let ghost m18 = *input;
        proof {
            assert(stops_at(m17));
            let upto = (
                me.0, me.1, me.2, me.3, me.4, me.5, me.6, me.7, me.8, me.9, me.10, me.11, me.12,
                me.13, me.14, me.15, me.16, me.17,
            );
            let outs = (
                o1, o2, o3, o4, o5, o6, o7, o8, o9, o10, o11, o12, o13, o14, o15, o16, o17, o18,
            );
            assert(upto.parses(x0, m18, Ok(outs)));
        }
        let o19 = match self.18.parse_next(input) {
            Ok(o) => o,
            Err(e) => {
                proof {
                    let outs = (
                        o1, o2, o3, o4, o5, o6, o7, o8, o9, o10, o11, o12, o13, o14, o15, o16, o17,
                        o18,
                    );
                    assert(stops_with(m18, outs));
                }
                return Err(e);
            },
        };
        let ghost m19 = *input;
        proof {
            assert(stops_at(m18));
            let upto = (
                me.0, me.1, me.2, me.3, me.4, me.5, me.6, me.7, me.8, me.9, me.10, me.11, me.12,
                me.13, me.14, me.15, me.16, me.17, me.18,
            );
            let outs = (
                o1, o2, o3, o4, o5, o6, o7, o8, o9, o10, o11, o12, o13, o14, o15, o16, o17, o18,
                o19,
            );
            assert(upto.parses(x0, m19, Ok(outs)));
        }
        Ok((o1, o2, o3, o4, o5, o6, o7, o8, o9, o10, o11, o12, o13, o14, o15, o16, o17, o18, o19))
    }
}

impl<
    I, O1, O2, O3, O4, O5, O6, O7, O8, O9, O10, O11, O12, O13, O14, O15, O16, O17, O18, O19, O20, E,
    A1, A2, A3, A4, A5, A6, A7, A8, A9, A10, A11, A12, A13, A14, A15, A16, A17, A18, A19, A20,
> Parser<
    I,
    (O1, O2, O3, O4, O5, O6, O7, O8, O9, O10, O11, O12, O13, O14, O15, O16, O17, O18, O19, O20),
    E,
> for
    (
        A1, A2, A3, A4, A5, A6, A7, A8, A9, A10, A11, A12, A13, A14, A15, A16, A17, A18, A19, A20,
    ) where
    A1: Parser<I, O1, E>,
    A2: Parser<I, O2, E>,
    A3: Parser<I, O3, E>,
    A4: Parser<I, O4, E>,
    A5: Parser<I, O5, E>,
    A6: Parser<I, O6, E>,
    A7: Parser<I, O7, E>,
    A8: Parser<I, O8, E>,
    A9: Parser<I, O9, E>,
    A10: Parser<I, O10, E>,
    A11: Parser<I, O11, E>,
    A12: Parser<I, O12, E>,
    A13: Parser<I, O13, E>,
    A14: Parser<I, O14, E>,
    A15: Parser<I, O15, E>,
    A16: Parser<I, O16, E>,
    A17: Parser<I, O17, E>,
    A18: Parser<I, O18, E>,
    A19: Parser<I, O19, E>,
    A20: Parser<I, O20, E>,
 {
    open spec fn wf(&self) -> bool {
        &&& self.0.wf()
        &&& self.1.wf()
        &&& self.2.wf()
        &&& self.3.wf()
        &&& self.4.wf()
        &&& self.5.wf()
        &&& self.6.wf()
        &&& self.7.wf()
        &&& self.8.wf()
        &&& self.9.wf()
        &&& self.10.wf()
        &&& self.11.wf()
        &&& self.12.wf()
        &&& self.13.wf()
        &&& self.14.wf()
        &&& self.15.wf()
        &&& self.16.wf()
        &&& self.17.wf()
        &&& self.18.wf()
        &&& self.19.wf()
    }

    open spec fn parses(
        &self,
        before: I,
        after: I,
        r: PResult<
            (
                O1, O2, O3, O4, O5, O6, O7, O8, O9, O10, O11, O12, O13, O14, O15, O16, O17, O18,
                O19, O20,
            ),
            E,
        >,
    ) -> bool {
        let head = (
            self.0, self.1, self.2, self.3, self.4, self.5, self.6, self.7, self.8, self.9, self.10,
            self.11, self.12, self.13, self.14, self.15, self.16, self.17, self.18,
        );
        match r {
            Ok(o) => {
                let outs = (
                    o.0, o.1, o.2, o.3, o.4, o.5, o.6, o.7, o.8, o.9, o.10, o.11, o.12, o.13, o.14,
                    o.15, o.16, o.17, o.18,
                );
                exists|mid: I| #[trigger]
                    stops_at(mid) && head.parses(before, mid, Ok(outs)) && self.19.parses(
                        mid,
                        after,
                        Ok(o.19),
                    )
            },
            Err(e) => head.parses(before, after, Err(e)) || exists|
                mid: I,
                o: (
                    O1, O2, O3, O4, O5, O6, O7, O8, O9, O10, O11, O12, O13, O14, O15, O16, O17, O18,
                    O19,
                ),
            | #[trigger]
                stops_with(mid, o) && head.parses(before, mid, Ok(o)) && self.19.parses(
                    mid,
                    after,
                    Err(e),
                ),
        }
    }

    fn parse_next(&mut self, input: &mut I) -> (r: PResult<
        (O1, O2, O3, O4, O5, O6, O7, O8, O9, O10, O11, O12, O13, O14, O15, O16, O17, O18, O19, O20),
        E,
    >) {
        let ghost me = *self;
        let ghost x0 = *input;
        let o1 = match self.0.parse_next(input) {
            Ok(o) => o,
            Err(e) => {
                return Err(e);
            },
        };
        let ghost m1 = *input;
        let o2 = match self.1.parse_next(input) {
            Ok(o) => o,
            Err(e) => {
                proof {
                    let outs = (o1,);
                    assert(stops_with(m1, outs));
                    let upto = (me.0, me.1);
                    assert(upto.parses(x0, *input, Err(e)));
                }
                return Err(e);
            },
        };
        let ghost m2 = *input;
        proof {
            assert(stops_at(m1));
            let upto = (me.0, me.1);
            let outs = (o1, o2);
            assert(upto.parses(x0, m2, Ok(outs)));
        }
        let o3 = match self.2.parse_next(input) {
            Ok(o) => o,
            Err(e) => {
                proof {
                    let outs = (o1, o2);
                    assert(stops_with(m2, outs));
                    let upto = (me.0, me.1, me.2);
                    assert(upto.parses(x0, *input, Err(e)));
                }
                return Err(e);
            },
        };
        let ghost m3 = *input;
        proof {
            assert(stops_at(m2));
            let upto = (me.0, me.1, me.2);
            let outs = (o1, o2, o3);
            assert(upto.parses(x0, m3, Ok(outs)));
        }
        let o4 = match self.3.parse_next(input) {
            Ok(o) => o,
            Err(e) => {
                proof {
                    let outs = (o1, o2, o3);
                    assert(stops_with(m3, outs));
                    let upto = (me.0, me.1, me.2, me.3);
                    assert(upto.parses(x0, *input, Err(e)));
                }
                return Err(e);
            },
        };
        let ghost m4 = *input;
        proof {
            assert(stops_at(m3));
            let upto = (me.0, me.1, me.2, me.3);
            let outs = (o1, o2, o3, o4);
            assert(upto.parses(x0, m4, Ok(outs)));
        }
        let o5 = match self.4.parse_next(input) {
            Ok(o) => o,
            Err(e) => {
                proof {
                    let outs = (o1, o2, o3, o4);
                    assert(stops_with(m4, outs));
                    let upto = (me.0, me.1, me.2, me.3, me.4);
                    assert(upto.parses(x0, *input, Err(e)));
                }
                return Err(e);
            },
        };
        let ghost m5 = *input;
        proof {
            assert(stops_at(m4));
            let upto = (me.0, me.1, me.2, me.3, me.4);
            let outs = (o1, o2, o3, o4, o5);
            assert(upto.parses(x0, m5, Ok(outs)));
        }
        let o6 = match self.5.parse_next(input) {
            Ok(o) => o,
            Err(e) => {
                proof {
                    let outs = (o1, o2, o3, o4, o5);
                    assert(stops_with(m5, outs));
                    let upto = (me.0, me.1, me.2, me.3, me.4, me.5);
                    assert(upto.parses(x0, *input, Err(e)));
                }
                return Err(e);
            },
        };
        let ghost m6 = *input;
        proof {
            assert(stops_at(m5));
            let upto = (me.0, me.1, me.2, me.3, me.4, me.5);
            let outs = (o1, o2, o3, o4, o5, o6);
            assert(upto.parses(x0, m6, Ok(outs)));
        }
        let o7 = match self.6.parse_next(input) {
            Ok(o) => o,
            Err(e) => {
                proof {
                    let outs = (o1, o2, o3, o4, o5, o6);
                    assert(stops_with(m6, outs));
                    let upto = (me.0, me.1, me.2, me.3, me.4, me.5, me.6);
                    assert(upto.parses(x0, *input, Err(e)));
                }
                return Err(e);
            },
        };
        let ghost m7 = *input;
        proof {
            assert(stops_at(m6));
            let upto = (me.0, me.1, me.2, me.3, me.4, me.5, me.6);
            let outs = (o1, o2, o3, o4, o5, o6, o7);
            assert(upto.parses(x0, m7, Ok(outs)));
        }
        let o8 = match self.7.parse_next(input) {
            Ok(o) => o,
            Err(e) => {
                proof {
                    let outs = (o1, o2, o3, o4, o5, o6, o7);
                    assert(stops_with(m7, outs));
                    let upto = (me.0, me.1, me.2, me.3, me.4, me.5, me.6, me.7);
                    assert(upto.parses(x0, *input, Err(e)));
                }
                return Err(e);
            },
        };
        let ghost m8 = *input;
        proof {
            assert(stops_at(m7));
            let upto = (me.0, me.1, me.2, me.3, me.4, me.5, me.6, me.7);
            let outs = (o1, o2, o3, o4, o5, o6, o7, o8);
            assert(upto.parses(x0, m8, Ok(outs)));
        }
        let o9 = match self.8.parse_next(input) {
            Ok(o) => o,
            Err(e) => {
                proof {
                    let outs = (o1, o2, o3, o4, o5, o6, o7, o8);
                    assert(stops_with(m8, outs));
                    let upto = (me.0, me.1, me.2, me.3, me.4, me.5, me.6, me.7, me.8);
                    assert(upto.parses(x0, *input, Err(e)));
                }
                return Err(e);
            },
        };
        let ghost m9 = *input;
        proof {
            assert(stops_at(m8));
            let upto = (me.0, me.1, me.2, me.3, me.4, me.5, me.6, me.7, me.8);
            let outs = (o1, o2, o3, o4, o5, o6, o7, o8, o9);
            assert(upto.parses(x0, m9, Ok(outs)));
        }
        let o10 = match self.9.parse_next(input) {
            Ok(o) => o,
            Err(e) => {
                proof {
                    let outs = (o1, o2, o3, o4, o5, o6, o7, o8, o9);
                    assert(stops_with(m9, outs));
                    let upto = (me.0, me.1, me.2, me.3, me.4, me.5, me.6, me.7, me.8, me.9);
                    assert(upto.parses(x0, *input, Err(e)));
                }
                return Err(e);
            },
        };
        let ghost m10 = *input;
        proof {
            assert(stops_at(m9));
            let upto = (me.0, me.1, me.2, me.3, me.4, me.5, me.6, me.7, me.8, me.9);
            let outs = (o1, o2, o3, o4, o5, o6, o7, o8, o9, o10);
            assert(upto.parses(x0, m10, Ok(outs)));
        }
        let o11 = match self.10.parse_next(input) {
            Ok(o) => o,
            Err(e) => {
                proof {
                    let outs = (o1, o2, o3, o4, o5, o6, o7, o8, o9, o10);
                    assert(stops_with(m10, outs));
                    let upto = (me.0, me.1, me.2, me.3, me.4, me.5, me.6, me.7, me.8, me.9, me.10);
                    assert(upto.parses(x0, *input, Err(e)));
                }
                return Err(e);
            },
        };
        let ghost m11 = *input;
        proof {
            assert(stops_at(m10));
            let upto = (me.0, me.1, me.2, me.3, me.4, me.5, me.6, me.7, me.8, me.9, me.10);
            let outs = (o1, o2, o3, o4, o5, o6, o7, o8, o9, o10, o11);
            assert(upto.parses(x0, m11, Ok(outs)));
        }
        let o12 = match self.11.parse_next(input) {
            Ok(o) => o,
            Err(e) => {
                proof {
                    let outs = (o1, o2, o3, o4, o5, o6, o7, o8, o9, o10, o11);
                    assert(stops_with(m11, outs));
                    let upto = (
                        me.0, me.1, me.2, me.3, me.4, me.5, me.6, me.7, me.8, me.9, me.10, me.11,
                    );
                    assert(upto.parses(x0, *input, Err(e)));
                }
                return Err(e);
            },
        };
        let ghost m12 = *input;
        proof {
            assert(stops_at(m11));
            let upto = (me.0, me.1, me.2, me.3, me.4, me.5, me.6, me.7, me.8, me.9, me.10, me.11);
            let outs = (o1, o2, o3, o4, o5, o6, o7, o8, o9, o10, o11, o12);
            assert(upto.parses(x0, m12, Ok(outs)));
        }
        let o13 = match self.12.parse_next(input) {
            Ok(o) => o,
            Err(e) => {
                proof {
                    let outs = (o1, o2, o3, o4, o5, o6, o7, o8, o9, o10, o11, o12);
                    assert(stops_with(m12, outs));
                    let upto = (
                        me.0, me.1, me.2, me.3, me.4, me.5, me.6, me.7, me.8, me.9, me.10, me.11,
                        me.12,
                    );
                    assert(upto.parses(x0, *input, Err(e)));
                }
                return Err(e);
            },
        };
        let ghost m13 = *input;
        proof {
            assert(stops_at(m12));
            let upto = (
                me.0, me.1, me.2, me.3, me.4, me.5, me.6, me.7, me.8, me.9, me.10, me.11, me.12,
            );
            let outs = (o1, o2, o3, o4, o5, o6, o7, o8, o9, o10, o11, o12, o13);
            assert(upto.parses(x0, m13, Ok(outs)));
        }
        let o14 = match self.13.parse_next(input) {
            Ok(o) => o,
            Err(e) => {
                proof {
                    let outs = (o1, o2, o3, o4, o5, o6, o7, o8, o9, o10, o11, o12, o13);
                    assert(stops_with(m13, outs));
                    let upto = (
                        me.0, me.1, me.2, me.3, me.4, me.5, me.6, me.7, me.8, me.9, me.10, me.11,
                        me.12, me.13,
                    );
                    assert(upto.parses(x0, *input, Err(e)));
                }
                return Err(e);
            },
        };
        let ghost m14 = *input;
        proof {
            assert(stops_at(m13));
            let upto = (
                me.0, me.1, me.2, me.3, me.4, me.5, me.6, me.7, me.8, me.9, me.10, me.11, me.12,
                me.13,
            );
            let outs = (o1, o2, o3, o4, o5, o6, o7, o8, o9, o10, o11, o12, o13, o14);
            assert(upto.parses(x0, m14, Ok(outs)));
        }
        let o15 = match self.14.parse_next(input) {
            Ok(o) => o,
            Err(e) => {
                proof {
                    let outs = (o1, o2, o3, o4, o5, o6, o7, o8, o9, o10, o11, o12, o13, o14);
                    assert(stops_with(m14, outs));
                    let upto = (
                        me.0, me.1, me.2, me.3, me.4, me.5, me.6, me.7, me.8, me.9, me.10, me.11,
                        me.12, me.13, me.14,
                    );
                    assert(upto.parses(x0, *input, Err(e)));
                }
                return Err(e);
            },
        };
        let ghost m15 = *input;
        proof {
            assert(stops_at(m14));
            let upto = (
                me.0, me.1, me.2, me.3, me.4, me.5, me.6, me.7, me.8, me.9, me.10, me.11, me.12,
                me.13, me.14,
            );
            let outs = (o1, o2, o3, o4, o5, o6, o7, o8, o9, o10, o11, o12, o13, o14, o15);
            assert(upto.parses(x0, m15, Ok(outs)));
        }
        let o16 = match self.15.parse_next(input) {
            Ok(o) => o,
            Err(e) => {
                proof {
                    let outs = (o1, o2, o3, o4, o5, o6, o7, o8, o9, o10, o11, o12, o13, o14, o15);
                    assert(stops_with(m15, outs));
                    let upto = (
                        me.0, me.1, me.2, me.3, me.4, me.5, me.6, me.7, me.8, me.9, me.10, me.11,
                        me.12, me.13, me.14, me.15,
                    );
                    assert(upto.parses(x0, *input, Err(e)));
                }
                return Err(e);
            },
        };
        let ghost m16 = *input;
        proof {
            assert(stops_at(m15));
            let upto = (
                me.0, me.1, me.2, me.3, me.4, me.5, me.6, me.7, me.8, me.9, me.10, me.11, me.12,
                me.13, me.14, me.15,
            );
            let outs = (o1, o2, o3, o4, o5, o6, o7, o8, o9, o10, o11, o12, o13, o14, o15, o16);
            assert(upto.parses(x0, m16, Ok(outs)));
        }
        let o17 = match self.16.parse_next(input) {
            Ok(o) => o,
            Err(e) => {
                proof {
                    let outs = (
                        o1, o2, o3, o4, o5, o6, o7, o8, o9, o10, o11, o12, o13, o14, o15, o16,
                    );
                    assert(stops_with(m16, outs));
                    let upto = (
                        me.0, me.1, me.2, me.3, me.4, me.5, me.6, me.7, me.8, me.9, me.10, me.11,
                        me.12, me.13, me.14, me.15, me.16,
                    );
                    assert(upto.parses(x0, *input, Err(e)));
                }
                return Err(e);
            },
        };
        let ghost m17 = *input;
        proof {
            assert(stops_at(m16));
            let upto = (
                me.0, me.1, me.2, me.3, me.4, me.5, me.6, me.7, me.8, me.9, me.10, me.11, me.12,
                me.13, me.14, me.15, me.16,
            );
            let outs = (o1, o2, o3, o4, o5, o6, o7, o8, o9, o10, o11, o12, o13, o14, o15, o16, o17);
            assert(upto.parses(x0, m17, Ok(outs)));
        }
        let o18 = match self.17.parse_next(input) {
            Ok(o) => o,
            Err(e) => {
                proof {
                    let outs = (
                        o1, o2, o3, o4, o5, o6, o7, o8, o9, o10, o11, o12, o13, o14, o15, o16, o17,
                    );
                    assert(stops_with(m17, outs));
                    let upto = (
                        me.0, me.1, me.2, me.3, me.4, me.5, me.6, me.7, me.8, me.9, me.10, me.11,
                        me.12, me.13, me.14, me.15, me.16, me.17,
                    );
                    assert(upto.parses(x0, *input, Err(e)));
                }
                return Err(e);
            },
        };
        let ghost m18 = *input;
        proof {
            assert(stops_at(m17));
            let upto = (
                me.0, me.1, me.2, me.3, me.4, me.5, me.6, me.7, me.8, me.9, me.10, me.11, me.12,
                me.13, me.14, me.15, me.16, me.17,
            );
            let outs = (
                o1, o2, o3, o4, o5, o6, o7, o8, o9, o10, o11, o12, o13, o14, o15, o16, o17, o18,
            );
            assert(upto.parses(x0, m18, Ok(outs)));
        }
        let o19 = match self.18.parse_next(input) {
            Ok(o) => o,
            Err(e) => {
                proof {
                    let outs = (
                        o1, o2, o3, o4, o5, o6, o7, o8, o9, o10, o11, o12, o13, o14, o15, o16, o17,
                        o18,
                    );
                    assert(stops_with(m18, outs));
                    let upto = (
                        me.0, me.1, me.2, me.3, me.4, me.5, me.6, me.7, me.8, me.9, me.10, me.11,
                        me.12, me.13, me.14, me.15, me.16, me.17, me.18,
                    );
                    assert(upto.parses(x0, *input, Err(e)));
                }
                return Err(e);
            },
        };
        let ghost m19 = *input;
        proof {
            assert(stops_at(m18));
            let upto = (
                me.0, me.1, me.2, me.3, me.4, me.5, me.6, me.7, me.8, me.9, me.10, me.11, me.12,
                me.13, me.14, me.15, me.16, me.17, me.18,
            );
            let outs = (
                o1, o2, o3, o4, o5, o6, o7, o8, o9, o10, o11, o12, o13, o14, o15, o16, o17, o18,
                o19,
            );
            assert(upto.parses(x0, m19, Ok(outs)));
        }
        let o20 = match self.19.parse_next(input) {
            Ok(o) => o,
            Err(e) => {
                proof {
                    let outs = (
                        o1, o2, o3, o4, o5, o6, o7, o8, o9, o10, o11, o12, o13, o14, o15, o16, o17,
                        o18, o19,
                    );
                    assert(stops_with(m19, outs));
                }
                return Err(e);
            },
        };
        let ghost m20 = *input;
        proof {
            assert(stops_at(m19));
            let upto = (
                me.0, me.1, me.2, me.3, me.4, me.5, me.6, me.7, me.8, me.9, me.10, me.11, me.12,
                me.13, me.14, me.15, me.16, me.17, me.18, me.19,
            );
            let outs = (
                o1, o2, o3, o4, o5, o6, o7, o8, o9, o10, o11, o12, o13, o14, o15, o16, o17, o18,
                o19, o20,
            );
            assert(upto.parses(x0, m20, Ok(outs)));
        }
        Ok(
            (
                o1, o2, o3, o4, o5, o6, o7, o8, o9, o10, o11, o12, o13, o14, o15, o16, o17, o18,
                o19, o20,
            ),
        )
    }
}

impl<
    I, O1, O2, O3, O4, O5, O6, O7, O8, O9, O10, O11, O12, O13, O14, O15, O16, O17, O18, O19, O20,
    O21, E, A1, A2, A3, A4, A5, A6, A7, A8, A9, A10, A11, A12, A13, A14, A15, A16, A17, A18, A19,
    A20, A21,
> Parser<
    I,
    (
        O1, O2, O3, O4, O5, O6, O7, O8, O9, O10, O11, O12, O13, O14, O15, O16, O17, O18, O19, O20,
        O21,
    ),
    E,
> for
    (
        A1, A2, A3, A4, A5, A6, A7, A8, A9, A10, A11, A12, A13, A14, A15, A16, A17, A18, A19, A20,
        A21,
    ) where
    A1: Parser<I, O1, E>,
    A2: Parser<I, O2, E>,
    A3: Parser<I, O3, E>,
    A4: Parser<I, O4, E>,
    A5: Parser<I, O5, E>,
    A6: Parser<I, O6, E>,
    A7: Parser<I, O7, E>,
    A8: Parser<I, O8, E>,
    A9: Parser<I, O9, E>,
    A10: Parser<I, O10, E>,
    A11: Parser<I, O11, E>,
    A12: Parser<I, O12, E>,
    A13: Parser<I, O13, E>,
    A14: Parser<I, O14, E>,
    A15: Parser<I, O15, E>,
    A16: Parser<I, O16, E>,
    A17: Parser<I, O17, E>,
    A18: Parser<I, O18, E>,
    A19: Parser<I, O19, E>,
    A20: Parser<I, O20, E>,
    A21: Parser<I, O21, E>,
 {
    open spec fn wf(&self) -> bool {
        &&& self.0.wf()
        &&& self.1.wf()
        &&& self.2.wf()
        &&& self.3.wf()
        &&& self.4.wf()
        &&& self.5.wf()
        &&& self.6.wf()
        &&& self.7.wf()
        &&& self.8.wf()
        &&& self.9.wf()
        &&& self.10.wf()
        &&& self.11.wf()
        &&& self.12.wf()
        &&& self.13.wf()
        &&& self.14.wf()
        &&& self.15.wf()
        &&& self.16.wf()
        &&& self.17.wf()
        &&& self.18.wf()
        &&& self.19.wf()
        &&& self.20.wf()
    }

    open spec fn parses(
        &self,
        before: I,
        after: I,
        r: PResult<
            (
                O1, O2, O3, O4, O5, O6, O7, O8, O9, O10, O11, O12, O13, O14, O15, O16, O17, O18,
                O19, O20, O21,
            ),
            E,
        >,
    ) -> bool {
        let head = (
            self.0, self.1, self.2, self.3, self.4, self.5, self.6, self.7, self.8, self.9, self.10,
            self.11, self.12, self.13, self.14, self.15, self.16, self.17, self.18, self.19,
        );
        match r {
            Ok(o) => {
                let outs = (
                    o.0, o.1, o.2, o.3, o.4, o.5, o.6, o.7, o.8, o.9, o.10, o.11, o.12, o.13, o.14,
                    o.15, o.16, o.17, o.18, o.19,
                );
                exists|mid: I| #[trigger]
                    stops_at(mid) && head.parses(before, mid, Ok(outs)) && self.20.parses(
                        mid,
                        after,
                        Ok(o.20),
                    )
            },
            Err(e) => head.parses(before, after, Err(e)) || exists|
                mid: I,
                o: (
                    O1, O2, O3, O4, O5, O6, O7, O8, O9, O10, O11, O12, O13, O14, O15, O16, O17, O18,
                    O19, O20,
                ),
            | #[trigger]
                stops_with(mid, o) && head.parses(before, mid, Ok(o)) && self.20.parses(
                    mid,
                    after,
                    Err(e),
                ),
        }
    }

    fn parse_next(&mut self, input: &mut I) -> (r: PResult<
        (
            O1, O2, O3, O4, O5, O6, O7, O8, O9, O10, O11, O12, O13, O14, O15, O16, O17, O18, O19,
            O20, O21,
        ),
        E,
    >) {
        let ghost me = *self;
        let ghost x0 = *input;
        let o1 = match self.0.parse_next(input) {
            Ok(o) => o,
            Err(e) => {
                return Err(e);
            },
        };
        let ghost m1 = *input;
        let o2 = match self.1.parse_next(input) {
            Ok(o) => o,
            Err(e) => {
                proof {
                    let outs = (o1,);
                    assert(stops_with(m1, outs));
                    let upto = (me.0, me.1);
                    assert(upto.parses(x0, *input, Err(e)));
                }
                return Err(e);
            },
        };
        let ghost m2 = *input;
        proof {
            assert(stops_at(m1));
            let upto = (me.0, me.1);
            let outs = (o1, o2);
            assert(upto.parses(x0, m2, Ok(outs)));
        }
        let o3 = match self.2.parse_next(input) {
            Ok(o) => o,
            Err(e) => {
                proof {
                    let outs = (o1, o2);
                    assert(stops_with(m2, outs));
                    let upto = (me.0, me.1, me.2);
                    assert(upto.parses(x0, *input, Err(e)));
                }
                return Err(e);
            },
        };
        let ghost m3 = *input;
        proof {
            assert(stops_at(m2));
            let upto = (me.0, me.1, me.2);
            let outs = (o1, o2, o3);
            assert(upto.parses(x0, m3, Ok(outs)));
        }
        let o4 = match self.3.parse_next(input) {
            Ok(o) => o,
            Err(e) => {
                proof {
                    let outs = (o1, o2, o3);
                    assert(stops_with(m3, outs));
                    let upto = (me.0, me.1, me.2, me.3);
                    assert(upto.parses(x0, *input, Err(e)));
                }
                return Err(e);
            },
        };
        let ghost m4 = *input;
        proof {
            assert(stops_at(m3));
            let upto = (me.0, me.1, me.2, me.3);
            let outs = (o1, o2, o3, o4);
            assert(upto.parses(x0, m4, Ok(outs)));
        }
        let o5 = match self.4.parse_next(input) {
            Ok(o) => o,
            Err(e) => {
                proof {
                    let outs = (o1, o2, o3, o4);
                    assert(stops_with(m4, outs));
                    let upto = (me.0, me.1, me.2, me.3, me.4);
                    assert(upto.parses(x0, *input, Err(e)));
                }
                return Err(e);
            },
        };
        let ghost m5 = *input;
        proof {
            assert(stops_at(m4));
            let upto = (me.0, me.1, me.2, me.3, me.4);
            let outs = (o1, o2, o3, o4, o5);
            assert(upto.parses(x0, m5, Ok(outs)));
        }
        let o6 = match self.5.parse_next(input) {
            Ok(o) => o,
            Err(e) => {
                proof {
                    let outs = (o1, o2, o3, o4, o5);
                    assert(stops_with(m5, outs));
                    let upto = (me.0, me.1, me.2, me.3, me.4, me.5);
                    assert(upto.parses(x0, *input, Err(e)));
                }
                return Err(e);
            },
        };
        let ghost m6 = *input;
        proof {
            assert(stops_at(m5));
            let upto = (me.0, me.1, me.2, me.3, me.4, me.5);
            let outs = (o1, o2, o3, o4, o5, o6);
            assert(upto.parses(x0, m6, Ok(outs)));
        }
        let o7 = match self.6.parse_next(input) {
            Ok(o) => o,
            Err(e) => {
                proof {
                    let outs = (o1, o2, o3, o4, o5, o6);
                    assert(stops_with(m6, outs));
                    let upto = (me.0, me.1, me.2, me.3, me.4, me.5, me.6);
                    assert(upto.parses(x0, *input, Err(e)));
                }
                return Err(e);
            },
        };
        let ghost m7 = *input;
        proof {
            assert(stops_at(m6));
            let upto = (me.0, me.1, me.2, me.3, me.4, me.5, me.6);
            let outs = (o1, o2, o3, o4, o5, o6, o7);
            assert(upto.parses(x0, m7, Ok(outs)));
        }
        let o8 = match self.7.parse_next(input) {
            Ok(o) => o,
            Err(e) => {
                proof {
                    let outs = (o1, o2, o3, o4, o5, o6, o7);
                    assert(stops_with(m7, outs));
                    let upto = (me.0, me.1, me.2, me.3, me.4, me.5, me.6, me.7);
                    assert(upto.parses(x0, *input, Err(e)));
                }
                return Err(e);
            },
        };
        let ghost m8 = *input;
        proof {
            assert(stops_at(m7));
            let upto = (me.0, me.1, me.2, me.3, me.4, me.5, me.6, me.7);
            let outs = (o1, o2, o3, o4, o5, o6, o7, o8);
            assert(upto.parses(x0, m8, Ok(outs)));
        }
        let o9 = match self.8.parse_next(input) {
            Ok(o) => o,
            Err(e) => {
                proof {
                    let outs = (o1, o2, o3, o4, o5, o6, o7, o8);
                    assert(stops_with(m8, outs));
                    let upto = (me.0, me.1, me.2, me.3, me.4, me.5, me.6, me.7, me.8);
                    assert(upto.parses(x0, *input, Err(e)));
                }
                return Err(e);
            },
        };
        let ghost m9 = *input;
        proof {
            assert(stops_at(m8));
            let upto = (me.0, me.1, me.2, me.3, me.4, me.5, me.6, me.7, me.8);
            let outs = (o1, o2, o3, o4, o5, o6, o7, o8, o9);
            assert(upto.parses(x0, m9, Ok(outs)));
        }
        let o10 = match self.9.parse_next(input) {
            Ok(o) => o,
            Err(e) => {
                proof {
                    let outs = (o1, o2, o3, o4, o5, o6, o7, o8, o9);
                    assert(stops_with(m9, outs));
                    let upto = (me.0, me.1, me.2, me.3, me.4, me.5, me.6, me.7, me.8, me.9);
                    assert(upto.parses(x0, *input, Err(e)));
                }
                return Err(e);
            },
        };
        let ghost m10 = *input;
        proof {
            assert(stops_at(m9));
            let upto = (me.0, me.1, me.2, me.3, me.4, me.5, me.6, me.7, me.8, me.9);
            let outs = (o1, o2, o3, o4, o5, o6, o7, o8, o9, o10);
            assert(upto.parses(x0, m10, Ok(outs)));
        }
        let o11 = match self.10.parse_next(input) {
            Ok(o) => o,
            Err(e) => {
                proof {
                    let outs = (o1, o2, o3, o4, o5, o6, o7, o8, o9, o10);
                    assert(stops_with(m10, outs));
                    let upto = (me.0, me.1, me.2, me.3, me.4, me.5, me.6, me.7, me.8, me.9, me.10);
                    assert(upto.parses(x0, *input, Err(e)));
                }
                return Err(e);
            },
        };
        let ghost m11 = *input;
        proof {
            assert(stops_at(m10));
            let upto = (me.0, me.1, me.2, me.3, me.4, me.5, me.6, me.7, me.8, me.9, me.10);
            let outs = (o1, o2, o3, o4, o5, o6, o7, o8, o9, o10, o11);
            assert(upto.parses(x0, m11, Ok(outs)));
        }
        let o12 = match self.11.parse_next(input) {
            Ok(o) => o,
            Err(e) => {
                proof {
                    let outs = (o1, o2, o3, o4, o5, o6, o7, o8, o9, o10, o11);
                    assert(stops_with(m11, outs));
                    let upto = (
                        me.0, me.1, me.2, me.3, me.4, me.5, me.6, me.7, me.8, me.9, me.10, me.11,
                    );
                    assert(upto.parses(x0, *input, Err(e)));
                }
                return Err(e);
            },
        };
        let ghost m12 = *input;
        proof {
            assert(stops_at(m11));
            let upto = (me.0, me.1, me.2, me.3, me.4, me.5, me.6, me.7, me.8, me.9, me.10, me.11);
            let outs = (o1, o2, o3, o4, o5, o6, o7, o8, o9, o10, o11, o12);
            assert(upto.parses(x0, m12, Ok(outs)));
        }
        let o13 = match self.12.parse_next(input) {
            Ok(o) => o,
            Err(e) => {
                proof {
                    let outs = (o1, o2, o3, o4, o5, o6, o7, o8, o9, o10, o11, o12);
                    assert(stops_with(m12, outs));
                    let upto = (
                        me.0, me.1, me.2, me.3, me.4, me.5, me.6, me.7, me.8, me.9, me.10, me.11,
                        me.12,
                    );
                    assert(upto.parses(x0, *input, Err(e)));
                }
                return Err(e);
            },
        };
        let ghost m13 = *input;
        proof {
            assert(stops_at(m12));
            let upto = (
                me.0, me.1, me.2, me.3, me.4, me.5, me.6, me.7, me.8, me.9, me.10, me.11, me.12,
            );
            let outs = (o1, o2, o3, o4, o5, o6, o7, o8, o9, o10, o11, o12, o13);
            assert(upto.parses(x0, m13, Ok(outs)));
        }
        let o14 = match self.13.parse_next(input) {
            Ok(o) => o,
            Err(e) => {
                proof {
                    let outs = (o1, o2, o3, o4, o5, o6, o7, o8, o9, o10, o11, o12, o13);
                    assert(stops_with(m13, outs));
                    let upto = (
                        me.0, me.1, me.2, me.3, me.4, me.5, me.6, me.7, me.8, me.9, me.10, me.11,
                        me.12, me.13,
                    );
                    assert(upto.parses(x0, *input, Err(e)));
                }
                return Err(e);
            },
        };
        let ghost m14 = *input;
        proof {
            assert(stops_at(m13));
            let upto = (
                me.0, me.1, me.2, me.3, me.4, me.5, me.6, me.7, me.8, me.9, me.10, me.11, me.12,
                me.13,
            );
            let outs = (o1, o2, o3, o4, o5, o6, o7, o8, o9, o10, o11, o12, o13, o14);
            assert(upto.parses(x0, m14, Ok(outs)));
        }
        let o15 = match self.14.parse_next(input) {
            Ok(o) => o,
            Err(e) => {
                proof {
                    let outs = (o1, o2, o3, o4, o5, o6, o7, o8, o9, o10, o11, o12, o13, o14);
                    assert(stops_with(m14, outs));
                    let upto = (
                        me.0, me.1, me.2, me.3, me.4, me.5, me.6, me.7, me.8, me.9, me.10, me.11,
                        me.12, me.13, me.14,
                    );
                    assert(upto.parses(x0, *input, Err(e)));
                }
                return Err(e);
            },
        };
        let ghost m15 = *input;
        proof {
            assert(stops_at(m14));
            let upto = (
                me.0, me.1, me.2, me.3, me.4, me.5, me.6, me.7, me.8, me.9, me.10, me.11, me.12,
                me.13, me.14,
            );
            let outs = (o1, o2, o3, o4, o5, o6, o7, o8, o9, o10, o11, o12, o13, o14, o15);
            assert(upto.parses(x0, m15, Ok(outs)));
        }
        let o16 = match self.15.parse_next(input) {
            Ok(o) => o,
            Err(e) => {
                proof {
                    let outs = (o1, o2, o3, o4, o5, o6, o7, o8, o9, o10, o11, o12, o13, o14, o15);
                    assert(stops_with(m15, outs));
                    let upto = (
                        me.0, me.1, me.2, me.3, me.4, me.5, me.6, me.7, me.8, me.9, me.10, me.11,
                        me.12, me.13, me.14, me.15,
                    );
                    assert(upto.parses(x0, *input, Err(e)));
                }
                return Err(e);
            },
        };
        let ghost m16 = *input;
        proof {
            assert(stops_at(m15));
            let upto = (
                me.0, me.1, me.2, me.3, me.4, me.5, me.6, me.7, me.8, me.9, me.10, me.11, me.12,
                me.13, me.14, me.15,
            );
            let outs = (o1, o2, o3, o4, o5, o6, o7, o8, o9, o10, o11, o12, o13, o14, o15, o16);
            assert(upto.parses(x0, m16, Ok(outs)));
        }
        let o17 = match self.16.parse_next(input) {
            Ok(o) => o,
            Err(e) => {
                proof {
                    let outs = (
                        o1, o2, o3, o4, o5, o6, o7, o8, o9, o10, o11, o12, o13, o14, o15, o16,
                    );
                    assert(stops_with(m16, outs));
                    let upto = (
                        me.0, me.1, me.2, me.3, me.4, me.5, me.6, me.7, me.8, me.9, me.10, me.11,
                        me.12, me.13, me.14, me.15, me.16,
                    );
                    assert(upto.parses(x0, *input, Err(e)));
                }
                return Err(e);
            },
        };
        let ghost m17 = *input;
        proof {
            assert(stops_at(m16));
            let upto = (
                me.0, me.1, me.2, me.3, me.4, me.5, me.6, me.7, me.8, me.9, me.10, me.11, me.12,
                me.13, me.14, me.15, me.16,
            );
            let outs = (o1, o2, o3, o4, o5, o6, o7, o8, o9, o10, o11, o12, o13, o14, o15, o16, o17);
            assert(upto.parses(x0, m17, Ok(outs)));
        }
        let o18 = match self.17.parse_next(input) {
            Ok(o) => o,
            Err(e) => {
                proof {
                    let outs = (
                        o1, o2, o3, o4, o5, o6, o7, o8, o9, o10, o11, o12, o13, o14, o15, o16, o17,
                    );
                    assert(stops_with(m17, outs));
                    let upto = (
                        me.0, me.1, me.2, me.3, me.4, me.5, me.6, me.7, me.8, me.9, me.10, me.11,
                        me.12, me.13, me.14, me.15, me.16, me.17,
                    );
                    assert(upto.parses(x0, *input, Err(e)));
                }
                return Err(e);
            },
        };
        let ghost m18 = *input;
        proof {
            assert(stops_at(m17));
            let upto = (
                me.0, me.1, me.2, me.3, me.4, me.5, me.6, me.7, me.8, me.9, me.10, me.11, me.12,
                me.13, me.14, me.15, me.16, me.17,
            );
            let outs = (
                o1, o2, o3, o4, o5, o6, o7, o8, o9, o10, o11, o12, o13, o14, o15, o16, o17, o18,
            );
            assert(upto.parses(x0, m18, Ok(outs)));
        }
        let o19 = match self.18.parse_next(input) {
            Ok(o) => o,
            Err(e) => {
                proof {
                    let outs = (
                        o1, o2, o3, o4, o5, o6, o7, o8, o9, o10, o11, o12, o13, o14, o15, o16, o17,
                        o18,
                    );
                    assert(stops_with(m18, outs));
                    let upto = (
                        me.0, me.1, me.2, me.3, me.4, me.5, me.6, me.7, me.8, me.9, me.10, me.11,
                        me.12, me.13, me.14, me.15, me.16, me.17, me.18,
                    );
                    assert(upto.parses(x0, *input, Err(e)));
                }
                return Err(e);
            },
        };
        let ghost m19 = *input;
        proof {
            assert(stops_at(m18));
            let upto = (
                me.0, me.1, me.2, me.3, me.4, me.5, me.6, me.7, me.8, me.9, me.10, me.11, me.12,
                me.13, me.14, me.15, me.16, me.17, me.18,
            );
            let outs = (
                o1, o2, o3, o4, o5, o6, o7, o8, o9, o10, o11, o12, o13, o14, o15, o16, o17, o18,
                o19,
            );
            assert(upto.parses(x0, m19, Ok(outs)));
        }
        let o20 = match self.19.parse_next(input) {
            Ok(o) => o,
            Err(e) => {
                proof {
                    let outs = (
                        o1, o2, o3, o4, o5, o6, o7, o8, o9, o10, o11, o12, o13, o14, o15, o16, o17,
                        o18, o19,
                    );
                    assert(stops_with(m19, outs));
                    let upto = (
                        me.0, me.1, me.2, me.3, me.4, me.5, me.6, me.7, me.8, me.9, me.10, me.11,
                        me.12, me.13, me.14, me.15, me.16, me.17, me.18, me.19,
                    );
                    assert(upto.parses(x0, *input, Err(e)));
                }
                return Err(e);
            },
        };
        let ghost m20 = *input;
        proof {
            assert(stops_at(m19));
            let upto = (
                me.0, me.1, me.2, me.3, me.4, me.5, me.6, me.7, me.8, me.9, me.10, me.11, me.12,
                me.13, me.14, me.15, me.16, me.17, me.18, me.19,
            );
            let outs = (
                o1, o2, o3, o4, o5, o6, o7, o8, o9, o10, o11, o12, o13, o14, o15, o16, o17, o18,
                o19, o20,
            );
            assert(upto.parses(x0, m20, Ok(outs)));
        }
        let o21 = match self.20.parse_next(input) {
            Ok(o) => o,
            Err(e) => {
                proof {
                    let outs = (
                        o1, o2, o3, o4, o5, o6, o7, o8, o9, o10, o11, o12, o13, o14, o15, o16, o17,
                        o18, o19, o20,
                    );
                    assert(stops_with(m20, outs));
                }
                return Err(e);
            },
        };
        let ghost m21 = *input;
        proof {
            assert(stops_at(m20));
            let upto = (
                me.0, me.1, me.2, me.3, me.4, me.5, me.6, me.7, me.8, me.9, me.10, me.11, me.12,
                me.13, me.14, me.15, me.16, me.17, me.18, me.19, me.20,
            );
            let outs = (
                o1, o2, o3, o4, o5, o6, o7, o8, o9, o10, o11, o12, o13, o14, o15, o16, o17, o18,
                o19, o20, o21,
            );
            assert(upto.parses(x0, m21, Ok(outs)));
        }
        Ok(
            (
                o1, o2, o3, o4, o5, o6, o7, o8, o9, o10, o11, o12, o13, o14, o15, o16, o17, o18,
                o19, o20, o21,
            ),
        )
    }
}

/// Moving forward twice is moving forward.
pub proof fn lemma_forward_twice<I: Stream>(a: I, b: I, c: I)
    requires
        reaches(a, b),
        reaches(b, c),
    ensures
        reaches(a, c),
{
    let n = choose|n: nat| a.steps_to(n, b);
    let m = choose|m: nat| b.steps_to(m, c);
    a.lemma_steps_chain(n, b, m, c);
}

/// A sequence of 1 parsers that only move the cursor forward only moves
/// the cursor forward.
pub proof fn lemma_sequence_1_advancing<
    I: Stream,
    O1,
    E,
    A1: Parser<I, O1, E>,
>(
    ps: (A1,),
)
    requires
        advancing(ps.0),
    ensures
        advancing(ps),
{
    assert forall|before: I, after: I, r: PResult<(O1,), E>| #[trigger]
        ps.parses(before, after, r) implies reaches(before, after) by {
        match r {
            Ok(o) => {
                assert(ps.0.parses(before, after, Ok(o.0)));
            },
            Err(e) => {
                assert(ps.0.parses(before, after, Err(e)));
            },
        }
    }
}

/// A sequence of 2 parsers that only move the cursor forward only moves
/// the cursor forward.
pub proof fn lemma_sequence_2_advancing<
    I: Stream,
    O1,
    O2,
    E,
    A1: Parser<I, O1, E>,
    A2: Parser<I, O2, E>,
>(
    ps: (A1, A2),
)
    requires
        advancing(ps.0),
        advancing(ps.1),
    ensures
        advancing(ps),
{
    let head = (ps.0,);
    lemma_sequence_1_advancing(head);
    assert forall|before: I, after: I, r: PResult<(O1, O2), E>| #[trigger]
        ps.parses(before, after, r) implies reaches(before, after) by {
        match r {
            Ok(o) => {
                let outs = (o.0,);
                let mid = choose|mid: I| #[trigger]
                    stops_at(mid) && head.parses(before, mid, Ok(outs)) && ps.1.parses(
                        mid,
                        after,
                        Ok(o.1),
                    );
                assert(head.parses(before, mid, Ok(outs)));
                assert(ps.1.parses(mid, after, Ok(o.1)));
                lemma_forward_twice(before, mid, after);
            },
            Err(e) => {
                if !head.parses(before, after, Err(e)) {
                    let (mid, o): (I, (O1,)) = choose|mid: I, o: (O1,)| #[trigger]
                        stops_with(mid, o) && head.parses(before, mid, Ok(o)) && ps.1.parses(
                            mid,
                            after,
                            Err(e),
                        );
                    assert(head.parses(before, mid, Ok(o)));
                    assert(ps.1.parses(mid, after, Err::<O2, _>(e)));
                    lemma_forward_twice(before, mid, after);
                }
            },
        }
    }
}

/// A sequence of 3 parsers that only move the cursor forward only moves
/// the cursor forward.
pub proof fn lemma_sequence_3_advancing<
    I: Stream,
    O1,
    O2,
    O3,
    E,
    A1: Parser<I, O1, E>,
    A2: Parser<I, O2, E>,
    A3: Parser<I, O3, E>,
>(
    ps: (A1, A2, A3),
)
    requires
        advancing(ps.0),
        advancing(ps.1),
        advancing(ps.2),
    ensures
        advancing(ps),
{
    let head = (ps.0, ps.1);
    lemma_sequence_2_advancing(head);
    assert forall|before: I, after: I, r: PResult<(O1, O2, O3), E>| #[trigger]
        ps.parses(before, after, r) implies reaches(before, after) by {
        match r {
            Ok(o) => {
                let outs = (o.0, o.1);
                let mid = choose|mid: I| #[trigger]
                    stops_at(mid) && head.parses(before, mid, Ok(outs)) && ps.2.parses(
                        mid,
                        after,
                        Ok(o.2),
                    );
                assert(head.parses(before, mid, Ok(outs)));
                assert(ps.2.parses(mid, after, Ok(o.2)));
                lemma_forward_twice(before, mid, after);
            },
            Err(e) => {
                if !head.parses(before, after, Err(e)) {
                    let (mid, o): (I, (O1, O2)) = choose|mid: I, o: (O1, O2)| #[trigger]
                        stops_with(mid, o) && head.parses(before, mid, Ok(o)) && ps.2.parses(
                            mid,
                            after,
                            Err(e),
                        );
                    assert(head.parses(before, mid, Ok(o)));
                    assert(ps.2.parses(mid, after, Err::<O3, _>(e)));
                    lemma_forward_twice(before, mid, after);
                }
            },
        }
    }
}

/// A sequence of 4 parsers that only move the cursor forward only moves
/// the cursor forward.
pub proof fn lemma_sequence_4_advancing<
    I: Stream,
    O1,
    O2,
    O3,
    O4,
    E,
    A1: Parser<I, O1, E>,
    A2: Parser<I, O2, E>,
    A3: Parser<I, O3, E>,
    A4: Parser<I, O4, E>,
>(
    ps: (A1, A2, A3, A4),
)
    requires
        advancing(ps.0),
        advancing(ps.1),
        advancing(ps.2),
        advancing(ps.3),
    ensures
        advancing(ps),
{
    let head = (ps.0, ps.1, ps.2);
    lemma_sequence_3_advancing(head);
    assert forall|before: I, after: I, r: PResult<(O1, O2, O3, O4), E>| #[trigger]
        ps.parses(before, after, r) implies reaches(before, after) by {
        match r {
            Ok(o) => {
                let outs = (o.0, o.1, o.2);
                let mid = choose|mid: I| #[trigger]
                    stops_at(mid) && head.parses(before, mid, Ok(outs)) && ps.3.parses(
                        mid,
                        after,
                        Ok(o.3),
                    );
                assert(head.parses(before, mid, Ok(outs)));
                assert(ps.3.parses(mid, after, Ok(o.3)));
                lemma_forward_twice(before, mid, after);
            },
            Err(e) => {
                if !head.parses(before, after, Err(e)) {
                    let (mid, o): (I, (O1, O2, O3)) = choose|mid: I, o: (O1, O2, O3)| #[trigger]
                        stops_with(mid, o) && head.parses(before, mid, Ok(o)) && ps.3.parses(
                            mid,
                            after,
                            Err(e),
                        );
                    assert(head.parses(before, mid, Ok(o)));
                    assert(ps.3.parses(mid, after, Err::<O4, _>(e)));
                    lemma_forward_twice(before, mid, after);
                }
            },
        }
    }
}

/// A sequence of 5 parsers that only move the cursor forward only moves
/// the cursor forward.
pub proof fn lemma_sequence_5_advancing<
    I: Stream,
    O1,
    O2,
    O3,
    O4,
    O5,
    E,
    A1: Parser<I, O1, E>,
    A2: Parser<I, O2, E>,
    A3: Parser<I, O3, E>,
    A4: Parser<I, O4, E>,
    A5: Parser<I, O5, E>,
>(
    ps: (A1, A2, A3, A4, A5),
)
    requires
        advancing(ps.0),
        advancing(ps.1),
        advancing(ps.2),
        advancing(ps.3),
        advancing(ps.4),
    ensures
        advancing(ps),
{
    let head = (ps.0, ps.1, ps.2, ps.3);
    lemma_sequence_4_advancing(head);
    assert forall|before: I, after: I, r: PResult<(O1, O2, O3, O4, O5), E>| #[trigger]
        ps.parses(before, after, r) implies reaches(before, after) by {
        match r {
            Ok(o) => {
                let outs = (o.0, o.1, o.2, o.3);
                let mid = choose|mid: I| #[trigger]
                    stops_at(mid) && head.parses(before, mid, Ok(outs)) && ps.4.parses(
                        mid,
                        after,
                        Ok(o.4),
                    );
                assert(head.parses(before, mid, Ok(outs)));
                assert(ps.4.parses(mid, after, Ok(o.4)));
                lemma_forward_twice(before, mid, after);
            },
            Err(e) => {
                if !head.parses(before, after, Err(e)) {
                    let (mid, o) = choose|
                        mid: I,
                        o: (O1, O2, O3, O4),
                    | #[trigger]
                        stops_with(mid, o) && head.parses(before, mid, Ok(o)) && ps.4.parses(
                            mid,
                            after,
                            Err(e),
                        );
                    assert(head.parses(before, mid, Ok(o)));
                    assert(ps.4.parses(mid, after, Err::<O5, _>(e)));
                    lemma_forward_twice(before, mid, after);
                }
            },
        }
    }
}

/// A sequence of 6 parsers that only move the cursor forward only moves
/// the cursor forward.
pub proof fn lemma_sequence_6_advancing<
    I: Stream,
    O1,
    O2,
    O3,
    O4,
    O5,
    O6,
    E,
    A1: Parser<I, O1, E>,
    A2: Parser<I, O2, E>,
    A3: Parser<I, O3, E>,
    A4: Parser<I, O4, E>,
    A5: Parser<I, O5, E>,
    A6: Parser<I, O6, E>,
>(
    ps: (A1, A2, A3, A4, A5, A6),
)
    requires
        advancing(ps.0),
        advancing(ps.1),
        advancing(ps.2),
        advancing(ps.3),
        advancing(ps.4),
        advancing(ps.5),
    ensures
        advancing(ps),
{
    let head = (ps.0, ps.1, ps.2, ps.3, ps.4);
    lemma_sequence_5_advancing(head);
    assert forall|before: I, after: I, r: PResult<(O1, O2, O3, O4, O5, O6), E>| #[trigger]
        ps.parses(before, after, r) implies reaches(before, after) by {
        match r {
            Ok(o) => {
                let outs = (o.0, o.1, o.2, o.3, o.4);
                let mid = choose|mid: I| #[trigger]
                    stops_at(mid) && head.parses(before, mid, Ok(outs)) && ps.5.parses(
                        mid,
                        after,
                        Ok(o.5),
                    );
                assert(head.parses(before, mid, Ok(outs)));
                assert(ps.5.parses(mid, after, Ok(o.5)));
                lemma_forward_twice(before, mid, after);
            },
            Err(e) => {
                if !head.parses(before, after, Err(e)) {
                    let (mid, o) = choose|
                        mid: I,
                        o: (O1, O2, O3, O4, O5),
                    | #[trigger]
                        stops_with(mid, o) && head.parses(before, mid, Ok(o)) && ps.5.parses(
                            mid,
                            after,
                            Err(e),
                        );
                    assert(head.parses(before, mid, Ok(o)));
                    assert(ps.5.parses(mid, after, Err::<O6, _>(e)));
                    lemma_forward_twice(before, mid, after);
                }
            },
        }
    }
}

/// A sequence of 7 parsers that only move the cursor forward only moves
/// the cursor forward.
pub proof fn lemma_sequence_7_advancing<
    I: Stream,
    O1,
    O2,
    O3,
    O4,
    O5,
    O6,
    O7,
    E,
    A1: Parser<I, O1, E>,
    A2: Parser<I, O2, E>,
    A3: Parser<I, O3, E>,
    A4: Parser<I, O4, E>,
    A5: Parser<I, O5, E>,
    A6: Parser<I, O6, E>,
    A7: Parser<I, O7, E>,
>(
    ps: (A1, A2, A3, A4, A5, A6, A7),
)
    requires
        advancing(ps.0),
        advancing(ps.1),
        advancing(ps.2),
        advancing(ps.3),
        advancing(ps.4),
        advancing(ps.5),
        advancing(ps.6),
    ensures
        advancing(ps),
{
    let head = (ps.0, ps.1, ps.2, ps.3, ps.4, ps.5);
    lemma_sequence_6_advancing(head);
    assert forall|before: I, after: I, r: PResult<(O1, O2, O3, O4, O5, O6, O7), E>| #[trigger]
        ps.parses(before, after, r) implies reaches(before, after) by {
        match r {
            Ok(o) => {
                let outs = (o.0, o.1, o.2, o.3, o.4, o.5);
                let mid = choose|mid: I| #[trigger]
                    stops_at(mid) && head.parses(before, mid, Ok(outs)) && ps.6.parses(
                        mid,
                        after,
                        Ok(o.6),
                    );
                assert(head.parses(before, mid, Ok(outs)));
                assert(ps.6.parses(mid, after, Ok(o.6)));
                lemma_forward_twice(before, mid, after);
            },
            Err(e) => {
                if !head.parses(before, after, Err(e)) {
                    let (mid, o) = choose|
                        mid: I,
                        o: (O1, O2, O3, O4, O5, O6),
                    | #[trigger]
                        stops_with(mid, o) && head.parses(before, mid, Ok(o)) && ps.6.parses(
                            mid,
                            after,
                            Err(e),
                        );
                    assert(head.parses(before, mid, Ok(o)));
                    assert(ps.6.parses(mid, after, Err::<O7, _>(e)));
                    lemma_forward_twice(before, mid, after);
                }
            },
        }
    }
}

/// A sequence of 8 parsers that only move the cursor forward only moves
/// the cursor forward.
pub proof fn lemma_sequence_8_advancing<
    I: Stream,
    O1,
    O2,
    O3,
    O4,
    O5,
    O6,
    O7,
    O8,
    E,
    A1: Parser<I, O1, E>,
    A2: Parser<I, O2, E>,
    A3: Parser<I, O3, E>,
    A4: Parser<I, O4, E>,
    A5: Parser<I, O5, E>,
    A6: Parser<I, O6, E>,
    A7: Parser<I, O7, E>,
    A8: Parser<I, O8, E>,
>(
    ps: (A1, A2, A3, A4, A5, A6, A7, A8),
)
    requires
        advancing(ps.0),
        advancing(ps.1),
        advancing(ps.2),
        advancing(ps.3),
        advancing(ps.4),
        advancing(ps.5),
        advancing(ps.6),
        advancing(ps.7),
    ensures
        advancing(ps),
{
    let head = (ps.0, ps.1, ps.2, ps.3, ps.4, ps.5, ps.6);
    lemma_sequence_7_advancing(head);
    assert forall|before: I, after: I, r: PResult<(O1, O2, O3, O4, O5, O6, O7, O8), E>| #[trigger]
        ps.parses(before, after, r) implies reaches(before, after) by {
        match r {
            Ok(o) => {
                let outs = (o.0, o.1, o.2, o.3, o.4, o.5, o.6);
                let mid = choose|mid: I| #[trigger]
                    stops_at(mid) && head.parses(before, mid, Ok(outs)) && ps.7.parses(
                        mid,
                        after,
                        Ok(o.7),
                    );
                assert(head.parses(before, mid, Ok(outs)));
                assert(ps.7.parses(mid, after, Ok(o.7)));
                lemma_forward_twice(before, mid, after);
            },
            Err(e) => {
                if !head.parses(before, after, Err(e)) {
                    let (mid, o) = choose|
                        mid: I,
                        o: (O1, O2, O3, O4, O5, O6, O7),
                    | #[trigger]
                        stops_with(mid, o) && head.parses(before, mid, Ok(o)) && ps.7.parses(
                            mid,
                            after,
                            Err(e),
                        );
                    assert(head.parses(before, mid, Ok(o)));
                    assert(ps.7.parses(mid, after, Err::<O8, _>(e)));
                    lemma_forward_twice(before, mid, after);
                }
            },
        }
    }
}

/// A sequence of 9 parsers that only move the cursor forward only moves
/// the cursor forward.
pub proof fn lemma_sequence_9_advancing<
    I: Stream,
    O1,
    O2,
    O3,
    O4,
    O5,
    O6,
    O7,
    O8,
    O9,
    E,
    A1: Parser<I, O1, E>,
    A2: Parser<I, O2, E>,
    A3: Parser<I, O3, E>,
    A4: Parser<I, O4, E>,
    A5: Parser<I, O5, E>,
    A6: Parser<I, O6, E>,
    A7: Parser<I, O7, E>,
    A8: Parser<I, O8, E>,
    A9: Parser<I, O9, E>,
>(
    ps: (A1, A2, A3, A4, A5, A6, A7, A8, A9),
)
    requires
        advancing(ps.0),
        advancing(ps.1),
        advancing(ps.2),
        advancing(ps.3),
        advancing(ps.4),
        advancing(ps.5),
        advancing(ps.6),
        advancing(ps.7),
        advancing(ps.8),
    ensures
        advancing(ps),
{
    let head = (ps.0, ps.1, ps.2, ps.3, ps.4, ps.5, ps.6, ps.7);
    lemma_sequence_8_advancing(head);
    assert forall|
        before: I,
        after: I,
        r: PResult<
            (O1, O2, O3, O4, O5, O6, O7, O8, O9),
            E,
        >,
    | #[trigger]
        ps.parses(before, after, r) implies reaches(before, after) by {
        match r {
            Ok(o) => {
                let outs = (o.0, o.1, o.2, o.3, o.4, o.5, o.6, o.7);
                let mid = choose|mid: I| #[trigger]
                    stops_at(mid) && head.parses(before, mid, Ok(outs)) && ps.8.parses(
                        mid,
                        after,
                        Ok(o.8),
                    );
                assert(head.parses(before, mid, Ok(outs)));
                assert(ps.8.parses(mid, after, Ok(o.8)));
                lemma_forward_twice(before, mid, after);
            },
            Err(e) => {
                if !head.parses(before, after, Err(e)) {
                    let (mid, o) = choose|
                        mid: I,
                        o: (O1, O2, O3, O4, O5, O6, O7, O8),
                    | #[trigger]
                        stops_with(mid, o) && head.parses(before, mid, Ok(o)) && ps.8.parses(
                            mid,
                            after,
                            Err(e),
                        );
                    assert(head.parses(before, mid, Ok(o)));
                    assert(ps.8.parses(mid, after, Err::<O9, _>(e)));
                    lemma_forward_twice(before, mid, after);
                }
            },
        }
    }
}

/// A sequence of 10 parsers that only move the cursor forward only moves
/// the cursor forward.
pub proof fn lemma_sequence_10_advancing<
    I: Stream,
    O1,
    O2,
    O3,
    O4,
    O5,
    O6,
    O7,
    O8,
    O9,
    O10,
    E,
    A1: Parser<I, O1, E>,
    A2: Parser<I, O2, E>,
    A3: Parser<I, O3, E>,
    A4: Parser<I, O4, E>,
    A5: Parser<I, O5, E>,
    A6: Parser<I, O6, E>,
    A7: Parser<I, O7, E>,
    A8: Parser<I, O8, E>,
    A9: Parser<I, O9, E>,
    A10: Parser<I, O10, E>,
>(
    ps: (A1, A2, A3, A4, A5, A6, A7, A8, A9, A10),
)
    requires
        advancing(ps.0),
        advancing(ps.1),
        advancing(ps.2),
        advancing(ps.3),
        advancing(ps.4),
        advancing(ps.5),
        advancing(ps.6),
        advancing(ps.7),
        advancing(ps.8),
        advancing(ps.9),
    ensures
        advancing(ps),
{
    let head = (ps.0, ps.1, ps.2, ps.3, ps.4, ps.5, ps.6, ps.7, ps.8);
    lemma_sequence_9_advancing(head);
    assert forall|
        before: I,
        after: I,
        r: PResult<
            (O1, O2, O3, O4, O5, O6, O7, O8, O9, O10),
            E,
        >,
    | #[trigger]
        ps.parses(before, after, r) implies reaches(before, after) by {
        match r {
            Ok(o) => {
                let outs = (o.0, o.1, o.2, o.3, o.4, o.5, o.6, o.7, o.8);
                let mid = choose|mid: I| #[trigger]
                    stops_at(mid) && head.parses(before, mid, Ok(outs)) && ps.9.parses(
                        mid,
                        after,
                        Ok(o.9),
                    );
                assert(head.parses(before, mid, Ok(outs)));
                assert(ps.9.parses(mid, after, Ok(o.9)));
                lemma_forward_twice(before, mid, after);
            },
            Err(e) => {
                if !head.parses(before, after, Err(e)) {
                    let (mid, o) = choose|
                        mid: I,
                        o: (O1, O2, O3, O4, O5, O6, O7, O8, O9),
                    | #[trigger]
                        stops_with(mid, o) && head.parses(before, mid, Ok(o)) && ps.9.parses(
                            mid,
                            after,
                            Err(e),
                        );
                    assert(head.parses(before, mid, Ok(o)));
                    assert(ps.9.parses(mid, after, Err::<O10, _>(e)));
                    lemma_forward_twice(before, mid, after);
                }
            },
        }
    }
}

/// A sequence of 11 parsers that only move the cursor forward only moves
/// the cursor forward.
pub proof fn lemma_sequence_11_advancing<
    I: Stream,
    O1,
    O2,
    O3,
    O4,
    O5,
    O6,
    O7,
    O8,
    O9,
    O10,
    O11,
    E,
    A1: Parser<I, O1, E>,
    A2: Parser<I, O2, E>,
    A3: Parser<I, O3, E>,
    A4: Parser<I, O4, E>,
    A5: Parser<I, O5, E>,
    A6: Parser<I, O6, E>,
    A7: Parser<I, O7, E>,
    A8: Parser<I, O8, E>,
    A9: Parser<I, O9, E>,
    A10: Parser<I, O10, E>,
    A11: Parser<I, O11, E>,
>(
    ps: (A1, A2, A3, A4, A5, A6, A7, A8, A9, A10, A11),
)
    requires
        advancing(ps.0),
        advancing(ps.1),
        advancing(ps.2),
        advancing(ps.3),
        advancing(ps.4),
        advancing(ps.5),
        advancing(ps.6),
        advancing(ps.7),
        advancing(ps.8),
        advancing(ps.9),
        advancing(ps.10),
    ensures
        advancing(ps),
{
    let head = (ps.0, ps.1, ps.2, ps.3, ps.4, ps.5, ps.6, ps.7, ps.8, ps.9);
    lemma_sequence_10_advancing(head);
    assert forall|
        before: I,
        after: I,
        r: PResult<
            (O1, O2, O3, O4, O5, O6, O7, O8, O9, O10, O11),
            E,
        >,
    | #[trigger]
        ps.parses(before, after, r) implies reaches(before, after) by {
        match r {
            Ok(o) => {
                let outs = (o.0, o.1, o.2, o.3, o.4, o.5, o.6, o.7, o.8, o.9);
                let mid = choose|mid: I| #[trigger]
                    stops_at(mid) && head.parses(before, mid, Ok(outs)) && ps.10.parses(
                        mid,
                        after,
                        Ok(o.10),
                    );
                assert(head.parses(before, mid, Ok(outs)));
                assert(ps.10.parses(mid, after, Ok(o.10)));
                lemma_forward_twice(before, mid, after);
            },
            Err(e) => {
                if !head.parses(before, after, Err(e)) {
                    let (mid, o) = choose|
                        mid: I,
                        o: (O1, O2, O3, O4, O5, O6, O7, O8, O9, O10),
                    | #[trigger]
                        stops_with(mid, o) && head.parses(before, mid, Ok(o)) && ps.10.parses(
                            mid,
                            after,
                            Err(e),
                        );
                    assert(head.parses(before, mid, Ok(o)));
                    assert(ps.10.parses(mid, after, Err::<O11, _>(e)));
                    lemma_forward_twice(before, mid, after);
                }
            },
        }
    }
}

/// A sequence of 12 parsers that only move the cursor forward only moves
/// the cursor forward.
pub proof fn lemma_sequence_12_advancing<
    I: Stream,
    O1,
    O2,
    O3,
    O4,
    O5,
    O6,
    O7,
    O8,
    O9,
    O10,
    O11,
    O12,
    E,
    A1: Parser<I, O1, E>,
    A2: Parser<I, O2, E>,
    A3: Parser<I, O3, E>,
    A4: Parser<I, O4, E>,
    A5: Parser<I, O5, E>,
    A6: Parser<I, O6, E>,
    A7: Parser<I, O7, E>,
    A8: Parser<I, O8, E>,
    A9: Parser<I, O9, E>,
    A10: Parser<I, O10, E>,
    A11: Parser<I, O11, E>,
    A12: Parser<I, O12, E>,
>(
    ps: (A1, A2, A3, A4, A5, A6, A7, A8, A9, A10, A11, A12),
)
    requires
        advancing(ps.0),
        advancing(ps.1),
        advancing(ps.2),
        advancing(ps.3),
        advancing(ps.4),
        advancing(ps.5),
        advancing(ps.6),
        advancing(ps.7),
        advancing(ps.8),
        advancing(ps.9),
        advancing(ps.10),
        advancing(ps.11),
    ensures
        advancing(ps),
{
    let head = (ps.0, ps.1, ps.2, ps.3, ps.4, ps.5, ps.6, ps.7, ps.8, ps.9, ps.10);
    lemma_sequence_11_advancing(head);
    assert forall|
        before: I,
        after: I,
        r: PResult<
            (O1, O2, O3, O4, O5, O6, O7, O8, O9, O10, O11, O12),
            E,
        >,
    | #[trigger]
        ps.parses(before, after, r) implies reaches(before, after) by {
        match r {
            Ok(o) => {
                let outs = (o.0, o.1, o.2, o.3, o.4, o.5, o.6, o.7, o.8, o.9, o.10);
                let mid = choose|mid: I| #[trigger]
                    stops_at(mid) && head.parses(before, mid, Ok(outs)) && ps.11.parses(
                        mid,
                        after,
                        Ok(o.11),
                    );
                assert(head.parses(before, mid, Ok(outs)));
                assert(ps.11.parses(mid, after, Ok(o.11)));
                lemma_forward_twice(before, mid, after);
            },
            Err(e) => {
                if !head.parses(before, after, Err(e)) {
                    let (mid, o) = choose|
                        mid: I,
                        o: (O1, O2, O3, O4, O5, O6, O7, O8, O9, O10, O11),
                    | #[trigger]
                        stops_with(mid, o) && head.parses(before, mid, Ok(o)) && ps.11.parses(
                            mid,
                            after,
                            Err(e),
                        );
                    assert(head.parses(before, mid, Ok(o)));
                    assert(ps.11.parses(mid, after, Err::<O12, _>(e)));
                    lemma_forward_twice(before, mid, after);
                }
            },
        }
    }
}

/// A sequence of 13 parsers that only move the cursor forward only moves
/// the cursor forward.
pub proof fn lemma_sequence_13_advancing<
    I: Stream,
    O1,
    O2,
    O3,
    O4,
    O5,
    O6,
    O7,
    O8,
    O9,
    O10,
    O11,
    O12,
    O13,
    E,
    A1: Parser<I, O1, E>,
    A2: Parser<I, O2, E>,
    A3: Parser<I, O3, E>,
    A4: Parser<I, O4, E>,
    A5: Parser<I, O5, E>,
    A6: Parser<I, O6, E>,
    A7: Parser<I, O7, E>,
    A8: Parser<I, O8, E>,
    A9: Parser<I, O9, E>,
    A10: Parser<I, O10, E>,
    A11: Parser<I, O11, E>,
    A12: Parser<I, O12, E>,
    A13: Parser<I, O13, E>,
>(
    ps: (A1, A2, A3, A4, A5, A6, A7, A8, A9, A10, A11, A12, A13),
)
    requires
        advancing(ps.0),
        advancing(ps.1),
        advancing(ps.2),
        advancing(ps.3),
        advancing(ps.4),
        advancing(ps.5),
        advancing(ps.6),
        advancing(ps.7),
        advancing(ps.8),
        advancing(ps.9),
        advancing(ps.10),
        advancing(ps.11),
        advancing(ps.12),
    ensures
        advancing(ps),
{
    let head = (ps.0, ps.1, ps.2, ps.3, ps.4, ps.5, ps.6, ps.7, ps.8, ps.9, ps.10, ps.11);
    lemma_sequence_12_advancing(head);
    assert forall|
        before: I,
        after: I,
        r: PResult<
            (O1, O2, O3, O4, O5, O6, O7, O8, O9, O10, O11, O12, O13),
            E,
        >,
    | #[trigger]
        ps.parses(before, after, r) implies reaches(before, after) by {
        match r {
            Ok(o) => {
                let outs = (o.0, o.1, o.2, o.3, o.4, o.5, o.6, o.7, o.8, o.9, o.10, o.11);
                let mid = choose|mid: I| #[trigger]
                    stops_at(mid) && head.parses(before, mid, Ok(outs)) && ps.12.parses(
                        mid,
                        after,
                        Ok(o.12),
                    );
                assert(head.parses(before, mid, Ok(outs)));
                assert(ps.12.parses(mid, after, Ok(o.12)));
                lemma_forward_twice(before, mid, after);
            },
            Err(e) => {
                if !head.parses(before, after, Err(e)) {
                    let (mid, o) = choose|
                        mid: I,
                        o: (O1, O2, O3, O4, O5, O6, O7, O8, O9, O10, O11, O12),
                    | #[trigger]
                        stops_with(mid, o) && head.parses(before, mid, Ok(o)) && ps.12.parses(
                            mid,
                            after,
                            Err(e),
                        );
                    assert(head.parses(before, mid, Ok(o)));
                    assert(ps.12.parses(mid, after, Err::<O13, _>(e)));
                    lemma_forward_twice(before, mid, after);
                }
            },
        }
    }
}

/// A sequence of 14 parsers that only move the cursor forward only moves
/// the cursor forward.
pub proof fn lemma_sequence_14_advancing<
    I: Stream,
    O1,
    O2,
    O3,
    O4,
    O5,
    O6,
    O7,
    O8,
    O9,
    O10,
    O11,
    O12,
    O13,
    O14,
    E,
    A1: Parser<I, O1, E>,
    A2: Parser<I, O2, E>,
    A3: Parser<I, O3, E>,
    A4: Parser<I, O4, E>,
    A5: Parser<I, O5, E>,
    A6: Parser<I, O6, E>,
    A7: Parser<I, O7, E>,
    A8: Parser<I, O8, E>,
    A9: Parser<I, O9, E>,
    A10: Parser<I, O10, E>,
    A11: Parser<I, O11, E>,
    A12: Parser<I, O12, E>,
    A13: Parser<I, O13, E>,
    A14: Parser<I, O14, E>,
>(
    ps: (A1, A2, A3, A4, A5, A6, A7, A8, A9, A10, A11, A12, A13, A14),
)
    requires
        advancing(ps.0),
        advancing(ps.1),
        advancing(ps.2),
        advancing(ps.3),
        advancing(ps.4),
        advancing(ps.5),
        advancing(ps.6),
        advancing(ps.7),
        advancing(ps.8),
        advancing(ps.9),
        advancing(ps.10),
        advancing(ps.11),
        advancing(ps.12),
        advancing(ps.13),
    ensures
        advancing(ps),
{
    let head = (ps.0, ps.1, ps.2, ps.3, ps.4, ps.5, ps.6, ps.7, ps.8, ps.9, ps.10, ps.11, ps.12);
    lemma_sequence_13_advancing(head);
    assert forall|
        before: I,
        after: I,
        r: PResult<
            (O1, O2, O3, O4, O5, O6, O7, O8, O9, O10, O11, O12, O13, O14),
            E,
        >,
    | #[trigger]
        ps.parses(before, after, r) implies reaches(before, after) by {
        match r {
            Ok(o) => {
                let outs = (o.0, o.1, o.2, o.3, o.4, o.5, o.6, o.7, o.8, o.9, o.10, o.11, o.12);
                let mid = choose|mid: I| #[trigger]
                    stops_at(mid) && head.parses(before, mid, Ok(outs)) && ps.13.parses(
                        mid,
                        after,
                        Ok(o.13),
                    );
                assert(head.parses(before, mid, Ok(outs)));
                assert(ps.13.parses(mid, after, Ok(o.13)));
                lemma_forward_twice(before, mid, after);
            },
            Err(e) => {
                if !head.parses(before, after, Err(e)) {
                    let (mid, o) = choose|
                        mid: I,
                        o: (O1, O2, O3, O4, O5, O6, O7, O8, O9, O10, O11, O12, O13),
                    | #[trigger]
                        stops_with(mid, o) && head.parses(before, mid, Ok(o)) && ps.13.parses(
                            mid,
                            after,
                            Err(e),
                        );
                    assert(head.parses(before, mid, Ok(o)));
                    assert(ps.13.parses(mid, after, Err::<O14, _>(e)));
                    lemma_forward_twice(before, mid, after);
                }
            },
        }
    }
}

/// A sequence of 15 parsers that only move the cursor forward only moves
/// the cursor forward.
pub proof fn lemma_sequence_15_advancing<
    I: Stream,
    O1,
    O2,
    O3,
    O4,
    O5,
    O6,
    O7,
    O8,
    O9,
    O10,
    O11,
    O12,
    O13,
    O14,
    O15,
    E,
    A1: Parser<I, O1, E>,
    A2: Parser<I, O2, E>,
    A3: Parser<I, O3, E>,
    A4: Parser<I, O4, E>,
    A5: Parser<I, O5, E>,
    A6: Parser<I, O6, E>,
    A7: Parser<I, O7, E>,
    A8: Parser<I, O8, E>,
    A9: Parser<I, O9, E>,
    A10: Parser<I, O10, E>,
    A11: Parser<I, O11, E>,
    A12: Parser<I, O12, E>,
    A13: Parser<I, O13, E>,
    A14: Parser<I, O14, E>,
    A15: Parser<I, O15, E>,
>(
    ps: (A1, A2, A3, A4, A5, A6, A7, A8, A9, A10, A11, A12, A13, A14, A15),
)
    requires
        advancing(ps.0),
        advancing(ps.1),
        advancing(ps.2),
        advancing(ps.3),
        advancing(ps.4),
        advancing(ps.5),
        advancing(ps.6),
        advancing(ps.7),
        advancing(ps.8),
        advancing(ps.9),
        advancing(ps.10),
        advancing(ps.11),
        advancing(ps.12),
        advancing(ps.13),
        advancing(ps.14),
    ensures
        advancing(ps),
{
    let head = (
        ps.0, ps.1, ps.2, ps.3, ps.4, ps.5, ps.6, ps.7, ps.8, ps.9, ps.10, ps.11, ps.12, ps.13,
    );
    lemma_sequence_14_advancing(head);
    assert forall|
        before: I,
        after: I,
        r: PResult<
            (O1, O2, O3, O4, O5, O6, O7, O8, O9, O10, O11, O12, O13, O14, O15),
            E,
        >,
    | #[trigger]
        ps.parses(before, after, r) implies reaches(before, after) by {
        match r {
            Ok(o) => {
                let outs = (
                    o.0, o.1, o.2, o.3, o.4, o.5, o.6, o.7, o.8, o.9, o.10, o.11, o.12, o.13,
                );
                let mid = choose|mid: I| #[trigger]
                    stops_at(mid) && head.parses(before, mid, Ok(outs)) && ps.14.parses(
                        mid,
                        after,
                        Ok(o.14),
                    );
                assert(head.parses(before, mid, Ok(outs)));
                assert(ps.14.parses(mid, after, Ok(o.14)));
                lemma_forward_twice(before, mid, after);
            },
            Err(e) => {
                if !head.parses(before, after, Err(e)) {
                    let (mid, o) = choose|
                        mid: I,
                        o: (O1, O2, O3, O4, O5, O6, O7, O8, O9, O10, O11, O12, O13, O14),
                    | #[trigger]
                        stops_with(mid, o) && head.parses(before, mid, Ok(o)) && ps.14.parses(
                            mid,
                            after,
                            Err(e),
                        );
                    assert(head.parses(before, mid, Ok(o)));
                    assert(ps.14.parses(mid, after, Err::<O15, _>(e)));
                    lemma_forward_twice(before, mid, after);
                }
            },
        }
    }
}

/// A sequence of 16 parsers that only move the cursor forward only moves
/// the cursor forward.
pub proof fn lemma_sequence_16_advancing<
    I: Stream,
    O1,
    O2,
    O3,
    O4,
    O5,
    O6,
    O7,
    O8,
    O9,
    O10,
    O11,
    O12,
    O13,
    O14,
    O15,
    O16,
    E,
    A1: Parser<I, O1, E>,
    A2: Parser<I, O2, E>,
    A3: Parser<I, O3, E>,
    A4: Parser<I, O4, E>,
    A5: Parser<I, O5, E>,
    A6: Parser<I, O6, E>,
    A7: Parser<I, O7, E>,
    A8: Parser<I, O8, E>,
    A9: Parser<I, O9, E>,
    A10: Parser<I, O10, E>,
    A11: Parser<I, O11, E>,
    A12: Parser<I, O12, E>,
    A13: Parser<I, O13, E>,
    A14: Parser<I, O14, E>,
    A15: Parser<I, O15, E>,
    A16: Parser<I, O16, E>,
>(
    ps: (A1, A2, A3, A4, A5, A6, A7, A8, A9, A10, A11, A12, A13, A14, A15, A16),
)
    requires
        advancing(ps.0),
        advancing(ps.1),
        advancing(ps.2),
        advancing(ps.3),
        advancing(ps.4),
        advancing(ps.5),
        advancing(ps.6),
        advancing(ps.7),
        advancing(ps.8),
        advancing(ps.9),
        advancing(ps.10),
        advancing(ps.11),
        advancing(ps.12),
        advancing(ps.13),
        advancing(ps.14),
        advancing(ps.15),
    ensures
        advancing(ps),
{
    let head = (
        ps.0, ps.1, ps.2, ps.3, ps.4, ps.5, ps.6, ps.7, ps.8, ps.9, ps.10, ps.11, ps.12, ps.13,
        ps.14,
    );
    lemma_sequence_15_advancing(head);
    assert forall|
        before: I,
        after: I,
        r: PResult<
            (O1, O2, O3, O4, O5, O6, O7, O8, O9, O10, O11, O12, O13, O14, O15, O16),
            E,
        >,
    | #[trigger]
        ps.parses(before, after, r) implies reaches(before, after) by {
        match r {
            Ok(o) => {
                let outs = (
                    o.0, o.1, o.2, o.3, o.4, o.5, o.6, o.7, o.8, o.9, o.10, o.11, o.12, o.13, o.14,
                );
                let mid = choose|mid: I| #[trigger]
                    stops_at(mid) && head.parses(before, mid, Ok(outs)) && ps.15.parses(
                        mid,
                        after,
                        Ok(o.15),
                    );
                assert(head.parses(before, mid, Ok(outs)));
                assert(ps.15.parses(mid, after, Ok(o.15)));
                lemma_forward_twice(before, mid, after);
            },
            Err(e) => {
                if !head.parses(before, after, Err(e)) {
                    let (mid, o) = choose|
                        mid: I,
                        o: (O1, O2, O3, O4, O5, O6, O7, O8, O9, O10, O11, O12, O13, O14, O15),
                    | #[trigger]
                        stops_with(mid, o) && head.parses(before, mid, Ok(o)) && ps.15.parses(
                            mid,
                            after,
                            Err(e),
                        );
                    assert(head.parses(before, mid, Ok(o)));
                    assert(ps.15.parses(mid, after, Err::<O16, _>(e)));
                    lemma_forward_twice(before, mid, after);
                }
            },
        }
    }
}

/// A sequence of 17 parsers that only move the cursor forward only moves
/// the cursor forward.
pub proof fn lemma_sequence_17_advancing<
    I: Stream,
    O1,
    O2,
    O3,
    O4,
    O5,
    O6,
    O7,
    O8,
    O9,
    O10,
    O11,
    O12,
    O13,
    O14,
    O15,
    O16,
    O17,
    E,
    A1: Parser<I, O1, E>,
    A2: Parser<I, O2, E>,
    A3: Parser<I, O3, E>,
    A4: Parser<I, O4, E>,
    A5: Parser<I, O5, E>,
    A6: Parser<I, O6, E>,
    A7: Parser<I, O7, E>,
    A8: Parser<I, O8, E>,
    A9: Parser<I, O9, E>,
    A10: Parser<I, O10, E>,
    A11: Parser<I, O11, E>,
    A12: Parser<I, O12, E>,
    A13: Parser<I, O13, E>,
    A14: Parser<I, O14, E>,
    A15: Parser<I, O15, E>,
    A16: Parser<I, O16, E>,
    A17: Parser<I, O17, E>,
>(
    ps: (A1, A2, A3, A4, A5, A6, A7, A8, A9, A10, A11, A12, A13, A14, A15, A16, A17),
)
    requires
        advancing(ps.0),
        advancing(ps.1),
        advancing(ps.2),
        advancing(ps.3),
        advancing(ps.4),
        advancing(ps.5),
        advancing(ps.6),
        advancing(ps.7),
        advancing(ps.8),
        advancing(ps.9),
        advancing(ps.10),
        advancing(ps.11),
        advancing(ps.12),
        advancing(ps.13),
        advancing(ps.14),
        advancing(ps.15),
        advancing(ps.16),
    ensures
        advancing(ps),
{
    let head = (
        ps.0, ps.1, ps.2, ps.3, ps.4, ps.5, ps.6, ps.7, ps.8, ps.9, ps.10, ps.11, ps.12, ps.13,
        ps.14, ps.15,
    );
    lemma_sequence_16_advancing(head);
    assert forall|
        before: I,
        after: I,
        r: PResult<
            (O1, O2, O3, O4, O5, O6, O7, O8, O9, O10, O11, O12, O13, O14, O15, O16, O17),
            E,
        >,
    | #[trigger]
        ps.parses(before, after, r) implies reaches(before, after) by {
        match r {
            Ok(o) => {
                let outs = (
                    o.0, o.1, o.2, o.3, o.4, o.5, o.6, o.7, o.8, o.9, o.10, o.11, o.12, o.13, o.14,
                    o.15,
                );
                let mid = choose|mid: I| #[trigger]
                    stops_at(mid) && head.parses(before, mid, Ok(outs)) && ps.16.parses(
                        mid,
                        after,
                        Ok(o.16),
                    );
                assert(head.parses(before, mid, Ok(outs)));
                assert(ps.16.parses(mid, after, Ok(o.16)));
                lemma_forward_twice(before, mid, after);
            },
            Err(e) => {
                if !head.parses(before, after, Err(e)) {
                    let (mid, o) = choose|
                        mid: I,
                        o: (O1, O2, O3, O4, O5, O6, O7, O8, O9, O10, O11, O12, O13, O14, O15, O16),
                    | #[trigger]
                        stops_with(mid, o) && head.parses(before, mid, Ok(o)) && ps.16.parses(
                            mid,
                            after,
                            Err(e),
                        );
                    assert(head.parses(before, mid, Ok(o)));
                    assert(ps.16.parses(mid, after, Err::<O17, _>(e)));
                    lemma_forward_twice(before, mid, after);
                }
            },
        }
    }
}

/// A sequence of 18 parsers that only move the cursor forward only moves
/// the cursor forward.
pub proof fn lemma_sequence_18_advancing<
    I: Stream,
    O1,
    O2,
    O3,
    O4,
    O5,
    O6,
    O7,
    O8,
    O9,
    O10,
    O11,
    O12,
    O13,
    O14,
    O15,
    O16,
    O17,
    O18,
    E,
    A1: Parser<I, O1, E>,
    A2: Parser<I, O2, E>,
    A3: Parser<I, O3, E>,
    A4: Parser<I, O4, E>,
    A5: Parser<I, O5, E>,
    A6: Parser<I, O6, E>,
    A7: Parser<I, O7, E>,
    A8: Parser<I, O8, E>,
    A9: Parser<I, O9, E>,
    A10: Parser<I, O10, E>,
    A11: Parser<I, O11, E>,
    A12: Parser<I, O12, E>,
    A13: Parser<I, O13, E>,
    A14: Parser<I, O14, E>,
    A15: Parser<I, O15, E>,
    A16: Parser<I, O16, E>,
    A17: Parser<I, O17, E>,
    A18: Parser<I, O18, E>,
>(
    ps: (A1, A2, A3, A4, A5, A6, A7, A8, A9, A10, A11, A12, A13, A14, A15, A16, A17, A18),
)
    requires
        advancing(ps.0),
        advancing(ps.1),
        advancing(ps.2),
        advancing(ps.3),
        advancing(ps.4),
        advancing(ps.5),
        advancing(ps.6),
        advancing(ps.7),
        advancing(ps.8),
        advancing(ps.9),
        advancing(ps.10),
        advancing(ps.11),
        advancing(ps.12),
        advancing(ps.13),
        advancing(ps.14),
        advancing(ps.15),
        advancing(ps.16),
        advancing(ps.17),
    ensures
        advancing(ps),
{
    let head = (
        ps.0, ps.1, ps.2, ps.3, ps.4, ps.5, ps.6, ps.7, ps.8, ps.9, ps.10, ps.11, ps.12, ps.13,
        ps.14, ps.15, ps.16,
    );
    lemma_sequence_17_advancing(head);
    assert forall|
        before: I,
        after: I,
        r: PResult<
            (O1, O2, O3, O4, O5, O6, O7, O8, O9, O10, O11, O12, O13, O14, O15, O16, O17, O18),
            E,
        >,
    | #[trigger]
        ps.parses(before, after, r) implies reaches(before, after) by {
        match r {
            Ok(o) => {
                let outs = (
                    o.0, o.1, o.2, o.3, o.4, o.5, o.6, o.7, o.8, o.9, o.10, o.11, o.12, o.13, o.14,
                    o.15, o.16,
                );
                let mid = choose|mid: I| #[trigger]
                    stops_at(mid) && head.parses(before, mid, Ok(outs)) && ps.17.parses(
                        mid,
                        after,
                        Ok(o.17),
                    );
                assert(head.parses(before, mid, Ok(outs)));
                assert(ps.17.parses(mid, after, Ok(o.17)));
                lemma_forward_twice(before, mid, after);
            },
            Err(e) => {
                if !head.parses(before, after, Err(e)) {
                    let (mid, o) = choose|
                        mid: I,
                        o: (
                            O1, O2, O3, O4, O5, O6, O7, O8, O9, O10, O11, O12, O13, O14, O15, O16,
                            O17,
                        ),
                    | #[trigger]
                        stops_with(mid, o) && head.parses(before, mid, Ok(o)) && ps.17.parses(
                            mid,
                            after,
                            Err(e),
                        );
                    assert(head.parses(before, mid, Ok(o)));
                    assert(ps.17.parses(mid, after, Err::<O18, _>(e)));
                    lemma_forward_twice(before, mid, after);
                }
            },
        }
    }
}

/// A sequence of 19 parsers that only move the cursor forward only moves
/// the cursor forward.
pub proof fn lemma_sequence_19_advancing<
    I: Stream,
    O1,
    O2,
    O3,
    O4,
    O5,
    O6,
    O7,
    O8,
    O9,
    O10,
    O11,
    O12,
    O13,
    O14,
    O15,
    O16,
    O17,
    O18,
    O19,
    E,
    A1: Parser<I, O1, E>,
    A2: Parser<I, O2, E>,
    A3: Parser<I, O3, E>,
    A4: Parser<I, O4, E>,
    A5: Parser<I, O5, E>,
    A6: Parser<I, O6, E>,
    A7: Parser<I, O7, E>,
    A8: Parser<I, O8, E>,
    A9: Parser<I, O9, E>,
    A10: Parser<I, O10, E>,
    A11: Parser<I, O11, E>,
    A12: Parser<I, O12, E>,
    A13: Parser<I, O13, E>,
    A14: Parser<I, O14, E>,
    A15: Parser<I, O15, E>,
    A16: Parser<I, O16, E>,
    A17: Parser<I, O17, E>,
    A18: Parser<I, O18, E>,
    A19: Parser<I, O19, E>,
>(
    ps: (A1, A2, A3, A4, A5, A6, A7, A8, A9, A10, A11, A12, A13, A14, A15, A16, A17, A18, A19),
)
    requires
        advancing(ps.0),
        advancing(ps.1),
        advancing(ps.2),
        advancing(ps.3),
        advancing(ps.4),
        advancing(ps.5),
        advancing(ps.6),
        advancing(ps.7),
        advancing(ps.8),
        advancing(ps.9),
        advancing(ps.10),
        advancing(ps.11),
        advancing(ps.12),
        advancing(ps.13),
        advancing(ps.14),
        advancing(ps.15),
        advancing(ps.16),
        advancing(ps.17),
        advancing(ps.18),
    ensures
        advancing(ps),
{
    let head = (
        ps.0, ps.1, ps.2, ps.3, ps.4, ps.5, ps.6, ps.7, ps.8, ps.9, ps.10, ps.11, ps.12, ps.13,
        ps.14, ps.15, ps.16, ps.17,
    );
    lemma_sequence_18_advancing(head);
    assert forall|
        before: I,
        after: I,
        r: PResult<
            (O1, O2, O3, O4, O5, O6, O7, O8, O9, O10, O11, O12, O13, O14, O15, O16, O17, O18, O19),
            E,
        >,
    | #[trigger]
        ps.parses(before, after, r) implies reaches(before, after) by {
        match r {
            Ok(o) => {
                let outs = (
                    o.0, o.1, o.2, o.3, o.4, o.5, o.6, o.7, o.8, o.9, o.10, o.11, o.12, o.13, o.14,
                    o.15, o.16, o.17,
                );
                let mid = choose|mid: I| #[trigger]
                    stops_at(mid) && head.parses(before, mid, Ok(outs)) && ps.18.parses(
                        mid,
                        after,
                        Ok(o.18),
                    );
                assert(head.parses(before, mid, Ok(outs)));
                assert(ps.18.parses(mid, after, Ok(o.18)));
                lemma_forward_twice(before, mid, after);
            },
            Err(e) => {
                if !head.parses(before, after, Err(e)) {
                    let (mid, o) = choose|
                        mid: I,
                        o: (
                            O1, O2, O3, O4, O5, O6, O7, O8, O9, O10, O11, O12, O13, O14, O15, O16,
                            O17, O18,
                        ),
                    | #[trigger]
                        stops_with(mid, o) && head.parses(before, mid, Ok(o)) && ps.18.parses(
                            mid,
                            after,
                            Err(e),
                        );
                    assert(head.parses(before, mid, Ok(o)));
                    assert(ps.18.parses(mid, after, Err::<O19, _>(e)));
                    lemma_forward_twice(before, mid, after);
                }
            },
        }
    }
}

/// A sequence of 20 parsers that only move the cursor forward only moves
/// the cursor forward.
pub proof fn lemma_sequence_20_advancing<
    I: Stream,
    O1,
    O2,
    O3,
    O4,
    O5,
    O6,
    O7,
    O8,
    O9,
    O10,
    O11,
    O12,
    O13,
    O14,
    O15,
    O16,
    O17,
    O18,
    O19,
    O20,
    E,
    A1: Parser<I, O1, E>,
    A2: Parser<I, O2, E>,
    A3: Parser<I, O3, E>,
    A4: Parser<I, O4, E>,
    A5: Parser<I, O5, E>,
    A6: Parser<I, O6, E>,
    A7: Parser<I, O7, E>,
    A8: Parser<I, O8, E>,
    A9: Parser<I, O9, E>,
    A10: Parser<I, O10, E>,
    A11: Parser<I, O11, E>,
    A12: Parser<I, O12, E>,
    A13: Parser<I, O13, E>,
    A14: Parser<I, O14, E>,
    A15: Parser<I, O15, E>,
    A16: Parser<I, O16, E>,
    A17: Parser<I, O17, E>,
    A18: Parser<I, O18, E>,
    A19: Parser<I, O19, E>,
    A20: Parser<I, O20, E>,
>(
    ps: (A1, A2, A3, A4, A5, A6, A7, A8, A9, A10, A11, A12, A13, A14, A15, A16, A17, A18, A19, A20),
)
    requires
        advancing(ps.0),
        advancing(ps.1),
        advancing(ps.2),
        advancing(ps.3),
        advancing(ps.4),
        advancing(ps.5),
        advancing(ps.6),
        advancing(ps.7),
        advancing(ps.8),
        advancing(ps.9),
        advancing(ps.10),
        advancing(ps.11),
        advancing(ps.12),
        advancing(ps.13),
        advancing(ps.14),
        advancing(ps.15),
        advancing(ps.16),
        advancing(ps.17),
        advancing(ps.18),
        advancing(ps.19),
    ensures
        advancing(ps),
{
    let head = (
        ps.0, ps.1, ps.2, ps.3, ps.4, ps.5, ps.6, ps.7, ps.8, ps.9, ps.10, ps.11, ps.12, ps.13,
        ps.14, ps.15, ps.16, ps.17, ps.18,
    );
    lemma_sequence_19_advancing(head);
    assert forall|
        before: I,
        after: I,
        r: PResult<
            (
                O1, O2, O3, O4, O5, O6, O7, O8, O9, O10, O11, O12, O13, O14, O15, O16, O17, O18,
                O19, O20,
            ),
            E,
        >,
    | #[trigger]
        ps.parses(before, after, r) implies reaches(before, after) by {
        match r {
            Ok(o) => {
                let outs = (
                    o.0, o.1, o.2, o.3, o.4, o.5, o.6, o.7, o.8, o.9, o.10, o.11, o.12, o.13, o.14,
                    o.15, o.16, o.17, o.18,
                );
                let mid = choose|mid: I| #[trigger]
                    stops_at(mid) && head.parses(before, mid, Ok(outs)) && ps.19.parses(
                        mid,
                        after,
                        Ok(o.19),
                    );
                assert(head.parses(before, mid, Ok(outs)));
                assert(ps.19.parses(mid, after, Ok(o.19)));
                lemma_forward_twice(before, mid, after);
            },
            Err(e) => {
                if !head.parses(before, after, Err(e)) {
                    let (mid, o) = choose|
                        mid: I,
                        o: (
                            O1, O2, O3, O4, O5, O6, O7, O8, O9, O10, O11, O12, O13, O14, O15, O16,
                            O17, O18, O19,
                        ),
                    | #[trigger]
                        stops_with(mid, o) && head.parses(before, mid, Ok(o)) && ps.19.parses(
                            mid,
                            after,
                            Err(e),
                        );
                    assert(head.parses(before, mid, Ok(o)));
                    assert(ps.19.parses(mid, after, Err::<O20, _>(e)));
                    lemma_forward_twice(before, mid, after);
                }
            },
        }
    }
}

/// A sequence of 21 parsers that only move the cursor forward only moves
/// the cursor forward.
pub proof fn lemma_sequence_21_advancing<
    I: Stream,
    O1,
    O2,
    O3,
    O4,
    O5,
    O6,
    O7,
    O8,
    O9,
    O10,
    O11,
    O12,
    O13,
    O14,
    O15,
    O16,
    O17,
    O18,
    O19,
    O20,
    O21,
    E,
    A1: Parser<I, O1, E>,
    A2: Parser<I, O2, E>,
    A3: Parser<I, O3, E>,
    A4: Parser<I, O4, E>,
    A5: Parser<I, O5, E>,
    A6: Parser<I, O6, E>,
    A7: Parser<I, O7, E>,
    A8: Parser<I, O8, E>,
    A9: Parser<I, O9, E>,
    A10: Parser<I, O10, E>,
    A11: Parser<I, O11, E>,
    A12: Parser<I, O12, E>,
    A13: Parser<I, O13, E>,
    A14: Parser<I, O14, E>,
    A15: Parser<I, O15, E>,
    A16: Parser<I, O16, E>,
    A17: Parser<I, O17, E>,
    A18: Parser<I, O18, E>,
    A19: Parser<I, O19, E>,
    A20: Parser<I, O20, E>,
    A21: Parser<I, O21, E>,
>(
    ps: (
        A1, A2, A3, A4, A5, A6, A7, A8, A9, A10, A11, A12, A13, A14, A15, A16, A17, A18, A19, A20,
        A21,
    ),
)
    requires
        advancing(ps.0),
        advancing(ps.1),
        advancing(ps.2),
        advancing(ps.3),
        advancing(ps.4),
        advancing(ps.5),
        advancing(ps.6),
        advancing(ps.7),
        advancing(ps.8),
        advancing(ps.9),
        advancing(ps.10),
        advancing(ps.11),
        advancing(ps.12),
        advancing(ps.13),
        advancing(ps.14),
        advancing(ps.15),
        advancing(ps.16),
        advancing(ps.17),
        advancing(ps.18),
        advancing(ps.19),
        advancing(ps.20),
    ensures
        advancing(ps),
{
    let head = (
        ps.0, ps.1, ps.2, ps.3, ps.4, ps.5, ps.6, ps.7, ps.8, ps.9, ps.10, ps.11, ps.12, ps.13,
        ps.14, ps.15, ps.16, ps.17, ps.18, ps.19,
    );
    lemma_sequence_20_advancing(head);
    assert forall|
        before: I,
        after: I,
        r: PResult<
            (
                O1, O2, O3, O4, O5, O6, O7, O8, O9, O10, O11, O12, O13, O14, O15, O16, O17, O18,
                O19, O20, O21,
            ),
            E,
        >,
    | #[trigger]
        ps.parses(before, after, r) implies reaches(before, after) by {
        match r {
            Ok(o) => {
                let outs = (
                    o.0, o.1, o.2, o.3, o.4, o.5, o.6, o.7, o.8, o.9, o.10, o.11, o.12, o.13, o.14,
                    o.15, o.16, o.17, o.18, o.19,
                );
                let mid = choose|mid: I| #[trigger]
                    stops_at(mid) && head.parses(before, mid, Ok(outs)) && ps.20.parses(
                        mid,
                        after,
                        Ok(o.20),
                    );
                assert(head.parses(before, mid, Ok(outs)));
                assert(ps.20.parses(mid, after, Ok(o.20)));
                lemma_forward_twice(before, mid, after);
            },
            Err(e) => {
                if !head.parses(before, after, Err(e)) {
                    let (mid, o) = choose|
                        mid: I,
                        o: (
                            O1, O2, O3, O4, O5, O6, O7, O8, O9, O10, O11, O12, O13, O14, O15, O16,
                            O17, O18, O19, O20,
                        ),
                    | #[trigger]
                        stops_with(mid, o) && head.parses(before, mid, Ok(o)) && ps.20.parses(
                            mid,
                            after,
                            Err(e),
                        );
                    assert(head.parses(before, mid, Ok(o)));
                    assert(ps.20.parses(mid, after, Err::<O21, _>(e)));
                    lemma_forward_twice(before, mid, after);
                }
            },
        }
    }
}

} // verus!
