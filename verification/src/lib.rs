//! Parser combinators with a backtracking-aware outcome protocol.
//!
//! A parser reads a prefix of a [`stream::Stream`] and either yields an output
//! with the cursor advanced, or fails in one of three ways
//! ([`error::ErrMode`]): recoverably, unrecoverably, or by asking a partial
//! stream for more input. Combinators build parsers from parsers: adapters
//! ([`combinator`]), sequences (tuples), ordered choice and permutation
//! ([`branch`]).
//!
//! Every parser is described by a relation, [`parser::Parser::parses`],
//! between the cursor before a call, the cursor after it and the outcome. A
//! combinator states its relation in terms of the relations of its parts, and
//! [`lemmas`] holds what follows from these relations. The files with `lists`
//! in their names and [`sequence`] hold the same code once for each length
//! of tuple.
pub mod alt_lists;
pub mod ascii;
pub mod binary;
pub mod branch;
pub mod combinator;
pub mod error;
pub mod lemmas;
pub mod parser;
pub mod permutation_lists;
pub mod sequence;
pub mod stream;
pub mod text;
pub mod token;

pub use error::{
    ErrMode, ErrorKind, ErrorStr, IResult, InputError, Needed, PResult, ParseError,
};
pub use parser::{from_peek, unpeek, Parser, ParserChain};
pub use stream::{
    Compare, CompareResult, Located, Location, Partial, Stream, StreamIsPartial,
};
