//! The outcome protocol: recoverable failure, unrecoverable failure and
//! "need more input", and the error values that travel with the first two.
use vstd::prelude::*;
use vstd::string::StringExecFns;
use crate::text::decimal_digits;

verus! {

/// How many more tokens a partial stream must supply before a parser can
/// decide. A count of zero stands for "some, number unknown".
#[derive(Debug, Clone, Copy, PartialEq, Eq)]
pub struct Needed {
    pub size: usize,
}

impl Needed {
    /// The request for `s` more tokens; `s == 0` gives the unknown request.
    pub fn new(s: usize) -> (n: Needed)
        ensures
            n.size == s,
    {
        Needed { size: s }
    }

    /// The request for an unknown number of tokens.
    pub fn unknown() -> (n: Needed)
        ensures
            n.size == 0,
    {
        Needed { size: 0 }
    }

    pub open spec fn known(&self) -> bool {
        self.size != 0
    }

    /// Whether the number of missing tokens is known.
    pub fn is_known(&self) -> (b: bool)
        ensures
            b == self.known(),
    {
        self.size != 0
    }
}

/// Which rule refused the input.
#[derive(Debug, Clone, Copy, PartialEq, Eq, Hash)]
pub enum ErrorKind {
    /// A literal did not match.
    Tag,
    /// Too few tokens for a slice of the requested shape.
    Slice,
    /// A single token was asked for past the end, or was refused.
    Token,
    /// A predicate or a fallible conversion refused the output.
    Verify,
    /// Every alternative backtracked.
    Alt,
    /// A round of a permutation made no progress.
    Permutation,
    /// "Need more input" was turned into a failure.
    Complete,
    /// Input was left where the end was required.
    Eof,
}

impl ErrorKind {
    /// A short name of the kind.
    pub fn description(&self) -> (s: &'static str)
        ensures
            s@ == self.description_spec(),
    {
        match self {
            ErrorKind::Tag => "Tag",
            ErrorKind::Slice => "Slice",
            ErrorKind::Token => "Token",
            ErrorKind::Verify => "Verify",
            ErrorKind::Alt => "Alt",
            ErrorKind::Permutation => "Permutation",
            ErrorKind::Complete => "Complete",
            ErrorKind::Eof => "Eof",
        }
    }

    pub open spec fn description_spec(&self) -> Seq<char> {
        match self {
            ErrorKind::Tag => "Tag"@,
            ErrorKind::Slice => "Slice"@,
            ErrorKind::Token => "Token"@,
            ErrorKind::Verify => "Verify"@,
            ErrorKind::Alt => "Alt"@,
            ErrorKind::Permutation => "Permutation"@,
            ErrorKind::Complete => "Complete"@,
            ErrorKind::Eof => "Eof"@,
        }
    }
}

/// What an error type must offer so that parsers can report with it.
///
/// Error values are opaque to the combinators, so the trait describes each
/// operation by a relation between its arguments and the value it may return.
pub trait ParseError<I>: Sized {
    /// `self` is a value that `from_error_kind(input, kind)` may return.
    spec fn made_from_kind(&self, input: I, kind: ErrorKind) -> bool;

    /// `self` is a value that `prev.append(input, kind)` may return.
    spec fn appended_to(&self, prev: Self, input: I, kind: ErrorKind) -> bool;

    /// An error for the rule `kind` failing at `input`.
    fn from_error_kind(input: &I, kind: ErrorKind) -> (e: Self)
        ensures
            e.made_from_kind(*input, kind),
    ;

    /// Adds the frame (`input`, `kind`) on top of an existing error.
    fn append(self, input: &I, kind: ErrorKind) -> (e: Self)
        ensures
            e.appended_to(self, *input, kind),
    ;

    /// Merges the errors of two branches that both failed: the later one wins.
    fn or(self, other: Self) -> (e: Self)
        ensures
            e == other,
    {
        other
    }
}

/// Lets an error type carry an error that came from outside the parsers.
pub trait FromExternalError<I, E2>: Sized {
    /// `self` is a value that `from_external_error(input, kind, e)` may return.
    spec fn made_from_external(&self, input: I, kind: ErrorKind, e: E2) -> bool;

    /// An error for the rule `kind` failing at `input` because of `e`.
    fn from_external_error(input: &I, kind: ErrorKind, e: E2) -> (r: Self)
        ensures
            r.made_from_external(*input, kind, e),
    ;
}

/// Lets an error type record a caller-supplied label.
pub trait AddContext<I, C>: Sized {
    /// `self` is a value that `prev.add_context(input, ctx)` may return.
    spec fn with_context(&self, prev: Self, input: I, ctx: C) -> bool;

    /// Records `ctx`, noticed at `input`, on top of an existing error.
    fn add_context(self, input: &I, ctx: C) -> (e: Self)
        ensures
            e.with_context(self, *input, ctx),
    ;
}

/// The three ways a parser can fail.
#[derive(Debug, Clone, PartialEq, Eq)]
pub enum ErrMode<E> {
    /// Not an error: a partial stream ended before the parser could decide.
    Incomplete(Needed),
    /// Recoverable: an enclosing alternation may try another branch.
    Backtrack(E),
    /// Unrecoverable: alternations pass it on without trying other branches.
    Cut(E),
}

/// Outcome of advancing a cursor.
pub type PResult<O, E> = Result<O, ErrMode<E>>;

/// Outcome of parsing an input taken by value: the rest and the output.
pub type IResult<I, O, E> = Result<(I, O), ErrMode<E>>;

/// The outcome `r` is a recoverable failure of the rule `kind` at `at`.
pub open spec fn backtracks_at<I, O, E: ParseError<I>>(
    r: PResult<O, E>,
    at: I,
    kind: ErrorKind,
) -> bool {
    r matches Err(ErrMode::Backtrack(e)) && e.made_from_kind(at, kind)
}

/// The outcome `r` is a request for exactly `missing` more tokens.
pub open spec fn asks_for<O, E>(r: PResult<O, E>, missing: usize) -> bool {
    r matches Err(ErrMode::Incomplete(n)) && n.size == missing
}

impl<E> ErrMode<E> {
    /// Whether this is "need more input".
    pub fn is_incomplete(&self) -> (b: bool)
        ensures
            b == (self is Incomplete),
    {
        match self {
            ErrMode::Incomplete(_) => true,
            _ => false,
        }
    }

    pub open spec fn cut_spec(self) -> Self {
        match self {
            ErrMode::Backtrack(e) => ErrMode::Cut(e),
            rest => rest,
        }
    }

    /// Commits: a recoverable failure becomes unrecoverable.
    pub fn cut(self) -> (r: Self)
        ensures
            r == self.cut_spec(),
    {
        match self {
            ErrMode::Backtrack(e) => ErrMode::Cut(e),
            rest => rest,
        }
    }

    pub open spec fn backtrack_spec(self) -> Self {
        match self {
            ErrMode::Cut(e) => ErrMode::Backtrack(e),
            rest => rest,
        }
    }

    /// Rescues: an unrecoverable failure becomes recoverable.
    pub fn backtrack(self) -> (r: Self)
        ensures
            r == self.backtrack_spec(),
    {
        match self {
            ErrMode::Cut(e) => ErrMode::Backtrack(e),
            rest => rest,
        }
    }

    pub open spec fn inner_spec(self) -> Option<E> {
        match self {
            ErrMode::Backtrack(e) | ErrMode::Cut(e) => Some(e),
            ErrMode::Incomplete(_) => None,
        }
    }

    /// The error value of a failure; `None` for "need more input".
    pub fn into_inner(self) -> (r: Option<E>)
        ensures
            r == self.inner_spec(),
    {
        match self {
            ErrMode::Backtrack(e) => Some(e),
            ErrMode::Cut(e) => Some(e),
            ErrMode::Incomplete(_) => None,
        }
    }

    /// `r` is what mapping the error value of `self` with `f` may give.
    pub open spec fn mapped_by<E2, F: FnOnce(E) -> E2>(self, f: F, r: ErrMode<E2>) -> bool {
        match self {
            ErrMode::Incomplete(n) => r == ErrMode::<E2>::Incomplete(n),
            ErrMode::Backtrack(e) => r matches ErrMode::Backtrack(e2) && call_ensures(f, (e,), e2),
            ErrMode::Cut(e) => r matches ErrMode::Cut(e2) && call_ensures(f, (e,), e2),
        }
    }

    /// Applies `f` to the error value; "need more input" passes through.
    pub fn map<E2, F>(self, f: F) -> (r: ErrMode<E2>) where F: FnOnce(E) -> E2
        requires
            self.inner_spec() matches Some(e) ==> call_requires(f, (e,)),
        ensures
            self.mapped_by(f, r),
    {
        match self {
            ErrMode::Incomplete(n) => ErrMode::Incomplete(n),
            ErrMode::Backtrack(e) => ErrMode::Backtrack(f(e)),
            ErrMode::Cut(e) => ErrMode::Cut(f(e)),
        }
    }
}

impl<I, E: ParseError<I>> ParseError<I> for ErrMode<E> {
    open spec fn made_from_kind(&self, input: I, kind: ErrorKind) -> bool {
        self matches ErrMode::Backtrack(e) && e.made_from_kind(input, kind)
    }

    open spec fn appended_to(&self, prev: Self, input: I, kind: ErrorKind) -> bool {
        match prev {
            ErrMode::Incomplete(n) => *self == prev,
            ErrMode::Backtrack(p) => self matches ErrMode::Backtrack(e) && e.appended_to(
                p,
                input,
                kind,
            ),
            ErrMode::Cut(p) => self matches ErrMode::Cut(e) && e.appended_to(p, input, kind),
        }
    }

    /// A recoverable failure of the rule `kind` at `input`.
    fn from_error_kind(input: &I, kind: ErrorKind) -> (e: Self) {
        ErrMode::Backtrack(E::from_error_kind(input, kind))
    }

    /// Adds a frame to the error value; "need more input" passes through.
    fn append(self, input: &I, kind: ErrorKind) -> (e: Self) {
        match self {
            ErrMode::Incomplete(n) => ErrMode::Incomplete(n),
            ErrMode::Backtrack(p) => ErrMode::Backtrack(p.append(input, kind)),
            ErrMode::Cut(p) => ErrMode::Cut(p.append(input, kind)),
        }
    }
}

/// The smallest useful error: where the failure was noticed and which rule
/// failed. Frames added later are dropped.
#[derive(Debug, Copy, PartialEq, Eq)]
pub struct InputError<I> {
    /// The cursor at the failure.
    pub input: I,
    /// The rule that failed.
    pub kind: ErrorKind,
}

impl<I: Clone> Clone for InputError<I> {
    /// The same kind at a clone of the cursor.
    fn clone(&self) -> (c: Self)
        ensures
            cloned(self.input, c.input),
            c.kind == self.kind,
    {
        InputError { input: self.input.clone(), kind: self.kind }
    }
}

impl<I> InputError<I> {
    /// The error for `kind` failing at `input`.
    pub fn new(input: I, kind: ErrorKind) -> (e: Self)
        ensures
            e.input == input,
            e.kind == kind,
    {
        InputError { input, kind }
    }
}

impl<I: Clone> ParseError<I> for InputError<I> {
    open spec fn made_from_kind(&self, input: I, kind: ErrorKind) -> bool {
        cloned(input, self.input) && self.kind == kind
    }

    open spec fn appended_to(&self, prev: Self, input: I, kind: ErrorKind) -> bool {
        *self == prev
    }

    fn from_error_kind(input: &I, kind: ErrorKind) -> (e: Self) {
        InputError { input: input.clone(), kind }
    }

    fn append(self, input: &I, kind: ErrorKind) -> (e: Self) {
        self
    }
}

impl<I: Clone, E2> FromExternalError<I, E2> for InputError<I> {
    open spec fn made_from_external(&self, input: I, kind: ErrorKind, e: E2) -> bool {
        cloned(input, self.input) && self.kind == kind
    }

    /// Keeps the position and the kind; the outside error is dropped.
    fn from_external_error(input: &I, kind: ErrorKind, e: E2) -> (r: Self) {
        InputError { input: input.clone(), kind }
    }
}

impl<I, C> AddContext<I, C> for InputError<I> {
    open spec fn with_context(&self, prev: Self, input: I, ctx: C) -> bool {
        *self == prev
    }

    /// The label is dropped.
    fn add_context(self, input: &I, ctx: C) -> (e: Self) {
        self
    }
}

/// An error that is a readable message, for callers that only want to show
/// what went wrong.
#[derive(Debug, Clone, PartialEq, Eq)]
pub struct ErrorStr(pub String);

/// Formats a number with [`core::fmt::Display`], which writes its decimal
/// digits.
#[verifier::external_body]
fn display_number(i: u32) -> (s: String)
    ensures
        s@ == decimal_digits(i as nat),
{
    format!("{}", i)
}

/// Formats a value with its [`core::fmt::Debug`]. What is written is up to the
/// value's type, so nothing is stated of it.
#[verifier::external_body]
fn debug_text<T: core::fmt::Debug>(t: &T) -> String {
    format!("{:?}", t)
}

/// What [`core::fmt::Debug`] writes for the [`ErrorStr`] with the message
/// `text`: the type's name around the message in quotes, with the characters
/// that need it escaped.
pub uninterp spec fn error_debug_text(text: Seq<char>) -> Seq<char>;

/// Formats an [`ErrorStr`] with its derived [`core::fmt::Debug`]. The result
/// depends on the message alone.
#[verifier::external_body]
fn debug_error(e: &ErrorStr) -> (s: String)
    ensures
        s@ == error_debug_text(e.0@),
{
    format!("{:?}", e)
}

impl ErrorStr {
    /// The text of the message for an error code.
    pub open spec fn code_message(i: u32) -> Seq<char> {
        "custom error code: "@ + decimal_digits(i as nat)
    }

    /// The text of the message made from another message.
    pub open spec fn text_message(text: Seq<char>) -> Seq<char> {
        "custom error message: "@ + text
    }

    /// The text of the message for the rule `kind` failing at an input that
    /// is shown as `shown`.
    pub open spec fn kind_message(shown: Seq<char>, kind: ErrorKind) -> Seq<char> {
        "custom error message: ("@ + shown + ", "@ + kind.description_spec() + ")"@
    }

    /// The text of the message for the rule `kind` failing at an input that
    /// is shown as `shown`, on top of an earlier error that is shown as
    /// `earlier`.
    pub open spec fn frame_message(
        shown: Seq<char>,
        kind: ErrorKind,
        earlier: Seq<char>,
    ) -> Seq<char> {
        Self::kind_message(shown, kind) + " - "@ + earlier
    }

    /// The message for an error code.
    pub fn from_code(i: u32) -> (e: Self)
        ensures
            e.0@ == Self::code_message(i),
    {
        let mut s = String::from_str("custom error code: ");
        let digits = display_number(i);
        s.append(digits.as_str());
        ErrorStr(s)
    }

    /// The message made from another message.
    pub fn from_text(text: &str) -> (e: Self)
        ensures
            e.0@ == Self::text_message(text@),
    {
        let mut s = String::from_str("custom error message: ");
        s.append(text);
        ErrorStr(s)
    }

    /// The error whose message is `text`.
    pub fn new(text: &str) -> (e: Self)
        ensures
            e.0@ == text@,
    {
        ErrorStr(String::from_str(text))
    }

    /// The message for the rule `kind` failing at an input shown as `shown`.
    pub fn with_kind(shown: &str, kind: ErrorKind) -> (e: Self)
        ensures
            e.0@ == Self::kind_message(shown@, kind),
    {
        let mut s = String::from_str("custom error message: (");
        s.append(shown);
        s.append(", ");
        s.append(kind.description());
        s.append(")");
        ErrorStr(s)
    }

    /// The message for the rule `kind` failing at an input shown as `shown`,
    /// on top of an earlier error shown as `earlier`.
    pub fn with_frame(shown: &str, kind: ErrorKind, earlier: &str) -> (e: Self)
        ensures
            e.0@ == Self::frame_message(shown@, kind, earlier@),
    {
        let mut s = Self::with_kind(shown, kind).0;
        s.append(" - ");
        s.append(earlier);
        ErrorStr(s)
    }
}

/// Nothing is fixed of the conversions as values: what they promise is said
/// of the message text, on the functions themselves.
impl vstd::std_specs::convert::FromSpecImpl<u32> for ErrorStr {
    open spec fn obeys_from_spec() -> bool {
        false
    }

    open spec fn from_spec(v: u32) -> Self {
        arbitrary()
    }
}

impl<'a> vstd::std_specs::convert::FromSpecImpl<&'a str> for ErrorStr {
    open spec fn obeys_from_spec() -> bool {
        false
    }

    open spec fn from_spec(v: &'a str) -> Self {
        arbitrary()
    }
}

impl From<u32> for ErrorStr {
    fn from(i: u32) -> (e: Self)
        ensures
            e.0@ == Self::code_message(i),
    {
        ErrorStr::from_code(i)
    }
}

impl<'a> From<&'a str> for ErrorStr {
    fn from(i: &'a str) -> (e: Self)
        ensures
            e.0@ == Self::text_message(i@),
    {
        ErrorStr::from_text(i)
    }
}

impl<I: core::fmt::Debug> ParseError<I> for ErrorStr {
    /// The message names the kind and shows the input in some way.
    open spec fn made_from_kind(&self, input: I, kind: ErrorKind) -> bool {
        exists|shown: Seq<char>| #[trigger] Self::kind_message(shown, kind) == self.0@
    }

    /// The message names the kind, shows the input in some way, and ends with
    /// the earlier error as its `Debug` shows it.
    open spec fn appended_to(&self, prev: Self, input: I, kind: ErrorKind) -> bool {
        exists|shown: Seq<char>| #[trigger]
            Self::frame_message(shown, kind, error_debug_text(prev.0@)) == self.0@
    }

    fn from_error_kind(input: &I, kind: ErrorKind) -> (e: Self) {
        let shown = debug_text(input);
        let e = Self::with_kind(shown.as_str(), kind);
        assert(Self::kind_message(shown@, kind) == e.0@);
        e
    }

    fn append(self, input: &I, kind: ErrorKind) -> (e: Self) {
        let shown = debug_text(input);
        let earlier = debug_error(&self);
        let e = Self::with_frame(shown.as_str(), kind, earlier.as_str());
        assert(Self::frame_message(shown@, kind, error_debug_text(self.0@)) == e.0@);
        e
    }
}

} // verus!
