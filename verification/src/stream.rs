//! Inputs: cursors over a sequence of tokens.
//!
//! A stream is modelled by the tokens it has left ([`Stream::tokens`]) and by
//! the relation [`Stream::steps_to`] between a cursor and the cursor it
//! becomes after a number of tokens were consumed.
use vstd::prelude::*;
use vstd::slice::slice_subrange;
use vstd::string::StrSliceExecFns;
use vstd::string::StringSliceAdditionalSpecFns;
use vstd::utf8::encode_utf8;

verus! {

/// A cursor into a sequence of tokens.
pub trait Stream: Sized {
    /// The atomic element, such as a byte or a character.
    type Token;

    /// A contiguous run of tokens.
    type Slice;

    /// The tokens that are left to read.
    spec fn tokens(&self) -> Seq<Self::Token>;

    /// The tokens that a slice holds.
    spec fn slice_tokens(s: Self::Slice) -> Seq<Self::Token>;

    /// `after` is this cursor moved forward by `n` tokens.
    spec fn steps_to(&self, n: nat, after: Self) -> bool;

    /// How many bytes of the input the tokens take.
    spec fn width(tokens: Seq<Self::Token>) -> nat;

    /// Moving forward by `n` drops exactly the first `n` tokens.
    proof fn lemma_steps_tokens(&self, n: nat, after: Self)
        requires
            self.steps_to(n, after),
        ensures
            n <= self.tokens().len(),
            after.tokens() == self.tokens().skip(n as int),
    ;

    /// A cursor is itself moved forward by nothing.
    proof fn lemma_steps_zero(&self)
        ensures
            self.steps_to(0, *self),
    ;

    /// Two moves in a row are one move by the sum.
    proof fn lemma_steps_chain(&self, n: nat, mid: Self, m: nat, after: Self)
        requires
            self.steps_to(n, mid),
            mid.steps_to(m, after),
        ensures
            self.steps_to(n + m, after),
    ;

    /// Tokens put one after the other take the bytes of both.
    proof fn lemma_width_concat(a: Seq<Self::Token>, b: Seq<Self::Token>)
        ensures
            Self::width(a + b) == Self::width(a) + Self::width(b),
    ;

    /// The number of tokens left.
    fn eof_offset(&self) -> (n: usize)
        ensures
            n == self.tokens().len(),
    ;

    /// The number of bytes left.
    fn bytes_left(&self) -> (n: usize)
        ensures
            n == Self::width(self.tokens()),
    ;

    /// Takes the next token, if there is one.
    fn next_token(&mut self) -> (t: Option<Self::Token>)
        ensures
            match t {
                Some(tok) => old(self).tokens().len() > 0 && tok == old(self).tokens()[0]
                    && old(self).steps_to(1, *final(self)),
                None => old(self).tokens().len() == 0 && *final(self) == *old(self),
            },
    ;

    /// Takes the next `offset` tokens as a slice.
    fn next_slice(&mut self, offset: usize) -> (s: Self::Slice)
        requires
            offset <= old(self).tokens().len(),
        ensures
            old(self).steps_to(offset as nat, *final(self)),
            Self::slice_tokens(s) == old(self).tokens().take(offset as int),
    ;

    /// Looks at the next token without moving the cursor: the token and the
    /// cursor behind it.
    fn peek_token(&self) -> (t: Option<(Self, Self::Token)>)
        ensures
            match t {
                Some((rest, tok)) => self.tokens().len() > 0 && tok == self.tokens()[0]
                    && self.steps_to(1, rest),
                None => self.tokens().len() == 0,
            },
    {
        let mut rest = self.checkpoint();
        match rest.next_token() {
            Some(tok) => Some((rest, tok)),
            None => None,
        }
    }

    /// Looks at the next `offset` tokens without moving the cursor: the
    /// tokens as a slice and the cursor behind them.
    fn peek_slice(&self, offset: usize) -> (r: (Self, Self::Slice))
        requires
            offset <= self.tokens().len(),
        ensures
            self.steps_to(offset as nat, r.0),
            Self::slice_tokens(r.1) == self.tokens().take(offset as int),
    {
        let mut rest = self.checkpoint();
        let s = rest.next_slice(offset);
        (rest, s)
    }

    /// How many tokens fewer are left here than at `start`; none where more
    /// are left here.
    fn tokens_since(&self, start: &Self) -> (n: Option<usize>)
        ensures
            match n {
                Some(k) => self.tokens().len() + k == start.tokens().len(),
                None => self.tokens().len() > start.tokens().len(),
            },
    {
        let then = start.eof_offset();
        let now = self.eof_offset();
        if now <= then {
            Some(then - now)
        } else {
            None
        }
    }

    /// A copy of the cursor to come back to.
    fn checkpoint(&self) -> (c: Self)
        ensures
            c == *self,
    ;

    /// Moves the cursor back to a checkpoint.
    fn reset(&mut self, checkpoint: Self)
        ensures
            *final(self) == checkpoint,
    ;

    /// How many tokens were consumed since `start`.
    fn offset_from(&self, start: &Self) -> (n: usize)
        requires
            exists|k: nat| start.steps_to(k, *self),
        ensures
            start.steps_to(n as nat, *self),
    ;
}

/// How many tokens fewer are left at `after` than at `before`; none where
/// more are left at `after`.
pub open spec fn tokens_between<I: Stream>(before: I, after: I) -> Option<nat> {
    if after.tokens().len() <= before.tokens().len() {
        Some((before.tokens().len() - after.tokens().len()) as nat)
    } else {
        None
    }
}

/// `s` holds the tokens of `before` that are left no more at `after`: as many
/// of its first tokens as `after` has fewer. Where `after` has more tokens
/// left than `before`, `s` is empty.
pub open spec fn holds_tokens_between<I: Stream>(before: I, after: I, s: I::Slice) -> bool {
    match tokens_between(before, after) {
        Some(n) => starts_with_slice(before, n, s),
        None => starts_with_slice(before, 0, s),
    }
}

/// `after` is `before` moved forward by some number of tokens.
pub open spec fn reaches<I: Stream>(before: I, after: I) -> bool {
    exists|n: nat| before.steps_to(n, after)
}

/// `s` holds the first `n` tokens of `input`.
pub open spec fn starts_with_slice<I: Stream>(input: I, n: nat, s: I::Slice) -> bool {
    n <= input.tokens().len() && I::slice_tokens(s) == input.tokens().take(n as int)
}

/// Whether a stream reports "need more input" when it runs out.
pub trait StreamIsPartial: Stream {
    /// Whether streams of this type can be partial at all.
    spec fn supports_partial() -> bool;

    /// Whether this stream may still be extended by the caller.
    spec fn partial(&self) -> bool;

    /// This stream, marked as complete.
    spec fn completed(&self) -> Self;

    /// Only a type that supports partial input has partial streams.
    proof fn lemma_partial_is_supported(&self)
        ensures
            self.partial() ==> Self::supports_partial(),
    ;

    /// Marking a stream as complete leaves its tokens as they are.
    proof fn lemma_completed_tokens(&self)
        ensures
            self.completed().tokens() == self.tokens(),
    ;

    /// Whether streams of this type can be partial at all.
    fn is_partial_supported() -> (b: bool)
        ensures
            b == Self::supports_partial(),
    ;

    /// Whether this stream may still be extended by the caller.
    fn is_partial(&self) -> (b: bool)
        ensures
            b == self.partial(),
    ;

    /// Marks the stream as complete.
    fn complete(&mut self)
        ensures
            *final(self) == old(self).completed(),
    ;
}

/// A byte offset from the start of the input, for reporting spans.
pub trait Location: Stream {
    /// How many bytes lie between the start of the input and the cursor.
    spec fn position(&self) -> nat;

    /// Moving forward by `n` tokens raises the position by the bytes that
    /// these tokens take.
    proof fn lemma_position_steps(&self, n: nat, after: Self)
        requires
            self.steps_to(n, after),
        ensures
            after.position() == self.position() + Self::width(self.tokens().take(n as int)),
    ;

    /// How many bytes lie between the start of the input and the cursor.
    fn location(&self) -> (n: usize)
        ensures
            n == self.position(),
    ;
}

/// What comparing the front of a stream with a literal pattern found.
#[derive(Debug, Clone, Copy, PartialEq, Eq)]
pub enum CompareResult {
    /// The stream starts with the pattern, which has this many tokens.
    Match(usize),
    /// The stream is a proper prefix of the pattern; this many tokens are
    /// missing.
    Incomplete(usize),
    /// The stream and the pattern differ at a token that both have.
    Mismatch,
}

/// The result of comparing the tokens `have` with the pattern `pat`.
pub open spec fn compare_tokens<T>(have: Seq<T>, pat: Seq<T>) -> CompareResult {
    if pat.len() <= have.len() {
        if have.take(pat.len() as int) == pat {
            CompareResult::Match(pat.len() as usize)
        } else {
            CompareResult::Mismatch
        }
    } else {
        if pat.take(have.len() as int) == have {
            CompareResult::Incomplete((pat.len() - have.len()) as usize)
        } else {
            CompareResult::Mismatch
        }
    }
}

/// A stream whose front can be compared with a literal pattern of type `T`.
pub trait Compare<T>: Stream {
    /// The tokens that the pattern stands for.
    spec fn pattern(t: T) -> Seq<Self::Token>;

    /// Compares the front of the stream with the pattern, token by token.
    fn compare(&self, t: T) -> (r: CompareResult)
        ensures
            r == compare_tokens(self.tokens(), Self::pattern(t)),
            self.tokens().len() <= usize::MAX,
            Self::pattern(t).len() <= usize::MAX,
    ;
}

/// Compares `have` with `pat`, byte by byte.
pub fn compare_bytes(have: &[u8], pat: &[u8]) -> (r: CompareResult)
    ensures
        r == compare_tokens(have@, pat@),
        have@.len() <= usize::MAX,
        pat@.len() <= usize::MAX,
{
    let common = if pat.len() <= have.len() {
        pat.len()
    } else {
        have.len()
    };
    let mut i: usize = 0;
    while i < common
        invariant
            i <= common,
            common <= have@.len(),
            common <= pat@.len(),
            forall|j: int| 0 <= j < i ==> have@[j] == pat@[j],
        decreases common - i,
    {
        if have[i] != pat[i] {
            proof {
                if pat@.len() <= have@.len() {
                    assert(have@.take(pat@.len() as int)[i as int] != pat@[i as int]);
                } else {
                    assert(pat@.take(have@.len() as int)[i as int] != have@[i as int]);
                }
            }
            return CompareResult::Mismatch;
        }
        i += 1;
    }
    if pat.len() <= have.len() {
        assert(have@.take(pat@.len() as int) =~= pat@);
        CompareResult::Match(pat.len())
    } else {
        assert(pat@.take(have@.len() as int) =~= have@);
        CompareResult::Incomplete(pat.len() - have.len())
    }
}

impl<'a> Stream for &'a [u8] {
    type Token = u8;

    type Slice = &'a [u8];

    open spec fn tokens(&self) -> Seq<u8> {
        self@
    }

    open spec fn slice_tokens(s: &'a [u8]) -> Seq<u8> {
        s@
    }

    open spec fn steps_to(&self, n: nat, after: Self) -> bool {
        n <= self@.len() && after@ == self@.skip(n as int)
    }

    open spec fn width(tokens: Seq<u8>) -> nat {
        tokens.len()
    }

    proof fn lemma_steps_tokens(&self, n: nat, after: Self) {
    }

    proof fn lemma_steps_zero(&self) {
        assert(self@.skip(0) =~= self@);
    }

    proof fn lemma_steps_chain(&self, n: nat, mid: Self, m: nat, after: Self) {
        assert(self@.skip(n as int).skip(m as int) =~= self@.skip((n + m) as int));
    }

    proof fn lemma_width_concat(a: Seq<u8>, b: Seq<u8>) {
    }

    fn eof_offset(&self) -> (n: usize) {
        self.len()
    }

    fn bytes_left(&self) -> (n: usize) {
        self.len()
    }

    fn next_token(&mut self) -> (t: Option<u8>) {
        if self.len() == 0 {
            None
        } else {
            let tok = self[0];
            *self = slice_subrange(*self, 1, self.len());
            assert(self@ =~= old(self)@.skip(1));
            Some(tok)
        }
    }

    fn next_slice(&mut self, offset: usize) -> (s: &'a [u8]) {
        let s = slice_subrange(*self, 0, offset);
        *self = slice_subrange(*self, offset, self.len());
        assert(self@ =~= old(self)@.skip(offset as int));
        assert(s@ =~= old(self)@.take(offset as int));
        s
    }

    fn checkpoint(&self) -> (c: Self) {
        *self
    }

    fn reset(&mut self, checkpoint: Self) {
        *self = checkpoint;
    }

    fn offset_from(&self, start: &Self) -> (n: usize) {
        proof {
            let k = choose|k: nat| start.steps_to(k, *self);
            assert(self@.len() == start@.len() - k);
        }
        start.len() - self.len()
    }
}

impl<'a> StreamIsPartial for &'a [u8] {
    open spec fn supports_partial() -> bool {
        false
    }

    open spec fn partial(&self) -> bool {
        false
    }

    open spec fn completed(&self) -> Self {
        *self
    }

    proof fn lemma_partial_is_supported(&self) {
    }

    proof fn lemma_completed_tokens(&self) {
    }

    fn is_partial_supported() -> (b: bool) {
        false
    }

    fn is_partial(&self) -> (b: bool) {
        false
    }

    fn complete(&mut self) {
    }
}

impl<'a, 'b> Compare<&'b [u8]> for &'a [u8] {
    open spec fn pattern(t: &'b [u8]) -> Seq<u8> {
        t@
    }

    fn compare(&self, t: &'b [u8]) -> (r: CompareResult) {
        compare_bytes(*self, t)
    }
}

impl<'a, 'b, const N: usize> Compare<&'b [u8; N]> for &'a [u8] {
    open spec fn pattern(t: &'b [u8; N]) -> Seq<u8> {
        t@
    }

    fn compare(&self, t: &'b [u8; N]) -> (r: CompareResult) {
        compare_bytes(*self, t.as_slice())
    }
}

impl<'a, 'b> Compare<&'b str> for &'a [u8] {
    /// A text pattern stands for its UTF-8 bytes.
    open spec fn pattern(t: &'b str) -> Seq<u8> {
        t.spec_bytes()
    }

    fn compare(&self, t: &'b str) -> (r: CompareResult) {
        compare_bytes(*self, t.as_bytes())
    }
}

/// Compares `have` with `pat`, character by character.
pub fn compare_chars(have: &str, pat: &str) -> (r: CompareResult)
    ensures
        r == compare_tokens(have@, pat@),
        have@.len() <= usize::MAX,
        pat@.len() <= usize::MAX,
{
    let have_len = have.unicode_len();
    let pat_len = pat.unicode_len();
    let common = if pat_len <= have_len {
        pat_len
    } else {
        have_len
    };
    let mut i: usize = 0;
    while i < common
        invariant
            i <= common,
            common <= have@.len(),
            common <= pat@.len(),
            have@.len() <= usize::MAX,
            pat@.len() <= usize::MAX,
            forall|j: int| 0 <= j < i ==> have@[j] == pat@[j],
        decreases common - i,
    {
        if have.get_char(i) != pat.get_char(i) {
            proof {
                if pat@.len() <= have@.len() {
                    assert(have@.take(pat@.len() as int)[i as int] != pat@[i as int]);
                } else {
                    assert(pat@.take(have@.len() as int)[i as int] != have@[i as int]);
                }
            }
            return CompareResult::Mismatch;
        }
        i += 1;
    }
    if pat_len <= have_len {
        assert(have@.take(pat@.len() as int) =~= pat@);
        CompareResult::Match(pat_len)
    } else {
        assert(pat@.take(have@.len() as int) =~= have@);
        CompareResult::Incomplete(pat_len - have_len)
    }
}

/// The encoding of two texts put one after the other is the encodings put
/// one after the other.
pub proof fn lemma_encode_concat(a: Seq<char>, b: Seq<char>)
    ensures
        encode_utf8(a + b) == encode_utf8(a) + encode_utf8(b),
    decreases a.len(),
{
    if a.len() == 0 {
        assert(a + b =~= b);
        assert(encode_utf8(a) + encode_utf8(b) =~= encode_utf8(b));
    } else {
        assert((a + b).drop_first() =~= a.drop_first() + b);
        lemma_encode_concat(a.drop_first(), b);
        assert(encode_utf8(a + b) =~= encode_utf8(a) + encode_utf8(b));
    }
}

/// Text as a stream of characters. Offsets count characters, and each step
/// walks the text from its start to find them.
impl<'a> Stream for &'a str {
    type Token = char;

    type Slice = &'a str;

    open spec fn tokens(&self) -> Seq<char> {
        self@
    }

    open spec fn slice_tokens(s: &'a str) -> Seq<char> {
        s@
    }

    open spec fn steps_to(&self, n: nat, after: Self) -> bool {
        n <= self@.len() && after@ == self@.skip(n as int)
    }

    /// Characters take the bytes of their UTF-8 encoding.
    open spec fn width(tokens: Seq<char>) -> nat {
        encode_utf8(tokens).len()
    }

    proof fn lemma_steps_tokens(&self, n: nat, after: Self) {
    }

    proof fn lemma_steps_zero(&self) {
        assert(self@.skip(0) =~= self@);
    }

    proof fn lemma_steps_chain(&self, n: nat, mid: Self, m: nat, after: Self) {
        assert(self@.skip(n as int).skip(m as int) =~= self@.skip((n + m) as int));
    }

    proof fn lemma_width_concat(a: Seq<char>, b: Seq<char>) {
        lemma_encode_concat(a, b);
    }

    fn eof_offset(&self) -> (n: usize) {
        self.unicode_len()
    }

    fn bytes_left(&self) -> (n: usize) {
        self.as_bytes().len()
    }

    fn next_token(&mut self) -> (t: Option<char>) {
        let len = self.unicode_len();
        if len == 0 {
            None
        } else {
            let tok = self.get_char(0);
            *self = self.substring_char(1, len);
            assert(self@ =~= old(self)@.skip(1));
            Some(tok)
        }
    }

    fn next_slice(&mut self, offset: usize) -> (s: &'a str) {
        let len = self.unicode_len();
        let s = self.substring_char(0, offset);
        *self = self.substring_char(offset, len);
        assert(self@ =~= old(self)@.skip(offset as int));
        assert(s@ =~= old(self)@.take(offset as int));
        s
    }

    fn checkpoint(&self) -> (c: Self) {
        *self
    }

    fn reset(&mut self, checkpoint: Self) {
        *self = checkpoint;
    }

    fn offset_from(&self, start: &Self) -> (n: usize) {
        proof {
            let k = choose|k: nat| start.steps_to(k, *self);
            assert(self@.len() == start@.len() - k);
        }
        start.unicode_len() - self.unicode_len()
    }
}

impl<'a> StreamIsPartial for &'a str {
    open spec fn supports_partial() -> bool {
        false
    }

    open spec fn partial(&self) -> bool {
        false
    }

    open spec fn completed(&self) -> Self {
        *self
    }

    proof fn lemma_partial_is_supported(&self) {
    }

    proof fn lemma_completed_tokens(&self) {
    }

    fn is_partial_supported() -> (b: bool) {
        false
    }

    fn is_partial(&self) -> (b: bool) {
        false
    }

    fn complete(&mut self) {
    }
}

impl<'a, 'b> Compare<&'b str> for &'a str {
    open spec fn pattern(t: &'b str) -> Seq<char> {
        t@
    }

    fn compare(&self, t: &'b str) -> (r: CompareResult) {
        compare_chars(*self, t)
    }
}

/// Marks a stream as one that the caller may still extend, so that parsers
/// reaching its end report "need more input" in place of a failure.
#[derive(Debug, Copy, PartialEq, Eq)]
pub struct Partial<I> {
    pub input: I,
    pub partial: bool,
}

impl<I: Clone> Clone for Partial<I> {
    /// A clone of the stream inside, marked as this one is.
    fn clone(&self) -> (c: Self)
        ensures
            cloned(self.input, c.input),
            c.partial == self.partial,
    {
        Partial { input: self.input.clone(), partial: self.partial }
    }
}

impl<I> Partial<I> {
    /// Wraps `input` as a partial stream.
    pub fn new(input: I) -> (p: Self)
        ensures
            p.input == input,
            p.partial,
    {
        Partial { input, partial: true }
    }

    /// The stream inside.
    pub fn into_inner(self) -> (i: I)
        ensures
            i == self.input,
    {
        self.input
    }
}

impl<I: Stream> Stream for Partial<I> {
    type Token = I::Token;

    type Slice = I::Slice;

    open spec fn tokens(&self) -> Seq<I::Token> {
        self.input.tokens()
    }

    open spec fn slice_tokens(s: I::Slice) -> Seq<I::Token> {
        I::slice_tokens(s)
    }

    open spec fn steps_to(&self, n: nat, after: Self) -> bool {
        after.partial == self.partial && self.input.steps_to(n, after.input)
    }

    open spec fn width(tokens: Seq<I::Token>) -> nat {
        I::width(tokens)
    }

    proof fn lemma_steps_tokens(&self, n: nat, after: Self) {
        self.input.lemma_steps_tokens(n, after.input);
    }

    proof fn lemma_steps_zero(&self) {
        self.input.lemma_steps_zero();
    }

    proof fn lemma_steps_chain(&self, n: nat, mid: Self, m: nat, after: Self) {
        self.input.lemma_steps_chain(n, mid.input, m, after.input);
    }

    proof fn lemma_width_concat(a: Seq<I::Token>, b: Seq<I::Token>) {
        I::lemma_width_concat(a, b);
    }

    fn eof_offset(&self) -> (n: usize) {
        self.input.eof_offset()
    }

    fn bytes_left(&self) -> (n: usize) {
        self.input.bytes_left()
    }

    fn next_token(&mut self) -> (t: Option<I::Token>) {
        self.input.next_token()
    }

    fn next_slice(&mut self, offset: usize) -> (s: I::Slice) {
        self.input.next_slice(offset)
    }

    fn checkpoint(&self) -> (c: Self) {
        Partial { input: self.input.checkpoint(), partial: self.partial }
    }

    fn reset(&mut self, checkpoint: Self) {
        *self = checkpoint;
    }

    fn offset_from(&self, start: &Self) -> (n: usize) {
        proof {
            let k = choose|k: nat| start.steps_to(k, *self);
            assert(start.input.steps_to(k, self.input));
        }
        self.input.offset_from(&start.input)
    }
}

impl<I: Stream> StreamIsPartial for Partial<I> {
    open spec fn supports_partial() -> bool {
        true
    }

    open spec fn partial(&self) -> bool {
        self.partial
    }

    open spec fn completed(&self) -> Self {
        Partial { input: self.input, partial: false }
    }

    proof fn lemma_partial_is_supported(&self) {
    }

    proof fn lemma_completed_tokens(&self) {
    }

    fn is_partial_supported() -> (b: bool) {
        true
    }

    fn is_partial(&self) -> (b: bool) {
        self.partial
    }

    fn complete(&mut self) {
        self.partial = false;
    }
}

impl<I: Compare<T>, T> Compare<T> for Partial<I> {
    open spec fn pattern(t: T) -> Seq<I::Token> {
        I::pattern(t)
    }

    fn compare(&self, t: T) -> (r: CompareResult) {
        self.input.compare(t)
    }
}

/// Remembers how far a stream has been read, so that parsers can report
/// positions: the number of bytes read so far.
#[derive(Debug, PartialEq, Eq)]
pub struct Located<I: Stream> {
    input: I,
    offset: usize,
}

impl<I: Stream> Located<I> {
    /// The count of the bytes read so far and of those left fits the
    /// machine's word.
    #[verifier::type_invariant]
    pub closed spec fn inv(&self) -> bool {
        self.offset + I::width(self.input.tokens()) <= usize::MAX
    }

    /// The stream inside.
    pub closed spec fn inner(&self) -> I {
        self.input
    }

    /// Wraps `input`, whose cursor becomes position 0.
    pub fn new(input: I) -> (l: Self)
        ensures
            l.inner() == input,
            l.position() == 0,
            l.tokens() == input.tokens(),
    {
        let left = input.bytes_left();
        Located { input, offset: 0 }
    }

    /// The stream inside.
    pub fn into_inner(self) -> (i: I)
        ensures
            i == self.inner(),
    {
        self.input
    }

    /// A located stream has the tokens of the stream inside, measures tokens
    /// and slices as the stream inside does, and is fixed by the stream inside
    /// and its position.
    pub proof fn lemma_model(&self)
        ensures
            self.tokens() == self.inner().tokens(),
            forall|tokens: Seq<I::Token>| #[trigger] Self::width(tokens) == I::width(tokens),
            forall|s: I::Slice| #[trigger] Self::slice_tokens(s) == I::slice_tokens(s),
            forall|other: Self|
                #[trigger] other.inner() == self.inner() && other.position() == self.position()
                    ==> other == *self,
    {
    }

    /// A located stream moves forward as the stream inside does, and its
    /// position grows by the bytes of the tokens passed.
    pub proof fn lemma_steps(&self, n: nat, after: Self)
        ensures
            self.steps_to(n, after) <==> self.inner().steps_to(n, after.inner())
                && after.position() == self.position() + I::width(
                self.inner().tokens().take(n as int),
            ),
    {
    }

    /// The bytes left at a cursor are those of the tokens up to a cursor
    /// further on and those left there.
    proof fn lemma_bytes_between(before: I, n: nat, after: I)
        requires
            before.steps_to(n, after),
        ensures
            I::width(before.tokens()) == I::width(before.tokens().take(n as int)) + I::width(
                after.tokens(),
            ),
    {
        before.lemma_steps_tokens(n, after);
        let tokens = before.tokens();
        assert(tokens =~= tokens.take(n as int) + tokens.skip(n as int));
        I::lemma_width_concat(tokens.take(n as int), tokens.skip(n as int));
    }

    /// The stream `input` reached from this cursor by `n` tokens, with the
    /// bytes of these tokens added to the position.
    fn moved_to(&self, input: I, Ghost(n): Ghost<nat>) -> (l: Self)
        requires
            self.input.steps_to(n, input),
        ensures
            self.steps_to(n, l),
            l.input == input,
    {
        proof {
            use_type_invariant(self);
            Self::lemma_bytes_between(self.input, n, input);
        }
        let read = self.input.bytes_left() - input.bytes_left();
        Located { input, offset: self.offset + read }
    }
}

impl<I: Stream> Clone for Located<I> {
    /// A copy of the cursor, made as a checkpoint is.
    fn clone(&self) -> (c: Self)
        ensures
            c == *self,
    {
        proof {
            use_type_invariant(self);
        }
        Located { input: self.input.checkpoint(), offset: self.offset }
    }
}

impl<I: Stream> Stream for Located<I> {
    type Token = I::Token;

    type Slice = I::Slice;

    closed spec fn tokens(&self) -> Seq<I::Token> {
        self.input.tokens()
    }

    closed spec fn slice_tokens(s: I::Slice) -> Seq<I::Token> {
        I::slice_tokens(s)
    }

    closed spec fn steps_to(&self, n: nat, after: Self) -> bool {
        &&& self.input.steps_to(n, after.input)
        &&& after.offset == self.offset + I::width(self.input.tokens().take(n as int))
    }

    closed spec fn width(tokens: Seq<I::Token>) -> nat {
        I::width(tokens)
    }

    proof fn lemma_steps_tokens(&self, n: nat, after: Self) {
        self.input.lemma_steps_tokens(n, after.input);
    }

    proof fn lemma_steps_zero(&self) {
        self.input.lemma_steps_zero();
        let none = self.input.tokens().take(0);
        assert(none + none =~= none);
        I::lemma_width_concat(none, none);
    }

    proof fn lemma_steps_chain(&self, n: nat, mid: Self, m: nat, after: Self) {
        self.input.lemma_steps_chain(n, mid.input, m, after.input);
        self.input.lemma_steps_tokens(n, mid.input);
        mid.input.lemma_steps_tokens(m, after.input);
        let tokens = self.input.tokens();
        assert(tokens.take((n + m) as int) =~= tokens.take(n as int) + tokens.skip(n as int).take(
            m as int,
        ));
        I::lemma_width_concat(tokens.take(n as int), tokens.skip(n as int).take(m as int));
    }

    proof fn lemma_width_concat(a: Seq<I::Token>, b: Seq<I::Token>) {
        I::lemma_width_concat(a, b);
    }

    fn eof_offset(&self) -> (n: usize) {
        self.input.eof_offset()
    }

    fn bytes_left(&self) -> (n: usize) {
        self.input.bytes_left()
    }

    fn next_token(&mut self) -> (t: Option<I::Token>) {
        let mut input = self.input.checkpoint();
        let t = input.next_token();
        if t.is_some() {
            *self = self.moved_to(input, Ghost(1));
        }
        t
    }

    fn next_slice(&mut self, offset: usize) -> (s: I::Slice) {
        let mut input = self.input.checkpoint();
        let s = input.next_slice(offset);
        *self = self.moved_to(input, Ghost(offset as nat));
        s
    }

    fn checkpoint(&self) -> (c: Self) {
        proof {
            use_type_invariant(self);
        }
        Located { input: self.input.checkpoint(), offset: self.offset }
    }

    fn reset(&mut self, checkpoint: Self) {
        *self = checkpoint;
    }

    fn offset_from(&self, start: &Self) -> (n: usize) {
        assert(exists|k: nat| start.steps_to(k, *self));
        let ghost k = choose|k: nat| start.steps_to(k, *self);
        proof {
            assert(start.steps_to(k, *self));
            start.input.lemma_steps_tokens(k, self.input);
            assert(self.input.tokens().len() == start.input.tokens().len() - k);
        }
        let n = self.input.offset_from(&start.input);
        proof {
            start.input.lemma_steps_tokens(n as nat, self.input);
            assert(self.input.tokens().len() == start.input.tokens().len() - n);
        }
        n
    }
}

impl<I: StreamIsPartial> Located<I> {
    /// A located stream is partial as the stream inside is, and marking it
    /// as complete marks the stream inside and leaves the position.
    pub proof fn lemma_partial(&self)
        ensures
            self.partial() == self.inner().partial(),
            self.completed().inner() == self.inner().completed(),
            self.completed().position() == self.position(),
    {
    }
}

impl<I: StreamIsPartial> StreamIsPartial for Located<I> {
    open spec fn supports_partial() -> bool {
        I::supports_partial()
    }

    closed spec fn partial(&self) -> bool {
        self.input.partial()
    }

    closed spec fn completed(&self) -> Self {
        Located { input: self.input.completed(), offset: self.offset }
    }

    proof fn lemma_partial_is_supported(&self) {
        self.input.lemma_partial_is_supported();
    }

    proof fn lemma_completed_tokens(&self) {
        self.input.lemma_completed_tokens();
    }

    fn is_partial_supported() -> (b: bool) {
        I::is_partial_supported()
    }

    fn is_partial(&self) -> (b: bool) {
        self.input.is_partial()
    }

    fn complete(&mut self) {
        proof {
            use_type_invariant(&*self);
            self.input.lemma_completed_tokens();
        }
        let mut input = self.input.checkpoint();
        input.complete();
        *self = Located { input, offset: self.offset };
    }
}

impl<I: Stream> Location for Located<I> {
    closed spec fn position(&self) -> nat {
        self.offset as nat
    }

    proof fn lemma_position_steps(&self, n: nat, after: Self) {
    }

    fn location(&self) -> (n: usize) {
        self.offset
    }
}

impl<I: Compare<T>, T> Compare<T> for Located<I> {
    open spec fn pattern(t: T) -> Seq<I::Token> {
        I::pattern(t)
    }

    fn compare(&self, t: T) -> (r: CompareResult) {
        self.input.compare(t)
    }
}

} // verus!
