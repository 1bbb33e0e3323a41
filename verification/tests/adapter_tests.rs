use winnow::ascii::{alpha1, digit1};
use winnow::error::{ErrMode, ErrorKind, ErrorStr, IResult, InputError, Needed, PResult};
use winnow::stream::Located;
use winnow::token::{any, one_of, tag, take};
use winnow::{unpeek, Parser, ParserChain, Partial};

type StrError<'a> = InputError<&'a str>;
type ByteError<'a> = InputError<&'a [u8]>;

#[test]
fn map_counts_characters() {
    let mut parser = digit1::<&str, StrError>.map(|s: &str| s.len());
    assert_eq!(parser.parse_peek("123456"), Ok(("", 6)));
    assert_eq!(
        parser.parse_peek("abc"),
        Err(ErrMode::Backtrack(InputError::new("abc", ErrorKind::Slice)))
    );
}

#[test]
fn try_map_reports_outside_error_as_verify() {
    let mut parse = digit1::<&str, StrError>.try_map(|s: &str| s.parse::<u8>());
    assert_eq!(parse.parse_peek("123"), Ok(("", 123)));
    assert_eq!(
        parse.parse_peek("abc"),
        Err(ErrMode::Backtrack(InputError::new("abc", ErrorKind::Slice)))
    );
    assert_eq!(
        parse.parse_peek("123456"),
        Err(ErrMode::Backtrack(InputError::new(
            "123456",
            ErrorKind::Verify
        )))
    );
}

#[test]
fn verify_map_refuses_none() {
    let mut parse = digit1::<&str, StrError>.verify_map(|s: &str| s.parse::<u8>().ok());
    assert_eq!(parse.parse_peek("123"), Ok(("", 123)));
    assert_eq!(
        parse.parse_peek("abc"),
        Err(ErrMode::Backtrack(InputError::new("abc", ErrorKind::Slice)))
    );
    assert_eq!(
        parse.parse_peek("123456"),
        Err(ErrMode::Backtrack(InputError::new(
            "123456",
            ErrorKind::Verify
        )))
    );
}

#[test]
fn verify_checks_the_output() {
    let mut parser = alpha1::<&str, StrError>.verify(|s: &&str| s.len() == 4);
    assert_eq!(parser.parse_peek("abcd"), Ok(("", "abcd")));
    assert_eq!(
        parser.parse_peek("abcde"),
        Err(ErrMode::Backtrack(InputError::new(
            "abcde",
            ErrorKind::Verify
        )))
    );
    assert_eq!(
        parser.parse_peek("123abcd;"),
        Err(ErrMode::Backtrack(InputError::new(
            "123abcd;",
            ErrorKind::Slice
        )))
    );
}

#[test]
fn value_yields_a_clone() {
    let mut parser = alpha1::<&str, StrError>.value(1234);
    assert_eq!(parser.parse_peek("abcd"), Ok(("", 1234)));
    assert_eq!(
        parser.parse_peek("123abcd;"),
        Err(ErrMode::Backtrack(InputError::new(
            "123abcd;",
            ErrorKind::Slice
        )))
    );
}

#[test]
fn void_drops_the_output() {
    let mut parser = alpha1::<&str, StrError>.void();
    assert_eq!(parser.parse_peek("abcd"), Ok(("", ())));
    assert_eq!(
        parser.parse_peek("123abcd;"),
        Err(ErrMode::Backtrack(InputError::new(
            "123abcd;",
            ErrorKind::Slice
        )))
    );
}

#[test]
fn output_into_converts() {
    let mut parser = alpha1::<&str, StrError>.output_into::<String>();
    assert_eq!(parser.parse_peek("abcd1"), Ok(("1", "abcd".to_string())));
}

#[test]
fn recognize_yields_the_consumed_input() {
    let mut parser = (alpha1::<&str, StrError>, ',', alpha1::<&str, StrError>).recognize();
    assert_eq!(parser.parse_peek("abcd,efgh"), Ok(("", "abcd,efgh")));
    assert_eq!(
        parser.parse_peek("abcd;"),
        Err(ErrMode::Backtrack(InputError::new(";", ErrorKind::Verify)))
    );
}

#[test]
fn with_recognized_yields_output_and_input() {
    let mut parser = (alpha1::<&str, StrError>, ',', alpha1::<&str, StrError>)
        .value(true)
        .with_recognized();
    assert_eq!(
        parser.parse_peek("abcd,efgh1"),
        Ok(("1", (true, "abcd,efgh")))
    );
    assert_eq!(
        parser.parse_peek("abcd;"),
        Err(ErrMode::Backtrack(InputError::new(";", ErrorKind::Verify)))
    );
}

#[test]
fn span_yields_positions() {
    let mut parser = (
        alpha1::<Located<&str>, InputError<Located<&str>>>.span(),
        ',',
        alpha1::<Located<&str>, InputError<Located<&str>>>.span(),
    );
    assert_eq!(
        parser.parse(Located::new("abcd,efgh")),
        Ok((0..4, ',', 5..9))
    );
}

#[test]
fn with_span_yields_output_and_positions() {
    let mut parser = (
        alpha1::<Located<&str>, InputError<Located<&str>>>
            .value(1)
            .with_span(),
        ',',
        alpha1::<Located<&str>, InputError<Located<&str>>>
            .value(2)
            .with_span(),
    );
    assert_eq!(
        parser.parse(Located::new("abcd,efgh")),
        Ok(((1, 0..4), ',', (2, 5..9)))
    );
}

#[test]
fn flat_map_builds_the_second_parser() {
    fn length_data<'s>(input: &mut &'s [u8]) -> PResult<&'s [u8], ByteError<'s>> {
        any::<&[u8], ByteError>
            .flat_map(|n: u8| take(usize::from(n)))
            .parse_next(input)
    }
    let mut parser = length_data;
    assert_eq!(
        parser.parse_peek(&[2, 0, 1, 2][..]),
        Ok((&[2][..], &[0, 1][..]))
    );
    assert_eq!(
        parser.parse_peek(&[4, 0, 1, 2][..]),
        Err(ErrMode::Backtrack(InputError::new(
            &[0, 1, 2][..],
            ErrorKind::Slice
        )))
    );
}

#[test]
fn and_then_runs_over_the_output() {
    let mut digits = take(5).and_then(digit1::<&str, StrError>);
    assert_eq!(digits.parse_peek("12345"), Ok(("", "12345")));
    assert_eq!(digits.parse_peek("123ab"), Ok(("", "123")));
    assert_eq!(
        digits.parse_peek("123"),
        Err(ErrMode::Backtrack(InputError::new("123", ErrorKind::Slice)))
    );
}

#[test]
fn and_then_marks_the_output_complete() {
    // The inner parser reaches the end of a complete input, so it succeeds
    // where on a partial input it would ask for more.
    fn digits(i: Partial<&str>) -> IResult<Partial<&str>, &str, InputError<Partial<&str>>> {
        take(3)
            .map(|s: &str| Partial::new(s))
            .and_then(digit1::<Partial<&str>, InputError<Partial<&str>>>)
            .parse_peek(i)
    }
    assert_eq!(
        digits(Partial::new("123abc")),
        Ok((Partial::new("abc"), "123"))
    );
    let mut alone = digit1::<Partial<&str>, InputError<Partial<&str>>>;
    assert_eq!(
        alone.parse_peek(Partial::new("123")),
        Err(ErrMode::Incomplete(Needed::new(1)))
    );
}

#[test]
fn parse_to_reads_numbers() {
    let mut parser = digit1::<&str, StrError>.parse_to::<u64>();
    assert_eq!(parser.parse_peek("123456"), Ok(("", 123456u64)));
    assert_eq!(
        parser.parse_peek("abc"),
        Err(ErrMode::Backtrack(InputError::new("abc", ErrorKind::Slice)))
    );
    let mut small = digit1::<&str, StrError>.parse_to::<u8>();
    assert_eq!(small.parse_peek("255;"), Ok((";", 255u8)));
    assert_eq!(
        small.parse_peek("256;"),
        Err(ErrMode::Backtrack(InputError::new("256;", ErrorKind::Verify)))
    );
    let mut wide = digit1::<&str, StrError>.parse_to::<u32>();
    assert_eq!(wide.parse_peek("4294967295"), Ok(("", u32::MAX)));
    let mut signed = digit1::<&str, StrError>.parse_to::<i64>();
    assert_eq!(signed.parse_peek("77 "), Ok((" ", 77i64)));
}

#[test]
fn context_keeps_a_minimal_error() {
    let mut parser = alpha1::<&str, StrError>.context("letters");
    assert_eq!(parser.parse_peek("abc1"), Ok(("1", "abc")));
    assert_eq!(
        parser.parse_peek("1"),
        Err(ErrMode::Backtrack(InputError::new("1", ErrorKind::Slice)))
    );
}

#[test]
fn complete_err_turns_incomplete_into_failure() {
    fn five(i: Partial<&str>) -> IResult<Partial<&str>, &str, InputError<Partial<&str>>> {
        take(5).complete_err().parse_peek(i)
    }
    assert_eq!(
        five(Partial::new("abcdefg")),
        Ok((Partial::new("fg"), "abcde"))
    );
    assert_eq!(
        five(Partial::new("abcd")),
        Err(ErrMode::Backtrack(InputError::new(
            Partial::new("abcd"),
            ErrorKind::Complete
        )))
    );
    let mut plain = take(5);
    let r: IResult<Partial<&str>, &str, InputError<Partial<&str>>> =
        plain.parse_peek(Partial::new("abcd"));
    assert_eq!(r, Err(ErrMode::Incomplete(Needed::new(1))));
}

#[test]
fn err_into_converts_the_error() {
    fn fails(_i: &[u8]) -> IResult<&[u8], u8, u32> {
        Err(ErrMode::Backtrack(7))
    }
    fn cuts(_i: &[u8]) -> IResult<&[u8], u8, &'static str> {
        Err(ErrMode::Cut("deep"))
    }
    let mut parser = unpeek(fails).err_into::<ErrorStr>();
    assert_eq!(
        parser.parse_peek(&b"x"[..]),
        Err(ErrMode::Backtrack(ErrorStr(
            "custom error code: 7".to_string()
        )))
    );
    let mut parser = unpeek(cuts).err_into::<ErrorStr>();
    assert_eq!(
        parser.parse_peek(&b"x"[..]),
        Err(ErrMode::Cut(ErrorStr(
            "custom error message: deep".to_string()
        )))
    );
}

#[test]
fn parse_requires_the_end_of_input() {
    let mut parser = tag("abc");
    let r: Result<&str, StrError> = parser.parse("abc");
    assert_eq!(r, Ok("abc"));
    let r: Result<&str, StrError> = parser.parse("abcd");
    assert_eq!(r, Err(InputError::new("d", ErrorKind::Eof)));
    let r: Result<&str, StrError> = parser.parse("abd");
    assert_eq!(r, Err(InputError::new("abd", ErrorKind::Tag)));
}

#[test]
fn bytes_and_characters_are_parsers() {
    fn byte<'s>(i: &mut &'s [u8]) -> PResult<u8, ByteError<'s>> {
        b'a'.parse_next(i)
    }
    let mut parser = byte;
    assert_eq!(parser.parse_peek(&b"abc"[..]), Ok((&b"bc"[..], b'a')));
    assert_eq!(
        parser.parse_peek(&b" abc"[..]),
        Err(ErrMode::Backtrack(InputError::new(
            &b" abc"[..],
            ErrorKind::Verify
        )))
    );
    assert_eq!(
        parser.parse_peek(&b"bc"[..]),
        Err(ErrMode::Backtrack(InputError::new(
            &b"bc"[..],
            ErrorKind::Verify
        )))
    );
    assert_eq!(
        parser.parse_peek(&b""[..]),
        Err(ErrMode::Backtrack(InputError::new(
            &b""[..],
            ErrorKind::Token
        )))
    );

    fn character<'s>(i: &mut &'s str) -> PResult<char, StrError<'s>> {
        'a'.parse_next(i)
    }
    let mut parser = character;
    assert_eq!(parser.parse_peek("abc"), Ok(("bc", 'a')));
    assert_eq!(
        parser.parse_peek(" abc"),
        Err(ErrMode::Backtrack(InputError::new(" abc", ErrorKind::Verify)))
    );
    assert_eq!(
        parser.parse_peek(""),
        Err(ErrMode::Backtrack(InputError::new("", ErrorKind::Token)))
    );

    fn character_in_bytes<'s>(i: &mut &'s [u8]) -> PResult<u8, ByteError<'s>> {
        'a'.parse_next(i)
    }
    let mut parser = character_in_bytes;
    assert_eq!(parser.parse_peek(&b"abc"[..]), Ok((&b"bc"[..], b'a')));
}

#[test]
fn literals_are_parsers() {
    fn bytes<'s>(s: &mut &'s [u8]) -> PResult<&'s [u8], ByteError<'s>> {
        (&b"Hello"[..]).parse_next(s)
    }
    let mut parser = bytes;
    assert_eq!(
        parser.parse_peek(&b"Hello, World!"[..]),
        Ok((&b", World!"[..], &b"Hello"[..]))
    );
    assert_eq!(
        parser.parse_peek(&b"Something"[..]),
        Err(ErrMode::Backtrack(InputError::new(
            &b"Something"[..],
            ErrorKind::Tag
        )))
    );

    fn array<'s>(s: &mut &'s [u8]) -> PResult<&'s [u8], ByteError<'s>> {
        b"Hello".parse_next(s)
    }
    let mut parser = array;
    assert_eq!(
        parser.parse_peek(&b"Hello, World!"[..]),
        Ok((&b", World!"[..], &b"Hello"[..]))
    );
    assert_eq!(
        parser.parse_peek(&b"Hell"[..]),
        Err(ErrMode::Backtrack(InputError::new(
            &b"Hell"[..],
            ErrorKind::Tag
        )))
    );

    fn text<'s>(s: &mut &'s str) -> PResult<&'s str, StrError<'s>> {
        "Hello".parse_next(s)
    }
    let mut parser = text;
    assert_eq!(parser.parse_peek("Hello, World!"), Ok((", World!", "Hello")));
    assert_eq!(
        parser.parse_peek(""),
        Err(ErrMode::Backtrack(InputError::new("", ErrorKind::Tag)))
    );
}

#[test]
fn one_of_takes_a_token_of_the_set() {
    let mut parser = one_of('x');
    let r: IResult<&str, char, StrError> = parser.parse_peek("xy");
    assert_eq!(r, Ok(("y", 'x')));
    let mut parser = one_of('x');
    let r: IResult<Partial<&str>, char, InputError<Partial<&str>>> =
        parser.parse_peek(Partial::new(""));
    assert_eq!(r, Err(ErrMode::Incomplete(Needed::new(1))));
}

#[test]
fn text_with_wide_characters_counts_characters() {
    let mut parser = take(2);
    let r: IResult<&str, &str, StrError> = parser.parse_peek("héllo");
    assert_eq!(r, Ok(("llo", "hé")));
    let mut parser = tag("hé");
    let r: IResult<&str, &str, StrError> = parser.parse_peek("héllo");
    assert_eq!(r, Ok(("llo", "hé")));
    let r: IResult<&[u8], &[u8], ByteError> = tag("hé").parse_peek("héllo".as_bytes());
    assert_eq!(r, Ok((&b"llo"[..], "hé".as_bytes())));
}

#[test]
fn parse_to_follows_decimal_text() {
    fn small(i: &str) -> IResult<&str, u8, StrError> {
        take(3).parse_to::<u8>().parse_peek(i)
    }
    assert_eq!(small("007;"), Ok((";", 7)));
    assert_eq!(small("+12;"), Ok((";", 12)));
    assert_eq!(small("255"), Ok(("", 255)));
    for refused in ["256", "-12", "1 2", "12a", " 12", "+-1", "١٢٣"] {
        assert_eq!(
            small(refused),
            Err(ErrMode::Backtrack(InputError::new(
                refused,
                ErrorKind::Verify
            )))
        );
    }
    fn sign_only(i: &str) -> IResult<&str, u32, StrError> {
        take(1).parse_to::<u32>().parse_peek(i)
    }
    assert_eq!(sign_only("7"), Ok(("", 7)));
    for refused in ["+", "-", "a"] {
        assert_eq!(
            sign_only(refused),
            Err(ErrMode::Backtrack(InputError::new(
                refused,
                ErrorKind::Verify
            )))
        );
    }
    fn empty(i: &str) -> IResult<&str, u64, StrError> {
        take(0).parse_to::<u64>().parse_peek(i)
    }
    assert_eq!(
        empty("12"),
        Err(ErrMode::Backtrack(InputError::new("12", ErrorKind::Verify)))
    );
    fn wide(i: &str) -> IResult<&str, u64, StrError> {
        take(20).parse_to::<u64>().parse_peek(i)
    }
    assert_eq!(wide("18446744073709551615"), Ok(("", u64::MAX)));
    assert_eq!(
        wide("18446744073709551616"),
        Err(ErrMode::Backtrack(InputError::new(
            "18446744073709551616",
            ErrorKind::Verify
        )))
    );
    fn signed(i: &str) -> IResult<&str, i64, StrError> {
        take(20).parse_to::<i64>().parse_peek(i)
    }
    assert_eq!(signed("-9223372036854775808"), Ok(("", i64::MIN)));
    assert_eq!(signed("+0000000000000000012"), Ok(("", 12)));
    assert_eq!(signed("-0000000000000000000"), Ok(("", 0)));
    assert_eq!(
        signed("09223372036854775808"),
        Err(ErrMode::Backtrack(InputError::new(
            "09223372036854775808",
            ErrorKind::Verify
        )))
    );
}

#[test]
fn recognize_of_a_parser_that_moves_back_is_empty() {
    fn grows(_i: &str) -> IResult<&str, (), StrError> {
        Ok(("longer than before", ()))
    }
    let mut parser = unpeek(grows).recognize();
    assert_eq!(parser.parse_peek("ab"), Ok(("longer than before", "")));
    let mut parser = unpeek(grows).with_recognized();
    assert_eq!(parser.parse_peek("ab"), Ok(("longer than before", ((), ""))));
}
