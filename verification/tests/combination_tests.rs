use winnow::ascii::{alpha1, digit1, CharClass, Run};
use winnow::binary::{be_u16, BeU16};
use winnow::branch::{alt, permutation};
use winnow::combinator::{as_fn, as_test, eof, Eof};
use winnow::error::{ErrMode, ErrorKind, ErrorStr, IResult, InputError, Needed, ParseError};
use winnow::stream::Located;
use winnow::token::{any, tag, take, Any};
use winnow::{from_peek, unpeek, Parser, Partial};

type StrError<'a> = InputError<&'a str>;
type ByteError<'a> = InputError<&'a [u8]>;

fn backtracks(_i: &str) -> IResult<&str, &str, ErrorStr> {
    Err(ErrMode::Backtrack(ErrorStr("soft".to_string())))
}

fn cuts(_i: &str) -> IResult<&str, &str, ErrorStr> {
    Err(ErrMode::Cut(ErrorStr("hard".to_string())))
}

fn asks(_i: &str) -> IResult<&str, &str, ErrorStr> {
    Err(ErrMode::Incomplete(Needed::new(3)))
}

fn takes_one(i: &str) -> IResult<&str, &str, ErrorStr> {
    Ok((&i[1..], &i[..1]))
}

fn takes_all(i: &str) -> IResult<&str, &str, ErrorStr> {
    Ok(("", i))
}

#[test]
fn same_input_gives_same_outcome() {
    let mut parser = alt((tag("ab"), tag("cd")));
    let first: IResult<&str, &str, StrError> = parser.parse_peek("cde");
    let second: IResult<&str, &str, StrError> = parser.parse_peek("cde");
    assert_eq!(first, Ok(("e", "cd")));
    assert_eq!(first, second);
    let first: IResult<&str, &str, StrError> = parser.parse_peek("xy");
    let second: IResult<&str, &str, StrError> = parser.parse_peek("xy");
    assert_eq!(first, second);
    assert!(first.is_err());
}

#[test]
fn alt_takes_the_first_that_succeeds() {
    let mut parser = alt((unpeek(takes_one), unpeek(takes_all)));
    assert_eq!(parser.parse_peek("abc"), Ok(("bc", "a")));
    let mut parser = alt((unpeek(takes_one), unpeek(cuts)));
    assert_eq!(parser.parse_peek("abc"), Ok(("bc", "a")));
    let mut parser = alt((unpeek(takes_all), unpeek(takes_one)));
    assert_eq!(parser.parse_peek("abc"), Ok(("", "abc")));
}

#[test]
fn alt_retries_from_the_start_after_a_recoverable_failure() {
    // The first alternative consumes "ab" before it fails on 'c'.
    let mut parser = alt(((tag("ab"), tag("x")).recognize(), tag("abc")));
    let r: IResult<&str, &str, StrError> = parser.parse_peek("abcd");
    assert_eq!(r, Ok(("d", "abc")));
}

#[test]
fn alt_stops_at_incomplete() {
    let mut parser = alt((unpeek(backtracks), unpeek(asks), unpeek(takes_all)));
    assert_eq!(
        parser.parse_peek("abc"),
        Err(ErrMode::Incomplete(Needed::new(3)))
    );
    let mut parser = alt((unpeek(asks), unpeek(takes_all)));
    assert_eq!(
        parser.parse_peek("abc"),
        Err(ErrMode::Incomplete(Needed::new(3)))
    );
}

#[test]
fn alt_stops_at_cut() {
    let mut parser = alt((unpeek(backtracks), unpeek(cuts), unpeek(takes_all)));
    assert_eq!(
        parser.parse_peek("abc"),
        Err(ErrMode::Cut(ErrorStr("hard".to_string())))
    );
    let mut parser = alt((unpeek(cuts), unpeek(takes_all)));
    assert_eq!(
        parser.parse_peek("abc"),
        Err(ErrMode::Cut(ErrorStr("hard".to_string())))
    );
}

#[test]
fn alt_of_failures_reports_kind_alt_at_the_start() {
    fn choice(i: &[u8]) -> IResult<&[u8], &[u8], ErrorStr> {
        alt((tag("abcd"), tag("efgh"))).parse_peek(i)
    }
    assert_eq!(choice(&b"abcd"[..]), Ok((&b""[..], &b"abcd"[..])));
    assert_eq!(choice(&b"efgh"[..]), Ok((&b""[..], &b"efgh"[..])));
    let z = &b"zzzz"[..];
    assert_eq!(
        choice(z),
        Err(ErrMode::Backtrack(ErrorStr(
            "custom error message: ([122, 122, 122, 122], Alt) - \
             ErrorStr(\"custom error message: ([122, 122, 122, 122], Tag)\")"
                .to_string()
        )))
    );
}

#[test]
fn alt_takes_many_alternatives() {
    fn choice(i: &str) -> IResult<&str, &str, StrError> {
        alt((
            tag("a"),
            tag("b"),
            tag("c"),
            tag("d"),
            tag("e"),
            tag("f"),
            tag("g"),
            tag("h"),
            tag("i"),
            tag("j"),
            tag("k"),
            tag("l"),
            tag("m"),
            tag("n"),
            tag("o"),
            tag("p"),
            tag("q"),
            tag("r"),
            tag("s"),
            tag("t"),
            tag("u"),
        ))
        .parse_peek(i)
    }
    assert_eq!(choice("a!"), Ok(("!", "a")));
    assert_eq!(choice("k!"), Ok(("!", "k")));
    assert_eq!(choice("u!"), Ok(("!", "u")));
    assert_eq!(
        choice("v!"),
        Err(ErrMode::Backtrack(InputError::new("v!", ErrorKind::Tag)))
    );
}

#[test]
fn recognized_input_parses_again() {
    let mut parser = (alpha1::<&str, StrError>, digit1::<&str, StrError>);
    let mut recognizer = (alpha1::<&str, StrError>, digit1::<&str, StrError>).recognize();
    let (rest, slice) = recognizer.parse_peek("abc123;tail").unwrap();
    assert_eq!(rest, ";tail");
    assert_eq!(slice, "abc123");
    assert_eq!(parser.parse_peek(slice), Ok(("", ("abc", "123"))));
}

#[test]
fn span_is_as_long_as_what_was_recognized() {
    type E<'a> = InputError<Located<&'a str>>;
    let mut input = Located::new("xyabc123;");
    let _ = take::<Located<&str>, E>(2).parse_next(&mut input).unwrap();
    let range = (alpha1::<Located<&str>, E>, digit1::<Located<&str>, E>)
        .span()
        .parse_next(&mut input.clone())
        .unwrap();
    let slice = (alpha1::<Located<&str>, E>, digit1::<Located<&str>, E>)
        .recognize()
        .parse_next(&mut input.clone())
        .unwrap();
    assert_eq!(range, 2..8);
    assert_eq!(range.end - range.start, slice.len());

    let wide = Located::new("héllo");
    let range = take::<Located<&str>, E>(2)
        .span()
        .parse_next(&mut wide.clone())
        .unwrap();
    let slice = take::<Located<&str>, E>(2)
        .recognize()
        .parse_next(&mut wide.clone())
        .unwrap();
    assert_eq!(range, 0..3);
    assert_eq!(slice, "hé");
    assert_eq!(range.end - range.start, slice.len());
}

#[test]
fn map_to_a_constant_is_value() {
    let inputs = ["abc1", "1abc", "", "z"];
    for input in inputs {
        let mapped: IResult<&str, u8, StrError> =
            alpha1.map(|_| 7u8).parse_peek(input);
        let valued: IResult<&str, u8, StrError> = alpha1.value(7u8).parse_peek(input);
        assert_eq!(mapped, valued);
    }
}

#[test]
fn permutation_yields_outputs_in_the_order_of_the_list() {
    fn pair(i: &str) -> IResult<&str, (&str, &str), StrError> {
        permutation((alpha1, digit1)).parse_peek(i)
    }
    assert_eq!(pair("abc123;"), Ok((";", ("abc", "123"))));
    assert_eq!(pair("123abc;"), Ok((";", ("abc", "123"))));
    assert_eq!(
        pair("abc;"),
        Err(ErrMode::Backtrack(InputError::new(";", ErrorKind::Slice)))
    );

    fn four(i: &str) -> IResult<&str, (&str, &str, &str, &str), StrError> {
        permutation((tag("a"), tag("b"), tag("c"), tag("d"))).parse_peek(i)
    }
    let expected = ("a", "b", "c", "d");
    for input in ["abcd", "dcba", "badc", "cabd", "bcda"] {
        assert_eq!(four(input), Ok(("", expected)));
    }
    assert_eq!(
        four("abca"),
        Err(ErrMode::Backtrack(InputError::new("a", ErrorKind::Tag)))
    );

    fn six(i: &str) -> IResult<&str, (&str, &str, &str, &str, &str, &str), StrError> {
        permutation((tag("a"), tag("b"), tag("c"), tag("d"), tag("e"), tag("f"))).parse_peek(i)
    }
    assert_eq!(six("fedcba!"), Ok(("!", ("a", "b", "c", "d", "e", "f"))));
}

#[test]
fn permutation_stops_at_cut_and_remembers_incomplete() {
    let mut parser = permutation((unpeek(backtracks), unpeek(cuts)));
    assert_eq!(
        parser.parse_peek("abc"),
        Err(ErrMode::Cut(ErrorStr("hard".to_string())))
    );
    // A request for more input is kept while a later parser of the round
    // fails. Where a later parser succeeds, the next round asks again.
    let mut parser = permutation((unpeek(asks), unpeek(backtracks)));
    assert_eq!(
        parser.parse_peek("abc"),
        Err(ErrMode::Incomplete(Needed::new(3)))
    );
    let mut parser = permutation((unpeek(asks), unpeek(takes_one)));
    assert_eq!(
        parser.parse_peek("abc"),
        Err(ErrMode::Incomplete(Needed::new(3)))
    );
    let mut parser = permutation((unpeek(backtracks), unpeek(takes_one)));
    assert_eq!(
        parser.parse_peek("abc"),
        Err(ErrMode::Backtrack(ErrorStr(
            "custom error message: (\"bc\", Permutation) - ErrorStr(\"soft\")".to_string()
        )))
    );
}

#[test]
fn long_tuples_run_in_order() {
    fn digits(i: &[u8]) -> IResult<&[u8], (u8, u8, u8, u8, u8, u8, u8), ByteError> {
        (any, any, any, any, any, any, any).parse_peek(i)
    }
    assert_eq!(
        digits(&b"12345678"[..]),
        Ok((&b"8"[..], (b'1', b'2', b'3', b'4', b'5', b'6', b'7')))
    );
    assert_eq!(
        digits(&b"123"[..]),
        Err(ErrMode::Backtrack(InputError::new(
            &b""[..],
            ErrorKind::Token
        )))
    );

    #[allow(clippy::type_complexity)]
    fn twenty_one(
        i: &str,
    ) -> IResult<
        &str,
        (
            char, char, char, char, char, char, char, char, char, char, char, char, char, char,
            char, char, char, char, char, char, char,
        ),
        StrError,
    > {
        (
            'a', 'b', 'c', 'd', 'e', 'f', 'g', 'h', 'i', 'j', 'k', 'l', 'm', 'n', 'o', 'p', 'q',
            'r', 's', 't', 'u',
        )
            .parse_peek(i)
    }
    let (rest, out) = twenty_one("abcdefghijklmnopqrstuvw").unwrap();
    assert_eq!(rest, "vw");
    assert_eq!(out.0, 'a');
    assert_eq!(out.10, 'k');
    assert_eq!(out.20, 'u');
    assert_eq!(
        twenty_one("abcdefghijklmnopqrstx").map(|_| ()),
        Err(ErrMode::Backtrack(InputError::new("x", ErrorKind::Verify)))
    );
}

#[test]
fn numbers_are_read_most_significant_byte_first() {
    fn number(i: &[u8]) -> IResult<&[u8], u16, ByteError> {
        be_u16.parse_peek(i)
    }
    assert_eq!(number(&[0x01, 0x02, 0x03][..]), Ok((&[0x03][..], 0x0102)));
    assert_eq!(number(&[0xff, 0xff][..]), Ok((&[][..], 0xffff)));
    assert_eq!(
        number(&[0x01][..]),
        Err(ErrMode::Backtrack(InputError::new(
            &[0x01][..],
            ErrorKind::Slice
        )))
    );
    fn partial(i: Partial<&[u8]>) -> IResult<Partial<&[u8]>, u16, InputError<Partial<&[u8]>>> {
        be_u16.parse_peek(i)
    }
    assert_eq!(
        partial(Partial::new(&[][..])),
        Err(ErrMode::Incomplete(Needed::new(2)))
    );
}

#[test]
fn runs_stop_at_the_first_token_outside_the_class() {
    fn letters(i: &[u8]) -> IResult<&[u8], &[u8], ByteError> {
        alpha1.parse_peek(i)
    }
    assert_eq!(letters(&b"aZ9"[..]), Ok((&b"9"[..], &b"aZ"[..])));
    assert_eq!(letters(&b"az"[..]), Ok((&b""[..], &b"az"[..])));
    assert_eq!(
        letters(&b"[az"[..]),
        Err(ErrMode::Backtrack(InputError::new(
            &b"[az"[..],
            ErrorKind::Slice
        )))
    );
    assert_eq!(
        letters(&b""[..]),
        Err(ErrMode::Backtrack(InputError::new(
            &b""[..],
            ErrorKind::Slice
        )))
    );
    fn digits(i: Partial<&str>) -> IResult<Partial<&str>, &str, InputError<Partial<&str>>> {
        digit1.parse_peek(i)
    }
    assert_eq!(digits(Partial::new("09:")), Ok((Partial::new(":"), "09")));
    assert_eq!(
        digits(Partial::new("09")),
        Err(ErrMode::Incomplete(Needed::new(1)))
    );
    assert_eq!(
        digits(Partial::new("")),
        Err(ErrMode::Incomplete(Needed::new(1)))
    );
    assert_eq!(
        digits(Partial::new("/")),
        Err(ErrMode::Backtrack(InputError::new(
            Partial::new("/"),
            ErrorKind::Slice
        )))
    );
}

#[test]
fn end_of_input_is_recognized() {
    fn end(i: &str) -> IResult<&str, &str, StrError> {
        eof.parse_peek(i)
    }
    assert_eq!(end(""), Ok(("", "")));
    assert_eq!(
        end("a"),
        Err(ErrMode::Backtrack(InputError::new("a", ErrorKind::Eof)))
    );
}

#[test]
fn unpeek_sets_the_cursor_only_on_success() {
    let mut parser = unpeek(takes_one);
    let mut input = "abc";
    assert_eq!(parser.parse_next(&mut input), Ok("a"));
    assert_eq!(input, "bc");
    let mut parser = unpeek(backtracks);
    let mut input = "abc";
    assert_eq!(
        parser.parse_next(&mut input),
        Err(ErrMode::Backtrack(ErrorStr("soft".to_string())))
    );
    assert_eq!(input, "abc");
}

#[test]
fn a_failure_leaves_the_cursor_at_the_failure() {
    let mut parser = (tag("ab"), tag("cd"));
    let mut input = "abxx";
    let r: Result<(&str, &str), ErrMode<StrError>> = parser.parse_next(&mut input);
    assert_eq!(
        r,
        Err(ErrMode::Backtrack(InputError::new("xx", ErrorKind::Tag)))
    );
    assert_eq!(input, "xx");
}

#[test]
fn function_parsers_have_struct_forms() {
    fn header(i: &[u8]) -> IResult<&[u8], (u16, u8, &[u8], &[u8]), ByteError> {
        (BeU16, Any, Run { class: CharClass::Digit }, Eof).parse_peek(i)
    }
    assert_eq!(
        header(&b"ab!42"[..]),
        Ok((&b""[..], (0x6162, b'!', &b"42"[..], &b""[..])))
    );
    assert_eq!(
        header(&b"ab!42x"[..]),
        Err(ErrMode::Backtrack(InputError::new(
            &b"x"[..],
            ErrorKind::Eof
        )))
    );
    assert_eq!(
        header(&b"ab"[..]),
        Err(ErrMode::Backtrack(InputError::new(
            &b""[..],
            ErrorKind::Token
        )))
    );
    assert_eq!(
        header(&b"a"[..]),
        Err(ErrMode::Backtrack(InputError::new(
            &b"a"[..],
            ErrorKind::Slice
        )))
    );
}

#[test]
fn hidden_functions_behave_as_the_functions() {
    fn doubled(i: &str) -> IResult<&str, usize, StrError> {
        digit1
            .map(as_fn(|s: &str| 2 * s.len()))
            .verify(as_test(|n: &usize| *n > 2))
            .parse_peek(i)
    }
    assert_eq!(doubled("12;"), Ok((";", 4)));
    assert_eq!(
        doubled("1;"),
        Err(ErrMode::Backtrack(InputError::new("1;", ErrorKind::Verify)))
    );
}

#[test]
fn boxed_functions_are_parsers() {
    type Boxed<'a> = Box<dyn FnMut(&mut &'a str) -> Result<&'a str, ErrMode<StrError<'a>>>>;
    let mut parsers: Vec<Boxed> = vec![Box::new(alpha1), Box::new(digit1)];
    let mut input = "ab12;";
    let mut found = Vec::new();
    for parser in parsers.iter_mut() {
        found.push(parser.parse_next(&mut input));
    }
    assert_eq!(found, vec![Ok("ab"), Ok("12")]);
    assert_eq!(input, ";");
}

#[test]
fn functions_by_value_are_parsers() {
    let mut parser = from_peek(takes_one);
    let mut input = "abc";
    assert_eq!(parser.parse_next(&mut input), Ok("a"));
    assert_eq!(input, "bc");
    let mut parser = from_peek(backtracks);
    assert_eq!(
        parser.parse_next(&mut input),
        Err(ErrMode::Backtrack(ErrorStr("soft".to_string())))
    );
    assert_eq!(input, "bc");
    let mut choice = alt((from_peek(backtracks), from_peek(backtracks)));
    assert_eq!(
        choice.parse_peek("abcd"),
        Err(ErrMode::Backtrack(
            ErrorStr("soft".to_string()).append(&"abcd", ErrorKind::Alt)
        ))
    );
    let mut recognizer = (from_peek(takes_one), from_peek(takes_one)).recognize();
    assert_eq!(recognizer.parse_peek("abc"), Ok(("c", "ab")));
}

#[test]
fn permutation_takes_eight_parsers() {
    #[allow(clippy::type_complexity)]
    fn eight(
        i: &str,
    ) -> IResult<&str, (&str, &str, &str, &str, &str, &str, &str, &str), StrError> {
        permutation((
            tag("a"),
            tag("b"),
            tag("c"),
            tag("d"),
            tag("e"),
            tag("f"),
            tag("g"),
            tag("h"),
        ))
        .parse_peek(i)
    }
    let expected = ("a", "b", "c", "d", "e", "f", "g", "h");
    assert_eq!(eight("hgfedcba!"), Ok(("!", expected)));
    assert_eq!(eight("abcdefgh"), Ok(("", expected)));
    assert_eq!(eight("badcfehg?"), Ok(("?", expected)));
    assert_eq!(
        eight("abcdefga"),
        Err(ErrMode::Backtrack(InputError::new("a", ErrorKind::Tag)))
    );
}
