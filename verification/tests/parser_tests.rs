use winnow::ascii::alpha1;
use winnow::binary::be_u16;
use winnow::error::{ErrMode, ErrorKind, IResult, InputError, Needed, PResult, ParseError};
use winnow::token::take;
use winnow::{Parser, Partial};

#[test]
fn size_test() {
    assert!(std::mem::size_of::<IResult<&[u8], &[u8], (&[u8], u32)>>() <= 40);
    assert!(std::mem::size_of::<IResult<&str, &str, u32>>() <= 40);
    assert!(std::mem::size_of::<Needed>() <= 8);
    assert!(std::mem::size_of::<ErrMode<u32>>() <= 16);
    assert!(std::mem::size_of::<ErrorKind>() <= 1);
}

#[test]
fn err_map_test() {
    let e = ErrMode::Backtrack(1);
    assert_eq!(e.map(|v| v + 1), ErrMode::Backtrack(2));
}

#[test]
fn single_element_tuples() {
    let mut parser = (alpha1,);
    assert_eq!(parser.parse_peek("abc123def"), Ok(("123def", ("abc",))));
    assert_eq!(
        parser.parse_peek("123def"),
        Err(ErrMode::Backtrack(InputError::new(
            "123def",
            ErrorKind::Slice
        )))
    );
}

#[test]
fn tuple_test() {
    #[allow(clippy::type_complexity)]
    fn tuple_3(
        i: Partial<&[u8]>,
    ) -> IResult<Partial<&[u8]>, (u16, &[u8], &[u8]), InputError<Partial<&[u8]>>> {
        (be_u16, take(3), "fg").parse_peek(i)
    }

    assert_eq!(
        tuple_3(Partial::new(&b"abcdefgh"[..])),
        Ok((
            Partial::new(&b"h"[..]),
            (0x6162u16, &b"cde"[..], &b"fg"[..])
        ))
    );
    assert_eq!(
        tuple_3(Partial::new(&b"abcd"[..])),
        Err(ErrMode::Incomplete(Needed::new(1)))
    );
    assert_eq!(
        tuple_3(Partial::new(&b"abcde"[..])),
        Err(ErrMode::Incomplete(Needed::new(2)))
    );
    assert_eq!(
        tuple_3(Partial::new(&b"abcdejk"[..])),
        Err(ErrMode::Backtrack(InputError::from_error_kind(
            &Partial::new(&b"jk"[..]),
            ErrorKind::Tag
        )))
    );
}

#[test]
fn unit_type() {
    fn parser(i: &mut &str) -> PResult<(), InputError<&'static str>> {
        ().parse_next(i)
    }
    let mut parser = parser;
    assert_eq!(parser.parse_peek("abxsbsh"), Ok(("abxsbsh", ())));
    assert_eq!(parser.parse_peek("sdfjakdsas"), Ok(("sdfjakdsas", ())));
    assert_eq!(parser.parse_peek(""), Ok(("", ())));
}
