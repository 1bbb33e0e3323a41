use winnow::error::{
    AddContext, ErrMode, ErrorKind, ErrorStr, FromExternalError, InputError, Needed, ParseError,
};

#[test]
fn needed_knows_its_size() {
    assert_eq!(Needed::new(3).size, 3);
    assert!(Needed::new(3).is_known());
    assert!(!Needed::new(0).is_known());
    assert_eq!(Needed::unknown(), Needed::new(0));
    assert!(!Needed::unknown().is_known());
}

#[test]
fn kinds_have_names() {
    assert_eq!(ErrorKind::Tag.description(), "Tag");
    assert_eq!(ErrorKind::Slice.description(), "Slice");
    assert_eq!(ErrorKind::Token.description(), "Token");
    assert_eq!(ErrorKind::Verify.description(), "Verify");
    assert_eq!(ErrorKind::Alt.description(), "Alt");
    assert_eq!(ErrorKind::Permutation.description(), "Permutation");
    assert_eq!(ErrorKind::Complete.description(), "Complete");
    assert_eq!(ErrorKind::Eof.description(), "Eof");
    assert_eq!(format!("{:?}", ErrorKind::Permutation), "Permutation");
}

#[test]
fn cut_and_backtrack_convert_failures() {
    let soft: ErrMode<u8> = ErrMode::Backtrack(1);
    let hard: ErrMode<u8> = ErrMode::Cut(1);
    let more: ErrMode<u8> = ErrMode::Incomplete(Needed::new(2));
    assert_eq!(soft.clone().cut(), hard);
    assert_eq!(hard.clone().cut(), hard);
    assert_eq!(more.clone().cut(), more);
    assert_eq!(hard.clone().backtrack(), soft);
    assert_eq!(soft.clone().backtrack(), soft);
    assert_eq!(more.clone().backtrack(), more);
    assert!(more.is_incomplete());
    assert!(!soft.is_incomplete());
    assert!(!hard.is_incomplete());
}

#[test]
fn into_inner_has_no_error_for_incomplete() {
    assert_eq!(ErrMode::Backtrack(5).into_inner(), Some(5));
    assert_eq!(ErrMode::Cut(6).into_inner(), Some(6));
    assert_eq!(
        ErrMode::<u8>::Incomplete(Needed::new(1)).into_inner(),
        None
    );
}

#[test]
fn map_passes_incomplete_through() {
    let more: ErrMode<u8> = ErrMode::Incomplete(Needed::new(2));
    assert_eq!(
        more.map(|v| u32::from(v) + 1),
        ErrMode::Incomplete(Needed::new(2))
    );
    assert_eq!(ErrMode::Cut(1u8).map(|v| u32::from(v) + 1), ErrMode::Cut(2u32));
}

#[test]
fn err_mode_builds_recoverable_failures() {
    let e: ErrMode<InputError<&str>> = ErrMode::from_error_kind(&"abc", ErrorKind::Tag);
    assert_eq!(e, ErrMode::Backtrack(InputError::new("abc", ErrorKind::Tag)));
    let more: ErrMode<InputError<&str>> = ErrMode::Incomplete(Needed::new(1));
    assert_eq!(more.clone().append(&"x", ErrorKind::Alt), more);
    let e: ErrMode<ErrorStr> = ErrMode::Cut(ErrorStr("first".to_string()));
    assert_eq!(
        e.append(&"ab", ErrorKind::Alt),
        ErrMode::Cut(ErrorStr(
            "custom error message: (\"ab\", Alt) - ErrorStr(\"first\")".to_string()
        ))
    );
    let a: ErrMode<u8> = ErrMode::Backtrack(1);
    assert_eq!(
        ParseError::<&str>::or(InputError::new("a", ErrorKind::Tag), InputError::new("b", ErrorKind::Slice)),
        InputError::new("b", ErrorKind::Slice)
    );
    assert_eq!(a, ErrMode::Backtrack(1));
}

#[test]
fn input_error_keeps_position_and_kind() {
    let e: InputError<&[u8]> = InputError::from_error_kind(&&b"ab"[..], ErrorKind::Slice);
    assert_eq!(e.input, &b"ab"[..]);
    assert_eq!(e.kind, ErrorKind::Slice);
    assert_eq!(e.clone().append(&&b"zz"[..], ErrorKind::Alt), e);
    assert_eq!(e.clone().add_context(&&b"zz"[..], "label"), e);
    let x: InputError<&str> = InputError::from_external_error(&"12x", ErrorKind::Verify, 17u8);
    assert_eq!(x, InputError::new("12x", ErrorKind::Verify));
}

#[test]
fn error_str_formats_messages() {
    assert_eq!(ErrorStr::from(42u32), ErrorStr("custom error code: 42".to_string()));
    assert_eq!(ErrorStr::from(0u32).0, "custom error code: 0");
    assert_eq!(ErrorStr::from_code(4294967295).0, "custom error code: 4294967295");
    assert_eq!(ErrorStr::from("oops").0, "custom error message: oops");
    assert_eq!(ErrorStr::from_text("").0, "custom error message: ");
    let e = ErrorStr::from_error_kind(&&b"ab"[..], ErrorKind::Tag);
    assert_eq!(e.0, "custom error message: ([97, 98], Tag)");
    let e = ErrorStr::from_error_kind(&"ab", ErrorKind::Eof);
    assert_eq!(e.0, "custom error message: (\"ab\", Eof)");
    let f = e.append(&"b", ErrorKind::Alt);
    assert_eq!(
        f.0,
        "custom error message: (\"b\", Alt) - ErrorStr(\"custom error message: (\\\"ab\\\", Eof)\")"
    );
}

#[test]
fn error_str_builds_whole_messages() {
    assert_eq!(ErrorStr::new("abcd"), ErrorStr("abcd".to_string()));
    assert_eq!(
        ErrorStr::with_kind("[1]", ErrorKind::Slice).0,
        "custom error message: ([1], Slice)"
    );
    assert_eq!(
        ErrorStr::with_frame("[1]", ErrorKind::Alt, "below").0,
        "custom error message: ([1], Alt) - below"
    );
    assert_eq!(
        ErrorStr::with_frame("", ErrorKind::Permutation, "").0,
        "custom error message: (, Permutation) - "
    );
}

#[test]
fn append_keeps_the_earlier_error() {
    let e = ErrorStr("abcd".to_string());
    let a = &b"abcd"[..];
    let appended = e.clone().append(&a, ErrorKind::Alt);
    assert_eq!(
        appended.0,
        "custom error message: ([97, 98, 99, 100], Alt) - ErrorStr(\"abcd\")"
    );
    assert_ne!(appended, e);
    assert_ne!(appended, ErrorStr::from_error_kind(&a, ErrorKind::Alt));
    let other = ErrorStr("x\"y".to_string()).append(&a, ErrorKind::Alt);
    assert_eq!(
        other.0,
        "custom error message: ([97, 98, 99, 100], Alt) - ErrorStr(\"x\\\"y\")"
    );
}

#[test]
fn clones_keep_position_and_kind() {
    let e = InputError::new("ab", ErrorKind::Tag);
    assert_eq!(e.clone(), e);
}
