use winnow::stream::{
    compare_bytes, compare_chars, Compare, CompareResult, Located, Location, Partial, Stream,
    StreamIsPartial,
};

#[test]
fn bytes_step_token_by_token() {
    let mut input = &b"abc"[..];
    assert_eq!(input.eof_offset(), 3);
    assert_eq!(input.next_token(), Some(b'a'));
    assert_eq!(input, &b"bc"[..]);
    assert_eq!(input.next_slice(2), &b"bc"[..]);
    assert_eq!(input.eof_offset(), 0);
    assert_eq!(input.next_token(), None);
    assert_eq!(input, &b""[..]);
}

#[test]
fn text_steps_character_by_character() {
    let mut input = "héllo";
    assert_eq!(input.eof_offset(), 5);
    assert_eq!(input.next_token(), Some('h'));
    assert_eq!(input.next_token(), Some('é'));
    assert_eq!(input, "llo");
    assert_eq!(input.next_slice(2), "ll");
    assert_eq!(input, "o");
    assert_eq!(input.next_slice(0), "");
    assert_eq!(input.next_token(), Some('o'));
    assert_eq!(input.next_token(), None);
}

#[test]
fn peeking_leaves_the_cursor() {
    let input = &b"abc"[..];
    assert_eq!(input.peek_token(), Some((&b"bc"[..], b'a')));
    assert_eq!(input.peek_slice(2), (&b"c"[..], &b"ab"[..]));
    assert_eq!(input, &b"abc"[..]);
    let empty = &b""[..];
    assert_eq!(empty.peek_token(), None);
    assert_eq!("xy".peek_token(), Some(("y", 'x')));
}

#[test]
fn checkpoint_and_reset_restore_the_cursor() {
    let mut input = "abcdef";
    let start = input.checkpoint();
    let _ = input.next_slice(4);
    assert_eq!(input.offset_from(&start), 4);
    input.reset(start);
    assert_eq!(input, "abcdef");
    assert_eq!(input.offset_from(&start), 0);

    let mut bytes = &b"abcdef"[..];
    let start = bytes.checkpoint();
    let _ = bytes.next_token();
    let _ = bytes.next_token();
    assert_eq!(bytes.offset_from(&start), 2);
    bytes.reset(start);
    assert_eq!(bytes, &b"abcdef"[..]);
}

#[test]
fn compare_reports_match_mismatch_and_missing() {
    assert_eq!(compare_bytes(b"abcd", b"ab"), CompareResult::Match(2));
    assert_eq!(compare_bytes(b"abcd", b"abcd"), CompareResult::Match(4));
    assert_eq!(compare_bytes(b"abcd", b""), CompareResult::Match(0));
    assert_eq!(compare_bytes(b"ab", b"abcd"), CompareResult::Incomplete(2));
    assert_eq!(compare_bytes(b"", b"a"), CompareResult::Incomplete(1));
    assert_eq!(compare_bytes(b"abcd", b"ax"), CompareResult::Mismatch);
    assert_eq!(compare_bytes(b"ab", b"xbcd"), CompareResult::Mismatch);
    assert_eq!(compare_bytes(b"Ab", b"ab"), CompareResult::Mismatch);

    assert_eq!(compare_chars("héllo", "hé"), CompareResult::Match(2));
    assert_eq!(compare_chars("h", "hé"), CompareResult::Incomplete(1));
    assert_eq!(compare_chars("he", "hé"), CompareResult::Mismatch);

    assert_eq!((&b"abcd"[..]).compare(&b"abc"[..]), CompareResult::Match(3));
    assert_eq!((&b"abcd"[..]).compare(b"abx"), CompareResult::Mismatch);
    assert_eq!((&b"h\xc3"[..]).compare("hé"), CompareResult::Incomplete(1));
    assert_eq!("abcd".compare("abcde"), CompareResult::Incomplete(1));
    assert_eq!(
        Partial::new(&b"ab"[..]).compare("abc"),
        CompareResult::Incomplete(1)
    );
    assert_eq!(Located::new("abc").compare("ab"), CompareResult::Match(2));
}

#[test]
fn only_partial_streams_are_partial() {
    assert!(!<&[u8] as StreamIsPartial>::is_partial_supported());
    assert!(!<&str as StreamIsPartial>::is_partial_supported());
    assert!(<Partial<&str> as StreamIsPartial>::is_partial_supported());
    assert!(<Located<Partial<&str>> as StreamIsPartial>::is_partial_supported());
    assert!(!<Located<&str> as StreamIsPartial>::is_partial_supported());
    assert!(!"abc".is_partial());
    assert!(!(&b"abc"[..]).is_partial());

    let mut input = Partial::new("abc");
    assert!(input.is_partial());
    input.complete();
    assert!(!input.is_partial());
    assert_eq!(input.into_inner(), "abc");

    let mut located = Located::new(Partial::new("abc"));
    assert!(located.is_partial());
    located.complete();
    assert!(!located.is_partial());
}

#[test]
fn partial_stream_steps_like_the_stream_inside() {
    let mut input = Partial::new(&b"abcd"[..]);
    let start = input.checkpoint();
    assert_eq!(input.eof_offset(), 4);
    assert_eq!(input.next_token(), Some(b'a'));
    assert_eq!(input.next_slice(2), &b"bc"[..]);
    assert_eq!(input, Partial::new(&b"d"[..]));
    assert_eq!(input.offset_from(&start), 3);
    input.reset(start);
    assert_eq!(input, Partial::new(&b"abcd"[..]));
}

#[test]
fn located_text_counts_bytes() {
    let mut input = Located::new("héllo");
    assert_eq!(input.next_token(), Some('h'));
    assert_eq!(input.location(), 1);
    assert_eq!(input.next_token(), Some('é'));
    assert_eq!(input.location(), 3);
    assert_eq!(input.next_slice(3), "llo");
    assert_eq!(input.location(), 6);
    assert_eq!(input.eof_offset(), 0);
    assert_eq!(input.bytes_left(), 0);
    assert_eq!("héllo".bytes_left(), 6);
    assert_eq!("héllo".eof_offset(), 5);
    assert_eq!((&b"abc"[..]).bytes_left(), 3);
    assert_eq!(Partial::new("é").bytes_left(), 2);
}

#[test]
fn located_stream_counts_what_was_read() {
    let mut input = Located::new("abcdef");
    assert_eq!(input.location(), 0);
    let start = input.checkpoint();
    assert_eq!(input.next_token(), Some('a'));
    assert_eq!(input.location(), 1);
    assert_eq!(input.next_slice(3), "bcd");
    assert_eq!(input.location(), 4);
    assert_eq!(input.eof_offset(), 2);
    assert_eq!(input.offset_from(&start), 4);
    let here = input.clone();
    assert_eq!(here.location(), 4);
    input.reset(start);
    assert_eq!(input.location(), 0);
    assert_eq!(input.into_inner(), "abcdef");
    assert_eq!(here.into_inner(), "ef");
}

#[test]
fn partial_clone_keeps_the_mark() {
    let mut input = Partial::new("abc");
    assert_eq!(input.clone(), input);
    input.complete();
    assert_eq!(input.clone(), input);
    assert!(!input.clone().is_partial());
}
