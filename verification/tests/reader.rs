use csv_partial_cache::Error;
use csv_partial_cache::LineOffset;

#[test]
fn iteration() {
    let mut items = LineOffset::<u32>::from_str("noname", "foo\nbar\r\nbaz");
    assert_eq!(items.next().unwrap().unwrap(), ("foo".into(), 0));
    assert_eq!(items.next().unwrap().unwrap(), ("bar".into(), 4));
    assert_eq!(items.next().unwrap().unwrap(), ("baz".into(), 9));
    assert!(items.next().is_none());
}

#[test]
fn iteration_offset_overflow() {
    let line1 = "x".repeat(255);
    let mut items = LineOffset::<u8>::from_str("noname", &format!("{line1}\nfoo"));
    assert_eq!(items.next().unwrap().unwrap(), (line1, 0));
    assert!(matches!(items.next().unwrap(), Err(Error::IntoOffset(..))));
}

#[test]
fn offset_overflow_error_carries_position_and_name() {
    let line1 = "x".repeat(255);
    let mut items = LineOffset::<u8>::from_str("table", &format!("{line1}\nfoo"));
    items.next().unwrap().unwrap();
    match items.next().unwrap() {
        Err(Error::IntoOffset(position, line_index, name)) => {
            assert_eq!(position, 256);
            assert_eq!(line_index, 1);
            assert_eq!(name, "table");
        }
        other => panic!("expected an offset conversion error, got {other:?}"),
    }
}

#[test]
fn sequence_ends_after_an_error_item() {
    let line1 = "x".repeat(255);
    let mut items = LineOffset::<u8>::from_str("noname", &format!("{line1}\nfoo\nbar"));
    items.next().unwrap().unwrap();
    assert!(items.next().unwrap().is_err());
    assert!(items.next().is_none());
    assert!(items.next().is_none());
}

#[test]
fn empty_input_yields_nothing() {
    let mut items = LineOffset::<u32>::from_str("noname", "");
    assert!(items.next().is_none());
}

#[test]
fn trailing_newline_does_not_add_a_line() {
    let mut items = LineOffset::<u32>::from_str("noname", "foo\n");
    assert_eq!(items.next().unwrap().unwrap(), ("foo".into(), 0));
    assert!(items.next().is_none());
}

#[test]
fn carriage_return_without_line_feed_is_preserved() {
    let mut items = LineOffset::<u32>::from_str("noname", "a\rb\nend\r");
    assert_eq!(items.next().unwrap().unwrap(), ("a\rb".into(), 0));
    assert_eq!(items.next().unwrap().unwrap(), ("end\r".into(), 4));
    assert!(items.next().is_none());
}

#[test]
fn empty_lines_are_yielded() {
    let mut items = LineOffset::<u32>::from_str("noname", "\n\r\nx");
    assert_eq!(items.next().unwrap().unwrap(), ("".into(), 0));
    assert_eq!(items.next().unwrap().unwrap(), ("".into(), 1));
    assert_eq!(items.next().unwrap().unwrap(), ("x".into(), 3));
    assert!(items.next().is_none());
}

#[test]
fn offsets_are_cumulative_byte_lengths() {
    // one two-byte character in the first line: offsets count bytes, not chars
    let text = "h\u{e9}ad\nmiddle\r\nlast";
    let mut items = LineOffset::<u64>::from_str("noname", text);
    let (first, o1) = items.next().unwrap().unwrap();
    assert_eq!(first, "h\u{e9}ad");
    assert_eq!(o1, 0);
    let (second, o2) = items.next().unwrap().unwrap();
    assert_eq!(second, "middle");
    assert_eq!(o2, "h\u{e9}ad\n".len() as u64);
    let (third, o3) = items.next().unwrap().unwrap();
    assert_eq!(third, "last");
    assert_eq!(o3, ("h\u{e9}ad\n".len() + "middle\r\n".len()) as u64);
    assert!(items.next().is_none());
}

#[test]
fn from_buf_reads_an_owned_buffer() {
    let mut items = LineOffset::<u16>::from_buf("buffer".to_string(), "k,v\n7,x".to_string());
    assert_eq!(items.next().unwrap().unwrap(), ("k,v".into(), 0));
    assert_eq!(items.next().unwrap().unwrap(), ("7,x".into(), 4));
    assert!(items.next().is_none());
}
