use dev_cli::dlt::{DltRangeParser, DltRawParser, ParseError, ParseYield, RangeMessage, RawMessage, ByteRange};

/// One minimal DLT message: the sixteen-byte storage header — the pattern
/// "DLT", 0x01, and twelve bytes of timestamp and ECU id — followed by a
/// four-byte standard header whose length field covers exactly itself.
fn minimal_frame() -> Vec<u8> {
    let mut frame = Vec::new();
    frame.extend_from_slice(b"DLT");
    frame.push(0x01);
    frame.extend_from_slice(&[0u8; 12]);
    // Standard header: header type (no flags), counter, big-endian length.
    frame.extend_from_slice(&[0x00, 0x00, 0x00, 0x04]);
    frame
}

#[test]
fn range_parser_consumes_one_frame() {
    let frame = minimal_frame();
    let mut parser = DltRangeParser::new();
    let (rest, yielded) = parser.parse(&frame, None).unwrap();
    assert!(rest.is_empty());
    match yielded {
        Some(ParseYield::Message(m)) => {
            assert_eq!(m.range.start, 20);
            assert_eq!(m.range.end, 40);
        }
        None => panic!("a full frame must yield a message"),
    }
}

#[test]
fn range_parser_advances_its_offset_across_frames() {
    let mut stream = minimal_frame();
    stream.extend_from_slice(&minimal_frame());
    let mut parser = DltRangeParser::new();
    let (rest, _first) = parser.parse(&stream, None).unwrap();
    assert_eq!(rest.len(), 20);
    let (rest2, second) = parser.parse(rest, None).unwrap();
    assert!(rest2.is_empty());
    match second {
        Some(ParseYield::Message(m)) => {
            assert_eq!(m.range.start, 40);
            assert_eq!(m.range.end, 60);
        }
        None => panic!("the second frame must yield a message"),
    }
}

#[test]
fn range_parser_yields_nothing_on_empty_input() {
    let mut parser = DltRangeParser::new();
    let (rest, yielded) = parser.parse(&[], None).unwrap();
    assert!(rest.is_empty());
    assert!(yielded.is_none());
    assert_eq!(parser.offset, 0);
}

#[test]
fn range_parser_rejects_foreign_bytes() {
    let mut parser = DltRangeParser::new();
    let err = parser.parse(b"this is not a dlt frame at all!!", None).unwrap_err();
    assert!(matches!(err, ParseError::Parse(_)));
    assert_eq!(parser.offset, 0);
}

#[test]
fn raw_parser_hands_back_the_consumed_bytes() {
    let frame = minimal_frame();
    let mut parser = DltRawParser::new(true);
    let (rest, yielded) = parser.parse(&frame, None).unwrap();
    assert!(rest.is_empty());
    match yielded {
        Some(ParseYield::Message(m)) => {
            assert_eq!(m.content, frame);
            assert_eq!(m.to_bytes(), frame);
        }
        None => panic!("a full frame must yield a message"),
    }
}

#[test]
fn range_message_serializes_big_endian() {
    let m = RangeMessage { range: ByteRange { start: 20, end: 0x0102 } };
    let bytes = m.to_bytes();
    assert_eq!(bytes.len(), 16);
    assert_eq!(
        bytes,
        vec![0, 0, 0, 0, 0, 0, 0, 20, 0, 0, 0, 0, 0, 0, 1, 2]
    );
}

#[test]
fn range_message_renders_its_range() {
    let m = RangeMessage { range: ByteRange { start: 20, end: 40 } };
    assert_eq!(m.render(), "(20..40)");
}

#[test]
fn raw_message_renders_uppercase_hex() {
    let m = RawMessage { content: vec![0x00, 0x0A, 0xFF] };
    assert_eq!(m.render(), "[[00, 0A, FF]]");
    let empty = RawMessage { content: vec![] };
    assert_eq!(empty.render(), "[[]]");
}
