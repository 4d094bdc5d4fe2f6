use netpbm::errors::PgmError;
use netpbm::format::FormatTag;
use netpbm::format::dispatch_magic;
use netpbm::numbers::parse_u16;
use netpbm::numbers::parse_usize;
use netpbm::tokenizer::BytesParser;

#[test]
fn take_line_splits_on_whitespace() {
    let buf = b"P2 37\nrest";
    let mut parser = BytesParser::new();
    assert_eq!(parser.take_line(buf), b"P2");
    assert_eq!(parser.take_line(buf), b"37");
    assert_eq!(parser.take_line(buf), b"rest");
    assert_eq!(parser.whitespace_index, buf.len());
}

#[test]
fn take_line_yields_empty_token_between_adjacent_delimiters() {
    let buf = b"a  b";
    let mut parser = BytesParser::new();
    assert_eq!(parser.take_line(buf), b"a");
    assert_eq!(parser.take_line(buf), b"");
    assert_eq!(parser.take_line(buf), b"b");
}

#[test]
fn take_rest_hands_the_tail_over_verbatim() {
    let buf = b"hdr \x00\x01 \n\x02";
    let mut parser = BytesParser::new();
    assert_eq!(parser.take_line(buf), b"hdr");
    assert_eq!(parser.take_rest(buf), b"\x00\x01 \n\x02");
    assert_eq!(parser.whitespace_index, buf.len());
}

#[test]
fn skip_comment_line_advances_past_the_newline() {
    let buf = b"# two words\nnext";
    let mut parser = BytesParser::new();
    let tok = parser.take_line(buf);
    assert!(tok.starts_with(b"#"));
    parser.skip_comment_line(buf);
    assert_eq!(parser.take_line(buf), b"next");
}

#[test]
fn parse_usize_reads_decimal() {
    assert_eq!(parse_usize(b"0").unwrap(), 0);
    assert_eq!(parse_usize(b"1024").unwrap(), 1024);
}

#[test]
fn parse_usize_rejects_empty_and_non_digits() {
    assert_eq!(parse_usize(b"").unwrap_err(), PgmError::MalformedNumber);
    assert_eq!(parse_usize(b"12a").unwrap_err(), PgmError::MalformedNumber);
    assert_eq!(parse_usize(b"-3").unwrap_err(), PgmError::MalformedNumber);
}

#[test]
fn parse_usize_rejects_overflow() {
    assert_eq!(
        parse_usize(b"999999999999999999999999999999").unwrap_err(),
        PgmError::MalformedNumber
    );
}

#[test]
fn parse_u16_reads_decimal() {
    assert_eq!(parse_u16(b"255").unwrap(), 255);
    assert_eq!(parse_u16(b"65535").unwrap(), 65535);
}

#[test]
fn parse_u16_rejects_overflow_and_garbage() {
    assert_eq!(parse_u16(b"65536").unwrap_err(), PgmError::MalformedNumber);
    assert_eq!(parse_u16(b"1.5").unwrap_err(), PgmError::MalformedNumber);
    assert_eq!(parse_u16(b"").unwrap_err(), PgmError::MalformedNumber);
}

#[test]
fn dispatch_recognizes_all_seven_magic_numbers() {
    assert_eq!(dispatch_magic(b"P1").unwrap(), FormatTag::BitmapAscii);
    assert_eq!(dispatch_magic(b"P2").unwrap(), FormatTag::GraymapAscii);
    assert_eq!(dispatch_magic(b"P3").unwrap(), FormatTag::PixmapAscii);
    assert_eq!(dispatch_magic(b"P4").unwrap(), FormatTag::BitmapBinary);
    assert_eq!(dispatch_magic(b"P5").unwrap(), FormatTag::GraymapBinary);
    assert_eq!(dispatch_magic(b"P6").unwrap(), FormatTag::PixmapBinary);
    assert_eq!(dispatch_magic(b"P7").unwrap(), FormatTag::Extended);
}

#[test]
fn dispatch_rejects_unknown_tokens() {
    assert_eq!(dispatch_magic(b"P0").unwrap_err(), PgmError::UnsupportedFormat);
    assert_eq!(dispatch_magic(b"P8").unwrap_err(), PgmError::UnsupportedFormat);
    assert_eq!(dispatch_magic(b"Q2").unwrap_err(), PgmError::UnsupportedFormat);
    assert_eq!(dispatch_magic(b"P25").unwrap_err(), PgmError::UnsupportedFormat);
    assert_eq!(dispatch_magic(b"").unwrap_err(), PgmError::UnsupportedFormat);
}
