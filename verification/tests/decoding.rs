use netpbm::errors::PgmError;
use netpbm::parser::parse;

fn p5_header(width: usize, height: usize, max_value: u32) -> Vec<u8> {
    let mut buf = Vec::new();
    buf.extend_from_slice(format!("P5 {} {} {}\n", width, height, max_value).as_bytes());
    buf
}

#[test]
fn binary_graymap_roundtrip() {
    let samples: Vec<u16> = vec![10, 20, 30, 40, 50, 60];
    let mut buf = p5_header(3, 2, 255);
    for s in &samples {
        buf.push(*s as u8);
    }
    let image = parse(&buf).unwrap();
    assert_eq!(image.data, samples);
    assert_eq!(image.width, 3);
    assert_eq!(image.height, 2);
    assert_eq!(image.max_value, 255);
}

#[test]
fn sixteen_bit_packing() {
    let mut buf = p5_header(2, 1, 65535);
    buf.extend_from_slice(&[0x01, 0x02, 0x00, 0xFF]);
    let image = parse(&buf).unwrap();
    assert_eq!(image.data, vec![258, 255]);
}

#[test]
fn ascii_tolerates_repeated_whitespace() {
    let buf = b"P2\n3 1\n255\n10 20  30\n".to_vec();
    let image = parse(&buf).unwrap();
    assert_eq!(image.data, vec![10, 20, 30]);
}

#[test]
fn comment_line_skipped() {
    let with_comment = b"# comment\nP2\n2 2\n255\n1 2 3 4".to_vec();
    let without = b"P2\n2 2\n255\n1 2 3 4".to_vec();
    let a = parse(&with_comment).unwrap();
    let b = parse(&without).unwrap();
    assert_eq!(a, b);
    assert_eq!(a.data, vec![1, 2, 3, 4]);
}

#[test]
fn comment_with_embedded_spaces_skipped_to_end_of_line() {
    let buf = b"P2\n# a comment with spaces\n1 1 255\n7".to_vec();
    let image = parse(&buf).unwrap();
    assert_eq!(image.data, vec![7]);
    assert_eq!(image.width, 1);
    assert_eq!(image.height, 1);
}

#[test]
fn truncated_binary_body_fails() {
    let mut buf = p5_header(4, 4, 255);
    buf.extend_from_slice(&[0u8; 10]);
    assert_eq!(parse(&buf).unwrap_err(), PgmError::TruncatedData);
}

#[test]
fn oversized_binary_body_fails() {
    let mut buf = p5_header(2, 2, 255);
    buf.extend_from_slice(&[0u8; 5]);
    assert_eq!(parse(&buf).unwrap_err(), PgmError::TruncatedData);
}

#[test]
fn unknown_magic_fails_unsupported() {
    let buf = b"P9 1 1 255\n0".to_vec();
    assert_eq!(parse(&buf).unwrap_err(), PgmError::UnsupportedFormat);
}

#[test]
fn recognized_unimplemented_magic_fails_not_implemented() {
    let buf = b"P3 1 1 255\n1 1 1".to_vec();
    assert_eq!(parse(&buf).unwrap_err(), PgmError::NotImplemented);
}

#[test]
fn parsing_twice_yields_identical_images() {
    let buf = b"P2\n2 1\n255\n9 8".to_vec();
    let first = parse(&buf).unwrap();
    let second = parse(&buf).unwrap();
    assert_eq!(first, second);
}

#[test]
fn empty_buffer_fails_incomplete_header() {
    assert_eq!(parse(&[]).unwrap_err(), PgmError::IncompleteHeader);
}

#[test]
fn missing_max_value_fails_incomplete_header() {
    let buf = b"P5 2 2".to_vec();
    assert_eq!(parse(&buf).unwrap_err(), PgmError::IncompleteHeader);
}

#[test]
fn non_digit_width_fails_malformed_number() {
    let buf = b"P2 ab 2 255\n1".to_vec();
    assert_eq!(parse(&buf).unwrap_err(), PgmError::MalformedNumber);
}

#[test]
fn overflowing_max_value_fails_malformed_number() {
    let buf = b"P2 1 1 65536\n1".to_vec();
    assert_eq!(parse(&buf).unwrap_err(), PgmError::MalformedNumber);
}

#[test]
fn ascii_data_ends_at_first_unparseable_token() {
    let buf = b"P2 2 1 255\n10 20 xyz 30".to_vec();
    let image = parse(&buf).unwrap();
    assert_eq!(image.data, vec![10, 20]);
}

#[test]
fn ascii_empty_body_yields_no_samples() {
    let buf = b"P2 1 1 255\n".to_vec();
    let image = parse(&buf).unwrap();
    assert_eq!(image.data, Vec::<u16>::new());
}

#[test]
fn binary_narrow_boundary_max_value() {
    // max_value 255 is the widest one-byte range: still one byte per sample
    let mut buf = p5_header(1, 1, 255);
    buf.push(0xAB);
    let image = parse(&buf).unwrap();
    assert_eq!(image.data, vec![0xAB]);
}

#[test]
fn binary_wide_boundary_max_value() {
    // max_value 256 is the first two-byte range
    let mut buf = p5_header(1, 1, 256);
    buf.extend_from_slice(&[0x01, 0x00]);
    let image = parse(&buf).unwrap();
    assert_eq!(image.data, vec![256]);
}

#[test]
fn header_with_extra_whitespace_between_fields() {
    let buf = b"P2  2\t1\r\n255\n5 6".to_vec();
    let image = parse(&buf).unwrap();
    assert_eq!(image.data, vec![5, 6]);
    assert_eq!(image.width, 2);
    assert_eq!(image.height, 1);
}
