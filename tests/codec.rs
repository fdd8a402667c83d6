use sinkhole::codec::{create_nxdomain_response, parse_dns_query, ParseError};

fn query(labels: &[&[u8]]) -> Vec<u8> {
    let mut q = vec![0x12, 0x34, 0x01, 0x00, 0x00, 0x01, 0x00, 0x00, 0x00, 0x00, 0x00, 0x00];
    for label in labels {
        q.push(label.len() as u8);
        q.extend_from_slice(label);
    }
    q.push(0);
    q.extend_from_slice(&[0x00, 0x01, 0x00, 0x01]);
    q
}

#[test]
fn parse_round_trips_a_b_c() {
    let q = query(&[b"a", b"b", b"c"]);
    assert_eq!(parse_dns_query(&q), Ok("a.b.c".to_string()));
}

#[test]
fn parse_reads_a_longer_name() {
    let q = query(&[b"images", b"ads", b"example", b"com"]);
    assert_eq!(parse_dns_query(&q), Ok("images.ads.example.com".to_string()));
}

#[test]
fn parse_rejects_a_short_buffer() {
    assert_eq!(parse_dns_query(&[0u8; 11]), Err(ParseError::TooShort));
    assert_eq!(parse_dns_query(&[1, 2, 3, 4, 5]), Err(ParseError::TooShort));
}

#[test]
fn parse_rejects_a_label_past_the_end() {
    let mut q = vec![0u8; 12];
    q.extend_from_slice(&[3, b'a', b'b']);
    assert_eq!(parse_dns_query(&q), Err(ParseError::TruncatedLabel));
}

#[test]
fn parse_rejects_invalid_utf8() {
    let q = query(&[b"ok", &[0xff, 0xfe]]);
    assert_eq!(parse_dns_query(&q), Err(ParseError::InvalidEncoding));
}

#[test]
fn parse_reports_the_first_error_met() {
    let mut q = vec![0u8; 12];
    q.extend_from_slice(&[1, 0xff, 9, b'a']);
    assert_eq!(parse_dns_query(&q), Err(ParseError::InvalidEncoding));
}

#[test]
fn parse_keeps_multibyte_text() {
    let q = query(&["café".as_bytes(), b"fr"]);
    assert_eq!(parse_dns_query(&q), Ok("café.fr".to_string()));
}

#[test]
fn parse_of_a_bare_header_is_empty() {
    assert_eq!(parse_dns_query(&[0u8; 12]), Ok(String::new()));
}

#[test]
fn parse_stops_at_the_end_of_the_buffer() {
    let mut q = vec![0u8; 12];
    q.extend_from_slice(&[2, b'a', b'b', 1, b'c']);
    assert_eq!(parse_dns_query(&q), Ok("ab.c".to_string()));
}

#[test]
fn negative_response_has_the_expected_shape() {
    let mut q = query(&[b"ads", b"example", b"com"]);
    q[3] = 0xA5;
    q[6] = 1;
    q[7] = 2;
    q[8] = 3;
    q[9] = 4;
    q[10] = 5;
    q[11] = 6;
    let r = create_nxdomain_response(&q).unwrap();
    assert_eq!(r.len(), q.len());
    assert_eq!(&r[12..], &q[12..]);
    assert_eq!(&r[0..2], &q[0..2]);
    assert_eq!(&r[4..6], &q[4..6]);
    assert_eq!(r[2], 0x81);
    assert_eq!(r[3], 0xA3);
    assert_eq!(&r[6..12], &[0u8; 6]);
}

#[test]
fn negative_response_of_a_bare_header() {
    let q = [0xAB, 0xCD, 0x01, 0xFF, 0, 1, 0, 1, 0, 1, 0, 1];
    let r = create_nxdomain_response(&q).unwrap();
    assert_eq!(r, vec![0xAB, 0xCD, 0x81, 0xF3, 0, 1, 0, 0, 0, 0, 0, 0]);
}

#[test]
fn negative_response_rejects_a_short_buffer() {
    assert_eq!(create_nxdomain_response(&[0u8; 5]), Err(ParseError::TooShort));
}

#[test]
fn parse_rejects_a_control_byte() {
    let q = query(&[b"a\x01b", b"com"]);
    assert_eq!(parse_dns_query(&q), Err(ParseError::InvalidEncoding));
}

#[test]
fn parse_rejects_a_delete_character() {
    let q = query(&[b"ab\x7f", b"com"]);
    assert_eq!(parse_dns_query(&q), Err(ParseError::InvalidEncoding));
}

#[test]
fn parse_rejects_a_unicode_control_character() {
    let q = query(&["a\u{85}".as_bytes(), b"com"]);
    assert_eq!(parse_dns_query(&q), Err(ParseError::InvalidEncoding));
}

#[test]
fn parse_rejects_a_compression_pointer() {
    let mut q = vec![0u8; 12];
    q.extend_from_slice(&[0xC0, 0x0C]);
    assert_eq!(parse_dns_query(&q), Err(ParseError::InvalidEncoding));
    let mut long = vec![0u8; 12];
    long.push(0xC0);
    long.extend_from_slice(&[b'a'; 200]);
    long.push(0);
    assert_eq!(parse_dns_query(&long), Err(ParseError::InvalidEncoding));
}

#[test]
fn parse_lowers_ascii_capitals() {
    let q = query(&[b"ADS", b"Example", b"com"]);
    assert_eq!(parse_dns_query(&q), Ok("ads.example.com".to_string()));
}

#[test]
fn parse_leaves_non_ascii_letters_alone() {
    let q = query(&["CAFÉ".as_bytes(), b"FR"]);
    assert_eq!(parse_dns_query(&q), Ok("cafÉ.fr".to_string()));
}
