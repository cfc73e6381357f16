use sspagbol::{
    certificate_der_status, certificate_host, certificate_status, decimal, dns_query,
    dns_reply_status, failure_status, parse_port, request_url, socket_address, ssh_banner_status,
    ssh_banner_text_status,
};

/// A self-signed Ed25519 certificate for www.example.com, valid from
/// 2021-07-27 12:37:14 UTC to 2023-06-27 12:37:14 UTC.
const ED25519_CERT: [u8; 268] = [
    0x30, 0x82, 0x01, 0x08, 0x30, 0x81, 0xbb, 0x02, 0x14, 0x77, 0xe5, 0xf4,
    0xc0, 0x34, 0x88, 0xa1, 0x22, 0x6c, 0xf5, 0xcd, 0x45, 0xf3, 0xcd, 0xf0,
    0x49, 0x91, 0xf8, 0x15, 0x43, 0x30, 0x05, 0x06, 0x03, 0x2b, 0x65, 0x70,
    0x30, 0x27, 0x31, 0x0b, 0x30, 0x09, 0x06, 0x03, 0x55, 0x04, 0x06, 0x13,
    0x02, 0x44, 0x45, 0x31, 0x18, 0x30, 0x16, 0x06, 0x03, 0x55, 0x04, 0x03,
    0x0c, 0x0f, 0x77, 0x77, 0x77, 0x2e, 0x65, 0x78, 0x61, 0x6d, 0x70, 0x6c,
    0x65, 0x2e, 0x63, 0x6f, 0x6d, 0x30, 0x1e, 0x17, 0x0d, 0x32, 0x31, 0x30,
    0x37, 0x32, 0x37, 0x31, 0x32, 0x33, 0x37, 0x31, 0x34, 0x5a, 0x17, 0x0d,
    0x32, 0x33, 0x30, 0x36, 0x32, 0x37, 0x31, 0x32, 0x33, 0x37, 0x31, 0x34,
    0x5a, 0x30, 0x27, 0x31, 0x0b, 0x30, 0x09, 0x06, 0x03, 0x55, 0x04, 0x06,
    0x13, 0x02, 0x44, 0x45, 0x31, 0x18, 0x30, 0x16, 0x06, 0x03, 0x55, 0x04,
    0x03, 0x0c, 0x0f, 0x77, 0x77, 0x77, 0x2e, 0x65, 0x78, 0x61, 0x6d, 0x70,
    0x6c, 0x65, 0x2e, 0x63, 0x6f, 0x6d, 0x30, 0x2a, 0x30, 0x05, 0x06, 0x03,
    0x2b, 0x65, 0x70, 0x03, 0x21, 0x00, 0x3e, 0xa4, 0x05, 0xd2, 0xef, 0x19,
    0xf5, 0xe0, 0xab, 0xf3, 0x3e, 0x4d, 0xf5, 0x4e, 0xe5, 0x1d, 0x05, 0x44,
    0x79, 0x3d, 0x98, 0xe2, 0x67, 0x25, 0x37, 0xf4, 0xff, 0xca, 0xf8, 0x60,
    0x98, 0x4c, 0x30, 0x05, 0x06, 0x03, 0x2b, 0x65, 0x70, 0x03, 0x41, 0x00,
    0x20, 0xdb, 0x7a, 0xe6, 0xfa, 0xc2, 0x88, 0xe9, 0x59, 0xf4, 0x6a, 0xca,
    0xb2, 0xd7, 0x2c, 0x48, 0x0d, 0x55, 0xbc, 0x0f, 0x27, 0x57, 0x32, 0x52,
    0x68, 0x3f, 0xe8, 0x01, 0xaa, 0x9e, 0x83, 0xd2, 0x23, 0xc3, 0xb4, 0x8c,
    0x17, 0x93, 0x70, 0x6b, 0xde, 0x0d, 0xc4, 0xaa, 0x36, 0x71, 0xc8, 0x83,
    0x83, 0xb1, 0xe4, 0x1a, 0x6e, 0x52, 0x8b, 0xd6, 0xbc, 0x02, 0xa6, 0x26,
    0xea, 0x8d, 0xd5, 0x02,
];

/// 2023-06-27 12:37:14 UTC, in seconds since the Unix epoch.
const ED25519_CERT_NOT_AFTER: i64 = 1_687_869_434;

const HEADER: [u8; 12] = [0x12, 0x34, 0x01, 0x00, 0x00, 0x01, 0x00, 0x00, 0x00, 0x00, 0x00, 0x00];

#[test]
fn dns_query_encodes_labels() {
    let mut expected = HEADER.to_vec();
    expected.extend_from_slice(&[6, b'g', b'o', b'o', b'g', b'l', b'e', 3, b'c', b'o', b'm', 0]);
    expected.extend_from_slice(&[0x00, 0x01, 0x00, 0x01]);
    assert_eq!(dns_query("google.com"), Some(expected));
}

#[test]
fn dns_query_of_empty_name_has_one_empty_label() {
    let mut expected = HEADER.to_vec();
    expected.extend_from_slice(&[0, 0, 0x00, 0x01, 0x00, 0x01]);
    assert_eq!(dns_query(""), Some(expected));
}

#[test]
fn dns_query_keeps_empty_label_after_trailing_dot() {
    let mut expected = HEADER.to_vec();
    expected.extend_from_slice(&[1, b'a', 0, 0, 0x00, 0x01, 0x00, 0x01]);
    assert_eq!(dns_query("a."), Some(expected));
}

#[test]
fn dns_query_accepts_label_of_63_bytes() {
    let label = "x".repeat(63);
    let q = dns_query(&format!("{}.org", label)).unwrap();
    assert_eq!(q[12], 63);
    assert_eq!(q.len(), 12 + 1 + 63 + 1 + 3 + 1 + 4);
}

#[test]
fn dns_query_rejects_label_of_64_bytes() {
    let label = "x".repeat(64);
    assert_eq!(dns_query(&format!("www.{}.org", label)), None);
}

#[test]
fn dns_reply_with_matching_id_succeeds() {
    assert_eq!(dns_reply_status(&[0x12, 0x34]), "\u{2705}");
    assert_eq!(dns_reply_status(&[0x12, 0x34, 0xff, 0x00, 0x01]), "\u{2705}");
    let mut full = dns_query("google.com").unwrap();
    full[2] = 0x81;
    full[3] = 0x80;
    assert_eq!(dns_reply_status(&full), "\u{2705}");
}

#[test]
fn dns_reply_with_other_id_fails() {
    let mut full = dns_query("google.com").unwrap();
    full[1] = 0x35;
    assert_eq!(dns_reply_status(&full), "\u{274c}");
    assert_eq!(dns_reply_status(&[0x34, 0x12]), "\u{274c}");
}

#[test]
fn dns_reply_too_short_fails() {
    assert_eq!(dns_reply_status(&[]), "\u{274c}");
    assert_eq!(dns_reply_status(&[0x12]), "\u{274c}");
}

#[test]
fn ssh_banner_succeeds_with_trimmed_text() {
    assert_eq!(
        ssh_banner_status(b"SSH-2.0-OpenSSH_9.6\r\n"),
        "\u{2705} - SSH-2.0-OpenSSH_9.6"
    );
    assert_eq!(ssh_banner_status(b"SSH-"), "\u{2705} - SSH-");
    assert_eq!(ssh_banner_status(b"SSH-1.99-x\n\r\n"), "\u{2705} - SSH-1.99-x");
}

#[test]
fn ssh_banner_keeps_inner_line_breaks() {
    assert_eq!(ssh_banner_status(b"SSH-2.0-a\r\nb\n"), "\u{2705} - SSH-2.0-a\r\nb");
}

#[test]
fn ssh_banner_decodes_invalid_bytes_lossily() {
    assert_eq!(ssh_banner_status(b"SSH-2.0-\xff\r\n"), "\u{2705} - SSH-2.0-\u{fffd}");
}

#[test]
fn ssh_banner_other_greetings_fail() {
    assert_eq!(ssh_banner_status(b"HTTP/1.1 400 Bad Request\r\n"), "\u{274c}");
    assert_eq!(ssh_banner_status(b"SSH"), "\u{274c}");
    assert_eq!(ssh_banner_status(b"ssh-2.0"), "\u{274c}");
    assert_eq!(ssh_banner_status(b""), "\u{274c}");
    assert_eq!(ssh_banner_text_status(" SSH-2.0"), "\u{274c}");
}

#[test]
fn request_url_overrides_port() {
    assert_eq!(
        request_url("https://example.test/", 8443),
        Some("https://example.test:8443/".to_string())
    );
    assert_eq!(
        request_url("http://example.test:8080/status?x=1", 9000),
        Some("http://example.test:9000/status?x=1".to_string())
    );
}

#[test]
fn request_url_hides_default_port() {
    assert_eq!(
        request_url("https://example.test/", 443),
        Some("https://example.test/".to_string())
    );
    assert_eq!(request_url("http://example.test", 80), Some("http://example.test/".to_string()));
}

#[test]
fn request_url_keeps_url_that_cannot_carry_port() {
    assert_eq!(
        request_url("mailto:ops@example.test", 25),
        Some("mailto:ops@example.test".to_string())
    );
}

#[test]
fn request_url_rejects_unparseable_url() {
    assert_eq!(request_url("example.test", 80), None);
    assert_eq!(request_url("", 80), None);
}

#[test]
fn certificate_expiring_now_has_expired() {
    assert_eq!(certificate_status(1_700_000_000, 1_700_000_000), "\u{274c} - Expired");
    assert_eq!(certificate_status(1_699_999_999, 1_700_000_000), "\u{274c} - Expired");
}

#[test]
fn certificate_days_round_down() {
    assert_eq!(certificate_status(1_700_086_400, 1_700_000_000), "\u{2705} - Valid For 1 days");
    assert_eq!(certificate_status(1_700_086_399, 1_700_000_000), "\u{2705} - Valid For 0 days");
    assert_eq!(certificate_status(1_700_000_000 + 90 * 86_400 + 5, 1_700_000_000), "\u{2705} - Valid For 90 days");
}

#[test]
fn certificate_status_at_extremes() {
    assert_eq!(
        certificate_status(i64::MAX, i64::MIN),
        format!("\u{2705} - Valid For {} days", u64::MAX / 86_400)
    );
    assert_eq!(certificate_status(i64::MIN, i64::MAX), "\u{274c} - Expired");
}

#[test]
fn certificate_bytes_that_do_not_parse() {
    assert_eq!(
        certificate_der_status(b"not a certificate", 0),
        "\u{274c} - SSL Certificate Missing or Unreadable"
    );
    assert_eq!(
        certificate_der_status(&[], 0),
        "\u{274c} - SSL Certificate Missing or Unreadable"
    );
}

#[test]
fn certificate_expiry_is_read_from_der() {
    assert_eq!(
        certificate_der_status(&ED25519_CERT, ED25519_CERT_NOT_AFTER - 30 * 86_400),
        "\u{2705} - Valid For 30 days"
    );
    assert_eq!(
        certificate_der_status(&ED25519_CERT, ED25519_CERT_NOT_AFTER - 1),
        "\u{2705} - Valid For 0 days"
    );
    assert_eq!(
        certificate_der_status(&ED25519_CERT, ED25519_CERT_NOT_AFTER),
        "\u{274c} - Expired"
    );
}

#[test]
fn certificate_host_from_url() {
    assert_eq!(certificate_host("https://Example.TEST:8443/x"), Ok("example.test".to_string()));
    assert_eq!(certificate_host("https://192.0.2.7/"), Ok("192.0.2.7".to_string()));
}

#[test]
fn certificate_host_of_unusable_url() {
    assert_eq!(certificate_host("not a url"), Err("\u{274c} - Invalid URL".to_string()));
    assert_eq!(certificate_host("mailto:ops@example.test"), Err("\u{274c} - Invalid URL".to_string()));
}

#[test]
fn ports_are_read_as_u16() {
    assert_eq!(parse_port("8443"), Some(8443));
    assert_eq!(parse_port("+80"), Some(80));
    assert_eq!(parse_port("0080"), Some(80));
    assert_eq!(parse_port("0"), Some(0));
    assert_eq!(parse_port("65535"), Some(65535));
}

#[test]
fn bad_ports_are_refused() {
    assert_eq!(parse_port("65536"), None);
    assert_eq!(parse_port("99999999999999999999"), None);
    assert_eq!(parse_port(""), None);
    assert_eq!(parse_port("+"), None);
    assert_eq!(parse_port("-1"), None);
    assert_eq!(parse_port("80a"), None);
    assert_eq!(parse_port(" 80"), None);
    assert_eq!(parse_port("٨٠"), None);
}

#[test]
fn numbers_and_addresses() {
    assert_eq!(decimal(0), "0");
    assert_eq!(decimal(1907), "1907");
    assert_eq!(decimal(u64::MAX), u64::MAX.to_string());
    assert_eq!(socket_address("203.0.113.5", 22), "203.0.113.5:22");
    assert_eq!(socket_address("ns.example.test", 53), "ns.example.test:53");
    assert_eq!(failure_status("Unable to connect to server"), "\u{274c} - Unable to connect to server");
}
