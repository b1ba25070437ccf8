use umbra_exchange::indicator_kind::{classify, IndicatorKind};

#[test]
fn classifies_hashes_by_length() {
    assert_eq!(classify(&"a".repeat(32)), IndicatorKind::Md5);
    assert_eq!(classify(&"a".repeat(40)), IndicatorKind::Sha1);
    assert_eq!(classify(&"a".repeat(64)), IndicatorKind::Sha256);
}

#[test]
fn classifies_ips() {
    assert_eq!(classify("198.51.100.23"), IndicatorKind::Ipv4);
    assert_eq!(classify("2001:db8::1"), IndicatorKind::Ipv6);
}

#[test]
fn classifies_url_and_domain() {
    assert_eq!(classify("https://evil.example/payload"), IndicatorKind::Url);
    assert_eq!(classify("evil.example"), IndicatorKind::Domain);
}

#[test]
fn classifies_unrecognized() {
    assert_eq!(classify("!!! not an indicator ###"), IndicatorKind::Unrecognized);
}

// ---------------------------------------------------------------------------

#[test]
fn classification_trims_and_checks_hex_digits() {
    assert_eq!(classify(&format!("  {}  ", "F".repeat(64))), IndicatorKind::Sha256);
    assert_eq!(classify(&"g".repeat(32)), IndicatorKind::Unrecognized);
    assert_eq!(classify(&"a".repeat(33)), IndicatorKind::Unrecognized);
}

#[test]
fn ipv4_grammar_edges() {
    assert_eq!(classify("255.255.255.255"), IndicatorKind::Ipv4);
    assert_eq!(classify("0.0.0.0"), IndicatorKind::Ipv4);
    // out-of-range octet, leading zero, too few octets
    assert_eq!(classify("256.1.1.1"), IndicatorKind::Domain);
    assert_eq!(classify("01.2.3.4"), IndicatorKind::Domain);
    assert_eq!(classify("1.2.3"), IndicatorKind::Domain);
}

#[test]
fn ipv6_grammar_edges() {
    assert_eq!(classify("::"), IndicatorKind::Ipv6);
    assert_eq!(classify("::1"), IndicatorKind::Ipv6);
    assert_eq!(classify("1:2:3:4:5:6:7:8"), IndicatorKind::Ipv6);
    assert_eq!(classify("::ffff:192.0.2.1"), IndicatorKind::Ipv6);
    assert_eq!(classify("1:2:3:4:5:6:7:8:9"), IndicatorKind::Unrecognized);
    assert_eq!(classify("1::2::3"), IndicatorKind::Unrecognized);
}

#[test]
fn domains_need_a_dot_and_clean_labels() {
    assert_eq!(classify("localhost"), IndicatorKind::Unrecognized);
    assert_eq!(classify("a..b"), IndicatorKind::Unrecognized);
    assert_eq!(classify("my-host.example"), IndicatorKind::Domain);
    assert_eq!(classify("http://x"), IndicatorKind::Url);
    assert_eq!(classify("a/b.c"), IndicatorKind::Unrecognized);
}
