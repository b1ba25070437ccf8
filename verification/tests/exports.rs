use umbra_exchange::indicator_kind::IndicatorKind;
use umbra_exchange::misp::{build_misp_event, misp_type_and_category, to_ids_for_confidence};
use umbra_exchange::stix::{build_stix_bundle, epoch_validity_window, normalize_confidence, stix_pattern_for, StixIndicatorInput};

fn input(raw: &str, epoch: u64, score: u32, proof_count: u32) -> StixIndicatorInput {
    StixIndicatorInput { raw_indicator: raw.to_string(), epoch, score, proof_count }
}

#[test]
fn to_ids_respects_threshold() {
    assert!(to_ids_for_confidence(80, 50));
    assert!(to_ids_for_confidence(50, 50));
    assert!(!to_ids_for_confidence(49, 50));
}

#[test]
fn misp_type_for_common_kinds() {
    assert_eq!(misp_type_and_category(IndicatorKind::Sha256).0, "sha256");
    assert_eq!(misp_type_and_category(IndicatorKind::Domain).0, "domain");
    assert_eq!(misp_type_and_category(IndicatorKind::Ipv4).0, "ip-dst");
    assert_eq!(misp_type_and_category(IndicatorKind::Unrecognized).0, "text");
}

#[test]
fn build_event_includes_disclosed_indicators() {
    let inputs = vec![input("evil.example", 20260822, 8, 4)];
    let event = build_misp_event(&inputs, 10, 50, "test-relay", "Umbra Exchange export");

    let objects = &event.objects;
    assert_eq!(objects.len(), 1);
    let attrs = &objects[0].attributes;
    assert_eq!(attrs[0].attr_type, "domain");
    assert_eq!(attrs[0].value, "evil.example");
    assert_eq!(attrs[0].to_ids, true, "confidence 80 must cross a 50 threshold");
    assert_eq!(attrs[1].value, "4");
    assert_eq!(attrs[2].value, "test-relay");
    assert_eq!(objects[0].first_seen, "2026-08-22T00:00:00Z");
}

#[test]
fn low_confidence_indicator_is_not_marked_to_ids() {
    let inputs = vec![input("maybe-evil.example", 20260822, 1, 1)];
    let event = build_misp_event(&inputs, 10, 50, "test-relay", "Umbra Exchange export");
    let attrs = &event.objects[0].attributes;
    assert_eq!(attrs[0].to_ids, false, "confidence 10 must not cross a 50 threshold");
}

#[test]
fn skips_entries_with_unparseable_epochs() {
    let inputs = vec![input("evil.example", 20260822, 5, 1), input("also-evil.example", 99999999, 5, 1)];
    let event = build_misp_event(&inputs, 10, 50, "test-relay", "Umbra Exchange export");
    assert_eq!(event.objects.len(), 1, "the unparseable-epoch entry must be skipped, not panic");
}

#[test]
fn pattern_for_sha256() {
    let hash = "a".repeat(64);
    assert_eq!(stix_pattern_for(&hash), format!("[file:hashes.'SHA-256' = '{hash}']"));
}

#[test]
fn pattern_for_md5() {
    let hash = "b".repeat(32);
    assert_eq!(stix_pattern_for(&hash), format!("[file:hashes.MD5 = '{hash}']"));
}

#[test]
fn pattern_for_ipv4() {
    assert_eq!(stix_pattern_for("198.51.100.23"), "[ipv4-addr:value = '198.51.100.23']");
}

#[test]
fn pattern_for_domain() {
    assert_eq!(stix_pattern_for("evil.example"), "[domain-name:value = 'evil.example']");
}

#[test]
fn pattern_for_url() {
    assert_eq!(stix_pattern_for("https://evil.example/payload"), "[url:value = 'https://evil.example/payload']");
}

#[test]
fn pattern_for_unrecognized_does_not_claim_a_type() {
    let pattern = stix_pattern_for("!!! not an indicator at all ###");
    assert!(pattern.contains("x-umbra:unrecognized-indicator"));
}

#[test]
fn epoch_validity_window_for_normal_date() {
    let (from, until) = epoch_validity_window(20260822).unwrap();
    assert_eq!(from, "2026-08-22T00:00:00Z");
    assert_eq!(until, "2026-08-23T00:00:00Z");
}

#[test]
fn epoch_validity_window_rolls_over_month_end() {
    let (from, until) = epoch_validity_window(20260831).unwrap();
    assert_eq!(from, "2026-08-31T00:00:00Z");
    assert_eq!(until, "2026-09-01T00:00:00Z");
}

#[test]
fn epoch_validity_window_rolls_over_year_end() {
    let (from, until) = epoch_validity_window(20261231).unwrap();
    assert_eq!(from, "2026-12-31T00:00:00Z");
    assert_eq!(until, "2027-01-01T00:00:00Z");
}

#[test]
fn epoch_validity_window_handles_leap_day() {
    let (from, until) = epoch_validity_window(20240228).unwrap();
    assert_eq!(from, "2024-02-28T00:00:00Z");
    assert_eq!(until, "2024-02-29T00:00:00Z");
}

#[test]
fn epoch_validity_window_rejects_invalid_dates() {
    assert!(epoch_validity_window(20260231).is_none());
    assert!(epoch_validity_window(20261301).is_none());
    assert!(epoch_validity_window(0).is_none());
}

#[test]
fn confidence_scales_and_clamps() {
    assert_eq!(normalize_confidence(0, 10), 0);
    assert_eq!(normalize_confidence(5, 10), 50);
    assert_eq!(normalize_confidence(10, 10), 100);
    assert_eq!(normalize_confidence(50, 10), 100, "must clamp, not overflow past 100");
}

#[test]
fn build_bundle_skips_entries_with_unparseable_epochs() {
    let inputs = vec![input("evil.example", 20260822, 5, 3), input("also-evil.example", 99999999, 5, 1)];
    let bundle = build_stix_bundle(&inputs, 10, "test-relay");
    assert_eq!(bundle.objects.len(), 1, "the unparseable-epoch entry must be skipped, not panic");
    assert_eq!(bundle.objects[0].pattern, "[domain-name:value = 'evil.example']");
}

#[test]
fn bundle_ids_are_deterministic() {
    let inputs = vec![input("evil.example", 20260822, 5, 3)];
    let a = build_stix_bundle(&inputs, 10, "test-relay");
    let b = build_stix_bundle(&inputs, 10, "test-relay");
    assert_eq!(a.objects[0].id, b.objects[0].id, "re-exporting the same data must produce the same STIX object id");
}

// ---------------------------------------------------------------------------

#[test]
fn leap_day_of_a_leap_year_rolls_into_march() {
    let (from, until) = epoch_validity_window(20240229).unwrap();
    assert_eq!(from, "2024-02-29T00:00:00Z");
    assert_eq!(until, "2024-03-01T00:00:00Z");
    assert!(epoch_validity_window(21000229).is_none(), "2100 is not a leap year");
    assert!(epoch_validity_window(20000229).is_some(), "2000 is a leap year");
    assert!(epoch_validity_window(19691231).is_none(), "years before 1970 are refused");
    assert!(epoch_validity_window(99991231).is_none(), "a window ending in year 10000 has no RFC 3339 form");
    let (from, until) = epoch_validity_window(99991230).unwrap();
    assert_eq!(from, "9999-12-30T00:00:00Z");
    assert_eq!(until, "9999-12-31T00:00:00Z");
}

#[test]
fn zero_full_confidence_scale_means_full_confidence() {
    assert_eq!(normalize_confidence(0, 0), 100);
    assert_eq!(normalize_confidence(3, 7), 42);
    assert_eq!(normalize_confidence(u32::MAX, 1), 100);
}

#[test]
fn quotes_are_escaped_in_patterns() {
    assert_eq!(stix_pattern_for("  it's.example "), "[x-umbra:unrecognized-indicator = 'it\\'s.example']");
    assert_eq!(stix_pattern_for("http://a.example/?q='x'"), "[url:value = 'http://a.example/?q=\\'x\\'']");
    assert_eq!(stix_pattern_for("o'brien"), "[x-umbra:unrecognized-indicator = 'o\\'brien']");
    assert_eq!(stix_pattern_for("2001:db8::1"), "[ipv6-addr:value = '2001:db8::1']");
    assert_eq!(stix_pattern_for(&"C".repeat(40)), format!("[file:hashes.'SHA-1' = '{}']", "C".repeat(40)));
}

#[test]
fn bundle_fields_follow_the_mapping() {
    let inputs = vec![input("evil.example", 20260822, 5, 3)];
    let bundle = build_stix_bundle(&inputs, 10, "test-relay");
    assert_eq!(bundle.bundle_type, "bundle");
    assert!(bundle.id.starts_with("bundle--"));
    let o = &bundle.objects[0];
    assert!(o.id.starts_with("indicator--"));
    assert_eq!(o.id.len(), "indicator--".len() + 36);
    assert_eq!(o.spec_version, "2.1");
    assert_eq!(o.pattern_type, "stix");
    assert_eq!(o.valid_from, "2026-08-22T00:00:00Z");
    assert_eq!(o.valid_until, "2026-08-23T00:00:00Z");
    assert_eq!(o.confidence, 50);
    assert_eq!(o.x_umbra_proof_count, 3);
    assert_eq!(o.x_umbra_relay_id, "test-relay");
    let other = build_stix_bundle(&inputs, 10, "other-relay");
    assert_ne!(other.objects[0].id, o.id);
}

#[test]
fn misp_event_header_and_attributes() {
    let inputs = vec![input(&"d".repeat(64), 20261231, 10, 2)];
    let event = build_misp_event(&inputs, 10, 50, "r", "info text");
    assert_eq!(event.info, "info text");
    assert_eq!(event.threat_level_id, "3");
    assert_eq!(event.analysis, "0");
    assert_eq!(event.distribution, "0");
    assert_eq!(event.date, "2026-12-31");
    let o = &event.objects[0];
    assert_eq!(o.name, "umbra-observation");
    assert_eq!(o.meta_category, "network");
    assert_eq!(o.attributes[0].attr_type, "sha256");
    assert_eq!(o.attributes[0].category, "Payload delivery");
    assert_eq!(o.attributes[0].comment.as_deref(), Some("confidence 100/100"));
    assert_eq!(o.attributes[1].object_relation.as_deref(), Some("proof-count"));
    assert_eq!(o.attributes[1].attr_type, "counter");
    assert_eq!(o.attributes[2].object_relation.as_deref(), Some("relay-id"));
    let empty = build_misp_event(&[], 10, 50, "r", "x");
    assert_eq!(empty.date, "");
    assert!(empty.objects.is_empty());
    let bad_first = build_misp_event(&[input("a.b", 1, 1, 1)], 10, 50, "r", "x");
    assert_eq!(bad_first.date, "");
}

#[test]
fn pattern_is_prefix_escaped_text_and_close() {
    assert_eq!(
        stix_pattern_for("  !!! not an indicator at all ###  "),
        "[x-umbra:unrecognized-indicator = '!!! not an indicator at all ###']"
    );
    assert_eq!(stix_pattern_for("it's-odd"), "[x-umbra:unrecognized-indicator = 'it\\'s-odd']");
    assert_eq!(stix_pattern_for(" 10.0.0.1 "), "[ipv4-addr:value = '10.0.0.1']");
    assert_eq!(stix_pattern_for("::1"), "[ipv6-addr:value = '::1']");
}
