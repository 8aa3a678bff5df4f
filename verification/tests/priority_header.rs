//! Tests of the weighted preference-header parser.

use rouille::input::priority_header_preferred;

const SERVER_PREFERENCE: [&str; 4] = ["br", "gzip", "x-gzip", "identity"];

#[test]
fn weighted_header_picks_highest_quality() {
    let header = "gzip;q=0.5, br;q=0.8, identity;q=0.1";
    let r = priority_header_preferred(header, &SERVER_PREFERENCE);
    assert_eq!(r, Some(0)); // br, highest quality among matched entries
}

#[test]
fn implicit_quality_ties_break_by_server_order() {
    let header = "br, gzip";
    let r = priority_header_preferred(header, &SERVER_PREFERENCE);
    assert_eq!(r, Some(0)); // both q=1.0; br stands earlier in the server list
}

#[test]
fn client_order_does_not_override_server_order() {
    let header = "x-gzip, gzip";
    let r = priority_header_preferred(header, &SERVER_PREFERENCE);
    assert_eq!(r, Some(1)); // tie at q=1.0; gzip stands earlier than x-gzip
}

#[test]
fn empty_header_selects_nothing() {
    assert_eq!(priority_header_preferred("", &SERVER_PREFERENCE), None);
}

#[test]
fn zero_quality_and_unsupported_tokens_select_nothing() {
    let header = "gzip;q=0, snappy, zstd;q=0.9";
    assert_eq!(priority_header_preferred(header, &SERVER_PREFERENCE), None);
}

#[test]
fn zero_quality_alone_selects_nothing() {
    assert_eq!(priority_header_preferred("gzip;q=0", &SERVER_PREFERENCE), None);
    assert_eq!(priority_header_preferred("br;q=0, gzip;q=0", &SERVER_PREFERENCE), None);
}

#[test]
fn wildcard_matches_unlisted_tokens() {
    let r = priority_header_preferred("*;q=0.5, gzip;q=0.1", &["br", "gzip"]);
    assert_eq!(r, Some(0)); // br via the wildcard at 0.5 beats gzip at 0.1
}

#[test]
fn wildcard_does_not_override_explicit_entry() {
    let r = priority_header_preferred("*;q=0.9, gzip;q=0.1", &["gzip"]);
    assert_eq!(r, Some(0)); // gzip is explicitly listed, so only q=0.1 counts
    let r = priority_header_preferred("*;q=0.9, gzip;q=0.1", &["gzip", "br"]);
    assert_eq!(r, Some(1)); // br gets the wildcard's 0.9
}

#[test]
fn malformed_quality_falls_back_to_default() {
    let r = priority_header_preferred("gzip;q=abc", &SERVER_PREFERENCE);
    assert_eq!(r, Some(1)); // entry kept at the default quality 1.0
    let r = priority_header_preferred("gzip;q=1.5, br;q=0.9", &SERVER_PREFERENCE);
    assert_eq!(r, Some(1)); // q=1.5 is malformed; gzip keeps q=1.0 and beats br at 0.9
}

#[test]
fn tokens_compare_case_insensitively() {
    assert_eq!(priority_header_preferred("GZip", &SERVER_PREFERENCE), Some(1));
    assert_eq!(priority_header_preferred("BR;q=0.8, gzip;q=0.5", &SERVER_PREFERENCE), Some(0));
}

#[test]
fn whitespace_around_tokens_and_parameters_is_ignored() {
    let r = priority_header_preferred("  gzip ; q=0.5 ,  br ;q=0.8 ", &SERVER_PREFERENCE);
    assert_eq!(r, Some(0));
}

#[test]
fn last_quality_parameter_wins() {
    let r = priority_header_preferred("gzip;q=0.9;q=0, br;q=0.5", &SERVER_PREFERENCE);
    assert_eq!(r, Some(0)); // gzip ends at q=0, br wins at 0.5
}

#[test]
fn fraction_digits_are_thousandths() {
    // 0.85 beats 0.8, so the later x-gzip entry wins over gzip
    let r = priority_header_preferred("gzip;q=0.8, x-gzip;q=0.85", &SERVER_PREFERENCE);
    assert_eq!(r, Some(2));
}
