use viaduct_core::network::inoreader::{
    conditional_get_from_response, item_id_parameter, parse_usage_limits, status_error, sync_retry_after_secs,
    unique_id_for_article, ReaderAPIEndpoints, ReaderAPIFailure, ReaderAPIVariant, UsageReport,
    DEFAULT_USAGE_LIMITS_RESET_AFTER_SECS, SYNC_DEFAULT_RETRY_AFTER_SECS,
};

#[test]
fn low_id_converts_to_decimal() {
    assert_eq!(unique_id_for_article("tag:google.com,2005:reader/item/00058b10ce338909"), "1560279178774793");
}

#[test]
fn high_bit_id_does_not_overflow() {
    assert_eq!(unique_id_for_article("tag:google.com,2005:reader/item/ffffffffffffcdef"), "-12817");
}

#[test]
fn zero_id() {
    assert_eq!(unique_id_for_article("tag:google.com,2005:reader/item/0000000000000000"), "0");
}

#[test]
fn non_hex_id_returns_raw_part() {
    assert_eq!(unique_id_for_article("tag:google.com,2005:reader/item/notavalidhexvalue"), "notavalidhexvalue");
}

#[test]
fn decimal_round_trips_to_original_hex() {
    for hex in ["00058b10ce338909", "ffffffffffffcdef", "0000000000000000"] {
        let decimal = unique_id_for_article(&format!("tag:google.com,2005:reader/item/{hex}"));
        let value: i64 = decimal.parse().unwrap();
        assert_eq!(format!("{:016x}", value.cast_unsigned()), hex);
        assert_eq!(item_id_parameter(&decimal).unwrap(), format!("tag:google.com,2005:reader/item/{hex}"));
    }
}

#[test]
fn item_id_parameter_zero_pads_and_handles_negatives() {
    assert_eq!(item_id_parameter("1560279178774793").unwrap(), "tag:google.com,2005:reader/item/00058b10ce338909");
    assert_eq!(item_id_parameter("-12817").unwrap(), "tag:google.com,2005:reader/item/ffffffffffffcdef");
    assert_eq!(item_id_parameter("0").unwrap(), "tag:google.com,2005:reader/item/0000000000000000");
    assert_eq!(item_id_parameter("feed/not-a-number"), None);
}

#[test]
fn item_id_parameter_bounds() {
    assert_eq!(item_id_parameter("-9223372036854775808").unwrap(), "tag:google.com,2005:reader/item/8000000000000000");
    assert_eq!(item_id_parameter("+7").unwrap(), "tag:google.com,2005:reader/item/0000000000000007");
    assert_eq!(item_id_parameter("9223372036854775808"), None);
    assert_eq!(item_id_parameter("-"), None);
    assert_eq!(item_id_parameter(""), None);
}

#[test]
fn unique_id_of_plain_and_signed_hex() {
    assert_eq!(unique_id_for_article("ff"), "255");
    assert_eq!(unique_id_for_article("a/+10"), "16");
    assert_eq!(unique_id_for_article("a/"), "");
    assert_eq!(unique_id_for_article("x/10000000000000000"), "10000000000000000");
}

#[test]
fn sync_retry_after_defaults_to_one_hour_when_unusable() {
    assert_eq!(sync_retry_after_secs(Some("120")), 120);
    assert_eq!(sync_retry_after_secs(None), SYNC_DEFAULT_RETRY_AFTER_SECS as u64);
    assert_eq!(sync_retry_after_secs(Some("-5")), SYNC_DEFAULT_RETRY_AFTER_SECS as u64);
    assert_eq!(sync_retry_after_secs(Some(" 90 ")), 90);
}

#[test]
fn usage_limits_parse_from_inoreader_headers() {
    let full = parse_usage_limits(Some("950"), Some("1000"), Some("3600")).expect("parses");
    assert_eq!(full, UsageReport { zone1_usage: 950, zone1_limit: 1000, reset_after_secs: 3600 });
    let defaulted = parse_usage_limits(Some("10"), Some("200"), None).expect("parses");
    assert_eq!(defaulted.reset_after_secs, DEFAULT_USAGE_LIMITS_RESET_AFTER_SECS);
    let clamped = parse_usage_limits(Some("10"), Some("200"), Some("-3")).expect("parses");
    assert_eq!(clamped.reset_after_secs, 0);
}

#[test]
fn usage_limits_require_both_headers_and_positive_limit() {
    assert!(parse_usage_limits(None, None, None).is_none());
    assert!(parse_usage_limits(None, Some("100"), None).is_none());
    assert!(parse_usage_limits(Some("1"), Some("0"), None).is_none());
    assert!(parse_usage_limits(Some("1"), Some("not-a-number"), None).is_none());
}

#[test]
fn conditional_get_round_trips_through_headers() {
    let extracted = conditional_get_from_response(Some("\"abc-123\""), Some("Mon, 24 Aug 2026 12:00:00 GMT"));
    assert_eq!(extracted.etag.as_deref(), Some("\"abc-123\""));
    assert_eq!(extracted.last_modified.as_deref(), Some("Mon, 24 Aug 2026 12:00:00 GMT"));
    let bare = conditional_get_from_response(None, Some("   "));
    assert!(bare.etag.is_none());
    assert!(bare.last_modified.is_none());
}

#[test]
fn status_error_keeps_rate_limits_apart() {
    assert_eq!(status_error(429, Some("30")), ReaderAPIFailure::RateLimited { retry_after_secs: 30 });
    assert_eq!(status_error(429, None), ReaderAPIFailure::RateLimited { retry_after_secs: 3600 });
    assert_eq!(status_error(500, Some("30")), ReaderAPIFailure::HttpStatus(500));
}

#[test]
fn hosts_and_paths() {
    assert_eq!(ReaderAPIVariant::Inoreader.host(), "https://www.inoreader.com");
    assert_eq!(ReaderAPIEndpoints::ItemIds.path(), "/reader/api/0/stream/items/ids");
    assert_eq!(ReaderAPIEndpoints::Login.path(), "/accounts/ClientLogin");
}
