use viaduct_core::models::{Feed, FeedSettings};
use viaduct_core::network::fetcher::{
    cap_max_age, feed_should_be_skipped_at, is_no_minimum_time_domain, is_openrss, is_special_case_host,
    maybe_expire_conditional_get_info_at, parse_cache_control_max_age, rate_limit_cooldown, rate_limit_remaining,
    settings_after_fetch, settings_after_parsed, url_host_matches_domain, FetchResult, HostCooldowns,
};

#[test]
fn url_host_matches_domain_handles_www_and_case() {
    let list = &["inessential.com", "openrss.org"];
    assert!(url_host_matches_domain("https://inessential.com/feed.xml", list));
    assert!(url_host_matches_domain("https://www.inessential.com/feed.xml", list));
    assert!(url_host_matches_domain("https://INESSENTIAL.COM/feed.xml", list));
    assert!(url_host_matches_domain("https://openrss.org/some/path", list));
}

#[test]
fn url_host_matches_domain_rejects_substring_attacks() {
    let list = &["rachelbythebay.com", "openrss.org"];
    assert!(!url_host_matches_domain("https://evilrachelbythebay.com/", list));
    assert!(!url_host_matches_domain("https://attacker.com/?u=rachelbythebay.com", list));
    assert!(!url_host_matches_domain("https://rachelbythebay.com.evil.com/", list));
}

#[test]
fn url_host_matches_domain_does_not_match_subdomains() {
    let list = &["inessential.com"];
    assert!(!url_host_matches_domain("https://blog.inessential.com/x", list));
}

#[test]
fn no_minimum_time_domains_match_real_world_urls() {
    assert!(is_no_minimum_time_domain("https://daringfireball.net/feeds/main"));
    assert!(is_no_minimum_time_domain("https://www.flyingmeat.com/blog/feed.xml"));
    assert!(is_no_minimum_time_domain("https://discourse.netnewswire.com/latest.rss"));
    assert!(!is_no_minimum_time_domain("https://example.com/daringfireball.net"));
}

fn feed(url: &str) -> Feed {
    Feed { id: url.to_string(), url: url.to_string(), name: None, edited_name: None, home_page_url: None }
}

fn settings() -> FeedSettings {
    FeedSettings {
        feed_id: "f".to_string(),
        feed_url: "https://example.com/feed".to_string(),
        home_page_url: None,
        icon_url: None,
        favicon_url: None,
        edited_name: None,
        content_hash: None,
        last_modified: None,
        etag: None,
        date_created: None,
        max_age: None,
        authors_json: None,
        folder_relationship_json: None,
        last_check_date: None,
        reader_view_always_enabled: false,
        new_article_notifications_enabled: false,
        last_response_code: None,
    }
}

const MINUTE: i64 = 60_000;

#[test]
fn skip_rules_follow_host_max_age_and_timing() {
    let now = 1_000_000_000_000;
    let cutoff = now - 25 * 60 * MINUTE;
    assert!(feed_should_be_skipped_at(&feed("https://x.com/feed"), &settings(), cutoff, now));
    assert!(feed_should_be_skipped_at(&feed("https://www.twitter.com/feed"), &settings(), cutoff, now));
    assert!(!feed_should_be_skipped_at(&feed("https://example.com/feed"), &settings(), cutoff, now));

    let mut s = settings();
    s.last_check_date = Some(now - 28 * MINUTE - 59_999);
    assert!(feed_should_be_skipped_at(&feed("https://example.com/feed"), &s, cutoff, now));
    s.last_check_date = Some(now - 29 * MINUTE);
    assert!(!feed_should_be_skipped_at(&feed("https://example.com/feed"), &s, cutoff, now));
    s.max_age = Some(3600);
    assert!(feed_should_be_skipped_at(&feed("https://example.com/feed"), &s, cutoff, now));
    s.max_age = None;
    s.last_check_date = Some(now - MINUTE);
    assert!(!feed_should_be_skipped_at(&feed("https://daringfireball.net/feeds/main"), &s, cutoff, now));
    assert!(feed_should_be_skipped_at(&feed("https://rachelbythebay.com/w/atom.xml"), &s, cutoff, now));
    s.last_check_date = Some(cutoff - 1);
    assert!(!feed_should_be_skipped_at(&feed("https://rachelbythebay.com/w/atom.xml"), &s, cutoff, now));
}

#[test]
fn conditional_get_info_expires_after_eight_days_except_special_hosts() {
    let now = 2_000_000_000_000;
    let day = 24 * 60 * MINUTE;
    let mut s = settings();
    s.etag = Some("\"e\"".to_string());
    s.last_modified = Some("Mon".to_string());
    s.date_created = Some(now - 8 * day);
    let (e, l) = maybe_expire_conditional_get_info_at(&feed("https://example.com/f"), &s, now);
    assert_eq!(e.as_deref(), Some("\"e\""));
    assert_eq!(l.as_deref(), Some("Mon"));
    s.date_created = Some(now - 8 * day - 1);
    assert_eq!(maybe_expire_conditional_get_info_at(&feed("https://example.com/f"), &s, now), (None, None));
    let (e, _) = maybe_expire_conditional_get_info_at(&feed("https://openrss.org/f"), &s, now);
    assert_eq!(e.as_deref(), Some("\"e\""));
}

#[test]
fn cache_control_max_age_takes_the_last_valid_directive() {
    assert_eq!(parse_cache_control_max_age("public, max-age=300"), Some(300));
    assert_eq!(parse_cache_control_max_age("max-age=10, max-age=20"), Some(20));
    assert_eq!(parse_cache_control_max_age("max-age=10, max-age=x"), Some(10));
    assert_eq!(parse_cache_control_max_age("no-cache"), None);
    assert_eq!(parse_cache_control_max_age(" max-age=-5 "), Some(-5));
    assert_eq!(parse_cache_control_max_age("MAX-AGE=5"), None);
}

#[test]
fn max_age_is_capped_at_five_hours_except_openrss() {
    assert_eq!(cap_max_age("https://example.com/f", 100_000), 18_000);
    assert_eq!(cap_max_age("https://example.com/f", 600), 600);
    assert_eq!(cap_max_age("https://openrss.org/f", 100_000), 100_000);
    assert!(is_openrss("https://www.openrss.org/x"));
    assert!(is_special_case_host("https://rachelbythebay.com/"));
}

fn result(status: u16, body: &[u8]) -> FetchResult {
    FetchResult {
        status,
        body: body.to_vec(),
        etag: Some("\"v2\"".to_string()),
        last_modified: None,
        cache_control_max_age: Some(99_999),
    }
}

#[test]
fn response_updates_settings_and_decides_parsing() {
    let now = 5_000;
    let url = "https://example.com/feed";
    let (s, parse) = settings_after_fetch(url, &settings(), &result(304, b""), now, false);
    assert!(!parse);
    assert_eq!(s.last_check_date, Some(now));
    assert!(s.etag.is_none());

    let (s, parse) = settings_after_fetch(url, &settings(), &result(500, b"x"), now, false);
    assert!(!parse);
    assert!(s.etag.is_none());

    let (kept, parse) = settings_after_fetch(url, &settings(), &result(200, b"Hello"), now, false);
    assert!(parse);
    assert_eq!(kept.etag, None);
    assert_eq!(kept.content_hash, None);
    assert_eq!(kept.last_response_code, Some(200));
    let s = settings_after_parsed(url, &settings(), &result(200, b"Hello"), now);
    assert_eq!(s.etag.as_deref(), Some("\"v2\""));
    assert_eq!(s.date_created, Some(now));
    assert_eq!(s.max_age, Some(18_000));
    assert_eq!(s.content_hash.as_deref(), Some("8b1a9953c4611296a827abf8c47804d7"));

    let (again, parse) = settings_after_fetch(url, &s, &result(200, b"Hello"), now + 1, false);
    assert!(!parse);
    assert_eq!(again.last_check_date, Some(now + 1));
    let (_, parse) = settings_after_fetch(url, &s, &result(200, b"Hello"), now + 1, true);
    assert!(parse);
}

#[test]
fn rate_limit_cooldown_and_remaining_time() {
    assert_eq!(rate_limit_cooldown(429, Some("120"), 1_000), Some(121_000));
    assert_eq!(rate_limit_cooldown(429, Some("soon"), 1_000), None);
    assert_eq!(rate_limit_cooldown(503, Some("120"), 1_000), None);
    assert_eq!(rate_limit_remaining(Some(121_000), 1_000), Some(120));
    assert_eq!(rate_limit_remaining(Some(1_500), 1_000), Some(0));
    assert_eq!(rate_limit_remaining(Some(1_000), 1_000), None);
    assert_eq!(rate_limit_remaining(None, 1_000), None);
}

#[test]
fn failed_parse_does_not_store_conditional_get() {
    // A 200 body that is to be parsed: the settings kept if the parse fails
    // record the status and check time but not the ETag or the hash.
    let url = "https://example.com/bad";
    let now = 7_000;
    let body = b"<html><head><title>Not a feed</title></head><body>challenge page</body></html>";
    let (kept, parse) = settings_after_fetch(url, &settings(), &result(200, body), now, false);
    assert!(parse);
    assert_eq!(kept.last_response_code, Some(200));
    assert_eq!(kept.etag, None, "ETag stored despite failed parse");
    assert_eq!(kept.content_hash, None, "content hash stored despite failed parse");
    assert!(kept.last_check_date.is_some());
    // A body that parses records them.
    let stored = settings_after_parsed(url, &settings(), &result(200, b"<rss/>"), now);
    assert_eq!(stored.etag.as_deref(), Some("\"v2\""));
    assert!(stored.content_hash.is_some());
    assert!(stored.date_created.is_some());
}

#[test]
fn a_rate_limited_host_is_refused_until_its_cooldown_ends() {
    let mut c = HostCooldowns::new();
    let t0: i64 = 1_700_000_000_000;
    assert_eq!(c.remaining("example.com", t0), None);
    c.note_response("example.com", 200, Some("120"), t0);
    assert_eq!(c.remaining("example.com", t0), None);
    c.note_response("example.com", 429, Some("120"), t0);
    assert_eq!(c.remaining("example.com", t0 + 500), Some(119));
    assert_eq!(c.remaining("other.org", t0 + 500), None);
    assert_eq!(c.remaining("example.com", t0 + 120_000), None);
    c.note_response("example.com", 429, Some("soon"), t0);
    assert_eq!(c.remaining("example.com", t0), Some(120));
    c.note_response("example.com", 429, Some("10"), t0);
    assert_eq!(c.remaining("example.com", t0), Some(10));
    c.note_response("example.com", 429, Some("9223372036854775807"), t0);
    assert_eq!(c.remaining("example.com", t0), Some(10));
}
