//! Refresh decisions: which feeds a refresh skips, which conditional-GET
//! headers it sends, how a response updates a feed's settings, and the
//! host matching and header parsing behind them. Times are milliseconds
//! since the Unix epoch (UTC).
use vstd::prelude::*;
use crate::chars::{chars_of, split_at_char, lowercase_text, push_range, string_from_chars, to_lowercase, trim_text, trimmed};
use crate::hashing::{md5_hex, md5_hex_of};
use crate::models::{opt_clone, opt_view, Feed, FeedSettings, FeedSettingsView};
use crate::network::discovery::{ascii_lower, ascii_lowercase, starts_with};
use crate::numbers::{parse_i64, parse_i64_exec};

verus! {

/// `max-age` values are capped at five hours, except on openrss.org.
pub const CACHE_CONTROL_MAX_MAX_AGE_SECS: i64 = 5 * 60 * 60;

/// Conditional-GET headers older than this many days are dropped.
pub const CONDITIONAL_GET_EXPIRY_DAYS: i64 = 8;

/// Feeds refreshed at once within one refresh cycle.
pub const REFRESH_PARALLELISM: usize = 8;

/// A feed is checked at most once per this many minutes, unless its host
/// has no minimum.
pub const MINIMUM_MINUTES_BETWEEN_CHECKS: i64 = 29;

pub const MILLIS_PER_SECOND: i64 = 1000;

pub const MILLIS_PER_MINUTE: i64 = 60 * 1000;

pub const MILLIS_PER_DAY: i64 = 24 * 60 * 60 * 1000;

/// What one download gave.
#[derive(Clone, Debug)]
pub struct FetchResult {
    pub status: u16,
    pub body: Vec<u8>,
    pub etag: Option<String>,
    pub last_modified: Option<String>,
    pub cache_control_max_age: Option<i64>,
}

/// The host of `url` as the URL parser reads it (`url::Url::parse`, then
/// `host_str`), if it parses and has one.
pub uninterp spec fn url_host_name(url: Seq<char>) -> Option<Seq<char>>;

/// Trusted: parses `url` with `url::Url::parse` and returns `host_str()`;
/// named `url_host_name` of the text, which the URL parser decides from the
/// text alone.
#[verifier::external_body]
fn url_host(url: &str) -> (r: Option<String>)
    ensures
        opt_view(r) == url_host_name(url@),
{
    match url::Url::parse(url) {
        Ok(parsed) => parsed.host_str().map(|h| h.to_string()),
        Err(_) => None,
    }
}

/// The current time.
///
/// Trusted: `chrono::Utc::now().timestamp_millis()`; nothing is claimed of
/// the value, which is the machine's clock.
#[verifier::external_body]
pub fn now_millis() -> (t: i64) {
    chrono::Utc::now().timestamp_millis()
}

pub open spec fn www_prefix() -> Seq<char> {
    seq!['w', 'w', 'w', '.']
}

/// A host in ASCII lowercase without one leading `www.`.
pub open spec fn normalized_host(host: Seq<char>) -> Seq<char> {
    let lower = ascii_lower(host);
    if starts_with(lower, www_prefix()) {
        lower.skip(4)
    } else {
        lower
    }
}

pub open spec fn strs_view(v: Seq<&str>) -> Seq<Seq<char>> {
    v.map_values(|s: &str| s@)
}

/// The URL's host equals one of `domains` exactly, ignoring ASCII case
/// and one leading `www.`; `false` when the URL has no host.
pub open spec fn host_matches(url: Seq<char>, domains: Seq<Seq<char>>) -> bool {
    match url_host_name(url) {
        Some(h) => domains.contains(normalized_host(h)),
        None => false,
    }
}

/// Whether the host of `url` is one of `domains` (given in lowercase and
/// without `www.`), ignoring ASCII case and one leading `www.` of the
/// host. Suffixes and substrings do not match.
pub fn url_host_matches_domain(url: &str, domains: &[&str]) -> (b: bool)
    ensures
        b == host_matches(url@, strs_view(domains@)),
{
    let host = match url_host(url) {
        Some(h) => h,
        None => return false,
    };
    let lower = ascii_lowercase(host.as_str());
    let www: [char; 4] = ['w', 'w', 'w', '.'];
    assert(www@ == www_prefix());
    let normalized: Vec<char> = if lower.len() >= 4 && crate::chars::range_eq(lower.as_slice(), 0, 4, &www) {
        assert(lower@.subrange(0, 4) =~= lower@.take(4));
        let mut rest: Vec<char> = Vec::new();
        push_range(&mut rest, lower.as_slice(), 4, lower.len());
        assert(rest@ =~= lower@.skip(4));
        rest
    } else {
        assert(lower@.len() >= 4 ==> lower@.subrange(0, 4) =~= lower@.take(4));
        lower
    };
    assert(normalized@ == normalized_host(host@));
    let mut i: usize = 0;
    while i < domains.len()
        invariant
            i <= domains@.len(),
            url_host_name(url@) == Some(host@),
            normalized@ == normalized_host(host@),
            forall|k: int| 0 <= k < i ==> domains@[k]@ != normalized@,
        decreases domains@.len() - i,
    {
        let d = chars_of(domains[i]);
        if d.len() == normalized.len() && crate::chars::range_eq(normalized.as_slice(), 0, normalized.len(), d.as_slice()) {
            assert(normalized@.subrange(0, normalized@.len() as int) =~= normalized@);
            assert(strs_view(domains@)[i as int] == normalized@);
            return true;
        }
        assert(normalized@.subrange(0, normalized@.len() as int) =~= normalized@);
        i += 1;
    }
    assert forall|k: int| 0 <= k < strs_view(domains@).len() implies strs_view(domains@)[k] != normalized@ by {
        assert(strs_view(domains@)[k] == domains@[k]@);
    }
    false
}

/// Hosts with a 25-hour minimum between checks instead of 29 minutes, and
/// exempt from the conditional-GET expiry.
pub open spec fn special_case_domain_list() -> Seq<Seq<char>> {
    seq!["rachelbythebay.com"@, "openrss.org"@]
}

/// Hosts checked on every refresh, whatever the time since the last check.
pub open spec fn no_minimum_time_domain_list() -> Seq<Seq<char>> {
    seq![
        "inessential.com"@,
        "ranchero.com"@,
        "netnewswire.blog"@,
        "daringfireball.net"@,
        "redsweater.com"@,
        "indiestack.com"@,
        "blog.plunkitup.com"@,
        "bitsplitting.org"@,
        "allenpike.com"@,
        "hypercritical.co"@,
        "micro.inessential.com"@,
        "discourse.netnewswire.com"@,
        "onefoottsunami.com"@,
        "manton.org"@,
        "randsinrepose.com"@,
        "micro.blog"@,
        "shapeof.com"@,
        "flyingmeat.com"@,
    ]
}

pub fn special_case_domains() -> (v: Vec<&'static str>)
    ensures
        strs_view(v@) == special_case_domain_list(),
{
    let v: Vec<&'static str> = vec!["rachelbythebay.com", "openrss.org"];
    assert(strs_view(v@) =~= special_case_domain_list());
    v
}

pub fn no_minimum_time_domains() -> (v: Vec<&'static str>)
    ensures
        strs_view(v@) == no_minimum_time_domain_list(),
{
    let v: Vec<&'static str> = vec![
        "inessential.com",
        "ranchero.com",
        "netnewswire.blog",
        "daringfireball.net",
        "redsweater.com",
        "indiestack.com",
        "blog.plunkitup.com",
        "bitsplitting.org",
        "allenpike.com",
        "hypercritical.co",
        "micro.inessential.com",
        "discourse.netnewswire.com",
        "onefoottsunami.com",
        "manton.org",
        "randsinrepose.com",
        "micro.blog",
        "shapeof.com",
        "flyingmeat.com",
    ];
    assert(strs_view(v@) =~= no_minimum_time_domain_list());
    v
}

pub fn is_special_case_host(url: &str) -> (b: bool)
    ensures
        b == host_matches(url@, special_case_domain_list()),
{
    let d = special_case_domains();
    url_host_matches_domain(url, d.as_slice())
}

pub fn is_openrss(url: &str) -> (b: bool)
    ensures
        b == host_matches(url@, seq!["openrss.org"@]),
{
    let d: Vec<&'static str> = vec!["openrss.org"];
    assert(strs_view(d@) =~= seq!["openrss.org"@]);
    url_host_matches_domain(url, d.as_slice())
}

pub fn is_no_minimum_time_domain(url: &str) -> (b: bool)
    ensures
        b == host_matches(url@, no_minimum_time_domain_list()),
{
    let d = no_minimum_time_domains();
    url_host_matches_domain(url, d.as_slice())
}

/// Hosts that are never refreshed.
pub open spec fn disallowed_host_list() -> Seq<Seq<char>> {
    seq!["twitter.com"@, "www.twitter.com"@, "x.com"@, "www.x.com"@]
}

/// The URL's host, lowercased, is twitter.com or x.com, with or without
/// `www.`.
pub open spec fn disallowed_host(url: Seq<char>) -> bool {
    match url_host_name(url) {
        Some(h) => disallowed_host_list().contains(lowercase_text(h)),
        None => false,
    }
}

pub fn is_disallowed_host(url: &str) -> (b: bool)
    ensures
        b == disallowed_host(url@),
{
    match url_host(url) {
        None => false,
        Some(h) => {
            let lower = to_lowercase(h.as_str());
            let l = lower.as_str();
            let r = crate::chars::text_eq(l, "twitter.com") || crate::chars::text_eq(l, "www.twitter.com")
                || crate::chars::text_eq(l, "x.com") || crate::chars::text_eq(l, "www.x.com");
            proof {
                let list = disallowed_host_list();
                if list.contains(lower@) {
                    let k = choose|k: int| 0 <= k < list.len() && list[k] == lower@;
                    assert(k == 0 || k == 1 || k == 2 || k == 3);
                } else {
                    assert(list[0] == "twitter.com"@);
                    assert(list[1] == "www.twitter.com"@);
                    assert(list[2] == "x.com"@);
                    assert(list[3] == "www.x.com"@);
                }
            }
            r
        },
    }
}

/// Whole seconds in a span of `ms` milliseconds, rounded toward zero.
pub open spec fn whole_seconds(ms: int) -> int {
    if ms >= 0 {
        ms / 1000
    } else {
        -((-ms) / 1000)
    }
}

/// Whole minutes in a span of `ms` milliseconds, rounded toward zero.
pub open spec fn whole_minutes(ms: int) -> int {
    if ms >= 0 {
        ms / 60000
    } else {
        -((-ms) / 60000)
    }
}

/// Whether a refresh at `now` skips the feed at `url`: its host is
/// disallowed; or it was checked less than its `max-age` ago; or, when it
/// was checked before and its host has a minimum time, it was checked
/// after the special-case cutoff (special-case hosts) or less than 29
/// whole minutes ago (others).
pub open spec fn should_skip(url: Seq<char>, s: FeedSettingsView, cutoff: i64, now: i64) -> bool {
    if disallowed_host(url) {
        true
    } else if s.last_check_date is Some && s.max_age is Some && whole_seconds(
        now - s.last_check_date->0,
    ) < s.max_age->0 {
        true
    } else {
        match s.last_check_date {
            Some(last) => if host_matches(url, no_minimum_time_domain_list()) {
                false
            } else if host_matches(url, special_case_domain_list()) {
                last > cutoff
            } else {
                whole_minutes(now - last) < MINIMUM_MINUTES_BETWEEN_CHECKS
            },
            None => false,
        }
    }
}

fn whole_seconds_exec(ms: i128) -> (r: i128)
    requires
        -0x1_0000_0000_0000_0000 <= ms <= 0x1_0000_0000_0000_0000,
    ensures
        r == whole_seconds(ms as int),
{
    if ms >= 0 {
        ms / 1000
    } else {
        -((-ms) / 1000)
    }
}

fn whole_minutes_exec(ms: i128) -> (r: i128)
    requires
        -0x1_0000_0000_0000_0000 <= ms <= 0x1_0000_0000_0000_0000,
    ensures
        r == whole_minutes(ms as int),
{
    if ms >= 0 {
        ms / 60000
    } else {
        -((-ms) / 60000)
    }
}

/// `should_skip` with the current time given.
pub fn feed_should_be_skipped_at(feed: &Feed, settings: &FeedSettings, special_case_cutoff: i64, now: i64) -> (b: bool)
    ensures
        b == should_skip(feed.url@, settings@, special_case_cutoff, now),
{
    if is_disallowed_host(feed.url.as_str()) {
        return true;
    }
    match (settings.last_check_date, settings.max_age) {
        (Some(last_check), Some(max_age)) => {
            let elapsed = whole_seconds_exec(now as i128 - last_check as i128);
            if elapsed < max_age as i128 {
                return true;
            }
        },
        _ => {},
    }
    match settings.last_check_date {
        Some(last_check) => {
            if is_no_minimum_time_domain(feed.url.as_str()) {
                return false;
            }
            if is_special_case_host(feed.url.as_str()) {
                last_check > special_case_cutoff
            } else {
                whole_minutes_exec(now as i128 - last_check as i128) < MINIMUM_MINUTES_BETWEEN_CHECKS as i128
            }
        },
        None => false,
    }
}

/// Whether a refresh now skips the feed (`should_skip` at the clock's
/// current time).
pub fn feed_should_be_skipped(feed: &Feed, settings: &FeedSettings, special_case_cutoff: i64) -> (b: bool)
    ensures
        exists|now: i64| b == should_skip(feed.url@, settings@, special_case_cutoff, now),
{
    let now = now_millis();
    feed_should_be_skipped_at(feed, settings, special_case_cutoff, now)
}

/// The conditional-GET headers a refresh at `now` sends: kept for
/// special-case hosts; dropped when they were stored more than eight days
/// before `now`; kept otherwise.
pub open spec fn conditional_headers(url: Seq<char>, s: FeedSettingsView, now: i64) -> (
    Option<Seq<char>>,
    Option<Seq<char>>,
) {
    if host_matches(url, special_case_domain_list()) {
        (s.etag, s.last_modified)
    } else if s.date_created is Some && now - s.date_created->0 > CONDITIONAL_GET_EXPIRY_DAYS * MILLIS_PER_DAY {
        (None, None)
    } else {
        (s.etag, s.last_modified)
    }
}

/// `conditional_headers` with the current time given.
pub fn maybe_expire_conditional_get_info_at(feed: &Feed, settings: &FeedSettings, now: i64) -> (r: (
    Option<String>,
    Option<String>,
))
    ensures
        (opt_view(r.0), opt_view(r.1)) == conditional_headers(feed.url@, settings@, now),
{
    if is_special_case_host(feed.url.as_str()) {
        return (opt_clone(&settings.etag), opt_clone(&settings.last_modified));
    }
    match settings.date_created {
        Some(created) => {
            if now as i128 - created as i128 > (CONDITIONAL_GET_EXPIRY_DAYS * MILLIS_PER_DAY) as i128 {
                return (None, None);
            }
        },
        None => {},
    }
    (opt_clone(&settings.etag), opt_clone(&settings.last_modified))
}

/// The conditional-GET headers a refresh now sends (`conditional_headers`
/// at the clock's current time).
pub fn maybe_expire_conditional_get_info(feed: &Feed, settings: &FeedSettings) -> (r: (
    Option<String>,
    Option<String>,
))
    ensures
        exists|now: i64| (opt_view(r.0), opt_view(r.1)) == conditional_headers(feed.url@, settings@, now),
{
    let now = now_millis();
    maybe_expire_conditional_get_info_at(feed, settings, now)
}

/// The stored `max-age`: capped at five hours except on openrss.org.
pub open spec fn capped_max_age(url: Seq<char>, max_age: i64) -> i64 {
    if host_matches(url, seq!["openrss.org"@]) || max_age <= CACHE_CONTROL_MAX_MAX_AGE_SECS {
        max_age
    } else {
        CACHE_CONTROL_MAX_MAX_AGE_SECS
    }
}

pub fn cap_max_age(url: &str, max_age: i64) -> (r: i64)
    ensures
        r == capped_max_age(url@, max_age),
{
    if is_openrss(url) {
        max_age
    } else if max_age <= CACHE_CONTROL_MAX_MAX_AGE_SECS {
        max_age
    } else {
        CACHE_CONTROL_MAX_MAX_AGE_SECS
    }
}

pub open spec fn max_age_prefix() -> Seq<char> {
    seq!['m', 'a', 'x', '-', 'a', 'g', 'e', '=']
}

/// The `max-age` one directive gives: trimmed, it is `max-age=` followed
/// by what `str::parse::<i64>` accepts.
pub open spec fn directive_max_age(part: Seq<char>) -> Option<i64> {
    let t = trimmed(part);
    if starts_with(t, max_age_prefix()) {
        parse_i64(t.skip(8))
    } else {
        None
    }
}

/// The last `max-age` among the directives.
pub open spec fn last_max_age(parts: Seq<Seq<char>>) -> Option<i64>
    decreases parts.len(),
{
    if parts.len() == 0 {
        None
    } else if directive_max_age(parts.last()) is Some {
        directive_max_age(parts.last())
    } else {
        last_max_age(parts.drop_last())
    }
}

/// The `max-age` of a `Cache-Control` header value: the last directive
/// `max-age=N` (surrounding whitespace allowed) whose `N` is an `i64`.
pub open spec fn cache_control_max_age(value: Seq<char>) -> Option<i64> {
    last_max_age(split_at_char(value, ','))
}

fn directive_max_age_exec(part: &Vec<char>) -> (r: Option<i64>)
    ensures
        r == directive_max_age(part@),
{
    let text = string_from_chars(part.as_slice());
    let t = trim_text(text.as_str());
    let tv = chars_of(t.as_str());
    let prefix: [char; 8] = ['m', 'a', 'x', '-', 'a', 'g', 'e', '='];
    assert(prefix@ == max_age_prefix());
    if tv.len() < 8 || !crate::chars::range_eq(tv.as_slice(), 0, 8, &prefix) {
        assert(tv@.len() >= 8 ==> tv@.subrange(0, 8) =~= tv@.take(8));
        return None;
    }
    assert(tv@.subrange(0, 8) =~= tv@.take(8));
    let mut rest: Vec<char> = Vec::new();
    push_range(&mut rest, tv.as_slice(), 8, tv.len());
    assert(rest@ =~= tv@.skip(8));
    let rest_text = string_from_chars(rest.as_slice());
    parse_i64_exec(rest_text.as_str())
}

/// The `max-age` of a `Cache-Control` header value
/// (`cache_control_max_age`).
pub fn parse_cache_control_max_age(value: &str) -> (r: Option<i64>)
    ensures
        r == cache_control_max_age(value@),
{
    let v = chars_of(value);
    let mut best: Option<i64> = None;
    let mut current: Vec<char> = Vec::new();
    let mut i: usize = 0;
    proof {
        assert(v@.take(0) =~= Seq::<char>::empty());
        assert(split_at_char(v@.take(0), ',') == seq![Seq::<char>::empty()]);
        assert(split_at_char(v@.take(0), ',').drop_last() =~= Seq::<Seq<char>>::empty());
    }
    while i < v.len()
        invariant
            i <= v@.len(),
            split_at_char(v@.take(i as int), ',').len() >= 1,
            current@ == split_at_char(v@.take(i as int), ',').last(),
            best == last_max_age(split_at_char(v@.take(i as int), ',').drop_last()),
        decreases v@.len() - i,
    {
        let ghost parts = split_at_char(v@.take(i as int), ',');
        assert(v@.take(i + 1).drop_last() =~= v@.take(i as int));
        assert(v@.take(i + 1).last() == v@[i as int]);
        if v[i] == ',' {
            let d = directive_max_age_exec(&current);
            if d.is_some() {
                best = d;
            }
            proof {
                let np = parts.push(seq![]);
                assert(np.drop_last() =~= parts);
                assert(parts.last() == current@);
            }
            current = Vec::new();
        } else {
            current.push(v[i]);
            proof {
                let np = parts.update(parts.len() - 1, parts.last().push(v@[i as int]));
                assert(np.drop_last() =~= parts.drop_last());
            }
        }
        i += 1;
    }
    assert(v@.take(v@.len() as int) =~= v@);
    let d = directive_max_age_exec(&current);
    if d.is_some() {
        d
    } else {
        best
    }
}

/// The settings as checked at `now`, with the response's status recorded.
pub open spec fn checked_settings(s: FeedSettingsView, status: u16, now: i64) -> FeedSettingsView {
    FeedSettingsView { last_check_date: Some(now), last_response_code: Some(status as i64), ..s }
}

/// The settings with a 200 response's headers stored: new `ETag` and
/// `Last-Modified` values replace the stored ones (and, when either came,
/// their date becomes `now`), and a `max-age` is stored capped.
pub open spec fn header_settings(
    url: Seq<char>,
    s: FeedSettingsView,
    etag: Option<Seq<char>>,
    last_modified: Option<Seq<char>>,
    max_age: Option<i64>,
    now: i64,
) -> FeedSettingsView {
    let got = etag is Some || last_modified is Some;
    FeedSettingsView {
        etag: if etag is Some { etag } else { s.etag },
        last_modified: if last_modified is Some { last_modified } else { s.last_modified },
        date_created: if got { Some(now) } else { s.date_created },
        max_age: match max_age {
            Some(m) => Some(capped_max_age(url, m)),
            None => s.max_age,
        },
        ..s
    }
}

/// The settings a response leaves behind before any parse, and whether its
/// body is to be parsed. The check time becomes `now` and the status is
/// recorded in every case; a 304 or any status but 200 changes nothing
/// else. A 200 body whose MD5 equals the stored content hash is not
/// parsed unless the refresh is forced; its headers are stored, as the
/// body was read before. Any other 200 body is to be parsed, and the
/// settings returned for it, which are the ones kept when the parse fails,
/// hold none of its conditional-GET data: the old `ETag` is what makes the
/// server send the body again.
pub open spec fn settings_after(
    url: Seq<char>,
    s: FeedSettingsView,
    status: u16,
    body: Seq<u8>,
    etag: Option<Seq<char>>,
    last_modified: Option<Seq<char>>,
    max_age: Option<i64>,
    now: i64,
    force: bool,
) -> (FeedSettingsView, bool) {
    let checked = checked_settings(s, status, now);
    if status != 200 {
        (checked, false)
    } else if !force && s.content_hash == Some(md5_hex(body)) {
        (header_settings(url, checked, etag, last_modified, max_age, now), false)
    } else {
        (checked, true)
    }
}

/// The settings after a 200 body parsed: its headers and its MD5 as the
/// content hash are stored.
pub open spec fn settings_after_parse(
    url: Seq<char>,
    s: FeedSettingsView,
    body: Seq<u8>,
    etag: Option<Seq<char>>,
    last_modified: Option<Seq<char>>,
    max_age: Option<i64>,
    now: i64,
) -> FeedSettingsView {
    FeedSettingsView {
        content_hash: Some(md5_hex(body)),
        ..header_settings(url, checked_settings(s, 200, now), etag, last_modified, max_age, now)
    }
}

fn store_headers(s: &mut FeedSettings, feed_url: &str, result: &FetchResult, now: i64)
    ensures
        final(s)@ == header_settings(
            feed_url@,
            old(s)@,
            opt_view(result.etag),
            opt_view(result.last_modified),
            result.cache_control_max_age,
            now,
        ),
{
    let mut got = false;
    if result.etag.is_some() {
        s.etag = opt_clone(&result.etag);
        got = true;
    }
    if result.last_modified.is_some() {
        s.last_modified = opt_clone(&result.last_modified);
        got = true;
    }
    if got {
        s.date_created = Some(now);
    }
    match result.cache_control_max_age {
        Some(m) => s.max_age = Some(cap_max_age(feed_url, m)),
        None => {},
    }
}

/// `settings_after` for a download of the feed at `feed_url`.
pub fn settings_after_fetch(feed_url: &str, settings: &FeedSettings, result: &FetchResult, now: i64, force: bool) -> (r: (
    FeedSettings,
    bool,
))
    ensures
        (r.0@, r.1) == settings_after(
            feed_url@,
            settings@,
            result.status,
            result.body@,
            opt_view(result.etag),
            opt_view(result.last_modified),
            result.cache_control_max_age,
            now,
            force,
        ),
{
    let mut s = settings.duplicate();
    s.last_check_date = Some(now);
    s.last_response_code = Some(result.status as i64);
    if result.status != 200 {
        return (s, false);
    }
    let hash = md5_hex_of(result.body.as_slice());
    let same = match &settings.content_hash {
        Some(h) => crate::chars::text_eq(h.as_str(), hash.as_str()),
        None => false,
    };
    if !force && same {
        store_headers(&mut s, feed_url, result, now);
        return (s, false);
    }
    (s, true)
}

/// `settings_after_parse` for a 200 download of the feed at `feed_url`
/// whose body parsed.
pub fn settings_after_parsed(feed_url: &str, settings: &FeedSettings, result: &FetchResult, now: i64) -> (r:
    FeedSettings)
    ensures
        r@ == settings_after_parse(
            feed_url@,
            settings@,
            result.body@,
            opt_view(result.etag),
            opt_view(result.last_modified),
            result.cache_control_max_age,
            now,
        ),
{
    let mut s = settings.duplicate();
    s.last_check_date = Some(now);
    s.last_response_code = Some(200);
    store_headers(&mut s, feed_url, result, now);
    s.content_hash = Some(md5_hex_of(result.body.as_slice()));
    s
}

/// Seconds left before a host's rate-limit cooldown ends, if it has not
/// ended at `now` (whole seconds, at least zero).
pub open spec fn cooldown_left(until: Option<i64>, now: i64) -> Option<u64> {
    match until {
        Some(u) => if now < u {
            Some(whole_seconds(u - now) as u64)
        } else {
            None
        },
        None => None,
    }
}

pub fn rate_limit_remaining(until: Option<i64>, now: i64) -> (r: Option<u64>)
    ensures
        r == cooldown_left(until, now),
{
    match until {
        Some(u) => {
            if now < u {
                let left = whole_seconds_exec(u as i128 - now as i128);
                Some(left as u64)
            } else {
                None
            }
        },
        None => None,
    }
}

/// When a host's cooldown ends after a response: a 429 whose
/// `Retry-After` is a whole number of seconds starts one that many seconds
/// after `now`; any other response starts none.
pub open spec fn cooldown_after(status: u16, retry_after: Option<Seq<char>>, now: i64) -> Option<int> {
    if status == 429 {
        match retry_after {
            Some(t) => match parse_i64(t) {
                Some(secs) => Some(now + secs * 1000),
                None => None,
            },
            None => None,
        }
    } else {
        None
    }
}

pub fn rate_limit_cooldown(status: u16, retry_after: Option<&str>, now: i64) -> (r: Option<i64>)
    requires
        cooldown_after(status, match retry_after {
            Some(t) => Some(t@),
            None => None,
        }, now) matches Some(u) ==> i64::MIN <= u <= i64::MAX,
    ensures
        match r {
            Some(u) => cooldown_after(status, match retry_after {
                Some(t) => Some(t@),
                None => None,
            }, now) == Some(u as int),
            None => cooldown_after(status, match retry_after {
                Some(t) => Some(t@),
                None => None,
            }, now) is None,
        },
{
    if status != 429 {
        return None;
    }
    match retry_after {
        Some(t) => match parse_i64_exec(t) {
            Some(secs) => {
                let until = now as i128 + secs as i128 * 1000;
                Some(until as i64)
            },
            None => None,
        },
        None => None,
    }
}

/// The cooldown a response starts, where its end fits the millisecond
/// clock (a `Retry-After` too large for it starts none).
pub open spec fn cooldown_start(status: u16, retry_after: Option<Seq<char>>, now: i64) -> Option<i64> {
    match cooldown_after(status, retry_after, now) {
        Some(u) => if i64::MIN <= u <= i64::MAX {
            Some(u as i64)
        } else {
            None
        },
        None => None,
    }
}

/// The position of the first entry for `host` at or after `i`, or -1.
pub open spec fn cooldown_index(e: Seq<(Seq<char>, i64)>, host: Seq<char>, i: int) -> int
    decreases e.len() - i,
{
    if i < 0 || i >= e.len() {
        -1
    } else if e[i].0 == host {
        i
    } else {
        cooldown_index(e, host, i + 1)
    }
}

/// When `host`'s cooldown ends, if one was started.
pub open spec fn cooldown_until(e: Seq<(Seq<char>, i64)>, host: Seq<char>) -> Option<i64> {
    let i = cooldown_index(e, host, 0);
    if i >= 0 {
        Some(e[i].1)
    } else {
        None
    }
}

/// The table after a response from `host`: a cooldown the response starts
/// replaces the host's entry (or is added); any other response leaves the
/// table as it is.
pub open spec fn cooldown_noted(
    e: Seq<(Seq<char>, i64)>,
    host: Seq<char>,
    status: u16,
    retry_after: Option<Seq<char>>,
    now: i64,
) -> Seq<(Seq<char>, i64)> {
    match cooldown_start(status, retry_after, now) {
        Some(u) => {
            let i = cooldown_index(e, host, 0);
            if i >= 0 {
                e.update(i, (host, u))
            } else {
                e.push((host, u))
            }
        },
        None => e,
    }
}

proof fn lemma_cooldown_index(e: Seq<(Seq<char>, i64)>, host: Seq<char>, i: int)
    requires
        0 <= i <= e.len(),
    ensures
        cooldown_index(e, host, i) == -1 || (i <= cooldown_index(e, host, i) < e.len()
            && e[cooldown_index(e, host, i)].0 == host),
        forall|j: int| i <= j < e.len() && (cooldown_index(e, host, i) == -1 || j < cooldown_index(e, host, i)) ==> #[trigger] e[j].0 != host,
    decreases e.len() - i,
{
    if i < e.len() && e[i].0 != host {
        lemma_cooldown_index(e, host, i + 1);
    }
}

/// Per host, when its rate-limit cooldown ends (milliseconds since the
/// epoch).
pub struct HostCooldowns {
    entries: Vec<(String, i64)>,
}

impl View for HostCooldowns {
    type V = Seq<(Seq<char>, i64)>;

    closed spec fn view(&self) -> Seq<(Seq<char>, i64)> {
        self.entries@.map_values(|p: (String, i64)| (p.0@, p.1))
    }
}

impl HostCooldowns {
    /// A table with no cooldown.
    pub fn new() -> (c: HostCooldowns)
        ensures
            c@ == Seq::<(Seq<char>, i64)>::empty(),
    {
        let c = HostCooldowns { entries: Vec::new() };
        assert(c@ =~= Seq::<(Seq<char>, i64)>::empty());
        c
    }

    fn position(&self, host: &str) -> (r: Option<usize>)
        ensures
            match r {
                Some(i) => i as int == cooldown_index(self@, host@, 0) && i < self@.len(),
                None => cooldown_index(self@, host@, 0) == -1,
            },
    {
        let ghost e = self@;
        let mut i: usize = 0;
        while i < self.entries.len()
            invariant
                i <= self.entries@.len(),
                e == self@,
                e.len() == self.entries@.len(),
                cooldown_index(e, host@, 0) == cooldown_index(e, host@, i as int),
            decreases self.entries@.len() - i,
        {
            assert(e[i as int] == (self.entries@[i as int].0@, self.entries@[i as int].1));
            if crate::chars::text_eq(self.entries[i].0.as_str(), host) {
                return Some(i);
            }
            i += 1;
        }
        None
    }

    /// Seconds left of `host`'s cooldown at `now`, if it has not ended.
    pub fn remaining(&self, host: &str, now: i64) -> (r: Option<u64>)
        ensures
            r == cooldown_left(cooldown_until(self@, host@), now),
    {
        match self.position(host) {
            Some(i) => {
                assert(self@[i as int].1 == self.entries@[i as int].1);
                rate_limit_remaining(Some(self.entries[i].1), now)
            },
            None => rate_limit_remaining(None, now),
        }
    }

    /// Records the cooldown a response from `host` starts, if any.
    pub fn note_response(&mut self, host: &str, status: u16, retry_after: Option<&str>, now: i64)
        ensures
            final(self)@ == cooldown_noted(old(self)@, host@, status, match retry_after {
                Some(t) => Some(t@),
                None => None,
            }, now),
    {
        if status != 429 {
            return;
        }
        let t = match retry_after {
            Some(t) => t,
            None => return,
        };
        let secs = match parse_i64_exec(t) {
            Some(secs) => secs,
            None => return,
        };
        let until = now as i128 + secs as i128 * 1000;
        if until < i64::MIN as i128 || until > i64::MAX as i128 {
            return;
        }
        let u = until as i64;
        let ghost e = self@;
        match self.position(host) {
            Some(i) => {
                self.entries.set(i, (String::from_str(host), u));
                assert(self@ =~= e.update(i as int, (host@, u)));
            },
            None => {
                self.entries.push((String::from_str(host), u));
                assert(self@ =~= e.push((host@, u)));
            },
        }
    }
}

/// A host that answered 429 with a `Retry-After` of `N` whole seconds at
/// time `t0` is refused until `t0 + N` seconds: at any `now` before that,
/// the table reports the whole seconds left.
pub proof fn lemma_rate_limited_host_is_refused(
    e: Seq<(Seq<char>, i64)>,
    host: Seq<char>,
    retry_after: Seq<char>,
    t0: i64,
    now: i64,
)
    requires
        parse_i64(retry_after) is Some,
        i64::MIN <= t0 + parse_i64(retry_after)->0 * 1000 <= i64::MAX,
        now < t0 + parse_i64(retry_after)->0 * 1000,
    ensures
        cooldown_left(cooldown_until(cooldown_noted(e, host, 429, Some(retry_after), t0), host), now) == Some(
            whole_seconds(t0 + parse_i64(retry_after)->0 * 1000 - now) as u64,
        ),
{
    let u = (t0 + parse_i64(retry_after)->0 * 1000) as i64;
    let n = cooldown_noted(e, host, 429, Some(retry_after), t0);
    lemma_cooldown_index(e, host, 0);
    let i = cooldown_index(e, host, 0);
    if i >= 0 {
        lemma_cooldown_index(n, host, 0);
        let k = cooldown_index(n, host, 0);
        if k == -1 || k > i {
            assert(n[i].0 == host);
        } else if k < i {
            assert(n[k] == e[k]);
        }
    } else {
        lemma_cooldown_index(n, host, 0);
        let k = cooldown_index(n, host, 0);
        if k == -1 || k > e.len() {
            assert(n[e.len() as int].0 == host);
        } else if k < e.len() {
            assert(n[k] == e[k]);
        }
    }
    assert(cooldown_until(n, host) == Some(u));
}

/// What a download keeps of a response: a 304 keeps only its status; any
/// other response keeps its body, its `ETag` and `Last-Modified` values,
/// and the `max-age` of its `Cache-Control` header.
pub open spec fn response_result(
    status: u16,
    body: Seq<u8>,
    etag: Option<Seq<char>>,
    last_modified: Option<Seq<char>>,
    cache_control: Option<Seq<char>>,
) -> (u16, Seq<u8>, Option<Seq<char>>, Option<Seq<char>>, Option<i64>) {
    if status == 304 {
        (status, seq![], None, None, None)
    } else {
        (
            status,
            body,
            etag,
            last_modified,
            match cache_control {
                Some(cc) => cache_control_max_age(cc),
                None => None,
            },
        )
    }
}

/// The result of a download from the response's status, body and header
/// values (`response_result`).
pub fn fetch_result_from_response(
    status: u16,
    body: Vec<u8>,
    etag: Option<String>,
    last_modified: Option<String>,
    cache_control: Option<&str>,
) -> (r: FetchResult)
    ensures
        (r.status, r.body@, opt_view(r.etag), opt_view(r.last_modified), r.cache_control_max_age)
            == response_result(status, body@, opt_view(etag), opt_view(last_modified), match cache_control {
            Some(c) => Some(c@),
            None => None,
        }),
{
    if status == 304 {
        return FetchResult { status, body: Vec::new(), etag: None, last_modified: None, cache_control_max_age: None };
    }
    let max_age = match cache_control {
        Some(cc) => parse_cache_control_max_age(cc),
        None => None,
    };
    FetchResult { status, body, etag, last_modified, cache_control_max_age: max_age }
}

/// Whether a refresh at `now` leaves the feed out: never when forced,
/// else by `should_skip`.
pub open spec fn refresh_skips(url: Seq<char>, s: FeedSettingsView, cutoff: i64, now: i64, force: bool) -> bool {
    !force && should_skip(url, s, cutoff, now)
}

pub fn refresh_skips_feed(feed: &Feed, settings: &FeedSettings, special_case_cutoff: i64, now: i64, force: bool) -> (b: bool)
    ensures
        b == refresh_skips(feed.url@, settings@, special_case_cutoff, now, force),
{
    !force && feed_should_be_skipped_at(feed, settings, special_case_cutoff, now)
}

/// The conditional-GET headers a refresh at `now` sends: none when forced
/// (so the server cannot answer 304), else `conditional_headers`.
pub open spec fn request_headers(url: Seq<char>, s: FeedSettingsView, now: i64, force: bool) -> (
    Option<Seq<char>>,
    Option<Seq<char>>,
) {
    if force {
        (None, None)
    } else {
        conditional_headers(url, s, now)
    }
}

pub fn refresh_request_headers(feed: &Feed, settings: &FeedSettings, now: i64, force: bool) -> (r: (
    Option<String>,
    Option<String>,
))
    ensures
        (opt_view(r.0), opt_view(r.1)) == request_headers(feed.url@, settings@, now, force),
{
    if force {
        (None, None)
    } else {
        maybe_expire_conditional_get_info_at(feed, settings, now)
    }
}

/// A forced refresh reaches every feed: it skips none, sends no
/// conditional-GET headers, and parses every 200 response, whatever the
/// stored content hash.
pub proof fn lemma_forced_refresh_fetches_and_parses(
    url: Seq<char>,
    s: FeedSettingsView,
    cutoff: i64,
    now: i64,
    body: Seq<u8>,
    etag: Option<Seq<char>>,
    last_modified: Option<Seq<char>>,
    max_age: Option<i64>,
)
    ensures
        !refresh_skips(url, s, cutoff, now, true),
        request_headers(url, s, now, true) == (None::<Seq<char>>, None::<Seq<char>>),
        settings_after(url, s, 200, body, etag, last_modified, max_age, now, true).1,
        settings_after_parse(url, s, body, etag, last_modified, max_age, now).content_hash == Some(md5_hex(body)),
{
}

/// A refresh that is not forced parses a 200 response only when its body
/// changed: the same body as the stored content hash is never parsed
/// again, and any other status never is.
pub proof fn lemma_unchanged_body_is_not_reparsed(
    url: Seq<char>,
    s: FeedSettingsView,
    status: u16,
    body: Seq<u8>,
    etag: Option<Seq<char>>,
    last_modified: Option<Seq<char>>,
    max_age: Option<i64>,
    now: i64,
)
    ensures
        settings_after(url, s, status, body, etag, last_modified, max_age, now, false).1 <==> (status == 200
            && s.content_hash != Some(md5_hex(body))),
        settings_after(url, s, status, body, etag, last_modified, max_age, now, false).0.last_check_date == Some(now),
{
}

/// A body that is to be parsed leaves behind, if its parse fails, no
/// conditional-GET data of its own: the stored `ETag`, `Last-Modified`,
/// their date and the content hash stay as they were, while the check
/// time and the 200 status are recorded. Once it parses, its `ETag` (where
/// one came) and its hash are stored.
pub proof fn lemma_failed_parse_stores_no_conditional_get(
    url: Seq<char>,
    s: FeedSettingsView,
    body: Seq<u8>,
    etag: Option<Seq<char>>,
    last_modified: Option<Seq<char>>,
    max_age: Option<i64>,
    now: i64,
    force: bool,
)
    requires
        settings_after(url, s, 200, body, etag, last_modified, max_age, now, force).1,
    ensures
        ({
            let kept = settings_after(url, s, 200, body, etag, last_modified, max_age, now, force).0;
            &&& kept.etag == s.etag
            &&& kept.last_modified == s.last_modified
            &&& kept.date_created == s.date_created
            &&& kept.content_hash == s.content_hash
            &&& kept.last_check_date == Some(now)
            &&& kept.last_response_code == Some(200i64)
        }),
        ({
            let stored = settings_after_parse(url, s, body, etag, last_modified, max_age, now);
            &&& etag is Some ==> stored.etag == etag
            &&& stored.content_hash == Some(md5_hex(body))
            &&& stored.last_response_code == Some(200i64)
        }),
{
}

} // verus!
