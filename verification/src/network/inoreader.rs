//! The Reader API (Inoreader) data model and its identifier encodings.
use vstd::prelude::*;
use crate::chars::{chars_of, last_slash, last_segment, last_segment_of, push_range, push_str_chars, string_from_chars, trim_text, trimmed};
use crate::models::opt_view;
use crate::numbers::{
    hex_digit, hex_digits, hex_char, hex_value, parse_hex_u64, parse_hex_u64_exec, parse_i64, parse_i64_exec, push_hex_digits, push_signed_decimal, signed_decimal,
};

verus! {

/// A Reader API service.
#[derive(Debug, Clone, Copy, PartialEq, Eq, Structural)]
pub enum ReaderAPIVariant {
    Inoreader,
}

impl ReaderAPIVariant {
    /// The service's base URL.
    pub fn host(&self) -> (r: &'static str)
        ensures
            r@ == "https://www.inoreader.com"@,
    {
        match self {
            ReaderAPIVariant::Inoreader => "https://www.inoreader.com",
        }
    }
}

/// A tag (folder label or state) of the Reader API.
#[derive(Debug)]
pub struct ReaderAPITag {
    pub id: String,
    pub sortid: Option<String>,
}

pub struct TagView {
    pub id: Seq<char>,
    pub sortid: Option<Seq<char>>,
}

impl View for ReaderAPITag {
    type V = TagView;

    open spec fn view(&self) -> TagView {
        TagView { id: self.id@, sortid: opt_view(self.sortid) }
    }
}

pub open spec fn tags_view(s: Seq<ReaderAPITag>) -> Seq<TagView> {
    s.map_values(|t: ReaderAPITag| t@)
}

#[derive(Debug)]
pub struct ReaderAPITagContainer {
    pub tags: Vec<ReaderAPITag>,
}

/// One subscription of the Reader API subscription list.
#[derive(Debug)]
pub struct ReaderAPISubscription {
    pub feed_id: String,
    pub title: String,
    pub categories: Vec<ReaderAPITag>,
    pub url: String,
    pub html_url: Option<String>,
    pub icon_url: Option<String>,
}

pub struct SubscriptionView {
    pub feed_id: Seq<char>,
    pub title: Seq<char>,
    pub categories: Seq<TagView>,
    pub url: Seq<char>,
    pub html_url: Option<Seq<char>>,
    pub icon_url: Option<Seq<char>>,
}

impl View for ReaderAPISubscription {
    type V = SubscriptionView;

    open spec fn view(&self) -> SubscriptionView {
        SubscriptionView {
            feed_id: self.feed_id@,
            title: self.title@,
            categories: tags_view(self.categories@),
            url: self.url@,
            html_url: opt_view(self.html_url),
            icon_url: opt_view(self.icon_url),
        }
    }
}

pub open spec fn subscriptions_view(s: Seq<ReaderAPISubscription>) -> Seq<SubscriptionView> {
    s.map_values(|x: ReaderAPISubscription| x@)
}

#[derive(Debug)]
pub struct ReaderAPISubscriptionContainer {
    pub subscriptions: Vec<ReaderAPISubscription>,
}

#[derive(Debug)]
pub struct ReaderAPIQuickAddResult {
    pub num_results: i32,
    pub stream_id: String,
}

#[derive(Debug)]
pub struct ReaderAPIReference {
    pub item_id: String,
}

#[derive(Debug)]
pub struct ReaderAPIReferenceWrapper {
    pub item_refs: Vec<ReaderAPIReference>,
    pub continuation: Option<String>,
}

#[derive(Debug)]
pub struct ReaderAPIEntrySummary {
    pub content: Option<String>,
}

#[derive(Debug)]
pub struct ReaderAPIEntryOrigin {
    pub stream_id: Option<String>,
    pub title: Option<String>,
}

#[derive(Debug)]
pub struct ReaderAPIEntryAlternate {
    pub url: Option<String>,
}

/// Which item-id stream to list.
#[derive(Debug, Clone, Copy, PartialEq, Eq, Structural)]
pub enum ItemIDType {
    Unread,
    Starred,
    AllForAccount,
    AllForFeed,
}

/// Etag / Last-Modified pair sent as the conditional GET on the
/// subscription and tag lists.
#[derive(Debug, Clone, Default, PartialEq, Eq)]
pub struct ConditionalGetHeaders {
    pub etag: Option<String>,
    pub last_modified: Option<String>,
}

/// Result of a conditional-GET list call: `items` is `None` after a 304
/// Not Modified, when the caller must skip the reconcile.
pub struct ReaderAPIListResult<T> {
    pub items: Option<Vec<T>>,
    pub conditional_get: ConditionalGetHeaders,
}


/// The Reader API endpoints this client calls.
#[derive(Debug, Clone, Copy, PartialEq, Eq, Structural)]
pub enum ReaderAPIEndpoints {
    Login,
    Token,
    DisableTag,
    RenameTag,
    TagList,
    SubscriptionList,
    SubscriptionEdit,
    SubscriptionAdd,
    Contents,
    ItemIds,
    EditTag,
    SubscriptionImport,
}

pub open spec fn endpoint_path(e: ReaderAPIEndpoints) -> Seq<char> {
    match e {
        ReaderAPIEndpoints::Login => "/accounts/ClientLogin"@,
        ReaderAPIEndpoints::Token => "/reader/api/0/token"@,
        ReaderAPIEndpoints::DisableTag => "/reader/api/0/disable-tag"@,
        ReaderAPIEndpoints::RenameTag => "/reader/api/0/rename-tag"@,
        ReaderAPIEndpoints::TagList => "/reader/api/0/tag/list"@,
        ReaderAPIEndpoints::SubscriptionList => "/reader/api/0/subscription/list"@,
        ReaderAPIEndpoints::SubscriptionEdit => "/reader/api/0/subscription/edit"@,
        ReaderAPIEndpoints::SubscriptionAdd => "/reader/api/0/subscription/quickadd"@,
        ReaderAPIEndpoints::Contents => "/reader/api/0/stream/items/contents"@,
        ReaderAPIEndpoints::ItemIds => "/reader/api/0/stream/items/ids"@,
        ReaderAPIEndpoints::EditTag => "/reader/api/0/edit-tag"@,
        ReaderAPIEndpoints::SubscriptionImport => "/reader/api/0/subscription/import"@,
    }
}

impl ReaderAPIEndpoints {
    /// The endpoint's path below the service host.
    pub fn path(&self) -> (r: &'static str)
        ensures
            r@ == endpoint_path(*self),
    {
        match self {
            ReaderAPIEndpoints::Login => "/accounts/ClientLogin",
            ReaderAPIEndpoints::Token => "/reader/api/0/token",
            ReaderAPIEndpoints::DisableTag => "/reader/api/0/disable-tag",
            ReaderAPIEndpoints::RenameTag => "/reader/api/0/rename-tag",
            ReaderAPIEndpoints::TagList => "/reader/api/0/tag/list",
            ReaderAPIEndpoints::SubscriptionList => "/reader/api/0/subscription/list",
            ReaderAPIEndpoints::SubscriptionEdit => "/reader/api/0/subscription/edit",
            ReaderAPIEndpoints::SubscriptionAdd => "/reader/api/0/subscription/quickadd",
            ReaderAPIEndpoints::Contents => "/reader/api/0/stream/items/contents",
            ReaderAPIEndpoints::ItemIds => "/reader/api/0/stream/items/ids",
            ReaderAPIEndpoints::EditTag => "/reader/api/0/edit-tag",
            ReaderAPIEndpoints::SubscriptionImport => "/reader/api/0/subscription/import",
        }
    }
}

/// The signed reading of a 64-bit pattern (two's complement).
pub open spec fn as_signed(v: u64) -> int {
    if v > i64::MAX {
        v - 0x1_0000_0000_0000_0000int
    } else {
        v as int
    }
}

/// The unsigned reading of a signed 64-bit value (two's complement).
pub open spec fn as_unsigned(v: i64) -> nat {
    if v < 0 {
        (v + 0x1_0000_0000_0000_0000int) as nat
    } else {
        v as nat
    }
}

/// The canonical unique id of a Reader API item id: the last `/` segment
/// read as 64-bit hexadecimal, reinterpreted as signed and written in
/// decimal; the segment itself when it is not hexadecimal.
pub open spec fn item_unique_id(article_id: Seq<char>) -> Seq<char> {
    let part = last_segment(article_id);
    match parse_hex_u64(part) {
        Some(v) => signed_decimal(as_signed(v)),
        None => part,
    }
}

/// The unique id of the entry whose item id is `article_id` (as
/// `ReaderAPIEntry::unique_id` computes it).
pub fn unique_id_for_article(article_id: &str) -> (r: String)
    ensures
        r@ == item_unique_id(article_id@),
{
    let part = last_segment_of(article_id);
    match parse_hex_u64_exec(part.as_str()) {
        Some(v) => {
            let x: i64 = if v > 0x7fff_ffff_ffff_ffffu64 {
                (v as i128 - 0x1_0000_0000_0000_0000i128) as i64
            } else {
                v as i64
            };
            let mut out: Vec<char> = Vec::new();
            push_signed_decimal(&mut out, x);
            assert(out@ =~= item_unique_id(article_id@));
            string_from_chars(out.as_slice())
        },
        None => part,
    }
}

pub open spec fn lit_item_prefix() -> Seq<char> {
    "tag:google.com,2005:reader/item/"@
}

/// The long-form item parameter of a decimal article id: the prefix and
/// 16 zero-padded lowercase hexadecimal digits of its two's complement;
/// nothing when the id is not a 64-bit decimal integer.
pub open spec fn item_id_text(article_id: Seq<char>) -> Option<Seq<char>> {
    match parse_i64(article_id) {
        Some(v) => Some(lit_item_prefix() + hex_digits(as_unsigned(v), 16)),
        None => None,
    }
}

/// The long-form item parameter for `article_id`, or `None` when it cannot
/// be encoded (callers skip such ids).
pub fn item_id_parameter(article_id: &str) -> (r: Option<String>)
    ensures
        match r {
            Some(s) => item_id_text(article_id@) == Some(s@),
            None => item_id_text(article_id@) is None,
        },
{
    match parse_i64_exec(article_id) {
        None => None,
        Some(v) => {
            let u: u64 = if v < 0 {
                (v as i128 + 0x1_0000_0000_0000_0000i128) as u64
            } else {
                v as u64
            };
            let mut out: Vec<char> = Vec::new();
            push_str_chars(&mut out, "tag:google.com,2005:reader/item/");
            push_hex_digits(&mut out, u, 16);
            Some(string_from_chars(out.as_slice()))
        },
    }
}

/// A response header's text, trimmed, absent when empty.
pub open spec fn header_text(value: Option<Seq<char>>) -> Option<Seq<char>> {
    match value {
        Some(v) => if trimmed(v).len() > 0 {
            Some(trimmed(v))
        } else {
            None
        },
        None => None,
    }
}

/// A response header read as a trimmed decimal integer.
pub open spec fn header_number(value: Option<Seq<char>>) -> Option<i64> {
    match value {
        Some(v) => parse_i64(trimmed(v)),
        None => None,
    }
}

pub fn header_string(value: Option<&str>) -> (r: Option<String>)
    ensures
        opt_view(r) == header_text(match value {
            Some(v) => Some(v@),
            None => None,
        }),
{
    match value {
        Some(v) => {
            let t = trim_text(v);
            if t.as_str().is_empty() {
                None
            } else {
                Some(t)
            }
        },
        None => None,
    }
}

pub fn header_i64(value: Option<&str>) -> (r: Option<i64>)
    ensures
        r == header_number(match value {
            Some(v) => Some(v@),
            None => None,
        }),
{
    match value {
        Some(v) => {
            let t = trim_text(v);
            parse_i64_exec(t.as_str())
        },
        None => None,
    }
}

pub open spec fn opt_str(v: Option<&str>) -> Option<Seq<char>> {
    match v {
        Some(s) => Some(s@),
        None => None,
    }
}

/// Zone 1 (read) usage as the service reports it, and how long until the
/// daily limits reset.
#[derive(Debug, Clone, Copy, PartialEq, Eq, Structural)]
pub struct UsageReport {
    pub zone1_usage: i64,
    pub zone1_limit: i64,
    pub reset_after_secs: i64,
}

/// The latest usage report with the time its limits reset (milliseconds
/// since the Unix epoch, UTC).
#[derive(Debug, Clone, Copy, PartialEq, Eq, Structural)]
pub struct ReaderAPIUsageLimits {
    pub zone1_usage: i64,
    pub zone1_limit: i64,
    pub reset_at: i64,
}

/// The limits a report received at `now` describes: they reset its delay
/// after `now`.
pub fn usage_limits_at(report: UsageReport, now: i64) -> (l: ReaderAPIUsageLimits)
    requires
        i64::MIN <= now + report.reset_after_secs * 1000 <= i64::MAX,
    ensures
        l.zone1_usage == report.zone1_usage,
        l.zone1_limit == report.zone1_limit,
        l.reset_at == now + report.reset_after_secs * 1000,
{
    ReaderAPIUsageLimits {
        zone1_usage: report.zone1_usage,
        zone1_limit: report.zone1_limit,
        reset_at: (now as i128 + report.reset_after_secs as i128 * 1000) as i64,
    }
}

/// Seconds until the limits reset when the service does not say: one day.
pub const DEFAULT_USAGE_LIMITS_RESET_AFTER_SECS: i64 = 86400;

/// The usage report of the three rate-limit headers: present only when
/// usage and a positive limit are; the reset delay defaults to one day and
/// is never negative.
pub open spec fn usage_report(usage: Option<Seq<char>>, limit: Option<Seq<char>>, reset_after: Option<Seq<char>>) -> Option<UsageReport> {
    match (header_number(usage), header_number(limit)) {
        (Some(u), Some(l)) => if l <= 0 {
            None
        } else {
            let r = match header_number(reset_after) {
                Some(r) => r,
                None => DEFAULT_USAGE_LIMITS_RESET_AFTER_SECS,
            };
            Some(UsageReport { zone1_usage: u, zone1_limit: l, reset_after_secs: if r < 0 { 0 } else { r } })
        },
        _ => None,
    }
}

/// Reads the Zone 1 usage headers (usage, limit, reset-after) of a
/// response.
pub fn parse_usage_limits(usage: Option<&str>, limit: Option<&str>, reset_after: Option<&str>) -> (r: Option<UsageReport>)
    ensures
        r == usage_report(opt_str(usage), opt_str(limit), opt_str(reset_after)),
{
    let zone1_usage = match header_i64(usage) {
        Some(u) => u,
        None => return None,
    };
    let zone1_limit = match header_i64(limit) {
        Some(l) => l,
        None => return None,
    };
    if zone1_limit <= 0 {
        return None;
    }
    let reset = match header_i64(reset_after) {
        Some(r) => r,
        None => DEFAULT_USAGE_LIMITS_RESET_AFTER_SECS,
    };
    Some(UsageReport { zone1_usage, zone1_limit, reset_after_secs: if reset < 0 { 0 } else { reset } })
}

/// The sync pause after a 429 when `Retry-After` is absent, unparseable or
/// not positive: one hour.
pub const SYNC_DEFAULT_RETRY_AFTER_SECS: i64 = 3600;

pub open spec fn retry_after_secs(value: Option<Seq<char>>) -> u64 {
    match header_number(value) {
        Some(n) => if n > 0 {
            n as u64
        } else {
            SYNC_DEFAULT_RETRY_AFTER_SECS as u64
        },
        None => SYNC_DEFAULT_RETRY_AFTER_SECS as u64,
    }
}

/// The pause a 429 asks for: its `Retry-After` seconds when positive, one
/// hour otherwise.
pub fn sync_retry_after_secs(value: Option<&str>) -> (r: u64)
    ensures
        r == retry_after_secs(opt_str(value)),
{
    match header_i64(value) {
        Some(n) => if n > 0 {
            n as u64
        } else {
            SYNC_DEFAULT_RETRY_AFTER_SECS as u64
        },
        None => SYNC_DEFAULT_RETRY_AFTER_SECS as u64,
    }
}

/// The markers for the next conditional GET, from a response's `ETag` and
/// `Last-Modified` headers (trimmed; absent when empty).
pub fn conditional_get_from_response(etag: Option<&str>, last_modified: Option<&str>) -> (r: ConditionalGetHeaders)
    ensures
        opt_view(r.etag) == header_text(opt_str(etag)),
        opt_view(r.last_modified) == header_text(opt_str(last_modified)),
{
    ConditionalGetHeaders { etag: header_string(etag), last_modified: header_string(last_modified) }
}

/// How a failed Reader API response is reported.
#[derive(Debug, Clone, Copy, PartialEq, Eq, Structural)]
pub enum ReaderAPIFailure {
    /// A 429, with the pause it asks for (always positive).
    RateLimited { retry_after_secs: u64 },
    /// Any other non-success status.
    HttpStatus(u16),
}

/// The failure a non-success response maps to: a 429 keeps its identity
/// and parsed `Retry-After`; every other status is reported as is.
pub fn status_error(status: u16, retry_after: Option<&str>) -> (r: ReaderAPIFailure)
    ensures
        status == 429 ==> r == (ReaderAPIFailure::RateLimited { retry_after_secs: retry_after_secs(opt_str(retry_after)) }),
        status != 429 ==> r == ReaderAPIFailure::HttpStatus(status),
{
    if status == 429 {
        ReaderAPIFailure::RateLimited { retry_after_secs: sync_retry_after_secs(retry_after) }
    } else {
        ReaderAPIFailure::HttpStatus(status)
    }
}

/// `16^n`.
pub open spec fn pow16(n: nat) -> nat
    decreases n,
{
    if n == 0 {
        1
    } else {
        16 * pow16((n - 1) as nat)
    }
}

/// `n` hexadecimal digits read back give the value they were written from,
/// when it fits; none of them is a `/` or a `+`.
pub proof fn lemma_hex_digits_round_trip(v: nat, n: nat)
    requires
        v < pow16(n),
    ensures
        hex_value(hex_digits(v, n)) == Some(v),
        hex_digits(v, n).len() == n,
        forall|i: int| 0 <= i < n ==> #[trigger] hex_digits(v, n)[i] != '/' && hex_digits(v, n)[i] != '+',
    decreases n,
{
    if n > 0 {
        let p = pow16((n - 1) as nat);
        assert(v / 16 < p) by (nonlinear_arith)
            requires
                v < 16 * p,
        ;
        lemma_hex_digits_round_trip(v / 16, (n - 1) as nat);
        let d = (v % 16) as int;
        let c = hex_char(d);
        if d < 10 {
            assert(c as u32 == 0x30 + d);
        } else {
            assert(c as u32 == 0x61 + d - 10);
        }
        assert(hex_digit(c) == Some(d as nat));
        let h = hex_digits(v, n);
        assert(h.drop_last() =~= hex_digits(v / 16, (n - 1) as nat));
        assert(v == (v / 16) * 16 + v % 16);
        assert forall|i: int| 0 <= i < n implies #[trigger] h[i] != '/' && h[i] != '+' by {
            if i < n - 1 {
                assert(h[i] == hex_digits(v / 16, (n - 1) as nat)[i]);
            }
        }
    }
}

proof fn lemma_last_slash_suffix(pre: Seq<char>, h: Seq<char>)
    requires
        pre.len() > 0,
        pre.last() == '/',
        forall|i: int| 0 <= i < h.len() ==> #[trigger] h[i] != '/',
    ensures
        last_slash(pre + h) == pre.len() - 1,
    decreases h.len(),
{
    if h.len() == 0 {
        assert(pre + h =~= pre);
    } else {
        assert((pre + h).drop_last() =~= pre + h.drop_last());
        lemma_last_slash_suffix(pre, h.drop_last());
    }
}

/// Round trip of item ids: the item parameter sent for a decimal article
/// id converts back to that id's canonical decimal (its value written
/// without sign or leading zeros).
pub proof fn lemma_item_id_round_trip(article_id: Seq<char>)
    requires
        parse_i64(article_id) is Some,
    ensures
        item_id_text(article_id) is Some,
        item_unique_id(item_id_text(article_id)->0) == signed_decimal(parse_i64(article_id)->0 as int),
{
    let v = parse_i64(article_id)->0;
    let u = as_unsigned(v);
    assert(pow16(16) == 0x1_0000_0000_0000_0000nat) by {
        reveal_with_fuel(pow16, 17);
    }
    lemma_hex_digits_round_trip(u, 16);
    let h = hex_digits(u, 16);
    reveal_strlit("tag:google.com,2005:reader/item/");
    let pre = lit_item_prefix();
    assert(pre.last() == '/');
    lemma_last_slash_suffix(pre, h);
    let text = pre + h;
    assert(last_segment(text) =~= h);
    assert(h[0] != '+');
    assert(parse_hex_u64(h) == Some(u as u64));
    assert(as_signed(u as u64) == v as int);
}

} // verus!
