use viaduct_core::database::delegate::{
    landed_pairs, retry_after_of, status_batches, status_deltas, zone1_usage_near_limit, LocalAccountDelegate,
    SyncStatus,
};
use viaduct_core::database::delegate::{should_skip_status_downloads_at, SyncRateLimiter};
use viaduct_core::database::delegate::{sync_step, SyncAction, SyncEvent, SyncPhase};
use viaduct_core::network::inoreader::SYNC_DEFAULT_RETRY_AFTER_SECS;
use viaduct_core::network::inoreader::{parse_usage_limits, usage_limits_at, ReaderAPIFailure};

#[test]
fn zone1_threshold_boundary() {
    assert!(!zone1_usage_near_limit(899, 1000));
    assert!(zone1_usage_near_limit(900, 1000));
    assert!(zone1_usage_near_limit(1000, 1000));
    assert!(zone1_usage_near_limit(1001, 1000), "over the limit trips");
    assert!(!zone1_usage_near_limit(5, 0), "zero limit never trips");
    assert!(!zone1_usage_near_limit(-1, 100), "negative usage never trips");
}

#[test]
fn placeholder_rate_limited_zero_never_pauses() {
    assert_eq!(retry_after_of(&ReaderAPIFailure::RateLimited { retry_after_secs: 0 }), None);
    assert_eq!(retry_after_of(&ReaderAPIFailure::RateLimited { retry_after_secs: 600 }), Some(600));
    assert_eq!(retry_after_of(&ReaderAPIFailure::HttpStatus(500)), None);

    let limiter = &mut SyncRateLimiter::new();
    let now: i64 = 1_700_000_000_000;
    limiter.note_rate_limited_at(0, now);
    assert!(!limiter.should_skip_at(now), "a zero-second pause is no pause");
}

fn status(id: &str, key: &str, flag: bool) -> SyncStatus {
    SyncStatus { article_id: id.to_string(), key: key.to_string(), flag, selected: true }
}

fn strings(v: &[&str]) -> Vec<String> {
    v.iter().map(|s| s.to_string()).collect()
}

#[test]
fn status_batches_split_by_key_and_flag() {
    let statuses = vec![
        status("1", "read", true),
        status("2", "read", false),
        status("3", "starred", true),
        status("4", "starred", false),
        status("5", "other", true),
        status("6", "read", true),
    ];
    let b = status_batches(&statuses);
    assert_eq!(b.read, strings(&["1", "6"]));
    assert_eq!(b.unread, strings(&["2"]));
    assert_eq!(b.starred, strings(&["3"]));
    assert_eq!(b.unstarred, strings(&["4"]));
}

#[test]
fn status_deltas_skip_pending_changes() {
    let remote_unread = strings(&["a", "b", "c"]);
    let remote_starred = strings(&["s1", "s2"]);
    let pending = vec![status("b", "read", true), status("s3", "starred", false)];
    let local_unread = strings(&["c", "d", "e", "b"]);
    let local_starred = strings(&["s2", "s3", "s4"]);
    let d = status_deltas(&remote_unread, &remote_starred, &pending, &local_unread, &local_starred);
    assert_eq!(d.unread, strings(&["a"]));
    assert_eq!(d.read, strings(&["d", "e"]));
    assert_eq!(d.starred, strings(&["s1"]));
    assert_eq!(d.unstarred, strings(&["s4"]));
}

#[test]
fn landed_pairs_carry_the_key() {
    let pairs = landed_pairs(&strings(&["x", "y"]), "starred");
    assert_eq!(pairs, vec![("x".to_string(), "starred".to_string()), ("y".to_string(), "starred".to_string())]);
    assert!(LocalAccountDelegate.is_local());
}

#[test]
fn sync_pause_holds_until_resume_then_clears() {
    let mut l = SyncRateLimiter::new();
    assert!(!l.should_skip_at(0));
    let resume = l.note_rate_limited_at(60, 1_000);
    assert_eq!(resume, 61_000);
    assert!(l.should_skip_at(60_999));
    assert_eq!(l.resume_at, Some(61_000));
    assert!(!l.should_skip_at(61_000));
    assert_eq!(l.resume_at, None);
}

#[test]
fn status_downloads_skip_only_near_limit_before_reset() {
    let report = parse_usage_limits(Some("90"), Some("100"), Some("60")).expect("report");
    let limits = usage_limits_at(report, 1_000);
    assert_eq!(limits.reset_at, 61_000);
    assert!(should_skip_status_downloads_at(Some(limits), 2_000));
    assert!(!should_skip_status_downloads_at(Some(limits), 61_000));
    let low = usage_limits_at(parse_usage_limits(Some("89"), Some("100"), None).expect("report"), 0);
    assert!(!should_skip_status_downloads_at(Some(low), 1));
    assert!(!should_skip_status_downloads_at(None, 1));
}

#[test]
fn rate_limiter_blocks_until_resume_time_passes() {
    let limiter = &mut SyncRateLimiter::new();
    let now: i64 = 1_700_000_000_000;
    assert!(!limiter.should_skip_at(now), "no pause before the first 429");
    limiter.note_rate_limited_at(SYNC_DEFAULT_RETRY_AFTER_SECS as u64, now);
    assert!(limiter.should_skip_at(now), "pause in force blocks the cycle");
    // Force the pause into the past: an expired pause clears itself and
    // lets the next cycle through.
    limiter.resume_at = Some(now - 1_000);
    assert!(!limiter.should_skip_at(now));
    assert!(limiter.resume_at.is_none(), "expired pause is cleared");
}

#[test]
fn sync_cycle_stores_markers_only_after_saving_and_stops_uploads_on_429() {
    let (p, a) = sync_step(SyncPhase::Lists, SyncEvent::ListsFetched(true));
    assert_eq!(a, SyncAction::Reconcile);
    let (p, a) = sync_step(p, SyncEvent::Saved);
    assert_eq!(a, SyncAction::StoreMarkers);
    let (p, a) = sync_step(p, SyncEvent::MarkersStored);
    assert_eq!(a, SyncAction::Send(0));
    let (p, a) = sync_step(p, SyncEvent::BatchLanded);
    assert_eq!(a, SyncAction::Clear(0));
    let (p, a) = sync_step(p, SyncEvent::Cleared);
    assert_eq!(a, SyncAction::Send(1));
    let (p, a) = sync_step(p, SyncEvent::BatchEmpty);
    assert_eq!(a, SyncAction::Send(2));
    let (p, a) = sync_step(p, SyncEvent::RateLimited(3600));
    assert_eq!((p, a), (SyncPhase::Downloading, SyncAction::PauseThenDownload(3600)));
    assert_eq!(sync_step(p, SyncEvent::Finished), (SyncPhase::Done, SyncAction::Stop));
}

#[test]
fn unchanged_lists_skip_the_reconcile_and_failed_batches_move_on() {
    let (p, a) = sync_step(SyncPhase::Lists, SyncEvent::ListsFetched(false));
    assert_eq!((p, a), (SyncPhase::Uploading(0), SyncAction::Send(0)));
    let (p, a) = sync_step(SyncPhase::Uploading(3), SyncEvent::BatchFailed);
    assert_eq!((p, a), (SyncPhase::Downloading, SyncAction::Download));
    assert_eq!(sync_step(SyncPhase::Saving, SyncEvent::Cleared), (SyncPhase::Done, SyncAction::Stop));
}
