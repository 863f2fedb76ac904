use viaduct_core::database::articles::{article_id_for, articles_op_label, ArticlesOpKind, SortOrder};
use viaduct_core::network::activity::{ActivityEvent, ActivityKind, ActivityLog, RING_CAPACITY};
use viaduct_core::network::cache::{cache_filename, color_for, live_filenames_for, ByteLru, Kind};

#[test]
fn cache_filename_is_md5_hex() {
    let n = cache_filename("https://example.com/favicon.ico");
    assert_eq!(n.len(), 32);
    assert_eq!(n, cache_filename("https://example.com/favicon.ico"));
}

#[test]
fn md5_hex_known_values() {
    assert_eq!(cache_filename(""), "d41d8cd98f00b204e9800998ecf8427e");
    assert_eq!(cache_filename("abc"), "900150983cd24fb0d6963f7d28e17f72");
    assert_eq!(color_for("abc"), "#900150");
    assert_eq!(article_id_for("a", "bc"), cache_filename("a bc"));
}

#[test]
fn color_for_is_deterministic() {
    let a = color_for("Daring Fireball");
    let b = color_for("Daring Fireball");
    assert_eq!(a, b);
    assert!(a.starts_with('#'));
    assert_eq!(a.len(), 7);
}

#[test]
fn article_id_is_md5_of_feed_and_unique() {
    let a = article_id_for("https://example.com/feed", "guid-1");
    let b = article_id_for("https://example.com/feed", "guid-1");
    assert_eq!(a, b);
    assert_eq!(a.len(), 32);
}

#[test]
fn byte_lru_evicts_until_under_ceiling() {
    let mut lru = ByteLru::new(250);
    for i in 0..5 {
        lru.put(format!("k{i}"), vec![0u8; 100]);
        assert!(lru.bytes() <= 250, "bytes {} over ceiling after {i}", lru.bytes());
    }
    assert_eq!(lru.len(), 2);
    assert!(lru.get("k4").is_some());
    assert!(lru.get("k3").is_some());
    assert!(lru.get("k0").is_none());
}

#[test]
fn byte_lru_replacing_a_key_accounts_for_old_bytes() {
    let mut lru = ByteLru::new(10_000);
    lru.put("k".into(), vec![0u8; 100]);
    lru.put("k".into(), vec![0u8; 40]);
    assert_eq!(lru.bytes(), 40);
    assert_eq!(lru.len(), 1);
}

#[test]
fn byte_lru_keeps_single_oversized_entry() {
    let mut lru = ByteLru::new(100);
    lru.put("big".into(), vec![0u8; 500]);
    assert_eq!(lru.len(), 1);
    assert!(lru.get("big").is_some());
}

#[test]
fn byte_lru_clear_resets_byte_count() {
    let mut lru = ByteLru::new(10_000);
    lru.put("a".into(), vec![0u8; 100]);
    lru.put("b".into(), vec![0u8; 100]);
    lru.clear();
    assert_eq!(lru.bytes(), 0);
    assert_eq!(lru.len(), 0);
}

#[test]
fn byte_lru_get_refreshes_recency() {
    let mut lru = ByteLru::new(250);
    lru.put("a".into(), vec![1u8; 100]);
    lru.put("b".into(), vec![2u8; 100]);
    assert_eq!(lru.get("a"), Some(vec![1u8; 100]));
    lru.put("c".into(), vec![3u8; 100]);
    assert!(lru.get("b").is_none());
    assert!(lru.get("a").is_some());
}

#[test]
fn kind_caps() {
    assert_eq!(Kind::Favicon.max_bytes(), 1024 * 1024);
    assert_eq!(Kind::Image.max_bytes(), 20 * 1024 * 1024);
    assert_eq!(Kind::VideoThumb.max_bytes(), 4 * 1024 * 1024);
    assert_eq!(Kind::Image.cache_bytes(), 64 * 1024 * 1024);
}

#[test]
fn live_filenames_round_trips_through_cache_filename() {
    let urls = vec!["https://example.com/favicon.ico".to_string(), "https://other.example/icon.png".to_string()];
    let set = live_filenames_for(&urls);
    assert_eq!(set.len(), 2);
    for url in &urls {
        assert!(set.contains(&cache_filename(url)));
    }
}

#[test]
fn live_filenames_skips_blank() {
    let urls = vec!["".to_string(), "   ".to_string(), "https://x".to_string(), "https://x".to_string()];
    let set = live_filenames_for(&urls);
    assert_eq!(set.len(), 1);
}

fn ev(feed: &str, kind: ActivityKind) -> ActivityEvent {
    ActivityEvent {
        at: 0,
        feed_id: feed.to_string(),
        feed_url: format!("https://example.com/{feed}"),
        feed_name: None,
        kind,
    }
}

#[test]
fn ring_capacity_evicts_oldest() {
    let mut log = ActivityLog::new();
    for i in 0..(RING_CAPACITY + 50) {
        log.push(ev(&format!("f{i}"), ActivityKind::NotModified));
    }
    assert_eq!(log.len(), RING_CAPACITY);
    let snap = log.snapshot();
    assert_eq!(snap[0].feed_id, format!("f{}", RING_CAPACITY + 49));
    assert_eq!(snap.last().unwrap().feed_id, "f50");
}

#[test]
fn snapshot_is_newest_first() {
    let mut log = ActivityLog::new();
    log.push(ev("a", ActivityKind::NotModified));
    log.push(ev("b", ActivityKind::NotModified));
    log.push(ev("c", ActivityKind::Success { new: 1, updated: 0, deleted: 0 }));
    let snap = log.snapshot();
    assert_eq!(snap[0].feed_id, "c");
    assert_eq!(snap[1].feed_id, "b");
    assert_eq!(snap[2].feed_id, "a");
}

#[test]
fn clear_drops_all() {
    let mut log = ActivityLog::new();
    log.push(ev("x", ActivityKind::NotModified));
    log.push(ev("y", ActivityKind::NotModified));
    assert_eq!(log.len(), 2);
    log.clear();
    assert!(log.is_empty());
}

#[test]
fn sort_order_clauses() {
    assert_eq!(SortOrder::default(), SortOrder::NewestFirst);
    assert_eq!(
        SortOrder::NewestFirst.order_by_clause(),
        "ORDER BY COALESCE(date_published, date_modified) DESC, rowid DESC"
    );
    assert_eq!(
        SortOrder::OldestFirst.order_by_clause_aliased(),
        "ORDER BY COALESCE(a.date_published, a.date_modified) ASC, a.rowid ASC"
    );
    assert_eq!(articles_op_label(ArticlesOpKind::SearchWithSnippets), "SearchWithSnippets");
}
