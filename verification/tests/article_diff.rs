use chrono::TimeZone;
use viaduct_core::database::article_diff::{
    article_changes, new_article_is_read, orphan_is_deleted, parsed_to_article, same_article,
};
use viaduct_core::database::articles::article_id_for;
use viaduct_core::models::{Article, Author, ParsedItem};

fn item(id: &str, title: &str) -> ParsedItem {
    ParsedItem { id: id.to_string(), title: Some(title.to_string()), ..Default::default() }
}

fn stored(feed: &str, id: &str, title: &str) -> Article {
    parsed_to_article(&item(id, title), feed)
}

#[test]
fn parsed_item_becomes_article_with_md5_id() {
    let mut p = item("u1", "T");
    p.authors.push(Author { name: Some("A".to_string()), url: None, avatar_url: None, email: None });
    p.date_published = Some(1_700_000_000);
    let a = parsed_to_article(&p, "feed-1");
    assert_eq!(a.article_id, article_id_for("feed-1", "u1"));
    assert_eq!(a.feed_id, "feed-1");
    assert_eq!(a.title.as_deref(), Some("T"));
    assert_eq!(a.date_published, Some(1_700_000_000));
    assert_eq!(a.authors.len(), 1);
    assert!(same_article(&a, &a.clone()));
    let mut b = a.clone();
    b.authors[0].email = Some("e".to_string());
    assert!(!same_article(&a, &b));
}

#[test]
fn diff_splits_new_updated_and_departed() {
    let feed = "f";
    let existing = vec![stored(feed, "keep", "Same"), stored(feed, "edit", "Old"), stored(feed, "gone", "Bye")];
    let items = vec![item("keep", "Same"), item("edit", "New"), item("fresh", "Hi")];
    let d = article_changes(&items, feed, &existing);
    assert_eq!(d.new_articles.len(), 1);
    assert_eq!(d.new_articles[0].article_id, article_id_for(feed, "fresh"));
    assert_eq!(d.updated_articles.len(), 1);
    assert_eq!(d.updated_articles[0].title.as_deref(), Some("New"));
    assert_eq!(d.left_feed_ids, vec![article_id_for(feed, "gone")]);
}

#[test]
fn duplicate_items_keep_the_last_and_empty_updates_change_nothing() {
    let feed = "f";
    let items = vec![item("x", "first"), item("y", "other"), item("x", "second")];
    let d = article_changes(&items, feed, &vec![]);
    assert_eq!(d.new_articles.len(), 2);
    assert_eq!(d.new_articles[0].title.as_deref(), Some("other"));
    assert_eq!(d.new_articles[1].title.as_deref(), Some("second"));
    let d = article_changes(&vec![], feed, &vec![stored(feed, "a", "A")]);
    assert!(d.new_articles.is_empty() && d.updated_articles.is_empty() && d.left_feed_ids.is_empty());
}

#[test]
fn orphan_deletion_and_stale_read_rules() {
    let cutoff_ms = 1_000_000_000_000;
    assert!(orphan_is_deleted(Some((false, 999_999_999)), cutoff_ms));
    assert!(!orphan_is_deleted(Some((false, 1_000_000_000)), cutoff_ms));
    assert!(!orphan_is_deleted(Some((true, 0)), cutoff_ms));
    assert!(!orphan_is_deleted(None, cutoff_ms));
    assert!(orphan_is_deleted(Some((false, i64::MAX)), cutoff_ms));
    assert!(new_article_is_read(Some(999_999_999), cutoff_ms));
    assert!(!new_article_is_read(Some(1_000_000_000), cutoff_ms));
    assert!(!new_article_is_read(None, cutoff_ms));
}

#[test]
fn chrono_represents_exactly_the_stated_range_of_seconds() {
    let lo: i64 = -8_334_601_228_800;
    let hi: i64 = 8_210_266_876_799;
    assert!(chrono::Utc.timestamp_opt(lo, 0).single().is_some());
    assert!(chrono::Utc.timestamp_opt(hi, 0).single().is_some());
    assert!(chrono::Utc.timestamp_opt(lo - 1, 0).single().is_none());
    assert!(chrono::Utc.timestamp_opt(hi + 1, 0).single().is_none());
}
