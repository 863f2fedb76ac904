use viaduct_core::database::articles::{sort_by_logical_date, sql_placeholders, SortOrder};
use viaduct_core::models::Article;

fn article(title: &str, published: Option<i64>, modified: Option<i64>) -> Article {
    Article {
        article_id: title.to_string(),
        feed_id: "https://example.com/feed".to_string(),
        title: Some(title.to_string()),
        content_html: Some("body".to_string()),
        content_text: None,
        url: None,
        external_url: None,
        summary: None,
        image_url: None,
        date_published: published,
        date_modified: modified,
        authors: Vec::new(),
        attachments: Vec::new(),
    }
}

fn titles(v: &[Article]) -> Vec<String> {
    v.iter().filter_map(|a| a.title.clone()).collect()
}

#[test]
fn timeline_sort_uses_logical_date_when_published_is_missing() {
    let now: i64 = 1_700_000_000;
    let hour: i64 = 3600;
    let articles = vec![
        article("oldest", Some(now - 5 * hour), None),
        article("recent", Some(now - hour), None),
        article("modified-only", None, Some(now - 3 * hour)),
    ];
    let sorted = sort_by_logical_date(&articles, SortOrder::NewestFirst);
    // Logical-date order: 1h, 3h (via date_modified), 5h.
    assert_eq!(titles(&sorted), vec!["recent", "modified-only", "oldest"]);
}

#[test]
fn oldest_first_reverses_and_undated_articles_lead() {
    let articles = vec![
        article("b", Some(20), None),
        article("undated", None, None),
        article("a", None, Some(10)),
        article("c", Some(30), Some(5)),
    ];
    let sorted = sort_by_logical_date(&articles, SortOrder::OldestFirst);
    assert_eq!(titles(&sorted), vec!["undated", "a", "b", "c"]);
    let sorted = sort_by_logical_date(&articles, SortOrder::NewestFirst);
    assert_eq!(titles(&sorted), vec!["c", "b", "a", "undated"]);
}

#[test]
fn equal_dates_keep_their_order() {
    let articles = vec![article("x", Some(5), None), article("y", None, Some(5)), article("z", Some(5), None)];
    let sorted = sort_by_logical_date(&articles, SortOrder::NewestFirst);
    assert_eq!(titles(&sorted), vec!["x", "y", "z"]);
}

#[test]
fn placeholders_are_comma_separated() {
    assert_eq!(sql_placeholders(0), "");
    assert_eq!(sql_placeholders(1), "?");
    assert_eq!(sql_placeholders(3), "?, ?, ?");
}
