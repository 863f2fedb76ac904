use viaduct_core::smart_feeds::{
    build_where, build_where_with, condition_sql, like_pattern, renumber, renumbered_text, Condition, SmartFeedRules,
    SqlParam,
};

#[test]
fn condition_sql_title_contains() {
    let (sql, params) = condition_sql(&Condition::TitleContains { value: "Hello".to_string() }).unwrap();
    assert!(sql.contains("a.title"));
    assert_eq!(params.len(), 1);
    match &params[0] {
        SqlParam::Text(s) => {
            assert!(s.contains("hello"));
            assert!(s.starts_with('%'));
            assert!(s.ends_with('%'));
        }
        _ => panic!("expected Text param"),
    }
}

#[test]
fn build_where_renumbers_placeholders() {
    let rules = SmartFeedRules {
        conditions: vec![
            Condition::TitleContains { value: "a".to_string() },
            Condition::AuthorContains { value: "b".to_string() },
        ],
    };
    let (sql, params) = build_where(&rules).unwrap();
    assert!(sql.contains("?1"));
    assert!(sql.contains("?2"));
    assert!(!sql.contains("?3"));
    assert_eq!(params.len(), 2);
}

#[test]
fn build_where_status_only_no_params() {
    let rules = SmartFeedRules {
        conditions: vec![Condition::Read { read: false }, Condition::Starred { starred: true }],
    };
    let (sql, params) = build_where(&rules).unwrap();
    assert!(params.is_empty());
    assert!(sql.contains("s.read"));
    assert!(sql.contains("s.starred"));
    assert!(sql.contains(" AND "));
}

#[test]
fn empty_rules_match_all() {
    let (sql, params) = build_where(&SmartFeedRules::default()).unwrap();
    assert_eq!(sql, "1=1");
    assert!(params.is_empty());
}

#[test]
fn like_pattern_escapes_special_chars() {
    let p = like_pattern("100%_done");
    assert!(p.contains("\\%"));
    assert!(p.contains("\\_"));
}

#[test]
fn like_pattern_exact_shape() {
    assert_eq!(like_pattern("A\\b%"), "%a\\\\b\\%%");
    assert_eq!(like_pattern(""), "%%");
    assert_eq!(like_pattern("ÄÖ"), "%äö%");
}

#[test]
fn renumber_shifts_every_placeholder() {
    let mut frag = "x = ?1 OR y = ?12 AND z = '?' AND ?".to_string();
    renumber(&mut frag, 3);
    assert_eq!(frag, "x = ?4 OR y = ?15 AND z = '?' AND ?");
    let mut same = "a = ?1".to_string();
    renumber(&mut same, 0);
    assert_eq!(same, "a = ?1");
    assert_eq!(renumbered_text("?99999999999999999999", 1), None);
}

#[test]
fn build_where_exact_clause_with_cutoffs() {
    let rules = SmartFeedRules {
        conditions: vec![
            Condition::FeedIs { feed_id: "f1".to_string() },
            Condition::NewerThanDays { days: 7 },
            Condition::Read { read: true },
        ],
    };
    let (sql, params) = build_where_with(&rules, &vec![0, 1_000, 0]).unwrap();
    assert_eq!(
        sql,
        "(a.feed_id = ?1) AND (COALESCE(a.date_published, a.date_modified) >= ?2) AND (COALESCE(s.read, 0) = 1)"
    );
    assert_eq!(params, vec![SqlParam::Text("f1".to_string()), SqlParam::Integer(1_000)]);
}

#[test]
fn date_condition_out_of_range_is_refused() {
    assert!(condition_sql(&Condition::OlderThanDays { days: i64::MAX }).is_none());
    let (_, params) = condition_sql(&Condition::NewerThanDays { days: 1 }).unwrap();
    assert_eq!(params.len(), 1);
}

#[test]
fn contains_patterns_are_read_with_a_backslash_escape() {
    let (sql, params) = condition_sql(&Condition::TitleContains { value: "50%_off".to_string() }).unwrap();
    assert!(sql.contains("LIKE ?1 ESCAPE '\\'"));
    match &params[0] {
        SqlParam::Text(s) => assert_eq!(s, "%50\\%\\_off%"),
        _ => panic!("expected Text param"),
    }
    let (sql, _) = condition_sql(&Condition::BodyContains { value: "x".to_string() }).unwrap();
    assert_eq!(sql.matches("ESCAPE '\\'").count(), 3);
}

#[test]
fn escaped_contains_pattern_is_a_plain_substring_match_in_sqlite() {
    let conn = rusqlite::Connection::open_in_memory().unwrap();
    let p = like_pattern("50%_off");
    let matches = |text: &str| -> bool {
        conn.query_row("SELECT LOWER(?2) LIKE ?1 ESCAPE '\\'", (p.as_str(), text), |r| r.get(0)).unwrap()
    };
    assert!(matches("Sale: 50%_OFF today"));
    assert!(!matches("Sale: 50x-off today"));
    assert!(!matches("Sale: 500 off"));
}
