use viaduct_core::network::inoreader::{ItemIDType, ReaderAPISubscription};
use viaduct_core::network::reader_api::{
    authorization_header, change_subscription_form, contents_form, edit_tag_form, edit_token, id_batches,
    item_ids_query, label_stream, login_auth_token, needs_fresh_token, rename_tag_form, subscription_with_id,
};

fn pairs(v: &[(&str, &str)]) -> Vec<(String, String)> {
    v.iter().map(|(a, b)| (a.to_string(), b.to_string())).collect()
}

#[test]
fn login_body_auth_line() {
    assert_eq!(login_auth_token("SID=x\nLSID=y\nAuth=abc123\n").as_deref(), Some("abc123"));
    assert_eq!(login_auth_token("SID=x\r\nAuth=tok\r\n").as_deref(), Some("tok"));
    assert_eq!(login_auth_token("Auth=first\nAuth=second").as_deref(), Some("first"));
    assert_eq!(login_auth_token("Auth=last\r").as_deref(), Some("last\r"));
    assert_eq!(login_auth_token("Error=BadAuthentication\n"), None);
}

#[test]
fn edit_token_is_trimmed_and_non_empty() {
    assert_eq!(edit_token("  tok123\n").as_deref(), Some("tok123"));
    assert_eq!(edit_token(" \n\t"), None);
}

#[test]
fn headers_and_label_streams() {
    assert_eq!(authorization_header("abc"), "GoogleLogin auth=abc");
    assert_eq!(label_stream("Tech News"), "user/-/label/Tech News");
    assert!(needs_fresh_token(401));
    assert!(needs_fresh_token(403));
    assert!(!needs_fresh_token(404));
}

#[test]
fn edit_tag_and_contents_forms_skip_unencodable_ids() {
    let ids = vec!["311054".to_string(), "not-a-number".to_string(), "-1".to_string()];
    assert_eq!(
        edit_tag_form("T0", &ids, "user/-/state/com.google/read", true),
        pairs(&[
            ("T", "T0"),
            ("a", "user/-/state/com.google/read"),
            ("i", "tag:google.com,2005:reader/item/000000000004bf0e"),
            ("i", "tag:google.com,2005:reader/item/ffffffffffffffff"),
        ])
    );
    assert_eq!(edit_tag_form("T0", &[], "s", false), pairs(&[("T", "T0"), ("r", "s")]));
    assert_eq!(
        contents_form("T1", &ids[..1]),
        pairs(&[("T", "T1"), ("output", "json"), ("i", "tag:google.com,2005:reader/item/000000000004bf0e")])
    );
}

#[test]
fn subscription_edit_and_rename_forms() {
    assert_eq!(
        change_subscription_form("T", "feed/1", Some("Old"), Some("New"), None),
        pairs(&[
            ("T", "T"),
            ("s", "feed/1"),
            ("ac", "edit"),
            ("r", "user/-/label/Old"),
            ("a", "user/-/label/New"),
        ])
    );
    assert_eq!(
        change_subscription_form("T", "feed/1", None, None, Some("Title")),
        pairs(&[("T", "T"), ("s", "feed/1"), ("ac", "edit"), ("t", "Title")])
    );
    assert_eq!(
        rename_tag_form("T", "A", "B"),
        pairs(&[("T", "T"), ("s", "user/-/label/A"), ("dest", "user/-/label/B")])
    );
}

#[test]
fn item_id_queries_by_kind() {
    assert_eq!(
        item_ids_query(ItemIDType::Unread, None, Some("cont")),
        Some(pairs(&[
            ("n", "1000"),
            ("output", "json"),
            ("s", "user/-/state/com.google/reading-list"),
            ("xt", "user/-/state/com.google/read"),
            ("c", "cont"),
        ]))
    );
    assert_eq!(
        item_ids_query(ItemIDType::Starred, None, None),
        Some(pairs(&[("n", "1000"), ("output", "json"), ("s", "user/-/state/com.google/starred")]))
    );
    assert_eq!(item_ids_query(ItemIDType::AllForFeed, None, None), None);
    assert_eq!(
        item_ids_query(ItemIDType::AllForFeed, Some("feed/9"), None),
        Some(pairs(&[("n", "1000"), ("output", "json"), ("s", "feed/9")]))
    );
}

fn sub(id: &str) -> ReaderAPISubscription {
    ReaderAPISubscription {
        feed_id: id.to_string(),
        title: id.to_string(),
        categories: Vec::new(),
        url: format!("https://{id}.example/"),
        html_url: None,
        icon_url: None,
    }
}

#[test]
fn quick_add_result_is_found_by_stream_id() {
    let subs = vec![sub("feed/a"), sub("feed/b"), sub("feed/b")];
    assert_eq!(subscription_with_id(&subs, "feed/b"), Some(1));
    assert_eq!(subscription_with_id(&subs, "feed/c"), None);
}

#[test]
fn missing_ids_download_in_batches() {
    let ids: Vec<String> = (0..250).map(|i| i.to_string()).collect();
    let batches = id_batches(&ids, 100);
    assert_eq!(batches.len(), 3);
    assert_eq!(batches[0].len(), 100);
    assert_eq!(batches[2].len(), 50);
    assert_eq!(batches[2][49], "249");
    assert!(id_batches(&[], 100).is_empty());
}
