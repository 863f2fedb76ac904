use md5::Digest;
use viaduct_core::error::ParseError;
use viaduct_core::parser::json::{
    finish_json, parse, parse_jf_attachments, parse_json_feed, parse_rss_in_json, JsonValue,
};
use viaduct_core::parser::xml::parse_feed;
use viaduct_core::parser::{parse as parse_any, FeedDraft};

fn s(t: &str) -> JsonValue {
    JsonValue::Str(t.to_string())
}

fn n(i: i64) -> JsonValue {
    JsonValue::Number { integer: Some(i), float_text: Some(format!("{}", i as f64)) }
}

fn obj(pairs: Vec<(&str, JsonValue)>) -> JsonValue {
    JsonValue::Object(pairs.into_iter().map(|(k, v)| (k.to_string(), v)).collect())
}

fn md5_hex(text: &str) -> String {
    format!("{:x}", md5::Md5::digest(text.as_bytes()))
}

fn json_feed() -> JsonValue {
    obj(vec![
        ("version", s("https://jsonfeed.org/version/1.1")),
        ("title", s("Site")),
        ("home_page_url", s("https://example.com/")),
        (
            "items",
            JsonValue::Array(vec![
                obj(vec![
                    ("id", s("one")),
                    ("title", s("First")),
                    ("content_html", s("<p>Hi</p>")),
                    ("date_published", s("2020-01-01T00:00:00Z")),
                    ("image", s("https://example.com/i.png")),
                    ("authors", JsonValue::Array(vec![obj(vec![("name", s("Ann"))]), obj(vec![])])),
                    (
                        "attachments",
                        JsonValue::Array(vec![
                            obj(vec![
                                ("url", s("https://example.com/a.mp3")),
                                ("mime_type", s("audio/mpeg")),
                                ("size_in_bytes", n(1234)),
                            ]),
                            obj(vec![("url", s(""))]),
                            obj(vec![("title", s("no url"))]),
                        ]),
                    ),
                ]),
                obj(vec![("id", n(7)), ("content_text", s("seven"))]),
                obj(vec![
                    ("id", JsonValue::Number { integer: None, float_text: Some("1.5".to_string()) }),
                    ("content_text", s("float id")),
                ]),
                obj(vec![("content_text", s("no id"))]),
                obj(vec![("id", s("no body"))]),
                obj(vec![("id", JsonValue::Bool(true)), ("content_text", s("bool id"))]),
            ]),
        ),
    ])
}

#[test]
fn json_feed_keeps_items_with_an_id_and_a_body() {
    let draft = parse(&json_feed(), "https://example.com/feed.json").unwrap();
    assert_eq!(draft.title.as_deref(), Some("Site"));
    assert_eq!(draft.home_page_url.as_deref(), Some("https://example.com/"));
    assert_eq!(draft.feed_url.as_deref(), Some("https://example.com/feed.json"));
    let ids: Vec<Option<&str>> = draft.items.iter().map(|i| i.id.as_deref()).collect();
    assert_eq!(ids, vec![Some("one"), Some("7"), Some("1.5")]);
    let first = &draft.items[0];
    assert_eq!(first.content_html.as_deref(), Some("<p>Hi</p>"));
    assert_eq!(first.image_url.as_deref(), Some("https://example.com/i.png"));
    assert_eq!(first.published_text.as_deref(), Some("2020-01-01T00:00:00Z"));
    assert_eq!(first.authors.len(), 1);
    assert_eq!(first.authors[0].name.as_deref(), Some("Ann"));
    assert_eq!(first.attachments.len(), 1);
    assert_eq!(first.attachments[0].url, "https://example.com/a.mp3");
    assert_eq!(first.attachments[0].size_in_bytes, Some(1234));
    assert_eq!(draft.items[1].content_text.as_deref(), Some("seven"));
}

#[test]
fn json_feed_url_of_the_document_wins() {
    let root = obj(vec![
        ("version", s("https://jsonfeed.org/version/1")),
        ("title", s("T")),
        ("feed_url", s("https://example.com/own.json")),
        ("items", JsonValue::Array(vec![])),
    ]);
    let draft = parse_json_feed(&root, "https://example.com/fetched.json").unwrap();
    assert_eq!(draft.feed_url.as_deref(), Some("https://example.com/own.json"));
    assert!(draft.items.is_empty());
}

#[test]
fn json_feed_errors_name_what_is_missing() {
    let no_title = obj(vec![("version", s("https://jsonfeed.org/version/1.1")), ("items", JsonValue::Array(vec![]))]);
    assert_eq!(
        parse(&no_title, "u").err(),
        Some(ParseError::Malformed("JSON Feed missing title".to_string()))
    );
    let no_items = obj(vec![("version", s("https://jsonfeed.org/version/1.1")), ("title", s("T"))]);
    assert_eq!(
        parse(&no_items, "u").err(),
        Some(ParseError::Malformed("JSON Feed items not found".to_string()))
    );
}

#[test]
fn json_feed_single_author_object_is_read() {
    let item = obj(vec![
        ("id", s("1")),
        ("content_text", s("x")),
        ("author", obj(vec![("url", s("https://ann.example")), ("avatar", s("https://ann.example/a.png"))])),
    ]);
    let root = obj(vec![
        ("version", s("https://jsonfeed.org/version/1.1")),
        ("title", s("T")),
        ("items", JsonValue::Array(vec![item])),
    ]);
    let draft = parse(&root, "u").unwrap();
    let authors = &draft.items[0].authors;
    assert_eq!(authors.len(), 1);
    assert_eq!(authors[0].name, None);
    assert_eq!(authors[0].url.as_deref(), Some("https://ann.example"));
    assert_eq!(authors[0].avatar_url.as_deref(), Some("https://ann.example/a.png"));
}

#[test]
fn jf_attachments_skip_entries_without_a_url() {
    let item = obj(vec![(
        "attachments",
        JsonValue::Array(vec![
            obj(vec![("url", s("https://e/x")), ("title", s("X")), ("duration_in_seconds", n(60))]),
            obj(vec![("url", n(3))]),
        ]),
    )]);
    let a = parse_jf_attachments(&item);
    assert_eq!(a.len(), 1);
    assert_eq!(a[0].title.as_deref(), Some("X"));
    assert_eq!(a[0].duration_in_seconds, Some(60));
    assert!(parse_jf_attachments(&obj(vec![])).is_empty());
}

fn rss_json() -> JsonValue {
    obj(vec![(
        "rss",
        obj(vec![(
            "channel",
            obj(vec![
                ("title", s("Chan")),
                ("link", s("https://chan.example/")),
                (
                    "item",
                    JsonValue::Array(vec![
                        obj(vec![
                            ("title", s("A")),
                            ("description", s("plain text")),
                            ("author", s("a@example.com")),
                            ("guid", s("g-1")),
                            ("pubDate", s("Mon, 01 Jan 2024 00:00:00 GMT")),
                        ]),
                        obj(vec![("description", s("<b>bold</b>")), ("link", s("https://l.example/2"))]),
                        obj(vec![("link", s("https://l.example/3"))]),
                    ]),
                ),
            ]),
        )]),
    )])
}

#[test]
fn rss_in_json_reads_channel_and_items() {
    let draft = parse(&rss_json(), "https://chan.example/feed").unwrap();
    assert_eq!(draft.title.as_deref(), Some("Chan"));
    assert_eq!(draft.home_page_url.as_deref(), Some("https://chan.example/"));
    assert_eq!(draft.feed_url.as_deref(), Some("https://chan.example/feed"));
    assert_eq!(draft.items.len(), 2);
    let a = &draft.items[0];
    assert_eq!(a.id.as_deref(), Some("g-1"));
    assert_eq!(a.content_text.as_deref(), Some("plain text"));
    assert_eq!(a.content_html, None);
    assert_eq!(a.authors[0].email.as_deref(), Some("a@example.com"));
    assert_eq!(a.published_text.as_deref(), Some("Mon, 01 Jan 2024 00:00:00 GMT"));
    let b = &draft.items[1];
    assert_eq!(b.id, None);
    assert_eq!(b.content_html.as_deref(), Some("<b>bold</b>"));
    assert_eq!(b.external_url.as_deref(), Some("https://l.example/2"));
}

#[test]
fn rss_in_json_derives_missing_ids_from_time_title_link_and_email() {
    let draft = parse_rss_in_json(&rss_json(), "u").unwrap();
    let feed = finish_json(draft, &vec![(Some(1704067200), None), (Some(-5), None)]);
    assert_eq!(feed.items[0].id, "g-1");
    assert_eq!(feed.items[0].date_published, Some(1704067200));
    assert_eq!(feed.items[1].id, md5_hex("-5https://l.example/2"));
    assert_eq!(feed.items[1].date_published, Some(-5));
    let draft = parse_rss_in_json(&rss_json(), "u").unwrap();
    let feed = finish_json(draft, &vec![]);
    assert_eq!(feed.items[1].id, md5_hex("https://l.example/2"));
    assert_eq!(feed.items[1].date_published, None);
}

#[test]
fn rss_in_json_body_stands_in_for_an_empty_id_source() {
    let root = obj(vec![(
        "rss",
        obj(vec![("channel", obj(vec![("items", JsonValue::Array(vec![obj(vec![("description", s("only"))])]))]))]),
    )]);
    let feed = finish_json(parse(&root, "u").unwrap(), &vec![]);
    assert_eq!(feed.items[0].id, md5_hex("only"));
    assert_eq!(feed.items[0].content_text.as_deref(), Some("only"));
}

#[test]
fn rss_in_json_items_must_be_an_array_where_first_found() {
    let root = obj(vec![
        ("rss", obj(vec![("channel", obj(vec![("item", s("not a list"))]))])),
        ("item", JsonValue::Array(vec![])),
    ]);
    assert_eq!(parse(&root, "u").err(), Some(ParseError::Malformed("RSS items not found".to_string())));
    let root = obj(vec![
        ("rss", obj(vec![("channel", obj(vec![]))])),
        ("items", JsonValue::Array(vec![obj(vec![("title", s("root item"))])])),
    ]);
    assert_eq!(parse(&root, "u").unwrap().items.len(), 1);
}

#[test]
fn rss_in_json_without_a_channel_object_is_reported() {
    let root = obj(vec![("rss", obj(vec![("channel", s("x"))]))]);
    assert_eq!(parse_rss_in_json(&root, "u").err(), Some(ParseError::Malformed("RSS channel not found".to_string())));
}

#[test]
fn other_json_is_of_unknown_format() {
    assert_eq!(parse(&obj(vec![("version", s("1.0"))]), "u").err(), Some(ParseError::UnknownFormat));
    assert_eq!(parse(&obj(vec![("rss", obj(vec![("channel", s("x"))]))]), "u").err(), Some(ParseError::UnknownFormat));
    assert_eq!(parse(&JsonValue::Array(vec![]), "u").err(), Some(ParseError::UnknownFormat));
}

#[test]
fn finishing_keeps_json_feed_ids_and_sets_both_dates() {
    let draft = parse(&json_feed(), "u").unwrap();
    let feed = finish_json(draft, &vec![(Some(10), Some(20))]);
    assert_eq!(feed.items.len(), 3);
    assert_eq!(feed.items[0].id, "one");
    assert_eq!(feed.items[0].date_published, Some(10));
    assert_eq!(feed.items[0].date_modified, Some(20));
    assert_eq!(feed.items[1].date_published, None);
    assert_eq!(feed.title.as_deref(), Some("Site"));
}

#[test]
fn any_feed_reads_json_first_then_xml() {
    let rss = b"<rss><channel><title>X</title><item><title>i</title></item></channel></rss>";
    match parse_any(rss, None, "u").unwrap() {
        FeedDraft::Rss(d) => assert_eq!(d.items.len(), 1),
        _ => panic!("expected RSS"),
    }
    let root = json_feed();
    match parse_any(b"{}", Some(&root), "u").unwrap() {
        FeedDraft::Json(d) => assert_eq!(d.items.len(), 3),
        _ => panic!("expected JSON"),
    }
    let not_a_feed = obj(vec![("a", n(1))]);
    assert_eq!(parse_any(b"{\"a\":1}", Some(&not_a_feed), "u").err(), Some(ParseError::UnknownFormat));
    match parse_any(b"<feed><entry><id>e</id></entry></feed>", Some(&not_a_feed), "u").unwrap() {
        FeedDraft::Atom(d) => assert_eq!(d.items.len(), 1),
        _ => panic!("expected Atom"),
    }
}

#[test]
fn xml_feeds_are_told_apart_by_their_first_named_element() {
    match parse_feed(b"<rdf:RDF><item><title>t</title></item></rdf:RDF>", "u").unwrap() {
        FeedDraft::Rss(d) => assert_eq!(d.items.len(), 1),
        _ => panic!("expected RSS 1.0"),
    }
    assert_eq!(parse_feed(b"<opml><body/></opml>", "u").err(), Some(ParseError::UnknownFormat));
    assert_eq!(parse_feed(b"<html/>", "u").err(), Some(ParseError::UnknownFormat));
    assert_eq!(parse_feed(b"", "u").err(), Some(ParseError::UnknownFormat));
}
