use viaduct_core::error::ParseError;
use viaduct_core::models::Attachment;
use viaduct_core::parser::xml::{
    atom_type_is_xhtml, attachment_from_attrs, effective_base_url, handle_atom_link_attributes, resolved_html_body,
    resolved_url_string, AtomLinkCtx,
    calculate_id, guid_looks_like_url, has_opml_marker, opml_document_from_events, parse_opml, resolve_url,
    rss_prefix_is_consumed, AtomLinkRel, MutableAuthor,
};
use viaduct_core::parser::xml_reader::{trimmed_text_of, xml_events, XmlEvent};

#[test]
fn guid_heuristic_needs_slash_no_space_no_tag_scheme() {
    assert!(guid_looks_like_url("https://example.com/post/1"));
    assert!(!guid_looks_like_url("https://example.com/a b"));
    assert!(!guid_looks_like_url("12345"));
    assert!(!guid_looks_like_url("TAG:example.com,2024:/post/1"));
}

#[test]
fn calculate_id_prefers_guid_then_hashes_permalink_with_date() {
    assert_eq!(calculate_id(Some("g-1"), Some("p"), None, None, None, Some(1)), "g-1");
    assert_eq!(
        calculate_id(Some(""), Some("https://example.com/p/1"), Some("l"), None, None, Some(1_700_000_000)),
        "601be2b8464d2525fbee6da6e417b434"
    );
    assert_eq!(calculate_id(None, None, None, Some("Hello"), None, None), "8b1a9953c4611296a827abf8c47804d7");
    assert_eq!(calculate_id(None, None, None, None, None, None), "d41d8cd98f00b204e9800998ecf8427e");
}

#[test]
fn resolve_url_keeps_absolute_and_joins_relative() {
    assert_eq!(resolve_url("HTTPS://a.example/x", Some("https://b.example/")), "HTTPS://a.example/x");
    assert_eq!(resolve_url("img/a.png", Some("https://b.example/blog/")), "https://b.example/blog/img/a.png");
    assert_eq!(resolve_url("img/a.png", None), "img/a.png");
    assert_eq!(resolve_url("img/a.png", Some("not a url")), "img/a.png");
}

#[test]
fn namespace_prefixes_that_are_consumed() {
    assert!(rss_prefix_is_consumed(b"dc"));
    assert!(rss_prefix_is_consumed(b"content"));
    assert!(rss_prefix_is_consumed(b"media"));
    assert!(!rss_prefix_is_consumed(b"itunes"));
}

#[test]
fn atom_link_rel_values() {
    assert_eq!(AtomLinkRel::from_str("alternate"), AtomLinkRel::Alternate);
    assert_eq!(AtomLinkRel::from_str("related"), AtomLinkRel::Related);
    assert_eq!(AtomLinkRel::from_str("enclosure"), AtomLinkRel::Enclosure);
    assert_eq!(AtomLinkRel::from_str("Alternate"), AtomLinkRel::Other);
}

#[test]
fn mutable_author_builds_only_when_something_was_seen() {
    assert!(MutableAuthor::default().build().is_none());
    let a = MutableAuthor { name: Some("Ann".to_string()), email: None, url: None }.build().expect("author");
    assert_eq!(a.name.as_deref(), Some("Ann"));
    assert!(a.avatar_url.is_none());
}

#[test]
fn opml_marker_is_case_insensitive_and_bounded() {
    assert!(has_opml_marker(b"<?xml version=\"1.0\"?><OPML version=\"2.0\">"));
    assert!(!has_opml_marker(b"<rss version=\"2.0\">"));
    assert!(has_opml_marker(b"<opml"));
    assert!(!has_opml_marker(b"<opm"));
    let mut far = vec![b' '; 5000];
    far.extend_from_slice(b"<opml>");
    assert!(!has_opml_marker(&far));
}

#[test]
fn parse_opml_builds_nested_outlines() {
    let xml = br#"<?xml version="1.0"?>
<opml version="1.1">
  <head><title>My Subs</title></head>
  <body>
    <outline text="Tech" title="Tech">
      <outline text="A" xmlUrl="https://a.example/feed" htmlUrl="https://a.example/"/>
      <outline text="Inner"><outline text="B" xmlUrl="https://b.example/feed"/></outline>
    </outline>
    <outline text="C" title="C title" xmlUrl="https://c.example/rss"/>
  </body>
</opml>"#;
    let doc = parse_opml(xml).expect("opml");
    assert_eq!(doc.title.as_deref(), Some("My Subs"));
    assert_eq!(doc.items.len(), 2);
    let tech = &doc.items[0];
    assert_eq!(tech.title.as_deref(), Some("Tech"));
    assert_eq!(tech.children.len(), 2);
    assert_eq!(tech.children[0].xml_url.as_deref(), Some("https://a.example/feed"));
    assert_eq!(tech.children[0].html_url.as_deref(), Some("https://a.example/"));
    assert_eq!(tech.children[1].children[0].text.as_deref(), Some("B"));
    assert_eq!(doc.items[1].title.as_deref(), Some("C title"));
    assert_eq!(doc.items[1].xml_url.as_deref(), Some("https://c.example/rss"));
}

#[test]
fn parse_opml_rejects_non_opml() {
    assert_eq!(parse_opml(b"<rss version=\"2.0\"></rss>"), Err(ParseError::UnknownFormat));
}

#[test]
fn parse_opml_keeps_raw_attribute_values_and_unescaped_title() {
    let xml = br#"<opml><head><title>A &amp; B</title></head><body><outline text="x &amp; y"/></body></opml>"#;
    let doc = parse_opml(xml).expect("opml");
    assert_eq!(doc.title.as_deref(), Some("A & B"));
    assert_eq!(doc.items[0].text.as_deref(), Some("x &amp; y"));
}

#[test]
fn title_inside_an_outline_is_not_the_document_title() {
    let xml = br#"<opml><body><outline text="f"><title>inner</title></outline></body></opml>"#;
    let doc = parse_opml(xml).expect("opml");
    assert!(doc.title.is_none());
    assert_eq!(doc.items.len(), 1);
}

#[test]
fn unclosed_outline_is_dropped_at_end_of_input() {
    let events = vec![
        XmlEvent::Start {
            name: b"outline".to_vec(),
            attributes: vec![(b"text".to_vec(), b"open".to_vec())],
            raw: b"outline text=\"open\"".to_vec(),
        },
        XmlEvent::Empty {
            name: b"outline".to_vec(),
            attributes: vec![(b"text".to_vec(), b"child".to_vec())],
            raw: b"outline text=\"child\"".to_vec(),
        },
    ];
    let doc = opml_document_from_events(&events);
    assert!(doc.items.is_empty());
    assert!(doc.title.is_none());
}

#[test]
fn last_attribute_of_a_name_wins() {
    let events = vec![XmlEvent::Empty {
        name: b"outline".to_vec(),
        attributes: vec![(b"text".to_vec(), b"one".to_vec()), (b"text".to_vec(), b"two".to_vec())],
        raw: b"outline text=\"one\" text=\"two\"".to_vec(),
    }];
    let doc = opml_document_from_events(&events);
    assert_eq!(doc.items[0].text.as_deref(), Some("two"));
}

#[test]
fn xml_events_reads_tags_and_raw_text() {
    let events = xml_events(b"<a x=\"1\"> hi &amp; </a><b/><!--c--><![CDATA[d]]>");
    assert_eq!(
        events,
        vec![
            XmlEvent::Start {
                name: b"a".to_vec(),
                attributes: vec![(b"x".to_vec(), b"1".to_vec())],
                raw: b"a x=\"1\"".to_vec(),
            },
            XmlEvent::Text { raw: b" hi &amp; ".to_vec() },
            XmlEvent::End { name: b"a".to_vec() },
            XmlEvent::Empty { name: b"b".to_vec(), attributes: vec![], raw: b"b".to_vec() },
            XmlEvent::Comment { raw: b"c".to_vec() },
            XmlEvent::CData { raw: b"d".to_vec() },
        ]
    );
}

#[test]
fn text_is_trimmed_and_unescaped_as_a_trimming_reader_reads_it() {

    assert_eq!(trimmed_text_of(&b" \n\t ".to_vec()), None);
    assert_eq!(trimmed_text_of(&b" hi &amp; you ".to_vec()), Some(Some("hi & you".to_string())));
    assert_eq!(trimmed_text_of(&b"a &bogus; b".to_vec()), Some(None));
    assert_eq!(trimmed_text_of(&vec![b'x', 0xff]), Some(None));
}

fn attrs(pairs: &[(&str, &str)]) -> Vec<(Vec<u8>, Vec<u8>)> {
    pairs.iter().map(|(k, v)| (k.as_bytes().to_vec(), v.as_bytes().to_vec())).collect()
}

#[test]
fn enclosure_attributes_become_an_attachment() {
    let a = attachment_from_attrs(
        &attrs(&[("url", "https://e.example/a.mp3"), ("type", "audio/mpeg"), ("length", "1234")]),
        b"length",
    )
    .expect("attachment");
    assert_eq!(
        a,
        Attachment {
            url: "https://e.example/a.mp3".to_string(),
            mime_type: Some("audio/mpeg".to_string()),
            title: None,
            size_in_bytes: Some(1234),
            duration_in_seconds: None,
        }
    );
    let m = attachment_from_attrs(
        &attrs(&[("url", "v.mp4"), ("fileSize", "0"), ("duration", "61"), ("length", "9")]),
        b"fileSize",
    )
    .expect("media");
    assert_eq!(m.size_in_bytes, None);
    assert_eq!(m.duration_in_seconds, Some(61));
    assert!(attachment_from_attrs(&attrs(&[("url", ""), ("type", "x")]), b"length").is_none());
    assert!(attachment_from_attrs(&attrs(&[("type", "x")]), b"length").is_none());
}

#[test]
fn xhtml_type_detection_ignores_ascii_case() {
    assert!(atom_type_is_xhtml(&attrs(&[("type", "XHTML")])));
    assert!(!atom_type_is_xhtml(&attrs(&[("type", "html")])));
    assert!(!atom_type_is_xhtml(&attrs(&[("mode", "xhtml")])));
}

#[test]
fn xml_base_resolution_helpers() {
    assert_eq!(
        resolved_url_string("p/1".to_string(), Some("https://e.example/blog/")),
        "https://e.example/blog/p/1"
    );
    assert_eq!(resolved_url_string("p/1".to_string(), None), "p/1");
    let body = "<a href=\"x.html\">x</a>".to_string();
    assert_eq!(
        resolved_html_body(body.clone(), Some("html"), Some("https://e.example/d/")),
        "<a href=\"https://e.example/d/x.html\">x</a>"
    );
    assert_eq!(resolved_html_body(body.clone(), Some("text"), Some("https://e.example/d/")), body);
    assert_eq!(resolved_html_body(body.clone(), Some("html"), None), body);
}

#[test]
fn effective_base_composes_and_rejects_non_http() {
    let inner = effective_base_url(
        Some("https://e.example/a/".to_string()),
        &attrs(&[("xml:base", "b/")]),
        Some("https://feed.example/feed"),
    );
    assert_eq!(inner.as_deref(), Some("https://e.example/a/b/"));
    let from_doc = effective_base_url(None, &attrs(&[("xml:base", "/root/")]), Some("https://feed.example/feed"));
    assert_eq!(from_doc.as_deref(), Some("https://feed.example/root/"));
    let tag = effective_base_url(
        Some("https://e.example/a/".to_string()),
        &attrs(&[("xml:base", "tag:e.example,2024:x")]),
        None,
    );
    assert_eq!(tag.as_deref(), Some("https://e.example/a/"));
    assert_eq!(effective_base_url(None, &attrs(&[("xml:base", "b/")]), None), None);
    let escaped = effective_base_url(None, &attrs(&[("xml:base", "q?a=1&amp;b=2")]), Some("https://f.example/"));
    assert_eq!(escaped.as_deref(), Some("https://f.example/q?a=1&b=2"));
}

fn ctx() -> AtomLinkCtx {
    AtomLinkCtx {
        in_item: true,
        in_author: false,
        in_source: false,
        xml_base: None,
        home_page_url: Some("https://home.example/".to_string()),
        current_item_permalink: None,
        current_item_link: None,
        current_item_attachments: Vec::new(),
        current_author: None,
    }
}

#[test]
fn atom_links_fill_permalink_link_and_enclosures() {
    let mut c = ctx();
    handle_atom_link_attributes(&attrs(&[("href", "posts/1")]), &mut c);
    assert_eq!(c.current_item_permalink.as_deref(), Some("https://home.example/posts/1"));
    handle_atom_link_attributes(&attrs(&[("href", "posts/2"), ("rel", "alternate")]), &mut c);
    assert_eq!(c.current_item_permalink.as_deref(), Some("https://home.example/posts/1"));
    handle_atom_link_attributes(&attrs(&[("rel", "related"), ("href", "https://r.example/")]), &mut c);
    assert_eq!(c.current_item_link.as_deref(), Some("https://r.example/"));
    handle_atom_link_attributes(
        &attrs(&[("rel", "enclosure"), ("href", "a.mp3"), ("type", "audio/mpeg"), ("length", "10"), ("title", "Ep")]),
        &mut c,
    );
    assert_eq!(c.current_item_attachments.len(), 1);
    assert_eq!(c.current_item_attachments[0].url, "https://home.example/a.mp3");
    assert_eq!(c.current_item_attachments[0].title.as_deref(), Some("Ep"));
    handle_atom_link_attributes(&attrs(&[("rel", "enclosure"), ("href", "")]), &mut c);
    assert_eq!(c.current_item_attachments.len(), 1);
}

#[test]
fn atom_links_in_source_author_and_feed_level() {
    let mut c = ctx();
    c.in_source = true;
    handle_atom_link_attributes(&attrs(&[("href", "x")]), &mut c);
    assert!(c.current_item_permalink.is_none());

    let mut c = ctx();
    c.in_author = true;
    c.current_author = Some(MutableAuthor::default());
    c.xml_base = Some("https://base.example/people/".to_string());
    handle_atom_link_attributes(&attrs(&[("href", "ann")]), &mut c);
    assert_eq!(c.current_author.as_ref().and_then(|a| a.url.as_deref()), Some("https://base.example/people/ann"));
    assert!(c.current_item_permalink.is_none());

    let mut c = ctx();
    c.in_item = false;
    c.home_page_url = None;
    handle_atom_link_attributes(&attrs(&[("href", "https://site.example/"), ("rel", "self")]), &mut c);
    assert!(c.home_page_url.is_none());
    handle_atom_link_attributes(&attrs(&[("href", "https://site.example/")]), &mut c);
    assert_eq!(c.home_page_url.as_deref(), Some("https://site.example/"));
}

#[test]
fn a_mismatched_end_tag_is_reported_and_reading_goes_on() {
    let events = xml_events(b"<a><b></c><d/></a>");
    assert_eq!(
        events,
        vec![
            XmlEvent::Start { name: b"a".to_vec(), attributes: vec![], raw: b"a".to_vec() },
            XmlEvent::Start { name: b"b".to_vec(), attributes: vec![], raw: b"b".to_vec() },
            XmlEvent::Malformed,
            XmlEvent::Empty { name: b"d".to_vec(), attributes: vec![], raw: b"d".to_vec() },
            XmlEvent::End { name: b"a".to_vec() },
        ]
    );
}

#[test]
fn opml_keeps_what_came_before_a_mismatched_end_tag() {
    let doc = parse_opml(
        br#"<opml><body><outline text="one"/><outline text="two"></bogus><outline text="three"/></body></opml>"#,
    )
    .unwrap();
    assert_eq!(doc.items.len(), 1);
    assert_eq!(doc.items[0].text.as_deref(), Some("one"));
}
