use viaduct_core::parser::rss::{feed_format, finish_rss, parse_rss, rss_draft_from_events, FeedFormat};
use viaduct_core::parser::xml_reader::xml_events;

#[test]
fn rss_cdata_description_captured_as_body() {
    // Many WordPress / Jekyll feeds wrap <description> in CDATA; the
    // body must be kept.
    let xml = br#"<?xml version="1.0"?>
<rss version="2.0"><channel>
  <title>Site</title>
  <item>
<title>Post</title>
<link>https://example.com/post</link>
<description><![CDATA[<p>Hello <a href="https://example.com">world</a>.</p>]]></description>
<pubDate>Mon, 27 Apr 2026 11:29:30 GMT</pubDate>
  </item>
</channel></rss>"#;
    let feed = parse_rss(xml, "https://example.com/feed", false).unwrap();
    assert_eq!(feed.items.len(), 1);
    let body = feed.items[0].content_html.as_deref().unwrap_or("");
    assert!(body.contains("<p>Hello "), "missing CDATA body: {body}");
    assert!(body.contains("<a href"), "missing CDATA link: {body}");
}

#[test]
fn rss_cdata_content_encoded_overrides_description() {
    // <content:encoded> is the full body; <description> is the
    // summary. content:encoded is preferred — confirm
    // it works through CDATA too.
    let xml = br#"<?xml version="1.0"?>
<rss version="2.0" xmlns:content="http://purl.org/rss/1.0/modules/content/"><channel>
  <title>Site</title>
  <item>
<title>Post</title>
<description><![CDATA[<p>Short summary.</p>]]></description>
<content:encoded><![CDATA[<p>Full article body with <strong>everything</strong>.</p>]]></content:encoded>
  </item>
</channel></rss>"#;
    let feed = parse_rss(xml, "https://example.com/feed", false).unwrap();
    let body = feed.items[0].content_html.as_deref().unwrap_or("");
    assert!(body.contains("Full article body"), "body lost: {body}");
    assert!(!body.contains("Short summary"), "summary leaked: {body}");
}

#[test]
fn rss_enclosure_and_media_content_become_attachments() {
    let xml = br#"<?xml version="1.0"?>
<rss version="2.0" xmlns:media="http://search.yahoo.com/mrss/">
  <channel>
<title>Pod</title>
<item>
  <title>Episode 1</title>
  <enclosure url="https://example.com/ep1.mp3" length="12345" type="audio/mpeg"/>
  <media:content url="https://example.com/ep1.mp4" type="video/mp4" fileSize="98765" duration="600"/>
  <media:thumbnail url="https://example.com/thumb.jpg"/>
</item>
  </channel>
</rss>"#;
    let feed = parse_rss(xml, "https://example.com/feed", false).unwrap();
    assert_eq!(feed.items.len(), 1);
    let atts = &feed.items[0].attachments;
    assert_eq!(atts.len(), 3);
    assert_eq!(atts[0].url, "https://example.com/ep1.mp3");
    assert_eq!(atts[0].mime_type.as_deref(), Some("audio/mpeg"));
    assert_eq!(atts[0].size_in_bytes, Some(12345));
    assert_eq!(atts[1].url, "https://example.com/ep1.mp4");
    assert_eq!(atts[1].duration_in_seconds, Some(600));
    assert_eq!(atts[2].url, "https://example.com/thumb.jpg");
}

#[test]
fn rss_channel_image_and_language_captured() {
    let xml = br#"<?xml version="1.0"?>
<rss version="2.0">
  <channel>
<title>Site</title>
<language>en-us</language>
<image>
  <url>https://example.com/logo.png</url>
  <title>Site Logo</title>
</image>
<item><title>Hi</title></item>
  </channel>
</rss>"#;
    let feed = parse_rss(xml, "https://example.com/feed", false).unwrap();
    assert_eq!(
        feed.icon_url.as_deref(),
        Some("https://example.com/logo.png")
    );
    assert_eq!(feed.language.as_deref(), Some("en-us"));
}

#[test]
fn rss_namespaced_section_does_not_overwrite_item_fields() {
    // An unprefixed <title>Default Title</title> nested inside a
    // namespaced <s:variant> must not overwrite the item's real title,
    // while the dc:/content: elements we DO consume keep parsing.
    let xml = br#"<?xml version="1.0" encoding="UTF-8"?>
<rss version="2.0"
 xmlns:dc="http://purl.org/dc/elements/1.1/"
 xmlns:content="http://purl.org/rss/1.0/modules/content/"
 xmlns:s="http://jadedpixel.com/-/spec/shopify">
  <channel>
<title>Test Shop</title>
<link>https://example.com</link>
<description>Test feed for #4422.</description>
<item>
  <title>Real Product Title</title>
  <link>https://example.com/products/1</link>
  <guid>https://example.com/products/1</guid>
  <dc:creator>Jane Maker</dc:creator>
  <content:encoded><![CDATA[<p>Body HTML</p>]]></content:encoded>
  <s:type>Periodical</s:type>
  <s:variant>
    <id>https://example.com/products/1</id>
    <title>Default Title</title>
    <s:price currency="USD">9.99</s:price>
    <s:sku/>
  </s:variant>
</item>
  </channel>
</rss>"#;
    let feed = parse_rss(xml, "https://example.com/feed", false).unwrap();
    assert_eq!(feed.items.len(), 1);
    let item = &feed.items[0];
    assert_eq!(item.title.as_deref(), Some("Real Product Title"));
    assert_eq!(item.content_html.as_deref(), Some("<p>Body HTML</p>"));
    assert_eq!(item.authors.len(), 1);
    assert_eq!(item.authors[0].name.as_deref(), Some("Jane Maker"));
}

#[test]
fn rss_namespaced_section_before_real_fields_is_ignored() {
    // The harder case the is_none guards can't catch on their own: the
    // namespaced section precedes the real elements and carries a nested
    // <author>. Without the subtree skip the bogus title would latch and
    // the spam author would be added.
    let xml = br#"<?xml version="1.0"?>
<rss version="2.0" xmlns:s="http://example.com/s">
  <channel>
<title>Shop</title>
<item>
  <s:variant>
    <title>Default Title</title>
    <author>bot@spam.example</author>
    <link>https://example.com/wrong</link>
  </s:variant>
  <title>Real Title</title>
  <link>https://example.com/right</link>
  <guid>g1</guid>
</item>
  </channel>
</rss>"#;
    let feed = parse_rss(xml, "https://example.com/feed", false).unwrap();
    let item = &feed.items[0];
    assert_eq!(item.title.as_deref(), Some("Real Title"));
    assert!(item.authors.is_empty());
    assert_eq!(
        item.external_url.as_deref(),
        Some("https://example.com/right")
    );
}

#[test]
fn rss_media_content_survives_namespace_skip() {
    // MRSS is consumed, so media:* must NOT be
    // swallowed by the namespace skip even when a sibling <s:variant> is.
    let xml = br#"<?xml version="1.0"?>
<rss version="2.0"
 xmlns:media="http://search.yahoo.com/mrss/"
 xmlns:s="http://example.com/s">
  <channel>
<title>Shop</title>
<item>
  <title>Real Title</title>
  <guid>g1</guid>
  <media:content url="https://example.com/video.mp4" type="video/mp4"/>
  <media:group>
    <media:thumbnail url="https://example.com/thumb.jpg"/>
  </media:group>
  <s:variant><title>Default Title</title></s:variant>
</item>
  </channel>
</rss>"#;
    let feed = parse_rss(xml, "https://example.com/feed", false).unwrap();
    let item = &feed.items[0];
    assert_eq!(item.title.as_deref(), Some("Real Title"));
    assert_eq!(item.attachments.len(), 2);
    let urls: Vec<&str> = item.attachments.iter().map(|a| a.url.as_str()).collect();
    assert!(urls.contains(&"https://example.com/video.mp4"));
    assert!(urls.contains(&"https://example.com/thumb.jpg"));
}

#[test]
fn html_named_entities_decode_rather_than_dropping_the_text() {
    // Regression: unescape() returns Err on any entity outside the five
    // predefined XML ones, and the callers treat Err as "skip this text",
    // so before the quick-xml escape-html feature every one of these
    // titles parsed to None instead of merely keeping the raw entity.
    let xml = r#"<?xml version="1.0"?>
<rss version="2.0"><channel><title>Chan</title>
  <item><guid>g1</guid><title>Tom &mdash; Jerry</title></item>
  <item><guid>g2</guid><title>Mary&rsquo;s &ldquo;cat&rdquo;</title></item>
  <item><guid>g3</guid><title>Tom &amp; Jerry &#8212; live</title></item>
</channel></rss>"#;
    let feed = parse_rss(xml.as_bytes(), "https://example.com/feed", false).unwrap();
    let titles: Vec<_> = feed
        .items
        .iter()
        .filter_map(|i| i.title.as_deref())
        .collect();
    assert_eq!(
        titles,
        vec!["Tom — Jerry", "Mary’s “cat”", "Tom & Jerry — live"]
    );
}

#[test]
fn zero_width_entities_decode() {
    // &zwj;/&zwnj; carry emoji ZWJ sequences and Indic /
    // Arabic / Persian shaping, so an undecoded one is a rendering bug.
    let xml = r#"<?xml version="1.0"?>
<rss version="2.0"><channel><title>Chan</title>
  <item><guid>g1</guid><title>a&zwj;b</title><description>c&zwnj;d</description></item>
</channel></rss>"#;
    let feed = parse_rss(xml.as_bytes(), "https://example.com/feed", false).unwrap();
    assert_eq!(feed.items[0].title.as_deref(), Some("a\u{200D}b"));
    assert_eq!(feed.items[0].content_html.as_deref(), Some("c\u{200C}d"));
}


#[test]
fn rdf_items_take_guid_and_permalink_from_rdf_about() {
    let xml = br#"<?xml version="1.0"?>
<rdf:RDF xmlns:rdf="http://www.w3.org/1999/02/22-rdf-syntax-ns#" xmlns="http://purl.org/rss/1.0/">
  <channel rdf:about="https://example.com/"><title>RDF Site</title><link>https://example.com/</link></channel>
  <item rdf:about="https://example.com/a"><title>A</title></item>
</rdf:RDF>
<item><title>after the end</title></item>"#;
    let feed = parse_rss(xml, "https://example.com/feed", true).unwrap();
    assert_eq!(feed.title.as_deref(), Some("RDF Site"));
    assert_eq!(feed.items.len(), 1);
    assert_eq!(feed.items[0].guid.as_deref(), Some("https://example.com/a"));
    assert_eq!(feed.items[0].url.as_deref(), Some("https://example.com/a"));
}

#[test]
fn guid_marked_not_permalink_is_not_a_url() {
    let xml = br#"<rss><channel><link>https://example.com/</link>
<item><guid isPermaLink="FALSE">https://example.com/x</guid></item>
<item><guid>posts/2</guid><link>posts/2.html</link><author>https://example.com/me</author></item>
</channel></rss>"#;
    let feed = parse_rss(xml, "https://example.com/feed", false).unwrap();
    assert_eq!(feed.items[0].url, None);
    assert_eq!(feed.items[0].guid.as_deref(), Some("https://example.com/x"));
    assert_eq!(feed.items[1].url.as_deref(), Some("https://example.com/posts/2"));
    assert_eq!(feed.items[1].external_url.as_deref(), Some("https://example.com/posts/2.html"));
    assert_eq!(feed.items[1].authors[0].url.as_deref(), Some("https://example.com/me"));
}

#[test]
fn channel_image_resolves_against_feed_url_without_home_page() {
    let xml = br#"<rss><channel><image><url>/logo.png</url></image></channel></rss>"#;
    let feed = parse_rss(xml, "https://example.com/rss/feed.xml", false).unwrap();
    assert_eq!(feed.icon_url.as_deref(), Some("https://example.com/logo.png"));
    assert_eq!(feed.feed_url.as_deref(), Some("https://example.com/rss/feed.xml"));
}

#[test]
fn finishing_takes_the_first_parsed_date_and_derives_ids() {
    let xml = br#"<rss><channel>
<item><guid>g1</guid><pubDate>bad</pubDate><dc:date>good</dc:date></item>
<item><title>T</title><link>https://example.com/t</link></item>
</channel></rss>"#;
    let events = xml_events(xml);
    let draft = rss_draft_from_events(&events, "https://example.com/feed", false);
    assert_eq!(draft.items[0].date_texts, vec!["bad".to_string(), "good".to_string()]);
    let feed = finish_rss(draft, &vec![vec![None, Some(1_700_000_000)], vec![]]);
    assert_eq!(feed.items[0].id, "g1");
    assert_eq!(feed.items[0].date_published, Some(1_700_000_000));
    assert_eq!(feed.items[1].date_published, None);
    assert_eq!(feed.items[1].id.len(), 32);
    assert_ne!(feed.items[1].id, "https://example.com/t");
    assert_eq!(feed.items[1].external_url.as_deref(), Some("https://example.com/t"));
}

#[test]
fn feed_format_follows_the_first_named_element() {

    assert_eq!(feed_format(b"<?xml version=\"1.0\"?><rss version=\"2.0\"></rss>"), FeedFormat::Rss);
    assert_eq!(feed_format(b"<rdf:RDF xmlns:rdf=\"x\"></rdf:RDF>"), FeedFormat::Rdf);
    assert_eq!(feed_format(b"<feed xmlns=\"http://www.w3.org/2005/Atom\"/>"), FeedFormat::Atom);
    assert_eq!(feed_format(b"<wrapper><opml version=\"2.0\"/></wrapper>"), FeedFormat::Opml);
    assert_eq!(feed_format(b"<html><body>no feed</body></html>"), FeedFormat::Unknown);
}

#[test]
fn rss_reading_stops_at_a_mismatched_end_tag() {
    let xml = br#"<rss><channel><title>S</title><item><title>A</title></item>
<item><title>B</bogus></item><item><title>C</title></item></channel></rss>"#;
    let draft = parse_rss(xml, "https://example.com/feed", false).unwrap();
    assert_eq!(draft.title.as_deref(), Some("S"));
    assert_eq!(draft.items.len(), 1);
    assert_eq!(draft.items[0].title.as_deref(), Some("A"));
}
