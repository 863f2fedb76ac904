use viaduct_core::models::ParsedFeed;
use viaduct_core::parser::atom::{finish_atom, parse_atom};

/// The feed with its entries finished; no date text is parsed.
fn finished(xml: &[u8], feed_url: &str) -> ParsedFeed {
    finish_atom(parse_atom(xml, feed_url).unwrap(), &Vec::new())
}

#[test]
fn atom_author_name_email_uri_captured() {
    // An Author is emitted only when an <author> wrapper is present, not
    // for any <name> text, and its email + uri propagate.
    let xml = br#"<?xml version="1.0"?>
<feed xmlns="http://www.w3.org/2005/Atom">
  <title>Site</title>
  <entry>
<id>1</id>
<title>Post</title>
<author><name>Jane</name><email>jane@example.com</email><uri>https://jane.example</uri></author>
<content>hi</content>
<updated>2020-01-01T00:00:00Z</updated>
  </entry>
</feed>"#;
    let feed = parse_atom(xml, "https://example.com/feed").unwrap();
    assert_eq!(feed.items.len(), 1);
    let authors = &feed.items[0].authors;
    assert_eq!(authors.len(), 1);
    assert_eq!(authors[0].name.as_deref(), Some("Jane"));
    assert_eq!(authors[0].email.as_deref(), Some("jane@example.com"));
    assert_eq!(authors[0].url.as_deref(), Some("https://jane.example"));
}

#[test]
fn atom_root_author_propagates_to_authorless_items() {
    let xml = br#"<?xml version="1.0"?>
<feed xmlns="http://www.w3.org/2005/Atom">
  <title>Site</title>
  <author><name>Feed Author</name></author>
  <entry>
<id>1</id>
<title>Post 1</title>
  </entry>
  <entry>
<id>2</id>
<title>Post 2</title>
<author><name>Per-Entry</name></author>
  </entry>
</feed>"#;
    let feed = parse_atom(xml, "https://example.com/feed").unwrap();
    assert_eq!(feed.items.len(), 2);
    assert_eq!(
        feed.items[0].authors[0].name.as_deref(),
        Some("Feed Author")
    );
    assert_eq!(feed.items[1].authors[0].name.as_deref(), Some("Per-Entry"));
}

#[test]
fn atom_source_block_does_not_pollute_entry() {
    // <source> carries the source feed's metadata when an entry has been
    // republished. Its <title>/<id>/<link> must not overwrite ours.
    let xml = br#"<?xml version="1.0"?>
<feed xmlns="http://www.w3.org/2005/Atom">
  <title>Planet</title>
  <entry>
<id>entry-42</id>
<title>Real Title</title>
<updated>2024-01-01T00:00:00Z</updated>
<source>
  <id>original-source-id</id>
  <title>Wrong Title</title>
  <link href="https://wrong.example/" rel="alternate"/>
</source>
  </entry>
</feed>"#;
    let feed = parse_atom(xml, "https://example.com/feed").unwrap();
    assert_eq!(feed.items.len(), 1);
    assert_eq!(feed.items[0].title.as_deref(), Some("Real Title"));
}

#[test]
fn atom_cdata_content_captured_as_body() {
    let xml = br#"<?xml version="1.0"?>
<feed xmlns="http://www.w3.org/2005/Atom">
  <title>Site</title>
  <entry>
<id>1</id>
<title>Post</title>
<updated>2024-01-01T00:00:00Z</updated>
<content type="html"><![CDATA[<p>Atom CDATA body.</p>]]></content>
  </entry>
</feed>"#;
    let feed = parse_atom(xml, "https://example.com/feed").unwrap();
    let body = feed.items[0].content_html.as_deref().unwrap_or("");
    assert!(body.contains("Atom CDATA body"), "body lost: {body}");
}

#[test]
fn atom_xhtml_content_captures_inline_html() {
    // Atom RFC 4287 says type="xhtml" payloads contain a single <div>
    // wrapper in the XHTML namespace. Without raw-inner capture we would
    // see only the bare text nodes ("Hello bar") and lose every tag.
    let xml = br#"<?xml version="1.0"?>
<feed xmlns="http://www.w3.org/2005/Atom">
  <title>Site</title>
  <entry>
<id>1</id>
<title>Post</title>
<updated>2024-01-01T00:00:00Z</updated>
<content type="xhtml"><div xmlns="http://www.w3.org/1999/xhtml"><p>Hello <em>bar</em>.</p><p>Second.</p></div></content>
  </entry>
</feed>"#;
    let feed = parse_atom(xml, "https://example.com/feed").unwrap();
    assert_eq!(feed.items.len(), 1);
    let body = feed.items[0].content_html.as_deref().unwrap_or("");
    assert!(body.contains("<p>Hello "), "missing <p> tag: {body}");
    assert!(body.contains("<em>bar</em>"), "missing <em>: {body}");
    assert!(
        body.contains("<p>Second."),
        "missing second paragraph: {body}"
    );
}

#[test]
fn atom_xhtml_summary_lands_in_summary_field_not_body() {
    // The summary, even when expressed as type="xhtml", goes into the
    // ParsedItem.summary field. It does NOT promote into content_html
    // even when content is absent — the article-render fallback chain
    // in window.rs prefers content_html → content_text → summary, so
    // summary-only feeds still render correctly downstream.
    let xml = br#"<?xml version="1.0"?>
<feed xmlns="http://www.w3.org/2005/Atom">
  <title>Site</title>
  <entry>
<id>2</id>
<title>Post</title>
<updated>2024-01-01T00:00:00Z</updated>
<summary type="xhtml"><div xmlns="http://www.w3.org/1999/xhtml"><strong>Inline</strong> summary.</div></summary>
  </entry>
</feed>"#;
    let feed = parse_atom(xml, "https://example.com/feed").unwrap();
    let item = &feed.items[0];
    assert!(item.content_html.is_none(), "content_html shouldn't be set");
    let summary = item.summary.as_deref().unwrap_or("");
    assert!(
        summary.contains("<strong>Inline</strong>"),
        "lost xhtml summary: {summary}"
    );
}

#[test]
fn atom_summary_and_content_kept_separate() {
    // Both elements present — each lands in its own field.
    let xml = br#"<?xml version="1.0" encoding="utf-8"?>
<feed xmlns="http://www.w3.org/2005/Atom">
  <title>t</title><id>urn:t</id>
  <entry>
<id>urn:t:1</id>
<title>both</title>
<updated>2020-05-01T00:00:00Z</updated>
<summary>The summary.</summary>
<content>The content.</content>
  </entry>
</feed>"#;
    let feed = parse_atom(xml, "http://example.com/").unwrap();
    let item = &feed.items[0];
    assert_eq!(item.content_html.as_deref(), Some("The content."));
    assert_eq!(item.summary.as_deref(), Some("The summary."));
}

#[test]
fn atom_enclosure_link_becomes_attachment() {
    let xml = br#"<?xml version="1.0"?>
<feed xmlns="http://www.w3.org/2005/Atom">
  <title>Pod</title>
  <entry>
<id>1</id>
<title>Episode</title>
<link rel="enclosure" type="audio/mpeg" length="555" href="https://example.com/ep.mp3"/>
  </entry>
</feed>"#;
    let feed = parse_atom(xml, "https://example.com/feed").unwrap();
    let atts = &feed.items[0].attachments;
    assert_eq!(atts.len(), 1);
    assert_eq!(atts[0].url, "https://example.com/ep.mp3");
    assert_eq!(atts[0].mime_type.as_deref(), Some("audio/mpeg"));
    assert_eq!(atts[0].size_in_bytes, Some(555));
}

#[test]
fn atom_icon_logo_and_xml_lang_captured() {
    let xml = r#"<?xml version="1.0"?>
<feed xmlns="http://www.w3.org/2005/Atom" xml:lang="ja">
  <title>サイト</title>
  <icon>https://example.com/icon.png</icon>
  <logo>https://example.com/logo.png</logo>
  <entry><id>1</id><title>Post</title></entry>
</feed>"#
        .as_bytes();
    let feed = parse_atom(xml, "https://example.com/feed").unwrap();
    // <icon> wins over <logo>.
    assert_eq!(
        feed.icon_url.as_deref(),
        Some("https://example.com/icon.png")
    );
    assert_eq!(feed.language.as_deref(), Some("ja"));
}

#[test]
fn atom_logo_used_when_icon_missing() {
    let xml = br#"<?xml version="1.0"?>
<feed xmlns="http://www.w3.org/2005/Atom">
  <title>Site</title>
  <logo>https://example.com/logo-only.png</logo>
  <entry><id>1</id><title>Post</title></entry>
</feed>"#;
    let feed = parse_atom(xml, "https://example.com/feed").unwrap();
    assert_eq!(
        feed.icon_url.as_deref(),
        Some("https://example.com/logo-only.png")
    );
}

#[test]
fn atom_link_href_is_resolved_against_home_page() {
    // <link href="/posts/1"> inside an entry should resolve against the
    // feed's own home page URL when that URL is available.
    let xml = br#"<?xml version="1.0"?>
<feed xmlns="http://www.w3.org/2005/Atom">
  <title>Site</title>
  <link href="https://example.com/" rel="alternate"/>
  <entry>
<id>1</id>
<title>Post</title>
<link href="/posts/1" rel="alternate"/>
  </entry>
</feed>"#;
    let feed = parse_atom(xml, "https://example.com/feed").unwrap();
    assert_eq!(
        feed.items[0].url.as_deref(),
        Some("https://example.com/posts/1")
    );
}

#[test]
fn atom_namespaced_section_does_not_overwrite_entry_fields() {
    // A nested unprefixed <title> inside a namespaced
    // <s:variant> placed before the real title must not win.
    let xml = br#"<?xml version="1.0"?>
<feed xmlns="http://www.w3.org/2005/Atom" xmlns:s="http://example.com/s">
  <title>Site</title>
  <entry>
<s:variant><title>Default Title</title></s:variant>
<id>entry-1</id>
<title>Real Entry Title</title>
<summary>Real summary.</summary>
  </entry>
</feed>"#;
    let feed = parse_atom(xml, "https://example.com/feed").unwrap();
    assert_eq!(feed.items.len(), 1);
    let item = &feed.items[0];
    assert_eq!(item.title.as_deref(), Some("Real Entry Title"));
    assert_eq!(item.summary.as_deref(), Some("Real summary."));
    assert!(
        !feed
            .items
            .iter()
            .any(|i| i.title.as_deref() == Some("Default Title"))
    );
}

#[test]
fn atom_media_in_entry_does_not_corrupt_title() {
    // Atom consumes no prefixed elements, so a <media:title> inside a
    // <media:group> must not leak into the entry title (it did before).
    let xml = br#"<?xml version="1.0"?>
<feed xmlns="http://www.w3.org/2005/Atom" xmlns:media="http://search.yahoo.com/mrss/">
  <title>Site</title>
  <entry>
<media:group><media:title>Bogus Media Title</media:title></media:group>
<id>entry-1</id>
<title>Real Entry Title</title>
  </entry>
</feed>"#;
    let feed = parse_atom(xml, "https://example.com/feed").unwrap();
    assert_eq!(feed.items[0].title.as_deref(), Some("Real Entry Title"));
}

#[test]
fn xml_base_resolves_xhtml_content_and_links() {
    let xml = r##"<?xml version="1.0" encoding="utf-8"?>
<feed xmlns="http://www.w3.org/2005/Atom" xml:base="https://andrea.pappacoda.it/blog/">
  <title>pappacoda</title><id>tag:andrea.pappacoda.it,2023</id>
  <icon>../assets/debian-button.gif</icon>
  <logo>/andrea_pappacoda.jpg</logo>
  <entry>
<id>tag:andrea.pappacoda.it,2023-06-09:c_su_windows</id>
<title>C su Windows</title>
<updated>2023-06-09T00:00:00Z</updated>
<link rel="alternate" href="c_su_windows/"/>
<content type="xhtml"><div xmlns="http://www.w3.org/1999/xhtml">
  <img src="c_su_windows/c_su_windows_visual_studio_componenti.png"
       srcset="c_su_windows/c_su_windows_visual_studio_componenti_light.png 1x"/>
</div></content>
  </entry>
</feed>"##;
    let feed =
        finished(xml.as_bytes(), "https://andrea.pappacoda.it/blog/feed.atom");

    // Root-relative icon resolves against the feed-level base; the
    // logo (root-relative with a slash) resolves to the site root.
    assert_eq!(
        feed.icon_url.as_deref(),
        Some("https://andrea.pappacoda.it/assets/debian-button.gif")
    );

    let item = feed.items.first().expect("entry");
    assert_eq!(
        item.url.as_deref(),
        Some("https://andrea.pappacoda.it/blog/c_su_windows/")
    );
    // <id> is never resolved, even though it looks nothing like the base.
    assert_eq!(item.id, "tag:andrea.pappacoda.it,2023-06-09:c_su_windows");

    let html = item.content_html.as_deref().expect("xhtml content");
    assert!(html.contains(r#"src="https://andrea.pappacoda.it/blog/c_su_windows/c_su_windows_visual_studio_componenti.png""#));
    assert!(html.contains(r#"srcset="https://andrea.pappacoda.it/blog/c_su_windows/c_su_windows_visual_studio_componenti_light.png 1x""#));
    // The xhtml wrapper still comes through verbatim.
    assert!(html.contains(r#"xmlns="http://www.w3.org/1999/xhtml""#));
}

#[test]
fn nested_relative_xml_base_composes() {
    let xml = r#"<?xml version="1.0" encoding="utf-8"?>
<feed xmlns="http://www.w3.org/2005/Atom" xml:base="https://example.com/blog/">
  <title>t</title><id>urn:t</id>
  <link rel="alternate" href="https://homepage.example.org/"/>
  <entry>
<id>urn:t:1</id>
<title>nested base</title>
<updated>2020-05-01T00:00:00Z</updated>
<link rel="alternate" href="post1/"/>
<link rel="related" xml:base="https://elsewhere.example.net/dir/" href="related.html"/>
<content type="html" xml:base="post1/">&lt;a href="pic.png"&gt;pic&lt;/a&gt;</content>
  </entry>
</feed>"#;
    let feed = parse_atom(xml.as_bytes(), "https://example.com/blog/feed.atom").unwrap();
    let item = feed.items.first().expect("entry");

    assert_eq!(item.url.as_deref(), Some("https://example.com/blog/post1/"));
    assert_eq!(
        item.external_url.as_deref(),
        Some("https://elsewhere.example.net/dir/related.html")
    );
    let html = item.content_html.as_deref().expect("content");
    assert!(html.contains(r#"href="https://example.com/blog/post1/pic.png""#));
}

#[test]
fn content_type_gates_and_base_fallbacks() {
    let xml = r#"<?xml version="1.0" encoding="utf-8"?>
<feed xmlns="http://www.w3.org/2005/Atom">
  <title>t</title><id>urn:t</id>
  <entry>
<id>urn:t:1</id>
<title>mime type html</title>
<updated>2020-05-01T00:00:00Z</updated>
<content type="text/html" xml:base="https://example.com/post/">&lt;img src="pic.png"&gt;</content>
  </entry>
  <entry>
<id>/2024/04/23/qemu-9-0-0</id>
<title>release</title>
<updated>2024-04-23T23:02:00Z</updated>
<content type="html" xml:base="/2024/04/23/qemu-9-0-0/">&lt;a href="changelog.html"&gt;changelog&lt;/a&gt;</content>
  </entry>
  <entry>
<id>urn:t:3</id>
<title>text content</title>
<updated>2020-05-01T00:00:00Z</updated>
<content type="text" xml:base="https://example.com/post/">See src="pic.png" for details.</content>
  </entry>
  <entry>
<id>urn:t:4</id>
<title>garbage base inherits</title>
<updated>2020-05-01T00:00:00Z</updated>
<link rel="alternate" xml:base="urn:whatever" href="elsewhere/"/>
<content type="html">&lt;img src="raw.png"&gt;</content>
  </entry>
</feed>"#;
    let feed = finished(xml.as_bytes(), "https://www.qemu.org/feed.xml");

    // type="text/html" resolves.
    let html = feed.items[0].content_html.as_deref().unwrap();
    assert!(html.contains(r#"src="https://example.com/post/pic.png""#));

    // A relative-looking <id> stays verbatim; the relative content-level
    // xml:base composed against the feed URL resolves the body.
    assert_eq!(feed.items[1].id, "/2024/04/23/qemu-9-0-0");
    let html = feed.items[1].content_html.as_deref().unwrap();
    assert!(
        html.contains(r#"href="https://www.qemu.org/2024/04/23/qemu-9-0-0/changelog.html""#)
    );

    // type="text" is never rewritten.
    let html = feed.items[2].content_html.as_deref().unwrap();
    assert!(html.contains(r#"src="pic.png""#));

    // The urn: xml:base is not usable, so the entry inherits: the link
    // falls back to the home-page-less path and stays relative, and the
    // body resolves against nothing.
    let item = &feed.items[3];
    assert_eq!(item.url.as_deref(), Some("elsewhere/"));
    let html = item.content_html.as_deref().unwrap();
    assert!(html.contains(r#"src="raw.png""#));
}

#[test]
fn fragment_and_empty_hrefs_survive_xml_base() {
    let xml = r##"<?xml version="1.0" encoding="utf-8"?>
<feed xmlns="http://www.w3.org/2005/Atom" xml:base="https://example.com/blog/">
  <title>t</title><id>urn:t</id>
  <entry>
<id>urn:t:1</id>
<title>footnotes</title>
<updated>2020-05-01T00:00:00Z</updated>
<link rel="alternate" href=""/>
<content type="html">&lt;a href="#fn1"&gt;1&lt;/a&gt; &lt;img src="pic.png"&gt;</content>
  </entry>
</feed>"##;
    let feed = parse_atom(xml.as_bytes(), "https://example.com/blog/feed.atom").unwrap();
    let item = feed.items.first().expect("entry");

    // Empty href: the link is skipped entirely rather than resolving
    // to the base.
    assert_eq!(item.url, None);

    let html = item.content_html.as_deref().unwrap();
    assert!(
        html.contains(r##"href="#fn1""##),
        "fragment-only hrefs must stay fragment-only"
    );
    assert!(html.contains(r#"src="https://example.com/blog/pic.png""#));
}

#[test]
fn summary_with_xml_base_resolves() {
    let xml = r#"<?xml version="1.0" encoding="utf-8"?>
<feed xmlns="http://www.w3.org/2005/Atom">
  <title>t</title><id>urn:t</id>
  <entry>
<id>urn:t:1</id>
<title>summary only</title>
<updated>2020-05-01T00:00:00Z</updated>
<summary type="html" xml:base="https://example.com/post/">&lt;img src="pic.png"&gt;</summary>
  </entry>
</feed>"#;
    let feed = parse_atom(xml.as_bytes(), "https://example.com/feed.atom").unwrap();
    let item = feed.items.first().expect("entry");
    let html = item.summary.as_deref().expect("summary");
    assert!(html.contains(r#"src="https://example.com/post/pic.png""#));
}

#[test]
fn relative_author_uri_resolves_against_xml_base() {
    let xml = r#"<?xml version="1.0" encoding="utf-8"?>
<feed xmlns="http://www.w3.org/2005/Atom" xml:base="https://example.com/blog/">
  <title>t</title><id>urn:t</id>
  <entry>
<id>urn:t:1</id>
<title>relative author uri</title>
<updated>2020-05-01T00:00:00Z</updated>
<author><name>Alice</name><uri>about/</uri></author>
  </entry>
</feed>"#;
    let feed = parse_atom(xml.as_bytes(), "https://example.com/blog/feed.atom").unwrap();
    let item = feed.items.first().expect("entry");
    let author = item.authors.first().expect("author");
    assert_eq!(
        author.url.as_deref(),
        Some("https://example.com/blog/about/")
    );
}

#[test]
fn finishing_an_entry_takes_the_first_parsed_dates() {
    let xml = br#"<feed><entry><title>T</title><published>p1</published><issued>p2</issued>
<updated>u1</updated></entry></feed>"#;
    let draft = parse_atom(xml, "https://example.com/feed").unwrap();
    assert_eq!(draft.items[0].published_texts, vec!["p1".to_string(), "p2".to_string()]);
    assert_eq!(draft.items[0].modified_texts, vec!["u1".to_string()]);
    let feed = finish_atom(draft, &vec![(vec![None, Some(42)], vec![Some(7)])]);
    assert_eq!(feed.items[0].date_published, Some(42));
    assert_eq!(feed.items[0].date_modified, Some(7));
    assert_eq!(feed.items[0].id.len(), 32);
}

#[test]
fn unterminated_xhtml_content_sets_no_body() {
    let xml = br#"<feed><entry><title>T</title><content type="xhtml"><div>open"#;
    let draft = parse_atom(xml, "https://example.com/feed").unwrap();
    assert!(draft.items.is_empty());
    assert_eq!(draft.title, None);
}

#[test]
fn mismatched_end_tag_in_xhtml_content_drops_the_body_and_reading_goes_on() {
    let xml = br#"<feed xmlns="http://www.w3.org/2005/Atom"><title>T</title>
<entry><id>a</id><title>A</title><content type="xhtml"><div>hi <b>x</i></div></content></entry>
<entry><id>b</id><title>B</title></entry></feed>"#;
    let draft = parse_atom(xml, "https://example.com/feed").unwrap();
    assert_eq!(draft.items.len(), 2);
    assert_eq!(draft.items[0].title.as_deref(), Some("A"));
    assert_eq!(draft.items[0].content_html, None);
    assert_eq!(draft.items[1].guid.as_deref(), Some("b"));
}

#[test]
fn mismatched_end_tag_outside_content_ends_the_feed() {
    let xml = br#"<feed><title>T</title><entry><id>a</id></entry><entry><id>b</bogus></entry>
<entry><id>c</id></entry></feed>"#;
    let draft = parse_atom(xml, "https://example.com/feed").unwrap();
    assert_eq!(draft.items.len(), 1);
    assert_eq!(draft.items[0].guid.as_deref(), Some("a"));
}

#[test]
fn author_inside_source_does_not_reach_the_entry() {
    let xml = br#"<feed xmlns='http://www.w3.org/2005/Atom'><title>Planet</title><entry><id>entry-42</id><title>Real Title</title><updated>2024-01-01T00:00:00Z</updated><source><id>original-source-id</id><title>Wrong Title</title><author><name>Orig</name></author><link href='https://wrong.example/' rel='alternate'/></source></entry></feed>"#;
    let f = finished(xml, "https://example.com/feed");
    assert_eq!(f.items.len(), 1);
    assert_eq!(f.items[0].title.as_deref(), Some("Real Title"));
    assert_eq!(f.items[0].id, "entry-42");
    assert_eq!(f.items[0].url, None);
    assert!(f.items[0].authors.is_empty());
}
