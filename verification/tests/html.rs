use viaduct_core::parser::html::{extract_metadata, HtmlTag, HtmlTagType};

#[test]
fn unquoted_attribute_values_discover_ranchero_feeds() {
    let html = b"<html><head>\n<link rel=alternate type=application/rss+xml title=\"ranchero.com RSS feed\" href=https://ranchero.com/xml/rss.xml>\n<link rel=alternate type=application/json title=\"ranchero.com JSON feed\" href=https://ranchero.com/feed.json>\n</head><body></body></html>";
    let metadata = extract_metadata(html, "https://ranchero.com/");

    let feed_links: Vec<&HtmlTag> = metadata
        .tags
        .iter()
        .filter(|t| t.tag_type == HtmlTagType::Link)
        .collect();
    assert_eq!(feed_links.len(), 2);

    let rss = feed_links
        .iter()
        .find(|t| t.get("type").as_deref() == Some("application/rss+xml"))
        .expect("rss link");
    assert_eq!(
        rss.get("href").as_deref(),
        Some("https://ranchero.com/xml/rss.xml"),
        "the unquoted href keeps its slashes"
    );
    assert_eq!(
        rss.get("title").as_deref(),
        Some("ranchero.com RSS feed"),
        "the quoted title keeps its spaces"
    );
}

#[test]
fn quoted_attributes_parse_as_before() {
    let html = b"<html><head><link rel=\"icon\" href=\"/x.png\" />\n<meta name=\"generator\" content=\"hand\"></head><body></body></html>";
    let metadata = extract_metadata(html, "https://example.com/");
    assert_eq!(metadata.tags.len(), 2);
    let link = &metadata.tags[0];
    assert_eq!(link.tag_type, HtmlTagType::Link);
    assert_eq!(link.get("rel").as_deref(), Some("icon"));
    assert_eq!(link.get("href").as_deref(), Some("/x.png"));
    let meta = &metadata.tags[1];
    assert_eq!(meta.tag_type, HtmlTagType::Meta);
    assert_eq!(meta.get("content").as_deref(), Some("hand"));
}

#[test]
fn link_filters_and_valueless_attributes() {
    let html = b"<head>\n<link rel=\"\">\n<link type=\"application/rss+xml\">\n<link rel=\"alternate\" href=\"/feed.xml\" data-foo>\n</head>";
    let metadata = extract_metadata(html, "https://example.com/");
    let links: Vec<&HtmlTag> = metadata
        .tags
        .iter()
        .filter(|t| t.tag_type == HtmlTagType::Link)
        .collect();
    assert_eq!(links.len(), 1, "empty rel and href-less links are skipped");
    assert_eq!(links[0].get("href").as_deref(), Some("/feed.xml"));
    assert_eq!(
        links[0].get("data-foo").as_deref(),
        Some(""),
        "valueless attributes record an empty value"
    );
}

#[test]
fn body_stop_respects_the_youtube_exception() {
    let tail =
        b"<body><link rel=\"alternate\" href=\"https://after.example/feed.xml\"></body></html>";
    let head = b"<html><head><title>t</title></head>";
    let mut html = head.to_vec();
    html.extend_from_slice(tail);

    let ordinary = extract_metadata(&html, "https://example.com/");
    assert!(ordinary.tags.is_empty(), "links below <body> are not scanned");

    let youtube = extract_metadata(&html, "https://www.youtube.com/watch?v=x");
    assert_eq!(youtube.tags.len(), 1, "YouTube scans past <body>");
}

#[test]
fn script_and_style_bodies_produce_no_tags() {
    let html = b"<head>\n<script>var x = \"<link rel=alternate href=https://evil.example/x>\";</script>\n<style>a {{ content: \"<link rel=alternate href=https://evil.example/y>\" }}</style>\n<link rel=\"alternate\" href=\"https://real.example/feed.xml\">\n</head>";
    let metadata = extract_metadata(html, "https://example.com/");
    let links: Vec<&HtmlTag> = metadata
        .tags
        .iter()
        .filter(|t| t.tag_type == HtmlTagType::Link)
        .collect();
    assert_eq!(links.len(), 1);
    assert_eq!(
        links[0].get("href").as_deref(),
        Some("https://real.example/feed.xml")
    );
}

#[test]
fn unterminated_quote_ends_the_scan_gracefully() {
    let html = b"<head><link rel=\"alternate\" href=\"https://good.example/feed.xml\"><link rel=\"alternate\" href=\"broken";
    let metadata = extract_metadata(html, "https://example.com/");
    let links: Vec<&HtmlTag> = metadata
        .tags
        .iter()
        .filter(|t| t.tag_type == HtmlTagType::Link)
        .collect();
    assert_eq!(links.len(), 1);
    assert_eq!(
        links[0].get("href").as_deref(),
        Some("https://good.example/feed.xml")
    );
}

#[test]
fn comments_cdata_and_doctype_are_skipped() {
    let html = b"<!DOCTYPE html>\n<!-- <link rel=alternate href=https://comment.example/x> -->\n<![CDATA[<link rel=alternate href=https://cdata.example/x>]]>\n<head><link rel=\"alternate\" href=\"https://real.example/feed.xml\"></head>";
    let metadata = extract_metadata(html, "https://example.com/");
    assert_eq!(metadata.tags.len(), 1);
    assert_eq!(
        metadata.tags[0].get("href").as_deref(),
        Some("https://real.example/feed.xml")
    );
}

#[test]
fn repeated_attribute_keeps_last_value_and_keys_keep_their_case() {
    let html = b"<head><meta name=a name=b><LINK REL=icon HREF=x.png><link rel=icon src=y.png></head>";
    let metadata = extract_metadata(html, "https://example.com/");
    assert_eq!(metadata.url_string, "https://example.com/");
    assert_eq!(metadata.tags.len(), 2);
    assert_eq!(metadata.tags[0].get("name").as_deref(), Some("b"));
    assert_eq!(metadata.tags[1].tag_type, HtmlTagType::Link);
    assert_eq!(metadata.tags[1].get("src").as_deref(), Some("y.png"));
}
