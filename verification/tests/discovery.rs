use viaduct_core::network::discovery::{canonicalize_input, first_feed_link, first_icon_link, join_url, DiscoveryError};
use viaduct_core::parser::html::{HtmlMetadata, HtmlTag, HtmlTagType};

fn feed_link_tag(rel: &str, kind: &str, href: &str) -> HtmlTag {
    HtmlTag::new(
        HtmlTagType::Link,
        vec![
            ("rel".to_string(), rel.to_string()),
            ("type".to_string(), kind.to_string()),
            ("href".to_string(), href.to_string()),
        ],
    )
}

fn icon_link_tag(rel: &str, href: &str) -> HtmlTag {
    HtmlTag::new(HtmlTagType::Link, vec![("rel".to_string(), rel.to_string()), ("href".to_string(), href.to_string())])
}

fn html_with_links(tags: &[(&str, &str)]) -> Vec<u8> {
    let mut body = String::from("<html><head>");
    for (rel, href) in tags {
        body.push_str(&format!("<link rel=\"{rel}\" href=\"{href}\">"));
    }
    body.push_str("</head><body></body></html>");
    body.into_bytes()
}

#[test]
fn finds_first_rss_alternate() {
    let metadata = HtmlMetadata {
        url_string: "https://example.com/".to_string(),
        tags: vec![
            feed_link_tag("stylesheet", "text/css", "/style.css"),
            feed_link_tag("alternate", "application/rss+xml", "/feed.xml"),
        ],
    };
    assert_eq!(first_feed_link(&metadata, "https://example.com/"), Some("https://example.com/feed.xml".to_string()));
}

#[test]
fn finds_atom_alternate() {
    let metadata = HtmlMetadata {
        url_string: "https://example.com/".to_string(),
        tags: vec![feed_link_tag("alternate", "application/atom+xml", "https://feeds.example.com/atom")],
    };
    assert_eq!(first_feed_link(&metadata, "https://example.com/"), Some("https://feeds.example.com/atom".to_string()));
}

#[test]
fn finds_json_feed_alternate() {
    let metadata = HtmlMetadata {
        url_string: "https://example.com/".to_string(),
        tags: vec![feed_link_tag("alternate", "application/feed+json", "/feed.json")],
    };
    assert_eq!(first_feed_link(&metadata, "https://example.com/"), Some("https://example.com/feed.json".to_string()));
}

#[test]
fn ignores_non_feed_alternates() {
    let metadata = HtmlMetadata {
        url_string: "https://example.com/".to_string(),
        tags: vec![feed_link_tag("alternate", "text/html", "/mobile/"), feed_link_tag("icon", "image/png", "/favicon.png")],
    };
    assert_eq!(first_feed_link(&metadata, "https://example.com/"), None);
}

#[test]
fn resolves_relative_href_against_page() {
    let metadata = HtmlMetadata {
        url_string: "https://example.com/blog/".to_string(),
        tags: vec![feed_link_tag("alternate", "application/rss+xml", "feed.xml")],
    };
    assert_eq!(
        first_feed_link(&metadata, "https://example.com/blog/"),
        Some("https://example.com/blog/feed.xml".to_string())
    );
}

#[test]
fn feed_link_search_stops_at_a_link_without_rel() {
    let metadata = HtmlMetadata {
        url_string: "https://example.com/".to_string(),
        tags: vec![
            HtmlTag::new(HtmlTagType::Link, vec![("href".to_string(), "/x".to_string())]),
            feed_link_tag("Alternate Home", "Application/RSS+XML", "/feed.xml"),
        ],
    };
    assert_eq!(first_feed_link(&metadata, "https://example.com/"), None);
    let metadata = HtmlMetadata {
        url_string: "https://example.com/".to_string(),
        tags: vec![feed_link_tag("Alternate Home", "Application/RSS+XML", "/feed.xml")],
    };
    assert_eq!(first_feed_link(&metadata, "https://example.com/"), Some("https://example.com/feed.xml".to_string()));
    assert_eq!(first_feed_link(&metadata, "not a url"), None);
}

#[test]
fn canonicalize_adds_https_when_missing() {
    assert_eq!(canonicalize_input("daringfireball.net").unwrap(), "https://daringfireball.net");
    assert_eq!(canonicalize_input("https://daringfireball.net").unwrap(), "https://daringfireball.net");
    assert_eq!(canonicalize_input("http://example.com").unwrap(), "http://example.com");
}

#[test]
fn canonicalize_trims_whitespace() {
    assert_eq!(canonicalize_input("  https://example.com  ").unwrap(), "https://example.com");
}

#[test]
fn canonicalize_rejects_empty() {
    assert!(canonicalize_input("").is_err());
    assert!(canonicalize_input("   ").is_err());
    assert_eq!(canonicalize_input("\u{3000}\t"), Err(DiscoveryError::NoFeedFound));
}

#[test]
fn finds_plain_icon_link() {
    let html = html_with_links(&[("icon", "/favicon-32.png")]);
    assert_eq!(first_icon_link(&html, "https://example.com/"), Some("https://example.com/favicon-32.png".to_string()));
}

#[test]
fn finds_shortcut_icon_link() {
    let html = html_with_links(&[("shortcut icon", "/favicon.ico")]);
    assert_eq!(first_icon_link(&html, "https://example.com/"), Some("https://example.com/favicon.ico".to_string()));
}

#[test]
fn prefers_icon_over_apple_touch_icon() {
    let html = html_with_links(&[("apple-touch-icon", "/apple-touch.png"), ("icon", "/favicon.ico")]);
    assert_eq!(first_icon_link(&html, "https://example.com/"), Some("https://example.com/favicon.ico".to_string()));
}

#[test]
fn falls_back_to_apple_touch_icon() {
    let html = html_with_links(&[("apple-touch-icon", "/apple-touch.png")]);
    assert_eq!(first_icon_link(&html, "https://example.com/"), Some("https://example.com/apple-touch.png".to_string()));
}

#[test]
fn ignores_non_icon_links() {
    let html = html_with_links(&[("stylesheet", "/style.css"), ("alternate", "/feed.xml")]);
    assert_eq!(first_icon_link(&html, "https://example.com/"), None);
}

#[test]
fn resolves_relative_href() {
    let html = html_with_links(&[("icon", "favicon.ico")]);
    assert_eq!(
        first_icon_link(&html, "https://blog.example.com/posts/"),
        Some("https://blog.example.com/posts/favicon.ico".to_string())
    );
}

#[test]
fn keeps_absolute_href() {
    let html = html_with_links(&[("icon", "https://cdn.example.com/icon.png")]);
    assert_eq!(first_icon_link(&html, "https://example.com/"), Some("https://cdn.example.com/icon.png".to_string()));
}

#[test]
fn html_no_links_returns_none() {
    let html = b"<html><head></head><body><p>no links</p></body></html>";
    assert_eq!(first_icon_link(html, "https://example.com/"), None);
}

#[test]
fn link_tag_helper_matches_extractor_shape() {
    let tag = icon_link_tag("icon", "/x");
    assert_eq!(tag.get("rel").as_deref(), Some("icon"));
    assert_eq!(tag.get("href").as_deref(), Some("/x"));
}

#[test]
fn join_url_resolves_and_rejects() {
    assert_eq!(join_url("https://a.example/x/y", "../z").as_deref(), Some("https://a.example/z"));
    assert_eq!(join_url("relative/base", "z"), None);
}
