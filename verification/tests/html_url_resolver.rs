use viaduct_core::parser::html_url_resolver::resolving_relative_urls;

fn base() -> String {
    let parsed = url::Url::parse("https://example.com/blog/entries/").expect("base parses");
    parsed.as_str().to_string()
}

#[test]
fn relative_hrefs_and_srcs_resolve_against_base() {
    let html = r#"<p><a href="post/1.html">One</a> <img src="../img/x.png"></p>"#;
    let out = resolving_relative_urls(html, &base());
    assert_eq!(
        out,
        r#"<p><a href="https://example.com/blog/entries/post/1.html">One</a> <img src="https://example.com/blog/img/x.png"></p>"#
    );
}

#[test]
fn fragments_schemed_and_protocol_relative_classify_correctly() {
    let html = r##"<a href="#note">n</a><a href="mailto:a@b.c">m</a><img src="data:image/gif;base64,AAAA"><img src="//cdn.example.com/x.png"><a href="https://other.example/y">y</a>"##;
    let out = resolving_relative_urls(html, &base());
    assert!(out.contains(r##"href="#note""##));
    assert!(out.contains(r#"href="mailto:a@b.c""#));
    assert!(out.contains(r#"src="data:image/gif;base64,AAAA""#));
    assert!(out.contains(r#"src="https://cdn.example.com/x.png""#));
    assert!(out.contains(r#"href="https://other.example/y""#));
}

#[test]
fn srcset_candidates_resolve_individually() {
    let html = r#"<img srcset="a-1x.png 1x, b-2x.png 2x, ,c-3x.png 3x">"#;
    let out = resolving_relative_urls(html, &base());
    assert!(out.contains("https://example.com/blog/entries/a-1x.png 1x"));
    assert!(out.contains("https://example.com/blog/entries/b-2x.png 2x"));
    assert!(out.contains("https://example.com/blog/entries/c-3x.png 3x"));
}

#[test]
fn unquoted_values_keep_slashes() {
    let html = r#"<a href=/blog/post/2>two</a>"#;
    let out = resolving_relative_urls(html, &base());
    assert!(out.contains(r#"href=https://example.com/blog/post/2"#));
}

#[test]
fn entities_in_values_survive() {
    let html = r#"<a href="list?page=2&amp;sort=asc">l</a>"#;
    let out = resolving_relative_urls(html, &base());
    assert!(out.contains("list?page=2&amp;sort=asc"));
    assert!(!out.contains("page=2&sort=asc\""));
}

#[test]
fn script_and_style_bodies_are_skipped() {
    let html = r#"<style>a { background: url(bg.png) }</style><script>var x = "<a href='z.html'>";</script><a href="real.html">r</a>"#;
    let out = resolving_relative_urls(html, &base());
    assert!(out.contains("url(bg.png)"));
    assert!(out.contains("href='z.html'"));
    assert!(out.contains(r#"href="https://example.com/blog/entries/real.html""#));
}

#[test]
fn comments_and_cdata_are_skipped() {
    let html =
        r#"<!-- <a href="no.html"> --><![CDATA[<b href="no.html">]]><a href="yes.html">y</a>"#;
    let out = resolving_relative_urls(html, &base());
    assert!(out.contains(r#"href="no.html""#));
    assert!(out.contains(r#"href="https://example.com/blog/entries/yes.html""#));
}

#[test]
fn single_quotes_and_padded_values() {
    let html = "<a href = ' x.html ' >x</a>";
    let out = resolving_relative_urls(html, &base());
    assert!(out.contains("' https://example.com/blog/entries/x.html '"));
}

#[test]
fn nothing_to_resolve_returns_input_unchanged() {
    let html = "<p>plain text</p><a href=\"https://abs.example/x\">a</a><a href=\"#f\">f</a>";
    assert_eq!(resolving_relative_urls(html, &base()), html);
}

#[test]
fn unterminated_quote_stops_the_scan() {
    let html = r#"<a href="good.html">g</a><a href="unclosed"#;
    let out = resolving_relative_urls(html, &base());
    assert!(out.contains(r#"href="https://example.com/blog/entries/good.html""#));
    assert!(out.ends_with(r#"<a href="unclosed"#));
}

#[test]
fn poster_and_self_closing_script_resolve() {
    let html = r#"<video poster="p.jpg"></video><script src="s.js"/><a href="after.html">a</a>"#;
    let out = resolving_relative_urls(html, &base());
    assert_eq!(
        out,
        r#"<video poster="https://example.com/blog/entries/p.jpg"></video><script src="https://example.com/blog/entries/s.js"/><a href="https://example.com/blog/entries/after.html">a</a>"#
    );
}

#[test]
fn unparsable_base_leaves_input_unchanged() {
    let html = r#"<a href="x.html">x</a>"#;
    assert_eq!(resolving_relative_urls(html, "not a url"), html);
}
