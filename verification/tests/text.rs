use viaduct_core::text::sanitized_title;

#[test]
fn plain_title_passes_through() {
    assert_eq!(sanitized_title("A plain title", true), "A plain title");
    assert_eq!(sanitized_title("A plain title", false), "A plain title");
    assert_eq!(sanitized_title("", true), "");
}

#[test]
fn allowed_tag_preserved_for_html() {
    assert_eq!(sanitized_title("<em>Word</em> up", true), "<em>Word</em> up");
    assert_eq!(sanitized_title("<b>Bold</b>", true), "<b>Bold</b>");
}

#[test]
fn allowed_tag_dropped_for_plain_text() {
    assert_eq!(sanitized_title("<em>Word</em> up", false), "Word up");
    assert_eq!(sanitized_title("<b>Bold</b>", false), "Bold");
}

#[test]
fn disallowed_tag_escaped_for_html() {
    assert_eq!(
        sanitized_title("<script>x</script>", true),
        "&lt;script&gt;x&lt;/script&gt;"
    );
    assert_eq!(
        sanitized_title("a <div>b</div>", true),
        "a &lt;div&gt;b&lt;/div&gt;"
    );
}

#[test]
fn disallowed_tag_preserved_literally_for_plain_text() {
    assert_eq!(sanitized_title("<div>b</div>", false), "<div>b</div>");
}

#[test]
fn attributes_are_ignored_for_matching() {
    assert_eq!(
        sanitized_title("<abbr title=\"HyperText\">HT</abbr>", true),
        "<abbr title=\"HyperText\">HT</abbr>"
    );
    assert_eq!(
        sanitized_title("<a href=\"x\">y</a>", true),
        "&lt;a href=\"x\"&gt;y&lt;/a&gt;"
    );
}

#[test]
fn unclosed_tag_gains_no_synthesized_gt() {
    assert_eq!(sanitized_title("<16s in UK", true), "&lt;16s in UK");
    assert_eq!(sanitized_title("<16s in UK", false), "<16s in UK");
    assert_eq!(sanitized_title("before <em", true), "before <em");
    assert_eq!(sanitized_title("before <em", false), "before ");
}

#[test]
fn empty_tag_body_emits_nothing_and_keeps_trailing_gt() {
    assert_eq!(sanitized_title("a<>b", true), "a>b");
}

#[test]
fn tag_matching_is_case_sensitive_like_nnw() {
    assert_eq!(
        sanitized_title("<EM>x</EM>", true),
        "&lt;EM&gt;x&lt;/EM&gt;"
    );
    assert_eq!(sanitized_title("<EM>x</EM>", false), "<EM>x</EM>");
}

#[test]
fn non_ascii_content_passes_through() {
    assert_eq!(
        sanitized_title("Curiosité <em>déçue</em>", true),
        "Curiosité <em>déçue</em>"
    );
    assert_eq!(
        sanitized_title("Curiosité <em>déçue</em>", false),
        "Curiosité déçue"
    );
}

#[test]
fn closing_slash_and_attributes_use_the_letter_run_only() {
    assert_eq!(sanitized_title("<strong class=x>a</strong>", false), "a");
    assert_eq!(sanitized_title("<em2>x</em2>", false), "x");
    assert_eq!(sanitized_title("<emx>y</emx>", true), "&lt;emx&gt;y&lt;/emx&gt;");
}
