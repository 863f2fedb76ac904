//! Feed and favicon discovery: normalizing what the user typed, and
//! picking the feed or icon `<link>` of a page's head.
use vstd::prelude::*;
use crate::chars::{chars_of, is_unicode_ws, is_unicode_ws_exec, lower_char, lower_char_exec, push_str_chars, range_eq, string_from_chars, trim_text, trimmed};
use crate::models::opt_view;
use crate::parser::html::{extract_metadata, scan_tags, scans_past_head, tags_view, HtmlMetadata, HtmlTag, HtmlTagType, HtmlTagView};

verus! {

/// Whether `s` parses as an absolute URL (`url::Url::parse` succeeds).
pub uninterp spec fn url_parses(s: Seq<char>) -> bool;

/// The serialization of `reference` resolved against the URL `base`
/// (`url::Url::parse(base)` then `join(reference)`), if both succeed.
pub uninterp spec fn url_joined(base: Seq<char>, reference: Seq<char>) -> Option<Seq<char>>;

/// Trusted: `url::Url::parse(s).is_ok()`; named `url_parses` of the text,
/// which the URL parser decides from the text alone.
#[verifier::external_body]
pub fn parses_as_url(s: &str) -> (b: bool)
    ensures
        b == url_parses(s@),
{
    url::Url::parse(s).is_ok()
}

/// Trusted: parses `base` with `url::Url::parse` and resolves `reference`
/// against it with `Url::join`, returning the serialized result; named
/// `url_joined` of the two texts. No result when `base` does not parse.
#[verifier::external_body]
pub fn join_url(base: &str, reference: &str) -> (r: Option<String>)
    ensures
        opt_view(r) == url_joined(base@, reference@),
        !url_parses(base@) ==> r is None,
{
    match url::Url::parse(base) {
        Ok(b) => match b.join(reference) {
            Ok(u) => Some(String::from(u)),
            Err(_) => None,
        },
        Err(_) => None,
    }
}

/// Why discovery gave up.
#[derive(Debug, Clone, Copy, PartialEq, Eq, Structural)]
pub enum DiscoveryError {
    NoFeedFound,
}

/// Result of a successful discovery: the feed URL and what parsing it
/// said about the feed.
#[derive(Debug, Clone)]
pub struct DiscoveredFeed {
    pub feed_url: String,
    pub title: Option<String>,
    pub home_page_url: Option<String>,
}

pub open spec fn lit_http() -> Seq<char> {
    "http://"@
}

pub open spec fn lit_https() -> Seq<char> {
    "https://"@
}

/// What the user typed, as a URL to fetch: trimmed; `https://` added
/// unless it already starts with `http://` or `https://`; nothing when it
/// is blank.
pub open spec fn canonical_input(raw: Seq<char>) -> Option<Seq<char>> {
    let t = trimmed(raw);
    if t.len() == 0 {
        None
    } else if starts_with(t, lit_http()) || starts_with(t, lit_https()) {
        Some(t)
    } else {
        Some(lit_https() + t)
    }
}

/// `s` begins with `p`.
pub open spec fn starts_with(s: Seq<char>, p: Seq<char>) -> bool {
    p.len() <= s.len() && s.take(p.len() as int) == p
}

fn starts_with_text(v: &Vec<char>, prefix: &str) -> (b: bool)
    ensures
        b == starts_with(v@, prefix@),
{
    let p = chars_of(prefix);
    if p.len() > v.len() {
        return false;
    }
    assert(v@.subrange(0, p@.len() as int) =~= v@.take(prefix@.len() as int));
    range_eq(v.as_slice(), 0, p.len(), p.as_slice())
}

/// Normalizes a user-supplied address: trims it and defaults to
/// `https://` when it names no scheme; a blank address finds no feed.
pub fn canonicalize_input(raw: &str) -> (r: Result<String, DiscoveryError>)
    ensures
        match r {
            Ok(s) => canonical_input(raw@) == Some(s@),
            Err(e) => canonical_input(raw@) is None && e == DiscoveryError::NoFeedFound,
        },
{
    let t = trim_text(raw);
    let v = chars_of(t.as_str());
    if v.len() == 0 {
        return Err(DiscoveryError::NoFeedFound);
    }
    if starts_with_text(&v, "http://") || starts_with_text(&v, "https://") {
        return Ok(t);
    }
    let mut out: Vec<char> = Vec::new();
    push_str_chars(&mut out, "https://");
    push_str_chars(&mut out, t.as_str());
    Ok(string_from_chars(out.as_slice()))
}

/// ASCII lowercase of every character (`to_ascii_lowercase`).
pub open spec fn ascii_lower(s: Seq<char>) -> Seq<char> {
    s.map_values(|c: char| lower_char(c))
}

pub fn ascii_lowercase(s: &str) -> (r: Vec<char>)
    ensures
        r@ == ascii_lower(s@),
{
    let v = chars_of(s);
    let mut r: Vec<char> = Vec::new();
    let mut i: usize = 0;
    while i < v.len()
        invariant
            i <= v@.len(),
            v@ == s@,
            r@.len() == i,
            forall|k: int| 0 <= k < i ==> #[trigger] r@[k] == lower_char(v@[k]),
        decreases v@.len() - i,
    {
        r.push(lower_char_exec(v[i]));
        i += 1;
    }
    assert(r@ =~= ascii_lower(s@));
    r
}

/// `tok` is one of the whitespace-separated words of `s`
/// (`s.split_whitespace().any(|w| w == tok)` for a word `tok`).
pub open spec fn has_word(s: Seq<char>, tok: Seq<char>) -> bool {
    exists|i: int|
        0 <= i && i + tok.len() <= s.len() && #[trigger] s.subrange(i, i + tok.len()) == tok && (i == 0 || is_unicode_ws(
            s[i - 1],
        )) && (i + tok.len() == s.len() || is_unicode_ws(s[i + tok.len()]))
}

pub fn has_word_exec(s: &Vec<char>, tok: &str) -> (b: bool)
    ensures
        b == has_word(s@, tok@),
{
    let t = chars_of(tok);
    let n = s.len();
    let m = t.len();
    if m > n {
        return false;
    }
    let limit = n - m;
    let mut i: usize = 0;
    loop
        invariant
            m <= n,
            n == s@.len(),
            m == t@.len(),
            t@ == tok@,
            limit == n - m,
            i <= limit,
            forall|k: int|
                0 <= k < i ==> !(#[trigger] s@.subrange(k, k + m) == tok@ && (k == 0 || is_unicode_ws(s@[k - 1])) && (k + m
                    == n || is_unicode_ws(s@[k + m]))),
        decreases limit - i,
    {
        if range_eq(s.as_slice(), i, i + m, t.as_slice()) && (i == 0 || is_unicode_ws_exec(s[i - 1])) && (i + m == n
            || is_unicode_ws_exec(s[i + m])) {
            return true;
        }
        if i == limit {
            return false;
        }
        i += 1;
    }
}

pub open spec fn lit_rel() -> Seq<char> {
    "rel"@
}

pub open spec fn lit_type() -> Seq<char> {
    "type"@
}

pub open spec fn lit_href() -> Seq<char> {
    "href"@
}

/// A feed MIME type: RSS, Atom or JSON Feed.
pub open spec fn is_feed_type(k: Seq<char>) -> bool {
    k == "application/rss+xml"@ || k == "application/atom+xml"@ || k == "application/feed+json"@
}

/// The feed link of `tags`: the first `<link>` whose `rel` has the word
/// `alternate` and whose `type` is a feed type, its `href` resolved
/// against `base`. A `<link>` without `rel`, or a `rel=alternate` one
/// without `type`, ends the search with nothing.
pub open spec fn feed_link_scan(tags: Seq<HtmlTagView>, base: Seq<char>) -> Option<Seq<char>>
    decreases tags.len(),
{
    if tags.len() == 0 {
        None
    } else {
        let t = tags[0];
        let rest = feed_link_scan(tags.drop_first(), base);
        if t.tag_type != HtmlTagType::Link {
            rest
        } else if !t.attributes.contains_key(lit_rel()) {
            None
        } else if !has_word(ascii_lower(t.attributes[lit_rel()]), "alternate"@) {
            rest
        } else if !t.attributes.contains_key(lit_type()) {
            None
        } else if !is_feed_type(ascii_lower(t.attributes[lit_type()])) {
            rest
        } else if !t.attributes.contains_key(lit_href()) {
            rest
        } else {
            url_joined(base, t.attributes[lit_href()])
        }
    }
}

/// The feed a page's metadata links to, as `feed_link_scan` picks it;
/// nothing when `base_url` is not a URL.
pub open spec fn feed_link(tags: Seq<HtmlTagView>, base: Seq<char>) -> Option<Seq<char>> {
    if !url_parses(base) {
        None
    } else {
        feed_link_scan(tags, base)
    }
}

fn is_feed_type_exec(k: &Vec<char>) -> (b: bool)
    ensures
        b == is_feed_type(k@),
{
    let a = chars_of("application/rss+xml");
    let b = chars_of("application/atom+xml");
    let c = chars_of("application/feed+json");
    let n = k.len();
    let ra = a.len() == n && range_eq(k.as_slice(), 0, n, a.as_slice());
    let rb = b.len() == n && range_eq(k.as_slice(), 0, n, b.as_slice());
    let rc = c.len() == n && range_eq(k.as_slice(), 0, n, c.as_slice());
    assert(k@.subrange(0, n as int) =~= k@);
    ra || rb || rc
}

/// The absolute URL of the first feed `<link rel="alternate">` (RSS, Atom
/// or JSON Feed) of `metadata`.
pub fn first_feed_link(metadata: &HtmlMetadata, base_url: &str) -> (r: Option<String>)
    ensures
        opt_view(r) == feed_link(tags_view(metadata.tags@), base_url@),
{
    if !parses_as_url(base_url) {
        return None;
    }
    let tags = &metadata.tags;
    let ghost all = tags_view(tags@);
    assert(all.skip(0) =~= all);
    let mut i: usize = 0;
    while i < tags.len()
        invariant
            i <= tags@.len(),
            tags@ == metadata.tags@,
            all == tags_view(tags@),
            url_parses(base_url@),
            feed_link(all, base_url@) == feed_link_scan(all.skip(i as int), base_url@),
        decreases tags@.len() - i,
    {
        let tag = &tags[i];
        assert(all.skip(i as int)[0] == tag@);
        assert(all.skip(i as int).drop_first() =~= all.skip(i + 1));
        if tag.kind() == HtmlTagType::Link {
            let rel = match tag.get("rel") {
                Some(r) => r,
                None => {
                    assert(!tag@.attributes.contains_key(lit_rel()));
                    assert(feed_link_scan(all.skip(i as int), base_url@) is None);
                    return None;
                },
            };
            let rel_l = ascii_lowercase(rel.as_str());
            if has_word_exec(&rel_l, "alternate") {
                let kind = match tag.get("type") {
                    Some(k) => k,
                    None => return None,
                };
                let kind_l = ascii_lowercase(kind.as_str());
                if is_feed_type_exec(&kind_l) {
                    match tag.get("href") {
                        Some(href) => {
                            return join_url(base_url, href.as_str());
                        },
                        None => {},
                    }
                }
            }
        }
        i += 1;
    }
    assert(all.skip(i as int) =~= Seq::<HtmlTagView>::empty());
    None
}

/// The icon choice over `tags`: the first plain icon (`rel` has the word
/// `icon` or `shortcut`) and the first `apple-touch-icon`, each resolved
/// against `base`; a link whose `href` does not resolve is passed over.
pub open spec fn icon_scan(tags: Seq<HtmlTagView>, base: Seq<char>, icon: Option<Seq<char>>, apple: Option<Seq<char>>) -> (
    Option<Seq<char>>,
    Option<Seq<char>>,
)
    decreases tags.len(),
{
    if tags.len() == 0 {
        (icon, apple)
    } else {
        let t = tags[0];
        let next = if t.tag_type != HtmlTagType::Link || !t.attributes.contains_key(lit_rel()) {
            (icon, apple)
        } else {
            let rel = ascii_lower(t.attributes[lit_rel()]);
            let is_icon = has_word(rel, "icon"@) || has_word(rel, "shortcut"@);
            let is_apple = has_word(rel, "apple-touch-icon"@);
            if !is_icon && !is_apple {
                (icon, apple)
            } else if !t.attributes.contains_key(lit_href()) {
                (icon, apple)
            } else {
                match url_joined(base, t.attributes[lit_href()]) {
                    None => (icon, apple),
                    Some(abs) => if is_icon && icon is None {
                        (Some(abs), apple)
                    } else if is_apple && apple is None {
                        (icon, Some(abs))
                    } else {
                        (icon, apple)
                    },
                }
            }
        };
        icon_scan(tags.drop_first(), base, next.0, next.1)
    }
}

/// The favicon a page's head names: its first plain icon, else its first
/// `apple-touch-icon`; nothing when `base` is not a URL.
pub open spec fn icon_link(tags: Seq<HtmlTagView>, base: Seq<char>) -> Option<Seq<char>> {
    if !url_parses(base) {
        None
    } else {
        let r = icon_scan(tags, base, None, None);
        if r.0 is Some {
            r.0
        } else {
            r.1
        }
    }
}

/// The absolute URL of the best favicon `<link>` in the head of
/// `html_bytes`: plain `icon`/`shortcut icon` over `apple-touch-icon`,
/// first one of each kind.
pub fn first_icon_link(html_bytes: &[u8], base_url: &str) -> (r: Option<String>)
    ensures
        opt_view(r) == icon_link(scan_tags(html_bytes@, 0, scans_past_head(base_url@)), base_url@),
{
    let metadata = extract_metadata(html_bytes, base_url);
    if !parses_as_url(base_url) {
        return None;
    }
    let tags = &metadata.tags;
    let ghost all = tags_view(tags@);
    assert(all == scan_tags(html_bytes@, 0, scans_past_head(base_url@)));
    assert(all.skip(0) =~= all);
    let mut icon: Option<String> = None;
    let mut apple: Option<String> = None;
    let mut i: usize = 0;
    while i < tags.len()
        invariant
            i <= tags@.len(),
            all == tags_view(tags@),
            icon_scan(all, base_url@, None, None) == icon_scan(all.skip(i as int), base_url@, opt_view(icon), opt_view(apple)),
        decreases tags@.len() - i,
    {
        let tag = &tags[i];
        assert(all.skip(i as int)[0] == tag@);
        assert(all.skip(i as int).drop_first() =~= all.skip(i + 1));
        if tag.kind() == HtmlTagType::Link {
            match tag.get("rel") {
                None => {},
                Some(rel_raw) => {
                    let rel = ascii_lowercase(rel_raw.as_str());
                    let is_icon = has_word_exec(&rel, "icon") || has_word_exec(&rel, "shortcut");
                    let is_apple = has_word_exec(&rel, "apple-touch-icon");
                    if is_icon || is_apple {
                        match tag.get("href") {
                            None => {},
                            Some(href) => match join_url(base_url, href.as_str()) {
                                None => {},
                                Some(abs) => {
                                    if is_icon && icon.is_none() {
                                        icon = Some(abs);
                                    } else if is_apple && apple.is_none() {
                                        apple = Some(abs);
                                    }
                                },
                            },
                        }
                    }
                },
            }
        }
        i += 1;
    }
    assert(all.skip(i as int) =~= Seq::<HtmlTagView>::empty());
    match icon {
        Some(x) => Some(x),
        None => apple,
    }
}

} // verus!
