//! Pieces of the RSS/Atom/OPML readers: item identity, link resolution,
//! attachments, and the OPML outline tree built from XML events.
use vstd::prelude::*;
use crate::chars::{chars_of, lossy_text, push_str_chars, string_from_chars, utf8_lossy, utf8_text};
use crate::database::opml::strs_view;
use crate::hashing::{md5_hex, md5_hex_of};
use crate::models::{opt_view, Attachment, AttachmentView, Author};
use crate::network::discovery::{ascii_lower, ascii_lowercase, join_url, starts_with, url_joined};
use crate::numbers::{parse_i64, parse_i64_exec, push_signed_decimal, signed_decimal};
use crate::bytes::{bytes_match_at, eq_ic, range_eq_ic, LT};
use crate::error::ParseError;
use crate::parser::atom::{atom_draft, atom_draft_from_events};
use crate::parser::rss::{feed_format_of_events, format_from, rss_draft, rss_draft_from_events, FeedFormat};
use crate::parser::{FeedDraft, FeedDraftView};
use crate::parser::xml_reader::{before_error, document_events, error_at, trimmed_text, trimmed_text_of, xml_events, xml_unescape, xml_unescaped, XmlEvent};

verus! {

/// `c` occurs in `s`.
pub open spec fn has_char(s: Seq<char>, c: char) -> bool {
    exists|i: int| 0 <= i < s.len() && s[i] == c
}

pub(crate) fn has_char_exec(v: &Vec<char>, c: char) -> (b: bool)
    ensures
        b == has_char(v@, c),
{
    let mut i: usize = 0;
    while i < v.len()
        invariant
            i <= v@.len(),
            forall|k: int| 0 <= k < i ==> v@[k] != c,
        decreases v@.len() - i,
    {
        if v[i] == c {
            return true;
        }
        i += 1;
    }
    false
}

pub(crate) fn starts_with_chars(v: &Vec<char>, prefix: &str) -> (b: bool)
    ensures
        b == starts_with(v@, prefix@),
{
    let p = chars_of(prefix);
    if p.len() > v.len() {
        return false;
    }
    assert(v@.subrange(0, p@.len() as int) =~= v@.take(prefix@.len() as int));
    crate::chars::range_eq(v.as_slice(), 0, p.len(), p.as_slice())
}

/// Whether a `<guid>` value can double as a permalink: no space, some `/`,
/// and not a `tag:` URI (in any case).
pub open spec fn guid_is_url(s: Seq<char>) -> bool {
    !has_char(s, ' ') && has_char(s, '/') && !starts_with(ascii_lower(s), "tag:"@)
}

pub fn guid_looks_like_url(s: &str) -> (b: bool)
    ensures
        b == guid_is_url(s@),
{
    let v = chars_of(s);
    if has_char_exec(&v, ' ') {
        return false;
    }
    if !has_char_exec(&v, '/') {
        return false;
    }
    let low = ascii_lowercase(s);
    !starts_with_chars(&low, "tag:")
}

/// The namespace prefixes whose elements an RSS item reads itself.
pub open spec fn consumed_prefix(p: Seq<u8>) -> bool {
    p == seq![0x64u8, 0x63u8] || p == seq![0x63u8, 0x6fu8, 0x6eu8, 0x74u8, 0x65u8, 0x6eu8, 0x74u8] || p == seq![
        0x6du8,
        0x65u8,
        0x64u8,
        0x69u8,
        0x61u8,
    ]
}

/// Whether an RSS item reads the elements of namespace `prefix` (`dc`,
/// `content`, `media`) rather than skipping them as an extension section.
pub fn rss_prefix_is_consumed(prefix: &[u8]) -> (b: bool)
    ensures
        b == consumed_prefix(prefix@),
{
    let dc: [u8; 2] = [0x64, 0x63];
    let content: [u8; 7] = [0x63, 0x6f, 0x6e, 0x74, 0x65, 0x6e, 0x74];
    let media: [u8; 5] = [0x6d, 0x65, 0x64, 0x69, 0x61];
    assert(dc@ == seq![0x64u8, 0x63u8]);
    assert(content@ == seq![0x63u8, 0x6fu8, 0x6eu8, 0x74u8, 0x65u8, 0x6eu8, 0x74u8]);
    assert(media@ == seq![0x6du8, 0x65u8, 0x64u8, 0x69u8, 0x61u8]);
    let n = prefix.len();
    let is_dc = n == 2 && crate::bytes::bytes_match_at(prefix, 0, &dc);
    let is_content = n == 7 && crate::bytes::bytes_match_at(prefix, 0, &content);
    let is_media = n == 5 && crate::bytes::bytes_match_at(prefix, 0, &media);
    assert(prefix@.subrange(0, n as int) =~= prefix@);
    is_dc || is_content || is_media
}

/// The `rel` of an Atom `<link>`.
#[derive(Debug, Clone, Copy, PartialEq, Eq, Structural)]
pub enum AtomLinkRel {
    Alternate,
    Related,
    Enclosure,
    Other,
}

impl AtomLinkRel {
    /// `alternate`, `related` and `enclosure` (exact); anything else is
    /// `Other`.
    pub fn from_str(s: &str) -> (r: AtomLinkRel)
        ensures
            r == (if s@ == "alternate"@ {
                AtomLinkRel::Alternate
            } else if s@ == "related"@ {
                AtomLinkRel::Related
            } else if s@ == "enclosure"@ {
                AtomLinkRel::Enclosure
            } else {
                AtomLinkRel::Other
            }),
    {
        if crate::chars::text_eq(s, "alternate") {
            AtomLinkRel::Alternate
        } else if crate::chars::text_eq(s, "related") {
            AtomLinkRel::Related
        } else if crate::chars::text_eq(s, "enclosure") {
            AtomLinkRel::Enclosure
        } else {
            AtomLinkRel::Other
        }
    }
}

/// An author being read: whatever of name, email and URL was seen.
#[derive(Debug, Default)]
pub struct MutableAuthor {
    pub name: Option<String>,
    pub email: Option<String>,
    pub url: Option<String>,
}

impl MutableAuthor {
    /// The author, unless nothing at all was seen.
    pub fn build(self) -> (r: Option<Author>)
        ensures
            (self.name is None && self.email is None && self.url is None) <==> r is None,
            r matches Some(a) ==> opt_view(a.name) == opt_view(self.name) && opt_view(a.email) == opt_view(self.email)
                && opt_view(a.url) == opt_view(self.url) && a.avatar_url is None,
    {
        if self.name.is_none() && self.email.is_none() && self.url.is_none() {
            return None;
        }
        Some(Author { name: self.name, url: self.url, avatar_url: None, email: self.email })
    }
}

/// A possibly relative URL resolved against the feed's home page: kept as
/// is when it starts with `http` (any case), when there is no usable base,
/// or when resolution fails.
pub open spec fn resolved_url(s: Seq<char>, base: Option<Seq<char>>) -> Seq<char> {
    if starts_with(ascii_lower(s), "http"@) {
        s
    } else {
        match base {
            None => s,
            Some(b) => match url_joined(b, s) {
                Some(j) => j,
                None => s,
            },
        }
    }
}

pub fn resolve_url(s: &str, base: Option<&str>) -> (r: String)
    ensures
        r@ == resolved_url(s@, match base {
            Some(b) => Some(b@),
            None => None,
        }),
{
    let low = ascii_lowercase(s);
    if starts_with_chars(&low, "http") {
        return String::from_str(s);
    }
    match base {
        None => String::from_str(s),
        Some(b) => match join_url(b, s) {
            Some(j) => j,
            None => String::from_str(s),
        },
    }
}

/// Non-empty text.
pub open spec fn filled(o: Option<Seq<char>>) -> bool {
    o matches Some(s) && s.len() > 0
}

/// The text an item id is hashed from, by precedence: a
/// permalink, link or title joined with the publication time, else the
/// time alone, else the permalink, link, title or body alone.
pub open spec fn id_source(
    permalink: Option<Seq<char>>,
    link: Option<Seq<char>>,
    title: Option<Seq<char>>,
    body: Option<Seq<char>>,
    date: Option<i64>,
) -> Seq<char> {
    match date {
        Some(d) => {
            let ds = signed_decimal(d as int);
            if filled(permalink) {
                permalink->0 + ds
            } else if filled(link) {
                link->0 + ds
            } else if filled(title) {
                title->0 + ds
            } else {
                ds
            }
        },
        None => if filled(permalink) {
            permalink->0
        } else if filled(link) {
            link->0
        } else if filled(title) {
            title->0
        } else if filled(body) {
            body->0
        } else {
            Seq::empty()
        },
    }
}

/// An item's id: its non-empty `guid`, else the hexadecimal MD5 of
/// `id_source`.
pub open spec fn item_id(
    guid: Option<Seq<char>>,
    permalink: Option<Seq<char>>,
    link: Option<Seq<char>>,
    title: Option<Seq<char>>,
    body: Option<Seq<char>>,
    date: Option<i64>,
) -> Seq<char> {
    if filled(guid) {
        guid->0
    } else {
        md5_hex(vstd::utf8::encode_utf8(id_source(permalink, link, title, body, date)))
    }
}

pub open spec fn opt_str_view(o: Option<&str>) -> Option<Seq<char>> {
    match o {
        Some(s) => Some(s@),
        None => None,
    }
}

fn is_filled(o: Option<&str>) -> (b: bool)
    ensures
        b == filled(opt_str_view(o)),
{
    match o {
        Some(s) => !s.is_empty(),
        None => false,
    }
}

/// The id of an item; `date_published` is its publication time in whole
/// seconds since the Unix epoch.
pub fn calculate_id(
    guid: Option<&str>,
    permalink: Option<&str>,
    link: Option<&str>,
    title: Option<&str>,
    body: Option<&str>,
    date_published: Option<i64>,
) -> (r: String)
    ensures
        r@ == item_id(
            opt_str_view(guid),
            opt_str_view(permalink),
            opt_str_view(link),
            opt_str_view(title),
            opt_str_view(body),
            date_published,
        ),
        !filled(opt_str_view(guid)) ==> r@.len() == 32,
{
    if is_filled(guid) {
        return String::from_str(guid.unwrap());
    }
    let mut s: Vec<char> = Vec::new();
    match date_published {
        Some(d) => {
            if is_filled(permalink) {
                push_str_chars(&mut s, permalink.unwrap());
            } else if is_filled(link) {
                push_str_chars(&mut s, link.unwrap());
            } else if is_filled(title) {
                push_str_chars(&mut s, title.unwrap());
            }
            push_signed_decimal(&mut s, d);
        },
        None => {
            if is_filled(permalink) {
                push_str_chars(&mut s, permalink.unwrap());
            } else if is_filled(link) {
                push_str_chars(&mut s, link.unwrap());
            } else if is_filled(title) {
                push_str_chars(&mut s, title.unwrap());
            } else if is_filled(body) {
                push_str_chars(&mut s, body.unwrap());
            }
        },
    }
    assert(s@ =~= id_source(
        opt_str_view(permalink),
        opt_str_view(link),
        opt_str_view(title),
        opt_str_view(body),
        date_published,
    ));
    let text = string_from_chars(s.as_slice());
    md5_hex_of(text.as_str().as_bytes())
}


// ---------------------------------------------------------------------------
// Element helpers of the RSS and Atom readers, over raw attribute lists
// ---------------------------------------------------------------------------

pub open spec fn key_url() -> Seq<u8> { seq![0x75u8, 0x72, 0x6c] }
pub open spec fn key_type() -> Seq<u8> { seq![0x74u8, 0x79, 0x70, 0x65] }
pub open spec fn key_duration() -> Seq<u8> { seq![0x64u8, 0x75, 0x72, 0x61, 0x74, 0x69, 0x6f, 0x6e] }
pub open spec fn key_href() -> Seq<u8> { seq![0x68u8, 0x72, 0x65, 0x66] }
pub open spec fn key_rel() -> Seq<u8> { seq![0x72u8, 0x65, 0x6c] }
pub open spec fn key_length() -> Seq<u8> { seq![0x6cu8, 0x65, 0x6e, 0x67, 0x74, 0x68] }
pub open spec fn key_xml_base() -> Seq<u8> { seq![0x78u8, 0x6d, 0x6c, 0x3a, 0x62, 0x61, 0x73, 0x65] }
pub open spec fn word_xhtml() -> Seq<u8> { seq![0x78u8, 0x68, 0x74, 0x6d, 0x6c] }

/// The text of raw attribute bytes, if they are UTF-8.
pub open spec fn utf8_value(b: Seq<u8>) -> Option<Seq<char>> {
    if vstd::utf8::valid_utf8(b) {
        Some(vstd::utf8::decode_utf8(b))
    } else {
        None
    }
}

/// A number above zero: the UTF-8 text as `str::parse::<i64>` reads it.
pub open spec fn positive_i64(b: Seq<u8>) -> Option<i64> {
    match utf8_value(b) {
        Some(t) => match parse_i64(t) {
            Some(n) => if n > 0 {
                Some(n)
            } else {
                None
            },
            None => None,
        },
        None => None,
    }
}

/// The fields of an enclosure read from its attributes in order; each
/// attribute overwrites its field (with `None` where it does not read).
pub struct EnclosureFields {
    pub url: Option<Seq<char>>,
    pub mime_type: Option<Seq<char>>,
    pub size: Option<i64>,
    pub duration: Option<i64>,
}

pub open spec fn enclosure_fields(attrs: Seq<(Vec<u8>, Vec<u8>)>, size_key: Seq<u8>) -> EnclosureFields
    decreases attrs.len(),
{
    if attrs.len() == 0 {
        EnclosureFields { url: None, mime_type: None, size: None, duration: None }
    } else {
        let f = enclosure_fields(attrs.drop_last(), size_key);
        let k = attrs.last().0@;
        let v = attrs.last().1@;
        if k == key_url() {
            EnclosureFields { url: utf8_value(v), ..f }
        } else if k == key_type() {
            EnclosureFields { mime_type: utf8_value(v), ..f }
        } else if k == size_key {
            EnclosureFields { size: positive_i64(v), ..f }
        } else if k == key_duration() {
            EnclosureFields { duration: positive_i64(v), ..f }
        } else {
            f
        }
    }
}

/// The attachment an enclosure-like tag describes: it needs a non-empty
/// `url`; `type`, a positive size under `size_key` and a positive
/// `duration` are optional.
pub open spec fn attachment_from(attrs: Seq<(Vec<u8>, Vec<u8>)>, size_key: Seq<u8>) -> Option<AttachmentView> {
    let f = enclosure_fields(attrs, size_key);
    match f.url {
        Some(u) => if u.len() > 0 {
            Some(
                AttachmentView {
                    url: u,
                    mime_type: f.mime_type,
                    title: None,
                    size_in_bytes: f.size,
                    duration_in_seconds: f.duration,
                },
            )
        } else {
            None
        },
        None => None,
    }
}

fn utf8_value_of(v: &Vec<u8>) -> (r: Option<String>)
    ensures
        opt_view(r) == utf8_value(v@),
{
    utf8_text(v.as_slice())
}

fn positive_i64_of(v: &Vec<u8>) -> (r: Option<i64>)
    ensures
        r == positive_i64(v@),
{
    match utf8_text(v.as_slice()) {
        Some(t) => match parse_i64_exec(t.as_str()) {
            Some(n) => if n > 0 {
                Some(n)
            } else {
                None
            },
            None => None,
        },
        None => None,
    }
}

pub(crate) fn key_is(k: &Vec<u8>, lit: &[u8]) -> (b: bool)
    ensures
        b == (k@ == lit@),
{
    if k.len() != lit.len() {
        return false;
    }
    let m = bytes_match_at(k.as_slice(), 0, lit);
    assert(k@.subrange(0, lit@.len() as int) =~= k@);
    m
}

/// The attachment an enclosure-like tag's attributes describe
/// (`attachment_from`); `size_key` is `length` for RSS enclosures and
/// `fileSize` for Media RSS.
pub fn attachment_from_attrs(attrs: &Vec<(Vec<u8>, Vec<u8>)>, size_key: &[u8]) -> (r: Option<Attachment>)
    ensures
        match r {
            Some(a) => attachment_from(attrs@, size_key@) == Some(a@),
            None => attachment_from(attrs@, size_key@) is None,
        },
{
    let url_key: [u8; 3] = [0x75, 0x72, 0x6c];
    let type_key: [u8; 4] = [0x74, 0x79, 0x70, 0x65];
    let duration_key: [u8; 8] = [0x64, 0x75, 0x72, 0x61, 0x74, 0x69, 0x6f, 0x6e];
    assert(url_key@ == key_url());
    assert(type_key@ == key_type());
    assert(duration_key@ == key_duration());
    let mut url: Option<String> = None;
    let mut mime_type: Option<String> = None;
    let mut size: Option<i64> = None;
    let mut duration: Option<i64> = None;
    let mut i: usize = 0;
    while i < attrs.len()
        invariant
            i <= attrs@.len(),
            url_key@ == key_url(),
            type_key@ == key_type(),
            duration_key@ == key_duration(),
            ({
                let f = enclosure_fields(attrs@.take(i as int), size_key@);
                opt_view(url) == f.url && opt_view(mime_type) == f.mime_type && size == f.size && duration
                    == f.duration
            }),
        decreases attrs@.len() - i,
    {
        assert(attrs@.take(i + 1).drop_last() =~= attrs@.take(i as int));
        assert(attrs@.take(i + 1).last() == attrs@[i as int]);
        let k = &attrs[i].0;
        let v = &attrs[i].1;
        if key_is(k, &url_key) {
            url = utf8_value_of(v);
        } else if key_is(k, &type_key) {
            mime_type = utf8_value_of(v);
        } else if key_is(k, size_key) {
            size = positive_i64_of(v);
        } else if key_is(k, &duration_key) {
            duration = positive_i64_of(v);
        }
        i += 1;
    }
    assert(attrs@.take(attrs@.len() as int) =~= attrs@);
    match url {
        Some(u) => if u.as_str().is_empty() {
            None
        } else {
            Some(Attachment { url: u, mime_type, title: None, size_in_bytes: size, duration_in_seconds: duration })
        },
        None => None,
    }
}

/// Some `type` attribute reads `xhtml`, in any ASCII case.
pub open spec fn type_is_xhtml(attrs: Seq<(Vec<u8>, Vec<u8>)>) -> bool {
    exists|i: int|
        0 <= i < attrs.len() && #[trigger] attrs[i].0@ == key_type() && vstd::utf8::valid_utf8(attrs[i].1@) && eq_ic(
            attrs[i].1@,
            word_xhtml(),
        )
}

/// Whether an Atom tag carries `type="xhtml"` (`type_is_xhtml`).
pub fn atom_type_is_xhtml(attrs: &Vec<(Vec<u8>, Vec<u8>)>) -> (b: bool)
    ensures
        b == type_is_xhtml(attrs@),
{
    let type_key: [u8; 4] = [0x74, 0x79, 0x70, 0x65];
    let xhtml: [u8; 5] = [0x78, 0x68, 0x74, 0x6d, 0x6c];
    assert(type_key@ == key_type());
    assert(xhtml@ == word_xhtml());
    let mut i: usize = 0;
    while i < attrs.len()
        invariant
            i <= attrs@.len(),
            type_key@ == key_type(),
            xhtml@ == word_xhtml(),
            forall|j: int|
                0 <= j < i ==> !(#[trigger] attrs@[j].0@ == key_type() && vstd::utf8::valid_utf8(attrs@[j].1@)
                    && eq_ic(attrs@[j].1@, word_xhtml())),
        decreases attrs@.len() - i,
    {
        let k = &attrs[i].0;
        let v = &attrs[i].1;
        if key_is(k, &type_key) && utf8_text(v.as_slice()).is_some() {
            assert(v@.subrange(0, v@.len() as int) =~= v@);
            if range_eq_ic(v.as_slice(), 0, v.len(), &xhtml) {
                return true;
            }
        }
        i += 1;
    }
    false
}

/// A value resolved against an `xml:base` (`resolved_url` with the base as
/// the fallback base).
pub fn resolved_url_string(s: String, xml_base: Option<&str>) -> (r: String)
    ensures
        r@ == resolved_url(s@, match xml_base {
            Some(b) => Some(b@),
            None => None,
        }),
{
    resolve_url(s.as_str(), xml_base)
}

/// An escaped-HTML body with its relative URLs resolved when an `xml:base`
/// is in effect and the content type is `html` or `text/html`; any other
/// type (plain text included) keeps the body as it is.
pub open spec fn resolved_body(html: Seq<char>, content_type: Option<Seq<char>>, xml_base: Option<Seq<char>>) -> Seq<char> {
    match xml_base {
        None => html,
        Some(b) => match content_type {
            Some(t) => if t == "html"@ || t == "text/html"@ {
                crate::parser::html_url_resolver::resolved_html(html, b)
            } else {
                html
            },
            None => html,
        },
    }
}

pub fn resolved_html_body(html: String, content_type: Option<&str>, xml_base: Option<&str>) -> (r: String)
    ensures
        r@ == resolved_body(html@, opt_str_view(content_type), opt_str_view(xml_base)),
{
    match xml_base {
        None => html,
        Some(base) => match content_type {
            Some(t) => if crate::chars::text_eq(t, "html") || crate::chars::text_eq(t, "text/html") {
                crate::parser::html_url_resolver::resolving_relative_urls(html.as_str(), base)
            } else {
                html
            },
            None => html,
        },
    }
}

/// The value of the first `xml:base` attribute that is UTF-8 and unescapes.
pub open spec fn first_xml_base(attrs: Seq<(Vec<u8>, Vec<u8>)>) -> Option<Seq<char>>
    decreases attrs.len(),
{
    if attrs.len() == 0 {
        None
    } else if attrs[0].0@ == key_xml_base() && utf8_value(attrs[0].1@) is Some && xml_unescaped(
        utf8_value(attrs[0].1@)->0,
    ) is Some {
        xml_unescaped(utf8_value(attrs[0].1@)->0)
    } else {
        first_xml_base(attrs.drop_first())
    }
}

/// A URL serialization whose scheme is `http` or `https` (a serialized URL
/// starts with its scheme and `:`).
pub open spec fn http_scheme(u: Seq<char>) -> bool {
    starts_with(u, "http:"@) || starts_with(u, "https:"@)
}

/// The base in effect for an element: its non-empty `xml:base` resolved
/// against the enclosing base (the document's when none), kept only when
/// the result is an http(s) URL; otherwise the enclosing base.
pub open spec fn effective_base(
    inherited: Option<Seq<char>>,
    attrs: Seq<(Vec<u8>, Vec<u8>)>,
    document_base: Option<Seq<char>>,
) -> Option<Seq<char>> {
    match first_xml_base(attrs) {
        None => inherited,
        Some(xb) => if xb.len() == 0 {
            inherited
        } else {
            let outer = if inherited is Some {
                inherited
            } else {
                document_base
            };
            match outer {
                None => None,
                Some(o) => match url_joined(o, xb) {
                    Some(j) => if http_scheme(j) {
                        Some(j)
                    } else {
                        inherited
                    },
                    None => inherited,
                },
            }
        },
    }
}

fn first_xml_base_of(attrs: &Vec<(Vec<u8>, Vec<u8>)>) -> (r: Option<String>)
    ensures
        opt_view(r) == first_xml_base(attrs@),
{
    let base_key: [u8; 8] = [0x78, 0x6d, 0x6c, 0x3a, 0x62, 0x61, 0x73, 0x65];
    assert(base_key@ == key_xml_base());
    let mut i: usize = 0;
    assert(attrs@.skip(0) =~= attrs@);
    while i < attrs.len()
        invariant
            i <= attrs@.len(),
            base_key@ == key_xml_base(),
            first_xml_base(attrs@) == first_xml_base(attrs@.skip(i as int)),
        decreases attrs@.len() - i,
    {
        let ghost rest = attrs@.skip(i as int);
        assert(rest[0] == attrs@[i as int]);
        assert(rest.drop_first() =~= attrs@.skip(i + 1));
        if key_is(&attrs[i].0, &base_key) {
            match utf8_text(attrs[i].1.as_slice()) {
                Some(t) => match xml_unescape(t.as_str()) {
                    Some(u) => return Some(u),
                    None => {},
                },
                None => {},
            }
        }
        i += 1;
    }
    None
}

fn starts_with_str(s: &str, prefix: &str) -> (b: bool)
    ensures
        b == starts_with(s@, prefix@),
{
    let v = chars_of(s);
    let p = chars_of(prefix);
    if p.len() > v.len() {
        return false;
    }
    assert(v@.subrange(0, p@.len() as int) =~= v@.take(p@.len() as int));
    crate::chars::range_eq(v.as_slice(), 0, p.len(), p.as_slice())
}

/// The base in effect for an element (`effective_base`).
pub fn effective_base_url(
    inherited: Option<String>,
    attrs: &Vec<(Vec<u8>, Vec<u8>)>,
    document_base: Option<&str>,
) -> (r: Option<String>)
    ensures
        opt_view(r) == effective_base(opt_view(inherited), attrs@, opt_str_view(document_base)),
{
    let xml_base = match first_xml_base_of(attrs) {
        Some(x) => x,
        None => return inherited,
    };
    if xml_base.as_str().is_empty() {
        return inherited;
    }
    let joined = match &inherited {
        Some(i) => join_url(i.as_str(), xml_base.as_str()),
        None => match document_base {
            Some(d) => join_url(d, xml_base.as_str()),
            None => return None,
        },
    };
    match joined {
        Some(j) => if starts_with_str(j.as_str(), "http:") || starts_with_str(j.as_str(), "https:") {
            Some(j)
        } else {
            inherited
        },
        None => inherited,
    }
}

pub open spec fn key_title() -> Seq<u8> { seq![0x74u8, 0x69, 0x74, 0x6c, 0x65] }

/// What an author's fields hold.
pub struct AuthorFields {
    pub name: Option<Seq<char>>,
    pub email: Option<Seq<char>>,
    pub url: Option<Seq<char>>,
}

pub open spec fn author_fields(a: MutableAuthor) -> AuthorFields {
    AuthorFields { name: opt_view(a.name), email: opt_view(a.email), url: opt_view(a.url) }
}

pub open spec fn attachments_view(v: Seq<Attachment>) -> Seq<AttachmentView> {
    v.map_values(|a: Attachment| a@)
}

/// What an Atom reader knows where a `<link>` stands: whether it is inside
/// an entry, an author or a `<source>`, the `xml:base` in effect, and the
/// fields a link can fill.
pub struct AtomLinkCtx {
    pub in_item: bool,
    pub in_author: bool,
    pub in_source: bool,
    pub xml_base: Option<String>,
    pub home_page_url: Option<String>,
    pub current_item_permalink: Option<String>,
    pub current_item_link: Option<String>,
    pub current_item_attachments: Vec<Attachment>,
    pub current_author: Option<MutableAuthor>,
}

pub struct AtomLinkCtxView {
    pub in_item: bool,
    pub in_author: bool,
    pub in_source: bool,
    pub xml_base: Option<Seq<char>>,
    pub home_page_url: Option<Seq<char>>,
    pub permalink: Option<Seq<char>>,
    pub link: Option<Seq<char>>,
    pub attachments: Seq<AttachmentView>,
    pub author: Option<AuthorFields>,
}

impl View for AtomLinkCtx {
    type V = AtomLinkCtxView;

    open spec fn view(&self) -> AtomLinkCtxView {
        AtomLinkCtxView {
            in_item: self.in_item,
            in_author: self.in_author,
            in_source: self.in_source,
            xml_base: opt_view(self.xml_base),
            home_page_url: opt_view(self.home_page_url),
            permalink: opt_view(self.current_item_permalink),
            link: opt_view(self.current_item_link),
            attachments: attachments_view(self.current_item_attachments@),
            author: match self.current_author {
                Some(a) => Some(author_fields(a)),
                None => None,
            },
        }
    }
}

pub open spec fn rel_of(t: Seq<char>) -> AtomLinkRel {
    if t == "alternate"@ {
        AtomLinkRel::Alternate
    } else if t == "related"@ {
        AtomLinkRel::Related
    } else if t == "enclosure"@ {
        AtomLinkRel::Enclosure
    } else {
        AtomLinkRel::Other
    }
}

/// The fields of a `<link>` read from its attributes in order. `rel`
/// defaults to `alternate` and changes only on UTF-8 values; the others
/// are overwritten by each attribute of their name.
pub struct LinkFields {
    pub href: Option<Seq<char>>,
    pub rel: AtomLinkRel,
    pub mime_type: Option<Seq<char>>,
    pub size: Option<i64>,
    pub title: Option<Seq<char>>,
}

pub open spec fn link_fields(attrs: Seq<(Vec<u8>, Vec<u8>)>) -> LinkFields
    decreases attrs.len(),
{
    if attrs.len() == 0 {
        LinkFields { href: None, rel: AtomLinkRel::Alternate, mime_type: None, size: None, title: None }
    } else {
        let f = link_fields(attrs.drop_last());
        let k = attrs.last().0@;
        let v = attrs.last().1@;
        if k == key_href() {
            LinkFields { href: utf8_value(v), ..f }
        } else if k == key_rel() {
            match utf8_value(v) {
                Some(t) => LinkFields { rel: rel_of(t), ..f },
                None => f,
            }
        } else if k == key_type() {
            LinkFields { mime_type: utf8_value(v), ..f }
        } else if k == key_length() {
            LinkFields { size: positive_i64(v), ..f }
        } else if k == key_title() {
            LinkFields { title: utf8_value(v), ..f }
        } else {
            f
        }
    }
}

/// What a `<link>` does. Inside `<source>`, or without a non-empty
/// `href`, nothing. Its `href` is resolved against the `xml:base` in
/// effect, else the home page. Inside an author it becomes the author's
/// URL when none is set. Inside an entry, `alternate` sets the permalink
/// and `related` the link when unset, and `enclosure` adds an attachment
/// (its `type`, `title` and positive `length` with it). At feed level, an
/// `alternate` link sets the home page when unset.
pub open spec fn atom_link_step(ctx: AtomLinkCtxView, attrs: Seq<(Vec<u8>, Vec<u8>)>) -> AtomLinkCtxView {
    let f = link_fields(attrs);
    if ctx.in_source || f.href is None || f.href->0.len() == 0 {
        ctx
    } else {
        let resolved = resolved_url(f.href->0, if ctx.xml_base is Some { ctx.xml_base } else { ctx.home_page_url });
        if ctx.in_author {
            match ctx.author {
                Some(a) => if a.url is None {
                    AtomLinkCtxView { author: Some(AuthorFields { url: Some(resolved), ..a }), ..ctx }
                } else {
                    ctx
                },
                None => ctx,
            }
        } else if ctx.in_item {
            match f.rel {
                AtomLinkRel::Alternate => if ctx.permalink is None {
                    AtomLinkCtxView { permalink: Some(resolved), ..ctx }
                } else {
                    ctx
                },
                AtomLinkRel::Related => if ctx.link is None {
                    AtomLinkCtxView { link: Some(resolved), ..ctx }
                } else {
                    ctx
                },
                AtomLinkRel::Enclosure => if resolved.len() > 0 {
                    AtomLinkCtxView {
                        attachments: ctx.attachments.push(
                            AttachmentView {
                                url: resolved,
                                mime_type: f.mime_type,
                                title: f.title,
                                size_in_bytes: f.size,
                                duration_in_seconds: None,
                            },
                        ),
                        ..ctx
                    }
                } else {
                    ctx
                },
                AtomLinkRel::Other => ctx,
            }
        } else if f.rel == AtomLinkRel::Alternate && ctx.home_page_url is None {
            AtomLinkCtxView { home_page_url: Some(resolved), ..ctx }
        } else {
            ctx
        }
    }
}

/// Applies a `<link>`'s attributes to the reader's state (`atom_link_step`).
pub fn handle_atom_link_attributes(attrs: &Vec<(Vec<u8>, Vec<u8>)>, ctx: &mut AtomLinkCtx)
    ensures
        final(ctx)@ == atom_link_step(old(ctx)@, attrs@),
{
    if ctx.in_source {
        return;
    }
    let href_key: [u8; 4] = [0x68, 0x72, 0x65, 0x66];
    let rel_key: [u8; 3] = [0x72, 0x65, 0x6c];
    let type_key: [u8; 4] = [0x74, 0x79, 0x70, 0x65];
    let length_key: [u8; 6] = [0x6c, 0x65, 0x6e, 0x67, 0x74, 0x68];
    let title_key: [u8; 5] = [0x74, 0x69, 0x74, 0x6c, 0x65];
    assert(href_key@ == key_href());
    assert(rel_key@ == key_rel());
    assert(type_key@ == key_type());
    assert(length_key@ == key_length());
    assert(title_key@ == key_title());
    let mut href: Option<String> = None;
    let mut rel = AtomLinkRel::Alternate;
    let mut mime_type: Option<String> = None;
    let mut size: Option<i64> = None;
    let mut title: Option<String> = None;
    let mut i: usize = 0;
    while i < attrs.len()
        invariant
            i <= attrs@.len(),
            href_key@ == key_href(),
            rel_key@ == key_rel(),
            type_key@ == key_type(),
            length_key@ == key_length(),
            title_key@ == key_title(),
            ({
                let f = link_fields(attrs@.take(i as int));
                opt_view(href) == f.href && rel == f.rel && opt_view(mime_type) == f.mime_type && size == f.size
                    && opt_view(title) == f.title
            }),
        decreases attrs@.len() - i,
    {
        assert(attrs@.take(i + 1).drop_last() =~= attrs@.take(i as int));
        assert(attrs@.take(i + 1).last() == attrs@[i as int]);
        let k = &attrs[i].0;
        let v = &attrs[i].1;
        if key_is(k, &href_key) {
            href = utf8_value_of(v);
        } else if key_is(k, &rel_key) {
            match utf8_value_of(v) {
                Some(t) => rel = AtomLinkRel::from_str(t.as_str()),
                None => {},
            }
        } else if key_is(k, &type_key) {
            mime_type = utf8_value_of(v);
        } else if key_is(k, &length_key) {
            size = positive_i64_of(v);
        } else if key_is(k, &title_key) {
            title = utf8_value_of(v);
        }
        i += 1;
    }
    assert(attrs@.take(attrs@.len() as int) =~= attrs@);
    let h = match href {
        Some(h) => h,
        None => return,
    };
    if h.as_str().is_empty() {
        return;
    }
    let resolved = match &ctx.xml_base {
        Some(base) => resolved_url_string(h, Some(base.as_str())),
        None => match &ctx.home_page_url {
            Some(home) => resolve_url(h.as_str(), Some(home.as_str())),
            None => resolve_url(h.as_str(), None),
        },
    };
    if ctx.in_author {
        match ctx.current_author.take() {
            Some(mut a) => {
                if a.url.is_none() {
                    a.url = Some(resolved);
                }
                ctx.current_author = Some(a);
            },
            None => {},
        }
        return;
    }
    if ctx.in_item {
        match rel {
            AtomLinkRel::Alternate => {
                if ctx.current_item_permalink.is_none() {
                    ctx.current_item_permalink = Some(resolved);
                }
            },
            AtomLinkRel::Related => {
                if ctx.current_item_link.is_none() {
                    ctx.current_item_link = Some(resolved);
                }
            },
            AtomLinkRel::Enclosure => {
                if !resolved.as_str().is_empty() {
                    let ghost before = ctx.current_item_attachments@;
                    let a = Attachment {
                        url: resolved,
                        mime_type,
                        title,
                        size_in_bytes: size,
                        duration_in_seconds: None,
                    };
                    let ghost av = a@;
                    ctx.current_item_attachments.push(a);
                    assert(attachments_view(ctx.current_item_attachments@) =~= attachments_view(before).push(av));
                }
            },
            AtomLinkRel::Other => {},
        }
    } else {
        match rel {
            AtomLinkRel::Alternate => {
                if ctx.home_page_url.is_none() {
                    ctx.home_page_url = Some(resolved);
                }
            },
            _ => {},
        }
    }
}

// ---------------------------------------------------------------------------
// OPML outlines read from XML events
// ---------------------------------------------------------------------------

/// One `<outline>` of an OPML document, with its nested outlines.
#[derive(Debug, PartialEq)]
pub struct OpmlItem {
    pub title: Option<String>,
    pub text: Option<String>,
    pub xml_url: Option<String>,
    pub html_url: Option<String>,
    pub children: Vec<OpmlItem>,
}

/// An OPML document as the event reader sees it: the head's title and the
/// top-level outlines.
#[derive(Debug, PartialEq)]
pub struct OpmlDocument {
    pub title: Option<String>,
    pub items: Vec<OpmlItem>,
}

pub struct OpmlItemView {
    pub title: Option<Seq<char>>,
    pub text: Option<Seq<char>>,
    pub xml_url: Option<Seq<char>>,
    pub html_url: Option<Seq<char>>,
    pub children: Seq<OpmlItemView>,
}

pub struct OpmlDocumentView {
    pub title: Option<Seq<char>>,
    pub items: Seq<OpmlItemView>,
}

pub open spec fn item_view(o: OpmlItem) -> OpmlItemView
    decreases o,
{
    OpmlItemView {
        title: opt_view(o.title),
        text: opt_view(o.text),
        xml_url: opt_view(o.xml_url),
        html_url: opt_view(o.html_url),
        children: items_view(o.children@),
    }
}

pub open spec fn items_view(s: Seq<OpmlItem>) -> Seq<OpmlItemView>
    decreases s,
{
    if s.len() == 0 {
        seq![]
    } else {
        items_view(s.drop_last()).push(item_view(s.last()))
    }
}

impl View for OpmlItem {
    type V = OpmlItemView;

    open spec fn view(&self) -> OpmlItemView {
        item_view(*self)
    }
}

impl View for OpmlDocument {
    type V = OpmlDocumentView;

    open spec fn view(&self) -> OpmlDocumentView {
        OpmlDocumentView { title: opt_view(self.title), items: items_view(self.items@) }
    }
}

pub proof fn lemma_items_view_push(s: Seq<OpmlItem>, x: OpmlItem)
    ensures
        items_view(s.push(x)) == items_view(s).push(item_view(x)),
{
    assert(s.push(x).drop_last() =~= s);
}

pub proof fn lemma_items_view_len(s: Seq<OpmlItem>)
    ensures
        items_view(s).len() == s.len(),
    decreases s.len(),
{
    if s.len() > 0 {
        lemma_items_view_len(s.drop_last());
    }
}

pub open spec fn tag_title() -> Seq<u8> {
    seq![116u8, 105, 116, 108, 101]
}

pub open spec fn tag_outline() -> Seq<u8> {
    seq![111u8, 117, 116, 108, 105, 110, 101]
}

pub open spec fn key_text() -> Seq<u8> {
    seq![116u8, 101, 120, 116]
}

pub open spec fn key_xml_url() -> Seq<u8> {
    seq![120u8, 109, 108, 85, 114, 108]
}

pub open spec fn key_html_url() -> Seq<u8> {
    seq![104u8, 116, 109, 108, 85, 114, 108]
}

pub open spec fn word_opml() -> Seq<u8> {
    seq![111u8, 112, 109, 108]
}

/// The value of the last attribute named `key`, decoded as UTF-8 with
/// invalid sequences replaced.
pub open spec fn attr_value(attrs: Seq<(Vec<u8>, Vec<u8>)>, key: Seq<u8>) -> Option<Seq<char>>
    decreases attrs.len(),
{
    if attrs.len() == 0 {
        None
    } else if attrs.last().0@ == key {
        Some(utf8_lossy(attrs.last().1@))
    } else {
        attr_value(attrs.drop_last(), key)
    }
}

/// The outline an `<outline>` tag describes, before any children.
pub open spec fn item_from_attrs(attrs: Seq<(Vec<u8>, Vec<u8>)>) -> OpmlItemView {
    OpmlItemView {
        title: attr_value(attrs, tag_title()),
        text: attr_value(attrs, key_text()),
        xml_url: attr_value(attrs, key_xml_url()),
        html_url: attr_value(attrs, key_html_url()),
        children: seq![],
    }
}

/// State of the OPML reader: the title read so far, the outlines still
/// open (innermost last), the finished top-level outlines, and whether a
/// `<title>` outside any outline is being read.
pub struct OpmlBuild {
    pub title: Option<Seq<char>>,
    pub stack: Seq<OpmlItemView>,
    pub roots: Seq<OpmlItemView>,
    pub collecting: bool,
}

pub open spec fn with_child(p: OpmlItemView, c: OpmlItemView) -> OpmlItemView {
    OpmlItemView {
        title: p.title,
        text: p.text,
        xml_url: p.xml_url,
        html_url: p.html_url,
        children: p.children.push(c),
    }
}

/// A finished outline goes to the innermost open outline, or to the top
/// level when none is open.
pub open spec fn attach(b: OpmlBuild, item: OpmlItemView) -> OpmlBuild {
    if b.stack.len() > 0 {
        OpmlBuild {
            title: b.title,
            stack: b.stack.drop_last().push(with_child(b.stack.last(), item)),
            roots: b.roots,
            collecting: b.collecting,
        }
    } else {
        OpmlBuild { title: b.title, stack: b.stack, roots: b.roots.push(item), collecting: b.collecting }
    }
}

/// One event of the OPML reader: `<title>` starts collecting the title
/// when no outline is open and `</title>` stops it; text while collecting
/// replaces the title when it unescapes; `<outline>` opens an outline and
/// `</outline>` closes the innermost one; `<outline/>` is a finished
/// outline; every other event changes nothing.
pub open spec fn opml_step(b: OpmlBuild, e: XmlEvent) -> OpmlBuild {
    match e {
        XmlEvent::Start { name, attributes, .. } => if name@ == tag_title() {
            OpmlBuild { title: b.title, stack: b.stack, roots: b.roots, collecting: b.stack.len() == 0 }
        } else if name@ == tag_outline() {
            OpmlBuild {
                title: b.title,
                stack: b.stack.push(item_from_attrs(attributes@)),
                roots: b.roots,
                collecting: b.collecting,
            }
        } else {
            b
        },
        XmlEvent::Empty { name, attributes, .. } => if name@ == tag_outline() {
            attach(b, item_from_attrs(attributes@))
        } else {
            b
        },
        XmlEvent::End { name } => if name@ == tag_title() {
            OpmlBuild { title: b.title, stack: b.stack, roots: b.roots, collecting: false }
        } else if name@ == tag_outline() && b.stack.len() > 0 {
            attach(
                OpmlBuild { title: b.title, stack: b.stack.drop_last(), roots: b.roots, collecting: b.collecting },
                b.stack.last(),
            )
        } else {
            b
        },
        XmlEvent::Text { raw } => match trimmed_text(raw@) {
            Some(Some(t)) => if b.collecting {
                OpmlBuild { title: Some(t), stack: b.stack, roots: b.roots, collecting: b.collecting }
            } else {
                b
            },
            _ => b,
        },
        _ => b,
    }
}

pub open spec fn opml_start() -> OpmlBuild {
    OpmlBuild { title: None, stack: seq![], roots: seq![], collecting: false }
}

pub open spec fn opml_fold(events: Seq<XmlEvent>) -> OpmlBuild
    decreases events.len(),
{
    if events.len() == 0 {
        opml_start()
    } else {
        opml_step(opml_fold(events.drop_last()), events.last())
    }
}

/// The document read from `events`, up to the first well-formedness
/// error: the title and the top-level outlines; outlines still open when
/// reading stops are dropped.
pub open spec fn events_document(events: Seq<XmlEvent>) -> OpmlDocumentView {
    let b = opml_fold(before_error(events));
    OpmlDocumentView { title: b.title, items: b.roots }
}

/// Whether the first 4096 bytes hold `<` followed by `opml` in any case.
pub open spec fn opml_marker(data: Seq<u8>) -> bool {
    let limit: int = if data.len() < 4096 { data.len() as int } else { 4096 };
    exists|i: int| 0 <= i && i + 4 < limit && #[trigger] data[i] == LT && eq_ic(data.subrange(i + 1, i + 5), word_opml())
}

pub(crate) fn bytes_eq(a: &[u8], b: &[u8]) -> (r: bool)
    ensures
        r == (a@ == b@),
{
    if a.len() != b.len() {
        return false;
    }
    let m = bytes_match_at(a, 0, b);
    assert(a@.subrange(0, b@.len() as int) =~= a@);
    m
}

/// Whether `data` looks like OPML: `<opml` (any case) among its first
/// 4096 bytes.
pub fn has_opml_marker(data: &[u8]) -> (b: bool)
    ensures
        b == opml_marker(data@),
{
    let limit: usize = if data.len() < 4096 { data.len() } else { 4096 };
    let word: [u8; 4] = [111, 112, 109, 108];
    assert(word@ == word_opml());
    let mut i: usize = 0;
    while i + 4 < limit
        invariant
            limit == (if data@.len() < 4096 { data@.len() as int } else { 4096 }),
            i <= limit,
            word@ == word_opml(),
            forall|k: int|
                0 <= k < i ==> !(#[trigger] data@[k] == LT && eq_ic(data@.subrange(k + 1, k + 5), word_opml())),
        decreases limit - i,
    {
        if data[i] == LT && range_eq_ic(data, i + 1, i + 5, &word) {
            return true;
        }
        i += 1;
    }
    assert forall|k: int| 0 <= k && k + 4 < limit implies !(#[trigger] data@[k] == LT && eq_ic(
        data@.subrange(k + 1, k + 5),
        word_opml(),
    )) by {}
    false
}

fn lossy_all(v: &Vec<u8>) -> (s: String)
    ensures
        s@ == utf8_lossy(v@),
{
    assert(v@.subrange(0, v@.len() as int) =~= v@);
    lossy_text(v.as_slice(), 0, v.len())
}

/// The outline an `<outline>` tag's attributes describe: `title`, `text`,
/// `xmlUrl` and `htmlUrl` (the last of each name wins), no children.
pub fn item_from_attributes(attrs: &Vec<(Vec<u8>, Vec<u8>)>) -> (item: OpmlItem)
    ensures
        item@ == item_from_attrs(attrs@),
{
    let title_key: [u8; 5] = [116, 105, 116, 108, 101];
    let text_key: [u8; 4] = [116, 101, 120, 116];
    let xml_key: [u8; 6] = [120, 109, 108, 85, 114, 108];
    let html_key: [u8; 7] = [104, 116, 109, 108, 85, 114, 108];
    assert(title_key@ == tag_title());
    assert(text_key@ == key_text());
    assert(xml_key@ == key_xml_url());
    assert(html_key@ == key_html_url());
    let mut item = OpmlItem { title: None, text: None, xml_url: None, html_url: None, children: Vec::new() };
    let mut i: usize = 0;
    while i < attrs.len()
        invariant
            i <= attrs@.len(),
            title_key@ == tag_title(),
            text_key@ == key_text(),
            xml_key@ == key_xml_url(),
            html_key@ == key_html_url(),
            item.children@.len() == 0,
            opt_view(item.title) == attr_value(attrs@.take(i as int), tag_title()),
            opt_view(item.text) == attr_value(attrs@.take(i as int), key_text()),
            opt_view(item.xml_url) == attr_value(attrs@.take(i as int), key_xml_url()),
            opt_view(item.html_url) == attr_value(attrs@.take(i as int), key_html_url()),
        decreases attrs@.len() - i,
    {
        let key = &attrs[i].0;
        let val = lossy_all(&attrs[i].1);
        assert(attrs@.take(i + 1).drop_last() =~= attrs@.take(i as int));
        assert(attrs@.take(i + 1).last() == attrs@[i as int]);
        if bytes_eq(key.as_slice(), &title_key) {
            item.title = Some(val);
        } else if bytes_eq(key.as_slice(), &text_key) {
            item.text = Some(val);
        } else if bytes_eq(key.as_slice(), &xml_key) {
            item.xml_url = Some(val);
        } else if bytes_eq(key.as_slice(), &html_key) {
            item.html_url = Some(val);
        }
        i += 1;
    }
    assert(attrs@.take(attrs@.len() as int) =~= attrs@);
    assert(item.children@ =~= Seq::<OpmlItem>::empty());
    item
}

/// The OPML reader's state, as executable values.
struct OpmlBuilder {
    title: Option<String>,
    stack: Vec<OpmlItem>,
    roots: Vec<OpmlItem>,
    collecting: bool,
}

impl View for OpmlBuilder {
    type V = OpmlBuild;

    closed spec fn view(&self) -> OpmlBuild {
        OpmlBuild {
            title: opt_view(self.title),
            stack: items_view(self.stack@),
            roots: items_view(self.roots@),
            collecting: self.collecting,
        }
    }
}

impl OpmlBuilder {
    fn attach_item(&mut self, item: OpmlItem)
        ensures
            final(self)@ == attach(old(self)@, item@),
    {
        let ghost b = old(self)@;
        proof {
            lemma_items_view_len(self.stack@);
        }
        match self.stack.pop() {
            Some(mut parent) => {
                let ghost s0 = old(self).stack@;
                assert(s0.drop_last() == self.stack@);
                assert(items_view(s0) == items_view(self.stack@).push(item_view(parent)));
                let ghost pc = parent.children@;
                parent.children.push(item);
                proof {
                    lemma_items_view_push(pc, item);
                    lemma_items_view_push(self.stack@, parent);
                }
                assert(item_view(parent) == with_child(item_view(s0.last()), item@));
                self.stack.push(parent);
                assert(items_view(s0).drop_last() == items_view(s0.drop_last()));
            },
            None => {
                proof {
                    lemma_items_view_push(self.roots@, item);
                }
                self.roots.push(item);
            },
        }
    }

    fn step(&mut self, e: &XmlEvent)
        ensures
            final(self)@ == opml_step(old(self)@, *e),
    {
        let t: [u8; 5] = [116, 105, 116, 108, 101];
        let o: [u8; 7] = [111, 117, 116, 108, 105, 110, 101];
        assert(t@ == tag_title());
        assert(o@ == tag_outline());
        match e {
            XmlEvent::Start { name, attributes, .. } => {
                if bytes_eq(name.as_slice(), &t) {
                    self.collecting = self.stack.len() == 0;
                    proof {
                        lemma_items_view_len(self.stack@);
                    }
                } else if bytes_eq(name.as_slice(), &o) {
                    let item = item_from_attributes(attributes);
                    proof {
                        lemma_items_view_push(self.stack@, item);
                    }
                    self.stack.push(item);
                }
            },
            XmlEvent::Empty { name, attributes, .. } => {
                if bytes_eq(name.as_slice(), &o) {
                    let item = item_from_attributes(attributes);
                    self.attach_item(item);
                }
            },
            XmlEvent::End { name } => {
                if bytes_eq(name.as_slice(), &t) {
                    self.collecting = false;
                } else if bytes_eq(name.as_slice(), &o) {
                    let ghost s0 = self.stack@;
                    proof {
                        lemma_items_view_len(s0);
                    }
                    match self.stack.pop() {
                        Some(item) => {
                            assert(items_view(s0) == items_view(s0.drop_last()).push(item_view(s0.last())));
                            assert(items_view(s0).drop_last() =~= items_view(s0.drop_last()));
                            assert(items_view(s0).last() == item@);
                            self.attach_item(item);
                        },
                        None => {},
                    }
                }
            },
            XmlEvent::Text { raw } => {
                if self.collecting {
                    match trimmed_text_of(raw) {
                        Some(Some(text)) => self.title = Some(text),
                        _ => {},
                    }
                }
            },
            _ => {},
        }
    }
}

/// The document that `events` describe, read as OPML.
pub fn opml_document_from_events(events: &Vec<XmlEvent>) -> (doc: OpmlDocument)
    ensures
        doc@ == events_document(events@),
{
    let mut b = OpmlBuilder { title: None, stack: Vec::new(), roots: Vec::new(), collecting: false };
    assert(b.stack@ =~= Seq::<OpmlItem>::empty());
    assert(b.roots@ =~= Seq::<OpmlItem>::empty());
    assert(b@ == opml_fold(events@.take(0)));
    let mut i: usize = 0;
    while i < events.len()
        invariant
            i <= events@.len(),
            b@ == opml_fold(events@.take(i as int)),
            error_at(events@, 0) == error_at(events@, i as int),
        ensures
            i <= events@.len(),
            b@ == opml_fold(events@.take(i as int)),
            error_at(events@, 0) == i,
        decreases events@.len() - i,
    {
        if let XmlEvent::Malformed = &events[i] {
            break;
        }
        assert(events@.take(i + 1).drop_last() =~= events@.take(i as int));
        b.step(&events[i]);
        i += 1;
    }
    assert(before_error(events@) =~= events@.take(i as int));
    OpmlDocument { title: b.title, items: b.roots }
}

/// Reads an OPML document: the bytes must hold `<opml` (any case) among
/// their first 4096, else the format is unknown. The title is the text of
/// a `<title>` outside any outline; outlines nest as the tags do; reading
/// stops at the first XML error, keeping what was read.
pub fn parse_opml(data: &[u8]) -> (r: Result<OpmlDocument, ParseError>)
    requires
        data@.len() < usize::MAX,
    ensures
        r is Err <==> !opml_marker(data@),
        r matches Err(e) ==> e == ParseError::UnknownFormat,
        r matches Ok(doc) ==> exists|events: Seq<XmlEvent>| document_events(data@, events) && doc@ == events_document(events),
{
    if !has_opml_marker(data) {
        return Err(ParseError::UnknownFormat);
    }
    let events = xml_events(data);
    let doc = opml_document_from_events(&events);
    assert(doc@ == events_document(events@));
    Ok(doc)
}

// ---------------------------------------------------------------------
// Feeds in XML
// ---------------------------------------------------------------------

/// The XML reading of a document with events `events`: RSS or RSS 1.0
/// and Atom by the first element that names a format; OPML and other
/// documents are no feed.
pub open spec fn xml_feed_reading(events: Seq<XmlEvent>, feed_url: Seq<char>) -> Option<FeedDraftView> {
    match format_from(events, 0) {
        FeedFormat::Rss => Some(FeedDraftView::Rss(rss_draft(events, feed_url, false))),
        FeedFormat::Rdf => Some(FeedDraftView::Rss(rss_draft(events, feed_url, true))),
        FeedFormat::Atom => Some(FeedDraftView::Atom(atom_draft(events, feed_url))),
        _ => None,
    }
}

/// Reads an XML feed: RSS (RSS 1.0 where the root is `RDF` or `rdf:RDF`)
/// or Atom, by the first element that names a format; OPML and any other
/// document are of unknown format here.
pub fn parse_feed(data: &[u8], feed_url: &str) -> (r: Result<FeedDraft, ParseError>)
    requires
        data@.len() < usize::MAX,
    ensures
        exists|events: Seq<XmlEvent>| {
            &&& document_events(data@, events)
            &&& match r {
                Ok(d) => xml_feed_reading(events, feed_url@) == Some(d@),
                Err(e) => e == ParseError::UnknownFormat && xml_feed_reading(events, feed_url@) is None,
            }
        },
{
    let events = xml_events(data);
    match feed_format_of_events(&events) {
        FeedFormat::Rss => Ok(FeedDraft::Rss(rss_draft_from_events(&events, feed_url, false))),
        FeedFormat::Rdf => Ok(FeedDraft::Rss(rss_draft_from_events(&events, feed_url, true))),
        FeedFormat::Atom => Ok(FeedDraft::Atom(atom_draft_from_events(&events, feed_url))),
        _ => Err(ParseError::UnknownFormat),
    }
}

} // verus!

