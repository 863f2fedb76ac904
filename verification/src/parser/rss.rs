//! The RSS 2.0 and RSS 1.0 (RDF) reader, over the events of
//! `xml_reader`. Publication dates are read by a date parser the caller
//! supplies: the reader keeps each item's date texts, and `finish_rss`
//! takes their parsed values to give the items their dates and ids.
use vstd::prelude::*;
use crate::bytes::eq_ic;
use crate::chars::{chars_of, lossy_text, utf8_lossy, utf8_text};
use crate::error::ParseError;
use crate::models::{
    attachment_list_view, authors_view, duplicate_attachments, duplicate_authors, opt_clone, opt_view, parsed_items_view, Attachment, AttachmentView, Author,
    AuthorView, ParsedFeed, ParsedFeedView, ParsedItem, ParsedItemView,
};
use crate::network::discovery::starts_with;
use crate::parser::xml::{
    attachment_from, attachment_from_attrs, bytes_eq, calculate_id, consumed_prefix, guid_is_url, guid_looks_like_url,
    has_char, has_char_exec, item_id, key_is, key_length, key_title, key_url, opt_str_view, resolve_url, resolved_url,
    rss_prefix_is_consumed, starts_with_chars, utf8_value,
};
use crate::parser::xml_reader::{document_events, trimmed_text, trimmed_text_of, xml_events, XmlEvent};

verus! {

pub open spec fn w_item() -> Seq<u8> { seq![105u8, 116, 101, 109] }
pub open spec fn w_image() -> Seq<u8> { seq![105u8, 109, 97, 103, 101] }
pub open spec fn w_enclosure() -> Seq<u8> { seq![101u8, 110, 99, 108, 111, 115, 117, 114, 101] }
pub open spec fn w_content() -> Seq<u8> { seq![99u8, 111, 110, 116, 101, 110, 116] }
pub open spec fn w_thumbnail() -> Seq<u8> { seq![116u8, 104, 117, 109, 98, 110, 97, 105, 108] }
pub open spec fn w_guid() -> Seq<u8> { seq![103u8, 117, 105, 100] }
pub open spec fn w_rss() -> Seq<u8> { seq![114u8, 115, 115] }
pub open spec fn w_rdf() -> Seq<u8> { seq![82u8, 68, 70] }
pub open spec fn w_link() -> Seq<u8> { seq![108u8, 105, 110, 107] }
pub open spec fn w_description() -> Seq<u8> { seq![100u8, 101, 115, 99, 114, 105, 112, 116, 105, 111, 110] }
pub open spec fn w_encoded() -> Seq<u8> { seq![101u8, 110, 99, 111, 100, 101, 100] }
pub open spec fn w_pubdate() -> Seq<u8> { seq![112u8, 117, 98, 68, 97, 116, 101] }
pub open spec fn w_date() -> Seq<u8> { seq![100u8, 97, 116, 101] }
pub open spec fn w_creator() -> Seq<u8> { seq![99u8, 114, 101, 97, 116, 111, 114] }
pub open spec fn w_author() -> Seq<u8> { seq![97u8, 117, 116, 104, 111, 114] }
pub open spec fn w_language() -> Seq<u8> { seq![108u8, 97, 110, 103, 117, 97, 103, 101] }
pub open spec fn w_rdf_about() -> Seq<u8> { seq![114u8, 100, 102, 58, 97, 98, 111, 117, 116] }
pub open spec fn w_filesize() -> Seq<u8> { seq![102u8, 105, 108, 101, 83, 105, 122, 101] }
pub open spec fn w_ispermalink() -> Seq<u8> { seq![105u8, 115, 112, 101, 114, 109, 97, 108, 105, 110, 107] }
pub open spec fn w_false() -> Seq<u8> { seq![102u8, 97, 108, 115, 101] }

fn word_item() -> (w: [u8; 4]) ensures w@ == w_item() { [105, 116, 101, 109] }
fn word_image() -> (w: [u8; 5]) ensures w@ == w_image() { [105, 109, 97, 103, 101] }
fn word_enclosure() -> (w: [u8; 9]) ensures w@ == w_enclosure() { [101, 110, 99, 108, 111, 115, 117, 114, 101] }
pub(crate) fn word_content() -> (w: [u8; 7]) ensures w@ == w_content() { [99, 111, 110, 116, 101, 110, 116] }
fn word_thumbnail() -> (w: [u8; 9]) ensures w@ == w_thumbnail() { [116, 104, 117, 109, 98, 110, 97, 105, 108] }
fn word_guid() -> (w: [u8; 4]) ensures w@ == w_guid() { [103, 117, 105, 100] }
fn word_rss() -> (w: [u8; 3]) ensures w@ == w_rss() { [114, 115, 115] }
fn word_rdf() -> (w: [u8; 3]) ensures w@ == w_rdf() { [82, 68, 70] }
pub(crate) fn word_title() -> (w: [u8; 5]) ensures w@ == key_title() { [116, 105, 116, 108, 101] }
pub(crate) fn word_link() -> (w: [u8; 4]) ensures w@ == w_link() { [108, 105, 110, 107] }
fn word_description() -> (w: [u8; 11]) ensures w@ == w_description() { [100, 101, 115, 99, 114, 105, 112, 116, 105, 111, 110] }
fn word_encoded() -> (w: [u8; 7]) ensures w@ == w_encoded() { [101, 110, 99, 111, 100, 101, 100] }
fn word_pubdate() -> (w: [u8; 7]) ensures w@ == w_pubdate() { [112, 117, 98, 68, 97, 116, 101] }
fn word_date() -> (w: [u8; 4]) ensures w@ == w_date() { [100, 97, 116, 101] }
fn word_creator() -> (w: [u8; 7]) ensures w@ == w_creator() { [99, 114, 101, 97, 116, 111, 114] }
fn word_author() -> (w: [u8; 6]) ensures w@ == w_author() { [97, 117, 116, 104, 111, 114] }
fn word_language() -> (w: [u8; 8]) ensures w@ == w_language() { [108, 97, 110, 103, 117, 97, 103, 101] }
fn word_url() -> (w: [u8; 3]) ensures w@ == key_url() { [117, 114, 108] }
fn word_rdf_about() -> (w: [u8; 9]) ensures w@ == w_rdf_about() { [114, 100, 102, 58, 97, 98, 111, 117, 116] }
fn word_length() -> (w: [u8; 6]) ensures w@ == key_length() { [108, 101, 110, 103, 116, 104] }
fn word_filesize() -> (w: [u8; 8]) ensures w@ == w_filesize() { [102, 105, 108, 101, 83, 105, 122, 101] }
fn word_ispermalink() -> (w: [u8; 11]) ensures w@ == w_ispermalink() { [105, 115, 112, 101, 114, 109, 97, 108, 105, 110, 107] }
fn word_false() -> (w: [u8; 5]) ensures w@ == w_false() { [102, 97, 108, 115, 101] }

// ---------------------------------------------------------------------
// Qualified names
// ---------------------------------------------------------------------

/// The position of the first `:` at or after `i`.
pub open spec fn colon_from(n: Seq<u8>, i: int) -> Option<int>
    decreases n.len() - i,
{
    if i < 0 || i >= n.len() {
        None
    } else if n[i] == 58u8 {
        Some(i)
    } else {
        colon_from(n, i + 1)
    }
}

/// The local part of a qualified name: what follows its first `:`, or the
/// whole name when it has none (`QName::local_name`).
pub open spec fn local_part(n: Seq<u8>) -> Seq<u8> {
    match colon_from(n, 0) {
        Some(c) => n.skip(c + 1),
        None => n,
    }
}

/// The prefix of a qualified name: what precedes its first `:`, if it has
/// one (`QName::prefix`).
pub open spec fn prefix_of(n: Seq<u8>) -> Option<Seq<u8>> {
    match colon_from(n, 0) {
        Some(c) => Some(n.take(c)),
        None => None,
    }
}

proof fn lemma_colon_from_range(n: Seq<u8>, i: int)
    ensures
        colon_from(n, i) matches Some(c) ==> i <= c < n.len() && n[c] == 58u8,
    decreases n.len() - i,
{
    if 0 <= i < n.len() && n[i] != 58u8 {
        lemma_colon_from_range(n, i + 1);
    }
}

pub(crate) fn copy_range(n: &Vec<u8>, a: usize, b: usize) -> (r: Vec<u8>)
    requires
        a <= b <= n@.len(),
    ensures
        r@ == n@.subrange(a as int, b as int),
{
    let mut r: Vec<u8> = Vec::new();
    let mut i = a;
    while i < b
        invariant
            a <= i <= b <= n@.len(),
            r@ == n@.subrange(a as int, i as int),
        decreases b - i,
    {
        r.push(n[i]);
        assert(n@.subrange(a as int, i + 1) =~= n@.subrange(a as int, i as int).push(n@[i as int]));
        i += 1;
    }
    r
}

/// The local part and the prefix of a qualified name.
pub(crate) fn name_parts(n: &Vec<u8>) -> (r: (Vec<u8>, Option<Vec<u8>>))
    ensures
        r.0@ == local_part(n@),
        match r.1 {
            Some(p) => prefix_of(n@) == Some(p@),
            None => prefix_of(n@) is None,
        },
{
    let mut i: usize = 0;
    while i < n.len()
        invariant
            i <= n@.len(),
            colon_from(n@, 0) == colon_from(n@, i as int),
        decreases n@.len() - i,
    {
        if n[i] == 58 {
            let local = copy_range(n, i + 1, n.len());
            let prefix = copy_range(n, 0, i);
            assert(n@.skip(i + 1) =~= n@.subrange(i + 1, n@.len() as int));
            assert(n@.take(i as int) =~= n@.subrange(0, i as int));
            return (local, Some(prefix));
        }
        i += 1;
    }
    let whole = copy_range(n, 0, n.len());
    assert(n@.subrange(0, n@.len() as int) =~= n@);
    (whole, None)
}

// ---------------------------------------------------------------------
// The drafts the reader builds
// ---------------------------------------------------------------------

/// An item as read, before its date texts are parsed: `url` is the
/// permalink (from an RDF `rdf:about` or a permalink `<guid>`), and
/// `external_url` the `<link>`.
#[derive(Debug, Clone, PartialEq)]
pub struct RssItemDraft {
    pub guid: Option<String>,
    pub title: Option<String>,
    pub content_html: Option<String>,
    pub url: Option<String>,
    pub external_url: Option<String>,
    pub date_texts: Vec<String>,
    pub authors: Vec<Author>,
    pub attachments: Vec<Attachment>,
}

pub struct ItemDraftView {
    pub guid: Option<Seq<char>>,
    pub title: Option<Seq<char>>,
    pub body: Option<Seq<char>>,
    pub permalink: Option<Seq<char>>,
    pub link: Option<Seq<char>>,
    pub dates: Seq<Seq<char>>,
    pub authors: Seq<AuthorView>,
    pub attachments: Seq<AttachmentView>,
}

pub open spec fn texts_view(v: Seq<String>) -> Seq<Seq<char>> {
    v.map_values(|s: String| s@)
}

impl View for RssItemDraft {
    type V = ItemDraftView;

    open spec fn view(&self) -> ItemDraftView {
        ItemDraftView {
            guid: opt_view(self.guid),
            title: opt_view(self.title),
            body: opt_view(self.content_html),
            permalink: opt_view(self.url),
            link: opt_view(self.external_url),
            dates: texts_view(self.date_texts@),
            authors: authors_view(self.authors@),
            attachments: attachment_list_view(self.attachments@),
        }
    }
}

pub open spec fn drafts_view(v: Seq<RssItemDraft>) -> Seq<ItemDraftView> {
    v.map_values(|d: RssItemDraft| d@)
}

/// A feed as read, with its items still drafts.
#[derive(Debug, Clone, PartialEq)]
pub struct RssDraft {
    pub title: Option<String>,
    pub home_page_url: Option<String>,
    pub feed_url: Option<String>,
    pub icon_url: Option<String>,
    pub language: Option<String>,
    pub items: Vec<RssItemDraft>,
}

pub struct RssDraftView {
    pub title: Option<Seq<char>>,
    pub home_page_url: Option<Seq<char>>,
    pub feed_url: Option<Seq<char>>,
    pub icon_url: Option<Seq<char>>,
    pub language: Option<Seq<char>>,
    pub items: Seq<ItemDraftView>,
}

impl View for RssDraft {
    type V = RssDraftView;

    open spec fn view(&self) -> RssDraftView {
        RssDraftView {
            title: opt_view(self.title),
            home_page_url: opt_view(self.home_page_url),
            feed_url: opt_view(self.feed_url),
            icon_url: opt_view(self.icon_url),
            language: opt_view(self.language),
            items: drafts_view(self.items@),
        }
    }
}

// ---------------------------------------------------------------------
// The reader, as a fold over events
// ---------------------------------------------------------------------

/// State of the RSS reader: the channel fields, the finished items, the
/// item being read, whether an `<item>` or the channel `<image>` is open,
/// whether the open `<guid>` may be a permalink, the depth inside a
/// skipped namespaced section of an item, the local name of the element
/// whose text comes next, and whether the document's closing tag was seen.
pub struct RssState {
    pub title: Option<Seq<char>>,
    pub home: Option<Seq<char>>,
    pub language: Option<Seq<char>>,
    pub icon: Option<Seq<char>>,
    pub items: Seq<ItemDraftView>,
    pub in_item: bool,
    pub in_image: bool,
    pub cur: ItemDraftView,
    pub guid_is_permalink: bool,
    pub skip_depth: nat,
    pub tag: Seq<u8>,
    pub done: bool,
}

/// An item with nothing read.
pub open spec fn blank_item() -> ItemDraftView {
    ItemDraftView {
        guid: None,
        title: None,
        body: None,
        permalink: None,
        link: None,
        dates: seq![],
        authors: seq![],
        attachments: seq![],
    }
}

pub open spec fn rss_start_state() -> RssState {
    RssState {
        title: None,
        home: None,
        language: None,
        icon: None,
        items: seq![],
        in_item: false,
        in_image: false,
        cur: blank_item(),
        guid_is_permalink: true,
        skip_depth: 0,
        tag: seq![],
        done: false,
    }
}

/// The value of the last `rdf:about` attribute whose value is UTF-8.
pub open spec fn rdf_about(attrs: Seq<(Vec<u8>, Vec<u8>)>) -> Option<Seq<char>>
    decreases attrs.len(),
{
    if attrs.len() == 0 {
        None
    } else if attrs.last().0@ == w_rdf_about() && utf8_value(attrs.last().1@) is Some {
        utf8_value(attrs.last().1@)
    } else {
        rdf_about(attrs.drop_last())
    }
}

/// Some attribute is named `url`.
pub open spec fn has_url_attr(attrs: Seq<(Vec<u8>, Vec<u8>)>) -> bool
    decreases attrs.len(),
{
    if attrs.len() == 0 {
        false
    } else {
        attrs.last().0@ == key_url() || has_url_attr(attrs.drop_last())
    }
}

/// Some attribute says `isPermaLink="false"` (both in any ASCII case).
pub open spec fn says_not_permalink(attrs: Seq<(Vec<u8>, Vec<u8>)>) -> bool
    decreases attrs.len(),
{
    if attrs.len() == 0 {
        false
    } else {
        (eq_ic(attrs.last().0@, w_ispermalink()) && utf8_value(attrs.last().1@) is Some && eq_ic(
            attrs.last().1@,
            w_false(),
        )) || says_not_permalink(attrs.drop_last())
    }
}

/// `s` with the attachment `a` added to the open item, if there is one.
pub open spec fn with_attachment(s: RssState, a: Option<AttachmentView>) -> RssState {
    match a {
        Some(att) => RssState { cur: ItemDraftView { attachments: s.cur.attachments.push(att), ..s.cur }, ..s },
        None => s,
    }
}

/// A media element (`content`/`thumbnail`) of an item is an attachment
/// only when it has a `url` attribute (which tells MRSS `<media:content>`
/// from `<content:encoded>`).
pub open spec fn media_attachment(attrs: Seq<(Vec<u8>, Vec<u8>)>) -> Option<AttachmentView> {
    if has_url_attr(attrs) {
        attachment_from(attrs, w_filesize())
    } else {
        None
    }
}

/// A prefixed element inside an item whose prefix the reader does not
/// consume (`dc`, `content`, `media`) opens a skipped section.
pub open spec fn foreign_in_item(s: RssState, name: Seq<u8>) -> bool {
    s.in_item && match prefix_of(name) {
        Some(p) => !consumed_prefix(p),
        None => false,
    }
}

pub open spec fn rss_on_start(s: RssState, name: Seq<u8>, attrs: Seq<(Vec<u8>, Vec<u8>)>, is_rdf: bool) -> RssState {
    if s.skip_depth > 0 {
        RssState { skip_depth: s.skip_depth + 1, tag: seq![], ..s }
    } else if foreign_in_item(s, name) {
        RssState { skip_depth: 1, tag: seq![], ..s }
    } else {
        let local = local_part(name);
        let s1 = RssState { tag: local, ..s };
        if local == w_item() {
            let about = if is_rdf { rdf_about(attrs) } else { None };
            RssState {
                in_item: true,
                cur: ItemDraftView { guid: about, permalink: about, ..blank_item() },
                guid_is_permalink: true,
                ..s1
            }
        } else if !s.in_item && local == w_image() {
            RssState { in_image: true, ..s1 }
        } else if s.in_item && local == w_enclosure() {
            with_attachment(s1, attachment_from(attrs, key_length()))
        } else if s.in_item && (local == w_content() || local == w_thumbnail()) {
            with_attachment(s1, media_attachment(attrs))
        } else if s.in_item && local == w_guid() && says_not_permalink(attrs) {
            RssState { guid_is_permalink: false, ..s1 }
        } else {
            s1
        }
    }
}

pub open spec fn rss_on_empty(s: RssState, name: Seq<u8>, attrs: Seq<(Vec<u8>, Vec<u8>)>) -> RssState {
    if s.skip_depth > 0 || foreign_in_item(s, name) {
        s
    } else {
        let local = local_part(name);
        if s.in_item && local == w_enclosure() {
            with_attachment(s, attachment_from(attrs, key_length()))
        } else if s.in_item && (local == w_content() || local == w_thumbnail()) {
            with_attachment(s, media_attachment(attrs))
        } else {
            s
        }
    }
}

/// The author a `<dc:creator>`/`<author>` text names: an email address
/// when it holds `@`, a URL when it starts with `http`, a name otherwise.
pub open spec fn author_of(t: Seq<char>) -> AuthorView {
    if has_char(t, '@') {
        AuthorView { name: None, url: None, avatar_url: None, email: Some(t) }
    } else if starts_with(t, "http"@) {
        AuthorView { name: None, url: Some(t), avatar_url: None, email: None }
    } else {
        AuthorView { name: Some(t), url: None, avatar_url: None, email: None }
    }
}

/// Text inside an item: the first `title`, `link` (resolved against the
/// home page) and `description`; any `content:encoded` (which wins over
/// the description); every `guid` (also the permalink when it may be one,
/// looks like a URL and no permalink is known yet); every `pubDate` or
/// `dc:date` text; and every `dc:creator`/`author`.
pub open spec fn item_text(s: RssState, t: Seq<char>) -> ItemDraftView {
    let c = s.cur;
    let tag = s.tag;
    if tag == key_title() {
        if c.title is None { ItemDraftView { title: Some(t), ..c } } else { c }
    } else if tag == w_link() {
        if c.link is None { ItemDraftView { link: Some(resolved_url(t, s.home)), ..c } } else { c }
    } else if tag == w_description() {
        if c.body is None { ItemDraftView { body: Some(t), ..c } } else { c }
    } else if tag == w_encoded() {
        ItemDraftView { body: Some(t), ..c }
    } else if tag == w_guid() {
        if s.guid_is_permalink && c.permalink is None && guid_is_url(t) {
            ItemDraftView { guid: Some(t), permalink: Some(resolved_url(t, s.home)), ..c }
        } else {
            ItemDraftView { guid: Some(t), ..c }
        }
    } else if tag == w_pubdate() || tag == w_date() {
        ItemDraftView { dates: c.dates.push(t), ..c }
    } else if tag == w_creator() || tag == w_author() {
        ItemDraftView { authors: c.authors.push(author_of(t)), ..c }
    } else {
        c
    }
}

/// Text (or CDATA) of the element `s.tag`: item fields inside an item, the
/// channel image `url` inside `<image>`, else the first channel `title`,
/// `link` (the home page) and `language`.
pub open spec fn rss_on_text(s: RssState, t: Seq<char>) -> RssState {
    if s.in_item {
        RssState { cur: item_text(s, t), ..s }
    } else if s.in_image {
        if s.tag == key_url() && s.icon is None { RssState { icon: Some(t), ..s } } else { s }
    } else if s.tag == key_title() && s.title is None {
        RssState { title: Some(t), ..s }
    } else if s.tag == w_link() && s.home is None {
        RssState { home: Some(t), ..s }
    } else if s.tag == w_language() && s.language is None {
        RssState { language: Some(t), ..s }
    } else {
        s
    }
}

pub open spec fn rss_on_end(s: RssState, name: Seq<u8>, is_rdf: bool) -> RssState {
    if s.skip_depth > 0 {
        RssState { skip_depth: (s.skip_depth - 1) as nat, tag: seq![], ..s }
    } else {
        let local = local_part(name);
        let s1 = RssState { tag: seq![], in_image: if local == w_image() { false } else { s.in_image }, ..s };
        if local == w_rss() || (is_rdf && local == w_rdf()) {
            RssState { done: true, ..s1 }
        } else if local == w_item() {
            RssState {
                in_item: false,
                items: s1.items.push(s1.cur),
                cur: ItemDraftView { guid: s1.cur.guid, ..blank_item() },
                ..s1
            }
        } else {
            s1
        }
    }
}

/// One event of the reader; nothing changes once the document's closing
/// tag was seen.
pub open spec fn rss_step(s: RssState, e: XmlEvent, is_rdf: bool) -> RssState {
    if s.done {
        s
    } else {
        match e {
            XmlEvent::Start { name, attributes, .. } => rss_on_start(s, name@, attributes@, is_rdf),
            XmlEvent::Empty { name, attributes, .. } => rss_on_empty(s, name@, attributes@),
            XmlEvent::End { name } => rss_on_end(s, name@, is_rdf),
            XmlEvent::Text { raw } => if s.skip_depth > 0 {
                s
            } else {
                match trimmed_text(raw@) {
                    Some(Some(t)) => rss_on_text(s, t),
                    _ => s,
                }
            },
            XmlEvent::CData { raw } => if s.skip_depth > 0 {
                s
            } else {
                rss_on_text(s, utf8_lossy(raw@))
            },
            XmlEvent::Malformed => RssState { done: true, ..s },
            _ => s,
        }
    }
}

pub open spec fn rss_fold(events: Seq<XmlEvent>, is_rdf: bool) -> RssState
    decreases events.len(),
{
    if events.len() == 0 {
        rss_start_state()
    } else {
        rss_step(rss_fold(events.drop_last(), is_rdf), events.last(), is_rdf)
    }
}

/// The feed `events` describe: the channel fields, the feed URL, the
/// channel image resolved against the home page (or, without one, the
/// feed URL), and the items read.
pub open spec fn rss_draft(events: Seq<XmlEvent>, feed_url: Seq<char>, is_rdf: bool) -> RssDraftView {
    let s = rss_fold(events, is_rdf);
    RssDraftView {
        title: s.title,
        home_page_url: s.home,
        feed_url: Some(feed_url),
        icon_url: match s.icon {
            Some(u) => Some(resolved_url(u, Some(if s.home is Some { s.home->0 } else { feed_url }))),
            None => None,
        },
        language: s.language,
        items: s.items,
    }
}


/// Reading stops at the document's closing tag (`</rss>`, or `</RDF>` for
/// RSS 1.0): whatever follows it changes nothing.
pub proof fn lemma_nothing_after_the_closing_tag(events: Seq<XmlEvent>, rest: Seq<XmlEvent>, is_rdf: bool)
    requires
        rss_fold(events, is_rdf).done,
    ensures
        rss_fold(events + rest, is_rdf) == rss_fold(events, is_rdf),
    decreases rest.len(),
{
    if rest.len() == 0 {
        assert(events + rest =~= events);
    } else {
        lemma_nothing_after_the_closing_tag(events, rest.drop_last(), is_rdf);
        assert((events + rest).drop_last() =~= events + rest.drop_last());
    }
}

// ---------------------------------------------------------------------
// The executable reader
// ---------------------------------------------------------------------

struct RssReader {
    title: Option<String>,
    home: Option<String>,
    language: Option<String>,
    icon: Option<String>,
    items: Vec<RssItemDraft>,
    in_item: bool,
    in_image: bool,
    cur: RssItemDraft,
    guid_is_permalink: bool,
    skip_depth: usize,
    tag: Vec<u8>,
    done: bool,
}

impl View for RssReader {
    type V = RssState;

    closed spec fn view(&self) -> RssState {
        RssState {
            title: opt_view(self.title),
            home: opt_view(self.home),
            language: opt_view(self.language),
            icon: opt_view(self.icon),
            items: drafts_view(self.items@),
            in_item: self.in_item,
            in_image: self.in_image,
            cur: self.cur@,
            guid_is_permalink: self.guid_is_permalink,
            skip_depth: self.skip_depth as nat,
            tag: self.tag@,
            done: self.done,
        }
    }
}

fn blank_draft(guid: Option<String>, permalink: Option<String>) -> (d: RssItemDraft)
    ensures
        d@ == (ItemDraftView { guid: opt_view(guid), permalink: opt_view(permalink), ..blank_item() }),
{
    let d = RssItemDraft {
        guid,
        title: None,
        content_html: None,
        url: permalink,
        external_url: None,
        date_texts: Vec::new(),
        authors: Vec::new(),
        attachments: Vec::new(),
    };
    assert(texts_view(d.date_texts@) =~= Seq::<Seq<char>>::empty());
    assert(authors_view(d.authors@) =~= Seq::<AuthorView>::empty());
    assert(attachment_list_view(d.attachments@) =~= Seq::<AttachmentView>::empty());
    d
}

fn rdf_about_of(attrs: &Vec<(Vec<u8>, Vec<u8>)>) -> (r: Option<String>)
    ensures
        opt_view(r) == rdf_about(attrs@),
{
    let about = word_rdf_about();
    let mut r: Option<String> = None;
    let mut i: usize = 0;
    while i < attrs.len()
        invariant
            i <= attrs@.len(),
            about@ == w_rdf_about(),
            opt_view(r) == rdf_about(attrs@.take(i as int)),
        decreases attrs@.len() - i,
    {
        assert(attrs@.take(i + 1).drop_last() =~= attrs@.take(i as int));
        if key_is(&attrs[i].0, &about) {
            match utf8_text(attrs[i].1.as_slice()) {
                Some(v) => r = Some(v),
                None => {},
            }
        }
        i += 1;
    }
    assert(attrs@.take(attrs@.len() as int) =~= attrs@);
    r
}

fn has_url_attr_of(attrs: &Vec<(Vec<u8>, Vec<u8>)>) -> (b: bool)
    ensures
        b == has_url_attr(attrs@),
{
    let url = word_url();
    let mut b = false;
    let mut i: usize = 0;
    while i < attrs.len()
        invariant
            i <= attrs@.len(),
            url@ == key_url(),
            b == has_url_attr(attrs@.take(i as int)),
        decreases attrs@.len() - i,
    {
        assert(attrs@.take(i + 1).drop_last() =~= attrs@.take(i as int));
        if key_is(&attrs[i].0, &url) {
            b = true;
        }
        i += 1;
    }
    assert(attrs@.take(attrs@.len() as int) =~= attrs@);
    b
}

pub(crate) fn eq_ic_bytes(a: &Vec<u8>, lit: &[u8]) -> (b: bool)
    ensures
        b == eq_ic(a@, lit@),
{
    assert(a@.subrange(0, a@.len() as int) =~= a@);
    crate::bytes::range_eq_ic(a.as_slice(), 0, a.len(), lit)
}

fn says_not_permalink_of(attrs: &Vec<(Vec<u8>, Vec<u8>)>) -> (b: bool)
    ensures
        b == says_not_permalink(attrs@),
{
    let key = word_ispermalink();
    let no = word_false();
    let mut b = false;
    let mut i: usize = 0;
    while i < attrs.len()
        invariant
            i <= attrs@.len(),
            key@ == w_ispermalink(),
            no@ == w_false(),
            b == says_not_permalink(attrs@.take(i as int)),
        decreases attrs@.len() - i,
    {
        assert(attrs@.take(i + 1).drop_last() =~= attrs@.take(i as int));
        if eq_ic_bytes(&attrs[i].0, &key) && utf8_text(attrs[i].1.as_slice()).is_some() && eq_ic_bytes(
            &attrs[i].1,
            &no,
        ) {
            b = true;
        }
        i += 1;
    }
    assert(attrs@.take(attrs@.len() as int) =~= attrs@);
    b
}

fn media_attachment_of(attrs: &Vec<(Vec<u8>, Vec<u8>)>) -> (r: Option<Attachment>)
    ensures
        match r {
            Some(a) => media_attachment(attrs@) == Some(a@),
            None => media_attachment(attrs@) is None,
        },
{
    if has_url_attr_of(attrs) {
        attachment_from_attrs(attrs, &word_filesize())
    } else {
        None
    }
}

fn enclosure_of(attrs: &Vec<(Vec<u8>, Vec<u8>)>) -> (r: Option<Attachment>)
    ensures
        match r {
            Some(a) => attachment_from(attrs@, key_length()) == Some(a@),
            None => attachment_from(attrs@, key_length()) is None,
        },
{
    attachment_from_attrs(attrs, &word_length())
}

fn author_from_text(t: String) -> (a: Author)
    ensures
        a@ == author_of(t@),
{
    let v = chars_of(t.as_str());
    if has_char_exec(&v, '@') {
        Author { name: None, url: None, avatar_url: None, email: Some(t) }
    } else if starts_with_chars(&v, "http") {
        Author { name: None, url: Some(t), avatar_url: None, email: None }
    } else {
        Author { name: Some(t), url: None, avatar_url: None, email: None }
    }
}

pub(crate) fn opt_as_str(o: &Option<String>) -> (r: Option<&str>)
    ensures
        opt_str_view(r) == opt_view(*o),
{
    match o {
        Some(s) => Some(s.as_str()),
        None => None,
    }
}

impl RssReader {
    fn new() -> (r: RssReader)
        ensures
            r@ == rss_start_state(),
    {
        let r = RssReader {
            title: None,
            home: None,
            language: None,
            icon: None,
            items: Vec::new(),
            in_item: false,
            in_image: false,
            cur: blank_draft(None, None),
            guid_is_permalink: true,
            skip_depth: 0,
            tag: Vec::new(),
            done: false,
        };
        assert(drafts_view(r.items@) =~= Seq::<ItemDraftView>::empty());
        assert(r.tag@ =~= Seq::<u8>::empty());
        r
    }

    fn add_attachment(&mut self, a: Option<Attachment>)
        ensures
            final(self)@ == with_attachment(old(self)@, match a {
                Some(x) => Some(x@),
                None => None,
            }),
    {
        match a {
            Some(att) => {
                let ghost before = self.cur.attachments@;
                let ghost v = att@;
                self.cur.attachments.push(att);
                assert(attachment_list_view(self.cur.attachments@) =~= attachment_list_view(before).push(v));
            },
            None => {},
        }
    }

    fn on_start(&mut self, name: &Vec<u8>, attrs: &Vec<(Vec<u8>, Vec<u8>)>, is_rdf: bool)
        requires
            old(self).skip_depth < usize::MAX,
        ensures
            final(self)@ == rss_on_start(old(self)@, name@, attrs@, is_rdf),
    {
        if self.skip_depth > 0 {
            self.skip_depth = self.skip_depth + 1;
            self.tag = Vec::new();
            assert(self.tag@ =~= Seq::<u8>::empty());
            return;
        }
        let (local, prefix) = name_parts(name);
        let foreign = self.in_item && match &prefix {
            Some(p) => !rss_prefix_is_consumed(p.as_slice()),
            None => false,
        };
        if foreign {
            self.skip_depth = 1;
            self.tag = Vec::new();
            assert(self.tag@ =~= Seq::<u8>::empty());
            return;
        }
        let was_in_item = self.in_item;
        if bytes_eq(local.as_slice(), &word_item()) {
            let about = if is_rdf { rdf_about_of(attrs) } else { None };
            let permalink = opt_clone(&about);
            self.in_item = true;
            self.cur = blank_draft(about, permalink);
            self.guid_is_permalink = true;
        } else if !was_in_item && bytes_eq(local.as_slice(), &word_image()) {
            self.in_image = true;
        } else if was_in_item && bytes_eq(local.as_slice(), &word_enclosure()) {
            let a = enclosure_of(attrs);
            self.add_attachment(a);
        } else if was_in_item && (bytes_eq(local.as_slice(), &word_content()) || bytes_eq(
            local.as_slice(),
            &word_thumbnail(),
        )) {
            let a = media_attachment_of(attrs);
            self.add_attachment(a);
        } else if was_in_item && bytes_eq(local.as_slice(), &word_guid()) && says_not_permalink_of(attrs) {
            self.guid_is_permalink = false;
        }
        self.tag = local;
    }

    fn on_empty(&mut self, name: &Vec<u8>, attrs: &Vec<(Vec<u8>, Vec<u8>)>)
        ensures
            final(self)@ == rss_on_empty(old(self)@, name@, attrs@),
    {
        if self.skip_depth > 0 {
            return;
        }
        let (local, prefix) = name_parts(name);
        let foreign = self.in_item && match &prefix {
            Some(p) => !rss_prefix_is_consumed(p.as_slice()),
            None => false,
        };
        if foreign {
            return;
        }
        if self.in_item && bytes_eq(local.as_slice(), &word_enclosure()) {
            let a = enclosure_of(attrs);
            self.add_attachment(a);
        } else if self.in_item && (bytes_eq(local.as_slice(), &word_content()) || bytes_eq(
            local.as_slice(),
            &word_thumbnail(),
        )) {
            let a = media_attachment_of(attrs);
            self.add_attachment(a);
        }
    }

    fn on_item_text(&mut self, t: String)
        requires
            old(self).in_item,
        ensures
            final(self)@ == (RssState { cur: item_text(old(self)@, t@), ..old(self)@ }),
    {
        let tag = self.tag.as_slice();
        if bytes_eq(tag, &word_title()) {
            if self.cur.title.is_none() {
                self.cur.title = Some(t);
            }
        } else if bytes_eq(tag, &word_link()) {
            if self.cur.external_url.is_none() {
                let r = resolve_url(t.as_str(), opt_as_str(&self.home));
                self.cur.external_url = Some(r);
            }
        } else if bytes_eq(tag, &word_description()) {
            if self.cur.content_html.is_none() {
                self.cur.content_html = Some(t);
            }
        } else if bytes_eq(tag, &word_encoded()) {
            self.cur.content_html = Some(t);
        } else if bytes_eq(tag, &word_guid()) {
            if self.guid_is_permalink && self.cur.url.is_none() && guid_looks_like_url(t.as_str()) {
                let r = resolve_url(t.as_str(), opt_as_str(&self.home));
                self.cur.url = Some(r);
            }
            self.cur.guid = Some(t);
        } else if bytes_eq(tag, &word_pubdate()) || bytes_eq(tag, &word_date()) {
            let ghost before = self.cur.date_texts@;
            let ghost v = t@;
            self.cur.date_texts.push(t);
            assert(texts_view(self.cur.date_texts@) =~= texts_view(before).push(v));
        } else if bytes_eq(tag, &word_creator()) || bytes_eq(tag, &word_author()) {
            let a = author_from_text(t);
            let ghost before = self.cur.authors@;
            let ghost v = a@;
            self.cur.authors.push(a);
            assert(authors_view(self.cur.authors@) =~= authors_view(before).push(v));
        }
    }

    fn on_text(&mut self, t: String)
        ensures
            final(self)@ == rss_on_text(old(self)@, t@),
    {
        if self.in_item {
            self.on_item_text(t);
        } else if self.in_image {
            if bytes_eq(self.tag.as_slice(), &word_url()) && self.icon.is_none() {
                self.icon = Some(t);
            }
        } else if bytes_eq(self.tag.as_slice(), &word_title()) && self.title.is_none() {
            self.title = Some(t);
        } else if bytes_eq(self.tag.as_slice(), &word_link()) && self.home.is_none() {
            self.home = Some(t);
        } else if bytes_eq(self.tag.as_slice(), &word_language()) && self.language.is_none() {
            self.language = Some(t);
        }
    }

    fn on_end(&mut self, name: &Vec<u8>, is_rdf: bool)
        ensures
            final(self)@ == rss_on_end(old(self)@, name@, is_rdf),
    {
        if self.skip_depth > 0 {
            self.skip_depth = self.skip_depth - 1;
            self.tag = Vec::new();
            assert(self.tag@ =~= Seq::<u8>::empty());
            return;
        }
        let (local, _prefix) = name_parts(name);
        self.tag = Vec::new();
        assert(self.tag@ =~= Seq::<u8>::empty());
        if bytes_eq(local.as_slice(), &word_image()) {
            self.in_image = false;
        }
        if bytes_eq(local.as_slice(), &word_rss()) || (is_rdf && bytes_eq(local.as_slice(), &word_rdf())) {
            self.done = true;
        } else if bytes_eq(local.as_slice(), &word_item()) {
            self.in_item = false;
            let guid = opt_clone(&self.cur.guid);
            let fresh = blank_draft(guid, None);
            let ghost before = self.items@;
            let mut finished = fresh;
            std::mem::swap(&mut self.cur, &mut finished);
            let ghost v = finished@;
            self.items.push(finished);
            assert(drafts_view(self.items@) =~= drafts_view(before).push(v));
        }
    }

    fn step(&mut self, e: &XmlEvent, is_rdf: bool)
        requires
            old(self).skip_depth < usize::MAX,
        ensures
            final(self)@ == rss_step(old(self)@, *e, is_rdf),
            final(self).skip_depth <= old(self).skip_depth + 1,
    {
        if self.done {
            return;
        }
        match e {
            XmlEvent::Start { name, attributes, .. } => self.on_start(name, attributes, is_rdf),
            XmlEvent::Empty { name, attributes, .. } => self.on_empty(name, attributes),
            XmlEvent::End { name } => self.on_end(name, is_rdf),
            XmlEvent::Text { raw } => {
                if self.skip_depth == 0 {
                    match trimmed_text_of(raw) {
                        Some(Some(t)) => self.on_text(t),
                        _ => {},
                    }
                }
            },
            XmlEvent::CData { raw } => {
                if self.skip_depth == 0 {
                    let t = lossy_text(raw.as_slice(), 0, raw.len());
                    assert(raw@.subrange(0, raw@.len() as int) =~= raw@);
                    self.on_text(t);
                }
            },
            XmlEvent::Malformed => self.done = true,
            _ => {},
        }
    }
}

/// The feed that `events` describe, read as RSS (`is_rdf` for RSS 1.0,
/// whose document element is `RDF` and whose items carry `rdf:about`).
pub fn rss_draft_from_events(events: &Vec<XmlEvent>, feed_url: &str, is_rdf: bool) -> (d: RssDraft)
    ensures
        d@ == rss_draft(events@, feed_url@, is_rdf),
{
    let mut r = RssReader::new();
    let mut i: usize = 0;
    assert(events@.take(0) =~= Seq::<XmlEvent>::empty());
    while i < events.len()
        invariant
            i <= events@.len(),
            r@ == rss_fold(events@.take(i as int), is_rdf),
            r.skip_depth <= i,
        decreases events@.len() - i,
    {
        assert(events@.take(i + 1).drop_last() =~= events@.take(i as int));
        r.step(&events[i], is_rdf);
        i += 1;
    }
    assert(events@.take(events@.len() as int) =~= events@);
    let icon = match &r.icon {
        Some(u) => {
            let base = match &r.home {
                Some(h) => h.as_str(),
                None => feed_url,
            };
            Some(resolve_url(u.as_str(), Some(base)))
        },
        None => None,
    };
    RssDraft {
        title: r.title,
        home_page_url: r.home,
        feed_url: Some(String::from_str(feed_url)),
        icon_url: icon,
        language: r.language,
        items: r.items,
    }
}

/// Reads `data` as RSS (`is_rdf` for RSS 1.0). Reading never fails: it
/// stops at the first XML error or at the document's closing tag, keeping
/// what was read.
pub fn parse_rss(data: &[u8], feed_url: &str, is_rdf: bool) -> (r: Result<RssDraft, ParseError>)
    requires
        data@.len() < usize::MAX,
    ensures
        r matches Ok(d) && exists|events: Seq<XmlEvent>| document_events(data@, events) && d@ == rss_draft(events, feed_url@, is_rdf),
{
    let events = xml_events(data);
    let d = rss_draft_from_events(&events, feed_url, is_rdf);
    assert(d@ == rss_draft(events@, feed_url@, is_rdf));
    Ok(d)
}

// ---------------------------------------------------------------------
// Finishing: dates and ids
// ---------------------------------------------------------------------

/// The first date that parsed, in document order.
pub open spec fn first_date(ds: Seq<Option<i64>>) -> Option<i64>
    decreases ds.len(),
{
    if ds.len() == 0 {
        None
    } else {
        match first_date(ds.drop_last()) {
            Some(d) => Some(d),
            None => ds.last(),
        }
    }
}

/// The item a draft becomes once its date texts parsed to `dates`: its
/// publication date is the first that parsed, and its id is derived from
/// the guid, or from the permalink, link, title, body and date.
pub open spec fn finished_item(d: ItemDraftView, dates: Seq<Option<i64>>) -> ParsedItemView {
    let date = first_date(dates);
    ParsedItemView {
        id: item_id(d.guid, d.permalink, d.link, d.title, d.body, date),
        title: d.title,
        content_html: d.body,
        content_text: None,
        url: d.permalink,
        external_url: d.link,
        summary: None,
        image_url: None,
        date_published: date,
        date_modified: None,
        authors: d.authors,
        attachments: d.attachments,
    }
}

/// The parsed dates of item `i` (none where `dates` has no entry for it).
pub open spec fn dates_for(dates: Seq<Vec<Option<i64>>>, i: int) -> Seq<Option<i64>> {
    if 0 <= i < dates.len() {
        dates[i]@
    } else {
        seq![]
    }
}

pub open spec fn finished_feed(d: RssDraftView, dates: Seq<Vec<Option<i64>>>) -> ParsedFeedView {
    ParsedFeedView {
        title: d.title,
        home_page_url: d.home_page_url,
        feed_url: d.feed_url,
        icon_url: d.icon_url,
        language: d.language,
        items: Seq::new(d.items.len(), |i: int| finished_item(d.items[i], dates_for(dates, i))),
    }
}

pub(crate) fn first_date_of(ds: &Vec<Option<i64>>) -> (r: Option<i64>)
    ensures
        r == first_date(ds@),
{
    let mut r: Option<i64> = None;
    let mut i: usize = 0;
    assert(ds@.take(0) =~= Seq::<Option<i64>>::empty());
    while i < ds.len()
        invariant
            i <= ds@.len(),
            r == first_date(ds@.take(i as int)),
        decreases ds@.len() - i,
    {
        assert(ds@.take(i + 1).drop_last() =~= ds@.take(i as int));
        if r.is_none() {
            r = ds[i];
        }
        i += 1;
    }
    assert(ds@.take(ds@.len() as int) =~= ds@);
    r
}

fn finish_item(d: &RssItemDraft, dates: &Vec<Option<i64>>) -> (p: ParsedItem)
    ensures
        p@ == finished_item(d@, dates@),
{
    let date = first_date_of(dates);
    let id = calculate_id(
        opt_as_str(&d.guid),
        opt_as_str(&d.url),
        opt_as_str(&d.external_url),
        opt_as_str(&d.title),
        opt_as_str(&d.content_html),
        date,
    );
    ParsedItem {
        id,
        title: opt_clone(&d.title),
        content_html: opt_clone(&d.content_html),
        content_text: None,
        url: opt_clone(&d.url),
        external_url: opt_clone(&d.external_url),
        summary: None,
        image_url: None,
        date_published: date,
        date_modified: None,
        authors: duplicate_authors(&d.authors),
        attachments: duplicate_attachments(&d.attachments),
    }
}

/// The feed a draft becomes once each item's date texts were parsed:
/// `dates[i][j]` is the parse of `draft.items[i].date_texts[j]` (`None`
/// where it did not parse).
pub fn finish_rss(draft: RssDraft, dates: &Vec<Vec<Option<i64>>>) -> (f: ParsedFeed)
    ensures
        f@ == finished_feed(draft@, dates@),
{
    let ghost d0 = draft@;
    let empty: Vec<Option<i64>> = Vec::new();
    let mut out: Vec<ParsedItem> = Vec::new();
    let mut i: usize = 0;
    while i < draft.items.len()
        invariant
            i <= draft.items@.len(),
            d0 == draft@,
            empty@ == Seq::<Option<i64>>::empty(),
            out@.len() == i,
            forall|k: int| 0 <= k < i ==> #[trigger] out@[k]@ == finished_item(d0.items[k], dates_for(dates@, k)),
        decreases draft.items@.len() - i,
    {
        let ds = if i < dates.len() { &dates[i] } else { &empty };
        let p = finish_item(&draft.items[i], ds);
        out.push(p);
        i += 1;
    }
    let RssDraft { title, home_page_url, feed_url, icon_url, language, items: _ } = draft;
    let f = ParsedFeed { title, home_page_url, feed_url, icon_url, language, items: out };
    assert(parsed_items_view(f.items@) =~= Seq::new(
        d0.items.len(),
        |k: int| finished_item(d0.items[k], dates_for(dates@, k)),
    ));
    f
}


// ---------------------------------------------------------------------
// Which reader a document needs
// ---------------------------------------------------------------------

/// The kind of document, by its first element named `rss`, `RDF`,
/// `rdf:RDF`, `feed` or `opml`.
#[derive(Debug, Clone, Copy, PartialEq, Eq, Structural)]
pub enum FeedFormat {
    Rss,
    Rdf,
    Atom,
    Opml,
    Unknown,
}

pub open spec fn w_feed() -> Seq<u8> { seq![102u8, 101, 101, 100] }
pub open spec fn w_opml() -> Seq<u8> { seq![111u8, 112, 109, 108] }
pub open spec fn w_rdf_rdf() -> Seq<u8> { seq![114u8, 100, 102, 58, 82, 68, 70] }

pub(crate) fn word_feed() -> (w: [u8; 4]) ensures w@ == w_feed() { [102, 101, 101, 100] }
fn word_opml() -> (w: [u8; 4]) ensures w@ == w_opml() { [111, 112, 109, 108] }
fn word_rdf_rdf() -> (w: [u8; 7]) ensures w@ == w_rdf_rdf() { [114, 100, 102, 58, 82, 68, 70] }

/// The format a (qualified) element name announces, if any.
pub open spec fn format_named(n: Seq<u8>) -> FeedFormat {
    if n == w_rss() {
        FeedFormat::Rss
    } else if n == w_rdf() || n == w_rdf_rdf() {
        FeedFormat::Rdf
    } else if n == w_feed() {
        FeedFormat::Atom
    } else if n == w_opml() {
        FeedFormat::Opml
    } else {
        FeedFormat::Unknown
    }
}

/// The format announced by the first start or empty tag, from event `i`
/// on, that names one.
pub open spec fn format_from(events: Seq<XmlEvent>, i: int) -> FeedFormat
    decreases events.len() - i,
{
    if i < 0 || i >= events.len() || events[i] is Malformed {
        FeedFormat::Unknown
    } else {
        let f = match events[i] {
            XmlEvent::Start { name, .. } => format_named(name@),
            XmlEvent::Empty { name, .. } => format_named(name@),
            _ => FeedFormat::Unknown,
        };
        if f != FeedFormat::Unknown {
            f
        } else {
            format_from(events, i + 1)
        }
    }
}

fn format_named_of(n: &Vec<u8>) -> (f: FeedFormat)
    ensures
        f == format_named(n@),
{
    let n = n.as_slice();
    if bytes_eq(n, &word_rss()) {
        FeedFormat::Rss
    } else if bytes_eq(n, &word_rdf()) || bytes_eq(n, &word_rdf_rdf()) {
        FeedFormat::Rdf
    } else if bytes_eq(n, &word_feed()) {
        FeedFormat::Atom
    } else if bytes_eq(n, &word_opml()) {
        FeedFormat::Opml
    } else {
        FeedFormat::Unknown
    }
}

/// The format of the document whose events are `events`.
pub fn feed_format_of_events(events: &Vec<XmlEvent>) -> (f: FeedFormat)
    ensures
        f == format_from(events@, 0),
{
    let mut i: usize = 0;
    while i < events.len()
        invariant
            i <= events@.len(),
            format_from(events@, 0) == format_from(events@, i as int),
        decreases events@.len() - i,
    {
        if let XmlEvent::Malformed = &events[i] {
            return FeedFormat::Unknown;
        }
        let f = match &events[i] {
            XmlEvent::Start { name, .. } => format_named_of(name),
            XmlEvent::Empty { name, .. } => format_named_of(name),
            _ => FeedFormat::Unknown,
        };
        if f != FeedFormat::Unknown {
            return f;
        }
        i += 1;
    }
    FeedFormat::Unknown
}

/// The format of `data`: which reader it needs (RSS, RSS 1.0, Atom), that
/// it is OPML, or that it is none of these.
pub fn feed_format(data: &[u8]) -> (f: FeedFormat)
    requires
        data@.len() < usize::MAX,
    ensures
        exists|events: Seq<XmlEvent>| document_events(data@, events) && f == format_from(events, 0),
{
    let events = xml_events(data);
    feed_format_of_events(&events)
}

} // verus!
