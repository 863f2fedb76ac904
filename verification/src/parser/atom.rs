//! The Atom reader, over the events of `xml_reader`: entries with their
//! authors, links and enclosures, `xml:base` resolution, inline XHTML
//! content, and the feed's icon, logo and language. As for RSS, dates are
//! kept as texts until `finish_atom` takes their parsed values.
use vstd::prelude::*;
use crate::chars::{lossy_text, utf8_lossy, utf8_text};
use crate::error::ParseError;
use crate::models::{
    attachment_list_view, authors_view, duplicate_attachments, duplicate_authors, opt_clone, opt_view,
    parsed_items_view, Attachment, AttachmentView, Author, AuthorView, ParsedFeed, ParsedFeedView, ParsedItem,
    ParsedItemView,
};
use crate::parser::html_url_resolver::{resolved_html, resolving_relative_urls};
use crate::parser::rss::{
    copy_range, first_date, first_date_of, name_parts, opt_as_str, prefix_of, local_part, w_content, w_feed, w_link,
    word_content, word_feed, word_link, word_title,
};
use crate::parser::xml::{
    atom_link_step, atom_type_is_xhtml, author_fields, bytes_eq, calculate_id, effective_base, effective_base_url,
    handle_atom_link_attributes, item_id, key_is, key_title, key_type, resolve_url, resolved_body,
    resolved_html_body, resolved_url, type_is_xhtml, utf8_value, AtomLinkCtx, AtomLinkCtxView, AuthorFields,
    MutableAuthor,
};
use crate::parser::xml_reader::{document_events, trimmed_text, trimmed_text_of, xml_events, xml_unescape, xml_unescaped, XmlEvent};

verus! {

pub open spec fn a_entry() -> Seq<u8> { seq![101u8, 110, 116, 114, 121] }
pub open spec fn a_source() -> Seq<u8> { seq![115u8, 111, 117, 114, 99, 101] }
pub open spec fn a_author() -> Seq<u8> { seq![97u8, 117, 116, 104, 111, 114] }
pub open spec fn a_summary() -> Seq<u8> { seq![115u8, 117, 109, 109, 97, 114, 121] }
pub open spec fn a_name() -> Seq<u8> { seq![110u8, 97, 109, 101] }
pub open spec fn a_email() -> Seq<u8> { seq![101u8, 109, 97, 105, 108] }
pub open spec fn a_uri() -> Seq<u8> { seq![117u8, 114, 105] }
pub open spec fn a_id() -> Seq<u8> { seq![105u8, 100] }
pub open spec fn a_published() -> Seq<u8> { seq![112u8, 117, 98, 108, 105, 115, 104, 101, 100] }
pub open spec fn a_issued() -> Seq<u8> { seq![105u8, 115, 115, 117, 101, 100] }
pub open spec fn a_updated() -> Seq<u8> { seq![117u8, 112, 100, 97, 116, 101, 100] }
pub open spec fn a_modified() -> Seq<u8> { seq![109u8, 111, 100, 105, 102, 105, 101, 100] }
pub open spec fn a_icon() -> Seq<u8> { seq![105u8, 99, 111, 110] }
pub open spec fn a_logo() -> Seq<u8> { seq![108u8, 111, 103, 111] }
pub open spec fn a_xml_lang() -> Seq<u8> { seq![120u8, 109, 108, 58, 108, 97, 110, 103] }

fn aw_entry() -> (w: [u8; 5]) ensures w@ == a_entry() { [101, 110, 116, 114, 121] }
fn aw_source() -> (w: [u8; 6]) ensures w@ == a_source() { [115, 111, 117, 114, 99, 101] }
fn aw_author() -> (w: [u8; 6]) ensures w@ == a_author() { [97, 117, 116, 104, 111, 114] }
fn aw_summary() -> (w: [u8; 7]) ensures w@ == a_summary() { [115, 117, 109, 109, 97, 114, 121] }
fn aw_name() -> (w: [u8; 4]) ensures w@ == a_name() { [110, 97, 109, 101] }
fn aw_email() -> (w: [u8; 5]) ensures w@ == a_email() { [101, 109, 97, 105, 108] }
fn aw_uri() -> (w: [u8; 3]) ensures w@ == a_uri() { [117, 114, 105] }
fn aw_id() -> (w: [u8; 2]) ensures w@ == a_id() { [105, 100] }
fn aw_published() -> (w: [u8; 9]) ensures w@ == a_published() { [112, 117, 98, 108, 105, 115, 104, 101, 100] }
fn aw_issued() -> (w: [u8; 6]) ensures w@ == a_issued() { [105, 115, 115, 117, 101, 100] }
fn aw_updated() -> (w: [u8; 7]) ensures w@ == a_updated() { [117, 112, 100, 97, 116, 101, 100] }
fn aw_modified() -> (w: [u8; 8]) ensures w@ == a_modified() { [109, 111, 100, 105, 102, 105, 101, 100] }
fn aw_icon() -> (w: [u8; 4]) ensures w@ == a_icon() { [105, 99, 111, 110] }
fn aw_logo() -> (w: [u8; 4]) ensures w@ == a_logo() { [108, 111, 103, 111] }
fn aw_xml_lang() -> (w: [u8; 8]) ensures w@ == a_xml_lang() { [120, 109, 108, 58, 108, 97, 110, 103] }
fn aw_type() -> (w: [u8; 4]) ensures w@ == key_type() { [116, 121, 112, 101] }

// ---------------------------------------------------------------------
// Drafts
// ---------------------------------------------------------------------

/// An entry as read, before its date texts are parsed: `url` is the
/// permalink (`rel="alternate"`), `external_url` the related link.
#[derive(Debug, Clone, PartialEq)]
pub struct AtomItemDraft {
    pub guid: Option<String>,
    pub title: Option<String>,
    pub content_html: Option<String>,
    pub summary: Option<String>,
    pub url: Option<String>,
    pub external_url: Option<String>,
    pub published_texts: Vec<String>,
    pub modified_texts: Vec<String>,
    pub authors: Vec<Author>,
    pub attachments: Vec<Attachment>,
}

pub struct AtomItemView {
    pub guid: Option<Seq<char>>,
    pub title: Option<Seq<char>>,
    pub body: Option<Seq<char>>,
    pub summary: Option<Seq<char>>,
    pub permalink: Option<Seq<char>>,
    pub link: Option<Seq<char>>,
    pub published: Seq<Seq<char>>,
    pub modified: Seq<Seq<char>>,
    pub authors: Seq<AuthorView>,
    pub attachments: Seq<AttachmentView>,
}

pub open spec fn texts_of(v: Seq<String>) -> Seq<Seq<char>> {
    v.map_values(|s: String| s@)
}

impl View for AtomItemDraft {
    type V = AtomItemView;

    open spec fn view(&self) -> AtomItemView {
        AtomItemView {
            guid: opt_view(self.guid),
            title: opt_view(self.title),
            body: opt_view(self.content_html),
            summary: opt_view(self.summary),
            permalink: opt_view(self.url),
            link: opt_view(self.external_url),
            published: texts_of(self.published_texts@),
            modified: texts_of(self.modified_texts@),
            authors: authors_view(self.authors@),
            attachments: attachment_list_view(self.attachments@),
        }
    }
}

pub open spec fn atom_items_view(v: Seq<AtomItemDraft>) -> Seq<AtomItemView> {
    v.map_values(|d: AtomItemDraft| d@)
}

/// A feed as read, with its entries still drafts.
#[derive(Debug, Clone, PartialEq)]
pub struct AtomDraft {
    pub title: Option<String>,
    pub home_page_url: Option<String>,
    pub feed_url: Option<String>,
    pub icon_url: Option<String>,
    pub language: Option<String>,
    pub items: Vec<AtomItemDraft>,
}

pub struct AtomDraftView {
    pub title: Option<Seq<char>>,
    pub home_page_url: Option<Seq<char>>,
    pub feed_url: Option<Seq<char>>,
    pub icon_url: Option<Seq<char>>,
    pub language: Option<Seq<char>>,
    pub items: Seq<AtomItemView>,
}

impl View for AtomDraft {
    type V = AtomDraftView;

    open spec fn view(&self) -> AtomDraftView {
        AtomDraftView {
            title: opt_view(self.title),
            home_page_url: opt_view(self.home_page_url),
            feed_url: opt_view(self.feed_url),
            icon_url: opt_view(self.icon_url),
            language: opt_view(self.language),
            items: atom_items_view(self.items@),
        }
    }
}

// ---------------------------------------------------------------------
// The reader, as a fold over events
// ---------------------------------------------------------------------

/// Inline XHTML being copied: how many of its elements are open (the
/// content element included), what was written so far, and whether it is
/// the body (`<content>`) or the summary.
pub struct CaptureState {
    pub depth: nat,
    pub out: Seq<u8>,
    pub into_body: bool,
}

/// State of the Atom reader: the feed fields, the finished entries, the
/// feed-level author, whether an entry, an author or a `<source>` is open,
/// the entry and author being read, the depth inside a skipped namespaced
/// section of an entry, the local name whose text comes next, the
/// `xml:base` in effect per open element, the `type` of the open content
/// or summary, inline XHTML being copied, and whether `</feed>` was seen.
pub struct AtomState {
    pub title: Option<Seq<char>>,
    pub home: Option<Seq<char>>,
    pub language: Option<Seq<char>>,
    pub icon: Option<Seq<char>>,
    pub logo: Option<Seq<char>>,
    pub items: Seq<AtomItemView>,
    pub root_author: Option<AuthorView>,
    pub in_item: bool,
    pub in_author: bool,
    pub in_source: bool,
    pub cur: AtomItemView,
    pub cur_author: Option<AuthorFields>,
    pub skip_depth: nat,
    pub tag: Seq<u8>,
    pub bases: Seq<Option<Seq<char>>>,
    pub content_type: Option<Seq<char>>,
    pub capture: Option<CaptureState>,
    pub done: bool,
}

pub open spec fn blank_entry() -> AtomItemView {
    AtomItemView {
        guid: None,
        title: None,
        body: None,
        summary: None,
        permalink: None,
        link: None,
        published: seq![],
        modified: seq![],
        authors: seq![],
        attachments: seq![],
    }
}

pub open spec fn atom_start_state() -> AtomState {
    AtomState {
        title: None,
        home: None,
        language: None,
        icon: None,
        logo: None,
        items: seq![],
        root_author: None,
        in_item: false,
        in_author: false,
        in_source: false,
        cur: blank_entry(),
        cur_author: None,
        skip_depth: 0,
        tag: seq![],
        bases: seq![],
        content_type: None,
        capture: None,
        done: false,
    }
}

/// The `xml:base` in effect: that of the innermost open element.
pub open spec fn top_base(bases: Seq<Option<Seq<char>>>) -> Option<Seq<char>> {
    if bases.len() == 0 {
        None
    } else {
        bases.last()
    }
}

/// `bases` without its innermost entry (unchanged when empty).
pub open spec fn popped(bases: Seq<Option<Seq<char>>>) -> Seq<Option<Seq<char>>> {
    if bases.len() == 0 {
        bases
    } else {
        bases.drop_last()
    }
}

/// The value of the last `key` attribute whose value is UTF-8.
pub open spec fn last_utf8_attr(attrs: Seq<(Vec<u8>, Vec<u8>)>, key: Seq<u8>) -> Option<Seq<char>>
    decreases attrs.len(),
{
    if attrs.len() == 0 {
        None
    } else if attrs.last().0@ == key && utf8_value(attrs.last().1@) is Some {
        utf8_value(attrs.last().1@)
    } else {
        last_utf8_attr(attrs.drop_last(), key)
    }
}

/// The value of the first `key` attribute that is UTF-8 and unescapes,
/// unescaped.
pub open spec fn first_unescaped_attr(attrs: Seq<(Vec<u8>, Vec<u8>)>, key: Seq<u8>) -> Option<Seq<char>>
    decreases attrs.len(),
{
    if attrs.len() == 0 {
        None
    } else if attrs[0].0@ == key && utf8_value(attrs[0].1@) is Some && xml_unescaped(utf8_value(attrs[0].1@)->0) is Some {
        xml_unescaped(utf8_value(attrs[0].1@)->0)
    } else {
        first_unescaped_attr(attrs.drop_first(), key)
    }
}

/// What a `<link>` does to the reader, with `base` the `xml:base` in
/// effect for it (`atom_link_step`).
pub open spec fn with_link(s: AtomState, attrs: Seq<(Vec<u8>, Vec<u8>)>, base: Option<Seq<char>>) -> AtomState {
    let c = atom_link_step(
        AtomLinkCtxView {
            in_item: s.in_item,
            in_author: s.in_author,
            in_source: s.in_source,
            xml_base: base,
            home_page_url: s.home,
            permalink: s.cur.permalink,
            link: s.cur.link,
            attachments: s.cur.attachments,
            author: s.cur_author,
        },
        attrs,
    );
    AtomState {
        home: c.home_page_url,
        cur: AtomItemView { permalink: c.permalink, link: c.link, attachments: c.attachments, ..s.cur },
        cur_author: c.author,
        ..s
    }
}

pub open spec fn atom_on_start(
    s: AtomState,
    name: Seq<u8>,
    attrs: Seq<(Vec<u8>, Vec<u8>)>,
    feed_url: Seq<char>,
) -> AtomState {
    let base = effective_base(top_base(s.bases), attrs, Some(feed_url));
    let s0 = AtomState { bases: s.bases.push(base), ..s };
    if s.skip_depth > 0 {
        AtomState { skip_depth: s.skip_depth + 1, tag: seq![], ..s0 }
    } else if s.in_item && prefix_of(name) is Some {
        AtomState { skip_depth: 1, tag: seq![], ..s0 }
    } else {
        let local = local_part(name);
        let s1 = AtomState {
            tag: local,
            language: if local == w_feed() && s.language is None {
                match last_utf8_attr(attrs, a_xml_lang()) {
                    Some(l) => Some(l),
                    None => s.language,
                }
            } else {
                s.language
            },
            ..s0
        };
        if local == a_entry() {
            AtomState { in_item: true, in_source: false, content_type: None, cur: blank_entry(), ..s1 }
        } else if local == a_source() && s.in_item {
            AtomState { in_source: true, ..s1 }
        } else if s.in_item && !s.in_source && (local == w_content() || local == a_summary()) {
            let s2 = AtomState { content_type: first_unescaped_attr(attrs, key_type()), ..s1 };
            if type_is_xhtml(attrs) {
                AtomState { capture: Some(CaptureState { depth: 1, out: seq![], into_body: local == w_content() }), ..s2 }
            } else {
                s2
            }
        } else if local == a_author() {
            AtomState { in_author: true, cur_author: Some(AuthorFields { name: None, email: None, url: None }), ..s1 }
        } else if local == w_link() {
            with_link(s1, attrs, base)
        } else {
            s1
        }
    }
}

pub open spec fn atom_on_empty(
    s: AtomState,
    name: Seq<u8>,
    attrs: Seq<(Vec<u8>, Vec<u8>)>,
    feed_url: Seq<char>,
) -> AtomState {
    if s.skip_depth > 0 || (s.in_item && prefix_of(name) is Some) {
        s
    } else if local_part(name) == w_link() {
        with_link(s, attrs, effective_base(top_base(s.bases), attrs, Some(feed_url)))
    } else {
        s
    }
}

/// The author an open `<author>` describes, unless nothing was seen.
pub open spec fn built_author(a: AuthorFields) -> Option<AuthorView> {
    if a.name is None && a.email is None && a.url is None {
        None
    } else {
        Some(AuthorView { name: a.name, url: a.url, avatar_url: None, email: a.email })
    }
}

pub open spec fn atom_on_end(s: AtomState, name: Seq<u8>) -> AtomState {
    let s0 = AtomState { bases: popped(s.bases), ..s };
    if s.skip_depth > 0 {
        AtomState { skip_depth: (s.skip_depth - 1) as nat, tag: seq![], ..s0 }
    } else {
        let local = local_part(name);
        let s1 = AtomState {
            tag: seq![],
            content_type: if local == w_content() || local == a_summary() { None } else { s.content_type },
            ..s0
        };
        if local == w_feed() {
            AtomState { done: true, ..s1 }
        } else if local == a_author() {
            let built = match s.cur_author {
                Some(a) => built_author(a),
                None => None,
            };
            let s2 = AtomState { in_author: false, cur_author: None, ..s1 };
            match built {
                Some(b) => if s.in_item && s.in_source {
                    s2
                } else if s.in_item {
                    AtomState { cur: AtomItemView { authors: s.cur.authors.push(b), ..s.cur }, ..s2 }
                } else if s.root_author is None {
                    AtomState { root_author: Some(b), ..s2 }
                } else {
                    s2
                },
                None => s2,
            }
        } else if local == a_source() {
            AtomState { in_source: false, ..s1 }
        } else if local == a_entry() {
            AtomState {
                in_item: false,
                in_source: false,
                items: s.items.push(s.cur),
                cur: AtomItemView { guid: s.cur.guid, ..blank_entry() },
                ..s1
            }
        } else {
            s1
        }
    }
}

/// Text inside an entry: the first `title`, `content` and `summary`
/// (bodies resolved against the base when their type is HTML) and `id`;
/// every `published`/`issued` and `updated`/`modified` date text.
pub open spec fn entry_text(s: AtomState, t: Seq<char>) -> AtomItemView {
    let c = s.cur;
    let tag = s.tag;
    let base = top_base(s.bases);
    if tag == key_title() {
        if c.title is None { AtomItemView { title: Some(t), ..c } } else { c }
    } else if tag == w_content() {
        if c.body is None { AtomItemView { body: Some(resolved_body(t, s.content_type, base)), ..c } } else { c }
    } else if tag == a_summary() {
        if c.summary is None { AtomItemView { summary: Some(resolved_body(t, s.content_type, base)), ..c } } else { c }
    } else if tag == a_id() {
        if c.guid is None { AtomItemView { guid: Some(t), ..c } } else { c }
    } else if tag == a_published() || tag == a_issued() {
        AtomItemView { published: c.published.push(t), ..c }
    } else if tag == a_updated() || tag == a_modified() {
        AtomItemView { modified: c.modified.push(t), ..c }
    } else {
        c
    }
}

/// Text (or CDATA) of the element `s.tag`: an open author's `name`,
/// `email` and `uri` (resolved against the base); nothing inside
/// `<source>`; entry fields inside an entry; else the first feed `title`,
/// `icon` and `logo` (both resolved against the base).
pub open spec fn atom_on_text(s: AtomState, t: Seq<char>) -> AtomState {
    let base = top_base(s.bases);
    if s.in_author && s.cur_author is Some {
        let a = s.cur_author->0;
        let a2 = if s.tag == a_name() {
            AuthorFields { name: Some(t), ..a }
        } else if s.tag == a_email() {
            AuthorFields { email: Some(t), ..a }
        } else if s.tag == a_uri() {
            AuthorFields { url: Some(resolved_url(t, base)), ..a }
        } else {
            a
        };
        AtomState { cur_author: Some(a2), ..s }
    } else if s.in_source {
        s
    } else if s.in_item {
        AtomState { cur: entry_text(s, t), ..s }
    } else if s.tag == key_title() && s.title is None {
        AtomState { title: Some(t), ..s }
    } else if s.tag == a_icon() && s.icon is None {
        AtomState { icon: Some(resolved_url(t, base)), ..s }
    } else if s.tag == a_logo() && s.logo is None {
        AtomState { logo: Some(resolved_url(t, base)), ..s }
    } else {
        s
    }
}

/// The end of inline XHTML: what was copied (as UTF-8, invalid sequences
/// replaced) has its relative URLs resolved against the content
/// element's own base, and becomes the entry's body or summary when that
/// is still unset.
pub open spec fn finish_capture(s: AtomState) -> AtomState {
    let c = s.capture->0;
    let own = top_base(s.bases);
    let inner = utf8_lossy(c.out);
    let text = match own {
        Some(b) => resolved_html(inner, b),
        None => inner,
    };
    let cur = if c.into_body {
        if s.cur.body is None { AtomItemView { body: Some(text), ..s.cur } } else { s.cur }
    } else {
        if s.cur.summary is None { AtomItemView { summary: Some(text), ..s.cur } } else { s.cur }
    };
    AtomState { capture: None, bases: popped(s.bases), content_type: None, tag: seq![], cur, ..s }
}

/// Inline XHTML that is not well-formed sets nothing; reading goes on
/// after the content element.
pub open spec fn fail_capture(s: AtomState) -> AtomState {
    AtomState { capture: None, bases: popped(s.bases), content_type: None, tag: seq![], ..s }
}

pub open spec fn lt() -> Seq<u8> { seq![60u8] }
pub open spec fn gt() -> Seq<u8> { seq![62u8] }
pub open spec fn lt_slash() -> Seq<u8> { seq![60u8, 47] }
pub open spec fn slash_gt() -> Seq<u8> { seq![47u8, 62] }
pub open spec fn cdata_open() -> Seq<u8> { seq![60u8, 33, 91, 67, 68, 65, 84, 65, 91] }
pub open spec fn cdata_close() -> Seq<u8> { seq![93u8, 93, 62] }
pub open spec fn comment_open() -> Seq<u8> { seq![60u8, 33, 45, 45] }
pub open spec fn comment_close() -> Seq<u8> { seq![45u8, 45, 62] }

/// One event inside inline XHTML, written back as markup; the end tag of
/// the content element itself ends the copy.
pub open spec fn capture_step(s: AtomState, e: XmlEvent) -> AtomState {
    let c = s.capture->0;
    match e {
        XmlEvent::Start { raw, .. } => AtomState {
            capture: Some(CaptureState { depth: c.depth + 1, out: c.out + lt() + raw@ + gt(), ..c }),
            ..s
        },
        XmlEvent::End { name } => if c.depth <= 1 {
            finish_capture(s)
        } else {
            AtomState {
                capture: Some(CaptureState { depth: (c.depth - 1) as nat, out: c.out + lt_slash() + name@ + gt(), ..c }),
                ..s
            }
        },
        XmlEvent::Empty { raw, .. } => AtomState {
            capture: Some(CaptureState { out: c.out + lt() + raw@ + slash_gt(), ..c }),
            ..s
        },
        XmlEvent::Text { raw } => AtomState { capture: Some(CaptureState { out: c.out + raw@, ..c }), ..s },
        XmlEvent::CData { raw } => AtomState {
            capture: Some(CaptureState { out: c.out + cdata_open() + raw@ + cdata_close(), ..c }),
            ..s
        },
        XmlEvent::Comment { raw } => AtomState {
            capture: Some(CaptureState { out: c.out + comment_open() + raw@ + comment_close(), ..c }),
            ..s
        },
        XmlEvent::Malformed => fail_capture(s),
        XmlEvent::Other => s,
    }
}

/// One event of the reader; nothing changes once `</feed>` was seen.
pub open spec fn atom_step(s: AtomState, e: XmlEvent, feed_url: Seq<char>) -> AtomState {
    if s.done {
        s
    } else if s.capture is Some {
        capture_step(s, e)
    } else {
        match e {
            XmlEvent::Start { name, attributes, .. } => atom_on_start(s, name@, attributes@, feed_url),
            XmlEvent::Empty { name, attributes, .. } => atom_on_empty(s, name@, attributes@, feed_url),
            XmlEvent::End { name } => atom_on_end(s, name@),
            XmlEvent::Text { raw } => if s.skip_depth > 0 {
                s
            } else {
                match trimmed_text(raw@) {
                    Some(Some(t)) => atom_on_text(s, t),
                    _ => s,
                }
            },
            XmlEvent::CData { raw } => if s.skip_depth > 0 {
                s
            } else {
                atom_on_text(s, utf8_lossy(raw@))
            },
            XmlEvent::Malformed => AtomState { done: true, ..s },
            _ => s,
        }
    }
}

pub open spec fn atom_fold(events: Seq<XmlEvent>, feed_url: Seq<char>) -> AtomState
    decreases events.len(),
{
    if events.len() == 0 {
        atom_start_state()
    } else {
        atom_step(atom_fold(events.drop_last(), feed_url), events.last(), feed_url)
    }
}

/// Entries without an author of their own get the feed-level author.
pub open spec fn with_root_author(items: Seq<AtomItemView>, root: Option<AuthorView>) -> Seq<AtomItemView> {
    Seq::new(
        items.len(),
        |i: int|
            match root {
                Some(a) => if items[i].authors.len() == 0 {
                    AtomItemView { authors: seq![a], ..items[i] }
                } else {
                    items[i]
                },
                None => items[i],
            },
    )
}

/// The feed `events` describe: the feed fields, the feed URL, the icon
/// (else the logo) resolved against the home page (or, without one, the
/// feed URL), and the entries with the feed author filled in.
pub open spec fn atom_draft(events: Seq<XmlEvent>, feed_url: Seq<char>) -> AtomDraftView {
    let s = atom_fold(events, feed_url);
    let icon = if s.icon is Some { s.icon } else { s.logo };
    AtomDraftView {
        title: s.title,
        home_page_url: s.home,
        feed_url: Some(feed_url),
        icon_url: match icon {
            Some(u) => Some(resolved_url(u, Some(if s.home is Some { s.home->0 } else { feed_url }))),
            None => None,
        },
        language: s.language,
        items: with_root_author(s.items, s.root_author),
    }
}

// ---------------------------------------------------------------------
// The executable reader
// ---------------------------------------------------------------------

struct AtomReader {
    title: Option<String>,
    home: Option<String>,
    language: Option<String>,
    icon: Option<String>,
    logo: Option<String>,
    items: Vec<AtomItemDraft>,
    root_author: Option<Author>,
    in_item: bool,
    in_author: bool,
    in_source: bool,
    cur: AtomItemDraft,
    cur_author: Option<MutableAuthor>,
    skip_depth: usize,
    tag: Vec<u8>,
    bases: Vec<Option<String>>,
    content_type: Option<String>,
    capturing: bool,
    cap_depth: usize,
    cap_out: Vec<u8>,
    cap_body: bool,
    done: bool,
}

pub open spec fn author_opt_view(o: Option<Author>) -> Option<AuthorView> {
    match o {
        Some(a) => Some(a@),
        None => None,
    }
}

pub open spec fn bases_view(v: Seq<Option<String>>) -> Seq<Option<Seq<char>>> {
    v.map_values(|b: Option<String>| opt_view(b))
}

impl View for AtomReader {
    type V = AtomState;

    closed spec fn view(&self) -> AtomState {
        AtomState {
            title: opt_view(self.title),
            home: opt_view(self.home),
            language: opt_view(self.language),
            icon: opt_view(self.icon),
            logo: opt_view(self.logo),
            items: atom_items_view(self.items@),
            root_author: author_opt_view(self.root_author),
            in_item: self.in_item,
            in_author: self.in_author,
            in_source: self.in_source,
            cur: self.cur@,
            cur_author: match self.cur_author {
                Some(a) => Some(author_fields(a)),
                None => None,
            },
            skip_depth: self.skip_depth as nat,
            tag: self.tag@,
            bases: bases_view(self.bases@),
            content_type: opt_view(self.content_type),
            capture: if self.capturing {
                Some(CaptureState { depth: self.cap_depth as nat, out: self.cap_out@, into_body: self.cap_body })
            } else {
                None
            },
            done: self.done,
        }
    }
}

fn blank_entry_draft(guid: Option<String>) -> (d: AtomItemDraft)
    ensures
        d@ == (AtomItemView { guid: opt_view(guid), ..blank_entry() }),
{
    let d = AtomItemDraft {
        guid,
        title: None,
        content_html: None,
        summary: None,
        url: None,
        external_url: None,
        published_texts: Vec::new(),
        modified_texts: Vec::new(),
        authors: Vec::new(),
        attachments: Vec::new(),
    };
    assert(texts_of(d.published_texts@) =~= Seq::<Seq<char>>::empty());
    assert(texts_of(d.modified_texts@) =~= Seq::<Seq<char>>::empty());
    assert(authors_view(d.authors@) =~= Seq::<AuthorView>::empty());
    assert(attachment_list_view(d.attachments@) =~= Seq::<AttachmentView>::empty());
    d
}

fn last_utf8_attr_of(attrs: &Vec<(Vec<u8>, Vec<u8>)>, key: &[u8]) -> (r: Option<String>)
    ensures
        opt_view(r) == last_utf8_attr(attrs@, key@),
{
    let mut r: Option<String> = None;
    let mut i: usize = 0;
    while i < attrs.len()
        invariant
            i <= attrs@.len(),
            opt_view(r) == last_utf8_attr(attrs@.take(i as int), key@),
        decreases attrs@.len() - i,
    {
        assert(attrs@.take(i + 1).drop_last() =~= attrs@.take(i as int));
        if key_is(&attrs[i].0, key) {
            match utf8_text(attrs[i].1.as_slice()) {
                Some(v) => r = Some(v),
                None => {},
            }
        }
        i += 1;
    }
    assert(attrs@.take(attrs@.len() as int) =~= attrs@);
    r
}

fn first_unescaped_attr_of(attrs: &Vec<(Vec<u8>, Vec<u8>)>, key: &[u8]) -> (r: Option<String>)
    ensures
        opt_view(r) == first_unescaped_attr(attrs@, key@),
{
    let mut i: usize = 0;
    assert(attrs@.skip(0) =~= attrs@);
    while i < attrs.len()
        invariant
            i <= attrs@.len(),
            first_unescaped_attr(attrs@, key@) == first_unescaped_attr(attrs@.skip(i as int), key@),
        decreases attrs@.len() - i,
    {
        let ghost rest = attrs@.skip(i as int);
        assert(rest[0] == attrs@[i as int]);
        assert(rest.drop_first() =~= attrs@.skip(i + 1));
        if key_is(&attrs[i].0, key) {
            match utf8_text(attrs[i].1.as_slice()) {
                Some(t) => match xml_unescape(t.as_str()) {
                    Some(u) => return Some(u),
                    None => {},
                },
                None => {},
            }
        }
        i += 1;
    }
    None
}

fn top_base_of(bases: &Vec<Option<String>>) -> (r: Option<String>)
    ensures
        opt_view(r) == top_base(bases_view(bases@)),
{
    if bases.len() == 0 {
        None
    } else {
        opt_clone(&bases[bases.len() - 1])
    }
}

fn push_bytes(out: &mut Vec<u8>, b: &[u8])
    ensures
        final(out)@ == old(out)@ + b@,
{
    let mut i: usize = 0;
    while i < b.len()
        invariant
            i <= b@.len(),
            out@ == old(out)@ + b@.take(i as int),
        decreases b@.len() - i,
    {
        out.push(b[i]);
        assert(old(out)@ + b@.take(i + 1) =~= old(out)@ + b@.take(i as int) + seq![b@[i as int]]);
        i += 1;
    }
    assert(b@.take(b@.len() as int) =~= b@);
}

impl AtomReader {
    fn new() -> (r: AtomReader)
        ensures
            r@ == atom_start_state(),
            r.skip_depth == 0,
            r.cap_depth == 0,
    {
        let r = AtomReader {
            title: None,
            home: None,
            language: None,
            icon: None,
            logo: None,
            items: Vec::new(),
            root_author: None,
            in_item: false,
            in_author: false,
            in_source: false,
            cur: blank_entry_draft(None),
            cur_author: None,
            skip_depth: 0,
            tag: Vec::new(),
            bases: Vec::new(),
            content_type: None,
            capturing: false,
            cap_depth: 0,
            cap_out: Vec::new(),
            cap_body: false,
            done: false,
        };
        assert(atom_items_view(r.items@) =~= Seq::<AtomItemView>::empty());
        assert(bases_view(r.bases@) =~= Seq::<Option<Seq<char>>>::empty());
        assert(r.tag@ =~= Seq::<u8>::empty());
        r
    }

    fn clear_tag(&mut self)
        ensures
            final(self)@ == (AtomState { tag: seq![], ..old(self)@ }),
            final(self).skip_depth == old(self).skip_depth,
            final(self).cap_depth == old(self).cap_depth,
    {
        self.tag = Vec::new();
        assert(self.tag@ =~= Seq::<u8>::empty());
    }

    fn pop_base(&mut self) -> (r: Option<String>)
        ensures
            final(self)@ == (AtomState { bases: popped(old(self)@.bases), ..old(self)@ }),
            opt_view(r) == top_base(old(self)@.bases),
            final(self).skip_depth == old(self).skip_depth,
            final(self).cap_depth == old(self).cap_depth,
    {
        let ghost before = self.bases@;
        match self.bases.pop() {
            Some(b) => {
                assert(bases_view(self.bases@) =~= bases_view(before).drop_last());
                b
            },
            None => None,
        }
    }

    fn apply_link(&mut self, attrs: &Vec<(Vec<u8>, Vec<u8>)>, base: Option<String>)
        ensures
            final(self)@ == with_link(old(self)@, attrs@, opt_view(base)),
            final(self).skip_depth == old(self).skip_depth,
            final(self).cap_depth == old(self).cap_depth,
    {
        let mut ctx = AtomLinkCtx {
            in_item: self.in_item,
            in_author: self.in_author,
            in_source: self.in_source,
            xml_base: base,
            home_page_url: self.home.take(),
            current_item_permalink: self.cur.url.take(),
            current_item_link: self.cur.external_url.take(),
            current_item_attachments: Vec::new(),
            current_author: self.cur_author.take(),
        };
        std::mem::swap(&mut ctx.current_item_attachments, &mut self.cur.attachments);
        assert(attachment_list_view(ctx.current_item_attachments@) =~= crate::parser::xml::attachments_view(
            ctx.current_item_attachments@,
        ));
        handle_atom_link_attributes(attrs, &mut ctx);
        self.home = ctx.home_page_url;
        self.cur.url = ctx.current_item_permalink;
        self.cur.external_url = ctx.current_item_link;
        std::mem::swap(&mut ctx.current_item_attachments, &mut self.cur.attachments);
        self.cur_author = ctx.current_author;
        assert(attachment_list_view(self.cur.attachments@) =~= crate::parser::xml::attachments_view(
            self.cur.attachments@,
        ));
    }

    fn on_start(&mut self, name: &Vec<u8>, attrs: &Vec<(Vec<u8>, Vec<u8>)>, feed_url: &str)
        requires
            old(self).skip_depth < usize::MAX,
            !old(self).capturing,
        ensures
            final(self)@ == atom_on_start(old(self)@, name@, attrs@, feed_url@),
            final(self).skip_depth <= old(self).skip_depth + 1,
            final(self).cap_depth == old(self).cap_depth || final(self).cap_depth == 1,
            final(self).capturing ==> final(self).cap_depth == 1,
    {
        let inherited = top_base_of(&self.bases);
        let base = effective_base_url(inherited, attrs, Some(feed_url));
        let ghost b0 = self.bases@;
        self.bases.push(opt_clone(&base));
        assert(bases_view(self.bases@) =~= bases_view(b0).push(opt_view(base)));
        if self.skip_depth > 0 {
            self.skip_depth = self.skip_depth + 1;
            self.clear_tag();
            return;
        }
        let (local, prefix) = name_parts(name);
        if self.in_item && prefix.is_some() {
            self.skip_depth = 1;
            self.clear_tag();
            return;
        }
        let was_in_item = self.in_item;
        let was_in_source = self.in_source;
        let is_feed = bytes_eq(local.as_slice(), &word_feed());
        if is_feed && self.language.is_none() {
            match last_utf8_attr_of(attrs, &aw_xml_lang()) {
                Some(l) => self.language = Some(l),
                None => {},
            }
        }
        if bytes_eq(local.as_slice(), &aw_entry()) {
            self.in_item = true;
            self.in_source = false;
            self.content_type = None;
            self.cur = blank_entry_draft(None);
        } else if bytes_eq(local.as_slice(), &aw_source()) && was_in_item {
            self.in_source = true;
        } else if was_in_item && !was_in_source && (bytes_eq(local.as_slice(), &word_content()) || bytes_eq(
            local.as_slice(),
            &aw_summary(),
        )) {
            self.content_type = first_unescaped_attr_of(attrs, &aw_type());
            if atom_type_is_xhtml(attrs) {
                self.capturing = true;
                self.cap_depth = 1;
                self.cap_out = Vec::new();
                self.cap_body = bytes_eq(local.as_slice(), &word_content());
                assert(self.cap_out@ =~= Seq::<u8>::empty());
            }
        } else if bytes_eq(local.as_slice(), &aw_author()) {
            self.in_author = true;
            self.cur_author = Some(MutableAuthor { name: None, email: None, url: None });
        } else if bytes_eq(local.as_slice(), &word_link()) {
            self.tag = copy_range(&local, 0, local.len());
            assert(local@.subrange(0, local@.len() as int) =~= local@);
            self.apply_link(attrs, base);
            return;
        }
        self.tag = local;
    }

    fn on_empty(&mut self, name: &Vec<u8>, attrs: &Vec<(Vec<u8>, Vec<u8>)>, feed_url: &str)
        ensures
            final(self)@ == atom_on_empty(old(self)@, name@, attrs@, feed_url@),
            final(self).skip_depth == old(self).skip_depth,
            final(self).cap_depth == old(self).cap_depth,
            final(self).capturing == old(self).capturing,
    {
        if self.skip_depth > 0 {
            return;
        }
        let (local, prefix) = name_parts(name);
        if self.in_item && prefix.is_some() {
            return;
        }
        if bytes_eq(local.as_slice(), &word_link()) {
            let inherited = top_base_of(&self.bases);
            let base = effective_base_url(inherited, attrs, Some(feed_url));
            self.apply_link(attrs, base);
        }
    }

    fn end_author(&mut self)
        ensures
            final(self)@ == ({
                let s = old(self)@;
                let built = match s.cur_author {
                    Some(a) => built_author(a),
                    None => None,
                };
                let s2 = AtomState { in_author: false, cur_author: None, ..s };
                match built {
                    Some(b) => if s.in_item && s.in_source {
                        s2
                    } else if s.in_item {
                        AtomState { cur: AtomItemView { authors: s.cur.authors.push(b), ..s.cur }, ..s2 }
                    } else if s.root_author is None {
                        AtomState { root_author: Some(b), ..s2 }
                    } else {
                        s2
                    },
                    None => s2,
                }
            }),
            final(self).skip_depth == old(self).skip_depth,
            final(self).cap_depth == old(self).cap_depth,
            final(self).capturing == old(self).capturing,
    {
        self.in_author = false;
        let built = match self.cur_author.take() {
            Some(a) => a.build(),
            None => None,
        };
        match built {
            Some(b) => {
                if self.in_item && self.in_source {
                } else if self.in_item {
                    let ghost before = self.cur.authors@;
                    let ghost v = b@;
                    self.cur.authors.push(b);
                    assert(authors_view(self.cur.authors@) =~= authors_view(before).push(v));
                } else if self.root_author.is_none() {
                    self.root_author = Some(b);
                }
            },
            None => {},
        }
    }

    fn end_entry(&mut self)
        ensures
            final(self)@ == (AtomState {
                in_item: false,
                in_source: false,
                items: old(self)@.items.push(old(self)@.cur),
                cur: AtomItemView { guid: old(self)@.cur.guid, ..blank_entry() },
                ..old(self)@
            }),
            final(self).skip_depth == old(self).skip_depth,
            final(self).cap_depth == old(self).cap_depth,
            final(self).capturing == old(self).capturing,
    {
        self.in_item = false;
        self.in_source = false;
        let guid = opt_clone(&self.cur.guid);
        let mut finished = blank_entry_draft(guid);
        std::mem::swap(&mut self.cur, &mut finished);
        let ghost before = self.items@;
        let ghost v = finished@;
        self.items.push(finished);
        assert(atom_items_view(self.items@) =~= atom_items_view(before).push(v));
    }

    #[verifier::rlimit(30)]
    fn on_end(&mut self, name: &Vec<u8>)
        ensures
            final(self)@ == atom_on_end(old(self)@, name@),
            final(self).skip_depth <= old(self).skip_depth,
            final(self).cap_depth == old(self).cap_depth,
            final(self).capturing == old(self).capturing,
    {
        let _ = self.pop_base();
        if self.skip_depth > 0 {
            self.skip_depth = self.skip_depth - 1;
            self.clear_tag();
            return;
        }
        let (local, _prefix) = name_parts(name);
        self.clear_tag();
        if bytes_eq(local.as_slice(), &word_content()) || bytes_eq(local.as_slice(), &aw_summary()) {
            self.content_type = None;
        }
        if bytes_eq(local.as_slice(), &word_feed()) {
            self.done = true;
        } else if bytes_eq(local.as_slice(), &aw_author()) {
            self.end_author();
        } else if bytes_eq(local.as_slice(), &aw_source()) {
            self.in_source = false;
        } else if bytes_eq(local.as_slice(), &aw_entry()) {
            self.end_entry();
        }
    }

    fn on_entry_text(&mut self, t: String)
        requires
            old(self).in_item,
            !(old(self).in_author && old(self).cur_author is Some),
            !old(self).in_source,
        ensures
            final(self)@ == (AtomState { cur: entry_text(old(self)@, t@), ..old(self)@ }),
            final(self).skip_depth == old(self).skip_depth,
            final(self).cap_depth == old(self).cap_depth,
            final(self).capturing == old(self).capturing,
    {
        let tag = self.tag.as_slice();
        if bytes_eq(tag, &word_title()) {
            if self.cur.title.is_none() {
                self.cur.title = Some(t);
            }
        } else if bytes_eq(tag, &word_content()) {
            if self.cur.content_html.is_none() {
                let base = top_base_of(&self.bases);
                let b = resolved_html_body(t, opt_as_str(&self.content_type), opt_as_str(&base));
                self.cur.content_html = Some(b);
            }
        } else if bytes_eq(tag, &aw_summary()) {
            if self.cur.summary.is_none() {
                let base = top_base_of(&self.bases);
                let b = resolved_html_body(t, opt_as_str(&self.content_type), opt_as_str(&base));
                self.cur.summary = Some(b);
            }
        } else if bytes_eq(tag, &aw_id()) {
            if self.cur.guid.is_none() {
                self.cur.guid = Some(t);
            }
        } else if bytes_eq(tag, &aw_published()) || bytes_eq(tag, &aw_issued()) {
            let ghost before = self.cur.published_texts@;
            let ghost v = t@;
            self.cur.published_texts.push(t);
            assert(texts_of(self.cur.published_texts@) =~= texts_of(before).push(v));
        } else if bytes_eq(tag, &aw_updated()) || bytes_eq(tag, &aw_modified()) {
            let ghost before = self.cur.modified_texts@;
            let ghost v = t@;
            self.cur.modified_texts.push(t);
            assert(texts_of(self.cur.modified_texts@) =~= texts_of(before).push(v));
        }
    }

    fn on_text(&mut self, t: String)
        ensures
            final(self)@ == atom_on_text(old(self)@, t@),
            final(self).skip_depth == old(self).skip_depth,
            final(self).cap_depth == old(self).cap_depth,
            final(self).capturing == old(self).capturing,
    {
        let base = top_base_of(&self.bases);
        if self.in_author && self.cur_author.is_some() {
            let mut a = self.cur_author.take().unwrap();
            let tag = self.tag.as_slice();
            if bytes_eq(tag, &aw_name()) {
                a.name = Some(t);
            } else if bytes_eq(tag, &aw_email()) {
                a.email = Some(t);
            } else if bytes_eq(tag, &aw_uri()) {
                a.url = Some(resolve_url(t.as_str(), opt_as_str(&base)));
            }
            self.cur_author = Some(a);
        } else if self.in_source {
        } else if self.in_item {
            self.on_entry_text(t);
        } else if bytes_eq(self.tag.as_slice(), &word_title()) && self.title.is_none() {
            self.title = Some(t);
        } else if bytes_eq(self.tag.as_slice(), &aw_icon()) && self.icon.is_none() {
            self.icon = Some(resolve_url(t.as_str(), opt_as_str(&base)));
        } else if bytes_eq(self.tag.as_slice(), &aw_logo()) && self.logo.is_none() {
            self.logo = Some(resolve_url(t.as_str(), opt_as_str(&base)));
        }
    }

    fn end_capture(&mut self)
        requires
            old(self).capturing,
        ensures
            final(self)@ == finish_capture(old(self)@),
            final(self).skip_depth == old(self).skip_depth,
            final(self).cap_depth == old(self).cap_depth,
            !final(self).capturing,
    {
        let own = self.pop_base();
        let inner = lossy_text(self.cap_out.as_slice(), 0, self.cap_out.len());
        assert(self.cap_out@.subrange(0, self.cap_out@.len() as int) =~= self.cap_out@);
        let text = match &own {
            Some(b) => resolving_relative_urls(inner.as_str(), b.as_str()),
            None => inner,
        };
        if self.cap_body {
            if self.cur.content_html.is_none() {
                self.cur.content_html = Some(text);
            }
        } else {
            if self.cur.summary.is_none() {
                self.cur.summary = Some(text);
            }
        }
        self.capturing = false;
        self.content_type = None;
        self.clear_tag();
    }

    fn append3(&mut self, a: &[u8], b: &[u8], c: &[u8])
        requires
            old(self).capturing,
        ensures
            final(self)@ == (AtomState {
                capture: Some(CaptureState { out: old(self).cap_out@ + a@ + b@ + c@, ..old(self)@.capture->0 }),
                ..old(self)@
            }),
            final(self).cap_out@ == old(self).cap_out@ + a@ + b@ + c@,
            final(self).skip_depth == old(self).skip_depth,
            final(self).cap_depth == old(self).cap_depth,
            final(self).capturing == old(self).capturing,
    {
        push_bytes(&mut self.cap_out, a);
        push_bytes(&mut self.cap_out, b);
        push_bytes(&mut self.cap_out, c);
    }

    fn capture_event(&mut self, e: &XmlEvent)
        requires
            old(self).capturing,
            old(self).cap_depth >= 1,
            old(self).cap_depth < usize::MAX,
        ensures
            final(self)@ == capture_step(old(self)@, *e),
            final(self).skip_depth == old(self).skip_depth,
            final(self).cap_depth <= old(self).cap_depth + 1,
            final(self).capturing ==> final(self).cap_depth >= 1,
    {
        let lt_b: [u8; 1] = [60];
        let gt_b: [u8; 1] = [62];
        let lts_b: [u8; 2] = [60, 47];
        let sgt_b: [u8; 2] = [47, 62];
        let co_b: [u8; 9] = [60, 33, 91, 67, 68, 65, 84, 65, 91];
        let cc_b: [u8; 3] = [93, 93, 62];
        let mo_b: [u8; 4] = [60, 33, 45, 45];
        let mc_b: [u8; 3] = [45, 45, 62];
        let none: [u8; 0] = [];
        assert(lt_b@ == lt());
        assert(gt_b@ == gt());
        assert(lts_b@ == lt_slash());
        assert(sgt_b@ == slash_gt());
        assert(co_b@ == cdata_open());
        assert(cc_b@ == cdata_close());
        assert(mo_b@ == comment_open());
        assert(mc_b@ == comment_close());
        assert(none@ =~= Seq::<u8>::empty());
        match e {
            XmlEvent::Start { raw, .. } => {
                self.append3(&lt_b, raw.as_slice(), &gt_b);
                self.cap_depth = self.cap_depth + 1;
            },
            XmlEvent::End { name } => {
                if self.cap_depth <= 1 {
                    self.end_capture();
                } else {
                    self.append3(&lts_b, name.as_slice(), &gt_b);
                    self.cap_depth = self.cap_depth - 1;
                }
            },
            XmlEvent::Empty { raw, .. } => {
                self.append3(&lt_b, raw.as_slice(), &sgt_b);
            },
            XmlEvent::Text { raw } => {
                self.append3(&none, raw.as_slice(), &none);
                assert(old(self).cap_out@ + none@ + raw@ + none@ =~= old(self).cap_out@ + raw@);
            },
            XmlEvent::CData { raw } => {
                self.append3(&co_b, raw.as_slice(), &cc_b);
            },
            XmlEvent::Comment { raw } => {
                self.append3(&mo_b, raw.as_slice(), &mc_b);
            },
            XmlEvent::Malformed => {
                let _ = self.pop_base();
                self.capturing = false;
                self.content_type = None;
                self.clear_tag();
            },
            XmlEvent::Other => {},
        }
    }

    fn step(&mut self, e: &XmlEvent, feed_url: &str)
        requires
            old(self).skip_depth < usize::MAX,
            old(self).cap_depth < usize::MAX,
            old(self).capturing ==> old(self).cap_depth >= 1,
        ensures
            final(self)@ == atom_step(old(self)@, *e, feed_url@),
            final(self).skip_depth <= old(self).skip_depth + 1,
            final(self).cap_depth <= old(self).cap_depth + 1,
            final(self).capturing ==> final(self).cap_depth >= 1,
    {
        if self.done {
            return;
        }
        if self.capturing {
            self.capture_event(e);
            return;
        }
        match e {
            XmlEvent::Start { name, attributes, .. } => self.on_start(name, attributes, feed_url),
            XmlEvent::Empty { name, attributes, .. } => self.on_empty(name, attributes, feed_url),
            XmlEvent::End { name } => self.on_end(name),
            XmlEvent::Text { raw } => {
                if self.skip_depth == 0 {
                    match trimmed_text_of(raw) {
                        Some(Some(t)) => self.on_text(t),
                        _ => {},
                    }
                }
            },
            XmlEvent::CData { raw } => {
                if self.skip_depth == 0 {
                    let t = lossy_text(raw.as_slice(), 0, raw.len());
                    assert(raw@.subrange(0, raw@.len() as int) =~= raw@);
                    self.on_text(t);
                }
            },
            XmlEvent::Malformed => self.done = true,
            _ => {},
        }
    }
}

fn with_root_author_exec(items: Vec<AtomItemDraft>, root: &Option<Author>) -> (r: Vec<AtomItemDraft>)
    ensures
        atom_items_view(r@) == with_root_author(atom_items_view(items@), author_opt_view(*root)),
{
    let ghost rv = author_opt_view(*root);
    let ghost target = with_root_author(atom_items_view(items@), rv);
    let mut out: Vec<AtomItemDraft> = Vec::new();
    let mut rest = items;
    let ghost orig = rest@;
    let mut i: usize = 0;
    let n = rest.len();
    while i < n
        invariant
            n == orig.len(),
            i <= n,
            rest@.len() == n,
            forall|k: int| i <= k < n ==> #[trigger] rest@[k]@ == orig[k]@,
            out@.len() == i,
            target == with_root_author(atom_items_view(orig), rv),
            rv == author_opt_view(*root),
            forall|k: int| 0 <= k < i ==> #[trigger] out@[k]@ == target[k],
        decreases n - i,
    {
        let mut d = blank_entry_draft(None);
        rest.set_and_swap(i, &mut d);
        proof {
            assert(d@ == orig[i as int]@);
        }
        let ghost dv = d@;
        assert(atom_items_view(orig)[i as int] == dv);
        assert(dv.authors.len() == d.authors@.len());
        match root {
            Some(a) => {
                assert(rv == Some(a@));
                if d.authors.len() == 0 {
                    d.authors.push(a.duplicate());
                    assert(authors_view(d.authors@) =~= seq![a@]);
                    assert(d@ == (AtomItemView { authors: seq![a@], ..dv }));
                } else {
                    assert(d@ == dv);
                }
                assert(d@ == target[i as int]);
            },
            None => {
                assert(d@ == target[i as int]);
            },
        }
        out.push(d);
        i += 1;
    }
    assert(atom_items_view(out@) =~= target);
    out
}

/// The feed that `events` describe, read as Atom.
pub fn atom_draft_from_events(events: &Vec<XmlEvent>, feed_url: &str) -> (d: AtomDraft)
    ensures
        d@ == atom_draft(events@, feed_url@),
{
    let mut r = AtomReader::new();
    let mut i: usize = 0;
    assert(events@.take(0) =~= Seq::<XmlEvent>::empty());
    while i < events.len()
        invariant
            i <= events@.len(),
            r@ == atom_fold(events@.take(i as int), feed_url@),
            r.skip_depth <= i,
            r.cap_depth <= i,
            r.capturing ==> r.cap_depth >= 1,
        decreases events@.len() - i,
    {
        assert(events@.take(i + 1).drop_last() =~= events@.take(i as int));
        r.step(&events[i], feed_url);
        i += 1;
    }
    assert(events@.take(events@.len() as int) =~= events@);
    let icon_src = match &r.icon {
        Some(u) => Some(u),
        None => r.logo.as_ref(),
    };
    let icon = match icon_src {
        Some(u) => {
            let base = match &r.home {
                Some(h) => h.as_str(),
                None => feed_url,
            };
            Some(resolve_url(u.as_str(), Some(base)))
        },
        None => None,
    };
    let items = with_root_author_exec(r.items, &r.root_author);
    AtomDraft {
        title: r.title,
        home_page_url: r.home,
        feed_url: Some(String::from_str(feed_url)),
        icon_url: icon,
        language: r.language,
        items,
    }
}

/// Reads `data` as Atom. Reading never fails: it stops at the first XML
/// error or at `</feed>`, keeping what was read.
pub fn parse_atom(data: &[u8], feed_url: &str) -> (r: Result<AtomDraft, ParseError>)
    requires
        data@.len() < usize::MAX,
    ensures
        r matches Ok(d) && exists|events: Seq<XmlEvent>| document_events(data@, events) && d@ == atom_draft(events, feed_url@),
{
    let events = xml_events(data);
    let d = atom_draft_from_events(&events, feed_url);
    assert(d@ == atom_draft(events@, feed_url@));
    Ok(d)
}

// ---------------------------------------------------------------------
// Finishing: dates and ids
// ---------------------------------------------------------------------

/// The item an entry becomes once its date texts parsed to `published`
/// and `modified`: each date is the first that parsed, and the id is
/// derived from the `<id>`, or from the permalink, link, title, body and
/// publication date.
pub open spec fn finished_entry(d: AtomItemView, published: Seq<Option<i64>>, modified: Seq<Option<i64>>) -> ParsedItemView {
    let date = first_date(published);
    ParsedItemView {
        id: item_id(d.guid, d.permalink, d.link, d.title, d.body, date),
        title: d.title,
        content_html: d.body,
        content_text: None,
        url: d.permalink,
        external_url: d.link,
        summary: d.summary,
        image_url: None,
        date_published: date,
        date_modified: first_date(modified),
        authors: d.authors,
        attachments: d.attachments,
    }
}

/// The parsed dates of entry `i` (none where `dates` has no entry for it).
pub open spec fn entry_dates(dates: Seq<(Vec<Option<i64>>, Vec<Option<i64>>)>, i: int) -> (Seq<Option<i64>>, Seq<Option<i64>>) {
    if 0 <= i < dates.len() {
        (dates[i].0@, dates[i].1@)
    } else {
        (seq![], seq![])
    }
}

pub open spec fn finished_atom(d: AtomDraftView, dates: Seq<(Vec<Option<i64>>, Vec<Option<i64>>)>) -> ParsedFeedView {
    ParsedFeedView {
        title: d.title,
        home_page_url: d.home_page_url,
        feed_url: d.feed_url,
        icon_url: d.icon_url,
        language: d.language,
        items: Seq::new(
            d.items.len(),
            |i: int| finished_entry(d.items[i], entry_dates(dates, i).0, entry_dates(dates, i).1),
        ),
    }
}

fn finish_entry(d: &AtomItemDraft, published: &Vec<Option<i64>>, modified: &Vec<Option<i64>>) -> (p: ParsedItem)
    ensures
        p@ == finished_entry(d@, published@, modified@),
{
    let date = first_date_of(published);
    let id = calculate_id(
        opt_as_str(&d.guid),
        opt_as_str(&d.url),
        opt_as_str(&d.external_url),
        opt_as_str(&d.title),
        opt_as_str(&d.content_html),
        date,
    );
    ParsedItem {
        id,
        title: opt_clone(&d.title),
        content_html: opt_clone(&d.content_html),
        content_text: None,
        url: opt_clone(&d.url),
        external_url: opt_clone(&d.external_url),
        summary: opt_clone(&d.summary),
        image_url: None,
        date_published: date,
        date_modified: first_date_of(modified),
        authors: duplicate_authors(&d.authors),
        attachments: duplicate_attachments(&d.attachments),
    }
}

/// The feed a draft becomes once each entry's date texts were parsed:
/// `dates[i].0[j]` is the parse of `draft.items[i].published_texts[j]`,
/// `dates[i].1[j]` that of `modified_texts[j]` (`None` where it did not
/// parse).
pub fn finish_atom(draft: AtomDraft, dates: &Vec<(Vec<Option<i64>>, Vec<Option<i64>>)>) -> (f: ParsedFeed)
    ensures
        f@ == finished_atom(draft@, dates@),
{
    let ghost d0 = draft@;
    let empty: Vec<Option<i64>> = Vec::new();
    let mut out: Vec<ParsedItem> = Vec::new();
    let mut i: usize = 0;
    while i < draft.items.len()
        invariant
            i <= draft.items@.len(),
            d0 == draft@,
            empty@ == Seq::<Option<i64>>::empty(),
            out@.len() == i,
            forall|k: int|
                0 <= k < i ==> #[trigger] out@[k]@ == finished_entry(
                    d0.items[k],
                    entry_dates(dates@, k).0,
                    entry_dates(dates@, k).1,
                ),
        decreases draft.items@.len() - i,
    {
        let (p, m) = if i < dates.len() { (&dates[i].0, &dates[i].1) } else { (&empty, &empty) };
        let item = finish_entry(&draft.items[i], p, m);
        out.push(item);
        i += 1;
    }
    let AtomDraft { title, home_page_url, feed_url, icon_url, language, items: _ } = draft;
    let f = ParsedFeed { title, home_page_url, feed_url, icon_url, language, items: out };
    assert(parsed_items_view(f.items@) =~= Seq::new(
        d0.items.len(),
        |k: int| finished_entry(d0.items[k], entry_dates(dates@, k).0, entry_dates(dates@, k).1),
    ));
    f
}

} // verus!
