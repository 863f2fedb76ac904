//! JSON Feed and RSS-in-JSON documents, read from a parsed JSON value.
//!
//! The reader works on `JsonValue`, the library's own form of a parsed
//! JSON document; the date texts it finds are parsed by the caller, and
//! `finish_json` turns a draft and those dates into a `ParsedFeed`.
use vstd::prelude::*;
use crate::chars::{chars_of, contains_run, has_run, push_str_chars, string_from_chars};
use crate::error::ParseError;
use crate::hashing::{md5_hex, md5_hex_of};
use crate::models::{
    attachment_list_view, authors_view, opt_view, parsed_items_view, Attachment, AttachmentView, Author,
    AuthorView, ParsedFeed, ParsedFeedView, ParsedItem, ParsedItemView,
};
use crate::numbers::{push_signed_decimal, signed_decimal};
use crate::parser::xml::{has_char, has_char_exec};

verus! {

/// A parsed JSON value. A number carries what it reads as: `integer` when it
/// is an integer that fits in an `i64`, and `float_text` the decimal text
/// of the `f64` it reads as, where it reads as one. An object's members
/// keep their document order; a key that occurs twice is read at its
/// first occurrence.
#[derive(Debug, PartialEq)]
pub enum JsonValue {
    Null,
    Bool(bool),
    Number { integer: Option<i64>, float_text: Option<String> },
    Str(String),
    Array(Vec<JsonValue>),
    Object(Vec<(String, JsonValue)>),
}

// ---------------------------------------------------------------------
// Reading members
// ---------------------------------------------------------------------

/// The value of the first member at or after `i` whose key is `key`.
pub open spec fn member_from(pairs: Seq<(String, JsonValue)>, key: Seq<char>, i: int) -> Option<JsonValue>
    decreases pairs.len() - i,
{
    if i < 0 || i >= pairs.len() {
        None
    } else if pairs[i].0@ == key {
        Some(pairs[i].1)
    } else {
        member_from(pairs, key, i + 1)
    }
}

/// The member `key` of an object; `None` for a missing key or a value
/// that is no object.
pub open spec fn member(v: JsonValue, key: Seq<char>) -> Option<JsonValue> {
    match v {
        JsonValue::Object(pairs) => member_from(pairs@, key, 0),
        _ => None,
    }
}

/// The text of a string value.
pub open spec fn text_of(v: Option<JsonValue>) -> Option<Seq<char>> {
    match v {
        Some(JsonValue::Str(s)) => Some(s@),
        _ => None,
    }
}

/// The `i64` of a number that is one.
pub open spec fn int_of(v: Option<JsonValue>) -> Option<i64> {
    match v {
        Some(JsonValue::Number { integer, .. }) => integer,
        _ => None,
    }
}

/// The elements of an array.
pub open spec fn elements_of(v: Option<JsonValue>) -> Option<Seq<JsonValue>> {
    match v {
        Some(JsonValue::Array(a)) => Some(a@),
        _ => None,
    }
}

pub open spec fn is_object(v: Option<JsonValue>) -> bool {
    v matches Some(JsonValue::Object(_))
}

/// The text of the string member `key`.
pub open spec fn text_member(v: JsonValue, key: Seq<char>) -> Option<Seq<char>> {
    text_of(member(v, key))
}

/// The member `key` of `v`.
pub fn member_of<'a>(v: &'a JsonValue, key: &str) -> (r: Option<&'a JsonValue>)
    ensures
        match r {
            Some(x) => member(*v, key@) == Some(*x),
            None => member(*v, key@) is None,
        },
{
    match v {
        JsonValue::Object(pairs) => {
            let mut i: usize = 0;
            while i < pairs.len()
                invariant
                    i <= pairs@.len(),
                    member(*v, key@) == member_from(pairs@, key@, i as int),
                decreases pairs@.len() - i,
            {
                if crate::chars::text_eq(pairs[i].0.as_str(), key) {
                    return Some(&pairs[i].1);
                }
                i += 1;
            }
            None
        },
        _ => None,
    }
}

/// The text of the string member `key` of `v`.
pub fn text_member_of(v: &JsonValue, key: &str) -> (r: Option<String>)
    ensures
        opt_view(r) == text_member(*v, key@),
{
    match member_of(v, key) {
        Some(x) => match x {
            JsonValue::Str(s) => Some(s.clone()),
            _ => None,
        },
        None => None,
    }
}

/// The `i64` of the number member `key` of `v`.
pub fn int_member_of(v: &JsonValue, key: &str) -> (r: Option<i64>)
    ensures
        r == int_of(member(*v, key@)),
{
    match member_of(v, key) {
        Some(x) => match x {
            JsonValue::Number { integer, .. } => *integer,
            _ => None,
        },
        None => None,
    }
}

/// The elements of the array member `key` of `v`.
pub fn elements_member_of<'a>(v: &'a JsonValue, key: &str) -> (r: Option<&'a Vec<JsonValue>>)
    ensures
        match r {
            Some(a) => elements_of(member(*v, key@)) == Some(a@),
            None => elements_of(member(*v, key@)) is None,
        },
{
    match member_of(v, key) {
        Some(x) => match x {
            JsonValue::Array(a) => Some(a),
            _ => None,
        },
        None => None,
    }
}

/// Whether `v` is an object.
pub fn is_object_value(v: &JsonValue) -> (b: bool)
    ensures
        b == is_object(Some(*v)),
{
    match v {
        JsonValue::Object(_) => true,
        _ => false,
    }
}

// ---------------------------------------------------------------------
// Keeping what is there
// ---------------------------------------------------------------------

/// The values that are there, in order.
pub open spec fn somes<T>(s: Seq<Option<T>>) -> Seq<T>
    decreases s.len(),
{
    if s.len() == 0 {
        Seq::empty()
    } else {
        let rest = somes(s.drop_last());
        match s.last() {
            Some(x) => rest.push(x),
            None => rest,
        }
    }
}

pub proof fn lemma_somes_take<T>(s: Seq<Option<T>>, i: int)
    requires
        0 <= i < s.len(),
    ensures
        somes(s.take(i + 1)) == match s[i] {
            Some(x) => somes(s.take(i)).push(x),
            None => somes(s.take(i)),
        },
{
    assert(s.take(i + 1).drop_last() =~= s.take(i));
}

/// `out` is the values of `s` in order: `idx[k]` is the position in `s`
/// that holds `out[k]`, the positions rise, and every position of `s`
/// that holds a value is one of them.
pub open spec fn values_in_order<T>(s: Seq<Option<T>>, out: Seq<T>, idx: Seq<int>) -> bool {
    &&& idx.len() == out.len()
    &&& forall|k: int| 0 <= k < idx.len() ==> 0 <= #[trigger] idx[k] < s.len() && s[idx[k]] == Some(out[k])
    &&& forall|k1: int, k2: int| 0 <= k1 < k2 < idx.len() ==> #[trigger] idx[k1] < #[trigger] idx[k2]
    &&& forall|j: int| 0 <= j < s.len() && (#[trigger] s[j]) is Some ==> exists|k: int| 0 <= k < idx.len() && idx[k] == j
}

pub proof fn lemma_somes_positions<T>(s: Seq<Option<T>>) -> (idx: Seq<int>)
    ensures
        values_in_order(s, somes(s), idx),
    decreases s.len(),
{
    if s.len() == 0 {
        Seq::empty()
    } else {
        let p = lemma_somes_positions(s.drop_last());
        let rest = somes(s.drop_last());
        let n = s.len() - 1;
        match s.last() {
            Some(x) => {
                let idx = p.push(n);
                assert forall|k: int| 0 <= k < idx.len() implies 0 <= #[trigger] idx[k] < s.len() && s[idx[k]] == Some(
                    somes(s)[k],
                ) by {
                    if k < p.len() {
                        assert(s.drop_last()[p[k]] == s[p[k]]);
                    }
                }
                assert forall|j: int| 0 <= j < s.len() && (#[trigger] s[j]) is Some implies exists|k: int|
                    0 <= k < idx.len() && idx[k] == j by {
                    if j < n {
                        assert(s.drop_last()[j] == s[j]);
                        let k = choose|k: int| 0 <= k < p.len() && p[k] == j;
                        assert(idx[k] == j);
                    } else {
                        assert(idx[idx.len() - 1] == j);
                    }
                }
                idx
            },
            None => {
                assert forall|k: int| 0 <= k < p.len() implies 0 <= #[trigger] p[k] < s.len() && s[p[k]] == Some(somes(s)[k]) by {
                    assert(s.drop_last()[p[k]] == s[p[k]]);
                }
                assert forall|j: int| 0 <= j < s.len() && (#[trigger] s[j]) is Some implies exists|k: int|
                    0 <= k < p.len() && p[k] == j by {
                    assert(s.drop_last()[j] == s[j]);
                }
                p
            },
        }
    }
}

// ---------------------------------------------------------------------
// Drafts: what a document holds before its dates are parsed
// ---------------------------------------------------------------------

/// An item as read: its date texts are not parsed yet, and `id` is `None`
/// where the item has no id of its own and one is derived when the dates
/// are known.
pub struct JsonItemDraft {
    pub id: Option<String>,
    pub title: Option<String>,
    pub content_html: Option<String>,
    pub content_text: Option<String>,
    pub url: Option<String>,
    pub external_url: Option<String>,
    pub summary: Option<String>,
    pub image_url: Option<String>,
    pub published_text: Option<String>,
    pub modified_text: Option<String>,
    pub authors: Vec<Author>,
    pub attachments: Vec<Attachment>,
}

pub struct JsonItemView {
    pub id: Option<Seq<char>>,
    pub title: Option<Seq<char>>,
    pub content_html: Option<Seq<char>>,
    pub content_text: Option<Seq<char>>,
    pub url: Option<Seq<char>>,
    pub external_url: Option<Seq<char>>,
    pub summary: Option<Seq<char>>,
    pub image_url: Option<Seq<char>>,
    pub published_text: Option<Seq<char>>,
    pub modified_text: Option<Seq<char>>,
    pub authors: Seq<AuthorView>,
    pub attachments: Seq<AttachmentView>,
}

impl View for JsonItemDraft {
    type V = JsonItemView;

    open spec fn view(&self) -> JsonItemView {
        JsonItemView {
            id: opt_view(self.id),
            title: opt_view(self.title),
            content_html: opt_view(self.content_html),
            content_text: opt_view(self.content_text),
            url: opt_view(self.url),
            external_url: opt_view(self.external_url),
            summary: opt_view(self.summary),
            image_url: opt_view(self.image_url),
            published_text: opt_view(self.published_text),
            modified_text: opt_view(self.modified_text),
            authors: authors_view(self.authors@),
            attachments: attachment_list_view(self.attachments@),
        }
    }
}

/// A feed as read, before its items' dates are parsed.
pub struct JsonDraft {
    pub title: Option<String>,
    pub home_page_url: Option<String>,
    pub feed_url: Option<String>,
    pub items: Vec<JsonItemDraft>,
}

pub struct JsonDraftView {
    pub title: Option<Seq<char>>,
    pub home_page_url: Option<Seq<char>>,
    pub feed_url: Option<Seq<char>>,
    pub items: Seq<JsonItemView>,
}

pub open spec fn json_items_view(v: Seq<JsonItemDraft>) -> Seq<JsonItemView> {
    v.map_values(|d: JsonItemDraft| d@)
}

impl View for JsonDraft {
    type V = JsonDraftView;

    open spec fn view(&self) -> JsonDraftView {
        JsonDraftView {
            title: opt_view(self.title),
            home_page_url: opt_view(self.home_page_url),
            feed_url: opt_view(self.feed_url),
            items: json_items_view(self.items@),
        }
    }
}

/// What reading a JSON document comes to: a draft, a document of no known
/// kind, or a broken one with its message.
pub enum JsonOutcome {
    Feed(JsonDraftView),
    Unknown,
    Malformed(Seq<char>),
    OtherError,
}

pub open spec fn outcome_of(r: Result<JsonDraft, ParseError>) -> JsonOutcome {
    match r {
        Ok(d) => JsonOutcome::Feed(d@),
        Err(ParseError::UnknownFormat) => JsonOutcome::Unknown,
        Err(ParseError::Malformed(m)) => JsonOutcome::Malformed(m@),
        Err(_) => JsonOutcome::OtherError,
    }
}

// ---------------------------------------------------------------------
// JSON Feed (https://jsonfeed.org/version/1.1)
// ---------------------------------------------------------------------

/// An author object: kept when it has a name, a URL or an avatar.
pub open spec fn jf_author(a: JsonValue) -> Option<AuthorView> {
    let name = text_member(a, "name"@);
    let url = text_member(a, "url"@);
    let avatar = text_member(a, "avatar"@);
    if name is None && url is None && avatar is None {
        None
    } else {
        Some(AuthorView { name, url, avatar_url: avatar, email: None })
    }
}

pub open spec fn jf_author_opts(arr: Seq<JsonValue>) -> Seq<Option<AuthorView>> {
    arr.map_values(|a: JsonValue| jf_author(a))
}

/// An item's authors: those of its `authors` array, else its single
/// `author` object.
pub open spec fn jf_authors(item: JsonValue) -> Seq<AuthorView> {
    match elements_of(member(item, "authors"@)) {
        Some(arr) => somes(jf_author_opts(arr)),
        None => match member(item, "author"@) {
            Some(a) => if is_object(Some(a)) {
                match jf_author(a) {
                    Some(x) => seq![x],
                    None => Seq::empty(),
                }
            } else {
                Seq::empty()
            },
            None => Seq::empty(),
        },
    }
}

/// An attachment object: kept when its `url` is a non-empty string.
pub open spec fn jf_attachment(a: JsonValue) -> Option<AttachmentView> {
    match text_member(a, "url"@) {
        Some(u) => if u.len() == 0 {
            None
        } else {
            Some(AttachmentView {
                url: u,
                mime_type: text_member(a, "mime_type"@),
                title: text_member(a, "title"@),
                size_in_bytes: int_of(member(a, "size_in_bytes"@)),
                duration_in_seconds: int_of(member(a, "duration_in_seconds"@)),
            })
        },
        None => None,
    }
}

pub open spec fn jf_attachment_opts(arr: Seq<JsonValue>) -> Seq<Option<AttachmentView>> {
    arr.map_values(|a: JsonValue| jf_attachment(a))
}

pub open spec fn jf_attachments(item: JsonValue) -> Seq<AttachmentView> {
    match elements_of(member(item, "attachments"@)) {
        Some(arr) => somes(jf_attachment_opts(arr)),
        None => Seq::empty(),
    }
}

/// An item's id: a string as it is, an `i64` in decimal, another number as
/// the text of the `f64` it reads as.
pub open spec fn jf_id(item: JsonValue) -> Option<Seq<char>> {
    match member(item, "id"@) {
        Some(JsonValue::Str(s)) => Some(s@),
        Some(JsonValue::Number { integer: Some(n), .. }) => Some(signed_decimal(n as int)),
        Some(JsonValue::Number { integer: None, float_text: Some(t) }) => Some(t@),
        _ => None,
    }
}

/// An item: kept when it has an id and an HTML or a plain-text body.
pub open spec fn jf_item(item: JsonValue) -> Option<JsonItemView> {
    let html = text_member(item, "content_html"@);
    let text = text_member(item, "content_text"@);
    match jf_id(item) {
        None => None,
        Some(id) => if html is None && text is None {
            None
        } else {
            Some(JsonItemView {
                id: Some(id),
                title: text_member(item, "title"@),
                content_html: html,
                content_text: text,
                url: text_member(item, "url"@),
                external_url: text_member(item, "external_url"@),
                summary: text_member(item, "summary"@),
                image_url: text_member(item, "image"@),
                published_text: text_member(item, "date_published"@),
                modified_text: text_member(item, "date_modified"@),
                authors: jf_authors(item),
                attachments: jf_attachments(item),
            })
        },
    }
}

pub open spec fn jf_item_opts(arr: Seq<JsonValue>) -> Seq<Option<JsonItemView>> {
    arr.map_values(|i: JsonValue| jf_item(i))
}

/// A JSON Feed document: it must have a string `title` and an `items`
/// array; the feed URL is the document's own, else the one it was
/// fetched from.
pub open spec fn json_feed_outcome(root: JsonValue, feed_url: Seq<char>) -> JsonOutcome {
    match text_member(root, "title"@) {
        None => JsonOutcome::Malformed("JSON Feed missing title"@),
        Some(title) => match elements_of(member(root, "items"@)) {
            None => JsonOutcome::Malformed("JSON Feed items not found"@),
            Some(items) => JsonOutcome::Feed(JsonDraftView {
                title: Some(title),
                home_page_url: text_member(root, "home_page_url"@),
                feed_url: Some(
                    match text_member(root, "feed_url"@) {
                        Some(u) => u,
                        None => feed_url,
                    },
                ),
                items: somes(jf_item_opts(items)),
            }),
        },
    }
}

fn jf_author_of(a: &JsonValue) -> (r: Option<Author>)
    ensures
        match r {
            Some(x) => jf_author(*a) == Some(x@),
            None => jf_author(*a) is None,
        },
{
    let name = text_member_of(a, "name");
    let url = text_member_of(a, "url");
    let avatar_url = text_member_of(a, "avatar");
    if name.is_none() && url.is_none() && avatar_url.is_none() {
        None
    } else {
        Some(Author { name, url, avatar_url, email: None })
    }
}

fn jf_authors_of(item: &JsonValue) -> (r: Vec<Author>)
    ensures
        authors_view(r@) == jf_authors(*item),
{
    match elements_member_of(item, "authors") {
        Some(arr) => {
            let ghost opts = jf_author_opts(arr@);
            let mut out: Vec<Author> = Vec::new();
            let mut i: usize = 0;
            while i < arr.len()
                invariant
                    i <= arr@.len(),
                    opts == jf_author_opts(arr@),
                    authors_view(out@) == somes(opts.take(i as int)),
                decreases arr@.len() - i,
            {
                proof {
                    lemma_somes_take(opts, i as int);
                }
                match jf_author_of(&arr[i]) {
                    Some(x) => {
                        assert(authors_view(out@.push(x)) =~= authors_view(out@).push(x@));
                        out.push(x);
                    },
                    None => {},
                }
                i += 1;
            }
            assert(opts.take(arr@.len() as int) =~= opts);
            out
        },
        None => match member_of(item, "author") {
            Some(a) => {
                if is_object_value(a) {
                    match jf_author_of(a) {
                        Some(x) => {
                            let mut out: Vec<Author> = Vec::new();
                            out.push(x);
                            assert(authors_view(out@) =~= seq![x@]);
                            out
                        },
                        None => {
                            let out: Vec<Author> = Vec::new();
                            assert(authors_view(out@) =~= Seq::<AuthorView>::empty());
                            out
                        },
                    }
                } else {
                    let out: Vec<Author> = Vec::new();
                    assert(authors_view(out@) =~= Seq::<AuthorView>::empty());
                    out
                }
            },
            None => {
                let out: Vec<Author> = Vec::new();
                assert(authors_view(out@) =~= Seq::<AuthorView>::empty());
                out
            },
        },
    }
}

fn jf_attachment_of(a: &JsonValue) -> (r: Option<Attachment>)
    ensures
        match r {
            Some(x) => jf_attachment(*a) == Some(x@),
            None => jf_attachment(*a) is None,
        },
{
    match text_member_of(a, "url") {
        Some(url) => {
            if url.as_str().is_empty() {
                None
            } else {
                Some(Attachment {
                    url,
                    mime_type: text_member_of(a, "mime_type"),
                    title: text_member_of(a, "title"),
                    size_in_bytes: int_member_of(a, "size_in_bytes"),
                    duration_in_seconds: int_member_of(a, "duration_in_seconds"),
                })
            }
        },
        None => None,
    }
}

/// The attachments of a JSON Feed item: each with a non-empty `url`, in
/// order.
pub fn parse_jf_attachments(item: &JsonValue) -> (r: Vec<Attachment>)
    ensures
        attachment_list_view(r@) == jf_attachments(*item),
{
    match elements_member_of(item, "attachments") {
        Some(arr) => {
            let ghost opts = jf_attachment_opts(arr@);
            let mut out: Vec<Attachment> = Vec::new();
            let mut i: usize = 0;
            while i < arr.len()
                invariant
                    i <= arr@.len(),
                    opts == jf_attachment_opts(arr@),
                    attachment_list_view(out@) == somes(opts.take(i as int)),
                decreases arr@.len() - i,
            {
                proof {
                    lemma_somes_take(opts, i as int);
                }
                match jf_attachment_of(&arr[i]) {
                    Some(x) => {
                        assert(attachment_list_view(out@.push(x)) =~= attachment_list_view(out@).push(x@));
                        out.push(x);
                    },
                    None => {},
                }
                i += 1;
            }
            assert(opts.take(arr@.len() as int) =~= opts);
            out
        },
        None => {
            let out: Vec<Attachment> = Vec::new();
            assert(attachment_list_view(out@) =~= Seq::<AttachmentView>::empty());
            out
        },
    }
}

fn jf_id_of(item: &JsonValue) -> (r: Option<String>)
    ensures
        opt_view(r) == jf_id(*item),
{
    match member_of(item, "id") {
        Some(x) => match x {
            JsonValue::Str(s) => Some(s.clone()),
            JsonValue::Number { integer, float_text } => match integer {
                Some(n) => {
                    let mut v: Vec<char> = Vec::new();
                    push_signed_decimal(&mut v, *n);
                    assert(v@ =~= signed_decimal(*n as int));
                    Some(string_from_chars(v.as_slice()))
                },
                None => match float_text {
                    Some(t) => Some(t.clone()),
                    None => None,
                },
            },
            _ => None,
        },
        None => None,
    }
}

fn jf_item_of(item: &JsonValue) -> (r: Option<JsonItemDraft>)
    ensures
        match r {
            Some(d) => jf_item(*item) == Some(d@),
            None => jf_item(*item) is None,
        },
{
    let id = match jf_id_of(item) {
        Some(id) => id,
        None => return None,
    };
    let content_html = text_member_of(item, "content_html");
    let content_text = text_member_of(item, "content_text");
    if content_html.is_none() && content_text.is_none() {
        return None;
    }
    Some(JsonItemDraft {
        id: Some(id),
        title: text_member_of(item, "title"),
        content_html,
        content_text,
        url: text_member_of(item, "url"),
        external_url: text_member_of(item, "external_url"),
        summary: text_member_of(item, "summary"),
        image_url: text_member_of(item, "image"),
        published_text: text_member_of(item, "date_published"),
        modified_text: text_member_of(item, "date_modified"),
        authors: jf_authors_of(item),
        attachments: parse_jf_attachments(item),
    })
}

/// Reads a JSON Feed document (a root whose `version` names a JSON Feed
/// version): its title, home page, feed URL and the items that have an id
/// and a body, in order.
pub fn parse_json_feed(root: &JsonValue, feed_url: &str) -> (r: Result<JsonDraft, ParseError>)
    ensures
        outcome_of(r) == json_feed_outcome(*root, feed_url@),
{
    let title = text_member_of(root, "title");
    if title.is_none() {
        return Err(ParseError::Malformed(String::from_str("JSON Feed missing title")));
    }
    let home_page_url = text_member_of(root, "home_page_url");
    let own_feed_url = match text_member_of(root, "feed_url") {
        Some(u) => u,
        None => String::from_str(feed_url),
    };
    let arr = match elements_member_of(root, "items") {
        Some(arr) => arr,
        None => return Err(ParseError::Malformed(String::from_str("JSON Feed items not found"))),
    };
    let ghost opts = jf_item_opts(arr@);
    let mut items: Vec<JsonItemDraft> = Vec::new();
    let mut i: usize = 0;
    while i < arr.len()
        invariant
            i <= arr@.len(),
            opts == jf_item_opts(arr@),
            json_items_view(items@) == somes(opts.take(i as int)),
        decreases arr@.len() - i,
    {
        proof {
            lemma_somes_take(opts, i as int);
        }
        match jf_item_of(&arr[i]) {
            Some(d) => {
                assert(json_items_view(items@.push(d)) =~= json_items_view(items@).push(d@));
                items.push(d);
            },
            None => {},
        }
        i += 1;
    }
    assert(opts.take(arr@.len() as int) =~= opts);
    Ok(JsonDraft { title, home_page_url, feed_url: Some(own_feed_url), items })
}

// ---------------------------------------------------------------------
// RSS in JSON
// ---------------------------------------------------------------------

/// The first of two lookups that found a value.
pub open spec fn either(a: Option<JsonValue>, b: Option<JsonValue>) -> Option<JsonValue> {
    if a is Some {
        a
    } else {
        b
    }
}

/// An RSS item: a `description` with no `<` is plain text, else HTML; the
/// item is kept when it has a body or a title; its author is an email.
pub open spec fn rss_json_item(item: JsonValue) -> Option<JsonItemView> {
    let title = text_member(item, "title"@);
    let description = text_member(item, "description"@);
    let html = match description {
        Some(d) => if has_char(d, '<') { Some(d) } else { None },
        None => None,
    };
    let text = match description {
        Some(d) => if has_char(d, '<') { None } else { Some(d) },
        None => None,
    };
    if html is None && text is None && title is None {
        None
    } else {
        Some(JsonItemView {
            id: text_member(item, "guid"@),
            title,
            content_html: html,
            content_text: text,
            url: None,
            external_url: text_member(item, "link"@),
            summary: None,
            image_url: None,
            published_text: text_member(item, "pubDate"@),
            modified_text: None,
            authors: match text_member(item, "author"@) {
                Some(e) => seq![AuthorView { name: None, url: None, avatar_url: None, email: Some(e) }],
                None => Seq::empty(),
            },
            attachments: Seq::empty(),
        })
    }
}

pub open spec fn rss_json_item_opts(arr: Seq<JsonValue>) -> Seq<Option<JsonItemView>> {
    arr.map_values(|i: JsonValue| rss_json_item(i))
}

/// An `rss` object with a `channel` object: the items are the first of the
/// channel's `item`, the root's `item`, the channel's `items` and the
/// root's `items` that is there, which must be an array.
pub open spec fn rss_json_outcome(root: JsonValue, feed_url: Seq<char>) -> JsonOutcome {
    match member(root, "rss"@) {
        Some(rss) => if !is_object(Some(rss)) || !is_object(member(rss, "channel"@)) {
            JsonOutcome::Malformed("RSS channel not found"@)
        } else {
            let channel = member(rss, "channel"@)->0;
            let found = either(
                either(member(channel, "item"@), member(root, "item"@)),
                either(member(channel, "items"@), member(root, "items"@)),
            );
            match elements_of(found) {
                None => JsonOutcome::Malformed("RSS items not found"@),
                Some(items) => JsonOutcome::Feed(JsonDraftView {
                    title: text_member(channel, "title"@),
                    home_page_url: text_member(channel, "link"@),
                    feed_url: Some(feed_url),
                    items: somes(rss_json_item_opts(items)),
                }),
            }
        },
        None => JsonOutcome::Malformed("RSS channel not found"@),
    }
}

fn rss_json_item_of(item: &JsonValue) -> (r: Option<JsonItemDraft>)
    ensures
        match r {
            Some(d) => rss_json_item(*item) == Some(d@),
            None => rss_json_item(*item) is None,
        },
{
    let title = text_member_of(item, "title");
    let mut content_html = text_member_of(item, "description");
    let mut content_text: Option<String> = None;
    let is_text = match &content_html {
        Some(h) => !has_char_exec(&chars_of(h.as_str()), '<'),
        None => false,
    };
    if is_text {
        content_text = content_html;
        content_html = None;
    }
    if content_html.is_none() && content_text.is_none() && title.is_none() {
        return None;
    }
    let mut authors: Vec<Author> = Vec::new();
    match text_member_of(item, "author") {
        Some(email) => authors.push(Author { name: None, url: None, avatar_url: None, email: Some(email) }),
        None => {},
    }
    let attachments: Vec<Attachment> = Vec::new();
    let d = JsonItemDraft {
        id: text_member_of(item, "guid"),
        title,
        content_html,
        content_text,
        url: None,
        external_url: text_member_of(item, "link"),
        summary: None,
        image_url: None,
        published_text: text_member_of(item, "pubDate"),
        modified_text: None,
        authors,
        attachments,
    };
    assert(d@.authors =~= rss_json_item(*item)->0.authors);
    assert(d@.attachments =~= Seq::<AttachmentView>::empty());
    Some(d)
}

/// Reads an RSS document carried as JSON: the channel's title and link,
/// and the items that have a body or a title, in order; the feed URL is
/// the one the document was fetched from.
pub fn parse_rss_in_json(root: &JsonValue, feed_url: &str) -> (r: Result<JsonDraft, ParseError>)
    ensures
        outcome_of(r) == rss_json_outcome(*root, feed_url@),
{
    let rss = match member_of(root, "rss") {
        Some(rss) => rss,
        None => return Err(ParseError::Malformed(String::from_str("RSS channel not found"))),
    };
    if !is_object_value(rss) {
        return Err(ParseError::Malformed(String::from_str("RSS channel not found")));
    }
    let channel = match member_of(rss, "channel") {
        Some(c) => c,
        None => return Err(ParseError::Malformed(String::from_str("RSS channel not found"))),
    };
    if !is_object_value(channel) {
        return Err(ParseError::Malformed(String::from_str("RSS channel not found")));
    }
    let title = text_member_of(channel, "title");
    let home_page_url = text_member_of(channel, "link");
    let found = match member_of(channel, "item") {
        Some(x) => x,
        None => match member_of(root, "item") {
            Some(x) => x,
            None => match member_of(channel, "items") {
                Some(x) => x,
                None => match member_of(root, "items") {
                    Some(x) => x,
                    None => return Err(ParseError::Malformed(String::from_str("RSS items not found"))),
                },
            },
        },
    };
    let arr = match found {
        JsonValue::Array(a) => a,
        _ => return Err(ParseError::Malformed(String::from_str("RSS items not found"))),
    };
    let ghost opts = rss_json_item_opts(arr@);
    let mut items: Vec<JsonItemDraft> = Vec::new();
    let mut i: usize = 0;
    while i < arr.len()
        invariant
            i <= arr@.len(),
            opts == rss_json_item_opts(arr@),
            json_items_view(items@) == somes(opts.take(i as int)),
        decreases arr@.len() - i,
    {
        proof {
            lemma_somes_take(opts, i as int);
        }
        match rss_json_item_of(&arr[i]) {
            Some(d) => {
                assert(json_items_view(items@.push(d)) =~= json_items_view(items@).push(d@));
                items.push(d);
            },
            None => {},
        }
        i += 1;
    }
    assert(opts.take(arr@.len() as int) =~= opts);
    Ok(JsonDraft { title, home_page_url, feed_url: Some(String::from_str(feed_url)), items })
}

// ---------------------------------------------------------------------
// Which reader a JSON document needs
// ---------------------------------------------------------------------

/// A root whose `version` text holds `://jsonfeed.org/version/` is a JSON
/// Feed; else one with an `rss` object holding a `channel` object is RSS
/// in JSON; any other document is of no known kind.
pub open spec fn json_outcome(root: JsonValue, feed_url: Seq<char>) -> JsonOutcome {
    if text_member(root, "version"@) matches Some(v) && contains_run(v, "://jsonfeed.org/version/"@) {
        json_feed_outcome(root, feed_url)
    } else if member(root, "rss"@) matches Some(rss) && is_object(Some(rss)) && is_object(member(rss, "channel"@)) {
        rss_json_outcome(root, feed_url)
    } else {
        JsonOutcome::Unknown
    }
}

/// Reads a parsed JSON document as a JSON Feed or as RSS in JSON.
pub fn parse(root: &JsonValue, feed_url: &str) -> (r: Result<JsonDraft, ParseError>)
    ensures
        outcome_of(r) == json_outcome(*root, feed_url@),
{
    match text_member_of(root, "version") {
        Some(v) => {
            let vc = chars_of(v.as_str());
            let marker = chars_of("://jsonfeed.org/version/");
            if has_run(vc.as_slice(), marker.as_slice()) {
                return parse_json_feed(root, feed_url);
            }
        },
        None => {},
    }
    match member_of(root, "rss") {
        Some(rss) => {
            if is_object_value(rss) {
                match member_of(rss, "channel") {
                    Some(channel) => {
                        if is_object_value(channel) {
                            return parse_rss_in_json(root, feed_url);
                        }
                    },
                    None => {},
                }
            }
        },
        None => {},
    }
    Err(ParseError::UnknownFormat)
}

// ---------------------------------------------------------------------
// Finishing: dates and derived ids
// ---------------------------------------------------------------------

pub open spec fn or_empty(o: Option<Seq<char>>) -> Seq<char> {
    match o {
        Some(s) => s,
        None => Seq::empty(),
    }
}

/// The email of an item's first author.
pub open spec fn first_email(authors: Seq<AuthorView>) -> Option<Seq<char>> {
    if authors.len() > 0 {
        authors[0].email
    } else {
        None
    }
}

/// The text an id is derived from: the publication time in decimal
/// seconds, the title, the link and the first author's email, joined;
/// where that is empty, the HTML and the plain-text bodies.
pub open spec fn derived_id_source(date: Option<i64>, d: JsonItemView) -> Seq<char> {
    let head = match date {
        Some(t) => signed_decimal(t as int),
        None => Seq::empty(),
    } + or_empty(d.title) + or_empty(d.external_url) + or_empty(first_email(d.authors));
    if head.len() == 0 {
        or_empty(d.content_html) + or_empty(d.content_text)
    } else {
        head
    }
}

/// The item a draft becomes with its publication and modification times:
/// an item without an id of its own gets the lowercase hexadecimal MD5 of
/// `derived_id_source`.
pub open spec fn finished_json_item(d: JsonItemView, dates: (Option<i64>, Option<i64>)) -> ParsedItemView {
    ParsedItemView {
        id: match d.id {
            Some(id) => id,
            None => md5_hex(vstd::utf8::encode_utf8(derived_id_source(dates.0, d))),
        },
        title: d.title,
        content_html: d.content_html,
        content_text: d.content_text,
        url: d.url,
        external_url: d.external_url,
        summary: d.summary,
        image_url: d.image_url,
        date_published: dates.0,
        date_modified: dates.1,
        authors: d.authors,
        attachments: d.attachments,
    }
}

pub open spec fn json_dates_for(dates: Seq<(Option<i64>, Option<i64>)>, k: int) -> (Option<i64>, Option<i64>) {
    if 0 <= k < dates.len() {
        dates[k]
    } else {
        (None, None)
    }
}

pub open spec fn finished_json_feed(d: JsonDraftView, dates: Seq<(Option<i64>, Option<i64>)>) -> ParsedFeedView {
    ParsedFeedView {
        title: d.title,
        home_page_url: d.home_page_url,
        feed_url: d.feed_url,
        icon_url: None,
        language: None,
        items: Seq::new(d.items.len(), |k: int| finished_json_item(d.items[k], json_dates_for(dates, k))),
    }
}

fn push_opt_text(out: &mut Vec<char>, o: &Option<String>)
    ensures
        final(out)@ == old(out)@ + or_empty(opt_view(*o)),
{
    match o {
        Some(s) => push_str_chars(out, s.as_str()),
        None => {
            assert(old(out)@ + Seq::<char>::empty() =~= old(out)@);
        },
    }
}

fn derived_id(d: &JsonItemDraft, date: Option<i64>) -> (r: String)
    ensures
        r@ == md5_hex(vstd::utf8::encode_utf8(derived_id_source(date, d@))),
{
    let mut s: Vec<char> = Vec::new();
    match date {
        Some(t) => push_signed_decimal(&mut s, t),
        None => {},
    }
    push_opt_text(&mut s, &d.title);
    push_opt_text(&mut s, &d.external_url);
    if d.authors.len() > 0 {
        push_opt_text(&mut s, &d.authors[0].email);
    } else {
        let none: Option<String> = None;
        push_opt_text(&mut s, &none);
    }
    if s.len() == 0 {
        push_opt_text(&mut s, &d.content_html);
        push_opt_text(&mut s, &d.content_text);
    }
    assert(s@ =~= derived_id_source(date, d@));
    let text = string_from_chars(s.as_slice());
    md5_hex_of(text.as_str().as_bytes())
}

fn finish_json_item(d: &JsonItemDraft, dates: (Option<i64>, Option<i64>)) -> (p: ParsedItem)
    ensures
        p@ == finished_json_item(d@, dates),
{
    let id = match &d.id {
        Some(id) => id.clone(),
        None => derived_id(d, dates.0),
    };
    ParsedItem {
        id,
        title: crate::models::opt_clone(&d.title),
        content_html: crate::models::opt_clone(&d.content_html),
        content_text: crate::models::opt_clone(&d.content_text),
        url: crate::models::opt_clone(&d.url),
        external_url: crate::models::opt_clone(&d.external_url),
        summary: crate::models::opt_clone(&d.summary),
        image_url: crate::models::opt_clone(&d.image_url),
        date_published: dates.0,
        date_modified: dates.1,
        authors: crate::models::duplicate_authors(&d.authors),
        attachments: crate::models::duplicate_attachments(&d.attachments),
    }
}

/// The feed a draft becomes once its items' date texts were parsed:
/// `dates[i]` is the parse of `draft.items[i]`'s publication and
/// modification texts (`None` where a text is missing or did not parse);
/// items past the end of `dates` get no dates.
pub fn finish_json(draft: JsonDraft, dates: &Vec<(Option<i64>, Option<i64>)>) -> (f: ParsedFeed)
    ensures
        f@ == finished_json_feed(draft@, dates@),
{
    let ghost d0 = draft@;
    let mut out: Vec<ParsedItem> = Vec::new();
    let mut i: usize = 0;
    while i < draft.items.len()
        invariant
            i <= draft.items@.len(),
            d0 == draft@,
            out@.len() == i,
            forall|k: int| 0 <= k < i ==> #[trigger] out@[k]@ == finished_json_item(d0.items[k], json_dates_for(dates@, k)),
        decreases draft.items@.len() - i,
    {
        let ds = if i < dates.len() { dates[i] } else { (None, None) };
        let p = finish_json_item(&draft.items[i], ds);
        out.push(p);
        i += 1;
    }
    let JsonDraft { title, home_page_url, feed_url, items: _ } = draft;
    let f = ParsedFeed { title, home_page_url, feed_url, icon_url: None, language: None, items: out };
    assert(parsed_items_view(f.items@) =~= Seq::new(
        d0.items.len(),
        |k: int| finished_json_item(d0.items[k], json_dates_for(dates@, k)),
    ));
    f
}

// ---------------------------------------------------------------------
// What a kept item is read from
// ---------------------------------------------------------------------

/// A JSON Feed item is kept exactly when it has an id (a string or a
/// number) and an HTML or a plain-text body, and each field of the kept
/// item is the string member of the same name: `url` is the item's
/// permalink member `url`, `external_url` its member `external_url`, the
/// image its member `image`, and the date texts its members
/// `date_published` and `date_modified`.
pub proof fn lemma_jf_item_reads_its_members(item: JsonValue)
    ensures
        jf_item(item) is Some <==> ((member(item, "id"@) matches Some(JsonValue::Str(_)) || member(item, "id"@) matches Some(
            JsonValue::Number { integer: Some(_), .. },
        ) || member(item, "id"@) matches Some(JsonValue::Number { integer: None, float_text: Some(_) })) && (text_of(
            member(item, "content_html"@),
        ) is Some || text_of(member(item, "content_text"@)) is Some)),
        jf_item(item) matches Some(d) ==> {
            &&& d.id is Some
            &&& d.url == text_of(member(item, "url"@))
            &&& d.external_url == text_of(member(item, "external_url"@))
            &&& d.title == text_of(member(item, "title"@))
            &&& d.content_html == text_of(member(item, "content_html"@))
            &&& d.content_text == text_of(member(item, "content_text"@))
            &&& d.summary == text_of(member(item, "summary"@))
            &&& d.image_url == text_of(member(item, "image"@))
            &&& d.published_text == text_of(member(item, "date_published"@))
            &&& d.modified_text == text_of(member(item, "date_modified"@))
        },
        member(item, "id"@) matches Some(JsonValue::Str(s)) ==> (jf_item(item) is Some ==> jf_item(item)->0.id == Some(s@)),
{
}

/// An RSS-in-JSON item is kept exactly when it has a `description` or a
/// `title`; its link is the member `link` (it has no permalink), its id
/// the member `guid`, and its publication text the member `pubDate`; a
/// `description` with a `<` is its HTML body, any other its plain text.
pub proof fn lemma_rss_json_item_reads_its_members(item: JsonValue)
    ensures
        rss_json_item(item) is Some <==> (text_of(member(item, "description"@)) is Some || text_of(member(item, "title"@)) is Some),
        rss_json_item(item) matches Some(d) ==> {
            &&& d.url is None
            &&& d.external_url == text_of(member(item, "link"@))
            &&& d.id == text_of(member(item, "guid"@))
            &&& d.title == text_of(member(item, "title"@))
            &&& d.published_text == text_of(member(item, "pubDate"@))
            &&& match text_of(member(item, "description"@)) {
                Some(t) => if has_char(t, '<') {
                    d.content_html == Some(t) && d.content_text is None
                } else {
                    d.content_text == Some(t) && d.content_html is None
                },
                None => d.content_html is None && d.content_text is None,
            }
        },
{
}

/// A JSON Feed document reads as its members: without a string `title`,
/// or without an `items` array, it is malformed; otherwise its title is
/// `title`, its home page `home_page_url`, its URL `feed_url` (the URL it
/// was fetched from when it has none), and its items are those that
/// `jf_item` keeps among the elements of `items` (`jf_item_opts`), in
/// document order.
pub proof fn lemma_json_feed_reads_root(root: JsonValue, feed_url: Seq<char>)
    requires
        text_member(root, "version"@) matches Some(v) && contains_run(v, "://jsonfeed.org/version/"@),
    ensures
        text_member(root, "title"@) is None ==> json_outcome(root, feed_url) is Malformed,
        elements_of(member(root, "items"@)) is None ==> json_outcome(root, feed_url) is Malformed,
        text_member(root, "title"@) matches Some(t) ==> (elements_of(member(root, "items"@)) matches Some(items) ==> (
        json_outcome(root, feed_url) matches JsonOutcome::Feed(d) && d.title == Some(t) && d.home_page_url
            == text_member(root, "home_page_url"@) && d.feed_url == Some(
            match text_member(root, "feed_url"@) {
                Some(u) => u,
                None => feed_url,
            },
        ) && exists|idx: Seq<int>| #[trigger] values_in_order(jf_item_opts(items), d.items, idx))),
{
    if text_member(root, "title"@) is Some && elements_of(member(root, "items"@)) is Some {
        let items = elements_of(member(root, "items"@))->0;
        let idx = lemma_somes_positions(jf_item_opts(items));
        assert(json_outcome(root, feed_url) == json_feed_outcome(root, feed_url));
        let d = json_feed_outcome(root, feed_url)->Feed_0;
        assert(d.items == somes(jf_item_opts(items)));
        assert(values_in_order(jf_item_opts(items), d.items, idx));
    }
}

/// An RSS-in-JSON document (one that is no JSON Feed, with an `rss`
/// object holding a `channel` object) reads as its channel: without an
/// items array (`item` or `items`, of the channel or the root) it is
/// malformed; otherwise its title is the channel's `title`, its home page
/// the channel's `link`, its URL the one it was fetched from, and its items
/// are those that `rss_json_item` keeps among the array's elements, in
/// document order.
pub proof fn lemma_rss_json_reads_channel(root: JsonValue, feed_url: Seq<char>)
    requires
        !(text_member(root, "version"@) matches Some(v) && contains_run(v, "://jsonfeed.org/version/"@)),
        member(root, "rss"@) matches Some(rss) && is_object(Some(rss)) && is_object(member(rss, "channel"@)),
    ensures
        ({
            let channel = member(member(root, "rss"@)->0, "channel"@)->0;
            let found = either(
                either(member(channel, "item"@), member(root, "item"@)),
                either(member(channel, "items"@), member(root, "items"@)),
            );
            &&& elements_of(found) is None ==> json_outcome(root, feed_url) is Malformed
            &&& elements_of(found) matches Some(items) ==> (json_outcome(root, feed_url) matches JsonOutcome::Feed(d)
                && d.title == text_member(channel, "title"@) && d.home_page_url == text_member(channel, "link"@)
                && d.feed_url == Some(feed_url) && exists|idx: Seq<int>| #[trigger] values_in_order(
                rss_json_item_opts(items),
                d.items,
                idx,
            ))
        }),
{
    let channel = member(member(root, "rss"@)->0, "channel"@)->0;
    let found = either(
        either(member(channel, "item"@), member(root, "item"@)),
        either(member(channel, "items"@), member(root, "items"@)),
    );
    if elements_of(found) is Some {
        let items = elements_of(found)->0;
        let idx = lemma_somes_positions(rss_json_item_opts(items));
        assert(json_outcome(root, feed_url) == rss_json_outcome(root, feed_url));
        let d = rss_json_outcome(root, feed_url)->Feed_0;
        assert(d.items == somes(rss_json_item_opts(items)));
        assert(values_in_order(rss_json_item_opts(items), d.items, idx));
    }
}

} // verus!

