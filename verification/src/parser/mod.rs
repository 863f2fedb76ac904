//! Markup scanners and readers.
use vstd::prelude::*;
use crate::error::ParseError;
use crate::parser::atom::{AtomDraft, AtomDraftView};
use crate::parser::json::{json_outcome, JsonDraft, JsonDraftView, JsonOutcome, JsonValue};
use crate::parser::rss::{RssDraft, RssDraftView};
use crate::parser::xml::xml_feed_reading;
use crate::parser::xml_reader::{document_events, XmlEvent};

pub mod atom;
pub mod html;
pub mod html_url_resolver;
pub mod json;
pub mod rss;
pub mod xml;
pub mod xml_reader;

verus! {

/// Parser setup; the readers need none, so this does nothing.
pub fn init_parser() {
}

/// A feed as one of the readers read it, before its date texts are parsed.
pub enum FeedDraft {
    Json(JsonDraft),
    Rss(RssDraft),
    Atom(AtomDraft),
}

pub enum FeedDraftView {
    Json(JsonDraftView),
    Rss(RssDraftView),
    Atom(AtomDraftView),
}

impl View for FeedDraft {
    type V = FeedDraftView;

    open spec fn view(&self) -> FeedDraftView {
        match self {
            FeedDraft::Json(d) => FeedDraftView::Json(d@),
            FeedDraft::Rss(d) => FeedDraftView::Rss(d@),
            FeedDraft::Atom(d) => FeedDraftView::Atom(d@),
        }
    }
}

/// The document is JSON (`json_root` is its parse) that reads as a feed.
pub open spec fn json_reads(json_root: Option<JsonValue>, feed_url: Seq<char>) -> bool {
    json_root matches Some(root) && json_outcome(root, feed_url) is Feed
}

/// Reads a feed document of any known kind: JSON first (`json_root` is the
/// parse of `data` as JSON, `None` where it is no JSON), then XML; any
/// other document is of unknown format.
pub fn parse(data: &[u8], json_root: Option<&JsonValue>, feed_url: &str) -> (r: Result<FeedDraft, ParseError>)
    requires
        data@.len() < usize::MAX,
    ensures
        json_reads(opt_root(json_root), feed_url@) ==> (r matches Ok(FeedDraft::Json(d))
            && JsonOutcome::Feed(d@) == json_outcome(opt_root(json_root)->0, feed_url@)),
        !json_reads(opt_root(json_root), feed_url@) ==> exists|events: Seq<XmlEvent>| {
            &&& document_events(data@, events)
            &&& match r {
                Ok(d) => xml_feed_reading(events, feed_url@) == Some(d@),
                Err(e) => e == ParseError::UnknownFormat && xml_feed_reading(events, feed_url@) is None,
            }
        },
{
    match json_root {
        Some(root) => match crate::parser::json::parse(root, feed_url) {
            Ok(d) => return Ok(FeedDraft::Json(d)),
            Err(_) => {},
        },
        None => {},
    }
    crate::parser::xml::parse_feed(data, feed_url)
}

pub open spec fn opt_root(o: Option<&JsonValue>) -> Option<JsonValue> {
    match o {
        Some(v) => Some(*v),
        None => None,
    }
}

} // verus!
