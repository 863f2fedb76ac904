//! Errors of the feed and OPML readers.
use vstd::prelude::*;

verus! {

/// Why a document could not be read.
#[derive(Debug, Clone, PartialEq, Eq)]
pub enum ParseError {
    /// The document could not be deserialized.
    XmlDe(String),
    /// A document could not be serialized.
    XmlSe(String),
    /// The bytes are no feed or OPML document that the readers know.
    UnknownFormat,
    /// The document is of a known kind but broken.
    Malformed(String),
}

} // verus!
