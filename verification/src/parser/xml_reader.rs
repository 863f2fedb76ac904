//! XML events as plain values, read from a byte slice with quick-xml.
use vstd::prelude::*;
use quick_xml::events::Event;
use quick_xml::Error;
use quick_xml::Reader;
use crate::chars::utf8_text;
use crate::parser::xml::utf8_value;

verus! {

#[verifier::external_type_specification]
#[verifier::external_body]
#[verifier::reject_recursive_types(R)]
pub struct ExReader<R>(Reader<R>);

#[verifier::external_type_specification]
#[verifier::external_body]
pub struct ExEvent<'a>(Event<'a>);

/// One XML event as raw bytes: a start or empty tag's qualified name, its
/// well-formed attributes (values not unescaped) and its whole content
/// between `<` and `>` (or `/>`); an end tag's name; the text between two
/// pieces of markup, untrimmed and still escaped; and the content of a
/// CDATA section or a comment. Declarations, processing instructions and
/// document types are `Other`. `Malformed` stands where the document is not
/// well-formed (an end tag that does not match), after which reading can
/// go on.
#[derive(Debug, Clone, PartialEq)]
pub enum XmlEvent {
    Start { name: Vec<u8>, attributes: Vec<(Vec<u8>, Vec<u8>)>, raw: Vec<u8> },
    Empty { name: Vec<u8>, attributes: Vec<(Vec<u8>, Vec<u8>)>, raw: Vec<u8> },
    End { name: Vec<u8> },
    Text { raw: Vec<u8> },
    CData { raw: Vec<u8> },
    Comment { raw: Vec<u8> },
    Malformed,
    Other,
}

/// What a read of the reader gave.
#[derive(Debug, Clone, Copy, PartialEq, Eq, Structural)]
pub enum EventKind {
    Start,
    Empty,
    End,
    Text,
    CData,
    Comment,
    Malformed,
    Other,
    Finished,
}

// What a quick-xml reader over `data`, with its default configuration,
// gives at its `k`-th read (counting from 0). The reader reads nothing but
// `data`, so each of these is a function of `data` and `k` alone.

/// The kind of the `k`-th read: `Finished` at the end of input or at an
/// error that is not a well-formedness error.
pub uninterp spec fn xml_kind_at(data: Seq<u8>, k: nat) -> EventKind;

/// The qualified name of the tag of the `k`-th read (empty where it gave
/// no tag).
pub uninterp spec fn xml_name_at(data: Seq<u8>, k: nat) -> Seq<u8>;

/// The bytes of the `k`-th read: a tag's content between `<` and `>` (or
/// `/>`), or the raw text, CDATA or comment (empty for any other read).
pub uninterp spec fn xml_bytes_at(data: Seq<u8>, k: nat) -> Seq<u8>;

/// The attributes that parse, key and value as written, of the start or
/// empty tag of the `k`-th read (empty for any other read).
pub uninterp spec fn xml_attributes_at(data: Seq<u8>, k: nat) -> Seq<(Seq<u8>, Seq<u8>)>;

/// A reader over a byte slice, with the event it gave last; it counts the
/// reads made.
pub struct XmlCursor<'a> {
    reader: Reader<&'a [u8]>,
    current: Option<Event<'a>>,
    data: Ghost<Seq<u8>>,
    count: Ghost<nat>,
}

impl<'a> View for XmlCursor<'a> {
    /// The bytes read and the number of reads made.
    type V = (Seq<u8>, nat);

    closed spec fn view(&self) -> (Seq<u8>, nat) {
        (self.data@, self.count@)
    }
}

/// A reader over `data`.
///
/// Trusted: calls `quick_xml::Reader::from_reader`; nothing is claimed of
/// the reader, which Verus sees as opaque.
#[verifier::external_body]
fn reader_over<'a>(data: &'a [u8]) -> Reader<&'a [u8]> {
    Reader::from_reader(data)
}

impl<'a> XmlCursor<'a> {
    /// A cursor before the first read of `data`.
    pub fn new(data: &'a [u8]) -> (c: Self)
        ensures
            c@ == (data@, 0nat),
    {
        XmlCursor { reader: reader_over(data), current: None, data: Ghost(data@), count: Ghost(0) }
    }
}

/// Reads the next event, keeps it as the cursor's current one and tells
/// its kind.
///
/// Trusted: calls `quick_xml::Reader::read_event` once; the kind is named
/// `xml_kind_at` of the cursor's bytes and of the number of reads made
/// before, and the count goes up by one.
#[verifier::external_body]
fn advance(c: &mut XmlCursor) -> (kind: EventKind)
    ensures
        kind == xml_kind_at(old(c)@.0, old(c)@.1),
        final(c)@ == (old(c)@.0, old(c)@.1 + 1),
{
    let ev = c.reader.read_event();
    let kind = match &ev {
        Ok(Event::Start(_)) => EventKind::Start,
        Ok(Event::Empty(_)) => EventKind::Empty,
        Ok(Event::End(_)) => EventKind::End,
        Ok(Event::Text(_)) => EventKind::Text,
        Ok(Event::CData(_)) => EventKind::CData,
        Ok(Event::Comment(_)) => EventKind::Comment,
        Ok(Event::Eof) => EventKind::Finished,
        Ok(_) => EventKind::Other,
        Err(Error::IllFormed(_)) => EventKind::Malformed,
        Err(_) => EventKind::Finished,
    };
    c.current = ev.ok();
    kind
}

/// The name of the current tag.
///
/// Trusted: calls `BytesStart::name` or `BytesEnd::name` on the current
/// event; the bytes are named `xml_name_at` of the last read.
#[verifier::external_body]
fn current_name(c: &XmlCursor) -> (r: Vec<u8>)
    requires
        c@.1 > 0,
    ensures
        r@ == xml_name_at(c@.0, (c@.1 - 1) as nat),
{
    match &c.current {
        Some(Event::Start(e)) | Some(Event::Empty(e)) => e.name().0.to_vec(),
        Some(Event::End(e)) => e.name().0.to_vec(),
        _ => Vec::new(),
    }
}

/// The bytes of the current event.
///
/// Trusted: copies the bytes that the current event holds; they are named
/// `xml_bytes_at` of the last read.
#[verifier::external_body]
fn current_bytes(c: &XmlCursor) -> (r: Vec<u8>)
    requires
        c@.1 > 0,
    ensures
        r@ == xml_bytes_at(c@.0, (c@.1 - 1) as nat),
{
    match &c.current {
        Some(Event::Start(e)) | Some(Event::Empty(e)) => e.to_vec(),
        Some(Event::Text(e)) | Some(Event::Comment(e)) => e.to_vec(),
        Some(Event::CData(e)) => e.to_vec(),
        _ => Vec::new(),
    }
}

/// Key and value views of attribute pairs.
pub open spec fn pairs_view(v: Seq<(Vec<u8>, Vec<u8>)>) -> Seq<(Seq<u8>, Seq<u8>)> {
    v.map_values(|p: (Vec<u8>, Vec<u8>)| (p.0@, p.1@))
}

/// The attributes of the current tag that parse.
///
/// Trusted: calls `BytesStart::attributes` on the current event and keeps
/// the attributes that parse, in order; they are named `xml_attributes_at`
/// of the last read.
#[verifier::external_body]
fn current_attributes(c: &XmlCursor) -> (r: Vec<(Vec<u8>, Vec<u8>)>)
    requires
        c@.1 > 0,
    ensures
        pairs_view(r@) == xml_attributes_at(c@.0, (c@.1 - 1) as nat),
{
    match &c.current {
        Some(Event::Start(e)) | Some(Event::Empty(e)) => {
            e.attributes().flatten().map(|a| (a.key.0.to_vec(), a.value.to_vec())).collect()
        },
        _ => Vec::new(),
    }
}

/// `e` is the event of the `k`-th read of `data`.
pub open spec fn event_matches(e: XmlEvent, data: Seq<u8>, k: nat) -> bool {
    let name = xml_name_at(data, k);
    let bytes = xml_bytes_at(data, k);
    let attributes = xml_attributes_at(data, k);
    match xml_kind_at(data, k) {
        EventKind::Start => e matches XmlEvent::Start { name: n, attributes: a, raw: r }
            && n@ == name && pairs_view(a@) == attributes && r@ == bytes,
        EventKind::Empty => e matches XmlEvent::Empty { name: n, attributes: a, raw: r }
            && n@ == name && pairs_view(a@) == attributes && r@ == bytes,
        EventKind::End => e matches XmlEvent::End { name: n } && n@ == name,
        EventKind::Text => e matches XmlEvent::Text { raw: r } && r@ == bytes,
        EventKind::CData => e matches XmlEvent::CData { raw: r } && r@ == bytes,
        EventKind::Comment => e matches XmlEvent::Comment { raw: r } && r@ == bytes,
        EventKind::Malformed => e is Malformed,
        EventKind::Other => e is Other,
        EventKind::Finished => false,
    }
}

/// The number of events from the `k`-th read on, for at most `left`
/// reads, up to the first read that finishes.
pub open spec fn event_count_from(data: Seq<u8>, k: nat, left: nat) -> nat
    decreases left,
{
    if left == 0 || xml_kind_at(data, k) == EventKind::Finished {
        0
    } else {
        1 + event_count_from(data, k + 1, (left - 1) as nat)
    }
}

/// `events` are the events of the document `data`, in order: every read
/// consumes at least one byte, so `data.len() + 1` reads reach the end of
/// input.
pub open spec fn document_events(data: Seq<u8>, events: Seq<XmlEvent>) -> bool {
    &&& events.len() == event_count_from(data, 0, (data.len() + 1) as nat)
    &&& forall|i: int| 0 <= i < events.len() ==> event_matches(#[trigger] events[i], data, i as nat)
}

/// The event of the cursor's last read, of kind `kind`.
fn current_event(c: &XmlCursor, kind: EventKind) -> (e: XmlEvent)
    requires
        c@.1 > 0,
        kind == xml_kind_at(c@.0, (c@.1 - 1) as nat),
        kind != EventKind::Finished,
    ensures
        event_matches(e, c@.0, (c@.1 - 1) as nat),
{
    match kind {
        EventKind::Start => XmlEvent::Start { name: current_name(c), attributes: current_attributes(c), raw: current_bytes(c) },
        EventKind::Empty => XmlEvent::Empty { name: current_name(c), attributes: current_attributes(c), raw: current_bytes(c) },
        EventKind::End => XmlEvent::End { name: current_name(c) },
        EventKind::Text => XmlEvent::Text { raw: current_bytes(c) },
        EventKind::CData => XmlEvent::CData { raw: current_bytes(c) },
        EventKind::Comment => XmlEvent::Comment { raw: current_bytes(c) },
        EventKind::Malformed => XmlEvent::Malformed,
        _ => XmlEvent::Other,
    }
}

/// The events of `data` that an XML reader gives, up to the end of input or
/// the first error other than a well-formedness error.
pub fn xml_events(data: &[u8]) -> (events: Vec<XmlEvent>)
    requires
        data@.len() < usize::MAX,
    ensures
        document_events(data@, events@),
{
    let mut cursor = XmlCursor::new(data);
    let mut events: Vec<XmlEvent> = Vec::new();
    let budget = data.len() + 1;
    let mut left = budget;
    loop
        invariant
            cursor@.0 == data@,
            cursor@.1 == events@.len(),
            cursor@.1 + left == budget,
            budget == data@.len() + 1,
            event_count_from(data@, 0, budget as nat) == events@.len() + event_count_from(data@, cursor@.1, left as nat),
            forall|i: int| 0 <= i < events@.len() ==> event_matches(#[trigger] events@[i], data@, i as nat),
        decreases left,
    {
        if left == 0 {
            return events;
        }
        let kind = advance(&mut cursor);
        if kind == EventKind::Finished {
            return events;
        }
        let e = current_event(&cursor, kind);
        events.push(e);
        left -= 1;
    }
}


/// The text with its entity and character references replaced, if every
/// reference in it is known (`quick_xml::escape::unescape`, which with the
/// crate's `escape-html` feature knows the HTML5 named entities as well as
/// the five predefined XML ones).
pub uninterp spec fn xml_unescaped(s: Seq<char>) -> Option<Seq<char>>;

/// Trusted: calls `quick_xml::escape::unescape`; the result is named
/// `xml_unescaped` of the text, a function of the text alone.
#[verifier::external_body]
pub fn xml_unescape(s: &str) -> (r: Option<String>)
    ensures
        match r {
            Some(t) => xml_unescaped(s@) == Some(t@),
            None => xml_unescaped(s@) is None,
        },
{
    quick_xml::escape::unescape(s).ok().map(|t| t.into_owned())
}
/// XML whitespace: space, carriage return, line feed and tab.
pub open spec fn is_xml_ws(b: u8) -> bool {
    b == 32u8 || b == 13u8 || b == 10u8 || b == 9u8
}

/// The index of the first byte at or after `i` that is not XML
/// whitespace (`s.len()` when there is none).
pub open spec fn ws_end(s: Seq<u8>, i: int) -> int
    decreases s.len() - i,
{
    if i < 0 || i >= s.len() {
        s.len() as int
    } else if is_xml_ws(s[i]) {
        ws_end(s, i + 1)
    } else {
        i
    }
}

/// The index just past the last byte before `j` that is not XML
/// whitespace (0 when there is none).
pub open spec fn ws_start(s: Seq<u8>, j: int) -> int
    decreases j,
{
    if j <= 0 || j > s.len() {
        0
    } else if is_xml_ws(s[j - 1]) {
        ws_start(s, j - 1)
    } else {
        j
    }
}

/// `s` without its leading and trailing XML whitespace.
pub open spec fn xml_trimmed(s: Seq<u8>) -> Seq<u8> {
    let a = ws_end(s, 0);
    let b = ws_start(s, s.len() as int);
    if a < b {
        s.subrange(a, b)
    } else {
        seq![]
    }
}

/// What a reader that trims text makes of a text event: nothing when the
/// text is only whitespace; else the trimmed text, decoded as UTF-8 and
/// unescaped (`None` where either fails), as `BytesText::unescape` gives it.
pub open spec fn trimmed_text(raw: Seq<u8>) -> Option<Option<Seq<char>>> {
    let t = xml_trimmed(raw);
    if t.len() == 0 {
        None
    } else {
        Some(
            match utf8_value(t) {
                Some(s) => xml_unescaped(s),
                None => None,
            },
        )
    }
}

proof fn lemma_ws_end_bounds(s: Seq<u8>, i: int)
    requires
        0 <= i <= s.len(),
    ensures
        i <= ws_end(s, i) <= s.len(),
        forall|k: int| i <= k < ws_end(s, i) ==> is_xml_ws(#[trigger] s[k]),
    decreases s.len() - i,
{
    if i < s.len() && is_xml_ws(s[i]) {
        lemma_ws_end_bounds(s, i + 1);
    }
}

fn is_xml_ws_exec(b: u8) -> (r: bool)
    ensures
        r == is_xml_ws(b),
{
    b == 32 || b == 13 || b == 10 || b == 9
}

/// `trimmed_text` of a text event's raw bytes.
pub fn trimmed_text_of(raw: &Vec<u8>) -> (r: Option<Option<String>>)
    ensures
        match r {
            None => trimmed_text(raw@) is None,
            Some(None) => trimmed_text(raw@) == Some(None::<Seq<char>>),
            Some(Some(t)) => trimmed_text(raw@) == Some(Some(t@)),
        },
{
    let n = raw.len();
    let mut a: usize = 0;
    while a < n && is_xml_ws_exec(raw[a])
        invariant
            a <= n == raw@.len(),
            ws_end(raw@, 0) == ws_end(raw@, a as int),
        decreases n - a,
    {
        a += 1;
    }
    let mut b: usize = n;
    while b > 0 && is_xml_ws_exec(raw[b - 1])
        invariant
            b <= n == raw@.len(),
            ws_start(raw@, n as int) == ws_start(raw@, b as int),
        decreases b,
    {
        b -= 1;
    }
    if a >= b {
        return None;
    }
    let mut t: Vec<u8> = Vec::new();
    let mut k = a;
    while k < b
        invariant
            a <= k <= b <= n == raw@.len(),
            t@ == raw@.subrange(a as int, k as int),
        decreases b - k,
    {
        t.push(raw[k]);
        assert(raw@.subrange(a as int, k + 1) =~= raw@.subrange(a as int, k as int).push(raw@[k as int]));
        k += 1;
    }
    assert(t@ == xml_trimmed(raw@));
    match utf8_text(t.as_slice()) {
        Some(s) => Some(xml_unescape(s.as_str())),
        None => Some(None),
    }
}


/// The position of the first `Malformed` event at or after `i`
/// (`events.len()` when there is none).
pub open spec fn error_at(events: Seq<XmlEvent>, i: int) -> int
    decreases events.len() - i,
{
    if i < 0 || i >= events.len() {
        events.len() as int
    } else if events[i] is Malformed {
        i
    } else {
        error_at(events, i + 1)
    }
}

/// The events before the first well-formedness error.
pub open spec fn before_error(events: Seq<XmlEvent>) -> Seq<XmlEvent> {
    events.take(error_at(events, 0))
}

pub proof fn lemma_error_at_bounds(events: Seq<XmlEvent>, i: int)
    requires
        0 <= i <= events.len(),
    ensures
        i <= error_at(events, i) <= events.len(),
    decreases events.len() - i,
{
    if i < events.len() && !(events[i] is Malformed) {
        lemma_error_at_bounds(events, i + 1);
    }
}

} // verus!
