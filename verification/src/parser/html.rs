//! Extraction of `<link>` and `<meta>` tags from an HTML document's head.
//!
//! A hand-rolled tokenizer following the HTML5 attribute rules: unquoted
//! values end at whitespace or `>` (a `/` is part of the value), quoted
//! values end at their matching quote, valueless attributes record an
//! empty value, and `<script>`/`<style>` bodies are raw text that never
//! produces tags. Comments, CDATA sections, doctypes and processing
//! instructions are skipped. The scan stops at `<body>` unless the URL is
//! a YouTube page, and stops for good at a quoted value that runs off the
//! end of the input (that tag emits nothing; tags before it stay).
use vstd::prelude::*;
use crate::bytes::{
    bytes_match_at, eq_ic, is_alnum, is_alpha, is_alpha_exec, is_digit_exec, is_ws, is_ws_exec, lemma_run_end,
    lemma_skip_past, matches_at, range_eq_ic, run_end, skip_past, skip_past_exec, BANG, COLON, DASH, DOT, DQUOTE,
    EQ, GT, LBRACKET, LT, QUESTION, RBRACKET, SLASH, SQUOTE, UNDERSCORE,
};
use crate::chars::{chars_eq_ic, chars_of, contains_run, has_run, lossy_text, lowercase_text, str_eq_ic, to_lowercase, utf8_lossy};

verus! {

#[derive(Debug, Clone, Copy, PartialEq, Eq, Structural)]
pub enum HtmlTagType {
    Link,
    Meta,
}

/// Abstract view of a tag: its kind and its attribute map.
pub struct HtmlTagView {
    pub tag_type: HtmlTagType,
    pub attributes: Map<Seq<char>, Seq<char>>,
}

/// A `<link>` or `<meta>` tag with its attributes. Keys keep their source
/// casing; a repeated key keeps the last value.
#[derive(Debug, Clone)]
pub struct HtmlTag {
    pub tag_type: HtmlTagType,
    attributes: Vec<(String, String)>,
}

#[derive(Debug, Clone)]
pub struct HtmlMetadata {
    pub url_string: String,
    pub tags: Vec<HtmlTag>,
}

/// The map a list of attribute insertions builds, later insertions winning.
pub open spec fn attr_map(s: Seq<(String, String)>) -> Map<Seq<char>, Seq<char>>
    decreases s.len(),
{
    if s.len() == 0 {
        Map::empty()
    } else {
        attr_map(s.drop_last()).insert(s.last().0@, s.last().1@)
    }
}

impl View for HtmlTag {
    type V = HtmlTagView;

    closed spec fn view(&self) -> HtmlTagView {
        HtmlTagView { tag_type: self.tag_type, attributes: attr_map(self.attributes@) }
    }
}

pub open spec fn tags_view(tags: Seq<HtmlTag>) -> Seq<HtmlTagView> {
    tags.map_values(|t: HtmlTag| t@)
}

proof fn lemma_attr_map_lookup(s: Seq<(String, String)>, key: Seq<char>, i: int)
    requires
        -1 <= i < s.len(),
        i >= 0 ==> s[i].0@ == key,
        forall|k: int| i < k < s.len() ==> s[k].0@ != key,
    ensures
        i >= 0 ==> attr_map(s).contains_key(key) && attr_map(s)[key] == s[i].1@,
        i < 0 ==> !attr_map(s).contains_key(key),
    decreases s.len(),
{
    if s.len() > 0 {
        if i == s.len() - 1 {
        } else {
            lemma_attr_map_lookup(s.drop_last(), key, i);
        }
    }
}

proof fn lemma_attr_map_empty(s: Seq<(String, String)>)
    ensures
        (attr_map(s).dom() =~= Set::<Seq<char>>::empty()) <==> s.len() == 0,
    decreases s.len(),
{
    if s.len() > 0 {
        assert(attr_map(s).contains_key(s.last().0@));
    }
}

impl HtmlTag {
    /// A tag of kind `tag_type` with the attributes `attributes` inserted in
    /// order (a repeated key keeps its last value).
    pub fn new(tag_type: HtmlTagType, attributes: Vec<(String, String)>) -> (t: HtmlTag)
        ensures
            t@ == (HtmlTagView { tag_type, attributes: attr_map(attributes@) }),
    {
        HtmlTag { tag_type, attributes }
    }

    /// The tag's kind.
    pub fn kind(&self) -> (k: HtmlTagType)
        ensures
            k == self@.tag_type,
    {
        self.tag_type
    }

    /// The value recorded for `key` (exact, case-sensitive key match).
    pub fn get(&self, key: &str) -> (r: Option<String>)
        ensures
            r is Some <==> self@.attributes.contains_key(key@),
            r matches Some(v) ==> v@ == self@.attributes[key@],
    {
        let k = String::from_str(key);
        let mut i = self.attributes.len();
        while i > 0
            invariant
                i <= self.attributes@.len(),
                k@ == key@,
                forall|m: int| i <= m < self.attributes@.len() ==> self.attributes@[m].0@ != key@,
            decreases i,
        {
            if self.attributes[i - 1].0 == k {
                proof {
                    lemma_attr_map_lookup(self.attributes@, key@, i - 1);
                }
                return Some(self.attributes[i - 1].1.clone());
            }
            i -= 1;
        }
        proof {
            lemma_attr_map_lookup(self.attributes@, key@, -1);
        }
        None
    }
}

/// `u8` byte classes of the tokenizer.
pub open spec fn is_tag_name_byte(b: u8) -> bool {
    b == COLON || b == UNDERSCORE || b == DASH || b == DOT || is_alnum(b) || b >= 0x80
}

pub open spec fn is_attr_name_byte(b: u8) -> bool {
    !is_ws(b) && b != EQ && b != GT && b != SLASH
}

pub open spec fn is_unquoted_value_byte(b: u8) -> bool {
    !is_ws(b) && b != GT
}

pub open spec fn ws_pred() -> spec_fn(u8) -> bool {
    |b: u8| is_ws(b)
}

pub open spec fn tag_name_pred() -> spec_fn(u8) -> bool {
    |b: u8| is_tag_name_byte(b)
}

pub open spec fn attr_name_pred() -> spec_fn(u8) -> bool {
    |b: u8| is_attr_name_byte(b)
}

pub open spec fn unquoted_pred() -> spec_fn(u8) -> bool {
    |b: u8| is_unquoted_value_byte(b)
}

pub open spec fn not_byte_pred(q: u8) -> spec_fn(u8) -> bool {
    |b: u8| b != q
}

/// Records an attribute unless its (decoded) name is empty.
pub open spec fn with_attr(m: Map<Seq<char>, Seq<char>>, name: Seq<char>, value: Seq<char>) -> Map<Seq<char>, Seq<char>> {
    if name.len() > 0 {
        m.insert(name, value)
    } else {
        m
    }
}

/// Attribute scan from `pos` inside a start tag, with the attributes `m`
/// recorded so far. Returns the attributes, the position after the tag,
/// and whether a quoted value ran off the end of the input.
pub open spec fn scan_attrs(s: Seq<u8>, pos: int, m: Map<Seq<char>, Seq<char>>) -> (Map<Seq<char>, Seq<char>>, int, bool)
    decreases s.len() - pos,
{
    if pos < 0 || pos >= s.len() {
        (m, pos, false)
    } else {
        let p1 = run_end(s, pos, ws_pred());
        proof {
            lemma_run_end(s, pos, ws_pred());
        }
        if p1 >= s.len() {
            (m, p1, false)
        } else if s[p1] == GT {
            (m, p1 + 1, false)
        } else if s[p1] == SLASH {
            if p1 + 1 < s.len() && s[p1 + 1] == GT {
                (m, p1 + 2, false)
            } else {
                scan_attrs(s, p1 + 1, m)
            }
        } else {
            let ne = run_end(s, p1, attr_name_pred());
            let name = utf8_lossy(s.subrange(p1, ne));
            proof {
                lemma_run_end(s, p1, attr_name_pred());
            }
            let p2 = run_end(s, ne, ws_pred());
            proof {
                lemma_run_end(s, ne, ws_pred());
            }
            if p2 >= s.len() || s[p2] != EQ {
                scan_attrs(s, p2, with_attr(m, name, seq![]))
            } else {
                let p3 = run_end(s, p2 + 1, ws_pred());
                proof {
                    lemma_run_end(s, p2 + 1, ws_pred());
                }
                if p3 >= s.len() {
                    (with_attr(m, name, seq![]), p3, false)
                } else if s[p3] == DQUOTE || s[p3] == SQUOTE {
                    let p4 = run_end(s, p3 + 1, not_byte_pred(s[p3]));
                    proof {
                        lemma_run_end(s, p3 + 1, not_byte_pred(s[p3]));
                    }
                    let m2 = with_attr(m, name, utf8_lossy(s.subrange(p3 + 1, p4)));
                    if p4 < s.len() {
                        scan_attrs(s, p4 + 1, m2)
                    } else {
                        (m2, p4, true)
                    }
                } else {
                    let p4 = run_end(s, p3, unquoted_pred());
                    proof {
                        lemma_run_end(s, p3, unquoted_pred());
                    }
                    scan_attrs(s, p4, with_attr(m, name, utf8_lossy(s.subrange(p3, p4))))
                }
            }
        }
    }
}

pub proof fn lemma_scan_attrs_bounds(s: Seq<u8>, pos: int, m: Map<Seq<char>, Seq<char>>)
    requires
        0 <= pos <= s.len(),
    ensures
        pos <= scan_attrs(s, pos, m).1 <= s.len(),
    decreases s.len() - pos,
{
    if pos < s.len() {
        let p1 = run_end(s, pos, ws_pred());
        lemma_run_end(s, pos, ws_pred());
        if p1 < s.len() && s[p1] != GT && s[p1] == SLASH {
            if !(p1 + 1 < s.len() && s[p1 + 1] == GT) {
                lemma_scan_attrs_bounds(s, p1 + 1, m);
            }
        } else if p1 < s.len() && s[p1] != GT {
            let ne = run_end(s, p1, attr_name_pred());
            let name = utf8_lossy(s.subrange(p1, ne));
            lemma_run_end(s, p1, attr_name_pred());
            let p2 = run_end(s, ne, ws_pred());
            lemma_run_end(s, ne, ws_pred());
            if p2 >= s.len() || s[p2] != EQ {
                lemma_scan_attrs_bounds(s, p2, with_attr(m, name, seq![]));
            } else {
                let p3 = run_end(s, p2 + 1, ws_pred());
                lemma_run_end(s, p2 + 1, ws_pred());
                if p3 < s.len() && (s[p3] == DQUOTE || s[p3] == SQUOTE) {
                    let p4 = run_end(s, p3 + 1, not_byte_pred(s[p3]));
                    lemma_run_end(s, p3 + 1, not_byte_pred(s[p3]));
                    if p4 < s.len() {
                        lemma_scan_attrs_bounds(s, p4 + 1, with_attr(m, name, utf8_lossy(s.subrange(p3 + 1, p4))));
                    }
                } else if p3 < s.len() {
                    let p4 = run_end(s, p3, unquoted_pred());
                    lemma_run_end(s, p3, unquoted_pred());
                    lemma_scan_attrs_bounds(s, p4, with_attr(m, name, utf8_lossy(s.subrange(p3, p4))));
                }
            }
        }
    }
}

/// Scan of the start tag whose `<` is at `start`: its name bytes, its
/// attributes, the position just past it, and whether it was cut short.
pub open spec fn scan_start_tag(s: Seq<u8>, start: int) -> (Seq<u8>, Map<Seq<char>, Seq<char>>, int, bool) {
    let ne = run_end(s, start + 1, tag_name_pred());
    let r = scan_attrs(s, ne, Map::empty());
    (s.subrange(start + 1, ne), r.0, r.1, r.2)
}

/// A `</name` (case-insensitive) at `p` followed by the end of input,
/// `>`, `/` or whitespace.
pub open spec fn close_tag_at(s: Seq<u8>, p: int, name: Seq<u8>) -> bool {
    let ne = p + 2 + name.len();
    &&& 0 <= p
    &&& p + 1 < s.len()
    &&& s[p] == LT
    &&& s[p + 1] == SLASH
    &&& ne <= s.len()
    &&& eq_ic(s.subrange(p + 2, ne), name)
    &&& (ne == s.len() || s[ne] == GT || s[ne] == SLASH || is_ws(s[ne]))
}

/// Position after a raw-text element body that starts at `p`: past the
/// `>` of its matching close tag, or the end of input.
pub open spec fn skip_raw_text(s: Seq<u8>, p: int, name: Seq<u8>) -> int
    decreases s.len() - p,
{
    if p < 0 || p >= s.len() {
        s.len() as int
    } else if close_tag_at(s, p, name) {
        skip_past(s, p + 2 + name.len(), seq![GT])
    } else {
        skip_raw_text(s, p + 1, name)
    }
}

pub proof fn lemma_skip_raw_text(s: Seq<u8>, p: int, name: Seq<u8>)
    requires
        0 <= p <= s.len(),
    ensures
        p <= skip_raw_text(s, p, name) <= s.len(),
    decreases s.len() - p,
{
    if p < s.len() {
        if close_tag_at(s, p, name) {
            lemma_skip_past(s, p + 2 + name.len(), seq![GT]);
        } else {
            lemma_skip_raw_text(s, p + 1, name);
        }
    }
}

pub open spec fn lit_rel() -> Seq<char> { seq!['r', 'e', 'l'] }
pub open spec fn lit_href() -> Seq<char> { seq!['h', 'r', 'e', 'f'] }
pub open spec fn lit_src() -> Seq<char> { seq!['s', 'r', 'c'] }
pub open spec fn lit_self_closing() -> Seq<char> {
    seq!['s', 'e', 'l', 'f', '-', 'c', 'l', 'o', 's', 'i', 'n', 'g']
}

/// A usable `<link>` has a non-empty `rel` and an `href` or a `src`.
pub open spec fn link_ok(m: Map<Seq<char>, Seq<char>>) -> bool {
    &&& m.contains_key(lit_rel())
    &&& m[lit_rel()].len() > 0
    &&& (m.contains_key(lit_href()) || m.contains_key(lit_src()))
}

/// Some attribute key equals `self-closing`, ASCII case-insensitively.
pub open spec fn has_self_closing_key(m: Map<Seq<char>, Seq<char>>) -> bool {
    exists|k: Seq<char>| m.contains_key(k) && chars_eq_ic(k, lit_self_closing())
}

pub open spec fn b_comment_open() -> Seq<u8> { seq![LT, BANG, DASH, DASH] }
pub open spec fn b_comment_close() -> Seq<u8> { seq![DASH, DASH, GT] }
pub open spec fn b_cdata_open() -> Seq<u8> { seq![LT, BANG, LBRACKET, 0x43, 0x44, 0x41, 0x54, 0x41, LBRACKET] }
pub open spec fn b_cdata_close() -> Seq<u8> { seq![RBRACKET, RBRACKET, GT] }
pub open spec fn b_pi_close() -> Seq<u8> { seq![QUESTION, GT] }
pub open spec fn b_gt() -> Seq<u8> { seq![GT] }
pub open spec fn b_body() -> Seq<u8> { seq![0x62, 0x6f, 0x64, 0x79] }
pub open spec fn b_link() -> Seq<u8> { seq![0x6c, 0x69, 0x6e, 0x6b] }
pub open spec fn b_meta() -> Seq<u8> { seq![0x6d, 0x65, 0x74, 0x61] }
pub open spec fn b_script() -> Seq<u8> { seq![0x73, 0x63, 0x72, 0x69, 0x70, 0x74] }
pub open spec fn b_style() -> Seq<u8> { seq![0x73, 0x74, 0x79, 0x6c, 0x65] }

/// The tags found scanning `s` from `pos`.
pub open spec fn scan_tags(s: Seq<u8>, pos: int, past_head: bool) -> Seq<HtmlTagView>
    decreases s.len() - pos,
{
    if pos < 0 || pos >= s.len() {
        seq![]
    } else if s[pos] != LT {
        scan_tags(s, pos + 1, past_head)
    } else if pos + 1 >= s.len() {
        seq![]
    } else {
        let next = s[pos + 1];
        if next == BANG {
            let np = if matches_at(s, pos, b_comment_open()) {
                skip_past(s, pos, b_comment_close())
            } else if matches_at(s, pos, b_cdata_open()) {
                skip_past(s, pos, b_cdata_close())
            } else {
                skip_past(s, pos, b_gt())
            };
            proof {
                lemma_skip_past(s, pos, b_comment_close());
                lemma_skip_past(s, pos, b_cdata_close());
                lemma_skip_past(s, pos, b_gt());
            }
            scan_tags(s, np, past_head)
        } else if next == QUESTION {
            proof {
                lemma_skip_past(s, pos, b_pi_close());
            }
            scan_tags(s, skip_past(s, pos, b_pi_close()), past_head)
        } else if next == SLASH {
            proof {
                lemma_skip_past(s, pos, b_gt());
            }
            scan_tags(s, skip_past(s, pos, b_gt()), past_head)
        } else if is_alpha(next) {
            let t = scan_start_tag(s, pos);
            let name = t.0;
            let m = t.1;
            let after = t.2;
            proof {
                lemma_run_end(s, pos + 1, tag_name_pred());
                lemma_scan_attrs_bounds(s, run_end(s, pos + 1, tag_name_pred()), Map::empty());
            }
            if t.3 {
                seq![]
            } else if eq_ic(name, b_body()) && !past_head {
                seq![]
            } else if eq_ic(name, b_link()) {
                if link_ok(m) {
                    seq![HtmlTagView { tag_type: HtmlTagType::Link, attributes: m }] + scan_tags(s, after, past_head)
                } else {
                    scan_tags(s, after, past_head)
                }
            } else if eq_ic(name, b_meta()) {
                if m.dom() =~= Set::<Seq<char>>::empty() {
                    scan_tags(s, after, past_head)
                } else {
                    seq![HtmlTagView { tag_type: HtmlTagType::Meta, attributes: m }] + scan_tags(s, after, past_head)
                }
            } else if (eq_ic(name, b_script()) || eq_ic(name, b_style())) && !has_self_closing_key(m) {
                let close = if eq_ic(name, b_script()) { b_script() } else { b_style() };
                proof {
                    lemma_skip_raw_text(s, after, close);
                }
                scan_tags(s, skip_raw_text(s, after, close), past_head)
            } else {
                scan_tags(s, after, past_head)
            }
        } else {
            scan_tags(s, pos + 1, past_head)
        }
    }
}

pub open spec fn lit_youtube_com() -> Seq<char> {
    seq!['y', 'o', 'u', 't', 'u', 'b', 'e', '.', 'c', 'o', 'm']
}

pub open spec fn lit_youtu_be() -> Seq<char> {
    seq!['y', 'o', 'u', 't', 'u', '.', 'b', 'e']
}

/// YouTube pages carry the interesting links below the head.
pub open spec fn scans_past_head(url: Seq<char>) -> bool {
    contains_run(lowercase_text(url), lit_youtube_com()) || contains_run(lowercase_text(url), lit_youtu_be())
}

pub(crate) fn run_ws(s: &[u8], k: usize) -> (r: usize)
    requires
        k <= s@.len(),
    ensures
        r == run_end(s@, k as int, ws_pred()),
        k <= r <= s@.len(),
        r < s@.len() ==> !is_ws(s@[r as int]),
{
    proof {
        lemma_run_end(s@, k as int, ws_pred());
    }
    let mut p = k;
    while p < s.len() && is_ws_exec(s[p])
        invariant
            k <= p <= s@.len(),
            run_end(s@, k as int, ws_pred()) == run_end(s@, p as int, ws_pred()),
        decreases s@.len() - p,
    {
        p += 1;
    }
    p
}

pub(crate) fn is_tag_name_byte_exec(b: u8) -> (r: bool)
    ensures
        r == is_tag_name_byte(b),
{
    b == COLON || b == UNDERSCORE || b == DASH || b == DOT || is_alpha_exec(b) || is_digit_exec(b) || b >= 0x80
}

fn push_attr(attrs: &mut Vec<(String, String)>, name: String, value: String)
    ensures
        attr_map(final(attrs)@) == with_attr(attr_map(old(attrs)@), name@, value@),
        final(attrs)@.len() >= old(attrs)@.len(),
{
    if !name.as_str().is_empty() {
        let ghost old_attrs = attrs@;
        attrs.push((name, value));
        proof {
            assert(attrs@.drop_last() =~= old_attrs);
        }
    } else {
        assert(name@.len() == 0);
    }
}

/// Scans the start tag whose `<` is at `start`.
fn scan_start_tag_exec(s: &[u8], start: usize) -> (r: (Vec<u8>, Vec<(String, String)>, usize, bool))
    requires
        start < s@.len(),
    ensures
        (r.0@, attr_map(r.1@), r.2 as int, r.3) == scan_start_tag(s@, start as int),
{
    let end = s.len();
    let mut pos = start + 1;
    while pos < end && is_tag_name_byte_exec(s[pos])
        invariant
            end == s@.len(),
            start + 1 <= pos <= end,
            run_end(s@, start + 1, tag_name_pred()) == run_end(s@, pos as int, tag_name_pred()),
        decreases end - pos,
    {
        pos += 1;
    }
    let mut name: Vec<u8> = Vec::new();
    let mut k = start + 1;
    while k < pos
        invariant
            start + 1 <= k <= pos <= end,
            end == s@.len(),
            name@ == s@.subrange(start + 1, k as int),
        decreases pos - k,
    {
        name.push(s[k]);
        k += 1;
        assert(name@ =~= s@.subrange(start + 1, k as int));
    }
    proof {
        lemma_run_end(s@, start + 1, tag_name_pred());
        assert(name@ =~= s@.subrange(start + 1, pos as int));
    }
    let ghost ne0 = pos as int;
    let ghost target = scan_attrs(s@, pos as int, Map::empty());
    let mut attrs: Vec<(String, String)> = Vec::new();
    assert(attr_map(attrs@) =~= Map::<Seq<char>, Seq<char>>::empty());
    loop
        invariant
            end == s@.len(),
            pos <= end,
            ne0 == run_end(s@, start + 1, tag_name_pred()),
            name@ == s@.subrange(start + 1, ne0),
            target == scan_attrs(s@, ne0, Map::empty()),
            target == scan_attrs(s@, pos as int, attr_map(attrs@)),
        decreases end - pos,
    {
        if pos >= end {
            return (name, attrs, pos, false);
        }
        let p1 = run_ws(s, pos);
        if p1 >= end {
            return (name, attrs, p1, false);
        }
        let b = s[p1];
        if b == GT {
            return (name, attrs, p1 + 1, false);
        }
        if b == SLASH {
            if p1 + 1 < end && s[p1 + 1] == GT {
                return (name, attrs, p1 + 2, false);
            }
            pos = p1 + 1;
            continue;
        }
        proof {
            lemma_run_end(s@, p1 as int, attr_name_pred());
        }
        let mut ne = p1;
        while ne < end && !is_ws_exec(s[ne]) && s[ne] != EQ && s[ne] != GT && s[ne] != SLASH
            invariant
                end == s@.len(),
                p1 <= ne <= end,
                run_end(s@, p1 as int, attr_name_pred()) == run_end(s@, ne as int, attr_name_pred()),
            decreases end - ne,
        {
            ne += 1;
        }
        let attr_name = lossy_text(s, p1, ne);
        let p2 = run_ws(s, ne);
        if p2 >= end || s[p2] != EQ {
            proof {
                if ne == p1 {
                    assert(s@[p1 as int] == EQ);
                    assert(run_end(s@, ne as int, ws_pred()) == ne as int);
                }
            }
            push_attr(&mut attrs, attr_name, String::new());
            pos = p2;
            continue;
        }
        let p3 = run_ws(s, p2 + 1);
        if p3 >= end {
            push_attr(&mut attrs, attr_name, String::new());
            return (name, attrs, p3, false);
        }
        let quote = s[p3];
        if quote == DQUOTE || quote == SQUOTE {
            proof {
                lemma_run_end(s@, p3 + 1, not_byte_pred(quote));
            }
            let mut p4 = p3 + 1;
            while p4 < end && s[p4] != quote
                invariant
                    end == s@.len(),
                    p3 + 1 <= p4 <= end,
                    run_end(s@, p3 + 1, not_byte_pred(quote)) == run_end(s@, p4 as int, not_byte_pred(quote)),
                decreases end - p4,
            {
                p4 += 1;
            }
            let value = lossy_text(s, p3 + 1, p4);
            push_attr(&mut attrs, attr_name, value);
            if p4 < end {
                pos = p4 + 1;
            } else {
                return (name, attrs, p4, true);
            }
        } else {
            proof {
                lemma_run_end(s@, p3 as int, unquoted_pred());
            }
            let mut p4 = p3;
            while p4 < end && !is_ws_exec(s[p4]) && s[p4] != GT
                invariant
                    end == s@.len(),
                    p3 <= p4 <= end,
                    run_end(s@, p3 as int, unquoted_pred()) == run_end(s@, p4 as int, unquoted_pred()),
                decreases end - p4,
            {
                p4 += 1;
            }
            let value = lossy_text(s, p3, p4);
            push_attr(&mut attrs, attr_name, value);
            pos = p4;
        }
    }
}

/// Executable `skip_raw_text`.
pub(crate) fn skip_raw_text_exec(s: &[u8], p: usize, close: &[u8]) -> (r: usize)
    requires
        p <= s@.len(),
    ensures
        r == skip_raw_text(s@, p as int, close@),
{
    let end = s.len();
    let mut pos = p;
    while pos < end
        invariant
            end == s@.len(),
            p <= pos <= end,
            skip_raw_text(s@, p as int, close@) == skip_raw_text(s@, pos as int, close@),
        decreases end - pos,
    {
        if s[pos] == LT && pos + 1 < end && s[pos + 1] == SLASH {
            let name_start = pos + 2;
            if close.len() <= end - name_start {
                let name_end = name_start + close.len();
                if range_eq_ic(s, name_start, name_end, close)
                    && (name_end == end || s[name_end] == GT || s[name_end] == SLASH || is_ws_exec(s[name_end]))
                {
                    let gt: [u8; 1] = [GT];
                    assert(gt@ == b_gt());
                    return skip_past_exec(s, name_end, &gt);
                }
            }
        }
        pos += 1;
    }
    end
}

fn has_key_eq_ic(attrs: &Vec<(String, String)>, lit: &[char]) -> (r: bool)
    requires
        lit@ == lit_self_closing(),
    ensures
        r == has_self_closing_key(attr_map(attrs@)),
{
    let mut i: usize = 0;
    while i < attrs.len()
        invariant
            lit@ == lit_self_closing(),
            i <= attrs@.len(),
            forall|k: int| 0 <= k < i ==> !chars_eq_ic(#[trigger] attrs@[k].0@, lit_self_closing()),
        decreases attrs@.len() - i,
    {
        if str_eq_ic(attrs[i].0.as_str(), lit) {
            proof {
                lemma_attr_map_has_key(attrs@, i as int);
            }
            return true;
        }
        i += 1;
    }
    proof {
        assert forall|k: Seq<char>| attr_map(attrs@).contains_key(k) implies !chars_eq_ic(k, lit_self_closing()) by {
            lemma_attr_map_key_source(attrs@, k);
        }
    }
    false
}

proof fn lemma_attr_map_has_key(s: Seq<(String, String)>, i: int)
    requires
        0 <= i < s.len(),
    ensures
        attr_map(s).contains_key(s[i].0@),
    decreases s.len(),
{
    if i < s.len() - 1 {
        lemma_attr_map_has_key(s.drop_last(), i);
    }
}

proof fn lemma_attr_map_key_source(s: Seq<(String, String)>, k: Seq<char>)
    requires
        attr_map(s).contains_key(k),
    ensures
        exists|i: int| 0 <= i < s.len() && #[trigger] s[i].0@ == k,
    decreases s.len(),
{
    if s.len() > 0 {
        if s.last().0@ == k {
            assert(s[s.len() - 1].0@ == k);
        } else {
            lemma_attr_map_key_source(s.drop_last(), k);
            let i = choose|i: int| 0 <= i < s.drop_last().len() && #[trigger] s.drop_last()[i].0@ == k;
            assert(s[i].0@ == k);
        }
    }
}

fn link_ok_exec(tag: &HtmlTag) -> (r: bool)
    ensures
        r == link_ok(tag@.attributes),
{
    match tag.get("rel") {
        None => {
            proof { reveal_strlit("rel"); assert("rel"@ == lit_rel()); }
            false
        },
        Some(rel) => {
            proof {
                reveal_strlit("rel");
                reveal_strlit("href");
                reveal_strlit("src");
                assert("rel"@ == lit_rel());
                assert("href"@ == lit_href());
                assert("src"@ == lit_src());
            }
            !rel.as_str().is_empty() && (tag.get("href").is_some() || tag.get("src").is_some())
        },
    }
}

/// Extracts `<link>` and `<meta>` tags from `data`, an HTML document.
pub fn extract_metadata(data: &[u8], url_string: &str) -> (md: HtmlMetadata)
    ensures
        md.url_string@ == url_string@,
        tags_view(md.tags@) == scan_tags(data@, 0, scans_past_head(url_string@)),
{
    let lower = to_lowercase(url_string);
    let lower_chars = chars_of(lower.as_str());
    let yt: [char; 11] = ['y', 'o', 'u', 't', 'u', 'b', 'e', '.', 'c', 'o', 'm'];
    let ytb: [char; 8] = ['y', 'o', 'u', 't', 'u', '.', 'b', 'e'];
    assert(yt@ == lit_youtube_com());
    assert(ytb@ == lit_youtu_be());
    let scan_past_head = has_run(&lower_chars, &yt) || has_run(&lower_chars, &ytb);
    let ghost ph = scan_past_head;

    let comment_open: [u8; 4] = [LT, BANG, DASH, DASH];
    let comment_close: [u8; 3] = [DASH, DASH, GT];
    let cdata_open: [u8; 9] = [LT, BANG, LBRACKET, 0x43, 0x44, 0x41, 0x54, 0x41, LBRACKET];
    let cdata_close: [u8; 3] = [RBRACKET, RBRACKET, GT];
    let pi_close: [u8; 2] = [QUESTION, GT];
    let gt: [u8; 1] = [GT];
    let body: [u8; 4] = [0x62, 0x6f, 0x64, 0x79];
    let link: [u8; 4] = [0x6c, 0x69, 0x6e, 0x6b];
    let meta: [u8; 4] = [0x6d, 0x65, 0x74, 0x61];
    let script: [u8; 6] = [0x73, 0x63, 0x72, 0x69, 0x70, 0x74];
    let style: [u8; 5] = [0x73, 0x74, 0x79, 0x6c, 0x65];
    let self_closing: [char; 12] = ['s', 'e', 'l', 'f', '-', 'c', 'l', 'o', 's', 'i', 'n', 'g'];
    assert(comment_open@ == b_comment_open());
    assert(comment_close@ == b_comment_close());
    assert(cdata_open@ == b_cdata_open());
    assert(cdata_close@ == b_cdata_close());
    assert(pi_close@ == b_pi_close());
    assert(gt@ == b_gt());
    assert(body@ == b_body());
    assert(link@ == b_link());
    assert(meta@ == b_meta());
    assert(script@ == b_script());
    assert(style@ == b_style());
    assert(self_closing@ == lit_self_closing());

    let mut tags: Vec<HtmlTag> = Vec::new();
    let mut pos: usize = 0;
    let end = data.len();
    while pos < end
        invariant
            end == data@.len(),
            pos <= end,
            comment_open@ == b_comment_open(),
            comment_close@ == b_comment_close(),
            cdata_open@ == b_cdata_open(),
            cdata_close@ == b_cdata_close(),
            pi_close@ == b_pi_close(),
            gt@ == b_gt(),
            body@ == b_body(),
            link@ == b_link(),
            meta@ == b_meta(),
            script@ == b_script(),
            style@ == b_style(),
            self_closing@ == lit_self_closing(),
            scan_past_head == ph,
            scan_tags(data@, 0, ph) == tags_view(tags@) + scan_tags(data@, pos as int, ph),
        decreases end - pos,
    {
        let ghost old_tags = tags@;
        if data[pos] != LT {
            pos += 1;
            continue;
        }
        if pos + 1 >= end {
            assert(tags_view(tags@) + scan_tags(data@, pos as int, ph) =~= tags_view(tags@));
            pos = end;
            continue;
        }
        let next = data[pos + 1];
        if next == BANG {
            proof {
                lemma_skip_past(data@, pos as int, b_comment_close());
                lemma_skip_past(data@, pos as int, b_cdata_close());
                lemma_skip_past(data@, pos as int, b_gt());
            }
            if bytes_match_at(data, pos, &comment_open) {
                pos = skip_past_exec(data, pos, &comment_close);
            } else if bytes_match_at(data, pos, &cdata_open) {
                pos = skip_past_exec(data, pos, &cdata_close);
            } else {
                pos = skip_past_exec(data, pos, &gt);
            }
        } else if next == QUESTION {
            proof {
                lemma_skip_past(data@, pos as int, b_pi_close());
            }
            pos = skip_past_exec(data, pos, &pi_close);
        } else if next == SLASH {
            proof {
                lemma_skip_past(data@, pos as int, b_gt());
            }
            pos = skip_past_exec(data, pos, &gt);
        } else if is_alpha_exec(next) {
            let ghost old_pos = pos as int;
            proof {
                lemma_run_end(data@, pos + 1, tag_name_pred());
                lemma_scan_attrs_bounds(data@, run_end(data@, pos + 1, tag_name_pred()), Map::empty());
            }
            let (name, attrs, after, aborted) = scan_start_tag_exec(data, pos);
            if aborted {
                assert(tags_view(tags@) + scan_tags(data@, pos as int, ph) =~= tags_view(tags@));
                pos = end;
                continue;
            }
            let nl = name.len();
            if range_eq_ic(&name, 0, nl, &body) && !scan_past_head {
                assert(name@.subrange(0, nl as int) =~= name@);
                assert(tags_view(tags@) + scan_tags(data@, pos as int, ph) =~= tags_view(tags@));
                pos = end;
                continue;
            }
            assert(name@.subrange(0, nl as int) =~= name@);
            if range_eq_ic(&name, 0, nl, &link) {
                let tag = HtmlTag { tag_type: HtmlTagType::Link, attributes: attrs };
                if link_ok_exec(&tag) {
                    tags.push(tag);
                    proof {
                        assert(tags_view(tags@) =~= tags_view(old_tags) + seq![tag@]);
                    }
                }
                pos = after;
            } else if range_eq_ic(&name, 0, nl, &meta) {
                proof {
                    lemma_attr_map_empty(attrs@);
                }
                if attrs.len() > 0 {
                    let tag = HtmlTag { tag_type: HtmlTagType::Meta, attributes: attrs };
                    tags.push(tag);
                    proof {
                        assert(tags_view(tags@) =~= tags_view(old_tags) + seq![tag@]);
                    }
                }
                pos = after;
            } else {
                let is_script = range_eq_ic(&name, 0, nl, &script);
                let is_style = range_eq_ic(&name, 0, nl, &style);
                if (is_script || is_style) && !has_key_eq_ic(&attrs, &self_closing) {
                    proof {
                        let close = if is_script { b_script() } else { b_style() };
                        lemma_skip_raw_text(data@, after as int, close);
                    }
                    if is_script {
                        pos = skip_raw_text_exec(data, after, &script);
                    } else {
                        pos = skip_raw_text_exec(data, after, &style);
                    }
                } else {
                    pos = after;
                }
            }
        } else {
            pos += 1;
        }
    }
    proof {
        assert(tags_view(tags@) + scan_tags(data@, pos as int, ph) =~= tags_view(tags@));
    }
    HtmlMetadata { url_string: String::from_str(url_string), tags }
}

} // verus!
