//! Resolution of relative URLs in HTML attribute values (`href`, `src`,
//! `poster` and the candidates of `srcset`) against a base URL, as Atom's
//! `xml:base` asks.
//!
//! The rewrite is surgical: every byte outside a rewritten value stays as
//! it was. A value is left alone when it is empty, a fragment (`#…`), or
//! carries a scheme (`http:`, `data:`, `mailto:`, …); protocol-relative
//! values (`//…`) take the base's scheme. Values are not entity-decoded,
//! so `&amp;` survives byte for byte. Surrounding whitespace inside a
//! value stays; only the trimmed part is rewritten. Comments, CDATA,
//! declarations, processing instructions, end tags and the bodies of
//! `<script>` and `<style>` are skipped; a quoted value that runs off the
//! end of the input ends the scan, keeping the rewrites found before it.
use vstd::prelude::*;
use crate::bytes::{
    eq_ic, is_alnum, is_alpha, is_alpha_exec, is_digit_exec, is_ws, is_ws_exec, lemma_run_end, lemma_skip_past,
    matches_at, run_end, skip_past, skip_past_exec, bytes_match_at, range_eq_ic, BANG, COLON, DASH, DOT, DQUOTE, EQ,
    GT, LT, QUESTION, SLASH, SQUOTE, UNDERSCORE,
};
use crate::chars::utf8_text;
use crate::network::discovery::{join_url, url_joined};
use crate::parser::html::{
    attr_name_pred, b_cdata_close, b_cdata_open, b_comment_close, b_comment_open, b_gt, b_pi_close, b_script,
    b_style, is_tag_name_byte, is_tag_name_byte_exec, lemma_skip_raw_text, not_byte_pred, run_ws, skip_raw_text,
    skip_raw_text_exec, tag_name_pred, unquoted_pred, ws_pred,
};
use vstd::utf8::{decode_utf8, encode_utf8, valid_utf8};

verus! {

/// One rewrite: the bytes `start..end` of the input are replaced by `bytes`.
pub struct Repl {
    pub start: int,
    pub end: int,
    pub bytes: Seq<u8>,
}

pub open spec fn b_href() -> Seq<u8> { seq![0x68u8, 0x72, 0x65, 0x66] }
pub open spec fn b_src() -> Seq<u8> { seq![0x73u8, 0x72, 0x63] }
pub open spec fn b_poster() -> Seq<u8> { seq![0x70u8, 0x6f, 0x73, 0x74, 0x65, 0x72] }
pub open spec fn b_srcset() -> Seq<u8> { seq![0x73u8, 0x72, 0x63, 0x73, 0x65, 0x74] }

pub const COMMA: u8 = 0x2c;
pub const HASH: u8 = 0x23;
pub const PLUS: u8 = 0x2b;

/// A byte that may start an XML name: `:`, a letter, `_`, or any byte of a
/// multibyte character.
pub open spec fn is_name_start(b: u8) -> bool {
    b == COLON || is_alpha(b) || b == UNDERSCORE || b >= 0x80
}

/// Whether the bytes from `k` on continue a URL scheme up to its `:`.
pub open spec fn scheme_rest(v: Seq<u8>, k: int) -> bool
    decreases v.len() - k,
{
    if k < 0 || k >= v.len() {
        false
    } else if v[k] == COLON {
        true
    } else if !(is_alnum(v[k]) || v[k] == PLUS || v[k] == DASH || v[k] == DOT) {
        false
    } else {
        scheme_rest(v, k + 1)
    }
}

/// The value starts with a URL scheme: `[A-Za-z][A-Za-z0-9+.-]*:`.
pub open spec fn has_scheme(v: Seq<u8>) -> bool {
    v.len() > 0 && is_alpha(v[0]) && scheme_rest(v, 1)
}

/// Values worth resolving: non-empty, no fragment, no scheme.
pub open spec fn should_resolve(v: Seq<u8>) -> bool {
    v.len() > 0 && v[0] != HASH && !has_scheme(v)
}

/// The bytes a value is rewritten to: its UTF-8 text resolved against
/// `base`, when it should be resolved, is UTF-8, resolves, and changes.
pub open spec fn resolved_value(v: Seq<u8>, base: Seq<char>) -> Option<Seq<u8>> {
    if should_resolve(v) && valid_utf8(v) {
        match url_joined(base, decode_utf8(v)) {
            Some(j) => if j == decode_utf8(v) {
                None
            } else {
                Some(encode_utf8(j))
            },
            None => None,
        }
    } else {
        None
    }
}

/// First position at or after `lo` (before `hi`) that is no whitespace.
pub open spec fn trim_lo(s: Seq<u8>, lo: int, hi: int) -> int
    decreases hi - lo,
{
    if lo < hi && 0 <= lo < s.len() && is_ws(s[lo]) {
        trim_lo(s, lo + 1, hi)
    } else {
        lo
    }
}

/// Last end at or before `hi` (after `lo`) with no whitespace before it.
pub open spec fn trim_hi(s: Seq<u8>, lo: int, hi: int) -> int
    decreases hi - lo,
{
    if hi > lo && 0 < hi <= s.len() && is_ws(s[hi - 1]) {
        trim_hi(s, lo, hi - 1)
    } else {
        hi
    }
}

/// `hi` moved back over the commas that end `lo..hi`.
pub open spec fn strip_commas(s: Seq<u8>, lo: int, hi: int) -> int
    decreases hi - lo,
{
    if hi > lo && 0 < hi <= s.len() && s[hi - 1] == COMMA {
        strip_commas(s, lo, hi - 1)
    } else {
        hi
    }
}

/// The end of the run of bytes satisfying `pred` from `k`, stopping at `end`.
pub open spec fn run_within(s: Seq<u8>, k: int, end: int, pred: spec_fn(u8) -> bool) -> int
    decreases end - k,
{
    if k < 0 || k >= end || k >= s.len() || !pred(s[k]) {
        k
    } else {
        run_within(s, k + 1, end, pred)
    }
}

pub open spec fn sep_pred() -> spec_fn(u8) -> bool {
    |b: u8| is_ws(b) || b == COMMA
}

pub open spec fn non_ws_pred() -> spec_fn(u8) -> bool {
    |b: u8| !is_ws(b)
}

pub open spec fn non_comma_pred() -> spec_fn(u8) -> bool {
    |b: u8| b != COMMA
}

/// The rewrite of the URL value at `vs..ve`, trimmed of whitespace.
pub open spec fn value_repl(s: Seq<u8>, vs: int, ve: int, base: Seq<char>) -> Seq<Repl> {
    let lo = trim_lo(s, vs, ve);
    let hi = trim_hi(s, lo, ve);
    if lo >= hi {
        seq![]
    } else {
        match resolved_value(s.subrange(lo, hi), base) {
            Some(b) => seq![Repl { start: lo, end: hi, bytes: b }],
            None => seq![],
        }
    }
}

/// The rewrites of the `srcset` candidates from `i` to `ve`: each URL is the
/// next run of non-whitespace, without trailing commas; its descriptor runs
/// to the next comma unless a trailing comma already ended the candidate.
pub open spec fn srcset_repls(s: Seq<u8>, i: int, ve: int, base: Seq<char>) -> Seq<Repl>
    decreases ve - i,
{
    if i < 0 || i >= ve || ve > s.len() {
        seq![]
    } else {
        let i1 = run_within(s, i, ve, sep_pred());
        if i1 >= ve {
            seq![]
        } else {
            let i2 = run_within(s, i1, ve, non_ws_pred());
            let ue = strip_commas(s, i1, i2);
            let here = if ue > i1 { value_repl(s, i1, ue, base) } else { seq![] };
            let i3 = if ue < i2 { i2 } else { run_within(s, i2, ve, non_comma_pred()) };
            proof {
                lemma_run_within(s, i, ve, sep_pred());
                lemma_run_within(s, i1, ve, non_ws_pred());
                lemma_run_within(s, i2, ve, non_comma_pred());
            }
            here + srcset_repls(s, i3, ve, base)
        }
    }
}

/// The rewrites an attribute's value asks for, by the attribute's name.
pub open spec fn attr_value_repls(s: Seq<u8>, name: Seq<u8>, vs: int, ve: int, base: Seq<char>) -> Seq<Repl> {
    if eq_ic(name, b_href()) || eq_ic(name, b_src()) || eq_ic(name, b_poster()) {
        value_repl(s, vs, ve, base)
    } else if eq_ic(name, b_srcset()) {
        srcset_repls(s, vs, ve, base)
    } else {
        seq![]
    }
}

/// The attribute whose name starts at `p`: the position after it and its
/// rewrites. A quoted value that runs off the end gives the end of input.
pub open spec fn scan_attr(s: Seq<u8>, p: int, base: Seq<char>) -> (int, Seq<Repl>) {
    let ne = run_end(s, p, attr_name_pred());
    let name = s.subrange(p, ne);
    let p2 = run_end(s, ne, ws_pred());
    if p2 >= s.len() || s[p2] != EQ {
        (p2, seq![])
    } else {
        let p3 = run_end(s, p2 + 1, ws_pred());
        if p3 >= s.len() {
            (p3, seq![])
        } else if s[p3] == DQUOTE || s[p3] == SQUOTE {
            let p4 = run_end(s, p3 + 1, not_byte_pred(s[p3]));
            if p4 >= s.len() {
                (s.len() as int, seq![])
            } else {
                (p4 + 1, attr_value_repls(s, name, p3 + 1, p4, base))
            }
        } else {
            let p4 = run_end(s, p3, unquoted_pred());
            (p4, attr_value_repls(s, name, p3, p4, base))
        }
    }
}

/// The rest of a start tag from `p`: the position after it, its rewrites,
/// and whether it closed with `/>`.
pub open spec fn scan_tag_rest(s: Seq<u8>, p: int, base: Seq<char>) -> (int, Seq<Repl>, bool)
    decreases s.len() - p,
{
    if p < 0 || p >= s.len() {
        (p, seq![], false)
    } else {
        let p1 = run_end(s, p, ws_pred());
        proof {
            lemma_run_end(s, p, ws_pred());
        }
        if p1 >= s.len() {
            (p1, seq![], false)
        } else if s[p1] == GT {
            (p1 + 1, seq![], false)
        } else if s[p1] == SLASH {
            if p1 + 1 < s.len() && s[p1 + 1] == GT {
                (p1 + 2, seq![], true)
            } else {
                scan_tag_rest(s, p1 + 1, base)
            }
        } else if is_name_start(s[p1]) {
            let a = scan_attr(s, p1, base);
            proof {
                lemma_scan_attr(s, p1, base);
            }
            let r = scan_tag_rest(s, a.0, base);
            (r.0, a.1 + r.1, r.2)
        } else {
            scan_tag_rest(s, p1 + 1, base)
        }
    }
}

/// The start tag whose `<` is at `pos`: the position after it (and after
/// the body of a `<script>` or `<style>` that is not self-closing) and its
/// rewrites.
pub open spec fn scan_start(s: Seq<u8>, pos: int, base: Seq<char>) -> (int, Seq<Repl>) {
    let ne = run_end(s, pos + 1, tag_name_pred());
    let name = s.subrange(pos + 1, ne);
    let t = scan_tag_rest(s, ne, base);
    let after = if !t.2 && eq_ic(name, b_script()) {
        skip_raw_text(s, t.0, b_script())
    } else if !t.2 && eq_ic(name, b_style()) {
        skip_raw_text(s, t.0, b_style())
    } else {
        t.0
    };
    (after, t.1)
}

/// What a `<` at `pos` leads to: the position to go on from, and rewrites.
pub open spec fn at_lt(s: Seq<u8>, pos: int, base: Seq<char>) -> (int, Seq<Repl>) {
    if pos + 1 >= s.len() {
        (s.len() as int, seq![])
    } else {
        let next = s[pos + 1];
        if next == BANG {
            if matches_at(s, pos, b_comment_open()) {
                (skip_past(s, pos, b_comment_close()), seq![])
            } else if matches_at(s, pos, b_cdata_open()) {
                (skip_past(s, pos, b_cdata_close()), seq![])
            } else {
                (skip_past(s, pos, b_gt()), seq![])
            }
        } else if next == QUESTION {
            (skip_past(s, pos, b_pi_close()), seq![])
        } else if next == SLASH {
            (skip_past(s, pos, b_gt()), seq![])
        } else if is_alpha(next) {
            scan_start(s, pos, base)
        } else {
            (pos + 1, seq![])
        }
    }
}

/// Every rewrite found scanning `s` from `pos`, in order.
pub open spec fn url_repls(s: Seq<u8>, pos: int, base: Seq<char>) -> Seq<Repl>
    decreases s.len() - pos,
{
    if pos < 0 || pos >= s.len() {
        seq![]
    } else if s[pos] != LT {
        url_repls(s, pos + 1, base)
    } else {
        let r = at_lt(s, pos, base);
        proof {
            lemma_at_lt(s, pos, base);
        }
        r.1 + url_repls(s, r.0, base)
    }
}

/// `s` with the rewrites applied, copying from `from` on.
pub open spec fn spliced(s: Seq<u8>, rs: Seq<Repl>, from: int) -> Seq<u8>
    decreases rs.len(),
{
    if rs.len() == 0 {
        s.subrange(from, s.len() as int)
    } else {
        s.subrange(from, rs[0].start) + rs[0].bytes + spliced(s, rs.drop_first(), rs[0].end)
    }
}

/// The text after resolution: the input when nothing is rewritten, else
/// the rewritten bytes read as UTF-8 (the input again, should they not be).
pub open spec fn resolved_html(html: Seq<char>, base: Seq<char>) -> Seq<char> {
    let s = encode_utf8(html);
    let rs = url_repls(s, 0, base);
    if rs.len() == 0 {
        html
    } else {
        let out = spliced(s, rs, 0);
        if valid_utf8(out) {
            decode_utf8(out)
        } else {
            html
        }
    }
}

/// Rewrites that lie in order, without overlap, between `lo` and `hi`.
pub open spec fn ordered(rs: Seq<Repl>, lo: int, hi: int) -> bool
    decreases rs.len(),
{
    if rs.len() == 0 {
        lo <= hi
    } else {
        lo <= rs[0].start <= rs[0].end <= hi && ordered(rs.drop_first(), rs[0].end, hi)
    }
}

// ---------------------------------------------------------------------------
// Lemmas: positions move forward, and rewrites come in order.
// ---------------------------------------------------------------------------

pub proof fn lemma_run_within(s: Seq<u8>, k: int, end: int, pred: spec_fn(u8) -> bool)
    requires
        0 <= k <= end <= s.len(),
    ensures
        k <= run_within(s, k, end, pred) <= end,
        forall|m: int| k <= m < run_within(s, k, end, pred) ==> pred(#[trigger] s[m]),
        run_within(s, k, end, pred) < end ==> !pred(s[run_within(s, k, end, pred)]),
    decreases end - k,
{
    if k < end && pred(s[k]) {
        lemma_run_within(s, k + 1, end, pred);
    }
}

pub proof fn lemma_trim(s: Seq<u8>, lo: int, hi: int)
    requires
        0 <= lo <= hi <= s.len(),
    ensures
        lo <= trim_lo(s, lo, hi) <= hi,
        trim_lo(s, lo, hi) <= trim_hi(s, trim_lo(s, lo, hi), hi) <= hi,
    decreases hi - lo,
{
    if lo < hi && is_ws(s[lo]) {
        lemma_trim(s, lo + 1, hi);
    } else {
        lemma_trim_hi(s, lo, hi);
    }
}

pub proof fn lemma_trim_hi(s: Seq<u8>, lo: int, hi: int)
    requires
        0 <= lo <= hi <= s.len(),
    ensures
        lo <= trim_hi(s, lo, hi) <= hi,
    decreases hi - lo,
{
    if hi > lo && is_ws(s[hi - 1]) {
        lemma_trim_hi(s, lo, hi - 1);
    }
}

pub proof fn lemma_strip_commas(s: Seq<u8>, lo: int, hi: int)
    requires
        0 <= lo <= hi <= s.len(),
    ensures
        lo <= strip_commas(s, lo, hi) <= hi,
    decreases hi - lo,
{
    if hi > lo && s[hi - 1] == COMMA {
        lemma_strip_commas(s, lo, hi - 1);
    }
}

pub proof fn lemma_ordered_weaken(rs: Seq<Repl>, lo: int, hi: int, lo2: int, hi2: int)
    requires
        ordered(rs, lo, hi),
        lo2 <= lo,
        hi <= hi2,
    ensures
        ordered(rs, lo2, hi2),
    decreases rs.len(),
{
    if rs.len() > 0 {
        lemma_ordered_weaken(rs.drop_first(), rs[0].end, hi, rs[0].end, hi2);
    }
}

pub proof fn lemma_ordered_concat(a: Seq<Repl>, b: Seq<Repl>, lo: int, mid: int, hi: int)
    requires
        ordered(a, lo, mid),
        ordered(b, mid, hi),
    ensures
        ordered(a + b, lo, hi),
    decreases a.len(),
{
    if a.len() == 0 {
        assert(a + b =~= b);
        lemma_ordered_weaken(b, mid, hi, lo, hi);
    } else {
        assert((a + b).drop_first() =~= a.drop_first() + b);
        lemma_ordered_concat(a.drop_first(), b, a[0].end, mid, hi);
    }
}

pub proof fn lemma_value_repl(s: Seq<u8>, vs: int, ve: int, base: Seq<char>)
    requires
        0 <= vs <= ve <= s.len(),
    ensures
        ordered(value_repl(s, vs, ve, base), vs, ve),
{
    lemma_trim(s, vs, ve);
    let lo = trim_lo(s, vs, ve);
    let hi = trim_hi(s, lo, ve);
    let rs = value_repl(s, vs, ve, base);
    if rs.len() > 0 {
        assert(rs.drop_first() =~= Seq::<Repl>::empty());
        assert(ordered(rs.drop_first(), hi, ve));
    }
}

pub proof fn lemma_srcset_repls(s: Seq<u8>, i: int, ve: int, base: Seq<char>)
    requires
        0 <= i <= ve <= s.len(),
    ensures
        ordered(srcset_repls(s, i, ve, base), i, ve),
    decreases ve - i,
{
    if i < ve {
        let i1 = run_within(s, i, ve, sep_pred());
        lemma_run_within(s, i, ve, sep_pred());
        if i1 < ve {
            let i2 = run_within(s, i1, ve, non_ws_pred());
            lemma_run_within(s, i1, ve, non_ws_pred());
            lemma_strip_commas(s, i1, i2);
            let ue = strip_commas(s, i1, i2);
            let here = if ue > i1 { value_repl(s, i1, ue, base) } else { seq![] };
            let i3 = if ue < i2 { i2 } else { run_within(s, i2, ve, non_comma_pred()) };
            lemma_run_within(s, i2, ve, non_comma_pred());
            if ue > i1 {
                lemma_value_repl(s, i1, ue, base);
            }
            lemma_ordered_weaken(here, i1, ue, i, i3);
            lemma_srcset_repls(s, i3, ve, base);
            lemma_ordered_concat(here, srcset_repls(s, i3, ve, base), i, i3, ve);
        }
    }
}

pub proof fn lemma_attr_value_repls(s: Seq<u8>, name: Seq<u8>, vs: int, ve: int, base: Seq<char>)
    requires
        0 <= vs <= ve <= s.len(),
    ensures
        ordered(attr_value_repls(s, name, vs, ve, base), vs, ve),
{
    lemma_value_repl(s, vs, ve, base);
    lemma_srcset_repls(s, vs, ve, base);
}

pub proof fn lemma_scan_attr(s: Seq<u8>, p: int, base: Seq<char>)
    requires
        0 <= p < s.len(),
        is_name_start(s[p]),
    ensures
        p < scan_attr(s, p, base).0 <= s.len(),
        ordered(scan_attr(s, p, base).1, p, scan_attr(s, p, base).0),
{
    lemma_run_end(s, p, attr_name_pred());
    let ne = run_end(s, p, attr_name_pred());
    lemma_run_end(s, ne, ws_pred());
    let p2 = run_end(s, ne, ws_pred());
    if p2 < s.len() && s[p2] == EQ {
        lemma_run_end(s, p2 + 1, ws_pred());
        let p3 = run_end(s, p2 + 1, ws_pred());
        if p3 < s.len() {
            let name = s.subrange(p, ne);
            if s[p3] == DQUOTE || s[p3] == SQUOTE {
                lemma_run_end(s, p3 + 1, not_byte_pred(s[p3]));
                let p4 = run_end(s, p3 + 1, not_byte_pred(s[p3]));
                if p4 < s.len() {
                    lemma_attr_value_repls(s, name, p3 + 1, p4, base);
                    lemma_ordered_weaken(attr_value_repls(s, name, p3 + 1, p4, base), p3 + 1, p4, p, p4 + 1);
                }
            } else {
                lemma_run_end(s, p3, unquoted_pred());
                let p4 = run_end(s, p3, unquoted_pred());
                lemma_attr_value_repls(s, name, p3, p4, base);
                lemma_ordered_weaken(attr_value_repls(s, name, p3, p4, base), p3, p4, p, p4);
            }
        }
    }
}

pub proof fn lemma_scan_tag_rest(s: Seq<u8>, p: int, base: Seq<char>)
    requires
        0 <= p <= s.len(),
    ensures
        p <= scan_tag_rest(s, p, base).0 <= s.len(),
        ordered(scan_tag_rest(s, p, base).1, p, scan_tag_rest(s, p, base).0),
    decreases s.len() - p,
{
    if p < s.len() {
        let p1 = run_end(s, p, ws_pred());
        lemma_run_end(s, p, ws_pred());
        if p1 < s.len() && s[p1] != GT {
            if s[p1] == SLASH {
                if !(p1 + 1 < s.len() && s[p1 + 1] == GT) {
                    lemma_scan_tag_rest(s, p1 + 1, base);
                    let r = scan_tag_rest(s, p1 + 1, base);
                    lemma_ordered_weaken(r.1, p1 + 1, r.0, p, r.0);
                }
            } else if is_name_start(s[p1]) {
                let a = scan_attr(s, p1, base);
                lemma_scan_attr(s, p1, base);
                lemma_scan_tag_rest(s, a.0, base);
                let r = scan_tag_rest(s, a.0, base);
                lemma_ordered_weaken(a.1, p1, a.0, p, a.0);
                lemma_ordered_concat(a.1, r.1, p, a.0, r.0);
            } else {
                lemma_scan_tag_rest(s, p1 + 1, base);
                let r = scan_tag_rest(s, p1 + 1, base);
                lemma_ordered_weaken(r.1, p1 + 1, r.0, p, r.0);
            }
        }
    }
}

pub proof fn lemma_at_lt(s: Seq<u8>, pos: int, base: Seq<char>)
    requires
        0 <= pos < s.len(),
        s[pos] == LT,
    ensures
        pos < at_lt(s, pos, base).0 <= s.len(),
        ordered(at_lt(s, pos, base).1, pos, at_lt(s, pos, base).0),
{
    lemma_skip_past(s, pos, b_comment_close());
    lemma_skip_past(s, pos, b_cdata_close());
    lemma_skip_past(s, pos, b_gt());
    lemma_skip_past(s, pos, b_pi_close());
    if pos + 1 < s.len() && s[pos + 1] != BANG && s[pos + 1] != QUESTION && s[pos + 1] != SLASH && is_alpha(
        s[pos + 1],
    ) {
        lemma_run_end(s, pos + 1, tag_name_pred());
        let ne = run_end(s, pos + 1, tag_name_pred());
        lemma_scan_tag_rest(s, ne, base);
        let t = scan_tag_rest(s, ne, base);
        lemma_skip_raw_text(s, t.0, b_script());
        lemma_skip_raw_text(s, t.0, b_style());
        let r = scan_start(s, pos, base);
        lemma_ordered_weaken(t.1, ne, t.0, pos, r.0);
    }
}

pub proof fn lemma_url_repls(s: Seq<u8>, pos: int, base: Seq<char>)
    requires
        0 <= pos <= s.len(),
    ensures
        ordered(url_repls(s, pos, base), pos, s.len() as int),
    decreases s.len() - pos,
{
    if pos < s.len() {
        if s[pos] != LT {
            lemma_url_repls(s, pos + 1, base);
            lemma_ordered_weaken(url_repls(s, pos + 1, base), pos + 1, s.len() as int, pos, s.len() as int);
        } else {
            let r = at_lt(s, pos, base);
            lemma_at_lt(s, pos, base);
            lemma_url_repls(s, r.0, base);
            lemma_ordered_concat(r.1, url_repls(s, r.0, base), pos, r.0, s.len() as int);
        }
    }
}


// ---------------------------------------------------------------------------
// Lemmas: every rewrite replaces a value that resolves, by its resolution.
// ---------------------------------------------------------------------------

/// Each rewrite replaces bytes that form a resolvable value with that
/// value's resolution.
pub open spec fn rewrites_resolved(rs: Seq<Repl>, s: Seq<u8>, base: Seq<char>) -> bool {
    forall|i: int|
        0 <= i < rs.len() ==> resolved_value(s.subrange(rs[i].start, rs[i].end), base) == Some(#[trigger] rs[i].bytes)
}

proof fn lemma_resolved_concat(a: Seq<Repl>, b: Seq<Repl>, s: Seq<u8>, base: Seq<char>)
    requires
        rewrites_resolved(a, s, base),
        rewrites_resolved(b, s, base),
    ensures
        rewrites_resolved(a + b, s, base),
{
    assert forall|i: int| 0 <= i < (a + b).len() implies resolved_value(
        s.subrange((a + b)[i].start, (a + b)[i].end),
        base,
    ) == Some(#[trigger] (a + b)[i].bytes) by {
        if i < a.len() {
            assert((a + b)[i] == a[i]);
        } else {
            assert((a + b)[i] == b[i - a.len()]);
        }
    }
}

proof fn lemma_value_repl_resolved(s: Seq<u8>, vs: int, ve: int, base: Seq<char>)
    ensures
        rewrites_resolved(value_repl(s, vs, ve, base), s, base),
{
}

proof fn lemma_srcset_resolved(s: Seq<u8>, i: int, ve: int, base: Seq<char>)
    ensures
        rewrites_resolved(srcset_repls(s, i, ve, base), s, base),
    decreases ve - i,
{
    if 0 <= i < ve && ve <= s.len() {
        let i1 = run_within(s, i, ve, sep_pred());
        lemma_run_within(s, i, ve, sep_pred());
        if i1 < ve {
            let i2 = run_within(s, i1, ve, non_ws_pred());
            lemma_run_within(s, i1, ve, non_ws_pred());
            let ue = strip_commas(s, i1, i2);
            let here = if ue > i1 { value_repl(s, i1, ue, base) } else { seq![] };
            let i3 = if ue < i2 { i2 } else { run_within(s, i2, ve, non_comma_pred()) };
            lemma_run_within(s, i2, ve, non_comma_pred());
            lemma_value_repl_resolved(s, i1, ue, base);
            lemma_srcset_resolved(s, i3, ve, base);
            lemma_resolved_concat(here, srcset_repls(s, i3, ve, base), s, base);
        }
    }
}

proof fn lemma_scan_attr_resolved(s: Seq<u8>, p: int, base: Seq<char>)
    ensures
        rewrites_resolved(scan_attr(s, p, base).1, s, base),
{
    let ne = run_end(s, p, attr_name_pred());
    let p2 = run_end(s, ne, ws_pred());
    let p3 = run_end(s, p2 + 1, ws_pred());
    if p3 < s.len() {
        let p4q = run_end(s, p3 + 1, not_byte_pred(s[p3]));
        let p4u = run_end(s, p3, unquoted_pred());
        lemma_value_repl_resolved(s, p3 + 1, p4q, base);
        lemma_srcset_resolved(s, p3 + 1, p4q, base);
        lemma_value_repl_resolved(s, p3, p4u, base);
        lemma_srcset_resolved(s, p3, p4u, base);
    }
}

proof fn lemma_scan_tag_rest_resolved(s: Seq<u8>, p: int, base: Seq<char>)
    ensures
        rewrites_resolved(scan_tag_rest(s, p, base).1, s, base),
    decreases s.len() - p,
{
    if 0 <= p < s.len() {
        let p1 = run_end(s, p, ws_pred());
        lemma_run_end(s, p, ws_pred());
        if p1 < s.len() && s[p1] != GT {
            if s[p1] == SLASH {
                if !(p1 + 1 < s.len() && s[p1 + 1] == GT) {
                    lemma_scan_tag_rest_resolved(s, p1 + 1, base);
                }
            } else if is_name_start(s[p1]) {
                let a = scan_attr(s, p1, base);
                lemma_scan_attr(s, p1, base);
                lemma_scan_attr_resolved(s, p1, base);
                lemma_scan_tag_rest_resolved(s, a.0, base);
                lemma_resolved_concat(a.1, scan_tag_rest(s, a.0, base).1, s, base);
            } else {
                lemma_scan_tag_rest_resolved(s, p1 + 1, base);
            }
        }
    }
}

proof fn lemma_url_repls_resolved(s: Seq<u8>, pos: int, base: Seq<char>)
    ensures
        rewrites_resolved(url_repls(s, pos, base), s, base),
    decreases s.len() - pos,
{
    if 0 <= pos < s.len() {
        if s[pos] != LT {
            lemma_url_repls_resolved(s, pos + 1, base);
        } else {
            let r = at_lt(s, pos, base);
            lemma_at_lt(s, pos, base);
            lemma_url_repls_resolved(s, r.0, base);
            if pos + 1 < s.len() && is_alpha(s[pos + 1]) {
                let ne = run_end(s, pos + 1, tag_name_pred());
                lemma_scan_tag_rest_resolved(s, ne, base);
            }
            lemma_resolved_concat(r.1, url_repls(s, r.0, base), s, base);
        }
    }
}

/// A rewrite that replaces a non-empty, scheme-less value that is not a
/// fragment and is UTF-8 with the different URL that value resolves to
/// against `base`, in UTF-8.
pub open spec fn rewrite_resolves(s: Seq<u8>, r: Repl, base: Seq<char>) -> bool {
    let v = s.subrange(r.start, r.end);
    &&& should_resolve(v)
    &&& valid_utf8(v)
    &&& url_joined(base, decode_utf8(v)) == Some(decode_utf8(r.bytes))
    &&& decode_utf8(r.bytes) != decode_utf8(v)
    &&& r.bytes == encode_utf8(decode_utf8(r.bytes))
}

/// Resolution only ever rewrites attribute values that need it: every
/// rewrite of a text replaces a value that should be resolved by its
/// resolution (`rewrite_resolves`). The rewrites lie in order without
/// overlap, and the bytes between them are copied unchanged (`spliced`).
pub proof fn lemma_rewrites_only_resolvable_values(html: Seq<char>, base: Seq<char>)
    ensures
        ordered(url_repls(encode_utf8(html), 0, base), 0, encode_utf8(html).len() as int),
        forall|i: int|
            0 <= i < url_repls(encode_utf8(html), 0, base).len() ==> rewrite_resolves(
                encode_utf8(html),
                #[trigger] url_repls(encode_utf8(html), 0, base)[i],
                base,
            ),
{
    let s = encode_utf8(html);
    lemma_url_repls(s, 0, base);
    lemma_url_repls_resolved(s, 0, base);
    let rs = url_repls(s, 0, base);
    assert forall|i: int| 0 <= i < rs.len() implies rewrite_resolves(s, #[trigger] rs[i], base) by {
        let v = s.subrange(rs[i].start, rs[i].end);
        assert(resolved_value(v, base) == Some(rs[i].bytes));
        let j = url_joined(base, decode_utf8(v))->0;
        vstd::utf8::encode_utf8_decode_utf8(j);
        assert(decode_utf8(rs[i].bytes) == j);
    }
}

// ---------------------------------------------------------------------------
// The scanner
// ---------------------------------------------------------------------------

/// One rewrite, as executable values.
pub struct Replacement {
    pub start: usize,
    pub end: usize,
    pub bytes: Vec<u8>,
}

pub open spec fn repl_view(r: Replacement) -> Repl {
    Repl { start: r.start as int, end: r.end as int, bytes: r.bytes@ }
}

pub open spec fn repls_view(v: Seq<Replacement>) -> Seq<Repl> {
    v.map_values(|r: Replacement| repl_view(r))
}

fn push_repl(out: &mut Vec<Replacement>, r: Replacement)
    ensures
        repls_view(final(out)@) == repls_view(old(out)@).push(repl_view(r)),
{
    let ghost old_v = out@;
    out.push(r);
    assert(repls_view(out@) =~= repls_view(old_v).push(repl_view(r)));
}

pub fn is_name_start_exec(b: u8) -> (r: bool)
    ensures
        r == is_name_start(b),
{
    b == COLON || is_alpha_exec(b) || b == UNDERSCORE || b >= 0x80
}

pub fn has_scheme_exec(v: &[u8]) -> (r: bool)
    ensures
        r == has_scheme(v@),
{
    if v.len() == 0 || !is_alpha_exec(v[0]) {
        return false;
    }
    let mut k: usize = 1;
    while k < v.len()
        invariant
            1 <= k <= v@.len(),
            is_alpha(v@[0]),
            scheme_rest(v@, 1) == scheme_rest(v@, k as int),
        decreases v@.len() - k,
    {
        let b = v[k];
        if b == COLON {
            assert(scheme_rest(v@, k as int));
            return true;
        }
        if !(is_alpha_exec(b) || is_digit_exec(b) || b == PLUS || b == DASH || b == DOT) {
            return false;
        }
        k += 1;
    }
    false
}

pub fn should_resolve_exec(v: &[u8]) -> (r: bool)
    ensures
        r == should_resolve(v@),
{
    v.len() > 0 && v[0] != HASH && !has_scheme_exec(v)
}

/// The bytes a value is rewritten to, if any (`resolved_value`).
pub fn resolved_value_exec(v: &[u8], base: &str) -> (r: Option<Vec<u8>>)
    ensures
        match r {
            Some(b) => resolved_value(v@, base@) == Some(b@),
            None => resolved_value(v@, base@) is None,
        },
{
    if !should_resolve_exec(v) {
        return None;
    }
    match utf8_text(v) {
        None => None,
        Some(text) => match join_url(base, text.as_str()) {
            None => None,
            Some(joined) => {
                if crate::chars::text_eq(joined.as_str(), text.as_str()) {
                    None
                } else {
                    let bytes = joined.as_str().as_bytes();
                    Some(vstd::slice::slice_to_vec(bytes))
                }
            },
        },
    }
}

fn trim_range(s: &[u8], vs: usize, ve: usize) -> (r: (usize, usize))
    requires
        vs <= ve <= s@.len(),
    ensures
        r.0 == trim_lo(s@, vs as int, ve as int),
        r.1 == trim_hi(s@, r.0 as int, ve as int),
{
    let mut lo = vs;
    while lo < ve && is_ws_exec(s[lo])
        invariant
            vs <= lo <= ve <= s@.len(),
            trim_lo(s@, vs as int, ve as int) == trim_lo(s@, lo as int, ve as int),
        decreases ve - lo,
    {
        lo += 1;
    }
    let mut hi = ve;
    while hi > lo && is_ws_exec(s[hi - 1])
        invariant
            lo <= hi <= ve <= s@.len(),
            trim_hi(s@, lo as int, ve as int) == trim_hi(s@, lo as int, hi as int),
        decreases hi - lo,
    {
        hi -= 1;
    }
    (lo, hi)
}

/// Appends the rewrite of the URL value at `vs..ve` (`value_repl`).
fn push_value_repl(s: &[u8], vs: usize, ve: usize, base: &str, out: &mut Vec<Replacement>)
    requires
        vs <= ve <= s@.len(),
    ensures
        repls_view(final(out)@) == repls_view(old(out)@) + value_repl(s@, vs as int, ve as int, base@),
{
    let (lo, hi) = trim_range(s, vs, ve);
    if lo >= hi {
        assert(repls_view(out@) + Seq::<Repl>::empty() =~= repls_view(out@));
        return;
    }
    proof {
        lemma_trim(s@, vs as int, ve as int);
    }
    let value = vstd::slice::slice_subrange(s, lo, hi);
    match resolved_value_exec(value, base) {
        Some(b) => {
            let ghost before = repls_view(out@);
            let ghost bv = b@;
            push_repl(out, Replacement { start: lo, end: hi, bytes: b });
            assert(before.push(Repl { start: lo as int, end: hi as int, bytes: bv }) =~= before + seq![
                Repl { start: lo as int, end: hi as int, bytes: bv },
            ]);
        },
        None => {
            assert(repls_view(out@) + Seq::<Repl>::empty() =~= repls_view(out@));
        },
    }
}

fn run_within_sep(s: &[u8], k: usize, end: usize) -> (r: usize)
    requires
        k <= end <= s@.len(),
    ensures
        r == run_within(s@, k as int, end as int, sep_pred()),
{
    let mut i = k;
    while i < end && (is_ws_exec(s[i]) || s[i] == COMMA)
        invariant
            k <= i <= end <= s@.len(),
            run_within(s@, k as int, end as int, sep_pred()) == run_within(s@, i as int, end as int, sep_pred()),
        decreases end - i,
    {
        i += 1;
    }
    i
}

fn run_within_non_ws(s: &[u8], k: usize, end: usize) -> (r: usize)
    requires
        k <= end <= s@.len(),
    ensures
        r == run_within(s@, k as int, end as int, non_ws_pred()),
{
    let mut i = k;
    while i < end && !is_ws_exec(s[i])
        invariant
            k <= i <= end <= s@.len(),
            run_within(s@, k as int, end as int, non_ws_pred()) == run_within(
                s@,
                i as int,
                end as int,
                non_ws_pred(),
            ),
        decreases end - i,
    {
        i += 1;
    }
    i
}

fn run_within_non_comma(s: &[u8], k: usize, end: usize) -> (r: usize)
    requires
        k <= end <= s@.len(),
    ensures
        r == run_within(s@, k as int, end as int, non_comma_pred()),
{
    let mut i = k;
    while i < end && s[i] != COMMA
        invariant
            k <= i <= end <= s@.len(),
            run_within(s@, k as int, end as int, non_comma_pred()) == run_within(
                s@,
                i as int,
                end as int,
                non_comma_pred(),
            ),
        decreases end - i,
    {
        i += 1;
    }
    i
}

/// Appends the rewrites of a `srcset` value (`srcset_repls`).
fn push_srcset_repls(s: &[u8], vs: usize, ve: usize, base: &str, out: &mut Vec<Replacement>)
    requires
        vs <= ve <= s@.len(),
    ensures
        repls_view(final(out)@) == repls_view(old(out)@) + srcset_repls(s@, vs as int, ve as int, base@),
{
    let ghost total = repls_view(out@) + srcset_repls(s@, vs as int, ve as int, base@);
    let mut i = vs;
    while i < ve
        invariant
            vs <= i <= ve <= s@.len(),
            total == repls_view(old(out)@) + srcset_repls(s@, vs as int, ve as int, base@),
            repls_view(out@) + srcset_repls(s@, i as int, ve as int, base@) == total,
        decreases ve - i,
    {
        let i1 = run_within_sep(s, i, ve);
        proof {
            lemma_run_within(s@, i as int, ve as int, sep_pred());
        }
        if i1 >= ve {
            assert(srcset_repls(s@, i as int, ve as int, base@) =~= Seq::<Repl>::empty());
            assert(repls_view(out@) + Seq::<Repl>::empty() =~= repls_view(out@));
            return;
        }
        let i2 = run_within_non_ws(s, i1, ve);
        proof {
            lemma_run_within(s@, i1 as int, ve as int, non_ws_pred());
        }
        let mut ue = i2;
        while ue > i1 && s[ue - 1] == COMMA
            invariant
                i1 <= ue <= i2 <= ve <= s@.len(),
                strip_commas(s@, i1 as int, i2 as int) == strip_commas(s@, i1 as int, ue as int),
            decreases ue - i1,
        {
            ue -= 1;
        }
        let ghost before = repls_view(out@);
        let ghost here = if ue > i1 { value_repl(s@, i1 as int, ue as int, base@) } else { seq![] };
        if ue > i1 {
            push_value_repl(s, i1, ue, base, out);
        } else {
            assert(before + Seq::<Repl>::empty() =~= before);
        }
        let i3 = if ue < i2 { i2 } else { run_within_non_comma(s, i2, ve) };
        proof {
            lemma_run_within(s@, i2 as int, ve as int, non_comma_pred());
            assert(srcset_repls(s@, i as int, ve as int, base@) == here + srcset_repls(s@, i3 as int, ve as int, base@));
            assert(before + (here + srcset_repls(s@, i3 as int, ve as int, base@)) =~= (before + here) + srcset_repls(
                s@,
                i3 as int,
                ve as int,
                base@,
            ));
        }
        i = i3;
    }
    assert(repls_view(out@) + Seq::<Repl>::empty() =~= repls_view(out@));
}

/// Appends the rewrites of an attribute value (`attr_value_repls`); the
/// attribute's name is `s[ns..ne]`.
fn push_attr_value_repls(
    s: &[u8],
    ns: usize,
    ne: usize,
    vs: usize,
    ve: usize,
    base: &str,
    out: &mut Vec<Replacement>,
)
    requires
        ns <= ne <= s@.len(),
        vs <= ve <= s@.len(),
    ensures
        repls_view(final(out)@) == repls_view(old(out)@) + attr_value_repls(
            s@,
            s@.subrange(ns as int, ne as int),
            vs as int,
            ve as int,
            base@,
        ),
{
    let href: [u8; 4] = [0x68, 0x72, 0x65, 0x66];
    let src: [u8; 3] = [0x73, 0x72, 0x63];
    let poster: [u8; 6] = [0x70, 0x6f, 0x73, 0x74, 0x65, 0x72];
    let srcset: [u8; 6] = [0x73, 0x72, 0x63, 0x73, 0x65, 0x74];
    assert(href@ == b_href());
    assert(src@ == b_src());
    assert(poster@ == b_poster());
    assert(srcset@ == b_srcset());
    if range_eq_ic(s, ns, ne, &href) || range_eq_ic(s, ns, ne, &src) || range_eq_ic(s, ns, ne, &poster) {
        push_value_repl(s, vs, ve, base, out);
    } else if range_eq_ic(s, ns, ne, &srcset) {
        push_srcset_repls(s, vs, ve, base, out);
    } else {
        assert(repls_view(out@) + Seq::<Repl>::empty() =~= repls_view(out@));
    }
}

fn run_attr_name(s: &[u8], k: usize) -> (r: usize)
    requires
        k <= s@.len(),
    ensures
        r == run_end(s@, k as int, attr_name_pred()),
{
    let mut i = k;
    while i < s.len() && !(is_ws_exec(s[i]) || s[i] == EQ || s[i] == GT || s[i] == SLASH)
        invariant
            k <= i <= s@.len(),
            run_end(s@, k as int, attr_name_pred()) == run_end(s@, i as int, attr_name_pred()),
        decreases s@.len() - i,
    {
        i += 1;
    }
    i
}

fn run_not_byte(s: &[u8], k: usize, q: u8) -> (r: usize)
    requires
        k <= s@.len(),
    ensures
        r == run_end(s@, k as int, not_byte_pred(q)),
{
    let mut i = k;
    while i < s.len() && s[i] != q
        invariant
            k <= i <= s@.len(),
            run_end(s@, k as int, not_byte_pred(q)) == run_end(s@, i as int, not_byte_pred(q)),
        decreases s@.len() - i,
    {
        i += 1;
    }
    i
}

fn run_unquoted(s: &[u8], k: usize) -> (r: usize)
    requires
        k <= s@.len(),
    ensures
        r == run_end(s@, k as int, unquoted_pred()),
{
    let mut i = k;
    while i < s.len() && !is_ws_exec(s[i]) && s[i] != GT
        invariant
            k <= i <= s@.len(),
            run_end(s@, k as int, unquoted_pred()) == run_end(s@, i as int, unquoted_pred()),
        decreases s@.len() - i,
    {
        i += 1;
    }
    i
}

fn run_tag_name(s: &[u8], k: usize) -> (r: usize)
    requires
        k <= s@.len(),
    ensures
        r == run_end(s@, k as int, tag_name_pred()),
{
    let mut i = k;
    while i < s.len() && is_tag_name_byte_exec(s[i])
        invariant
            k <= i <= s@.len(),
            run_end(s@, k as int, tag_name_pred()) == run_end(s@, i as int, tag_name_pred()),
        decreases s@.len() - i,
    {
        i += 1;
    }
    i
}

/// Scans the attribute whose name starts at `p` (`scan_attr`).
fn scan_attr_exec(s: &[u8], p: usize, base: &str, out: &mut Vec<Replacement>) -> (np: usize)
    requires
        p < s@.len(),
        is_name_start(s@[p as int]),
    ensures
        np == scan_attr(s@, p as int, base@).0,
        repls_view(final(out)@) == repls_view(old(out)@) + scan_attr(s@, p as int, base@).1,
{
    proof {
        lemma_run_end(s@, p as int, attr_name_pred());
    }
    let ne = run_attr_name(s, p);
    proof {
        lemma_run_end(s@, ne as int, ws_pred());
    }
    let p2 = run_ws(s, ne);
    if p2 >= s.len() || s[p2] != EQ {
        assert(repls_view(out@) + Seq::<Repl>::empty() =~= repls_view(out@));
        return p2;
    }
    proof {
        lemma_run_end(s@, p2 + 1, ws_pred());
    }
    let p3 = run_ws(s, p2 + 1);
    if p3 >= s.len() {
        assert(repls_view(out@) + Seq::<Repl>::empty() =~= repls_view(out@));
        return p3;
    }
    let q = s[p3];
    if q == DQUOTE || q == SQUOTE {
        proof {
            lemma_run_end(s@, p3 + 1, not_byte_pred(q));
        }
        let p4 = run_not_byte(s, p3 + 1, q);
        if p4 >= s.len() {
            assert(repls_view(out@) + Seq::<Repl>::empty() =~= repls_view(out@));
            return s.len();
        }
        push_attr_value_repls(s, p, ne, p3 + 1, p4, base, out);
        p4 + 1
    } else {
        proof {
            lemma_run_end(s@, p3 as int, unquoted_pred());
        }
        let p4 = run_unquoted(s, p3);
        push_attr_value_repls(s, p, ne, p3, p4, base, out);
        p4
    }
}

/// Scans the rest of a start tag from `p` (`scan_tag_rest`): the position
/// after it and whether it closed with `/>`.
fn scan_tag_rest_exec(s: &[u8], p: usize, base: &str, out: &mut Vec<Replacement>) -> (r: (usize, bool))
    requires
        p <= s@.len(),
    ensures
        r.0 == scan_tag_rest(s@, p as int, base@).0,
        r.1 == scan_tag_rest(s@, p as int, base@).2,
        repls_view(final(out)@) == repls_view(old(out)@) + scan_tag_rest(s@, p as int, base@).1,
{
    let ghost total = repls_view(out@) + scan_tag_rest(s@, p as int, base@).1;
    let ghost goal = scan_tag_rest(s@, p as int, base@);
    let mut pos = p;
    while pos < s.len()
        invariant
            p <= pos <= s@.len(),
            goal == scan_tag_rest(s@, p as int, base@),
            scan_tag_rest(s@, pos as int, base@).0 == goal.0,
            scan_tag_rest(s@, pos as int, base@).2 == goal.2,
            repls_view(out@) + scan_tag_rest(s@, pos as int, base@).1 == total,
            total == repls_view(old(out)@) + goal.1,
        decreases s@.len() - pos,
    {
        proof {
            lemma_run_end(s@, pos as int, ws_pred());
        }
        let p1 = run_ws(s, pos);
        if p1 >= s.len() {
            assert(scan_tag_rest(s@, pos as int, base@).0 == p1);
            assert(!scan_tag_rest(s@, pos as int, base@).2);
            assert(scan_tag_rest(s@, pos as int, base@).1 =~= Seq::<Repl>::empty());
            assert(repls_view(out@) + Seq::<Repl>::empty() =~= repls_view(out@));
            return (p1, false);
        }
        let b = s[p1];
        if b == GT {
            assert(repls_view(out@) + Seq::<Repl>::empty() =~= repls_view(out@));
            return (p1 + 1, false);
        }
        if b == SLASH {
            if p1 + 1 < s.len() && s[p1 + 1] == GT {
                assert(repls_view(out@) + Seq::<Repl>::empty() =~= repls_view(out@));
                return (p1 + 2, true);
            }
            pos = p1 + 1;
        } else if is_name_start_exec(b) {
            let ghost before = repls_view(out@);
            let np = scan_attr_exec(s, p1, base, out);
            proof {
                lemma_scan_attr(s@, p1 as int, base@);
                let a = scan_attr(s@, p1 as int, base@);
                let r = scan_tag_rest(s@, a.0, base@);
                assert(before + (a.1 + r.1) =~= (before + a.1) + r.1);
            }
            pos = np;
        } else {
            pos = p1 + 1;
        }
    }
    assert(repls_view(out@) + Seq::<Repl>::empty() =~= repls_view(out@));
    (pos, false)
}

/// Scans the start tag whose `<` is at `pos` (`scan_start`).
fn scan_start_exec(s: &[u8], pos: usize, base: &str, out: &mut Vec<Replacement>) -> (np: usize)
    requires
        pos < s@.len(),
    ensures
        np == scan_start(s@, pos as int, base@).0,
        repls_view(final(out)@) == repls_view(old(out)@) + scan_start(s@, pos as int, base@).1,
{
    let n = s.len();
    proof {
        lemma_run_end(s@, pos + 1, tag_name_pred());
    }
    let ne = run_tag_name(s, pos + 1);
    let (after, self_closing) = scan_tag_rest_exec(s, ne, base, out);
    proof {
        lemma_scan_tag_rest(s@, ne as int, base@);
    }
    let script: [u8; 6] = [0x73, 0x63, 0x72, 0x69, 0x70, 0x74];
    let style: [u8; 5] = [0x73, 0x74, 0x79, 0x6c, 0x65];
    assert(script@ == b_script());
    assert(style@ == b_style());
    if !self_closing && range_eq_ic(s, pos + 1, ne, &script) {
        skip_raw_text_exec(s, after, &script)
    } else if !self_closing && range_eq_ic(s, pos + 1, ne, &style) {
        skip_raw_text_exec(s, after, &style)
    } else {
        after
    }
}

/// Every rewrite that scanning `s` finds (`url_repls` from the start).
fn collect_replacements(s: &[u8], base: &str) -> (out: Vec<Replacement>)
    ensures
        repls_view(out@) == url_repls(s@, 0, base@),
{
    let mut out: Vec<Replacement> = Vec::new();
    let ghost total = url_repls(s@, 0, base@);
    assert(repls_view(out@) =~= Seq::<Repl>::empty());
    assert(repls_view(out@) + total =~= total);
    let mut pos: usize = 0;
    while pos < s.len()
        invariant
            pos <= s@.len(),
            repls_view(out@) + url_repls(s@, pos as int, base@) == total,
        decreases s@.len() - pos,
    {
        if s[pos] != LT {
            pos += 1;
        } else {
            proof {
                lemma_at_lt(s@, pos as int, base@);
            }
            let ghost before = repls_view(out@);
            let ghost r = at_lt(s@, pos as int, base@);
            let np = if pos + 1 >= s.len() {
                assert(before + Seq::<Repl>::empty() =~= before);
                s.len()
            } else {
                let next = s[pos + 1];
                if next == BANG {
                    let comment_open: [u8; 4] = [LT, BANG, DASH, DASH];
                    let comment_close: [u8; 3] = [DASH, DASH, GT];
                    let cdata_open: [u8; 9] = [LT, BANG, 0x5b, 0x43, 0x44, 0x41, 0x54, 0x41, 0x5b];
                    let cdata_close: [u8; 3] = [0x5d, 0x5d, GT];
                    let gt: [u8; 1] = [GT];
                    assert(comment_open@ == b_comment_open());
                    assert(comment_close@ == b_comment_close());
                    assert(cdata_open@ == b_cdata_open());
                    assert(cdata_close@ == b_cdata_close());
                    assert(gt@ == b_gt());
                    assert(before + Seq::<Repl>::empty() =~= before);
                    if bytes_match_at(s, pos, &comment_open) {
                        skip_past_exec(s, pos, &comment_close)
                    } else if bytes_match_at(s, pos, &cdata_open) {
                        skip_past_exec(s, pos, &cdata_close)
                    } else {
                        skip_past_exec(s, pos, &gt)
                    }
                } else if next == QUESTION {
                    let pi_close: [u8; 2] = [QUESTION, GT];
                    assert(pi_close@ == b_pi_close());
                    assert(before + Seq::<Repl>::empty() =~= before);
                    skip_past_exec(s, pos, &pi_close)
                } else if next == SLASH {
                    let gt: [u8; 1] = [GT];
                    assert(gt@ == b_gt());
                    assert(before + Seq::<Repl>::empty() =~= before);
                    skip_past_exec(s, pos, &gt)
                } else if is_alpha_exec(next) {
                    scan_start_exec(s, pos, base, &mut out)
                } else {
                    assert(before + Seq::<Repl>::empty() =~= before);
                    pos + 1
                }
            };
            proof {
                assert(np == r.0);
                assert(repls_view(out@) == before + r.1);
                assert(before + (r.1 + url_repls(s@, r.0, base@)) =~= (before + r.1) + url_repls(s@, r.0, base@));
            }
            pos = np;
        }
    }
    assert(repls_view(out@) + Seq::<Repl>::empty() =~= repls_view(out@));
    out
}

fn append_range(out: &mut Vec<u8>, s: &[u8], lo: usize, hi: usize)
    requires
        lo <= hi <= s@.len(),
    ensures
        final(out)@ == old(out)@ + s@.subrange(lo as int, hi as int),
{
    let ghost start = out@;
    let mut i = lo;
    while i < hi
        invariant
            lo <= i <= hi <= s@.len(),
            out@ == start + s@.subrange(lo as int, i as int),
        decreases hi - i,
    {
        out.push(s[i]);
        assert(start + s@.subrange(lo as int, i + 1) =~= (start + s@.subrange(lo as int, i as int)).push(s@[i as int]));
        i += 1;
    }
}

fn append_all(out: &mut Vec<u8>, v: &Vec<u8>)
    ensures
        final(out)@ == old(out)@ + v@,
{
    assert(v@.subrange(0, v@.len() as int) =~= v@);
    append_range(out, v.as_slice(), 0, v.len());
}

/// `s` with the rewrites applied (`spliced`).
fn splice(s: &[u8], rs: &Vec<Replacement>) -> (out: Vec<u8>)
    requires
        ordered(repls_view(rs@), 0, s@.len() as int),
    ensures
        out@ == spliced(s@, repls_view(rs@), 0),
{
    let ghost all = repls_view(rs@);
    let mut out: Vec<u8> = Vec::new();
    let mut copy_start: usize = 0;
    let mut k: usize = 0;
    assert(all.skip(0) =~= all);
    assert(out@ + spliced(s@, all, 0) =~= spliced(s@, all, 0));
    while k < rs.len()
        invariant
            k <= rs@.len(),
            all == repls_view(rs@),
            copy_start <= s@.len(),
            ordered(all.skip(k as int), copy_start as int, s@.len() as int),
            out@ + spliced(s@, all.skip(k as int), copy_start as int) == spliced(s@, all, 0),
        decreases rs@.len() - k,
    {
        let ghost rest = all.skip(k as int);
        assert(rest[0] == repl_view(rs@[k as int]));
        assert(rest.drop_first() =~= all.skip(k + 1));
        let r = &rs[k];
        let ghost before = out@;
        append_range(&mut out, s, copy_start, r.start);
        append_all(&mut out, &r.bytes);
        proof {
            let tail = spliced(s@, all.skip(k + 1), r.end as int);
            assert(before + (s@.subrange(copy_start as int, r.start as int) + r.bytes@ + tail) =~= (before
                + s@.subrange(copy_start as int, r.start as int) + r.bytes@) + tail);
        }
        copy_start = r.end;
        k += 1;
    }
    assert(all.skip(k as int) =~= Seq::<Repl>::empty());
    append_range(&mut out, s, copy_start, s.len());
    out
}

/// The input bytes with their relative URLs resolved, or `None` when
/// nothing needs resolving.
fn rewritten_bytes(bytes: &[u8], base: &str) -> (r: Option<Vec<u8>>)
    ensures
        match r {
            None => url_repls(bytes@, 0, base@).len() == 0,
            Some(v) => url_repls(bytes@, 0, base@).len() > 0 && v@ == spliced(
                bytes@,
                url_repls(bytes@, 0, base@),
                0,
            ),
        },
{
    let replacements = collect_replacements(bytes, base);
    if replacements.len() == 0 {
        return None;
    }
    proof {
        lemma_url_repls(bytes@, 0, base@);
    }
    Some(splice(bytes, &replacements))
}

/// Resolves the relative URLs in `html` against the URL `base`; the input
/// comes back unchanged when nothing needs resolving.
pub fn resolving_relative_urls(html: &str, base: &str) -> (r: String)
    ensures
        r@ == resolved_html(html@, base@),
{
    let bytes = html.as_bytes();
    match rewritten_bytes(bytes, base) {
        Some(rewritten) => match utf8_text(rewritten.as_slice()) {
            Some(text) => text,
            None => String::from_str(html),
        },
        None => String::from_str(html),
    }
}

} // verus!
