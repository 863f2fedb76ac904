//! Byte classification and scanning primitives for markup tokenizers.
use vstd::prelude::*;

verus! {

pub const TAB: u8 = 0x09;
pub const LF: u8 = 0x0a;
pub const FF: u8 = 0x0c;
pub const CR: u8 = 0x0d;
pub const SPACE: u8 = 0x20;
pub const BANG: u8 = 0x21;
pub const DQUOTE: u8 = 0x22;
pub const SQUOTE: u8 = 0x27;
pub const DASH: u8 = 0x2d;
pub const DOT: u8 = 0x2e;
pub const SLASH: u8 = 0x2f;
pub const COLON: u8 = 0x3a;
pub const LT: u8 = 0x3c;
pub const EQ: u8 = 0x3d;
pub const GT: u8 = 0x3e;
pub const QUESTION: u8 = 0x3f;
pub const LBRACKET: u8 = 0x5b;
pub const RBRACKET: u8 = 0x5d;
pub const UNDERSCORE: u8 = 0x5f;

/// ASCII whitespace as `u8::is_ascii_whitespace` defines it:
/// space, tab, line feed, form feed, carriage return.
pub open spec fn is_ws(b: u8) -> bool {
    b == SPACE || b == TAB || b == LF || b == FF || b == CR
}

pub open spec fn is_alpha(b: u8) -> bool {
    (0x41 <= b && b <= 0x5a) || (0x61 <= b && b <= 0x7a)
}

pub open spec fn is_digit(b: u8) -> bool {
    0x30 <= b && b <= 0x39
}

pub open spec fn is_alnum(b: u8) -> bool {
    is_alpha(b) || is_digit(b)
}

/// ASCII lowercase of one byte; other bytes are unchanged.
pub open spec fn lower(b: u8) -> u8 {
    if 0x41 <= b && b <= 0x5a {
        (b + 32) as u8
    } else {
        b
    }
}

/// ASCII case-insensitive equality of two byte strings.
pub open spec fn eq_ic(a: Seq<u8>, b: Seq<u8>) -> bool {
    a.len() == b.len() && forall|i: int| 0 <= i < a.len() ==> #[trigger] lower(a[i]) == lower(b[i])
}

/// True when `lit` occurs in `s` at position `p`.
pub open spec fn matches_at(s: Seq<u8>, p: int, lit: Seq<u8>) -> bool {
    0 <= p && p + lit.len() <= s.len() && s.subrange(p, p + lit.len()) == lit
}

/// The position just past the first occurrence of `lit` at or after `p`,
/// or `s.len()` when there is none.
pub open spec fn skip_past(s: Seq<u8>, p: int, lit: Seq<u8>) -> int
    decreases s.len() - p,
{
    if p < 0 || p >= s.len() || p + lit.len() > s.len() {
        s.len() as int
    } else if matches_at(s, p, lit) {
        p + lit.len()
    } else {
        skip_past(s, p + 1, lit)
    }
}

/// The end of the run of bytes satisfying `pred` that starts at `k`.
pub open spec fn run_end(s: Seq<u8>, k: int, pred: spec_fn(u8) -> bool) -> int
    decreases s.len() - k,
{
    if k < 0 || k >= s.len() || !pred(s[k]) {
        k
    } else {
        run_end(s, k + 1, pred)
    }
}

pub proof fn lemma_run_end(s: Seq<u8>, k: int, pred: spec_fn(u8) -> bool)
    requires
        0 <= k <= s.len(),
    ensures
        k <= run_end(s, k, pred) <= s.len(),
        forall|m: int| k <= m < run_end(s, k, pred) ==> pred(#[trigger] s[m]),
        run_end(s, k, pred) < s.len() ==> !pred(s[run_end(s, k, pred)]),
    decreases s.len() - k,
{
    if k < s.len() && pred(s[k]) {
        lemma_run_end(s, k + 1, pred);
    }
}

pub proof fn lemma_skip_past(s: Seq<u8>, p: int, lit: Seq<u8>)
    requires
        0 <= p <= s.len(),
        lit.len() > 0,
    ensures
        p <= skip_past(s, p, lit) <= s.len(),
        p < s.len() ==> p < skip_past(s, p, lit),
    decreases s.len() - p,
{
    if p + lit.len() <= s.len() && !matches_at(s, p, lit) {
        lemma_skip_past(s, p + 1, lit);
    }
}

/// Executable `matches_at`.
pub fn bytes_match_at(s: &[u8], p: usize, lit: &[u8]) -> (b: bool)
    ensures
        b == matches_at(s@, p as int, lit@),
{
    let n = s.len();
    if p > n || lit.len() > n - p {
        return false;
    }
    let mut i: usize = 0;
    while i < lit.len()
        invariant
            n == s@.len(),
            p + lit@.len() <= n,
            i <= lit@.len(),
            forall|k: int| 0 <= k < i ==> s@[p + k] == lit@[k],
        decreases lit@.len() - i,
    {
        if s[p + i] != lit[i] {
            assert(s@.subrange(p as int, p + lit@.len())[i as int] != lit@[i as int]);
            return false;
        }
        i += 1;
    }
    assert(s@.subrange(p as int, p + lit@.len()) =~= lit@);
    true
}

/// Executable `skip_past`.
pub fn skip_past_exec(s: &[u8], p: usize, lit: &[u8]) -> (r: usize)
    requires
        p <= s@.len(),
    ensures
        r == skip_past(s@, p as int, lit@),
{
    let n = s.len();
    let mut q = p;
    while q < n && lit.len() <= n - q
        invariant
            n == s@.len(),
            p <= q <= n,
            skip_past(s@, p as int, lit@) == skip_past(s@, q as int, lit@),
        decreases s@.len() + 1 - q,
    {
        if bytes_match_at(s, q, lit) {
            return q + lit.len();
        }
        q += 1;
    }
    n
}

pub fn lower_exec(b: u8) -> (r: u8)
    ensures
        r == lower(b),
{
    if 0x41 <= b && b <= 0x5a {
        b + 32
    } else {
        b
    }
}

pub fn is_ws_exec(b: u8) -> (r: bool)
    ensures
        r == is_ws(b),
{
    b == SPACE || b == TAB || b == LF || b == FF || b == CR
}

pub fn is_alpha_exec(b: u8) -> (r: bool)
    ensures
        r == is_alpha(b),
{
    (0x41 <= b && b <= 0x5a) || (0x61 <= b && b <= 0x7a)
}

pub fn is_digit_exec(b: u8) -> (r: bool)
    ensures
        r == is_digit(b),
{
    0x30 <= b && b <= 0x39
}

/// Executable `eq_ic` on the range `s[start..end]` against `lit`.
pub fn range_eq_ic(s: &[u8], start: usize, end: usize, lit: &[u8]) -> (b: bool)
    requires
        start <= end <= s@.len(),
    ensures
        b == eq_ic(s@.subrange(start as int, end as int), lit@),
{
    let ghost sub = s@.subrange(start as int, end as int);
    if end - start != lit.len() {
        return false;
    }
    let mut i: usize = 0;
    while i < lit.len()
        invariant
            end - start == lit@.len(),
            start <= end <= s@.len(),
            sub == s@.subrange(start as int, end as int),
            i <= lit@.len(),
            forall|k: int| 0 <= k < i ==> #[trigger] lower(sub[k]) == lower(lit@[k]),
        decreases lit@.len() - i,
    {
        if lower_exec(s[start + i]) != lower_exec(lit[i]) {
            assert(lower(sub[i as int]) != lower(lit@[i as int]));
            return false;
        }
        i += 1;
    }
    true
}

} // verus!
