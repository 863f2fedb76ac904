//! Article-title sanitization.
//!
//! A title may carry inline HTML. The detail pane renders a harmless
//! subset (`<em>`, `<b>`, `<abbr>`, ...) while everything else is
//! neutralized. A tag is judged by its name alone: the run of ASCII
//! letters after an optional leading `/`; attributes are ignored.
//!
//! | tag        | `for_html = true`          | `for_html = false`     |
//! |------------|----------------------------|------------------------|
//! | allowed    | kept as written            | dropped, text kept     |
//! | disallowed | escaped as `&lt;...&gt;`   | kept as written        |
//!
//! An unclosed tag never gains a `>` that the input did not have.
use vstd::prelude::*;
use crate::chars::{chars_of, push_range, range_eq, string_from_chars};

verus! {

/// ASCII letter test used for tag names.
pub open spec fn is_ascii_letter(c: char) -> bool {
    ('a' <= c && c <= 'z') || ('A' <= c && c <= 'Z')
}

/// The allowlist: inline, presentation-only tag names, matched exactly
/// (case-sensitive).
pub open spec fn is_allowed_tag_name(n: Seq<char>) -> bool {
    ||| n == seq!['a', 'b', 'b', 'r']
    ||| n == seq!['b']
    ||| n == seq!['b', 'd', 'i']
    ||| n == seq!['b', 'd', 'o']
    ||| n == seq!['c', 'i', 't', 'e']
    ||| n == seq!['c', 'o', 'd', 'e']
    ||| n == seq!['d', 'e', 'l']
    ||| n == seq!['d', 'f', 'n']
    ||| n == seq!['e', 'm']
    ||| n == seq!['i']
    ||| n == seq!['i', 'n', 's']
    ||| n == seq!['k', 'b', 'd']
    ||| n == seq!['m', 'a', 'r', 'k']
    ||| n == seq!['q']
    ||| n == seq!['s']
    ||| n == seq!['s', 'a', 'm', 'p']
    ||| n == seq!['s', 'm', 'a', 'l', 'l']
    ||| n == seq!['s', 't', 'r', 'o', 'n', 'g']
    ||| n == seq!['s', 'u', 'b']
    ||| n == seq!['s', 'u', 'p']
    ||| n == seq!['t', 'i', 'm', 'e']
    ||| n == seq!['u']
    ||| n == seq!['v', 'a', 'r']
}

/// Index of the first `>` in `s` at or after `k`, or `s.len()` if none.
pub open spec fn first_gt_from(s: Seq<char>, k: int) -> int
    decreases s.len() - k,
{
    if k >= s.len() {
        s.len() as int
    } else if s[k] == '>' {
        k
    } else {
        first_gt_from(s, k + 1)
    }
}

/// End of the run of ASCII letters in `s` starting at `k`, bounded by `end`.
pub open spec fn letter_run_end(s: Seq<char>, k: int, end: int) -> int
    decreases end - k,
{
    if k >= end || !is_ascii_letter(s[k]) {
        k
    } else {
        letter_run_end(s, k + 1, end)
    }
}

/// How a tag with body `body` (the text between `<` and `>`) is written out.
pub open spec fn tag_rendering(body: Seq<char>, allowed: bool, for_html: bool, closed: bool) -> Seq<char> {
    if allowed {
        if for_html {
            seq!['<'] + body + (if closed { seq!['>'] } else { seq![] })
        } else {
            seq![]
        }
    } else if for_html {
        seq!['&', 'l', 't', ';'] + body + (if closed { seq!['&', 'g', 't', ';'] } else { seq![] })
    } else {
        seq!['<'] + body + (if closed { seq!['>'] } else { seq![] })
    }
}

pub proof fn lemma_first_gt_bounds(s: Seq<char>, k: int)
    requires
        0 <= k,
    ensures
        k <= first_gt_from(s, k) || k > s.len(),
        first_gt_from(s, k) <= s.len(),
        k <= s.len() ==> k <= first_gt_from(s, k),
        first_gt_from(s, k) < s.len() ==> s[first_gt_from(s, k)] == '>',
        forall|m: int| k <= m < first_gt_from(s, k) ==> s[m] != '>',
    decreases s.len() - k,
{
    if k < s.len() && s[k] != '>' {
        lemma_first_gt_bounds(s, k + 1);
    }
}

pub proof fn lemma_letter_run_bounds(s: Seq<char>, k: int, end: int)
    requires
        0 <= k <= end <= s.len(),
    ensures
        k <= letter_run_end(s, k, end) <= end,
        forall|m: int| k <= m < letter_run_end(s, k, end) ==> is_ascii_letter(s[m]),
        letter_run_end(s, k, end) < end ==> !is_ascii_letter(s[letter_run_end(s, k, end)]),
    decreases end - k,
{
    if k < end && is_ascii_letter(s[k]) {
        lemma_letter_run_bounds(s, k + 1, end);
    }
}

/// The sanitized form of `s[i..]`.
pub open spec fn sanitized_from(s: Seq<char>, i: int, for_html: bool) -> Seq<char>
    decreases s.len() - i,
{
    if i < 0 || i >= s.len() {
        seq![]
    } else if s[i] != '<' {
        seq![s[i]] + sanitized_from(s, i + 1, for_html)
    } else {
        let j = first_gt_from(s, i + 1);
        proof {
            lemma_first_gt_bounds(s, i + 1);
        }
        if j == i + 1 {
            sanitized_from(s, i + 1, for_html)
        } else {
            let ns = if s[i + 1] == '/' { i + 2 } else { i + 1 };
            let name = s.subrange(ns, letter_run_end(s, ns, j));
            let closed = j < s.len();
            let piece = tag_rendering(s.subrange(i + 1, j), is_allowed_tag_name(name), for_html, closed);
            if closed {
                piece + sanitized_from(s, j + 1, for_html)
            } else {
                piece
            }
        }
    }
}

/// The sanitized form of a whole title.
pub open spec fn sanitized(s: Seq<char>, for_html: bool) -> Seq<char> {
    sanitized_from(s, 0, for_html)
}

fn name_is(v: &[char], start: usize, end: usize, w: &[char]) -> (b: bool)
    requires
        start <= end <= v@.len(),
    ensures
        b == (v@.subrange(start as int, end as int) == w@),
{
    range_eq(v, start, end, w)
}

/// True when `v[start..end]` is one of the allowlisted tag names.
fn tag_is_allowed(v: &[char], start: usize, end: usize) -> (b: bool)
    requires
        start <= end <= v@.len(),
    ensures
        b == is_allowed_tag_name(v@.subrange(start as int, end as int)),
{
    let abbr: [char; 4] = ['a', 'b', 'b', 'r'];
    let b: [char; 1] = ['b'];
    let bdi: [char; 3] = ['b', 'd', 'i'];
    let bdo: [char; 3] = ['b', 'd', 'o'];
    let cite: [char; 4] = ['c', 'i', 't', 'e'];
    let code: [char; 4] = ['c', 'o', 'd', 'e'];
    let del: [char; 3] = ['d', 'e', 'l'];
    let dfn: [char; 3] = ['d', 'f', 'n'];
    let em: [char; 2] = ['e', 'm'];
    let i: [char; 1] = ['i'];
    let ins: [char; 3] = ['i', 'n', 's'];
    let kbd: [char; 3] = ['k', 'b', 'd'];
    let mark: [char; 4] = ['m', 'a', 'r', 'k'];
    let q: [char; 1] = ['q'];
    let s: [char; 1] = ['s'];
    let samp: [char; 4] = ['s', 'a', 'm', 'p'];
    let small: [char; 5] = ['s', 'm', 'a', 'l', 'l'];
    let strong: [char; 6] = ['s', 't', 'r', 'o', 'n', 'g'];
    let sub: [char; 3] = ['s', 'u', 'b'];
    let sup: [char; 3] = ['s', 'u', 'p'];
    let time: [char; 4] = ['t', 'i', 'm', 'e'];
    let u: [char; 1] = ['u'];
    let var: [char; 3] = ['v', 'a', 'r'];
    assert(abbr@ == seq!['a', 'b', 'b', 'r']);
    assert(b@ == seq!['b']);
    assert(bdi@ == seq!['b', 'd', 'i']);
    assert(bdo@ == seq!['b', 'd', 'o']);
    assert(cite@ == seq!['c', 'i', 't', 'e']);
    assert(code@ == seq!['c', 'o', 'd', 'e']);
    assert(del@ == seq!['d', 'e', 'l']);
    assert(dfn@ == seq!['d', 'f', 'n']);
    assert(em@ == seq!['e', 'm']);
    assert(i@ == seq!['i']);
    assert(ins@ == seq!['i', 'n', 's']);
    assert(kbd@ == seq!['k', 'b', 'd']);
    assert(mark@ == seq!['m', 'a', 'r', 'k']);
    assert(q@ == seq!['q']);
    assert(s@ == seq!['s']);
    assert(samp@ == seq!['s', 'a', 'm', 'p']);
    assert(small@ == seq!['s', 'm', 'a', 'l', 'l']);
    assert(strong@ == seq!['s', 't', 'r', 'o', 'n', 'g']);
    assert(sub@ == seq!['s', 'u', 'b']);
    assert(sup@ == seq!['s', 'u', 'p']);
    assert(time@ == seq!['t', 'i', 'm', 'e']);
    assert(u@ == seq!['u']);
    assert(var@ == seq!['v', 'a', 'r']);
    name_is(v, start, end, &abbr) || name_is(v, start, end, &b) || name_is(v, start, end, &bdi)
        || name_is(v, start, end, &bdo) || name_is(v, start, end, &cite) || name_is(v, start, end, &code)
        || name_is(v, start, end, &del) || name_is(v, start, end, &dfn) || name_is(v, start, end, &em)
        || name_is(v, start, end, &i) || name_is(v, start, end, &ins) || name_is(v, start, end, &kbd)
        || name_is(v, start, end, &mark) || name_is(v, start, end, &q) || name_is(v, start, end, &s)
        || name_is(v, start, end, &samp) || name_is(v, start, end, &small)
        || name_is(v, start, end, &strong) || name_is(v, start, end, &sub)
        || name_is(v, start, end, &sup) || name_is(v, start, end, &time) || name_is(v, start, end, &u)
        || name_is(v, start, end, &var)
}

/// Sanitizes a title that may contain HTML: allowlisted tags are kept
/// (HTML output) or dropped (plain text); other tags are escaped (HTML
/// output) or kept literally (plain text). Text outside tags, including
/// non-ASCII text, is copied unchanged.
pub fn sanitized_title(title: &str, for_html: bool) -> (out: String)
    ensures
        out@ == sanitized(title@, for_html),
{
    let v = chars_of(title);
    let count = v.len();
    let mut out: Vec<char> = Vec::new();
    let mut i: usize = 0;
    while i < count
        invariant
            count == v@.len(),
            i <= count,
            sanitized(v@, for_html) == out@ + sanitized_from(v@, i as int, for_html),
        decreases count - i,
    {
        let c = v[i];
        if c != '<' {
            out.push(c);
            i += 1;
            proof {
                assert(out@ + sanitized_from(v@, i as int, for_html)
                    =~= out@.drop_last() + (seq![c] + sanitized_from(v@, i as int, for_html)));
            }
            continue;
        }
        let mut j = i + 1;
        while j < count && v[j] != '>'
            invariant
                count == v@.len(),
                i < j <= count,
                first_gt_from(v@, i + 1) == first_gt_from(v@, j as int),
            decreases count - j,
        {
            j += 1;
        }
        proof {
            lemma_first_gt_bounds(v@, i + 1);
        }
        let tag_start = i + 1;
        let tag_end = j;
        if tag_start == tag_end {
            i += 1;
            continue;
        }
        let mut name_start = tag_start;
        if v[name_start] == '/' {
            name_start += 1;
        }
        let mut name_end = name_start;
        while name_end < tag_end && (('a' <= v[name_end] && v[name_end] <= 'z') || ('A' <= v[name_end] && v[name_end] <= 'Z'))
            invariant
                count == v@.len(),
                name_start <= name_end <= tag_end <= count,
                letter_run_end(v@, name_start as int, tag_end as int) == letter_run_end(v@, name_end as int, tag_end as int),
            decreases tag_end - name_end,
        {
            name_end += 1;
        }
        let is_allowed = tag_is_allowed(&v, name_start, name_end);
        let tag_was_closed = j < count;
        let ghost before = out@;
        if is_allowed {
            if for_html {
                out.push('<');
                push_range(&mut out, &v, tag_start, tag_end);
                if tag_was_closed {
                    out.push('>');
                }
            }
        } else if for_html {
            out.push('&');
            out.push('l');
            out.push('t');
            out.push(';');
            push_range(&mut out, &v, tag_start, tag_end);
            if tag_was_closed {
                out.push('&');
                out.push('g');
                out.push('t');
                out.push(';');
            }
        } else {
            out.push('<');
            push_range(&mut out, &v, tag_start, tag_end);
            if tag_was_closed {
                out.push('>');
            }
        }
        proof {
            let piece = tag_rendering(v@.subrange(tag_start as int, tag_end as int), is_allowed, for_html, tag_was_closed);
            assert(out@ =~= before + piece);
        }
        if tag_was_closed {
            i = j + 1;
        } else {
            i = count;
            assert(out@ + sanitized_from(v@, i as int, for_html) =~= out@);
        }
    }
    string_from_chars(&out)
}

/// A title with no `<` comes out unchanged, for either output mode.
pub proof fn lemma_plain_title_unchanged(s: Seq<char>, for_html: bool)
    requires
        !s.contains('<'),
    ensures
        sanitized(s, for_html) == s,
{
    lemma_plain_suffix_unchanged(s, 0, for_html);
    assert(s.subrange(0, s.len() as int) =~= s);
}

proof fn lemma_plain_suffix_unchanged(s: Seq<char>, i: int, for_html: bool)
    requires
        !s.contains('<'),
        0 <= i <= s.len(),
    ensures
        sanitized_from(s, i, for_html) == s.subrange(i, s.len() as int),
    decreases s.len() - i,
{
    if i < s.len() {
        assert(s[i] != '<') by {
            if s[i] == '<' {
                assert(s.contains('<'));
            }
        }
        lemma_plain_suffix_unchanged(s, i + 1, for_html);
        assert(s.subrange(i, s.len() as int) =~= seq![s[i]] + s.subrange(i + 1, s.len() as int));
    } else {
        assert(s.subrange(i, s.len() as int) =~= Seq::<char>::empty());
    }
}

/// A title without any `>` never gains one: no tag is ever closed by a
/// synthesized `>`.
pub proof fn lemma_no_synthesized_gt(s: Seq<char>, for_html: bool)
    requires
        !s.contains('>'),
    ensures
        !sanitized(s, for_html).contains('>'),
{
    lemma_no_gt_suffix(s, 0, for_html);
}

proof fn lemma_no_gt_suffix(s: Seq<char>, i: int, for_html: bool)
    requires
        !s.contains('>'),
        0 <= i,
    ensures
        !sanitized_from(s, i, for_html).contains('>'),
    decreases s.len() - i,
{
    if i < s.len() {
        let out = sanitized_from(s, i, for_html);
        if s[i] != '<' {
            lemma_no_gt_suffix(s, i + 1, for_html);
            assert(s[i] != '>') by {
                if s[i] == '>' {
                    assert(s.contains('>'));
                }
            }
            let rest = sanitized_from(s, i + 1, for_html);
            assert(out == seq![s[i]] + rest);
            assert forall|k: int| 0 <= k < out.len() implies out[k] != '>' by {
                if k > 0 {
                    assert(out[k] == rest[k - 1]);
                    assert(!rest.contains('>'));
                }
            }
        } else {
            lemma_first_gt_bounds(s, i + 1);
            let j = first_gt_from(s, i + 1);
            assert(j == s.len()) by {
                if j < s.len() {
                    assert(s.contains('>'));
                }
            }
            if j == i + 1 {
                lemma_no_gt_suffix(s, i + 1, for_html);
            } else {
                let body = s.subrange(i + 1, j);
                assert forall|k: int| 0 <= k < body.len() implies body[k] != '>' by {
                    if body[k] == '>' {
                        assert(s[i + 1 + k] == '>');
                        assert(s.contains('>'));
                    }
                }
                let ns = if s[i + 1] == '/' { i + 2 } else { i + 1 };
                lemma_letter_run_bounds(s, ns, j);
                let name = s.subrange(ns, letter_run_end(s, ns, j));
                let allowed = is_allowed_tag_name(name);
                assert(out == tag_rendering(body, allowed, for_html, false));
                if allowed && !for_html {
                    assert(out =~= Seq::<char>::empty());
                } else if !allowed && for_html {
                    let lt = seq!['&', 'l', 't', ';'];
                    assert(out =~= lt + body);
                    assert forall|k: int| 0 <= k < out.len() implies out[k] != '>' by {
                        if k >= 4 {
                            assert(out[k] == body[k - 4]);
                        }
                    }
                } else {
                    assert(out =~= seq!['<'] + body);
                    assert forall|k: int| 0 <= k < out.len() implies out[k] != '>' by {
                        if k >= 1 {
                            assert(out[k] == body[k - 1]);
                        }
                    }
                }
            }
        }
    }
}

} // verus!
