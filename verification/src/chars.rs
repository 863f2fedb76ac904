//! Character-sequence helpers shared by the scanners and writers.
use vstd::prelude::*;

verus! {

/// The characters of `s`, in order.
pub fn chars_of(s: &str) -> (v: Vec<char>)
    ensures
        v@ == s@,
{
    let mut v: Vec<char> = Vec::new();
    for c in it: s.chars()
        invariant
            v@ == it.seq().take(it.index() as int),
    {
        v.push(c);
    }
    v
}

/// Builds a `String` holding exactly the characters of `v`.
///
/// Trusted: calls `Iterator::collect::<String>` over `v.iter()`, which std
/// documents as concatenating the characters in iteration order.
#[verifier::external_body]
pub fn string_from_chars(v: &[char]) -> (s: String)
    ensures
        s@ == v@,
{
    v.iter().collect()
}

/// Appends every character of `s` to `out`.
pub fn push_str_chars(out: &mut Vec<char>, s: &str)
    ensures
        final(out)@ == old(out)@ + s@,
{
    let ghost start = out@;
    for c in it: s.chars()
        invariant
            out@ == start + it.seq().take(it.index() as int),
    {
        out.push(c);
    }
}

/// Appends the characters `v[start..end]` to `out`.
pub fn push_range(out: &mut Vec<char>, v: &[char], start: usize, end: usize)
    requires
        start <= end <= v@.len(),
    ensures
        final(out)@ == old(out)@ + v@.subrange(start as int, end as int),
{
    let ghost base = out@;
    let mut k = start;
    while k < end
        invariant
            start <= k <= end <= v@.len(),
            out@ == base + v@.subrange(start as int, k as int),
        decreases end - k,
    {
        out.push(v[k]);
        k += 1;
        assert(v@.subrange(start as int, k as int) =~= v@.subrange(start as int, k - 1) + seq![v@[k - 1]]);
    }
}

/// True when `v[start..end]` equals `w`.
pub fn range_eq(v: &[char], start: usize, end: usize, w: &[char]) -> (b: bool)
    requires
        start <= end <= v@.len(),
    ensures
        b == (v@.subrange(start as int, end as int) == w@),
{
    if end - start != w.len() {
        assert(v@.subrange(start as int, end as int).len() != w@.len());
        return false;
    }
    let mut i: usize = 0;
    while i < w.len()
        invariant
            end - start == w@.len(),
            start <= end <= v@.len(),
            i <= w@.len(),
            forall|k: int| 0 <= k < i ==> v@[start + k] == w@[k],
        decreases w@.len() - i,
    {
        if v[start + i] != w[i] {
            assert(v@.subrange(start as int, end as int)[i as int] != w@[i as int]);
            return false;
        }
        i += 1;
    }
    assert(v@.subrange(start as int, end as int) =~= w@);
    true
}

} // verus!

verus! {

/// What `String::from_utf8_lossy` yields for `bytes`: the decoded text, with
/// each invalid sequence replaced by U+FFFD.
pub uninterp spec fn utf8_lossy(bytes: Seq<u8>) -> Seq<char>;

/// Decodes `bytes[start..end]` as UTF-8, replacing invalid sequences.
///
/// Trusted: calls `String::from_utf8_lossy`; the result is named
/// `utf8_lossy` of the bytes, which is a function of the bytes alone.
#[verifier::external_body]
pub fn lossy_text(bytes: &[u8], start: usize, end: usize) -> (s: String)
    requires
        start <= end <= bytes@.len(),
    ensures
        s@ == utf8_lossy(bytes@.subrange(start as int, end as int)),
{
    String::from_utf8_lossy(&bytes[start..end]).into_owned()
}

/// What `str::to_lowercase` yields for the text `s` (full Unicode
/// lowercase mapping).
pub uninterp spec fn lowercase_text(s: Seq<char>) -> Seq<char>;

/// Unicode lowercase of a string.
///
/// Trusted: calls `str::to_lowercase`; the result is named `lowercase_text`
/// of the input, a function of the input alone.
#[verifier::external_body]
pub fn to_lowercase(s: &str) -> (r: String)
    ensures
        r@ == lowercase_text(s@),
{
    s.to_lowercase()
}

/// `needle` occurs in `hay` as a contiguous run.
pub open spec fn contains_run(hay: Seq<char>, needle: Seq<char>) -> bool {
    exists|i: int| 0 <= i && i + needle.len() <= hay.len() && #[trigger] hay.subrange(i, i + needle.len()) == needle
}

/// Executable `contains_run`.
pub fn has_run(hay: &[char], needle: &[char]) -> (b: bool)
    ensures
        b == contains_run(hay@, needle@),
{
    let n = hay.len();
    let m = needle.len();
    if m > n {
        assert forall|i: int| 0 <= i && i + needle@.len() <= hay@.len() implies #[trigger] hay@.subrange(i, i + needle@.len()) != needle@ by {}
        return false;
    }
    let limit = n - m;
    let mut i: usize = 0;
    loop
        invariant
            n == hay@.len(),
            m == needle@.len(),
            m <= n,
            limit == n - m,
            i <= limit,
            forall|k: int| 0 <= k < i ==> #[trigger] hay@.subrange(k, k + m) != needle@,
        decreases limit - i,
    {
        if range_eq(hay, i, i + m, needle) {
            return true;
        }
        if i == limit {
            return false;
        }
        i += 1;
    }
}

/// ASCII lowercase of one character; others unchanged.
pub open spec fn lower_char(c: char) -> char {
    if 'A' <= c && c <= 'Z' {
        ((c as u32) + 32) as char
    } else {
        c
    }
}

/// ASCII case-insensitive equality of two character sequences.
pub open spec fn chars_eq_ic(a: Seq<char>, b: Seq<char>) -> bool {
    a.len() == b.len() && forall|i: int| 0 <= i < a.len() ==> #[trigger] lower_char(a[i]) == lower_char(b[i])
}

pub fn lower_char_exec(c: char) -> (r: char)
    ensures
        r == lower_char(c),
{
    if 'A' <= c && c <= 'Z' {
        ((c as u8) + 32) as char
    } else {
        c
    }
}

/// Executable `chars_eq_ic`.
pub fn str_eq_ic(a: &str, b: &[char]) -> (r: bool)
    ensures
        r == chars_eq_ic(a@, b@),
{
    let av = chars_of(a);
    if av.len() != b.len() {
        return false;
    }
    let mut i: usize = 0;
    while i < b.len()
        invariant
            av@ == a@,
            av@.len() == b@.len(),
            i <= b@.len(),
            forall|k: int| 0 <= k < i ==> #[trigger] lower_char(av@[k]) == lower_char(b@[k]),
        decreases b@.len() - i,
    {
        if lower_char_exec(av[i]) != lower_char_exec(b[i]) {
            return false;
        }
        i += 1;
    }
    true
}


/// Index of the last `/` in `s`, or -1.
pub open spec fn last_slash(s: Seq<char>) -> int
    decreases s.len(),
{
    if s.len() == 0 {
        -1
    } else if s.last() == '/' {
        s.len() - 1
    } else {
        last_slash(s.drop_last())
    }
}

/// What `s.split('/').next_back()` yields: the text after the last `/`, or
/// all of `s` when it has none.
pub open spec fn last_segment(s: Seq<char>) -> Seq<char> {
    s.subrange(last_slash(s) + 1, s.len() as int)
}

pub proof fn lemma_last_slash(s: Seq<char>)
    ensures
        -1 <= last_slash(s) < s.len(),
    decreases s.len(),
{
    if s.len() > 0 && s.last() != '/' {
        lemma_last_slash(s.drop_last());
    }
}

/// The text after the last `/` of `s` (all of `s` when it has none).
pub fn last_segment_of(s: &str) -> (r: String)
    ensures
        r@ == last_segment(s@),
{
    let v = chars_of(s);
    let mut cut: usize = 0;
    let mut i: usize = 0;
    assert(v@.take(0) =~= Seq::<char>::empty());
    while i < v.len()
        invariant
            i <= v@.len(),
            v@ == s@,
            cut as int == last_slash(v@.take(i as int)) + 1,
        decreases v@.len() - i,
    {
        assert(v@.take(i + 1).drop_last() =~= v@.take(i as int));
        proof {
            lemma_last_slash(v@.take(i as int));
        }
        if v[i] == '/' {
            cut = i + 1;
        }
        i += 1;
    }
    assert(v@.take(i as int) =~= v@);
    proof {
        lemma_last_slash(v@);
    }
    let mut out: Vec<char> = Vec::new();
    push_range(&mut out, v.as_slice(), cut, v.len());
    assert(out@ =~= last_segment(s@));
    string_from_chars(out.as_slice())
}


/// `char::is_whitespace`: the Unicode `White_Space` property.
pub open spec fn is_unicode_ws(c: char) -> bool {
    let n = c as u32;
    (0x09 <= n && n <= 0x0d) || n == 0x20 || n == 0x85 || n == 0xa0 || n == 0x1680 || (0x2000 <= n && n <= 0x200a)
        || n == 0x2028 || n == 0x2029 || n == 0x202f || n == 0x205f || n == 0x3000
}

pub fn is_unicode_ws_exec(c: char) -> (b: bool)
    ensures
        b == is_unicode_ws(c),
{
    let n = c as u32;
    (0x09 <= n && n <= 0x0d) || n == 0x20 || n == 0x85 || n == 0xa0 || n == 0x1680 || (0x2000 <= n && n <= 0x200a)
        || n == 0x2028 || n == 0x2029 || n == 0x202f || n == 0x205f || n == 0x3000
}

pub open spec fn trim_start(s: Seq<char>) -> Seq<char>
    decreases s.len(),
{
    if s.len() > 0 && is_unicode_ws(s[0]) {
        trim_start(s.drop_first())
    } else {
        s
    }
}

pub open spec fn trim_end(s: Seq<char>) -> Seq<char>
    decreases s.len(),
{
    if s.len() > 0 && is_unicode_ws(s.last()) {
        trim_end(s.drop_last())
    } else {
        s
    }
}

/// What `str::trim` yields: `s` without leading and trailing whitespace.
pub open spec fn trimmed(s: Seq<char>) -> Seq<char> {
    trim_end(trim_start(s))
}

/// `s` without leading and trailing Unicode whitespace.
pub fn trim_text(s: &str) -> (r: String)
    ensures
        r@ == trimmed(s@),
{
    let v = chars_of(s);
    let mut a: usize = 0;
    assert(v@.skip(0) =~= v@);
    while a < v.len() && is_unicode_ws_exec(v[a])
        invariant
            a <= v@.len(),
            v@ == s@,
            trim_start(s@) == trim_start(v@.skip(a as int)),
        decreases v@.len() - a,
    {
        assert(v@.skip(a as int).drop_first() =~= v@.skip(a + 1));
        a += 1;
    }
    let ghost t = v@.skip(a as int);
    assert(trim_start(s@) == t);
    let mut b: usize = v.len();
    assert(t.take(t.len() as int) =~= t);
    while b > a && is_unicode_ws_exec(v[b - 1])
        invariant
            a <= b <= v@.len(),
            t == v@.skip(a as int),
            trim_end(t) == trim_end(v@.subrange(a as int, b as int)),
        decreases b,
    {
        assert(v@.subrange(a as int, b as int).drop_last() =~= v@.subrange(a as int, b - 1));
        b -= 1;
    }
    let mut out: Vec<char> = Vec::new();
    push_range(&mut out, v.as_slice(), a, b);
    assert(out@ =~= trimmed(s@));
    string_from_chars(out.as_slice())
}


/// Whether two texts are equal.
pub fn text_eq(a: &str, b: &str) -> (r: bool)
    ensures
        r == (a@ == b@),
{
    let av = chars_of(a);
    let bv = chars_of(b);
    assert(av@.subrange(0, av@.len() as int) =~= av@);
    range_eq(av.as_slice(), 0, av.len(), bv.as_slice())
}


/// The text of `bytes` if they are valid UTF-8.
///
/// Trusted: `std::str::from_utf8`, which std documents as succeeding
/// exactly on valid UTF-8; the text is its decoding.
#[verifier::external_body]
pub fn utf8_text(bytes: &[u8]) -> (r: Option<String>)
    ensures
        r is Some <==> vstd::utf8::valid_utf8(bytes@),
        r matches Some(s) ==> s@ == vstd::utf8::decode_utf8(bytes@),
{
    match std::str::from_utf8(bytes) {
        Ok(s) => Some(s.to_string()),
        Err(_) => None,
    }
}

/// The text split at every `sep` (as `str::split(sep)` splits it): one
/// more part than there are separators.
pub open spec fn split_at_char(s: Seq<char>, sep: char) -> Seq<Seq<char>>
    decreases s.len(),
{
    if s.len() == 0 {
        seq![seq![]]
    } else {
        let parts = split_at_char(s.drop_last(), sep);
        if s.last() == sep {
            parts.push(seq![])
        } else {
            parts.update(parts.len() - 1, parts.last().push(s.last()))
        }
    }
}

pub proof fn lemma_split_at_char_len(s: Seq<char>, sep: char)
    ensures
        split_at_char(s, sep).len() >= 1,
    decreases s.len(),
{
    if s.len() > 0 {
        lemma_split_at_char_len(s.drop_last(), sep);
    }
}

/// The number of leading characters of `s` that are not whitespace.
pub open spec fn non_ws_prefix_len(s: Seq<char>) -> nat
    decreases s.len(),
{
    if s.len() == 0 || is_unicode_ws(s[0]) {
        0
    } else {
        1 + non_ws_prefix_len(s.drop_first())
    }
}

/// The first whitespace-separated word of `s` (what
/// `s.split_whitespace().next()` gives).
pub open spec fn first_word(s: Seq<char>) -> Option<Seq<char>> {
    let t = trim_start(s);
    if t.len() == 0 {
        None
    } else {
        Some(t.take(non_ws_prefix_len(t) as int))
    }
}

pub proof fn lemma_non_ws_prefix_len(s: Seq<char>)
    ensures
        non_ws_prefix_len(s) <= s.len(),
        forall|i: int| 0 <= i < non_ws_prefix_len(s) ==> !is_unicode_ws(#[trigger] s[i]),
        non_ws_prefix_len(s) < s.len() ==> is_unicode_ws(s[non_ws_prefix_len(s) as int]),
    decreases s.len(),
{
    if s.len() > 0 && !is_unicode_ws(s[0]) {
        lemma_non_ws_prefix_len(s.drop_first());
        assert forall|i: int| 0 <= i < non_ws_prefix_len(s) implies !is_unicode_ws(#[trigger] s[i]) by {
            if i > 0 {
                assert(s[i] == s.drop_first()[i - 1]);
            }
        }
    }
}

/// The first whitespace-separated word of `s` (`first_word`).
pub fn first_word_of(s: &[char]) -> (r: Option<Vec<char>>)
    ensures
        match r {
            Some(w) => first_word(s@) == Some(w@),
            None => first_word(s@) is None,
        },
{
    let mut a: usize = 0;
    assert(s@.skip(0) =~= s@);
    while a < s.len() && is_unicode_ws_exec(s[a])
        invariant
            a <= s@.len(),
            trim_start(s@) == trim_start(s@.skip(a as int)),
        decreases s@.len() - a,
    {
        assert(s@.skip(a as int).drop_first() =~= s@.skip(a + 1));
        a += 1;
    }
    let ghost t = s@.skip(a as int);
    assert(trim_start(s@) == t);
    if a == s.len() {
        return None;
    }
    let mut b: usize = a;
    while b < s.len() && !is_unicode_ws_exec(s[b])
        invariant
            a <= b <= s@.len(),
            t == s@.skip(a as int),
            non_ws_prefix_len(t) == (b - a) + non_ws_prefix_len(s@.skip(b as int)),
        decreases s@.len() - b,
    {
        assert(s@.skip(b as int).drop_first() =~= s@.skip(b + 1));
        b += 1;
    }
    let mut w: Vec<char> = Vec::new();
    push_range(&mut w, s, a, b);
    assert(w@ =~= t.take(non_ws_prefix_len(t) as int));
    Some(w)
}

} // verus!
