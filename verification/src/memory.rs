//! Process memory figures read from the text of `/proc/self/smaps_rollup`
//! and `/proc/self/status`, in MB.
use vstd::prelude::*;
use crate::chars::{chars_of, first_word, first_word_of, lemma_split_at_char_len, push_range, split_at_char};
use crate::numbers::dec_value;

verus! {

/// Resident memory broken down by mapping class, in MB.
#[derive(Clone, Copy, Debug, Default, PartialEq, Eq)]
pub struct MemoryBreakdown {
    pub rss_mb: u64,
    pub anon_mb: u64,
    pub file_mb: u64,
    pub shmem_mb: u64,
    pub swap_mb: u64,
}

/// What `str::parse::<u64>` accepts: an optional `+`, then at least one
/// decimal digit, with a value in the `u64` range.
pub open spec fn u64_value(s: Seq<char>) -> Option<u64> {
    let body = if s.len() > 0 && s[0] == '+' {
        s.drop_first()
    } else {
        s
    };
    if body.len() == 0 {
        None
    } else {
        match dec_value(body) {
            Some(v) => if v <= u64::MAX {
                Some(v as u64)
            } else {
                None
            },
            None => None,
        }
    }
}

/// `str::parse::<u64>` (`u64_value`).
pub fn parse_u64(s: &[char]) -> (r: Option<u64>)
    ensures
        r == u64_value(s@),
{
    let start: usize = if s.len() > 0 && s[0] == '+' { 1 } else { 0 };
    let ghost body = if s@.len() > 0 && s@[0] == '+' { s@.drop_first() } else { s@ };
    assert(body =~= s@.skip(start as int));
    if start == s.len() {
        return None;
    }
    let mut acc: u64 = 0;
    let mut i: usize = start;
    assert(s@.subrange(start as int, start as int) =~= Seq::<char>::empty());
    while i < s.len()
        invariant
            start <= i <= s@.len(),
            start < s@.len(),
            body == s@.skip(start as int),
            body == (if s@.len() > 0 && s@[0] == '+' { s@.drop_first() } else { s@ }),
            dec_value(s@.subrange(start as int, i as int)) == Some(acc as nat),
        decreases s@.len() - i,
    {
        let c = s[i];
        let ghost pre = s@.subrange(start as int, i as int);
        let ghost next = s@.subrange(start as int, i + 1);
        assert(next.drop_last() =~= pre);
        assert(next.last() == c);
        let ghost whole = s@.subrange(start as int, s@.len() as int);
        assert(whole =~= body);
        assert(whole[i - start] == c);
        if !('0' <= c && c <= '9') {
            proof {
                lemma_dec_value_none_extends(whole, i - start);
            }
            return None;
        }
        let d: u64 = (c as u32 - 0x30) as u64;
        assert(dec_value(next) == Some((acc * 10 + d) as nat));
        if acc > (u64::MAX - d) / 10 {
            proof {
                assert(acc * 10 + d > u64::MAX) by (nonlinear_arith)
                    requires
                        acc > (u64::MAX - d) / 10,
                        d <= 9,
                ;
                assert(whole.take(i + 1 - start) =~= next);
                lemma_dec_value_grows(whole, i + 1 - start);
            }
            return None;
        }
        assert(acc * 10 + d <= u64::MAX) by (nonlinear_arith)
            requires
                acc <= (u64::MAX - d) / 10,
                d <= 9,
        ;
        acc = acc * 10 + d;
        i += 1;
    }
    assert(s@.subrange(start as int, s@.len() as int) =~= body);
    Some(acc)
}

proof fn lemma_dec_value_none_extends(s: Seq<char>, k: int)
    requires
        0 <= k < s.len(),
        !('0' <= s[k] && s[k] <= '9'),
    ensures
        dec_value(s) is None,
    decreases s.len(),
{
    if k < s.len() - 1 {
        assert(s.drop_last()[k] == s[k]);
        lemma_dec_value_none_extends(s.drop_last(), k);
    }
}

/// A prefix of digits whose value exceeds `u64::MAX` keeps the whole value
/// above it.
proof fn lemma_dec_value_grows(s: Seq<char>, k: int)
    requires
        0 <= k <= s.len(),
        dec_value(s.take(k)) matches Some(v) && v > u64::MAX,
    ensures
        dec_value(s) is None || dec_value(s)->0 > u64::MAX,
    decreases s.len() - k,
{
    if k < s.len() {
        let t = s.take(k + 1);
        assert(t.drop_last() =~= s.take(k));
        if '0' <= s[k] && s[k] <= '9' {
            assert(dec_value(t) is Some && dec_value(t)->0 > u64::MAX) by (nonlinear_arith)
                requires
                    dec_value(t) == Some((dec_value(s.take(k))->0 * 10 + (t.last() as u32 - 0x30) as nat) as nat),
                    dec_value(s.take(k))->0 > u64::MAX,
            ;
            lemma_dec_value_grows(s, k + 1);
        } else {
            assert(dec_value(t) is None);
            lemma_dec_value_none_prefix(s, k + 1);
        }
    } else {
        assert(s.take(k) =~= s);
    }
}

proof fn lemma_dec_value_none_prefix(s: Seq<char>, k: int)
    requires
        0 <= k <= s.len(),
        dec_value(s.take(k)) is None,
    ensures
        dec_value(s) is None,
    decreases s.len() - k,
{
    if k < s.len() {
        assert(s.take(k + 1).drop_last() =~= s.take(k));
        lemma_dec_value_none_prefix(s, k + 1);
    } else {
        assert(s.take(k) =~= s);
    }
}

/// `key: rest` split at the first `:`.
pub open spec fn colon_split(line: Seq<char>) -> Option<(Seq<char>, Seq<char>)> {
    if exists|i: int| 0 <= i < line.len() && line[i] == ':' {
        let i = choose|i: int| 0 <= i < line.len() && line[i] == ':' && forall|j: int| 0 <= j < i ==> line[j] != ':';
        Some((line.take(i), line.skip(i + 1)))
    } else {
        None
    }
}

/// Kilobytes to whole megabytes.
pub open spec fn kb_to_mb(kb: u64) -> u64 {
    kb / 1024
}

/// The breakdown after reading one line of `smaps_rollup`: a line
/// `Key: N kB` with a word after the colon sets the field of `Rss`,
/// `Anonymous`, `Pss_File`, `Pss_Shmem` or `Swap` to `N` kB in MB (0 when
/// `N` is no `u64`); other lines change nothing.
pub open spec fn rollup_line(m: MemoryBreakdown, line: Seq<char>) -> MemoryBreakdown {
    match colon_split(line) {
        None => m,
        Some((key, rest)) => match first_word(rest) {
            None => m,
            Some(w) => {
                let mb = kb_to_mb(
                    match u64_value(w) {
                        Some(v) => v,
                        None => 0,
                    },
                );
                if key == "Rss"@ {
                    MemoryBreakdown { rss_mb: mb, ..m }
                } else if key == "Anonymous"@ {
                    MemoryBreakdown { anon_mb: mb, ..m }
                } else if key == "Pss_File"@ {
                    MemoryBreakdown { file_mb: mb, ..m }
                } else if key == "Pss_Shmem"@ {
                    MemoryBreakdown { shmem_mb: mb, ..m }
                } else if key == "Swap"@ {
                    MemoryBreakdown { swap_mb: mb, ..m }
                } else {
                    m
                }
            },
        },
    }
}

pub open spec fn zero_breakdown() -> MemoryBreakdown {
    MemoryBreakdown { rss_mb: 0, anon_mb: 0, file_mb: 0, shmem_mb: 0, swap_mb: 0 }
}

pub open spec fn rollup_lines(lines: Seq<Seq<char>>) -> MemoryBreakdown
    decreases lines.len(),
{
    if lines.len() == 0 {
        zero_breakdown()
    } else {
        rollup_line(rollup_lines(lines.drop_last()), lines.last())
    }
}

/// The breakdown that the text of `smaps_rollup` gives, line by line.
pub open spec fn rollup_breakdown(text: Seq<char>) -> MemoryBreakdown {
    rollup_lines(split_at_char(text, '\n'))
}

fn colon_split_exec(line: &Vec<char>) -> (r: Option<(Vec<char>, Vec<char>)>)
    ensures
        match r {
            Some((k, rest)) => colon_split(line@) == Some((k@, rest@)),
            None => colon_split(line@) is None,
        },
{
    let mut i: usize = 0;
    while i < line.len()
        invariant
            i <= line@.len(),
            forall|j: int| 0 <= j < i ==> line@[j] != ':',
        decreases line@.len() - i,
    {
        if line[i] == ':' {
            let mut key: Vec<char> = Vec::new();
            push_range(&mut key, line.as_slice(), 0, i);
            let mut rest: Vec<char> = Vec::new();
            push_range(&mut rest, line.as_slice(), i + 1, line.len());
            proof {
                assert(line@[i as int] == ':');
                let c = choose|c: int| 0 <= c < line@.len() && line@[c] == ':' && forall|j: int| 0 <= j < c ==> line@[j] != ':';
                assert(c == i) by {
                    if c < i {
                        assert(line@[c] != ':');
                    } else if c > i {
                        assert(line@[i as int] != ':');
                    }
                }
                assert(key@ =~= line@.take(i as int));
                assert(rest@ =~= line@.skip(i + 1));
            }
            return Some((key, rest));
        }
        i += 1;
    }
    None
}

fn text_is(v: &Vec<char>, lit: &str) -> (b: bool)
    ensures
        b == (v@ == lit@),
{
    let l = chars_of(lit);
    if l.len() != v.len() {
        return false;
    }
    assert(v@.subrange(0, v@.len() as int) =~= v@);
    crate::chars::range_eq(v.as_slice(), 0, v.len(), l.as_slice())
}

fn apply_rollup_line(m: &mut MemoryBreakdown, line: &Vec<char>)
    ensures
        *final(m) == rollup_line(*old(m), line@),
{
    match colon_split_exec(line) {
        None => {},
        Some((key, rest)) => match first_word_of(rest.as_slice()) {
            None => {},
            Some(w) => {
                let kb = match parse_u64(w.as_slice()) {
                    Some(v) => v,
                    None => 0,
                };
                let mb = kb / 1024;
                if text_is(&key, "Rss") {
                    m.rss_mb = mb;
                } else if text_is(&key, "Anonymous") {
                    m.anon_mb = mb;
                } else if text_is(&key, "Pss_File") {
                    m.file_mb = mb;
                } else if text_is(&key, "Pss_Shmem") {
                    m.shmem_mb = mb;
                } else if text_is(&key, "Swap") {
                    m.swap_mb = mb;
                }
            },
        },
    }
}

/// The breakdown the text of `/proc/self/smaps_rollup` gives
/// (`rollup_breakdown`).
pub fn breakdown_from_rollup(text: &str) -> (m: MemoryBreakdown)
    ensures
        m == rollup_breakdown(text@),
{
    let v = chars_of(text);
    let mut m = MemoryBreakdown { rss_mb: 0, anon_mb: 0, file_mb: 0, shmem_mb: 0, swap_mb: 0 };
    let mut line: Vec<char> = Vec::new();
    let mut i: usize = 0;
    proof {
        assert(v@.take(0) =~= Seq::<char>::empty());
        assert(split_at_char(v@.take(0), '\n').drop_last() =~= Seq::<Seq<char>>::empty());
    }
    while i < v.len()
        invariant
            i <= v@.len(),
            v@ == text@,
            split_at_char(v@.take(i as int), '\n').len() >= 1,
            line@ == split_at_char(v@.take(i as int), '\n').last(),
            m == rollup_lines(split_at_char(v@.take(i as int), '\n').drop_last()),
        decreases v@.len() - i,
    {
        let ghost parts = split_at_char(v@.take(i as int), '\n');
        assert(v@.take(i + 1).drop_last() =~= v@.take(i as int));
        assert(v@.take(i + 1).last() == v@[i as int]);
        if v[i] == '\n' {
            apply_rollup_line(&mut m, &line);
            proof {
                let np = parts.push(seq![]);
                assert(np.drop_last() =~= parts);
                assert(parts =~= parts.drop_last().push(parts.last()));
                lemma_split_at_char_len(v@.take(i + 1), '\n');
            }
            line = Vec::new();
        } else {
            line.push(v[i]);
            proof {
                let np = parts.update(parts.len() - 1, parts.last().push(v@[i as int]));
                assert(np.drop_last() =~= parts.drop_last());
            }
        }
        i += 1;
    }
    assert(v@.take(v@.len() as int) =~= v@);
    let ghost parts = split_at_char(v@, '\n');
    apply_rollup_line(&mut m, &line);
    assert(parts =~= parts.drop_last().push(parts.last()));
    m
}

/// The kB figure a status line gives after its prefix: its first word as a
/// `u64`, else 0.
pub open spec fn status_kb(rest: Seq<char>) -> u64 {
    match first_word(rest) {
        Some(w) => match u64_value(w) {
            Some(v) => v,
            None => 0,
        },
        None => 0,
    }
}

/// `(VmRSS, VmHWM)` in kB after reading `lines` of `/proc/self/status`: a
/// line starting `VmRSS:` or `VmHWM:` sets its figure; the last one wins.
pub open spec fn status_kb_lines(lines: Seq<Seq<char>>) -> (u64, u64)
    decreases lines.len(),
{
    if lines.len() == 0 {
        (0, 0)
    } else {
        let r = status_kb_lines(lines.drop_last());
        let l = lines.last();
        if l.len() >= 6 && l.take(6) == "VmRSS:"@ {
            (status_kb(l.skip(6)), r.1)
        } else if l.len() >= 6 && l.take(6) == "VmHWM:"@ {
            (r.0, status_kb(l.skip(6)))
        } else {
            r
        }
    }
}

/// `(VmRSS, VmHWM)` in MB from the text of `/proc/self/status`.
pub open spec fn status_memory_mb(text: Seq<char>) -> (u64, u64) {
    let kb = status_kb_lines(split_at_char(text, '\n'));
    (kb_to_mb(kb.0), kb_to_mb(kb.1))
}

fn status_kb_of(rest: &[char]) -> (r: u64)
    ensures
        r == status_kb(rest@),
{
    match first_word_of(rest) {
        Some(w) => match parse_u64(w.as_slice()) {
            Some(v) => v,
            None => 0,
        },
        None => 0,
    }
}

fn apply_status_line(kb: &mut (u64, u64), line: &Vec<char>)
    ensures
        line@.len() >= 6 && line@.take(6) == "VmRSS:"@ ==> *final(kb) == (status_kb(line@.skip(6)), old(kb).1),
        !(line@.len() >= 6 && line@.take(6) == "VmRSS:"@) && line@.len() >= 6 && line@.take(6) == "VmHWM:"@
            ==> *final(kb) == (old(kb).0, status_kb(line@.skip(6))),
        !(line@.len() >= 6 && line@.take(6) == "VmRSS:"@) && !(line@.len() >= 6 && line@.take(6) == "VmHWM:"@)
            ==> *final(kb) == *old(kb),
{
    let rss = chars_of("VmRSS:");
    let hwm = chars_of("VmHWM:");
    if line.len() < 6 {
        return;
    }
    let mut rest: Vec<char> = Vec::new();
    push_range(&mut rest, line.as_slice(), 6, line.len());
    assert(rest@ =~= line@.skip(6));
    assert(line@.subrange(0, 6) =~= line@.take(6));
    if crate::chars::range_eq(line.as_slice(), 0, 6, rss.as_slice()) {
        kb.0 = status_kb_of(rest.as_slice());
    } else if crate::chars::range_eq(line.as_slice(), 0, 6, hwm.as_slice()) {
        kb.1 = status_kb_of(rest.as_slice());
    }
}

/// `(VmRSS, VmHWM)` in MB from the text of `/proc/self/status`
/// (`status_memory_mb`).
pub fn memory_mb_from_status(text: &str) -> (r: (u64, u64))
    ensures
        r == status_memory_mb(text@),
{
    let v = chars_of(text);
    let mut kb: (u64, u64) = (0, 0);
    let mut line: Vec<char> = Vec::new();
    let mut i: usize = 0;
    proof {
        assert(v@.take(0) =~= Seq::<char>::empty());
        assert(split_at_char(v@.take(0), '\n').drop_last() =~= Seq::<Seq<char>>::empty());
    }
    while i < v.len()
        invariant
            i <= v@.len(),
            v@ == text@,
            split_at_char(v@.take(i as int), '\n').len() >= 1,
            line@ == split_at_char(v@.take(i as int), '\n').last(),
            kb == status_kb_lines(split_at_char(v@.take(i as int), '\n').drop_last()),
        decreases v@.len() - i,
    {
        let ghost parts = split_at_char(v@.take(i as int), '\n');
        assert(v@.take(i + 1).drop_last() =~= v@.take(i as int));
        assert(v@.take(i + 1).last() == v@[i as int]);
        if v[i] == '\n' {
            apply_status_line(&mut kb, &line);
            proof {
                let np = parts.push(seq![]);
                assert(np.drop_last() =~= parts);
                assert(parts =~= parts.drop_last().push(parts.last()));
                lemma_split_at_char_len(v@.take(i + 1), '\n');
            }
            line = Vec::new();
        } else {
            line.push(v[i]);
            proof {
                let np = parts.update(parts.len() - 1, parts.last().push(v@[i as int]));
                assert(np.drop_last() =~= parts.drop_last());
            }
        }
        i += 1;
    }
    assert(v@.take(v@.len() as int) =~= v@);
    let ghost parts = split_at_char(v@, '\n');
    apply_status_line(&mut kb, &line);
    assert(parts =~= parts.drop_last().push(parts.last()));
    (kb.0 / 1024, kb.1 / 1024)
}

} // verus!
