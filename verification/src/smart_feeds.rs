//! Custom smart feeds: user-named saved searches whose conditions compile
//! to one SQL `WHERE` clause with numbered parameters.
use vstd::prelude::*;
use crate::bytes::{is_digit, is_digit_exec, lemma_run_end, run_end, QUESTION};
use crate::chars::{chars_of, push_str_chars, string_from_chars};
use crate::numbers::{decimal, digits_value, push_decimal};

verus! {

/// The conditions of a smart feed, all of which an article must meet.
#[derive(Debug, Clone, Default)]
pub struct SmartFeedRules {
    pub conditions: Vec<Condition>,
}

/// A saved smart feed: its rules, and when it was created (milliseconds
/// since the Unix epoch, UTC).
#[derive(Debug, Clone)]
pub struct SmartFeed {
    pub id: String,
    pub name: String,
    pub rules: SmartFeedRules,
    pub created_at: i64,
}

/// The smart-feeds file: a format version and the saved feeds.
#[derive(Debug, Clone, Default)]
pub struct SmartFeedsFile {
    pub version: u32,
    pub feeds: Vec<SmartFeed>,
}

/// The format version this library writes.
pub const CURRENT_VERSION: u32 = 1;

impl SmartFeedsFile {
    /// An empty file of the current version.
    pub fn new() -> (f: SmartFeedsFile)
        ensures
            f.version == CURRENT_VERSION,
            f.feeds@.len() == 0,
    {
        SmartFeedsFile { version: CURRENT_VERSION, feeds: Vec::new() }
    }
}

/// One condition of a smart feed.
#[derive(Debug, Clone)]
pub enum Condition {
    /// Article title contains the substring (case-insensitive).
    TitleContains { value: String },
    /// Article body, summary or text contains the substring.
    BodyContains { value: String },
    /// Some author name contains the substring.
    AuthorContains { value: String },
    /// Feed id matches exactly.
    FeedIs { feed_id: String },
    /// Read state: `true` keeps read articles, `false` unread ones.
    Read { read: bool },
    /// Star state.
    Starred { starred: bool },
    /// Published (or modified) less than `days` days ago.
    NewerThanDays { days: i64 },
    /// Published (or modified) more than `days` days ago.
    OlderThanDays { days: i64 },
}

/// A bind value of a query.
#[derive(Debug, Clone, PartialEq)]
pub enum SqlParam {
    Text(String),
    Integer(i64),
}

pub enum ParamView {
    Text(Seq<char>),
    Integer(i64),
}

impl View for SqlParam {
    type V = ParamView;

    open spec fn view(&self) -> ParamView {
        match self {
            SqlParam::Text(s) => ParamView::Text(s@),
            SqlParam::Integer(n) => ParamView::Integer(*n),
        }
    }
}

pub open spec fn params_view(s: Seq<SqlParam>) -> Seq<ParamView> {
    s.map_values(|p: SqlParam| p@)
}

pub const TITLE_SQL: &'static str = "LOWER(COALESCE(a.title, '')) LIKE ?1 ESCAPE '\\'";

pub const BODY_SQL: &'static str = "(LOWER(COALESCE(a.content_html, '')) LIKE ?1 ESCAPE '\\' OR LOWER(COALESCE(a.content_text, '')) LIKE ?1 ESCAPE '\\' OR LOWER(COALESCE(a.summary, '')) LIKE ?1 ESCAPE '\\')";

pub const AUTHOR_SQL: &'static str = "EXISTS (SELECT 1 FROM authorsLookup al JOIN authors au ON au.author_id = al.author_id WHERE al.article_id = a.article_id AND LOWER(COALESCE(au.name, '')) LIKE ?1 ESCAPE '\\')";

pub const FEED_SQL: &'static str = "a.feed_id = ?1";

pub const READ_SQL: &'static str = "COALESCE(s.read, 0) = 1";

pub const UNREAD_SQL: &'static str = "COALESCE(s.read, 0) = 0";

pub const STARRED_SQL: &'static str = "COALESCE(s.starred, 0) = 1";

pub const UNSTARRED_SQL: &'static str = "COALESCE(s.starred, 0) = 0";

pub const NEWER_SQL: &'static str = "COALESCE(a.date_published, a.date_modified) >= ?1";

pub const OLDER_SQL: &'static str = "COALESCE(a.date_published, a.date_modified) < ?1";

/// The lowercase mapping of one character (`char::to_lowercase`), which
/// may be several characters.
pub uninterp spec fn char_lowercase(c: char) -> Seq<char>;

/// Trusted: collects `char::to_lowercase`, which std defines as the
/// Unicode lowercase mapping of the character alone; the result is named
/// `char_lowercase` of it.
#[verifier::external_body]
fn lowercase_of_char(c: char) -> (r: Vec<char>)
    ensures
        r@ == char_lowercase(c),
{
    c.to_lowercase().collect()
}

/// `s` lowercased character by character, with `%`, `_` and `\` escaped by
/// a backslash.
pub open spec fn like_body(s: Seq<char>) -> Seq<char>
    decreases s.len(),
{
    if s.len() == 0 {
        Seq::empty()
    } else {
        let c = s.last();
        like_body(s.drop_last()) + (if c == '%' || c == '_' || c == '\\' {
            seq!['\\']
        } else {
            Seq::empty()
        }) + char_lowercase(c)
    }
}

/// The `LIKE` pattern, read with `ESCAPE '\'`, matching text that
/// contains `s`, case-insensitively.
pub open spec fn like_text(s: Seq<char>) -> Seq<char> {
    seq!['%'] + like_body(s) + seq!['%']
}

/// A `LIKE` pattern for "contains `needle`": lowercased, its wildcards and
/// backslashes escaped, wrapped in `%`.
pub fn like_pattern(needle: &str) -> (r: String)
    ensures
        r@ == like_text(needle@),
{
    let v = chars_of(needle);
    let mut out: Vec<char> = Vec::new();
    out.push('%');
    let mut i: usize = 0;
    while i < v.len()
        invariant
            i <= v@.len(),
            v@ == needle@,
            out@ == seq!['%'] + like_body(v@.take(i as int)),
        decreases v@.len() - i,
    {
        let ch = v[i];
        assert(v@.take(i + 1).drop_last() =~= v@.take(i as int));
        assert(v@.take(i + 1).last() == ch);
        if ch == '%' || ch == '_' || ch == '\\' {
            out.push('\\');
        }
        let low = lowercase_of_char(ch);
        let mut k: usize = 0;
        let ghost mid = out@;
        while k < low.len()
            invariant
                k <= low@.len(),
                out@ == mid + low@.take(k as int),
            decreases low@.len() - k,
        {
            out.push(low[k]);
            k += 1;
            assert(low@.take(k as int) =~= low@.take(k - 1).push(low@[k - 1]));
        }
        assert(low@.take(k as int) =~= low@);
        i += 1;
        assert(out@ =~= seq!['%'] + like_body(v@.take(i as int)));
    }
    out.push('%');
    assert(v@.take(i as int) =~= v@);
    assert(out@ =~= like_text(needle@));
    string_from_chars(out.as_slice())
}

/// The SQL fragment of a condition, numbered from `?1`.
pub open spec fn condition_text(c: Condition) -> Seq<char> {
    match c {
        Condition::TitleContains { .. } => TITLE_SQL@,
        Condition::BodyContains { .. } => BODY_SQL@,
        Condition::AuthorContains { .. } => AUTHOR_SQL@,
        Condition::FeedIs { .. } => FEED_SQL@,
        Condition::Read { read } => if read {
            READ_SQL@
        } else {
            UNREAD_SQL@
        },
        Condition::Starred { starred } => if starred {
            STARRED_SQL@
        } else {
            UNSTARRED_SQL@
        },
        Condition::NewerThanDays { .. } => NEWER_SQL@,
        Condition::OlderThanDays { .. } => OLDER_SQL@,
    }
}

/// The bind values of a condition; `cutoff` is the Unix time that many
/// days ago, used by the two date conditions.
pub open spec fn condition_params(c: Condition, cutoff: i64) -> Seq<ParamView> {
    match c {
        Condition::TitleContains { value } => seq![ParamView::Text(like_text(value@))],
        Condition::BodyContains { value } => seq![ParamView::Text(like_text(value@))],
        Condition::AuthorContains { value } => seq![ParamView::Text(like_text(value@))],
        Condition::FeedIs { feed_id } => seq![ParamView::Text(feed_id@)],
        Condition::Read { .. } => Seq::empty(),
        Condition::Starred { .. } => Seq::empty(),
        Condition::NewerThanDays { .. } => seq![ParamView::Integer(cutoff)],
        Condition::OlderThanDays { .. } => seq![ParamView::Integer(cutoff)],
    }
}

/// A condition that compares against "now minus some days".
pub open spec fn is_date_condition(c: Condition) -> bool {
    c is NewerThanDays || c is OlderThanDays
}

/// The SQL fragment and bind values of a condition, given the cutoff time
/// the date conditions compare against.
pub fn condition_sql_with_cutoff(c: &Condition, cutoff: i64) -> (r: (String, Vec<SqlParam>))
    ensures
        r.0@ == condition_text(*c),
        params_view(r.1@) == condition_params(*c, cutoff),
{
    let (text, params): (String, Vec<SqlParam>) = match c {
        Condition::TitleContains { value } => (String::from_str(TITLE_SQL), vec![SqlParam::Text(like_pattern(value.as_str()))]),
        Condition::BodyContains { value } => (String::from_str(BODY_SQL), vec![SqlParam::Text(like_pattern(value.as_str()))]),
        Condition::AuthorContains { value } => (String::from_str(AUTHOR_SQL), vec![SqlParam::Text(like_pattern(value.as_str()))]),
        Condition::FeedIs { feed_id } => (String::from_str(FEED_SQL), vec![SqlParam::Text(feed_id.clone())]),
        Condition::Read { read } => (
            if *read {
                String::from_str(READ_SQL)
            } else {
                String::from_str(UNREAD_SQL)
            },
            Vec::new(),
        ),
        Condition::Starred { starred } => (
            if *starred {
                String::from_str(STARRED_SQL)
            } else {
                String::from_str(UNSTARRED_SQL)
            },
            Vec::new(),
        ),
        Condition::NewerThanDays { .. } => (String::from_str(NEWER_SQL), vec![SqlParam::Integer(cutoff)]),
        Condition::OlderThanDays { .. } => (String::from_str(OLDER_SQL), vec![SqlParam::Integer(cutoff)]),
    };
    assert(params_view(params@) =~= condition_params(*c, cutoff));
    (text, params)
}

/// Trusted: the Unix time (whole seconds) `days` days before now, by
/// `chrono`: `Utc::now() - TimeDelta::days(days)`, then `timestamp()`.
/// `None` where `chrono` overflows (the delta, or the date range). The
/// result depends on the clock, so nothing is said of its value.
#[verifier::external_body]
fn days_ago_timestamp(days: i64) -> (r: Option<i64>) {
    let delta = chrono::TimeDelta::try_days(days)?;
    let then = chrono::Utc::now().checked_sub_signed(delta)?;
    Some(then.timestamp())
}

/// The SQL fragment and bind values of a condition, the date conditions
/// measured from now. `None` only for a date condition whose cutoff falls
/// outside the representable dates; every other condition always
/// compiles.
pub fn condition_sql(c: &Condition) -> (r: Option<(String, Vec<SqlParam>)>)
    ensures
        !is_date_condition(*c) ==> r is Some,
        match r {
            Some(x) => x.0@ == condition_text(*c) && exists|cutoff: i64| params_view(x.1@) == condition_params(*c, cutoff),
            None => is_date_condition(*c),
        },
{
    let cutoff = match c {
        Condition::NewerThanDays { days } => match days_ago_timestamp(*days) {
            Some(t) => t,
            None => return None,
        },
        Condition::OlderThanDays { days } => match days_ago_timestamp(*days) {
            Some(t) => t,
            None => return None,
        },
        _ => 0,
    };
    let r = condition_sql_with_cutoff(c, cutoff);
    assert(params_view(r.1@) == condition_params(*c, cutoff));
    Some(r)
}

/// `s` from byte `i` on with each `?N` placeholder renumbered to
/// `?(N + offset)`; each other byte becomes the character of that code.
/// `None` when a renumbered value does not fit in `usize`.
pub open spec fn renum(s: Seq<u8>, i: int, offset: nat) -> Option<Seq<char>>
    decreases s.len() - i,
{
    if i < 0 || i >= s.len() {
        Some(Seq::empty())
    } else if s[i] == QUESTION && i + 1 < s.len() && is_digit(s[i + 1]) {
        let e = run_end(s, i + 1, digit_pred());
        let v = digits_value(s.subrange(i + 1, e)) + offset;
        if e <= i || e > s.len() || v > usize::MAX {
            None
        } else {
            match renum(s, e, offset) {
                Some(rest) => Some(seq!['?'] + decimal(v) + rest),
                None => None,
            }
        }
    } else {
        match renum(s, i + 1, offset) {
            Some(rest) => Some(seq![s[i] as char] + rest),
            None => None,
        }
    }
}

/// The renumbered text of `frag` (its UTF-8 bytes read one by one).
pub open spec fn renumbered(frag: Seq<char>, offset: nat) -> Option<Seq<char>> {
    if offset == 0 {
        Some(frag)
    } else {
        renum(vstd::utf8::encode_utf8(frag), 0, offset)
    }
}

proof fn lemma_digits_prefix(s: Seq<u8>, k: int)
    requires
        0 <= k <= s.len(),
    ensures
        digits_value(s.take(k)) <= digits_value(s),
    decreases s.len() - k,
{
    if k < s.len() {
        if k == s.len() - 1 {
            assert(s.take(k) =~= s.drop_last());
        } else {
            assert(s.drop_last().take(k) =~= s.take(k));
            lemma_digits_prefix(s.drop_last(), k);
        }
    } else {
        assert(s.take(k) =~= s);
    }
}

/// `min(x, cap)`.
pub open spec fn capped(x: nat, cap: nat) -> nat {
    if x < cap {
        x
    } else {
        cap
    }
}

pub open spec fn digit_pred() -> spec_fn(u8) -> bool {
    |b: u8| is_digit(b)
}

/// Reads the digit run of `s` starting at `start` (which must begin with a
/// digit); returns its end and its value capped at `usize::MAX + 1`.
fn read_digits(s: &[u8], start: usize) -> (r: (usize, u128))
    requires
        start < s@.len(),
        is_digit(s@[start as int]),
    ensures
        r.0 as int == run_end(s@, start as int, digit_pred()),
        r.1 as nat == capped(digits_value(s@.subrange(start as int, r.0 as int)), (usize::MAX + 1) as nat),
{
    proof {
        lemma_run_end(s@, start as int, digit_pred());
    }
    let cap: u128 = usize::MAX as u128 + 1;
    let mut end = start;
    let mut n: u128 = 0;
    assert(s@.subrange(start as int, end as int) =~= Seq::<u8>::empty());
    while end < s.len() && is_digit_exec(s[end])
        invariant
            start <= end <= s@.len(),
            cap == usize::MAX + 1,
            end <= run_end(s@, start as int, digit_pred()),
            forall|m: int| start <= m < run_end(s@, start as int, digit_pred()) ==> digit_pred()(#[trigger] s@[m]),
            run_end(s@, start as int, digit_pred()) < s@.len() ==> !digit_pred()(s@[run_end(s@, start as int, digit_pred())]),
            run_end(s@, start as int, digit_pred()) <= s@.len(),
            n as nat == capped(digits_value(s@.subrange(start as int, end as int)), cap as nat),
        decreases s@.len() - end,
    {
        let ghost before = digits_value(s@.subrange(start as int, end as int));
        assert(end < run_end(s@, start as int, digit_pred())) by {
            assert(digit_pred()(s@[end as int]) == is_digit(s@[end as int]));
            assert(is_digit(s@[end as int]));
            if end == run_end(s@, start as int, digit_pred()) {
                assert(!digit_pred()(s@[end as int]));
            }
        }
        assert(s@.subrange(start as int, end + 1).drop_last() =~= s@.subrange(start as int, end as int));
        assert(s@.subrange(start as int, end + 1).last() == s@[end as int]);
        let d = (s[end] - 0x30) as u128;
        assert(digits_value(s@.subrange(start as int, end + 1)) == before * 10 + d);
        if n < cap {
            assert(n == before);
            n = n * 10 + d;
            if n > cap {
                n = cap;
            }
        } else {
            assert(before >= cap);
            assert(before * 10 + d >= cap) by (nonlinear_arith)
                requires
                    before >= cap,
                    d >= 0,
            ;
        }
        end += 1;
    }
    proof {
        if end < run_end(s@, start as int, digit_pred()) {
            assert(digit_pred()(s@[end as int]));
        }
    }
    (end, n)
}

/// `frag` with its `?N` placeholders shifted by `offset`; `None` when a
/// shifted number would not fit in `usize`.
pub fn renumbered_text(frag: &str, offset: usize) -> (r: Option<String>)
    ensures
        match r {
            Some(t) => renumbered(frag@, offset as nat) == Some(t@),
            None => renumbered(frag@, offset as nat) is None,
        },
{
    if offset == 0 {
        return Some(String::from_str(frag));
    }
    let bytes = frag.as_bytes();
    let ghost s = bytes@;
    let mut out: Vec<char> = Vec::new();
    let mut i: usize = 0;
    while i < bytes.len()
        invariant
            i <= s.len(),
            s == bytes@,
            s == vstd::utf8::encode_utf8(frag@),
            offset > 0,
            match renum(s, 0, offset as nat) {
                Some(all) => renum(s, i as int, offset as nat) is Some && all == out@ + renum(s, i as int, offset as nat)->0,
                None => renum(s, i as int, offset as nat) is None,
            },
        decreases s.len() - i,
    {
        if bytes[i] == QUESTION && i + 1 < bytes.len() && is_digit_exec(bytes[i + 1]) {
            let (end, n) = read_digits(bytes, i + 1);
            proof {
                lemma_run_end(s, i + 1, digit_pred());
            }
            let ghost v = digits_value(s.subrange(i + 1, end as int)) + offset;
            if n + offset as u128 > usize::MAX as u128 {
                assert(v > usize::MAX);
                assert(renum(s, i as int, offset as nat) is None);
                return None;
            }
            let total = (n + offset as u128) as u64;
            out.push('?');
            let ghost mid = out@;
            push_decimal(&mut out, total);
            assert(out@ =~= mid + decimal(v as nat));
            proof {
                match renum(s, 0, offset as nat) {
                    Some(all) => {
                        assert(all == out@ + renum(s, end as int, offset as nat)->0);
                    },
                    None => {},
                }
            }
            i = end;
        } else {
            out.push(bytes[i] as char);
            i += 1;
        }
    }
    let t = string_from_chars(out.as_slice());
    proof {
        assert(renum(s, i as int, offset as nat) == Some(Seq::<char>::empty()));
        assert(out@ + Seq::<char>::empty() =~= out@);
    }
    Some(t)
}

/// Shifts the `?N` placeholders of `frag` by `offset` in place (nothing to
/// do for an offset of 0).
pub fn renumber(frag: &mut String, offset: usize)
    requires
        renumbered(old(frag)@, offset as nat) is Some,
    ensures
        renumbered(old(frag)@, offset as nat) == Some(final(frag)@),
{
    match renumbered_text(frag.as_str(), offset) {
        Some(t) => {
            *frag = t;
        },
        None => {},
    }
}


/// The clauses of `conds` (each in parentheses, renumbered after the
/// parameters before it, joined by `AND`) and their parameters;
/// `cutoffs[k]` is the cutoff time of condition `k`. `None` when a
/// renumbered placeholder would not fit in `usize`.
pub open spec fn where_parts(conds: Seq<Condition>, cutoffs: Seq<i64>) -> Option<(Seq<char>, Seq<ParamView>)>
    decreases conds.len(),
{
    if conds.len() == 0 {
        Some((Seq::empty(), Seq::empty()))
    } else {
        match where_parts(conds.drop_last(), cutoffs) {
            None => None,
            Some(prev) => {
                let c = conds.last();
                match renumbered(condition_text(c), prev.1.len()) {
                    None => None,
                    Some(frag) => {
                        let clause = seq!['('] + frag + seq![')'];
                        let sql = if conds.len() == 1 {
                            clause
                        } else {
                            prev.0 + " AND "@ + clause
                        };
                        Some((sql, prev.1 + condition_params(c, cutoffs[conds.len() - 1])))
                    },
                }
            },
        }
    }
}

/// The `WHERE` clause and parameters of a rule set: `1=1` with none for
/// no conditions.
pub open spec fn built_where(conds: Seq<Condition>, cutoffs: Seq<i64>) -> Option<(Seq<char>, Seq<ParamView>)> {
    if conds.len() == 0 {
        Some(("1=1"@, Seq::empty()))
    } else {
        where_parts(conds, cutoffs)
    }
}

proof fn lemma_where_parts_prefix(conds: Seq<Condition>, cutoffs: Seq<i64>, j: int)
    requires
        0 <= j <= conds.len(),
        where_parts(conds.take(j), cutoffs) is None,
    ensures
        where_parts(conds, cutoffs) is None,
    decreases conds.len() - j,
{
    if j < conds.len() {
        if j == conds.len() - 1 {
            assert(conds.drop_last() =~= conds.take(j));
        } else {
            assert(conds.drop_last().take(j) =~= conds.take(j));
            lemma_where_parts_prefix(conds.drop_last(), cutoffs, j);
        }
    } else {
        assert(conds.take(j) =~= conds);
    }
}

pub open spec fn where_view(r: Option<(String, Vec<SqlParam>)>) -> Option<(Seq<char>, Seq<ParamView>)> {
    match r {
        Some(x) => Some((x.0@, params_view(x.1@))),
        None => None,
    }
}

/// The `WHERE` clause and parameters of `rules`, condition `k` measured
/// against `cutoffs[k]` when it is a date condition.
pub fn build_where_with(rules: &SmartFeedRules, cutoffs: &Vec<i64>) -> (r: Option<(String, Vec<SqlParam>)>)
    requires
        cutoffs@.len() == rules.conditions@.len(),
    ensures
        where_view(r) == built_where(rules.conditions@, cutoffs@),
{
    let conds = &rules.conditions;
    if conds.len() == 0 {
        return Some((String::from_str("1=1"), Vec::new()));
    }
    let mut sql: Vec<char> = Vec::new();
    let mut params: Vec<SqlParam> = Vec::new();
    let mut k: usize = 0;
    assert(conds@.take(0) =~= Seq::<Condition>::empty());
    assert(params_view(params@) =~= Seq::<ParamView>::empty());
    while k < conds.len()
        invariant
            k <= conds@.len(),
            conds@ == rules.conditions@,
            conds@.len() > 0,
            cutoffs@.len() == conds@.len(),
            where_parts(conds@.take(k as int), cutoffs@) == Some((sql@, params_view(params@))),
        decreases conds@.len() - k,
    {
        let c = &conds[k];
        assert(conds@.take(k + 1).drop_last() =~= conds@.take(k as int));
        assert(conds@.take(k + 1).last() == *c);
        let (frag, mut bind) = condition_sql_with_cutoff(c, cutoffs[k]);
        let ren = renumbered_text(frag.as_str(), params.len());
        match ren {
            None => {
                proof {
                    assert(params_view(params@).len() == params@.len());
                    assert(where_parts(conds@.take(k + 1), cutoffs@) is None);
                    lemma_where_parts_prefix(conds@, cutoffs@, k + 1);
                }
                return None;
            },
            Some(t) => {
                let ghost before = sql@;
                if k > 0 {
                    push_str_chars(&mut sql, " AND ");
                }
                sql.push('(');
                push_str_chars(&mut sql, t.as_str());
                sql.push(')');
                let ghost p0 = params@;
                let ghost b0 = bind@;
                params.append(&mut bind);
                proof {
                    assert(params_view(params@) =~= params_view(p0) + params_view(b0));
                    if k == 0 {
                        assert(sql@ =~= seq!['('] + t@ + seq![')']);
                    } else {
                        assert(sql@ =~= before + " AND "@ + (seq!['('] + t@ + seq![')']));
                    }
                    assert(conds@.take(k + 1).len() == k + 1);
                }
            },
        }
        k += 1;
    }
    assert(conds@.take(k as int) =~= conds@);
    Some((string_from_chars(sql.as_slice()), params))
}

/// No condition of `conds` is a date condition.
pub open spec fn no_date_conditions(conds: Seq<Condition>) -> bool {
    forall|k: int| 0 <= k < conds.len() ==> !is_date_condition(#[trigger] conds[k])
}

/// The `WHERE` clause and parameters of `rules`, the date conditions
/// measured from now. Without date conditions it is exactly the clause of
/// `built_where`; with them it is that clause for some cutoff times, or
/// `None` where a cutoff falls outside the representable dates.
pub fn build_where(rules: &SmartFeedRules) -> (r: Option<(String, Vec<SqlParam>)>)
    ensures
        no_date_conditions(rules.conditions@) ==> where_view(r) == built_where(
            rules.conditions@,
            Seq::new(rules.conditions@.len(), |i: int| 0i64),
        ),
        r is Some ==> exists|cutoffs: Seq<i64>|
            cutoffs.len() == rules.conditions@.len() && where_view(r) == #[trigger] built_where(rules.conditions@, cutoffs),
{
    let conds = &rules.conditions;
    let mut cutoffs: Vec<i64> = Vec::new();
    let mut k: usize = 0;
    while k < conds.len()
        invariant
            k <= conds@.len(),
            conds@ == rules.conditions@,
            cutoffs@.len() == k,
            forall|j: int| 0 <= j < k && !is_date_condition(conds@[j]) ==> #[trigger] cutoffs@[j] == 0,
        decreases conds@.len() - k,
    {
        let t: i64 = match &conds[k] {
            Condition::NewerThanDays { days } => match days_ago_timestamp(*days) {
                Some(t) => t,
                None => {
                    assert(is_date_condition(conds@[k as int]));
                    return None;
                },
            },
            Condition::OlderThanDays { days } => match days_ago_timestamp(*days) {
                Some(t) => t,
                None => {
                    assert(is_date_condition(conds@[k as int]));
                    return None;
                },
            },
            _ => 0,
        };
        cutoffs.push(t);
        k += 1;
    }
    let r = build_where_with(rules, &cutoffs);
    proof {
        if no_date_conditions(conds@) {
            assert(cutoffs@ =~= Seq::new(conds@.len(), |i: int| 0i64));
        }
    }
    r
}

/// A flag condition selects exactly the articles whose flag is the one
/// asked for: the stored flag (a missing status row counting as clear) is
/// compared with `1` for set and with `0` for clear, and nothing is bound.
pub proof fn lemma_flag_conditions_select_the_flag(b: bool, cutoff: i64)
    ensures
        condition_text(Condition::Starred { starred: b }) == "COALESCE(s.starred, 0) = "@ + (if b {
            "1"@
        } else {
            "0"@
        }),
        condition_text(Condition::Read { read: b }) == "COALESCE(s.read, 0) = "@ + (if b {
            "1"@
        } else {
            "0"@
        }),
        condition_params(Condition::Starred { starred: b }, cutoff).len() == 0,
        condition_params(Condition::Read { read: b }, cutoff).len() == 0,
{
    reveal_strlit("COALESCE(s.starred, 0) = ");
    reveal_strlit("COALESCE(s.read, 0) = ");
    reveal_strlit("1");
    reveal_strlit("0");
    reveal_strlit("COALESCE(s.starred, 0) = 1");
    reveal_strlit("COALESCE(s.starred, 0) = 0");
    reveal_strlit("COALESCE(s.read, 0) = 1");
    reveal_strlit("COALESCE(s.read, 0) = 0");
    assert(STARRED_SQL@ =~= "COALESCE(s.starred, 0) = "@ + "1"@);
    assert(UNSTARRED_SQL@ =~= "COALESCE(s.starred, 0) = "@ + "0"@);
    assert(READ_SQL@ =~= "COALESCE(s.read, 0) = "@ + "1"@);
    assert(UNREAD_SQL@ =~= "COALESCE(s.read, 0) = "@ + "0"@);
}

/// The date conditions compare the publication time (the modification
/// time when there is none) with the one bound value, the cutoff: at or
/// after it for "newer than", strictly before it for "older than". A feed
/// condition binds the feed id itself, compared for equality.
pub proof fn lemma_date_and_feed_conditions_bind(days: i64, cutoff: i64, feed_id: String)
    ensures
        condition_text(Condition::NewerThanDays { days }) == "COALESCE(a.date_published, a.date_modified) >= ?1"@,
        condition_text(Condition::OlderThanDays { days }) == "COALESCE(a.date_published, a.date_modified) < ?1"@,
        condition_params(Condition::NewerThanDays { days }, cutoff) == seq![ParamView::Integer(cutoff)],
        condition_params(Condition::OlderThanDays { days }, cutoff) == seq![ParamView::Integer(cutoff)],
        condition_text(Condition::FeedIs { feed_id }) == "a.feed_id = ?1"@,
        condition_params(Condition::FeedIs { feed_id }, cutoff) == seq![ParamView::Text(feed_id@)],
{
    reveal_strlit("COALESCE(a.date_published, a.date_modified) >= ?1");
    reveal_strlit("COALESCE(a.date_published, a.date_modified) < ?1");
    reveal_strlit("a.feed_id = ?1");
    assert(NEWER_SQL@ =~= "COALESCE(a.date_published, a.date_modified) >= ?1"@);
    assert(OLDER_SQL@ =~= "COALESCE(a.date_published, a.date_modified) < ?1"@);
    assert(FEED_SQL@ =~= "a.feed_id = ?1"@);
}


} // verus!

