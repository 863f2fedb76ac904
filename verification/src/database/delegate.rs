//! Decisions of the Reader API sync cycle: the read-quota threshold, which
//! failures pause syncing, how queued status changes are batched, and
//! which local statuses a server reconcile changes.
use vstd::prelude::*;
use crate::chars::text_eq;
use crate::database::opml::{contains_string, strs_view};
use crate::database::article_diff::{timestamp_is_representable, utc_timestamp_valid};
use crate::database::articles::{article_id, article_id_for};
use crate::models::{opt_clone, opt_view, Article, ArticleView, Author, AuthorView};
use crate::network::inoreader::{item_unique_id, unique_id_for_article, ReaderAPIFailure, ReaderAPIUsageLimits};

verus! {

/// Downloads of item-id lists stop at 90 percent of a positive Zone 1
/// limit.
pub open spec fn near_limit(usage: int, limit: int) -> bool {
    limit > 0 && 10 * usage >= 9 * limit
}

/// Whether Zone 1 usage has reached 90 percent of a positive limit.
pub fn zone1_usage_near_limit(usage: i64, limit: i64) -> (b: bool)
    ensures
        b == near_limit(usage as int, limit as int),
{
    limit > 0 && 10 * (usage as i128) >= 9 * (limit as i128)
}

/// Status downloads are skipped while the latest usage report, not yet
/// reset at `now`, shows Zone 1 usage near its limit.
pub open spec fn skips_status_downloads(limits: Option<ReaderAPIUsageLimits>, now: i64) -> bool {
    match limits {
        Some(l) => l.reset_at > now && near_limit(l.zone1_usage as int, l.zone1_limit as int),
        None => false,
    }
}

pub fn should_skip_status_downloads_at(limits: Option<ReaderAPIUsageLimits>, now: i64) -> (b: bool)
    ensures
        b == skips_status_downloads(limits, now),
{
    match limits {
        None => false,
        Some(l) => {
            if l.reset_at <= now {
                return false;
            }
            zone1_usage_near_limit(l.zone1_usage, l.zone1_limit)
        },
    }
}

/// The delegate of an account that syncs with no service.
#[derive(Debug, Clone, Copy, PartialEq, Eq, Structural)]
pub struct LocalAccountDelegate;

impl LocalAccountDelegate {
    /// Always `true`: this is the local-only delegate.
    pub fn is_local(&self) -> (b: bool)
        ensures
            b,
    {
        true
    }
}

/// The pause that a rate-limited sync arms: no sync runs before
/// `resume_at` (milliseconds since the Unix epoch, UTC).
#[derive(Debug, Clone, Copy, Default, PartialEq, Eq)]
pub struct SyncRateLimiter {
    pub resume_at: Option<i64>,
}

impl SyncRateLimiter {
    /// No pause armed.
    pub fn new() -> (l: SyncRateLimiter)
        ensures
            l.resume_at is None,
    {
        SyncRateLimiter { resume_at: None }
    }

    /// Whether a pause is in force at `now`; a pause that has ended clears
    /// itself.
    pub fn should_skip_at(&mut self, now: i64) -> (b: bool)
        ensures
            b == (old(self).resume_at matches Some(r) && r > now),
            final(self).resume_at == (if b { old(self).resume_at } else { None }),
    {
        match self.resume_at {
            None => false,
            Some(r) => {
                if r > now {
                    true
                } else {
                    self.resume_at = None;
                    false
                }
            },
        }
    }

    /// Arms (or moves) the pause to end `retry_after_secs` seconds after
    /// `now`, and returns that time.
    pub fn note_rate_limited_at(&mut self, retry_after_secs: u64, now: i64) -> (resume: i64)
        requires
            now + retry_after_secs * 1000 <= i64::MAX,
        ensures
            resume == now + retry_after_secs * 1000,
            final(self).resume_at == Some(resume),
    {
        let resume = (now as i128 + retry_after_secs as i128 * 1000) as i64;
        self.resume_at = Some(resume);
        resume
    }
}

/// The pause a failure arms: only a rate limit with a positive delay
/// pauses; the zero-second placeholder never does.
pub fn retry_after_of(failure: &ReaderAPIFailure) -> (r: Option<u64>)
    ensures
        r == (match *failure {
            ReaderAPIFailure::RateLimited { retry_after_secs } => if retry_after_secs > 0 {
                Some(retry_after_secs)
            } else {
                None
            },
            ReaderAPIFailure::HttpStatus(_) => None,
        }),
{
    match failure {
        ReaderAPIFailure::RateLimited { retry_after_secs } => if *retry_after_secs > 0 {
            Some(*retry_after_secs)
        } else {
            None
        },
        ReaderAPIFailure::HttpStatus(_) => None,
    }
}

/// A queued local status change awaiting upload.
#[derive(Debug, Clone, PartialEq)]
pub struct SyncStatus {
    pub article_id: String,
    pub key: String,
    pub flag: bool,
    pub selected: bool,
}

pub open spec fn lit_read() -> Seq<char> {
    "read"@
}

pub open spec fn lit_starred() -> Seq<char> {
    "starred"@
}

/// Article ids of the statuses with key `key` and flag `flag`, in order.
pub open spec fn ids_with(s: Seq<SyncStatus>, key: Seq<char>, flag: bool) -> Seq<Seq<char>>
    decreases s.len(),
{
    if s.len() == 0 {
        Seq::empty()
    } else if s.last().key@ == key && s.last().flag == flag {
        ids_with(s.drop_last(), key, flag).push(s.last().article_id@)
    } else {
        ids_with(s.drop_last(), key, flag)
    }
}

/// Article ids of the statuses with key `key`, whatever the flag.
pub open spec fn ids_keyed(s: Seq<SyncStatus>, key: Seq<char>) -> Seq<Seq<char>>
    decreases s.len(),
{
    if s.len() == 0 {
        Seq::empty()
    } else if s.last().key@ == key {
        ids_keyed(s.drop_last(), key).push(s.last().article_id@)
    } else {
        ids_keyed(s.drop_last(), key)
    }
}

/// Queued statuses split into the four uploads.
pub struct StatusBatches {
    pub read: Vec<String>,
    pub unread: Vec<String>,
    pub starred: Vec<String>,
    pub unstarred: Vec<String>,
}

/// Splits queued statuses by key and flag into the read, unread, starred
/// and unstarred uploads; statuses with another key are ignored.
pub fn status_batches(statuses: &Vec<SyncStatus>) -> (b: StatusBatches)
    ensures
        strs_view(b.read@) == ids_with(statuses@, lit_read(), true),
        strs_view(b.unread@) == ids_with(statuses@, lit_read(), false),
        strs_view(b.starred@) == ids_with(statuses@, lit_starred(), true),
        strs_view(b.unstarred@) == ids_with(statuses@, lit_starred(), false),
{
    let mut b = StatusBatches { read: Vec::new(), unread: Vec::new(), starred: Vec::new(), unstarred: Vec::new() };
    let mut i: usize = 0;
    assert(statuses@.take(0) =~= Seq::<SyncStatus>::empty());
    assert(strs_view(b.read@) =~= Seq::<Seq<char>>::empty());
    assert(strs_view(b.unread@) =~= Seq::<Seq<char>>::empty());
    assert(strs_view(b.starred@) =~= Seq::<Seq<char>>::empty());
    assert(strs_view(b.unstarred@) =~= Seq::<Seq<char>>::empty());
    while i < statuses.len()
        invariant
            i <= statuses@.len(),
            strs_view(b.read@) == ids_with(statuses@.take(i as int), lit_read(), true),
            strs_view(b.unread@) == ids_with(statuses@.take(i as int), lit_read(), false),
            strs_view(b.starred@) == ids_with(statuses@.take(i as int), lit_starred(), true),
            strs_view(b.unstarred@) == ids_with(statuses@.take(i as int), lit_starred(), false),
        decreases statuses@.len() - i,
    {
        let s = &statuses[i];
        assert(statuses@.take(i + 1).drop_last() =~= statuses@.take(i as int));
        assert(statuses@.take(i + 1).last() == *s);
        let is_read = text_eq(s.key.as_str(), "read");
        let is_starred = text_eq(s.key.as_str(), "starred");
        let ghost (r0, u0, s0, x0) = (b.read@, b.unread@, b.starred@, b.unstarred@);
        if is_read && s.flag {
            b.read.push(s.article_id.clone());
            assert(strs_view(b.read@) =~= strs_view(r0).push(s.article_id@));
        } else if is_read {
            b.unread.push(s.article_id.clone());
            assert(strs_view(b.unread@) =~= strs_view(u0).push(s.article_id@));
        } else if is_starred && s.flag {
            b.starred.push(s.article_id.clone());
            assert(strs_view(b.starred@) =~= strs_view(s0).push(s.article_id@));
        } else if is_starred {
            b.unstarred.push(s.article_id.clone());
            assert(strs_view(b.unstarred@) =~= strs_view(x0).push(s.article_id@));
        }
        proof {
            reveal_strlit("read");
            reveal_strlit("starred");
            assert(lit_read() != lit_starred()) by {
                assert(lit_read().len() != lit_starred().len());
            }
        }
        i += 1;
    }
    assert(statuses@.take(i as int) =~= statuses@);
    b
}

fn ids_keyed_exec(statuses: &Vec<SyncStatus>, key: &str) -> (r: Vec<String>)
    ensures
        strs_view(r@) == ids_keyed(statuses@, key@),
{
    let mut r: Vec<String> = Vec::new();
    let mut i: usize = 0;
    assert(statuses@.take(0) =~= Seq::<SyncStatus>::empty());
    assert(strs_view(r@) =~= Seq::<Seq<char>>::empty());
    while i < statuses.len()
        invariant
            i <= statuses@.len(),
            strs_view(r@) == ids_keyed(statuses@.take(i as int), key@),
        decreases statuses@.len() - i,
    {
        assert(statuses@.take(i + 1).drop_last() =~= statuses@.take(i as int));
        assert(statuses@.take(i + 1).last() == statuses@[i as int]);
        if text_eq(statuses[i].key.as_str(), key) {
            let ghost r0 = r@;
            r.push(statuses[i].article_id.clone());
            assert(strs_view(r@) =~= strs_view(r0).push(statuses@[i as int].article_id@));
        }
        i += 1;
    }
    assert(statuses@.take(i as int) =~= statuses@);
    r
}

/// The ids of `s` in neither `a` nor `b`, in order.
pub open spec fn outside_both(s: Seq<Seq<char>>, a: Seq<Seq<char>>, b: Seq<Seq<char>>) -> Seq<Seq<char>>
    decreases s.len(),
{
    if s.len() == 0 {
        Seq::empty()
    } else if !a.contains(s.last()) && !b.contains(s.last()) {
        outside_both(s.drop_last(), a, b).push(s.last())
    } else {
        outside_both(s.drop_last(), a, b)
    }
}

fn outside_both_exec(s: &Vec<String>, a: &Vec<String>, b: &Vec<String>) -> (r: Vec<String>)
    ensures
        strs_view(r@) == outside_both(strs_view(s@), strs_view(a@), strs_view(b@)),
{
    let mut r: Vec<String> = Vec::new();
    let mut i: usize = 0;
    assert(strs_view(s@.take(0)) =~= Seq::<Seq<char>>::empty());
    assert(strs_view(r@) =~= Seq::<Seq<char>>::empty());
    while i < s.len()
        invariant
            i <= s@.len(),
            strs_view(r@) == outside_both(strs_view(s@.take(i as int)), strs_view(a@), strs_view(b@)),
        decreases s@.len() - i,
    {
        assert(strs_view(s@.take(i + 1)).drop_last() =~= strs_view(s@.take(i as int)));
        assert(strs_view(s@.take(i + 1)).last() == s@[i as int]@);
        if !contains_string(a, &s[i]) && !contains_string(b, &s[i]) {
            let ghost r0 = r@;
            r.push(s[i].clone());
            assert(strs_view(r@) =~= strs_view(r0).push(s@[i as int]@));
        }
        i += 1;
    }
    assert(s@.take(i as int) =~= s@);
    r
}


/// What `outside_both` keeps: exactly the members of `s` in neither `a`
/// nor `b`.
pub proof fn lemma_outside_both_members(s: Seq<Seq<char>>, a: Seq<Seq<char>>, b: Seq<Seq<char>>, x: Seq<char>)
    ensures
        outside_both(s, a, b).contains(x) <==> (s.contains(x) && !a.contains(x) && !b.contains(x)),
    decreases s.len(),
{
    if s.len() > 0 {
        lemma_outside_both_members(s.drop_last(), a, b, x);
        assert(s =~= s.drop_last().push(s.last()));
        if s.contains(x) && x != s.last() {
            let i = choose|i: int| 0 <= i < s.len() && s[i] == x;
            assert(s.drop_last()[i] == x);
        }
        if outside_both(s.drop_last(), a, b).contains(x) {
            let i = choose|i: int| 0 <= i < outside_both(s.drop_last(), a, b).len() && outside_both(s.drop_last(), a, b)[i] == x;
            if !a.contains(s.last()) && !b.contains(s.last()) {
                assert(outside_both(s, a, b)[i] == x);
            }
        }
        if s.drop_last().contains(x) {
            let i = choose|i: int| 0 <= i < s.drop_last().len() && s.drop_last()[i] == x;
            assert(s[i] == x);
        }
        if !a.contains(s.last()) && !b.contains(s.last()) {
            assert(outside_both(s, a, b).last() == s.last());
        }
    }
}

/// A reconcile leaves alone every article with a queued local change of
/// the reconciled kind (`read` or `starred`): neither of its two deltas of
/// that kind names it.
pub proof fn lemma_reconcile_leaves_pending_alone(
    remote: Seq<Seq<char>>,
    pending: Seq<SyncStatus>,
    local: Seq<Seq<char>>,
    key: Seq<char>,
    x: Seq<char>,
)
    requires
        ids_keyed(pending, key).contains(x),
    ensures
        !outside_both(remote, ids_keyed(pending, key), local).contains(x),
        !outside_both(local, remote, ids_keyed(pending, key)).contains(x),
{
    lemma_outside_both_members(remote, ids_keyed(pending, key), local, x);
    lemma_outside_both_members(local, remote, ids_keyed(pending, key), x);
}

/// After a reconcile, every article without a queued local change of the
/// reconciled kind is in the local set (kept, or added by the first
/// delta, and not removed by the second) exactly when the server has it.
pub proof fn lemma_reconcile_matches_server(
    remote: Seq<Seq<char>>,
    pending: Seq<SyncStatus>,
    local: Seq<Seq<char>>,
    key: Seq<char>,
    x: Seq<char>,
)
    requires
        !ids_keyed(pending, key).contains(x),
    ensures
        ((local.contains(x) && !outside_both(local, remote, ids_keyed(pending, key)).contains(x)) || outside_both(
            remote,
            ids_keyed(pending, key),
            local,
        ).contains(x)) <==> remote.contains(x),
{
    lemma_outside_both_members(remote, ids_keyed(pending, key), local, x);
    lemma_outside_both_members(local, remote, ids_keyed(pending, key), x);
}

/// Local status changes a server reconcile makes.
pub struct StatusDeltas {
    /// Unread on the server, read here: mark unread.
    pub unread: Vec<String>,
    /// Unread here, read on the server: mark read.
    pub read: Vec<String>,
    /// Starred on the server, not here: star.
    pub starred: Vec<String>,
    /// Starred here, not on the server: unstar.
    pub unstarred: Vec<String>,
}

/// The reconcile of the server's unread and starred ids with the local
/// ones. An article with a queued local change of the same kind is left
/// alone: the local change has not reached the server yet.
pub fn status_deltas(
    remote_unread: &Vec<String>,
    remote_starred: &Vec<String>,
    pending: &Vec<SyncStatus>,
    local_unread: &Vec<String>,
    local_starred: &Vec<String>,
) -> (d: StatusDeltas)
    ensures
        strs_view(d.unread@) == outside_both(strs_view(remote_unread@), ids_keyed(pending@, lit_read()), strs_view(local_unread@)),
        strs_view(d.read@) == outside_both(strs_view(local_unread@), strs_view(remote_unread@), ids_keyed(pending@, lit_read())),
        strs_view(d.starred@) == outside_both(strs_view(remote_starred@), ids_keyed(pending@, lit_starred()), strs_view(local_starred@)),
        strs_view(d.unstarred@) == outside_both(strs_view(local_starred@), strs_view(remote_starred@), ids_keyed(pending@, lit_starred())),
{
    let pending_read = ids_keyed_exec(pending, "read");
    let pending_starred = ids_keyed_exec(pending, "starred");
    StatusDeltas {
        unread: outside_both_exec(remote_unread, &pending_read, local_unread),
        read: outside_both_exec(local_unread, remote_unread, &pending_read),
        starred: outside_both_exec(remote_starred, &pending_starred, local_starred),
        unstarred: outside_both_exec(local_starred, remote_starred, &pending_starred),
    }
}

/// The (article id, key) pairs to clear once a batch has landed.
pub fn landed_pairs(ids: &Vec<String>, key: &str) -> (r: Vec<(String, String)>)
    ensures
        r@.len() == ids@.len(),
        forall|i: int| 0 <= i < ids@.len() ==> #[trigger] r@[i].0@ == ids@[i]@ && r@[i].1@ == key@,
{
    let mut r: Vec<(String, String)> = Vec::new();
    let mut i: usize = 0;
    while i < ids.len()
        invariant
            i <= ids@.len(),
            r@.len() == i,
            forall|k: int| 0 <= k < i ==> #[trigger] r@[k].0@ == ids@[k]@ && r@[k].1@ == key@,
        decreases ids@.len() - i,
    {
        r.push((ids[i].clone(), String::from_str(key)));
        i += 1;
    }
    r
}


/// The article a downloaded entry becomes: none without the stream (feed)
/// it came from; else identified by its feed and decimal unique id, its
/// content as both body and summary, its first alternate link as the
/// external URL, its author's name as the only author, and its
/// publication time (whole seconds) when chrono can represent it.
pub open spec fn entry_article(
    stream_id: Option<Seq<char>>,
    entry_id: Seq<char>,
    title: Option<Seq<char>>,
    author: Option<Seq<char>>,
    content: Option<Seq<char>>,
    alternate_url: Option<Seq<char>>,
    published_secs: Option<i64>,
) -> Option<ArticleView> {
    match stream_id {
        None => None,
        Some(feed) => Some(
            ArticleView {
                article_id: article_id(feed, item_unique_id(entry_id)),
                feed_id: feed,
                title,
                content_html: content,
                content_text: None,
                url: None,
                external_url: alternate_url,
                summary: content,
                image_url: None,
                date_published: match published_secs {
                    Some(t) => if utc_timestamp_valid(t) { Some(t) } else { None },
                    None => None,
                },
                date_modified: None,
                authors: match author {
                    Some(n) => seq![AuthorView { name: Some(n), url: None, avatar_url: None, email: None }],
                    None => seq![],
                },
                attachments: seq![],
            },
        ),
    }
}

pub fn article_from_entry(
    stream_id: Option<&str>,
    entry_id: &str,
    title: Option<String>,
    author: Option<String>,
    content: Option<String>,
    alternate_url: Option<String>,
    published_secs: Option<i64>,
) -> (r: Option<Article>)
    ensures
        match r {
            Some(a) => entry_article(
                match stream_id { Some(s) => Some(s@), None => None },
                entry_id@,
                opt_view(title),
                opt_view(author),
                opt_view(content),
                opt_view(alternate_url),
                published_secs,
            ) == Some(a@),
            None => entry_article(
                match stream_id { Some(s) => Some(s@), None => None },
                entry_id@,
                opt_view(title),
                opt_view(author),
                opt_view(content),
                opt_view(alternate_url),
                published_secs,
            ) is None,
        },
{
    let feed = match stream_id {
        Some(s) => s,
        None => return None,
    };
    let unique = unique_id_for_article(entry_id);
    let id = article_id_for(feed, unique.as_str());
    let date = match published_secs {
        Some(t) => if timestamp_is_representable(t) { Some(t) } else { None },
        None => None,
    };
    let ghost author_v = opt_view(author);
    let mut authors: Vec<Author> = Vec::new();
    match author {
        Some(n) => authors.push(Author { name: Some(n), url: None, avatar_url: None, email: None }),
        None => {},
    }
    assert(crate::models::authors_view(authors@) =~= match author_v {
        Some(n) => seq![AuthorView { name: Some(n), url: None, avatar_url: None, email: None }],
        None => Seq::<AuthorView>::empty(),
    });
    let a = Article {
        article_id: id,
        feed_id: String::from_str(feed),
        title,
        content_html: opt_clone(&content),
        content_text: None,
        url: None,
        external_url: alternate_url,
        summary: content,
        image_url: None,
        date_published: date,
        date_modified: None,
        authors,
        attachments: Vec::new(),
    };
    assert(crate::models::attachment_list_view(a.attachments@) =~= Seq::<crate::models::AttachmentView>::empty());
    Some(a)
}

// ---------------------------------------------------------------------
// The order of a Reader API sync cycle
// ---------------------------------------------------------------------

/// The number of status upload batches: read, unread, starred, unstarred.
pub const STATUS_BATCH_COUNT: u8 = 4;

/// Where a sync cycle stands.
#[derive(Debug, Clone, Copy, PartialEq, Eq, Structural)]
pub enum SyncPhase {
    /// The subscription and tag lists are being fetched.
    Lists,
    /// The reconciled subscription tree is being saved.
    Saving,
    /// The lists' conditional-GET markers are being stored.
    Marking,
    /// Status upload batch `i` is being sent.
    Uploading(u8),
    /// The rows of landed batch `i` are being cleared.
    Clearing(u8),
    /// Server statuses and missing articles are being fetched.
    Downloading,
    Done,
}

/// What the last action came to.
#[derive(Debug, Clone, Copy, PartialEq, Eq, Structural)]
pub enum SyncEvent {
    /// Both lists came; `true` where both changed (no 304).
    ListsFetched(bool),
    Saved,
    MarkersStored,
    /// The batch had no rows, so nothing was sent.
    BatchEmpty,
    BatchLanded,
    /// The send failed; its rows stay queued.
    BatchFailed,
    /// The send was refused with a 429 and a retry delay in seconds.
    RateLimited(u64),
    Cleared,
    Finished,
}

/// What to do next.
#[derive(Debug, Clone, Copy, PartialEq, Eq, Structural)]
pub enum SyncAction {
    /// Reconcile the lists with the local tree and save it.
    Reconcile,
    StoreMarkers,
    /// Send status batch `i`.
    Send(u8),
    /// Clear the queued rows of landed batch `i`.
    Clear(u8),
    /// Pause syncing for that many seconds, then fetch server statuses.
    PauseThenDownload(u64),
    /// Fetch server statuses and missing articles.
    Download,
    Stop,
}

/// After batch `i`: the next batch, or the downloads after the last.
pub open spec fn after_batch(i: u8) -> (SyncPhase, SyncAction) {
    if i + 1 < STATUS_BATCH_COUNT {
        (SyncPhase::Uploading((i + 1) as u8), SyncAction::Send((i + 1) as u8))
    } else {
        (SyncPhase::Downloading, SyncAction::Download)
    }
}

/// The order of a cycle: lists that both changed are reconciled and saved,
/// and only then are their markers stored (a 304 on either skips both);
/// the status batches go up one by one, a landed batch's rows are cleared,
/// a failed batch stays queued, and a 429 pauses syncing and sends no more
/// batches this cycle; the downloads come last. An event that does not fit
/// the phase stops the cycle.
pub open spec fn sync_next(p: SyncPhase, e: SyncEvent) -> (SyncPhase, SyncAction) {
    match (p, e) {
        (SyncPhase::Lists, SyncEvent::ListsFetched(true)) => (SyncPhase::Saving, SyncAction::Reconcile),
        (SyncPhase::Lists, SyncEvent::ListsFetched(false)) => (SyncPhase::Uploading(0), SyncAction::Send(0)),
        (SyncPhase::Saving, SyncEvent::Saved) => (SyncPhase::Marking, SyncAction::StoreMarkers),
        (SyncPhase::Marking, SyncEvent::MarkersStored) => (SyncPhase::Uploading(0), SyncAction::Send(0)),
        (SyncPhase::Uploading(i), SyncEvent::BatchLanded) => (SyncPhase::Clearing(i), SyncAction::Clear(i)),
        (SyncPhase::Uploading(i), SyncEvent::BatchEmpty) => after_batch(i),
        (SyncPhase::Uploading(i), SyncEvent::BatchFailed) => after_batch(i),
        (SyncPhase::Uploading(_), SyncEvent::RateLimited(secs)) => (SyncPhase::Downloading, SyncAction::PauseThenDownload(secs)),
        (SyncPhase::Clearing(i), SyncEvent::Cleared) => after_batch(i),
        (SyncPhase::Downloading, SyncEvent::Finished) => (SyncPhase::Done, SyncAction::Stop),
        _ => (SyncPhase::Done, SyncAction::Stop),
    }
}

fn after_batch_exec(i: u8) -> (r: (SyncPhase, SyncAction))
    ensures
        r == after_batch(i),
{
    if i < STATUS_BATCH_COUNT - 1 {
        (SyncPhase::Uploading(i + 1), SyncAction::Send(i + 1))
    } else {
        (SyncPhase::Downloading, SyncAction::Download)
    }
}

/// The next phase and action of a sync cycle after `e` in phase `p`.
pub fn sync_step(p: SyncPhase, e: SyncEvent) -> (r: (SyncPhase, SyncAction))
    ensures
        r == sync_next(p, e),
{
    match (p, e) {
        (SyncPhase::Lists, SyncEvent::ListsFetched(true)) => (SyncPhase::Saving, SyncAction::Reconcile),
        (SyncPhase::Lists, SyncEvent::ListsFetched(false)) => (SyncPhase::Uploading(0), SyncAction::Send(0)),
        (SyncPhase::Saving, SyncEvent::Saved) => (SyncPhase::Marking, SyncAction::StoreMarkers),
        (SyncPhase::Marking, SyncEvent::MarkersStored) => (SyncPhase::Uploading(0), SyncAction::Send(0)),
        (SyncPhase::Uploading(i), SyncEvent::BatchLanded) => (SyncPhase::Clearing(i), SyncAction::Clear(i)),
        (SyncPhase::Uploading(i), SyncEvent::BatchEmpty) => after_batch_exec(i),
        (SyncPhase::Uploading(i), SyncEvent::BatchFailed) => after_batch_exec(i),
        (SyncPhase::Uploading(_), SyncEvent::RateLimited(secs)) => (SyncPhase::Downloading, SyncAction::PauseThenDownload(secs)),
        (SyncPhase::Clearing(i), SyncEvent::Cleared) => after_batch_exec(i),
        (SyncPhase::Downloading, SyncEvent::Finished) => (SyncPhase::Done, SyncAction::Stop),
        _ => (SyncPhase::Done, SyncAction::Stop),
    }
}

/// The markers of the lists are stored only right after the reconciled
/// tree was saved, and a 304 on the lists leads straight to the uploads.
pub proof fn lemma_markers_only_after_save(p: SyncPhase, e: SyncEvent)
    ensures
        sync_next(p, e).1 == SyncAction::StoreMarkers ==> p == SyncPhase::Saving && e == SyncEvent::Saved,
        sync_next(p, e).1 == SyncAction::Reconcile ==> p == SyncPhase::Lists && e == SyncEvent::ListsFetched(true),
        sync_next(SyncPhase::Lists, SyncEvent::ListsFetched(false)) == (SyncPhase::Uploading(0), SyncAction::Send(0)),
{
}

/// A 429 on an upload pauses syncing and ends the uploads: from then on
/// the cycle sends no batch.
pub proof fn lemma_rate_limit_ends_uploads(i: u8, secs: u64, e: SyncEvent)
    ensures
        sync_next(SyncPhase::Uploading(i), SyncEvent::RateLimited(secs)) == (
            SyncPhase::Downloading,
            SyncAction::PauseThenDownload(secs),
        ),
        !(sync_next(SyncPhase::Downloading, e).1 is Send),
        !(sync_next(SyncPhase::Done, e).1 is Send),
{
}

} // verus!

