//! Article-store vocabulary: timeline sort order, smart-feed counts and
//! article identity.
use vstd::prelude::*;
use crate::hashing::{md5_hex, md5_hex_of};
use crate::models::{articles_view, Article, ArticleView};
use crate::sorting::{int_insertion_point, int_sorted, lemma_insert_by_int_at, lemma_sort_by_int_key_sorted, sort_by_int_key};

verus! {

/// Timeline sort direction, on the logical date (published, else
/// modified), ties broken by arrival order.
#[derive(Debug, Clone, Copy, Default, PartialEq, Eq, Structural)]
pub enum SortOrder {
    #[default]
    NewestFirst,
    OldestFirst,
}

impl SortOrder {
    /// The SQL `ORDER BY` tail, with `rowid` as the tie-breaker.
    pub fn order_by_clause(&self) -> (r: &'static str)
        ensures
            r@ == (match *self {
                SortOrder::NewestFirst => "ORDER BY COALESCE(date_published, date_modified) DESC, rowid DESC"@,
                SortOrder::OldestFirst => "ORDER BY COALESCE(date_published, date_modified) ASC, rowid ASC"@,
            }),
    {
        match self {
            SortOrder::NewestFirst => "ORDER BY COALESCE(date_published, date_modified) DESC, rowid DESC",
            SortOrder::OldestFirst => "ORDER BY COALESCE(date_published, date_modified) ASC, rowid ASC",
        }
    }

    /// The same tail with the `a.` alias of the smart-feed queries.
    pub fn order_by_clause_aliased(&self) -> (r: &'static str)
        ensures
            r@ == (match *self {
                SortOrder::NewestFirst => "ORDER BY COALESCE(a.date_published, a.date_modified) DESC, a.rowid DESC"@,
                SortOrder::OldestFirst => "ORDER BY COALESCE(a.date_published, a.date_modified) ASC, a.rowid ASC"@,
            }),
    {
        match self {
            SortOrder::NewestFirst => "ORDER BY COALESCE(a.date_published, a.date_modified) DESC, a.rowid DESC",
            SortOrder::OldestFirst => "ORDER BY COALESCE(a.date_published, a.date_modified) ASC, a.rowid ASC",
        }
    }
}

/// Unread counts of the three built-in smart feeds.
#[derive(Debug, Clone, Copy, Default, PartialEq, Eq, Structural)]
pub struct SmartFeedCounts {
    pub today_unread: i64,
    pub all_unread: i64,
    pub starred_unread: i64,
}

/// The article id of item `unique_id` of feed `feed_id`: the lowercase
/// hexadecimal MD5 of `"{feed_id} {unique_id}"`.
pub open spec fn article_id(feed_id: Seq<char>, unique_id: Seq<char>) -> Seq<char> {
    md5_hex(vstd::utf8::encode_utf8(feed_id) + seq![0x20u8] + vstd::utf8::encode_utf8(unique_id))
}

pub fn article_id_for(feed_id: &str, unique_id: &str) -> (r: String)
    ensures
        r@ == article_id(feed_id@, unique_id@),
{
    let a = feed_id.as_bytes();
    let b = unique_id.as_bytes();
    let mut data: Vec<u8> = Vec::new();
    let mut i: usize = 0;
    while i < a.len()
        invariant
            i <= a@.len(),
            data@ == a@.take(i as int),
        decreases a@.len() - i,
    {
        data.push(a[i]);
        i += 1;
        assert(data@ =~= a@.take(i as int));
    }
    data.push(0x20u8);
    let ghost mid = data@;
    let mut j: usize = 0;
    while j < b.len()
        invariant
            j <= b@.len(),
            data@ == mid + b@.take(j as int),
        decreases b@.len() - j,
    {
        data.push(b[j]);
        j += 1;
        assert(data@ =~= mid + b@.take(j as int));
    }
    assert(a@.take(i as int) =~= a@);
    assert(b@.take(j as int) =~= b@);
    assert(a@ == vstd::utf8::encode_utf8(feed_id@));
    assert(b@ == vstd::utf8::encode_utf8(unique_id@));
    assert(data@ =~= a@ + seq![0x20u8] + b@);
    md5_hex_of(data.as_slice())
}

/// The kinds of article-store operation, for log labels.
#[derive(Debug, Clone, Copy, PartialEq, Eq, Structural)]
pub enum ArticlesOpKind {
    BatchInsert,
    FetchByFeeds,
    UpsertStatuses,
    FetchByFeed,
    FetchByArticleId,
    FetchUnread,
    FetchStarred,
    FetchUnreadArticleIds,
    FetchStarredArticleIds,
    UpdateStatusesRead,
    UpdateStatusesStarred,
    FetchMissingArticleIds,
    FetchToday,
    FetchSmartFeed,
    Search,
    SearchWithSnippets,
    FetchStatusesByIds,
    UnreadCountsByFeed,
    SmartFeedCounts,
    UpdateFeed,
    DeleteArticlesNotInFeeds,
    DeleteOldStatuses,
    DeleteOrphanedAuthors,
    Vacuum,
    Checkpoint,
}

/// The log label of an operation kind: its variant name.
pub open spec fn op_label(op: ArticlesOpKind) -> Seq<char> {
    match op {
        ArticlesOpKind::BatchInsert => "BatchInsert"@,
        ArticlesOpKind::FetchByFeeds => "FetchByFeeds"@,
        ArticlesOpKind::UpsertStatuses => "UpsertStatuses"@,
        ArticlesOpKind::FetchByFeed => "FetchByFeed"@,
        ArticlesOpKind::FetchByArticleId => "FetchByArticleId"@,
        ArticlesOpKind::FetchUnread => "FetchUnread"@,
        ArticlesOpKind::FetchStarred => "FetchStarred"@,
        ArticlesOpKind::FetchUnreadArticleIds => "FetchUnreadArticleIds"@,
        ArticlesOpKind::FetchStarredArticleIds => "FetchStarredArticleIds"@,
        ArticlesOpKind::UpdateStatusesRead => "UpdateStatusesRead"@,
        ArticlesOpKind::UpdateStatusesStarred => "UpdateStatusesStarred"@,
        ArticlesOpKind::FetchMissingArticleIds => "FetchMissingArticleIds"@,
        ArticlesOpKind::FetchToday => "FetchToday"@,
        ArticlesOpKind::FetchSmartFeed => "FetchSmartFeed"@,
        ArticlesOpKind::Search => "Search"@,
        ArticlesOpKind::SearchWithSnippets => "SearchWithSnippets"@,
        ArticlesOpKind::FetchStatusesByIds => "FetchStatusesByIds"@,
        ArticlesOpKind::UnreadCountsByFeed => "UnreadCountsByFeed"@,
        ArticlesOpKind::SmartFeedCounts => "SmartFeedCounts"@,
        ArticlesOpKind::UpdateFeed => "UpdateFeed"@,
        ArticlesOpKind::DeleteArticlesNotInFeeds => "DeleteArticlesNotInFeeds"@,
        ArticlesOpKind::DeleteOldStatuses => "DeleteOldStatuses"@,
        ArticlesOpKind::DeleteOrphanedAuthors => "DeleteOrphanedAuthors"@,
        ArticlesOpKind::Vacuum => "Vacuum"@,
        ArticlesOpKind::Checkpoint => "Checkpoint"@,
    }
}

/// The log label of an operation kind.
pub fn articles_op_label(op: ArticlesOpKind) -> (r: &'static str)
    ensures
        r@ == op_label(op),
{
    match op {
        ArticlesOpKind::BatchInsert => "BatchInsert",
        ArticlesOpKind::FetchByFeeds => "FetchByFeeds",
        ArticlesOpKind::UpsertStatuses => "UpsertStatuses",
        ArticlesOpKind::FetchByFeed => "FetchByFeed",
        ArticlesOpKind::FetchByArticleId => "FetchByArticleId",
        ArticlesOpKind::FetchUnread => "FetchUnread",
        ArticlesOpKind::FetchStarred => "FetchStarred",
        ArticlesOpKind::FetchUnreadArticleIds => "FetchUnreadArticleIds",
        ArticlesOpKind::FetchStarredArticleIds => "FetchStarredArticleIds",
        ArticlesOpKind::UpdateStatusesRead => "UpdateStatusesRead",
        ArticlesOpKind::UpdateStatusesStarred => "UpdateStatusesStarred",
        ArticlesOpKind::FetchMissingArticleIds => "FetchMissingArticleIds",
        ArticlesOpKind::FetchToday => "FetchToday",
        ArticlesOpKind::FetchSmartFeed => "FetchSmartFeed",
        ArticlesOpKind::Search => "Search",
        ArticlesOpKind::SearchWithSnippets => "SearchWithSnippets",
        ArticlesOpKind::FetchStatusesByIds => "FetchStatusesByIds",
        ArticlesOpKind::UnreadCountsByFeed => "UnreadCountsByFeed",
        ArticlesOpKind::SmartFeedCounts => "SmartFeedCounts",
        ArticlesOpKind::UpdateFeed => "UpdateFeed",
        ArticlesOpKind::DeleteArticlesNotInFeeds => "DeleteArticlesNotInFeeds",
        ArticlesOpKind::DeleteOldStatuses => "DeleteOldStatuses",
        ArticlesOpKind::DeleteOrphanedAuthors => "DeleteOrphanedAuthors",
        ArticlesOpKind::Vacuum => "Vacuum",
        ArticlesOpKind::Checkpoint => "Checkpoint",
    }
}


/// An article's logical date: published, else modified.
pub open spec fn logical_date(a: ArticleView) -> Option<i64> {
    if a.date_published is Some {
        a.date_published
    } else {
        a.date_modified
    }
}

/// A date's place in `Option<i64>`'s order: no date before every date.
pub open spec fn date_rank(d: Option<i64>) -> int {
    match d {
        Some(x) => x as int,
        None => i64::MIN - 1,
    }
}

/// The sort key of a timeline in `order`: the logical date, negated for
/// newest first.
pub open spec fn timeline_key(order: SortOrder) -> spec_fn(ArticleView) -> int {
    |a: ArticleView|
        match order {
            SortOrder::NewestFirst => -date_rank(logical_date(a)),
            SortOrder::OldestFirst => date_rank(logical_date(a)),
        }
}

fn timeline_key_of(a: &Article, order: SortOrder) -> (k: i128)
    ensures
        k == (timeline_key(order))(a@),
{
    let d = match a.date_published {
        Some(x) => Some(x),
        None => a.date_modified,
    };
    let rank: i128 = match d {
        Some(x) => x as i128,
        None => i64::MIN as i128 - 1,
    };
    match order {
        SortOrder::NewestFirst => -rank,
        SortOrder::OldestFirst => rank,
    }
}

/// Copies of `articles` stably sorted on the logical date (published,
/// else modified; articles with neither come first oldest-first and last
/// newest-first): the order a timeline merged from several queries shows.
pub fn sort_by_logical_date(articles: &Vec<Article>, order: SortOrder) -> (r: Vec<Article>)
    ensures
        articles_view(r@) == sort_by_int_key(articles_view(articles@), timeline_key(order)),
        int_sorted(articles_view(r@), timeline_key(order)),
        articles_view(r@).to_multiset() =~= articles_view(articles@).to_multiset(),
{
    let mut sorted: Vec<Article> = Vec::new();
    let mut keys: Vec<i128> = Vec::new();
    let mut i: usize = 0;
    assert(articles_view(articles@.take(0)) =~= Seq::<ArticleView>::empty());
    assert(articles_view(sorted@) =~= Seq::<ArticleView>::empty());
    while i < articles.len()
        invariant
            i <= articles@.len(),
            articles_view(sorted@) == sort_by_int_key(articles_view(articles@.take(i as int)), timeline_key(order)),
            keys@.len() == sorted@.len(),
            forall|j: int| 0 <= j < keys@.len() ==> #[trigger] keys@[j] == (timeline_key(order))(sorted@[j]@),
        decreases articles@.len() - i,
    {
        let a = articles[i].duplicate();
        let k = timeline_key_of(&articles[i], order);
        let p = int_insertion_point(&keys, k);
        proof {
            let sv = articles_view(sorted@);
            assert forall|j: int| 0 <= j < p implies !((timeline_key(order))(a@) < #[trigger] (timeline_key(order))(
                sv[j],
            )) by {
                assert(keys@[j] == (timeline_key(order))(sorted@[j]@));
            }
            lemma_insert_by_int_at(sv, a@, timeline_key(order), p as int);
            assert(articles_view(articles@.take(i + 1)).drop_last() =~= articles_view(articles@.take(i as int)));
            assert(articles_view(articles@.take(i + 1)).last() == a@);
        }
        let ghost old_sorted = sorted@;
        sorted.insert(p, a);
        keys.insert(p, k);
        proof {
            assert(articles_view(sorted@) =~= articles_view(old_sorted).insert(p as int, sorted@[p as int]@));
            assert forall|j: int| 0 <= j < keys@.len() implies #[trigger] keys@[j] == (timeline_key(order))(
                sorted@[j]@,
            ) by {
                if j < p {
                    assert(sorted@[j] == old_sorted[j]);
                } else if j > p {
                    assert(sorted@[j] == old_sorted[j - 1]);
                }
            }
        }
        i += 1;
    }
    assert(articles@.take(i as int) =~= articles@);
    proof {
        lemma_sort_by_int_key_sorted(articles_view(articles@), timeline_key(order));
    }
    sorted
}

/// The SQL list of `n` placeholders, `?, ?, …, ?`.
pub open spec fn placeholders(n: nat) -> Seq<char>
    decreases n,
{
    if n == 0 {
        seq![]
    } else if n == 1 {
        "?"@
    } else {
        placeholders((n - 1) as nat) + ", ?"@
    }
}

pub fn sql_placeholders(n: usize) -> (r: String)
    ensures
        r@ == placeholders(n as nat),
{
    let mut out: Vec<char> = Vec::new();
    let mut i: usize = 0;
    while i < n
        invariant
            i <= n,
            out@ == placeholders(i as nat),
        decreases n - i,
    {
        if i > 0 {
            out.push(',');
            out.push(' ');
        }
        out.push('?');
        proof {
            reveal_strlit("?");
            reveal_strlit(", ?");
        }
        i += 1;
    }
    crate::chars::string_from_chars(out.as_slice())
}

} // verus!
