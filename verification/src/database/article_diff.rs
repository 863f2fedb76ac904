//! What a feed update changes in the article store: which parsed items are
//! new, which changed, which stored articles left the feed, which of those
//! are deleted, and which new articles start out read.
use vstd::prelude::*;
use crate::chars::text_eq;
use crate::database::articles::{article_id, article_id_for};
use crate::database::opml::strs_view;
use crate::models::{
    articles_view, attachment_list_view, authors_view, duplicate_attachments, duplicate_authors, opt_clone, opt_view,
    Article, ArticleView, Attachment, Author, ParsedItem,
};

verus! {

/// New articles published longer ago than this many days start out read.
pub const STALE_INTERVAL_DAYS: i64 = 180;

/// Days a deleted feed's unstarred articles are kept when the caller gives
/// no other figure.
pub const DEFAULT_RETENTION_DAYS: i64 = 30;

/// The article a parsed item becomes in feed `feed_id`: its id is the MD5
/// of the feed id and the item's id, the rest is the item's.
pub open spec fn parsed_article(p: ParsedItem, feed_id: Seq<char>) -> ArticleView {
    ArticleView {
        article_id: article_id(feed_id, p.id@),
        feed_id: feed_id,
        title: opt_view(p.title),
        content_html: opt_view(p.content_html),
        content_text: opt_view(p.content_text),
        url: opt_view(p.url),
        external_url: opt_view(p.external_url),
        summary: opt_view(p.summary),
        image_url: opt_view(p.image_url),
        date_published: p.date_published,
        date_modified: p.date_modified,
        authors: authors_view(p.authors@),
        attachments: attachment_list_view(p.attachments@),
    }
}

pub fn parsed_to_article(p: &ParsedItem, feed_id: &str) -> (r: Article)
    ensures
        r@ == parsed_article(*p, feed_id@),
{
    Article {
        article_id: article_id_for(feed_id, p.id.as_str()),
        feed_id: String::from_str(feed_id),
        title: opt_clone(&p.title),
        content_html: opt_clone(&p.content_html),
        content_text: opt_clone(&p.content_text),
        url: opt_clone(&p.url),
        external_url: opt_clone(&p.external_url),
        summary: opt_clone(&p.summary),
        image_url: opt_clone(&p.image_url),
        date_published: p.date_published,
        date_modified: p.date_modified,
        authors: duplicate_authors(&p.authors),
        attachments: duplicate_attachments(&p.attachments),
    }
}

fn opt_text_eq(a: &Option<String>, b: &Option<String>) -> (r: bool)
    ensures
        r == (opt_view(*a) == opt_view(*b)),
{
    match (a, b) {
        (Some(x), Some(y)) => text_eq(x.as_str(), y.as_str()),
        (None, None) => true,
        _ => false,
    }
}

fn author_eq(a: &Author, b: &Author) -> (r: bool)
    ensures
        r == (a@ == b@),
{
    opt_text_eq(&a.name, &b.name) && opt_text_eq(&a.url, &b.url) && opt_text_eq(&a.avatar_url, &b.avatar_url)
        && opt_text_eq(&a.email, &b.email)
}

fn attachment_eq(a: &Attachment, b: &Attachment) -> (r: bool)
    ensures
        r == (a@ == b@),
{
    text_eq(a.url.as_str(), b.url.as_str()) && opt_text_eq(&a.mime_type, &b.mime_type) && opt_text_eq(
        &a.title,
        &b.title,
    ) && a.size_in_bytes == b.size_in_bytes && a.duration_in_seconds == b.duration_in_seconds
}

fn authors_eq(a: &Vec<Author>, b: &Vec<Author>) -> (r: bool)
    ensures
        r == (authors_view(a@) == authors_view(b@)),
{
    if a.len() != b.len() {
        assert(authors_view(a@).len() != authors_view(b@).len());
        return false;
    }
    let mut i: usize = 0;
    while i < a.len()
        invariant
            i <= a@.len(),
            a@.len() == b@.len(),
            forall|k: int| 0 <= k < i ==> #[trigger] a@[k]@ == b@[k]@,
        decreases a@.len() - i,
    {
        if !author_eq(&a[i], &b[i]) {
            assert(authors_view(a@)[i as int] != authors_view(b@)[i as int]);
            return false;
        }
        i += 1;
    }
    assert(authors_view(a@) =~= authors_view(b@));
    true
}

fn attachments_eq(a: &Vec<Attachment>, b: &Vec<Attachment>) -> (r: bool)
    ensures
        r == (attachment_list_view(a@) == attachment_list_view(b@)),
{
    if a.len() != b.len() {
        assert(attachment_list_view(a@).len() != attachment_list_view(b@).len());
        return false;
    }
    let mut i: usize = 0;
    while i < a.len()
        invariant
            i <= a@.len(),
            a@.len() == b@.len(),
            forall|k: int| 0 <= k < i ==> #[trigger] a@[k]@ == b@[k]@,
        decreases a@.len() - i,
    {
        if !attachment_eq(&a[i], &b[i]) {
            assert(attachment_list_view(a@)[i as int] != attachment_list_view(b@)[i as int]);
            return false;
        }
        i += 1;
    }
    assert(attachment_list_view(a@) =~= attachment_list_view(b@));
    true
}

/// Whether two articles hold the same values in every field.
pub fn same_article(a: &Article, b: &Article) -> (r: bool)
    ensures
        r == (a@ == b@),
{
    text_eq(a.article_id.as_str(), b.article_id.as_str()) && text_eq(a.feed_id.as_str(), b.feed_id.as_str())
        && opt_text_eq(&a.title, &b.title) && opt_text_eq(&a.content_html, &b.content_html) && opt_text_eq(
        &a.content_text,
        &b.content_text,
    ) && opt_text_eq(&a.url, &b.url) && opt_text_eq(&a.external_url, &b.external_url) && opt_text_eq(
        &a.summary,
        &b.summary,
    ) && opt_text_eq(&a.image_url, &b.image_url) && a.date_published == b.date_published && a.date_modified
        == b.date_modified && authors_eq(&a.authors, &b.authors) && attachments_eq(&a.attachments, &b.attachments)
}

/// Some article of `s` has the id.
pub open spec fn has_id(s: Seq<ArticleView>, id: Seq<char>) -> bool {
    exists|i: int| 0 <= i < s.len() && #[trigger] s[i].article_id == id
}

/// The articles keyed by id, the last of each id winning, in the order of
/// those last occurrences.
pub open spec fn keep_last(s: Seq<ArticleView>) -> Seq<ArticleView>
    decreases s.len(),
{
    if s.len() == 0 {
        seq![]
    } else if has_id(s.drop_first(), s[0].article_id) {
        keep_last(s.drop_first())
    } else {
        seq![s[0]] + keep_last(s.drop_first())
    }
}

/// The last article of `s` with the id.
pub open spec fn find_last(s: Seq<ArticleView>, id: Seq<char>) -> Option<ArticleView>
    decreases s.len(),
{
    if s.len() == 0 {
        None
    } else if s.last().article_id == id {
        Some(s.last())
    } else {
        find_last(s.drop_last(), id)
    }
}

/// Incoming articles whose id is not stored.
pub open spec fn fresh(incoming: Seq<ArticleView>, existing: Seq<ArticleView>) -> Seq<ArticleView>
    decreases incoming.len(),
{
    if incoming.len() == 0 {
        seq![]
    } else {
        let rest = fresh(incoming.drop_last(), existing);
        if find_last(existing, incoming.last().article_id) is None {
            rest.push(incoming.last())
        } else {
            rest
        }
    }
}

/// Incoming articles stored with different values.
pub open spec fn changed(incoming: Seq<ArticleView>, existing: Seq<ArticleView>) -> Seq<ArticleView>
    decreases incoming.len(),
{
    if incoming.len() == 0 {
        seq![]
    } else {
        let rest = changed(incoming.drop_last(), existing);
        match find_last(existing, incoming.last().article_id) {
            Some(e) => if e != incoming.last() {
                rest.push(incoming.last())
            } else {
                rest
            },
            None => rest,
        }
    }
}

/// Ids of stored articles that the incoming ones no longer hold.
pub open spec fn left_feed(existing: Seq<ArticleView>, incoming: Seq<ArticleView>) -> Seq<Seq<char>>
    decreases existing.len(),
{
    if existing.len() == 0 {
        seq![]
    } else {
        let rest = left_feed(existing.drop_last(), incoming);
        if has_id(incoming, existing.last().article_id) {
            rest
        } else {
            rest.push(existing.last().article_id)
        }
    }
}

proof fn lemma_keep_last_from(s: Seq<ArticleView>)
    ensures
        keep_last(s).len() <= s.len(),
        forall|k: int| 0 <= k < keep_last(s).len() ==> exists|m: int| 0 <= m < s.len() && s[m] == #[trigger] keep_last(s)[k],
    decreases s.len(),
{
    if s.len() > 0 {
        let t = s.drop_first();
        lemma_keep_last_from(t);
        let r = keep_last(s);
        assert forall|k: int| 0 <= k < r.len() implies exists|m: int| 0 <= m < s.len() && s[m] == #[trigger] r[k] by {
            if has_id(t, s[0].article_id) {
                let m = choose|m: int| 0 <= m < t.len() && t[m] == keep_last(t)[k];
                assert(s[m + 1] == r[k]);
            } else if k == 0 {
                assert(s[0] == r[0]);
            } else {
                assert(r[k] == keep_last(t)[k - 1]);
                let m = choose|m: int| 0 <= m < t.len() && t[m] == keep_last(t)[k - 1];
                assert(s[m + 1] == r[k]);
            }
        }
    }
}

/// Incoming articles are keyed by id: no two articles that an update
/// considers share an id.
pub proof fn lemma_keep_last_distinct_ids(s: Seq<ArticleView>)
    ensures
        forall|i: int, j: int|
            0 <= i < j < keep_last(s).len() ==> #[trigger] keep_last(s)[i].article_id != #[trigger] keep_last(
                s,
            )[j].article_id,
    decreases s.len(),
{
    if s.len() > 0 {
        let t = s.drop_first();
        lemma_keep_last_distinct_ids(t);
        lemma_keep_last_from(t);
        let r = keep_last(s);
        if !has_id(t, s[0].article_id) {
            assert forall|i: int, j: int| 0 <= i < j < r.len() implies #[trigger] r[i].article_id
                != #[trigger] r[j].article_id by {
                if i == 0 {
                    assert(r[j] == keep_last(t)[j - 1]);
                    let m = choose|m: int| 0 <= m < t.len() && t[m] == keep_last(t)[j - 1];
                    assert(t[m].article_id == r[j].article_id);
                } else {
                    assert(r[i] == keep_last(t)[i - 1]);
                    assert(r[j] == keep_last(t)[j - 1]);
                }
            }
        }
    }
}

/// Every id among the parsed articles survives keying: some article with
/// it is considered, the last one of that id.
pub proof fn lemma_keep_last_keeps_every_id(s: Seq<ArticleView>, i: int)
    requires
        0 <= i < s.len(),
    ensures
        has_id(keep_last(s), s[i].article_id),
    decreases s.len(),
{
    let t = s.drop_first();
    if i == 0 {
        if has_id(t, s[0].article_id) {
            let m = choose|m: int| 0 <= m < t.len() && #[trigger] t[m].article_id == s[0].article_id;
            lemma_keep_last_keeps_every_id(t, m);
            let k = choose|k: int| 0 <= k < keep_last(t).len() && #[trigger] keep_last(t)[k].article_id == t[m].article_id;
            assert(keep_last(s)[k].article_id == s[0].article_id);
        } else {
            assert(keep_last(s)[0].article_id == s[0].article_id);
        }
    } else {
        assert(s[i] == t[i - 1]);
        lemma_keep_last_keeps_every_id(t, i - 1);
        let k = choose|k: int| 0 <= k < keep_last(t).len() && #[trigger] keep_last(t)[k].article_id == t[i - 1].article_id;
        if has_id(t, s[0].article_id) {
            assert(keep_last(s)[k].article_id == s[i].article_id);
        } else {
            assert(keep_last(s)[k + 1].article_id == s[i].article_id);
        }
    }
}

proof fn lemma_contains_push<A>(s: Seq<A>, x: A, a: A)
    ensures
        s.push(x).contains(a) <==> (s.contains(a) || x == a),
{
    if s.contains(a) {
        let i = choose|i: int| 0 <= i < s.len() && s[i] == a;
        assert(s.push(x)[i] == a);
    }
    if x == a {
        assert(s.push(x)[s.len() as int] == a);
    }
    if s.push(x).contains(a) {
        let i = choose|i: int| 0 <= i < s.push(x).len() && s.push(x)[i] == a;
        if i < s.len() {
            assert(s[i] == a);
        }
    }
}

proof fn lemma_contains_drop_last<A>(s: Seq<A>, a: A)
    requires
        s.len() > 0,
    ensures
        s.contains(a) <==> (s.drop_last().contains(a) || s.last() == a),
{
    assert(s =~= s.drop_last().push(s.last()));
    lemma_contains_push(s.drop_last(), s.last(), a);
}

/// An update classifies every article it considers exactly once: it is
/// new when its id is not stored, updated when it is stored with other
/// values, and left alone when stored as it is.
pub proof fn lemma_diff_classifies(incoming: Seq<ArticleView>, existing: Seq<ArticleView>, a: ArticleView)
    ensures
        fresh(incoming, existing).contains(a) <==> (incoming.contains(a) && find_last(existing, a.article_id) is None),
        changed(incoming, existing).contains(a) <==> (incoming.contains(a) && find_last(existing, a.article_id) is Some
            && find_last(existing, a.article_id)->0 != a),
        !(fresh(incoming, existing).contains(a) && changed(incoming, existing).contains(a)),
    decreases incoming.len(),
{
    if incoming.len() == 0 {
    } else {
        let d = incoming.drop_last();
        let x = incoming.last();
        lemma_diff_classifies(d, existing, a);
        lemma_contains_drop_last(incoming, a);
        lemma_contains_push(fresh(d, existing), x, a);
        lemma_contains_push(changed(d, existing), x, a);
    }
}

pub open spec fn parsed_articles(items: Seq<ParsedItem>, feed_id: Seq<char>) -> Seq<ArticleView> {
    items.map_values(|p: ParsedItem| parsed_article(p, feed_id))
}

/// What an update of feed `feed_id` with parsed `items` changes, given
/// the stored articles of the feed.
pub struct ArticleDiff {
    pub new_articles: Vec<Article>,
    pub updated_articles: Vec<Article>,
    pub left_feed_ids: Vec<String>,
}

fn has_id_exec(s: &Vec<Article>, from: usize, id: &String) -> (r: bool)
    requires
        from <= s@.len(),
    ensures
        r == has_id(articles_view(s@).skip(from as int), id@),
{
    let ghost t = articles_view(s@).skip(from as int);
    let mut i: usize = from;
    while i < s.len()
        invariant
            from <= i <= s@.len(),
            t == articles_view(s@).skip(from as int),
            forall|k: int| 0 <= k < i - from ==> #[trigger] t[k].article_id != id@,
        decreases s@.len() - i,
    {
        if text_eq(s[i].article_id.as_str(), id.as_str()) {
            assert(t[i - from].article_id == id@);
            return true;
        }
        assert(t[i - from] == s@[i as int]@);
        i += 1;
    }
    false
}

/// The articles keyed by id (`keep_last`).
fn keep_last_exec(s: &Vec<Article>) -> (r: Vec<Article>)
    ensures
        articles_view(r@) == keep_last(articles_view(s@)),
{
    let ghost all = articles_view(s@);
    let mut out: Vec<Article> = Vec::new();
    let mut i: usize = 0;
    assert(all.skip(0) =~= all);
    assert(articles_view(out@) + keep_last(all.skip(0)) =~= keep_last(all));
    while i < s.len()
        invariant
            i <= s@.len(),
            all == articles_view(s@),
            articles_view(out@) + keep_last(all.skip(i as int)) == keep_last(all),
        decreases s@.len() - i,
    {
        let ghost rest = all.skip(i as int);
        assert(rest.drop_first() =~= all.skip(i + 1));
        assert(rest[0] == s@[i as int]@);
        let later = has_id_exec(s, i + 1, &s[i].article_id);
        if !later {
            let ghost before = articles_view(out@);
            let a = s[i].duplicate();
            out.push(a);
            assert(articles_view(out@) =~= before.push(rest[0]));
            assert(before + (seq![rest[0]] + keep_last(rest.drop_first())) =~= before.push(rest[0]) + keep_last(
                rest.drop_first(),
            ));
        }
        i += 1;
    }
    assert(all.skip(i as int) =~= Seq::<ArticleView>::empty());
    assert(articles_view(out@) + Seq::<ArticleView>::empty() =~= articles_view(out@));
    out
}

/// The last stored article with the id, by index.
fn find_last_exec(s: &Vec<Article>, id: &String) -> (r: Option<usize>)
    ensures
        match r {
            Some(i) => i < s@.len() && find_last(articles_view(s@), id@) == Some(s@[i as int]@),
            None => find_last(articles_view(s@), id@) is None,
        },
{
    let ghost all = articles_view(s@);
    let mut i: usize = s.len();
    assert(all.take(all.len() as int) =~= all);
    while i > 0
        invariant
            i <= s@.len(),
            all == articles_view(s@),
            find_last(all, id@) == find_last(all.take(i as int), id@),
        decreases i,
    {
        let ghost t = all.take(i as int);
        assert(t.drop_last() =~= all.take(i - 1));
        assert(t.last() == s@[i - 1]@);
        if text_eq(s[i - 1].article_id.as_str(), id.as_str()) {
            return Some(i - 1);
        }
        i -= 1;
    }
    None
}

proof fn lemma_keep_last_same_ids(s: Seq<ArticleView>, id: Seq<char>)
    ensures
        has_id(keep_last(s), id) <==> has_id(s, id),
{
    if has_id(s, id) {
        let i = choose|i: int| 0 <= i < s.len() && #[trigger] s[i].article_id == id;
        lemma_keep_last_keeps_every_id(s, i);
    }
    if has_id(keep_last(s), id) {
        lemma_keep_last_from(s);
        let k = choose|k: int| 0 <= k < keep_last(s).len() && #[trigger] keep_last(s)[k].article_id == id;
        let m = choose|m: int| 0 <= m < s.len() && s[m] == #[trigger] keep_last(s)[k];
        assert(s[m].article_id == id);
    }
}

/// The ids a refresh reports as having left the feed are exactly the ids
/// of stored articles that no incoming article carries, wherever the
/// stored article stands.
pub proof fn lemma_left_feed_is_stored_minus_incoming(stored: Seq<ArticleView>, incoming: Seq<ArticleView>)
    ensures
        forall|id: Seq<char>|
            #[trigger] left_feed(stored, incoming).contains(id) <==> ((exists|i: int| 0 <= i < stored.len() && stored[i].article_id == id)
                && !(exists|j: int| 0 <= j < incoming.len() && incoming[j].article_id == id)),
    decreases stored.len(),
{
    if stored.len() > 0 {
        let d = stored.drop_last();
        lemma_left_feed_is_stored_minus_incoming(d, incoming);
        let l = left_feed(stored, incoming);
        let r = left_feed(d, incoming);
        assert forall|id: Seq<char>|
            #[trigger] l.contains(id) <==> ((exists|i: int| 0 <= i < stored.len() && stored[i].article_id == id) && !(exists|j: int|
                0 <= j < incoming.len() && incoming[j].article_id == id)) by {
            let last = stored.last().article_id;
            if has_id(incoming, last) {
                assert(l == r);
            } else {
                assert(l == r.push(last));
                if r.contains(id) {
                    let k = choose|k: int| 0 <= k < r.len() && r[k] == id;
                    assert(l[k] == id);
                }
                if id == last {
                    assert(l[l.len() - 1] == id);
                }
                if l.contains(id) && id != last {
                    let k = choose|k: int| 0 <= k < l.len() && l[k] == id;
                    assert(r[k] == id);
                }
            }
            if exists|i: int| 0 <= i < stored.len() && stored[i].article_id == id {
                let i = choose|i: int| 0 <= i < stored.len() && stored[i].article_id == id;
                if i < d.len() {
                    assert(d[i] == stored[i]);
                }
            }
            if exists|i: int| 0 <= i < d.len() && d[i].article_id == id {
                let i = choose|i: int| 0 <= i < d.len() && d[i].article_id == id;
                assert(stored[i] == d[i]);
            }
        }
    } else {
        assert forall|id: Seq<char>| !#[trigger] left_feed(stored, incoming).contains(id) by {}
    }
}

/// What an update changes: when `items` is empty, nothing; otherwise the
/// parsed articles keyed by id (`keep_last`) split into those not stored
/// (`fresh`) and those stored with other values (`changed`), and the ids
/// of stored articles the feed no longer holds (`left_feed`).
pub fn article_changes(items: &Vec<ParsedItem>, feed_id: &str, existing: &Vec<Article>) -> (d: ArticleDiff)
    ensures
        items@.len() == 0 ==> d.new_articles@.len() == 0 && d.updated_articles@.len() == 0
            && d.left_feed_ids@.len() == 0,
        items@.len() > 0 ==> {
            let incoming = keep_last(parsed_articles(items@, feed_id@));
            let stored = articles_view(existing@);
            &&& articles_view(d.new_articles@) == fresh(incoming, stored)
            &&& articles_view(d.updated_articles@) == changed(incoming, stored)
            &&& strs_view(d.left_feed_ids@) == left_feed(stored, incoming)
            &&& forall|id: Seq<char>|
                #[trigger] strs_view(d.left_feed_ids@).contains(id) <==> ((exists|i: int|
                    0 <= i < existing@.len() && existing@[i].article_id@ == id) && !(exists|j: int|
                    0 <= j < items@.len() && article_id(feed_id@, items@[j].id@) == id))
        },
{
    if items.len() == 0 {
        return ArticleDiff { new_articles: Vec::new(), updated_articles: Vec::new(), left_feed_ids: Vec::new() };
    }
    let mut parsed: Vec<Article> = Vec::new();
    let mut i: usize = 0;
    while i < items.len()
        invariant
            i <= items@.len(),
            articles_view(parsed@) == parsed_articles(items@, feed_id@).take(i as int),
        decreases items@.len() - i,
    {
        let ghost before = articles_view(parsed@);
        parsed.push(parsed_to_article(&items[i], feed_id));
        assert(articles_view(parsed@) =~= before.push(parsed_article(items@[i as int], feed_id@)));
        assert(parsed_articles(items@, feed_id@).take(i + 1) =~= parsed_articles(items@, feed_id@).take(
            i as int,
        ).push(parsed_article(items@[i as int], feed_id@)));
        i += 1;
    }
    assert(parsed_articles(items@, feed_id@).take(items@.len() as int) =~= parsed_articles(items@, feed_id@));
    let incoming = keep_last_exec(&parsed);
    let ghost inc = articles_view(incoming@);
    let ghost stored = articles_view(existing@);
    let mut new_articles: Vec<Article> = Vec::new();
    let mut updated_articles: Vec<Article> = Vec::new();
    let mut k: usize = 0;
    while k < incoming.len()
        invariant
            k <= incoming@.len(),
            inc == articles_view(incoming@),
            stored == articles_view(existing@),
            articles_view(new_articles@) == fresh(inc.take(k as int), stored),
            articles_view(updated_articles@) == changed(inc.take(k as int), stored),
        decreases incoming@.len() - k,
    {
        let ghost t = inc.take(k + 1);
        assert(t.drop_last() =~= inc.take(k as int));
        assert(t.last() == incoming@[k as int]@);
        let a = &incoming[k];
        match find_last_exec(existing, &a.article_id) {
            None => {
                let ghost before = articles_view(new_articles@);
                new_articles.push(a.duplicate());
                assert(articles_view(new_articles@) =~= before.push(a@));
            },
            Some(j) => {
                if !same_article(&existing[j], a) {
                    let ghost before = articles_view(updated_articles@);
                    updated_articles.push(a.duplicate());
                    assert(articles_view(updated_articles@) =~= before.push(a@));
                }
            },
        }
        k += 1;
    }
    assert(inc.take(incoming@.len() as int) =~= inc);
    let mut left: Vec<String> = Vec::new();
    let mut m: usize = 0;
    while m < existing.len()
        invariant
            m <= existing@.len(),
            inc == articles_view(incoming@),
            stored == articles_view(existing@),
            strs_view(left@) == left_feed(stored.take(m as int), inc),
        decreases existing@.len() - m,
    {
        let ghost t = stored.take(m + 1);
        assert(t.drop_last() =~= stored.take(m as int));
        assert(t.last() == existing@[m as int]@);
        assert(articles_view(incoming@).skip(0) =~= inc);
        if !has_id_exec(&incoming, 0, &existing[m].article_id) {
            let ghost before = strs_view(left@);
            left.push(existing[m].article_id.clone());
            assert(strs_view(left@) =~= before.push(existing@[m as int].article_id@));
        }
        m += 1;
    }
    assert(stored.take(existing@.len() as int) =~= stored);
    proof {
        lemma_left_feed_is_stored_minus_incoming(stored, inc);
        let parsed_v = parsed_articles(items@, feed_id@);
        assert forall|id: Seq<char>|
            #[trigger] strs_view(left@).contains(id) <==> ((exists|i: int|
                0 <= i < existing@.len() && existing@[i].article_id@ == id) && !(exists|j: int|
                0 <= j < items@.len() && article_id(feed_id@, items@[j].id@) == id)) by {
            lemma_keep_last_same_ids(parsed_v, id);
            if exists|j: int| 0 <= j < items@.len() && article_id(feed_id@, items@[j].id@) == id {
                let j = choose|j: int| 0 <= j < items@.len() && article_id(feed_id@, items@[j].id@) == id;
                assert(parsed_v[j].article_id == id);
            }
            if has_id(parsed_v, id) {
                let j = choose|j: int| 0 <= j < parsed_v.len() && #[trigger] parsed_v[j].article_id == id;
                assert(article_id(feed_id@, items@[j].id@) == id);
            }
            if exists|j: int| 0 <= j < inc.len() && inc[j].article_id == id {
                let j = choose|j: int| 0 <= j < inc.len() && inc[j].article_id == id;
                assert(has_id(inc, id));
            }
            if exists|i: int| 0 <= i < existing@.len() && existing@[i].article_id@ == id {
                let i = choose|i: int| 0 <= i < existing@.len() && existing@[i].article_id@ == id;
                assert(stored[i].article_id == id);
            }
            if exists|i: int| 0 <= i < stored.len() && stored[i].article_id == id {
                let i = choose|i: int| 0 <= i < stored.len() && stored[i].article_id == id;
                assert(existing@[i].article_id@ == id);
            }
        }
    }
    ArticleDiff { new_articles, updated_articles, left_feed_ids: left }
}

/// Whether chrono represents this many seconds after the Unix epoch as a
/// UTC time: from the first second of January 1 of the year -262143 to
/// the last second of December 31 of the year 262142, the range of its
/// dates.
pub open spec fn utc_timestamp_valid(secs: i64) -> bool {
    -8334601228800 <= secs <= 8210266876799
}

/// Trusted: calls `chrono::Utc.timestamp_opt(secs, 0).single()`, which is
/// a time exactly when the day of `secs` falls within chrono's range of
/// dates (years -262143 to 262142).
#[verifier::external_body]
pub(crate) fn timestamp_is_representable(secs: i64) -> (b: bool)
    ensures
        b == utc_timestamp_valid(secs),
{
    chrono::TimeZone::timestamp_opt(&chrono::Utc, secs, 0).single().is_some()
}

/// A stored article that left its feed is deleted when it has a status row
/// that is not starred and arrived before the retention cutoff (or at a
/// time chrono cannot represent); without a status row it stays.
pub open spec fn orphan_deleted(status: Option<(bool, i64)>, retention_cutoff_ms: i64) -> bool {
    match status {
        Some((starred, arrived)) => !starred && (!utc_timestamp_valid(arrived) || arrived * 1000 < retention_cutoff_ms),
        None => false,
    }
}

pub fn orphan_is_deleted(status: Option<(bool, i64)>, retention_cutoff_ms: i64) -> (b: bool)
    ensures
        b == orphan_deleted(status, retention_cutoff_ms),
{
    match status {
        Some((starred, arrived)) => {
            if starred {
                return false;
            }
            if !timestamp_is_representable(arrived) {
                return true;
            }
            (arrived as i128) * 1000 < retention_cutoff_ms as i128
        },
        None => false,
    }
}

/// A new article starts out read when it was published before the stale
/// cutoff.
pub open spec fn starts_read(date_published: Option<i64>, stale_cutoff_ms: i64) -> bool {
    match date_published {
        Some(d) => d * 1000 < stale_cutoff_ms,
        None => false,
    }
}

pub fn new_article_is_read(date_published: Option<i64>, stale_cutoff_ms: i64) -> (b: bool)
    ensures
        b == starts_read(date_published, stale_cutoff_ms),
{
    match date_published {
        Some(d) => (d as i128) * 1000 < stale_cutoff_ms as i128,
        None => false,
    }
}

} // verus!
