//! Merging an imported subscription list into the current one.
use vstd::prelude::*;
use crate::database::opml::{contains_string, distinct_urls, strs_view, urls_of, OpmlFile, OpmlView};
use crate::models::{duplicate_feeds, duplicate_folders, feeds_view, folders_view, Feed, FeedView, Folder, FolderView};

verus! {

/// The URLs of every feed in `fs`, folder by folder.
pub open spec fn folder_urls(fs: Seq<FolderView>) -> Seq<Seq<char>>
    decreases fs.len(),
{
    if fs.len() == 0 {
        Seq::empty()
    } else {
        folder_urls(fs.drop_last()) + urls_of(fs.last().feeds)
    }
}

/// The URLs of every feed of `file`: top-level feeds first, then each
/// folder's.
pub open spec fn all_urls(file: OpmlView) -> Seq<Seq<char>> {
    urls_of(file.standalone_feeds) + folder_urls(file.folders)
}

/// A merge in progress: the merged tree, the feeds added so far, and the
/// URLs already present.
pub struct MergeState {
    pub folders: Seq<FolderView>,
    pub standalone: Seq<FeedView>,
    pub added: Seq<FeedView>,
    pub known: Seq<Seq<char>>,
}

pub open spec fn merge_start(existing: OpmlView) -> MergeState {
    MergeState {
        folders: existing.folders,
        standalone: existing.standalone_feeds,
        added: Seq::empty(),
        known: all_urls(existing),
    }
}

/// An incoming top-level feed: appended unless its URL is already present.
pub open spec fn merge_top(st: MergeState, f: FeedView) -> MergeState {
    if st.known.contains(f.url) {
        st
    } else {
        MergeState {
            folders: st.folders,
            standalone: st.standalone.push(f),
            added: st.added.push(f),
            known: st.known.push(f.url),
        }
    }
}

pub open spec fn merge_tops(st: MergeState, s: Seq<FeedView>) -> MergeState
    decreases s.len(),
{
    if s.len() == 0 {
        st
    } else {
        merge_top(merge_tops(st, s.drop_last()), s.last())
    }
}

/// Index of the first folder named `name`, or -1.
pub open spec fn first_folder(fs: Seq<FolderView>, name: Seq<char>) -> int
    decreases fs.len(),
{
    if fs.len() == 0 {
        -1
    } else if fs[0].name == name {
        0
    } else {
        let r = first_folder(fs.drop_first(), name);
        if r < 0 {
            -1
        } else {
            r + 1
        }
    }
}

/// An incoming feed of a folder: appended to folder `idx` unless its URL is
/// already present.
pub open spec fn add_into(st: MergeState, idx: int, f: FeedView) -> MergeState {
    if st.known.contains(f.url) {
        st
    } else {
        MergeState {
            folders: st.folders.update(idx, FolderView { name: st.folders[idx].name, feeds: st.folders[idx].feeds.push(f) }),
            standalone: st.standalone,
            added: st.added.push(f),
            known: st.known.push(f.url),
        }
    }
}

pub open spec fn merge_into(st: MergeState, idx: int, s: Seq<FeedView>) -> MergeState
    decreases s.len(),
{
    if s.len() == 0 {
        st
    } else {
        add_into(merge_into(st, idx, s.drop_last()), idx, s.last())
    }
}

/// `st` with a folder named `name`, created empty at the end if missing.
pub open spec fn with_folder(st: MergeState, name: Seq<char>) -> MergeState {
    if first_folder(st.folders, name) >= 0 {
        st
    } else {
        MergeState {
            folders: st.folders.push(FolderView { name, feeds: Seq::empty() }),
            standalone: st.standalone,
            added: st.added,
            known: st.known,
        }
    }
}

/// An incoming folder: matched by name (case-sensitive), created if
/// missing, its new feeds appended.
pub open spec fn merge_folder(st: MergeState, fo: FolderView) -> MergeState {
    let st1 = with_folder(st, fo.name);
    merge_into(st1, first_folder(st1.folders, fo.name), fo.feeds)
}

pub open spec fn merge_folders(st: MergeState, s: Seq<FolderView>) -> MergeState
    decreases s.len(),
{
    if s.len() == 0 {
        st
    } else {
        merge_folder(merge_folders(st, s.drop_last()), s.last())
    }
}

/// The whole merge: incoming top-level feeds, then incoming folders.
pub open spec fn merged(existing: OpmlView, incoming: OpmlView) -> MergeState {
    merge_folders(merge_tops(merge_start(existing), incoming.standalone_feeds), incoming.folders)
}

pub open spec fn merge_state(folders: Seq<Folder>, standalone: Seq<Feed>, added: Seq<Feed>, known: Seq<String>) -> MergeState {
    MergeState {
        folders: folders_view(folders),
        standalone: feeds_view(standalone),
        added: feeds_view(added),
        known: strs_view(known),
    }
}

pub proof fn lemma_first_folder(fs: Seq<FolderView>, name: Seq<char>)
    ensures
        -1 <= first_folder(fs, name) < fs.len(),
        first_folder(fs, name) >= 0 ==> fs[first_folder(fs, name)].name == name,
        first_folder(fs, name) >= 0 ==> forall|j: int| 0 <= j < first_folder(fs, name) ==> #[trigger] fs[j].name != name,
        first_folder(fs, name) < 0 ==> forall|j: int| 0 <= j < fs.len() ==> #[trigger] fs[j].name != name,
    decreases fs.len(),
{
    if fs.len() > 0 && fs[0].name != name {
        lemma_first_folder(fs.drop_first(), name);
        let r = first_folder(fs.drop_first(), name);
        assert forall|j: int| 0 < j < fs.len() && (r < 0 || j < r + 1) implies #[trigger] fs[j].name != name by {
            assert(fs[j] == fs.drop_first()[j - 1]);
        }
    }
}

/// The URLs of every feed in `file`.
fn collect_urls(file: &OpmlFile) -> (known: Vec<String>)
    ensures
        strs_view(known@) == all_urls(file@),
{
    let mut known: Vec<String> = Vec::new();
    let mut i: usize = 0;
    while i < file.standalone_feeds.len()
        invariant
            i <= file.standalone_feeds@.len(),
            strs_view(known@) == urls_of(feeds_view(file.standalone_feeds@.take(i as int))),
        decreases file.standalone_feeds@.len() - i,
    {
        let ghost old_known = known@;
        known.push(file.standalone_feeds[i].url.clone());
        i += 1;
        assert(strs_view(known@) =~= strs_view(old_known).push(known@.last()@));
        assert(urls_of(feeds_view(file.standalone_feeds@.take(i as int))) =~= urls_of(
            feeds_view(file.standalone_feeds@.take(i - 1)),
        ).push(file.standalone_feeds@[i - 1].url@));
    }
    assert(file.standalone_feeds@.take(i as int) =~= file.standalone_feeds@);
    let ghost top = strs_view(known@);
    let mut j: usize = 0;
    assert(folders_view(file.folders@.take(0)) =~= Seq::<FolderView>::empty());
    assert(top + folder_urls(Seq::empty()) =~= top);
    while j < file.folders.len()
        invariant
            j <= file.folders@.len(),
            strs_view(known@) == top + folder_urls(folders_view(file.folders@.take(j as int))),
        decreases file.folders@.len() - j,
    {
        let feeds = &file.folders[j].feeds;
        let ghost before = strs_view(known@);
        let mut k: usize = 0;
        assert(before + urls_of(feeds_view(feeds@.take(0))) =~= before);
        while k < feeds.len()
            invariant
                k <= feeds@.len(),
                strs_view(known@) == before + urls_of(feeds_view(feeds@.take(k as int))),
            decreases feeds@.len() - k,
        {
            let ghost old_known = known@;
            known.push(feeds[k].url.clone());
            k += 1;
            assert(strs_view(known@) =~= strs_view(old_known).push(known@.last()@));
            assert(urls_of(feeds_view(feeds@.take(k as int))) =~= urls_of(feeds_view(feeds@.take(k - 1))).push(
                feeds@[k - 1].url@,
            ));
        }
        assert(feeds@.take(k as int) =~= feeds@);
        assert(folders_view(file.folders@.take(j + 1)).drop_last() =~= folders_view(file.folders@.take(j as int)));
        j += 1;
    }
    assert(file.folders@.take(j as int) =~= file.folders@);
    known
}

/// Merges a normalized incoming subscription list into `existing`. Feeds
/// whose URL is already present anywhere are skipped, so an existing feed
/// keeps its name; new top-level feeds are appended; incoming folders are
/// matched by name (case-sensitive) or created. Returns the merged list
/// and the feeds actually added, in order.
pub fn merge_opml(existing: &OpmlFile, incoming: OpmlFile) -> (r: (OpmlFile, Vec<Feed>))
    ensures
        r.0@.folders == merged(existing@, incoming@).folders,
        r.0@.standalone_feeds == merged(existing@, incoming@).standalone,
        feeds_view(r.1@) == merged(existing@, incoming@).added,
{
    let mut folders = duplicate_folders(&existing.folders);
    let mut standalone = duplicate_feeds(&existing.standalone_feeds);
    let mut added: Vec<Feed> = Vec::new();
    let mut known = collect_urls(existing);
    let ghost st0 = merge_start(existing@);
    assert(feeds_view(added@) =~= Seq::<FeedView>::empty());
    assert(merge_state(folders@, standalone@, added@, known@) == st0);
    let tops = &incoming.standalone_feeds;
    let mut i: usize = 0;
    assert(feeds_view(tops@.take(0)) =~= Seq::<FeedView>::empty());
    while i < tops.len()
        invariant
            i <= tops@.len(),
            merge_state(folders@, standalone@, added@, known@) == merge_tops(st0, feeds_view(tops@.take(i as int))),
        decreases tops@.len() - i,
    {
        let feed = &tops[i];
        assert(feeds_view(tops@.take(i + 1)).drop_last() =~= feeds_view(tops@.take(i as int)));
        assert(feeds_view(tops@.take(i + 1)).last() == feed@);
        if !contains_string(&known, &feed.url) {
            let ghost (s0, a0, k0) = (standalone@, added@, known@);
            known.push(feed.url.clone());
            added.push(feed.duplicate());
            standalone.push(feed.duplicate());
            assert(feeds_view(standalone@) =~= feeds_view(s0).push(feed@));
            assert(feeds_view(added@) =~= feeds_view(a0).push(feed@));
            assert(strs_view(known@) =~= strs_view(k0).push(feed.url@));
        }
        i += 1;
    }
    assert(tops@.take(i as int) =~= tops@);
    let ghost st1 = merge_tops(st0, feeds_view(tops@));
    let dirs = &incoming.folders;
    let mut j: usize = 0;
    assert(folders_view(dirs@.take(0)) =~= Seq::<FolderView>::empty());
    while j < dirs.len()
        invariant
            j <= dirs@.len(),
            merge_state(folders@, standalone@, added@, known@) == merge_folders(st1, folders_view(dirs@.take(j as int))),
        decreases dirs@.len() - j,
    {
        let folder = &dirs[j];
        assert(folders_view(dirs@.take(j + 1)).drop_last() =~= folders_view(dirs@.take(j as int)));
        assert(folders_view(dirs@.take(j + 1)).last() == folder@);
        let ghost before = merge_state(folders@, standalone@, added@, known@);
        let mut idx: usize = 0;
        while idx < folders.len() && folders[idx].name != folder.name
            invariant
                idx <= folders@.len(),
                forall|q: int| 0 <= q < idx ==> #[trigger] folders@[q].name@ != folder.name@,
            decreases folders@.len() - idx,
        {
            idx += 1;
        }
        proof {
            lemma_first_folder(before.folders, folder@.name);
            assert forall|q: int| 0 <= q < idx implies #[trigger] before.folders[q].name != folder@.name by {
                assert(before.folders[q] == folders@[q]@);
            }
            let ff = first_folder(before.folders, folder@.name);
            if idx < folders@.len() {
                assert(before.folders[idx as int] == folders@[idx as int]@);
                assert(before.folders[idx as int].name == folder@.name);
                if ff < 0 {
                    assert(before.folders[idx as int].name != folder@.name);
                } else if ff < idx {
                    assert(before.folders[ff].name != folder@.name);
                } else if ff > idx {
                    assert(before.folders[idx as int].name != folder@.name);
                }
                assert(ff == idx);
            } else {
                if ff >= 0 {
                    assert(before.folders[ff].name != folder@.name);
                }
                assert(ff < 0);
            }
        }
        if idx == folders.len() {
            let ghost f0 = folders@;
            folders.push(Folder { name: folder.name.clone(), feeds: Vec::new() });
            proof {
                assert(feeds_view(folders@.last().feeds@) =~= Seq::<FeedView>::empty());
                assert(folders_view(folders@) =~= folders_view(f0).push(folders@.last()@));
                let fs = folders_view(folders@);
                lemma_first_folder(fs, folder@.name);
                assert forall|q: int| 0 <= q < idx implies #[trigger] fs[q].name != folder@.name by {
                    assert(fs[q] == folders@[q]@);
                }
                assert(fs[idx as int].name == folder@.name);
                let ff = first_folder(fs, folder@.name);
                if ff < 0 {
                    assert(fs[idx as int].name != folder@.name);
                } else if ff < idx {
                    assert(fs[ff].name != folder@.name);
                }
                assert(ff == idx);
            }
        }
        let ghost st_f = merge_state(folders@, standalone@, added@, known@);
        assert(st_f == with_folder(before, folder@.name));
        assert(first_folder(st_f.folders, folder@.name) == idx);
        let feeds = &folder.feeds;
        let mut k: usize = 0;
        assert(feeds_view(feeds@.take(0)) =~= Seq::<FeedView>::empty());
        while k < feeds.len()
            invariant
                k <= feeds@.len(),
                idx < folders@.len(),
                merge_state(folders@, standalone@, added@, known@) == merge_into(st_f, idx as int, feeds_view(feeds@.take(k as int))),
            decreases feeds@.len() - k,
        {
            let feed = &feeds[k];
            assert(feeds_view(feeds@.take(k + 1)).drop_last() =~= feeds_view(feeds@.take(k as int)));
            assert(feeds_view(feeds@.take(k + 1)).last() == feed@);
            if !contains_string(&known, &feed.url) {
                let ghost (f0, a0, k0) = (folders@, added@, known@);
                known.push(feed.url.clone());
                added.push(feed.duplicate());
                let mut target = folders.remove(idx);
                let ghost t0 = target@;
                target.feeds.push(feed.duplicate());
                folders.insert(idx, target);
                proof {
                    assert(feeds_view(folders@[idx as int].feeds@) =~= t0.feeds.push(feed@));
                    assert(folders_view(folders@) =~= folders_view(f0).update(
                        idx as int,
                        FolderView { name: folders_view(f0)[idx as int].name, feeds: folders_view(f0)[idx as int].feeds.push(feed@) },
                    ));
                    assert(feeds_view(added@) =~= feeds_view(a0).push(feed@));
                    assert(strs_view(known@) =~= strs_view(k0).push(feed.url@));
                }
            }
            k += 1;
        }
        assert(feeds@.take(k as int) =~= feeds@);
        j += 1;
    }
    assert(dirs@.take(j as int) =~= dirs@);
    (OpmlFile { folders, standalone_feeds: standalone }, added)
}


/// The merged tree still holds every existing feed unchanged, at its old
/// place: existing top-level feeds and each existing folder's feeds are a
/// prefix of their merged counterparts, and existing folders keep their
/// names and order.
pub open spec fn keeps_existing(folders: Seq<FolderView>, standalone: Seq<FeedView>, existing: OpmlView) -> bool {
    &&& existing.standalone_feeds.len() <= standalone.len()
    &&& standalone.take(existing.standalone_feeds.len() as int) == existing.standalone_feeds
    &&& existing.folders.len() <= folders.len()
    &&& forall|i: int|
        0 <= i < existing.folders.len() ==> {
            &&& #[trigger] folders[i].name == existing.folders[i].name
            &&& existing.folders[i].feeds.len() <= folders[i].feeds.len()
            &&& folders[i].feeds.take(existing.folders[i].feeds.len() as int) == existing.folders[i].feeds
        }
}

/// Every added feed has a URL that `existing` lacks, and no two added feeds
/// share a URL.
pub open spec fn adds_only_new(added: Seq<FeedView>, existing: OpmlView) -> bool {
    &&& distinct_urls(added)
    &&& forall|i: int| 0 <= i < added.len() ==> !all_urls(existing).contains(#[trigger] added[i].url)
}

spec fn merge_inv(st: MergeState, existing: OpmlView) -> bool {
    &&& keeps_existing(st.folders, st.standalone, existing)
    &&& adds_only_new(st.added, existing)
    &&& st.known == all_urls(existing) + urls_of(st.added)
}

proof fn lemma_push_new(st: MergeState, existing: OpmlView, f: FeedView)
    requires
        merge_inv(st, existing),
        !st.known.contains(f.url),
    ensures
        adds_only_new(st.added.push(f), existing),
        st.known.push(f.url) == all_urls(existing) + urls_of(st.added.push(f)),
{
    let all = all_urls(existing);
    let na = st.added.push(f);
    assert(urls_of(na) =~= urls_of(st.added).push(f.url));
    assert(st.known.push(f.url) =~= all + urls_of(na));
    assert(!all.contains(f.url)) by {
        if all.contains(f.url) {
            let k = choose|k: int| 0 <= k < all.len() && all[k] == f.url;
            assert(st.known[k] == f.url);
        }
    }
    assert forall|i: int, j: int| 0 <= i < j < na.len() implies #[trigger] na[i].url != #[trigger] na[j].url by {
        if j == na.len() - 1 {
            assert(st.known[all.len() + i] == urls_of(st.added)[i]);
        }
    }
}

proof fn lemma_merge_tops_inv(st: MergeState, existing: OpmlView, s: Seq<FeedView>)
    requires
        merge_inv(st, existing),
    ensures
        merge_inv(merge_tops(st, s), existing),
        merge_tops(st, s).folders == st.folders,
    decreases s.len(),
{
    if s.len() > 0 {
        lemma_merge_tops_inv(st, existing, s.drop_last());
        let m = merge_tops(st, s.drop_last());
        let f = s.last();
        if !m.known.contains(f.url) {
            lemma_push_new(m, existing, f);
            let n = existing.standalone_feeds.len() as int;
            assert(m.standalone.push(f).take(n) =~= m.standalone.take(n));
        }
    }
}

proof fn lemma_merge_into_inv(st: MergeState, existing: OpmlView, idx: int, s: Seq<FeedView>)
    requires
        merge_inv(st, existing),
        0 <= idx < st.folders.len(),
    ensures
        merge_inv(merge_into(st, idx, s), existing),
        merge_into(st, idx, s).folders.len() == st.folders.len(),
    decreases s.len(),
{
    if s.len() > 0 {
        lemma_merge_into_inv(st, existing, idx, s.drop_last());
        let m = merge_into(st, idx, s.drop_last());
        let f = s.last();
        if !m.known.contains(f.url) {
            lemma_push_new(m, existing, f);
            let nf = m.folders.update(idx, FolderView { name: m.folders[idx].name, feeds: m.folders[idx].feeds.push(f) });
            assert forall|i: int| 0 <= i < existing.folders.len() implies {
                &&& #[trigger] nf[i].name == existing.folders[i].name
                &&& existing.folders[i].feeds.len() <= nf[i].feeds.len()
                &&& nf[i].feeds.take(existing.folders[i].feeds.len() as int) == existing.folders[i].feeds
            } by {
                if i == idx {
                    let n = existing.folders[i].feeds.len() as int;
                    assert(m.folders[i].feeds.push(f).take(n) =~= m.folders[i].feeds.take(n));
                }
            }
        }
    }
}

proof fn lemma_merge_folders_inv(st: MergeState, existing: OpmlView, s: Seq<FolderView>)
    requires
        merge_inv(st, existing),
    ensures
        merge_inv(merge_folders(st, s), existing),
    decreases s.len(),
{
    if s.len() > 0 {
        lemma_merge_folders_inv(st, existing, s.drop_last());
        let m = merge_folders(st, s.drop_last());
        let fo = s.last();
        let m1 = with_folder(m, fo.name);
        lemma_first_folder(m.folders, fo.name);
        if first_folder(m.folders, fo.name) < 0 {
            let fs = m1.folders;
            lemma_first_folder(fs, fo.name);
            let ff = first_folder(fs, fo.name);
            if ff < 0 {
                assert(fs[fs.len() - 1].name == fo.name);
            }
        }
        lemma_first_folder(m1.folders, fo.name);
        lemma_merge_into_inv(m1, existing, first_folder(m1.folders, fo.name), fo.feeds);
    }
}

/// Merging keeps every existing feed, unchanged and in place, and adds
/// only feeds whose URL was not already present, each URL once.
pub proof fn lemma_merge_keeps_existing(existing: OpmlView, incoming: OpmlView)
    ensures
        keeps_existing(merged(existing, incoming).folders, merged(existing, incoming).standalone, existing),
        adds_only_new(merged(existing, incoming).added, existing),
{
    let st0 = merge_start(existing);
    assert(urls_of(Seq::<FeedView>::empty()) =~= Seq::<Seq<char>>::empty());
    assert(st0.known =~= all_urls(existing) + urls_of(st0.added));
    assert(existing.standalone_feeds.take(existing.standalone_feeds.len() as int) =~= existing.standalone_feeds);
    assert forall|i: int| 0 <= i < existing.folders.len() implies existing.folders[i].feeds.take(
        existing.folders[i].feeds.len() as int,
    ) == existing.folders[i].feeds by {
        assert(existing.folders[i].feeds.take(existing.folders[i].feeds.len() as int) =~= existing.folders[i].feeds);
    }
    lemma_merge_tops_inv(st0, existing, incoming.standalone_feeds);
    lemma_merge_folders_inv(merge_tops(st0, incoming.standalone_feeds), existing, incoming.folders);
}


// ---------------------------------------------------------------------
// Merging the same file twice
// ---------------------------------------------------------------------

/// The state's tree holds a feed of URL `u`.
pub open spec fn held(st: MergeState, u: Seq<char>) -> bool {
    ||| exists|k: int| 0 <= k < st.standalone.len() && #[trigger] st.standalone[k].url == u
    ||| exists|j: int, k: int|
        0 <= j < st.folders.len() && 0 <= k < st.folders[j].feeds.len() && #[trigger] st.folders[j].feeds[k].url == u
}

/// Every URL the state knows is held by its tree.
pub open spec fn known_held(st: MergeState) -> bool {
    forall|u: Seq<char>| #[trigger] st.known.contains(u) ==> held(st, u)
}

/// `b` knows what `a` knows and keeps `a`'s folders' names in place.
pub open spec fn grows(a: MergeState, b: MergeState) -> bool {
    &&& forall|u: Seq<char>| #[trigger] a.known.contains(u) ==> b.known.contains(u)
    &&& a.folders.len() <= b.folders.len()
    &&& forall|j: int| 0 <= j < a.folders.len() ==> #[trigger] b.folders[j].name == a.folders[j].name
}

pub open spec fn has_folder(fs: Seq<FolderView>, name: Seq<char>) -> bool {
    exists|j: int| 0 <= j < fs.len() && #[trigger] fs[j].name == name
}

proof fn lemma_grows_trans(a: MergeState, b: MergeState, c: MergeState)
    requires
        grows(a, b),
        grows(b, c),
    ensures
        grows(a, c),
{
    assert forall|j: int| 0 <= j < a.folders.len() implies #[trigger] c.folders[j].name == a.folders[j].name by {
        assert(c.folders[j].name == b.folders[j].name);
    }
}

proof fn lemma_merge_top_step(st: MergeState, f: FeedView)
    ensures
        grows(st, merge_top(st, f)),
        merge_top(st, f).known.contains(f.url),
        known_held(st) ==> known_held(merge_top(st, f)),
{
    let n = merge_top(st, f);
    if !st.known.contains(f.url) {
        assert(n.known.contains(f.url)) by {
            assert(n.known[n.known.len() - 1] == f.url);
        }
        if known_held(st) {
            assert forall|u: Seq<char>| #[trigger] n.known.contains(u) implies held(n, u) by {
                if u == f.url {
                    assert(n.standalone[n.standalone.len() - 1].url == u);
                } else {
                    let i = choose|i: int| 0 <= i < n.known.len() && n.known[i] == u;
                    assert(st.known[i] == u);
                    assert(st.known.contains(u));
                    assert(held(st, u));
                    if exists|k: int| 0 <= k < st.standalone.len() && #[trigger] st.standalone[k].url == u {
                        let k = choose|k: int| 0 <= k < st.standalone.len() && #[trigger] st.standalone[k].url == u;
                        assert(n.standalone[k].url == u);
                    } else {
                        let (j, k) = choose|j: int, k: int|
                            0 <= j < st.folders.len() && 0 <= k < st.folders[j].feeds.len() && #[trigger] st.folders[j].feeds[k].url == u;
                        assert(n.folders[j].feeds[k].url == u);
                    }
                }
            }
        }
        assert forall|u: Seq<char>| #[trigger] st.known.contains(u) implies n.known.contains(u) by {
            let i = choose|i: int| 0 <= i < st.known.len() && st.known[i] == u;
            assert(n.known[i] == u);
        }
    }
}

proof fn lemma_add_into_step(st: MergeState, idx: int, f: FeedView)
    requires
        0 <= idx < st.folders.len(),
    ensures
        grows(st, add_into(st, idx, f)),
        add_into(st, idx, f).folders.len() == st.folders.len(),
        add_into(st, idx, f).known.contains(f.url),
        known_held(st) ==> known_held(add_into(st, idx, f)),
{
    let n = add_into(st, idx, f);
    if !st.known.contains(f.url) {
        assert(n.known[n.known.len() - 1] == f.url);
        if known_held(st) {
            assert forall|u: Seq<char>| #[trigger] n.known.contains(u) implies held(n, u) by {
                if u == f.url {
                    let k = st.folders[idx].feeds.len() as int;
                    assert(n.folders[idx].feeds[k].url == u);
                } else {
                    let i = choose|i: int| 0 <= i < n.known.len() && n.known[i] == u;
                    assert(st.known[i] == u);
                    assert(st.known.contains(u));
                    assert(held(st, u));
                    if exists|k: int| 0 <= k < st.standalone.len() && #[trigger] st.standalone[k].url == u {
                        let k = choose|k: int| 0 <= k < st.standalone.len() && #[trigger] st.standalone[k].url == u;
                        assert(n.standalone[k].url == u);
                    } else {
                        let (j, k) = choose|j: int, k: int|
                            0 <= j < st.folders.len() && 0 <= k < st.folders[j].feeds.len() && #[trigger] st.folders[j].feeds[k].url == u;
                        if j == idx {
                            assert(n.folders[j].feeds[k] == st.folders[j].feeds[k]);
                        } else {
                            assert(n.folders[j] == st.folders[j]);
                        }
                        assert(n.folders[j].feeds[k].url == u);
                    }
                }
            }
        }
        assert forall|u: Seq<char>| #[trigger] st.known.contains(u) implies n.known.contains(u) by {
            let i = choose|i: int| 0 <= i < st.known.len() && st.known[i] == u;
            assert(n.known[i] == u);
        }
    }
}

proof fn lemma_with_folder_step(st: MergeState, name: Seq<char>)
    ensures
        grows(st, with_folder(st, name)),
        first_folder(with_folder(st, name).folders, name) >= 0,
        known_held(st) ==> known_held(with_folder(st, name)),
{
    let n = with_folder(st, name);
    lemma_first_folder(st.folders, name);
    lemma_first_folder(n.folders, name);
    if first_folder(st.folders, name) < 0 {
        assert(n.folders[n.folders.len() - 1].name == name);
        if known_held(st) {
            assert forall|u: Seq<char>| #[trigger] n.known.contains(u) implies held(n, u) by {
                assert(held(st, u));
                if exists|k: int| 0 <= k < st.standalone.len() && #[trigger] st.standalone[k].url == u {
                } else {
                    let (j, k) = choose|j: int, k: int|
                        0 <= j < st.folders.len() && 0 <= k < st.folders[j].feeds.len() && #[trigger] st.folders[j].feeds[k].url == u;
                    assert(n.folders[j] == st.folders[j]);
                    assert(n.folders[j].feeds[k].url == u);
                }
            }
        }
    }
}

proof fn lemma_merge_tops_grow(st: MergeState, s: Seq<FeedView>)
    ensures
        grows(st, merge_tops(st, s)),
        forall|i: int| 0 <= i < s.len() ==> merge_tops(st, s).known.contains(#[trigger] s[i].url),
        known_held(st) ==> known_held(merge_tops(st, s)),
    decreases s.len(),
{
    if s.len() > 0 {
        let prev = merge_tops(st, s.drop_last());
        lemma_merge_tops_grow(st, s.drop_last());
        lemma_merge_top_step(prev, s.last());
        lemma_grows_trans(st, prev, merge_tops(st, s));
        assert forall|i: int| 0 <= i < s.len() implies merge_tops(st, s).known.contains(#[trigger] s[i].url) by {
            if i < s.len() - 1 {
                assert(s.drop_last()[i] == s[i]);
                assert(prev.known.contains(s[i].url));
            }
        }
    }
}

proof fn lemma_merge_into_grow(st: MergeState, idx: int, s: Seq<FeedView>)
    requires
        0 <= idx < st.folders.len(),
    ensures
        grows(st, merge_into(st, idx, s)),
        merge_into(st, idx, s).folders.len() == st.folders.len(),
        forall|i: int| 0 <= i < s.len() ==> merge_into(st, idx, s).known.contains(#[trigger] s[i].url),
        known_held(st) ==> known_held(merge_into(st, idx, s)),
    decreases s.len(),
{
    if s.len() > 0 {
        let prev = merge_into(st, idx, s.drop_last());
        lemma_merge_into_grow(st, idx, s.drop_last());
        lemma_add_into_step(prev, idx, s.last());
        lemma_grows_trans(st, prev, merge_into(st, idx, s));
        assert forall|i: int| 0 <= i < s.len() implies merge_into(st, idx, s).known.contains(#[trigger] s[i].url) by {
            if i < s.len() - 1 {
                assert(s.drop_last()[i] == s[i]);
                assert(prev.known.contains(s[i].url));
            }
        }
    }
}

proof fn lemma_merge_folder_grow(st: MergeState, fo: FolderView)
    ensures
        grows(st, merge_folder(st, fo)),
        has_folder(merge_folder(st, fo).folders, fo.name),
        forall|k: int| 0 <= k < fo.feeds.len() ==> merge_folder(st, fo).known.contains(#[trigger] fo.feeds[k].url),
        known_held(st) ==> known_held(merge_folder(st, fo)),
{
    let st1 = with_folder(st, fo.name);
    lemma_with_folder_step(st, fo.name);
    let idx = first_folder(st1.folders, fo.name);
    lemma_first_folder(st1.folders, fo.name);
    lemma_merge_into_grow(st1, idx, fo.feeds);
    lemma_grows_trans(st, st1, merge_folder(st, fo));
    let r = merge_folder(st, fo);
    assert(r.folders[idx].name == fo.name);
}

proof fn lemma_merge_folders_grow(st: MergeState, s: Seq<FolderView>)
    ensures
        grows(st, merge_folders(st, s)),
        forall|i: int| 0 <= i < s.len() ==> has_folder(merge_folders(st, s).folders, #[trigger] s[i].name),
        forall|i: int, k: int|
            0 <= i < s.len() && 0 <= k < s[i].feeds.len() ==> merge_folders(st, s).known.contains(#[trigger] s[i].feeds[k].url),
        known_held(st) ==> known_held(merge_folders(st, s)),
    decreases s.len(),
{
    if s.len() > 0 {
        let prev = merge_folders(st, s.drop_last());
        let r = merge_folders(st, s);
        lemma_merge_folders_grow(st, s.drop_last());
        lemma_merge_folder_grow(prev, s.last());
        lemma_grows_trans(st, prev, r);
        assert forall|i: int| 0 <= i < s.len() implies has_folder(r.folders, #[trigger] s[i].name) by {
            if i < s.len() - 1 {
                assert(s.drop_last()[i] == s[i]);
                assert(has_folder(prev.folders, s[i].name));
                let j = choose|j: int| 0 <= j < prev.folders.len() && #[trigger] prev.folders[j].name == s[i].name;
                assert(r.folders[j].name == s[i].name);
            }
        }
        assert forall|i: int, k: int|
            0 <= i < s.len() && 0 <= k < s[i].feeds.len() implies r.known.contains(#[trigger] s[i].feeds[k].url) by {
            if i < s.len() - 1 {
                assert(s.drop_last()[i] == s[i]);
                assert(prev.known.contains(s.drop_last()[i].feeds[k].url));
            }
        }
    }
}

proof fn lemma_urls_of_has(s: Seq<FeedView>, k: int)
    requires
        0 <= k < s.len(),
    ensures
        urls_of(s).contains(s[k].url),
{
    assert(urls_of(s)[k] == s[k].url);
}

proof fn lemma_folder_urls_has(fs: Seq<FolderView>, j: int, k: int)
    requires
        0 <= j < fs.len(),
        0 <= k < fs[j].feeds.len(),
    ensures
        folder_urls(fs).contains(fs[j].feeds[k].url),
    decreases fs.len(),
{
    let u = fs[j].feeds[k].url;
    if j == fs.len() - 1 {
        lemma_urls_of_has(fs.last().feeds, k);
        let q = choose|q: int| 0 <= q < urls_of(fs.last().feeds).len() && urls_of(fs.last().feeds)[q] == u;
        assert(folder_urls(fs)[folder_urls(fs.drop_last()).len() + q] == u);
    } else {
        assert(fs.drop_last()[j] == fs[j]);
        lemma_folder_urls_has(fs.drop_last(), j, k);
        let q = choose|q: int| 0 <= q < folder_urls(fs.drop_last()).len() && folder_urls(fs.drop_last())[q] == u;
        assert(folder_urls(fs)[q] == u);
    }
}

proof fn lemma_folder_urls_held(fs: Seq<FolderView>, u: Seq<char>)
    requires
        folder_urls(fs).contains(u),
    ensures
        exists|j: int, k: int| 0 <= j < fs.len() && 0 <= k < fs[j].feeds.len() && #[trigger] fs[j].feeds[k].url == u,
    decreases fs.len(),
{
    let q = choose|q: int| 0 <= q < folder_urls(fs).len() && folder_urls(fs)[q] == u;
    let a = folder_urls(fs.drop_last());
    if q < a.len() {
        assert(a[q] == u);
        lemma_folder_urls_held(fs.drop_last(), u);
        let (j, k) = choose|j: int, k: int|
            0 <= j < fs.drop_last().len() && 0 <= k < fs.drop_last()[j].feeds.len() && #[trigger] fs.drop_last()[j].feeds[k].url == u;
        assert(fs[j] == fs.drop_last()[j]);
        assert(fs[j].feeds[k].url == u);
    } else {
        let k = q - a.len();
        assert(urls_of(fs.last().feeds)[k] == u);
        assert(fs[fs.len() - 1].feeds[k].url == u);
    }
}

proof fn lemma_start_known_held(existing: OpmlView)
    ensures
        known_held(merge_start(existing)),
{
    let st = merge_start(existing);
    assert forall|u: Seq<char>| #[trigger] st.known.contains(u) implies held(st, u) by {
        let q = choose|q: int| 0 <= q < st.known.len() && st.known[q] == u;
        let a = urls_of(existing.standalone_feeds);
        if q < a.len() {
            assert(a[q] == u);
            assert(st.standalone[q].url == u);
        } else {
            assert(folder_urls(existing.folders)[q - a.len()] == u);
            lemma_folder_urls_held(existing.folders, u);
        }
    }
}

proof fn lemma_held_in_all_urls(st: MergeState, u: Seq<char>)
    requires
        held(st, u),
    ensures
        all_urls(OpmlView { folders: st.folders, standalone_feeds: st.standalone }).contains(u),
{
    let f = OpmlView { folders: st.folders, standalone_feeds: st.standalone };
    let a = urls_of(st.standalone);
    if exists|k: int| 0 <= k < st.standalone.len() && #[trigger] st.standalone[k].url == u {
        let k = choose|k: int| 0 <= k < st.standalone.len() && #[trigger] st.standalone[k].url == u;
        assert(all_urls(f)[k] == u);
    } else {
        let (j, k) = choose|j: int, k: int|
            0 <= j < st.folders.len() && 0 <= k < st.folders[j].feeds.len() && #[trigger] st.folders[j].feeds[k].url == u;
        lemma_folder_urls_has(st.folders, j, k);
        let q = choose|q: int| 0 <= q < folder_urls(st.folders).len() && folder_urls(st.folders)[q] == u;
        assert(all_urls(f)[a.len() + q] == u);
    }
}

proof fn lemma_merge_tops_noop(st: MergeState, s: Seq<FeedView>)
    requires
        forall|i: int| 0 <= i < s.len() ==> st.known.contains(#[trigger] s[i].url),
    ensures
        merge_tops(st, s) == st,
    decreases s.len(),
{
    if s.len() > 0 {
        assert forall|i: int| 0 <= i < s.drop_last().len() implies st.known.contains(#[trigger] s.drop_last()[i].url) by {
            assert(s.drop_last()[i] == s[i]);
        }
        lemma_merge_tops_noop(st, s.drop_last());
        assert(st.known.contains(s[s.len() - 1].url));
    }
}

proof fn lemma_merge_into_noop(st: MergeState, idx: int, s: Seq<FeedView>)
    requires
        forall|i: int| 0 <= i < s.len() ==> st.known.contains(#[trigger] s[i].url),
    ensures
        merge_into(st, idx, s) == st,
    decreases s.len(),
{
    if s.len() > 0 {
        assert forall|i: int| 0 <= i < s.drop_last().len() implies st.known.contains(#[trigger] s.drop_last()[i].url) by {
            assert(s.drop_last()[i] == s[i]);
        }
        lemma_merge_into_noop(st, idx, s.drop_last());
        assert(st.known.contains(s[s.len() - 1].url));
    }
}

proof fn lemma_merge_folders_noop(st: MergeState, s: Seq<FolderView>)
    requires
        forall|i: int| 0 <= i < s.len() ==> has_folder(st.folders, #[trigger] s[i].name),
        forall|i: int, k: int| 0 <= i < s.len() && 0 <= k < s[i].feeds.len() ==> st.known.contains(#[trigger] s[i].feeds[k].url),
    ensures
        merge_folders(st, s) == st,
    decreases s.len(),
{
    if s.len() > 0 {
        let d = s.drop_last();
        assert forall|i: int| 0 <= i < d.len() implies has_folder(st.folders, #[trigger] d[i].name) by {
            assert(d[i] == s[i]);
        }
        assert forall|i: int, k: int| 0 <= i < d.len() && 0 <= k < d[i].feeds.len() implies st.known.contains(
            #[trigger] d[i].feeds[k].url,
        ) by {
            assert(d[i] == s[i]);
        }
        lemma_merge_folders_noop(st, d);
        let fo = s.last();
        assert(has_folder(st.folders, s[s.len() - 1].name));
        lemma_first_folder(st.folders, fo.name);
        assert(with_folder(st, fo.name) == st);
        assert forall|k: int| 0 <= k < fo.feeds.len() implies st.known.contains(#[trigger] fo.feeds[k].url) by {
            assert(st.known.contains(s[s.len() - 1].feeds[k].url));
        }
        lemma_merge_into_noop(st, first_folder(st.folders, fo.name), fo.feeds);
    }
}

/// Merging the same incoming list a second time changes nothing: the
/// tree after the second merge is the tree after the first, and no feed is
/// added.
pub proof fn lemma_merge_idempotent(existing: OpmlView, incoming: OpmlView)
    ensures
        ({
            let m = merged(existing, incoming);
            let again = merged(OpmlView { folders: m.folders, standalone_feeds: m.standalone }, incoming);
            &&& again.folders == m.folders
            &&& again.standalone == m.standalone
            &&& again.added.len() == 0
        }),
{
    let st0 = merge_start(existing);
    lemma_start_known_held(existing);
    let t = merge_tops(st0, incoming.standalone_feeds);
    lemma_merge_tops_grow(st0, incoming.standalone_feeds);
    let m = merged(existing, incoming);
    lemma_merge_folders_grow(t, incoming.folders);
    let file = OpmlView { folders: m.folders, standalone_feeds: m.standalone };
    let s2 = merge_start(file);
    let s = incoming.standalone_feeds;
    assert forall|i: int| 0 <= i < s.len() implies s2.known.contains(#[trigger] s[i].url) by {
        assert(t.known.contains(s[i].url));
        assert(m.known.contains(s[i].url));
        lemma_held_in_all_urls(m, s[i].url);
    }
    lemma_merge_tops_noop(s2, s);
    let fs = incoming.folders;
    assert forall|i: int, k: int| 0 <= i < fs.len() && 0 <= k < fs[i].feeds.len() implies s2.known.contains(
        #[trigger] fs[i].feeds[k].url,
    ) by {
        assert(m.known.contains(fs[i].feeds[k].url));
        lemma_held_in_all_urls(m, fs[i].feeds[k].url);
    }
    assert forall|i: int| 0 <= i < fs.len() implies has_folder(s2.folders, #[trigger] fs[i].name) by {
        assert(has_folder(m.folders, fs[i].name));
    }
    lemma_merge_folders_noop(s2, fs);
}

} // verus!

