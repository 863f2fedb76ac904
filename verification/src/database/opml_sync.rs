//! Reconciling the local subscription tree with the Reader API's
//! subscription and tag lists.
use vstd::prelude::*;
use crate::chars::{chars_of, contains_run, has_run, last_segment, last_segment_of};
use crate::database::opml::{contains_string, strs_view, OpmlFile, OpmlView};
use crate::database::opml_merge::{first_folder, lemma_first_folder};
use crate::models::{duplicate_feeds, feeds_view, folders_view, opt_clone, Feed, FeedView, Folder, FolderView};
use crate::network::inoreader::{
    subscriptions_view, tags_view, ReaderAPISubscription, ReaderAPITag, SubscriptionView, TagView,
};

verus! {

pub open spec fn lit_state() -> Seq<char> {
    "/state/"@
}

/// A read/starred state tag rather than a folder label.
pub open spec fn is_state_tag(t: TagView) -> bool {
    contains_run(t.id, lit_state())
}

/// Folder names the server knows: the last path segment of every
/// non-state tag, in tag order.
pub open spec fn server_names(tags: Seq<TagView>) -> Seq<Seq<char>>
    decreases tags.len(),
{
    if tags.len() == 0 {
        Seq::empty()
    } else if is_state_tag(tags.last()) {
        server_names(tags.drop_last())
    } else {
        server_names(tags.drop_last()).push(last_segment(tags.last().id))
    }
}

/// The local folders the server does not know, in order.
pub open spec fn kept_local(fs: Seq<FolderView>, server: Seq<Seq<char>>) -> Seq<FolderView>
    decreases fs.len(),
{
    if fs.len() == 0 {
        Seq::empty()
    } else if server.contains(fs.last().name) {
        kept_local(fs.drop_last(), server)
    } else {
        kept_local(fs.drop_last(), server).push(fs.last())
    }
}

pub open spec fn names_of(fs: Seq<FolderView>) -> Seq<Seq<char>> {
    fs.map_values(|f: FolderView| f.name)
}

/// `fs` with an empty folder appended for every server tag, in tag order,
/// whose name no folder has yet.
pub open spec fn add_server_folders(fs: Seq<FolderView>, tags: Seq<TagView>) -> Seq<FolderView>
    decreases tags.len(),
{
    if tags.len() == 0 {
        fs
    } else {
        let prev = add_server_folders(fs, tags.drop_last());
        let t = tags.last();
        if is_state_tag(t) || names_of(prev).contains(last_segment(t.id)) {
            prev
        } else {
            prev.push(FolderView { name: last_segment(t.id), feeds: Seq::empty() })
        }
    }
}

/// Every feed of the folders `fs`, folder by folder.
pub open spec fn folder_feeds(fs: Seq<FolderView>) -> Seq<FeedView>
    decreases fs.len(),
{
    if fs.len() == 0 {
        Seq::empty()
    } else {
        folder_feeds(fs.drop_last()) + fs.last().feeds
    }
}

/// Every feed of `file`: top-level feeds, then each folder's.
pub open spec fn all_feeds(file: OpmlView) -> Seq<FeedView> {
    file.standalone_feeds + folder_feeds(file.folders)
}

/// Index of the last feed of `s` with id `id`, or -1.
pub open spec fn last_with_id(s: Seq<FeedView>, id: Seq<char>) -> int
    decreases s.len(),
{
    if s.len() == 0 {
        -1
    } else if s.last().id == id {
        s.len() - 1
    } else {
        last_with_id(s.drop_last(), id)
    }
}

/// Index of the last feed of `s` with URL `url`, or -1.
pub open spec fn last_with_url(s: Seq<FeedView>, url: Seq<char>) -> int
    decreases s.len(),
{
    if s.len() == 0 {
        -1
    } else if s.last().url == url {
        s.len() - 1
    } else {
        last_with_url(s.drop_last(), url)
    }
}

/// The local feed a subscription continues: the last one with its id,
/// else the last one with its URL.
pub open spec fn prior_feed(all: Seq<FeedView>, id: Seq<char>, url: Seq<char>) -> Option<FeedView> {
    if last_with_id(all, id) >= 0 {
        Some(all[last_with_id(all, id)])
    } else if last_with_url(all, url) >= 0 {
        Some(all[last_with_url(all, url)])
    } else {
        None
    }
}

/// The feed a subscription becomes: the server's id, URL and home page;
/// the server's title unless it is empty, then the prior name; the prior
/// `edited_name`, never touched.
pub open spec fn synced_feed(sub: SubscriptionView, prior: Option<FeedView>) -> FeedView {
    FeedView {
        id: sub.feed_id,
        url: sub.url,
        name: if sub.title.len() == 0 {
            match prior {
                Some(p) => p.name,
                None => None,
            }
        } else {
            Some(sub.title)
        },
        edited_name: match prior {
            Some(p) => p.edited_name,
            None => None,
        },
        home_page_url: sub.html_url,
    }
}

pub open spec fn category_names(cats: Seq<TagView>) -> Seq<Seq<char>> {
    cats.map_values(|t: TagView| last_segment(t.id))
}

/// Index of the first feed of `s` with id `id`, or -1.
pub open spec fn first_with_id(s: Seq<FeedView>, id: Seq<char>) -> int
    decreases s.len(),
{
    if s.len() == 0 {
        -1
    } else if s[0].id == id {
        0
    } else {
        let r = first_with_id(s.drop_first(), id);
        if r < 0 {
            -1
        } else {
            r + 1
        }
    }
}

/// Index of the first local-only folder holding a feed with id `id`, or -1.
pub open spec fn local_target(fs: Seq<FolderView>, local: Seq<Seq<char>>, id: Seq<char>) -> int
    decreases fs.len(),
{
    if fs.len() == 0 {
        -1
    } else if local.contains(fs[0].name) && first_with_id(fs[0].feeds, id) >= 0 {
        0
    } else {
        let r = local_target(fs.drop_first(), local, id);
        if r < 0 {
            -1
        } else {
            r + 1
        }
    }
}

/// Places `feed` into the server-known folder of each category, once per
/// folder; the flag says whether it was placed anywhere.
pub open spec fn place_in_categories(
    fs: Seq<FolderView>,
    cats: Seq<Seq<char>>,
    server: Seq<Seq<char>>,
    feed: FeedView,
) -> (Seq<FolderView>, Seq<Seq<char>>, bool)
    decreases cats.len(),
{
    if cats.len() == 0 {
        (fs, Seq::empty(), false)
    } else {
        let r = place_in_categories(fs, cats.drop_last(), server, feed);
        let cn = cats.last();
        let fi = first_folder(r.0, cn);
        if server.contains(cn) && fi >= 0 && !r.1.contains(cn) {
            (r.0.update(fi, FolderView { name: r.0[fi].name, feeds: r.0[fi].feeds.push(feed) }), r.1.push(cn), true)
        } else {
            r
        }
    }
}

/// `s` without the feeds whose id is `id`.
pub open spec fn without_id(s: Seq<FeedView>, id: Seq<char>) -> Seq<FeedView>
    decreases s.len(),
{
    if s.len() == 0 {
        Seq::empty()
    } else if s.last().id == id {
        without_id(s.drop_last(), id)
    } else {
        without_id(s.drop_last(), id).push(s.last())
    }
}

pub open spec fn strip_one(fo: FolderView, local: Seq<Seq<char>>, id: Seq<char>) -> FolderView {
    if local.contains(fo.name) {
        FolderView { name: fo.name, feeds: without_id(fo.feeds, id) }
    } else {
        fo
    }
}

/// Local-only folders lose any copy of the feed with id `id`.
pub open spec fn strip_local(fs: Seq<FolderView>, local: Seq<Seq<char>>, id: Seq<char>) -> Seq<FolderView> {
    fs.map_values(|fo: FolderView| strip_one(fo, local, id))
}

/// `s` without the feeds whose id is not in `subscribed`.
pub open spec fn subscribed_only(s: Seq<FeedView>, subscribed: Seq<Seq<char>>) -> Seq<FeedView>
    decreases s.len(),
{
    if s.len() == 0 {
        Seq::empty()
    } else if subscribed.contains(s.last().id) {
        subscribed_only(s.drop_last(), subscribed).push(s.last())
    } else {
        subscribed_only(s.drop_last(), subscribed)
    }
}

pub open spec fn prune_one(fo: FolderView, local: Seq<Seq<char>>, subscribed: Seq<Seq<char>>) -> FolderView {
    if local.contains(fo.name) {
        FolderView { name: fo.name, feeds: subscribed_only(fo.feeds, subscribed) }
    } else {
        fo
    }
}

/// Local-only folders keep only subscribed feeds.
pub open spec fn prune_local(fs: Seq<FolderView>, local: Seq<Seq<char>>, subscribed: Seq<Seq<char>>) -> Seq<FolderView> {
    fs.map_values(|fo: FolderView| prune_one(fo, local, subscribed))
}

/// A reconcile in progress.
pub struct SyncState {
    pub folders: Seq<FolderView>,
    pub standalone: Seq<FeedView>,
    pub subscribed: Seq<Seq<char>>,
}

/// One subscription reconciled: without categories it replaces its copy in
/// a local-only folder, else goes top level; with categories the server's
/// grouping wins, local-only copies are dropped, and a feed no known
/// folder takes goes top level.
pub open spec fn sync_step(
    st: SyncState,
    sub: SubscriptionView,
    local: Seq<Seq<char>>,
    server: Seq<Seq<char>>,
    all: Seq<FeedView>,
) -> SyncState {
    let feed = synced_feed(sub, prior_feed(all, sub.feed_id, sub.url));
    let subscribed = st.subscribed.push(feed.id);
    let cats = category_names(sub.categories);
    if cats.len() == 0 {
        let t = local_target(st.folders, local, feed.id);
        if t >= 0 {
            let fo = st.folders[t];
            SyncState {
                folders: st.folders.update(
                    t,
                    FolderView { name: fo.name, feeds: fo.feeds.update(first_with_id(fo.feeds, feed.id), feed) },
                ),
                standalone: st.standalone,
                subscribed,
            }
        } else {
            SyncState { folders: st.folders, standalone: st.standalone.push(feed), subscribed }
        }
    } else {
        let p = place_in_categories(st.folders, cats, server, feed);
        SyncState {
            folders: strip_local(p.0, local, feed.id),
            standalone: if p.2 {
                st.standalone
            } else {
                st.standalone.push(feed)
            },
            subscribed,
        }
    }
}

pub open spec fn sync_steps(
    st: SyncState,
    subs: Seq<SubscriptionView>,
    local: Seq<Seq<char>>,
    server: Seq<Seq<char>>,
    all: Seq<FeedView>,
) -> SyncState
    decreases subs.len(),
{
    if subs.len() == 0 {
        st
    } else {
        sync_step(sync_steps(st, subs.drop_last(), local, server, all), subs.last(), local, server, all)
    }
}

/// The reconciled tree: local-only folders first (in their order), then
/// the server's folders in tag order, subscriptions placed in order, and
/// unsubscribed feeds dropped from local-only folders.
pub open spec fn synced(existing: OpmlView, subs: Seq<SubscriptionView>, tags: Seq<TagView>) -> OpmlView {
    let server = server_names(tags);
    let kept = kept_local(existing.folders, server);
    let local = names_of(kept);
    let st0 = SyncState { folders: add_server_folders(kept, tags), standalone: Seq::empty(), subscribed: Seq::empty() };
    let st = sync_steps(st0, subs, local, server, all_feeds(existing));
    OpmlView { folders: prune_local(st.folders, local, st.subscribed), standalone_feeds: st.standalone }
}


/// Whether the tag id names a read/starred state (contains `/state/`).
pub fn is_state_tag_id(id: &str) -> (b: bool)
    ensures
        b == contains_run(id@, lit_state()),
{
    let hay = chars_of(id);
    let needle = chars_of("/state/");
    has_run(hay.as_slice(), needle.as_slice())
}

fn server_folder_names(tags: &Vec<ReaderAPITag>) -> (r: Vec<String>)
    ensures
        strs_view(r@) == server_names(tags_view(tags@)),
{
    let mut r: Vec<String> = Vec::new();
    let mut i: usize = 0;
    assert(tags_view(tags@.take(0)) =~= Seq::<TagView>::empty());
    assert(strs_view(r@) =~= Seq::<Seq<char>>::empty());
    while i < tags.len()
        invariant
            i <= tags@.len(),
            strs_view(r@) == server_names(tags_view(tags@.take(i as int))),
        decreases tags@.len() - i,
    {
        assert(tags_view(tags@.take(i + 1)).drop_last() =~= tags_view(tags@.take(i as int)));
        assert(tags_view(tags@.take(i + 1)).last() == tags@[i as int]@);
        if !is_state_tag_id(tags[i].id.as_str()) {
            let ghost r0 = r@;
            r.push(last_segment_of(tags[i].id.as_str()));
            assert(strs_view(r@) =~= strs_view(r0).push(r@.last()@));
        }
        i += 1;
    }
    assert(tags@.take(i as int) =~= tags@);
    r
}

fn kept_local_folders(fs: &Vec<Folder>, server: &Vec<String>) -> (r: Vec<Folder>)
    ensures
        folders_view(r@) == kept_local(folders_view(fs@), strs_view(server@)),
{
    let mut r: Vec<Folder> = Vec::new();
    let mut i: usize = 0;
    assert(folders_view(fs@.take(0)) =~= Seq::<FolderView>::empty());
    assert(folders_view(r@) =~= Seq::<FolderView>::empty());
    while i < fs.len()
        invariant
            i <= fs@.len(),
            folders_view(r@) == kept_local(folders_view(fs@.take(i as int)), strs_view(server@)),
        decreases fs@.len() - i,
    {
        assert(folders_view(fs@.take(i + 1)).drop_last() =~= folders_view(fs@.take(i as int)));
        assert(folders_view(fs@.take(i + 1)).last() == fs@[i as int]@);
        if !contains_string(server, &fs[i].name) {
            let ghost r0 = r@;
            r.push(fs[i].duplicate());
            assert(folders_view(r@) =~= folders_view(r0).push(fs@[i as int]@));
        }
        i += 1;
    }
    assert(fs@.take(i as int) =~= fs@);
    r
}

fn folder_names(fs: &Vec<Folder>) -> (r: Vec<String>)
    ensures
        strs_view(r@) == names_of(folders_view(fs@)),
{
    let mut r: Vec<String> = Vec::new();
    let mut i: usize = 0;
    while i < fs.len()
        invariant
            i <= fs@.len(),
            r@.len() == i,
            forall|k: int| 0 <= k < i ==> #[trigger] r@[k]@ == fs@[k].name@,
        decreases fs@.len() - i,
    {
        r.push(fs[i].name.clone());
        i += 1;
    }
    assert(strs_view(r@) =~= names_of(folders_view(fs@)));
    r
}

fn has_folder_named(fs: &Vec<Folder>, name: &String) -> (b: bool)
    ensures
        b == names_of(folders_view(fs@)).contains(name@),
{
    let mut i: usize = 0;
    while i < fs.len()
        invariant
            i <= fs@.len(),
            forall|k: int| 0 <= k < i ==> #[trigger] fs@[k].name@ != name@,
        decreases fs@.len() - i,
    {
        if fs[i].name == *name {
            assert(names_of(folders_view(fs@))[i as int] == name@);
            return true;
        }
        i += 1;
    }
    assert forall|k: int| 0 <= k < names_of(folders_view(fs@)).len() implies names_of(folders_view(fs@))[k] != name@ by {
        assert(names_of(folders_view(fs@))[k] == fs@[k].name@);
    }
    false
}

fn add_server_folders_exec(folders: &mut Vec<Folder>, tags: &Vec<ReaderAPITag>)
    ensures
        folders_view(final(folders)@) == add_server_folders(folders_view(old(folders)@), tags_view(tags@)),
{
    let ghost base = folders_view(folders@);
    let mut i: usize = 0;
    assert(tags_view(tags@.take(0)) =~= Seq::<TagView>::empty());
    while i < tags.len()
        invariant
            i <= tags@.len(),
            folders_view(folders@) == add_server_folders(base, tags_view(tags@.take(i as int))),
        decreases tags@.len() - i,
    {
        assert(tags_view(tags@.take(i + 1)).drop_last() =~= tags_view(tags@.take(i as int)));
        assert(tags_view(tags@.take(i + 1)).last() == tags@[i as int]@);
        if !is_state_tag_id(tags[i].id.as_str()) {
            let name = last_segment_of(tags[i].id.as_str());
            if !has_folder_named(folders, &name) {
                let ghost f0 = folders@;
                folders.push(Folder { name, feeds: Vec::new() });
                assert(feeds_view(folders@.last().feeds@) =~= Seq::<FeedView>::empty());
                assert(folders_view(folders@) =~= folders_view(f0).push(folders@.last()@));
            }
        }
        i += 1;
    }
    assert(tags@.take(i as int) =~= tags@);
}

pub fn collect_all_feeds(file: &OpmlFile) -> (r: Vec<Feed>)
    ensures
        feeds_view(r@) == all_feeds(file@),
{
    let mut r = duplicate_feeds(&file.standalone_feeds);
    let ghost top = feeds_view(r@);
    let mut j: usize = 0;
    assert(folders_view(file.folders@.take(0)) =~= Seq::<FolderView>::empty());
    assert(top + folder_feeds(Seq::empty()) =~= top);
    while j < file.folders.len()
        invariant
            j <= file.folders@.len(),
            feeds_view(r@) == top + folder_feeds(folders_view(file.folders@.take(j as int))),
        decreases file.folders@.len() - j,
    {
        let feeds = &file.folders[j].feeds;
        let ghost before = feeds_view(r@);
        let mut k: usize = 0;
        assert(before + feeds_view(feeds@.take(0)) =~= before);
        while k < feeds.len()
            invariant
                k <= feeds@.len(),
                feeds_view(r@) == before + feeds_view(feeds@.take(k as int)),
            decreases feeds@.len() - k,
        {
            let ghost r0 = r@;
            r.push(feeds[k].duplicate());
            k += 1;
            assert(feeds_view(r@) =~= feeds_view(r0).push(feeds@[k - 1]@));
            assert(feeds_view(feeds@.take(k as int)) =~= feeds_view(feeds@.take(k - 1)).push(feeds@[k - 1]@));
        }
        assert(feeds@.take(k as int) =~= feeds@);
        assert(folders_view(file.folders@.take(j + 1)).drop_last() =~= folders_view(file.folders@.take(j as int)));
        j += 1;
    }
    assert(file.folders@.take(j as int) =~= file.folders@);
    r
}

proof fn lemma_last_with_id(s: Seq<FeedView>, id: Seq<char>)
    ensures
        -1 <= last_with_id(s, id) < s.len(),
    decreases s.len(),
{
    if s.len() > 0 && s.last().id != id {
        lemma_last_with_id(s.drop_last(), id);
    }
}

proof fn lemma_last_with_url(s: Seq<FeedView>, url: Seq<char>)
    ensures
        -1 <= last_with_url(s, url) < s.len(),
    decreases s.len(),
{
    if s.len() > 0 && s.last().url != url {
        lemma_last_with_url(s.drop_last(), url);
    }
}

/// The local feed a subscription continues, as `prior_feed` says.
fn prior_for(all: &Vec<Feed>, id: &String, url: &String) -> (r: Option<Feed>)
    ensures
        match r {
            Some(f) => prior_feed(feeds_view(all@), id@, url@) == Some(f@),
            None => prior_feed(feeds_view(all@), id@, url@) is None,
        },
{
    let mut by_id: usize = 0;
    let mut has_id = false;
    let mut by_url: usize = 0;
    let mut has_url = false;
    let mut i: usize = 0;
    assert(feeds_view(all@.take(0)) =~= Seq::<FeedView>::empty());
    while i < all.len()
        invariant
            i <= all@.len(),
            has_id ==> by_id < i && by_id as int == last_with_id(feeds_view(all@.take(i as int)), id@),
            !has_id ==> last_with_id(feeds_view(all@.take(i as int)), id@) == -1,
            has_url ==> by_url < i && by_url as int == last_with_url(feeds_view(all@.take(i as int)), url@),
            !has_url ==> last_with_url(feeds_view(all@.take(i as int)), url@) == -1,
        decreases all@.len() - i,
    {
        assert(feeds_view(all@.take(i + 1)).drop_last() =~= feeds_view(all@.take(i as int)));
        assert(feeds_view(all@.take(i + 1)).last() == all@[i as int]@);
        if all[i].id == *id {
            by_id = i;
            has_id = true;
        }
        if all[i].url == *url {
            by_url = i;
            has_url = true;
        }
        i += 1;
    }
    assert(all@.take(i as int) =~= all@);
    if has_id {
        Some(all[by_id].duplicate())
    } else if has_url {
        Some(all[by_url].duplicate())
    } else {
        None
    }
}

fn synced_feed_exec(sub: &ReaderAPISubscription, prior: &Option<Feed>) -> (f: Feed)
    ensures
        f@ == synced_feed(sub@, match prior {
            Some(p) => Some(p@),
            None => None,
        }),
{
    let name = if sub.title.as_str().is_empty() {
        match prior {
            Some(p) => opt_clone(&p.name),
            None => None,
        }
    } else {
        Some(sub.title.clone())
    };
    let edited_name = match prior {
        Some(p) => opt_clone(&p.edited_name),
        None => None,
    };
    Feed {
        id: sub.feed_id.clone(),
        url: sub.url.clone(),
        name,
        edited_name,
        home_page_url: opt_clone(&sub.html_url),
    }
}

fn category_names_exec(cats: &Vec<ReaderAPITag>) -> (r: Vec<String>)
    ensures
        strs_view(r@) == category_names(tags_view(cats@)),
{
    let mut r: Vec<String> = Vec::new();
    let mut i: usize = 0;
    while i < cats.len()
        invariant
            i <= cats@.len(),
            r@.len() == i,
            forall|k: int| 0 <= k < i ==> #[trigger] r@[k]@ == last_segment(cats@[k].id@),
        decreases cats@.len() - i,
    {
        r.push(last_segment_of(cats[i].id.as_str()));
        i += 1;
    }
    assert(strs_view(r@) =~= category_names(tags_view(cats@)));
    r
}


proof fn lemma_first_with_id(s: Seq<FeedView>, id: Seq<char>)
    ensures
        -1 <= first_with_id(s, id) < s.len(),
        first_with_id(s, id) >= 0 ==> s[first_with_id(s, id)].id == id,
        first_with_id(s, id) >= 0 ==> forall|j: int| 0 <= j < first_with_id(s, id) ==> #[trigger] s[j].id != id,
        first_with_id(s, id) < 0 ==> forall|j: int| 0 <= j < s.len() ==> #[trigger] s[j].id != id,
    decreases s.len(),
{
    if s.len() > 0 && s[0].id != id {
        lemma_first_with_id(s.drop_first(), id);
        let r = first_with_id(s.drop_first(), id);
        assert forall|j: int| 0 < j < s.len() && (r < 0 || j < r + 1) implies #[trigger] s[j].id != id by {
            assert(s[j] == s.drop_first()[j - 1]);
        }
    }
}

fn first_with_id_exec(feeds: &Vec<Feed>, id: &String) -> (r: Option<usize>)
    ensures
        match r {
            Some(k) => k as int == first_with_id(feeds_view(feeds@), id@),
            None => first_with_id(feeds_view(feeds@), id@) == -1,
        },
{
    proof {
        lemma_first_with_id(feeds_view(feeds@), id@);
    }
    let mut i: usize = 0;
    while i < feeds.len()
        invariant
            i <= feeds@.len(),
            forall|j: int| 0 <= j < i ==> #[trigger] feeds@[j].id@ != id@,
            -1 <= first_with_id(feeds_view(feeds@), id@) < feeds@.len(),
            first_with_id(feeds_view(feeds@), id@) >= 0 ==> feeds_view(feeds@)[first_with_id(feeds_view(feeds@), id@)].id == id@,
            first_with_id(feeds_view(feeds@), id@) >= 0 ==> forall|j: int|
                0 <= j < first_with_id(feeds_view(feeds@), id@) ==> #[trigger] feeds_view(feeds@)[j].id != id@,
            first_with_id(feeds_view(feeds@), id@) < 0 ==> forall|j: int|
                0 <= j < feeds@.len() ==> #[trigger] feeds_view(feeds@)[j].id != id@,
        decreases feeds@.len() - i,
    {
        if feeds[i].id == *id {
            proof {
                let ff = first_with_id(feeds_view(feeds@), id@);
                assert(feeds_view(feeds@)[i as int].id == id@);
                if ff >= 0 && ff < i {
                    assert(feeds_view(feeds@)[ff].id == feeds@[ff].id@);
                }
            }
            return Some(i);
        }
        i += 1;
    }
    proof {
        let ff = first_with_id(feeds_view(feeds@), id@);
        if ff >= 0 {
            assert(feeds_view(feeds@)[ff].id == feeds@[ff].id@);
        }
    }
    None
}

proof fn lemma_local_target(fs: Seq<FolderView>, local: Seq<Seq<char>>, id: Seq<char>)
    ensures
        -1 <= local_target(fs, local, id) < fs.len(),
        local_target(fs, local, id) >= 0 ==> local.contains(fs[local_target(fs, local, id)].name) && first_with_id(
            fs[local_target(fs, local, id)].feeds,
            id,
        ) >= 0,
        forall|j: int|
            0 <= j < fs.len() && (local_target(fs, local, id) < 0 || j < local_target(fs, local, id)) ==> !(local.contains(
                #[trigger] fs[j].name,
            ) && first_with_id(fs[j].feeds, id) >= 0),
    decreases fs.len(),
{
    if fs.len() > 0 && !(local.contains(fs[0].name) && first_with_id(fs[0].feeds, id) >= 0) {
        lemma_local_target(fs.drop_first(), local, id);
        assert forall|j: int|
            0 < j < fs.len() && (local_target(fs, local, id) < 0 || j < local_target(fs, local, id)) implies !(local.contains(
            #[trigger] fs[j].name,
        ) && first_with_id(fs[j].feeds, id) >= 0) by {
            assert(fs[j] == fs.drop_first()[j - 1]);
        }
    }
}

fn local_target_exec(folders: &Vec<Folder>, local: &Vec<String>, id: &String) -> (r: Option<usize>)
    ensures
        match r {
            Some(t) => t as int == local_target(folders_view(folders@), strs_view(local@), id@),
            None => local_target(folders_view(folders@), strs_view(local@), id@) == -1,
        },
{
    let ghost fs = folders_view(folders@);
    let ghost lo = strs_view(local@);
    proof {
        lemma_local_target(fs, lo, id@);
    }
    let mut t: usize = 0;
    while t < folders.len()
        invariant
            t <= folders@.len(),
            fs == folders_view(folders@),
            lo == strs_view(local@),
            forall|j: int| 0 <= j < t ==> !(lo.contains(#[trigger] fs[j].name) && first_with_id(fs[j].feeds, id@) >= 0),
        decreases folders@.len() - t,
    {
        if contains_string(local, &folders[t].name) {
            match first_with_id_exec(&folders[t].feeds, id) {
                Some(_) => {
                    proof {
                        lemma_local_target(fs, lo, id@);
                        let lt = local_target(fs, lo, id@);
                        assert(fs[t as int].name == folders@[t as int].name@);
                        if lt >= 0 && lt < t {
                            assert(!(lo.contains(fs[lt].name) && first_with_id(fs[lt].feeds, id@) >= 0));
                        }
                    }
                    return Some(t);
                },
                None => {},
            }
        }
        t += 1;
    }
    proof {
        lemma_local_target(fs, lo, id@);
        let lt = local_target(fs, lo, id@);
        if lt >= 0 {
            assert(!(lo.contains(fs[lt].name) && first_with_id(fs[lt].feeds, id@) >= 0));
        }
    }
    None
}

fn position_of_folder(fs: &Vec<Folder>, name: &String) -> (r: Option<usize>)
    ensures
        match r {
            Some(k) => k as int == first_folder(folders_view(fs@), name@),
            None => first_folder(folders_view(fs@), name@) < 0,
        },
{
    let ghost v = folders_view(fs@);
    proof {
        lemma_first_folder(v, name@);
    }
    let mut i: usize = 0;
    while i < fs.len()
        invariant
            i <= fs@.len(),
            v == folders_view(fs@),
            forall|j: int| 0 <= j < i ==> #[trigger] v[j].name != name@,
        decreases fs@.len() - i,
    {
        if fs[i].name == *name {
            proof {
                lemma_first_folder(v, name@);
                let ff = first_folder(v, name@);
                assert(v[i as int].name == name@);
                if ff < 0 || ff > i {
                    assert(v[i as int].name != name@);
                } else if ff < i {
                    assert(v[ff].name != name@);
                }
            }
            return Some(i);
        }
        i += 1;
    }
    proof {
        lemma_first_folder(v, name@);
        let ff = first_folder(v, name@);
        if ff >= 0 {
            assert(v[ff].name != name@);
        }
    }
    None
}

fn replace_feed_in_folder(folders: &mut Vec<Folder>, t: usize, slot: usize, feed: Feed)
    requires
        t < old(folders)@.len(),
        slot < old(folders)@[t as int].feeds@.len(),
    ensures
        folders_view(final(folders)@) == folders_view(old(folders)@).update(
            t as int,
            FolderView {
                name: folders_view(old(folders)@)[t as int].name,
                feeds: folders_view(old(folders)@)[t as int].feeds.update(slot as int, feed@),
            },
        ),
{
    let ghost f0 = folders@;
    let mut fo = folders.remove(t);
    let ghost fe0 = fo.feeds@;
    let _stale = fo.feeds.remove(slot);
    fo.feeds.insert(slot, feed);
    assert(feeds_view(fo.feeds@) =~= feeds_view(fe0).update(slot as int, fo.feeds@[slot as int]@));
    folders.insert(t, fo);
    assert(folders_view(folders@) =~= folders_view(f0).update(t as int, folders@[t as int]@));
}

fn push_into_folder(folders: &mut Vec<Folder>, t: usize, feed: Feed)
    requires
        t < old(folders)@.len(),
    ensures
        folders_view(final(folders)@) == folders_view(old(folders)@).update(
            t as int,
            FolderView {
                name: folders_view(old(folders)@)[t as int].name,
                feeds: folders_view(old(folders)@)[t as int].feeds.push(feed@),
            },
        ),
{
    let ghost f0 = folders@;
    let mut fo = folders.remove(t);
    let ghost fe0 = fo.feeds@;
    fo.feeds.push(feed);
    assert(feeds_view(fo.feeds@) =~= feeds_view(fe0).push(fo.feeds@.last()@));
    folders.insert(t, fo);
    assert(folders_view(folders@) =~= folders_view(f0).update(t as int, folders@[t as int]@));
}

fn without_id_exec(feeds: &Vec<Feed>, id: &String) -> (r: Vec<Feed>)
    ensures
        feeds_view(r@) == without_id(feeds_view(feeds@), id@),
{
    let mut r: Vec<Feed> = Vec::new();
    let mut i: usize = 0;
    assert(feeds_view(feeds@.take(0)) =~= Seq::<FeedView>::empty());
    assert(feeds_view(r@) =~= Seq::<FeedView>::empty());
    while i < feeds.len()
        invariant
            i <= feeds@.len(),
            feeds_view(r@) == without_id(feeds_view(feeds@.take(i as int)), id@),
        decreases feeds@.len() - i,
    {
        assert(feeds_view(feeds@.take(i + 1)).drop_last() =~= feeds_view(feeds@.take(i as int)));
        assert(feeds_view(feeds@.take(i + 1)).last() == feeds@[i as int]@);
        if feeds[i].id != *id {
            let ghost r0 = r@;
            r.push(feeds[i].duplicate());
            assert(feeds_view(r@) =~= feeds_view(r0).push(feeds@[i as int]@));
        }
        i += 1;
    }
    assert(feeds@.take(i as int) =~= feeds@);
    r
}

fn subscribed_only_exec(feeds: &Vec<Feed>, subscribed: &Vec<String>) -> (r: Vec<Feed>)
    ensures
        feeds_view(r@) == subscribed_only(feeds_view(feeds@), strs_view(subscribed@)),
{
    let mut r: Vec<Feed> = Vec::new();
    let mut i: usize = 0;
    assert(feeds_view(feeds@.take(0)) =~= Seq::<FeedView>::empty());
    assert(feeds_view(r@) =~= Seq::<FeedView>::empty());
    while i < feeds.len()
        invariant
            i <= feeds@.len(),
            feeds_view(r@) == subscribed_only(feeds_view(feeds@.take(i as int)), strs_view(subscribed@)),
        decreases feeds@.len() - i,
    {
        assert(feeds_view(feeds@.take(i + 1)).drop_last() =~= feeds_view(feeds@.take(i as int)));
        assert(feeds_view(feeds@.take(i + 1)).last() == feeds@[i as int]@);
        if contains_string(subscribed, &feeds[i].id) {
            let ghost r0 = r@;
            r.push(feeds[i].duplicate());
            assert(feeds_view(r@) =~= feeds_view(r0).push(feeds@[i as int]@));
        }
        i += 1;
    }
    assert(feeds@.take(i as int) =~= feeds@);
    r
}

fn strip_local_exec(folders: &Vec<Folder>, local: &Vec<String>, id: &String) -> (r: Vec<Folder>)
    ensures
        folders_view(r@) == strip_local(folders_view(folders@), strs_view(local@), id@),
{
    let mut r: Vec<Folder> = Vec::new();
    let mut i: usize = 0;
    while i < folders.len()
        invariant
            i <= folders@.len(),
            r@.len() == i,
            forall|k: int| 0 <= k < i ==> #[trigger] r@[k]@ == strip_one(folders@[k]@, strs_view(local@), id@),
        decreases folders@.len() - i,
    {
        if contains_string(local, &folders[i].name) {
            r.push(Folder { name: folders[i].name.clone(), feeds: without_id_exec(&folders[i].feeds, id) });
        } else {
            r.push(folders[i].duplicate());
        }
        i += 1;
    }
    assert(folders_view(r@) =~= strip_local(folders_view(folders@), strs_view(local@), id@));
    r
}

fn prune_local_exec(folders: &Vec<Folder>, local: &Vec<String>, subscribed: &Vec<String>) -> (r: Vec<Folder>)
    ensures
        folders_view(r@) == prune_local(folders_view(folders@), strs_view(local@), strs_view(subscribed@)),
{
    let mut r: Vec<Folder> = Vec::new();
    let mut i: usize = 0;
    while i < folders.len()
        invariant
            i <= folders@.len(),
            r@.len() == i,
            forall|k: int| 0 <= k < i ==> #[trigger] r@[k]@ == prune_one(folders@[k]@, strs_view(local@), strs_view(subscribed@)),
        decreases folders@.len() - i,
    {
        if contains_string(local, &folders[i].name) {
            r.push(Folder { name: folders[i].name.clone(), feeds: subscribed_only_exec(&folders[i].feeds, subscribed) });
        } else {
            r.push(folders[i].duplicate());
        }
        i += 1;
    }
    assert(folders_view(r@) =~= prune_local(folders_view(folders@), strs_view(local@), strs_view(subscribed@)));
    r
}


pub open spec fn sync_state(folders: Seq<Folder>, standalone: Seq<Feed>, subscribed: Seq<String>) -> SyncState {
    SyncState { folders: folders_view(folders), standalone: feeds_view(standalone), subscribed: strs_view(subscribed) }
}

/// Rebuilds the subscription tree from the Reader API subscription and tag
/// lists, merged with the local tree. The server decides which feeds exist
/// and how they are grouped, but an existing feed keeps its `edited_name`
/// (and its name when the server's title is empty), a subscription whose
/// category names an unknown folder goes top level instead of being
/// dropped, and a local-only folder survives with the feeds the server
/// does not group elsewhere.
pub fn sync_inoreader_account(
    existing: &OpmlFile,
    subscriptions: Vec<ReaderAPISubscription>,
    tags: Vec<ReaderAPITag>,
) -> (r: OpmlFile)
    ensures
        r@ == synced(existing@, subscriptions_view(subscriptions@), tags_view(tags@)),
{
    let server = server_folder_names(&tags);
    let mut folders = kept_local_folders(&existing.folders, &server);
    let local = folder_names(&folders);
    add_server_folders_exec(&mut folders, &tags);
    let all = collect_all_feeds(existing);
    let mut standalone: Vec<Feed> = Vec::new();
    let mut subscribed: Vec<String> = Vec::new();
    let ghost sv = strs_view(server@);
    let ghost lv = strs_view(local@);
    let ghost av = feeds_view(all@);
    let ghost st0 = sync_state(folders@, standalone@, subscribed@);
    assert(feeds_view(standalone@) =~= Seq::<FeedView>::empty());
    assert(strs_view(subscribed@) =~= Seq::<Seq<char>>::empty());
    let subs = &subscriptions;
    let mut i: usize = 0;
    assert(subscriptions_view(subs@.take(0)) =~= Seq::<SubscriptionView>::empty());
    while i < subs.len()
        invariant
            i <= subs@.len(),
            sv == strs_view(server@),
            lv == strs_view(local@),
            av == feeds_view(all@),
            sync_state(folders@, standalone@, subscribed@) == sync_steps(st0, subscriptions_view(subs@.take(i as int)), lv, sv, av),
        decreases subs@.len() - i,
    {
        let sub = &subs[i];
        assert(subscriptions_view(subs@.take(i + 1)).drop_last() =~= subscriptions_view(subs@.take(i as int)));
        assert(subscriptions_view(subs@.take(i + 1)).last() == sub@);
        let ghost before = sync_state(folders@, standalone@, subscribed@);
        let prior = prior_for(&all, &sub.feed_id, &sub.url);
        let feed = synced_feed_exec(sub, &prior);
        let ghost fv = feed@;
        assert(fv == synced_feed(sub@, prior_feed(av, sub@.feed_id, sub@.url)));
        let ghost s0 = subscribed@;
        subscribed.push(feed.id.clone());
        assert(strs_view(subscribed@) =~= strs_view(s0).push(fv.id));
        let cats = category_names_exec(&sub.categories);
        if cats.len() == 0 {
            match local_target_exec(&folders, &local, &feed.id) {
                Some(t) => {
                    proof {
                        lemma_local_target(before.folders, lv, fv.id);
                    }
                    match first_with_id_exec(&folders[t].feeds, &feed.id) {
                        Some(slot) => {
                            proof {
                                lemma_first_with_id(before.folders[t as int].feeds, fv.id);
                            }
                            replace_feed_in_folder(&mut folders, t, slot, feed);
                        },
                        None => {
                            proof {
                                assert(before.folders[t as int] == folders@[t as int]@);
                            }
                        },
                    }
                },
                None => {
                    let ghost s1 = standalone@;
                    standalone.push(feed);
                    assert(feeds_view(standalone@) =~= feeds_view(s1).push(fv));
                },
            }
        } else {
            let ghost f0 = folders_view(folders@);
            let mut seen: Vec<String> = Vec::new();
            let mut placed = false;
            let mut k: usize = 0;
            assert(cats@.take(0) =~= Seq::<String>::empty());
            assert(strs_view(cats@.take(0)) =~= Seq::<Seq<char>>::empty());
            assert(strs_view(seen@) =~= Seq::<Seq<char>>::empty());
            while k < cats.len()
                invariant
                    k <= cats@.len(),
                    sv == strs_view(server@),
                    fv == feed@,
                    (folders_view(folders@), strs_view(seen@), placed) == place_in_categories(
                        f0,
                        strs_view(cats@.take(k as int)),
                        sv,
                        fv,
                    ),
                decreases cats@.len() - k,
            {
                assert(strs_view(cats@.take(k + 1)).drop_last() =~= strs_view(cats@.take(k as int)));
                assert(strs_view(cats@.take(k + 1)).last() == cats@[k as int]@);
                let cn = &cats[k];
                if contains_string(&server, cn) {
                    match position_of_folder(&folders, cn) {
                        Some(fi) => {
                            if !contains_string(&seen, cn) {
                                proof {
                                    lemma_first_folder(folders_view(folders@), cn@);
                                }
                                push_into_folder(&mut folders, fi, feed.duplicate());
                                let ghost sn0 = seen@;
                                seen.push(cn.clone());
                                assert(strs_view(seen@) =~= strs_view(sn0).push(cn@));
                                placed = true;
                            }
                        },
                        None => {},
                    }
                }
                k += 1;
            }
            assert(cats@.take(k as int) =~= cats@);
            assert(strs_view(cats@) == category_names(sub@.categories));
            folders = strip_local_exec(&folders, &local, &feed.id);
            if !placed {
                let ghost s1 = standalone@;
                standalone.push(feed);
                assert(feeds_view(standalone@) =~= feeds_view(s1).push(fv));
            }
        }
        i += 1;
    }
    assert(subs@.take(i as int) =~= subs@);
    let folders = prune_local_exec(&folders, &local, &subscribed);
    OpmlFile { folders, standalone_feeds: standalone }
}


// ---- laws ----

/// Some feed of `s` has id `id`.
pub open spec fn in_feeds(s: Seq<FeedView>, id: Seq<char>) -> bool {
    exists|k: int| 0 <= k < s.len() && #[trigger] s[k].id == id
}

/// A feed with id `id` is somewhere in the tree: top level or in a folder.
pub open spec fn present(folders: Seq<FolderView>, standalone: Seq<FeedView>, id: Seq<char>) -> bool {
    in_feeds(standalone, id) || exists|j: int| 0 <= j < folders.len() && in_feeds(#[trigger] folders[j].feeds, id)
}

/// The feed `g` is somewhere in the tree: top level or in a folder.
pub open spec fn tree_holds(folders: Seq<FolderView>, standalone: Seq<FeedView>, g: FeedView) -> bool {
    standalone.contains(g) || exists|j: int| 0 <= j < folders.len() && (#[trigger] folders[j].feeds).contains(g)
}

proof fn lemma_tree_holds_present(folders: Seq<FolderView>, standalone: Seq<FeedView>, g: FeedView)
    requires
        tree_holds(folders, standalone, g),
    ensures
        present(folders, standalone, g.id),
{
    if standalone.contains(g) {
        let k = choose|k: int| 0 <= k < standalone.len() && standalone[k] == g;
        assert(standalone[k].id == g.id);
    } else {
        let j = choose|j: int| 0 <= j < folders.len() && (#[trigger] folders[j].feeds).contains(g);
        let k = choose|k: int| 0 <= k < folders[j].feeds.len() && folders[j].feeds[k] == g;
        assert(folders[j].feeds[k].id == g.id);
        assert(in_feeds(folders[j].feeds, g.id));
    }
}

proof fn lemma_present_holds(folders: Seq<FolderView>, standalone: Seq<FeedView>, x: Seq<char>) -> (g: FeedView)
    requires
        present(folders, standalone, x),
    ensures
        tree_holds(folders, standalone, g),
        g.id == x,
{
    if in_feeds(standalone, x) {
        let k = choose|k: int| 0 <= k < standalone.len() && #[trigger] standalone[k].id == x;
        assert(standalone.contains(standalone[k]));
        standalone[k]
    } else {
        let j = choose|j: int| 0 <= j < folders.len() && in_feeds(#[trigger] folders[j].feeds, x);
        let k = choose|k: int| 0 <= k < folders[j].feeds.len() && #[trigger] folders[j].feeds[k].id == x;
        assert(folders[j].feeds.contains(folders[j].feeds[k]));
        folders[j].feeds[k]
    }
}

proof fn lemma_without_id_keeps(s: Seq<FeedView>, id: Seq<char>, g: FeedView)
    requires
        s.contains(g),
        g.id != id,
    ensures
        without_id(s, id).contains(g),
    decreases s.len(),
{
    let k = choose|k: int| 0 <= k < s.len() && s[k] == g;
    if k == s.len() - 1 {
        let w = without_id(s, id);
        assert(w.last() == g);
    } else {
        assert(s.drop_last()[k] == g);
        lemma_without_id_keeps(s.drop_last(), id, g);
        let w0 = without_id(s.drop_last(), id);
        let k0 = choose|k0: int| 0 <= k0 < w0.len() && w0[k0] == g;
        if s.last().id != id {
            assert(without_id(s, id)[k0] == w0[k0]);
        }
    }
}

proof fn lemma_subscribed_only_keeps(s: Seq<FeedView>, subs: Seq<Seq<char>>, g: FeedView)
    requires
        s.contains(g),
        subs.contains(g.id),
    ensures
        subscribed_only(s, subs).contains(g),
    decreases s.len(),
{
    let k = choose|k: int| 0 <= k < s.len() && s[k] == g;
    if k == s.len() - 1 {
        let w = subscribed_only(s, subs);
        assert(w.last() == g);
    } else {
        assert(s.drop_last()[k] == g);
        lemma_subscribed_only_keeps(s.drop_last(), subs, g);
        let w0 = subscribed_only(s.drop_last(), subs);
        let k0 = choose|k0: int| 0 <= k0 < w0.len() && w0[k0] == g;
        if subs.contains(s.last().id) {
            assert(subscribed_only(s, subs)[k0] == w0[k0]);
        }
    }
}

/// Placing into categories only appends to folders: names, order and
/// existing feeds stay; when placed, some server-named folder holds it.
proof fn lemma_place(fs: Seq<FolderView>, cats: Seq<Seq<char>>, server: Seq<Seq<char>>, feed: FeedView)
    ensures
        place_in_categories(fs, cats, server, feed).0.len() == fs.len(),
        forall|j: int| 0 <= j < fs.len() ==> {
            &&& #[trigger] place_in_categories(fs, cats, server, feed).0[j].name == fs[j].name
            &&& place_in_categories(fs, cats, server, feed).0[j].feeds.len() >= fs[j].feeds.len()
            &&& forall|k: int| 0 <= k < fs[j].feeds.len() ==> #[trigger] place_in_categories(fs, cats, server, feed).0[j].feeds[k] == fs[j].feeds[k]
        },
        place_in_categories(fs, cats, server, feed).2 ==> exists|j: int|
            0 <= j < fs.len() && server.contains(#[trigger] place_in_categories(fs, cats, server, feed).0[j].name)
                && place_in_categories(fs, cats, server, feed).0[j].feeds.contains(feed),
    decreases cats.len(),
{
    if cats.len() > 0 {
        lemma_place(fs, cats.drop_last(), server, feed);
        let r = place_in_categories(fs, cats.drop_last(), server, feed);
        let cn = cats.last();
        let fi = first_folder(r.0, cn);
        lemma_first_folder(r.0, cn);
        if server.contains(cn) && fi >= 0 && !r.1.contains(cn) {
            let nf = r.0.update(fi, FolderView { name: r.0[fi].name, feeds: r.0[fi].feeds.push(feed) });
            assert forall|j: int| 0 <= j < fs.len() implies {
                &&& #[trigger] nf[j].name == fs[j].name
                &&& nf[j].feeds.len() >= fs[j].feeds.len()
                &&& forall|k: int| 0 <= k < fs[j].feeds.len() ==> #[trigger] nf[j].feeds[k] == fs[j].feeds[k]
            } by {
                assert(r.0[j].name == fs[j].name);
                if j == fi {
                    assert forall|k: int| 0 <= k < fs[j].feeds.len() implies #[trigger] nf[j].feeds[k] == fs[j].feeds[k] by {
                        assert(r.0[j].feeds[k] == fs[j].feeds[k]);
                    }
                }
            }
            assert(nf[fi].feeds.last() == feed);
            assert(nf[fi].feeds.contains(feed));
            assert(server.contains(nf[fi].name));
        }
    }
}

/// Every id of `st.subscribed` is present, and local-only names are not
/// server names.
spec fn sync_inv(st: SyncState, local: Seq<Seq<char>>, server: Seq<Seq<char>>) -> bool {
    &&& forall|x: Seq<char>| #[trigger] st.subscribed.contains(x) ==> present(st.folders, st.standalone, x)
    &&& forall|n: Seq<char>| #[trigger] local.contains(n) ==> !server.contains(n)
}

proof fn lemma_sync_step_inv(st: SyncState, sub: SubscriptionView, local: Seq<Seq<char>>, server: Seq<Seq<char>>, all: Seq<FeedView>)
    requires
        sync_inv(st, local, server),
    ensures
        sync_inv(sync_step(st, sub, local, server, all), local, server),
{
    let feed = synced_feed(sub, prior_feed(all, sub.feed_id, sub.url));
    let cats = category_names(sub.categories);
    let nst = sync_step(st, sub, local, server, all);
    assert forall|x: Seq<char>| #[trigger] nst.subscribed.contains(x) implies present(nst.folders, nst.standalone, x) by {
        if x == feed.id {
            lemma_step_places_feed(st, sub, local, server, all);
        } else {
            assert(st.subscribed.contains(x)) by {
                let k = choose|k: int| 0 <= k < nst.subscribed.len() && nst.subscribed[k] == x;
                assert(k < st.subscribed.len());
                assert(st.subscribed[k] == x);
            }
            lemma_step_keeps_other(st, sub, local, server, all, x);
        }
    }
}

proof fn lemma_step_places_feed(st: SyncState, sub: SubscriptionView, local: Seq<Seq<char>>, server: Seq<Seq<char>>, all: Seq<FeedView>)
    requires
        forall|n: Seq<char>| #[trigger] local.contains(n) ==> !server.contains(n),
    ensures
        tree_holds(
            sync_step(st, sub, local, server, all).folders,
            sync_step(st, sub, local, server, all).standalone,
            synced_feed(sub, prior_feed(all, sub.feed_id, sub.url)),
        ),
        present(
            sync_step(st, sub, local, server, all).folders,
            sync_step(st, sub, local, server, all).standalone,
            synced_feed(sub, prior_feed(all, sub.feed_id, sub.url)).id,
        ),
{
    let feed = synced_feed(sub, prior_feed(all, sub.feed_id, sub.url));
    let cats = category_names(sub.categories);
    let nst = sync_step(st, sub, local, server, all);
    if cats.len() == 0 {
        let t = local_target(st.folders, local, feed.id);
        lemma_local_target(st.folders, local, feed.id);
        if t >= 0 {
            let fo = st.folders[t];
            let slot = first_with_id(fo.feeds, feed.id);
            lemma_first_with_id(fo.feeds, feed.id);
            assert(nst.folders[t].feeds[slot] == feed);
            assert(nst.folders[t].feeds.contains(feed));
        } else {
            assert(nst.standalone.last() == feed);
            assert(nst.standalone.contains(feed));
        }
    } else {
        let p = place_in_categories(st.folders, cats, server, feed);
        lemma_place(st.folders, cats, server, feed);
        if p.2 {
            let j = choose|j: int| 0 <= j < st.folders.len() && server.contains(#[trigger] p.0[j].name) && p.0[j].feeds.contains(feed);
            assert(!local.contains(p.0[j].name));
            assert(nst.folders[j] == strip_one(p.0[j], local, feed.id));
            assert(nst.folders[j].feeds.contains(feed));
        } else {
            assert(nst.standalone.last() == feed);
            assert(nst.standalone.contains(feed));
        }
    }
    lemma_tree_holds_present(nst.folders, nst.standalone, feed);
}

proof fn lemma_step_keeps_feed(
    st: SyncState,
    sub: SubscriptionView,
    local: Seq<Seq<char>>,
    server: Seq<Seq<char>>,
    all: Seq<FeedView>,
    g: FeedView,
)
    requires
        tree_holds(st.folders, st.standalone, g),
        g.id != synced_feed(sub, prior_feed(all, sub.feed_id, sub.url)).id,
    ensures
        tree_holds(sync_step(st, sub, local, server, all).folders, sync_step(st, sub, local, server, all).standalone, g),
{
    let feed = synced_feed(sub, prior_feed(all, sub.feed_id, sub.url));
    let cats = category_names(sub.categories);
    let nst = sync_step(st, sub, local, server, all);
    if st.standalone.contains(g) {
        let k = choose|k: int| 0 <= k < st.standalone.len() && st.standalone[k] == g;
        assert(nst.standalone[k] == st.standalone[k]);
        assert(nst.standalone.contains(g));
    } else {
        let j = choose|j: int| 0 <= j < st.folders.len() && (#[trigger] st.folders[j].feeds).contains(g);
        let k = choose|k: int| 0 <= k < st.folders[j].feeds.len() && st.folders[j].feeds[k] == g;
        if cats.len() == 0 {
            let t = local_target(st.folders, local, feed.id);
            lemma_local_target(st.folders, local, feed.id);
            if t >= 0 {
                let slot = first_with_id(st.folders[t].feeds, feed.id);
                lemma_first_with_id(st.folders[t].feeds, feed.id);
                if j == t {
                    assert(k != slot);
                    assert(nst.folders[j].feeds[k] == st.folders[j].feeds[k]);
                } else {
                    assert(nst.folders[j] == st.folders[j]);
                }
                assert(nst.folders[j].feeds.contains(g));
            } else {
                assert(nst.folders[j] == st.folders[j]);
                assert(nst.folders[j].feeds.contains(g));
            }
        } else {
            let p = place_in_categories(st.folders, cats, server, feed);
            lemma_place(st.folders, cats, server, feed);
            assert(p.0[j].name == st.folders[j].name);
            assert(p.0[j].feeds[k] == st.folders[j].feeds[k]);
            assert(p.0[j].feeds.contains(g));
            if local.contains(p.0[j].name) {
                lemma_without_id_keeps(p.0[j].feeds, feed.id, g);
            }
            assert(nst.folders[j] == strip_one(p.0[j], local, feed.id));
            assert(nst.folders[j].feeds.contains(g));
        }
    }
}

proof fn lemma_step_keeps_other(
    st: SyncState,
    sub: SubscriptionView,
    local: Seq<Seq<char>>,
    server: Seq<Seq<char>>,
    all: Seq<FeedView>,
    x: Seq<char>,
)
    requires
        present(st.folders, st.standalone, x),
        x != synced_feed(sub, prior_feed(all, sub.feed_id, sub.url)).id,
    ensures
        present(sync_step(st, sub, local, server, all).folders, sync_step(st, sub, local, server, all).standalone, x),
{
    let g = lemma_present_holds(st.folders, st.standalone, x);
    lemma_step_keeps_feed(st, sub, local, server, all, g);
    let nst = sync_step(st, sub, local, server, all);
    lemma_tree_holds_present(nst.folders, nst.standalone, g);
}

proof fn lemma_sync_steps(st: SyncState, subs: Seq<SubscriptionView>, local: Seq<Seq<char>>, server: Seq<Seq<char>>, all: Seq<FeedView>)
    requires
        sync_inv(st, local, server),
    ensures
        sync_inv(sync_steps(st, subs, local, server, all), local, server),
        forall|i: int| 0 <= i < subs.len() ==> #[trigger] sync_steps(st, subs, local, server, all).subscribed.contains(subs[i].feed_id),
    decreases subs.len(),
{
    if subs.len() > 0 {
        lemma_sync_steps(st, subs.drop_last(), local, server, all);
        let m = sync_steps(st, subs.drop_last(), local, server, all);
        lemma_sync_step_inv(m, subs.last(), local, server, all);
        let nst = sync_step(m, subs.last(), local, server, all);
        assert forall|i: int| 0 <= i < subs.len() implies #[trigger] nst.subscribed.contains(subs[i].feed_id) by {
            if i < subs.len() - 1 {
                assert(m.subscribed.contains(subs.drop_last()[i].feed_id));
                let k = choose|k: int| 0 <= k < m.subscribed.len() && m.subscribed[k] == subs[i].feed_id;
                assert(nst.subscribed[k] == subs[i].feed_id);
            } else {
                assert(nst.subscribed.last() == subs[i].feed_id);
            }
        }
    }
}

proof fn lemma_kept_local_names(fs: Seq<FolderView>, server: Seq<Seq<char>>)
    ensures
        forall|n: Seq<char>| #[trigger] names_of(kept_local(fs, server)).contains(n) ==> !server.contains(n),
        forall|i: int| 0 <= i < fs.len() && !server.contains(fs[i].name) ==> #[trigger] names_of(kept_local(fs, server)).contains(fs[i].name),
    decreases fs.len(),
{
    if fs.len() > 0 {
        lemma_kept_local_names(fs.drop_last(), server);
        let k0 = kept_local(fs.drop_last(), server);
        let k = kept_local(fs, server);
        if !server.contains(fs.last().name) {
            assert(names_of(k) =~= names_of(k0).push(fs.last().name));
        } else {
            assert(k == k0);
        }
        assert forall|n: Seq<char>| #[trigger] names_of(k).contains(n) implies !server.contains(n) by {
            let q = choose|q: int| 0 <= q < names_of(k).len() && names_of(k)[q] == n;
            if q < names_of(k0).len() {
                assert(names_of(k0)[q] == n);
                assert(names_of(k0).contains(n));
            }
        }
        assert forall|i: int| 0 <= i < fs.len() && !server.contains(fs[i].name) implies #[trigger] names_of(k).contains(fs[i].name) by {
            if i < fs.len() - 1 {
                assert(fs.drop_last()[i] == fs[i]);
                assert(names_of(k0).contains(fs[i].name));
                let q = choose|q: int| 0 <= q < names_of(k0).len() && names_of(k0)[q] == fs[i].name;
                assert(names_of(k)[q] == fs[i].name);
            } else {
                assert(names_of(k).last() == fs[i].name);
            }
        }
    }
}

proof fn lemma_add_server_folders(fs: Seq<FolderView>, tags: Seq<TagView>)
    ensures
        forall|n: Seq<char>| #[trigger] names_of(fs).contains(n) ==> names_of(add_server_folders(fs, tags)).contains(n),
        forall|i: int| 0 <= i < tags.len() && !is_state_tag(tags[i]) ==> #[trigger] names_of(add_server_folders(fs, tags)).contains(last_segment(tags[i].id)),
    decreases tags.len(),
{
    if tags.len() > 0 {
        lemma_add_server_folders(fs, tags.drop_last());
        let prev = add_server_folders(fs, tags.drop_last());
        let cur = add_server_folders(fs, tags);
        let t = tags.last();
        if !(is_state_tag(t) || names_of(prev).contains(last_segment(t.id))) {
            assert(names_of(cur) =~= names_of(prev).push(last_segment(t.id)));
            assert forall|n: Seq<char>| #[trigger] names_of(prev).contains(n) implies names_of(cur).contains(n) by {
                let q = choose|q: int| 0 <= q < names_of(prev).len() && names_of(prev)[q] == n;
                assert(names_of(cur)[q] == n);
            }
        }
        assert forall|n: Seq<char>| #[trigger] names_of(fs).contains(n) implies names_of(cur).contains(n) by {
            assert(names_of(prev).contains(n));
        }
        assert forall|i: int| 0 <= i < tags.len() && !is_state_tag(tags[i]) implies #[trigger] names_of(cur).contains(
            last_segment(tags[i].id),
        ) by {
            if i < tags.len() - 1 {
                assert(tags.drop_last()[i] == tags[i]);
                assert(names_of(prev).contains(last_segment(tags[i].id)));
            } else if !names_of(prev).contains(last_segment(t.id)) {
                assert(names_of(cur).last() == last_segment(t.id));
            }
        }
    }
}

proof fn lemma_sync_steps_names(st: SyncState, subs: Seq<SubscriptionView>, local: Seq<Seq<char>>, server: Seq<Seq<char>>, all: Seq<FeedView>)
    ensures
        names_of(sync_steps(st, subs, local, server, all).folders) == names_of(st.folders),
    decreases subs.len(),
{
    if subs.len() > 0 {
        lemma_sync_steps_names(st, subs.drop_last(), local, server, all);
        let m = sync_steps(st, subs.drop_last(), local, server, all);
        let sub = subs.last();
        let feed = synced_feed(sub, prior_feed(all, sub.feed_id, sub.url));
        let cats = category_names(sub.categories);
        let nst = sync_step(m, sub, local, server, all);
        if cats.len() == 0 {
            let t = local_target(m.folders, local, feed.id);
            lemma_local_target(m.folders, local, feed.id);
            assert(nst.folders.len() == m.folders.len());
            assert forall|q: int| 0 <= q < m.folders.len() implies names_of(nst.folders)[q] == names_of(m.folders)[q] by {
                if t >= 0 && q == t {
                    assert(nst.folders[q].name == m.folders[q].name);
                } else {
                    assert(nst.folders[q] == m.folders[q]);
                }
            }
            assert(names_of(nst.folders) =~= names_of(m.folders));
        } else {
            let p = place_in_categories(m.folders, cats, server, feed);
            lemma_place(m.folders, cats, server, feed);
            assert forall|q: int| 0 <= q < m.folders.len() implies names_of(nst.folders)[q] == names_of(m.folders)[q] by {
                assert(p.0[q].name == m.folders[q].name);
                assert(nst.folders[q] == strip_one(p.0[q], local, feed.id));
            }
            assert(names_of(nst.folders) =~= names_of(m.folders));
        }
    }
}

/// A reconcile keeps every local folder the server does not know, and
/// holds a folder for every server tag that is not a read/starred state.
pub proof fn lemma_sync_keeps_folders(existing: OpmlView, subs: Seq<SubscriptionView>, tags: Seq<TagView>)
    ensures
        forall|i: int|
            0 <= i < existing.folders.len() && !server_names(tags).contains(existing.folders[i].name) ==> #[trigger] names_of(
                synced(existing, subs, tags).folders,
            ).contains(existing.folders[i].name),
        forall|i: int| 0 <= i < tags.len() && !is_state_tag(tags[i]) ==> #[trigger] names_of(synced(existing, subs, tags).folders).contains(
            last_segment(tags[i].id),
        ),
{
    let server = server_names(tags);
    let kept = kept_local(existing.folders, server);
    let local = names_of(kept);
    let st0 = SyncState { folders: add_server_folders(kept, tags), standalone: Seq::empty(), subscribed: Seq::empty() };
    let st = sync_steps(st0, subs, local, server, all_feeds(existing));
    lemma_kept_local_names(existing.folders, server);
    lemma_add_server_folders(kept, tags);
    lemma_sync_steps_names(st0, subs, local, server, all_feeds(existing));
    let out = synced(existing, subs, tags);
    assert(names_of(prune_local(st.folders, local, st.subscribed)) =~= names_of(st.folders));
    assert(names_of(out.folders) == names_of(st0.folders));
    assert forall|i: int|
        0 <= i < existing.folders.len() && !server.contains(existing.folders[i].name) implies #[trigger] names_of(
        out.folders,
    ).contains(existing.folders[i].name) by {
        assert(local.contains(existing.folders[i].name));
        assert(names_of(st0.folders).contains(existing.folders[i].name));
    }
}

/// No subscription is dropped by a reconcile: each subscribed feed id ends
/// up at the top level or in some folder.
pub proof fn lemma_sync_keeps_every_subscription(existing: OpmlView, subs: Seq<SubscriptionView>, tags: Seq<TagView>)
    ensures
        forall|i: int| 0 <= i < subs.len() ==> present(
            synced(existing, subs, tags).folders,
            synced(existing, subs, tags).standalone_feeds,
            #[trigger] subs[i].feed_id,
        ),
{
    let server = server_names(tags);
    let kept = kept_local(existing.folders, server);
    let local = names_of(kept);
    let st0 = SyncState { folders: add_server_folders(kept, tags), standalone: Seq::empty(), subscribed: Seq::empty() };
    let all = all_feeds(existing);
    lemma_kept_local_names(existing.folders, server);
    lemma_sync_steps(st0, subs, local, server, all);
    let st = sync_steps(st0, subs, local, server, all);
    let out = synced(existing, subs, tags);
    assert forall|i: int| 0 <= i < subs.len() implies present(out.folders, out.standalone_feeds, #[trigger] subs[i].feed_id) by {
        let x = subs[i].feed_id;
        assert(st.subscribed.contains(x));
        assert(present(st.folders, st.standalone, x));
        if !in_feeds(st.standalone, x) {
            let j = choose|j: int| 0 <= j < st.folders.len() && in_feeds(#[trigger] st.folders[j].feeds, x);
            let k = choose|k: int| 0 <= k < st.folders[j].feeds.len() && #[trigger] st.folders[j].feeds[k].id == x;
            let g = st.folders[j].feeds[k];
            assert(st.folders[j].feeds.contains(g));
            if local.contains(st.folders[j].name) {
                lemma_subscribed_only_keeps(st.folders[j].feeds, st.subscribed, g);
            }
            assert(out.folders[j] == prune_one(st.folders[j], local, st.subscribed));
            assert(out.folders[j].feeds.contains(g));
            let k0 = choose|k0: int| 0 <= k0 < out.folders[j].feeds.len() && out.folders[j].feeds[k0] == g;
            assert(out.folders[j].feeds[k0].id == x);
            assert(in_feeds(out.folders[j].feeds, x));
        }
    }
}

proof fn lemma_steps_keep_last_feed(
    st: SyncState,
    subs: Seq<SubscriptionView>,
    local: Seq<Seq<char>>,
    server: Seq<Seq<char>>,
    all: Seq<FeedView>,
    i: int,
)
    requires
        0 <= i < subs.len(),
        forall|j: int| i < j < subs.len() ==> (#[trigger] subs[j]).feed_id != subs[i].feed_id,
        forall|n: Seq<char>| #[trigger] local.contains(n) ==> !server.contains(n),
    ensures
        tree_holds(
            sync_steps(st, subs, local, server, all).folders,
            sync_steps(st, subs, local, server, all).standalone,
            synced_feed(subs[i], prior_feed(all, subs[i].feed_id, subs[i].url)),
        ),
    decreases subs.len(),
{
    let m = sync_steps(st, subs.drop_last(), local, server, all);
    if i == subs.len() - 1 {
        lemma_step_places_feed(m, subs.last(), local, server, all);
    } else {
        assert forall|j: int| i < j < subs.drop_last().len() implies (#[trigger] subs.drop_last()[j]).feed_id
            != subs.drop_last()[i].feed_id by {
            assert(subs.drop_last()[j] == subs[j]);
        }
        lemma_steps_keep_last_feed(st, subs.drop_last(), local, server, all, i);
        assert(subs.drop_last()[i] == subs[i]);
        assert(subs[subs.len() - 1].feed_id != subs[i].feed_id);
        lemma_step_keeps_feed(m, subs.last(), local, server, all, synced_feed(subs[i], prior_feed(all, subs[i].feed_id, subs[i].url)));
    }
}

/// A reconcile takes each subscription's addresses from the server: for a
/// subscription that no later one repeats, the tree holds a feed with its
/// id, its URL and its home page (none when the server gives none), named
/// by its title when that is not empty, whatever the local feed it
/// continues held; from that local feed (the last one with its id, else
/// the last one with its URL) it keeps only the edited name, and the name
/// when the title is empty.
pub proof fn lemma_sync_takes_server_addresses(existing: OpmlView, subs: Seq<SubscriptionView>, tags: Seq<TagView>, i: int)
    requires
        0 <= i < subs.len(),
        forall|j: int| i < j < subs.len() ==> (#[trigger] subs[j]).feed_id != subs[i].feed_id,
    ensures
        exists|f: FeedView|
            #[trigger] tree_holds(synced(existing, subs, tags).folders, synced(existing, subs, tags).standalone_feeds, f)
                && f.id == subs[i].feed_id && f.url == subs[i].url && f.home_page_url == subs[i].html_url && (
            subs[i].title.len() > 0 ==> f.name == Some(subs[i].title)) && match prior_feed(
                all_feeds(existing),
                subs[i].feed_id,
                subs[i].url,
            ) {
                Some(p) => f.edited_name == p.edited_name && (subs[i].title.len() == 0 ==> f.name == p.name),
                None => f.edited_name is None && (subs[i].title.len() == 0 ==> f.name is None),
            },
{
    let server = server_names(tags);
    let kept = kept_local(existing.folders, server);
    let local = names_of(kept);
    let st0 = SyncState { folders: add_server_folders(kept, tags), standalone: Seq::empty(), subscribed: Seq::empty() };
    let all = all_feeds(existing);
    lemma_kept_local_names(existing.folders, server);
    lemma_sync_steps(st0, subs, local, server, all);
    lemma_steps_keep_last_feed(st0, subs, local, server, all, i);
    let st = sync_steps(st0, subs, local, server, all);
    let out = synced(existing, subs, tags);
    let g = synced_feed(subs[i], prior_feed(all, subs[i].feed_id, subs[i].url));
    assert(st.subscribed.contains(g.id));
    if !st.standalone.contains(g) {
        let j = choose|j: int| 0 <= j < st.folders.len() && (#[trigger] st.folders[j].feeds).contains(g);
        if local.contains(st.folders[j].name) {
            lemma_subscribed_only_keeps(st.folders[j].feeds, st.subscribed, g);
        }
        assert(out.folders[j] == prune_one(st.folders[j], local, st.subscribed));
        assert(out.folders[j].feeds.contains(g));
    }
    assert(tree_holds(out.folders, out.standalone_feeds, g));
}

} // verus!
