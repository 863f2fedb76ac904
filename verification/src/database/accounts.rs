//! Edits of the subscription tree behind the account's add, remove,
//! rename, create-folder and move operations, and the id/URL lists the
//! startup cleanup keeps.
use vstd::prelude::*;
use crate::chars::{trim_text, trimmed};
use crate::database::opml::{strs_view, OpmlFile, OpmlView};
use crate::database::opml_merge::{first_folder, lemma_first_folder};
use crate::database::opml_sync::{all_feeds, folder_feeds, names_of};
use crate::models::{feeds_view, folders_view, opt_view, Feed, FeedView, Folder, FolderView};

verus! {

/// Index of the first feed of `s` with URL `url`, or -1.
pub open spec fn first_with_url(s: Seq<FeedView>, url: Seq<char>) -> int
    decreases s.len(),
{
    if s.len() == 0 {
        -1
    } else if s[0].url == url {
        0
    } else {
        let r = first_with_url(s.drop_first(), url);
        if r < 0 {
            -1
        } else {
            r + 1
        }
    }
}

pub proof fn lemma_first_with_url(s: Seq<FeedView>, url: Seq<char>)
    ensures
        -1 <= first_with_url(s, url) < s.len(),
        first_with_url(s, url) >= 0 ==> s[first_with_url(s, url)].url == url,
        forall|j: int| 0 <= j < s.len() && (first_with_url(s, url) < 0 || j < first_with_url(s, url)) ==> #[trigger] s[j].url != url,
    decreases s.len(),
{
    if s.len() > 0 && s[0].url != url {
        lemma_first_with_url(s.drop_first(), url);
        assert forall|j: int|
            0 < j < s.len() && (first_with_url(s, url) < 0 || j < first_with_url(s, url)) implies #[trigger] s[j].url != url by {
            assert(s[j] == s.drop_first()[j - 1]);
        }
    }
}

fn url_position(feeds: &Vec<Feed>, url: &str) -> (r: Option<usize>)
    ensures
        match r {
            Some(k) => k as int == first_with_url(feeds_view(feeds@), url@),
            None => first_with_url(feeds_view(feeds@), url@) < 0,
        },
{
    let ghost v = feeds_view(feeds@);
    proof {
        lemma_first_with_url(v, url@);
    }
    let target = String::from_str(url);
    let mut i: usize = 0;
    while i < feeds.len()
        invariant
            i <= feeds@.len(),
            v == feeds_view(feeds@),
            target@ == url@,
            forall|j: int| 0 <= j < i ==> #[trigger] v[j].url != url@,
        decreases feeds@.len() - i,
    {
        if feeds[i].url == target {
            proof {
                lemma_first_with_url(v, url@);
                let f = first_with_url(v, url@);
                assert(v[i as int].url == url@);
                if f < 0 || f > i {
                    assert(v[i as int].url != url@);
                } else if f < i {
                    assert(v[f].url != url@);
                }
            }
            return Some(i);
        }
        i += 1;
    }
    proof {
        lemma_first_with_url(v, url@);
        let f = first_with_url(v, url@);
        if f >= 0 {
            assert(v[f].url != url@);
        }
    }
    None
}

fn folder_position(folders: &Vec<Folder>, name: &str) -> (r: Option<usize>)
    ensures
        match r {
            Some(k) => k as int == first_folder(folders_view(folders@), name@),
            None => first_folder(folders_view(folders@), name@) < 0,
        },
{
    let ghost v = folders_view(folders@);
    proof {
        lemma_first_folder(v, name@);
    }
    let target = String::from_str(name);
    let mut i: usize = 0;
    while i < folders.len()
        invariant
            i <= folders@.len(),
            v == folders_view(folders@),
            target@ == name@,
            forall|j: int| 0 <= j < i ==> #[trigger] v[j].name != name@,
        decreases folders@.len() - i,
    {
        if folders[i].name == target {
            proof {
                lemma_first_folder(v, name@);
                let f = first_folder(v, name@);
                assert(v[i as int].name == name@);
                if f < 0 || f > i {
                    assert(v[i as int].name != name@);
                } else if f < i {
                    assert(v[f].name != name@);
                }
            }
            return Some(i);
        }
        i += 1;
    }
    proof {
        lemma_first_folder(v, name@);
        let f = first_folder(v, name@);
        if f >= 0 {
            assert(v[f].name != name@);
        }
    }
    None
}

/// The feed `add_feed` creates.
pub open spec fn new_feed(url: Seq<char>, name: Option<Seq<char>>, home: Option<Seq<char>>) -> FeedView {
    FeedView { id: url, url, name, edited_name: None, home_page_url: home }
}

/// `add_feed`'s result: the tree after the add and the feed it reports.
pub open spec fn added(file: OpmlView, f: FeedView, folder: Option<Seq<char>>) -> (OpmlView, FeedView) {
    match folder {
        Some(fname) => {
            let fi = first_folder(file.folders, fname);
            if fi >= 0 {
                let fo = file.folders[fi];
                let j = first_with_url(fo.feeds, f.url);
                if j >= 0 {
                    (file, fo.feeds[j])
                } else {
                    (
                        OpmlView {
                            folders: file.folders.update(fi, FolderView { name: fo.name, feeds: fo.feeds.push(f) }),
                            standalone_feeds: file.standalone_feeds,
                        },
                        f,
                    )
                }
            } else {
                (
                    OpmlView {
                        folders: file.folders.push(FolderView { name: fname, feeds: seq![f] }),
                        standalone_feeds: file.standalone_feeds,
                    },
                    f,
                )
            }
        },
        None => {
            let j = first_with_url(file.standalone_feeds, f.url);
            if j >= 0 {
                (file, file.standalone_feeds[j])
            } else {
                (OpmlView { folders: file.folders, standalone_feeds: file.standalone_feeds.push(f) }, f)
            }
        },
    }
}

/// `s` without the feeds whose URL is `url`.
pub open spec fn without_url(s: Seq<FeedView>, url: Seq<char>) -> Seq<FeedView>
    decreases s.len(),
{
    if s.len() == 0 {
        Seq::empty()
    } else if s.last().url == url {
        without_url(s.drop_last(), url)
    } else {
        without_url(s.drop_last(), url).push(s.last())
    }
}

/// Some feed of `s` has URL `url`.
pub open spec fn has_url(s: Seq<FeedView>, url: Seq<char>) -> bool {
    exists|k: int| 0 <= k < s.len() && #[trigger] s[k].url == url
}

/// `file` holds a feed with URL `url`, top level or in a folder.
pub open spec fn file_has_url(file: OpmlView, url: Seq<char>) -> bool {
    has_url(file.standalone_feeds, url) || exists|j: int| 0 <= j < file.folders.len() && has_url(#[trigger] file.folders[j].feeds, url)
}

pub open spec fn folder_without_url(fo: FolderView, url: Seq<char>) -> FolderView {
    FolderView { name: fo.name, feeds: without_url(fo.feeds, url) }
}

/// `file` with every feed of URL `url` removed, folders kept (even empty).
pub open spec fn removed(file: OpmlView, url: Seq<char>) -> OpmlView {
    OpmlView {
        folders: file.folders.map_values(|fo: FolderView| folder_without_url(fo, url)),
        standalone_feeds: without_url(file.standalone_feeds, url),
    }
}

/// The `edited_name` a rename sets: the trimmed name, or none when blank.
pub open spec fn edited_value(new_name: Seq<char>) -> Option<Seq<char>> {
    if trimmed(new_name).len() == 0 {
        None
    } else {
        Some(trimmed(new_name))
    }
}

pub open spec fn renamed_feed(f: FeedView, url: Seq<char>, edited: Option<Seq<char>>) -> FeedView {
    if f.url == url {
        FeedView { edited_name: edited, ..f }
    } else {
        f
    }
}

pub open spec fn renamed_feeds(s: Seq<FeedView>, url: Seq<char>, edited: Option<Seq<char>>) -> Seq<FeedView> {
    s.map_values(|f: FeedView| renamed_feed(f, url, edited))
}

/// `file` with `edited_name` set on every feed of URL `url`.
pub open spec fn renamed(file: OpmlView, url: Seq<char>, edited: Option<Seq<char>>) -> OpmlView {
    OpmlView {
        folders: file.folders.map_values(
            |fo: FolderView| FolderView { name: fo.name, feeds: renamed_feeds(fo.feeds, url, edited) },
        ),
        standalone_feeds: renamed_feeds(file.standalone_feeds, url, edited),
    }
}

proof fn lemma_without_url(s: Seq<FeedView>, url: Seq<char>)
    ensures
        without_url(s, url).len() <= s.len(),
        without_url(s, url).len() == s.len() <==> !has_url(s, url),
        !has_url(without_url(s, url), url),
        forall|x: FeedView| #[trigger] without_url(s, url).contains(x) ==> s.contains(x),
    decreases s.len(),
{
    if s.len() > 0 {
        lemma_without_url(s.drop_last(), url);
        let w0 = without_url(s.drop_last(), url);
        let w = without_url(s, url);
        if has_url(s.drop_last(), url) {
            let k = choose|k: int| 0 <= k < s.drop_last().len() && #[trigger] s.drop_last()[k].url == url;
            assert(s[k].url == url);
        }
        if s.last().url == url {
            assert(s[s.len() - 1].url == url);
        } else {
            if has_url(s, url) {
                let k = choose|k: int| 0 <= k < s.len() && #[trigger] s[k].url == url;
                assert(s.drop_last()[k].url == url);
            }
            if has_url(w, url) {
                let k = choose|k: int| 0 <= k < w.len() && #[trigger] w[k].url == url;
                assert(w0[k].url == url);
            }
        }
        assert forall|x: FeedView| #[trigger] w.contains(x) implies s.contains(x) by {
            let k = choose|k: int| 0 <= k < w.len() && w[k] == x;
            if k < w0.len() {
                assert(w0[k] == x);
                assert(w0.contains(x));
                let q = choose|q: int| 0 <= q < s.drop_last().len() && s.drop_last()[q] == x;
                assert(s[q] == x);
            } else {
                assert(s[s.len() - 1] == x);
            }
        }
    }
}

fn without_url_exec(feeds: &Vec<Feed>, url: &str) -> (r: Vec<Feed>)
    ensures
        feeds_view(r@) == without_url(feeds_view(feeds@), url@),
{
    let target = String::from_str(url);
    let mut r: Vec<Feed> = Vec::new();
    let mut i: usize = 0;
    assert(feeds_view(feeds@.take(0)) =~= Seq::<FeedView>::empty());
    assert(feeds_view(r@) =~= Seq::<FeedView>::empty());
    while i < feeds.len()
        invariant
            i <= feeds@.len(),
            target@ == url@,
            feeds_view(r@) == without_url(feeds_view(feeds@.take(i as int)), url@),
        decreases feeds@.len() - i,
    {
        assert(feeds_view(feeds@.take(i + 1)).drop_last() =~= feeds_view(feeds@.take(i as int)));
        assert(feeds_view(feeds@.take(i + 1)).last() == feeds@[i as int]@);
        if feeds[i].url != target {
            let ghost r0 = r@;
            r.push(feeds[i].duplicate());
            assert(feeds_view(r@) =~= feeds_view(r0).push(feeds@[i as int]@));
        }
        i += 1;
    }
    assert(feeds@.take(i as int) =~= feeds@);
    r
}

fn renamed_feeds_exec(feeds: &Vec<Feed>, url: &str, edited: &Option<String>) -> (r: Vec<Feed>)
    ensures
        feeds_view(r@) == renamed_feeds(feeds_view(feeds@), url@, opt_view(*edited)),
{
    let target = String::from_str(url);
    let mut r: Vec<Feed> = Vec::new();
    let mut i: usize = 0;
    while i < feeds.len()
        invariant
            i <= feeds@.len(),
            target@ == url@,
            r@.len() == i,
            forall|k: int| 0 <= k < i ==> #[trigger] r@[k]@ == renamed_feed(feeds@[k]@, url@, opt_view(*edited)),
        decreases feeds@.len() - i,
    {
        let mut f = feeds[i].duplicate();
        if f.url == target {
            f.edited_name = crate::models::opt_clone(edited);
        }
        r.push(f);
        i += 1;
    }
    assert(feeds_view(r@) =~= renamed_feeds(feeds_view(feeds@), url@, opt_view(*edited)));
    r
}

impl OpmlFile {
    /// Adds a feed (keyed by its URL) to the folder named `folder_name`,
    /// creating that folder at the end when missing, or to the top level.
    /// A feed of the same URL already in that place is returned instead
    /// and nothing changes.
    pub fn add_feed(
        &mut self,
        feed_url: String,
        feed_name: Option<String>,
        home_page_url: Option<String>,
        folder_name: Option<String>,
    ) -> (r: Feed)
        ensures
            (final(self)@, r@) == added(
                old(self)@,
                new_feed(feed_url@, opt_view(feed_name), opt_view(home_page_url)),
                opt_view(folder_name),
            ),
    {
        let feed = Feed { id: feed_url.clone(), url: feed_url, name: feed_name, edited_name: None, home_page_url };
        match folder_name {
            Some(folder) => match folder_position(&self.folders, folder.as_str()) {
                Some(fi) => match {
                    proof {
                        lemma_first_folder(self@.folders, folder@);
                    }
                    url_position(&self.folders[fi].feeds, feed.url.as_str())
                } {
                    Some(j) => {
                        proof {
                            lemma_first_with_url(self@.folders[fi as int].feeds, feed@.url);
                            assert(self@.folders[fi as int] == self.folders@[fi as int]@);
                        }
                        self.folders[fi].feeds[j].duplicate()
                    },
                    None => {
                        proof {
                            assert(self@.folders[fi as int] == self.folders@[fi as int]@);
                        }
                        let ghost f0 = self.folders@;
                        let mut target = self.folders.remove(fi);
                        let ghost t0 = target@;
                        target.feeds.push(feed.duplicate());
                        assert(feeds_view(target.feeds@) =~= t0.feeds.push(feed@));
                        self.folders.insert(fi, target);
                        assert(folders_view(self.folders@) =~= folders_view(f0).update(fi as int, self.folders@[fi as int]@));
                        feed
                    },
                },
                None => {
                    let ghost f0 = self.folders@;
                    self.folders.push(Folder { name: folder, feeds: vec![feed.duplicate()] });
                    assert(feeds_view(self.folders@.last().feeds@) =~= seq![feed@]);
                    assert(folders_view(self.folders@) =~= folders_view(f0).push(self.folders@.last()@));
                    feed
                },
            },
            None => match url_position(&self.standalone_feeds, feed.url.as_str()) {
                Some(j) => {
                    proof {
                        lemma_first_with_url(self@.standalone_feeds, feed@.url);
                    }
                    self.standalone_feeds[j].duplicate()
                },
                None => {
                    let ghost s0 = self.standalone_feeds@;
                    self.standalone_feeds.push(feed.duplicate());
                    assert(feeds_view(self.standalone_feeds@) =~= feeds_view(s0).push(feed@));
                    feed
                },
            },
        }
    }

    /// Removes every feed of URL `feed_url`, top level and in folders
    /// (folders left empty stay). Returns whether any feed was removed.
    pub fn remove_feed(&mut self, feed_url: &str) -> (r: bool)
        ensures
            final(self)@ == removed(old(self)@, feed_url@),
            r == file_has_url(old(self)@, feed_url@),
    {
        let ghost before = self@;
        let standalone = without_url_exec(&self.standalone_feeds, feed_url);
        let mut removed_any = standalone.len() != self.standalone_feeds.len();
        proof {
            lemma_without_url(before.standalone_feeds, feed_url@);
        }
        let mut folders: Vec<Folder> = Vec::new();
        let mut i: usize = 0;
        while i < self.folders.len()
            invariant
                i <= self.folders@.len(),
                self@ == before,
                folders@.len() == i,
                forall|k: int| 0 <= k < i ==> #[trigger] folders@[k]@ == folder_without_url(self.folders@[k]@, feed_url@),
                removed_any == (has_url(before.standalone_feeds, feed_url@) || exists|j: int|
                    0 <= j < i && has_url(#[trigger] before.folders[j].feeds, feed_url@)),
            decreases self.folders@.len() - i,
        {
            let feeds = without_url_exec(&self.folders[i].feeds, feed_url);
            proof {
                lemma_without_url(before.folders[i as int].feeds, feed_url@);
                assert(before.folders[i as int] == self.folders@[i as int]@);
            }
            if feeds.len() != self.folders[i].feeds.len() {
                removed_any = true;
            }
            folders.push(Folder { name: self.folders[i].name.clone(), feeds });
            i += 1;
        }
        assert(folders_view(folders@) =~= removed(before, feed_url@).folders);
        self.folders = folders;
        self.standalone_feeds = standalone;
        removed_any
    }

    /// Sets the display name of every feed of URL `feed_url` to the
    /// trimmed `new_name` (a blank name clears it). Returns whether any
    /// feed matched.
    pub fn rename_feed(&mut self, feed_url: &str, new_name: String) -> (r: bool)
        ensures
            final(self)@ == renamed(old(self)@, feed_url@, edited_value(new_name@)),
            r == file_has_url(old(self)@, feed_url@),
    {
        let ghost before = self@;
        let t = trim_text(new_name.as_str());
        let edited: Option<String> = if t.as_str().is_empty() {
            None
        } else {
            Some(t)
        };
        assert(opt_view(edited) == edited_value(new_name@));
        let url_pos = url_position(&self.standalone_feeds, feed_url);
        let mut changed = url_pos.is_some();
        proof {
            lemma_first_with_url(before.standalone_feeds, feed_url@);
            if has_url(before.standalone_feeds, feed_url@) {
                let k = choose|k: int| 0 <= k < before.standalone_feeds.len() && #[trigger] before.standalone_feeds[k].url == feed_url@;
                assert(first_with_url(before.standalone_feeds, feed_url@) >= 0);
            }
        }
        let standalone = renamed_feeds_exec(&self.standalone_feeds, feed_url, &edited);
        let mut folders: Vec<Folder> = Vec::new();
        let mut i: usize = 0;
        while i < self.folders.len()
            invariant
                i <= self.folders@.len(),
                self@ == before,
                folders@.len() == i,
                forall|k: int|
                    0 <= k < i ==> #[trigger] folders@[k]@ == (FolderView {
                        name: self.folders@[k]@.name,
                        feeds: renamed_feeds(self.folders@[k]@.feeds, feed_url@, opt_view(edited)),
                    }),
                changed == (has_url(before.standalone_feeds, feed_url@) || exists|j: int|
                    0 <= j < i && has_url(#[trigger] before.folders[j].feeds, feed_url@)),
            decreases self.folders@.len() - i,
        {
            let found = url_position(&self.folders[i].feeds, feed_url);
            proof {
                assert(before.folders[i as int] == self.folders@[i as int]@);
                lemma_first_with_url(before.folders[i as int].feeds, feed_url@);
                if has_url(before.folders[i as int].feeds, feed_url@) {
                    let k = choose|k: int|
                        0 <= k < before.folders[i as int].feeds.len() && #[trigger] before.folders[i as int].feeds[k].url
                            == feed_url@;
                    assert(first_with_url(before.folders[i as int].feeds, feed_url@) >= 0);
                }
            }
            if found.is_some() {
                changed = true;
            }
            folders.push(Folder {
                name: self.folders[i].name.clone(),
                feeds: renamed_feeds_exec(&self.folders[i].feeds, feed_url, &edited),
            });
            i += 1;
        }
        assert(folders_view(folders@) =~= renamed(before, feed_url@, opt_view(edited)).folders);
        self.folders = folders;
        self.standalone_feeds = standalone;
        changed
    }

    /// Appends an empty folder named by the trimmed `name`. Refused (and
    /// nothing changes) when the trimmed name is blank or already taken.
    pub fn create_folder(&mut self, name: String) -> (r: bool)
        ensures
            r == (trimmed(name@).len() > 0 && !names_of(old(self)@.folders).contains(trimmed(name@))),
            r ==> final(self)@ == (OpmlView {
                folders: old(self)@.folders.push(FolderView { name: trimmed(name@), feeds: Seq::empty() }),
                standalone_feeds: old(self)@.standalone_feeds,
            }),
            !r ==> final(self)@ == old(self)@,
    {
        let t = trim_text(name.as_str());
        if t.as_str().is_empty() {
            return false;
        }
        match folder_position(&self.folders, t.as_str()) {
            Some(k) => {
                proof {
                    lemma_first_folder(self@.folders, t@);
                    assert(names_of(self@.folders)[k as int] == t@);
                }
                false
            },
            None => {
                proof {
                    lemma_first_folder(self@.folders, t@);
                    assert forall|q: int| 0 <= q < names_of(self@.folders).len() implies names_of(self@.folders)[q] != t@ by {
                        assert(self@.folders[q].name != t@);
                    }
                }
                let ghost f0 = self.folders@;
                self.folders.push(Folder { name: t, feeds: Vec::new() });
                assert(feeds_view(self.folders@.last().feeds@) =~= Seq::<FeedView>::empty());
                assert(folders_view(self.folders@) =~= folders_view(f0).push(self.folders@.last()@));
                true
            },
        }
    }
}

/// The URL of every feed of `file`: top-level feeds first, then each
/// folder's.
pub fn opml_feed_urls(opml: &OpmlFile) -> (r: Vec<String>)
    ensures
        strs_view(r@) == all_feeds(opml@).map_values(|f: FeedView| f.url),
{
    let all = crate::database::opml_sync::collect_all_feeds(opml);
    let mut r: Vec<String> = Vec::new();
    let mut i: usize = 0;
    while i < all.len()
        invariant
            i <= all@.len(),
            r@.len() == i,
            forall|k: int| 0 <= k < i ==> #[trigger] r@[k]@ == all@[k].url@,
        decreases all@.len() - i,
    {
        r.push(all[i].url.clone());
        i += 1;
    }
    assert(strs_view(r@) =~= feeds_view(all@).map_values(|f: FeedView| f.url));
    r
}

/// The id of every feed of `file`: top-level feeds first, then each
/// folder's.
pub fn opml_feed_ids(opml: &OpmlFile) -> (r: Vec<String>)
    ensures
        strs_view(r@) == all_feeds(opml@).map_values(|f: FeedView| f.id),
{
    let all = crate::database::opml_sync::collect_all_feeds(opml);
    let mut r: Vec<String> = Vec::new();
    let mut i: usize = 0;
    while i < all.len()
        invariant
            i <= all@.len(),
            r@.len() == i,
            forall|k: int| 0 <= k < i ==> #[trigger] r@[k]@ == all@[k].id@,
        decreases all@.len() - i,
    {
        r.push(all[i].id.clone());
        i += 1;
    }
    assert(strs_view(r@) =~= feeds_view(all@).map_values(|f: FeedView| f.id));
    r
}


/// Index of the first folder holding a feed of URL `url`, or -1.
pub open spec fn first_folder_with_url(fs: Seq<FolderView>, url: Seq<char>) -> int
    decreases fs.len(),
{
    if fs.len() == 0 {
        -1
    } else if first_with_url(fs[0].feeds, url) >= 0 {
        0
    } else {
        let r = first_folder_with_url(fs.drop_first(), url);
        if r < 0 {
            -1
        } else {
            r + 1
        }
    }
}

proof fn lemma_first_folder_with_url(fs: Seq<FolderView>, url: Seq<char>)
    ensures
        -1 <= first_folder_with_url(fs, url) < fs.len(),
        first_folder_with_url(fs, url) >= 0 ==> first_with_url(fs[first_folder_with_url(fs, url)].feeds, url) >= 0,
        forall|j: int|
            0 <= j < fs.len() && (first_folder_with_url(fs, url) < 0 || j < first_folder_with_url(fs, url)) ==> first_with_url(
                #[trigger] fs[j].feeds,
                url,
            ) < 0,
    decreases fs.len(),
{
    if fs.len() > 0 && first_with_url(fs[0].feeds, url) < 0 {
        lemma_first_folder_with_url(fs.drop_first(), url);
        assert forall|j: int|
            0 < j < fs.len() && (first_folder_with_url(fs, url) < 0 || j < first_folder_with_url(fs, url)) implies first_with_url(
            #[trigger] fs[j].feeds,
            url,
        ) < 0 by {
            assert(fs[j] == fs.drop_first()[j - 1]);
        }
    }
}

/// Where a feed was found: the tree with it taken out, the feed, and the
/// folder it was in (none for the top level).
pub open spec fn located(file: OpmlView, url: Seq<char>) -> Option<(OpmlView, FeedView, Option<Seq<char>>)> {
    let i = first_with_url(file.standalone_feeds, url);
    if i >= 0 {
        Some(
            (
                OpmlView { folders: file.folders, standalone_feeds: file.standalone_feeds.remove(i) },
                file.standalone_feeds[i],
                None,
            ),
        )
    } else {
        let j = first_folder_with_url(file.folders, url);
        if j >= 0 {
            let fo = file.folders[j];
            let k = first_with_url(fo.feeds, url);
            Some(
                (
                    OpmlView {
                        folders: file.folders.update(j, FolderView { name: fo.name, feeds: fo.feeds.remove(k) }),
                        standalone_feeds: file.standalone_feeds,
                    },
                    fo.feeds[k],
                    Some(fo.name),
                ),
            )
        } else {
            None
        }
    }
}

/// `file` with `feed` appended to the first folder named `name` (nothing
/// when there is none).
pub open spec fn appended_to_folder(file: OpmlView, name: Seq<char>, feed: FeedView) -> OpmlView {
    let fi = first_folder(file.folders, name);
    if fi >= 0 {
        OpmlView {
            folders: file.folders.update(fi, FolderView { name: file.folders[fi].name, feeds: file.folders[fi].feeds.push(feed) }),
            standalone_feeds: file.standalone_feeds,
        }
    } else {
        file
    }
}

/// The move of the feed of URL `url` to the folder `target` (created at
/// the end when missing) or to the top level: the first feed of that URL
/// (top level first, then folder by folder) is the one moved, every copy
/// of the URL is swept from the tree first, and the feed is put at the end
/// of its destination, so it ends up there alone. A move to where the
/// first copy already is reports no change.
pub open spec fn moved(file: OpmlView, url: Seq<char>, target: Option<Seq<char>>) -> (OpmlView, bool) {
    match located(file, url) {
        None => (file, false),
        Some(l) => {
            let f1 = removed(file, url);
            let feed = l.1;
            let same = match (target, l.2) {
                (None, None) => true,
                (Some(t), Some(src)) => t == src,
                _ => false,
            };
            match target {
                None => (OpmlView { folders: f1.folders, standalone_feeds: f1.standalone_feeds.push(feed) }, !same),
                Some(t) => if same || first_folder(f1.folders, t) >= 0 {
                    (appended_to_folder(f1, t, feed), !same)
                } else {
                    (
                        OpmlView {
                            folders: f1.folders.push(FolderView { name: t, feeds: seq![feed] }),
                            standalone_feeds: f1.standalone_feeds,
                        },
                        true,
                    )
                },
            }
        },
    }
}

fn folder_with_url_position(folders: &Vec<Folder>, url: &str) -> (r: Option<(usize, usize)>)
    ensures
        match r {
            Some((j, k)) => j as int == first_folder_with_url(folders_view(folders@), url@) && j < folders@.len() && k as int
                == first_with_url(folders_view(folders@)[j as int].feeds, url@),
            None => first_folder_with_url(folders_view(folders@), url@) < 0,
        },
{
    let ghost v = folders_view(folders@);
    proof {
        lemma_first_folder_with_url(v, url@);
    }
    let mut j: usize = 0;
    while j < folders.len()
        invariant
            j <= folders@.len(),
            v == folders_view(folders@),
            forall|q: int| 0 <= q < j ==> first_with_url(#[trigger] v[q].feeds, url@) < 0,
        decreases folders@.len() - j,
    {
        assert(v[j as int] == folders@[j as int]@);
        match url_position(&folders[j].feeds, url) {
            Some(k) => {
                proof {
                    lemma_first_folder_with_url(v, url@);
                    let f = first_folder_with_url(v, url@);
                    if f < 0 || f > j {
                        assert(first_with_url(v[j as int].feeds, url@) < 0);
                    } else if f < j {
                        assert(first_with_url(v[f].feeds, url@) < 0);
                    }
                }
                return Some((j, k));
            },
            None => {},
        }
        j += 1;
    }
    proof {
        lemma_first_folder_with_url(v, url@);
        let f = first_folder_with_url(v, url@);
        if f >= 0 {
            assert(first_with_url(v[f].feeds, url@) < 0);
        }
    }
    None
}

fn push_into_folder_at(folders: &mut Vec<Folder>, t: usize, feed: Feed)
    requires
        t < old(folders)@.len(),
    ensures
        folders_view(final(folders)@) == folders_view(old(folders)@).update(
            t as int,
            FolderView {
                name: folders_view(old(folders)@)[t as int].name,
                feeds: folders_view(old(folders)@)[t as int].feeds.push(feed@),
            },
        ),
{
    let ghost f0 = folders@;
    let mut fo = folders.remove(t);
    let ghost fe0 = fo.feeds@;
    fo.feeds.push(feed);
    assert(feeds_view(fo.feeds@) =~= feeds_view(fe0).push(fo.feeds@.last()@));
    folders.insert(t, fo);
    assert(folders_view(folders@) =~= folders_view(f0).update(t as int, folders@[t as int]@));
}

impl OpmlFile {
    /// Moves the feed of URL `feed_url` to the folder `target_folder`
    /// (created when missing) or, for `None`, to the top level. Returns
    /// whether the move changed anything; a feed that is not found, or is
    /// already where it should go, reports `false`.
    pub fn move_feed_to_folder(&mut self, feed_url: &str, target_folder: Option<String>) -> (r: bool)
        ensures
            (final(self)@, r) == moved(old(self)@, feed_url@, opt_view(target_folder)),
    {
        let ghost before = self@;
        let mut current: Option<Feed> = None;
        let mut current_folder: Option<String> = None;
        match url_position(&self.standalone_feeds, feed_url) {
            Some(idx) => {
                proof {
                    lemma_first_with_url(before.standalone_feeds, feed_url@);
                }
                current = Some(self.standalone_feeds[idx].duplicate());
            },
            None => match folder_with_url_position(&self.folders, feed_url) {
                Some((j, k)) => {
                    proof {
                        lemma_first_with_url(before.folders[j as int].feeds, feed_url@);
                        lemma_first_folder_with_url(before.folders, feed_url@);
                        assert(before.folders[j as int] == self.folders@[j as int]@);
                        assert(before.folders[j as int].feeds[k as int] == self.folders@[j as int].feeds@[k as int]@);
                    }
                    current = Some(self.folders[j].feeds[k].duplicate());
                    current_folder = Some(self.folders[j].name.clone());
                },
                None => {},
            },
        }
        let feed = match current {
            Some(f) => f,
            None => {
                return false;
            },
        };
        let ghost loc = located(before, feed_url@);
        assert(loc is Some);
        let ghost l = loc->0;
        assert(feed@ == l.1 && opt_view(current_folder) == l.2);
        self.remove_feed(feed_url);
        assert(self@ == removed(before, feed_url@));
        let same = match (&target_folder, &current_folder) {
            (None, None) => true,
            (Some(t), Some(c)) => *t == *c,
            _ => false,
        };
        match target_folder {
            None => {
                let ghost s0 = self.standalone_feeds@;
                self.standalone_feeds.push(feed);
                assert(feeds_view(self.standalone_feeds@) =~= feeds_view(s0).push(self.standalone_feeds@.last()@));
                !same
            },
            Some(t) => match folder_position(&self.folders, t.as_str()) {
                Some(fi) => {
                    proof {
                        lemma_first_folder(self@.folders, t@);
                    }
                    push_into_folder_at(&mut self.folders, fi, feed);
                    !same
                },
                None => {
                    if same {
                        proof {
                            lemma_first_folder(self@.folders, t@);
                        }
                        false
                    } else {
                        let ghost f0 = self.folders@;
                        self.folders.push(Folder { name: t, feeds: vec![feed] });
                        assert(feeds_view(self.folders@.last().feeds@) =~= seq![self.folders@.last().feeds@[0]@]);
                        assert(folders_view(self.folders@) =~= folders_view(f0).push(self.folders@.last()@));
                        true
                    }
                },
            },
        }
    }
}


/// Removing a feed leaves no feed of that URL anywhere in the tree.
pub proof fn lemma_remove_feed_leaves_no_copy(file: OpmlView, url: Seq<char>)
    ensures
        !file_has_url(removed(file, url), url),
        removed(file, url).folders.len() == file.folders.len(),
{
    lemma_without_url(file.standalone_feeds, url);
    let r = removed(file, url);
    assert forall|j: int| 0 <= j < r.folders.len() implies !has_url(#[trigger] r.folders[j].feeds, url) by {
        lemma_without_url(file.folders[j].feeds, url);
    }
}

/// After `add_feed` the tree holds a feed with the added URL, in the
/// requested folder or at the top level, and that is the feed reported.
pub proof fn lemma_add_feed_present(file: OpmlView, f: FeedView, folder: Option<Seq<char>>)
    ensures
        added(file, f, folder).1.url == f.url,
        match folder {
            Some(name) => exists|j: int|
                0 <= j < added(file, f, folder).0.folders.len() && #[trigger] added(file, f, folder).0.folders[j].name == name
                    && added(file, f, folder).0.folders[j].feeds.contains(added(file, f, folder).1),
            None => added(file, f, folder).0.standalone_feeds.contains(added(file, f, folder).1),
        },
{
    let r = added(file, f, folder);
    match folder {
        Some(name) => {
            let fi = first_folder(file.folders, name);
            lemma_first_folder(file.folders, name);
            if fi >= 0 {
                let fo = file.folders[fi];
                let j = first_with_url(fo.feeds, f.url);
                lemma_first_with_url(fo.feeds, f.url);
                if j >= 0 {
                    assert(r.0.folders[fi].feeds[j] == r.1);
                } else {
                    assert(r.0.folders[fi].feeds.last() == r.1);
                    assert(r.0.folders[fi].feeds[r.0.folders[fi].feeds.len() - 1] == r.1);
                }
                assert(r.0.folders[fi].name == name);
            } else {
                let last = r.0.folders.len() - 1;
                assert(r.0.folders[last].feeds[0] == r.1);
                assert(r.0.folders[last].name == name);
            }
        },
        None => {
            let j = first_with_url(file.standalone_feeds, f.url);
            lemma_first_with_url(file.standalone_feeds, f.url);
            if j >= 0 {
                assert(r.0.standalone_feeds[j] == r.1);
            } else {
                assert(r.0.standalone_feeds[r.0.standalone_feeds.len() - 1] == r.1);
            }
        },
    }
}

/// After a rename every feed of that URL carries the new display name and
/// every other feed is unchanged.
pub proof fn lemma_rename_sets_every_copy(file: OpmlView, url: Seq<char>, edited: Option<Seq<char>>)
    ensures
        forall|k: int|
            0 <= k < file.standalone_feeds.len() ==> #[trigger] renamed(file, url, edited).standalone_feeds[k] == (if file.standalone_feeds[k].url
                == url {
                FeedView { edited_name: edited, ..file.standalone_feeds[k] }
            } else {
                file.standalone_feeds[k]
            }),
        forall|j: int, k: int|
            0 <= j < file.folders.len() && 0 <= k < file.folders[j].feeds.len() ==> #[trigger] renamed(file, url, edited).folders[j].feeds[k]
                == (if file.folders[j].feeds[k].url == url {
                FeedView { edited_name: edited, ..file.folders[j].feeds[k] }
            } else {
                file.folders[j].feeds[k]
            }),
{
}

/// A move puts the feed it finds where it was asked to go, and only there:
/// at the end of the top level, or at the end of the first folder of the
/// target name, with no other copy of its URL left anywhere in the tree.
pub proof fn lemma_move_places_feed(file: OpmlView, url: Seq<char>, target: Option<Seq<char>>)
    requires
        file_has_url(file, url),
    ensures
        match target {
            None => {
                let r = moved(file, url, target).0;
                &&& r.standalone_feeds.len() > 0 && r.standalone_feeds.last().url == url
                &&& !has_url(r.standalone_feeds.drop_last(), url)
                &&& forall|j: int| 0 <= j < r.folders.len() ==> !has_url(#[trigger] r.folders[j].feeds, url)
            },
            Some(t) => {
                let r = moved(file, url, target).0;
                &&& !has_url(r.standalone_feeds, url)
                &&& exists|i: int| {
                    &&& 0 <= i < r.folders.len()
                    &&& #[trigger] moved(file, url, target).0.folders[i].name == t
                    &&& r.folders[i].feeds.len() > 0 && r.folders[i].feeds.last().url == url
                    &&& !has_url(r.folders[i].feeds.drop_last(), url)
                    &&& forall|j: int| 0 <= j < r.folders.len() && j != i ==> !has_url(#[trigger] r.folders[j].feeds, url)
                }
            },
        },
{
    lemma_first_with_url(file.standalone_feeds, url);
    lemma_first_folder_with_url(file.folders, url);
    let i = first_with_url(file.standalone_feeds, url);
    if i < 0 {
        let k = choose|k: int| 0 <= k < file.standalone_feeds.len() && #[trigger] file.standalone_feeds[k].url == url;
        if has_url(file.standalone_feeds, url) {
            assert(file.standalone_feeds[k].url != url);
        }
        let j = choose|j: int| 0 <= j < file.folders.len() && has_url(#[trigger] file.folders[j].feeds, url);
        let q = choose|q: int| 0 <= q < file.folders[j].feeds.len() && #[trigger] file.folders[j].feeds[q].url == url;
        lemma_first_with_url(file.folders[j].feeds, url);
        let jj = first_folder_with_url(file.folders, url);
        if jj < 0 {
            assert(first_with_url(file.folders[j].feeds, url) < 0);
            assert(file.folders[j].feeds[q].url != url);
        }
        lemma_first_with_url(file.folders[jj].feeds, url);
    }
    let l = located(file, url)->0;
    assert(l.1.url == url);
    let f1 = removed(file, url);
    lemma_remove_feed_leaves_no_copy(file, url);
    assert forall|j: int| 0 <= j < f1.folders.len() implies !has_url(#[trigger] f1.folders[j].feeds, url) by {
        if has_url(f1.folders[j].feeds, url) {
            assert(file_has_url(f1, url));
        }
    }
    if has_url(f1.standalone_feeds, url) {
        assert(file_has_url(f1, url));
    }
    match target {
        None => {
            let r = moved(file, url, target).0;
            assert(r.standalone_feeds.drop_last() =~= f1.standalone_feeds);
            assert(r.folders == f1.folders);
        },
        Some(t) => {
            let fi = first_folder(f1.folders, t);
            lemma_first_folder(f1.folders, t);
            let same = match l.2 {
                Some(src) => t == src,
                None => false,
            };
            let r = moved(file, url, target).0;
            if same || fi >= 0 {
                if fi < 0 {
                    let src_j = first_folder_with_url(file.folders, url);
                    assert(f1.folders[src_j].name == file.folders[src_j].name);
                    assert(f1.folders[src_j].name == t);
                }
                assert(r.folders[fi].name == t);
                assert(r.folders[fi].feeds.drop_last() =~= f1.folders[fi].feeds);
                assert forall|j: int| 0 <= j < r.folders.len() && j != fi implies !has_url(#[trigger] r.folders[j].feeds, url) by {
                    assert(r.folders[j] == f1.folders[j]);
                }
                assert(r.standalone_feeds == f1.standalone_feeds);
            } else {
                let last = r.folders.len() - 1;
                assert(r.folders[last].name == t);
                assert(r.folders[last].feeds.drop_last() =~= Seq::<FeedView>::empty());
                assert forall|j: int| 0 <= j < r.folders.len() && j != last implies !has_url(#[trigger] r.folders[j].feeds, url) by {
                    assert(r.folders[j] == f1.folders[j]);
                }
                assert(!has_url(r.folders[last].feeds.drop_last(), url));
            }
        },
    }
}

} // verus!
