//! The subscription tree: OPML outlines, the folder/feed model, import
//! normalization, merging, Inoreader reconciliation and export.
use vstd::prelude::*;
use crate::database::opml_export::export_name;
pub use crate::database::opml_export::{
    escape_xml, feed_opml_string, feed_sort_key, folder_opml_string, is_legal_xml_character, opml_document_for_save,
    serialize_account_opml, xml_safe,
};
pub use crate::database::opml_merge::merge_opml;
pub use crate::database::opml_sync::sync_inoreader_account;
use crate::models::{
    duplicate_feeds, duplicate_folders, feeds_view, folders_view, non_empty, non_empty_clone, opt_clone, opt_or,
    opt_view, Feed, FeedView, Folder, FolderView,
};

verus! {

/// One `<outline>` element of an OPML document.
#[derive(Debug, PartialEq)]
pub struct Outline {
    pub text: Option<String>,
    pub title: Option<String>,
    pub type_: Option<String>,
    pub xml_url: Option<String>,
    pub html_url: Option<String>,
    pub outlines: Vec<Outline>,
}

/// The `<head>` of an OPML document.
#[derive(Debug, PartialEq)]
pub struct Head {
    pub title: Option<String>,
}

/// The `<body>` of an OPML document: its top-level outlines.
#[derive(Debug, PartialEq)]
pub struct Body {
    pub outlines: Vec<Outline>,
}

/// A parsed OPML document, as the XML reader hands it over.
#[derive(Debug, PartialEq)]
pub struct OpmlDocument {
    pub version: String,
    pub head: Head,
    pub body: Body,
}

/// The subscription list: folders (one level deep) and top-level feeds.
#[derive(Debug)]
pub struct OpmlFile {
    pub folders: Vec<Folder>,
    pub standalone_feeds: Vec<Feed>,
}

pub struct OpmlView {
    pub folders: Seq<FolderView>,
    pub standalone_feeds: Seq<FeedView>,
}

impl View for OpmlFile {
    type V = OpmlView;

    open spec fn view(&self) -> OpmlView {
        OpmlView { folders: folders_view(self.folders@), standalone_feeds: feeds_view(self.standalone_feeds@) }
    }
}

pub open spec fn lit_rss() -> Seq<char> {
    seq!['r', 's', 's']
}

/// An outline is a feed when it has a non-empty `xmlUrl` or `type="rss"`.
pub open spec fn outline_is_feed(o: Outline) -> bool {
    non_empty(opt_view(o.xml_url)) is Some || opt_view(o.type_) == Some(lit_rss())
}

/// The feed an outline describes: present only with a non-empty `xmlUrl`,
/// which also serves as its id; the name is `title`, else `text`.
pub open spec fn outline_feed(o: Outline) -> Option<FeedView> {
    match non_empty(opt_view(o.xml_url)) {
        None => None,
        Some(u) => Some(
            FeedView {
                id: u,
                url: u,
                name: opt_or(opt_view(o.title), opt_view(o.text)),
                edited_name: None,
                home_page_url: non_empty(opt_view(o.html_url)),
            },
        ),
    }
}

/// State of a normalizing walk: folders and top-level feeds built so far,
/// and the top-level feed URLs already taken.
pub struct WalkState {
    pub folders: Seq<FolderView>,
    pub standalone: Seq<FeedView>,
    pub seen: Seq<Seq<char>>,
}

/// Feeds of a named folder, every nested level flattened into one list,
/// deduplicated by URL (first occurrence wins).
pub open spec fn flatten_named(s: Seq<Outline>, feeds: Seq<FeedView>, seen: Seq<Seq<char>>) -> (Seq<FeedView>, Seq<Seq<char>>)
    decreases s,
{
    if s.len() == 0 {
        (feeds, seen)
    } else {
        let o = s[0];
        let r = if outline_is_feed(o) {
            match outline_feed(o) {
                None => (feeds, seen),
                Some(f) => if seen.contains(f.url) { (feeds, seen) } else { (feeds.push(f), seen.push(f.url)) },
            }
        } else {
            flatten_named(o.outlines@, feeds, seen)
        };
        flatten_named(s.drop_first(), r.0, r.1)
    }
}

/// The top level of a normalizing walk: feeds are deduplicated by URL; a
/// folder without a `title` is a transparent wrapper whose children move
/// up; a named folder becomes one folder holding all its descendant feeds.
pub open spec fn walk_top(s: Seq<Outline>, st: WalkState) -> WalkState
    decreases s,
{
    if s.len() == 0 {
        st
    } else {
        let o = s[0];
        let st1 = if outline_is_feed(o) {
            match outline_feed(o) {
                None => st,
                Some(f) => if st.seen.contains(f.url) {
                    st
                } else {
                    WalkState { folders: st.folders, standalone: st.standalone.push(f), seen: st.seen.push(f.url) }
                },
            }
        } else if o.title is None {
            walk_top(o.outlines@, st)
        } else {
            let fl = flatten_named(o.outlines@, seq![], seq![]);
            WalkState {
                folders: st.folders.push(FolderView { name: o.title->0@, feeds: fl.0 }),
                standalone: st.standalone,
                seen: st.seen,
            }
        };
        walk_top(s.drop_first(), st1)
    }
}

pub open spec fn strs_view(v: Seq<String>) -> Seq<Seq<char>> {
    v.map_values(|s: String| s@)
}

/// `true` when some string of `v` equals `s`.
pub fn contains_string(v: &Vec<String>, s: &String) -> (b: bool)
    ensures
        b == strs_view(v@).contains(s@),
{
    let mut i: usize = 0;
    while i < v.len()
        invariant
            i <= v@.len(),
            forall|k: int| 0 <= k < i ==> v@[k]@ != s@,
        decreases v@.len() - i,
    {
        if v[i] == *s {
            assert(strs_view(v@)[i as int] == s@);
            return true;
        }
        i += 1;
    }
    assert forall|k: int| 0 <= k < strs_view(v@).len() implies strs_view(v@)[k] != s@ by {
        assert(strs_view(v@)[k] == v@[k]@);
    }
    false
}

fn is_rss(o: &Option<String>) -> (b: bool)
    ensures
        b == (opt_view(*o) == Some(lit_rss())),
{
    match o {
        None => false,
        Some(t) => {
            let rss: [char; 3] = ['r', 's', 's'];
            assert(rss@ == lit_rss());
            let tv = crate::chars::chars_of(t.as_str());
            assert(tv@.subrange(0, tv@.len() as int) =~= tv@);
            crate::chars::range_eq(&tv, 0, tv.len(), &rss)
        },
    }
}

/// An outline is a feed when it has a non-empty `xmlUrl` or `type="rss"`.
pub fn is_feed(outline: &Outline) -> (b: bool)
    ensures
        b == outline_is_feed(*outline),
{
    let has_xml = match &outline.xml_url {
        Some(s) => !s.as_str().is_empty(),
        None => false,
    };
    has_xml || is_rss(&outline.type_)
}

/// The feed an outline describes, if it has a non-empty `xmlUrl`.
pub fn parse_feed(outline: &Outline) -> (r: Option<Feed>)
    ensures
        match r {
            Some(f) => outline_feed(*outline) == Some(f@),
            None => outline_feed(*outline) is None,
        },
{
    let url = non_empty_clone(&outline.xml_url);
    match url {
        None => None,
        Some(u) => {
            let name = match &outline.title {
                Some(t) => Some(t.clone()),
                None => opt_clone(&outline.text),
            };
            Some(Feed {
                id: u.clone(),
                url: u,
                name,
                edited_name: None,
                home_page_url: non_empty_clone(&outline.html_url),
            })
        },
    }
}

/// Flattens the feeds below a named folder into `feeds`, skipping URLs in
/// `seen`.
pub fn flatten_named_folder(outlines: &Vec<Outline>, feeds: &mut Vec<Feed>, seen: &mut Vec<String>)
    ensures
        (feeds_view(final(feeds)@), strs_view(final(seen)@)) == flatten_named(outlines@, feeds_view(old(feeds)@), strs_view(old(seen)@)),
    decreases outlines@,
{
    let ghost target = flatten_named(outlines@, feeds_view(feeds@), strs_view(seen@));
    assert(outlines@.skip(0) =~= outlines@);
    let mut i: usize = 0;
    while i < outlines.len()
        invariant
            i <= outlines@.len(),
            target == flatten_named(outlines@.skip(i as int), feeds_view(feeds@), strs_view(seen@)),
        decreases outlines@.len() - i,
    {
        let outline = &outlines[i];
        assert(outlines@.skip(i as int)[0] == outlines@[i as int]);
        assert(outlines@.skip(i as int).drop_first() =~= outlines@.skip(i + 1));
        if is_feed(outline) {
            match parse_feed(outline) {
                None => {},
                Some(feed) => {
                    if !contains_string(seen, &feed.url) {
                        let ghost old_feeds = feeds@;
                        let ghost old_seen = seen@;
                        seen.push(feed.url.clone());
                        feeds.push(feed);
                        assert(feeds_view(feeds@) =~= feeds_view(old_feeds).push(feeds@.last()@));
                        assert(strs_view(seen@) =~= strs_view(old_seen).push(seen@.last()@));
                    }
                },
            }
        } else {
            assert(decreases_to!(outlines@ => outlines@[i as int]));
            flatten_named_folder(&outline.outlines, feeds, seen);
        }
        i += 1;
    }
    assert(outlines@.skip(i as int) =~= Seq::<Outline>::empty());
}

pub open spec fn walk_state(folders: Seq<Folder>, standalone: Seq<Feed>, seen: Seq<String>) -> WalkState {
    WalkState { folders: folders_view(folders), standalone: feeds_view(standalone), seen: strs_view(seen) }
}

/// The top-level normalizing walk over `outlines`.
pub fn walk_top_level(outlines: &Vec<Outline>, folders: &mut Vec<Folder>, standalone_feeds: &mut Vec<Feed>, top_seen: &mut Vec<String>)
    ensures
        walk_state(final(folders)@, final(standalone_feeds)@, final(top_seen)@)
            == walk_top(outlines@, walk_state(old(folders)@, old(standalone_feeds)@, old(top_seen)@)),
    decreases outlines@,
{
    let ghost target = walk_top(outlines@, walk_state(folders@, standalone_feeds@, top_seen@));
    assert(outlines@.skip(0) =~= outlines@);
    let mut i: usize = 0;
    while i < outlines.len()
        invariant
            i <= outlines@.len(),
            target == walk_top(outlines@.skip(i as int), walk_state(folders@, standalone_feeds@, top_seen@)),
        decreases outlines@.len() - i,
    {
        let outline = &outlines[i];
        assert(outlines@.skip(i as int)[0] == outlines@[i as int]);
        assert(outlines@.skip(i as int).drop_first() =~= outlines@.skip(i + 1));
        if is_feed(outline) {
            match parse_feed(outline) {
                None => {},
                Some(feed) => {
                    if !contains_string(top_seen, &feed.url) {
                        let ghost old_feeds = standalone_feeds@;
                        let ghost old_seen = top_seen@;
                        top_seen.push(feed.url.clone());
                        standalone_feeds.push(feed);
                        assert(feeds_view(standalone_feeds@) =~= feeds_view(old_feeds).push(standalone_feeds@.last()@));
                        assert(strs_view(top_seen@) =~= strs_view(old_seen).push(top_seen@.last()@));
                    }
                },
            }
        } else {
            match &outline.title {
                None => {
                    assert(decreases_to!(outlines@ => outlines@[i as int]));
                    walk_top_level(&outline.outlines, folders, standalone_feeds, top_seen);
                },
                Some(name) => {
                    let mut feeds: Vec<Feed> = Vec::new();
                    let mut folder_seen: Vec<String> = Vec::new();
                    assert(feeds_view(feeds@) =~= Seq::<FeedView>::empty());
                    assert(strs_view(folder_seen@) =~= Seq::<Seq<char>>::empty());
                    flatten_named_folder(&outline.outlines, &mut feeds, &mut folder_seen);
                    let ghost old_folders = folders@;
                    folders.push(Folder { name: name.clone(), feeds });
                    assert(folders_view(folders@) =~= folders_view(old_folders).push(folders@.last()@));
                },
            }
        }
        i += 1;
    }
    assert(outlines@.skip(i as int) =~= Seq::<Outline>::empty());
}


// ---- flattening a parsed document ----

/// Every feed below `s`, depth first, nested folders flattened, appended to
/// `feeds` (no deduplication).
pub open spec fn flatten_all(s: Seq<Outline>, feeds: Seq<FeedView>) -> Seq<FeedView>
    decreases s,
{
    if s.len() == 0 {
        feeds
    } else {
        let o = s[0];
        let next = if outline_is_feed(o) {
            match outline_feed(o) {
                None => feeds,
                Some(f) => feeds.push(f),
            }
        } else {
            flatten_all(o.outlines@, feeds)
        };
        flatten_all(s.drop_first(), next)
    }
}

/// Appends every feed below `outlines` to `feeds`, nested folders flattened.
pub fn flatten_feeds(outlines: &Vec<Outline>, feeds: &mut Vec<Feed>)
    ensures
        feeds_view(final(feeds)@) == flatten_all(outlines@, feeds_view(old(feeds)@)),
    decreases outlines@,
{
    let ghost target = flatten_all(outlines@, feeds_view(feeds@));
    assert(outlines@.skip(0) =~= outlines@);
    let mut i: usize = 0;
    while i < outlines.len()
        invariant
            i <= outlines@.len(),
            target == flatten_all(outlines@.skip(i as int), feeds_view(feeds@)),
        decreases outlines@.len() - i,
    {
        let outline = &outlines[i];
        assert(outlines@.skip(i as int)[0] == outlines@[i as int]);
        assert(outlines@.skip(i as int).drop_first() =~= outlines@.skip(i + 1));
        if is_feed(outline) {
            match parse_feed(outline) {
                None => {},
                Some(feed) => {
                    let ghost old_feeds = feeds@;
                    feeds.push(feed);
                    assert(feeds_view(feeds@) =~= feeds_view(old_feeds).push(feeds@.last()@));
                },
            }
        } else {
            assert(decreases_to!(outlines@ => outlines@[i as int]));
            flatten_feeds(&outline.outlines, feeds);
        }
        i += 1;
    }
    assert(outlines@.skip(i as int) =~= Seq::<Outline>::empty());
}

pub open spec fn lit_unnamed_folder() -> Seq<char> {
    "Unnamed Folder"@
}

/// The subscription list read from the top-level outlines `s`: feeds at the
/// top level stay there; any other outline is a folder named by its
/// `title`, else `text`, else "Unnamed Folder", holding every feed below it.
pub open spec fn document_file(s: Seq<Outline>, acc: OpmlView) -> OpmlView
    decreases s.len(),
{
    if s.len() == 0 {
        acc
    } else {
        let o = s[0];
        let next = if outline_is_feed(o) {
            match outline_feed(o) {
                None => acc,
                Some(f) => OpmlView { folders: acc.folders, standalone_feeds: acc.standalone_feeds.push(f) },
            }
        } else {
            let name = match opt_or(opt_view(o.title), opt_view(o.text)) {
                Some(n) => n,
                None => lit_unnamed_folder(),
            };
            OpmlView {
                folders: acc.folders.push(FolderView { name, feeds: flatten_all(o.outlines@, Seq::empty()) }),
                standalone_feeds: acc.standalone_feeds,
            }
        };
        document_file(s.drop_first(), next)
    }
}

pub open spec fn empty_opml() -> OpmlView {
    OpmlView { folders: Seq::empty(), standalone_feeds: Seq::empty() }
}

/// The subscription list of a parsed OPML document.
pub fn opml_file_from_document(doc: &OpmlDocument) -> (file: OpmlFile)
    ensures
        file@ == document_file(doc.body.outlines@, empty_opml()),
{
    let outlines = &doc.body.outlines;
    let mut folders: Vec<Folder> = Vec::new();
    let mut standalone_feeds: Vec<Feed> = Vec::new();
    let ghost target = document_file(outlines@, empty_opml());
    assert(outlines@.skip(0) =~= outlines@);
    assert(folders_view(folders@) =~= Seq::<FolderView>::empty());
    assert(feeds_view(standalone_feeds@) =~= Seq::<FeedView>::empty());
    let mut i: usize = 0;
    while i < outlines.len()
        invariant
            i <= outlines@.len(),
            target == document_file(
                outlines@.skip(i as int),
                OpmlView { folders: folders_view(folders@), standalone_feeds: feeds_view(standalone_feeds@) },
            ),
        decreases outlines@.len() - i,
    {
        let outline = &outlines[i];
        assert(outlines@.skip(i as int)[0] == outlines@[i as int]);
        assert(outlines@.skip(i as int).drop_first() =~= outlines@.skip(i + 1));
        if is_feed(outline) {
            match parse_feed(outline) {
                None => {},
                Some(feed) => {
                    let ghost old_feeds = standalone_feeds@;
                    standalone_feeds.push(feed);
                    assert(feeds_view(standalone_feeds@) =~= feeds_view(old_feeds).push(standalone_feeds@.last()@));
                },
            }
        } else {
            let mut feeds: Vec<Feed> = Vec::new();
            assert(feeds_view(feeds@) =~= Seq::<FeedView>::empty());
            flatten_feeds(&outline.outlines, &mut feeds);
            let name = match &outline.title {
                Some(t) => t.clone(),
                None => match &outline.text {
                    Some(t) => t.clone(),
                    None => String::from_str("Unnamed Folder"),
                },
            };
            let ghost old_folders = folders@;
            folders.push(Folder { name, feeds });
            assert(folders_view(folders@) =~= folders_view(old_folders).push(folders@.last()@));
        }
        i += 1;
    }
    assert(outlines@.skip(i as int) =~= Seq::<Outline>::empty());
    OpmlFile { folders, standalone_feeds }
}

// ---- normalizing an imported file ----

/// `o` is the outline `feed_to_outline` makes of `f`.
pub open spec fn outline_of_feed(o: Outline, f: FeedView) -> bool {
    &&& opt_view(o.text) == Some(export_name(f))
    &&& opt_view(o.title) == Some(export_name(f))
    &&& opt_view(o.type_) == Some(lit_rss())
    &&& opt_view(o.xml_url) == Some(f.url)
    &&& opt_view(o.html_url) == f.home_page_url
    &&& o.outlines@.len() == 0
}

/// `o` is the outline `folder_to_outline` makes of `fo`.
pub open spec fn outline_of_folder(o: Outline, fo: FolderView) -> bool {
    &&& opt_view(o.text) == Some(fo.name)
    &&& opt_view(o.title) == Some(fo.name)
    &&& o.type_ is None
    &&& o.xml_url is None
    &&& o.html_url is None
    &&& o.outlines@.len() == fo.feeds.len()
    &&& forall|i: int| 0 <= i < fo.feeds.len() ==> #[trigger] outline_of_feed(o.outlines@[i], fo.feeds[i])
}

/// An outline standing for `feed`: its display name (`edited_name`, else
/// `name`, else empty) as text and title, `type="rss"`, its URL and home
/// page.
pub fn feed_to_outline(feed: &Feed) -> (o: Outline)
    ensures
        outline_of_feed(o, feed@),
{
    let display_name = match &feed.edited_name {
        Some(n) => n.clone(),
        None => match &feed.name {
            Some(n) => n.clone(),
            None => String::new(),
        },
    };
    let rss = String::from_str("rss");
    proof {
        reveal_strlit("rss");
        assert(rss@ =~= lit_rss());
    }
    Outline {
        text: Some(display_name.clone()),
        title: Some(display_name),
        type_: Some(rss),
        xml_url: Some(feed.url.clone()),
        html_url: opt_clone(&feed.home_page_url),
        outlines: Vec::new(),
    }
}

/// An outline standing for `folder`: its name as text and title, one child
/// outline per feed.
pub fn folder_to_outline(folder: &Folder) -> (o: Outline)
    ensures
        outline_of_folder(o, folder@),
{
    let mut children: Vec<Outline> = Vec::new();
    let mut i: usize = 0;
    while i < folder.feeds.len()
        invariant
            i <= folder.feeds@.len(),
            children@.len() == i,
            forall|k: int| 0 <= k < i ==> #[trigger] outline_of_feed(children@[k], folder.feeds@[k]@),
        decreases folder.feeds@.len() - i,
    {
        children.push(feed_to_outline(&folder.feeds[i]));
        i += 1;
    }
    Outline {
        text: Some(folder.name.clone()),
        title: Some(folder.name.clone()),
        type_: None,
        xml_url: None,
        html_url: None,
        outlines: children,
    }
}

/// The outlines standing for `file`: its top-level feeds, then its folders.
pub fn opml_file_to_outlines(file: &OpmlFile) -> (out: Vec<Outline>)
    ensures
        out@.len() == file.standalone_feeds@.len() + file.folders@.len(),
        forall|i: int| 0 <= i < file.standalone_feeds@.len() ==> #[trigger] outline_of_feed(out@[i], file.standalone_feeds@[i]@),
        forall|i: int| 0 <= i < file.folders@.len() ==> #[trigger] outline_of_folder(out@[file.standalone_feeds@.len() + i], file.folders@[i]@),
{
    let mut out: Vec<Outline> = Vec::new();
    let mut i: usize = 0;
    while i < file.standalone_feeds.len()
        invariant
            i <= file.standalone_feeds@.len(),
            out@.len() == i,
            forall|k: int| 0 <= k < i ==> #[trigger] outline_of_feed(out@[k], file.standalone_feeds@[k]@),
        decreases file.standalone_feeds@.len() - i,
    {
        out.push(feed_to_outline(&file.standalone_feeds[i]));
        i += 1;
    }
    let n = file.standalone_feeds.len();
    let mut j: usize = 0;
    while j < file.folders.len()
        invariant
            n == file.standalone_feeds@.len(),
            j <= file.folders@.len(),
            out@.len() == n + j,
            forall|k: int| 0 <= k < n ==> #[trigger] outline_of_feed(out@[k], file.standalone_feeds@[k]@),
            forall|k: int| 0 <= k < j ==> #[trigger] outline_of_folder(out@[n + k], file.folders@[k]@),
        decreases file.folders@.len() - j,
    {
        out.push(folder_to_outline(&file.folders[j]));
        j += 1;
    }
    out
}


/// What normalizing makes of one feed: nothing without a URL; otherwise a
/// feed keyed by its URL, named by its display name, with an empty home
/// page dropped.
pub open spec fn renormalized_feed(f: FeedView) -> Option<FeedView> {
    if f.url.len() == 0 {
        None
    } else {
        Some(
            FeedView {
                id: f.url,
                url: f.url,
                name: Some(export_name(f)),
                edited_name: None,
                home_page_url: non_empty(f.home_page_url),
            },
        )
    }
}

/// `s` renormalized and deduplicated by URL (first occurrence wins),
/// appended to `feeds`; `seen` holds the URLs already taken.
pub open spec fn dedup_renormalized(s: Seq<FeedView>, feeds: Seq<FeedView>, seen: Seq<Seq<char>>) -> (
    Seq<FeedView>,
    Seq<Seq<char>>,
)
    decreases s.len(),
{
    if s.len() == 0 {
        (feeds, seen)
    } else {
        let r = match renormalized_feed(s[0]) {
            None => (feeds, seen),
            Some(f) => if seen.contains(f.url) {
                (feeds, seen)
            } else {
                (feeds.push(f), seen.push(f.url))
            },
        };
        dedup_renormalized(s.drop_first(), r.0, r.1)
    }
}

pub open spec fn normalized_folder(fo: FolderView) -> FolderView {
    FolderView { name: fo.name, feeds: dedup_renormalized(fo.feeds, Seq::empty(), Seq::empty()).0 }
}

pub open spec fn normalized_folders(fos: Seq<FolderView>) -> Seq<FolderView> {
    fos.map_values(|fo: FolderView| normalized_folder(fo))
}

/// The normalized form of a subscription list: top-level feeds and each
/// folder's feeds renormalized and deduplicated by URL within their parent.
pub open spec fn normalized(file: OpmlView) -> OpmlView {
    OpmlView {
        folders: normalized_folders(file.folders),
        standalone_feeds: dedup_renormalized(file.standalone_feeds, Seq::empty(), Seq::empty()).0,
    }
}

proof fn lemma_flatten_feed_outlines(outs: Seq<Outline>, fs: Seq<FeedView>, feeds: Seq<FeedView>, seen: Seq<Seq<char>>)
    requires
        outs.len() == fs.len(),
        forall|i: int| 0 <= i < fs.len() ==> #[trigger] outline_of_feed(outs[i], fs[i]),
    ensures
        flatten_named(outs, feeds, seen) == dedup_renormalized(fs, feeds, seen),
    decreases outs.len(),
{
    if outs.len() > 0 {
        assert(outline_of_feed(outs[0], fs[0]));
        let r = match renormalized_feed(fs[0]) {
            None => (feeds, seen),
            Some(f) => if seen.contains(f.url) {
                (feeds, seen)
            } else {
                (feeds.push(f), seen.push(f.url))
            },
        };
        assert forall|i: int| 0 <= i < fs.drop_first().len() implies #[trigger] outline_of_feed(
            outs.drop_first()[i],
            fs.drop_first()[i],
        ) by {
            assert(outline_of_feed(outs[i + 1], fs[i + 1]));
        }
        lemma_flatten_feed_outlines(outs.drop_first(), fs.drop_first(), r.0, r.1);
    }
}

proof fn lemma_walk_concat(a: Seq<Outline>, b: Seq<Outline>, st: WalkState)
    ensures
        walk_top(a + b, st) == walk_top(b, walk_top(a, st)),
    decreases a.len(),
{
    if a.len() == 0 {
        assert(a + b =~= b);
    } else {
        assert((a + b)[0] == a[0]);
        assert((a + b).drop_first() =~= a.drop_first() + b);
        let o = a[0];
        let st1 = if outline_is_feed(o) {
            match outline_feed(o) {
                None => st,
                Some(f) => if st.seen.contains(f.url) {
                    st
                } else {
                    WalkState { folders: st.folders, standalone: st.standalone.push(f), seen: st.seen.push(f.url) }
                },
            }
        } else if o.title is None {
            walk_top(o.outlines@, st)
        } else {
            let fl = flatten_named(o.outlines@, seq![], seq![]);
            WalkState {
                folders: st.folders.push(FolderView { name: o.title->0@, feeds: fl.0 }),
                standalone: st.standalone,
                seen: st.seen,
            }
        };
        lemma_walk_concat(a.drop_first(), b, st1);
    }
}

proof fn lemma_walk_feed_outlines(outs: Seq<Outline>, fs: Seq<FeedView>, st: WalkState)
    requires
        outs.len() == fs.len(),
        forall|i: int| 0 <= i < fs.len() ==> #[trigger] outline_of_feed(outs[i], fs[i]),
    ensures
        walk_top(outs, st) == ({
            let r = dedup_renormalized(fs, st.standalone, st.seen);
            WalkState { folders: st.folders, standalone: r.0, seen: r.1 }
        }),
    decreases outs.len(),
{
    if outs.len() > 0 {
        assert(outline_of_feed(outs[0], fs[0]));
        let st1 = match renormalized_feed(fs[0]) {
            None => st,
            Some(f) => if st.seen.contains(f.url) {
                st
            } else {
                WalkState { folders: st.folders, standalone: st.standalone.push(f), seen: st.seen.push(f.url) }
            },
        };
        assert forall|i: int| 0 <= i < fs.drop_first().len() implies #[trigger] outline_of_feed(
            outs.drop_first()[i],
            fs.drop_first()[i],
        ) by {
            assert(outline_of_feed(outs[i + 1], fs[i + 1]));
        }
        lemma_walk_feed_outlines(outs.drop_first(), fs.drop_first(), st1);
    }
}

proof fn lemma_walk_folder_outlines(outs: Seq<Outline>, fos: Seq<FolderView>, st: WalkState)
    requires
        outs.len() == fos.len(),
        forall|i: int| 0 <= i < fos.len() ==> #[trigger] outline_of_folder(outs[i], fos[i]),
    ensures
        walk_top(outs, st) == (WalkState {
            folders: st.folders + normalized_folders(fos),
            standalone: st.standalone,
            seen: st.seen,
        }),
    decreases outs.len(),
{
    if outs.len() == 0 {
        assert(st.folders + normalized_folders(fos) =~= st.folders);
    } else {
        let o = outs[0];
        assert(outline_of_folder(o, fos[0]));
        assert(non_empty(opt_view(o.xml_url)) is None);
        lemma_flatten_feed_outlines(o.outlines@, fos[0].feeds, seq![], seq![]);
        assert(o.title->0@ == fos[0].name);
        let st1 = WalkState {
            folders: st.folders.push(normalized_folder(fos[0])),
            standalone: st.standalone,
            seen: st.seen,
        };
        assert forall|i: int| 0 <= i < fos.drop_first().len() implies #[trigger] outline_of_folder(
            outs.drop_first()[i],
            fos.drop_first()[i],
        ) by {
            assert(outline_of_folder(outs[i + 1], fos[i + 1]));
        }
        lemma_walk_folder_outlines(outs.drop_first(), fos.drop_first(), st1);
        assert(st1.folders + normalized_folders(fos.drop_first()) =~= st.folders
            + normalized_folders(fos));
    }
}

/// Normalizes an imported subscription list: feeds are deduplicated by URL
/// within their parent, a nameless folder's children move up a level, and
/// a named folder holds all its descendant feeds.
pub fn normalize_opml(file: OpmlFile) -> (r: OpmlFile)
    ensures
        r@ == normalized(file@),
{
    let outlines = opml_file_to_outlines(&file);
    let mut folders: Vec<Folder> = Vec::new();
    let mut standalone_feeds: Vec<Feed> = Vec::new();
    let mut top_seen: Vec<String> = Vec::new();
    let ghost st0 = walk_state(folders@, standalone_feeds@, top_seen@);
    assert(st0 == WalkState { folders: seq![], standalone: seq![], seen: seq![] }) by {
        assert(folders_view(folders@) =~= Seq::<FolderView>::empty());
        assert(feeds_view(standalone_feeds@) =~= Seq::<FeedView>::empty());
        assert(strs_view(top_seen@) =~= Seq::<Seq<char>>::empty());
    }
    walk_top_level(&outlines, &mut folders, &mut standalone_feeds, &mut top_seen);
    proof {
        let n = file.standalone_feeds@.len() as int;
        let a = outlines@.take(n);
        let b = outlines@.skip(n);
        assert(outlines@ =~= a + b);
        lemma_walk_concat(a, b, st0);
        let fs = feeds_view(file.standalone_feeds@);
        assert forall|i: int| 0 <= i < fs.len() implies #[trigger] outline_of_feed(a[i], fs[i]) by {
            assert(outline_of_feed(outlines@[i], file.standalone_feeds@[i]@));
        }
        lemma_walk_feed_outlines(a, fs, st0);
        let fos = folders_view(file.folders@);
        assert forall|i: int| 0 <= i < fos.len() implies #[trigger] outline_of_folder(b[i], fos[i]) by {
            assert(outline_of_folder(outlines@[n + i], file.folders@[i]@));
        }
        let st1 = walk_top(a, st0);
        lemma_walk_folder_outlines(b, fos, st1);
        assert(st1.folders =~= Seq::<FolderView>::empty());
            assert(Seq::<FolderView>::empty() + normalized_folders(fos) =~= normalized_folders(fos));
    }
    OpmlFile { folders, standalone_feeds }
}

/// No two feeds of `s` share a URL.
pub open spec fn distinct_urls(s: Seq<FeedView>) -> bool {
    forall|i: int, j: int| 0 <= i < j < s.len() ==> #[trigger] s[i].url != #[trigger] s[j].url
}

pub open spec fn urls_of(s: Seq<FeedView>) -> Seq<Seq<char>> {
    s.map_values(|f: FeedView| f.url)
}

proof fn lemma_dedup_distinct(s: Seq<FeedView>, feeds: Seq<FeedView>, seen: Seq<Seq<char>>)
    requires
        seen == urls_of(feeds),
        distinct_urls(feeds),
    ensures
        dedup_renormalized(s, feeds, seen).1 == urls_of(dedup_renormalized(s, feeds, seen).0),
        distinct_urls(dedup_renormalized(s, feeds, seen).0),
    decreases s.len(),
{
    if s.len() > 0 {
        match renormalized_feed(s[0]) {
            None => lemma_dedup_distinct(s.drop_first(), feeds, seen),
            Some(f) => if seen.contains(f.url) {
                lemma_dedup_distinct(s.drop_first(), feeds, seen);
            } else {
                let nf = feeds.push(f);
                assert(urls_of(nf) =~= seen.push(f.url));
                assert forall|i: int, j: int| 0 <= i < j < nf.len() implies #[trigger] nf[i].url != #[trigger] nf[j].url by {
                    if j == nf.len() - 1 {
                        assert(seen[i] == feeds[i].url);
                    }
                }
                lemma_dedup_distinct(s.drop_first(), nf, seen.push(f.url));
            },
        }
    }
}

/// Normalizing deduplicates feeds by URL within their parent: no two
/// top-level feeds, and no two feeds of one folder, share a URL.
pub proof fn lemma_normalize_dedups_by_url(file: OpmlView)
    ensures
        distinct_urls(normalized(file).standalone_feeds),
        forall|i: int| 0 <= i < normalized(file).folders.len() ==> distinct_urls(#[trigger] normalized(file).folders[i].feeds),
{
    assert(urls_of(Seq::<FeedView>::empty()) =~= Seq::<Seq<char>>::empty());
    lemma_dedup_distinct(file.standalone_feeds, Seq::empty(), Seq::empty());
    assert forall|i: int| 0 <= i < normalized(file).folders.len() implies distinct_urls(#[trigger] normalized(file).folders[i].feeds) by {
        lemma_dedup_distinct(file.folders[i].feeds, Seq::empty(), Seq::empty());
    }
}

} // verus!
