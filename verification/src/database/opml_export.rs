//! The user-facing OPML export: a hand-built writer with a fixed byte shape
//! (attribute order, `description=""`, `version="RSS"`, tab indentation),
//! and the XML character filters shared with the save path.
use vstd::prelude::*;
use crate::chars::{chars_of, contains_run, lowercase_text, push_str_chars, string_from_chars, to_lowercase};
use crate::database::opml::{lit_rss, Body, Head, OpmlDocument, OpmlFile, OpmlView, Outline};
use crate::models::opt_view;
use crate::models::{feeds_view, folders_view, opt_or, Feed, FeedView, Folder, FolderView};
use crate::sorting::{insert_sorted, insertion_point, lemma_insert_sorted_at, sort_by_key};

verus! {

/// XML 1.0 `Char`: tab, LF, CR, and the scalars from U+0020 up, except the
/// non-characters U+FFFE and U+FFFF.
pub open spec fn legal_xml_char(c: char) -> bool {
    let n = c as u32;
    n == 9 || n == 10 || n == 13 || (0x20 <= n && n <= 0xD7FF) || (0xE000 <= n && n <= 0xFFFD) || n >= 0x10000
}

/// Whether `c` may appear in an XML 1.0 document.
pub fn is_legal_xml_character(c: char) -> (b: bool)
    ensures
        b == legal_xml_char(c),
{
    let n = c as u32;
    n == 9 || n == 10 || n == 13 || (0x20 <= n && n <= 0xD7FF) || (0xE000 <= n && n <= 0xFFFD) || n >= 0x10000
}

/// The escaped form of one character: the five predefined entities,
/// illegal characters dropped, every other character itself.
pub open spec fn escape_char(c: char) -> Seq<char> {
    if c == '&' {
        "&amp;"@
    } else if c == '<' {
        "&lt;"@
    } else if c == '>' {
        "&gt;"@
    } else if c == '"' {
        "&quot;"@
    } else if c == '\'' {
        "&apos;"@
    } else if legal_xml_char(c) {
        seq![c]
    } else {
        Seq::empty()
    }
}

/// `s` with every character escaped by `escape_char`.
pub open spec fn escape_text(s: Seq<char>) -> Seq<char>
    decreases s.len(),
{
    if s.len() == 0 {
        Seq::empty()
    } else {
        escape_text(s.drop_last()) + escape_char(s.last())
    }
}

/// Escaped text is safe inside an attribute value or an element: it holds
/// no `<`, `>`, `"` or `'`, only legal XML characters, and an `&` only as
/// the start of one of the five entities; text of legal characters
/// without any of `&<>"'` is left as it is.
pub proof fn lemma_escaped_text_is_safe(s: Seq<char>)
    ensures
        forall|k: int|
            0 <= k < escape_text(s).len() ==> {
                let c = #[trigger] escape_text(s)[k];
                &&& c != '<' && c != '>' && c != '"' && c != '\''
                &&& legal_xml_char(c)
                &&& c == '&' ==> {
                    let rest = escape_text(s).subrange(k, escape_text(s).len() as int);
                    ||| rest.len() >= 5 && rest.take(5) == "&amp;"@
                    ||| rest.len() >= 4 && rest.take(4) == "&lt;"@
                    ||| rest.len() >= 4 && rest.take(4) == "&gt;"@
                    ||| rest.len() >= 6 && rest.take(6) == "&quot;"@
                    ||| rest.len() >= 6 && rest.take(6) == "&apos;"@
                }
            },
        (forall|i: int|
            0 <= i < s.len() ==> legal_xml_char(#[trigger] s[i]) && s[i] != '&' && s[i] != '<' && s[i] != '>' && s[i]
                != '"' && s[i] != '\'') ==> escape_text(s) == s,
    decreases s.len(),
{
    reveal_strlit("&amp;");
    reveal_strlit("&lt;");
    reveal_strlit("&gt;");
    reveal_strlit("&quot;");
    reveal_strlit("&apos;");
    if s.len() > 0 {
        let p = s.drop_last();
        lemma_escaped_text_is_safe(p);
        let a = escape_text(p);
        let b = escape_char(s.last());
        let e = escape_text(s);
        assert(e == a + b);
        assert forall|k: int| 0 <= k < e.len() implies {
            let c = #[trigger] e[k];
            &&& c != '<' && c != '>' && c != '"' && c != '\''
            &&& legal_xml_char(c)
            &&& c == '&' ==> {
                let rest = e.subrange(k, e.len() as int);
                ||| rest.len() >= 5 && rest.take(5) == "&amp;"@
                ||| rest.len() >= 4 && rest.take(4) == "&lt;"@
                ||| rest.len() >= 4 && rest.take(4) == "&gt;"@
                ||| rest.len() >= 6 && rest.take(6) == "&quot;"@
                ||| rest.len() >= 6 && rest.take(6) == "&apos;"@
            }
        } by {
            if k < a.len() {
                assert(e[k] == a[k]);
                if a[k] == '&' {
                    let ra = a.subrange(k, a.len() as int);
                    let re = e.subrange(k, e.len() as int);
                    assert(re =~= ra + b);
                    if ra.len() >= 5 && ra.take(5) == "&amp;"@ {
                        assert(re.take(5) =~= ra.take(5));
                    } else if ra.len() >= 4 && ra.take(4) == "&lt;"@ {
                        assert(re.take(4) =~= ra.take(4));
                    } else if ra.len() >= 4 && ra.take(4) == "&gt;"@ {
                        assert(re.take(4) =~= ra.take(4));
                    } else if ra.len() >= 6 && ra.take(6) == "&quot;"@ {
                        assert(re.take(6) =~= ra.take(6));
                    } else {
                        assert(re.take(6) =~= ra.take(6));
                    }
                }
            } else {
                assert(e[k] == b[k - a.len()]);
                let re = e.subrange(k, e.len() as int);
                if k == a.len() {
                    assert(re =~= b);
                    assert(b.take(b.len() as int) =~= b);
                }
            }
        }
        if forall|i: int|
            0 <= i < s.len() ==> legal_xml_char(#[trigger] s[i]) && s[i] != '&' && s[i] != '<' && s[i] != '>' && s[i]
                != '"' && s[i] != '\'' {
            assert forall|i: int|
                0 <= i < p.len() implies legal_xml_char(#[trigger] p[i]) && p[i] != '&' && p[i] != '<' && p[i] != '>' && p[i]
                    != '"' && p[i] != '\'' by {
                assert(p[i] == s[i]);
            }
            assert(s.last() == s[s.len() - 1]);
            assert(e =~= s);
        }
    }
}

/// `s` with its illegal XML characters removed.
pub open spec fn legal_only(s: Seq<char>) -> Seq<char>
    decreases s.len(),
{
    if s.len() == 0 {
        Seq::empty()
    } else if legal_xml_char(s.last()) {
        legal_only(s.drop_last()).push(s.last())
    } else {
        legal_only(s.drop_last())
    }
}

fn push_escaped_char(out: &mut Vec<char>, c: char)
    ensures
        final(out)@ == old(out)@ + escape_char(c),
{
    if c == '&' {
        push_str_chars(out, "&amp;");
    } else if c == '<' {
        push_str_chars(out, "&lt;");
    } else if c == '>' {
        push_str_chars(out, "&gt;");
    } else if c == '"' {
        push_str_chars(out, "&quot;");
    } else if c == '\'' {
        push_str_chars(out, "&apos;");
    } else if is_legal_xml_character(c) {
        out.push(c);
    }
}

/// Appends the escaped form of `s` to `out`.
fn push_escaped(out: &mut Vec<char>, s: &str)
    ensures
        final(out)@ == old(out)@ + escape_text(s@),
{
    let v = chars_of(s);
    let ghost base = out@;
    let mut i: usize = 0;
    while i < v.len()
        invariant
            i <= v@.len(),
            v@ == s@,
            out@ == base + escape_text(v@.take(i as int)),
        decreases v@.len() - i,
    {
        assert(v@.take(i + 1).drop_last() =~= v@.take(i as int));
        push_escaped_char(out, v[i]);
        i += 1;
    }
    assert(v@.take(i as int) =~= v@);
}

/// XML-escapes `s` (`&`, `<`, `>`, `"`, `'`) and drops characters that
/// XML 1.0 does not allow.
pub fn escape_xml(s: &str) -> (r: String)
    ensures
        r@ == escape_text(s@),
{
    let mut out: Vec<char> = Vec::new();
    push_escaped(&mut out, s);
    assert(out@ =~= escape_text(s@));
    string_from_chars(out.as_slice())
}

/// Drops the characters that XML 1.0 does not allow, for the save path
/// where the serializer escapes entities itself.
pub fn xml_safe(s: &str) -> (r: String)
    ensures
        r@ == legal_only(s@),
{
    let v = chars_of(s);
    let mut out: Vec<char> = Vec::new();
    let mut i: usize = 0;
    while i < v.len()
        invariant
            i <= v@.len(),
            v@ == s@,
            out@ == legal_only(v@.take(i as int)),
        decreases v@.len() - i,
    {
        assert(v@.take(i + 1).drop_last() =~= v@.take(i as int));
        if is_legal_xml_character(v[i]) {
            out.push(v[i]);
        }
        i += 1;
    }
    assert(v@.take(i as int) =~= v@);
    string_from_chars(out.as_slice())
}

/// The name a feed is exported under: `edited_name`, else `name`, else
/// empty.
pub open spec fn export_name(f: FeedView) -> Seq<char> {
    match opt_or(f.edited_name, f.name) {
        Some(n) => n,
        None => Seq::empty(),
    }
}

/// The sort key of a feed: lowercased `edited_name`, else `name`, else URL.
pub open spec fn feed_key(f: FeedView) -> Seq<char> {
    lowercase_text(
        match opt_or(f.edited_name, f.name) {
            Some(n) => n,
            None => f.url,
        },
    )
}

pub open spec fn feed_key_fn() -> spec_fn(FeedView) -> Seq<char> {
    |f: FeedView| feed_key(f)
}

pub open spec fn folder_key_fn() -> spec_fn(FolderView) -> Seq<char> {
    |f: FolderView| f.name
}

/// `n` tab characters.
pub open spec fn tabs(n: nat) -> Seq<char> {
    Seq::new(n, |i: int| '\t')
}

/// One exported feed line at indentation `indent`.
pub open spec fn feed_line(f: FeedView, indent: nat) -> Seq<char> {
    let name = escape_text(export_name(f));
    let html = match f.home_page_url {
        Some(h) => escape_text(h),
        None => Seq::empty(),
    };
    tabs(indent) + "<outline text=\""@ + name + "\" title=\""@ + name
        + "\" description=\"\" type=\"rss\" version=\"RSS\" htmlUrl=\""@ + html + "\" xmlUrl=\""@
        + escape_text(f.url) + "\"/>\n"@
}

/// The lines of `s`, in order.
pub open spec fn feed_lines(s: Seq<FeedView>, indent: nat) -> Seq<char>
    decreases s.len(),
{
    if s.len() == 0 {
        Seq::empty()
    } else {
        feed_lines(s.drop_last(), indent) + feed_line(s.last(), indent)
    }
}

/// One exported folder: self-closing when empty, else its feeds sorted by
/// key one level deeper.
pub open spec fn folder_block(f: FolderView, indent: nat) -> Seq<char> {
    let name = escape_text(f.name);
    if f.feeds.len() == 0 {
        tabs(indent) + "<outline text=\""@ + name + "\" title=\""@ + name + "\"/>\n"@
    } else {
        tabs(indent) + "<outline text=\""@ + name + "\" title=\""@ + name + "\">\n"@
            + feed_lines(sort_by_key(f.feeds, feed_key_fn()), indent + 1) + tabs(indent) + "</outline>\n"@
    }
}

pub open spec fn folder_blocks(s: Seq<FolderView>, indent: nat) -> Seq<char>
    decreases s.len(),
{
    if s.len() == 0 {
        Seq::empty()
    } else {
        folder_blocks(s.drop_last(), indent) + folder_block(s.last(), indent)
    }
}

/// The whole export document for `file` under `title`: top-level feeds
/// sorted by key, then folders sorted by name.
pub open spec fn account_opml(title: Seq<char>, file: OpmlView) -> Seq<char> {
    "<?xml version=\"1.0\" encoding=\"UTF-8\"?>\n"@ + "<!-- OPML generated by viaduct -->\n"@
        + "<opml version=\"1.1\">\n"@ + "\t<head>\n"@ + "\t\t<title>"@ + escape_text(title)
        + "</title>\n"@ + "\t</head>\n"@ + "<body>\n"@
        + feed_lines(sort_by_key(file.standalone_feeds, feed_key_fn()), 1)
        + folder_blocks(sort_by_key(file.folders, folder_key_fn()), 1) + "</body>\n"@ + "</opml>"@
}

/// The sort key of a feed in an export.
pub fn feed_sort_key(feed: &Feed) -> (r: String)
    ensures
        r@ == feed_key(feed@),
{
    match &feed.edited_name {
        Some(n) => to_lowercase(n.as_str()),
        None => match &feed.name {
            Some(n) => to_lowercase(n.as_str()),
            None => to_lowercase(feed.url.as_str()),
        },
    }
}

/// Copies of `feeds`, stably sorted by `feed_sort_key`.
fn sorted_feeds(feeds: &Vec<Feed>) -> (r: Vec<Feed>)
    ensures
        feeds_view(r@) == sort_by_key(feeds_view(feeds@), feed_key_fn()),
{
    let mut sorted: Vec<Feed> = Vec::new();
    let mut keys: Vec<Vec<char>> = Vec::new();
    let mut i: usize = 0;
    assert(feeds_view(feeds@.take(0)) =~= Seq::<FeedView>::empty());
    assert(feeds_view(sorted@) =~= Seq::<FeedView>::empty());
    while i < feeds.len()
        invariant
            i <= feeds@.len(),
            feeds_view(sorted@) == sort_by_key(feeds_view(feeds@.take(i as int)), feed_key_fn()),
            keys@.len() == sorted@.len(),
            forall|j: int| 0 <= j < keys@.len() ==> #[trigger] keys@[j]@ == feed_key(sorted@[j]@),
        decreases feeds@.len() - i,
    {
        let f = feeds[i].duplicate();
        let ks = feed_sort_key(&feeds[i]);
        let k = chars_of(ks.as_str());
        let p = insertion_point(&keys, &k);
        proof {
            let sv = feeds_view(sorted@);
            assert forall|j: int| 0 <= j < p implies !crate::sorting::str_lt(
                (feed_key_fn())(f@),
                #[trigger] (feed_key_fn())(sv[j]),
            ) by {
                assert(keys@[j]@ == feed_key(sorted@[j]@));
            }
            lemma_insert_sorted_at(sv, f@, feed_key_fn(), p as int);
            assert(feeds_view(feeds@.take(i + 1)).drop_last() =~= feeds_view(feeds@.take(i as int)));
            assert(feeds_view(feeds@.take(i + 1)).last() == f@);
        }
        let ghost old_sorted = sorted@;
        sorted.insert(p, f);
        keys.insert(p, k);
        proof {
            assert(feeds_view(sorted@) =~= feeds_view(old_sorted).insert(p as int, sorted@[p as int]@));
            assert forall|j: int| 0 <= j < keys@.len() implies #[trigger] keys@[j]@ == feed_key(sorted@[j]@) by {
                if j < p {
                    assert(sorted@[j] == old_sorted[j]);
                } else if j > p {
                    assert(sorted@[j] == old_sorted[j - 1]);
                }
            }
        }
        i += 1;
    }
    assert(feeds@.take(i as int) =~= feeds@);
    sorted
}

/// Copies of `folders`, stably sorted by name.
fn sorted_folders(folders: &Vec<Folder>) -> (r: Vec<Folder>)
    ensures
        folders_view(r@) == sort_by_key(folders_view(folders@), folder_key_fn()),
{
    let mut sorted: Vec<Folder> = Vec::new();
    let mut keys: Vec<Vec<char>> = Vec::new();
    let mut i: usize = 0;
    assert(folders_view(folders@.take(0)) =~= Seq::<FolderView>::empty());
    assert(folders_view(sorted@) =~= Seq::<FolderView>::empty());
    while i < folders.len()
        invariant
            i <= folders@.len(),
            folders_view(sorted@) == sort_by_key(folders_view(folders@.take(i as int)), folder_key_fn()),
            keys@.len() == sorted@.len(),
            forall|j: int| 0 <= j < keys@.len() ==> #[trigger] keys@[j]@ == sorted@[j].name@,
        decreases folders@.len() - i,
    {
        let f = folders[i].duplicate();
        let k = chars_of(folders[i].name.as_str());
        let p = insertion_point(&keys, &k);
        proof {
            let sv = folders_view(sorted@);
            assert forall|j: int| 0 <= j < p implies !crate::sorting::str_lt(
                (folder_key_fn())(f@),
                #[trigger] (folder_key_fn())(sv[j]),
            ) by {
                assert(keys@[j]@ == sorted@[j].name@);
            }
            lemma_insert_sorted_at(sv, f@, folder_key_fn(), p as int);
            assert(folders_view(folders@.take(i + 1)).drop_last() =~= folders_view(folders@.take(i as int)));
            assert(folders_view(folders@.take(i + 1)).last() == f@);
        }
        let ghost old_sorted = sorted@;
        sorted.insert(p, f);
        keys.insert(p, k);
        proof {
            assert(folders_view(sorted@) =~= folders_view(old_sorted).insert(p as int, sorted@[p as int]@));
            assert forall|j: int| 0 <= j < keys@.len() implies #[trigger] keys@[j]@ == sorted@[j].name@ by {
                if j < p {
                    assert(sorted@[j] == old_sorted[j]);
                } else if j > p {
                    assert(sorted@[j] == old_sorted[j - 1]);
                }
            }
        }
        i += 1;
    }
    assert(folders@.take(i as int) =~= folders@);
    sorted
}

fn push_tabs(out: &mut Vec<char>, n: usize)
    ensures
        final(out)@ == old(out)@ + tabs(n as nat),
{
    let ghost base = out@;
    let mut i: usize = 0;
    while i < n
        invariant
            i <= n,
            out@ == base + tabs(i as nat),
        decreases n - i,
    {
        out.push('\t');
        i += 1;
        assert(tabs(i as nat) =~= tabs((i - 1) as nat).push('\t'));
    }
}

#[verifier::rlimit(30)]
fn push_feed_line(out: &mut Vec<char>, feed: &Feed, indent: usize)
    ensures
        final(out)@ == old(out)@ + feed_line(feed@, indent as nat),
{
    let ghost base = out@;
    let name: &str = match &feed.edited_name {
        Some(n) => n.as_str(),
        None => match &feed.name {
            Some(n) => n.as_str(),
            None => "",
        },
    };
    proof {
        if feed.edited_name is None && feed.name is None {
            reveal_strlit("");
        }
    }
    assert(name@ == export_name(feed@));
    push_tabs(out, indent);
    push_str_chars(out, "<outline text=\"");
    push_escaped(out, name);
    push_str_chars(out, "\" title=\"");
    push_escaped(out, name);
    push_str_chars(out, "\" description=\"\" type=\"rss\" version=\"RSS\" htmlUrl=\"");
    match &feed.home_page_url {
        Some(h) => push_escaped(out, h.as_str()),
        None => {},
    }
    push_str_chars(out, "\" xmlUrl=\"");
    push_escaped(out, feed.url.as_str());
    push_str_chars(out, "\"/>\n");
    let ghost html = match feed@.home_page_url {
        Some(h) => escape_text(h),
        None => Seq::<char>::empty(),
    };
    assert(out@ =~= base + feed_line(feed@, indent as nat)) by {
        let nm = escape_text(export_name(feed@));
        assert(feed_line(feed@, indent as nat) == tabs(indent as nat) + "<outline text=\""@ + nm + "\" title=\""@ + nm
            + "\" description=\"\" type=\"rss\" version=\"RSS\" htmlUrl=\""@ + html + "\" xmlUrl=\""@
            + escape_text(feed@.url) + "\"/>\n"@);
    }
}

fn push_feed_lines(out: &mut Vec<char>, feeds: &Vec<Feed>, indent: usize)
    ensures
        final(out)@ == old(out)@ + feed_lines(feeds_view(feeds@), indent as nat),
{
    let ghost base = out@;
    let mut i: usize = 0;
    assert(feeds_view(feeds@.take(0)) =~= Seq::<FeedView>::empty());
    while i < feeds.len()
        invariant
            i <= feeds@.len(),
            out@ == base + feed_lines(feeds_view(feeds@.take(i as int)), indent as nat),
        decreases feeds@.len() - i,
    {
        assert(feeds_view(feeds@.take(i + 1)).drop_last() =~= feeds_view(feeds@.take(i as int)));
        push_feed_line(out, &feeds[i], indent);
        i += 1;
        assert(out@ =~= base + feed_lines(feeds_view(feeds@.take(i as int)), indent as nat));
    }
    assert(feeds@.take(i as int) =~= feeds@);
}

fn push_folder_block(out: &mut Vec<char>, folder: &Folder, indent: usize)
    requires
        indent < usize::MAX,
    ensures
        final(out)@ == old(out)@ + folder_block(folder@, indent as nat),
{
    let ghost base = out@;
    let ghost nm = escape_text(folder.name@);
    push_tabs(out, indent);
    push_str_chars(out, "<outline text=\"");
    push_escaped(out, folder.name.as_str());
    push_str_chars(out, "\" title=\"");
    push_escaped(out, folder.name.as_str());
    if folder.feeds.len() == 0 {
        push_str_chars(out, "\"/>\n");
        assert(out@ =~= base + folder_block(folder@, indent as nat));
        return;
    }
    push_str_chars(out, "\">\n");
    let sorted = sorted_feeds(&folder.feeds);
    push_feed_lines(out, &sorted, indent + 1);
    push_tabs(out, indent);
    push_str_chars(out, "</outline>\n");
    assert(out@ =~= base + folder_block(folder@, indent as nat));
}

fn push_folder_blocks(out: &mut Vec<char>, folders: &Vec<Folder>, indent: usize)
    requires
        indent < usize::MAX,
    ensures
        final(out)@ == old(out)@ + folder_blocks(folders_view(folders@), indent as nat),
{
    let ghost base = out@;
    let mut i: usize = 0;
    assert(folders_view(folders@.take(0)) =~= Seq::<FolderView>::empty());
    while i < folders.len()
        invariant
            i <= folders@.len(),
            indent < usize::MAX,
            out@ == base + folder_blocks(folders_view(folders@.take(i as int)), indent as nat),
        decreases folders@.len() - i,
    {
        assert(folders_view(folders@.take(i + 1)).drop_last() =~= folders_view(folders@.take(i as int)));
        push_folder_block(out, &folders[i], indent);
        i += 1;
        assert(out@ =~= base + folder_blocks(folders_view(folders@.take(i as int)), indent as nat));
    }
    assert(folders@.take(i as int) =~= folders@);
}

/// The export line of one feed at indentation `indent`.
pub fn feed_opml_string(feed: &Feed, indent: usize) -> (s: String)
    ensures
        s@ == feed_line(feed@, indent as nat),
{
    let mut out: Vec<char> = Vec::new();
    push_feed_line(&mut out, feed, indent);
    assert(out@ =~= feed_line(feed@, indent as nat));
    string_from_chars(out.as_slice())
}

/// The export block of one folder at indentation `indent`.
pub fn folder_opml_string(folder: &Folder, indent: usize) -> (s: String)
    requires
        indent < usize::MAX,
    ensures
        s@ == folder_block(folder@, indent as nat),
{
    let mut out: Vec<char> = Vec::new();
    push_folder_block(&mut out, folder, indent);
    assert(out@ =~= folder_block(folder@, indent as nat));
    string_from_chars(out.as_slice())
}

/// The user-facing OPML export of `file` under `title`, byte for byte.
pub fn serialize_account_opml(title: &str, file: &OpmlFile) -> (s: String)
    ensures
        s@ == account_opml(title@, file@),
{
    let mut out: Vec<char> = Vec::new();
    push_str_chars(&mut out, "<?xml version=\"1.0\" encoding=\"UTF-8\"?>\n");
    push_str_chars(&mut out, "<!-- OPML generated by viaduct -->\n");
    push_str_chars(&mut out, "<opml version=\"1.1\">\n");
    push_str_chars(&mut out, "\t<head>\n");
    push_str_chars(&mut out, "\t\t<title>");
    push_escaped(&mut out, title);
    push_str_chars(&mut out, "</title>\n");
    push_str_chars(&mut out, "\t</head>\n");
    push_str_chars(&mut out, "<body>\n");
    let feeds = sorted_feeds(&file.standalone_feeds);
    push_feed_lines(&mut out, &feeds, 1);
    let folders = sorted_folders(&file.folders);
    push_folder_blocks(&mut out, &folders, 1);
    push_str_chars(&mut out, "</body>\n");
    push_str_chars(&mut out, "</opml>");
    assert(out@ =~= account_opml(title@, file@));
    string_from_chars(out.as_slice())
}


/// `o` keeps only legal XML characters of `v`.
pub open spec fn opt_legal(o: Option<Seq<char>>) -> Option<Seq<char>> {
    match o {
        Some(s) => Some(legal_only(s)),
        None => None,
    }
}

/// `o` is the save-path outline of feed `f`: every text filtered to legal
/// XML characters, `type="rss"`, no children.
pub open spec fn saved_feed_outline(o: Outline, f: FeedView) -> bool {
    &&& opt_view(o.text) == opt_legal(f.name)
    &&& opt_view(o.title) == opt_legal(f.name)
    &&& opt_view(o.type_) == Some(lit_rss())
    &&& opt_view(o.xml_url) == Some(legal_only(f.url))
    &&& opt_view(o.html_url) == opt_legal(f.home_page_url)
    &&& o.outlines@.len() == 0
}

/// `o` is the save-path outline of folder `fo`.
pub open spec fn saved_folder_outline(o: Outline, fo: FolderView) -> bool {
    &&& opt_view(o.text) == Some(legal_only(fo.name))
    &&& opt_view(o.title) == Some(legal_only(fo.name))
    &&& o.type_ is None
    &&& o.xml_url is None
    &&& o.html_url is None
    &&& o.outlines@.len() == fo.feeds.len()
    &&& forall|i: int| 0 <= i < fo.feeds.len() ==> #[trigger] saved_feed_outline(o.outlines@[i], fo.feeds[i])
}

fn opt_xml_safe(o: &Option<String>) -> (r: Option<String>)
    ensures
        opt_view(r) == opt_legal(opt_view(*o)),
{
    match o {
        Some(s) => Some(xml_safe(s.as_str())),
        None => None,
    }
}

fn rss_type() -> (r: Option<String>)
    ensures
        opt_view(r) == Some(lit_rss()),
{
    let rss = String::from_str("rss");
    proof {
        reveal_strlit("rss");
        assert(rss@ =~= lit_rss());
    }
    Some(rss)
}

fn saved_feed(f: &Feed) -> (o: Outline)
    ensures
        saved_feed_outline(o, f@),
{
    Outline {
        text: opt_xml_safe(&f.name),
        title: opt_xml_safe(&f.name),
        type_: rss_type(),
        xml_url: Some(xml_safe(f.url.as_str())),
        html_url: opt_xml_safe(&f.home_page_url),
        outlines: Vec::new(),
    }
}

/// The document the save path serializes for `file`: one outline per
/// folder (with its feeds as children), then one per top-level feed, every
/// text filtered to legal XML characters; version "1.0", head title
/// "viaduct".
pub fn opml_document_for_save(file: &OpmlFile) -> (doc: OpmlDocument)
    ensures
        doc.version@ == "1.0"@,
        opt_view(doc.head.title) == Some("viaduct"@),
        doc.body.outlines@.len() == file.folders@.len() + file.standalone_feeds@.len(),
        forall|i: int| 0 <= i < file.folders@.len() ==> #[trigger] saved_folder_outline(doc.body.outlines@[i], file.folders@[i]@),
        forall|i: int|
            0 <= i < file.standalone_feeds@.len() ==> #[trigger] saved_feed_outline(
                doc.body.outlines@[file.folders@.len() + i],
                file.standalone_feeds@[i]@,
            ),
{
    let mut outlines: Vec<Outline> = Vec::new();
    let mut i: usize = 0;
    while i < file.folders.len()
        invariant
            i <= file.folders@.len(),
            outlines@.len() == i,
            forall|k: int| 0 <= k < i ==> #[trigger] saved_folder_outline(outlines@[k], file.folders@[k]@),
        decreases file.folders@.len() - i,
    {
        let folder = &file.folders[i];
        let mut children: Vec<Outline> = Vec::new();
        let mut k: usize = 0;
        while k < folder.feeds.len()
            invariant
                k <= folder.feeds@.len(),
                children@.len() == k,
                forall|q: int| 0 <= q < k ==> #[trigger] saved_feed_outline(children@[q], folder.feeds@[q]@),
            decreases folder.feeds@.len() - k,
        {
            children.push(saved_feed(&folder.feeds[k]));
            k += 1;
        }
        outlines.push(Outline {
            text: Some(xml_safe(folder.name.as_str())),
            title: Some(xml_safe(folder.name.as_str())),
            type_: None,
            xml_url: None,
            html_url: None,
            outlines: children,
        });
        i += 1;
    }
    let n = file.folders.len();
    let mut j: usize = 0;
    while j < file.standalone_feeds.len()
        invariant
            n == file.folders@.len(),
            j <= file.standalone_feeds@.len(),
            outlines@.len() == n + j,
            forall|k: int| 0 <= k < n ==> #[trigger] saved_folder_outline(outlines@[k], file.folders@[k]@),
            forall|k: int| 0 <= k < j ==> #[trigger] saved_feed_outline(outlines@[n + k], file.standalone_feeds@[k]@),
        decreases file.standalone_feeds@.len() - j,
    {
        outlines.push(saved_feed(&file.standalone_feeds[j]));
        j += 1;
    }
    OpmlDocument {
        version: String::from_str("1.0"),
        head: Head { title: Some(String::from_str("viaduct")) },
        body: Body { outlines },
    }
}

// ---------------------------------------------------------------------
// The export does not depend on the order of its lists
// ---------------------------------------------------------------------

/// A folder with its feeds in export order.
pub open spec fn sorted_folder(fo: FolderView) -> FolderView {
    FolderView { name: fo.name, feeds: sort_by_key(fo.feeds, feed_key_fn()) }
}

pub open spec fn sorted_folder_fn() -> spec_fn(FolderView) -> FolderView {
    |fo: FolderView| sorted_folder(fo)
}

/// The export block of a folder whose feeds are already in order.
pub open spec fn ordered_block(f: FolderView, indent: nat) -> Seq<char> {
    let name = escape_text(f.name);
    if f.feeds.len() == 0 {
        tabs(indent) + "<outline text=\""@ + name + "\" title=\""@ + name + "\"/>\n"@
    } else {
        tabs(indent) + "<outline text=\""@ + name + "\" title=\""@ + name + "\">\n"@ + feed_lines(f.feeds, indent + 1)
            + tabs(indent) + "</outline>\n"@
    }
}

pub open spec fn ordered_blocks(s: Seq<FolderView>, indent: nat) -> Seq<char>
    decreases s.len(),
{
    if s.len() == 0 {
        Seq::empty()
    } else {
        ordered_blocks(s.drop_last(), indent) + ordered_block(s.last(), indent)
    }
}

proof fn lemma_blocks_of_sorted(s: Seq<FolderView>, indent: nat)
    ensures
        folder_blocks(s, indent) == ordered_blocks(s.map_values(sorted_folder_fn()), indent),
    decreases s.len(),
{
    if s.len() > 0 {
        crate::sorting::lemma_sort_by_key_len(s.last().feeds, feed_key_fn());
        assert(s.map_values(sorted_folder_fn()).drop_last() =~= s.drop_last().map_values(sorted_folder_fn()));
        lemma_blocks_of_sorted(s.drop_last(), indent);
    }
}

/// The export does not depend on the order of the lists it is given: two
/// trees with the same top-level feeds (no two sharing a sort key) and the
/// same folders (no two sharing a name), each holding the same feeds in
/// whatever order, export to the same text.
pub proof fn lemma_export_ignores_order(title: Seq<char>, f1: OpmlView, f2: OpmlView)
    requires
        f1.standalone_feeds.to_multiset() == f2.standalone_feeds.to_multiset(),
        crate::sorting::distinct_keys(f1.standalone_feeds, feed_key_fn()),
        f1.folders.map_values(sorted_folder_fn()).to_multiset() == f2.folders.map_values(sorted_folder_fn()).to_multiset(),
        crate::sorting::distinct_keys(f1.folders, folder_key_fn()),
    ensures
        account_opml(title, f1) == account_opml(title, f2),
{
    crate::sorting::lemma_sort_ignores_order(f1.standalone_feeds, f2.standalone_feeds, feed_key_fn());
    let g = sorted_folder_fn();
    let k = folder_key_fn();
    assert forall|a: FolderView| #[trigger] k(g(a)) == k(a) by {}
    let n1 = f1.folders.map_values(g);
    let n2 = f2.folders.map_values(g);
    assert(crate::sorting::distinct_keys(n1, k)) by {
        assert forall|i: int, j: int| 0 <= i < n1.len() && 0 <= j < n1.len() && i != j implies k(#[trigger] n1[i]) != k(
            #[trigger] n1[j],
        ) by {
            assert(n1[i].name == f1.folders[i].name);
            assert(n1[j].name == f1.folders[j].name);
        }
    }
    crate::sorting::lemma_sort_ignores_order(n1, n2, k);
    crate::sorting::lemma_sort_by_key_map(f1.folders, k, g);
    crate::sorting::lemma_sort_by_key_map(f2.folders, k, g);
    lemma_blocks_of_sorted(sort_by_key(f1.folders, k), 1);
    lemma_blocks_of_sorted(sort_by_key(f2.folders, k), 1);
}

/// The export does not depend on the order of its lists, stated over
/// permutations: `f2`'s top-level feeds are a permutation of `f1`'s, and
/// `f2`'s folders are a permutation of `h`, where `h[i]` is `f1`'s `i`-th
/// folder with its feeds permuted. Within each list the sort keys are
/// distinct (feeds: the lowercased display name, else URL; folders: the
/// name). Both trees export to the same text, in which the top-level feeds
/// come first in ascending key order and the folders follow in ascending
/// name order.
pub proof fn lemma_export_ignores_permutation(title: Seq<char>, f1: OpmlView, f2: OpmlView, h: Seq<FolderView>)
    requires
        f1.standalone_feeds.to_multiset() == f2.standalone_feeds.to_multiset(),
        crate::sorting::distinct_keys(f1.standalone_feeds, feed_key_fn()),
        h.to_multiset() == f2.folders.to_multiset(),
        h.len() == f1.folders.len(),
        forall|i: int|
            0 <= i < h.len() ==> (#[trigger] h[i]).name == f1.folders[i].name && h[i].feeds.to_multiset()
                == f1.folders[i].feeds.to_multiset(),
        forall|i: int| 0 <= i < f1.folders.len() ==> crate::sorting::distinct_keys(#[trigger] f1.folders[i].feeds, feed_key_fn()),
        crate::sorting::distinct_keys(f1.folders, folder_key_fn()),
    ensures
        account_opml(title, f1) == account_opml(title, f2),
        crate::sorting::str_sorted(sort_by_key(f1.standalone_feeds, feed_key_fn()), feed_key_fn()),
        crate::sorting::str_sorted(sort_by_key(f1.folders, folder_key_fn()), folder_key_fn()),
{
    let g = sorted_folder_fn();
    let n1 = f1.folders.map_values(g);
    assert forall|i: int| 0 <= i < h.len() implies #[trigger] h.map_values(g)[i] == n1[i] by {
        crate::sorting::lemma_sort_ignores_order(f1.folders[i].feeds, h[i].feeds, feed_key_fn());
    }
    assert(h.map_values(g) =~= n1);
    crate::sorting::lemma_map_keeps_permutation(h, f2.folders, g);
    lemma_export_ignores_order(title, f1, f2);
    crate::sorting::lemma_sort_by_key_sorted(f1.standalone_feeds, feed_key_fn());
    crate::sorting::lemma_sort_by_key_sorted(f1.folders, folder_key_fn());
}

// ---------------------------------------------------------------------
// Each exported feed carries its addresses
// ---------------------------------------------------------------------

proof fn lemma_run_grows(a: Seq<char>, b: Seq<char>, t: Seq<char>)
    requires
        contains_run(a, t),
    ensures
        contains_run(a + b, t),
        contains_run(b + a, t),
{
    let i = choose|i: int| 0 <= i && i + t.len() <= a.len() && #[trigger] a.subrange(i, i + t.len()) == t;
    assert((a + b).subrange(i, i + t.len()) =~= a.subrange(i, i + t.len()));
    assert((b + a).subrange(b.len() + i, b.len() + i + t.len()) =~= a.subrange(i, i + t.len()));
}

/// A feed's export line, without its indentation and line break: its
/// escaped stored name (`edited_name`, else `name`, else empty) as `text`
/// and `title`, its escaped home page (empty without one) as `htmlUrl`,
/// then its escaped URL as `xmlUrl`.
pub open spec fn outline_of(f: FeedView) -> Seq<char> {
    let name = escape_text(
        match f.edited_name {
            Some(e) => e,
            None => match f.name {
                Some(n) => n,
                None => Seq::<char>::empty(),
            },
        },
    );
    let html = match f.home_page_url {
        Some(h) => escape_text(h),
        None => Seq::<char>::empty(),
    };
    "<outline text=\""@ + name + "\" title=\""@ + name + "\" description=\"\" type=\"rss\" version=\"RSS\" htmlUrl=\""@ + html
        + "\" xmlUrl=\""@ + escape_text(f.url) + "\"/>"@
}

proof fn lemma_feed_line_holds_outline(f: FeedView, indent: nat)
    ensures
        contains_run(feed_line(f, indent), outline_of(f)),
{
    reveal_strlit("\"/>\n");
    reveal_strlit("\"/>");
    reveal_strlit("\n");
    let t = outline_of(f);
    assert("\"/>\n"@ =~= "\"/>"@ + "\n"@);
    assert(feed_line(f, indent) =~= tabs(indent) + t + "\n"@);
    assert((tabs(indent) + t + "\n"@).subrange(indent as int, (indent + t.len()) as int) =~= t);
}

proof fn lemma_feed_lines_hold_run(s: Seq<FeedView>, indent: nat, k: int, t: Seq<char>)
    requires
        0 <= k < s.len(),
        contains_run(feed_line(s[k], indent), t),
    ensures
        contains_run(feed_lines(s, indent), t),
    decreases s.len(),
{
    if k == s.len() - 1 {
        lemma_run_grows(feed_line(s[k], indent), feed_lines(s.drop_last(), indent), t);
    } else {
        lemma_feed_lines_hold_run(s.drop_last(), indent, k, t);
        lemma_run_grows(feed_lines(s.drop_last(), indent), feed_line(s.last(), indent), t);
    }
}

proof fn lemma_sorted_lines_hold_run(s: Seq<FeedView>, indent: nat, i: int, t: Seq<char>)
    requires
        0 <= i < s.len(),
        forall|ind: nat| contains_run(#[trigger] feed_line(s[i], ind), t),
    ensures
        contains_run(feed_lines(sort_by_key(s, feed_key_fn()), indent), t),
{
    broadcast use vstd::seq_lib::group_to_multiset_ensures;
    let srt = sort_by_key(s, feed_key_fn());
    crate::sorting::lemma_sort_by_key_sorted(s, feed_key_fn());
    assert(s.contains(s[i]));
    assert(s.to_multiset().count(s[i]) > 0);
    assert(srt.to_multiset().count(s[i]) > 0);
    assert(srt.contains(s[i]));
    let k = choose|k: int| 0 <= k < srt.len() && srt[k] == s[i];
    assert(contains_run(feed_line(srt[k], indent), t));
    lemma_feed_lines_hold_run(srt, indent, k, t);
}

/// Every top-level feed of an export is written out whole: the document
/// holds its outline, with its stored name as `text` and `title`, its
/// XML-escaped home page as `htmlUrl` (empty only when it has none) and
/// its XML-escaped URL as `xmlUrl`.
pub proof fn lemma_export_keeps_feed_outlines(title: Seq<char>, file: OpmlView, i: int)
    requires
        0 <= i < file.standalone_feeds.len(),
    ensures
        contains_run(account_opml(title, file), outline_of(file.standalone_feeds[i])),
{
    let f = file.standalone_feeds[i];
    let t = outline_of(f);
    assert forall|ind: nat| contains_run(#[trigger] feed_line(f, ind), t) by {
        lemma_feed_line_holds_outline(f, ind);
    }
    lemma_sorted_lines_hold_run(file.standalone_feeds, 1, i, t);
    let lines = feed_lines(sort_by_key(file.standalone_feeds, feed_key_fn()), 1);
    let head = "<?xml version=\"1.0\" encoding=\"UTF-8\"?>\n"@ + "<!-- OPML generated by viaduct -->\n"@
        + "<opml version=\"1.1\">\n"@ + "\t<head>\n"@ + "\t\t<title>"@ + escape_text(title)
        + "</title>\n"@ + "\t</head>\n"@ + "<body>\n"@;
    lemma_run_grows(lines, head, t);
    lemma_run_grows(head + lines, folder_blocks(sort_by_key(file.folders, folder_key_fn()), 1), t);
    lemma_run_grows(head + lines + folder_blocks(sort_by_key(file.folders, folder_key_fn()), 1), "</body>\n"@, t);
    lemma_run_grows(
        head + lines + folder_blocks(sort_by_key(file.folders, folder_key_fn()), 1) + "</body>\n"@,
        "</opml>"@,
        t,
    );
}

proof fn lemma_folder_blocks_hold_run(s: Seq<FolderView>, indent: nat, k: int, t: Seq<char>)
    requires
        0 <= k < s.len(),
        contains_run(folder_block(s[k], indent), t),
    ensures
        contains_run(folder_blocks(s, indent), t),
    decreases s.len(),
{
    if k == s.len() - 1 {
        lemma_run_grows(folder_block(s[k], indent), folder_blocks(s.drop_last(), indent), t);
    } else {
        lemma_folder_blocks_hold_run(s.drop_last(), indent, k, t);
        lemma_run_grows(folder_blocks(s.drop_last(), indent), folder_block(s.last(), indent), t);
    }
}

/// Every feed inside a folder of an export is written out whole too: the
/// document holds its outline, with its stored name, its XML-escaped home
/// page as `htmlUrl` (empty only when it has none) and its XML-escaped URL
/// as `xmlUrl`.
pub proof fn lemma_export_keeps_folder_feed_outlines(title: Seq<char>, file: OpmlView, j: int, i: int)
    requires
        0 <= j < file.folders.len(),
        0 <= i < file.folders[j].feeds.len(),
    ensures
        contains_run(account_opml(title, file), outline_of(file.folders[j].feeds[i])),
{
    broadcast use vstd::seq_lib::group_to_multiset_ensures;
    let fo = file.folders[j];
    let f = fo.feeds[i];
    let t = outline_of(f);
    assert forall|ind: nat| contains_run(#[trigger] feed_line(f, ind), t) by {
        lemma_feed_line_holds_outline(f, ind);
    }
    lemma_sorted_lines_hold_run(fo.feeds, 2, i, t);
    let lines = feed_lines(sort_by_key(fo.feeds, feed_key_fn()), 2);
    let name = escape_text(fo.name);
    let open_tag = tabs(1) + "<outline text=\""@ + name + "\" title=\""@ + name + "\">\n"@;
    lemma_run_grows(lines, open_tag, t);
    lemma_run_grows(open_tag + lines, tabs(1), t);
    lemma_run_grows(open_tag + lines + tabs(1), "</outline>\n"@, t);
    assert(folder_block(fo, 1) == open_tag + lines + tabs(1) + "</outline>\n"@);
    let srt = sort_by_key(file.folders, folder_key_fn());
    crate::sorting::lemma_sort_by_key_sorted(file.folders, folder_key_fn());
    assert(file.folders.contains(fo));
    assert(file.folders.to_multiset().count(fo) > 0);
    assert(srt.to_multiset().count(fo) > 0);
    assert(srt.contains(fo));
    let k = choose|k: int| 0 <= k < srt.len() && srt[k] == fo;
    lemma_folder_blocks_hold_run(srt, 1, k, t);
    let blocks = folder_blocks(srt, 1);
    let head = "<?xml version=\"1.0\" encoding=\"UTF-8\"?>\n"@ + "<!-- OPML generated by viaduct -->\n"@
        + "<opml version=\"1.1\">\n"@ + "\t<head>\n"@ + "\t\t<title>"@ + escape_text(title)
        + "</title>\n"@ + "\t</head>\n"@ + "<body>\n"@ + feed_lines(sort_by_key(file.standalone_feeds, feed_key_fn()), 1);
    lemma_run_grows(blocks, head, t);
    lemma_run_grows(head + blocks, "</body>\n"@, t);
    lemma_run_grows(head + blocks + "</body>\n"@, "</opml>"@, t);
}

// ---------------------------------------------------------------------
// What the save path writes reads back
// ---------------------------------------------------------------------

/// The feed that reading back the saved outline of `f` gives: keyed by
/// its filtered URL, named by its filtered name, its filtered home page
/// kept when not empty, no edited name.
pub open spec fn read_back_feed(f: FeedView) -> FeedView {
    FeedView {
        id: legal_only(f.url),
        url: legal_only(f.url),
        name: opt_legal(f.name),
        edited_name: None,
        home_page_url: crate::models::non_empty(opt_legal(f.home_page_url)),
    }
}

pub open spec fn read_back_feed_fn() -> spec_fn(FeedView) -> FeedView {
    |f: FeedView| read_back_feed(f)
}

/// The folder that reading back the saved outline of `fo` gives.
pub open spec fn read_back_folder(fo: FolderView) -> FolderView {
    FolderView { name: legal_only(fo.name), feeds: fo.feeds.map_values(read_back_feed_fn()) }
}

/// Every feed keeps a URL after filtering.
pub open spec fn urls_survive(s: Seq<FeedView>) -> bool {
    forall|i: int| 0 <= i < s.len() ==> legal_only(#[trigger] s[i].url).len() > 0
}

proof fn lemma_saved_feeds_flatten(s: Seq<Outline>, fs: Seq<FeedView>, acc: Seq<FeedView>)
    requires
        s.len() == fs.len(),
        forall|i: int| 0 <= i < s.len() ==> #[trigger] saved_feed_outline(s[i], fs[i]),
        urls_survive(fs),
    ensures
        crate::database::opml::flatten_all(s, acc) == acc + fs.map_values(read_back_feed_fn()),
    decreases s.len(),
{
    if s.len() == 0 {
        assert(acc + fs.map_values(read_back_feed_fn()) =~= acc);
    } else {
        assert(saved_feed_outline(s[0], fs[0]));
        assert(legal_only(fs[0].url).len() > 0);
        assert(crate::database::opml::outline_feed(s[0]) == Some(read_back_feed(fs[0])));
        let d = s.drop_first();
        let g = fs.drop_first();
        assert forall|i: int| 0 <= i < d.len() implies #[trigger] saved_feed_outline(d[i], g[i]) by {
            assert(d[i] == s[i + 1]);
            assert(g[i] == fs[i + 1]);
        }
        assert(urls_survive(g)) by {
            assert forall|i: int| 0 <= i < g.len() implies legal_only(#[trigger] g[i].url).len() > 0 by {
                assert(g[i] == fs[i + 1]);
            }
        }
        lemma_saved_feeds_flatten(d, g, acc.push(read_back_feed(fs[0])));
        assert(acc.push(read_back_feed(fs[0])) + g.map_values(read_back_feed_fn()) =~= acc + fs.map_values(
            read_back_feed_fn(),
        ));
    }
}

proof fn lemma_saved_feeds_read(s: Seq<Outline>, fs: Seq<FeedView>, acc: OpmlView)
    requires
        s.len() == fs.len(),
        forall|i: int| 0 <= i < s.len() ==> #[trigger] saved_feed_outline(s[i], fs[i]),
        urls_survive(fs),
    ensures
        crate::database::opml::document_file(s, acc) == (OpmlView {
            folders: acc.folders,
            standalone_feeds: acc.standalone_feeds + fs.map_values(read_back_feed_fn()),
        }),
    decreases s.len(),
{
    if s.len() == 0 {
        assert(acc.standalone_feeds + fs.map_values(read_back_feed_fn()) =~= acc.standalone_feeds);
    } else {
        assert(saved_feed_outline(s[0], fs[0]));
        assert(legal_only(fs[0].url).len() > 0);
        assert(crate::database::opml::outline_feed(s[0]) == Some(read_back_feed(fs[0])));
        let d = s.drop_first();
        let g = fs.drop_first();
        assert forall|i: int| 0 <= i < d.len() implies #[trigger] saved_feed_outline(d[i], g[i]) by {
            assert(d[i] == s[i + 1]);
            assert(g[i] == fs[i + 1]);
        }
        assert(urls_survive(g)) by {
            assert forall|i: int| 0 <= i < g.len() implies legal_only(#[trigger] g[i].url).len() > 0 by {
                assert(g[i] == fs[i + 1]);
            }
        }
        let next = OpmlView { folders: acc.folders, standalone_feeds: acc.standalone_feeds.push(read_back_feed(fs[0])) };
        lemma_saved_feeds_read(d, g, next);
        assert(next.standalone_feeds + g.map_values(read_back_feed_fn()) =~= acc.standalone_feeds + fs.map_values(
            read_back_feed_fn(),
        ));
    }
}

proof fn lemma_saved_folders_read(s: Seq<Outline>, fos: Seq<FolderView>, rest: Seq<Outline>, acc: OpmlView)
    requires
        s.len() == fos.len(),
        forall|i: int| 0 <= i < s.len() ==> #[trigger] saved_folder_outline(s[i], fos[i]),
        forall|i: int| 0 <= i < fos.len() ==> urls_survive(#[trigger] fos[i].feeds),
    ensures
        crate::database::opml::document_file(s + rest, acc) == crate::database::opml::document_file(
            rest,
            OpmlView {
                folders: acc.folders + fos.map_values(|fo: FolderView| read_back_folder(fo)),
                standalone_feeds: acc.standalone_feeds,
            },
        ),
    decreases s.len(),
{
    if s.len() == 0 {
        assert(s + rest =~= rest);
        assert(acc.folders + fos.map_values(|fo: FolderView| read_back_folder(fo)) =~= acc.folders);
    } else {
        let o = s[0];
        let fo = fos[0];
        assert(saved_folder_outline(o, fo));
        assert(urls_survive(fo.feeds));
        assert forall|i: int| 0 <= i < o.outlines@.len() implies #[trigger] saved_feed_outline(o.outlines@[i], fo.feeds[i]) by {
        }
        lemma_saved_feeds_flatten(o.outlines@, fo.feeds, Seq::empty());
        assert(Seq::<FeedView>::empty() + fo.feeds.map_values(read_back_feed_fn()) =~= fo.feeds.map_values(read_back_feed_fn()));
        assert((s + rest)[0] == o);
        assert((s + rest).drop_first() =~= s.drop_first() + rest);
        let next = OpmlView { folders: acc.folders.push(read_back_folder(fo)), standalone_feeds: acc.standalone_feeds };
        let d = s.drop_first();
        let g = fos.drop_first();
        assert forall|i: int| 0 <= i < d.len() implies #[trigger] saved_folder_outline(d[i], g[i]) by {
            assert(d[i] == s[i + 1]);
            assert(g[i] == fos[i + 1]);
        }
        assert forall|i: int| 0 <= i < g.len() implies urls_survive(#[trigger] g[i].feeds) by {
            assert(g[i] == fos[i + 1]);
        }
        lemma_saved_folders_read(d, g, rest, next);
        assert(next.folders + g.map_values(|fo: FolderView| read_back_folder(fo)) =~= acc.folders + fos.map_values(
            |fo: FolderView| read_back_folder(fo),
        ));
    }
}

/// What the save path writes reads back as written, up to the filter to
/// legal XML characters: the document `opml_document_for_save` makes of a
/// list, read by `opml_file_from_document`, gives the same folders in the
/// same order with the same feeds, and the same top-level feeds, each
/// feed keyed and named as `read_back_feed` says, where every feed keeps a
/// URL after filtering. (Between the two stands the XML text of the
/// document, written and read by quick-xml.)
pub proof fn lemma_saved_document_reads_back(outlines: Seq<Outline>, file: OpmlView)
    requires
        outlines.len() == file.folders.len() + file.standalone_feeds.len(),
        forall|i: int| 0 <= i < file.folders.len() ==> #[trigger] saved_folder_outline(outlines[i], file.folders[i]),
        forall|i: int|
            0 <= i < file.standalone_feeds.len() ==> #[trigger] saved_feed_outline(
                outlines[file.folders.len() + i],
                file.standalone_feeds[i],
            ),
        forall|i: int| 0 <= i < file.folders.len() ==> urls_survive(#[trigger] file.folders[i].feeds),
        urls_survive(file.standalone_feeds),
    ensures
        crate::database::opml::document_file(outlines, crate::database::opml::empty_opml()) == (OpmlView {
            folders: file.folders.map_values(|fo: FolderView| read_back_folder(fo)),
            standalone_feeds: file.standalone_feeds.map_values(read_back_feed_fn()),
        }),
{
    let n = file.folders.len() as int;
    let a = outlines.take(n);
    let b = outlines.skip(n);
    assert(outlines =~= a + b);
    assert forall|i: int| 0 <= i < a.len() implies #[trigger] saved_folder_outline(a[i], file.folders[i]) by {
        assert(a[i] == outlines[i]);
    }
    assert forall|i: int| 0 <= i < b.len() implies #[trigger] saved_feed_outline(b[i], file.standalone_feeds[i]) by {
        assert(b[i] == outlines[n + i]);
    }
    let e = crate::database::opml::empty_opml();
    lemma_saved_folders_read(a, file.folders, b, e);
    let mid = OpmlView {
        folders: e.folders + file.folders.map_values(|fo: FolderView| read_back_folder(fo)),
        standalone_feeds: e.standalone_feeds,
    };
    lemma_saved_feeds_read(b, file.standalone_feeds, mid);
    assert(mid.folders =~= file.folders.map_values(|fo: FolderView| read_back_folder(fo)));
    assert(mid.standalone_feeds + file.standalone_feeds.map_values(read_back_feed_fn()) =~= file.standalone_feeds.map_values(
        read_back_feed_fn(),
    ));
}

} // verus!

