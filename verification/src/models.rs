//! Plain data shared across the library: feeds, folders, authors and
//! attachments, with their abstract views.
use vstd::prelude::*;

verus! {

/// The text view of an optional string.
pub open spec fn opt_view(o: Option<String>) -> Option<Seq<char>> {
    match o {
        Some(s) => Some(s@),
        None => None,
    }
}

/// Copies an optional string.
pub fn opt_clone(o: &Option<String>) -> (r: Option<String>)
    ensures
        opt_view(r) == opt_view(*o),
{
    match o {
        Some(s) => Some(s.clone()),
        None => None,
    }
}

/// The first present value of `a`, then `b` (`a.or(b)`).
pub open spec fn opt_or(a: Option<Seq<char>>, b: Option<Seq<char>>) -> Option<Seq<char>> {
    if a is Some {
        a
    } else {
        b
    }
}

/// `o` with an empty string treated as absent.
pub open spec fn non_empty(o: Option<Seq<char>>) -> Option<Seq<char>> {
    match o {
        Some(s) => if s.len() > 0 { Some(s) } else { None },
        None => None,
    }
}

pub fn non_empty_clone(o: &Option<String>) -> (r: Option<String>)
    ensures
        opt_view(r) == non_empty(opt_view(*o)),
{
    match o {
        Some(s) => if s.as_str().is_empty() { None } else { Some(s.clone()) },
        None => None,
    }
}

#[derive(Debug, Clone, PartialEq, Eq, Hash)]
pub struct Author {
    pub name: Option<String>,
    pub url: Option<String>,
    pub avatar_url: Option<String>,
    pub email: Option<String>,
}

pub struct AuthorView {
    pub name: Option<Seq<char>>,
    pub url: Option<Seq<char>>,
    pub avatar_url: Option<Seq<char>>,
    pub email: Option<Seq<char>>,
}

impl View for Author {
    type V = AuthorView;

    open spec fn view(&self) -> AuthorView {
        AuthorView {
            name: opt_view(self.name),
            url: opt_view(self.url),
            avatar_url: opt_view(self.avatar_url),
            email: opt_view(self.email),
        }
    }
}

/// An RSS `<enclosure>`, MRSS `<media:content>`/`<media:thumbnail>`,
/// Atom `<link rel="enclosure">` or JSON Feed attachment.
#[derive(Debug, Clone, PartialEq, Eq, Hash)]
pub struct Attachment {
    pub url: String,
    pub mime_type: Option<String>,
    pub title: Option<String>,
    pub size_in_bytes: Option<i64>,
    pub duration_in_seconds: Option<i64>,
}

pub struct AttachmentView {
    pub url: Seq<char>,
    pub mime_type: Option<Seq<char>>,
    pub title: Option<Seq<char>>,
    pub size_in_bytes: Option<i64>,
    pub duration_in_seconds: Option<i64>,
}

impl View for Attachment {
    type V = AttachmentView;

    open spec fn view(&self) -> AttachmentView {
        AttachmentView {
            url: self.url@,
            mime_type: opt_view(self.mime_type),
            title: opt_view(self.title),
            size_in_bytes: self.size_in_bytes,
            duration_in_seconds: self.duration_in_seconds,
        }
    }
}

#[derive(Debug, Clone, PartialEq)]
pub struct Feed {
    pub id: String,
    pub url: String,
    pub name: Option<String>,
    pub edited_name: Option<String>,
    pub home_page_url: Option<String>,
}

pub struct FeedView {
    pub id: Seq<char>,
    pub url: Seq<char>,
    pub name: Option<Seq<char>>,
    pub edited_name: Option<Seq<char>>,
    pub home_page_url: Option<Seq<char>>,
}

impl View for Feed {
    type V = FeedView;

    open spec fn view(&self) -> FeedView {
        FeedView {
            id: self.id@,
            url: self.url@,
            name: opt_view(self.name),
            edited_name: opt_view(self.edited_name),
            home_page_url: opt_view(self.home_page_url),
        }
    }
}

impl Feed {
    /// A field-by-field copy.
    pub fn duplicate(&self) -> (r: Feed)
        ensures
            r@ == self@,
    {
        Feed {
            id: self.id.clone(),
            url: self.url.clone(),
            name: opt_clone(&self.name),
            edited_name: opt_clone(&self.edited_name),
            home_page_url: opt_clone(&self.home_page_url),
        }
    }
}

#[derive(Debug, Clone, PartialEq)]
pub struct Folder {
    pub name: String,
    pub feeds: Vec<Feed>,
}

pub struct FolderView {
    pub name: Seq<char>,
    pub feeds: Seq<FeedView>,
}

pub open spec fn feeds_view(feeds: Seq<Feed>) -> Seq<FeedView> {
    feeds.map_values(|f: Feed| f@)
}

impl View for Folder {
    type V = FolderView;

    open spec fn view(&self) -> FolderView {
        FolderView { name: self.name@, feeds: feeds_view(self.feeds@) }
    }
}

pub open spec fn folders_view(folders: Seq<Folder>) -> Seq<FolderView> {
    folders.map_values(|f: Folder| f@)
}

/// Copies a list of feeds.
pub fn duplicate_feeds(feeds: &Vec<Feed>) -> (r: Vec<Feed>)
    ensures
        feeds_view(r@) == feeds_view(feeds@),
{
    let mut r: Vec<Feed> = Vec::new();
    let mut i: usize = 0;
    while i < feeds.len()
        invariant
            i <= feeds@.len(),
            r@.len() == i,
            forall|k: int| 0 <= k < i ==> #[trigger] r@[k]@ == feeds@[k]@,
        decreases feeds@.len() - i,
    {
        r.push(feeds[i].duplicate());
        i += 1;
    }
    assert(feeds_view(r@) =~= feeds_view(feeds@));
    r
}

impl Folder {
    /// A deep copy.
    pub fn duplicate(&self) -> (r: Folder)
        ensures
            r@ == self@,
    {
        Folder { name: self.name.clone(), feeds: duplicate_feeds(&self.feeds) }
    }
}

/// Copies a list of folders.
pub fn duplicate_folders(folders: &Vec<Folder>) -> (r: Vec<Folder>)
    ensures
        folders_view(r@) == folders_view(folders@),
{
    let mut r: Vec<Folder> = Vec::new();
    let mut i: usize = 0;
    while i < folders.len()
        invariant
            i <= folders@.len(),
            r@.len() == i,
            forall|k: int| 0 <= k < i ==> #[trigger] r@[k]@ == folders@[k]@,
        decreases folders@.len() - i,
    {
        r.push(folders[i].duplicate());
        i += 1;
    }
    assert(folders_view(r@) =~= folders_view(folders@));
    r
}

/// Per-feed state kept between refreshes. Times are milliseconds since
/// the Unix epoch (UTC).
#[derive(Debug, Clone, PartialEq)]
pub struct FeedSettings {
    pub feed_id: String,
    pub feed_url: String,
    pub home_page_url: Option<String>,
    pub icon_url: Option<String>,
    pub favicon_url: Option<String>,
    pub edited_name: Option<String>,
    pub content_hash: Option<String>,
    pub last_modified: Option<String>,
    pub etag: Option<String>,
    pub date_created: Option<i64>,
    pub max_age: Option<i64>,
    pub authors_json: Option<String>,
    pub folder_relationship_json: Option<String>,
    pub last_check_date: Option<i64>,
    pub reader_view_always_enabled: bool,
    pub new_article_notifications_enabled: bool,
    pub last_response_code: Option<i64>,
}

pub struct FeedSettingsView {
    pub feed_id: Seq<char>,
    pub feed_url: Seq<char>,
    pub home_page_url: Option<Seq<char>>,
    pub icon_url: Option<Seq<char>>,
    pub favicon_url: Option<Seq<char>>,
    pub edited_name: Option<Seq<char>>,
    pub content_hash: Option<Seq<char>>,
    pub last_modified: Option<Seq<char>>,
    pub etag: Option<Seq<char>>,
    pub date_created: Option<i64>,
    pub max_age: Option<i64>,
    pub authors_json: Option<Seq<char>>,
    pub folder_relationship_json: Option<Seq<char>>,
    pub last_check_date: Option<i64>,
    pub reader_view_always_enabled: bool,
    pub new_article_notifications_enabled: bool,
    pub last_response_code: Option<i64>,
}

impl View for FeedSettings {
    type V = FeedSettingsView;

    open spec fn view(&self) -> FeedSettingsView {
        FeedSettingsView {
            feed_id: self.feed_id@,
            feed_url: self.feed_url@,
            home_page_url: opt_view(self.home_page_url),
            icon_url: opt_view(self.icon_url),
            favicon_url: opt_view(self.favicon_url),
            edited_name: opt_view(self.edited_name),
            content_hash: opt_view(self.content_hash),
            last_modified: opt_view(self.last_modified),
            etag: opt_view(self.etag),
            date_created: self.date_created,
            max_age: self.max_age,
            authors_json: opt_view(self.authors_json),
            folder_relationship_json: opt_view(self.folder_relationship_json),
            last_check_date: self.last_check_date,
            reader_view_always_enabled: self.reader_view_always_enabled,
            new_article_notifications_enabled: self.new_article_notifications_enabled,
            last_response_code: self.last_response_code,
        }
    }
}

impl FeedSettings {
    /// A field-by-field copy.
    pub fn duplicate(&self) -> (r: FeedSettings)
        ensures
            r@ == self@,
    {
        FeedSettings {
            feed_id: self.feed_id.clone(),
            feed_url: self.feed_url.clone(),
            home_page_url: opt_clone(&self.home_page_url),
            icon_url: opt_clone(&self.icon_url),
            favicon_url: opt_clone(&self.favicon_url),
            edited_name: opt_clone(&self.edited_name),
            content_hash: opt_clone(&self.content_hash),
            last_modified: opt_clone(&self.last_modified),
            etag: opt_clone(&self.etag),
            date_created: self.date_created,
            max_age: self.max_age,
            authors_json: opt_clone(&self.authors_json),
            folder_relationship_json: opt_clone(&self.folder_relationship_json),
            last_check_date: self.last_check_date,
            reader_view_always_enabled: self.reader_view_always_enabled,
            new_article_notifications_enabled: self.new_article_notifications_enabled,
            last_response_code: self.last_response_code,
        }
    }
}

pub open spec fn authors_view(v: Seq<Author>) -> Seq<AuthorView> {
    v.map_values(|a: Author| a@)
}

pub open spec fn attachment_list_view(v: Seq<Attachment>) -> Seq<AttachmentView> {
    v.map_values(|a: Attachment| a@)
}

/// One item of a parsed feed. Dates are whole seconds since the Unix epoch
/// (UTC).
#[derive(Debug, Clone, Default, PartialEq)]
pub struct ParsedItem {
    pub id: String,
    pub title: Option<String>,
    pub content_html: Option<String>,
    pub content_text: Option<String>,
    pub url: Option<String>,
    pub external_url: Option<String>,
    pub summary: Option<String>,
    pub image_url: Option<String>,
    pub date_published: Option<i64>,
    pub date_modified: Option<i64>,
    pub authors: Vec<Author>,
    pub attachments: Vec<Attachment>,
}

pub struct ParsedItemView {
    pub id: Seq<char>,
    pub title: Option<Seq<char>>,
    pub content_html: Option<Seq<char>>,
    pub content_text: Option<Seq<char>>,
    pub url: Option<Seq<char>>,
    pub external_url: Option<Seq<char>>,
    pub summary: Option<Seq<char>>,
    pub image_url: Option<Seq<char>>,
    pub date_published: Option<i64>,
    pub date_modified: Option<i64>,
    pub authors: Seq<AuthorView>,
    pub attachments: Seq<AttachmentView>,
}

impl View for ParsedItem {
    type V = ParsedItemView;

    open spec fn view(&self) -> ParsedItemView {
        ParsedItemView {
            id: self.id@,
            title: opt_view(self.title),
            content_html: opt_view(self.content_html),
            content_text: opt_view(self.content_text),
            url: opt_view(self.url),
            external_url: opt_view(self.external_url),
            summary: opt_view(self.summary),
            image_url: opt_view(self.image_url),
            date_published: self.date_published,
            date_modified: self.date_modified,
            authors: authors_view(self.authors@),
            attachments: attachment_list_view(self.attachments@),
        }
    }
}

pub open spec fn parsed_items_view(v: Seq<ParsedItem>) -> Seq<ParsedItemView> {
    v.map_values(|p: ParsedItem| p@)
}

/// A parsed feed: its channel-level fields and its items in document order.
#[derive(Debug, Clone, Default, PartialEq)]
pub struct ParsedFeed {
    pub title: Option<String>,
    pub home_page_url: Option<String>,
    pub feed_url: Option<String>,
    pub icon_url: Option<String>,
    pub language: Option<String>,
    pub items: Vec<ParsedItem>,
}

pub struct ParsedFeedView {
    pub title: Option<Seq<char>>,
    pub home_page_url: Option<Seq<char>>,
    pub feed_url: Option<Seq<char>>,
    pub icon_url: Option<Seq<char>>,
    pub language: Option<Seq<char>>,
    pub items: Seq<ParsedItemView>,
}

impl View for ParsedFeed {
    type V = ParsedFeedView;

    open spec fn view(&self) -> ParsedFeedView {
        ParsedFeedView {
            title: opt_view(self.title),
            home_page_url: opt_view(self.home_page_url),
            feed_url: opt_view(self.feed_url),
            icon_url: opt_view(self.icon_url),
            language: opt_view(self.language),
            items: parsed_items_view(self.items@),
        }
    }
}

/// A stored article. Dates are whole seconds since the Unix epoch (UTC).
#[derive(Debug, Clone, PartialEq)]
pub struct Article {
    pub article_id: String,
    pub feed_id: String,
    pub title: Option<String>,
    pub content_html: Option<String>,
    pub content_text: Option<String>,
    pub url: Option<String>,
    pub external_url: Option<String>,
    pub summary: Option<String>,
    pub image_url: Option<String>,
    pub date_published: Option<i64>,
    pub date_modified: Option<i64>,
    pub authors: Vec<Author>,
    pub attachments: Vec<Attachment>,
}

pub struct ArticleView {
    pub article_id: Seq<char>,
    pub feed_id: Seq<char>,
    pub title: Option<Seq<char>>,
    pub content_html: Option<Seq<char>>,
    pub content_text: Option<Seq<char>>,
    pub url: Option<Seq<char>>,
    pub external_url: Option<Seq<char>>,
    pub summary: Option<Seq<char>>,
    pub image_url: Option<Seq<char>>,
    pub date_published: Option<i64>,
    pub date_modified: Option<i64>,
    pub authors: Seq<AuthorView>,
    pub attachments: Seq<AttachmentView>,
}

impl View for Article {
    type V = ArticleView;

    open spec fn view(&self) -> ArticleView {
        ArticleView {
            article_id: self.article_id@,
            feed_id: self.feed_id@,
            title: opt_view(self.title),
            content_html: opt_view(self.content_html),
            content_text: opt_view(self.content_text),
            url: opt_view(self.url),
            external_url: opt_view(self.external_url),
            summary: opt_view(self.summary),
            image_url: opt_view(self.image_url),
            date_published: self.date_published,
            date_modified: self.date_modified,
            authors: authors_view(self.authors@),
            attachments: attachment_list_view(self.attachments@),
        }
    }
}

pub open spec fn articles_view(v: Seq<Article>) -> Seq<ArticleView> {
    v.map_values(|a: Article| a@)
}

impl Author {
    /// A field-by-field copy.
    pub fn duplicate(&self) -> (r: Author)
        ensures
            r@ == self@,
    {
        Author {
            name: opt_clone(&self.name),
            url: opt_clone(&self.url),
            avatar_url: opt_clone(&self.avatar_url),
            email: opt_clone(&self.email),
        }
    }
}

impl Attachment {
    /// A field-by-field copy.
    pub fn duplicate(&self) -> (r: Attachment)
        ensures
            r@ == self@,
    {
        Attachment {
            url: self.url.clone(),
            mime_type: opt_clone(&self.mime_type),
            title: opt_clone(&self.title),
            size_in_bytes: self.size_in_bytes,
            duration_in_seconds: self.duration_in_seconds,
        }
    }
}

pub fn duplicate_authors(v: &Vec<Author>) -> (r: Vec<Author>)
    ensures
        authors_view(r@) == authors_view(v@),
{
    let mut r: Vec<Author> = Vec::new();
    let mut i: usize = 0;
    while i < v.len()
        invariant
            i <= v@.len(),
            r@.len() == i,
            forall|k: int| 0 <= k < i ==> #[trigger] r@[k]@ == v@[k]@,
        decreases v@.len() - i,
    {
        r.push(v[i].duplicate());
        i += 1;
    }
    assert(authors_view(r@) =~= authors_view(v@));
    r
}

pub fn duplicate_attachments(v: &Vec<Attachment>) -> (r: Vec<Attachment>)
    ensures
        attachment_list_view(r@) == attachment_list_view(v@),
{
    let mut r: Vec<Attachment> = Vec::new();
    let mut i: usize = 0;
    while i < v.len()
        invariant
            i <= v@.len(),
            r@.len() == i,
            forall|k: int| 0 <= k < i ==> #[trigger] r@[k]@ == v@[k]@,
        decreases v@.len() - i,
    {
        r.push(v[i].duplicate());
        i += 1;
    }
    assert(attachment_list_view(r@) =~= attachment_list_view(v@));
    r
}

impl Article {
    /// A deep copy.
    pub fn duplicate(&self) -> (r: Article)
        ensures
            r@ == self@,
    {
        Article {
            article_id: self.article_id.clone(),
            feed_id: self.feed_id.clone(),
            title: opt_clone(&self.title),
            content_html: opt_clone(&self.content_html),
            content_text: opt_clone(&self.content_text),
            url: opt_clone(&self.url),
            external_url: opt_clone(&self.external_url),
            summary: opt_clone(&self.summary),
            image_url: opt_clone(&self.image_url),
            date_published: self.date_published,
            date_modified: self.date_modified,
            authors: duplicate_authors(&self.authors),
            attachments: duplicate_attachments(&self.attachments),
        }
    }
}

} // verus!
