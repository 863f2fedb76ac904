use viaduct_core::database::accounts::{opml_feed_ids, opml_feed_urls};
use viaduct_core::database::opml::OpmlFile;
use viaduct_core::models::{Feed, Folder};

fn feed(id: &str, url: &str) -> Feed {
    Feed { id: id.to_string(), url: url.to_string(), name: Some(url.to_string()), edited_name: None, home_page_url: None }
}

fn sample() -> OpmlFile {
    OpmlFile {
        folders: vec![
            Folder { name: "News".into(), feeds: vec![feed("n1", "https://n1"), feed("x", "https://x")] },
            Folder { name: "Tech".into(), feeds: vec![feed("t1", "https://t1")] },
        ],
        standalone_feeds: vec![feed("s1", "https://s1"), feed("x2", "https://x")],
    }
}

#[test]
fn feed_urls_and_ids_list_top_level_then_folders() {
    let f = sample();
    assert_eq!(opml_feed_urls(&f), vec!["https://s1", "https://x", "https://n1", "https://x", "https://t1"]);
    assert_eq!(opml_feed_ids(&f), vec!["s1", "x2", "n1", "x", "t1"]);
}

#[test]
fn add_feed_dedupes_by_url_and_creates_folders() {
    let mut f = sample();
    let existing = f.add_feed("https://s1".into(), Some("Other".into()), None, None);
    assert_eq!(existing.id, "s1");
    assert_eq!(f.standalone_feeds.len(), 2);
    let new = f.add_feed("https://new".into(), Some("New".into()), Some("https://home".into()), Some("Fresh".into()));
    assert_eq!(new.id, "https://new");
    assert_eq!(f.folders.len(), 3);
    assert_eq!(f.folders[2].name, "Fresh");
    assert_eq!(f.folders[2].feeds[0].home_page_url.as_deref(), Some("https://home"));
    f.add_feed("https://t2".into(), None, None, Some("Tech".into()));
    assert_eq!(f.folders[1].feeds.len(), 2);
}

#[test]
fn remove_feed_sweeps_every_location() {
    let mut f = sample();
    assert!(f.remove_feed("https://x"));
    assert_eq!(f.standalone_feeds.len(), 1);
    assert_eq!(f.folders[0].feeds.len(), 1);
    assert!(!f.remove_feed("https://x"));
    assert!(f.remove_feed("https://t1"));
    assert_eq!(f.folders.len(), 2);
    assert!(f.folders[1].feeds.is_empty());
}

#[test]
fn rename_feed_trims_and_clears() {
    let mut f = sample();
    assert!(f.rename_feed("https://x", "  Mine  ".into()));
    assert_eq!(f.standalone_feeds[1].edited_name.as_deref(), Some("Mine"));
    assert_eq!(f.folders[0].feeds[1].edited_name.as_deref(), Some("Mine"));
    assert!(f.rename_feed("https://x", "   ".into()));
    assert_eq!(f.standalone_feeds[1].edited_name, None);
    assert!(!f.rename_feed("https://nowhere", "Name".into()));
}

#[test]
fn create_folder_rejects_blank_and_duplicates() {
    let mut f = sample();
    assert!(!f.create_folder("   ".into()));
    assert!(!f.create_folder(" News ".into()));
    assert!(f.create_folder(" Later ".into()));
    assert_eq!(f.folders.last().unwrap().name, "Later");
}

#[test]
fn move_feed_between_places() {
    let mut f = sample();
    assert!(f.move_feed_to_folder("https://s1", Some("Tech".into())));
    assert_eq!(f.standalone_feeds.len(), 1);
    assert_eq!(f.folders[1].feeds.last().unwrap().id, "s1");
    assert!(!f.move_feed_to_folder("https://s1", Some("Tech".into())));
    assert!(f.move_feed_to_folder("https://t1", None));
    assert_eq!(f.standalone_feeds.last().unwrap().id, "t1");
    assert!(f.move_feed_to_folder("https://n1", Some("Brand New".into())));
    assert_eq!(f.folders.last().unwrap().name, "Brand New");
    assert!(!f.move_feed_to_folder("https://missing", None));
}

#[test]
fn moving_a_url_listed_twice_leaves_one_copy() {
    // "https://x" is at the top level and in News; the top-level copy is
    // the one moved, and every other copy is swept.
    let mut f = sample();
    assert!(f.move_feed_to_folder("https://x", Some("Tech".into())));
    let count = |f: &OpmlFile| {
        f.standalone_feeds.iter().filter(|x| x.url == "https://x").count()
            + f.folders.iter().map(|fo| fo.feeds.iter().filter(|x| x.url == "https://x").count()).sum::<usize>()
    };
    assert_eq!(count(&f), 1);
    assert_eq!(f.folders[1].feeds.last().unwrap().id, "x2");
    assert_eq!(f.folders[0].feeds.len(), 1);
    assert_eq!(f.standalone_feeds.len(), 1);

    let mut g = sample();
    assert!(g.move_feed_to_folder("https://x", None) == false);
    assert_eq!(g.standalone_feeds.iter().filter(|x| x.url == "https://x").count(), 1);
    assert!(g.folders[0].feeds.iter().all(|x| x.url != "https://x"));
}
