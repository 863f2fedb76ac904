use viaduct_core::database::opml::{
    escape_xml, merge_opml, normalize_opml, opml_document_for_save, opml_file_from_document, serialize_account_opml,
    sync_inoreader_account, walk_top_level, Body, Head, OpmlDocument, OpmlFile, Outline,
};
use viaduct_core::models::{Feed, Folder};
use viaduct_core::network::inoreader::{ReaderAPISubscription, ReaderAPITag};

fn feed(url: &str, name: &str) -> Feed {
    Feed {
        id: url.to_string(),
        url: url.to_string(),
        name: Some(name.to_string()),
        edited_name: None,
        home_page_url: None,
    }
}

fn rss_outline(title: &str, url: &str) -> Outline {
    Outline {
        text: None,
        title: Some(title.into()),
        type_: Some("rss".into()),
        xml_url: Some(url.into()),
        html_url: None,
        outlines: Vec::new(),
    }
}

#[test]
fn normalize_drops_nameless_wrapper() {
    let outlines = vec![Outline {
        text: None,
        title: None,
        type_: None,
        xml_url: None,
        html_url: None,
        outlines: vec![rss_outline("A", "https://a/feed"), rss_outline("B", "https://b/feed")],
    }];
    let mut folders = Vec::new();
    let mut standalone = Vec::new();
    let mut seen = Vec::new();
    walk_top_level(&outlines, &mut folders, &mut standalone, &mut seen);
    assert!(folders.is_empty());
    assert_eq!(standalone.len(), 2);
    assert_eq!(standalone[0].url, "https://a/feed");
    assert_eq!(standalone[1].url, "https://b/feed");
}

#[test]
fn normalize_flattens_nested_folders() {
    let outlines = vec![Outline {
        text: None,
        title: Some("Tech".into()),
        type_: None,
        xml_url: None,
        html_url: None,
        outlines: vec![
            rss_outline("X", "https://x/feed"),
            Outline {
                text: None,
                title: Some("Subgroup".into()),
                type_: None,
                xml_url: None,
                html_url: None,
                outlines: vec![rss_outline("Y", "https://y/feed")],
            },
        ],
    }];
    let mut folders = Vec::new();
    let mut standalone = Vec::new();
    let mut seen = Vec::new();
    walk_top_level(&outlines, &mut folders, &mut standalone, &mut seen);
    assert_eq!(folders.len(), 1);
    assert_eq!(folders[0].name, "Tech");
    let urls: Vec<&str> = folders[0].feeds.iter().map(|f| f.url.as_str()).collect();
    assert_eq!(urls, vec!["https://x/feed", "https://y/feed"]);
    assert!(standalone.is_empty());
}

#[test]
fn normalize_dedups_feeds_within_folder() {
    let outlines = vec![Outline {
        text: None,
        title: Some("News".into()),
        type_: None,
        xml_url: None,
        html_url: None,
        outlines: vec![rss_outline("dup", "https://x/feed"), rss_outline("dup", "https://x/feed")],
    }];
    let mut folders = Vec::new();
    let mut standalone = Vec::new();
    let mut seen = Vec::new();
    walk_top_level(&outlines, &mut folders, &mut standalone, &mut seen);
    assert_eq!(folders[0].feeds.len(), 1);
    let _ = standalone;
}

#[test]
fn merge_appends_only_new_feeds() {
    let existing = OpmlFile {
        folders: vec![Folder { name: "News".into(), feeds: vec![feed("https://a", "A")] }],
        standalone_feeds: vec![feed("https://x", "X")],
    };
    let incoming = OpmlFile {
        folders: vec![Folder { name: "News".into(), feeds: vec![feed("https://a", "A-renamed"), feed("https://b", "B")] }],
        standalone_feeds: vec![feed("https://x", "X-renamed"), feed("https://y", "Y")],
    };
    let (merged, added) = merge_opml(&existing, incoming);
    assert_eq!(merged.standalone_feeds.len(), 2);
    assert_eq!(merged.standalone_feeds[0].name.as_deref(), Some("X"));
    assert_eq!(merged.standalone_feeds[1].url, "https://y");
    assert_eq!(merged.folders.len(), 1);
    assert_eq!(merged.folders[0].feeds.len(), 2);
    assert_eq!(merged.folders[0].feeds[0].name.as_deref(), Some("A"));
    assert_eq!(merged.folders[0].feeds[1].url, "https://b");
    let added_urls: Vec<&str> = added.iter().map(|f| f.url.as_str()).collect();
    assert_eq!(added_urls, vec!["https://y", "https://b"]);
}

#[test]
fn merge_creates_missing_folder() {
    let existing = OpmlFile { folders: Vec::new(), standalone_feeds: Vec::new() };
    let incoming = OpmlFile {
        folders: vec![Folder { name: "New".into(), feeds: vec![feed("https://a", "A")] }],
        standalone_feeds: Vec::new(),
    };
    let (merged, added) = merge_opml(&existing, incoming);
    assert_eq!(merged.folders.len(), 1);
    assert_eq!(merged.folders[0].name, "New");
    assert_eq!(added.len(), 1);
}

#[test]
fn export_matches_nnw_shape() {
    let file = OpmlFile {
        folders: vec![Folder {
            name: "Tech & News".into(),
            feeds: vec![Feed {
                id: "https://a".into(),
                url: "https://a".into(),
                name: Some("A".into()),
                edited_name: None,
                home_page_url: Some("https://a.example".into()),
            }],
        }],
        standalone_feeds: vec![Feed {
            id: "https://b".into(),
            url: "https://b".into(),
            name: Some("B".into()),
            edited_name: Some("Bee".into()),
            home_page_url: None,
        }],
    };
    let s = serialize_account_opml("export.opml", &file);
    assert!(s.starts_with("<?xml version=\"1.0\" encoding=\"UTF-8\"?>\n"));
    assert!(s.contains("<!-- OPML generated by viaduct -->"));
    assert!(s.contains("<title>export.opml</title>"));
    assert!(s.contains("Tech &amp; News"));
    assert!(s.contains(
        "<outline text=\"Bee\" title=\"Bee\" description=\"\" type=\"rss\" version=\"RSS\" htmlUrl=\"\" xmlUrl=\"https://b\"/>"
    ));
    assert!(s.ends_with("</opml>"));
}

#[test]
fn escape_xml_and_serialize_drop_illegal_xml_characters() {
    let dirty = "a\u{0}b\u{1F}c\td\ne\rf\u{7}g";
    assert_eq!(escape_xml(dirty), "abc\td\ne\rfg");
    assert_eq!(escape_xml("a&b<c>"), "a&amp;b&lt;c&gt;");

    let file = OpmlFile {
        folders: vec![Folder {
            name: "f\u{2}lder".into(),
            feeds: vec![Feed {
                id: "https://x".into(),
                url: "https://x\u{3}/feed".into(),
                name: Some("n\u{4}me".into()),
                edited_name: None,
                home_page_url: None,
            }],
        }],
        standalone_feeds: vec![],
    };
    let doc = opml_document_for_save(&file);
    let texts: Vec<&str> = doc.body.outlines.iter().flat_map(|o| {
        let mut v: Vec<&str> = Vec::new();
        v.extend(o.title.as_deref());
        for c in &o.outlines {
            v.extend(c.title.as_deref());
            v.extend(c.xml_url.as_deref());
        }
        v
    }).collect();
    assert!(texts.iter().all(|t| !t.contains('\u{2}') && !t.contains('\u{3}') && !t.contains('\u{4}')));
    let reparsed = opml_file_from_document(&doc);
    assert_eq!(reparsed.folders[0].name, "flder");
    assert_eq!(reparsed.folders[0].feeds[0].name.as_deref(), Some("nme"));
}

fn sub(id: &str, title: &str, categories: &[&str]) -> ReaderAPISubscription {
    ReaderAPISubscription {
        feed_id: id.to_string(),
        title: title.to_string(),
        categories: categories
            .iter()
            .map(|c| ReaderAPITag { id: format!("user/-/label/{c}"), sortid: None })
            .collect(),
        url: format!("https://{id}/feed"),
        html_url: Some(format!("https://{id}")),
        icon_url: None,
    }
}

fn server_tag(name: &str) -> ReaderAPITag {
    ReaderAPITag { id: format!("user/1234/label/{name}"), sortid: None }
}

#[test]
fn sync_preserves_edited_name_and_skips_empty_title() {
    let existing = OpmlFile {
        folders: vec![],
        standalone_feeds: vec![Feed {
            id: "feed/1".into(),
            url: "https://one/feed".into(),
            name: Some("Old Name".into()),
            edited_name: Some("My Name".into()),
            home_page_url: None,
        }],
    };
    let subs = vec![sub("feed/1", "", &[])];
    let out = sync_inoreader_account(&existing, subs, vec![]);
    assert_eq!(out.standalone_feeds.len(), 1);
    assert_eq!(out.standalone_feeds[0].name.as_deref(), Some("Old Name"));
    assert_eq!(out.standalone_feeds[0].edited_name.as_deref(), Some("My Name"));

    let subs = vec![sub("feed/1", "Server Name", &[])];
    let out = sync_inoreader_account(&existing, subs, vec![]);
    assert_eq!(out.standalone_feeds[0].name.as_deref(), Some("Server Name"));
    assert_eq!(out.standalone_feeds[0].edited_name.as_deref(), Some("My Name"));
}

#[test]
fn sync_feed_with_unknown_folder_goes_top_level_not_dropped() {
    let existing = OpmlFile { folders: vec![], standalone_feeds: vec![] };
    let subs = vec![sub("feed/1", "One", &["Ghost Folder"])];
    let out = sync_inoreader_account(&existing, subs, vec![server_tag("Other")]);
    assert!(out.standalone_feeds.iter().any(|f| f.id == "feed/1"));
    assert!(out.folders.iter().all(|f| f.name != "Ghost Folder"));
}

#[test]
fn sync_keeps_local_only_folder_and_its_feed() {
    let existing = OpmlFile {
        folders: vec![Folder {
            name: "New Folder".into(),
            feeds: vec![Feed {
                id: "feed/1".into(),
                url: "https://one/feed".into(),
                name: Some("One".into()),
                edited_name: None,
                home_page_url: None,
            }],
        }],
        standalone_feeds: vec![],
    };
    let subs = vec![sub("feed/1", "One", &[])];
    let out = sync_inoreader_account(&existing, subs, vec![]);
    assert_eq!(out.folders.len(), 1);
    assert_eq!(out.folders[0].name, "New Folder");
    assert_eq!(out.folders[0].feeds.len(), 1);
    assert_eq!(out.folders[0].feeds[0].id, "feed/1");
    assert!(out.standalone_feeds.is_empty());

    let subs = vec![sub("feed/1", "One", &["Server Folder"])];
    let out = sync_inoreader_account(&existing, subs, vec![server_tag("Server Folder")]);
    assert!(out
        .folders
        .iter()
        .any(|f| f.name == "Server Folder" && f.feeds.iter().any(|f| f.id == "feed/1")));
    let local = out.folders.iter().find(|f| f.name == "New Folder").unwrap();
    assert!(local.feeds.is_empty());
}

#[test]
fn sync_drops_unsubscribed_feed_from_local_folder() {
    let existing = OpmlFile {
        folders: vec![Folder {
            name: "Local".into(),
            feeds: vec![Feed {
                id: "feed/1".into(),
                url: "https://one/feed".into(),
                name: Some("One".into()),
                edited_name: None,
                home_page_url: None,
            }],
        }],
        standalone_feeds: vec![],
    };
    let subs = vec![sub("feed/2", "Two", &[])];
    let out = sync_inoreader_account(&existing, subs, vec![]);
    let local = out.folders.iter().find(|f| f.name == "Local").unwrap();
    assert!(local.feeds.is_empty());
    assert_eq!(out.standalone_feeds.len(), 1);
}

#[test]
fn sync_state_tags_are_not_folders() {
    let existing = OpmlFile { folders: vec![], standalone_feeds: vec![] };
    let tags = vec![
        ReaderAPITag { id: "user/1234/state/com.google/starred".into(), sortid: None },
        server_tag("Tech"),
    ];
    let out = sync_inoreader_account(&existing, vec![sub("feed/9", "Nine", &["Tech", "Tech"])], tags);
    assert_eq!(out.folders.len(), 1);
    assert_eq!(out.folders[0].name, "Tech");
    assert_eq!(out.folders[0].feeds.len(), 1);
    assert!(out.standalone_feeds.is_empty());
}

#[test]
fn normalize_renames_and_dedups_imported_file() {
    let file = OpmlFile {
        folders: vec![Folder {
            name: "F".into(),
            feeds: vec![feed("https://a", "A"), feed("https://a", "A2"), feed("", "empty")],
        }],
        standalone_feeds: vec![
            Feed {
                id: "x".into(),
                url: "https://x".into(),
                name: Some("X".into()),
                edited_name: Some("Edited".into()),
                home_page_url: Some("".into()),
            },
            feed("https://x", "again"),
        ],
    };
    let out = normalize_opml(file);
    assert_eq!(out.standalone_feeds.len(), 1);
    assert_eq!(out.standalone_feeds[0].id, "https://x");
    assert_eq!(out.standalone_feeds[0].name.as_deref(), Some("Edited"));
    assert_eq!(out.standalone_feeds[0].edited_name, None);
    assert_eq!(out.standalone_feeds[0].home_page_url, None);
    assert_eq!(out.folders.len(), 1);
    assert_eq!(out.folders[0].feeds.len(), 1);
    assert_eq!(out.folders[0].feeds[0].name.as_deref(), Some("A"));
}

#[test]
fn document_folders_without_names_get_default_name() {
    let doc = OpmlDocument {
        version: "1.0".into(),
        head: Head { title: None },
        body: Body {
            outlines: vec![
                rss_outline("Top", "https://top"),
                Outline {
                    text: None,
                    title: None,
                    type_: None,
                    xml_url: Some("".into()),
                    html_url: None,
                    outlines: vec![Outline {
                        text: Some("Inner".into()),
                        title: None,
                        type_: None,
                        xml_url: None,
                        html_url: None,
                        outlines: vec![rss_outline("Deep", "https://deep")],
                    }],
                },
            ],
        },
    };
    let file = opml_file_from_document(&doc);
    assert_eq!(file.standalone_feeds.len(), 1);
    assert_eq!(file.folders.len(), 1);
    assert_eq!(file.folders[0].name, "Unnamed Folder");
    assert_eq!(file.folders[0].feeds.len(), 1);
    assert_eq!(file.folders[0].feeds[0].url, "https://deep");
}

#[test]
fn merging_the_same_list_twice_adds_nothing_more() {
    let existing = OpmlFile {
        folders: vec![Folder { name: "News".into(), feeds: vec![feed("https://a", "A")] }],
        standalone_feeds: vec![feed("https://x", "X")],
    };
    let incoming = || OpmlFile {
        folders: vec![
            Folder { name: "News".into(), feeds: vec![feed("https://b", "B")] },
            Folder { name: "Fresh".into(), feeds: vec![feed("https://c", "C"), feed("https://c", "C2")] },
        ],
        standalone_feeds: vec![feed("https://y", "Y")],
    };
    let (once, added) = merge_opml(&existing, incoming());
    assert_eq!(added.len(), 3);
    let (twice, added_again) = merge_opml(&once, incoming());
    assert!(added_again.is_empty());
    assert_eq!(twice.standalone_feeds, once.standalone_feeds);
    assert_eq!(twice.folders, once.folders);
}

#[test]
fn export_does_not_depend_on_list_order() {
    let a = OpmlFile {
        folders: vec![
            Folder { name: "Tech".into(), feeds: vec![feed("https://t2", "Beta"), feed("https://t1", "alpha")] },
            Folder { name: "News".into(), feeds: vec![feed("https://n1", "N")] },
        ],
        standalone_feeds: vec![feed("https://z", "Zed"), feed("https://a", "Ay")],
    };
    let b = OpmlFile {
        folders: vec![
            Folder { name: "News".into(), feeds: vec![feed("https://n1", "N")] },
            Folder { name: "Tech".into(), feeds: vec![feed("https://t1", "alpha"), feed("https://t2", "Beta")] },
        ],
        standalone_feeds: vec![feed("https://a", "Ay"), feed("https://z", "Zed")],
    };
    let out = serialize_account_opml("Subs", &a);
    assert_eq!(out, serialize_account_opml("Subs", &b));
    let ay = out.find("xmlUrl=\"https://a\"").unwrap();
    let zed = out.find("xmlUrl=\"https://z\"").unwrap();
    let news = out.find("text=\"News\"").unwrap();
    let tech = out.find("text=\"Tech\"").unwrap();
    assert!(ay < zed && zed < news && news < tech);
}

#[test]
fn saved_document_reads_back_as_written() {
    let file = OpmlFile {
        folders: vec![Folder {
            name: "f\u{2}lder".into(),
            feeds: vec![Feed {
                id: "https://x".into(),
                url: "https://x\u{3}/feed".into(),
                name: Some("n\u{4}me".into()),
                edited_name: Some("ignored".into()),
                home_page_url: Some("\u{5}".into()),
            }],
        }],
        standalone_feeds: vec![feed("https://top", "Top")],
    };
    let back = opml_file_from_document(&opml_document_for_save(&file));
    assert_eq!(back.folders.len(), 1);
    assert_eq!(back.folders[0].name, "flder");
    assert_eq!(back.folders[0].feeds[0].url, "https://x/feed");
    assert_eq!(back.folders[0].feeds[0].id, "https://x/feed");
    assert_eq!(back.folders[0].feeds[0].name.as_deref(), Some("nme"));
    assert_eq!(back.folders[0].feeds[0].edited_name, None);
    assert_eq!(back.folders[0].feeds[0].home_page_url, None);
    assert_eq!(back.standalone_feeds.len(), 1);
    assert_eq!(back.standalone_feeds[0].url, "https://top");
}
