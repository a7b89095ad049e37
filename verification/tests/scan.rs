use audiobook_tagger::cache::MetadataCache;
use audiobook_tagger::cancel::{is_cancelled, set_cancellation_flag, CancellationFlag};
use audiobook_tagger::model::{BookGroup, BookMetadata, FileTags, GroupType, RawFileData};
use audiobook_tagger::scan::{Scan, ScanAction, ScanConfig, ScanEvent};
use audiobook_tagger::sources::{AudibleMetadata, GoogleMetadata};

fn file(path: &str, filename: &str, title: Option<&str>, artist: Option<&str>) -> RawFileData {
    let mut tags = FileTags::empty();
    tags.title = title.map(|t| t.to_string());
    tags.artist = artist.map(|t| t.to_string());
    RawFileData {
        id: format!("id:{}", path),
        path: path.to_string(),
        filename: filename.to_string(),
        tags,
    }
}

fn meta(title: &str) -> BookMetadata {
    BookMetadata {
        title: title.to_string(),
        subtitle: None,
        author: "Mary Pope Osborne".to_string(),
        narrator: None,
        series: None,
        sequence: None,
        genres: vec![],
        publisher: None,
        year: None,
        description: None,
        isbn: None,
    }
}

struct Calls {
    identity: usize,
    audible: usize,
    google: usize,
    merge: usize,
    reports: Vec<(usize, usize, String, bool)>,
}

/// Drives a scan to its end with collaborators that answer from the given
/// closures, and counts what was asked of them.
fn drive(
    scan: Scan,
    mut identity: impl FnMut(&str) -> Option<String>,
    mut audible: impl FnMut(&str, &str) -> Option<AudibleMetadata>,
    mut google: impl FnMut(&str, &str) -> Option<GoogleMetadata>,
    mut merge: impl FnMut(&str) -> Option<BookMetadata>,
) -> (Vec<BookGroup>, MetadataCache, Calls) {
    let mut calls = Calls { identity: 0, audible: 0, google: 0, merge: 0, reports: vec![] };
    let mut scan = scan;
    let mut event = ScanEvent::Next { cancelled: false };
    loop {
        let (next, action) = scan.advance(event, 1000);
        scan = next;
        event = match action {
            ScanAction::AskIdentity { prompt } => {
                calls.identity += 1;
                ScanEvent::Identity { reply: identity(&prompt) }
            }
            ScanAction::AskAudible { title, author } => {
                calls.audible += 1;
                ScanEvent::Audible { found: audible(&title, &author) }
            }
            ScanAction::AskGoogle { title, author } => {
                calls.google += 1;
                ScanEvent::Google { candidate: google(&title, &author) }
            }
            ScanAction::AskMerge { prompt } => {
                calls.merge += 1;
                ScanEvent::Merged { reconciled: merge(&prompt) }
            }
            ScanAction::Report { current, total, group_name, cached } => {
                calls.reports.push((current, total, group_name, cached));
                ScanEvent::Next { cancelled: false }
            }
            ScanAction::Finished => break,
            ScanAction::Unexpected => panic!("the scan did not expect its own answer"),
        };
    }
    assert!(scan.is_finished());
    let (groups, cache) = scan.into_results();
    (groups, cache, calls)
}

const OFFLINE: ScanConfig = ScanConfig { use_completion: false, use_audible: false, max_attempts: 3 };
const ONLINE: ScanConfig = ScanConfig { use_completion: true, use_audible: true, max_attempts: 3 };

#[test]
fn two_chapters_with_one_title_form_one_group_in_filename_order() {
    let files = vec![
        file("/lib/Book/02.mp3", "02.mp3", Some("Ch1"), None),
        file("/lib/Book/01.mp3", "01.mp3", Some("Ch1"), None),
    ];
    let scan = Scan::new(&files, MetadataCache::new(), OFFLINE);
    assert_eq!(scan.total(), 1);
    let (groups, cache, calls) =
        drive(scan, |_| None, |_, _| None, |_, _| None, |_| None);
    assert_eq!(groups.len(), 1);
    assert_eq!(groups[0].id, "0");
    assert_eq!(groups[0].group_name, "Book");
    assert_eq!(groups[0].group_type, GroupType::Chapters);
    let names: Vec<&str> = groups[0].files.iter().map(|f| f.filename.as_str()).collect();
    assert_eq!(names, vec!["01.mp3", "02.mp3"]);
    assert_eq!(groups[0].metadata.title, "Ch1");
    assert_eq!(groups[0].metadata.author, "Unknown");
    assert_eq!(groups[0].total_changes, 0);
    assert_eq!((calls.identity, calls.audible, calls.google, calls.merge), (0, 0, 1, 0));
    assert_eq!(calls.reports, vec![(1, 1, "Book".to_string(), false)]);
    assert_eq!(cache.lookup("ch1", "unknown"), Some(groups[0].metadata.clone()));
    assert_eq!(cache.entry_at(0).timestamp, 1000);
}

#[test]
fn cache_hit_asks_no_collaborator() {
    let mut cache = MetadataCache::new();
    let mut cached = meta("Dinosaurs Before Dark");
    cached.narrator = Some("Mary".to_string());
    cache.store("Dinosaurs Before Dark", "Mary Pope Osborne", cached.clone(), 5);
    let files = vec![file(
        "/lib/MTH 1/01.mp3",
        "01.mp3",
        Some("Dinosaurs Before Dark"),
        Some("Mary Pope Osborne"),
    )];
    let scan = Scan::new(&files, cache, ONLINE);
    let (groups, cache, calls) = drive(
        scan,
        |_| panic!("identity asked"),
        |_, _| panic!("audible asked"),
        |_, _| panic!("google asked"),
        |_| panic!("merge asked"),
    );
    assert_eq!((calls.identity, calls.audible, calls.google, calls.merge), (0, 0, 0, 0));
    assert_eq!(groups.len(), 1);
    assert_eq!(groups[0].metadata, cached);
    assert_eq!(groups[0].group_type, GroupType::Single);
    assert_eq!(groups[0].total_changes, 1);
    assert_eq!(groups[0].files[0].status, "changed");
    assert!(groups[0].files[0].changes.contains_key("narrator"));
    assert_eq!(calls.reports, vec![(1, 1, "MTH 1".to_string(), true)]);
    assert_eq!(cache.len(), 1);
    assert_eq!(cache.entry_at(0).timestamp, 5);
}

#[test]
fn cache_hit_after_identity_extraction_skips_sources_and_merge() {
    let mut cache = MetadataCache::new();
    cache.store("Dinosaurs Before Dark", "Mary Pope Osborne", meta("Dinosaurs Before Dark"), 5);
    let files = vec![file("/lib/MTH 1/01.mp3", "01.mp3", Some("Track 1"), None)];
    let scan = Scan::new(&files, cache, ONLINE);
    let (groups, _, calls) = drive(
        scan,
        |_| Some("{\"book_title\":\"Dinosaurs Before Dark\",\"author\":\"Mary Pope Osborne\"}".to_string()),
        |_, _| panic!("audible asked"),
        |_, _| panic!("google asked"),
        |_| panic!("merge asked"),
    );
    assert_eq!((calls.identity, calls.audible, calls.google, calls.merge), (1, 0, 0, 0));
    assert_eq!(groups[0].metadata.title, "Dinosaurs Before Dark");
    assert_eq!(calls.reports[0].3, true);
}

#[test]
fn poor_merges_are_retried_up_to_the_bound_and_the_last_is_kept() {
    let files = vec![file("/lib/Dawn/01.mp3", "01.mp3", Some("Dawn"), Some("Ann"))];
    let scan = Scan::new(&files, MetadataCache::new(), ONLINE);
    let mut attempt = 0;
    let (groups, cache, calls) = drive(
        scan,
        |_| None,
        |_, _| None,
        |_, _| None,
        |_| {
            attempt += 1;
            Some(meta(&format!("Dawn, attempt {}", attempt)))
        },
    );
    assert_eq!(calls.merge, 3);
    assert_eq!((calls.identity, calls.audible, calls.google), (1, 1, 1));
    assert_eq!(groups.len(), 1);
    assert_eq!(groups[0].metadata.title, "Dawn, attempt 3");
    assert_eq!(cache.lookup("Dawn", "Ann"), Some(groups[0].metadata.clone()));
}

#[test]
fn good_merge_is_accepted_at_once() {
    let files = vec![file("/lib/Dawn/01.mp3", "01.mp3", Some("Dawn"), Some("Ann"))];
    let scan = Scan::new(&files, MetadataCache::new(), ONLINE);
    let mut good = meta("Dawn");
    good.description = Some("d".repeat(200));
    good.genres = vec!["Fantasy".to_string()];
    good.series = Some("Days".to_string());
    good.sequence = Some("1".to_string());
    good.publisher = Some("P".to_string());
    let reply = good.clone();
    let (groups, _, calls) =
        drive(scan, |_| None, |_, _| None, |_, _| None, move |_| Some(reply.clone()));
    assert_eq!(calls.merge, 1);
    assert_eq!(groups[0].metadata, good);
}

#[test]
fn failing_service_degrades_to_the_fallback_record() {
    let files = vec![file("/lib/Dawn/01.mp3", "01.mp3", Some("Dawn"), Some("Ann"))];
    let scan = Scan::new(&files, MetadataCache::new(), ONLINE);
    let google = GoogleMetadata {
        title: None,
        subtitle: None,
        authors: vec![],
        publisher: Some("G".to_string()),
        publish_date: Some("1999-01-01".to_string()),
        description: None,
        genres: vec![],
        isbn: None,
    };
    let (groups, _, calls) =
        drive(scan, |_| None, |_, _| None, move |_, _| Some(google.clone()), |_| None);
    assert_eq!(calls.merge, 3);
    assert_eq!(groups[0].metadata.title, "Dawn");
    assert_eq!(groups[0].metadata.author, "Ann");
    assert_eq!(groups[0].metadata.publisher, Some("G".to_string()));
    assert_eq!(groups[0].metadata.year, Some("1999".to_string()));
}

#[test]
fn without_a_service_the_book_gets_the_fallback_record() {
    let files = vec![file("/lib/Dawn/01.mp3", "01.mp3", Some("Dawn"), Some("Ann"))];
    let config = ScanConfig { use_completion: false, use_audible: true, max_attempts: 3 };
    let audible = AudibleMetadata {
        title: None,
        authors: vec![],
        narrators: vec!["Jane Doe".to_string(), "John Roe".to_string()],
        series: vec![],
        publisher: Some("A Audio".to_string()),
        release_date: Some("2021-01-02".to_string()),
        description: Some("From Audible".to_string()),
        asin: None,
    };
    let scan = Scan::new(&files, MetadataCache::new(), config);
    let (groups, _, calls) = drive(
        scan,
        |_| panic!("identity asked"),
        move |_, _| Some(audible.clone()),
        |_, _| None,
        |_| panic!("merge asked"),
    );
    assert_eq!((calls.identity, calls.audible, calls.google, calls.merge), (0, 1, 1, 0));
    let m = &groups[0].metadata;
    assert_eq!(m.title, "Dawn");
    assert_eq!(m.author, "Ann");
    assert_eq!(m.narrator, Some("Jane Doe".to_string()));
    assert_eq!(m.publisher, None);
    assert_eq!(m.description, None);
    assert_eq!(m.isbn, None);
    assert_eq!(m.year, Some("2021".to_string()));
    assert_eq!(m.subtitle, None);
    assert!(m.genres.is_empty());
}

#[test]
fn normalized_files_are_reused_without_any_call() {
    let mut f = file("/lib/Dawn/01.mp3", "01.mp3", Some("Dawn"), Some("Ann"));
    f.tags.comment = Some("Narrated by Jane Doe".to_string());
    f.tags.genre = Some("Fantasy, Adventure".to_string());
    let g = file("/lib/Dawn/02.mp3", "02.mp3", Some("Other"), None);
    let scan = Scan::new(&vec![g, f], MetadataCache::new(), ONLINE);
    let (groups, cache, calls) = drive(
        scan,
        |_| panic!("identity asked"),
        |_, _| panic!("audible asked"),
        |_, _| panic!("google asked"),
        |_| panic!("merge asked"),
    );
    assert_eq!(calls.reports, vec![(1, 1, "Dawn".to_string(), false)]);
    assert_eq!(groups[0].metadata.narrator, Some("Jane Doe".to_string()));
    assert_eq!(groups[0].metadata.genres, vec!["Fantasy", "Adventure"]);
    assert_eq!(groups[0].total_changes, 0);
    assert!(groups[0].files.iter().all(|f| f.status == "unchanged" && f.changes.is_empty()));
    assert_eq!(cache.len(), 0);
}

#[test]
fn groups_come_out_in_key_order_with_running_ids() {
    let files = vec![
        file("/lib/Zed/a.mp3", "a.mp3", Some("Z"), None),
        file("/lib/Abe/a.mp3", "a.mp3", Some("A"), None),
        file("/lib/Moe/a.mp3", "a.mp3", Some("M"), None),
    ];
    let scan = Scan::new(&files, MetadataCache::new(), OFFLINE);
    let (groups, _, calls) = drive(scan, |_| None, |_, _| None, |_, _| None, |_| None);
    let shape: Vec<(&str, &str)> =
        groups.iter().map(|g| (g.id.as_str(), g.group_name.as_str())).collect();
    assert_eq!(shape, vec![("0", "Abe"), ("1", "Moe"), ("2", "Zed")]);
    assert_eq!(calls.reports.len(), 3);
    assert_eq!(calls.reports[2], (3, 3, "Zed".to_string(), false));
}

#[test]
fn cancelled_scan_keeps_finished_groups_and_starts_no_more() {
    let files = vec![
        file("/lib/Abe/a.mp3", "a.mp3", Some("A"), None),
        file("/lib/Moe/a.mp3", "a.mp3", Some("M"), None),
    ];
    let mut flag = CancellationFlag::new();
    assert!(!is_cancelled(&flag));
    let scan = Scan::new(&files, MetadataCache::new(), OFFLINE);
    let (scan, action) = scan.advance(ScanEvent::Next { cancelled: is_cancelled(&flag) }, 0);
    assert!(matches!(action, ScanAction::AskGoogle { .. }));
    let (scan, action) = scan.advance(ScanEvent::Google { candidate: None }, 0);
    assert!(matches!(action, ScanAction::Report { current: 1, total: 2, .. }));
    set_cancellation_flag(&mut flag, true);
    assert!(is_cancelled(&flag));
    let (scan, action) = scan.advance(ScanEvent::Next { cancelled: is_cancelled(&flag) }, 0);
    assert_eq!(action, ScanAction::Finished);
    assert!(scan.is_finished());
    assert_eq!(scan.done(), 1);
    let (groups, _) = scan.into_results();
    assert_eq!(groups.len(), 1);
    assert_eq!(groups[0].group_name, "Abe");
}

#[test]
fn unexpected_event_changes_nothing() {
    let files = vec![file("/lib/Abe/a.mp3", "a.mp3", Some("A"), None)];
    let scan = Scan::new(&files, MetadataCache::new(), ONLINE);
    let (scan, action) = scan.advance(ScanEvent::Google { candidate: None }, 0);
    assert_eq!(action, ScanAction::Unexpected);
    let (scan, action) = scan.advance(ScanEvent::Next { cancelled: false }, 0);
    assert!(matches!(action, ScanAction::AskIdentity { .. }));
    let (scan, action) = scan.advance(ScanEvent::Next { cancelled: true }, 0);
    assert_eq!(action, ScanAction::Unexpected);
    assert!(!scan.is_finished());
    assert_eq!(scan.cache_hits(), 0);
}

#[test]
fn next_book_is_named_between_books_only() {
    let files = vec![
        file("/lib/Abe/a.mp3", "a.mp3", Some("A"), None),
        file("/lib/Moe/a.mp3", "a.mp3", Some("M"), None),
    ];
    let scan = Scan::new(&files, MetadataCache::new(), OFFLINE);
    assert_eq!(scan.next_book(), Some("Abe".to_string()));
    let (scan, _) = scan.advance(ScanEvent::Next { cancelled: false }, 7);
    assert_eq!(scan.next_book(), None);
    assert_eq!(scan.cache().len(), 0);
    let (scan, _) = scan.advance(ScanEvent::Google { candidate: None }, 7);
    assert_eq!(scan.next_book(), Some("Moe".to_string()));
    assert_eq!(scan.cache().len(), 1);
    assert_eq!(scan.cache().entry_at(0).timestamp, 7);
    let (scan, _) = scan.advance(ScanEvent::Next { cancelled: true }, 7);
    assert_eq!(scan.next_book(), None);
}

#[test]
fn merged_genres_are_brought_to_the_approved_vocabulary() {
    let files = vec![file("/lib/Dawn/01.mp3", "01.mp3", Some("Dawn"), Some("Ann"))];
    let scan = Scan::new(&files, MetadataCache::new(), ONLINE);
    let mut reply = meta("Dawn");
    reply.genres = ["Space Opera", "science fiction", "Thrillers", "Horror", "Romance"]
        .iter()
        .map(|g| g.to_string())
        .collect();
    let (groups, cache, _) =
        drive(scan, |_| None, |_, _| None, |_, _| None, move |_| Some(reply.clone()));
    assert_eq!(groups[0].metadata.genres, vec!["Science Fiction", "Thriller", "Horror"]);
    assert_eq!(cache.lookup("Dawn", "Ann").unwrap().genres, groups[0].metadata.genres);
    assert_eq!(
        groups[0].files[0].changes.get("genre").map(|c| c.new.as_str()),
        Some("Science Fiction, Thriller, Horror")
    );
}

#[test]
fn reports_hold_the_files_of_their_books() {
    let files = vec![
        file("/lib/Zed/b.mp3", "b.mp3", Some("Z"), None),
        file("/lib/Abe (book#2)/a.mp3", "a.mp3", Some("A"), None),
        file("/lib/Zed/a.mp3", "a.mp3", Some("Z"), None),
        file("/lib/Abe (Book #2)/c.mp3", "c.mp3", Some("A"), None),
    ];
    let scan = Scan::new(&files, MetadataCache::new(), OFFLINE);
    let (groups, _, _) = drive(scan, |_| None, |_, _| None, |_, _| None, |_| None);
    let shape: Vec<(&str, Vec<(&str, &str, &str)>)> = groups
        .iter()
        .map(|g| {
            let held = g
                .files
                .iter()
                .map(|f| (f.id.as_str(), f.path.as_str(), f.filename.as_str()))
                .collect();
            (g.group_name.as_str(), held)
        })
        .collect();
    assert_eq!(
        shape,
        vec![
            (
                "Abe (Book #2)",
                vec![
                    ("id:/lib/Abe (book#2)/a.mp3", "/lib/Abe (book#2)/a.mp3", "a.mp3"),
                    ("id:/lib/Abe (Book #2)/c.mp3", "/lib/Abe (Book #2)/c.mp3", "c.mp3"),
                ]
            ),
            (
                "Zed",
                vec![
                    ("id:/lib/Zed/a.mp3", "/lib/Zed/a.mp3", "a.mp3"),
                    ("id:/lib/Zed/b.mp3", "/lib/Zed/b.mp3", "b.mp3"),
                ]
            ),
        ]
    );
}

#[test]
fn empty_scan_finishes_at_once() {
    let scan = Scan::new(&vec![], MetadataCache::new(), ONLINE);
    let (scan, action) = scan.advance(ScanEvent::Next { cancelled: false }, 0);
    assert_eq!(action, ScanAction::Finished);
    let (scan, again) = scan.advance(ScanEvent::Next { cancelled: false }, 0);
    assert_eq!(again, ScanAction::Finished);
    assert!(scan.into_results().0.is_empty());
}
