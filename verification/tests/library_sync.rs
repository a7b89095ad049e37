use audiobook_tagger::library_sync::{
    build_update_payload, find_matching_item, index_library_items, is_last_page, normalize_path,
    plan_genre_update, plan_push, split_authors, summarize_push, AuthorRef, LibraryIndex,
    LibraryItem, PushFailure, PushItem, PushOutcome, SeriesRef,
};
use audiobook_tagger::model::BookMetadata;
use audiobook_tagger::textmap::TextMap;

fn item(id: &str, path: &str) -> LibraryItem {
    LibraryItem { id: id.to_string(), path: path.to_string(), is_file: false }
}

fn index(items: &[(&str, &str)]) -> LibraryIndex {
    let mut map: LibraryIndex = TextMap::new();
    let page: Vec<LibraryItem> = items.iter().map(|(id, path)| item(id, path)).collect();
    index_library_items(&mut map, &page);
    map
}

fn meta(author: &str) -> BookMetadata {
    BookMetadata {
        title: " Dawn ".to_string(),
        subtitle: Some("  ".to_string()),
        author: author.to_string(),
        narrator: Some(" Jane Doe ".to_string()),
        series: Some(" Days ".to_string()),
        sequence: Some(" 2 ".to_string()),
        genres: vec!["Fantasy".to_string()],
        publisher: None,
        year: Some("1999".to_string()),
        description: Some("Text".to_string()),
        isbn: Some("".to_string()),
    }
}

#[test]
fn paths_are_normalized_for_comparison() {
    assert_eq!(normalize_path("  /lib/Book/  "), "/lib/Book");
    assert_eq!(normalize_path("C:\\lib\\Book\\"), "C:/lib/Book");
    assert_eq!(normalize_path("/lib/Book///"), "/lib/Book");
    assert_eq!(normalize_path("/"), "/");
    assert_eq!(normalize_path("///"), "/");
    assert_eq!(normalize_path("   "), "");
    assert_eq!(normalize_path(""), "");
    assert_eq!(normalize_path("a"), "a");
}

#[test]
fn item_is_found_at_the_path_or_at_the_nearest_folder_above() {
    let idx = index(&[("1", "/lib/Author/Book"), ("2", "/lib"), ("3", "/")]);
    assert_eq!(find_matching_item("/lib/Author/Book", &idx).map(|i| i.id.as_str()), Some("1"));
    assert_eq!(find_matching_item("/lib/Author/Book/cd1/01.mp3", &idx).map(|i| i.id.as_str()), Some("1"));
    assert_eq!(find_matching_item("/lib/Other/x.mp3", &idx).map(|i| i.id.as_str()), Some("2"));
    assert_eq!(find_matching_item("/other", &idx).map(|i| i.id.as_str()), Some("3"));
    assert_eq!(find_matching_item("relative/x.mp3", &idx), None);
    assert_eq!(find_matching_item("", &idx), None);
    let rootless = index(&[("1", "/lib/Book")]);
    assert_eq!(find_matching_item("/libx/Book", &rootless), None);
    assert_eq!(find_matching_item("/lib", &rootless), None);
}

#[test]
fn index_keeps_the_later_of_two_items_with_one_path() {
    let idx = index(&[("1", "/lib/Book/"), ("2", "  "), ("3", "\\lib\\Book")]);
    assert_eq!(idx.len(), 1);
    assert_eq!(idx.get("/lib/Book").map(|i| i.id.as_str()), Some("3"));
    assert!(is_last_page(199, 200));
    assert!(!is_last_page(200, 200));
}

#[test]
fn authors_are_split_at_the_usual_marks() {
    assert_eq!(split_authors("  Ann Author "), vec!["Ann Author"]);
    assert_eq!(split_authors("Ann & Bob and Cy; Di/Ed|Flo"), vec!["Ann", "Bob", "Cy", "Di", "Ed", "Flo"]);
    assert_eq!(split_authors("Ann&Bob"), vec!["Ann&Bob"]);
    assert_eq!(split_authors("Ann ; ; Bob;"), vec!["Ann", "Bob"]);
    assert_eq!(split_authors("Sandy Anderson"), vec!["Sandy Anderson"]);
    assert_eq!(split_authors(" ; "), Vec::<String>::new());
    assert_eq!(split_authors("   "), Vec::<String>::new());
    assert_eq!(split_authors(""), Vec::<String>::new());
}

#[test]
fn payload_cleans_fields_and_numbers_authors() {
    let payload = build_update_payload(&meta("Ann & Bob"));
    assert_eq!(payload.title, " Dawn ");
    assert_eq!(payload.subtitle, None);
    assert_eq!(payload.description, Some("Text".to_string()));
    assert_eq!(payload.publisher, None);
    assert_eq!(payload.published_year, Some("1999".to_string()));
    assert_eq!(payload.isbn, None);
    assert_eq!(payload.narrators, Some(vec!["Jane Doe".to_string()]));
    assert_eq!(payload.genres, Some(vec!["Fantasy".to_string()]));
    assert_eq!(
        payload.authors,
        Some(vec![
            AuthorRef { id: "new-1".to_string(), name: "Ann".to_string() },
            AuthorRef { id: "new-2".to_string(), name: "Bob".to_string() },
        ])
    );
    assert_eq!(
        payload.series,
        Some(SeriesRef { id: "new-1".to_string(), name: "Days".to_string(), sequence: Some("2".to_string()) })
    );
    let mut plain = meta("");
    plain.narrator = None;
    plain.series = Some(" ".to_string());
    plain.genres = vec![];
    let bare = build_update_payload(&plain);
    assert_eq!(bare.narrators, None);
    assert_eq!(bare.genres, None);
    assert_eq!(bare.authors, None);
    assert_eq!(bare.series, None);
    let mut blank = meta("Ann");
    blank.narrator = Some("  ".to_string());
    assert_eq!(build_update_payload(&blank).narrators, None);
}

#[test]
fn genres_are_updated_only_when_normalizing_changes_them() {
    let s = |v: &[&str]| Some(v.iter().map(|x| x.to_string()).collect::<Vec<String>>());
    assert_eq!(plan_genre_update(&None), None);
    assert_eq!(plan_genre_update(&s(&[])), None);
    assert_eq!(plan_genre_update(&s(&["Fantasy", "Adventure"])), None);
    assert_eq!(plan_genre_update(&s(&["fantasy", "Cooking"])), s(&["Fantasy"]));
    assert_eq!(plan_genre_update(&s(&["Cooking"])), s(&[]));
    assert_eq!(plan_genre_update(&s(&["Fantasy", "Fantasy"])), s(&["Fantasy"]));
    let once = plan_genre_update(&s(&["epic fantasy", "sci-fi", "Science Fiction"]));
    assert_eq!(once, s(&["Fantasy", "Science Fiction"]));
    assert_eq!(plan_genre_update(&once), None);
}

#[test]
fn push_plan_matches_each_item_once() {
    let idx = index(&[("a", "/lib/A"), ("b", "/lib/B")]);
    let items: Vec<PushItem> = ["/lib/A/cd1", "  ", "/lib/A/cd2", "/else/C", "/lib/B/"]
        .iter()
        .map(|p| PushItem { path: p.to_string(), metadata: meta("Ann") })
        .collect();
    let plan = plan_push(&items, &idx);
    let targets: Vec<(&str, &str, &str, usize)> = plan
        .targets
        .iter()
        .map(|t| (t.item_id.as_str(), t.library_path.as_str(), t.path.as_str(), t.source))
        .collect();
    assert_eq!(targets, vec![("a", "/lib/A", "/lib/A/cd1", 0), ("b", "/lib/B", "/lib/B/", 4)]);
    assert_eq!(plan.unmatched, vec!["  ", "/else/C"]);
    let empty = plan_push(&vec![], &idx);
    assert!(empty.targets.is_empty() && empty.unmatched.is_empty());
}

#[test]
fn push_summary_counts_updates_and_lists_failures() {
    let idx = index(&[("a", "/lib/A"), ("b", "/lib/B"), ("c", "/lib/C")]);
    let items: Vec<PushItem> = ["/lib/A", "/lib/B", "/lib/C", "/x"]
        .iter()
        .map(|p| PushItem { path: p.to_string(), metadata: meta("Ann") })
        .collect();
    let plan = plan_push(&items, &idx);
    let outcomes = vec![
        PushOutcome::Updated,
        PushOutcome::Unchanged,
        PushOutcome::Failed { reason: "AudiobookShelf responded with 500".to_string(), status: Some(500) },
    ];
    let result = summarize_push(plan, &outcomes);
    assert_eq!(result.updated, 1);
    assert_eq!(result.unmatched, vec!["/x"]);
    assert_eq!(
        result.failed,
        vec![
            PushFailure {
                path: "/lib/B".to_string(),
                reason: "AudiobookShelf reported no updates for /lib/B".to_string(),
                status: None,
            },
            PushFailure {
                path: "/lib/C".to_string(),
                reason: "AudiobookShelf responded with 500".to_string(),
                status: Some(500),
            },
        ]
    );
}
