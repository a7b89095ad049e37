use audiobook_tagger::changes::{compute_changes, diff_file, keep_file, make_genre_line};
use audiobook_tagger::model::{BookMetadata, FieldChange, FileTags, RawFileData};

fn meta() -> BookMetadata {
    BookMetadata {
        title: "Dawn".to_string(),
        subtitle: None,
        author: "Ann Author".to_string(),
        narrator: None,
        series: None,
        sequence: None,
        genres: vec![],
        publisher: None,
        year: None,
        description: None,
        isbn: None,
    }
}

fn change(old: &str, new: &str) -> FieldChange {
    FieldChange { old: old.to_string(), new: new.to_string() }
}

#[test]
fn identical_title_is_omitted() {
    let mut tags = FileTags::empty();
    tags.title = Some("Dawn".to_string());
    tags.artist = Some("ann author".to_string());
    let changes = compute_changes(&tags, &meta());
    assert!(!changes.contains_key("title"));
    assert_eq!(changes.get("title"), None);
    assert_eq!(changes.get("author"), Some(&change("ann author", "Ann Author")));
    assert_eq!(changes.len(), 1);
}

#[test]
fn absent_title_and_author_are_not_compared() {
    let changes = compute_changes(&FileTags::empty(), &meta());
    assert!(changes.is_empty());
}

#[test]
fn narrator_is_always_recorded_against_the_comment() {
    let mut m = meta();
    m.narrator = Some("Jane Doe".to_string());
    let mut tags = FileTags::empty();
    let changes = compute_changes(&tags, &m);
    assert_eq!(changes.get("narrator"), Some(&change("", "Narrated by Jane Doe")));
    tags.comment = Some("Narrated by Jane Doe".to_string());
    let again = compute_changes(&tags, &m);
    assert_eq!(again.get("narrator"), Some(&change("Narrated by Jane Doe", "Narrated by Jane Doe")));
}

#[test]
fn genres_are_joined_and_compared_with_the_genre_tag() {
    let mut m = meta();
    m.genres = vec!["Fantasy".to_string(), "Adventure".to_string()];
    assert_eq!(make_genre_line(&m.genres), "Fantasy, Adventure");
    let mut tags = FileTags::empty();
    assert_eq!(compute_changes(&tags, &m).get("genre"), Some(&change("", "Fantasy, Adventure")));
    tags.genre = Some("Fantasy, Adventure".to_string());
    assert!(!compute_changes(&tags, &m).contains_key("genre"));
    tags.genre = Some("Fantasy,Adventure".to_string());
    assert_eq!(
        compute_changes(&tags, &m).get("genre"),
        Some(&change("Fantasy,Adventure", "Fantasy, Adventure"))
    );
}

#[test]
fn empty_genre_line_against_no_genre_tag_is_no_change() {
    let mut m = meta();
    m.genres = vec![String::new()];
    assert_eq!(make_genre_line(&m.genres), "");
    assert!(!compute_changes(&FileTags::empty(), &m).contains_key("genre"));
    let mut tags = FileTags::empty();
    tags.genre = Some("Fantasy".to_string());
    assert_eq!(compute_changes(&tags, &m).get("genre"), Some(&change("Fantasy", "")));
}

#[test]
fn file_status_follows_the_changes() {
    let mut tags = FileTags::empty();
    tags.title = Some("Old".to_string());
    let file = RawFileData {
        id: "7".to_string(),
        path: "/a/b.mp3".to_string(),
        filename: "b.mp3".to_string(),
        tags,
    };
    let changed = diff_file(&file, &meta());
    assert_eq!(changed.status, "changed");
    assert_eq!(changed.id, "7");
    assert_eq!(changed.path, "/a/b.mp3");
    assert_eq!(changed.filename, "b.mp3");
    assert_eq!(changed.changes.get("title"), Some(&change("Old", "Dawn")));
    let mut same = file.clone();
    same.tags.title = Some("Dawn".to_string());
    assert_eq!(diff_file(&same, &meta()).status, "unchanged");
    let kept = keep_file(&file);
    assert_eq!(kept.status, "unchanged");
    assert!(kept.changes.is_empty());
}
