use audiobook_tagger::identity::{
    choose_identity, clean_completion, quick_identity_of, read_body_field, read_reply_field,
    resolve_identity, tag_identity_of, BookIdentity,
};
use audiobook_tagger::model::{FileTags, RawFileData};
use audiobook_tagger::prompt::{
    approved_genre_line, build_identity_prompt, build_merge_prompt, collect_comments,
};
use audiobook_tagger::sources::{AudibleMetadata, AudibleSeries, GoogleMetadata};

fn tags(title: Option<&str>, artist: Option<&str>) -> FileTags {
    let mut t = FileTags::empty();
    t.title = title.map(|s| s.to_string());
    t.artist = artist.map(|s| s.to_string());
    t
}

fn who(title: &str, author: &str) -> BookIdentity {
    BookIdentity { title: title.to_string(), author: author.to_string() }
}

#[test]
fn identity_falls_back_to_folder_and_unknown() {
    assert_eq!(tag_identity_of(&tags(None, None), "Folder"), who("Folder", "Unknown"));
    assert_eq!(tag_identity_of(&tags(Some("T"), Some("A")), "Folder"), who("T", "A"));
    let mut t = tags(None, None);
    t.album_artist = Some("AA".to_string());
    assert_eq!(quick_identity_of(&t, "Folder"), who("Folder", "AA"));
    assert_eq!(tag_identity_of(&t, "Folder"), who("Folder", "Unknown"));
    t.artist = Some("A".to_string());
    assert_eq!(quick_identity_of(&t, "Folder"), who("Folder", "A"));
}

#[test]
fn completion_is_trimmed_and_unfenced() {
    assert_eq!(clean_completion("  {\"a\":1}\n"), Some("{\"a\":1}".to_string()));
    assert_eq!(clean_completion("```json\n{\"a\":1}\n```"), Some("{\"a\":1}".to_string()));
    assert_eq!(clean_completion("```\n{\"a\":1}\n```"), Some("{\"a\":1}".to_string()));
    assert_eq!(clean_completion("``````{}```"), Some("{}".to_string()));
    assert_eq!(clean_completion("```json```"), Some(String::new()));
    assert_eq!(clean_completion("   \n"), None);
    assert_eq!(clean_completion(""), None);
}

#[test]
fn string_field_is_read_from_json_object() {
    let body = "{\"book_title\":\"Dawn \\\"II\\\"\",\"author\":7,\"x\":null}";
    assert_eq!(read_body_field(body, "book_title"), Some("Dawn \"II\"".to_string()));
    assert_eq!(read_body_field(body, "author"), None);
    assert_eq!(read_body_field(body, "missing"), None);
    assert_eq!(read_body_field("[\"book_title\"]", "book_title"), None);
    assert_eq!(read_body_field("{\"book_title\":\"Dawn\"", "book_title"), None);
    assert_eq!(read_body_field("book_title", "book_title"), None);
    assert_eq!(
        read_reply_field("```json\n{\"author\":\"Ann\"}\n```", "author"),
        Some("Ann".to_string())
    );
    assert_eq!(read_reply_field("  ", "author"), None);
}

#[test]
fn reply_fields_replace_the_tag_identity_one_by_one() {
    let t = tags(Some("Track 10"), Some("Ann"));
    let both = Some("{\"book_title\":\"Dawn\",\"author\":\"Ann Author\"}".to_string());
    assert_eq!(resolve_identity(&both, &t, "Folder"), who("Dawn", "Ann Author"));
    let title_only = Some("{\"book_title\":\"Dawn\"}".to_string());
    assert_eq!(resolve_identity(&title_only, &t, "Folder"), who("Dawn", "Ann"));
    let broken = Some("I think the book is Dawn".to_string());
    assert_eq!(resolve_identity(&broken, &t, "Folder"), who("Track 10", "Ann"));
    assert_eq!(resolve_identity(&None, &t, "Folder"), who("Track 10", "Ann"));
    assert_eq!(resolve_identity(&Some(String::new()), &tags(None, None), "Folder"), who("Folder", "Unknown"));
    assert_eq!(choose_identity(None, Some("X".to_string()), &t, "Folder"), who("Track 10", "X"));
}

#[test]
fn identity_prompt_shows_folder_file_and_tags() {
    let mut t = tags(Some(" Dawn - Part 1 "), None);
    t.album = Some("Dawn".to_string());
    let file = RawFileData {
        id: "1".to_string(),
        path: "/lib/Dawn/01.mp3".to_string(),
        filename: "01.mp3".to_string(),
        tags: t,
    };
    let prompt = build_identity_prompt(&file, "Dawn (Book #1)");
    assert!(prompt.starts_with("Extract the BOOK title and AUTHOR from these audiobook file tags."));
    assert!(prompt.contains("\n\nFOLDER NAME: Dawn (Book #1)\nFILENAME: 01.mp3\nFILE TAGS:\n"));
    assert!(prompt.contains("- Title: Some(\"Dawn\")\n- Artist: None\n- Album: Some(\"Dawn\")\n\nIMPORTANT:"));
    assert!(prompt.ends_with("{\"book_title\":\"actual book title\",\"author\":\"author name\"}\n\nJSON:"));
}

#[test]
fn merge_prompt_shows_sources_genres_and_year() {
    let mut a = FileTags::empty();
    a.comment = Some("Narrated by Jane".to_string());
    let files = vec![
        RawFileData { id: "1".into(), path: "/l/D/1.mp3".into(), filename: "1.mp3".into(), tags: a },
        RawFileData {
            id: "2".into(),
            path: "/l/D/2.mp3".into(),
            filename: "2.mp3".into(),
            tags: FileTags::empty(),
        },
    ];
    assert_eq!(collect_comments(&files), vec!["Narrated by Jane"]);
    let google = GoogleMetadata {
        title: Some("Dawn".to_string()),
        subtitle: None,
        authors: vec!["Ann".to_string(), "Bob".to_string()],
        publisher: None,
        publish_date: Some("1999".to_string()),
        description: None,
        genres: vec![],
        isbn: None,
    };
    let audible = AudibleMetadata {
        title: None,
        authors: vec![],
        narrators: vec!["Jane".to_string()],
        series: vec![
            AudibleSeries { name: "Days".to_string(), position: Some("2".to_string()) },
            AudibleSeries { name: "Nights".to_string(), position: None },
        ],
        publisher: None,
        release_date: None,
        description: None,
        asin: Some("B00".to_string()),
    };
    let prompt = build_merge_prompt(&files, "D", "Dawn", "Ann", &Some(google), &Some(audible));
    assert!(prompt.contains("SOURCES:\n1. Folder: D\n2. Extracted from tags: title='Dawn', author='Ann'\n"));
    assert!(prompt.contains(
        "3. Google Books: Title: Some(\"Dawn\"), Authors: [\"Ann\", \"Bob\"], Publisher: None, Date: Some(\"1999\")\n"
    ));
    assert!(prompt.contains(
        "4. Audible: Title: None, Authors: [], Narrators: [\"Jane\"], Series: [\"Days\" #2, \"Nights\"], Publisher: None, Release Date: None, ASIN: Some(\"B00\")\n"
    ));
    assert!(prompt.contains("5. Sample comments: [\"Narrated by Jane\"]\n6. FILENAME HINT"));
    assert!(prompt.contains(&format!("APPROVED GENRES (max 3, comma-separated):\n{}\n\nOUTPUT", approved_genre_line())));
    assert!(prompt.contains("- CRITICAL: Use EXACTLY this year: 1999 (from Audible/Google Books - DO NOT CHANGE)\n- description:"));
    assert!(prompt.contains("- series: Extract from filename pattern if book number present\n- sequence: Book number\n- sequence: Extract book number"));
    assert!(prompt.ends_with("JSON:"));
    let plain = build_merge_prompt(&files, "D", "Dawn", "Ann", &None, &None);
    assert!(plain.contains("3. Google Books: No data\n4. Audible: No data\n"));
    assert!(plain.contains("- year: If not found in sources, return null\n"));
}

#[test]
fn approved_genres_are_listed_with_commas() {
    let line = approved_genre_line();
    assert!(line.starts_with("Science Fiction, Historical Fiction, "));
    assert!(line.ends_with(", Religion, Travel"));
    assert_eq!(line.split(", ").count(), 24);
    assert!(line.split(", ").any(|g| g == "Fantasy"));
    assert!(line.split(", ").any(|g| g == "Adventure"));
}
