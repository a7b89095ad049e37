use audiobook_tagger::model::FileTags;
use audiobook_tagger::processed::{
    comment_has_narrator, genre_tag_is_clean, is_already_processed, metadata_from_tags,
    narrator_from_comment, split_genre_tag,
};

fn tags(comment: Option<&str>, genre: Option<&str>) -> FileTags {
    let mut t = FileTags::empty();
    t.comment = comment.map(|s| s.to_string());
    t.genre = genre.map(|s| s.to_string());
    t
}

#[test]
fn normalized_tags_are_recognized() {
    assert!(is_already_processed(&tags(Some("Narrated by Jane Doe"), Some("Fantasy, Adventure"))));
    assert!(is_already_processed(&tags(Some("Read by Jane Doe"), Some("Fantasy"))));
    assert!(is_already_processed(&tags(Some("x. Narrated by J"), Some("Cooking,Fantasy ,Zzz"))));
}

#[test]
fn tags_without_approved_genre_are_not_normalized() {
    assert!(!is_already_processed(&tags(Some("Narrated by Jane Doe"), Some("Cooking, Zines"))));
    assert!(!is_already_processed(&tags(Some("Narrated by Jane Doe"), Some(""))));
    assert!(!is_already_processed(&tags(Some("Narrated by Jane Doe"), None)));
    assert!(!is_already_processed(&tags(Some("Narrated by Jane Doe"), Some("fantasy"))));
}

#[test]
fn tags_without_narrator_marker_are_not_normalized() {
    assert!(!is_already_processed(&tags(Some("narrated by Jane"), Some("Fantasy"))));
    assert!(!is_already_processed(&tags(Some("Narrated byJane"), Some("Fantasy"))));
    assert!(!is_already_processed(&tags(None, Some("Fantasy"))));
}

#[test]
fn more_than_three_genre_segments_are_not_clean() {
    assert!(genre_tag_is_clean("Fantasy, Adventure, Mystery"));
    assert!(!genre_tag_is_clean("Fantasy, Adventure, Mystery, Horror"));
    assert!(!genre_tag_is_clean("Fantasy,,,"));
    assert!(comment_has_narrator("Read by X"));
}

#[test]
fn genre_tag_splits_on_commas_and_trims() {
    assert_eq!(split_genre_tag(" Fantasy ,Adventure,, x "), vec!["Fantasy", "Adventure", "", "x"]);
    assert_eq!(split_genre_tag(""), vec![""]);
}

#[test]
fn narrator_is_read_from_the_start_of_the_comment() {
    assert_eq!(narrator_from_comment("Narrated by Jane Doe"), Some("Jane Doe".to_string()));
    assert_eq!(narrator_from_comment("Read by Jane Doe"), Some("Jane Doe".to_string()));
    assert_eq!(narrator_from_comment("Narrated by Narrated by J"), Some("J".to_string()));
    assert_eq!(narrator_from_comment("A book. Narrated by J"), None);
    assert_eq!(narrator_from_comment(""), None);
}

#[test]
fn metadata_is_read_back_from_tags() {
    let mut t = tags(Some("Narrated by Jane Doe"), Some("Fantasy, Adventure"));
    t.title = Some("Dawn".to_string());
    t.year = Some("1999".to_string());
    let m = metadata_from_tags(&t, "Folder");
    assert_eq!(m.title, "Dawn");
    assert_eq!(m.author, "Unknown");
    assert_eq!(m.narrator, Some("Jane Doe".to_string()));
    assert_eq!(m.genres, vec!["Fantasy", "Adventure"]);
    assert_eq!(m.year, Some("1999".to_string()));
    assert_eq!(m.subtitle, None);
    assert_eq!(m.series, None);
    assert_eq!(m.sequence, None);
    assert_eq!(m.publisher, None);
    assert_eq!(m.description, None);
    assert_eq!(m.isbn, None);
    let bare = metadata_from_tags(&FileTags::empty(), "Folder");
    assert_eq!(bare.title, "Folder");
    assert!(bare.genres.is_empty());
}
