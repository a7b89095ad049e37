use audiobook_tagger::tag_inspector::{
    build_raw_tags, list_tag_entries, ItemKind, TagContents, TagEntry, TagItem,
};

fn item(kind: ItemKind, custom: &str, name: &str, text: Option<&str>) -> TagItem {
    TagItem {
        kind,
        custom_name: custom.to_string(),
        key_name: name.to_string(),
        text: text.map(|t| t.to_string()),
    }
}

fn entry(key: &str, value: &str, tag_type: &str) -> TagEntry {
    TagEntry { key: key.to_string(), value: value.to_string(), tag_type: tag_type.to_string() }
}

fn primary() -> TagContents {
    TagContents {
        tag_type: "Mp4Ilst".to_string(),
        title: Some("Dawn".to_string()),
        artist: None,
        album: Some("Days".to_string()),
        year: Some(1999),
        comment: None,
        genres: vec!["Fantasy".to_string(), "Adventure".to_string()],
        composers: vec!["Jane".to_string()],
        items: vec![
            item(ItemKind::TrackTitle, "", "TrackTitle", Some("Dawn")),
            item(ItemKind::TrackArtist, "", "TrackArtist", Some("Ann")),
            item(ItemKind::Genre, "", "Genre", Some("Fantasy")),
            item(ItemKind::Custom, "SERIES", "Unknown(\"SERIES\")", Some("Days")),
            item(ItemKind::Other, "", "EncoderSoftware", Some("Lavf")),
            item(ItemKind::Other, "", "Picture", None),
            item(ItemKind::AlbumTitle, "", "AlbumTitle", Some("Days")),
        ],
    }
}

#[test]
fn main_tag_is_listed_field_by_field() {
    let entries = list_tag_entries(&Some(primary()), &vec![]);
    let t = "Mp4Ilst";
    assert_eq!(
        entries,
        vec![
            entry("Title", "Dawn", t),
            entry("Album", "Days", t),
            entry("Year", "1999", t),
            entry("Genre #1", "Fantasy", t),
            entry("Genre #2", "Adventure", t),
            entry("Composer (Narrator?)", "Jane", t),
            entry("TrackArtist (Raw)", "Ann", t),
            entry("Custom: SERIES", "Days", t),
            entry("EncoderSoftware", "Lavf", t),
        ]
    );
}

#[test]
fn further_tags_are_listed_as_secondary() {
    let other = TagContents {
        tag_type: "Id3v2".to_string(),
        title: Some("ignored".to_string()),
        artist: None,
        album: None,
        year: None,
        comment: None,
        genres: vec![],
        composers: vec![],
        items: vec![
            item(ItemKind::TrackTitle, "", "TrackTitle", Some("Dawn")),
            item(ItemKind::Other, "", "Picture", None),
        ],
    };
    let entries = list_tag_entries(&Some(primary()), &vec![other]);
    assert_eq!(entries.len(), 10);
    assert_eq!(entries[9], entry("TrackTitle", "Dawn", "Id3v2 (Secondary)"));
    assert!(list_tag_entries(&None, &vec![]).is_empty());
}

#[test]
fn listing_carries_the_file_properties() {
    let raw = build_raw_tags("/a/b.m4b", "Mp4", 3600, Some(64), None, &None, &vec![]);
    assert_eq!(raw.file_path, "/a/b.m4b");
    assert_eq!(raw.file_format, "Mp4");
    assert_eq!(raw.duration_seconds, Some(3600));
    assert_eq!(raw.bitrate, Some(64));
    assert_eq!(raw.sample_rate, None);
    assert!(raw.tags.is_empty());
}
