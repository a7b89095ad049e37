use audiobook_tagger::cache::{make_key, CachedEntry, MetadataCache};
use audiobook_tagger::model::BookMetadata;

fn meta(title: &str) -> BookMetadata {
    BookMetadata {
        title: title.to_string(),
        subtitle: None,
        author: "Mary Pope Osborne".to_string(),
        narrator: Some("Jane".to_string()),
        series: None,
        sequence: None,
        genres: vec!["Fantasy".to_string()],
        publisher: None,
        year: Some("1992".to_string()),
        description: None,
        isbn: None,
    }
}

#[test]
fn store_then_lookup_returns_the_stored_value() {
    let mut cache = MetadataCache::new();
    assert_eq!(cache.lookup("Dinosaurs Before Dark", "Mary Pope Osborne"), None);
    cache.store("Dinosaurs Before Dark", "Mary Pope Osborne", meta("Dinosaurs Before Dark"), 17);
    assert_eq!(
        cache.lookup("Dinosaurs Before Dark", "Mary Pope Osborne"),
        Some(meta("Dinosaurs Before Dark"))
    );
    assert_eq!(cache.lookup("Dinosaurs Before Dark", "Someone Else"), None);
    assert_eq!(cache.len(), 1);
}

#[test]
fn store_replaces_the_whole_entry() {
    let mut cache = MetadataCache::new();
    cache.store("A", "B", meta("first"), 1);
    cache.store("A", "B", meta("second"), 2);
    assert_eq!(cache.len(), 1);
    let key = make_key("A", "B");
    assert_eq!(cache.entry(&key), Some(CachedEntry { metadata: meta("second"), timestamp: 2 }));
}

#[test]
fn lookup_ignores_case_and_white_space_variants() {
    let mut cache = MetadataCache::new();
    cache.store("Dinosaurs Before Dark", "Mary Pope Osborne", meta("x"), 0);
    assert!(cache.lookup("  dinosaurs   before DARK ", "MARY POPE\tOSBORNE").is_some());
    assert!(cache.lookup("DinosaursBeforeDark", "Mary Pope Osborne").is_none());
}

#[test]
fn key_joins_normalized_title_and_author() {
    assert_eq!(make_key("  The  Hobbit ", "J.R.R. Tolkien"), "the hobbit\nj.r.r. tolkien");
    assert_eq!(make_key("", ""), "\n");
    assert_ne!(make_key("a\nb", "c"), make_key("a", "b\nc"));
    assert_ne!(make_key("a b", "c"), make_key("a", "b c"));
}

#[test]
fn clear_drops_every_entry() {
    let mut cache = MetadataCache::new();
    cache.store("A", "B", meta("a"), 1);
    cache.store("C", "D", meta("c"), 2);
    assert_eq!(cache.len(), 2);
    assert_eq!(cache.key_at(1), make_key("C", "D"));
    assert_eq!(cache.entry_at(0).timestamp, 1);
    cache.clear();
    assert_eq!(cache.len(), 0);
    assert_eq!(cache.lookup("A", "B"), None);
}

#[test]
fn put_restores_an_entry_under_its_key() {
    let mut cache = MetadataCache::new();
    cache.put(make_key("T", "A"), CachedEntry { metadata: meta("T"), timestamp: 9 });
    assert_eq!(cache.lookup("t", "a"), Some(meta("T")));
}
