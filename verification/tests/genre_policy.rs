use audiobook_tagger::genres::{canonicalize_genre, genre_is_approved, normalize_genres};

fn strings(items: &[&str]) -> Vec<String> {
    items.iter().map(|s| s.to_string()).collect()
}

#[test]
fn approved_labels_are_recognized() {
    assert!(genre_is_approved("Fantasy"));
    assert!(genre_is_approved("Adventure"));
    assert!(!genre_is_approved("fantasy"));
    assert!(!genre_is_approved("Space Opera"));
}

#[test]
fn canonical_genre_ignores_case_and_space() {
    assert_eq!(canonicalize_genre("  fantasy "), Some("Fantasy".to_string()));
    assert_eq!(canonicalize_genre("SCIENCE FICTION"), Some("Science Fiction".to_string()));
    assert_eq!(canonicalize_genre("Epic Fantasy"), Some("Fantasy".to_string()));
    assert_eq!(canonicalize_genre("Gardening"), None);
}

#[test]
fn normalize_is_idempotent_on_examples() {
    let raw = strings(&["epic fantasy", "Fantasy", "Sci-Fi", "science fiction & more", "thrillers", "Romance"]);
    let once = normalize_genres(&raw);
    assert_eq!(once, strings(&["Fantasy", "Science Fiction", "Thriller"]));
    let twice = normalize_genres(&once);
    assert_eq!(twice, once);
}
