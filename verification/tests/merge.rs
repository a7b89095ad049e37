use audiobook_tagger::merge::{
    build_fallback, decide_retry, find_reliable_year, finish_merge, parse_year,
    validate_metadata_quality, RetryDecision, ACCEPT_SCORE, MAX_ATTEMPTS,
};
use audiobook_tagger::model::BookMetadata;
use audiobook_tagger::sources::{AudibleMetadata, AudibleSeries, GoogleMetadata};

fn google() -> GoogleMetadata {
    GoogleMetadata {
        title: Some("Dawn".to_string()),
        subtitle: Some("A Tale".to_string()),
        authors: vec!["Ann Author".to_string()],
        publisher: Some("G Press".to_string()),
        publish_date: Some("1999-05".to_string()),
        description: Some("From Google".to_string()),
        genres: vec!["Juvenile Fiction".to_string(), "Gardening".to_string()],
        isbn: Some("123".to_string()),
    }
}

fn audible() -> AudibleMetadata {
    AudibleMetadata {
        title: Some("Dawn".to_string()),
        authors: vec!["Ann Author".to_string()],
        narrators: vec!["Jane Doe".to_string(), "John Roe".to_string()],
        series: vec![AudibleSeries { name: "Days".to_string(), position: Some("2".to_string()) }],
        publisher: Some("A Audio".to_string()),
        release_date: Some("2021-01-02".to_string()),
        description: Some("From Audible".to_string()),
        asin: Some("B00".to_string()),
    }
}

fn bare(title: &str) -> BookMetadata {
    BookMetadata {
        title: title.to_string(),
        subtitle: None,
        author: "Ann Author".to_string(),
        narrator: None,
        series: None,
        sequence: None,
        genres: vec![],
        publisher: None,
        year: None,
        description: None,
        isbn: None,
    }
}

#[test]
fn year_is_the_four_digits_before_the_first_dash() {
    assert_eq!(parse_year("2021-01-02"), Some("2021".to_string()));
    assert_eq!(parse_year("1999"), Some("1999".to_string()));
    assert_eq!(parse_year("199"), None);
    assert_eq!(parse_year("19999-01"), None);
    assert_eq!(parse_year("Jan 2021"), None);
    assert_eq!(parse_year("20a1-01"), None);
    assert_eq!(parse_year(""), None);
    assert_eq!(parse_year("-2021"), None);
}

#[test]
fn reliable_year_prefers_audible() {
    assert_eq!(find_reliable_year(&Some(google()), &Some(audible())), Some("2021".to_string()));
    assert_eq!(find_reliable_year(&Some(google()), &None), Some("1999".to_string()));
    assert_eq!(find_reliable_year(&None, &None), None);
    let mut undated = audible();
    undated.release_date = Some("soon".to_string());
    assert_eq!(find_reliable_year(&Some(google()), &Some(undated)), Some("1999".to_string()));
}

#[test]
fn fallback_takes_each_field_from_its_one_source() {
    let m = build_fallback("Dawn", "Ann Author", &Some(google()), &Some(audible()));
    assert_eq!(
        m,
        BookMetadata {
            title: "Dawn".to_string(),
            subtitle: None,
            author: "Ann Author".to_string(),
            narrator: Some("Jane Doe".to_string()),
            series: Some("Days".to_string()),
            sequence: Some("2".to_string()),
            genres: vec![],
            publisher: Some("G Press".to_string()),
            year: Some("2021".to_string()),
            description: Some("From Google".to_string()),
            isbn: Some("123".to_string()),
        }
    );
}

#[test]
fn fallback_without_sources_keeps_the_identity_only() {
    assert_eq!(build_fallback("Dawn", "Ann Author", &None, &None), bare("Dawn"));
}

#[test]
fn fallback_takes_publisher_and_description_from_google_books_alone() {
    let only_audible = build_fallback("Dawn", "Ann Author", &None, &Some(audible()));
    assert_eq!(only_audible.publisher, None);
    assert_eq!(only_audible.description, None);
    assert_eq!(only_audible.isbn, None);
    assert_eq!(only_audible.narrator, Some("Jane Doe".to_string()));
    assert_eq!(only_audible.series, Some("Days".to_string()));
    assert_eq!(only_audible.sequence, Some("2".to_string()));
    assert_eq!(only_audible.year, Some("2021".to_string()));
    let mut sparse = google();
    sparse.publisher = None;
    sparse.description = None;
    let both = build_fallback("Dawn", "Ann Author", &Some(sparse), &Some(audible()));
    assert_eq!(both.publisher, None);
    assert_eq!(both.description, None);
    assert_eq!(both.isbn, Some("123".to_string()));
    let only_google = build_fallback("Dawn", "Ann Author", &Some(google()), &None);
    assert_eq!(only_google.publisher, Some("G Press".to_string()));
    assert_eq!(only_google.description, Some("From Google".to_string()));
    assert_eq!(only_google.narrator, None);
    assert_eq!(only_google.series, None);
    assert_eq!(only_google.sequence, None);
    assert_eq!(only_google.year, Some("1999".to_string()));
    assert_eq!(only_google.subtitle, None);
    assert!(only_google.genres.is_empty());
}

#[test]
fn reliable_year_overrides_the_reconciled_year() {
    let mut given = bare("Dawn: A Tale");
    given.year = Some("1875".to_string());
    let m = finish_merge(Some(given.clone()), "Dawn", "Ann Author", &Some(google()), &None);
    assert_eq!(m.year, Some("1999".to_string()));
    assert_eq!(m.title, "Dawn: A Tale");
    let kept = finish_merge(Some(given.clone()), "Dawn", "Ann Author", &None, &None);
    assert_eq!(kept, given);
}

#[test]
fn outcome_carries_approved_genres_only() {
    let mut given = bare("Dawn");
    given.genres = ["sci-fi", "Epic Fantasy", "fantasy", "Horror", "Cooking", "Romance", "Mystery"]
        .iter()
        .map(|g| g.to_string())
        .collect();
    let m = finish_merge(Some(given), "Dawn", "Ann Author", &None, &None);
    assert_eq!(m.genres, vec!["Fantasy", "Horror", "Romance"]);
    let mut unknown = bare("Dawn");
    unknown.genres = vec!["Cooking".to_string()];
    assert!(finish_merge(Some(unknown), "Dawn", "Ann Author", &None, &None).genres.is_empty());
    let mut approved = bare("Dawn");
    approved.genres = vec!["Science Fiction".to_string(), "Adventure".to_string()];
    let kept = finish_merge(Some(approved.clone()), "Dawn", "Ann Author", &None, &None);
    assert_eq!(kept, approved);
}

#[test]
fn unreadable_reply_gives_the_fallback() {
    let m = finish_merge(None, "Dawn", "Ann Author", &Some(google()), &Some(audible()));
    assert_eq!(m, build_fallback("Dawn", "Ann Author", &Some(google()), &Some(audible())));
}

#[test]
fn bare_title_scores_thirty() {
    assert_eq!(validate_metadata_quality(&bare("Dawn"), "Dawn", &None), 30);
    assert_eq!(validate_metadata_quality(&bare("Dawn"), "Dawn", &Some(audible())), 30);
    assert_eq!(validate_metadata_quality(&bare("Dusk"), "Dawn", &None), 0);
    assert_eq!(validate_metadata_quality(&bare("The Dawn Saga"), "Dawn", &None), 30);
}

#[test]
fn each_criterion_adds_its_points() {
    let mut m = bare("Dawn");
    m.narrator = Some("Jane".to_string());
    assert_eq!(validate_metadata_quality(&m, "Dawn", &None), 30);
    assert_eq!(validate_metadata_quality(&m, "Dawn", &Some(audible())), 50);
    m.narrator = Some(String::new());
    assert_eq!(validate_metadata_quality(&m, "Dawn", &Some(audible())), 30);
    m.narrator = Some("Jane".to_string());
    m.description = Some("x".repeat(99));
    assert_eq!(validate_metadata_quality(&m, "Dawn", &Some(audible())), 50);
    m.description = Some("x".repeat(100));
    assert_eq!(validate_metadata_quality(&m, "Dawn", &Some(audible())), 70);
    m.description = Some("x".repeat(1000));
    assert_eq!(validate_metadata_quality(&m, "Dawn", &Some(audible())), 70);
    m.description = Some("x".repeat(1001));
    assert_eq!(validate_metadata_quality(&m, "Dawn", &Some(audible())), 50);
    m.description = Some("é".repeat(50));
    assert_eq!(validate_metadata_quality(&m, "Dawn", &Some(audible())), 70);
    m.genres = vec!["Fantasy".to_string()];
    assert_eq!(validate_metadata_quality(&m, "Dawn", &Some(audible())), 85);
    m.genres = vec!["a".to_string(), "b".to_string(), "c".to_string(), "d".to_string()];
    assert_eq!(validate_metadata_quality(&m, "Dawn", &Some(audible())), 70);
    m.series = Some("Days".to_string());
    assert_eq!(validate_metadata_quality(&m, "Dawn", &Some(audible())), 70);
    m.sequence = Some("2".to_string());
    assert_eq!(validate_metadata_quality(&m, "Dawn", &Some(audible())), 80);
    m.year = Some("2021".to_string());
    assert_eq!(validate_metadata_quality(&m, "Dawn", &Some(audible())), 85);
    m.genres = vec!["Fantasy".to_string()];
    m.publisher = Some("P".to_string());
    assert_eq!(validate_metadata_quality(&m, "Dawn", &Some(audible())), 100);
}

#[test]
fn retry_goes_on_until_accepted_or_exhausted() {
    assert_eq!(ACCEPT_SCORE, 80);
    assert_eq!(MAX_ATTEMPTS, 3);
    assert_eq!(decide_retry(1, 3, 80), RetryDecision::Accept);
    assert_eq!(decide_retry(3, 3, 100), RetryDecision::Accept);
    assert_eq!(decide_retry(1, 3, 79), RetryDecision::Retry);
    assert_eq!(decide_retry(2, 3, 0), RetryDecision::Retry);
    assert_eq!(decide_retry(3, 3, 79), RetryDecision::GiveUp);
    assert_eq!(decide_retry(1, 0, 79), RetryDecision::GiveUp);
    assert_eq!(decide_retry(4, 3, 79), RetryDecision::GiveUp);
}
