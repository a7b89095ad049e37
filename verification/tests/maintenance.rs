use audiobook_tagger::maintenance::{
    check_connection, genre_delete_url, report_normalization, report_removal, tally,
    unused_genres, Tally,
};

fn strings(items: &[&str]) -> Vec<String> {
    items.iter().map(|s| s.to_string()).collect()
}

#[test]
fn unused_genres_are_those_no_item_carries() {
    let offered = strings(&["Fantasy", "Cooking", "Horror", "Cooking", "fantasy"]);
    let items = vec![Some(strings(&["Fantasy", "Horror"])), None, Some(vec![]), Some(strings(&["Horror"]))];
    assert_eq!(unused_genres(&offered, &items), strings(&["Cooking", "Cooking", "fantasy"]));
    assert_eq!(unused_genres(&offered, &vec![]), offered);
    assert!(unused_genres(&vec![], &items).is_empty());
}

#[test]
fn genre_url_is_percent_encoded() {
    assert_eq!(genre_delete_url("http://abs:1337", "Fantasy"), "http://abs:1337/api/me/item/Fantasy");
    assert_eq!(
        genre_delete_url("http://abs", "Sci-Fi & Fantasy/é~_."),
        "http://abs/api/me/item/Sci-Fi%20%26%20Fantasy%2F%C3%A9~_."
    );
    assert_eq!(genre_delete_url("", ""), "/api/me/item/");
}

#[test]
fn tally_counts_both_kinds() {
    assert_eq!(tally(&vec![true, false, true, true]), Tally { done: 3, failed: 1 });
    assert_eq!(tally(&vec![]), Tally { done: 0, failed: 0 });
}

#[test]
fn reports_are_worded_with_the_counts() {
    assert_eq!(
        report_removal(Tally { done: 2, failed: 1 }, &strings(&["A", "B", "C"])),
        "Removed 2 unused genres from dropdown. 1 failed.\nRemoved: A, B, C"
    );
    assert_eq!(
        report_removal(Tally { done: 0, failed: 0 }, &vec![]),
        "No unused genres found. All genres in the dropdown are being used by books."
    );
    assert_eq!(
        report_normalization(12, 30, 0),
        "Normalized 12 items, skipped 30 (already correct/empty), 0 failed."
    );
}

#[test]
fn connection_needs_an_address() {
    let none = check_connection("");
    assert!(!none.success);
    assert_eq!(none.message, "No URL configured");
    let some = check_connection("http://abs");
    assert!(some.success);
    assert_eq!(some.message, "Connected to http://abs");
}
