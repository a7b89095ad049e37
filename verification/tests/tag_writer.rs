use audiobook_tagger::model::{ChangeSet, FieldChange};
use audiobook_tagger::tag_writer::{
    plan_tag_edit, plan_tag_edits, select_writes, summarize_writes, FileData, TagEdit,
    WriteAttempt, WriteError,
};
use audiobook_tagger::textmap::TextMap;

fn to(new: &str) -> FieldChange {
    FieldChange { old: String::new(), new: new.to_string() }
}

#[test]
fn each_field_has_its_edit() {
    assert_eq!(plan_tag_edit("title", "Dawn"), Some(TagEdit::Title("Dawn".to_string())));
    assert_eq!(plan_tag_edit("artist", "Ann"), Some(TagEdit::Artist("Ann".to_string())));
    assert_eq!(plan_tag_edit("author", "Ann"), Some(TagEdit::Artist("Ann".to_string())));
    assert_eq!(plan_tag_edit("album", "Dawn"), Some(TagEdit::Album("Dawn".to_string())));
    assert_eq!(
        plan_tag_edit("genre", "Fantasy, ,Adventure ,"),
        Some(TagEdit::Genres(vec!["Fantasy".to_string(), "Adventure".to_string()]))
    );
    assert_eq!(plan_tag_edit("genre", ""), Some(TagEdit::Genres(vec![])));
    assert_eq!(
        plan_tag_edit("narrator", "Narrated by Jane"),
        Some(TagEdit::Narrator("Narrated by Jane".to_string()))
    );
    assert_eq!(plan_tag_edit("comment", "A tale"), Some(TagEdit::Comment("A tale".to_string())));
    assert_eq!(plan_tag_edit("description", "A tale"), Some(TagEdit::Comment("A tale".to_string())));
    assert_eq!(plan_tag_edit("comment", "NARRATED BY Jane"), None);
    assert_eq!(plan_tag_edit("year", "1999"), Some(TagEdit::Year(1999)));
    assert_eq!(plan_tag_edit("year", "c. 1999"), None);
    assert_eq!(plan_tag_edit("series", "Days"), Some(TagEdit::Series("Days".to_string())));
    assert_eq!(plan_tag_edit("sequence", "2"), Some(TagEdit::Sequence("2".to_string())));
    assert_eq!(plan_tag_edit("Title", "Dawn"), None);
    assert_eq!(plan_tag_edit("publisher", "P"), None);
}

#[test]
fn edits_follow_the_order_of_the_field_names() {
    let mut changes: ChangeSet = TextMap::new();
    changes.insert("title".to_string(), to("Old"));
    changes.insert("narrator".to_string(), to("Narrated by Jane"));
    changes.insert("unknown".to_string(), to("x"));
    changes.insert("comment".to_string(), to("A tale"));
    changes.insert("year".to_string(), to("soon"));
    changes.insert("title".to_string(), to("Dawn"));
    changes.insert("album".to_string(), to("Days"));
    let expected = vec![
        TagEdit::Album("Days".to_string()),
        TagEdit::Comment("A tale".to_string()),
        TagEdit::Narrator("Narrated by Jane".to_string()),
        TagEdit::Title("Dawn".to_string()),
    ];
    assert_eq!(plan_tag_edits(&changes), expected);
    let mut reversed: ChangeSet = TextMap::new();
    for field in ["year", "unknown", "title", "narrator", "comment", "album"] {
        reversed.insert(field.to_string(), changes.get(field).unwrap().clone());
    }
    assert_eq!(plan_tag_edits(&reversed), expected);
    assert!(plan_tag_edits(&TextMap::new()).is_empty());
}

#[test]
fn write_summary_lists_each_failure() {
    let attempts = vec![
        WriteAttempt { file_id: "1".into(), path: "/a".into(), error: None },
        WriteAttempt { file_id: "2".into(), path: "/b".into(), error: Some("File does not exist: /b".into()) },
        WriteAttempt { file_id: "3".into(), path: "/c".into(), error: None },
    ];
    let result = summarize_writes(&attempts);
    assert_eq!(result.success, 2);
    assert_eq!(result.failed, 1);
    assert_eq!(
        result.errors,
        vec![WriteError {
            file_id: "2".to_string(),
            path: "/b".to_string(),
            error: "File does not exist: /b".to_string(),
        }]
    );
    let none = summarize_writes(&vec![]);
    assert_eq!((none.success, none.failed, none.errors.len()), (0, 0, 0));
}

#[test]
fn only_known_files_are_written() {
    let mut files: TextMap<FileData> = TextMap::new();
    files.insert("1".to_string(), FileData { path: "/a".to_string(), changes: TextMap::new() });
    files.insert("3".to_string(), FileData { path: "/c".to_string(), changes: TextMap::new() });
    let ids: Vec<String> = ["3", "2", "1", "3"].iter().map(|s| s.to_string()).collect();
    assert_eq!(select_writes(&ids, &files), vec!["3", "1", "3"]);
    assert_eq!(files.get("3").map(|f| f.path.as_str()), Some("/c"));
}
