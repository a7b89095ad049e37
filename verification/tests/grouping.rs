use audiobook_tagger::grouping::{
    all_same_title, detect_group_type, group_files, group_key_of, has_chapter_indicators,
    is_accepted_file, key_of_file_path, name_shows_chapter, parent_folder_of, sort_files_by_name,
};
use audiobook_tagger::model::{FileTags, GroupType, RawFileData};

fn file(path: &str, filename: &str, title: Option<&str>) -> RawFileData {
    let mut tags = FileTags::empty();
    tags.title = title.map(|t| t.to_string());
    RawFileData {
        id: format!("id-{}", path),
        path: path.to_string(),
        filename: filename.to_string(),
        tags,
    }
}

#[test]
fn accepts_audio_extensions_in_any_case() {
    for ext in ["m4b", "M4A", "Mp3", "FLAC", "ogg"] {
        assert!(is_accepted_file(ext, "book.x"), "{}", ext);
    }
    for ext in ["", "txt", "mp4", "m4b ", "wav"] {
        assert!(!is_accepted_file(ext, "book.x"), "{}", ext);
    }
}

#[test]
fn rejects_hidden_and_system_files() {
    assert!(!is_accepted_file("mp3", "._track.mp3"));
    assert!(!is_accepted_file("mp3", ".DS_Store.mp3"));
    assert!(is_accepted_file("mp3", ".hidden.mp3"));
    assert!(is_accepted_file("mp3", "track._mp3"));
}

#[test]
fn parent_folder_is_the_component_before_the_last() {
    assert_eq!(parent_folder_of("/lib/Author/Book/01.mp3"), Some("Book".to_string()));
    assert_eq!(parent_folder_of("C:\\lib\\Book\\01.mp3"), Some("Book".to_string()));
    assert_eq!(parent_folder_of("/lib//Book/./01.mp3"), Some("Book".to_string()));
    assert_eq!(parent_folder_of("Book/01.mp3"), Some("Book".to_string()));
    assert_eq!(parent_folder_of("01.mp3"), None);
    assert_eq!(parent_folder_of("/01.mp3"), None);
    assert_eq!(parent_folder_of("a/../01.mp3"), None);
    assert_eq!(parent_folder_of(""), None);
}

#[test]
fn group_key_is_stable_under_marker_variants() {
    assert_eq!(group_key_of("Foo (book #3)"), "Foo (Book #3)");
    assert_eq!(group_key_of("Foo (Book#3)"), "Foo (Book #3)");
    assert_eq!(group_key_of("Foo (book #3)"), group_key_of("Foo (Book#3)"));
    assert_eq!(group_key_of("Foo (BOOK #12)"), group_key_of("Foo (book#12)"));
    for base in ["Foo", "", "Magic Tree House", "A (B)"] {
        for marker in ["book #", "Book #", "book#", "Book#", "BOOK #"] {
            let name = format!("{} ({}12)", base, marker);
            assert_eq!(group_key_of(&name), format!("{} (Book #12)", base), "{:?}", name);
        }
    }
    assert_eq!(group_key_of("Foo   (Book #3)"), "Foo (Book #3)");
    for marker in ["book #", "Book #", "book#", "Book#", "BOOK #"] {
        assert_eq!(group_key_of(&format!("Foo - ({}3)", marker)), "Foo (Book #3)");
        assert_eq!(
            group_key_of(&format!("A (Book #1) b ({}3)", marker)),
            group_key_of("A (Book #1) b")
        );
    }
    assert_eq!(group_key_of("Foo - Book #3 - The Title"), "Foo (Book #3)");
    assert_eq!(group_key_of("Foo (Book #3) [Unabridged]"), "Foo (Book #3)");
}

#[test]
fn group_key_keeps_names_without_numbered_marker() {
    assert_eq!(group_key_of("Dinosaurs Before Dark"), "Dinosaurs Before Dark");
    assert_eq!(group_key_of("My Book # One"), "My Book # One");
    assert_eq!(group_key_of("Book"), "Book");
    assert_eq!(group_key_of(""), "Unknown");
    assert_eq!(group_key_of("(Book #7)"), " (Book #7)");
    assert_eq!(group_key_of("book#7"), " (Book #7)");
    assert_eq!(group_key_of("Notebook #3"), "Note (Book #3)");
    assert_eq!(group_key_of("A book # x, book#4 b"), "A book # x (Book #4)");
}

#[test]
fn key_of_path_uses_the_parent_folder() {
    assert_eq!(key_of_file_path("/lib/Foo (book #3)/01.mp3"), "Foo (Book #3)");
    assert_eq!(key_of_file_path("01.mp3"), "Unknown");
}

#[test]
fn single_file_group_is_single() {
    let files = vec![file("/a/B/Chapter 01.mp3", "Chapter 01.mp3", Some("Ch1"))];
    assert_eq!(detect_group_type(&files), GroupType::Single);
    let plain = vec![file("/a/B/x.mp3", "x.mp3", None)];
    assert_eq!(detect_group_type(&plain), GroupType::Single);
}

#[test]
fn multi_file_groups_are_chapters() {
    let marked = vec![
        file("/a/B/Chapter 01.mp3", "Chapter 01.mp3", None),
        file("/a/B/Chapter 02.mp3", "Chapter 02.mp3", None),
    ];
    assert_eq!(detect_group_type(&marked), GroupType::Chapters);
    let plain = vec![file("/a/B/x.mp3", "x.mp3", Some("X")), file("/a/B/y.mp3", "y.mp3", Some("Y"))];
    assert_eq!(detect_group_type(&plain), GroupType::Chapters);
    let none: Vec<RawFileData> = vec![];
    assert_eq!(detect_group_type(&none), GroupType::Chapters);
}

#[test]
fn chapter_markers_are_found_in_any_case() {
    for name in [
        "Book CHAPTER 3.mp3", "x ch 2.mp3", "x ch.2.mp3", "Track07.mp3", "Part 1.mp3",
        "Disc2.mp3", "01 Intro.mp3", "2 Intro.mp3", "03-Intro.mp3", "002 Intro.mp3",
    ] {
        assert!(name_shows_chapter(name), "{}", name);
    }
    for name in ["Intro.mp3", "04 Intro.mp3", "10 Intro.mp3", "parting.mp3", "a01 .mp3"] {
        assert!(!name_shows_chapter(name), "{}", name);
    }
    let files = vec![file("/a/x.mp3", "x.mp3", None), file("/a/Part 2.mp3", "Part 2.mp3", None)];
    assert!(has_chapter_indicators(&files));
    assert!(!has_chapter_indicators(&files[..1]));
}

#[test]
fn same_title_needs_one_title_among_those_present() {
    let a = file("/a/x.mp3", "x.mp3", Some("T"));
    let b = file("/a/y.mp3", "y.mp3", None);
    let c = file("/a/z.mp3", "z.mp3", Some("T"));
    let d = file("/a/w.mp3", "w.mp3", Some("U"));
    assert!(all_same_title(&[a.clone(), b.clone(), c.clone()]));
    assert!(!all_same_title(&[a.clone(), d.clone()]));
    assert!(!all_same_title(&[b.clone()]));
    assert!(!all_same_title(&[]));
}

#[test]
fn sort_by_name_is_stable() {
    let files = vec![
        file("/1/b.mp3", "b.mp3", None),
        file("/2/a.mp3", "a.mp3", None),
        file("/3/b.mp3", "b.mp3", None),
        file("/4/B.mp3", "B.mp3", None),
    ];
    let sorted = sort_files_by_name(&files);
    let paths: Vec<&str> = sorted.iter().map(|f| f.path.as_str()).collect();
    assert_eq!(paths, vec!["/4/B.mp3", "/2/a.mp3", "/1/b.mp3", "/3/b.mp3"]);
}

#[test]
fn grouping_does_not_depend_on_traversal_order() {
    let files = vec![
        file("/lib/Zed/02.mp3", "02.mp3", None),
        file("/lib/Foo (Book#3)/b.mp3", "b.mp3", None),
        file("/lib/Zed/01.mp3", "01.mp3", None),
        file("/lib/Foo (book #3)/a.mp3", "a.mp3", None),
    ];
    let mut reversed = files.clone();
    reversed.reverse();
    for input in [files, reversed] {
        let groups = group_files(&input);
        let shape: Vec<(String, Vec<String>)> = groups
            .iter()
            .map(|g| (g.key.clone(), g.files.iter().map(|f| f.filename.clone()).collect()))
            .collect();
        assert_eq!(
            shape,
            vec![
                ("Foo (Book #3)".to_string(), vec!["a.mp3".to_string(), "b.mp3".to_string()]),
                ("Zed".to_string(), vec!["01.mp3".to_string(), "02.mp3".to_string()]),
            ]
        );
    }
    assert!(group_files(&vec![]).is_empty());
}
