use std::collections::HashMap;

use audiobook_tagger::grouping::{is_accepted_file, name_shows_chapter};
use audiobook_tagger::identity::clean_completion;
use audiobook_tagger::library_sync::{
    find_matching_item, index_library_items, normalize_path, split_authors, LibraryIndex,
    LibraryItem,
};
use audiobook_tagger::processed::{comment_has_narrator, narrator_from_comment, split_genre_tag};
use audiobook_tagger::text::{
    chars_end_with, chars_have, chars_start_with, find_chars, replace_chars, split_chars,
    squeeze_chars, strip_prefix_all_chars, strip_suffix_all_chars, to_chars, trim_chars,
};
use audiobook_tagger::textmap::TextMap;

/// Every string over `alphabet` of at most `max` characters.
fn words(alphabet: &[char], max: usize) -> Vec<String> {
    let mut all = vec![String::new()];
    let mut last = vec![String::new()];
    for _ in 0..max {
        let mut next = Vec::new();
        for w in &last {
            for c in alphabet {
                let mut longer = w.clone();
                longer.push(*c);
                next.push(longer);
            }
        }
        all.extend(next.iter().cloned());
        last = next;
    }
    all
}

fn s(v: &Vec<char>) -> String {
    v.iter().collect()
}

#[test]
fn search_and_replace_agree_with_std() {
    let texts = words(&['a', 'b', ' '], 5);
    let patterns = words(&['a', 'b', ' '], 2);
    for text in &texts {
        let t = to_chars(text);
        for pat in &patterns {
            let p = to_chars(pat);
            assert_eq!(chars_have(&t, &p), text.contains(pat.as_str()), "{:?} {:?}", text, pat);
            assert_eq!(chars_start_with(&t, &p), text.starts_with(pat.as_str()));
            assert_eq!(chars_end_with(&t, &p), text.ends_with(pat.as_str()));
            assert_eq!(find_chars(&t, &p), text.find(pat.as_str()));
            if !pat.is_empty() {
                assert_eq!(s(&replace_chars(&t, &p, &to_chars("xy"))), text.replace(pat.as_str(), "xy"));
                assert_eq!(s(&strip_prefix_all_chars(&t, &p)), text.trim_start_matches(pat.as_str()));
                assert_eq!(s(&strip_suffix_all_chars(&t, &p)), text.trim_end_matches(pat.as_str()));
            }
        }
    }
}

#[test]
fn trim_and_split_agree_with_std() {
    for text in words(&['a', ',', ' ', '\t'], 6) {
        let t = to_chars(&text);
        assert_eq!(s(&trim_chars(&t)), text.trim(), "{:?}", text);
        let pieces: Vec<String> = split_chars(&t, ',').iter().map(s).collect();
        let expected: Vec<String> = text.split(',').map(|p| p.to_string()).collect();
        assert_eq!(pieces, expected, "{:?}", text);
        let trimmed: Vec<String> = text.split(',').map(|p| p.trim().to_string()).collect();
        assert_eq!(split_genre_tag(&text), trimmed, "{:?}", text);
        let squeezed = s(&squeeze_chars(&t));
        assert!(!squeezed.contains("  ") && !squeezed.contains('\t'), "{:?}", text);
        assert_eq!(
            squeezed.split(' ').filter(|w| !w.is_empty()).collect::<Vec<_>>(),
            text.split_whitespace().collect::<Vec<_>>()
        );
    }
}

#[test]
fn path_normalization_agrees_with_the_direct_rule() {
    for path in words(&['a', '/', '\\', ' '], 6) {
        let trimmed = path.trim();
        let expected = if trimmed.is_empty() {
            String::new()
        } else {
            let mut normalized = trimmed.replace('\\', "/");
            while normalized.ends_with('/') && normalized.len() > 1 {
                normalized.pop();
            }
            normalized
        };
        assert_eq!(normalize_path(&path), expected, "{:?}", path);
    }
}

#[test]
fn item_matching_agrees_with_a_hash_map_walk() {
    let keys = ["/", "/a", "/a/b", "a", "/b/a"];
    let mut index: LibraryIndex = TextMap::new();
    let page: Vec<LibraryItem> = keys
        .iter()
        .map(|k| LibraryItem { id: format!("id {}", k), path: k.to_string(), is_file: false })
        .collect();
    index_library_items(&mut index, &page);
    let map: HashMap<String, String> =
        keys.iter().map(|k| (k.to_string(), format!("id {}", k))).collect();
    for path in words(&['a', 'b', '/'], 6) {
        let expected = {
            let mut found = map.get(&path);
            let mut current = path.clone();
            while found.is_none() {
                match current.rfind('/') {
                    Some(0) => {
                        found = map.get("/");
                        break;
                    }
                    Some(pos) => {
                        current.truncate(pos);
                        found = map.get(&current);
                    }
                    None => break,
                }
            }
            found.cloned()
        };
        assert_eq!(find_matching_item(&path, &index).map(|i| i.id.clone()), expected, "{:?}", path);
    }
}

#[test]
fn author_splitting_agrees_with_the_direct_rule() {
    let mut cases = words(&['a', '&', ' ', ';', '/', '|'], 5);
    for extra in ["a and b", " and ", "a and", "and b", "a & b and c/d|e;f", "band and"] {
        cases.push(extra.to_string());
    }
    for author in cases {
        let trimmed = author.trim();
        let expected: Vec<String> = if trimmed.is_empty() {
            Vec::new()
        } else if !(trimmed.contains('&')
            || trimmed.contains(" and ")
            || trimmed.contains(';')
            || trimmed.contains('/')
            || trimmed.contains('|'))
        {
            vec![trimmed.to_string()]
        } else {
            trimmed
                .replace(" & ", ";")
                .replace(" and ", ";")
                .replace('/', ";")
                .replace('|', ";")
                .split(';')
                .map(|p| p.trim())
                .filter(|p| !p.is_empty())
                .map(|p| p.to_string())
                .collect()
        };
        assert_eq!(split_authors(&author), expected, "{:?}", author);
    }
}

#[test]
fn chapter_markers_agree_with_the_pattern_list() {
    let names = [
        "01 a", "1 a", "001 a", "01-a", "x ch 1", "x ch.1", "Chapter", "TRACK", "part ", "part",
        "Disc", "4 a", "04 a", "a 01 ", "", " ", "dis c", "cha pter", "ch ", " ch", "3-", "03", "3 ",
    ];
    for name in names {
        let n = name.to_lowercase();
        let expected = n.contains(" ch ")
            || n.contains(" ch.")
            || n.contains("chapter")
            || n.contains("track")
            || n.contains("part ")
            || n.contains("disc")
            || ["01 ", "02 ", "03 ", "1 ", "2 ", "3 ", "01-", "02-", "03-", "001 ", "002 ", "003 "]
                .iter()
                .any(|p| n.starts_with(p));
        assert_eq!(name_shows_chapter(name), expected, "{:?}", name);
    }
}

#[test]
fn accepted_extensions_agree_with_the_allow_list() {
    for ext in ["m4b", "m4a", "mp3", "flac", "ogg", "M4B", "Ogg", "fLaC", "mp4", "", "m4", "oggs", "wav", "aac"] {
        let expected = matches!(ext.to_lowercase().as_str(), "m4b" | "m4a" | "mp3" | "flac" | "ogg");
        for name in ["a.x", "._a.x", ".DS_Store", ".DS_Storex", "._", ".", "_.a"] {
            let hidden = name.starts_with("._") || name.starts_with(".DS_Store");
            assert_eq!(is_accepted_file(ext, name), expected && !hidden, "{:?} {:?}", ext, name);
        }
    }
}

#[test]
fn narrator_reading_agrees_with_the_direct_rule() {
    for comment in [
        "Narrated by Jane", "Read by Jane", "Narrated by ", "Read by Read by X", "narrated by x",
        "x Narrated by y", "", "Narrated by Read by Z", "Read by Narrated by Z",
    ] {
        let expected = if comment.starts_with("Narrated by ") {
            Some(comment.trim_start_matches("Narrated by ").to_string())
        } else if comment.starts_with("Read by ") {
            Some(comment.trim_start_matches("Read by ").to_string())
        } else {
            None
        };
        assert_eq!(narrator_from_comment(comment), expected, "{:?}", comment);
        assert_eq!(
            comment_has_narrator(comment),
            comment.contains("Narrated by ") || comment.contains("Read by ")
        );
    }
}

#[test]
fn completion_cleaning_agrees_with_the_direct_rule() {
    let mut cases = words(&['`', '{', ' '], 6);
    for extra in ["```json{}```", " ```json\n{}\n``` ", "```json```json{}", "{}```json", "json", "``json{}"] {
        cases.push(extra.to_string());
    }
    for content in cases {
        let trimmed = content.trim();
        let expected = if trimmed.is_empty() {
            None
        } else {
            Some(
                trimmed
                    .trim_start_matches("```json")
                    .trim_start_matches("```")
                    .trim_end_matches("```")
                    .trim()
                    .to_string(),
            )
        };
        assert_eq!(clean_completion(&content), expected, "{:?}", content);
    }
}
