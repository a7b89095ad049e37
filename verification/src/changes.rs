//! The differences between the tags a file carries and the canonical
//! metadata of its book.

use vstd::prelude::*;
use crate::model::{
    change_views, AudioFile, AudioFileView, BookMetadata, BookMetadataView, ChangeSet,
    FieldChange, FieldChangeView, FileTags, FileTagsView, RawFileData, RawFileDataView,
};
use crate::text::{from_chars, join, join_chars, str_eq, string_views, to_chars, views};
use crate::textmap::TextMap;

verus! {

/// The comment that records a narrator.
pub open spec fn narrator_note(name: Seq<char>) -> Seq<char> {
    "Narrated by "@ + name
}

/// The genre tag that records a genre list.
pub open spec fn genre_line(genres: Seq<Seq<char>>) -> Seq<char> {
    join(genres, ", "@)
}

/// A change from `old` to `new`, unless the two are equal.
pub open spec fn change_if_differs(old: Seq<char>, new: Seq<char>) -> Option<FieldChangeView> {
    if old == new {
        None
    } else {
        Some(FieldChangeView { old, new })
    }
}

/// The change proposed for one field, if any. A title or author is compared
/// only where the file carries one. A narrator is recorded wherever the
/// metadata names one, against the comment the file carried. A genre list is
/// recorded where the metadata holds genres and their line differs from the
/// file's genre tag; a file without a genre tag counts as one with an empty
/// tag.
pub open spec fn field_change(
    field: Seq<char>,
    tags: FileTagsView,
    meta: BookMetadataView,
) -> Option<FieldChangeView> {
    if field == "title"@ {
        match tags.title {
            Some(old) => change_if_differs(old, meta.title),
            None => None,
        }
    } else if field == "author"@ {
        match tags.artist {
            Some(old) => change_if_differs(old, meta.author),
            None => None,
        }
    } else if field == "narrator"@ {
        match meta.narrator {
            Some(name) => Some(
                FieldChangeView {
                    old: match tags.comment {
                        Some(c) => c,
                        None => Seq::empty(),
                    },
                    new: narrator_note(name),
                },
            ),
            None => None,
        }
    } else if field == "genre"@ {
        if meta.genres.len() == 0 {
            None
        } else {
            match tags.genre {
                Some(old) => change_if_differs(old, genre_line(meta.genres)),
                None => change_if_differs(Seq::empty(), genre_line(meta.genres)),
            }
        }
    } else {
        None
    }
}

/// The changes proposed for a file: an entry for each field that has one,
/// and no entry for any other field.
pub open spec fn changes_of(tags: FileTagsView, meta: BookMetadataView) -> Map<
    Seq<char>,
    FieldChangeView,
> {
    Map::new(
        |f: Seq<char>| field_change(f, tags, meta) is Some,
        |f: Seq<char>| field_change(f, tags, meta)->0,
    )
}

/// Position of a field in the order in which changes are recorded.
pub open spec fn field_rank(field: Seq<char>) -> int {
    if field == "title"@ {
        0
    } else if field == "author"@ {
        1
    } else if field == "narrator"@ {
        2
    } else if field == "genre"@ {
        3
    } else {
        4
    }
}

/// The changes of the fields that come before position `n`.
pub open spec fn changes_before(n: int, tags: FileTagsView, meta: BookMetadataView) -> Map<
    Seq<char>,
    FieldChangeView,
> {
    Map::new(
        |f: Seq<char>| field_rank(f) < n && field_change(f, tags, meta) is Some,
        |f: Seq<char>| field_change(f, tags, meta)->0,
    )
}

/// The four field names are pairwise distinct.
pub proof fn lemma_field_names_distinct()
    ensures
        "title"@ != "author"@,
        "title"@ != "narrator"@,
        "title"@ != "genre"@,
        "author"@ != "narrator"@,
        "author"@ != "genre"@,
        "narrator"@ != "genre"@,
        field_rank("title"@) == 0,
        field_rank("author"@) == 1,
        field_rank("narrator"@) == 2,
        field_rank("genre"@) == 3,
{
    reveal_strlit("title");
    reveal_strlit("author");
    reveal_strlit("narrator");
    reveal_strlit("genre");
    assert("title"@.len() == 5 && "author"@.len() == 6 && "narrator"@.len() == 8 && "genre"@.len()
        == 5);
    assert("title"@[0] == 't' && "genre"@[0] == 'g');
}

/// The status of a file with these changes.
pub open spec fn status_of(changes: Map<Seq<char>, FieldChangeView>) -> Seq<char> {
    if changes == Map::<Seq<char>, FieldChangeView>::empty() {
        "unchanged"@
    } else {
        "changed"@
    }
}

/// A file whose title tag equals the canonical title gets no `"title"` entry.
pub proof fn law_equal_title_is_omitted(tags: FileTagsView, meta: BookMetadataView)
    requires
        tags.title == Some(meta.title),
    ensures
        !changes_of(tags, meta).contains_key("title"@),
{
}

/// An entry for a title, an author or a genre list always pairs two values
/// that differ: where the old value equals the new one, the field is left
/// out. Only the narrator is recorded whatever the comment was.
pub proof fn law_entries_differ(tags: FileTagsView, meta: BookMetadataView, field: Seq<char>)
    requires
        changes_of(tags, meta).contains_key(field),
        field != "narrator"@,
    ensures
        changes_of(tags, meta)[field].old != changes_of(tags, meta)[field].new,
{
}

/// The genre tag that records `genres`.
pub fn make_genre_line(genres: &Vec<String>) -> (r: String)
    ensures
        r@ == genre_line(string_views(genres@)),
{
    let mut parts: Vec<Vec<char>> = Vec::new();
    let mut i: usize = 0;
    while i < genres.len()
        invariant
            i <= genres.len(),
            views(parts@) == string_views(genres@).take(i as int),
        decreases genres.len() - i,
    {
        let ghost before = parts@;
        let piece = to_chars(genres[i].as_str());
        parts.push(piece);
        assert(views(parts@) == views(before).push(piece@));
        assert(string_views(genres@).take(i + 1) == string_views(genres@).take(i as int).push(
            genres@[i as int]@,
        ));
        i += 1;
    }
    assert(string_views(genres@).take(genres.len() as int) == string_views(genres@));
    let sep = to_chars(", ");
    from_chars(&join_chars(&parts, &sep))
}

fn text_or_empty(o: &Option<String>) -> (r: String)
    ensures
        r@ == match crate::model::opt_view(*o) {
            Some(c) => c,
            None => Seq::empty(),
        },
{
    match o {
        Some(s) => s.clone(),
        None => String::new(),
    }
}

/// The changes that bring the tags of one file to the canonical metadata.
pub fn compute_changes(tags: &FileTags, metadata: &BookMetadata) -> (r: ChangeSet)
    ensures
        change_views(r) == changes_of(tags@, metadata@),
{
    let mut changes: ChangeSet = TextMap::new();
    proof {
        lemma_field_names_distinct();
    }
    match &tags.title {
        Some(old) => {
            if !str_eq(old.as_str(), metadata.title.as_str()) {
                changes.insert(
                    String::from_str("title"),
                    FieldChange { old: old.clone(), new: metadata.title.clone() },
                );
            }
        },
        None => {},
    }
    assert(change_views(changes) =~= changes_before(1, tags@, metadata@));
    match &tags.artist {
        Some(old) => {
            if !str_eq(old.as_str(), metadata.author.as_str()) {
                changes.insert(
                    String::from_str("author"),
                    FieldChange { old: old.clone(), new: metadata.author.clone() },
                );
            }
        },
        None => {},
    }
    assert(change_views(changes) =~= changes_before(2, tags@, metadata@));
    match &metadata.narrator {
        Some(name) => {
            let mut note = String::from_str("Narrated by ");
            note.append(name.as_str());
            changes.insert(
                String::from_str("narrator"),
                FieldChange { old: text_or_empty(&tags.comment), new: note },
            );
        },
        None => {},
    }
    assert(change_views(changes) =~= changes_before(3, tags@, metadata@));
    if metadata.genres.len() > 0 {
        let line = make_genre_line(&metadata.genres);
        match &tags.genre {
            Some(old) => {
                if !str_eq(old.as_str(), line.as_str()) {
                    changes.insert(
                        String::from_str("genre"),
                        FieldChange { old: old.clone(), new: line },
                    );
                }
            },
            None => {
                if !line.as_str().is_empty() {
                    changes.insert(
                        String::from_str("genre"),
                        FieldChange { old: String::new(), new: line },
                    );
                } else {
                    assert(line@ =~= Seq::<char>::empty());
                }
            },
        }
    }
    assert(change_views(changes) =~= changes_before(4, tags@, metadata@));
    assert(changes_before(4, tags@, metadata@) =~= changes_of(tags@, metadata@));
    changes
}

/// The file as a scan reports it when `metadata` is the canonical metadata
/// of its book.
pub open spec fn audio_file_of(file: RawFileDataView, meta: BookMetadataView) -> AudioFileView {
    AudioFileView {
        id: file.id,
        path: file.path,
        filename: file.filename,
        status: status_of(changes_of(file.tags, meta)),
        changes: changes_of(file.tags, meta),
    }
}

/// The file as a scan reports it when its tags are kept as they are.
pub open spec fn untouched_file_of(file: RawFileDataView) -> AudioFileView {
    AudioFileView {
        id: file.id,
        path: file.path,
        filename: file.filename,
        status: "unchanged"@,
        changes: Map::empty(),
    }
}

/// Reports `file` with the changes that `metadata` asks for.
pub fn diff_file(file: &RawFileData, metadata: &BookMetadata) -> (r: AudioFile)
    ensures
        r@ == audio_file_of(file@, metadata@),
{
    let changes = compute_changes(&file.tags, metadata);
    let status = if changes.is_empty() {
        String::from_str("unchanged")
    } else {
        String::from_str("changed")
    };
    proof {
        if changes@ == Map::<Seq<char>, FieldChange>::empty() {
            assert(change_views(changes) =~= Map::<Seq<char>, FieldChangeView>::empty());
        } else {
            let k = choose|k: Seq<char>| changes@.contains_key(k);
            if !changes@.contains_key(k) {
                assert(changes@ =~= Map::<Seq<char>, FieldChange>::empty());
            }
            assert(change_views(changes).contains_key(k));
        }
    }
    AudioFile {
        id: file.id.clone(),
        path: file.path.clone(),
        filename: file.filename.clone(),
        status,
        changes,
    }
}

/// Reports `file` without any change.
pub fn keep_file(file: &RawFileData) -> (r: AudioFile)
    ensures
        r@ == untouched_file_of(file@),
{
    let changes: ChangeSet = TextMap::new();
    assert(change_views(changes) =~= Map::<Seq<char>, FieldChangeView>::empty());
    AudioFile {
        id: file.id.clone(),
        path: file.path.clone(),
        filename: file.filename.clone(),
        status: String::from_str("unchanged"),
        changes,
    }
}

} // verus!
