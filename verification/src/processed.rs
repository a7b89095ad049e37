//! Recognizing files whose tags were already normalized, and reading their
//! canonical metadata back from those tags.

use vstd::prelude::*;
use crate::genres::{genre_is_approved, is_approved, MAX_GENRES};
use crate::model::{copy_opt, opt_view, BookMetadata, BookMetadataView, FileTags, FileTagsView};
use crate::text::{
    chars_have, chars_start_with, from_chars, has_substring, split, split_chars, starts_with,
    string_views, strip_prefix_all, strip_prefix_all_chars, to_chars, trim, trim_chars, views,
};

verus! {

/// Whether a comment names a narrator in one of the two recognized forms.
pub open spec fn has_narrator_marker(comment: Seq<char>) -> bool {
    has_substring(comment, "Narrated by "@) || has_substring(comment, "Read by "@)
}

/// The pieces of a genre tag between commas, each without surrounding white
/// space.
pub open spec fn genre_segments(genre: Seq<char>) -> Seq<Seq<char>> {
    Seq::new(split(genre, ',').len(), |i: int| trim(split(genre, ',')[i]))
}

/// Whether a genre tag holds one to three segments of which at least one is
/// an approved genre.
pub open spec fn has_clean_genres(genre: Seq<char>) -> bool {
    let segments = genre_segments(genre);
    &&& 1 <= segments.len() <= MAX_GENRES
    &&& exists|i: int| 0 <= i < segments.len() && is_approved(#[trigger] segments[i])
}

/// Whether tags are in the form that a completed scan leaves behind: the
/// comment names a narrator and the genre tag is clean.
pub open spec fn already_processed(tags: FileTagsView) -> bool {
    &&& tags.comment matches Some(comment) && has_narrator_marker(comment)
    &&& tags.genre matches Some(genre) && has_clean_genres(genre)
}

/// Tags whose genre tag names no approved genre are never taken as
/// normalized.
pub proof fn law_unapproved_tags_are_not_processed(tags: FileTagsView)
    requires
        tags.genre matches Some(genre) ==> forall|i: int|
            0 <= i < genre_segments(genre).len() ==> !is_approved(#[trigger] genre_segments(genre)[i]),
    ensures
        !already_processed(tags),
{
}

/// Tags without a narrator marker in the comment are never taken as
/// normalized.
pub proof fn law_unmarked_comment_is_not_processed(tags: FileTagsView)
    requires
        tags.comment matches Some(comment) ==> !has_narrator_marker(comment),
    ensures
        !already_processed(tags),
{
}

/// The narrator that a comment names at its start, the marker taken off as
/// often as it is repeated there.
pub open spec fn tagged_narrator(comment: Seq<char>) -> Option<Seq<char>> {
    if starts_with(comment, "Narrated by "@) {
        Some(strip_prefix_all(comment, "Narrated by "@))
    } else if starts_with(comment, "Read by "@) {
        Some(strip_prefix_all(comment, "Read by "@))
    } else {
        None
    }
}

/// The canonical metadata that already-normalized tags stand for. The folder
/// name serves as title where the tags carry none.
pub open spec fn tagged_metadata(tags: FileTagsView, folder_name: Seq<char>) -> BookMetadataView {
    BookMetadataView {
        title: match tags.title {
            Some(t) => t,
            None => folder_name,
        },
        subtitle: None,
        author: match tags.artist {
            Some(a) => a,
            None => "Unknown"@,
        },
        narrator: match tags.comment {
            Some(c) => tagged_narrator(c),
            None => None,
        },
        series: None,
        sequence: None,
        genres: match tags.genre {
            Some(g) => genre_segments(g),
            None => Seq::empty(),
        },
        publisher: None,
        year: tags.year,
        description: None,
        isbn: None,
    }
}

/// The segments of a genre tag.
pub fn split_genre_tag(genre: &str) -> (r: Vec<String>)
    ensures
        string_views(r@) == genre_segments(genre@),
        r.len() >= 1,
{
    let parts = split_chars(&to_chars(genre), ',');
    let mut out: Vec<String> = Vec::new();
    let mut i: usize = 0;
    while i < parts.len()
        invariant
            i <= parts.len(),
            views(parts@) == split(genre@, ','),
            string_views(out@) == genre_segments(genre@).take(i as int),
        decreases parts.len() - i,
    {
        let ghost before = out@;
        let piece = from_chars(&trim_chars(&parts[i]));
        assert(views(parts@)[i as int] == parts@[i as int]@);
        out.push(piece);
        assert(string_views(out@) == string_views(before).push(piece@));
        assert(genre_segments(genre@).take(i + 1) == genre_segments(genre@).take(i as int).push(
            genre_segments(genre@)[i as int],
        ));
        i += 1;
    }
    assert(genre_segments(genre@).take(parts.len() as int) == genre_segments(genre@));
    out
}

/// Whether a comment names a narrator in one of the two recognized forms.
pub fn comment_has_narrator(comment: &str) -> (r: bool)
    ensures
        r == has_narrator_marker(comment@),
{
    let chars = to_chars(comment);
    chars_have(&chars, &to_chars("Narrated by ")) || chars_have(&chars, &to_chars("Read by "))
}

/// Whether a genre tag is clean.
pub fn genre_tag_is_clean(genre: &str) -> (r: bool)
    ensures
        r == has_clean_genres(genre@),
{
    let segments = split_genre_tag(genre);
    if segments.len() > MAX_GENRES {
        return false;
    }
    let mut i: usize = 0;
    while i < segments.len()
        invariant
            i <= segments.len(),
            1 <= segments.len() <= MAX_GENRES,
            string_views(segments@) == genre_segments(genre@),
            forall|j: int| 0 <= j < i ==> !is_approved(#[trigger] genre_segments(genre@)[j]),
        decreases segments.len() - i,
    {
        assert(string_views(segments@)[i as int] == segments@[i as int]@);
        if genre_is_approved(segments[i].as_str()) {
            assert(is_approved(genre_segments(genre@)[i as int]));
            return true;
        }
        i += 1;
    }
    false
}

/// Whether the tags are in the form that a completed scan leaves behind, so
/// that they can be taken as canonical without asking any outside source.
pub fn is_already_processed(tags: &FileTags) -> (r: bool)
    ensures
        r == already_processed(tags@),
{
    let has_narrator = match &tags.comment {
        Some(c) => comment_has_narrator(c.as_str()),
        None => false,
    };
    let has_genres = match &tags.genre {
        Some(g) => genre_tag_is_clean(g.as_str()),
        None => false,
    };
    has_narrator && has_genres
}

/// The narrator that a comment names at its start.
pub fn narrator_from_comment(comment: &str) -> (r: Option<String>)
    ensures
        opt_view(r) == tagged_narrator(comment@),
{
    let chars = to_chars(comment);
    let narrated = to_chars("Narrated by ");
    let read = to_chars("Read by ");
    if chars_start_with(&chars, &narrated) {
        Some(from_chars(&strip_prefix_all_chars(&chars, &narrated)))
    } else if chars_start_with(&chars, &read) {
        Some(from_chars(&strip_prefix_all_chars(&chars, &read)))
    } else {
        None
    }
}

/// Reads canonical metadata back from already-normalized tags.
pub fn metadata_from_tags(tags: &FileTags, folder_name: &str) -> (r: BookMetadata)
    ensures
        r@ == tagged_metadata(tags@, folder_name@),
{
    let genres = match &tags.genre {
        Some(g) => split_genre_tag(g.as_str()),
        None => Vec::new(),
    };
    assert(tags.genre is None ==> string_views(genres@) == Seq::<Seq<char>>::empty());
    BookMetadata {
        title: match &tags.title {
            Some(t) => t.clone(),
            None => String::from_str(folder_name),
        },
        subtitle: None,
        author: match &tags.artist {
            Some(a) => a.clone(),
            None => String::from_str("Unknown"),
        },
        narrator: match &tags.comment {
            Some(c) => narrator_from_comment(c.as_str()),
            None => None,
        },
        series: None,
        sequence: None,
        genres,
        publisher: None,
        year: copy_opt(&tags.year),
        description: None,
        isbn: None,
    }
}

} // verus!
