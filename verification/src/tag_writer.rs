//! Turning the changes approved for a file into edits of its tags, and
//! summing up how the writing of a batch of files went.

use vstd::prelude::*;
use crate::model::{change_views, ChangeSet, FieldChangeView};
use crate::text::{
    chars_have, has_substring, lower, lower_chars, parse_u32, parsed_u32, sort_names,
    sort_strings, split, split_chars, str_eq, string_views, to_chars, trim_pieces, trimmed_pieces,
};
use crate::textmap::TextMap;

verus! {

/// One edit of the tags of a file.
#[derive(Debug, PartialEq, Eq)]
pub enum TagEdit {
    /// Replace the title.
    Title(String),
    /// Replace the artist, which names the author.
    Artist(String),
    /// Replace the album.
    Album(String),
    /// Replace the genres by these, one tag entry for each.
    Genres(Vec<String>),
    /// Write the narrator note into the composer field, in place of what is
    /// there, and remove the comment.
    Narrator(String),
    /// Replace the comment.
    Comment(String),
    /// Replace the year.
    Year(u32),
    /// Write the series name.
    Series(String),
    /// Write the place in the series.
    Sequence(String),
}

/// The mathematical view of `TagEdit`.
pub enum TagEditView {
    Title(Seq<char>),
    Artist(Seq<char>),
    Album(Seq<char>),
    Genres(Seq<Seq<char>>),
    Narrator(Seq<char>),
    Comment(Seq<char>),
    Year(u32),
    Series(Seq<char>),
    Sequence(Seq<char>),
}

impl View for TagEdit {
    type V = TagEditView;

    open spec fn view(&self) -> TagEditView {
        match *self {
            TagEdit::Title(s) => TagEditView::Title(s@),
            TagEdit::Artist(s) => TagEditView::Artist(s@),
            TagEdit::Album(s) => TagEditView::Album(s@),
            TagEdit::Genres(v) => TagEditView::Genres(string_views(v@)),
            TagEdit::Narrator(s) => TagEditView::Narrator(s@),
            TagEdit::Comment(s) => TagEditView::Comment(s@),
            TagEdit::Year(y) => TagEditView::Year(y),
            TagEdit::Series(s) => TagEditView::Series(s@),
            TagEdit::Sequence(s) => TagEditView::Sequence(s@),
        }
    }
}

/// The views of a sequence of edits.
pub open spec fn edit_views(v: Seq<TagEdit>) -> Seq<TagEditView> {
    Seq::new(v.len(), |i: int| v[i]@)
}

/// The genres that a genre line names: its pieces between commas, trimmed,
/// without the empty ones.
pub open spec fn genres_of_line(line: Seq<char>) -> Seq<Seq<char>> {
    trimmed_pieces(split(line, ','))
}

/// The edit that brings the field `field` to the value `new`, if the field
/// is one that is written. `author` counts as `artist` and `description` as
/// `comment`. A comment that holds `narrated by`, in any ASCII letter case,
/// is not written: the narrator has a field of its own. A year is written
/// only where it is a number.
pub open spec fn edit_for(field: Seq<char>, new: Seq<char>) -> Option<TagEditView> {
    if field == "title"@ {
        Some(TagEditView::Title(new))
    } else if field == "artist"@ || field == "author"@ {
        Some(TagEditView::Artist(new))
    } else if field == "album"@ {
        Some(TagEditView::Album(new))
    } else if field == "genre"@ {
        Some(TagEditView::Genres(genres_of_line(new)))
    } else if field == "narrator"@ {
        Some(TagEditView::Narrator(new))
    } else if field == "description"@ || field == "comment"@ {
        if has_substring(lower(new), "narrated by"@) {
            None
        } else {
            Some(TagEditView::Comment(new))
        }
    } else if field == "year"@ {
        match parsed_u32(new) {
            Some(y) => Some(TagEditView::Year(y)),
            None => None,
        }
    } else if field == "series"@ {
        Some(TagEditView::Series(new))
    } else if field == "sequence"@ {
        Some(TagEditView::Sequence(new))
    } else {
        None
    }
}

/// The edits for the fields `keys`, in their order, with the values that
/// `changes` gives them; a field that `changes` does not hold has no edit.
pub open spec fn planned_edits(
    keys: Seq<Seq<char>>,
    changes: Map<Seq<char>, FieldChangeView>,
) -> Seq<TagEditView>
    decreases keys.len(),
{
    if keys.len() == 0 {
        Seq::empty()
    } else {
        let before = planned_edits(keys.drop_last(), changes);
        if changes.contains_key(keys.last()) {
            match edit_for(keys.last(), changes[keys.last()].new) {
                Some(edit) => before.push(edit),
                None => before,
            }
        } else {
            before
        }
    }
}

/// The edits that write a set of changes: those of its fields, taken in the
/// ascending order of the field names, whatever the order in which the
/// changes were recorded. A comment is thus written before a narrator, and
/// the narrator's edit then removes it.
pub open spec fn edits_of(keys: Seq<Seq<char>>, changes: Map<Seq<char>, FieldChangeView>) -> Seq<
    TagEditView,
> {
    planned_edits(sort_names(keys), changes)
}

/// The edit that brings one field to a new value.
pub fn plan_tag_edit(field: &str, new: &str) -> (r: Option<TagEdit>)
    ensures
        match r {
            Some(edit) => edit_for(field@, new@) == Some(edit@),
            None => edit_for(field@, new@) is None,
        },
{
    if str_eq(field, "title") {
        Some(TagEdit::Title(String::from_str(new)))
    } else if str_eq(field, "artist") || str_eq(field, "author") {
        Some(TagEdit::Artist(String::from_str(new)))
    } else if str_eq(field, "album") {
        Some(TagEdit::Album(String::from_str(new)))
    } else if str_eq(field, "genre") {
        let pieces = split_chars(&to_chars(new), ',');
        Some(TagEdit::Genres(trim_pieces(&pieces)))
    } else if str_eq(field, "narrator") {
        Some(TagEdit::Narrator(String::from_str(new)))
    } else if str_eq(field, "description") || str_eq(field, "comment") {
        if chars_have(&lower_chars(&to_chars(new)), &to_chars("narrated by")) {
            None
        } else {
            Some(TagEdit::Comment(String::from_str(new)))
        }
    } else if str_eq(field, "year") {
        match parse_u32(new) {
            Some(y) => Some(TagEdit::Year(y)),
            None => None,
        }
    } else if str_eq(field, "series") {
        Some(TagEdit::Series(String::from_str(new)))
    } else if str_eq(field, "sequence") {
        Some(TagEdit::Sequence(String::from_str(new)))
    } else {
        None
    }
}

/// The edits that write the changes of one file, in the ascending order of
/// the field names.
pub fn plan_tag_edits(changes: &ChangeSet) -> (r: Vec<TagEdit>)
    ensures
        edit_views(r@) == edits_of(changes.key_seq(), change_views(*changes)),
{
    let n = changes.len();
    let mut names: Vec<String> = Vec::new();
    let mut k: usize = 0;
    assert(string_views(names@) == changes.key_seq().take(0));
    while k < n
        invariant
            k <= n,
            n == changes.key_seq().len(),
            string_views(names@) == changes.key_seq().take(k as int),
        decreases n - k,
    {
        let ghost before = names@;
        let name = changes.key_at(k).clone();
        names.push(name);
        assert(string_views(names@) == string_views(before).push(name@));
        assert(changes.key_seq().take(k + 1) == changes.key_seq().take(k as int).push(name@));
        k += 1;
    }
    assert(changes.key_seq().take(n as int) == changes.key_seq());
    let sorted = sort_strings(&names);
    let mut edits: Vec<TagEdit> = Vec::new();
    let ghost keys = string_views(sorted@);
    let ghost map = change_views(*changes);
    let mut i: usize = 0;
    proof {
        assert(keys.take(0) == Seq::<Seq<char>>::empty());
        assert(edit_views(edits@) == Seq::<TagEditView>::empty());
    }
    while i < sorted.len()
        invariant
            i <= sorted.len(),
            keys == string_views(sorted@),
            map == change_views(*changes),
            edit_views(edits@) == planned_edits(keys.take(i as int), map),
        decreases sorted.len() - i,
    {
        let ghost before = edits@;
        proof {
            let now = keys.take(i + 1);
            assert(now.drop_last() == keys.take(i as int));
            assert(now.last() == sorted@[i as int]@);
            assert(map.dom() =~= changes@.dom());
        }
        match changes.get(sorted[i].as_str()) {
            Some(change) => {
                assert(map[sorted@[i as int]@] == change@);
                match plan_tag_edit(sorted[i].as_str(), change.new.as_str()) {
                    Some(edit) => {
                        edits.push(edit);
                        assert(edit_views(edits@) == edit_views(before).push(edit@));
                    },
                    None => {},
                }
            },
            None => {},
        }
        i += 1;
    }
    assert(keys.take(sorted.len() as int) == keys);
    edits
}

/// A file that could not be written, and why.
#[derive(Debug, PartialEq, Eq)]
pub struct WriteError {
    pub file_id: String,
    pub path: String,
    pub error: String,
}

/// The mathematical view of `WriteError`.
pub struct WriteErrorView {
    pub file_id: Seq<char>,
    pub path: Seq<char>,
    pub error: Seq<char>,
}

impl View for WriteError {
    type V = WriteErrorView;

    open spec fn view(&self) -> WriteErrorView {
        WriteErrorView { file_id: self.file_id@, path: self.path@, error: self.error@ }
    }
}

/// The views of a sequence of write errors.
pub open spec fn write_error_views(v: Seq<WriteError>) -> Seq<WriteErrorView> {
    Seq::new(v.len(), |i: int| v[i]@)
}

/// How the writing of a batch of files went.
#[derive(Debug, PartialEq, Eq)]
pub struct WriteResult {
    pub success: usize,
    pub failed: usize,
    pub errors: Vec<WriteError>,
}

/// One file of a batch: what it is, and the error its writing met, if any.
#[derive(Debug, PartialEq, Eq)]
pub struct WriteAttempt {
    pub file_id: String,
    pub path: String,
    pub error: Option<String>,
}

/// The mathematical view of `WriteAttempt`.
pub struct WriteAttemptView {
    pub file_id: Seq<char>,
    pub path: Seq<char>,
    pub error: Option<Seq<char>>,
}

impl View for WriteAttempt {
    type V = WriteAttemptView;

    open spec fn view(&self) -> WriteAttemptView {
        WriteAttemptView {
            file_id: self.file_id@,
            path: self.path@,
            error: crate::model::opt_view(self.error),
        }
    }
}

/// The views of a sequence of attempts.
pub open spec fn attempt_views(v: Seq<WriteAttempt>) -> Seq<WriteAttemptView> {
    Seq::new(v.len(), |i: int| v[i]@)
}

/// The errors that the attempts met, in the order of the attempts.
pub open spec fn errors_of(attempts: Seq<WriteAttemptView>) -> Seq<WriteErrorView>
    decreases attempts.len(),
{
    if attempts.len() == 0 {
        Seq::empty()
    } else {
        let before = errors_of(attempts.drop_last());
        match attempts.last().error {
            Some(error) => before.push(
                WriteErrorView {
                    file_id: attempts.last().file_id,
                    path: attempts.last().path,
                    error,
                },
            ),
            None => before,
        }
    }
}

/// Sums up a batch: every attempt counts as a success or as a failure, and
/// each failure is listed with its error.
pub fn summarize_writes(attempts: &Vec<WriteAttempt>) -> (r: WriteResult)
    ensures
        write_error_views(r.errors@) == errors_of(attempt_views(attempts@)),
        r.failed == r.errors.len(),
        r.success + r.failed == attempts.len(),
{
    let mut errors: Vec<WriteError> = Vec::new();
    let mut success: usize = 0;
    let ghost all = attempt_views(attempts@);
    let mut i: usize = 0;
    proof {
        assert(all.take(0) == Seq::<WriteAttemptView>::empty());
        assert(write_error_views(errors@) == Seq::<WriteErrorView>::empty());
    }
    while i < attempts.len()
        invariant
            i <= attempts.len(),
            all == attempt_views(attempts@),
            write_error_views(errors@) == errors_of(all.take(i as int)),
            success + errors.len() == i,
        decreases attempts.len() - i,
    {
        let ghost before = errors@;
        proof {
            let now = all.take(i + 1);
            assert(now.drop_last() == all.take(i as int));
            assert(now.last() == attempts@[i as int]@);
        }
        match &attempts[i].error {
            Some(error) => {
                let entry = WriteError {
                    file_id: attempts[i].file_id.clone(),
                    path: attempts[i].path.clone(),
                    error: error.clone(),
                };
                errors.push(entry);
                assert(write_error_views(errors@) == write_error_views(before).push(entry@));
            },
            None => {
                success += 1;
            },
        }
        i += 1;
    }
    assert(all.take(attempts.len() as int) == all);
    let failed = errors.len();
    WriteResult { success, failed, errors }
}

/// The identifiers among `file_ids`, in their order, for which `files`
/// holds something to write.
pub open spec fn known_ids(file_ids: Seq<Seq<char>>, known: Set<Seq<char>>) -> Seq<Seq<char>>
    decreases file_ids.len(),
{
    if file_ids.len() == 0 {
        Seq::empty()
    } else if known.contains(file_ids.last()) {
        known_ids(file_ids.drop_last(), known).push(file_ids.last())
    } else {
        known_ids(file_ids.drop_last(), known)
    }
}

/// A file to write: where it lies, and what is to change.
#[derive(Debug)]
pub struct FileData {
    pub path: String,
    pub changes: ChangeSet,
}

/// The files for which a write was asked and for which something to write
/// is at hand.
pub fn select_writes(file_ids: &Vec<String>, files: &TextMap<FileData>) -> (r: Vec<String>)
    ensures
        string_views(r@) == known_ids(string_views(file_ids@), files@.dom()),
{
    let mut out: Vec<String> = Vec::new();
    let ghost all = string_views(file_ids@);
    let mut i: usize = 0;
    proof {
        assert(all.take(0) == Seq::<Seq<char>>::empty());
        assert(string_views(out@) == Seq::<Seq<char>>::empty());
    }
    while i < file_ids.len()
        invariant
            i <= file_ids.len(),
            all == string_views(file_ids@),
            string_views(out@) == known_ids(all.take(i as int), files@.dom()),
        decreases file_ids.len() - i,
    {
        let ghost before = out@;
        proof {
            let now = all.take(i + 1);
            assert(now.drop_last() == all.take(i as int));
            assert(now.last() == file_ids@[i as int]@);
        }
        if files.contains_key(file_ids[i].as_str()) {
            let id = file_ids[i].clone();
            out.push(id);
            assert(string_views(out@) == string_views(before).push(id@));
        }
        i += 1;
    }
    assert(all.take(file_ids.len() as int) == all);
    out
}

} // verus!
