//! The records that a scan reads and produces, each with its mathematical view.

use vstd::prelude::*;
use crate::text::string_views;
use crate::textmap::TextMap;

verus! {

/// The characters of an optional string.
pub open spec fn opt_view(o: Option<String>) -> Option<Seq<char>> {
    match o {
        Some(s) => Some(s@),
        None => None,
    }
}

/// A copy of `o` with the same characters.
pub fn copy_opt(o: &Option<String>) -> (r: Option<String>)
    ensures
        opt_view(r) == opt_view(*o),
{
    match o {
        Some(s) => Some(s.clone()),
        None => None,
    }
}

/// A copy of `v` holding the same strings in the same order.
pub fn copy_strings(v: &Vec<String>) -> (r: Vec<String>)
    ensures
        string_views(r@) == string_views(v@),
{
    let mut r: Vec<String> = Vec::new();
    let mut i: usize = 0;
    while i < v.len()
        invariant
            i <= v.len(),
            string_views(r@) == string_views(v@).take(i as int),
        decreases v.len() - i,
    {
        let ghost before = r@;
        let item = v[i].clone();
        r.push(item);
        assert(string_views(r@) == string_views(before).push(item@));
        assert(string_views(v@).take(i + 1) == string_views(v@).take(i as int).push(v@[i as int]@));
        i += 1;
    }
    assert(string_views(v@).take(v.len() as int) == string_views(v@));
    r
}

/// Descriptive fields read from one audio file. A field that the file does
/// not carry is `None`, which is distinct from an empty string.
#[derive(Debug, PartialEq, Eq)]
pub struct FileTags {
    pub title: Option<String>,
    pub artist: Option<String>,
    pub album: Option<String>,
    pub album_artist: Option<String>,
    pub composer: Option<String>,
    pub genre: Option<String>,
    pub year: Option<String>,
    pub track: Option<String>,
    pub comment: Option<String>,
}

/// The mathematical view of `FileTags`.
pub struct FileTagsView {
    pub title: Option<Seq<char>>,
    pub artist: Option<Seq<char>>,
    pub album: Option<Seq<char>>,
    pub album_artist: Option<Seq<char>>,
    pub composer: Option<Seq<char>>,
    pub genre: Option<Seq<char>>,
    pub year: Option<Seq<char>>,
    pub track: Option<Seq<char>>,
    pub comment: Option<Seq<char>>,
}

impl View for FileTags {
    type V = FileTagsView;

    open spec fn view(&self) -> FileTagsView {
        FileTagsView {
            title: opt_view(self.title),
            artist: opt_view(self.artist),
            album: opt_view(self.album),
            album_artist: opt_view(self.album_artist),
            composer: opt_view(self.composer),
            genre: opt_view(self.genre),
            year: opt_view(self.year),
            track: opt_view(self.track),
            comment: opt_view(self.comment),
        }
    }
}

impl Clone for FileTags {
    fn clone(&self) -> (r: Self)
        ensures
            r@ == self@,
    {
        FileTags {
            title: copy_opt(&self.title),
            artist: copy_opt(&self.artist),
            album: copy_opt(&self.album),
            album_artist: copy_opt(&self.album_artist),
            composer: copy_opt(&self.composer),
            genre: copy_opt(&self.genre),
            year: copy_opt(&self.year),
            track: copy_opt(&self.track),
            comment: copy_opt(&self.comment),
        }
    }
}

impl FileTags {
    /// The snapshot of a file whose tags could not be read: every field absent.
    pub fn empty() -> (r: Self)
        ensures
            r@ == (FileTagsView {
                title: None,
                artist: None,
                album: None,
                album_artist: None,
                composer: None,
                genre: None,
                year: None,
                track: None,
                comment: None,
            }),
    {
        FileTags {
            title: None,
            artist: None,
            album: None,
            album_artist: None,
            composer: None,
            genre: None,
            year: None,
            track: None,
            comment: None,
        }
    }
}

/// One audio file found by a scan.
#[derive(Debug, PartialEq, Eq)]
pub struct RawFileData {
    pub id: String,
    pub path: String,
    pub filename: String,
    pub tags: FileTags,
}

/// The mathematical view of `RawFileData`.
pub struct RawFileDataView {
    pub id: Seq<char>,
    pub path: Seq<char>,
    pub filename: Seq<char>,
    pub tags: FileTagsView,
}

impl View for RawFileData {
    type V = RawFileDataView;

    open spec fn view(&self) -> RawFileDataView {
        RawFileDataView {
            id: self.id@,
            path: self.path@,
            filename: self.filename@,
            tags: self.tags@,
        }
    }
}

impl Clone for RawFileData {
    fn clone(&self) -> (r: Self)
        ensures
            r@ == self@,
    {
        RawFileData {
            id: self.id.clone(),
            path: self.path.clone(),
            filename: self.filename.clone(),
            tags: self.tags.clone(),
        }
    }
}

/// The views of a sequence of file records.
pub open spec fn file_views(files: Seq<RawFileData>) -> Seq<RawFileDataView> {
    Seq::new(files.len(), |i: int| files[i]@)
}

/// Structural kind of a group of audio files.
#[derive(Debug, Clone, Copy, PartialEq, Eq, Structural)]
pub enum GroupType {
    /// Exactly one file.
    Single,
    /// Several files that together are one book.
    Chapters,
    /// A folder that bundles several distinct books.
    Series,
}

/// The canonical description of one book.
#[derive(Debug, PartialEq, Eq)]
pub struct BookMetadata {
    pub title: String,
    pub subtitle: Option<String>,
    pub author: String,
    pub narrator: Option<String>,
    pub series: Option<String>,
    pub sequence: Option<String>,
    pub genres: Vec<String>,
    pub publisher: Option<String>,
    pub year: Option<String>,
    pub description: Option<String>,
    pub isbn: Option<String>,
}

/// The mathematical view of `BookMetadata`.
pub struct BookMetadataView {
    pub title: Seq<char>,
    pub subtitle: Option<Seq<char>>,
    pub author: Seq<char>,
    pub narrator: Option<Seq<char>>,
    pub series: Option<Seq<char>>,
    pub sequence: Option<Seq<char>>,
    pub genres: Seq<Seq<char>>,
    pub publisher: Option<Seq<char>>,
    pub year: Option<Seq<char>>,
    pub description: Option<Seq<char>>,
    pub isbn: Option<Seq<char>>,
}

impl View for BookMetadata {
    type V = BookMetadataView;

    open spec fn view(&self) -> BookMetadataView {
        BookMetadataView {
            title: self.title@,
            subtitle: opt_view(self.subtitle),
            author: self.author@,
            narrator: opt_view(self.narrator),
            series: opt_view(self.series),
            sequence: opt_view(self.sequence),
            genres: string_views(self.genres@),
            publisher: opt_view(self.publisher),
            year: opt_view(self.year),
            description: opt_view(self.description),
            isbn: opt_view(self.isbn),
        }
    }
}

impl Clone for BookMetadata {
    fn clone(&self) -> (r: Self)
        ensures
            r@ == self@,
    {
        BookMetadata {
            title: self.title.clone(),
            subtitle: copy_opt(&self.subtitle),
            author: self.author.clone(),
            narrator: copy_opt(&self.narrator),
            series: copy_opt(&self.series),
            sequence: copy_opt(&self.sequence),
            genres: copy_strings(&self.genres),
            publisher: copy_opt(&self.publisher),
            year: copy_opt(&self.year),
            description: copy_opt(&self.description),
            isbn: copy_opt(&self.isbn),
        }
    }
}

/// The view of an optional metadata record.
pub open spec fn metadata_view(o: Option<BookMetadata>) -> Option<BookMetadataView> {
    match o {
        Some(m) => Some(m@),
        None => None,
    }
}

/// The value of one field before and after a proposed change.
#[derive(Debug, PartialEq, Eq)]
pub struct FieldChange {
    pub old: String,
    pub new: String,
}

/// The mathematical view of `FieldChange`.
pub struct FieldChangeView {
    pub old: Seq<char>,
    pub new: Seq<char>,
}

impl View for FieldChange {
    type V = FieldChangeView;

    open spec fn view(&self) -> FieldChangeView {
        FieldChangeView { old: self.old@, new: self.new@ }
    }
}

impl Clone for FieldChange {
    fn clone(&self) -> (r: Self)
        ensures
            r@ == self@,
    {
        FieldChange { old: self.old.clone(), new: self.new.clone() }
    }
}


/// The proposed changes of one file, by field name.
pub type ChangeSet = TextMap<FieldChange>;

/// The views of the changes of a change set, by field name.
pub open spec fn change_views(changes: ChangeSet) -> Map<Seq<char>, FieldChangeView> {
    changes@.map_values(|c: FieldChange| c@)
}

/// One file of a book group with the changes proposed for it.
#[derive(Debug)]
pub struct AudioFile {
    pub id: String,
    pub path: String,
    pub filename: String,
    /// `"changed"` where `changes` holds an entry, else `"unchanged"`.
    pub status: String,
    pub changes: ChangeSet,
}

/// The mathematical view of `AudioFile`.
pub struct AudioFileView {
    pub id: Seq<char>,
    pub path: Seq<char>,
    pub filename: Seq<char>,
    pub status: Seq<char>,
    pub changes: Map<Seq<char>, FieldChangeView>,
}

impl View for AudioFile {
    type V = AudioFileView;

    open spec fn view(&self) -> AudioFileView {
        AudioFileView {
            id: self.id@,
            path: self.path@,
            filename: self.filename@,
            status: self.status@,
            changes: change_views(self.changes),
        }
    }
}

/// The views of a sequence of result files.
pub open spec fn audio_file_views(files: Seq<AudioFile>) -> Seq<AudioFileView> {
    Seq::new(files.len(), |i: int| files[i]@)
}

/// One logical book of a scan: its files, its canonical metadata and the
/// number of its files for which a change is proposed.
#[derive(Debug)]
pub struct BookGroup {
    pub id: String,
    pub group_name: String,
    pub group_type: GroupType,
    pub files: Vec<AudioFile>,
    pub metadata: BookMetadata,
    pub total_changes: usize,
}

/// The mathematical view of `BookGroup`.
pub struct BookGroupView {
    pub id: Seq<char>,
    pub group_name: Seq<char>,
    pub group_type: GroupType,
    pub files: Seq<AudioFileView>,
    pub metadata: BookMetadataView,
    pub total_changes: nat,
}

impl View for BookGroup {
    type V = BookGroupView;

    open spec fn view(&self) -> BookGroupView {
        BookGroupView {
            id: self.id@,
            group_name: self.group_name@,
            group_type: self.group_type,
            files: audio_file_views(self.files@),
            metadata: self.metadata@,
            total_changes: self.total_changes as nat,
        }
    }
}

/// The views of a sequence of book groups.
pub open spec fn group_views(groups: Seq<BookGroup>) -> Seq<BookGroupView> {
    Seq::new(groups.len(), |i: int| groups[i]@)
}

} // verus!
