//! Listing everything a file carries in its tags, for the user to look at.

use vstd::prelude::*;
use crate::model::opt_view;
use crate::text::{
    chars_have, decimal, decimal_string, has_substring, str_eq, string_views, to_chars,
};

verus! {

/// One line of the listing: a key, its value, and the kind of tag it was
/// found in.
#[derive(Debug, PartialEq, Eq)]
pub struct TagEntry {
    pub key: String,
    pub value: String,
    pub tag_type: String,
}

/// The mathematical view of `TagEntry`.
pub struct TagEntryView {
    pub key: Seq<char>,
    pub value: Seq<char>,
    pub tag_type: Seq<char>,
}

impl View for TagEntry {
    type V = TagEntryView;

    open spec fn view(&self) -> TagEntryView {
        TagEntryView { key: self.key@, value: self.value@, tag_type: self.tag_type@ }
    }
}

/// The views of a sequence of entries.
pub open spec fn entry_views(v: Seq<TagEntry>) -> Seq<TagEntryView> {
    Seq::new(v.len(), |i: int| v[i]@)
}

/// The listing of one file.
#[derive(Debug, PartialEq, Eq)]
pub struct RawTags {
    pub file_path: String,
    pub file_format: String,
    pub duration_seconds: Option<u64>,
    pub bitrate: Option<u32>,
    pub sample_rate: Option<u32>,
    pub tags: Vec<TagEntry>,
}

/// What kind of key a tag item has.
#[derive(Debug, Clone, Copy, PartialEq, Eq, Structural)]
pub enum ItemKind {
    TrackTitle,
    TrackArtist,
    AlbumTitle,
    Genre,
    Comment,
    Year,
    Composer,
    /// A key that the codec does not know; the item carries its name.
    Custom,
    /// Any other key that the codec knows.
    Other,
}

/// One item of a tag as the codec reads it.
#[derive(Debug, PartialEq, Eq)]
pub struct TagItem {
    pub kind: ItemKind,
    /// The name of the key where it is `Custom`.
    pub custom_name: String,
    /// The codec's own name for the key.
    pub key_name: String,
    /// The value, where it is text.
    pub text: Option<String>,
}

/// The mathematical view of `TagItem`.
pub struct TagItemView {
    pub kind: ItemKind,
    pub custom_name: Seq<char>,
    pub key_name: Seq<char>,
    pub text: Option<Seq<char>>,
}

impl View for TagItem {
    type V = TagItemView;

    open spec fn view(&self) -> TagItemView {
        TagItemView {
            kind: self.kind,
            custom_name: self.custom_name@,
            key_name: self.key_name@,
            text: opt_view(self.text),
        }
    }
}

/// The views of a sequence of items.
pub open spec fn tag_item_views(v: Seq<TagItem>) -> Seq<TagItemView> {
    Seq::new(v.len(), |i: int| v[i]@)
}

/// One tag of a file as the codec reads it.
#[derive(Debug, PartialEq, Eq)]
pub struct TagContents {
    /// The codec's name for the kind of tag.
    pub tag_type: String,
    pub title: Option<String>,
    pub artist: Option<String>,
    pub album: Option<String>,
    pub year: Option<u32>,
    pub comment: Option<String>,
    pub genres: Vec<String>,
    pub composers: Vec<String>,
    pub items: Vec<TagItem>,
}

/// The mathematical view of `TagContents`.
pub struct TagContentsView {
    pub tag_type: Seq<char>,
    pub title: Option<Seq<char>>,
    pub artist: Option<Seq<char>>,
    pub album: Option<Seq<char>>,
    pub year: Option<u32>,
    pub comment: Option<Seq<char>>,
    pub genres: Seq<Seq<char>>,
    pub composers: Seq<Seq<char>>,
    pub items: Seq<TagItemView>,
}

impl View for TagContents {
    type V = TagContentsView;

    open spec fn view(&self) -> TagContentsView {
        TagContentsView {
            tag_type: self.tag_type@,
            title: opt_view(self.title),
            artist: opt_view(self.artist),
            album: opt_view(self.album),
            year: self.year,
            comment: opt_view(self.comment),
            genres: string_views(self.genres@),
            composers: string_views(self.composers@),
            items: tag_item_views(self.items@),
        }
    }
}

/// The views of a sequence of tags.
pub open spec fn tag_views(v: Seq<TagContents>) -> Seq<TagContentsView> {
    Seq::new(v.len(), |i: int| v[i]@)
}

/// `entries` with one more entry, where there is a value for it.
pub open spec fn with_field(
    entries: Seq<TagEntryView>,
    key: Seq<char>,
    value: Option<Seq<char>>,
    tag_type: Seq<char>,
) -> Seq<TagEntryView> {
    match value {
        Some(v) => entries.push(TagEntryView { key, value: v, tag_type }),
        None => entries,
    }
}

/// `entries` with one entry for each of the first `n` genres, numbered
/// from 1.
pub open spec fn with_genres(
    entries: Seq<TagEntryView>,
    genres: Seq<Seq<char>>,
    n: int,
    tag_type: Seq<char>,
) -> Seq<TagEntryView>
    decreases n,
{
    if n <= 0 || n > genres.len() {
        entries
    } else {
        with_genres(entries, genres, n - 1, tag_type).push(
            TagEntryView { key: "Genre #"@ + decimal(n as nat), value: genres[n - 1], tag_type },
        )
    }
}

/// `entries` with one entry for each of the first `n` composers.
pub open spec fn with_composers(
    entries: Seq<TagEntryView>,
    composers: Seq<Seq<char>>,
    n: int,
    tag_type: Seq<char>,
) -> Seq<TagEntryView>
    decreases n,
{
    if n <= 0 || n > composers.len() {
        entries
    } else {
        with_composers(entries, composers, n - 1, tag_type).push(
            TagEntryView { key: "Composer (Narrator?)"@, value: composers[n - 1], tag_type },
        )
    }
}

/// The key under which an item of the main tag is listed, or `None` for an
/// item whose field is listed in another way.
pub open spec fn item_key(item: TagItemView) -> Option<Seq<char>> {
    match item.kind {
        ItemKind::TrackTitle => Some("TrackTitle (Raw)"@),
        ItemKind::TrackArtist => Some("TrackArtist (Raw)"@),
        ItemKind::AlbumTitle => Some("AlbumTitle (Raw)"@),
        ItemKind::Genre => None,
        ItemKind::Comment => None,
        ItemKind::Year => None,
        ItemKind::Composer => None,
        ItemKind::Custom => Some("Custom: "@ + item.custom_name),
        ItemKind::Other => Some(item.key_name),
    }
}

/// Whether one of the entries has the value `value`.
pub open spec fn has_value(entries: Seq<TagEntryView>, value: Seq<char>) -> bool {
    exists|i: int| 0 <= i < entries.len() && (#[trigger] entries[i]).value == value
}

/// `entries` with the first `n` items of the main tag. An item is listed
/// where it has a key to be listed under and a text value; a raw item, one
/// whose key holds `(Raw)`, is left out where its value is listed already.
pub open spec fn with_items(
    entries: Seq<TagEntryView>,
    items: Seq<TagItemView>,
    n: int,
    tag_type: Seq<char>,
) -> Seq<TagEntryView>
    decreases n,
{
    if n <= 0 || n > items.len() {
        entries
    } else {
        let before = with_items(entries, items, n - 1, tag_type);
        match (item_key(items[n - 1]), items[n - 1].text) {
            (Some(key), Some(value)) => if has_substring(key, "(Raw)"@) && has_value(
                before,
                value,
            ) {
                before
            } else {
                before.push(TagEntryView { key, value, tag_type })
            },
            _ => before,
        }
    }
}

/// The entries of the main tag of a file: title, artist, album, year and
/// comment where the tag has them, then its genres, its composers, and its
/// other items.
pub open spec fn primary_entries(tag: TagContentsView) -> Seq<TagEntryView> {
    let t = tag.tag_type;
    let a = with_field(Seq::empty(), "Title"@, tag.title, t);
    let b = with_field(a, "Artist/Author"@, tag.artist, t);
    let c = with_field(b, "Album"@, tag.album, t);
    let d = with_field(
        c,
        "Year"@,
        match tag.year {
            Some(y) => Some(decimal(y as nat)),
            None => None,
        },
        t,
    );
    let e = with_field(d, "Comment"@, tag.comment, t);
    let f = with_genres(e, tag.genres, tag.genres.len() as int, t);
    let g = with_composers(f, tag.composers, tag.composers.len() as int, t);
    with_items(g, tag.items, tag.items.len() as int, t)
}

/// `entries` with the first `n` items of a further tag: every item that has
/// a text value, under the codec's name for its key.
pub open spec fn with_secondary_items(
    entries: Seq<TagEntryView>,
    items: Seq<TagItemView>,
    n: int,
    tag_type: Seq<char>,
) -> Seq<TagEntryView>
    decreases n,
{
    if n <= 0 || n > items.len() {
        entries
    } else {
        let before = with_secondary_items(entries, items, n - 1, tag_type);
        match items[n - 1].text {
            Some(value) => before.push(
                TagEntryView { key: items[n - 1].key_name, value, tag_type },
            ),
            None => before,
        }
    }
}

/// `entries` with the items of the first `n` further tags, each tag marked
/// as secondary.
pub open spec fn with_secondary_tags(
    entries: Seq<TagEntryView>,
    tags: Seq<TagContentsView>,
    n: int,
) -> Seq<TagEntryView>
    decreases n,
{
    if n <= 0 || n > tags.len() {
        entries
    } else {
        with_secondary_items(
            with_secondary_tags(entries, tags, n - 1),
            tags[n - 1].items,
            tags[n - 1].items.len() as int,
            tags[n - 1].tag_type + " (Secondary)"@,
        )
    }
}

/// The listing of a file with this main tag, if it has one, and these
/// further tags.
pub open spec fn listing(primary: Option<TagContentsView>, others: Seq<TagContentsView>) -> Seq<
    TagEntryView,
> {
    with_secondary_tags(
        match primary {
            Some(tag) => primary_entries(tag),
            None => Seq::empty(),
        },
        others,
        others.len() as int,
    )
}

fn push_field(entries: &mut Vec<TagEntry>, key: &str, value: &Option<String>, tag_type: &str)
    ensures
        entry_views(final(entries)@) == with_field(
            entry_views(old(entries)@),
            key@,
            opt_view(*value),
            tag_type@,
        ),
{
    let ghost before = entries@;
    match value {
        Some(v) => {
            let entry = TagEntry {
                key: String::from_str(key),
                value: v.clone(),
                tag_type: String::from_str(tag_type),
            };
            entries.push(entry);
            assert(entry_views(entries@) == entry_views(before).push(entry@));
        },
        None => {},
    }
}

fn entries_have_value(entries: &Vec<TagEntry>, value: &str) -> (r: bool)
    ensures
        r == has_value(entry_views(entries@), value@),
{
    let mut i: usize = 0;
    while i < entries.len()
        invariant
            i <= entries.len(),
            forall|j: int| 0 <= j < i ==> (#[trigger] entry_views(entries@)[j]).value != value@,
        decreases entries.len() - i,
    {
        if str_eq(entries[i].value.as_str(), value) {
            assert(entry_views(entries@)[i as int].value == value@);
            return true;
        }
        i += 1;
    }
    false
}

fn key_of_item(item: &TagItem) -> (r: Option<String>)
    ensures
        opt_view(r) == item_key(item@),
{
    match item.kind {
        ItemKind::TrackTitle => Some(String::from_str("TrackTitle (Raw)")),
        ItemKind::TrackArtist => Some(String::from_str("TrackArtist (Raw)")),
        ItemKind::AlbumTitle => Some(String::from_str("AlbumTitle (Raw)")),
        ItemKind::Genre => None,
        ItemKind::Comment => None,
        ItemKind::Year => None,
        ItemKind::Composer => None,
        ItemKind::Custom => {
            let mut key = String::from_str("Custom: ");
            key.append(item.custom_name.as_str());
            Some(key)
        },
        ItemKind::Other => Some(item.key_name.clone()),
    }
}

fn push_primary(entries: &mut Vec<TagEntry>, tag: &TagContents)
    requires
        old(entries)@.len() == 0,
    ensures
        entry_views(final(entries)@) == primary_entries(tag@),
{
    let tag_type = tag.tag_type.as_str();
    let ghost t = tag.tag_type@;
    assert(entry_views(entries@) == Seq::<TagEntryView>::empty());
    push_field(entries, "Title", &tag.title, tag_type);
    push_field(entries, "Artist/Author", &tag.artist, tag_type);
    push_field(entries, "Album", &tag.album, tag_type);
    let year = match tag.year {
        Some(y) => Some(decimal_string(y as usize)),
        None => None,
    };
    push_field(entries, "Year", &year, tag_type);
    push_field(entries, "Comment", &tag.comment, tag_type);
    let ghost e = entry_views(entries@);
    let mut i: usize = 0;
    while i < tag.genres.len()
        invariant
            i <= tag.genres.len(),
            t == tag.tag_type@,
            tag_type@ == t,
            entry_views(entries@) == with_genres(e, string_views(tag.genres@), i as int, t),
        decreases tag.genres.len() - i,
    {
        let ghost before = entries@;
        let mut key = String::from_str("Genre #");
        let number = decimal_string(i + 1);
        key.append(number.as_str());
        let entry = TagEntry {
            key,
            value: tag.genres[i].clone(),
            tag_type: String::from_str(tag_type),
        };
        assert(string_views(tag.genres@)[i as int] == tag.genres@[i as int]@);
        entries.push(entry);
        assert(entry_views(entries@) == entry_views(before).push(entry@));
        i += 1;
    }
    let ghost f = entry_views(entries@);
    let mut k: usize = 0;
    while k < tag.composers.len()
        invariant
            k <= tag.composers.len(),
            t == tag.tag_type@,
            tag_type@ == t,
            entry_views(entries@) == with_composers(f, string_views(tag.composers@), k as int, t),
        decreases tag.composers.len() - k,
    {
        let ghost before = entries@;
        let entry = TagEntry {
            key: String::from_str("Composer (Narrator?)"),
            value: tag.composers[k].clone(),
            tag_type: String::from_str(tag_type),
        };
        assert(string_views(tag.composers@)[k as int] == tag.composers@[k as int]@);
        entries.push(entry);
        assert(entry_views(entries@) == entry_views(before).push(entry@));
        k += 1;
    }
    let ghost g = entry_views(entries@);
    let raw = to_chars("(Raw)");
    let mut n: usize = 0;
    while n < tag.items.len()
        invariant
            n <= tag.items.len(),
            t == tag.tag_type@,
            tag_type@ == t,
            raw@ == "(Raw)"@,
            entry_views(entries@) == with_items(g, tag_item_views(tag.items@), n as int, t),
        decreases tag.items.len() - n,
    {
        let ghost before = entries@;
        let item = &tag.items[n];
        assert(tag_item_views(tag.items@)[n as int] == item@);
        match (key_of_item(item), &item.text) {
            (Some(key), Some(value)) => {
                let is_raw = chars_have(&to_chars(key.as_str()), &raw);
                if !(is_raw && entries_have_value(entries, value.as_str())) {
                    let entry = TagEntry {
                        key,
                        value: value.clone(),
                        tag_type: String::from_str(tag_type),
                    };
                    entries.push(entry);
                    assert(entry_views(entries@) == entry_views(before).push(entry@));
                }
            },
            _ => {},
        }
        n += 1;
    }
}

fn push_secondary(entries: &mut Vec<TagEntry>, tag: &TagContents)
    ensures
        entry_views(final(entries)@) == with_secondary_items(
            entry_views(old(entries)@),
            tag@.items,
            tag@.items.len() as int,
            tag@.tag_type + " (Secondary)"@,
        ),
{
    let mut tag_type = tag.tag_type.clone();
    tag_type.append(" (Secondary)");
    let ghost start = entry_views(entries@);
    let mut n: usize = 0;
    while n < tag.items.len()
        invariant
            n <= tag.items.len(),
            tag_type@ == tag@.tag_type + " (Secondary)"@,
            entry_views(entries@) == with_secondary_items(
                start,
                tag_item_views(tag.items@),
                n as int,
                tag_type@,
            ),
        decreases tag.items.len() - n,
    {
        let ghost before = entries@;
        let item = &tag.items[n];
        assert(tag_item_views(tag.items@)[n as int] == item@);
        match &item.text {
            Some(value) => {
                let entry = TagEntry {
                    key: item.key_name.clone(),
                    value: value.clone(),
                    tag_type: tag_type.clone(),
                };
                entries.push(entry);
                assert(entry_views(entries@) == entry_views(before).push(entry@));
            },
            None => {},
        }
        n += 1;
    }
}

/// Lists what the tags of a file hold.
pub fn list_tag_entries(primary: &Option<TagContents>, others: &Vec<TagContents>) -> (r: Vec<
    TagEntry,
>)
    ensures
        entry_views(r@) == listing(
            match *primary {
                Some(tag) => Some(tag@),
                None => None,
            },
            tag_views(others@),
        ),
{
    let mut entries: Vec<TagEntry> = Vec::new();
    match primary {
        Some(tag) => {
            push_primary(&mut entries, tag);
        },
        None => {
            assert(entry_views(entries@) == Seq::<TagEntryView>::empty());
        },
    }
    let ghost start = entry_views(entries@);
    let mut i: usize = 0;
    while i < others.len()
        invariant
            i <= others.len(),
            entry_views(entries@) == with_secondary_tags(start, tag_views(others@), i as int),
        decreases others.len() - i,
    {
        assert(tag_views(others@)[i as int] == others@[i as int]@);
        push_secondary(&mut entries, &others[i]);
        i += 1;
    }
    entries
}

/// The listing of one file, from what the codec read of it.
pub fn build_raw_tags(
    file_path: &str,
    file_format: &str,
    duration_seconds: u64,
    bitrate: Option<u32>,
    sample_rate: Option<u32>,
    primary: &Option<TagContents>,
    others: &Vec<TagContents>,
) -> (r: RawTags)
    ensures
        r.file_path@ == file_path@,
        r.file_format@ == file_format@,
        r.duration_seconds == Some(duration_seconds),
        r.bitrate == bitrate,
        r.sample_rate == sample_rate,
        entry_views(r.tags@) == listing(
            match *primary {
                Some(tag) => Some(tag@),
                None => None,
            },
            tag_views(others@),
        ),
{
    RawTags {
        file_path: String::from_str(file_path),
        file_format: String::from_str(file_format),
        duration_seconds: Some(duration_seconds),
        bitrate,
        sample_rate,
        tags: list_tag_entries(primary, others),
    }
}

} // verus!
