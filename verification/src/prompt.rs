//! The texts that a scan sends to the completion service.

use vstd::prelude::*;
use crate::genres::{approved_genre, approved_genres, APPROVED_COUNT};
use crate::model::{file_views, opt_view, RawFileData, RawFileDataView};
use crate::sources::{
    audible_view, google_view, series_views, AudibleMetadata, AudibleMetadataView, AudibleSeries,
    AudibleSeriesView, GoogleMetadata, GoogleMetadataView,
};
use crate::text::{from_chars, replace, replace_chars, string_views, to_chars, trim, trim_chars};

verus! {

/// `s` between double quotes. Nothing in `s` is escaped: a quote or a
/// backslash in it stands in the prompt as it is.
pub open spec fn quoted(s: Seq<char>) -> Seq<char> {
    "\""@ + s + "\""@
}

/// An optional text as a prompt shows it.
pub open spec fn shown_opt(o: Option<Seq<char>>) -> Seq<char> {
    match o {
        Some(s) => "Some("@ + quoted(s) + ")"@,
        None => "None"@,
    }
}

/// The quoted items of a list with `, ` between them.
pub open spec fn shown_items(items: Seq<Seq<char>>) -> Seq<char>
    decreases items.len(),
{
    if items.len() == 0 {
        Seq::empty()
    } else if items.len() == 1 {
        quoted(items[0])
    } else {
        shown_items(items.drop_last()) + ", "@ + quoted(items.last())
    }
}

/// A list of texts as a prompt shows it.
pub open spec fn shown_list(items: Seq<Seq<char>>) -> Seq<char> {
    "["@ + shown_items(items) + "]"@
}

/// The items of a list with `, ` between them, without quotes.
pub open spec fn plain_items(items: Seq<Seq<char>>) -> Seq<char>
    decreases items.len(),
{
    if items.len() == 0 {
        Seq::empty()
    } else if items.len() == 1 {
        items[0]
    } else {
        plain_items(items.drop_last()) + ", "@ + items.last()
    }
}

/// One series entry as a prompt shows it: the quoted name, and the position
/// behind ` #` where there is one.
pub open spec fn shown_series(entry: AudibleSeriesView) -> Seq<char> {
    match entry.position {
        Some(p) => quoted(entry.name) + " #"@ + p,
        None => quoted(entry.name),
    }
}

/// The entries of a series list with `, ` between them.
pub open spec fn shown_series_items(entries: Seq<AudibleSeriesView>) -> Seq<char>
    decreases entries.len(),
{
    if entries.len() == 0 {
        Seq::empty()
    } else if entries.len() == 1 {
        shown_series(entries[0])
    } else {
        shown_series_items(entries.drop_last()) + ", "@ + shown_series(entries.last())
    }
}

/// A series list as a prompt shows it.
pub open spec fn shown_series_list(entries: Seq<AudibleSeriesView>) -> Seq<char> {
    "["@ + shown_series_items(entries) + "]"@
}

fn quote(s: &str) -> (r: String)
    ensures
        r@ == quoted(s@),
{
    let mut out = String::from_str("\"");
    out.append(s);
    out.append("\"");
    out
}

fn show_opt(o: &Option<String>) -> (r: String)
    ensures
        r@ == shown_opt(opt_view(*o)),
{
    match o {
        Some(s) => {
            let mut out = String::from_str("Some(");
            let q = quote(s.as_str());
            out.append(q.as_str());
            out.append(")");
            out
        },
        None => String::from_str("None"),
    }
}

fn show_list(items: &Vec<String>) -> (r: String)
    ensures
        r@ == shown_list(string_views(items@)),
{
    let mut inner = String::new();
    let mut i: usize = 0;
    let ghost all = string_views(items@);
    while i < items.len()
        invariant
            i <= items.len(),
            all == string_views(items@),
            inner@ == shown_items(all.take(i as int)),
        decreases items.len() - i,
    {
        proof {
            let now = all.take(i + 1);
            assert(now.drop_last() == all.take(i as int));
            assert(now.last() == items@[i as int]@);
        }
        let q = quote(items[i].as_str());
        if i > 0 {
            inner.append(", ");
        }
        inner.append(q.as_str());
        proof {
            if i == 0 {
                assert(inner@ == q@);
            }
        }
        i += 1;
    }
    assert(all.take(items.len() as int) == all);
    let mut out = String::from_str("[");
    out.append(inner.as_str());
    out.append("]");
    out
}

fn show_series(entry: &AudibleSeries) -> (r: String)
    ensures
        r@ == shown_series(entry@),
{
    let mut out = quote(entry.name.as_str());
    match &entry.position {
        Some(p) => {
            out.append(" #");
            out.append(p.as_str());
        },
        None => {},
    }
    out
}

fn show_series_list(entries: &Vec<AudibleSeries>) -> (r: String)
    ensures
        r@ == shown_series_list(series_views(entries@)),
{
    let mut inner = String::new();
    let mut i: usize = 0;
    let ghost all = series_views(entries@);
    while i < entries.len()
        invariant
            i <= entries.len(),
            all == series_views(entries@),
            inner@ == shown_series_items(all.take(i as int)),
        decreases entries.len() - i,
    {
        proof {
            let now = all.take(i + 1);
            assert(now.drop_last() == all.take(i as int));
            assert(now.last() == entries@[i as int]@);
        }
        let shown = show_series(&entries[i]);
        if i > 0 {
            inner.append(", ");
        }
        inner.append(shown.as_str());
        proof {
            if i == 0 {
                assert(inner@ == shown@);
            }
        }
        i += 1;
    }
    assert(all.take(entries.len() as int) == all);
    let mut out = String::from_str("[");
    out.append(inner.as_str());
    out.append("]");
    out
}

/// The approved genres as a prompt lists them.
pub fn approved_genre_line() -> (r: String)
    ensures
        r@ == plain_items(approved_genres()),
{
    let mut out = String::new();
    let mut i: usize = 0;
    while i < APPROVED_COUNT
        invariant
            i <= APPROVED_COUNT,
            approved_genres().len() == APPROVED_COUNT,
            out@ == plain_items(approved_genres().take(i as int)),
        decreases APPROVED_COUNT - i,
    {
        proof {
            let now = approved_genres().take(i + 1);
            assert(now.drop_last() == approved_genres().take(i as int));
            assert(now.last() == approved_genres()[i as int]);
        }
        let label = approved_genre(i);
        if i > 0 {
            out.append(", ");
        }
        out.append(label);
        proof {
            if i == 0 {
                assert(out@ == label@);
            }
        }
        i += 1;
    }
    assert(approved_genres().take(APPROVED_COUNT as int) == approved_genres());
    out
}

/// How the identity prompt begins, up to the folder name.
pub const IDENTITY_HEAD: &'static str =
    "Extract the BOOK title and AUTHOR from these audiobook file tags. Ignore chapter/track numbers.

FOLDER NAME: ";

/// How the identity prompt ends: what to keep, what to strip, and the form
/// of the answer.
pub const IDENTITY_RULES: &'static str = "

IMPORTANT: These tags may have been cleaned already. Use them directly if they look clean.
- If title is already clean (no track numbers, no junk), use it as-is
- If artist is already clean, use it as-is

The tags might be messy (e.g., \"Track 10\" or \"Magic Tree House - #55 Night of the Ninth Dragon\").

Extract the actual BOOK title and AUTHOR name. Remove:
- Track/Chapter numbers
- Book numbers (#54, #55, etc)
- Series markers
- File format info (320kbps, Unabridged, etc)

Return ONLY valid JSON:
{\"book_title\":\"actual book title\",\"author\":\"author name\"}

JSON:";

/// A title tag without the part markers that an earlier run may have put
/// behind it, and without surrounding white space.
pub open spec fn title_without_part(title: Seq<char>) -> Seq<char> {
    trim(replace(replace(title, " - Part 1"@, Seq::empty()), " - Part 2"@, Seq::empty()))
}

/// The prompt that asks for the title and author of the book that a file
/// belongs to. It shows the folder name, the file name and the title, artist
/// and album tags, and tells the service to keep values that are clean and
/// to strip track numbers, series markers and format notes.
pub open spec fn identity_prompt(file: RawFileDataView, folder_name: Seq<char>) -> Seq<char> {
    Seq::<char>::empty() + IDENTITY_HEAD@ + folder_name + "\nFILENAME: "@ + file.filename
        + "\nFILE TAGS:\n- Title: "@ + shown_opt(
        match file.tags.title {
            Some(t) => Some(title_without_part(t)),
            None => None,
        },
    ) + "\n- Artist: "@ + shown_opt(file.tags.artist) + "\n- Album: "@ + shown_opt(file.tags.album)
        + IDENTITY_RULES@
}

/// Builds the prompt that asks for the title and author of a book.
pub fn build_identity_prompt(file: &RawFileData, folder_name: &str) -> (r: String)
    ensures
        r@ == identity_prompt(file@, folder_name@),
{
    let clean_title = match &file.tags.title {
        Some(t) => {
            let nothing: Vec<char> = Vec::new();
            let a = replace_chars(&to_chars(t.as_str()), &to_chars(" - Part 1"), &nothing);
            let b = replace_chars(&a, &to_chars(" - Part 2"), &nothing);
            Some(from_chars(&trim_chars(&b)))
        },
        None => None,
    };
    let title = show_opt(&clean_title);
    let artist = show_opt(&file.tags.artist);
    let album = show_opt(&file.tags.album);
    let mut out = String::new();
    out.append(IDENTITY_HEAD);
    out.append(folder_name);
    out.append("\nFILENAME: ");
    out.append(file.filename.as_str());
    out.append("\nFILE TAGS:\n- Title: ");
    out.append(title.as_str());
    out.append("\n- Artist: ");
    out.append(artist.as_str());
    out.append("\n- Album: ");
    out.append(album.as_str());
    out.append(IDENTITY_RULES);
    out
}

/// What a prompt says of the Google Books record.
pub open spec fn google_summary(google: Option<GoogleMetadataView>) -> Seq<char> {
    match google {
        Some(g) => Seq::<char>::empty() + "Title: "@ + shown_opt(g.title) + ", Authors: "@
            + shown_list(g.authors) + ", Publisher: "@ + shown_opt(g.publisher) + ", Date: "@
            + shown_opt(g.publish_date),
        None => "No data"@,
    }
}

/// What a prompt says of the Audible record.
pub open spec fn audible_summary(audible: Option<AudibleMetadataView>) -> Seq<char> {
    match audible {
        Some(a) => Seq::<char>::empty() + "Title: "@ + shown_opt(a.title) + ", Authors: "@
            + shown_list(a.authors) + ", Narrators: "@ + shown_list(a.narrators) + ", Series: "@
            + shown_series_list(a.series) + ", Publisher: "@ + shown_opt(a.publisher)
            + ", Release Date: "@ + shown_opt(a.release_date) + ", ASIN: "@ + shown_opt(a.asin),
        None => "No data"@,
    }
}

/// What a prompt says of the year: the reliable year as a fixed value where
/// there is one, else leave to report none.
pub open spec fn year_instruction(year: Option<Seq<char>>) -> Seq<char> {
    match year {
        Some(y) => Seq::<char>::empty() + "CRITICAL: Use EXACTLY this year: "@ + y
            + " (from Audible/Google Books - DO NOT CHANGE)"@,
        None => "year: If not found in sources, return null"@,
    }
}

/// The comments that the files of a group carry, in the order of the files.
pub open spec fn comments_of(files: Seq<RawFileDataView>) -> Seq<Seq<char>>
    decreases files.len(),
{
    if files.len() == 0 {
        Seq::empty()
    } else {
        match files.last().tags.comment {
            Some(c) => comments_of(files.drop_last()).push(c),
            None => comments_of(files.drop_last()),
        }
    }
}

/// How the merge prompt begins, up to the folder name.
pub const MERGE_HEAD: &'static str =
    "You are an audiobook metadata expert. Merge data from multiple sources into the best metadata.

SOURCES:
1. Folder: ";

/// The part of the merge prompt on series, up to the list of approved genres.
pub const MERGE_SERIES_RULES: &'static str = "
6. FILENAME HINT: Look at folder/filename for series info

INSTRUCTIONS FOR SERIES:
If folder has patterns like Book 01 or War of The Roses 01, extract series and sequence.

APPROVED GENRES (max 3, comma-separated):
";

/// The part of the merge prompt that lists the fields to give, up to the
/// word on the year.
pub const MERGE_FIELDS: &'static str = "

OUTPUT ALL FIELDS:
- title: Book title (not chapter). Remove junk.
- subtitle: If available from Google Books or Audible
- author: Clean author name
- narrator: Extract from Audible narrators field or look for Narrated by in comments
- series: Extract from filename pattern if book number present
- sequence: Book number
- sequence: Extract book number from filename (e.g., \"01\" or \"02\")
- genres: Pick 1-3 from approved list
- publisher: From Google Books or Audible
- ";

/// How the merge prompt ends: the last fields and the form of the answer.
pub const MERGE_TAIL: &'static str = "
- description: Brief description from Google/Audible
- isbn: From Google Books

Return ONLY valid JSON:
{\"title\":\"...\",\"subtitle\":null,\"author\":\"...\",\"narrator\":\"...\",\"series\":\"...\",\"sequence\":\"...\",\"genres\":[\"...\"],\"publisher\":\"...\",\"year\":\"...\",\"description\":\"...\",\"isbn\":\"...\"}

JSON:";

/// The prompt that asks the service to reconcile all that is known of a
/// book. It shows the folder name, the extracted identity, both catalog
/// records and the comments of the files, lists the approved genres with the
/// order to pick one to three of them, and fixes the year where a reliable
/// one is known.
pub open spec fn merge_prompt(
    files: Seq<RawFileDataView>,
    folder_name: Seq<char>,
    title: Seq<char>,
    author: Seq<char>,
    google: Option<GoogleMetadataView>,
    audible: Option<AudibleMetadataView>,
) -> Seq<char> {
    Seq::<char>::empty() + MERGE_HEAD@ + folder_name + "\n2. Extracted from tags: title='"@ + title
        + "', author='"@ + author + "'\n3. Google Books: "@ + google_summary(google)
        + "\n4. Audible: "@ + audible_summary(audible) + "\n5. Sample comments: "@ + shown_list(
        comments_of(files),
    ) + MERGE_SERIES_RULES@ + plain_items(approved_genres()) + MERGE_FIELDS@ + year_instruction(
        crate::merge::reliable_year(google, audible),
    ) + MERGE_TAIL@
}

fn summarize_google(google: &Option<GoogleMetadata>) -> (r: String)
    ensures
        r@ == google_summary(google_view(*google)),
{
    match google {
        Some(g) => {
            let title = show_opt(&g.title);
            let authors = show_list(&g.authors);
            let publisher = show_opt(&g.publisher);
            let date = show_opt(&g.publish_date);
            let mut out = String::new();
            out.append("Title: ");
            out.append(title.as_str());
            out.append(", Authors: ");
            out.append(authors.as_str());
            out.append(", Publisher: ");
            out.append(publisher.as_str());
            out.append(", Date: ");
            out.append(date.as_str());
            out
        },
        None => String::from_str("No data"),
    }
}

fn summarize_audible(audible: &Option<AudibleMetadata>) -> (r: String)
    ensures
        r@ == audible_summary(audible_view(*audible)),
{
    match audible {
        Some(a) => {
            let title = show_opt(&a.title);
            let authors = show_list(&a.authors);
            let narrators = show_list(&a.narrators);
            let series = show_series_list(&a.series);
            let publisher = show_opt(&a.publisher);
            let date = show_opt(&a.release_date);
            let asin = show_opt(&a.asin);
            let mut out = String::new();
            out.append("Title: ");
            out.append(title.as_str());
            out.append(", Authors: ");
            out.append(authors.as_str());
            out.append(", Narrators: ");
            out.append(narrators.as_str());
            out.append(", Series: ");
            out.append(series.as_str());
            out.append(", Publisher: ");
            out.append(publisher.as_str());
            out.append(", Release Date: ");
            out.append(date.as_str());
            out.append(", ASIN: ");
            out.append(asin.as_str());
            out
        },
        None => String::from_str("No data"),
    }
}

fn instruct_year(year: &Option<String>) -> (r: String)
    ensures
        r@ == year_instruction(opt_view(*year)),
{
    match year {
        Some(y) => {
            let mut out = String::new();
            out.append("CRITICAL: Use EXACTLY this year: ");
            out.append(y.as_str());
            out.append(" (from Audible/Google Books - DO NOT CHANGE)");
            out
        },
        None => String::from_str("year: If not found in sources, return null"),
    }
}

/// The comments that the files carry.
pub fn collect_comments(files: &Vec<RawFileData>) -> (r: Vec<String>)
    ensures
        string_views(r@) == comments_of(file_views(files@)),
{
    let mut out: Vec<String> = Vec::new();
    let mut i: usize = 0;
    let ghost all = file_views(files@);
    assert(string_views(out@) == comments_of(all.take(0)));
    while i < files.len()
        invariant
            i <= files.len(),
            all == file_views(files@),
            string_views(out@) == comments_of(all.take(i as int)),
        decreases files.len() - i,
    {
        let ghost before = out@;
        proof {
            let now = all.take(i + 1);
            assert(now.drop_last() == all.take(i as int));
            assert(now.last() == files@[i as int]@);
        }
        match &files[i].tags.comment {
            Some(c) => {
                let item = c.clone();
                out.push(item);
                assert(string_views(out@) == string_views(before).push(item@));
            },
            None => {},
        }
        i += 1;
    }
    assert(all.take(files.len() as int) == all);
    out
}

/// Builds the prompt that asks the service to reconcile all sources.
pub fn build_merge_prompt(
    files: &Vec<RawFileData>,
    folder_name: &str,
    title: &str,
    author: &str,
    google: &Option<GoogleMetadata>,
    audible: &Option<AudibleMetadata>,
) -> (r: String)
    ensures
        r@ == merge_prompt(
            file_views(files@),
            folder_name@,
            title@,
            author@,
            google_view(*google),
            audible_view(*audible),
        ),
{
    let google_text = summarize_google(google);
    let audible_text = summarize_audible(audible);
    let comments = show_list(&collect_comments(files));
    let genres = approved_genre_line();
    let year = instruct_year(&crate::merge::find_reliable_year(google, audible));
    let mut out = String::new();
    out.append(MERGE_HEAD);
    out.append(folder_name);
    out.append("\n2. Extracted from tags: title='");
    out.append(title);
    out.append("', author='");
    out.append(author);
    out.append("'\n3. Google Books: ");
    out.append(google_text.as_str());
    out.append("\n4. Audible: ");
    out.append(audible_text.as_str());
    out.append("\n5. Sample comments: ");
    out.append(comments.as_str());
    out.append(MERGE_SERIES_RULES);
    out.append(genres.as_str());
    out.append(MERGE_FIELDS);
    out.append(year.as_str());
    out.append(MERGE_TAIL);
    out
}

} // verus!
