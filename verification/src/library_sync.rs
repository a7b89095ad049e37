//! Matching the books of a scan to the items of a library server and
//! shaping what is sent to it.

use vstd::prelude::*;
use crate::genres::{normalize, normalize_genres};
use crate::text::str_eq;
use crate::model::{copy_strings, opt_view, BookMetadata, BookMetadataView};
use crate::text::{
    chars_have, decimal, from_chars, has_substring, lemma_trimmed_pieces, push_decimal, replace,
    replace_chars, slice_chars, split, split_chars, string_views, to_chars, trim, trim_chars,
    trim_pieces, trimmed_pieces,
};
use crate::textmap::TextMap;

verus! {

/// `s` with every backslash written as a slash.
pub open spec fn slashed(s: Seq<char>) -> Seq<char> {
    Seq::new(s.len(), |i: int| if s[i] == '\\' { '/' } else { s[i] })
}

/// `s` without the slashes it ends with, except that a text made of slashes
/// only keeps its first one.
pub open spec fn without_trailing_slashes(s: Seq<char>) -> Seq<char>
    decreases s.len(),
{
    if s.len() > 1 && s.last() == '/' {
        without_trailing_slashes(s.drop_last())
    } else {
        s
    }
}

/// The form in which paths are compared: trimmed, with slashes for
/// backslashes, and without trailing slashes. A path of white space only has
/// the empty form.
pub open spec fn normalized_path(path: Seq<char>) -> Seq<char> {
    without_trailing_slashes(slashed(trim(path)))
}

/// A normalized path is empty only for a path of white space, and it ends
/// with a slash only where it is the root.
pub proof fn law_normalized_path_shape(path: Seq<char>)
    ensures
        normalized_path(path).len() == 0 <==> trim(path).len() == 0,
        normalized_path(path).len() > 1 ==> normalized_path(path).last() != '/',
{
    lemma_without_trailing_slashes(slashed(trim(path)));
}

proof fn lemma_without_trailing_slashes(s: Seq<char>)
    ensures
        without_trailing_slashes(s).len() == 0 <==> s.len() == 0,
        without_trailing_slashes(s).len() > 1 ==> without_trailing_slashes(s).last() != '/',
        without_trailing_slashes(s).len() <= s.len(),
        without_trailing_slashes(s) == s.take(without_trailing_slashes(s).len() as int),
    decreases s.len(),
{
    if s.len() > 1 && s.last() == '/' {
        lemma_without_trailing_slashes(s.drop_last());
        let n = without_trailing_slashes(s).len() as int;
        assert(s.drop_last().take(n) == s.take(n));
    } else {
        assert(s.take(s.len() as int) == s);
    }
}

/// The form in which a path is compared with the paths of library items.
pub fn normalize_path(path: &str) -> (r: String)
    ensures
        r@ == normalized_path(path@),
{
    let trimmed = trim_chars(&to_chars(path));
    let mut chars: Vec<char> = Vec::new();
    let mut i: usize = 0;
    while i < trimmed.len()
        invariant
            i <= trimmed.len(),
            chars@ == slashed(trimmed@).take(i as int),
        decreases trimmed.len() - i,
    {
        let c = trimmed[i];
        chars.push(if c == '\\' { '/' } else { c });
        i += 1;
    }
    assert(chars@ == slashed(trimmed@));
    let mut end: usize = chars.len();
    assert(chars@.take(end as int) == chars@);
    while end > 1 && chars[end - 1] == '/'
        invariant
            end <= chars.len(),
            without_trailing_slashes(chars@) == without_trailing_slashes(chars@.take(end as int)),
        decreases end,
    {
        assert(chars@.take(end as int).drop_last() == chars@.take(end - 1));
        end -= 1;
    }
    let kept = slice_chars(&chars, 0, end);
    assert(kept@ == chars@.take(end as int));
    from_chars(&kept)
}

/// Position of the last `/` in `s`, or -1 where there is none.
pub open spec fn last_slash(s: Seq<char>) -> int
    decreases s.len(),
{
    if s.len() == 0 {
        -1
    } else if s.last() == '/' {
        s.len() - 1
    } else {
        last_slash(s.drop_last())
    }
}

proof fn lemma_last_slash(s: Seq<char>)
    ensures
        -1 <= last_slash(s) < s.len(),
        last_slash(s) >= 0 ==> s[last_slash(s)] == '/',
    decreases s.len(),
{
    if s.len() > 0 && s.last() != '/' {
        lemma_last_slash(s.drop_last());
    }
}

/// The key among `keys` that stands for `path`: the path itself where it is
/// a key, else the nearest folder above it that is one; the root `/` stands
/// for every path directly beneath it.
pub open spec fn matching_key(path: Seq<char>, keys: Set<Seq<char>>) -> Option<Seq<char>>
    decreases path.len(),
{
    if keys.contains(path) {
        Some(path)
    } else {
        let p = last_slash(path);
        if p < 0 {
            None
        } else if p == 0 {
            if keys.contains("/"@) {
                Some("/"@)
            } else {
                None
            }
        } else if p < path.len() {
            matching_key(path.take(p), keys)
        } else {
            None
        }
    }
}

/// What `matching_key` finds is a key, and the path lies at or beneath it.
pub proof fn law_matching_key(path: Seq<char>, keys: Set<Seq<char>>)
    ensures
        matching_key(path, keys) matches Some(k) ==> keys.contains(k) && (k == "/"@
            || k.is_prefix_of(path)),
        keys.contains(path) ==> matching_key(path, keys) == Some(path),
    decreases path.len(),
{
    lemma_last_slash(path);
    let p = last_slash(path);
    if !keys.contains(path) && p > 0 {
        law_matching_key(path.take(p), keys);
    }
}

fn find_last_slash(s: &Vec<char>) -> (r: Option<usize>)
    ensures
        match r {
            Some(p) => p == last_slash(s@) && p < s.len(),
            None => last_slash(s@) == -1,
        },
{
    let mut end: usize = s.len();
    assert(s@.take(end as int) == s@);
    while end > 0
        invariant
            end <= s.len(),
            last_slash(s@) == last_slash(s@.take(end as int)),
        decreases end,
    {
        if s[end - 1] == '/' {
            return Some(end - 1);
        }
        assert(s@.take(end as int).drop_last() == s@.take(end - 1));
        end -= 1;
    }
    None
}

/// An item of the library server.
#[derive(Debug, PartialEq, Eq)]
pub struct LibraryItem {
    pub id: String,
    pub path: String,
    pub is_file: bool,
}

/// The mathematical view of `LibraryItem`.
pub struct LibraryItemView {
    pub id: Seq<char>,
    pub path: Seq<char>,
    pub is_file: bool,
}

impl View for LibraryItem {
    type V = LibraryItemView;

    open spec fn view(&self) -> LibraryItemView {
        LibraryItemView { id: self.id@, path: self.path@, is_file: self.is_file }
    }
}

impl Clone for LibraryItem {
    fn clone(&self) -> (r: Self)
        ensures
            r@ == self@,
    {
        LibraryItem { id: self.id.clone(), path: self.path.clone(), is_file: self.is_file }
    }
}

/// The library items by normalized path.
pub type LibraryIndex = TextMap<LibraryItem>;

/// The item that stands for `path`, a normalized path: the item at the path
/// itself, else the item at the nearest folder above it.
pub fn find_matching_item<'a>(path: &str, items: &'a LibraryIndex) -> (r: Option<&'a LibraryItem>)
    ensures
        match r {
            Some(item) => matching_key(path@, items@.dom()) matches Some(k) && *item == items@[k],
            None => matching_key(path@, items@.dom()) is None,
        },
{
    match items.get(path) {
        Some(item) => {
            return Some(item);
        },
        None => {},
    }
    let mut current = to_chars(path);
    loop
        invariant
            matching_key(path@, items@.dom()) == matching_key(current@, items@.dom()),
            !items@.dom().contains(current@),
        decreases current.len(),
    {
        proof {
            lemma_last_slash(current@);
        }
        match find_last_slash(&current) {
            None => {
                return None;
            },
            Some(pos) => {
                if pos == 0 {
                    return items.get("/");
                }
                current = slice_chars(&current, 0, pos);
                let key = from_chars(&current);
                match items.get(key.as_str()) {
                    Some(item) => {
                        return Some(item);
                    },
                    None => {},
                }
            },
        }
    }
}

/// The views of a sequence of library items.
pub open spec fn item_views(items: Seq<LibraryItem>) -> Seq<LibraryItemView> {
    Seq::new(items.len(), |i: int| items[i]@)
}

/// The views of the items of an index, by path.
pub open spec fn index_views(index: LibraryIndex) -> Map<Seq<char>, LibraryItemView> {
    index@.map_values(|item: LibraryItem| item@)
}

/// The index after `items` were put into it in their order, each under its
/// normalized path. An item whose path is white space is left out, and of
/// two items with one path the later stays.
pub open spec fn indexed(
    start: Map<Seq<char>, LibraryItemView>,
    items: Seq<LibraryItemView>,
) -> Map<Seq<char>, LibraryItemView>
    decreases items.len(),
{
    if items.len() == 0 {
        start
    } else if normalized_path(items.last().path).len() == 0 {
        indexed(start, items.drop_last())
    } else {
        indexed(start, items.drop_last()).insert(normalized_path(items.last().path), items.last())
    }
}

/// Puts the items of one page of the server's listing into the index.
pub fn index_library_items(index: &mut LibraryIndex, page: &Vec<LibraryItem>)
    ensures
        index_views(*final(index)) == indexed(index_views(*old(index)), item_views(page@)),
{
    let mut i: usize = 0;
    let ghost start = index_views(*index);
    let ghost all = item_views(page@);
    assert(all.take(0) == Seq::<LibraryItemView>::empty());
    while i < page.len()
        invariant
            i <= page.len(),
            all == item_views(page@),
            index_views(*index) == indexed(start, all.take(i as int)),
        decreases page.len() - i,
    {
        proof {
            let now = all.take(i + 1);
            assert(now.drop_last() == all.take(i as int));
            assert(now.last() == page@[i as int]@);
        }
        let key = normalize_path(page[i].path.as_str());
        if key.as_str().unicode_len() > 0 {
            let ghost before = index_views(*index);
            let item = page[i].clone();
            index.insert(key, item);
            assert(index_views(*index) =~= before.insert(key@, item@));
        }
        i += 1;
    }
    assert(all.take(page.len() as int) == all);
}

/// Whether a page of `count` items, asked for with the page size `limit`, is
/// the last page of a listing.
pub fn is_last_page(count: usize, limit: usize) -> (r: bool)
    ensures
        r == (count < limit),
{
    count < limit
}


/// Whether a text names several authors: it holds `&`, ` and `, `;`, `/`
/// or `|`.
pub open spec fn names_several(author: Seq<char>) -> bool {
    ||| has_substring(author, "&"@)
    ||| has_substring(author, " and "@)
    ||| has_substring(author, ";"@)
    ||| has_substring(author, "/"@)
    ||| has_substring(author, "|"@)
}

/// `author` with every mark that parts two names written as `;`. An `&`
/// parts two names only with a space on either side.
pub open spec fn with_semicolons(author: Seq<char>) -> Seq<char> {
    replace(replace(replace(replace(author, " & "@, ";"@), " and "@, ";"@), "/"@, ";"@), "|"@, ";"@)
}

/// The names of the authors that a text names.
pub open spec fn author_names(author: Seq<char>) -> Seq<Seq<char>> {
    let t = trim(author);
    if t.len() == 0 {
        Seq::empty()
    } else if !names_several(t) {
        seq![t]
    } else {
        trimmed_pieces(split(with_semicolons(t), ';'))
    }
}

/// No name that `author_names` gives is empty.
pub proof fn law_author_names_are_not_empty(author: Seq<char>, i: int)
    requires
        0 <= i < author_names(author).len(),
    ensures
        author_names(author)[i].len() > 0,
{
    let t = trim(author);
    if t.len() > 0 && names_several(t) {
        lemma_trimmed_pieces(split(with_semicolons(t), ';'), i);
    }
}

/// The names of the authors that a text names.
pub fn split_authors(author: &str) -> (r: Vec<String>)
    ensures
        string_views(r@) == author_names(author@),
{
    let trimmed = trim_chars(&to_chars(author));
    let mut out: Vec<String> = Vec::new();
    assert(string_views(out@) == Seq::<Seq<char>>::empty());
    if trimmed.len() == 0 {
        return out;
    }
    let has_multiple = chars_have(&trimmed, &to_chars("&")) || chars_have(
        &trimmed,
        &to_chars(" and "),
    ) || chars_have(&trimmed, &to_chars(";")) || chars_have(&trimmed, &to_chars("/"))
        || chars_have(&trimmed, &to_chars("|"));
    if !has_multiple {
        let only = from_chars(&trimmed);
        out.push(only);
        assert(string_views(out@) == seq![trimmed@]);
        return out;
    }
    let semi = to_chars(";");
    let a = replace_chars(&trimmed, &to_chars(" & "), &semi);
    let b = replace_chars(&a, &to_chars(" and "), &semi);
    let c = replace_chars(&b, &to_chars("/"), &semi);
    let d = replace_chars(&c, &to_chars("|"), &semi);
    let pieces = split_chars(&d, ';');
    trim_pieces(&pieces)
}

/// An optional text as the server is to get it: trimmed, and absent where
/// nothing but white space was there.
pub open spec fn cleaned(o: Option<Seq<char>>) -> Option<Seq<char>> {
    match o {
        Some(s) => if trim(s).len() == 0 {
            None
        } else {
            Some(trim(s))
        },
        None => None,
    }
}

/// The identifier that the server is given for entry number `n`, counted
/// from 1, of a list it has not seen before.
pub open spec fn new_id(n: nat) -> Seq<char> {
    "new-"@ + decimal(n)
}

/// An author as the server is to get it.
#[derive(Debug, PartialEq, Eq)]
pub struct AuthorRef {
    pub id: String,
    pub name: String,
}

/// The mathematical view of `AuthorRef`.
pub struct AuthorRefView {
    pub id: Seq<char>,
    pub name: Seq<char>,
}

impl View for AuthorRef {
    type V = AuthorRefView;

    open spec fn view(&self) -> AuthorRefView {
        AuthorRefView { id: self.id@, name: self.name@ }
    }
}

/// A series as the server is to get it.
#[derive(Debug, PartialEq, Eq)]
pub struct SeriesRef {
    pub id: String,
    pub name: String,
    pub sequence: Option<String>,
}

/// The mathematical view of `SeriesRef`.
pub struct SeriesRefView {
    pub id: Seq<char>,
    pub name: Seq<char>,
    pub sequence: Option<Seq<char>>,
}

impl View for SeriesRef {
    type V = SeriesRefView;

    open spec fn view(&self) -> SeriesRefView {
        SeriesRefView { id: self.id@, name: self.name@, sequence: opt_view(self.sequence) }
    }
}

/// The metadata of a book as the server is to get it. A field that is `None`
/// is left out of what is sent; a field that is there is sent as it stands.
/// No list that is there is empty.
#[derive(Debug, PartialEq, Eq)]
pub struct UpdatePayload {
    pub title: String,
    pub subtitle: Option<String>,
    pub description: Option<String>,
    pub publisher: Option<String>,
    pub published_year: Option<String>,
    pub isbn: Option<String>,
    pub narrators: Option<Vec<String>>,
    pub genres: Option<Vec<String>>,
    pub authors: Option<Vec<AuthorRef>>,
    pub series: Option<SeriesRef>,
}

/// The mathematical view of `UpdatePayload`.
pub struct UpdatePayloadView {
    pub title: Seq<char>,
    pub subtitle: Option<Seq<char>>,
    pub description: Option<Seq<char>>,
    pub publisher: Option<Seq<char>>,
    pub published_year: Option<Seq<char>>,
    pub isbn: Option<Seq<char>>,
    pub narrators: Option<Seq<Seq<char>>>,
    pub genres: Option<Seq<Seq<char>>>,
    pub authors: Option<Seq<AuthorRefView>>,
    pub series: Option<SeriesRefView>,
}

/// A list as a payload carries it: absent where it is empty.
pub open spec fn present<T>(list: Seq<T>) -> Option<Seq<T>> {
    if list.len() == 0 {
        None
    } else {
        Some(list)
    }
}

/// The views of a sequence of authors.
pub open spec fn author_views(v: Seq<AuthorRef>) -> Seq<AuthorRefView> {
    Seq::new(v.len(), |i: int| v[i]@)
}

impl View for UpdatePayload {
    type V = UpdatePayloadView;

    open spec fn view(&self) -> UpdatePayloadView {
        UpdatePayloadView {
            title: self.title@,
            subtitle: opt_view(self.subtitle),
            description: opt_view(self.description),
            publisher: opt_view(self.publisher),
            published_year: opt_view(self.published_year),
            isbn: opt_view(self.isbn),
            narrators: strings_view(self.narrators),
            genres: strings_view(self.genres),
            authors: match self.authors {
                Some(v) => Some(author_views(v@)),
                None => None,
            },
            series: match self.series {
                Some(s) => Some(s@),
                None => None,
            },
        }
    }
}

/// What the server is sent for a book: the title as it is; subtitle,
/// description, publisher, year and ISBN cleaned; the cleaned narrator as the
/// only narrator; the genres as they are, where there are any; the authors
/// that the author text names, numbered from 1, where it names any; and the
/// cleaned series with its cleaned sequence.
pub open spec fn update_payload(meta: BookMetadataView) -> UpdatePayloadView {
    UpdatePayloadView {
        title: meta.title,
        subtitle: cleaned(meta.subtitle),
        description: cleaned(meta.description),
        publisher: cleaned(meta.publisher),
        published_year: cleaned(meta.year),
        isbn: cleaned(meta.isbn),
        narrators: match cleaned(meta.narrator) {
            Some(n) => Some(seq![n]),
            None => None,
        },
        genres: present(meta.genres),
        authors: present(numbered_authors(author_names(meta.author))),
        series: match cleaned(meta.series) {
            Some(name) => Some(
                SeriesRefView { id: new_id(1), name, sequence: cleaned(meta.sequence) },
            ),
            None => None,
        },
    }
}

/// The authors of the given names, each with the identifier of its place,
/// counted from 1.
pub open spec fn numbered_authors(names: Seq<Seq<char>>) -> Seq<AuthorRefView> {
    Seq::new(names.len(), |i: int| AuthorRefView { id: new_id((i + 1) as nat), name: names[i] })
}

fn clean(o: &Option<String>) -> (r: Option<String>)
    ensures
        opt_view(r) == cleaned(opt_view(*o)),
{
    match o {
        Some(s) => {
            let t = trim_chars(&to_chars(s.as_str()));
            if t.len() == 0 {
                None
            } else {
                Some(from_chars(&t))
            }
        },
        None => None,
    }
}

fn make_new_id(n: usize) -> (r: String)
    ensures
        r@ == new_id(n as nat),
{
    let mut chars = to_chars("new-");
    push_decimal(&mut chars, n);
    from_chars(&chars)
}

/// Shapes the metadata of a book as the server is to get it.
pub fn build_update_payload(metadata: &BookMetadata) -> (r: UpdatePayload)
    ensures
        r@ == update_payload(metadata@),
{
    let names = split_authors(metadata.author.as_str());
    let mut authors: Vec<AuthorRef> = Vec::new();
    let mut i: usize = 0;
    let ghost want = numbered_authors(author_names(metadata@.author));
    while i < names.len()
        invariant
            i <= names.len(),
            string_views(names@) == author_names(metadata@.author),
            want == numbered_authors(author_names(metadata@.author)),
            author_views(authors@) == want.take(i as int),
        decreases names.len() - i,
    {
        let ghost before = authors@;
        let entry = AuthorRef { id: make_new_id(i + 1), name: names[i].clone() };
        assert(string_views(names@)[i as int] == names@[i as int]@);
        authors.push(entry);
        assert(author_views(authors@) == author_views(before).push(entry@));
        i += 1;
    }
    assert(want.take(names.len() as int) == want);
    let narrators = match clean(&metadata.narrator) {
        Some(n) => {
            let mut v: Vec<String> = Vec::new();
            v.push(n);
            assert(string_views(v@) == seq![n@]);
            Some(v)
        },
        None => None,
    };
    let genres = if metadata.genres.len() == 0 {
        None
    } else {
        Some(copy_strings(&metadata.genres))
    };
    let authors = if authors.len() == 0 {
        None
    } else {
        Some(authors)
    };
    let series = match clean(&metadata.series) {
        Some(name) => Some(
            SeriesRef { id: make_new_id(1), name, sequence: clean(&metadata.sequence) },
        ),
        None => None,
    };
    UpdatePayload {
        title: metadata.title.clone(),
        subtitle: clean(&metadata.subtitle),
        description: clean(&metadata.description),
        publisher: clean(&metadata.publisher),
        published_year: clean(&metadata.year),
        isbn: clean(&metadata.isbn),
        narrators,
        genres,
        authors,
        series,
    }
}

/// What is to be done with the genres of one library item: `None` where
/// they stay as they are, because the item has none or because the approved
/// form of its genres is what it already has; else the approved form to
/// write.
pub open spec fn genre_update(current: Option<Seq<Seq<char>>>) -> Option<Seq<Seq<char>>> {
    match current {
        Some(genres) => if genres.len() == 0 || normalize(genres) == genres {
            None
        } else {
            Some(normalize(genres))
        },
        None => None,
    }
}

/// An item whose genres were brought to their approved form needs no
/// further update.
pub proof fn law_genre_update_settles(current: Seq<Seq<char>>)
    requires
        genre_update(Some(current)) is Some,
    ensures
        genre_update(genre_update(Some(current))) is None,
{
    crate::genres::law_normalize_idempotent(current);
}

fn same_strings(a: &Vec<String>, b: &Vec<String>) -> (r: bool)
    ensures
        r == (string_views(a@) == string_views(b@)),
{
    if a.len() != b.len() {
        assert(string_views(a@).len() != string_views(b@).len());
        return false;
    }
    let mut i: usize = 0;
    while i < a.len()
        invariant
            i <= a.len(),
            a.len() == b.len(),
            forall|j: int| 0 <= j < i ==> string_views(a@)[j] == string_views(b@)[j],
        decreases a.len() - i,
    {
        if !str_eq(a[i].as_str(), b[i].as_str()) {
            assert(string_views(a@)[i as int] != string_views(b@)[i as int]);
            return false;
        }
        i += 1;
    }
    assert(string_views(a@) =~= string_views(b@));
    true
}

/// What is to be done with the genres of one library item.
pub fn plan_genre_update(current: &Option<Vec<String>>) -> (r: Option<Vec<String>>)
    ensures
        match r {
            Some(v) => genre_update(strings_view(*current)) == Some(string_views(v@)),
            None => genre_update(strings_view(*current)) is None,
        },
{
    match current {
        Some(genres) => {
            if genres.len() == 0 {
                return None;
            }
            let normalized = normalize_genres(genres);
            if same_strings(&normalized, genres) {
                None
            } else {
                Some(normalized)
            }
        },
        None => None,
    }
}

/// The view of an optional list of strings.
pub open spec fn strings_view(o: Option<Vec<String>>) -> Option<Seq<Seq<char>>> {
    match o {
        Some(v) => Some(string_views(v@)),
        None => None,
    }
}


/// A book to be pushed to the server: where its files lie, and its metadata.
#[derive(Debug, PartialEq, Eq)]
pub struct PushItem {
    pub path: String,
    pub metadata: BookMetadata,
}

/// The paths of a sequence of push items.
pub open spec fn push_paths(items: Seq<PushItem>) -> Seq<Seq<char>> {
    Seq::new(items.len(), |i: int| items[i].path@)
}

/// A library item that is to get the metadata of a pushed book.
#[derive(Debug, PartialEq, Eq)]
pub struct PushTarget {
    /// The identifier of the library item.
    pub item_id: String,
    /// The path of the library item.
    pub library_path: String,
    /// The path of the pushed book.
    pub path: String,
    /// The place of the pushed book in the list that was planned.
    pub source: usize,
}

/// The mathematical view of `PushTarget`.
pub struct PushTargetView {
    pub item_id: Seq<char>,
    pub library_path: Seq<char>,
    pub path: Seq<char>,
    pub source: nat,
}

impl View for PushTarget {
    type V = PushTargetView;

    open spec fn view(&self) -> PushTargetView {
        PushTargetView {
            item_id: self.item_id@,
            library_path: self.library_path@,
            path: self.path@,
            source: self.source as nat,
        }
    }
}

/// The views of a sequence of targets.
pub open spec fn target_views(v: Seq<PushTarget>) -> Seq<PushTargetView> {
    Seq::new(v.len(), |i: int| v[i]@)
}

/// Which library items get which books, and which books found no item.
#[derive(Debug, PartialEq, Eq)]
pub struct PushPlan {
    pub targets: Vec<PushTarget>,
    pub unmatched: Vec<String>,
}

/// The mathematical view of `PushPlan`.
pub struct PushPlanView {
    pub targets: Seq<PushTargetView>,
    pub unmatched: Seq<Seq<char>>,
}

impl View for PushPlan {
    type V = PushPlanView;

    open spec fn view(&self) -> PushPlanView {
        PushPlanView {
            targets: target_views(self.targets@),
            unmatched: string_views(self.unmatched@),
        }
    }
}

/// Whether one of the targets is the library item `id`.
pub open spec fn is_targeted(targets: Seq<PushTargetView>, id: Seq<char>) -> bool {
    exists|i: int| 0 <= i < targets.len() && (#[trigger] targets[i]).item_id == id
}

/// The plan for the books at `paths`, taken in their order. A book whose
/// path is white space, or for which the index holds no item, is unmatched.
/// A book whose item is already the target of an earlier book is passed
/// over, so that no library item is updated twice.
pub open spec fn push_plan(
    paths: Seq<Seq<char>>,
    index: Map<Seq<char>, LibraryItemView>,
) -> PushPlanView
    decreases paths.len(),
{
    if paths.len() == 0 {
        PushPlanView { targets: Seq::empty(), unmatched: Seq::empty() }
    } else {
        let before = push_plan(paths.drop_last(), index);
        let path = paths.last();
        let normalized = normalized_path(path);
        if normalized.len() == 0 {
            PushPlanView { unmatched: before.unmatched.push(path), ..before }
        } else {
            match matching_key(normalized, index.dom()) {
                Some(k) => if is_targeted(before.targets, index[k].id) {
                    before
                } else {
                    PushPlanView {
                        targets: before.targets.push(
                            PushTargetView {
                                item_id: index[k].id,
                                library_path: index[k].path,
                                path,
                                source: (paths.len() - 1) as nat,
                            },
                        ),
                        ..before
                    }
                },
                None => PushPlanView { unmatched: before.unmatched.push(path), ..before },
            }
        }
    }
}

/// Whether no two of the targets are the same library item.
pub open spec fn targets_are_distinct(targets: Seq<PushTargetView>) -> bool {
    forall|a: int, b: int|
        0 <= a < b < targets.len() ==> (#[trigger] targets[a]).item_id != (
        #[trigger] targets[b]).item_id
}

/// Whether every target points at one of the first `n` books.
pub open spec fn sources_are_within(targets: Seq<PushTargetView>, n: nat) -> bool {
    forall|a: int| 0 <= a < targets.len() ==> (#[trigger] targets[a]).source < n
}

/// No library item is the target of two books, and every target points at a
/// book of the list.
pub proof fn law_push_plan_targets(paths: Seq<Seq<char>>, index: Map<Seq<char>, LibraryItemView>)
    ensures
        targets_are_distinct(push_plan(paths, index).targets),
        sources_are_within(push_plan(paths, index).targets, paths.len()),
    decreases paths.len(),
{
    if paths.len() > 0 {
        law_push_plan_targets(paths.drop_last(), index);
        let before = push_plan(paths.drop_last(), index).targets;
        let after = push_plan(paths, index).targets;
        if after != before {
            assert(after.drop_last() == before);
            let id = after.last().item_id;
            assert(!is_targeted(before, id));
            assert forall|a: int, b: int| 0 <= a < b < after.len() implies (
            #[trigger] after[a]).item_id != (#[trigger] after[b]).item_id by {
                assert(after[a] == before[a]);
                if b < before.len() {
                    assert(after[b] == before[b]);
                }
            }
            assert forall|a: int| 0 <= a < after.len() implies (#[trigger] after[a]).source
                < paths.len() by {
                if a < before.len() {
                    assert(after[a] == before[a]);
                }
            }
        }
    }
}

fn targets_have(targets: &Vec<PushTarget>, id: &str) -> (r: bool)
    ensures
        r == is_targeted(target_views(targets@), id@),
{
    let mut i: usize = 0;
    while i < targets.len()
        invariant
            i <= targets.len(),
            forall|j: int| 0 <= j < i ==> (#[trigger] target_views(targets@)[j]).item_id != id@,
        decreases targets.len() - i,
    {
        if str_eq(targets[i].item_id.as_str(), id) {
            assert(target_views(targets@)[i as int].item_id == id@);
            return true;
        }
        i += 1;
    }
    false
}

/// Plans which library items get the metadata of which books.
pub fn plan_push(items: &Vec<PushItem>, index: &LibraryIndex) -> (r: PushPlan)
    ensures
        r@ == push_plan(push_paths(items@), index_views(*index)),
{
    let mut plan = PushPlan { targets: Vec::new(), unmatched: Vec::new() };
    let ghost paths = push_paths(items@);
    let ghost lib = index_views(*index);
    let mut i: usize = 0;
    proof {
        assert(paths.take(0) == Seq::<Seq<char>>::empty());
        assert(target_views(plan.targets@) == Seq::<PushTargetView>::empty());
        assert(string_views(plan.unmatched@) == Seq::<Seq<char>>::empty());
    }
    while i < items.len()
        invariant
            i <= items.len(),
            paths == push_paths(items@),
            lib == index_views(*index),
            plan@ == push_plan(paths.take(i as int), lib),
        decreases items.len() - i,
    {
        let ghost before_targets = plan.targets@;
        let ghost before_unmatched = plan.unmatched@;
        proof {
            let now = paths.take(i + 1);
            assert(now.drop_last() == paths.take(i as int));
            assert(now.last() == items@[i as int].path@);
            assert(lib.dom() =~= index@.dom());
        }
        let normalized = normalize_path(items[i].path.as_str());
        if normalized.as_str().unicode_len() == 0 {
            let path = items[i].path.clone();
            plan.unmatched.push(path);
            assert(string_views(plan.unmatched@) == string_views(before_unmatched).push(path@));
        } else {
            match find_matching_item(normalized.as_str(), index) {
                Some(item) => {
                    proof {
                        let k = matching_key(normalized@, lib.dom())->0;
                        law_matching_key(normalized@, lib.dom());
                        assert(index@.dom().contains(k));
                        assert(lib[k] == index@[k]@);
                        assert(item@ == lib[k]);
                    }
                    if !targets_have(&plan.targets, item.id.as_str()) {
                        let target = PushTarget {
                            item_id: item.id.clone(),
                            library_path: item.path.clone(),
                            path: items[i].path.clone(),
                            source: i,
                        };
                        plan.targets.push(target);
                        assert(target_views(plan.targets@) == target_views(before_targets).push(
                            target@,
                        ));
                    }
                },
                None => {
                    let path = items[i].path.clone();
                    plan.unmatched.push(path);
                    assert(string_views(plan.unmatched@) == string_views(before_unmatched).push(
                        path@,
                    ));
                },
            }
        }
        i += 1;
    }
    assert(paths.take(items.len() as int) == paths);
    plan
}

/// How the update of one library item went.
#[derive(Debug, PartialEq, Eq)]
pub enum PushOutcome {
    /// The server changed the item.
    Updated,
    /// The server answered that nothing was changed.
    Unchanged,
    /// The update failed; `status` is the status the server answered with,
    /// if it answered.
    Failed { reason: String, status: Option<u16> },
}

/// The mathematical view of `PushOutcome`.
pub enum PushOutcomeView {
    Updated,
    Unchanged,
    Failed { reason: Seq<char>, status: Option<u16> },
}

impl View for PushOutcome {
    type V = PushOutcomeView;

    open spec fn view(&self) -> PushOutcomeView {
        match *self {
            PushOutcome::Updated => PushOutcomeView::Updated,
            PushOutcome::Unchanged => PushOutcomeView::Unchanged,
            PushOutcome::Failed { reason, status } => PushOutcomeView::Failed {
                reason: reason@,
                status,
            },
        }
    }
}

/// The views of a sequence of outcomes.
pub open spec fn outcome_views(v: Seq<PushOutcome>) -> Seq<PushOutcomeView> {
    Seq::new(v.len(), |i: int| v[i]@)
}

/// A book whose update did not go through.
#[derive(Debug, PartialEq, Eq)]
pub struct PushFailure {
    pub path: String,
    pub reason: String,
    pub status: Option<u16>,
}

/// The mathematical view of `PushFailure`.
pub struct PushFailureView {
    pub path: Seq<char>,
    pub reason: Seq<char>,
    pub status: Option<u16>,
}

impl View for PushFailure {
    type V = PushFailureView;

    open spec fn view(&self) -> PushFailureView {
        PushFailureView { path: self.path@, reason: self.reason@, status: self.status }
    }
}

/// The views of a sequence of failures.
pub open spec fn failure_views(v: Seq<PushFailure>) -> Seq<PushFailureView> {
    Seq::new(v.len(), |i: int| v[i]@)
}

/// What a push achieved.
#[derive(Debug, PartialEq, Eq)]
pub struct PushResult {
    pub updated: usize,
    pub unmatched: Vec<String>,
    pub failed: Vec<PushFailure>,
}

/// Why a book counts as failed when the server changed nothing.
pub open spec fn unchanged_reason(library_path: Seq<char>) -> Seq<char> {
    "AudiobookShelf reported no updates for "@ + library_path
}

/// Number of the first `n` outcomes that are `Updated`.
pub open spec fn updated_count(outcomes: Seq<PushOutcomeView>, n: int) -> nat
    decreases n,
{
    if n <= 0 || n > outcomes.len() {
        0
    } else {
        updated_count(outcomes, n - 1) + if outcomes[n - 1] is Updated {
            1nat
        } else {
            0nat
        }
    }
}

/// The failures among the first `n` targets, in their order: a target whose
/// outcome is `Unchanged` fails for the reason `unchanged_reason` gives, one
/// whose outcome is `Failed` for the reason and with the status it carries.
pub open spec fn push_failures(
    targets: Seq<PushTargetView>,
    outcomes: Seq<PushOutcomeView>,
    n: int,
) -> Seq<PushFailureView>
    decreases n,
{
    if n <= 0 || n > outcomes.len() || n > targets.len() {
        Seq::empty()
    } else {
        let before = push_failures(targets, outcomes, n - 1);
        match outcomes[n - 1] {
            PushOutcomeView::Updated => before,
            PushOutcomeView::Unchanged => before.push(
                PushFailureView {
                    path: targets[n - 1].path,
                    reason: unchanged_reason(targets[n - 1].library_path),
                    status: None,
                },
            ),
            PushOutcomeView::Failed { reason, status } => before.push(
                PushFailureView { path: targets[n - 1].path, reason, status },
            ),
        }
    }
}

/// The smaller of two lengths.
pub open spec fn shorter(a: int, b: int) -> int {
    if a < b {
        a
    } else {
        b
    }
}

/// Sums up a push: `outcomes` holds, for each target of the plan in order,
/// how its update went. A target without an outcome was not attempted and
/// counts neither as updated nor as failed.
pub fn summarize_push(plan: PushPlan, outcomes: &Vec<PushOutcome>) -> (r: PushResult)
    ensures
        r.updated == updated_count(
            outcome_views(outcomes@),
            shorter(outcomes.len() as int, plan.targets.len() as int),
        ),
        failure_views(r.failed@) == push_failures(
            plan@.targets,
            outcome_views(outcomes@),
            shorter(outcomes.len() as int, plan.targets.len() as int),
        ),
        string_views(r.unmatched@) == plan@.unmatched,
{
    let count: usize = if outcomes.len() < plan.targets.len() {
        outcomes.len()
    } else {
        plan.targets.len()
    };
    let mut updated: usize = 0;
    let mut failed: Vec<PushFailure> = Vec::new();
    let ghost tv = target_views(plan.targets@);
    let ghost ov = outcome_views(outcomes@);
    let mut i: usize = 0;
    assert(failure_views(failed@) == Seq::<PushFailureView>::empty());
    while i < count
        invariant
            i <= count,
            count <= outcomes.len(),
            count <= plan.targets.len(),
            tv == target_views(plan.targets@),
            ov == outcome_views(outcomes@),
            updated <= i,
            updated == updated_count(ov, i as int),
            failure_views(failed@) == push_failures(tv, ov, i as int),
        decreases count - i,
    {
        let ghost before = failed@;
        assert(ov[i as int] == outcomes@[i as int]@);
        assert(tv[i as int] == plan.targets@[i as int]@);
        match &outcomes[i] {
            PushOutcome::Updated => {
                updated += 1;
            },
            PushOutcome::Unchanged => {
                let mut reason = String::from_str("AudiobookShelf reported no updates for ");
                reason.append(plan.targets[i].library_path.as_str());
                let failure = PushFailure {
                    path: plan.targets[i].path.clone(),
                    reason,
                    status: None,
                };
                failed.push(failure);
                assert(failure_views(failed@) == failure_views(before).push(failure@));
            },
            PushOutcome::Failed { reason, status } => {
                let failure = PushFailure {
                    path: plan.targets[i].path.clone(),
                    reason: reason.clone(),
                    status: *status,
                };
                failed.push(failure);
                assert(failure_views(failed@) == failure_views(before).push(failure@));
            },
        }
        i += 1;
    }
    PushResult { updated, unmatched: plan.unmatched, failed }
}

} // verus!
