//! The store of resolved metadata, keyed by a normalized title and author.

use vstd::prelude::*;
use crate::model::{BookMetadata, BookMetadataView};
use crate::text::{
    from_chars, is_space, lower, lower_char, lower_chars, squeeze, squeeze_chars, to_chars, trim,
    trim_chars, trim_end, trim_start,
};
use crate::textmap::TextMap;

verus! {

/// The character that parts the two halves of a key.
pub const KEY_SEPARATOR: char = '\n';

/// One half of a key: surrounding white space dropped, inner runs of white
/// space reduced to one space, ASCII letters in lower case.
pub open spec fn key_part(s: Seq<char>) -> Seq<char> {
    lower(squeeze(trim(s)))
}

/// The key under which the book with this title and author is held.
pub open spec fn cache_key(title: Seq<char>, author: Seq<char>) -> Seq<char> {
    key_part(title) + seq![KEY_SEPARATOR] + key_part(author)
}

proof fn lemma_squeeze_has_no_separator(s: Seq<char>)
    ensures
        forall|i: int| 0 <= i < squeeze(s).len() ==> squeeze(s)[i] != KEY_SEPARATOR,
    decreases s.len(),
{
    if s.len() > 0 {
        lemma_squeeze_has_no_separator(s.skip(1));
        let rest = squeeze(s.skip(1));
        assert(is_space(KEY_SEPARATOR));
        assert forall|i: int| 0 <= i < squeeze(s).len() implies squeeze(s)[i]
            != KEY_SEPARATOR by {
            if is_space(s[0]) && s.len() > 1 && is_space(s[1]) {
            } else if i > 0 {
                assert(squeeze(s)[i] == rest[i - 1]);
            }
        }
    }
}

/// No half of a key holds the separator.
pub proof fn lemma_key_part_has_no_separator(s: Seq<char>)
    ensures
        forall|i: int| 0 <= i < key_part(s).len() ==> key_part(s)[i] != KEY_SEPARATOR,
{
    lemma_squeeze_has_no_separator(trim(s));
}

/// Two books share a key exactly when their titles and their authors agree
/// after normalization.
pub proof fn law_key_is_exact(
    first_title: Seq<char>,
    first_author: Seq<char>,
    second_title: Seq<char>,
    second_author: Seq<char>,
)
    ensures
        cache_key(first_title, first_author) == cache_key(second_title, second_author) <==> key_part(
            first_title,
        ) == key_part(second_title) && key_part(first_author) == key_part(second_author),
{
    if cache_key(first_title, first_author) == cache_key(second_title, second_author) {
        let (title_a, author_a) = (key_part(first_title), key_part(first_author));
        let (title_b, author_b) = (key_part(second_title), key_part(second_author));
        let key_a = cache_key(first_title, first_author);
        let key_b = cache_key(second_title, second_author);
        lemma_key_part_has_no_separator(first_title);
        lemma_key_part_has_no_separator(second_title);
        assert(key_a[title_a.len() as int] == KEY_SEPARATOR);
        assert(key_b[title_b.len() as int] == KEY_SEPARATOR);
        if title_a.len() < title_b.len() {
            assert(key_b[title_a.len() as int] == title_b[title_a.len() as int]);
        }
        if title_b.len() < title_a.len() {
            assert(key_a[title_b.len() as int] == title_a[title_b.len() as int]);
        }
        assert(title_a == key_a.take(title_a.len() as int));
        assert(title_b == key_b.take(title_b.len() as int));
        assert(author_a == key_a.skip(title_a.len() as int + 1));
        assert(author_b == key_b.skip(title_b.len() as int + 1));
    }
}

/// Whether `s` is white space only.
pub open spec fn is_blank(s: Seq<char>) -> bool {
    forall|i: int| 0 <= i < s.len() ==> is_space(#[trigger] s[i])
}

proof fn lemma_lower_trim_start(s: Seq<char>)
    ensures
        lower(trim_start(s)) == trim_start(lower(s)),
    decreases s.len(),
{
    if s.len() > 0 && is_space(s[0]) {
        lemma_lower_trim_start(s.skip(1));
        assert(lower(s).skip(1) == lower(s.skip(1)));
    }
}

proof fn lemma_lower_trim_end(s: Seq<char>)
    ensures
        lower(trim_end(s)) == trim_end(lower(s)),
    decreases s.len(),
{
    if s.len() > 0 && is_space(s.last()) {
        lemma_lower_trim_end(s.drop_last());
        assert(lower(s).drop_last() == lower(s.drop_last()));
    }
}

proof fn lemma_lower_squeeze(s: Seq<char>)
    ensures
        lower(squeeze(s)) == squeeze(lower(s)),
    decreases s.len(),
{
    if s.len() > 0 {
        lemma_lower_squeeze(s.skip(1));
        assert(lower(s).skip(1) == lower(s.skip(1)));
        assert(lower_char(' ') == ' ');
        let tail = squeeze(s.skip(1));
        if is_space(s[0]) {
            if !(s.len() > 1 && is_space(s[1])) {
                assert(lower(seq![' '] + tail) == seq![' '] + lower(tail));
            }
        } else {
            assert(lower(seq![s[0]] + tail) == seq![lower_char(s[0])] + lower(tail));
        }
    }
}

/// The halves of a key do not tell letter case apart: texts that agree up
/// to ASCII letter case have the same key part.
pub proof fn law_key_part_ignores_case(a: Seq<char>, b: Seq<char>)
    requires
        lower(a) == lower(b),
    ensures
        key_part(a) == key_part(b),
{
    lemma_lower_trim_start(a);
    lemma_lower_trim_end(trim_start(a));
    lemma_lower_squeeze(trim(a));
    lemma_lower_trim_start(b);
    lemma_lower_trim_end(trim_start(b));
    lemma_lower_squeeze(trim(b));
}

proof fn lemma_trim_start_of_sum(s: Seq<char>, t: Seq<char>)
    ensures
        trim_start(s + t) == if trim_start(s).len() > 0 {
            trim_start(s) + t
        } else {
            trim_start(t)
        },
    decreases s.len(),
{
    if s.len() == 0 {
        assert(s + t == t);
    } else if is_space(s[0]) {
        assert((s + t).skip(1) == s.skip(1) + t);
        lemma_trim_start_of_sum(s.skip(1), t);
    }
}

proof fn lemma_trim_end_of_blank_tail(s: Seq<char>, pad: Seq<char>)
    requires
        is_blank(pad),
    ensures
        trim_end(s + pad) == trim_end(s),
    decreases pad.len(),
{
    if pad.len() == 0 {
        assert(s + pad == s);
    } else {
        assert((s + pad).last() == pad.last());
        assert((s + pad).drop_last() == s + pad.drop_last());
        assert forall|i: int| 0 <= i < pad.drop_last().len() implies is_space(
            #[trigger] pad.drop_last()[i],
        ) by {
            assert(pad.drop_last()[i] == pad[i]);
        }
        lemma_trim_end_of_blank_tail(s, pad.drop_last());
    }
}

proof fn lemma_trim_start_of_blank(pad: Seq<char>)
    requires
        is_blank(pad),
    ensures
        trim_start(pad).len() == 0,
    decreases pad.len(),
{
    if pad.len() > 0 {
        assert forall|i: int| 0 <= i < pad.skip(1).len() implies is_space(
            #[trigger] pad.skip(1)[i],
        ) by {
            assert(pad.skip(1)[i] == pad[i + 1]);
        }
        lemma_trim_start_of_blank(pad.skip(1));
    }
}

/// The halves of a key do not tell surrounding white space apart.
pub proof fn law_key_part_ignores_padding(before: Seq<char>, s: Seq<char>, after: Seq<char>)
    requires
        is_blank(before),
        is_blank(after),
    ensures
        key_part(before + s + after) == key_part(s),
{
    lemma_trim_start_of_blank(before);
    lemma_trim_start_of_sum(before, s + after);
    assert(before + s + after == before + (s + after));
    assert(trim_start(before + s + after) == trim_start(s + after));
    lemma_trim_start_of_sum(s, after);
    if trim_start(s).len() > 0 {
        lemma_trim_end_of_blank_tail(trim_start(s), after);
    } else {
        lemma_trim_start_of_blank(after);
    }
}

/// The key under which the book with this title and author is held.
pub fn make_key(title: &str, author: &str) -> (r: String)
    ensures
        r@ == cache_key(title@, author@),
{
    let mut key = lower_chars(&squeeze_chars(&trim_chars(&to_chars(title))));
    key.push(KEY_SEPARATOR);
    let tail = lower_chars(&squeeze_chars(&trim_chars(&to_chars(author))));
    crate::text::append_chars(&mut key, &tail);
    from_chars(&key)
}

/// Resolved metadata with the time of its resolution, in seconds since the
/// Unix epoch.
#[derive(Debug, PartialEq, Eq)]
pub struct CachedEntry {
    pub metadata: BookMetadata,
    pub timestamp: u64,
}

/// The mathematical view of `CachedEntry`.
pub struct CachedEntryView {
    pub metadata: BookMetadataView,
    pub timestamp: u64,
}

impl View for CachedEntry {
    type V = CachedEntryView;

    open spec fn view(&self) -> CachedEntryView {
        CachedEntryView { metadata: self.metadata@, timestamp: self.timestamp }
    }
}

impl Clone for CachedEntry {
    fn clone(&self) -> (r: Self)
        ensures
            r@ == self@,
    {
        CachedEntry { metadata: self.metadata.clone(), timestamp: self.timestamp }
    }
}

/// A key-value store of resolved metadata. Entries never expire and are
/// replaced whole.
#[derive(Debug)]
pub struct MetadataCache {
    entries: TextMap<CachedEntry>,
}

impl View for MetadataCache {
    type V = Map<Seq<char>, CachedEntryView>;

    closed spec fn view(&self) -> Map<Seq<char>, CachedEntryView> {
        self.entries@.map_values(|e: CachedEntry| e@)
    }
}

impl MetadataCache {
    /// The keys in the order in which they were first stored.
    pub closed spec fn key_seq(self) -> Seq<Seq<char>> {
        self.entries.key_seq()
    }

    /// An empty store: it holds no entry, and no key has a place in its order.
    pub fn new() -> (r: Self)
        ensures
            r@ == Map::<Seq<char>, CachedEntryView>::empty(),
            r.key_seq() == Seq::<Seq<char>>::empty(),
    {
        let r = MetadataCache { entries: TextMap::new() };
        assert(r@ =~= Map::<Seq<char>, CachedEntryView>::empty());
        r
    }

    /// The entry held under a key as `make_key` builds it.
    pub fn entry(&self, key: &str) -> (r: Option<CachedEntry>)
        ensures
            match r {
                Some(e) => self@.contains_key(key@) && e@ == self@[key@],
                None => !self@.contains_key(key@),
            },
    {
        match self.entries.get(key) {
            Some(e) => Some(e.clone()),
            None => None,
        }
    }

    /// The metadata resolved earlier for this title and author, if any.
    pub fn lookup(&self, title: &str, author: &str) -> (r: Option<BookMetadata>)
        ensures
            match r {
                Some(m) => self@.contains_key(cache_key(title@, author@)) && m@
                    == self@[cache_key(title@, author@)].metadata,
                None => !self@.contains_key(cache_key(title@, author@)),
            },
    {
        let key = make_key(title, author);
        match self.entries.get(key.as_str()) {
            Some(e) => Some(e.metadata.clone()),
            None => None,
        }
    }

    /// Holds `entry` under `key`, in place of any entry held there before.
    pub fn put(&mut self, key: String, entry: CachedEntry)
        ensures
            final(self)@ == old(self)@.insert(key@, entry@),
    {
        let ghost before = self.entries@;
        self.entries.insert(key, entry);
        assert(self@ =~= before.map_values(|e: CachedEntry| e@).insert(key@, entry@));
    }

    /// Holds `metadata` for this title and author, in place of any entry held
    /// for them before.
    pub fn store(&mut self, title: &str, author: &str, metadata: BookMetadata, timestamp: u64)
        ensures
            final(self)@ == old(self)@.insert(
                cache_key(title@, author@),
                CachedEntryView { metadata: metadata@, timestamp },
            ),
    {
        let key = make_key(title, author);
        self.put(key, CachedEntry { metadata, timestamp });
    }

    /// Drops every entry.
    pub fn clear(&mut self)
        ensures
            final(self)@ == Map::<Seq<char>, CachedEntryView>::empty(),
    {
        self.entries.clear();
        assert(self@ =~= Map::<Seq<char>, CachedEntryView>::empty());
    }

    /// Number of entries held.
    pub fn len(&self) -> (r: usize)
        ensures
            r == self@.dom().len(),
            r == self.key_seq().len(),
            self.key_seq().no_duplicates(),
            self.key_seq().to_set() == self@.dom(),
    {
        let n = self.entries.len();
        assert(self@.dom() =~= self.entries@.dom());
        n
    }

    /// The key at position `i` of the order in which keys were first stored.
    pub fn key_at(&self, i: usize) -> (r: String)
        requires
            i < self.key_seq().len(),
        ensures
            r@ == self.key_seq()[i as int],
            self@.contains_key(r@),
    {
        self.entries.key_at(i).clone()
    }

    /// The entry at position `i` of the order in which keys were first stored.
    pub fn entry_at(&self, i: usize) -> (r: CachedEntry)
        requires
            i < self.key_seq().len(),
        ensures
            self@.contains_key(self.key_seq()[i as int]),
            r@ == self@[self.key_seq()[i as int]],
    {
        let _ = self.entries.key_at(i);
        self.entries.value_at(i).clone()
    }
}

/// What was stored for a title and author is what a lookup of the same title
/// and author returns, whatever the store held before.
pub proof fn law_store_then_lookup(
    before: Map<Seq<char>, CachedEntryView>,
    title: Seq<char>,
    author: Seq<char>,
    entry: CachedEntryView,
)
    ensures
        before.insert(cache_key(title, author), entry).contains_key(cache_key(title, author)),
        before.insert(cache_key(title, author), entry)[cache_key(title, author)] == entry,
{
}

/// Storing under one key leaves what is held under every other key as it was.
pub proof fn law_store_keeps_others(
    before: Map<Seq<char>, CachedEntryView>,
    title: Seq<char>,
    author: Seq<char>,
    entry: CachedEntryView,
    other: Seq<char>,
)
    requires
        other != cache_key(title, author),
    ensures
        before.insert(cache_key(title, author), entry).contains_key(other) == before.contains_key(
            other,
        ),
        before.contains_key(other) ==> before.insert(cache_key(title, author), entry)[other]
            == before[other],
{
}

} // verus!
