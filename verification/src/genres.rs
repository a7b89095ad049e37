//! The approved genre vocabulary and the policy that maps free-text genre
//! strings onto it.

use vstd::prelude::*;
use crate::model::opt_view;
use crate::text::{
    chars_eq, chars_have, has_substring, list_has, lower, lower_chars, string_views, to_chars,
    trim, trim_chars,
};

verus! {

/// Number of labels in the approved vocabulary.
pub const APPROVED_COUNT: usize = 24;

/// Most genres that one book may carry.
pub const MAX_GENRES: usize = 3;

/// The approved vocabulary, the more specific labels first.
pub open spec fn approved_genres() -> Seq<Seq<char>> {
    seq![
        "Science Fiction"@,
        "Historical Fiction"@,
        "Non-Fiction"@,
        "True Crime"@,
        "Young Adult"@,
        "Self-Help"@,
        "Children's"@,
        "Fiction"@,
        "Fantasy"@,
        "Adventure"@,
        "Mystery"@,
        "Thriller"@,
        "Horror"@,
        "Romance"@,
        "Biography"@,
        "Memoir"@,
        "History"@,
        "Science"@,
        "Business"@,
        "Humor"@,
        "Poetry"@,
        "Classics"@,
        "Religion"@,
        "Travel"@,
    ]
}

/// The approved label at position `i`.
pub fn approved_genre(i: usize) -> (r: &'static str)
    requires
        i < APPROVED_COUNT,
    ensures
        r@ == approved_genres()[i as int],
{
    match i {
        0 => "Science Fiction",
        1 => "Historical Fiction",
        2 => "Non-Fiction",
        3 => "True Crime",
        4 => "Young Adult",
        5 => "Self-Help",
        6 => "Children's",
        7 => "Fiction",
        8 => "Fantasy",
        9 => "Adventure",
        10 => "Mystery",
        11 => "Thriller",
        12 => "Horror",
        13 => "Romance",
        14 => "Biography",
        15 => "Memoir",
        16 => "History",
        17 => "Science",
        18 => "Business",
        19 => "Humor",
        20 => "Poetry",
        21 => "Classics",
        22 => "Religion",
        _ => "Travel",
    }
}

/// How closely a genre string has to agree with a label.
#[derive(Debug, Clone, Copy, PartialEq, Eq, Structural)]
pub enum MatchTier {
    /// The string is the label, character for character.
    Verbatim,
    /// The trimmed string is the label up to ASCII letter case.
    IgnoreCase,
    /// The trimmed string contains the label up to ASCII letter case.
    Contained,
}

/// Whether `genre` agrees with `label` at the given tier.
pub open spec fn label_matches(tier: MatchTier, genre: Seq<char>, label: Seq<char>) -> bool {
    match tier {
        MatchTier::Verbatim => genre == label,
        MatchTier::IgnoreCase => lower(trim(genre)) == lower(label),
        MatchTier::Contained => has_substring(lower(trim(genre)), lower(label)),
    }
}

/// Position of the first approved label at or after `from` that `genre`
/// agrees with at the given tier.
pub open spec fn first_label(tier: MatchTier, genre: Seq<char>, from: int) -> Option<int>
    decreases approved_genres().len() - from,
{
    if from < 0 || from >= approved_genres().len() {
        None
    } else if label_matches(tier, genre, approved_genres()[from]) {
        Some(from)
    } else {
        first_label(tier, genre, from + 1)
    }
}

/// Whether `genre` is, character for character, a label of the vocabulary.
pub open spec fn is_approved(genre: Seq<char>) -> bool {
    first_label(MatchTier::Verbatim, genre, 0) is Some
}

/// The approved label that stands for `genre`: the string itself where it is
/// approved, else the first label equal to it up to case and surrounding
/// white space, else the first label it contains; `None` where no label fits.
pub open spec fn canonical_genre(genre: Seq<char>) -> Option<Seq<char>> {
    if is_approved(genre) {
        Some(genre)
    } else {
        match first_label(MatchTier::IgnoreCase, genre, 0) {
            Some(i) => Some(approved_genres()[i]),
            None => match first_label(MatchTier::Contained, genre, 0) {
                Some(i) => Some(approved_genres()[i]),
                None => None,
            },
        }
    }
}

/// The normalized list that `genres` adds to `acc`: canonical labels in order
/// of first appearance, none twice, until `MAX_GENRES` are held.
pub open spec fn normalize_from(genres: Seq<Seq<char>>, acc: Seq<Seq<char>>) -> Seq<Seq<char>>
    decreases genres.len(),
{
    if genres.len() == 0 || acc.len() >= MAX_GENRES {
        acc
    } else {
        match canonical_genre(genres[0]) {
            Some(label) => if acc.contains(label) {
                normalize_from(genres.skip(1), acc)
            } else {
                normalize_from(genres.skip(1), acc.push(label))
            },
            None => normalize_from(genres.skip(1), acc),
        }
    }
}

/// The normalized form of a genre list.
pub open spec fn normalize(genres: Seq<Seq<char>>) -> Seq<Seq<char>> {
    normalize_from(genres, Seq::empty())
}

/// A list as the policy emits it: approved labels, none twice, at most
/// `MAX_GENRES` of them.
pub open spec fn is_normal(genres: Seq<Seq<char>>) -> bool {
    &&& genres.len() <= MAX_GENRES
    &&& genres.no_duplicates()
    &&& forall|i: int| 0 <= i < genres.len() ==> is_approved(#[trigger] genres[i])
}

/// `first_label` returns the least position at or after `from` whose label
/// `genre` agrees with.
pub proof fn lemma_first_label(tier: MatchTier, genre: Seq<char>, from: int)
    requires
        0 <= from,
    ensures
        match first_label(tier, genre, from) {
            Some(i) => from <= i < approved_genres().len() && label_matches(
                tier,
                genre,
                approved_genres()[i],
            ) && forall|j: int| from <= j < i ==> !label_matches(tier, genre, approved_genres()[j]),
            None => forall|j: int|
                from <= j < approved_genres().len() ==> !label_matches(
                    tier,
                    genre,
                    approved_genres()[j],
                ),
        },
    decreases approved_genres().len() - from,
{
    if from < approved_genres().len() && !label_matches(tier, genre, approved_genres()[from]) {
        lemma_first_label(tier, genre, from + 1);
    }
}

/// Every label of the vocabulary is approved.
pub proof fn lemma_labels_are_approved(i: int)
    requires
        0 <= i < approved_genres().len(),
    ensures
        is_approved(approved_genres()[i]),
{
    lemma_first_label(MatchTier::Verbatim, approved_genres()[i], 0);
}

/// Whatever the policy picks for a string is approved, and an approved string
/// stands for itself.
pub proof fn lemma_canonical_genre(genre: Seq<char>)
    ensures
        canonical_genre(genre) matches Some(label) ==> is_approved(label),
        is_approved(genre) ==> canonical_genre(genre) == Some(genre),
{
    lemma_first_label(MatchTier::IgnoreCase, genre, 0);
    lemma_first_label(MatchTier::Contained, genre, 0);
    if !is_approved(genre) {
        match canonical_genre(genre) {
            Some(label) => {
                let i = choose|i: int|
                    0 <= i < approved_genres().len() && approved_genres()[i] == label;
                lemma_labels_are_approved(i);
            },
            None => {},
        }
    }
}

proof fn lemma_normalize_from_is_normal(genres: Seq<Seq<char>>, acc: Seq<Seq<char>>)
    requires
        is_normal(acc),
    ensures
        is_normal(normalize_from(genres, acc)),
    decreases genres.len(),
{
    if genres.len() == 0 || acc.len() >= MAX_GENRES {
    } else {
        lemma_canonical_genre(genres[0]);
        match canonical_genre(genres[0]) {
            Some(label) => {
                if acc.contains(label) {
                    lemma_normalize_from_is_normal(genres.skip(1), acc);
                } else {
                    lemma_normalize_from_is_normal(genres.skip(1), acc.push(label));
                }
            },
            None => {
                lemma_normalize_from_is_normal(genres.skip(1), acc);
            },
        }
    }
}

proof fn lemma_normalize_from_keeps(genres: Seq<Seq<char>>, acc: Seq<Seq<char>>)
    requires
        is_normal(acc + genres),
    ensures
        normalize_from(genres, acc) == acc + genres,
    decreases genres.len(),
{
    let all = acc + genres;
    if genres.len() == 0 {
        assert(acc + genres == acc);
    } else {
        let head = genres[0];
        assert(all[acc.len() as int] == head);
        lemma_canonical_genre(head);
        assert(!acc.contains(head)) by {
            if acc.contains(head) {
                let k = choose|k: int| 0 <= k < acc.len() && acc[k] == head;
                assert(all[k] == head);
            }
        }
        assert(acc.push(head) + genres.skip(1) == all);
        lemma_normalize_from_keeps(genres.skip(1), acc.push(head));
    }
}

/// What the policy emits is always a normal list.
pub proof fn law_normalize_is_normal(genres: Seq<Seq<char>>)
    ensures
        is_normal(normalize(genres)),
{
    lemma_normalize_from_is_normal(genres, Seq::empty());
}

/// The policy leaves a normal list as it is.
pub proof fn law_normalize_keeps_normal(genres: Seq<Seq<char>>)
    requires
        is_normal(genres),
    ensures
        normalize(genres) == genres,
{
    assert(Seq::<Seq<char>>::empty() + genres == genres);
    lemma_normalize_from_keeps(genres, Seq::empty());
}

/// Normalizing is idempotent: a second application changes nothing.
pub proof fn law_normalize_idempotent(genres: Seq<Seq<char>>)
    ensures
        normalize(normalize(genres)) == normalize(genres),
{
    law_normalize_is_normal(genres);
    law_normalize_keeps_normal(normalize(genres));
}


fn find_label(tier: MatchTier, genre: &Vec<char>, folded: &Vec<char>) -> (r: Option<usize>)
    requires
        folded@ == lower(trim(genre@)),
    ensures
        match r {
            Some(i) => i < APPROVED_COUNT && first_label(tier, genre@, 0) == Some(i as int),
            None => first_label(tier, genre@, 0) is None,
        },
{
    let mut i: usize = 0;
    while i < APPROVED_COUNT
        invariant
            i <= APPROVED_COUNT,
            approved_genres().len() == APPROVED_COUNT,
            folded@ == lower(trim(genre@)),
            first_label(tier, genre@, 0) == first_label(tier, genre@, i as int),
        decreases APPROVED_COUNT - i,
    {
        let label = to_chars(approved_genre(i));
        let hit = match tier {
            MatchTier::Verbatim => chars_eq(genre, &label),
            MatchTier::IgnoreCase => {
                let folded_label = lower_chars(&label);
                chars_eq(folded, &folded_label)
            },
            MatchTier::Contained => {
                let folded_label = lower_chars(&label);
                chars_have(folded, &folded_label)
            },
        };
        if hit {
            return Some(i);
        }
        i += 1;
    }
    None
}

/// Whether `genre` is a label of the approved vocabulary.
pub fn genre_is_approved(genre: &str) -> (r: bool)
    ensures
        r == is_approved(genre@),
{
    let chars = to_chars(genre);
    let folded = lower_chars(&trim_chars(&chars));
    find_label(MatchTier::Verbatim, &chars, &folded).is_some()
}

/// The approved label that stands for `genre`, if any does.
pub fn canonicalize_genre(genre: &str) -> (r: Option<String>)
    ensures
        opt_view(r) == canonical_genre(genre@),
{
    let chars = to_chars(genre);
    let folded = lower_chars(&trim_chars(&chars));
    if find_label(MatchTier::Verbatim, &chars, &folded).is_some() {
        return Some(String::from_str(genre));
    }
    match find_label(MatchTier::IgnoreCase, &chars, &folded) {
        Some(i) => Some(String::from_str(approved_genre(i))),
        None => match find_label(MatchTier::Contained, &chars, &folded) {
            Some(i) => Some(String::from_str(approved_genre(i))),
            None => None,
        },
    }
}

/// Maps a genre list onto the approved vocabulary: each entry is replaced by
/// the label that stands for it, entries that no label fits and repeated
/// labels are dropped, and the list ends after `MAX_GENRES` labels.
pub fn normalize_genres(genres: &Vec<String>) -> (r: Vec<String>)
    ensures
        string_views(r@) == normalize(string_views(genres@)),
        is_normal(string_views(r@)),
{
    let mut acc: Vec<String> = Vec::new();
    let mut i: usize = 0;
    let ghost all = string_views(genres@);
    assert(all.skip(0) == all);
    assert(string_views(acc@) == Seq::<Seq<char>>::empty());
    while i < genres.len() && acc.len() < MAX_GENRES
        invariant
            i <= genres.len(),
            all == string_views(genres@),
            normalize(all) == normalize_from(all.skip(i as int), string_views(acc@)),
        decreases genres.len() - i,
    {
        let ghost before = string_views(acc@);
        assert(all.skip(i as int).skip(1) == all.skip(i + 1));
        assert(all.skip(i as int)[0] == genres@[i as int]@);
        match canonicalize_genre(genres[i].as_str()) {
            Some(label) => {
                if !list_has(&acc, label.as_str()) {
                    acc.push(label);
                    assert(string_views(acc@) == before.push(label@));
                }
            },
            None => {},
        }
        i += 1;
    }
    proof {
        law_normalize_is_normal(all);
    }
    acc
}

} // verus!
