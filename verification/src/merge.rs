//! Fusing the identity of a book with what the catalogs and the
//! reconciliation service say of it, and judging the result.

use vstd::prelude::*;
use vstd::utf8::encode_utf8;
use crate::genres::{is_normal, law_normalize_is_normal, normalize, normalize_genres};
use crate::model::{copy_opt, opt_view, BookMetadata, BookMetadataView};
use crate::sources::{
    audible_view, google_view, AudibleMetadata, AudibleMetadataView, GoogleMetadata,
    GoogleMetadataView,
};
use crate::text::{
    char_is_digit, chars_have, find_char_from, from_chars, has_substring, index_of_char,
    is_digit, slice_chars, string_views, to_chars,
};

verus! {

/// Score from which a merge result is accepted.
pub const ACCEPT_SCORE: u32 = 80;

/// Number of merge attempts a scan makes for one book.
pub const MAX_ATTEMPTS: u32 = 3;

/// The four-digit year a date begins with: the text before the first `-`,
/// where that text is four ASCII digits.
pub open spec fn year_of_date(date: Seq<char>) -> Option<Seq<char>> {
    let head = date.take(index_of_char(date, '-') as int);
    if head.len() == 4 && is_digit(head[0]) && is_digit(head[1]) && is_digit(head[2]) && is_digit(
        head[3],
    ) {
        Some(head)
    } else {
        None
    }
}

/// The year a catalog record gives, if its date begins with one.
pub open spec fn year_of(date: Option<Seq<char>>) -> Option<Seq<char>> {
    match date {
        Some(d) => year_of_date(d),
        None => None,
    }
}

/// The publication year taken as ground truth: the year of the Audible
/// release date, else the year of the Google Books publish date.
pub open spec fn reliable_year(
    google: Option<GoogleMetadataView>,
    audible: Option<AudibleMetadataView>,
) -> Option<Seq<char>> {
    let from_audible = match audible {
        Some(a) => year_of(a.release_date),
        None => None,
    };
    match from_audible {
        Some(y) => Some(y),
        None => match google {
            Some(g) => year_of(g.publish_date),
            None => None,
        },
    }
}

/// `a` where it is present, else `b`.
pub open spec fn first_of(a: Option<Seq<char>>, b: Option<Seq<char>>) -> Option<Seq<char>> {
    match a {
        Some(x) => Some(x),
        None => b,
    }
}

/// The record built without the reconciliation service, each field from the
/// one source that stands for it: title and author from the extracted
/// identity; description, publisher and ISBN from Google Books; narrator,
/// series and sequence from the first entries Audible lists; the year as
/// `reliable_year` gives it. It has no subtitle and no genres. A field whose
/// source is missing, or lacks it, is absent.
pub open spec fn fallback_metadata(
    title: Seq<char>,
    author: Seq<char>,
    google: Option<GoogleMetadataView>,
    audible: Option<AudibleMetadataView>,
) -> BookMetadataView {
    BookMetadataView {
        title,
        subtitle: None,
        author,
        narrator: match audible {
            Some(a) => if a.narrators.len() > 0 {
                Some(a.narrators[0])
            } else {
                None
            },
            None => None,
        },
        series: match audible {
            Some(a) => if a.series.len() > 0 {
                Some(a.series[0].name)
            } else {
                None
            },
            None => None,
        },
        sequence: match audible {
            Some(a) => if a.series.len() > 0 {
                a.series[0].position
            } else {
                None
            },
            None => None,
        },
        genres: Seq::empty(),
        publisher: match google {
            Some(g) => g.publisher,
            None => None,
        },
        year: reliable_year(google, audible),
        description: match google {
            Some(g) => g.description,
            None => None,
        },
        isbn: match google {
            Some(g) => g.isbn,
            None => None,
        },
    }
}

/// The fallback record takes description, publisher and ISBN from Google
/// Books alone: whatever Audible holds of them, without a Google Books record
/// all three are absent.
pub proof fn law_fallback_sources(
    title: Seq<char>,
    author: Seq<char>,
    google: Option<GoogleMetadataView>,
    audible: Option<AudibleMetadataView>,
)
    ensures
        google is None ==> fallback_metadata(title, author, google, audible).publisher is None
            && fallback_metadata(title, author, google, audible).description is None
            && fallback_metadata(title, author, google, audible).isbn is None,
        google matches Some(g) ==> fallback_metadata(title, author, google, audible).publisher
            == g.publisher && fallback_metadata(title, author, google, audible).description
            == g.description && fallback_metadata(title, author, google, audible).isbn == g.isbn,
        audible is None ==> fallback_metadata(title, author, google, audible).narrator is None
            && fallback_metadata(title, author, google, audible).series is None
            && fallback_metadata(title, author, google, audible).sequence is None,
        fallback_metadata(title, author, google, audible).title == title,
        fallback_metadata(title, author, google, audible).author == author,
        fallback_metadata(title, author, google, audible).year == reliable_year(google, audible),
{
}

/// The outcome of one merge attempt. Where the reconciliation service gave a
/// record, that record with its genres in their approved form and its year
/// replaced by the reliable year if there is one; where it gave none, the
/// fallback record.
pub open spec fn merge_outcome(
    reconciled: Option<BookMetadataView>,
    title: Seq<char>,
    author: Seq<char>,
    google: Option<GoogleMetadataView>,
    audible: Option<AudibleMetadataView>,
) -> BookMetadataView {
    match reconciled {
        Some(m) => BookMetadataView {
            genres: normalize(m.genres),
            year: first_of(reliable_year(google, audible), m.year),
            ..m
        },
        None => fallback_metadata(title, author, google, audible),
    }
}

/// Whatever the sources and the reconciliation service say, the outcome of a
/// merge carries at most three genres, each a label of the approved
/// vocabulary and none twice.
pub proof fn law_outcome_has_approved_genres(
    reconciled: Option<BookMetadataView>,
    title: Seq<char>,
    author: Seq<char>,
    google: Option<GoogleMetadataView>,
    audible: Option<AudibleMetadataView>,
)
    ensures
        is_normal(merge_outcome(reconciled, title, author, google, audible).genres),
        is_normal(fallback_metadata(title, author, google, audible).genres),
{
    match reconciled {
        Some(m) => law_normalize_is_normal(m.genres),
        None => {},
    }
}

/// Whatever the reconciliation service says, the outcome of a merge carries
/// the reliable year where there is one.
pub proof fn law_reliable_year_wins(
    reconciled: Option<BookMetadataView>,
    title: Seq<char>,
    author: Seq<char>,
    google: Option<GoogleMetadataView>,
    audible: Option<AudibleMetadataView>,
)
    requires
        reliable_year(google, audible) is Some,
    ensures
        merge_outcome(reconciled, title, author, google, audible).year == reliable_year(
            google,
            audible,
        ),
{
}

/// Length of a text in bytes of its UTF-8 encoding.
pub open spec fn byte_len(s: Seq<char>) -> nat {
    encode_utf8(s).len()
}

/// Whether an Audible record is there and lists at least one narrator.
pub open spec fn lists_narrators(audible: Option<AudibleMetadataView>) -> bool {
    match audible {
        Some(a) => a.narrators.len() > 0,
        None => false,
    }
}

/// Whether a narrator is named, and not by the empty text.
pub open spec fn names_someone(narrator: Option<Seq<char>>) -> bool {
    match narrator {
        Some(n) => n.len() > 0,
        None => false,
    }
}

/// Whether a description is there and has 100 to 1000 bytes.
pub open spec fn is_substantial(description: Option<Seq<char>>) -> bool {
    match description {
        Some(d) => 100 <= byte_len(d) <= 1000,
        None => false,
    }
}

/// The quality of a merge result, from 0 to 100: 30 where the title contains
/// the extracted title; 20 where Audible lists narrators and the result
/// names a narrator that is not empty; 20 where the description has 100 to
/// 1000 bytes; 15 for one to three genres; 10 where series and sequence are
/// both present; 5 where a publisher or a year is.
pub open spec fn quality_score(
    meta: BookMetadataView,
    extracted_title: Seq<char>,
    audible: Option<AudibleMetadataView>,
) -> nat {
    let title_points: nat = if has_substring(meta.title, extracted_title) {
        30
    } else {
        0
    };
    let narrator_points: nat = if lists_narrators(audible) && names_someone(meta.narrator) {
        20
    } else {
        0
    };
    let description_points: nat = if is_substantial(meta.description) {
        20
    } else {
        0
    };
    let genre_points: nat = if 1 <= meta.genres.len() <= 3 {
        15
    } else {
        0
    };
    let series_points: nat = if meta.series is Some && meta.sequence is Some {
        10
    } else {
        0
    };
    let publication_points: nat = if meta.publisher is Some || meta.year is Some {
        5
    } else {
        0
    };
    title_points + narrator_points + description_points + genre_points + series_points
        + publication_points
}

/// A score never exceeds 100.
pub proof fn law_score_is_bounded(
    meta: BookMetadataView,
    extracted_title: Seq<char>,
    audible: Option<AudibleMetadataView>,
)
    ensures
        quality_score(meta, extracted_title, audible) <= 100,
{
}

/// A record whose title is the extracted title, and which has no narrator,
/// description, genre, series, publisher or year, scores exactly 30.
pub proof fn law_exact_title_scores_thirty(
    meta: BookMetadataView,
    audible: Option<AudibleMetadataView>,
)
    requires
        meta.narrator is None,
        meta.description is None,
        meta.genres.len() == 0,
        meta.series is None,
        meta.publisher is None,
        meta.year is None,
    ensures
        quality_score(meta, meta.title, audible) == 30,
{
    crate::text::law_has_itself(meta.title);
}

/// A record that has nothing but a title containing the extracted title
/// scores exactly 30.
pub proof fn law_bare_title_scores_thirty(
    meta: BookMetadataView,
    extracted_title: Seq<char>,
    audible: Option<AudibleMetadataView>,
)
    requires
        has_substring(meta.title, extracted_title),
        meta.narrator is None,
        meta.description is None,
        meta.genres.len() == 0,
        meta.series is None,
        meta.publisher is None,
        meta.year is None,
    ensures
        quality_score(meta, extracted_title, audible) == 30,
{
}

/// The year a date begins with.
pub fn parse_year(date: &str) -> (r: Option<String>)
    ensures
        opt_view(r) == year_of_date(date@),
{
    let chars = to_chars(date);
    assert(chars@.skip(0) == chars@);
    let end = find_char_from(&chars, '-', 0);
    if end == 4 && char_is_digit(chars[0]) && char_is_digit(chars[1]) && char_is_digit(chars[2])
        && char_is_digit(chars[3]) {
        let head = slice_chars(&chars, 0, 4);
        assert(head@ == chars@.take(4));
        Some(from_chars(&head))
    } else {
        None
    }
}

fn parse_opt_year(date: &Option<String>) -> (r: Option<String>)
    ensures
        opt_view(r) == year_of(opt_view(*date)),
{
    match date {
        Some(d) => parse_year(d.as_str()),
        None => None,
    }
}

/// The publication year taken as ground truth.
pub fn find_reliable_year(google: &Option<GoogleMetadata>, audible: &Option<AudibleMetadata>) -> (r:
    Option<String>)
    ensures
        opt_view(r) == reliable_year(google_view(*google), audible_view(*audible)),
{
    let from_audible = match audible {
        Some(a) => parse_opt_year(&a.release_date),
        None => None,
    };
    match from_audible {
        Some(y) => Some(y),
        None => match google {
            Some(g) => parse_opt_year(&g.publish_date),
            None => None,
        },
    }
}

/// Builds the record that stands in where the reconciliation service is not
/// configured or gave nothing usable.
pub fn build_fallback(
    title: &str,
    author: &str,
    google: &Option<GoogleMetadata>,
    audible: &Option<AudibleMetadata>,
) -> (r: BookMetadata)
    ensures
        r@ == fallback_metadata(title@, author@, google_view(*google), audible_view(*audible)),
        is_normal(r@.genres),
{
    proof {
        law_outcome_has_approved_genres(
            None,
            title@,
            author@,
            google_view(*google),
            audible_view(*audible),
        );
    }
    let year = find_reliable_year(google, audible);
    let (narrator, series, sequence) = match audible {
        Some(a) => {
            let narrator = if a.narrators.len() > 0 {
                assert(string_views(a.narrators@)[0] == a.narrators@[0]@);
                Some(a.narrators[0].clone())
            } else {
                None
            };
            let (series, sequence) = if a.series.len() > 0 {
                assert(crate::sources::series_views(a.series@)[0] == a.series@[0]@);
                (Some(a.series[0].name.clone()), copy_opt(&a.series[0].position))
            } else {
                (None, None)
            };
            (narrator, series, sequence)
        },
        None => (None, None, None),
    };
    let (publisher, description, isbn) = match google {
        Some(g) => (copy_opt(&g.publisher), copy_opt(&g.description), copy_opt(&g.isbn)),
        None => (None, None, None),
    };
    let genres: Vec<String> = Vec::new();
    assert(string_views(genres@) == Seq::<Seq<char>>::empty());
    BookMetadata {
        title: String::from_str(title),
        subtitle: None,
        author: String::from_str(author),
        narrator,
        series,
        sequence,
        genres,
        publisher,
        year,
        description,
        isbn,
    }
}

/// The outcome of one merge attempt, given the record that the
/// reconciliation service returned, if it returned one that could be read.
pub fn finish_merge(
    reconciled: Option<BookMetadata>,
    title: &str,
    author: &str,
    google: &Option<GoogleMetadata>,
    audible: &Option<AudibleMetadata>,
) -> (r: BookMetadata)
    ensures
        r@ == merge_outcome(
            crate::model::metadata_view(reconciled),
            title@,
            author@,
            google_view(*google),
            audible_view(*audible),
        ),
        is_normal(r@.genres),
{
    proof {
        law_outcome_has_approved_genres(
            crate::model::metadata_view(reconciled),
            title@,
            author@,
            google_view(*google),
            audible_view(*audible),
        );
    }
    match reconciled {
        Some(m) => {
            let year = match find_reliable_year(google, audible) {
                Some(y) => Some(y),
                None => copy_opt(&m.year),
            };
            BookMetadata {
                title: m.title,
                subtitle: m.subtitle,
                author: m.author,
                narrator: m.narrator,
                series: m.series,
                sequence: m.sequence,
                genres: normalize_genres(&m.genres),
                publisher: m.publisher,
                year,
                description: m.description,
                isbn: m.isbn,
            }
        },
        None => build_fallback(title, author, google, audible),
    }
}

/// Scores a merge result against the extracted title and what Audible gave.
pub fn validate_metadata_quality(
    metadata: &BookMetadata,
    extracted_title: &str,
    audible_data: &Option<AudibleMetadata>,
) -> (score: u32)
    ensures
        score == quality_score(metadata@, extracted_title@, audible_view(*audible_data)),
        score <= 100,
{
    let mut score: u32 = 0;
    if chars_have(&to_chars(metadata.title.as_str()), &to_chars(extracted_title)) {
        score += 30;
    }
    let audible_has_narrators = match audible_data {
        Some(a) => a.narrators.len() > 0,
        None => false,
    };
    let has_narrator = match &metadata.narrator {
        Some(n) => !n.as_str().is_empty(),
        None => false,
    };
    if audible_has_narrators && has_narrator {
        score += 20;
    }
    let good_description = match &metadata.description {
        Some(d) => {
            let bytes = d.as_str().as_bytes();
            bytes.len() >= 100 && bytes.len() <= 1000
        },
        None => false,
    };
    if good_description {
        score += 20;
    }
    if metadata.genres.len() >= 1 && metadata.genres.len() <= 3 {
        score += 15;
    }
    if metadata.series.is_some() && metadata.sequence.is_some() {
        score += 10;
    }
    if metadata.publisher.is_some() || metadata.year.is_some() {
        score += 5;
    }
    score
}


/// What a scan does after a merge attempt.
#[derive(Debug, Clone, Copy, PartialEq, Eq, Structural)]
pub enum RetryDecision {
    /// The result is good enough: keep it.
    Accept,
    /// The result falls short and attempts are left: merge again.
    Retry,
    /// The result falls short and no attempt is left: keep it all the same.
    GiveUp,
}

/// What follows attempt number `attempt`, counted from 1, of at most `max`
/// attempts, when its result scored `score`.
pub open spec fn retry_decision(attempt: nat, max: nat, score: nat) -> RetryDecision {
    if score >= ACCEPT_SCORE {
        RetryDecision::Accept
    } else if attempt < max {
        RetryDecision::Retry
    } else {
        RetryDecision::GiveUp
    }
}

/// The number of the attempt whose result is kept, when attempt number `k`
/// scores `scores(k)` and the attempts start at number `attempt`.
pub open spec fn kept_attempt(scores: spec_fn(nat) -> nat, attempt: nat, max: nat) -> nat
    decreases max - attempt,
{
    if retry_decision(attempt, max, scores(attempt)) == RetryDecision::Retry {
        kept_attempt(scores, attempt + 1, max)
    } else {
        attempt
    }
}

/// A scan never makes more than `max` attempts, and it keeps the result of
/// the first attempt that is accepted.
pub proof fn law_attempts_are_bounded(scores: spec_fn(nat) -> nat, attempt: nat, max: nat)
    requires
        1 <= attempt <= max,
    ensures
        attempt <= kept_attempt(scores, attempt, max) <= max,
        forall|k: nat|
            attempt <= k < kept_attempt(scores, attempt, max) ==> #[trigger] scores(k)
                < ACCEPT_SCORE,
        kept_attempt(scores, attempt, max) < max ==> scores(kept_attempt(scores, attempt, max))
            >= ACCEPT_SCORE,
    decreases max - attempt,
{
    if retry_decision(attempt, max, scores(attempt)) == RetryDecision::Retry {
        law_attempts_are_bounded(scores, attempt + 1, max);
    }
}

/// Where no attempt reaches the accepting score, a scan makes exactly `max`
/// attempts, gives up after the last and keeps its result.
pub proof fn law_exhausted_after_max_attempts(scores: spec_fn(nat) -> nat, attempt: nat, max: nat)
    requires
        1 <= attempt <= max,
        forall|k: nat| attempt <= k <= max ==> #[trigger] scores(k) < ACCEPT_SCORE,
    ensures
        kept_attempt(scores, attempt, max) == max,
        retry_decision(max, max, scores(max)) == RetryDecision::GiveUp,
    decreases max - attempt,
{
    if attempt < max {
        law_exhausted_after_max_attempts(scores, attempt + 1, max);
    }
}

/// What follows attempt number `attempt` of at most `max_attempts`.
pub fn decide_retry(attempt: u32, max_attempts: u32, score: u32) -> (r: RetryDecision)
    ensures
        r == retry_decision(attempt as nat, max_attempts as nat, score as nat),
{
    if score >= ACCEPT_SCORE {
        RetryDecision::Accept
    } else if attempt < max_attempts {
        RetryDecision::Retry
    } else {
        RetryDecision::GiveUp
    }
}

} // verus!
