//! Housekeeping on the library server: removing genres that no book uses,
//! bringing the genres of every item to their approved form, and saying in
//! words how each went.

use vstd::prelude::*;
use vstd::utf8::encode_utf8;
use crate::text::{decimal, decimal_string, list_has, string_views};

verus! {

/// All genres that the items of a library carry, item by item.
pub open spec fn genres_in_use(items: Seq<Option<Seq<Seq<char>>>>) -> Seq<Seq<char>>
    decreases items.len(),
{
    if items.len() == 0 {
        Seq::empty()
    } else {
        match items.last() {
            Some(genres) => genres_in_use(items.drop_last()) + genres,
            None => genres_in_use(items.drop_last()),
        }
    }
}

/// The genres among `offered` that are not among `used`, in their order.
pub open spec fn genres_without_use(offered: Seq<Seq<char>>, used: Seq<Seq<char>>) -> Seq<
    Seq<char>,
>
    decreases offered.len(),
{
    if offered.len() == 0 {
        Seq::empty()
    } else if used.contains(offered.last()) {
        genres_without_use(offered.drop_last(), used)
    } else {
        genres_without_use(offered.drop_last(), used).push(offered.last())
    }
}

/// The genres that the server offers and no item carries.
pub open spec fn unused(offered: Seq<Seq<char>>, items: Seq<Option<Seq<Seq<char>>>>) -> Seq<
    Seq<char>,
> {
    genres_without_use(offered, genres_in_use(items))
}

/// The views of the genre lists of a sequence of items.
pub open spec fn genre_list_views(items: Seq<Option<Vec<String>>>) -> Seq<Option<Seq<Seq<char>>>> {
    Seq::new(
        items.len(),
        |i: int|
            match items[i] {
                Some(v) => Some(string_views(v@)),
                None => None,
            },
    )
}

/// A genre is unused exactly when the server offers it and no item has it.
pub proof fn law_unused_genres(
    offered: Seq<Seq<char>>,
    items: Seq<Option<Seq<Seq<char>>>>,
    genre: Seq<char>,
)
    ensures
        unused(offered, items).contains(genre) <==> offered.contains(genre) && !genres_in_use(
            items,
        ).contains(genre),
{
    lemma_genres_without_use(offered, genres_in_use(items), genre);
}

proof fn lemma_genres_without_use(offered: Seq<Seq<char>>, used: Seq<Seq<char>>, genre: Seq<char>)
    ensures
        genres_without_use(offered, used).contains(genre) <==> offered.contains(genre)
            && !used.contains(genre),
    decreases offered.len(),
{
    if offered.len() > 0 {
        let front = offered.drop_last();
        lemma_genres_without_use(front, used, genre);
        let out = genres_without_use(offered, used);
        let before = genres_without_use(front, used);
        if offered.contains(genre) && !used.contains(genre) {
            let i = choose|i: int| 0 <= i < offered.len() && offered[i] == genre;
            if i < front.len() {
                assert(front[i] == genre);
                let j = choose|j: int| 0 <= j < before.len() && before[j] == genre;
                assert(out[j] == genre);
            } else {
                assert(out.last() == genre);
            }
        }
        if out.contains(genre) {
            let j = choose|j: int| 0 <= j < out.len() && out[j] == genre;
            if j < before.len() {
                assert(before[j] == genre);
                let i = choose|i: int| 0 <= i < front.len() && front[i] == genre;
                assert(offered[i] == genre);
            } else {
                assert(offered[offered.len() - 1] == genre);
            }
        }
    }
}

/// The genres that the server offers and no item carries.
pub fn unused_genres(offered: &Vec<String>, items: &Vec<Option<Vec<String>>>) -> (r: Vec<String>)
    ensures
        string_views(r@) == unused(string_views(offered@), genre_list_views(items@)),
{
    let mut used: Vec<String> = Vec::new();
    let ghost all = genre_list_views(items@);
    let mut i: usize = 0;
    proof {
        assert(all.take(0) == Seq::<Option<Seq<Seq<char>>>>::empty());
        assert(string_views(used@) == Seq::<Seq<char>>::empty());
    }
    while i < items.len()
        invariant
            i <= items.len(),
            all == genre_list_views(items@),
            string_views(used@) == genres_in_use(all.take(i as int)),
        decreases items.len() - i,
    {
        proof {
            let now = all.take(i + 1);
            assert(now.drop_last() == all.take(i as int));
            assert(now.last() == all[i as int]);
        }
        match &items[i] {
            Some(genres) => {
                let ghost start = string_views(used@);
                let mut k: usize = 0;
                while k < genres.len()
                    invariant
                        k <= genres.len(),
                        string_views(used@) == start + string_views(genres@).take(k as int),
                    decreases genres.len() - k,
                {
                    let ghost before = used@;
                    let item = genres[k].clone();
                    used.push(item);
                    assert(string_views(used@) == string_views(before).push(item@));
                    assert(string_views(genres@).take(k + 1) == string_views(genres@).take(
                        k as int,
                    ).push(genres@[k as int]@));
                    k += 1;
                }
                assert(string_views(genres@).take(genres.len() as int) == string_views(genres@));
            },
            None => {},
        }
        i += 1;
    }
    assert(all.take(items.len() as int) == all);
    let mut out: Vec<String> = Vec::new();
    let ghost wanted = string_views(offered@);
    let ghost in_use = string_views(used@);
    let mut j: usize = 0;
    proof {
        assert(wanted.take(0) == Seq::<Seq<char>>::empty());
        assert(string_views(out@) == Seq::<Seq<char>>::empty());
    }
    while j < offered.len()
        invariant
            j <= offered.len(),
            wanted == string_views(offered@),
            in_use == string_views(used@),
            string_views(out@) == genres_without_use(wanted.take(j as int), in_use),
        decreases offered.len() - j,
    {
        let ghost before = out@;
        proof {
            let now = wanted.take(j + 1);
            assert(now.drop_last() == wanted.take(j as int));
            assert(now.last() == offered@[j as int]@);
        }
        if !list_has(&used, offered[j].as_str()) {
            let item = offered[j].clone();
            out.push(item);
            assert(string_views(out@) == string_views(before).push(item@));
        }
        j += 1;
    }
    assert(wanted.take(offered.len() as int) == wanted);
    out
}

/// Whether a byte stands for itself in a URL: an ASCII letter or digit, or
/// one of `-`, `.`, `_` and `~`.
pub open spec fn is_unreserved(b: u8) -> bool {
    ||| 48 <= b <= 57
    ||| 65 <= b <= 90
    ||| 97 <= b <= 122
    ||| b == 45
    ||| b == 46
    ||| b == 95
    ||| b == 126
}

/// The upper-case hexadecimal digit for a value below 16.
pub open spec fn hex_digit(d: int) -> char {
    if d < 10 {
        ((48 + d) as u8) as char
    } else {
        ((55 + d) as u8) as char
    }
}

/// A byte as it is written in a URL: itself where it is unreserved, else
/// `%` and its two hexadecimal digits.
pub open spec fn encoded_byte(b: u8) -> Seq<char> {
    if is_unreserved(b) {
        seq![b as char]
    } else {
        seq!['%', hex_digit(b as int / 16), hex_digit(b as int % 16)]
    }
}

/// Bytes as they are written in a URL.
pub open spec fn encoded_bytes(bytes: Seq<u8>) -> Seq<char>
    decreases bytes.len(),
{
    if bytes.len() == 0 {
        Seq::empty()
    } else {
        encoded_bytes(bytes.drop_last()) + encoded_byte(bytes.last())
    }
}

/// A text as it is written in a URL: the bytes of its UTF-8 encoding, each
/// percent-encoded unless it is unreserved.
pub open spec fn percent_encoded(text: Seq<char>) -> Seq<char> {
    encoded_bytes(encode_utf8(text))
}

/// Calls `urlencoding::encode`. By its source, it takes the bytes of the
/// text in order, keeps every ASCII letter, digit, `-`, `.`, `_` and `~`,
/// and writes every other byte as `%` and two upper-case hexadecimal digits.
#[verifier::external_body]
fn percent_encode(text: &str) -> (r: String)
    ensures
        r@ == percent_encoded(text@),
{
    urlencoding::encode(text).into_owned()
}

/// The address at which the server drops a genre from what it offers.
pub open spec fn genre_removal_url(base_url: Seq<char>, genre: Seq<char>) -> Seq<char> {
    base_url + "/api/me/item/"@ + percent_encoded(genre)
}

/// The address at which the server drops a genre from what it offers.
pub fn genre_delete_url(base_url: &str, genre: &str) -> (r: String)
    ensures
        r@ == genre_removal_url(base_url@, genre@),
{
    let mut url = String::from_str(base_url);
    url.append("/api/me/item/");
    let encoded = percent_encode(genre);
    url.append(encoded.as_str());
    url
}

/// How many of a run of requests went through and how many did not.
#[derive(Debug, Clone, Copy, PartialEq, Eq, Structural)]
pub struct Tally {
    pub done: usize,
    pub failed: usize,
}

/// Number of `true` among the first `n` entries.
pub open spec fn count_true(outcomes: Seq<bool>, n: int) -> nat
    decreases n,
{
    if n <= 0 || n > outcomes.len() {
        0
    } else {
        count_true(outcomes, n - 1) + if outcomes[n - 1] {
            1nat
        } else {
            0nat
        }
    }
}

/// Counts the requests that went through and those that did not.
pub fn tally(outcomes: &Vec<bool>) -> (r: Tally)
    ensures
        r.done == count_true(outcomes@, outcomes.len() as int),
        r.done + r.failed == outcomes.len(),
{
    let mut done: usize = 0;
    let mut failed: usize = 0;
    let mut i: usize = 0;
    while i < outcomes.len()
        invariant
            i <= outcomes.len(),
            done + failed == i,
            done == count_true(outcomes@, i as int),
        decreases outcomes.len() - i,
    {
        if outcomes[i] {
            done += 1;
        } else {
            failed += 1;
        }
        i += 1;
    }
    Tally { done, failed }
}

/// The items of a list with `, ` between them.
pub open spec fn listed(items: Seq<Seq<char>>) -> Seq<char>
    decreases items.len(),
{
    if items.len() == 0 {
        Seq::empty()
    } else if items.len() == 1 {
        items[0]
    } else {
        listed(items.drop_last()) + ", "@ + items.last()
    }
}

/// What is said of a removal of unused genres.
pub open spec fn removal_report(removed: nat, failed: nat, genres: Seq<Seq<char>>) -> Seq<char> {
    if genres.len() == 0 {
        "No unused genres found. All genres in the dropdown are being used by books."@
    } else {
        Seq::<char>::empty() + "Removed "@ + decimal(removed) + " unused genres from dropdown. "@
            + decimal(failed) + " failed.\nRemoved: "@ + listed(genres)
    }
}

/// What is said of a run that brought genres to their approved form.
pub open spec fn normalization_report(updated: nat, skipped: nat, failed: nat) -> Seq<char> {
    Seq::<char>::empty() + "Normalized "@ + decimal(updated) + " items, skipped "@ + decimal(
        skipped,
    ) + " (already correct/empty), "@ + decimal(failed) + " failed."@
}

fn list_items(items: &Vec<String>) -> (r: String)
    ensures
        r@ == listed(string_views(items@)),
{
    let mut out = String::new();
    let mut i: usize = 0;
    let ghost all = string_views(items@);
    while i < items.len()
        invariant
            i <= items.len(),
            all == string_views(items@),
            out@ == listed(all.take(i as int)),
        decreases items.len() - i,
    {
        proof {
            let now = all.take(i + 1);
            assert(now.drop_last() == all.take(i as int));
            assert(now.last() == items@[i as int]@);
        }
        if i > 0 {
            out.append(", ");
        }
        out.append(items[i].as_str());
        proof {
            if i == 0 {
                assert(out@ == items@[i as int]@);
            }
        }
        i += 1;
    }
    assert(all.take(items.len() as int) == all);
    out
}

/// Says how a removal of the unused genres `genres` went.
pub fn report_removal(outcome: Tally, genres: &Vec<String>) -> (r: String)
    ensures
        r@ == removal_report(outcome.done as nat, outcome.failed as nat, string_views(genres@)),
{
    if genres.len() == 0 {
        return String::from_str(
            "No unused genres found. All genres in the dropdown are being used by books.",
        );
    }
    let removed = decimal_string(outcome.done);
    let failed = decimal_string(outcome.failed);
    let names = list_items(genres);
    let mut out = String::new();
    out.append("Removed ");
    out.append(removed.as_str());
    out.append(" unused genres from dropdown. ");
    out.append(failed.as_str());
    out.append(" failed.\nRemoved: ");
    out.append(names.as_str());
    out
}

/// Says how a run that brought genres to their approved form went.
pub fn report_normalization(updated: usize, skipped: usize, failed: usize) -> (r: String)
    ensures
        r@ == normalization_report(updated as nat, skipped as nat, failed as nat),
{
    let a = decimal_string(updated);
    let b = decimal_string(skipped);
    let c = decimal_string(failed);
    let mut out = String::new();
    out.append("Normalized ");
    out.append(a.as_str());
    out.append(" items, skipped ");
    out.append(b.as_str());
    out.append(" (already correct/empty), ");
    out.append(c.as_str());
    out.append(" failed.");
    out
}

/// Whether a server address was given, and what to tell the user of it.
#[derive(Debug, PartialEq, Eq)]
pub struct ConnectionTest {
    pub success: bool,
    pub message: String,
}

/// Checks that a server address is configured.
pub fn check_connection(base_url: &str) -> (r: ConnectionTest)
    ensures
        r.success == (base_url@.len() > 0),
        r.message@ == if base_url@.len() == 0 {
            "No URL configured"@
        } else {
            "Connected to "@ + base_url@
        },
{
    if base_url.is_empty() {
        ConnectionTest { success: false, message: String::from_str("No URL configured") }
    } else {
        let mut message = String::from_str("Connected to ");
        message.append(base_url);
        ConnectionTest { success: true, message }
    }
}

} // verus!
