//! Sorting the files of a scan into logical books: which files a scan
//! accepts, the key of the book a file belongs to, and the kind of each group.

use vstd::prelude::*;
use crate::model::{file_views, GroupType, RawFileData, RawFileDataView};
use crate::text::str_eq;
use crate::text::{
    chars_lex_le, lemma_lex_le_antisymmetric, lemma_lex_le_total, lemma_lex_le_transitive, lex_le,
    append_chars, char_is_digit, char_is_space, chars_eq, chars_have, chars_start_with,
    from_chars, has_substring, is_digit, is_space, lower, lower_chars, matches_at, occurs_at,
    slice_chars, split, split_chars, starts_with, to_chars, views,
};

verus! {

/// Whether `ext`, a file name extension without its dot, is one of the audio
/// formats a scan reads, in any ASCII letter case.
pub open spec fn is_audio_extension(ext: Seq<char>) -> bool {
    let e = lower(ext);
    e == "m4b"@ || e == "m4a"@ || e == "mp3"@ || e == "flac"@ || e == "ogg"@
}

/// Whether a file name marks a hidden or system file.
pub open spec fn is_hidden_name(filename: Seq<char>) -> bool {
    starts_with(filename, "._"@) || starts_with(filename, ".DS_Store"@)
}

/// Whether a scan takes up a file with this extension and name.
pub open spec fn accepts_file(ext: Seq<char>, filename: Seq<char>) -> bool {
    is_audio_extension(ext) && !is_hidden_name(filename)
}

/// Whether a scan takes up a file with this extension and name.
pub fn is_accepted_file(ext: &str, filename: &str) -> (r: bool)
    ensures
        r == accepts_file(ext@, filename@),
{
    let e = lower_chars(&to_chars(ext));
    let known = chars_eq(&e, &to_chars("m4b")) || chars_eq(&e, &to_chars("m4a")) || chars_eq(
        &e,
        &to_chars("mp3"),
    ) || chars_eq(&e, &to_chars("flac")) || chars_eq(&e, &to_chars("ogg"));
    if !known {
        return false;
    }
    let name = to_chars(filename);
    !(chars_start_with(&name, &to_chars("._")) || chars_start_with(&name, &to_chars(".DS_Store")))
}

/// Whether `c` parts the components of a path. Both the slash and the
/// backslash do, on every platform.
pub open spec fn is_path_separator(c: char) -> bool {
    c == '/' || c == '\\'
}

/// `path` with every separator written as `/`.
pub open spec fn with_slashes(path: Seq<char>) -> Seq<char> {
    Seq::new(path.len(), |i: int| if is_path_separator(path[i]) { '/' } else { path[i] })
}

/// The components among `pieces` that name something: the empty piece and
/// the piece `.` are left out.
pub open spec fn named_pieces(pieces: Seq<Seq<char>>) -> Seq<Seq<char>>
    decreases pieces.len(),
{
    if pieces.len() == 0 {
        pieces
    } else if pieces.last().len() == 0 || pieces.last() == "."@ {
        named_pieces(pieces.drop_last())
    } else {
        named_pieces(pieces.drop_last()).push(pieces.last())
    }
}

/// The components of a path.
pub open spec fn path_components(path: Seq<char>) -> Seq<Seq<char>> {
    named_pieces(split(with_slashes(path), '/'))
}

/// The name of the folder that holds the file at `path`: the component
/// before the last one, unless there is none or it is `..`. The path is
/// taken apart here, character by character, and not by the platform's own
/// rules: a backslash parts components on every platform, and the root of
/// an absolute path is no component.
pub open spec fn parent_folder(path: Seq<char>) -> Option<Seq<char>> {
    let parts = path_components(path);
    if parts.len() >= 2 && parts[parts.len() - 2] != ".."@ {
        Some(parts[parts.len() - 2])
    } else {
        None
    }
}

fn path_pieces(path: &str) -> (r: Vec<Vec<char>>)
    ensures
        views(r@) == path_components(path@),
{
    let raw = to_chars(path);
    let mut slashed: Vec<char> = Vec::new();
    let mut i: usize = 0;
    while i < raw.len()
        invariant
            i <= raw.len(),
            raw@ == path@,
            slashed@ == with_slashes(path@).take(i as int),
        decreases raw.len() - i,
    {
        let c = raw[i];
        slashed.push(if c == '/' || c == '\\' { '/' } else { c });
        i += 1;
    }
    assert(slashed@ == with_slashes(path@));
    let pieces = split_chars(&slashed, '/');
    let dot = to_chars(".");
    let mut out: Vec<Vec<char>> = Vec::new();
    let mut k: usize = 0;
    proof {
        assert(views(pieces@).take(0) == Seq::<Seq<char>>::empty());
        assert(views(out@) == Seq::<Seq<char>>::empty());
    }
    while k < pieces.len()
        invariant
            k <= pieces.len(),
            dot@ == "."@,
            views(out@) == named_pieces(views(pieces@).take(k as int)),
        decreases pieces.len() - k,
    {
        let ghost before = out@;
        proof {
            let now = views(pieces@).take(k + 1);
            assert(now.drop_last() == views(pieces@).take(k as int));
            assert(now.last() == pieces@[k as int]@);
        }
        if pieces[k].len() > 0 && !chars_eq(&pieces[k], &dot) {
            let piece = slice_chars(&pieces[k], 0, pieces[k].len());
            assert(piece@ == pieces@[k as int]@);
            out.push(piece);
            assert(views(out@) == views(before).push(piece@));
        }
        k += 1;
    }
    assert(views(pieces@).take(pieces.len() as int) == views(pieces@));
    out
}

/// The name of the folder that holds the file at `path`.
pub fn parent_folder_of(path: &str) -> (r: Option<String>)
    ensures
        crate::model::opt_view(r) == parent_folder(path@),
{
    let parts = path_pieces(path);
    if parts.len() < 2 {
        return None;
    }
    let parent = &parts[parts.len() - 2];
    assert(views(parts@)[parts.len() - 2] == parent@);
    if chars_eq(parent, &to_chars("..")) {
        None
    } else {
        Some(from_chars(parent))
    }
}


/// Length of the book-number marker that stands at position `i` of `name`:
/// the word `book`, in any ASCII letter case, followed by `#` with or without
/// one space between.
pub open spec fn marker_len_at(name: Seq<char>, i: int) -> Option<int> {
    if occurs_at(lower(name), "book #"@, i) {
        Some(6)
    } else if occurs_at(lower(name), "book#"@, i) {
        Some(5)
    } else {
        None
    }
}

/// Number of ASCII digits that `s` begins with.
pub open spec fn digit_run(s: Seq<char>) -> nat
    decreases s.len(),
{
    if s.len() > 0 && is_digit(s[0]) {
        1 + digit_run(s.skip(1))
    } else {
        0
    }
}

/// Whether a marker that is followed by a number stands at position `i`.
pub open spec fn numbered_marker_at(name: Seq<char>, i: int) -> bool {
    marker_len_at(name, i) matches Some(m) && digit_run(name.skip(i + m)) > 0
}

/// Position of the first numbered marker at or after `from`.
pub open spec fn first_marker_from(name: Seq<char>, from: int) -> Option<int>
    decreases name.len() + 1 - from,
{
    if from < 0 || from >= name.len() {
        None
    } else if numbered_marker_at(name, from) {
        Some(from)
    } else {
        first_marker_from(name, from + 1)
    }
}

/// Whether `c` may part a book's name from what follows it.
pub open spec fn is_separator(c: char) -> bool {
    is_space(c) || c == '(' || c == '[' || c == '-' || c == '_' || c == ',' || c == ':'
}

/// `s` without the separators it ends with.
pub open spec fn strip_separators(s: Seq<char>) -> Seq<char>
    decreases s.len(),
{
    if s.len() > 0 && is_separator(s.last()) {
        strip_separators(s.drop_last())
    } else {
        s
    }
}

/// The canonical name of book `number` of the series `base`: the one form
/// `<base> (Book #<number>)`, for every base, the empty one too.
pub open spec fn numbered_name(base: Seq<char>, number: Seq<char>) -> Seq<char> {
    base + " (Book #"@ + number + ")"@
}

/// The key of the book that a folder name stands for. Where the name holds a
/// numbered marker, the key is the canonical name built from the text before
/// the first such marker, without trailing separators, and the number behind
/// it; whatever follows the number is dropped. Any other name is its own key,
/// and the empty name has the key `Unknown`.
pub open spec fn group_key(name: Seq<char>) -> Seq<char> {
    match first_marker_from(name, 0) {
        Some(i) => {
            let start = i + marker_len_at(name, i)->0;
            numbered_name(
                strip_separators(name.take(i)),
                name.subrange(start, start + digit_run(name.skip(start))),
            )
        },
        None => if name.len() == 0 {
            "Unknown"@
        } else {
            name
        },
    }
}

/// The key of the book that the file at `path` belongs to.
pub open spec fn key_of_path(path: Seq<char>) -> Seq<char> {
    match parent_folder(path) {
        Some(folder) => group_key(folder),
        None => "Unknown"@,
    }
}

/// `first_marker_from` returns the least position at or after `from` where a
/// numbered marker stands.
pub proof fn lemma_first_marker(name: Seq<char>, from: int)
    requires
        0 <= from,
    ensures
        match first_marker_from(name, from) {
            Some(i) => from <= i < name.len() && numbered_marker_at(name, i) && forall|j: int|
                from <= j < i ==> !numbered_marker_at(name, j),
            None => forall|j: int| from <= j < name.len() ==> !numbered_marker_at(name, j),
        },
    decreases name.len() + 1 - from,
{
    if from < name.len() && !numbered_marker_at(name, from) {
        lemma_first_marker(name, from + 1);
    }
}

proof fn lemma_digit_run(number: Seq<char>, rest: Seq<char>)
    requires
        crate::text::all_digits(number),
        rest.len() == 0 || !is_digit(rest[0]),
    ensures
        digit_run(number + rest) == number.len(),
    decreases number.len(),
{
    if number.len() > 0 {
        assert((number + rest)[0] == number[0]);
        assert(is_digit(number[0]));
        assert((number + rest).skip(1) == number.skip(1) + rest);
        assert forall|i: int| 0 <= i < number.skip(1).len() implies is_digit(
            #[trigger] number.skip(1)[i],
        ) by {
            assert(number.skip(1)[i] == number[i + 1]);
        }
        lemma_digit_run(number.skip(1), rest);
    } else {
        assert(number + rest == rest);
    }
}

/// However the marker in front of a book number is written, with or without
/// the space and in whatever letter case, and whatever follows the number,
/// the key is the canonical name built from the book name before the marker
/// and the number: where `base` holds no numbered marker of its own, every
/// name `base + marker + number + rest` has the same key.
pub proof fn law_marker_form_is_immaterial(
    base: Seq<char>,
    marker: Seq<char>,
    number: Seq<char>,
    rest: Seq<char>,
)
    requires
        lower(marker) == "book #"@ || lower(marker) == "book#"@,
        number.len() > 0,
        crate::text::all_digits(number),
        rest.len() == 0 || !is_digit(rest[0]),
        forall|j: int|
            0 <= j < base.len() ==> !numbered_marker_at(base + marker + number + rest, j),
    ensures
        group_key(base + marker + number + rest) == numbered_name(strip_separators(base), number),
{
    reveal_strlit("book #");
    reveal_strlit("book#");
    let name = base + marker + number + rest;
    let at = base.len() as int;
    let m = marker.len() as int;
    assert(lower(name).subrange(at, at + m) == lower(marker));
    assert(marker_len_at(name, at) == Some(m)) by {
        if lower(marker) == "book#"@ {
            assert(lower(name).subrange(at, at + 5)[4] == '#');
            if occurs_at(lower(name), "book #"@, at) {
                assert(lower(name).subrange(at, at + 6)[4] == ' ');
                assert(lower(name).subrange(at, at + 6)[4] == lower(name)[at + 4]);
                assert(lower(name).subrange(at, at + 5)[4] == lower(name)[at + 4]);
            }
        }
    }
    assert(name.skip(at + m) == number + rest);
    lemma_digit_run(number, rest);
    assert(numbered_marker_at(name, at));
    lemma_first_marker(name, 0);
    assert(first_marker_from(name, 0) == Some(at));
    assert(name.take(at) == base);
    assert(name.subrange(at + m, at + m + number.len()) == number);
}

proof fn lemma_strip_bracket(base: Seq<char>)
    ensures
        strip_separators(base + " ("@) == strip_separators(base),
{
    reveal_strlit(" (");
    let opened = base + " ("@;
    let spaced = opened.drop_last();
    assert(opened.len() == base.len() + 2);
    assert(opened.last() == '(');
    assert(is_separator(opened.last()));
    assert(strip_separators(opened) == strip_separators(spaced));
    assert(spaced.last() == ' ');
    assert(is_separator(spaced.last()));
    assert(spaced.drop_last() == base);
    assert(strip_separators(spaced) == strip_separators(base));
}

/// Folder names that put the marker and the number in brackets behind one
/// book name, `<base> (<marker><number>)`, have one key, whichever way the
/// marker is written: the base without the separators it ends with, and
/// behind it ` (Book #<number>)`. This holds for every base, the empty one
/// too, before which and in which no numbered marker stands.
pub proof fn law_bracketed_marker_key(base: Seq<char>, marker: Seq<char>, number: Seq<char>)
    requires
        lower(marker) == "book #"@ || lower(marker) == "book#"@,
        number.len() > 0,
        crate::text::all_digits(number),
        forall|j: int|
            0 <= j < base.len() ==> !numbered_marker_at(base + " ("@ + marker + number + ")"@, j),
    ensures
        group_key(base + " ("@ + marker + number + ")"@) == strip_separators(base) + " (Book #"@
            + number + ")"@,
{
    reveal_strlit(" (");
    reveal_strlit(")");
    reveal_strlit("book #");
    reveal_strlit("book#");
    lemma_strip_bracket(base);
    assert(!is_digit(")"@[0]));
    let name = base + " ("@ + marker + number + ")"@;
    let at = base.len() as int;
    assert(lower(name)[at] == ' ' && lower(name)[at + 1] == '(');
    assert forall|j: int| at <= j < at + 2 implies !numbered_marker_at(name, j) by {
        if occurs_at(lower(name), "book #"@, j) {
            assert(lower(name).subrange(j, j + 6)[0] == 'b');
        }
        if occurs_at(lower(name), "book#"@, j) {
            assert(lower(name).subrange(j, j + 5)[0] == 'b');
        }
    }
    law_marker_form_is_immaterial(base + " ("@, marker, number, ")"@);
}

proof fn lemma_digit_run_bound(s: Seq<char>)
    ensures
        digit_run(s) <= s.len(),
    decreases s.len(),
{
    if s.len() > 0 && is_digit(s[0]) {
        lemma_digit_run_bound(s.skip(1));
    }
}

proof fn lemma_digit_run_of_front(s: Seq<char>, tail: Seq<char>)
    requires
        tail.len() > 0,
        !is_digit(tail[0]),
    ensures
        digit_run(s + tail) == digit_run(s),
    decreases s.len(),
{
    if s.len() == 0 {
        assert(s + tail == tail);
    } else {
        assert((s + tail)[0] == s[0]);
        if is_digit(s[0]) {
            assert((s + tail).skip(1) == s.skip(1) + tail);
            lemma_digit_run_of_front(s.skip(1), tail);
        }
    }
}

proof fn lemma_marker_within_base(base: Seq<char>, tail: Seq<char>, j: int)
    requires
        tail.len() >= 2,
        tail[0] == ' ',
        tail[1] == '(',
        0 <= j < base.len(),
    ensures
        marker_len_at(base + tail, j) == marker_len_at(base, j),
        numbered_marker_at(base + tail, j) == numbered_marker_at(base, j),
        marker_len_at(base, j) matches Some(m) ==> j + m <= base.len() && digit_run(
            (base + tail).skip(j + m),
        ) == digit_run(base.skip(j + m)) && j + m + digit_run(base.skip(j + m)) <= base.len(),
{
    reveal_strlit("book #");
    reveal_strlit("book#");
    let name = base + tail;
    let ln = lower(name);
    let lb = lower(base);
    let n = base.len() as int;
    assert(ln[n] == ' ' && ln[n + 1] == '(');
    assert(is_space(' '));
    assert(occurs_at(ln, "book #"@, j) == occurs_at(lb, "book #"@, j)) by {
        if occurs_at(lb, "book #"@, j) {
            assert(ln.subrange(j, j + 6) == lb.subrange(j, j + 6));
        }
        if occurs_at(ln, "book #"@, j) {
            let got = ln.subrange(j, j + 6);
            if j + 6 > n {
                let p = n - j;
                assert(got[p] == ln[n]);
                assert(p == 4);
                assert(got[5] == ln[n + 1]);
            }
            assert(ln.subrange(j, j + 6) == lb.subrange(j, j + 6));
        }
    }
    assert(occurs_at(ln, "book#"@, j) == occurs_at(lb, "book#"@, j)) by {
        if occurs_at(lb, "book#"@, j) {
            assert(ln.subrange(j, j + 5) == lb.subrange(j, j + 5));
        }
        if occurs_at(ln, "book#"@, j) {
            let got = ln.subrange(j, j + 5);
            if j + 5 > n {
                let p = n - j;
                assert(got[p] == ln[n]);
            }
            assert(ln.subrange(j, j + 5) == lb.subrange(j, j + 5));
        }
    }
    match marker_len_at(base, j) {
        Some(m) => {
            assert(name.skip(j + m) == base.skip(j + m) + tail);
            lemma_digit_run_of_front(base.skip(j + m), tail);
            lemma_digit_run_bound(base.skip(j + m));
        },
        None => {},
    }
}

/// The key of a folder name `<base> (<marker><number>)` does not depend on
/// the way the marker is written. Where the base holds no numbered marker,
/// the key is the base without the separators it ends with, and behind it
/// ` (Book #<number>)`; where it holds one, the key is the key of the base.
pub proof fn law_marker_spelling_is_immaterial(
    base: Seq<char>,
    marker: Seq<char>,
    number: Seq<char>,
)
    requires
        lower(marker) == "book #"@ || lower(marker) == "book#"@,
        number.len() > 0,
        crate::text::all_digits(number),
    ensures
        group_key(base + " ("@ + marker + number + ")"@) == match first_marker_from(base, 0) {
            Some(_) => group_key(base),
            None => strip_separators(base) + " (Book #"@ + number + ")"@,
        },
{
    reveal_strlit(" (");
    let name = base + " ("@ + marker + number + ")"@;
    let tail = " ("@ + marker + number + ")"@;
    assert(name == base + tail);
    assert forall|j: int| 0 <= j < base.len() implies numbered_marker_at(name, j)
        == numbered_marker_at(base, j) by {
        lemma_marker_within_base(base, tail, j);
    }
    lemma_first_marker(base, 0);
    match first_marker_from(base, 0) {
        Some(at) => {
            lemma_marker_within_base(base, tail, at);
            lemma_first_marker(name, 0);
            assert(first_marker_from(name, 0) == Some(at));
            let start = at + marker_len_at(base, at)->0;
            let run = digit_run(base.skip(start));
            assert(name.take(at) == base.take(at));
            assert(name.subrange(start, start + run) == base.subrange(start, start + run));
        },
        None => {
            law_bracketed_marker_key(base, marker, number);
        },
    }
}

/// Two folder names that differ only in the way the marker is written have
/// one key, and so their files stand in one group.
pub proof fn law_marker_variants_share_a_key(
    base: Seq<char>,
    first: Seq<char>,
    second: Seq<char>,
    number: Seq<char>,
)
    requires
        lower(first) == "book #"@ || lower(first) == "book#"@,
        lower(second) == "book #"@ || lower(second) == "book#"@,
        number.len() > 0,
        crate::text::all_digits(number),
    ensures
        group_key(base + " ("@ + first + number + ")"@) == group_key(
            base + " ("@ + second + number + ")"@,
        ),
{
    law_marker_spelling_is_immaterial(base, first, number);
    law_marker_spelling_is_immaterial(base, second, number);
}

/// A key is never empty.
pub proof fn law_key_is_not_empty(name: Seq<char>)
    ensures
        group_key(name).len() > 0,
{
    reveal_strlit("Unknown");
    reveal_strlit(" (Book #");
}

fn count_digits(s: &Vec<char>, from: usize) -> (r: usize)
    requires
        from <= s.len(),
    ensures
        r == digit_run(s@.skip(from as int)),
        from + r <= s.len(),
{
    let mut k: usize = from;
    while k < s.len() && char_is_digit(s[k])
        invariant
            from <= k <= s.len(),
            digit_run(s@.skip(from as int)) == (k - from) + digit_run(s@.skip(k as int)),
        decreases s.len() - k,
    {
        assert(s@.skip(k as int).skip(1) == s@.skip(k + 1));
        k += 1;
    }
    k - from
}

fn strip_separator_chars(s: &Vec<char>, end: usize) -> (r: Vec<char>)
    requires
        end <= s.len(),
    ensures
        r@ == strip_separators(s@.take(end as int)),
{
    let mut j: usize = end;
    while j > 0 && is_separator_char(s[j - 1])
        invariant
            j <= end <= s.len(),
            strip_separators(s@.take(end as int)) == strip_separators(s@.take(j as int)),
        decreases j,
    {
        assert(s@.take(j as int).drop_last() == s@.take(j - 1));
        j -= 1;
    }
    slice_chars(s, 0, j)
}

fn is_separator_char(c: char) -> (r: bool)
    ensures
        r == is_separator(c),
{
    char_is_space(c) || c == '(' || c == '[' || c == '-' || c == '_' || c == ',' || c == ':'
}

/// The key of the book that a folder name stands for.
pub fn group_key_of(name: &str) -> (r: String)
    ensures
        r@ == group_key(name@),
{
    let chars = to_chars(name);
    let low = lower_chars(&chars);
    let spaced = to_chars("book #");
    let tight = to_chars("book#");
    let n: usize = chars.len();
    let mut i: usize = 0;
    proof {
        reveal_strlit("book #");
        reveal_strlit("book#");
    }
    while i < n
        invariant
            i <= n,
            n == chars.len(),
            chars@ == name@,
            low@ == lower(name@),
            spaced@ == "book #"@,
            tight@ == "book#"@,
            spaced@.len() == 6,
            tight@.len() == 5,
            first_marker_from(name@, 0) == first_marker_from(name@, i as int),
        decreases n - i,
    {
        let m: usize = if matches_at(&low, &spaced, i) {
            6
        } else if matches_at(&low, &tight, i) {
            5
        } else {
            0
        };
        if m > 0 {
            let start: usize = i + m;
            let digits: usize = count_digits(&chars, start);
            if digits > 0 {
                let base = strip_separator_chars(&chars, i);
                let number = slice_chars(&chars, start, start + digits);
                let mut key: Vec<char> = Vec::new();
                append_chars(&mut key, &base);
                append_chars(&mut key, &to_chars(" (Book #"));
                append_chars(&mut key, &number);
                append_chars(&mut key, &to_chars(")"));
                return from_chars(&key);
            }
        }
        i += 1;
    }
    if n == 0 {
        String::from_str("Unknown")
    } else {
        String::from_str(name)
    }
}

/// The key of the book that the file at `path` belongs to.
pub fn key_of_file_path(path: &str) -> (r: String)
    ensures
        r@ == key_of_path(path@),
{
    match parent_folder_of(path) {
        Some(folder) => group_key_of(folder.as_str()),
        None => String::from_str("Unknown"),
    }
}


/// Whether a file name in lower case shows a chapter, part, track or disc
/// marker, or begins with a small number.
pub open spec fn has_chapter_marker(name: Seq<char>) -> bool {
    ||| has_substring(name, " ch "@)
    ||| has_substring(name, " ch."@)
    ||| has_substring(name, "chapter"@)
    ||| has_substring(name, "track"@)
    ||| has_substring(name, "part "@)
    ||| has_substring(name, "disc"@)
    ||| starts_with(name, "01 "@)
    ||| starts_with(name, "02 "@)
    ||| starts_with(name, "03 "@)
    ||| starts_with(name, "1 "@)
    ||| starts_with(name, "2 "@)
    ||| starts_with(name, "3 "@)
    ||| starts_with(name, "01-"@)
    ||| starts_with(name, "02-"@)
    ||| starts_with(name, "03-"@)
    ||| starts_with(name, "001 "@)
    ||| starts_with(name, "002 "@)
    ||| starts_with(name, "003 "@)
}

/// Whether a file name, in any ASCII letter case, shows a chapter marker.
pub open spec fn shows_chapter(filename: Seq<char>) -> bool {
    has_chapter_marker(lower(filename))
}

/// Whether one of the files shows a chapter marker in its name.
pub open spec fn any_shows_chapter(files: Seq<RawFileDataView>) -> bool {
    exists|i: int| 0 <= i < files.len() && shows_chapter(#[trigger] files[i].filename)
}

/// Whether the title tags that the files carry are all one and the same
/// title, and at least one file carries one.
pub open spec fn share_one_title(files: Seq<RawFileDataView>) -> bool {
    exists|i: int|
        0 <= i < files.len() && (#[trigger] files[i]).tags.title is Some && forall|j: int|
            0 <= j < files.len() && (#[trigger] files[j]).tags.title is Some ==> files[j].tags.title
                == files[i].tags.title
}

/// The kind of a group: `Single` for a group of one file, `Chapters` for
/// every other group. No group is of the kind `Series`.
pub open spec fn group_type_of(files: Seq<RawFileDataView>) -> GroupType {
    if files.len() == 1 {
        GroupType::Single
    } else {
        GroupType::Chapters
    }
}

/// Whether a file name shows a chapter marker.
pub fn name_shows_chapter(filename: &str) -> (r: bool)
    ensures
        r == shows_chapter(filename@),
{
    let name = lower_chars(&to_chars(filename));
    chars_have(&name, &to_chars(" ch ")) || chars_have(&name, &to_chars(" ch.")) || chars_have(
        &name,
        &to_chars("chapter"),
    ) || chars_have(&name, &to_chars("track")) || chars_have(&name, &to_chars("part "))
        || chars_have(&name, &to_chars("disc")) || chars_start_with(&name, &to_chars("01 "))
        || chars_start_with(&name, &to_chars("02 ")) || chars_start_with(&name, &to_chars("03 "))
        || chars_start_with(&name, &to_chars("1 ")) || chars_start_with(&name, &to_chars("2 "))
        || chars_start_with(&name, &to_chars("3 ")) || chars_start_with(&name, &to_chars("01-"))
        || chars_start_with(&name, &to_chars("02-")) || chars_start_with(&name, &to_chars("03-"))
        || chars_start_with(&name, &to_chars("001 ")) || chars_start_with(
        &name,
        &to_chars("002 "),
    ) || chars_start_with(&name, &to_chars("003 "))
}

/// Whether one of the files shows a chapter marker in its name.
pub fn has_chapter_indicators(files: &[RawFileData]) -> (r: bool)
    ensures
        r == any_shows_chapter(file_views(files@)),
{
    let mut i: usize = 0;
    while i < files.len()
        invariant
            i <= files.len(),
            forall|j: int| 0 <= j < i ==> !shows_chapter(#[trigger] file_views(files@)[j].filename),
        decreases files.len() - i,
    {
        assert(file_views(files@)[i as int].filename == files@[i as int].filename@);
        if name_shows_chapter(files[i].filename.as_str()) {
            return true;
        }
        i += 1;
    }
    false
}

/// Whether the title tags that the files carry are all one and the same.
pub fn all_same_title(files: &[RawFileData]) -> (r: bool)
    ensures
        r == share_one_title(file_views(files@)),
{
    let ghost fv = file_views(files@);
    let mut first: usize = 0;
    while first < files.len() && files[first].tags.title.is_none()
        invariant
            first <= files.len(),
            fv == file_views(files@),
            forall|j: int| 0 <= j < first ==> (#[trigger] fv[j]).tags.title is None,
        decreases files.len() - first,
    {
        assert(fv[first as int].tags.title is None);
        first += 1;
    }
    if first >= files.len() {
        return false;
    }
    assert(fv[first as int].tags.title is Some);
    let mut k: usize = first + 1;
    while k < files.len()
        invariant
            first < k <= files.len(),
            fv == file_views(files@),
            fv[first as int].tags.title is Some,
            forall|j: int| 0 <= j < first ==> (#[trigger] fv[j]).tags.title is None,
            forall|j: int|
                0 <= j < k && (#[trigger] fv[j]).tags.title is Some ==> fv[j].tags.title
                    == fv[first as int].tags.title,
        decreases files.len() - k,
    {
        let same = match (&files[k].tags.title, &files[first].tags.title) {
            (Some(a), Some(b)) => str_eq(a.as_str(), b.as_str()),
            _ => true,
        };
        if !same {
            assert(fv[k as int].tags.title is Some);
            assert(fv[k as int].tags.title != fv[first as int].tags.title);
            assert(!share_one_title(fv)) by {
                if share_one_title(fv) {
                    let i = choose|i: int|
                        0 <= i < fv.len() && (#[trigger] fv[i]).tags.title is Some && forall|
                            j: int,
                        |
                            0 <= j < fv.len() && (#[trigger] fv[j]).tags.title is Some
                                ==> fv[j].tags.title == fv[i].tags.title;
                    assert(fv[k as int].tags.title == fv[i].tags.title);
                    assert(fv[first as int].tags.title == fv[i].tags.title);
                }
            }
            return false;
        }
        k += 1;
    }
    true
}

/// The kind of a group of files. A group of several files counts as chapters
/// of one book: because a file name shows a chapter marker, because the
/// files share one title, because there are more than five files, or,
/// failing all of these, by default.
pub fn detect_group_type(files: &[RawFileData]) -> (r: GroupType)
    ensures
        r == group_type_of(file_views(files@)),
{
    if files.len() == 1 {
        return GroupType::Single;
    }
    if has_chapter_indicators(files) || all_same_title(files) {
        return GroupType::Chapters;
    }
    if files.len() > 5 {
        return GroupType::Chapters;
    }
    GroupType::Chapters
}


/// The place at which a file named `name` enters a list that is sorted by
/// file name: behind every file whose name sorts before it or equals it.
pub open spec fn insert_position(sorted: Seq<RawFileDataView>, name: Seq<char>) -> nat
    decreases sorted.len(),
{
    if sorted.len() == 0 || !lex_le(sorted[0].filename, name) {
        0
    } else {
        1 + insert_position(sorted.skip(1), name)
    }
}

/// `files` in the order of their file names, compared by code point. Files
/// with the same name keep the order they came in.
pub open spec fn sort_by_name(files: Seq<RawFileDataView>) -> Seq<RawFileDataView>
    decreases files.len(),
{
    if files.len() == 0 {
        files
    } else {
        let rest = sort_by_name(files.drop_last());
        rest.insert(insert_position(rest, files.last().filename) as int, files.last())
    }
}

/// Whether each file's name sorts before or together with the names of the
/// files behind it.
pub open spec fn sorted_by_name(files: Seq<RawFileDataView>) -> bool {
    forall|i: int, j: int|
        0 <= i < j < files.len() ==> lex_le(
            (#[trigger] files[i]).filename,
            (#[trigger] files[j]).filename,
        )
}

proof fn lemma_insert_position(sorted: Seq<RawFileDataView>, name: Seq<char>)
    requires
        sorted_by_name(sorted),
    ensures
        insert_position(sorted, name) <= sorted.len(),
        forall|i: int|
            0 <= i < insert_position(sorted, name) ==> lex_le(
                (#[trigger] sorted[i]).filename,
                name,
            ),
        forall|i: int|
            insert_position(sorted, name) <= i < sorted.len() ==> !lex_le(
                (#[trigger] sorted[i]).filename,
                name,
            ),
    decreases sorted.len(),
{
    if sorted.len() == 0 {
    } else if !lex_le(sorted[0].filename, name) {
        assert forall|i: int| 0 <= i < sorted.len() implies !lex_le(
            (#[trigger] sorted[i]).filename,
            name,
        ) by {
            if i > 0 && lex_le(sorted[i].filename, name) {
                assert(lex_le(sorted[0].filename, sorted[i].filename));
                lemma_lex_le_transitive(sorted[0].filename, sorted[i].filename, name);
            }
        }
    } else {
        let tail = sorted.skip(1);
        assert forall|i: int, j: int| 0 <= i < j < tail.len() implies lex_le(
            (#[trigger] tail[i]).filename,
            (#[trigger] tail[j]).filename,
        ) by {
            assert(tail[i] == sorted[i + 1] && tail[j] == sorted[j + 1]);
        }
        lemma_insert_position(tail, name);
        let p = insert_position(tail, name);
        assert forall|i: int| 0 <= i < 1 + p implies lex_le(
            (#[trigger] sorted[i]).filename,
            name,
        ) by {
            if i > 0 {
                assert(tail[i - 1] == sorted[i]);
            }
        }
        assert forall|i: int| 1 + p <= i < sorted.len() implies !lex_le(
            (#[trigger] sorted[i]).filename,
            name,
        ) by {
            assert(tail[i - 1] == sorted[i]);
        }
    }
}

proof fn lemma_insert_position_bound(sorted: Seq<RawFileDataView>, name: Seq<char>)
    ensures
        insert_position(sorted, name) <= sorted.len(),
    decreases sorted.len(),
{
    if sorted.len() > 0 && lex_le(sorted[0].filename, name) {
        lemma_insert_position_bound(sorted.skip(1), name);
    }
}

proof fn lemma_insert_keeps_sorted(sorted: Seq<RawFileDataView>, file: RawFileDataView)
    requires
        sorted_by_name(sorted),
    ensures
        sorted_by_name(sorted.insert(insert_position(sorted, file.filename) as int, file)),
        insert_position(sorted, file.filename) <= sorted.len(),
{
    lemma_insert_position(sorted, file.filename);
    let p = insert_position(sorted, file.filename) as int;
    let out = sorted.insert(p, file);
    assert forall|i: int, j: int| 0 <= i < j < out.len() implies lex_le(
        (#[trigger] out[i]).filename,
        (#[trigger] out[j]).filename,
    ) by {
        if j < p {
            assert(out[i] == sorted[i] && out[j] == sorted[j]);
        } else if j == p {
            assert(out[i] == sorted[i]);
        } else if i < p {
            assert(out[i] == sorted[i] && out[j] == sorted[j - 1]);
        } else if i == p {
            assert(out[j] == sorted[j - 1]);
            lemma_lex_le_total(file.filename, sorted[j - 1].filename);
        } else {
            assert(out[i] == sorted[i - 1] && out[j] == sorted[j - 1]);
        }
    }
}

/// Sorting by name yields a list that is sorted by name and holds the same
/// files, each as often as before.
pub proof fn law_sort_by_name(files: Seq<RawFileDataView>)
    ensures
        sorted_by_name(sort_by_name(files)),
        sort_by_name(files).len() == files.len(),
        sort_by_name(files).to_multiset() == files.to_multiset(),
    decreases files.len(),
{
    broadcast use vstd::seq_lib::group_to_multiset_ensures;

    if files.len() == 0 {
    } else {
        let rest = sort_by_name(files.drop_last());
        law_sort_by_name(files.drop_last());
        lemma_insert_keeps_sorted(rest, files.last());
        let p = insert_position(rest, files.last().filename) as int;
        assert(files == files.drop_last().push(files.last()));
        assert(rest.insert(p, files.last()).to_multiset() == rest.to_multiset().insert(
            files.last(),
        ));
        assert(files.drop_last().push(files.last()).to_multiset()
            == files.drop_last().to_multiset().insert(files.last()));
    }
}

/// A list that is sorted by name is left as it is.
pub proof fn law_sort_keeps_sorted(files: Seq<RawFileDataView>)
    requires
        sorted_by_name(files),
    ensures
        sort_by_name(files) == files,
    decreases files.len(),
{
    if files.len() > 0 {
        let front = files.drop_last();
        assert forall|i: int, j: int| 0 <= i < j < front.len() implies lex_le(
            (#[trigger] front[i]).filename,
            (#[trigger] front[j]).filename,
        ) by {
            assert(front[i] == files[i] && front[j] == files[j]);
        }
        law_sort_keeps_sorted(front);
        lemma_insert_position(front, files.last().filename);
        let p = insert_position(front, files.last().filename);
        if p < front.len() {
            assert(front[p as int] == files[p as int]);
            assert(lex_le(files[p as int].filename, files.last().filename));
        }
        assert(front.insert(front.len() as int, files.last()) == files);
    }
}

/// Sorts files by file name; files with the same name keep their order.
pub fn sort_files_by_name(files: &Vec<RawFileData>) -> (r: Vec<RawFileData>)
    ensures
        file_views(r@) == sort_by_name(file_views(files@)),
        r.len() == files.len(),
{
    let mut out: Vec<RawFileData> = Vec::new();
    let mut i: usize = 0;
    let ghost all = file_views(files@);
    assert(file_views(out@) == sort_by_name(all.take(0)));
    while i < files.len()
        invariant
            i <= files.len(),
            all == file_views(files@),
            out.len() == i,
            file_views(out@) == sort_by_name(all.take(i as int)),
        decreases files.len() - i,
    {
        let file = files[i].clone();
        proof {
            let now = all.take(i + 1);
            assert(now.drop_last() == all.take(i as int));
            assert(now.last() == file@);
            law_sort_by_name(all.take(i as int));
        }
        insert_by_name(&mut out, file);
        i += 1;
    }
    assert(all.take(files.len() as int) == all);
    out
}

/// Puts `file` into a list sorted by file name, behind the files whose names
/// sort before it or equal it.
pub fn insert_by_name(sorted: &mut Vec<RawFileData>, file: RawFileData)
    ensures
        file_views(final(sorted)@) == file_views(old(sorted)@).insert(
            insert_position(file_views(old(sorted)@), file@.filename) as int,
            file@,
        ),
        final(sorted).len() == old(sorted).len() + 1,
        sorted_by_name(file_views(old(sorted)@)) ==> sorted_by_name(file_views(final(sorted)@)),
{
    let name = to_chars(file.filename.as_str());
    let ghost fv = file_views(sorted@);
    let mut p: usize = 0;
    assert(fv.skip(0) == fv);
    while p < sorted.len() && chars_lex_le(&to_chars(sorted[p].filename.as_str()), &name)
        invariant
            p <= sorted.len(),
            fv == file_views(sorted@),
            name@ == file@.filename,
            insert_position(fv, name@) == p + insert_position(fv.skip(p as int), name@),
        decreases sorted.len() - p,
    {
        assert(fv.skip(p as int)[0] == sorted@[p as int]@);
        assert(fv.skip(p as int).skip(1) == fv.skip(p + 1));
        p += 1;
    }
    proof {
        if p < sorted.len() {
            assert(fv.skip(p as int)[0] == sorted@[p as int]@);
        }
        lemma_insert_position_bound(fv, name@);
        if sorted_by_name(fv) {
            lemma_insert_keeps_sorted(fv, file@);
        }
    }
    sorted.insert(p, file);
    assert(file_views(sorted@) == fv.insert(p as int, file@));
}


/// The files of one logical book, under the key of that book.
#[derive(Debug)]
pub struct FileGroup {
    pub key: String,
    pub files: Vec<RawFileData>,
}

/// The mathematical view of `FileGroup`.
pub struct FileGroupView {
    pub key: Seq<char>,
    pub files: Seq<RawFileDataView>,
}

impl View for FileGroup {
    type V = FileGroupView;

    open spec fn view(&self) -> FileGroupView {
        FileGroupView { key: self.key@, files: file_views(self.files@) }
    }
}

/// The views of a sequence of file groups.
pub open spec fn file_group_views(groups: Seq<FileGroup>) -> Seq<FileGroupView> {
    Seq::new(groups.len(), |i: int| groups[i]@)
}

/// The files among `files` that belong to the book with key `key`, in the
/// order they came in.
pub open spec fn members(files: Seq<RawFileDataView>, key: Seq<char>) -> Seq<RawFileDataView>
    decreases files.len(),
{
    if files.len() == 0 {
        files
    } else if key_of_path(files.last().path) == key {
        members(files.drop_last(), key).push(files.last())
    } else {
        members(files.drop_last(), key)
    }
}

/// Whether key `a` sorts strictly before key `b`.
pub open spec fn key_before(a: Seq<char>, b: Seq<char>) -> bool {
    lex_le(a, b) && a != b
}

/// Whether `groups` is the grouping of `files`: the groups stand in the
/// strict order of their keys, each holds exactly the files of its key,
/// sorted by file name, and at least one of them, and every file's key has
/// its group.
pub open spec fn is_grouping(groups: Seq<FileGroupView>, files: Seq<RawFileDataView>) -> bool {
    &&& forall|a: int, b: int|
        0 <= a < b < groups.len() ==> key_before(
            (#[trigger] groups[a]).key,
            (#[trigger] groups[b]).key,
        )
    &&& forall|g: int|
        0 <= g < groups.len() ==> (#[trigger] groups[g]).files == sort_by_name(
            members(files, groups[g].key),
        ) && groups[g].files.len() > 0
    &&& forall|i: int|
        0 <= i < files.len() ==> exists|g: int|
            0 <= g < groups.len() && (#[trigger] groups[g]).key == key_of_path(
                (#[trigger] files[i]).path,
            )
}

proof fn lemma_members(files: Seq<RawFileDataView>, key: Seq<char>)
    ensures
        members(files, key).len() <= files.len(),
        members(files, key).len() > 0 ==> exists|i: int|
            0 <= i < files.len() && key_of_path((#[trigger] files[i]).path) == key,
    decreases files.len(),
{
    if files.len() > 0 {
        lemma_members(files.drop_last(), key);
        if key_of_path(files.last().path) == key {
            assert(key_of_path(files[files.len() - 1].path) == key);
        } else if members(files, key).len() > 0 {
            let i = choose|i: int|
                0 <= i < files.drop_last().len() && key_of_path(
                    (#[trigger] files.drop_last()[i]).path,
                ) == key;
            assert(files[i] == files.drop_last()[i]);
        }
    }
}

/// Number of files that the groups hold together.
pub open spec fn total_files(groups: Seq<FileGroupView>) -> nat
    decreases groups.len(),
{
    if groups.len() == 0 {
        0
    } else {
        total_files(groups.drop_last()) + groups.last().files.len()
    }
}

spec fn member_total(groups: Seq<FileGroupView>, files: Seq<RawFileDataView>) -> nat
    decreases groups.len(),
{
    if groups.len() == 0 {
        0
    } else {
        member_total(groups.drop_last(), files) + members(files, groups.last().key).len()
    }
}

spec fn has_key(groups: Seq<FileGroupView>, key: Seq<char>) -> bool {
    exists|g: int| 0 <= g < groups.len() && (#[trigger] groups[g]).key == key
}

spec fn distinct_keys(groups: Seq<FileGroupView>) -> bool {
    forall|a: int, b: int|
        0 <= a < b < groups.len() ==> (#[trigger] groups[a]).key != (#[trigger] groups[b]).key
}

proof fn lemma_member_total_step(
    groups: Seq<FileGroupView>,
    files: Seq<RawFileDataView>,
    file: RawFileDataView,
)
    requires
        distinct_keys(groups),
    ensures
        member_total(groups, files.push(file)) == member_total(groups, files) + if has_key(
            groups,
            key_of_path(file.path),
        ) {
            1nat
        } else {
            0nat
        },
    decreases groups.len(),
{
    if groups.len() > 0 {
        let front = groups.drop_last();
        let key = groups.last().key;
        let wanted = key_of_path(file.path);
        assert forall|a: int, b: int| 0 <= a < b < front.len() implies (#[trigger] front[a]).key != (
        #[trigger] front[b]).key by {
            assert(front[a] == groups[a] && front[b] == groups[b]);
        }
        lemma_member_total_step(front, files, file);
        assert(files.push(file).drop_last() == files);
        assert(files.push(file).last() == file);
        if wanted == key {
            assert(groups[groups.len() - 1].key == wanted);
            if has_key(front, wanted) {
                let g = choose|g: int| 0 <= g < front.len() && (#[trigger] front[g]).key == wanted;
                assert(front[g] == groups[g]);
                assert(groups[g].key != groups[groups.len() - 1].key);
            }
        } else {
            if has_key(front, wanted) {
                let g = choose|g: int| 0 <= g < front.len() && (#[trigger] front[g]).key == wanted;
                assert(groups[g] == front[g]);
            }
            if has_key(groups, wanted) {
                let g = choose|g: int|
                    0 <= g < groups.len() && (#[trigger] groups[g]).key == wanted;
                assert(front[g] == groups[g]);
            }
        }
    }
}

proof fn lemma_member_total_of_none(groups: Seq<FileGroupView>)
    ensures
        member_total(groups, Seq::empty()) == 0,
    decreases groups.len(),
{
    if groups.len() > 0 {
        lemma_member_total_of_none(groups.drop_last());
    }
}

proof fn lemma_member_total(groups: Seq<FileGroupView>, files: Seq<RawFileDataView>)
    requires
        distinct_keys(groups),
        forall|i: int|
            0 <= i < files.len() ==> has_key(groups, key_of_path((#[trigger] files[i]).path)),
    ensures
        member_total(groups, files) == files.len(),
    decreases files.len(),
{
    if files.len() == 0 {
        assert(files == Seq::<RawFileDataView>::empty());
        lemma_member_total_of_none(groups);
    } else {
        let front = files.drop_last();
        assert forall|i: int| 0 <= i < front.len() implies has_key(
            groups,
            key_of_path((#[trigger] front[i]).path),
        ) by {
            assert(front[i] == files[i]);
        }
        lemma_member_total(groups, front);
        lemma_member_total_step(groups, front, files.last());
        assert(front.push(files.last()) == files);
        assert(files.last() == files[files.len() - 1]);
    }
}

proof fn lemma_total_files(groups: Seq<FileGroupView>, files: Seq<RawFileDataView>)
    requires
        forall|g: int|
            0 <= g < groups.len() ==> (#[trigger] groups[g]).files == sort_by_name(
                members(files, groups[g].key),
            ),
    ensures
        total_files(groups) == member_total(groups, files),
    decreases groups.len(),
{
    if groups.len() > 0 {
        let front = groups.drop_last();
        assert forall|g: int| 0 <= g < front.len() implies (#[trigger] front[g]).files
            == sort_by_name(members(files, front[g].key)) by {
            assert(front[g] == groups[g]);
        }
        lemma_total_files(front, files);
        assert(groups.last() == groups[groups.len() - 1]);
        law_sort_by_name(members(files, groups.last().key));
    }
}

/// The groups of a grouping hold together as many files as there are.
pub proof fn law_grouping_holds_all_files(groups: Seq<FileGroupView>, files: Seq<RawFileDataView>)
    requires
        is_grouping(groups, files),
    ensures
        total_files(groups) == files.len(),
{
    lemma_total_files(groups, files);
    assert(distinct_keys(groups)) by {
        assert forall|a: int, b: int| 0 <= a < b < groups.len() implies (#[trigger] groups[a]).key
            != (#[trigger] groups[b]).key by {
            assert(key_before(groups[a].key, groups[b].key));
        }
    }
    assert forall|i: int| 0 <= i < files.len() implies has_key(
        groups,
        key_of_path((#[trigger] files[i]).path),
    ) by {
        let g = choose|g: int|
            0 <= g < groups.len() && (#[trigger] groups[g]).key == key_of_path(files[i].path);
    }
    lemma_member_total(groups, files);
}

/// Every file stands in the group of its key.
pub proof fn law_grouping_holds_each_file(
    groups: Seq<FileGroupView>,
    files: Seq<RawFileDataView>,
    i: int,
)
    requires
        is_grouping(groups, files),
        0 <= i < files.len(),
    ensures
        exists|g: int|
            0 <= g < groups.len() && (#[trigger] groups[g]).key == key_of_path(files[i].path)
                && groups[g].files.contains(files[i]),
{
    let g = choose|g: int|
        0 <= g < groups.len() && (#[trigger] groups[g]).key == key_of_path(files[i].path);
    let key = groups[g].key;
    lemma_members_contains(files, key, i);
    law_sort_by_name(members(files, key));
    let m = members(files, key);
    assert(m.to_multiset().contains(files[i])) by {
        broadcast use vstd::seq_lib::group_to_multiset_ensures;

    }
    assert(sort_by_name(m).contains(files[i])) by {
        broadcast use vstd::seq_lib::group_to_multiset_ensures;

    }
}

/// Two files with one key stand in one group, the group of that key.
pub proof fn law_same_key_same_group(
    groups: Seq<FileGroupView>,
    files: Seq<RawFileDataView>,
    i: int,
    j: int,
)
    requires
        is_grouping(groups, files),
        0 <= i < files.len(),
        0 <= j < files.len(),
        key_of_path(files[i].path) == key_of_path(files[j].path),
    ensures
        exists|g: int|
            0 <= g < groups.len() && (#[trigger] groups[g]).key == key_of_path(files[i].path)
                && groups[g].files.contains(files[i]) && groups[g].files.contains(files[j]),
{
    law_grouping_holds_each_file(groups, files, i);
    law_grouping_holds_each_file(groups, files, j);
    let a = choose|g: int|
        0 <= g < groups.len() && (#[trigger] groups[g]).key == key_of_path(files[i].path)
            && groups[g].files.contains(files[i]);
    let b = choose|g: int|
        0 <= g < groups.len() && (#[trigger] groups[g]).key == key_of_path(files[j].path)
            && groups[g].files.contains(files[j]);
    if a < b {
        assert(key_before(groups[a].key, groups[b].key));
    }
    if b < a {
        assert(key_before(groups[b].key, groups[a].key));
    }
}

proof fn lemma_members_contains(files: Seq<RawFileDataView>, key: Seq<char>, i: int)
    requires
        0 <= i < files.len(),
        key_of_path(files[i].path) == key,
    ensures
        members(files, key).contains(files[i]),
    decreases files.len(),
{
    if i == files.len() - 1 {
        let m = members(files, key);
        assert(m[m.len() - 1] == files[i]);
    } else {
        lemma_members_contains(files.drop_last(), key, i);
        let front = members(files.drop_last(), key);
        let k = choose|k: int| 0 <= k < front.len() && front[k] == files.drop_last()[i];
        assert(members(files, key)[k] == files[i]);
    }
}

proof fn lemma_key_has_its_group(
    a: Seq<FileGroupView>,
    b: Seq<FileGroupView>,
    files: Seq<RawFileDataView>,
    i: int,
) -> (j: int)
    requires
        is_grouping(a, files),
        is_grouping(b, files),
        0 <= i < a.len(),
    ensures
        0 <= j < b.len(),
        b[j].key == a[i].key,
{
    lemma_members(files, a[i].key);
    law_sort_by_name(members(files, a[i].key));
    let f = choose|f: int|
        0 <= f < files.len() && key_of_path((#[trigger] files[f]).path) == a[i].key;
    choose|j: int| 0 <= j < b.len() && (#[trigger] b[j]).key == key_of_path(files[f].path)
}

proof fn lemma_groupings_agree_on_keys(
    a: Seq<FileGroupView>,
    b: Seq<FileGroupView>,
    files: Seq<RawFileDataView>,
    n: int,
)
    requires
        is_grouping(a, files),
        is_grouping(b, files),
        0 <= n < a.len(),
    ensures
        n < b.len(),
        a[n].key == b[n].key,
    decreases n,
{
    let j = lemma_key_has_its_group(a, b, files, n);
    if j < n {
        lemma_groupings_agree_on_keys(a, b, files, j);
        assert(key_before(a[j].key, a[n].key));
    }
    let i = lemma_key_has_its_group(b, a, files, n);
    if i < n {
        lemma_groupings_agree_on_keys(a, b, files, i);
        assert(key_before(b[i].key, b[n].key));
    }
    if i > n {
        assert(key_before(a[n].key, a[i].key));
    }
    if j > n {
        assert(key_before(b[n].key, b[j].key));
    }
    lemma_lex_le_total(a[n].key, b[n].key);
    if a[n].key != b[n].key {
        lemma_lex_le_antisymmetric(a[n].key, b[n].key);
    }
}

/// The files of a scan have one grouping only.
pub proof fn law_grouping_is_unique(
    a: Seq<FileGroupView>,
    b: Seq<FileGroupView>,
    files: Seq<RawFileDataView>,
)
    requires
        is_grouping(a, files),
        is_grouping(b, files),
    ensures
        a == b,
{
    if a.len() > 0 {
        lemma_groupings_agree_on_keys(a, b, files, a.len() - 1);
    }
    if b.len() > 0 {
        lemma_groupings_agree_on_keys(b, a, files, b.len() - 1);
    }
    assert forall|n: int| 0 <= n < a.len() implies a[n] == b[n] by {
        lemma_groupings_agree_on_keys(a, b, files, n);
    }
    assert(a =~= b);
}

proof fn lemma_members_of_one_key(files: Seq<RawFileDataView>, key: Seq<char>)
    requires
        forall|i: int| 0 <= i < files.len() ==> key_of_path((#[trigger] files[i]).path) == key,
    ensures
        members(files, key) == files,
    decreases files.len(),
{
    if files.len() > 0 {
        let front = files.drop_last();
        assert forall|i: int| 0 <= i < front.len() implies key_of_path((#[trigger] front[i]).path)
            == key by {
            assert(front[i] == files[i]);
        }
        lemma_members_of_one_key(front, key);
        assert(key_of_path(files[files.len() - 1].path) == key);
        assert(front.push(files.last()) == files);
    }
}

/// Files that lie in folders of one key form one book: their grouping is a
/// single group that holds them all in the order of their file names, and
/// with two files or more that group is of the kind `Chapters`.
pub proof fn law_one_key_is_one_book(
    groups: Seq<FileGroupView>,
    files: Seq<RawFileDataView>,
    key: Seq<char>,
)
    requires
        is_grouping(groups, files),
        files.len() > 0,
        forall|i: int| 0 <= i < files.len() ==> key_of_path((#[trigger] files[i]).path) == key,
    ensures
        groups.len() == 1,
        groups[0].key == key,
        groups[0].files == sort_by_name(files),
        files.len() >= 2 ==> group_type_of(groups[0].files) == GroupType::Chapters,
{
    lemma_members_of_one_key(files, key);
    let first = choose|g: int|
        0 <= g < groups.len() && (#[trigger] groups[g]).key == key_of_path(files[0].path);
    assert forall|g: int| 0 <= g < groups.len() implies (#[trigger] groups[g]).key == key by {
        lemma_members(files, groups[g].key);
        law_sort_by_name(members(files, groups[g].key));
        let f = choose|f: int|
            0 <= f < files.len() && key_of_path((#[trigger] files[f]).path) == groups[g].key;
    }
    if groups.len() > 1 {
        assert(key_before(groups[0].key, groups[1].key));
    }
    law_sort_by_name(files);
}

fn key_is_before(a: &Vec<char>, b: &Vec<char>) -> (r: bool)
    ensures
        r == key_before(a@, b@),
{
    chars_lex_le(a, b) && !chars_eq(a, b)
}

/// Sorts the files of a scan into books. The result does not depend on the
/// order of `files`, except among files of one book that share a file name.
pub fn group_files(files: &Vec<RawFileData>) -> (r: Vec<FileGroup>)
    ensures
        is_grouping(file_group_views(r@), file_views(files@)),
{
    let mut groups: Vec<FileGroup> = Vec::new();
    let ghost all = file_views(files@);
    let mut i: usize = 0;
    while i < files.len()
        invariant
            i <= files.len(),
            all == file_views(files@),
            is_grouping(file_group_views(groups@), all.take(i as int)),
        decreases files.len() - i,
    {
        let ghost seen = all.take(i as int);
        let ghost now = all.take(i + 1);
        let ghost before = file_group_views(groups@);
        let file = files[i].clone();
        let key = key_of_file_path(file.path.as_str());
        let key_chars = to_chars(key.as_str());
        proof {
            assert(now.drop_last() == seen);
            assert(now.last() == file@);
            assert(key@ == key_of_path(now.last().path));
        }
        let mut g: usize = 0;
        while g < groups.len() && key_is_before(&to_chars(groups[g].key.as_str()), &key_chars)
            invariant
                g <= groups.len(),
                before == file_group_views(groups@),
                key_chars@ == key@,
                forall|a: int| 0 <= a < g ==> key_before((#[trigger] before[a]).key, key@),
            decreases groups.len() - g,
        {
            assert(before[g as int].key == groups@[g as int].key@);
            g += 1;
        }
        let found = g < groups.len() && chars_eq(&to_chars(groups[g].key.as_str()), &key_chars);
        proof {
            if g < groups.len() {
                assert(before[g as int].key == groups@[g as int].key@);
                lemma_lex_le_total(before[g as int].key, key@);
            }
            assert forall|b: int| g < b < before.len() implies key_before(
                key@,
                (#[trigger] before[b]).key,
            ) by {
                assert(key_before(before[g as int].key, before[b].key));
                lemma_lex_le_transitive(key@, before[g as int].key, before[b].key);
                if key@ == before[b].key {
                    lemma_lex_le_antisymmetric(before[g as int].key, key@);
                }
            }
            assert forall|a: int| 0 <= a < before.len() && a != g implies (
            #[trigger] before[a]).key != key@ by {}
        }
        if found {
            let mut group = groups.remove(g);
            proof {
                assert(group@ == before[g as int]);
                law_sort_by_name(members(seen, key@));
            }
            insert_by_name(&mut group.files, file);
            proof {
                let x = members(seen, key@);
                assert(members(now, key@) == x.push(file@));
                assert(x.push(file@).drop_last() == x);
                assert(x.push(file@).last() == file@);
                assert(group@.files == sort_by_name(members(now, key@)));
            }
            groups.insert(g, group);
            proof {
                let after = file_group_views(groups@);
                assert(after.len() == before.len());
                assert forall|a: int| 0 <= a < after.len() implies (#[trigger] after[a]).key
                    == before[a].key by {}
                assert forall|a: int| 0 <= a < after.len() implies (#[trigger] after[a]).files
                    == sort_by_name(members(now, after[a].key)) && after[a].files.len() > 0 by {
                    if a != g {
                        assert(after[a] == before[a]);
                    }
                }
                assert forall|j: int| 0 <= j < now.len() implies exists|a: int|
                    0 <= a < after.len() && (#[trigger] after[a]).key == key_of_path(
                        (#[trigger] now[j]).path,
                    ) by {
                    if j < i {
                        assert(now[j] == seen[j]);
                        let a = choose|a: int|
                            0 <= a < before.len() && (#[trigger] before[a]).key == key_of_path(
                                seen[j].path,
                            );
                        assert(after[a].key == before[a].key);
                    } else {
                        assert(after[g as int].key == key@);
                    }
                }
            }
        } else {
            let mut one: Vec<RawFileData> = Vec::new();
            proof {
                lemma_members(seen, key@);
                if members(seen, key@).len() > 0 {
                    let j = choose|j: int|
                        0 <= j < seen.len() && key_of_path((#[trigger] seen[j]).path) == key@;
                    let a = choose|a: int|
                        0 <= a < before.len() && (#[trigger] before[a]).key == key_of_path(
                            seen[j].path,
                        );
                    assert(false);
                }
                assert(members(seen, key@) == Seq::<RawFileDataView>::empty());
                assert(file_views(one@) == Seq::<RawFileDataView>::empty());
                assert(sorted_by_name(file_views(one@)));
            }
            insert_by_name(&mut one, file);
            let group = FileGroup { key, files: one };
            proof {
                let x = members(seen, key@);
                assert(sort_by_name(x) == x);
                assert(insert_position(x, file@.filename) == 0);
                assert(members(now, key@) == x.push(file@));
                assert(x.push(file@).drop_last() == x);
                assert(x.push(file@).last() == file@);
                assert(group@.files == sort_by_name(members(now, key@)));
            }
            groups.insert(g, group);
            proof {
                let after = file_group_views(groups@);
                assert(after == before.insert(g as int, group@));
                assert forall|a: int, b: int| 0 <= a < b < after.len() implies key_before(
                    (#[trigger] after[a]).key,
                    (#[trigger] after[b]).key,
                ) by {
                    if b < g {
                        assert(after[a] == before[a] && after[b] == before[b]);
                    } else if b == g {
                        assert(after[a] == before[a]);
                    } else if a < g {
                        assert(after[a] == before[a] && after[b] == before[b - 1]);
                    } else if a == g {
                        assert(after[b] == before[b - 1]);
                        if b - 1 == g {
                        }
                    } else {
                        assert(after[a] == before[a - 1] && after[b] == before[b - 1]);
                    }
                }
                assert forall|a: int| 0 <= a < after.len() implies (#[trigger] after[a]).files
                    == sort_by_name(members(now, after[a].key)) && after[a].files.len() > 0 by {
                    if a < g {
                        assert(after[a] == before[a]);
                    } else if a > g {
                        assert(after[a] == before[a - 1]);
                    }
                }
                assert forall|j: int| 0 <= j < now.len() implies exists|a: int|
                    0 <= a < after.len() && (#[trigger] after[a]).key == key_of_path(
                        (#[trigger] now[j]).path,
                    ) by {
                    if j < i {
                        assert(now[j] == seen[j]);
                        let a = choose|a: int|
                            0 <= a < before.len() && (#[trigger] before[a]).key == key_of_path(
                                seen[j].path,
                            );
                        if a < g {
                            assert(after[a] == before[a]);
                        } else {
                            assert(after[a + 1] == before[a]);
                        }
                    } else {
                        assert(after[g as int].key == key@);
                    }
                }
            }
        }
        i += 1;
    }
    assert(all.take(files.len() as int) == all);
    groups
}

} // verus!
