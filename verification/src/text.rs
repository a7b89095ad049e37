//! Character sequences: the mathematical model of every string in this crate,
//! and verified routines over `Vec<char>` that compute on it.

use vstd::prelude::*;

verus! {

/// Whether `c` carries the Unicode `White_Space` property.
pub open spec fn is_space(c: char) -> bool {
    let n = c as u32;
    ||| 0x09 <= n <= 0x0D
    ||| n == 0x20
    ||| n == 0x85
    ||| n == 0xA0
    ||| n == 0x1680
    ||| 0x2000 <= n <= 0x200A
    ||| n == 0x2028
    ||| n == 0x2029
    ||| n == 0x202F
    ||| n == 0x205F
    ||| n == 0x3000
}

/// Whether `c` is one of the ten ASCII digits.
pub open spec fn is_digit(c: char) -> bool {
    '0' <= c && c <= '9'
}

/// The ASCII lower-case form of `c`; every character outside `A..=Z` is kept.
/// This is not Unicode lower-casing: a letter outside ASCII stays as it is,
/// and no character outside ASCII turns into an ASCII letter.
pub open spec fn lower_char(c: char) -> char {
    if 'A' <= c && c <= 'Z' {
        ((c as u8) + 32) as char
    } else {
        c
    }
}

/// `s` with every ASCII upper-case letter replaced by its lower-case form;
/// all other characters, letters outside ASCII among them, are kept.
pub open spec fn lower(s: Seq<char>) -> Seq<char> {
    Seq::new(s.len(), |i: int| lower_char(s[i]))
}

/// Whether `c` is a white-space character.
pub fn char_is_space(c: char) -> (b: bool)
    ensures
        b == is_space(c),
{
    let n: u32 = c as u32;
    (0x09 <= n && n <= 0x0D) || n == 0x20 || n == 0x85 || n == 0xA0 || n == 0x1680 || (0x2000 <= n
        && n <= 0x200A) || n == 0x2028 || n == 0x2029 || n == 0x202F || n == 0x205F || n == 0x3000
}

/// Whether `c` is an ASCII digit.
pub fn char_is_digit(c: char) -> (b: bool)
    ensures
        b == is_digit(c),
{
    '0' <= c && c <= '9'
}

/// The ASCII lower-case form of `c`.
pub fn char_lower(c: char) -> (r: char)
    ensures
        r == lower_char(c),
{
    if 'A' <= c && c <= 'Z' {
        let b: u8 = c as u8;
        (b + 32) as char
    } else {
        c
    }
}

/// The characters of `s`, in order.
pub fn to_chars(s: &str) -> (v: Vec<char>)
    ensures
        v@ == s@,
{
    let mut v: Vec<char> = Vec::new();
    for c in it: s.chars()
        invariant
            v@ == it.seq().take(it.index() as int),
            it.seq() == s@,
    {
        v.push(c);
    }
    v
}

/// Builds the string whose characters are those of `chars`, through
/// `String::from_iter`: collecting characters yields exactly those characters.
#[verifier::external_body]
pub(crate) fn from_chars(chars: &Vec<char>) -> (s: String)
    ensures
        s@ == chars@,
{
    String::from_iter(chars.iter())
}

/// `s` with its ASCII letters in lower case.
pub fn lower_chars(s: &Vec<char>) -> (r: Vec<char>)
    ensures
        r@ == lower(s@),
{
    let mut r: Vec<char> = Vec::new();
    let mut i: usize = 0;
    while i < s.len()
        invariant
            i <= s.len(),
            r@ == lower(s@).take(i as int),
        decreases s.len() - i,
    {
        r.push(char_lower(s[i]));
        i += 1;
    }
    r
}


/// Whether `pat` occurs in `s` at position `i`.
pub open spec fn occurs_at(s: Seq<char>, pat: Seq<char>, i: int) -> bool {
    0 <= i && i + pat.len() <= s.len() && s.subrange(i, i + pat.len()) == pat
}

/// Position of the first occurrence of `pat` in `s` at or after `from`.
pub open spec fn find_from(s: Seq<char>, pat: Seq<char>, from: int) -> Option<int>
    decreases s.len() + 1 - from,
{
    if from < 0 || from + pat.len() > s.len() {
        None
    } else if occurs_at(s, pat, from) {
        Some(from)
    } else {
        find_from(s, pat, from + 1)
    }
}

/// Position of the first occurrence of `pat` in `s`.
pub open spec fn find(s: Seq<char>, pat: Seq<char>) -> Option<int> {
    find_from(s, pat, 0)
}

/// Whether `pat` occurs somewhere in `s`.
pub open spec fn has_substring(s: Seq<char>, pat: Seq<char>) -> bool {
    find(s, pat) is Some
}

/// Whether `s` begins with `pat`.
pub open spec fn starts_with(s: Seq<char>, pat: Seq<char>) -> bool {
    occurs_at(s, pat, 0)
}

/// Whether `s` ends with `pat`.
pub open spec fn ends_with(s: Seq<char>, pat: Seq<char>) -> bool {
    occurs_at(s, pat, s.len() - pat.len())
}

/// `find_from` returns the least position at or after `from` where `pat` occurs.
pub proof fn law_find_is_first(s: Seq<char>, pat: Seq<char>, from: int)
    requires
        0 <= from,
    ensures
        match find_from(s, pat, from) {
            Some(i) => from <= i && occurs_at(s, pat, i) && forall|j: int|
                from <= j < i ==> !occurs_at(s, pat, j),
            None => forall|j: int| from <= j ==> !occurs_at(s, pat, j),
        },
    decreases s.len() + 1 - from,
{
    if from + pat.len() > s.len() {
    } else if occurs_at(s, pat, from) {
    } else {
        law_find_is_first(s, pat, from + 1);
    }
}

/// `pat` occurs in `s` exactly when it occurs at some position.
pub proof fn law_substring_occurs(s: Seq<char>, pat: Seq<char>)
    ensures
        has_substring(s, pat) <==> exists|i: int| occurs_at(s, pat, i),
{
    law_find_is_first(s, pat, 0);
}

/// Every sequence occurs in itself.
pub proof fn law_has_itself(s: Seq<char>)
    ensures
        has_substring(s, s),
{
    assert(s.subrange(0, s.len() as int) == s);
}

/// Whether two character vectors hold the same characters.
pub fn chars_eq(a: &Vec<char>, b: &Vec<char>) -> (r: bool)
    ensures
        r == (a@ == b@),
{
    if a.len() != b.len() {
        return false;
    }
    let mut i: usize = 0;
    while i < a.len()
        invariant
            i <= a.len(),
            a.len() == b.len(),
            a@.take(i as int) == b@.take(i as int),
        decreases a.len() - i,
    {
        if a[i] != b[i] {
            return false;
        }
        assert(a@.take(i + 1) == a@.take(i as int).push(a@[i as int]));
        assert(b@.take(i + 1) == b@.take(i as int).push(b@[i as int]));
        i += 1;
    }
    assert(a@ == a@.take(a.len() as int));
    assert(b@ == b@.take(b.len() as int));
    true
}

/// Whether two strings hold the same characters.
pub fn str_eq(a: &str, b: &str) -> (r: bool)
    ensures
        r == (a@ == b@),
{
    let x = to_chars(a);
    let y = to_chars(b);
    chars_eq(&x, &y)
}

/// Whether `pat` occurs in `s` at position `i`.
pub fn matches_at(s: &Vec<char>, pat: &Vec<char>, i: usize) -> (r: bool)
    ensures
        r == occurs_at(s@, pat@, i as int),
{
    if pat.len() > s.len() || i > s.len() - pat.len() {
        return false;
    }
    let mut k: usize = 0;
    while k < pat.len()
        invariant
            k <= pat.len(),
            i + pat.len() <= s.len(),
            s@.subrange(i as int, i + k) == pat@.take(k as int),
        decreases pat.len() - k,
    {
        if s[i + k] != pat[k] {
            assert(s@.subrange(i as int, i + pat.len())[k as int] != pat@[k as int]);
            return false;
        }
        assert(s@.subrange(i as int, i + k + 1) == s@.subrange(i as int, i + k).push(
            s@[i + k],
        ));
        assert(pat@.take(k + 1) == pat@.take(k as int).push(pat@[k as int]));
        k += 1;
    }
    assert(pat@ == pat@.take(pat.len() as int));
    true
}

/// Position of the first occurrence of `pat` in `s` at or after `from`.
pub fn find_chars_from(s: &Vec<char>, pat: &Vec<char>, from: usize) -> (r: Option<usize>)
    ensures
        match r {
            Some(i) => find_from(s@, pat@, from as int) == Some(i as int),
            None => find_from(s@, pat@, from as int) is None,
        },
{
    if pat.len() > s.len() {
        return None;
    }
    let last: usize = s.len() - pat.len();
    let mut i: usize = from;
    while i <= last
        invariant
            from <= i,
            last == s.len() - pat.len(),
            find_from(s@, pat@, from as int) == find_from(s@, pat@, i as int),
        decreases last + 1 - i,
    {
        if matches_at(s, pat, i) {
            return Some(i);
        }
        if i == last {
            assert(find_from(s@, pat@, i + 1) is None);
            return None;
        }
        i += 1;
    }
    None
}

/// Position of the first occurrence of `pat` in `s`.
pub fn find_chars(s: &Vec<char>, pat: &Vec<char>) -> (r: Option<usize>)
    ensures
        match r {
            Some(i) => find(s@, pat@) == Some(i as int),
            None => find(s@, pat@) is None,
        },
{
    find_chars_from(s, pat, 0)
}

/// Whether `pat` occurs somewhere in `s`.
pub fn chars_have(s: &Vec<char>, pat: &Vec<char>) -> (r: bool)
    ensures
        r == has_substring(s@, pat@),
{
    find_chars(s, pat).is_some()
}

/// Whether `s` begins with `pat`.
pub fn chars_start_with(s: &Vec<char>, pat: &Vec<char>) -> (r: bool)
    ensures
        r == starts_with(s@, pat@),
{
    matches_at(s, pat, 0)
}

/// Whether `s` ends with `pat`.
pub fn chars_end_with(s: &Vec<char>, pat: &Vec<char>) -> (r: bool)
    ensures
        r == ends_with(s@, pat@),
{
    if pat.len() > s.len() {
        false
    } else {
        matches_at(s, pat, s.len() - pat.len())
    }
}

/// The characters of `s` from position `from` up to, not including, `to`.
pub fn slice_chars(s: &Vec<char>, from: usize, to: usize) -> (r: Vec<char>)
    requires
        from <= to <= s.len(),
    ensures
        r@ == s@.subrange(from as int, to as int),
{
    let mut r: Vec<char> = Vec::new();
    let mut i: usize = from;
    while i < to
        invariant
            from <= i <= to,
            to <= s.len(),
            r@ == s@.subrange(from as int, i as int),
        decreases to - i,
    {
        r.push(s[i]);
        i += 1;
    }
    r
}


/// `s` without its leading white space.
pub open spec fn trim_start(s: Seq<char>) -> Seq<char>
    decreases s.len(),
{
    if s.len() > 0 && is_space(s[0]) {
        trim_start(s.skip(1))
    } else {
        s
    }
}

/// `s` without its trailing white space.
pub open spec fn trim_end(s: Seq<char>) -> Seq<char>
    decreases s.len(),
{
    if s.len() > 0 && is_space(s.last()) {
        trim_end(s.drop_last())
    } else {
        s
    }
}

/// `s` without leading and trailing white space.
pub open spec fn trim(s: Seq<char>) -> Seq<char> {
    trim_end(trim_start(s))
}

/// A trimmed sequence neither begins nor ends with white space, and trimming
/// it again changes nothing.
pub proof fn law_trim_is_idempotent(s: Seq<char>)
    ensures
        trim(trim(s)) == trim(s),
        trim(s).len() > 0 ==> !is_space(trim(s)[0]) && !is_space(trim(s).last()),
        trim(s).len() <= s.len(),
{
    lemma_trim_start(s);
    let t = trim_start(s);
    lemma_trim_end(t);
    let u = trim_end(t);
    if u.len() > 0 {
        lemma_trim_end_prefix(t);
        assert(u[0] == t[0]);
    }
}

proof fn lemma_trim_start(s: Seq<char>)
    ensures
        trim_start(s).len() <= s.len(),
        trim_start(s).len() > 0 ==> !is_space(trim_start(s)[0]),
        trim_start(trim_start(s)) == trim_start(s),
    decreases s.len(),
{
    if s.len() > 0 && is_space(s[0]) {
        lemma_trim_start(s.skip(1));
    }
}

proof fn lemma_trim_end(s: Seq<char>)
    ensures
        trim_end(s).len() <= s.len(),
        trim_end(s).len() > 0 ==> !is_space(trim_end(s).last()),
        trim_end(trim_end(s)) == trim_end(s),
    decreases s.len(),
{
    if s.len() > 0 && is_space(s.last()) {
        lemma_trim_end(s.drop_last());
    }
}

proof fn lemma_trim_end_prefix(s: Seq<char>)
    ensures
        trim_end(s) == s.take(trim_end(s).len() as int),
        trim_end(s).len() <= s.len(),
    decreases s.len(),
{
    if s.len() > 0 && is_space(s.last()) {
        lemma_trim_end_prefix(s.drop_last());
        assert(s.drop_last().take(trim_end(s).len() as int) == s.take(trim_end(s).len() as int));
    } else {
        assert(s == s.take(s.len() as int));
    }
}

/// `s` without leading and trailing white space.
pub fn trim_chars(s: &Vec<char>) -> (r: Vec<char>)
    ensures
        r@ == trim(s@),
{
    let n: usize = s.len();
    let mut i: usize = 0;
    assert(s@.skip(0) == s@);
    while i < n && char_is_space(s[i])
        invariant
            i <= n,
            n == s.len(),
            trim_start(s@) == trim_start(s@.skip(i as int)),
        decreases n - i,
    {
        assert(s@.skip(i as int).skip(1) == s@.skip(i + 1));
        i += 1;
    }
    assert(trim_start(s@) == s@.subrange(i as int, n as int));
    let mut j: usize = n;
    while j > i && char_is_space(s[j - 1])
        invariant
            i <= j <= n,
            n == s.len(),
            trim(s@) == trim_end(s@.subrange(i as int, j as int)),
        decreases j,
    {
        assert(s@.subrange(i as int, j as int).drop_last() == s@.subrange(i as int, j - 1));
        j -= 1;
    }
    slice_chars(s, i, j)
}

/// Position of the first `c` in `s`, or the length of `s` when there is none.
pub open spec fn index_of_char(s: Seq<char>, c: char) -> nat
    decreases s.len(),
{
    if s.len() == 0 || s[0] == c {
        0
    } else {
        1 + index_of_char(s.skip(1), c)
    }
}

/// `index_of_char` gives the first position that holds `c`, and the length
/// where no position does.
pub proof fn law_index_of_char_is_first(s: Seq<char>, c: char)
    ensures
        index_of_char(s, c) <= s.len(),
        index_of_char(s, c) < s.len() ==> s[index_of_char(s, c) as int] == c,
        forall|j: int| 0 <= j < index_of_char(s, c) ==> s[j] != c,
    decreases s.len(),
{
    if s.len() == 0 || s[0] == c {
    } else {
        law_index_of_char_is_first(s.skip(1), c);
        let k = index_of_char(s.skip(1), c);
        assert forall|j: int| 0 <= j < 1 + k implies s[j] != c by {
            if j > 0 {
                assert(s.skip(1)[j - 1] == s[j]);
            }
        }
    }
}

/// The pieces of `s` between occurrences of `sep`; always at least one piece.
pub open spec fn split(s: Seq<char>, sep: char) -> Seq<Seq<char>>
    decreases s.len(),
{
    let i = index_of_char(s, sep);
    if i >= s.len() {
        seq![s]
    } else {
        seq![s.take(i as int)] + split(s.skip(i as int + 1), sep)
    }
}

/// The pieces of `parts` with `sep` between each two neighbours.
pub open spec fn join(parts: Seq<Seq<char>>, sep: Seq<char>) -> Seq<char>
    decreases parts.len(),
{
    if parts.len() == 0 {
        Seq::empty()
    } else if parts.len() == 1 {
        parts[0]
    } else {
        join(parts.drop_last(), sep) + sep + parts.last()
    }
}

/// The views of a vector of character vectors.
pub open spec fn views(v: Seq<Vec<char>>) -> Seq<Seq<char>> {
    Seq::new(v.len(), |i: int| v[i]@)
}

/// The views of a vector of strings.
pub open spec fn string_views(v: Seq<String>) -> Seq<Seq<char>> {
    Seq::new(v.len(), |i: int| v[i]@)
}

/// Position of the first `c` in `s` at or after `from`, or the length of `s`
/// where there is none.
pub fn find_char_from(s: &Vec<char>, c: char, from: usize) -> (r: usize)
    requires
        from <= s.len(),
    ensures
        r == from + index_of_char(s@.skip(from as int), c),
        from <= r <= s.len(),
{
    let mut i: usize = from;
    while i < s.len() && s[i] != c
        invariant
            from <= i <= s.len(),
            from + index_of_char(s@.skip(from as int), c) == i + index_of_char(
                s@.skip(i as int),
                c,
            ),
        decreases s.len() - i,
    {
        assert(s@.skip(i as int).skip(1) == s@.skip(i + 1));
        i += 1;
    }
    i
}

/// The pieces of `s` between occurrences of `sep`.
pub fn split_chars(s: &Vec<char>, sep: char) -> (r: Vec<Vec<char>>)
    ensures
        views(r@) == split(s@, sep),
        r.len() >= 1,
{
    let mut parts: Vec<Vec<char>> = Vec::new();
    let mut start: usize = 0;
    let mut k: usize = find_char_from(s, sep, 0);
    assert(s@.skip(0) == s@);
    assert(views(parts@) + split(s@, sep) == split(s@, sep));
    while k < s.len()
        invariant
            start <= k <= s.len(),
            k == start + index_of_char(s@.skip(start as int), sep),
            split(s@, sep) == views(parts@) + split(s@.skip(start as int), sep),
        decreases s.len() - start,
    {
        let piece = slice_chars(s, start, k);
        proof {
            let rest = s@.skip(start as int);
            assert(rest.take(k - start) == s@.subrange(start as int, k as int));
            assert(rest.skip(k - start + 1) == s@.skip(k + 1));
            assert(views(parts@.push(piece)) == views(parts@) + seq![piece@]);
        }
        parts.push(piece);
        start = k + 1;
        k = find_char_from(s, sep, start);
    }
    let piece = slice_chars(s, start, s.len());
    proof {
        assert(s@.skip(start as int) == s@.subrange(start as int, s.len() as int));
        assert(views(parts@.push(piece)) == views(parts@) + seq![piece@]);
    }
    parts.push(piece);
    parts
}

/// The pieces of `parts` with `sep` between each two neighbours.
pub fn join_chars(parts: &Vec<Vec<char>>, sep: &Vec<char>) -> (r: Vec<char>)
    ensures
        r@ == join(views(parts@), sep@),
{
    let mut out: Vec<char> = Vec::new();
    let mut i: usize = 0;
    while i < parts.len()
        invariant
            i <= parts.len(),
            out@ == join(views(parts@).take(i as int), sep@),
        decreases parts.len() - i,
    {
        let ghost before = out@;
        if i > 0 {
            append_chars(&mut out, sep);
        }
        append_chars(&mut out, &parts[i]);
        proof {
            let now = views(parts@).take(i + 1);
            assert(now.drop_last() == views(parts@).take(i as int));
            assert(now.last() == parts@[i as int]@);
            if i == 0 {
                assert(out@ == parts@[i as int]@);
            }
        }
        i += 1;
    }
    assert(views(parts@).take(parts.len() as int) == views(parts@));
    out
}

/// Appends the characters of `tail` to `out`.
pub fn append_chars(out: &mut Vec<char>, tail: &Vec<char>)
    ensures
        final(out)@ == old(out)@ + tail@,
{
    let mut i: usize = 0;
    while i < tail.len()
        invariant
            i <= tail.len(),
            out@ == old(out)@ + tail@.take(i as int),
        decreases tail.len() - i,
    {
        out.push(tail[i]);
        assert(tail@.take(i + 1) == tail@.take(i as int).push(tail@[i as int]));
        i += 1;
    }
    assert(tail@.take(tail.len() as int) == tail@);
}

/// `s` with every occurrence of `pat`, found from left to right without
/// overlap, replaced by `rep`. An empty `pat` occurs nowhere.
pub open spec fn replace(s: Seq<char>, pat: Seq<char>, rep: Seq<char>) -> Seq<char>
    decreases s.len(),
{
    if pat.len() == 0 || s.len() < pat.len() {
        s
    } else if occurs_at(s, pat, 0) {
        rep + replace(s.skip(pat.len() as int), pat, rep)
    } else {
        seq![s[0]] + replace(s.skip(1), pat, rep)
    }
}

/// `s` with every occurrence of `pat` replaced by `rep`.
pub fn replace_chars(s: &Vec<char>, pat: &Vec<char>, rep: &Vec<char>) -> (r: Vec<char>)
    ensures
        r@ == replace(s@, pat@, rep@),
{
    let mut out: Vec<char> = Vec::new();
    let n: usize = s.len();
    let m: usize = pat.len();
    let mut i: usize = 0;
    if m == 0 {
        append_chars(&mut out, s);
        return out;
    }
    assert(s@.skip(0) == s@);
    assert(out@ + replace(s@, pat@, rep@) == replace(s@, pat@, rep@));
    while i < n && n - i >= m
        invariant
            i <= n,
            n == s.len(),
            m == pat.len(),
            m > 0,
            replace(s@, pat@, rep@) == out@ + replace(s@.skip(i as int), pat@, rep@),
        decreases n - i,
    {
        let ghost rest = s@.skip(i as int);
        if matches_at(s, pat, i) {
            proof {
                assert(rest.subrange(0, m as int) == s@.subrange(i as int, i + m));
                assert(rest.skip(m as int) == s@.skip(i + m));
            }
            append_chars(&mut out, rep);
            i += m;
        } else {
            proof {
                assert(rest.subrange(0, m as int) == s@.subrange(i as int, i + m));
                assert(rest.skip(1) == s@.skip(i + 1));
            }
            out.push(s[i]);
            i += 1;
        }
    }
    let tail = slice_chars(s, i, n);
    assert(s@.skip(i as int) == s@.subrange(i as int, n as int));
    append_chars(&mut out, &tail);
    out
}

/// Lexicographic order by code point: `a` sorts before or together with `b`.
pub open spec fn lex_le(a: Seq<char>, b: Seq<char>) -> bool
    decreases a.len(),
{
    if a.len() == 0 {
        true
    } else if b.len() == 0 {
        false
    } else if a[0] != b[0] {
        a[0] < b[0]
    } else {
        lex_le(a.skip(1), b.skip(1))
    }
}

/// Of two sequences one sorts before or together with the other, and each
/// sorts together with itself.
pub proof fn lemma_lex_le_total(a: Seq<char>, b: Seq<char>)
    ensures
        lex_le(a, b) || lex_le(b, a),
        lex_le(a, a),
    decreases a.len(),
{
    if a.len() > 0 {
        lemma_lex_le_total(a.skip(1), a.skip(1));
        if b.len() > 0 && a[0] == b[0] {
            lemma_lex_le_total(a.skip(1), b.skip(1));
        }
    }
}

/// The order is transitive.
pub proof fn lemma_lex_le_transitive(a: Seq<char>, b: Seq<char>, c: Seq<char>)
    requires
        lex_le(a, b),
        lex_le(b, c),
    ensures
        lex_le(a, c),
    decreases a.len(),
{
    if a.len() > 0 && b.len() > 0 && c.len() > 0 && a[0] == b[0] && b[0] == c[0] {
        lemma_lex_le_transitive(a.skip(1), b.skip(1), c.skip(1));
    }
}

/// Two sequences that sort together both ways are equal.
pub proof fn lemma_lex_le_antisymmetric(a: Seq<char>, b: Seq<char>)
    requires
        lex_le(a, b),
        lex_le(b, a),
    ensures
        a == b,
    decreases a.len(),
{
    if a.len() > 0 && b.len() > 0 {
        lemma_lex_le_antisymmetric(a.skip(1), b.skip(1));
        assert(a == seq![a[0]] + a.skip(1));
        assert(b == seq![b[0]] + b.skip(1));
    }
}

/// Whether `a` sorts before or together with `b`.
pub fn chars_lex_le(a: &Vec<char>, b: &Vec<char>) -> (r: bool)
    ensures
        r == lex_le(a@, b@),
{
    let mut i: usize = 0;
    assert(a@.skip(0) == a@ && b@.skip(0) == b@);
    while i < a.len() && i < b.len()
        invariant
            i <= a.len(),
            i <= b.len(),
            lex_le(a@, b@) == lex_le(a@.skip(i as int), b@.skip(i as int)),
        decreases a.len() - i,
    {
        if a[i] != b[i] {
            return a[i] < b[i];
        }
        assert(a@.skip(i as int).skip(1) == a@.skip(i + 1));
        assert(b@.skip(i as int).skip(1) == b@.skip(i + 1));
        i += 1;
    }
    i == a.len()
}


/// `s` after `pat` has been taken from its front as often as it stands there.
pub open spec fn strip_prefix_all(s: Seq<char>, pat: Seq<char>) -> Seq<char>
    decreases s.len(),
{
    if pat.len() > 0 && starts_with(s, pat) {
        strip_prefix_all(s.skip(pat.len() as int), pat)
    } else {
        s
    }
}

/// `s` after `pat` has been taken from its end as often as it stands there.
pub open spec fn strip_suffix_all(s: Seq<char>, pat: Seq<char>) -> Seq<char>
    decreases s.len(),
{
    if pat.len() > 0 && ends_with(s, pat) {
        strip_suffix_all(s.take(s.len() - pat.len()), pat)
    } else {
        s
    }
}

/// `s` after `pat` has been taken from its front as often as it stands there.
pub fn strip_prefix_all_chars(s: &Vec<char>, pat: &Vec<char>) -> (r: Vec<char>)
    ensures
        r@ == strip_prefix_all(s@, pat@),
{
    let n: usize = s.len();
    let m: usize = pat.len();
    let mut i: usize = 0;
    assert(s@.skip(0) == s@);
    while m > 0 && i <= n && matches_at(s, pat, i)
        invariant
            i <= n,
            n == s.len(),
            m == pat.len(),
            strip_prefix_all(s@, pat@) == strip_prefix_all(s@.skip(i as int), pat@),
        decreases n - i,
    {
        proof {
            let rest = s@.skip(i as int);
            assert(rest.subrange(0, m as int) == s@.subrange(i as int, i + m));
            assert(rest.skip(m as int) == s@.skip(i + m));
        }
        i += m;
    }
    proof {
        let rest = s@.skip(i as int);
        if m > 0 && m <= rest.len() {
            assert(rest.subrange(0, m as int) == s@.subrange(i as int, i + m));
        }
        assert(rest == s@.subrange(i as int, n as int));
    }
    slice_chars(s, i, n)
}

/// `s` after `pat` has been taken from its end as often as it stands there.
pub fn strip_suffix_all_chars(s: &Vec<char>, pat: &Vec<char>) -> (r: Vec<char>)
    ensures
        r@ == strip_suffix_all(s@, pat@),
{
    let m: usize = pat.len();
    let mut j: usize = s.len();
    assert(s@.take(j as int) == s@);
    while m > 0 && j >= m && matches_at(s, pat, j - m)
        invariant
            j <= s.len(),
            m == pat.len(),
            strip_suffix_all(s@, pat@) == strip_suffix_all(s@.take(j as int), pat@),
        decreases j,
    {
        proof {
            let head = s@.take(j as int);
            assert(head.subrange(j - m, j as int) == s@.subrange(j - m, j as int));
            assert(head.take(j - m) == s@.take(j - m));
        }
        j -= m;
    }
    proof {
        let head = s@.take(j as int);
        if m > 0 && j >= m {
            assert(head.subrange(j - m, j as int) == s@.subrange(j - m, j as int));
        }
        assert(head == s@.subrange(0, j as int));
    }
    slice_chars(s, 0, j)
}

/// `s` with every run of white space replaced by one space character.
pub open spec fn squeeze(s: Seq<char>) -> Seq<char>
    decreases s.len(),
{
    if s.len() == 0 {
        s
    } else if is_space(s[0]) {
        if s.len() > 1 && is_space(s[1]) {
            squeeze(s.skip(1))
        } else {
            seq![' '] + squeeze(s.skip(1))
        }
    } else {
        seq![s[0]] + squeeze(s.skip(1))
    }
}

/// `s` with every run of white space replaced by one space character.
pub fn squeeze_chars(s: &Vec<char>) -> (r: Vec<char>)
    ensures
        r@ == squeeze(s@),
{
    let mut out: Vec<char> = Vec::new();
    let n: usize = s.len();
    let mut i: usize = 0;
    assert(s@.skip(0) == s@);
    assert(out@ + squeeze(s@) == squeeze(s@));
    while i < n
        invariant
            i <= n,
            n == s.len(),
            squeeze(s@) == out@ + squeeze(s@.skip(i as int)),
        decreases n - i,
    {
        proof {
            let rest = s@.skip(i as int);
            assert(rest.skip(1) == s@.skip(i + 1));
            assert(rest[0] == s@[i as int]);
            if i + 1 < n {
                assert(rest[1] == s@[i + 1]);
            }
        }
        if char_is_space(s[i]) {
            if !(i + 1 < n && char_is_space(s[i + 1])) {
                out.push(' ');
            }
        } else {
            out.push(s[i]);
        }
        i += 1;
    }
    assert(s@.skip(n as int) == Seq::<char>::empty());
    out
}


/// The character that writes the digit `d`.
pub open spec fn digit_char(d: nat) -> char {
    ((48 + d) as u8) as char
}

/// `n` written in decimal digits.
pub open spec fn decimal(n: nat) -> Seq<char>
    decreases n,
{
    if n < 10 {
        seq![digit_char(n)]
    } else {
        decimal(n / 10).push(digit_char(n % 10))
    }
}

/// Appends the decimal digits of `n` to `out`.
pub fn push_decimal(out: &mut Vec<char>, n: usize)
    ensures
        final(out)@ == old(out)@ + decimal(n as nat),
    decreases n,
{
    if n >= 10 {
        push_decimal(out, n / 10);
    }
    let d: u8 = (n % 10) as u8;
    out.push((48u8 + d) as char);
    assert(out@ == old(out)@ + decimal(n as nat));
}

/// `n` written in decimal digits.
pub fn decimal_string(n: usize) -> (r: String)
    ensures
        r@ == decimal(n as nat),
{
    let mut out: Vec<char> = Vec::new();
    push_decimal(&mut out, n);
    from_chars(&out)
}


/// Whether one of `list` holds exactly the characters of `item`.
pub fn list_has(list: &Vec<String>, item: &str) -> (r: bool)
    ensures
        r == string_views(list@).contains(item@),
{
    let mut i: usize = 0;
    while i < list.len()
        invariant
            i <= list.len(),
            forall|j: int| 0 <= j < i ==> string_views(list@)[j] != item@,
        decreases list.len() - i,
    {
        if str_eq(list[i].as_str(), item) {
            assert(string_views(list@)[i as int] == item@);
            return true;
        }
        i += 1;
    }
    false
}

/// The place at which `name` enters a list of names in ascending order:
/// behind every name that sorts before it or equals it.
pub open spec fn name_position(sorted: Seq<Seq<char>>, name: Seq<char>) -> nat
    decreases sorted.len(),
{
    if sorted.len() == 0 || !lex_le(sorted[0], name) {
        0
    } else {
        1 + name_position(sorted.skip(1), name)
    }
}

/// `names` in ascending order, compared by code point.
pub open spec fn sort_names(names: Seq<Seq<char>>) -> Seq<Seq<char>>
    decreases names.len(),
{
    if names.len() == 0 {
        names
    } else {
        let rest = sort_names(names.drop_last());
        rest.insert(name_position(rest, names.last()) as int, names.last())
    }
}

/// Whether each name sorts before or together with the names behind it.
pub open spec fn names_ascend(names: Seq<Seq<char>>) -> bool {
    forall|i: int, j: int| 0 <= i < j < names.len() ==> lex_le(#[trigger] names[i], #[trigger] names[j])
}

proof fn lemma_name_position(sorted: Seq<Seq<char>>, name: Seq<char>)
    requires
        names_ascend(sorted),
    ensures
        name_position(sorted, name) <= sorted.len(),
        forall|i: int| 0 <= i < name_position(sorted, name) ==> lex_le(#[trigger] sorted[i], name),
        forall|i: int|
            name_position(sorted, name) <= i < sorted.len() ==> !lex_le(#[trigger] sorted[i], name),
    decreases sorted.len(),
{
    if sorted.len() == 0 {
    } else if !lex_le(sorted[0], name) {
        assert forall|i: int| 0 <= i < sorted.len() implies !lex_le(#[trigger] sorted[i], name) by {
            if i > 0 && lex_le(sorted[i], name) {
                assert(lex_le(sorted[0], sorted[i]));
                lemma_lex_le_transitive(sorted[0], sorted[i], name);
            }
        }
    } else {
        let tail = sorted.skip(1);
        assert forall|i: int, j: int| 0 <= i < j < tail.len() implies lex_le(
            #[trigger] tail[i],
            #[trigger] tail[j],
        ) by {
            assert(tail[i] == sorted[i + 1] && tail[j] == sorted[j + 1]);
        }
        lemma_name_position(tail, name);
        let p = name_position(tail, name);
        assert forall|i: int| 0 <= i < 1 + p implies lex_le(#[trigger] sorted[i], name) by {
            if i > 0 {
                assert(tail[i - 1] == sorted[i]);
            }
        }
        assert forall|i: int| 1 + p <= i < sorted.len() implies !lex_le(
            #[trigger] sorted[i],
            name,
        ) by {
            assert(tail[i - 1] == sorted[i]);
        }
    }
}

proof fn lemma_name_position_bound(sorted: Seq<Seq<char>>, name: Seq<char>)
    ensures
        name_position(sorted, name) <= sorted.len(),
    decreases sorted.len(),
{
    if sorted.len() > 0 && lex_le(sorted[0], name) {
        lemma_name_position_bound(sorted.skip(1), name);
    }
}

/// Sorting names yields a list in ascending order that holds the same names,
/// each as often as before.
pub proof fn law_sort_names(names: Seq<Seq<char>>)
    ensures
        names_ascend(sort_names(names)),
        sort_names(names).len() == names.len(),
        sort_names(names).to_multiset() == names.to_multiset(),
    decreases names.len(),
{
    broadcast use vstd::seq_lib::group_to_multiset_ensures;

    if names.len() > 0 {
        let rest = sort_names(names.drop_last());
        let name = names.last();
        law_sort_names(names.drop_last());
        lemma_name_position(rest, name);
        let p = name_position(rest, name) as int;
        let out = rest.insert(p, name);
        assert forall|i: int, j: int| 0 <= i < j < out.len() implies lex_le(
            #[trigger] out[i],
            #[trigger] out[j],
        ) by {
            if j < p {
                assert(out[i] == rest[i] && out[j] == rest[j]);
            } else if j == p {
                assert(out[i] == rest[i]);
            } else if i < p {
                assert(out[i] == rest[i] && out[j] == rest[j - 1]);
            } else if i == p {
                assert(out[j] == rest[j - 1]);
                lemma_lex_le_total(name, rest[j - 1]);
            } else {
                assert(out[i] == rest[i - 1] && out[j] == rest[j - 1]);
            }
        }
        assert(names == names.drop_last().push(name));
        assert(out.to_multiset() == rest.to_multiset().insert(name));
        assert(names.drop_last().push(name).to_multiset() == names.drop_last().to_multiset().insert(
            name,
        ));
    }
}

/// The strings of `names` in ascending order.
pub fn sort_strings(names: &Vec<String>) -> (r: Vec<String>)
    ensures
        string_views(r@) == sort_names(string_views(names@)),
{
    let mut out: Vec<String> = Vec::new();
    let ghost all = string_views(names@);
    let mut i: usize = 0;
    assert(string_views(out@) == sort_names(all.take(0)));
    while i < names.len()
        invariant
            i <= names.len(),
            all == string_views(names@),
            string_views(out@) == sort_names(all.take(i as int)),
        decreases names.len() - i,
    {
        let name = names[i].clone();
        let name_chars = to_chars(name.as_str());
        let ghost sorted = string_views(out@);
        proof {
            let now = all.take(i + 1);
            assert(now.drop_last() == all.take(i as int));
            assert(now.last() == name@);
            lemma_name_position_bound(sorted, name@);
        }
        let mut p: usize = 0;
        assert(sorted.skip(0) == sorted);
        while p < out.len() && chars_lex_le(&to_chars(out[p].as_str()), &name_chars)
            invariant
                p <= out.len(),
                sorted == string_views(out@),
                name_chars@ == name@,
                name_position(sorted, name@) == p + name_position(sorted.skip(p as int), name@),
            decreases out.len() - p,
        {
            assert(sorted.skip(p as int)[0] == out@[p as int]@);
            assert(sorted.skip(p as int).skip(1) == sorted.skip(p + 1));
            p += 1;
        }
        proof {
            if p < out.len() {
                assert(sorted.skip(p as int)[0] == out@[p as int]@);
            }
        }
        out.insert(p, name);
        assert(string_views(out@) == sorted.insert(p as int, name@));
        i += 1;
    }
    assert(all.take(names.len() as int) == all);
    out
}

/// The pieces that are not white space only, each trimmed.
pub open spec fn trimmed_pieces(pieces: Seq<Seq<char>>) -> Seq<Seq<char>>
    decreases pieces.len(),
{
    if pieces.len() == 0 {
        pieces
    } else if trim(pieces.last()).len() == 0 {
        trimmed_pieces(pieces.drop_last())
    } else {
        trimmed_pieces(pieces.drop_last()).push(trim(pieces.last()))
    }
}

/// None of the trimmed pieces is empty.
pub proof fn lemma_trimmed_pieces(pieces: Seq<Seq<char>>, i: int)
    requires
        0 <= i < trimmed_pieces(pieces).len(),
    ensures
        trimmed_pieces(pieces)[i].len() > 0,
    decreases pieces.len(),
{
    if pieces.len() > 0 {
        if trim(pieces.last()).len() == 0 {
            lemma_trimmed_pieces(pieces.drop_last(), i);
        } else if i < trimmed_pieces(pieces.drop_last()).len() {
            lemma_trimmed_pieces(pieces.drop_last(), i);
        }
    }
}

/// The pieces that are not white space only, each trimmed, as strings.
pub fn trim_pieces(pieces: &Vec<Vec<char>>) -> (r: Vec<String>)
    ensures
        string_views(r@) == trimmed_pieces(views(pieces@)),
{
    let mut out: Vec<String> = Vec::new();
    let mut i: usize = 0;
    let ghost all = views(pieces@);
    assert(trimmed_pieces(all.take(0)) == Seq::<Seq<char>>::empty());
    assert(string_views(out@) == Seq::<Seq<char>>::empty());
    while i < pieces.len()
        invariant
            i <= pieces.len(),
            all == views(pieces@),
            string_views(out@) == trimmed_pieces(all.take(i as int)),
        decreases pieces.len() - i,
    {
        let ghost before = out@;
        proof {
            let now = all.take(i + 1);
            assert(now.drop_last() == all.take(i as int));
            assert(now.last() == pieces@[i as int]@);
        }
        let piece = trim_chars(&pieces[i]);
        if piece.len() > 0 {
            let name = from_chars(&piece);
            out.push(name);
            assert(string_views(out@) == string_views(before).push(name@));
        }
        i += 1;
    }
    assert(all.take(pieces.len() as int) == all);
    out
}

/// The number that a run of ASCII digits writes.
pub open spec fn digits_value(s: Seq<char>) -> nat
    decreases s.len(),
{
    if s.len() == 0 {
        0
    } else {
        digits_value(s.drop_last()) * 10 + ((s.last() as u32 - 48) as nat)
    }
}

/// Whether every character of `s` is an ASCII digit.
pub open spec fn all_digits(s: Seq<char>) -> bool {
    forall|i: int| 0 <= i < s.len() ==> is_digit(#[trigger] s[i])
}

/// The number that a text writes in decimal: an optional `+` and then one
/// or more ASCII digits, nothing before, between or behind; `None` for any
/// other text and for a number above `u32::MAX`.
pub open spec fn parsed_u32(s: Seq<char>) -> Option<u32> {
    let body = if s.len() > 0 && s[0] == '+' {
        s.skip(1)
    } else {
        s
    };
    if body.len() > 0 && all_digits(body) && digits_value(body) <= u32::MAX {
        Some(digits_value(body) as u32)
    } else {
        None
    }
}

proof fn lemma_digits_value_grows(s: Seq<char>, k: int)
    requires
        0 <= k <= s.len(),
        all_digits(s),
    ensures
        digits_value(s.take(k)) <= digits_value(s),
    decreases s.len() - k,
{
    if k < s.len() {
        lemma_digits_value_grows(s, k + 1);
        assert(s.take(k + 1).drop_last() == s.take(k));
        assert(is_digit(s[k]));
    } else {
        assert(s.take(k) == s);
    }
}

/// Reads a number written in decimal.
pub fn parse_u32(text: &str) -> (r: Option<u32>)
    ensures
        r == parsed_u32(text@),
{
    let chars = to_chars(text);
    let start: usize = if chars.len() > 0 && chars[0] == '+' {
        1
    } else {
        0
    };
    let ghost body = chars@.skip(start as int);
    if chars.len() == start {
        return None;
    }
    let mut value: u64 = 0;
    let mut i: usize = start;
    assert(body.take(0) == Seq::<char>::empty());
    while i < chars.len()
        invariant
            start <= i <= chars.len(),
            chars@ == text@,
            chars.len() > start,
            start == if chars@.len() > 0 && chars@[0] == '+' {
                1int
            } else {
                0int
            },
            body == chars@.skip(start as int),
            all_digits(body.take(i - start)),
            value == digits_value(body.take(i - start)),
            value <= u32::MAX,
        decreases chars.len() - i,
    {
        let c = chars[i];
        proof {
            let now = body.take(i - start + 1);
            assert(now.drop_last() == body.take(i - start));
            assert(now.last() == c);
        }
        if !char_is_digit(c) {
            assert(!is_digit(body[i - start]));
            assert(chars@.skip(0) == chars@);
            return None;
        }
        let d: u64 = (c as u32 - 48) as u64;
        value = value * 10 + d;
        assert(value == digits_value(body.take(i - start + 1)));
        if value > 0xFFFF_FFFF {
            proof {
                assert(chars@.skip(0) == chars@);
                if all_digits(body) {
                    lemma_digits_value_grows(body, i - start + 1);
                }
            }
            return None;
        }
        proof {
            let now = body.take(i - start + 1);
            assert forall|j: int| 0 <= j < now.len() implies is_digit(#[trigger] now[j]) by {
                if j < now.len() - 1 {
                    assert(now[j] == body.take(i - start)[j]);
                }
            }
        }
        i += 1;
    }
    assert(body.take(chars.len() - start) == body);
    assert(chars@.skip(0) == chars@);
    Some(value as u32)
}

} // verus!
