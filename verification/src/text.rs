//! Character-level text primitives: ASCII case folding, substring search and
//! whitespace trimming, each stated over `Seq<char>`.

use vstd::prelude::*;
use vstd::utf8::{decode_utf8, valid_utf8};

verus! {

/// The ASCII upper-case form of a character; every other character is kept.
pub open spec fn upper_char(c: char) -> char {
    if 'a' <= c && c <= 'z' {
        ((c as u32) - 32) as char
    } else {
        c
    }
}

/// The text with each ASCII letter in upper case.
pub open spec fn upper(s: Seq<char>) -> Seq<char> {
    Seq::new(s.len(), |i: int| upper_char(s[i]))
}

/// The ASCII lower-case form of a character; every other character is kept.
pub open spec fn lower_char(c: char) -> char {
    if 'A' <= c && c <= 'Z' {
        ((c as u32) + 32) as char
    } else {
        c
    }
}

/// The text with each ASCII letter in lower case.
pub open spec fn lower(s: Seq<char>) -> Seq<char> {
    Seq::new(s.len(), |i: int| lower_char(s[i]))
}

/// `pat` stands in `hay` at position `i`.
pub open spec fn occurs_at(hay: Seq<char>, pat: Seq<char>, i: int) -> bool {
    0 <= i && i + pat.len() <= hay.len() && hay.subrange(i, i + pat.len()) == pat
}

/// `pat` stands somewhere in `hay`.
pub open spec fn contains(hay: Seq<char>, pat: Seq<char>) -> bool {
    exists|i: int| occurs_at(hay, pat, i)
}

/// The first position at or after `from` where `pat` stands in `hay`.
pub open spec fn find(hay: Seq<char>, pat: Seq<char>, from: int) -> Option<int>
    decreases hay.len() + 1 - from,
{
    if from < 0 || from + pat.len() > hay.len() {
        None
    } else if occurs_at(hay, pat, from) {
        Some(from)
    } else {
        find(hay, pat, from + 1)
    }
}

/// The last position where `pat` stands in `hay` and ends at or before
/// `end`.
pub open spec fn rfind(hay: Seq<char>, pat: Seq<char>, end: int) -> Option<int>
    decreases end + 1,
{
    if end < pat.len() || end > hay.len() {
        None
    } else if occurs_at(hay, pat, end - pat.len()) {
        Some(end - pat.len())
    } else {
        rfind(hay, pat, end - 1)
    }
}

/// A position in a text, as a number.
pub open spec fn position(at: Option<usize>) -> Option<int> {
    match at {
        Some(i) => Some(i as int),
        None => None,
    }
}

/// What `find` gives is an occurrence at or after `from`, and the first
/// one; it gives none only where there is no occurrence from there on.
pub proof fn lemma_find_is_first(hay: Seq<char>, pat: Seq<char>, from: int)
    requires
        0 <= from,
    ensures
        match find(hay, pat, from) {
            Some(i) => from <= i && occurs_at(hay, pat, i) && forall|k: int|
                from <= k < i ==> !occurs_at(hay, pat, k),
            None => forall|k: int| from <= k ==> !occurs_at(hay, pat, k),
        },
    decreases hay.len() + 1 - from,
{
    if from + pat.len() <= hay.len() && !occurs_at(hay, pat, from) {
        lemma_find_is_first(hay, pat, from + 1);
    }
}

/// What `rfind` gives is an occurrence that ends at or before `end`, and
/// the last one; it gives none only where there is no such occurrence.
pub proof fn lemma_rfind_is_last(hay: Seq<char>, pat: Seq<char>, end: int)
    requires
        end <= hay.len(),
    ensures
        match rfind(hay, pat, end) {
            Some(i) => i + pat.len() <= end && occurs_at(hay, pat, i) && forall|k: int|
                i < k && k + pat.len() <= end ==> !occurs_at(hay, pat, k),
            None => forall|k: int| k + pat.len() <= end ==> !occurs_at(hay, pat, k),
        },
    decreases end + 1,
{
    if end >= pat.len() && !occurs_at(hay, pat, end - pat.len()) {
        lemma_rfind_is_last(hay, pat, end - 1);
    }
}

/// White space, as Unicode defines it (`White_Space`).
pub open spec fn is_space(c: char) -> bool {
    let n = c as u32;
    ||| 0x09 <= n <= 0x0D
    ||| n == 0x20
    ||| n == 0x85
    ||| n == 0xA0
    ||| n == 0x1680
    ||| 0x2000 <= n <= 0x200A
    ||| n == 0x2028
    ||| n == 0x2029
    ||| n == 0x202F
    ||| n == 0x205F
    ||| n == 0x3000
}

/// The position of the first character at or after `from` that is not white
/// space; the length of the text where there is none.
pub open spec fn skip_spaces(s: Seq<char>, from: int) -> int
    decreases s.len() - from,
{
    if 0 <= from < s.len() && is_space(s[from]) {
        skip_spaces(s, from + 1)
    } else {
        from
    }
}

/// The position just after the last character before `to` that is not white
/// space; 0 where there is none.
pub open spec fn drop_spaces(s: Seq<char>, to: int) -> int
    decreases to,
{
    if 0 < to <= s.len() && is_space(s[to - 1]) {
        drop_spaces(s, to - 1)
    } else {
        to
    }
}

/// The text without the white space at its two ends.
pub open spec fn trimmed(s: Seq<char>) -> Seq<char> {
    let from = skip_spaces(s, 0);
    let to = drop_spaces(s, s.len() as int);
    if from < to {
        s.subrange(from, to)
    } else {
        Seq::empty()
    }
}

/// Where the skipping of white space ends: every character passed over is
/// white space, and the one reached is not.
pub proof fn lemma_skip_spaces_stops(s: Seq<char>, from: int)
    requires
        0 <= from <= s.len(),
    ensures
        from <= skip_spaces(s, from) <= s.len(),
        forall|i: int| from <= i < skip_spaces(s, from) ==> is_space(s[i]),
        skip_spaces(s, from) < s.len() ==> !is_space(s[skip_spaces(s, from)]),
    decreases s.len() - from,
{
    if from < s.len() && is_space(s[from]) {
        lemma_skip_spaces_stops(s, from + 1);
    }
}

/// Where the dropping of white space ends: every character passed over is
/// white space, and the one before the end reached is not.
pub proof fn lemma_drop_spaces_stops(s: Seq<char>, to: int)
    requires
        0 <= to <= s.len(),
    ensures
        0 <= drop_spaces(s, to) <= to,
        forall|i: int| drop_spaces(s, to) <= i < to ==> is_space(s[i]),
        drop_spaces(s, to) > 0 ==> !is_space(s[drop_spaces(s, to) - 1]),
    decreases to,
{
    if 0 < to && is_space(s[to - 1]) {
        lemma_drop_spaces_stops(s, to - 1);
    }
}

/// Trimming removes white space from the two ends and nothing else: the
/// text is white space, the trimmed text, and white space again; the trimmed
/// text neither starts nor ends with white space; and it is empty exactly
/// where the text is white space throughout.
pub proof fn lemma_trimmed_is_tight(s: Seq<char>)
    ensures
        trimmed(s).len() > 0 ==> !is_space(trimmed(s).first()) && !is_space(trimmed(s).last()),
        (trimmed(s).len() == 0) == (forall|i: int| 0 <= i < s.len() ==> is_space(s[i])),
        exists|from: int, to: int|
            0 <= from <= to <= s.len() && trimmed(s) == s.subrange(from, to) && (forall|i: int|
                0 <= i < from ==> is_space(s[i])) && (forall|i: int|
                to <= i < s.len() ==> is_space(s[i])),
{
    let from = skip_spaces(s, 0);
    let to = drop_spaces(s, s.len() as int);
    lemma_skip_spaces_stops(s, 0);
    lemma_drop_spaces_stops(s, s.len() as int);
    if from < to {
        assert(trimmed(s).first() == s[from]);
        assert(trimmed(s).last() == s[to - 1]);
        assert(!is_space(s[from]));
    } else {
        assert(trimmed(s) =~= s.subrange(from, from));
        assert forall|i: int| 0 <= i < s.len() implies is_space(s[i]) by {
            if from < s.len() {
                assert(from >= to);
                assert(is_space(s[from]));
            }
        }
    }
}

/// The characters of a string, in order.
pub fn chars_of(s: &str) -> (v: Vec<char>)
    ensures
        v@ == s@,
{
    let mut v: Vec<char> = Vec::new();
    for c in it: s.chars()
        invariant
            v@ == it.seq().take(it.index() as int),
            it.seq() == s@,
    {
        v.push(c);
    }
    v
}

/// Upper-case one character.
pub fn to_upper_char(c: char) -> (r: char)
    ensures
        r == upper_char(c),
{
    if 'a' <= c && c <= 'z' {
        ((c as u8) - 32) as char
    } else {
        c
    }
}

/// Lower-case one character.
pub fn to_lower_char(c: char) -> (r: char)
    ensures
        r == lower_char(c),
{
    if 'A' <= c && c <= 'Z' {
        ((c as u8) + 32) as char
    } else {
        c
    }
}

/// The text in ASCII upper case.
pub fn to_upper(s: &[char]) -> (r: Vec<char>)
    ensures
        r@ == upper(s@),
{
    let mut r: Vec<char> = Vec::new();
    let mut i: usize = 0;
    while i < s.len()
        invariant
            i <= s.len(),
            r@ == upper(s@.take(i as int)),
        decreases s.len() - i,
    {
        r.push(to_upper_char(s[i]));
        i += 1;
        assert(r@ =~= upper(s@.take(i as int)));
    }
    assert(s@.take(i as int) =~= s@);
    r
}

/// The text in ASCII lower case.
pub fn to_lower(s: &[char]) -> (r: Vec<char>)
    ensures
        r@ == lower(s@),
{
    let mut r: Vec<char> = Vec::new();
    let mut i: usize = 0;
    while i < s.len()
        invariant
            i <= s.len(),
            r@ == lower(s@.take(i as int)),
        decreases s.len() - i,
    {
        r.push(to_lower_char(s[i]));
        i += 1;
        assert(r@ =~= lower(s@.take(i as int)));
    }
    assert(s@.take(i as int) =~= s@);
    r
}

/// Whether `pat` stands in `hay` at position `i`.
pub fn matches_at(hay: &[char], pat: &[char], i: usize) -> (r: bool)
    ensures
        r == occurs_at(hay@, pat@, i as int),
{
    if pat.len() > hay.len() || i > hay.len() - pat.len() {
        return false;
    }
    let mut j: usize = 0;
    while j < pat.len()
        invariant
            j <= pat.len(),
            i + pat.len() <= hay.len(),
            forall|k: int| 0 <= k < j ==> hay@[i + k] == pat@[k],
        decreases pat.len() - j,
    {
        if hay[i + j] != pat[j] {
            assert(hay@.subrange(i as int, i + pat.len())[j as int] == hay@[i + j]);
            return false;
        }
        j += 1;
    }
    assert(hay@.subrange(i as int, i + pat.len()) =~= pat@);
    true
}

/// The first position at or after `from` where `pat` stands in `hay`.
pub fn find_from(hay: &[char], pat: &[char], from: usize) -> (r: Option<usize>)
    ensures
        position(r) == find(hay@, pat@, from as int),
{
    if pat.len() > hay.len() {
        return None;
    }
    let last: usize = hay.len() - pat.len();
    if from > last {
        return None;
    }
    let mut i: usize = from;
    loop
        invariant
            from <= i <= last,
            last == hay.len() - pat.len(),
            pat.len() <= hay.len(),
            find(hay@, pat@, from as int) == find(hay@, pat@, i as int),
        decreases last - i,
    {
        if matches_at(hay, pat, i) {
            return Some(i);
        }
        if i == last {
            assert(find(hay@, pat@, i + 1) is None);
            return None;
        }
        i += 1;
    }
}

/// The last position where `pat` stands in `hay` and ends at or before `end`.
pub fn rfind_before(hay: &[char], pat: &[char], end: usize) -> (r: Option<usize>)
    ensures
        position(r) == rfind(hay@, pat@, end as int),
{
    if pat.len() > end || end > hay.len() {
        return None;
    }
    let mut i: usize = end - pat.len();
    loop
        invariant
            pat.len() <= end <= hay.len(),
            i + pat.len() <= end,
            rfind(hay@, pat@, end as int) == rfind(hay@, pat@, i + pat.len()),
        decreases i,
    {
        if matches_at(hay, pat, i) {
            return Some(i);
        }
        if i == 0 {
            assert(rfind(hay@, pat@, pat.len() - 1) is None);
            return None;
        }
        i -= 1;
    }
}

/// Whether `pat` stands somewhere in `hay`.
pub fn has(hay: &[char], pat: &str) -> (r: bool)
    ensures
        r == contains(hay@, pat@),
{
    let p = chars_of(pat);
    proof {
        lemma_find_is_first(hay@, p@, 0);
    }
    find_from(hay, p.as_slice(), 0).is_some()
}

/// Whether two texts hold the same characters.
pub fn same_chars(a: &[char], b: &[char]) -> (r: bool)
    ensures
        r == (a@ == b@),
{
    if a.len() != b.len() {
        return false;
    }
    let mut i: usize = 0;
    while i < a.len()
        invariant
            i <= a.len(),
            a.len() == b.len(),
            forall|k: int| 0 <= k < i ==> a@[k] == b@[k],
        decreases a.len() - i,
    {
        if a[i] != b[i] {
            return false;
        }
        i += 1;
    }
    assert(a@ =~= b@);
    true
}

/// Whether `text` equals `word` when ASCII case is ignored; `word` is given
/// in lower case.
pub fn is_word(text: &str, word: &str) -> (r: bool)
    ensures
        r == (lower(text@) == word@),
{
    let t = to_lower(chars_of(text).as_slice());
    let w = chars_of(word);
    same_chars(t.as_slice(), w.as_slice())
}

/// Whether a character is white space.
pub fn is_space_char(c: char) -> (r: bool)
    ensures
        r == is_space(c),
{
    let n: u32 = c as u32;
    (0x09 <= n && n <= 0x0D) || n == 0x20 || n == 0x85 || n == 0xA0 || n == 0x1680 || (0x2000 <= n
        && n <= 0x200A) || n == 0x2028 || n == 0x2029 || n == 0x202F || n == 0x205F || n == 0x3000
}

/// The bounds of a text without the white space at its two ends: where its
/// first character that is no white space stands, and where its last one
/// ends. In a text of white space alone the first bound is its length and
/// the second is 0.
pub fn trim_bounds(s: &[char]) -> (r: (usize, usize))
    ensures
        r.0 == skip_spaces(s@, 0),
        r.1 == drop_spaces(s@, s@.len() as int),
        r.0 <= s@.len(),
        r.1 <= s@.len(),
{
    let mut from: usize = 0;
    while from < s.len() && is_space_char(s[from])
        invariant
            from <= s.len(),
            skip_spaces(s@, 0) == skip_spaces(s@, from as int),
        decreases s.len() - from,
    {
        from += 1;
    }
    let mut to: usize = s.len();
    while to > 0 && is_space_char(s[to - 1])
        invariant
            to <= s.len(),
            drop_spaces(s@, s@.len() as int) == drop_spaces(s@, to as int),
        decreases to,
    {
        to -= 1;
    }
    (from, to)
}

/// Decodes bytes as UTF-8 by `std::str::from_utf8`, which gives the text
/// that the bytes encode, and none where they are not valid UTF-8.
#[verifier::external_body]
pub(crate) fn decode(bytes: &[u8]) -> (r: Option<&str>)
    ensures
        match r {
            Some(text) => valid_utf8(bytes@) && text@ == decode_utf8(bytes@),
            None => !valid_utf8(bytes@),
        },
{
    std::str::from_utf8(bytes).ok()
}

} // verus!
