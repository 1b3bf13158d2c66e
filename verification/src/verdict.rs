//! Recovery of a verdict from the free-form reply of an arbitrating model:
//! the reply is tried as it is, then without its reasoning markup, then by
//! its last balanced `{...}` object.

use vstd::prelude::*;
use vstd::string::{StrSliceExecFns, StringExecFns};
use crate::json::{as_flag, as_text, json_bool, json_member, json_parse, member, parse};
use crate::line::member_string;
use crate::text::{
    chars_of, find, find_from, lemma_find_is_first, lemma_rfind_is_last, lower, occurs_at,
    position, rfind, rfind_before, to_lower,
};

verus! {

/// How many kinds of reasoning markup are known.
pub const TAG_COUNT: usize = 5;

/// The verdict of an arbitration: whether the assistant shall continue, and
/// why.
#[derive(Debug, Clone)]
pub struct Verdict {
    pub should_continue: bool,
    pub reason: String,
}

/// A verdict as a plain value.
pub struct VerdictView {
    pub should_continue: bool,
    pub reason: Seq<char>,
}

impl View for Verdict {
    type V = VerdictView;

    open spec fn view(&self) -> VerdictView {
        VerdictView { should_continue: self.should_continue, reason: self.reason@ }
    }
}

/// The view of an optional verdict.
pub open spec fn verdict_view(verdict: Option<Verdict>) -> Option<VerdictView> {
    match verdict {
        Some(v) => Some(v@),
        None => None,
    }
}

/// The reason given for a verdict that states none.
pub open spec fn default_reason(should_continue: bool) -> Seq<char> {
    if should_continue {
        "The assistant was interrupted and should continue."@
    } else {
        "The session may stop."@
    }
}

/// The boolean held by a top-level member of a document.
pub open spec fn member_bool(doc: serde_json::Value, key: Seq<char>) -> Option<bool> {
    match json_member(doc, key) {
        Some(found) => json_bool(found),
        None => None,
    }
}

/// The verdict that a document states: it must hold a boolean
/// `should_continue`; its `reason` is taken where it is a string, and made
/// from the flag where it is not.
pub open spec fn document_verdict(doc: serde_json::Value) -> Option<VerdictView> {
    match member_bool(doc, "should_continue"@) {
        Some(flag) => Some(
            VerdictView {
                should_continue: flag,
                reason: match member_string(doc, "reason"@) {
                    Some(reason) => reason,
                    None => default_reason(flag),
                },
            },
        ),
        None => None,
    }
}

/// White space as JSON knows it: space, tab, line feed, carriage return.
pub open spec fn is_json_space(c: char) -> bool {
    c == ' ' || c == '\t' || c == '\n' || c == '\r'
}

/// The position of the first character at or after `from` that is no JSON
/// white space; the length of the text where there is none.
pub open spec fn skip_json_spaces(s: Seq<char>, from: int) -> int
    decreases s.len() - from,
{
    if 0 <= from < s.len() && is_json_space(s[from]) {
        skip_json_spaces(s, from + 1)
    } else {
        from
    }
}

/// The position just after the last character before `to` that is no JSON
/// white space; 0 where there is none.
pub open spec fn drop_json_spaces(s: Seq<char>, to: int) -> int
    decreases to,
{
    if 0 < to <= s.len() && is_json_space(s[to - 1]) {
        drop_json_spaces(s, to - 1)
    } else {
        to
    }
}

/// The text without the JSON white space at its two ends.
pub open spec fn json_trimmed(s: Seq<char>) -> Seq<char> {
    let from = skip_json_spaces(s, 0);
    let to = drop_json_spaces(s, s.len() as int);
    if from < to {
        s.subrange(from, to)
    } else {
        Seq::empty()
    }
}

/// The text has the outline of a JSON object: it starts with `{` and ends
/// with `}`.
pub open spec fn is_object_text(t: Seq<char>) -> bool {
    t.len() >= 2 && t.first() == '{' && t.last() == '}'
}

/// The verdict that a text states. A verdict is stated by a JSON object, so
/// only a text that has the outline of one, JSON white space at its ends
/// aside, is read as a document; any other text states none.
pub open spec fn text_verdict(text: Seq<char>) -> Option<VerdictView> {
    if is_object_text(json_trimmed(text)) {
        match json_parse(json_trimmed(text)) {
            Some(doc) => document_verdict(doc),
            None => None,
        }
    } else {
        None
    }
}

/// The opening tag of the kind `k` of reasoning markup, in lower case.
pub open spec fn open_tag(k: int) -> Seq<char> {
    if k == 0 {
        "<think>"@
    } else if k == 1 {
        "<thinking>"@
    } else if k == 2 {
        "<reasoning>"@
    } else if k == 3 {
        "<thought>"@
    } else {
        "<reflection>"@
    }
}

/// The closing tag of the kind `k` of reasoning markup, in lower case.
pub open spec fn close_tag(k: int) -> Seq<char> {
    if k == 0 {
        "</think>"@
    } else if k == 1 {
        "</thinking>"@
    } else if k == 2 {
        "</reasoning>"@
    } else if k == 3 {
        "</thought>"@
    } else {
        "</reflection>"@
    }
}

/// The innermost pair of tags of kind `k` in a text given in lower case: the
/// first closing tag that follows an opening tag, with the last opening tag
/// before it. The pair is given by the start of its opening tag and the end
/// of its closing tag.
pub open spec fn pair_in(low: Seq<char>, k: int) -> Option<(int, int)> {
    match find(low, open_tag(k), 0) {
        Some(first) => match find(low, close_tag(k), first + open_tag(k).len()) {
            Some(close) => match rfind(low, open_tag(k), close) {
                Some(open) => Some((open, close + close_tag(k).len())),
                None => None,
            },
            None => None,
        },
        None => None,
    }
}

/// The innermost pair of tags of kind `k` in a text, its tags matched in any
/// ASCII case.
pub open spec fn tag_pair(s: Seq<char>, k: int) -> Option<(int, int)> {
    pair_in(lower(s), k)
}

/// The pair to remove next: that of the first kind, from `k` on, that has
/// one.
pub open spec fn next_pair(s: Seq<char>, k: int) -> Option<(int, int)>
    decreases TAG_COUNT - k,
{
    if k < 0 || k >= TAG_COUNT {
        None
    } else if tag_pair(s, k) is Some {
        tag_pair(s, k)
    } else {
        next_pair(s, k + 1)
    }
}

/// The text without its characters from `from` up to `to`.
pub open spec fn without(s: Seq<char>, from: int, to: int) -> Seq<char> {
    s.subrange(0, from) + s.subrange(to, s.len() as int)
}

/// The text after every pair of reasoning tags has been removed with what
/// it encloses, innermost pairs first, until no pair is left.
pub open spec fn stripped(s: Seq<char>) -> Seq<char>
    decreases s.len(),
{
    match next_pair(s, 0) {
        Some((from, to)) => if 0 <= from < to <= s.len() {
            stripped(without(s, from, to))
        } else {
            s
        },
        None => s,
    }
}

/// Walking left from position `at` with `depth` closing braces still open:
/// the position of the opening brace that brings the depth to zero.
pub open spec fn match_open(s: Seq<char>, at: int, depth: int) -> Option<int>
    decreases at + 1,
{
    if at < 0 || at >= s.len() {
        None
    } else {
        let d = if s[at] == '}' {
            depth + 1
        } else if s[at] == '{' {
            depth - 1
        } else {
            depth
        };
        if d == 0 {
            Some(at)
        } else {
            match_open(s, at - 1, d)
        }
    }
}

/// The last balanced `{...}` span that ends before `end`: scanning from the
/// end, the first closing brace whose opening brace is found.
pub open spec fn last_object(s: Seq<char>, end: int) -> Option<(int, int)>
    decreases end,
{
    if end <= 0 || end > s.len() {
        None
    } else if s[end - 1] == '}' && match_open(s, end - 1, 0) is Some {
        Some((match_open(s, end - 1, 0)->0, end))
    } else {
        last_object(s, end - 1)
    }
}

/// The verdict stated by the last balanced object of a text.
pub open spec fn object_verdict(s: Seq<char>) -> Option<VerdictView> {
    match last_object(s, s.len() as int) {
        Some((from, to)) => text_verdict(s.subrange(from, to)),
        None => None,
    }
}

/// The verdict recovered from a reply, by the first of four attempts that
/// gives one: the reply itself; the reply without reasoning markup; the last
/// balanced object of the reply without markup; the last balanced object of
/// the reply itself. None where all four fail.
pub open spec fn normalized(reply: Seq<char>) -> Option<VerdictView> {
    if text_verdict(reply) is Some {
        text_verdict(reply)
    } else if text_verdict(stripped(reply)) is Some {
        text_verdict(stripped(reply))
    } else if object_verdict(stripped(reply)) is Some {
        object_verdict(stripped(reply))
    } else {
        object_verdict(reply)
    }
}

/// A span of positions, as numbers.
pub open spec fn span(at: Option<(usize, usize)>) -> Option<(int, int)> {
    match at {
        Some((from, to)) => Some((from as int, to as int)),
        None => None,
    }
}

/// A pair of tags lies inside the text and is not empty.
pub proof fn lemma_tag_pair_bounds(s: Seq<char>, k: int)
    requires
        tag_pair(s, k) is Some,
    ensures
        tag_pair(s, k) matches Some((from, to)) && 0 <= from < to <= s.len(),
{
    reveal_strlit("</think>");
    reveal_strlit("</thinking>");
    reveal_strlit("</reasoning>");
    reveal_strlit("</thought>");
    reveal_strlit("</reflection>");
    let low = lower(s);
    let first = find(low, open_tag(k), 0)->0;
    lemma_find_is_first(low, open_tag(k), 0);
    lemma_find_is_first(low, close_tag(k), first + open_tag(k).len());
    let close = find(low, close_tag(k), first + open_tag(k).len())->0;
    lemma_rfind_is_last(low, open_tag(k), close);
}

/// The pair to remove next lies inside the text and is not empty.
pub proof fn lemma_next_pair_bounds(s: Seq<char>, k: int)
    requires
        next_pair(s, k) is Some,
    ensures
        next_pair(s, k) matches Some((from, to)) && 0 <= from < to <= s.len(),
    decreases TAG_COUNT - k,
{
    if tag_pair(s, k) is Some {
        lemma_tag_pair_bounds(s, k);
    } else {
        lemma_next_pair_bounds(s, k + 1);
    }
}

/// Reads the verdict that a document states.
pub fn verdict_of_document(doc: &serde_json::Value) -> (r: Option<Verdict>)
    ensures
        verdict_view(r) == document_verdict(*doc),
{
    let flag = match member(doc, "should_continue") {
        Some(found) => as_flag(found),
        None => None,
    };
    let should_continue = match flag {
        Some(flag) => flag,
        None => return None,
    };
    let stated = match member(doc, "reason") {
        Some(found) => as_text(found),
        None => None,
    };
    let reason = match stated {
        Some(reason) => reason.to_owned(),
        None => if should_continue {
            "The assistant was interrupted and should continue.".to_owned()
        } else {
            "The session may stop.".to_owned()
        },
    };
    Some(Verdict { should_continue, reason })
}

/// The bounds of a text without the JSON white space at its two ends.
pub fn json_trim_bounds(s: &[char]) -> (r: (usize, usize))
    ensures
        r.0 == skip_json_spaces(s@, 0),
        r.1 == drop_json_spaces(s@, s@.len() as int),
        r.0 <= s@.len(),
        r.1 <= s@.len(),
{
    let mut from: usize = 0;
    while from < s.len() && is_json_space_char(s[from])
        invariant
            from <= s.len(),
            skip_json_spaces(s@, 0) == skip_json_spaces(s@, from as int),
        decreases s.len() - from,
    {
        from += 1;
    }
    let mut to: usize = s.len();
    while to > 0 && is_json_space_char(s[to - 1])
        invariant
            to <= s.len(),
            drop_json_spaces(s@, s@.len() as int) == drop_json_spaces(s@, to as int),
        decreases to,
    {
        to -= 1;
    }
    (from, to)
}

/// Whether a character is JSON white space.
pub fn is_json_space_char(c: char) -> (r: bool)
    ensures
        r == is_json_space(c),
{
    c == ' ' || c == '\t' || c == '\n' || c == '\r'
}

/// Reads the verdict that a text states. Only a text with the outline of a
/// JSON object is handed to the parser.
pub fn verdict_of_text(text: &str) -> (r: Option<Verdict>)
    ensures
        verdict_view(r) == text_verdict(text@),
{
    let chars = chars_of(text);
    let (from, to) = json_trim_bounds(chars.as_slice());
    if from >= to || to - from < 2 || chars[from] != '{' || chars[to - 1] != '}' {
        return None;
    }
    match parse(text.substring_char(from, to)) {
        Some(doc) => verdict_of_document(&doc),
        None => None,
    }
}

/// The tags of the kind `k`: opening and closing.
fn tags(k: usize) -> (r: (&'static str, &'static str))
    requires
        k < TAG_COUNT,
    ensures
        r.0@ == open_tag(k as int),
        r.1@ == close_tag(k as int),
{
    if k == 0 {
        ("<think>", "</think>")
    } else if k == 1 {
        ("<thinking>", "</thinking>")
    } else if k == 2 {
        ("<reasoning>", "</reasoning>")
    } else if k == 3 {
        ("<thought>", "</thought>")
    } else {
        ("<reflection>", "</reflection>")
    }
}

/// Finds the innermost pair of tags of kind `k` in a text given in lower
/// case.
fn find_tag_pair(low: &[char], k: usize) -> (r: Option<(usize, usize)>)
    requires
        k < TAG_COUNT,
    ensures
        span(r) == pair_in(low@, k as int),
{
    let (open, close) = tags(k);
    let open = chars_of(open);
    let close = chars_of(close);
    let len = low.len();
    proof {
        lemma_find_is_first(low@, open@, 0);
    }
    let first = match find_from(low, open.as_slice(), 0) {
        Some(first) => first,
        None => return None,
    };
    assert(first + open@.len() <= len) by {
        assert(occurs_at(low@, open@, first as int));
    }
    proof {
        lemma_find_is_first(low@, close@, first + open@.len());
    }
    let closing = match find_from(low, close.as_slice(), first + open.len()) {
        Some(closing) => closing,
        None => return None,
    };
    assert(closing + close@.len() <= len) by {
        assert(occurs_at(low@, close@, closing as int));
    }
    match rfind_before(low, open.as_slice(), closing) {
        Some(opening) => Some((opening, closing + close.len())),
        None => None,
    }
}

/// Finds the pair of tags to remove next.
pub fn find_next_pair(text: &[char]) -> (r: Option<(usize, usize)>)
    ensures
        span(r) == next_pair(text@, 0),
        r matches Some((from, to)) ==> from < to <= text@.len(),
{
    let low = to_lower(text);
    let mut k: usize = 0;
    while k < TAG_COUNT
        invariant
            k <= TAG_COUNT,
            low@ == lower(text@),
            next_pair(text@, 0) == next_pair(text@, k as int),
        decreases TAG_COUNT - k,
    {
        let found = find_tag_pair(low.as_slice(), k);
        if found.is_some() {
            proof {
                lemma_tag_pair_bounds(text@, k as int);
            }
            return found;
        }
        k += 1;
    }
    None
}

/// The text without its characters from `from` up to `to`.
fn cut(text: &str, from: usize, to: usize) -> (r: String)
    requires
        from <= to <= text@.len(),
    ensures
        r@ == without(text@, from as int, to as int),
{
    let len = text.unicode_len();
    let mut r = String::from_str(text.substring_char(0, from));
    r.append(text.substring_char(to, len));
    r
}

/// Removes every pair of reasoning tags with what it encloses.
pub fn strip_reasoning_tags(text: &str) -> (r: String)
    ensures
        r@ == stripped(text@),
{
    let mut current: String = text.to_owned();
    loop
        invariant
            stripped(text@) == stripped(current@),
        decreases current@.len(),
    {
        let chars = chars_of(current.as_str());
        match find_next_pair(chars.as_slice()) {
            Some((from, to)) => {
                current = cut(current.as_str(), from, to);
            },
            None => {
                return current;
            },
        }
    }
}

/// Finds the opening brace that balances the closing brace at `at`.
fn find_open(text: &[char], at: usize) -> (r: Option<usize>)
    requires
        at < text.len(),
        text@[at as int] == '}',
    ensures
        position(r) == match_open(text@, at as int, 0),
{
    let mut depth: usize = 1;
    let mut j: usize = at;
    loop
        invariant
            j <= at < text.len(),
            1 <= depth <= at - j + 1,
            match_open(text@, at as int, 0) == match_open(text@, j - 1, depth as int),
        decreases j,
    {
        if j == 0 {
            return None;
        }
        j -= 1;
        let c = text[j];
        if c == '}' {
            depth += 1;
        } else if c == '{' {
            depth -= 1;
            if depth == 0 {
                return Some(j);
            }
        }
    }
}

/// Finds the last balanced `{...}` span of a text.
pub fn last_balanced_object(text: &[char]) -> (r: Option<(usize, usize)>)
    ensures
        span(r) == last_object(text@, text@.len() as int),
        r matches Some((from, to)) ==> from < to <= text@.len(),
{
    let mut end: usize = text.len();
    while end > 0
        invariant
            end <= text.len(),
            last_object(text@, text@.len() as int) == last_object(text@, end as int),
        decreases end,
    {
        if text[end - 1] == '}' {
            if let Some(start) = find_open(text, end - 1) {
                proof {
                    lemma_match_open_bounds(text@, end - 1, 0);
                }
                return Some((start, end));
            }
        }
        end -= 1;
    }
    None
}

/// An opening brace found by the walk stands at or before its start.
pub proof fn lemma_match_open_bounds(s: Seq<char>, at: int, depth: int)
    requires
        match_open(s, at, depth) is Some,
    ensures
        0 <= match_open(s, at, depth)->0 <= at < s.len(),
    decreases at + 1,
{
    let d = if s[at] == '}' {
        depth + 1
    } else if s[at] == '{' {
        depth - 1
    } else {
        depth
    };
    if d != 0 {
        lemma_match_open_bounds(s, at - 1, d);
    }
}

/// Reads the verdict stated by the last balanced object of a text.
pub fn verdict_of_last_object(text: &str) -> (r: Option<Verdict>)
    ensures
        verdict_view(r) == object_verdict(text@),
{
    let chars = chars_of(text);
    match last_balanced_object(chars.as_slice()) {
        Some((from, to)) => verdict_of_text(text.substring_char(from, to)),
        None => None,
    }
}

/// Recovers the verdict from a reply. `None` means that the arbitration is
/// inconclusive.
pub fn normalize_verdict(reply: &str) -> (r: Option<Verdict>)
    ensures
        verdict_view(r) == normalized(reply@),
{
    let direct = verdict_of_text(reply);
    if direct.is_some() {
        return direct;
    }
    let cleaned = strip_reasoning_tags(reply);
    let plain = verdict_of_text(cleaned.as_str());
    if plain.is_some() {
        return plain;
    }
    let recovered = verdict_of_last_object(cleaned.as_str());
    if recovered.is_some() {
        return recovered;
    }
    verdict_of_last_object(reply)
}

/// After stripping no pair of reasoning tags is left, so stripping again
/// changes nothing.
pub proof fn lemma_stripped_has_no_pair(s: Seq<char>)
    ensures
        next_pair(stripped(s), 0) is None,
        stripped(stripped(s)) == stripped(s),
    decreases s.len(),
{
    match next_pair(s, 0) {
        Some((from, to)) => {
            lemma_next_pair_bounds(s, 0);
            lemma_stripped_has_no_pair(without(s, from, to));
        },
        None => {},
    }
}

/// A text is a closed object where it ends with a closing brace and the
/// walk from that brace balances at its first character, not before.
pub open spec fn is_closed_object(object: Seq<char>) -> bool {
    &&& object.len() > 0
    &&& object.last() == '}'
    &&& match_open(object, object.len() - 1, 0) == Some(0int)
}

/// The character does not occur in the text.
pub open spec fn free_of(s: Seq<char>, c: char) -> bool {
    forall|i: int| 0 <= i < s.len() ==> s[i] != c
}

/// The walk inside an object gives the same brace when the object stands
/// between other text.
pub proof fn lemma_match_open_in_context(
    prefix: Seq<char>,
    object: Seq<char>,
    suffix: Seq<char>,
    at: int,
    depth: int,
)
    requires
        match_open(object, at, depth) is Some,
    ensures
        match_open(prefix + object + suffix, prefix.len() + at, depth) == Some(
            prefix.len() + match_open(object, at, depth)->0,
        ),
    decreases at + 1,
{
    let text = prefix + object + suffix;
    assert(text[prefix.len() + at] == object[at]);
    let d = if object[at] == '}' {
        depth + 1
    } else if object[at] == '{' {
        depth - 1
    } else {
        depth
    };
    if d != 0 {
        lemma_match_open_in_context(prefix, object, suffix, at - 1, d);
    }
}

/// Text without a closing brace after `from` adds no object: the last
/// object before `end` is the last one before `from`.
pub proof fn lemma_last_object_skips_plain_text(s: Seq<char>, from: int, end: int)
    requires
        0 <= from <= end <= s.len(),
        forall|i: int| from <= i < end ==> s[i] != '}',
    ensures
        last_object(s, end) == last_object(s, from),
    decreases end - from,
{
    if from < end {
        lemma_last_object_skips_plain_text(s, from, end - 1);
    }
}

/// A closed object is recovered from the text around it, where no closing
/// brace follows it: it is the last balanced object, and the verdict read
/// from the whole text is the one that the object states.
pub proof fn lemma_wrapped_object_is_found(
    prefix: Seq<char>,
    object: Seq<char>,
    suffix: Seq<char>,
)
    requires
        is_closed_object(object),
        free_of(suffix, '}'),
    ensures
        last_object(prefix + object + suffix, (prefix + object + suffix).len() as int) == Some(
            (prefix.len() as int, (prefix.len() + object.len()) as int),
        ),
        object_verdict(prefix + object + suffix) == text_verdict(object),
{
    let text = prefix + object + suffix;
    let end: int = (prefix.len() + object.len()) as int;
    assert forall|i: int| end <= i < text.len() implies text[i] != '}' by {
        assert(text[i] == suffix[i - end]);
    }
    lemma_last_object_skips_plain_text(text, end, text.len() as int);
    lemma_match_open_in_context(prefix, object, suffix, object.len() - 1, 0);
    assert(text[end - 1] == object[object.len() - 1]);
    assert(text.subrange(prefix.len() as int, end) =~= object);
}

/// Removing a span adds no character.
proof fn lemma_without_adds_nothing(s: Seq<char>, from: int, to: int, c: char)
    requires
        0 <= from <= to <= s.len(),
        free_of(s, c),
    ensures
        free_of(without(s, from, to), c),
{
    let r = without(s, from, to);
    assert forall|i: int| 0 <= i < r.len() implies r[i] != c by {
        if i < from {
            assert(r[i] == s[i]);
        } else {
            assert(r[i] == s[i - from + to]);
        }
    }
}

/// Stripping adds no character: what the reply is free of, the stripped
/// reply is free of.
pub proof fn lemma_stripping_adds_nothing(s: Seq<char>, c: char)
    requires
        free_of(s, c),
    ensures
        free_of(stripped(s), c),
    decreases s.len(),
{
    match next_pair(s, 0) {
        Some((from, to)) => {
            if 0 <= from < to <= s.len() {
                lemma_without_adds_nothing(s, from, to, c);
                lemma_stripping_adds_nothing(without(s, from, to), c);
            }
        },
        None => {},
    }
}

/// An occurrence of a pattern starts with the first character of the
/// pattern.
proof fn lemma_occurrence_starts(hay: Seq<char>, pat: Seq<char>, i: int)
    requires
        occurs_at(hay, pat, i),
        pat.len() > 0,
    ensures
        0 <= i < hay.len(),
        hay[i] == pat[0],
{
    assert(hay.subrange(i, i + pat.len())[0] == hay[i]);
}

/// Lower-casing neither makes nor removes a `<`.
proof fn lemma_lower_keeps_angle(s: Seq<char>, i: int)
    requires
        0 <= i < s.len(),
    ensures
        (lower(s)[i] == '<') == (s[i] == '<'),
{
}

/// Every opening tag starts with `<`.
proof fn lemma_open_tags_start_with_angle(k: int)
    ensures
        open_tag(k).len() > 0,
        open_tag(k)[0] == '<',
{
    reveal_strlit("<think>");
    reveal_strlit("<thinking>");
    reveal_strlit("<reasoning>");
    reveal_strlit("<thought>");
    reveal_strlit("<reflection>");
}

/// A text without `<` has no pair of tags of any kind.
proof fn lemma_plain_text_has_no_pair(s: Seq<char>, k: int)
    requires
        free_of(s, '<'),
    ensures
        next_pair(s, k) is None,
    decreases TAG_COUNT - k,
{
    if 0 <= k < TAG_COUNT {
        lemma_open_tags_start_with_angle(k);
        lemma_find_is_first(lower(s), open_tag(k), 0);
        if find(lower(s), open_tag(k), 0) is Some {
            let i = find(lower(s), open_tag(k), 0)->0;
            lemma_occurrence_starts(lower(s), open_tag(k), i);
            lemma_lower_keeps_angle(s, i);
        }
        lemma_plain_text_has_no_pair(s, k + 1);
    }
}

/// A text without `<` holds no reasoning markup, and stripping keeps it as
/// it is.
pub proof fn lemma_plain_text_is_kept(s: Seq<char>)
    requires
        free_of(s, '<'),
    ensures
        stripped(s) == s,
{
    lemma_plain_text_has_no_pair(s, 0);
}

/// A `<think>` block, its tags in any ASCII case, is removed with what it
/// encloses, where the text before it, inside it and after it holds no `<`:
/// what remains is the text before and after the block.
pub proof fn lemma_think_block_is_stripped(
    before: Seq<char>,
    open: Seq<char>,
    noise: Seq<char>,
    close: Seq<char>,
    after: Seq<char>,
)
    requires
        lower(open) == "<think>"@,
        lower(close) == "</think>"@,
        free_of(before, '<'),
        free_of(noise, '<'),
        free_of(after, '<'),
    ensures
        stripped(before + open + noise + close + after) == before + after,
{
    reveal_strlit("<think>");
    reveal_strlit("</think>");
    let t = before + open + noise + close + after;
    let low = lower(t);
    let o = "<think>"@;
    let c = "</think>"@;
    let start = before.len() as int;
    let inner = start + 7;
    let stop = inner + noise.len();
    let rest_at = stop + 8;
    assert(open.len() == 7) by {
        assert(lower(open).len() == open.len());
    }
    assert(close.len() == 8) by {
        assert(lower(close).len() == close.len());
    }
    assert(t.len() == rest_at + after.len());
    assert forall|i: int| 0 <= i < t.len() implies (low[i] == '<') == (i == start || i == stop) by {
        lemma_lower_keeps_angle(t, i);
        if i < start {
            assert(t[i] == before[i]);
        } else if i < inner {
            assert(t[i] == open[i - start]);
            lemma_lower_keeps_angle(open, i - start);
            assert(lower(open)[i - start] == o[i - start]);
            assert((o[i - start] == '<') == (i - start == 0));
        } else if i < stop {
            assert(t[i] == noise[i - inner]);
        } else if i < rest_at {
            assert(t[i] == close[i - stop]);
            lemma_lower_keeps_angle(close, i - stop);
            assert(lower(close)[i - stop] == c[i - stop]);
            assert((c[i - stop] == '<') == (i - stop == 0));
        } else {
            assert(t[i] == after[i - rest_at]);
        }
    }
    assert(low.subrange(start, inner) =~= o) by {
        assert forall|j: int| 0 <= j < 7 implies low.subrange(start, inner)[j] == o[j] by {
            assert(t[start + j] == open[j]);
            assert(lower(open)[j] == o[j]);
        }
    }
    assert(low.subrange(stop, rest_at) =~= c) by {
        assert forall|j: int| 0 <= j < 8 implies low.subrange(stop, rest_at)[j] == c[j] by {
            assert(t[stop + j] == close[j]);
            assert(lower(close)[j] == c[j]);
        }
    }
    assert(occurs_at(low, o, start));
    assert(occurs_at(low, c, stop));
    // The first opening tag stands at `start`.
    lemma_find_is_first(low, o, 0);
    let first = find(low, o, 0)->0;
    lemma_occurrence_starts(low, o, first);
    assert(first == start);
    // The first closing tag after it stands at `stop`.
    lemma_find_is_first(low, c, inner);
    let closing = find(low, c, inner)->0;
    lemma_occurrence_starts(low, c, closing);
    assert(closing == stop);
    // The last opening tag before it stands at `start` again.
    lemma_rfind_is_last(low, o, stop);
    let opening = rfind(low, o, stop)->0;
    lemma_occurrence_starts(low, o, opening);
    assert(opening == start);
    assert(tag_pair(t, 0) == Some((start, rest_at)));
    assert(next_pair(t, 0) == Some((start, rest_at)));
    assert(without(t, start, rest_at) =~= before + after);
    assert(free_of(before + after, '<')) by {
        assert forall|i: int| 0 <= i < (before + after).len() implies (before + after)[i]
            != '<' by {
            if i < start {
                assert((before + after)[i] == before[i]);
            } else {
                assert((before + after)[i] == after[i - start]);
            }
        }
    }
    lemma_plain_text_is_kept(before + after);
}

/// Where the skipping of JSON white space ends: every character passed
/// over is white space, and the one reached is not.
pub proof fn lemma_skip_json_spaces_stops(s: Seq<char>, from: int)
    requires
        0 <= from <= s.len(),
    ensures
        from <= skip_json_spaces(s, from) <= s.len(),
        forall|i: int| from <= i < skip_json_spaces(s, from) ==> is_json_space(s[i]),
        skip_json_spaces(s, from) < s.len() ==> !is_json_space(s[skip_json_spaces(s, from)]),
    decreases s.len() - from,
{
    if from < s.len() && is_json_space(s[from]) {
        lemma_skip_json_spaces_stops(s, from + 1);
    }
}

/// Where the dropping of JSON white space ends: every character passed over
/// is white space, and the one before the end reached is not.
pub proof fn lemma_drop_json_spaces_stops(s: Seq<char>, to: int)
    requires
        0 <= to <= s.len(),
    ensures
        0 <= drop_json_spaces(s, to) <= to,
        forall|i: int| drop_json_spaces(s, to) <= i < to ==> is_json_space(s[i]),
        drop_json_spaces(s, to) > 0 ==> !is_json_space(s[drop_json_spaces(s, to) - 1]),
    decreases to,
{
    if 0 < to && is_json_space(s[to - 1]) {
        lemma_drop_json_spaces_stops(s, to - 1);
    }
}

/// A text whose first character that is no white space is not `{` states no
/// verdict, whatever the parser would make of it.
pub proof fn lemma_text_must_open_with_brace(s: Seq<char>, at: int)
    requires
        0 <= at < s.len(),
        !is_json_space(s[at]),
        forall|i: int| 0 <= i <= at ==> s[i] != '{',
    ensures
        text_verdict(s) is None,
{
    lemma_skip_json_spaces_stops(s, 0);
    lemma_drop_json_spaces_stops(s, s.len() as int);
    let from = skip_json_spaces(s, 0);
    let to = drop_json_spaces(s, s.len() as int);
    assert(from <= at);
    assert(to > at);
    assert(json_trimmed(s).first() == s[from]);
}

/// A text whose last character that is no white space is not `}` states no
/// verdict, whatever the parser would make of it.
pub proof fn lemma_text_must_close_with_brace(s: Seq<char>, at: int)
    requires
        0 <= at < s.len(),
        !is_json_space(s[at]),
        forall|i: int| at <= i < s.len() ==> s[i] != '}',
    ensures
        text_verdict(s) is None,
{
    lemma_skip_json_spaces_stops(s, 0);
    lemma_drop_json_spaces_stops(s, s.len() as int);
    let from = skip_json_spaces(s, 0);
    let to = drop_json_spaces(s, s.len() as int);
    assert(from <= at);
    assert(to > at);
    assert(json_trimmed(s).last() == s[to - 1]);
}

/// A text without `{`, or without `}`, states no verdict.
pub proof fn lemma_text_needs_braces(s: Seq<char>)
    requires
        free_of(s, '{') || free_of(s, '}'),
    ensures
        text_verdict(s) is None,
{
    lemma_skip_json_spaces_stops(s, 0);
    lemma_drop_json_spaces_stops(s, s.len() as int);
    let from = skip_json_spaces(s, 0);
    let to = drop_json_spaces(s, s.len() as int);
    if from < to {
        assert(json_trimmed(s).first() == s[from]);
        assert(json_trimmed(s).last() == s[to - 1]);
    }
}

/// JSON white space around a text with the outline of an object changes
/// nothing in the verdict that it states.
pub proof fn lemma_padding_changes_nothing(pre: Seq<char>, object: Seq<char>, post: Seq<char>)
    requires
        forall|i: int| 0 <= i < pre.len() ==> is_json_space(pre[i]),
        forall|i: int| 0 <= i < post.len() ==> is_json_space(post[i]),
        is_object_text(object),
    ensures
        text_verdict(pre + object + post) == text_verdict(object),
{
    let s = pre + object + post;
    let first = pre.len() as int;
    let end = (pre.len() + object.len()) as int;
    lemma_skip_json_spaces_stops(s, 0);
    lemma_drop_json_spaces_stops(s, s.len() as int);
    assert(s[first] == object[0]);
    assert(s[end - 1] == object[object.len() - 1]);
    assert forall|i: int| 0 <= i < first implies is_json_space(s[i]) by {
        assert(s[i] == pre[i]);
    }
    assert forall|i: int| end <= i < s.len() implies is_json_space(s[i]) by {
        assert(s[i] == post[i - end]);
    }
    assert(skip_json_spaces(s, 0) == first);
    assert(drop_json_spaces(s, s.len() as int) == end);
    assert(json_trimmed(s) =~= object);
    lemma_skip_json_spaces_stops(object, 0);
    lemma_drop_json_spaces_stops(object, object.len() as int);
    assert(json_trimmed(object) =~= object);
}

/// What the walk finds is an opening brace, where it starts at a closing
/// brace or with some closing brace still open.
pub proof fn lemma_match_open_finds_brace(s: Seq<char>, at: int, depth: int)
    requires
        match_open(s, at, depth) is Some,
        depth >= 0,
        depth == 0 ==> s[at] == '}',
    ensures
        0 <= match_open(s, at, depth)->0 < s.len(),
        s[match_open(s, at, depth)->0] == '{',
    decreases at + 1,
{
    let d = if s[at] == '}' {
        depth + 1
    } else if s[at] == '{' {
        depth - 1
    } else {
        depth
    };
    if d != 0 {
        lemma_match_open_finds_brace(s, at - 1, d);
    }
}

/// A text without `{` holds no balanced object.
pub proof fn lemma_no_open_brace_no_object(s: Seq<char>, end: int)
    requires
        free_of(s, '{'),
    ensures
        last_object(s, end) is None,
    decreases end,
{
    if 0 < end <= s.len() {
        if s[end - 1] == '}' && match_open(s, end - 1, 0) is Some {
            lemma_match_open_finds_brace(s, end - 1, 0);
        }
        lemma_no_open_brace_no_object(s, end - 1);
    }
}

/// A reply without `{`, or without `}`, is inconclusive: none of the four
/// attempts finds a verdict in it, whatever else it holds.
pub proof fn lemma_reply_without_object_is_inconclusive(reply: Seq<char>)
    requires
        free_of(reply, '{') || free_of(reply, '}'),
    ensures
        normalized(reply) is None,
{
    let cleaned = stripped(reply);
    lemma_text_needs_braces(reply);
    if free_of(reply, '{') {
        lemma_stripping_adds_nothing(reply, '{');
        lemma_no_open_brace_no_object(reply, reply.len() as int);
        lemma_no_open_brace_no_object(cleaned, cleaned.len() as int);
    } else {
        lemma_stripping_adds_nothing(reply, '}');
        lemma_last_object_skips_plain_text(reply, 0, reply.len() as int);
        lemma_last_object_skips_plain_text(cleaned, 0, cleaned.len() as int);
    }
    lemma_text_needs_braces(cleaned);
}

/// The text of an object with the given inside: `{`, the inside, `}`.
pub open spec fn braced(inner: Seq<char>) -> Seq<char> {
    seq!['{'] + inner + seq!['}']
}

/// The walk through text without braces keeps its depth and goes on to the
/// brace that opens the object.
proof fn lemma_walk_through_inside(inner: Seq<char>, at: int)
    requires
        free_of(inner, '{'),
        free_of(inner, '}'),
        0 <= at <= inner.len(),
    ensures
        match_open(braced(inner), at, 1) == Some(0int),
    decreases at,
{
    let object = braced(inner);
    if at > 0 {
        assert(object[at] == inner[at - 1]);
        lemma_walk_through_inside(inner, at - 1);
    } else {
        assert(object[0] == '{');
    }
}

/// An object without braces inside is closed, and has the outline of an
/// object.
pub proof fn lemma_braced_is_closed(inner: Seq<char>)
    requires
        free_of(inner, '{'),
        free_of(inner, '}'),
    ensures
        is_closed_object(braced(inner)),
        is_object_text(braced(inner)),
{
    let object = braced(inner);
    assert(object.last() == '}');
    assert(object.first() == '{');
    lemma_walk_through_inside(inner, inner.len() as int);
}

/// A text put together of parts that are free of a character is free of it.
proof fn lemma_parts_free(a: Seq<char>, b: Seq<char>, c: char)
    requires
        free_of(a, c),
        free_of(b, c),
    ensures
        free_of(a + b, c),
{
    assert forall|i: int| 0 <= i < (a + b).len() implies (a + b)[i] != c by {
        if i < a.len() {
            assert((a + b)[i] == a[i]);
        } else {
            assert((a + b)[i] == b[i - a.len()]);
        }
    }
}

/// A verdict wrapped in a `<think>` block and prose is recovered as the
/// bare object states it. The reply is prose, a `<think>` block with its
/// tags in any ASCII case, prose, an object without braces inside, and prose
/// again. No part holds a `<`; the prose before the object holds no `{`, the
/// prose after it no `}`. Then the reply gives what the object alone gives:
/// the verdict that the object states, and none where it states none.
pub proof fn lemma_wrapped_verdict_is_recovered(
    before: Seq<char>,
    open: Seq<char>,
    noise: Seq<char>,
    close: Seq<char>,
    middle: Seq<char>,
    inner: Seq<char>,
    after: Seq<char>,
)
    requires
        lower(open) == "<think>"@,
        lower(close) == "</think>"@,
        free_of(before, '<') && free_of(before, '{'),
        free_of(noise, '<'),
        free_of(middle, '<') && free_of(middle, '{'),
        free_of(inner, '<') && free_of(inner, '{') && free_of(inner, '}'),
        free_of(after, '<') && free_of(after, '}'),
    ensures
        normalized(before + open + noise + close + (middle + braced(inner) + after))
            == text_verdict(braced(inner)),
        normalized(braced(inner)) == text_verdict(braced(inner)),
{
    reveal_strlit("<think>");
    let object = braced(inner);
    let rest = middle + object + after;
    let reply = before + open + noise + close + rest;
    let pre = before + middle;
    let empty = Seq::<char>::empty();
    lemma_braced_is_closed(inner);
    assert(free_of(object, '<')) by {
        lemma_parts_free(seq!['{'], inner, '<');
        lemma_parts_free(seq!['{'] + inner, seq!['}'], '<');
    }
    lemma_parts_free(middle, object, '<');
    lemma_parts_free(middle + object, after, '<');
    lemma_parts_free(before, middle, '{');

    // The bare object: every attempt reads the object itself.
    lemma_plain_text_is_kept(object);
    assert(empty + object + empty =~= object);
    lemma_wrapped_object_is_found(empty, object, empty);

    // The reply as it is does not start with a brace.
    assert(open.len() == 7) by {
        assert(lower(open).len() == open.len());
    }
    assert(reply[before.len() as int] == open[0]);
    assert(lower(open)[0] == '<');
    assert forall|i: int| 0 <= i <= before.len() implies reply[i] != '{' by {
        if i < before.len() {
            assert(reply[i] == before[i]);
        }
    }
    lemma_text_must_open_with_brace(reply, before.len() as int);

    // Without its markup the reply is the prose around the object.
    lemma_think_block_is_stripped(before, open, noise, close, rest);
    let cleaned = before + rest;
    assert(cleaned =~= pre + object + after);
    if exists|i: int| 0 <= i < pre.len() && !is_json_space(pre[i]) {
        let i = choose|i: int| 0 <= i < pre.len() && !is_json_space(pre[i]);
        assert forall|j: int| 0 <= j <= i implies cleaned[j] != '{' by {
            assert(cleaned[j] == pre[j]);
        }
        assert(cleaned[i] == pre[i]);
        lemma_text_must_open_with_brace(cleaned, i);
    } else if exists|i: int| 0 <= i < after.len() && !is_json_space(after[i]) {
        let i = choose|i: int| 0 <= i < after.len() && !is_json_space(after[i]);
        let base = (pre.len() + object.len()) as int;
        assert forall|j: int| base + i <= j < cleaned.len() implies cleaned[j] != '}' by {
            assert(cleaned[j] == after[j - base]);
        }
        assert(cleaned[base + i] == after[i]);
        lemma_text_must_close_with_brace(cleaned, base + i);
    } else {
        lemma_padding_changes_nothing(pre, object, after);
    }
    lemma_wrapped_object_is_found(pre, object, after);

    // In the reply itself the object is the last balanced one too.
    let lead = before + open + noise + close + middle;
    assert(reply =~= lead + object + after);
    lemma_wrapped_object_is_found(lead, object, after);
}

} // verus!
