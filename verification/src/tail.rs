//! The tail of a transcript: which part of the file is read, and the lines
//! that its bytes hold.

use vstd::prelude::*;
use vstd::slice::slice_subrange;
use vstd::string::StrSliceExecFns;
use vstd::utf8::{decode_utf8, valid_utf8};
use crate::line::TranscriptLine;
use crate::text::{chars_of, decode, is_space, lemma_trimmed_is_tight, trim_bounds, trimmed};

verus! {

/// How many bytes at the end of the transcript are read.
pub const TAIL_READ_BYTES: u64 = 10 * 1024;

/// Where reading starts, and whether the first line read is cut off and so
/// left out.
#[derive(Debug, Clone, Copy, PartialEq, Eq, Structural)]
pub struct TailPlan {
    pub start: u64,
    pub drop_first_line: bool,
}

/// The plan for a file of a given length: a file within the window is read
/// whole; of a longer one the last window is read, without its first line.
pub open spec fn tail_plan(file_len: u64) -> TailPlan {
    if file_len <= TAIL_READ_BYTES {
        TailPlan { start: 0, drop_first_line: false }
    } else {
        TailPlan { start: (file_len - TAIL_READ_BYTES) as u64, drop_first_line: true }
    }
}

/// Where the line that starts at `from` ends: just after its newline, or at
/// the end of the bytes where it has none.
pub open spec fn line_end(bytes: Seq<u8>, from: int) -> int
    decreases bytes.len() - from,
{
    if from < 0 || from >= bytes.len() {
        bytes.len() as int
    } else if bytes[from] == 10u8 {
        from + 1
    } else {
        line_end(bytes, from + 1)
    }
}

/// The texts of the lines in `bytes` from position `from` on. With `skip`
/// the first line is left out, whatever it holds. Reading ends at the first
/// other line that is not valid UTF-8. Each line read is trimmed, and left
/// out where nothing remains.
pub open spec fn tail_texts(bytes: Seq<u8>, from: int, skip: bool) -> Seq<Seq<char>>
    decreases bytes.len() - from,
{
    if from < 0 || from >= bytes.len() {
        Seq::empty()
    } else {
        let end = line_end(bytes, from);
        let segment = bytes.subrange(from, end);
        proof {
            lemma_line_end_bounds(bytes, from);
        }
        if skip {
            tail_texts(bytes, end, false)
        } else if !valid_utf8(segment) {
            Seq::empty()
        } else if trimmed(decode_utf8(segment)).len() == 0 {
            tail_texts(bytes, end, false)
        } else {
            seq![trimmed(decode_utf8(segment))] + tail_texts(bytes, end, false)
        }
    }
}

/// The lines are those of the texts, one for one and in order.
pub open spec fn lines_of(lines: Seq<TranscriptLine>, texts: Seq<Seq<char>>) -> bool {
    &&& lines.len() == texts.len()
    &&& forall|i: int| 0 <= i < lines.len() ==> (#[trigger] lines[i]).of_text(texts[i])
}

/// A line that starts inside the bytes ends after its start and within them.
pub proof fn lemma_line_end_bounds(bytes: Seq<u8>, from: int)
    requires
        0 <= from < bytes.len(),
    ensures
        from < line_end(bytes, from) <= bytes.len(),
    decreases bytes.len() - from,
{
    if bytes[from] != 10u8 {
        if from + 1 < bytes.len() {
            lemma_line_end_bounds(bytes, from + 1);
        } else {
            assert(line_end(bytes, from + 1) == bytes.len());
        }
    }
}

/// A file within the window loses no line to truncation: read from its
/// start, its first line is kept like every other, trimmed, unless it is
/// blank.
pub proof fn lemma_whole_file_keeps_first_line(bytes: Seq<u8>)
    requires
        bytes.len() > 0,
        valid_utf8(bytes.subrange(0, line_end(bytes, 0))),
    ensures
        tail_texts(bytes, 0, false) == if trimmed(
            decode_utf8(bytes.subrange(0, line_end(bytes, 0))),
        ).len() == 0 {
            tail_texts(bytes, line_end(bytes, 0), false)
        } else {
            seq![trimmed(decode_utf8(bytes.subrange(0, line_end(bytes, 0))))] + tail_texts(
                bytes,
                line_end(bytes, 0),
                false,
            )
        },
{
}

/// Of a window that starts inside a longer file the first line is always
/// left out, whatever it holds, be it a whole line, a blank one or the rest
/// of a character: the lines are those that follow it.
pub proof fn lemma_cut_window_drops_first_line(bytes: Seq<u8>)
    requires
        bytes.len() > 0,
    ensures
        tail_texts(bytes, 0, true) == tail_texts(bytes, line_end(bytes, 0), false),
{
}

/// A file longer than the window is read from its last `TAIL_READ_BYTES`
/// bytes, and the first line read is dropped; a shorter one is read whole.
pub proof fn lemma_plan_covers_the_tail(file_len: u64)
    ensures
        file_len <= TAIL_READ_BYTES ==> tail_plan(file_len).start == 0 && !tail_plan(
            file_len,
        ).drop_first_line,
        file_len > TAIL_READ_BYTES ==> tail_plan(file_len).start + TAIL_READ_BYTES == file_len
            && tail_plan(file_len).drop_first_line,
{
}

/// The text that one line of bytes gives: none where the line is blank, and
/// none, with the end of reading, where the line is not valid UTF-8.
pub open spec fn line_text(line: Seq<u8>) -> Option<Seq<char>> {
    if valid_utf8(line) && trimmed(decode_utf8(line)).len() > 0 {
        Some(trimmed(decode_utf8(line)))
    } else {
        None
    }
}

/// The end of a line does not depend on the bytes before the line.
proof fn lemma_line_end_shift(prefix: Seq<u8>, rest: Seq<u8>, k: int)
    requires
        0 <= k <= rest.len(),
    ensures
        line_end(prefix + rest, prefix.len() + k) == prefix.len() + line_end(rest, k),
    decreases rest.len() - k,
{
    if k < rest.len() {
        assert((prefix + rest)[prefix.len() + k] == rest[k]);
        if rest[k] != 10u8 {
            lemma_line_end_shift(prefix, rest, k + 1);
        }
    }
}

/// The lines read from a position on do not depend on the bytes before it.
proof fn lemma_tail_texts_shift(prefix: Seq<u8>, rest: Seq<u8>, k: int, skip: bool)
    requires
        0 <= k <= rest.len(),
    ensures
        tail_texts(prefix + rest, prefix.len() + k, skip) == tail_texts(rest, k, skip),
    decreases rest.len() - k,
{
    if k < rest.len() {
        lemma_line_end_shift(prefix, rest, k);
        lemma_line_end_bounds(rest, k);
        let end = line_end(rest, k);
        assert((prefix + rest).subrange(prefix.len() + k, prefix.len() + end) =~= rest.subrange(
            k,
            end,
        ));
        lemma_tail_texts_shift(prefix, rest, end, false);
    }
}

/// A line without a newline inside ends at its own newline.
proof fn lemma_line_end_at_newline(bytes: Seq<u8>, from: int, at: int)
    requires
        0 <= from <= at < bytes.len(),
        bytes[at] == 10u8,
        forall|i: int| from <= i < at ==> bytes[i] != 10u8,
    ensures
        line_end(bytes, from) == at + 1,
    decreases at - from,
{
    if from < at {
        lemma_line_end_at_newline(bytes, from + 1, at);
    }
}

/// Bytes without a newline are one line, to their end.
proof fn lemma_line_end_without_newline(bytes: Seq<u8>, from: int)
    requires
        0 <= from <= bytes.len(),
        forall|i: int| from <= i < bytes.len() ==> bytes[i] != 10u8,
    ensures
        line_end(bytes, from) == bytes.len(),
    decreases bytes.len() - from,
{
    if from < bytes.len() {
        lemma_line_end_without_newline(bytes, from + 1);
    }
}

/// The bytes are read line by line. Where they start with a line, ended by
/// its newline, and go on with other bytes, the lines read are the text of
/// that line, if it gives one, before the lines of the other bytes. The line
/// is passed over where it is to be skipped or blank; and where it is not
/// valid UTF-8, nothing is read from it on.
pub proof fn lemma_tail_is_read_line_by_line(line: Seq<u8>, rest: Seq<u8>, skip: bool)
    requires
        forall|i: int| 0 <= i < line.len() ==> line[i] != 10u8,
    ensures
        tail_texts(line + seq![10u8] + rest, 0, skip) == if skip {
            tail_texts(rest, 0, false)
        } else if !valid_utf8(line + seq![10u8]) {
            Seq::empty()
        } else {
            match line_text(line + seq![10u8]) {
                Some(text) => seq![text] + tail_texts(rest, 0, false),
                None => tail_texts(rest, 0, false),
            }
        },
{
    let first = line + seq![10u8];
    let bytes = first + rest;
    assert(bytes[line.len() as int] == 10u8);
    assert forall|i: int| 0 <= i < line.len() implies bytes[i] != 10u8 by {
        assert(bytes[i] == line[i]);
    }
    lemma_line_end_at_newline(bytes, 0, line.len() as int);
    assert(bytes.subrange(0, first.len() as int) =~= first);
    lemma_tail_texts_shift(first, rest, 0, false);
}

/// The last line needs no newline: bytes without one are a single line, and
/// give its text, if it gives one and is not to be skipped.
pub proof fn lemma_last_line_needs_no_newline(line: Seq<u8>, skip: bool)
    requires
        forall|i: int| 0 <= i < line.len() ==> line[i] != 10u8,
    ensures
        tail_texts(line, 0, skip) == if skip {
            Seq::<Seq<char>>::empty()
        } else {
            match line_text(line) {
                Some(text) => seq![text],
                None => Seq::<Seq<char>>::empty(),
            }
        },
{
    if line.len() > 0 {
        lemma_line_end_without_newline(line, 0);
        assert(line.subrange(0, line.len() as int) =~= line);
        assert(tail_texts(line, line.len() as int, false) =~= Seq::<Seq<char>>::empty());
        if !skip && line_text(line) is Some {
            assert(seq![line_text(line)->0] + Seq::<Seq<char>>::empty() =~= seq![
                line_text(line)->0,
            ]);
        }
    }
}

/// Every line read is a text that is not empty and that neither starts nor
/// ends with white space.
pub proof fn lemma_tail_texts_are_trimmed(bytes: Seq<u8>, from: int, skip: bool)
    ensures
        forall|i: int|
            0 <= i < tail_texts(bytes, from, skip).len() ==> {
                let text = #[trigger] tail_texts(bytes, from, skip)[i];
                text.len() > 0 && !is_space(text.first()) && !is_space(text.last())
            },
    decreases bytes.len() - from,
{
    if 0 <= from < bytes.len() {
        lemma_line_end_bounds(bytes, from);
        let end = line_end(bytes, from);
        let segment = bytes.subrange(from, end);
        if skip || valid_utf8(segment) {
            let text = trimmed(decode_utf8(segment));
            let rest = tail_texts(bytes, end, false);
            lemma_tail_texts_are_trimmed(bytes, end, false);
            lemma_trimmed_is_tight(decode_utf8(segment));
            if !skip && text.len() > 0 {
                assert forall|i: int| 0 <= i < (seq![text] + rest).len() implies {
                    let line = #[trigger] (seq![text] + rest)[i];
                    line.len() > 0 && !is_space(line.first()) && !is_space(line.last())
                } by {
                    if i > 0 {
                        assert((seq![text] + rest)[i] == rest[i - 1]);
                    }
                }
            }
        }
    }
}

/// Decides which part of a file of the given length to read.
pub fn plan_tail(file_len: u64) -> (plan: TailPlan)
    ensures
        plan == tail_plan(file_len),
{
    if file_len <= TAIL_READ_BYTES {
        TailPlan { start: 0, drop_first_line: false }
    } else {
        TailPlan { start: file_len - TAIL_READ_BYTES, drop_first_line: true }
    }
}

/// Finds the end of the line that starts at `from`.
fn find_line_end(bytes: &[u8], from: usize) -> (end: usize)
    requires
        from < bytes.len(),
    ensures
        end == line_end(bytes@, from as int),
        from < end <= bytes.len(),
{
    let mut i: usize = from;
    while i < bytes.len() && bytes[i] != 10u8
        invariant
            from <= i <= bytes.len(),
            line_end(bytes@, from as int) == line_end(bytes@, i as int),
        decreases bytes.len() - i,
    {
        i += 1;
    }
    if i < bytes.len() {
        i + 1
    } else {
        i
    }
}

/// Reads the lines that the bytes of a tail window hold.
pub fn parse_tail(window: &[u8], drop_first_line: bool) -> (lines: Vec<TranscriptLine>)
    ensures
        lines_of(lines@, tail_texts(window@, 0, drop_first_line)),
{
    let mut lines: Vec<TranscriptLine> = Vec::new();
    let ghost mut done: Seq<Seq<char>> = Seq::empty();
    let mut pos: usize = 0;
    let mut skip: bool = drop_first_line;
    while pos < window.len()
        invariant
            pos <= window.len(),
            lines_of(lines@, done),
            tail_texts(window@, 0, drop_first_line) == done + tail_texts(window@, pos as int, skip),
        decreases window.len() - pos,
    {
        let end = find_line_end(window, pos);
        if !skip {
            let text = match decode(slice_subrange(window, pos, end)) {
                Some(text) => text,
                None => {
                    assert(done + Seq::<Seq<char>>::empty() =~= done);
                    return lines;
                },
            };
            let chars = chars_of(text);
            let (from, to) = trim_bounds(chars.as_slice());
            if from < to {
                let kept = text.substring_char(from, to);
                lines.push(TranscriptLine::parse(kept));
                proof {
                    let rest = tail_texts(window@, end as int, false);
                    assert(done + (seq![kept@] + rest) =~= done.push(kept@) + rest);
                    done = done.push(kept@);
                }
            }
        }
        skip = false;
        pos = end;
    }
    assert(done + Seq::<Seq<char>>::empty() =~= done);
    lines
}

} // verus!
