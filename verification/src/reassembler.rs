//! Cutting a stream of bytes into lines of text.
//!
//! Bytes arrive in chunks of any size. Each chunk is read as UTF-8, with the
//! replacement character for what is not, and added to the text kept from
//! before. Every newline in that text ends a line; a line is handed on
//! trimmed, unless nothing is left of it. What follows the last newline is
//! kept for the next chunk.

use crate::text::{push_str, string_of, texts};
use vstd::prelude::*;
use vstd::slice::slice_subrange;

verus! {

/// What `String::from_utf8_lossy` makes of a run of bytes.
pub uninterp spec fn lossy_text(bytes: Seq<u8>) -> Seq<char>;

/// `String::from_utf8_lossy`: the text that the bytes encode, with the
/// replacement character in place of each part that is not UTF-8. Claimed
/// here: the text depends on the bytes alone, and bytes that are UTF-8
/// throughout give exactly the text that they encode.
#[verifier::external_body]
fn decode_lossy(bytes: &[u8]) -> (text: String)
    ensures
        text@ == lossy_text(bytes@),
        vstd::utf8::valid_utf8(bytes@) ==> text@ == vstd::utf8::decode_utf8(bytes@),
{
    String::from_utf8_lossy(bytes).into_owned()
}

/// The characters that count as white space: those with the Unicode
/// property `White_Space`.
pub open spec fn is_white_space(c: char) -> bool {
    let code = c as u32;
    ||| 0x09 <= code <= 0x0D
    ||| code == 0x20
    ||| code == 0x85
    ||| code == 0xA0
    ||| code == 0x1680
    ||| 0x2000 <= code <= 0x200A
    ||| code == 0x2028
    ||| code == 0x2029
    ||| code == 0x202F
    ||| code == 0x205F
    ||| code == 0x3000
}

/// Whether a character counts as white space.
pub fn white_space(c: char) -> (white: bool)
    ensures
        white == is_white_space(c),
{
    let code: u32 = c as u32;
    (0x09 <= code && code <= 0x0D) || code == 0x20 || code == 0x85 || code == 0xA0 || code
        == 0x1680 || (0x2000 <= code && code <= 0x200A) || code == 0x2028 || code == 0x2029
        || code == 0x202F || code == 0x205F || code == 0x3000
}

/// A text without the white space at its start.
pub open spec fn trim_start(text: Seq<char>) -> Seq<char>
    decreases text.len(),
{
    if text.len() > 0 && is_white_space(text[0]) {
        trim_start(text.drop_first())
    } else {
        text
    }
}

/// A text without the white space at its end.
pub open spec fn trim_end(text: Seq<char>) -> Seq<char>
    decreases text.len(),
{
    if text.len() > 0 && is_white_space(text.last()) {
        trim_end(text.drop_last())
    } else {
        text
    }
}

/// A text without the white space at either end.
pub open spec fn trimmed(text: Seq<char>) -> Seq<char> {
    trim_end(trim_start(text))
}

/// The place of the first newline at or after `pos`, or the end of the text.
pub open spec fn line_end(text: Seq<char>, pos: int) -> int
    decreases text.len() - pos,
{
    if 0 <= pos < text.len() && text[pos] != '\n' {
        line_end(text, pos + 1)
    } else {
        pos
    }
}

/// The lines that the text from `pos` on yields: each stretch up to a
/// newline, trimmed, unless nothing is left of it.
pub open spec fn lines_from(text: Seq<char>, pos: int) -> Seq<Seq<char>>
    decreases text.len() - pos,
{
    let end = line_end(text, pos);
    if pos < 0 || end < pos || end >= text.len() {
        Seq::empty()
    } else {
        let line = trimmed(text.subrange(pos, end));
        let rest = lines_from(text, end + 1);
        if line.len() == 0 {
            rest
        } else {
            seq![line] + rest
        }
    }
}

/// What follows the last newline of the text from `pos` on.
pub open spec fn pending_from(text: Seq<char>, pos: int) -> Seq<char>
    decreases text.len() - pos,
{
    let end = line_end(text, pos);
    if pos < 0 || end < pos || end >= text.len() {
        text.skip(pos)
    } else {
        pending_from(text, end + 1)
    }
}

/// The lines that a text yields.
pub open spec fn complete_lines(text: Seq<char>) -> Seq<Seq<char>> {
    lines_from(text, 0)
}

/// The part of a text that no newline has ended yet.
pub open spec fn pending(text: Seq<char>) -> Seq<char> {
    pending_from(text, 0)
}

/// Finds the first newline at or after `pos`.
fn find_newline(text: &[char], pos: usize) -> (end: usize)
    requires
        pos <= text.len(),
    ensures
        end == line_end(text@, pos as int),
        pos <= end <= text.len(),
{
    let mut at: usize = pos;
    while at < text.len() && text[at] != '\n'
        invariant
            pos <= at <= text.len(),
            line_end(text@, pos as int) == line_end(text@, at as int),
        decreases text.len() - at,
    {
        at += 1;
    }
    at
}

/// Finds what is left of a stretch of text when the white space at its ends
/// is taken off.
fn trim_range(text: &[char], from: usize, to: usize) -> (range: (usize, usize))
    requires
        from <= to <= text.len(),
    ensures
        from <= range.0 <= range.1 <= to,
        text@.subrange(range.0 as int, range.1 as int) == trimmed(
            text@.subrange(from as int, to as int),
        ),
{
    let mut first: usize = from;
    while first < to && white_space(text[first])
        invariant
            from <= first <= to <= text.len(),
            trim_start(text@.subrange(from as int, to as int)) == trim_start(
                text@.subrange(first as int, to as int),
            ),
        decreases to - first,
    {
        assert(text@.subrange(first as int, to as int).drop_first() =~= text@.subrange(
            first + 1,
            to as int,
        ));
        first += 1;
    }
    let mut last: usize = to;
    while last > first && white_space(text[last - 1])
        invariant
            first <= last <= to <= text.len(),
            trim_end(text@.subrange(first as int, to as int)) == trim_end(
                text@.subrange(first as int, last as int),
            ),
        decreases last - first,
    {
        assert(text@.subrange(first as int, last as int).drop_last() =~= text@.subrange(
            first as int,
            last - 1,
        ));
        last -= 1;
    }
    (first, last)
}

/// Text received and not yet ended by a newline.
#[derive(Debug)]
pub struct LineReassembler {
    buffer: Vec<char>,
}

impl View for LineReassembler {
    type V = Seq<char>;

    closed spec fn view(&self) -> Seq<char> {
        self.buffer@
    }
}

impl LineReassembler {
    /// A reassembler that holds no text.
    pub fn new() -> (reassembler: Self)
        ensures
            reassembler@ == Seq::<char>::empty(),
    {
        LineReassembler { buffer: Vec::new() }
    }

    /// The number of characters held back for the next chunk.
    pub fn pending_len(&self) -> (n: usize)
        ensures
            n == self@.len(),
    {
        self.buffer.len()
    }

    /// Takes a chunk of bytes and returns the lines that it completes, in
    /// order; what follows the last newline is kept. The bytes are read as
    /// UTF-8, with the replacement character for what is not.
    pub fn feed(&mut self, bytes: &[u8]) -> (lines: Vec<String>)
        ensures
            texts(lines@) == complete_lines(old(self)@ + lossy_text(bytes@)),
            final(self)@ == pending(old(self)@ + lossy_text(bytes@)),
            vstd::utf8::valid_utf8(bytes@) ==> lossy_text(bytes@) == vstd::utf8::decode_utf8(
                bytes@,
            ),
    {
        let chunk = decode_lossy(bytes);
        self.feed_text(chunk.as_str())
    }

    /// Takes a chunk of text and returns the lines that it completes, in
    /// order; what follows the last newline is kept.
    pub fn feed_text(&mut self, chunk: &str) -> (lines: Vec<String>)
        ensures
            texts(lines@) == complete_lines(old(self)@ + chunk@),
            final(self)@ == pending(old(self)@ + chunk@),
    {
        push_str(&mut self.buffer, chunk);
        let ghost all = self.buffer@;
        let mut lines: Vec<String> = Vec::new();
        let mut start: usize = 0;
        let mut end: usize = find_newline(self.buffer.as_slice(), 0);
        assert(texts(lines@) =~= Seq::<Seq<char>>::empty());
        while end < self.buffer.len()
            invariant
                self.buffer@ == all,
                start <= end <= all.len(),
                end == line_end(all, start as int),
                complete_lines(all) == texts(lines@) + lines_from(all, start as int),
                pending(all) == pending_from(all, start as int),
            decreases all.len() - start,
        {
            let (first, last) = trim_range(self.buffer.as_slice(), start, end);
            if first < last {
                let ghost before = texts(lines@);
                lines.push(string_of(slice_subrange(self.buffer.as_slice(), first, last)));
                assert(texts(lines@) =~= before + seq![
                    trimmed(all.subrange(start as int, end as int)),
                ]);
            }
            start = end + 1;
            end = find_newline(self.buffer.as_slice(), start);
        }
        self.buffer = self.buffer.split_off(start);
        lines
    }
}

/// The first newline at or after `pos` lies between `pos` and the end of
/// the text, and where it lies within a text it is the same in any longer one.
proof fn line_end_in_prefix(head: Seq<char>, tail: Seq<char>, pos: int)
    requires
        0 <= pos <= head.len(),
    ensures
        pos <= line_end(head, pos) <= head.len(),
        line_end(head, pos) < head.len() ==> line_end(head + tail, pos) == line_end(head, pos),
    decreases head.len() - pos,
{
    if pos < head.len() {
        assert((head + tail)[pos] == head[pos]);
        if head[pos] != '\n' {
            line_end_in_prefix(head, tail, pos + 1);
        }
    }
}

/// Leaving out the first `cut` characters moves every newline by `cut`.
proof fn line_end_after_skip(text: Seq<char>, cut: int, pos: int)
    requires
        0 <= cut <= pos <= text.len(),
    ensures
        line_end(text, pos) == cut + line_end(text.skip(cut), pos - cut),
    decreases text.len() - pos,
{
    if pos < text.len() {
        assert(text.skip(cut)[pos - cut] == text[pos]);
        if text[pos] != '\n' {
            line_end_after_skip(text, cut, pos + 1);
        }
    }
}

/// Leaving out the first `cut` characters changes neither the lines that
/// the rest yields nor what is left pending.
proof fn lines_after_skip(text: Seq<char>, cut: int, pos: int)
    requires
        0 <= cut <= pos <= text.len(),
    ensures
        lines_from(text, pos) == lines_from(text.skip(cut), pos - cut),
        pending_from(text, pos) == pending_from(text.skip(cut), pos - cut),
    decreases text.len() - pos,
{
    let end = line_end(text, pos);
    line_end_after_skip(text, cut, pos);
    line_end_in_prefix(text, Seq::empty(), pos);
    if end < text.len() {
        lines_after_skip(text, cut, end + 1);
        assert(text.subrange(pos, end) =~= text.skip(cut).subrange(pos - cut, end - cut));
    } else {
        assert(text.skip(pos) =~= text.skip(cut).skip(pos - cut));
    }
}

/// What a text and its continuation yield from `pos` on is what the text
/// yields from there, followed by what its pending part and the continuation
/// yield together.
proof fn lines_of_continued_text(head: Seq<char>, tail: Seq<char>, pos: int)
    requires
        0 <= pos <= head.len(),
    ensures
        lines_from(head + tail, pos) == lines_from(head, pos) + lines_from(
            pending_from(head, pos) + tail,
            0,
        ),
        pending_from(head + tail, pos) == pending_from(pending_from(head, pos) + tail, 0),
    decreases head.len() - pos,
{
    let end = line_end(head, pos);
    line_end_in_prefix(head, tail, pos);
    if end < head.len() {
        lines_of_continued_text(head, tail, end + 1);
        assert((head + tail).subrange(pos, end) =~= head.subrange(pos, end));
        let line = trimmed(head.subrange(pos, end));
        let rest = lines_from(head, end + 1);
        let more = lines_from(pending_from(head, end + 1) + tail, 0);
        assert((seq![line] + rest) + more =~= seq![line] + (rest + more));
    } else {
        lines_after_skip(head + tail, pos, pos);
        assert((head + tail).skip(pos) =~= head.skip(pos) + tail);
        assert(lines_from(head, pos) + lines_from(head.skip(pos) + tail, 0) =~= lines_from(
            head.skip(pos) + tail,
            0,
        ));
    }
}

/// How a stream is cut into chunks makes no difference: the lines of a text
/// that came in two parts are the lines of the first part, followed by the
/// lines that its pending part yields with the second, and the same text is
/// left pending.
pub proof fn chunks_make_no_difference(first: Seq<char>, second: Seq<char>)
    ensures
        complete_lines(first + second) == complete_lines(first) + complete_lines(
            pending(first) + second,
        ),
        pending(first + second) == pending(pending(first) + second),
{
    lines_of_continued_text(first, second, 0);
}

/// Where no newline stands from `pos` up to `end`, the first newline at or
/// after `pos` is the first at or after `end`.
proof fn line_end_past_clean_text(text: Seq<char>, pos: int, end: int)
    requires
        0 <= pos <= end <= text.len(),
        forall|i: int| pos <= i < end ==> #[trigger] text[i] != '\n',
    ensures
        line_end(text, pos) == line_end(text, end),
    decreases end - pos,
{
    if pos < end {
        line_end_past_clean_text(text, pos + 1, end);
    }
}

/// A text that holds no newline and has no white space at either end, with a
/// newline after it, yields itself as its one line and leaves nothing
/// pending.
pub proof fn one_line_comes_out_whole(line: Seq<char>)
    requires
        line.len() > 0,
        forall|i: int| 0 <= i < line.len() ==> #[trigger] line[i] != '\n',
        !is_white_space(line[0]),
        !is_white_space(line.last()),
    ensures
        complete_lines(line.push('\n')) == seq![line],
        pending(line.push('\n')) == Seq::<char>::empty(),
{
    let text = line.push('\n');
    let end = line.len() as int;
    assert forall|i: int| 0 <= i < end implies #[trigger] text[i] != '\n' by {
        assert(text[i] == line[i]);
    }
    line_end_past_clean_text(text, 0, end);
    assert(text[end] == '\n');
    assert(line_end(text, end) == end);
    assert(text.subrange(0, end) =~= line);
    assert(trim_start(line) == line);
    assert(trim_end(line) == line);
    assert(line_end(text, end + 1) == end + 1);
    assert(lines_from(text, end + 1) =~= Seq::<Seq<char>>::empty());
    assert(seq![line] + Seq::<Seq<char>>::empty() =~= seq![line]);
    assert(pending_from(text, end + 1) =~= Seq::<char>::empty());
}

} // verus!
