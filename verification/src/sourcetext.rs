//! From byte offsets in a source file to lines and columns.
//!
//! A line ends at a line feed, at a carriage return, or at a carriage return
//! with a line feed directly after it, which together end one line. The text
//! after the last line end is a line too, even where it is empty.

use crate::sourcepos::{Pos, Span};
use vstd::prelude::*;
use vstd::slice::slice_subrange;

verus! {

/// The line feed.
pub const LF: u8 = 0x0a;

/// The carriage return.
pub const CR: u8 = 0x0d;

/// A decoded position within a source file.
#[derive(Clone, Copy, Debug, PartialEq, Eq, PartialOrd, Ord, Structural)]
pub struct TextPos {
    /// The number of the line, counted from 0.
    pub line: u32,
    /// The offset in bytes from the start of the line.
    pub byte: u32,
}

/// A decoded range within a source file.
#[derive(Clone, Copy, Debug, PartialEq, Eq, Structural)]
pub struct TextSpan {
    /// The first character of the range.
    pub start: TextPos,
    /// The character after the last one of the range.
    pub end: TextPos,
}

/// True if a line ends with the byte at `at`: a line feed, or a carriage return
/// that has no line feed directly after it.
pub open spec fn is_line_break(text: Seq<u8>, at: int) -> bool {
    &&& 0 <= at < text.len()
    &&& (text[at] == LF || (text[at] == CR && !(at + 1 < text.len() && text[at + 1] == LF)))
}

/// The offsets at which the lines that begin at or before `upto` start, in
/// order: 0, and each offset directly after a line break.
pub open spec fn line_starts(text: Seq<u8>, upto: int) -> Seq<int>
    decreases upto,
{
    if upto <= 0 {
        seq![0int]
    } else if is_line_break(text, upto - 1) {
        line_starts(text, upto - 1).push(upto)
    } else {
        line_starts(text, upto - 1)
    }
}

/// The offset at or after `from` where the text of a line stops: the first
/// carriage return or line feed, or the end of the text.
pub open spec fn line_end(text: Seq<u8>, from: int) -> int
    decreases text.len() - from,
{
    if 0 <= from < text.len() && text[from] != LF && text[from] != CR {
        line_end(text, from + 1)
    } else {
        from
    }
}

/// The number of lines in the text. A text without a line break is one line.
pub open spec fn line_count(text: Seq<u8>) -> int {
    line_starts(text, text.len() as int).len() as int
}

/// The line and the offset within it of the position `pos`, for a text whose
/// first byte is at position 1.
///
/// The position directly after the last byte counts: it is the end of the
/// input. Position 0 and positions further out are none.
pub open spec fn position_in(text: Seq<u8>, pos: Pos) -> Option<TextPos> {
    if 1 <= pos.0 <= text.len() + 1 {
        let offset = pos.0 - 1;
        let starts = line_starts(text, offset);
        Some(TextPos { line: (starts.len() - 1) as u32, byte: (offset - starts.last()) as u32 })
    } else {
        None
    }
}

/// The lines and offsets of both ends of the range `span`. There is none
/// where either end has no position in the text.
pub open spec fn span_in(text: Seq<u8>, span: Span) -> Option<TextSpan> {
    match (position_in(text, span.start), position_in(text, span.end)) {
        (Some(start), Some(end)) => Some(TextSpan { start, end }),
        _ => None,
    }
}

/// The bytes of the line with the number `index`, without what ends the
/// line. A line that the text does not have is empty.
pub open spec fn line_content(text: Seq<u8>, index: int) -> Seq<u8> {
    let starts = line_starts(text, text.len() as int);
    if 0 <= index < starts.len() {
        text.subrange(starts[index], line_end(text, starts[index]))
    } else {
        Seq::empty()
    }
}

/// The starts of the lines are at most `upto`, grow strictly, and begin with
/// 0; there are at most `upto + 1` of them.
pub proof fn lemma_line_starts_sorted(text: Seq<u8>, upto: int)
    ensures
        1 <= line_starts(text, upto).len(),
        upto >= 0 ==> line_starts(text, upto).len() <= upto + 1,
        line_starts(text, upto)[0] == 0,
        forall|i: int|
            0 <= i < line_starts(text, upto).len() ==> 0 <= #[trigger] line_starts(text, upto)[i],
        forall|i: int|
            0 <= i < line_starts(text, upto).len() && upto >= 0 ==> #[trigger] line_starts(
                text,
                upto,
            )[i] <= upto,
        forall|i: int, j: int|
            0 <= i < j < line_starts(text, upto).len() ==> #[trigger] line_starts(text, upto)[i]
                < #[trigger] line_starts(text, upto)[j],
    decreases upto,
{
    if upto > 0 {
        lemma_line_starts_sorted(text, upto - 1);
    }
}

/// The starts up to an offset are the first of the starts up to a later
/// offset, and the others lie after the earlier offset.
pub proof fn lemma_line_starts_prefix(text: Seq<u8>, a: int, b: int)
    requires
        0 <= a <= b,
    ensures
        line_starts(text, a).len() <= line_starts(text, b).len(),
        line_starts(text, a) == line_starts(text, b).take(line_starts(text, a).len() as int),
        forall|i: int|
            line_starts(text, a).len() <= i < line_starts(text, b).len() ==> a
                < #[trigger] line_starts(text, b)[i],
    decreases b - a,
{
    if a < b {
        lemma_line_starts_prefix(text, a, b - 1);
    }
    assert(line_starts(text, a) =~= line_starts(text, b).take(line_starts(text, a).len() as int));
}

/// The line that holds `offset` is the last one that starts at or before it.
pub proof fn lemma_line_of_offset(text: Seq<u8>, offset: int, index: int)
    requires
        0 <= offset <= text.len(),
        0 <= index < line_count(text),
        line_starts(text, text.len() as int)[index] <= offset,
        index + 1 < line_count(text) ==> offset < line_starts(text, text.len() as int)[index + 1],
    ensures
        line_starts(text, offset).len() == index + 1,
        line_starts(text, offset).last() == line_starts(text, text.len() as int)[index],
{
    let all = line_starts(text, text.len() as int);
    let some = line_starts(text, offset);
    lemma_line_starts_prefix(text, offset, text.len() as int);
    lemma_line_starts_sorted(text, offset);
    lemma_line_starts_sorted(text, text.len() as int);
    let n = some.len() as int;
    assert(some[n - 1] == all[n - 1]);
    if n - 1 < index {
        // The line `n` starts after `offset`, and the line `index` not before it.
        assert(offset < all[n]);
        assert(n == index || all[n] < all[index]);
    } else if n - 1 > index {
        // The line `n - 1` starts at or before `offset`, and after the line `index`.
        assert(index + 1 == n - 1 || all[index + 1] < all[n - 1]);
        assert(some[n - 1] <= offset);
    }
}

/// A carriage return with a line feed directly after it ends one line, not
/// two: the line ends with the line feed. Alone, each of the two ends a line.
pub proof fn lemma_line_break_groups(text: Seq<u8>, at: int)
    requires
        0 <= at < text.len(),
    ensures
        text[at] == LF ==> is_line_break(text, at),
        text[at] == CR && at + 1 < text.len() && text[at + 1] == LF ==> !is_line_break(text, at)
            && is_line_break(text, at + 1),
        text[at] == CR && !(at + 1 < text.len() && text[at + 1] == LF) ==> is_line_break(
            text,
            at,
        ),
        text[at] != CR && text[at] != LF ==> !is_line_break(text, at),
{
}

/// A position is found again from what it decodes to: the line is one of the
/// text, and the start of that line and the offset within it add up to the
/// offset in the text. The offset lies before the start of the next line.
pub proof fn lemma_position_round_trip(text: Seq<u8>, pos: Pos)
    requires
        text.len() < u32::MAX,
        position_in(text, pos) is Some,
    ensures
        ({
            let found = position_in(text, pos)->Some_0;
            let starts = line_starts(text, text.len() as int);
            &&& 0 <= found.line < line_count(text)
            &&& starts[found.line as int] + found.byte == pos.0 - 1
            &&& found.line + 1 < line_count(text) ==> pos.0 - 1 < starts[found.line + 1]
        }),
{
    let offset = pos.0 - 1;
    lemma_line_starts_prefix(text, offset, text.len() as int);
    lemma_line_starts_sorted(text, offset);
    lemma_line_starts_sorted(text, text.len() as int);
    let some = line_starts(text, offset);
    let all = line_starts(text, text.len() as int);
    assert(some.last() == all[some.len() - 1]);
}

/// Between the start of a line and the start of the next, or the end of the
/// text, only the last byte can be a line break.
pub proof fn lemma_no_break_inside(text: Seq<u8>, index: int, at: int)
    requires
        0 <= index < line_count(text),
        line_starts(text, text.len() as int)[index] <= at,
        index + 1 < line_count(text) ==> at + 1 < line_starts(text, text.len() as int)[index + 1],
        at < text.len(),
    ensures
        !is_line_break(text, at),
{
    if is_line_break(text, at) {
        // A line would start at `at + 1`, strictly between two lines that follow
        // each other.
        assert(line_starts(text, at + 1).last() == at + 1);
        lemma_line_of_offset(text, at + 1, index);
    }
}

/// The text of a line stops at `to` if no byte from `from` up to `to` is a
/// carriage return or a line feed, and the byte at `to`, if there is one, is.
pub proof fn lemma_line_end_is(text: Seq<u8>, from: int, to: int)
    requires
        0 <= from <= to <= text.len(),
        forall|k: int| from <= k < to ==> text[k] != LF && text[k] != CR,
        to < text.len() ==> text[to] == LF || text[to] == CR,
    ensures
        line_end(text, from) == to,
    decreases to - from,
{
    if from < to {
        lemma_line_end_is(text, from + 1, to);
    }
}

/// A decoder for the positions within one source file.
///
/// It borrows the text, finds the start of each line once, and then answers
/// every question from that table.
pub struct SourceText<'a> {
    filename_str: &'a str,
    text: &'a [u8],
    lines: Vec<u32>,
    span: Span,
}

impl<'a> SourceText<'a> {
    /// What the table of line starts has to hold for the text.
    #[verifier::type_invariant]
    spec fn wf(self) -> bool {
        &&& self.text@.len() < u32::MAX
        &&& self.span == (Span { start: Pos(1), end: Pos((self.text@.len() + 1) as u32) })
        &&& self.lines@.len() == line_count(self.text@)
        &&& forall|i: int|
            0 <= i < self.lines@.len() ==> #[trigger] self.lines@[i] as int == line_starts(
                self.text@,
                self.text@.len() as int,
            )[i]
    }

    /// The bytes of the source file.
    pub closed spec fn spec_text(self) -> Seq<u8> {
        self.text@
    }

    /// The name of the source file.
    pub closed spec fn spec_filename(self) -> Seq<char> {
        self.filename_str@
    }

    /// Creates a decoder for a file with the given name and contents.
    ///
    /// Positions are 32-bit offsets, so the text must be shorter than
    /// `u32::MAX` bytes.
    pub fn new(filename: &'a str, text: &'a [u8]) -> (r: Self)
        requires
            text@.len() < u32::MAX,
        ensures
            r.spec_text() == text@,
            r.spec_filename() == filename@,
    {
        let len = text.len();
        let mut lines: Vec<u32> = Vec::new();
        lines.push(0);
        let mut n: usize = 0;
        while n < len
            invariant
                n <= len,
                len == text@.len(),
                len < u32::MAX,
                lines@.len() == line_starts(text@, n as int).len(),
                forall|i: int|
                    0 <= i < lines@.len() ==> #[trigger] lines@[i] as int == line_starts(
                        text@,
                        n as int,
                    )[i],
            decreases len - n,
        {
            let c = text[n];
            if c == LF || (c == CR && !(n + 1 < len && text[n + 1] == LF)) {
                lines.push((n + 1) as u32);
            }
            n += 1;
        }
        SourceText {
            filename_str: filename,
            text,
            lines,
            span: Span { start: Pos(1), end: Pos(len as u32 + 1) },
        }
    }

    /// Gets the name of the file.
    pub fn filename(&self) -> (r: &str)
        ensures
            r@ == self.spec_filename(),
    {
        self.filename_str
    }

    /// Gets the number of lines. The text after the last line break is a line,
    /// even where it is empty, so there is always at least one.
    pub fn line_count(&self) -> (r: u32)
        ensures
            r == line_count(self.spec_text()),
            r >= 1,
    {
        proof {
            use_type_invariant(self);
            lemma_line_starts_sorted(self.text@, self.text@.len() as int);
        }
        self.lines.len() as u32
    }

    /// Converts a position to a line number and an offset within the line.
    ///
    /// The position of the first byte is 1. The result is `None` for position
    /// 0 and for every position beyond the one directly after the last byte.
    pub fn pos(&self, pos: Pos) -> (r: Option<TextPos>)
        ensures
            r == position_in(self.spec_text(), pos),
    {
        proof {
            use_type_invariant(self);
            lemma_line_starts_sorted(self.text@, self.text@.len() as int);
        }
        if pos.0 < self.span.start.0 || self.span.end.0 < pos.0 {
            return None;
        }
        let offset: u32 = pos.0 - self.span.start.0;
        let mut low: usize = 0;
        let mut high: usize = self.lines.len();
        while high - low > 1
            invariant
                low < high <= self.lines@.len(),
                self.lines@[low as int] <= offset,
                high < self.lines@.len() ==> offset < self.lines@[high as int],
            decreases high - low,
        {
            let middle: usize = low + (high - low) / 2;
            if self.lines[middle] <= offset {
                low = middle;
            } else {
                high = middle;
            }
        }
        proof {
            lemma_line_of_offset(self.text@, offset as int, low as int);
        }
        Some(TextPos { line: low as u32, byte: offset - self.lines[low] })
    }

    /// Converts a range of positions to a range of lines and offsets.
    ///
    /// The result is `None` where either end of the range has no position in
    /// the text.
    pub fn span(&self, span: Span) -> (r: Option<TextSpan>)
        ensures
            r == span_in(self.spec_text(), span),
    {
        let start = match self.pos(span.start) {
            Some(pos) => pos,
            None => {
                return None;
            },
        };
        let end = match self.pos(span.end) {
            Some(pos) => pos,
            None => {
                return None;
            },
        };
        Some(TextSpan { start, end })
    }

    /// Gets the contents of the line with the number `index`, counted from 0.
    ///
    /// What ends the line is not part of it. A line that the text does not
    /// have is empty.
    pub fn line(&self, index: u32) -> (r: &'a [u8])
        ensures
            r@ == line_content(self.spec_text(), index as int),
    {
        proof {
            use_type_invariant(self);
            lemma_line_starts_sorted(self.text@, self.text@.len() as int);
        }
        let i = index as usize;
        let len = self.text.len();
        if i >= self.lines.len() {
            return slice_subrange(self.text, 0, 0);
        }
        let start = self.lines[i] as usize;
        let ghost all = line_starts(self.text@, len as int);
        if i + 1 == self.lines.len() {
            proof {
                assert forall|k: int| start <= k < len implies self.text@[k] != LF && self.text@[k]
                    != CR by {
                    lemma_no_break_inside(self.text@, i as int, k);
                    if k + 1 < len {
                        lemma_no_break_inside(self.text@, i as int, k + 1);
                    }
                }
                lemma_line_end_is(self.text@, start as int, len as int);
            }
            return slice_subrange(self.text, start, len);
        }
        let next = self.lines[i + 1] as usize;
        proof {
            assert(is_line_break(self.text@, next - 1)) by {
                lemma_break_before_start(self.text@, len as int, i + 1);
            }
            assert forall|k: int| start <= k < next - 1 implies !is_line_break(self.text@, k) by {
                lemma_no_break_inside(self.text@, i as int, k);
            }
        }
        let mut end: usize = next - 1;
        if self.text[end] == LF && end > start && self.text[end - 1] == CR {
            end -= 1;
        }
        proof {
            assert forall|k: int| start <= k < end implies self.text@[k] != LF && self.text@[k]
                != CR by {
                assert(!is_line_break(self.text@, k));
                if k + 1 < next - 1 {
                    assert(!is_line_break(self.text@, k + 1));
                }
            }
            lemma_line_end_is(self.text@, start as int, end as int);
        }
        slice_subrange(self.text, start, end)
    }
}

/// Every line but the first starts directly after a line break.
pub proof fn lemma_break_before_start(text: Seq<u8>, upto: int, index: int)
    requires
        0 < index < line_starts(text, upto).len(),
    ensures
        is_line_break(text, line_starts(text, upto)[index] - 1),
    decreases upto,
{
    if upto > 0 {
        let before = line_starts(text, upto - 1);
        if index < before.len() {
            lemma_break_before_start(text, upto - 1, index);
        }
    }
}

} // verus!
