//! Splitting a byte buffer into lines.
//!
//! A line ends at `\n`, at `\r`, or at `\r\n` (the terminator is not part of
//! the line); the last line need not be terminated, and an empty buffer has no
//! lines.
use vstd::prelude::*;
use vstd::slice::slice_subrange;

verus! {

/// Index of the first line terminator (`\n` or `\r`) at or after `start`,
/// or the length of `bytes` when there is none.
pub open spec fn line_end(bytes: Seq<u8>, start: int) -> int
    decreases bytes.len() - start,
{
    if start >= bytes.len() {
        bytes.len() as int
    } else if bytes[start] == 10u8 || bytes[start] == 13u8 {
        start
    } else {
        line_end(bytes, start + 1)
    }
}

/// Where the next line starts after the line that begins at `start`.
pub open spec fn next_line_start(bytes: Seq<u8>, start: int) -> int {
    let end = line_end(bytes, start);
    if end >= bytes.len() {
        bytes.len() as int
    } else if bytes[end] == 13u8 && end + 1 < bytes.len() && bytes[end + 1] == 10u8 {
        end + 2
    } else {
        end + 1
    }
}

/// The lines of `bytes` from position `start` on.
pub open spec fn lines_from(bytes: Seq<u8>, start: int) -> Seq<Seq<u8>>
    decreases bytes.len() - start,
{
    if start < 0 || start >= bytes.len() {
        Seq::empty()
    } else {
        proof {
            lemma_line_end_bounds(bytes, start);
        }
        seq![bytes.subrange(start, line_end(bytes, start))] + lines_from(
            bytes,
            next_line_start(bytes, start),
        )
    }
}

/// The lines of `bytes`.
pub open spec fn lines_of(bytes: Seq<u8>) -> Seq<Seq<u8>> {
    lines_from(bytes, 0)
}

pub proof fn lemma_line_end_bounds(bytes: Seq<u8>, start: int)
    requires
        0 <= start <= bytes.len(),
    ensures
        start <= line_end(bytes, start) <= bytes.len(),
        forall|k: int| start <= k < line_end(bytes, start) ==> bytes[k] != 10u8 && bytes[k] != 13u8,
        line_end(bytes, start) < bytes.len() ==> (bytes[line_end(bytes, start)] == 10u8
            || bytes[line_end(bytes, start)] == 13u8),
    decreases bytes.len() - start,
{
    if start < bytes.len() && !(bytes[start] == 10u8 || bytes[start] == 13u8) {
        lemma_line_end_bounds(bytes, start + 1);
    }
}

/// Every line consumes at least one byte, so there are no more lines than
/// bytes left.
pub proof fn lemma_lines_from_len(bytes: Seq<u8>, start: int)
    requires
        0 <= start <= bytes.len(),
    ensures
        lines_from(bytes, start).len() <= bytes.len() - start,
    decreases bytes.len() - start,
{
    if start < bytes.len() {
        lemma_line_end_bounds(bytes, start);
        lemma_lines_from_len(bytes, next_line_start(bytes, start));
    }
}

/// A cursor over the lines of a byte buffer.
pub struct LineSlices<'a> {
    pub bytes: &'a [u8],
    pub cursor: usize,
}

impl<'a> LineSlices<'a> {
    /// The lines that this cursor has yet to hand out.
    pub open spec fn remaining(&self) -> Seq<Seq<u8>> {
        lines_from(self.bytes@, self.cursor as int)
    }

    /// A cursor at the start of `bytes`.
    pub fn new(bytes: &'a [u8]) -> (r: Self)
        ensures
            r.bytes@ == bytes@,
            r.cursor == 0,
            r.remaining() == lines_of(bytes@),
    {
        LineSlices { bytes, cursor: 0 }
    }

    /// Hands out the next line, or `None` when all lines have been handed out.
    pub fn next_line(&mut self) -> (r: Option<&'a [u8]>)
        requires
            old(self).cursor <= old(self).bytes@.len(),
        ensures
            final(self).bytes@ == old(self).bytes@,
            final(self).cursor <= final(self).bytes@.len(),
            old(self).remaining().len() == 0 ==> r is None && final(self).remaining().len() == 0,
            old(self).remaining().len() > 0 ==> r is Some && r->0@ == old(self).remaining()[0]
                && final(self).remaining() == old(self).remaining().drop_first()
                && final(self).cursor == next_line_start(old(self).bytes@, old(self).cursor as int),
            old(self).cursor < old(self).bytes@.len() <==> old(self).remaining().len() > 0,
            final(self).cursor >= old(self).cursor,
    {
        let ghost b = self.bytes@;
        if self.cursor >= self.bytes.len() {
            return None;
        }
        let start = self.cursor;
        let mut end = self.cursor;
        while end < self.bytes.len()
            invariant
                start <= end <= self.bytes@.len(),
                self.bytes@ == b,
                start == self.cursor,
                start < b.len(),
                forall|k: int| start <= k < end ==> b[k] != 10u8 && b[k] != 13u8,
            ensures
                start <= end <= b.len(),
                self.bytes@ == b,
                start == self.cursor,
                forall|k: int| start <= k < end ==> b[k] != 10u8 && b[k] != 13u8,
                end == b.len() || b[end as int] == 10u8 || b[end as int] == 13u8,
            decreases self.bytes@.len() - end,
        {
            let byte = self.bytes[end];
            if byte == 10u8 || byte == 13u8 {
                break;
            }
            end = end + 1;
        }
        proof {
            lemma_line_end_find(b, start as int, end as int);
        }
        let line = slice_subrange(self.bytes, start, end);
        if end >= self.bytes.len() {
            self.cursor = self.bytes.len();
        } else if self.bytes[end] == 13u8 && end + 1 < self.bytes.len() && self.bytes[end + 1] == 10u8 {
            self.cursor = end + 2;
        } else {
            self.cursor = end + 1;
        }
        proof {
            assert(lines_from(b, start as int) == seq![b.subrange(start as int, end as int)]
                + lines_from(b, next_line_start(b, start as int)));
        }
        Some(line)
    }
}

proof fn lemma_line_end_find(bytes: Seq<u8>, start: int, end: int)
    requires
        0 <= start <= end <= bytes.len(),
        forall|k: int| start <= k < end ==> bytes[k] != 10u8 && bytes[k] != 13u8,
        end == bytes.len() || bytes[end] == 10u8 || bytes[end] == 13u8,
    ensures
        line_end(bytes, start) == end,
    decreases end - start,
{
    if start < end {
        lemma_line_end_find(bytes, start + 1, end);
    }
}


/// The first line from `start` lies within `[start, next_line_start)`.
pub proof fn lemma_line_within(bytes: Seq<u8>, start: int)
    requires
        0 <= start < bytes.len(),
    ensures
        lines_from(bytes, start)[0].len() + start <= next_line_start(bytes, start),
        start < next_line_start(bytes, start) <= bytes.len(),
{
    lemma_line_end_bounds(bytes, start);
}

} // verus!
