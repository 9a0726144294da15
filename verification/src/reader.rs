//! The offset line reader: a sequential reader over a text stream that yields
//! each line together with the byte offset at which the line begins.
//!
//! Lines are separated by a line feed; a trailing carriage return before the
//! line feed is stripped as well, so network-style line endings are normalized
//! transparently, while a carriage return inside a line (or at the end of the
//! stream) is preserved. Offsets count bytes of the UTF-8 encoded stream, so
//! they can be used to seek back into the original file.
//!
//! The model of the stream is its byte sequence: `line_end`, `next_line_start`
//! and `line_content` say where the line that starts at a position ends, where
//! the next one begins, and which bytes belong to the line once terminators
//! are stripped. `nth_line_start` then places every line of the stream, and
//! [`lemma_offset_is_cumulative_length`] states that each line's offset equals
//! the total byte length of all prior lines, terminators included.

use core::marker::PhantomData;
use vstd::prelude::*;
use vstd::string::StringSliceAdditionalSpecFns;
use vstd::utf8::*;

use crate::error::Error;
use crate::offset::OffsetType;

verus! {

/// The byte position of the line terminator (or end of stream) that closes
/// the line starting at `pos`: the first line feed at or after `pos`, or the
/// stream's length when no line feed follows.
pub open spec fn line_end(bytes: Seq<u8>, pos: int) -> int
    decreases bytes.len() - pos,
    when 0 <= pos <= bytes.len()
{
    if pos == bytes.len() {
        pos
    } else if bytes[pos] == 10u8 {
        pos
    } else {
        line_end(bytes, pos + 1)
    }
}

/// The byte position where the line after the one starting at `pos` begins:
/// right past the line feed, or the end of the stream.
pub open spec fn next_line_start(bytes: Seq<u8>, pos: int) -> int {
    if line_end(bytes, pos) < bytes.len() {
        line_end(bytes, pos) + 1
    } else {
        bytes.len() as int
    }
}

/// The bytes of the line starting at `pos` with its terminator stripped: the
/// line feed is removed, and a carriage return directly before it as well.
/// A carriage return not followed by a line feed stays part of the line.
pub open spec fn line_content(bytes: Seq<u8>, pos: int) -> Seq<u8> {
    let e = line_end(bytes, pos);
    if e < bytes.len() && pos < e && bytes[e - 1] == 13u8 {
        bytes.subrange(pos, e - 1)
    } else {
        bytes.subrange(pos, e)
    }
}

/// The whole line starting at `pos` as it stands in the stream, its
/// terminator included.
pub open spec fn raw_line(bytes: Seq<u8>, pos: int) -> Seq<u8> {
    bytes.subrange(pos, next_line_start(bytes, pos))
}

/// The byte offset at which the stream's `n`-th line (0-based) begins.
pub open spec fn nth_line_start(bytes: Seq<u8>, n: int) -> int
    decreases n,
    when n >= 0
{
    if n <= 0 {
        0
    } else {
        next_line_start(bytes, nth_line_start(bytes, n - 1))
    }
}

/// The total byte length of the stream's first `n` lines, terminators
/// included.
pub open spec fn cumulative_raw_length(bytes: Seq<u8>, n: int) -> int
    decreases n,
    when n >= 0
{
    if n <= 0 {
        0
    } else {
        cumulative_raw_length(bytes, n - 1) + raw_line(bytes, nth_line_start(bytes, n - 1)).len()
    }
}

/// Basic bounds of `line_end`: it lies between `pos` and the stream's length,
/// it points at a line feed unless it is the stream's end, and no line feed
/// stands before it in the line.
pub proof fn lemma_line_end(bytes: Seq<u8>, pos: int)
    requires
        0 <= pos <= bytes.len(),
    ensures
        pos <= line_end(bytes, pos) <= bytes.len(),
        line_end(bytes, pos) < bytes.len() ==> bytes[line_end(bytes, pos)] == 10u8,
        forall|k: int| pos <= k < line_end(bytes, pos) ==> bytes[k] != 10u8,
    decreases bytes.len() - pos,
{
    if pos < bytes.len() && bytes[pos] != 10u8 {
        lemma_line_end(bytes, pos + 1);
    }
}

/// `line_end` is the one position that closes the line: no line feed before
/// it, and a line feed (or the stream's end) at it.
pub proof fn lemma_line_end_unique(bytes: Seq<u8>, pos: int, e: int)
    requires
        0 <= pos <= e <= bytes.len(),
        forall|k: int| pos <= k < e ==> bytes[k] != 10u8,
        e < bytes.len() ==> bytes[e] == 10u8,
    ensures
        line_end(bytes, pos) == e,
    decreases e - pos,
{
    if pos < e {
        lemma_line_end_unique(bytes, pos + 1, e);
    }
}

/// Every line's start lies inside the stream.
pub proof fn lemma_nth_line_start_bounds(bytes: Seq<u8>, n: int)
    requires
        n >= 0,
    ensures
        0 <= nth_line_start(bytes, n) <= bytes.len(),
    decreases n,
{
    if n > 0 {
        lemma_nth_line_start_bounds(bytes, n - 1);
        lemma_line_end(bytes, nth_line_start(bytes, n - 1));
    }
}

/// The offset of the `n`-th line equals the cumulative byte length of all
/// prior lines, their original terminators included.
pub proof fn lemma_offset_is_cumulative_length(bytes: Seq<u8>, n: int)
    requires
        n >= 0,
    ensures
        nth_line_start(bytes, n) == cumulative_raw_length(bytes, n),
    decreases n,
{
    if n > 0 {
        lemma_offset_is_cumulative_length(bytes, n - 1);
        let prev = nth_line_start(bytes, n - 1);
        lemma_nth_line_start_bounds(bytes, n - 1);
        lemma_line_end(bytes, prev);
        assert(raw_line(bytes, prev).len() == next_line_start(bytes, prev) - prev);
    }
}

/// In a valid UTF-8 stream, the position right after a one-byte character is
/// a character boundary.
proof fn lemma_boundary_after_one_byte(bytes: Seq<u8>, i: int)
    requires
        valid_utf8(bytes),
        0 <= i < bytes.len(),
        is_char_boundary(bytes, i),
        bytes[i] < 0x80,
    ensures
        is_char_boundary(bytes, i + 1),
{
    if i + 1 == bytes.len() {
        is_char_boundary_start_end_of_seq(bytes);
    } else {
        let tail = bytes.subrange(i, bytes.len() as int);
        valid_utf8_split(bytes, i);
        assert(valid_first_scalar(tail));
        assert(length_of_first_scalar(tail) == 1);
        assert(is_char_boundary(tail, 1)) by {
            reveal_with_fuel(is_char_boundary, 2);
        }
        is_char_boundary_iff_not_is_continuation_byte(tail, 1);
        assert(tail[1] == bytes[i + 1]);
        is_char_boundary_iff_not_is_continuation_byte(bytes, i + 1);
    }
}

/// An iterator-style reader over lines and their byte offsets.
///
/// The stream is held in memory as text; `next` yields one `(line, offset)`
/// pair at a time, in the caller-chosen offset type `O`, and ends (yields
/// `None`) once the stream is exhausted. A byte position that does not fit in
/// `O` yields one [`Error::IntoOffset`] item, after which the sequence ends.
pub struct LineOffset<O> {
    data: String,
    buf_name: String,
    index: usize,
    pos: usize,
    offset_type: PhantomData<O>,
}

impl<O> LineOffset<O> {
    /// The stream's contents, as the bytes of its UTF-8 encoding. Offsets
    /// index into this sequence.
    pub closed spec fn stream(self) -> Seq<u8> {
        encode_utf8(self.data@)
    }

    /// The byte position of the next line to be yielded (the stream's length
    /// once the reader is finished).
    pub closed spec fn cursor(self) -> int {
        self.pos as int
    }

    /// The count of lines yielded so far (the 0-based index of the next one).
    pub closed spec fn line_index(self) -> int {
        self.index as int
    }

    /// The stream's display name, carried into error reports.
    pub closed spec fn display_name(self) -> Seq<char> {
        self.buf_name@
    }

    /// The reader's invariant: the cursor lies in the stream, on a character
    /// boundary, and at least as many bytes have been passed as lines yielded.
    pub open spec fn wf(self) -> bool {
        &&& 0 <= self.line_index() <= self.cursor() <= self.stream().len()
        &&& self.cursor() <= usize::MAX
        &&& is_char_boundary(self.stream(), self.cursor())
    }

    /// Creates a reader over an in-memory buffer, positioned at its start.
    pub fn from_buf(name: String, buf: String) -> (r: Self)
        ensures
            r.stream() == encode_utf8(buf@),
            r.display_name() == name@,
            r.cursor() == 0,
            r.line_index() == 0,
            r.wf(),
    {
        let r = LineOffset {
            data: buf,
            buf_name: name,
            index: 0,
            pos: 0,
            offset_type: PhantomData,
        };
        proof {
            broadcast use encode_utf8_valid_utf8;

            is_char_boundary_start_end_of_seq(r.stream());
        }
        r
    }

    /// Creates a reader over the given text.
    pub fn from_str(name: &str, s: &str) -> (r: Self)
        ensures
            r.stream() == encode_utf8(s@),
            r.display_name() == name@,
            r.cursor() == 0,
            r.line_index() == 0,
            r.wf(),
    {
        Self::from_buf(name.to_owned(), s.to_owned())
    }
}

impl<O: OffsetType> LineOffset<O> {
    /// Yields the next `(line, offset)` pair.
    ///
    /// `None` means the stream is exhausted (not an error). Otherwise the
    /// yielded line is the one starting at the cursor, terminator stripped,
    /// and the offset is the cursor's byte position; the cursor moves to the
    /// next line's start. A reader that began at the stream's start therefore
    /// reports the `n`-th line's offset as `nth_line_start`, which
    /// [`lemma_offset_is_cumulative_length`] equates with the total byte
    /// length of all prior lines, terminators included. When the position
    /// does not fit in `O`, one [`Error::IntoOffset`] is yielded instead,
    /// carrying the position, the count of lines yielded so far and the
    /// stream's name, and the reader terminates: every later call yields
    /// `None`.
    pub fn next(&mut self) -> (r: Option<Result<(String, O), Error>>)
        requires
            old(self).wf(),
        ensures
            final(self).wf(),
            final(self).stream() == old(self).stream(),
            final(self).display_name() == old(self).display_name(),
            old(self).cursor() == nth_line_start(old(self).stream(), old(self).line_index())
                && (r matches Some(Ok(_))) ==> final(self).cursor() == nth_line_start(
                final(self).stream(),
                final(self).line_index(),
            ),
            ({
                let bytes = old(self).stream();
                let p = old(self).cursor();
                match r {
                    None => {
                        &&& p == bytes.len()
                        &&& final(self).cursor() == p
                        &&& final(self).line_index() == old(self).line_index()
                    },
                    Some(Ok((line, o))) => {
                        &&& p < bytes.len()
                        &&& O::spec_in_range(p as u64)
                        &&& o == O::spec_of(p as u64)
                        &&& o.spec_val() == p as u64
                        &&& line@ == decode_utf8(line_content(bytes, p))
                        &&& final(self).cursor() == next_line_start(bytes, p)
                        &&& final(self).line_index() == old(self).line_index() + 1
                    },
                    Some(Err(e)) => {
                        &&& p < bytes.len()
                        &&& !O::spec_in_range(p as u64)
                        &&& (e matches Error::IntoOffset(off, idx, n)
                            && off == p as u64
                            && idx as int == old(self).line_index()
                            && n@ == old(self).display_name())
                        &&& final(self).cursor() == bytes.len()
                        &&& final(self).line_index() == old(self).line_index()
                    },
                }
            }),
    {
        proof {
            broadcast use encode_utf8_valid_utf8;

        }
        let len = self.data.as_str().as_bytes().len();
        if self.pos >= len {
            return None;
        }
        let off_u64 = self.pos as u64;
        match O::try_from_u64(off_u64) {
            None => {
                let err = Error::IntoOffset(off_u64, self.index, self.buf_name.clone());
                self.pos = len;
                proof {
                    is_char_boundary_start_end_of_seq(self.stream());
                }
                Some(Err(err))
            },
            Some(o) => {
                let ghost bytes = self.stream();
                let ghost p = self.pos as int;
                let mut end = self.pos;
                while end < len && self.data.as_str().as_bytes()[end] != 10u8
                    invariant
                        self.pos <= end <= len,
                        len == bytes.len(),
                        bytes == self.stream(),
                        p == self.pos as int,
                        forall|k: int| p <= k < end as int ==> bytes[k] != 10u8,
                    decreases len - end,
                {
                    end = end + 1;
                }
                proof {
                    lemma_line_end_unique(bytes, p, end as int);
                    lemma_line_end(bytes, p);
                }
                let nl_found = end < len;
                let content_end = if nl_found && end > self.pos
                    && self.data.as_str().as_bytes()[end - 1] == 13u8 {
                    end - 1
                } else {
                    end
                };
                proof {
                    // the split positions are character boundaries: a line
                    // feed or carriage return byte is never a continuation
                    if (content_end as int) < bytes.len() {
                        is_char_boundary_iff_not_is_continuation_byte(bytes, content_end as int);
                    } else {
                        is_char_boundary_start_end_of_seq(bytes);
                    }
                    valid_utf8_split(bytes, content_end as int);
                    let head_bytes = bytes.subrange(0, content_end as int);
                    if p < content_end as int {
                        is_char_boundary_iff_not_is_continuation_byte(bytes, p);
                        is_char_boundary_iff_not_is_continuation_byte(head_bytes, p);
                    } else {
                        is_char_boundary_start_end_of_seq(head_bytes);
                    }
                }
                let (head, _) = self.data.as_str().split_at(content_end);
                let (_, line_str) = head.split_at(self.pos);
                let line = line_str.to_owned();
                proof {
                    assert(line_str.spec_bytes() =~= line_content(bytes, p));
                    encode_utf8_decode_utf8(line@);
                }
                self.index = self.index + 1;
                self.pos = if nl_found {
                    end + 1
                } else {
                    len
                };
                proof {
                    if nl_found {
                        is_char_boundary_iff_not_is_continuation_byte(bytes, end as int);
                        lemma_boundary_after_one_byte(bytes, end as int);
                    } else {
                        is_char_boundary_start_end_of_seq(bytes);
                    }
                }
                Some(Ok((line, o)))
            },
        }
    }
}

} // verus!
