//! A ready-made partial record for tables whose rows are keyed by a leading
//! numeric id column: it keeps the id and the line's byte offset resident and
//! drops the rest of the row. It doubles as the reference implementation of
//! the decoder capability [`FromLineOffset`].

use vstd::prelude::*;
use vstd::string::StringSliceAdditionalSpecFns;
use vstd::utf8::encode_utf8;

use crate::cache::FromLineOffset;
use crate::error::Error;
use crate::offset::OffsetType;

verus! {

/// Whether a byte is an ASCII decimal digit.
pub open spec fn is_ascii_digit(b: u8) -> bool {
    48 <= b <= 57
}

/// The byte position where the line's id column ends: the first comma, or the
/// line's end when it has no comma.
pub open spec fn id_field_end(bytes: Seq<u8>, i: int) -> int
    decreases bytes.len() - i,
    when 0 <= i <= bytes.len()
{
    if i == bytes.len() {
        i
    } else if bytes[i] == 44u8 {
        i
    } else {
        id_field_end(bytes, i + 1)
    }
}

/// `id_field_end` is the one position that ends the id column: no comma
/// before it, and a comma (or the line's end) at it.
proof fn lemma_id_field_end_unique(bytes: Seq<u8>, i: int, end: int)
    requires
        0 <= i <= end <= bytes.len(),
        forall|k: int| i <= k < end ==> bytes[k] != 44u8,
        end < bytes.len() ==> bytes[end] == 44u8,
    ensures
        id_field_end(bytes, i) == end,
    decreases end - i,
{
    if i < end {
        lemma_id_field_end_unique(bytes, i + 1, end);
    }
}

/// The value of the digit bytes of `bytes[i..end]` appended to the value read
/// so far, or `None` on a non-digit byte or a value past `u64::MAX`.
pub open spec fn parse_digits(bytes: Seq<u8>, i: int, end: int, acc: u64) -> Option<u64>
    decreases end - i,
    when 0 <= i <= end <= bytes.len()
{
    if i == end {
        Some(acc)
    } else if !is_ascii_digit(bytes[i]) {
        None
    } else if acc * 10 + (bytes[i] - 48) > u64::MAX {
        None
    } else {
        parse_digits(bytes, i + 1, end, (acc * 10 + (bytes[i] - 48)) as u64)
    }
}

/// The id parsed from a line's bytes: the decimal digits before the first
/// comma; rejected when that column is empty, holds a non-digit, or names a
/// value that does not fit in `u64`.
pub open spec fn spec_line_id(bytes: Seq<u8>) -> Option<u64> {
    let end = id_field_end(bytes, 0);
    if end == 0 {
        None
    } else {
        parse_digits(bytes, 0, end, 0)
    }
}

/// A partial record holding a row's leading numeric id and the byte offset of
/// the row's line, in the caller-chosen offset width `O`.
#[derive(Debug, PartialEq, Eq)]
pub struct IdRecord<O> {
    /// The value of the row's first column.
    pub id: u64,
    /// The byte offset of the row's line in the source file.
    pub offset: O,
}

impl<O: OffsetType> FromLineOffset for IdRecord<O> {
    type Offset = O;

    open spec fn spec_from_line(line: Seq<char>, offset: O) -> Option<Self> {
        match spec_line_id(encode_utf8(line)) {
            Some(id) => Some(IdRecord { id, offset }),
            None => None,
        }
    }

    open spec fn spec_offset(&self) -> O {
        self.offset
    }

    proof fn lemma_from_line_stores_offset(line: Seq<char>, offset: O) {
    }

    fn offset(&self) -> (o: O) {
        self.offset
    }

    fn from_line_offset(line: &str, offset: O) -> (r: Result<Self, Error>) {
        let bytes = line.as_bytes();
        let len = bytes.len();
        let mut end: usize = 0;
        while end < len && bytes[end] != 44u8
            invariant
                end <= len,
                len == bytes@.len(),
                forall|k: int| 0 <= k < end as int ==> bytes@[k] != 44u8,
            decreases len - end,
        {
            end = end + 1;
        }
        proof {
            lemma_id_field_end_unique(bytes@, 0, end as int);
        }
        if end == 0 {
            return Err(
                Error::DeserializeLine("the id column is empty".to_string(), line.to_owned()),
            );
        }
        let mut acc: u64 = 0;
        let mut i: usize = 0;
        while i < end
            invariant
                i <= end <= len,
                0 < end,
                len == bytes@.len(),
                bytes@ == encode_utf8(line@),
                id_field_end(bytes@, 0) == end as int,
                parse_digits(bytes@, 0, end as int, 0) == parse_digits(
                    bytes@,
                    i as int,
                    end as int,
                    acc,
                ),
            decreases end - i,
        {
            let b = bytes[i];
            if b < 48 || b > 57 {
                return Err(
                    Error::DeserializeLine(
                        "the id column holds a non-digit".to_string(),
                        line.to_owned(),
                    ),
                );
            }
            let shifted = match acc.checked_mul(10) {
                Some(s) => s,
                None => {
                    return Err(
                        Error::DeserializeLine(
                            "the id column does not fit in 64 bits".to_string(),
                            line.to_owned(),
                        ),
                    );
                },
            };
            acc = match shifted.checked_add((b - 48) as u64) {
                Some(v) => v,
                None => {
                    return Err(
                        Error::DeserializeLine(
                            "the id column does not fit in 64 bits".to_string(),
                            line.to_owned(),
                        ),
                    );
                },
            };
            i = i + 1;
        }
        Ok(IdRecord { id: acc, offset })
    }
}

} // verus!
