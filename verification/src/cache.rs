//! The partial index: an immutable collection of partial records built by
//! driving the offset line reader over a whole table, the sorted lookup over
//! it, and the snapshot freshness rule.
//!
//! The build is modelled by [`build_from`]: starting at the first data line
//! (the header line is skipped unconditionally), each line is decoded into a
//! record carrying the line's byte offset; the first failure — an offset that
//! does not fit the chosen width, or a line the decoder rejects — aborts the
//! whole build, so a partially built index is never exposed.

use vstd::prelude::*;
use vstd::utf8::decode_utf8;
use vstd::utf8::encode_utf8;

use crate::error::Error;
use crate::offset::OffsetType;
use crate::reader::line_content;
use crate::reader::lemma_line_end;
use crate::reader::next_line_start;
use crate::reader::LineOffset;

verus! {

/// The decoder capability: a partial record type that can be created from a
/// line of text plus the byte offset at which the line starts, and that
/// remembers that offset.
///
/// The library never decodes columns itself; implementors supply the decode
/// in `from_line_offset` and describe it with `spec_from_line`, so that what
/// an index holds can be stated exactly.
pub trait FromLineOffset: Sized {
    /// The caller-chosen width in which the record stores its byte offset.
    type Offset: OffsetType;

    /// The record, if any, that decoding this line at this offset yields.
    spec fn spec_from_line(line: Seq<char>, offset: Self::Offset) -> Option<Self>;

    /// The byte offset this record was derived from.
    spec fn spec_offset(&self) -> Self::Offset;

    /// A successfully decoded record stores the offset it was handed: the
    /// byte position of its line in the original source file.
    proof fn lemma_from_line_stores_offset(line: Seq<char>, offset: Self::Offset)
        ensures
            Self::spec_from_line(line, offset) matches Some(t) ==> t.spec_offset() == offset,
    ;

    /// Returns the record's stored offset.
    fn offset(&self) -> (o: Self::Offset)
        ensures
            o == self.spec_offset(),
    ;

    /// Decodes a line into a record, or fails with the implementor's error.
    fn from_line_offset(line: &str, offset: Self::Offset) -> (r: Result<Self, Error>)
        ensures
            (r matches Ok(t)) == (Self::spec_from_line(line@, offset) matches Some(_)),
            r matches Ok(t) ==> Self::spec_from_line(line@, offset) == Some(t),
    ;
}

/// What building an index from the lines starting at a given position yields:
/// either all records, or the place of the first failure.
pub enum BuildOutcome<T> {
    /// Every line decoded; the records, in line order.
    Built(Seq<T>),
    /// The line at this byte offset (with this 0-based reader line index) has
    /// a start position that does not fit the chosen offset type.
    Overflow(int, int),
    /// The decoder rejected the line at this byte offset (with this 0-based
    /// reader line index).
    Failed(int, int),
}

/// The records obtained by decoding every line of `bytes` from `pos` on, each
/// with its start offset; `idx` is the reader's 0-based index of the line at
/// `pos`. The first overflow or decode failure aborts the build.
pub open spec fn build_from<T: FromLineOffset>(bytes: Seq<u8>, pos: int, idx: int) -> BuildOutcome<
    T,
>
    decreases bytes.len() - pos,
    when 0 <= pos <= bytes.len()
    via build_from_decreases::<T>
{
    if pos == bytes.len() {
        BuildOutcome::Built(Seq::empty())
    } else if !T::Offset::spec_in_range(pos as u64) {
        BuildOutcome::Overflow(pos, idx)
    } else {
        match T::spec_from_line(
            decode_utf8(line_content(bytes, pos)),
            T::Offset::spec_of(pos as u64),
        ) {
            None => BuildOutcome::Failed(pos, idx),
            Some(t) => match build_from::<T>(bytes, next_line_start(bytes, pos), idx + 1) {
                BuildOutcome::Built(rest) => BuildOutcome::Built(seq![t] + rest),
                other => other,
            },
        }
    }
}

#[via_fn]
proof fn build_from_decreases<T: FromLineOffset>(bytes: Seq<u8>, pos: int, idx: int) {
    if 0 <= pos < bytes.len() {
        lemma_line_end(bytes, pos);
    }
}

/// What building an index from a whole table yields: the first line (the
/// header) is skipped, and the data lines are decoded in order, the first
/// one having reader line index 1.
pub open spec fn build_outcome_of<T: FromLineOffset>(data: Seq<char>) -> BuildOutcome<T> {
    let bytes = encode_utf8(data);
    build_from::<T>(bytes, next_line_start(bytes, 0), 1)
}

/// The contract of [`CsvPartialCache::new`]: on a table whose data lines all
/// decode, the index holds exactly the decoded records and the source path;
/// an offset overflow surfaces as [`Error::IntoOffset`] naming the position,
/// the line index and the path; a decode failure surfaces as the decoder's
/// own error.
pub open spec fn new_post<T: FromLineOffset>(
    path: String,
    data: String,
    r: Result<CsvPartialCache<T>, Error>,
) -> bool {
    match build_outcome_of::<T>(data@) {
        BuildOutcome::Built(records) => {
            &&& r matches Ok(c)
            &&& c.path == path
            &&& c.items@ == records
        },
        BuildOutcome::Overflow(at, idx) => {
            &&& r matches Err(e)
            &&& (e matches Error::IntoOffset(o, i, n)
                && o as int == at
                && i as int == idx
                && n@ == path@)
        },
        BuildOutcome::Failed(at, idx) => r is Err,
    }
}

/// What the surrounding program found on disk when asked for an index with a
/// snapshot: either the snapshot was missing or stale and the source table's
/// text must be parsed again, or the snapshot was fresh and the records
/// restored from it are reused as they are.
pub enum SnapshotSource<T> {
    /// The snapshot is expired: the source file's whole text, to be parsed.
    Rebuild(String),
    /// The snapshot is fresh: the records restored from it.
    Reuse(Vec<T>),
}

/// An index over a delimited-text table: partial records sorted by the
/// caller's key, plus the path of the source file they were read from.
#[derive(Debug)]
pub struct CsvPartialCache<T> {
    /// The path to the source file.
    pub path: String,
    /// The records, in the order produced by the build (ascending by key
    /// exactly when the decode order is; sortedness is the caller's
    /// responsibility and is required by `find`, not enforced here).
    pub items: Vec<T>,
}

impl<T: FromLineOffset> CsvPartialCache<T> {
    /// Builds an index from a table's path and whole text: skips the header
    /// line, decodes every following line into a record, and keeps them in
    /// line order. Any decode failure or offset overflow aborts the build.
    pub fn new(path: String, data: String) -> (r: Result<Self, Error>)
        ensures
            new_post(path, data, r),
    {
        let buf = data;
        let mut items: Vec<T> = Vec::new();
        let mut rdr = LineOffset::<T::Offset>::from_buf(path.clone(), buf);
        let ghost bytes = rdr.stream();
        let ghost start = next_line_start(bytes, 0);
        proof {
            T::Offset::lemma_zero_in_range();
            lemma_line_end(bytes, 0);
        }
        let _header = rdr.next();
        proof {
            assert(items@ + Seq::<T>::empty() =~= items@);
            if bytes.len() > 0 {
                match build_from::<T>(bytes, start, 1) {
                    BuildOutcome::Built(rest) => {
                        assert(items@ + rest =~= rest);
                    },
                    _ => {},
                }
            }
        }
        loop
            invariant
                rdr.wf(),
                rdr.stream() == bytes,
                bytes == encode_utf8(data@),
                start == next_line_start(bytes, 0),
                0 <= start <= bytes.len(),
                rdr.display_name() == path@,
                match build_from::<T>(bytes, rdr.cursor(), rdr.line_index()) {
                    BuildOutcome::Built(rest) => build_from::<T>(bytes, start, 1)
                        == BuildOutcome::Built(items@ + rest),
                    BuildOutcome::Overflow(at, idx) => build_from::<T>(bytes, start, 1)
                        == BuildOutcome::<T>::Overflow(at, idx),
                    BuildOutcome::Failed(at, idx) => build_from::<T>(bytes, start, 1)
                        == BuildOutcome::<T>::Failed(at, idx),
                },
            ensures
                build_from::<T>(bytes, start, 1) == BuildOutcome::Built(items@),
            decreases bytes.len() - rdr.cursor(),
        {
            let ghost pc = rdr.cursor();
            let ghost pi = rdr.line_index();
            match rdr.next() {
                None => {
                    proof {
                        assert(items@ + Seq::<T>::empty() =~= items@);
                    }
                    break ;
                },
                Some(row) => {
                    match row {
                        Err(e) => {
                            return Err(e);
                        },
                        Ok((line, off)) => {
                            proof {
                                lemma_line_end(bytes, pc);
                            }
                            match T::from_line_offset(line.as_str(), off) {
                                Err(e) => {
                                    return Err(e);
                                },
                                Ok(t) => {
                                    let ghost old_items = items@;
                                    items.push(t);
                                    proof {
                                        match build_from::<T>(
                                            bytes,
                                            rdr.cursor(),
                                            rdr.line_index(),
                                        ) {
                                            BuildOutcome::Built(rest) => {
                                                assert(old_items + (seq![t] + rest) =~= items@
                                                    + rest);
                                            },
                                            _ => {},
                                        }
                                    }
                                },
                            }
                        },
                    }
                },
            }
        }
        Ok(CsvPartialCache { path, items })
    }

    /// Looks a record up by key, by binary search over `items` using the
    /// projection `f`.
    ///
    /// The caller is responsible for `items` being sorted ascending by the
    /// same projection (and for the projection being a function of the
    /// record); that is this function's precondition, not an invariant the
    /// index enforces. Returns a matching record — an unspecified one of the
    /// equal matches — or `None` exactly when no record has the key.
    pub fn find<F: Fn(&T) -> u64>(&self, b: &u64, f: F) -> (r: Option<&T>)
        requires
            forall|t: &T| #[trigger] call_requires(f, (t,)),
            forall|t: &T, k1: u64, k2: u64|
                call_ensures(f, (t,), k1) && call_ensures(f, (t,), k2) ==> k1 == k2,
            forall|i: int, j: int, ki: u64, kj: u64|
                0 <= i < j < self.items@.len() && call_ensures(f, (&self.items@[i],), ki)
                    && call_ensures(f, (&self.items@[j],), kj) ==> ki <= kj,
        ensures
            match r {
                Some(t) => exists|i: int|
                    0 <= i < self.items@.len() && *t == self.items@[i] && call_ensures(
                        f,
                        (t,),
                        *b,
                    ),
                None => forall|i: int, k: u64|
                    0 <= i < self.items@.len() && call_ensures(f, (&self.items@[i],), k) ==> k
                        != *b,
            },
    {
        let mut lo: usize = 0;
        let mut hi: usize = self.items.len();
        while lo < hi
            invariant
                lo <= hi <= self.items@.len(),
                forall|t: &T| #[trigger] call_requires(f, (t,)),
                forall|t: &T, k1: u64, k2: u64|
                    call_ensures(f, (t,), k1) && call_ensures(f, (t,), k2) ==> k1 == k2,
                forall|i: int, j: int, ki: u64, kj: u64|
                    0 <= i < j < self.items@.len() && call_ensures(f, (&self.items@[i],), ki)
                        && call_ensures(f, (&self.items@[j],), kj) ==> ki <= kj,
                forall|i: int, k: u64|
                    0 <= i < lo as int && call_ensures(f, (&self.items@[i],), k) ==> k < *b,
                forall|i: int, k: u64|
                    hi as int <= i < self.items@.len() && call_ensures(f, (&self.items@[i],), k)
                        ==> k > *b,
            decreases hi - lo,
        {
            let mid = lo + (hi - lo) / 2;
            let t = &self.items[mid];
            let k = f(t);
            if k < *b {
                lo = mid + 1;
            } else if *b < k {
                hi = mid;
            } else {
                return Some(t);
            }
        }
        None
    }

    /// Restores or rebuilds an index with a snapshot's help.
    ///
    /// When the snapshot was expired (see [`is_cache_expired`]), the source's
    /// text is parsed exactly as [`CsvPartialCache::new`] would; the caller
    /// then persists the fresh records. When the snapshot was fresh, the
    /// records restored from it are taken as they are — element for element,
    /// with no decoding — and `path` still names the source table, so later
    /// full-record fetches read the original file, not the snapshot.
    pub fn from_cache(csv_path: String, source: SnapshotSource<T>) -> (r: Result<Self, Error>)
        ensures
            match source {
                SnapshotSource::Rebuild(data) => new_post(csv_path, data, r),
                SnapshotSource::Reuse(records) => {
                    &&& r matches Ok(c)
                    &&& c.path == csv_path
                    &&& c.items@ == records@
                },
            },
    {
        let p = csv_path;
        match source {
            SnapshotSource::Rebuild(data) => {
                let d = data;
                Self::new(p, d)
            },
            SnapshotSource::Reuse(records) => Ok(CsvPartialCache { path: p, items: records }),
        }
    }
}

/// Every record of a successful build keeps the line it came from: its stored
/// offset is representable in the chosen width, lies at or past the position
/// the build started from, and decoding the line found at that offset yields
/// the record itself. A full-record fetch that reads the line at the stored
/// offset therefore reads exactly the record's own line.
pub proof fn lemma_built_records_keep_their_lines<T: FromLineOffset>(
    bytes: Seq<u8>,
    pos: int,
    idx: int,
    records: Seq<T>,
    i: int,
)
    requires
        bytes.len() <= usize::MAX,
        0 <= pos <= bytes.len(),
        build_from::<T>(bytes, pos, idx) == BuildOutcome::<T>::Built(records),
        0 <= i < records.len(),
    ensures
        ({
            let off = records[i].spec_offset();
            &&& T::Offset::spec_in_range(off.spec_val())
            &&& pos <= off.spec_val() as int <= bytes.len()
            &&& T::spec_from_line(
                decode_utf8(line_content(bytes, off.spec_val() as int)),
                off,
            ) == Some(records[i])
        }),
    decreases bytes.len() - pos,
{
    lemma_line_end(bytes, pos);
    let line0 = decode_utf8(line_content(bytes, pos));
    let o0 = T::Offset::spec_of(pos as u64);
    match T::spec_from_line(line0, o0) {
        Some(t) => {
            match build_from::<T>(bytes, next_line_start(bytes, pos), idx + 1) {
                BuildOutcome::Built(rest) => {
                    assert(records == seq![t] + rest);
                    if i == 0 {
                        assert(records[0] == t);
                        T::lemma_from_line_stores_offset(line0, o0);
                        T::Offset::lemma_of_val(pos as u64);
                    } else {
                        assert(records[i] == rest[i - 1]);
                        lemma_built_records_keep_their_lines::<T>(
                            bytes,
                            next_line_start(bytes, pos),
                            idx + 1,
                            rest,
                            i - 1,
                        );
                    }
                },
                _ => {
                    assert(false);
                },
            }
        },
        None => {
            assert(false);
        },
    }
}

/// The records of a successful build carry strictly increasing offsets: they
/// stand in the order of their lines in the table. An index whose lookup key
/// is monotone in the line order — the stored offset itself, say — is
/// therefore sorted as [`CsvPartialCache::find`] requires.
pub proof fn lemma_built_offsets_increase<T: FromLineOffset>(
    bytes: Seq<u8>,
    pos: int,
    idx: int,
    records: Seq<T>,
    i: int,
    j: int,
)
    requires
        bytes.len() <= usize::MAX,
        0 <= pos <= bytes.len(),
        build_from::<T>(bytes, pos, idx) == BuildOutcome::<T>::Built(records),
        0 <= i < j < records.len(),
    ensures
        records[i].spec_offset().spec_val() < records[j].spec_offset().spec_val(),
    decreases bytes.len() - pos,
{
    lemma_line_end(bytes, pos);
    let line0 = decode_utf8(line_content(bytes, pos));
    let o0 = T::Offset::spec_of(pos as u64);
    match T::spec_from_line(line0, o0) {
        Some(t) => {
            match build_from::<T>(bytes, next_line_start(bytes, pos), idx + 1) {
                BuildOutcome::Built(rest) => {
                    assert(records == seq![t] + rest);
                    if i == 0 {
                        assert(records[0] == t);
                        T::lemma_from_line_stores_offset(line0, o0);
                        T::Offset::lemma_of_val(pos as u64);
                        lemma_built_records_keep_their_lines::<T>(
                            bytes,
                            next_line_start(bytes, pos),
                            idx + 1,
                            rest,
                            j - 1,
                        );
                    } else {
                        lemma_built_offsets_increase::<T>(
                            bytes,
                            next_line_start(bytes, pos),
                            idx + 1,
                            rest,
                            i - 1,
                            j - 1,
                        );
                    }
                },
                _ => {
                    assert(false);
                },
            }
        },
        None => {
            assert(false);
        },
    }
}

/// The header-skip law: no record of a successful build was decoded from the
/// table's first line. Every record's stored offset lies at or past the start
/// of the second line, so in particular it is never the first line's offset,
/// zero — whatever the header's content.
pub proof fn lemma_header_never_decoded<T: FromLineOffset>(data: Seq<char>, records: Seq<T>, i: int)
    requires
        encode_utf8(data).len() <= usize::MAX,
        build_outcome_of::<T>(data) == BuildOutcome::<T>::Built(records),
        0 <= i < records.len(),
    ensures
        records[i].spec_offset().spec_val() as int >= next_line_start(encode_utf8(data), 0),
        records[i].spec_offset().spec_val() > 0,
{
    let bytes = encode_utf8(data);
    lemma_line_end(bytes, 0);
    let start = next_line_start(bytes, 0);
    lemma_built_records_keep_their_lines::<T>(bytes, start, 1, records, i);
    if start == bytes.len() {
        assert(records.len() == 0);
    }
}

/// The staleness rule: a snapshot is expired when it is missing, or when its
/// modification time is not strictly newer than the source file's.
pub open spec fn spec_is_expired(cache_exists: bool, csv_modified: u64, cache_modified: u64) -> bool {
    !cache_exists || cache_modified <= csv_modified
}

/// Decides whether a snapshot may be reused, from what the filesystem
/// reports: whether the snapshot file exists, and the modification times of
/// the source file and of the snapshot file.
pub fn is_cache_expired(cache_exists: bool, csv_modified: u64, cache_modified: u64) -> (r: bool)
    ensures
        r == spec_is_expired(cache_exists, csv_modified, cache_modified),
{
    !cache_exists || cache_modified <= csv_modified
}

/// Touching the source file after a snapshot was written — so that the
/// source's modification time is at or past the snapshot's — expires the
/// snapshot: the next restore rebuilds instead of reusing it.
pub proof fn lemma_touched_source_expires_snapshot(
    cache_exists: bool,
    csv_modified: u64,
    cache_modified: u64,
)
    requires
        csv_modified >= cache_modified,
    ensures
        spec_is_expired(cache_exists, csv_modified, cache_modified),
{
}

} // verus!
