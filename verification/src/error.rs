//! The error taxonomy: every failure is reported to the immediate caller with
//! enough context (path, line index or byte offset, raw line text) to diagnose
//! it without re-reading the file.
//!
//! Causes that originate outside this library (an I/O failure, a column
//! decoder's complaint) are carried as plain messages, so that the whole type
//! is made of values the verifier can reason about.

use vstd::prelude::*;

verus! {

/// An error that can occur while building or using a partial index.
///
/// The first `String` of the tuple variants carries the message of the
/// underlying cause; the remaining fields name the place of the failure.
#[derive(Debug, PartialEq, Eq)]
pub enum Error {
    /// A file could not be opened; carries the cause and the path.
    OpenFile(String, String),
    /// A file could not be created; carries the cause and the path.
    CreateFile(String, String),
    /// A file's metadata could not be read; carries the cause and the path.
    ReadFileMetadata(String, String),
    /// A file's modification time could not be read; carries the cause and the path.
    GetFileModified(String, String),
    /// A line could not be decoded; carries the cause and the line's text.
    DeserializeLine(String, String),
    /// A line could not be read; carries the cause, the 0-based line index and
    /// the stream's display name.
    ReadLine(String, usize, String),
    /// The stream position after a line could not be queried; carries the
    /// cause, the 0-based line index and the stream's display name.
    SeekOffset(String, usize, String),
    /// A real byte position did not fit in the chosen offset type; carries the
    /// position, the 0-based line index and the stream's display name.
    IntoOffset(u64, usize, String),
    /// A seek into a file failed; carries the cause and the path.
    Seek(String, String),
    /// A line could not be read at a byte offset; carries the cause, the
    /// offset and the path.
    ReadLineOffset(String, u64, String),
    /// A delimited line could not be decoded; carries the cause.
    Csv(String),
    /// A full record's line could not be decoded.
    DecodeDetails {
        /// The message of the underlying cause.
        source: String,
        /// The path to the file where the failure occurred.
        file: String,
        /// The byte offset in the file where the failure occurred.
        offset: u64,
        /// The content of the line that failed to decode.
        line: String,
    },
    /// A snapshot could not be deserialized; carries the cause and the path.
    ReadCache(String, String),
    /// A snapshot could not be serialized; carries the cause and the path.
    WriteCache(String, String),
}

} // verus!
