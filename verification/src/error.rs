//! The error model: three mutually exclusive kinds of malformed field, each
//! reported with the offending substring and its line and byte-offset span.

use vstd::prelude::*;

verus! {

/// What went wrong inside one tab-delimited field.
#[derive(Debug, PartialEq, Eq, Clone, Copy)]
pub enum ErrorKind {
    /// The field contains no `:` separator at all.
    InvalidPair,
    /// A separator exists but the label is empty or contains a byte outside
    /// the label alphabet.
    InvalidLabel,
    /// The label is valid but the value contains a forbidden byte.
    InvalidField,
}

/// Mathematical model of an [`Error`]: the offending bytes, the kind, and the
/// location as unbounded integers.
pub struct SpecError {
    pub txt: Seq<u8>,
    pub kind: ErrorKind,
    pub line: nat,
    pub start: nat,
    pub end: nat,
}

/// A located validation error: the offending substring, its kind, the 0-based
/// line index, and the byte span `[start, end)` of the offending substring
/// within its line.
#[derive(Debug, PartialEq, Eq)]
pub struct Error {
    pub txt: Vec<u8>,
    pub kind: ErrorKind,
    pub line: usize,
    pub start: usize,
    pub end: usize,
}

impl View for Error {
    type V = SpecError;

    open spec fn view(&self) -> SpecError {
        SpecError {
            txt: self.txt@,
            kind: self.kind,
            line: self.line as nat,
            start: self.start as nat,
            end: self.end as nat,
        }
    }
}

impl Error {
    /// An `InvalidPair` error over `txt`, with line and span still zero.
    pub fn invalid_pair(txt: &[u8]) -> (e: Error)
        ensures
            e@ == (SpecError { txt: txt@, kind: ErrorKind::InvalidPair, line: 0, start: 0, end: 0 }),
    {
        Error { txt: vstd::slice::slice_to_vec(txt), kind: ErrorKind::InvalidPair, line: 0, start: 0, end: 0 }
    }

    /// An `InvalidLabel` error over `txt`, with line and span still zero.
    pub fn invalid_label(txt: &[u8]) -> (e: Error)
        ensures
            e@ == (SpecError { txt: txt@, kind: ErrorKind::InvalidLabel, line: 0, start: 0, end: 0 }),
    {
        Error { txt: vstd::slice::slice_to_vec(txt), kind: ErrorKind::InvalidLabel, line: 0, start: 0, end: 0 }
    }

    /// An `InvalidField` error over `txt`, with line and span still zero.
    pub fn invalid_field(txt: &[u8]) -> (e: Error)
        ensures
            e@ == (SpecError { txt: txt@, kind: ErrorKind::InvalidField, line: 0, start: 0, end: 0 }),
    {
        Error { txt: vstd::slice::slice_to_vec(txt), kind: ErrorKind::InvalidField, line: 0, start: 0, end: 0 }
    }

    /// Replaces the line index, leaving everything else unchanged.
    pub fn set_line(&mut self, line: usize)
        ensures
            final(self)@ == (SpecError { line: line as nat, ..old(self)@ }),
    {
        self.line = line;
    }

    /// Replaces the byte span, leaving everything else unchanged.
    pub fn set_span(&mut self, start: usize, end: usize)
        ensures
            final(self)@ == (SpecError { start: start as nat, end: end as nat, ..old(self)@ }),
    {
        self.start = start;
        self.end = end;
    }

    /// Builder form of [`Error::set_line`].
    pub fn put_line(self, line: usize) -> (e: Error)
        ensures
            e@ == (SpecError { line: line as nat, ..self@ }),
    {
        let mut e = self;
        e.line = line;
        e
    }

    /// Builder form of [`Error::set_span`].
    pub fn put_span(self, start: usize, end: usize) -> (e: Error)
        ensures
            e@ == (SpecError { start: start as nat, end: end as nat, ..self@ }),
    {
        let mut e = self;
        e.start = start;
        e.end = end;
        e
    }
}

} // verus!
