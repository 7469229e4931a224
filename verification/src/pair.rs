//! Validated output units: a plain label/value pair, and a pair together with
//! its provenance (line index and byte span within that line).

use vstd::prelude::*;

use crate::error::Error;
use crate::error::ErrorKind;
use crate::error::SpecError;
use crate::grammar::is_field_byte;
use crate::grammar::is_label_byte;
use crate::grammar::spec_is_field_byte;
use crate::grammar::spec_is_label_byte;
use crate::grammar::valid_field_value;
use crate::grammar::valid_label;
use crate::grammar::SPLITTER;

verus! {

/// Mathematical model of a [`Pair`].
pub struct SpecPair {
    pub label: Seq<u8>,
    pub field: Seq<u8>,
}

/// Mathematical model of a [`PairToken`].
pub struct SpecToken {
    pub label: Seq<u8>,
    pub field: Seq<u8>,
    pub line: nat,
    pub start: nat,
    pub end: nat,
}

/// The plain pair carried by a token, with the provenance dropped.
pub open spec fn pair_of(t: SpecToken) -> SpecPair {
    SpecPair { label: t.label, field: t.field }
}

/// A validated `label:value` pair.
#[derive(Debug, PartialEq, Eq, Default, Clone)]
pub struct Pair {
    pub label: Vec<u8>,
    pub field: Vec<u8>,
}

impl View for Pair {
    type V = SpecPair;

    open spec fn view(&self) -> SpecPair {
        SpecPair { label: self.label@, field: self.field@ }
    }
}

impl DeepView for Pair {
    type V = SpecPair;

    open spec fn deep_view(&self) -> SpecPair {
        self.view()
    }
}

/// A `label:value` pair plus provenance: the 0-based line index and the byte
/// span `[start, end)` of the whole `label:value` substring within its line.
#[derive(Debug, PartialEq, Eq)]
pub struct PairToken {
    pub label: Vec<u8>,
    pub field: Vec<u8>,
    pub line: usize,
    pub start: usize,
    pub end: usize,
}

impl View for PairToken {
    type V = SpecToken;

    open spec fn view(&self) -> SpecToken {
        SpecToken {
            label: self.label@,
            field: self.field@,
            line: self.line as nat,
            start: self.start as nat,
            end: self.end as nat,
        }
    }
}

impl DeepView for PairToken {
    type V = SpecToken;

    open spec fn deep_view(&self) -> SpecToken {
        self.view()
    }
}

/// The outcome of checking a token's label: `None` when the label is
/// well-formed, otherwise an `InvalidLabel` error spanning exactly the label.
pub open spec fn spec_validate_label(t: SpecToken) -> Option<SpecError> {
    if valid_label(t.label) {
        None
    } else {
        Some(
            SpecError {
                txt: t.label,
                kind: ErrorKind::InvalidLabel,
                line: t.line,
                start: t.start,
                end: (t.start + t.label.len()) as nat,
            },
        )
    }
}

/// The outcome of checking a token's value: `None` when the value is
/// well-formed, otherwise an `InvalidField` error spanning exactly the value
/// (offset past the label and the separator).
pub open spec fn spec_validate_field(t: SpecToken) -> Option<SpecError> {
    if valid_field_value(t.field) {
        None
    } else {
        Some(
            SpecError {
                txt: t.field,
                kind: ErrorKind::InvalidField,
                line: t.line,
                start: (t.start + t.label.len() + 1) as nat,
                end: t.end,
            },
        )
    }
}

/// The outcome of validating a token: the label is checked before the value,
/// so when both are malformed only the label error is reported.
pub open spec fn spec_validate(t: SpecToken) -> Option<SpecError> {
    if spec_validate_label(t) is Some {
        spec_validate_label(t)
    } else {
        spec_validate_field(t)
    }
}

impl PairToken {
    /// A token over the given label and value, with line and span still zero.
    pub fn new(label: &[u8], field: &[u8]) -> (t: PairToken)
        ensures
            t@ == (SpecToken { label: label@, field: field@, line: 0, start: 0, end: 0 }),
    {
        PairToken {
            label: vstd::slice::slice_to_vec(label),
            field: vstd::slice::slice_to_vec(field),
            line: 0,
            start: 0,
            end: 0,
        }
    }

    /// Checks the label, then the value, against the grammar's byte classes;
    /// reports the first failure with its exact span.
    pub fn validate(&self) -> (r: Result<(), Error>)
        requires
            self.start + self.label@.len() + 1 <= usize::MAX,
        ensures
            match r {
                Ok(_) => spec_validate(self@) is None,
                Err(e) => spec_validate(self@) == Some(e@),
            },
    {
        self.validate_label()?;
        self.validate_field()?;
        Ok(())
    }

    /// Checks that the label is non-empty and drawn from the label alphabet.
    fn validate_label(&self) -> (r: Result<(), Error>)
        requires
            self.start + self.label@.len() <= usize::MAX,
        ensures
            match r {
                Ok(_) => spec_validate_label(self@) is None,
                Err(e) => spec_validate_label(self@) == Some(e@),
            },
    {
        let n = self.label.len();
        let mut all = n > 0;
        let mut i: usize = 0;
        while i < n
            invariant
                i <= n,
                n == self.label@.len(),
                all == (n > 0 && forall|j: int| 0 <= j < i ==> spec_is_label_byte(self.label@[j])),
            decreases n - i,
        {
            if !is_label_byte(self.label[i]) {
                all = false;
            }
            i += 1;
        }
        if all {
            Ok(())
        } else {
            Err(
                Error::invalid_label(self.label.as_slice()).put_line(self.line).put_span(
                    self.start,
                    self.start + self.label.len(),
                ),
            )
        }
    }

    /// Checks that every byte of the value is drawn from the field-value
    /// alphabet.
    fn validate_field(&self) -> (r: Result<(), Error>)
        requires
            self.start + self.label@.len() + 1 <= usize::MAX,
        ensures
            match r {
                Ok(_) => spec_validate_field(self@) is None,
                Err(e) => spec_validate_field(self@) == Some(e@),
            },
    {
        let n = self.field.len();
        let mut all = true;
        let mut i: usize = 0;
        while i < n
            invariant
                i <= n,
                n == self.field@.len(),
                all == (forall|j: int| 0 <= j < i ==> spec_is_field_byte(self.field@[j])),
            decreases n - i,
        {
            if !is_field_byte(self.field[i]) {
                all = false;
            }
            i += 1;
        }
        if all {
            Ok(())
        } else {
            Err(
                Error::invalid_field(self.field.as_slice()).put_line(self.line).put_span(
                    self.start + self.label.len() + 1,
                    self.end,
                ),
            )
        }
    }
}

impl Pair {
    /// Renders the pair back to text: `label`, one separator byte, `field`.
    /// The format has no escape mechanism.
    pub fn render(&self) -> (out: Vec<u8>)
        ensures
            out@ == self.label@ + seq![SPLITTER] + self.field@,
    {
        let mut out: Vec<u8> = Vec::new();
        let mut i: usize = 0;
        while i < self.label.len()
            invariant
                i <= self.label@.len(),
                out@ == self.label@.subrange(0, i as int),
            decreases self.label@.len() - i,
        {
            out.push(self.label[i]);
            assert(out@ =~= self.label@.subrange(0, i + 1 as int));
            i += 1;
        }
        assert(out@ =~= self.label@);
        out.push(SPLITTER);
        let ghost mid = self.label@ + seq![SPLITTER];
        assert(out@ =~= mid);
        let mut j: usize = 0;
        while j < self.field.len()
            invariant
                j <= self.field@.len(),
                out@ == mid + self.field@.subrange(0, j as int),
            decreases self.field@.len() - j,
        {
            out.push(self.field[j]);
            assert(out@ =~= mid + self.field@.subrange(0, j + 1 as int));
            j += 1;
        }
        assert(out@ =~= self.label@ + seq![SPLITTER] + self.field@);
        out
    }
}

impl From<PairToken> for Pair {
    /// Drops the provenance, keeping the label and the value.
    fn from(input: PairToken) -> (p: Pair) {
        Pair { label: input.label, field: input.field }
    }
}

impl vstd::std_specs::convert::FromSpecImpl<PairToken> for Pair {
    open spec fn obeys_from_spec() -> bool {
        true
    }

    open spec fn from_spec(t: PairToken) -> Pair {
        Pair { label: t.label, field: t.field }
    }
}

} // verus!
