//! Parser and validator for Labeled Tab-separated Values (LTSV), a
//! line-oriented text format where each line is a tab-separated sequence of
//! `label:value` pairs.
//!
//! The scanner splits an input buffer into lines, lines into tab-delimited
//! fields, and fields into label/value pairs, validating each component
//! against a strict byte-class grammar and reporting precise byte-offset
//! spans on failure.
//!
//! Grammar (ABNF):
//!
//! ```text
//! ltsv        = *(record NL) [record]
//! record      = [field *(TAB field)]
//! field       = label ":" field-value
//! label       = 1*lbyte
//! field-value = *fbyte
//! TAB         = 0x09
//! NL          = [0x0D] 0x0A
//! lbyte       = 0x30-39 / 0x41-5A / 0x61-7A / "_" / "." / "-"
//! fbyte       = 0x01-08 / 0x0B / 0x0C / 0x0E-FF
//! ```

mod collect;
mod error;
mod grammar;
mod laws;
mod model;
mod pair;
mod scan;

pub use collect::parse;
pub use collect::validate;
pub use error::Error;
pub use error::ErrorKind;
pub use error::SpecError;
pub use grammar::is_field_byte;
pub use grammar::is_label_byte;
pub use grammar::spec_is_field_byte;
pub use grammar::spec_is_label_byte;
pub use grammar::valid_field_value;
pub use grammar::valid_label;
pub use grammar::CARRIAGE_RETURN;
pub use grammar::NEWLINE;
pub use grammar::SPLITTER;
pub use grammar::TAB;
pub use laws::lemma_collect_agrees_with_tokenize;
pub use laws::lemma_collect_lines_rows;
pub use laws::lemma_collect_record_results;
pub use laws::lemma_empty_record_only_for_empty_line;
pub use laws::lemma_label_error_first;
pub use laws::lemma_position_invariant;
pub use laws::lemma_render_parse_round_trip;
pub use laws::lemma_validate_idempotent;
pub use model::fields_offset;
pub use model::first_index;
pub use model::lemma_first_index;
pub use model::lemma_first_index_at;
pub use model::lemma_lines_count;
pub use model::pair_row;
pub use model::pairs_table;
pub use model::spec_collect;
pub use model::spec_collect_lines;
pub use model::spec_collect_record;
pub use model::spec_fields;
pub use model::spec_lines;
pub use model::spec_parse;
pub use model::spec_parse_field;
pub use model::spec_record;
pub use model::spec_scan_from;
pub use model::spec_tokenize;
pub use model::spec_validate_doc;
pub use model::strip_cr;
pub use pair::pair_of;
pub use pair::spec_validate;
pub use pair::spec_validate_field;
pub use pair::spec_validate_label;
pub use pair::Pair;
pub use pair::PairToken;
pub use pair::SpecPair;
pub use pair::SpecToken;
pub use scan::result_matches;
pub use scan::tokenize;
pub use scan::Data;
pub use scan::Record;
