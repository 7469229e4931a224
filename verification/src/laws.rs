//! Laws of the scanner, proved once and for all inputs: the round trip from
//! rendering to parsing, the position invariant of a line's pairs, the
//! label-before-value error order, the agreement of the eager collectors
//! with the lazy field results, and the purity of validation.

use vstd::prelude::*;

use crate::error::ErrorKind;
use crate::error::SpecError;
use crate::grammar::spec_is_field_byte;
use crate::grammar::spec_is_label_byte;
use crate::grammar::valid_field_value;
use crate::grammar::valid_label;
use crate::grammar::NEWLINE;
use crate::grammar::SPLITTER;
use crate::grammar::TAB;
use crate::model::fields_offset;
use crate::model::first_index;
use crate::model::lemma_first_index_at;
use crate::model::lemma_offset_nonneg;
use crate::model::lemma_parse_field_ok;
use crate::model::lemma_scan_entries;
use crate::model::pairs_table;
use crate::model::spec_collect;
use crate::model::spec_collect_lines;
use crate::model::spec_collect_record;
use crate::model::spec_fields;
use crate::model::spec_lines;
use crate::model::spec_parse;
use crate::model::spec_parse_field;
use crate::model::spec_record;
use crate::model::spec_tokenize;
use crate::model::spec_validate_doc;
use crate::pair::pair_of;
use crate::pair::SpecPair;
use crate::pair::SpecToken;

verus! {

/// Round trip: rendering a pair whose label is drawn from the label alphabet
/// and whose value is free of structural bytes, then parsing that
/// single-field line, yields exactly that pair back, on line 0 spanning the
/// whole line.
pub proof fn lemma_render_parse_round_trip(label: Seq<u8>, value: Seq<u8>)
    requires
        valid_label(label),
        valid_field_value(value),
    ensures
        spec_parse(label + seq![SPLITTER] + value) == Ok::<Seq<Seq<SpecPair>>, SpecError>(
            seq![seq![SpecPair { label, field: value }]],
        ),
{
    let rendered = label + seq![SPLITTER] + value;
    let n = rendered.len() as int;
    let ll = label.len() as int;
    assert forall|j: int| 0 <= j < ll implies rendered[j] == label[j] by {}
    assert(rendered[ll] == SPLITTER);
    assert forall|j: int| ll + 1 <= j < n implies rendered[j] == value[j - ll - 1] by {}
    // none of the bytes is a newline or a tab, so the whole input is one
    // line holding one field
    assert forall|j: int| 0 <= j < n implies rendered[j] != NEWLINE by {
        if j < ll {
            assert(spec_is_label_byte(rendered[j]));
        } else if j > ll {
            assert(spec_is_field_byte(rendered[j]));
        }
    }
    lemma_first_index_at(rendered, NEWLINE, n);
    assert(spec_lines(rendered) == seq![rendered]);
    assert forall|j: int| 0 <= j < n implies rendered[j] != TAB by {
        if j < ll {
            assert(spec_is_label_byte(rendered[j]));
        } else if j > ll {
            assert(spec_is_field_byte(rendered[j]));
        }
    }
    lemma_first_index_at(rendered, TAB, n);
    assert(spec_record(rendered, 0) == seq![spec_parse_field(rendered, 0, 0)]);
    // the first separator stands right after the label
    assert forall|j: int| 0 <= j < ll implies rendered[j] != SPLITTER by {
        assert(spec_is_label_byte(rendered[j]));
    }
    lemma_first_index_at(rendered, SPLITTER, ll);
    let t = SpecToken {
        label: rendered.subrange(0, ll),
        field: rendered.subrange(ll + 1, n),
        line: 0,
        start: 0,
        end: n as nat,
    };
    assert(t.label =~= label);
    assert(t.field =~= value);
    assert(spec_parse_field(rendered, 0, 0) == Ok::<SpecToken, SpecError>(t));
    // collecting the single successful field
    let rs = seq![Ok::<SpecToken, SpecError>(t)];
    assert(rs.drop_first() =~= Seq::<Result<SpecToken, SpecError>>::empty());
    assert(spec_collect_record(rs.drop_first()) == Ok::<Seq<SpecToken>, SpecError>(
        Seq::<SpecToken>::empty(),
    ));
    assert(seq![t] + Seq::<SpecToken>::empty() =~= seq![t]);
    assert(spec_collect_record(rs) == Ok::<Seq<SpecToken>, SpecError>(seq![t]));
    let ls = seq![rendered];
    assert(ls.drop_first() =~= Seq::<Seq<u8>>::empty());
    assert(spec_collect_lines(ls.drop_first(), 1) == Ok::<Seq<Seq<SpecToken>>, SpecError>(
        Seq::<Seq<SpecToken>>::empty(),
    ));
    assert(seq![seq![t]] + Seq::<Seq<SpecToken>>::empty() =~= seq![seq![t]]);
    assert(spec_collect(rendered) == Ok::<Seq<Seq<SpecToken>>, SpecError>(seq![seq![t]]));
    assert(pairs_table(seq![seq![t]]) =~= seq![seq![pair_of(t)]]) by {
        assert(pairs_table(seq![seq![t]])[0] =~= seq![pair_of(t)]);
    }
    assert(pair_of(t) == (SpecPair { label, field: value }));
}

/// Position invariant: a successfully parsed pair spans exactly its
/// tab-delimited substring, and when two consecutive fields both parse, the
/// later pair starts one byte (the consumed tab) past the earlier one's end.
pub proof fn lemma_position_invariant(c: Seq<u8>, line: nat, i: int)
    requires
        0 <= i < spec_record(c, line).len(),
    ensures
        spec_record(c, line).len() == spec_fields(c).len(),
        spec_record(c, line)[i] matches Ok(p) ==> p.end - p.start == spec_fields(c)[i].len(),
        i + 1 < spec_record(c, line).len() ==> (spec_record(c, line)[i] matches Ok(p) ==> (
        spec_record(c, line)[i + 1] matches Ok(q) ==> q.start == p.end + 1)),
{
    lemma_scan_entries(c, line, 0);
    let fs = spec_fields(c);
    lemma_offset_nonneg(fs, i);
    lemma_parse_field_ok(fs[i], line, fields_offset(fs, i) as nat);
    if i + 1 < spec_record(c, line).len() {
        lemma_offset_nonneg(fs, i + 1);
        lemma_parse_field_ok(fs[i + 1], line, fields_offset(fs, i + 1) as nat);
        assert(fields_offset(fs, i + 1) == fields_offset(fs, i) + fs[i].len() + 1);
    }
}

/// First-error-wins: when a field has a separator but both its label and its
/// value are malformed, the reported error is always `InvalidLabel`, never
/// `InvalidField`.
pub proof fn lemma_label_error_first(f: Seq<u8>, line: nat, start: nat)
    requires
        first_index(f, SPLITTER) < f.len(),
        !valid_label(f.subrange(0, first_index(f, SPLITTER) as int)),
        !valid_field_value(f.subrange(first_index(f, SPLITTER) as int + 1, f.len() as int)),
    ensures
        spec_parse_field(f, line, start) matches Err(e) && e.kind == ErrorKind::InvalidLabel,
{
}

/// A record is empty exactly for a truly empty line: a line holding a single
/// malformed field still yields a one-element sequence carrying that error.
pub proof fn lemma_empty_record_only_for_empty_line(c: Seq<u8>, line: nat)
    ensures
        spec_record(c, line).len() == 0 <==> c.len() == 0,
{
    if c.len() > 0 {
        lemma_scan_entries(c, line, 0);
    }
}

/// Collecting one record is filtering-free iteration: on success the
/// collected tokens are exactly the yielded results' payloads in order; on
/// failure the reported error is the first failed field, and every field
/// before it succeeded.
pub proof fn lemma_collect_record_results(rs: Seq<Result<SpecToken, SpecError>>)
    ensures
        spec_collect_record(rs) matches Ok(ts) ==> ts.len() == rs.len() && (forall|j: int|
            0 <= j < rs.len() ==> rs[j] == Ok::<SpecToken, SpecError>(ts[j])),
        spec_collect_record(rs) is Ok <==> (forall|j: int| 0 <= j < rs.len() ==> rs[j] is Ok),
        spec_collect_record(rs) matches Err(e) ==> exists|j: int|
            0 <= j < rs.len() && rs[j] == Err::<SpecToken, SpecError>(e) && (forall|k: int|
                0 <= k < j ==> rs[k] is Ok),
    decreases rs.len(),
{
    if rs.len() == 0 {
    } else {
        let tail = rs.drop_first();
        lemma_collect_record_results(tail);
        match rs[0] {
            Err(e) => {
                let j: int = 0;
                assert(0 <= j < rs.len() && rs[j] == Err::<SpecToken, SpecError>(e) && (forall|
                    k: int,
                |
                    0 <= k < j ==> rs[k] is Ok));
            },
            Ok(t) => {
                match spec_collect_record(tail) {
                    Ok(rest) => {
                        let ts = seq![t] + rest;
                        assert(spec_collect_record(rs) == Ok::<Seq<SpecToken>, SpecError>(ts));
                        assert forall|j: int|
                            0 <= j < rs.len() implies rs[j] == Ok::<SpecToken, SpecError>(
                            ts[j],
                        ) by {
                            if j >= 1 {
                                assert(tail[j - 1] == rs[j]);
                                assert(tail[j - 1] == Ok::<SpecToken, SpecError>(rest[j - 1]));
                            }
                        }
                    },
                    Err(e) => {
                        let j0 = choose|j: int|
                            0 <= j < tail.len() && tail[j] == Err::<SpecToken, SpecError>(e) && (
                            forall|k: int| 0 <= k < j ==> tail[k] is Ok);
                        let j = j0 + 1;
                        assert(tail[j0] == rs[j]);
                        assert forall|k: int| 0 <= k < j implies rs[k] is Ok by {
                            if k >= 1 {
                                assert(tail[k - 1] == rs[k]);
                                assert(tail[k - 1] is Ok);
                            }
                        }
                        assert(0 <= j < rs.len() && rs[j] == Err::<SpecToken, SpecError>(e) && (
                        forall|k: int| 0 <= k < j ==> rs[k] is Ok));
                        assert(!(rs[j] is Ok));
                    },
                }
            },
        }
    }
}

/// Collecting whole lines is row-by-row record collection: on success row
/// `i` is the collected record of line `i`; collection succeeds exactly when
/// every line's record collects.
pub proof fn lemma_collect_lines_rows(ls: Seq<Seq<u8>>, base: nat)
    ensures
        spec_collect_lines(ls, base) matches Ok(tb) ==> tb.len() == ls.len() && (forall|i: int|
            0 <= i < ls.len() ==> spec_collect_record(spec_record(ls[i], (base + i) as nat))
                == Ok::<Seq<SpecToken>, SpecError>(tb[i])),
        spec_collect_lines(ls, base) is Ok <==> (forall|i: int|
            0 <= i < ls.len() ==> spec_collect_record(spec_record(ls[i], (base + i) as nat)) is Ok),
    decreases ls.len(),
{
    if ls.len() == 0 {
    } else {
        let tail = ls.drop_first();
        lemma_collect_lines_rows(tail, base + 1);
        match spec_collect_record(spec_record(ls[0], base)) {
            Err(_) => {
                assert((base + 0) as nat == base);
                assert(!(spec_collect_record(spec_record(ls[0], (base + 0) as nat)) is Ok));
                assert(spec_collect_lines(ls, base) is Err);
            },
            Ok(ts) => {
                match spec_collect_lines(tail, base + 1) {
                    Ok(rest) => {
                        let tb = seq![ts] + rest;
                        assert(spec_collect_lines(ls, base) == Ok::<
                            Seq<Seq<SpecToken>>,
                            SpecError,
                        >(tb));
                        assert forall|i: int|
                            0 <= i < ls.len() implies spec_collect_record(
                            spec_record(ls[i], (base + i) as nat),
                        ) == Ok::<Seq<SpecToken>, SpecError>(tb[i]) by {
                            if i == 0 {
                                assert((base + 0) as nat == base);
                            } else {
                                assert(tail[i - 1] == ls[i]);
                                assert(spec_collect_record(
                                    spec_record(tail[i - 1], ((base + 1) + (i - 1)) as nat),
                                ) == Ok::<Seq<SpecToken>, SpecError>(rest[i - 1]));
                                assert(((base + 1) + (i - 1)) as nat == (base + i) as nat);
                            }
                        }
                        assert forall|i: int|
                            0 <= i < ls.len() implies spec_collect_record(
                            spec_record(ls[i], (base + i) as nat),
                        ) is Ok by {
                            assert(spec_collect_record(spec_record(ls[i], (base + i) as nat))
                                == Ok::<Seq<SpecToken>, SpecError>(tb[i]));
                        }
                    },
                    Err(_) => {
                        let iw = choose|i: int|
                            0 <= i < tail.len() && !(spec_collect_record(
                                spec_record(tail[i], ((base + 1) + i) as nat),
                            ) is Ok);
                        let i = iw + 1;
                        assert(tail[iw] == ls[i]);
                        assert(((base + 1) + iw) as nat == (base + i) as nat);
                        assert(!(spec_collect_record(spec_record(ls[i], (base + i) as nat)) is Ok));
                        assert(spec_collect_lines(ls, base) is Err);
                    },
                }
            },
        }
    }
}

/// The eager table agrees with the lazy decomposition: a successful full
/// collection holds, row for row, the collected field results of
/// [`crate::model::spec_tokenize`].
pub proof fn lemma_collect_agrees_with_tokenize(s: Seq<u8>)
    ensures
        spec_collect(s) matches Ok(tb) ==> tb.len() == spec_tokenize(s).len() && (forall|i: int|
            0 <= i < spec_tokenize(s).len() ==> spec_collect_record(spec_tokenize(s)[i]) == Ok::<
                Seq<SpecToken>,
                SpecError,
            >(tb[i])),
{
    lemma_collect_lines_rows(spec_lines(s), 0);
}

/// Validation is pure: its outcome is a function of the input bytes alone,
/// so validating the same buffer twice yields identical results.
pub proof fn lemma_validate_idempotent(s: Seq<u8>, r1: Option<SpecError>, r2: Option<SpecError>)
    requires
        r1 == spec_validate_doc(s),
        r2 == spec_validate_doc(s),
    ensures
        r1 == r2,
{
}

} // verus!
