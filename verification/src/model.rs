//! The mathematical model of the scan: how a buffer decomposes into lines, a
//! line into tab-delimited fields, and a field into a validated pair or a
//! located error. Every executable contract in the crate is stated over these
//! functions.

use vstd::prelude::*;

use crate::error::ErrorKind;
use crate::error::SpecError;
use crate::grammar::CARRIAGE_RETURN;
use crate::grammar::NEWLINE;
use crate::grammar::SPLITTER;
use crate::grammar::TAB;
use crate::pair::pair_of;
use crate::pair::spec_validate;
use crate::pair::SpecPair;
use crate::pair::SpecToken;

verus! {

/// Index of the first occurrence of `b` in `s`, or `s.len()` when `b` does
/// not occur.
pub open spec fn first_index(s: Seq<u8>, b: u8) -> nat
    decreases s.len(),
{
    if s.len() == 0 {
        0
    } else if s[0] == b {
        0
    } else {
        1 + first_index(s.drop_first(), b)
    }
}

/// `first_index` is at most `s.len()`, points at `b` when `b` occurs, and
/// nothing before it is `b`.
pub proof fn lemma_first_index(s: Seq<u8>, b: u8)
    ensures
        first_index(s, b) <= s.len(),
        first_index(s, b) < s.len() ==> s[first_index(s, b) as int] == b,
        forall|j: int| 0 <= j < first_index(s, b) ==> s[j] != b,
    decreases s.len(),
{
    if s.len() == 0 {
    } else if s[0] == b {
    } else {
        lemma_first_index(s.drop_first(), b);
        assert forall|j: int| 0 <= j < first_index(s, b) implies s[j] != b by {
            if j > 0 {
                assert(s.drop_first()[j - 1] == s[j]);
            }
        }
    }
}

/// Any position `k` with no `b` before it and `b` at it (or `k == s.len()`
/// with no `b` anywhere) is `first_index(s, b)`.
pub proof fn lemma_first_index_at(s: Seq<u8>, b: u8, k: int)
    requires
        0 <= k <= s.len(),
        forall|j: int| 0 <= j < k ==> s[j] != b,
        k < s.len() ==> s[k] == b,
    ensures
        first_index(s, b) == k,
    decreases s.len(),
{
    if s.len() == 0 {
    } else if s[0] == b {
        assert(k == 0);
    } else {
        assert(k >= 1);
        let d = s.drop_first();
        assert forall|j: int| 0 <= j < k - 1 implies d[j] != b by {
            assert(d[j] == s[j + 1]);
        }
        assert(k - 1 < d.len() ==> d[k - 1] == b);
        lemma_first_index_at(d, b, k - 1);
    }
}

/// A line's content: the terminating newline is already gone, and one
/// carriage return directly before it belongs to the terminator too.
pub open spec fn strip_cr(l: Seq<u8>) -> Seq<u8> {
    if l.len() > 0 && l[l.len() - 1] == CARRIAGE_RETURN {
        l.drop_last()
    } else {
        l
    }
}

/// The lines of a buffer, split at each newline byte; the final line need not
/// be terminated, and a terminated final line leaves no trailing empty line.
pub open spec fn spec_lines(s: Seq<u8>) -> Seq<Seq<u8>>
    decreases s.len(),
    via spec_lines_decreases
{
    if s.len() == 0 {
        Seq::empty()
    } else {
        let i = first_index(s, NEWLINE);
        if i == s.len() {
            seq![s]
        } else {
            seq![strip_cr(s.subrange(0, i as int))] + spec_lines(
                s.subrange(i as int + 1, s.len() as int),
            )
        }
    }
}

#[via_fn]
proof fn spec_lines_decreases(s: Seq<u8>) {
    lemma_first_index(s, NEWLINE);
}

/// The tab-delimited fields of one line: `n` tab bytes yield `n + 1` fields.
pub open spec fn spec_fields(c: Seq<u8>) -> Seq<Seq<u8>>
    decreases c.len(),
    via spec_fields_decreases
{
    let i = first_index(c, TAB);
    if i == c.len() {
        seq![c]
    } else {
        seq![c.subrange(0, i as int)] + spec_fields(c.subrange(i as int + 1, c.len() as int))
    }
}

#[via_fn]
proof fn spec_fields_decreases(c: Seq<u8>) {
    lemma_first_index(c, TAB);
}

/// Byte offset of field `j` within its line: every earlier field plus one
/// consumed tab each.
pub open spec fn fields_offset(fs: Seq<Seq<u8>>, j: int) -> int
    decreases j,
{
    if j <= 0 {
        0
    } else {
        fields_offset(fs, j - 1) + fs[j - 1].len() + 1
    }
}

/// Parsing one tab-delimited field that starts at byte `start` of line
/// `line`: split at the first separator, then validate label and value.
pub open spec fn spec_parse_field(f: Seq<u8>, line: nat, start: nat) -> Result<
    SpecToken,
    SpecError,
> {
    let c = first_index(f, SPLITTER);
    if c == f.len() {
        Err(
            SpecError {
                txt: f,
                kind: ErrorKind::InvalidPair,
                line,
                start,
                end: (start + f.len()) as nat,
            },
        )
    } else {
        let t = SpecToken {
            label: f.subrange(0, c as int),
            field: f.subrange(c as int + 1, f.len() as int),
            line,
            start,
            end: (start + f.len()) as nat,
        };
        match spec_validate(t) {
            Some(e) => Err(e),
            None => Ok(t),
        }
    }
}

/// The field results of the rest of a line, whose unscanned content `c`
/// begins at byte `start` of line `line`.
pub open spec fn spec_scan_from(c: Seq<u8>, line: nat, start: nat) -> Seq<
    Result<SpecToken, SpecError>,
>
    decreases c.len(),
    via spec_scan_from_decreases
{
    let i = first_index(c, TAB);
    if i == c.len() {
        seq![spec_parse_field(c, line, start)]
    } else {
        seq![spec_parse_field(c.subrange(0, i as int), line, start)] + spec_scan_from(
            c.subrange(i as int + 1, c.len() as int),
            line,
            (start + i + 1) as nat,
        )
    }
}

#[via_fn]
proof fn spec_scan_from_decreases(c: Seq<u8>, line: nat, start: nat) {
    lemma_first_index(c, TAB);
}

/// The field results of one whole line: a truly empty line yields no fields.
pub open spec fn spec_record(c: Seq<u8>, line: nat) -> Seq<Result<SpecToken, SpecError>> {
    if c.len() == 0 {
        Seq::empty()
    } else {
        spec_scan_from(c, line, 0)
    }
}

/// The full lazy decomposition of a buffer: one field-result sequence per
/// line, in input order, tagged with strictly increasing 0-based line
/// indices.
pub open spec fn spec_tokenize(s: Seq<u8>) -> Seq<Seq<Result<SpecToken, SpecError>>> {
    Seq::new(spec_lines(s).len(), |i: int| spec_record(spec_lines(s)[i], i as nat))
}

/// Eagerly draining one line's results: the tokens in order, or the first
/// error.
pub open spec fn spec_collect_record(rs: Seq<Result<SpecToken, SpecError>>) -> Result<
    Seq<SpecToken>,
    SpecError,
>
    decreases rs.len(),
{
    if rs.len() == 0 {
        Ok(Seq::empty())
    } else {
        match rs[0] {
            Err(e) => Err(e),
            Ok(t) => match spec_collect_record(rs.drop_first()) {
                Ok(rest) => Ok(seq![t] + rest),
                Err(e) => Err(e),
            },
        }
    }
}

/// Eagerly draining whole lines, the first carrying line index `base`: the
/// table of tokens, or the first error in scan order.
pub open spec fn spec_collect_lines(ls: Seq<Seq<u8>>, base: nat) -> Result<
    Seq<Seq<SpecToken>>,
    SpecError,
>
    decreases ls.len(),
{
    if ls.len() == 0 {
        Ok(Seq::empty())
    } else {
        match spec_collect_record(spec_record(ls[0], base)) {
            Err(e) => Err(e),
            Ok(ts) => match spec_collect_lines(ls.drop_first(), base + 1) {
                Ok(rest) => Ok(seq![ts] + rest),
                Err(e) => Err(e),
            },
        }
    }
}

/// Eagerly draining a whole buffer into a table of tokens, aborting on the
/// first error.
pub open spec fn spec_collect(s: Seq<u8>) -> Result<Seq<Seq<SpecToken>>, SpecError> {
    spec_collect_lines(spec_lines(s), 0)
}

/// One line's tokens with the provenance dropped from each.
pub open spec fn pair_row(ts: Seq<SpecToken>) -> Seq<SpecPair> {
    ts.map_values(|t: SpecToken| pair_of(t))
}

/// A token table with the provenance dropped from every token.
pub open spec fn pairs_table(t: Seq<Seq<SpecToken>>) -> Seq<Seq<SpecPair>> {
    t.map_values(|row: Seq<SpecToken>| pair_row(row))
}

/// Like [`spec_collect`], with the provenance dropped from each token.
pub open spec fn spec_parse(s: Seq<u8>) -> Result<Seq<Seq<SpecPair>>, SpecError> {
    match spec_collect(s) {
        Ok(t) => Ok(pairs_table(t)),
        Err(e) => Err(e),
    }
}

/// The outcome of a validating scan of the whole buffer: `None` when every
/// field of every line is well-formed, otherwise the first error.
pub open spec fn spec_validate_doc(s: Seq<u8>) -> Option<SpecError> {
    match spec_collect(s) {
        Ok(_) => None,
        Err(e) => Some(e),
    }
}

/// Field offsets never run backwards.
pub proof fn lemma_offset_nonneg(fs: Seq<Seq<u8>>, j: int)
    ensures
        fields_offset(fs, j) >= 0,
    decreases j,
{
    if j > 0 {
        lemma_offset_nonneg(fs, j - 1);
    }
}

/// Prepending one field shifts every later offset by that field's length
/// plus one consumed tab.
pub proof fn lemma_offset_shift(x: Seq<u8>, fs: Seq<Seq<u8>>, j: int)
    requires
        1 <= j <= fs.len(),
    ensures
        fields_offset(seq![x] + fs, j) == x.len() + 1 + fields_offset(fs, j - 1),
    decreases j,
{
    if j == 1 {
        assert((seq![x] + fs)[0] == x);
        assert(fields_offset(seq![x] + fs, 0) == 0);
        assert(fields_offset(fs, 0) == 0);
    } else {
        lemma_offset_shift(x, fs, j - 1);
        assert((seq![x] + fs)[j - 1] == fs[j - 2]);
        assert(fields_offset(seq![x] + fs, j) == fields_offset(seq![x] + fs, j - 1) + fs[j
            - 2].len() + 1);
        assert(fields_offset(fs, j - 1) == fields_offset(fs, j - 2) + fs[j - 2].len() + 1);
    }
}

/// A successfully parsed field keeps its given provenance: the pair starts
/// where the field starts and ends one byte past the field's last byte.
pub proof fn lemma_parse_field_ok(f: Seq<u8>, line: nat, start: nat)
    ensures
        spec_parse_field(f, line, start) matches Ok(p) ==> p.line == line && p.start == start
            && p.end == start + f.len(),
{
}

/// Pointwise description of a scan: entry `j` parses the `j`-th tab-delimited
/// field at its own byte offset.
pub proof fn lemma_scan_entries(c: Seq<u8>, line: nat, st: nat)
    ensures
        spec_scan_from(c, line, st).len() == spec_fields(c).len(),
        forall|j: int|
            0 <= j < spec_fields(c).len() ==> #[trigger] spec_scan_from(c, line, st)[j]
                == spec_parse_field(
                spec_fields(c)[j],
                line,
                (st + fields_offset(spec_fields(c), j)) as nat,
            ),
    decreases c.len(),
{
    lemma_first_index(c, TAB);
    let i = first_index(c, TAB);
    let fs = spec_fields(c);
    if i == c.len() {
        assert(spec_scan_from(c, line, st)[0] == spec_parse_field(c, line, st));
        assert(fs[0] == c);
    } else {
        let head = c.subrange(0, i as int);
        let tail = c.subrange(i as int + 1, c.len() as int);
        lemma_scan_entries(tail, line, (st + i + 1) as nat);
        assert forall|j: int|
            0 <= j < fs.len() implies #[trigger] spec_scan_from(c, line, st)[j]
            == spec_parse_field(fs[j], line, (st + fields_offset(fs, j)) as nat) by {
            if j == 0 {
                assert(fs[0] == head);
                assert(spec_scan_from(c, line, st)[0] == spec_parse_field(head, line, st));
            } else {
                lemma_offset_nonneg(spec_fields(tail), j - 1);
                lemma_offset_shift(head, spec_fields(tail), j);
                assert(fs[j] == spec_fields(tail)[j - 1]);
                assert(spec_scan_from(c, line, st)[j] == spec_scan_from(
                    tail,
                    line,
                    (st + i + 1) as nat,
                )[j - 1]);
            }
        }
    }
}

/// A buffer has at most as many lines as bytes.
pub proof fn lemma_lines_count(s: Seq<u8>)
    ensures
        spec_lines(s).len() <= s.len(),
    decreases s.len(),
{
    if s.len() == 0 {
    } else {
        let i = first_index(s, NEWLINE);
        lemma_first_index(s, NEWLINE);
        if i == s.len() {
        } else {
            lemma_lines_count(s.subrange(i as int + 1, s.len() as int));
        }
    }
}

} // verus!
