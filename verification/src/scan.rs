//! The scanners: [`Data`] yields one [`Record`] per line of the input, and a
//! [`Record`] yields one field result after another, left to right, keeping a
//! running byte cursor so that every span is relative to the record's own
//! line.

use vstd::prelude::*;

use crate::error::Error;
use crate::error::SpecError;
use crate::grammar::CARRIAGE_RETURN;
use crate::grammar::NEWLINE;
use crate::grammar::SPLITTER;
use crate::grammar::TAB;
use crate::model::lemma_first_index_at;
use crate::model::lemma_lines_count;
use crate::model::spec_lines;
use crate::model::spec_parse_field;
use crate::model::spec_record;
use crate::model::spec_scan_from;
use crate::model::strip_cr;
use crate::pair::PairToken;
use crate::pair::SpecToken;

verus! {

/// One executable field result agrees with its model: same success or
/// failure, and the carried values are equal.
pub open spec fn result_matches(
    r: Result<PairToken, Error>,
    m: Result<SpecToken, SpecError>,
) -> bool {
    match r {
        Ok(p) => m matches Ok(t) && p@ == t,
        Err(e) => m matches Err(se) && e@ == se,
    }
}

/// Scanner over one line: yields one result per tab-delimited field, in
/// left-to-right order. The cursor advances past each field and its tab
/// whether the field was valid or not, so later spans stay correct.
#[derive(Debug)]
pub struct Record {
    line: Vec<u8>,
    /// 0-based index of this record's line in the input.
    pub current_line: usize,
    /// Byte offset within the line at which the next field starts.
    pub current_pointer: usize,
    finished: bool,
}

impl Record {
    /// The scanner's cursor sits inside its line (or the scanner is done).
    pub closed spec fn wf(self) -> bool {
        self.finished || self.current_pointer <= self.line@.len()
    }

    /// The 0-based index of the line this record scans.
    pub closed spec fn line_index(self) -> nat {
        self.current_line as nat
    }

    /// The byte offset within the line at which the next field starts.
    pub closed spec fn cursor(self) -> nat {
        self.current_pointer as nat
    }

    /// The field results this scanner has still to yield.
    pub closed spec fn remaining(self) -> Seq<Result<SpecToken, SpecError>> {
        if self.finished {
            Seq::empty()
        } else {
            spec_scan_from(
                self.line@.subrange(self.current_pointer as int, self.line@.len() as int),
                self.current_line as nat,
                self.current_pointer as nat,
            )
        }
    }

    /// Yields the next field result, or `None` when no field is left. The
    /// result is exactly the head of [`Record::remaining`], and the scanner
    /// steps to its tail.
    pub fn next(&mut self) -> (r: Option<Result<PairToken, Error>>)
        requires
            old(self).wf(),
        ensures
            final(self).wf(),
            final(self).line_index() == old(self).line_index(),
            match r {
                None => old(self).remaining().len() == 0 && final(self).remaining().len() == 0,
                Some(item) => {
                    &&& old(self).remaining().len() > 0
                    &&& result_matches(item, old(self).remaining()[0])
                    &&& final(self).remaining() == old(self).remaining().drop_first()
                },
            },
    {
        if self.finished {
            return None;
        }
        let len = self.line.len();
        let fpos = self.current_pointer;
        let ghost rest = self.line@.subrange(fpos as int, len as int);
        // the field ends at the next tab, or at the end of the line
        let mut i = fpos;
        while i < len && self.line[i] != TAB
            invariant
                fpos <= i <= len,
                len == self.line@.len(),
                forall|j: int| fpos <= j < i ==> self.line@[j] != TAB,
            decreases len - i,
        {
            i += 1;
        }
        proof {
            assert forall|j: int| 0 <= j < i - fpos implies rest[j] != TAB by {
                assert(rest[j] == self.line@[fpos + j]);
            }
            lemma_first_index_at(rest, TAB, i - fpos);
        }
        // the label ends at the first separator inside the field, if any
        let mut cpos = fpos;
        while cpos < i && self.line[cpos] != SPLITTER
            invariant
                fpos <= cpos <= i <= len,
                len == self.line@.len(),
                forall|j: int| fpos <= j < cpos ==> self.line@[j] != SPLITTER,
            decreases i - cpos,
        {
            cpos += 1;
        }
        let ghost fseq = self.line@.subrange(fpos as int, i as int);
        proof {
            assert forall|j: int| 0 <= j < cpos - fpos implies fseq[j] != SPLITTER by {
                assert(fseq[j] == self.line@[fpos + j]);
            }
            lemma_first_index_at(fseq, SPLITTER, cpos - fpos);
            if i < len {
                assert(rest.subrange(0, i - fpos) =~= fseq);
            } else {
                assert(rest =~= fseq);
            }
        }
        let item: Result<PairToken, Error>;
        if cpos == i {
            let txt = vstd::slice::slice_subrange(self.line.as_slice(), fpos, i);
            item = Err(
                Error::invalid_pair(txt).put_line(self.current_line).put_span(fpos, i),
            );
        } else {
            let label = vstd::slice::slice_to_vec(
                vstd::slice::slice_subrange(self.line.as_slice(), fpos, cpos),
            );
            let field = vstd::slice::slice_to_vec(
                vstd::slice::slice_subrange(self.line.as_slice(), cpos + 1, i),
            );
            let token = PairToken {
                label,
                field,
                line: self.current_line,
                start: fpos,
                end: i,
            };
            proof {
                assert(token.label@ =~= fseq.subrange(0, cpos - fpos));
                assert(token.field@ =~= fseq.subrange(cpos - fpos + 1, fseq.len() as int));
            }
            match token.validate() {
                Ok(_) => {
                    item = Ok(token);
                },
                Err(e) => {
                    item = Err(e);
                },
            }
        }
        assert(result_matches(item, spec_parse_field(fseq, self.current_line as nat, fpos as nat)));
        if i < len {
            self.current_pointer = i + 1;
            proof {
                let tail = self.line@.subrange(i as int + 1, len as int);
                assert(rest.subrange(i - fpos + 1, rest.len() as int) =~= tail);
                assert(old(self).remaining().drop_first() =~= self.remaining());
            }
        } else {
            self.finished = true;
            proof {
                assert(old(self).remaining().drop_first() =~= self.remaining());
            }
        }
        Some(item)
    }
}

/// Scanner over a whole input buffer: yields one [`Record`] per line, in
/// input order, with strictly increasing 0-based line indices.
#[derive(Debug)]
pub struct Data {
    input: Vec<u8>,
    pos: usize,
    /// 0-based index of the line the next record will carry.
    pub current_line: usize,
}

impl Data {
    /// The 0-based index of the line the next record will carry.
    pub closed spec fn line_index(self) -> nat {
        self.current_line as nat
    }

    /// The cursor sits inside the buffer, and the line counter cannot
    /// overflow while lines are left.
    pub closed spec fn wf(self) -> bool {
        &&& self.pos <= self.input@.len()
        &&& self.current_line + self.remaining_lines().len() <= usize::MAX
    }

    /// The lines this scanner has still to yield.
    pub closed spec fn remaining_lines(self) -> Seq<Seq<u8>> {
        spec_lines(self.input@.subrange(self.pos as int, self.input@.len() as int))
    }

    /// Yields a scanner for the next line, or `None` when the buffer is
    /// exhausted. The record scans exactly the head of
    /// [`Data::remaining_lines`] under the current line index.
    pub fn next(&mut self) -> (r: Option<Record>)
        requires
            old(self).wf(),
        ensures
            final(self).wf(),
            match r {
                None => {
                    &&& old(self).remaining_lines().len() == 0
                    &&& final(self).remaining_lines().len() == 0
                    &&& final(self).line_index() == old(self).line_index()
                },
                Some(rec) => {
                    &&& old(self).remaining_lines().len() > 0
                    &&& rec.wf()
                    &&& rec.line_index() == old(self).line_index()
                    &&& rec.cursor() == 0
                    &&& rec.remaining() == spec_record(
                        old(self).remaining_lines()[0],
                        old(self).line_index(),
                    )
                    &&& final(self).remaining_lines() == old(self).remaining_lines().drop_first()
                    &&& final(self).line_index() == old(self).line_index() + 1
                },
            },
    {
        let len = self.input.len();
        let pos = self.pos;
        if pos >= len {
            return None;
        }
        let ghost rest = self.input@.subrange(pos as int, len as int);
        // the line ends at the next newline byte, or at the end of the buffer
        let mut i = pos;
        while i < len && self.input[i] != NEWLINE
            invariant
                pos <= i <= len,
                len == self.input@.len(),
                forall|j: int| pos <= j < i ==> self.input@[j] != NEWLINE,
            decreases len - i,
        {
            i += 1;
        }
        proof {
            assert forall|j: int| 0 <= j < i - pos implies rest[j] != NEWLINE by {
                assert(rest[j] == self.input@[pos + j]);
            }
            lemma_first_index_at(rest, NEWLINE, i - pos);
        }
        // a carriage return directly before the newline belongs to the
        // terminator, not to the line
        let content_end = if i < len && i > pos && self.input[i - 1] == CARRIAGE_RETURN {
            i - 1
        } else {
            i
        };
        let content = vstd::slice::slice_to_vec(
            vstd::slice::slice_subrange(self.input.as_slice(), pos, content_end),
        );
        let empty = content_end == pos;
        proof {
            if i < len {
                let raw = rest.subrange(0, i - pos);
                assert(raw =~= self.input@.subrange(pos as int, i as int));
                assert(strip_cr(raw) =~= content@);
                assert(rest.subrange(i - pos + 1, rest.len() as int) =~= self.input@.subrange(
                    i as int + 1,
                    len as int,
                ));
            } else {
                assert(rest =~= content@);
            }
        }
        let line_idx = self.current_line;
        let rec = Record {
            line: content,
            current_line: line_idx,
            current_pointer: 0,
            finished: empty,
        };
        if i < len {
            self.pos = i + 1;
        } else {
            self.pos = len;
        }
        proof {
            if i >= len {
                assert(self.input@.subrange(len as int, len as int) =~= Seq::<u8>::empty());
            }
            assert(self.remaining_lines() =~= old(self).remaining_lines().drop_first());
            assert(old(self).remaining_lines()[0] == rec.line@);
            if !rec.finished {
                assert(rec.line@.subrange(0, rec.line@.len() as int) =~= rec.line@);
            }
            assert(rec.remaining() == spec_record(rec.line@, line_idx as nat));
        }
        self.current_line = line_idx + 1;
        Some(rec)
    }
}

/// The zero-allocation-per-item entry point: a scanner over the buffer's
/// lines, starting at line index 0.
pub fn tokenize(input: &[u8]) -> (d: Data)
    ensures
        d.wf(),
        d.line_index() == 0,
        d.remaining_lines() == spec_lines(input@),
{
    let v = vstd::slice::slice_to_vec(input);
    let n = v.len();
    proof {
        lemma_lines_count(v@);
        assert(spec_lines(v@).len() <= n);
    }
    let d = Data { input: v, pos: 0, current_line: 0 };
    proof {
        assert(d.input@.subrange(0, d.input@.len() as int) =~= input@);
    }
    d
}

} // verus!
