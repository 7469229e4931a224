//! The eager collectors: draining the lazy scanners whole, aborting on the
//! first error in scan order. [`Data::run`] and [`parse`] materialize the
//! table; [`validate`] only checks well-formedness and allocates no pair
//! storage.

use vstd::prelude::*;

use crate::error::Error;
use crate::error::SpecError;
use crate::model::pair_row;
use crate::model::pairs_table;
use crate::model::spec_collect;
use crate::model::spec_collect_lines;
use crate::model::spec_collect_record;
use crate::model::spec_parse;
use crate::model::spec_validate_doc;
use crate::pair::pair_of;
use crate::pair::Pair;
use crate::pair::PairToken;
use crate::pair::SpecPair;
use crate::pair::SpecToken;
use crate::scan::tokenize;
use crate::scan::Data;
use crate::scan::Record;

verus! {

/// Drains one record: its tokens in order, or its first error.
#[verifier::loop_isolation(false)]
fn collect_fields(rec: Record) -> (r: Result<Vec<PairToken>, Error>)
    requires
        rec.wf(),
    ensures
        match r {
            Ok(out) => spec_collect_record(rec.remaining()) == Ok::<
                Seq<SpecToken>,
                SpecError,
            >(out.deep_view()),
            Err(e) => spec_collect_record(rec.remaining()) == Err::<
                Seq<SpecToken>,
                SpecError,
            >(e@),
        },
{
    let ghost orig = rec.remaining();
    let mut rec = rec;
    let mut out: Vec<PairToken> = Vec::new();
    proof {
        assert(out.deep_view() =~= Seq::<SpecToken>::empty());
        if spec_collect_record(orig) is Ok {
            assert(out.deep_view() + spec_collect_record(orig)->Ok_0 =~= spec_collect_record(
                orig,
            )->Ok_0);
        }
    }
    loop
        invariant
            rec.wf(),
            match spec_collect_record(rec.remaining()) {
                Ok(rest) => spec_collect_record(orig) == Ok::<Seq<SpecToken>, SpecError>(
                    out.deep_view() + rest,
                ),
                Err(e) => spec_collect_record(orig) == Err::<Seq<SpecToken>, SpecError>(e),
            },
        decreases rec.remaining().len(),
    {
        match rec.next() {
            None => {
                proof {
                    assert(out.deep_view() + Seq::<SpecToken>::empty() =~= out.deep_view());
                }
                return Ok(out);
            },
            Some(item) => {
                match item {
                    Ok(p) => {
                        let ghost t = p@;
                        let ghost prev = out.deep_view();
                        out.push(p);
                        proof {
                            assert(out.deep_view() =~= prev.push(t));
                            match spec_collect_record(rec.remaining()) {
                                Ok(rest2) => {
                                    assert(prev + (seq![t] + rest2) =~= out.deep_view() + rest2);
                                },
                                Err(_) => {},
                            }
                        }
                    },
                    Err(e) => {
                        return Err(e);
                    },
                }
            },
        }
    }
}

/// Checks one record without keeping its tokens: `Ok` when every field is
/// well-formed, otherwise the record's first error.
#[verifier::loop_isolation(false)]
fn validate_fields(rec: Record) -> (r: Result<(), Error>)
    requires
        rec.wf(),
    ensures
        match r {
            Ok(_) => spec_collect_record(rec.remaining()) is Ok,
            Err(e) => spec_collect_record(rec.remaining()) == Err::<
                Seq<SpecToken>,
                SpecError,
            >(e@),
        },
{
    let ghost orig = rec.remaining();
    let mut rec = rec;
    loop
        invariant
            rec.wf(),
            match spec_collect_record(rec.remaining()) {
                Ok(_) => spec_collect_record(orig) is Ok,
                Err(e) => spec_collect_record(orig) == Err::<Seq<SpecToken>, SpecError>(e),
            },
        decreases rec.remaining().len(),
    {
        match rec.next() {
            None => {
                return Ok(());
            },
            Some(item) => {
                match item {
                    Ok(_) => {},
                    Err(e) => {
                        return Err(e);
                    },
                }
            },
        }
    }
}

/// Drains one record into plain pairs, dropping each token's provenance: the
/// pairs in order, or the record's first error.
#[verifier::loop_isolation(false)]
fn parse_fields(rec: Record) -> (r: Result<Vec<Pair>, Error>)
    requires
        rec.wf(),
    ensures
        match r {
            Ok(out) => spec_collect_record(rec.remaining()) matches Ok(ts) && out.deep_view()
                == pair_row(ts),
            Err(e) => spec_collect_record(rec.remaining()) == Err::<
                Seq<SpecToken>,
                SpecError,
            >(e@),
        },
{
    let ghost orig = rec.remaining();
    let mut rec = rec;
    let mut out: Vec<Pair> = Vec::new();
    proof {
        assert(out.deep_view() =~= Seq::<SpecPair>::empty());
        if spec_collect_record(orig) is Ok {
            assert(out.deep_view() + pair_row(spec_collect_record(orig)->Ok_0) =~= pair_row(
                spec_collect_record(orig)->Ok_0,
            ));
        }
    }
    loop
        invariant
            rec.wf(),
            match spec_collect_record(rec.remaining()) {
                Ok(rest) => spec_collect_record(orig) matches Ok(ts) && pair_row(ts)
                    == out.deep_view() + pair_row(rest),
                Err(e) => spec_collect_record(orig) == Err::<Seq<SpecToken>, SpecError>(e),
            },
        decreases rec.remaining().len(),
    {
        match rec.next() {
            None => {
                proof {
                    assert(pair_row(Seq::<SpecToken>::empty()) =~= Seq::<SpecPair>::empty());
                    assert(out.deep_view() + Seq::<SpecPair>::empty() =~= out.deep_view());
                }
                return Ok(out);
            },
            Some(item) => {
                match item {
                    Ok(p) => {
                        let ghost t = p@;
                        let ghost prev = out.deep_view();
                        out.push(Pair::from(p));
                        proof {
                            assert(out.deep_view() =~= prev.push(pair_of(t)));
                            match spec_collect_record(rec.remaining()) {
                                Ok(rest2) => {
                                    assert(pair_row(seq![t] + rest2) =~= seq![pair_of(t)]
                                        + pair_row(rest2));
                                    assert(prev + (seq![pair_of(t)] + pair_row(rest2))
                                        =~= out.deep_view() + pair_row(rest2));
                                },
                                Err(_) => {},
                            }
                        }
                    },
                    Err(e) => {
                        return Err(e);
                    },
                }
            },
        }
    }
}

impl Data {
    /// Drains the scanner into a table of positioned tokens, one row per
    /// line, aborting on the first error; no partial table survives a
    /// failure.
    #[verifier::loop_isolation(false)]
    pub fn run(self) -> (r: Result<Vec<Vec<PairToken>>, Error>)
        requires
            self.wf(),
        ensures
            match r {
                Ok(out) => spec_collect_lines(self.remaining_lines(), self.line_index()) == Ok::<
                    Seq<Seq<SpecToken>>,
                    SpecError,
                >(out.deep_view()),
                Err(e) => spec_collect_lines(self.remaining_lines(), self.line_index()) == Err::<
                    Seq<Seq<SpecToken>>,
                    SpecError,
                >(e@),
            },
    {
        let ghost orig = self.remaining_lines();
        let ghost base = self.line_index();
        let mut data = self;
        let mut out: Vec<Vec<PairToken>> = Vec::new();
        proof {
            assert(out.deep_view() =~= Seq::<Seq<SpecToken>>::empty());
            if spec_collect_lines(orig, base) is Ok {
                assert(out.deep_view() + spec_collect_lines(orig, base)->Ok_0
                    =~= spec_collect_lines(orig, base)->Ok_0);
            }
        }
        loop
            invariant
                data.wf(),
                match spec_collect_lines(data.remaining_lines(), data.line_index()) {
                    Ok(rest) => spec_collect_lines(orig, base) == Ok::<
                        Seq<Seq<SpecToken>>,
                        SpecError,
                    >(out.deep_view() + rest),
                    Err(e) => spec_collect_lines(orig, base) == Err::<
                        Seq<Seq<SpecToken>>,
                        SpecError,
                    >(e),
                },
            decreases data.remaining_lines().len(),
        {
            match data.next() {
                None => {
                    proof {
                        assert(out.deep_view() + Seq::<Seq<SpecToken>>::empty()
                            =~= out.deep_view());
                    }
                    return Ok(out);
                },
                Some(rec) => {
                    match collect_fields(rec) {
                        Ok(v) => {
                            let ghost row = v.deep_view();
                            let ghost prev = out.deep_view();
                            out.push(v);
                            proof {
                                assert(out.deep_view() =~= prev.push(row));
                                match spec_collect_lines(
                                    data.remaining_lines(),
                                    data.line_index(),
                                ) {
                                    Ok(rest2) => {
                                        assert(prev + (seq![row] + rest2) =~= out.deep_view()
                                            + rest2);
                                    },
                                    Err(_) => {},
                                }
                            }
                        },
                        Err(e) => {
                            return Err(e);
                        },
                    }
                },
            }
        }
    }
}

/// Eager well-formedness check of a whole buffer: `Ok(())` when every field
/// of every line is well-formed, otherwise the first error in scan order
/// (lines in input order, fields left to right).
#[verifier::loop_isolation(false)]
pub fn validate(input: &[u8]) -> (r: Result<(), Error>)
    ensures
        match r {
            Ok(_) => spec_validate_doc(input@) is None,
            Err(e) => spec_validate_doc(input@) == Some(e@),
        },
{
    let mut data = tokenize(input);
    loop
        invariant
            data.wf(),
            match spec_collect_lines(data.remaining_lines(), data.line_index()) {
                Ok(_) => spec_collect(input@) is Ok,
                Err(e) => spec_collect(input@) == Err::<Seq<Seq<SpecToken>>, SpecError>(e),
            },
        decreases data.remaining_lines().len(),
    {
        match data.next() {
            None => {
                return Ok(());
            },
            Some(rec) => {
                match validate_fields(rec) {
                    Ok(_) => {},
                    Err(e) => {
                        return Err(e);
                    },
                }
            },
        }
    }
}

/// Eager full collection of a whole buffer into plain pairs, one row per
/// line, aborting on the first error; no partial table survives a failure.
#[verifier::loop_isolation(false)]
pub fn parse(input: &[u8]) -> (r: Result<Vec<Vec<Pair>>, Error>)
    ensures
        match r {
            Ok(out) => spec_parse(input@) == Ok::<Seq<Seq<SpecPair>>, SpecError>(out.deep_view()),
            Err(e) => spec_parse(input@) == Err::<Seq<Seq<SpecPair>>, SpecError>(e@),
        },
{
    let mut data = tokenize(input);
    let mut out: Vec<Vec<Pair>> = Vec::new();
    proof {
        assert(out.deep_view() =~= Seq::<Seq<SpecPair>>::empty());
        if spec_collect(input@) is Ok {
            assert(out.deep_view() + pairs_table(spec_collect(input@)->Ok_0) =~= pairs_table(
                spec_collect(input@)->Ok_0,
            ));
        }
    }
    loop
        invariant
            data.wf(),
            match spec_collect_lines(data.remaining_lines(), data.line_index()) {
                Ok(rest) => spec_collect(input@) matches Ok(t) && pairs_table(t) == out.deep_view()
                    + pairs_table(rest),
                Err(e) => spec_collect(input@) == Err::<Seq<Seq<SpecToken>>, SpecError>(e),
            },
        decreases data.remaining_lines().len(),
    {
        match data.next() {
            None => {
                proof {
                    assert(pairs_table(Seq::<Seq<SpecToken>>::empty()) =~= Seq::<
                        Seq<SpecPair>,
                    >::empty());
                    assert(out.deep_view() + Seq::<Seq<SpecPair>>::empty() =~= out.deep_view());
                }
                return Ok(out);
            },
            Some(rec) => {
                match parse_fields(rec) {
                    Ok(v) => {
                        let ghost row = v.deep_view();
                        let ghost prev = out.deep_view();
                        out.push(v);
                        proof {
                            assert(out.deep_view() =~= prev.push(row));
                            match spec_collect_lines(data.remaining_lines(), data.line_index()) {
                                Ok(rest2) => {
                                    assert(pairs_table(seq![spec_collect_record(
                                        rec.remaining(),
                                    )->Ok_0] + rest2) =~= seq![row] + pairs_table(rest2));
                                    assert(prev + (seq![row] + pairs_table(rest2))
                                        =~= out.deep_view() + pairs_table(rest2));
                                },
                                Err(_) => {},
                            }
                        }
                    },
                    Err(e) => {
                        return Err(e);
                    },
                }
            },
        }
    }
}

} // verus!
