//! Line-coverage records, their aggregation, and the coverage report entry.
//!
//! The raw tracefile text is parsed by an external coverage-format reader;
//! the engine consumes only each record's lines-found and lines-hit counts
//! and scores their aggregate sum against the coverage budget.

use vstd::prelude::*;
use vstd::string::StringExecFns;
use crate::error::MyError;
use crate::rat::{Rat, Frac, frac_zero};
use crate::render::{dec_str, u64_string};
use crate::report::{TestReport, EntryModel, entry_wf};

verus! {

/// Aggregated counts: lines instrumented, and lines with a non-zero hit count.
#[derive(Debug)]
pub struct CoverageSummary {
    pub lines_found: u64,
    pub lines_hit: u64,
}

impl CoverageSummary {
    /// No more lines can be hit than were instrumented.
    pub open spec fn wf(self) -> bool {
        self.lines_hit <= self.lines_found
    }

    pub fn new(lines_found: u64, lines_hit: u64) -> (r: CoverageSummary)
        requires
            lines_hit <= lines_found,
        ensures
            r.wf(),
            r.lines_found == lines_found,
            r.lines_hit == lines_hit,
    {
        CoverageSummary { lines_found, lines_hit }
    }
}

/// The per-record counts that coverage text parses to: for each record, its
/// lines-found count on the left and its lines-hit count on the right.
pub uninterp spec fn lcov_counts_of(s: Seq<char>) -> Option<Seq<(u64, u64)>>;

/// Relies on lcov::Reader and lcov::Record: parses LCOV tracefile text into
/// records, in text order; a `LinesFound` record yields its count on the
/// left, a `LinesHit` record its count on the right, and every other record
/// kind yields nothing. `None` when some line is not a valid record. The
/// result depends on the text alone.
#[verifier::external_body]
fn parse_lcov_counts(text: &str) -> (r: Option<Vec<(u64, u64)>>)
    ensures
        r matches Some(v) ==> lcov_counts_of(text@) == Some(v@),
        r is None ==> lcov_counts_of(text@) is None,
{
    let mut out: Vec<(u64, u64)> = Vec::new();
    for rec in lcov::Reader::new(text.as_bytes()) {
        match rec {
            Err(_) => return None,
            Ok(lcov::Record::LinesFound { found }) => out.push((found as u64, 0)),
            Ok(lcov::Record::LinesHit { hit }) => out.push((0, hit as u64)),
            Ok(_) => {},
        }
    }
    Some(out)
}

/// The summed lines-found counts of a record sequence.
pub open spec fn total_found(s: Seq<(u64, u64)>) -> int
    decreases s.len(),
{
    if s.len() == 0 {
        0
    } else {
        total_found(s.drop_last()) + s.last().0
    }
}

/// The summed lines-hit counts of a record sequence.
pub open spec fn total_hit(s: Seq<(u64, u64)>) -> int
    decreases s.len(),
{
    if s.len() == 0 {
        0
    } else {
        total_hit(s.drop_last()) + s.last().1
    }
}

/// Sums the per-record counts into one coverage summary.
pub fn summarize(records: &Vec<(u64, u64)>) -> (r: Result<CoverageSummary, MyError>)
    ensures
        r matches Ok(c) ==> c.wf() && c.lines_found == total_found(records@) && c.lines_hit
            == total_hit(records@),
        r is Ok <==> (total_found(records@) <= u64::MAX && total_hit(records@) <= u64::MAX
            && total_hit(records@) <= total_found(records@)),
        r matches Err(e) ==> e is ScoreOverflow || e is CoverageRead,
        (r matches Err(e) && e is CoverageRead) ==> (total_found(records@) <= u64::MAX
            && total_hit(records@) <= u64::MAX),
{
    let mut found: u128 = 0;
    let mut hit: u128 = 0;
    let mut i: usize = 0;
    let n = records.len();
    proof {
        assert((records@.len() as int) * (u64::MAX as int) < u128::MAX) by (nonlinear_arith)
            requires
                records@.len() == n as int,
                n <= usize::MAX,
        ;
    }
    while i < records.len()
        invariant
            0 <= i <= records@.len(),
            found == total_found(records@.subrange(0, i as int)),
            hit == total_hit(records@.subrange(0, i as int)),
            found <= (i as int) * (u64::MAX as int),
            hit <= (i as int) * (u64::MAX as int),
            (records@.len() as int) * (u64::MAX as int) < u128::MAX,
        decreases records@.len() - i,
    {
        proof {
            assert(records@.subrange(0, i + 1).drop_last() =~= records@.subrange(0, i as int));
            assert(records@.subrange(0, i + 1).last() == records@[i as int]);
            assert((i as int) * (u64::MAX as int) + (u64::MAX as int) == (i + 1) * (
            u64::MAX as int)) by (nonlinear_arith);
            assert((i + 1) * (u64::MAX as int) <= (records@.len() as int) * (u64::MAX as int))
                by (nonlinear_arith)
                requires
                    i + 1 <= records@.len(),
            ;
        }
        let rec = records[i];
        found = found + (rec.0 as u128);
        hit = hit + (rec.1 as u128);
        i = i + 1;
    }
    proof {
        assert(records@.subrange(0, records@.len() as int) =~= records@);
    }
    if found > u64::MAX as u128 || hit > u64::MAX as u128 {
        return Result::Err(
            MyError::ScoreOverflow {
                msg: String::from_str("summed coverage counts do not fit a machine word"),
            },
        );
    }
    if hit > found {
        return Result::Err(
            MyError::CoverageRead {
                msg: String::from_str("more lines hit than instrumented in coverage input"),
            },
        );
    }
    Result::Ok(CoverageSummary { lines_found: found as u64, lines_hit: hit as u64 })
}

/// Reads LCOV tracefile text into an aggregated coverage summary.
pub fn read_coverage(text: &str) -> (r: Result<CoverageSummary, MyError>)
    ensures
        r is Ok <==> (lcov_counts_of(text@) matches Some(v) && total_found(v) <= u64::MAX
            && total_hit(v) <= u64::MAX && total_hit(v) <= total_found(v)),
        r matches Ok(c) ==> (lcov_counts_of(text@) matches Some(v) && c.wf() && c.lines_found
            == total_found(v) && c.lines_hit == total_hit(v)),
        r matches Err(e) ==> e is CoverageRead || e is ScoreOverflow,
        (r matches Err(e) && e is CoverageRead) ==> (lcov_counts_of(text@) matches Some(v) ==> (
        total_found(v) <= u64::MAX && total_hit(v) <= u64::MAX)),
{
    match parse_lcov_counts(text) {
        Option::None => Result::Err(
            MyError::CoverageRead { msg: String::from_str("unparseable coverage input") },
        ),
        Option::Some(records) => summarize(&records),
    }
}

/// The text shown with the coverage entry: a rendering of the raw counts.
pub open spec fn coverage_text(c: CoverageSummary) -> Seq<char> {
    "covered "@ + dec_str(c.lines_hit as nat) + " of "@ + dec_str(c.lines_found as nat)
        + " instrumented lines"@
}

/// Renders the coverage counts for instructor and student review.
pub fn render_coverage(c: &CoverageSummary) -> (r: String)
    ensures
        r@ == coverage_text(*c),
{
    let mut s = String::from_str("covered ");
    let hit_text = u64_string(c.lines_hit);
    s.append(hit_text.as_str());
    s.append(" of ");
    let found_text = u64_string(c.lines_found);
    s.append(found_text.as_str());
    s.append(" instrumented lines");
    proof {
        assert(s@ =~= coverage_text(*c));
    }
    s
}

/// The score earned for coverage: the budget scaled by the fraction of
/// instrumented lines that were hit, and zero when nothing was instrumented.
pub open spec fn coverage_score(c: CoverageSummary, budget: Frac) -> Frac {
    if c.lines_found == 0 {
        frac_zero()
    } else {
        Frac { num: budget.num * c.lines_hit, den: budget.den * c.lines_found }
    }
}

/// The single report entry earned by line coverage. Its rendering of the raw
/// counts is always present, whatever the outcome.
pub open spec fn coverage_entry_model(c: CoverageSummary, budget: Frac) -> EntryModel {
    EntryModel {
        name: "line_coverage"@,
        score: coverage_score(c, budget),
        max_score: budget,
        output: Option::Some(coverage_text(c)),
        visibility: Option::None,
    }
}

impl TestReport {
    /// Builds the coverage entry from the aggregated summary and the budget.
    pub fn line_coverage(summary: &CoverageSummary, budget: &Rat) -> (r: Result<
        TestReport,
        MyError,
    >)
        requires
            summary.wf(),
            budget.wf(),
        ensures
            r matches Ok(e) ==> e@ == coverage_entry_model(*summary, budget@) && entry_wf(e@),
            r is Ok <==> (summary.lines_found == 0 || (budget@.den * summary.lines_found
                <= u64::MAX && budget@.num * summary.lines_hit <= u64::MAX)),
            r matches Err(e) ==> e is ScoreOverflow,
    {
        let name = String::from_str("line_coverage");
        let output = Option::Some(render_coverage(summary));
        if summary.lines_found == 0 {
            Result::Ok(
                TestReport {
                    name,
                    score: Rat::zero(),
                    max_score: budget.clone_rat(),
                    output,
                    visibility: Option::None,
                },
            )
        } else {
            match budget.scale_ratio(summary.lines_hit, summary.lines_found) {
                Option::None => Result::Err(
                    MyError::ScoreOverflow {
                        msg: String::from_str("coverage score does not fit a machine word"),
                    },
                ),
                Option::Some(score) => {
                    proof {
                        assert((budget@.num * summary.lines_hit) * budget@.den <= budget@.num * (
                        budget@.den * summary.lines_found)) by (nonlinear_arith)
                            requires
                                summary.lines_hit <= summary.lines_found,
                                budget@.num >= 0,
                                budget@.den >= 1,
                        ;
                    }
                    Result::Ok(
                        TestReport {
                            name,
                            score,
                            max_score: budget.clone_rat(),
                            output,
                            visibility: Option::None,
                        },
                    )
                },
            }
        }
    }
}

} // verus!
