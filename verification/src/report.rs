//! Report entries and the final report document.

use vstd::prelude::*;
use crate::outcome::{TestOutcome, OutcomeModel, opt_str_view, clone_opt_string};
use crate::rat::{Rat, Frac, frac_wf, frac_le, frac_zero};

verus! {

/// Who may see an entry on the grading platform.
#[derive(Clone, Copy, PartialEq, Eq, Structural, Debug)]
pub enum Visibility {
    Hidden,
    AfterDueDate,
    AfterPublished,
    Visible,
}

/// One line item of the final report: an earned score against a maximum.
#[derive(Debug)]
pub struct TestReport {
    pub name: String,
    pub score: Rat,
    pub max_score: Rat,
    pub output: Option<String>,
    pub visibility: Option<Visibility>,
}

/// Mathematical model of one report entry.
pub ghost struct EntryModel {
    pub name: Seq<char>,
    pub score: Frac,
    pub max_score: Frac,
    pub output: Option<Seq<char>>,
    pub visibility: Option<Visibility>,
}

impl View for TestReport {
    type V = EntryModel;

    open spec fn view(&self) -> EntryModel {
        EntryModel {
            name: self.name@,
            score: self.score@,
            max_score: self.max_score@,
            output: opt_str_view(self.output),
            visibility: self.visibility,
        }
    }
}

/// An entry never earns less than nothing nor more than its maximum.
pub open spec fn entry_wf(e: EntryModel) -> bool {
    frac_wf(e.score) && frac_wf(e.max_score) && frac_le(e.score, e.max_score)
}

/// The entry a pass/fail outcome earns under a given weight: the full weight
/// when it passed, nothing when it failed; the captured output is shown only
/// for a failure.
pub open spec fn entry_of_outcome(o: OutcomeModel, w: Frac) -> EntryModel {
    EntryModel {
        name: o.name,
        score: if o.passed {
            w
        } else {
            frac_zero()
        },
        max_score: w,
        output: if o.passed {
            Option::None
        } else {
            o.message
        },
        visibility: Option::None,
    }
}

impl TestReport {
    pub fn new(name: String, score: Rat, max_score: Rat, output: Option<String>, visibility: Option<
        Visibility,
    >) -> (r: TestReport)
        ensures
            r@ == (EntryModel {
                name: name@,
                score: score@,
                max_score: max_score@,
                output: opt_str_view(output),
                visibility: visibility,
            }),
    {
        TestReport { name, score, max_score, output, visibility }
    }

    /// Builds the entry for one test outcome: binary pass/fail, no partial
    /// credit within a single test.
    pub fn from_test(o: &TestOutcome, w: &Rat) -> (r: TestReport)
        requires
            w.wf(),
        ensures
            r@ == entry_of_outcome(o@, w@),
            entry_wf(r@),
    {
        let score = if o.passed {
            w.clone_rat()
        } else {
            Rat::zero()
        };
        let output = if o.passed {
            Option::None
        } else {
            clone_opt_string(&o.message)
        };
        TestReport {
            name: o.name.clone(),
            score,
            max_score: w.clone_rat(),
            output,
            visibility: Option::None,
        }
    }

    pub fn clone_entry(&self) -> (r: TestReport)
        ensures
            r == *self,
    {
        TestReport {
            name: self.name.clone(),
            score: self.score.clone_rat(),
            max_score: self.max_score.clone_rat(),
            output: clone_opt_string(&self.output),
            visibility: match self.visibility {
                Option::None => Option::None,
                Option::Some(v) => Option::Some(v),
            },
        }
    }
}

/// The final report: a normalized total over an ordered sequence of entries.
#[derive(Debug)]
pub struct Report {
    pub total_score: Rat,
    pub tests: Vec<TestReport>,
    pub output: Option<String>,
    pub stdout_visibility: Option<Visibility>,
}

/// Mathematical model of the final report.
pub ghost struct ReportModel {
    pub total_score: Frac,
    pub tests: Seq<EntryModel>,
    pub output: Option<Seq<char>>,
    pub stdout_visibility: Option<Visibility>,
}

/// The models of a sequence of entries.
pub open spec fn entry_views(s: Seq<TestReport>) -> Seq<EntryModel> {
    s.map_values(|e: TestReport| e@)
}

impl View for Report {
    type V = ReportModel;

    open spec fn view(&self) -> ReportModel {
        ReportModel {
            total_score: self.total_score@,
            tests: entry_views(self.tests@),
            output: opt_str_view(self.output),
            stdout_visibility: self.stdout_visibility,
        }
    }
}

} // verus!
