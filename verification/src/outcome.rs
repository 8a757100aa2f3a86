//! Test-run records and the pass/fail outcomes distilled from them.
//!
//! The test runner emits one structured record per event. Only records of a
//! single test finishing — passing or failing — matter to scoring; suite
//! records and start events are ignored.

use vstd::prelude::*;

verus! {

/// What a test-run record describes.
#[derive(Debug)]
pub enum Type {
    Suite,
    Test,
}

/// What happened in a test-run record.
#[derive(Debug)]
pub enum Event {
    Started,
    Passed,
    Failed,
}

/// One structured record from the test runner's output stream.
#[derive(Debug)]
pub struct TestResult {
    pub kind: Type,
    pub name: String,
    pub event: Event,
    pub stdout: Option<String>,
    pub message: Option<String>,
}

/// One pass/fail observation of a single named test.
#[derive(Debug)]
pub struct TestOutcome {
    pub name: String,
    pub passed: bool,
    pub message: Option<String>,
}

/// Mathematical model of a pass/fail observation.
pub ghost struct OutcomeModel {
    pub name: Seq<char>,
    pub passed: bool,
    pub message: Option<Seq<char>>,
}

pub open spec fn opt_str_view(o: Option<String>) -> Option<Seq<char>> {
    match o {
        Option::None => Option::None,
        Option::Some(s) => Option::Some(s@),
    }
}

impl View for TestOutcome {
    type V = OutcomeModel;

    open spec fn view(&self) -> OutcomeModel {
        OutcomeModel { name: self.name@, passed: self.passed, message: opt_str_view(self.message) }
    }
}

/// A record is relevant to scoring when it reports one test finishing.
pub open spec fn relevant(r: TestResult) -> bool {
    r.kind is Test && (r.event is Passed || r.event is Failed)
}

/// The observation a relevant record stands for. The captured output of the
/// run is the record's stdout, or failing that its message.
pub open spec fn outcome_model_of(r: TestResult) -> OutcomeModel {
    OutcomeModel {
        name: r.name@,
        passed: r.event is Passed,
        message: match r.stdout {
            Option::Some(s) => Option::Some(s@),
            Option::None => opt_str_view(r.message),
        },
    }
}

/// The outcomes of the relevant records of a run, in record order.
pub open spec fn outcomes_of(rs: Seq<TestResult>) -> Seq<OutcomeModel>
    decreases rs.len(),
{
    if rs.len() == 0 {
        Seq::empty()
    } else {
        let rest = outcomes_of(rs.drop_last());
        if relevant(rs.last()) {
            rest.push(outcome_model_of(rs.last()))
        } else {
            rest
        }
    }
}

pub fn clone_opt_string(o: &Option<String>) -> (r: Option<String>)
    ensures
        r == *o,
{
    match o {
        Option::None => Option::None,
        Option::Some(s) => Option::Some(s.clone()),
    }
}

fn is_relevant(r: &TestResult) -> (b: bool)
    ensures
        b == relevant(*r),
{
    match r.kind {
        Type::Test => match r.event {
            Event::Started => false,
            Event::Passed => true,
            Event::Failed => true,
        },
        Type::Suite => false,
    }
}

fn outcome_of(r: &TestResult) -> (o: TestOutcome)
    requires
        relevant(*r),
    ensures
        o@ == outcome_model_of(*r),
{
    let passed = match r.event {
        Event::Passed => true,
        _ => false,
    };
    let message = match &r.stdout {
        Option::Some(s) => Option::Some(s.clone()),
        Option::None => clone_opt_string(&r.message),
    };
    TestOutcome { name: r.name.clone(), passed, message }
}

/// The models of a sequence of outcomes.
pub open spec fn outcome_views(s: Seq<TestOutcome>) -> Seq<OutcomeModel> {
    s.map_values(|o: TestOutcome| o@)
}

/// Keeps the records that report one test finishing, as outcomes; every
/// other record — suite events, start events — is ignored.
pub fn relevant_outcomes(records: &Vec<TestResult>) -> (r: Vec<TestOutcome>)
    ensures
        outcome_views(r@) == outcomes_of(records@),
{
    let mut out: Vec<TestOutcome> = Vec::new();
    let mut i: usize = 0;
    while i < records.len()
        invariant
            0 <= i <= records@.len(),
            outcome_views(out@) =~= outcomes_of(records@.subrange(0, i as int)),
        decreases records@.len() - i,
    {
        proof {
            assert(records@.subrange(0, i + 1).drop_last() =~= records@.subrange(0, i as int));
            assert(records@.subrange(0, i + 1).last() == records@[i as int]);
        }
        let rec = &records[i];
        if is_relevant(rec) {
            let o = outcome_of(rec);
            let ghost prev = out@;
            out.push(o);
            proof {
                assert(out@ =~= prev.push(o));
                assert(outcome_views(out@) =~= outcome_views(prev).push(o@));
                assert(outcomes_of(records@.subrange(0, i + 1)) == outcomes_of(
                    records@.subrange(0, i as int),
                ).push(outcome_model_of(records@[i as int])));
            }
        } else {
            proof {
                assert(outcomes_of(records@.subrange(0, i + 1)) == outcomes_of(
                    records@.subrange(0, i as int),
                ));
            }
        }
        i = i + 1;
    }
    proof {
        assert(records@.subrange(0, records@.len() as int) =~= records@);
    }
    out
}

} // verus!
