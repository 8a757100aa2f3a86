//! The scoring configuration and the weight resolver.

use vstd::prelude::*;
use vstd::string::StringExecFns;
use crate::error::MyError;
use crate::outcome::{TestOutcome, OutcomeModel, outcome_views};
use crate::rat::{Rat, Frac};

verus! {

/// The scoring configuration: one point weight per instructor-authored test,
/// one budget shared evenly by all submission-authored tests, and one budget
/// for line coverage. The declared weight keys are the authoritative set of
/// instructor-test names.
#[derive(Debug)]
pub struct ScoreMap {
    pub line_coverage: Rat,
    pub their_tests: Rat,
    pub our_tests: Vec<(String, Rat)>,
}

/// The set of test names observed in a sequence of outcomes.
pub open spec fn names_of(rs: Seq<OutcomeModel>) -> Set<Seq<char>> {
    Set::new(|n: Seq<char>| exists|i: int| 0 <= i < rs.len() && (#[trigger] rs[i]).name == n)
}

impl ScoreMap {
    /// Budgets are well-formed fractions and each test name is declared once.
    pub open spec fn wf(self) -> bool {
        &&& self.line_coverage.wf()
        &&& self.their_tests.wf()
        &&& forall|i: int|
            0 <= i < self.our_tests@.len() ==> (#[trigger] self.our_tests@[i]).1.wf()
        &&& forall|i: int, j: int|
            0 <= i < j < self.our_tests@.len() ==> self.our_tests@[i].0@ != self.our_tests@[j].0@
    }

    /// The set of declared instructor-test names.
    pub open spec fn spec_keys(self) -> Set<Seq<char>> {
        Set::new(
            |n: Seq<char>|
                exists|i: int|
                    0 <= i < self.our_tests@.len() && (#[trigger] self.our_tests@[i]).0@ == n,
        )
    }

    pub open spec fn spec_has_key(self, n: Seq<char>) -> bool {
        exists|i: int|
            0 <= i < self.our_tests@.len() && (#[trigger] self.our_tests@[i]).0@ == n
    }

    /// The declared weight of a declared test name.
    pub open spec fn spec_weight(self, n: Seq<char>) -> Frac {
        let i = choose|i: int|
            0 <= i < self.our_tests@.len() && (#[trigger] self.our_tests@[i]).0@ == n;
        self.our_tests@[i].1@
    }

    /// Resolves the configured weight of one instructor-authored test; a name
    /// that the configuration does not declare is a validation error, never a
    /// silent default.
    pub fn weight_for(&self, name: &String) -> (r: Result<Rat, MyError>)
        requires
            self.wf(),
        ensures
            r is Ok <==> self.spec_has_key(name@),
            r matches Ok(w) ==> w.wf() && w@ == self.spec_weight(name@),
            r matches Err(e) ==> e is Validation,
    {
        let mut i: usize = 0;
        while i < self.our_tests.len()
            invariant
                0 <= i <= self.our_tests@.len(),
                forall|j: int| 0 <= j < i ==> (#[trigger] self.our_tests@[j]).0@ != name@,
                self.wf(),
            decreases self.our_tests@.len() - i,
        {
            if self.our_tests[i].0 == *name {
                let w = self.our_tests[i].1.clone_rat();
                proof {
                    assert(self.our_tests@[i as int].0@ == name@);
                    let k = choose|k: int|
                        0 <= k < self.our_tests@.len() && (#[trigger] self.our_tests@[k]).0@
                            == name@;
                    assert(k == i as int);
                }
                return Result::Ok(w);
            }
            i = i + 1;
        }
        Result::Err(
            MyError::Validation {
                msg: String::from_str("an observed test name has no configured weight"),
            },
        )
    }

    /// Whether a name is declared in the configuration.
    pub fn contains_key(&self, name: &String) -> (r: bool)
        ensures
            r == self.spec_has_key(name@),
    {
        let mut i: usize = 0;
        while i < self.our_tests.len()
            invariant
                0 <= i <= self.our_tests@.len(),
                forall|j: int| 0 <= j < i ==> (#[trigger] self.our_tests@[j]).0@ != name@,
            decreases self.our_tests@.len() - i,
        {
            if self.our_tests[i].0 == *name {
                return true;
            }
            i = i + 1;
        }
        false
    }

    /// The declared instructor-test names, in declaration order.
    pub fn our_test_names(&self) -> (r: Vec<String>)
        ensures
            r@.len() == self.our_tests@.len(),
            forall|i: int| 0 <= i < r@.len() ==> (#[trigger] r@[i])@ == self.our_tests@[i].0@,
    {
        let mut out: Vec<String> = Vec::new();
        let mut i: usize = 0;
        while i < self.our_tests.len()
            invariant
                0 <= i <= self.our_tests@.len(),
                out@.len() == i,
                forall|j: int| 0 <= j < i ==> (#[trigger] out@[j])@ == self.our_tests@[j].0@,
            decreases self.our_tests@.len() - i,
        {
            out.push(self.our_tests[i].0.clone());
            i = i + 1;
        }
        out
    }

    /// Every configured point value: the per-test weights in declaration
    /// order, then the coverage budget, then the submission-test budget.
    pub fn values(&self) -> (r: Vec<Rat>)
        ensures
            r@.len() == self.our_tests@.len() + 2,
            forall|i: int|
                0 <= i < self.our_tests@.len() ==> (#[trigger] r@[i])@ == self.our_tests@[i].1@,
            r@[self.our_tests@.len() as int]@ == self.line_coverage@,
            r@[self.our_tests@.len() as int + 1]@ == self.their_tests@,
    {
        let mut out: Vec<Rat> = Vec::new();
        let mut i: usize = 0;
        while i < self.our_tests.len()
            invariant
                0 <= i <= self.our_tests@.len(),
                out@.len() == i,
                forall|j: int| 0 <= j < i ==> (#[trigger] out@[j])@ == self.our_tests@[j].1@,
            decreases self.our_tests@.len() - i,
        {
            out.push(self.our_tests[i].1.clone_rat());
            i = i + 1;
        }
        out.push(self.line_coverage.clone_rat());
        out.push(self.their_tests.clone_rat());
        out
    }

    /// Whether the observed instructor-test names are exactly the declared
    /// ones. Any discrepancy — missing, extra or disjoint names — fails.
    pub fn validate_names(&self, ours: &Vec<TestOutcome>) -> (r: bool)
        requires
            self.wf(),
        ensures
            r == (names_of(outcome_views(ours@)) == self.spec_keys()),
    {
        let ghost ov = outcome_views(ours@);
        let mut i: usize = 0;
        while i < ours.len()
            invariant
                0 <= i <= ours@.len(),
                ov == outcome_views(ours@),
                forall|j: int| 0 <= j < i ==> self.spec_has_key((#[trigger] ov[j]).name),
            decreases ours@.len() - i,
        {
            if !self.contains_key(&ours[i].name) {
                proof {
                    assert(ov[i as int].name == ours@[i as int]@.name);
                    assert(names_of(ov).contains(ov[i as int].name));
                    assert(!self.spec_keys().contains(ov[i as int].name));
                }
                return false;
            }
            i = i + 1;
        }
        let mut k: usize = 0;
        while k < self.our_tests.len()
            invariant
                0 <= k <= self.our_tests@.len(),
                ov == outcome_views(ours@),
                forall|j: int|
                    0 <= j < k ==> names_of(ov).contains((#[trigger] self.our_tests@[j]).0@),
                forall|j: int| 0 <= j < ours@.len() ==> self.spec_has_key((#[trigger] ov[j]).name),
            decreases self.our_tests@.len() - k,
        {
            if !outcomes_contain(ours, &self.our_tests[k].0) {
                proof {
                    assert(self.spec_keys().contains(self.our_tests@[k as int].0@));
                    assert(!names_of(ov).contains(self.our_tests@[k as int].0@));
                }
                return false;
            }
            proof {
                assert(names_of(ov).contains(self.our_tests@[k as int].0@));
            }
            k = k + 1;
        }
        proof {
            assert forall|n: Seq<char>| names_of(ov).contains(n) implies self.spec_keys().contains(
                n,
            ) by {
                let j = choose|j: int| 0 <= j < ov.len() && (#[trigger] ov[j]).name == n;
                assert(self.spec_has_key(ov[j].name));
            }
            assert forall|n: Seq<char>| self.spec_keys().contains(n) implies names_of(ov).contains(
                n,
            ) by {
                let j = choose|j: int|
                    0 <= j < self.our_tests@.len() && (#[trigger] self.our_tests@[j]).0@ == n;
                assert(names_of(ov).contains(self.our_tests@[j].0@));
            }
            assert(names_of(ov) =~= self.spec_keys());
        }
        true
    }
}

/// Whether some outcome in the sequence carries the given name.
fn outcomes_contain(ours: &Vec<TestOutcome>, name: &String) -> (r: bool)
    ensures
        r == names_of(outcome_views(ours@)).contains(name@),
{
    let mut i: usize = 0;
    while i < ours.len()
        invariant
            0 <= i <= ours@.len(),
            forall|j: int| 0 <= j < i ==> (#[trigger] outcome_views(ours@)[j]).name != name@,
        decreases ours@.len() - i,
    {
        if ours[i].name == *name {
            proof {
                assert(outcome_views(ours@)[i as int].name == name@);
            }
            return true;
        }
        i = i + 1;
    }
    proof {
        assert(!names_of(outcome_views(ours@)).contains(name@));
    }
    false
}

} // verus!
