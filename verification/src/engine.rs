//! The assembler: validation, entry building, ordering and normalization.
//!
//! One linear pipeline — validate, build entries, assemble — with no retries;
//! any stage failure is terminal and no partial report is produced.

use vstd::prelude::*;
use vstd::pervasive::unreached;
use vstd::string::StringExecFns;
use crate::coverage::{CoverageSummary, coverage_entry_model};
use crate::error::MyError;
use crate::order::{sort_entries, sort_spec, entries_sorted};
use crate::outcome::{TestOutcome, OutcomeModel, outcome_views};
use crate::rat::{
    Rat, Frac, frac_add, frac_eq, frac_le, frac_wf, frac_zero, sum_frac, lemma_sum_frac_wf,
    lemma_frac_add_wf, lemma_frac_eq_trans, lemma_frac_add_congruence,
};
use crate::report::{Report, ReportModel, TestReport, EntryModel, entry_views, entry_wf, entry_of_outcome};
use crate::score_map::{ScoreMap, names_of};

verus! {

broadcast use vstd::seq_lib::group_to_multiset_ensures;

/// The entries the instructor bucket holds, one per outcome, in outcome order.
pub open spec fn our_entries_spec(ov: Seq<OutcomeModel>, c: ScoreMap) -> Seq<EntryModel> {
    ov.map_values(|o: OutcomeModel| entry_of_outcome(o, c.spec_weight(o.name)))
}

/// The even share of a budget split over `n` entries.
pub open spec fn even_share(b: Frac, n: int) -> Frac {
    Frac { num: b.num, den: b.den * n }
}

/// The entries the submission bucket holds, one per outcome, in outcome order.
pub open spec fn their_entries_spec(tv: Seq<OutcomeModel>, share: Frac) -> Seq<EntryModel> {
    tv.map_values(|o: OutcomeModel| entry_of_outcome(o, share))
}

pub open spec fn scores_of(s: Seq<EntryModel>) -> Seq<Frac> {
    s.map_values(|e: EntryModel| e.score)
}

pub open spec fn maxes_of(s: Seq<EntryModel>) -> Seq<Frac> {
    s.map_values(|e: EntryModel| e.max_score)
}

pub open spec fn frac_views(s: Seq<Rat>) -> Seq<Frac> {
    s.map_values(|r: Rat| r@)
}

/// Whether every step of summing these fractions stays within a machine word.
pub open spec fn sum_fits(s: Seq<Frac>) -> bool
    decreases s.len(),
{
    if s.len() == 0 {
        true
    } else {
        sum_fits(s.drop_last()) && sum_frac(s.drop_last()).den * s.last().den <= u64::MAX
            && sum_frac(s.drop_last()).num * s.last().den + s.last().num * sum_frac(
            s.drop_last(),
        ).den <= u64::MAX
    }
}

proof fn lemma_sum_fits_prefix(s: Seq<Frac>, i: int)
    requires
        0 <= i <= s.len(),
        sum_fits(s),
    ensures
        sum_fits(s.subrange(0, i)),
    decreases s.len(),
{
    if i == s.len() {
        assert(s.subrange(0, i) =~= s);
    } else if s.len() > 0 {
        assert(s.drop_last() =~= s.subrange(0, s.len() - 1));
        assert(sum_fits(s.drop_last()));
        lemma_sum_fits_prefix(s.drop_last(), i);
        assert(s.drop_last().subrange(0, i) =~= s.subrange(0, i));
    }
}

/// The exact sum of a sequence of point values, when every step fits.
fn sum_rats(vals: &Vec<Rat>) -> (r: Option<Rat>)
    requires
        forall|i: int| 0 <= i < vals@.len() ==> (#[trigger] vals@[i]).wf(),
    ensures
        r is Some <==> sum_fits(frac_views(vals@)),
        r matches Some(t) ==> t.wf() && t@ == sum_frac(frac_views(vals@)),
{
    let ghost full = frac_views(vals@);
    let mut acc = Rat::zero();
    let mut i: usize = 0;
    while i < vals.len()
        invariant
            0 <= i <= vals@.len(),
            full == frac_views(vals@),
            forall|j: int| 0 <= j < vals@.len() ==> (#[trigger] vals@[j]).wf(),
            acc.wf(),
            acc@ == sum_frac(full.subrange(0, i as int)),
            sum_fits(full.subrange(0, i as int)),
        decreases vals@.len() - i,
    {
        proof {
            assert(full.subrange(0, i + 1).drop_last() =~= full.subrange(0, i as int));
            assert(full.subrange(0, i + 1).last() == full[i as int]);
            assert(full[i as int] == vals@[i as int]@);
        }
        match acc.add(&vals[i]) {
            Option::None => {
                proof {
                    assert(!sum_fits(full.subrange(0, i + 1)));
                    if sum_fits(full) {
                        lemma_sum_fits_prefix(full, i + 1);
                    }
                }
                return Option::None;
            },
            Option::Some(a) => {
                acc = a;
            },
        }
        i = i + 1;
    }
    proof {
        assert(full.subrange(0, vals@.len() as int) =~= full);
    }
    Option::Some(acc)
}

/// The maximum-score components of a sequence of entries.
fn max_parts(entries: &Vec<TestReport>) -> (r: Vec<Rat>)
    ensures
        frac_views(r@) == maxes_of(entry_views(entries@)),
        r@.len() == entries@.len(),
        forall|i: int| 0 <= i < r@.len() ==> (#[trigger] r@[i]) == entries@[i].max_score,
{
    let mut out: Vec<Rat> = Vec::new();
    let mut i: usize = 0;
    while i < entries.len()
        invariant
            0 <= i <= entries@.len(),
            out@.len() == i,
            forall|j: int| 0 <= j < i ==> (#[trigger] out@[j]) == entries@[j].max_score,
        decreases entries@.len() - i,
    {
        out.push(entries[i].max_score.clone_rat());
        i = i + 1;
    }
    proof {
        assert(frac_views(out@) =~= maxes_of(entry_views(entries@)));
    }
    out
}

/// The earned-score components of a sequence of entries.
fn score_parts(entries: &Vec<TestReport>) -> (r: Vec<Rat>)
    ensures
        frac_views(r@) == scores_of(entry_views(entries@)),
        r@.len() == entries@.len(),
        forall|i: int| 0 <= i < r@.len() ==> (#[trigger] r@[i]) == entries@[i].score,
{
    let mut out: Vec<Rat> = Vec::new();
    let mut i: usize = 0;
    while i < entries.len()
        invariant
            0 <= i <= entries@.len(),
            out@.len() == i,
            forall|j: int| 0 <= j < i ==> (#[trigger] out@[j]) == entries@[j].score,
        decreases entries@.len() - i,
    {
        out.push(entries[i].score.clone_rat());
        i = i + 1;
    }
    proof {
        assert(frac_views(out@) =~= scores_of(entry_views(entries@)));
    }
    out
}

/// Whether the configuration can award no points at all to these outcomes:
/// every declared weight of an observed test is zero, the submission-test
/// budget is zero or unused, and the coverage budget is zero.
pub open spec fn zero_total(c: ScoreMap, ov: Seq<OutcomeModel>, n_their: int) -> bool {
    &&& forall|i: int| 0 <= i < ov.len() ==> c.spec_weight((#[trigger] ov[i]).name).num == 0
    &&& (n_their > 0 ==> c.their_tests@.num == 0)
    &&& c.line_coverage@.num == 0
}

/// Whether every declared weight of an observed instructor test is zero.
fn all_weights_zero(config: &ScoreMap, ours: &Vec<TestOutcome>) -> (r: bool)
    requires
        config.wf(),
        names_of(outcome_views(ours@)) == config.spec_keys(),
    ensures
        r == (forall|i: int|
            0 <= i < ours@.len() ==> config.spec_weight(
                (#[trigger] outcome_views(ours@)[i]).name,
            ).num == 0),
{
    let ghost ov = outcome_views(ours@);
    let mut i: usize = 0;
    while i < ours.len()
        invariant
            0 <= i <= ours@.len(),
            ov == outcome_views(ours@),
            config.wf(),
            names_of(ov) == config.spec_keys(),
            forall|j: int| 0 <= j < i ==> config.spec_weight((#[trigger] ov[j]).name).num == 0,
        decreases ours@.len() - i,
    {
        proof {
            assert(names_of(ov).contains(ov[i as int].name));
            assert(config.spec_keys().contains(ov[i as int].name));
        }
        let w = match config.weight_for(&ours[i].name) {
            Result::Ok(w) => w,
            Result::Err(_) => unreached(),
        };
        if w.num != 0 {
            proof {
                assert(config.spec_weight(ov[i as int].name).num != 0);
            }
            return false;
        }
        i = i + 1;
    }
    true
}

/// What a successfully assembled report states, relative to the validated
/// inputs: the instructor entries sorted by name, then the submission
/// entries sorted by name, then the coverage entry; every entry within its
/// maximum; and the total exactly `100 * Σ score / Σ max_score`.
pub open spec fn report_ok(
    rep: ReportModel,
    c: ScoreMap,
    ov: Seq<OutcomeModel>,
    tv: Seq<OutcomeModel>,
    cov: CoverageSummary,
) -> bool {
    let n1 = ov.len() as int;
    let n2 = tv.len() as int;
    let ours_sorted = rep.tests.subrange(0, n1);
    let theirs_sorted = rep.tests.subrange(n1, n1 + n2);
    &&& rep.tests.len() == n1 + n2 + 1
    &&& ours_sorted == sort_spec(our_entries_spec(ov, c))
    &&& entries_sorted(ours_sorted)
    &&& theirs_sorted == sort_spec(their_entries_spec(tv, even_share(c.their_tests@, n2)))
    &&& entries_sorted(theirs_sorted)
    &&& rep.tests[n1 + n2] == coverage_entry_model(cov, c.line_coverage@)
    &&& forall|i: int| 0 <= i < rep.tests.len() ==> entry_wf(#[trigger] rep.tests[i])
    &&& sum_frac(maxes_of(rep.tests)).num != 0
    &&& rep.total_score == (Frac {
        num: 100 * sum_frac(scores_of(rep.tests)).num * sum_frac(maxes_of(rep.tests)).den,
        den: sum_frac(scores_of(rep.tests)).den * sum_frac(maxes_of(rep.tests)).num,
    })
    &&& rep.output is None
    &&& rep.stdout_visibility is None
}

/// The exact sequence of entries a valid run assembles: the instructor
/// bucket sorted by name, the submission bucket sorted by name, then the
/// coverage entry.
pub open spec fn assembled_entries(
    c: ScoreMap,
    ov: Seq<OutcomeModel>,
    tv: Seq<OutcomeModel>,
    cov: CoverageSummary,
) -> Seq<EntryModel> {
    sort_spec(our_entries_spec(ov, c)) + sort_spec(
        their_entries_spec(tv, even_share(c.their_tests@, tv.len() as int)),
    ) + seq![coverage_entry_model(cov, c.line_coverage@)]
}

/// Whether every exact score component of the assembled report fits a
/// machine word: the submission share, the coverage score, each step of the
/// two sums, and the final normalization.
pub open spec fn build_fits(
    c: ScoreMap,
    ov: Seq<OutcomeModel>,
    tv: Seq<OutcomeModel>,
    cov: CoverageSummary,
) -> bool {
    let entries = assembled_entries(c, ov, tv, cov);
    let s = sum_frac(scores_of(entries));
    let m = sum_frac(maxes_of(entries));
    &&& (tv.len() > 0 ==> c.their_tests@.den * tv.len() <= u64::MAX)
    &&& (cov.lines_found == 0 || (c.line_coverage@.den * cov.lines_found <= u64::MAX
        && c.line_coverage@.num * cov.lines_hit <= u64::MAX))
    &&& sum_fits(maxes_of(entries))
    &&& sum_fits(scores_of(entries))
    &&& s.den * m.num <= u64::MAX
    &&& 100 * s.num * m.den <= u64::MAX
}

proof fn lemma_sum_repeat(share: Frac, j: int)
    requires
        frac_wf(share),
        0 <= j,
    ensures
        frac_eq(
            sum_frac(Seq::new(j as nat, |i: int| share)),
            Frac { num: j * share.num, den: share.den },
        ),
    decreases j,
{
    let s = Seq::new(j as nat, |i: int| share);
    assert(forall|i: int| 0 <= i < s.len() ==> frac_wf(#[trigger] s[i]));
    if j == 0 {
        assert(frac_eq(frac_zero(), Frac { num: 0, den: share.den })) by (nonlinear_arith)
            requires
                share.den >= 1,
        ;
    } else {
        let prev = Seq::new((j - 1) as nat, |i: int| share);
        assert(s.drop_last() =~= prev);
        lemma_sum_repeat(share, j - 1);
        lemma_sum_frac_wf(prev);
        let a = sum_frac(prev);
        let c = Frac { num: (j - 1) * share.num, den: share.den };
        assert(frac_wf(c)) by (nonlinear_arith)
            requires
                j >= 1,
                share.num >= 0,
                share.den >= 1,
                c == (Frac { num: (j - 1) * share.num, den: share.den }),
        ;
        lemma_frac_add_congruence(a, c, share);
        lemma_frac_add_wf(a, share);
        lemma_frac_add_wf(c, share);
        let target = Frac { num: j * share.num, den: share.den };
        assert(frac_wf(target)) by (nonlinear_arith)
            requires
                j >= 1,
                share.num >= 0,
                share.den >= 1,
                target == (Frac { num: j * share.num, den: share.den }),
        ;
        assert(frac_eq(frac_add(c, share), target)) by (nonlinear_arith)
            requires
                share.den >= 1,
                c == (Frac { num: (j - 1) * share.num, den: share.den }),
                target == (Frac { num: j * share.num, den: share.den }),
        ;
        lemma_frac_eq_trans(sum_frac(s), frac_add(c, share), target);
    }
}

/// Weight sharing: a budget split evenly over `n` entries gives each entry
/// `budget / n`, and the `n` shares sum back to the whole budget exactly.
/// With no entries, the bucket contributes an empty sum, which is zero.
pub proof fn lemma_even_share_total(b: Frac, n: int)
    requires
        frac_wf(b),
        n >= 1,
    ensures
        frac_eq(sum_frac(Seq::new(n as nat, |i: int| even_share(b, n))), b),
        sum_frac(Seq::new(0, |i: int| even_share(b, n))).num == 0,
{
    let share = even_share(b, n);
    assert(frac_wf(share)) by (nonlinear_arith)
        requires
            b.num >= 0,
            b.den >= 1,
            n >= 1,
            share == (Frac { num: b.num, den: b.den * n }),
    ;
    lemma_sum_repeat(share, n);
    let mid = Frac { num: n * share.num, den: share.den };
    assert(frac_wf(mid)) by (nonlinear_arith)
        requires
            n >= 1,
            share.num >= 0,
            share.den >= 1,
            mid == (Frac { num: n * share.num, den: share.den }),
    ;
    assert(frac_eq(mid, b)) by (nonlinear_arith)
        requires
            n >= 1,
            b.den >= 1,
            share == (Frac { num: b.num, den: b.den * n }),
            mid == (Frac { num: n * share.num, den: share.den }),
    ;
    let s = Seq::new(n as nat, |i: int| share);
    assert(forall|i: int| 0 <= i < s.len() ==> frac_wf(#[trigger] s[i]));
    lemma_sum_frac_wf(s);
    lemma_frac_eq_trans(sum_frac(s), mid, b);
}

/// Adding larger fractions gives a larger sum.
proof fn lemma_frac_add_mono(a: Frac, b: Frac, c: Frac, d: Frac)
    requires
        frac_wf(a),
        frac_wf(b),
        frac_wf(c),
        frac_wf(d),
        frac_le(a, b),
        frac_le(c, d),
    ensures
        frac_le(frac_add(a, c), frac_add(b, d)),
{
    let xn = a.num * c.den;
    let yn = c.num * a.den;
    let z = b.den * d.den;
    let un = b.num * d.den;
    let vn = d.num * b.den;
    let w = a.den * c.den;
    assert((xn + yn) * z == xn * z + yn * z) by (nonlinear_arith);
    assert((un + vn) * w == un * w + vn * w) by (nonlinear_arith);
    assert(xn * z == (a.num * b.den) * (c.den * d.den)) by (nonlinear_arith)
        requires
            xn == a.num * c.den,
            z == b.den * d.den,
    ;
    assert(yn * z == (c.num * d.den) * (a.den * b.den)) by (nonlinear_arith)
        requires
            yn == c.num * a.den,
            z == b.den * d.den,
    ;
    assert(un * w == (b.num * a.den) * (c.den * d.den)) by (nonlinear_arith)
        requires
            un == b.num * d.den,
            w == a.den * c.den,
    ;
    assert(vn * w == (d.num * c.den) * (a.den * b.den)) by (nonlinear_arith)
        requires
            vn == d.num * b.den,
            w == a.den * c.den,
    ;
    assert((a.num * b.den) * (c.den * d.den) <= (b.num * a.den) * (c.den * d.den))
        by (nonlinear_arith)
        requires
            c.den >= 1,
            d.den >= 1,
            a.num * b.den <= b.num * a.den,
    ;
    assert((c.num * d.den) * (a.den * b.den) <= (d.num * c.den) * (a.den * b.den))
        by (nonlinear_arith)
        requires
            a.den >= 1,
            b.den >= 1,
            c.num * d.den <= d.num * c.den,
    ;
}

/// A term-by-term larger sequence of fractions has a larger sum.
proof fn lemma_sum_le(s1: Seq<Frac>, s2: Seq<Frac>)
    requires
        s1.len() == s2.len(),
        forall|i: int| 0 <= i < s1.len() ==> frac_wf(#[trigger] s1[i]),
        forall|i: int| 0 <= i < s2.len() ==> frac_wf(#[trigger] s2[i]),
        forall|i: int| 0 <= i < s1.len() ==> frac_le(#[trigger] s1[i], s2[i]),
    ensures
        frac_le(sum_frac(s1), sum_frac(s2)),
    decreases s1.len(),
{
    if s1.len() > 0 {
        assert(forall|i: int|
            0 <= i < s1.drop_last().len() ==> #[trigger] s1.drop_last()[i] == s1[i]);
        assert(forall|i: int|
            0 <= i < s2.drop_last().len() ==> #[trigger] s2.drop_last()[i] == s2[i]);
        lemma_sum_le(s1.drop_last(), s2.drop_last());
        lemma_sum_frac_wf(s1.drop_last());
        lemma_sum_frac_wf(s2.drop_last());
        lemma_frac_add_mono(
            sum_frac(s1.drop_last()),
            sum_frac(s2.drop_last()),
            s1.last(),
            s2.last(),
        );
    }
}

/// Normalization never leaves the 0 to 100 scale: when every entry earns at
/// most its maximum and the combined maximum is positive, the total
/// `100 * Σ score / Σ max_score` is a well-formed fraction of at most 100.
pub proof fn lemma_total_bounded(entries: Seq<EntryModel>, total: Frac)
    requires
        forall|i: int| 0 <= i < entries.len() ==> entry_wf(#[trigger] entries[i]),
        sum_frac(maxes_of(entries)).num >= 1,
        total == (Frac {
            num: 100 * sum_frac(scores_of(entries)).num * sum_frac(maxes_of(entries)).den,
            den: sum_frac(scores_of(entries)).den * sum_frac(maxes_of(entries)).num,
        }),
    ensures
        frac_wf(total),
        frac_le(total, Frac { num: 100, den: 1 }),
{
    let ss = scores_of(entries);
    let ms = maxes_of(entries);
    assert(forall|i: int| 0 <= i < ss.len() ==> #[trigger] ss[i] == entries[i].score);
    assert(forall|i: int| 0 <= i < ms.len() ==> #[trigger] ms[i] == entries[i].max_score);
    lemma_sum_le(ss, ms);
    lemma_sum_frac_wf(ss);
    lemma_sum_frac_wf(ms);
    let s = sum_frac(ss);
    let m = sum_frac(ms);
    assert(frac_wf(total) && frac_le(total, Frac { num: 100, den: 1 })) by (nonlinear_arith)
        requires
            s.num >= 0,
            s.den >= 1,
            m.num >= 1,
            m.den >= 1,
            s.num * m.den <= m.num * s.den,
            total == (Frac { num: 100 * s.num * m.den, den: s.den * m.num }),
    ;
}

/// Every assembled report stays on the 0 to 100 scale: its total is a
/// well-formed fraction of at most 100.
pub proof fn lemma_report_total_bounded(
    rep: ReportModel,
    c: ScoreMap,
    ov: Seq<OutcomeModel>,
    tv: Seq<OutcomeModel>,
    cov: CoverageSummary,
)
    requires
        report_ok(rep, c, ov, tv, cov),
    ensures
        frac_wf(rep.total_score),
        frac_le(rep.total_score, Frac { num: 100, den: 1 }),
{
    assert(forall|i: int|
        0 <= i < maxes_of(rep.tests).len() ==> frac_wf(#[trigger] maxes_of(rep.tests)[i]));
    lemma_sum_frac_wf(maxes_of(rep.tests));
    lemma_total_bounded(rep.tests, rep.total_score);
}

/// A sum of well-formed fractions is zero exactly when every term is.
pub proof fn lemma_sum_zero_iff(s: Seq<Frac>)
    requires
        forall|i: int| 0 <= i < s.len() ==> frac_wf(#[trigger] s[i]),
    ensures
        (sum_frac(s).num == 0) <==> (forall|i: int|
            0 <= i < s.len() ==> (#[trigger] s[i]).num == 0),
    decreases s.len(),
{
    if s.len() > 0 {
        assert(forall|i: int|
            0 <= i < s.drop_last().len() ==> frac_wf(#[trigger] s.drop_last()[i]));
        lemma_sum_zero_iff(s.drop_last());
        lemma_sum_frac_wf(s.drop_last());
        let a = sum_frac(s.drop_last());
        let b = s.last();
        assert((a.num * b.den + b.num * a.den == 0) <==> (a.num == 0 && b.num == 0))
            by (nonlinear_arith)
            requires
                a.num >= 0,
                b.num >= 0,
                a.den >= 1,
                b.den >= 1,
        ;
        if sum_frac(s).num == 0 {
            assert forall|i: int| 0 <= i < s.len() implies (#[trigger] s[i]).num == 0 by {
                if i < s.len() - 1 {
                    assert(s.drop_last()[i] == s[i]);
                } else {
                    assert(s[i] == b);
                }
            }
        }
        if forall|i: int| 0 <= i < s.len() ==> (#[trigger] s[i]).num == 0 {
            assert forall|i: int|
                0 <= i < s.drop_last().len() implies (#[trigger] s.drop_last()[i]).num == 0 by {
                assert(s.drop_last()[i] == s[i]);
            }
            assert(b.num == 0);
        }
    }
}

impl Report {
    /// Validates, builds and assembles the full report: the instructor
    /// entries sorted by name, then the submission entries sorted by name,
    /// then the coverage entry, with the total normalized to a percentage.
    /// Fails — producing nothing — when the observed instructor-test names
    /// differ from the configured ones, when the combined maximum score is
    /// zero, or when an exact score component outgrows a machine word.
    pub fn build(
        config: &ScoreMap,
        ours: &Vec<TestOutcome>,
        theirs: &Vec<TestOutcome>,
        coverage: &CoverageSummary,
    ) -> (r: Result<Report, MyError>)
        requires
            config.wf(),
            coverage.wf(),
        ensures
            r matches Ok(rep) ==> report_ok(
                rep@,
                *config,
                outcome_views(ours@),
                outcome_views(theirs@),
                *coverage,
            ) && names_of(outcome_views(ours@)) == config.spec_keys() && !zero_total(
                *config,
                outcome_views(ours@),
                theirs@.len() as int,
            ),
            (r matches Err(e) && e is Validation) <==> (names_of(outcome_views(ours@))
                != config.spec_keys() || zero_total(
                *config,
                outcome_views(ours@),
                theirs@.len() as int,
            )),
            r is Ok <==> (names_of(outcome_views(ours@)) == config.spec_keys() && !zero_total(
                *config,
                outcome_views(ours@),
                theirs@.len() as int,
            ) && build_fits(*config, outcome_views(ours@), outcome_views(theirs@), *coverage)),
            r matches Err(e) ==> e is Validation || e is ScoreOverflow,
    {
        let ghost ov = outcome_views(ours@);
        let ghost tv = outcome_views(theirs@);
        if !config.validate_names(ours) {
            return Result::Err(
                MyError::Validation {
                    msg: String::from_str(
                        "observed instructor tests do not match the configured ones",
                    ),
                },
            );
        }
        let n2 = theirs.len();
        let their_zero = n2 == 0 || config.their_tests.num == 0;
        let cov_zero = config.line_coverage.num == 0;
        if their_zero && cov_zero {
            if all_weights_zero(config, ours) {
                return Result::Err(
                    MyError::Validation {
                        msg: String::from_str("the combined maximum score is zero"),
                    },
                );
            }
        }
        proof {
            assert(!zero_total(*config, ov, n2 as int));
        }
        let mut our_entries: Vec<TestReport> = Vec::new();
        let mut i: usize = 0;
        while i < ours.len()
            invariant
                0 <= i <= ours@.len(),
                ov == outcome_views(ours@),
                config.wf(),
                names_of(ov) == config.spec_keys(),
                our_entries@.len() == i,
                entry_views(our_entries@) =~= our_entries_spec(ov, *config).subrange(0, i as int),
                forall|j: int| 0 <= j < i ==> entry_wf(#[trigger] entry_views(our_entries@)[j]),
            decreases ours@.len() - i,
        {
            proof {
                assert(names_of(ov).contains(ov[i as int].name));
            }
            let w = match config.weight_for(&ours[i].name) {
                Result::Ok(w) => w,
                Result::Err(_) => unreached(),
            };
            let e = TestReport::from_test(&ours[i], &w);
            let ghost prev = our_entries@;
            our_entries.push(e);
            proof {
                assert(ours@[i as int]@ == ov[i as int]);
                assert(e@ == entry_of_outcome(ov[i as int], config.spec_weight(ov[i as int].name)));
                assert(our_entries_spec(ov, *config)[i as int] == entry_of_outcome(
                    ov[i as int],
                    config.spec_weight(ov[i as int].name),
                ));
                assert(entry_views(our_entries@) =~= entry_views(prev).push(e@));
                assert(our_entries_spec(ov, *config).subrange(0, i + 1) =~= our_entries_spec(
                    ov,
                    *config,
                ).subrange(0, i as int).push(our_entries_spec(ov, *config)[i as int]));
            }
            i = i + 1;
        }
        proof {
            assert(our_entries_spec(ov, *config).subrange(0, ov.len() as int) =~= our_entries_spec(
                ov,
                *config,
            ));
        }
        let share: Rat = if n2 > 0 {
            match config.their_tests.div_by(n2 as u64) {
                Option::None => {
                    proof {
                        assert(config.their_tests@.den * (n2 as int) > u64::MAX);
                        assert(!build_fits(*config, ov, tv, *coverage));
                    }
                    return Result::Err(
                        MyError::ScoreOverflow {
                            msg: String::from_str(
                                "the submission-test share does not fit a machine word",
                            ),
                        },
                    );
                },
                Option::Some(s) => s,
            }
        } else {
            Rat::zero()
        };
        proof {
            if n2 > 0 {
                assert(share@ == even_share(config.their_tests@, n2 as int));
                assert(config.their_tests@.den * (n2 as int) <= u64::MAX);
            }
        }
        let mut their_entries: Vec<TestReport> = Vec::new();
        let mut k: usize = 0;
        while k < theirs.len()
            invariant
                0 <= k <= theirs@.len(),
                tv == outcome_views(theirs@),
                share.wf(),
                their_entries@.len() == k,
                entry_views(their_entries@) =~= their_entries_spec(tv, share@).subrange(
                    0,
                    k as int,
                ),
                forall|j: int| 0 <= j < k ==> entry_wf(#[trigger] entry_views(their_entries@)[j]),
            decreases theirs@.len() - k,
        {
            let e = TestReport::from_test(&theirs[k], &share);
            let ghost prev = their_entries@;
            their_entries.push(e);
            proof {
                assert(theirs@[k as int]@ == tv[k as int]);
                assert(their_entries_spec(tv, share@)[k as int] == entry_of_outcome(
                    tv[k as int],
                    share@,
                ));
                assert(entry_views(their_entries@) =~= entry_views(prev).push(e@));
                assert(their_entries_spec(tv, share@).subrange(0, k + 1) =~= their_entries_spec(
                    tv,
                    share@,
                ).subrange(0, k as int).push(their_entries_spec(tv, share@)[k as int]));
            }
            k = k + 1;
        }
        proof {
            assert(their_entries_spec(tv, share@).subrange(0, tv.len() as int)
                =~= their_entries_spec(tv, share@));
        }
        let cov_entry = match TestReport::line_coverage(coverage, &config.line_coverage) {
            Result::Err(er) => {
                proof {
                    assert(!build_fits(*config, ov, tv, *coverage));
                }
                return Result::Err(er);
            },
            Result::Ok(c) => c,
        };
        let ghost g_our_unsorted = entry_views(our_entries@);
        let ghost g_their_unsorted = entry_views(their_entries@);
        let our_sorted = sort_entries(our_entries);
        let their_sorted = sort_entries(their_entries);
        let ghost g_our = entry_views(our_sorted@);
        let ghost g_their = entry_views(their_sorted@);
        proof {
            assert forall|j: int| 0 <= j < g_our.len() implies entry_wf(#[trigger] g_our[j]) by {
                let x = g_our[j];
                assert(g_our.contains(x));
                assert(g_our.to_multiset().count(x) > 0);
                assert(g_our_unsorted.to_multiset().count(x) > 0);
                assert(g_our_unsorted.contains(x));
                let j2 = choose|j2: int|
                    0 <= j2 < g_our_unsorted.len() && g_our_unsorted[j2] == x;
                assert(entry_wf(g_our_unsorted[j2]));
            }
            assert forall|j: int| 0 <= j < g_their.len() implies entry_wf(
                #[trigger] g_their[j],
            ) by {
                let x = g_their[j];
                assert(g_their.contains(x));
                assert(g_their.to_multiset().count(x) > 0);
                assert(g_their_unsorted.to_multiset().count(x) > 0);
                assert(g_their_unsorted.contains(x));
                let j2 = choose|j2: int|
                    0 <= j2 < g_their_unsorted.len() && g_their_unsorted[j2] == x;
                assert(entry_wf(g_their_unsorted[j2]));
            }
        }
        let mut all = our_sorted;
        let mut rest = their_sorted;
        all.append(&mut rest);
        all.push(cov_entry);
        let ghost n1 = ours@.len() as int;
        let ghost av = entry_views(all@);
        proof {
            assert(all@.len() == n1 + n2 + 1);
            assert(av.subrange(0, n1) =~= g_our);
            assert(av.subrange(n1, n1 + n2 as int) =~= g_their);
            assert(av[n1 + n2 as int] == cov_entry@);
            assert forall|j: int| 0 <= j < av.len() implies entry_wf(#[trigger] av[j]) by {
                if j < n1 {
                    assert(av[j] == g_our[j]);
                } else if j < n1 + n2 as int {
                    assert(av[j] == g_their[j - n1]);
                } else {
                    assert(av[j] == cov_entry@);
                }
            }
            assert(g_our_unsorted =~= our_entries_spec(ov, *config));
            assert(g_our == sort_spec(our_entries_spec(ov, *config)));
            assert(g_their_unsorted =~= their_entries_spec(
                tv,
                even_share(config.their_tests@, tv.len() as int),
            ));
            assert(g_their == sort_spec(
                their_entries_spec(tv, even_share(config.their_tests@, tv.len() as int)),
            ));
            assert(av =~= assembled_entries(*config, ov, tv, *coverage));
        }
        let max_vals = max_parts(&all);
        proof {
            assert forall|j: int| 0 <= j < max_vals@.len() implies (
            #[trigger] max_vals@[j]).wf() by {
                assert(max_vals@[j] == all@[j].max_score);
                assert(entry_wf(av[j]));
                assert(av[j].max_score == all@[j].max_score@);
            }
            assert(frac_views(max_vals@) =~= maxes_of(av));
        }
        let m = match sum_rats(&max_vals) {
            Option::None => {
                proof {
                    assert(!build_fits(*config, ov, tv, *coverage));
                }
                return Result::Err(
                    MyError::ScoreOverflow {
                        msg: String::from_str(
                            "the summed maximum score does not fit a machine word",
                        ),
                    },
                );
            },
            Option::Some(m) => m,
        };
        proof {
            assert(frac_views(max_vals@) =~= maxes_of(av));
            lemma_sum_zero_iff(frac_views(max_vals@));
            if m@.num == 0 {
                assert(maxes_of(av)[n1 + n2 as int].num == 0);
                assert(maxes_of(av)[n1 + n2 as int] == av[n1 + n2 as int].max_score);
                assert(config.line_coverage@.num == 0);
                if n2 > 0 {
                    let e0 = their_entries_spec(tv, share@)[0];
                    assert(their_entries_spec(tv, share@).contains(e0));
                    assert(g_their_unsorted.to_multiset().count(e0) > 0);
                    assert(g_their.to_multiset().count(e0) > 0);
                    assert(g_their.contains(e0));
                    let j2 = choose|j2: int| 0 <= j2 < g_their.len() && g_their[j2] == e0;
                    assert(av[n1 + j2] == g_their[j2]);
                    assert(maxes_of(av)[n1 + j2].num == 0);
                    assert(e0.max_score == share@);
                    assert(config.their_tests@.num == 0);
                }
                assert forall|j: int| 0 <= j < ov.len() implies config.spec_weight(
                    (#[trigger] ov[j]).name,
                ).num == 0 by {
                    let ej = our_entries_spec(ov, *config)[j];
                    assert(our_entries_spec(ov, *config).contains(ej));
                    assert(g_our_unsorted.to_multiset().count(ej) > 0);
                    assert(g_our.to_multiset().count(ej) > 0);
                    assert(g_our.contains(ej));
                    let j2 = choose|j2: int| 0 <= j2 < g_our.len() && g_our[j2] == ej;
                    assert(av[j2] == g_our[j2]);
                    assert(maxes_of(av)[j2].num == 0);
                    assert(ej.max_score == config.spec_weight(ov[j].name));
                }
                assert(zero_total(*config, ov, n2 as int));
                assert(false);
            }
        }
        let score_vals = score_parts(&all);
        proof {
            assert forall|j: int| 0 <= j < score_vals@.len() implies (
            #[trigger] score_vals@[j]).wf() by {
                assert(score_vals@[j] == all@[j].score);
                assert(entry_wf(av[j]));
                assert(av[j].score == all@[j].score@);
            }
            assert(frac_views(score_vals@) =~= scores_of(av));
        }
        let s = match sum_rats(&score_vals) {
            Option::None => {
                proof {
                    assert(!build_fits(*config, ov, tv, *coverage));
                }
                return Result::Err(
                    MyError::ScoreOverflow {
                        msg: String::from_str(
                            "the summed earned score does not fit a machine word",
                        ),
                    },
                );
            },
            Option::Some(s) => s,
        };
        let total = match s.percent_of(&m) {
            Option::None => {
                proof {
                    assert(s@ == sum_frac(scores_of(av)));
                    assert(m@ == sum_frac(maxes_of(av)));
                    assert(!build_fits(*config, ov, tv, *coverage));
                }
                return Result::Err(
                    MyError::ScoreOverflow {
                        msg: String::from_str(
                            "the normalized total does not fit a machine word",
                        ),
                    },
                );
            },
            Option::Some(t) => t,
        };
        let rep = Report {
            total_score: total,
            tests: all,
            output: Option::None,
            stdout_visibility: Option::None,
        };
        proof {
            assert(rep@.tests == av);
            assert(rep@.tests.subrange(0, n1) == sort_spec(our_entries_spec(ov, *config)));
            assert(rep@.tests.subrange(n1, n1 + n2 as int) == sort_spec(
                their_entries_spec(tv, even_share(config.their_tests@, n2 as int)),
            ));
            assert(report_ok(rep@, *config, ov, tv, *coverage));
            assert(build_fits(*config, ov, tv, *coverage));
        }
        Result::Ok(rep)
    }
}

} // verus!
