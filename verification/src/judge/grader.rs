//! What the two rails decide together.
//!
//! A deterministic check that failed settles the matter, whatever the judges say; one that could not
//! decide holds the record. Otherwise the panel decides: judges that could not decide are left out,
//! the consensus of the others is trusted only where they are independent enough, and then held
//! against the thresholds. What a record keeps is enough to decide again under other thresholds
//! without asking the judges again.

use vstd::prelude::*;

use crate::arithmetic::Arithmetic;
use crate::arithmetic::{is_count, is_over};
use crate::double::Double;
use crate::judge::calibration::{calibration_weights, CalibrationParams};
use crate::judge::calibration::{
    a_better_record_never_weighs_less,
    are_weights,
    fair,
    keeps_order,
    or_nought,
    rating_at,
    usable,
    DEFAULT_BETA,
    DEFAULT_GAMMA,
};
use crate::judge::checks::{verifier_reject_decision, VerifierGrade, VerifierGradeView};
use crate::judge::consensus::{agreement, effective_n, weighted_aggregate, CorrelationMatrix};
use crate::judge::consensus::{
    in_range,
    is_aggregate,
    is_agreement,
    is_effective_n,
    orderly_products,
    orderly_sums,
    picked,
    told,
};
use crate::judge::decision::{Decision, DecisionReason, EscalateTo, Verdict};
use crate::judge::decision::reason_tokens_are_distinct;
use crate::judge::error::{JudgeError, JudgeErrorView};
use crate::json::{compact_text, packed};
use crate::judge::panel::{vote_of, GradeView};
use crate::judge::panel::Grade;
use crate::schema::judging::{JudgeVote, JudgeVoteView, Judging, JudgingView, RatingRecord};
use crate::schema::judging::Verdict as SchemaVerdict;
use crate::schema::verification::{Verification, VerificationView};
use crate::schema::verification::no_verification;
use crate::text::decimal;
use crate::text::{decimal_text, joined, same_text};

verus! {

/// The thresholds of an area.
#[derive(Debug, Clone, Copy, PartialEq, Eq, Structural)]
pub struct AreaThresholds {
    /// An aggregate from here on is admitted.
    pub accept_threshold: Double,
    /// An aggregate below this is rejected; between the two it is revised.
    pub reject_below: Double,
    /// The least share of its judges that a panel must be worth.
    pub min_n_eff_ratio: Double,
    /// The least number of judges that a panel must be worth.
    pub min_n_eff: Double,
}

impl Default for AreaThresholds {
    /// Accept from 0.8, reject below 0.6, and trust a panel that is worth half its judges and at
    /// least one and a half.
    fn default() -> (t: AreaThresholds)
        ensures
            t == (AreaThresholds {
                accept_threshold: Double { bits: 0x3fe9_9999_9999_999a },
                reject_below: Double { bits: 0x3fe3_3333_3333_3333 },
                min_n_eff_ratio: Double { bits: 0x3fe0_0000_0000_0000 },
                min_n_eff: Double { bits: 0x3ff8_0000_0000_0000 },
            }),
    {
        AreaThresholds {
            accept_threshold: Double { bits: 0x3fe9_9999_9999_999a },
            reject_below: Double { bits: 0x3fe3_3333_3333_3333 },
            min_n_eff_ratio: Double { bits: 0x3fe0_0000_0000_0000 },
            min_n_eff: Double { bits: 0x3ff8_0000_0000_0000 },
        }
    }
}

impl AreaThresholds {
    /// What the thresholds say of a trusted aggregate.
    pub open spec fn verdict_on(self, aggregate: Double) -> Decision {
        if aggregate.at_least(self.accept_threshold) {
            Decision::Accept { reason: DecisionReason::AboveThreshold }
        } else if aggregate.below(self.reject_below) {
            Decision::Reject { reason: DecisionReason::BelowThreshold }
        } else {
            Decision::Revise { reason: DecisionReason::ReviseBand }
        }
    }

    /// Whether a panel is too small or too alike to be trusted.
    pub open spec fn distrusts(self, n_eff: Double, ratio: Double) -> bool {
        ratio.below(self.min_n_eff_ratio) || n_eff.below(self.min_n_eff)
    }

    /// What is decided on the consensus of a panel that is worth `n_eff` judges, which is `ratio`
    /// of what it has.
    pub open spec fn consensus_decision(
        self,
        aggregate: Double,
        n_eff: Double,
        ratio: Double,
    ) -> Decision {
        if self.distrusts(n_eff, ratio) {
            Decision::Escalate { to: EscalateTo::Human, reason: DecisionReason::CorrelatedJudges }
        } else {
            self.verdict_on(aggregate)
        }
    }

    /// What the thresholds say of a trusted aggregate: from the accept threshold on it is accepted,
    /// below the reject threshold rejected, between the two revised.
    #[must_use]
    pub fn band(&self, aggregate: Double) -> (d: Decision)
        ensures
            d == self.verdict_on(aggregate),
    {
        if aggregate.is_at_least(self.accept_threshold) {
            Decision::Accept { reason: DecisionReason::AboveThreshold }
        } else if aggregate.is_below(self.reject_below) {
            Decision::Reject { reason: DecisionReason::BelowThreshold }
        } else {
            Decision::Revise { reason: DecisionReason::ReviseBand }
        }
    }

    /// What is decided on the consensus of a panel that is worth `n_eff` judges, which is `ratio`
    /// of what it has.
    #[must_use]
    pub fn decide_consensus(&self, aggregate: Double, n_eff: Double, ratio: Double) -> (d: Decision)
        ensures
            d == self.consensus_decision(aggregate, n_eff, ratio),
    {
        if ratio.is_below(self.min_n_eff_ratio) || n_eff.is_below(self.min_n_eff) {
            Decision::Escalate { to: EscalateTo::Human, reason: DecisionReason::CorrelatedJudges }
        } else {
            self.band(aggregate)
        }
    }
}

/// What is decided about a candidate, and what its record keeps.
#[derive(Debug, Clone, PartialEq)]
pub struct GradeOutcome {
    /// The decision.
    pub decision: Decision,
    /// The judging block.
    pub judging: Judging,
    /// The verification block.
    pub verification: Verification,
}

/// What an outcome is, as mathematics.
#[verifier::ext_equal]
pub struct GradeOutcomeView {
    pub decision: Decision,
    pub judging: JudgingView,
    pub verification: VerificationView,
}

impl DeepView for GradeOutcome {
    type V = GradeOutcomeView;

    open spec fn deep_view(&self) -> GradeOutcomeView {
        GradeOutcomeView {
            decision: self.decision,
            judging: self.judging.deep_view(),
            verification: self.verification.deep_view(),
        }
    }
}

/// Decides about candidates.
#[derive(Debug, Clone, Copy, PartialEq, Eq, Structural)]
pub struct HybridGrader {
    /// The thresholds of the area.
    pub thresholds: AreaThresholds,
    /// How track records count.
    pub calibration: CalibrationParams,
}

/// The votes of a panel.
pub open spec fn votes(panel: Seq<GradeView>) -> Seq<JudgeVoteView> {
    panel.map_values(|g: GradeView| vote_of(g))
}

/// The judging block of a decision.
pub open spec fn judged(
    decision: Decision,
    panel: Seq<GradeView>,
    aggregate: Option<Double>,
    agreement: Option<Double>,
    n_eff: Option<Double>,
    threshold: Double,
) -> JudgingView {
    JudgingView {
        panel: votes(panel),
        aggregate,
        agreement,
        n_eff,
        decisive: match n_eff {
            Some(_) => Some(decisive(panel).len() as usize),
            None => None,
        },
        verdict: decision.kept_verdict(),
        verdict_reason: Some(decision.why().token()),
        threshold_at_decision: Some(threshold),
    }
}

/// The places of the judges that could decide.
pub open spec fn decisive(panel: Seq<GradeView>) -> Seq<usize>
    decreases panel.len(),
{
    if panel.len() == 0 {
        Seq::empty()
    } else if panel.last().verdict != Verdict::Uncertain {
        decisive(panel.drop_last()).push((panel.len() - 1) as usize)
    } else {
        decisive(panel.drop_last())
    }
}

/// The models of the judges at `places`.
pub open spec fn slugs_at(panel: Seq<GradeView>, places: Seq<usize>) -> Seq<Seq<char>> {
    places.map_values(|i: usize| panel[i as int].judge_model)
}

/// The scores of the judges at `places`.
pub open spec fn scores_at(panel: Seq<GradeView>, places: Seq<usize>) -> Seq<Double> {
    places.map_values(|i: usize| panel[i as int].score)
}

/// The scores of all judges.
pub open spec fn all_scores(panel: Seq<GradeView>) -> Seq<Double> {
    panel.map_values(|g: GradeView| g.score)
}

/// What a panel decided, and the judging block to keep.
pub type Verdicts = Result<(Decision, JudgingView), JudgeErrorView>;

/// The decision where no judge could decide.
pub open spec fn tie() -> Decision {
    Decision::Reject { reason: DecisionReason::ConservativeTie }
}

/// What may come out of a panel once the consensus of its decisive judges is known.
pub open spec fn is_trusted_or_not<A: Arithmetic + ?Sized>(
    a: &A,
    thresholds: AreaThresholds,
    panel: Seq<GradeView>,
    aggregate: Double,
    agreement: Double,
    n_eff: Double,
    r: Verdicts,
) -> bool {
    exists|judges: Double, ratio: Double|
        #[trigger] is_count(a, decisive(panel).len() as usize, judges) && #[trigger] is_over(
            a,
            n_eff,
            judges,
            ratio,
        ) && ({
            let d = thresholds.consensus_decision(aggregate, n_eff, ratio);
            r == Ok::<(Decision, JudgingView), JudgeErrorView>(
                (
                    d,
                    judged(
                        d,
                        panel,
                        Some(aggregate),
                        Some(agreement),
                        Some(n_eff),
                        thresholds.accept_threshold,
                    ),
                ),
            )
        })
}

/// What may come out of a panel whose decisive judges weigh `weights`: the consensus is formed of
/// these judges alone, and whatever goes wrong on the way is what comes out.
pub open spec fn is_weighed<A: Arithmetic + ?Sized>(
    a: &A,
    thresholds: AreaThresholds,
    panel: Seq<GradeView>,
    rows: Seq<Seq<Double>>,
    weights: Seq<Double>,
    r: Verdicts,
) -> bool {
    let places = decisive(panel);
    let scores = scores_at(panel, places);
    exists|aggregate: Result<Double, JudgeErrorView>|
        #[trigger] is_aggregate(a, scores, weights, aggregate) && match aggregate {
            Err(e) => r == Err::<(Decision, JudgingView), JudgeErrorView>(e),
            Ok(x) => exists|agreement: Result<Double, JudgeErrorView>|
                #[trigger] is_agreement(a, scores, agreement) && match agreement {
                    Err(e) => r == Err::<(Decision, JudgingView), JudgeErrorView>(e),
                    Ok(y) => exists|n_eff: Result<Double, JudgeErrorView>|
                        #[trigger] is_effective_n(
                            a,
                            weights,
                            picked(rows, in_range(places, rows.len())),
                            n_eff,
                        ) && match n_eff {
                            Err(e) => r == Err::<(Decision, JudgingView), JudgeErrorView>(e),
                            Ok(n) => is_trusted_or_not(a, thresholds, panel, x, y, n, r),
                        },
                },
        }
}

/// What may come out of a panel: a rejection where no judge could decide, otherwise what the
/// consensus of the decisive judges, weighed by their track records, says.
pub open spec fn is_decided<A: Arithmetic + ?Sized>(
    a: &A,
    grader: HybridGrader,
    panel: Seq<GradeView>,
    ratings: Seq<RatingRecord>,
    area: Option<Seq<char>>,
    rows: Seq<Seq<Double>>,
    r: Verdicts,
) -> bool {
    if decisive(panel).len() == 0 {
        exists|agreement: Result<Double, JudgeErrorView>|
            #[trigger] is_agreement(a, all_scores(panel), agreement) && r == Ok::<
                (Decision, JudgingView),
                JudgeErrorView,
            >(
                (
                    tie(),
                    judged(
                        tie(),
                        panel,
                        None,
                        agreement.ok(),
                        None,
                        grader.thresholds.accept_threshold,
                    ),
                ),
            )
    } else {
        exists|weights: Seq<Double>|
            #[trigger] are_weights(
                a,
                slugs_at(panel, decisive(panel)),
                ratings,
                area,
                grader.calibration,
                weights,
            ) && is_weighed(a, grader.thresholds, panel, rows, weights, r)
    }
}

/// The decision on a candidate that a deterministic check could not decide on.
pub open spec fn undecided() -> Decision {
    Decision::Escalate { to: EscalateTo::Verifier, reason: DecisionReason::VerifierUndecided }
}

/// The decision on a candidate that failed a deterministic check.
pub open spec fn failed() -> Decision {
    Decision::Reject { reason: DecisionReason::VerifierReject }
}

/// The outcome of a decision that the deterministic rail made alone.
pub open spec fn settled(
    decision: Decision,
    panel: Seq<GradeView>,
    threshold: Double,
    verification: VerificationView,
) -> GradeOutcomeView {
    GradeOutcomeView {
        decision,
        judging: judged(decision, panel, None, None, None, threshold),
        verification,
    }
}

/// The error of a matrix that is not one of this panel.
pub open spec fn foreign_matrix(judges: nat, dim: nat) -> JudgeErrorView {
    JudgeErrorView::Invariant(
        "panel size "@ + decimal(judges) + " != correlation matrix dim "@ + decimal(dim),
    )
}

/// What may come out of grading a candidate. A failed check rejects it and an undecided one holds
/// it, whatever the panel says; otherwise the panel decides, and there has to be one, with a matrix
/// of its size.
pub open spec fn is_outcome<A: Arithmetic + ?Sized>(
    a: &A,
    grader: HybridGrader,
    verifier: Option<VerifierGradeView>,
    panel: Seq<GradeView>,
    ratings: Seq<RatingRecord>,
    area: Option<Seq<char>>,
    rows: Seq<Seq<Double>>,
    r: Result<GradeOutcomeView, JudgeErrorView>,
) -> bool {
    let threshold = grader.thresholds.accept_threshold;
    if verifier is Some && !verifier->0.verification.all_passed {
        r == Ok::<GradeOutcomeView, JudgeErrorView>(
            settled(failed(), panel, threshold, verifier->0.verification),
        )
    } else if verifier is Some && verifier->0.verification.needs_review is Some {
        r == Ok::<GradeOutcomeView, JudgeErrorView>(
            settled(undecided(), panel, threshold, verifier->0.verification),
        )
    } else if panel.len() == 0 {
        r == Err::<GradeOutcomeView, JudgeErrorView>(
            JudgeErrorView::EmptyPanel(
                "no verifier hard-reject and no panel grades; nothing can decide the record"@,
            ),
        )
    } else if rows.len() != panel.len() {
        r == Err::<GradeOutcomeView, JudgeErrorView>(foreign_matrix(panel.len(), rows.len()))
    } else {
        exists|v: Verdicts|
            #[trigger] is_decided(a, grader, panel, ratings, area, rows, v) && r == (match v {
                Ok((decision, judging)) => Ok::<GradeOutcomeView, JudgeErrorView>(
                    GradeOutcomeView {
                        decision,
                        judging,
                        verification: match verifier {
                            Some(g) => g.verification,
                            None => no_verification(),
                        },
                    },
                ),
                Err(e) => Err::<GradeOutcomeView, JudgeErrorView>(e),
            })
    }
}

spec fn verdicts(r: Result<(Decision, Judging), JudgeError>) -> Verdicts {
    match r {
        Ok((d, j)) => Ok((d, j.deep_view())),
        Err(e) => Err(e.deep_view()),
    }
}

fn persisted_votes(panel: &[Grade]) -> (v: Vec<JudgeVote>)
    ensures
        v.deep_view() == votes(panel.deep_view()),
{
    let mut v: Vec<JudgeVote> = Vec::new();
    let mut i: usize = 0;
    while i < panel.len()
        invariant
            i <= panel@.len(),
            v@.len() == i,
            forall|p: int|
                0 <= p < i ==> (#[trigger] v@[p]).deep_view() == vote_of(panel@[p].deep_view()),
        decreases panel@.len() - i,
    {
        v.push(panel[i].to_vote());
        i += 1;
    }
    assert(v.deep_view() =~= votes(panel.deep_view()));
    v
}

fn block(
    decision: Decision,
    panel: &[Grade],
    aggregate: Option<Double>,
    agreement: Option<Double>,
    n_eff: Option<Double>,
    places: usize,
    threshold: Double,
) -> (j: Judging)
    requires
        n_eff is Some ==> places == decisive(panel.deep_view()).len(),
    ensures
        j.deep_view() == judged(
            decision,
            panel.deep_view(),
            aggregate,
            agreement,
            n_eff,
            threshold,
        ),
{
    Judging {
        panel: persisted_votes(panel),
        aggregate,
        agreement,
        n_eff,
        decisive: match n_eff {
            Some(_) => Some(places),
            None => None,
        },
        verdict: decision.to_schema_verdict(),
        verdict_reason: Some(decision.reason().as_str().to_owned()),
        threshold_at_decision: Some(threshold),
    }
}

fn decisive_places(panel: &[Grade]) -> (v: Vec<usize>)
    ensures
        v@ == decisive(panel.deep_view()),
        forall|p: int| 0 <= p < v@.len() ==> (#[trigger] v@[p]) < panel@.len(),
{
    let ghost view = panel.deep_view();
    let mut v: Vec<usize> = Vec::new();
    let mut i: usize = 0;
    assert(view.take(0) =~= Seq::empty());
    while i < panel.len()
        invariant
            i <= panel@.len(),
            view == panel.deep_view(),
            v@ == decisive(view.take(i as int)),
            forall|p: int| 0 <= p < v@.len() ==> (#[trigger] v@[p]) < i,
        decreases panel@.len() - i,
    {
        proof {
            assert(view.take(i + 1).drop_last() =~= view.take(i as int));
            assert(view.take(i + 1).last() == panel@[i as int].deep_view());
        }
        if panel[i].verdict != Verdict::Uncertain {
            v.push(i);
        }
        i += 1;
    }
    assert(view.take(i as int) =~= view);
    v
}

impl HybridGrader {
    /// A grader with default weights for track records.
    #[must_use]
    pub fn new(thresholds: AreaThresholds) -> (g: HybridGrader)
        ensures
            g == (HybridGrader {
                thresholds,
                calibration: CalibrationParams {
                    beta: Double { bits: DEFAULT_BETA },
                    gamma: Double { bits: DEFAULT_GAMMA },
                },
            }),
    {
        HybridGrader { thresholds, calibration: CalibrationParams::default() }
    }

    /// Decides about a candidate from what the deterministic rail says and the grades of the panel.
    pub fn grade<A: Arithmetic + ?Sized>(
        &self,
        verifier: Option<&VerifierGrade>,
        panel: &[Grade],
        ratings: &[RatingRecord],
        area: Option<&str>,
        r: &CorrelationMatrix,
        a: &A,
    ) -> (out: Result<GradeOutcome, JudgeError>)
        ensures
            is_outcome(
                a,
                *self,
                verifier.deep_view(),
                panel.deep_view(),
                ratings@,
                area.deep_view(),
                r@,
                match out {
                    Ok(o) => Ok(o.deep_view()),
                    Err(e) => Err(e.deep_view()),
                },
            ),
    {
        let threshold = self.thresholds.accept_threshold;
        if let Some(v) = verifier {
            if v.is_hard_reject() {
                let decision = verifier_reject_decision();
                return Ok(
                    GradeOutcome {
                        decision,
                        judging: block(decision, panel, None, None, None, 0, threshold),
                        verification: v.verification.clone(),
                    },
                );
            }
            if v.blocks_admission() {
                let decision = Decision::Escalate {
                    to: EscalateTo::Verifier,
                    reason: DecisionReason::VerifierUndecided,
                };
                return Ok(
                    GradeOutcome {
                        decision,
                        judging: block(decision, panel, None, None, None, 0, threshold),
                        verification: v.verification.clone(),
                    },
                );
            }
        }
        if panel.len() == 0 {
            return Err(
                JudgeError::EmptyPanel(
                    "no verifier hard-reject and no panel grades; nothing can decide the record".to_owned(),
                ),
            );
        }
        if r.dim() != panel.len() {
            let judges = decimal_text(panel.len() as u64);
            let dim = decimal_text(r.dim() as u64);
            let mut words = joined("panel size ", judges.as_str());
            words.append(" != correlation matrix dim ");
            words.append(dim.as_str());
            return Err(JudgeError::Invariant(words));
        }
        let verification = match verifier {
            Some(v) => v.verification.clone(),
            None => Verification::default(),
        };
        let decided = self.decide(panel, ratings, area, r, a);
        assert(is_decided(
            a,
            *self,
            panel.deep_view(),
            ratings@,
            area.deep_view(),
            r@,
            verdicts(decided),
        ));
        match decided {
            Ok((decision, judging)) => Ok(GradeOutcome { decision, judging, verification }),
            Err(e) => Err(e),
        }
    }

    fn decide<A: Arithmetic + ?Sized>(
        &self,
        panel: &[Grade],
        ratings: &[RatingRecord],
        area: Option<&str>,
        r: &CorrelationMatrix,
        a: &A,
    ) -> (out: Result<(Decision, Judging), JudgeError>)
        ensures
            is_decided(
                a,
                *self,
                panel.deep_view(),
                ratings@,
                area.deep_view(),
                r@,
                verdicts(out),
            ),
    {
        let ghost view = panel.deep_view();
        let threshold = self.thresholds.accept_threshold;
        let places = decisive_places(panel);
        if places.len() == 0 {
            let scores = every_score(panel);
            let spread = agreement(scores.as_slice(), a);
            assert(is_agreement(a, all_scores(view), told(spread)));
            let decision = Decision::Reject { reason: DecisionReason::ConservativeTie };
            let judging = block(decision, panel, None, spread.ok(), None, 0, threshold);
            return Ok((decision, judging));
        }
        let slugs = slugs_of(panel, &places);
        let scores = scores_of(panel, &places);
        let weights = calibration_weights(slugs.as_slice(), ratings, area, self.calibration, a);
        let out = self.weigh(panel, &places, scores.as_slice(), weights.as_slice(), r, a);
        assert(are_weights(
            a,
            slugs_at(view, places@),
            ratings@,
            area.deep_view(),
            self.calibration,
            weights@,
        ));
        out
    }

    fn weigh<A: Arithmetic + ?Sized>(
        &self,
        panel: &[Grade],
        places: &Vec<usize>,
        scores: &[Double],
        weights: &[Double],
        r: &CorrelationMatrix,
        a: &A,
    ) -> (out: Result<(Decision, Judging), JudgeError>)
        requires
            places@ == decisive(panel.deep_view()),
            scores@ == scores_at(panel.deep_view(), places@),
        ensures
            is_weighed(a, self.thresholds, panel.deep_view(), r@, weights@, verdicts(out)),
    {
        let ghost view = panel.deep_view();
        let sub = r.submatrix(places.as_slice());
        let aggregate_result = weighted_aggregate(scores, weights, a);
        assert(is_aggregate(a, scores@, weights@, told(aggregate_result)));
        let aggregate = match aggregate_result {
            Ok(x) => x,
            Err(e) => {
                return Err(e);
            },
        };
        let agreement_result = agreement(scores, a);
        assert(is_agreement(a, scores@, told(agreement_result)));
        let agree = match agreement_result {
            Ok(x) => x,
            Err(e) => {
                return Err(e);
            },
        };
        let n_eff_result = effective_n(weights, &sub, a);
        assert(is_effective_n(a, weights@, sub@, told(n_eff_result)));
        let n_eff = match n_eff_result {
            Ok(x) => x,
            Err(e) => {
                return Err(e);
            },
        };
        let judges = a.count(places.len());
        let ratio = a.over(n_eff, judges);
        assert(is_count(a, decisive(view).len() as usize, judges));
        assert(is_over(a, n_eff, judges, ratio));
        let decision = self.thresholds.decide_consensus(aggregate, n_eff, ratio);
        let judging = block(
            decision,
            panel,
            Some(aggregate),
            Some(agree),
            Some(n_eff),
            places.len(),
            self.thresholds.accept_threshold,
        );
        let out: Result<(Decision, Judging), JudgeError> = Ok((decision, judging));
        assert(is_trusted_or_not(a, self.thresholds, view, aggregate, agree, n_eff, verdicts(out)));
        out
    }
}

fn every_score(panel: &[Grade]) -> (v: Vec<Double>)
    ensures
        v@ == all_scores(panel.deep_view()),
{
    let mut v: Vec<Double> = Vec::new();
    let mut i: usize = 0;
    while i < panel.len()
        invariant
            i <= panel@.len(),
            v@.len() == i,
            forall|p: int| 0 <= p < i ==> #[trigger] v@[p] == panel@[p].score,
        decreases panel@.len() - i,
    {
        v.push(panel[i].score);
        i += 1;
    }
    assert(v@ =~= all_scores(panel.deep_view()));
    v
}

fn scores_of(panel: &[Grade], places: &Vec<usize>) -> (v: Vec<Double>)
    requires
        forall|p: int| 0 <= p < places@.len() ==> (#[trigger] places@[p]) < panel@.len(),
    ensures
        v@ == scores_at(panel.deep_view(), places@),
{
    let mut v: Vec<Double> = Vec::new();
    let mut i: usize = 0;
    while i < places.len()
        invariant
            i <= places@.len(),
            forall|p: int| 0 <= p < places@.len() ==> (#[trigger] places@[p]) < panel@.len(),
            v@.len() == i,
            forall|p: int| 0 <= p < i ==> #[trigger] v@[p] == panel@[places@[p] as int].score,
        decreases places@.len() - i,
    {
        v.push(panel[places[i]].score);
        i += 1;
    }
    assert(v@ =~= scores_at(panel.deep_view(), places@));
    v
}

fn slugs_of(panel: &[Grade], places: &Vec<usize>) -> (v: Vec<String>)
    requires
        forall|p: int| 0 <= p < places@.len() ==> (#[trigger] places@[p]) < panel@.len(),
    ensures
        v.deep_view() == slugs_at(panel.deep_view(), places@),
{
    let mut v: Vec<String> = Vec::new();
    let mut i: usize = 0;
    while i < places.len()
        invariant
            i <= places@.len(),
            forall|p: int| 0 <= p < places@.len() ==> (#[trigger] places@[p]) < panel@.len(),
            v@.len() == i,
            forall|p: int|
                0 <= p < i ==> (#[trigger] v@[p])@ == panel@[places@[p] as int].judge_model@,
        decreases places@.len() - i,
    {
        v.push(panel[places[i]].judge_model.clone());
        i += 1;
    }
    assert(v.deep_view() =~= slugs_at(panel.deep_view(), places@));
    v
}

/// The reason that a judging block without aggregate records.
pub open spec fn recorded(j: JudgingView) -> DecisionReason {
    if j.verdict_reason == Some(DecisionReason::ConservativeTie.token()) {
        DecisionReason::ConservativeTie
    } else if j.verdict_reason == Some(DecisionReason::VerifierUndecided.token()) {
        DecisionReason::VerifierUndecided
    } else {
        DecisionReason::VerifierReject
    }
}

/// What a judging block without aggregate decides: what it records.
pub open spec fn replayed(j: JudgingView) -> Result<Decision, JudgeErrorView> {
    match j.verdict {
        Some(SchemaVerdict::Reject) => Ok(Decision::Reject { reason: recorded(j) }),
        Some(SchemaVerdict::NeedsReview) => Ok(
            Decision::Escalate {
                to: if recorded(j) == DecisionReason::VerifierUndecided {
                    EscalateTo::Verifier
                } else {
                    EscalateTo::Human
                },
                reason: recorded(j),
            },
        ),
        _ => Err(
            JudgeErrorView::Invariant("judging block has no aggregate to re-derive a verdict from"@),
        ),
    }
}

/// The number of judges that the consensus of a judging block was formed of, at least one; where it is
/// not kept, all that voted.
pub open spec fn deciders(j: JudgingView) -> usize {
    let n = match j.decisive {
        Some(n) => n,
        None => j.panel.len() as usize,
    };
    if n == 0 {
        1
    } else {
        n
    }
}

/// What may be decided on a judging block under some thresholds, without asking the judges again.
pub open spec fn is_rederived<A: Arithmetic + ?Sized>(
    a: &A,
    j: JudgingView,
    thresholds: AreaThresholds,
    r: Result<Decision, JudgeErrorView>,
) -> bool {
    match (j.aggregate, j.n_eff) {
        (None, _) => r == replayed(j),
        (Some(aggregate), None) => r == Ok::<Decision, JudgeErrorView>(
            thresholds.verdict_on(aggregate),
        ),
        (Some(aggregate), Some(n_eff)) => exists|judges: Double, ratio: Double|
            #[trigger] is_count(a, deciders(j), judges) && #[trigger] is_over(
                a,
                n_eff,
                judges,
                ratio,
            ) && r == Ok::<Decision, JudgeErrorView>(
                thresholds.consensus_decision(aggregate, n_eff, ratio),
            ),
    }
}

fn has_reason(judging: &Judging, reason: DecisionReason) -> (r: bool)
    ensures
        r == (judging.deep_view().verdict_reason == Some(reason.token())),
{
    match &judging.verdict_reason {
        Some(s) => same_text(s.as_str(), reason.as_str()),
        None => false,
    }
}

/// Decides again on a judging block, under thresholds that may have changed, without asking the
/// judges again. A block without aggregate decides what it records; one that records nothing is an
/// error.
pub fn rederive_verdict<A: Arithmetic + ?Sized>(
    judging: &Judging,
    thresholds: AreaThresholds,
    a: &A,
) -> (r: Result<Decision, JudgeError>)
    ensures
        is_rederived(
            a,
            judging.deep_view(),
            thresholds,
            match r {
                Ok(d) => Ok(d),
                Err(e) => Err(e.deep_view()),
            },
        ),
{
    let ghost j = judging.deep_view();
    assert(j.panel.len() == judging.panel@.len());
    let aggregate = match judging.aggregate {
        Some(x) => x,
        None => {
            let reason = if has_reason(judging, DecisionReason::ConservativeTie) {
                DecisionReason::ConservativeTie
            } else if has_reason(judging, DecisionReason::VerifierUndecided) {
                DecisionReason::VerifierUndecided
            } else {
                DecisionReason::VerifierReject
            };
            return match judging.verdict {
                Some(SchemaVerdict::Reject) => Ok(Decision::Reject { reason }),
                Some(SchemaVerdict::NeedsReview) => {
                    let to = if reason == DecisionReason::VerifierUndecided {
                        EscalateTo::Verifier
                    } else {
                        EscalateTo::Human
                    };
                    Ok(Decision::Escalate { to, reason })
                },
                _ => Err(
                    JudgeError::Invariant(
                        "judging block has no aggregate to re-derive a verdict from".to_owned(),
                    ),
                ),
            };
        },
    };
    match judging.n_eff {
        None => Ok(thresholds.band(aggregate)),
        Some(n_eff) => {
            let kept: usize = match judging.decisive {
                Some(n) => n,
                None => judging.panel.len(),
            };
            let judges = a.count(
                if kept == 0 {
                    1
                } else {
                    kept
                },
            );
            let ratio = a.over(n_eff, judges);
            assert(is_count(a, deciders(j), judges));
            assert(is_over(a, n_eff, judges, ratio));
            Ok(thresholds.decide_consensus(aggregate, n_eff, ratio))
        },
    }
}

/// A failed deterministic check rejects a candidate, whatever the judges say.
pub proof fn a_failed_check_sinks_any_panel<A: Arithmetic + ?Sized>(
    a: &A,
    grader: HybridGrader,
    verifier: VerifierGradeView,
    panel: Seq<GradeView>,
    ratings: Seq<RatingRecord>,
    area: Option<Seq<char>>,
    rows: Seq<Seq<Double>>,
    r: Result<GradeOutcomeView, JudgeErrorView>,
)
    requires
        !verifier.verification.all_passed,
        is_outcome(a, grader, Some(verifier), panel, ratings, area, rows, r),
    ensures
        r matches Ok(o) && o.decision == failed() && o.judging.verdict == Some(
            SchemaVerdict::Reject,
        ) && o.judging.aggregate is None && o.judging.panel == votes(panel),
{
}

/// A deterministic check that could not decide holds a candidate, whatever the judges say.
pub proof fn an_undecided_check_never_admits<A: Arithmetic + ?Sized>(
    a: &A,
    grader: HybridGrader,
    verifier: VerifierGradeView,
    panel: Seq<GradeView>,
    ratings: Seq<RatingRecord>,
    area: Option<Seq<char>>,
    rows: Seq<Seq<Double>>,
    r: Result<GradeOutcomeView, JudgeErrorView>,
)
    requires
        verifier.verification.needs_review is Some,
        is_outcome(a, grader, Some(verifier), panel, ratings, area, rows, r),
    ensures
        r matches Ok(o) && o.decision !is Accept && o.judging.verdict != Some(SchemaVerdict::Admit)
            && o.judging.aggregate is None,
{
}

/// A candidate is admitted only by a panel that is worth enough judges and whose aggregate reaches
/// the accept threshold.
pub proof fn admission_takes_a_trusted_panel<A: Arithmetic + ?Sized>(
    a: &A,
    grader: HybridGrader,
    verifier: Option<VerifierGradeView>,
    panel: Seq<GradeView>,
    ratings: Seq<RatingRecord>,
    area: Option<Seq<char>>,
    rows: Seq<Seq<Double>>,
    o: GradeOutcomeView,
)
    requires
        is_outcome(a, grader, verifier, panel, ratings, area, rows, Ok(o)),
        o.decision is Accept,
    ensures
        o.judging.aggregate is Some,
        o.judging.aggregate->0.at_least(grader.thresholds.accept_threshold),
        o.judging.n_eff is Some,
        !o.judging.n_eff->0.below(grader.thresholds.min_n_eff),
        decisive(panel).len() > 0,
        verifier is Some ==> verifier->0.verification.all_passed
            && verifier->0.verification.needs_review is None,
{
}

/// A decision that was made without a consensus is reproduced by what the record keeps, under any
/// thresholds.
pub proof fn a_decision_without_consensus_is_reproduced<A: Arithmetic + ?Sized>(
    a: &A,
    grader: HybridGrader,
    verifier: Option<VerifierGradeView>,
    panel: Seq<GradeView>,
    ratings: Seq<RatingRecord>,
    area: Option<Seq<char>>,
    rows: Seq<Seq<Double>>,
    o: GradeOutcomeView,
    thresholds: AreaThresholds,
    r: Result<Decision, JudgeErrorView>,
)
    requires
        is_outcome(a, grader, verifier, panel, ratings, area, rows, Ok(o)),
        o.judging.aggregate is None,
        is_rederived(a, o.judging, thresholds, r),
    ensures
        r == Ok::<Decision, JudgeErrorView>(o.decision),
{
    reason_tokens_are_distinct(o.decision.why(), DecisionReason::ConservativeTie);
    reason_tokens_are_distinct(o.decision.why(), DecisionReason::VerifierUndecided);
}

/// Whether the arithmetic gives one result for one input.
pub open spec fn consistent<A: Arithmetic + ?Sized>(a: &A) -> bool {
    &&& forall|n: usize, x: Double, y: Double|
        #[trigger] is_count(a, n, x) && #[trigger] is_count(a, n, y) ==> x == y
    &&& forall|p: Double, q: Double, x: Double, y: Double|
        #[trigger] is_over(a, p, q, x) && #[trigger] is_over(a, p, q, y) ==> x == y
}

proof fn lemma_decisive_fits(panel: Seq<GradeView>)
    ensures
        decisive(panel).len() <= panel.len(),
    decreases panel.len(),
{
    if panel.len() > 0 {
        lemma_decisive_fits(panel.drop_last());
    }
}

/// Every decision is reproduced under the same thresholds by what the record keeps: the panel is
/// trusted by the share of the judges that could decide, when it is graded and ever after.
pub proof fn a_decision_is_reproduced<A: Arithmetic + ?Sized>(
    a: &A,
    grader: HybridGrader,
    verifier: Option<VerifierGradeView>,
    panel: Seq<GradeView>,
    ratings: Seq<RatingRecord>,
    area: Option<Seq<char>>,
    rows: Seq<Seq<Double>>,
    o: GradeOutcomeView,
    r: Result<Decision, JudgeErrorView>,
)
    requires
        consistent(a),
        panel.len() <= usize::MAX,
        is_outcome(a, grader, verifier, panel, ratings, area, rows, Ok(o)),
        is_rederived(a, o.judging, grader.thresholds, r),
    ensures
        r == Ok::<Decision, JudgeErrorView>(o.decision),
{
    lemma_decisive_fits(panel);
    if o.judging.aggregate is None {
        a_decision_without_consensus_is_reproduced(
            a,
            grader,
            verifier,
            panel,
            ratings,
            area,
            rows,
            o,
            grader.thresholds,
            r,
        );
    }
}

/// A panel that is not trusted stays so: whatever the bands are changed to, its record is escalated
/// again, as long as the demands on its independence are the same.
pub proof fn a_distrusted_panel_stays_escalated<A: Arithmetic + ?Sized>(
    a: &A,
    grader: HybridGrader,
    verifier: Option<VerifierGradeView>,
    panel: Seq<GradeView>,
    ratings: Seq<RatingRecord>,
    area: Option<Seq<char>>,
    rows: Seq<Seq<Double>>,
    o: GradeOutcomeView,
    thresholds: AreaThresholds,
    r: Result<Decision, JudgeErrorView>,
)
    requires
        consistent(a),
        panel.len() <= usize::MAX,
        is_outcome(a, grader, verifier, panel, ratings, area, rows, Ok(o)),
        o.decision is Escalate,
        thresholds.min_n_eff_ratio == grader.thresholds.min_n_eff_ratio,
        thresholds.min_n_eff == grader.thresholds.min_n_eff,
        is_rederived(a, o.judging, thresholds, r),
    ensures
        r == Ok::<Decision, JudgeErrorView>(o.decision),
{
    lemma_decisive_fits(panel);
    if o.judging.aggregate is None {
        a_decision_without_consensus_is_reproduced(
            a,
            grader,
            verifier,
            panel,
            ratings,
            area,
            rows,
            o,
            thresholds,
            r,
        );
    }
}

/// Whether `places` are those of the judges of a panel that could decide, in the order of the panel.
pub open spec fn could_decide(panel: Seq<GradeView>, places: Seq<usize>) -> bool {
    &&& forall|p: int, q: int|
        0 <= p < q < places.len() ==> (#[trigger] places[p]) < (#[trigger] places[q])
    &&& forall|p: int|
        0 <= p < places.len() ==> (#[trigger] places[p]) < panel.len() && panel[places[p] as int].verdict
            != Verdict::Uncertain
    &&& forall|i: usize|
        i < panel.len() && (#[trigger] panel[i as int]).verdict != Verdict::Uncertain
            ==> places.contains(i)
}

proof fn lemma_decisive_are_those(panel: Seq<GradeView>)
    requires
        panel.len() <= usize::MAX,
    ensures
        could_decide(panel, decisive(panel)),
    decreases panel.len(),
{
    if panel.len() > 0 {
        let before = panel.drop_last();
        let n = (panel.len() - 1) as usize;
        lemma_decisive_are_those(before);
        let places = decisive(panel);
        assert forall|p: int| 0 <= p < places.len() implies (#[trigger] places[p]) < panel.len()
            && panel[places[p] as int].verdict != Verdict::Uncertain by {
            if p < decisive(before).len() {
                assert(decisive(before)[p] == places[p]);
                assert(before[places[p] as int] == panel[places[p] as int]);
            }
        }
        assert forall|p: int, q: int| 0 <= p < q < places.len() implies (#[trigger] places[p]) < (
        #[trigger] places[q]) by {
            assert(decisive(before)[p] == places[p]);
            if q < decisive(before).len() {
                assert(decisive(before)[q] == places[q]);
            }
        }
        assert forall|i: usize|
            i < panel.len() && (#[trigger] panel[i as int]).verdict
                != Verdict::Uncertain implies places.contains(i) by {
            if i < n {
                assert(before[i as int] == panel[i as int]);
                assert(decisive(before).contains(i));
                let p = choose|p: int| 0 <= p < decisive(before).len() && decisive(before)[p] == i;
                assert(places[p] == i);
            } else {
                assert(places[places.len() - 1] == i);
            }
        }
    }
}

/// There is one way to tell the judges that could decide.
proof fn lemma_places_are_told_one_way(panel: Seq<GradeView>, a: Seq<usize>, b: Seq<usize>)
    requires
        could_decide(panel, a),
        could_decide(panel, b),
    ensures
        a == b,
    decreases a.len(),
{
    if a.len() == 0 || b.len() == 0 {
        if a.len() > 0 {
            assert(b.contains(a[0]));
        }
        if b.len() > 0 {
            assert(a.contains(b[0]));
        }
        assert(a =~= b);
    } else {
        let m = panel.len();
        let x = a.last();
        let y = b.last();
        assert(b.contains(x));
        assert(a.contains(y));
        let i = choose|i: int| 0 <= i < b.len() && b[i] == x;
        let j = choose|j: int| 0 <= j < a.len() && a[j] == y;
        assert(x == y);
        let shorter = panel.take(x as int);
        let before = a.drop_last();
        let other = b.drop_last();
        assert forall|k: usize|
            k < shorter.len() && (#[trigger] shorter[k as int]).verdict
                != Verdict::Uncertain implies before.contains(k) by {
            assert(panel[k as int] == shorter[k as int]);
            assert(a.contains(k));
            let p = choose|p: int| 0 <= p < a.len() && a[p] == k;
            assert(before[p] == k);
        }
        assert forall|k: usize|
            k < shorter.len() && (#[trigger] shorter[k as int]).verdict
                != Verdict::Uncertain implies other.contains(k) by {
            assert(panel[k as int] == shorter[k as int]);
            assert(b.contains(k));
            let p = choose|p: int| 0 <= p < b.len() && b[p] == k;
            assert(other[p] == k);
        }
        assert forall|p: int| 0 <= p < before.len() implies (#[trigger] before[p]) < shorter.len()
            && shorter[before[p] as int].verdict != Verdict::Uncertain by {
            assert(a[p] < a[a.len() - 1]);
        }
        assert forall|p: int| 0 <= p < other.len() implies (#[trigger] other[p]) < shorter.len()
            && shorter[other[p] as int].verdict != Verdict::Uncertain by {
            assert(b[p] < b[b.len() - 1]);
        }
        lemma_places_are_told_one_way(shorter, before, other);
        assert(a =~= before.push(x));
        assert(b =~= other.push(x));
    }
}

proof fn lemma_all_in_range(places: Seq<usize>, k: nat)
    requires
        forall|p: int| 0 <= p < places.len() ==> (#[trigger] places[p]) < k,
    ensures
        in_range(places, k) == places,
    decreases places.len(),
{
    reveal(Seq::filter);
    if places.len() > 0 {
        let before = places.drop_last();
        assert forall|p: int| 0 <= p < before.len() implies (#[trigger] before[p]) < k by {
            assert(places[p] < k);
        }
        lemma_all_in_range(before, k);
        assert(places[places.len() - 1] < k);
        assert(in_range(places, k) =~= before.push(places.last()));
        assert(places =~= before.push(places.last()));
    }
}

/// What a panel decides is the consensus of the judges that could decide, each weighed by the track
/// record that the given ratings hold of it: the aggregate that is kept is that of their scores under
/// these weights, what the panel is worth is worked out from these weights and from how these judges
/// correlate, and the panel is trusted, and the aggregate held against the bands, on these figures.
pub proof fn the_consensus_is_weighed_by_track_records<A: Arithmetic + ?Sized>(
    a: &A,
    grader: HybridGrader,
    verifier: Option<VerifierGradeView>,
    panel: Seq<GradeView>,
    ratings: Seq<RatingRecord>,
    area: Option<Seq<char>>,
    rows: Seq<Seq<Double>>,
    o: GradeOutcomeView,
    places: Seq<usize>,
    slugs: Seq<Seq<char>>,
    scores: Seq<Double>,
    between: Seq<Seq<Double>>,
)
    requires
        panel.len() <= usize::MAX,
        is_outcome(a, grader, verifier, panel, ratings, area, rows, Ok(o)),
        o.judging.aggregate is Some,
        could_decide(panel, places),
        slugs.len() == places.len(),
        scores.len() == places.len(),
        between.len() == places.len(),
        forall|p: int|
            0 <= p < places.len() ==> #[trigger] slugs[p] == panel[places[p] as int].judge_model,
        forall|p: int|
            0 <= p < places.len() ==> #[trigger] scores[p] == panel[places[p] as int].score,
        forall|p: int| 0 <= p < places.len() ==> (#[trigger] between[p]).len() == places.len(),
        forall|p: int, q: int|
            0 <= p < places.len() && 0 <= q < places.len() ==> #[trigger] between[p][q]
                == rows[places[p] as int][places[q] as int],
    ensures
        o.judging.agreement is Some,
        o.judging.n_eff is Some,
        o.judging.decisive == Some(places.len() as usize),
        rows.len() == panel.len(),
        is_agreement(a, scores, Ok(o.judging.agreement->0)),
        exists|weights: Seq<Double>|
            are_weights(a, slugs, ratings, area, grader.calibration, weights)
                && #[trigger] is_aggregate(a, scores, weights, Ok(o.judging.aggregate->0))
                && is_effective_n(a, weights, between, Ok(o.judging.n_eff->0)),
        exists|judges: Double, ratio: Double|
            #[trigger] is_count(a, places.len() as usize, judges) && #[trigger] is_over(
                a,
                o.judging.n_eff->0,
                judges,
                ratio,
            ) && ({
                let t = grader.thresholds;
                let x = o.judging.aggregate->0;
                let distrusted = ratio.below(t.min_n_eff_ratio) || o.judging.n_eff->0.below(
                    t.min_n_eff,
                );
                &&& distrusted ==> o.decision == (Decision::Escalate {
                    to: EscalateTo::Human,
                    reason: DecisionReason::CorrelatedJudges,
                })
                &&& !distrusted && x.at_least(t.accept_threshold) ==> o.decision
                    == (Decision::Accept { reason: DecisionReason::AboveThreshold })
                &&& !distrusted && !x.at_least(t.accept_threshold) && x.below(t.reject_below)
                    ==> o.decision == (Decision::Reject { reason: DecisionReason::BelowThreshold })
                &&& !distrusted && !x.at_least(t.accept_threshold) && !x.below(t.reject_below)
                    ==> o.decision == (Decision::Revise { reason: DecisionReason::ReviseBand })
            }),
{
    lemma_decisive_are_those(panel);
    lemma_places_are_told_one_way(panel, places, decisive(panel));
    assert(slugs_at(panel, places) =~= slugs);
    assert(scores_at(panel, places) =~= scores);
    lemma_all_in_range(places, rows.len());
    assert(picked(rows, places) =~~= between);
    let v = choose|v: Verdicts|
        #[trigger] is_decided(a, grader, panel, ratings, area, rows, v) && v == Ok::<
            (Decision, JudgingView),
            JudgeErrorView,
        >((o.decision, o.judging));
    let weights = choose|weights: Seq<Double>|
        #[trigger] are_weights(a, slugs, ratings, area, grader.calibration, weights) && is_weighed(
            a,
            grader.thresholds,
            panel,
            rows,
            weights,
            v,
        );
    assert(is_aggregate(a, scores, weights, Ok(o.judging.aggregate->0)));
    let n = o.judging.n_eff->0;
    assert(is_trusted_or_not(
        a,
        grader.thresholds,
        panel,
        o.judging.aggregate->0,
        o.judging.agreement->0,
        n,
        v,
    ));
    let (judges, ratio) = choose|judges: Double, ratio: Double|
        #[trigger] is_count(a, decisive(panel).len() as usize, judges) && #[trigger] is_over(
            a,
            n,
            judges,
            ratio,
        ) && o.decision == grader.thresholds.consensus_decision(o.judging.aggregate->0, n, ratio);
    assert(is_count(a, places.len() as usize, judges) && is_over(a, n, judges, ratio));
}

/// Where no judge could decide, the candidate is rejected, and nothing is kept that could be held
/// against other thresholds.
pub proof fn a_panel_that_cannot_decide_rejects<A: Arithmetic + ?Sized>(
    a: &A,
    grader: HybridGrader,
    verifier: Option<VerifierGradeView>,
    panel: Seq<GradeView>,
    ratings: Seq<RatingRecord>,
    area: Option<Seq<char>>,
    rows: Seq<Seq<Double>>,
    r: Result<GradeOutcomeView, JudgeErrorView>,
)
    requires
        0 < panel.len() <= usize::MAX,
        rows.len() == panel.len(),
        verifier is Some ==> verifier->0.verification.all_passed
            && verifier->0.verification.needs_review is None,
        forall|i: int| 0 <= i < panel.len() ==> (#[trigger] panel[i]).verdict == Verdict::Uncertain,
        is_outcome(a, grader, verifier, panel, ratings, area, rows, r),
    ensures
        r matches Ok(o) && o.decision == (Decision::Reject { reason: DecisionReason::ConservativeTie })
            && o.judging.aggregate is None && o.judging.n_eff is None && o.judging.verdict == Some(
            SchemaVerdict::Reject,
        ),
{
    lemma_decisive_are_those(panel);
    if decisive(panel).len() > 0 {
        assert(decisive(panel)[0] < panel.len());
    }
}

/// Every outcome keeps what it was made of: one vote for each grade, in order and with its figures, the
/// threshold that was in force, what the deterministic rail found, and the verdict and its reason.
pub proof fn an_outcome_keeps_what_it_was_made_of<A: Arithmetic + ?Sized>(
    a: &A,
    grader: HybridGrader,
    verifier: Option<VerifierGradeView>,
    panel: Seq<GradeView>,
    ratings: Seq<RatingRecord>,
    area: Option<Seq<char>>,
    rows: Seq<Seq<Double>>,
    o: GradeOutcomeView,
)
    requires
        is_outcome(a, grader, verifier, panel, ratings, area, rows, Ok(o)),
    ensures
        o.judging.panel.len() == panel.len(),
        forall|i: int|
            0 <= i < panel.len() ==> {
                let vote = #[trigger] o.judging.panel[i];
                &&& vote.judge_model == panel[i].judge_model
                &&& vote.score == panel[i].score
                &&& vote.rubric_id == panel[i].rubric_id
                &&& vote.temperature == Some(panel[i].temperature)
                &&& vote.top_p == panel[i].top_p
                &&& vote.seed == panel[i].seed
                &&& vote.dimensions == panel[i].dimensions
                &&& vote.rationale == panel[i].rationale
                &&& vote.raw_response == Some(compact_text(packed(panel[i].raw)))
            },
        o.judging.threshold_at_decision == Some(grader.thresholds.accept_threshold),
        o.verification == (match verifier {
            Some(g) => g.verification,
            None => VerificationView { checks: Seq::empty(), all_passed: false, needs_review: None },
        }),
        match o.decision {
            Decision::Accept { reason } => o.judging.verdict == Some(SchemaVerdict::Admit)
                && o.judging.verdict_reason == Some(reason.token()),
            Decision::Reject { reason } => o.judging.verdict == Some(SchemaVerdict::Reject)
                && o.judging.verdict_reason == Some(reason.token()),
            Decision::Escalate { to, reason } => o.judging.verdict == Some(
                SchemaVerdict::NeedsReview,
            ) && o.judging.verdict_reason == Some(reason.token()),
            Decision::Revise { reason } => o.judging.verdict is None && o.judging.verdict_reason
                == Some(reason.token()),
        },
{
}

/// When grading fails, and when it does not: where neither check settled the matter, an empty panel and
/// a matrix that is not of its size are errors; a check that settled it leaves no room for one.
pub proof fn a_settled_candidate_needs_no_panel<A: Arithmetic + ?Sized>(
    a: &A,
    grader: HybridGrader,
    verifier: Option<VerifierGradeView>,
    panel: Seq<GradeView>,
    ratings: Seq<RatingRecord>,
    area: Option<Seq<char>>,
    rows: Seq<Seq<Double>>,
    r: Result<GradeOutcomeView, JudgeErrorView>,
)
    requires
        is_outcome(a, grader, verifier, panel, ratings, area, rows, r),
    ensures
        ({
            let settles = verifier is Some && (!verifier->0.verification.all_passed
                || verifier->0.verification.needs_review is Some);
            &&& settles ==> r is Ok
            &&& !settles && panel.len() == 0 ==> (r matches Err(JudgeErrorView::EmptyPanel(_)))
            &&& !settles && panel.len() > 0 && rows.len() != panel.len() ==> (r matches Err(
                JudgeErrorView::Invariant(_),
            ))
        }),
        verifier is Some && verifier->0.verification.all_passed
            && verifier->0.verification.needs_review is Some ==> (r matches Ok(o) && o.decision
            == (Decision::Escalate {
            to: EscalateTo::Verifier,
            reason: DecisionReason::VerifierUndecided,
        })),
        verifier is Some && !verifier->0.verification.all_passed ==> (r matches Ok(o) && o.decision
            == (Decision::Reject { reason: DecisionReason::VerifierReject })),
{
}

/// What is decided again is what the kept figures say under the thresholds given: a panel worth too
/// little is escalated, otherwise the kept aggregate is held against the bands.
pub proof fn a_kept_aggregate_is_banded_anew<A: Arithmetic + ?Sized>(
    a: &A,
    j: JudgingView,
    t: AreaThresholds,
    r: Result<Decision, JudgeErrorView>,
)
    requires
        is_rederived(a, j, t, r),
        j.aggregate is Some,
        j.panel.len() <= usize::MAX,
    ensures
        r is Ok,
        ({
            let x = j.aggregate->0;
            let banded = {
                &&& x.at_least(t.accept_threshold) ==> r->Ok_0 == (Decision::Accept {
                    reason: DecisionReason::AboveThreshold,
                })
                &&& !x.at_least(t.accept_threshold) && x.below(t.reject_below) ==> r->Ok_0
                    == (Decision::Reject { reason: DecisionReason::BelowThreshold })
                &&& !x.at_least(t.accept_threshold) && !x.below(t.reject_below) ==> r->Ok_0
                    == (Decision::Revise { reason: DecisionReason::ReviseBand })
            };
            match j.n_eff {
                None => banded,
                Some(n) => exists|k: usize, judges: Double, ratio: Double|
                    #[trigger] is_count(a, k, judges) && #[trigger] is_over(a, n, judges, ratio) && k
                        > 0 && (j.decisive is Some && j.decisive->0 > 0 ==> k == j.decisive->0) && (
                    j.decisive is None && j.panel.len() > 0 ==> k == j.panel.len()) && (if ratio.below(
                        t.min_n_eff_ratio,
                    ) || n.below(t.min_n_eff) {
                        r->Ok_0 == (Decision::Escalate {
                            to: EscalateTo::Human,
                            reason: DecisionReason::CorrelatedJudges,
                        })
                    } else {
                        banded
                    }),
            }
        }),
{
}

/// In a consensus a judge with a better track record never counts less than one with a worse: of two
/// judges that could decide and that the given ratings tell of, neither score of the first being worse
/// than the other's, the first weighs no less in the aggregate that is kept, where the caller's arithmetic
/// keeps order; a weight that is no number is neither more nor less.
pub proof fn a_better_judge_counts_no_less_in_a_consensus<A: Arithmetic + ?Sized>(
    a: &A,
    grader: HybridGrader,
    verifier: Option<VerifierGradeView>,
    panel: Seq<GradeView>,
    ratings: Seq<RatingRecord>,
    area: Option<Seq<char>>,
    rows: Seq<Seq<Double>>,
    o: GradeOutcomeView,
    places: Seq<usize>,
    i: int,
    j: int,
    s: int,
    t: int,
)
    requires
        keeps_order(a),
        orderly_sums(a),
        orderly_products(a),
        fair(grader.calibration.beta),
        fair(grader.calibration.gamma),
        panel.len() <= usize::MAX,
        is_outcome(a, grader, verifier, panel, ratings, area, rows, Ok(o)),
        o.judging.aggregate is Some,
        could_decide(panel, places),
        0 <= i < places.len(),
        0 <= j < places.len(),
        0 <= s < ratings.len(),
        0 <= t < ratings.len(),
        rating_at(ratings, panel[places[i] as int].judge_model, area) == Some(s),
        rating_at(ratings, panel[places[j] as int].judge_model, area) == Some(t),
        usable(ratings[s]),
        usable(ratings[t]),
        fair(or_nought(ratings[s].mean_brier)),
        fair(or_nought(ratings[t].mean_brier)),
        fair(or_nought(ratings[s].mean_log_score)),
        fair(or_nought(ratings[t].mean_log_score)),
        or_nought(ratings[t].mean_brier).at_least(or_nought(ratings[s].mean_brier)),
        or_nought(ratings[t].mean_log_score).at_least(or_nought(ratings[s].mean_log_score)),
    ensures
        exists|scores: Seq<Double>, weights: Seq<Double>|
            #[trigger] is_aggregate(a, scores, weights, Ok(o.judging.aggregate->0)) && scores.len()
                == places.len() && (forall|p: int|
                0 <= p < places.len() ==> #[trigger] scores[p] == panel[places[p] as int].score) && (
            weights[i].nan() || weights[j].nan() || weights[i].at_least(weights[j])),
{
    let slugs = Seq::new(places.len(), |p: int| panel[places[p] as int].judge_model);
    let scores = Seq::new(places.len(), |p: int| panel[places[p] as int].score);
    let between = Seq::new(
        places.len(),
        |p: int| Seq::new(places.len(), |q: int| rows[places[p] as int][places[q] as int]),
    );
    the_consensus_is_weighed_by_track_records(
        a,
        grader,
        verifier,
        panel,
        ratings,
        area,
        rows,
        o,
        places,
        slugs,
        scores,
        between,
    );
    let weights = choose|weights: Seq<Double>|
        are_weights(a, slugs, ratings, area, grader.calibration, weights) && #[trigger] is_aggregate(
            a,
            scores,
            weights,
            Ok(o.judging.aggregate->0),
        ) && is_effective_n(a, weights, between, Ok(o.judging.n_eff->0));
    a_better_record_never_weighs_less(
        a,
        slugs,
        ratings,
        area,
        grader.calibration,
        weights,
        i,
        j,
        s,
        t,
    );
}

/// A panel decides unless its figures cannot be worked out: grading fails, where no check settled the
/// matter and a panel of the matrix's size is there, only where the aggregate, the agreement or the worth
/// of the judges that could decide does.
pub proof fn grading_fails_only_with_its_figures<A: Arithmetic + ?Sized>(
    a: &A,
    grader: HybridGrader,
    verifier: Option<VerifierGradeView>,
    panel: Seq<GradeView>,
    ratings: Seq<RatingRecord>,
    area: Option<Seq<char>>,
    rows: Seq<Seq<Double>>,
    e: JudgeErrorView,
    places: Seq<usize>,
    slugs: Seq<Seq<char>>,
    scores: Seq<Double>,
    between: Seq<Seq<Double>>,
)
    requires
        0 < panel.len() <= usize::MAX,
        rows.len() == panel.len(),
        is_outcome(a, grader, verifier, panel, ratings, area, rows, Err(e)),
        could_decide(panel, places),
        slugs.len() == places.len(),
        scores.len() == places.len(),
        between.len() == places.len(),
        forall|p: int|
            0 <= p < places.len() ==> #[trigger] slugs[p] == panel[places[p] as int].judge_model,
        forall|p: int|
            0 <= p < places.len() ==> #[trigger] scores[p] == panel[places[p] as int].score,
        forall|p: int| 0 <= p < places.len() ==> (#[trigger] between[p]).len() == places.len(),
        forall|p: int, q: int|
            0 <= p < places.len() && 0 <= q < places.len() ==> #[trigger] between[p][q]
                == rows[places[p] as int][places[q] as int],
    ensures
        places.len() > 0,
        exists|weights: Seq<Double>|
            #[trigger] are_weights(a, slugs, ratings, area, grader.calibration, weights) && (is_aggregate(
                a,
                scores,
                weights,
                Err(e),
            ) || is_agreement(a, scores, Err(e)) || is_effective_n(a, weights, between, Err(e))),
{
    lemma_decisive_are_those(panel);
    lemma_places_are_told_one_way(panel, places, decisive(panel));
    assert(slugs_at(panel, places) =~= slugs);
    assert(scores_at(panel, places) =~= scores);
    lemma_all_in_range(places, rows.len());
    assert(picked(rows, places) =~~= between);
    let v = Err::<(Decision, JudgingView), JudgeErrorView>(e);
    assert(is_decided(a, grader, panel, ratings, area, rows, v));
    let weights = choose|weights: Seq<Double>|
        #[trigger] are_weights(a, slugs, ratings, area, grader.calibration, weights) && is_weighed(
            a,
            grader.thresholds,
            panel,
            rows,
            weights,
            v,
        );
    assert(are_weights(a, slugs, ratings, area, grader.calibration, weights));
}

} // verus!
