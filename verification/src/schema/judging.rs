//! Judge votes, the judging block of a record, and the reputations of models.

use vstd::prelude::*;

use crate::double::Double;

verus! {

/// The verdict that a record keeps.
#[derive(Debug, Clone, Copy, PartialEq, Eq, Structural)]
pub enum Verdict {
    /// The record is admitted.
    Admit,
    /// The record is rejected.
    Reject,
    /// The record waits for a decision.
    NeedsReview,
}

/// The vote of one judge.
#[derive(Debug, PartialEq)]
pub struct JudgeVote {
    /// The judge's model.
    pub judge_model: String,
    /// The rubric applied.
    pub rubric_id: Option<String>,
    /// The sampling temperature used.
    pub temperature: Option<Double>,
    /// The nucleus used.
    pub top_p: Option<Double>,
    /// The seed used.
    pub seed: Option<i64>,
    /// The score.
    pub score: Double,
    /// The scores by criterion, ordered by criterion.
    pub dimensions: Option<Vec<(String, Double)>>,
    /// The judge's words.
    pub rationale: Option<String>,
    /// The judge's reply as it came.
    pub raw_response: Option<String>,
}

/// What a vote is, as mathematics.
#[verifier::ext_equal]
pub struct JudgeVoteView {
    pub judge_model: Seq<char>,
    pub rubric_id: Option<Seq<char>>,
    pub temperature: Option<Double>,
    pub top_p: Option<Double>,
    pub seed: Option<i64>,
    pub score: Double,
    pub dimensions: Option<Seq<(Seq<char>, Double)>>,
    pub rationale: Option<Seq<char>>,
    pub raw_response: Option<Seq<char>>,
}

impl DeepView for JudgeVote {
    type V = JudgeVoteView;

    open spec fn deep_view(&self) -> JudgeVoteView {
        JudgeVoteView {
            judge_model: self.judge_model@,
            rubric_id: self.rubric_id.deep_view(),
            temperature: self.temperature,
            top_p: self.top_p,
            seed: self.seed,
            score: self.score,
            dimensions: dimensions_view(self.dimensions),
            rationale: self.rationale.deep_view(),
            raw_response: self.raw_response.deep_view(),
        }
    }
}

/// Scores by criterion, as mathematics.
pub open spec fn scores_view(scores: Seq<(String, Double)>) -> Seq<(Seq<char>, Double)> {
    Seq::new(scores.len(), |i: int| (scores[i].0@, scores[i].1))
}

/// Optional scores by criterion, as mathematics.
pub open spec fn dimensions_view(d: Option<Vec<(String, Double)>>) -> Option<
    Seq<(Seq<char>, Double)>,
> {
    match d {
        Some(v) => Some(scores_view(v@)),
        None => None,
    }
}

/// A copy of the scores by criterion.
pub fn clone_dimensions(d: &Option<Vec<(String, Double)>>) -> (r: Option<Vec<(String, Double)>>)
    ensures
        dimensions_view(r) == dimensions_view(*d),
{
    match d {
        None => None,
        Some(v) => {
            let mut out: Vec<(String, Double)> = Vec::new();
            let mut i: usize = 0;
            while i < v.len()
                invariant
                    i <= v@.len(),
                    scores_view(out@) == scores_view(v@.take(i as int)),
                decreases v@.len() - i,
            {
                out.push((v[i].0.clone(), v[i].1));
                proof {
                    let a = scores_view(v@.take(i as int));
                    assert(scores_view(v@.take(i + 1)) =~= a.push((v@[i as int].0@, v@[i as int].1)));
                    assert(scores_view(out@) =~= a.push((v@[i as int].0@, v@[i as int].1)));
                }
                i += 1;
            }
            assert(v@.take(i as int) =~= v@);
            Some(out)
        },
    }
}

impl Clone for JudgeVote {
    fn clone(&self) -> (r: JudgeVote)
        ensures
            r.deep_view() == self.deep_view(),
    {
        JudgeVote {
            judge_model: self.judge_model.clone(),
            rubric_id: self.rubric_id.clone(),
            temperature: self.temperature,
            top_p: self.top_p,
            seed: self.seed,
            score: self.score,
            dimensions: clone_dimensions(&self.dimensions),
            rationale: self.rationale.clone(),
            raw_response: self.raw_response.clone(),
        }
    }
}

/// What the judges decided about a record, and on what grounds.
#[derive(Debug, Clone, PartialEq)]
pub struct Judging {
    /// The votes.
    pub panel: Vec<JudgeVote>,
    /// The weighted consensus.
    pub aggregate: Option<Double>,
    /// How close the scores lie together.
    pub agreement: Option<Double>,
    /// The effective number of independent judges.
    pub n_eff: Option<Double>,
    /// The number of judges that could decide, where a consensus was formed of them.
    pub decisive: Option<usize>,
    /// The verdict, where one was reached.
    pub verdict: Option<Verdict>,
    /// Why.
    pub verdict_reason: Option<String>,
    /// The accept threshold in force.
    pub threshold_at_decision: Option<Double>,
}

/// What a judging block is, as mathematics.
#[verifier::ext_equal]
pub struct JudgingView {
    pub panel: Seq<JudgeVoteView>,
    pub aggregate: Option<Double>,
    pub agreement: Option<Double>,
    pub n_eff: Option<Double>,
    pub decisive: Option<usize>,
    pub verdict: Option<Verdict>,
    pub verdict_reason: Option<Seq<char>>,
    pub threshold_at_decision: Option<Double>,
}

/// The judging block of a record that was not judged.
pub open spec fn no_judging() -> JudgingView {
    JudgingView {
        panel: Seq::empty(),
        aggregate: None,
        agreement: None,
        n_eff: None,
        decisive: None,
        verdict: None,
        verdict_reason: None,
        threshold_at_decision: None,
    }
}

impl DeepView for Judging {
    type V = JudgingView;

    open spec fn deep_view(&self) -> JudgingView {
        JudgingView {
            panel: self.panel.deep_view(),
            aggregate: self.aggregate,
            agreement: self.agreement,
            n_eff: self.n_eff,
            decisive: self.decisive,
            verdict: self.verdict,
            verdict_reason: self.verdict_reason.deep_view(),
            threshold_at_decision: self.threshold_at_decision,
        }
    }
}

impl Default for Judging {
    fn default() -> (r: Judging)
        ensures
            r.deep_view() == no_judging(),
    {
        let r = Judging {
            panel: Vec::new(),
            aggregate: None,
            agreement: None,
            n_eff: None,
            decisive: None,
            verdict: None,
            verdict_reason: None,
            threshold_at_decision: None,
        };
        assert(r.panel.deep_view() =~= Seq::empty());
        r
    }
}

/// Whose reputation a rating records.
#[derive(Debug, Clone, Copy, PartialEq, Eq, Structural)]
pub enum RatingSubject {
    /// A judge's.
    Judge,
    /// A teacher's.
    Teacher,
}

/// The reputation of one model.
#[derive(Debug, Clone, PartialEq)]
pub struct RatingRecord {
    /// Whose reputation it is.
    pub subject: RatingSubject,
    /// The model.
    pub model_slug: String,
    /// The area that the rating is for; none where it is global.
    pub training_area: Option<String>,
    /// The rating.
    pub glicko_r: Double,
    /// Its deviation.
    pub glicko_rd: Double,
    /// Its volatility.
    pub glicko_sigma: Double,
    /// The mean Brier score.
    pub mean_brier: Option<Double>,
    /// The mean logarithmic score.
    pub mean_log_score: Option<Double>,
    /// How often the rating was updated.
    pub n_updates: u64,
}

} // verus!
