//! Consensus of a panel of judges, and how much each of them weighs.

use ghostwriter::arithmetic::Arithmetic;
use ghostwriter::double::Double;
use ghostwriter::judge::calibration::{
    calibration_weights, find_judge_rating, rating_is_usable, uniform_weights, CalibrationParams,
    DEFAULT_BETA, DEFAULT_GAMMA,
};
use ghostwriter::judge::consensus::{
    agreement, effective_n, kish_effective_n, weighted_aggregate, CorrelationMatrix,
};
use ghostwriter::judge::error::JudgeError;
use ghostwriter::schema::judging::{RatingRecord, RatingSubject};

/// The arithmetic of the machine.
struct Floats;

fn d(x: f64) -> Double {
    Double { bits: x.to_bits() }
}

fn f(x: Double) -> f64 {
    f64::from_bits(x.bits)
}

impl Arithmetic for Floats {
    fn plus(&self, a: Double, b: Double) -> Double {
        d(f(a) + f(b))
    }
    fn minus(&self, a: Double, b: Double) -> Double {
        d(f(a) - f(b))
    }
    fn times(&self, a: Double, b: Double) -> Double {
        d(f(a) * f(b))
    }
    fn over(&self, a: Double, b: Double) -> Double {
        d(f(a) / f(b))
    }
    fn exp(&self, a: Double) -> Double {
        d(f(a).exp())
    }
    fn sqrt(&self, a: Double) -> Double {
        d(f(a).sqrt())
    }
    fn count(&self, n: usize) -> Double {
        d(n as f64)
    }
    fn parse(&self, text: &str) -> Option<Double> {
        text.parse().ok().map(d)
    }
    fn show(&self, a: Double) -> String {
        f(a).to_string()
    }
}

fn ds(xs: &[f64]) -> Vec<Double> {
    xs.iter().map(|x| d(*x)).collect()
}

fn n_eff_of(w: &[f64], r: &CorrelationMatrix) -> Result<f64, JudgeError> {
    effective_n(&ds(w), r, &Floats).map(f)
}

fn kish_of(w: &[f64]) -> Result<f64, JudgeError> {
    kish_effective_n(&ds(w), &Floats).map(f)
}

fn aggregate_of(scores: &[f64], weights: &[f64]) -> Result<f64, JudgeError> {
    weighted_aggregate(&ds(scores), &ds(weights), &Floats).map(f)
}

fn agreement_of(scores: &[f64]) -> Result<f64, JudgeError> {
    agreement(&ds(scores), &Floats).map(f)
}

fn rows(rs: &[&[f64]]) -> Result<CorrelationMatrix, JudgeError> {
    CorrelationMatrix::from_rows(rs.iter().map(|r| ds(r)).collect())
}

#[test]
fn neff_equals_k_for_independent_equal_weight() {
    for k in [2usize, 3, 4, 6] {
        let w = vec![1.0; k];
        let r = CorrelationMatrix::identity(k);
        let n_eff = n_eff_of(&w, &r).unwrap();
        assert!(
            (n_eff - k as f64).abs() < 1e-9,
            "independent equal-weight panel of {k} must give n_eff={k}, got {n_eff}"
        );
    }
}

#[test]
fn neff_collapses_to_one_for_perfectly_correlated() {
    for k in [2usize, 3, 4, 6] {
        let w = vec![1.0; k];
        let r = CorrelationMatrix::uniform_offdiagonal(k, d(1.0));
        let n_eff = n_eff_of(&w, &r).unwrap();
        assert!(
            (n_eff - 1.0).abs() < 1e-9,
            "perfectly-correlated equal-weight panel of {k} must collapse to one, got {n_eff}"
        );
        // The count that ignores correlation would have reported k.
        let kish = kish_of(&w).unwrap();
        assert!((kish - k as f64).abs() < 1e-9);
    }
}

#[test]
fn neff_never_exceeds_k_even_with_negative_offdiagonal() {
    let k = 4;
    let w = vec![1.0, 0.5, 2.0, 0.25];
    let r = CorrelationMatrix::uniform_offdiagonal(k, d(-0.9));
    let n_eff = n_eff_of(&w, &r).unwrap();
    assert!(
        n_eff <= k as f64 + 1e-9,
        "n_eff must be at most k even with negative off-diagonals; got {n_eff}"
    );
    let kish = kish_of(&w).unwrap();
    assert!((n_eff - kish).abs() < 1e-9);
}

#[test]
fn neff_partial_correlation_is_between_one_and_k() {
    let k = 4;
    let w = vec![1.0; k];
    let r = CorrelationMatrix::uniform_offdiagonal(k, d(0.5));
    let n_eff = n_eff_of(&w, &r).unwrap();
    assert!(n_eff > 1.0 && n_eff < k as f64, "got {n_eff}");
    // (4)^2 / (4 + 12 * 0.5)
    assert_eq!(n_eff, 1.6);
}

#[test]
fn weighted_aggregate_is_not_a_plain_mean() {
    let scores = vec![0.2, 0.9];
    let weights = vec![3.0, 1.0];
    let agg = aggregate_of(&scores, &weights).unwrap();
    let plain_mean = (0.2 + 0.9) / 2.0;
    assert!((agg - 0.375).abs() < 1e-9, "got {agg}");
    assert!(
        (agg - plain_mean).abs() > 0.1,
        "weighted aggregate {agg} must differ from the plain mean {plain_mean}"
    );
}

#[test]
fn weighted_aggregate_equals_mean_only_when_weights_equal() {
    let scores = vec![0.2, 0.9, 0.5];
    let weights = vec![1.0, 1.0, 1.0];
    let agg = aggregate_of(&scores, &weights).unwrap();
    let mean = scores.iter().sum::<f64>() / 3.0;
    assert!((agg - mean).abs() < 1e-12);
}

#[test]
fn weighted_aggregate_rejects_negative_weight_and_clamps_output() {
    assert!(matches!(
        aggregate_of(&[0.5, 0.5], &[1.0, -0.5]),
        Err(JudgeError::Invariant(_))
    ));
    let agg = aggregate_of(&[2.0, 2.0], &[1.0, 1.0]).unwrap();
    assert!((agg - 1.0).abs() < 1e-12);
    let r = CorrelationMatrix::identity(2);
    assert!(matches!(
        n_eff_of(&[1.0, -0.5], &r),
        Err(JudgeError::Invariant(_))
    ));
}

#[test]
fn empty_panel_is_an_error_not_nan() {
    assert!(matches!(
        n_eff_of(&[], &CorrelationMatrix::identity(0)),
        Err(JudgeError::EmptyPanel(_))
    ));
    assert!(matches!(
        aggregate_of(&[], &[]),
        Err(JudgeError::EmptyPanel(_))
    ));
    assert!(matches!(agreement_of(&[]), Err(JudgeError::EmptyPanel(_))));
}

#[test]
fn mismatched_lengths_are_rejected() {
    let r = CorrelationMatrix::identity(3);
    assert!(matches!(n_eff_of(&[1.0, 1.0], &r), Err(JudgeError::Invariant(_))));
    assert!(matches!(
        aggregate_of(&[0.5, 0.5, 0.5], &[1.0, 1.0]),
        Err(JudgeError::Invariant(_))
    ));
}

#[test]
fn non_square_correlation_matrix_is_rejected() {
    assert!(matches!(
        rows(&[&[1.0, 0.0], &[0.0]]),
        Err(JudgeError::Invariant(_))
    ));
}

#[test]
fn weight_concentration_alone_deflates_neff_below_k() {
    let w = vec![10.0, 1.0, 1.0, 1.0];
    let r = CorrelationMatrix::identity(4);
    let n_eff = n_eff_of(&w, &r).unwrap();
    assert!(n_eff < 4.0 && n_eff > 1.0, "got {n_eff}");
    assert!((n_eff - kish_of(&w).unwrap()).abs() < 1e-12);
}

#[test]
fn correlation_and_concentration_compound() {
    let w = vec![5.0, 1.0, 1.0, 1.0];
    let independent = n_eff_of(&w, &CorrelationMatrix::identity(4)).unwrap();
    let correlated =
        n_eff_of(&w, &CorrelationMatrix::uniform_offdiagonal(4, d(0.5))).unwrap();
    assert!(
        correlated < independent,
        "adding correlation must further deflate n_eff: {correlated} !< {independent}"
    );
}

#[test]
fn agreement_is_one_when_all_scores_equal() {
    assert!((agreement_of(&[0.7, 0.7, 0.7]).unwrap() - 1.0).abs() < 1e-12);
}

#[test]
fn agreement_drops_with_spread() {
    let tight = agreement_of(&[0.5, 0.55, 0.45]).unwrap();
    let wide = agreement_of(&[0.0, 1.0, 0.5]).unwrap();
    assert!(wide < tight);
}

#[test]
fn non_finite_weight_is_rejected() {
    let r = CorrelationMatrix::identity(2);
    assert!(matches!(
        n_eff_of(&[1.0, f64::NAN], &r),
        Err(JudgeError::Invariant(_))
    ));
    assert!(matches!(
        n_eff_of(&[1.0, -1.0], &r),
        Err(JudgeError::Invariant(_))
    ));
}

#[test]
fn is_identity_detects_identity_and_non_identity() {
    assert!(CorrelationMatrix::identity(3).is_identity(&Floats));
    assert!(CorrelationMatrix::identity(1).is_identity(&Floats));
    assert!(!CorrelationMatrix::uniform_offdiagonal(3, d(0.5)).is_identity(&Floats));
    assert!(!CorrelationMatrix::uniform_offdiagonal(2, d(1.0)).is_identity(&Floats));
    // No panel, nothing to guard.
    assert!(!CorrelationMatrix::identity(0).is_identity(&Floats));
}

#[test]
fn submatrix_extracts_principal_block_and_preserves_neff() {
    let r = rows(&[&[1.0, 0.8, 0.0], &[0.8, 1.0, 0.8], &[0.0, 0.8, 1.0]]).unwrap();
    let sub = r.submatrix(&[0, 2]);
    assert_eq!(sub.dim(), 2);
    assert!(sub.is_identity(&Floats), "rows 0 and 2 are mutually independent");
    let n = n_eff_of(&[1.0, 1.0], &sub).unwrap();
    assert!((n - 2.0).abs() < 1e-9);
}

#[test]
fn submatrix_skips_out_of_range_indices() {
    let r = CorrelationMatrix::identity(2);
    let sub = r.submatrix(&[0, 5]);
    assert_eq!(sub.dim(), 1);
}

#[test]
fn refused_weights_are_named() {
    let r = CorrelationMatrix::identity(2);
    let Err(JudgeError::Invariant(m)) = n_eff_of(&[1.0, -0.5], &r) else {
        panic!("expected an invariant error");
    };
    assert!(m.contains("-0.5"), "got {m}");
    // Weights that are all zero leave nothing to count.
    assert!(matches!(n_eff_of(&[0.0, 0.0], &r), Err(JudgeError::Invariant(_))));
    assert!(matches!(
        aggregate_of(&[0.5, 0.5], &[0.0, 0.0]),
        Err(JudgeError::Invariant(_))
    ));
    assert!(matches!(
        aggregate_of(&[f64::INFINITY, 0.5], &[1.0, 1.0]),
        Err(JudgeError::Invariant(_))
    ));
}

#[test]
fn agreement_is_one_minus_the_variance() {
    assert_eq!(agreement_of(&[0.0, 1.0]).unwrap(), 0.75);
    assert_eq!(agreement_of(&[0.25, 0.75]).unwrap(), 0.9375);
    // Scores far apart agree not at all.
    assert_eq!(agreement_of(&[0.0, 4.0]).unwrap(), 0.0);
}

fn judge_rating(
    slug: &str,
    area: Option<&str>,
    brier: Option<f64>,
    logsc: Option<f64>,
    n: u64,
) -> RatingRecord {
    RatingRecord {
        subject: RatingSubject::Judge,
        model_slug: slug.to_string(),
        training_area: area.map(str::to_string),
        glicko_r: d(1500.0),
        glicko_rd: d(350.0),
        glicko_sigma: d(0.06),
        mean_brier: brier.map(d),
        mean_log_score: logsc.map(d),
        n_updates: n,
    }
}

fn names(slugs: &[&str]) -> Vec<String> {
    slugs.iter().map(|s| s.to_string()).collect()
}

fn weights_of(slugs: &[&str], ratings: &[RatingRecord], area: Option<&str>) -> Vec<f64> {
    calibration_weights(
        &names(slugs),
        ratings,
        area,
        CalibrationParams::default(),
        &Floats,
    )
    .into_iter()
    .map(f)
    .collect()
}

#[test]
fn uniform_when_no_ratings_exist() {
    let w = weights_of(&["a", "b", "c"], &[], None);
    assert_eq!(w.len(), 3);
    for wi in &w {
        assert!((wi - 1.0 / 3.0).abs() < 1e-12);
    }
}

#[test]
fn cold_panel_returns_documented_uniform_default() {
    let ratings = vec![
        judge_rating("a", None, None, None, 0),
        judge_rating("b", None, Some(0.1), Some(0.2), 0),
    ];
    let w = weights_of(&["a", "b"], &ratings, None);
    assert!((w[0] - 0.5).abs() < 1e-12);
    assert!((w[1] - 0.5).abs() < 1e-12);
}

#[test]
fn better_calibrated_judge_weighs_more() {
    let ratings = vec![
        judge_rating("good", None, Some(0.05), Some(0.1), 50),
        judge_rating("bad", None, Some(0.45), Some(0.9), 50),
    ];
    let w = weights_of(&["good", "bad"], &ratings, None);
    assert!(
        w[0] > w[1],
        "low-Brier judge must out-weigh high-Brier: {w:?}"
    );
    assert!((w.iter().sum::<f64>() - 1.0).abs() < 1e-12);
}

#[test]
fn area_scoped_rating_preferred_over_global() {
    let ratings = vec![
        judge_rating("j", None, Some(0.4), Some(0.4), 10),
        judge_rating("j", Some("math_cot"), Some(0.02), Some(0.02), 10),
        judge_rating("k", Some("math_cot"), Some(0.4), Some(0.4), 10),
    ];
    let w = weights_of(&["j", "k"], &ratings, Some("math_cot"));
    assert!(w[0] > w[1], "area-scoped good rating must dominate: {w:?}");
}

#[test]
fn just_seeded_area_row_does_not_shadow_proven_global() {
    let ratings = vec![
        judge_rating("j", None, Some(0.03), Some(0.03), 200),
        judge_rating("j", Some("math_cot"), None, None, 0),
        judge_rating("k", Some("math_cot"), Some(0.45), Some(0.9), 50),
    ];
    let w = weights_of(&["j", "k"], &ratings, Some("math_cot"));
    assert!(
        w[0] > w[1],
        "proven global rating must survive an unusable area row: {w:?}"
    );
    let found = find_judge_rating(&ratings, "j", Some("math_cot")).unwrap();
    assert_eq!(found.n_updates, 200);
    assert_eq!(found.training_area, None);
}

#[test]
fn cold_judge_gets_neutral_prior_not_dominance() {
    let ratings = vec![judge_rating("proven", None, Some(0.2), Some(0.3), 30)];
    let w = weights_of(&["proven", "cold"], &ratings, None);
    assert!(
        (w[0] - w[1]).abs() < 1e-9,
        "cold judge must not dominate: {w:?}"
    );
}

#[test]
fn weights_are_strictly_positive_and_normalized() {
    let ratings = vec![
        judge_rating("a", None, Some(0.01), Some(0.01), 5),
        judge_rating("b", None, Some(0.5), Some(1.5), 5),
        judge_rating("c", None, Some(0.25), Some(0.5), 5),
    ];
    let w = weights_of(&["a", "b", "c"], &ratings, None);
    assert!(w.iter().all(|x| *x > 0.0));
    assert!((w.iter().sum::<f64>() - 1.0).abs() < 1e-12);
}

#[test]
fn empty_slugs_gives_empty_weights() {
    assert!(weights_of(&[], &[], None).is_empty());
}

#[test]
fn teacher_ratings_are_ignored() {
    let teacher = RatingRecord {
        subject: RatingSubject::Teacher,
        ..judge_rating("j", None, Some(0.01), Some(0.01), 100)
    };
    let w = weights_of(&["j"], &[teacher], None);
    assert!((w[0] - 1.0).abs() < 1e-12);
}

#[test]
fn a_penalty_is_two_briers_and_a_log_score() {
    let ratings = vec![
        judge_rating("a", None, Some(0.1), Some(0.2), 5),
        judge_rating("b", None, Some(0.3), Some(0.6), 5),
    ];
    let w = weights_of(&["a", "b"], &ratings, None);
    // The penalties are 0.4 and 1.2.
    let ratio = w[1] / w[0];
    assert!((ratio - (-0.8f64).exp()).abs() < 1e-12, "got {ratio}");
    assert_eq!(uniform_weights(3), vec![d(1.0); 3]);
    assert_eq!(DEFAULT_BETA, 2.0f64.to_bits());
    assert_eq!(DEFAULT_GAMMA, 1.0f64.to_bits());
    assert!(rating_is_usable(&ratings[0]));
    assert!(!rating_is_usable(&judge_rating("a", None, None, None, 5)));
    assert!(!rating_is_usable(&judge_rating("a", None, Some(0.1), None, 0)));
}

#[test]
fn correlation_never_adds_votes() {
    let mut state = 0x2545_f491_4f6c_dd1du64;
    let mut next = || {
        state ^= state << 13;
        state ^= state >> 7;
        state ^= state << 17;
        (state >> 11) as f64 / (1u64 << 53) as f64
    };
    for k in [1usize, 2, 3, 5, 8] {
        for _ in 0..50 {
            let w: Vec<f64> = (0..k).map(|_| next()).collect();
            let m: Vec<Vec<Double>> = (0..k)
                .map(|_| (0..k).map(|_| d(2.0 * next() - 1.0)).collect())
                .collect();
            let r = CorrelationMatrix::from_rows(m).unwrap();
            let n = n_eff_of(&w, &r).unwrap();
            let most = kish_of(&w).unwrap();
            assert!(0.0 < n && n <= most && most <= k as f64, "{n} {most} {k}");
        }
    }
}

#[test]
fn a_better_record_never_weighs_less() {
    let scores = [0.0, 0.1, 0.3, 0.3, 1.0, 700.0, 2000.0];
    for (i, a) in scores.iter().enumerate() {
        for b in &scores[i..] {
            let ratings = [
                judge_rating("good", None, Some(*a), Some(*b), 3),
                judge_rating("bad", None, Some(*b), Some(*b), 3),
                judge_rating("other", None, Some(0.2), None, 1),
            ];
            let w = weights_of(&["good", "bad", "other", "new"], &ratings, None);
            assert!(w[0] >= w[1], "{a} {b}: {w:?}");
        }
    }
    // One exact pair: the penalties differ by two.
    let ratings = [
        judge_rating("good", None, Some(0.0), Some(0.0), 1),
        judge_rating("bad", None, Some(1.0), Some(0.0), 1),
    ];
    let w = weights_of(&["good", "bad"], &ratings, None);
    let total = 1.0 + (-2.0f64).exp();
    assert_eq!(w, vec![1.0 / total, (-2.0f64).exp() / total]);
}
