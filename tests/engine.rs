use rusty::{rank, ranked_order, AcceleratorError, Candidate, Score};

fn score_of(v: f32) -> Score {
    Score::from_bits(v.to_bits())
}

fn candidate(id: &str, len: usize) -> Candidate {
    Candidate { id: id.to_string(), len }
}

#[test]
fn ordering_keeps_ties_in_input_order() {
    let scores = vec![0.9f32, -0.2, 0.9, 0.5];
    let candidates = vec![candidate("a", 4), candidate("b", 4), candidate("c", 4), candidate("d", 4)];
    let ranking = rank(4, &candidates, |i: usize| Ok(score_of(scores[i]))).unwrap();
    let ids: Vec<&str> = ranking.ranked.iter().map(|d| d.id.as_str()).collect();
    assert_eq!(ids, vec!["a", "c", "d", "b"]);
    let got: Vec<f32> = ranking.ranked.iter().map(|d| f32::from_bits(d.score.to_bits())).collect();
    assert_eq!(got, vec![0.9, 0.9, 0.5, -0.2]);
    assert!(ranking.rejected.is_empty());
}

#[test]
fn dimension_mismatch_is_per_item() {
    let candidates = vec![candidate("good", 4), candidate("long", 5), candidate("also_good", 4)];
    let ranking = rank(4, &candidates, |i: usize| {
        assert_ne!(i, 1, "a mismatched candidate must not be scored");
        Ok(score_of(if i == 0 { 0.25 } else { 0.75 }))
    })
    .unwrap();
    assert_eq!(ranking.rejected.len(), 1);
    assert_eq!(ranking.rejected[0].id, "long");
    assert_eq!(ranking.rejected[0].expected, 4);
    assert_eq!(ranking.rejected[0].found, 5);
    let ids: Vec<&str> = ranking.ranked.iter().map(|d| d.id.as_str()).collect();
    assert_eq!(ids, vec!["also_good", "good"]);
}

#[test]
fn nan_score_is_an_entry_not_an_error() {
    let candidates = vec![candidate("zero", 3), candidate("x", 3), candidate("y", 3)];
    let scores = vec![f32::NAN, -0.5, 0.1];
    let ranking = rank(3, &candidates, |i: usize| Ok(score_of(scores[i]))).unwrap();
    assert!(ranking.rejected.is_empty());
    let ids: Vec<&str> = ranking.ranked.iter().map(|d| d.id.as_str()).collect();
    assert_eq!(ids, vec!["y", "x", "zero"]);
    assert!(ranking.ranked[2].score.is_nan());
    assert!(f32::from_bits(ranking.ranked[2].score.to_bits()).is_nan());
}

#[test]
fn accelerator_error_fails_the_request() {
    let candidates = vec![candidate("a", 2), candidate("b", 2), candidate("c", 2)];
    let result = rank(2, &candidates, |i: usize| {
        if i == 1 {
            Err(AcceleratorError::LaunchFailed)
        } else {
            Ok(score_of(0.5))
        }
    });
    assert!(matches!(result, Err(AcceleratorError::LaunchFailed)));
}

#[test]
fn mismatch_is_not_scored_so_no_error_from_it() {
    let candidates = vec![candidate("short", 1), candidate("ok", 2)];
    let ranking = rank(2, &candidates, |i: usize| {
        if i == 0 {
            Err(AcceleratorError::TransferFailed)
        } else {
            Ok(score_of(1.0))
        }
    })
    .unwrap();
    assert_eq!(ranking.ranked.len(), 1);
    assert_eq!(ranking.ranked[0].id, "ok");
    assert_eq!(ranking.rejected[0].id, "short");
}

#[test]
fn empty_candidates_give_empty_ranking() {
    let ranking = rank(4, &Vec::new(), |_i: usize| Ok(score_of(0.0))).unwrap();
    assert!(ranking.ranked.is_empty());
    assert!(ranking.rejected.is_empty());
}

#[test]
fn ranked_order_of_mixed_scores() {
    let scores: Vec<Score> = vec![0.0f32, -0.0, f32::NEG_INFINITY, f32::INFINITY, f32::NAN, -1.0, 1.0]
        .into_iter()
        .map(score_of)
        .collect();
    // both zeros tie and keep their order; NaN after negative infinity
    assert_eq!(ranked_order(&scores), vec![3, 6, 0, 1, 5, 2, 4]);
}

#[test]
fn score_comparison_follows_values() {
    assert!(score_of(0.9).ranks_above(&score_of(0.5)));
    assert!(score_of(-0.2).ranks_above(&score_of(-0.5)));
    assert!(!score_of(0.0).ranks_above(&score_of(-0.0)));
    assert!(!score_of(-0.0).ranks_above(&score_of(0.0)));
    assert!(score_of(-1.0).ranks_above(&score_of(f32::NAN)));
    assert_eq!(score_of(1.0).key(), 0x3f80_0000);
    assert_eq!(score_of(-1.0).key(), -0x3f80_0000);
    assert!(!score_of(f32::INFINITY).is_nan());
    assert!(score_of(-f32::NAN).is_nan());
}
