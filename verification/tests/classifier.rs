use semantic_router::classifier::{Classifier, ClassifierError, Reading};
use semantic_router::score::Score;

fn score(x: f32) -> Score {
    Score::from_bits(x.to_bits())
}

fn number(s: Score) -> f32 {
    f32::from_bits(s.to_bits())
}

fn softmax(weights: &Vec<Vec<f32>>, bias: &Vec<f32>, embedding: &Vec<f32>) -> Vec<Reading> {
    let logits: Vec<f32> = weights
        .iter()
        .zip(bias)
        .map(|(w, b)| w.iter().zip(embedding).map(|(x, y)| x * y).sum::<f32>() + b)
        .collect();
    let max_logit = logits.iter().cloned().fold(f32::MIN, f32::max);
    let exp: Vec<f32> = logits.iter().map(|l| (l - max_logit).exp()).collect();
    let sum: f32 = exp.iter().sum();
    exp.iter().map(|e| Reading { exponential: score(*e), share: score(e / sum) }).collect()
}

fn labels(names: &[&str]) -> Vec<String> {
    names.iter().map(|n| n.to_string()).collect()
}

fn toy_classifier() -> Classifier<f32> {
    // "a" fires on [1, 0], "b" on [0, 1].
    match Classifier::from_parts(
        labels(&["a", "b"]),
        vec![vec![5.0, 0.0], vec![0.0, 5.0]],
        vec![0.0, 0.0],
    ) {
        Ok(classifier) => classifier,
        Err(_) => unreachable!(),
    }
}

#[test]
fn predicts_highest_scoring_label() {
    let clf = toy_classifier();
    let (label, prob) = clf.predict(&vec![1.0, 0.0], &softmax);
    assert_eq!(label, "a");
    let prob = number(prob);
    assert!(prob > 0.9, "expected high confidence, got {prob}");
}

#[test]
fn predicts_the_other_label() {
    let clf = toy_classifier();
    let (label, _) = clf.predict(&vec![0.0, 1.0], &softmax);
    assert_eq!(label, "b");
}

#[test]
fn ambiguous_input_gives_lower_confidence() {
    let clf = toy_classifier();
    let (_, prob) = clf.predict(&vec![0.5, 0.5], &softmax);
    let prob = number(prob);
    assert!(prob < 0.9, "expected lower confidence for ambiguous input, got {prob}");
}

#[test]
fn rejects_mismatched_label_and_weight_counts() {
    let result =
        Classifier::from_parts(labels(&["a", "b"]), vec![vec![1.0, 2.0]], vec![0.0, 0.0]);
    assert!(result.is_err());
    assert_eq!(result.err(), Some(ClassifierError::LengthMismatch));
}

#[test]
fn rejects_mismatched_label_and_bias_counts() {
    let result = Classifier::from_parts(labels(&["a"]), vec![vec![1.0]], vec![0.0, 0.0]);
    assert_eq!(result.err(), Some(ClassifierError::LengthMismatch));
}

#[test]
fn rejects_rows_of_different_lengths() {
    let result = Classifier::from_parts(
        labels(&["a", "b"]),
        vec![vec![1.0, 2.0], vec![1.0]],
        vec![0.0, 0.0],
    );
    assert_eq!(result.err(), Some(ClassifierError::DimensionMismatch));
}

#[test]
fn accepts_no_label_at_all() {
    assert!(Classifier::<f32>::from_parts(vec![], vec![], vec![]).is_ok());
}

#[test]
fn mismatches_are_told_in_words() {
    assert_eq!(
        ClassifierError::LengthMismatch.message(),
        "classifier weights file has mismatched labels/weights/bias lengths"
    );
    assert_eq!(
        ClassifierError::DimensionMismatch.message(),
        "classifier weights file has inconsistent embedding dimensions across labels"
    );
}

#[test]
fn the_first_of_equal_readings_wins() {
    let clf = toy_classifier();
    let even = Reading { exponential: score(1.0), share: score(0.5) };
    let (label, confidence) = clf.pick(&vec![even, even]);
    assert_eq!(label, "a");
    assert_eq!(confidence, score(0.5));
}

#[test]
fn the_confidence_is_the_share_of_the_winner() {
    let clf = toy_classifier();
    let low = Reading { exponential: score(0.5), share: score(0.25) };
    let high = Reading { exponential: score(1.0), share: score(0.75) };
    assert_eq!(clf.pick(&vec![low, high]), ("b".to_string(), score(0.75)));
}

#[test]
fn nan_readings_are_passed_over() {
    let clf = toy_classifier();
    let nan = Reading { exponential: score(f32::NAN), share: score(f32::NAN) };
    let some = Reading { exponential: score(0.0), share: score(0.125) };
    assert_eq!(clf.pick(&vec![nan, some]), ("b".to_string(), score(0.125)));
    assert_eq!(clf.pick(&vec![nan, nan]).0, "a");
}
