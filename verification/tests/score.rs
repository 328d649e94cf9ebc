use semantic_router::score::{leader, Score};

fn score(x: f32) -> Score {
    Score::from_bits(x.to_bits())
}

#[test]
fn scores_compare_as_numbers_do() {
    let samples = [
        f32::NEG_INFINITY,
        f32::MIN,
        -1.0,
        -f32::MIN_POSITIVE,
        -0.0,
        0.0,
        f32::MIN_POSITIVE,
        0.35,
        0.92,
        1.0,
        f32::MAX,
        f32::INFINITY,
        f32::NAN,
        -f32::NAN,
    ];
    for a in samples {
        for b in samples {
            assert_eq!(score(a) == score(b), a == b);
            assert_eq!(score(a) < score(b), a < b);
            assert_eq!(score(a) > score(b), a > b);
            assert_eq!(score(a) >= score(b), a >= b);
            assert_eq!(score(a) <= score(b), a <= b);
        }
    }
}

#[test]
fn bit_patterns_are_kept() {
    assert_eq!(score(0.25).to_bits(), 0.25f32.to_bits());
    assert_eq!(Score::zero().to_bits(), 0.0f32.to_bits());
    assert_eq!(Score::lowest().to_bits(), f32::MIN.to_bits());
}

#[test]
fn the_first_of_the_greatest_leads() {
    assert_eq!(leader(&vec![]), None);
    assert_eq!(leader(&vec![score(0.1)]), Some(0));
    assert_eq!(leader(&vec![score(0.1), score(0.7), score(0.7), score(0.2)]), Some(1));
    assert_eq!(leader(&vec![score(-0.0), score(0.0)]), Some(0));
}

#[test]
fn a_nan_is_passed_over_but_not_overtaken() {
    assert_eq!(leader(&vec![score(0.1), score(f32::NAN), score(0.2)]), Some(2));
    assert_eq!(leader(&vec![score(f32::NAN), score(0.9)]), Some(0));
}
