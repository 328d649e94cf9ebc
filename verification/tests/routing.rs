use semantic_router::classifier::{Classifier, Reading};
use semantic_router::routing::{
    peak_of, rate, CategoryIndex, RouteDecision, RoutingStrategy, SemanticRouter,
};
use semantic_router::score::Score;

fn score(x: f32) -> Score {
    Score::from_bits(x.to_bits())
}

fn cosine(a: &Vec<f32>, b: &Vec<f32>) -> Score {
    let dot: f32 = a.iter().zip(b).map(|(x, y)| x * y).sum();
    let norm_a: f32 = a.iter().map(|x| x * x).sum::<f32>().sqrt();
    let norm_b: f32 = b.iter().map(|x| x * x).sum::<f32>().sqrt();
    if norm_a == 0.0 || norm_b == 0.0 {
        score(0.0)
    } else {
        score(dot / (norm_a * norm_b))
    }
}

fn make_router(threshold: f32) -> SemanticRouter<Vec<f32>> {
    let categories = vec![
        CategoryIndex { name: "coding".into(), embeddings: vec![vec![1.0, 0.0, 0.0]] },
        CategoryIndex { name: "math".into(), embeddings: vec![vec![0.0, 1.0, 0.0]] },
    ];
    SemanticRouter::new(categories, score(threshold))
}

#[test]
fn routes_to_closest_category_above_threshold() {
    let router = make_router(0.5);
    let decision = router.route(&vec![0.9, 0.1, 0.0], &cosine);
    assert_eq!(decision.category.as_deref(), Some("coding"));
}

#[test]
fn falls_back_to_none_below_threshold() {
    let router = make_router(0.9);
    let decision = router.route(&vec![0.6, 0.5, 0.0], &cosine);
    assert_eq!(decision.category, None);
}

#[test]
fn empty_categories_falls_back_to_none() {
    let router: SemanticRouter<Vec<f32>> = SemanticRouter::new(vec![], score(0.5));
    let decision = router.route(&vec![1.0, 0.0], &cosine);
    assert_eq!(decision.category, None);
    assert_eq!(f32::from_bits(decision.score.to_bits()), 0.0);
}

#[test]
fn the_score_is_reported_below_the_threshold_too() {
    let router = make_router(0.9);
    let query = vec![0.6, 0.5, 0.0];
    let decision = router.route(&query, &cosine);
    assert_eq!(decision.score, cosine(&query, &vec![1.0, 0.0, 0.0]));
}

#[test]
fn a_score_equal_to_the_threshold_is_enough() {
    let router = make_router(0.5);
    let decision = router.decide(&vec![score(0.25), score(0.5)]);
    assert_eq!(decision, RouteDecision { category: Some("math".into()), score: score(0.5) });
    let below = router.decide(&vec![score(0.25), score(0.49)]);
    assert_eq!(below, RouteDecision { category: None, score: score(0.49) });
}

#[test]
fn of_equal_categories_the_first_is_taken() {
    let router = make_router(0.5);
    let decision = router.decide(&vec![score(0.7), score(0.7)]);
    assert_eq!(decision.category.as_deref(), Some("coding"));
}

#[test]
fn a_category_counts_by_its_best_example() {
    let categories = vec![
        CategoryIndex { name: "a".into(), embeddings: vec![vec![0.6, 0.8], vec![0.8, 0.6]] },
        CategoryIndex { name: "b".into(), embeddings: vec![vec![0.0, 1.0], vec![1.0, 0.0]] },
    ];
    let router = SemanticRouter::new(categories, score(0.5));
    let decision = router.route(&vec![1.0, 0.0], &cosine);
    assert_eq!(decision.category.as_deref(), Some("b"));
    assert_eq!(decision.score, score(1.0));
}

#[test]
fn a_category_without_examples_scores_lowest() {
    let categories = vec![CategoryIndex::<Vec<f32>> { name: "a".into(), embeddings: vec![] }];
    let router = SemanticRouter::new(categories, score(-1.0));
    let decision = router.route(&vec![1.0], &cosine);
    assert_eq!(decision, RouteDecision { category: None, score: score(f32::MIN) });
}

#[test]
fn a_lower_threshold_gives_the_same_category() {
    let query = vec![0.9, 0.4, 0.0];
    let low = make_router(0.1).route(&query, &cosine);
    let high = make_router(0.8).route(&query, &cosine);
    let too_high = make_router(0.99).route(&query, &cosine);
    assert_eq!(low, high);
    assert_eq!(too_high.category, None);
    assert_eq!(too_high.score, low.score);
}

#[test]
fn rating_keeps_the_order_of_the_examples() {
    let examples = vec![vec![1.0, 0.0], vec![0.0, 1.0], vec![-1.0, 0.0]];
    let scores = rate(&vec![1.0, 0.0], &examples, &cosine);
    assert_eq!(scores, [score(1.0), score(0.0), score(-1.0)]);
}

#[test]
fn a_peak_leaves_nans_aside() {
    assert_eq!(peak_of(&vec![score(f32::NAN), score(-2.0), score(-3.0)]), score(-2.0));
    assert_eq!(peak_of(&vec![score(f32::NAN)]), score(f32::MIN));
    assert_eq!(peak_of(&vec![]), score(f32::MIN));
}

fn first_weight_is_the_share(
    weights: &Vec<Vec<f32>>,
    _bias: &Vec<f32>,
    embedding: &Vec<f32>,
) -> Vec<Reading> {
    weights
        .iter()
        .map(|w| Reading { exponential: score(w[0] * embedding[0]), share: score(w[0]) })
        .collect()
}

#[test]
fn a_strategy_routes_by_similarity() {
    let strategy: RoutingStrategy<Vec<f32>, f32> = RoutingStrategy::Similarity(make_router(0.5));
    let decision = strategy.route(&vec![0.0, 2.0, 0.0], &cosine, &first_weight_is_the_share);
    assert_eq!(decision, RouteDecision { category: Some("math".into()), score: score(1.0) });
}

#[test]
fn a_strategy_routes_by_classifier() {
    let make = |threshold: f32| -> RoutingStrategy<Vec<f32>, f32> {
        let classifier = Classifier::from_parts(
            vec!["a".to_string(), "b".to_string()],
            vec![vec![0.25], vec![0.75]],
            vec![0.0, 0.0],
        );
        match classifier {
            Ok(classifier) => RoutingStrategy::Classifier {
                classifier,
                confidence_threshold: score(threshold),
            },
            Err(_) => unreachable!(),
        }
    };
    let query = vec![1.0];
    let sure = make(0.75).route(&query, &cosine, &first_weight_is_the_share);
    assert_eq!(sure, RouteDecision { category: Some("b".into()), score: score(0.75) });
    let unsure = make(0.8).route(&query, &cosine, &first_weight_is_the_share);
    assert_eq!(unsure, RouteDecision { category: None, score: score(0.75) });
}

#[test]
fn the_first_category_with_the_closest_example_is_given() {
    let categories = vec![
        CategoryIndex { name: "a".into(), embeddings: vec![vec![0.6, 0.8]] },
        CategoryIndex { name: "b".into(), embeddings: vec![vec![0.0, 1.0], vec![1.0, 0.0]] },
        CategoryIndex { name: "c".into(), embeddings: vec![vec![1.0, 0.0]] },
    ];
    let router = SemanticRouter::new(categories, score(0.5));
    let decision = router.route(&vec![1.0, 0.0], &cosine);
    assert_eq!(decision, RouteDecision { category: Some("b".into()), score: score(1.0) });
}

#[test]
fn ratings_below_every_finite_number_count_as_the_lowest() {
    let categories = vec![
        CategoryIndex { name: "a".into(), embeddings: vec![0.0] },
        CategoryIndex { name: "b".into(), embeddings: vec![1.0] },
    ];
    let router = SemanticRouter::new(categories, score(f32::NEG_INFINITY));
    let rating = |_: &f32, e: &f32| score(if *e == 0.0 { f32::NEG_INFINITY } else { -2.0 });
    let decision = router.route(&0.0, &rating);
    assert_eq!(decision, RouteDecision { category: Some("b".into()), score: score(-2.0) });
    let nothing = |_: &f32, _: &f32| score(f32::NEG_INFINITY);
    let decision = router.route(&0.0, &nothing);
    assert_eq!(decision, RouteDecision { category: Some("a".into()), score: score(f32::MIN) });
}
