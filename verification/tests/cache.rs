use semantic_router::cache::SemanticCache;
use semantic_router::score::Score;
use serde_json::Value;

const SECOND: u128 = 1_000_000_000;

fn score(x: f32) -> Score {
    Score::from_bits(x.to_bits())
}

fn cosine(a: &Vec<f32>, b: &Vec<f32>) -> Score {
    let dot: f32 = a.iter().zip(b).map(|(x, y)| x * y).sum();
    let norm_a: f32 = a.iter().map(|x| x * x).sum::<f32>().sqrt();
    let norm_b: f32 = b.iter().map(|x| x * x).sum::<f32>().sqrt();
    if norm_a == 0.0 || norm_b == 0.0 {
        score(0.0)
    } else {
        score(dot / (norm_a * norm_b))
    }
}

fn answer(text: &str) -> Value {
    let mut map = serde_json::Map::new();
    map.insert("answer".to_string(), Value::String(text.to_string()));
    Value::Object(map)
}

fn cache(enabled: bool, threshold: f32, ttl: u64, limit: usize) -> SemanticCache<Vec<f32>> {
    SemanticCache::new(enabled, score(threshold), ttl, limit)
}

#[test]
fn returns_hit_for_near_duplicate_embedding() {
    let mut cache = cache(true, 0.9, 300, 10);
    cache.put(vec![1.0, 0.0], answer("cached"), Some("coding".into()), 0);

    let hit = cache.get(&vec![0.99, 0.01], 1, &cosine);
    assert!(hit.is_some());
    assert_eq!(hit.unwrap().response, answer("cached"));
}

#[test]
fn returns_none_below_similarity_threshold() {
    let mut cache = cache(true, 0.99, 300, 10);
    cache.put(vec![1.0, 0.0], answer("cached"), None, 0);

    let hit = cache.get(&vec![0.0, 1.0], 1, &cosine);
    assert!(hit.is_none());
}

#[test]
fn disabled_cache_never_hits() {
    let mut cache = cache(false, 0.5, 300, 10);
    cache.put(vec![1.0, 0.0], answer("cached"), None, 0);

    let hit = cache.get(&vec![1.0, 0.0], 1, &cosine);
    assert!(hit.is_none());
}

#[test]
fn evicts_oldest_entry_when_full() {
    let mut cache = cache(true, 0.99, 300, 1);
    cache.put(vec![1.0, 0.0], answer("first"), None, 0);
    cache.put(vec![0.0, 1.0], answer("second"), None, 1);

    assert!(cache.get(&vec![1.0, 0.0], 2, &cosine).is_none());
    assert!(cache.get(&vec![0.0, 1.0], 2, &cosine).is_some());
}

#[test]
fn a_hit_carries_category_and_score() {
    let mut cache = cache(true, 0.9, 300, 10);
    cache.put(vec![1.0, 0.0], answer("x"), Some("coding".into()), 0);
    let hit = cache.get(&vec![2.0, 0.0], 0, &cosine).unwrap();
    assert_eq!(hit.category.as_deref(), Some("coding"));
    assert_eq!(hit.score, score(1.0));
}

#[test]
fn the_closest_entry_answers() {
    let mut cache = cache(true, 0.5, 300, 10);
    cache.put(vec![0.8, 0.6], answer("near"), None, 0);
    cache.put(vec![1.0, 0.0], answer("exact"), None, 0);
    cache.put(vec![0.0, 1.0], answer("far"), None, 0);
    let hit = cache.get(&vec![1.0, 0.0], 0, &cosine).unwrap();
    assert_eq!(hit.response, answer("exact"));
}

#[test]
fn of_equally_close_entries_the_older_answers() {
    let mut cache = cache(true, 0.5, 300, 10);
    cache.put(vec![1.0, 0.0], answer("older"), None, 0);
    cache.put(vec![1.0, 0.0], answer("newer"), None, 1);
    assert_eq!(cache.get(&vec![1.0, 0.0], 2, &cosine).unwrap().response, answer("older"));
}

#[test]
fn a_score_equal_to_the_threshold_hits() {
    let mut cache = cache(true, 1.0, 300, 10);
    cache.put(vec![1.0, 0.0], answer("x"), None, 0);
    assert!(cache.get(&vec![1.0, 0.0], 0, &cosine).is_some());
}

#[test]
fn entries_live_for_less_than_the_time_to_live() {
    let mut cache = cache(true, 0.5, 300, 10);
    cache.put(vec![1.0], answer("x"), None, 7);
    assert!(cache.get(&vec![1.0], 7 + 300 * SECOND - 1, &cosine).is_some());
    assert!(cache.get(&vec![1.0], 7 + 300 * SECOND, &cosine).is_none());
    assert!(cache.get(&vec![1.0], 8, &cosine).is_none());
}

#[test]
fn a_time_to_live_of_zero_never_hits() {
    let mut cache = cache(true, 0.0, 0, 10);
    cache.put(vec![1.0], answer("x"), None, 5);
    assert!(cache.get(&vec![1.0], 5, &cosine).is_none());
}

#[test]
fn a_clock_that_lags_finds_entries_young() {
    let mut cache = cache(true, 0.5, 1, 10);
    cache.put(vec![1.0], answer("x"), None, 5 * SECOND);
    assert!(cache.get(&vec![1.0], 0, &cosine).is_some());
}

#[test]
fn the_longest_time_to_live_does_not_overflow() {
    let mut cache = cache(true, 0.5, u64::MAX, 10);
    cache.put(vec![1.0], answer("x"), None, 0);
    assert!(cache.get(&vec![1.0], u64::MAX as u128 * SECOND - 1, &cosine).is_some());
}

#[test]
fn a_limit_of_zero_keeps_one_entry() {
    let mut cache = cache(true, 0.99, 300, 0);
    cache.put(vec![1.0, 0.0], answer("first"), None, 0);
    assert!(cache.get(&vec![1.0, 0.0], 1, &cosine).is_some());
    cache.put(vec![0.0, 1.0], answer("second"), None, 1);
    assert!(cache.get(&vec![1.0, 0.0], 2, &cosine).is_none());
    assert!(cache.get(&vec![0.0, 1.0], 2, &cosine).is_some());
}

#[test]
fn an_empty_cache_has_no_answer() {
    assert!(cache(true, -1.0, 300, 10).get(&vec![1.0], 0, &cosine).is_none());
}

#[test]
fn an_answer_can_be_had_for_given_scores() {
    let mut cache = cache(true, 0.5, 300, 10);
    cache.put(vec![1.0], answer("a"), None, 0);
    cache.put(vec![2.0], answer("b"), Some("c".into()), 0);
    let hit = cache.answer(&vec![score(0.1), score(0.6)]).unwrap();
    assert_eq!(hit.response, answer("b"));
    assert_eq!(hit.category.as_deref(), Some("c"));
    assert_eq!(hit.score, score(0.6));
    assert!(cache.answer(&vec![score(0.1), score(0.4)]).is_none());
    assert!(cache.answer(&vec![score(f32::NAN), score(0.9)]).is_none());
}

#[test]
fn an_older_entry_answers_where_it_is_closest() {
    let mut cache = cache(true, 0.9, 300, 10);
    cache.put(vec![0.0, 1.0], answer("oldest"), None, 0);
    cache.put(vec![1.0, 0.0], answer("older"), None, 1);
    cache.put(vec![0.8, 0.6], answer("newest"), None, 2);
    assert_eq!(cache.get(&vec![1.0, 0.0], 3, &cosine).unwrap().response, answer("older"));
    assert_eq!(cache.get(&vec![0.0, 1.0], 3, &cosine).unwrap().response, answer("oldest"));
    assert!(cache.get(&vec![-1.0, 0.0], 3, &cosine).is_none());
}
