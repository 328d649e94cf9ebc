//! Turning an embedding into a routing decision.
use crate::classifier::{
    is_prediction, law_prediction_is_the_best_label, wins, Classifier, Reading,
};
use crate::score::{leader, leads, peak, Score};
use crate::score::{law_leader_is_unique, law_peak_bounds_every_score};
use crate::text::option_text;
use vstd::prelude::*;

verus! {

/// A category with its example utterances already embedded.
#[derive(Debug, Clone)]
pub struct CategoryIndex<E> {
    pub name: String,
    pub embeddings: Vec<E>,
}

/// Where a query goes.
#[derive(Debug, Clone, PartialEq)]
pub struct RouteDecision {
    /// `None` means that no category cleared the confidence threshold: callers
    /// fall back to the configured default backend.
    pub category: Option<String>,
    pub score: Score,
}

/// Routes a query embedding to the best-matching category, by the greatest
/// similarity to one of that category's examples.
pub struct SemanticRouter<E> {
    categories: Vec<CategoryIndex<E>>,
    confidence_threshold: Score,
}

/// The names of categories.
pub open spec fn category_names<E>(categories: Seq<CategoryIndex<E>>) -> Seq<Seq<char>> {
    categories.map_values(|c: CategoryIndex<E>| c.name@)
}

/// Whether `scores` is what `similarity` answers for the query and each of the
/// embeddings.
pub open spec fn rated<E, F: Fn(&E, &E) -> Score>(
    similarity: F,
    query: E,
    embeddings: Seq<E>,
    scores: Seq<Score>,
) -> bool {
    &&& scores.len() == embeddings.len()
    &&& forall|j: int|
        0 <= j < embeddings.len() ==> call_ensures(
            similarity,
            (&query, &(#[trigger] embeddings[j])),
            scores[j],
        )
}

/// Whether `scores` is what `similarity` answers for the query and each example
/// of each category.
pub open spec fn all_rated<E, F: Fn(&E, &E) -> Score>(
    similarity: F,
    query: E,
    categories: Seq<CategoryIndex<E>>,
    scores: Seq<Seq<Score>>,
) -> bool {
    &&& scores.len() == categories.len()
    &&& forall|i: int|
        0 <= i < categories.len() ==> rated(
            similarity,
            query,
            (#[trigger] categories[i]).embeddings@,
            scores[i],
        )
}

/// The best score of each category.
pub open spec fn peaks(scores: Seq<Seq<Score>>) -> Seq<Score> {
    scores.map_values(|row: Seq<Score>| peak(row))
}

/// Whether a decision is the one that the best scores of the categories call
/// for: the leading category, if its score reaches the threshold; with no
/// category at all, none and a score of zero.
pub open spec fn is_decision(
    category: Option<Seq<char>>,
    score: Score,
    names: Seq<Seq<char>>,
    best: Seq<Score>,
    threshold: Score,
) -> bool {
    if names.len() == 0 {
        category is None && score == Score::spec_zero()
    } else {
        exists|b: int| #[trigger]
            leads(best, b) && score == best[b] && category == if best[b].reaches(threshold) {
                Some(names[b])
            } else {
                None
            }
    }
}

/// Rates each of the embeddings against the query.
pub fn rate<E, F: Fn(&E, &E) -> Score>(query: &E, embeddings: &Vec<E>, similarity: &F) -> (scores:
    Vec<Score>)
    requires
        forall|e: E| call_requires(*similarity, (query, &e)),
    ensures
        rated(*similarity, *query, embeddings@, scores@),
{
    let mut scores: Vec<Score> = Vec::new();
    let mut j: usize = 0;
    while j < embeddings.len()
        invariant
            0 <= j <= embeddings.len(),
            forall|e: E| call_requires(*similarity, (query, &e)),
            rated(*similarity, *query, embeddings@.take(j as int), scores@),
        decreases embeddings.len() - j,
    {
        scores.push(similarity(query, &embeddings[j]));
        j = j + 1;
    }
    assert(embeddings@.take(j as int) =~= embeddings@);
    scores
}

/// The greatest of the scores and the least finite one.
pub fn peak_of(scores: &Vec<Score>) -> (best: Score)
    ensures
        best == peak(scores@),
{
    let mut best: Score = Score::lowest();
    let mut j: usize = 0;
    while j < scores.len()
        invariant
            0 <= j <= scores.len(),
            best == peak(scores@.take(j as int)),
        decreases scores.len() - j,
    {
        assert(scores@.take(j + 1).drop_last() =~= scores@.take(j as int));
        if scores[j] > best {
            best = scores[j];
        }
        j = j + 1;
    }
    assert(scores@.take(j as int) =~= scores@);
    best
}

impl<E> SemanticRouter<E> {
    /// The categories.
    pub closed spec fn categories(&self) -> Seq<CategoryIndex<E>> {
        self.categories@
    }

    /// The score that a category has to reach.
    pub closed spec fn threshold(&self) -> Score {
        self.confidence_threshold
    }

    /// A router over the given categories.
    pub fn new(categories: Vec<CategoryIndex<E>>, confidence_threshold: Score) -> (router: Self)
        ensures
            router.categories() == categories@,
            router.threshold() == confidence_threshold,
    {
        SemanticRouter { categories, confidence_threshold }
    }

    /// Decides by the best score of each category, given in the order of the
    /// categories.
    pub fn decide(&self, best: &Vec<Score>) -> (decision: RouteDecision)
        requires
            best@.len() == self.categories().len(),
        ensures
            is_decision(
                option_text(decision.category),
                decision.score,
                category_names(self.categories()),
                best@,
                self.threshold(),
            ),
    {
        match leader(best) {
            Some(b) => {
                let score = best[b];
                assert(category_names(self.categories())[b as int] == self.categories@[b as int].name@);
                if score >= self.confidence_threshold {
                    RouteDecision { category: Some(self.categories[b].name.clone()), score }
                } else {
                    RouteDecision { category: None, score }
                }
            },
            None => RouteDecision { category: None, score: Score::zero() },
        }
    }

    /// Rates the query against every example of every category and decides by
    /// the best score of each category.
    pub fn route<F: Fn(&E, &E) -> Score>(&self, query_embedding: &E, similarity: &F) -> (decision:
        RouteDecision)
        requires
            forall|e: E| call_requires(*similarity, (query_embedding, &e)),
        ensures
            exists|scores: Seq<Seq<Score>>| #[trigger]
                all_rated(*similarity, *query_embedding, self.categories(), scores) && is_decision(
                    option_text(decision.category),
                    decision.score,
                    category_names(self.categories()),
                    peaks(scores),
                    self.threshold(),
                ),
            forall|i: int, j: int|
                #![trigger self.categories()[i].embeddings@[j]]
                0 <= i < self.categories().len() && 0 <= j < self.categories()[i].embeddings@.len()
                    ==> exists|s: Score| #[trigger]
                    call_ensures(
                        *similarity,
                        (query_embedding, &self.categories()[i].embeddings@[j]),
                        s,
                    ) && (s.is_nan() || decision.score.reaches(s)),
    {
        let ghost mut scores: Seq<Seq<Score>> = Seq::empty();
        let mut best: Vec<Score> = Vec::new();
        let mut i: usize = 0;
        while i < self.categories.len()
            invariant
                0 <= i <= self.categories.len(),
                forall|e: E| call_requires(*similarity, (query_embedding, &e)),
                all_rated(
                    *similarity,
                    *query_embedding,
                    self.categories@.take(i as int),
                    scores,
                ),
                best@ == peaks(scores),
            decreases self.categories.len() - i,
        {
            let row = rate(query_embedding, &self.categories[i].embeddings, similarity);
            proof {
                scores = scores.push(row@);
                assert(self.categories@.take(i + 1) =~= self.categories@.take(i as int).push(self.categories@[i as int]));
            }
            best.push(peak_of(&row));
            assert(best@ =~= peaks(scores));
            i = i + 1;
        }
        assert(self.categories@.take(i as int) =~= self.categories@);
        let decision = self.decide(&best);
        proof {
            law_every_example_counts(
                self.categories(),
                self.threshold(),
                *similarity,
                *query_embedding,
                option_text(decision.category),
                decision.score,
            );
        }
        decision
    }
}

/// The two ways in which an embedding becomes a routing decision: by the
/// greatest similarity to an example utterance, with no training, or by a small
/// trained linear classifier.
pub enum RoutingStrategy<E, W> {
    Similarity(SemanticRouter<E>),
    Classifier { classifier: Classifier<W>, confidence_threshold: Score },
}

/// Whether a decision is the one that a prediction calls for: the predicted
/// label, if its confidence reaches the threshold.
pub open spec fn follows_prediction(
    category: Option<Seq<char>>,
    score: Score,
    labels: Seq<Seq<char>>,
    readings: Seq<Reading>,
    threshold: Score,
) -> bool {
    exists|label: Seq<char>| #[trigger]
        is_prediction(label, score, labels, readings) && category == if score.reaches(threshold) {
            Some(label)
        } else {
            None
        }
}

impl<E, W> RoutingStrategy<E, W> {
    /// Whether the strategy can decide: a classifier has a label.
    pub open spec fn can_route(&self) -> bool {
        match self {
            RoutingStrategy::Similarity(_) => true,
            RoutingStrategy::Classifier { classifier, .. } => classifier.labels().len() > 0,
        }
    }

    /// Whether the given arithmetic can be used on a query: two embeddings can
    /// be rated, and a classifier gets a reading for each label.
    pub open spec fn accepts<
        F: Fn(&E, &E) -> Score,
        G: Fn(&Vec<Vec<W>>, &Vec<W>, &E) -> Vec<Reading>,
    >(&self, similarity: F, softmax: G, query: E) -> bool {
        &&& forall|e: E| call_requires(similarity, (&query, &e))
        &&& self matches RoutingStrategy::Classifier { classifier, .. } ==> {
            &&& call_requires(softmax, (&classifier.weights(), &classifier.bias(), &query))
            &&& forall|readings: Vec<Reading>|
                call_ensures(softmax, (&classifier.weights(), &classifier.bias(), &query), readings)
                    ==> readings@.len() == classifier.labels().len()
        }
    }

    /// Whether a decision is the one that the strategy makes of a query: by the
    /// ratings of the examples, or by the readings off the classifier.
    pub open spec fn is_routed<
        F: Fn(&E, &E) -> Score,
        G: Fn(&Vec<Vec<W>>, &Vec<W>, &E) -> Vec<Reading>,
    >(
        &self,
        similarity: F,
        softmax: G,
        query: E,
        category: Option<Seq<char>>,
        score: Score,
    ) -> bool {
        match self {
            RoutingStrategy::Similarity(router) => exists|scores: Seq<Seq<Score>>| #[trigger]
                all_rated(similarity, query, router.categories(), scores) && is_decision(
                    category,
                    score,
                    category_names(router.categories()),
                    peaks(scores),
                    router.threshold(),
                ),
            RoutingStrategy::Classifier {
                classifier,
                confidence_threshold,
            } => exists|readings: Vec<Reading>| #[trigger]
                call_ensures(softmax, (&classifier.weights(), &classifier.bias(), &query), readings)
                    && follows_prediction(
                    category,
                    score,
                    classifier.labels(),
                    readings@,
                    *confidence_threshold,
                ),
        }
    }

    /// Decides where a query goes. `similarity` rates two embeddings, `softmax`
    /// reads an embedding off a classifier's weights and biases.
    pub fn route<F: Fn(&E, &E) -> Score, G: Fn(&Vec<Vec<W>>, &Vec<W>, &E) -> Vec<Reading>>(
        &self,
        query_embedding: &E,
        similarity: &F,
        softmax: &G,
    ) -> (decision: RouteDecision)
        requires
            self.can_route(),
            self.accepts(*similarity, *softmax, *query_embedding),
        ensures
            self.is_routed(
                *similarity,
                *softmax,
                *query_embedding,
                option_text(decision.category),
                decision.score,
            ),
    {
        match self {
            RoutingStrategy::Similarity(router) => router.route(query_embedding, similarity),
            RoutingStrategy::Classifier { classifier, confidence_threshold } => {
                let (label, confidence) = classifier.predict(query_embedding, softmax);
                if confidence >= *confidence_threshold {
                    RouteDecision { category: Some(label), score: confidence }
                } else {
                    RouteDecision { category: None, score: confidence }
                }
            },
        }
    }
}

/// The decision is the best match: no example of any category is rated higher.
pub proof fn law_no_example_is_rated_higher(
    category: Option<Seq<char>>,
    score: Score,
    names: Seq<Seq<char>>,
    scores: Seq<Seq<Score>>,
    threshold: Score,
    i: int,
    j: int,
)
    requires
        scores.len() == names.len(),
        is_decision(category, score, names, peaks(scores), threshold),
        0 <= i < scores.len(),
        0 <= j < scores[i].len(),
        !scores[i][j].is_nan(),
    ensures
        score.reaches(scores[i][j]),
{
    let b = choose|b: int| #[trigger] leads(peaks(scores), b) && score == peaks(scores)[b];
    law_peak_bounds_every_score(scores[0]);
    law_peak_bounds_every_score(scores[i]);
    assert(peaks(scores)[0] == peak(scores[0]));
    assert(peaks(scores)[i] == peak(scores[i]));
}

/// The decision names the first category with the closest example: the score is
/// the rating of an example of some category, no example of any category is
/// rated higher, every example of the categories before is rated lower, NaNs
/// left aside, and it is this category that is given, if the score reaches the
/// threshold. For this, some example has to be rated above the least finite
/// score, or one of the first category at it.
pub proof fn law_first_closest_category_is_given(
    category: Option<Seq<char>>,
    score: Score,
    names: Seq<Seq<char>>,
    scores: Seq<Seq<Score>>,
    threshold: Score,
)
    requires
        scores.len() == names.len(),
        names.len() > 0,
        (exists|i: int, j: int|
            0 <= i < scores.len() && 0 <= j < scores[i].len() && (#[trigger] scores[i][j]).exceeds(
                Score::spec_lowest(),
            )) || (exists|j: int|
            0 <= j < scores[0].len() && (#[trigger] scores[0][j]).reaches(Score::spec_lowest())),
        is_decision(category, score, names, peaks(scores), threshold),
    ensures
        exists|c: int, e: int|
            0 <= c < scores.len() && 0 <= e < scores[c].len() && {
                &&& score == #[trigger] scores[c][e]
                &&& forall|i: int, j: int|
                    0 <= i < scores.len() && 0 <= j < scores[i].len() && !(
                    #[trigger] scores[i][j]).is_nan() ==> score.reaches(scores[i][j])
                &&& forall|i: int, j: int|
                    0 <= i < c && 0 <= j < scores[i].len() && !(
                    #[trigger] scores[i][j]).is_nan() ==> score.exceeds(scores[i][j])
                &&& category == if score.reaches(threshold) {
                    Some(names[c])
                } else {
                    None
                }
            },
{
    let best = peaks(scores);
    let c = choose|b: int| #[trigger]
        leads(best, b) && score == best[b] && category == if best[b].reaches(threshold) {
            Some(names[b])
        } else {
            None
        };
    assert(best[c] == peak(scores[c]));
    law_peak_bounds_every_score(scores[c]);
    law_peak_bounds_every_score(scores[0]);
    assert(best[0] == peak(scores[0]));
    assert forall|i: int, j: int|
        0 <= i < scores.len() && 0 <= j < scores[i].len() && !(
    #[trigger] scores[i][j]).is_nan() implies score.reaches(scores[i][j]) by {
        law_peak_bounds_every_score(scores[i]);
        assert(best[i] == peak(scores[i]));
        assert(best[c].reaches(best[i]));
    }
    assert forall|i: int, j: int|
        0 <= i < c && 0 <= j < scores[i].len() && !(
    #[trigger] scores[i][j]).is_nan() implies score.exceeds(scores[i][j]) by {
        law_peak_bounds_every_score(scores[i]);
        assert(best[i] == peak(scores[i]));
        assert(best[c].exceeds(best[i]));
    }
    assert(exists|e: int| 0 <= e < scores[c].len() && scores[c][e] == score) by {
        if !scores[c].contains(peak(scores[c])) {
            assert(score == Score::spec_lowest());
            if exists|i: int, j: int|
                0 <= i < scores.len() && 0 <= j < scores[i].len() && (
                #[trigger] scores[i][j]).exceeds(Score::spec_lowest()) {
                let (i, j) = choose|i: int, j: int|
                    0 <= i < scores.len() && 0 <= j < scores[i].len() && (
                    #[trigger] scores[i][j]).exceeds(Score::spec_lowest());
                assert(score.reaches(scores[i][j]));
            } else {
                let j = choose|j: int|
                    0 <= j < scores[0].len() && (#[trigger] scores[0][j]).reaches(
                        Score::spec_lowest(),
                    );
                assert(c > 0 ==> score.exceeds(scores[0][j]));
                assert(score.reaches(scores[0][j]));
                assert(scores[c][j] == score);
            }
        }
    }
    let e = choose|e: int| 0 <= e < scores[c].len() && scores[c][e] == score;
    assert(score == scores[c][e]);
}

/// A query is given a category exactly where there is one to give and the best
/// score reaches the threshold.
pub proof fn law_category_is_given_above_the_threshold(
    category: Option<Seq<char>>,
    score: Score,
    names: Seq<Seq<char>>,
    best: Seq<Score>,
    threshold: Score,
)
    requires
        best.len() == names.len(),
        is_decision(category, score, names, best, threshold),
    ensures
        category is Some <==> names.len() > 0 && score.reaches(threshold),
        category matches Some(name) ==> names.contains(name),
{
    if names.len() > 0 {
        let b = choose|b: int| #[trigger] leads(best, b) && score == best[b] && category == if best[b].reaches(threshold) {
            Some(names[b])
        } else {
            None
        };
        assert(names[b] == names[b]);
    }
}

/// A classifier gives a category exactly where its confidence reaches the
/// threshold, and the category is one of its labels.
pub proof fn law_classifier_gives_its_labels(
    category: Option<Seq<char>>,
    score: Score,
    labels: Seq<Seq<char>>,
    readings: Seq<Reading>,
    threshold: Score,
)
    requires
        readings.len() == labels.len(),
        follows_prediction(category, score, labels, readings, threshold),
    ensures
        category is Some <==> score.reaches(threshold),
        category matches Some(name) ==> labels.contains(name),
{
    let label = choose|label: Seq<char>| #[trigger]
        is_prediction(label, score, labels, readings) && category == if score.reaches(threshold) {
            Some(label)
        } else {
            None
        };
    law_prediction_is_the_best_label(label, score, labels, readings);
}

/// Two routers that differ in their thresholds alone give the same score, and
/// where both give a category it is the same; a lower threshold gives one
/// wherever a higher one does.
pub proof fn law_threshold_only_withholds(
    low: Option<Seq<char>>,
    low_score: Score,
    low_threshold: Score,
    high: Option<Seq<char>>,
    high_score: Score,
    high_threshold: Score,
    names: Seq<Seq<char>>,
    best: Seq<Score>,
)
    requires
        best.len() == names.len(),
        high_threshold.reaches(low_threshold),
        is_decision(low, low_score, names, best, low_threshold),
        is_decision(high, high_score, names, best, high_threshold),
    ensures
        low_score == high_score,
        high is Some ==> low == high,
{
    if names.len() > 0 {
        let a = choose|b: int| #[trigger] leads(best, b) && low_score == best[b] && low == if best[b].reaches(low_threshold) {
            Some(names[b])
        } else {
            None
        };
        let b = choose|b: int| #[trigger] leads(best, b) && high_score == best[b] && high == if best[b].reaches(high_threshold) {
            Some(names[b])
        } else {
            None
        };
        law_leader_is_unique(best, a, b);
    }
}

/// A query is rated against every example of every category, however many there
/// are: for each of them the score of the decision reaches what the similarity
/// answers for the query and that example, unless that is NaN.
pub proof fn law_every_example_counts<E, F: Fn(&E, &E) -> Score>(
    categories: Seq<CategoryIndex<E>>,
    threshold: Score,
    similarity: F,
    query: E,
    category: Option<Seq<char>>,
    score: Score,
)
    requires
        exists|scores: Seq<Seq<Score>>| #[trigger]
            all_rated(similarity, query, categories, scores) && is_decision(
                category,
                score,
                category_names(categories),
                peaks(scores),
                threshold,
            ),
    ensures
        forall|i: int, j: int|
            #![trigger categories[i].embeddings@[j]]
            0 <= i < categories.len() && 0 <= j < categories[i].embeddings@.len()
                ==> exists|s: Score| #[trigger]
                call_ensures(
                    similarity,
                    (&query, &categories[i].embeddings@[j]),
                    s,
                ) && (s.is_nan() || score.reaches(s)),
{
    let scores = choose|scores: Seq<Seq<Score>>| #[trigger]
        all_rated(similarity, query, categories, scores) && is_decision(
            category,
            score,
            category_names(categories),
            peaks(scores),
            threshold,
        );
    assert forall|i: int, j: int|
        #![trigger categories[i].embeddings@[j]]
        0 <= i < categories.len() && 0 <= j < categories[i].embeddings@.len() implies exists|
        s: Score,
    | #[trigger]
        call_ensures(similarity, (&query, &categories[i].embeddings@[j]), s) && (
        s.is_nan() || score.reaches(s)) by {
        let s = scores[i][j];
        assert(rated(similarity, query, categories[i].embeddings@, scores[i]));
        assert(call_ensures(similarity, (&query, &categories[i].embeddings@[j]), s));
        if !s.is_nan() {
            law_no_example_is_rated_higher(
                category,
                score,
                category_names(categories),
                scores,
                threshold,
                i,
                j,
            );
        }
    }
}

/// The decision belongs to one category: its name is given exactly where the
/// score reaches the threshold, the score is what the similarity answers for one
/// of its own examples (or the least finite number, where it answers nothing
/// above that), and what it answers for every example of the categories before
/// is lower or NaN. Without a category, none is given and the score is zero.
pub proof fn law_decision_rests_on_an_example<E, F: Fn(&E, &E) -> Score>(
    categories: Seq<CategoryIndex<E>>,
    threshold: Score,
    similarity: F,
    query: E,
    category: Option<Seq<char>>,
    score: Score,
)
    requires
        exists|scores: Seq<Seq<Score>>| #[trigger]
            all_rated(similarity, query, categories, scores) && is_decision(
                category,
                score,
                category_names(categories),
                peaks(scores),
                threshold,
            ),
    ensures
        categories.len() == 0 ==> category is None && score.bits == 0,
        categories.len() > 0 ==> exists|c: int|
            0 <= c < categories.len() && {
                &&& category == if score.reaches(threshold) {
                    Some((#[trigger] categories[c]).name@)
                } else {
                    None
                }
                &&& score.bits == 0xff7f_ffff || exists|e: int|
                    0 <= e < categories[c].embeddings@.len() && call_ensures(
                        similarity,
                        (&query, &(#[trigger] categories[c].embeddings@[e])),
                        score,
                    )
                &&& forall|i: int, j: int|
                    #![trigger categories[i].embeddings@[j]]
                    0 <= i < c && 0 <= j < categories[i].embeddings@.len() ==> exists|
                        s: Score,
                    | #[trigger]
                        call_ensures(
                            similarity,
                            (&query, &categories[i].embeddings@[j]),
                            s,
                        ) && (s.is_nan() || score.exceeds(s))
            },
{
    let scores = choose|scores: Seq<Seq<Score>>| #[trigger]
        all_rated(similarity, query, categories, scores) && is_decision(
            category,
            score,
            category_names(categories),
            peaks(scores),
            threshold,
        );
    if categories.len() > 0 {
        let names = category_names(categories);
        let best = peaks(scores);
        let c = choose|b: int| #[trigger]
            leads(best, b) && score == best[b] && category == if best[b].reaches(threshold) {
                Some(names[b])
            } else {
                None
            };
        assert(names[c] == categories[c].name@);
        assert(best[c] == peak(scores[c]));
        assert(best[0] == peak(scores[0]));
        law_peak_bounds_every_score(scores[c]);
        law_peak_bounds_every_score(scores[0]);
        assert(rated(similarity, query, categories[c].embeddings@, scores[c]));
        if scores[c].contains(score) {
            let e = choose|e: int| 0 <= e < scores[c].len() && scores[c][e] == score;
            assert(call_ensures(
                similarity,
                (&query, &categories[c].embeddings@[e]),
                scores[c][e],
            ));
        }
        assert forall|i: int, j: int|
            #![trigger categories[i].embeddings@[j]]
            0 <= i < c && 0 <= j < categories[i].embeddings@.len() implies exists|
            s: Score,
        | #[trigger]
            call_ensures(similarity, (&query, &categories[i].embeddings@[j]), s) && (
            s.is_nan() || score.exceeds(s)) by {
            assert(rated(similarity, query, categories[i].embeddings@, scores[i]));
            assert(call_ensures(
                similarity,
                (&query, &categories[i].embeddings@[j]),
                scores[i][j],
            ));
            law_peak_bounds_every_score(scores[i]);
            assert(best[i] == peak(scores[i]));
            assert(best[c].exceeds(best[i]));
        }
    }
}

/// A strategy by similarity decides as its router does.
pub proof fn law_similarity_strategy_counts_every_example<
    E,
    W,
    F: Fn(&E, &E) -> Score,
    G: Fn(&Vec<Vec<W>>, &Vec<W>, &E) -> Vec<Reading>,
>(
    router: SemanticRouter<E>,
    similarity: F,
    softmax: G,
    query: E,
    category: Option<Seq<char>>,
    score: Score,
)
    requires
        RoutingStrategy::<E, W>::Similarity(router).is_routed(
            similarity,
            softmax,
            query,
            category,
            score,
        ),
    ensures
        router.categories().len() > 0 ==> (category is Some <==> score.reaches(router.threshold())),
        category matches Some(name) ==> exists|c: int|
            0 <= c < router.categories().len() && (#[trigger] router.categories()[c]).name@ == name,
        forall|i: int, j: int|
            #![trigger router.categories()[i].embeddings@[j]]
            0 <= i < router.categories().len() && 0 <= j
                < router.categories()[i].embeddings@.len() ==> exists|s: Score| #[trigger]
                call_ensures(
                    similarity,
                    (&query, &router.categories()[i].embeddings@[j]),
                    s,
                ) && (s.is_nan() || score.reaches(s)),
{
    let categories = router.categories();
    law_every_example_counts(categories, router.threshold(), similarity, query, category, score);
    law_decision_rests_on_an_example(
        categories,
        router.threshold(),
        similarity,
        query,
        category,
        score,
    );
    if categories.len() > 0 {
        let c = choose|c: int|
            0 <= c < categories.len() && category == if score.reaches(router.threshold()) {
                Some((#[trigger] categories[c]).name@)
            } else {
                None
            };
        assert(categories[c] == router.categories()[c]);
    }
}

/// A strategy by classifier gives the label of the greatest reading, the first
/// of several, with the share of that reading as the score, and only where the
/// score reaches the threshold. Readings not above the least finite number do
/// not count: where there are no others, the first label is meant.
pub proof fn law_classifier_strategy_gives_the_greatest_reading<
    E,
    W,
    F: Fn(&E, &E) -> Score,
    G: Fn(&Vec<Vec<W>>, &Vec<W>, &E) -> Vec<Reading>,
>(
    classifier: Classifier<W>,
    threshold: Score,
    similarity: F,
    softmax: G,
    query: E,
    category: Option<Seq<char>>,
    score: Score,
)
    requires
        (RoutingStrategy::<E, W>::Classifier {
            classifier,
            confidence_threshold: threshold,
        }).is_routed(similarity, softmax, query, category, score),
        forall|readings: Vec<Reading>|
            call_ensures(softmax, (&classifier.weights(), &classifier.bias(), &query), readings)
                ==> readings@.len() == classifier.labels().len(),
    ensures
        exists|readings: Vec<Reading>, t: int|
            0 <= t < classifier.labels().len() && {
                &&& call_ensures(
                    softmax,
                    (&classifier.weights(), &classifier.bias(), &query),
                    readings,
                )
                &&& score == (#[trigger] readings@[t]).share
                &&& category == if score.reaches(threshold) {
                    Some(classifier.labels()[t])
                } else {
                    None
                }
                &&& forall|j: int|
                    0 <= j < readings@.len() && (#[trigger] readings@[j]).exponential.exceeds(
                        Score::spec_lowest(),
                    ) ==> readings@[t].exponential.reaches(readings@[j].exponential)
                &&& forall|j: int|
                    0 <= j < t ==> !readings@[j].exponential.reaches(
                        (#[trigger] readings@[j]).exponential,
                    ) || readings@[t].exponential.exceeds(readings@[j].exponential)
                &&& (forall|j: int|
                    0 <= j < readings@.len() ==> !(#[trigger] readings@[j]).exponential.exceeds(
                        Score::spec_lowest(),
                    )) ==> t == 0
            },
{
    let readings = choose|readings: Vec<Reading>| #[trigger]
        call_ensures(softmax, (&classifier.weights(), &classifier.bias(), &query), readings)
            && follows_prediction(category, score, classifier.labels(), readings@, threshold);
    let label = choose|label: Seq<char>| #[trigger]
        is_prediction(label, score, classifier.labels(), readings@) && category
            == if score.reaches(threshold) {
            Some(label)
        } else {
            None
        };
    let t = choose|t: int| #[trigger]
        wins(readings@, t) && label == classifier.labels()[t] && score == readings@[t].share;
    assert(score == readings@[t].share);
}

/// Given the best score of each category, the decision is the first of the
/// greatest, NaNs left aside, and its category is given where it reaches the
/// threshold. A NaN for the first category withholds every category. Without a
/// category the score is zero.
pub proof fn law_decision_follows_the_best_scores(
    category: Option<Seq<char>>,
    score: Score,
    names: Seq<Seq<char>>,
    best: Seq<Score>,
    threshold: Score,
)
    requires
        best.len() == names.len(),
        is_decision(category, score, names, best, threshold),
    ensures
        names.len() == 0 ==> category is None && score.bits == 0,
        names.len() > 0 && best[0].is_nan() ==> category is None && score == best[0],
        names.len() > 0 && !best[0].is_nan() ==> exists|b: int|
            0 <= b < names.len() && {
                &&& score == #[trigger] best[b]
                &&& category == if score.reaches(threshold) {
                    Some(names[b])
                } else {
                    None
                }
                &&& forall|j: int|
                    0 <= j < best.len() && !(#[trigger] best[j]).is_nan() ==> score.reaches(best[j])
                &&& forall|j: int|
                    0 <= j < b && !(#[trigger] best[j]).is_nan() ==> score.exceeds(best[j])
            },
{
    if names.len() > 0 {
        let b = choose|b: int| #[trigger]
            leads(best, b) && score == best[b] && category == if best[b].reaches(threshold) {
                Some(names[b])
            } else {
                None
            };
        assert(score == best[b]);
    }
}

/// Embeddings are rated one for one: each has the score that the similarity
/// answers for the query and it.
pub proof fn law_embeddings_are_rated_one_for_one<E, F: Fn(&E, &E) -> Score>(
    similarity: F,
    query: E,
    embeddings: Seq<E>,
    scores: Seq<Score>,
)
    requires
        rated(similarity, query, embeddings, scores),
    ensures
        scores.len() == embeddings.len(),
        forall|j: int|
            0 <= j < embeddings.len() ==> call_ensures(
                similarity,
                (&query, &(#[trigger] embeddings[j])),
                scores[j],
            ),
{
}

} // verus!
