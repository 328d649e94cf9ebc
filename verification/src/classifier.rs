//! A linear probe over embeddings.
use crate::score::Score;
use crate::text::texts;
use vstd::prelude::*;

verus! {

/// What the softmax over the logits gives for one label.
#[derive(Debug, Clone, Copy)]
pub struct Reading {
    /// The exponential of the label's logit less the greatest logit.
    pub exponential: Score,
    /// The share of that exponential in the sum of all of them.
    pub share: Score,
}

/// Why weights make no classifier.
#[derive(Debug, Clone, Copy, PartialEq, Eq, Structural)]
pub enum ClassifierError {
    /// There are not as many weight rows, or not as many biases, as labels.
    LengthMismatch,
    /// The weight rows differ in length.
    DimensionMismatch,
}

impl ClassifierError {
    /// The error in words.
    pub open spec fn spec_message(self) -> Seq<char> {
        match self {
            ClassifierError::LengthMismatch =>
                "classifier weights file has mismatched labels/weights/bias lengths"@,
            ClassifierError::DimensionMismatch =>
                "classifier weights file has inconsistent embedding dimensions across labels"@,
        }
    }

    /// The error in words.
    pub fn message(&self) -> (text: &'static str)
        ensures
            text@ == self.spec_message(),
    {
        match self {
            ClassifierError::LengthMismatch =>
                "classifier weights file has mismatched labels/weights/bias lengths",
            ClassifierError::DimensionMismatch =>
                "classifier weights file has inconsistent embedding dimensions across labels",
        }
    }
}

/// A linear probe (logistic regression: one row of weights and a bias per
/// label, softmax over the logits) on frozen embeddings. An alternative to
/// routing by similarity.
pub struct Classifier<W> {
    labels: Vec<String>,
    weights: Vec<Vec<W>>,
    bias: Vec<W>,
}

/// Whether there is a weight row and a bias for each label.
pub open spec fn lengths_match<W>(labels: Seq<String>, weights: Seq<Vec<W>>, bias: Seq<W>) -> bool {
    weights.len() == labels.len() && bias.len() == labels.len()
}

/// Whether all weight rows have the same length.
pub open spec fn rows_match<W>(weights: Seq<Vec<W>>) -> bool {
    forall|i: int|
        0 <= i < weights.len() ==> (#[trigger] weights[i])@.len() == weights[0]@.len()
}

/// Whether `t` is the number of the winning reading: the first of those with
/// the greatest exponential, NaNs left aside, and the first of all where no
/// exponential exceeds the least finite score.
pub open spec fn wins(readings: Seq<Reading>, t: int) -> bool {
    &&& 0 <= t < readings.len()
    &&& if forall|j: int|
        0 <= j < readings.len() ==> !(#[trigger] readings[j]).exponential.exceeds(
            Score::spec_lowest(),
        ) {
        t == 0
    } else {
        &&& readings[t].exponential.exceeds(Score::spec_lowest())
        &&& forall|j: int|
            0 <= j < readings.len() && !(#[trigger] readings[j]).exponential.is_nan()
                ==> readings[t].exponential.reaches(readings[j].exponential)
        &&& forall|j: int|
            0 <= j < t && !(#[trigger] readings[j]).exponential.is_nan()
                ==> readings[t].exponential.exceeds(readings[j].exponential)
    }
}

/// Whether a label and a confidence are what the readings call for: the label
/// of the winning reading and its share.
pub open spec fn is_prediction(
    label: Seq<char>,
    confidence: Score,
    labels: Seq<Seq<char>>,
    readings: Seq<Reading>,
) -> bool {
    exists|t: int| #[trigger]
        wins(readings, t) && label == labels[t] && confidence == readings[t].share
}

impl<W> Classifier<W> {
    /// The labels.
    pub closed spec fn labels(&self) -> Seq<Seq<char>> {
        texts(self.labels@)
    }

    /// The weight rows.
    pub closed spec fn weights(&self) -> Vec<Vec<W>> {
        self.weights
    }

    /// The biases.
    pub closed spec fn bias(&self) -> Vec<W> {
        self.bias
    }

    /// Whether there is a weight row and a bias for each label, and all rows
    /// have the same length.
    pub open spec fn well_formed(&self) -> bool {
        &&& self.weights()@.len() == self.labels().len()
        &&& self.bias()@.len() == self.labels().len()
        &&& rows_match(self.weights()@)
    }

    /// A classifier with the given parameters, if their sizes agree.
    pub fn from_parts(labels: Vec<String>, weights: Vec<Vec<W>>, bias: Vec<W>) -> (made: Result<
        Self,
        ClassifierError,
    >)
        ensures
            match made {
                Ok(classifier) => {
                    &&& lengths_match(labels@, weights@, bias@) && rows_match(weights@)
                    &&& classifier.labels() == texts(labels@)
                    &&& classifier.weights() == weights
                    &&& classifier.bias() == bias
                    &&& classifier.well_formed()
                },
                Err(ClassifierError::LengthMismatch) => !lengths_match(labels@, weights@, bias@),
                Err(ClassifierError::DimensionMismatch) => {
                    &&& lengths_match(labels@, weights@, bias@)
                    &&& !rows_match(weights@)
                },
            },
    {
        if weights.len() != labels.len() || bias.len() != labels.len() {
            return Err(ClassifierError::LengthMismatch);
        }
        let mut i: usize = 0;
        while i < weights.len()
            invariant
                0 <= i <= weights.len(),
                forall|k: int| 0 <= k < i ==> (#[trigger] weights@[k])@.len() == weights@[0]@.len(),
                lengths_match(labels@, weights@, bias@),
            decreases weights.len() - i,
        {
            if weights[i].len() != weights[0].len() {
                return Err(ClassifierError::DimensionMismatch);
            }
            i = i + 1;
        }
        Ok(Classifier { labels, weights, bias })
    }

    /// The label of the winning reading and its share, given a reading for each
    /// label.
    pub fn pick(&self, readings: &Vec<Reading>) -> (prediction: (String, Score))
        requires
            readings@.len() == self.labels().len(),
            self.labels().len() > 0,
        ensures
            is_prediction(prediction.0@, prediction.1, self.labels(), readings@),
    {
        let mut best: usize = 0;
        let mut top: Score = Score::lowest();
        let mut i: usize = 0;
        while i < readings.len()
            invariant
                0 <= i <= readings.len(),
                0 < readings.len(),
                0 <= best < readings.len(),
                top == Score::spec_lowest() ==> best == 0 && forall|j: int|
                    0 <= j < i ==> !(#[trigger] readings@[j]).exponential.exceeds(
                        Score::spec_lowest(),
                    ),
                top != Score::spec_lowest() ==> {
                    &&& best < i
                    &&& top == readings@[best as int].exponential
                    &&& top.exceeds(Score::spec_lowest())
                    &&& forall|j: int|
                        0 <= j < i && !(#[trigger] readings@[j]).exponential.is_nan()
                            ==> top.reaches(readings@[j].exponential)
                    &&& forall|j: int|
                        0 <= j < best && !(#[trigger] readings@[j]).exponential.is_nan()
                            ==> top.exceeds(readings@[j].exponential)
                },
            decreases readings.len() - i,
        {
            if readings[i].exponential > top {
                best = i;
                top = readings[i].exponential;
            }
            i = i + 1;
        }
        assert(wins(readings@, best as int));
        assert(self.labels()[best as int] == self.labels@[best as int]@);
        (self.labels[best].clone(), readings[best].share)
    }

    /// The predicted label and its softmax probability. `softmax` takes the
    /// weights, the biases and the embedding to a reading for each label.
    pub fn predict<E, G: Fn(&Vec<Vec<W>>, &Vec<W>, &E) -> Vec<Reading>>(
        &self,
        embedding: &E,
        softmax: &G,
    ) -> (prediction: (String, Score))
        requires
            self.labels().len() > 0,
            call_requires(*softmax, (&self.weights(), &self.bias(), embedding)),
            forall|readings: Vec<Reading>|
                call_ensures(*softmax, (&self.weights(), &self.bias(), embedding), readings)
                    ==> readings@.len() == self.labels().len(),
        ensures
            exists|readings: Vec<Reading>| #[trigger]
                call_ensures(*softmax, (&self.weights(), &self.bias(), embedding), readings)
                    && is_prediction(prediction.0@, prediction.1, self.labels(), readings@),
    {
        let readings = softmax(&self.weights, &self.bias, embedding);
        self.pick(&readings)
    }
}

/// The readings call for one label: there is no second winner.
pub proof fn law_winner_is_unique(readings: Seq<Reading>, a: int, b: int)
    requires
        wins(readings, a),
        wins(readings, b),
    ensures
        a == b,
{
    if a < b {
        assert(readings[a].exponential.reaches(readings[b].exponential));
    }
    if b < a {
        assert(readings[b].exponential.reaches(readings[a].exponential));
    }
}

/// A prediction is one of the labels, with the share of its own reading, and its
/// exponential reaches every exponential above the least finite score, and
/// exceeds those before it. This leaves out none but NaNs: an exponential is
/// never negative.
pub proof fn law_prediction_is_the_best_label(
    label: Seq<char>,
    confidence: Score,
    labels: Seq<Seq<char>>,
    readings: Seq<Reading>,
)
    requires
        readings.len() == labels.len(),
        is_prediction(label, confidence, labels, readings),
    ensures
        exists|t: int|
            0 <= t < labels.len() && #[trigger] labels[t] == label && confidence
                == readings[t].share && forall|j: int|
                0 <= j < readings.len() && (#[trigger] readings[j]).exponential.exceeds(
                    Score::spec_lowest(),
                ) ==> {
                    &&& readings[t].exponential.reaches(readings[j].exponential)
                    &&& j < t ==> readings[t].exponential.exceeds(readings[j].exponential)
                },
{
    let t = choose|t: int| #[trigger]
        wins(readings, t) && label == labels[t] && confidence == readings[t].share;
    assert(labels[t] == label);
}

/// The first of the greatest readings wins: its exponential is a number that
/// reaches every exponential of the others that is a number, and exceeds those
/// before it. Where no exponential is above the least finite number, the first
/// reading wins. Nothing but a reading wins.
pub proof fn law_winner_is_the_first_of_the_greatest(readings: Seq<Reading>, t: int)
    requires
        wins(readings, t),
    ensures
        0 <= t < readings.len(),
        (exists|j: int|
            0 <= j < readings.len() && (#[trigger] readings[j]).exponential.exceeds(
                Score::spec_lowest(),
            )) ==> {
            &&& !readings[t].exponential.is_nan()
            &&& forall|j: int|
                0 <= j < readings.len() && !(#[trigger] readings[j]).exponential.is_nan()
                    ==> readings[t].exponential.reaches(readings[j].exponential)
            &&& forall|j: int|
                0 <= j < t && !(#[trigger] readings[j]).exponential.is_nan()
                    ==> readings[t].exponential.exceeds(readings[j].exponential)
        },
        t == 0 || readings[t].exponential.exceeds(Score::spec_lowest()),
{
}

/// Parts fit together exactly where there are as many weight rows and as many
/// biases as labels, and any two weight rows have the same length.
pub proof fn law_parts_fit_where_their_sizes_agree<W>(
    labels: Seq<String>,
    weights: Seq<Vec<W>>,
    bias: Seq<W>,
)
    ensures
        lengths_match(labels, weights, bias) <==> weights.len() == labels.len() && bias.len()
            == labels.len(),
        rows_match(weights) <==> forall|i: int, j: int|
            0 <= i < weights.len() && 0 <= j < weights.len() ==> (#[trigger] weights[i])@.len() == (
            #[trigger] weights[j])@.len(),
{
    if !rows_match(weights) {
        let i = choose|i: int|
            0 <= i < weights.len() && (#[trigger] weights[i])@.len() != weights[0]@.len();
        assert(weights[i]@.len() != weights[0]@.len());
    }
}

} // verus!
