//! Scores: single-precision numbers, held as their bit patterns.
//!
//! A score is only ever compared here. The arithmetic that produces one works
//! on `f32` and lies outside; `f32::to_bits` and `f32::from_bits` lead from
//! one side to the other without loss.
use core::cmp::Ordering;
use vstd::prelude::*;

verus! {

/// The bit pattern of an IEEE 754 single-precision number, ordered as the
/// number is: the two zeros are equal, and a NaN compares to nothing.
#[derive(Debug, Clone, Copy)]
pub struct Score {
    pub bits: u32,
}

impl Score {
    /// The bits without the sign.
    pub open spec fn magnitude(self) -> int {
        if self.bits < 0x8000_0000 {
            self.bits as int
        } else {
            self.bits - 0x8000_0000
        }
    }

    /// Whether the pattern is not a number.
    pub open spec fn is_nan(self) -> bool {
        self.magnitude() > 0x7f80_0000
    }

    /// The place of the number among all numbers: greater numbers have greater
    /// ranks, and both zeros have rank 0.
    pub open spec fn rank(self) -> int {
        if self.bits < 0x8000_0000 {
            self.magnitude()
        } else {
            -self.magnitude()
        }
    }

    /// `self > other`, as numbers.
    pub open spec fn exceeds(self, other: Score) -> bool {
        !self.is_nan() && !other.is_nan() && self.rank() > other.rank()
    }

    /// `self >= other`, as numbers.
    pub open spec fn reaches(self, other: Score) -> bool {
        !self.is_nan() && !other.is_nan() && self.rank() >= other.rank()
    }

    /// Zero, in specifications.
    pub open spec fn spec_zero() -> Score {
        Score { bits: 0 }
    }

    /// The least finite score, in specifications.
    pub open spec fn spec_lowest() -> Score {
        Score { bits: LOWEST_BITS }
    }

    /// Zero.
    #[verifier::when_used_as_spec(spec_zero)]
    pub fn zero() -> (score: Score)
        ensures
            score == Score::spec_zero(),
    {
        Score { bits: 0 }
    }

    /// The least finite score.
    #[verifier::when_used_as_spec(spec_lowest)]
    pub fn lowest() -> (score: Score)
        ensures
            score == Score::spec_lowest(),
    {
        Score { bits: LOWEST_BITS }
    }

    /// The score with the given bit pattern.
    pub fn from_bits(bits: u32) -> (score: Score)
        ensures
            score.bits == bits,
    {
        Score { bits }
    }

    /// The bit pattern of the score.
    pub fn to_bits(self) -> (bits: u32)
        ensures
            bits == self.bits,
    {
        self.bits
    }
}

/// The bit pattern of `f32::MIN`, the least finite number.
pub const LOWEST_BITS: u32 = 0xff7f_ffff;

impl PartialEq for Score {
    fn eq(&self, other: &Score) -> (equal: bool) {
        if nan(self.bits) || nan(other.bits) {
            false
        } else {
            signed(self.bits) == signed(other.bits)
        }
    }
}

impl vstd::std_specs::cmp::PartialEqSpecImpl for Score {
    open spec fn obeys_eq_spec() -> bool {
        true
    }

    open spec fn eq_spec(&self, other: &Score) -> bool {
        !self.is_nan() && !other.is_nan() && self.rank() == other.rank()
    }
}

impl PartialOrd for Score {
    fn partial_cmp(&self, other: &Score) -> (order: Option<Ordering>) {
        if nan(self.bits) || nan(other.bits) {
            None
        } else if signed(self.bits) < signed(other.bits) {
            Some(Ordering::Less)
        } else if signed(self.bits) > signed(other.bits) {
            Some(Ordering::Greater)
        } else {
            Some(Ordering::Equal)
        }
    }
}

impl vstd::std_specs::cmp::PartialOrdSpecImpl for Score {
    open spec fn obeys_partial_cmp_spec() -> bool {
        true
    }

    open spec fn partial_cmp_spec(&self, other: &Score) -> Option<Ordering> {
        if self.is_nan() || other.is_nan() {
            None
        } else if self.rank() < other.rank() {
            Some(Ordering::Less)
        } else if self.rank() > other.rank() {
            Some(Ordering::Greater)
        } else {
            Some(Ordering::Equal)
        }
    }
}

/// Whether a bit pattern is not a number.
fn nan(bits: u32) -> (b: bool)
    ensures
        b == (Score { bits }).is_nan(),
{
    let magnitude: u32 = if bits < 0x8000_0000 { bits } else { bits - 0x8000_0000 };
    magnitude > 0x7f80_0000
}

/// The rank of a bit pattern.
fn signed(bits: u32) -> (rank: i64)
    ensures
        rank == (Score { bits }).rank(),
{
    if bits < 0x8000_0000 {
        bits as i64
    } else {
        -((bits - 0x8000_0000) as i64)
    }
}

/// A total order on what is not NaN: of two numbers one reaches the other,
/// and a number that exceeds another is not reached by it.
pub proof fn law_numbers_are_totally_ordered(a: Score, b: Score)
    requires
        !a.is_nan(),
        !b.is_nan(),
    ensures
        a.reaches(b) || b.reaches(a),
        a.exceeds(b) <==> !b.reaches(a),
{
}

/// Whether `b` is the number of the leading score: the first of the greatest,
/// NaNs left aside. A NaN at the front is never overtaken.
pub open spec fn leads(scores: Seq<Score>, b: int) -> bool {
    &&& 0 <= b < scores.len()
    &&& if scores[0].is_nan() {
        b == 0
    } else {
        &&& !scores[b].is_nan()
        &&& forall|j: int|
            0 <= j < scores.len() && !(#[trigger] scores[j]).is_nan() ==> scores[b].reaches(scores[j])
        &&& forall|j: int|
            0 <= j < b && !(#[trigger] scores[j]).is_nan() ==> scores[b].exceeds(scores[j])
    }
}

/// The number of the leading score.
pub fn leader(scores: &Vec<Score>) -> (best: Option<usize>)
    ensures
        match best {
            Some(b) => leads(scores@, b as int),
            None => scores@.len() == 0,
        },
{
    if scores.len() == 0 {
        return None;
    }
    let mut best: usize = 0;
    let mut i: usize = 1;
    assert(leads(scores@.take(1), 0));
    while i < scores.len()
        invariant
            1 <= i <= scores.len(),
            leads(scores@.take(i as int), best as int),
        decreases scores.len() - i,
    {
        let ghost seen = scores@.take(i as int);
        let ghost next = scores@.take(i + 1);
        assert(forall|j: int| 0 <= j < i ==> next[j] == seen[j]);
        assert(next[i as int] == scores@[i as int]);
        if scores[i] > scores[best] {
            best = i;
        }
        i = i + 1;
    }
    assert(scores@.take(i as int) =~= scores@);
    Some(best)
}

/// No list has two leading scores.
pub proof fn law_leader_is_unique(scores: Seq<Score>, a: int, b: int)
    requires
        leads(scores, a),
        leads(scores, b),
    ensures
        a == b,
{
    assert(scores[a].reaches(scores[b]) || scores[0].is_nan());
    assert(scores[b].reaches(scores[a]) || scores[0].is_nan());
}

/// The greatest of the scores and the least finite one, NaNs left aside.
pub open spec fn peak(scores: Seq<Score>) -> Score
    decreases scores.len(),
{
    if scores.len() == 0 {
        Score::spec_lowest()
    } else {
        let before = peak(scores.drop_last());
        if scores.last().exceeds(before) {
            scores.last()
        } else {
            before
        }
    }
}

/// A peak is a number, and no score exceeds it.
pub proof fn law_peak_bounds_every_score(scores: Seq<Score>)
    ensures
        !peak(scores).is_nan(),
        peak(scores).reaches(Score::spec_lowest()),
        forall|j: int|
            0 <= j < scores.len() && !(#[trigger] scores[j]).is_nan() ==> peak(scores).reaches(
                scores[j],
            ),
        peak(scores) == Score::spec_lowest() || scores.contains(peak(scores)),
    decreases scores.len(),
{
    if scores.len() > 0 {
        let rest = scores.drop_last();
        law_peak_bounds_every_score(rest);
        assert forall|j: int| 0 <= j < scores.len() && !(#[trigger] scores[j]).is_nan() implies peak(
            scores,
        ).reaches(scores[j]) by {
            if j < rest.len() {
                assert(rest[j] == scores[j]);
            }
        }
        if scores.last().exceeds(peak(rest)) {
            assert(scores[scores.len() - 1] == peak(scores));
        } else if rest.contains(peak(rest)) {
            let k = choose|k: int| 0 <= k < rest.len() && rest[k] == peak(rest);
            assert(scores[k] == peak(rest));
        }
    }
}

/// Scores compare as their bit patterns say. A pattern whose exponent is all
/// ones and whose fraction is not zero is no number and compares to nothing. Of
/// two numbers without a sign bit the one with the greater pattern is greater,
/// of two with a sign bit the one with the lesser pattern, and one without is
/// greater than one with it, unless both are zero.
pub proof fn law_scores_compare_by_sign_and_pattern(a: Score, b: Score)
    ensures
        a.is_nan() <==> 0x7f80_0000 < a.bits < 0x8000_0000 || 0xff80_0000 < a.bits,
        a.is_nan() || b.is_nan() ==> !a.exceeds(b) && !a.reaches(b),
        !a.is_nan() && !b.is_nan() ==> {
            &&& a.reaches(b) <==> !b.exceeds(a)
            &&& a.bits < 0x8000_0000 && b.bits < 0x8000_0000 ==> (a.exceeds(b) <==> a.bits > b.bits)
            &&& a.bits >= 0x8000_0000 && b.bits >= 0x8000_0000 ==> (a.exceeds(b) <==> a.bits
                < b.bits)
            &&& a.bits < 0x8000_0000 && b.bits >= 0x8000_0000 ==> {
                &&& !b.exceeds(a)
                &&& a.exceeds(b) <==> a.bits != 0 || b.bits != 0x8000_0000
            }
        },
        Score::spec_zero().bits == 0,
        Score::spec_lowest().bits == 0xff7f_ffff,
{
}

/// The comparison operators follow `exceeds` and `reaches`.
pub proof fn law_operators_follow_the_numbers(a: Score, b: Score)
    ensures
        vstd::std_specs::cmp::PartialOrdSpec::partial_cmp_spec(&a, &b) == Some(Ordering::Greater)
            <==> a.exceeds(b),
        vstd::std_specs::cmp::PartialOrdSpec::partial_cmp_spec(&a, &b) == Some(Ordering::Less)
            <==> b.exceeds(a),
        vstd::std_specs::cmp::PartialOrdSpec::partial_cmp_spec(&a, &b) == Some(Ordering::Equal)
            <==> a.reaches(b) && b.reaches(a),
        vstd::std_specs::cmp::PartialEqSpec::eq_spec(&a, &b) <==> a.reaches(b) && b.reaches(a),
{
}

/// A list that is not empty has a leading score. Unless the first score is no
/// number, the leading one is a number that reaches every number of the list and
/// exceeds every number before it; else it is the first.
pub proof fn law_leader_is_the_first_of_the_greatest(scores: Seq<Score>)
    requires
        scores.len() > 0,
    ensures
        exists|b: int| leads(scores, b),
        forall|b: int| #[trigger]
            leads(scores, b) ==> {
                &&& 0 <= b < scores.len()
                &&& scores[0].is_nan() ==> b == 0
                &&& !scores[0].is_nan() ==> {
                    &&& !scores[b].is_nan()
                    &&& forall|j: int|
                        0 <= j < scores.len() && !(#[trigger] scores[j]).is_nan()
                            ==> scores[b].reaches(scores[j])
                    &&& forall|j: int|
                        0 <= j < b && !(#[trigger] scores[j]).is_nan() ==> scores[b].exceeds(
                            scores[j],
                        )
                }
            },
    decreases scores.len(),
{
    if scores.len() == 1 {
        assert(leads(scores, 0));
    } else {
        let rest = scores.drop_last();
        law_leader_is_the_first_of_the_greatest(rest);
        let b = choose|b: int| leads(rest, b);
        assert(leads(rest, b));
        assert(forall|j: int| 0 <= j < rest.len() ==> rest[j] == scores[j]);
        if scores.last().exceeds(scores[b]) {
            assert(leads(scores, scores.len() - 1));
        } else {
            assert(leads(scores, b));
        }
    }
}

} // verus!
