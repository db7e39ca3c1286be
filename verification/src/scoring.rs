//! From a pool to a score: feature extraction and scoring backends.
//!
//! A backend turns the feature vector of a pool into a score, or fails for
//! that pool alone. The heuristic backend is part of this library; a backend
//! around a trained model lives with the caller and implements the same trait.

use vstd::prelude::*;
use crate::score::{Score, SCORE_UNITS_PER_ONE};
use crate::snapshot::{DexData, Pool};

verus! {

/// Length of the feature vector of a pool.
pub const FEATURE_COUNT: usize = 3;

/// What a fee of 100% amounts to: fees count ten-thousandths.
pub const FEE_SCALE: u64 = 10_000;

/// The reserves that give a fee-free pool a score of one.
pub const RESERVE_SCALE: u64 = 1_000_000;

/// The features of a pool, in their fixed order: first reserve, second
/// reserve, fee.
pub open spec fn features_of(pool: Pool) -> Seq<u64> {
    seq![pool.reserve0, pool.reserve1, pool.fee]
}

/// The feature vector of a pool. Defined for every pool, and exact.
pub fn pool_to_features(pool: &Pool) -> (features: Vec<u64>)
    ensures
        features@ == features_of(*pool),
{
    let mut features: Vec<u64> = Vec::new();
    features.push(pool.reserve0);
    features.push(pool.reserve1);
    features.push(pool.fee);
    features
}

/// Why a backend gave no score for one pool.
#[derive(Debug, Clone, PartialEq, Eq)]
pub enum ScoringError {
    /// The feature vector has another length than the backend works on.
    WrongLength { expected: usize, actual: usize },
    /// The backend failed on this vector; the text says how.
    Backend(String),
}

/// Something that scores feature vectors.
pub trait ScoringBackend {
    /// Which outcomes the backend may give for a feature vector. A backend
    /// that says nothing here promises nothing.
    open spec fn may_score(&self, features: Seq<u64>, outcome: Result<Score, ScoringError>) -> bool {
        true
    }

    /// Scores one feature vector, or fails for this vector alone.
    fn score(&self, features: &Vec<u64>) -> (outcome: Result<Score, ScoringError>)
        ensures
            self.may_score(features@, outcome),
    ;
}

/// The heuristic score in units: `(reserve0 + reserve1) * (FEE_SCALE - fee)`.
///
/// Divided by `SCORE_UNITS_PER_ONE`, this is the reserves in units of
/// `RESERVE_SCALE`, times the part of a trade that the fee leaves.
pub open spec fn heuristic_units(reserve0: u64, reserve1: u64, fee: u64) -> int {
    (reserve0 + reserve1) * (FEE_SCALE - fee)
}

/// What the heuristic gives for a feature vector: the heuristic score where
/// the vector has `FEATURE_COUNT` entries, and `WrongLength` where it has not.
pub open spec fn heuristic_outcome(features: Seq<u64>) -> Result<Score, ScoringError> {
    if features.len() == FEATURE_COUNT {
        Ok(Score::of(heuristic_units(features[0], features[1], features[2])))
    } else {
        Err(ScoringError::WrongLength { expected: FEATURE_COUNT, actual: features.len() as usize })
    }
}

/// What the heuristic gives for each pool of a list.
pub open spec fn heuristic_outcomes(pools: Seq<Pool>) -> Seq<Result<Score, ScoringError>> {
    Seq::new(pools.len(), |i: int| heuristic_outcome(features_of(pools[i])))
}

/// Whether `outcomes` may come of scoring each pool of `pools` with
/// `backend`: one outcome for each pool, in the same order.
pub open spec fn scored_by<B: ScoringBackend>(
    backend: B,
    pools: Seq<Pool>,
    outcomes: Seq<Result<Score, ScoringError>>,
) -> bool {
    &&& outcomes.len() == pools.len()
    &&& forall|i: int|
        0 <= i < outcomes.len() ==> backend.may_score(features_of(pools[i]), #[trigger] outcomes[i])
}

/// The heuristic score of a pool with the given reserves and fee.
///
/// More reserves score higher, a higher fee scores lower, and a pool without
/// reserves scores zero. A fee above `FEE_SCALE` gives a score below zero.
pub fn heuristic_score(reserve0: u64, reserve1: u64, fee: u64) -> (score: Score)
    ensures
        score.units() == heuristic_units(reserve0, reserve1, fee),
        score == Score::of(heuristic_units(reserve0, reserve1, fee)),
{
    let score = if fee <= FEE_SCALE {
        let kept: u128 = (FEE_SCALE - fee) as u128;
        let total: u128 = reserve0 as u128 + reserve1 as u128;
        assert(total * kept <= u128::MAX) by (nonlinear_arith)
            requires
                total <= 0x1_ffff_ffff_ffff_fffe,
                kept <= 10_000,
        ;
        Score::from_product(total, kept)
    } else {
        let excess: u128 = (fee - FEE_SCALE) as u128;
        assert(reserve0 * excess <= u128::MAX && reserve1 * excess <= u128::MAX) by (nonlinear_arith)
            requires
                reserve0 <= 0xffff_ffff_ffff_ffff,
                reserve1 <= 0xffff_ffff_ffff_ffff,
                excess <= 0xffff_ffff_ffff_ffff,
        ;
        let part0: u128 = reserve0 as u128 * excess;
        let part1: u128 = reserve1 as u128 * excess;
        assert(-(part0 + part1) == (reserve0 + reserve1) * (FEE_SCALE - fee)) by (nonlinear_arith)
            requires
                part0 == reserve0 * excess,
                part1 == reserve1 * excess,
                excess == fee - FEE_SCALE,
        ;
        Score::negated_sum(part0, part1)
    };
    proof {
        crate::score::lemma_score_of_units(score);
    }
    score
}

/// Scores by reserves and fee alone; needs no model.
#[derive(Debug, Clone, Copy)]
pub struct HeuristicBackend;

impl ScoringBackend for HeuristicBackend {
    open spec fn may_score(&self, features: Seq<u64>, outcome: Result<Score, ScoringError>) -> bool {
        outcome == heuristic_outcome(features)
    }

    /// Gives a score for every vector of `FEATURE_COUNT` entries, and
    /// `WrongLength` for any other.
    fn score(&self, features: &Vec<u64>) -> (outcome: Result<Score, ScoringError>)
        ensures
            outcome == heuristic_outcome(features@),
    {
        if features.len() == FEATURE_COUNT {
            Ok(heuristic_score(features[0], features[1], features[2]))
        } else {
            Err(ScoringError::WrongLength { expected: FEATURE_COUNT, actual: features.len() })
        }
    }
}

/// Scores every pool of the snapshot once, in snapshot order. A pool on which
/// the backend fails keeps its place in the result, with the error.
pub fn score_pools<B: ScoringBackend>(data: &DexData, backend: &B) -> (outcomes: Vec<
    Result<Score, ScoringError>,
>)
    ensures
        scored_by(*backend, data.pools@, outcomes@),
{
    let mut outcomes: Vec<Result<Score, ScoringError>> = Vec::new();
    let mut index: usize = 0;
    while index < data.pools.len()
        invariant
            index <= data.pools@.len(),
            outcomes@.len() == index,
            forall|i: int|
                0 <= i < index ==> backend.may_score(
                    features_of(data.pools@[i]),
                    #[trigger] outcomes@[i],
                ),
        decreases data.pools@.len() - index,
    {
        let features = pool_to_features(&data.pools[index]);
        let outcome = backend.score(&features);
        outcomes.push(outcome);
        index += 1;
    }
    outcomes
}

/// The heuristic is a function of the feature vector: whatever it gives for
/// one vector, it gives every time.
pub proof fn lemma_heuristic_is_pure(
    features: Seq<u64>,
    first: Result<Score, ScoringError>,
    second: Result<Score, ScoringError>,
)
    requires
        HeuristicBackend.may_score(features, first),
        HeuristicBackend.may_score(features, second),
    ensures
        first == second,
{
}

/// The heuristic never fails on the features of a pool; the score is
/// `heuristic_units` of its reserves and fee, and zero without reserves.
pub proof fn lemma_heuristic_scores_every_pool(pool: Pool)
    ensures
        heuristic_outcome(features_of(pool)) is Ok,
        heuristic_outcome(features_of(pool))->Ok_0.units() == heuristic_units(
            pool.reserve0,
            pool.reserve1,
            pool.fee,
        ),
        pool.liquidity() == 0 ==> heuristic_outcome(features_of(pool))->Ok_0.units() == 0,
{
    let units: int = heuristic_units(pool.reserve0, pool.reserve1, pool.fee);
    lemma_heuristic_units_fit(pool.reserve0, pool.reserve1, pool.fee);
    crate::score::lemma_units_of_score(units);
    assert(pool.liquidity() == 0 ==> units == 0) by (nonlinear_arith)
        requires
            pool.liquidity() == pool.reserve0 + pool.reserve1,
            units == (pool.reserve0 + pool.reserve1) * (FEE_SCALE - pool.fee),
    ;
}

/// The heuristic score of any pool is within what a score can hold.
pub proof fn lemma_heuristic_units_fit(reserve0: u64, reserve1: u64, fee: u64)
    ensures
        crate::score::fits_score(heuristic_units(reserve0, reserve1, fee)),
{
    let total: int = reserve0 + reserve1;
    let kept: int = FEE_SCALE - fee;
    assert(-0x2_0000_0000_0000_0000_0000_0000_0000_0000int <= total * kept
        <= 0x2_0000_0000_0000_0000_0000int) by (nonlinear_arith)
        requires
            0 <= total <= 0x1_ffff_ffff_ffff_fffe,
            -0xffff_ffff_ffff_ffff <= kept <= 10_000,
    ;
}

/// A score unit is one part in `FEE_SCALE * RESERVE_SCALE`: the heuristic
/// score, in units, needs no division.
pub proof fn lemma_score_unit_clears_both_scales()
    ensures
        SCORE_UNITS_PER_ONE == FEE_SCALE * RESERVE_SCALE,
{
}

} // verus!
