//! Ranking pools by score.
//!
//! The ranking of a snapshot lists every scored pool once, highest score
//! first; pools with the same score stay in snapshot order. Pools without a
//! score are listed apart, with the reason, in snapshot order.

use vstd::prelude::*;
use crate::score::Score;
use crate::scoring::ScoringError;

verus! {

/// A pool of the snapshot, named by its position, and its score.
#[derive(Debug, Clone, Copy, PartialEq, Eq)]
pub struct ScoredPool {
    pub score: Score,
    pub index: usize,
}

/// A pool of the snapshot that got no score, and why.
#[derive(Debug, Clone, PartialEq, Eq)]
pub struct SkippedPool {
    pub index: usize,
    pub error: ScoringError,
}

/// The pools of a snapshot by score, and the pools that have none.
#[derive(Debug, Clone, PartialEq, Eq)]
pub struct Ranking {
    pub ranked: Vec<ScoredPool>,
    pub skipped: Vec<SkippedPool>,
}

/// The order of a ranking: the higher score first, and of two equal scores
/// the pool that the snapshot lists first.
pub open spec fn ranks_before(first: ScoredPool, second: ScoredPool) -> bool {
    first.score.units() > second.score.units() || (first.score.units() == second.score.units()
        && first.index < second.index)
}

/// Each entry names a pool that was scored, with the score it got.
pub open spec fn ranked_are_scored(
    ranked: Seq<ScoredPool>,
    outcomes: Seq<Result<Score, ScoringError>>,
) -> bool {
    forall|k: int|
        0 <= k < ranked.len() ==> (#[trigger] ranked[k]).index < outcomes.len()
            && outcomes[ranked[k].index as int] == Ok::<Score, ScoringError>(ranked[k].score)
}

/// Each pool that was scored has an entry.
pub open spec fn scored_are_ranked(
    ranked: Seq<ScoredPool>,
    outcomes: Seq<Result<Score, ScoringError>>,
) -> bool {
    forall|i: int|
        0 <= i < outcomes.len() && (#[trigger] outcomes[i]) is Ok ==> exists|k: int|
            0 <= k < ranked.len() && (#[trigger] ranked[k]).index == i
}

/// The entries stand in ranking order.
pub open spec fn in_rank_order(ranked: Seq<ScoredPool>) -> bool {
    forall|k: int, l: int|
        0 <= k < l < ranked.len() ==> ranks_before(#[trigger] ranked[k], #[trigger] ranked[l])
}

/// Each entry names a pool that failed, with the error it failed with.
pub open spec fn skipped_are_failed(
    skipped: Seq<SkippedPool>,
    outcomes: Seq<Result<Score, ScoringError>>,
) -> bool {
    forall|k: int|
        0 <= k < skipped.len() ==> (#[trigger] skipped[k]).index < outcomes.len()
            && outcomes[skipped[k].index as int] == Err::<Score, ScoringError>(skipped[k].error)
}

/// Each pool that failed has an entry.
pub open spec fn failed_are_skipped(
    skipped: Seq<SkippedPool>,
    outcomes: Seq<Result<Score, ScoringError>>,
) -> bool {
    forall|i: int|
        0 <= i < outcomes.len() && (#[trigger] outcomes[i]) is Err ==> exists|k: int|
            0 <= k < skipped.len() && (#[trigger] skipped[k]).index == i
}

/// The entries stand in snapshot order.
pub open spec fn in_snapshot_order(skipped: Seq<SkippedPool>) -> bool {
    forall|k: int, l: int|
        0 <= k < l < skipped.len() ==> (#[trigger] skipped[k]).index < (#[trigger] skipped[l]).index
}

impl Ranking {
    /// Whether this is the ranking of the pools whose scoring ended as
    /// `outcomes` says, pool by pool. There is exactly one such ranking.
    pub open spec fn is_ranking_of(&self, outcomes: Seq<Result<Score, ScoringError>>) -> bool {
        &&& ranked_are_scored(self.ranked@, outcomes)
        &&& scored_are_ranked(self.ranked@, outcomes)
        &&& in_rank_order(self.ranked@)
        &&& skipped_are_failed(self.skipped@, outcomes)
        &&& failed_are_skipped(self.skipped@, outcomes)
        &&& in_snapshot_order(self.skipped@)
    }
}

/// Whether `first` stands before `second` in a ranking.
fn stands_before(first: &ScoredPool, second: &ScoredPool) -> (before: bool)
    ensures
        before == ranks_before(*first, *second),
{
    second.score.is_below(&first.score) || (!first.score.is_below(&second.score) && first.index
        < second.index)
}

/// Whether `entry` is among the first `upto` entries of `list`.
spec fn holds_within(list: Seq<ScoredPool>, upto: int, entry: ScoredPool) -> bool {
    exists|k: int| 0 <= k < upto && k < list.len() && #[trigger] list[k] == entry
}

/// Whether `entry` is in `list`.
spec fn holds(list: Seq<ScoredPool>, entry: ScoredPool) -> bool {
    holds_within(list, list.len() as int, entry)
}

/// Whether `entry` is one of `list` from position `from` up to, not
/// including, position `to`.
spec fn holds_between(list: Seq<ScoredPool>, from: int, to: int, entry: ScoredPool) -> bool {
    exists|m: int| from <= m < to && 0 <= m < list.len() && #[trigger] list[m] == entry
}

/// No pool has two entries.
spec fn one_entry_each(list: Seq<ScoredPool>) -> bool {
    forall|k: int, l: int|
        0 <= k < l < list.len() ==> (#[trigger] list[k]).index != (#[trigger] list[l]).index
}

/// Merges two ranked lists, which share no pool, into one.
fn merge_ranked(left: &Vec<ScoredPool>, right: &Vec<ScoredPool>) -> (merged: Vec<ScoredPool>)
    requires
        in_rank_order(left@),
        in_rank_order(right@),
        forall|i: int, j: int|
            0 <= i < left@.len() && 0 <= j < right@.len() ==> (#[trigger] left@[i]).index != (
            #[trigger] right@[j]).index,
        left@.len() + right@.len() <= usize::MAX,
    ensures
        in_rank_order(merged@),
        merged@.len() == left@.len() + right@.len(),
        forall|k: int|
            0 <= k < merged@.len() ==> holds(left@, #[trigger] merged@[k]) || holds(
                right@,
                merged@[k],
            ),
        forall|i: int| 0 <= i < left@.len() ==> holds(merged@, #[trigger] left@[i]),
        forall|j: int| 0 <= j < right@.len() ==> holds(merged@, #[trigger] right@[j]),
{
    let mut merged: Vec<ScoredPool> = Vec::new();
    let mut taken_left: usize = 0;
    let mut taken_right: usize = 0;
    while taken_left < left.len() || taken_right < right.len()
        invariant
            taken_left <= left@.len(),
            taken_right <= right@.len(),
            left@.len() + right@.len() <= usize::MAX,
            merged@.len() == taken_left + taken_right,
            in_rank_order(left@),
            in_rank_order(right@),
            forall|i: int, j: int|
                0 <= i < left@.len() && 0 <= j < right@.len() ==> (#[trigger] left@[i]).index != (
                #[trigger] right@[j]).index,
            in_rank_order(merged@),
            forall|k: int|
                0 <= k < merged@.len() ==> holds_within(
                    left@,
                    taken_left as int,
                    #[trigger] merged@[k],
                ) || holds_within(right@, taken_right as int, merged@[k]),
            forall|i: int| 0 <= i < taken_left ==> holds(merged@, #[trigger] left@[i]),
            forall|j: int| 0 <= j < taken_right ==> holds(merged@, #[trigger] right@[j]),
            forall|k: int, i: int|
                0 <= k < merged@.len() && taken_left <= i < left@.len() ==> ranks_before(
                    #[trigger] merged@[k],
                    #[trigger] left@[i],
                ),
            forall|k: int, j: int|
                0 <= k < merged@.len() && taken_right <= j < right@.len() ==> ranks_before(
                    #[trigger] merged@[k],
                    #[trigger] right@[j],
                ),
        decreases left@.len() - taken_left + right@.len() - taken_right,
    {
        let ghost before = merged@;
        let from_left: bool = if taken_right == right.len() {
            true
        } else if taken_left == left.len() {
            false
        } else {
            stands_before(&left[taken_left], &right[taken_right])
        };
        if from_left {
            let next = left[taken_left];
            merged.push(next);
            taken_left += 1;
            proof {
                lemma_entry_added(before, next);
                assert forall|k: int| 0 <= k < merged@.len() implies holds_within(
                    left@,
                    taken_left as int,
                    #[trigger] merged@[k],
                ) || holds_within(right@, taken_right as int, merged@[k]) by {
                    if k < before.len() {
                        assert(merged@[k] == before[k]);
                        if holds_within(left@, taken_left - 1, before[k]) {
                            let i: int = choose|i: int|
                                0 <= i < taken_left - 1 && i < left@.len() && #[trigger] left@[i]
                                    == before[k];
                            assert(left@[i] == merged@[k]);
                        }
                    } else {
                        assert(left@[taken_left - 1] == merged@[k]);
                    }
                }
                assert forall|k: int, j: int|
                    0 <= k < merged@.len() && taken_right <= j < right@.len() implies ranks_before(
                    #[trigger] merged@[k],
                    #[trigger] right@[j],
                ) by {
                    if k == before.len() {
                        assert(ranks_before(left@[taken_left - 1], right@[taken_right as int]));
                        if j > taken_right {
                            assert(ranks_before(right@[taken_right as int], right@[j]));
                        }
                    } else {
                        assert(merged@[k] == before[k]);
                    }
                }
                assert forall|k: int, i: int|
                    0 <= k < merged@.len() && taken_left <= i < left@.len() implies ranks_before(
                    #[trigger] merged@[k],
                    #[trigger] left@[i],
                ) by {
                    if k == before.len() {
                        assert(ranks_before(left@[taken_left - 1], left@[i]));
                    } else {
                        assert(merged@[k] == before[k]);
                    }
                }
            }
        } else {
            let next = right[taken_right];
            merged.push(next);
            taken_right += 1;
            proof {
                lemma_entry_added(before, next);
                assert forall|k: int| 0 <= k < merged@.len() implies holds_within(
                    left@,
                    taken_left as int,
                    #[trigger] merged@[k],
                ) || holds_within(right@, taken_right as int, merged@[k]) by {
                    if k < before.len() {
                        assert(merged@[k] == before[k]);
                        if holds_within(right@, taken_right - 1, before[k]) {
                            let j: int = choose|j: int|
                                0 <= j < taken_right - 1 && j < right@.len() && #[trigger] right@[j]
                                    == before[k];
                            assert(right@[j] == merged@[k]);
                        }
                    } else {
                        assert(right@[taken_right - 1] == merged@[k]);
                    }
                }
                assert forall|k: int, i: int|
                    0 <= k < merged@.len() && taken_left <= i < left@.len() implies ranks_before(
                    #[trigger] merged@[k],
                    #[trigger] left@[i],
                ) by {
                    if k == before.len() {
                        assert(left@[taken_left as int].index != right@[taken_right - 1].index);
                        assert(ranks_before(right@[taken_right - 1], left@[taken_left as int]));
                        if i > taken_left {
                            assert(ranks_before(left@[taken_left as int], left@[i]));
                        }
                    } else {
                        assert(merged@[k] == before[k]);
                    }
                }
                assert forall|k: int, j: int|
                    0 <= k < merged@.len() && taken_right <= j < right@.len() implies ranks_before(
                    #[trigger] merged@[k],
                    #[trigger] right@[j],
                ) by {
                    if k == before.len() {
                        assert(ranks_before(right@[taken_right - 1], right@[j]));
                    } else {
                        assert(merged@[k] == before[k]);
                    }
                }
            }
        }
    }
    merged
}

/// What adding an entry at the end does: the entries that were there stay,
/// in their places, and the new one is there too.
proof fn lemma_entry_added(before: Seq<ScoredPool>, entry: ScoredPool)
    ensures
        holds(before.push(entry), entry),
        forall|other: ScoredPool| holds(before, other) ==> #[trigger] holds(before.push(entry), other),
        forall|k: int| 0 <= k < before.len() ==> #[trigger] before.push(entry)[k] == before[k],
        in_rank_order(before) && (forall|k: int|
            0 <= k < before.len() ==> ranks_before(#[trigger] before[k], entry)) ==> in_rank_order(
            before.push(entry),
        ),
{
    let after = before.push(entry);
    assert(after[before.len() as int] == entry);
    assert forall|other: ScoredPool| holds(before, other) implies #[trigger] holds(after, other) by {
        let k: int = choose|k: int| 0 <= k < before.len() && #[trigger] before[k] == other;
        assert(after[k] == other);
    }
}

/// The entries of `entries` from position `from` up to, not including,
/// position `to`, in ranking order.
fn sort_ranked(entries: &Vec<ScoredPool>, from: usize, to: usize) -> (sorted: Vec<ScoredPool>)
    requires
        from <= to <= entries@.len(),
        one_entry_each(entries@),
    ensures
        in_rank_order(sorted@),
        sorted@.len() == to - from,
        forall|k: int|
            0 <= k < sorted@.len() ==> holds_between(
                entries@,
                from as int,
                to as int,
                #[trigger] sorted@[k],
            ),
        forall|m: int| from <= m < to ==> holds(sorted@, #[trigger] entries@[m]),
    decreases to - from,
{
    if to - from == 0 {
        Vec::new()
    } else if to - from == 1 {
        let mut sorted: Vec<ScoredPool> = Vec::new();
        sorted.push(entries[from]);
        assert(sorted@[0] == entries@[from as int]);
        sorted
    } else {
        let middle: usize = from + (to - from) / 2;
        let left = sort_ranked(entries, from, middle);
        let right = sort_ranked(entries, middle, to);
        proof {
            assert forall|i: int, j: int|
                0 <= i < left@.len() && 0 <= j < right@.len() implies (#[trigger] left@[i]).index != (
            #[trigger] right@[j]).index by {
                let m: int = choose|m: int|
                    from <= m < middle && 0 <= m < entries@.len() && #[trigger] entries@[m]
                        == left@[i];
                let n: int = choose|n: int|
                    middle <= n < to && 0 <= n < entries@.len() && #[trigger] entries@[n]
                        == right@[j];
                assert(entries@[m].index != entries@[n].index);
            }
        }
        let sorted = merge_ranked(&left, &right);
        proof {
            assert forall|k: int| 0 <= k < sorted@.len() implies holds_between(
                entries@,
                from as int,
                to as int,
                #[trigger] sorted@[k],
            ) by {
                if holds(left@, sorted@[k]) {
                    let i: int = choose|i: int|
                        0 <= i < left@.len() && #[trigger] left@[i] == sorted@[k];
                    let m: int = choose|m: int|
                        from <= m < middle && 0 <= m < entries@.len() && #[trigger] entries@[m]
                            == left@[i];
                    assert(entries@[m] == sorted@[k]);
                } else {
                    let j: int = choose|j: int|
                        0 <= j < right@.len() && #[trigger] right@[j] == sorted@[k];
                    let n: int = choose|n: int|
                        middle <= n < to && 0 <= n < entries@.len() && #[trigger] entries@[n]
                            == right@[j];
                    assert(entries@[n] == sorted@[k]);
                }
            }
            assert forall|m: int| from <= m < to implies holds(sorted@, #[trigger] entries@[m]) by {
                if m < middle {
                    let i: int = choose|i: int|
                        0 <= i < left@.len() && #[trigger] left@[i] == entries@[m];
                    assert(holds(sorted@, left@[i]));
                } else {
                    let j: int = choose|j: int|
                        0 <= j < right@.len() && #[trigger] right@[j] == entries@[m];
                    assert(holds(sorted@, right@[j]));
                }
            }
        }
        sorted
    }
}

/// Sorting keeps a list what it was a list of: the pools that were scored,
/// each with its score.
proof fn lemma_sorted_are_the_scored(
    scored: Seq<ScoredPool>,
    sorted: Seq<ScoredPool>,
    outcomes: Seq<Result<Score, ScoringError>>,
)
    requires
        ranked_are_scored(scored, outcomes),
        scored_are_ranked(scored, outcomes),
        forall|k: int|
            0 <= k < sorted.len() ==> holds_between(
                scored,
                0,
                scored.len() as int,
                #[trigger] sorted[k],
            ),
        forall|m: int| 0 <= m < scored.len() ==> holds(sorted, #[trigger] scored[m]),
    ensures
        ranked_are_scored(sorted, outcomes),
        scored_are_ranked(sorted, outcomes),
{
    assert forall|k: int| 0 <= k < sorted.len() implies (#[trigger] sorted[k]).index < outcomes.len()
        && outcomes[sorted[k].index as int] == Ok::<Score, ScoringError>(sorted[k].score) by {
        let m: int = choose|m: int|
            0 <= m < scored.len() && 0 <= m < scored.len() && #[trigger] scored[m] == sorted[k];
        assert(scored[m].index < outcomes.len());
    }
    assert forall|i: int| 0 <= i < outcomes.len() && (#[trigger] outcomes[i]) is Ok implies exists|
        k: int,
    |
        0 <= k < sorted.len() && (#[trigger] sorted[k]).index == i by {
        let m: int = choose|m: int| 0 <= m < scored.len() && (#[trigger] scored[m]).index == i;
        assert(holds(sorted, scored[m]));
        let k: int = choose|k: int| 0 <= k < sorted.len() && #[trigger] sorted[k] == scored[m];
        assert(sorted[k].index == i);
    }
}

/// Listing one more scored pool at the end: the list still holds exactly
/// the pools scored so far, each once.
proof fn lemma_list_next_scored(
    before: Seq<ScoredPool>,
    entry: ScoredPool,
    seen: Seq<Result<Score, ScoringError>>,
)
    requires
        ranked_are_scored(before, seen),
        scored_are_ranked(before, seen),
        one_entry_each(before),
        entry.index == seen.len(),
    ensures
        ranked_are_scored(before.push(entry), seen.push(Ok::<Score, ScoringError>(entry.score))),
        scored_are_ranked(before.push(entry), seen.push(Ok::<Score, ScoringError>(entry.score))),
        one_entry_each(before.push(entry)),
{
    let after = before.push(entry);
    let extended = seen.push(Ok::<Score, ScoringError>(entry.score));
    assert forall|k: int| 0 <= k < after.len() implies (#[trigger] after[k]).index < extended.len()
        && extended[after[k].index as int] == Ok::<Score, ScoringError>(after[k].score) by {
        if k < before.len() {
            assert(after[k] == before[k]);
        }
    }
    assert forall|i: int| 0 <= i < extended.len() && (#[trigger] extended[i]) is Ok implies exists|
        k: int,
    |
        0 <= k < after.len() && (#[trigger] after[k]).index == i by {
        if i == seen.len() {
            assert(after[before.len() as int].index == i);
        } else {
            assert(seen[i] is Ok);
            let k: int = choose|k: int| 0 <= k < before.len() && (#[trigger] before[k]).index == i;
            assert(after[k] == before[k]);
        }
    }
    assert forall|k: int, l: int| 0 <= k < l < after.len() implies (#[trigger] after[k]).index != (
    #[trigger] after[l]).index by {
        assert(after[k] == before[k]);
        if l < before.len() {
            assert(after[l] == before[l]);
        }
    }
}

/// Listing one more failed pool at the end: the list still holds exactly the
/// pools that failed so far, in snapshot order.
proof fn lemma_skip_next_failed(
    before: Seq<SkippedPool>,
    entry: SkippedPool,
    seen: Seq<Result<Score, ScoringError>>,
)
    requires
        skipped_are_failed(before, seen),
        failed_are_skipped(before, seen),
        in_snapshot_order(before),
        entry.index == seen.len(),
    ensures
        skipped_are_failed(before.push(entry), seen.push(Err::<Score, ScoringError>(entry.error))),
        failed_are_skipped(before.push(entry), seen.push(Err::<Score, ScoringError>(entry.error))),
        in_snapshot_order(before.push(entry)),
{
    let after = before.push(entry);
    let extended = seen.push(Err::<Score, ScoringError>(entry.error));
    assert forall|k: int| 0 <= k < after.len() implies (#[trigger] after[k]).index < extended.len()
        && extended[after[k].index as int] == Err::<Score, ScoringError>(after[k].error) by {
        if k < before.len() {
            assert(after[k] == before[k]);
        }
    }
    assert forall|i: int| 0 <= i < extended.len() && (#[trigger] extended[i]) is Err implies exists|
        k: int,
    |
        0 <= k < after.len() && (#[trigger] after[k]).index == i by {
        if i == seen.len() {
            assert(after[before.len() as int].index == i);
        } else {
            assert(seen[i] is Err);
            let k: int = choose|k: int| 0 <= k < before.len() && (#[trigger] before[k]).index == i;
            assert(after[k] == before[k]);
        }
    }
    assert forall|k: int, l: int| 0 <= k < l < after.len() implies (#[trigger] after[k]).index < (
    #[trigger] after[l]).index by {
        assert(after[k] == before[k]);
        if l < before.len() {
            assert(after[l] == before[l]);
        }
    }
}

/// A pool that was scored changes nothing for the list of failed pools.
proof fn lemma_scored_leaves_skipped(
    skipped: Seq<SkippedPool>,
    seen: Seq<Result<Score, ScoringError>>,
    score: Score,
)
    requires
        skipped_are_failed(skipped, seen),
        failed_are_skipped(skipped, seen),
    ensures
        skipped_are_failed(skipped, seen.push(Ok::<Score, ScoringError>(score))),
        failed_are_skipped(skipped, seen.push(Ok::<Score, ScoringError>(score))),
{
    let extended = seen.push(Ok::<Score, ScoringError>(score));
    assert forall|i: int| 0 <= i < extended.len() && (#[trigger] extended[i]) is Err implies exists|
        k: int,
    |
        0 <= k < skipped.len() && (#[trigger] skipped[k]).index == i by {
        assert(seen[i] is Err);
    }
}

/// A pool that failed changes nothing for the list of scored pools.
proof fn lemma_failed_leaves_ranked(
    ranked: Seq<ScoredPool>,
    seen: Seq<Result<Score, ScoringError>>,
    error: ScoringError,
)
    requires
        ranked_are_scored(ranked, seen),
        scored_are_ranked(ranked, seen),
    ensures
        ranked_are_scored(ranked, seen.push(Err::<Score, ScoringError>(error))),
        scored_are_ranked(ranked, seen.push(Err::<Score, ScoringError>(error))),
{
    let extended = seen.push(Err::<Score, ScoringError>(error));
    assert forall|i: int| 0 <= i < extended.len() && (#[trigger] extended[i]) is Ok implies exists|
        k: int,
    |
        0 <= k < ranked.len() && (#[trigger] ranked[k]).index == i by {
        assert(seen[i] is Ok);
    }
}

/// The ranking of pools from the outcome of scoring each: the outcome at
/// position `i` is that of the pool at position `i` of the snapshot.
pub fn rank_outcomes(outcomes: Vec<Result<Score, ScoringError>>) -> (ranking: Ranking)
    ensures
        ranking.is_ranking_of(outcomes@),
{
    let ghost all = outcomes@;
    assert(all.len() == outcomes.len());
    let mut scored: Vec<ScoredPool> = Vec::new();
    let mut skipped: Vec<SkippedPool> = Vec::new();
    let mut index: usize = 0;
    for outcome in it: outcomes.into_iter()
        invariant
            it.seq() == all,
            index == it.index(),
            index <= all.len() <= usize::MAX,
            ranked_are_scored(scored@, all.subrange(0, index as int)),
            scored_are_ranked(scored@, all.subrange(0, index as int)),
            one_entry_each(scored@),
            skipped_are_failed(skipped@, all.subrange(0, index as int)),
            failed_are_skipped(skipped@, all.subrange(0, index as int)),
            in_snapshot_order(skipped@),
    {
        let ghost seen = all.subrange(0, index as int);
        assert(all[index as int] == outcome);
        assert(all.subrange(0, index + 1) == seen.push(outcome));
        match outcome {
            Ok(score) => {
                let entry = ScoredPool { score, index };
                proof {
                    lemma_list_next_scored(scored@, entry, seen);
                    lemma_scored_leaves_skipped(skipped@, seen, score);
                }
                scored.push(entry);
            },
            Err(error) => {
                let entry = SkippedPool { index, error };
                proof {
                    lemma_skip_next_failed(skipped@, entry, seen);
                    lemma_failed_leaves_ranked(scored@, seen, error);
                }
                skipped.push(entry);
            },
        }
        index += 1;
    }
    assert(all.subrange(0, index as int) == all);
    let ranked = sort_ranked(&scored, 0, scored.len());
    proof {
        lemma_sorted_are_the_scored(scored@, ranked@, all);
    }
    Ranking { ranked, skipped }
}

/// The order of entries, on pairs of integers: by the first, then by the
/// second.
spec fn key_before(first: (int, int), second: (int, int)) -> bool {
    first.0 < second.0 || (first.0 == second.0 && first.1 < second.1)
}

/// The keys stand in ascending order, none twice.
spec fn keys_ascend(keys: Seq<(int, int)>) -> bool {
    forall|k: int, l: int| 0 <= k < l < keys.len() ==> key_before(#[trigger] keys[k], #[trigger] keys[l])
}

/// Whether `key` is one of `keys`.
spec fn key_occurs(keys: Seq<(int, int)>, key: (int, int)) -> bool {
    exists|l: int| 0 <= l < keys.len() && #[trigger] keys[l] == key
}

/// Whether each of `keys` is one of `others`.
spec fn keys_within(keys: Seq<(int, int)>, others: Seq<(int, int)>) -> bool {
    forall|k: int| 0 <= k < keys.len() ==> key_occurs(others, #[trigger] keys[k])
}

/// Two ascending lists with the same keys agree up to the end of the shorter.
proof fn lemma_keys_agree_at(a: Seq<(int, int)>, b: Seq<(int, int)>, at: int)
    requires
        keys_ascend(a),
        keys_ascend(b),
        keys_within(a, b),
        keys_within(b, a),
        0 <= at < a.len(),
        at < b.len(),
    ensures
        a[at] == b[at],
    decreases at,
{
    assert forall|j: int| 0 <= j < at implies a[j] == b[j] by {
        lemma_keys_agree_at(a, b, j);
    }
    assert(key_occurs(b, a[at]) && key_occurs(a, b[at]));
    let l: int = choose|l: int| 0 <= l < b.len() && #[trigger] b[l] == a[at];
    let m: int = choose|m: int| 0 <= m < a.len() && #[trigger] a[m] == b[at];
    if l < at {
        assert(key_before(a[l], a[at]));
    } else if m < at {
        assert(key_before(b[m], b[at]));
    } else if l > at {
        assert(key_before(b[at], b[l]));
        if m > at {
            assert(key_before(a[at], a[m]));
        }
    }
}

/// Two ascending lists with the same keys are the same list.
proof fn lemma_keys_agree(a: Seq<(int, int)>, b: Seq<(int, int)>)
    requires
        keys_ascend(a),
        keys_ascend(b),
        keys_within(a, b),
        keys_within(b, a),
    ensures
        a == b,
{
    assert forall|j: int| 0 <= j < a.len() && j < b.len() implies a[j] == b[j] by {
        lemma_keys_agree_at(a, b, j);
    }
    if a.len() > b.len() {
        let extra: int = b.len() as int;
        assert(key_occurs(b, a[extra]));
        let l: int = choose|l: int| 0 <= l < b.len() && #[trigger] b[l] == a[extra];
        assert(key_before(a[l], a[extra]));
    } else if b.len() > a.len() {
        let extra: int = a.len() as int;
        assert(key_occurs(a, b[extra]));
        let l: int = choose|l: int| 0 <= l < a.len() && #[trigger] a[l] == b[extra];
        assert(key_before(b[l], b[extra]));
    }
    assert(a =~= b);
}

/// The key of a ranked entry: higher scores have lower keys.
spec fn ranked_keys(ranked: Seq<ScoredPool>) -> Seq<(int, int)> {
    Seq::new(ranked.len(), |k: int| (-ranked[k].score.units(), ranked[k].index as int))
}

/// The key of a skipped entry: its place in the snapshot.
spec fn skipped_keys(skipped: Seq<SkippedPool>) -> Seq<(int, int)> {
    Seq::new(skipped.len(), |k: int| (0int, skipped[k].index as int))
}

/// Two lists of the pools that were scored have the same keys.
proof fn lemma_ranked_keys_within(
    a: Seq<ScoredPool>,
    b: Seq<ScoredPool>,
    outcomes: Seq<Result<Score, ScoringError>>,
)
    requires
        ranked_are_scored(a, outcomes),
        ranked_are_scored(b, outcomes),
        scored_are_ranked(b, outcomes),
    ensures
        keys_within(ranked_keys(a), ranked_keys(b)),
{
    let keys = ranked_keys(a);
    let others = ranked_keys(b);
    assert forall|k: int| 0 <= k < keys.len() implies key_occurs(others, #[trigger] keys[k]) by {
        let i: int = a[k].index as int;
        assert(outcomes[i] is Ok);
        let l: int = choose|l: int| 0 <= l < b.len() && (#[trigger] b[l]).index == i;
        assert(others[l] == keys[k]);
    }
}

/// Two lists of the pools that failed have the same keys.
proof fn lemma_skipped_keys_within(
    a: Seq<SkippedPool>,
    b: Seq<SkippedPool>,
    outcomes: Seq<Result<Score, ScoringError>>,
)
    requires
        skipped_are_failed(a, outcomes),
        failed_are_skipped(b, outcomes),
    ensures
        keys_within(skipped_keys(a), skipped_keys(b)),
{
    let keys = skipped_keys(a);
    let others = skipped_keys(b);
    assert forall|k: int| 0 <= k < keys.len() implies key_occurs(others, #[trigger] keys[k]) by {
        let i: int = a[k].index as int;
        assert(outcomes[i] is Err);
        let l: int = choose|l: int| 0 <= l < b.len() && (#[trigger] b[l]).index == i;
        assert(others[l] == keys[k]);
    }
}

/// The pools that were scored can be listed in ranking order in one way.
proof fn lemma_same_ranked(
    a: Seq<ScoredPool>,
    b: Seq<ScoredPool>,
    outcomes: Seq<Result<Score, ScoringError>>,
)
    requires
        ranked_are_scored(a, outcomes),
        scored_are_ranked(a, outcomes),
        in_rank_order(a),
        ranked_are_scored(b, outcomes),
        scored_are_ranked(b, outcomes),
        in_rank_order(b),
    ensures
        a == b,
{
    let a_keys = ranked_keys(a);
    let b_keys = ranked_keys(b);
    lemma_ranked_keys_within(a, b, outcomes);
    lemma_ranked_keys_within(b, a, outcomes);
    assert forall|k: int, l: int| 0 <= k < l < a_keys.len() implies key_before(
        #[trigger] a_keys[k],
        #[trigger] a_keys[l],
    ) by {
        assert(ranks_before(a[k], a[l]));
    }
    assert forall|k: int, l: int| 0 <= k < l < b_keys.len() implies key_before(
        #[trigger] b_keys[k],
        #[trigger] b_keys[l],
    ) by {
        assert(ranks_before(b[k], b[l]));
    }
    lemma_keys_agree(a_keys, b_keys);
    assert(a.len() == a_keys.len() && b.len() == b_keys.len());
    assert forall|k: int| 0 <= k < a.len() implies a[k] == b[k] by {
        assert(a_keys[k] == b_keys[k]);
        crate::score::lemma_units_determine_score(a[k].score, b[k].score);
    }
    assert(a =~= b);
}

/// The pools that failed can be listed in snapshot order in one way.
proof fn lemma_same_skipped(
    a: Seq<SkippedPool>,
    b: Seq<SkippedPool>,
    outcomes: Seq<Result<Score, ScoringError>>,
)
    requires
        skipped_are_failed(a, outcomes),
        failed_are_skipped(a, outcomes),
        in_snapshot_order(a),
        skipped_are_failed(b, outcomes),
        failed_are_skipped(b, outcomes),
        in_snapshot_order(b),
    ensures
        a == b,
{
    let a_keys = skipped_keys(a);
    let b_keys = skipped_keys(b);
    lemma_skipped_keys_within(a, b, outcomes);
    lemma_skipped_keys_within(b, a, outcomes);
    assert forall|k: int, l: int| 0 <= k < l < a_keys.len() implies key_before(
        #[trigger] a_keys[k],
        #[trigger] a_keys[l],
    ) by {
        assert(a[k].index < a[l].index);
    }
    assert forall|k: int, l: int| 0 <= k < l < b_keys.len() implies key_before(
        #[trigger] b_keys[k],
        #[trigger] b_keys[l],
    ) by {
        assert(b[k].index < b[l].index);
    }
    lemma_keys_agree(a_keys, b_keys);
    assert(a.len() == a_keys.len() && b.len() == b_keys.len());
    assert forall|k: int| 0 <= k < a.len() implies a[k] == b[k] by {
        assert(a_keys[k] == b_keys[k]);
        assert(outcomes[a[k].index as int] == Err::<Score, ScoringError>(a[k].error));
        assert(outcomes[b[k].index as int] == Err::<Score, ScoringError>(b[k].error));
    }
    assert(a =~= b);
}

/// A ranking is sorted by score, highest first, and pools with the same
/// score stand in snapshot order.
pub proof fn lemma_ranking_is_sorted_and_stable(
    ranking: Ranking,
    outcomes: Seq<Result<Score, ScoringError>>,
    earlier: int,
    later: int,
)
    requires
        ranking.is_ranking_of(outcomes),
        0 <= earlier < later < ranking.ranked@.len(),
    ensures
        ranking.ranked@[earlier].score.units() >= ranking.ranked@[later].score.units(),
        ranking.ranked@[earlier].score == ranking.ranked@[later].score
            ==> ranking.ranked@[earlier].index < ranking.ranked@[later].index,
        ranking.ranked@[earlier].index != ranking.ranked@[later].index,
{
    assert(ranks_before(ranking.ranked@[earlier], ranking.ranked@[later]));
}

/// Every pool of the snapshot stands in a ranking once: among the ranked
/// where it was scored, among the skipped where it was not.
pub proof fn lemma_ranking_accounts_for_every_pool(
    ranking: Ranking,
    outcomes: Seq<Result<Score, ScoringError>>,
    pool: int,
)
    requires
        ranking.is_ranking_of(outcomes),
        0 <= pool < outcomes.len(),
    ensures
        outcomes[pool] is Ok ==> exists|k: int|
            0 <= k < ranking.ranked@.len() && (#[trigger] ranking.ranked@[k]).index == pool,
        outcomes[pool] is Err ==> exists|k: int|
            0 <= k < ranking.skipped@.len() && (#[trigger] ranking.skipped@[k]).index == pool,
        outcomes[pool] is Ok ==> forall|k: int|
            0 <= k < ranking.skipped@.len() ==> (#[trigger] ranking.skipped@[k]).index != pool,
        outcomes[pool] is Err ==> forall|k: int|
            0 <= k < ranking.ranked@.len() ==> (#[trigger] ranking.ranked@[k]).index != pool,
{
}

/// A list of outcomes has one ranking only.
pub proof fn lemma_ranking_is_unique(
    first: Ranking,
    second: Ranking,
    outcomes: Seq<Result<Score, ScoringError>>,
)
    requires
        first.is_ranking_of(outcomes),
        second.is_ranking_of(outcomes),
    ensures
        first.ranked@ == second.ranked@,
        first.skipped@ == second.skipped@,
{
    lemma_same_ranked(first.ranked@, second.ranked@, outcomes);
    lemma_same_skipped(first.skipped@, second.skipped@, outcomes);
}

} // verus!
