//! The scoring engine: reputation scores computed from weighted observations
//! and kept per identifier.

use crate::string_map::{
    distinct_keys, has_key, lemma_entry_lookup, lemma_table_push, position, table_of, StringMap,
};
use vstd::prelude::*;

verus! {

/// The largest score an identifier can have.
pub const MAX_SCORE: i32 = 2147483647;

/// The multiplier applied to every weighted factor.
pub const FACTOR_WEIGHT: i32 = 2;

/// The sum of the values of a finite mapping.
pub open spec fn total(m: Map<Seq<char>, i32>) -> int
    decreases m.dom().len(),
{
    if m.dom().finite() && m.dom().len() > 0 {
        let key = m.dom().choose();
        m[key] + total(m.remove(key))
    } else {
        0
    }
}

/// The sum of the values of a list of entries, taken in the order of the list.
pub open spec fn ordered_total(entries: Seq<(Seq<char>, i32)>) -> int
    decreases entries.len(),
{
    if entries.len() == 0 {
        0
    } else {
        ordered_total(entries.drop_last()) + entries.last().1
    }
}

/// A raw sum brought into the range of scores.
pub open spec fn clamp_score(raw: int) -> int {
    if raw < 0 {
        0
    } else if raw > MAX_SCORE {
        MAX_SCORE as int
    } else {
        raw
    }
}

/// The score that observations and weighted factors give.
pub open spec fn score_of(
    observations: Map<Seq<char>, i32>,
    factors: Map<Seq<char>, i32>,
) -> int {
    clamp_score(total(observations) + FACTOR_WEIGHT * total(factors))
}

/// Any key of a finite mapping can be taken out of its sum first.
pub proof fn lemma_total_split(m: Map<Seq<char>, i32>, key: Seq<char>)
    requires
        m.dom().finite(),
        m.contains_key(key),
    ensures
        total(m) == m[key] + total(m.remove(key)),
    decreases m.dom().len(),
{
    let chosen = m.dom().choose();
    assert(m.dom().contains(key));
    if chosen != key {
        let without_chosen = m.remove(chosen);
        let without_key = m.remove(key);
        assert(without_chosen.contains_key(key));
        assert(without_key.contains_key(chosen));
        lemma_total_split(without_chosen, key);
        lemma_total_split(without_key, chosen);
        assert(without_chosen.remove(key) =~= without_key.remove(chosen));
    }
}

/// A value under a new key adds to the sum.
pub proof fn lemma_total_insert(m: Map<Seq<char>, i32>, key: Seq<char>, value: i32)
    requires
        m.dom().finite(),
        !m.contains_key(key),
    ensures
        total(m.insert(key, value)) == total(m) + value,
{
    let larger = m.insert(key, value);
    lemma_total_split(larger, key);
    assert(larger.remove(key) =~= m);
}

/// The mapping of a list of entries has finitely many keys.
pub proof fn lemma_table_finite<V>(entries: Seq<(Seq<char>, V)>)
    ensures
        table_of(entries).dom().finite(),
    decreases entries.len(),
{
    if entries.len() == 0 {
        assert(table_of(entries).dom() =~= Set::<Seq<char>>::empty());
    } else {
        let init = entries.drop_last();
        let last = entries.last();
        lemma_table_finite(init);
        assert forall|k: Seq<char>| has_key(entries, k) <==> (k == last.0 || has_key(init, k)) by {
            if has_key(entries, k) {
                let i = position(entries, k);
                if i < init.len() {
                    assert(init[i].0 == k);
                }
            }
            if k == last.0 {
                assert(entries[entries.len() - 1].0 == k);
            }
            if has_key(init, k) {
                let i = position(init, k);
                assert(entries[i].0 == k);
            }
        }
        assert(table_of(entries).dom() =~= table_of(init).dom().insert(last.0));
    }
}

/// With distinct keys, summing in the order of the list gives the sum of the mapping.
pub proof fn lemma_ordered_total(entries: Seq<(Seq<char>, i32)>)
    requires
        distinct_keys(entries),
    ensures
        ordered_total(entries) == total(table_of(entries)),
    decreases entries.len(),
{
    if entries.len() == 0 {
        assert(table_of(entries).dom() =~= Set::<Seq<char>>::empty());
    } else {
        let init = entries.drop_last();
        let last = entries.last();
        assert forall|i: int, j: int| 0 <= i < j < init.len() implies (#[trigger] init[i]).0
            != (#[trigger] init[j]).0 by {
            assert(entries[i].0 != entries[j].0);
        }
        assert(!has_key(init, last.0)) by {
            if has_key(init, last.0) {
                let i = position(init, last.0);
                assert(entries[i].0 != entries[entries.len() - 1].0);
            }
        }
        lemma_ordered_total(init);
        lemma_table_push(init, last.0, last.1);
        assert(init.push((last.0, last.1)) =~= entries);
        lemma_table_finite(init);
        lemma_total_insert(table_of(init), last.0, last.1);
    }
}

/// Changing the order in which entries are walked changes neither the sum nor
/// the mapping: two lists with distinct keys that hold the same entries stand
/// for the same mapping and add up to the same number.
pub proof fn lemma_order_independent(
    first: Seq<(Seq<char>, i32)>,
    second: Seq<(Seq<char>, i32)>,
)
    requires
        distinct_keys(first),
        distinct_keys(second),
        first.to_multiset() == second.to_multiset(),
    ensures
        table_of(first) == table_of(second),
        ordered_total(first) == ordered_total(second),
{
    broadcast use vstd::seq_lib::group_to_multiset_ensures;

    assert forall|entry: (Seq<char>, i32)| first.contains(entry) <==> second.contains(entry) by {
        assert(first.contains(entry) <==> first.to_multiset().count(entry) > 0);
        assert(second.contains(entry) <==> second.to_multiset().count(entry) > 0);
    }
    assert forall|k: Seq<char>| has_key(first, k) implies has_key(second, k) && table_of(first)[k]
        == table_of(second)[k] by {
        let i = position(first, k);
        lemma_entry_lookup(first, i);
        assert(first.contains(first[i]));
        let j = choose|j: int| 0 <= j < second.len() && second[j] == first[i];
        lemma_entry_lookup(second, j);
    }
    assert forall|k: Seq<char>| has_key(second, k) implies has_key(first, k) by {
        let j = position(second, k);
        assert(second.contains(second[j]));
        let i = choose|i: int| 0 <= i < first.len() && first[i] == second[j];
        assert(first[i].0 == k);
    }
    assert(table_of(first) =~= table_of(second));
    lemma_ordered_total(first);
    lemma_ordered_total(second);
}

/// The score does not depend on the order in which observations and factors
/// are walked: walked in any two orders, they give the same score, and that
/// score is the one got by adding up in either order.
pub proof fn lemma_score_order_independent(
    observations: Seq<(Seq<char>, i32)>,
    observations_reordered: Seq<(Seq<char>, i32)>,
    factors: Seq<(Seq<char>, i32)>,
    factors_reordered: Seq<(Seq<char>, i32)>,
)
    requires
        distinct_keys(observations),
        distinct_keys(observations_reordered),
        distinct_keys(factors),
        distinct_keys(factors_reordered),
        observations.to_multiset() == observations_reordered.to_multiset(),
        factors.to_multiset() == factors_reordered.to_multiset(),
    ensures
        score_of(table_of(observations), table_of(factors)) == score_of(
            table_of(observations_reordered),
            table_of(factors_reordered),
        ),
        score_of(table_of(observations), table_of(factors)) == clamp_score(
            ordered_total(observations_reordered) + FACTOR_WEIGHT * ordered_total(
                factors_reordered,
            ),
        ),
{
    lemma_order_independent(observations, observations_reordered);
    lemma_order_independent(factors, factors_reordered);
    lemma_ordered_total(observations_reordered);
    lemma_ordered_total(factors_reordered);
}

/// The score never leaves the range from 0 to `MAX_SCORE`, whatever is observed.
pub proof fn lemma_score_in_range(
    observations: Map<Seq<char>, i32>,
    factors: Map<Seq<char>, i32>,
)
    ensures
        0 <= score_of(observations, factors) <= MAX_SCORE,
{
}

/// The sum of all values of `m`.
pub fn sum_values(m: &StringMap<i32>) -> (sum: i128)
    ensures
        sum == total(m@),
        sum == ordered_total(m.entries()),
        -0x8000_0000_0000_0000_0000_0000 <= sum <= 0x8000_0000_0000_0000_0000_0000,
{
    let n = m.len();
    let mut sum: i128 = 0;
    let mut i: usize = 0;
    while i < n
        invariant
            i <= n,
            n == m.entries().len(),
            sum == ordered_total(m.entries().take(i as int)),
            -0x8000_0000 * i <= sum <= 0x7fff_ffff * i,
        decreases n - i,
    {
        let value = *m.value_at(i);
        assert(m.entries().take(i + 1).drop_last() =~= m.entries().take(i as int));
        sum = sum + value as i128;
        i += 1;
    }
    proof {
        assert(m.entries().take(n as int) =~= m.entries());
        lemma_ordered_total(m.entries());
        assert(-0x8000_0000_0000_0000_0000_0000 <= -0x8000_0000 * n && 0x7fff_ffff * n
            <= 0x8000_0000_0000_0000_0000_0000) by (nonlinear_arith)
            requires
                0 <= n <= 0xffff_ffff_ffff_ffff,
        ;
    }
    sum
}

/// The scores on record, one per identifier at most.
pub struct Reputation {
    score: StringMap<i32>,
}

impl View for Reputation {
    type V = Map<Seq<char>, i32>;

    closed spec fn view(&self) -> Map<Seq<char>, i32> {
        self.score@
    }
}

impl Reputation {
    #[verifier::type_invariant]
    spec fn well_formed(&self) -> bool {
        forall|did: Seq<char>| #[trigger]
            self.score@.contains_key(did) ==> 0 <= self.score@[did] <= MAX_SCORE
    }

    /// The score that `did` has: the recorded one, or 0 where none is recorded.
    pub open spec fn score_for(&self, did: Seq<char>) -> int {
        if self@.contains_key(did) {
            self@[did] as int
        } else {
            0
        }
    }

    /// A scoring engine with no score on record.
    pub fn new() -> (r: Reputation)
        ensures
            r@ == Map::<Seq<char>, i32>::empty(),
    {
        Reputation { score: StringMap::new() }
    }

    /// Computes a score: the sum of all observations plus twice the sum of all
    /// weighted factors, brought into the range from 0 to `MAX_SCORE`.
    /// Nothing is recorded.
    pub fn calculate_score(
        &self,
        data: StringMap<i32>,
        additional_factors: StringMap<i32>,
    ) -> (score: i32)
        ensures
            score == score_of(data@, additional_factors@),
            0 <= score <= MAX_SCORE,
    {
        let base_score = sum_values(&data);
        let factor_adjustment = (FACTOR_WEIGHT as i128) * sum_values(&additional_factors);
        let final_score = base_score + factor_adjustment;
        if final_score < 0 {
            0
        } else if final_score > MAX_SCORE as i128 {
            MAX_SCORE
        } else {
            final_score as i32
        }
    }

    /// Records `score` for `did`, brought into the range from 0 to `MAX_SCORE`,
    /// in place of any earlier score of `did`.
    pub fn set_score(&mut self, did: String, score: i32)
        ensures
            final(self)@ == old(self)@.insert(did@, clamp_score(score as int) as i32),
    {
        proof {
            use_type_invariant(&*self);
        }
        let kept = if score < 0 {
            0
        } else {
            score
        };
        let mut scores: StringMap<i32> = StringMap::new();
        std::mem::swap(&mut scores, &mut self.score);
        scores.insert(did, kept);
        self.score = scores;
    }

    /// The score on record for `did`, or 0 where there is none.
    pub fn verify_score(&self, did: &str) -> (score: i32)
        ensures
            score == self.score_for(did@),
            0 <= score <= MAX_SCORE,
    {
        proof {
            use_type_invariant(self);
        }
        match self.score.get(did) {
            Some(score) => *score,
            None => 0,
        }
    }
}

} // verus!
