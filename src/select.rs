//! Parent selection for recombination.
use vstd::prelude::*;

use crate::individual::Individual;

verus! {

/// A strategy that picks pairs of parents from a population.
pub trait Selector<T> {
    /// Whether the strategy refuses a population of `len` candidates.
    spec fn fails_for(&self, len: nat) -> bool;

    /// Parent pairs drawn from `population`; fails exactly when the strategy
    /// refuses a population of that size.
    fn select(&self, population: &[T]) -> (r: Result<Vec<(T, T)>, ()>)
        ensures
            r is Err <==> self.fails_for(population@.len()),
    ;
}

/// Whether index `i` ranks above index `j` when ranking by descending score,
/// ties kept in their original order.
pub open spec fn ranks_above(scores: Seq<u64>, i: int, j: int) -> bool {
    scores[i] > scores[j] || (scores[i] == scores[j] && i < j)
}

/// `idx` lists, best first, the `count` indices of `scores` that rank highest.
pub open spec fn is_top_ranking(scores: Seq<u64>, idx: Seq<usize>, count: nat) -> bool {
    &&& idx.len() == count
    &&& forall|m: int| 0 <= m < idx.len() ==> #[trigger] idx[m] < scores.len()
    &&& forall|m: int, n: int|
        0 <= m < n < idx.len() ==> ranks_above(scores, #[trigger] idx[m] as int, #[trigger] idx[n] as int)
    &&& forall|m: int, k: int|
        0 <= m < idx.len() && 0 <= k < scores.len() && !idx.contains(k as usize) ==> #[trigger] ranks_above(scores, idx[m] as int, k)
}

/// Consecutive entries of `idx` paired up: (0, 1), (2, 3), ...
pub open spec fn paired(idx: Seq<usize>) -> Seq<(usize, usize)> {
    Seq::new(idx.len() / 2, |p: int| (idx[2 * p], idx[2 * p + 1]))
}

/// The top-ranked index holds a maximal score, and the ranking pairs up into
/// `count / 2` pairs whose first one starts with it.
pub proof fn lemma_first_parent_is_best(scores: Seq<u64>, idx: Seq<usize>, count: nat)
    requires
        is_top_ranking(scores, idx, count),
        count > 0,
        count % 2 == 0,
        scores.len() <= usize::MAX,
    ensures
        paired(idx).len() == count / 2,
        paired(idx)[0].0 == idx[0],
        forall|k: int| 0 <= k < scores.len() ==> #[trigger] scores[k] <= scores[idx[0] as int],
{
    assert forall|k: int| 0 <= k < scores.len() implies #[trigger] scores[k] <= scores[idx[0] as int] by {
        if idx.contains(k as usize) {
            let m = choose|m: int| 0 <= m < idx.len() && idx[m] == k as usize;
            assert(idx[m] as int == k);
            if m > 0 {
                assert(ranks_above(scores, idx[0] as int, idx[m] as int));
            }
        } else {
            assert(ranks_above(scores, idx[0] as int, k));
        }
    }
}

/// Whether `count` is a usable parameter for a population of `len` candidates.
pub open spec fn count_is_valid(count: nat, len: nat) -> bool {
    count > 0 && count % 2 == 0 && count * 2 < len
}

/// The indices of the `count` highest scores, best first; equal scores keep
/// their order.
pub fn top_ranked(scores: &Vec<u64>, count: usize) -> (idx: Vec<usize>)
    requires
        count <= scores.len(),
    ensures
        is_top_ranking(scores@, idx@, count as nat),
{
    let n = scores.len();
    let mut taken: Vec<bool> = Vec::new();
    let mut i: usize = 0;
    while i < n
        invariant
            n == scores.len(),
            i <= n,
            taken.len() == i,
            forall|k: int| 0 <= k < i ==> !#[trigger] taken@[k],
        decreases n - i,
    {
        taken.push(false);
        i = i + 1;
    }
    let mut idx: Vec<usize> = Vec::new();
    while idx.len() < count
        invariant
            n == scores.len(),
            count <= n,
            taken.len() == n,
            idx.len() <= count,
            forall|m: int| 0 <= m < idx.len() ==> #[trigger] idx@[m] < n,
            forall|k: int| 0 <= k < n ==> (#[trigger] taken@[k] <==> idx@.contains(k as usize)),
            forall|m: int, q: int|
                0 <= m < q < idx.len() ==> ranks_above(scores@, #[trigger] idx@[m] as int, #[trigger] idx@[q] as int),
            forall|m: int, k: int|
                0 <= m < idx.len() && 0 <= k < n && !idx@.contains(k as usize) ==> #[trigger] ranks_above(scores@, idx@[m] as int, k),
            forall|m: int, q: int| 0 <= m < q < idx.len() ==> #[trigger] idx@[m] != #[trigger] idx@[q],
        decreases count - idx.len(),
    {
        proof {
            // some index is still free: otherwise `idx` would hold all `n` indices
            if forall|k: int| 0 <= k < n ==> #[trigger] taken@[k] {
                let pos = Seq::new(
                    n as nat,
                    |k: int| (choose|w: int| 0 <= w < idx@.len() && idx@[w] == k as usize) as usize,
                );
                assert forall|k: int| 0 <= k < pos.len() implies #[trigger] pos[k] < idx@.len()
                    && idx@[pos[k] as int] == k as usize by {
                    assert(taken@[k]);
                    assert(idx@.contains(k as usize));
                }
                assert forall|a: int, b: int| 0 <= a < b < pos.len() implies #[trigger] pos[a]
                    != #[trigger] pos[b] by {
                    assert(idx@[pos[a] as int] == a as usize);
                    assert(idx@[pos[b] as int] == b as usize);
                }
                lemma_distinct_bounded_len(pos, idx@.len());
            }
        }
        let mut best: usize = 0;
        let mut found = false;
        let mut j: usize = 0;
        while j < n
            invariant
                n == scores.len(),
                taken.len() == n,
                j <= n,
                found ==> best < j && !taken@[best as int],
                found ==> forall|k: int|
                    0 <= k < j && !#[trigger] taken@[k] && k != best ==> ranks_above(scores@, best as int, k),
                !found ==> forall|k: int| 0 <= k < j ==> #[trigger] taken@[k],
            decreases n - j,
        {
            if !taken[j] {
                if !found || scores[j] > scores[best] {
                    best = j;
                    found = true;
                }
            }
            j = j + 1;
        }
        assert(found);
        let ghost old_idx = idx@;
        let ghost old_taken = taken@;
        idx.push(best);
        taken.set(best, true);
        proof {
            assert(idx@ == old_idx.push(best));
            assert forall|m: int, k: int|
                0 <= m < idx@.len() && 0 <= k < n && !idx@.contains(k as usize) implies #[trigger] ranks_above(
                scores@,
                idx@[m] as int,
                k,
            ) by {
                assert(idx@[idx@.len() - 1] == best);
                if old_idx.contains(k as usize) {
                    let w = choose|w: int| 0 <= w < old_idx.len() && old_idx[w] == k as usize;
                    assert(idx@[w] == k as usize);
                }
                if m < old_idx.len() {
                    assert(idx@[m] == old_idx[m]);
                } else {
                    assert(k != best as int);
                    assert(!old_taken[k]);
                }
            }
            assert forall|m: int, q: int| 0 <= m < q < idx@.len() implies #[trigger] idx@[m]
                != #[trigger] idx@[q] by {
                if q == idx@.len() - 1 {
                    assert(old_idx.contains(idx@[m]));
                }
            }
            assert forall|m: int, q: int| 0 <= m < q < idx@.len() implies ranks_above(
                scores@,
                #[trigger] idx@[m] as int,
                #[trigger] idx@[q] as int,
            ) by {
                if q == idx@.len() - 1 {
                    assert(!old_idx.contains(best));
                    assert(idx@[m] == old_idx[m]);
                }
            }
            assert forall|k: int| 0 <= k < n implies (#[trigger] taken@[k] <==> idx@.contains(k as usize)) by {
                if k == best as int {
                    assert(idx@[idx@.len() - 1] == best);
                } else {
                    if old_idx.contains(k as usize) {
                        let w = choose|w: int| 0 <= w < old_idx.len() && old_idx[w] == k as usize;
                        assert(idx@[w] == k as usize);
                    }
                    if idx@.contains(k as usize) {
                        let w = choose|w: int| 0 <= w < idx@.len() && idx@[w] == k as usize;
                        assert(old_idx[w] == k as usize);
                    }
                }
            }
        }
    }
    idx
}

/// A sequence of distinct indices below `n` has at most `n` entries.
proof fn lemma_distinct_bounded_len(s: Seq<usize>, n: nat)
    requires
        forall|m: int| 0 <= m < s.len() ==> #[trigger] s[m] < n,
        forall|m: int, q: int| 0 <= m < q < s.len() ==> #[trigger] s[m] != #[trigger] s[q],
    ensures
        s.len() <= n,
    decreases n,
{
    if s.len() > 0 {
        let last = s[s.len() - 1];
        let t = s.drop_last();
        assert forall|m: int| 0 <= m < t.len() implies #[trigger] t[m] != last by {
            assert(s[m] != s[s.len() - 1]);
        }
        // map every entry above `last` down by one, giving distinct indices below n - 1
        let u = t.map_values(|x: usize| if x > last { (x - 1) as usize } else { x });
        assert forall|m: int| 0 <= m < u.len() implies #[trigger] u[m] < (n - 1) as nat by {
            assert(t[m] == s[m]);
        }
        assert forall|m: int, q: int| 0 <= m < q < u.len() implies #[trigger] u[m] != #[trigger] u[q] by {
            assert(t[m] == s[m]);
            assert(t[q] == s[q]);
        }
        lemma_distinct_bounded_len(u, (n - 1) as nat);
    }
}

/// Truncation selection: ranks candidates by descending score (higher is
/// better here) and pairs the best `count` of them consecutively.
#[derive(Clone, Copy, Debug)]
pub struct MaximizeSelector {
    count: usize,
}

impl MaximizeSelector {
    /// A selector that picks `count` parents. `count` must be positive, even
    /// and less than half the size of the population it is applied to.
    pub fn new(count: usize) -> (r: MaximizeSelector)
        ensures
            r.count() == count,
    {
        MaximizeSelector { count }
    }

    pub closed spec fn count(&self) -> usize {
        self.count
    }

    /// The number of parents this selector picks.
    pub fn get_count(&self) -> (r: usize)
        ensures
            r == self.count(),
    {
        self.count
    }

    /// Parent pairs, as indices into `scores`: the `count` best-scoring
    /// indices, best first, paired consecutively. Fails exactly when `count`
    /// is zero, odd, or not less than half of `scores.len()`.
    pub fn select_indices(&self, scores: &Vec<u64>) -> (r: Result<Vec<(usize, usize)>, ()>)
        ensures
            r is Err <==> !count_is_valid(self.count() as nat, scores.len() as nat),
            r matches Ok(pairs) ==> exists|idx: Seq<usize>|
                is_top_ranking(scores@, idx, self.count() as nat) && pairs@ == paired(idx),
    {
        if self.count == 0 || self.count % 2 != 0 || self.count >= scores.len()
            || self.count >= scores.len() - self.count {
            return Err(());
        }
        let idx = top_ranked(scores, self.count);
        let mut pairs: Vec<(usize, usize)> = Vec::new();
        let mut p: usize = 0;
        while p < self.count / 2
            invariant
                idx.len() == self.count,
                self.count % 2 == 0,
                p <= self.count / 2,
                pairs@ == paired(idx@).take(p as int),
            decreases self.count / 2 - p,
        {
            pairs.push((idx[2 * p], idx[2 * p + 1]));
            p = p + 1;
            assert(pairs@ =~= paired(idx@).take(p as int));
        }
        assert(pairs@ =~= paired(idx@));
        Ok(pairs)
    }

    /// Parent pairs drawn from `population`, scored by `calculate_fitness`
    /// (higher is better): the same choice as `select_indices` on those scores.
    pub fn select_from<I: Individual + Clone>(&self, population: &[I]) -> (r: Result<Vec<(I, I)>, ()>)
        ensures
            r is Err <==> !count_is_valid(self.count() as nat, population@.len()),
            r matches Ok(pairs) ==> exists|scores: Seq<u64>, idx: Seq<usize>|
                #![trigger is_top_ranking(scores, idx, self.count() as nat)]
                scores.len() == population@.len() && is_top_ranking(scores, idx, self.count() as nat)
                    && pairs_cloned_from(population@, paired(idx), pairs@),
    {
        let mut scores: Vec<u64> = Vec::new();
        let mut i: usize = 0;
        while i < population.len()
            invariant
                i <= population@.len(),
                scores.len() == i,
            decreases population@.len() - i,
        {
            scores.push(population[i].calculate_fitness());
            i = i + 1;
        }
        match self.select_indices(&scores) {
            Err(e) => Err(e),
            Ok(index_pairs) => {
                let ghost idx = choose|idx: Seq<usize>|
                    is_top_ranking(scores@, idx, self.count() as nat) && index_pairs@ == paired(idx);
                let mut pairs: Vec<(I, I)> = Vec::new();
                let mut p: usize = 0;
                while p < index_pairs.len()
                    invariant
                        p <= index_pairs.len(),
                        pairs.len() == p,
                        scores.len() == population@.len(),
                        is_top_ranking(scores@, idx, self.count() as nat),
                        index_pairs@ == paired(idx),
                        forall|t: int|
                            0 <= t < p ==> cloned::<I>(population@[index_pairs@[t].0 as int], (#[trigger] pairs@[t]).0)
                                && cloned::<I>(population@[index_pairs@[t].1 as int], pairs@[t].1),
                    decreases index_pairs.len() - p,
                {
                    let (a, b) = index_pairs[p];
                    proof {
                        assert(idx[2 * p as int] < scores.len());
                        assert(idx[2 * p as int + 1] < scores.len());
                    }
                    let ca = population[a].clone();
                    let cb = population[b].clone();
                    pairs.push((ca, cb));
                    p = p + 1;
                }
                assert(pairs_cloned_from(population@, paired(idx), pairs@));
                Ok(pairs)
            },
        }
    }
}

/// `pairs` holds, pair by pair, clones of the candidates of `population` at
/// the positions in `positions`.
pub open spec fn pairs_cloned_from<I: Clone>(population: Seq<I>, positions: Seq<(usize, usize)>, pairs: Seq<(I, I)>) -> bool {
    &&& pairs.len() == positions.len()
    &&& forall|t: int|
        0 <= t < pairs.len() ==> cloned::<I>(population[positions[t].0 as int], (#[trigger] pairs[t]).0)
            && cloned::<I>(population[positions[t].1 as int], pairs[t].1)
}

impl<I: Individual + Clone> Selector<I> for MaximizeSelector {
    open spec fn fails_for(&self, len: nat) -> bool {
        !count_is_valid(self.count() as nat, len)
    }

    fn select(&self, population: &[I]) -> Result<Vec<(I, I)>, ()> {
        self.select_from(population)
    }
}

} // verus!
