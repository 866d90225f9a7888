use vstd::prelude::*;

verus! {

/// A similarity score, held as the bit pattern of an IEEE-754 binary32 value.
///
/// The ranking reads nothing of a score but its order, and that order can be
/// read off the bits: apart from NaN, binary32 values compare as their
/// sign-magnitude encodings do.
#[derive(Clone, Copy, Debug, PartialEq, Eq, Structural)]
pub struct Similarity {
    pub bits: u32,
}

/// The bit pattern with the sign bit cleared.
pub open spec fn magnitude(bits: u32) -> nat {
    (bits % 0x8000_0000) as nat
}

/// Exponent all ones and a non-zero fraction.
pub open spec fn is_nan_bits(bits: u32) -> bool {
    magnitude(bits) > 0x7f80_0000
}

pub open spec fn is_negative_bits(bits: u32) -> bool {
    bits >= 0x8000_0000
}

/// Where a score stands in the ranking order, higher being better. Every NaN
/// ranks 0, below every other value; the two zeros rank equal, as they compare
/// equal.
pub open spec fn rank_of(s: Similarity) -> nat {
    if is_nan_bits(s.bits) {
        0
    } else if is_negative_bits(s.bits) {
        (0x8000_0000 - magnitude(s.bits)) as nat
    } else {
        (0x8000_0000 + magnitude(s.bits)) as nat
    }
}

/// The rank of a score as a machine integer.
pub fn rank_key(s: Similarity) -> (k: u32)
    ensures
        k as nat == rank_of(s),
{
    let mag: u32 = s.bits % 0x8000_0000;
    if mag > 0x7f80_0000 {
        0
    } else if s.bits >= 0x8000_0000 {
        0x8000_0000 - mag
    } else {
        0x8000_0000 + mag
    }
}

/// Entry `i` comes before entry `j` in the ranking: its score ranks higher,
/// or the two rank equal and `i` was cached first.
pub open spec fn ranks_before(scores: Seq<Similarity>, i: int, j: int) -> bool {
    rank_of(scores[i]) > rank_of(scores[j]) || (rank_of(scores[i]) == rank_of(scores[j]) && i < j)
}

/// `order` lists every position of `scores` once, best first; among scores
/// that rank equal, the entry cached first comes first.
pub open spec fn is_ranking(scores: Seq<Similarity>, order: Seq<usize>) -> bool {
    &&& order.len() == scores.len()
    &&& forall|k: int| 0 <= k < order.len() ==> order[k] < scores.len()
    &&& forall|k: int, l: int| 0 <= k < l < order.len() ==> order[k] != order[l]
    &&& forall|k: int, l: int|
        0 <= k < l < order.len() ==> ranks_before(scores, order[k] as int, order[l] as int)
}

/// A ranking lists every position: each position below `scores.len()` occurs
/// in it.
proof fn lemma_ranking_covers(scores: Seq<Similarity>, order: Seq<usize>, x: usize)
    requires
        is_ranking(scores, order),
        x < scores.len(),
        scores.len() <= usize::MAX,
    ensures
        order.contains(x),
{
    let n = scores.len();
    assert(order.no_duplicates()) by {
        assert forall|i: int, j: int| 0 <= i < order.len() && 0 <= j < order.len() && i != j implies order[i]
            != order[j] by {
            if i > j {
                assert(order[j] != order[i]);
            }
        }
    }
    order.unique_seq_to_set();
    let range = vstd::set_lib::set_int_range(0, n as int);
    vstd::set_lib::lemma_int_range(0, n as int);
    let f = |i: int| i as usize;
    let all = range.map(f);
    assert forall|i: int, j: int| range.contains(i) && range.contains(j) && #[trigger] f(i) == #[trigger] f(
        j,
    ) implies i == j by {
        assert(i as usize as int == i && j as usize as int == j);
    }
    assert(vstd::relations::injective_on(f, range));
    vstd::set_lib::lemma_map_size(range, all, f);
    if !order.contains(x) {
        assert(all.contains(x)) by {
            assert(range.contains(x as int) && f(x as int) == x);
        }
        assert forall|y: usize| order.to_set().contains(y) implies all.remove(x).contains(y) by {
            let j = choose|j: int| 0 <= j < order.len() && order[j] == y;
            assert(range.contains(y as int) && f(y as int) == y);
        }
        vstd::set_lib::lemma_len_subset(order.to_set(), all.remove(x));
    }
}

proof fn lemma_rankings_agree_up_to(
    scores: Seq<Similarity>,
    first: Seq<usize>,
    second: Seq<usize>,
    k: int,
)
    requires
        is_ranking(scores, first),
        is_ranking(scores, second),
        0 <= k < scores.len(),
        scores.len() <= usize::MAX,
    ensures
        forall|j: int| 0 <= j <= k ==> first[j] == second[j],
    decreases k,
{
    if k > 0 {
        lemma_rankings_agree_up_to(scores, first, second, k - 1);
    }
    let a = first[k];
    let b = second[k];
    if a != b {
        lemma_ranking_covers(scores, second, a);
        lemma_ranking_covers(scores, first, b);
        let l = choose|l: int| 0 <= l < second.len() && second[l] == a;
        let m = choose|m: int| 0 <= m < first.len() && first[m] == b;
        if l < k {
            assert(first[l] == second[l]);
        }
        if m < k {
            assert(first[m] == second[m]);
        }
        assert(ranks_before(scores, b as int, a as int));
        assert(ranks_before(scores, a as int, b as int));
    }
}

/// The ranking of a list of scores is unique: any two orders that satisfy
/// `is_ranking` for the same scores (a list that fits in memory) are the same
/// order.
pub proof fn lemma_ranking_unique(scores: Seq<Similarity>, first: Seq<usize>, second: Seq<usize>)
    requires
        is_ranking(scores, first),
        is_ranking(scores, second),
        scores.len() <= usize::MAX,
    ensures
        first == second,
{
    if scores.len() > 0 {
        lemma_rankings_agree_up_to(scores, first, second, scores.len() - 1);
    }
    assert(first =~= second);
}

/// The ranking of `scores`: there is exactly one (`lemma_ranking_unique`).
pub open spec fn ranking_of(scores: Seq<Similarity>) -> Seq<usize> {
    choose|order: Seq<usize>| is_ranking(scores, order)
}

/// `order` lists the positions `lo..hi` of `scores`, each once, best first.
pub open spec fn is_range_ranking(scores: Seq<Similarity>, order: Seq<usize>, lo: nat, hi: nat) -> bool {
    &&& order.len() == hi - lo
    &&& forall|k: int| 0 <= k < order.len() ==> lo <= #[trigger] order[k] < hi
    &&& forall|k: int, l: int|
        0 <= k < l < order.len() ==> ranks_before(scores, order[k] as int, order[l] as int)
}

/// Merges the rankings of two adjacent ranges `lo..mid` and `mid..hi`.
fn merge_rankings(
    scores: &Vec<Similarity>,
    left: Vec<usize>,
    right: Vec<usize>,
    lo: Ghost<nat>,
    mid: Ghost<nat>,
    hi: Ghost<nat>,
) -> (r: Vec<usize>)
    requires
        lo@ <= mid@ <= hi@ <= scores.len(),
        is_range_ranking(scores@, left@, lo@, mid@),
        is_range_ranking(scores@, right@, mid@, hi@),
    ensures
        is_range_ranking(scores@, r@, lo@, hi@),
{
    let mut out: Vec<usize> = Vec::new();
    let mut i: usize = 0;
    let mut j: usize = 0;
    while i < left.len() || j < right.len()
        invariant
            lo@ <= mid@ <= hi@ <= scores.len(),
            is_range_ranking(scores@, left@, lo@, mid@),
            is_range_ranking(scores@, right@, mid@, hi@),
            i <= left.len(),
            j <= right.len(),
            out.len() == i + j,
            forall|k: int| 0 <= k < out.len() ==> lo@ <= #[trigger] out@[k] < hi@,
            forall|k: int, l: int|
                0 <= k < l < out.len() ==> ranks_before(scores@, out@[k] as int, out@[l] as int),
            forall|k: int, l: int|
                0 <= k < out.len() && i <= l < left.len() ==> ranks_before(
                    scores@,
                    out@[k] as int,
                    left@[l] as int,
                ),
            forall|k: int, l: int|
                0 <= k < out.len() && j <= l < right.len() ==> ranks_before(
                    scores@,
                    out@[k] as int,
                    right@[l] as int,
                ),
        decreases left.len() + right.len() - i - j,
    {
        let take_left = if i < left.len() && j < right.len() {
            rank_key(scores[left[i]]) >= rank_key(scores[right[j]])
        } else {
            i < left.len()
        };
        let x = if take_left {
            left[i]
        } else {
            right[j]
        };
        proof {
            if take_left {
                assert forall|l: int| j <= l < right.len() implies ranks_before(
                    scores@,
                    x as int,
                    right@[l] as int,
                ) by {
                    assert(left@[i as int] < mid@ && mid@ <= right@[j as int]);
                    assert(ranks_before(scores@, x as int, right@[j as int] as int));
                    if l > j {
                        assert(ranks_before(scores@, right@[j as int] as int, right@[l] as int));
                    }
                }
            } else {
                assert forall|l: int| i <= l < left.len() implies ranks_before(
                    scores@,
                    x as int,
                    left@[l] as int,
                ) by {
                    assert(left@[i as int] < mid@ && mid@ <= right@[j as int]);
                    assert(ranks_before(scores@, x as int, left@[i as int] as int));
                    if l > i {
                        assert(ranks_before(scores@, left@[i as int] as int, left@[l] as int));
                    }
                }
            }
        }
        out.push(x);
        if take_left {
            i = i + 1;
        } else {
            j = j + 1;
        }
    }
    out
}

/// Ranks the positions `lo..hi` of `scores`.
fn rank_range(scores: &Vec<Similarity>, lo: usize, hi: usize) -> (r: Vec<usize>)
    requires
        lo <= hi <= scores.len(),
    ensures
        is_range_ranking(scores@, r@, lo as nat, hi as nat),
    decreases hi - lo,
{
    if hi - lo == 0 {
        return Vec::new();
    }
    if hi - lo == 1 {
        let mut r: Vec<usize> = Vec::new();
        r.push(lo);
        return r;
    }
    let mid = lo + (hi - lo) / 2;
    let left = rank_range(scores, lo, mid);
    let right = rank_range(scores, mid, hi);
    merge_rankings(scores, left, right, Ghost(lo as nat), Ghost(mid as nat), Ghost(hi as nat))
}

/// Sorts the positions of `scores` by descending score; NaN scores sort
/// after every other score, and equal scores keep their cached order.
pub fn rank_descending(scores: &Vec<Similarity>) -> (order: Vec<usize>)
    ensures
        is_ranking(scores@, order@),
        order@ == ranking_of(scores@),
{
    let order = rank_range(scores, 0, scores.len());
    proof {
        assert forall|k: int, l: int| 0 <= k < l < order@.len() implies order@[k] != order@[l] by {
            assert(ranks_before(scores@, order@[k] as int, order@[l] as int));
        }
        assert(is_ranking(scores@, order@));
        assert(is_ranking(scores@, ranking_of(scores@)));
        lemma_ranking_unique(scores@, order@, ranking_of(scores@));
    }
    order
}

/// ceil(n / 5): the top fifth of the ranking, rounded up.
pub open spec fn ceil_fifth(n: nat) -> nat {
    if n % 5 == 0 {
        n / 5
    } else {
        n / 5 + 1
    }
}

/// Size of the candidate pool for `n` cached entries: the top fifth, or
/// `top_n` if that is larger, but never more than `n`.
pub open spec fn pool_len(n: nat, top_n: nat) -> nat {
    let wanted = if ceil_fifth(n) >= top_n {
        ceil_fifth(n)
    } else {
        top_n
    };
    if wanted <= n {
        wanted
    } else {
        n
    }
}

/// How many entries are drawn from a pool of `pool` candidates.
pub open spec fn draw_count(pool: nat, top_n: nat) -> nat {
    if top_n <= pool {
        top_n
    } else {
        pool
    }
}

/// `draws` holds `amount` distinct positions, each below `pool`.
pub open spec fn valid_draws(draws: Seq<usize>, pool: nat, amount: nat) -> bool {
    &&& draws.len() == amount
    &&& forall|k: int| 0 <= k < draws.len() ==> draws[k] < pool
    &&& forall|k: int, l: int| 0 <= k < l < draws.len() ==> draws[k] != draws[l]
}

/// Candidate pool size for `n` cached entries and `top_n` requested results.
pub fn candidate_pool_size(n: usize, top_n: usize) -> (r: usize)
    ensures
        r as nat == pool_len(n as nat, top_n as nat),
{
    let base: usize = if n % 5 == 0 {
        n / 5
    } else {
        n / 5 + 1
    };
    let wanted: usize = if base >= top_n {
        base
    } else {
        top_n
    };
    if wanted <= n {
        wanted
    } else {
        n
    }
}

/// Relies on `rand::seq::index::sample`, drawing from the thread-local
/// generator: `amount` distinct indices from `0..length`, uniformly. It panics
/// when `amount > length`, which `requires` rules out.
#[verifier::external_body]
fn sample_distinct(length: usize, amount: usize) -> (r: Vec<usize>)
    requires
        amount <= length,
    ensures
        valid_draws(r@, length as nat, amount as nat),
{
    rand::seq::index::sample(&mut rand::rng(), length, amount).into_vec()
}

/// Result entry `k` is the entry at ranking position `draws[k]`, with its score.
pub open spec fn picks(
    ids: Seq<Seq<char>>,
    scores: Seq<Similarity>,
    order: Seq<usize>,
    draws: Seq<usize>,
    result: Seq<(String, Similarity)>,
) -> bool {
    &&& result.len() == draws.len()
    &&& forall|k: int|
        0 <= k < result.len() ==> {
            &&& result[k].0@ == ids[order[draws[k] as int] as int]
            &&& result[k].1 == scores[order[draws[k] as int] as int]
        }
}

/// `result` is what the diversified search may return for `scores` and
/// `top_n`: some draw of `min(top_n, pool)` distinct positions of the candidate
/// pool, picked from the ranking.
pub open spec fn is_diverse_selection(
    ids: Seq<Seq<char>>,
    scores: Seq<Similarity>,
    top_n: nat,
    result: Seq<(String, Similarity)>,
) -> bool {
    &&& ids.len() == scores.len()
    &&& is_ranking(scores, ranking_of(scores))
    &&& exists|draws: Seq<usize>|
        {
            &&& valid_draws(
                draws,
                pool_len(scores.len(), top_n),
                draw_count(pool_len(scores.len(), top_n), top_n),
            )
            &&& picks(ids, scores, ranking_of(scores), draws, result)
        }
}

/// The positions at which `x` occurs in `s`.
pub open spec fn positions_of(s: Seq<Seq<char>>, x: Seq<char>) -> Set<int> {
    Set::new(|i: int| 0 <= i < s.len() && s[i] == x)
}

/// The identifiers of a search result, in result order.
pub open spec fn result_ids(result: Seq<(String, Similarity)>) -> Seq<Seq<char>> {
    result.map_values(|e: (String, Similarity)| e.0@)
}

proof fn lemma_positions_finite(s: Seq<Seq<char>>, x: Seq<char>)
    ensures
        positions_of(s, x).finite(),
{
    vstd::set_lib::lemma_int_range(0, s.len() as int);
    vstd::set_lib::lemma_len_subset(positions_of(s, x), vstd::set_lib::set_int_range(0, s.len() as int));
}

/// A search result fabricates no entry: every identifier occurs in it at most
/// as often as it occurs in the cache.
pub proof fn lemma_no_fabricated_entries(
    ids: Seq<Seq<char>>,
    scores: Seq<Similarity>,
    top_n: nat,
    result: Seq<(String, Similarity)>,
    x: Seq<char>,
)
    requires
        is_diverse_selection(ids, scores, top_n, result),
    ensures
        positions_of(result_ids(result), x).len() <= positions_of(ids, x).len(),
{
    let order = ranking_of(scores);
    let draws = choose|draws: Seq<usize>|
        {
            &&& valid_draws(
                draws,
                pool_len(scores.len(), top_n),
                draw_count(pool_len(scores.len(), top_n), top_n),
            )
            &&& picks(ids, scores, order, draws, result)
        };
    let a = positions_of(result_ids(result), x);
    let b = positions_of(ids, x);
    let f = |k: int| order[draws[k] as int] as int;
    lemma_positions_finite(result_ids(result), x);
    lemma_positions_finite(ids, x);
    assert(pool_len(scores.len(), top_n) <= scores.len());
    assert forall|k1: int, k2: int| a.contains(k1) && a.contains(k2) && #[trigger] f(k1) == #[trigger] f(k2) implies k1 == k2 by {
        if k1 != k2 {
            if k1 < k2 {
                assert(draws[k1] != draws[k2]);
            } else {
                assert(draws[k2] != draws[k1]);
            }
        }
    }
    assert(vstd::relations::injective_on(f, a));
    vstd::set_lib::lemma_map_size(a, a.map(f), f);
    assert forall|i: int| a.map(f).contains(i) implies b.contains(i) by {
        let k = choose|k: int| a.contains(k) && f(k) == i;
        assert(result_ids(result)[k] == result[k].0@);
    }
    vstd::set_lib::lemma_len_subset(a.map(f), b);
}

/// The in-memory cache of (identifier, embedding) pairs, in the order they
/// were added. The embedding type is left open: the index only stores it; the
/// caller computes, in floating point, the scores that the index ranks.
pub struct CosineIndex<E> {
    pub cached_images: Vec<(String, E)>,
}

impl<E> CosineIndex<E> {
    /// The identifiers of the cached entries, in cache order.
    pub open spec fn ids(&self) -> Seq<Seq<char>> {
        self.cached_images@.map_values(|e: (String, E)| e.0@)
    }

    /// An empty index.
    pub fn new() -> (r: Self)
        ensures
            r.cached_images@.len() == 0,
    {
        CosineIndex { cached_images: Vec::new() }
    }

    /// Appends an entry; duplicates of identifier or embedding are kept.
    pub fn add_image(&mut self, path: String, embedding: E)
        ensures
            final(self).cached_images@ == old(self).cached_images@.push((path, embedding)),
    {
        self.cached_images.push((path, embedding));
    }

    /// The diversified selection for given draws: the entries at ranking
    /// positions `draws`, in that order, each with its score. `scores[i]` is
    /// the similarity of the query to cached entry `i`.
    pub fn select_from_pool(
        &self,
        scores: &Vec<Similarity>,
        order: &Vec<usize>,
        draws: &Vec<usize>,
    ) -> (r: Vec<(String, Similarity)>)
        requires
            scores.len() == self.cached_images.len(),
            is_ranking(scores@, order@),
            forall|k: int| 0 <= k < draws.len() ==> draws@[k] < order.len(),
        ensures
            picks(self.ids(), scores@, order@, draws@, r@),
    {
        let mut r: Vec<(String, Similarity)> = Vec::new();
        let mut k: usize = 0;
        while k < draws.len()
            invariant
                k <= draws.len(),
                scores.len() == self.cached_images.len(),
                is_ranking(scores@, order@),
                forall|j: int| 0 <= j < draws.len() ==> draws@[j] < order.len(),
                r.len() == k,
                forall|j: int|
                    0 <= j < k ==> {
                        &&& r@[j].0@ == self.ids()[order@[draws@[j] as int] as int]
                        &&& r@[j].1 == scores@[order@[draws@[j] as int] as int]
                    },
            decreases draws.len() - k,
        {
            let at = order[draws[k]];
            let id = self.cached_images[at].0.clone();
            r.push((id, scores[at]));
            k = k + 1;
        }
        r
    }

    /// Ranks the cached entries by `scores`, the similarity of the query to
    /// each, and returns the entries at ranking positions `draws` with their
    /// scores. `draws` must be `min(top_n, pool)` distinct positions below the
    /// candidate pool size: what a uniform sample without replacement yields.
    pub fn get_similar_images_with_draws(
        &self,
        scores: &Vec<Similarity>,
        top_n: usize,
        draws: &Vec<usize>,
    ) -> (r: Vec<(String, Similarity)>)
        requires
            scores.len() == self.cached_images.len(),
            valid_draws(
                draws@,
                pool_len(scores.len() as nat, top_n as nat),
                draw_count(pool_len(scores.len() as nat, top_n as nat), top_n as nat),
            ),
        ensures
            picks(self.ids(), scores@, ranking_of(scores@), draws@, r@),
    {
        let order = rank_descending(scores);
        self.select_from_pool(scores, &order, draws)
    }

    /// Ranks the cached entries by `scores`, the similarity of the query to
    /// each, takes the candidate pool (the top fifth of the ranking, or the
    /// top `top_n` if larger) and returns `min(top_n, pool)` entries of it drawn
    /// uniformly without replacement, each with its score.
    pub fn get_similar_images(&self, scores: &Vec<Similarity>, top_n: usize) -> (r: Vec<
        (String, Similarity),
    >)
        requires
            scores.len() == self.cached_images.len(),
        ensures
            r.len() == draw_count(pool_len(scores.len() as nat, top_n as nat), top_n as nat),
            r.len() <= self.cached_images.len(),
            self.cached_images.len() == 0 ==> r.len() == 0,
            is_diverse_selection(self.ids(), scores@, top_n as nat, r@),
    {
        let pool = candidate_pool_size(scores.len(), top_n);
        let amount: usize = if top_n <= pool {
            top_n
        } else {
            pool
        };
        let draws = sample_distinct(pool, amount);
        let order = rank_descending(scores);
        let r = self.select_from_pool(scores, &order, &draws);
        assert(picks(self.ids(), scores@, order@, draws@, r@));
        assert(self.ids().len() == scores.len());
        r
    }
}

} // verus!
