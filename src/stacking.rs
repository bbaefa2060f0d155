//! Splitting a pool of tiles into sub-layers so that no two tiles of one
//! sub-layer sit on the same grid cell.
use vstd::prelude::*;

verus! {

/// A position in whole grid cells.
#[derive(Clone, Copy, Debug, PartialEq, Eq, Structural)]
pub struct GridCoord {
    pub x: i64,
    pub y: i64,
}

/// How many times `c` occurs in `s`.
pub open spec fn count_in(s: Seq<GridCoord>, c: GridCoord) -> nat
    decreases s.len(),
{
    if s.len() == 0 {
        0
    } else {
        count_in(s.drop_last(), c) + if s.last() == c { 1nat } else { 0nat }
    }
}

/// How many tiles before position `i` share its cell: the tile at `i` is
/// the `(rank + 1)`-th occurrence of its cell and goes to sub-layer `rank`.
pub open spec fn rank(s: Seq<GridCoord>, i: int) -> nat {
    count_in(s.take(i), s[i])
}

/// The number of sub-layers that the first `n` tiles of `s` need.
pub open spec fn depth_upto(s: Seq<GridCoord>, n: int) -> nat
    decreases n,
{
    if n <= 0 {
        0
    } else {
        let d = depth_upto(s, n - 1);
        let r = rank(s, n - 1) + 1;
        if r > d {
            r
        } else {
            d
        }
    }
}

/// The number of sub-layers that the pool `s` is split into.
pub open spec fn depth(s: Seq<GridCoord>) -> nat {
    depth_upto(s, s.len() as int)
}

/// The positions, in pool order, among the first `n` tiles of `s`, of the
/// tiles that belong to sub-layer `k`.
pub open spec fn sublayer_upto(s: Seq<GridCoord>, k: nat, n: int) -> Seq<int>
    decreases n,
{
    if n <= 0 {
        Seq::empty()
    } else {
        sublayer_upto(s, k, n - 1) + if rank(s, n - 1) == k {
            seq![n - 1]
        } else {
            Seq::empty()
        }
    }
}

/// The positions, in pool order, of the tiles of sub-layer `k`.
pub open spec fn sublayer(s: Seq<GridCoord>, k: nat) -> Seq<int> {
    sublayer_upto(s, k, s.len() as int)
}

/// The total number of tiles in the first `m` sub-layers.
pub open spec fn total_size(s: Seq<GridCoord>, m: nat) -> nat
    decreases m,
{
    if m == 0 {
        0
    } else {
        total_size(s, (m - 1) as nat) + sublayer(s, (m - 1) as nat).len()
    }
}

/// The positions of a `Vec` of indices, as integers.
pub open spec fn as_ints(v: Seq<usize>) -> Seq<int> {
    v.map_values(|i: usize| i as int)
}

proof fn lemma_count_take_step(s: Seq<GridCoord>, i: int, c: GridCoord)
    requires
        0 <= i < s.len(),
    ensures
        count_in(s.take(i + 1), c) == count_in(s.take(i), c) + if s[i] == c { 1nat } else { 0nat },
{
    assert(s.take(i + 1).drop_last() =~= s.take(i));
}

proof fn lemma_count_take_mono(s: Seq<GridCoord>, a: int, b: int, c: GridCoord)
    requires
        0 <= a <= b <= s.len(),
    ensures
        count_in(s.take(a), c) <= count_in(s.take(b), c),
    decreases b - a,
{
    if a < b {
        lemma_count_take_step(s, b - 1, c);
        lemma_count_take_mono(s, a, b - 1, c);
    }
}

proof fn lemma_count_absent(s: Seq<GridCoord>, c: GridCoord)
    requires
        forall|j: int| 0 <= j < s.len() ==> s[j] != c,
    ensures
        count_in(s, c) == 0,
    decreases s.len(),
{
    if s.len() > 0 {
        lemma_count_absent(s.drop_last(), c);
    }
}

/// `sum_upto(s, m, n)` counts the tiles among the first `n` that fall in the
/// first `m` sub-layers.
spec fn sum_upto(s: Seq<GridCoord>, m: nat, n: int) -> nat
    decreases m,
{
    if m == 0 {
        0
    } else {
        sum_upto(s, (m - 1) as nat, n) + sublayer_upto(s, (m - 1) as nat, n).len()
    }
}

proof fn lemma_sum_upto_step(s: Seq<GridCoord>, m: nat, n: int)
    requires
        0 < n,
    ensures
        sum_upto(s, m, n) == sum_upto(s, m, n - 1) + if rank(s, n - 1) < m { 1nat } else { 0nat },
    decreases m,
{
    if m > 0 {
        lemma_sum_upto_step(s, (m - 1) as nat, n);
    }
}

proof fn lemma_sum_upto_zero(s: Seq<GridCoord>, m: nat)
    ensures
        sum_upto(s, m, 0) == 0,
    decreases m,
{
    if m > 0 {
        lemma_sum_upto_zero(s, (m - 1) as nat);
    }
}

proof fn lemma_sum_upto_all(s: Seq<GridCoord>, m: nat, n: int)
    requires
        0 <= n,
        depth_upto(s, n) <= m,
    ensures
        sum_upto(s, m, n) == n,
    decreases n,
{
    if n == 0 {
        lemma_sum_upto_zero(s, m);
    } else {
        lemma_sum_upto_step(s, m, n);
        lemma_sum_upto_all(s, m, n - 1);
    }
}

proof fn lemma_total_is_sum(s: Seq<GridCoord>, m: nat)
    ensures
        total_size(s, m) == sum_upto(s, m, s.len() as int),
    decreases m,
{
    if m > 0 {
        lemma_total_is_sum(s, (m - 1) as nat);
    }
}

pub proof fn lemma_sublayer_members(s: Seq<GridCoord>, k: nat, n: int)
    requires
        n <= s.len(),
    ensures
        forall|a: int| 0 <= a < sublayer_upto(s, k, n).len() ==> {
            let i = #[trigger] sublayer_upto(s, k, n)[a];
            0 <= i < n && rank(s, i) == k
        },
        forall|a: int, b: int|
            0 <= a < b < sublayer_upto(s, k, n).len() ==> #[trigger] sublayer_upto(s, k, n)[a]
                < #[trigger] sublayer_upto(s, k, n)[b],
    decreases n,
{
    if n > 0 {
        lemma_sublayer_members(s, k, n - 1);
        let prev = sublayer_upto(s, k, n - 1);
        let cur = sublayer_upto(s, k, n);
        assert forall|a: int| 0 <= a < cur.len() implies (a < prev.len() && cur[a] == prev[a]) || (
        a == prev.len() && cur[a] == n - 1 && rank(s, n - 1) == k) by {
            if a < prev.len() {
                assert(cur[a] == prev[a]);
            }
        }
    }
}

proof fn lemma_rank_grows(s: Seq<GridCoord>, i: int, j: int)
    requires
        0 <= i < j < s.len(),
        s[i] == s[j],
    ensures
        rank(s, i) < rank(s, j),
{
    lemma_count_take_step(s, i, s[i]);
    lemma_count_take_mono(s, i + 1, j, s[i]);
}

pub proof fn lemma_count_le_depth(s: Seq<GridCoord>, n: int, c: GridCoord)
    requires
        0 <= n <= s.len(),
    ensures
        count_in(s.take(n), c) <= depth_upto(s, n),
    decreases n,
{
    if n > 0 {
        lemma_count_take_step(s, n - 1, c);
        lemma_count_le_depth(s, n - 1, c);
    }
}

proof fn lemma_depth_reached(s: Seq<GridCoord>, n: int) -> (i: int)
    requires
        0 < n <= s.len(),
    ensures
        0 <= i < n,
        depth_upto(s, n) == rank(s, i) + 1,
    decreases n,
{
    assert(depth_upto(s, 0) == 0);
    if n == 1 || rank(s, n - 1) + 1 > depth_upto(s, n - 1) {
        n - 1
    } else {
        lemma_depth_reached(s, n - 1)
    }
}

/// Stacking loses and invents no tile: the sub-layers of a pool hold as many
/// tiles together as the pool, and no sub-layer holds two tiles on one cell.
pub proof fn lemma_stacking_partitions(s: Seq<GridCoord>)
    ensures
        total_size(s, depth(s)) == s.len(),
        forall|k: nat, a: int, b: int|
            0 <= a < b < sublayer(s, k).len() ==> s[#[trigger] sublayer(s, k)[a]] != s[
            #[trigger] sublayer(s, k)[b]],
{
    lemma_total_is_sum(s, depth(s));
    lemma_sum_upto_all(s, depth(s), s.len() as int);
    assert forall|k: nat, a: int, b: int|
        0 <= a < b < sublayer(s, k).len() implies s[#[trigger] sublayer(s, k)[a]] != s[
        #[trigger] sublayer(s, k)[b]] by {
        lemma_sublayer_members(s, k, s.len() as int);
        let i = sublayer(s, k)[a];
        let j = sublayer(s, k)[b];
        if s[i] == s[j] {
            lemma_rank_grows(s, i, j);
        }
    }
}

/// The number of sub-layers is the largest number of tiles that share one
/// cell of the pool.
pub proof fn lemma_depth_is_max_multiplicity(s: Seq<GridCoord>)
    ensures
        forall|c: GridCoord| #[trigger] count_in(s, c) <= depth(s),
        s.len() > 0 ==> exists|i: int| 0 <= i < s.len() && #[trigger] count_in(s, s[i]) == depth(s),
{
    assert(s.take(s.len() as int) =~= s);
    assert forall|c: GridCoord| #[trigger] count_in(s, c) <= depth(s) by {
        lemma_count_le_depth(s, s.len() as int, c);
    }
    if s.len() > 0 {
        let i = lemma_depth_reached(s, s.len() as int);
        lemma_count_take_step(s, i, s[i]);
        lemma_count_take_mono(s, i + 1, s.len() as int, s[i]);
        assert(count_in(s, s[i]) == depth(s));
    }
}

/// A non-empty pool whose tiles all sit on distinct cells gives exactly one
/// sub-layer, which holds the whole pool in its order.
pub proof fn lemma_distinct_pool_single_layer(s: Seq<GridCoord>)
    requires
        s.len() > 0,
        forall|i: int, j: int| 0 <= i < j < s.len() ==> s[i] != s[j],
    ensures
        depth(s) == 1,
        sublayer(s, 0) == Seq::new(s.len(), |i: int| i),
{
    assert forall|i: int| 0 <= i < s.len() implies rank(s, i) == 0 by {
        lemma_count_absent(s.take(i), s[i]);
    }
    assert forall|n: int| 0 < n <= s.len() implies depth_upto(s, n) == 1 by {
        lemma_depth_upto_one(s, n);
    }
    lemma_sublayer_all(s, s.len() as int);
}

proof fn lemma_depth_upto_one(s: Seq<GridCoord>, n: int)
    requires
        0 < n <= s.len(),
        forall|i: int| 0 <= i < s.len() ==> rank(s, i) == 0,
    ensures
        depth_upto(s, n) == 1,
    decreases n,
{
    assert(rank(s, n - 1) == 0);
    assert(depth_upto(s, 0) == 0);
    if n > 1 {
        lemma_depth_upto_one(s, n - 1);
    }
}

proof fn lemma_sublayer_all(s: Seq<GridCoord>, n: int)
    requires
        0 <= n <= s.len(),
        forall|i: int| 0 <= i < s.len() ==> rank(s, i) == 0,
    ensures
        sublayer_upto(s, 0, n) == Seq::new(n as nat, |i: int| i),
    decreases n,
{
    if n > 0 {
        lemma_sublayer_all(s, n - 1);
        assert(sublayer_upto(s, 0, n) =~= Seq::new(n as nat, |i: int| i));
    }
}

proof fn lemma_rank_reaches(s: Seq<GridCoord>, n: int, k: nat) -> (i: int)
    requires
        0 <= n <= s.len(),
        k < depth_upto(s, n),
    ensures
        0 <= i < n,
        rank(s, i) == k,
    decreases n,
{
    lemma_count_le_depth(s, n - 1, s[n - 1]);
    if k < depth_upto(s, n - 1) {
        lemma_rank_reaches(s, n - 1, k)
    } else {
        n - 1
    }
}

proof fn lemma_sublayer_holds(s: Seq<GridCoord>, k: nat, n: int, i: int)
    requires
        0 <= i < n,
        rank(s, i) == k,
    ensures
        sublayer_upto(s, k, n).len() > 0,
    decreases n,
{
    if i < n - 1 {
        lemma_sublayer_holds(s, k, n - 1, i);
    }
}

/// Every sub-layer below the depth holds at least one tile.
pub proof fn lemma_sublayer_nonempty(s: Seq<GridCoord>, k: nat)
    requires
        k < depth(s),
    ensures
        sublayer(s, k).len() > 0,
{
    let i = lemma_rank_reaches(s, s.len() as int, k);
    lemma_sublayer_holds(s, k, s.len() as int, i);
}

/// The first `m` sub-layers hold at least `m` tiles together.
pub proof fn lemma_total_size_at_least(s: Seq<GridCoord>, m: nat)
    requires
        m <= depth(s),
    ensures
        m <= total_size(s, m),
    decreases m,
{
    if m > 0 {
        lemma_total_size_at_least(s, (m - 1) as nat);
        lemma_sublayer_nonempty(s, (m - 1) as nat);
    }
}

/// Splits the pool `coords` (the grid cell of each tile, in pool order) into
/// sub-layers of tile positions. Sub-layer `k` holds, in pool order, every
/// tile that is the `(k + 1)`-th occurrence of its cell; there are as many
/// sub-layers as the largest number of tiles on one cell, none for an empty
/// pool.
pub fn stack_coords(coords: &Vec<GridCoord>) -> (r: Vec<Vec<usize>>)
    ensures
        r.len() == depth(coords@),
        forall|k: int| 0 <= k < r.len() ==> as_ints(#[trigger] r[k]@) == sublayer(coords@, k as nat),
{
    let n = coords.len();
    let mut ranks: Vec<usize> = Vec::new();
    let mut m: usize = 0;
    for i in 0..n
        invariant
            n == coords.len(),
            ranks.len() == i,
            forall|j: int| 0 <= j < i ==> ranks[j] == rank(coords@, j),
            m == depth_upto(coords@, i as int),
            m <= i,
    {
        let mut c: usize = 0;
        for j in 0..i
            invariant
                n == coords.len(),
                i < n,
                c <= j,
                c == count_in(coords@.take(j as int), coords@[i as int]),
        {
            proof {
                assert(coords@.take(j + 1).drop_last() =~= coords@.take(j as int));
            }
            if coords[j] == coords[i] {
                c = c + 1;
            }
        }
        ranks.push(c);
        if c + 1 > m {
            m = c + 1;
        }
    }
    let mut r: Vec<Vec<usize>> = Vec::new();
    for k in 0..m
        invariant
            n == coords.len(),
            ranks.len() == n,
            forall|j: int| 0 <= j < n ==> ranks[j] == rank(coords@, j),
            r.len() == k,
            forall|kk: int| 0 <= kk < k ==> as_ints(#[trigger] r[kk]@) == sublayer(coords@, kk as nat),
    {
        let mut cur: Vec<usize> = Vec::new();
        for i in 0..n
            invariant
                n == coords.len(),
                ranks.len() == n,
                forall|j: int| 0 <= j < n ==> ranks[j] == rank(coords@, j),
                as_ints(cur@) == sublayer_upto(coords@, k as nat, i as int),
        {
            if ranks[i] == k {
                cur.push(i);
            }
            assert(as_ints(cur@) =~= sublayer_upto(coords@, k as nat, i + 1));
        }
        r.push(cur);
    }
    r
}

} // verus!
