//! Distance Graph Builder and all-pairs-shortest-path solver. Stations
//! occupy node ids [0, S); switch exits occupy [S, S + 4W), with exit id
//! S + 4*switchIndex + directionIndex. Distances use a flat row-major
//! matrix with i32::MAX as the "no edge" sentinel.

use vstd::prelude::*;
use crate::blocks::{Block, Direction, Station, Switch, spec_direction_from_index};
use crate::coords::BlockCoords;
use crate::error::Error;
use crate::maps::{CoordMap, Tie, spec_map_lookup, lemma_map_lookup_ok};
use crate::walker::{find_connection, spec_connection_ok, spec_walk_stuck, spec_walk_exhausted};

verus! {

/// One when true, zero when false.
pub fn bool_to_int(v: bool) -> (r: u32)
    ensures
        r == if v {
            1int
        } else {
            0int
        },
{
    if v {
        1
    } else {
        0
    }
}

/// The side length of a square matrix stored as a flat vector: the integer
/// square root of its length.
pub fn get_num_nodes(distances: &Vec<i32>) -> (r: usize)
    ensures
        r * r <= distances@.len(),
        (r + 1) * (r + 1) > distances@.len(),
{
    let len = distances.len();
    let mut r: usize = 0;
    loop
        invariant
            r * r <= len,
            r <= len,
            r <= 0x1_0000_0000,
        ensures
            r * r <= len,
            (r + 1) * (r + 1) > len,
        decreases len - r,
    {
        let q: u128 = (r as u128) + 1;
        proof {
            assert(q * q <= 0x1_0000_0001u128 * 0x1_0000_0001u128) by (nonlinear_arith)
                requires
                    0 < q <= 0x1_0000_0001u128,
            {}
        }
        let sq: u128 = q * q;
        if sq > len as u128 {
            break ;
        }
        proof {
            assert(r + 1 <= (r + 1) * (r + 1)) by (nonlinear_arith)
                requires
                    r >= 0,
            {}
            assert((r + 1) * (r + 1) <= len ==> r + 1 <= 0x1_0000_0000) by (nonlinear_arith)
                requires
                    r >= 0,
                    len <= 0xFFFF_FFFF_FFFF_FFFFu128,
            {}
        }
        r = r + 1;
    }
    r
}

/// The distance from node `i` to node `j`.
pub fn get_distance(distances: &Vec<i32>, num_nodes: usize, i: usize, j: usize) -> (r: i32)
    requires
        i < num_nodes,
        j < num_nodes,
        num_nodes * num_nodes <= distances@.len(),
    ensures
        r == distances@[i * num_nodes + j],
{
    let total = distances.len();
    proof {
        assert(i * num_nodes + j < num_nodes * num_nodes) by (nonlinear_arith)
            requires
                i < num_nodes,
                j < num_nodes,
        {}
    }
    distances[i * num_nodes + j]
}

/// Sets the distance from node `i` to node `j`.
pub fn set_distance(distances: &mut Vec<i32>, num_nodes: usize, i: usize, j: usize, distance: i32)
    requires
        i < num_nodes,
        j < num_nodes,
        num_nodes * num_nodes <= old(distances)@.len(),
    ensures
        final(distances)@ == old(distances)@.update((i * num_nodes + j) as int, distance),
        final(distances)@.len() == old(distances)@.len(),
{
    let total = distances.len();
    proof {
        assert(i * num_nodes + j < num_nodes * num_nodes) by (nonlinear_arith)
            requires
                i < num_nodes,
                j < num_nodes,
        {}
    }
    distances.set(i * num_nodes + j, distance);
}

/// The node id of a switch exit: stations come first, then four exits per
/// switch in direction-index order.
pub fn switch_node_id(switch_id: usize, direction_index: usize, num_stations: usize) -> (r: usize)
    requires
        num_stations + 4 * switch_id + direction_index <= usize::MAX,
    ensures
        r == num_stations + 4 * switch_id + direction_index,
{
    num_stations + 4 * switch_id + direction_index
}

/// Whether a node id names a switch exit rather than a station.
pub fn is_switch_node(node_id: usize, num_stations: usize) -> (r: bool)
    ensures
        r == (node_id >= num_stations),
{
    node_id >= num_stations
}

/// A path sum that would fall below the i32 range is clamped at its floor.
pub open spec fn spec_clamp(x: int) -> int {
    if x < i32::MIN as int {
        i32::MIN as int
    } else {
        x
    }
}

/// The node sequence `p` is a walk through the edge relation of `m`: at
/// least one edge, every node in range, every consecutive pair a finite
/// entry.
pub open spec fn spec_is_path(m: Seq<i32>, n: int, p: Seq<int>) -> bool {
    &&& p.len() >= 2
    &&& (forall|t: int| 0 <= t < p.len() ==> 0 <= #[trigger] p[t] < n)
    &&& (forall|t: int| 0 <= t < p.len() - 1 ==> m[#[trigger] p[t] * n + p[t + 1]] < i32::MAX)
}

/// The total weight of a walk: the sum of its edges.
pub open spec fn spec_path_cost(m: Seq<i32>, n: int, p: Seq<int>) -> int
    decreases p.len(),
{
    if p.len() < 2 {
        0
    } else {
        m[p[0] * n + p[1]] + spec_path_cost(m, n, p.drop_first())
    }
}

/// An entry value is realizable: it is the original entry, or it is at
/// least the (clamped) weight of some walk of the original edge relation
/// between its endpoints.
pub open spec fn spec_entry_realizable(orig: Seq<i32>, n: int, i: int, j: int, v: int) -> bool {
    ||| v == orig[i * n + j]
    ||| exists|p: Seq<int>|
        #[trigger] spec_is_path(orig, n, p) && p.first() == i && p.last() == j && v >= spec_clamp(
            spec_path_cost(orig, n, p),
        )
}

/// Two walks sharing an endpoint concatenate into one walk whose weight is
/// the sum of theirs.
#[verifier::rlimit(100)]
proof fn lemma_path_concat(m: Seq<i32>, n: int, p1: Seq<int>, p2: Seq<int>)
    requires
        spec_is_path(m, n, p1),
        spec_is_path(m, n, p2),
        p1.last() == p2.first(),
    ensures
        spec_is_path(m, n, p1 + p2.drop_first()),
        (p1 + p2.drop_first()).first() == p1.first(),
        (p1 + p2.drop_first()).last() == p2.last(),
        spec_path_cost(m, n, p1 + p2.drop_first()) == spec_path_cost(m, n, p1) + spec_path_cost(
            m,
            n,
            p2,
        ),
    decreases p1.len(),
{
    let joined = p1 + p2.drop_first();
    assert(forall|t: int| 0 <= t < p1.len() ==> joined[t] == #[trigger] p1[t]);
    assert(forall|t: int|
        p1.len() <= t < joined.len() ==> joined[t] == #[trigger] p2[t - p1.len() + 1]);
    if p1.len() == 2 {
        assert(joined.drop_first() =~= p2);
        assert(spec_is_path(m, n, joined)) by {
            assert forall|t: int| 0 <= t < joined.len() - 1 implies m[#[trigger] joined[t] * n
                + joined[t + 1]] < i32::MAX by {
                if t == 0 {
                    assert(joined[0] == p1[0] && joined[1] == p1[1]);
                } else {
                    assert(joined[t] == p2[t - 1] && joined[t + 1] == p2[t]);
                }
            }
        }
        lemma_path_cost_congruent(m, n, joined.drop_first(), p2);
        assert(spec_path_cost(m, n, joined) == m[joined[0] * n + joined[1]] + spec_path_cost(
            m,
            n,
            joined.drop_first(),
        ));
        assert(spec_path_cost(m, n, p1) == m[p1[0] * n + p1[1]] + spec_path_cost(
            m,
            n,
            p1.drop_first(),
        ));
        assert(spec_path_cost(m, n, p1.drop_first()) == 0);
    } else {
        lemma_path_concat(m, n, p1.drop_first(), p2);
        let jd = p1.drop_first() + p2.drop_first();
        assert(joined.drop_first() =~= jd);
        assert(spec_is_path(m, n, joined)) by {
            assert forall|t: int| 0 <= t < joined.len() - 1 implies m[#[trigger] joined[t] * n
                + joined[t + 1]] < i32::MAX by {
                if t == 0 {
                    assert(joined[0] == p1[0] && joined[1] == p1[1]);
                } else {
                    assert(joined[t] == jd[t - 1] && joined[t + 1] == jd[t]);
                }
            }
        }
        lemma_path_cost_congruent(m, n, joined.drop_first(), jd);
        assert(spec_path_cost(m, n, joined) == m[joined[0] * n + joined[1]] + spec_path_cost(
            m,
            n,
            joined.drop_first(),
        ));
        assert(spec_path_cost(m, n, p1) == m[p1[0] * n + p1[1]] + spec_path_cost(
            m,
            n,
            p1.drop_first(),
        ));
    }
}

/// Walks equal as sequences cost the same.
proof fn lemma_path_cost_congruent(m: Seq<i32>, n: int, a: Seq<int>, b: Seq<int>)
    requires
        a == b,
    ensures
        spec_path_cost(m, n, a) == spec_path_cost(m, n, b),
{
}

/// One relaxation step keeps entries realizable: the clamped sum of two
/// realizable finite entries through a pivot is at least the clamped weight
/// of a concatenated walk.
#[verifier::rlimit(60)]
proof fn lemma_realizable_step(
    orig: Seq<i32>,
    n: int,
    i: int,
    j: int,
    k: int,
    ik: int,
    kj: int,
)
    requires
        0 <= i < n,
        0 <= j < n,
        0 <= k < n,
        orig.len() == n * n,
        spec_entry_realizable(orig, n, i, k, ik),
        spec_entry_realizable(orig, n, k, j, kj),
        ik < i32::MAX,
        kj < i32::MAX,
        i32::MIN <= ik,
        i32::MIN <= kj,
    ensures
        spec_entry_realizable(orig, n, i, j, spec_clamp(ik + kj)),
{
    lemma_cell_bound(n, i, k);
    lemma_cell_bound(n, k, j);
    let p1: Seq<int> = if ik == orig[i * n + k] {
        seq![i, k]
    } else {
        choose|p: Seq<int>|
            #[trigger] spec_is_path(orig, n, p) && p.first() == i && p.last() == k && ik
                >= spec_clamp(spec_path_cost(orig, n, p))
    };
    let p2: Seq<int> = if kj == orig[k * n + j] {
        seq![k, j]
    } else {
        choose|p: Seq<int>|
            #[trigger] spec_is_path(orig, n, p) && p.first() == k && p.last() == j && kj
                >= spec_clamp(spec_path_cost(orig, n, p))
    };
    if ik == orig[i * n + k] {
        assert(p1.drop_first() =~= seq![k]);
        assert(p1[0] == i && p1[1] == k);
        assert(spec_is_path(orig, n, p1));
        assert(spec_path_cost(orig, n, p1) == orig[p1[0] * n + p1[1]] + spec_path_cost(
            orig,
            n,
            p1.drop_first(),
        ));
        assert(spec_path_cost(orig, n, p1.drop_first()) == 0);
        assert(spec_path_cost(orig, n, p1) == ik);
    }
    if kj == orig[k * n + j] {
        assert(p2.drop_first() =~= seq![j]);
        assert(p2[0] == k && p2[1] == j);
        assert(spec_is_path(orig, n, p2));
        assert(spec_path_cost(orig, n, p2) == orig[p2[0] * n + p2[1]] + spec_path_cost(
            orig,
            n,
            p2.drop_first(),
        ));
        assert(spec_path_cost(orig, n, p2.drop_first()) == 0);
        assert(spec_path_cost(orig, n, p2) == kj);
    }
    assert(ik >= spec_clamp(spec_path_cost(orig, n, p1)));
    assert(kj >= spec_clamp(spec_path_cost(orig, n, p2)));
    lemma_path_concat(orig, n, p1, p2);
    let joined = p1 + p2.drop_first();
    assert(spec_clamp(spec_path_cost(orig, n, p1)) >= spec_path_cost(orig, n, p1)
        || spec_clamp(spec_path_cost(orig, n, p1)) == i32::MIN as int);
    assert(spec_clamp(ik + kj) >= spec_clamp(spec_path_cost(orig, n, joined)));
}

/// Every entry of `d` is realizable over `orig`.
pub open spec fn spec_all_realizable(orig: Seq<i32>, n: int, d: Seq<i32>) -> bool {
    forall|i: int, j: int|
        0 <= i < n && 0 <= j < n ==> spec_entry_realizable(orig, n, i, j, #[trigger] d[i * n + j] as int)
}

/// The entry for (i, j) is bounded by the one-pivot relaxation of `orig`
/// through `k`.
pub open spec fn spec_pivot_bound(orig: Seq<i32>, n: int, d: Seq<i32>, k: int, i: int, j: int) -> bool {
    orig[i * n + k] < i32::MAX && orig[k * n + j] < i32::MAX ==> d[i * n + j] <= spec_clamp(
        orig[i * n + k] + orig[k * n + j],
    )
}

/// A pivot bound survives when the bounded entry only shrinks.
proof fn lemma_pivot_bound_mono(
    orig: Seq<i32>,
    n: int,
    pre: Seq<i32>,
    post: Seq<i32>,
    k2: int,
    i2: int,
    j2: int,
)
    requires
        0 <= i2 < n,
        0 <= j2 < n,
        0 <= i2 * n + j2 < post.len(),
        post.len() == pre.len(),
        post[i2 * n + j2] <= pre[i2 * n + j2],
        spec_pivot_bound(orig, n, pre, k2, i2, j2),
    ensures
        spec_pivot_bound(orig, n, post, k2, i2, j2),
{
}

/// Cubic relaxation over all (k, i, j) node triples. Every entry can only
/// shrink, yet every entry stays realizable: it is the original entry or at
/// least the clamped weight of a real walk, so the sentinel survives
/// exactly for unreachable pairs. After solving, every entry is bounded by
/// every one-pivot relaxation of the original matrix. With non-negative
/// entries everything stays non-negative, and with non-negative entries
/// and a zero diagonal the diagonal stays zero. A sum that would fall
/// below i32::MIN is clamped there, which can only happen on a negative
/// cycle.
#[verifier::loop_isolation(false)]
#[verifier::rlimit(100)]
pub fn floyd_warshall(distances: &mut Vec<i32>, num_nodes: usize)
    requires
        old(distances)@.len() == num_nodes * num_nodes,
    ensures
        final(distances)@.len() == old(distances)@.len(),
        forall|p: int|
            0 <= p < old(distances)@.len() ==> final(distances)@[p] <= old(distances)@[p],
        forall|k: int, i: int, j: int|
            0 <= k < num_nodes && 0 <= i < num_nodes && 0 <= j < num_nodes
                ==> #[trigger] spec_pivot_bound(
                old(distances)@,
                num_nodes as int,
                final(distances)@,
                k,
                i,
                j,
            ),
        spec_all_realizable(old(distances)@, num_nodes as int, final(distances)@),
        (forall|p: int| 0 <= p < old(distances)@.len() ==> old(distances)@[p] >= 0) ==> (forall|
            p: int,
        |
            0 <= p < old(distances)@.len() ==> final(distances)@[p] >= 0),
        ((forall|p: int| 0 <= p < old(distances)@.len() ==> old(distances)@[p] >= 0) && (forall|
            i: int,
        |
            0 <= i < num_nodes ==> #[trigger] old(distances)@[i * num_nodes + i] == 0)) ==> (forall|i: int|
            0 <= i < num_nodes ==> #[trigger] final(distances)@[i * num_nodes + i] == 0),
{
    let ghost orig = old(distances)@;
    let ghost n_int = num_nodes as int;
    let n = num_nodes;
    proof {
        assert forall|i2: int, j2: int|
            0 <= i2 < n && 0 <= j2 < n implies spec_entry_realizable(
            orig,
            n_int,
            i2,
            j2,
            #[trigger] distances@[i2 * n_int + j2] as int,
        ) by {
            lemma_cell_bound(n_int, i2, j2);
        }
    }
    let mut k: usize = 0;
    while k < n
        invariant
            distances@.len() == orig.len(),
            n_int == n as int,
            forall|p: int| 0 <= p < orig.len() ==> distances@[p] <= orig[p],
            spec_all_realizable(orig, n_int, distances@),
            forall|k2: int, i2: int, j2: int|
                0 <= k2 < k && 0 <= i2 < n && 0 <= j2 < n ==> #[trigger] spec_pivot_bound(
                    orig,
                    n_int,
                    distances@,
                    k2,
                    i2,
                    j2,
                ),
            (forall|p: int| 0 <= p < orig.len() ==> orig[p] >= 0) ==> (forall|p: int|
                0 <= p < orig.len() ==> distances@[p] >= 0),
            ((forall|p: int| 0 <= p < orig.len() ==> orig[p] >= 0) && (forall|i: int|
                0 <= i < n ==> #[trigger] orig[i * n + i] == 0)) ==> (forall|i: int|
                0 <= i < n ==> #[trigger] distances@[i * n + i] == 0),
        decreases n - k,
    {
        let mut i: usize = 0;
        while i < n
            invariant
                distances@.len() == orig.len(),
                n_int == n as int,
                forall|p: int| 0 <= p < orig.len() ==> distances@[p] <= orig[p],
                spec_all_realizable(orig, n_int, distances@),
                forall|k2: int, i2: int, j2: int|
                    0 <= k2 < k && 0 <= i2 < n && 0 <= j2 < n ==> #[trigger] spec_pivot_bound(
                        orig,
                        n_int,
                        distances@,
                        k2,
                        i2,
                        j2,
                    ),
                forall|i2: int, j2: int|
                    0 <= i2 < i && 0 <= j2 < n ==> #[trigger] spec_pivot_bound(
                        orig,
                        n_int,
                        distances@,
                        k as int,
                        i2,
                        j2,
                    ),
                (forall|p: int| 0 <= p < orig.len() ==> orig[p] >= 0) ==> (forall|p: int|
                    0 <= p < orig.len() ==> distances@[p] >= 0),
                ((forall|p: int| 0 <= p < orig.len() ==> orig[p] >= 0) && (forall|q: int|
                    0 <= q < n ==> #[trigger] orig[q * n + q] == 0)) ==> (forall|q: int|
                    0 <= q < n ==> #[trigger] distances@[q * n + q] == 0),
            decreases n - i,
        {
            let mut j: usize = 0;
            while j < n
                invariant
                    distances@.len() == orig.len(),
                    n_int == n as int,
                    forall|p: int| 0 <= p < orig.len() ==> distances@[p] <= orig[p],
                    spec_all_realizable(orig, n_int, distances@),
                    forall|k2: int, i2: int, j2: int|
                        0 <= k2 < k && 0 <= i2 < n && 0 <= j2 < n ==> #[trigger] spec_pivot_bound(
                            orig,
                            n_int,
                            distances@,
                            k2,
                            i2,
                            j2,
                        ),
                    forall|i2: int, j2: int|
                        0 <= i2 < i && 0 <= j2 < n ==> #[trigger] spec_pivot_bound(
                            orig,
                            n_int,
                            distances@,
                            k as int,
                            i2,
                            j2,
                        ),
                    forall|j2: int|
                        0 <= j2 < j ==> #[trigger] spec_pivot_bound(
                            orig,
                            n_int,
                            distances@,
                            k as int,
                            i as int,
                            j2,
                        ),
                    (forall|p: int| 0 <= p < orig.len() ==> orig[p] >= 0) ==> (forall|p: int|
                        0 <= p < orig.len() ==> distances@[p] >= 0),
                    ((forall|p: int| 0 <= p < orig.len() ==> orig[p] >= 0) && (forall|q: int|
                        0 <= q < n ==> #[trigger] orig[q * n + q] == 0)) ==> (forall|q: int|
                        0 <= q < n ==> #[trigger] distances@[q * n + q] == 0),
                decreases n - j,
            {
                let ij_dist = get_distance(distances, n, i, j);
                let ik_dist = get_distance(distances, n, i, k);
                let kj_dist = get_distance(distances, n, k, j);
                proof {
                    lemma_cell_bound(n_int, i as int, j as int);
                    lemma_cell_bound(n_int, i as int, k as int);
                    lemma_cell_bound(n_int, k as int, j as int);
                }
                if ik_dist < i32::MAX && kj_dist < i32::MAX {
                    let sum_dist: i64 = (ik_dist as i64) + (kj_dist as i64);
                    if sum_dist < ij_dist as i64 {
                        let new_val: i32 = if sum_dist < i32::MIN as i64 {
                            i32::MIN
                        } else {
                            sum_dist as i32
                        };
                        let ghost pre = distances@;
                        proof {
                            if forall|p: int| 0 <= p < orig.len() ==> orig[p] >= 0 {
                                assert(distances@[i * n + k] >= 0);
                                assert(distances@[k * n + j] >= 0);
                                if (forall|q2: int|
                                    0 <= q2 < n ==> #[trigger] orig[q2 * n + q2] == 0) && i == j {
                                    assert(distances@[i * n + i] == 0);
                                    assert(false);
                                }
                            }
                            assert forall|q: int, r: int|
                                0 <= q < n && 0 <= r < n && #[trigger] (q * n + r) == i * n + j
                                implies q == i && r == j by {
                                assert(q == i && r == j) by (nonlinear_arith)
                                    requires
                                        0 <= q < n,
                                        0 <= r < n,
                                        0 <= i < n,
                                        0 <= j < n,
                                        q * n + r == i * n + j,
                                {}
                            }
                        }
                        set_distance(distances, n, i, j, new_val);
                        proof {
                            assert forall|p: int| 0 <= p < pre.len() implies distances@[p]
                                <= pre[p] by {}
                            assert forall|k2: int, i2: int, j2: int|
                                0 <= k2 < k && 0 <= i2 < n && 0 <= j2 < n
                                implies #[trigger] spec_pivot_bound(
                                orig,
                                n_int,
                                distances@,
                                k2,
                                i2,
                                j2,
                            ) by {
                                lemma_cell_bound(n_int, i2, j2);
                                lemma_pivot_bound_mono(
                                    orig,
                                    n_int,
                                    pre,
                                    distances@,
                                    k2,
                                    i2,
                                    j2,
                                );
                            }
                            assert forall|i2: int, j2: int|
                                0 <= i2 < i && 0 <= j2 < n implies #[trigger] spec_pivot_bound(
                                orig,
                                n_int,
                                distances@,
                                k as int,
                                i2,
                                j2,
                            ) by {
                                lemma_cell_bound(n_int, i2, j2);
                                lemma_pivot_bound_mono(
                                    orig,
                                    n_int,
                                    pre,
                                    distances@,
                                    k as int,
                                    i2,
                                    j2,
                                );
                            }
                            assert forall|j2: int|
                                0 <= j2 < j implies #[trigger] spec_pivot_bound(
                                orig,
                                n_int,
                                distances@,
                                k as int,
                                i as int,
                                j2,
                            ) by {
                                lemma_cell_bound(n_int, i as int, j2);
                                lemma_pivot_bound_mono(
                                    orig,
                                    n_int,
                                    pre,
                                    distances@,
                                    k as int,
                                    i as int,
                                    j2,
                                );
                            }
                            lemma_realizable_step(
                                orig,
                                n_int,
                                i as int,
                                j as int,
                                k as int,
                                ik_dist as int,
                                kj_dist as int,
                            );
                            assert(new_val as int == spec_clamp(ik_dist as int + kj_dist as int));
                            assert forall|i2: int, j2: int|
                                0 <= i2 < n && 0 <= j2 < n implies spec_entry_realizable(
                                orig,
                                n_int,
                                i2,
                                j2,
                                #[trigger] distances@[i2 * n_int + j2] as int,
                            ) by {
                                lemma_cell_bound(n_int, i2, j2);
                                if i2 * n_int + j2 != i * n_int + j {
                                    assert(distances@[i2 * n_int + j2] == pre[i2 * n_int + j2]);
                                }
                            }
                            if (forall|p: int| 0 <= p < orig.len() ==> orig[p] >= 0) && (forall|
                                q2: int,
                            |
                                0 <= q2 < n ==> #[trigger] orig[q2 * n + q2] == 0) {
                                assert forall|q2: int| 0 <= q2 < n implies #[trigger] distances@[q2
                                    * n + q2] == 0 by {
                                    lemma_cell_bound(n_int, q2, q2);
                                    assert(pre[q2 * n + q2] == 0);
                                    if q2 * n + q2 == i * n + j {
                                        assert(false);
                                    }
                                }
                            }
                        }
                    }
                }
                proof {
                    assert(spec_pivot_bound(
                        orig,
                        n_int,
                        distances@,
                        k as int,
                        i as int,
                        j as int,
                    )) by {
                        if orig[i * n_int + k] < i32::MAX && orig[k * n_int + j] < i32::MAX {
                            assert(ik_dist <= orig[i * n_int + k]);
                            assert(kj_dist <= orig[k * n_int + j]);
                            assert(distances@[i * n_int + j] <= spec_clamp(
                                ik_dist as int + kj_dist as int,
                            ));
                        }
                    }
                }
                j = j + 1;
            }
            i = i + 1;
        }
        k = k + 1;
    }
}


/// A cell of the matrix lies inside the flat vector.
proof fn lemma_cell_bound(n: int, r: int, c: int)
    requires
        0 <= r < n,
        0 <= c < n,
    ensures
        0 <= r * n + c < n * n,
{
    assert(0 <= r * n + c < n * n) by (nonlinear_arith)
        requires
            0 <= r < n,
            0 <= c < n,
    {}
}

/// Distinct (row, column) pairs occupy distinct flat cells.
proof fn lemma_cell_distinct(n: int, r1: int, c1: int, r2: int, c2: int)
    requires
        0 <= r1 < n,
        0 <= c1 < n,
        0 <= r2 < n,
        0 <= c2 < n,
        r1 != r2 || c1 != c2,
    ensures
        r1 * n + c1 != r2 * n + c2,
{
    assert(r1 * n + c1 != r2 * n + c2) by (nonlinear_arith)
        requires
            0 <= r1 < n,
            0 <= c1 < n,
            0 <= r2 < n,
            0 <= c2 < n,
            r1 != r2 || c1 != c2,
    {}
}

/// Links one station row: the found connection edge, then the station's
/// zero self-distance. Only the station's row changes.
#[verifier::loop_isolation(false)]
fn fill_station_row(
    distances: &mut Vec<i32>,
    n: usize,
    from_sid: usize,
    to_node: usize,
    d: i32,
)
    requires
        from_sid < n,
        to_node < n,
        n * n <= old(distances)@.len(),
        old(distances)@.len() == n * n,
    ensures
        final(distances)@.len() == old(distances)@.len(),
        forall|row: int, col: int|
            0 <= row < n && 0 <= col < n && row != from_sid ==> #[trigger] final(distances)@[row * n
                + col] == old(distances)@[row * n + col],
        final(distances)@[from_sid * n + from_sid] == 0,
        to_node != from_sid ==> final(distances)@[from_sid * n + to_node] == d,
        forall|col: int|
            0 <= col < n && col != to_node && col != from_sid
                ==> #[trigger] final(distances)@[from_sid * n + col]
                == old(distances)@[from_sid * n + col],
{
    set_distance(distances, n, from_sid, to_node, d);
    set_distance(distances, n, from_sid, from_sid, 0);
    proof {
        lemma_cell_bound(n as int, from_sid as int, to_node as int);
        lemma_cell_bound(n as int, from_sid as int, from_sid as int);
        assert forall|row: int, col: int|
            0 <= row < n && 0 <= col < n && row != from_sid implies #[trigger] distances@[row * n
                + col] == old(distances)@[row * n + col] by {
            lemma_cell_bound(n as int, row, col);
            lemma_cell_distinct(n as int, row, col, from_sid as int, to_node as int);
            lemma_cell_distinct(n as int, row, col, from_sid as int, from_sid as int);
        }
        if to_node != from_sid {
            lemma_cell_distinct(
                n as int,
                from_sid as int,
                to_node as int,
                from_sid as int,
                from_sid as int,
            );
        }
        assert forall|col: int|
            0 <= col < n && col != to_node && col != from_sid implies #[trigger] distances@[
        from_sid * n + col] == old(distances)@[from_sid * n + col] by {
            lemma_cell_bound(n as int, from_sid as int, col);
            lemma_cell_distinct(n as int, from_sid as int, col, from_sid as int, to_node as int);
            lemma_cell_distinct(n as int, from_sid as int, col, from_sid as int, from_sid as int);
        }
    }
}

/// Links one switch-exit row: the found connection edge, a fixed distance
/// of two to every other present exit of the same switch, then the exit's
/// zero self-distance. Only the exit's row changes.
#[verifier::loop_isolation(false)]
fn fill_switch_row(
    distances: &mut Vec<i32>,
    n: usize,
    num_stations: usize,
    sw: usize,
    di: usize,
    has: [bool; 4],
    to_node: usize,
    d: i32,
)
    requires
        di < 4,
        num_stations + 4 * sw + 4 <= n,
        to_node < n,
        n * n <= old(distances)@.len(),
        old(distances)@.len() == n * n,
    ensures
        final(distances)@.len() == old(distances)@.len(),
        forall|row: int, col: int|
            0 <= row < n && 0 <= col < n && row != num_stations + 4 * sw + di
                ==> #[trigger] final(distances)@[row * n + col] == old(distances)@[row * n + col],
        final(distances)@[(num_stations + 4 * sw + di) * n + (num_stations + 4 * sw + di)] == 0,
        forall|d2: int|
            0 <= d2 < 4 && d2 != di && has[d2] ==> #[trigger] final(distances)@[(num_stations + 4
                * sw + di) * n + (num_stations + 4 * sw + d2)] == 2,
        (to_node != num_stations + 4 * sw + di && !(exists|d2: int|
            0 <= d2 < 4 && d2 != di && has[d2] && to_node == num_stations + 4 * sw + d2))
            ==> final(distances)@[(num_stations + 4 * sw + di) * n + to_node] == d,
        forall|col: int|
            0 <= col < n && col != to_node && col != num_stations + 4 * sw + di && !(exists|
                d2: int,
            |
                0 <= d2 < 4 && d2 != di && has[d2] && col == num_stations + 4 * sw + d2)
                ==> #[trigger] final(distances)@[(num_stations + 4 * sw + di) * n + col]
                == old(distances)@[(num_stations + 4 * sw + di) * n + col],
{
    let from_node = num_stations + 4 * sw + di;
    proof {
        lemma_cell_bound(n as int, from_node as int, to_node as int);
    }
    set_distance(distances, n, from_node, to_node, d);
    proof {
        assert forall|row: int, col: int|
            0 <= row < n && 0 <= col < n && row != from_node implies #[trigger] distances@[row * n
                + col] == old(distances)@[row * n + col] by {
            lemma_cell_bound(n as int, row, col);
            lemma_cell_distinct(n as int, row, col, from_node as int, to_node as int);
        }
        assert forall|col: int|
            0 <= col < n && col != to_node implies #[trigger] distances@[from_node * n + col]
            == old(distances)@[from_node * n + col] by {
            lemma_cell_bound(n as int, from_node as int, col);
            lemma_cell_distinct(n as int, from_node as int, col, from_node as int, to_node as int);
        }
    }
    let mut to_di: usize = 0;
    while to_di < 4
        invariant
            to_di <= 4,
            distances@.len() == n * n,
            (to_node != from_node && !(exists|d2: int|
                0 <= d2 < to_di && d2 != di && has[d2] && to_node == num_stations + 4 * sw + d2))
                ==> distances@[(from_node * n + to_node) as int] == d,
            forall|row: int, col: int|
                0 <= row < n && 0 <= col < n && row != from_node ==> #[trigger] distances@[row * n
                    + col] == old(distances)@[row * n + col],
            forall|d2: int|
                0 <= d2 < to_di && d2 != di && has[d2] ==> #[trigger] distances@[from_node * n + (
                num_stations + 4 * sw + d2)] == 2,
            forall|col: int|
                0 <= col < n && col != to_node && !(exists|d2: int|
                    0 <= d2 < to_di && d2 != di && has[d2] && col == num_stations + 4 * sw + d2)
                    ==> #[trigger] distances@[from_node * n + col]
                    == old(distances)@[from_node * n + col],
        decreases 4 - to_di,
    {
        if to_di != di && has[to_di] {
            let ghost pre = distances@;
            proof {
                lemma_cell_bound(n as int, from_node as int, (num_stations + 4 * sw + to_di) as int);
            }
            set_distance(distances, n, from_node, num_stations + 4 * sw + to_di, 2);
            proof {
                assert forall|row: int, col: int|
                    0 <= row < n && 0 <= col < n && row != from_node implies #[trigger] distances@[
                    row * n + col] == old(distances)@[row * n + col] by {
                    lemma_cell_bound(n as int, row, col);
                    lemma_cell_distinct(
                        n as int,
                        row,
                        col,
                        from_node as int,
                        num_stations + 4 * sw + to_di,
                    );
                }
                assert forall|d2: int|
                    0 <= d2 < to_di + 1 && d2 != di && has[d2] implies #[trigger] distances@[
                    from_node * n + (num_stations + 4 * sw + d2)] == 2 by {
                    if d2 < to_di {
                        lemma_cell_bound(n as int, from_node as int, num_stations + 4 * sw + d2);
                        lemma_cell_distinct(
                            n as int,
                            from_node as int,
                            num_stations + 4 * sw + d2,
                            from_node as int,
                            num_stations + 4 * sw + to_di,
                        );
                        assert(pre[from_node * n + (num_stations + 4 * sw + d2)] == 2);
                    }
                }
                assert forall|col: int|
                    0 <= col < n && col != to_node && !(exists|d2: int|
                        0 <= d2 < to_di + 1 && d2 != di && has[d2] && col == num_stations + 4 * sw
                            + d2) implies #[trigger] distances@[from_node * n + col]
                    == old(distances)@[from_node * n + col] by {
                    lemma_cell_bound(n as int, from_node as int, col);
                    lemma_cell_distinct(
                        n as int,
                        from_node as int,
                        col,
                        from_node as int,
                        num_stations + 4 * sw + to_di,
                    );
                    assert(pre[from_node * n + col] == old(distances)@[from_node * n + col]);
                }
                if to_node != from_node && !(exists|d2: int|
                    0 <= d2 < to_di + 1 && d2 != di && has[d2] && to_node == num_stations + 4 * sw
                        + d2) {
                    lemma_cell_bound(n as int, from_node as int, to_node as int);
                    lemma_cell_distinct(
                        n as int,
                        from_node as int,
                        to_node as int,
                        from_node as int,
                        num_stations + 4 * sw + to_di,
                    );
                    assert(distances@[(from_node * n + to_node) as int] == pre[(from_node * n
                        + to_node) as int]);
                }
            }
        }
        to_di = to_di + 1;
    }
    let ghost pre2 = distances@;
    proof {
        lemma_cell_bound(n as int, from_node as int, from_node as int);
        assert forall|col: int|
            0 <= col < n && col != to_node && !(exists|d2: int|
                0 <= d2 < 4 && d2 != di && has[d2] && col == num_stations + 4 * sw + d2)
                implies #[trigger] pre2[from_node * n + col]
            == old(distances)@[from_node * n + col] by {
            assert(to_di == 4);
            assert(distances@[from_node * n + col] == old(distances)@[from_node * n + col]);
        }
    }
    set_distance(distances, n, from_node, from_node, 0);
    proof {
        assert forall|row: int, col: int|
            0 <= row < n && 0 <= col < n && row != from_node implies #[trigger] distances@[row * n
                + col] == old(distances)@[row * n + col] by {
            lemma_cell_bound(n as int, row, col);
            lemma_cell_distinct(n as int, row, col, from_node as int, from_node as int);
        }
        assert forall|d2: int|
            0 <= d2 < 4 && d2 != di && has[d2] implies #[trigger] distances@[from_node * n + (
            num_stations + 4 * sw + d2)] == 2 by {
            lemma_cell_bound(n as int, from_node as int, num_stations + 4 * sw + d2);
            lemma_cell_distinct(
                n as int,
                from_node as int,
                num_stations + 4 * sw + d2,
                from_node as int,
                from_node as int,
            );
            assert(pre2[from_node * n + (num_stations + 4 * sw + d2)] == 2);
        }
        assert forall|col: int|
            0 <= col < n && col != to_node && col != num_stations + 4 * sw + di && !(exists|
                d2: int,
            |
                0 <= d2 < 4 && d2 != di && has[d2] && col == num_stations + 4 * sw + d2)
                implies #[trigger] distances@[(num_stations + 4 * sw + di) * n + col]
            == old(distances)@[(num_stations + 4 * sw + di) * n + col] by {
            lemma_cell_bound(n as int, from_node as int, col);
            lemma_cell_distinct(n as int, from_node as int, col, from_node as int, from_node as int);
            assert(pre2[from_node * n + col] == old(distances)@[from_node * n + col]);
        }
        if to_node != from_node && !(exists|d2: int|
            0 <= d2 < 4 && d2 != di && has[d2] && to_node == num_stations + 4 * sw + d2) {
            lemma_cell_bound(n as int, from_node as int, to_node as int);
            lemma_cell_distinct(
                n as int,
                from_node as int,
                to_node as int,
                from_node as int,
                from_node as int,
            );
            assert(distances@[(from_node * n + to_node) as int] == pre2[(from_node * n
                + to_node) as int]);
        }
    }
}


/// Builds the distance graph over stations and switch exits and solves
/// all-pairs shortest distances by cubic relaxation. For every station one
/// connection is walked from its coordinates along its facing; for every
/// present switch exit one connection is walked out of that exit. One is
/// subtracted from an edge's cost for each of its ends that is a switch
/// exit, and present exits of one switch are linked pairwise with a fixed
/// distance of two, so that the subtractions cancel over a route that
/// enters and leaves through switches. Returns the solved row-major matrix
/// and every coordinate visited while resolving connections.
#[verifier::loop_isolation(false)]
#[verifier::rlimit(100)]
pub fn find_distances(
    stations: &Vec<Station>,
    switches: &Vec<Switch>,
    blocks: &Vec<Block>,
    rail_map: &CoordMap<usize>,
    ties_map: &CoordMap<Tie>,
    weights_map: &CoordMap<i32>,
) -> (r: Result<(Vec<i32>, Vec<BlockCoords>), Error>)
    requires
        (stations@.len() + 4 * switches@.len()) * (stations@.len() + 4 * switches@.len())
            <= usize::MAX,
    ensures
        match r {
            Ok(v) => {
                let s = stations@.len() as int;
                let w = switches@.len() as int;
                let n = s + 4 * w;
                &&& v.0@.len() == n * n
                &&& (forall|i: int| 0 <= i < n ==> #[trigger] v.0@[i * n + i] <= 0)
                &&& (forall|sw: int, d1: int, d2: int|
                    0 <= sw < w && 0 <= d1 < 4 && 0 <= d2 < 4 && d1 != d2
                        && switches@[sw].has_directions[d1] && switches@[sw].has_directions[d2]
                        ==> #[trigger] v.0@[(s + 4 * sw + d1) * n + (s + 4 * sw + d2)] <= 2)
                &&& spec_resolved_traces(
                    stations@,
                    switches@,
                    blocks@,
                    rail_map.entries@,
                    ties_map.entries@,
                    weights_map.entries@,
                    v.1@,
                )
                &&& spec_solved_from_built(
                    stations@,
                    switches@,
                    blocks@,
                    rail_map.entries@,
                    ties_map.entries@,
                    weights_map.entries@,
                    n,
                    v.0@,
                )
            },
            Err(e) => match e {
                Error::InconsistentTopology(c) => exists|start: BlockCoords, dir: Direction|
                    #[trigger] spec_walk_stuck(
                        start,
                        dir,
                        c,
                        blocks@,
                        rail_map.entries@,
                        ties_map.entries@,
                        spec_station_entries(stations@),
                        spec_switch_entries(switches@),
                    ),
                Error::SearchLimitExceeded => (exists|start: BlockCoords, dir: Direction|
                    #[trigger] spec_walk_exhausted(
                        start,
                        dir,
                        blocks@,
                        rail_map.entries@,
                        ties_map.entries@,
                        spec_station_entries(stations@),
                        spec_switch_entries(switches@),
                        weights_map.entries@,
                    )) || spec_bias_underflow(
                    stations@,
                    switches@,
                    blocks@,
                    rail_map.entries@,
                    ties_map.entries@,
                    weights_map.entries@,
                ),
                Error::MalformedInput => false,
            },
        },
{
    let num_stations = stations.len();
    let num_switches = switches.len();
    let ghost s_int = num_stations as int;
    let ghost w_int = num_switches as int;
    proof {
        assert(s_int + 4 * w_int <= usize::MAX) by (nonlinear_arith)
            requires
                s_int >= 0,
                w_int >= 0,
                (s_int + 4 * w_int) * (s_int + 4 * w_int) <= usize::MAX,
        {}
    }
    let n = num_stations + 4 * num_switches;

    let mut station_id_map: CoordMap<usize> = CoordMap::new();
    let mut sid: usize = 0;
    while sid < num_stations
        invariant
            sid <= num_stations,
            station_id_map.entries@.len() == sid,
            forall|k: int|
                0 <= k < sid ==> #[trigger] station_id_map.entries@[k] == (
                    stations@[k].coords,
                    k as usize,
                ),
        decreases num_stations - sid,
    {
        station_id_map.insert(stations[sid].coords, sid);
        sid = sid + 1;
    }

    let mut switch_id_map: CoordMap<usize> = CoordMap::new();
    let mut swi: usize = 0;
    while swi < num_switches
        invariant
            swi <= num_switches,
            switch_id_map.entries@.len() == swi,
            forall|k: int|
                0 <= k < swi ==> #[trigger] switch_id_map.entries@[k] == (
                    switches@[k].coords,
                    k as usize,
                ),
        decreases num_switches - swi,
    {
        switch_id_map.insert(switches[swi].coords, swi);
        swi = swi + 1;
    }

    let total = n * n;
    let mut distances: Vec<i32> = Vec::new();
    let mut p: usize = 0;
    while p < total
        invariant
            distances@.len() == p,
            p <= total,
            forall|q: int| 0 <= q < p ==> #[trigger] distances@[q] == i32::MAX,
        decreases total - p,
    {
        distances.push(i32::MAX);
        p = p + 1;
    }

    proof {
        assert forall|row: int, col: int|
            0 <= row < n && 0 <= col < n implies #[trigger] distances@[row * (n as int) + col]
            == i32::MAX by {
            lemma_cell_bound(n as int, row, col);
        }
    }
    // every node's self-distance is zero, the absent switch exits included
    let mut di: usize = 0;
    while di < n
        invariant
            di <= n,
            distances@.len() == n * n,
            forall|i: int| 0 <= i < di ==> #[trigger] distances@[i * (n as int) + i] == 0,
            forall|row: int, col: int|
                0 <= row < n && 0 <= col < n && (row != col || row >= di)
                    ==> #[trigger] distances@[row * (n as int) + col] == i32::MAX,
        decreases n - di,
    {
        let ghost pre = distances@;
        proof {
            lemma_cell_bound(n as int, di as int, di as int);
        }
        set_distance(&mut distances, n, di, di, 0);
        proof {
            assert forall|i: int| 0 <= i < di + 1 implies #[trigger] distances@[i * (n as int)
                + i] == 0 by {
                lemma_cell_bound(n as int, i, i);
                if i < di {
                    lemma_cell_distinct(n as int, i, i, di as int, di as int);
                    assert(pre[i * (n as int) + i] == 0);
                }
            }
            assert forall|row: int, col: int|
                0 <= row < n && 0 <= col < n && (row != col || row >= di + 1)
                    implies #[trigger] distances@[row * (n as int) + col] == i32::MAX by {
                lemma_cell_bound(n as int, row, col);
                lemma_cell_distinct(n as int, row, col, di as int, di as int);
                assert(pre[row * (n as int) + col] == i32::MAX);
            }
        }
        di = di + 1;
    }

    let mut rail_system_coords: Vec<BlockCoords> = Vec::new();
    let ghost mut conn_traces: Seq<Seq<BlockCoords>> = Seq::empty();
    proof {
        assert(rail_system_coords@ =~= spec_traces_concat(conn_traces));
        assert forall|row: int, col: int|
            0 <= row < n && 0 <= col < n implies spec_cell_ok(
            stations@,
            switches@,
            blocks@,
            rail_map.entries@,
            ties_map.entries@,
            weights_map.entries@,
            row,
            col,
            #[trigger] distances@[row * (n as int) + col] as int,
        ) by {
            lemma_cell_bound(n as int, row, col);
        }
    }

    let mut from_station_id: usize = 0;
    while from_station_id < num_stations
        invariant
            from_station_id <= num_stations,
            distances@.len() == n * n,
            forall|k: int|
                0 <= k < num_stations ==> #[trigger] station_id_map.entries@[k] == (
                    stations@[k].coords,
                    k as usize,
                ),
            station_id_map.entries@.len() == num_stations,
            forall|k: int|
                0 <= k < num_switches ==> #[trigger] switch_id_map.entries@[k] == (
                    switches@[k].coords,
                    k as usize,
                ),
            switch_id_map.entries@.len() == num_switches,
            forall|i: int| 0 <= i < n ==> #[trigger] distances@[i * (n as int) + i] == 0,
            rail_system_coords@ == spec_traces_concat(conn_traces),
            forall|t: int|
                0 <= t < conn_traces.len() ==> spec_trace_is_connection(
                    stations@,
                    switches@,
                    blocks@,
                    rail_map.entries@,
                    ties_map.entries@,
                    weights_map.entries@,
                    #[trigger] conn_traces[t],
                ),
            forall|row: int, col: int|
                0 <= row < n && 0 <= col < n ==> spec_cell_ok(
                    stations@,
                    switches@,
                    blocks@,
                    rail_map.entries@,
                    ties_map.entries@,
                    weights_map.entries@,
                    row,
                    col,
                    #[trigger] distances@[row * (n as int) + col] as int,
                ),
            forall|row: int|
                0 <= row < from_station_id ==> #[trigger] spec_row_connected(
                    stations@,
                    switches@,
                    blocks@,
                    rail_map.entries@,
                    ties_map.entries@,
                    weights_map.entries@,
                    n as int,
                    row,
                    distances@,
                ),
        decreases num_stations - from_station_id,
    {
        let from_station = &stations[from_station_id];
        let conn = find_connection(
            from_station.coords,
            from_station.direction,
            &station_id_map,
            &switch_id_map,
            blocks,
            rail_map,
            ties_map,
            weights_map,
            num_stations,
        );
        let (to_node_id, distance, mut rail_connection_coords) = match conn {
            Ok(v) => v,
            Err(e) => {
                proof {
                    assert(station_id_map.entries@ =~= spec_station_entries(stations@));
                    assert(switch_id_map.entries@ =~= spec_switch_entries(switches@));
                }
                return Err(e);
            },
        };
        proof {
            lemma_connection_node_in_range(
                stations@,
                switches@,
                station_id_map.entries@,
                switch_id_map.entries@,
                to_node_id,
                num_stations,
            );
        }
        let ghost trace_view = rail_connection_coords@;
        rail_system_coords.append(&mut rail_connection_coords);
        proof {
            assert(station_id_map.entries@ =~= spec_station_entries(stations@));
            assert(switch_id_map.entries@ =~= spec_switch_entries(switches@));
            lemma_trace_justified(
                stations@,
                switches@,
                blocks@,
                rail_map.entries@,
                ties_map.entries@,
                weights_map.entries@,
                from_station.coords,
                from_station.direction,
                to_node_id,
                distance,
                trace_view,
            );
            let ghost pre_traces = conn_traces;
            conn_traces = conn_traces.push(trace_view);
            assert(conn_traces.drop_last() =~= pre_traces);
            assert(rail_system_coords@ =~= spec_traces_concat(conn_traces));
        }
        let subtraction_distance: i32 = if to_node_id >= num_stations {
            1
        } else {
            0
        };
        let d = match distance.checked_sub(subtraction_distance) {
            Some(v) => v,
            None => {
                proof {
                    assert(station_id_map.entries@ =~= spec_station_entries(stations@));
                    assert(switch_id_map.entries@ =~= spec_switch_entries(switches@));
                    assert(distance as int <= i32::MIN as int + 1);
                    assert(spec_connection_ok(
                        from_station.coords,
                        from_station.direction,
                        to_node_id,
                        distance,
                        trace_view,
                        blocks@,
                        rail_map.entries@,
                        ties_map.entries@,
                        spec_station_entries(stations@),
                        spec_switch_entries(switches@),
                        weights_map.entries@,
                        num_stations,
                    ));
                    assert(num_stations == stations@.len());
                    lemma_bias_underflow_witness(
                        stations@,
                        switches@,
                        blocks@,
                        rail_map.entries@,
                        ties_map.entries@,
                        weights_map.entries@,
                        from_station.coords,
                        from_station.direction,
                        to_node_id,
                        distance,
                        trace_view,
                    );
                }
                return Err(Error::SearchLimitExceeded);
            },
        };
        let ghost pre = distances@;
        fill_station_row(&mut distances, n, from_station_id, to_node_id, d);
        proof {
            assert forall|i: int| 0 <= i < n implies #[trigger] distances@[i * (n as int) + i]
                == 0 by {
                if i != from_station_id {
                    assert(pre[i * (n as int) + i] == 0);
                }
            }
            assert(spec_row_source(stations@, switches@, from_station_id as int) == (
                from_station.coords,
                from_station.direction,
            ));
            assert forall|row: int, col: int|
                0 <= row < n && 0 <= col < n implies spec_cell_ok(
                stations@,
                switches@,
                blocks@,
                rail_map.entries@,
                ties_map.entries@,
                weights_map.entries@,
                row,
                col,
                #[trigger] distances@[row * (n as int) + col] as int,
            ) by {
                if row != from_station_id {
                    assert(distances@[row * (n as int) + col] == pre[row * (n as int) + col]);
                } else if col == from_station_id {
                    assert(distances@[row * (n as int) + col] == 0);
                } else if col == to_node_id {
                    lemma_cell_edge_witness(
                        stations@,
                        switches@,
                        blocks@,
                        rail_map.entries@,
                        ties_map.entries@,
                        weights_map.entries@,
                        row,
                        to_node_id,
                        distance,
                        trace_view,
                        d as int,
                    );
                } else {
                    assert(distances@[row * (n as int) + col] == pre[row * (n as int) + col]);
                }
            }
            lemma_row_connected_witness(
                stations@,
                switches@,
                blocks@,
                rail_map.entries@,
                ties_map.entries@,
                weights_map.entries@,
                n as int,
                from_station_id as int,
                distances@,
                to_node_id,
                distance,
                trace_view,
            );
            assert forall|row: int| 0 <= row < from_station_id implies #[trigger] spec_row_connected(
                stations@,
                switches@,
                blocks@,
                rail_map.entries@,
                ties_map.entries@,
                weights_map.entries@,
                n as int,
                row,
                distances@,
            ) by {
                assert forall|col: int|
                    0 <= col < n implies #[trigger] distances@[row * (n as int) + col]
                    == pre[row * (n as int) + col] by {}
                lemma_row_connected_preserved(
                    stations@,
                    switches@,
                    blocks@,
                    rail_map.entries@,
                    ties_map.entries@,
                    weights_map.entries@,
                    n as int,
                    row,
                    pre,
                    distances@,
                );
            }
        }
        from_station_id = from_station_id + 1;
    }

    let mut from_switch_id: usize = 0;
    while from_switch_id < num_switches
        invariant
            from_switch_id <= num_switches,
            distances@.len() == n * n,
            forall|k: int|
                0 <= k < num_stations ==> #[trigger] station_id_map.entries@[k] == (
                    stations@[k].coords,
                    k as usize,
                ),
            station_id_map.entries@.len() == num_stations,
            forall|k: int|
                0 <= k < num_switches ==> #[trigger] switch_id_map.entries@[k] == (
                    switches@[k].coords,
                    k as usize,
                ),
            switch_id_map.entries@.len() == num_switches,
            forall|i: int| 0 <= i < n ==> #[trigger] distances@[i * (n as int) + i] == 0,
            rail_system_coords@ == spec_traces_concat(conn_traces),
            forall|t: int|
                0 <= t < conn_traces.len() ==> spec_trace_is_connection(
                    stations@,
                    switches@,
                    blocks@,
                    rail_map.entries@,
                    ties_map.entries@,
                    weights_map.entries@,
                    #[trigger] conn_traces[t],
                ),
            forall|row: int, col: int|
                0 <= row < n && 0 <= col < n ==> spec_cell_ok(
                    stations@,
                    switches@,
                    blocks@,
                    rail_map.entries@,
                    ties_map.entries@,
                    weights_map.entries@,
                    row,
                    col,
                    #[trigger] distances@[row * (n as int) + col] as int,
                ),
            forall|sw: int, d1: int, d2: int|
                0 <= sw < from_switch_id && 0 <= d1 < 4 && 0 <= d2 < 4 && d1 != d2
                    && switches@[sw].has_directions[d1] && switches@[sw].has_directions[d2]
                    ==> #[trigger] distances@[(s_int + 4 * sw + d1) * (n as int) + (s_int + 4 * sw
                    + d2)] == 2,
            forall|row: int|
                0 <= row < num_stations ==> #[trigger] spec_row_connected(
                    stations@,
                    switches@,
                    blocks@,
                    rail_map.entries@,
                    ties_map.entries@,
                    weights_map.entries@,
                    n as int,
                    row,
                    distances@,
                ),
            forall|sw: int, d1: int|
                0 <= sw < from_switch_id && 0 <= d1 < 4 && switches@[sw].has_directions[d1]
                    ==> #[trigger] spec_row_connected(
                    stations@,
                    switches@,
                    blocks@,
                    rail_map.entries@,
                    ties_map.entries@,
                    weights_map.entries@,
                    n as int,
                    s_int + 4 * sw + d1,
                    distances@,
                ),
        decreases num_switches - from_switch_id,
    {
        let mut from_direction_index: usize = 0;
        while from_direction_index < 4
            invariant
                from_direction_index <= 4,
                distances@.len() == n * n,
                forall|k: int|
                    0 <= k < num_stations ==> #[trigger] station_id_map.entries@[k] == (
                        stations@[k].coords,
                        k as usize,
                    ),
                station_id_map.entries@.len() == num_stations,
                forall|k: int|
                    0 <= k < num_switches ==> #[trigger] switch_id_map.entries@[k] == (
                        switches@[k].coords,
                        k as usize,
                    ),
                switch_id_map.entries@.len() == num_switches,
                forall|i: int| 0 <= i < n ==> #[trigger] distances@[i * (n as int) + i] == 0,
                rail_system_coords@ == spec_traces_concat(conn_traces),
                forall|t: int|
                    0 <= t < conn_traces.len() ==> spec_trace_is_connection(
                        stations@,
                        switches@,
                        blocks@,
                        rail_map.entries@,
                        ties_map.entries@,
                        weights_map.entries@,
                        #[trigger] conn_traces[t],
                    ),
                forall|row: int, col: int|
                    0 <= row < n && 0 <= col < n ==> spec_cell_ok(
                        stations@,
                        switches@,
                        blocks@,
                        rail_map.entries@,
                        ties_map.entries@,
                        weights_map.entries@,
                        row,
                        col,
                        #[trigger] distances@[row * (n as int) + col] as int,
                    ),
                forall|sw: int, d1: int, d2: int|
                    ((0 <= sw < from_switch_id && 0 <= d1 < 4) || (sw == from_switch_id && 0 <= d1
                        < from_direction_index)) && 0 <= d2 < 4 && d1 != d2
                        && switches@[sw].has_directions[d1] && switches@[sw].has_directions[d2]
                        ==> #[trigger] distances@[(s_int + 4 * sw + d1) * (n as int) + (s_int + 4
                        * sw + d2)] == 2,
                forall|row: int|
                    0 <= row < num_stations ==> #[trigger] spec_row_connected(
                        stations@,
                        switches@,
                        blocks@,
                        rail_map.entries@,
                        ties_map.entries@,
                        weights_map.entries@,
                        n as int,
                        row,
                        distances@,
                    ),
                forall|sw: int, d1: int|
                    ((0 <= sw < from_switch_id && 0 <= d1 < 4) || (sw == from_switch_id && 0 <= d1
                        < from_direction_index)) && switches@[sw].has_directions[d1]
                        ==> #[trigger] spec_row_connected(
                        stations@,
                        switches@,
                        blocks@,
                        rail_map.entries@,
                        ties_map.entries@,
                        weights_map.entries@,
                        n as int,
                        s_int + 4 * sw + d1,
                        distances@,
                    ),
            decreases 4 - from_direction_index,
        {
            let has_dir = switches[from_switch_id].has_directions[from_direction_index];
            if has_dir {
                let conn = find_connection(
                    switches[from_switch_id].coords,
                    Direction::from_usize(from_direction_index),
                    &station_id_map,
                    &switch_id_map,
                    blocks,
                    rail_map,
                    ties_map,
                    weights_map,
                    num_stations,
                );
                let (to_node_id, distance, mut rail_connection_coords) = match conn {
                    Ok(v) => v,
                    Err(e) => {
                        proof {
                            assert(station_id_map.entries@ =~= spec_station_entries(stations@));
                            assert(switch_id_map.entries@ =~= spec_switch_entries(switches@));
                        }
                        return Err(e);
                    },
                };
                proof {
                    lemma_connection_node_in_range(
                        stations@,
                        switches@,
                        station_id_map.entries@,
                        switch_id_map.entries@,
                        to_node_id,
                        num_stations,
                    );
                }
                let ghost trace_view = rail_connection_coords@;
                rail_system_coords.append(&mut rail_connection_coords);
                proof {
                    assert(station_id_map.entries@ =~= spec_station_entries(stations@));
                    assert(switch_id_map.entries@ =~= spec_switch_entries(switches@));
                    lemma_trace_justified(
                        stations@,
                        switches@,
                        blocks@,
                        rail_map.entries@,
                        ties_map.entries@,
                        weights_map.entries@,
                        switches@[from_switch_id as int].coords,
                        spec_direction_from_index(from_direction_index as int),
                        to_node_id,
                        distance,
                        trace_view,
                    );
                    let ghost pre_traces = conn_traces;
                    conn_traces = conn_traces.push(trace_view);
                    assert(conn_traces.drop_last() =~= pre_traces);
                    assert(rail_system_coords@ =~= spec_traces_concat(conn_traces));
                }
                let subtraction_distance: i32 = if to_node_id >= num_stations {
                    2
                } else {
                    1
                };
                let d = match distance.checked_sub(subtraction_distance) {
                    Some(v) => v,
                    None => {
                        proof {
                            assert(station_id_map.entries@ =~= spec_station_entries(stations@));
                            assert(switch_id_map.entries@ =~= spec_switch_entries(switches@));
                            assert(distance as int <= i32::MIN as int + 1);
                            assert(spec_connection_ok(
                                switches@[from_switch_id as int].coords,
                                spec_direction_from_index(from_direction_index as int),
                                to_node_id,
                                distance,
                                trace_view,
                                blocks@,
                                rail_map.entries@,
                                ties_map.entries@,
                                spec_station_entries(stations@),
                                spec_switch_entries(switches@),
                                weights_map.entries@,
                                num_stations,
                            ));
                            assert(num_stations == stations@.len());
                            lemma_bias_underflow_witness(
                                stations@,
                                switches@,
                                blocks@,
                                rail_map.entries@,
                                ties_map.entries@,
                                weights_map.entries@,
                                switches@[from_switch_id as int].coords,
                                spec_direction_from_index(from_direction_index as int),
                                to_node_id,
                                distance,
                                trace_view,
                            );
                        }
                        return Err(Error::SearchLimitExceeded);
                    },
                };
                let ghost pre = distances@;
                fill_switch_row(
                    &mut distances,
                    n,
                    num_stations,
                    from_switch_id,
                    from_direction_index,
                    switches[from_switch_id].has_directions,
                    to_node_id,
                    d,
                );
                let ghost cur_row = s_int + 4 * from_switch_id + from_direction_index;
                proof {
                    assert forall|i: int| 0 <= i < n implies #[trigger] distances@[i * (n as int)
                        + i] == 0 by {
                        if i != cur_row {
                            assert(pre[i * (n as int) + i] == 0);
                        }
                    }
                    vstd::arithmetic::div_mod::lemma_fundamental_div_mod_converse(
                        4 * (from_switch_id as int) + (from_direction_index as int),
                        4,
                        from_switch_id as int,
                        from_direction_index as int,
                    );
                    assert(spec_row_source(stations@, switches@, cur_row) == (
                        switches@[from_switch_id as int].coords,
                        spec_direction_from_index(from_direction_index as int),
                    ));
                    let ghost has = switches@[from_switch_id as int].has_directions;
                    assert forall|row: int, col: int|
                        0 <= row < n && 0 <= col < n implies spec_cell_ok(
                        stations@,
                        switches@,
                        blocks@,
                        rail_map.entries@,
                        ties_map.entries@,
                        weights_map.entries@,
                        row,
                        col,
                        #[trigger] distances@[row * (n as int) + col] as int,
                    ) by {
                        if row != cur_row {
                            assert(distances@[row * (n as int) + col] == pre[row * (n as int)
                                + col]);
                        } else if col == cur_row {
                            assert(distances@[row * (n as int) + col] == 0);
                        } else if exists|d2: int|
                            0 <= d2 < 4 && d2 != from_direction_index && has[d2] && col == s_int
                                + 4 * from_switch_id + d2 {
                            let d2 = choose|d2: int|
                                0 <= d2 < 4 && d2 != from_direction_index && has[d2] && col
                                    == s_int + 4 * from_switch_id + d2;
                            assert(distances@[row * (n as int) + col] == 2);
                            assert(switches@[from_switch_id as int].has_directions[
                                from_direction_index as int]);
                        } else if col == to_node_id {
                            lemma_cell_edge_witness(
                                stations@,
                                switches@,
                                blocks@,
                                rail_map.entries@,
                                ties_map.entries@,
                                weights_map.entries@,
                                row,
                                to_node_id,
                                distance,
                                trace_view,
                                d as int,
                            );
                        } else {
                            assert(distances@[row * (n as int) + col] == pre[row * (n as int)
                                + col]);
                        }
                    }
                    lemma_row_connected_witness(
                        stations@,
                        switches@,
                        blocks@,
                        rail_map.entries@,
                        ties_map.entries@,
                        weights_map.entries@,
                        n as int,
                        cur_row,
                        distances@,
                        to_node_id,
                        distance,
                        trace_view,
                    );
                    assert forall|row: int|
                        0 <= row < n && row != cur_row && spec_row_connected(
                            stations@,
                            switches@,
                            blocks@,
                            rail_map.entries@,
                            ties_map.entries@,
                            weights_map.entries@,
                            n as int,
                            row,
                            pre,
                        ) implies #[trigger] spec_row_connected(
                        stations@,
                        switches@,
                        blocks@,
                        rail_map.entries@,
                        ties_map.entries@,
                        weights_map.entries@,
                        n as int,
                        row,
                        distances@,
                    ) by {
                        assert forall|col: int|
                            0 <= col < n implies #[trigger] distances@[row * (n as int) + col]
                            == pre[row * (n as int) + col] by {}
                        lemma_row_connected_preserved(
                            stations@,
                            switches@,
                            blocks@,
                            rail_map.entries@,
                            ties_map.entries@,
                            weights_map.entries@,
                            n as int,
                            row,
                            pre,
                            distances@,
                        );
                    }
                    assert forall|sw: int, d1: int, d2: int|
                        ((0 <= sw < from_switch_id && 0 <= d1 < 4) || (sw == from_switch_id && 0
                            <= d1 < from_direction_index + 1)) && 0 <= d2 < 4 && d1 != d2
                            && switches@[sw].has_directions[d1] && switches@[sw].has_directions[d2]
                            implies #[trigger] distances@[(s_int + 4 * sw + d1) * (n as int) + (
                        s_int + 4 * sw + d2)] == 2 by {
                        if 4 * sw + d1 != 4 * from_switch_id + from_direction_index {
                            assert(pre[(s_int + 4 * sw + d1) * (n as int) + (s_int + 4 * sw + d2)]
                                == 2);
                        }
                    }
                }
            }
            from_direction_index = from_direction_index + 1;
        }
        from_switch_id = from_switch_id + 1;
    }

    let ghost before_fw = distances@;
    floyd_warshall(&mut distances, n);
    proof {
        assert(spec_built_cells(
            stations@,
            switches@,
            blocks@,
            rail_map.entries@,
            ties_map.entries@,
            weights_map.entries@,
            n as int,
            before_fw,
        ));
        assert(spec_relaxed(before_fw, n as int, distances@));
        lemma_solved_witness(
            stations@,
            switches@,
            blocks@,
            rail_map.entries@,
            ties_map.entries@,
            weights_map.entries@,
            n as int,
            before_fw,
            distances@,
        );
        assert forall|i: int| 0 <= i < n implies #[trigger] distances@[i * (n as int) + i]
            <= 0 by {
            lemma_cell_bound(n as int, i, i);
            assert(before_fw[i * (n as int) + i] == 0);
        }
        assert forall|sw: int, d1: int, d2: int|
            0 <= sw < w_int && 0 <= d1 < 4 && 0 <= d2 < 4 && d1 != d2
                && switches@[sw].has_directions[d1] && switches@[sw].has_directions[d2]
                implies #[trigger] distances@[(s_int + 4 * sw + d1) * (n as int) + (s_int + 4 * sw
                + d2)] <= 2 by {
            lemma_cell_bound(n as int, s_int + 4 * sw + d1, s_int + 4 * sw + d2);
            assert(before_fw[(s_int + 4 * sw + d1) * (n as int) + (s_int + 4 * sw + d2)] == 2);
        }
    }
    proof {
        lemma_traces_witness(
            stations@,
            switches@,
            blocks@,
            rail_map.entries@,
            ties_map.entries@,
            weights_map.entries@,
            conn_traces,
            rail_system_coords@,
        );
    }
    Ok((distances, rail_system_coords))
}

/// The id-map entries the solver registers for the stations, in order.
pub open spec fn spec_station_entries(stations: Seq<Station>) -> Seq<(BlockCoords, usize)> {
    Seq::new(stations.len(), |k: int| (stations[k].coords, k as usize))
}

/// The id-map entries the solver registers for the switches, in order.
pub open spec fn spec_switch_entries(switches: Seq<Switch>) -> Seq<(BlockCoords, usize)> {
    Seq::new(switches.len(), |k: int| (switches[k].coords, k as usize))
}

/// Some resolved connection's cost lies so low that subtracting the switch
/// bias leaves the i32 range.
pub open spec fn spec_bias_underflow(
    stations: Seq<Station>,
    switches: Seq<Switch>,
    blocks: Seq<Block>,
    rails: Seq<(BlockCoords, usize)>,
    ties: Seq<(BlockCoords, Tie)>,
    weights: Seq<(BlockCoords, i32)>,
) -> bool {
    exists|start: BlockCoords, dir: Direction, node: usize, dist: i32, trace: Seq<BlockCoords>|
        #[trigger] spec_connection_ok(
            start,
            dir,
            node,
            dist,
            trace,
            blocks,
            rails,
            ties,
            spec_station_entries(stations),
            spec_switch_entries(switches),
            weights,
            stations.len() as usize,
        ) && dist as int <= i32::MIN as int + 1
}

/// The concatenation of a sequence of coordinate traces, in order.
pub open spec fn spec_traces_concat(traces: Seq<Seq<BlockCoords>>) -> Seq<BlockCoords>
    decreases traces.len(),
{
    if traces.len() == 0 {
        Seq::empty()
    } else {
        spec_traces_concat(traces.drop_last()) + traces.last()
    }
}

/// The trace is the coordinate sequence of some resolved connection of the
/// graph's id maps.
pub open spec fn spec_trace_is_connection(
    stations: Seq<Station>,
    switches: Seq<Switch>,
    blocks: Seq<Block>,
    rails: Seq<(BlockCoords, usize)>,
    ties: Seq<(BlockCoords, Tie)>,
    weights: Seq<(BlockCoords, i32)>,
    trace: Seq<BlockCoords>,
) -> bool {
    exists|start: BlockCoords, dir: Direction, node: usize, dist: i32|
        #[trigger] spec_connection_ok(
            start,
            dir,
            node,
            dist,
            trace,
            blocks,
            rails,
            ties,
            spec_station_entries(stations),
            spec_switch_entries(switches),
            weights,
            stations.len() as usize,
        )
}

/// The returned coordinate sequence is the concatenation of resolved
/// connection traces, in the order the connections were walked.
pub open spec fn spec_resolved_traces(
    stations: Seq<Station>,
    switches: Seq<Switch>,
    blocks: Seq<Block>,
    rails: Seq<(BlockCoords, usize)>,
    ties: Seq<(BlockCoords, Tie)>,
    weights: Seq<(BlockCoords, i32)>,
    coords: Seq<BlockCoords>,
) -> bool {
    exists|traces: Seq<Seq<BlockCoords>>|
        {
            &&& coords == #[trigger] spec_traces_concat(traces)
            &&& forall|t: int|
                0 <= t < traces.len() ==> spec_trace_is_connection(
                    stations,
                    switches,
                    blocks,
                    rails,
                    ties,
                    weights,
                    #[trigger] traces[t],
                )
        }
}

/// A trace a successful walk returned is a connection trace.
proof fn lemma_trace_justified(
    stations: Seq<Station>,
    switches: Seq<Switch>,
    blocks: Seq<Block>,
    rails: Seq<(BlockCoords, usize)>,
    ties: Seq<(BlockCoords, Tie)>,
    weights: Seq<(BlockCoords, i32)>,
    start: BlockCoords,
    dir: Direction,
    node: usize,
    dist: i32,
    trace: Seq<BlockCoords>,
)
    requires
        spec_connection_ok(
            start,
            dir,
            node,
            dist,
            trace,
            blocks,
            rails,
            ties,
            spec_station_entries(stations),
            spec_switch_entries(switches),
            weights,
            stations.len() as usize,
        ),
    ensures
        spec_trace_is_connection(stations, switches, blocks, rails, ties, weights, trace),
{
}

/// A justified trace list whose concatenation is the output witnesses the
/// trace clause.
proof fn lemma_traces_witness(
    stations: Seq<Station>,
    switches: Seq<Switch>,
    blocks: Seq<Block>,
    rails: Seq<(BlockCoords, usize)>,
    ties: Seq<(BlockCoords, Tie)>,
    weights: Seq<(BlockCoords, i32)>,
    traces: Seq<Seq<BlockCoords>>,
    coords: Seq<BlockCoords>,
)
    requires
        coords == spec_traces_concat(traces),
        forall|t: int|
            0 <= t < traces.len() ==> spec_trace_is_connection(
                stations,
                switches,
                blocks,
                rails,
                ties,
                weights,
                #[trigger] traces[t],
            ),
    ensures
        spec_resolved_traces(stations, switches, blocks, rails, ties, weights, coords),
{
}

/// The start state a matrix row's walk leaves from: a station row walks
/// from its launch rail along its facing, a switch-exit row from its
/// switch's centre along the exit direction.
pub open spec fn spec_row_source(
    stations: Seq<Station>,
    switches: Seq<Switch>,
    row: int,
) -> (BlockCoords, Direction) {
    if row < stations.len() {
        (stations[row].coords, stations[row].direction)
    } else {
        let sw = (row - stations.len()) / 4;
        let di = (row - stations.len()) % 4;
        (switches[sw].coords, spec_direction_from_index(di))
    }
}

/// One is subtracted from an edge's cost for each of its ends that is a
/// switch exit.
pub open spec fn spec_edge_bias(s: int, row: int, col: int) -> int {
    (if row >= s {
        1int
    } else {
        0int
    }) + (if col >= s {
        1int
    } else {
        0int
    })
}

/// The cell records a resolved connection: its row's walk reached the
/// column's node, and the value is the walked cost minus the switch bias.
pub open spec fn spec_cell_edge(
    stations: Seq<Station>,
    switches: Seq<Switch>,
    blocks: Seq<Block>,
    rails: Seq<(BlockCoords, usize)>,
    ties: Seq<(BlockCoords, Tie)>,
    weights: Seq<(BlockCoords, i32)>,
    row: int,
    col: int,
    val: int,
) -> bool {
    exists|node: usize, dist: i32, trace: Seq<BlockCoords>|
        #[trigger] spec_connection_ok(
            spec_row_source(stations, switches, row).0,
            spec_row_source(stations, switches, row).1,
            node,
            dist,
            trace,
            blocks,
            rails,
            ties,
            spec_station_entries(stations),
            spec_switch_entries(switches),
            weights,
            stations.len() as usize,
        ) && node as int == col && val == dist as int - spec_edge_bias(
            stations.len() as int,
            row,
            col,
        )
}

/// Every cell of the built matrix is accounted for: the sentinel, a zero
/// diagonal, a fixed same-switch link of two, or a resolved connection's
/// biased cost.
pub open spec fn spec_cell_ok(
    stations: Seq<Station>,
    switches: Seq<Switch>,
    blocks: Seq<Block>,
    rails: Seq<(BlockCoords, usize)>,
    ties: Seq<(BlockCoords, Tie)>,
    weights: Seq<(BlockCoords, i32)>,
    row: int,
    col: int,
    val: int,
) -> bool {
    ||| val == i32::MAX as int
    ||| (row == col && val == 0)
    ||| (exists|sw: int, d1: int, d2: int|
        #![trigger switches[sw].has_directions[d1], switches[sw].has_directions[d2]]
        0 <= sw < switches.len() && 0 <= d1 < 4 && 0 <= d2 < 4 && d1 != d2 && row
            == stations.len() + 4 * sw + d1 && col == stations.len() + 4 * sw + d2
            && switches[sw].has_directions[d1] && switches[sw].has_directions[d2] && val == 2)
    ||| spec_cell_edge(stations, switches, blocks, rails, ties, weights, row, col, val)
}

/// Every cell of the matrix is accounted for.
pub open spec fn spec_built_cells(
    stations: Seq<Station>,
    switches: Seq<Switch>,
    blocks: Seq<Block>,
    rails: Seq<(BlockCoords, usize)>,
    ties: Seq<(BlockCoords, Tie)>,
    weights: Seq<(BlockCoords, i32)>,
    n: int,
    pre: Seq<i32>,
) -> bool {
    &&& pre.len() == n * n
    &&& forall|row: int, col: int|
        0 <= row < n && 0 <= col < n ==> spec_cell_ok(
            stations,
            switches,
            blocks,
            rails,
            ties,
            weights,
            row,
            col,
            #[trigger] pre[row * n + col] as int,
        )
}

/// The solved matrix is a relaxation of a matrix: no entry grows, every
/// entry obeys every one-pivot bound, and every entry stays realizable
/// over that matrix's edges.
pub open spec fn spec_relaxed(pre: Seq<i32>, n: int, post: Seq<i32>) -> bool {
    &&& post.len() == pre.len()
    &&& (forall|p: int| 0 <= p < pre.len() ==> #[trigger] post[p] <= pre[p])
    &&& (forall|k: int, i: int, j: int|
        0 <= k < n && 0 <= i < n && 0 <= j < n ==> #[trigger] spec_pivot_bound(
            pre,
            n,
            post,
            k,
            i,
            j,
        ))
    &&& spec_all_realizable(pre, n, post)
}

/// The solved matrix is the relaxation of some accounted-for built matrix.
pub open spec fn spec_solved_from_built(
    stations: Seq<Station>,
    switches: Seq<Switch>,
    blocks: Seq<Block>,
    rails: Seq<(BlockCoords, usize)>,
    ties: Seq<(BlockCoords, Tie)>,
    weights: Seq<(BlockCoords, i32)>,
    n: int,
    post: Seq<i32>,
) -> bool {
    exists|pre: Seq<i32>|
        {
            &&& #[trigger] spec_built_cells(
                stations,
                switches,
                blocks,
                rails,
                ties,
                weights,
                n,
                pre,
            )
            &&& (forall|row: int|
                0 <= row < stations.len() ==> #[trigger] spec_row_connected(
                    stations,
                    switches,
                    blocks,
                    rails,
                    ties,
                    weights,
                    n,
                    row,
                    pre,
                ))
            &&& (forall|sw: int, d1: int|
                0 <= sw < switches.len() && 0 <= d1 < 4 && switches[sw].has_directions[d1]
                    ==> #[trigger] spec_row_connected(
                    stations,
                    switches,
                    blocks,
                    rails,
                    ties,
                    weights,
                    n,
                    stations.len() + 4 * sw + d1,
                    pre,
                ))
            &&& spec_relaxed(pre, n, post)
        }
}

/// Whether `col` names a present exit of the same switch as row `row`,
/// other than `row` itself.
pub open spec fn spec_same_switch_pair(
    stations: Seq<Station>,
    switches: Seq<Switch>,
    row: int,
    col: int,
) -> bool {
    exists|sw: int, d1: int, d2: int|
        #![trigger switches[sw].has_directions[d1], switches[sw].has_directions[d2]]
        0 <= sw < switches.len() && 0 <= d1 < 4 && 0 <= d2 < 4 && d1 != d2 && row == stations.len()
            + 4 * sw + d1 && col == stations.len() + 4 * sw + d2 && switches[sw].has_directions[d1]
            && switches[sw].has_directions[d2]
}

/// The row's walk was resolved: some connection from the row's source
/// reaches a node, and the row holds its biased cost there, unless the
/// reached cell is the row's own diagonal or a same-switch link, which
/// override it.
pub open spec fn spec_row_connected(
    stations: Seq<Station>,
    switches: Seq<Switch>,
    blocks: Seq<Block>,
    rails: Seq<(BlockCoords, usize)>,
    ties: Seq<(BlockCoords, Tie)>,
    weights: Seq<(BlockCoords, i32)>,
    n: int,
    row: int,
    pre: Seq<i32>,
) -> bool {
    exists|node: usize, dist: i32, trace: Seq<BlockCoords>|
        #[trigger] spec_connection_ok(
            spec_row_source(stations, switches, row).0,
            spec_row_source(stations, switches, row).1,
            node,
            dist,
            trace,
            blocks,
            rails,
            ties,
            spec_station_entries(stations),
            spec_switch_entries(switches),
            weights,
            stations.len() as usize,
        ) && (node as int) < n && (pre[row * n + node as int] as int == dist as int
            - spec_edge_bias(stations.len() as int, row, node as int) || node as int == row
            || spec_same_switch_pair(stations, switches, row, node as int))
}

/// A resolved connection whose cell holds the biased cost, or was
/// overridden by the diagonal or a same-switch link, witnesses the row.
proof fn lemma_row_connected_witness(
    stations: Seq<Station>,
    switches: Seq<Switch>,
    blocks: Seq<Block>,
    rails: Seq<(BlockCoords, usize)>,
    ties: Seq<(BlockCoords, Tie)>,
    weights: Seq<(BlockCoords, i32)>,
    n: int,
    row: int,
    pre: Seq<i32>,
    node: usize,
    dist: i32,
    trace: Seq<BlockCoords>,
)
    requires
        spec_connection_ok(
            spec_row_source(stations, switches, row).0,
            spec_row_source(stations, switches, row).1,
            node,
            dist,
            trace,
            blocks,
            rails,
            ties,
            spec_station_entries(stations),
            spec_switch_entries(switches),
            weights,
            stations.len() as usize,
        ),
        (node as int) < n,
        pre[row * n + node as int] as int == dist as int - spec_edge_bias(
            stations.len() as int,
            row,
            node as int,
        ) || node as int == row || spec_same_switch_pair(stations, switches, row, node as int),
    ensures
        spec_row_connected(stations, switches, blocks, rails, ties, weights, n, row, pre),
{
}

/// A connected row stays connected while its cells stay put.
proof fn lemma_row_connected_preserved(
    stations: Seq<Station>,
    switches: Seq<Switch>,
    blocks: Seq<Block>,
    rails: Seq<(BlockCoords, usize)>,
    ties: Seq<(BlockCoords, Tie)>,
    weights: Seq<(BlockCoords, i32)>,
    n: int,
    row: int,
    pre_old: Seq<i32>,
    pre_new: Seq<i32>,
)
    requires
        spec_row_connected(stations, switches, blocks, rails, ties, weights, n, row, pre_old),
        forall|col: int|
            0 <= col < n ==> #[trigger] pre_new[row * n + col] == pre_old[row * n + col],
    ensures
        spec_row_connected(stations, switches, blocks, rails, ties, weights, n, row, pre_new),
{
    let (node, dist, trace): (usize, i32, Seq<BlockCoords>) = choose|
        node: usize,
        dist: i32,
        trace: Seq<BlockCoords>,
    |
        #[trigger] spec_connection_ok(
            spec_row_source(stations, switches, row).0,
            spec_row_source(stations, switches, row).1,
            node,
            dist,
            trace,
            blocks,
            rails,
            ties,
            spec_station_entries(stations),
            spec_switch_entries(switches),
            weights,
            stations.len() as usize,
        ) && (node as int) < n && (pre_old[row * n + node as int] as int == dist as int
            - spec_edge_bias(stations.len() as int, row, node as int) || node as int == row
            || spec_same_switch_pair(stations, switches, row, node as int));
    lemma_row_connected_witness(
        stations,
        switches,
        blocks,
        rails,
        ties,
        weights,
        n,
        row,
        pre_new,
        node,
        dist,
        trace,
    );
}

/// An accounted-for matrix whose relaxation is the output witnesses the
/// solved-from-built clause.
proof fn lemma_solved_witness(
    stations: Seq<Station>,
    switches: Seq<Switch>,
    blocks: Seq<Block>,
    rails: Seq<(BlockCoords, usize)>,
    ties: Seq<(BlockCoords, Tie)>,
    weights: Seq<(BlockCoords, i32)>,
    n: int,
    pre: Seq<i32>,
    post: Seq<i32>,
)
    requires
        spec_built_cells(stations, switches, blocks, rails, ties, weights, n, pre),
        forall|row: int|
            0 <= row < stations.len() ==> #[trigger] spec_row_connected(
                stations,
                switches,
                blocks,
                rails,
                ties,
                weights,
                n,
                row,
                pre,
            ),
        forall|sw: int, d1: int|
            0 <= sw < switches.len() && 0 <= d1 < 4 && switches[sw].has_directions[d1]
                ==> #[trigger] spec_row_connected(
                stations,
                switches,
                blocks,
                rails,
                ties,
                weights,
                n,
                stations.len() + 4 * sw + d1,
                pre,
            ),
        spec_relaxed(pre, n, post),
    ensures
        spec_solved_from_built(stations, switches, blocks, rails, ties, weights, n, post),
{
}

/// A connection resolved for a row witnesses its edge cell.
proof fn lemma_cell_edge_witness(
    stations: Seq<Station>,
    switches: Seq<Switch>,
    blocks: Seq<Block>,
    rails: Seq<(BlockCoords, usize)>,
    ties: Seq<(BlockCoords, Tie)>,
    weights: Seq<(BlockCoords, i32)>,
    row: int,
    node: usize,
    dist: i32,
    trace: Seq<BlockCoords>,
    val: int,
)
    requires
        spec_connection_ok(
            spec_row_source(stations, switches, row).0,
            spec_row_source(stations, switches, row).1,
            node,
            dist,
            trace,
            blocks,
            rails,
            ties,
            spec_station_entries(stations),
            spec_switch_entries(switches),
            weights,
            stations.len() as usize,
        ),
        val == dist as int - spec_edge_bias(stations.len() as int, row, node as int),
    ensures
        spec_cell_edge(stations, switches, blocks, rails, ties, weights, row, node as int, val),
{
}

/// A resolved connection with a cost at the bottom of the i32 range
/// witnesses a bias underflow.
proof fn lemma_bias_underflow_witness(
    stations: Seq<Station>,
    switches: Seq<Switch>,
    blocks: Seq<Block>,
    rails: Seq<(BlockCoords, usize)>,
    ties: Seq<(BlockCoords, Tie)>,
    weights: Seq<(BlockCoords, i32)>,
    start: BlockCoords,
    dir: Direction,
    node: usize,
    dist: i32,
    trace: Seq<BlockCoords>,
)
    requires
        spec_connection_ok(
            start,
            dir,
            node,
            dist,
            trace,
            blocks,
            rails,
            ties,
            spec_station_entries(stations),
            spec_switch_entries(switches),
            weights,
            stations.len() as usize,
        ),
        dist as int <= i32::MIN as int + 1,
    ensures
        spec_bias_underflow(stations, switches, blocks, rails, ties, weights),
{
}

/// A node returned by the connection walker names a station or switch exit
/// inside the matrix, because the id maps register ids below the station
/// and switch counts.
proof fn lemma_connection_node_in_range(
    stations: Seq<Station>,
    switches: Seq<Switch>,
    station_entries: Seq<(BlockCoords, usize)>,
    switch_entries: Seq<(BlockCoords, usize)>,
    node_id: usize,
    num_stations: usize,
)
    requires
        station_entries.len() == stations.len(),
        forall|k: int|
            0 <= k < station_entries.len() ==> #[trigger] station_entries[k] == (
                stations[k].coords,
                k as usize,
            ),
        switch_entries.len() == switches.len(),
        forall|k: int|
            0 <= k < switch_entries.len() ==> #[trigger] switch_entries[k] == (
                switches[k].coords,
                k as usize,
            ),
        num_stations == stations.len(),
        exists|c: BlockCoords|
            {
                ||| #[trigger] spec_map_lookup(station_entries, c) == Some(node_id)
                ||| (spec_map_lookup(station_entries, c) is None && exists|swid: usize|
                    spec_map_lookup(switch_entries, c) == Some(swid) && node_id as int
                        <= num_stations + 4 * swid + 3)
            },
    ensures
        node_id < num_stations + 4 * switches.len() || switches.len() == 0 && node_id
            < num_stations,
{
    let c = choose|c: BlockCoords|
        {
            ||| #[trigger] spec_map_lookup(station_entries, c) == Some(node_id)
            ||| (spec_map_lookup(station_entries, c) is None && exists|swid: usize|
                spec_map_lookup(switch_entries, c) == Some(swid) && node_id as int <= num_stations
                    + 4 * swid + 3)
        };
    if spec_map_lookup(station_entries, c) == Some(node_id) {
        lemma_map_lookup_ok(station_entries, c);
        let k = choose|k: int|
            0 <= k < station_entries.len() && station_entries[k] == (c, node_id);
        assert(station_entries[k] == (stations[k].coords, k as usize));
    } else {
        let swid = choose|swid: usize|
            spec_map_lookup(switch_entries, c) == Some(swid) && node_id as int <= num_stations + 4
                * swid + 3;
        lemma_map_lookup_ok(switch_entries, c);
        let k = choose|k: int| 0 <= k < switch_entries.len() && switch_entries[k] == (c, swid);
        assert(switch_entries[k] == (switches[k].coords, k as usize));
    }
}

} // verus!
