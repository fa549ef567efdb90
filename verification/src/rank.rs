//! Ranking of finished runs: runs are ordered by their objective, ascending,
//! and runs with equal objectives keep the order in which they were swept.
//! The objective of each run is handed in as an integer key that orders as
//! the objective does.

use vstd::prelude::*;

verus! {

/// Run `a` comes before run `b` in the ranking: a smaller key, or an equal
/// key and an earlier sweep position.
pub open spec fn ranked_before(keys: Seq<int>, a: int, b: int) -> bool {
    keys[a] < keys[b] || (keys[a] == keys[b] && a < b)
}

/// Position `x` occurs in `order`.
pub open spec fn lists(order: Seq<usize>, x: int) -> bool {
    exists|k: int| 0 <= k < order.len() && #[trigger] order[k] == x
}

/// `order` lists the positions `0..keys.len()`, each exactly once, by
/// ascending key, equal keys in ascending position.
pub open spec fn is_ranking(keys: Seq<int>, order: Seq<usize>) -> bool {
    &&& order.len() == keys.len()
    &&& forall|k: int| 0 <= k < order.len() ==> #[trigger] order[k] < keys.len()
    &&& forall|x: int| 0 <= x < keys.len() ==> #[trigger] lists(order, x)
    &&& forall|a: int, b: int|
        0 <= a < b < order.len() ==> ranked_before(keys, #[trigger] order[a] as int, #[trigger] order[b] as int)
}

/// `order` ranks the positions `0..count` of `keys` (a prefix of the runs).
spec fn is_partial_ranking(keys: Seq<int>, order: Seq<usize>, count: int) -> bool {
    &&& order.len() == count
    &&& forall|k: int| 0 <= k < order.len() ==> #[trigger] order[k] < count
    &&& forall|x: int| 0 <= x < count ==> #[trigger] lists(order, x)
    &&& forall|a: int, b: int|
        0 <= a < b < order.len() ==> ranked_before(keys, #[trigger] order[a] as int, #[trigger] order[b] as int)
}

/// The ranking of the runs whose keys are `keys`: the positions of the
/// runs by ascending key, runs with equal keys in sweep order.
pub fn rank_by_key(keys: &Vec<u64>) -> (order: Vec<usize>)
    ensures
        is_ranking(int_keys(keys@), order@),
{
    let n = keys.len();
    let ghost ks = int_keys(keys@);
    let mut order: Vec<usize> = Vec::new();
    let mut i: usize = 0;
    while i < n
        invariant
            n == keys@.len(),
            ks == int_keys(keys@),
            i <= n,
            is_partial_ranking(ks, order@, i as int),
        decreases n - i,
    {
        let key = keys[i];
        // Every run ranked so far whose key is at most `key` goes before run `i`.
        let mut p: usize = 0;
        while p < order.len() && keys[order[p]] <= key
            invariant
                n == keys@.len(),
                ks == int_keys(keys@),
                i < n,
                key == keys@[i as int],
                is_partial_ranking(ks, order@, i as int),
                p <= order@.len(),
                forall|q: int| 0 <= q < p ==> ks[#[trigger] order@[q] as int] <= key,
            decreases order@.len() - p,
        {
            p = p + 1;
        }
        let ghost old_order = order@;
        proof {
            assert forall|q: int| p <= q < old_order.len() implies ks[#[trigger] old_order[q] as int] > key by {
                if q > p {
                    assert(ranked_before(ks, old_order[p as int] as int, old_order[q] as int));
                }
            }
        }
        order.insert(p, i);
        proof {
            old_order.insert_ensures(p as int, i);
            let s = order@;
            assert(s == old_order.insert(p as int, i));
            assert forall|k: int| 0 <= k < s.len() implies #[trigger] s[k] < i + 1 by {
                if k < p {
                } else if k > p {
                    assert(s[k] == old_order[k - 1]);
                }
            }
            assert forall|x: int| 0 <= x < i + 1 implies #[trigger] lists(s, x) by {
                if x == i {
                    assert(s[p as int] == x);
                } else {
                    assert(lists(old_order, x));
                    let k0 = choose|k: int| 0 <= k < old_order.len() && #[trigger] old_order[k] == x;
                    if k0 < p {
                        assert(s[k0] == x);
                    } else {
                        assert(s[k0 + 1] == x);
                    }
                }
            }
            assert forall|a: int, b: int| 0 <= a < b < s.len() implies ranked_before(
                ks,
                #[trigger] s[a] as int,
                #[trigger] s[b] as int,
            ) by {
                if b < p {
                    assert(ranked_before(ks, old_order[a] as int, old_order[b] as int));
                } else if b == p {
                    assert(s[a] == old_order[a]);
                    assert(ks[old_order[a] as int] <= key);
                } else if a < p {
                    assert(s[b] == old_order[b - 1]);
                    assert(ranked_before(ks, old_order[a] as int, old_order[b - 1] as int));
                } else if a == p {
                    assert(s[b] == old_order[b - 1]);
                    assert(ks[old_order[b - 1] as int] > key);
                } else {
                    assert(s[a] == old_order[a - 1]);
                    assert(s[b] == old_order[b - 1]);
                    assert(ranked_before(ks, old_order[a - 1] as int, old_order[b - 1] as int));
                }
            }
        }
        i = i + 1;
    }
    order
}

/// The keys of `keys`, as integers.
pub open spec fn int_keys(keys: Seq<u64>) -> Seq<int> {
    Seq::new(keys.len(), |i: int| keys[i] as int)
}

/// Two rankings that agree before position `i` agree at `i`.
proof fn lemma_rankings_agree_at(keys: Seq<int>, a: Seq<usize>, b: Seq<usize>, i: int)
    requires
        is_ranking(keys, a),
        is_ranking(keys, b),
        0 <= i < keys.len(),
        forall|j: int| 0 <= j < i ==> a[j] == b[j],
    ensures
        a[i] == b[i],
{
    let x = a[i] as int;
    let y = b[i] as int;
    if x != y {
        assert(lists(b, x));
        let kb = choose|k: int| 0 <= k < b.len() && #[trigger] b[k] == x;
        assert(lists(a, y));
        let ka = choose|k: int| 0 <= k < a.len() && #[trigger] a[k] == y;
        if kb < i {
            // `x` would stand twice in `a`: at `kb` and at `i`.
            assert(a[kb] == x);
            assert(ranked_before(keys, a[kb] as int, a[i] as int));
        } else if ka < i {
            assert(b[ka] == y);
            assert(ranked_before(keys, b[ka] as int, b[i] as int));
        } else {
            // `x` comes after `y` in `b`, and `y` after `x` in `a`.
            assert(kb > i && ka > i);
            assert(ranked_before(keys, b[i] as int, b[kb] as int));
            assert(ranked_before(keys, a[i] as int, a[ka] as int));
        }
    }
}

proof fn lemma_rankings_agree_before(keys: Seq<int>, a: Seq<usize>, b: Seq<usize>, i: int)
    requires
        is_ranking(keys, a),
        is_ranking(keys, b),
        0 <= i <= keys.len(),
    ensures
        forall|j: int| 0 <= j < i ==> a[j] == b[j],
    decreases i,
{
    if i > 0 {
        lemma_rankings_agree_before(keys, a, b, i - 1);
        lemma_rankings_agree_at(keys, a, b, i - 1);
    }
}

/// The ranking is determined by the keys alone: any two orders that both
/// rank `keys` are the same order.
pub proof fn lemma_ranking_unique(keys: Seq<int>, a: Seq<usize>, b: Seq<usize>)
    requires
        is_ranking(keys, a),
        is_ranking(keys, b),
    ensures
        a == b,
{
    lemma_rankings_agree_before(keys, a, b, keys.len() as int);
    assert(a =~= b);
}

/// The level of an objective, read from the bit pattern of its IEEE 754
/// binary64 value: the magnitude bits with the sign bit applied. Two values
/// that are not NaN compare as their levels do (both zeros have level 0).
pub open spec fn objective_level(bits: u64) -> int {
    let magnitude = (bits & 0x7FFF_FFFF_FFFF_FFFFu64) as int;
    if bits & 0x8000_0000_0000_0000u64 != 0 {
        -magnitude
    } else {
        magnitude
    }
}

/// The bit pattern is that of a NaN: all exponent bits set and a nonzero
/// fraction.
pub open spec fn is_nan_bits(bits: u64) -> bool {
    &&& bits & 0x7FF0_0000_0000_0000u64 == 0x7FF0_0000_0000_0000u64
    &&& bits & 0x000F_FFFF_FFFF_FFFFu64 != 0
}

/// The levels of a sequence of objectives.
pub open spec fn objective_levels(bits: Seq<u64>) -> Seq<int> {
    Seq::new(bits.len(), |i: int| objective_level(bits[i]))
}

/// Ranking fails when two or more runs are ranked and one objective is NaN:
/// a NaN compares with nothing.
pub open spec fn ranking_fails(bits: Seq<u64>) -> bool {
    &&& bits.len() >= 2
    &&& exists|i: int| 0 <= i < bits.len() && #[trigger] is_nan_bits(bits[i])
}

/// An unsigned key that orders objectives as their levels do.
pub fn order_key(bits: u64) -> (key: u64)
    ensures
        key as int == 0x8000_0000_0000_0000 + objective_level(bits),
{
    let magnitude = bits & 0x7FFF_FFFF_FFFF_FFFF;
    proof {
        assert(bits & 0x7FFF_FFFF_FFFF_FFFFu64 <= 0x7FFF_FFFF_FFFF_FFFFu64) by (bit_vector);
    }
    if bits & 0x8000_0000_0000_0000 != 0 {
        0x8000_0000_0000_0000 - magnitude
    } else {
        0x8000_0000_0000_0000 + magnitude
    }
}

/// Whether the bit pattern is that of a NaN.
pub fn is_nan(bits: u64) -> (nan: bool)
    ensures
        nan == is_nan_bits(bits),
{
    bits & 0x7FF0_0000_0000_0000 == 0x7FF0_0000_0000_0000 && bits & 0x000F_FFFF_FFFF_FFFF != 0
}

/// A ranking stays a ranking when the same constant is added to every key.
proof fn lemma_ranking_shift(keys: Seq<int>, shifted: Seq<int>, c: int, order: Seq<usize>)
    requires
        is_ranking(keys, order),
        shifted.len() == keys.len(),
        forall|i: int| 0 <= i < keys.len() ==> #[trigger] shifted[i] == keys[i] + c,
    ensures
        is_ranking(shifted, order),
{
    assert forall|a: int, b: int| 0 <= a < b < order.len() implies ranked_before(
        shifted,
        #[trigger] order[a] as int,
        #[trigger] order[b] as int,
    ) by {
        assert(ranked_before(keys, order[a] as int, order[b] as int));
    }
}

/// Ranks runs by objective, given the bit pattern of each objective
/// (`f64::to_bits`): ascending objective, runs whose objectives compare
/// equal in sweep order. With two or more runs, a NaN objective makes the
/// ranking fail (`None`).
pub fn rank_by_objective(objective_bits: &Vec<u64>) -> (order: Option<Vec<usize>>)
    ensures
        order is None <==> ranking_fails(objective_bits@),
        order matches Some(o) ==> is_ranking(objective_levels(objective_bits@), o@),
{
    let n = objective_bits.len();
    if n >= 2 {
        let mut i: usize = 0;
        while i < n
            invariant
                n == objective_bits@.len(),
                n >= 2,
                i <= n,
                forall|j: int| 0 <= j < i ==> !is_nan_bits(#[trigger] objective_bits@[j]),
            decreases n - i,
        {
            if is_nan(objective_bits[i]) {
                assert(is_nan_bits(objective_bits@[i as int]));
                return None;
            }
            i = i + 1;
        }
    }
    let mut keys: Vec<u64> = Vec::new();
    let mut i: usize = 0;
    while i < n
        invariant
            n == objective_bits@.len(),
            i <= n,
            keys@.len() == i,
            forall|j: int|
                0 <= j < i ==> #[trigger] keys@[j] as int == 0x8000_0000_0000_0000
                    + objective_level(objective_bits@[j]),
        decreases n - i,
    {
        let key = order_key(objective_bits[i]);
        keys.push(key);
        i = i + 1;
    }
    let order = rank_by_key(&keys);
    proof {
        let levels = objective_levels(objective_bits@);
        let ks = int_keys(keys@);
        assert forall|j: int| 0 <= j < ks.len() implies #[trigger] levels[j] == ks[j]
            + (-0x8000_0000_0000_0000int) by {
            assert(keys@[j] as int == 0x8000_0000_0000_0000 + objective_level(objective_bits@[j]));
        }
        lemma_ranking_shift(ks, levels, -0x8000_0000_0000_0000int, order@);
    }
    Some(order)
}

/// Keys order runs as the keys themselves do: along a ranking of `keys`
/// each key is at most the next one (as an unsigned number), and runs with
/// equal keys stand in ascending position.
pub proof fn law_ranking_ascends_in_keys(keys: Seq<u64>, order: Seq<usize>)
    requires
        is_ranking(int_keys(keys), order),
    ensures
        order.len() == keys.len(),
        forall|a: int, b: int|
            0 <= a < b < order.len() ==> keys[#[trigger] order[a] as int] <= keys[#[trigger] order[b] as int],
        forall|a: int, b: int|
            0 <= a < b < order.len() && keys[#[trigger] order[a] as int] == keys[#[trigger] order[b] as int]
                ==> order[a] < order[b],
{
    assert forall|a: int, b: int| 0 <= a < b < order.len() implies keys[#[trigger] order[a] as int]
        <= keys[#[trigger] order[b] as int] && (keys[order[a] as int] == keys[order[b] as int]
        ==> order[a] < order[b]) by {
        assert(ranked_before(int_keys(keys), order[a] as int, order[b] as int));
    }
}

/// The level of a pattern with the sign bit clear is the pattern itself; with
/// the sign bit set it is minus the pattern without its sign bit.
pub proof fn law_level_is_signed_pattern(bits: u64)
    ensures
        bits & 0x8000_0000_0000_0000u64 == 0 ==> objective_level(bits) == bits as int,
        bits & 0x8000_0000_0000_0000u64 != 0 ==> objective_level(bits) == 0x8000_0000_0000_0000int
            - bits as int,
{
    assert(bits & 0x8000_0000_0000_0000u64 == 0 ==> bits & 0x7FFF_FFFF_FFFF_FFFFu64 == bits)
        by (bit_vector);
    assert(bits & 0x8000_0000_0000_0000u64 != 0 ==> (bits & 0x7FFF_FFFF_FFFF_FFFFu64)
        + 0x8000_0000_0000_0000u64 == bits) by (bit_vector);
}

/// Keys made by `order_key` compare as the objectives do: among patterns
/// with the sign bit clear (zero and positive values) a larger pattern has a
/// larger key; among patterns with the sign bit set (negative values) a
/// larger pattern has a smaller key; a negative pattern never has a larger
/// key than a non-negative one, and only the two zeros share a key.
pub proof fn law_order_key_orders_like_values(a: u64, b: u64, key_a: u64, key_b: u64)
    requires
        key_a as int == 0x8000_0000_0000_0000 + objective_level(a),
        key_b as int == 0x8000_0000_0000_0000 + objective_level(b),
    ensures
        a & 0x8000_0000_0000_0000u64 == 0 && b & 0x8000_0000_0000_0000u64 == 0 ==> (key_a < key_b
            <==> a < b),
        a & 0x8000_0000_0000_0000u64 != 0 && b & 0x8000_0000_0000_0000u64 != 0 ==> (key_a < key_b
            <==> a > b),
        a & 0x8000_0000_0000_0000u64 != 0 && b & 0x8000_0000_0000_0000u64 == 0 ==> key_a <= key_b,
        key_a == key_b <==> (a == b || (a & 0x7FFF_FFFF_FFFF_FFFFu64 == 0 && b
            & 0x7FFF_FFFF_FFFF_FFFFu64 == 0)),
{
    law_level_is_signed_pattern(a);
    law_level_is_signed_pattern(b);
    assert(a & 0x8000_0000_0000_0000u64 == 0 ==> a < 0x8000_0000_0000_0000u64) by (bit_vector);
    assert(a & 0x8000_0000_0000_0000u64 != 0 ==> a >= 0x8000_0000_0000_0000u64) by (bit_vector);
    assert(b & 0x8000_0000_0000_0000u64 == 0 ==> b < 0x8000_0000_0000_0000u64) by (bit_vector);
    assert(b & 0x8000_0000_0000_0000u64 != 0 ==> b >= 0x8000_0000_0000_0000u64) by (bit_vector);
    assert(a & 0x7FFF_FFFF_FFFF_FFFFu64 == 0 <==> (a == 0 || a == 0x8000_0000_0000_0000u64))
        by (bit_vector);
    assert(b & 0x7FFF_FFFF_FFFF_FFFFu64 == 0 <==> (b == 0 || b == 0x8000_0000_0000_0000u64))
        by (bit_vector);
}

/// A NaN pattern has all exponent bits set and a nonzero fraction, and
/// every such pattern is a NaN: finite values and the infinities are not.
pub proof fn law_nan_patterns(bits: u64)
    ensures
        is_nan_bits(bits) ==> bits & 0x7FF0_0000_0000_0000u64 == 0x7FF0_0000_0000_0000u64,
        is_nan_bits(bits) ==> bits & 0x000F_FFFF_FFFF_FFFFu64 != 0,
        bits & 0x7FF0_0000_0000_0000u64 == 0x7FF0_0000_0000_0000u64 && bits
            & 0x000F_FFFF_FFFF_FFFFu64 != 0 ==> is_nan_bits(bits),
{
}

/// Ranking fails only when there are two or more runs and some objective
/// has a NaN pattern (all exponent bits set, nonzero fraction); with no
/// NaN, or with fewer than two runs, it succeeds whatever the number of runs.
pub proof fn law_ranking_fails_only_on_nan(bits: Seq<u64>)
    ensures
        ranking_fails(bits) ==> bits.len() >= 2,
        ranking_fails(bits) ==> exists|i: int|
            0 <= i < bits.len() && #[trigger] (bits[i] & 0x7FF0_0000_0000_0000u64)
                == 0x7FF0_0000_0000_0000u64 && bits[i] & 0x000F_FFFF_FFFF_FFFFu64 != 0,
        (bits.len() >= 2 && exists|i: int|
            0 <= i < bits.len() && #[trigger] (bits[i] & 0x7FF0_0000_0000_0000u64)
                == 0x7FF0_0000_0000_0000u64 && bits[i] & 0x000F_FFFF_FFFF_FFFFu64 != 0)
            ==> ranking_fails(bits),
{
    if ranking_fails(bits) {
        let i = choose|i: int| 0 <= i < bits.len() && #[trigger] is_nan_bits(bits[i]);
        law_nan_patterns(bits[i]);
        assert((bits[i] & 0x7FF0_0000_0000_0000u64) == 0x7FF0_0000_0000_0000u64);
    }
    if bits.len() >= 2 && exists|i: int|
        0 <= i < bits.len() && #[trigger] (bits[i] & 0x7FF0_0000_0000_0000u64)
            == 0x7FF0_0000_0000_0000u64 && bits[i] & 0x000F_FFFF_FFFF_FFFFu64 != 0 {
        let i = choose|i: int|
            0 <= i < bits.len() && #[trigger] (bits[i] & 0x7FF0_0000_0000_0000u64)
                == 0x7FF0_0000_0000_0000u64 && bits[i] & 0x000F_FFFF_FFFF_FFFFu64 != 0;
        law_nan_patterns(bits[i]);
        assert(is_nan_bits(bits[i]));
    }
}

/// Along the ranking of a sweep, objectives never decrease: each run's level
/// is at most the next run's, runs whose objectives are equal stand in sweep
/// order, and among zero-or-positive objectives the bit patterns ascend.
pub proof fn law_objective_ranking_ascends(bits: Seq<u64>, order: Seq<usize>)
    requires
        is_ranking(objective_levels(bits), order),
    ensures
        order.len() == bits.len(),
        forall|a: int, b: int|
            0 <= a < b < order.len() ==> objective_level(bits[#[trigger] order[a] as int])
                <= objective_level(bits[#[trigger] order[b] as int]),
        forall|a: int, b: int|
            0 <= a < b < order.len() && objective_level(bits[#[trigger] order[a] as int])
                == objective_level(bits[#[trigger] order[b] as int]) ==> order[a] < order[b],
        forall|a: int, b: int|
            0 <= a < b < order.len() && bits[#[trigger] order[a] as int] & 0x8000_0000_0000_0000u64
                == 0 && bits[#[trigger] order[b] as int] & 0x8000_0000_0000_0000u64 == 0
                ==> bits[order[a] as int] <= bits[order[b] as int],
{
    assert forall|a: int, b: int| 0 <= a < b < order.len() implies objective_level(
        bits[#[trigger] order[a] as int],
    ) <= objective_level(bits[#[trigger] order[b] as int]) && (objective_level(
        bits[order[a] as int],
    ) == objective_level(bits[order[b] as int]) ==> order[a] < order[b]) && (bits[order[a] as int]
        & 0x8000_0000_0000_0000u64 == 0 && bits[order[b] as int] & 0x8000_0000_0000_0000u64 == 0
        ==> bits[order[a] as int] <= bits[order[b] as int]) by {
        assert(ranked_before(objective_levels(bits), order[a] as int, order[b] as int));
        law_level_is_signed_pattern(bits[order[a] as int]);
        law_level_is_signed_pattern(bits[order[b] as int]);
    }
}

} // verus!
