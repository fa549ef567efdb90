//! Layout of the parameter sweep: every line model is paired with every
//! line length, line-model major, as the cartesian product of the two index
//! ranges.

use vstd::prelude::*;
use vstd::arithmetic::div_mod::lemma_fundamental_div_mod;

verus! {

/// Position of the pair `(tline, length)` in a sweep over `n_lengths` lengths.
pub open spec fn combo_index(tline: int, length: int, n_lengths: int) -> int {
    tline * n_lengths + length
}

/// The sweep is line-model major: it starts with the first length of the
/// first line model, each next length of a line model directly follows the
/// previous one, and a line model's first length directly follows the last
/// length of the line model before it.
pub proof fn law_sweep_is_line_model_major(i: int, j: int, m: int)
    requires
        0 <= i,
        0 <= j,
        0 < m,
    ensures
        combo_index(0, 0, m) == 0,
        j + 1 < m ==> combo_index(i, j + 1, m) == combo_index(i, j, m) + 1,
        combo_index(i + 1, 0, m) == combo_index(i, m - 1, m) + 1,
{
    assert((i + 1) * m == i * m + m) by (nonlinear_arith);
}

proof fn lemma_combo_index_bounds(i: int, j: int, n: int, m: int)
    requires
        0 <= i < n,
        0 <= j < m,
    ensures
        0 <= combo_index(i, j, m) < n * m,
        combo_index(i, j, m) + 1 <= (i + 1) * m,
{
    assert(0 <= i * m + j < n * m && i * m + j + 1 <= (i + 1) * m) by (nonlinear_arith)
        requires
            0 <= i < n,
            0 <= j < m,
    ;
}

/// Every position `k` of a sweep of `n` line models over `m` lengths is the
/// position of exactly one in-range pair: `(k / m, k % m)`.
proof fn lemma_combo_index_onto(k: int, n: int, m: int)
    requires
        0 <= n,
        0 <= k < n * m,
    ensures
        0 <= k / m < n,
        0 <= k % m < m,
        combo_index(k / m, k % m, m) == k,
{
    assert(m > 0) by (nonlinear_arith)
        requires
            0 <= k < n * m,
            n >= 0,
    ;
    lemma_fundamental_div_mod(k, m);
    let q = k / m;
    let r = k % m;
    assert(0 <= r < m);
    assert(k == q * m + r) by (nonlinear_arith)
        requires
            k == m * q + r,
    ;
    assert(0 <= q < n) by (nonlinear_arith)
        requires
            k == q * m + r,
            0 <= r < m,
            0 <= k < n * m,
            m > 0,
    ;
}

/// The pairs `(tline, length)` of a sweep over `n_tlines` line models and
/// `n_lengths` lengths, line-model major: pair `(i, j)` stands at position
/// `i * n_lengths + j`, so each in-range pair occurs exactly once and no
/// other pair occurs.
pub fn sweep_combos(n_tlines: usize, n_lengths: usize) -> (combos: Vec<(usize, usize)>)
    requires
        n_tlines * n_lengths <= usize::MAX,
    ensures
        combos@.len() == n_tlines * n_lengths,
        forall|i: int, j: int|
            0 <= i < n_tlines && 0 <= j < n_lengths ==> #[trigger] combos@[combo_index(
                i,
                j,
                n_lengths as int,
            )] == (i as usize, j as usize),
        forall|k: int|
            0 <= k < combos@.len() ==> (#[trigger] combos@[k]).0 < n_tlines && combos@[k].1
                < n_lengths,
        forall|k1: int, k2: int|
            0 <= k1 < k2 < combos@.len() ==> #[trigger] combos@[k1] != #[trigger] combos@[k2],
{
    let mut combos: Vec<(usize, usize)> = Vec::new();
    let ghost m: int = n_lengths as int;
    let mut i: usize = 0;
    while i < n_tlines
        invariant
            i <= n_tlines,
            m == n_lengths,
            n_tlines * n_lengths <= usize::MAX,
            combos@.len() == i * m,
            forall|i2: int, j2: int|
                0 <= i2 < i && 0 <= j2 < m ==> #[trigger] combos@[combo_index(i2, j2, m)] == (
                    i2 as usize,
                    j2 as usize,
                ),
        decreases n_tlines - i,
    {
        let mut j: usize = 0;
        while j < n_lengths
            invariant
                i < n_tlines,
                j <= n_lengths,
                m == n_lengths,
                combos@.len() == i * m + j,
                forall|i2: int, j2: int|
                    (0 <= i2 < i && 0 <= j2 < m) || (i2 == i && 0 <= j2 < j)
                        ==> #[trigger] combos@[combo_index(i2, j2, m)] == (
                        i2 as usize,
                        j2 as usize,
                    ),
            decreases n_lengths - j,
        {
            proof {
                lemma_combo_index_bounds(i as int, j as int, n_tlines as int, m);
                assert forall|i2: int, j2: int|
                    (0 <= i2 < i && 0 <= j2 < m) || (i2 == i && 0 <= j2 < j) implies
                    combo_index(i2, j2, m) < combos@.len() by {
                    if i2 < i {
                        lemma_combo_index_bounds(i2, j2, i as int, m);
                    }
                }
            }
            combos.push((i, j));
            j = j + 1;
        }
        proof {
            assert((i + 1) * m == i * m + m) by (nonlinear_arith);
        }
        i = i + 1;
    }
    proof {
        let len = combos@.len() as int;
        let n = n_tlines as int;
        assert forall|k: int| 0 <= k < len implies (#[trigger] combos@[k]).0 < n_tlines
            && combos@[k].1 < n_lengths && combos@[k] == ((k / m) as usize, (k % m) as usize) by {
            lemma_combo_index_onto(k, n, m);
        }
        assert forall|k1: int, k2: int| 0 <= k1 < k2 < len implies #[trigger] combos@[k1]
            != #[trigger] combos@[k2] by {
            lemma_combo_index_onto(k1, n, m);
            lemma_combo_index_onto(k2, n, m);
            let p1 = combos@[k1];
            let p2 = combos@[k2];
            assert(p1 == ((k1 / m) as usize, (k1 % m) as usize));
            assert(p2 == ((k2 / m) as usize, (k2 % m) as usize));
            if p1 == p2 {
                assert(k1 / m == k2 / m && k1 % m == k2 % m);
                assert(combo_index(k1 / m, k1 % m, m) == combo_index(k2 / m, k2 % m, m));
            }
        }
    }
    combos
}

} // verus!
