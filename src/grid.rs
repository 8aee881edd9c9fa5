//! Geometry of a square grid of samples.
use vstd::prelude::*;

verus! {

/// Number of sample points along one edge of a grid of `side` cells per edge.
pub open spec fn grid_of(side: nat) -> nat {
    side + 1
}

/// Number of samples of a grid of `side` cells per edge.
pub open spec fn sample_count(side: nat) -> nat {
    grid_of(side) * grid_of(side)
}

/// Linear index of the sample at world coordinates `(x, z)`.
///
/// Samples are stored with `x` as the outer coordinate: all samples with
/// `x == 0` first, in increasing `z`, then those with `x == 1`, and so on.
pub open spec fn sample_index(grid: nat, x: nat, z: nat) -> nat {
    x * grid + z
}

/// A grid that fits in memory: the number of its samples is a `usize`.
pub open spec fn fits(side: nat) -> bool {
    sample_count(side) <= usize::MAX
}

/// Every sample coordinate of a grid that fits in memory is a valid linear index.
pub proof fn lemma_sample_index_bounds(side: nat, x: nat, z: nat)
    requires
        x <= side,
        z <= side,
    ensures
        sample_index(grid_of(side), x, z) < sample_count(side),
{
    let g = grid_of(side);
    assert(x * g + z < g * g) by (nonlinear_arith)
        requires
            x < g,
            z < g,
    ;
}

/// Samples visited earlier, `x` being the outer coordinate, have smaller
/// linear indices.
pub proof fn lemma_sample_index_before(grid: nat, x1: nat, z1: nat, x2: nat, z2: nat)
    requires
        z1 < grid,
        z2 < grid,
        x1 < x2 || (x1 == x2 && z1 < z2),
    ensures
        sample_index(grid, x1, z1) < sample_index(grid, x2, z2),
{
    if x1 < x2 {
        assert(x1 * grid + z1 < x2 * grid + z2) by (nonlinear_arith)
            requires
                z1 < grid,
                x1 < x2,
        ;
    }
}

/// A grid that fits in memory has fewer than 2^32 cells per edge.
pub proof fn lemma_fits_side_bound(side: nat)
    requires
        fits(side),
    ensures
        side < 0x1_0000_0000,
{
    let g = grid_of(side);
    if g > 0x1_0000_0000 {
        assert(g * g > 0x1_0000_0000 * 0x1_0000_0000) by (nonlinear_arith)
            requires
                g > 0x1_0000_0000,
        ;
    }
}

} // verus!
