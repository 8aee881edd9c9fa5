//! The heightfield: elevation samples on a square grid and the position of
//! each sample in world space.
use vstd::prelude::*;

use crate::binary32::{floor_to_nat, locate, outside};
use crate::grid::{
    fits, lemma_fits_side_bound, lemma_sample_index_before, lemma_sample_index_bounds,
    sample_count, sample_index,
};

verus! {

/// Whether a terrain's samples are current.
#[derive(Clone, Copy, PartialEq, Eq, Debug, Structural)]
pub enum GenerationState {
    /// Created or resized; the samples do not come from a generation yet.
    Dirty,
    /// Every sample was filled by the last call of `generate`.
    Generated,
}

/// World-space position of one sample.
///
/// `x` and `z` are the sample's grid coordinates, which are also its world
/// coordinates on the ground plane; `y` is its height as binary32 bits.
#[derive(Clone, Copy, PartialEq, Eq, Debug, Structural)]
pub struct Position {
    pub x: usize,
    pub y: u32,
    pub z: usize,
}

/// A heightfield of `side` by `side` cells, that is `side + 1` by `side + 1`
/// samples.
///
/// The sample at world coordinates `(x, z)` lives at the linear index
/// `x * grid + z` (see `sample_index`), both in `elevation` and in
/// `vertices`; point queries use the same mapping.
pub struct Terrain {
    pub side: usize,
    pub grid: usize,
    pub state: GenerationState,
    /// Height of each sample, as binary32 bits.
    pub elevation: Vec<u32>,
    /// World-space position of each sample.
    pub vertices: Vec<Position>,
}

/// `s` cut or extended to length `n`, new places holding `fill`.
pub open spec fn resized<T>(s: Seq<T>, n: nat, fill: T) -> Seq<T> {
    Seq::new(n, |i: int| if i < s.len() { s[i] } else { fill })
}

/// `f` and `g` each return one value per pair of coordinates, and the
/// same one: two samplers built alike, such as two noise functions with one
/// seed.
pub open spec fn samplers_agree<F: Fn(usize, usize) -> u32, G: Fn(usize, usize) -> u32>(
    f: F,
    g: G,
) -> bool {
    forall|x: usize, z: usize, a: u32, b: u32|
        #[trigger] call_ensures(f, (x, z), a) && #[trigger] call_ensures(g, (x, z), b) ==> a == b
}

/// The position every sample has before it is generated.
pub open spec fn origin() -> Position {
    Position { x: 0, y: 0, z: 0 }
}

impl Terrain {
    /// The terrain's invariant: both buffers hold one entry per sample, and
    /// the height of each position is the elevation stored beside it.
    pub open spec fn wf(&self) -> bool {
        &&& self.grid == self.side + 1
        &&& fits(self.side as nat)
        &&& self.elevation@.len() == sample_count(self.side as nat)
        &&& self.vertices@.len() == self.elevation@.len()
        &&& forall|i: int|
            0 <= i < self.vertices@.len() ==> #[trigger] self.vertices@[i].y == self.elevation@[i]
    }

    /// The sample at `(x, z)` is one that `noise` returns for `(x, z)`, and its
    /// position is `(x, height, z)`.
    pub open spec fn holds_sample<F: Fn(usize, usize) -> u32>(
        &self,
        noise: F,
        x: usize,
        z: usize,
    ) -> bool {
        let i = sample_index(self.grid as nat, x as nat, z as nat) as int;
        &&& call_ensures(noise, (x, z), self.elevation@[i])
        &&& self.vertices@[i] == (Position { x, y: self.elevation@[i], z })
    }

    /// Every sample of the terrain was generated by `noise`.
    pub open spec fn sampled_with<F: Fn(usize, usize) -> u32>(&self, noise: F) -> bool {
        &&& self.state == GenerationState::Generated
        &&& forall|x: usize, z: usize|
            x <= self.side && z <= self.side ==> #[trigger] self.holds_sample(noise, x, z)
    }

    /// Each position stands over its own grid point: the sample at `(x, z)`
    /// has ground coordinates `x` and `z`.
    pub open spec fn positions_on_grid(&self) -> bool {
        forall|x: nat, z: nat|
            x <= self.side && z <= self.side ==> {
                let p = #[trigger] self.vertices@[sample_index(self.grid as nat, x, z) as int];
                p.x == x && p.z == z
            }
    }

    /// A terrain of `side` cells per edge, every sample at height zero and at
    /// the origin, not generated yet.
    pub fn new(side: usize) -> (r: Terrain)
        requires
            fits(side as nat),
        ensures
            r.wf(),
            r.side == side,
            r.state == GenerationState::Dirty,
            r.elevation@ == Seq::new(sample_count(side as nat), |i: int| 0u32),
            r.vertices@ == Seq::new(sample_count(side as nat), |i: int| origin()),
    {
        assert(side + 1 <= (side + 1) * (side + 1)) by (nonlinear_arith);
        let grid = side + 1;
        let n = grid * grid;
        let elevation: Vec<u32> = vec![0u32; n];
        let vertices: Vec<Position> = vec![Position { x: 0, y: 0, z: 0 }; n];
        let r = Terrain { side, grid, state: GenerationState::Dirty, elevation, vertices };
        assert(r.elevation@ =~= Seq::new(sample_count(side as nat), |i: int| 0u32));
        assert(r.vertices@ =~= Seq::new(sample_count(side as nat), |i: int| origin()));
        r
    }

    /// What a point query at world coordinates `(x, z)` (binary32 bits)
    /// answers: nothing outside `[0, side]` on either axis, else the elevation
    /// of the sample at the floors of `x` and `z`.
    pub open spec fn elevation_at(&self, x: u32, z: u32) -> Option<u32> {
        if outside(x, self.side as nat) || outside(z, self.side as nat) {
            None
        } else {
            Some(
                self.elevation@[sample_index(
                    self.grid as nat,
                    floor_to_nat(x),
                    floor_to_nat(z),
                ) as int],
            )
        }
    }

    /// The elevation under the point `(x, z)` of the ground plane, both given
    /// as binary32 bits: `None` when either coordinate is below zero or above
    /// `side`, else the elevation of the sample at the floors of the two
    /// coordinates, without interpolation. A NaN coordinate counts as zero.
    pub fn elevation_at_xz(&self, x: u32, z: u32) -> (r: Option<u32>)
        requires
            self.wf(),
        ensures
            r == self.elevation_at(x, z),
    {
        proof {
            lemma_fits_side_bound(self.side as nat);
        }
        match (locate(x, self.side), locate(z, self.side)) {
            (Some(a), Some(c)) => {
                proof {
                    lemma_sample_index_bounds(self.side as nat, a as nat, c as nat);
                }
                Some(self.elevation[a * self.grid + c])
            },
            _ => None,
        }
    }

    /// Gives the terrain `side` cells per edge. Both buffers are cut or
    /// extended to the new number of samples, new entries at zero; entries
    /// that stay keep their value at the same linear index.
    pub fn resize(&mut self, side: usize)
        requires
            old(self).wf(),
            fits(side as nat),
        ensures
            final(self).wf(),
            final(self).side == side,
            final(self).state == GenerationState::Dirty,
            final(self).elevation@ == resized(old(self).elevation@, sample_count(side as nat), 0u32),
            final(self).vertices@ == resized(old(self).vertices@, sample_count(side as nat), origin()),
    {
        assert(side + 1 <= (side + 1) * (side + 1)) by (nonlinear_arith);
        let grid = side + 1;
        let n = grid * grid;
        self.side = side;
        self.grid = grid;
        self.state = GenerationState::Dirty;
        self.elevation.resize(n, 0u32);
        self.vertices.resize(n, Position { x: 0, y: 0, z: 0 });
        assert(self.elevation@ =~= resized(old(self).elevation@, n as nat, 0u32));
        assert(self.vertices@ =~= resized(old(self).vertices@, n as nat, origin()));
    }

    /// Fills every sample from `noise`, which gives the height of the sample
    /// at grid coordinates `(x, z)`, and sets each position to
    /// `(x, height, z)`. The samples are visited with `x` as the outer
    /// coordinate, so the linear index runs up by one per sample.
    pub fn generate<F: Fn(usize, usize) -> u32>(&mut self, noise: F)
        requires
            old(self).wf(),
            forall|x: usize, z: usize|
                x <= old(self).side && z <= old(self).side ==> call_requires(noise, (x, z)),
        ensures
            final(self).wf(),
            final(self).side == old(self).side,
            final(self).sampled_with(noise),
    {
        let side = self.side;
        self.resize(side);
        let grid = self.grid;
        let mut index: usize = 0;
        let mut x: usize = 0;
        while x < grid
            invariant
                self.wf(),
                self.side == side,
                self.grid == grid,
                grid == side + 1,
                x <= grid,
                index == x * grid,
                forall|x: usize, z: usize|
                    x <= side && z <= side ==> call_requires(noise, (x, z)),
                forall|xx: usize, zz: usize|
                    xx < x && zz <= side ==> #[trigger] self.holds_sample(noise, xx, zz),
            decreases grid - x,
        {
            let mut z: usize = 0;
            while z < grid
                invariant
                    self.wf(),
                    self.side == side,
                    self.grid == grid,
                    grid == side + 1,
                    x < grid,
                    z <= grid,
                    index == x * grid + z,
                    forall|x: usize, z: usize|
                        x <= side && z <= side ==> call_requires(noise, (x, z)),
                    forall|xx: usize, zz: usize|
                        (xx < x && zz <= side) || (xx == x && zz < z) ==> #[trigger] self.holds_sample(
                            noise,
                            xx,
                            zz,
                        ),
                decreases grid - z,
            {
                proof {
                    lemma_sample_index_bounds(side as nat, x as nat, z as nat);
                }
                let h = noise(x, z);
                let ghost before = *self;
                self.elevation.set(index, h);
                self.vertices.set(index, Position { x, y: h, z });
                proof {
                    assert forall|xx: usize, zz: usize|
                        (xx < x && zz <= side) || (xx == x && zz < z + 1) implies #[trigger] self.holds_sample(
                            noise,
                            xx,
                            zz,
                        ) by {
                        if xx != x || zz != z {
                            assert(before.holds_sample(noise, xx, zz));
                            lemma_sample_index_before(grid as nat, xx as nat, zz as nat, x as nat, z as nat);
                        }
                    }
                }
                index = index + 1;
                z = z + 1;
            }
            assert(index == (x + 1) * grid) by (nonlinear_arith)
                requires
                    index == x * grid + grid,
            ;
            x = x + 1;
        }
        let ghost filled = *self;
        self.state = GenerationState::Generated;
        assert forall|xx: usize, zz: usize| xx <= side && zz <= side implies #[trigger] self.holds_sample(
            noise,
            xx,
            zz,
        ) by {
            assert(filled.holds_sample(noise, xx, zz));
        }
    }
}

/// In a well-formed terrain the height of every position is the elevation
/// stored at the same index.
pub proof fn lemma_position_height_is_elevation(t: &Terrain, i: int)
    requires
        t.wf(),
        0 <= i < t.elevation@.len(),
    ensures
        t.vertices@[i].y == t.elevation@[i],
{
}

/// Generation is deterministic: two terrains of the same side generated by
/// samplers that agree hold the same elevations and the same positions.
pub proof fn lemma_generate_deterministic<F: Fn(usize, usize) -> u32, G: Fn(usize, usize) -> u32>(
    a: &Terrain,
    b: &Terrain,
    f: F,
    g: G,
)
    requires
        a.wf(),
        b.wf(),
        a.side == b.side,
        a.sampled_with(f),
        b.sampled_with(g),
        samplers_agree(f, g),
    ensures
        a.elevation@ == b.elevation@,
        a.vertices@ == b.vertices@,
{
    let grid = a.grid as nat;
    assert forall|i: int| 0 <= i < a.elevation@.len() implies a.elevation@[i] == b.elevation@[i]
        && a.vertices@[i] == b.vertices@[i] by {
        let x = i / grid as int;
        let z = i % grid as int;
        assert(i == x * grid + z) by (nonlinear_arith)
            requires
                grid > 0,
                x == i / grid as int,
                z == i % grid as int,
        ;
        assert(x < grid) by (nonlinear_arith)
            requires
                grid > 0,
                x == i / grid as int,
                0 <= i < grid * grid,
        ;
        assert(a.holds_sample(f, x as usize, z as usize));
        assert(b.holds_sample(g, x as usize, z as usize));
    }
    assert(a.elevation@ =~= b.elevation@);
    assert(a.vertices@ =~= b.vertices@);
}

/// A generated terrain has every position over its own grid point.
pub proof fn lemma_generated_on_grid<F: Fn(usize, usize) -> u32>(t: &Terrain, noise: F)
    requires
        t.wf(),
        t.sampled_with(noise),
    ensures
        t.positions_on_grid(),
{
    assert forall|x: nat, z: nat| x <= t.side && z <= t.side implies {
        let p = #[trigger] t.vertices@[sample_index(t.grid as nat, x, z) as int];
        p.x == x && p.z == z
    } by {
        assert(t.holds_sample(noise, x as usize, z as usize));
    }
}

} // verus!
