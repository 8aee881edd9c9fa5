//! Meshes over a terrain: a triangle list for the solid surface and a line
//! list for the wireframe. Both share the terrain's sample positions.
//!
//! Mesh indices address samples through `corner`, which takes the cell
//! coordinates `(x, y)` to `y * grid + x`.
use vstd::prelude::*;

use crate::grid::{
    grid_of, lemma_sample_index_before, lemma_sample_index_bounds, sample_count, sample_index,
};
use crate::terrain::{Position, Terrain};

verus! {

/// How a mesh's index list is read.
#[derive(Clone, Copy, PartialEq, Eq, Debug, Structural)]
pub enum Topology {
    /// Each three consecutive indices form one triangle.
    TriangleList,
    /// Each two consecutive indices form one line segment.
    LineList,
}

/// A mesh: positions and the topology in which its indices address them.
pub struct Mesh {
    pub topology: Topology,
    pub positions: Vec<Position>,
    pub indices: Vec<u32>,
}

/// Linear index of the mesh corner at cell coordinates `(x, y)`.
pub open spec fn corner(grid: nat, x: nat, y: nat) -> nat {
    y * grid + x
}

/// Number of triangles of the solid mesh of a terrain of `side` cells per edge.
pub open spec fn triangle_count(side: nat) -> nat {
    2 * side * side
}

/// Number of segments of the wireframe mesh of a terrain of `side` cells per edge.
pub open spec fn segment_count(side: nat) -> nat {
    4 * side * side
}

/// Where the entries of cell `(x, y)` start in an index list with `per_cell`
/// entries per cell, cells in order with `x` as the outer coordinate.
pub open spec fn cell_start(side: nat, per_cell: nat, x: nat, y: nat) -> int {
    ((x * side + y) * per_cell) as int
}

/// The six indices of cell `(x, y)` in the solid mesh: the triangles
/// `(x+1, y), (x+1, y+1), (x, y)` and `(x+1, y+1), (x, y+1), (x, y)`.
pub open spec fn solid_cell(indices: Seq<u32>, side: nat, x: nat, y: nat) -> bool {
    let g = grid_of(side);
    let b = cell_start(side, 6, x, y);
    &&& indices[b] as nat == corner(g, x + 1, y)
    &&& indices[b + 1] as nat == corner(g, x + 1, y + 1)
    &&& indices[b + 2] as nat == corner(g, x, y)
    &&& indices[b + 3] as nat == corner(g, x + 1, y + 1)
    &&& indices[b + 4] as nat == corner(g, x, y + 1)
    &&& indices[b + 5] as nat == corner(g, x, y)
}

/// The eight indices of cell `(x, y)` in the wireframe mesh: the segments
/// `(x, y)-(x+1, y)`, `(x, y)-(x, y+1)`, `(x+1, y)-(x+1, y+1)` and
/// `(x, y+1)-(x+1, y+1)`. The diagonal that splits the cell is not drawn.
pub open spec fn wireframe_cell(indices: Seq<u32>, side: nat, x: nat, y: nat) -> bool {
    let g = grid_of(side);
    let b = cell_start(side, 8, x, y);
    &&& indices[b] as nat == corner(g, x, y)
    &&& indices[b + 1] as nat == corner(g, x + 1, y)
    &&& indices[b + 2] as nat == corner(g, x, y)
    &&& indices[b + 3] as nat == corner(g, x, y + 1)
    &&& indices[b + 4] as nat == corner(g, x + 1, y)
    &&& indices[b + 5] as nat == corner(g, x + 1, y + 1)
    &&& indices[b + 6] as nat == corner(g, x, y + 1)
    &&& indices[b + 7] as nat == corner(g, x + 1, y + 1)
}

/// `m` is the solid mesh of `t`: a triangle list over the terrain's
/// positions with two triangles per cell (see `solid_cell`), cells in order
/// with `x` as the outer coordinate.
pub open spec fn is_solid_mesh(m: Mesh, t: Terrain) -> bool {
    &&& m.topology == Topology::TriangleList
    &&& m.positions@ == t.vertices@
    &&& m.indices@.len() == 3 * triangle_count(t.side as nat)
    &&& forall|x: nat, y: nat|
        x < t.side && y < t.side ==> #[trigger] solid_cell(m.indices@, t.side as nat, x, y)
}

/// `m` is the wireframe mesh of `t`: a line list over the terrain's
/// positions with four segments per cell (see `wireframe_cell`), cells in
/// order with `x` as the outer coordinate.
pub open spec fn is_wireframe_mesh(m: Mesh, t: Terrain) -> bool {
    &&& m.topology == Topology::LineList
    &&& m.positions@ == t.vertices@
    &&& m.indices@.len() == 2 * segment_count(t.side as nat)
    &&& forall|x: nat, y: nat|
        x < t.side && y < t.side ==> #[trigger] wireframe_cell(m.indices@, t.side as nat, x, y)
}

/// Vertical component of the face normal `cross(p1 - p0, p2 - p0)` of the
/// triangle `p0, p1, p2`. It depends on the ground coordinates alone.
pub open spec fn face_normal_y(p0: Position, p1: Position, p2: Position) -> int {
    (p1.z - p0.z) * (p2.x - p0.x) - (p1.x - p0.x) * (p2.z - p0.z)
}

/// Vertical component of the face normal of triangle `k` of a triangle list.
pub open spec fn triangle_normal_y(m: Mesh, k: int) -> int {
    let p = m.positions@;
    let i = m.indices@;
    face_normal_y(p[i[3 * k] as int], p[i[3 * k + 1] as int], p[i[3 * k + 2] as int])
}

/// Every sample of a terrain of `side` cells per edge can be addressed by a
/// `u32` index.
pub open spec fn indexable(side: nat) -> bool {
    sample_count(side) <= 0x1_0000_0000
}

/// The corner of a cell's own sample and its three neighbours lie within the grid.
proof fn lemma_cell_corners(side: nat, x: nat, y: nat)
    requires
        x < side,
        y < side,
        indexable(side),
    ensures
        corner(grid_of(side), x + 1, y + 1) < 0x1_0000_0000,
        corner(grid_of(side), x, y) < corner(grid_of(side), x + 1, y),
        corner(grid_of(side), x, y + 1) < corner(grid_of(side), x + 1, y + 1),
        corner(grid_of(side), x + 1, y) < corner(grid_of(side), x, y + 1),
{
    let g = grid_of(side);
    lemma_sample_index_bounds(side, (y + 1) as nat, (x + 1) as nat);
    assert((y + 1) * g == y * g + g) by (nonlinear_arith);
}

/// Cells emitted before `(x, y)` end before the entries of `(x, y)` start.
proof fn lemma_cell_before(side: nat, per_cell: nat, xx: nat, yy: nat, x: nat, y: nat)
    requires
        yy < side,
        y < side,
        xx < x || (xx == x && yy < y),
    ensures
        cell_start(side, per_cell, xx, yy) + per_cell <= cell_start(side, per_cell, x, y),
{
    lemma_sample_index_before(side, xx, yy, x, y);
    let a = xx * side + yy;
    let c = x * side + y;
    assert(a * per_cell + per_cell <= c * per_cell) by (nonlinear_arith)
        requires
            a < c,
    ;
}

/// After all cells of row `x`, the list holds exactly the cells of rows up to `x`.
proof fn lemma_row_done(side: nat, per_cell: nat, x: nat)
    ensures
        cell_start(side, per_cell, x, side) == cell_start(side, per_cell, x + 1, 0),
{
    assert((x * side + side) * per_cell == ((x + 1) * side + 0) * per_cell) by (nonlinear_arith);
}

/// Builds the solid mesh of `terrain` (see `is_solid_mesh`).
pub fn build_solid(terrain: &Terrain) -> (r: Mesh)
    requires
        terrain.wf(),
        indexable(terrain.side as nat),
        3 * triangle_count(terrain.side as nat) <= usize::MAX,
    ensures
        is_solid_mesh(r, *terrain),
{
    let side = terrain.side;
    let grid = terrain.grid;
    let mut indices: Vec<u32> = Vec::new();
    let mut x: usize = 0;
    while x < side
        invariant
            terrain.wf(),
            indexable(side as nat),
            side == terrain.side,
            grid == side + 1,
            x <= side,
            indices@.len() == cell_start(side as nat, 6, x as nat, 0),
            forall|xx: nat, yy: nat|
                xx < x && yy < side ==> #[trigger] solid_cell(indices@, side as nat, xx, yy),
        decreases side - x,
    {
        let mut y: usize = 0;
        while y < side
            invariant
                terrain.wf(),
                indexable(side as nat),
                side == terrain.side,
                grid == side + 1,
                x < side,
                y <= side,
                indices@.len() == cell_start(side as nat, 6, x as nat, y as nat),
                forall|xx: nat, yy: nat|
                    (xx < x && yy < side) || (xx == x && yy < y) ==> #[trigger] solid_cell(
                        indices@,
                        side as nat,
                        xx,
                        yy,
                    ),
            decreases side - y,
        {
            proof {
                lemma_cell_corners(side as nat, x as nat, y as nat);
            }
            let c00 = (y * grid + x) as u32;
            let c10 = (y * grid + x + 1) as u32;
            let c01 = ((y + 1) * grid + x) as u32;
            let c11 = ((y + 1) * grid + x + 1) as u32;
            let ghost before = indices@;
            indices.push(c10);
            indices.push(c11);
            indices.push(c00);
            indices.push(c11);
            indices.push(c01);
            indices.push(c00);
            proof {
                assert((x * side + y + 1) * 6 == (x * side + y) * 6 + 6) by (nonlinear_arith);
                assert forall|xx: nat, yy: nat|
                    (xx < x && yy < side) || (xx == x && yy < y + 1) implies #[trigger] solid_cell(
                    indices@,
                    side as nat,
                    xx,
                    yy,
                ) by {
                    if xx != x || yy != y {
                        lemma_cell_before(side as nat, 6, xx, yy, x as nat, y as nat);
                        assert(solid_cell(before, side as nat, xx, yy));
                    }
                }
            }
            y = y + 1;
        }
        proof {
            lemma_row_done(side as nat, 6, x as nat);
        }
        x = x + 1;
    }
    proof {
        assert(cell_start(side as nat, 6, side as nat, 0) == 3 * triangle_count(side as nat))
            by (nonlinear_arith);
    }
    let positions = terrain.vertices.clone();
    Mesh { topology: Topology::TriangleList, positions, indices }
}

/// Builds the wireframe mesh of `terrain` (see `is_wireframe_mesh`).
pub fn build_wireframe(terrain: &Terrain) -> (r: Mesh)
    requires
        terrain.wf(),
        indexable(terrain.side as nat),
        2 * segment_count(terrain.side as nat) <= usize::MAX,
    ensures
        is_wireframe_mesh(r, *terrain),
{
    let side = terrain.side;
    let grid = terrain.grid;
    let mut indices: Vec<u32> = Vec::new();
    let mut x: usize = 0;
    while x < side
        invariant
            terrain.wf(),
            indexable(side as nat),
            side == terrain.side,
            grid == side + 1,
            x <= side,
            indices@.len() == cell_start(side as nat, 8, x as nat, 0),
            forall|xx: nat, yy: nat|
                xx < x && yy < side ==> #[trigger] wireframe_cell(indices@, side as nat, xx, yy),
        decreases side - x,
    {
        let mut y: usize = 0;
        while y < side
            invariant
                terrain.wf(),
                indexable(side as nat),
                side == terrain.side,
                grid == side + 1,
                x < side,
                y <= side,
                indices@.len() == cell_start(side as nat, 8, x as nat, y as nat),
                forall|xx: nat, yy: nat|
                    (xx < x && yy < side) || (xx == x && yy < y) ==> #[trigger] wireframe_cell(
                        indices@,
                        side as nat,
                        xx,
                        yy,
                    ),
            decreases side - y,
        {
            proof {
                lemma_cell_corners(side as nat, x as nat, y as nat);
            }
            let c00 = (y * grid + x) as u32;
            let c10 = (y * grid + x + 1) as u32;
            let c01 = ((y + 1) * grid + x) as u32;
            let c11 = ((y + 1) * grid + x + 1) as u32;
            let ghost before = indices@;
            indices.push(c00);
            indices.push(c10);
            indices.push(c00);
            indices.push(c01);
            indices.push(c10);
            indices.push(c11);
            indices.push(c01);
            indices.push(c11);
            proof {
                assert((x * side + y + 1) * 8 == (x * side + y) * 8 + 8) by (nonlinear_arith);
                assert forall|xx: nat, yy: nat|
                    (xx < x && yy < side) || (xx == x && yy < y + 1) implies #[trigger] wireframe_cell(
                    indices@,
                    side as nat,
                    xx,
                    yy,
                ) by {
                    if xx != x || yy != y {
                        lemma_cell_before(side as nat, 8, xx, yy, x as nat, y as nat);
                        assert(wireframe_cell(before, side as nat, xx, yy));
                    }
                }
            }
            y = y + 1;
        }
        proof {
            lemma_row_done(side as nat, 8, x as nat);
        }
        x = x + 1;
    }
    proof {
        assert(cell_start(side as nat, 8, side as nat, 0) == 2 * segment_count(side as nat))
            by (nonlinear_arith);
    }
    let positions = terrain.vertices.clone();
    Mesh { topology: Topology::LineList, positions, indices }
}

/// Doubling the side of a terrain multiplies the triangles of its solid mesh
/// by exactly four, and takes its samples from `(n+1)^2` to `(2n+1)^2`.
pub proof fn lemma_doubled_side(n: nat)
    ensures
        triangle_count(2 * n) == 4 * triangle_count(n),
        segment_count(2 * n) == 4 * segment_count(n),
        sample_count(n) == (n + 1) * (n + 1),
        sample_count(2 * n) == (2 * n + 1) * (2 * n + 1),
{
    assert(2 * (2 * n) * (2 * n) == 4 * (2 * n * n)) by (nonlinear_arith);
    assert(4 * (2 * n) * (2 * n) == 4 * (4 * n * n)) by (nonlinear_arith);
}

/// Every triangle of the solid mesh of a terrain whose positions stand over
/// their grid points faces up: the vertical component of its unnormalised
/// face normal is exactly one, whatever the heights. So no triangle is
/// degenerate, the normal accumulated at any corner has a positive vertical
/// part, and where all heights are equal the horizontal parts vanish and
/// every normal points straight up.
pub proof fn lemma_solid_triangles_face_up(m: Mesh, t: Terrain, k: int)
    requires
        t.wf(),
        t.positions_on_grid(),
        is_solid_mesh(m, t),
        0 <= k < triangle_count(t.side as nat),
    ensures
        triangle_normal_y(m, k) == 1,
{
    let side = t.side as nat;
    let g = t.grid as nat;
    let q = k / 2;
    let j = k % 2;
    assert(k == 2 * q + j && 0 <= j < 2 && 0 <= q < side * side) by (nonlinear_arith)
        requires
            q == k / 2,
            j == k % 2,
            0 <= k < 2 * side * side,
    ;
    let x = (q / side as int) as nat;
    let y = (q % side as int) as nat;
    assert(q == x * side + y && x < side && y < side) by (nonlinear_arith)
        requires
            x == q / side as int,
            y == q % side as int,
            0 <= q < side * side,
    ;
    assert(3 * k == cell_start(side, 6, x, y) + 3 * j) by (nonlinear_arith)
        requires
            k == 2 * q + j,
            q == x * side + y,
    ;
    assert(solid_cell(m.indices@, side, x, y));
    let p00 = t.vertices@[sample_index(g, y, x) as int];
    let p10 = t.vertices@[sample_index(g, y, x + 1) as int];
    let p01 = t.vertices@[sample_index(g, y + 1, x) as int];
    let p11 = t.vertices@[sample_index(g, y + 1, x + 1) as int];
    assert(p00.x == y && p00.z == x);
    assert(p10.x == y && p10.z == x + 1);
    assert(p01.x == y + 1 && p01.z == x);
    assert(p11.x == y + 1 && p11.z == x + 1);
    if j == 0 {
        assert(face_normal_y(p10, p11, p00) == 1) by (nonlinear_arith)
            requires
                p00.x == y && p00.z == x,
                p10.x == y && p10.z == x + 1,
                p11.x == y + 1 && p11.z == x + 1,
        ;
    } else {
        assert(face_normal_y(p11, p01, p00) == 1) by (nonlinear_arith)
            requires
                p00.x == y && p00.z == x,
                p01.x == y + 1 && p01.z == x,
                p11.x == y + 1 && p11.z == x + 1,
        ;
    }
}

} // verus!
