use noise::{NoiseFn, Perlin};
use terrain::binary32::locate;
use terrain::{build_solid, build_wireframe, GenerationState, Layers, Position, Terrain, Topology};

fn perlin_height(perlin: &Perlin, x: usize, z: usize) -> u32 {
    let h = perlin.get([x as f64 / 32.0, z as f64 / 32.0, 1.8]) as f32;
    (h * 32.0).to_bits()
}

fn bits(v: f32) -> u32 {
    v.to_bits()
}

fn ramp(x: usize, z: usize) -> u32 {
    bits((x * 10 + z) as f32)
}

#[test]
fn new_allocates_one_entry_per_sample() {
    let t = Terrain::new(4);
    assert_eq!(t.side, 4);
    assert_eq!(t.grid, 5);
    assert_eq!(t.state, GenerationState::Dirty);
    assert_eq!(t.elevation.len(), 25);
    assert_eq!(t.vertices.len(), 25);
    assert!(t.elevation.iter().all(|&e| e == 0));
    assert!(t.vertices.iter().all(|&p| p == Position { x: 0, y: 0, z: 0 }));
}

#[test]
fn new_with_one_cell() {
    let t = Terrain::new(1);
    assert_eq!(t.elevation.len(), 4);
    assert_eq!(t.vertices.len(), 4);
}

#[test]
fn resize_changes_sizes_and_keeps_leading_entries() {
    let mut t = Terrain::new(2);
    t.generate(ramp);
    assert_eq!(t.state, GenerationState::Generated);
    let before = t.elevation.clone();
    t.resize(5);
    assert_eq!(t.side, 5);
    assert_eq!(t.grid, 6);
    assert_eq!(t.state, GenerationState::Dirty);
    assert_eq!(t.elevation.len(), 36);
    assert_eq!(t.vertices.len(), 36);
    assert_eq!(&t.elevation[..9], &before[..]);
    assert!(t.elevation[9..].iter().all(|&e| e == 0));
    t.resize(1);
    assert_eq!(t.elevation.len(), 4);
    assert_eq!(t.vertices.len(), 4);
    assert_eq!(&t.elevation[..], &before[..4]);
}

#[test]
fn generate_fills_each_sample_in_order() {
    let mut t = Terrain::new(3);
    t.generate(ramp);
    assert_eq!(t.state, GenerationState::Generated);
    for x in 0..4 {
        for z in 0..4 {
            let i = x * 4 + z;
            assert_eq!(t.elevation[i], ramp(x, z));
            assert_eq!(t.vertices[i], Position { x, y: ramp(x, z), z });
        }
    }
}

#[test]
fn positions_carry_the_elevation() {
    let perlin = Perlin::new(1);
    let mut t = Terrain::new(16);
    t.generate(|x: usize, z: usize| perlin_height(&perlin, x, z));
    for i in 0..t.elevation.len() {
        assert_eq!(t.vertices[i].y, t.elevation[i]);
    }
}

#[test]
fn generation_with_one_seed_is_deterministic() {
    let first = Perlin::new(1);
    let second = Perlin::new(1);
    let mut a = Terrain::new(20);
    let mut b = Terrain::new(20);
    a.generate(|x: usize, z: usize| perlin_height(&first, x, z));
    b.generate(|x: usize, z: usize| perlin_height(&second, x, z));
    assert_eq!(a.elevation, b.elevation);
    assert_eq!(a.vertices, b.vertices);
    a.generate(|x: usize, z: usize| perlin_height(&first, x, z));
    assert_eq!(a.elevation, b.elevation);
}

#[test]
fn perlin_terrain_is_not_flat() {
    let perlin = Perlin::new(1);
    let mut t = Terrain::new(64);
    t.generate(|x: usize, z: usize| perlin_height(&perlin, x, z));
    let first = t.elevation[0];
    assert!(t.elevation.iter().any(|&e| e != first));
    assert!(t.elevation.iter().all(|&e| f32::from_bits(e).abs() <= 64.0));
}

#[test]
fn query_domain() {
    let mut t = Terrain::new(4);
    t.generate(ramp);
    assert_eq!(t.elevation_at_xz(bits(-0.1), bits(2.0)), None);
    assert_eq!(t.elevation_at_xz(bits(2.0), bits(4.1)), None);
    assert_eq!(t.elevation_at_xz(bits(2.5), bits(3.5)), Some(t.elevation[2 * 5 + 3]));
    assert_eq!(t.elevation_at_xz(bits(2.5), bits(3.5)), Some(ramp(2, 3)));
}

#[test]
fn query_upper_edge_is_inclusive() {
    let mut t = Terrain::new(4);
    t.generate(ramp);
    assert_eq!(t.elevation_at_xz(bits(4.0), bits(4.0)), Some(ramp(4, 4)));
    assert_eq!(t.elevation_at_xz(bits(4.0), bits(0.0)), Some(ramp(4, 0)));
    assert_eq!(t.elevation_at_xz(bits(4.0001), bits(0.0)), None);
    assert_eq!(t.elevation_at_xz(bits(0.0), bits(3.9999)), Some(ramp(0, 3)));
}

#[test]
fn query_special_values() {
    let mut t = Terrain::new(4);
    t.generate(ramp);
    assert_eq!(t.elevation_at_xz(bits(-0.0), bits(1.0)), Some(ramp(0, 1)));
    assert_eq!(t.elevation_at_xz(bits(f32::NAN), bits(2.0)), Some(ramp(0, 2)));
    assert_eq!(t.elevation_at_xz(bits(f32::INFINITY), bits(2.0)), None);
    assert_eq!(t.elevation_at_xz(bits(f32::NEG_INFINITY), bits(2.0)), None);
    assert_eq!(t.elevation_at_xz(bits(-1.0e-40), bits(2.0)), None);
    assert_eq!(t.elevation_at_xz(bits(1.0e-40), bits(2.0)), Some(ramp(0, 2)));
    assert_eq!(t.elevation_at_xz(bits(1.0e30), bits(2.0)), None);
}

#[test]
fn locate_floors_and_bounds() {
    assert_eq!(locate(bits(2.5), 4), Some(2));
    assert_eq!(locate(bits(3.999), 4), Some(3));
    assert_eq!(locate(bits(0.75), 4), Some(0));
    assert_eq!(locate(bits(4.0), 4), Some(4));
    assert_eq!(locate(bits(4.5), 4), None);
    assert_eq!(locate(bits(-0.5), 4), None);
    assert_eq!(locate(bits(512.0), 512), Some(512));
    assert_eq!(locate(bits(511.75), 512), Some(511));
    assert_eq!(locate(bits(600.0), 512), None);
    assert_eq!(locate(bits(0.5), 0), None);
    assert_eq!(locate(bits(0.0), 0), Some(0));
    assert_eq!(locate(bits(16777216.0), 4294967295), Some(16777216));
    assert_eq!(locate(bits(4294967296.0), 4294967295), None);
}

#[test]
fn solid_index_count() {
    let t = Terrain::new(3);
    let m = build_solid(&t);
    assert_eq!(m.topology, Topology::TriangleList);
    assert_eq!(m.indices.len(), 6 * 3 * 3);
    assert_eq!(m.indices.len() / 3, 2 * 3 * 3);
}

#[test]
fn solid_triangles_of_one_cell() {
    let t = Terrain::new(1);
    let m = build_solid(&t);
    assert_eq!(m.indices, vec![1, 3, 0, 3, 2, 0]);
}

#[test]
fn solid_triangles_follow_cell_order() {
    let t = Terrain::new(2);
    let m = build_solid(&t);
    // grid 3: corner (x, y) is y * 3 + x; cells (0,0), (0,1), (1,0), (1,1)
    assert_eq!(
        m.indices,
        vec![
            1, 4, 0, 4, 3, 0, //
            4, 7, 3, 7, 6, 3, //
            2, 5, 1, 5, 4, 1, //
            5, 8, 4, 8, 7, 4,
        ]
    );
}

#[test]
fn wireframe_index_count() {
    let t = Terrain::new(3);
    let m = build_wireframe(&t);
    assert_eq!(m.topology, Topology::LineList);
    assert_eq!(m.indices.len(), 8 * 3 * 3);
    assert_eq!(m.indices.len() / 2, 4 * 3 * 3);
}

#[test]
fn wireframe_segments_of_one_cell() {
    let t = Terrain::new(1);
    let m = build_wireframe(&t);
    assert_eq!(m.indices, vec![0, 1, 0, 2, 1, 3, 2, 3]);
}

#[test]
fn meshes_share_the_terrain_positions() {
    let mut t = Terrain::new(5);
    t.generate(ramp);
    let solid = build_solid(&t);
    let frame = build_wireframe(&t);
    assert_eq!(solid.positions, t.vertices);
    assert_eq!(frame.positions, t.vertices);
}

#[test]
fn every_index_addresses_a_sample() {
    let t = Terrain::new(7);
    let solid = build_solid(&t);
    let frame = build_wireframe(&t);
    let n = t.vertices.len() as u32;
    assert!(solid.indices.iter().all(|&i| i < n));
    assert!(frame.indices.iter().all(|&i| i < n));
    assert!(solid.indices.contains(&(n - 1)));
}

#[test]
fn doubling_side_quadruples_triangles() {
    let small = Terrain::new(3);
    let large = Terrain::new(6);
    let a = build_solid(&small);
    let b = build_solid(&large);
    assert_eq!(b.indices.len() / 3, 4 * (a.indices.len() / 3));
    assert_eq!(small.vertices.len(), 16);
    assert_eq!(large.vertices.len(), 49);
    let fa = build_wireframe(&small);
    let fb = build_wireframe(&large);
    assert_eq!(fb.indices.len(), 4 * fa.indices.len());
}

#[test]
fn layers_toggle_on_their_keys() {
    let mut l = Layers::new();
    assert!(l.solid && l.wireframe);
    l.apply_keys(true, false);
    assert!(l.solid && !l.wireframe);
    l.apply_keys(false, true);
    assert!(!l.solid && !l.wireframe);
    l.apply_keys(true, true);
    assert!(l.solid && l.wireframe);
    l.apply_keys(false, false);
    assert!(l.solid && l.wireframe);
}

fn face_normal_y(p0: Position, p1: Position, p2: Position) -> i64 {
    let (x0, z0) = (p0.x as i64, p0.z as i64);
    let (x1, z1) = (p1.x as i64, p1.z as i64);
    let (x2, z2) = (p2.x as i64, p2.z as i64);
    (z1 - z0) * (x2 - x0) - (x1 - x0) * (z2 - z0)
}

#[test]
fn solid_triangles_face_up_on_generated_terrain() {
    let perlin = Perlin::new(1);
    let mut t = Terrain::new(9);
    t.generate(|x: usize, z: usize| perlin_height(&perlin, x, z));
    let m = build_solid(&t);
    for tri in m.indices.chunks(3) {
        let p = |k: usize| m.positions[tri[k] as usize];
        assert_eq!(face_normal_y(p(0), p(1), p(2)), 1);
    }
}

#[test]
fn flat_terrain_normals_point_up() {
    let mut t = Terrain::new(4);
    t.generate(|_x: usize, _z: usize| bits(3.0));
    let m = build_solid(&t);
    let mut sums = vec![[0.0f32; 3]; m.positions.len()];
    for tri in m.indices.chunks(3) {
        let p = |k: usize| {
            let q = m.positions[tri[k] as usize];
            [q.x as f32, f32::from_bits(q.y), q.z as f32]
        };
        let (p0, p1, p2) = (p(0), p(1), p(2));
        let v = [p2[0] - p0[0], p2[1] - p0[1], p2[2] - p0[2]];
        let w = [p1[0] - p0[0], p1[1] - p0[1], p1[2] - p0[2]];
        let c = [w[1] * v[2] - w[2] * v[1], w[2] * v[0] - w[0] * v[2], w[0] * v[1] - w[1] * v[0]];
        for k in 0..3 {
            for a in 0..3 {
                sums[tri[k] as usize][a] += c[a];
            }
        }
    }
    for s in sums {
        let len = (s[0] * s[0] + s[1] * s[1] + s[2] * s[2]).sqrt();
        assert_eq!([s[0] / len, s[1] / len, s[2] / len], [0.0, 1.0, 0.0]);
    }
}
