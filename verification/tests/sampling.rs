use terrain_grass::geom::{Vec2, Vec3};
use terrain_grass::mesh::{Mesh, Topology};
use terrain_grass::sampling::{MeshSampler, UniformRandomSampler};
use terrain_grass::terrain::generate;

fn v(x: i64, y: i64, z: i64) -> Vec3 {
    Vec3 { x, y, z }
}

fn up() -> Vec3 {
    v(0, 65536, 0)
}

/// A flat quad of extent 1.0 x 0.5 in the xz plane: two triangles whose
/// unhalved cross-product areas sum to exactly 1.0 in fixed point.
fn flat_unit_quad(topology: Topology) -> Mesh {
    let positions = vec![v(0, 0, 0), v(65536, 0, 0), v(65536, 0, 32768), v(0, 0, 32768)];
    let normals = vec![up(), up(), up(), up()];
    let uvs = vec![
        Vec2 { u: 0, v: 0 },
        Vec2 { u: 65536, v: 0 },
        Vec2 { u: 65536, v: 65536 },
        Vec2 { u: 0, v: 65536 },
    ];
    let indices = vec![0, 1, 2, 0, 2, 3];
    Mesh { topology, positions, normals, uvs, indices }
}

#[test]
fn default_sampler_parameters() {
    let s = UniformRandomSampler::default();
    assert_eq!(s.density, 65536);
    assert_eq!(s.threshold, 0);
}

#[test]
fn flat_quad_sample_count_is_area_times_density() {
    // Total area 1.0, density 2.0, threshold 0.5: exactly 2 points.
    let mesh = flat_unit_quad(Topology::TriangleList);
    let s = UniformRandomSampler { density: 2 * 65536, threshold: 32768 };
    let pts = s.sample(&mesh);
    assert_eq!(pts.len(), 2);
    for p in pts.iter() {
        // The mesh is flat: every sampled point sits exactly on its plane
        // and inside the quad's extent.
        assert_eq!(p.y, 0);
        assert!(0 <= p.x && p.x <= 65536);
        assert!(0 <= p.z && p.z <= 32768);
    }
}

#[test]
fn sample_count_with_unit_density() {
    let mesh = flat_unit_quad(Topology::TriangleList);
    let s = UniformRandomSampler { density: 65536, threshold: 0 };
    assert_eq!(s.sample(&mesh).len(), 1);
}

#[test]
fn zero_density_samples_nothing() {
    let mesh = flat_unit_quad(Topology::TriangleList);
    let s = UniformRandomSampler { density: 0, threshold: -65536 };
    assert_eq!(s.sample(&mesh).len(), 0);
}

#[test]
fn triangle_strip_yields_no_points() {
    let mesh = flat_unit_quad(Topology::TriangleStrip);
    let s = UniformRandomSampler { density: 16 * 65536, threshold: -65536 };
    assert_eq!(s.sample(&mesh).len(), 0);
}

#[test]
fn point_and_line_topologies_yield_no_points() {
    let s = UniformRandomSampler { density: 16 * 65536, threshold: -65536 };
    for topology in [Topology::PointList, Topology::LineList, Topology::LineStrip] {
        let mesh = flat_unit_quad(topology);
        assert_eq!(s.sample(&mesh).len(), 0);
    }
}

#[test]
fn steep_triangles_are_filtered_out() {
    // Corner normals point sideways, so the slope filter discards both
    // triangles and nothing is placed.
    let mut mesh = flat_unit_quad(Topology::TriangleList);
    let side = v(65536, 0, 0);
    mesh.normals = vec![side, side, side, side];
    let s = UniformRandomSampler { density: 16 * 65536, threshold: 32768 };
    assert_eq!(s.sample(&mesh).len(), 0);
}

#[test]
fn threshold_minus_one_accepts_everything() {
    let mesh = flat_unit_quad(Topology::TriangleList);
    let s = UniformRandomSampler { density: 4 * 65536, threshold: -65536 };
    assert_eq!(s.sample(&mesh).len(), 4);
}

#[test]
fn degenerate_triangles_are_skipped() {
    // All corners coincide: zero area, no accepted triangle, no points.
    let p = v(32768, 0, 32768);
    let mesh = Mesh {
        topology: Topology::TriangleList,
        positions: vec![p, p, p],
        normals: vec![up(), up(), up()],
        uvs: vec![Vec2 { u: 0, v: 0 }, Vec2 { u: 0, v: 0 }, Vec2 { u: 0, v: 0 }],
        indices: vec![0, 1, 2],
    };
    let s = UniformRandomSampler { density: 64 * 65536, threshold: -65536 };
    assert_eq!(s.sample(&mesh).len(), 0);
}

#[test]
fn empty_mesh_samples_nothing() {
    let mesh = Mesh {
        topology: Topology::TriangleList,
        positions: vec![],
        normals: vec![],
        uvs: vec![],
        indices: vec![],
    };
    let s = UniformRandomSampler { density: 65536, threshold: -65536 };
    assert_eq!(s.sample(&mesh).len(), 0);
}

#[test]
fn sample_triangle_on_degenerate_triangle_returns_corner() {
    let s = UniformRandomSampler::default();
    let p = v(12345, 678, -9012);
    let q = s.sample_triangle(&p, &p, &p);
    assert_eq!((q.x, q.y, q.z), (p.x, p.y, p.z));
}

#[test]
fn sample_triangle_stays_inside_bounding_box() {
    let s = UniformRandomSampler::default();
    let a = v(0, 0, 0);
    let b = v(65536, 0, 0);
    let c = v(0, 0, 65536);
    for _ in 0..64 {
        let p = s.sample_triangle(&a, &b, &c);
        assert_eq!(p.y, 0);
        assert!(0 <= p.x && p.x <= 65536);
        assert!(0 <= p.z && p.z <= 65536);
        // Inside the triangle, not just the box: x + z <= 1.0.
        assert!(p.x + p.z <= 65536);
    }
}

#[test]
fn generated_terrain_end_to_end() {
    // A flat 2 x 2 terrain at scale 1.0 has 8 unit right triangles, each
    // of unhalved area 1.0; with density 1.0 that makes 8 points on the
    // terrain plane.
    let noise = vec![0i64; 9];
    let mesh = generate(2, 2, 65536, 1, &noise).unwrap();
    let s = UniformRandomSampler { density: 65536, threshold: 32768 };
    let pts = s.sample(&mesh);
    assert_eq!(pts.len(), 8);
    for p in pts.iter() {
        assert_eq!(p.y, 0);
        assert!(0 <= p.x && p.x <= 2 * 65536);
        assert!(0 <= p.z && p.z <= 2 * 65536);
    }
}

#[test]
fn uneven_triangle_weights_still_give_exact_count() {
    // One big and one tiny triangle: total unhalved area 2^32 + 2^26,
    // density 1.0 gives floor(1.015625) = 1 point.
    let positions = vec![
        v(0, 0, 0),
        v(65536, 0, 0),
        v(65536, 0, 65536),
        v(200000, 0, 200000),
        v(200000 + 8192, 0, 200000),
        v(200000, 0, 200000 + 8192),
    ];
    let normals = vec![up(); 6];
    let uvs = vec![Vec2 { u: 0, v: 0 }; 6];
    let mesh = Mesh {
        topology: Topology::TriangleList,
        positions,
        normals,
        uvs,
        indices: vec![0, 1, 2, 3, 4, 5],
    };
    let s = UniformRandomSampler { density: 65536, threshold: 0 };
    assert_eq!(s.sample(&mesh).len(), 1);
}
