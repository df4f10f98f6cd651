use terrain_grass::geom::Vec3;
use terrain_grass::mesh::Topology;
use terrain_grass::terrain::{average_normal, generate, ConfigError};

fn flat_noise(width: usize, height: usize) -> Vec<i64> {
    vec![0i64; (width + 1) * (height + 1)]
}

#[test]
fn counts_two_by_two() {
    // 4 cells: 4 vertices and 6 indices per cell.
    let noise = flat_noise(2, 2);
    let m = generate(2, 2, 65536, 1, &noise).unwrap();
    assert_eq!(m.positions.len(), 16);
    assert_eq!(m.normals.len(), 16);
    assert_eq!(m.uvs.len(), 16);
    assert_eq!(m.indices.len(), 24);
    assert!(matches!(m.topology, Topology::TriangleList));
}

#[test]
fn counts_two_by_one() {
    // 2 cells: 8 vertices, 12 indices.
    let noise = flat_noise(2, 1);
    let m = generate(2, 1, 65536, 1, &noise).unwrap();
    assert_eq!(m.positions.len(), 8);
    assert_eq!(m.normals.len(), 8);
    assert_eq!(m.uvs.len(), 8);
    assert_eq!(m.indices.len(), 12);
}

#[test]
fn counts_single_cell() {
    let noise = flat_noise(1, 1);
    let m = generate(1, 1, 65536, 1, &noise).unwrap();
    assert_eq!(m.positions.len(), 4);
    assert_eq!(m.indices.len(), 6);
}

#[test]
fn index_pattern_splits_quads_along_bd() {
    let noise = flat_noise(2, 2);
    let m = generate(2, 2, 65536, 1, &noise).unwrap();
    for q in 0..4u32 {
        let ix = &m.indices[(6 * q as usize)..(6 * q as usize + 6)];
        assert_eq!(ix, &[4 * q, 4 * q + 3, 4 * q + 1, 4 * q + 1, 4 * q + 3, 4 * q + 2]);
    }
}

#[test]
fn uv_corners_tile_unit_quad() {
    // With tex_scale 1 every quad's texture corners are the unit square:
    // (0,1), (0,0), (1,0), (1,1) in fixed point.
    let noise = flat_noise(2, 2);
    let m = generate(2, 2, 65536, 1, &noise).unwrap();
    for q in 0..4usize {
        assert_eq!((m.uvs[4 * q].u, m.uvs[4 * q].v), (0, 65536));
        assert_eq!((m.uvs[4 * q + 1].u, m.uvs[4 * q + 1].v), (0, 0));
        assert_eq!((m.uvs[4 * q + 2].u, m.uvs[4 * q + 2].v), (65536, 0));
        assert_eq!((m.uvs[4 * q + 3].u, m.uvs[4 * q + 3].v), (65536, 65536));
    }
}

#[test]
fn uv_tiling_with_period_two() {
    let noise = flat_noise(2, 2);
    let m = generate(2, 2, 65536, 2, &noise).unwrap();
    // texel = 1/2; cell (0,0) starts at (0,0), cell (1,1) at (1/2, 1/2).
    assert_eq!((m.uvs[1].u, m.uvs[1].v), (0, 0));
    assert_eq!((m.uvs[0].u, m.uvs[0].v), (0, 32768));
    // cell (1,1) is quad index 1*2+1 = 3.
    assert_eq!((m.uvs[13].u, m.uvs[13].v), (32768, 32768));
    assert_eq!((m.uvs[15].u, m.uvs[15].v), (65536, 65536));
}

#[test]
fn flat_field_positions_form_lattice() {
    let noise = flat_noise(1, 1);
    let m = generate(1, 1, 65536, 1, &noise).unwrap();
    let p: Vec<(i64, i64, i64)> = m.positions.iter().map(|v| (v.x, v.y, v.z)).collect();
    // Corners a=(0,0), b=(1,0), c=(1,1), d=(0,1) scaled by 1.0.
    assert_eq!(p[0], (0, 0, 0));
    assert_eq!(p[1], (65536, 0, 0));
    assert_eq!(p[2], (65536, 0, 65536));
    assert_eq!(p[3], (0, 0, 65536));
}

#[test]
fn heights_scale_with_noise() {
    // y = noise * cell_scale * 8: a noise sample of 1.0 at scale 1.0
    // lifts the lattice point to 8.0.
    let mut noise = flat_noise(1, 1);
    noise[0] = 65536;
    let m = generate(1, 1, 65536, 1, &noise).unwrap();
    assert_eq!(m.positions[0].y, 8 * 65536);
    assert_eq!(m.positions[1].y, 0);
}

#[test]
fn flat_field_normals_point_up() {
    let noise = flat_noise(3, 2);
    let m = generate(3, 2, 65536, 1, &noise).unwrap();
    for n in m.normals.iter() {
        assert_eq!((n.x, n.y, n.z), (0, 65536, 0));
    }
}

#[test]
fn average_normal_on_flat_grid() {
    let mut grid: Vec<Vec3> = Vec::new();
    for i in 0..3i64 {
        for j in 0..3i64 {
            grid.push(Vec3 { x: i * 65536, y: 0, z: j * 65536 });
        }
    }
    for x in 0..3usize {
        for y in 0..3usize {
            let n = average_normal(&grid, 3, 3, x, y);
            assert_eq!((n.x, n.y, n.z), (0, 65536, 0));
        }
    }
}

#[test]
fn rejects_zero_width() {
    let noise = flat_noise(1, 1);
    assert_eq!(generate(0, 1, 65536, 1, &noise).unwrap_err(), ConfigError::ZeroWidth);
}

#[test]
fn rejects_zero_height() {
    let noise = flat_noise(1, 1);
    assert_eq!(generate(1, 0, 65536, 1, &noise).unwrap_err(), ConfigError::ZeroHeight);
}

#[test]
fn rejects_non_positive_scale() {
    let noise = flat_noise(1, 1);
    assert_eq!(generate(1, 1, 0, 1, &noise).unwrap_err(), ConfigError::NonPositiveScale);
    assert_eq!(generate(1, 1, -65536, 1, &noise).unwrap_err(), ConfigError::NonPositiveScale);
}

#[test]
fn rejects_zero_tex_scale() {
    let noise = flat_noise(1, 1);
    assert_eq!(generate(1, 1, 65536, 0, &noise).unwrap_err(), ConfigError::ZeroTexScale);
}

#[test]
fn rejects_oversized_dimension() {
    let noise = flat_noise(1, 1);
    assert_eq!(generate(8193, 1, 65536, 1, &noise).unwrap_err(), ConfigError::DimensionTooLarge);
}

#[test]
fn rejects_oversized_scale() {
    let noise = flat_noise(1, 1);
    assert_eq!(generate(1, 1, 1048577, 1, &noise).unwrap_err(), ConfigError::ScaleTooLarge);
}

#[test]
fn rejects_oversized_extent() {
    let noise = flat_noise(8192, 1);
    // 8192 cells at scale 16.0 would step past the coordinate range.
    assert_eq!(generate(8192, 1, 1048576, 1, &noise).unwrap_err(), ConfigError::ExtentTooLarge);
}

#[test]
fn rejects_wrong_noise_grid() {
    let noise = vec![0i64; 3];
    assert_eq!(generate(1, 1, 65536, 1, &noise).unwrap_err(), ConfigError::NoiseGridMismatch);
}

#[test]
fn rejects_noise_out_of_range() {
    let mut noise = flat_noise(1, 1);
    noise[2] = 131073;
    assert_eq!(generate(1, 1, 65536, 1, &noise).unwrap_err(), ConfigError::NoiseOutOfRange);
}
