//! Terrain mesh generation.
//!
//! A `(width+1) x (height+1)` lattice of points takes its heights from a
//! grid of noise samples (fixed-point, supplied by the host); each grid cell
//! emits four duplicated vertices, four fan-averaged normals, four tiled
//! texture coordinates and two triangles split along the b-d diagonal.

use vstd::prelude::*;

use crate::fixed::{fx_mul, fxmul, lemma_fxmul_bound, FX_ONE};
use crate::geom::{
    add_s, bounded3, cross, cross_s, lemma_mul_bound, normalize, normalize_s, sub_s, v_add, v_sub,
    Vec2, Vec3, V3,
};
use crate::mesh::{Mesh, Topology, MAX_COORD, MAX_NORMAL};

verus! {

/// Largest accepted grid dimension.
pub const MAX_DIM: usize = 8192;

/// Largest accepted cell scale (16.0 in fixed point).
pub const MAX_SCALE: i64 = 1048576;

/// Largest accepted noise magnitude (2.0 in fixed point).
pub const MAX_NOISE: i64 = 131072;

/// Rejected configurations of `generate`, reported fail-fast.
#[derive(Clone, Copy, Debug, PartialEq, Eq, Structural)]
pub enum ConfigError {
    /// `width` is zero.
    ZeroWidth,
    /// `height` is zero.
    ZeroHeight,
    /// `cell_scale` is zero or negative.
    NonPositiveScale,
    /// `tex_scale` is zero.
    ZeroTexScale,
    /// `width` or `height` exceeds `MAX_DIM`.
    DimensionTooLarge,
    /// `cell_scale` exceeds `MAX_SCALE`.
    ScaleTooLarge,
    /// `width * cell_scale` or `height * cell_scale` exceeds `MAX_COORD`.
    ExtentTooLarge,
    /// The noise grid does not hold `(width+1) * (height+1)` samples.
    NoiseGridMismatch,
    /// A noise sample exceeds `MAX_NOISE` in magnitude.
    NoiseOutOfRange,
}

/// The error `generate` reports for this configuration, if any; errors are
/// checked in this order.
pub open spec fn config_error(
    width: int,
    height: int,
    cell_scale: int,
    tex_scale: int,
    noise: Seq<i64>,
) -> Option<ConfigError> {
    if width <= 0 {
        Some(ConfigError::ZeroWidth)
    } else if height <= 0 {
        Some(ConfigError::ZeroHeight)
    } else if cell_scale <= 0 {
        Some(ConfigError::NonPositiveScale)
    } else if tex_scale <= 0 {
        Some(ConfigError::ZeroTexScale)
    } else if width > MAX_DIM || height > MAX_DIM {
        Some(ConfigError::DimensionTooLarge)
    } else if cell_scale > MAX_SCALE {
        Some(ConfigError::ScaleTooLarge)
    } else if width * cell_scale > MAX_COORD || height * cell_scale > MAX_COORD {
        Some(ConfigError::ExtentTooLarge)
    } else if noise.len() != (width + 1) * (height + 1) {
        Some(ConfigError::NoiseGridMismatch)
    } else if exists|k: int|
        0 <= k < noise.len() && !(-MAX_NOISE <= #[trigger] noise[k] <= MAX_NOISE) {
        Some(ConfigError::NoiseOutOfRange)
    } else {
        None
    }
}

/// Row-major flat index of lattice point `(i, j)` in a grid of
/// `(height + 1)` points per row.
pub open spec fn grid_index(i: int, j: int, height: int) -> int {
    i * (height + 1) + j
}

/// The lattice point at `(i, j)`: x and z step by the cell scale, y is the
/// noise sample scaled by the cell scale and a fixed vertical exaggeration
/// of 8.
pub open spec fn grid_point(i: int, j: int, cell_scale: int, nv: int) -> V3 {
    (i * cell_scale, 8 * fxmul(nv, cell_scale), j * cell_scale)
}

/// The grid sequence holds exactly the lattice points for this noise grid.
pub open spec fn grid_ok(
    g: Seq<Vec3>,
    width: int,
    height: int,
    cell_scale: int,
    noise: Seq<i64>,
) -> bool {
    &&& g.len() == (width + 1) * (height + 1)
    &&& forall|i: int, j: int|
        0 <= i <= width && 0 <= j <= height ==> (#[trigger] g[grid_index(i, j, height)])@
            == grid_point(i, j, cell_scale, noise[grid_index(i, j, height)] as int)
}

/// The fan-averaged normal from a lattice point's four neighbor offsets:
/// the four cross products fanned around the point, summed and normalized.
/// A missing neighbor contributes the zero vector.
pub open spec fn fan_from(left: V3, right: V3, up: V3, down: V3) -> V3 {
    normalize_s(
        add_s(
            add_s(cross_s(left, down), cross_s(down, right)),
            add_s(cross_s(right, up), cross_s(up, left)),
        ),
    )
}

/// The averaged normal at grid position `(x, y)` of a materialized grid
/// with `rows * cols` points.
pub open spec fn fan_normal(g: Seq<Vec3>, rows: int, cols: int, x: int, y: int) -> V3 {
    let p = g[x * cols + y]@;
    let left = if x > 0 {
        sub_s(g[(x - 1) * cols + y]@, p)
    } else {
        (0, 0, 0)
    };
    let right = if x < rows - 1 {
        sub_s(g[(x + 1) * cols + y]@, p)
    } else {
        (0, 0, 0)
    };
    let up = if y > 0 {
        sub_s(g[x * cols + y - 1]@, p)
    } else {
        (0, 0, 0)
    };
    let down = if y < cols - 1 {
        sub_s(g[x * cols + y + 1]@, p)
    } else {
        (0, 0, 0)
    };
    fan_from(left, right, up, down)
}

/// The averaged normal at lattice point `(x, y)`, stated directly over the
/// noise grid.
pub open spec fn lattice_normal(
    width: int,
    height: int,
    cell_scale: int,
    noise: Seq<i64>,
    x: int,
    y: int,
) -> V3 {
    let p = grid_point(x, y, cell_scale, noise[grid_index(x, y, height)] as int);
    let left = if x > 0 {
        sub_s(grid_point(x - 1, y, cell_scale, noise[grid_index(x - 1, y, height)] as int), p)
    } else {
        (0, 0, 0)
    };
    let right = if x < width {
        sub_s(grid_point(x + 1, y, cell_scale, noise[grid_index(x + 1, y, height)] as int), p)
    } else {
        (0, 0, 0)
    };
    let up = if y > 0 {
        sub_s(grid_point(x, y - 1, cell_scale, noise[grid_index(x, y - 1, height)] as int), p)
    } else {
        (0, 0, 0)
    };
    let down = if y < height {
        sub_s(grid_point(x, y + 1, cell_scale, noise[grid_index(x, y + 1, height)] as int), p)
    } else {
        (0, 0, 0)
    };
    fan_from(left, right, up, down)
}

/// Row-major flat indices stay inside the grid.
proof fn lemma_rc_index(r: int, c: int, rows: int, cols: int)
    by (nonlinear_arith)
    requires
        0 <= r < rows,
        0 <= c < cols,
    ensures
        0 <= r * cols + c,
        r * cols + c < rows * cols,
{
}

/// Lattice points of an accepted configuration stay inside the coordinate
/// range of a well-formed mesh.
proof fn lemma_grid_point_bounded(
    i: int,
    j: int,
    width: int,
    height: int,
    cell_scale: int,
    nv: int,
)
    requires
        0 <= i <= width,
        0 <= j <= height,
        0 < cell_scale <= MAX_SCALE,
        width * cell_scale <= MAX_COORD,
        height * cell_scale <= MAX_COORD,
        -MAX_NOISE <= nv <= MAX_NOISE,
    ensures
        bounded3(grid_point(i, j, cell_scale, nv), MAX_COORD as int),
        0 <= i * cell_scale,
        0 <= j * cell_scale,
{
    vstd::arithmetic::mul::lemma_mul_inequality(i, width, cell_scale);
    vstd::arithmetic::mul::lemma_mul_inequality(j, height, cell_scale);
    vstd::arithmetic::mul::lemma_mul_nonnegative(i, cell_scale);
    vstd::arithmetic::mul::lemma_mul_nonnegative(j, cell_scale);
    lemma_mul_bound(nv, cell_scale, MAX_NOISE as int, MAX_SCALE as int);
    lemma_fxmul_bound(nv, cell_scale, (MAX_NOISE as int) * (MAX_SCALE as int));
}

/// On a grid of lattice points, the fan normal over the grid equals the fan
/// normal stated over the noise samples.
proof fn lemma_fan_eq(
    g: Seq<Vec3>,
    width: int,
    height: int,
    cell_scale: int,
    noise: Seq<i64>,
    x: int,
    y: int,
)
    requires
        grid_ok(g, width, height, cell_scale, noise),
        0 <= x <= width,
        0 <= y <= height,
    ensures
        fan_normal(g, width + 1, height + 1, x, y) == lattice_normal(
            width,
            height,
            cell_scale,
            noise,
            x,
            y,
        ),
{
    let cols = height + 1;
    assert(g[grid_index(x, y, height)]@ == grid_point(
        x,
        y,
        cell_scale,
        noise[grid_index(x, y, height)] as int,
    ));
    if x > 0 {
        assert(g[grid_index(x - 1, y, height)]@ == grid_point(
            x - 1,
            y,
            cell_scale,
            noise[grid_index(x - 1, y, height)] as int,
        ));
    }
    if x < width {
        assert(g[grid_index(x + 1, y, height)]@ == grid_point(
            x + 1,
            y,
            cell_scale,
            noise[grid_index(x + 1, y, height)] as int,
        ));
    }
    if y > 0 {
        assert(g[grid_index(x, y - 1, height)]@ == grid_point(
            x,
            y - 1,
            cell_scale,
            noise[grid_index(x, y - 1, height)] as int,
        ));
        assert(grid_index(x, y - 1, height) == x * cols + y - 1);
    }
    if y < height {
        assert(g[grid_index(x, y + 1, height)]@ == grid_point(
            x,
            y + 1,
            cell_scale,
            noise[grid_index(x, y + 1, height)] as int,
        ));
    }
}

/// Materialize the grid of lattice points for an accepted configuration.
fn build_grid(width: usize, height: usize, cell_scale: i64, noise: &Vec<i64>) -> (g: Vec<Vec3>)
    requires
        1 <= width <= MAX_DIM,
        1 <= height <= MAX_DIM,
        0 < cell_scale <= MAX_SCALE,
        width * cell_scale <= MAX_COORD,
        height * cell_scale <= MAX_COORD,
        noise@.len() == (width + 1) * (height + 1),
        forall|k: int| 0 <= k < noise@.len() ==> -MAX_NOISE <= #[trigger] noise@[k] <= MAX_NOISE,
    ensures
        grid_ok(g@, width as int, height as int, cell_scale as int, noise@),
        forall|k: int| 0 <= k < g@.len() ==> bounded3((#[trigger] g@[k])@, MAX_COORD as int),
{
    let rows = width + 1;
    let cols = height + 1;
    proof {
        lemma_mul_bound(rows as int, cols as int, 8193, 8193);
        vstd::arithmetic::mul::lemma_mul_nonnegative(rows as int, cols as int);
    }
    let mut g: Vec<Vec3> = Vec::new();
    let mut i: usize = 0;
    while i < rows
        invariant
            1 <= width <= MAX_DIM,
            1 <= height <= MAX_DIM,
            0 < cell_scale <= MAX_SCALE,
            width * cell_scale <= MAX_COORD,
            height * cell_scale <= MAX_COORD,
            noise@.len() == (width + 1) * (height + 1),
            forall|k: int|
                0 <= k < noise@.len() ==> -MAX_NOISE <= #[trigger] noise@[k] <= MAX_NOISE,
            rows == width + 1,
            cols == height + 1,
            i <= rows,
            g@.len() == i * cols,
            forall|k: int|
                0 <= k < g@.len() ==> (#[trigger] g@[k])@ == grid_point(
                    k / (cols as int),
                    k % (cols as int),
                    cell_scale as int,
                    noise@[k] as int,
                ),
            forall|k: int| 0 <= k < g@.len() ==> bounded3((#[trigger] g@[k])@, MAX_COORD as int),
        decreases rows - i,
    {
        proof {
            vstd::arithmetic::mul::lemma_mul_inequality(i as int, width as int, cell_scale as int);
            vstd::arithmetic::mul::lemma_mul_nonnegative(i as int, cell_scale as int);
        }
        let x_pos: i64 = (i as i64) * cell_scale;
        let mut j: usize = 0;
        while j < cols
            invariant
                1 <= width <= MAX_DIM,
                1 <= height <= MAX_DIM,
                0 < cell_scale <= MAX_SCALE,
                width * cell_scale <= MAX_COORD,
                height * cell_scale <= MAX_COORD,
                noise@.len() == (width + 1) * (height + 1),
                forall|k: int|
                    0 <= k < noise@.len() ==> -MAX_NOISE <= #[trigger] noise@[k] <= MAX_NOISE,
                rows == width + 1,
                cols == height + 1,
                i < rows,
                j <= cols,
                x_pos == i * cell_scale,
                0 <= x_pos <= MAX_COORD,
                g@.len() == i * cols + j,
                forall|k: int|
                    0 <= k < g@.len() ==> (#[trigger] g@[k])@ == grid_point(
                        k / (cols as int),
                        k % (cols as int),
                        cell_scale as int,
                        noise@[k] as int,
                    ),
                forall|k: int|
                    0 <= k < g@.len() ==> bounded3((#[trigger] g@[k])@, MAX_COORD as int),
            decreases cols - j,
        {
            proof {
                lemma_rc_index(i as int, j as int, rows as int, cols as int);
                lemma_mul_bound(rows as int, cols as int, 8193, 8193);
                vstd::arithmetic::mul::lemma_mul_inequality(
                    j as int,
                    height as int,
                    cell_scale as int,
                );
                vstd::arithmetic::mul::lemma_mul_nonnegative(j as int, cell_scale as int);
            }
            let z_pos: i64 = (j as i64) * cell_scale;
            let nk = i * cols + j;
            let nv: i64 = noise[nk];
            proof {
                lemma_mul_bound(nv as int, cell_scale as int, MAX_NOISE as int, MAX_SCALE as int);
                lemma_fxmul_bound(
                    nv as int,
                    cell_scale as int,
                    (MAX_NOISE as int) * (MAX_SCALE as int),
                );
            }
            let y_pos: i64 = 8 * fx_mul(nv, cell_scale);
            g.push(Vec3 { x: x_pos, y: y_pos, z: z_pos });
            proof {
                vstd::arithmetic::div_mod::lemma_fundamental_div_mod_converse(
                    nk as int,
                    cols as int,
                    i as int,
                    j as int,
                );
            }
            j = j + 1;
        }
        proof {
            vstd::arithmetic::mul::lemma_mul_is_distributive_add_other_way(cols as int, i as int, 1);
        }
        i = i + 1;
    }
    proof {
        assert forall|a: int, b: int| 0 <= a <= width && 0 <= b <= height implies (#[trigger] g@[
        grid_index(a, b, height as int)])@ == grid_point(
            a,
            b,
            cell_scale as int,
            noise@[grid_index(a, b, height as int)] as int,
        ) by {
            lemma_rc_index(a, b, rows as int, cols as int);
            vstd::arithmetic::div_mod::lemma_fundamental_div_mod_converse(
                a * (cols as int) + b,
                cols as int,
                a,
                b,
            );
        }
    }
    g
}

/// The averaged normal at grid position `(x, y)`: the four fan cross
/// products of the offsets to the axis neighbors, summed and normalized;
/// neighbors past the boundary contribute the zero vector.
#[verifier::rlimit(60)]
pub fn average_normal(grid: &Vec<Vec3>, rows: usize, cols: usize, x: usize, y: usize) -> (n: Vec3)
    requires
        grid@.len() == rows * cols,
        rows <= 8193,
        cols <= 8193,
        x < rows,
        y < cols,
        forall|k: int| 0 <= k < grid@.len() ==> bounded3((#[trigger] grid@[k])@, MAX_COORD as int),
    ensures
        n@ == fan_normal(grid@, rows as int, cols as int, x as int, y as int),
        bounded3(n@, FX_ONE as int),
{
    proof {
        lemma_rc_index(x as int, y as int, rows as int, cols as int);
        lemma_mul_bound(rows as int, cols as int, 8193, 8193);
    }
    let zero = Vec3 { x: 0, y: 0, z: 0 };
    let p = grid[x * cols + y];
    let left = if x > 0 {
        proof {
            lemma_rc_index(x as int - 1, y as int, rows as int, cols as int);
        }
        v_sub(&grid[(x - 1) * cols + y], &p)
    } else {
        zero
    };
    let right = if x < rows - 1 {
        proof {
            lemma_rc_index(x as int + 1, y as int, rows as int, cols as int);
        }
        v_sub(&grid[(x + 1) * cols + y], &p)
    } else {
        zero
    };
    let up = if y > 0 {
        proof {
            lemma_rc_index(x as int, y as int - 1, rows as int, cols as int);
        }
        v_sub(&grid[x * cols + y - 1], &p)
    } else {
        zero
    };
    let down = if y < cols - 1 {
        proof {
            lemma_rc_index(x as int, y as int + 1, rows as int, cols as int);
        }
        v_sub(&grid[x * cols + y + 1], &p)
    } else {
        zero
    };
    let n = v_add(
        &v_add(&cross(&left, &down), &cross(&down, &right)),
        &v_add(&cross(&right, &up), &cross(&up, &left)),
    );
    normalize(&n)
}

/// One texel step in fixed point: `1 / tex_scale`, rounded down.
pub open spec fn uv_texel(tex_scale: int) -> int {
    (FX_ONE as int) / tex_scale
}

/// Base texture coordinate of lattice row or column `i` under tiling
/// period `tex_scale`.
pub open spec fn uv_base(i: int, tex_scale: int) -> int {
    (i % tex_scale) * uv_texel(tex_scale)
}

/// What one grid cell contributes to the mesh: its four duplicated corner
/// vertices `a b c d`, their averaged normals, the tiled texture corners,
/// and the two triangles `(a, d, b)` and `(b, d, c)`.
pub open spec fn cell_ok(
    ps: Seq<Vec3>,
    ns: Seq<Vec3>,
    us: Seq<Vec2>,
    ix: Seq<u32>,
    width: int,
    height: int,
    cell_scale: int,
    tex_scale: int,
    noise: Seq<i64>,
    i: int,
    j: int,
) -> bool {
    let q = i * height + j;
    let d = uv_texel(tex_scale);
    let ub = uv_base(i, tex_scale);
    let vb = uv_base(j, tex_scale);
    &&& ps[4 * q + 0]@ == grid_point(i, j, cell_scale, noise[grid_index(i, j, height)] as int)
    &&& ps[4 * q + 1]@ == grid_point(
        i + 1,
        j,
        cell_scale,
        noise[grid_index(i + 1, j, height)] as int,
    )
    &&& ps[4 * q + 2]@ == grid_point(
        i + 1,
        j + 1,
        cell_scale,
        noise[grid_index(i + 1, j + 1, height)] as int,
    )
    &&& ps[4 * q + 3]@ == grid_point(
        i,
        j + 1,
        cell_scale,
        noise[grid_index(i, j + 1, height)] as int,
    )
    &&& ns[4 * q + 0]@ == lattice_normal(width, height, cell_scale, noise, i, j)
    &&& ns[4 * q + 1]@ == lattice_normal(width, height, cell_scale, noise, i + 1, j)
    &&& ns[4 * q + 2]@ == lattice_normal(width, height, cell_scale, noise, i + 1, j + 1)
    &&& ns[4 * q + 3]@ == lattice_normal(width, height, cell_scale, noise, i, j + 1)
    &&& us[4 * q + 0]@ == (ub, vb + d)
    &&& us[4 * q + 1]@ == (ub, vb)
    &&& us[4 * q + 2]@ == (ub + d, vb)
    &&& us[4 * q + 3]@ == (ub + d, vb + d)
    &&& ix[6 * q + 0] as int == 4 * q + 0
    &&& ix[6 * q + 1] as int == 4 * q + 3
    &&& ix[6 * q + 2] as int == 4 * q + 1
    &&& ix[6 * q + 3] as int == 4 * q + 1
    &&& ix[6 * q + 4] as int == 4 * q + 3
    &&& ix[6 * q + 5] as int == 4 * q + 2
}

/// The full statement of what `generate` builds for an accepted
/// configuration.
pub open spec fn generated(
    m: Mesh,
    width: int,
    height: int,
    cell_scale: int,
    tex_scale: int,
    noise: Seq<i64>,
) -> bool {
    &&& m.wf()
    &&& m.topology == Topology::TriangleList
    &&& m.positions@.len() == 4 * (width * height)
    &&& m.normals@.len() == 4 * (width * height)
    &&& m.uvs@.len() == 4 * (width * height)
    &&& m.indices@.len() == 6 * (width * height)
    &&& forall|i: int, j: int|
        0 <= i < width && 0 <= j < height ==> #[trigger] cell_ok(
            m.positions@,
            m.normals@,
            m.uvs@,
            m.indices@,
            width,
            height,
            cell_scale,
            tex_scale,
            noise,
            i,
            j,
        )
}

/// Cells that come earlier in generation order have smaller indices.
proof fn lemma_cell_index_mono(a: int, b: int, i: int, j: int, height: int)
    by (nonlinear_arith)
    requires
        0 <= a,
        0 <= b < height,
        0 <= j,
        a < i || (a == i && b < j),
    ensures
        0 <= a * height + b,
        a * height + b < i * height + j,
{
}

/// Build the terrain mesh for a `width x height` cell grid.
///
/// `cell_scale` is the fixed-point edge length of one cell, `tex_scale`
/// the tiling period of the texture coordinates in cells, and `noise` the
/// fixed-point noise sample for each of the `(width+1) * (height+1)`
/// lattice points, in row-major order.  Rejected configurations fail fast
/// with the first applicable `ConfigError`.
#[verifier::rlimit(100)]
pub fn generate(
    width: usize,
    height: usize,
    cell_scale: i64,
    tex_scale: usize,
    noise: &Vec<i64>,
) -> (r: Result<Mesh, ConfigError>)
    ensures
        match r {
            Result::Ok(m) => config_error(
                width as int,
                height as int,
                cell_scale as int,
                tex_scale as int,
                noise@,
            ) is None && generated(
                m,
                width as int,
                height as int,
                cell_scale as int,
                tex_scale as int,
                noise@,
            ),
            Result::Err(e) => config_error(
                width as int,
                height as int,
                cell_scale as int,
                tex_scale as int,
                noise@,
            ) == Some(e),
        },
{
    if width == 0 {
        return Result::Err(ConfigError::ZeroWidth);
    }
    if height == 0 {
        return Result::Err(ConfigError::ZeroHeight);
    }
    if cell_scale <= 0 {
        return Result::Err(ConfigError::NonPositiveScale);
    }
    if tex_scale == 0 {
        return Result::Err(ConfigError::ZeroTexScale);
    }
    if width > MAX_DIM || height > MAX_DIM {
        return Result::Err(ConfigError::DimensionTooLarge);
    }
    if cell_scale > MAX_SCALE {
        return Result::Err(ConfigError::ScaleTooLarge);
    }
    proof {
        lemma_mul_bound(width as int, cell_scale as int, MAX_DIM as int, MAX_SCALE as int);
        lemma_mul_bound(height as int, cell_scale as int, MAX_DIM as int, MAX_SCALE as int);
    }
    if (width as i64) * cell_scale > MAX_COORD || (height as i64) * cell_scale > MAX_COORD {
        return Result::Err(ConfigError::ExtentTooLarge);
    }
    proof {
        lemma_mul_bound(width as int + 1, height as int + 1, 8193, 8193);
        vstd::arithmetic::mul::lemma_mul_nonnegative(width as int + 1, height as int + 1);
    }
    let expected: usize = (width + 1) * (height + 1);
    if noise.len() != expected {
        return Result::Err(ConfigError::NoiseGridMismatch);
    }
    let mut k: usize = 0;
    while k < noise.len()
        invariant
            1 <= width <= MAX_DIM,
            1 <= height <= MAX_DIM,
            0 < cell_scale <= MAX_SCALE,
            1 <= tex_scale,
            width * cell_scale <= MAX_COORD,
            height * cell_scale <= MAX_COORD,
            noise@.len() == (width + 1) * (height + 1),
            k <= noise@.len(),
            forall|t: int| 0 <= t < k ==> -MAX_NOISE <= #[trigger] noise@[t] <= MAX_NOISE,
        decreases noise@.len() - k,
    {
        let nv = noise[k];
        if nv < -MAX_NOISE || nv > MAX_NOISE {
            proof {
                assert(0 <= k < noise@.len() && !(-MAX_NOISE <= noise@[k as int] <= MAX_NOISE));
                assert(exists|t: int|
                    0 <= t < noise@.len() && !(-MAX_NOISE <= #[trigger] noise@[t] <= MAX_NOISE));
            }
            return Result::Err(ConfigError::NoiseOutOfRange);
        }
        k = k + 1;
    }
    let grid = build_grid(width, height, cell_scale, noise);
    let rows = width + 1;
    let cols = height + 1;
    let texel: i64 = if tex_scale > 65536 {
        proof {
            vstd::arithmetic::div_mod::lemma_basic_div(FX_ONE as int, tex_scale as int);
        }
        0
    } else {
        65536 / (tex_scale as i64)
    };
    proof {
        vstd::arithmetic::div_mod::lemma_div_pos_is_pos(FX_ONE as int, tex_scale as int);
        vstd::arithmetic::div_mod::lemma_div_is_ordered(FX_ONE as int, FX_ONE as int, tex_scale as int);
    }
    let ghost gw = width as int;
    let ghost gh = height as int;
    let ghost gs = cell_scale as int;
    let ghost gt = tex_scale as int;
    let mut positions: Vec<Vec3> = Vec::new();
    let mut normals: Vec<Vec3> = Vec::new();
    let mut uvs: Vec<Vec2> = Vec::new();
    let mut indices: Vec<u32> = Vec::new();
    let mut off: u32 = 0;
    let mut i: usize = 0;
    while i < width
        invariant
            1 <= width <= MAX_DIM,
            1 <= height <= MAX_DIM,
            0 < cell_scale <= MAX_SCALE,
            1 <= tex_scale,
            width * cell_scale <= MAX_COORD,
            height * cell_scale <= MAX_COORD,
            noise@.len() == (width + 1) * (height + 1),
            forall|t: int| 0 <= t < noise@.len() ==> -MAX_NOISE <= #[trigger] noise@[t] <= MAX_NOISE,
            gw == width as int,
            gh == height as int,
            gs == cell_scale as int,
            gt == tex_scale as int,
            rows == width + 1,
            cols == height + 1,
            grid_ok(grid@, gw, gh, gs, noise@),
            forall|t: int| 0 <= t < grid@.len() ==> bounded3((#[trigger] grid@[t])@, MAX_COORD as int),
            texel as int == uv_texel(gt),
            0 <= texel <= FX_ONE,
            i <= width,
            positions@.len() == 4 * (i * gh),
            normals@.len() == 4 * (i * gh),
            uvs@.len() == 4 * (i * gh),
            indices@.len() == 6 * (i * gh),
            off as int == 4 * (i * gh),
            forall|t: int|
                0 <= t < positions@.len() ==> bounded3(
                    (#[trigger] positions@[t])@,
                    MAX_COORD as int,
                ),
            forall|t: int|
                0 <= t < normals@.len() ==> bounded3((#[trigger] normals@[t])@, FX_ONE as int),
            forall|t: int|
                0 <= t < indices@.len() ==> (#[trigger] indices@[t]) < positions@.len(),
            forall|a: int, b: int|
                0 <= a < i && 0 <= b < gh ==> #[trigger] cell_ok(
                    positions@,
                    normals@,
                    uvs@,
                    indices@,
                    gw,
                    gh,
                    gs,
                    gt,
                    noise@,
                    a,
                    b,
                ),
        decreases width - i,
    {
        let u_mod = i % tex_scale;
        proof {
            vstd::arithmetic::div_mod::lemma_mod_decreases(i as nat, tex_scale as nat);
            lemma_mul_bound(u_mod as int, texel as int, MAX_DIM as int, FX_ONE as int);
            vstd::arithmetic::mul::lemma_mul_nonnegative(u_mod as int, texel as int);
            assert(u_mod as int == (i as int) % gt);
        }
        let u_base: i64 = (u_mod as i64) * texel;
        let mut j: usize = 0;
        while j < height
            invariant
                1 <= width <= MAX_DIM,
                1 <= height <= MAX_DIM,
                0 < cell_scale <= MAX_SCALE,
                1 <= tex_scale,
                width * cell_scale <= MAX_COORD,
                height * cell_scale <= MAX_COORD,
                noise@.len() == (width + 1) * (height + 1),
                forall|t: int|
                    0 <= t < noise@.len() ==> -MAX_NOISE <= #[trigger] noise@[t] <= MAX_NOISE,
                gw == width as int,
                gh == height as int,
                gs == cell_scale as int,
                gt == tex_scale as int,
                rows == width + 1,
                cols == height + 1,
                grid_ok(grid@, gw, gh, gs, noise@),
                forall|t: int|
                    0 <= t < grid@.len() ==> bounded3((#[trigger] grid@[t])@, MAX_COORD as int),
                texel as int == uv_texel(gt),
                0 <= texel <= FX_ONE,
                i < width,
                j <= height,
                u_base as int == uv_base(i as int, gt),
                0 <= u_base <= 0x2000_0000,
                positions@.len() == 4 * (i * gh + j),
                normals@.len() == 4 * (i * gh + j),
                uvs@.len() == 4 * (i * gh + j),
                indices@.len() == 6 * (i * gh + j),
                off as int == 4 * (i * gh + j),
                forall|t: int|
                    0 <= t < positions@.len() ==> bounded3(
                        (#[trigger] positions@[t])@,
                        MAX_COORD as int,
                    ),
                forall|t: int|
                    0 <= t < normals@.len() ==> bounded3((#[trigger] normals@[t])@, FX_ONE as int),
                forall|t: int|
                    0 <= t < indices@.len() ==> (#[trigger] indices@[t]) < positions@.len(),
                forall|a: int, b: int|
                    0 <= a <= i && 0 <= b < gh && (a < i || b < j) ==> #[trigger] cell_ok(
                        positions@,
                        normals@,
                        uvs@,
                        indices@,
                        gw,
                        gh,
                        gs,
                        gt,
                        noise@,
                        a,
                        b,
                    ),
            decreases height - j,
        {
            proof {
                lemma_rc_index(i as int, j as int, gw, gh);
                lemma_mul_bound(gw, gh, MAX_DIM as int, MAX_DIM as int);
                lemma_rc_index(i as int, j as int, rows as int, cols as int);
                lemma_rc_index(i as int + 1, j as int, rows as int, cols as int);
                lemma_rc_index(i as int + 1, j as int + 1, rows as int, cols as int);
                lemma_rc_index(i as int, j as int + 1, rows as int, cols as int);
                lemma_mul_bound(rows as int, cols as int, 8193, 8193);
            }
            let ghost old_ps = positions@;
            let ghost old_ns = normals@;
            let ghost old_us = uvs@;
            let ghost old_ix = indices@;
            let v_mod = j % tex_scale;
            proof {
                vstd::arithmetic::div_mod::lemma_mod_decreases(j as nat, tex_scale as nat);
                lemma_mul_bound(v_mod as int, texel as int, MAX_DIM as int, FX_ONE as int);
                vstd::arithmetic::mul::lemma_mul_nonnegative(v_mod as int, texel as int);
                assert(v_mod as int == (j as int) % gt);
            }
            let v_base: i64 = (v_mod as i64) * texel;
            let pa = grid[i * cols + j];
            let pb = grid[(i + 1) * cols + j];
            let pc = grid[(i + 1) * cols + j + 1];
            let pd = grid[i * cols + j + 1];
            positions.push(pa);
            positions.push(pb);
            positions.push(pc);
            positions.push(pd);
            let na = average_normal(&grid, rows, cols, i, j);
            let nb = average_normal(&grid, rows, cols, i + 1, j);
            let nc = average_normal(&grid, rows, cols, i + 1, j + 1);
            let nd = average_normal(&grid, rows, cols, i, j + 1);
            normals.push(na);
            normals.push(nb);
            normals.push(nc);
            normals.push(nd);
            uvs.push(Vec2 { u: u_base, v: v_base + texel });
            uvs.push(Vec2 { u: u_base, v: v_base });
            uvs.push(Vec2 { u: u_base + texel, v: v_base });
            uvs.push(Vec2 { u: u_base + texel, v: v_base + texel });
            indices.push(off);
            indices.push(off + 3);
            indices.push(off + 1);
            indices.push(off + 1);
            indices.push(off + 3);
            indices.push(off + 2);
            proof {
                lemma_fan_eq(grid@, gw, gh, gs, noise@, i as int, j as int);
                lemma_fan_eq(grid@, gw, gh, gs, noise@, i as int + 1, j as int);
                lemma_fan_eq(grid@, gw, gh, gs, noise@, i as int + 1, j as int + 1);
                lemma_fan_eq(grid@, gw, gh, gs, noise@, i as int, j as int + 1);
                assert(cell_ok(
                    positions@,
                    normals@,
                    uvs@,
                    indices@,
                    gw,
                    gh,
                    gs,
                    gt,
                    noise@,
                    i as int,
                    j as int,
                ));
                assert forall|a: int, b: int|
                    0 <= a <= i && 0 <= b < gh && (a < i || b < j + 1) && !(a == i && b == j)
                    implies #[trigger] cell_ok(
                    positions@,
                    normals@,
                    uvs@,
                    indices@,
                    gw,
                    gh,
                    gs,
                    gt,
                    noise@,
                    a,
                    b,
                ) by {
                    lemma_cell_index_mono(a, b, i as int, j as int, gh);
                    assert(cell_ok(old_ps, old_ns, old_us, old_ix, gw, gh, gs, gt, noise@, a, b));
                }
            }
            off = off + 4;
            j = j + 1;
        }
        proof {
            vstd::arithmetic::mul::lemma_mul_is_distributive_add_other_way(gh, i as int, 1);
        }
        i = i + 1;
    }
    let m = Mesh {
        topology: Topology::TriangleList,
        positions,
        normals,
        uvs,
        indices,
    };
    proof {
        lemma_mul_bound(gw, gh, MAX_DIM as int, MAX_DIM as int);
        vstd::arithmetic::mul::lemma_mul_nonnegative(gw, gh);
        assert(m.indices@.len() % 3 == 0) by (nonlinear_arith)
            requires
                m.indices@.len() == 6 * (gw * gh),
                gw * gh >= 0,
        ;
        assert forall|t: int| 0 <= t < m.normals@.len() implies bounded3(
            (#[trigger] m.normals@[t])@,
            MAX_NORMAL as int,
        ) by {
            assert(bounded3(m.normals@[t]@, FX_ONE as int));
        }
    }
    Result::Ok(m)
}

} // verus!
