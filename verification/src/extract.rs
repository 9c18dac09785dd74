//! The marching-cubes core: classifying cells against the isovalue,
//! interpolating edge crossings, and assembling triangles chunk by chunk.

use vstd::prelude::*;
use crate::{FP_ONE, FP_HALF, SAMPLE_MAX, SCALE_MAX};
use crate::field::ScalarField;
use crate::mesh::Mesh;
use crate::tables::{CORNER_DX, CORNER_DY, CORNER_DZ, EDGE_LO, EDGE_HI, EDGE_AXIS};
use crate::tables::{spec_tri_at, spec_tri_is_edge, tri_table_at};
use rayon::iter::{IndexedParallelIterator, IntoParallelRefIterator, ParallelIterator};

verus! {

/// A sample on or above the isovalue counts as inside the surface; exact
/// equality is inside, the tie-break shared by every cell.
pub open spec fn spec_inside(s: i64, iso: i64) -> bool {
    s >= iso
}

/// The sample at corner `n` of the cell whose lowest corner is `(gx, gy, gz)`.
pub open spec fn spec_corner_sample(f: ScalarField, gx: int, gy: int, gz: int, n: int) -> i64 {
    f.spec_sample(gx + CORNER_DX[n] as int, gy + CORNER_DY[n] as int, gz + CORNER_DZ[n] as int)
}

/// The cube configuration of a cell: bit `n` is set exactly when corner `n`
/// is inside the surface.
pub open spec fn spec_config(f: ScalarField, gx: int, gy: int, gz: int, iso: i64) -> int {
    (if spec_inside(spec_corner_sample(f, gx, gy, gz, 0), iso) { 1int } else { 0int })
        + (if spec_inside(spec_corner_sample(f, gx, gy, gz, 1), iso) { 2int } else { 0int })
        + (if spec_inside(spec_corner_sample(f, gx, gy, gz, 2), iso) { 4int } else { 0int })
        + (if spec_inside(spec_corner_sample(f, gx, gy, gz, 3), iso) { 8int } else { 0int })
        + (if spec_inside(spec_corner_sample(f, gx, gy, gz, 4), iso) { 16int } else { 0int })
        + (if spec_inside(spec_corner_sample(f, gx, gy, gz, 5), iso) { 32int } else { 0int })
        + (if spec_inside(spec_corner_sample(f, gx, gy, gz, 6), iso) { 64int } else { 0int })
        + (if spec_inside(spec_corner_sample(f, gx, gy, gz, 7), iso) { 128int } else { 0int })
}

/// Fixed-point interpolation parameter of the isovalue crossing between two
/// samples, scaled by `FP_ONE` and clamped to one edge length. A flat edge
/// (equal samples) falls back to the midpoint, by definition rather than by
/// failure.
pub open spec fn spec_lerp_t(s0: i64, s1: i64, iso: i64) -> int {
    if s0 == s1 {
        FP_HALF as int
    } else {
        let num: int = if s1 > s0 { iso - s0 } else { s0 - iso };
        let den: int = if s1 > s0 { s1 - s0 } else { s0 - s1 };
        if num <= 0 {
            0
        } else if num >= den {
            FP_ONE as int
        } else {
            num * (FP_ONE as int) / den
        }
    }
}

/// The interpolation parameter is always within one edge length.
pub proof fn lemma_lerp_t_bounds(s0: i64, s1: i64, iso: i64)
    ensures
        0 <= spec_lerp_t(s0, s1, iso) <= FP_ONE,
{
    if s0 != s1 {
        let num: int = if s1 > s0 { iso - s0 } else { s0 - iso };
        let den: int = if s1 > s0 { s1 - s0 } else { s0 - s1 };
        if 0 < num < den {
            assert(0 <= num * 65536 / den <= 65536) by (nonlinear_arith)
                requires 0 < num < den;
        }
    }
}

/// Executable twin of `spec_lerp_t`.
fn lerp_t(s0: i64, s1: i64, iso: i64) -> (t: i64)
    requires
        -SAMPLE_MAX <= s0 <= SAMPLE_MAX,
        -SAMPLE_MAX <= s1 <= SAMPLE_MAX,
        -SAMPLE_MAX <= iso <= SAMPLE_MAX,
    ensures
        t == spec_lerp_t(s0, s1, iso),
        0 <= t <= FP_ONE,
{
    proof {
        lemma_lerp_t_bounds(s0, s1, iso);
    }
    if s0 == s1 {
        return FP_HALF;
    }
    let num: i64 = if s1 > s0 { iso - s0 } else { s0 - iso };
    let den: i64 = if s1 > s0 { s1 - s0 } else { s0 - s1 };
    if num <= 0 {
        return 0;
    }
    if num >= den {
        return FP_ONE;
    }
    let q: u64 = (num as u64) * 65536 / (den as u64);
    proof {
        assert(q <= 65536) by (nonlinear_arith)
            requires 0 < num < den && q == num as int * 65536 / den as int;
    }
    q as i64
}

/// The interpolation parameter used on edge `e` of a cell: from the edge's
/// low corner toward its high corner.
pub open spec fn spec_edge_t(f: ScalarField, gx: int, gy: int, gz: int, iso: i64, e: int) -> int {
    spec_lerp_t(
        spec_corner_sample(f, gx, gy, gz, EDGE_LO[e] as int),
        spec_corner_sample(f, gx, gy, gz, EDGE_HI[e] as int),
        iso,
    )
}

/// The world-space crossing point on edge `e` of the cell at `(gx, gy, gz)`,
/// as three fixed-point coordinates: the edge's low corner scaled to world
/// units, advanced along the edge's axis by the interpolated fraction of one
/// scaled cell.
pub open spec fn spec_edge_point(
    f: ScalarField, gx: int, gy: int, gz: int, scale: i64, iso: i64, e: int,
) -> Seq<int> {
    let lo = EDGE_LO[e] as int;
    let bx = (gx + CORNER_DX[lo] as int) * scale;
    let by = (gy + CORNER_DY[lo] as int) * scale;
    let bz = (gz + CORNER_DZ[lo] as int) * scale;
    let d = spec_edge_t(f, gx, gy, gz, iso, e) * scale / (FP_ONE as int);
    if EDGE_AXIS[e] as int == 0 {
        seq![bx + d, by, bz]
    } else if EDGE_AXIS[e] as int == 1 {
        seq![bx, by + d, bz]
    } else {
        seq![bx, by, bz + d]
    }
}

/// Every crossing point stays inside its cell's scaled bounding box.
pub proof fn lemma_edge_point_in_cell(
    f: ScalarField, gx: int, gy: int, gz: int, scale: i64, iso: i64, e: int,
)
    requires
        0 <= e < 12,
        0 < scale <= SCALE_MAX,
    ensures
        gx * scale <= spec_edge_point(f, gx, gy, gz, scale, iso, e)[0] <= (gx + 1) * scale,
        gy * scale <= spec_edge_point(f, gx, gy, gz, scale, iso, e)[1] <= (gy + 1) * scale,
        gz * scale <= spec_edge_point(f, gx, gy, gz, scale, iso, e)[2] <= (gz + 1) * scale,
{
    let lo = EDGE_LO[e] as int;
    let t = spec_edge_t(f, gx, gy, gz, iso, e);
    let d = t * scale / (FP_ONE as int);
    lemma_lerp_t_bounds(
        spec_corner_sample(f, gx, gy, gz, EDGE_LO[e] as int),
        spec_corner_sample(f, gx, gy, gz, EDGE_HI[e] as int),
        iso,
    );
    assert(0 <= d <= scale) by (nonlinear_arith)
        requires 0 <= t <= 65536 && 0 < scale && d == t * scale / 65536;
    assert(e == 0 || e == 1 || e == 2 || e == 3 || e == 4 || e == 5 || e == 6 || e == 7
        || e == 8 || e == 9 || e == 10 || e == 11);
    let dxv = CORNER_DX[lo] as int;
    let dyv = CORNER_DY[lo] as int;
    let dzv = CORNER_DZ[lo] as int;
    let ax = EDGE_AXIS[e] as int;
    assert(0 <= dxv <= 1 && 0 <= dyv <= 1 && 0 <= dzv <= 1);
    assert(ax == 0 ==> dxv == 0);
    assert(ax == 1 ==> dyv == 0);
    assert(ax == 2 ==> dzv == 0);
    lemma_base_plus_step_in_cell(gx, dxv, scale, if ax == 0 { d } else { 0 });
    lemma_base_plus_step_in_cell(gy, dyv, scale, if ax == 1 { d } else { 0 });
    lemma_base_plus_step_in_cell(gz, dzv, scale, if ax == 2 { d } else { 0 });
}

/// One scaled coordinate of a crossing point — a corner offset of at most
/// one cell plus an advance of at most one scaled cell, where at most one of
/// the two is nonzero — stays within the cell's scaled extent.
proof fn lemma_base_plus_step_in_cell(g: int, c: int, scale: i64, d: int)
    requires
        0 <= c <= 1,
        0 <= d <= scale,
        c == 1 ==> d == 0,
        0 < scale,
    ensures
        g * scale <= (g + c) * scale + d <= (g + 1) * scale,
{
    assert(g * scale <= (g + c) * scale + d <= (g + 1) * scale) by (nonlinear_arith)
        requires 0 <= c <= 1 && 0 <= d <= scale && (c == 1 ==> d == 0) && 0 < scale;
}


/// Classifies one cell: reads its eight corner samples in the fixed corner
/// order and sets bit `n` exactly when corner `n` is on or above the
/// isovalue.
pub fn classify_cell(f: &ScalarField, gx: usize, gy: usize, gz: usize, iso: i64) -> (c: u8)
    requires
        f.wf(),
        gx + 1 < f.d0,
        gy + 1 < f.d1,
        gz + 1 < f.d2,
    ensures
        c as int == spec_config(*f, gx as int, gy as int, gz as int, iso),
{
    let mut c: u8 = 0;
    if f.sample(gx, gy, gz) >= iso {
        c = c + 1;
    }
    if f.sample(gx + 1, gy, gz) >= iso {
        c = c + 2;
    }
    if f.sample(gx + 1, gy + 1, gz) >= iso {
        c = c + 4;
    }
    if f.sample(gx, gy + 1, gz) >= iso {
        c = c + 8;
    }
    if f.sample(gx, gy, gz + 1) >= iso {
        c = c + 16;
    }
    if f.sample(gx + 1, gy, gz + 1) >= iso {
        c = c + 32;
    }
    if f.sample(gx + 1, gy + 1, gz + 1) >= iso {
        c = c + 64;
    }
    if f.sample(gx, gy + 1, gz + 1) >= iso {
        c = c + 128;
    }
    c
}

/// A scaled grid coordinate of any corner of an in-range cell stays well
/// inside 64 bits.
proof fn lemma_coord_mul_bound(g: int, scale: i64)
    requires
        0 <= g <= 1024,
        0 < scale <= SCALE_MAX,
    ensures
        0 <= g * scale <= 0x1000000000,
{
    assert(0 <= g * scale <= 0x1000000000) by (nonlinear_arith)
        requires 0 <= g <= 1024 && 0 < scale <= 0x4000000;
}

/// Computes the crossing point on edge `e` of the cell at `(gx, gy, gz)`;
/// executable twin of `spec_edge_point`.
pub fn edge_point(
    f: &ScalarField, gx: usize, gy: usize, gz: usize, scale: i64, iso: i64, e: usize,
) -> (p: (i64, i64, i64))
    requires
        f.wf(),
        gx + 1 < f.d0,
        gy + 1 < f.d1,
        gz + 1 < f.d2,
        0 < scale <= SCALE_MAX,
        -SAMPLE_MAX <= iso <= SAMPLE_MAX,
        e < 12,
    ensures
        p.0 == spec_edge_point(*f, gx as int, gy as int, gz as int, scale, iso, e as int)[0],
        p.1 == spec_edge_point(*f, gx as int, gy as int, gz as int, scale, iso, e as int)[1],
        p.2 == spec_edge_point(*f, gx as int, gy as int, gz as int, scale, iso, e as int)[2],
{
    proof {
        assert(e == 0 || e == 1 || e == 2 || e == 3 || e == 4 || e == 5 || e == 6 || e == 7
            || e == 8 || e == 9 || e == 10 || e == 11);
    }
    let lo: usize = EDGE_LO[e];
    let hi: usize = EDGE_HI[e];
    let s0 = f.sample(gx + CORNER_DX[lo], gy + CORNER_DY[lo], gz + CORNER_DZ[lo]);
    let s1 = f.sample(gx + CORNER_DX[hi], gy + CORNER_DY[hi], gz + CORNER_DZ[hi]);
    let t = lerp_t(s0, s1, iso);
    proof {
        lemma_coord_mul_bound(gx + CORNER_DX[lo as int] as int, scale);
        lemma_coord_mul_bound(gy + CORNER_DY[lo as int] as int, scale);
        lemma_coord_mul_bound(gz + CORNER_DZ[lo as int] as int, scale);
    }
    let bx: i64 = ((gx + CORNER_DX[lo]) as i64) * scale;
    let by: i64 = ((gy + CORNER_DY[lo]) as i64) * scale;
    let bz: i64 = ((gz + CORNER_DZ[lo]) as i64) * scale;
    proof {
        assert(t * scale <= 65536 * 0x4000000 && 0 <= t * scale) by (nonlinear_arith)
            requires 0 <= t <= 65536 && 0 < scale <= 0x4000000;
    }
    let dq: u64 = (t as u64) * (scale as u64) / 65536;
    proof {
        assert(dq <= 0x4000000) by (nonlinear_arith)
            requires 0 <= t * scale <= 65536 * 0x4000000 && dq == t as int * scale as int / 65536;
    }
    let d: i64 = dq as i64;
    let ax: usize = EDGE_AXIS[e];
    if ax == 0 {
        (bx + d, by, bz)
    } else if ax == 1 {
        (bx, by + d, bz)
    } else {
        (bx, by, bz + d)
    }
}

/// The edge named at position `p` of the triangulation row for `config`,
/// guarded: a terminator value reads as edge 0. On the real table a row is
/// never consulted past its terminator, so the guard never bites; it only
/// keeps the definition total.
pub open spec fn spec_edge_at(config: int, p: int) -> int {
    if spec_tri_at(config, p) < 12 {
        spec_tri_at(config, p) as int
    } else {
        0
    }
}

/// The nine vertex coordinates of triangle `ti` of a cell: the crossing
/// points of the row's three edges, in row order.
pub open spec fn spec_tri_verts(
    f: ScalarField, gx: int, gy: int, gz: int, scale: i64, iso: i64, config: int, ti: int,
) -> Seq<i64> {
    let p0 = spec_edge_point(f, gx, gy, gz, scale, iso, spec_edge_at(config, 3 * ti));
    let p1 = spec_edge_point(f, gx, gy, gz, scale, iso, spec_edge_at(config, 3 * ti + 1));
    let p2 = spec_edge_point(f, gx, gy, gz, scale, iso, spec_edge_at(config, 3 * ti + 2));
    seq![
        p0[0] as i64, p0[1] as i64, p0[2] as i64,
        p1[0] as i64, p1[1] as i64, p1[2] as i64,
        p2[0] as i64, p2[1] as i64, p2[2] as i64,
    ]
}

/// The cross product of two vectors given by components.
pub open spec fn spec_cross(
    u0: int, u1: int, u2: int, v0: int, v1: int, v2: int,
) -> Seq<int> {
    seq![u1 * v2 - u2 * v1, u2 * v0 - u0 * v2, u0 * v1 - u1 * v0]
}

/// The face normal of triangle `ti` of a cell: the cross product of its two
/// edge vectors, unnormalized.
pub open spec fn spec_tri_normal(
    f: ScalarField, gx: int, gy: int, gz: int, scale: i64, iso: i64, config: int, ti: int,
) -> Seq<int> {
    let p0 = spec_edge_point(f, gx, gy, gz, scale, iso, spec_edge_at(config, 3 * ti));
    let p1 = spec_edge_point(f, gx, gy, gz, scale, iso, spec_edge_at(config, 3 * ti + 1));
    let p2 = spec_edge_point(f, gx, gy, gz, scale, iso, spec_edge_at(config, 3 * ti + 2));
    spec_cross(
        p1[0] - p0[0], p1[1] - p0[1], p1[2] - p0[2],
        p2[0] - p0[0], p2[1] - p0[1], p2[2] - p0[2],
    )
}

/// The nine normal coordinates of triangle `ti`: the face normal, once per
/// vertex (flat shading).
pub open spec fn spec_tri_norms(
    f: ScalarField, gx: int, gy: int, gz: int, scale: i64, iso: i64, config: int, ti: int,
) -> Seq<i64> {
    let n = spec_tri_normal(f, gx, gy, gz, scale, iso, config, ti);
    seq![
        n[0] as i64, n[1] as i64, n[2] as i64,
        n[0] as i64, n[1] as i64, n[2] as i64,
        n[0] as i64, n[1] as i64, n[2] as i64,
    ]
}

/// Vertex coordinates contributed by triangles `ti` and later of a cell with
/// configuration `config`: empty at the row's terminator.
pub open spec fn spec_cell_verts_from(
    f: ScalarField, gx: int, gy: int, gz: int, scale: i64, iso: i64, config: int, ti: int,
) -> Seq<i64>
    decreases 5 - ti,
{
    if ti < 0 || ti >= 5 || !spec_tri_is_edge(config, 3 * ti) {
        Seq::empty()
    } else {
        spec_tri_verts(f, gx, gy, gz, scale, iso, config, ti)
            + spec_cell_verts_from(f, gx, gy, gz, scale, iso, config, ti + 1)
    }
}

/// Normal coordinates contributed by triangles `ti` and later of a cell.
pub open spec fn spec_cell_norms_from(
    f: ScalarField, gx: int, gy: int, gz: int, scale: i64, iso: i64, config: int, ti: int,
) -> Seq<i64>
    decreases 5 - ti,
{
    if ti < 0 || ti >= 5 || !spec_tri_is_edge(config, 3 * ti) {
        Seq::empty()
    } else {
        spec_tri_norms(f, gx, gy, gz, scale, iso, config, ti)
            + spec_cell_norms_from(f, gx, gy, gz, scale, iso, config, ti + 1)
    }
}

/// All vertex coordinates of one cell.
pub open spec fn spec_cell_verts(
    f: ScalarField, gx: int, gy: int, gz: int, scale: i64, iso: i64,
) -> Seq<i64> {
    spec_cell_verts_from(f, gx, gy, gz, scale, iso, spec_config(f, gx, gy, gz, iso), 0)
}

/// All normal coordinates of one cell.
pub open spec fn spec_cell_norms(
    f: ScalarField, gx: int, gy: int, gz: int, scale: i64, iso: i64,
) -> Seq<i64> {
    spec_cell_norms_from(f, gx, gy, gz, scale, iso, spec_config(f, gx, gy, gz, iso), 0)
}

/// The product of two components bounded by one scaled cell stays well
/// inside 64 bits.
proof fn lemma_prod_bound(a: int, b: int, s: i64)
    requires
        -s <= a <= s,
        -s <= b <= s,
        0 < s <= SCALE_MAX,
    ensures
        -0x10000000000000 <= a * b <= 0x10000000000000,
{
    assert(-0x10000000000000 <= a * b <= 0x10000000000000) by (nonlinear_arith)
        requires -s <= a <= s && -s <= b <= s && 0 < s <= 0x4000000;
}

/// Emits the (guarded) triangle `ti` of the row for `config`: appends its
/// nine vertex coordinates and its face normal, once per vertex.
#[verifier::rlimit(100)]
fn emit_triangle(
    f: &ScalarField, gx: usize, gy: usize, gz: usize, scale: i64, iso: i64,
    config: u8, ti: usize, verts: &mut Vec<i64>, norms: &mut Vec<i64>,
)
    requires
        f.wf(),
        gx + 1 < f.d0,
        gy + 1 < f.d1,
        gz + 1 < f.d2,
        0 < scale <= SCALE_MAX,
        -SAMPLE_MAX <= iso <= SAMPLE_MAX,
        ti < 5,
    ensures
        final(verts)@ == old(verts)@
            + spec_tri_verts(*f, gx as int, gy as int, gz as int, scale, iso, config as int, ti as int),
        final(norms)@ == old(norms)@
            + spec_tri_norms(*f, gx as int, gy as int, gz as int, scale, iso, config as int, ti as int),
{
    let ghost c: int = config as int;
    let n0 = tri_table_at(config, 3 * ti);
    let e0: usize = if n0 >= 12 { 0 } else { n0 as usize };
    let n1 = tri_table_at(config, 3 * ti + 1);
    let e1: usize = if n1 >= 12 { 0 } else { n1 as usize };
    let n2 = tri_table_at(config, 3 * ti + 2);
    let e2: usize = if n2 >= 12 { 0 } else { n2 as usize };
    proof {
        assert(e0 as int == spec_edge_at(c, 3 * ti as int));
        assert(e1 as int == spec_edge_at(c, 3 * ti as int + 1));
        assert(e2 as int == spec_edge_at(c, 3 * ti as int + 2));
    }
    let p0 = edge_point(f, gx, gy, gz, scale, iso, e0);
    let p1 = edge_point(f, gx, gy, gz, scale, iso, e1);
    let p2 = edge_point(f, gx, gy, gz, scale, iso, e2);
    proof {
        lemma_edge_point_in_cell(*f, gx as int, gy as int, gz as int, scale, iso, e0 as int);
        lemma_edge_point_in_cell(*f, gx as int, gy as int, gz as int, scale, iso, e1 as int);
        lemma_edge_point_in_cell(*f, gx as int, gy as int, gz as int, scale, iso, e2 as int);
        assert((gx as int + 1) * scale == gx as int * scale + scale) by (nonlinear_arith);
        assert((gy as int + 1) * scale == gy as int * scale + scale) by (nonlinear_arith);
        assert((gz as int + 1) * scale == gz as int * scale + scale) by (nonlinear_arith);
    }
    let ux = p1.0 - p0.0;
    let uy = p1.1 - p0.1;
    let uz = p1.2 - p0.2;
    let vx = p2.0 - p0.0;
    let vy = p2.1 - p0.1;
    let vz = p2.2 - p0.2;
    proof {
        lemma_prod_bound(uy as int, vz as int, scale);
        lemma_prod_bound(uz as int, vy as int, scale);
        lemma_prod_bound(uz as int, vx as int, scale);
        lemma_prod_bound(ux as int, vz as int, scale);
        lemma_prod_bound(ux as int, vy as int, scale);
        lemma_prod_bound(uy as int, vx as int, scale);
    }
    let nx = uy * vz - uz * vy;
    let ny = uz * vx - ux * vz;
    let nz = ux * vy - uy * vx;
    verts.push(p0.0);
    verts.push(p0.1);
    verts.push(p0.2);
    verts.push(p1.0);
    verts.push(p1.1);
    verts.push(p1.2);
    verts.push(p2.0);
    verts.push(p2.1);
    verts.push(p2.2);
    norms.push(nx);
    norms.push(ny);
    norms.push(nz);
    norms.push(nx);
    norms.push(ny);
    norms.push(nz);
    norms.push(nx);
    norms.push(ny);
    norms.push(nz);
    proof {
        assert(verts@ =~= old(verts)@
            + spec_tri_verts(*f, gx as int, gy as int, gz as int, scale, iso, c, ti as int));
        assert(norms@ =~= old(norms)@
            + spec_tri_norms(*f, gx as int, gy as int, gz as int, scale, iso, c, ti as int));
    }
}

/// Emits every triangle of one cell, appending nine vertex coordinates and
/// nine normal coordinates per triangle.
#[verifier::rlimit(100)]
fn emit_cell(
    f: &ScalarField, gx: usize, gy: usize, gz: usize, scale: i64, iso: i64,
    verts: &mut Vec<i64>, norms: &mut Vec<i64>,
)
    requires
        f.wf(),
        gx + 1 < f.d0,
        gy + 1 < f.d1,
        gz + 1 < f.d2,
        0 < scale <= SCALE_MAX,
        -SAMPLE_MAX <= iso <= SAMPLE_MAX,
    ensures
        final(verts)@ == old(verts)@
            + spec_cell_verts(*f, gx as int, gy as int, gz as int, scale, iso),
        final(norms)@ == old(norms)@
            + spec_cell_norms(*f, gx as int, gy as int, gz as int, scale, iso),
{
    let config = classify_cell(f, gx, gy, gz, iso);
    let ghost c: int = config as int;
    let ghost vbase: int = verts@.len() as int;
    let ghost nbase: int = norms@.len() as int;
    let mut ti: usize = 0;
    let mut done: bool = false;
    while ti < 5 && !done
        invariant
            f.wf(),
            gx + 1 < f.d0,
            gy + 1 < f.d1,
            gz + 1 < f.d2,
            0 < scale <= SCALE_MAX,
            -SAMPLE_MAX <= iso <= SAMPLE_MAX,
            c == spec_config(*f, gx as int, gy as int, gz as int, iso),
            config as int == c,
            0 <= ti <= 5,
            vbase == old(verts)@.len(),
            nbase == old(norms)@.len(),
            verts@.len() >= vbase,
            norms@.len() >= nbase,
            verts@.subrange(0, vbase) == old(verts)@,
            norms@.subrange(0, nbase) == old(norms)@,
            spec_cell_verts_from(*f, gx as int, gy as int, gz as int, scale, iso, c, 0)
                == verts@.subrange(vbase, verts@.len() as int)
                    + spec_cell_verts_from(*f, gx as int, gy as int, gz as int, scale, iso, c, ti as int),
            spec_cell_norms_from(*f, gx as int, gy as int, gz as int, scale, iso, c, 0)
                == norms@.subrange(nbase, norms@.len() as int)
                    + spec_cell_norms_from(*f, gx as int, gy as int, gz as int, scale, iso, c, ti as int),
            done ==> spec_cell_verts_from(*f, gx as int, gy as int, gz as int, scale, iso, c, ti as int)
                == Seq::<i64>::empty(),
            done ==> spec_cell_norms_from(*f, gx as int, gy as int, gz as int, scale, iso, c, ti as int)
                == Seq::<i64>::empty(),
        decreases 5 - ti + (if done { 0int } else { 1int }),
    {
        let nib = tri_table_at(config, 3 * ti);
        if nib >= 12 {
            proof {
                assert(!spec_tri_is_edge(c, 3 * ti as int));
            }
            done = true;
        } else {
            let ghost vprev: Seq<i64> = verts@;
            let ghost nprev: Seq<i64> = norms@;
            emit_triangle(f, gx, gy, gz, scale, iso, config, ti, verts, norms);
            proof {
                assert(spec_tri_is_edge(c, 3 * ti as int));
                assert(spec_cell_verts_from(*f, gx as int, gy as int, gz as int, scale, iso, c, ti as int)
                    == spec_tri_verts(*f, gx as int, gy as int, gz as int, scale, iso, c, ti as int)
                        + spec_cell_verts_from(*f, gx as int, gy as int, gz as int, scale, iso, c, ti as int + 1));
                assert(spec_cell_norms_from(*f, gx as int, gy as int, gz as int, scale, iso, c, ti as int)
                    == spec_tri_norms(*f, gx as int, gy as int, gz as int, scale, iso, c, ti as int)
                        + spec_cell_norms_from(*f, gx as int, gy as int, gz as int, scale, iso, c, ti as int + 1));
                assert(verts@.subrange(0, vbase) =~= old(verts)@);
                assert(norms@.subrange(0, nbase) =~= old(norms)@);
                assert(verts@.subrange(vbase, verts@.len() as int)
                    =~= vprev.subrange(vbase, vprev.len() as int)
                        + spec_tri_verts(*f, gx as int, gy as int, gz as int, scale, iso, c, ti as int));
                assert(norms@.subrange(nbase, norms@.len() as int)
                    =~= nprev.subrange(nbase, nprev.len() as int)
                        + spec_tri_norms(*f, gx as int, gy as int, gz as int, scale, iso, c, ti as int));
                assert(spec_cell_verts_from(*f, gx as int, gy as int, gz as int, scale, iso, c, 0)
                    =~= verts@.subrange(vbase, verts@.len() as int)
                        + spec_cell_verts_from(*f, gx as int, gy as int, gz as int, scale, iso, c, ti as int + 1));
                assert(spec_cell_norms_from(*f, gx as int, gy as int, gz as int, scale, iso, c, 0)
                    =~= norms@.subrange(nbase, norms@.len() as int)
                        + spec_cell_norms_from(*f, gx as int, gy as int, gz as int, scale, iso, c, ti as int + 1));
            }
            ti = ti + 1;
        }
    }
    proof {
        assert(spec_cell_verts_from(*f, gx as int, gy as int, gz as int, scale, iso, c, ti as int)
            == Seq::<i64>::empty());
        assert(spec_cell_norms_from(*f, gx as int, gy as int, gz as int, scale, iso, c, ti as int)
            == Seq::<i64>::empty());
        assert(verts@ =~= old(verts)@
            + spec_cell_verts(*f, gx as int, gy as int, gz as int, scale, iso));
        assert(norms@ =~= old(norms)@
            + spec_cell_norms(*f, gx as int, gy as int, gz as int, scale, iso));
    }
}


/// A cell contributes the same number of vertex and normal coordinates: nine
/// per triangle, at most five triangles.
proof fn lemma_cell_lens(
    f: ScalarField, gx: int, gy: int, gz: int, scale: i64, iso: i64, c: int, ti: int,
)
    requires
        0 <= ti <= 5,
    ensures
        spec_cell_verts_from(f, gx, gy, gz, scale, iso, c, ti).len()
            == spec_cell_norms_from(f, gx, gy, gz, scale, iso, c, ti).len(),
        spec_cell_verts_from(f, gx, gy, gz, scale, iso, c, ti).len() % 3 == 0,
        spec_cell_verts_from(f, gx, gy, gz, scale, iso, c, ti).len() <= 9 * (5 - ti),
    decreases 5 - ti,
{
    if ti < 5 && spec_tri_is_edge(c, 3 * ti) {
        lemma_cell_lens(f, gx, gy, gz, scale, iso, c, ti + 1);
    }
}

/// Vertex coordinates of one row of cells along `z`: cells
/// `(gx, gy, oz) .. (gx, gy, oz + n)`, in increasing `z` order.
pub open spec fn spec_row_verts(
    f: ScalarField, scale: i64, iso: i64, gx: int, gy: int, oz: int, n: int,
) -> Seq<i64>
    decreases n,
{
    if n <= 0 {
        Seq::empty()
    } else {
        spec_row_verts(f, scale, iso, gx, gy, oz, n - 1)
            + spec_cell_verts(f, gx, gy, oz + (n - 1), scale, iso)
    }
}

/// Normal coordinates of one row of cells along `z`.
pub open spec fn spec_row_norms(
    f: ScalarField, scale: i64, iso: i64, gx: int, gy: int, oz: int, n: int,
) -> Seq<i64>
    decreases n,
{
    if n <= 0 {
        Seq::empty()
    } else {
        spec_row_norms(f, scale, iso, gx, gy, oz, n - 1)
            + spec_cell_norms(f, gx, gy, oz + (n - 1), scale, iso)
    }
}

/// Vertex coordinates of one plane of cells: rows `gy = oy .. oy + ny`, in
/// increasing `y` order.
pub open spec fn spec_plane_verts(
    f: ScalarField, scale: i64, iso: i64, gx: int, oy: int, oz: int, ny: int, nz: int,
) -> Seq<i64>
    decreases ny,
{
    if ny <= 0 {
        Seq::empty()
    } else {
        spec_plane_verts(f, scale, iso, gx, oy, oz, ny - 1, nz)
            + spec_row_verts(f, scale, iso, gx, oy + (ny - 1), oz, nz)
    }
}

/// Normal coordinates of one plane of cells.
pub open spec fn spec_plane_norms(
    f: ScalarField, scale: i64, iso: i64, gx: int, oy: int, oz: int, ny: int, nz: int,
) -> Seq<i64>
    decreases ny,
{
    if ny <= 0 {
        Seq::empty()
    } else {
        spec_plane_norms(f, scale, iso, gx, oy, oz, ny - 1, nz)
            + spec_row_norms(f, scale, iso, gx, oy + (ny - 1), oz, nz)
    }
}

/// Vertex coordinates of a whole chunk: planes `gx = ox .. ox + nx`, in
/// increasing `x` order. This is the full functional description of what
/// extraction emits for the sub-volume.
pub open spec fn spec_chunk_verts(
    f: ScalarField, scale: i64, iso: i64, ox: int, oy: int, oz: int, nx: int, ny: int, nz: int,
) -> Seq<i64>
    decreases nx,
{
    if nx <= 0 {
        Seq::empty()
    } else {
        spec_chunk_verts(f, scale, iso, ox, oy, oz, nx - 1, ny, nz)
            + spec_plane_verts(f, scale, iso, ox + (nx - 1), oy, oz, ny, nz)
    }
}

/// Normal coordinates of a whole chunk.
pub open spec fn spec_chunk_norms(
    f: ScalarField, scale: i64, iso: i64, ox: int, oy: int, oz: int, nx: int, ny: int, nz: int,
) -> Seq<i64>
    decreases nx,
{
    if nx <= 0 {
        Seq::empty()
    } else {
        spec_chunk_norms(f, scale, iso, ox, oy, oz, nx - 1, ny, nz)
            + spec_plane_norms(f, scale, iso, ox + (nx - 1), oy, oz, ny, nz)
    }
}

/// Row sequences stay parallel and bounded: at most 45 coordinates per cell.
proof fn lemma_row_lens(f: ScalarField, scale: i64, iso: i64, gx: int, gy: int, oz: int, n: int)
    requires
        n >= 0,
    ensures
        spec_row_verts(f, scale, iso, gx, gy, oz, n).len()
            == spec_row_norms(f, scale, iso, gx, gy, oz, n).len(),
        spec_row_verts(f, scale, iso, gx, gy, oz, n).len() % 3 == 0,
        spec_row_verts(f, scale, iso, gx, gy, oz, n).len() <= 45 * n,
    decreases n,
{
    if n > 0 {
        lemma_row_lens(f, scale, iso, gx, gy, oz, n - 1);
        lemma_cell_lens(f, gx, gy, oz + (n - 1), scale, iso,
            spec_config(f, gx, gy, oz + (n - 1), iso), 0);
    }
}

/// Plane sequences stay parallel and bounded.
#[verifier::rlimit(100)]
proof fn lemma_plane_lens(
    f: ScalarField, scale: i64, iso: i64, gx: int, oy: int, oz: int, ny: int, nz: int,
)
    requires
        ny >= 0,
        nz >= 0,
    ensures
        spec_plane_verts(f, scale, iso, gx, oy, oz, ny, nz).len()
            == spec_plane_norms(f, scale, iso, gx, oy, oz, ny, nz).len(),
        spec_plane_verts(f, scale, iso, gx, oy, oz, ny, nz).len() % 3 == 0,
        spec_plane_verts(f, scale, iso, gx, oy, oz, ny, nz).len() <= 45 * ny * nz,
    decreases ny,
{
    if ny > 0 {
        lemma_plane_lens(f, scale, iso, gx, oy, oz, ny - 1, nz);
        lemma_row_lens(f, scale, iso, gx, oy + (ny - 1), oz, nz);
        assert(45 * (ny - 1) * nz + 45 * nz == 45 * ny * nz) by (nonlinear_arith);
    }
}

/// Chunk sequences stay parallel and bounded.
#[verifier::rlimit(100)]
proof fn lemma_chunk_lens(
    f: ScalarField, scale: i64, iso: i64, ox: int, oy: int, oz: int, nx: int, ny: int, nz: int,
)
    requires
        nx >= 0,
        ny >= 0,
        nz >= 0,
    ensures
        spec_chunk_verts(f, scale, iso, ox, oy, oz, nx, ny, nz).len()
            == spec_chunk_norms(f, scale, iso, ox, oy, oz, nx, ny, nz).len(),
        spec_chunk_verts(f, scale, iso, ox, oy, oz, nx, ny, nz).len() % 3 == 0,
        spec_chunk_verts(f, scale, iso, ox, oy, oz, nx, ny, nz).len() <= 45 * nx * ny * nz,
    decreases nx,
{
    if nx > 0 {
        lemma_chunk_lens(f, scale, iso, ox, oy, oz, nx - 1, ny, nz);
        lemma_plane_lens(f, scale, iso, ox + (nx - 1), oy, oz, ny, nz);
        assert(45 * (nx - 1) * ny * nz + 45 * ny * nz == 45 * nx * ny * nz) by (nonlinear_arith);
        assert(spec_chunk_verts(f, scale, iso, ox, oy, oz, nx - 1, ny, nz).len()
            <= 45 * (nx - 1) * ny * nz) by {
            assert(45 * (nx - 1) * ny * nz == (45 * (nx - 1)) * ny * nz) by (nonlinear_arith);
        }
    }
}

/// Everything extraction promises of the mesh it returns for a sub-volume:
/// the vertex and normal sequences are exactly the chunk sequences, and the
/// index sequence counts the vertices off in order (no cross-cell vertex
/// sharing).
pub open spec fn spec_region_post(
    m: Mesh, f: ScalarField, ox: int, oy: int, oz: int, nx: int, ny: int, nz: int,
    scale: i64, iso: i64,
) -> bool {
    &&& m.wf()
    &&& m.vertices@ == spec_chunk_verts(f, scale, iso, ox, oy, oz, nx, ny, nz)
    &&& m.normals@ == spec_chunk_norms(f, scale, iso, ox, oy, oz, nx, ny, nz)
    &&& m.indices@ == Seq::new(m.vertices@.len() / 3, |i: int| i as u32)
    &&& m.index_count == m.vertices@.len() as int / 3
}

/// Extracts the isosurface of one sub-volume of the field: every unit cell
/// with its lowest corner in `origin .. origin + extent` is classified and
/// triangulated. The caller guarantees that the sub-volume, corners
/// included, lies inside the field; an extent that would touch samples past
/// the field's bounds is a configuration error and is ruled out here rather
/// than clamped.
#[verifier::rlimit(100)]
pub fn extract_region(
    field: &ScalarField, origin: (usize, usize, usize), extent: (usize, usize, usize),
    scale: i64, isovalue: i64,
) -> (m: Mesh)
    requires
        field.wf(),
        0 < scale <= SCALE_MAX,
        -SAMPLE_MAX <= isovalue <= SAMPLE_MAX,
        origin.0 + extent.0 < field.d0,
        origin.1 + extent.1 < field.d1,
        origin.2 + extent.2 < field.d2,
        extent.0 * extent.1 * extent.2 <= 0x100000,
    ensures
        spec_region_post(
            m, *field, origin.0 as int, origin.1 as int, origin.2 as int,
            extent.0 as int, extent.1 as int, extent.2 as int, scale, isovalue,
        ),
{
    let (ox, oy, oz) = origin;
    let (ex, ey, ez) = extent;
    let mut verts: Vec<i64> = Vec::new();
    let mut norms: Vec<i64> = Vec::new();
    let mut cx: usize = 0;
    while cx < ex
        invariant
            field.wf(),
            0 < scale <= SCALE_MAX,
            -SAMPLE_MAX <= isovalue <= SAMPLE_MAX,
            ox + ex < field.d0,
            oy + ey < field.d1,
            oz + ez < field.d2,
            0 <= cx <= ex,
            verts@ == spec_chunk_verts(*field, scale, isovalue,
                ox as int, oy as int, oz as int, cx as int, ey as int, ez as int),
            norms@ == spec_chunk_norms(*field, scale, isovalue,
                ox as int, oy as int, oz as int, cx as int, ey as int, ez as int),
        decreases ex - cx,
    {
        let mut cy: usize = 0;
        while cy < ey
            invariant
                field.wf(),
                0 < scale <= SCALE_MAX,
                -SAMPLE_MAX <= isovalue <= SAMPLE_MAX,
                ox + ex < field.d0,
                oy + ey < field.d1,
                oz + ez < field.d2,
                0 <= cx < ex,
                0 <= cy <= ey,
                verts@ == spec_chunk_verts(*field, scale, isovalue,
                        ox as int, oy as int, oz as int, cx as int, ey as int, ez as int)
                    + spec_plane_verts(*field, scale, isovalue,
                        ox as int + cx as int, oy as int, oz as int, cy as int, ez as int),
                norms@ == spec_chunk_norms(*field, scale, isovalue,
                        ox as int, oy as int, oz as int, cx as int, ey as int, ez as int)
                    + spec_plane_norms(*field, scale, isovalue,
                        ox as int + cx as int, oy as int, oz as int, cy as int, ez as int),
            decreases ey - cy,
        {
            let mut cz: usize = 0;
            while cz < ez
                invariant
                    field.wf(),
                    0 < scale <= SCALE_MAX,
                    -SAMPLE_MAX <= isovalue <= SAMPLE_MAX,
                    ox + ex < field.d0,
                    oy + ey < field.d1,
                    oz + ez < field.d2,
                    0 <= cx < ex,
                    0 <= cy < ey,
                    0 <= cz <= ez,
                    verts@ == spec_chunk_verts(*field, scale, isovalue,
                            ox as int, oy as int, oz as int, cx as int, ey as int, ez as int)
                        + spec_plane_verts(*field, scale, isovalue,
                            ox as int + cx as int, oy as int, oz as int, cy as int, ez as int)
                        + spec_row_verts(*field, scale, isovalue,
                            ox as int + cx as int, oy as int + cy as int, oz as int, cz as int),
                    norms@ == spec_chunk_norms(*field, scale, isovalue,
                            ox as int, oy as int, oz as int, cx as int, ey as int, ez as int)
                        + spec_plane_norms(*field, scale, isovalue,
                            ox as int + cx as int, oy as int, oz as int, cy as int, ez as int)
                        + spec_row_norms(*field, scale, isovalue,
                            ox as int + cx as int, oy as int + cy as int, oz as int, cz as int),
                decreases ez - cz,
            {
                emit_cell(field, ox + cx, oy + cy, oz + cz, scale, isovalue,
                    &mut verts, &mut norms);
                cz = cz + 1;
            }
            cy = cy + 1;
        }
        cx = cx + 1;
    }
    proof {
        lemma_chunk_lens(*field, scale, isovalue, ox as int, oy as int, oz as int,
            ex as int, ey as int, ez as int);
        assert(45 * ex * ey * ez <= 45 * 0x100000) by (nonlinear_arith)
            requires 0 <= ex && 0 <= ey && 0 <= ez && ex * ey * ez <= 0x100000;
    }
    let nverts: usize = verts.len();
    let tri_verts: usize = nverts / 3;
    let mut indices: Vec<u32> = Vec::new();
    let mut i: usize = 0;
    while i < tri_verts
        invariant
            i <= tri_verts,
            tri_verts <= 0x4000000,
            indices@ == Seq::new(i as nat, |j: int| j as u32),
        decreases tri_verts - i,
    {
        indices.push(i as u32);
        proof {
            assert(indices@ =~= Seq::new((i + 1) as nat, |j: int| j as u32));
        }
        i = i + 1;
    }
    let index_count: usize = indices.len();
    let m = Mesh { vertices: verts, normals: norms, indices, index_count };
    proof {
        assert(m.indices@.len() * 3 == m.vertices@.len());
        assert forall|j: int| 0 <= j < m.indices@.len()
            implies (#[trigger] m.indices@[j]) as int * 3 < m.vertices@.len() by {
            assert(m.indices@[j] == j as u32);
        }
    }
    m
}


/// Cell count of a chunk along each axis.
pub const CHUNK_EXTENT: usize = 16;

/// Whether a chunk with this origin fits inside the field, its outermost
/// corner samples included.
pub open spec fn spec_chunk_in_bounds(f: ScalarField, c: (usize, usize, usize)) -> bool {
    &&& c.0 + CHUNK_EXTENT < f.d0
    &&& c.1 + CHUNK_EXTENT < f.d1
    &&& c.2 + CHUNK_EXTENT < f.d2
}

/// Extracts the isosurface of the fixed-size chunk at `origin`: the
/// triangulated crossing of `isovalue` through every cell of a
/// `CHUNK_EXTENT`-sized cube of the field, in world units of `scale` per
/// cell. The mesh is a pure function of the arguments; nothing else flows
/// in, so repeated calls reproduce it bit for bit.
pub fn marching_cubes(
    origin: (usize, usize, usize), scale: i64, field: &ScalarField, isovalue: i64,
) -> (m: Mesh)
    requires
        field.wf(),
        0 < scale <= SCALE_MAX,
        -SAMPLE_MAX <= isovalue <= SAMPLE_MAX,
        spec_chunk_in_bounds(*field, origin),
    ensures
        spec_region_post(
            m, *field, origin.0 as int, origin.1 as int, origin.2 as int,
            CHUNK_EXTENT as int, CHUNK_EXTENT as int, CHUNK_EXTENT as int, scale, isovalue,
        ),
{
    extract_region(field, origin, (CHUNK_EXTENT, CHUNK_EXTENT, CHUNK_EXTENT), scale, isovalue)
}

/// Extracts every chunk named in `coords`, returning the meshes in the same
/// order as the origins that produced them.
pub fn extract_chunks(
    field: &ScalarField, coords: &Vec<(usize, usize, usize)>, scale: i64, isovalue: i64,
) -> (out: Vec<Mesh>)
    requires
        field.wf(),
        0 < scale <= SCALE_MAX,
        -SAMPLE_MAX <= isovalue <= SAMPLE_MAX,
        forall|i: int|
            0 <= i < coords@.len() ==> spec_chunk_in_bounds(*field, #[trigger] coords@[i]),
    ensures
        out@.len() == coords@.len(),
        forall|i: int|
            0 <= i < out@.len() ==> spec_region_post(
                #[trigger] out@[i], *field,
                coords@[i].0 as int, coords@[i].1 as int, coords@[i].2 as int,
                CHUNK_EXTENT as int, CHUNK_EXTENT as int, CHUNK_EXTENT as int, scale, isovalue,
            ),
{
    let mut out: Vec<Mesh> = Vec::new();
    let mut i: usize = 0;
    while i < coords.len()
        invariant
            field.wf(),
            0 < scale <= SCALE_MAX,
            -SAMPLE_MAX <= isovalue <= SAMPLE_MAX,
            forall|j: int|
                0 <= j < coords@.len() ==> spec_chunk_in_bounds(*field, #[trigger] coords@[j]),
            i <= coords@.len(),
            out@.len() == i,
            forall|j: int|
                0 <= j < i ==> spec_region_post(
                    #[trigger] out@[j], *field,
                    coords@[j].0 as int, coords@[j].1 as int, coords@[j].2 as int,
                    CHUNK_EXTENT as int, CHUNK_EXTENT as int, CHUNK_EXTENT as int,
                    scale, isovalue,
                ),
        decreases coords@.len() - i,
    {
        let c = coords[i];
        out.push(marching_cubes(c, scale, field, isovalue));
        i = i + 1;
    }
    out
}

/// Extracts every chunk named in `coords` across a thread pool; chunks are
/// independent and the field is only read, so the work is a stateless
/// parallel map. The meshes come back in the order of `coords`, whatever
/// order the chunks finish in.
///
/// Relies on rayon: `par_iter` over a slice yields its elements in index
/// order as an indexed parallel iterator, and
/// `IndexedParallelIterator::collect_into_vec` stores each mapped result at
/// its input's index, as its documentation and examples state.
#[verifier::external_body]
pub fn extract_chunks_par(
    field: &ScalarField, coords: &Vec<(usize, usize, usize)>, scale: i64, isovalue: i64,
) -> (out: Vec<Mesh>)
    requires
        field.wf(),
        0 < scale <= SCALE_MAX,
        -SAMPLE_MAX <= isovalue <= SAMPLE_MAX,
        forall|i: int|
            0 <= i < coords@.len() ==> spec_chunk_in_bounds(*field, #[trigger] coords@[i]),
    ensures
        out@.len() == coords@.len(),
        forall|i: int|
            0 <= i < out@.len() ==> spec_region_post(
                #[trigger] out@[i], *field,
                coords@[i].0 as int, coords@[i].1 as int, coords@[i].2 as int,
                CHUNK_EXTENT as int, CHUNK_EXTENT as int, CHUNK_EXTENT as int, scale, isovalue,
            ),
{
    let mut out: Vec<Mesh> = Vec::new();
    coords
        .par_iter()
        .map(|c| marching_cubes(*c, scale, field, isovalue))
        .collect_into_vec(&mut out);
    out
}

/// Origins of an `n × n × n` grid of chunks tiling the domain, in the
/// scheduler's canonical order: the linear index runs over `x`, then `y`,
/// then `z` fastest.
pub fn chunk_grid(n: usize) -> (coords: Vec<(usize, usize, usize)>)
    requires
        n <= 64,
    ensures
        coords@.len() == n * n * n,
        forall|i: int| 0 <= i < coords@.len() ==> #[trigger] coords@[i]
            == (((i / (n * n) as int) * 16) as usize,
                (((i / n as int) % n as int) * 16) as usize,
                ((i % n as int) * 16) as usize),
{
    proof {
        assert(n * n <= 4096 && n * n * n <= 262144) by (nonlinear_arith)
            requires 0 <= n <= 64;
        assert((n * n) * n == n * n * n) by (nonlinear_arith);
    }
    let n2: usize = n * n;
    let n3: usize = n2 * n;
    let mut coords: Vec<(usize, usize, usize)> = Vec::new();
    let mut i: usize = 0;
    while i < n3
        invariant
            n <= 64,
            n2 == n * n,
            n3 == n * n * n,
            n3 <= 262144,
            i <= n3,
            coords@.len() == i,
            forall|j: int| 0 <= j < i ==> #[trigger] coords@[j]
                == (((j / (n * n) as int) * 16) as usize,
                    (((j / n as int) % n as int) * 16) as usize,
                    ((j % n as int) * 16) as usize),
        decreases n3 - i,
    {
        let ghost ii: int = i as int;
        let ghost nn: int = n as int;
        proof {
            assert(1 <= nn) by (nonlinear_arith)
                requires 0 <= ii && ii < nn * nn * nn && 0 <= nn;
            assert(ii / (nn * nn) < nn && (ii / nn) % nn < nn) by (nonlinear_arith)
                requires 0 <= ii && ii < nn * nn * nn && 1 <= nn;
        }
        let cx: usize = i / n2;
        let cy: usize = (i / n) % n;
        let cz: usize = i % n;
        coords.push((16 * cx, 16 * cy, 16 * cz));
        i = i + 1;
    }
    coords
}

} // verus!
