//! Global guarantees of the extractor, stated once over the chunk
//! specification: determinism, silence on uniform volumes, and the winding
//! convention on a flat horizontal cut.

use vstd::prelude::*;
use crate::SCALE_MAX;
use crate::field::{ScalarField, lemma_dims_product_bounds, lemma_flat_index_in_range};
use crate::mesh::Mesh;
use crate::tables::TRI_ROWS;
use crate::extract::{
    spec_config, spec_cell_verts, spec_cell_norms, spec_cell_verts_from,
    spec_row_verts, spec_row_norms, spec_plane_verts, spec_plane_norms,
    spec_chunk_verts, spec_chunk_norms, spec_region_post, spec_tri_normal, spec_tri_verts, spec_edge_at,
};

verus! {

/// Extraction is deterministic: two meshes that satisfy the extraction
/// contract for the same field, origin, extent, scale and isovalue are
/// identical in every component. Running the extractor twice on the same
/// inputs therefore reproduces its output bit for bit.
pub proof fn lemma_extraction_deterministic(
    m1: Mesh, m2: Mesh, f: ScalarField, ox: int, oy: int, oz: int, nx: int, ny: int, nz: int,
    scale: i64, iso: i64,
)
    requires
        spec_region_post(m1, f, ox, oy, oz, nx, ny, nz, scale, iso),
        spec_region_post(m2, f, ox, oy, oz, nx, ny, nz, scale, iso),
    ensures
        m1.vertices@ == m2.vertices@,
        m1.normals@ == m2.normals@,
        m1.indices@ == m2.indices@,
        m1.index_count == m2.index_count,
{
}

/// A cell whose corners are all on one side of the isovalue — configuration
/// 0 (all below) or 255 (all on or above) — emits no geometry: its
/// triangulation row is empty.
pub proof fn lemma_trivial_cell_empty(
    f: ScalarField, gx: int, gy: int, gz: int, scale: i64, iso: i64,
)
    requires
        spec_config(f, gx, gy, gz, iso) == 0 || spec_config(f, gx, gy, gz, iso) == 255,
    ensures
        spec_cell_verts(f, gx, gy, gz, scale, iso) == Seq::<i64>::empty(),
        spec_cell_norms(f, gx, gy, gz, scale, iso) == Seq::<i64>::empty(),
{
    assert(TRI_ROWS[0] == 0xffffffffffffffffu64);
    assert(TRI_ROWS[255] == 0xffffffffffffffffu64);
    assert((0xffffffffffffffffu64 >> 0u64) & 0xF == 0xF) by (bit_vector);
}

/// Whether every sample of the field lies on one side of the isovalue.
pub open spec fn spec_uniform_side(f: ScalarField, iso: i64) -> bool {
    ||| forall|i: int| 0 <= i < f.data@.len() ==> #[trigger] f.data@[i] >= iso
    ||| forall|i: int| 0 <= i < f.data@.len() ==> #[trigger] f.data@[i] < iso
}

/// In a field uniformly on one side of the isovalue, every in-range cell is
/// trivial.
proof fn lemma_uniform_cell_trivial(f: ScalarField, gx: int, gy: int, gz: int, iso: i64)
    requires
        f.wf(),
        spec_uniform_side(f, iso),
        0 <= gx && gx + 1 < f.d0,
        0 <= gy && gy + 1 < f.d1,
        0 <= gz && gz + 1 < f.d2,
    ensures
        spec_config(f, gx, gy, gz, iso) == 0 || spec_config(f, gx, gy, gz, iso) == 255,
{
    let d0 = f.d0 as int;
    let d1 = f.d1 as int;
    let d2 = f.d2 as int;
    lemma_dims_product_bounds(d0, d1, d2);
    lemma_flat_index_in_range(d0, d1, d2, gx, gy, gz);
    lemma_flat_index_in_range(d0, d1, d2, gx + 1, gy, gz);
    lemma_flat_index_in_range(d0, d1, d2, gx + 1, gy + 1, gz);
    lemma_flat_index_in_range(d0, d1, d2, gx, gy + 1, gz);
    lemma_flat_index_in_range(d0, d1, d2, gx, gy, gz + 1);
    lemma_flat_index_in_range(d0, d1, d2, gx + 1, gy, gz + 1);
    lemma_flat_index_in_range(d0, d1, d2, gx + 1, gy + 1, gz + 1);
    lemma_flat_index_in_range(d0, d1, d2, gx, gy + 1, gz + 1);
}

/// Rows of trivial cells emit nothing.
proof fn lemma_uniform_row_empty(
    f: ScalarField, scale: i64, iso: i64, gx: int, gy: int, oz: int, n: int,
)
    requires
        f.wf(),
        spec_uniform_side(f, iso),
        0 <= gx && gx + 1 < f.d0,
        0 <= gy && gy + 1 < f.d1,
        0 <= oz && oz + n < f.d2,
        n >= 0,
    ensures
        spec_row_verts(f, scale, iso, gx, gy, oz, n) == Seq::<i64>::empty(),
        spec_row_norms(f, scale, iso, gx, gy, oz, n) == Seq::<i64>::empty(),
    decreases n,
{
    if n > 0 {
        lemma_uniform_row_empty(f, scale, iso, gx, gy, oz, n - 1);
        lemma_uniform_cell_trivial(f, gx, gy, oz + (n - 1), iso);
        lemma_trivial_cell_empty(f, gx, gy, oz + (n - 1), scale, iso);
        assert(spec_row_verts(f, scale, iso, gx, gy, oz, n)
            =~= Seq::<i64>::empty());
        assert(spec_row_norms(f, scale, iso, gx, gy, oz, n)
            =~= Seq::<i64>::empty());
    }
}

/// Planes of trivial cells emit nothing.
proof fn lemma_uniform_plane_empty(
    f: ScalarField, scale: i64, iso: i64, gx: int, oy: int, oz: int, ny: int, nz: int,
)
    requires
        f.wf(),
        spec_uniform_side(f, iso),
        0 <= gx && gx + 1 < f.d0,
        0 <= oy && oy + ny < f.d1,
        0 <= oz && oz + nz < f.d2,
        ny >= 0,
        nz >= 0,
    ensures
        spec_plane_verts(f, scale, iso, gx, oy, oz, ny, nz) == Seq::<i64>::empty(),
        spec_plane_norms(f, scale, iso, gx, oy, oz, ny, nz) == Seq::<i64>::empty(),
    decreases ny,
{
    if ny > 0 {
        lemma_uniform_plane_empty(f, scale, iso, gx, oy, oz, ny - 1, nz);
        lemma_uniform_row_empty(f, scale, iso, gx, oy + (ny - 1), oz, nz);
        assert(spec_plane_verts(f, scale, iso, gx, oy, oz, ny, nz) =~= Seq::<i64>::empty());
        assert(spec_plane_norms(f, scale, iso, gx, oy, oz, ny, nz) =~= Seq::<i64>::empty());
    }
}

/// A chunk of a field that lies wholly on one side of the isovalue emits no
/// geometry at all: every cell is configuration 0 or 255, and both rows of
/// the triangulation table are empty.
pub proof fn lemma_uniform_chunk_empty(
    f: ScalarField, scale: i64, iso: i64, ox: int, oy: int, oz: int, nx: int, ny: int, nz: int,
)
    requires
        f.wf(),
        spec_uniform_side(f, iso),
        0 <= ox && ox + nx < f.d0,
        0 <= oy && oy + ny < f.d1,
        0 <= oz && oz + nz < f.d2,
        nx >= 0,
        ny >= 0,
        nz >= 0,
    ensures
        spec_chunk_verts(f, scale, iso, ox, oy, oz, nx, ny, nz) == Seq::<i64>::empty(),
        spec_chunk_norms(f, scale, iso, ox, oy, oz, nx, ny, nz) == Seq::<i64>::empty(),
    decreases nx,
{
    if nx > 0 {
        lemma_uniform_chunk_empty(f, scale, iso, ox, oy, oz, nx - 1, ny, nz);
        lemma_uniform_plane_empty(f, scale, iso, ox + (nx - 1), oy, oz, ny, nz);
        assert(spec_chunk_verts(f, scale, iso, ox, oy, oz, nx, ny, nz) =~= Seq::<i64>::empty());
        assert(spec_chunk_norms(f, scale, iso, ox, oy, oz, nx, ny, nz) =~= Seq::<i64>::empty());
    }
}

/// The winding convention, shown on the flat horizontal cut: a cell whose
/// four upper corners are on or above the isovalue and whose four lower
/// corners are below it (configuration 240) emits exactly two triangles, and
/// both of their normals have `z` component `scale * scale`, pointing up
/// toward the corners on or above the isovalue.
#[verifier::rlimit(100)]
pub proof fn lemma_flat_cell_winding(
    f: ScalarField, gx: int, gy: int, gz: int, scale: i64, iso: i64,
)
    requires
        0 < scale <= SCALE_MAX,
        spec_config(f, gx, gy, gz, iso) == 240,
    ensures
        spec_cell_verts(f, gx, gy, gz, scale, iso).len() == 18,
        spec_tri_normal(f, gx, gy, gz, scale, iso, 240, 0)[2] == scale * scale,
        spec_tri_normal(f, gx, gy, gz, scale, iso, 240, 1)[2] == scale * scale,
        scale * scale > 0,
{
    assert(TRI_ROWS[240] == 0xffffffffff8ba8a9u64);
    assert((0xffffffffff8ba8a9u64 >> 0u64) & 0xF == 9
        && (0xffffffffff8ba8a9u64 >> 4u64) & 0xF == 10
        && (0xffffffffff8ba8a9u64 >> 8u64) & 0xF == 8
        && (0xffffffffff8ba8a9u64 >> 12u64) & 0xF == 10
        && (0xffffffffff8ba8a9u64 >> 16u64) & 0xF == 11
        && (0xffffffffff8ba8a9u64 >> 20u64) & 0xF == 8
        && (0xffffffffff8ba8a9u64 >> 24u64) & 0xF == 0xF) by (bit_vector);
    assert(spec_edge_at(240, 0) == 9);
    assert(spec_edge_at(240, 1) == 10);
    assert(spec_edge_at(240, 2) == 8);
    assert(spec_edge_at(240, 3) == 10);
    assert(spec_edge_at(240, 4) == 11);
    assert(spec_edge_at(240, 5) == 8);
    assert(spec_cell_verts_from(f, gx, gy, gz, scale, iso, 240, 2) == Seq::<i64>::empty());
    assert(spec_cell_verts_from(f, gx, gy, gz, scale, iso, 240, 1)
        == spec_tri_verts(f, gx, gy, gz, scale, iso, 240, 1)
            + spec_cell_verts_from(f, gx, gy, gz, scale, iso, 240, 2));
    assert(spec_cell_verts_from(f, gx, gy, gz, scale, iso, 240, 0)
        == spec_tri_verts(f, gx, gy, gz, scale, iso, 240, 0)
            + spec_cell_verts_from(f, gx, gy, gz, scale, iso, 240, 1));
    assert(spec_tri_verts(f, gx, gy, gz, scale, iso, 240, 0).len() == 9);
    assert(spec_tri_verts(f, gx, gy, gz, scale, iso, 240, 1).len() == 9);
    assert(spec_cell_verts(f, gx, gy, gz, scale, iso).len() == 18);
    assert((gx + 1) * scale == gx * scale + scale) by (nonlinear_arith);
    assert((gy + 1) * scale == gy * scale + scale) by (nonlinear_arith);
    let s = scale as int;
    assert(0 * 0 - s * (-s) == s * s && (-s) * (-s) - 0 * (-s) == s * s && s * s > 0)
        by (nonlinear_arith)
        requires s > 0;
}


/// The mirror of the flat cut: a cell whose four lower corners are on or
/// above the isovalue and whose four upper corners are below it
/// (configuration 15) emits exactly two triangles whose normals have `z`
/// component `-(scale * scale)`, pointing down toward the corners on or
/// above the isovalue. Together with the upward case this pins the winding
/// convention on both orientations of the same cut.
#[verifier::rlimit(100)]
pub proof fn lemma_flat_cell_winding_down(
    f: ScalarField, gx: int, gy: int, gz: int, scale: i64, iso: i64,
)
    requires
        0 < scale <= SCALE_MAX,
        spec_config(f, gx, gy, gz, iso) == 15,
    ensures
        spec_cell_verts(f, gx, gy, gz, scale, iso).len() == 18,
        spec_tri_normal(f, gx, gy, gz, scale, iso, 15, 0)[2] == -(scale * scale),
        spec_tri_normal(f, gx, gy, gz, scale, iso, 15, 1)[2] == -(scale * scale),
        scale * scale > 0,
{
    assert(TRI_ROWS[15] == 0xffffffffffb8aa89u64);
    assert((0xffffffffffb8aa89u64 >> 0u64) & 0xF == 9
        && (0xffffffffffb8aa89u64 >> 4u64) & 0xF == 8
        && (0xffffffffffb8aa89u64 >> 8u64) & 0xF == 10
        && (0xffffffffffb8aa89u64 >> 12u64) & 0xF == 10
        && (0xffffffffffb8aa89u64 >> 16u64) & 0xF == 8
        && (0xffffffffffb8aa89u64 >> 20u64) & 0xF == 11
        && (0xffffffffffb8aa89u64 >> 24u64) & 0xF == 0xF) by (bit_vector);
    assert(spec_edge_at(15, 0) == 9);
    assert(spec_edge_at(15, 1) == 8);
    assert(spec_edge_at(15, 2) == 10);
    assert(spec_edge_at(15, 3) == 10);
    assert(spec_edge_at(15, 4) == 8);
    assert(spec_edge_at(15, 5) == 11);
    assert(spec_cell_verts_from(f, gx, gy, gz, scale, iso, 15, 2) == Seq::<i64>::empty());
    assert(spec_cell_verts_from(f, gx, gy, gz, scale, iso, 15, 1)
        == spec_tri_verts(f, gx, gy, gz, scale, iso, 15, 1)
            + spec_cell_verts_from(f, gx, gy, gz, scale, iso, 15, 2));
    assert(spec_cell_verts_from(f, gx, gy, gz, scale, iso, 15, 0)
        == spec_tri_verts(f, gx, gy, gz, scale, iso, 15, 0)
            + spec_cell_verts_from(f, gx, gy, gz, scale, iso, 15, 1));
    assert(spec_tri_verts(f, gx, gy, gz, scale, iso, 15, 0).len() == 9);
    assert(spec_tri_verts(f, gx, gy, gz, scale, iso, 15, 1).len() == 9);
    assert(spec_cell_verts(f, gx, gy, gz, scale, iso).len() == 18);
    assert((gx + 1) * scale == gx * scale + scale) by (nonlinear_arith);
    assert((gy + 1) * scale == gy * scale + scale) by (nonlinear_arith);
    let s = scale as int;
    assert((-s) * 0 - 0 * s == 0 - 0 && (-s) * s - (-s) * 0 == -(s * s)
        && (-s) * 0 - (-s) * (-s) == -(s * s) && s * s > 0) by (nonlinear_arith)
        requires s > 0;
}

} // verus!
