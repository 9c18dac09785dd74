use marching_cubes::{FP_HALF, FP_ONE};
use marching_cubes::extract::{
    chunk_grid, classify_cell, edge_point, extract_chunks, extract_chunks_par, extract_region,
    marching_cubes as extract_chunk,
};
use marching_cubes::field::ScalarField;
use marching_cubes::mesh::Mesh;
use marching_cubes::tables::{
    tri_table_at, CORNER_DX, CORNER_DY, CORNER_DZ, EDGE_HI, EDGE_LO,
};

fn constant_field(d: usize, value: i64) -> ScalarField {
    ScalarField::new(d, d, d, vec![value; d * d * d]).unwrap()
}

/// Lower-face/upper-face cell: sample is `upper` where k == 1, else `lower`.
fn two_layer_cell(lower: i64, upper: i64) -> ScalarField {
    let mut data = vec![0i64; 8];
    for i in 0..2 {
        for j in 0..2 {
            for k in 0..2 {
                data[i * 4 + j * 2 + k] = if k == 1 { upper } else { lower };
            }
        }
    }
    ScalarField::new(2, 2, 2, data).unwrap()
}

fn assert_empty(m: &Mesh) {
    assert_eq!(m.vertices.len(), 0);
    assert_eq!(m.normals.len(), 0);
    assert_eq!(m.indices.len(), 0);
    assert_eq!(m.index_count, 0);
}

#[test]
fn constant_field_above_isovalue_is_silent() {
    // A field of constant 1.0 with isovalue 0.4: every cell is configuration
    // 255 and no chunk emits geometry.
    let field = constant_field(17, FP_ONE);
    let iso = 26214; // 0.4
    let m = extract_chunk((0, 0, 0), FP_HALF, &field, iso);
    assert_empty(&m);
}

#[test]
fn constant_field_below_isovalue_is_silent() {
    let field = constant_field(17, 0);
    let m = extract_chunk((0, 0, 0), FP_HALF, &field, 26214);
    assert_empty(&m);
}

#[test]
fn classifier_matches_corner_numbering() {
    let all_in = constant_field(2, FP_ONE);
    assert_eq!(classify_cell(&all_in, 0, 0, 0, FP_HALF), 255);
    let all_out = constant_field(2, 0);
    assert_eq!(classify_cell(&all_out, 0, 0, 0, FP_HALF), 0);
    // Exactly the isovalue counts as inside.
    let exact = constant_field(2, FP_HALF);
    assert_eq!(classify_cell(&exact, 0, 0, 0, FP_HALF), 255);
    // Corner 0 is the cell origin; corner 6 is the opposite corner.
    for n in 0..8usize {
        let (dx, dy, dz) = (CORNER_DX[n], CORNER_DY[n], CORNER_DZ[n]);
        let mut data = vec![0i64; 8];
        data[dx * 4 + dy * 2 + dz] = FP_ONE;
        let field = ScalarField::new(2, 2, 2, data).unwrap();
        assert_eq!(classify_cell(&field, 0, 0, 0, FP_HALF), 1u8 << n);
    }
}

#[test]
fn flat_horizontal_cut_gives_one_quad_at_midplane() {
    // Lower face 0, upper face 1, isovalue one half: two triangles forming a
    // horizontal quad, all crossings at the vertical midpoint of the cell.
    let field = two_layer_cell(0, FP_ONE);
    let m = extract_region(&field, (0, 0, 0), (1, 1, 1), FP_ONE, FP_HALF);
    assert_eq!(m.vertices.len(), 18); // 2 triangles, 6 vertices
    assert_eq!(m.indices, (0u32..6).collect::<Vec<u32>>());
    assert_eq!(m.index_count, 6);
    let mut corners_seen = [false; 4];
    for v in 0..6 {
        let x = m.vertices[3 * v];
        let y = m.vertices[3 * v + 1];
        let z = m.vertices[3 * v + 2];
        assert_eq!(z, FP_HALF, "crossing not at the vertical midpoint");
        assert!(x == 0 || x == FP_ONE);
        assert!(y == 0 || y == FP_ONE);
        let c = (x != 0) as usize * 2 + (y != 0) as usize;
        corners_seen[c] = true;
    }
    assert_eq!(corners_seen, [true; 4], "quad does not span the cell");
    // Flat shading with upward normals: the side with samples >= isovalue is
    // the upper face, and the exact cross product is (0, 0, scale^2).
    for v in 0..6 {
        assert_eq!(m.normals[3 * v], 0);
        assert_eq!(m.normals[3 * v + 1], 0);
        assert_eq!(m.normals[3 * v + 2], FP_ONE * FP_ONE);
    }
}

#[test]
fn inverted_flat_cut_winds_downward() {
    // Lower face 1, upper face 0: the inside is now below, and both
    // triangle normals point down, with the same exact magnitude.
    let field = two_layer_cell(FP_ONE, 0);
    let m = extract_region(&field, (0, 0, 0), (1, 1, 1), FP_ONE, FP_HALF);
    assert_eq!(m.vertices.len(), 18);
    for v in 0..6 {
        assert_eq!(m.vertices[3 * v + 2], FP_HALF);
        assert_eq!(m.normals[3 * v], 0);
        assert_eq!(m.normals[3 * v + 1], 0);
        assert_eq!(m.normals[3 * v + 2], -(FP_ONE * FP_ONE));
    }
}

#[test]
fn flat_cut_interpolates_linearly() {
    // Lower face 0.25, upper face 0.75, isovalue 0.5: crossings at exactly
    // half a cell, by linear interpolation.
    let field = two_layer_cell(FP_ONE / 4, 3 * FP_ONE / 4);
    let m = extract_region(&field, (0, 0, 0), (1, 1, 1), FP_ONE, FP_HALF);
    assert_eq!(m.vertices.len(), 18);
    for v in 0..6 {
        assert_eq!(m.vertices[3 * v + 2], FP_HALF);
    }
}

#[test]
fn equal_samples_interpolate_to_the_midpoint() {
    // The interpolator's defined fallback: when both samples of an edge are
    // equal, the crossing is the midpoint of the edge rather than a failure.
    let field = constant_field(2, FP_HALF);
    let p = edge_point(&field, 0, 0, 0, FP_ONE, FP_HALF, 8);
    assert_eq!(p, (0, 0, FP_HALF)); // edge 8 is vertical at the cell origin
}

#[test]
fn crossing_at_the_far_corner_is_exact() {
    // Lower face just below the isovalue, upper face exactly on it: the
    // interpolated crossings sit at the top of the cell.
    let field = two_layer_cell(FP_HALF - 1, FP_HALF);
    let m = extract_region(&field, (0, 0, 0), (1, 1, 1), FP_ONE, FP_HALF);
    assert_eq!(m.vertices.len(), 18);
    let mut v = 0;
    while v < 6 {
        assert_eq!(m.vertices[3 * v + 2], FP_ONE);
        v += 1;
    }
}

#[test]
fn extraction_is_idempotent() {
    let mut data = vec![0i64; 27];
    for (i, v) in data.iter_mut().enumerate() {
        *v = ((i as i64 * 7919) % 131) * 512 - 32768;
    }
    let field = ScalarField::new(3, 3, 3, data).unwrap();
    let a = extract_region(&field, (0, 0, 0), (2, 2, 2), FP_ONE, 0);
    let b = extract_region(&field, (0, 0, 0), (2, 2, 2), FP_ONE, 0);
    assert!(!a.vertices.is_empty(), "test field should cross the isovalue");
    assert_eq!(a.vertices, b.vertices);
    assert_eq!(a.normals, b.normals);
    assert_eq!(a.indices, b.indices);
    assert_eq!(a.index_count, b.index_count);
}

/// A 33-wide field crossing the isovalue along x between samples 19 and 20:
/// only chunks whose cells straddle that plane emit geometry.
fn stepped_field() -> ScalarField {
    let d = 33usize;
    let mut data = vec![0i64; d * d * d];
    for i in 0..d {
        for j in 0..d {
            for k in 0..d {
                data[i * d * d + j * d + k] = if i < 20 { 0 } else { FP_ONE };
            }
        }
    }
    ScalarField::new(d, d, d, data).unwrap()
}

#[test]
fn chunk_meshes_come_back_in_input_order() {
    let field = stepped_field();
    let coords = vec![(0, 0, 0), (16, 0, 0), (0, 16, 0), (16, 16, 16)];
    let seq = extract_chunks(&field, &coords, FP_HALF, FP_HALF);
    assert_eq!(seq.len(), 4);
    assert!(seq[0].vertices.is_empty(), "chunk left of the step must be empty");
    assert!(!seq[1].vertices.is_empty(), "chunk across the step must emit");
    assert!(seq[2].vertices.is_empty());
    assert!(!seq[3].vertices.is_empty());
}

#[test]
fn parallel_extraction_matches_sequential_order() {
    let field = stepped_field();
    let coords = vec![
        (0, 0, 0), (16, 0, 0), (0, 16, 0), (16, 16, 0),
        (0, 0, 16), (16, 0, 16), (0, 16, 16), (16, 16, 16),
    ];
    let seq = extract_chunks(&field, &coords, FP_HALF, FP_HALF);
    let par = extract_chunks_par(&field, &coords, FP_HALF, FP_HALF);
    assert_eq!(par.len(), seq.len());
    for i in 0..seq.len() {
        assert_eq!(par[i].vertices, seq[i].vertices, "mesh {} out of order", i);
        assert_eq!(par[i].normals, seq[i].normals);
        assert_eq!(par[i].indices, seq[i].indices);
    }
    // The step sits in the x = 16 chunks, so order is observable.
    assert!(par[0].vertices.is_empty() && !par[1].vertices.is_empty());
}

#[test]
fn chunk_grid_enumerates_in_canonical_order() {
    let g = chunk_grid(2);
    assert_eq!(
        g,
        vec![
            (0, 0, 0), (0, 0, 16), (0, 16, 0), (0, 16, 16),
            (16, 0, 0), (16, 0, 16), (16, 16, 0), (16, 16, 16),
        ]
    );
    assert_eq!(chunk_grid(0), Vec::<(usize, usize, usize)>::new());
    assert_eq!(chunk_grid(1), vec![(0, 0, 0)]);
}

#[test]
fn triangulation_rows_use_exactly_the_crossing_edges() {
    // For every configuration, the edges named by its row must be exactly
    // the edges whose two corners lie on opposite sides of the isovalue,
    // and each row must be whole triangles followed by padding.
    for config in 0..=255u8 {
        let mut expected = [false; 12];
        for e in 0..12 {
            let a = EDGE_LO[e];
            let b = EDGE_HI[e];
            let ina = (config >> a) & 1;
            let inb = (config >> b) & 1;
            expected[e] = ina != inb;
        }
        let mut used = [false; 12];
        let mut n = 16;
        for p in 0..16 {
            let v = tri_table_at(config, p);
            if v >= 12 {
                n = p;
                break;
            }
            used[v as usize] = true;
        }
        assert!(n <= 15, "row for {} lacks a terminator", config);
        assert_eq!(n % 3, 0, "row for {} breaks off mid-triangle", config);
        for p in n..16 {
            assert_eq!(tri_table_at(config, p), 15, "row for {} resumes after its end", config);
        }
        assert_eq!(used, expected, "edge set mismatch for configuration {}", config);
    }
}

#[test]
fn single_corner_normals_point_at_the_inside_corner() {
    // For each single-corner configuration the one emitted triangle's normal
    // must point toward the corner that is on or above the isovalue.
    for n in 0..8usize {
        let (dx, dy, dz) = (CORNER_DX[n], CORNER_DY[n], CORNER_DZ[n]);
        let mut data = vec![0i64; 8];
        data[dx * 4 + dy * 2 + dz] = FP_ONE;
        let field = ScalarField::new(2, 2, 2, data).unwrap();
        let m = extract_region(&field, (0, 0, 0), (1, 1, 1), FP_ONE, FP_HALF);
        assert_eq!(m.vertices.len(), 9, "corner {} should give one triangle", n);
        let v = |i: usize| {
            (m.vertices[3 * i] as f64, m.vertices[3 * i + 1] as f64, m.vertices[3 * i + 2] as f64)
        };
        let (p0, p1, p2) = (v(0), v(1), v(2));
        let centroid = (
            (p0.0 + p1.0 + p2.0) / 3.0,
            (p0.1 + p1.1 + p2.1) / 3.0,
            (p0.2 + p1.2 + p2.2) / 3.0,
        );
        let corner = (
            dx as f64 * FP_ONE as f64,
            dy as f64 * FP_ONE as f64,
            dz as f64 * FP_ONE as f64,
        );
        let to_corner = (corner.0 - centroid.0, corner.1 - centroid.1, corner.2 - centroid.2);
        let nx = m.normals[0] as f64;
        let ny = m.normals[1] as f64;
        let nz = m.normals[2] as f64;
        let dot = nx * to_corner.0 + ny * to_corner.1 + nz * to_corner.2;
        assert!(dot > 0.0, "normal for corner {} points away from the inside", n);
        // Flat shading: the same normal on all three vertices.
        for i in 1..3 {
            assert_eq!(m.normals[3 * i], m.normals[0]);
            assert_eq!(m.normals[3 * i + 1], m.normals[1]);
            assert_eq!(m.normals[3 * i + 2], m.normals[2]);
        }
    }
}

#[test]
fn mesh_invariant_holds_on_output() {
    let field = stepped_field();
    let m = extract_chunk((16, 0, 0), FP_HALF, &field, FP_HALF);
    assert_eq!(m.vertices.len() % 3, 0);
    assert_eq!(m.normals.len(), m.vertices.len());
    assert_eq!(m.indices.len() * 3, m.vertices.len());
    assert_eq!(m.index_count, m.indices.len());
    assert_eq!(m.triangle_count(), m.indices.len() / 3);
    for (i, &ix) in m.indices.iter().enumerate() {
        assert_eq!(ix as usize, i, "indices must count vertices off in order");
    }
    let empty = Mesh::empty();
    assert_empty(&empty);
}
