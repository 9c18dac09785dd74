//! The fixed combinatorial data of the cube: corner numbering, the twelve
//! edges, and the 256-entry triangulation table.
//!
//! Corner `n` of the cell at grid point `(x, y, z)` sits at
//! `(x + CORNER_DX[n], y + CORNER_DY[n], z + CORNER_DZ[n])`: corners 0..4
//! loop around the `z` face, corners 4..8 around the `z + 1` face. Edge `e`
//! joins `EDGE_LO[e]` to `EDGE_HI[e]`; the two differ only along axis
//! `EDGE_AXIS[e]` (0 = x, 1 = y, 2 = z), with the lower corner first.

use vstd::prelude::*;

verus! {

pub const CORNER_DX: [usize; 8] = [0, 1, 1, 0, 0, 1, 1, 0];
pub const CORNER_DY: [usize; 8] = [0, 0, 1, 1, 0, 0, 1, 1];
pub const CORNER_DZ: [usize; 8] = [0, 0, 0, 0, 1, 1, 1, 1];

pub const EDGE_LO: [usize; 12] = [0, 1, 3, 0, 4, 5, 7, 4, 0, 1, 2, 3];
pub const EDGE_HI: [usize; 12] = [1, 2, 2, 3, 5, 6, 6, 7, 4, 5, 6, 7];
pub const EDGE_AXIS: [usize; 12] = [0, 1, 0, 1, 0, 1, 0, 1, 2, 2, 2, 2];

/// The canonical marching-cubes triangulation table, one row per cube
/// configuration, each row packed into a `u64`: the value at position `p`
/// (0..16) occupies bits `4p..4p+4`. A value below 12 names a cell edge;
/// the first value of 12 or above (the padding is 0xF) ends the row. A row
/// lists up to five triangles as consecutive triples of edge numbers.
///
/// Bit `n` of the configuration is set when corner `n` lies on or above the
/// isovalue. Rows are wound so that each triangle's normal points toward
/// the bit-set corners, the side on or above the isovalue.
pub const TRI_ROWS: [u64; 256] = [
    0xffffffffffffffff,
    0xfffffffffffff380,
    0xfffffffffffff910,
    0xffffffffff189381,
    0xfffffffffffffa21,
    0xffffffffffa21380,
    0xffffffffff920a29,
    0xfffffff89a8a2382,
    0xfffffffffffff2b3,
    0xffffffffff0b82b0,
    0xffffffffffb32091,
    0xfffffffb89b912b1,
    0xffffffffff3ab1a3,
    0xfffffffab8a801a0,
    0xfffffff9ab9b3093,
    0xffffffffffb8aa89,
    0xfffffffffffff874,
    0xffffffffff437034,
    0xffffffffff748910,
    0xfffffff137174914,
    0xffffffffff748a21,
    0xfffffffa21403743,
    0xfffffff748209a29,
    0xffff4973727929a2,
    0xffffffffff2b3748,
    0xfffffff40242b74b,
    0xfffffffb32748109,
    0xffff1292b9b49b74,
    0xfffffff487ab31a3,
    0xffff4b7401b41ab1,
    0xffff30bab9b09874,
    0xfffffffab99b4b74,
    0xfffffffffffff459,
    0xffffffffff380459,
    0xffffffffff051450,
    0xfffffff513538458,
    0xffffffffff459a21,
    0xfffffff594a21803,
    0xfffffff204245a25,
    0xffff8434535235a2,
    0xffffffffffb32459,
    0xfffffff594b802b0,
    0xfffffffb32510450,
    0xffff584b82852512,
    0xfffffff45931ab3a,
    0xffffab81a8180594,
    0xffff30bab5b05045,
    0xfffffffb8aa85845,
    0xffffffffff975879,
    0xfffffff375359039,
    0xfffffff751710870,
    0xffffffffff753351,
    0xfffffff21a759879,
    0xffff37503505921a,
    0xffff25a758528208,
    0xfffffff7533525a2,
    0xfffffff2b3987597,
    0xffffb72029279759,
    0xffff751871810b32,
    0xfffffff51771b12b,
    0xffffb3a31a758859,
    0xf0aba010b7905075,
    0xf07570805a30b0ab,
    0xffffffffff5b75ab,
    0xfffffffffffff56a,
    0xffffffffff6a5380,
    0xffffffffff6a5109,
    0xfffffff6a5891381,
    0xffffffffff162561,
    0xfffffff803621561,
    0xfffffff620609569,
    0xffff823625285895,
    0xffffffffff56ab32,
    0xfffffff56a02b80b,
    0xfffffff6a5b32910,
    0xffffb892b92916a5,
    0xfffffff315356b36,
    0xffff6b51505b0b80,
    0xffff9505606306b3,
    0xfffffff89bb96956,
    0xffffffffff8746a5,
    0xfffffffa56374034,
    0xfffffff7486a5091,
    0xffff49737179156a,
    0xfffffff874156216,
    0xffff743403625521,
    0xffff620560509748,
    0xf962695923497937,
    0xfffffff56a4872b3,
    0xffffb720242746a5,
    0xffff6a5b32874910,
    0xf6a54b7b492b9129,
    0xffff6b51535b3748,
    0xfb404b7b016b5b15,
    0xf74836b630560950,
    0xffff9b7974b96956,
    0xffffffffffa4694a,
    0xfffffff380a946a4,
    0xfffffff04606a10a,
    0xffffa16468618138,
    0xfffffff462421941,
    0xffff462942921803,
    0xffffffffff624420,
    0xfffffff624428238,
    0xfffffff32b46a94a,
    0xffff6a4a94b82280,
    0xffffa164606102b3,
    0xf1b8b12184a16146,
    0xffff36b319639469,
    0xf14641916b0181b8,
    0xfffffff4600636b3,
    0xffffffffff86b846,
    0xfffffffa98a876a7,
    0xffffa76a907a0370,
    0xffff0818717a176a,
    0xfffffff37117a76a,
    0xffff768981861621,
    0xf937390976192962,
    0xfffffff206607087,
    0xffffffffff276237,
    0xffff76898a86ab32,
    0xf7a9a76790b72702,
    0xfb32a767a1871081,
    0xffff17616a71b12b,
    0xf63136b619768698,
    0xffffffffff76b190,
    0xffff06b0b3607087,
    0xfffffffffffff6b7,
    0xfffffffffffffb67,
    0xffffffffff67b803,
    0xffffffffff67b910,
    0xfffffff67b138918,
    0xffffffffff7b621a,
    0xfffffff7b6803a21,
    0xfffffff7b69a2092,
    0xffff89a38a3a27b6,
    0xffffffffff726327,
    0xfffffff026067807,
    0xfffffff910732672,
    0xffff678891681261,
    0xfffffff73171a67a,
    0xffff801781a7167a,
    0xffff7a69a0a70730,
    0xfffffff9a88a7a67,
    0xffffffffff68b486,
    0xfffffff640603b63,
    0xfffffff109648b68,
    0xffff63b139369649,
    0xfffffff1a28b6486,
    0xffff640b60b03a21,
    0xffff9a2920b648b4,
    0xf36463b34923a39a,
    0xfffffff264248328,
    0xffffffffff264240,
    0xffff834642432091,
    0xfffffff642241491,
    0xffff1a6648168318,
    0xfffffff40660a01a,
    0xf39a9303a6834364,
    0xffffffffff4a649a,
    0xffffffffffb67594,
    0xfffffff67b594380,
    0xfffffffb67045105,
    0xffff51345343867b,
    0xfffffffb6721a459,
    0xffff594380a217b6,
    0xffff204a24a45b67,
    0xf67b25a523453843,
    0xfffffff945267327,
    0xffff786260680459,
    0xffff045051673263,
    0xf851584812786826,
    0xffff73167161a459,
    0xf459078701671a61,
    0xfa737a6a305a4a04,
    0xffffa84a458a7a67,
    0xfffffff98b9b6596,
    0xffff590650360b63,
    0xffffb65510b508b0,
    0xfffffff1355363b6,
    0xffff65b8b9b59a21,
    0xfa21965690b603b0,
    0xf52025a50865b58b,
    0xffff35a3a25363b6,
    0xffff283265825985,
    0xfffffff260069659,
    0xf826283865081851,
    0xffffffffff612651,
    0xf698965683a61631,
    0xffff06505960a01a,
    0xffffffffffa65830,
    0xfffffffffffff65a,
    0xffffffffffb57a5b,
    0xfffffff03857ba5b,
    0xfffffff091ba57b5,
    0xffff1381897ba57a,
    0xfffffff15717b21b,
    0xffffb27571721380,
    0xffff7b2209729579,
    0xf289823295b27257,
    0xfffffff573532a52,
    0xffff52a578258028,
    0xffff2a37353a5109,
    0xf25752a278129289,
    0xffffffffff573531,
    0xfffffff571170780,
    0xfffffff735539309,
    0xffffffffff795789,
    0xfffffff8ba8a5485,
    0xffff03bba50b5405,
    0xffff54aba8a48910,
    0xf41314943b54a4ba,
    0xffff8548b2582152,
    0xfb151b2b543b0b40,
    0xf58b8545b2950520,
    0xffffffffff3b2549,
    0xffff483543253a52,
    0xfffffff0244252a5,
    0xf910854583a532a3,
    0xffff2492914252a5,
    0xfffffff153358548,
    0xffffffffff501540,
    0xffff530509358548,
    0xfffffffffffff549,
    0xfffffffba9b947b4,
    0xffffba97b9794380,
    0xffffb470414b1ba1,
    0xf4bab474a1843413,
    0xffff219b294b97b4,
    0xf3801b2b197b9479,
    0xfffffff04224b47b,
    0xffff42343824b47b,
    0xffff947732972a92,
    0xf70207872a4797a9,
    0xfa040a1a472a3a73,
    0xffffffffff4782a1,
    0xfffffff317714194,
    0xffff178180714194,
    0xffffffffff347304,
    0xfffffffffffff784,
    0xffffffffff8ba8a9,
    0xfffffffa9bb93903,
    0xfffffffba88a0a10,
    0xffffffffffa3ba13,
    0xfffffff8b99b1b21,
    0xffff9b2921b93903,
    0xffffffffffb08b20,
    0xfffffffffffffb23,
    0xfffffff98aa82832,
    0xffffffffff2902a9,
    0xffff8a1810a82832,
    0xfffffffffffff2a1,
    0xffffffffff819831,
    0xfffffffffffff190,
    0xfffffffffffff830,
    0xffffffffffffffff,
];

/// The value at position `p` of the triangulation row for `config`.
pub open spec fn spec_tri_at(config: int, p: int) -> u64 {
    (TRI_ROWS[config] >> ((4 * p) as u64)) & 0xF
}

/// Whether position `p` of the row for `config` names a cell edge.
pub open spec fn spec_tri_is_edge(config: int, p: int) -> bool {
    spec_tri_at(config, p) < 12
}

/// A nibble extraction never exceeds 15.
pub proof fn lemma_nibble_bound(r: u64, s: u64)
    requires
        s < 64,
    ensures
        (r >> s) & 0xF < 16,
{
    assert((r >> s) & 0xF < 16) by (bit_vector);
}

/// Reads the value at position `p` of the triangulation row for `config`.
pub fn tri_table_at(config: u8, p: usize) -> (e: u8)
    requires
        p < 16,
    ensures
        e == spec_tri_at(config as int, p as int),
        e < 16,
{
    let row: u64 = TRI_ROWS[config as usize];
    let shift: u64 = 4 * (p as u64);
    proof {
        lemma_nibble_bound(row, shift);
    }
    ((row >> shift) & 0xF) as u8
}

} // verus!
