use vstd::prelude::*;

verus! {

use vstd::arithmetic::power2::pow2;
use vstd::arithmetic::power2::lemma_pow2_adds;
use vstd::arithmetic::power2::lemma_pow2_unfold;
use vstd::arithmetic::power2::lemma_pow2_pos;
use vstd::arithmetic::power2::lemma_pow2_strictly_increases;
use vstd::arithmetic::power2::lemma2_to64;
use vstd::arithmetic::power2::lemma2_to64_rest;
use vstd::arithmetic::div_mod::lemma_fundamental_div_mod_converse_div;
use vstd::arithmetic::div_mod::lemma_fundamental_div_mod_converse_mod;

/// Highest zoom level that a 64-bit tile id can address.
pub const MAX_TILE_ZOOM: u8 = 30;

/// A tile coordinate is valid when its zoom is addressable and both axes
/// lie inside the `2^zoom` by `2^zoom` grid of that zoom level.
pub open spec fn valid_zxy(zoom: u8, x: u32, y: u32) -> bool {
    &&& zoom <= MAX_TILE_ZOOM
    &&& (x as nat) < pow2(zoom as nat)
    &&& (y as nat) < pow2(zoom as nat)
}

/// Index of the cell `(x, y)` on the Hilbert curve that fills the
/// `2^z` by `2^z` grid.  The grid is split into four quadrants; the curve
/// visits them lower-left, upper-left, upper-right, lower-right, entering
/// each through the orientation fixed by the usual Hilbert reflections.
pub open spec fn hilbert_d(z: nat, x: nat, y: nat) -> nat
    decreases z,
{
    if z == 0 {
        0
    } else {
        let h = pow2((z - 1) as nat);
        let hh = pow2(2 * (z - 1) as nat);
        if x < h && y < h {
            hilbert_d((z - 1) as nat, y, x)
        } else if x < h {
            hh + hilbert_d((z - 1) as nat, x, (y - h) as nat)
        } else if y >= h {
            2 * hh + hilbert_d((z - 1) as nat, (x - h) as nat, (y - h) as nat)
        } else {
            3 * hh + hilbert_d((z - 1) as nat, (h - 1 - y) as nat, (2 * h - 1 - x) as nat)
        }
    }
}

/// Inverse of `hilbert_d`: the cell that the Hilbert curve of the
/// `2^z` by `2^z` grid visits at position `d`.
pub open spec fn hilbert_xy(z: nat, d: nat) -> (nat, nat)
    decreases z,
{
    if z == 0 {
        (0, 0)
    } else {
        let h = pow2((z - 1) as nat);
        let hh = pow2(2 * (z - 1) as nat);
        let q = d / hh;
        let r = d % hh;
        let p = hilbert_xy((z - 1) as nat, r);
        if q == 0 {
            (p.1, p.0)
        } else if q == 1 {
            (p.0, p.1 + h)
        } else if q == 2 {
            (p.0 + h, p.1 + h)
        } else {
            ((2 * h - 1 - p.1) as nat, (h - 1 - p.0) as nat)
        }
    }
}

/// First tile id of zoom level `z`: the total number of tiles of all
/// strictly smaller zoom levels (the sum of `4^k` for `k < z`).
pub open spec fn zoom_offset(z: nat) -> nat
    decreases z,
{
    if z == 0 {
        0
    } else {
        zoom_offset((z - 1) as nat) + pow2(2 * (z - 1) as nat)
    }
}

/// The id of tile `(zoom, x, y)`: tiles of smaller zooms come first,
/// tiles of one zoom are ordered along the Hilbert curve.
pub open spec fn spec_zxy_to_id(zoom: nat, x: nat, y: nat) -> nat {
    zoom_offset(zoom) + hilbert_d(zoom, x, y)
}

/// Decoding, searching zoom levels from `z` upwards for the one whose id
/// range contains `id`.  Callers start at `z == 0`.
pub open spec fn spec_id_to_zxy_from(id: nat, z: nat) -> Option<(u8, u32, u32)>
    decreases 31 - z,
{
    if z > MAX_TILE_ZOOM as nat {
        None
    } else if id < zoom_offset(z + 1) {
        let d = (id - zoom_offset(z)) as nat;
        let p = hilbert_xy(z, d);
        Some((z as u8, p.0 as u32, p.1 as u32))
    } else {
        spec_id_to_zxy_from(id, (z + 1) as nat)
    }
}

/// The tile coordinate that `id` stands for, or `None` when no tile of
/// zoom at most `MAX_TILE_ZOOM` has this id.
pub open spec fn spec_id_to_zxy(id: nat) -> Option<(u8, u32, u32)> {
    spec_id_to_zxy_from(id, 0)
}

proof fn lemma_zoom_offset_lt_pow(z: nat)
    ensures
        zoom_offset(z) < pow2(2 * z),
    decreases z,
{
    lemma_pow2_pos(2 * z);
    if z > 0 {
        lemma_zoom_offset_lt_pow((z - 1) as nat);
        lemma_pow2_adds(2, 2 * (z - 1) as nat);
        lemma2_to64();
        assert(2 + 2 * (z - 1) as nat == 2 * z);
    }
}

proof fn lemma_zoom_offset_mono(a: nat, b: nat)
    requires
        a <= b,
    ensures
        zoom_offset(a) <= zoom_offset(b),
    decreases b,
{
    if a < b {
        lemma_zoom_offset_mono(a, (b - 1) as nat);
    }
}

/// `2^e` fits comfortably in the machine types used here.
proof fn lemma_pow2_le(e1: nat, e2: nat)
    requires
        e1 <= e2,
    ensures
        pow2(e1) <= pow2(e2),
{
    if e1 < e2 {
        lemma_pow2_strictly_increases(e1, e2);
    }
}

/// The Hilbert index of a cell of the `2^z` grid is below `4^z`, and
/// `hilbert_xy` maps it back to the cell.
proof fn lemma_hilbert_d_inverse(z: nat, x: nat, y: nat)
    requires
        x < pow2(z),
        y < pow2(z),
    ensures
        hilbert_d(z, x, y) < pow2(2 * z),
        hilbert_xy(z, hilbert_d(z, x, y)) == (x, y),
    decreases z,
{
    lemma_pow2_pos(2 * z);
    if z == 0 {
        lemma2_to64();
        assert(x == 0 && y == 0);
    } else {
        let zp = (z - 1) as nat;
        let h = pow2(zp);
        let hh = pow2(2 * zp);
        lemma_pow2_pos(zp);
        lemma_pow2_pos(2 * zp);
        lemma_pow2_unfold(z);
        assert(pow2(z) == 2 * h);
        lemma_pow2_adds(2, 2 * zp);
        lemma2_to64();
        assert(pow2(2 * z) == 4 * hh);
        let dd = hilbert_d(z, x, y);
        if x < h && y < h {
            lemma_hilbert_d_inverse(zp, y, x);
            let d = hilbert_d(zp, y, x);
            assert(dd == d);
            lemma_fundamental_div_mod_converse_div(d as int, hh as int, 0, d as int);
            lemma_fundamental_div_mod_converse_mod(d as int, hh as int, 0, d as int);
            assert(dd / hh == 0 && dd % hh == d);
            assert(hilbert_xy(z, dd) == (x, y));
        } else if x < h {
            lemma_hilbert_d_inverse(zp, x, (y - h) as nat);
            let d = hilbert_d(zp, x, (y - h) as nat);
            assert(dd == hh + d);
            lemma_fundamental_div_mod_converse_div((hh + d) as int, hh as int, 1, d as int);
            lemma_fundamental_div_mod_converse_mod((hh + d) as int, hh as int, 1, d as int);
            assert(dd / hh == 1 && dd % hh == d);
            assert(hilbert_xy(z, dd) == (x, y));
        } else if y >= h {
            lemma_hilbert_d_inverse(zp, (x - h) as nat, (y - h) as nat);
            let d = hilbert_d(zp, (x - h) as nat, (y - h) as nat);
            assert(dd == 2 * hh + d);
            lemma_fundamental_div_mod_converse_div((2 * hh + d) as int, hh as int, 2, d as int);
            lemma_fundamental_div_mod_converse_mod((2 * hh + d) as int, hh as int, 2, d as int);
            assert(dd / hh == 2 && dd % hh == d);
            assert(hilbert_xy(z, dd) == (x, y));
        } else {
            lemma_hilbert_d_inverse(zp, (h - 1 - y) as nat, (2 * h - 1 - x) as nat);
            let d = hilbert_d(zp, (h - 1 - y) as nat, (2 * h - 1 - x) as nat);
            assert(dd == 3 * hh + d);
            lemma_fundamental_div_mod_converse_div((3 * hh + d) as int, hh as int, 3, d as int);
            lemma_fundamental_div_mod_converse_mod((3 * hh + d) as int, hh as int, 3, d as int);
            assert(dd / hh == 3 && dd % hh == d);
            let p = hilbert_xy(zp, d);
            assert(p == ((h - 1 - y) as nat, (2 * h - 1 - x) as nat));
            assert(hilbert_xy(z, dd) == (((2 * h - 1 - p.1) as nat, (h - 1 - p.0) as nat)));
            assert((2 * h - 1 - p.1) as nat == x);
            assert((h - 1 - p.0) as nat == y);
        }
    }
}

/// Every position below `4^z` is the Hilbert index of exactly the cell
/// that `hilbert_xy` names, and that cell lies inside the grid.
proof fn lemma_hilbert_xy_inverse(z: nat, d: nat)
    requires
        d < pow2(2 * z),
    ensures
        hilbert_xy(z, d).0 < pow2(z),
        hilbert_xy(z, d).1 < pow2(z),
        hilbert_d(z, hilbert_xy(z, d).0, hilbert_xy(z, d).1) == d,
    decreases z,
{
    lemma_pow2_pos(z);
    if z == 0 {
        lemma2_to64();
    } else {
        let zp = (z - 1) as nat;
        let h = pow2(zp);
        let hh = pow2(2 * zp);
        lemma_pow2_pos(zp);
        lemma_pow2_pos(2 * zp);
        lemma_pow2_unfold(z);
        assert(pow2(z) == 2 * h);
        lemma_pow2_adds(2, 2 * zp);
        lemma2_to64();
        assert(pow2(2 * z) == 4 * hh);
        let q = d / hh;
        let r = d % hh;
        if d < hh {
            lemma_fundamental_div_mod_converse_div(d as int, hh as int, 0, d as int);
            lemma_fundamental_div_mod_converse_mod(d as int, hh as int, 0, d as int);
        } else if d < 2 * hh {
            lemma_fundamental_div_mod_converse_div(d as int, hh as int, 1, d - hh);
            lemma_fundamental_div_mod_converse_mod(d as int, hh as int, 1, d - hh);
        } else if d < 3 * hh {
            lemma_fundamental_div_mod_converse_div(d as int, hh as int, 2, d - 2 * hh);
            lemma_fundamental_div_mod_converse_mod(d as int, hh as int, 2, d - 2 * hh);
        } else {
            lemma_fundamental_div_mod_converse_div(d as int, hh as int, 3, d - 3 * hh);
            lemma_fundamental_div_mod_converse_mod(d as int, hh as int, 3, d - 3 * hh);
        }
        assert(q < 4 && r < hh && d == q * hh + r);
        lemma_hilbert_xy_inverse(zp, r);
        let p = hilbert_xy(zp, r);
        assert(hilbert_d(zp, p.0, p.1) == r);
        if q == 0 {
            assert(hilbert_xy(z, d) == (p.1, p.0));
            assert(hilbert_d(z, p.1, p.0) == hilbert_d(zp, p.0, p.1));
            assert(d == r);
            assert(hilbert_d(z, p.1, p.0) == d);
        } else if q == 1 {
            assert(hilbert_xy(z, d) == (p.0, p.1 + h));
            assert(hilbert_d(z, p.0, p.1 + h) == hh + hilbert_d(zp, p.0, ((p.1 + h) - h) as nat));
            assert(((p.1 + h) - h) as nat == p.1);
            assert(hilbert_d(z, p.0, p.1 + h) == d);
        } else if q == 2 {
            assert(hilbert_xy(z, d) == (p.0 + h, p.1 + h));
            assert(hilbert_d(z, p.0 + h, p.1 + h) == 2 * hh + hilbert_d(zp, p.0, p.1));
            assert(hilbert_d(z, p.0 + h, p.1 + h) == d);
        } else {
            let rx = (2 * h - 1 - p.1) as nat;
            let ry = (h - 1 - p.0) as nat;
            assert(hilbert_xy(z, d) == (rx, ry));
            assert(rx >= h && ry < h);
            assert((h - 1 - ry) as nat == p.0);
            assert((2 * h - 1 - rx) as nat == p.1);
            assert(hilbert_d(z, rx, ry) == 3 * hh + hilbert_d(zp, p.0, p.1));
            assert(hilbert_d(z, rx, ry) == d);
        }
    }
}

proof fn lemma_decode_reaches_zoom(id: nat, w: nat, zoom: nat, x: nat, y: nat)
    requires
        w <= zoom <= 30,
        x < pow2(zoom),
        y < pow2(zoom),
        id == spec_zxy_to_id(zoom, x, y),
    ensures
        spec_id_to_zxy_from(id, w) == Some((zoom as u8, x as u32, y as u32)),
    decreases 31 - w,
{
    lemma_hilbert_d_inverse(zoom, x, y);
    if w < zoom {
        lemma_zoom_offset_mono((w + 1) as nat, zoom);
        assert(id >= zoom_offset((w + 1) as nat));
        lemma_decode_reaches_zoom(id, (w + 1) as nat, zoom, x, y);
    } else {
        assert(id < zoom_offset((zoom + 1) as nat));
        let d = (id - zoom_offset(zoom)) as nat;
        assert(d == hilbert_d(zoom, x, y));
        assert(hilbert_xy(zoom, d) == (x, y));
        lemma_pow2_le(zoom, 30);
        lemma2_to64();
        lemma2_to64_rest();
        assert(x < 0x40000000 && y < 0x40000000);
        assert(x as u32 as nat == x && y as u32 as nat == y);
    }
}

/// Round trip: decoding the id of any valid tile coordinate yields that
/// same coordinate.
pub proof fn lemma_tile_id_round_trip(zoom: u8, x: u32, y: u32)
    requires
        valid_zxy(zoom, x, y),
    ensures
        spec_id_to_zxy(spec_zxy_to_id(zoom as nat, x as nat, y as nat))
            == Some((zoom, x, y)),
{
    lemma_decode_reaches_zoom(
        spec_zxy_to_id(zoom as nat, x as nat, y as nat),
        0,
        zoom as nat,
        x as nat,
        y as nat,
    );
}

/// Locality: the ids of two tiles of one zoom level differ by less than
/// `4^zoom`, the tile count of that level, while the level's own ids
/// already span `[zoom_offset(zoom), zoom_offset(zoom) + 4^zoom)`.  So the
/// ids of two spatially adjacent tiles are never further apart than the
/// span of their zoom level (a factor-one bound in terms of the largest
/// id of the level).
pub proof fn lemma_tile_id_locality(zoom: u8, x1: u32, y1: u32, x2: u32, y2: u32)
    requires
        valid_zxy(zoom, x1, y1),
        valid_zxy(zoom, x2, y2),
        (x1 == x2 && (y1 - y2 == 1 || y2 - y1 == 1))
            || (y1 == y2 && (x1 - x2 == 1 || x2 - x1 == 1)),
    ensures
        spec_zxy_to_id(zoom as nat, x1 as nat, y1 as nat)
            - spec_zxy_to_id(zoom as nat, x2 as nat, y2 as nat) < pow2(2 * zoom as nat),
        spec_zxy_to_id(zoom as nat, x2 as nat, y2 as nat)
            - spec_zxy_to_id(zoom as nat, x1 as nat, y1 as nat) < pow2(2 * zoom as nat),
        pow2(2 * zoom as nat) <= zoom_offset(zoom as nat + 1),
{
    lemma_hilbert_d_inverse(zoom as nat, x1 as nat, y1 as nat);
    lemma_hilbert_d_inverse(zoom as nat, x2 as nat, y2 as nat);
    lemma_pow2_pos(2 * zoom as nat);
    assert(zoom_offset(zoom as nat + 1) == zoom_offset(zoom as nat) + pow2(2 * zoom as nat));
}

/// Number of tiles along one axis at zoom `z`, as executable code.
pub fn tiles_per_axis(z: u8) -> (r: u32)
    requires
        z <= 30,
    ensures
        r as nat == pow2(z as nat),
{
    let mut i: u8 = 0;
    let mut r: u32 = 1;
    proof {
        lemma2_to64();
        lemma2_to64_rest();
    }
    while i < z
        invariant
            i <= z <= 30,
            r as nat == pow2(i as nat),
            pow2(30) == 0x40000000,
        decreases z - i,
    {
        proof {
            lemma_pow2_unfold(i as nat + 1);
            lemma_pow2_le(i as nat + 1, 30);
        }
        r = r * 2;
        i = i + 1;
    }
    r
}

fn zoom_offset_exec(z: u8) -> (r: u64)
    requires
        z <= 31,
    ensures
        r as nat == zoom_offset(z as nat),
{
    let mut i: u8 = 0;
    let mut acc: u64 = 0;
    proof {
        lemma_zoom_offset_lt_pow(31);
        lemma2_to64();
        lemma2_to64_rest();
        lemma_pow2_adds(60, 2);
        assert(pow2(62) == 0x4000000000000000);
    }
    while i < z
        invariant
            i <= z <= 31,
            acc as nat == zoom_offset(i as nat),
            zoom_offset(31) < 0x4000000000000000,
        decreases z - i,
    {
        let step = tiles_per_axis(i);
        proof {
            lemma_pow2_adds(i as nat, i as nat);
            lemma_pow2_le(2 * i as nat, 60);
            lemma2_to64_rest();
            assert(pow2(60) == 0x1000000000000000);
            assert((step as u64) * (step as u64) == pow2(2 * i as nat)) by {
                assert((step as nat) * (step as nat) == pow2(i as nat) * pow2(i as nat));
            }
            lemma_zoom_offset_mono(i as nat + 1, 31);
        }
        let step2: u64 = (step as u64) * (step as u64);
        acc = acc + step2;
        i = i + 1;
    }
    acc
}

fn hilbert_index(z: u8, x: u32, y: u32) -> (d: u64)
    requires
        z <= 30,
        (x as nat) < pow2(z as nat),
        (y as nat) < pow2(z as nat),
    ensures
        d as nat == hilbert_d(z as nat, x as nat, y as nat),
    decreases z,
{
    if z == 0 {
        0
    } else {
        let h: u32 = tiles_per_axis(z - 1);
        proof {
            lemma_pow2_adds((z - 1) as nat, (z - 1) as nat);
            lemma_pow2_le(2 * (z - 1) as nat, 58);
            lemma_pow2_le((z - 1) as nat, 29);
            lemma2_to64();
            lemma2_to64_rest();
            assert((h as u64) * (h as u64) == pow2(2 * (z - 1) as nat)) by {
                assert((h as nat) * (h as nat) == pow2((z - 1) as nat) * pow2((z - 1) as nat));
            }
            lemma_pow2_unfold(z as nat);
            lemma_hilbert_d_inverse(z as nat, x as nat, y as nat);
            lemma_pow2_adds(2, 2 * (z - 1) as nat);
            assert(pow2(2 * z as nat) == 4 * pow2(2 * (z - 1) as nat));
        }
        let hh: u64 = (h as u64) * (h as u64);
        if x < h && y < h {
            hilbert_index(z - 1, y, x)
        } else if x < h {
            let sub = hilbert_index(z - 1, x, y - h);
            hh + sub
        } else if y >= h {
            let sub = hilbert_index(z - 1, x - h, y - h);
            2 * hh + sub
        } else {
            let sub = hilbert_index(z - 1, h - 1 - y, 2 * h - 1 - x);
            3 * hh + sub
        }
    }
}

fn hilbert_position(z: u8, d: u64) -> (p: (u32, u32))
    requires
        z <= 30,
        (d as nat) < pow2(2 * z as nat),
    ensures
        (p.0 as nat, p.1 as nat) == hilbert_xy(z as nat, d as nat),
        (p.0 as nat) < pow2(z as nat),
        (p.1 as nat) < pow2(z as nat),
    decreases z,
{
    proof {
        lemma_hilbert_xy_inverse(z as nat, d as nat);
    }
    if z == 0 {
        (0, 0)
    } else {
        let h: u32 = tiles_per_axis(z - 1);
        proof {
            lemma_pow2_adds((z - 1) as nat, (z - 1) as nat);
            lemma_pow2_le((z - 1) as nat, 29);
            lemma_pow2_le(z as nat, 30);
            lemma2_to64();
            lemma2_to64_rest();
            assert((h as u64) * (h as u64) == pow2(2 * (z - 1) as nat)) by {
                assert((h as nat) * (h as nat) == pow2((z - 1) as nat) * pow2((z - 1) as nat));
            }
            lemma_pow2_pos(2 * (z - 1) as nat);
            lemma_pow2_unfold(z as nat);
            assert(pow2(z as nat) == 2 * pow2((z - 1) as nat));
        }
        let hh: u64 = (h as u64) * (h as u64);
        let q: u64 = d / hh;
        let r: u64 = d % hh;
        let p = hilbert_position(z - 1, r);
        if q == 0 {
            (p.1, p.0)
        } else if q == 1 {
            (p.0, p.1 + h)
        } else if q == 2 {
            (p.0 + h, p.1 + h)
        } else {
            (2 * h - 1 - p.1, h - 1 - p.0)
        }
    }
}

/// Scheme used to map a tile coordinate to a sortable 64-bit id.  Only the
/// locality-preserving Hilbert ordering is provided; the enumeration leaves
/// room for other schemes.
#[derive(Clone, Copy, PartialEq, Eq, Structural, Debug)]
pub enum TileIdMethod {
    Hilbert,
}

impl TileIdMethod {
    /// Encode a tile coordinate as a 64-bit id.  Ids of lower zoom levels
    /// come first; within one zoom level the Hilbert curve orders the
    /// tiles, so that numerically close ids are spatially close.
    pub fn zxy_to_id(&self, zoom: u8, x: u32, y: u32) -> (r: u64)
        requires
            valid_zxy(zoom, x, y),
        ensures
            r as nat == spec_zxy_to_id(zoom as nat, x as nat, y as nat),
            (r as nat) < zoom_offset(31),
    {
        proof {
            lemma_hilbert_d_inverse(zoom as nat, x as nat, y as nat);
            lemma_zoom_offset_mono(zoom as nat + 1, 31);
            lemma_zoom_offset_lt_pow(31);
            lemma_pow2_adds(60, 2);
            lemma2_to64();
            lemma2_to64_rest();
            assert(pow2(62) == 0x4000000000000000);
        }
        let off = zoom_offset_exec(zoom);
        let d = hilbert_index(zoom, x, y);
        off + d
    }

    /// Decode a 64-bit tile id back to its tile coordinate.  Returns
    /// `None` exactly for the ids that no valid coordinate encodes to.
    pub fn id_to_zxy(&self, id: u64) -> (r: Option<(u8, u32, u32)>)
        ensures
            r == spec_id_to_zxy(id as nat),
            r is Some <==> (id as nat) < zoom_offset(31),
            r matches Some((zoom, x, y)) ==> valid_zxy(zoom, x, y)
                && id as nat == spec_zxy_to_id(zoom as nat, x as nat, y as nat),
    {
        let mut z: u8 = 0;
        while z <= 30
            invariant
                z <= 31,
                (id as nat) >= zoom_offset(z as nat),
                spec_id_to_zxy(id as nat) == spec_id_to_zxy_from(id as nat, z as nat),
            decreases 31 - z,
        {
            let off = zoom_offset_exec(z);
            let next_off = zoom_offset_exec(z + 1);
            if id < next_off {
                let d = id - off;
                proof {
                    lemma_hilbert_xy_inverse(z as nat, d as nat);
                    let p = hilbert_xy(z as nat, d as nat);
                    lemma_hilbert_d_inverse(z as nat, p.0, p.1);
                    lemma_pow2_le(z as nat, 30);
                    lemma2_to64();
                    lemma2_to64_rest();
                    lemma_zoom_offset_mono(z as nat + 1, 31);
                }
                let p = hilbert_position(z, d);
                return Some((z, p.0, p.1));
            }
            z = z + 1;
        }
        proof {
            assert(z == 31);
            assert(spec_id_to_zxy_from(id as nat, 31) is None);
        }
        None
    }
}

} // verus!
