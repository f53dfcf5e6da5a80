use vstd::prelude::*;

verus! {

/// Largest coordinate magnitude the clipper accepts, in fixed-point grid
/// units.  Keeping coordinates within `2^30` lets every interpolation
/// product fit in an `i64`.
pub const MAX_GRID_COORD: i64 = 0x4000_0000;

/// A point of the continuous slicing plane, in fixed-point units: one tile
/// spans `extent` units, so a coordinate `c` stands for `c / extent` tiles.
#[derive(Clone, Copy, PartialEq, Eq, Structural, Debug)]
pub struct GridPoint {
    pub x: i64,
    pub y: i64,
}

/// A point of one tile's local integer grid, after clipping: `0..=extent`
/// inside the tile proper, going negative or past `extent` inside the
/// buffer margin.
#[derive(Clone, Copy, PartialEq, Eq, Structural, Debug)]
pub struct TilePoint {
    pub x: i16,
    pub y: i16,
}

/// A closed ring of tile-local points; the closing point is not repeated.
#[derive(Clone, PartialEq, Eq, Debug)]
pub struct TileRing {
    pub points: Vec<TilePoint>,
}

/// One polygon of a tile: ring 0 is the exterior, later rings are holes.
#[derive(Clone, PartialEq, Eq, Debug)]
pub struct TilePolygon {
    pub rings: Vec<TileRing>,
}

/// All polygons clipped into one tile.
#[derive(Clone, PartialEq, Eq, Debug)]
pub struct MultiPolygon2 {
    pub polygons: Vec<TilePolygon>,
}

/// A polygon has at least its exterior ring.
pub open spec fn wf_polygon(p: TilePolygon) -> bool {
    p.rings@.len() >= 1
}

pub open spec fn wf_multi_polygon(mp: MultiPolygon2) -> bool {
    forall|i: int| 0 <= i < mp.polygons@.len() ==> wf_polygon(#[trigger] mp.polygons@[i])
}

/// Appending a well-formed polygon keeps a multipolygon well formed.
pub proof fn lemma_wf_mp_push(mp: MultiPolygon2, mp2: MultiPolygon2, poly: TilePolygon)
    requires
        wf_multi_polygon(mp),
        wf_polygon(poly),
        mp2.polygons@ == mp.polygons@.push(poly),
    ensures
        wf_multi_polygon(mp2),
{
    assert forall|p: int| 0 <= p < mp2.polygons@.len() implies wf_polygon(
        #[trigger] mp2.polygons@[p],
    ) by {
        if p < mp.polygons@.len() {
            assert(mp2.polygons@[p] == mp.polygons@[p]);
        } else {
            assert(mp2.polygons@[p] == poly);
        }
    }
}

impl MultiPolygon2 {
    pub fn new() -> (r: MultiPolygon2)
        ensures
            r.polygons@ =~= Seq::<TilePolygon>::empty(),
            wf_multi_polygon(r),
    {
        MultiPolygon2 { polygons: Vec::new() }
    }

    pub fn is_empty(&self) -> (r: bool)
        ensures
            r <==> self.polygons@.len() == 0,
    {
        self.polygons.len() == 0
    }

    /// Start a new polygon whose exterior is `ring`.
    pub fn add_exterior(&mut self, ring: Vec<TilePoint>)
        ensures
            final(self).polygons@.len() == old(self).polygons@.len() + 1,
            forall|i: int|
                0 <= i < old(self).polygons@.len() ==> final(self).polygons@[i] == old(
                    self,
                ).polygons@[i],
            final(self).polygons@.last().rings@.len() == 1,
            final(self).polygons@.last().rings@[0].points@ == ring@,
            wf_multi_polygon(*old(self)) ==> wf_multi_polygon(*final(self)),
    {
        let mut rings: Vec<TileRing> = Vec::new();
        rings.push(TileRing { points: ring });
        self.polygons.push(TilePolygon { rings });
    }

    /// Append a hole to the most recently started polygon.  Without a
    /// current polygon there is no exterior for the hole to belong to,
    /// so the ring is dropped.
    pub fn add_interior(&mut self, ring: Vec<TilePoint>)
        ensures
            old(self).polygons@.len() == 0 ==> final(self).polygons@ =~= old(self).polygons@,
            old(self).polygons@.len() > 0 ==> {
                let n = old(self).polygons@.len() - 1;
                &&& final(self).polygons@.len() == old(self).polygons@.len()
                &&& (forall|i: int| 0 <= i < n ==> final(self).polygons@[i] == old(self).polygons@[i])
                &&& final(self).polygons@[n].rings@.len() == old(self).polygons@[n].rings@.len() + 1
                &&& (forall|j: int|
                    0 <= j < old(self).polygons@[n].rings@.len()
                        ==> final(self).polygons@[n].rings@[j] == old(self).polygons@[n].rings@[j])
                &&& final(self).polygons@[n].rings@.last().points@ == ring@
            },
            wf_multi_polygon(*old(self)) ==> wf_multi_polygon(*final(self)),
    {
        let n = self.polygons.len();
        if n > 0 {
            let poly = &mut self.polygons[n - 1];
            poly.rings.push(TileRing { points: ring });
        }
    }
}

/// Twice the signed area of the first `n` shoelace terms of a closed ring
/// of tile-local points (the ring closes back from the last point to the
/// first).
pub open spec fn twice_area_upto(s: Seq<TilePoint>, n: nat) -> int
    decreases n,
{
    if n == 0 {
        0
    } else {
        let a = s[n - 1];
        let b = if n < s.len() {
            s[n as int]
        } else {
            s[0]
        };
        twice_area_upto(s, (n - 1) as nat) + (a.x * b.y - b.x * a.y)
    }
}

/// Twice the signed area of a closed ring: positive for the winding that
/// the encoder expects of exterior rings.
pub open spec fn spec_twice_area(s: Seq<TilePoint>) -> int {
    twice_area_upto(s, s.len())
}

/// The product of two 16-bit values stays within `2^30`.
pub proof fn lemma_i16_product_bound(a: i16, b: i16)
    by (nonlinear_arith)
    ensures
        -0x40000000 <= (a as int) * (b as int) <= 0x40000000,
{
}

/// The product of two differences of 16-bit values stays within `2^34`.
pub proof fn lemma_i16_product_bound_wide(a: int, b: int)
    by (nonlinear_arith)
    requires
        -0x10000 <= a <= 0x10000,
        -0x10000 <= b <= 0x10000,
    ensures
        -0x100000000 <= a * b <= 0x100000000,
{
}

/// Twice the signed area of `ring`, executable.
pub fn twice_signed_area(ring: &Vec<TilePoint>) -> (r: i128)
    ensures
        r as int == spec_twice_area(ring@),
{
    let n = ring.len();
    let mut acc: i128 = 0;
    let mut i: usize = 0;
    while i < n
        invariant
            i <= n,
            n == ring@.len(),
            acc as int == twice_area_upto(ring@, i as nat),
            -0x80000000 * (i as int) <= acc as int <= 0x80000000 * (i as int),
        decreases n - i,
    {
        let a = ring[i];
        let b = if i + 1 < n {
            ring[i + 1]
        } else {
            ring[0]
        };
        proof {
            lemma_i16_product_bound(a.x, b.y);
            lemma_i16_product_bound(b.x, a.y);
            assert(0x80000000 * (i as int) + 0x80000000 == 0x80000000 * (i as int + 1));
            assert(0x80000000 * (i as int + 1) <= 0x80000000 * 0x10000000000000000) by {
                vstd::arithmetic::mul::lemma_mul_inequality(
                    i as int + 1,
                    0x10000000000000000,
                    0x80000000,
                );
                vstd::arithmetic::mul::lemma_mul_is_commutative(i as int + 1, 0x80000000);
                vstd::arithmetic::mul::lemma_mul_is_commutative(0x10000000000000000, 0x80000000);
            }
        }
        let term: i128 = (a.x as i128) * (b.y as i128) - (b.x as i128) * (a.y as i128);
        acc = acc + term;
        i = i + 1;
    }
    acc
}

} // verus!
