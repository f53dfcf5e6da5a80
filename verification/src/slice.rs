use vstd::prelude::*;

verus! {

use crate::geom::GridPoint;
use crate::geom::TilePoint;
use crate::geom::MAX_GRID_COORD;
use crate::geom::spec_twice_area;
use crate::tilemap::TileKey;
use crate::tilemap::TileMap;
use crate::tilemap::PolyView;
use crate::tilemap::map_get_or_empty;
use vstd::arithmetic::div_mod::lemma_fundamental_div_mod;
use vstd::arithmetic::div_mod::lemma_fundamental_div_mod_converse_div;
use vstd::arithmetic::div_mod::lemma_div_is_ordered;
use vstd::arithmetic::div_mod::lemma_div_pos_is_pos;
use vstd::arithmetic::div_mod::lemma_div_multiples_vanish;
use vstd::arithmetic::mul::lemma_mul_inequality;
use vstd::arithmetic::mul::lemma_mul_is_commutative;
use vstd::arithmetic::mul::lemma_mul_is_distributive_add;
use vstd::arithmetic::mul::lemma_mul_unary_negation;
use vstd::arithmetic::mul::lemma_mul_nonnegative;
use vstd::arithmetic::power2::pow2;
use vstd::arithmetic::power2::lemma2_to64;
use vstd::arithmetic::power2::lemma2_to64_rest;

pub open spec fn pt_in_bounds(p: GridPoint) -> bool {
    &&& -MAX_GRID_COORD <= p.x <= MAX_GRID_COORD
    &&& -MAX_GRID_COORD <= p.y <= MAX_GRID_COORD
}

pub open spec fn ring_in_bounds(s: Seq<GridPoint>) -> bool {
    forall|i: int| 0 <= i < s.len() ==> pt_in_bounds(#[trigger] s[i])
}

/// Flooring division by a positive divisor (the mathematical quotient,
/// which for non-negative remainders agrees with `/` on `int`).
fn div_floor(n: i64, d: i64) -> (q: i64)
    requires
        0 < d,
        -0x4000_0000_0000_0000 <= n <= 0x4000_0000_0000_0000,
    ensures
        q as int == (n as int) / (d as int),
{
    if n >= 0 {
        let q0: u64 = (n as u64) / (d as u64);
        proof {
            lemma_fundamental_div_mod(n as int, d as int);
            lemma_div_pos_is_pos(n as int, d as int);
            lemma_div_is_ordered(n as int, 0x4000_0000_0000_0000, d as int);
            vstd::arithmetic::div_mod::lemma_div_nonincreasing(
                0x4000_0000_0000_0000,
                d as int,
            );
        }
        q0 as i64
    } else {
        let m: u64 = (-n) as u64;
        let q0: u64 = m / (d as u64);
        let r0: u64 = m % (d as u64);
        proof {
            lemma_fundamental_div_mod(m as int, d as int);
            lemma_div_pos_is_pos(m as int, d as int);
            vstd::arithmetic::div_mod::lemma_div_nonincreasing(m as int, d as int);
            let qm = (m as int) / (d as int);
            assert(m as int == (d as int) * qm + (r0 as int));
            if r0 == 0 {
                assert((-m) as int == (-qm) * (d as int) + 0) by {
                    lemma_mul_unary_negation(qm, d as int);
                    lemma_mul_is_commutative(qm, d as int);
                    lemma_mul_is_commutative(-qm, d as int);
                }
                lemma_fundamental_div_mod_converse_div(n as int, d as int, -qm, 0);
            } else {
                assert((-m) as int == (-qm - 1) * (d as int) + ((d as int) - (r0 as int))) by {
                    lemma_mul_is_distributive_add(d as int, -qm, -1);
                    lemma_mul_unary_negation(qm, d as int);
                    lemma_mul_is_commutative(qm, d as int);
                    lemma_mul_is_commutative(-qm, d as int);
                    lemma_mul_is_commutative(-qm - 1, d as int);
                    assert((d as int) * (-qm - 1) == (d as int) * (-qm) + (d as int) * (-1));
                }
                lemma_fundamental_div_mod_converse_div(
                    n as int,
                    d as int,
                    -qm - 1,
                    (d as int) - (r0 as int),
                );
            }
        }
        if r0 == 0 {
            -(q0 as i64)
        } else {
            -(q0 as i64) - 1
        }
    }
}

/// Where `dy * t / den` lands when `0 < t < den`: between `0` and `dy`.
proof fn lemma_lerp_bound(dy: int, t: int, den: int)
    requires
        0 < t < den,
    ensures
        dy >= 0 ==> 0 <= (dy * t) / den <= dy,
        dy < 0 ==> dy <= (dy * t) / den <= 0,
{
    if dy >= 0 {
        lemma_mul_nonnegative(dy, t);
        lemma_div_pos_is_pos(dy * t, den);
        assert(dy * t <= dy * den) by {
            lemma_mul_inequality(t, den, dy);
            lemma_mul_is_commutative(t, dy);
            lemma_mul_is_commutative(den, dy);
        }
        lemma_div_is_ordered(dy * t, dy * den, den);
        assert((dy * den) / den == dy) by {
            lemma_div_multiples_vanish(dy, den);
            lemma_mul_is_commutative(dy, den);
        }
    } else {
        assert(dy * den <= dy * t) by {
            lemma_mul_inequality(t, den, -dy);
            lemma_mul_unary_negation(dy, t);
            lemma_mul_unary_negation(dy, den);
            lemma_mul_is_commutative(t, -dy);
            lemma_mul_is_commutative(den, -dy);
        }
        lemma_div_is_ordered(dy * den, dy * t, den);
        assert((dy * den) / den == dy) by {
            lemma_div_multiples_vanish(dy, den);
            lemma_mul_is_commutative(dy, den);
        }
        assert(dy * t <= 0) by {
            lemma_mul_nonnegative(-dy, t);
            lemma_mul_unary_negation(dy, t);
        }
        assert((dy * t) / den <= 0) by {
            lemma_div_is_ordered(dy * t, 0, den);
            vstd::arithmetic::div_mod::lemma_div_of0(den);
        }
    }
}

/// Ordinate of the segment from `a` to `b` where it crosses the sweep
/// line `x == k`, rounded down.  Exact linear interpolation up to the
/// fixed-point grid.
pub open spec fn spec_lerp(a: GridPoint, b: GridPoint, k: int) -> int {
    let num = (b.y - a.y) * (k - a.x);
    let den = b.x - a.x;
    if den > 0 {
        a.y + num / den
    } else {
        a.y + (-num) / (-den)
    }
}

/// `spec_lerp` stays between the two endpoint ordinates whenever `k` lies
/// strictly between the endpoint abscissas.
pub proof fn lemma_spec_lerp_between(a: GridPoint, b: GridPoint, k: int)
    requires
        a.x < k < b.x || b.x < k < a.x,
    ensures
        a.y <= b.y ==> a.y <= spec_lerp(a, b, k) <= b.y,
        b.y <= a.y ==> b.y <= spec_lerp(a, b, k) <= a.y,
{
    let dy = b.y - a.y;
    if a.x < k < b.x {
        lemma_lerp_bound(dy as int, k - a.x, b.x - a.x);
    } else {
        let num = dy * (k - a.x);
        assert(-num == dy * (a.x - k)) by {
            lemma_mul_unary_negation(dy as int, k - a.x);
            assert(dy * (-(k - a.x)) == dy * (a.x - k));
        }
        lemma_lerp_bound(dy as int, a.x - k, a.x - b.x);
    }
}

fn lerp_at(a: GridPoint, b: GridPoint, k: i64) -> (r: i64)
    requires
        pt_in_bounds(a),
        pt_in_bounds(b),
        -MAX_GRID_COORD <= k <= MAX_GRID_COORD,
        a.x < k < b.x || b.x < k < a.x,
    ensures
        r as int == spec_lerp(a, b, k as int),
        a.y <= b.y ==> a.y <= r <= b.y,
        b.y <= a.y ==> b.y <= r <= a.y,
{
    proof {
        lemma_spec_lerp_between(a, b, k as int);
        lemma_mul_bound_2pow31(b.y as int - a.y as int, k as int - a.x as int);
    }
    let dy: i64 = b.y - a.y;
    let num: i64 = dy * (k - a.x);
    let q: i64 = if b.x > a.x {
        div_floor(num, b.x - a.x)
    } else {
        div_floor(-num, a.x - b.x)
    };
    a.y + q
}

/// A product of two factors within `2^31` stays within `2^62`.
proof fn lemma_mul_bound_2pow31(p: int, q: int)
    by (nonlinear_arith)
    requires
        -0x8000_0000 <= p <= 0x8000_0000,
        -0x8000_0000 <= q <= 0x8000_0000,
    ensures
        -0x4000_0000_0000_0000 <= p * q <= 0x4000_0000_0000_0000,
{
}

/// What the clip sweep emits for one directed edge from `a` to `b` of a
/// closed ring, against the band `k1 <= x <= k2`: the point `a` itself if
/// it lies inside the band, and a crossing point on either boundary that
/// the edge crosses from outside in or inside out.
pub open spec fn spec_clip_step(a: GridPoint, b: GridPoint, k1: int, k2: int) -> Seq<GridPoint> {
    let first: Seq<GridPoint> = if a.x < k1 {
        if b.x > k1 {
            seq![GridPoint { x: k1 as i64, y: spec_lerp(a, b, k1) as i64 }]
        } else {
            seq![]
        }
    } else if a.x > k2 {
        if b.x < k2 {
            seq![GridPoint { x: k2 as i64, y: spec_lerp(a, b, k2) as i64 }]
        } else {
            seq![]
        }
    } else {
        seq![a]
    };
    let second: Seq<GridPoint> = if b.x < k1 && a.x > k1 {
        seq![GridPoint { x: k1 as i64, y: spec_lerp(a, b, k1) as i64 }]
    } else if b.x > k2 && a.x < k2 {
        seq![GridPoint { x: k2 as i64, y: spec_lerp(a, b, k2) as i64 }]
    } else {
        seq![]
    };
    first + second
}

/// Successor of point `i` on the closed ring.
pub open spec fn ring_next(s: Seq<GridPoint>, i: int) -> GridPoint {
    if i + 1 < s.len() {
        s[i + 1]
    } else {
        s[0]
    }
}

/// Concatenation of the clip-step output of the ring's first `n` edges.
pub open spec fn spec_clip_upto(s: Seq<GridPoint>, k1: int, k2: int, n: nat) -> Seq<GridPoint>
    decreases n,
{
    if n == 0 {
        Seq::empty()
    } else {
        spec_clip_upto(s, k1, k2, (n - 1) as nat) + spec_clip_step(
            s[n - 1],
            ring_next(s, n - 1),
            k1,
            k2,
        )
    }
}

/// The whole ring clipped against the vertical band `k1 <= x <= k2`.
pub open spec fn spec_clip_ring_x(s: Seq<GridPoint>, k1: int, k2: int) -> Seq<GridPoint> {
    spec_clip_upto(s, k1, k2, s.len())
}

/// Clip one closed ring against the vertical band `k1 <= x <= k2`,
/// walking the ring's edges and inserting an interpolated point wherever
/// an edge crosses one of the two boundaries.
pub fn clip_ring_x(ring: &Vec<GridPoint>, k1: i64, k2: i64) -> (out: Vec<GridPoint>)
    requires
        ring_in_bounds(ring@),
        -MAX_GRID_COORD <= k1 <= k2 <= MAX_GRID_COORD,
    ensures
        out@ == spec_clip_ring_x(ring@, k1 as int, k2 as int),
{
    let n = ring.len();
    let mut out: Vec<GridPoint> = Vec::new();
    let mut i: usize = 0;
    while i < n
        invariant
            i <= n,
            n == ring@.len(),
            ring_in_bounds(ring@),
            -MAX_GRID_COORD <= k1 <= k2 <= MAX_GRID_COORD,
            out@ == spec_clip_upto(ring@, k1 as int, k2 as int, i as nat),
        decreases n - i,
    {
        let a = ring[i];
        let b = if i + 1 < n {
            ring[i + 1]
        } else {
            ring[0]
        };
        proof {
            assert(b == ring_next(ring@, i as int));
        }
        let ghost out_before = out@;
        if a.x < k1 {
            if b.x > k1 {
                let y = lerp_at(a, b, k1);
                out.push(GridPoint { x: k1, y });
            }
        } else if a.x > k2 {
            if b.x < k2 {
                let y = lerp_at(a, b, k2);
                out.push(GridPoint { x: k2, y });
            }
        } else {
            out.push(a);
        }
        if b.x < k1 && a.x > k1 {
            let y = lerp_at(a, b, k1);
            out.push(GridPoint { x: k1, y });
        } else if b.x > k2 && a.x < k2 {
            let y = lerp_at(a, b, k2);
            out.push(GridPoint { x: k2, y });
        }
        proof {
            assert(out@ =~= out_before + spec_clip_step(a, b, k1 as int, k2 as int));
            assert(out@ =~= spec_clip_upto(ring@, k1 as int, k2 as int, (i + 1) as nat));
        }
        i = i + 1;
    }
    out
}

/// Clip completeness, inside case: a ring that lies entirely within the
/// band passes through the sweep unchanged.
pub proof fn lemma_clip_x_inside(s: Seq<GridPoint>, k1: int, k2: int)
    requires
        forall|i: int| 0 <= i < s.len() ==> k1 <= (#[trigger] s[i]).x <= k2,
    ensures
        spec_clip_ring_x(s, k1, k2) == s,
{
    assert forall|n: nat| n <= s.len() implies spec_clip_upto(s, k1, k2, n) =~= s.subrange(
        0,
        n as int,
    ) by {
        lemma_clip_upto_inside(s, k1, k2, n);
    }
    assert(spec_clip_ring_x(s, k1, k2) =~= s.subrange(0, s.len() as int));
    assert(s.subrange(0, s.len() as int) =~= s);
}

proof fn lemma_clip_upto_inside(s: Seq<GridPoint>, k1: int, k2: int, n: nat)
    requires
        n <= s.len(),
        forall|i: int| 0 <= i < s.len() ==> k1 <= (#[trigger] s[i]).x <= k2,
    ensures
        spec_clip_upto(s, k1, k2, n) =~= s.subrange(0, n as int),
    decreases n,
{
    if n > 0 {
        lemma_clip_upto_inside(s, k1, k2, (n - 1) as nat);
        let a = s[n - 1];
        let b = ring_next(s, n - 1 as int);
        assert(spec_clip_step(a, b, k1, k2) =~= seq![a]);
    }
}

/// Clip completeness, outside case: a ring that lies entirely on one side
/// of the band is clipped away.
pub proof fn lemma_clip_x_outside(s: Seq<GridPoint>, k1: int, k2: int)
    requires
        k1 <= k2,
        (forall|i: int| 0 <= i < s.len() ==> (#[trigger] s[i]).x < k1) || (forall|i: int|
            0 <= i < s.len() ==> (#[trigger] s[i]).x > k2),
    ensures
        spec_clip_ring_x(s, k1, k2) == Seq::<GridPoint>::empty(),
{
    lemma_clip_upto_outside(s, k1, k2, s.len());
    assert(spec_clip_ring_x(s, k1, k2) =~= Seq::<GridPoint>::empty());
}

proof fn lemma_clip_upto_outside(s: Seq<GridPoint>, k1: int, k2: int, n: nat)
    requires
        k1 <= k2,
        n <= s.len(),
        (forall|i: int| 0 <= i < s.len() ==> (#[trigger] s[i]).x < k1) || (forall|i: int|
            0 <= i < s.len() ==> (#[trigger] s[i]).x > k2),
    ensures
        spec_clip_upto(s, k1, k2, n) =~= Seq::<GridPoint>::empty(),
    decreases n,
{
    if n > 0 {
        lemma_clip_upto_outside(s, k1, k2, (n - 1) as nat);
        let a = s[n - 1];
        let b = ring_next(s, n - 1 as int);
        if forall|i: int| 0 <= i < s.len() ==> (#[trigger] s[i]).x < k1 {
            assert(a.x < k1);
            assert(b.x < k1) by {
                if n < s.len() {
                    assert(b == s[n as int]);
                } else {
                    assert(b == s[0]);
                }
            }
            assert(spec_clip_step(a, b, k1, k2) =~= Seq::<GridPoint>::empty());
        } else {
            assert(forall|i: int| 0 <= i < s.len() ==> (#[trigger] s[i]).x > k2);
            assert(a.x > k2);
            assert(b.x > k2) by {
                if n < s.len() {
                    assert(b == s[n as int]);
                } else {
                    assert(b == s[0]);
                }
            }
            assert(spec_clip_step(a, b, k1, k2) =~= Seq::<GridPoint>::empty());
        }
    }
}

/// Every point the sweep emits lies inside the band, and within the
/// coordinate bounds of the plane.
pub proof fn lemma_clip_x_bounds(s: Seq<GridPoint>, k1: int, k2: int)
    requires
        ring_in_bounds(s),
        -MAX_GRID_COORD <= k1 <= k2 <= MAX_GRID_COORD,
    ensures
        forall|j: int|
            0 <= j < spec_clip_ring_x(s, k1, k2).len() ==> {
                let p = #[trigger] spec_clip_ring_x(s, k1, k2)[j];
                k1 <= p.x <= k2 && pt_in_bounds(p)
            },
{
    lemma_clip_upto_bounds(s, k1, k2, s.len());
}

proof fn lemma_clip_upto_bounds(s: Seq<GridPoint>, k1: int, k2: int, n: nat)
    requires
        n <= s.len(),
        ring_in_bounds(s),
        -MAX_GRID_COORD <= k1 <= k2 <= MAX_GRID_COORD,
    ensures
        forall|j: int|
            0 <= j < spec_clip_upto(s, k1, k2, n).len() ==> {
                let p = #[trigger] spec_clip_upto(s, k1, k2, n)[j];
                k1 <= p.x <= k2 && pt_in_bounds(p)
            },
    decreases n,
{
    if n > 0 {
        lemma_clip_upto_bounds(s, k1, k2, (n - 1) as nat);
        let a = s[n - 1];
        let b = ring_next(s, n - 1 as int);
        assert(pt_in_bounds(a) && pt_in_bounds(b));
        if a.x < k1 && b.x > k1 {
            lemma_spec_lerp_between(a, b, k1);
        }
        if a.x > k2 && b.x < k2 {
            lemma_spec_lerp_between(a, b, k2);
        }
        if b.x < k1 && a.x > k1 {
            lemma_spec_lerp_between(a, b, k1);
        }
        if b.x > k2 && a.x < k2 {
            lemma_spec_lerp_between(a, b, k2);
        }
        assert forall|j: int|
            0 <= j < spec_clip_step(a, b, k1, k2).len() implies {
            let p = #[trigger] spec_clip_step(a, b, k1, k2)[j];
            k1 <= p.x <= k2 && pt_in_bounds(p)
        } by {
        }
        let prev = spec_clip_upto(s, k1, k2, (n - 1) as nat);
        let step = spec_clip_step(a, b, k1, k2);
        assert(spec_clip_upto(s, k1, k2, n) == prev + step);
        assert forall|j: int|
            0 <= j < spec_clip_upto(s, k1, k2, n).len() implies {
            let p = #[trigger] spec_clip_upto(s, k1, k2, n)[j];
            k1 <= p.x <= k2 && pt_in_bounds(p)
        } by {
            if j < prev.len() {
                assert(spec_clip_upto(s, k1, k2, n)[j] == prev[j]);
            } else {
                assert(spec_clip_upto(s, k1, k2, n)[j] == step[j - prev.len()]);
            }
        }
    }
}

/// The same point with its axes exchanged.
pub open spec fn spec_swap_pt(p: GridPoint) -> GridPoint {
    GridPoint { x: p.y, y: p.x }
}

pub open spec fn spec_swap(s: Seq<GridPoint>) -> Seq<GridPoint> {
    s.map_values(|p: GridPoint| spec_swap_pt(p))
}

fn swap_ring(ring: &Vec<GridPoint>) -> (out: Vec<GridPoint>)
    ensures
        out@ =~= spec_swap(ring@),
{
    let n = ring.len();
    let mut out: Vec<GridPoint> = Vec::new();
    let mut i: usize = 0;
    while i < n
        invariant
            i <= n,
            n == ring@.len(),
            out@ =~= spec_swap(ring@).subrange(0, i as int),
        decreases n - i,
    {
        let p = ring[i];
        out.push(GridPoint { x: p.y, y: p.x });
        proof {
            assert(out@ =~= spec_swap(ring@).subrange(0, i + 1 as int));
        }
        i = i + 1;
    }
    proof {
        assert(spec_swap(ring@).subrange(0, n as int) =~= spec_swap(ring@));
    }
    out
}

/// The whole ring clipped against the horizontal band `k1 <= y <= k2`:
/// the vertical sweep on the axis-swapped plane, swapped back.
pub open spec fn spec_clip_ring_y(s: Seq<GridPoint>, k1: int, k2: int) -> Seq<GridPoint> {
    spec_swap(spec_clip_ring_x(spec_swap(s), k1, k2))
}

/// Clip one closed ring against the horizontal band `k1 <= y <= k2`.
pub fn clip_ring_y(ring: &Vec<GridPoint>, k1: i64, k2: i64) -> (out: Vec<GridPoint>)
    requires
        ring_in_bounds(ring@),
        -MAX_GRID_COORD <= k1 <= k2 <= MAX_GRID_COORD,
    ensures
        out@ =~= spec_clip_ring_y(ring@, k1 as int, k2 as int),
{
    let swapped = swap_ring(ring);
    proof {
        assert(ring_in_bounds(swapped@)) by {
            assert forall|i: int| 0 <= i < swapped@.len() implies pt_in_bounds(
                #[trigger] swapped@[i],
            ) by {
                assert(swapped@[i] == spec_swap_pt(ring@[i]));
            }
        }
    }
    let clipped = clip_ring_x(&swapped, k1, k2);
    swap_ring(&clipped)
}

/// Translate grid points into one tile's local frame.  The caller
/// guarantees the points already lie in the tile's buffered window, so
/// the differences fit the 16-bit tile grid.
pub open spec fn spec_to_local(s: Seq<GridPoint>, ox: int, oy: int) -> Seq<TilePoint> {
    s.map_values(|p: GridPoint| TilePoint { x: (p.x - ox) as i16, y: (p.y - oy) as i16 })
}

fn to_local(ring: &Vec<GridPoint>, ox: i64, oy: i64) -> (out: Vec<TilePoint>)
    requires
        -MAX_GRID_COORD <= ox <= MAX_GRID_COORD,
        -MAX_GRID_COORD <= oy <= MAX_GRID_COORD,
        forall|i: int|
            0 <= i < ring@.len() ==> {
                let p = #[trigger] ring@[i];
                &&& -0x8000 <= p.x - ox < 0x8000
                &&& -0x8000 <= p.y - oy < 0x8000
                &&& pt_in_bounds(p)
            },
    ensures
        out@ =~= spec_to_local(ring@, ox as int, oy as int),
{
    let n = ring.len();
    let mut out: Vec<TilePoint> = Vec::new();
    let mut i: usize = 0;
    while i < n
        invariant
            i <= n,
            n == ring@.len(),
            -MAX_GRID_COORD <= ox <= MAX_GRID_COORD,
            -MAX_GRID_COORD <= oy <= MAX_GRID_COORD,
            forall|j: int|
                0 <= j < ring@.len() ==> {
                    let p = #[trigger] ring@[j];
                    &&& -0x8000 <= p.x - ox < 0x8000
                    &&& -0x8000 <= p.y - oy < 0x8000
                    &&& pt_in_bounds(p)
                },
            out@ =~= spec_to_local(ring@, ox as int, oy as int).subrange(0, i as int),
        decreases n - i,
    {
        let p = ring[i];
        let tx: i64 = p.x - ox;
        let ty: i64 = p.y - oy;
        out.push(TilePoint { x: tx as i16, y: ty as i16 });
        proof {
            assert(out@ =~= spec_to_local(ring@, ox as int, oy as int).subrange(0, i + 1 as int));
        }
        i = i + 1;
    }
    proof {
        assert(spec_to_local(ring@, ox as int, oy as int).subrange(0, n as int) =~= spec_to_local(
            ring@,
            ox as int,
            oy as int,
        ));
    }
    out
}

/// Remove the repeated closing point, if the ring carries one.
pub open spec fn spec_drop_closing(s: Seq<TilePoint>) -> Seq<TilePoint> {
    if s.len() >= 2 && s[0] == s.last() {
        s.drop_last()
    } else {
        s
    }
}

fn drop_closing(ring: &mut Vec<TilePoint>)
    ensures
        final(ring)@ =~= spec_drop_closing(old(ring)@),
{
    let n = ring.len();
    if n >= 2 {
        let first = ring[0];
        let last = ring[n - 1];
        if first.x == last.x && first.y == last.y {
            proof {
                assert(old(ring)@[0] == old(ring)@.last());
            }
            ring.pop();
            proof {
                assert(ring@ =~= old(ring)@.drop_last());
            }
        }
    }
}

pub open spec fn int_abs(x: int) -> int {
    if x < 0 {
        -x
    } else {
        x
    }
}

/// Whether the middle point of the window `(s[i-1], s[i], s[i+1])`
/// survives simplification: it is dropped when it repeats its
/// predecessor, or when the three points are collinear by the exact
/// integer cross-product test (and the middle does not repeat its
/// successor).
pub open spec fn keep_mid(s: Seq<TilePoint>, i: int) -> bool {
    let prev = s[i - 1];
    let curr = s[i];
    let next = s[i + 1];
    &&& !(prev == curr)
    &&& !(curr != next && int_abs((next.y - prev.y) * (curr.x - prev.x)) == int_abs(
        (curr.y - prev.y) * (next.x - prev.x),
    ))
}

/// The middle points with index in `[1, n)` that simplification keeps.
pub open spec fn mids_upto(s: Seq<TilePoint>, n: nat) -> Seq<TilePoint>
    decreases n,
{
    if n <= 1 {
        Seq::empty()
    } else {
        mids_upto(s, (n - 1) as nat) + (if keep_mid(s, n - 1 as int) {
            seq![s[n - 1]]
        } else {
            Seq::empty()
        })
    }
}

/// The simplified ring: first and last point always stay; middle points
/// stay when `keep_mid` holds of their window.
pub open spec fn spec_simplify(s: Seq<TilePoint>) -> Seq<TilePoint> {
    seq![s[0]] + mids_upto(s, (s.len() - 1) as nat) + seq![s.last()]
}

/// Remove consecutive duplicate points and strictly collinear interior
/// points, keeping the ring ends.
pub fn simplify_ring(pts: &Vec<TilePoint>) -> (out: Vec<TilePoint>)
    requires
        pts@.len() >= 3,
    ensures
        out@ =~= spec_simplify(pts@),
{
    let n = pts.len();
    let mut out: Vec<TilePoint> = Vec::new();
    out.push(pts[0]);
    let mut i: usize = 1;
    while i < n - 1
        invariant
            1 <= i <= n - 1,
            n == pts@.len() >= 3,
            out@ =~= seq![pts@[0]] + mids_upto(pts@, i as nat),
        decreases n - i,
    {
        let prev = pts[i - 1];
        let curr = pts[i];
        let next = pts[i + 1];
        let dup = prev.x == curr.x && prev.y == curr.y;
        proof {
            crate::geom::lemma_i16_product_bound_wide(
                next.y as int - prev.y as int,
                curr.x as int - prev.x as int,
            );
            crate::geom::lemma_i16_product_bound_wide(
                curr.y as int - prev.y as int,
                next.x as int - prev.x as int,
            );
        }
        let cross_a: i64 = (next.y as i64 - prev.y as i64) * (curr.x as i64 - prev.x as i64);
        let cross_b: i64 = (curr.y as i64 - prev.y as i64) * (next.x as i64 - prev.x as i64);
        let abs_a: i64 = if cross_a < 0 {
            -cross_a
        } else {
            cross_a
        };
        let abs_b: i64 = if cross_b < 0 {
            -cross_b
        } else {
            cross_b
        };
        let curr_eq_next = curr.x == next.x && curr.y == next.y;
        let collinear = !curr_eq_next && abs_a == abs_b;
        if !dup && !collinear {
            out.push(curr);
        }
        proof {
            assert(out@ =~= seq![pts@[0]] + mids_upto(pts@, (i + 1) as nat));
        }
        i = i + 1;
    }
    out.push(pts[n - 1]);
    proof {
        assert(out@ =~= spec_simplify(pts@));
    }
    out
}

/// A ring whose windows all pass `keep_mid` comes through simplification
/// unchanged.
pub proof fn lemma_simplify_identity(s: Seq<TilePoint>)
    requires
        s.len() >= 3,
        forall|i: int| 1 <= i < s.len() - 1 ==> keep_mid(s, i),
    ensures
        spec_simplify(s) == s,
{
    lemma_mids_upto_full(s, (s.len() - 1) as nat);
    assert(spec_simplify(s) =~= s);
}

proof fn lemma_mids_upto_full(s: Seq<TilePoint>, n: nat)
    requires
        s.len() >= 3,
        1 <= n <= s.len() - 1,
        forall|i: int| 1 <= i < s.len() - 1 ==> keep_mid(s, i),
    ensures
        mids_upto(s, n) =~= s.subrange(1, n as int),
    decreases n,
{
    if n > 1 {
        lemma_mids_upto_full(s, (n - 1) as nat);
    }
}

/// The ring in reverse order, flipping its winding.
pub fn reversed_ring(pts: &Vec<TilePoint>) -> (out: Vec<TilePoint>)
    ensures
        out@ =~= pts@.reverse(),
{
    let n = pts.len();
    let mut out: Vec<TilePoint> = Vec::new();
    let mut i: usize = 0;
    while i < n
        invariant
            i <= n,
            n == pts@.len(),
            out@.len() == i,
            forall|j: int| 0 <= j < i ==> out@[j] == pts@[n - 1 - j],
        decreases n - i,
    {
        out.push(pts[n - 1 - i]);
        i = i + 1;
    }
    proof {
        assert(out@ =~= pts@.reverse());
    }
    out
}

/// Coordinate bound on the polygons handed to the slicer: half of the
/// plane bound, so that every tile window around them still fits it.
pub const MAX_SLICE_COORD: i64 = 0x2000_0000;

pub open spec fn pt_in_slice_bounds(p: GridPoint) -> bool {
    &&& -MAX_SLICE_COORD <= p.x <= MAX_SLICE_COORD
    &&& -MAX_SLICE_COORD <= p.y <= MAX_SLICE_COORD
}

pub open spec fn ring_in_slice_bounds(s: Seq<GridPoint>) -> bool {
    forall|i: int| 0 <= i < s.len() ==> pt_in_slice_bounds(#[trigger] s[i])
}

/// Smallest abscissa among the first `n` points.
pub open spec fn min_x_upto(s: Seq<GridPoint>, n: nat) -> int
    decreases n,
{
    if n <= 1 {
        s[0].x as int
    } else {
        let m = min_x_upto(s, (n - 1) as nat);
        if (s[n - 1].x as int) < m {
            s[n - 1].x as int
        } else {
            m
        }
    }
}

pub open spec fn max_x_upto(s: Seq<GridPoint>, n: nat) -> int
    decreases n,
{
    if n <= 1 {
        s[0].x as int
    } else {
        let m = max_x_upto(s, (n - 1) as nat);
        if (s[n - 1].x as int) > m {
            s[n - 1].x as int
        } else {
            m
        }
    }
}

pub open spec fn min_y_upto(s: Seq<GridPoint>, n: nat) -> int
    decreases n,
{
    if n <= 1 {
        s[0].y as int
    } else {
        let m = min_y_upto(s, (n - 1) as nat);
        if (s[n - 1].y as int) < m {
            s[n - 1].y as int
        } else {
            m
        }
    }
}

pub open spec fn max_y_upto(s: Seq<GridPoint>, n: nat) -> int
    decreases n,
{
    if n <= 1 {
        s[0].y as int
    } else {
        let m = max_y_upto(s, (n - 1) as nat);
        if (s[n - 1].y as int) > m {
            s[n - 1].y as int
        } else {
            m
        }
    }
}

pub open spec fn spec_min_x(s: Seq<GridPoint>) -> int {
    min_x_upto(s, s.len())
}

pub open spec fn spec_max_x(s: Seq<GridPoint>) -> int {
    max_x_upto(s, s.len())
}

pub open spec fn spec_min_y(s: Seq<GridPoint>) -> int {
    min_y_upto(s, s.len())
}

pub open spec fn spec_max_y(s: Seq<GridPoint>) -> int {
    max_y_upto(s, s.len())
}

fn ring_extent_x(ring: &Vec<GridPoint>) -> (r: (i64, i64))
    requires
        ring@.len() > 0,
        ring_in_bounds(ring@),
    ensures
        r.0 as int == spec_min_x(ring@),
        r.1 as int == spec_max_x(ring@),
        -MAX_GRID_COORD <= r.0 <= MAX_GRID_COORD,
        -MAX_GRID_COORD <= r.1 <= MAX_GRID_COORD,
{
    let n = ring.len();
    let mut lo: i64 = ring[0].x;
    let mut hi: i64 = ring[0].x;
    let mut i: usize = 1;
    while i < n
        invariant
            1 <= i <= n,
            n == ring@.len(),
            ring_in_bounds(ring@),
            lo as int == min_x_upto(ring@, i as nat),
            hi as int == max_x_upto(ring@, i as nat),
            -MAX_GRID_COORD <= lo <= MAX_GRID_COORD,
            -MAX_GRID_COORD <= hi <= MAX_GRID_COORD,
        decreases n - i,
    {
        let c = ring[i];
        if c.x < lo {
            lo = c.x;
        }
        if c.x > hi {
            hi = c.x;
        }
        i = i + 1;
    }
    (lo, hi)
}

fn ring_extent_y(ring: &Vec<GridPoint>) -> (r: (i64, i64))
    requires
        ring@.len() > 0,
        ring_in_bounds(ring@),
    ensures
        r.0 as int == spec_min_y(ring@),
        r.1 as int == spec_max_y(ring@),
        -MAX_GRID_COORD <= r.0 <= MAX_GRID_COORD,
        -MAX_GRID_COORD <= r.1 <= MAX_GRID_COORD,
{
    let n = ring.len();
    let mut lo: i64 = ring[0].y;
    let mut hi: i64 = ring[0].y;
    let mut i: usize = 1;
    while i < n
        invariant
            1 <= i <= n,
            n == ring@.len(),
            ring_in_bounds(ring@),
            lo as int == min_y_upto(ring@, i as nat),
            hi as int == max_y_upto(ring@, i as nat),
            -MAX_GRID_COORD <= lo <= MAX_GRID_COORD,
            -MAX_GRID_COORD <= hi <= MAX_GRID_COORD,
        decreases n - i,
    {
        let c = ring[i];
        if c.y < lo {
            lo = c.y;
        }
        if c.y > hi {
            hi = c.y;
        }
        i = i + 1;
    }
    (lo, hi)
}

/// First tile index of a coordinate span, clamped to the grid (negative
/// columns and rows fall off the tile pyramid, as they do when a float
/// coordinate is cast to an unsigned index).
pub open spec fn tile_lo(v: int, extent: int) -> int {
    if v / extent < 0 {
        0
    } else {
        v / extent
    }
}

/// One past the last tile index of a coordinate span, clamped to the grid.
pub open spec fn tile_hi(v: int, extent: int) -> int {
    if (v + extent - 1) / extent < 0 {
        0
    } else {
        (v + extent - 1) / extent
    }
}

/// Clipping keeps the untouched axis inside the input's bounds: the sweep
/// only ever emits input points and interpolations between neighbours.
proof fn lemma_clip_upto_y_range(s: Seq<GridPoint>, k1: int, k2: int, ylo: int, yhi: int, n: nat)
    requires
        n <= s.len(),
        forall|i: int| 0 <= i < s.len() ==> ylo <= (#[trigger] s[i]).y <= yhi,
    ensures
        forall|j: int|
            0 <= j < spec_clip_upto(s, k1, k2, n).len() ==> ylo <= (#[trigger] spec_clip_upto(
                s,
                k1,
                k2,
                n,
            )[j]).y <= yhi,
    decreases n,
{
    if n > 0 {
        lemma_clip_upto_y_range(s, k1, k2, ylo, yhi, (n - 1) as nat);
        let a = s[n - 1];
        let b = ring_next(s, n - 1 as int);
        assert(ylo <= b.y <= yhi) by {
            if n < s.len() {
                assert(b == s[n as int]);
            } else {
                assert(b == s[0]);
            }
        }
        if a.x < k1 && b.x > k1 {
            lemma_spec_lerp_between(a, b, k1);
        }
        if a.x > k2 && b.x < k2 {
            lemma_spec_lerp_between(a, b, k2);
        }
        if b.x < k1 && a.x > k1 {
            lemma_spec_lerp_between(a, b, k1);
        }
        if b.x > k2 && a.x < k2 {
            lemma_spec_lerp_between(a, b, k2);
        }
        let prev = spec_clip_upto(s, k1, k2, (n - 1) as nat);
        let step = spec_clip_step(a, b, k1, k2);
        assert forall|j: int|
            0 <= j < spec_clip_upto(s, k1, k2, n).len() implies ylo <= (#[trigger] spec_clip_upto(
            s,
            k1,
            k2,
            n,
        )[j]).y <= yhi by {
            if j < prev.len() {
                assert(spec_clip_upto(s, k1, k2, n)[j] == prev[j]);
            } else {
                assert(spec_clip_upto(s, k1, k2, n)[j] == step[j - prev.len()]);
            }
        }
    }
}

/// Bounds of the horizontal clip: every output point keeps the input's
/// abscissa bounds, lands inside the band on the ordinate, and stays on
/// the bounded plane.
pub proof fn lemma_clip_y_bounds(s: Seq<GridPoint>, k1: int, k2: int, xlo: int, xhi: int)
    requires
        ring_in_bounds(s),
        -MAX_GRID_COORD <= k1 <= k2 <= MAX_GRID_COORD,
        -MAX_GRID_COORD <= xlo,
        xhi <= MAX_GRID_COORD,
        forall|i: int| 0 <= i < s.len() ==> xlo <= (#[trigger] s[i]).x <= xhi,
    ensures
        forall|j: int|
            0 <= j < spec_clip_ring_y(s, k1, k2).len() ==> {
                let p = #[trigger] spec_clip_ring_y(s, k1, k2)[j];
                &&& k1 <= p.y <= k2
                &&& xlo <= p.x <= xhi
                &&& pt_in_bounds(p)
            },
{
    let sw = spec_swap(s);
    assert forall|i: int| 0 <= i < sw.len() implies pt_in_bounds(#[trigger] sw[i]) && xlo <= sw[i].y
        <= xhi by {
        assert(sw[i] == spec_swap_pt(s[i]));
    }
    let cl = spec_clip_ring_x(sw, k1, k2);
    lemma_clip_x_bounds(sw, k1, k2);
    lemma_clip_upto_y_range(sw, k1, k2, xlo, xhi, sw.len());
    assert forall|j: int|
        0 <= j < spec_clip_ring_y(s, k1, k2).len() implies {
        let p = #[trigger] spec_clip_ring_y(s, k1, k2)[j];
        &&& k1 <= p.y <= k2
        &&& xlo <= p.x <= xhi
        &&& pt_in_bounds(p)
    } by {
        assert(spec_clip_ring_y(s, k1, k2)[j] == spec_swap_pt(cl[j]));
    }
}

/// Twice the minimum visible area: an exterior ring below this (four
/// square subpixels of signed area) is culled as invisible.
pub const MIN_VISIBLE_AREA_X2: i128 = 8;

pub open spec fn spec_window_lo(idx: int, extent: int, buffer: int) -> int {
    idx * extent - buffer
}

pub open spec fn spec_window_hi(idx: int, extent: int, buffer: int) -> int {
    (idx + 1) * extent + buffer
}

/// One input ring carried into the local frame of tile `(xi, yi)`: clipped
/// to the tile's buffered window on both axes, translated to tile-local
/// coordinates, and stripped of a repeated closing point.
pub open spec fn spec_cell_ring(
    ring: Seq<GridPoint>,
    extent: int,
    buffer: int,
    xi: int,
    yi: int,
) -> Seq<TilePoint> {
    let xed = spec_clip_ring_x(
        ring,
        spec_window_lo(xi, extent, buffer),
        spec_window_hi(xi, extent, buffer),
    );
    let yed = spec_clip_ring_y(
        xed,
        spec_window_lo(yi, extent, buffer),
        spec_window_hi(yi, extent, buffer),
    );
    spec_drop_closing(spec_to_local(yed, xi * extent, yi * extent))
}

/// The ring as tile `(xi, yi)` receives it, or nothing when it degenerates
/// to fewer than three points: simplified, with its winding reversed.
pub open spec fn spec_ring_kept(
    ring: Seq<GridPoint>,
    extent: int,
    buffer: int,
    xi: int,
    yi: int,
) -> Option<Seq<TilePoint>> {
    let c = spec_cell_ring(ring, extent, buffer, xi, yi);
    if c.len() < 3 {
        None
    } else {
        Some(spec_simplify(c).reverse())
    }
}

/// The hole rings (ring indices `1..n`) that tile `(xi, yi)` keeps.
pub open spec fn spec_cell_interiors_upto(
    rings: Seq<Seq<GridPoint>>,
    extent: int,
    buffer: int,
    xi: int,
    yi: int,
    n: nat,
) -> Seq<Seq<TilePoint>>
    decreases n,
{
    if n <= 1 {
        Seq::empty()
    } else {
        spec_cell_interiors_upto(rings, extent, buffer, xi, yi, (n - 1) as nat) + (
        match spec_ring_kept(rings[n - 1], extent, buffer, xi, yi) {
            Some(r) => seq![r],
            None => Seq::empty(),
        })
    }
}

/// What one source polygon contributes to tile `(xi, yi)`: nothing when
/// its exterior ring degenerates or falls below the visible-area
/// threshold there; otherwise the exterior followed by the surviving
/// holes.  A hole whose exterior was rejected is dropped with it.
pub open spec fn spec_cell_polygon(
    rings: Seq<Seq<GridPoint>>,
    extent: int,
    buffer: int,
    xi: int,
    yi: int,
) -> Option<Seq<Seq<TilePoint>>> {
    if rings.len() == 0 {
        None
    } else {
        match spec_ring_kept(rings[0], extent, buffer, xi, yi) {
            None => None,
            Some(ext) => {
                if spec_twice_area(ext) < MIN_VISIBLE_AREA_X2 as int {
                    None
                } else {
                    Some(
                        seq![ext] + spec_cell_interiors_upto(
                            rings,
                            extent,
                            buffer,
                            xi,
                            yi,
                            rings.len(),
                        ),
                    )
                }
            },
        }
    }
}

/// Record one cell's contribution in the accumulated per-tile map.
pub open spec fn spec_cell_step(
    m: Map<TileKey, Seq<PolyView>>,
    rings: Seq<Seq<GridPoint>>,
    zoom: u8,
    extent: int,
    buffer: int,
    xi: int,
    yi: int,
) -> Map<TileKey, Seq<PolyView>> {
    match spec_cell_polygon(rings, extent, buffer, xi, yi) {
        None => m,
        Some(p) => {
            let key = (zoom, xi as u32, yi as u32);
            m.insert(key, map_get_or_empty(m, key).push(p))
        },
    }
}

/// The row span of tiles that column `xi` can receive: derived from the
/// vertical extent of the exterior ring clipped to the column.
pub open spec fn spec_col_y_range(
    rings: Seq<Seq<GridPoint>>,
    extent: int,
    buffer: int,
    xi: int,
) -> (int, int) {
    let xed0 = spec_clip_ring_x(
        rings[0],
        spec_window_lo(xi, extent, buffer),
        spec_window_hi(xi, extent, buffer),
    );
    if xed0.len() == 0 {
        (0, 0)
    } else {
        (tile_lo(spec_min_y(xed0), extent), tile_hi(spec_max_y(xed0), extent))
    }
}

pub open spec fn spec_fold_y(
    m: Map<TileKey, Seq<PolyView>>,
    rings: Seq<Seq<GridPoint>>,
    zoom: u8,
    extent: int,
    buffer: int,
    xi: int,
    yi: int,
    y_hi: int,
) -> Map<TileKey, Seq<PolyView>>
    decreases y_hi - yi,
{
    if yi >= y_hi {
        m
    } else {
        spec_fold_y(
            spec_cell_step(m, rings, zoom, extent, buffer, xi, yi),
            rings,
            zoom,
            extent,
            buffer,
            xi,
            yi + 1,
            y_hi,
        )
    }
}

pub open spec fn spec_fold_col(
    m: Map<TileKey, Seq<PolyView>>,
    rings: Seq<Seq<GridPoint>>,
    zoom: u8,
    extent: int,
    buffer: int,
    xi: int,
) -> Map<TileKey, Seq<PolyView>> {
    let r = spec_col_y_range(rings, extent, buffer, xi);
    spec_fold_y(m, rings, zoom, extent, buffer, xi, r.0, r.1)
}

pub open spec fn spec_fold_x(
    m: Map<TileKey, Seq<PolyView>>,
    rings: Seq<Seq<GridPoint>>,
    zoom: u8,
    extent: int,
    buffer: int,
    xi: int,
    x_hi: int,
) -> Map<TileKey, Seq<PolyView>>
    decreases x_hi - xi,
{
    if xi >= x_hi {
        m
    } else {
        spec_fold_x(
            spec_fold_col(m, rings, zoom, extent, buffer, xi),
            rings,
            zoom,
            extent,
            buffer,
            xi + 1,
            x_hi,
        )
    }
}

/// The per-tile map after slicing one polygon at one zoom level into the
/// tile columns and rows spanned by its exterior ring.
pub open spec fn spec_slice_polygon(
    m: Map<TileKey, Seq<PolyView>>,
    rings: Seq<Seq<GridPoint>>,
    zoom: u8,
    extent: int,
    buffer: int,
) -> Map<TileKey, Seq<PolyView>> {
    if rings.len() == 0 || rings[0].len() == 0 {
        m
    } else {
        spec_fold_x(
            m,
            rings,
            zoom,
            extent,
            buffer,
            tile_lo(spec_min_x(rings[0]), extent),
            tile_hi(spec_max_x(rings[0]), extent),
        )
    }
}

pub open spec fn rings_view(rs: Seq<Vec<GridPoint>>) -> Seq<Seq<GridPoint>> {
    rs.map_values(|v: Vec<GridPoint>| v@)
}

/// Window and origin arithmetic facts for one tile index.
proof fn lemma_window_arith(xi: int, e: int, b: int)
    by (nonlinear_arith)
    requires
        0 <= xi,
        1 <= e,
        0 <= b,
        (xi + 1) * e + b <= MAX_GRID_COORD,
    ensures
        0 <= xi * e <= MAX_GRID_COORD,
        (xi + 1) * e == xi * e + e,
        spec_window_lo(xi, e, b) == xi * e - b,
        spec_window_hi(xi, e, b) == xi * e + e + b,
        -MAX_GRID_COORD <= xi * e - b,
{
}

/// A tile index below `tile_hi(v, e)` has its whole buffered window on
/// the bounded plane, provided the span `v` is within the slicer bound.
proof fn lemma_window_fits(xi: int, v: int, e: int, b: int)
    requires
        1 <= e,
        0 <= b,
        e + b <= 0x7fff,
        v <= MAX_SLICE_COORD,
        0 <= xi,
        xi < tile_hi(v, e),
    ensures
        (xi + 1) * e + b <= MAX_GRID_COORD,
        xi + 1 <= MAX_GRID_COORD,
{
    let q = (v + e - 1) / e;
    assert(q > 0);
    assert(xi + 1 <= q);
    assert((xi + 1) * e <= q * e) by {
        lemma_mul_inequality(xi + 1, q, e);
        lemma_mul_is_commutative(xi + 1, e);
        lemma_mul_is_commutative(q, e);
    }
    assert(q * e <= v + e - 1) by {
        lemma_fundamental_div_mod(v + e - 1, e);
        lemma_mul_is_commutative(q, e);
    }
    assert(xi + 1 <= (xi + 1) * e) by {
        lemma_mul_inequality(1, e, xi + 1);
        lemma_mul_is_commutative(1, xi + 1);
        lemma_mul_is_commutative(e, xi + 1);
    }
}

proof fn lemma_max_x_le(s: Seq<GridPoint>, n: nat, bound: int)
    requires
        1 <= n <= s.len(),
        forall|i: int| 0 <= i < s.len() ==> (#[trigger] s[i]).x <= bound,
    ensures
        max_x_upto(s, n) <= bound,
    decreases n,
{
    if n > 1 {
        lemma_max_x_le(s, (n - 1) as nat, bound);
    }
}

proof fn lemma_max_y_le(s: Seq<GridPoint>, n: nat, bound: int)
    requires
        1 <= n <= s.len(),
        forall|i: int| 0 <= i < s.len() ==> (#[trigger] s[i]).y <= bound,
    ensures
        max_y_upto(s, n) <= bound,
    decreases n,
{
    if n > 1 {
        lemma_max_y_le(s, (n - 1) as nat, bound);
    }
}

/// One x-clipped ring carried the rest of the way into the local frame of
/// tile `(xi, yi)`.
fn cell_ring_exec(
    xed: &Vec<GridPoint>,
    Ghost(ring): Ghost<Seq<GridPoint>>,
    extent: u32,
    buffer: u32,
    xi: i64,
    yi: i64,
) -> (c: Vec<TilePoint>)
    requires
        1 <= extent,
        extent + buffer <= 0x7fff,
        ring_in_bounds(ring),
        0 <= xi,
        0 <= yi,
        xi + 1 <= MAX_GRID_COORD,
        yi + 1 <= MAX_GRID_COORD,
        (xi + 1) * (extent as int) + buffer <= MAX_GRID_COORD,
        (yi + 1) * (extent as int) + buffer <= MAX_GRID_COORD,
        xed@ == spec_clip_ring_x(
            ring,
            spec_window_lo(xi as int, extent as int, buffer as int),
            spec_window_hi(xi as int, extent as int, buffer as int),
        ),
    ensures
        c@ == spec_cell_ring(ring, extent as int, buffer as int, xi as int, yi as int),
{
    let e64: i64 = extent as i64;
    let b64: i64 = buffer as i64;
    proof {
        lemma_window_arith(xi as int, extent as int, buffer as int);
        lemma_window_arith(yi as int, extent as int, buffer as int);
    }
    let k1x: i64 = xi * e64 - b64;
    let k2x: i64 = (xi + 1) * e64 + b64;
    let k1y: i64 = yi * e64 - b64;
    let k2y: i64 = (yi + 1) * e64 + b64;
    proof {
        lemma_clip_x_bounds(ring, k1x as int, k2x as int);
        assert(ring_in_bounds(xed@));
        lemma_clip_y_bounds(xed@, k1y as int, k2y as int, k1x as int, k2x as int);
    }
    let yed = clip_ring_y(xed, k1y, k2y);
    let ox: i64 = xi * e64;
    let oy: i64 = yi * e64;
    proof {
        assert forall|i: int| 0 <= i < yed@.len() implies {
            let p = #[trigger] yed@[i];
            &&& -0x8000 <= p.x - ox < 0x8000
            &&& -0x8000 <= p.y - oy < 0x8000
            &&& pt_in_bounds(p)
        } by {
            assert(yed@[i] == spec_clip_ring_y(xed@, k1y as int, k2y as int)[i]);
        }
    }
    let mut c = to_local(&yed, ox, oy);
    drop_closing(&mut c);
    c
}

/// The ring as tile `(xi, yi)` keeps it, if it survives: simplified and
/// re-wound.
fn cell_ring_kept(
    xed: &Vec<GridPoint>,
    Ghost(ring): Ghost<Seq<GridPoint>>,
    extent: u32,
    buffer: u32,
    xi: i64,
    yi: i64,
) -> (r: Option<Vec<TilePoint>>)
    requires
        1 <= extent,
        extent + buffer <= 0x7fff,
        ring_in_bounds(ring),
        0 <= xi,
        0 <= yi,
        xi + 1 <= MAX_GRID_COORD,
        yi + 1 <= MAX_GRID_COORD,
        (xi + 1) * (extent as int) + buffer <= MAX_GRID_COORD,
        (yi + 1) * (extent as int) + buffer <= MAX_GRID_COORD,
        xed@ == spec_clip_ring_x(
            ring,
            spec_window_lo(xi as int, extent as int, buffer as int),
            spec_window_hi(xi as int, extent as int, buffer as int),
        ),
    ensures
        match r {
            Some(v) => spec_ring_kept(ring, extent as int, buffer as int, xi as int, yi as int)
                == Some(v@),
            None => spec_ring_kept(ring, extent as int, buffer as int, xi as int, yi as int)
                is None,
        },
{
    let c = cell_ring_exec(xed, Ghost(ring), extent, buffer, xi, yi);
    if c.len() < 3 {
        None
    } else {
        let s = simplify_ring(&c);
        Some(reversed_ring(&s))
    }
}

/// Slice one polygon (a closed exterior ring and optional holes) into the
/// tiles of one zoom level, accumulating each tile's share in `out`.
///
/// Coordinates are fixed-point: one tile spans `extent` units.  Every
/// tile whose column and row ranges are touched by the exterior ring is
/// clipped against its buffered window; surviving rings land in the
/// tile's local integer frame.  A polygon whose exterior degenerates in a
/// tile, or stays below the minimum visible area there, leaves that tile
/// untouched (its holes are dropped with it).
pub fn slice_polygon(
    zoom: u8,
    extent: u32,
    buffer: u32,
    poly_rings: &Vec<Vec<GridPoint>>,
    out: &mut TileMap,
)
    requires
        old(out).wf(),
        1 <= extent,
        extent + buffer <= 0x7fff,
        forall|i: int|
            0 <= i < poly_rings@.len() ==> ring_in_slice_bounds((#[trigger] poly_rings@[i])@),
    ensures
        final(out).wf(),
        final(out).contents() =~= spec_slice_polygon(
            old(out).contents(),
            rings_view(poly_rings@),
            zoom,
            extent as int,
            buffer as int,
        ),
{
    let ghost rv = rings_view(poly_rings@);
    let ghost m0 = old(out).contents();
    let nr = poly_rings.len();
    if nr == 0 {
        return ;
    }
    if poly_rings[0].len() == 0 {
        proof {
            assert(rv[0] == poly_rings@[0]@);
        }
        return ;
    }
    let e64: i64 = extent as i64;
    let b64: i64 = buffer as i64;
    proof {
        assert(rv[0] == poly_rings@[0]@);
        assert(ring_in_slice_bounds(rv[0]));
        assert(ring_in_bounds(rv[0])) by {
            assert forall|i: int| 0 <= i < rv[0].len() implies pt_in_bounds(#[trigger] rv[0][i]) by {
                assert(pt_in_slice_bounds(rv[0][i]));
            }
        }
    }
    let first = &poly_rings[0];
    let ext0 = ring_extent_x(first);
    let min_x = ext0.0;
    let max_x = ext0.1;
    let xlo: i64 = {
        let q = div_floor(min_x, e64);
        if q < 0 {
            0
        } else {
            q
        }
    };
    let xhi: i64 = {
        let q = div_floor(max_x + e64 - 1, e64);
        if q < 0 {
            0
        } else {
            q
        }
    };
    proof {
        assert(xlo as int == tile_lo(spec_min_x(rv[0]), extent as int));
        assert(xhi as int == tile_hi(spec_max_x(rv[0]), extent as int));
        assert(spec_max_x(rv[0]) <= MAX_SLICE_COORD) by {
            lemma_max_x_le(rv[0], rv[0].len(), MAX_SLICE_COORD as int);
        }
    }
    let mut xi: i64 = xlo;
    while xi < xhi
        invariant
            out.wf(),
            nr == poly_rings@.len() >= 1,
            rv == rings_view(poly_rings@),
            rv[0].len() > 0,
            1 <= extent,
            extent + buffer <= 0x7fff,
            e64 == extent as i64,
            b64 == buffer as i64,
            forall|i: int|
                0 <= i < poly_rings@.len() ==> ring_in_slice_bounds((#[trigger] poly_rings@[i])@),
            0 <= xlo <= xi,
            xhi as int == tile_hi(spec_max_x(rv[0]), extent as int),
            spec_max_x(rv[0]) <= MAX_SLICE_COORD,
            spec_fold_x(out.contents(), rv, zoom, extent as int, buffer as int, xi as int, xhi as int)
                == spec_fold_x(m0, rv, zoom, extent as int, buffer as int, xlo as int, xhi as int),
        decreases xhi - xi,
    {
        proof {
            lemma_window_fits(xi as int, spec_max_x(rv[0]), extent as int, buffer as int);
            lemma_window_arith(xi as int, extent as int, buffer as int);
        }
        let xi1 = xi + 1;
        let k1x: i64 = xi * e64 - b64;
        let k2x: i64 = xi1 * e64 + b64;
        let mut xs: Vec<Vec<GridPoint>> = Vec::new();
        let mut r: usize = 0;
        while r < nr
            invariant
                r <= nr,
                nr == poly_rings@.len(),
                rv == rings_view(poly_rings@),
                forall|i: int|
                    0 <= i < poly_rings@.len() ==> ring_in_slice_bounds(
                        (#[trigger] poly_rings@[i])@,
                    ),
                -MAX_GRID_COORD <= k1x <= k2x <= MAX_GRID_COORD,
                xs@.len() == r,
                forall|j: int|
                    0 <= j < r ==> (#[trigger] xs@[j])@ == spec_clip_ring_x(
                        rv[j],
                        k1x as int,
                        k2x as int,
                    ),
            decreases nr - r,
        {
            proof {
                assert(rv[r as int] == poly_rings@[r as int]@);
                assert(ring_in_slice_bounds(rv[r as int]));
                assert(ring_in_bounds(rv[r as int])) by {
                    assert forall|i: int|
                        0 <= i < rv[r as int].len() implies pt_in_bounds(
                        #[trigger] rv[r as int][i],
                    ) by {
                        assert(pt_in_slice_bounds(rv[r as int][i]));
                    }
                }
            }
            let clipped = clip_ring_x(&poly_rings[r], k1x, k2x);
            xs.push(clipped);
            r = r + 1;
        }
        let mut ylo: i64 = 0;
        let mut yhi: i64 = 0;
        if xs[0].len() > 0 {
            proof {
                assert(ring_in_bounds(rv[0])) by {
                    assert forall|i: int| 0 <= i < rv[0].len() implies pt_in_bounds(
                        #[trigger] rv[0][i],
                    ) by {
                        assert(pt_in_slice_bounds(rv[0][i]));
                    }
                }
                lemma_clip_x_bounds(rv[0], k1x as int, k2x as int);
                assert(ring_in_bounds(xs@[0]@)) by {
                    assert forall|i: int| 0 <= i < xs@[0]@.len() implies pt_in_bounds(
                        #[trigger] xs@[0]@[i],
                    ) by {
                        assert(xs@[0]@[i] == spec_clip_ring_x(rv[0], k1x as int, k2x as int)[i]);
                    }
                }
                lemma_clip_upto_y_range(
                    rv[0],
                    k1x as int,
                    k2x as int,
                    -MAX_SLICE_COORD as int,
                    MAX_SLICE_COORD as int,
                    rv[0].len(),
                );
            }
            let exty = ring_extent_y(&xs[0]);
            let min_y = exty.0;
            let max_y = exty.1;
            proof {
                assert(spec_max_y(xs@[0]@) <= MAX_SLICE_COORD) by {
                    assert forall|i: int| 0 <= i < xs@[0]@.len() implies (#[trigger] xs@[0]@[i]).y
                        <= MAX_SLICE_COORD by {
                        assert(xs@[0]@[i] == spec_clip_ring_x(rv[0], k1x as int, k2x as int)[i]);
                    }
                    lemma_max_y_le(xs@[0]@, xs@[0]@.len(), MAX_SLICE_COORD as int);
                }
            }
            let qlo = div_floor(min_y, e64);
            let qhi = div_floor(max_y + e64 - 1, e64);
            ylo = if qlo < 0 {
                0
            } else {
                qlo
            };
            yhi = if qhi < 0 {
                0
            } else {
                qhi
            };
        }
        proof {
            assert(xs@[0]@ == spec_clip_ring_x(rv[0], k1x as int, k2x as int));
            assert((ylo as int, yhi as int) == spec_col_y_range(
                rv,
                extent as int,
                buffer as int,
                xi as int,
            ));
        }
        let ghost m_col = out.contents();
        let ghost max_y_col: int = if xs@[0]@.len() > 0 { spec_max_y(xs@[0]@) } else { 0 };
        let mut yi: i64 = ylo;
        while yi < yhi
            invariant
                out.wf(),
                nr == poly_rings@.len() >= 1,
                rv == rings_view(poly_rings@),
                1 <= extent,
                extent + buffer <= 0x7fff,
                e64 == extent as i64,
                b64 == buffer as i64,
                forall|i: int|
                    0 <= i < poly_rings@.len() ==> ring_in_slice_bounds(
                        (#[trigger] poly_rings@[i])@,
                    ),
                0 <= xi,
                (xi + 1) * (extent as int) + buffer <= MAX_GRID_COORD,
                k1x == xi * e64 - b64,
                k2x == (xi + 1) * e64 + b64,
                -MAX_GRID_COORD <= k1x <= k2x <= MAX_GRID_COORD,
                xs@.len() == nr,
                forall|j: int|
                    0 <= j < nr ==> (#[trigger] xs@[j])@ == spec_clip_ring_x(
                        rv[j],
                        k1x as int,
                        k2x as int,
                    ),
                0 <= ylo <= yi,
                yi <= yhi || yi == ylo,
                xi + 1 <= MAX_GRID_COORD,
                xs@[0]@.len() == 0 ==> ylo == 0 && yhi == 0,
                xs@[0]@.len() > 0 ==> max_y_col == spec_max_y(xs@[0]@),
                xs@[0]@.len() > 0 ==> max_y_col <= MAX_SLICE_COORD,
                xs@[0]@.len() > 0 ==> yhi as int == tile_hi(max_y_col, extent as int),
                spec_fold_y(
                    out.contents(),
                    rv,
                    zoom,
                    extent as int,
                    buffer as int,
                    xi as int,
                    yi as int,
                    yhi as int,
                ) == spec_fold_y(
                    m_col,
                    rv,
                    zoom,
                    extent as int,
                    buffer as int,
                    xi as int,
                    ylo as int,
                    yhi as int,
                ),
            decreases yhi - yi,
        {
            proof {
                assert(xs@[0]@.len() > 0);
                lemma_window_fits(yi as int, max_y_col, extent as int, buffer as int);
            }
            let ghost m_cell = out.contents();
            let kept0 = cell_ring_kept(&xs[0], Ghost(rv[0]), extent, buffer, xi, yi);
            match kept0 {
                None => {
                    proof {
                        assert(spec_cell_polygon(
                            rv,
                            extent as int,
                            buffer as int,
                            xi as int,
                            yi as int,
                        ) is None);
                        assert(out.contents() == spec_cell_step(
                            m_cell,
                            rv,
                            zoom,
                            extent as int,
                            buffer as int,
                            xi as int,
                            yi as int,
                        ));
                    }
                },
                Some(ext) => {
                    let area = crate::geom::twice_signed_area(&ext);
                    if area < MIN_VISIBLE_AREA_X2 {
                        proof {
                            assert(spec_cell_polygon(
                                rv,
                                extent as int,
                                buffer as int,
                                xi as int,
                                yi as int,
                            ) is None);
                            assert(out.contents() == spec_cell_step(
                                m_cell,
                                rv,
                                zoom,
                                extent as int,
                                buffer as int,
                                xi as int,
                                yi as int,
                            ));
                        }
                    } else {
                        let ghost ext_view = ext@;
                        let mut acc: Vec<crate::geom::TileRing> = Vec::new();
                        acc.push(crate::geom::TileRing { points: ext });
                        proof {
                            assert(acc@.map_values(|t: crate::geom::TileRing| t.points@)
                                =~= seq![ext_view] + spec_cell_interiors_upto(
                                rv,
                                extent as int,
                                buffer as int,
                                xi as int,
                                yi as int,
                                1,
                            ));
                        }
                        let mut ri: usize = 1;
                        while ri < nr
                            invariant
                                1 <= ri <= nr,
                                nr == poly_rings@.len(),
                                rv == rings_view(poly_rings@),
                                1 <= extent,
                                extent + buffer <= 0x7fff,
                                forall|i: int|
                                    0 <= i < poly_rings@.len() ==> ring_in_slice_bounds(
                                        (#[trigger] poly_rings@[i])@,
                                    ),
                                0 <= xi,
                                0 <= yi,
                                xi + 1 <= MAX_GRID_COORD,
                                yi + 1 <= MAX_GRID_COORD,
                                (xi + 1) * (extent as int) + buffer <= MAX_GRID_COORD,
                                (yi + 1) * (extent as int) + buffer <= MAX_GRID_COORD,
                                xs@.len() == nr,
                                forall|j: int|
                                    0 <= j < nr ==> (#[trigger] xs@[j])@ == spec_clip_ring_x(
                                        rv[j],
                                        spec_window_lo(xi as int, extent as int, buffer as int),
                                        spec_window_hi(xi as int, extent as int, buffer as int),
                                    ),
                                acc@.map_values(|t: crate::geom::TileRing| t.points@)
                                    =~= seq![ext_view] + spec_cell_interiors_upto(
                                    rv,
                                    extent as int,
                                    buffer as int,
                                    xi as int,
                                    yi as int,
                                    ri as nat,
                                ),
                            decreases nr - ri,
                        {
                            proof {
                                assert(rv[ri as int] == poly_rings@[ri as int]@);
                                assert(ring_in_bounds(rv[ri as int])) by {
                                    assert forall|i: int|
                                        0 <= i < rv[ri as int].len() implies pt_in_bounds(
                                        #[trigger] rv[ri as int][i],
                                    ) by {
                                        assert(pt_in_slice_bounds(rv[ri as int][i]));
                                    }
                                }
                            }
                            let ghost acc_before = acc@;
                            let hole = cell_ring_kept(
                                &xs[ri],
                                Ghost(rv[ri as int]),
                                extent,
                                buffer,
                                xi,
                                yi,
                            );
                            match hole {
                                Some(h) => {
                                    let ghost hv = h@;
                                    acc.push(crate::geom::TileRing { points: h });
                                    proof {
                                        assert(spec_ring_kept(
                                            rv[ri as int],
                                            extent as int,
                                            buffer as int,
                                            xi as int,
                                            yi as int,
                                        ) == Some(hv));
                                        assert(acc@.len() == acc_before.len() + 1);
                                        assert(acc@.last().points@ == hv);
                                        assert(acc@.map_values(
                                            |t: crate::geom::TileRing| t.points@,
                                        ) =~= acc_before.map_values(
                                            |t: crate::geom::TileRing| t.points@,
                                        ).push(hv));
                                    }
                                },
                                None => {},
                            }
                            proof {
                                assert(acc@.map_values(|t: crate::geom::TileRing| t.points@)
                                    =~= seq![ext_view] + spec_cell_interiors_upto(
                                    rv,
                                    extent as int,
                                    buffer as int,
                                    xi as int,
                                    yi as int,
                                    (ri + 1) as nat,
                                ));
                            }
                            ri = ri + 1;
                        }
                        let tp = crate::geom::TilePolygon { rings: acc };
                        proof {
                            assert(crate::geom::wf_polygon(tp)) by {
                                assert(tp.rings@.map_values(
                                    |t: crate::geom::TileRing| t.points@,
                                ).len() >= 1);
                            }
                            assert(crate::tilemap::view_polygon(tp) =~= seq![ext_view]
                                + spec_cell_interiors_upto(
                                rv,
                                extent as int,
                                buffer as int,
                                xi as int,
                                yi as int,
                                nr as nat,
                            ));
                            assert(spec_cell_polygon(
                                rv,
                                extent as int,
                                buffer as int,
                                xi as int,
                                yi as int,
                            ) == Some(crate::tilemap::view_polygon(tp)));
                        }
                        out.push_polygon((zoom, xi as u32, yi as u32), tp);
                        proof {
                            assert(out.contents() =~= spec_cell_step(
                                m_cell,
                                rv,
                                zoom,
                                extent as int,
                                buffer as int,
                                xi as int,
                                yi as int,
                            ));
                        }
                    }
                },
            }
            proof {
                assert(spec_fold_y(
                    out.contents(),
                    rv,
                    zoom,
                    extent as int,
                    buffer as int,
                    xi as int,
                    yi as int + 1,
                    yhi as int,
                ) == spec_fold_y(
                    m_cell,
                    rv,
                    zoom,
                    extent as int,
                    buffer as int,
                    xi as int,
                    yi as int,
                    yhi as int,
                ));
            }
            yi = yi + 1;
        }
        proof {
            assert(out.contents() == spec_fold_col(
                m_col,
                rv,
                zoom,
                extent as int,
                buffer as int,
                xi as int,
            ));
            assert(spec_fold_x(
                out.contents(),
                rv,
                zoom,
                extent as int,
                buffer as int,
                xi as int + 1,
                xhi as int,
            ) == spec_fold_x(
                m_col,
                rv,
                zoom,
                extent as int,
                buffer as int,
                xi as int,
                xhi as int,
            ));
        }
        xi = xi + 1;
    }
    proof {
        assert(out.contents() =~= spec_slice_polygon(
            m0,
            rv,
            zoom,
            extent as int,
            buffer as int,
        ));
    }
}

proof fn lemma_swap_involution(s: Seq<GridPoint>)
    ensures
        spec_swap(spec_swap(s)) == s,
{
    assert forall|i: int| 0 <= i < s.len() implies spec_swap(spec_swap(s))[i] == s[i] by {
        assert(spec_swap(s)[i] == spec_swap_pt(s[i]));
    }
    assert(spec_swap(spec_swap(s)) =~= s);
}

/// A ring inside the horizontal band passes the vertical clip unchanged.
proof fn lemma_clip_y_inside(s: Seq<GridPoint>, k1: int, k2: int)
    requires
        forall|i: int| 0 <= i < s.len() ==> k1 <= (#[trigger] s[i]).y <= k2,
    ensures
        spec_clip_ring_y(s, k1, k2) == s,
{
    let sw = spec_swap(s);
    assert forall|i: int| 0 <= i < sw.len() implies k1 <= (#[trigger] sw[i]).x <= k2 by {
        assert(sw[i] == spec_swap_pt(s[i]));
    }
    lemma_clip_x_inside(sw, k1, k2);
    lemma_swap_involution(s);
}

/// A ring entirely on one side of the horizontal band is clipped away.
proof fn lemma_clip_y_outside(s: Seq<GridPoint>, k1: int, k2: int)
    requires
        k1 <= k2,
        (forall|i: int| 0 <= i < s.len() ==> (#[trigger] s[i]).y < k1) || (forall|i: int|
            0 <= i < s.len() ==> (#[trigger] s[i]).y > k2),
    ensures
        spec_clip_ring_y(s, k1, k2) == Seq::<GridPoint>::empty(),
{
    let sw = spec_swap(s);
    if forall|i: int| 0 <= i < s.len() ==> (#[trigger] s[i]).y < k1 {
        assert forall|i: int| 0 <= i < sw.len() implies (#[trigger] sw[i]).x < k1 by {
            assert(sw[i] == spec_swap_pt(s[i]));
        }
    } else {
        assert forall|i: int| 0 <= i < sw.len() implies (#[trigger] sw[i]).x > k2 by {
            assert(sw[i] == spec_swap_pt(s[i]));
        }
    }
    lemma_clip_x_outside(sw, k1, k2);
    assert(spec_clip_ring_y(s, k1, k2) =~= Seq::<GridPoint>::empty());
}

/// Clip completeness, inside case: a ring lying entirely within tile
/// `(xi, yi)`'s buffered window is only translated into the tile's local
/// frame, and when the translated ring is non-degenerate and already
/// simple, the tile keeps exactly that ring with its winding reversed.
pub proof fn lemma_clip_completeness_inside(
    ring: Seq<GridPoint>,
    extent: int,
    buffer: int,
    xi: int,
    yi: int,
)
    requires
        forall|i: int|
            0 <= i < ring.len() ==> {
                let p = #[trigger] ring[i];
                &&& spec_window_lo(xi, extent, buffer) <= p.x <= spec_window_hi(xi, extent, buffer)
                &&& spec_window_lo(yi, extent, buffer) <= p.y <= spec_window_hi(yi, extent, buffer)
            },
    ensures
        spec_cell_ring(ring, extent, buffer, xi, yi) == spec_drop_closing(
            spec_to_local(ring, xi * extent, yi * extent),
        ),
        ({
            let t = spec_drop_closing(spec_to_local(ring, xi * extent, yi * extent));
            (t.len() >= 3 && (forall|i: int| 1 <= i < t.len() - 1 ==> keep_mid(t, i)))
                ==> spec_ring_kept(ring, extent, buffer, xi, yi) == Some(t.reverse())
        }),
{
    let k1x = spec_window_lo(xi, extent, buffer);
    let k2x = spec_window_hi(xi, extent, buffer);
    let k1y = spec_window_lo(yi, extent, buffer);
    let k2y = spec_window_hi(yi, extent, buffer);
    lemma_clip_x_inside(ring, k1x, k2x);
    lemma_clip_y_inside(ring, k1y, k2y);
    let t = spec_drop_closing(spec_to_local(ring, xi * extent, yi * extent));
    if t.len() >= 3 && (forall|i: int| 1 <= i < t.len() - 1 ==> keep_mid(t, i)) {
        lemma_simplify_identity(t);
    }
}

/// Clip completeness, outside case: a ring entirely beyond one side of
/// tile `(xi, yi)`'s buffered window leaves nothing in that tile; with
/// the exterior ring outside, the whole polygon leaves the tile empty.
pub proof fn lemma_clip_completeness_outside(
    rings: Seq<Seq<GridPoint>>,
    extent: int,
    buffer: int,
    xi: int,
    yi: int,
)
    requires
        extent >= 1,
        buffer >= 0,
        rings.len() >= 1,
        ring_in_bounds(rings[0]),
        (forall|i: int|
            0 <= i < rings[0].len() ==> (#[trigger] rings[0][i]).x < spec_window_lo(
                xi,
                extent,
                buffer,
            )) || (forall|i: int|
            0 <= i < rings[0].len() ==> (#[trigger] rings[0][i]).x > spec_window_hi(
                xi,
                extent,
                buffer,
            )) || (forall|i: int|
            0 <= i < rings[0].len() ==> (#[trigger] rings[0][i]).y < spec_window_lo(
                yi,
                extent,
                buffer,
            )) || (forall|i: int|
            0 <= i < rings[0].len() ==> (#[trigger] rings[0][i]).y > spec_window_hi(
                yi,
                extent,
                buffer,
            )),
    ensures
        spec_ring_kept(rings[0], extent, buffer, xi, yi) is None,
        spec_cell_polygon(rings, extent, buffer, xi, yi) is None,
{
    let k1x = spec_window_lo(xi, extent, buffer);
    let k2x = spec_window_hi(xi, extent, buffer);
    let k1y = spec_window_lo(yi, extent, buffer);
    let k2y = spec_window_hi(yi, extent, buffer);
    let ring = rings[0];
    assert(k1x <= k2x && k1y <= k2y) by {
        lemma_mul_inequality(xi, xi + 1, extent);
        lemma_mul_is_commutative(xi, extent);
        lemma_mul_is_commutative(xi + 1, extent);
        lemma_mul_inequality(yi, yi + 1, extent);
        lemma_mul_is_commutative(yi, extent);
        lemma_mul_is_commutative(yi + 1, extent);
    }
    let xed = spec_clip_ring_x(ring, k1x, k2x);
    if (forall|i: int| 0 <= i < ring.len() ==> (#[trigger] ring[i]).x < k1x) || (forall|i: int|
        0 <= i < ring.len() ==> (#[trigger] ring[i]).x > k2x) {
        lemma_clip_x_outside(ring, k1x, k2x);
        assert(spec_clip_upto(xed, k1y, k2y, 0) =~= Seq::<GridPoint>::empty());
        assert(spec_swap(xed) =~= Seq::<GridPoint>::empty());
        assert(spec_clip_ring_y(xed, k1y, k2y) =~= Seq::<GridPoint>::empty());
    } else if forall|i: int| 0 <= i < ring.len() ==> (#[trigger] ring[i]).y < k1y {
        let ylo: int = if k1y - 1 < -MAX_GRID_COORD {
            k1y - 1
        } else {
            -MAX_GRID_COORD as int
        };
        assert(forall|i: int| 0 <= i < ring.len() ==> ylo <= (#[trigger] ring[i]).y <= k1y - 1);
        lemma_clip_upto_y_range(ring, k1x, k2x, ylo, k1y - 1, ring.len());
        lemma_clip_y_outside(xed, k1y, k2y);
    } else {
        assert(forall|i: int| 0 <= i < ring.len() ==> (#[trigger] ring[i]).y > k2y);
        let yhi: int = if k2y + 1 > MAX_GRID_COORD {
            k2y + 1
        } else {
            MAX_GRID_COORD as int
        };
        assert(forall|i: int| 0 <= i < ring.len() ==> k2y + 1 <= (#[trigger] ring[i]).y <= yhi);
        lemma_clip_upto_y_range(ring, k1x, k2x, k2y + 1, yhi, ring.len());
        lemma_clip_y_outside(xed, k1y, k2y);
    }
    assert(spec_to_local(
        spec_clip_ring_y(xed, k1y, k2y),
        xi * extent,
        yi * extent,
    ) =~= Seq::<TilePoint>::empty());
    assert(spec_cell_ring(ring, extent, buffer, xi, yi).len() == 0);
}

/// Degenerate culling: whatever a tile keeps of a polygon, the exterior
/// ring it keeps reaches the minimum visible area.
pub proof fn lemma_degenerate_culling(
    rings: Seq<Seq<GridPoint>>,
    extent: int,
    buffer: int,
    xi: int,
    yi: int,
)
    ensures
        spec_cell_polygon(rings, extent, buffer, xi, yi) matches Some(p) ==> p.len() >= 1
            && spec_twice_area(p[0]) >= MIN_VISIBLE_AREA_X2 as int,
{
    if spec_cell_polygon(rings, extent, buffer, xi, yi) is Some {
        let ext = spec_ring_kept(rings[0], extent, buffer, xi, yi).unwrap();
        let p = spec_cell_polygon(rings, extent, buffer, xi, yi).unwrap();
        assert(p[0] == ext);
    }
}

/// Twice the signed area of a closed ring on the fixed-point plane.
pub open spec fn grid_area_upto(s: Seq<GridPoint>, n: nat) -> int
    decreases n,
{
    if n == 0 {
        0
    } else {
        let a = s[n - 1];
        let b = if n < s.len() {
            s[n as int]
        } else {
            s[0]
        };
        grid_area_upto(s, (n - 1) as nat) + (a.x * b.y - b.x * a.y)
    }
}

pub open spec fn spec_grid_twice_area(s: Seq<GridPoint>) -> int {
    grid_area_upto(s, s.len())
}

proof fn lemma_grid_term_bound(ax: int, ay: int, bx: int, by: int)
    by (nonlinear_arith)
    requires
        -0x40000000 <= ax <= 0x40000000,
        -0x40000000 <= ay <= 0x40000000,
        -0x40000000 <= bx <= 0x40000000,
        -0x40000000 <= by <= 0x40000000,
    ensures
        -0x1000000000000000 <= ax * by <= 0x1000000000000000,
        -0x1000000000000000 <= bx * ay <= 0x1000000000000000,
        -0x2000000000000000 <= ax * by - bx * ay <= 0x2000000000000000,
{
}

/// Twice the signed area of a ring of plane points, executable.
pub fn grid_twice_signed_area(ring: &Vec<GridPoint>) -> (r: i128)
    requires
        ring_in_bounds(ring@),
    ensures
        r as int == spec_grid_twice_area(ring@),
        -0x20000000000000000000000000000000 <= r as int <= 0x20000000000000000000000000000000,
{
    let n = ring.len();
    let mut acc: i128 = 0;
    let mut i: usize = 0;
    while i < n
        invariant
            i <= n,
            n == ring@.len(),
            ring_in_bounds(ring@),
            acc as int == grid_area_upto(ring@, i as nat),
            -0x2000000000000000 * (i as int) <= acc as int <= 0x2000000000000000 * (i as int),
        decreases n - i,
    {
        let a = ring[i];
        let b = if i + 1 < n {
            ring[i + 1]
        } else {
            ring[0]
        };
        proof {
            lemma_grid_term_bound(a.x as int, a.y as int, b.x as int, b.y as int);
            assert(0x2000000000000000 * (i as int) + 0x2000000000000000 == 0x2000000000000000 * (
            i as int + 1));
            assert(0x2000000000000000 * (i as int + 1) <= 0x2000000000000000
                * 0x10000000000000000) by {
                lemma_mul_inequality(i as int + 1, 0x10000000000000000, 0x2000000000000000);
                lemma_mul_is_commutative(i as int + 1, 0x2000000000000000);
                lemma_mul_is_commutative(0x10000000000000000, 0x2000000000000000);
            }
        }
        let term: i128 = (a.x as i128) * (b.y as i128) - (b.x as i128) * (a.y as i128);
        acc = acc + term;
        i = i + 1;
    }
    proof {
        assert(0x2000000000000000 * (n as int) <= 0x2000000000000000 * 0x10000000000000000) by {
            lemma_mul_inequality(n as int, 0x10000000000000000, 0x2000000000000000);
            lemma_mul_is_commutative(n as int, 0x2000000000000000);
            lemma_mul_is_commutative(0x10000000000000000, 0x2000000000000000);
        }
    }
    acc
}

/// The ring scaled so that one unit becomes one tile at the target zoom.
pub open spec fn spec_scale_ring(s: Seq<GridPoint>, f: int) -> Seq<GridPoint> {
    s.map_values(|p: GridPoint| GridPoint { x: (p.x * f) as i64, y: (p.y * f) as i64 })
}

pub open spec fn spec_scale_rings(rs: Seq<Seq<GridPoint>>, f: int) -> Seq<Seq<GridPoint>> {
    rs.map_values(|r: Seq<GridPoint>| spec_scale_ring(r, f))
}

proof fn lemma_scale_fits(c: int, f: int, cb: int, fb: int)
    by (nonlinear_arith)
    requires
        0 <= c <= cb,
        1 <= f <= fb,
        cb * fb <= MAX_SLICE_COORD,
    ensures
        0 <= c * f <= MAX_SLICE_COORD,
{
}

/// Scale a polygon's rings by the zoom factor `f`.
fn scale_rings(rings: &Vec<Vec<GridPoint>>, f: i64, cb: Ghost<int>) -> (out: Vec<Vec<GridPoint>>)
    requires
        1 <= f,
        cb@ * (f as int) <= MAX_SLICE_COORD,
        0 <= cb@,
        forall|i: int, j: int|
            0 <= i < rings@.len() && 0 <= j < (rings@[i])@.len() ==> {
                let p = #[trigger] ((rings@[i])@[j]);
                0 <= p.x <= cb@ && 0 <= p.y <= cb@
            },
    ensures
        rings_view(out@) =~= spec_scale_rings(rings_view(rings@), f as int),
        forall|i: int|
            0 <= i < out@.len() ==> ring_in_slice_bounds((#[trigger] out@[i])@),
{
    let n = rings.len();
    let mut out: Vec<Vec<GridPoint>> = Vec::new();
    let mut i: usize = 0;
    while i < n
        invariant
            i <= n,
            n == rings@.len(),
            1 <= f,
            cb@ * (f as int) <= MAX_SLICE_COORD,
            0 <= cb@,
            forall|a: int, j: int|
                0 <= a < rings@.len() && 0 <= j < (rings@[a])@.len() ==> {
                    let p = #[trigger] ((rings@[a])@[j]);
                    0 <= p.x <= cb@ && 0 <= p.y <= cb@
                },
            out@.len() == i,
            forall|a: int|
                0 <= a < i ==> (#[trigger] out@[a])@ == spec_scale_ring(
                    (rings@[a])@,
                    f as int,
                ),
            forall|a: int| 0 <= a < i ==> ring_in_slice_bounds((#[trigger] out@[a])@),
        decreases n - i,
    {
        let ring = &rings[i];
        let m = ring.len();
        let mut nr: Vec<GridPoint> = Vec::new();
        let mut j: usize = 0;
        while j < m
            invariant
                j <= m,
                m == ring@.len(),
                ring@ == (rings@[i as int])@,
                i < n == rings@.len(),
                1 <= f,
                cb@ * (f as int) <= MAX_SLICE_COORD,
                0 <= cb@,
                forall|a: int, jj: int|
                    0 <= a < rings@.len() && 0 <= jj < (rings@[a])@.len() ==> {
                        let p = #[trigger] ((rings@[a])@[jj]);
                        0 <= p.x <= cb@ && 0 <= p.y <= cb@
                    },
                nr@ =~= spec_scale_ring(ring@, f as int).subrange(0, j as int),
                forall|a: int| 0 <= a < j ==> pt_in_slice_bounds(#[trigger] nr@[a]),
            decreases m - j,
        {
            let p = ring[j];
            proof {
                assert(0 <= p.x <= cb@ && 0 <= p.y <= cb@);
                lemma_scale_fits(p.x as int, f as int, cb@, f as int);
                lemma_scale_fits(p.y as int, f as int, cb@, f as int);
            }
            let q = GridPoint { x: p.x * f, y: p.y * f };
            nr.push(q);
            proof {
                assert(nr@ =~= spec_scale_ring(ring@, f as int).subrange(0, j + 1 as int));
            }
            j = j + 1;
        }
        proof {
            assert(nr@ =~= spec_scale_ring(ring@, f as int));
            assert(ring_in_slice_bounds(nr@));
        }
        out.push(nr);
        i = i + 1;
    }
    proof {
        assert forall|a: int| 0 <= a < rings_view(out@).len() implies #[trigger] rings_view(
            out@,
        )[a] == spec_scale_rings(rings_view(rings@), f as int)[a] by {
            assert(rings_view(out@)[a] == (out@[a])@);
            assert(spec_scale_rings(rings_view(rings@), f as int)[a] == spec_scale_ring(
                (rings@[a])@,
                f as int,
            ));
        }
    }
    out
}

/// The pre-clip visibility filter: a polygon is sliced at a zoom level
/// only when its exterior area, scaled to that zoom's subpixel grid,
/// reaches four square subpixels.  The authoritative cull is the exact
/// post-clip area test; this filter only spares the clipper work.
pub open spec fn spec_prefilter_keep(rings: Seq<Seq<GridPoint>>, zoom: nat) -> bool {
    rings.len() > 0 && int_abs(spec_grid_twice_area(rings[0])) * pow2_int(2 * zoom)
        >= MIN_VISIBLE_AREA_X2 as int
}

pub open spec fn pow2_int(n: nat) -> int {
    vstd::arithmetic::power2::pow2(n) as int
}

/// Slicing one polygon across the zoom range `zoom..=max_z`, skipping the
/// zoom levels that the visibility prefilter rules out.
pub open spec fn spec_zoom_fold(
    m: Map<TileKey, Seq<PolyView>>,
    rings: Seq<Seq<GridPoint>>,
    zoom: int,
    max_z: int,
    extent: int,
    buffer: int,
) -> Map<TileKey, Seq<PolyView>>
    decreases max_z + 1 - zoom,
{
    if zoom > max_z || zoom < 0 || zoom > 30 {
        m
    } else {
        let m2 = if spec_prefilter_keep(rings, zoom as nat) {
            spec_slice_polygon(
                m,
                spec_scale_rings(rings, pow2_int(zoom as nat)),
                zoom as u8,
                extent,
                buffer,
            )
        } else {
            m
        };
        spec_zoom_fold(m2, rings, zoom + 1, max_z, extent, buffer)
    }
}

/// Slicing every polygon of a store range across the zoom range.
pub open spec fn spec_polys_fold(
    m: Map<TileKey, Seq<PolyView>>,
    store: Seq<crate::entity::StoredPolygon>,
    pos: int,
    end: int,
    min_z: int,
    max_z: int,
    extent: int,
    buffer: int,
) -> Map<TileKey, Seq<PolyView>>
    decreases end - pos,
{
    if pos >= end {
        m
    } else {
        spec_polys_fold(
            spec_zoom_fold(m, rings_view(store[pos].rings@), min_z, max_z, extent, buffer),
            store,
            pos + 1,
            end,
            min_z,
            max_z,
            extent,
            buffer,
        )
    }
}

/// Slicing the polygons of every supported geometry entry.
pub open spec fn spec_entries_fold(
    m: Map<TileKey, Seq<PolyView>>,
    geometries: Seq<crate::entity::GeometryRef>,
    store: Seq<crate::entity::StoredPolygon>,
    i: int,
    min_z: int,
    max_z: int,
    extent: int,
    buffer: int,
) -> Map<TileKey, Seq<PolyView>>
    decreases geometries.len() - i,
{
    if i < 0 || i >= geometries.len() {
        m
    } else {
        let g = geometries[i];
        let m2 = if g.ty is Solid || g.ty is Surface || g.ty is Triangle {
            spec_polys_fold(
                m,
                store,
                g.pos as int,
                g.pos + g.len,
                min_z,
                max_z,
                extent,
                buffer,
            )
        } else {
            m
        };
        spec_entries_fold(m2, geometries, store, i + 1, min_z, max_z, extent, buffer)
    }
}

pub open spec fn spec_has_unsupported(geometries: Seq<crate::entity::GeometryRef>) -> bool {
    exists|i: int|
        0 <= i < geometries.len() && ((#[trigger] geometries[i]).ty is Curve || geometries[i].ty
            is Point)
}

/// The per-tile result of slicing one city object across the zoom range:
/// empty unless the object is a feature with stored polygons, otherwise
/// the fold of every supported entry's polygons over every zoom level.
pub open spec fn spec_slice_entity(
    e: crate::entity::Entity,
    min_z: int,
    max_z: int,
    extent: int,
    buffer: int,
) -> Map<TileKey, Seq<PolyView>> {
    if e.geometry_store.multipolygon@.len() == 0 {
        Map::empty()
    } else {
        match e.root {
            crate::entity::Value::Object(o) => match o.stereotype {
                crate::entity::ObjectStereotype::Feature { geometries, .. } => spec_entries_fold(
                    Map::empty(),
                    geometries@,
                    e.geometry_store.multipolygon@,
                    0,
                    min_z,
                    max_z,
                    extent,
                    buffer,
                ),
                _ => Map::empty(),
            },
            _ => Map::empty(),
        }
    }
}

/// Every stored coordinate is within `[0, bound]`.
pub open spec fn entity_coords_bounded(e: crate::entity::Entity, bound: int) -> bool {
    forall|p: int, r: int, j: int|
        0 <= p < e.geometry_store.multipolygon@.len() && 0 <= r
            < e.geometry_store.multipolygon@[p].rings@.len() && 0 <= j
            < (e.geometry_store.multipolygon@[p].rings@[r])@.len() ==> {
            let c = #[trigger] ((e.geometry_store.multipolygon@[p].rings@[r])@[j]);
            0 <= c.x <= bound && 0 <= c.y <= bound
        }
}

proof fn lemma_small_mul_bound(a: int, b: int)
    by (nonlinear_arith)
    requires
        0 <= a < 8,
        0 <= b <= 0x4000000000000000,
    ensures
        0 <= a * b <= 0x20000000000000000000000000000000,
{
}

proof fn lemma_keep_mono(a2: int, p4: int)
    by (nonlinear_arith)
    requires
        a2 >= 8,
        p4 >= 1,
    ensures
        a2 * p4 >= 8,
{
}

/// Slice every polygon of one city object's supported geometry entries
/// across the zoom range `min_z..=max_z`, grouping the clipped output by
/// tile.  A feature carrying a curve or point entry is rejected whole:
/// unsupported input is surfaced, never silently dropped.
///
/// `max_detail` is the tile extent exponent (extent `2^max_detail`);
/// `buffer_pixels` widens each tile's clip window by
/// `extent * buffer_pixels / 256` grid units on every side.
pub fn slice_cityobj_geoms(
    obj: &crate::entity::Entity,
    min_z: u8,
    max_z: u8,
    max_detail: u32,
    buffer_pixels: u32,
) -> (r: Result<TileMap, crate::pipeline::PipelineError>)
    requires
        min_z <= max_z,
        max_z <= 30,
        max_detail <= 14,
        max_detail + max_z <= 29,
        buffer_pixels <= 256,
        pow2_int(max_detail as nat) + pow2_int(max_detail as nat) * (buffer_pixels as int) / 256
            <= 0x7fff,
        crate::entity::wf_entity(*obj),
        entity_coords_bounded(*obj, pow2_int(max_detail as nat)),
    ensures
        ({
            let extent = pow2_int(max_detail as nat);
            let buffer = pow2_int(max_detail as nat) * (buffer_pixels as int) / 256;
            match r {
                Ok(tm) => tm.wf() && tm.contents() =~= spec_slice_entity(
                    *obj,
                    min_z as int,
                    max_z as int,
                    extent,
                    buffer,
                ),
                Err(e) => {
                    &&& e == crate::pipeline::PipelineError::UnsupportedGeometry
                    &&& obj.geometry_store.multipolygon@.len() > 0
                    &&& obj.root matches crate::entity::Value::Object(o)
                        && o.stereotype matches crate::entity::ObjectStereotype::Feature {
                        geometries,
                        ..
                    } && spec_has_unsupported(geometries@)
                },
            }
        }),
        (obj.geometry_store.multipolygon@.len() > 0 && (
        obj.root matches crate::entity::Value::Object(o)
            && o.stereotype matches crate::entity::ObjectStereotype::Feature { geometries, .. }
            && spec_has_unsupported(geometries@))) ==> r is Err,
{
    let ghost extent_g: int = pow2_int(max_detail as nat);
    let ghost buffer_g: int = extent_g * (buffer_pixels as int) / 256;
    let extent: u32 = crate::tileid::tiles_per_axis(max_detail as u8);
    let buffer: u32 = extent * buffer_pixels / 256;
    proof {
        assert(extent as int == extent_g);
        assert(buffer as int == buffer_g);
        vstd::arithmetic::power2::lemma_pow2_pos(max_detail as nat);
    }
    let mut tm = TileMap::new();
    if obj.geometry_store.multipolygon.len() == 0 {
        return Ok(tm);
    }
    match &obj.root {
        crate::entity::Value::Object(o) => {
            match &o.stereotype {
                crate::entity::ObjectStereotype::Feature { geometries, .. } => {
                    let ng = geometries.len();
                    let mut gi: usize = 0;
                    while gi < ng
                        invariant
                            gi <= ng,
                            ng == geometries@.len(),
                            obj.geometry_store.multipolygon@.len() > 0,
                            obj.root matches crate::entity::Value::Object(oo)
                                && oo.stereotype
                                matches crate::entity::ObjectStereotype::Feature {
                                geometries: gg,
                                ..
                            } && gg@ == geometries@,
                            forall|k: int|
                                0 <= k < gi ==> !((#[trigger] geometries@[k]).ty
                                    is Curve) && !(geometries@[k].ty is Point),
                        decreases ng - gi,
                    {
                        let ty = geometries[gi].ty;
                        match ty {
                            crate::entity::GeometryType::Curve => {
                                proof {
                                    assert(geometries@[gi as int].ty is Curve);
                                    assert(spec_has_unsupported(geometries@));
                                }
                                return Err(crate::pipeline::PipelineError::UnsupportedGeometry);
                            },
                            crate::entity::GeometryType::Point => {
                                proof {
                                    assert(geometries@[gi as int].ty is Point);
                                    assert(spec_has_unsupported(geometries@));
                                }
                                return Err(crate::pipeline::PipelineError::UnsupportedGeometry);
                            },
                            _ => {},
                        }
                        gi = gi + 1;
                    }
                    proof {
                        assert(!spec_has_unsupported(geometries@));
                    }
                    let ghost store = obj.geometry_store.multipolygon@;
                    let ghost m_goal = spec_entries_fold(
                        Map::empty(),
                        geometries@,
                        store,
                        0,
                        min_z as int,
                        max_z as int,
                        extent_g,
                        buffer_g,
                    );
                    let mut gi2: usize = 0;
                    while gi2 < ng
                        invariant
                            gi2 <= ng,
                            ng == geometries@.len(),
                            tm.wf(),
                            store == obj.geometry_store.multipolygon@,
                            min_z <= max_z <= 30,
                            max_detail <= 14,
                            max_detail + max_z <= 29,
                            buffer_pixels <= 256,
                            extent as int == extent_g,
                            buffer as int == buffer_g,
                            extent_g == pow2_int(max_detail as nat),
                            buffer_g == extent_g * (buffer_pixels as int) / 256,
                            extent_g + buffer_g <= 0x7fff,
                            1 <= extent_g,
                            crate::entity::wf_entity(*obj),
                            entity_coords_bounded(*obj, extent_g),
                            obj.root matches crate::entity::Value::Object(oo)
                                && oo.stereotype
                                matches crate::entity::ObjectStereotype::Feature {
                                geometries: gg,
                                ..
                            } && gg@ == geometries@,
                            forall|k: int|
                                0 <= k < ng ==> !((#[trigger] geometries@[k]).ty
                                    is Curve) && !(geometries@[k].ty is Point),
                            spec_entries_fold(
                                tm.contents(),
                                geometries@,
                                store,
                                gi2 as int,
                                min_z as int,
                                max_z as int,
                                extent_g,
                                buffer_g,
                            ) == m_goal,
                        decreases ng - gi2,
                    {
                        let g = geometries[gi2];
                        let ghost m_entry = tm.contents();
                        match g.ty {
                            crate::entity::GeometryType::Solid
                            | crate::entity::GeometryType::Surface
                            | crate::entity::GeometryType::Triangle => {
                                let store_n = obj.geometry_store.multipolygon.len();
                                proof {
                                    assert(geometries@[gi2 as int] == g);
                                    assert(geometries@[gi2 as int].pos + geometries@[gi2 as int].len
                                        <= store.len());
                                    assert(store.len() == store_n as int);
                                }
                                let pos = g.pos as usize;
                                let end = pos + g.len as usize;
                                let mut pi: usize = pos;
                                while pi < end
                                    invariant
                                        pos <= pi <= end,
                                        end == g.pos + g.len,
                                        end <= store.len(),
                                        tm.wf(),
                                        store == obj.geometry_store.multipolygon@,
                                        min_z <= max_z <= 30,
                                        max_detail <= 14,
                                        max_detail + max_z <= 29,
                                        buffer_pixels <= 256,
                                        extent as int == extent_g,
                                        buffer as int == buffer_g,
                                        extent_g == pow2_int(max_detail as nat),
                                        buffer_g == extent_g * (buffer_pixels as int) / 256,
                                        extent_g + buffer_g <= 0x7fff,
                                        1 <= extent_g,
                                        crate::entity::wf_entity(*obj),
                                        entity_coords_bounded(*obj, extent_g),
                                        spec_polys_fold(
                                            tm.contents(),
                                            store,
                                            pi as int,
                                            end as int,
                                            min_z as int,
                                            max_z as int,
                                            extent_g,
                                            buffer_g,
                                        ) == spec_polys_fold(
                                            m_entry,
                                            store,
                                            pos as int,
                                            end as int,
                                            min_z as int,
                                            max_z as int,
                                            extent_g,
                                            buffer_g,
                                        ),
                                    decreases end - pi,
                                {
                                    let poly = &obj.geometry_store.multipolygon[pi];
                                    let ghost rvp = rings_view(poly.rings@);
                                    let ghost m_poly = tm.contents();
                                    let raw: i128 = if poly.rings.len() == 0 {
                                        0
                                    } else {
                                        proof {
                                            assert(ring_in_bounds((poly.rings@[0])@)) by {
                                                assert forall|j: int|
                                                    0 <= j < (poly.rings@[0])@.len() implies pt_in_bounds(
                                                    #[trigger] (poly.rings@[0])@[j],
                                                ) by {
                                                    assert(0 <= ((
                                                    obj.geometry_store.multipolygon@[pi as int].rings@[0])@[j]).x
                                                        <= extent_g);
                                                    assert(extent_g <= 0x7fff);
                                                }
                                            }
                                        }
                                        grid_twice_signed_area(&poly.rings[0])
                                    };
                                    let a2: i128 = if raw < 0 {
                                        -raw
                                    } else {
                                        raw
                                    };
                                    proof {
                                        if poly.rings@.len() > 0 {
                                            assert(rvp[0] == (poly.rings@[0])@);
                                            assert(a2 as int == int_abs(
                                                spec_grid_twice_area(rvp[0]),
                                            ));
                                        }
                                    }
                                    let mut zoom: u8 = min_z;
                                    while zoom <= max_z
                                        invariant
                                            min_z <= zoom <= max_z + 1,
                                            max_z <= 30,
                                            max_detail <= 14,
                                            max_detail + max_z <= 29,
                                            buffer_pixels <= 256,
                                            tm.wf(),
                                            store == obj.geometry_store.multipolygon@,
                                            pi < store.len(),
                                            poly.rings@
                                                == obj.geometry_store.multipolygon@[pi as int].rings@,
                                            rvp == rings_view(
                                                obj.geometry_store.multipolygon@[pi as int].rings@,
                                            ),
                                            extent as int == extent_g,
                                            buffer as int == buffer_g,
                                            extent_g == pow2_int(max_detail as nat),
                                            buffer_g == extent_g * (buffer_pixels as int) / 256,
                                            extent_g + buffer_g <= 0x7fff,
                                            1 <= extent_g,
                                            crate::entity::wf_entity(*obj),
                                            entity_coords_bounded(*obj, extent_g),
                                            rvp.len() > 0 ==> a2 as int == int_abs(
                                                spec_grid_twice_area(rvp[0]),
                                            ),
                                            rvp.len() == 0 ==> a2 == 0,
                                            a2 >= 0,
                                            spec_zoom_fold(
                                                tm.contents(),
                                                rvp,
                                                zoom as int,
                                                max_z as int,
                                                extent_g,
                                                buffer_g,
                                            ) == spec_zoom_fold(
                                                m_poly,
                                                rvp,
                                                min_z as int,
                                                max_z as int,
                                                extent_g,
                                                buffer_g,
                                            ),
                                        decreases max_z + 1 - zoom,
                                    {
                                        let ghost m_zoom = tm.contents();
                                        let f32u: u32 = crate::tileid::tiles_per_axis(zoom);
                                        proof {
                                            if (zoom as nat) < 30 {
                                                vstd::arithmetic::power2::lemma_pow2_strictly_increases(
                                                    zoom as nat,
                                                    30,
                                                );
                                            }
                                            lemma2_to64();
                                            lemma2_to64_rest();
                                            assert(f32u <= 0x40000000);
                                            lemma_mul_bound_2pow31(f32u as int, f32u as int);
                                            vstd::arithmetic::power2::lemma_pow2_adds(
                                                zoom as nat,
                                                zoom as nat,
                                            );
                                            vstd::arithmetic::power2::lemma_pow2_pos(
                                                2 * zoom as nat,
                                            );
                                            vstd::arithmetic::power2::lemma_pow2_pos(zoom as nat);
                                        }
                                        let p4: i128 = (f32u as i128) * (f32u as i128);
                                        proof {
                                            assert(p4 as int == pow2_int(2 * zoom as nat));
                                            if a2 < 8 {
                                                lemma_small_mul_bound(a2 as int, p4 as int);
                                            }
                                        }
                                        let keep: bool = poly.rings.len() > 0 && (a2 >= 8 || a2
                                            * p4 >= 8);
                                        proof {
                                            if poly.rings@.len() > 0 && a2 >= 8 {
                                                lemma_keep_mono(a2 as int, p4 as int);
                                            }
                                            assert(keep == spec_prefilter_keep(rvp, zoom as nat));
                                        }
                                        if keep {
                                            let fz: i64 = f32u as i64;
                                            proof {
                                                vstd::arithmetic::power2::lemma_pow2_adds(
                                                    max_detail as nat,
                                                    zoom as nat,
                                                );
                                                if ((max_detail as nat) + (zoom as nat)) < 29 {
                                                    vstd::arithmetic::power2::lemma_pow2_strictly_increases(
                                                        (max_detail as nat) + (zoom as nat),
                                                        29,
                                                    );
                                                }
                                                lemma2_to64();
                                                lemma2_to64_rest();
                                                assert(pow2(29) == 0x20000000);
                                                assert(extent_g * (fz as int) <= MAX_SLICE_COORD);
                                                assert forall|a: int, j: int|
                                                    0 <= a < poly.rings@.len() && 0 <= j < (
                                                    poly.rings@[a])@.len() implies {
                                                    let p = #[trigger] ((poly.rings@[a])@[j]);
                                                    0 <= p.x <= extent_g && 0 <= p.y <= extent_g
                                                } by {
                                                    assert(poly.rings@[a]
                                                        == obj.geometry_store.multipolygon@[pi as int].rings@[a]);
                                                    assert(0 <= ((
                                                    obj.geometry_store.multipolygon@[pi as int].rings@[a])@[j]).x
                                                        <= extent_g);
                                                    assert(0 <= ((
                                                    obj.geometry_store.multipolygon@[pi as int].rings@[a])@[j]).y
                                                        <= extent_g);
                                                }
                                            }
                                            let scaled = scale_rings(
                                                &poly.rings,
                                                fz,
                                                Ghost(extent_g),
                                            );
                                            slice_polygon(zoom, extent, buffer, &scaled, &mut tm);
                                            proof {
                                                assert(rings_view(scaled@) =~= spec_scale_rings(
                                                    rvp,
                                                    pow2_int(zoom as nat),
                                                ));
                                                assert(tm.contents() =~= spec_slice_polygon(
                                                    m_zoom,
                                                    spec_scale_rings(
                                                        rvp,
                                                        pow2_int(zoom as nat),
                                                    ),
                                                    zoom,
                                                    extent_g,
                                                    buffer_g,
                                                ));
                                            }
                                        }
                                        proof {
                                            assert(spec_zoom_fold(
                                                tm.contents(),
                                                rvp,
                                                zoom as int + 1,
                                                max_z as int,
                                                extent_g,
                                                buffer_g,
                                            ) == spec_zoom_fold(
                                                m_zoom,
                                                rvp,
                                                zoom as int,
                                                max_z as int,
                                                extent_g,
                                                buffer_g,
                                            ));
                                        }
                                        zoom = zoom + 1;
                                    }
                                    proof {
                                        assert(spec_zoom_fold(
                                            tm.contents(),
                                            rvp,
                                            zoom as int,
                                            max_z as int,
                                            extent_g,
                                            buffer_g,
                                        ) == tm.contents());
                                        assert(tm.contents() == spec_zoom_fold(
                                            m_poly,
                                            rvp,
                                            min_z as int,
                                            max_z as int,
                                            extent_g,
                                            buffer_g,
                                        ));
                                    }
                                    pi = pi + 1;
                                }
                                proof {
                                    assert(tm.contents() == spec_polys_fold(
                                        m_entry,
                                        store,
                                        g.pos as int,
                                        g.pos + g.len,
                                        min_z as int,
                                        max_z as int,
                                        extent_g,
                                        buffer_g,
                                    ));
                                }
                            },
                            _ => {
                                proof {
                                    assert(false);
                                }
                            },
                        }
                        proof {
                            assert(geometries@[gi2 as int] == g);
                            assert(spec_entries_fold(
                                tm.contents(),
                                geometries@,
                                store,
                                gi2 as int + 1,
                                min_z as int,
                                max_z as int,
                                extent_g,
                                buffer_g,
                            ) == spec_entries_fold(
                                m_entry,
                                geometries@,
                                store,
                                gi2 as int,
                                min_z as int,
                                max_z as int,
                                extent_g,
                                buffer_g,
                            ));
                        }
                        gi2 = gi2 + 1;
                    }
                    proof {
                        assert(tm.contents() == m_goal);
                        assert(spec_slice_entity(
                            *obj,
                            min_z as int,
                            max_z as int,
                            extent_g,
                            buffer_g,
                        ) == m_goal);
                    }
                    Ok(tm)
                },
                _ => {
                    proof {
                        assert(spec_slice_entity(
                            *obj,
                            min_z as int,
                            max_z as int,
                            extent_g,
                            buffer_g,
                        ) =~= Map::<TileKey, Seq<PolyView>>::empty());
                    }
                    Ok(tm)
                },
            }
        },
        _ => {
            proof {
                assert(spec_slice_entity(
                    *obj,
                    min_z as int,
                    max_z as int,
                    extent_g,
                    buffer_g,
                ) =~= Map::<TileKey, Seq<PolyView>>::empty());
            }
            Ok(tm)
        },
    }
}

} // verus!
