use vstd::prelude::*;

verus! {

use crate::geom::MultiPolygon2;
use crate::geom::TilePoint;
use crate::pipeline::PipelineError;
use crate::sort::SerializedSlicedFeature;
use crate::tilemap::TileMap;
use crate::tilemap::PolyView;
use crate::tilemap::view_multi_polygon;
use crate::tileid::TileIdMethod;
use crate::tileid::valid_zxy;
use crate::tileid::spec_zxy_to_id;
use crate::tileid::tiles_per_axis;

/// A 32-bit count in little-endian bytes.
pub open spec fn u32_le(n: u32) -> Seq<u8> {
    seq![
        (n & 0xff) as u8,
        ((n >> 8) & 0xff) as u8,
        ((n >> 16) & 0xff) as u8,
        ((n >> 24) & 0xff) as u8,
    ]
}

/// A tile-local coordinate in little-endian bytes (two's complement).
pub open spec fn i16_le(n: i16) -> Seq<u8> {
    seq![(n as u16 & 0xff) as u8, ((n as u16 >> 8) & 0xff) as u8]
}

pub open spec fn point_bytes(p: TilePoint) -> Seq<u8> {
    i16_le(p.x) + i16_le(p.y)
}

pub open spec fn ring_points_upto(r: Seq<TilePoint>, n: nat) -> Seq<u8>
    decreases n,
{
    if n == 0 {
        Seq::empty()
    } else {
        ring_points_upto(r, (n - 1) as nat) + point_bytes(r[n - 1])
    }
}

pub open spec fn ring_bytes(r: Seq<TilePoint>) -> Seq<u8> {
    u32_le(r.len() as u32) + ring_points_upto(r, r.len())
}

pub open spec fn poly_rings_upto(p: PolyView, n: nat) -> Seq<u8>
    decreases n,
{
    if n == 0 {
        Seq::empty()
    } else {
        poly_rings_upto(p, (n - 1) as nat) + ring_bytes(p[n - 1])
    }
}

pub open spec fn poly_bytes(p: PolyView) -> Seq<u8> {
    u32_le(p.len() as u32) + poly_rings_upto(p, p.len())
}

pub open spec fn mp_polys_upto(mp: Seq<PolyView>, n: nat) -> Seq<u8>
    decreases n,
{
    if n == 0 {
        Seq::empty()
    } else {
        mp_polys_upto(mp, (n - 1) as nat) + poly_bytes(mp[n - 1])
    }
}

/// The body framing of a sliced feature: the clipped geometry (counted
/// polygons of counted rings of 16-bit points, all little-endian),
/// followed by the feature's opaque property bytes.
pub open spec fn spec_encode_body(mp: Seq<PolyView>, props: Seq<u8>) -> Seq<u8> {
    u32_le(mp.len() as u32) + mp_polys_upto(mp, mp.len()) + props
}

/// All counts of the geometry fit the 32-bit framing.
pub open spec fn spec_encodable(mp: Seq<PolyView>) -> bool {
    &&& mp.len() <= 0xffffffff
    &&& forall|i: int|
        0 <= i < mp.len() ==> (#[trigger] mp[i]).len() <= 0xffffffff && (forall|j: int|
            0 <= j < mp[i].len() ==> (#[trigger] mp[i][j]).len() <= 0xffffffff)
}

fn push_u32(out: &mut Vec<u8>, n: u32)
    ensures
        final(out)@ =~= old(out)@ + u32_le(n),
{
    out.push((n & 0xff) as u8);
    out.push(((n >> 8) & 0xff) as u8);
    out.push(((n >> 16) & 0xff) as u8);
    out.push(((n >> 24) & 0xff) as u8);
}

fn push_i16(out: &mut Vec<u8>, n: i16)
    ensures
        final(out)@ =~= old(out)@ + i16_le(n),
{
    let u: u16 = n as u16;
    out.push((u & 0xff) as u8);
    out.push(((u >> 8) & 0xff) as u8);
}

/// Encode one tile's clipped geometry and the feature's property bytes
/// into the body of a serialized sliced feature.  Fails only when a
/// count exceeds the 32-bit framing.
pub fn encode_body(mp: &MultiPolygon2, props: &Vec<u8>) -> (r: Result<Vec<u8>, PipelineError>)
    ensures
        match r {
            Ok(v) => spec_encodable(view_multi_polygon(*mp)) && v@ == spec_encode_body(
                view_multi_polygon(*mp),
                props@,
            ),
            Err(e) => e == PipelineError::Encoding && !spec_encodable(view_multi_polygon(*mp)),
        },
{
    let ghost mpv = view_multi_polygon(*mp);
    let np = mp.polygons.len();
    if np > 0xffffffff {
        proof {
            assert(mpv.len() == mp.polygons@.len());
        }
        return Err(PipelineError::Encoding);
    }
    let mut out: Vec<u8> = Vec::new();
    push_u32(&mut out, np as u32);
    proof {
        assert(mpv.len() == mp.polygons@.len());
        assert(out@ =~= u32_le(mpv.len() as u32) + mp_polys_upto(mpv, 0));
    }
    let mut pi: usize = 0;
    while pi < np
        invariant
            pi <= np,
            np == mp.polygons@.len() <= 0xffffffff,
            mpv == view_multi_polygon(*mp),
            mpv.len() == np,
            out@ =~= u32_le(mpv.len() as u32) + mp_polys_upto(mpv, pi as nat),
            forall|i: int|
                0 <= i < pi ==> (#[trigger] mpv[i]).len() <= 0xffffffff && (forall|j: int|
                    0 <= j < mpv[i].len() ==> (#[trigger] mpv[i][j]).len() <= 0xffffffff),
        decreases np - pi,
    {
        let poly = &mp.polygons[pi];
        let ghost pv = mpv[pi as int];
        proof {
            assert(pv == crate::tilemap::view_polygon(mp.polygons@[pi as int]));
            assert(pv.len() == poly.rings@.len());
        }
        let nr = poly.rings.len();
        if nr > 0xffffffff {
            proof {
                assert(mpv[pi as int].len() > 0xffffffff);
                assert(!spec_encodable(mpv));
            }
            return Err(PipelineError::Encoding);
        }
        let ghost out_poly_start = out@;
        push_u32(&mut out, nr as u32);
        proof {
            assert(out@ =~= out_poly_start + u32_le(pv.len() as u32) + poly_rings_upto(pv, 0));
        }
        let mut ri: usize = 0;
        while ri < nr
            invariant
                ri <= nr,
                nr == poly.rings@.len() <= 0xffffffff,
                pv == crate::tilemap::view_polygon(*poly),
                pv.len() == nr,
                mpv == view_multi_polygon(*mp),
                pi < mpv.len(),
                pv == mpv[pi as int],
                out@ =~= out_poly_start + u32_le(pv.len() as u32) + poly_rings_upto(
                    pv,
                    ri as nat,
                ),
                forall|j: int| 0 <= j < ri ==> (#[trigger] pv[j]).len() <= 0xffffffff,
            decreases nr - ri,
        {
            let ring = &poly.rings[ri];
            let ghost rv = pv[ri as int];
            proof {
                assert(rv == poly.rings@[ri as int].points@);
            }
            let npt = ring.points.len();
            if npt > 0xffffffff {
                proof {
                    assert(mpv[pi as int][ri as int].len() > 0xffffffff);
                    assert(!spec_encodable(mpv));
                }
                return Err(PipelineError::Encoding);
            }
            let ghost out_ring_start = out@;
            push_u32(&mut out, npt as u32);
            proof {
                assert(out@ =~= out_ring_start + u32_le(rv.len() as u32) + ring_points_upto(
                    rv,
                    0,
                ));
            }
            let mut qi: usize = 0;
            while qi < npt
                invariant
                    qi <= npt,
                    npt == ring.points@.len() <= 0xffffffff,
                    rv == ring.points@,
                    out@ =~= out_ring_start + u32_le(rv.len() as u32) + ring_points_upto(
                        rv,
                        qi as nat,
                    ),
                decreases npt - qi,
            {
                let p = ring.points[qi];
                push_i16(&mut out, p.x);
                push_i16(&mut out, p.y);
                proof {
                    assert(out@ =~= out_ring_start + u32_le(rv.len() as u32) + ring_points_upto(
                        rv,
                        (qi + 1) as nat,
                    ));
                }
                qi = qi + 1;
            }
            proof {
                assert(out@ =~= out_poly_start + u32_le(pv.len() as u32) + poly_rings_upto(
                    pv,
                    (ri + 1) as nat,
                ));
                assert(pv[ri as int].len() <= 0xffffffff);
            }
            ri = ri + 1;
        }
        proof {
            assert(out@ =~= u32_le(mpv.len() as u32) + mp_polys_upto(mpv, (pi + 1) as nat));
            assert(mpv[pi as int].len() <= 0xffffffff);
        }
        pi = pi + 1;
    }
    proof {
        assert(spec_encodable(mpv));
    }
    let mut k: usize = 0;
    let nprops = props.len();
    while k < nprops
        invariant
            k <= nprops,
            nprops == props@.len(),
            mpv == view_multi_polygon(*mp),
            spec_encodable(mpv),
            out@ =~= u32_le(mpv.len() as u32) + mp_polys_upto(mpv, mpv.len()) + props@.subrange(
                0,
                k as int,
            ),
        decreases nprops - k,
    {
        out.push(props[k]);
        proof {
            assert(out@ =~= u32_le(mpv.len() as u32) + mp_polys_upto(mpv, mpv.len())
                + props@.subrange(0, k + 1 as int));
        }
        k = k + 1;
    }
    proof {
        assert(props@.subrange(0, nprops as int) =~= props@);
        assert(out@ =~= spec_encode_body(mpv, props@));
    }
    Ok(out)
}

/// Serialize one sliced feature's per-tile geometry into tile-id-tagged
/// records, one per tile: the unit that moves through the external sort.
/// Each record carries the tile's id under the chosen ordering and the
/// framed geometry followed by the feature's property bytes.  Fails only
/// on a tile key outside the encodable grid (corrupt slicing output) or
/// on geometry counts beyond the framing.
pub fn serialize_sliced_features(
    tm: &TileMap,
    method: TileIdMethod,
    props: &Vec<u8>,
) -> (r: Result<Vec<SerializedSlicedFeature>, PipelineError>)
    ensures
        match r {
            Ok(v) => {
                &&& v@.len() == tm.entries@.len()
                &&& forall|i: int|
                    0 <= i < v@.len() ==> {
                        let key = (#[trigger] tm.entries@[i]).0;
                        &&& valid_zxy(key.0, key.1, key.2)
                        &&& v@[i].tile_id as nat == spec_zxy_to_id(
                            key.0 as nat,
                            key.1 as nat,
                            key.2 as nat,
                        )
                        &&& v@[i].body@ == spec_encode_body(
                            view_multi_polygon(tm.entries@[i].1),
                            props@,
                        )
                    }
            },
            Err(e) => e == PipelineError::Encoding && (exists|i: int|
                0 <= i < tm.entries@.len() && {
                    let key = (#[trigger] tm.entries@[i]).0;
                    !valid_zxy(key.0, key.1, key.2) || !spec_encodable(
                        view_multi_polygon(tm.entries@[i].1),
                    )
                }),
        },
{
    let n = tm.entries.len();
    let mut out: Vec<SerializedSlicedFeature> = Vec::new();
    let mut i: usize = 0;
    while i < n
        invariant
            i <= n,
            n == tm.entries@.len(),
            out@.len() == i,
            forall|k: int|
                0 <= k < i ==> {
                    let key = (#[trigger] tm.entries@[k]).0;
                    &&& valid_zxy(key.0, key.1, key.2)
                    &&& out@[k].tile_id as nat == spec_zxy_to_id(
                        key.0 as nat,
                        key.1 as nat,
                        key.2 as nat,
                    )
                    &&& out@[k].body@ == spec_encode_body(
                        view_multi_polygon(tm.entries@[k].1),
                        props@,
                    )
                },
        decreases n - i,
    {
        let entry = &tm.entries[i];
        let zoom = entry.0.0;
        let x = entry.0.1;
        let y = entry.0.2;
        if zoom > 30 {
            return Err(PipelineError::Encoding);
        }
        let tpa = tiles_per_axis(zoom);
        if x >= tpa || y >= tpa {
            proof {
                assert(!valid_zxy(tm.entries@[i as int].0.0, tm.entries@[i as int].0.1,
                    tm.entries@[i as int].0.2));
            }
            return Err(PipelineError::Encoding);
        }
        let body = match encode_body(&entry.1, props) {
            Ok(b) => b,
            Err(e) => {
                proof {
                    assert(!spec_encodable(view_multi_polygon(tm.entries@[i as int].1)));
                }
                return Err(PipelineError::Encoding);
            },
        };
        let tile_id = method.zxy_to_id(zoom, x, y);
        out.push(SerializedSlicedFeature { tile_id, body });
        i = i + 1;
    }
    Ok(out)
}

} // verus!
