use vstd::prelude::*;

verus! {

use crate::geom::MultiPolygon2;
use crate::geom::TilePolygon;
use crate::geom::TilePoint;
use crate::geom::wf_polygon;
use crate::geom::wf_multi_polygon;

/// A tile coordinate key: `(zoom, x, y)`.
pub type TileKey = (u8, u32, u32);

/// The shape of one polygon as plain data: its rings, each a sequence of
/// tile-local points.
pub type PolyView = Seq<Seq<TilePoint>>;

pub open spec fn view_polygon(p: TilePolygon) -> PolyView {
    p.rings@.map_values(|r: crate::geom::TileRing| r.points@)
}

pub open spec fn view_multi_polygon(mp: MultiPolygon2) -> Seq<PolyView> {
    mp.polygons@.map_values(|p: TilePolygon| view_polygon(p))
}

/// Per-tile accumulation of clipped polygons, keyed by tile coordinate.
/// Backed by an association vector with unique keys; its meaning is the
/// finite map from keys to polygon sequences.
#[derive(Debug, PartialEq, Eq)]
pub struct TileMap {
    pub entries: Vec<(TileKey, MultiPolygon2)>,
}

pub open spec fn entries_map(s: Seq<(TileKey, MultiPolygon2)>) -> Map<TileKey, Seq<PolyView>>
    decreases s.len(),
{
    if s.len() == 0 {
        Map::empty()
    } else {
        entries_map(s.drop_last()).insert(s.last().0, view_multi_polygon(s.last().1))
    }
}

pub open spec fn keys_unique(s: Seq<(TileKey, MultiPolygon2)>) -> bool {
    forall|i: int, j: int| 0 <= i < j < s.len() ==> (#[trigger] s[i]).0 != (#[trigger] s[j]).0
}

impl TileMap {
    /// The finite map this accumulator stands for.
    pub open spec fn contents(self) -> Map<TileKey, Seq<PolyView>> {
        entries_map(self.entries@)
    }

    pub open spec fn wf(self) -> bool {
        &&& keys_unique(self.entries@)
        &&& forall|i: int|
            0 <= i < self.entries@.len() ==> wf_multi_polygon((#[trigger] self.entries@[i]).1)
                && (self.entries@[i]).1.polygons@.len() > 0
    }

    pub fn new() -> (r: TileMap)
        ensures
            r.wf(),
            r.contents() =~= Map::<TileKey, Seq<PolyView>>::empty(),
    {
        TileMap { entries: Vec::new() }
    }

    /// Append one polygon to the tile `key`, starting the tile's
    /// collection if this is its first polygon.
    pub fn push_polygon(&mut self, key: TileKey, poly: TilePolygon)
        requires
            old(self).wf(),
            wf_polygon(poly),
        ensures
            final(self).wf(),
            final(self).contents() =~= old(self).contents().insert(
                key,
                map_get_or_empty(old(self).contents(), key).push(view_polygon(poly)),
            ),
    {
        let ghost old_entries = self.entries@;
        let n = self.entries.len();
        let mut i: usize = 0;
        while i < n
            invariant
                i <= n,
                n == self.entries@.len(),
                self.entries@ == old_entries,
                old(self).wf(),
                old_entries == old(self).entries@,
                wf_polygon(poly),
                forall|j: int| 0 <= j < i ==> (#[trigger] old_entries[j]).0 != key,
            decreases n - i,
        {
            let (k, _) = self.entries[i];
            if k.0 == key.0 && k.1 == key.1 && k.2 == key.2 {
                proof {
                    assert(old_entries[i as int].0 == key);
                    lemma_entries_map_lookup(old_entries, i as int);
                }
                let ghost gpoly = poly;
                let entry = &mut self.entries[i];
                entry.1.polygons.push(poly);
                proof {
                    assert(wf_polygon(gpoly));
                }
                proof {
                    assert(self.entries@ =~= old_entries.update(
                        i as int,
                        (key, self.entries@[i as int].1),
                    ));
                    assert(view_multi_polygon(self.entries@[i as int].1) =~= view_multi_polygon(
                        old_entries[i as int].1,
                    ).push(view_polygon(gpoly)));
                    lemma_entries_map_update(old_entries, i as int, self.entries@[i as int].1);
                    assert(self.contents() =~= old(self).contents().insert(
                        key,
                        map_get_or_empty(old(self).contents(), key).push(view_polygon(gpoly)),
                    ));
                    assert(keys_unique(self.entries@));
                    assert(self.entries@[i as int].1.polygons@ =~= old_entries[i as int].1.polygons@.push(
                        gpoly,
                    ));
                    assert forall|j: int| 0 <= j < self.entries@.len() implies wf_multi_polygon(
                        (#[trigger] self.entries@[j]).1,
                    ) && (self.entries@[j]).1.polygons@.len() > 0 by {
                        if j == i as int {
                            assert(wf_multi_polygon(old_entries[j].1));
                            crate::geom::lemma_wf_mp_push(
                                old_entries[j].1,
                                self.entries@[j].1,
                                gpoly,
                            );
                        } else {
                            assert(self.entries@[j] == old_entries[j]);
                        }
                    }
                }
                return ;
            }
            i = i + 1;
        }
        proof {
            lemma_entries_map_absent(old_entries, key);
        }
        let mut mp = MultiPolygon2::new();
        mp.polygons.push(poly);
        self.entries.push((key, mp));
        proof {
            assert(self.entries@.drop_last() =~= old_entries);
            assert(view_multi_polygon(self.entries@.last().1) =~= Seq::<PolyView>::empty().push(
                view_polygon(poly),
            ));
            assert(self.contents() =~= old(self).contents().insert(
                key,
                map_get_or_empty(old(self).contents(), key).push(view_polygon(poly)),
            ));
        }
    }
}

/// The tile's polygons so far, or none yet.
pub open spec fn map_get_or_empty(m: Map<TileKey, Seq<PolyView>>, key: TileKey) -> Seq<PolyView> {
    if m.dom().contains(key) {
        m[key]
    } else {
        Seq::empty()
    }
}

/// With unique keys, the map built from the entries looks up entry `i`'s
/// value at entry `i`'s key.
proof fn lemma_entries_map_lookup(s: Seq<(TileKey, MultiPolygon2)>, i: int)
    requires
        keys_unique(s),
        0 <= i < s.len(),
    ensures
        entries_map(s).dom().contains(s[i].0),
        entries_map(s)[s[i].0] == view_multi_polygon(s[i].1),
    decreases s.len(),
{
    if i + 1 < s.len() {
        lemma_entries_map_lookup(s.drop_last(), i);
        assert(s.drop_last()[i] == s[i]);
        assert(s[i].0 != s.last().0);
    } else {
        assert(s[i] == s.last());
    }
}

/// A key that no entry carries is not in the built map.
proof fn lemma_entries_map_absent(s: Seq<(TileKey, MultiPolygon2)>, key: TileKey)
    requires
        forall|j: int| 0 <= j < s.len() ==> (#[trigger] s[j]).0 != key,
    ensures
        !entries_map(s).dom().contains(key),
    decreases s.len(),
{
    if s.len() > 0 {
        lemma_entries_map_absent(s.drop_last(), key);
    }
}

/// Updating the value of entry `i` updates the built map at entry `i`'s
/// key and nothing else.
proof fn lemma_entries_map_update(s: Seq<(TileKey, MultiPolygon2)>, i: int, v: MultiPolygon2)
    requires
        keys_unique(s),
        0 <= i < s.len(),
    ensures
        entries_map(s.update(i, (s[i].0, v))) =~= entries_map(s).insert(
            s[i].0,
            view_multi_polygon(v),
        ),
    decreases s.len(),
{
    let t = s.update(i, (s[i].0, v));
    if i + 1 < s.len() {
        assert(t.drop_last() =~= s.drop_last().update(i, (s[i].0, v)));
        assert(s.drop_last()[i] == s[i]);
        lemma_entries_map_update(s.drop_last(), i, v);
        assert(t.last() == s.last());
        assert(s[i].0 != s.last().0);
        assert(entries_map(t) =~= entries_map(s.drop_last()).insert(
            s[i].0,
            view_multi_polygon(v),
        ).insert(s.last().0, view_multi_polygon(s.last().1)));
        assert(entries_map(s.drop_last()).insert(s[i].0, view_multi_polygon(v)).insert(
            s.last().0,
            view_multi_polygon(s.last().1),
        ) =~= entries_map(s).insert(s[i].0, view_multi_polygon(v)));
    } else {
        assert(t.drop_last() =~= s.drop_last());
        assert(t.last() == (s[i].0, v));
    }
}

} // verus!
