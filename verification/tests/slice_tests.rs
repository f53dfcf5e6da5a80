use nusamai::entity::Entity;
use nusamai::entity::GeometryRef;
use nusamai::entity::GeometryStore;
use nusamai::entity::GeometryType;
use nusamai::entity::Object;
use nusamai::entity::ObjectStereotype;
use nusamai::entity::StoredPolygon;
use nusamai::entity::Value;
use nusamai::geom::GridPoint;
use nusamai::geom::TilePoint;
use nusamai::pipeline::PipelineError;
use nusamai::slice::slice_cityobj_geoms;
use nusamai::slice::slice_polygon;
use nusamai::tilemap::TileMap;

fn pt(x: i64, y: i64) -> GridPoint {
    GridPoint { x, y }
}

fn tp(x: i16, y: i16) -> TilePoint {
    TilePoint { x, y }
}

fn feature_entity(rings: Vec<Vec<GridPoint>>, ty: GeometryType) -> Entity {
    let store = GeometryStore { multipolygon: vec![StoredPolygon { rings }] };
    Entity {
        root: Value::Object(Object {
            typename: "bldg:Building".to_string(),
            stereotype: ObjectStereotype::Feature {
                id: "feature-1".to_string(),
                geometries: vec![GeometryRef { ty, pos: 0, len: 1 }],
            },
            attributes: Vec::new(),
        }),
        geometry_store: store,
    }
}

/// The concrete scenario: a square spanning the whole 2 x 2 grid of zoom
/// 1 (clockwise, as the slicer's winding convention expects), with
/// buffer 0 and extent 4096, lands in exactly the four zoom-1 tiles,
/// each holding one full-tile quadrant square.
#[test]
fn square_splits_into_four_quadrant_tiles() {
    // Base coordinates at zoom 0 span the whole extent; at zoom 1 the
    // square covers [0, 8192] x [0, 8192], i.e. the full 2 x 2 grid.
    let square = vec![vec![pt(0, 0), pt(0, 4096), pt(4096, 4096), pt(4096, 0)]];
    let entity = feature_entity(square, GeometryType::Solid);
    let tm = slice_cityobj_geoms(&entity, 1, 1, 12, 0).unwrap();

    assert_eq!(tm.entries.len(), 4);
    let mut keys: Vec<(u8, u32, u32)> = tm.entries.iter().map(|e| e.0).collect();
    keys.sort();
    assert_eq!(keys, vec![(1, 0, 0), (1, 0, 1), (1, 1, 0), (1, 1, 1)]);

    for (key, mpoly) in &tm.entries {
        assert_eq!(mpoly.polygons.len(), 1);
        let rings = &mpoly.polygons[0].rings;
        assert_eq!(rings.len(), 1);
        let points = &rings[0].points;
        assert_eq!(points.len(), 4, "tile {key:?}");
        // Each quadrant is the full tile-local square, rewound to the
        // positive orientation.
        let mut sorted = points.clone();
        sorted.sort_by_key(|p| (p.x, p.y));
        assert_eq!(sorted, vec![tp(0, 0), tp(0, 4096), tp(4096, 0), tp(4096, 4096)]);
        let area2 = nusamai::geom::twice_signed_area(points);
        assert_eq!(area2, 2 * 4096 * 4096);
    }

    // Clip conservation with buffer 0: the quadrant areas sum to the
    // area of the original square (4 tile areas).
    let total: i128 = tm
        .entries
        .iter()
        .map(|e| nusamai::geom::twice_signed_area(&e.1.polygons[0].rings[0].points))
        .sum();
    assert_eq!(total, 4 * 2 * 4096 * 4096);
}

#[test]
fn quadrant_ring_of_first_tile_is_exact() {
    let square = vec![vec![pt(0, 0), pt(0, 4096), pt(4096, 4096), pt(4096, 0)]];
    let entity = feature_entity(square, GeometryType::Surface);
    let tm = slice_cityobj_geoms(&entity, 1, 1, 12, 0).unwrap();
    let first = tm.entries.iter().find(|e| e.0 == (1, 0, 0)).unwrap();
    assert_eq!(
        first.1.polygons[0].rings[0].points,
        vec![tp(4096, 0), tp(4096, 4096), tp(0, 4096), tp(0, 0)]
    );
}

/// Clip completeness: a polygon entirely inside one tile's bounds comes
/// out as exactly that polygon, rewound, in exactly that tile.
#[test]
fn polygon_inside_one_tile_passes_through() {
    let ring = vec![pt(100, 100), pt(100, 200), pt(200, 200), pt(200, 100)];
    let mut tm = TileMap::new();
    slice_polygon(1, 4096, 0, &vec![ring], &mut tm);
    assert_eq!(tm.entries.len(), 1);
    assert_eq!(tm.entries[0].0, (1, 0, 0));
    let points = &tm.entries[0].1.polygons[0].rings[0].points;
    assert_eq!(points, &vec![tp(200, 100), tp(200, 200), tp(100, 200), tp(100, 100)]);
}

/// Degenerate culling: a polygon whose area is visible as a whole but
/// whose clipped per-tile pieces fall below the minimum visible area
/// leaves no ring in any tile.
#[test]
fn subpixel_polygon_is_culled_after_clipping() {
    // A 2 x 1 rectangle straddling the boundary between tile columns 0
    // and 1: each clipped half is a 1 x 1 square, below the threshold.
    let rect = vec![vec![pt(4095, 0), pt(4095, 1), pt(4097, 1), pt(4097, 0)]];
    let mut tm = TileMap::new();
    slice_polygon(1, 4096, 0, &rect, &mut tm);
    assert_eq!(tm.entries.len(), 0);

    // The same rectangle kept whole in one tile reaches the threshold
    // (area 4, twice-area 8) and survives.
    let rect_inside = vec![vec![pt(100, 0), pt(100, 1), pt(104, 1), pt(104, 0)]];
    let mut tm2 = TileMap::new();
    slice_polygon(1, 4096, 0, &rect_inside, &mut tm2);
    assert_eq!(tm2.entries.len(), 1);
}

/// A ring wound the wrong way has negative area after the rewind and is
/// culled with its holes.
#[test]
fn wrong_winding_is_culled() {
    let ccw = vec![vec![pt(100, 100), pt(200, 100), pt(200, 200), pt(100, 200)]];
    let mut tm = TileMap::new();
    slice_polygon(1, 4096, 0, &ccw, &mut tm);
    assert_eq!(tm.entries.len(), 0);
}

/// Unsupported geometry kinds are a hard error, not a silent skip.
#[test]
fn curve_geometry_is_rejected() {
    let square = vec![vec![pt(0, 0), pt(0, 4096), pt(4096, 4096), pt(4096, 0)]];
    let entity = feature_entity(square, GeometryType::Curve);
    assert_eq!(
        slice_cityobj_geoms(&entity, 1, 1, 12, 0),
        Err(PipelineError::UnsupportedGeometry)
    );
    let square2 = vec![vec![pt(0, 0), pt(0, 4096), pt(4096, 4096), pt(4096, 0)]];
    let entity2 = feature_entity(square2, GeometryType::Point);
    assert_eq!(
        slice_cityobj_geoms(&entity2, 1, 1, 12, 0),
        Err(PipelineError::UnsupportedGeometry)
    );
}

/// An empty geometry store slices to nothing.
#[test]
fn empty_store_slices_to_nothing() {
    let entity = Entity {
        root: Value::Boolean(true),
        geometry_store: GeometryStore { multipolygon: Vec::new() },
    };
    let tm = slice_cityobj_geoms(&entity, 1, 3, 12, 8).unwrap();
    assert_eq!(tm.entries.len(), 0);
}

/// A buffered clip keeps a margin of the neighbouring tile's geometry:
/// with a buffer the quadrant rings extend past the tile proper.
#[test]
fn buffer_widens_tile_rings() {
    let square = vec![vec![pt(0, 0), pt(0, 4096), pt(4096, 4096), pt(4096, 0)]];
    let entity = feature_entity(square, GeometryType::Solid);
    // 16 buffer pixels at extent 4096: 4096 * 16 / 256 = 256 units.
    let tm = slice_cityobj_geoms(&entity, 1, 1, 12, 16).unwrap();
    assert_eq!(tm.entries.len(), 4);
    let first = tm.entries.iter().find(|e| e.0 == (1, 0, 0)).unwrap();
    let points = &first.1.polygons[0].rings[0].points;
    let max_x = points.iter().map(|p| p.x).max().unwrap();
    let max_y = points.iter().map(|p| p.y).max().unwrap();
    assert_eq!(max_x, 4096 + 256);
    assert_eq!(max_y, 4096 + 256);
}

/// Clip conservation with buffer 0: a right triangle split across the
/// zoom-1 grid keeps its area exactly — the full tile it covers, two
/// half-tile corners, and nothing in the tile it only touches along the
/// diagonal.
#[test]
fn triangle_area_is_conserved_across_tiles() {
    let triangle = vec![vec![pt(0, 0), pt(0, 8192), pt(8192, 0)]];
    let mut tm = TileMap::new();
    slice_polygon(1, 4096, 0, &triangle, &mut tm);
    let mut keys: Vec<(u8, u32, u32)> = tm.entries.iter().map(|e| e.0).collect();
    keys.sort();
    assert_eq!(keys, vec![(1, 0, 0), (1, 0, 1), (1, 1, 0)]);
    let total: i128 = tm
        .entries
        .iter()
        .map(|e| nusamai::geom::twice_signed_area(&e.1.polygons[0].rings[0].points))
        .sum();
    // Twice the triangle's area: 8192 * 8192.
    assert_eq!(total, 8192 * 8192);
}

/// A polygon with a hole keeps the hole as its second ring; holes are
/// not area-culled on their own.
#[test]
fn hole_ring_travels_with_its_exterior() {
    let donut = vec![
        vec![pt(100, 100), pt(100, 400), pt(400, 400), pt(400, 100)],
        vec![pt(200, 200), pt(300, 200), pt(300, 300), pt(200, 300)],
    ];
    let mut tm = TileMap::new();
    slice_polygon(1, 4096, 0, &donut, &mut tm);
    assert_eq!(tm.entries.len(), 1);
    let rings = &tm.entries[0].1.polygons[0].rings;
    assert_eq!(rings.len(), 2);
    // The exterior is rewound to positive area, the hole to negative.
    assert!(nusamai::geom::twice_signed_area(&rings[0].points) > 0);
    assert!(nusamai::geom::twice_signed_area(&rings[1].points) < 0);
}
