use nusamai::entity::Entity;
use nusamai::entity::GeometryRef;
use nusamai::entity::GeometryStore;
use nusamai::entity::GeometryType;
use nusamai::entity::Object;
use nusamai::entity::ObjectStereotype;
use nusamai::entity::StoredPolygon;
use nusamai::entity::Value;
use nusamai::feature::encode_body;
use nusamai::feature::serialize_sliced_features;
use nusamai::geom::GridPoint;
use nusamai::geom::MultiPolygon2;
use nusamai::geom::TilePoint;
use nusamai::slice::slice_cityobj_geoms;
use nusamai::sort::external_sort_records;
use nusamai::sort::group_sorted;
use nusamai::pipeline::prepare_tile_batch;
use nusamai::tileid::TileIdMethod;

#[test]
fn body_framing_is_exact() {
    let mut mp = MultiPolygon2::new();
    mp.add_exterior(vec![
        TilePoint { x: 1, y: 2 },
        TilePoint { x: 3, y: 4 },
        TilePoint { x: -1, y: 6 },
    ]);
    let props = vec![9u8, 9u8];
    let body = encode_body(&mp, &props).unwrap();
    let expected = vec![
        1, 0, 0, 0, // one polygon
        1, 0, 0, 0, // one ring
        3, 0, 0, 0, // three points
        1, 0, 2, 0, // (1, 2)
        3, 0, 4, 0, // (3, 4)
        0xff, 0xff, 6, 0, // (-1, 6)
        9, 9, // property bytes
    ];
    assert_eq!(body, expected);
}

#[test]
fn empty_geometry_frames_to_count_and_props() {
    let mp = MultiPolygon2::new();
    let props = vec![7u8];
    let body = encode_body(&mp, &props).unwrap();
    assert_eq!(body, vec![0, 0, 0, 0, 7]);
}

/// The whole compute chain of the pipeline on one feature: slice, tag
/// and serialize, sort out of core, group, and decode the batch keys
/// back to tile coordinates.
#[test]
fn end_to_end_single_feature() {
    let square = vec![vec![
        GridPoint { x: 0, y: 0 },
        GridPoint { x: 0, y: 4096 },
        GridPoint { x: 4096, y: 4096 },
        GridPoint { x: 4096, y: 0 },
    ]];
    let entity = Entity {
        root: Value::Object(Object {
            typename: "bldg:Building".to_string(),
            stereotype: ObjectStereotype::Feature {
                id: "b1".to_string(),
                geometries: vec![GeometryRef { ty: GeometryType::Solid, pos: 0, len: 1 }],
            },
            attributes: Vec::new(),
        }),
        geometry_store: GeometryStore { multipolygon: vec![StoredPolygon { rings: square }] },
    };
    let conv = TileIdMethod::Hilbert;
    let props = vec![0xAB, 0xCD];

    let tm = slice_cityobj_geoms(&entity, 1, 1, 12, 0).unwrap();
    let records = serialize_sliced_features(&tm, conv, &props).unwrap();
    assert_eq!(records.len(), 4);
    for r in &records {
        // 1 polygon, 1 ring, 4 points, then the property bytes.
        assert_eq!(r.body.len(), 4 + 4 + 4 + 4 * 4 + 2);
        assert_eq!(&r.body[r.body.len() - 2..], &[0xAB, 0xCD]);
    }

    let sorted = external_sort_records(records, 64, 1, "/tmp").unwrap();
    let groups = group_sorted(&sorted);
    assert_eq!(groups.len(), 4);

    let mut tiles = Vec::new();
    for batch in groups {
        let out = prepare_tile_batch(conv, batch).unwrap().unwrap();
        assert_eq!(out.3.len(), 1);
        tiles.push((out.0, out.1, out.2));
    }
    tiles.sort();
    assert_eq!(tiles, vec![(1, 0, 0), (1, 0, 1), (1, 1, 0), (1, 1, 1)]);
}
