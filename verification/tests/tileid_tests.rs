use nusamai::tileid::TileIdMethod;

#[test]
fn round_trip_all_small_zooms() {
    let conv = TileIdMethod::Hilbert;
    for zoom in 0u8..=5 {
        let n = 1u32 << zoom;
        for x in 0..n {
            for y in 0..n {
                let id = conv.zxy_to_id(zoom, x, y);
                assert_eq!(conv.id_to_zxy(id), Some((zoom, x, y)));
            }
        }
    }
}

#[test]
fn round_trip_high_zoom_samples() {
    let conv = TileIdMethod::Hilbert;
    let cases = [
        (16u8, 58211u32, 25806u32),
        (16, 0, 0),
        (16, 65535, 65535),
        (30, 0x3FFF_FFFF, 0),
        (30, 12345678, 87654321 % (1 << 30)),
    ];
    for (z, x, y) in cases {
        let id = conv.zxy_to_id(z, x, y);
        assert_eq!(conv.id_to_zxy(id), Some((z, x, y)));
    }
}

#[test]
fn zoom_levels_are_contiguous_ranges() {
    let conv = TileIdMethod::Hilbert;
    // Zoom 0 is the single id 0; zoom 1 covers the next four ids in
    // curve order around the quadrants.
    assert_eq!(conv.zxy_to_id(0, 0, 0), 0);
    assert_eq!(conv.zxy_to_id(1, 0, 0), 1);
    assert_eq!(conv.zxy_to_id(1, 0, 1), 2);
    assert_eq!(conv.zxy_to_id(1, 1, 1), 3);
    assert_eq!(conv.zxy_to_id(1, 1, 0), 4);
    assert_eq!(conv.zxy_to_id(2, 0, 0), 5);
}

#[test]
fn decode_rejects_ids_beyond_max_zoom() {
    let conv = TileIdMethod::Hilbert;
    assert_eq!(conv.id_to_zxy(u64::MAX), None);
    // The id one past the last zoom-30 tile: the sum of 4^k for k <= 30.
    let mut limit: u64 = 0;
    for z in 0..=30u32 {
        limit += 1u64 << (2 * z);
    }
    assert_eq!(conv.id_to_zxy(limit), None);
    assert!(conv.id_to_zxy(limit - 1).is_some());
}

#[test]
fn locality_same_zoom_ids_stay_within_level_span() {
    let conv = TileIdMethod::Hilbert;
    let zoom = 5u8;
    let n = 1u32 << zoom;
    let span = 1u64 << (2 * zoom);
    let mut max_adjacent_gap: u64 = 0;
    for x in 0..n {
        for y in 0..n {
            let id = conv.zxy_to_id(zoom, x, y);
            if x + 1 < n {
                let idr = conv.zxy_to_id(zoom, x + 1, y);
                let gap = if idr > id { idr - id } else { id - idr };
                assert!(gap < span);
                max_adjacent_gap = max_adjacent_gap.max(gap);
            }
            if y + 1 < n {
                let idd = conv.zxy_to_id(zoom, x, y + 1);
                let gap = if idd > id { idd - id } else { id - idd };
                assert!(gap < span);
                max_adjacent_gap = max_adjacent_gap.max(gap);
            }
        }
    }
    // Not raster-major: along the curve many neighbours are one step
    // apart, which a row-major order only achieves along one axis.
    assert_eq!(conv.zxy_to_id(zoom, 0, 1) - conv.zxy_to_id(zoom, 0, 0), 1);
    assert!(max_adjacent_gap > 1);
}
