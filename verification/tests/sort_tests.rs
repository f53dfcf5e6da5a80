use std::collections::HashMap;

use nusamai::sort::external_sort_records;
use nusamai::sort::group_sorted;
use nusamai::sort::SerializedSlicedFeature;

fn synthetic_records(n: u64) -> Vec<SerializedSlicedFeature> {
    // A small linear congruential generator: deterministic pseudo-random
    // tile ids, each record's body remembering its id and index.
    let mut state: u64 = 0x2545F4914F6CDD1D;
    let mut records = Vec::new();
    for i in 0..n {
        state = state.wrapping_mul(6364136223846793005).wrapping_add(1442695040888963407);
        let tile_id = (state >> 33) % 50;
        let mut body = Vec::new();
        body.extend_from_slice(&tile_id.to_le_bytes());
        body.extend_from_slice(&i.to_le_bytes());
        records.push(SerializedSlicedFeature { tile_id, body });
    }
    records
}

/// Sort completeness: with a memory ceiling far below the input size
/// (forcing spills to disk), every record comes back exactly once, in
/// non-decreasing tile-id order, and each tile id holds the same bodies
/// as a reference in-memory sort.
#[test]
fn external_sort_preserves_all_records() {
    let n: u64 = 1000;
    let records = synthetic_records(n);

    let mut reference: HashMap<u64, Vec<Vec<u8>>> = HashMap::new();
    for r in &records {
        reference.entry(r.tile_id).or_default().push(r.body.clone());
    }
    for bodies in reference.values_mut() {
        bodies.sort();
    }

    // 2000 bytes of buffer versus tens of kilobytes of records: the sort
    // must spill several chunks and still reproduce the stream.
    let sorted = external_sort_records(records, 2000, 2, "/tmp").unwrap();
    assert_eq!(sorted.len(), n as usize);
    for w in sorted.windows(2) {
        assert!(w[0].tile_id <= w[1].tile_id);
    }

    let groups = group_sorted(&sorted);
    let total: usize = groups.iter().map(|g| g.1.len()).sum();
    assert_eq!(total, n as usize);

    let mut seen: HashMap<u64, Vec<Vec<u8>>> = HashMap::new();
    for (tile_id, batch) in &groups {
        assert!(!batch.is_empty());
        for r in batch {
            assert_eq!(r.tile_id, *tile_id);
            seen.entry(*tile_id).or_default().push(r.body.clone());
        }
    }
    for bodies in seen.values_mut() {
        bodies.sort();
    }
    assert_eq!(seen, reference);

    // Grouping merges whole runs: adjacent batches carry distinct ids.
    for w in groups.windows(2) {
        assert_ne!(w[0].0, w[1].0);
    }
}

/// The sort must actually reorder: a reversed stream comes back
/// ascending, so the trusted boundary demonstrably does its work.
#[test]
fn external_sort_reorders_reversed_input() {
    let mut records = Vec::new();
    for i in (0..100u64).rev() {
        records.push(SerializedSlicedFeature { tile_id: i, body: vec![i as u8] });
    }
    assert_eq!(records[0].tile_id, 99);
    let sorted = external_sort_records(records, 1 << 20, 1, "/tmp").unwrap();
    for (i, r) in sorted.iter().enumerate() {
        assert_eq!(r.tile_id, i as u64);
        assert_eq!(r.body, vec![i as u8]);
    }
}

#[test]
fn grouping_batches_runs_of_equal_ids() {
    let ids = [3u64, 3, 3, 7, 9, 9];
    let records: Vec<SerializedSlicedFeature> = ids
        .iter()
        .enumerate()
        .map(|(i, &tile_id)| SerializedSlicedFeature { tile_id, body: vec![i as u8] })
        .collect();
    let groups = group_sorted(&records);
    assert_eq!(groups.len(), 3);
    assert_eq!(groups[0].0, 3);
    assert_eq!(groups[0].1.len(), 3);
    assert_eq!(groups[1].0, 7);
    assert_eq!(groups[1].1.len(), 1);
    assert_eq!(groups[2].0, 9);
    assert_eq!(groups[2].1.len(), 2);
    // Records keep their order within a batch.
    assert_eq!(groups[0].1[0].body, vec![0]);
    assert_eq!(groups[0].1[1].body, vec![1]);
    assert_eq!(groups[0].1[2].body, vec![2]);
}

#[test]
fn grouping_empty_stream_gives_no_batches() {
    let groups = group_sorted(&Vec::new());
    assert_eq!(groups.len(), 0);
}
