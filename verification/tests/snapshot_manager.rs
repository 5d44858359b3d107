use tunnelclient::snapshot_manager::{Snapshot, SnapshotFetchResult, SnapshotManager, Timestamp};

type Layers = Vec<u32>;

fn mksnapshot(n: u64, time: Timestamp) -> Snapshot<Layers> {
    Snapshot { frame_number: n, time, layers: Vec::new() }
}

fn mksnapshot_with_layer(n: u64, time: Timestamp, layer: u32) -> Snapshot<Layers> {
    let mut snap = mksnapshot(n, time);
    snap.layers.push(layer);
    snap
}

fn times(sm: &SnapshotManager<Layers>) -> Vec<i64> {
    sm.snapshots.iter().map(|s| s.time.0).collect()
}

#[test]
fn test_insert_snapshot() {
    let mut sm = SnapshotManager::default();
    let snapshots_ordered = [
        mksnapshot(0, Timestamp(10000)),
        mksnapshot(1, Timestamp(20000)),
        mksnapshot(2, Timestamp(30000)),
    ];
    for s in &snapshots_ordered {
        sm.insert_snapshot(s.clone());
    }
    let frames: Vec<u64> = sm.snapshots.iter().map(|s| s.frame_number).collect();
    assert_eq!(frames, vec![2, 1, 0]);

    let unordered_snapshot = mksnapshot(3, Timestamp(15000));
    sm.insert_snapshot(unordered_snapshot);

    assert_eq!(times(&sm), vec![30000, 20000, 15000, 10000]);
}

#[test]
fn an_insert_older_than_everything_goes_to_the_back() {
    let mut sm = SnapshotManager::default();
    sm.insert_snapshot(mksnapshot(0, Timestamp(10000)));
    sm.insert_snapshot(mksnapshot(1, Timestamp(20000)));
    sm.insert_snapshot(mksnapshot(2, Timestamp(5000)));
    assert_eq!(times(&sm), vec![20000, 10000, 5000]);
    // As old as the oldest: after it, still newest first.
    sm.insert_snapshot(mksnapshot(3, Timestamp(5000)));
    assert_eq!(times(&sm), vec![20000, 10000, 5000, 5000]);
    let frames: Vec<u64> = sm.snapshots.iter().map(|s| s.frame_number).collect();
    assert_eq!(frames, vec![1, 0, 2, 3]);
}

#[test]
fn test_drop_stale() {
    let mut sm = SnapshotManager::default();
    let snaps = [
        mksnapshot(0, Timestamp(0)),
        mksnapshot(1, Timestamp(1000)),
        mksnapshot(2, Timestamp(2000)),
    ];
    for s in &snaps {
        sm.insert_snapshot(s.clone());
    }
    sm.oldest_relevant_snapshot_time = Timestamp(2000);
    sm.update();

    assert!(sm.snapshots.len() == 1);
    assert!(sm.snapshots[0].time.0 == 2000);
}

#[test]
fn test_no_data() {
    let mut sm: SnapshotManager<Layers> = SnapshotManager::default();
    if let SnapshotFetchResult::NoData = sm.get(Timestamp(0)) {
    } else {
        panic!();
    }
}

#[test]
fn test_one_older_frame() {
    let mut sm = SnapshotManager::default();
    let snap = mksnapshot_with_layer(0, Timestamp(0), 7);
    sm.insert_snapshot(snap.clone());
    if let SnapshotFetchResult::MissingNewer(f) = sm.get(Timestamp(1000)) {
        assert_eq!(snap.layers, f);
    } else {
        panic!();
    }
    assert_eq!(sm.oldest_relevant_snapshot_time, Timestamp(0));
}

#[test]
fn test_one_newer_frame() {
    let mut sm = SnapshotManager::default();
    sm.oldest_relevant_snapshot_time = Timestamp(5);
    let snap = mksnapshot_with_layer(0, Timestamp(10000), 7);
    sm.insert_snapshot(snap.clone());
    if let SnapshotFetchResult::MissingOlder(f) = sm.get(Timestamp(1000)) {
        assert_eq!(snap.layers, f);
    } else {
        panic!();
    }
    assert_eq!(sm.oldest_relevant_snapshot_time, Timestamp(5), "the missing one is not relevant");
}

fn setup_two_frame_test() -> (SnapshotManager<Layers>, Snapshot<Layers>, Snapshot<Layers>) {
    let mut sm = SnapshotManager::default();
    let snap0 = mksnapshot_with_layer(0, Timestamp(0), 1);
    let snap1 = mksnapshot_with_layer(1, Timestamp(10000), 2);
    sm.insert_snapshot(snap0.clone());
    sm.insert_snapshot(snap1.clone());
    (sm, snap0, snap1)
}

#[test]
fn test_two_frames_exact_newer() {
    let (mut sm, _snap0, snap1) = setup_two_frame_test();
    if let SnapshotFetchResult::Good(f) = sm.get(Timestamp(1000)) {
        assert_eq!(snap1.layers, f);
    } else {
        panic!();
    }
    assert_eq!(sm.oldest_relevant_snapshot_time, Timestamp(0));
}

#[test]
fn test_two_frames_exact_older() {
    let (mut sm, _snap0, snap1) = setup_two_frame_test();
    // At the older snapshot's own time the pair still brackets it, and the
    // newer of the two is what comes back.
    if let SnapshotFetchResult::Good(f) = sm.get(Timestamp(0)) {
        assert_eq!(snap1.layers, f);
    } else {
        panic!();
    }
}

#[test]
fn lagging_behind_draws_the_newest() {
    let (mut sm, _snap0, snap1) = setup_two_frame_test();
    if let SnapshotFetchResult::MissingNewer(f) = sm.get(Timestamp(20000)) {
        assert_eq!(snap1.layers, f);
    } else {
        panic!();
    }
    assert_eq!(sm.oldest_relevant_snapshot_time, Timestamp(10000));
}

#[test]
fn a_time_before_everything_is_an_error_carrying_the_collection() {
    let (mut sm, _snap0, _snap1) = setup_two_frame_test();
    match sm.get(Timestamp(-5)) {
        SnapshotFetchResult::Error(all) => {
            let frames: Vec<u64> = all.iter().map(|s| s.frame_number).collect();
            assert_eq!(frames, vec![1, 0]);
        }
        _ => panic!(),
    }
}

#[test]
fn relevance_moves_with_what_is_drawn_and_staleness_follows() {
    let mut sm = SnapshotManager::default();
    for (n, t) in [(0u64, 0i64), (1, 1000), (2, 2000), (3, 3000)] {
        sm.insert_snapshot(mksnapshot_with_layer(n, Timestamp(t), n as u32));
    }
    match sm.get(Timestamp(2500)) {
        SnapshotFetchResult::Good(f) => assert_eq!(f, vec![3]),
        _ => panic!(),
    }
    assert_eq!(sm.oldest_relevant_snapshot_time, Timestamp(2000));
    sm.update();
    assert_eq!(times(&sm), vec![3000, 2000]);
}
