use reclipse::commands::snapshot::{
    block_file_name, snapshot_dir_name, snapshot_listing, CollectorAction, CollectorEvent,
    CollectorPhase, TestVectorCollector,
};

#[test]
fn collector_two_snapshots_two_blocks() {
    let (mut c, a) = TestVectorCollector::new(2, 2);
    assert_eq!(a, CollectorAction::QueryHighestSnapshot);
    let a = c.step(CollectorEvent::HighestSnapshot { full: 100 });
    assert_eq!(a, CollectorAction::DownloadSnapshot { index: 0, height: 100 });
    let a = c.step(CollectorEvent::SnapshotDownloaded);
    assert_eq!(a, CollectorAction::DownloadBlock { slot: 101, offset: 1 });
    let a = c.step(CollectorEvent::BlockDownloadFailed);
    assert_eq!(a, CollectorAction::Sleep { seconds: 5 });
    let a = c.step(CollectorEvent::Woke);
    assert_eq!(a, CollectorAction::DownloadBlock { slot: 101, offset: 1 });
    let a = c.step(CollectorEvent::BlockDownloaded { parent_slot: 100 });
    assert_eq!(a, CollectorAction::WriteBlock { offset: 1 });
    let a = c.step(CollectorEvent::BlockWritten);
    assert_eq!(a, CollectorAction::DownloadBlock { slot: 102, offset: 2 });
    let a = c.step(CollectorEvent::BlockDownloaded { parent_slot: 101 });
    assert_eq!(a, CollectorAction::WriteBlock { offset: 2 });
    let a = c.step(CollectorEvent::BlockWritten);
    assert_eq!(a, CollectorAction::QueryHighestSnapshot);
    assert_eq!(c.collected, 1);
    assert_eq!(c.latest, Some(100));
    // The node still offers the same snapshot: wait and ask again.
    let a = c.step(CollectorEvent::HighestSnapshot { full: 100 });
    assert_eq!(a, CollectorAction::Sleep { seconds: 30 });
    let a = c.step(CollectorEvent::Woke);
    assert_eq!(a, CollectorAction::QueryHighestSnapshot);
    let a = c.step(CollectorEvent::HighestSnapshot { full: 200 });
    assert_eq!(a, CollectorAction::DownloadSnapshot { index: 1, height: 200 });
    let a = c.step(CollectorEvent::SnapshotDownloaded);
    assert_eq!(a, CollectorAction::DownloadBlock { slot: 201, offset: 1 });
    let a = c.step(CollectorEvent::BlockDownloaded { parent_slot: 200 });
    assert_eq!(a, CollectorAction::WriteBlock { offset: 1 });
    let a = c.step(CollectorEvent::BlockWritten);
    assert_eq!(a, CollectorAction::DownloadBlock { slot: 202, offset: 2 });
    let a = c.step(CollectorEvent::BlockDownloaded { parent_slot: 201 });
    assert_eq!(a, CollectorAction::WriteBlock { offset: 2 });
    let a = c.step(CollectorEvent::BlockWritten);
    assert_eq!(a, CollectorAction::Finish);
    assert_eq!(c.phase, CollectorPhase::Done);
    assert_eq!(c.collected, 2);
}

#[test]
fn collector_nothing_to_collect() {
    let (c, a) = TestVectorCollector::new(0, 3);
    assert_eq!(a, CollectorAction::Finish);
    assert_eq!(c.phase, CollectorPhase::Done);
}

#[test]
fn collector_snapshots_without_blocks() {
    let (mut c, _) = TestVectorCollector::new(1, 0);
    let a = c.step(CollectorEvent::HighestSnapshot { full: 5 });
    assert_eq!(a, CollectorAction::DownloadSnapshot { index: 0, height: 5 });
    let a = c.step(CollectorEvent::SnapshotDownloaded);
    assert_eq!(a, CollectorAction::Finish);
}

#[test]
fn collector_parent_slot_mismatch_stops() {
    let (mut c, _) = TestVectorCollector::new(1, 2);
    c.step(CollectorEvent::HighestSnapshot { full: 10 });
    c.step(CollectorEvent::SnapshotDownloaded);
    let a = c.step(CollectorEvent::BlockDownloaded { parent_slot: 9 });
    assert_eq!(
        a,
        CollectorAction::ParentSlotMismatch { expected: 10, found: 9 }
    );
    assert_eq!(c.phase, CollectorPhase::Failed);
}

#[test]
fn collector_slot_overflow_stops() {
    let (mut c, _) = TestVectorCollector::new(1, 1);
    c.step(CollectorEvent::HighestSnapshot { full: u64::MAX });
    let a = c.step(CollectorEvent::SnapshotDownloaded);
    assert_eq!(a, CollectorAction::SlotOverflow { height: u64::MAX, offset: 1 });
    assert_eq!(c.phase, CollectorPhase::Failed);
}

#[test]
fn collector_file_names() {
    assert_eq!(snapshot_dir_name(0), "snapshots_0");
    assert_eq!(snapshot_dir_name(12), "snapshots_12");
    assert_eq!(block_file_name(1), "block_plus_1.json");
    assert_eq!(block_file_name(10), "block_plus_10.json");
}

#[test]
fn snapshot_listing_lines() {
    assert_eq!(
        snapshot_listing(48925545, Some(48926747)),
        vec![
            "Last snapshots:".to_string(),
            "\tFull: 48925545".to_string(),
            "\tIncremental: 48926747".to_string()
        ]
    );
    assert_eq!(
        snapshot_listing(7, None),
        vec!["Last snapshots:".to_string(), "\tFull: 7".to_string()]
    );
}

#[test]
fn collected_files_are_replayed_and_distinct() {
    let written: Vec<String> = (1..=12).map(block_file_name).collect();
    let mut listing = written.clone();
    listing.push("snapshot-5-x.tar.zst".to_string());
    let selected = reclipse::commands::replay::select_block_files(&listing);
    assert_eq!(selected.len(), written.len());
    for name in &written {
        assert!(selected.contains(name));
    }
    let dirs: Vec<String> = (0..12).map(snapshot_dir_name).collect();
    for i in 0..dirs.len() {
        for j in 0..dirs.len() {
            assert_eq!(dirs[i] == dirs[j], i == j);
            assert_eq!(written[i] == written[j], i == j);
        }
    }
}

#[test]
fn block_files_up_to_nine_replayed_in_written_order() {
    let written: Vec<String> = (1..=9).map(block_file_name).collect();
    let mut listing: Vec<String> = written.iter().rev().cloned().collect();
    listing.insert(3, "snapshot-5-x.tar.zst".to_string());
    listing.swap(0, 5);
    assert_eq!(reclipse::commands::replay::select_block_files(&listing), written);
}
