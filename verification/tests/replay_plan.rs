use reclipse::commands::replay::{
    find_cached_snapshot, find_snapshot_file, first_failed_transaction, parse_snapshot_slot,
    replay_slot_range, resolve_snapshot_slot, select_block_files, slots_between, sort_names,
    CacheEntry,
};

fn names(v: &[&str]) -> Vec<String> {
    v.iter().map(|s| s.to_string()).collect()
}

#[test]
fn snapshot_slot_choice_and_range() {
    assert_eq!(resolve_snapshot_slot(Some(42), 100), 42);
    assert_eq!(resolve_snapshot_slot(None, 100), 100);
    assert_eq!(replay_slot_range(48925545, 1), (48925546, 48925547));
    assert_eq!(replay_slot_range(10, 0), (11, 11));
    assert_eq!(slots_between(5, 8), vec![5, 6, 7]);
    assert_eq!(slots_between(8, 8), Vec::<u64>::new());
    assert_eq!(slots_between(9, 8), Vec::<u64>::new());
}

#[test]
fn cached_snapshot_lookup() {
    let entries = vec![
        CacheEntry { name: "48925545".to_string(), is_dir: true },
        CacheEntry { name: "snapshot-1234-x.tar.zst".to_string(), is_dir: false },
        CacheEntry {
            name: "snapshot-48925545-XZmEaihJKkvQEwkj5ecsYVKpYLwp3bkrc4sgbyAVwY2.tar.zst".to_string(),
            is_dir: false,
        },
        CacheEntry { name: "other-48925545".to_string(), is_dir: false },
    ];
    assert_eq!(find_cached_snapshot(&entries, 48925545), Some(2));
    assert_eq!(find_cached_snapshot(&entries, 1234), Some(1));
    assert_eq!(find_cached_snapshot(&entries, 999), None);
    assert_eq!(find_cached_snapshot(&Vec::new(), 1), None);
}

#[test]
fn failed_transaction_lookup() {
    assert_eq!(first_failed_transaction(&vec![true, true, false, false]), Some(2));
    assert_eq!(first_failed_transaction(&vec![true, true]), None);
    assert_eq!(first_failed_transaction(&vec![]), None);
}

#[test]
fn snapshot_file_and_slot() {
    let listing = names(&["block_plus_1.json", "snapshot-48925545-XZm.tar.zst", "snapshot-1-a"]);
    assert_eq!(find_snapshot_file(&listing), Some(1));
    assert_eq!(find_snapshot_file(&names(&["block_plus_1.json"])), None);
    assert_eq!(
        parse_snapshot_slot("snapshot-48925545-XZmEaihJKkvQEwkj5ecsYVKpYLwp3bkrc4sgbyAVwY2.tar.zst"),
        Some(48925545)
    );
    assert_eq!(parse_snapshot_slot("snapshot-77"), Some(77));
    assert_eq!(parse_snapshot_slot("snapshot"), None);
    assert_eq!(parse_snapshot_slot("snapshot--1"), None);
    assert_eq!(parse_snapshot_slot("snapshot-x1-2"), None);
    assert_eq!(parse_snapshot_slot("a-b-c"), None);
}

#[test]
fn block_files_selected_and_sorted() {
    let listing = names(&[
        "block_plus_2.json",
        "snapshot-10-x.tar.zst",
        "block_plus_10.json",
        "block_plus_1.json",
        "notes.txt",
    ]);
    assert_eq!(
        select_block_files(&listing),
        names(&["block_plus_1.json", "block_plus_10.json", "block_plus_2.json"])
    );
    assert_eq!(select_block_files(&names(&["a", "b"])), Vec::<String>::new());
    assert_eq!(sort_names(&names(&["b", "a", "c", "a"])), names(&["a", "a", "b", "c"]));
}
