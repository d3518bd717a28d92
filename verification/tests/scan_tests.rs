use deltasaver::save::SaveFile;
use deltasaver::scan::{load_saves, save_key, ScanEntry};

fn entry(path: &str, name: &str, modified: Option<u64>) -> ScanEntry {
    ScanEntry { path: String::from(path), name: String::from(name), modified }
}

#[test]
fn scan_missing_directories_yield_empty() {
    let (game, local) = load_saves(&None, &None);
    assert_eq!(game.len(), 0);
    assert_eq!(local.len(), 0);
}

#[test]
fn scan_empty_listings_yield_empty() {
    let (game, local) = load_saves(&Some(Vec::new()), &Some(Vec::new()));
    assert_eq!(game.len(), 0);
    assert_eq!(local.len(), 0);
}

#[test]
fn scan_collects_and_skips() {
    let game_listing = vec![
        entry("/saves/filech1_0", "filech1_0", Some(1000)),
        entry("/saves/data.win", "data.win", Some(2000)),
        entry("/saves/filech3_5", "filech3_5", None),
        entry("/saves/filech2_1", "filech2_1", None),
    ];
    let local_listing = vec![
        entry("/archive/filech1_0_deadbeef_10_20", "filech1_0_deadbeef_10_20", Some(3000)),
        entry("/archive/notes.txt", "notes.txt", None),
        entry("/archive/filech1_0_cafebabe_11_21", "filech1_0_cafebabe_11_21", None),
    ];
    let (game, local) = load_saves(&Some(game_listing), &Some(local_listing));

    assert_eq!(game.len(), 2);
    let first = game.get(&save_key(1, 0)).unwrap();
    assert_eq!(first.path, "/saves/filech1_0");
    assert_eq!(first.chapter, 1);
    assert_eq!(first.slot, 0);
    assert_eq!(first.hash, None);
    assert_eq!(first.modified, Some(1000));
    assert!(!first.is_local);
    let second = game.get(&save_key(2, 1)).unwrap();
    assert_eq!(second.chapter, 2);
    assert_eq!(second.slot, 1);
    assert_eq!(second.modified, None);
    assert!(game.get(&save_key(3, 2)).is_none());

    assert_eq!(local.len(), 2);
    assert_eq!(local[0].path, "/archive/filech1_0_deadbeef_10_20");
    assert_eq!(local[0].hash, Some(String::from("deadbeef")));
    assert_eq!(local[0].modified, Some(3000));
    assert!(local[0].is_local);
    assert_eq!(local[1].hash, Some(String::from("cafebabe")));
}

#[test]
fn scan_later_live_entry_overwrites_earlier() {
    let game_listing = vec![
        entry("/a/filech1_0", "filech1_0", Some(1)),
        entry("/b/filech1_0", "filech1_0", Some(2)),
    ];
    let (game, _) = load_saves(&Some(game_listing), &None);
    assert_eq!(game.len(), 1);
    let rec = game.get(&save_key(1, 0)).unwrap();
    assert_eq!(rec.path, "/b/filech1_0");
    assert_eq!(rec.modified, Some(2));
}

#[test]
fn scan_keeps_archive_order_and_duplicates() {
    let local_listing = vec![
        entry("/a/filech4_2_aa_1_1", "filech4_2_aa_1_1", None),
        entry("/a/filech4_2_bb_2_2", "filech4_2_bb_2_2", None),
        entry("/a/filech4_2_aa_3_3", "filech4_2_aa_3_3", None),
    ];
    let (_, local) = load_saves(&None, &Some(local_listing));
    assert_eq!(local.len(), 3);
    assert_eq!(local[0].hash, Some(String::from("aa")));
    assert_eq!(local[1].hash, Some(String::from("bb")));
    assert_eq!(local[2].hash, Some(String::from("aa")));
}

#[test]
fn rescan_without_deleted_file_no_longer_lists_it() {
    let before = vec![
        entry("/a/filech1_0_aa_1_1", "filech1_0_aa_1_1", None),
        entry("/a/filech1_0_bb_2_2", "filech1_0_bb_2_2", None),
    ];
    let (_, local) = load_saves(&None, &Some(before));
    assert_eq!(local.len(), 2);
    // after the first file is deleted the listing no longer holds it
    let after = vec![entry("/a/filech1_0_bb_2_2", "filech1_0_bb_2_2", None)];
    let (_, local) = load_saves(&None, &Some(after));
    assert_eq!(local.len(), 1);
    assert!(local.iter().all(|r| r.path != "/a/filech1_0_aa_1_1"));
}

#[test]
fn display_name_game_save() {
    let rec = SaveFile {
        path: String::from("/saves/filech3_1"),
        chapter: 3,
        slot: 1,
        hash: None,
        modified: None,
        is_local: false,
    };
    assert_eq!(rec.display_name(), "Chapter 3, Slot 2");
}

#[test]
fn display_name_local_save() {
    let rec = SaveFile {
        path: String::from("/archive/filech3_1_abcdef0123456789_5_6"),
        chapter: 3,
        slot: 1,
        hash: Some(String::from("abcdef0123456789")),
        modified: Some(10),
        is_local: true,
    };
    assert_eq!(rec.display_name(), "Chapter 3, Slot 2 (abcdef01)");
}

#[test]
fn display_name_local_save_without_hash() {
    let rec = SaveFile {
        path: String::from("/archive/x"),
        chapter: 1,
        slot: 0,
        hash: None,
        modified: None,
        is_local: true,
    };
    assert_eq!(rec.display_name(), "Chapter 1, Slot 1 (local)");
}

#[test]
fn save_key_separates_slots_and_chapters() {
    assert_eq!(save_key(1, 0), 3);
    assert_eq!(save_key(0, 2), 2);
    assert_ne!(save_key(1, 2), save_key(2, 0));
}
