//! Directory scanning: turn the listings of the game's save directory
//! and the local archive directory into the two save-record
//! collections. The caller enumerates the directories (a missing
//! directory is handed in as `None` and treated as empty); this module
//! decodes each entry's name and silently skips everything that is not
//! a save file.

use crate::codec::{parse_local_save_filename, parse_local_spec, parse_save_filename,
    parse_save_spec};
use crate::save::{SaveFile, SaveView};
use std::collections::HashMap;
use vstd::prelude::*;

verus! {

broadcast use vstd::std_specs::hash::group_hash_axioms;

/// The single failure a scan can report: some filesystem call failed.
/// Per-file decode failures are never errors; they only skip the file.
#[derive(Debug, Clone, PartialEq, Eq, Structural)]
pub enum LoadError {
    IoError,
}

/// Mathematical image of a [`ScanEntry`].
pub ghost struct ScanEntryV {
    pub path: Seq<char>,
    pub name: Seq<char>,
    pub modified: Option<u64>,
}

/// One immediate directory entry, as the caller listed it: the
/// location it can later be read or deleted under, its bare file name,
/// and its filesystem modification time where the caller could stat it.
pub struct ScanEntry {
    pub path: String,
    pub name: String,
    pub modified: Option<u64>,
}

impl View for ScanEntry {
    type V = ScanEntryV;

    open spec fn view(&self) -> ScanEntryV {
        ScanEntryV { path: self.path@, name: self.name@, modified: self.modified }
    }
}

/// The key a live save occupies in the game-saves map. With the slot
/// among the three save slots, distinct (chapter, slot) pairs get
/// distinct keys.
pub open spec fn slot_key(chapter: u8, slot: u8) -> u64 {
    (chapter as u64 * 3 + slot as u64) as u64
}

/// Compute the map key for a chapter and slot.
pub fn save_key(chapter: u8, slot: u8) -> (r: u64)
    ensures
        r == slot_key(chapter, slot),
{
    chapter as u64 * 3 + slot as u64
}

/// The record a recognized live save becomes.
pub open spec fn game_record(e: ScanEntryV, chapter: u8, slot: u8) -> SaveView {
    SaveView {
        path: e.path,
        chapter: chapter,
        slot: slot,
        hash: None,
        modified: e.modified,
        is_local: false,
    }
}

/// The record a recognized archived save becomes.
pub open spec fn local_record(e: ScanEntryV, chapter: u8, slot: u8, hash: Seq<char>) -> SaveView {
    SaveView {
        path: e.path,
        chapter: chapter,
        slot: slot,
        hash: Some(hash),
        modified: e.modified,
        is_local: true,
    }
}

/// The game-saves map a listing produces: each entry whose name decodes
/// as a live save lands under its (chapter, slot) key, later entries
/// overwriting earlier ones; everything else is skipped.
pub open spec fn scan_game_spec(entries: Seq<ScanEntryV>) -> Map<u64, SaveView>
    decreases entries.len(),
{
    if entries.len() == 0 {
        Map::<u64, SaveView>::empty()
    } else {
        let m = scan_game_spec(entries.drop_last());
        let e = entries.last();
        match parse_save_spec(e.name) {
            Some((chapter, slot)) => m.insert(slot_key(chapter, slot), game_record(e, chapter, slot)),
            None => m,
        }
    }
}

/// The archive list a listing produces: each entry whose name decodes
/// as an archived save, in listing order; everything else is skipped.
pub open spec fn scan_local_spec(entries: Seq<ScanEntryV>) -> Seq<SaveView>
    decreases entries.len(),
{
    if entries.len() == 0 {
        Seq::<SaveView>::empty()
    } else {
        let s = scan_local_spec(entries.drop_last());
        let e = entries.last();
        match parse_local_spec(e.name) {
            Some((chapter, slot, hash)) => s + seq![local_record(e, chapter, slot, hash)],
            None => s,
        }
    }
}

/// With slots among the three save slots, distinct (chapter, slot)
/// pairs occupy distinct keys: the map holds at most one live save per
/// chapter and slot.
pub proof fn lemma_slot_key_injective(c1: u8, s1: u8, c2: u8, s2: u8)
    requires
        s1 <= 2,
        s2 <= 2,
        slot_key(c1, s1) == slot_key(c2, s2),
    ensures
        c1 == c2,
        s1 == s2,
{
}

/// Every record a scan produces is well formed: its slot is one of the
/// three save slots, a live record carries no hash and sits under the
/// key of its own chapter and slot, and an archived record carries one.
pub proof fn lemma_scan_records_well_formed(entries: Seq<ScanEntryV>)
    ensures
        forall|k: u64| #[trigger] scan_game_spec(entries).dom().contains(k) ==> {
            let v = scan_game_spec(entries)[k];
            &&& v.slot <= 2
            &&& v.hash is None
            &&& !v.is_local
            &&& k == slot_key(v.chapter, v.slot)
        },
        forall|i: int| 0 <= i < scan_local_spec(entries).len() ==> {
            let v = #[trigger] scan_local_spec(entries)[i];
            &&& v.slot <= 2
            &&& v.hash is Some
            &&& v.is_local
        },
    decreases entries.len(),
{
    if entries.len() > 0 {
        lemma_scan_records_well_formed(entries.drop_last());
        let e = entries.last();
        crate::codec::lemma_parse_slot_bounded(e.name);
    }
}

/// A scan lists only what the directory holds: every record it
/// produces carries the path of some listed entry. So once a file is
/// deleted and the listing no longer holds its path, no record of a
/// subsequent scan carries that path either.
pub proof fn lemma_scan_paths_from_listing(entries: Seq<ScanEntryV>, p: Seq<char>)
    requires
        forall|i: int| 0 <= i < entries.len() ==> (#[trigger] entries[i]).path != p,
    ensures
        forall|i: int|
            0 <= i < scan_local_spec(entries).len() ==> (#[trigger] scan_local_spec(entries)[i]).path
                != p,
        forall|k: u64| #[trigger]
            scan_game_spec(entries).dom().contains(k) ==> scan_game_spec(entries)[k].path != p,
    decreases entries.len(),
{
    if entries.len() > 0 {
        lemma_scan_paths_from_listing(entries.drop_last(), p);
    }
}

/// The views of a sequence of directory entries.
pub open spec fn entries_view(entries: Seq<ScanEntry>) -> Seq<ScanEntryV> {
    entries.map_values(|e: ScanEntry| e@)
}

/// A listing where the directory itself may be missing: a missing
/// directory is treated as an empty one, never as an error.
pub open spec fn opt_entries_view(entries: &Option<Vec<ScanEntry>>) -> Seq<ScanEntryV> {
    match entries {
        Some(v) => entries_view(v@),
        None => Seq::<ScanEntryV>::empty(),
    }
}

/// The views of a map of save records.
pub open spec fn map_saves_view(m: Map<u64, SaveFile>) -> Map<u64, SaveView> {
    Map::<u64, SaveView>::new(|k: u64| m.dom().contains(k), |k: u64| m[k]@)
}

/// The views of a sequence of save records.
pub open spec fn seq_saves_view(s: Seq<SaveFile>) -> Seq<SaveView> {
    s.map_values(|x: SaveFile| x@)
}

fn scan_game_entries(entries: &Vec<ScanEntry>) -> (r: HashMap<u64, SaveFile>)
    ensures
        map_saves_view(r@) == scan_game_spec(entries_view(entries@)),
{
    let ghost all = entries_view(entries@);
    let mut game: HashMap<u64, SaveFile> = HashMap::new();
    let mut i: usize = 0;
    proof {
        assert(map_saves_view(game@) =~= scan_game_spec(all.take(0)));
    }
    while i < entries.len()
        invariant
            i <= entries@.len(),
            all == entries_view(entries@),
            vstd::std_specs::hash::obeys_key_model::<u64>(),
            vstd::std_specs::hash::builds_valid_hashers::<std::hash::RandomState>(),
            map_saves_view(game@) == scan_game_spec(all.take(i as int)),
        decreases entries@.len() - i,
    {
        let e = &entries[i];
        let ghost prev = game@;
        match parse_save_filename(e.name.as_str()) {
            Some((chapter, slot)) => {
                let rec = SaveFile {
                    path: e.path.clone(),
                    chapter: chapter,
                    slot: slot,
                    hash: None,
                    modified: e.modified,
                    is_local: false,
                };
                let ghost recv = rec@;
                game.insert(save_key(chapter, slot), rec);
                proof {
                    assert(map_saves_view(game@) =~= map_saves_view(prev).insert(
                        slot_key(chapter, slot),
                        recv,
                    ));
                }
            },
            None => {},
        }
        i = i + 1;
        proof {
            let t = all.take(i as int);
            assert(t.drop_last() =~= all.take(i as int - 1));
            assert(t.last() == all[i as int - 1]);
            assert(all[i as int - 1] == entries@[i as int - 1]@);
        }
    }
    proof {
        assert(all.take(entries@.len() as int) =~= all);
    }
    game
}

fn scan_local_entries(entries: &Vec<ScanEntry>) -> (r: Vec<SaveFile>)
    ensures
        seq_saves_view(r@) == scan_local_spec(entries_view(entries@)),
{
    let ghost all = entries_view(entries@);
    let mut local: Vec<SaveFile> = Vec::new();
    let mut i: usize = 0;
    proof {
        assert(seq_saves_view(local@) =~= scan_local_spec(all.take(0)));
    }
    while i < entries.len()
        invariant
            i <= entries@.len(),
            all == entries_view(entries@),
            seq_saves_view(local@) == scan_local_spec(all.take(i as int)),
        decreases entries@.len() - i,
    {
        let e = &entries[i];
        let ghost prev = local@;
        match parse_local_save_filename(e.name.as_str()) {
            Some((chapter, slot, hash)) => {
                let rec = SaveFile {
                    path: e.path.clone(),
                    chapter: chapter,
                    slot: slot,
                    hash: Some(hash),
                    modified: e.modified,
                    is_local: true,
                };
                let ghost recv = rec@;
                local.push(rec);
                proof {
                    assert(seq_saves_view(local@) =~= seq_saves_view(prev) + seq![recv]);
                }
            },
            None => {},
        }
        i = i + 1;
        proof {
            let t = all.take(i as int);
            assert(t.drop_last() =~= all.take(i as int - 1));
            assert(t.last() == all[i as int - 1]);
            assert(all[i as int - 1] == entries@[i as int - 1]@);
        }
    }
    proof {
        assert(all.take(entries@.len() as int) =~= all);
    }
    local
}

/// Build the two save collections from the two directory listings.
/// A `None` listing stands for a directory that does not exist and
/// yields the empty collection for that side. Every entry whose name
/// decodes is taken up; every other entry is silently skipped. For
/// live saves, a later entry with the same chapter and slot replaces
/// an earlier one; archived saves keep the listing's order.
pub fn load_saves(game_entries: &Option<Vec<ScanEntry>>, local_entries: &Option<Vec<ScanEntry>>)
    -> (r: (HashMap<u64, SaveFile>, Vec<SaveFile>))
    ensures
        map_saves_view(r.0@) == scan_game_spec(opt_entries_view(game_entries)),
        seq_saves_view(r.1@) == scan_local_spec(opt_entries_view(local_entries)),
        game_entries is None ==> r.0@ == Map::<u64, SaveFile>::empty(),
        local_entries is None ==> r.1@ == Seq::<SaveFile>::empty(),
{
    let game: HashMap<u64, SaveFile> = match game_entries {
        Some(entries) => scan_game_entries(entries),
        None => {
            let m: HashMap<u64, SaveFile> = HashMap::new();
            proof {
                assert(map_saves_view(m@) =~= scan_game_spec(opt_entries_view(game_entries)));
            }
            m
        },
    };
    let local: Vec<SaveFile> = match local_entries {
        Some(entries) => scan_local_entries(entries),
        None => {
            let v: Vec<SaveFile> = Vec::new();
            proof {
                assert(seq_saves_view(v@) =~= scan_local_spec(opt_entries_view(local_entries)));
            }
            v
        },
    };
    (game, local)
}

} // verus!
