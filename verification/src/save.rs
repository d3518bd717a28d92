//! Save records: what a directory scan produces for each recognized
//! save file, for either origin (the game's own directory or the local
//! archive).

use crate::codec::dec_spec;
use vstd::prelude::*;

verus! {

/// Mathematical image of a [`SaveFile`].
pub ghost struct SaveView {
    pub path: Seq<char>,
    pub chapter: u8,
    pub slot: u8,
    pub hash: Option<Seq<char>>,
    pub modified: Option<u64>,
    pub is_local: bool,
}

/// One recognized save file. `path` is the location the caller listed
/// it under; `hash` is the content-hash field decoded from the name and
/// is present exactly for archived copies; `modified` is the
/// filesystem modification time in seconds since the epoch, when the
/// caller could stat it.
#[derive(Debug, Clone)]
pub struct SaveFile {
    pub path: String,
    pub chapter: u8,
    pub slot: u8,
    pub hash: Option<String>,
    pub modified: Option<u64>,
    pub is_local: bool,
}

impl View for SaveFile {
    type V = SaveView;

    open spec fn view(&self) -> SaveView {
        SaveView {
            path: self.path@,
            chapter: self.chapter,
            slot: self.slot,
            hash: match self.hash {
                Some(h) => Some(h@),
                None => None,
            },
            modified: self.modified,
            is_local: self.is_local,
        }
    }
}

/// What `display_name` shows: chapter and one-based slot, and for an
/// archived copy the first eight characters of its content hash (or
/// the word `local` when the name carried no hash).
pub open spec fn display_name_spec(v: SaveView) -> Seq<char>
    recommends
        v.slot <= 2,
{
    let base = "Chapter "@ + dec_spec(v.chapter as nat) + ", Slot "@ + dec_spec(
        (v.slot + 1) as nat,
    );
    if v.is_local {
        let tag = match v.hash {
            Some(h) => h.take(8),
            None => "local"@,
        };
        base + " ("@ + tag + ")"@
    } else {
        base
    }
}

impl SaveFile {
    /// The label a save is listed under. The slot is shown one-based;
    /// an archived copy also shows the first eight characters of its
    /// content hash.
    pub fn display_name(&self) -> (r: String)
        requires
            self.slot <= 2,
            self.hash matches Some(h) ==> h@.len() >= 8,
        ensures
            r@ == display_name_spec(self@),
    {
        proof {
            reveal_strlit("Chapter ");
            reveal_strlit(", Slot ");
            reveal_strlit(" (");
            reveal_strlit(")");
            reveal_strlit("local");
        }
        let mut s = String::from_str("Chapter ");
        let c = crate::codec::u64_to_string(self.chapter as u64);
        s.append(c.as_str());
        s.append(", Slot ");
        let l = crate::codec::u64_to_string((self.slot + 1) as u64);
        s.append(l.as_str());
        if self.is_local {
            s.append(" (");
            match &self.hash {
                Some(h) => {
                    let tag = h.as_str().substring_char(0, 8);
                    s.append(tag);
                },
                None => {
                    s.append("local");
                },
            }
            s.append(")");
        }
        proof {
            assert(s@ =~= display_name_spec(self@));
        }
        s
    }
}

} // verus!
