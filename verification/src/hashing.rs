//! Content hashing for archive names: the SHA-256 digest of a save
//! file's bytes, rendered as lowercase hex, is embedded in the archived
//! copy's filename so that distinct contents get distinct names.

use crate::codec::{archive_name_spec, archive_save_filename};
use sha2::Digest;
use vstd::prelude::*;

verus! {

/// The SHA-256 digest of a byte sequence. Its value is determined by
/// the input bytes alone; this crate states nothing else about it.
pub uninterp spec fn sha256_of(data: Seq<u8>) -> Seq<u8>;

/// Relies on `sha2::Sha256` (`Digest::digest`): the result is the
/// SHA-256 digest of the input, 32 bytes long, and a function of the
/// input bytes alone.
#[verifier::external_body]
fn sha256_digest(data: &[u8]) -> (r: Vec<u8>)
    ensures
        r@ == sha256_of(data@),
        r@.len() == 32,
{
    sha2::Sha256::digest(data).as_slice().to_vec()
}

/// The lowercase hex character for a value below 16.
pub open spec fn hex_digit(d: nat) -> char {
    if d == 0 {
        '0'
    } else if d == 1 {
        '1'
    } else if d == 2 {
        '2'
    } else if d == 3 {
        '3'
    } else if d == 4 {
        '4'
    } else if d == 5 {
        '5'
    } else if d == 6 {
        '6'
    } else if d == 7 {
        '7'
    } else if d == 8 {
        '8'
    } else if d == 9 {
        '9'
    } else if d == 10 {
        'a'
    } else if d == 11 {
        'b'
    } else if d == 12 {
        'c'
    } else if d == 13 {
        'd'
    } else if d == 14 {
        'e'
    } else {
        'f'
    }
}

/// Lowercase hex rendering of a byte sequence, two characters per byte,
/// most significant nibble first.
pub open spec fn hex_of(bytes: Seq<u8>) -> Seq<char>
    decreases bytes.len(),
{
    if bytes.len() == 0 {
        Seq::<char>::empty()
    } else {
        hex_of(bytes.drop_last()) + seq![
            hex_digit((bytes.last() / 16) as nat),
            hex_digit((bytes.last() % 16) as nat),
        ]
    }
}

/// The content hash embedded in an archive name: the lowercase hex
/// rendering of the SHA-256 digest of the content.
pub open spec fn sha256_hex_of(data: Seq<u8>) -> Seq<char> {
    hex_of(sha256_of(data))
}

/// Hex renderings are twice as long as their input and never contain
/// the `'_'` filename separator, so a hash field survives the split
/// on underscores intact.
pub proof fn lemma_hex_of_shape(bytes: Seq<u8>)
    ensures
        hex_of(bytes).len() == 2 * bytes.len(),
        forall|i: int| 0 <= i < hex_of(bytes).len() ==> #[trigger] hex_of(bytes)[i] != '_',
    decreases bytes.len(),
{
    if bytes.len() > 0 {
        lemma_hex_of_shape(bytes.drop_last());
        let s = hex_of(bytes);
        let p = hex_of(bytes.drop_last());
        assert forall|i: int| 0 <= i < s.len() implies #[trigger] s[i] != '_' by {
            if i < p.len() {
                assert(s[i] == p[i]);
            }
        }
    }
}

fn hex_digit_str(d: u8) -> (r: &'static str)
    requires
        d < 16,
    ensures
        r@ =~= seq![hex_digit(d as nat)],
{
    proof {
        reveal_strlit("0");
        reveal_strlit("1");
        reveal_strlit("2");
        reveal_strlit("3");
        reveal_strlit("4");
        reveal_strlit("5");
        reveal_strlit("6");
        reveal_strlit("7");
        reveal_strlit("8");
        reveal_strlit("9");
        reveal_strlit("a");
        reveal_strlit("b");
        reveal_strlit("c");
        reveal_strlit("d");
        reveal_strlit("e");
        reveal_strlit("f");
    }
    if d == 0 {
        "0"
    } else if d == 1 {
        "1"
    } else if d == 2 {
        "2"
    } else if d == 3 {
        "3"
    } else if d == 4 {
        "4"
    } else if d == 5 {
        "5"
    } else if d == 6 {
        "6"
    } else if d == 7 {
        "7"
    } else if d == 8 {
        "8"
    } else if d == 9 {
        "9"
    } else if d == 10 {
        "a"
    } else if d == 11 {
        "b"
    } else if d == 12 {
        "c"
    } else if d == 13 {
        "d"
    } else if d == 14 {
        "e"
    } else {
        "f"
    }
}

fn to_hex(bytes: &Vec<u8>) -> (r: String)
    ensures
        r@ == hex_of(bytes@),
{
    let mut s = String::new();
    let mut i: usize = 0;
    while i < bytes.len()
        invariant
            i <= bytes@.len(),
            s@ == hex_of(bytes@.take(i as int)),
        decreases bytes@.len() - i,
    {
        let b = bytes[i];
        s.append(hex_digit_str(b / 16));
        s.append(hex_digit_str(b % 16));
        i = i + 1;
        proof {
            let t = bytes@.take(i as int);
            assert(t.drop_last() =~= bytes@.take(i as int - 1));
            assert(t.last() == bytes@[i as int - 1]);
            assert(s@ =~= hex_of(t));
        }
    }
    proof {
        assert(bytes@.take(bytes@.len() as int) =~= bytes@);
    }
    s
}

/// The lowercase hex SHA-256 digest of a save file's content, exactly
/// as it appears in the archived copy's filename.
pub fn content_hash_hex(data: &[u8]) -> (r: String)
    ensures
        r@ == sha256_hex_of(data@),
        r@.len() == 64,
{
    let digest = sha256_digest(data);
    proof {
        lemma_hex_of_shape(digest@);
    }
    to_hex(&digest)
}

/// The archive name a backup of `contents` into `chapter`/`slot` taken
/// at the given wall-clock time is stored under.
pub fn backup_file_name(contents: &[u8], chapter: u8, slot: u8, secs: u64, nanos: u32) -> (r:
    String)
    ensures
        r@ == archive_name_spec(chapter, slot, sha256_hex_of(contents@), secs, nanos),
{
    let hash = content_hash_hex(contents);
    archive_save_filename(chapter, slot, hash.as_str(), secs, nanos)
}

/// Round trip over content: the archive name a backup constructs for
/// any content, any chapter, one of the three slots and any timestamp
/// decodes back to exactly that chapter, that slot, and the lowercase
/// hex SHA-256 digest of that content.
pub proof fn lemma_backup_name_round_trip(
    chapter: u8,
    slot: u8,
    content: Seq<u8>,
    secs: u64,
    nanos: u32,
)
    requires
        slot <= 2,
    ensures
        crate::codec::parse_local_spec(
            archive_name_spec(chapter, slot, sha256_hex_of(content), secs, nanos),
        ) == Some((chapter, slot, sha256_hex_of(content))),
{
    lemma_hex_of_shape(sha256_of(content));
    crate::codec::lemma_archive_round_trip(chapter, slot, sha256_hex_of(content), secs, nanos);
}

} // verus!
