use deltasaver::codec::{
    archive_save_filename, live_save_filename, parse_local_save_filename, parse_save_filename,
    u64_to_string,
};
use sha2::Digest;

fn sha_hex(data: &[u8]) -> String {
    let digest = sha2::Sha256::digest(data);
    let mut s = String::new();
    for b in digest.as_slice() {
        s.push_str(&format!("{:02x}", b));
    }
    s
}

#[test]
fn decimal_rendering() {
    assert_eq!(u64_to_string(0), "0");
    assert_eq!(u64_to_string(7), "7");
    assert_eq!(u64_to_string(255), "255");
    assert_eq!(u64_to_string(1000000), "1000000");
    assert_eq!(u64_to_string(u64::MAX), "18446744073709551615");
}

#[test]
fn live_name_encoding() {
    assert_eq!(live_save_filename(2, 1), "filech2_1");
    assert_eq!(live_save_filename(1, 2), "filech1_2");
    assert_eq!(live_save_filename(255, 0), "filech255_0");
}

#[test]
fn archive_name_encoding() {
    assert_eq!(archive_save_filename(1, 0, "abc", 100, 5), "filech1_0_abc_100_5");
    assert_eq!(
        archive_save_filename(7, 2, "deadbeef", 1700000000, 999999999),
        "filech7_2_deadbeef_1700000000_999999999"
    );
}

#[test]
fn parse_live_accepts() {
    assert_eq!(parse_save_filename("filech1_0"), Some((1, 0)));
    assert_eq!(parse_save_filename("filech12_2"), Some((12, 2)));
    assert_eq!(parse_save_filename("filech007_1"), Some((7, 1)));
    assert_eq!(parse_save_filename("filech255_2"), Some((255, 2)));
}

#[test]
fn parse_tolerates_one_leading_plus() {
    // unsigned-integer parsing accepts a single leading plus sign
    assert_eq!(parse_save_filename("filech+1_0"), Some((1, 0)));
    assert_eq!(parse_save_filename("filech1_+0"), Some((1, 0)));
    assert_eq!(parse_save_filename("filech+255_+2"), Some((255, 2)));
    assert_eq!(
        parse_local_save_filename("filech+1_0_abc"),
        Some((1, 0, String::from("abc")))
    );
    // ... but only one, only leading, and not on its own
    assert_eq!(parse_save_filename("filech++1_0"), None);
    assert_eq!(parse_save_filename("filech1+_0"), None);
    assert_eq!(parse_save_filename("filech+_0"), None);
}

#[test]
fn parse_live_rejects_wrong_prefix() {
    assert_eq!(parse_save_filename("whatever"), None);
    assert_eq!(parse_save_filename(""), None);
    assert_eq!(parse_save_filename("ilech1_0"), None);
    assert_eq!(parse_save_filename("FILECH1_0"), None);
    assert_eq!(parse_local_save_filename("whatever"), None);
    assert_eq!(parse_local_save_filename("data.win"), None);
}

#[test]
fn parse_rejects_slot_over_2() {
    assert_eq!(parse_save_filename("filech3_5"), None);
    assert_eq!(parse_local_save_filename("filech3_5_abcdef_100_0"), None);
}

#[test]
fn parse_rejects_non_numeric() {
    assert_eq!(parse_save_filename("filechX_0"), None);
    assert_eq!(parse_save_filename("filech1_X"), None);
    assert_eq!(parse_save_filename("filech-1_0"), None);
    assert_eq!(parse_save_filename("filech 1_0"), None);
    assert_eq!(parse_local_save_filename("filechX_0_abc_1_2"), None);
}

#[test]
fn parse_rejects_wrong_field_count() {
    assert_eq!(parse_save_filename("filech1"), None);
    assert_eq!(parse_save_filename("filech1_0_extra"), None);
    assert_eq!(parse_local_save_filename("filech1_0"), None);
}

#[test]
fn parse_rejects_overflow() {
    assert_eq!(parse_save_filename("filech256_0"), None);
    assert_eq!(parse_save_filename("filech99999999999999999999_0"), None);
}

#[test]
fn parse_local_accepts() {
    assert_eq!(
        parse_local_save_filename("filech3_1_abcdef_100_0"),
        Some((3, 1, String::from("abcdef")))
    );
    // the timestamp fields are optional for decode
    assert_eq!(
        parse_local_save_filename("filech3_1_abcdef"),
        Some((3, 1, String::from("abcdef")))
    );
    // an empty hash field is tolerated
    assert_eq!(parse_local_save_filename("filech3_1__100_0"), Some((3, 1, String::new())));
}

#[test]
fn archive_round_trip() {
    let contents: &[u8] = b"some save data";
    for chapter in [0u8, 1, 7, 255] {
        for slot in 0u8..=2 {
            let name =
                deltasaver::hashing::backup_file_name(contents, chapter, slot, 1700000000, 42);
            assert_eq!(
                parse_local_save_filename(&name),
                Some((chapter, slot, sha_hex(contents)))
            );
        }
    }
}

#[test]
fn backup_names_distinct_under_distinct_timestamps() {
    let contents: &[u8] = b"identical content";
    let first = deltasaver::hashing::backup_file_name(contents, 1, 0, 100, 0);
    let second = deltasaver::hashing::backup_file_name(contents, 1, 0, 100, 1);
    let third = deltasaver::hashing::backup_file_name(contents, 1, 0, 101, 0);
    assert_ne!(first, second);
    assert_ne!(first, third);
    assert_ne!(second, third);
    let (_, _, h1) = parse_local_save_filename(&first).unwrap();
    let (_, _, h2) = parse_local_save_filename(&second).unwrap();
    let (_, _, h3) = parse_local_save_filename(&third).unwrap();
    assert_eq!(h1, h2);
    assert_eq!(h2, h3);
}

#[test]
fn content_hash_is_sha256_hex() {
    let h = deltasaver::hashing::content_hash_hex(b"AAAA");
    assert_eq!(h, sha_hex(b"AAAA"));
    assert_eq!(h.len(), 64);
    let empty = deltasaver::hashing::content_hash_hex(b"");
    assert_eq!(empty, sha_hex(b""));
}

#[test]
fn end_to_end_names() {
    // a live save of chapter 1, slot 0 holding "AAAA" is backed up ...
    let content: &[u8] = b"AAAA";
    assert_eq!(parse_save_filename("filech1_0"), Some((1, 0)));
    let archive_name = deltasaver::hashing::backup_file_name(content, 1, 0, 1700000000, 7);
    let expected = format!("filech1_0_{}_1700000000_7", sha_hex(content));
    assert_eq!(archive_name, expected);
    // ... and restored into chapter 1, slot 2
    assert_eq!(live_save_filename(1, 2), "filech1_2");
}
