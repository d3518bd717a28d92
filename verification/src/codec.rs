//! Filename codec: the reversible mapping between a save's identifying
//! fields (chapter, slot, and for archived copies a content hash and a
//! timestamp) and a filesystem name.

use vstd::prelude::*;

verus! {

/// The decimal digit character for a single digit value.
pub open spec fn digit_char(d: nat) -> char {
    if d == 0 {
        '0'
    } else if d == 1 {
        '1'
    } else if d == 2 {
        '2'
    } else if d == 3 {
        '3'
    } else if d == 4 {
        '4'
    } else if d == 5 {
        '5'
    } else if d == 6 {
        '6'
    } else if d == 7 {
        '7'
    } else if d == 8 {
        '8'
    } else {
        '9'
    }
}

/// The decimal representation of `n`, with no zero padding and no sign.
pub open spec fn dec_spec(n: nat) -> Seq<char>
    decreases n,
{
    if n < 10 {
        seq![digit_char(n)]
    } else {
        dec_spec(n / 10) + seq![digit_char(n % 10)]
    }
}

/// The numeric value of a decimal digit character, if it is one.
pub open spec fn digit_val(c: char) -> Option<nat> {
    if c == '0' {
        Some(0 as nat)
    } else if c == '1' {
        Some(1 as nat)
    } else if c == '2' {
        Some(2 as nat)
    } else if c == '3' {
        Some(3 as nat)
    } else if c == '4' {
        Some(4 as nat)
    } else if c == '5' {
        Some(5 as nat)
    } else if c == '6' {
        Some(6 as nat)
    } else if c == '7' {
        Some(7 as nat)
    } else if c == '8' {
        Some(8 as nat)
    } else if c == '9' {
        Some(9 as nat)
    } else {
        None
    }
}

pub open spec fn is_digit(c: char) -> bool {
    digit_val(c) is Some
}

pub open spec fn all_digits(s: Seq<char>) -> bool {
    forall|i: int| 0 <= i < s.len() ==> is_digit(#[trigger] s[i])
}

/// The value of a sequence of decimal digits, most significant first.
pub open spec fn digits_val(s: Seq<char>) -> nat
    recommends
        all_digits(s),
    decreases s.len(),
{
    if s.len() == 0 {
        0
    } else {
        digits_val(s.drop_last()) * 10 + digit_val(s.last()).unwrap_or(0)
    }
}

/// The digits of a numeric field: one optional leading `'+'` sign is
/// tolerated (as Rust's unsigned-integer parsing tolerates it) and
/// stripped; everything else is left for the digit check.
pub open spec fn digits_part(s: Seq<char>) -> Seq<char> {
    if s.len() > 0 && s[0] == '+' {
        s.skip(1)
    } else {
        s
    }
}

/// A numeric field parses as an unsigned integer when, after one
/// optional leading `'+'`, it is nonempty and all digits; anything else
/// (empty, a lone or repeated sign, a minus sign, non-digits) is
/// rejected. A value over 255 does not fit the chapter/slot fields and
/// is rejected too.
pub open spec fn parse_u8_spec(s: Seq<char>) -> Option<u8> {
    let d = digits_part(s);
    if d.len() > 0 && all_digits(d) && digits_val(d) <= 255 {
        Some(digits_val(d) as u8)
    } else {
        None
    }
}

proof fn lemma_dec_spec_digits(n: nat)
    ensures
        dec_spec(n).len() >= 1,
        all_digits(dec_spec(n)),
        digits_val(dec_spec(n)) == n,
    decreases n,
{
    if n < 10 {
        let s = dec_spec(n);
        assert(s =~= seq![digit_char(n)]);
        assert(s.last() == digit_char(n));
        assert(s.drop_last() =~= Seq::<char>::empty());
        assert(digits_val(s.drop_last()) == 0);
        assert(digit_val(digit_char(n)) == Some(n));
        assert(digits_val(s) == digits_val(s.drop_last()) * 10 + digit_val(s.last()).unwrap_or(0));
    } else {
        lemma_dec_spec_digits(n / 10);
        let s = dec_spec(n);
        assert(s =~= dec_spec(n / 10) + seq![digit_char(n % 10)]);
        assert(s.drop_last() =~= dec_spec(n / 10));
        assert(s.last() == digit_char(n % 10));
        assert(digits_val(s) == n / 10 * 10 + n % 10);
        assert(n / 10 * 10 + n % 10 == n) by (nonlinear_arith);
        assert forall|i: int| 0 <= i < s.len() implies is_digit(#[trigger] s[i]) by {
            if i < s.len() - 1 {
                assert(s[i] == dec_spec(n / 10)[i]);
            }
        }
    }
}

/// The decimal representation of any number consists of digits only
/// (so in particular it never contains the `'_'` separator), and it
/// evaluates back to the number it came from.
pub proof fn lemma_dec_spec_value(n: nat)
    ensures
        dec_spec(n).len() >= 1,
        all_digits(dec_spec(n)),
        digits_val(dec_spec(n)) == n,
        forall|i: int| 0 <= i < dec_spec(n).len() ==> #[trigger] dec_spec(n)[i] != '_',
{
    lemma_dec_spec_digits(n);
    assert forall|i: int| 0 <= i < dec_spec(n).len() implies #[trigger] dec_spec(n)[i] != '_' by {
        assert(is_digit(dec_spec(n)[i]));
    }
}

/// An encoded decimal field decodes back to the number it came from.
pub proof fn lemma_parse_of_dec(n: nat)
    requires
        n <= 255,
    ensures
        parse_u8_spec(dec_spec(n)) == Some(n as u8),
{
    lemma_dec_spec_digits(n);
    assert(is_digit(dec_spec(n)[0]));
    assert(dec_spec(n)[0] != '+');
    assert(digits_part(dec_spec(n)) == dec_spec(n));
}

/// Two distinct numbers never share a decimal representation.
pub proof fn lemma_dec_spec_injective(a: nat, b: nat)
    requires
        dec_spec(a) == dec_spec(b),
    ensures
        a == b,
{
    lemma_dec_spec_digits(a);
    lemma_dec_spec_digits(b);
}

fn digit_str(d: u64) -> (r: &'static str)
    requires
        d < 10,
    ensures
        r@ =~= seq![digit_char(d as nat)],
{
    proof {
        reveal_strlit("0");
        reveal_strlit("1");
        reveal_strlit("2");
        reveal_strlit("3");
        reveal_strlit("4");
        reveal_strlit("5");
        reveal_strlit("6");
        reveal_strlit("7");
        reveal_strlit("8");
        reveal_strlit("9");
    }
    if d == 0 {
        "0"
    } else if d == 1 {
        "1"
    } else if d == 2 {
        "2"
    } else if d == 3 {
        "3"
    } else if d == 4 {
        "4"
    } else if d == 5 {
        "5"
    } else if d == 6 {
        "6"
    } else if d == 7 {
        "7"
    } else if d == 8 {
        "8"
    } else {
        "9"
    }
}

/// The decimal rendering of `n`, exactly as the filename encoding
/// embeds chapter, slot and timestamp fields: no padding, no sign.
pub fn u64_to_string(n: u64) -> (r: String)
    ensures
        r@ == dec_spec(n as nat),
    decreases n,
{
    if n < 10 {
        String::from_str(digit_str(n))
    } else {
        let mut s = u64_to_string(n / 10);
        s.append(digit_str(n % 10));
        proof {
            assert(s@ =~= dec_spec(n as nat));
        }
        s
    }
}

/// Every save file name starts with this fixed prefix; anything else
/// in the directory is not a save file.
pub open spec fn save_prefix() -> Seq<char> {
    seq!['f', 'i', 'l', 'e', 'c', 'h']
}

/// Index of the first `'_'` separator in `s`, or `s.len()` if none.
pub open spec fn first_us(s: Seq<char>) -> int
    decreases s.len(),
{
    if s.len() == 0 {
        0
    } else if s[0] == '_' {
        0
    } else {
        1 + first_us(s.skip(1))
    }
}

pub proof fn lemma_first_us_eq(s: Seq<char>, k: int)
    requires
        0 <= k <= s.len(),
        forall|j: int| 0 <= j < k ==> s[j] != '_',
        k < s.len() ==> s[k] == '_',
    ensures
        first_us(s) == k,
    decreases s.len(),
{
    if k == 0 {
        assert(s.len() == 0 || s[0] == '_');
    } else {
        assert(s[0] != '_');
        assert forall|j: int| 0 <= j < k - 1 implies s.skip(1)[j] != '_' by {
            assert(s.skip(1)[j] == s[j + 1]);
        }
        if k - 1 < s.skip(1).len() {
            assert(s.skip(1)[k - 1] == s[k]);
        }
        lemma_first_us_eq(s.skip(1), k - 1);
    }
}

/// The pieces of `s` between `'_'` separators, in order. A string with
/// no separator is one piece; each separator ends a piece, so `n`
/// separators always give `n + 1` (possibly empty) pieces.
pub open spec fn split_us(s: Seq<char>) -> Seq<Seq<char>>
    decreases s.len(),
{
    let i = first_us(s);
    if 0 <= i < s.len() {
        seq![s.take(i)] + split_us(s.skip(i + 1))
    } else {
        seq![s]
    }
}

/// A string without the separator splits into just itself.
pub proof fn lemma_split_us_no_sep(s: Seq<char>)
    requires
        forall|j: int| 0 <= j < s.len() ==> s[j] != '_',
    ensures
        split_us(s) == seq![s],
{
    lemma_first_us_eq(s, s.len() as int);
}

/// Splitting takes off everything up to the first separator as the
/// first piece, when that piece itself holds no separator.
pub proof fn lemma_split_us_prepend(a: Seq<char>, rest: Seq<char>)
    requires
        forall|j: int| 0 <= j < a.len() ==> a[j] != '_',
    ensures
        split_us(a + seq!['_'] + rest) == seq![a] + split_us(rest),
{
    let s = a + seq!['_'] + rest;
    assert forall|j: int| 0 <= j < a.len() implies s[j] != '_' by {
        assert(s[j] == a[j]);
    }
    assert(s[a.len() as int] == '_');
    lemma_first_us_eq(s, a.len() as int);
    assert(s.take(a.len() as int) =~= a);
    assert(s.skip(a.len() as int + 1) =~= rest);
}

/// Decoding a live save name: the fixed prefix, then exactly two
/// `'_'`-separated fields, chapter and slot, both unsigned integers,
/// with the slot one of the three save slots. Anything else is not a
/// live save and decodes to `None`, never to an error.
pub open spec fn parse_save_spec(s: Seq<char>) -> Option<(u8, u8)> {
    if s.len() >= 6 && s.take(6) == save_prefix() {
        let parts = split_us(s.skip(6));
        if parts.len() == 2 {
            match (parse_u8_spec(parts[0]), parse_u8_spec(parts[1])) {
                (Some(chapter), Some(slot)) => if slot <= 2 {
                    Some((chapter, slot))
                } else {
                    None
                },
                _ => None,
            }
        } else {
            None
        }
    } else {
        None
    }
}

/// Decoding an archived save name: the fixed prefix, then at least
/// three `'_'`-separated fields — chapter, slot, and the content hash.
/// Trailing fields (the timestamp) are tolerated and not validated.
pub open spec fn parse_local_spec(s: Seq<char>) -> Option<(u8, u8, Seq<char>)> {
    if s.len() >= 6 && s.take(6) == save_prefix() {
        let parts = split_us(s.skip(6));
        if parts.len() >= 3 {
            match (parse_u8_spec(parts[0]), parse_u8_spec(parts[1])) {
                (Some(chapter), Some(slot)) => if slot <= 2 {
                    Some((chapter, slot, parts[2]))
                } else {
                    None
                },
                _ => None,
            }
        } else {
            None
        }
    } else {
        None
    }
}

/// A name that does not begin with the save prefix is not a save file:
/// both decoders return `None` on it.
pub proof fn lemma_parse_rejects_foreign(s: Seq<char>)
    requires
        s.len() < 6 || s.take(6) != save_prefix(),
    ensures
        parse_save_spec(s) is None,
        parse_local_spec(s) is None,
{
}

/// Whatever decodes successfully carries a slot among the three save
/// slots: a slot field over 2 is always rejected.
pub proof fn lemma_parse_slot_bounded(s: Seq<char>)
    ensures
        parse_save_spec(s) matches Some((chapter, slot)) ==> slot <= 2,
        parse_local_spec(s) matches Some((chapter, slot, hash)) ==> slot <= 2,
{
}

/// The full name of a live save for a chapter and slot.
pub open spec fn live_name_spec(chapter: u8, slot: u8) -> Seq<char> {
    save_prefix() + dec_spec(chapter as nat) + seq!['_'] + dec_spec(slot as nat)
}

/// The full name of an archived save: the live-save fields, then the
/// content hash, then seconds and nanoseconds of the backup time.
pub open spec fn archive_name_spec(
    chapter: u8,
    slot: u8,
    hash: Seq<char>,
    secs: u64,
    nanos: u32,
) -> Seq<char> {
    save_prefix() + dec_spec(chapter as nat) + seq!['_'] + dec_spec(slot as nat) + seq!['_'] + hash
        + seq!['_'] + dec_spec(secs as nat) + seq!['_'] + dec_spec(nanos as nat)
}

/// Round trip for live names: the name a restore writes a save under
/// decodes back to exactly the chapter and slot it was restored into.
pub proof fn lemma_live_round_trip(chapter: u8, slot: u8)
    requires
        slot <= 2,
    ensures
        parse_save_spec(live_name_spec(chapter, slot)) == Some((chapter, slot)),
{
    let s = live_name_spec(chapter, slot);
    lemma_dec_spec_value(chapter as nat);
    lemma_dec_spec_value(slot as nat);
    lemma_parse_of_dec(chapter as nat);
    lemma_parse_of_dec(slot as nat);
    assert(s.take(6) =~= save_prefix());
    let r0 = dec_spec(chapter as nat) + seq!['_'] + dec_spec(slot as nat);
    assert(s.skip(6) =~= r0);
    lemma_split_us_no_sep(dec_spec(slot as nat));
    lemma_split_us_prepend(dec_spec(chapter as nat), dec_spec(slot as nat));
    assert(split_us(r0) =~= seq![dec_spec(chapter as nat), dec_spec(slot as nat)]);
}

#[verifier::rlimit(60)]
proof fn lemma_archive_name_parts(chapter: u8, slot: u8, hash: Seq<char>, secs: u64, nanos: u32)
    requires
        forall|i: int| 0 <= i < hash.len() ==> hash[i] != '_',
    ensures
        ({
            let s = archive_name_spec(chapter, slot, hash, secs, nanos);
            &&& s.len() >= 6
            &&& s.take(6) == save_prefix()
            &&& split_us(s.skip(6)) == seq![
                dec_spec(chapter as nat),
                dec_spec(slot as nat),
                hash,
                dec_spec(secs as nat),
                dec_spec(nanos as nat),
            ]
        }),
{
    let s = archive_name_spec(chapter, slot, hash, secs, nanos);
    lemma_dec_spec_value(chapter as nat);
    lemma_dec_spec_value(slot as nat);
    lemma_dec_spec_value(secs as nat);
    lemma_dec_spec_value(nanos as nat);
    assert(s.take(6) =~= save_prefix());
    let r3 = dec_spec(secs as nat) + seq!['_'] + dec_spec(nanos as nat);
    let r2 = hash + seq!['_'] + r3;
    let r1 = dec_spec(slot as nat) + seq!['_'] + r2;
    let r0 = dec_spec(chapter as nat) + seq!['_'] + r1;
    assert(s.skip(6) =~= r0);
    lemma_split_us_no_sep(dec_spec(nanos as nat));
    lemma_split_us_prepend(dec_spec(secs as nat), dec_spec(nanos as nat));
    assert(split_us(r3) == seq![dec_spec(secs as nat)] + split_us(dec_spec(nanos as nat)));
    lemma_split_us_prepend(hash, r3);
    assert(split_us(r2) == seq![hash] + split_us(r3));
    lemma_split_us_prepend(dec_spec(slot as nat), r2);
    assert(split_us(r1) == seq![dec_spec(slot as nat)] + split_us(r2));
    lemma_split_us_prepend(dec_spec(chapter as nat), r1);
    assert(split_us(r0) == seq![dec_spec(chapter as nat)] + split_us(r1));
    assert(split_us(r0) =~= seq![
        dec_spec(chapter as nat),
        dec_spec(slot as nat),
        hash,
        dec_spec(secs as nat),
        dec_spec(nanos as nat),
    ]);
}

/// Round trip: an archive name encoded from a chapter, one of the three
/// slots, a separator-free hash and any timestamp decodes back to
/// exactly that chapter, slot and hash.
pub proof fn lemma_archive_round_trip(
    chapter: u8,
    slot: u8,
    hash: Seq<char>,
    secs: u64,
    nanos: u32,
)
    requires
        slot <= 2,
        forall|i: int| 0 <= i < hash.len() ==> hash[i] != '_',
    ensures
        parse_local_spec(archive_name_spec(chapter, slot, hash, secs, nanos)) == Some(
            (chapter, slot, hash),
        ),
{
    lemma_archive_name_parts(chapter, slot, hash, secs, nanos);
    lemma_parse_of_dec(chapter as nat);
    lemma_parse_of_dec(slot as nat);
    let s = archive_name_spec(chapter, slot, hash, secs, nanos);
    let parts = split_us(s.skip(6));
    assert(parse_u8_spec(parts[0]) == Some(chapter));
    assert(parse_u8_spec(parts[1]) == Some(slot));
}

/// Two backups of identical content into the same chapter and slot
/// still get distinct archive names as long as their timestamps differ
/// in the seconds or the nanoseconds field.
pub proof fn lemma_distinct_timestamps_distinct_names(
    chapter: u8,
    slot: u8,
    hash: Seq<char>,
    secs1: u64,
    nanos1: u32,
    secs2: u64,
    nanos2: u32,
)
    requires
        forall|i: int| 0 <= i < hash.len() ==> hash[i] != '_',
        secs1 != secs2 || nanos1 != nanos2,
    ensures
        archive_name_spec(chapter, slot, hash, secs1, nanos1) != archive_name_spec(
            chapter,
            slot,
            hash,
            secs2,
            nanos2,
        ),
{
    let a = archive_name_spec(chapter, slot, hash, secs1, nanos1);
    let b = archive_name_spec(chapter, slot, hash, secs2, nanos2);
    lemma_archive_name_parts(chapter, slot, hash, secs1, nanos1);
    lemma_archive_name_parts(chapter, slot, hash, secs2, nanos2);
    if a == b {
        assert(split_us(a.skip(6))[3] == split_us(b.skip(6))[3]);
        assert(split_us(a.skip(6))[4] == split_us(b.skip(6))[4]);
        lemma_dec_spec_injective(secs1 as nat, secs2 as nat);
        lemma_dec_spec_injective(nanos1 as nat, nanos2 as nat);
    }
}

fn str_to_chars(s: &str) -> (r: Vec<char>)
    ensures
        r@ == s@,
{
    let n = s.unicode_len();
    let mut v: Vec<char> = Vec::new();
    let mut i: usize = 0;
    while i < n
        invariant
            i <= n,
            n == s@.len(),
            v@ == s@.take(i as int),
        decreases n - i,
    {
        v.push(s.get_char(i));
        i = i + 1;
        proof {
            assert(v@ =~= s@.take(i as int));
        }
    }
    proof {
        assert(s@.take(n as int) =~= s@);
    }
    v
}

fn has_save_prefix(chars: &Vec<char>) -> (r: bool)
    ensures
        r == (chars@.len() >= 6 && chars@.take(6) == save_prefix()),
{
    if chars.len() < 6 {
        return false;
    }
    let ok = chars[0] == 'f' && chars[1] == 'i' && chars[2] == 'l' && chars[3] == 'e' && chars[4]
        == 'c' && chars[5] == 'h';
    proof {
        if ok {
            assert(chars@.take(6) =~= save_prefix());
        } else {
            if chars@.take(6) == save_prefix() {
                assert(forall|i: int| 0 <= i < 6 ==> chars@.take(6)[i] == save_prefix()[i]);
                assert(chars@[0] == 'f' && chars@[1] == 'i' && chars@[2] == 'l' && chars@[3] == 'e'
                    && chars@[4] == 'c' && chars@[5] == 'h');
            }
        }
    }
    ok
}

fn vec_suffix(chars: &Vec<char>, from: usize) -> (r: Vec<char>)
    requires
        from <= chars@.len(),
    ensures
        r@ == chars@.skip(from as int),
{
    let mut v: Vec<char> = Vec::new();
    let mut i: usize = from;
    while i < chars.len()
        invariant
            from <= i <= chars@.len(),
            v@ == chars@.subrange(from as int, i as int),
        decreases chars@.len() - i,
    {
        v.push(chars[i]);
        i = i + 1;
        proof {
            assert(v@ =~= chars@.subrange(from as int, i as int));
        }
    }
    v
}

/// The views of a sequence of character vectors.
pub open spec fn views_of(v: Seq<Vec<char>>) -> Seq<Seq<char>> {
    v.map_values(|x: Vec<char>| x@)
}

fn split_underscores(chars: &Vec<char>) -> (r: Vec<Vec<char>>)
    ensures
        views_of(r@) == split_us(chars@),
{
    let ghost full = chars@;
    let mut parts: Vec<Vec<char>> = Vec::new();
    let mut cur: Vec<char> = Vec::new();
    let ghost mut start: int = 0;
    let mut i: usize = 0;
    proof {
        assert(full.skip(0) =~= full);
        assert(views_of(parts@) =~= Seq::<Seq<char>>::empty());
        assert(cur@ =~= full.subrange(0, 0));
    }
    while i < chars.len()
        invariant
            0 <= start <= i <= full.len(),
            full == chars@,
            cur@ == full.subrange(start, i as int),
            forall|j: int| start <= j < i ==> full[j] != '_',
            split_us(full) == views_of(parts@) + split_us(full.skip(start)),
        decreases full.len() - i,
    {
        let c = chars[i];
        if c == '_' {
            proof {
                let tail = full.skip(start);
                assert forall|j: int| 0 <= j < i - start implies tail[j] != '_' by {
                    assert(tail[j] == full[start + j]);
                }
                assert(tail[i - start] == full[i as int]);
                lemma_first_us_eq(tail, i - start);
                assert(tail.take(i - start) =~= full.subrange(start, i as int));
                assert(tail.skip(i - start + 1) =~= full.skip(i as int + 1));
                assert(split_us(tail) == seq![cur@] + split_us(full.skip(i as int + 1)));
            }
            let ghost old_parts = parts@;
            parts.push(cur);
            cur = Vec::new();
            proof {
                assert(views_of(parts@) =~= views_of(old_parts) + seq![full.subrange(start, i as int)]);
                start = i as int + 1;
                assert(cur@ =~= full.subrange(start, start));
            }
        } else {
            cur.push(c);
            proof {
                assert(cur@ =~= full.subrange(start, i as int + 1));
            }
        }
        i = i + 1;
    }
    proof {
        let tail = full.skip(start);
        assert forall|j: int| 0 <= j < tail.len() implies tail[j] != '_' by {
            assert(tail[j] == full[start + j]);
        }
        lemma_split_us_no_sep(tail);
        assert(tail =~= full.subrange(start, full.len() as int));
    }
    let ghost old_parts = parts@;
    parts.push(cur);
    proof {
        assert(views_of(parts@) =~= views_of(old_parts) + seq![full.skip(start)]);
        assert(views_of(parts@) =~= split_us(full));
    }
    parts
}

fn char_digit(c: char) -> (r: Option<u8>)
    ensures
        match r {
            Some(d) => digit_val(c) == Some(d as nat),
            None => digit_val(c) is None,
        },
{
    if c == '0' {
        Some(0)
    } else if c == '1' {
        Some(1)
    } else if c == '2' {
        Some(2)
    } else if c == '3' {
        Some(3)
    } else if c == '4' {
        Some(4)
    } else if c == '5' {
        Some(5)
    } else if c == '6' {
        Some(6)
    } else if c == '7' {
        Some(7)
    } else if c == '8' {
        Some(8)
    } else if c == '9' {
        Some(9)
    } else {
        None
    }
}

proof fn lemma_digits_val_monotone(s: Seq<char>, i: int)
    requires
        0 <= i <= s.len(),
    ensures
        digits_val(s) >= digits_val(s.take(i)),
    decreases s.len() - i,
{
    if i < s.len() {
        lemma_digits_val_monotone(s, i + 1);
        let t = s.take(i + 1);
        assert(t.drop_last() =~= s.take(i));
        assert(digits_val(t) == digits_val(s.take(i)) * 10 + digit_val(t.last()).unwrap_or(0));
    } else {
        assert(s.take(i) =~= s);
    }
}

fn parse_u8_digits(part: &Vec<char>) -> (r: Option<u8>)
    ensures
        r == parse_u8_spec(part@),
{
    let start: usize = if part.len() > 0 && part[0] == '+' {
        1
    } else {
        0
    };
    let ghost d = digits_part(part@);
    proof {
        assert(d =~= part@.skip(start as int));
    }
    if part.len() == start {
        return None;
    }
    let mut acc: u64 = 0;
    let mut i: usize = start;
    while i < part.len()
        invariant
            start <= i <= part@.len(),
            d == digits_part(part@),
            d == part@.skip(start as int),
            all_digits(d.take(i as int - start as int)),
            acc == digits_val(d.take(i as int - start as int)),
            acc <= 255,
        decreases part@.len() - i,
    {
        let c = part[i];
        proof {
            assert(d[i as int - start as int] == part@[i as int]);
        }
        let dg = match char_digit(c) {
            Some(dg) => dg,
            None => {
                proof {
                    assert(!is_digit(d[i as int - start as int]));
                    assert(!all_digits(d));
                }
                return None;
            },
        };
        proof {
            let t = d.take(i as int - start as int + 1);
            assert(t.drop_last() =~= d.take(i as int - start as int));
            assert(t.last() == d[i as int - start as int]);
            assert(digits_val(t) == acc * 10 + dg);
            assert forall|j: int| 0 <= j < t.len() implies is_digit(#[trigger] t[j]) by {
                if j < i as int - start as int {
                    assert(t[j] == d.take(i as int - start as int)[j]);
                }
            }
        }
        acc = acc * 10 + (dg as u64);
        i = i + 1;
        if acc > 255 {
            proof {
                if all_digits(d) && digits_val(d) <= 255 {
                    lemma_digits_val_monotone(d, i as int - start as int);
                }
            }
            return None;
        }
    }
    proof {
        assert(d.take(d.len() as int) =~= d);
    }
    Some(acc as u8)
}

/// Relies on `String::from_iter` (via `Iterator::collect`): collecting
/// an iterator of characters yields the string of exactly those
/// characters in order.
#[verifier::external_body]
fn chars_to_string(v: &Vec<char>) -> (r: String)
    ensures
        r@ == v@,
{
    v.iter().collect()
}

/// Decode a live save file name into its chapter and slot, or `None`
/// if the name is not a live save: wrong prefix, not exactly two
/// fields, a non-numeric field, or a slot outside the three save slots.
pub fn parse_save_filename(filename: &str) -> (r: Option<(u8, u8)>)
    ensures
        r == parse_save_spec(filename@),
{
    let chars = str_to_chars(filename);
    if !has_save_prefix(&chars) {
        return None;
    }
    let rest = vec_suffix(&chars, 6);
    let parts = split_underscores(&rest);
    proof {
        assert(views_of(parts@).len() == parts@.len());
    }
    if parts.len() != 2 {
        return None;
    }
    proof {
        assert(views_of(parts@)[0] == parts@[0]@);
        assert(views_of(parts@)[1] == parts@[1]@);
    }
    let chapter = match parse_u8_digits(&parts[0]) {
        Some(c) => c,
        None => {
            return None;
        },
    };
    let slot = match parse_u8_digits(&parts[1]) {
        Some(s) => s,
        None => {
            return None;
        },
    };
    if slot <= 2 {
        Some((chapter, slot))
    } else {
        None
    }
}

/// Decode an archived save file name into its chapter, slot and
/// content hash, or `None` if the name is not an archived save: wrong
/// prefix, fewer than three fields, a non-numeric chapter or slot, or
/// a slot outside the three save slots. Trailing timestamp fields are
/// tolerated and ignored.
pub fn parse_local_save_filename(filename: &str) -> (r: Option<(u8, u8, String)>)
    ensures
        match r {
            Some((chapter, slot, hash)) => parse_local_spec(filename@) == Some(
                (chapter, slot, hash@),
            ),
            None => parse_local_spec(filename@) is None,
        },
{
    let chars = str_to_chars(filename);
    if !has_save_prefix(&chars) {
        return None;
    }
    let rest = vec_suffix(&chars, 6);
    let parts = split_underscores(&rest);
    proof {
        assert(views_of(parts@).len() == parts@.len());
    }
    if parts.len() < 3 {
        return None;
    }
    proof {
        assert(views_of(parts@)[0] == parts@[0]@);
        assert(views_of(parts@)[1] == parts@[1]@);
        assert(views_of(parts@)[2] == parts@[2]@);
    }
    let chapter = match parse_u8_digits(&parts[0]) {
        Some(c) => c,
        None => {
            return None;
        },
    };
    let slot = match parse_u8_digits(&parts[1]) {
        Some(s) => s,
        None => {
            return None;
        },
    };
    if slot <= 2 {
        let hash = chars_to_string(&parts[2]);
        Some((chapter, slot, hash))
    } else {
        None
    }
}

/// The name a restored (or game-written) live save carries for a
/// chapter and slot: the prefix, the chapter, and the slot, with no
/// hash or timestamp.
pub fn live_save_filename(chapter: u8, slot: u8) -> (r: String)
    ensures
        r@ == live_name_spec(chapter, slot),
{
    proof {
        reveal_strlit("filech");
        reveal_strlit("_");
        assert("filech"@ =~= save_prefix());
    }
    let mut s = String::from_str("filech");
    let c = u64_to_string(chapter as u64);
    s.append(c.as_str());
    s.append("_");
    let l = u64_to_string(slot as u64);
    s.append(l.as_str());
    proof {
        assert(s@ =~= live_name_spec(chapter, slot));
    }
    s
}

/// The name an archived copy is stored under: the live-save fields,
/// then the content hash and the seconds and nanoseconds of the backup
/// time, each field separated by an underscore.
pub fn archive_save_filename(chapter: u8, slot: u8, hash: &str, secs: u64, nanos: u32) -> (r:
    String)
    ensures
        r@ == archive_name_spec(chapter, slot, hash@, secs, nanos),
{
    proof {
        reveal_strlit("_");
    }
    let mut s = live_save_filename(chapter, slot);
    s.append("_");
    s.append(hash);
    s.append("_");
    let t = u64_to_string(secs);
    s.append(t.as_str());
    s.append("_");
    let n = u64_to_string(nanos as u64);
    s.append(n.as_str());
    proof {
        assert(s@ =~= archive_name_spec(chapter, slot, hash@, secs, nanos));
    }
    s
}

} // verus!

