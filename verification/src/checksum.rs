//! The CRC-16/XMODEM checksum: polynomial 0x1021, initial value 0, bits
//! taken most significant first, no reflection, no final xor.

use vstd::prelude::*;

verus! {

/// One step of the shift register: the value moves left by one bit, and the
/// polynomial is folded in when a 1 falls off the top.
pub open spec fn crc16_shift(v: u16) -> u16 {
    if v & 0x8000 != 0 {
        (v << 1) ^ 0x1021
    } else {
        v << 1
    }
}

/// `n` steps of the shift register.
pub open spec fn crc16_shifts(v: u16, n: nat) -> u16
    decreases n,
{
    if n == 0 {
        v
    } else {
        crc16_shifts(crc16_shift(v), (n - 1) as nat)
    }
}

/// The register after one more byte of input: the byte is xored into the
/// high half, then the register steps eight times.
pub open spec fn crc16_update(crc: u16, byte: u8) -> u16 {
    crc16_shifts(crc ^ ((byte as u16) << 8), 8)
}

/// The CRC-16/XMODEM value of a byte sequence.
pub open spec fn crc16_xmodem_spec(bytes: Seq<u8>) -> u16
    decreases bytes.len(),
{
    if bytes.len() == 0 {
        0
    } else {
        crc16_update(crc16_xmodem_spec(bytes.drop_last()), bytes.last())
    }
}

/// The entry of the 256-entry lookup table for index `i`: the register that
/// results from stepping `i << 8` eight times.
pub open spec fn crc16_table_entry(i: u8) -> u16 {
    crc16_shifts((i as u16) << 8, 8)
}

/// The shift step distributes over xor.
pub proof fn lemma_shift_xor(a: u16, b: u16)
    ensures
        crc16_shift(a ^ b) == crc16_shift(a) ^ crc16_shift(b),
{
    assert((if (a ^ b) & 0x8000 != 0 {
        ((a ^ b) << 1) ^ 0x1021
    } else {
        (a ^ b) << 1
    }) == (if a & 0x8000 != 0 {
        (a << 1) ^ 0x1021
    } else {
        a << 1
    }) ^ (if b & 0x8000 != 0 {
        (b << 1) ^ 0x1021
    } else {
        b << 1
    })) by (bit_vector);
}

/// The shift step loses nothing: two registers that step to the same value
/// are the same.
pub proof fn lemma_shift_injective(a: u16, b: u16)
    requires
        crc16_shift(a) == crc16_shift(b),
    ensures
        a == b,
{
    assert((if a & 0x8000 != 0 {
        (a << 1) ^ 0x1021
    } else {
        a << 1
    }) == (if b & 0x8000 != 0 {
        (b << 1) ^ 0x1021
    } else {
        b << 1
    }) ==> a == b) by (bit_vector);
}

/// Any number of shift steps distributes over xor.
pub proof fn lemma_shifts_xor(a: u16, b: u16, n: nat)
    ensures
        crc16_shifts(a ^ b, n) == crc16_shifts(a, n) ^ crc16_shifts(b, n),
    decreases n,
{
    if n > 0 {
        lemma_shift_xor(a, b);
        lemma_shifts_xor(crc16_shift(a), crc16_shift(b), (n - 1) as nat);
    }
}

/// Any number of shift steps loses nothing.
pub proof fn lemma_shifts_injective(a: u16, b: u16, n: nat)
    requires
        crc16_shifts(a, n) == crc16_shifts(b, n),
    ensures
        a == b,
    decreases n,
{
    if n > 0 {
        lemma_shifts_injective(crc16_shift(a), crc16_shift(b), (n - 1) as nat);
        lemma_shift_injective(a, b);
    }
}

/// The index into the lookup table for one byte step: the high half of the
/// register xored with the byte.
pub open spec fn crc16_table_index(crc: u16, byte: u8) -> u8 {
    (#[verifier::truncate] ((crc >> 8) as u8)) ^ byte
}

/// The byte step written with the lookup table gives the same register as the
/// bit-by-bit definition.
pub proof fn lemma_update_by_table(crc: u16, byte: u8)
    ensures
        crc16_update(crc, byte) == crc16_table_entry(crc16_table_index(crc, byte)) ^ (crc << 8),
{
    let idx: u8 = crc16_table_index(crc, byte);
    let low: u16 = crc & 0xff;
    assert(crc ^ ((byte as u16) << 8) == ((idx as u16) << 8) ^ low) by (bit_vector)
        requires
            idx == (((crc >> 8) as u8) ^ byte),
            low == crc & 0xff,
    ;
    lemma_shifts_xor((idx as u16) << 8, low, 8);
    assert(low & 0xff00 == 0) by (bit_vector)
        requires
            low == crc & 0xff,
    ;
    lemma_shifts_low_byte(low);
    assert(low << 8 == crc << 8) by (bit_vector)
        requires
            low == crc & 0xff,
    ;
}

/// A register whose high half is clear steps eight times without meeting the
/// polynomial: it just moves into the high half.
pub proof fn lemma_shifts_low_byte(low: u16)
    requires
        low & 0xff00 == 0,
    ensures
        crc16_shifts(low, 8) == low << 8,
{
    reveal_with_fuel(crc16_shifts, 9);
    assert(low & 0xff00 == 0 ==> ({
        let v1 = if low & 0x8000 != 0 { (low << 1) ^ 0x1021 } else { low << 1 };
        let v2 = if v1 & 0x8000 != 0 { (v1 << 1) ^ 0x1021 } else { v1 << 1 };
        let v3 = if v2 & 0x8000 != 0 { (v2 << 1) ^ 0x1021 } else { v2 << 1 };
        let v4 = if v3 & 0x8000 != 0 { (v3 << 1) ^ 0x1021 } else { v3 << 1 };
        let v5 = if v4 & 0x8000 != 0 { (v4 << 1) ^ 0x1021 } else { v4 << 1 };
        let v6 = if v5 & 0x8000 != 0 { (v5 << 1) ^ 0x1021 } else { v5 << 1 };
        let v7 = if v6 & 0x8000 != 0 { (v6 << 1) ^ 0x1021 } else { v6 << 1 };
        let v8 = if v7 & 0x8000 != 0 { (v7 << 1) ^ 0x1021 } else { v7 << 1 };
        v8 == low << 8
    })) by (bit_vector);
}

/// Two registers that take the same byte and come out equal were equal, and
/// one register that takes two bytes and comes out equal took the same byte.
pub proof fn lemma_update_injective(c1: u16, b1: u8, c2: u16, b2: u8)
    requires
        crc16_update(c1, b1) == crc16_update(c2, b2),
    ensures
        b1 == b2 ==> c1 == c2,
        c1 == c2 ==> b1 == b2,
{
    lemma_shifts_injective(c1 ^ ((b1 as u16) << 8), c2 ^ ((b2 as u16) << 8), 8);
    assert(c1 ^ ((b1 as u16) << 8) == c2 ^ ((b2 as u16) << 8) ==> (b1 == b2 ==> c1 == c2) && (c1
        == c2 ==> b1 == b2)) by (bit_vector);
}

/// Two byte sequences of one length that differ in exactly one byte have
/// different checksums.
pub proof fn lemma_detects_changed_byte(a: Seq<u8>, b: Seq<u8>, at: int)
    requires
        a.len() == b.len(),
        0 <= at < a.len(),
        a[at] != b[at],
        forall|j: int| 0 <= j < a.len() && j != at ==> a[j] == b[j],
    ensures
        crc16_xmodem_spec(a) != crc16_xmodem_spec(b),
    decreases a.len(),
{
    let ca = crc16_xmodem_spec(a.drop_last());
    let cb = crc16_xmodem_spec(b.drop_last());
    if at == a.len() - 1 {
        assert(a.drop_last() =~= b.drop_last());
    } else {
        lemma_detects_changed_byte(a.drop_last(), b.drop_last(), at);
    }
    if crc16_xmodem_spec(a) == crc16_xmodem_spec(b) {
        lemma_update_injective(ca, a.last(), cb, b.last());
    }
}

/// The byte sequence with one bit inverted: bit `bit` (0 is the least
/// significant) of the byte at index `at`.
pub open spec fn flip_bit(bytes: Seq<u8>, at: int, bit: u8) -> Seq<u8>
    recommends
        0 <= at < bytes.len(),
        bit < 8,
{
    bytes.update(at, bytes[at] ^ (1u8 << bit))
}

/// Inverting a bit changes the byte that holds it and no other.
pub proof fn lemma_flip_bit_changes(bytes: Seq<u8>, at: int, bit: u8)
    requires
        0 <= at < bytes.len(),
        bit < 8,
    ensures
        flip_bit(bytes, at, bit).len() == bytes.len(),
        flip_bit(bytes, at, bit)[at] != bytes[at],
        forall|j: int| 0 <= j < bytes.len() && j != at ==> flip_bit(bytes, at, bit)[j] == bytes[j],
{
    let x = bytes[at];
    assert(bit < 8 ==> x ^ (1u8 << bit) != x) by (bit_vector);
}

/// The checksum of a byte sequence changes when any single bit of it is
/// inverted.
pub proof fn lemma_detects_flipped_bit(bytes: Seq<u8>, at: int, bit: u8)
    requires
        0 <= at < bytes.len(),
        bit < 8,
    ensures
        crc16_xmodem_spec(flip_bit(bytes, at, bit)) != crc16_xmodem_spec(bytes),
{
    lemma_flip_bit_changes(bytes, at, bit);
    lemma_detects_changed_byte(flip_bit(bytes, at, bit), bytes, at);
}

/// The byte step in closed form: the high half of the register, xored with
/// the byte and folded onto itself, is spread over the register moved up by
/// a byte.
pub open spec fn crc16_update_folded(crc: u16, byte: u8) -> u16 {
    let x: u16 = ((crc >> 8) ^ (byte as u16)) & 0xff;
    let y: u16 = x ^ (x >> 4);
    (crc << 8) ^ (y << 12) ^ (y << 5) ^ y
}

/// The byte step in closed form gives the same register as the bit-by-bit
/// definition.
pub proof fn lemma_update_folded(crc: u16, byte: u8)
    ensures
        crc16_update(crc, byte) == crc16_update_folded(crc, byte),
{
    reveal_with_fuel(crc16_shifts, 9);
    let b: u16 = byte as u16;
    assert(b < 256 ==> ({
        let v0 = crc ^ (b << 8);
        let v1 = if v0 & 0x8000 != 0 { (v0 << 1) ^ 0x1021 } else { v0 << 1 };
        let v2 = if v1 & 0x8000 != 0 { (v1 << 1) ^ 0x1021 } else { v1 << 1 };
        let v3 = if v2 & 0x8000 != 0 { (v2 << 1) ^ 0x1021 } else { v2 << 1 };
        let v4 = if v3 & 0x8000 != 0 { (v3 << 1) ^ 0x1021 } else { v3 << 1 };
        let v5 = if v4 & 0x8000 != 0 { (v4 << 1) ^ 0x1021 } else { v4 << 1 };
        let v6 = if v5 & 0x8000 != 0 { (v5 << 1) ^ 0x1021 } else { v5 << 1 };
        let v7 = if v6 & 0x8000 != 0 { (v6 << 1) ^ 0x1021 } else { v6 << 1 };
        let v8 = if v7 & 0x8000 != 0 { (v7 << 1) ^ 0x1021 } else { v7 << 1 };
        let x = ((crc >> 8) ^ b) & 0xff;
        let y = x ^ (x >> 4);
        v8 == (crc << 8) ^ (y << 12) ^ (y << 5) ^ y
    })) by (bit_vector);
}

/// One byte step on given values, worked out through the closed form.
proof fn lemma_folded_value(crc: u16, byte: u8, out: u16)
    requires
        ({
            let b: u16 = byte as u16;
            let x: u16 = ((crc >> 8) ^ b) & 0xff;
            let y: u16 = x ^ (x >> 4);
            out == (crc << 8) ^ (y << 12) ^ (y << 5) ^ y
        }),
    ensures
        crc16_update(crc, byte) == out,
{
    lemma_update_folded(crc, byte);
}

/// The bytes of the text `123456789`, by which implementations of a CRC are
/// checked.
pub open spec fn check_string() -> Seq<u8> {
    seq![0x31u8, 0x32u8, 0x33u8, 0x34u8, 0x35u8, 0x36u8, 0x37u8, 0x38u8, 0x39u8]
}

/// The checksum of a sequence with one more byte is one byte step from the
/// checksum of the sequence.
pub proof fn lemma_crc_push(bytes: Seq<u8>, byte: u8)
    ensures
        crc16_xmodem_spec(bytes.push(byte)) == crc16_update(crc16_xmodem_spec(bytes), byte),
{
    assert(bytes.push(byte).drop_last() =~= bytes);
}

/// The checksum of nothing is 0, and the checksum of `123456789` is 0x31C3,
/// the check value of CRC-16/XMODEM.
pub proof fn lemma_check_value()
    ensures
        crc16_xmodem_spec(Seq::empty()) == 0,
        crc16_xmodem_spec(check_string()) == 0x31C3,
{
    let s0 = Seq::<u8>::empty();
    let s1 = s0.push(0x31);
    let s2 = s1.push(0x32);
    let s3 = s2.push(0x33);
    let s4 = s3.push(0x34);
    let s5 = s4.push(0x35);
    let s6 = s5.push(0x36);
    let s7 = s6.push(0x37);
    let s8 = s7.push(0x38);
    let s9 = s8.push(0x39);
    assert(s9 =~= check_string());
    lemma_crc_push(s0, 0x31);
    lemma_crc_push(s1, 0x32);
    lemma_crc_push(s2, 0x33);
    lemma_crc_push(s3, 0x34);
    lemma_crc_push(s4, 0x35);
    lemma_crc_push(s5, 0x36);
    lemma_crc_push(s6, 0x37);
    lemma_crc_push(s7, 0x38);
    lemma_crc_push(s8, 0x39);
    assert(crc16_xmodem_spec(s0) == 0);
    let (c0, b0, r0): (u16, u16, u16) = (0x0000, 0x31, 0x2672);
    assert(r0 == ({
        let x = ((c0 >> 8) ^ b0) & 0xff;
        let y = x ^ (x >> 4);
        (c0 << 8) ^ (y << 12) ^ (y << 5) ^ y
    })) by (bit_vector)
        requires
            c0 == 0x0000 && b0 == 0x31 && r0 == 0x2672,
    ;
    lemma_folded_value(0x0000, 0x31, 0x2672);
    let (c1, b1, r1): (u16, u16, u16) = (0x2672, 0x32, 0x20b5);
    assert(r1 == ({
        let x = ((c1 >> 8) ^ b1) & 0xff;
        let y = x ^ (x >> 4);
        (c1 << 8) ^ (y << 12) ^ (y << 5) ^ y
    })) by (bit_vector)
        requires
            c1 == 0x2672 && b1 == 0x32 && r1 == 0x20b5,
    ;
    lemma_folded_value(0x2672, 0x32, 0x20b5);
    let (c2, b2, r2): (u16, u16, u16) = (0x20b5, 0x33, 0x9752);
    assert(r2 == ({
        let x = ((c2 >> 8) ^ b2) & 0xff;
        let y = x ^ (x >> 4);
        (c2 << 8) ^ (y << 12) ^ (y << 5) ^ y
    })) by (bit_vector)
        requires
            c2 == 0x20b5 && b2 == 0x33 && r2 == 0x9752,
    ;
    lemma_folded_value(0x20b5, 0x33, 0x9752);
    let (c3, b3, r3): (u16, u16, u16) = (0x9752, 0x34, 0xd789);
    assert(r3 == ({
        let x = ((c3 >> 8) ^ b3) & 0xff;
        let y = x ^ (x >> 4);
        (c3 << 8) ^ (y << 12) ^ (y << 5) ^ y
    })) by (bit_vector)
        requires
            c3 == 0x9752 && b3 == 0x34 && r3 == 0xd789,
    ;
    lemma_folded_value(0x9752, 0x34, 0xd789);
    let (c4, b4, r4): (u16, u16, u16) = (0xd789, 0x35, 0x546c);
    assert(r4 == ({
        let x = ((c4 >> 8) ^ b4) & 0xff;
        let y = x ^ (x >> 4);
        (c4 << 8) ^ (y << 12) ^ (y << 5) ^ y
    })) by (bit_vector)
        requires
            c4 == 0xd789 && b4 == 0x35 && r4 == 0x546c,
    ;
    lemma_folded_value(0xd789, 0x35, 0x546c);
    let (c5, b5, r5): (u16, u16, u16) = (0x546c, 0x36, 0x20e4);
    assert(r5 == ({
        let x = ((c5 >> 8) ^ b5) & 0xff;
        let y = x ^ (x >> 4);
        (c5 << 8) ^ (y << 12) ^ (y << 5) ^ y
    })) by (bit_vector)
        requires
            c5 == 0x546c && b5 == 0x36 && r5 == 0x20e4,
    ;
    lemma_folded_value(0x546c, 0x36, 0x20e4);
    let (c6, b6, r6): (u16, u16, u16) = (0x20e4, 0x37, 0x86d6);
    assert(r6 == ({
        let x = ((c6 >> 8) ^ b6) & 0xff;
        let y = x ^ (x >> 4);
        (c6 << 8) ^ (y << 12) ^ (y << 5) ^ y
    })) by (bit_vector)
        requires
            c6 == 0x20e4 && b6 == 0x37 && r6 == 0x86d6,
    ;
    lemma_folded_value(0x20e4, 0x37, 0x86d6);
    let (c7, b7, r7): (u16, u16, u16) = (0x86d6, 0x38, 0x9015);
    assert(r7 == ({
        let x = ((c7 >> 8) ^ b7) & 0xff;
        let y = x ^ (x >> 4);
        (c7 << 8) ^ (y << 12) ^ (y << 5) ^ y
    })) by (bit_vector)
        requires
            c7 == 0x86d6 && b7 == 0x38 && r7 == 0x9015,
    ;
    lemma_folded_value(0x86d6, 0x38, 0x9015);
    let (c8, b8, r8): (u16, u16, u16) = (0x9015, 0x39, 0x31c3);
    assert(r8 == ({
        let x = ((c8 >> 8) ^ b8) & 0xff;
        let y = x ^ (x >> 4);
        (c8 << 8) ^ (y << 12) ^ (y << 5) ^ y
    })) by (bit_vector)
        requires
            c8 == 0x9015 && b8 == 0x39 && r8 == 0x31c3,
    ;
    lemma_folded_value(0x9015, 0x39, 0x31c3);
}

/// Calls `crc::Crc::<u16>::checksum` on the `Crc` that `Crc::<u16>::new`
/// makes from the catalogue entry `CRC_16_XMODEM`: width 16, polynomial
/// 0x1021, initial value 0, no reflection, no final xor. Claimed, not proved:
/// the value returned is `crc16_xmodem_spec` of the bytes. The crate starts
/// from 0 and takes each byte in turn through a table of 256 entries, as
/// `table[(crc >> 8) ^ byte] ^ (crc << 8)`, where entry `i` is `i << 8`
/// stepped eight times. `crc16_table_entry` is that entry, and
/// `lemma_update_by_table` shows that such a step is `crc16_update`.
#[verifier::external_body]
fn catalogue_checksum(bytes: &[u8]) -> (sum: u16)
    ensures
        sum == crc16_xmodem_spec(bytes@),
{
    crc::Crc::<u16>::new(&crc::CRC_16_XMODEM).checksum(bytes)
}

/// The CRC-16/XMODEM checksum of `bytes`.
pub fn crc16_xmodem(bytes: &[u8]) -> (sum: u16)
    ensures
        sum == crc16_xmodem_spec(bytes@),
{
    catalogue_checksum(bytes)
}

/// The more significant byte of a 16-bit value.
pub open spec fn high_byte(v: u16) -> u8 {
    (v / 256) as u8
}

/// The less significant byte of a 16-bit value.
pub open spec fn low_byte(v: u16) -> u8 {
    (v % 256) as u8
}

/// The 16-bit value whose bytes, most significant first, are `hi` and `lo`.
pub open spec fn word_of(hi: u8, lo: u8) -> u16 {
    (hi * 256 + lo) as u16
}

/// The two bytes of a checksum in the order they travel: most significant
/// first.
pub fn checksum_bytes(sum: u16) -> (pair: (u8, u8))
    ensures
        pair.0 == high_byte(sum),
        pair.1 == low_byte(sum),
{
    assert(sum >> 8 == sum / 256 && sum & 0xff == sum % 256) by (bit_vector);
    ((sum >> 8) as u8, (sum & 0xff) as u8)
}

/// The checksum whose bytes, most significant first, are `hi` and `lo`.
pub fn checksum_of_bytes(hi: u8, lo: u8) -> (sum: u16)
    ensures
        sum == word_of(hi, lo),
{
    assert(((hi as u16) << 8) | (lo as u16) == (hi as u16) * 256 + (lo as u16)) by (bit_vector);
    ((hi as u16) << 8) | (lo as u16)
}

} // verus!
