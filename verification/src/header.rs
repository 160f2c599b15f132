//! The batch header: the packet that announces a file by its name, and the
//! all-zero packet that ends a batch.
//!
//! A header's payload is the file name in Shift_JIS, a zero byte, and zeros up
//! to the payload's size. A payload that begins with a zero byte names no
//! file: it ends the batch.

use crate::packet::{Packet, PacketModel};
use vstd::prelude::*;
use vstd::string::StringSliceAdditionalSpecFns;

verus! {

/// The longest file name, in bytes of UTF-8, that is handed to the encoder.
pub const MAX_NAME_BYTES: usize = 4096;

/// The longest encoded file name that a header holds: the payload's 128 bytes
/// less the zero byte that ends the name.
pub const MAX_WIRE_NAME: usize = 127;

/// The bytes that `encoding_rs` gives for a text encoded as Shift_JIS, with a
/// numeric character reference in place of each character that Shift_JIS
/// lacks.
pub uninterp spec fn shift_jis_encoded(text: Seq<char>) -> Seq<u8>;

/// The text that `encoding_rs` gives for bytes decoded as Shift_JIS, with
/// the replacement character in place of each malformed sequence, and with
/// a byte order mark at the start obeyed and left out.
pub uninterp spec fn shift_jis_decoded(bytes: Seq<u8>) -> Seq<char>;

/// Calls `encoding_rs::Encoding::encode` on `SHIFT_JIS` and keeps the bytes,
/// the first of the three values it returns. Claimed, not proved: the bytes
/// depend on the text alone. The length is bounded because the call panics
/// when the size of its buffer overflows `usize`.
#[verifier::external_body]
fn shift_jis_encode(text: &str) -> (bytes: Vec<u8>)
    requires
        text.spec_bytes().len() <= MAX_NAME_BYTES,
    ensures
        bytes@ == shift_jis_encoded(text@),
{
    let (encoded, _, _) = encoding_rs::SHIFT_JIS.encode(text);
    encoded.into_owned()
}

/// Calls `encoding_rs::Encoding::decode` on `SHIFT_JIS` and keeps the text,
/// the first of the three values it returns. Claimed, not proved: the text
/// depends on the bytes alone. The length is bounded because the call panics
/// when the size of its buffer overflows `usize`.
#[verifier::external_body]
fn shift_jis_decode(bytes: &[u8]) -> (text: String)
    requires
        bytes@.len() <= 1024,
    ensures
        text@ == shift_jis_decoded(bytes@),
{
    let (decoded, _, _) = encoding_rs::SHIFT_JIS.decode(bytes);
    decoded.into_owned()
}

/// The file name as it travels in a header: its Shift_JIS encoding, or `None`
/// for a name of more than `MAX_NAME_BYTES` bytes of UTF-8.
pub fn encode_name(name: &str) -> (wire: Option<Vec<u8>>)
    ensures
        match wire {
            Some(bytes) => name.spec_bytes().len() <= MAX_NAME_BYTES && bytes@ == shift_jis_encoded(
                name@,
            ),
            None => name.spec_bytes().len() > MAX_NAME_BYTES,
        },
{
    if name.as_bytes().len() > MAX_NAME_BYTES {
        None
    } else {
        Some(shift_jis_encode(name))
    }
}

/// The file name that the bytes taken from a header stand for: their
/// Shift_JIS decoding, or `None` for more than 1024 bytes, which no header
/// holds.
pub fn decode_name(wire: &[u8]) -> (name: Option<String>)
    ensures
        match name {
            Some(text) => wire@.len() <= 1024 && text@ == shift_jis_decoded(wire@),
            None => wire@.len() > 1024,
        },
{
    if wire.len() > 1024 {
        None
    } else {
        Some(shift_jis_decode(wire))
    }
}

/// The payload of the header for an encoded name: the name, then zeros up to
/// 128 bytes.
pub open spec fn header_payload(wire_name: Seq<u8>) -> Seq<u8> {
    Seq::new(
        128,
        |i: int|
            if i < wire_name.len() {
                wire_name[i]
            } else {
                0u8
            },
    )
}

/// The header packet for an encoded name: a 128-byte packet of sequence
/// number 0.
pub open spec fn header_model(wire_name: Seq<u8>) -> PacketModel {
    PacketModel::Data { seq: 0, payload: header_payload(wire_name) }
}

/// The packet that ends a batch: the header of the empty name.
pub open spec fn end_of_batch_model() -> PacketModel {
    header_model(Seq::empty())
}

/// Whether a header's payload ends the batch: it names no file.
pub open spec fn ends_batch(payload: Seq<u8>) -> bool {
    payload.len() == 0 || payload[0] == 0
}

/// The index at which the name that begins at `from` ends: that of the first
/// zero byte at or after `from`, or the payload's length where there is none.
pub open spec fn name_end(payload: Seq<u8>, from: nat) -> nat
    decreases payload.len() - from,
{
    if from >= payload.len() || payload[from as int] == 0 {
        from
    } else {
        name_end(payload, from + 1)
    }
}

/// The encoded name that a header's payload holds: the bytes before its
/// first zero byte, or all of them where it holds none.
pub open spec fn name_of(payload: Seq<u8>) -> Seq<u8> {
    payload.subrange(0, name_end(payload, 0) as int)
}

/// Whether `name` is made of the bytes of `payload` before its first zero
/// byte, or of all of them where it holds none.
pub open spec fn is_name_in(payload: Seq<u8>, name: Seq<u8>) -> bool {
    &&& name.len() <= payload.len()
    &&& name == payload.subrange(0, name.len() as int)
    &&& forall|i: int| 0 <= i < name.len() ==> name[i] != 0
    &&& name.len() == payload.len() || payload[name.len() as int] == 0
}

/// From a position before which no byte is zero, the name ends at the first
/// zero byte that follows, and no later than the payload.
pub proof fn lemma_name_end(payload: Seq<u8>, from: nat)
    requires
        from <= payload.len(),
    ensures
        from <= name_end(payload, from) <= payload.len(),
        forall|i: int| from <= i < name_end(payload, from) ==> payload[i] != 0,
        name_end(payload, from) == payload.len() || payload[name_end(payload, from) as int] == 0,
    decreases payload.len() - from,
{
    if from < payload.len() && payload[from as int] != 0 {
        lemma_name_end(payload, from + 1);
    }
}

/// The name that a payload holds is made of its bytes before the first zero
/// byte.
pub proof fn lemma_name_of(payload: Seq<u8>)
    ensures
        is_name_in(payload, name_of(payload)),
{
    lemma_name_end(payload, 0);
}

/// The header packet for an encoded file name, or `None` for a name of more
/// than 127 bytes, which no header holds.
pub fn header_packet(wire_name: &[u8]) -> (packet: Option<Packet>)
    ensures
        match packet {
            Some(p) => wire_name@.len() <= MAX_WIRE_NAME && p@ == header_model(wire_name@),
            None => wire_name@.len() > MAX_WIRE_NAME,
        },
{
    let n: usize = wire_name.len();
    if n > MAX_WIRE_NAME {
        return None;
    }
    let mut payload: [u8; 128] = [0u8; 128];
    let mut i: usize = 0;
    while i < n
        invariant
            0 <= i <= n,
            n == wire_name@.len(),
            n <= 127,
            forall|j: int| 0 <= j < i ==> payload@[j] == wire_name@[j],
            forall|j: int| i <= j < 128 ==> payload@[j] == 0,
        decreases n - i,
    {
        payload[i] = wire_name[i];
        i = i + 1;
    }
    assert(payload@ =~= header_payload(wire_name@));
    Some(Packet::Data128 { seq: 0, payload })
}

/// The packet that ends a batch.
pub fn end_of_batch_packet() -> (packet: Packet)
    ensures
        packet@ == end_of_batch_model(),
{
    let payload: [u8; 128] = [0u8; 128];
    assert(payload@ =~= header_payload(Seq::empty()));
    Packet::Data128 { seq: 0, payload }
}

/// The encoded file name in a header's payload, or `None` where the payload
/// ends the batch.
pub fn header_name(payload: &[u8]) -> (name: Option<Vec<u8>>)
    ensures
        match name {
            Some(bytes) => !ends_batch(payload@) && bytes@ == name_of(payload@),
            None => ends_batch(payload@),
        },
{
    if payload.len() == 0 || payload[0] == 0 {
        return None;
    }
    let mut name: Vec<u8> = Vec::new();
    let mut i: usize = 0;
    while i < payload.len() && payload[i] != 0
        invariant
            0 <= i <= payload@.len(),
            name@ == payload@.subrange(0, i as int),
            name_end(payload@, 0) == name_end(payload@, i as nat),
        decreases payload@.len() - i,
    {
        name.push(payload[i]);
        i = i + 1;
        assert(name@ =~= payload@.subrange(0, i as int));
    }
    Some(name)
}

/// A header's payload holds one name and no other.
pub proof fn lemma_name_is_unique(payload: Seq<u8>, a: Seq<u8>, b: Seq<u8>)
    requires
        is_name_in(payload, a),
        is_name_in(payload, b),
    ensures
        a == b,
{
    if a.len() < b.len() {
        assert(b[a.len() as int] == payload[a.len() as int]);
    } else if b.len() < a.len() {
        assert(a[b.len() as int] == payload[b.len() as int]);
    }
}

/// A name that is not empty, holds no zero byte and fits a header is the name
/// read back from the header made for it.
pub proof fn lemma_header_keeps_name(wire_name: Seq<u8>)
    requires
        0 < wire_name.len() <= MAX_WIRE_NAME,
        forall|i: int| 0 <= i < wire_name.len() ==> wire_name[i] != 0,
    ensures
        !ends_batch(header_payload(wire_name)),
        name_of(header_payload(wire_name)) == wire_name,
{
    let payload = header_payload(wire_name);
    assert(payload.subrange(0, wire_name.len() as int) =~= wire_name);
    assert(is_name_in(payload, wire_name));
    lemma_name_of(payload);
    lemma_name_is_unique(payload, wire_name, name_of(payload));
}

/// The packet that ends a batch is read as the end of the batch.
pub proof fn lemma_end_of_batch_ends_batch()
    ensures
        end_of_batch_model() == (PacketModel::Data { seq: 0, payload: Seq::new(128, |i: int| 0u8) }),
        ends_batch(header_payload(Seq::empty())),
{
    assert(header_payload(Seq::empty()) =~= Seq::new(128, |i: int| 0u8));
}

} // verus!
