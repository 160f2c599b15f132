//! The packet codec: the three packet shapes and their form on the wire.
//!
//! A data packet travels as a marker byte, the sequence byte, its one's
//! complement, the payload, and the checksum of the payload with the more
//! significant byte first. The end of a file travels as a marker byte alone.

use crate::checksum::{
    checksum_bytes, checksum_of_bytes, crc16_xmodem, crc16_xmodem_spec, flip_bit, high_byte,
    lemma_detects_flipped_bit, lemma_flip_bit_changes, low_byte, word_of,
};
use vstd::prelude::*;

verus! {

/// Marker of a data packet with a 128-byte payload.
pub const SOH: u8 = 0x01;

/// Marker of a data packet with a 1024-byte payload.
pub const STX: u8 = 0x02;

/// Marker that ends the current file.
pub const EOT: u8 = 0x04;

/// Reply: the packet was accepted.
pub const ACK: u8 = 0x06;

/// Reply: the packet was rejected and should be sent again.
pub const NAK: u8 = 0x15;

/// Request to start a transfer that is checked by CRC.
pub const CRC_START: u8 = 0x43;

/// The byte that fills the last data packet of a file up to its size.
pub const FILLER: u8 = 0x26;

/// A packet.
#[allow(inconsistent_fields)]
#[derive(Clone, Copy, Debug, PartialEq, Eq)]
pub enum Packet {
    Data128 { seq: u8, payload: [u8; 128] },
    Data1024 { seq: u8, payload: [u8; 1024] },
    EndOfTransmission,
}

/// What a packet holds, as mathematics: a data packet of either size is a
/// sequence number and a payload of 128 or 1024 bytes.
pub ghost enum PacketModel {
    Data { seq: u8, payload: Seq<u8> },
    EndOfTransmission,
}

/// Why a frame was not accepted as a packet.
#[derive(Clone, Copy, Debug, PartialEq, Eq)]
pub enum PacketError {
    /// The marker is unknown, the frame has not the length its marker
    /// declares, or the sequence byte and its complement do not sum to 0xFF.
    Framing,
    /// The checksum received differs from the checksum of the payload.
    ChecksumMismatch,
}

impl View for Packet {
    type V = PacketModel;

    open spec fn view(&self) -> PacketModel {
        match *self {
            Packet::Data128 { seq, payload } => PacketModel::Data { seq, payload: payload@ },
            Packet::Data1024 { seq, payload } => PacketModel::Data { seq, payload: payload@ },
            Packet::EndOfTransmission => PacketModel::EndOfTransmission,
        }
    }
}

/// The number of payload bytes that a marker declares: 128, 1024, or none.
pub open spec fn payload_size(marker: u8) -> nat {
    if marker == SOH {
        128
    } else if marker == STX {
        1024
    } else {
        0
    }
}

/// Whether the marker begins a data packet.
pub open spec fn is_data_marker(marker: u8) -> bool {
    marker == SOH || marker == STX
}

/// The number of bytes that follow a marker on the wire to complete its
/// frame, where the marker is known.
pub open spec fn frame_rest(marker: u8) -> Option<nat> {
    if is_data_marker(marker) {
        Some(payload_size(marker) + 4)
    } else if marker == EOT {
        Some(0)
    } else {
        None
    }
}

impl PacketModel {
    /// A data packet has a payload of one of the two sizes.
    pub open spec fn wf(self) -> bool {
        match self {
            PacketModel::Data { seq, payload } => payload.len() == 128 || payload.len() == 1024,
            PacketModel::EndOfTransmission => true,
        }
    }

    /// The marker byte that begins the packet on the wire.
    pub open spec fn marker(self) -> u8 {
        match self {
            PacketModel::Data { seq, payload } => if payload.len() == 128 {
                SOH
            } else {
                STX
            },
            PacketModel::EndOfTransmission => EOT,
        }
    }

    /// The bytes that follow the marker on the wire.
    pub open spec fn body(self) -> Seq<u8> {
        match self {
            PacketModel::Data { seq, payload } => seq![seq, (255 - seq) as u8] + payload + seq![
                high_byte(crc16_xmodem_spec(payload)),
                low_byte(crc16_xmodem_spec(payload)),
            ],
            PacketModel::EndOfTransmission => Seq::empty(),
        }
    }

    /// The packet on the wire.
    pub open spec fn wire(self) -> Seq<u8> {
        seq![self.marker()] + self.body()
    }
}

/// What a frame decodes to: `marker` is its first byte and `body` the bytes
/// that follow. The marker is judged first, then the length, then the
/// sequence byte against its complement, and the checksum last.
pub open spec fn decode_spec(marker: u8, body: Seq<u8>) -> Result<PacketModel, PacketError> {
    if marker == EOT {
        if body.len() == 0 {
            Ok(PacketModel::EndOfTransmission)
        } else {
            Err(PacketError::Framing)
        }
    } else if !is_data_marker(marker) {
        Err(PacketError::Framing)
    } else if body.len() != payload_size(marker) + 4 {
        Err(PacketError::Framing)
    } else if body[0] + body[1] != 255 {
        Err(PacketError::Framing)
    } else {
        let size = payload_size(marker) as int;
        let payload = body.subrange(2, 2 + size);
        if crc16_xmodem_spec(payload) != word_of(body[size + 2], body[size + 3]) {
            Err(PacketError::ChecksumMismatch)
        } else {
            Ok(PacketModel::Data { seq: body[0], payload })
        }
    }
}

/// The view of a decoded packet, an error unchanged.
pub open spec fn decoded_view(r: Result<Packet, PacketError>) -> Result<PacketModel, PacketError> {
    match r {
        Ok(p) => Ok(p@),
        Err(e) => Err(e),
    }
}

/// The number of bytes that follow `marker` on the wire: 132 after the marker
/// of a 128-byte packet, 1028 after that of a 1024-byte packet, none after the
/// end of a file, and `None` for any other byte.
pub fn frame_len(marker: u8) -> (rest: Option<usize>)
    ensures
        match rest {
            Some(n) => frame_rest(marker) == Some(n as nat),
            None => frame_rest(marker).is_none(),
        },
{
    if marker == SOH {
        Some(132)
    } else if marker == STX {
        Some(1028)
    } else if marker == EOT {
        Some(0)
    } else {
        None
    }
}

impl Packet {
    /// The marker byte that begins the packet on the wire.
    pub fn marker(&self) -> (m: u8)
        ensures
            m == self@.marker(),
    {
        match self {
            Packet::Data128 { .. } => SOH,
            Packet::Data1024 { .. } => STX,
            Packet::EndOfTransmission => EOT,
        }
    }

    /// The packet as the bytes to write to the channel.
    pub fn encode(&self) -> (bytes: Vec<u8>)
        ensures
            bytes@ == self@.wire(),
    {
        let mut out: Vec<u8> = Vec::new();
        match self {
            Packet::Data128 { seq, payload } => {
                out.push(SOH);
                out.push(*seq);
                out.push(255 - *seq);
                out.extend_from_slice(payload.as_slice());
                let (hi, lo) = checksum_bytes(crc16_xmodem(payload.as_slice()));
                out.push(hi);
                out.push(lo);
                assert(out@ =~= self@.wire());
            },
            Packet::Data1024 { seq, payload } => {
                out.push(STX);
                out.push(*seq);
                out.push(255 - *seq);
                out.extend_from_slice(payload.as_slice());
                let (hi, lo) = checksum_bytes(crc16_xmodem(payload.as_slice()));
                out.push(hi);
                out.push(lo);
                assert(out@ =~= self@.wire());
            },
            Packet::EndOfTransmission => {
                out.push(EOT);
                assert(out@ =~= self@.wire());
            },
        }
        out
    }

    /// The packet that a frame holds: `marker` is the frame's first byte and
    /// `body` the bytes after it. An unknown marker, a body of another length
    /// than the marker declares, or a sequence byte and complement that do not
    /// sum to 0xFF give a framing error, whatever the checksum; a checksum
    /// that differs from that of the payload gives a checksum mismatch.
    pub fn decode(marker: u8, body: &[u8]) -> (r: Result<Packet, PacketError>)
        ensures
            decoded_view(r) == decode_spec(marker, body@),
    {
        if marker == EOT {
            if body.len() == 0 {
                return Ok(Packet::EndOfTransmission);
            } else {
                return Err(PacketError::Framing);
            }
        }
        if marker != SOH && marker != STX {
            return Err(PacketError::Framing);
        }
        let size: usize = if marker == SOH {
            128
        } else {
            1024
        };
        if body.len() != size + 4 {
            return Err(PacketError::Framing);
        }
        let seq: u8 = body[0];
        let complement: u8 = body[1];
        if 255 - seq != complement {
            return Err(PacketError::Framing);
        }
        let received: u16 = checksum_of_bytes(body[size + 2], body[size + 3]);
        if marker == SOH {
            let payload = copy_128(body, 2);
            if crc16_xmodem(payload.as_slice()) != received {
                return Err(PacketError::ChecksumMismatch);
            }
            Ok(Packet::Data128 { seq, payload })
        } else {
            let payload = copy_1024(body, 2);
            if crc16_xmodem(payload.as_slice()) != received {
                return Err(PacketError::ChecksumMismatch);
            }
            Ok(Packet::Data1024 { seq, payload })
        }
    }

    /// The payload of a data packet; of the end of a file, no bytes.
    pub fn payload(&self) -> (bytes: Vec<u8>)
        ensures
            bytes@ == match self@ {
                PacketModel::Data { seq, payload } => payload,
                PacketModel::EndOfTransmission => Seq::empty(),
            },
    {
        let mut out: Vec<u8> = Vec::new();
        match self {
            Packet::Data128 { seq, payload } => {
                out.extend_from_slice(payload.as_slice());
            },
            Packet::Data1024 { seq, payload } => {
                out.extend_from_slice(payload.as_slice());
            },
            Packet::EndOfTransmission => {},
        }
        out
    }
}

/// The 128 bytes of `bytes` that begin at index `from`.
fn copy_128(bytes: &[u8], from: usize) -> (block: [u8; 128])
    requires
        from + 128 <= bytes@.len(),
    ensures
        block@ == bytes@.subrange(from as int, from + 128),
{
    let mut block: [u8; 128] = [0u8; 128];
    let total: usize = bytes.len();
    let mut i: usize = 0;
    while i < 128
        invariant
            0 <= i <= 128,
            total == bytes@.len(),
            from + 128 <= total,
            forall|j: int| 0 <= j < i ==> block@[j] == bytes@[from + j],
        decreases 128 - i,
    {
        block[i] = bytes[from + i];
        i = i + 1;
    }
    assert(block@ =~= bytes@.subrange(from as int, from + 128));
    block
}

/// The 1024 bytes of `bytes` that begin at index `from`.
fn copy_1024(bytes: &[u8], from: usize) -> (block: [u8; 1024])
    requires
        from + 1024 <= bytes@.len(),
    ensures
        block@ == bytes@.subrange(from as int, from + 1024),
{
    let mut block: [u8; 1024] = [0u8; 1024];
    let total: usize = bytes.len();
    let mut i: usize = 0;
    while i < 1024
        invariant
            0 <= i <= 1024,
            total == bytes@.len(),
            from + 1024 <= total,
            forall|j: int| 0 <= j < i ==> block@[j] == bytes@[from + j],
        decreases 1024 - i,
    {
        block[i] = bytes[from + i];
        i = i + 1;
    }
    assert(block@ =~= bytes@.subrange(from as int, from + 1024));
    block
}

/// Two bytes make the 16-bit value whose bytes they are.
pub proof fn lemma_word_of_bytes(v: u16)
    ensures
        word_of(high_byte(v), low_byte(v)) == v,
{
}

/// Two packets with one view are the same packet.
pub proof fn lemma_view_injective(p: Packet, q: Packet)
    requires
        p@ == q@,
    ensures
        p == q,
{
    match (p, q) {
        (Packet::Data128 { seq: s1, payload: a }, Packet::Data128 { seq: s2, payload: b }) => {
            assert(a@ == b@);
            assert(a =~= b);
        },
        (Packet::Data1024 { seq: s1, payload: a }, Packet::Data1024 { seq: s2, payload: b }) => {
            assert(a@ == b@);
            assert(a =~= b);
        },
        (Packet::Data128 { seq: s1, payload: a }, Packet::Data1024 { seq: s2, payload: b }) => {
            assert(a@.len() == 128 && b@.len() == 1024);
        },
        (Packet::Data1024 { seq: s1, payload: a }, Packet::Data128 { seq: s2, payload: b }) => {
            assert(a@.len() == 1024 && b@.len() == 128);
        },
        _ => {},
    }
}

/// Every packet has a well-formed view.
pub proof fn lemma_view_wf(p: Packet)
    ensures
        p@.wf(),
{
}

/// Decoding inverts encoding: the frame of a packet decodes to that packet,
/// sequence number and payload unchanged.
pub proof fn lemma_decode_inverts_encode(p: PacketModel)
    requires
        p.wf(),
    ensures
        decode_spec(p.marker(), p.body()) == Ok::<PacketModel, PacketError>(p),
        decode_spec(p.wire()[0], p.wire().skip(1)) == Ok::<PacketModel, PacketError>(p),
{
    assert(p.wire().skip(1) =~= p.body());
    match p {
        PacketModel::Data { seq, payload } => {
            let body = p.body();
            let size = payload.len() as int;
            assert(body.subrange(2, 2 + size) =~= payload);
            lemma_word_of_bytes(crc16_xmodem_spec(payload));
        },
        PacketModel::EndOfTransmission => {},
    }
}

/// A data frame whose sequence byte and complement do not sum to 0xFF is a
/// framing error, whether or not its checksum fits its payload.
pub proof fn lemma_bad_sequence_is_rejected(marker: u8, body: Seq<u8>)
    requires
        is_data_marker(marker),
        body.len() >= 2,
        body[0] + body[1] != 255,
    ensures
        decode_spec(marker, body) == Err::<PacketModel, PacketError>(PacketError::Framing),
{
}

/// A data packet's frame in which any single bit of the payload or of the
/// checksum has been inverted is never accepted: it decodes to a checksum
/// mismatch. `at` counts the bytes after the marker, so the payload begins at
/// index 2, after the sequence byte and its complement.
pub proof fn lemma_flipped_bit_is_detected(p: PacketModel, at: int, bit: u8)
    requires
        p.wf(),
        p is Data,
        2 <= at < p.body().len(),
        bit < 8,
    ensures
        decode_spec(p.marker(), flip_bit(p.body(), at, bit)) == Err::<PacketModel, PacketError>(
            PacketError::ChecksumMismatch,
        ),
{
    let payload = p->payload;
    let size = payload.len() as int;
    let body = p.body();
    let bent = flip_bit(body, at, bit);
    let sum = crc16_xmodem_spec(payload);
    lemma_flip_bit_changes(body, at, bit);
    lemma_word_of_bytes(sum);
    assert(body.subrange(2, 2 + size) =~= payload);
    if at < 2 + size {
        assert(bent.subrange(2, 2 + size) =~= flip_bit(payload, at - 2, bit));
        lemma_detects_flipped_bit(payload, at - 2, bit);
    } else {
        assert(bent.subrange(2, 2 + size) =~= payload);
        assert(word_of(bent[size + 2], bent[size + 3]) != word_of(body[size + 2], body[size + 3]));
    }
}

} // verus!
