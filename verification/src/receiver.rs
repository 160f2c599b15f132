//! The receiving engine: a batch of files by YMODEM.
//!
//! The engine decides and its driver acts. Each request of the engine holds
//! bytes to write to the channel and flush, and then one thing to do: read
//! so many bytes, resolve a file name against the upload directory, create
//! the file, append to it, close it, or stop. The driver answers with what
//! came of it, and the engine moves on.

use crate::checksum::flip_bit;
use crate::guard::{is_within, option_view, validate, validate_spec, CanonicalPath};
use crate::header::{
    decode_name, end_of_batch_model, ends_batch, header_model, header_name,
    lemma_end_of_batch_ends_batch, lemma_header_keeps_name, lemma_name_of, name_of,
    shift_jis_decoded, MAX_WIRE_NAME,
};
use crate::packet::{
    decode_spec, decoded_view, frame_len, frame_rest, is_data_marker,
    lemma_bad_sequence_is_rejected, lemma_decode_inverts_encode, lemma_flipped_bit_is_detected,
    Packet, PacketModel, ACK, CRC_START, EOT, NAK,
};
use crate::transfer::{AbortReason, Outcome};
use vstd::prelude::*;

verus! {

/// How far the reading of a packet has come.
#[derive(Clone, Copy, Debug, PartialEq, Eq, Structural)]
pub enum ReadStage {
    /// The marker byte is awaited.
    Marker,
    /// This marker was read; the rest of its frame is awaited.
    Frame(u8),
}

/// The number of bytes that the stage waits for: one for a marker, the rest
/// of the frame after it.
pub open spec fn wanted(stage: ReadStage) -> nat {
    match stage {
        ReadStage::Marker => 1,
        ReadStage::Frame(marker) => match frame_rest(marker) {
            Some(n) => n,
            None => 0,
        },
    }
}

/// The number of bytes that the stage waits for.
pub fn wanted_len(stage: ReadStage) -> (n: usize)
    ensures
        n == wanted(stage),
{
    match stage {
        ReadStage::Marker => 1,
        ReadStage::Frame(marker) => match frame_len(marker) {
            Some(n) => n,
            None => 0,
        },
    }
}

/// What the bytes just read mean for the packet being read.
#[derive(Debug, PartialEq, Eq)]
pub enum Received {
    /// The packet is not complete, or was rejected: write the reply, if there
    /// is one, and read what the stage waits for.
    More { reply: Option<u8>, stage: ReadStage },
    /// A data packet was accepted; this is its payload. An `ACK` is owed.
    Payload(Vec<u8>),
    /// The end of the current file was read. An `ACK` is owed.
    EndOfFile,
}

/// `Received`, as mathematics.
pub ghost enum ReceivedModel {
    More { reply: Option<u8>, stage: ReadStage },
    Payload(Seq<u8>),
    EndOfFile,
}

impl View for Received {
    type V = ReceivedModel;

    open spec fn view(&self) -> ReceivedModel {
        match self {
            Received::More { reply, stage } => ReceivedModel::More { reply: *reply, stage: *stage },
            Received::Payload(bytes) => ReceivedModel::Payload(bytes@),
            Received::EndOfFile => ReceivedModel::EndOfFile,
        }
    }
}

/// What the bytes read at a stage mean.
///
/// A marker that ends a file is the end of the file. Any other marker that
/// begins no data packet is rejected at once, and nothing more is read for
/// it. After the marker of a data packet the whole rest of the frame is read,
/// whatever it holds, so that the next marker is read where the sender puts
/// it; the frame is then accepted if it decodes, and rejected if not.
pub open spec fn receive_spec(stage: ReadStage, bytes: Seq<u8>) -> ReceivedModel {
    match stage {
        ReadStage::Marker => if bytes[0] == EOT {
            ReceivedModel::EndOfFile
        } else if is_data_marker(bytes[0]) {
            ReceivedModel::More { reply: None, stage: ReadStage::Frame(bytes[0]) }
        } else {
            ReceivedModel::More { reply: Some(NAK), stage: ReadStage::Marker }
        },
        ReadStage::Frame(marker) => match decode_spec(marker, bytes) {
            Ok(PacketModel::Data { seq, payload }) => ReceivedModel::Payload(payload),
            Ok(PacketModel::EndOfTransmission) => ReceivedModel::EndOfFile,
            Err(_) => ReceivedModel::More { reply: Some(NAK), stage: ReadStage::Marker },
        },
    }
}

/// Takes the bytes that were read at `stage` and says what they mean for the
/// packet being read.
pub fn receive_packet(stage: ReadStage, bytes: &[u8]) -> (r: Received)
    requires
        bytes@.len() == wanted(stage),
    ensures
        r@ == receive_spec(stage, bytes@),
{
    match stage {
        ReadStage::Marker => {
            let marker: u8 = bytes[0];
            if marker == EOT {
                Received::EndOfFile
            } else if frame_len(marker).is_some() {
                Received::More { reply: None, stage: ReadStage::Frame(marker) }
            } else {
                Received::More { reply: Some(NAK), stage: ReadStage::Marker }
            }
        },
        ReadStage::Frame(marker) => {
            let decoded = Packet::decode(marker, bytes);
            assert(decoded_view(decoded) == decode_spec(marker, bytes@));
            match decoded {
                Ok(Packet::EndOfTransmission) => Received::EndOfFile,
                Ok(packet) => Received::Payload(packet.payload()),
                Err(_) => Received::More { reply: Some(NAK), stage: ReadStage::Marker },
            }
        },
    }
}

/// Where the receiver stands.
#[derive(Clone, Copy, Debug, PartialEq, Eq, Structural)]
pub enum ReceiverState {
    /// Reading a packet that will be the header of the next file, or the end
    /// of the batch.
    Header(ReadStage),
    /// A header was accepted; the driver resolves the file name.
    Locating,
    /// The destination was accepted; the driver creates the file.
    Creating,
    /// Reading a packet of the current file.
    Body(ReadStage),
    /// A data packet was accepted; the driver appends its payload.
    Storing,
    /// The current file has ended; the driver closes it.
    Closing,
    /// The transfer has ended.
    Finished(Outcome),
}

/// What the driver tells the receiver.
#[derive(Debug, PartialEq, Eq)]
pub enum ReceiverEvent {
    /// The bytes that were read.
    Bytes(Vec<u8>),
    /// Reading failed or timed out.
    ReadFailed,
    /// Writing or flushing failed.
    WriteFailed,
    /// The upload directory and the destination, each made canonical, or
    /// `None` where that failed.
    Located { root: Option<CanonicalPath>, target: Option<CanonicalPath> },
    /// Creating, appending to or closing the file went well, or did not.
    FileDone(bool),
}

/// A report of the driver, as mathematics.
pub ghost enum ReceiverEventModel {
    Bytes(Seq<u8>),
    ReadFailed,
    WriteFailed,
    Located { root: Option<Seq<Seq<u8>>>, target: Option<Seq<Seq<u8>>> },
    FileDone(bool),
}

impl View for ReceiverEvent {
    type V = ReceiverEventModel;

    open spec fn view(&self) -> ReceiverEventModel {
        match self {
            ReceiverEvent::Bytes(bytes) => ReceiverEventModel::Bytes(bytes@),
            ReceiverEvent::ReadFailed => ReceiverEventModel::ReadFailed,
            ReceiverEvent::WriteFailed => ReceiverEventModel::WriteFailed,
            ReceiverEvent::Located { root, target } => ReceiverEventModel::Located {
                root: option_view(*root),
                target: option_view(*target),
            },
            ReceiverEvent::FileDone(ok) => ReceiverEventModel::FileDone(*ok),
        }
    }
}

/// The one thing that a request asks for, after its bytes are written.
#[derive(Debug, PartialEq, Eq)]
pub enum ReceiverRequest {
    /// Read exactly this many bytes and report them.
    Read(usize),
    /// Join this file name to the upload directory, make both canonical and
    /// report them.
    Locate(String),
    /// Create the file at this destination and report how it went.
    Create(CanonicalPath),
    /// Append these bytes to the file and report how it went.
    Store(Vec<u8>),
    /// Close the file and report how it went.
    Close,
    /// Stop: the transfer has ended in this way.
    Finish(Outcome),
}

/// What the receiver asks of its driver: write `send`, if it holds any bytes,
/// flush, and then do what `request` says.
#[derive(Debug, PartialEq, Eq)]
pub struct ReceiverAction {
    pub send: Vec<u8>,
    pub request: ReceiverRequest,
}

/// `ReceiverRequest`, as mathematics.
pub ghost enum RequestModel {
    Read(nat),
    Locate(Seq<char>),
    Create(Seq<Seq<u8>>),
    Store(Seq<u8>),
    Close,
    Finish(Outcome),
}

/// `ReceiverAction`, as mathematics.
pub ghost struct ActionModel {
    pub send: Seq<u8>,
    pub request: RequestModel,
}

impl View for ReceiverRequest {
    type V = RequestModel;

    open spec fn view(&self) -> RequestModel {
        match self {
            ReceiverRequest::Read(n) => RequestModel::Read(*n as nat),
            ReceiverRequest::Locate(name) => RequestModel::Locate(name@),
            ReceiverRequest::Create(path) => RequestModel::Create(path@),
            ReceiverRequest::Store(bytes) => RequestModel::Store(bytes@),
            ReceiverRequest::Close => RequestModel::Close,
            ReceiverRequest::Finish(outcome) => RequestModel::Finish(*outcome),
        }
    }
}

impl View for ReceiverAction {
    type V = ActionModel;

    open spec fn view(&self) -> ActionModel {
        ActionModel { send: self.send@, request: self.request@ }
    }
}

/// The request to read a marker after writing `send`.
pub open spec fn read_marker(send: Seq<u8>) -> ActionModel {
    ActionModel { send, request: RequestModel::Read(1) }
}

/// The receiver given up for `reason`, and the request that says so.
pub open spec fn aborted(reason: AbortReason) -> (ReceiverState, ActionModel) {
    (
        ReceiverState::Finished(Outcome::Aborted(reason)),
        ActionModel {
            send: Seq::empty(),
            request: RequestModel::Finish(Outcome::Aborted(reason)),
        },
    )
}

/// The bytes written before more of a packet is read: the reply, if any.
pub open spec fn reply_bytes(reply: Option<u8>) -> Seq<u8> {
    match reply {
        Some(b) => seq![b],
        None => Seq::empty(),
    }
}

/// What follows when bytes arrive while a header is awaited.
///
/// An accepted packet is acknowledged. If its payload begins with a zero
/// byte, the batch has ended and the transfer is complete. Otherwise the
/// bytes before its first zero byte are the file's name in Shift_JIS, which
/// the driver is to resolve. The end of a file, where a header was due, is
/// acknowledged and a header is asked for again.
pub open spec fn header_step(stage: ReadStage, bytes: Seq<u8>) -> (ReceiverState, ActionModel) {
    match receive_spec(stage, bytes) {
        ReceivedModel::More { reply, stage: next } => (
            ReceiverState::Header(next),
            ActionModel { send: reply_bytes(reply), request: RequestModel::Read(wanted(next)) },
        ),
        ReceivedModel::EndOfFile => (
            ReceiverState::Header(ReadStage::Marker),
            read_marker(seq![ACK, CRC_START]),
        ),
        ReceivedModel::Payload(payload) => if ends_batch(payload) {
            (
                ReceiverState::Finished(Outcome::Completed),
                ActionModel { send: seq![ACK], request: RequestModel::Finish(Outcome::Completed) },
            )
        } else {
            (
                ReceiverState::Locating,
                ActionModel {
                    send: seq![ACK],
                    request: RequestModel::Locate(shift_jis_decoded(name_of(payload))),
                },
            )
        },
    }
}

/// What follows when bytes arrive while a packet of the current file is
/// awaited. An accepted payload is acknowledged and stored as it is, filler
/// included; the end of the file is acknowledged and the file closed.
pub open spec fn body_step(stage: ReadStage, bytes: Seq<u8>) -> (ReceiverState, ActionModel) {
    match receive_spec(stage, bytes) {
        ReceivedModel::More { reply, stage: next } => (
            ReceiverState::Body(next),
            ActionModel { send: reply_bytes(reply), request: RequestModel::Read(wanted(next)) },
        ),
        ReceivedModel::EndOfFile => (
            ReceiverState::Closing,
            ActionModel { send: seq![ACK], request: RequestModel::Close },
        ),
        ReceivedModel::Payload(payload) => (
            ReceiverState::Storing,
            ActionModel { send: seq![ACK], request: RequestModel::Store(payload) },
        ),
    }
}

/// The state and the request with which a receiver starts: it asks for a
/// transfer checked by CRC and waits for the first marker.
pub open spec fn receiver_start_spec() -> (ReceiverState, ActionModel) {
    (ReceiverState::Header(ReadStage::Marker), read_marker(seq![CRC_START]))
}

/// The state that follows `state` when the driver reports `event`, and the
/// next request.
///
/// A failed write ends the transfer. While a header is awaited, a read that
/// fails, times out or brings another number of bytes than asked for is no
/// error: the start is asked for again. Within a file it ends the transfer.
/// A destination that the guard refuses ends the transfer before any file is
/// created. A report that does not answer the request ends the transfer.
pub open spec fn receiver_next(state: ReceiverState, event: ReceiverEventModel) -> (
    ReceiverState,
    ActionModel,
) {
    match (state, event) {
        (ReceiverState::Finished(outcome), _) => (
            state,
            ActionModel { send: Seq::empty(), request: RequestModel::Finish(outcome) },
        ),
        (_, ReceiverEventModel::WriteFailed) => aborted(AbortReason::Channel),
        (ReceiverState::Header(stage), ReceiverEventModel::Bytes(bytes)) => if bytes.len()
            == wanted(stage) {
            header_step(stage, bytes)
        } else {
            receiver_start_spec()
        },
        (ReceiverState::Header(_), ReceiverEventModel::ReadFailed) => receiver_start_spec(),
        (ReceiverState::Body(stage), ReceiverEventModel::Bytes(bytes)) => if bytes.len() == wanted(
            stage,
        ) {
            body_step(stage, bytes)
        } else {
            aborted(AbortReason::Channel)
        },
        (ReceiverState::Locating, ReceiverEventModel::Located { root, target }) => match validate_spec(
            root,
            target,
        ) {
            Ok(path) => (
                ReceiverState::Creating,
                ActionModel { send: Seq::empty(), request: RequestModel::Create(path) },
            ),
            Err(_) => aborted(AbortReason::Security),
        },
        (ReceiverState::Creating, ReceiverEventModel::FileDone(true)) => (
            ReceiverState::Body(ReadStage::Marker),
            read_marker(seq![CRC_START]),
        ),
        (ReceiverState::Storing, ReceiverEventModel::FileDone(true)) => (
            ReceiverState::Body(ReadStage::Marker),
            read_marker(seq![CRC_START]),
        ),
        (ReceiverState::Closing, ReceiverEventModel::FileDone(true)) => (
            ReceiverState::Header(ReadStage::Marker),
            read_marker(seq![CRC_START]),
        ),
        _ => aborted(AbortReason::Channel),
    }
}

/// The bytes to write before more of a packet is read.
fn reply_vec(reply: Option<u8>) -> (bytes: Vec<u8>)
    ensures
        bytes@ == reply_bytes(reply),
{
    let mut bytes: Vec<u8> = Vec::new();
    match reply {
        Some(b) => {
            bytes.push(b);
        },
        None => {},
    }
    assert(bytes@ =~= reply_bytes(reply));
    bytes
}

/// The request to read a marker after asking for the next packet.
fn solicit() -> (action: ReceiverAction)
    ensures
        action@ == read_marker(seq![CRC_START]),
{
    let mut send: Vec<u8> = Vec::new();
    send.push(CRC_START);
    assert(send@ =~= seq![CRC_START]);
    ReceiverAction { send, request: ReceiverRequest::Read(1) }
}

/// The receiver given up for `reason`, and the request that says so.
fn abort(reason: AbortReason) -> (r: (ReceiverState, ReceiverAction))
    ensures
        (r.0, r.1@) == aborted(reason),
{
    (
        ReceiverState::Finished(Outcome::Aborted(reason)),
        ReceiverAction {
            send: Vec::new(),
            request: ReceiverRequest::Finish(Outcome::Aborted(reason)),
        },
    )
}

/// The one byte `ACK`.
fn acknowledgement() -> (bytes: Vec<u8>)
    ensures
        bytes@ == seq![ACK],
{
    let mut bytes: Vec<u8> = Vec::new();
    bytes.push(ACK);
    assert(bytes@ =~= seq![ACK]);
    bytes
}

/// What follows when the bytes asked for arrive while a header is awaited.
pub fn accept_header_bytes(stage: ReadStage, bytes: &[u8]) -> (r: (ReceiverState, ReceiverAction))
    requires
        bytes@.len() == wanted(stage),
    ensures
        (r.0, r.1@) == header_step(stage, bytes@),
{
    match receive_packet(stage, bytes) {
        Received::More { reply, stage: next } => (
            ReceiverState::Header(next),
            ReceiverAction { send: reply_vec(reply), request: ReceiverRequest::Read(wanted_len(next)) },
        ),
        Received::EndOfFile => {
            let mut send: Vec<u8> = Vec::new();
            send.push(ACK);
            send.push(CRC_START);
            assert(send@ =~= seq![ACK, CRC_START]);
            (
                ReceiverState::Header(ReadStage::Marker),
                ReceiverAction { send, request: ReceiverRequest::Read(1) },
            )
        },
        Received::Payload(payload) => {
            assert(payload@.len() <= 1024) by {
                lemma_payload_length(stage, bytes@);
            }
            match header_name(payload.as_slice()) {
                None => (
                    ReceiverState::Finished(Outcome::Completed),
                    ReceiverAction {
                        send: acknowledgement(),
                        request: ReceiverRequest::Finish(Outcome::Completed),
                    },
                ),
                Some(wire_name) => {
                    proof {
                        lemma_name_of(payload@);
                    }
                    match decode_name(wire_name.as_slice()) {
                        Some(name) => (
                            ReceiverState::Locating,
                            ReceiverAction {
                                send: acknowledgement(),
                                request: ReceiverRequest::Locate(name),
                            },
                        ),
                        None => {
                            assert(false);
                            abort(AbortReason::Channel)
                        },
                    }
                },
            }
        },
    }
}

/// An accepted payload has 128 or 1024 bytes.
pub proof fn lemma_payload_length(stage: ReadStage, bytes: Seq<u8>)
    requires
        receive_spec(stage, bytes) is Payload,
    ensures
        receive_spec(stage, bytes)->Payload_0.len() == 128 || receive_spec(
            stage,
            bytes,
        )->Payload_0.len() == 1024,
{
}

/// What follows when the bytes asked for arrive while a packet of the current
/// file is awaited.
pub fn accept_body_bytes(stage: ReadStage, bytes: &[u8]) -> (r: (ReceiverState, ReceiverAction))
    requires
        bytes@.len() == wanted(stage),
    ensures
        (r.0, r.1@) == body_step(stage, bytes@),
{
    match receive_packet(stage, bytes) {
        Received::More { reply, stage: next } => (
            ReceiverState::Body(next),
            ReceiverAction { send: reply_vec(reply), request: ReceiverRequest::Read(wanted_len(next)) },
        ),
        Received::EndOfFile => (
            ReceiverState::Closing,
            ReceiverAction { send: acknowledgement(), request: ReceiverRequest::Close },
        ),
        Received::Payload(payload) => (
            ReceiverState::Storing,
            ReceiverAction { send: acknowledgement(), request: ReceiverRequest::Store(payload) },
        ),
    }
}

/// The state and the request with which a receiver starts.
pub fn receiver_start() -> (r: (ReceiverState, ReceiverAction))
    ensures
        (r.0, r.1@) == receiver_start_spec(),
{
    (ReceiverState::Header(ReadStage::Marker), solicit())
}

/// Takes the driver's report in `state`; the result is the state that
/// follows and the next request.
pub fn receiver_step(state: ReceiverState, event: ReceiverEvent) -> (r: (
    ReceiverState,
    ReceiverAction,
))
    ensures
        (r.0, r.1@) == receiver_next(state, event@),
{
    match (state, event) {
        (ReceiverState::Finished(outcome), _) => (
            state,
            ReceiverAction { send: Vec::new(), request: ReceiverRequest::Finish(outcome) },
        ),
        (_, ReceiverEvent::WriteFailed) => abort(AbortReason::Channel),
        (ReceiverState::Header(stage), ReceiverEvent::Bytes(bytes)) => {
            if bytes.len() == wanted_len(stage) {
                accept_header_bytes(stage, bytes.as_slice())
            } else {
                receiver_start()
            }
        },
        (ReceiverState::Header(_), ReceiverEvent::ReadFailed) => receiver_start(),
        (ReceiverState::Body(stage), ReceiverEvent::Bytes(bytes)) => {
            if bytes.len() == wanted_len(stage) {
                accept_body_bytes(stage, bytes.as_slice())
            } else {
                abort(AbortReason::Channel)
            }
        },
        (ReceiverState::Locating, ReceiverEvent::Located { root, target }) => {
            match validate(root, target) {
                Ok(path) => (
                    ReceiverState::Creating,
                    ReceiverAction { send: Vec::new(), request: ReceiverRequest::Create(path) },
                ),
                Err(_) => abort(AbortReason::Security),
            }
        },
        (ReceiverState::Creating, ReceiverEvent::FileDone(true)) => (
            ReceiverState::Body(ReadStage::Marker),
            solicit(),
        ),
        (ReceiverState::Storing, ReceiverEvent::FileDone(true)) => (
            ReceiverState::Body(ReadStage::Marker),
            solicit(),
        ),
        (ReceiverState::Closing, ReceiverEvent::FileDone(true)) => (
            ReceiverState::Header(ReadStage::Marker),
            solicit(),
        ),
        _ => abort(AbortReason::Channel),
    }
}

/// A data packet as its sender frames it is accepted: after its marker the
/// rest of its frame is asked for, and that frame gives the payload
/// unchanged.
pub proof fn lemma_encoded_packet_is_accepted(p: PacketModel)
    requires
        p.wf(),
        p is Data,
    ensures
        receive_spec(ReadStage::Marker, seq![p.marker()]) == (ReceivedModel::More {
            reply: None,
            stage: ReadStage::Frame(p.marker()),
        }),
        wanted(ReadStage::Frame(p.marker())) == p.body().len(),
        receive_spec(ReadStage::Frame(p.marker()), p.body()) == ReceivedModel::Payload(p->payload),
{
    lemma_decode_inverts_encode(p);
}

/// The end of a file as its sender frames it is read as the end of the file.
pub proof fn lemma_encoded_end_is_accepted()
    ensures
        receive_spec(ReadStage::Marker, PacketModel::EndOfTransmission.wire())
            == ReceivedModel::EndOfFile,
{
}

/// A data packet's frame in which any single bit of the payload or of the
/// checksum was inverted on the way is rejected with `NAK`, and nothing of it
/// is handed on. `at` counts the bytes after the marker.
pub proof fn lemma_corrupted_packet_is_rejected(p: PacketModel, at: int, bit: u8)
    requires
        p.wf(),
        p is Data,
        2 <= at < p.body().len(),
        bit < 8,
    ensures
        receive_spec(ReadStage::Frame(p.marker()), flip_bit(p.body(), at, bit)) == (
        ReceivedModel::More { reply: Some(NAK), stage: ReadStage::Marker }),
{
    lemma_flipped_bit_is_detected(p, at, bit);
}

/// A data frame whose sequence byte and complement do not sum to 0xFF is
/// rejected with `NAK` once all of it has been read, whatever its checksum.
pub proof fn lemma_bad_sequence_is_rejected_after_reading(marker: u8, body: Seq<u8>)
    requires
        is_data_marker(marker),
        body.len() == wanted(ReadStage::Frame(marker)),
        body[0] + body[1] != 255,
    ensures
        receive_spec(ReadStage::Frame(marker), body) == (ReceivedModel::More {
            reply: Some(NAK),
            stage: ReadStage::Marker,
        }),
{
    lemma_bad_sequence_is_rejected(marker, body);
}

/// The receiver asks for a file to be created only in answer to a
/// destination that was resolved and lies within the resolved upload
/// directory, and the file it asks for is that destination.
pub proof fn lemma_creates_only_within_root(state: ReceiverState, event: ReceiverEventModel)
    requires
        receiver_next(state, event).1.request is Create,
    ensures
        state == ReceiverState::Locating,
        event is Located,
        event->root is Some,
        event->target is Some,
        is_within(event->root.unwrap(), event->target.unwrap()),
        receiver_next(state, event).1.request == RequestModel::Create(event->target.unwrap()),
{
    match (state, event) {
        (ReceiverState::Header(stage), ReceiverEventModel::Bytes(bytes)) => {},
        (ReceiverState::Body(stage), ReceiverEventModel::Bytes(bytes)) => {},
        _ => {},
    }
}

/// A destination that was not resolved, or that lies outside the upload
/// directory, ends the transfer as a breach of security, and no file is asked
/// for.
pub proof fn lemma_escape_aborts(root: Option<Seq<Seq<u8>>>, target: Option<Seq<Seq<u8>>>)
    requires
        root is None || target is None || !is_within(root.unwrap(), target.unwrap()),
    ensures
        receiver_next(ReceiverState::Locating, ReceiverEventModel::Located { root, target })
            == aborted(AbortReason::Security),
{
}

/// Once the transfer has ended, no report changes the state.
pub proof fn lemma_finished_is_final(outcome: Outcome, event: ReceiverEventModel)
    ensures
        receiver_next(ReceiverState::Finished(outcome), event).0 == ReceiverState::Finished(
            outcome,
        ),
        receiver_next(ReceiverState::Finished(outcome), event).1.request == RequestModel::Finish(
            outcome,
        ),
{
}

/// The header that a sender makes for a name is read as that name: the
/// receiver acknowledges it and asks where the decoded name leads. The name
/// must hold a byte, no zero byte, and fit the header.
pub proof fn lemma_header_is_read_back(wire_name: Seq<u8>)
    requires
        0 < wire_name.len() <= MAX_WIRE_NAME,
        forall|i: int| 0 <= i < wire_name.len() ==> wire_name[i] != 0,
    ensures
        header_step(ReadStage::Frame(header_model(wire_name).marker()), header_model(wire_name).body())
            == (
            ReceiverState::Locating,
            ActionModel {
                send: seq![ACK],
                request: RequestModel::Locate(shift_jis_decoded(wire_name)),
            },
        ),
{
    lemma_encoded_packet_is_accepted(header_model(wire_name));
    lemma_header_keeps_name(wire_name);
}

/// The packet that ends a batch ends the transfer: the receiver acknowledges
/// it and stops, complete.
pub proof fn lemma_end_of_batch_completes()
    ensures
        header_step(ReadStage::Frame(end_of_batch_model().marker()), end_of_batch_model().body())
            == (
            ReceiverState::Finished(Outcome::Completed),
            ActionModel { send: seq![ACK], request: RequestModel::Finish(Outcome::Completed) },
        ),
{
    lemma_encoded_packet_is_accepted(end_of_batch_model());
    lemma_end_of_batch_ends_batch();
}

/// Within a file, a data packet as its sender frames it is stored as it is:
/// its marker makes the receiver ask for the rest of the frame, the frame
/// makes it acknowledge and hand the payload over to be appended, and once
/// that is done it asks for the next packet.
pub proof fn lemma_data_packet_is_stored(p: PacketModel)
    requires
        p.wf(),
        p is Data,
    ensures
        receiver_next(
            ReceiverState::Body(ReadStage::Marker),
            ReceiverEventModel::Bytes(seq![p.marker()]),
        ) == (
            ReceiverState::Body(ReadStage::Frame(p.marker())),
            ActionModel { send: Seq::empty(), request: RequestModel::Read(p.body().len()) },
        ),
        receiver_next(
            ReceiverState::Body(ReadStage::Frame(p.marker())),
            ReceiverEventModel::Bytes(p.body()),
        ) == (
            ReceiverState::Storing,
            ActionModel { send: seq![ACK], request: RequestModel::Store(p->payload) },
        ),
        receiver_next(ReceiverState::Storing, ReceiverEventModel::FileDone(true)) == (
            ReceiverState::Body(ReadStage::Marker),
            read_marker(seq![CRC_START]),
        ),
{
    lemma_encoded_packet_is_accepted(p);
}

/// Within a file, the end of the file is acknowledged and the file closed;
/// once that is done the receiver asks for the next header.
pub proof fn lemma_end_of_file_is_closed()
    ensures
        receiver_next(
            ReceiverState::Body(ReadStage::Marker),
            ReceiverEventModel::Bytes(PacketModel::EndOfTransmission.wire()),
        ) == (
            ReceiverState::Closing,
            ActionModel { send: seq![ACK], request: RequestModel::Close },
        ),
        receiver_next(ReceiverState::Closing, ReceiverEventModel::FileDone(true)) == (
            ReceiverState::Header(ReadStage::Marker),
            read_marker(seq![CRC_START]),
        ),
{
}

} // verus!
