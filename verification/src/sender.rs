//! The sending engine: one file by XMODEM-CRC, or a batch of files by YMODEM.
//!
//! The engine decides and its driver acts. In every state the engine has one
//! request for the driver: write these bytes, flush, and read one byte; or
//! stop, the transfer has ended. The driver answers with the byte it read, or
//! with the news that the channel failed, and the engine moves on.

use crate::header::{
    encode_name, end_of_batch_model, end_of_batch_packet, header_model, header_packet,
    shift_jis_encoded, MAX_NAME_BYTES, MAX_WIRE_NAME,
};
use crate::packet::{Packet, PacketModel, ACK, CRC_START, EOT, FILLER};
use crate::transfer::{AbortReason, Outcome};
use vstd::prelude::*;
use vstd::string::StringSliceAdditionalSpecFns;

verus! {

/// Whether one file is sent bare, or a batch of files, each behind a header.
#[derive(Clone, Copy, Debug, PartialEq, Eq, Structural)]
pub enum Mode {
    Single,
    Batch,
}

/// The size of the data packets that carry a file.
#[derive(Clone, Copy, Debug, PartialEq, Eq, Structural)]
pub enum BlockSize {
    /// 128 bytes.
    Short,
    /// 1024 bytes.
    Long,
}

impl BlockSize {
    /// The number of payload bytes in a packet of this size.
    pub open spec fn bytes(self) -> nat {
        match self {
            BlockSize::Short => 128,
            BlockSize::Long => 1024,
        }
    }

    /// The number of payload bytes in a packet of this size.
    pub fn len(self) -> (n: usize)
        ensures
            n == self.bytes(),
    {
        match self {
            BlockSize::Short => 128,
            BlockSize::Long => 1024,
        }
    }
}

/// The number of data packets that carry a file of `len` bytes: one for each
/// block of the file, the last of which may be short. A file whose length is
/// a multiple of the block size has no short block, and an empty file has no
/// block at all.
pub open spec fn packet_count(len: nat, size: BlockSize) -> nat {
    ((len + size.bytes() - 1) / (size.bytes() as int)) as nat
}

/// The number of data packets that carry a file of `len` bytes.
pub fn count_packets(len: usize, size: BlockSize) -> (n: usize)
    ensures
        n == packet_count(len as nat, size),
{
    let block: usize = size.len();
    if len % block == 0 {
        len / block
    } else {
        len / block + 1
    }
}

/// The packets of a file are as many as its blocks, rounded up: they hold
/// the whole file, the last of them holds at least one byte of it, and a
/// file of a whole number of blocks has exactly that number of packets.
pub proof fn lemma_packet_count_rounds_up(len: nat, size: BlockSize)
    ensures
        len <= packet_count(len, size) * size.bytes() < len + size.bytes(),
        len % size.bytes() == 0 ==> packet_count(len, size) == len / size.bytes(),
        len % size.bytes() != 0 ==> packet_count(len, size) == len / size.bytes() + 1,
        packet_count(len, size) == 0 <==> len == 0,
{
    match size {
        BlockSize::Short => {
            assert(packet_count(len, size) == (len + 127) / 128);
        },
        BlockSize::Long => {
            assert(packet_count(len, size) == (len + 1023) / 1024);
        },
    }
}

/// The payload of a file's data packet number `k`, counted from 0: the file's
/// bytes from `k` blocks on, and the filler byte where the file has ended.
pub open spec fn block_payload(data: Seq<u8>, k: nat, size: BlockSize) -> Seq<u8> {
    Seq::new(
        size.bytes(),
        |j: int|
            if k * size.bytes() + j < data.len() {
                data[k * size.bytes() + j]
            } else {
                FILLER
            },
    )
}

/// The sequence number of data packet number `k`: they start at 1 and wrap
/// from 255 to 0.
pub open spec fn sequence_number(k: nat) -> u8 {
    ((k + 1) % 256) as u8
}

/// A file's data packet number `k`, counted from 0.
pub open spec fn data_model(data: Seq<u8>, k: nat, size: BlockSize) -> PacketModel {
    PacketModel::Data { seq: sequence_number(k), payload: block_payload(data, k, size) }
}

/// The byte of a file's data packet number `k` at index `j` of its payload.
fn block_byte(data: &[u8], k: usize, size: BlockSize, j: usize) -> (b: u8)
    requires
        j < size.bytes(),
    ensures
        b == block_payload(data@, k as nat, size)[j as int],
{
    let block: u128 = size.len() as u128;
    let at: u128 = (k as u128) * block + (j as u128);
    assert(at == k * size.bytes() + j) by (nonlinear_arith)
        requires
            at == (k as u128) * block + (j as u128),
            block == size.bytes(),
            block <= 1024,
            k <= usize::MAX,
            j < 1024,
            (k as u128) * block + (j as u128) <= u128::MAX,
    ;
    if at < data.len() as u128 {
        data[at as usize]
    } else {
        FILLER
    }
}

/// A file's data packet number `k`, counted from 0, in blocks of `size`.
pub fn data_packet(data: &[u8], k: usize, size: BlockSize) -> (packet: Packet)
    ensures
        packet@ == data_model(data@, k as nat, size),
{
    let low: usize = k % 256;
    let seq: u8 = if low == 255 {
        0
    } else {
        (low + 1) as u8
    };
    match size {
        BlockSize::Short => {
            let mut payload: [u8; 128] = [0u8; 128];
            let mut j: usize = 0;
            while j < 128
                invariant
                    0 <= j <= 128,
                    size == BlockSize::Short,
                    forall|i: int|
                        0 <= i < j ==> payload@[i] == block_payload(data@, k as nat, size)[i],
                decreases 128 - j,
            {
                payload[j] = block_byte(data, k, size, j);
                j = j + 1;
            }
            assert(payload@ =~= block_payload(data@, k as nat, size));
            Packet::Data128 { seq, payload }
        },
        BlockSize::Long => {
            let mut payload: [u8; 1024] = [0u8; 1024];
            let mut j: usize = 0;
            while j < 1024
                invariant
                    0 <= j <= 1024,
                    size == BlockSize::Long,
                    forall|i: int|
                        0 <= i < j ==> payload@[i] == block_payload(data@, k as nat, size)[i],
                decreases 1024 - j,
            {
                payload[j] = block_byte(data, k, size, j);
                j = j + 1;
            }
            assert(payload@ =~= block_payload(data@, k as nat, size));
            Packet::Data1024 { seq, payload }
        },
    }
}

/// A file to send, as mathematics: the name as it travels in the header, and
/// the contents.
pub ghost struct FileModel {
    pub name: Seq<u8>,
    pub data: Seq<u8>,
}

impl FileModel {
    /// The name fits a header, and the contents fit in memory.
    pub open spec fn wf(self) -> bool {
        self.name.len() <= MAX_WIRE_NAME && self.data.len() <= usize::MAX
    }
}

/// A file to send: its encoded name and its contents.
#[derive(Debug)]
pub struct SourceFile {
    name: Vec<u8>,
    data: Vec<u8>,
}

impl View for SourceFile {
    type V = FileModel;

    closed spec fn view(&self) -> FileModel {
        FileModel { name: self.name@, data: self.data@ }
    }
}

impl SourceFile {
    /// The name fits a header, and the contents fit in memory.
    pub open spec fn wf(&self) -> bool {
        self@.wf()
    }

    /// A file to send under an encoded name, or `None` for a name of more
    /// than 127 bytes, which no header holds.
    pub fn from_wire_name(wire_name: Vec<u8>, data: Vec<u8>) -> (file: Option<SourceFile>)
        ensures
            match file {
                Some(f) => wire_name@.len() <= MAX_WIRE_NAME && f.wf() && f@ == (FileModel {
                    name: wire_name@,
                    data: data@,
                }),
                None => wire_name@.len() > MAX_WIRE_NAME,
            },
    {
        if wire_name.len() > MAX_WIRE_NAME {
            None
        } else {
            let size: usize = data.len();
            assert(data@.len() == size);
            Some(SourceFile { name: wire_name, data })
        }
    }

    /// A file to send under `name`, which travels in Shift_JIS. `None` for a
    /// name of more than `MAX_NAME_BYTES` bytes of UTF-8, or one whose
    /// encoding has more than 127 bytes.
    pub fn new(name: &str, data: Vec<u8>) -> (file: Option<SourceFile>)
        ensures
            match file {
                Some(f) => {
                    &&& name.spec_bytes().len() <= MAX_NAME_BYTES
                    &&& shift_jis_encoded(name@).len() <= MAX_WIRE_NAME
                    &&& f.wf()
                    &&& f@ == (FileModel { name: shift_jis_encoded(name@), data: data@ })
                },
                None => name.spec_bytes().len() > MAX_NAME_BYTES || shift_jis_encoded(name@).len()
                    > MAX_WIRE_NAME,
            },
    {
        match encode_name(name) {
            Some(wire_name) => SourceFile::from_wire_name(wire_name, data),
            None => None,
        }
    }

    /// The name as it travels in the header.
    pub fn wire_name(&self) -> (name: &Vec<u8>)
        ensures
            name@ == self@.name,
    {
        &self.name
    }

    /// The contents.
    pub fn data(&self) -> (data: &Vec<u8>)
        ensures
            data@ == self@.data,
    {
        &self.data
    }
}

/// Where the sender stands. In every stage but the first and the last, a
/// frame has been sent and its acknowledgement is awaited.
#[derive(Clone, Copy, Debug, PartialEq, Eq, Structural)]
pub enum SendStage {
    /// Waiting for the receiver's request to start.
    AwaitStart,
    /// The header of the current file.
    Header,
    /// The current file's data packet of this number, counted from 0.
    Data(usize),
    /// The end of the current file.
    EndOfFile,
    /// The packet that ends the batch.
    BatchEnd,
    /// The transfer has ended.
    Finished(Outcome),
}

/// What the driver tells the sender.
#[derive(Clone, Copy, Debug, PartialEq, Eq, Structural)]
pub enum SenderEvent {
    /// The byte that was read.
    Byte(u8),
    /// Writing or reading failed.
    Failed,
}

/// What the sender asks of its driver.
#[derive(Debug, PartialEq, Eq)]
pub enum SenderAction {
    /// Write these bytes, if any, flush, then read one byte and report it.
    Exchange(Vec<u8>),
    /// Stop: the transfer has ended in this way.
    Finish(Outcome),
}

/// A request of the sender, as mathematics.
pub ghost enum SenderActionModel {
    Exchange(Seq<u8>),
    Finish(Outcome),
}

impl View for SenderAction {
    type V = SenderActionModel;

    open spec fn view(&self) -> SenderActionModel {
        match self {
            SenderAction::Exchange(bytes) => SenderActionModel::Exchange(bytes@),
            SenderAction::Finish(outcome) => SenderActionModel::Finish(*outcome),
        }
    }
}

/// The sender, as mathematics.
pub ghost struct SenderModel {
    pub mode: Mode,
    pub size: BlockSize,
    pub files: Seq<FileModel>,
    /// The index of the current file.
    pub current: nat,
    pub stage: SendStage,
}

impl SenderModel {
    /// The current file.
    pub open spec fn file(self) -> FileModel {
        self.files[self.current as int]
    }

    /// The states that a sender can be in.
    pub open spec fn wf(self) -> bool {
        &&& self.current <= self.files.len()
        &&& forall|i: int| 0 <= i < self.files.len() ==> (#[trigger] self.files[i]).wf()
        &&& self.mode == Mode::Single ==> self.files.len() == 1
        &&& match self.stage {
            SendStage::AwaitStart => self.current == 0,
            SendStage::Header => self.mode == Mode::Batch && self.current < self.files.len(),
            SendStage::Data(k) => self.current < self.files.len() && k < packet_count(
                self.file().data.len(),
                self.size,
            ),
            SendStage::EndOfFile => self.current < self.files.len(),
            SendStage::BatchEnd => self.mode == Mode::Batch && self.current == self.files.len(),
            SendStage::Finished(_) => true,
        }
    }

    /// The stage in which the current file's contents begin: its first data
    /// packet, or the end of the file where it is empty.
    pub open spec fn first_stage(self) -> SendStage {
        if packet_count(self.file().data.len(), self.size) == 0 {
            SendStage::EndOfFile
        } else {
            SendStage::Data(0)
        }
    }

    /// The sender in another stage.
    pub open spec fn at(self, stage: SendStage) -> SenderModel {
        SenderModel { stage, ..self }
    }

    /// The request that the sender has for its driver in this state.
    pub open spec fn action(self) -> SenderActionModel {
        match self.stage {
            SendStage::AwaitStart => SenderActionModel::Exchange(Seq::empty()),
            SendStage::Header => SenderActionModel::Exchange(header_model(self.file().name).wire()),
            SendStage::Data(k) => SenderActionModel::Exchange(
                data_model(self.file().data, k as nat, self.size).wire(),
            ),
            SendStage::EndOfFile => SenderActionModel::Exchange(seq![EOT]),
            SendStage::BatchEnd => SenderActionModel::Exchange(end_of_batch_model().wire()),
            SendStage::Finished(outcome) => SenderActionModel::Finish(outcome),
        }
    }

    /// The state that follows when the driver reports `event`.
    ///
    /// A failure of the channel ends the transfer. Before the start, the byte
    /// `C` starts the transfer; any other byte is dropped in a batch, and ends
    /// the transfer of a single file as a request for a mode that is not
    /// offered. After a header, a data packet or the end of the batch, `ACK`
    /// moves on and any other byte leaves the state as it is, so the same
    /// frame goes out again. After the end of a file any byte moves on. The
    /// end of a file follows its last data packet, and for an empty file it
    /// follows the header, or the start, at once.
    pub open spec fn next(self, event: SenderEvent) -> SenderModel {
        match (self.stage, event) {
            (SendStage::Finished(_), _) => self,
            (_, SenderEvent::Failed) => self.at(
                SendStage::Finished(Outcome::Aborted(AbortReason::Channel)),
            ),
            (SendStage::AwaitStart, SenderEvent::Byte(b)) => if b == CRC_START {
                if self.mode == Mode::Single {
                    self.at(self.first_stage())
                } else if self.current < self.files.len() {
                    self.at(SendStage::Header)
                } else {
                    self.at(SendStage::BatchEnd)
                }
            } else if self.mode == Mode::Single {
                self.at(SendStage::Finished(Outcome::Aborted(AbortReason::UnsupportedMode(b))))
            } else {
                self
            },
            (SendStage::Header, SenderEvent::Byte(b)) => if b == ACK {
                self.at(self.first_stage())
            } else {
                self
            },
            (SendStage::Data(k), SenderEvent::Byte(b)) => if b != ACK {
                self
            } else if k + 1 < packet_count(self.file().data.len(), self.size) {
                self.at(SendStage::Data((k + 1) as usize))
            } else {
                self.at(SendStage::EndOfFile)
            },
            (SendStage::EndOfFile, SenderEvent::Byte(_)) => if self.mode == Mode::Single {
                self.at(SendStage::Finished(Outcome::Completed))
            } else if self.current + 1 < self.files.len() {
                SenderModel { current: self.current + 1, stage: SendStage::Header, ..self }
            } else {
                SenderModel { current: self.current + 1, stage: SendStage::BatchEnd, ..self }
            },
            (SendStage::BatchEnd, SenderEvent::Byte(b)) => if b == ACK {
                self.at(SendStage::Finished(Outcome::Completed))
            } else {
                self
            },
        }
    }
}

/// The views of a list of files.
pub open spec fn file_models(files: Seq<SourceFile>) -> Seq<FileModel> {
    Seq::new(files.len(), |i: int| files[i]@)
}

/// The sending engine.
#[derive(Debug)]
pub struct Sender {
    mode: Mode,
    size: BlockSize,
    files: Vec<SourceFile>,
    current: usize,
    stage: SendStage,
}

impl View for Sender {
    type V = SenderModel;

    closed spec fn view(&self) -> SenderModel {
        SenderModel {
            mode: self.mode,
            size: self.size,
            files: file_models(self.files@),
            current: self.current as nat,
            stage: self.stage,
        }
    }
}

impl Sender {
    /// The sender is in one of the states that a sender can be in.
    pub open spec fn wf(&self) -> bool {
        self@.wf()
    }

    /// A sender for one file, sent bare in data packets of `size`.
    pub fn single(data: Vec<u8>, size: BlockSize) -> (sender: Sender)
        ensures
            sender.wf(),
            sender@ == (SenderModel {
                mode: Mode::Single,
                size,
                files: seq![FileModel { name: Seq::empty(), data: data@ }],
                current: 0,
                stage: SendStage::AwaitStart,
            }),
    {
        let mut files: Vec<SourceFile> = Vec::new();
        let size_of_data: usize = data.len();
        assert(data@.len() == size_of_data);
        files.push(SourceFile { name: Vec::new(), data });
        let sender = Sender {
            mode: Mode::Single,
            size,
            files,
            current: 0,
            stage: SendStage::AwaitStart,
        };
        assert(sender@.files =~= seq![FileModel { name: Seq::empty(), data: data@ }]);
        sender
    }

    /// A sender for a batch of files, sent in this order, each behind its
    /// header, in data packets of `size`.
    pub fn batch(files: Vec<SourceFile>, size: BlockSize) -> (sender: Sender)
        requires
            forall|i: int| 0 <= i < files@.len() ==> files@[i].wf(),
        ensures
            sender.wf(),
            sender@ == (SenderModel {
                mode: Mode::Batch,
                size,
                files: file_models(files@),
                current: 0,
                stage: SendStage::AwaitStart,
            }),
    {
        Sender { mode: Mode::Batch, size, files, current: 0, stage: SendStage::AwaitStart }
    }

    /// The request that the sender has for its driver.
    pub fn request(&self) -> (action: SenderAction)
        requires
            self.wf(),
        ensures
            action@ == self@.action(),
    {
        match self.stage {
            SendStage::AwaitStart => SenderAction::Exchange(Vec::new()),
            SendStage::Header => {
                match header_packet(self.files[self.current].name.as_slice()) {
                    Some(packet) => SenderAction::Exchange(packet.encode()),
                    None => SenderAction::Exchange(Vec::new()),
                }
            },
            SendStage::Data(k) => {
                let packet = data_packet(self.files[self.current].data.as_slice(), k, self.size);
                SenderAction::Exchange(packet.encode())
            },
            SendStage::EndOfFile => SenderAction::Exchange(Packet::EndOfTransmission.encode()),
            SendStage::BatchEnd => SenderAction::Exchange(end_of_batch_packet().encode()),
            SendStage::Finished(outcome) => SenderAction::Finish(outcome),
        }
    }

    /// The stage in which the current file's contents begin.
    fn first(&self) -> (stage: SendStage)
        requires
            self@.current < self@.files.len(),
        ensures
            stage == self@.first_stage(),
    {
        if self.files[self.current].data.len() == 0 {
            SendStage::EndOfFile
        } else {
            SendStage::Data(0)
        }
    }

    /// Takes the driver's report and moves on; the result is the next
    /// request.
    pub fn step(&mut self, event: SenderEvent) -> (action: SenderAction)
        requires
            old(self).wf(),
        ensures
            final(self).wf(),
            final(self)@ == old(self)@.next(event),
            action@ == final(self)@.action(),
    {
        match (self.stage, event) {
            (SendStage::Finished(_), _) => {},
            (_, SenderEvent::Failed) => {
                self.stage = SendStage::Finished(Outcome::Aborted(AbortReason::Channel));
            },
            (SendStage::AwaitStart, SenderEvent::Byte(b)) => {
                if b == CRC_START {
                    match self.mode {
                        Mode::Single => {
                            self.stage = self.first();
                        },
                        Mode::Batch => {
                            if self.current < self.files.len() {
                                self.stage = SendStage::Header;
                            } else {
                                self.stage = SendStage::BatchEnd;
                            }
                        },
                    }
                } else {
                    match self.mode {
                        Mode::Single => {
                            self.stage = SendStage::Finished(
                                Outcome::Aborted(AbortReason::UnsupportedMode(b)),
                            );
                        },
                        Mode::Batch => {},
                    }
                }
            },
            (SendStage::Header, SenderEvent::Byte(b)) => {
                if b == ACK {
                    self.stage = self.first();
                }
            },
            (SendStage::Data(k), SenderEvent::Byte(b)) => {
                if b == ACK {
                    let len: usize = self.files[self.current].data.len();
                    let count: usize = count_packets(len, self.size);
                    if k + 1 < count {
                        self.stage = SendStage::Data(k + 1);
                    } else {
                        self.stage = SendStage::EndOfFile;
                    }
                }
            },
            (SendStage::EndOfFile, SenderEvent::Byte(_)) => {
                match self.mode {
                    Mode::Single => {
                        self.stage = SendStage::Finished(Outcome::Completed);
                    },
                    Mode::Batch => {
                        let count: usize = self.files.len();
                        assert(self@.current < count);
                        self.current = self.current + 1;
                        if self.current < count {
                            self.stage = SendStage::Header;
                        } else {
                            self.stage = SendStage::BatchEnd;
                        }
                    },
                }
            },
            (SendStage::BatchEnd, SenderEvent::Byte(b)) => {
                if b == ACK {
                    self.stage = SendStage::Finished(Outcome::Completed);
                }
            },
        }
        self.request()
    }

    /// How the transfer ended, or `None` while it is under way.
    pub fn outcome(&self) -> (outcome: Option<Outcome>)
        ensures
            outcome == match self@.stage {
                SendStage::Finished(o) => Some(o),
                _ => None,
            },
    {
        match self.stage {
            SendStage::Finished(o) => Some(o),
            _ => None,
        }
    }
}

/// The frame that a request puts on the wire: its bytes, where it has any.
pub open spec fn frame_of(action: SenderActionModel) -> Seq<Seq<u8>> {
    match action {
        SenderActionModel::Exchange(bytes) => if bytes.len() > 0 {
            seq![bytes]
        } else {
            Seq::empty()
        },
        SenderActionModel::Finish(_) => Seq::empty(),
    }
}

impl SenderModel {
    /// The state after the driver has reported each byte of `replies` in
    /// turn.
    pub open spec fn after(self, replies: Seq<u8>) -> SenderModel
        decreases replies.len(),
    {
        if replies.len() == 0 {
            self
        } else {
            self.next(SenderEvent::Byte(replies[0])).after(replies.skip(1))
        }
    }

    /// The frames that go out, in order, while the driver reports each byte
    /// of `replies` in turn: one for every request that was answered.
    pub open spec fn sent(self, replies: Seq<u8>) -> Seq<Seq<u8>>
        decreases replies.len(),
    {
        if replies.len() == 0 {
            Seq::empty()
        } else {
            frame_of(self.action()) + self.next(SenderEvent::Byte(replies[0])).sent(
                replies.skip(1),
            )
        }
    }
}

/// `n` acknowledgements.
pub open spec fn acks(n: nat) -> Seq<u8> {
    Seq::new(n, |i: int| ACK)
}

/// The frames of a file's data packets from number `from` on, in order.
pub open spec fn data_frames(data: Seq<u8>, from: nat, size: BlockSize) -> Seq<Seq<u8>> {
    Seq::new(
        (packet_count(data.len(), size) - from) as nat,
        |i: int| data_model(data, (from + i) as nat, size).wire(),
    )
}

/// The frames that carry one file of a batch: its header, its data packets,
/// and the end of the file.
pub open spec fn file_frames(file: FileModel, size: BlockSize) -> Seq<Seq<u8>> {
    seq![header_model(file.name).wire()] + data_frames(file.data, 0, size) + seq![seq![EOT]]
}

/// The frames that carry the files of a batch from index `from` on, and the
/// packet that ends the batch.
pub open spec fn batch_frames(files: Seq<FileModel>, from: nat, size: BlockSize) -> Seq<Seq<u8>>
    decreases files.len() - from,
{
    if from >= files.len() {
        seq![end_of_batch_model().wire()]
    } else {
        file_frames(files[from as int], size) + batch_frames(files, from + 1, size)
    }
}

/// The replies of a receiver that accepts every frame of the files of a batch
/// from index `from` on: an acknowledgement for each header, each data packet
/// and each end of a file, and one for the end of the batch.
pub open spec fn batch_acks(files: Seq<FileModel>, from: nat, size: BlockSize) -> Seq<u8>
    decreases files.len() - from,
{
    if from >= files.len() {
        acks(1)
    } else {
        acks(packet_count(files[from as int].data.len(), size) + 2) + batch_acks(
            files,
            from + 1,
            size,
        )
    }
}

/// The payloads of a file's first `n` data packets, one after the other.
pub open spec fn payloads(data: Seq<u8>, n: nat, size: BlockSize) -> Seq<u8>
    decreases n,
{
    if n == 0 {
        Seq::empty()
    } else {
        payloads(data, (n - 1) as nat, size) + block_payload(data, (n - 1) as nat, size)
    }
}

/// A file filled up with the filler byte to `n` whole blocks.
pub open spec fn padded(data: Seq<u8>, n: nat, size: BlockSize) -> Seq<u8> {
    Seq::new(
        n * size.bytes(),
        |i: int|
            if i < data.len() {
                data[i]
            } else {
                FILLER
            },
    )
}

/// The payloads of a file's first `n` data packets, one after the other, are
/// the file's first `n` blocks, with filler where the file has ended.
pub proof fn lemma_payloads_are_padded_file(data: Seq<u8>, n: nat, size: BlockSize)
    ensures
        payloads(data, n, size) == padded(data, n, size),
    decreases n,
{
    if n == 0 {
        assert(payloads(data, n, size) =~= padded(data, n, size));
    } else {
        lemma_payloads_are_padded_file(data, (n - 1) as nat, size);
        match size {
            BlockSize::Short => {
                assert(payloads(data, n, size) =~= padded(data, n, size));
            },
            BlockSize::Long => {
                assert(payloads(data, n, size) =~= padded(data, n, size));
            },
        }
    }
}

/// What all the data packets of a file carry together is the file itself,
/// followed by filler bytes: fewer than a block of them, and none where the
/// file is a whole number of blocks.
pub proof fn lemma_packets_rebuild_file(data: Seq<u8>, size: BlockSize)
    ensures
        ({
            let all = payloads(data, packet_count(data.len(), size), size);
            &&& all.len() == packet_count(data.len(), size) * size.bytes()
            &&& data.len() <= all.len() < data.len() + size.bytes()
            &&& data.len() % size.bytes() == 0 ==> all == data
            &&& all.subrange(0, data.len() as int) == data
            &&& forall|i: int| data.len() <= i < all.len() ==> all[i] == FILLER
        }),
{
    let n = packet_count(data.len(), size);
    lemma_payloads_are_padded_file(data, n, size);
    let all = padded(data, n, size);
    match size {
        BlockSize::Short => {
            assert(n == (data.len() + 127) / 128);
            assert(data.len() <= n * 128 < data.len() + 128);
            assert(all.subrange(0, data.len() as int) =~= data);
            if data.len() % 128 == 0 {
                assert(all =~= data);
            }
        },
        BlockSize::Long => {
            assert(n == (data.len() + 1023) / 1024);
            assert(data.len() <= n * 1024 < data.len() + 1024);
            assert(all.subrange(0, data.len() as int) =~= data);
            if data.len() % 1024 == 0 {
                assert(all =~= data);
            }
        },
    }
}

/// Reports that come one after the other: the frames are those of the first
/// reports followed by those of the rest, and the state is the state after
/// both.
pub proof fn lemma_run_in_two(m: SenderModel, first: Seq<u8>, rest: Seq<u8>)
    ensures
        m.after(first + rest) == m.after(first).after(rest),
        m.sent(first + rest) == m.sent(first) + m.after(first).sent(rest),
    decreases first.len(),
{
    if first.len() == 0 {
        assert(first + rest =~= rest);
        assert(m.sent(first) + m.after(first).sent(rest) =~= m.sent(rest));
    } else {
        let step = m.next(SenderEvent::Byte(first[0]));
        assert((first + rest).skip(1) =~= first.skip(1) + rest);
        lemma_run_in_two(step, first.skip(1), rest);
        assert(m.sent(first + rest) =~= m.sent(first) + m.after(first).sent(rest));
    }
}

/// From a data packet on, a receiver that acknowledges every packet gets the
/// rest of the file's data packets in order, each once, and the sender then
/// stands at the end of the file.
pub proof fn lemma_data_run(m: SenderModel, k: usize)
    requires
        m.wf(),
        m.stage == SendStage::Data(k),
    ensures
        ({
            let n = packet_count(m.file().data.len(), m.size);
            &&& m.after(acks((n - k) as nat)) == m.at(SendStage::EndOfFile)
            &&& m.sent(acks((n - k) as nat)) == data_frames(m.file().data, k as nat, m.size)
        }),
    decreases packet_count(m.file().data.len(), m.size) - k,
{
    let data = m.file().data;
    let n = packet_count(data.len(), m.size);
    let replies = acks((n - k) as nat);
    let step = m.next(SenderEvent::Byte(replies[0]));
    let frame = data_model(data, k as nat, m.size).wire();
    assert(frame.len() > 0);
    assert(frame_of(m.action()) == seq![frame]);
    assert(replies.skip(1) =~= acks((n - k - 1) as nat));
    assert(m.sent(replies) == seq![frame] + step.sent(replies.skip(1)));
    assert(m.after(replies) == step.after(replies.skip(1)));
    if k + 1 < n {
        assert(m.files[m.current as int].wf());
        assert(n <= usize::MAX) by {
            match m.size {
                BlockSize::Short => {
                    assert(n == (data.len() + 127) / 128);
                },
                BlockSize::Long => {
                    assert(n == (data.len() + 1023) / 1024);
                },
            }
        }
        assert(step == m.at(SendStage::Data((k + 1) as usize)));
        lemma_data_run(step, (k + 1) as usize);
        assert(step.file() == m.file());
        assert(step.at(SendStage::EndOfFile) == m.at(SendStage::EndOfFile));
        assert(seq![frame] + data_frames(data, (k + 1) as nat, m.size) =~= data_frames(
            data,
            k as nat,
            m.size,
        ));
    } else {
        assert(step == m.at(SendStage::EndOfFile));
        assert(step.sent(acks(0)) =~= Seq::<Seq<u8>>::empty());
        assert(step.after(acks(0)) == step);
        assert(seq![frame] + Seq::<Seq<u8>>::empty() =~= data_frames(data, k as nat, m.size));
    }
}

/// From the start of a file's contents on, a receiver that acknowledges
/// every packet gets all the file's data packets in order, each once, and
/// the sender then stands at the end of the file. For an empty file nothing
/// goes out and the sender stands there already.
pub proof fn lemma_contents_run(m: SenderModel)
    requires
        m.wf(),
        m.current < m.files.len(),
        m.stage == m.first_stage(),
    ensures
        ({
            let n = packet_count(m.file().data.len(), m.size);
            &&& m.after(acks(n)) == m.at(SendStage::EndOfFile)
            &&& m.sent(acks(n)) == data_frames(m.file().data, 0, m.size)
        }),
{
    let n = packet_count(m.file().data.len(), m.size);
    if n == 0 {
        assert(m.sent(acks(n)) =~= data_frames(m.file().data, 0, m.size));
    } else {
        lemma_data_run(m, 0);
    }
}

/// A single file, sent to a receiver that asks for CRC and acknowledges
/// every packet: what goes out is the file's data packets in order, each
/// once, one for each block of the file, and then the end of the file; and
/// the transfer is complete whatever byte answers the end of the file.
pub proof fn lemma_single_file_run(data: Seq<u8>, size: BlockSize, last: u8)
    requires
        data.len() <= usize::MAX,
    ensures
        ({
            let m = SenderModel {
                mode: Mode::Single,
                size,
                files: seq![FileModel { name: Seq::empty(), data }],
                current: 0,
                stage: SendStage::AwaitStart,
            };
            let replies = seq![CRC_START] + acks(packet_count(data.len(), size)) + seq![last];
            &&& m.sent(replies) == data_frames(data, 0, size) + seq![seq![EOT]]
            &&& m.after(replies).stage == SendStage::Finished(Outcome::Completed)
        }),
{
    let m = SenderModel {
        mode: Mode::Single,
        size,
        files: seq![FileModel { name: Seq::empty(), data }],
        current: 0,
        stage: SendStage::AwaitStart,
    };
    let n = packet_count(data.len(), size);
    let start = m.at(m.first_stage());
    let end = m.at(SendStage::EndOfFile);
    assert(m.wf());
    assert(start.wf());
    assert(start.file().data == data);
    lemma_run_in_two(m, seq![CRC_START], acks(n) + seq![last]);
    assert(seq![CRC_START] + (acks(n) + seq![last]) =~= seq![CRC_START] + acks(n) + seq![last]);
    lemma_one_report(m, CRC_START);
    lemma_run_in_two(start, acks(n), seq![last]);
    lemma_contents_run(start);
    lemma_one_report(end, last);
    assert(frame_of(m.action()) =~= Seq::<Seq<u8>>::empty());
    assert(frame_of(end.action()) =~= seq![seq![EOT]]);
    assert(Seq::<Seq<u8>>::empty() + (data_frames(data, 0, size) + seq![seq![EOT]])
        =~= data_frames(data, 0, size) + seq![seq![EOT]]);
}

/// One report: the frame of the pending request goes out, and the state
/// moves once.
pub proof fn lemma_one_report(m: SenderModel, reply: u8)
    ensures
        m.after(seq![reply]) == m.next(SenderEvent::Byte(reply)),
        m.sent(seq![reply]) == frame_of(m.action()),
{
    let step = m.next(SenderEvent::Byte(reply));
    assert(seq![reply].skip(1) =~= Seq::<u8>::empty());
    assert(step.after(Seq::<u8>::empty()) == step);
    assert(step.sent(Seq::<u8>::empty()) =~= Seq::<Seq<u8>>::empty());
    assert(m.sent(seq![reply]) =~= frame_of(m.action()));
}

/// From the header of a file on, a receiver that acknowledges every frame
/// gets that file's frames in order, each once, and the sender then stands
/// at the next file, or at the end of the batch.
pub proof fn lemma_file_run(m: SenderModel)
    requires
        m.wf(),
        m.stage == SendStage::Header,
    ensures
        ({
            let n = packet_count(m.file().data.len(), m.size);
            let then = SenderModel {
                current: m.current + 1,
                stage: if m.current + 1 < m.files.len() {
                    SendStage::Header
                } else {
                    SendStage::BatchEnd
                },
                ..m
            };
            &&& m.after(acks(n + 2)) == then
            &&& m.sent(acks(n + 2)) == file_frames(m.file(), m.size)
            &&& then.wf()
        }),
{
    let n = packet_count(m.file().data.len(), m.size);
    let start = m.at(m.first_stage());
    let end = m.at(SendStage::EndOfFile);
    let header = header_model(m.file().name).wire();
    assert(acks(n + 2) =~= seq![ACK] + acks(n) + seq![ACK]);
    assert(seq![ACK] + (acks(n) + seq![ACK]) =~= seq![ACK] + acks(n) + seq![ACK]);
    lemma_run_in_two(m, seq![ACK], acks(n) + seq![ACK]);
    lemma_one_report(m, ACK);
    assert(header.len() > 0);
    assert(frame_of(m.action()) =~= seq![header]);
    assert(start.wf());
    lemma_run_in_two(start, acks(n), seq![ACK]);
    lemma_contents_run(start);
    lemma_one_report(end, ACK);
    assert(frame_of(end.action()) =~= seq![seq![EOT]]);
    assert(seq![header] + (data_frames(m.file().data, 0, m.size) + seq![seq![EOT]])
        =~= file_frames(m.file(), m.size));
}

/// From a file of a batch on, a receiver that acknowledges every frame gets
/// the frames of that file and of every later one, in order, and then the
/// packet that ends the batch; and the transfer is complete.
pub proof fn lemma_batch_run_from(m: SenderModel)
    requires
        m.wf(),
        m.mode == Mode::Batch,
        m.stage == SendStage::Header || m.stage == SendStage::BatchEnd,
    ensures
        m.sent(batch_acks(m.files, m.current, m.size)) == batch_frames(
            m.files,
            m.current,
            m.size,
        ),
        m.after(batch_acks(m.files, m.current, m.size)).stage == SendStage::Finished(
            Outcome::Completed,
        ),
    decreases m.files.len() - m.current,
{
    if m.current >= m.files.len() {
        assert(acks(1) =~= seq![ACK]);
        lemma_one_report(m, ACK);
        let last = end_of_batch_model().wire();
        assert(last.len() > 0);
        assert(frame_of(m.action()) =~= seq![last]);
    } else {
        let n = packet_count(m.file().data.len(), m.size);
        let rest = batch_acks(m.files, m.current + 1, m.size);
        lemma_file_run(m);
        lemma_run_in_two(m, acks(n + 2), rest);
        lemma_batch_run_from(m.after(acks(n + 2)));
    }
}

/// A batch of files, sent to a receiver that asks for CRC and acknowledges
/// every frame: what goes out is, for each file in order, its header, its
/// data packets and the end of the file, and after the last file the packet
/// that ends the batch; and the transfer is complete.
pub proof fn lemma_batch_run(files: Seq<FileModel>, size: BlockSize)
    requires
        forall|i: int| 0 <= i < files.len() ==> (#[trigger] files[i]).wf(),
    ensures
        ({
            let m = SenderModel {
                mode: Mode::Batch,
                size,
                files,
                current: 0,
                stage: SendStage::AwaitStart,
            };
            let replies = seq![CRC_START] + batch_acks(files, 0, size);
            &&& m.sent(replies) == batch_frames(files, 0, size)
            &&& m.after(replies).stage == SendStage::Finished(Outcome::Completed)
        }),
{
    let m = SenderModel { mode: Mode::Batch, size, files, current: 0, stage: SendStage::AwaitStart };
    let step = m.next(SenderEvent::Byte(CRC_START));
    lemma_run_in_two(m, seq![CRC_START], batch_acks(files, 0, size));
    lemma_one_report(m, CRC_START);
    assert(frame_of(m.action()) =~= Seq::<Seq<u8>>::empty());
    lemma_batch_run_from(step);
    assert(Seq::<Seq<u8>>::empty() + batch_frames(files, 0, size) =~= batch_frames(
        files,
        0,
        size,
    ));
}

/// A frame that is not acknowledged goes out again: any reply but `ACK` to a
/// header, a data packet or the end of the batch leaves the sender where it
/// is, with the same request.
pub proof fn lemma_unacknowledged_is_repeated(m: SenderModel, reply: u8)
    requires
        reply != ACK,
        m.stage is Header || m.stage is Data || m.stage is BatchEnd,
    ensures
        m.next(SenderEvent::Byte(reply)) == m,
        m.next(SenderEvent::Byte(reply)).action() == m.action(),
{
}

/// Every step leads from a state that a sender can be in to another such
/// state.
pub proof fn lemma_next_keeps_wf(m: SenderModel, event: SenderEvent)
    requires
        m.wf(),
    ensures
        m.next(event).wf(),
{
    match m.size {
        BlockSize::Short => {},
        BlockSize::Long => {},
    }
}

} // verus!
