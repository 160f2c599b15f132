use shiftbbs::guard::CanonicalPath;
use shiftbbs::header::{end_of_batch_packet, header_packet};
use shiftbbs::packet::{Packet, ACK, CRC_START, EOT, NAK, SOH, STX};
use shiftbbs::receiver::{
    accept_body_bytes, accept_header_bytes, receive_packet, receiver_start, receiver_step,
    wanted_len, ReadStage, Received, ReceiverAction, ReceiverEvent, ReceiverRequest,
    ReceiverState,
};
use shiftbbs::sender::{
    count_packets, data_packet, BlockSize, Mode, SendStage, Sender, SenderAction, SenderEvent,
    SourceFile,
};
use shiftbbs::transfer::{AbortReason, Outcome};

fn source(len: usize) -> Vec<u8> {
    (0..len).map(|i| (i * 31 + 7) as u8).collect()
}

fn root() -> CanonicalPath {
    CanonicalPath { components: vec![b"/".to_vec(), b"srv".to_vec(), b"files".to_vec()] }
}

fn below_root(name: &str) -> CanonicalPath {
    let mut path = root();
    path.components.push(name.as_bytes().to_vec());
    path
}

/// Runs a sender against a peer that answers each frame with the next of
/// `replies`, and returns the frames in the order they went out.
fn run_sender(sender: &mut Sender, replies: &[u8]) -> (Vec<Vec<u8>>, Option<Outcome>) {
    let mut frames = Vec::new();
    let mut action = sender.request();
    let mut next = 0;
    loop {
        match action {
            SenderAction::Finish(outcome) => return (frames, Some(outcome)),
            SenderAction::Exchange(bytes) => {
                if !bytes.is_empty() {
                    frames.push(bytes);
                }
                if next == replies.len() {
                    return (frames, None);
                }
                action = sender.step(SenderEvent::Byte(replies[next]));
                next += 1;
            }
        }
    }
}

struct Inbox {
    sent: Vec<u8>,
    files: Vec<(Vec<u8>, Vec<u8>)>,
    located: Vec<String>,
    closed: usize,
    outcome: Option<Outcome>,
}

/// Runs a receiver from `start` on a stream of bytes. Every name resolves to
/// a place below the root, except those in `escaping`, which resolve to
/// `/etc/passwd`. The run ends when the receiver stops or the stream is
/// empty where a read is asked for.
fn run_receiver(
    start: (ReceiverState, ReceiverAction),
    stream: &[u8],
    escaping: &[&str],
) -> Inbox {
    let mut out = Inbox {
        sent: Vec::new(),
        files: Vec::new(),
        located: Vec::new(),
        closed: 0,
        outcome: None,
    };
    let (mut state, mut action) = start;
    let mut at = 0;
    loop {
        out.sent.extend_from_slice(&action.send);
        let event = match action.request {
            ReceiverRequest::Finish(outcome) => {
                out.outcome = Some(outcome);
                return out;
            }
            ReceiverRequest::Read(n) => {
                if at + n > stream.len() {
                    return out;
                }
                let bytes = stream[at..at + n].to_vec();
                at += n;
                ReceiverEvent::Bytes(bytes)
            }
            ReceiverRequest::Locate(name) => {
                let target = if escaping.contains(&name.as_str()) {
                    CanonicalPath { components: vec![b"/".to_vec(), b"etc".to_vec(), b"passwd".to_vec()] }
                } else {
                    below_root(&name)
                };
                out.located.push(name);
                ReceiverEvent::Located { root: Some(root()), target: Some(target) }
            }
            ReceiverRequest::Create(path) => {
                out.files.push((path.components.last().unwrap().clone(), Vec::new()));
                ReceiverEvent::FileDone(true)
            }
            ReceiverRequest::Store(data) => {
                out.files.last_mut().unwrap().1.extend_from_slice(&data);
                ReceiverEvent::FileDone(true)
            }
            ReceiverRequest::Close => {
                out.closed += 1;
                ReceiverEvent::FileDone(true)
            }
        };
        let (next_state, next_action) = receiver_step(state, event);
        state = next_state;
        action = next_action;
    }
}

fn read_one(send: Vec<u8>) -> ReceiverAction {
    ReceiverAction { send, request: ReceiverRequest::Read(1) }
}

fn finish(send: Vec<u8>, outcome: Outcome) -> ReceiverAction {
    ReceiverAction { send, request: ReceiverRequest::Finish(outcome) }
}

#[test]
fn data_packet_numbers_start_at_one_and_wrap() {
    let data = source(300 * 128);
    for (k, seq) in [(0usize, 1u8), (1, 2), (253, 254), (254, 255), (255, 0), (256, 1)] {
        match data_packet(&data, k, BlockSize::Short) {
            Packet::Data128 { seq: s, payload } => {
                assert_eq!(s, seq);
                assert_eq!(&payload[..], &data[k * 128..(k + 1) * 128]);
            }
            other => panic!("unexpected packet {:?}", other),
        }
    }
}

#[test]
fn data_packet_pads_the_last_block() {
    let data = source(2500);
    match data_packet(&data, 2, BlockSize::Long) {
        Packet::Data1024 { seq, payload } => {
            assert_eq!(seq, 3);
            assert_eq!(&payload[..452], &data[2048..]);
            assert!(payload[452..].iter().all(|&b| b == 0x26));
        }
        other => panic!("unexpected packet {:?}", other),
    }
}

#[test]
fn data_packet_past_the_end_is_all_filler() {
    let data = source(10);
    assert_eq!(
        data_packet(&data, 1, BlockSize::Long),
        Packet::Data1024 { seq: 2, payload: [0x26; 1024] }
    );
    assert_eq!(
        data_packet(&data, usize::MAX, BlockSize::Short),
        Packet::Data128 { seq: 0, payload: [0x26; 128] }
    );
}

#[test]
fn block_size_lengths() {
    assert_eq!(BlockSize::Short.len(), 128);
    assert_eq!(BlockSize::Long.len(), 1024);
}

#[test]
fn source_file_keeps_name_and_data() {
    let file = SourceFile::new("a.txt", vec![1, 2, 3]).unwrap();
    assert_eq!(file.wire_name(), &b"a.txt".to_vec());
    assert_eq!(file.data(), &vec![1, 2, 3]);
}

#[test]
fn source_file_encodes_its_name() {
    let file = SourceFile::new("\u{3042}.txt", Vec::new()).unwrap();
    assert_eq!(file.wire_name(), &vec![0x82, 0xA0, b'.', b't', b'x', b't']);
}

#[test]
fn source_file_refuses_names_that_do_not_fit() {
    assert!(SourceFile::new(&"a".repeat(127), Vec::new()).is_some());
    assert!(SourceFile::new(&"a".repeat(128), Vec::new()).is_none());
    assert!(SourceFile::new(&"a".repeat(5000), Vec::new()).is_none());
    assert!(SourceFile::from_wire_name(vec![b'a'; 127], Vec::new()).is_some());
    assert!(SourceFile::from_wire_name(vec![b'a'; 128], Vec::new()).is_none());
}

#[test]
fn single_file_of_2500_bytes_goes_out_as_three_packets_and_an_end() {
    let data = source(2500);
    let mut sender = Sender::single(data.clone(), BlockSize::Long);
    let (frames, outcome) = run_sender(&mut sender, &[CRC_START, ACK, ACK, ACK, ACK]);
    assert_eq!(outcome, Some(Outcome::Completed));
    assert_eq!(sender.outcome(), Some(Outcome::Completed));
    assert_eq!(frames.len(), 4);
    let mut expected_payloads = Vec::new();
    for (k, frame) in frames[..3].iter().enumerate() {
        assert_eq!(frame.len(), 1029);
        match Packet::decode(frame[0], &frame[1..]) {
            Ok(Packet::Data1024 { seq, payload }) => {
                assert_eq!(seq as usize, k + 1);
                expected_payloads.extend_from_slice(&payload);
            }
            other => panic!("unexpected frame {:?}", other),
        }
    }
    assert_eq!(frames[3], vec![EOT]);
    assert_eq!(&expected_payloads[..2500], &data[..]);
    assert!(expected_payloads[2500..].iter().all(|&b| b == 0x26));
    assert_eq!(expected_payloads.len(), 3072);

    let stream: Vec<u8> = frames.concat();
    let got = run_receiver(
        (ReceiverState::Creating, ReceiverAction { send: Vec::new(), request: ReceiverRequest::Create(below_root("f")) }),
        &stream,
        &[],
    );
    assert_eq!(got.files.len(), 1);
    assert_eq!(got.files[0].1.len(), 3072);
    assert_eq!(&got.files[0].1[..2500], &data[..]);
    assert!(got.files[0].1[2500..].iter().all(|&b| b == 0x26));
    assert_eq!(got.closed, 1);
    assert_eq!(got.sent, vec![CRC_START, ACK, CRC_START, ACK, CRC_START, ACK, CRC_START, ACK, CRC_START]);
}

#[test]
fn file_of_a_whole_number_of_blocks_goes_out_without_filler() {
    let data = source(2048);
    let mut sender = Sender::single(data.clone(), BlockSize::Long);
    let (frames, outcome) = run_sender(&mut sender, &[CRC_START, ACK, ACK, ACK]);
    assert_eq!(outcome, Some(Outcome::Completed));
    assert_eq!(frames.len(), 3);
    let mut first = [0u8; 1024];
    first.copy_from_slice(&data[..1024]);
    let mut second = [0u8; 1024];
    second.copy_from_slice(&data[1024..]);
    assert_eq!(frames[0], Packet::Data1024 { seq: 1, payload: first }.encode());
    assert_eq!(frames[1], Packet::Data1024 { seq: 2, payload: second }.encode());
    assert_eq!(frames[2], vec![EOT]);

    let stream: Vec<u8> = frames.concat();
    let create = ReceiverAction {
        send: Vec::new(),
        request: ReceiverRequest::Create(below_root("f")),
    };
    let got = run_receiver((ReceiverState::Creating, create), &stream, &[]);
    assert_eq!(got.files.len(), 1);
    assert_eq!(got.files[0].1, data);
    assert_eq!(got.closed, 1);
}

#[test]
fn third_acknowledgement_of_two_blocks_answers_the_end_of_the_file() {
    let mut sender = Sender::single(source(2048), BlockSize::Long);
    sender.step(SenderEvent::Byte(CRC_START));
    sender.step(SenderEvent::Byte(ACK));
    assert_eq!(sender.step(SenderEvent::Byte(ACK)), SenderAction::Exchange(vec![EOT]));
    assert_eq!(sender.step(SenderEvent::Byte(ACK)), SenderAction::Finish(Outcome::Completed));
}

#[test]
fn empty_file_goes_out_as_the_end_of_the_file_alone() {
    let mut sender = Sender::single(Vec::new(), BlockSize::Short);
    let (frames, outcome) = run_sender(&mut sender, &[CRC_START, ACK]);
    assert_eq!(outcome, Some(Outcome::Completed));
    assert_eq!(frames, vec![vec![EOT]]);
}

#[test]
fn empty_file_in_a_batch_is_a_header_and_the_end_of_the_file() {
    let file = SourceFile::new("empty", Vec::new()).unwrap();
    let mut sender = Sender::batch(vec![file], BlockSize::Long);
    let (frames, outcome) = run_sender(&mut sender, &[CRC_START, ACK, ACK, ACK]);
    assert_eq!(outcome, Some(Outcome::Completed));
    assert_eq!(
        frames,
        vec![
            header_packet(b"empty").unwrap().encode(),
            vec![EOT],
            end_of_batch_packet().encode(),
        ]
    );
    let got = run_receiver(receiver_start(), &frames.concat(), &[]);
    assert_eq!(got.outcome, Some(Outcome::Completed));
    assert_eq!(got.files, vec![(b"empty".to_vec(), Vec::new())]);
}

#[test]
fn count_packets_rounds_up() {
    assert_eq!(count_packets(0, BlockSize::Long), 0);
    assert_eq!(count_packets(1, BlockSize::Long), 1);
    assert_eq!(count_packets(1024, BlockSize::Long), 1);
    assert_eq!(count_packets(1025, BlockSize::Long), 2);
    assert_eq!(count_packets(2048, BlockSize::Long), 2);
    assert_eq!(count_packets(2500, BlockSize::Long), 3);
    assert_eq!(count_packets(0, BlockSize::Short), 0);
    assert_eq!(count_packets(128, BlockSize::Short), 1);
    assert_eq!(count_packets(129, BlockSize::Short), 2);
    assert_eq!(count_packets(usize::MAX, BlockSize::Short), usize::MAX / 128 + 1);
    assert_eq!(count_packets(usize::MAX, BlockSize::Long), usize::MAX / 1024 + 1);
}

#[test]
fn single_file_in_short_blocks() {
    let data = source(300);
    let mut sender = Sender::single(data.clone(), BlockSize::Short);
    let (frames, outcome) = run_sender(&mut sender, &[CRC_START, ACK, ACK, ACK, ACK]);
    assert_eq!(outcome, Some(Outcome::Completed));
    assert_eq!(frames.len(), 4);
    assert_eq!(frames[0], data_packet(&data, 0, BlockSize::Short).encode());
    assert_eq!(frames[1], data_packet(&data, 1, BlockSize::Short).encode());
    assert_eq!(frames[2], data_packet(&data, 2, BlockSize::Short).encode());
    assert_eq!(frames[0].len(), 133);
    assert_eq!(frames[3], vec![EOT]);
}

#[test]
fn sender_resends_the_same_packet_until_acknowledged() {
    let data = source(100);
    let mut sender = Sender::single(data.clone(), BlockSize::Long);
    let (frames, outcome) =
        run_sender(&mut sender, &[CRC_START, NAK, 0x00, CRC_START, ACK, 0x99]);
    assert_eq!(outcome, Some(Outcome::Completed));
    let packet = data_packet(&data, 0, BlockSize::Long).encode();
    assert_eq!(
        frames,
        vec![packet.clone(), packet.clone(), packet.clone(), packet, vec![EOT]]
    );
}

#[test]
fn end_of_file_is_followed_by_any_byte() {
    let mut sender = Sender::single(source(1), BlockSize::Long);
    let (_, outcome) = run_sender(&mut sender, &[CRC_START, ACK, NAK]);
    assert_eq!(outcome, Some(Outcome::Completed));
}

#[test]
fn single_file_refuses_another_mode() {
    let mut sender = Sender::single(source(10), BlockSize::Long);
    assert_eq!(sender.request(), SenderAction::Exchange(Vec::new()));
    let action = sender.step(SenderEvent::Byte(NAK));
    assert_eq!(
        action,
        SenderAction::Finish(Outcome::Aborted(AbortReason::UnsupportedMode(0x15)))
    );
    assert_eq!(
        sender.outcome(),
        Some(Outcome::Aborted(AbortReason::UnsupportedMode(0x15)))
    );
}

#[test]
fn batch_drops_bytes_before_the_start() {
    let file = SourceFile::new("a", source(5)).unwrap();
    let mut sender = Sender::batch(vec![file], BlockSize::Long);
    assert_eq!(sender.step(SenderEvent::Byte(0x0a)), SenderAction::Exchange(Vec::new()));
    assert_eq!(sender.step(SenderEvent::Byte(0x0d)), SenderAction::Exchange(Vec::new()));
    assert_eq!(sender.step(SenderEvent::Byte(NAK)), SenderAction::Exchange(Vec::new()));
    assert_eq!(sender.outcome(), None);
    assert_eq!(
        sender.step(SenderEvent::Byte(CRC_START)),
        SenderAction::Exchange(header_packet(b"a").unwrap().encode())
    );
}

#[test]
fn sender_gives_up_when_the_channel_fails() {
    let mut sender = Sender::single(source(10), BlockSize::Long);
    sender.step(SenderEvent::Byte(CRC_START));
    assert_eq!(
        sender.step(SenderEvent::Failed),
        SenderAction::Finish(Outcome::Aborted(AbortReason::Channel))
    );
    assert_eq!(
        sender.step(SenderEvent::Byte(ACK)),
        SenderAction::Finish(Outcome::Aborted(AbortReason::Channel))
    );
    let mut waiting = Sender::batch(Vec::new(), BlockSize::Long);
    assert_eq!(
        waiting.step(SenderEvent::Failed),
        SenderAction::Finish(Outcome::Aborted(AbortReason::Channel))
    );
}

#[test]
fn batch_of_two_files_goes_out_in_order_and_is_received() {
    let first = source(1500);
    let second = source(10);
    let files = vec![
        SourceFile::new("one.bin", first.clone()).unwrap(),
        SourceFile::new("\u{30c6}\u{30b9}\u{30c8}.txt", second.clone()).unwrap(),
    ];
    let mut sender = Sender::batch(files, BlockSize::Long);
    let (frames, outcome) =
        run_sender(&mut sender, &[CRC_START, ACK, ACK, ACK, ACK, ACK, ACK, ACK, ACK]);
    assert_eq!(outcome, Some(Outcome::Completed));
    let second_name = vec![0x83, 0x65, 0x83, 0x58, 0x83, 0x67, b'.', b't', b'x', b't'];
    let expected = vec![
        header_packet(b"one.bin").unwrap().encode(),
        data_packet(&first, 0, BlockSize::Long).encode(),
        data_packet(&first, 1, BlockSize::Long).encode(),
        vec![EOT],
        header_packet(&second_name).unwrap().encode(),
        data_packet(&second, 0, BlockSize::Long).encode(),
        vec![EOT],
        end_of_batch_packet().encode(),
    ];
    assert_eq!(frames, expected);

    let stream: Vec<u8> = frames.concat();
    let got = run_receiver(receiver_start(), &stream, &[]);
    assert_eq!(got.outcome, Some(Outcome::Completed));
    assert_eq!(got.located, vec![String::from("one.bin"), String::from("\u{30c6}\u{30b9}\u{30c8}.txt")]);
    assert_eq!(got.files.len(), 2);
    assert_eq!(got.closed, 2);
    assert_eq!(got.files[0].0, b"one.bin".to_vec());
    assert_eq!(got.files[0].1.len(), 2048);
    assert_eq!(&got.files[0].1[..1500], &first[..]);
    assert!(got.files[0].1[1500..].iter().all(|&b| b == 0x26));
    assert_eq!(got.files[1].0, "\u{30c6}\u{30b9}\u{30c8}.txt".as_bytes().to_vec());
    assert_eq!(got.files[1].1.len(), 1024);
    assert_eq!(&got.files[1].1[..10], &second[..]);
}

#[test]
fn empty_batch_is_the_end_of_batch_alone() {
    let mut sender = Sender::batch(Vec::new(), BlockSize::Long);
    let (frames, outcome) = run_sender(&mut sender, &[CRC_START, NAK, ACK]);
    assert_eq!(outcome, Some(Outcome::Completed));
    assert_eq!(frames, vec![end_of_batch_packet().encode(), end_of_batch_packet().encode()]);
    let got = run_receiver(receiver_start(), &frames[0], &[]);
    assert_eq!(got.outcome, Some(Outcome::Completed));
    assert!(got.files.is_empty());
    assert_eq!(got.sent, vec![CRC_START, ACK]);
}

#[test]
fn path_escape_aborts_before_any_file_is_created() {
    let stream = header_packet(b"../../etc/passwd").unwrap().encode();
    let got = run_receiver(receiver_start(), &stream, &["../../etc/passwd"]);
    assert_eq!(got.outcome, Some(Outcome::Aborted(AbortReason::Security)));
    assert_eq!(got.located, vec![String::from("../../etc/passwd")]);
    assert!(got.files.is_empty());
    assert_eq!(got.sent, vec![CRC_START, ACK]);
}

#[test]
fn unresolved_destination_aborts() {
    let (state, action) = receiver_step(
        ReceiverState::Locating,
        ReceiverEvent::Located { root: Some(root()), target: None },
    );
    assert_eq!(state, ReceiverState::Finished(Outcome::Aborted(AbortReason::Security)));
    assert_eq!(action, finish(Vec::new(), Outcome::Aborted(AbortReason::Security)));
    let (state, _) = receiver_step(
        ReceiverState::Locating,
        ReceiverEvent::Located { root: None, target: Some(below_root("a")) },
    );
    assert_eq!(state, ReceiverState::Finished(Outcome::Aborted(AbortReason::Security)));
}

#[test]
fn accepted_destination_is_created() {
    let (state, action) = receiver_step(
        ReceiverState::Locating,
        ReceiverEvent::Located { root: Some(root()), target: Some(below_root("a.txt")) },
    );
    assert_eq!(state, ReceiverState::Creating);
    assert_eq!(
        action,
        ReceiverAction { send: Vec::new(), request: ReceiverRequest::Create(below_root("a.txt")) }
    );
}

#[test]
fn receiver_starts_by_asking_for_crc() {
    let (state, action) = receiver_start();
    assert_eq!(state, ReceiverState::Header(ReadStage::Marker));
    assert_eq!(action, read_one(vec![0x43]));
}

#[test]
fn wanted_len_by_stage() {
    assert_eq!(wanted_len(ReadStage::Marker), 1);
    assert_eq!(wanted_len(ReadStage::Frame(SOH)), 132);
    assert_eq!(wanted_len(ReadStage::Frame(STX)), 1028);
    assert_eq!(wanted_len(ReadStage::Frame(EOT)), 0);
    assert_eq!(wanted_len(ReadStage::Frame(0x55)), 0);
}

#[test]
fn receive_packet_by_marker() {
    assert_eq!(receive_packet(ReadStage::Marker, &[EOT]), Received::EndOfFile);
    assert_eq!(
        receive_packet(ReadStage::Marker, &[SOH]),
        Received::More { reply: None, stage: ReadStage::Frame(SOH) }
    );
    assert_eq!(
        receive_packet(ReadStage::Marker, &[STX]),
        Received::More { reply: None, stage: ReadStage::Frame(STX) }
    );
    assert_eq!(
        receive_packet(ReadStage::Marker, &[0x7f]),
        Received::More { reply: Some(NAK), stage: ReadStage::Marker }
    );
}

#[test]
fn receive_packet_accepts_and_rejects_frames() {
    let packet = data_packet(&source(50), 0, BlockSize::Short);
    let frame = packet.encode();
    assert_eq!(
        receive_packet(ReadStage::Frame(SOH), &frame[1..]),
        Received::Payload(packet.payload())
    );
    let mut bent = frame.clone();
    bent[10] ^= 0x40;
    assert_eq!(
        receive_packet(ReadStage::Frame(SOH), &bent[1..]),
        Received::More { reply: Some(NAK), stage: ReadStage::Marker }
    );
    let mut wrong = frame.clone();
    wrong[2] = wrong[1];
    assert_eq!(
        receive_packet(ReadStage::Frame(SOH), &wrong[1..]),
        Received::More { reply: Some(NAK), stage: ReadStage::Marker }
    );
}

#[test]
fn unknown_marker_is_rejected_without_reading_more() {
    let (state, action) =
        receiver_step(ReceiverState::Header(ReadStage::Marker), ReceiverEvent::Bytes(vec![0x7f]));
    assert_eq!(state, ReceiverState::Header(ReadStage::Marker));
    assert_eq!(action, read_one(vec![NAK]));
    let (state, action) =
        receiver_step(ReceiverState::Body(ReadStage::Marker), ReceiverEvent::Bytes(vec![0x00]));
    assert_eq!(state, ReceiverState::Body(ReadStage::Marker));
    assert_eq!(action, read_one(vec![NAK]));
}

#[test]
fn bad_sequence_is_rejected_after_the_whole_frame_is_read() {
    let mut frame = data_packet(&source(2000), 0, BlockSize::Long).encode();
    frame[1] = 5;
    frame[2] = 5;
    let (state, action) =
        receiver_step(ReceiverState::Body(ReadStage::Marker), ReceiverEvent::Bytes(vec![STX]));
    assert_eq!(state, ReceiverState::Body(ReadStage::Frame(STX)));
    assert_eq!(action, ReceiverAction { send: Vec::new(), request: ReceiverRequest::Read(1028) });
    let (state, action) = receiver_step(state, ReceiverEvent::Bytes(frame[1..].to_vec()));
    assert_eq!(state, ReceiverState::Body(ReadStage::Marker));
    assert_eq!(action, read_one(vec![NAK]));
}

#[test]
fn corrupted_packet_is_rejected_and_its_repeat_stored_once() {
    let data = source(100);
    let good = data_packet(&data, 0, BlockSize::Short).encode();
    let mut bad = good.clone();
    bad[50] ^= 0x01;
    let mut stream = header_packet(b"x").unwrap().encode();
    stream.extend_from_slice(&bad);
    stream.extend_from_slice(&good);
    stream.push(EOT);
    stream.extend_from_slice(&end_of_batch_packet().encode());
    let got = run_receiver(receiver_start(), &stream, &[]);
    assert_eq!(got.outcome, Some(Outcome::Completed));
    assert_eq!(got.files.len(), 1);
    assert_eq!(got.files[0].1, data_packet(&data, 0, BlockSize::Short).payload());
    assert_eq!(
        got.sent,
        vec![CRC_START, ACK, CRC_START, NAK, ACK, CRC_START, ACK, CRC_START, ACK]
    );
}

#[test]
fn header_may_be_a_long_packet() {
    let mut payload = [0u8; 1024];
    payload[..5].copy_from_slice(b"k.dat");
    let mut stream = Packet::Data1024 { seq: 0, payload }.encode();
    stream.push(EOT);
    stream.extend_from_slice(&Packet::Data1024 { seq: 0, payload: [0u8; 1024] }.encode());
    let got = run_receiver(receiver_start(), &stream, &[]);
    assert_eq!(got.outcome, Some(Outcome::Completed));
    assert_eq!(got.located, vec![String::from("k.dat")]);
    assert_eq!(got.files, vec![(b"k.dat".to_vec(), Vec::new())]);
}

#[test]
fn timeout_before_a_header_asks_again() {
    for state in [
        ReceiverState::Header(ReadStage::Marker),
        ReceiverState::Header(ReadStage::Frame(SOH)),
    ] {
        let (next, action) = receiver_step(state, ReceiverEvent::ReadFailed);
        assert_eq!(next, ReceiverState::Header(ReadStage::Marker));
        assert_eq!(action, read_one(vec![CRC_START]));
    }
    let (next, action) = receiver_step(
        ReceiverState::Header(ReadStage::Frame(SOH)),
        ReceiverEvent::Bytes(vec![1, 2, 3]),
    );
    assert_eq!(next, ReceiverState::Header(ReadStage::Marker));
    assert_eq!(action, read_one(vec![CRC_START]));
}

#[test]
fn timeout_within_a_file_aborts() {
    for state in [
        ReceiverState::Body(ReadStage::Marker),
        ReceiverState::Body(ReadStage::Frame(STX)),
    ] {
        let (next, action) = receiver_step(state, ReceiverEvent::ReadFailed);
        assert_eq!(next, ReceiverState::Finished(Outcome::Aborted(AbortReason::Channel)));
        assert_eq!(action, finish(Vec::new(), Outcome::Aborted(AbortReason::Channel)));
    }
    let (next, _) = receiver_step(
        ReceiverState::Body(ReadStage::Frame(STX)),
        ReceiverEvent::Bytes(vec![0; 10]),
    );
    assert_eq!(next, ReceiverState::Finished(Outcome::Aborted(AbortReason::Channel)));
}

#[test]
fn failed_write_aborts_everywhere() {
    for state in [
        ReceiverState::Header(ReadStage::Marker),
        ReceiverState::Body(ReadStage::Marker),
        ReceiverState::Locating,
        ReceiverState::Creating,
        ReceiverState::Storing,
        ReceiverState::Closing,
    ] {
        let (next, action) = receiver_step(state, ReceiverEvent::WriteFailed);
        assert_eq!(next, ReceiverState::Finished(Outcome::Aborted(AbortReason::Channel)));
        assert_eq!(action, finish(Vec::new(), Outcome::Aborted(AbortReason::Channel)));
    }
}

#[test]
fn failed_file_aborts() {
    for state in [ReceiverState::Creating, ReceiverState::Storing, ReceiverState::Closing] {
        let (next, _) = receiver_step(state, ReceiverEvent::FileDone(false));
        assert_eq!(next, ReceiverState::Finished(Outcome::Aborted(AbortReason::Channel)));
    }
}

#[test]
fn file_reports_move_on() {
    let (next, action) = receiver_step(ReceiverState::Creating, ReceiverEvent::FileDone(true));
    assert_eq!(next, ReceiverState::Body(ReadStage::Marker));
    assert_eq!(action, read_one(vec![CRC_START]));
    let (next, action) = receiver_step(ReceiverState::Storing, ReceiverEvent::FileDone(true));
    assert_eq!(next, ReceiverState::Body(ReadStage::Marker));
    assert_eq!(action, read_one(vec![CRC_START]));
    let (next, action) = receiver_step(ReceiverState::Closing, ReceiverEvent::FileDone(true));
    assert_eq!(next, ReceiverState::Header(ReadStage::Marker));
    assert_eq!(action, read_one(vec![CRC_START]));
}

#[test]
fn report_that_answers_nothing_aborts() {
    let (next, _) = receiver_step(ReceiverState::Locating, ReceiverEvent::Bytes(vec![1]));
    assert_eq!(next, ReceiverState::Finished(Outcome::Aborted(AbortReason::Channel)));
    let (next, _) =
        receiver_step(ReceiverState::Header(ReadStage::Marker), ReceiverEvent::FileDone(true));
    assert_eq!(next, ReceiverState::Finished(Outcome::Aborted(AbortReason::Channel)));
    let (next, _) = receiver_step(
        ReceiverState::Creating,
        ReceiverEvent::Located { root: None, target: None },
    );
    assert_eq!(next, ReceiverState::Finished(Outcome::Aborted(AbortReason::Channel)));
}

#[test]
fn finished_receiver_stays_finished() {
    let done = ReceiverState::Finished(Outcome::Completed);
    let (next, action) = receiver_step(done, ReceiverEvent::Bytes(vec![SOH]));
    assert_eq!(next, done);
    assert_eq!(action, finish(Vec::new(), Outcome::Completed));
    let (next, action) = receiver_step(done, ReceiverEvent::WriteFailed);
    assert_eq!(next, done);
    assert_eq!(action, finish(Vec::new(), Outcome::Completed));
}

#[test]
fn end_of_file_where_a_header_is_due_is_acknowledged() {
    let (next, action) =
        receiver_step(ReceiverState::Header(ReadStage::Marker), ReceiverEvent::Bytes(vec![EOT]));
    assert_eq!(next, ReceiverState::Header(ReadStage::Marker));
    assert_eq!(action, read_one(vec![ACK, CRC_START]));
}

#[test]
fn end_of_file_within_a_file_closes_it() {
    let (next, action) =
        receiver_step(ReceiverState::Body(ReadStage::Marker), ReceiverEvent::Bytes(vec![EOT]));
    assert_eq!(next, ReceiverState::Closing);
    assert_eq!(action, ReceiverAction { send: vec![ACK], request: ReceiverRequest::Close });
}

#[test]
fn accept_header_bytes_reads_a_name() {
    let frame = header_packet(&[0x82, 0xA0]).unwrap().encode();
    let (state, action) = accept_header_bytes(ReadStage::Frame(SOH), &frame[1..]);
    assert_eq!(state, ReceiverState::Locating);
    assert_eq!(
        action,
        ReceiverAction {
            send: vec![ACK],
            request: ReceiverRequest::Locate(String::from("\u{3042}")),
        }
    );
}

#[test]
fn accept_header_bytes_ends_the_batch() {
    let frame = end_of_batch_packet().encode();
    let (state, action) = accept_header_bytes(ReadStage::Frame(SOH), &frame[1..]);
    assert_eq!(state, ReceiverState::Finished(Outcome::Completed));
    assert_eq!(action, finish(vec![ACK], Outcome::Completed));
}

#[test]
fn accept_body_bytes_stores_the_payload_with_its_filler() {
    let packet = data_packet(&source(3), 0, BlockSize::Short);
    let frame = packet.encode();
    let (state, action) = accept_body_bytes(ReadStage::Frame(SOH), &frame[1..]);
    assert_eq!(state, ReceiverState::Storing);
    let mut expected = source(3);
    expected.resize(128, 0x26);
    assert_eq!(
        action,
        ReceiverAction { send: vec![ACK], request: ReceiverRequest::Store(expected) }
    );
}

#[test]
fn modes_and_stages_are_distinct() {
    assert_ne!(Mode::Single, Mode::Batch);
    assert_ne!(SendStage::AwaitStart, SendStage::Header);
    assert_ne!(SendStage::Data(0), SendStage::Data(1));
}
