use sniffer::decoder::DecodeError;
use sniffer::decoder::TypedValue;
use sniffer::dispatcher::PacketListener;
use sniffer::driver::FrameDisposition;
use sniffer::driver::PipelineDriver;
use sniffer::framer::FramingResult;
use sniffer::framer::ParsedMetadata;
use sniffer::header::FrameHeader;
use sniffer::reassembly::ReassemblyBuffer;
use sniffer::schema::EventName;
use sniffer::schema::ProtocolEvent;
use sniffer::schema::ProtocolManager;
use sniffer::schema::ProtocolVarType;

/// An Ethernet + IPv4 + TCP frame carrying `payload` as the TCP payload.
fn build_frame(src_ip: u32, seq: u32, payload: &[u8]) -> Vec<u8> {
    let mut f: Vec<u8> = Vec::new();
    f.extend_from_slice(&[0u8; 12]);
    f.extend_from_slice(&[0x08, 0x00]);
    let total: u16 = (20 + 20 + payload.len()) as u16;
    f.push(0x45);
    f.push(0);
    f.extend_from_slice(&total.to_be_bytes());
    f.extend_from_slice(&[0, 0, 0, 0]);
    f.push(64);
    f.push(6);
    f.extend_from_slice(&[0, 0]);
    f.extend_from_slice(&src_ip.to_be_bytes());
    f.extend_from_slice(&[10, 0, 0, 1]);
    f.extend_from_slice(&[0, 80, 0, 80]);
    f.extend_from_slice(&seq.to_be_bytes());
    f.extend_from_slice(&[0, 0, 0, 0]);
    f.push(0x50);
    f.push(0);
    f.extend_from_slice(&[0, 0, 0, 0, 0, 0]);
    f.extend_from_slice(payload);
    f
}

/// A framed message: a 14-bit event id, a one-byte length field, the body.
fn build_message(id: u16, body: &[u8]) -> Vec<u8> {
    let word: u16 = (id << 2) | 1;
    let mut m = word.to_be_bytes().to_vec();
    m.push(body.len() as u8);
    m.extend_from_slice(body);
    m
}

fn catalog_with(id: u16, fields: &[(&str, ProtocolVarType)]) -> ProtocolManager {
    ProtocolManager::new(vec![ProtocolEvent {
        id: Some(id),
        name: EventName::Unknown,
        parent: None,
        attributes: fields.iter().map(|(n, t)| (n.to_string(), *t)).collect(),
    }])
}

#[test]
fn appended_payloads_concatenate_in_arrival_order() {
    let mut buffer = ReassemblyBuffer::new();
    buffer.append(&vec![1, 2]);
    buffer.append(&vec![3]);
    buffer.append(&vec![4, 5, 6]);
    assert_eq!(buffer.remaining().as_slice(), &[1, 2, 3, 4, 5, 6]);
}

#[test]
fn reorder_merge_restores_ascending_order() {
    // The payload with the later sequence number arrived first.
    let mut heuristic = ReassemblyBuffer::new();
    heuristic.append(&vec![4, 5]);
    heuristic.reorder_merge(&vec![1, 2, 3]);

    let mut corrected = ReassemblyBuffer::new();
    corrected.append(&vec![1, 2, 3]);
    corrected.append(&vec![4, 5]);

    assert_eq!(heuristic.remaining(), corrected.remaining());
}

#[test]
fn framer_reports_incomplete_then_ready() {
    let message = build_message(1338, &[0x01, 0x2C]);
    for cut in 0..message.len() {
        let partial = message[..cut].to_vec();
        assert_eq!(ParsedMetadata::from_buffer(&partial), FramingResult::Incomplete);
    }
    match ParsedMetadata::from_buffer(&message) {
        FramingResult::Ready(md) => {
            assert_eq!(md.id, 1338);
            assert_eq!(md.header_len, 3);
            assert_eq!(md.body_len, 2);
        }
        other => panic!("expected Ready, got {:?}", other),
    }
}

#[test]
fn framer_rejects_an_incredible_length() {
    // Length type 3 with a 16 MiB body length cannot be a real message.
    let word: u16 = (1 << 2) | 3;
    let mut buf = word.to_be_bytes().to_vec();
    buf.extend_from_slice(&[0xFF, 0xFF, 0xFF]);
    assert_eq!(ParsedMetadata::from_buffer(&buf), FramingResult::Malformed);
}

#[test]
fn frame_header_extraction_reads_ip_seq_and_payload() {
    let frame = build_frame(0x0A000002, 12345, &[9, 8, 7]);
    let header = FrameHeader::from_vec(&frame).expect("well-formed frame");
    assert_eq!(header.source_ip, 0x0A000002);
    assert_eq!(header.seq_num, 12345);
    assert_eq!(header.body.as_slice(), &[9, 8, 7]);

    let mut not_ip = build_frame(1, 2, &[1]);
    not_ip[12] = 0x86;
    assert!(FrameHeader::from_vec(&not_ip).is_none());
    assert!(FrameHeader::from_vec(&vec![0u8; 10]).is_none());
}

#[test]
fn end_to_end_split_message_dispatches_once() {
    let catalog = catalog_with(1338, &[("hp", ProtocolVarType::Short)]);
    let mut registry: PacketListener<(), u32> = PacketListener::new();
    registry.subscribe(1338, "test", 7);

    let message = build_message(1338, &[0x01, 0x2C]);
    let frames = [
        build_frame(1, 100, &message[0..2]),
        build_frame(1, 105, &message[2..4]),
        build_frame(1, 110, &message[4..5]),
    ];

    let mut driver = PipelineDriver::new();
    driver.start();
    assert!(matches!(
        driver.handle_frame(&frames[0], &catalog, &registry),
        FrameDisposition::AwaitingMore
    ));
    assert!(matches!(
        driver.handle_frame(&frames[1], &catalog, &registry),
        FrameDisposition::AwaitingMore
    ));
    match driver.handle_frame(&frames[2], &catalog, &registry) {
        FrameDisposition::Dispatched { packet, listeners } => {
            assert_eq!(packet.id, 1338);
            assert_eq!(packet.fields.len(), 1);
            assert_eq!(packet.fields[0].0, "hp");
            assert_eq!(packet.fields[0].1, TypedValue::Short(300));
            assert_eq!(listeners, vec![7]);
        }
        other => panic!("expected Dispatched, got {:?}", other),
    }
    assert_eq!(driver.buffer.len(), 0);
}

#[test]
fn end_to_end_without_subscriber_skips_decoding_but_clears() {
    let catalog = catalog_with(1338, &[("hp", ProtocolVarType::Short)]);
    let registry: PacketListener<(), u32> = PacketListener::new();

    let message = build_message(1338, &[0x01, 0x2C]);
    let frames = [
        build_frame(1, 100, &message[0..2]),
        build_frame(1, 105, &message[2..4]),
        build_frame(1, 110, &message[4..5]),
    ];

    let mut driver = PipelineDriver::new();
    driver.start();
    assert!(matches!(
        driver.handle_frame(&frames[0], &catalog, &registry),
        FrameDisposition::AwaitingMore
    ));
    assert!(matches!(
        driver.handle_frame(&frames[1], &catalog, &registry),
        FrameDisposition::AwaitingMore
    ));
    match driver.handle_frame(&frames[2], &catalog, &registry) {
        FrameDisposition::Skipped { id } => assert_eq!(id, 1338),
        other => panic!("expected Skipped, got {:?}", other),
    }
    assert_eq!(driver.buffer.len(), 0);
}

#[test]
fn out_of_order_frames_are_merged_back() {
    let catalog = catalog_with(1338, &[("hp", ProtocolVarType::Short)]);
    let mut registry: PacketListener<(), u32> = PacketListener::new();
    registry.subscribe(1338, "test", 7);

    let message = build_message(1338, &[0x01, 0x2C]);
    // The tail of the message arrives first, with the later sequence number.
    let late_first = build_frame(1, 200, &message[2..5]);
    let early_second = build_frame(1, 100, &message[0..2]);

    let mut driver = PipelineDriver::new();
    driver.start();
    assert!(matches!(
        driver.handle_frame(&late_first, &catalog, &registry),
        FrameDisposition::AwaitingMore
    ));
    match driver.handle_frame(&early_second, &catalog, &registry) {
        FrameDisposition::Dispatched { packet, .. } => {
            assert_eq!(packet.fields[0].1, TypedValue::Short(300));
        }
        other => panic!("expected Dispatched, got {:?}", other),
    }
}

#[test]
fn malformed_framing_clears_the_buffer() {
    let catalog = catalog_with(1, &[]);
    let registry: PacketListener<(), u32> = PacketListener::new();
    let mut driver = PipelineDriver::new();
    driver.start();

    // Buffer some bytes first, then lose synchronization.
    let word: u16 = (1 << 2) | 3;
    let mut junk = word.to_be_bytes().to_vec();
    junk.extend_from_slice(&[0xFF, 0xFF, 0xFF]);
    let partial = build_frame(1, 100, &junk[0..3]);
    let rest = build_frame(1, 105, &junk[3..5]);

    assert!(matches!(
        driver.handle_frame(&partial, &catalog, &registry),
        FrameDisposition::AwaitingMore
    ));
    assert!(matches!(
        driver.handle_frame(&rest, &catalog, &registry),
        FrameDisposition::Resynchronized
    ));
    assert_eq!(driver.buffer.len(), 0);
}

#[test]
fn unparsable_frame_is_dropped_without_touching_the_buffer() {
    let catalog = catalog_with(1, &[]);
    let registry: PacketListener<(), u32> = PacketListener::new();
    let mut driver = PipelineDriver::new();
    driver.start();

    let message = build_message(1338, &[0x01, 0x2C]);
    let partial = build_frame(1, 100, &message[0..2]);
    assert!(matches!(
        driver.handle_frame(&partial, &catalog, &registry),
        FrameDisposition::AwaitingMore
    ));
    let before = driver.buffer.len();
    assert!(matches!(
        driver.handle_frame(&vec![1, 2, 3], &catalog, &registry),
        FrameDisposition::DroppedFrame
    ));
    assert_eq!(driver.buffer.len(), before);
}

#[test]
fn message_without_schema_is_undecodable() {
    let catalog = ProtocolManager::new(Vec::new());
    let mut registry: PacketListener<(), u32> = PacketListener::new();
    registry.subscribe(99, "test", 1);

    let frame = build_frame(1, 100, &build_message(99, &[]));
    let mut driver = PipelineDriver::new();
    driver.start();
    match driver.handle_frame(&frame, &catalog, &registry) {
        FrameDisposition::Undecodable { id, error } => {
            assert_eq!(id, 99);
            assert_eq!(error, DecodeError::MissingSchema);
        }
        other => panic!("expected Undecodable, got {:?}", other),
    }
}

#[test]
fn decode_failure_drops_the_message_and_keeps_running() {
    let catalog = catalog_with(2, &[("v", ProtocolVarType::Int)]);
    let mut registry: PacketListener<(), u32> = PacketListener::new();
    registry.subscribe(2, "test", 1);

    let frame = build_frame(1, 100, &build_message(2, &[0x01]));
    let mut driver = PipelineDriver::new();
    driver.start();
    match driver.handle_frame(&frame, &catalog, &registry) {
        FrameDisposition::Undecodable { id, error } => {
            assert_eq!(id, 2);
            assert_eq!(error, DecodeError::OutOfBytes);
        }
        other => panic!("expected Undecodable, got {:?}", other),
    }
    assert_eq!(driver.buffer.len(), 0);

    // The next well-formed message still goes through.
    let ok_frame = build_frame(1, 104, &build_message(2, &[0, 0, 1, 0]));
    match driver.handle_frame(&ok_frame, &catalog, &registry) {
        FrameDisposition::Dispatched { packet, .. } => {
            assert_eq!(packet.fields[0].1, TypedValue::Int(256));
        }
        other => panic!("expected Dispatched, got {:?}", other),
    }
}

#[test]
fn session_lifecycle_is_idle_running_stopped() {
    let catalog = catalog_with(1, &[]);
    let registry: PacketListener<(), u32> = PacketListener::new();
    let mut driver = PipelineDriver::new();

    let frame = build_frame(1, 100, &build_message(1, &[]));
    assert!(matches!(
        driver.handle_frame(&frame, &catalog, &registry),
        FrameDisposition::NotRunning
    ));

    driver.start();
    assert!(!matches!(
        driver.handle_frame(&frame, &catalog, &registry),
        FrameDisposition::NotRunning
    ));

    driver.stop();
    assert_eq!(driver.buffer.len(), 0);
    assert!(matches!(
        driver.handle_frame(&frame, &catalog, &registry),
        FrameDisposition::NotRunning
    ));
    // Stopped is terminal: start does not revive the session.
    driver.start();
    assert!(matches!(
        driver.handle_frame(&frame, &catalog, &registry),
        FrameDisposition::NotRunning
    ));
}
