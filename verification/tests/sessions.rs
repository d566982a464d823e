use tftp_rs::download::{Download, DownloadPhase};
use tftp_rs::options::Options;
use tftp_rs::server::{ServerEvent, TransferInfo, TransferKind};
use tftp_rs::tftp_protocol::Packet;
use tftp_rs::transfer::{Reply, Transmit};
use tftp_rs::upload::{Upload, UploadPhase};

const OS_MAX: usize = 65464;
const PEER: &str = "127.0.0.1:50000";

fn ack(block_num: u16) -> Vec<u8> {
    Packet::ACK { block_num }.to_bytes()
}

fn data(block_num: u16, payload: &[u8]) -> Vec<u8> {
    Packet::DATA { block_num, data: payload.to_vec() }.to_bytes()
}

fn sent(reply: &Reply) -> Vec<u8> {
    match &reply.send {
        Transmit::Datagram(bytes) => bytes.clone(),
        other => panic!("expected a datagram, got {:?}", other),
    }
}

/// Serves `content` to a client that acknowledges every block at once.
/// Gives the payloads that went out and all events of the session.
fn serve(content: &[u8], options: &Options) -> (Vec<Vec<u8>>, Vec<ServerEvent>, Download) {
    let (mut session, first) = Download::start(1, PEER, "file", 1000, content.len() as u64, options, OS_MAX);
    let mut events = first.events.clone();
    if session.phase == DownloadPhase::Negotiating {
        let reply = session.on_datagram(&ack(0));
        assert_eq!(reply.send, Transmit::Nothing);
        events.extend(reply.events);
    }
    let mut payloads = Vec::new();
    let mut offset = 0usize;
    let mut expected: u16 = 1;
    while session.phase == DownloadPhase::NeedBlock {
        let end = (offset + session.blksize).min(content.len());
        let reply = session.on_block(&content[offset..end]);
        offset = end;
        match Packet::from_bytes(&sent(&reply)).unwrap() {
            Packet::DATA { block_num, data } => {
                assert_eq!(block_num, expected);
                payloads.push(data);
            }
            other => panic!("expected DATA, got {:?}", other),
        }
        assert_eq!(session.phase, DownloadPhase::Sending);
        let reply = session.on_datagram(&ack(expected));
        events.extend(reply.events);
        expected = expected.wrapping_add(1);
    }
    (payloads, events, session)
}

/// Takes `content` from a client that sends it in blocks of `blksize`.
/// Gives what was written, the ACK numbers and all events of the session.
fn take(content: &[u8], options: &Options) -> (Vec<u8>, Vec<u16>, Vec<ServerEvent>, Upload) {
    let (mut session, first) = Upload::start(2, PEER, "file", 1000, options, OS_MAX);
    let mut events = first.events.clone();
    let mut written = Vec::new();
    let mut acks = Vec::new();
    let mut offset = 0usize;
    let mut block: u16 = 1;
    while session.phase == UploadPhase::Receiving {
        let end = (offset + session.blksize).min(content.len());
        let reply = session.on_datagram(&data(block, &content[offset..end]));
        offset = end;
        written.extend(reply.write.clone().expect("a block to write"));
        match Packet::from_bytes(&sent(&reply)).unwrap() {
            Packet::ACK { block_num } => acks.push(block_num),
            other => panic!("expected ACK, got {:?}", other),
        }
        events.extend(reply.events);
        block = block.wrapping_add(1);
    }
    assert_eq!(session.phase, UploadPhase::Closing);
    let reply = session.finish();
    assert_eq!(reply.send, Transmit::Nothing);
    assert_eq!(reply.write, None);
    events.extend(reply.events);
    (written, acks, events, session)
}

#[test]
fn test_rrq_download() {
    let content = b"Hello, TFTP world! This is a download test.";
    let (mut session, first) =
        Download::start(1, PEER, "test.txt", 1000, content.len() as u64, &Options::new(), OS_MAX);
    assert_eq!(first.send, Transmit::Nothing);
    assert_eq!(
        first.events,
        vec![ServerEvent::TransferStarted(TransferInfo {
            id: 1,
            peer: "127.0.0.1:50000".to_string(),
            filename: "test.txt".to_string(),
            kind: TransferKind::Download,
            total_bytes: 43,
            transferred: 0,
            started: 1000,
            size_known: true,
        })]
    );
    assert_eq!(session.phase, DownloadPhase::NeedBlock);
    assert_eq!(session.blksize, 512);

    let reply = session.on_block(content);
    let resp = sent(&reply);
    assert!(resp.len() <= 516);
    match Packet::from_bytes(&resp).unwrap() {
        Packet::DATA { block_num, data } => {
            assert_eq!(block_num, 1);
            assert_eq!(data, content);
        }
        other => panic!("expected DATA, got {:?}", other),
    }

    let reply = session.on_datagram(&ack(1));
    assert_eq!(reply.send, Transmit::Nothing);
    assert_eq!(
        reply.events,
        vec![
            ServerEvent::TransferProgress { id: 1, transferred: 43, total_bytes: 43 },
            ServerEvent::TransferComplete(1),
        ]
    );
    assert_eq!(session.phase, DownloadPhase::Done);
}

#[test]
fn test_wrq_upload() {
    let content = b"This file was uploaded via TFTP WRQ.";
    let (mut session, first) = Upload::start(7, PEER, "uploaded.txt", 1000, &Options::new(), OS_MAX);
    let resp = sent(&first);
    assert!(resp.len() <= 516);
    match Packet::from_bytes(&resp).unwrap() {
        Packet::ACK { block_num } => assert_eq!(block_num, 0),
        other => panic!("expected ACK 0, got {:?}", other),
    }
    assert_eq!(
        first.events,
        vec![ServerEvent::TransferStarted(TransferInfo {
            id: 7,
            peer: "127.0.0.1:50000".to_string(),
            filename: "uploaded.txt".to_string(),
            kind: TransferKind::Upload,
            total_bytes: 0,
            transferred: 0,
            started: 1000,
            size_known: false,
        })]
    );

    let reply = session.on_datagram(&data(1, content));
    match Packet::from_bytes(&sent(&reply)).unwrap() {
        Packet::ACK { block_num } => assert_eq!(block_num, 1),
        other => panic!("expected ACK 1, got {:?}", other),
    }
    assert_eq!(reply.write, Some(content.to_vec()));
    assert_eq!(
        reply.events,
        vec![ServerEvent::TransferProgress { id: 7, transferred: 36, total_bytes: 36 }]
    );
    assert_eq!(session.phase, UploadPhase::Closing);

    let reply = session.finish();
    assert_eq!(reply.events, vec![ServerEvent::TransferComplete(7)]);
    assert_eq!(session.phase, UploadPhase::Done);
}

#[test]
fn test_rrq_subdirectory() {
    let content = b"switch config data here";
    let parts = tftp_rs::path::sanitize_path("configs/switches/sw1.cfg").unwrap();
    assert_eq!(parts, vec!["configs", "switches", "sw1.cfg"]);
    let (payloads, events, session) = serve(content, &Options::new());
    assert_eq!(payloads, vec![content.to_vec()]);
    assert_eq!(events.last(), Some(&ServerEvent::TransferComplete(1)));
    assert_eq!(session.transferred, 23);
}

#[test]
fn test_wrq_creates_subdirectory() {
    let content = b"uploaded into a new subdirectory";
    let parts = tftp_rs::path::sanitize_path("new_dir/sub/uploaded.txt").unwrap();
    assert_eq!(parts, vec!["new_dir", "sub", "uploaded.txt"]);
    let (written, acks, events, session) = take(content, &Options::new());
    assert_eq!(written, content);
    assert_eq!(acks, vec![1]);
    assert_eq!(events.last(), Some(&ServerEvent::TransferComplete(2)));
    assert_eq!(session.transferred, content.len() as u64);
}

#[test]
fn blksize_option_round_trip() {
    let content: Vec<u8> = (0..20000u32).map(|i| (i % 251) as u8).collect();
    let mut options = Options::new();
    options.insert("blksize".to_string(), "8192".to_string());
    options.insert("tsize".to_string(), "0".to_string());
    let (mut session, first) = Download::start(3, PEER, "big.bin", 1000, 20000, &options, OS_MAX);
    assert_eq!(session.phase, DownloadPhase::Negotiating);
    assert_eq!(session.blksize, 8192);
    match Packet::from_bytes(&sent(&first)).unwrap() {
        Packet::OACK { options } => {
            assert_eq!(options.len(), 2);
            assert_eq!(options.get("blksize").unwrap(), "8192");
            assert_eq!(options.get("tsize").unwrap(), "20000");
        }
        other => panic!("expected OACK, got {:?}", other),
    }
    let reply = session.on_datagram(&ack(0));
    assert_eq!(reply, Reply { write: None, send: Transmit::Nothing, events: vec![] });
    assert_eq!(session.phase, DownloadPhase::NeedBlock);

    let mut sizes = Vec::new();
    let mut received = Vec::new();
    let mut offset = 0;
    for block in 1..=3u16 {
        let end = (offset + 8192).min(content.len());
        let reply = session.on_block(&content[offset..end]);
        offset = end;
        match Packet::from_bytes(&sent(&reply)).unwrap() {
            Packet::DATA { block_num, data } => {
                assert_eq!(block_num, block);
                sizes.push(data.len());
                received.extend(data);
            }
            other => panic!("expected DATA, got {:?}", other),
        }
        session.on_datagram(&ack(block));
    }
    assert_eq!(sizes, vec![8192, 8192, 3616]);
    assert_eq!(received, content);
    assert_eq!(session.phase, DownloadPhase::Done);
    assert_eq!(session.transferred, 20000);
}

#[test]
fn download_of_exact_multiple_ends_with_empty_block() {
    let content = vec![0x5au8; 1024];
    let (payloads, events, session) = serve(&content, &Options::new());
    assert_eq!(payloads.len(), 3);
    assert_eq!(payloads[0].len(), 512);
    assert_eq!(payloads[1].len(), 512);
    assert_eq!(payloads[2].len(), 0);
    assert_eq!(session.transferred, 1024);
    assert_eq!(
        events[events.len() - 2..],
        [
            ServerEvent::TransferProgress { id: 1, transferred: 1024, total_bytes: 1024 },
            ServerEvent::TransferComplete(1),
        ]
    );
}

#[test]
fn download_of_empty_file_is_one_empty_block() {
    let (payloads, events, session) = serve(&[], &Options::new());
    assert_eq!(payloads, vec![Vec::<u8>::new()]);
    assert_eq!(session.block_num, 1);
    assert_eq!(session.transferred, 0);
    assert_eq!(events.len(), 3);
    assert_eq!(events[2], ServerEvent::TransferComplete(1));
}

#[test]
fn download_sends_as_many_bytes_as_the_file_has() {
    for len in [0usize, 1, 511, 512, 513, 1023, 1024, 5000] {
        let content: Vec<u8> = (0..len).map(|i| (i * 7 % 256) as u8).collect();
        let (payloads, events, session) = serve(&content, &Options::new());
        let total: usize = payloads.iter().map(|p| p.len()).sum();
        assert_eq!(total, len);
        assert_eq!(payloads.concat(), content);
        assert_eq!(payloads.len(), len / 512 + 1);
        assert_eq!(session.transferred, len as u64);
        let ends = events
            .iter()
            .filter(|e| matches!(e, ServerEvent::TransferComplete(_) | ServerEvent::TransferFailed { .. }))
            .count();
        assert_eq!(ends, 1);
    }
}

#[test]
fn upload_writes_as_many_bytes_as_it_takes() {
    for len in [0usize, 1, 511, 512, 513, 1024, 3000] {
        let content: Vec<u8> = (0..len).map(|i| (i * 13 % 256) as u8).collect();
        let (written, acks, events, session) = take(&content, &Options::new());
        assert_eq!(written, content);
        assert_eq!(session.transferred, len as u64);
        assert_eq!(acks.len(), len / 512 + 1);
        let starts = events
            .iter()
            .filter(|e| matches!(e, ServerEvent::TransferStarted(_)))
            .count();
        let ends = events
            .iter()
            .filter(|e| matches!(e, ServerEvent::TransferComplete(_) | ServerEvent::TransferFailed { .. }))
            .count();
        assert_eq!(starts, 1);
        assert_eq!(ends, 1);
        assert_eq!(events.last(), Some(&ServerEvent::TransferComplete(2)));
    }
}

#[test]
fn upload_then_download_gives_the_same_bytes() {
    let mut up = Options::new();
    up.insert("blksize".to_string(), "1000".to_string());
    let mut down = Options::new();
    down.insert("blksize".to_string(), "64".to_string());
    for len in [0usize, 1, 63, 64, 999, 1000, 1001, 4096] {
        let content: Vec<u8> = (0..len).map(|i| (i * 31 % 256) as u8).collect();
        let (written, _, _, _) = take(&content, &up);
        let (payloads, _, _) = serve(&written, &down);
        assert_eq!(payloads.concat(), content);
    }
}

#[test]
fn upload_with_options_answers_with_oack() {
    let mut options = Options::new();
    options.insert("blksize".to_string(), "1024".to_string());
    options.insert("tsize".to_string(), "5000".to_string());
    let (session, first) = Upload::start(4, PEER, "f", 1000, &options, OS_MAX);
    assert_eq!(session.blksize, 1024);
    assert_eq!(session.expected_block, 1);
    match Packet::from_bytes(&sent(&first)).unwrap() {
        Packet::OACK { options } => {
            assert_eq!(options.get("blksize").unwrap(), "1024");
            assert_eq!(options.get("tsize").unwrap(), "0");
        }
        other => panic!("expected OACK, got {:?}", other),
    }
}

#[test]
fn duplicate_data_is_acknowledged_again_without_advance() {
    let (mut session, _) = Upload::start(5, PEER, "f", 1000, &Options::new(), OS_MAX);
    let full = vec![1u8; 512];
    session.on_datagram(&data(1, &full));
    assert_eq!(session.expected_block, 2);
    let before = session;
    let reply = session.on_datagram(&data(1, &full));
    assert_eq!(session, before);
    assert_eq!(reply.write, None);
    assert_eq!(reply.events, vec![]);
    assert_eq!(reply.send, Transmit::Datagram(ack(1)));
    // A block that is neither awaited nor the one before is ignored.
    let reply = session.on_datagram(&data(9, &full));
    assert_eq!(session, before);
    assert_eq!(reply, Reply { write: None, send: Transmit::Nothing, events: vec![] });
    // So is a packet of another kind.
    let reply = session.on_datagram(&ack(3));
    assert_eq!(session, before);
    assert_eq!(reply, Reply { write: None, send: Transmit::Nothing, events: vec![] });
}

#[test]
fn block_numbers_wrap_in_a_download() {
    let mut session = Download {
        id: 1,
        blksize: 512,
        total_bytes: 1 << 26,
        phase: DownloadPhase::NeedBlock,
        block_num: 65535,
        retries: 0,
        transferred: 65534 * 512,
        last_len: 512,
    };
    let full = vec![3u8; 512];
    let reply = session.on_block(&full);
    assert_eq!(sent(&reply), data(65535, &full));
    session.on_datagram(&ack(65535));
    assert_eq!(session.phase, DownloadPhase::NeedBlock);
    assert_eq!(session.block_num, 0);
    let reply = session.on_block(&full);
    assert_eq!(sent(&reply), data(0, &full));
    session.on_datagram(&ack(0));
    assert_eq!(session.block_num, 1);
    assert_eq!(session.phase, DownloadPhase::NeedBlock);
    assert_eq!(session.transferred, 65536 * 512);
}

#[test]
fn block_numbers_wrap_in_an_upload() {
    let mut session = Upload {
        id: 1,
        blksize: 512,
        phase: UploadPhase::Receiving,
        expected_block: 65535,
        retries: 0,
        transferred: 0,
    };
    let full = vec![3u8; 512];
    let reply = session.on_datagram(&data(65535, &full));
    assert_eq!(reply.send, Transmit::Datagram(ack(65535)));
    assert_eq!(session.expected_block, 0);
    assert_eq!(session.phase, UploadPhase::Receiving);
    // The block before block 0 is block 65535.
    let reply = session.on_datagram(&data(65535, &full));
    assert_eq!(reply.send, Transmit::Datagram(ack(65535)));
    assert_eq!(reply.write, None);
    assert_eq!(session.expected_block, 0);
    let reply = session.on_datagram(&data(0, &full));
    assert_eq!(reply.send, Transmit::Datagram(ack(0)));
    assert_eq!(session.expected_block, 1);
}

#[test]
fn download_gives_up_at_the_tenth_timeout() {
    let (mut session, _) = Download::start(1, PEER, "f", 1000, 3, &Options::new(), OS_MAX);
    session.on_block(b"abc");
    for n in 1..=9u32 {
        let reply = session.on_timeout();
        assert_eq!(reply, Reply { write: None, send: Transmit::Repeat, events: vec![] });
        assert_eq!(session.retries, n);
        assert_eq!(session.phase, DownloadPhase::Sending);
    }
    let reply = session.on_timeout();
    assert_eq!(reply.send, Transmit::Nothing);
    assert_eq!(
        reply.events,
        vec![ServerEvent::TransferFailed { id: 1, error: "timeout after 10 retries".to_string() }]
    );
    assert_eq!(session.phase, DownloadPhase::Done);
    // Nothing more happens to a session that has ended.
    let ended = session;
    assert_eq!(session.on_timeout(), Reply { write: None, send: Transmit::Nothing, events: vec![] });
    assert_eq!(session.on_datagram(&ack(1)), Reply { write: None, send: Transmit::Nothing, events: vec![] });
    assert_eq!(session.on_block(b"x"), Reply { write: None, send: Transmit::Nothing, events: vec![] });
    assert_eq!(session.abort("late".to_string()), Reply { write: None, send: Transmit::Nothing, events: vec![] });
    assert_eq!(session, ended);
}

#[test]
fn download_oack_is_repeated_until_acknowledged() {
    let mut options = Options::new();
    options.insert("tsize".to_string(), "0".to_string());
    let (mut session, first) = Download::start(1, PEER, "f", 1000, 77, &options, OS_MAX);
    match Packet::from_bytes(&sent(&first)).unwrap() {
        Packet::OACK { options } => {
            assert_eq!(options.len(), 1);
            assert_eq!(options.get("tsize").unwrap(), "77");
        }
        other => panic!("expected OACK, got {:?}", other),
    }
    assert_eq!(session.blksize, 512);
    // A wrong ACK and a stray packet have the OACK sent again.
    assert_eq!(session.on_datagram(&ack(1)).send, Transmit::Repeat);
    assert_eq!(session.on_datagram(&data(1, b"x")).send, Transmit::Repeat);
    assert_eq!(session.phase, DownloadPhase::Negotiating);
    for _ in 0..9 {
        assert_eq!(session.on_timeout().send, Transmit::Repeat);
    }
    let reply = session.on_timeout();
    assert_eq!(
        reply.events,
        vec![ServerEvent::TransferFailed {
            id: 1,
            error: "timeout waiting for OACK acknowledgment".to_string()
        }]
    );
    assert_eq!(session.phase, DownloadPhase::Done);
}

#[test]
fn download_resends_on_wrong_ack_and_stray_packets() {
    let (mut session, _) = Download::start(1, PEER, "f", 1000, 3, &Options::new(), OS_MAX);
    session.on_block(b"abc");
    let waiting = session;
    assert_eq!(
        session.on_datagram(&ack(2)),
        Reply { write: None, send: Transmit::Repeat, events: vec![] }
    );
    assert_eq!(
        session.on_datagram(&ack(0)),
        Reply { write: None, send: Transmit::Repeat, events: vec![] }
    );
    assert_eq!(
        session.on_datagram(&data(1, b"zz")),
        Reply { write: None, send: Transmit::Repeat, events: vec![] }
    );
    assert_eq!(session, waiting);
    // A datagram that is no packet is logged, and the block is sent again.
    let reply = session.on_datagram(&[0, 9, 1]);
    assert_eq!(reply.send, Transmit::Repeat);
    assert_eq!(
        reply.events,
        vec![ServerEvent::Log("bad packet: unknown opcode 9".to_string())]
    );
    assert_eq!(session, waiting);
}

#[test]
fn peer_error_fails_a_download() {
    let (mut session, _) = Download::start(8, PEER, "f", 1000, 3, &Options::new(), OS_MAX);
    session.on_block(b"abc");
    let reply = session.on_datagram(&Packet::error(3, "Disk full").to_bytes());
    assert_eq!(reply.send, Transmit::Nothing);
    assert_eq!(
        reply.events,
        vec![ServerEvent::TransferFailed { id: 8, error: "client error 3: Disk full".to_string() }]
    );
    assert_eq!(session.phase, DownloadPhase::Done);
}

#[test]
fn peer_error_fails_an_upload() {
    let (mut session, _) = Upload::start(9, PEER, "f", 1000, &Options::new(), OS_MAX);
    let reply = session.on_datagram(&Packet::error(0, "").to_bytes());
    assert_eq!(reply.write, None);
    assert_eq!(
        reply.events,
        vec![ServerEvent::TransferFailed { id: 9, error: "client error 0: ".to_string() }]
    );
    assert_eq!(session.phase, UploadPhase::Done);
    assert_eq!(session.finish(), Reply { write: None, send: Transmit::Nothing, events: vec![] });
}

#[test]
fn upload_repeats_the_last_ack_and_gives_up() {
    let (mut session, _) = Upload::start(6, PEER, "f", 1000, &Options::new(), OS_MAX);
    let full = vec![0u8; 512];
    session.on_datagram(&data(1, &full));
    session.on_datagram(&data(2, &full));
    assert_eq!(session.expected_block, 3);
    for n in 1..=9u32 {
        let reply = session.on_timeout();
        assert_eq!(reply.send, Transmit::Datagram(ack(2)));
        assert_eq!(reply.events, vec![]);
        assert_eq!(session.retries, n);
    }
    let reply = session.on_timeout();
    assert_eq!(reply.send, Transmit::Nothing);
    assert_eq!(
        reply.events,
        vec![ServerEvent::TransferFailed {
            id: 6,
            error: "timeout waiting for DATA block 3".to_string()
        }]
    );
    assert_eq!(session.phase, UploadPhase::Done);
}

#[test]
fn upload_retries_start_anew_with_each_block() {
    let (mut session, _) = Upload::start(6, PEER, "f", 1000, &Options::new(), OS_MAX);
    let full = vec![0u8; 512];
    for _ in 0..7 {
        session.on_timeout();
    }
    assert_eq!(session.retries, 7);
    // The first timeout of a session repeats ACK 0.
    assert_eq!(session.on_timeout().send, Transmit::Datagram(ack(0)));
    session.on_datagram(&data(1, &full));
    assert_eq!(session.retries, 0);
}

#[test]
fn upload_logs_and_drops_what_is_no_packet() {
    let (mut session, _) = Upload::start(6, PEER, "f", 1000, &Options::new(), OS_MAX);
    let before = session;
    let reply = session.on_datagram(&[0, 3, 0]);
    assert_eq!(session, before);
    assert_eq!(reply.send, Transmit::Nothing);
    assert_eq!(reply.write, None);
    assert_eq!(
        reply.events,
        vec![ServerEvent::Log("bad packet: DATA packet too short".to_string())]
    );
}

#[test]
fn abort_fails_a_running_session_once() {
    let (mut down, _) = Download::start(1, PEER, "f", 1000, 3, &Options::new(), OS_MAX);
    let reply = down.abort("cannot open f: gone".to_string());
    assert_eq!(
        reply.events,
        vec![ServerEvent::TransferFailed { id: 1, error: "cannot open f: gone".to_string() }]
    );
    assert_eq!(down.phase, DownloadPhase::Done);
    assert_eq!(down.abort("again".to_string()).events, vec![]);

    let (mut up, _) = Upload::start(2, PEER, "f", 1000, &Options::new(), OS_MAX);
    up.on_datagram(&data(1, b"short"));
    assert_eq!(up.phase, UploadPhase::Closing);
    // Timeouts and datagrams are ignored while the file is flushed.
    assert_eq!(up.on_timeout(), Reply { write: None, send: Transmit::Nothing, events: vec![] });
    assert_eq!(up.on_datagram(&data(2, b"more")).write, None);
    let reply = up.abort("flush failed".to_string());
    assert_eq!(
        reply.events,
        vec![ServerEvent::TransferFailed { id: 2, error: "flush failed".to_string() }]
    );
    assert_eq!(up.finish().events, vec![]);
    assert_eq!(up.phase, UploadPhase::Done);
}

#[test]
fn download_ignores_a_block_it_did_not_ask_for() {
    let (mut session, _) = Download::start(1, PEER, "f", 1000, 3, &Options::new(), OS_MAX);
    let too_long = vec![0u8; 513];
    let before = session;
    assert_eq!(
        session.on_block(&too_long),
        Reply { write: None, send: Transmit::Nothing, events: vec![] }
    );
    assert_eq!(session, before);
    session.on_block(b"abc");
    let waiting = session;
    assert_eq!(
        session.on_block(b"def"),
        Reply { write: None, send: Transmit::Nothing, events: vec![] }
    );
    assert_eq!(session, waiting);
}

#[test]
fn upload_takes_a_block_longer_than_the_block_size() {
    let (mut session, _) = Upload::start(1, PEER, "f", 1000, &Options::new(), OS_MAX);
    let long = vec![4u8; 600];
    let reply = session.on_datagram(&data(1, &long));
    assert_eq!(reply.write, Some(long));
    assert_eq!(session.phase, UploadPhase::Receiving);
    assert_eq!(session.expected_block, 2);
    assert_eq!(session.transferred, 600);
}

#[test]
fn byte_counts_stop_at_the_largest_value() {
    let mut session = Upload {
        id: 1,
        blksize: 512,
        phase: UploadPhase::Receiving,
        expected_block: 1,
        retries: 0,
        transferred: u64::MAX - 2,
    };
    let reply = session.on_datagram(&data(1, b"abcdef"));
    assert_eq!(session.transferred, u64::MAX);
    assert_eq!(
        reply.events,
        vec![ServerEvent::TransferProgress {
            id: 1,
            transferred: u64::MAX,
            total_bytes: u64::MAX
        }]
    );
}

#[test]
fn timeouts_are_counted_anew_for_each_block() {
    let (mut session, _) = Download::start(1, PEER, "f", 1000, 1024, &Options::new(), OS_MAX);
    let full = vec![7u8; 512];
    session.on_block(&full);
    for _ in 0..9 {
        assert_eq!(session.on_timeout().send, Transmit::Repeat);
    }
    // A stray packet neither counts as a timeout nor starts the count anew.
    assert_eq!(session.on_datagram(&ack(5)).send, Transmit::Repeat);
    assert_eq!(session.retries, 9);
    session.on_datagram(&ack(1));
    assert_eq!(session.retries, 0);
    session.on_block(&full);
    for _ in 0..9 {
        assert_eq!(session.on_timeout().send, Transmit::Repeat);
    }
    assert_eq!(session.phase, DownloadPhase::Sending);
    let reply = session.on_timeout();
    assert_eq!(
        reply.events,
        vec![ServerEvent::TransferFailed { id: 1, error: "timeout after 10 retries".to_string() }]
    );
}

#[test]
fn download_sends_the_file_to_a_noisy_peer() {
    let content: Vec<u8> = (0..3000usize).map(|i| (i * 17 % 256) as u8).collect();
    let mut options = Options::new();
    options.insert("blksize".to_string(), "700".to_string());
    let (mut session, first) = Download::start(1, PEER, "f", 1000, 3000, &options, OS_MAX);
    assert!(matches!(first.send, Transmit::Datagram(_)));
    // The OACK is lost twice before the peer acknowledges it.
    assert_eq!(session.on_timeout().send, Transmit::Repeat);
    assert_eq!(session.on_timeout().send, Transmit::Repeat);
    session.on_datagram(&ack(0));
    let mut received = Vec::new();
    let mut offset = 0usize;
    let mut round = 0u32;
    let mut ends = 0;
    while session.phase != DownloadPhase::Done {
        let end = (offset + session.blksize).min(content.len());
        let reply = session.on_block(&content[offset..end]);
        offset = end;
        let block = match Packet::from_bytes(&sent(&reply)).unwrap() {
            Packet::DATA { block_num, data } => {
                received.extend(data);
                block_num
            }
            other => panic!("expected DATA, got {:?}", other),
        };
        // What was sent so far is the file up to the place read.
        assert_eq!(received, content[..offset]);
        // Noise before the ACK: a timeout, an old ACK, rubbish, a duplicate ACK.
        round += 1;
        if round % 2 == 0 {
            assert_eq!(session.on_timeout().send, Transmit::Repeat);
        }
        assert_eq!(session.on_datagram(&ack(block.wrapping_sub(1))).send, Transmit::Repeat);
        assert_eq!(session.on_datagram(&[1]).send, Transmit::Repeat);
        let reply = session.on_datagram(&ack(block));
        ends += reply
            .events
            .iter()
            .filter(|e| matches!(e, ServerEvent::TransferComplete(_)))
            .count();
        assert_eq!(session.on_datagram(&ack(block)).events, vec![]);
    }
    assert_eq!(ends, 1);
    assert_eq!(received, content);
    assert_eq!(session.transferred, 3000);
    assert_eq!(session.block_num, 5);
}
