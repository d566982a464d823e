use tftp_rs::listener::{Dispatch, Listener};
use tftp_rs::options::Options;
use tftp_rs::tftp_protocol::{MalformedPacket, Packet};

fn rrq(name: &str) -> Vec<u8> {
    Packet::RRQ { filename: name.into(), mode: "octet".into(), options: Options::new() }.to_bytes()
}

fn wrq(name: &str) -> Vec<u8> {
    let mut options = Options::new();
    options.insert("blksize".to_string(), "1024".to_string());
    Packet::WRQ { filename: name.into(), mode: "octet".into(), options }.to_bytes()
}

#[test]
fn first_session_gets_id_one() {
    let mut listener = Listener::new();
    assert_eq!(listener.next_id, 1);
    match listener.dispatch(&rrq("a.txt")) {
        Dispatch::Read { id, filename, mode, options } => {
            assert_eq!(id, 1);
            assert_eq!(filename, "a.txt");
            assert_eq!(mode, "octet");
            assert!(options.is_empty());
        }
        other => panic!("expected a read, got {:?}", other),
    }
    assert_eq!(listener.next_id, 2);
}

#[test]
fn write_request_opens_an_upload() {
    let mut listener = Listener { next_id: 41 };
    match listener.dispatch(&wrq("up.bin")) {
        Dispatch::Write { id, filename, options, .. } => {
            assert_eq!(id, 41);
            assert_eq!(filename, "up.bin");
            assert_eq!(options.get("blksize").unwrap(), "1024");
        }
        other => panic!("expected a write, got {:?}", other),
    }
    assert_eq!(listener.next_id, 42);
}

#[test]
fn other_packets_open_no_session() {
    let mut listener = Listener::new();
    let stray = [
        Packet::ACK { block_num: 3 }.to_bytes(),
        Packet::DATA { block_num: 1, data: vec![1] }.to_bytes(),
        Packet::error(1, "x").to_bytes(),
        Packet::OACK { options: Options::new() }.to_bytes(),
    ];
    for bytes in stray {
        match listener.dispatch(&bytes) {
            Dispatch::Unexpected(_) => {}
            other => panic!("expected no session, got {:?}", other),
        }
        assert_eq!(listener.next_id, 1);
    }
    match listener.dispatch(&Packet::ACK { block_num: 3 }.to_bytes()) {
        Dispatch::Unexpected(Packet::ACK { block_num }) => assert_eq!(block_num, 3),
        other => panic!("expected the ACK, got {:?}", other),
    }
}

#[test]
fn bad_datagrams_are_dropped() {
    let mut listener = Listener::new();
    match listener.dispatch(&[]) {
        Dispatch::Malformed(e) => assert_eq!(e, MalformedPacket::TooShort),
        other => panic!("expected a refusal, got {:?}", other),
    }
    match listener.dispatch(&[0, 1, b'f']) {
        Dispatch::Malformed(e) => assert_eq!(e, MalformedPacket::MissingMode),
        other => panic!("expected a refusal, got {:?}", other),
    }
    match listener.dispatch(&[0, 42]) {
        Dispatch::Malformed(e) => assert_eq!(e, MalformedPacket::UnknownOpcode { opcode: 42 }),
        other => panic!("expected a refusal, got {:?}", other),
    }
    assert_eq!(listener.next_id, 1);
}

#[test]
fn session_ids_increase_strictly() {
    let mut listener = Listener::new();
    let datagrams = [
        rrq("a"),
        vec![9, 9],
        wrq("b"),
        Packet::ACK { block_num: 0 }.to_bytes(),
        rrq("c"),
        rrq("a"),
    ];
    let mut ids = Vec::new();
    for bytes in datagrams {
        match listener.dispatch(&bytes) {
            Dispatch::Read { id, .. } | Dispatch::Write { id, .. } => ids.push(id),
            _ => {}
        }
    }
    assert_eq!(ids, vec![1, 2, 3, 4]);
    assert_eq!(listener.next_id, 5);
}
