use vstd::prelude::*;
use crate::download::{add_bytes, add_to_count, next_block, previous_block};
use crate::options::Options;
use crate::server::{
    negotiate_options, negotiated_blksize, oack_pairs, EventModel, ServerEvent, TransferInfo,
    TransferInfoModel, TransferKind, MAX_RETRIES,
};
use crate::tftp_protocol::{
    be16_bytes, decode, encode_pairs, Packet, PacketModel, OPCODE_ACK, OPCODE_OACK,
};
use crate::transfer::{
    bad_packet_message, bad_packet_text, block_timeout_message, block_timeout_text,
    client_error_message, client_error_text, failing, one_event, sending, silent, Reply,
    ReplyModel, Transmit, TransmitModel,
};

verus! {

/// Where an upload stands.
#[derive(Debug, Clone, Copy, PartialEq, Eq, Structural)]
pub enum UploadPhase {
    /// The next DATA packet is awaited.
    Receiving,
    /// The last block was taken; the file is to be flushed.
    Closing,
    /// The transfer has ended.
    Done,
}

/// One upload (WRQ): the peer's file arrives block by block, each block
/// acknowledged as it is taken.
#[derive(Debug, Clone, Copy, PartialEq, Eq)]
pub struct Upload {
    pub id: u64,
    /// Negotiated payload size of a DATA packet.
    pub blksize: usize,
    pub phase: UploadPhase,
    /// Number of the block that is awaited.
    pub expected_block: u16,
    /// Timeouts counted while the present block is awaited.
    pub retries: u32,
    /// Payload bytes taken so far.
    pub transferred: u64,
}

/// An ACK packet on the wire.
pub open spec fn ack_wire(block_num: u16) -> Seq<u8> {
    be16_bytes(OPCODE_ACK) + be16_bytes(block_num)
}

/// The upload after it failed with the text given.
pub open spec fn upload_failed(s: Upload, text: Seq<char>) -> (Upload, ReplyModel) {
    (Upload { phase: UploadPhase::Done, ..s }, failing(s.id, text))
}

/// The upload after the awaited block came: its payload is to be written,
/// the block is acknowledged, and the bytes so far are reported as both
/// count and total. A payload shorter than the block size was the last one;
/// after any other the next block is awaited.
pub open spec fn upload_accepted(s: Upload, data: Seq<u8>) -> (Upload, ReplyModel) {
    let transferred = add_bytes(s.transferred, data.len());
    let reply = ReplyModel {
        write: Some(data),
        send: TransmitModel::Datagram(ack_wire(s.expected_block)),
        events: seq![
            EventModel::TransferProgress { id: s.id, transferred, total_bytes: transferred },
        ],
    };
    if data.len() < s.blksize {
        (Upload { phase: UploadPhase::Closing, transferred, ..s }, reply)
    } else {
        (
            Upload {
                expected_block: next_block(s.expected_block),
                retries: 0,
                transferred,
                ..s
            },
            reply,
        )
    }
}

/// What a received datagram does to an upload. The awaited block is taken.
/// The block before it is acknowledged again and changes nothing. An ERROR
/// packet fails the transfer. Any other packet is ignored, and a datagram
/// that is no packet is logged.
pub open spec fn upload_datagram(s: Upload, bytes: Seq<u8>) -> (Upload, ReplyModel) {
    match s.phase {
        UploadPhase::Receiving => match decode(bytes) {
            Ok(PacketModel::DATA { block_num, data }) => if block_num == s.expected_block {
                upload_accepted(s, data)
            } else if block_num == previous_block(s.expected_block) {
                (s, sending(ack_wire(block_num)))
            } else {
                (s, silent())
            },
            Ok(PacketModel::ERROR { code, msg }) => upload_failed(s, client_error_text(code, msg)),
            Ok(_) => (s, silent()),
            Err(e) => (
                s,
                ReplyModel {
                    write: None,
                    send: TransmitModel::Nothing,
                    events: seq![EventModel::Log(bad_packet_text(e))],
                },
            ),
        },
        _ => (s, silent()),
    }
}

/// What a timeout does to an upload: it is counted, and the block before
/// the awaited one is acknowledged again; the tenth timeout while one block
/// is awaited fails the transfer instead.
pub open spec fn upload_timeout(s: Upload) -> (Upload, ReplyModel) {
    match s.phase {
        UploadPhase::Receiving => if s.retries + 1 >= MAX_RETRIES {
            upload_failed(s, block_timeout_text(s.expected_block))
        } else {
            (
                Upload { retries: (s.retries + 1) as u32, ..s },
                sending(ack_wire(previous_block(s.expected_block))),
            )
        },
        _ => (s, silent()),
    }
}

/// What the flushing of the file does to an upload that took its last
/// block: the transfer is complete.
pub open spec fn upload_finish(s: Upload) -> (Upload, ReplyModel) {
    if s.phase == UploadPhase::Closing {
        (
            Upload { phase: UploadPhase::Done, ..s },
            ReplyModel {
                write: None,
                send: TransmitModel::Nothing,
                events: seq![EventModel::TransferComplete(s.id)],
            },
        )
    } else {
        (s, silent())
    }
}

/// What a failure outside the protocol does to an upload that has not
/// ended: it fails with the text given.
pub open spec fn upload_abort(s: Upload, text: Seq<char>) -> (Upload, ReplyModel) {
    if s.phase == UploadPhase::Done {
        (s, silent())
    } else {
        upload_failed(s, text)
    }
}

/// An upload as it begins, and its first reply: the transfer is announced
/// with its size unknown; the request is answered with the OACK where
/// options are acknowledged, and with `ACK 0` where none is.
pub open spec fn upload_start(
    id: u64,
    peer: Seq<char>,
    filename: Seq<char>,
    started: u64,
    options: Map<Seq<char>, Seq<char>>,
    os_max: nat,
) -> (Upload, ReplyModel) {
    let pairs = oack_pairs(options, os_max, "0"@);
    let started = EventModel::TransferStarted(
        TransferInfoModel {
            id,
            peer,
            filename,
            kind: TransferKind::Upload,
            total_bytes: 0,
            transferred: 0,
            started,
            size_known: false,
        },
    );
    (
        Upload {
            id,
            blksize: negotiated_blksize(options, os_max) as usize,
            phase: UploadPhase::Receiving,
            expected_block: 1,
            retries: 0,
            transferred: 0,
        },
        ReplyModel {
            write: None,
            send: if pairs.len() == 0 {
                TransmitModel::Datagram(ack_wire(0))
            } else {
                TransmitModel::Datagram(be16_bytes(OPCODE_OACK) + encode_pairs(pairs))
            },
            events: seq![started],
        },
    )
}

fn ack_bytes(block_num: u16) -> (r: Vec<u8>)
    ensures
        r@ == ack_wire(block_num),
{
    (Packet::ACK { block_num }).to_bytes()
}

impl Upload {
    /// Begins an upload from the peer at `peer`, at the time `started`.
    /// `os_max` is the largest block that the kernel sends in one datagram.
    pub fn start(
        id: u64,
        peer: &str,
        filename: &str,
        started: u64,
        options: &Options,
        os_max: usize,
    ) -> (r: (Upload, Reply))
        ensures
            (r.0, r.1@) == upload_start(id, peer@, filename@, started, options@, os_max as nat),
    {
        let (blksize, acked) = negotiate_options(options, os_max);
        let started = ServerEvent::TransferStarted(
            TransferInfo {
                id,
                peer: peer.to_owned(),
                filename: filename.to_owned(),
                kind: TransferKind::Upload,
                total_bytes: 0,
                transferred: 0,
                started,
                size_known: false,
            },
        );
        let send = if acked.is_empty() {
            Transmit::Datagram(ack_bytes(0))
        } else {
            Transmit::Datagram((Packet::OACK { options: acked }).to_bytes())
        };
        let session = Upload {
            id,
            blksize,
            phase: UploadPhase::Receiving,
            expected_block: 1,
            retries: 0,
            transferred: 0,
        };
        (session, Reply { write: None, send, events: one_event(started) })
    }

    fn fail(&mut self, text: String) -> (r: Reply)
        ensures
            (*final(self), r@) == upload_failed(*old(self), text@),
    {
        self.phase = UploadPhase::Done;
        Reply::failing(self.id, text)
    }

    fn accepted(&mut self, data: Vec<u8>) -> (r: Reply)
        ensures
            (*final(self), r@) == upload_accepted(*old(self), data@),
    {
        let send = Transmit::Datagram(ack_bytes(self.expected_block));
        self.transferred = add_to_count(self.transferred, data.len());
        let progress = ServerEvent::TransferProgress {
            id: self.id,
            transferred: self.transferred,
            total_bytes: self.transferred,
        };
        if data.len() < self.blksize {
            self.phase = UploadPhase::Closing;
        } else {
            self.expected_block = self.expected_block.wrapping_add(1);
            self.retries = 0;
        }
        Reply { write: Some(data), send, events: one_event(progress) }
    }

    /// Takes a datagram that came from the peer.
    pub fn on_datagram(&mut self, buf: &[u8]) -> (r: Reply)
        ensures
            (*final(self), r@) == upload_datagram(*old(self), buf@),
    {
        match self.phase {
            UploadPhase::Receiving => {
                match Packet::from_bytes(buf) {
                    Ok(Packet::DATA { block_num, data }) => {
                        if block_num == self.expected_block {
                            self.accepted(data)
                        } else if block_num == self.expected_block.wrapping_sub(1) {
                            Reply::sending(ack_bytes(block_num))
                        } else {
                            Reply::silent()
                        }
                    },
                    Ok(Packet::ERROR { code, msg }) => self.fail(
                        client_error_message(code, msg.as_str()),
                    ),
                    Ok(_) => Reply::silent(),
                    Err(e) => Reply {
                        write: None,
                        send: Transmit::Nothing,
                        events: one_event(ServerEvent::Log(bad_packet_message(e))),
                    },
                }
            },
            _ => Reply::silent(),
        }
    }

    /// Takes note that nothing came within the time allowed.
    pub fn on_timeout(&mut self) -> (r: Reply)
        ensures
            (*final(self), r@) == upload_timeout(*old(self)),
    {
        match self.phase {
            UploadPhase::Receiving => {
                if self.retries >= MAX_RETRIES - 1 {
                    self.fail(block_timeout_message(self.expected_block))
                } else {
                    self.retries = self.retries + 1;
                    Reply::sending(ack_bytes(self.expected_block.wrapping_sub(1)))
                }
            },
            _ => Reply::silent(),
        }
    }

    /// Takes note that the file was flushed after its last block.
    pub fn finish(&mut self) -> (r: Reply)
        ensures
            (*final(self), r@) == upload_finish(*old(self)),
    {
        if self.phase == UploadPhase::Closing {
            self.phase = UploadPhase::Done;
            Reply {
                write: None,
                send: Transmit::Nothing,
                events: one_event(ServerEvent::TransferComplete(self.id)),
            }
        } else {
            Reply::silent()
        }
    }

    /// Ends the upload on a failure outside the protocol.
    pub fn abort(&mut self, text: String) -> (r: Reply)
        ensures
            (*final(self), r@) == upload_abort(*old(self), text@),
    {
        if self.phase == UploadPhase::Done {
            Reply::silent()
        } else {
            self.fail(text)
        }
    }
}

} // verus!
