use vstd::prelude::*;
use crate::decimal::{decimal, u64_to_decimal};
use crate::options::Options;
use crate::server::{
    negotiate_options, negotiated_blksize, oack_pairs, EventModel, ServerEvent, TransferInfo,
    TransferInfoModel, TransferKind, MAX_RETRIES,
};
use crate::tftp_protocol::{
    be16_bytes, decode, encode_pairs, MalformedPacket, Packet, PacketModel, OPCODE_DATA,
    OPCODE_OACK,
};
use crate::transfer::{
    bad_packet_message, bad_packet_text, client_error_message, client_error_text,
    data_timeout_text, failing, oack_timeout_text, one_event, repeating, sending, silent,
    two_events, Reply, ReplyModel, Transmit, TransmitModel,
};

verus! {

/// Where a download stands.
#[derive(Debug, Clone, Copy, PartialEq, Eq, Structural)]
pub enum DownloadPhase {
    /// The OACK was sent; `ACK 0` is awaited.
    Negotiating,
    /// The next block of the file is wanted.
    NeedBlock,
    /// A DATA packet was sent; its ACK is awaited.
    Sending,
    /// The transfer has ended.
    Done,
}

/// One download (RRQ): a file goes to the peer block by block, each block
/// sent again until it is acknowledged.
#[derive(Debug, Clone, Copy, PartialEq, Eq)]
pub struct Download {
    pub id: u64,
    /// Negotiated payload size of a DATA packet.
    pub blksize: usize,
    /// Size of the file when the transfer began.
    pub total_bytes: u64,
    pub phase: DownloadPhase,
    /// Number of the block that is sent next or awaits its ACK.
    pub block_num: u16,
    /// Timeouts counted while the present ACK is awaited.
    pub retries: u32,
    /// Payload bytes acknowledged so far.
    pub transferred: u64,
    /// Payload length of the block that awaits its ACK.
    pub last_len: usize,
}

/// A byte count after more bytes were added, held at the largest value
/// where it would not fit.
pub open spec fn add_bytes(count: u64, more: nat) -> u64 {
    if count + more > u64::MAX {
        u64::MAX
    } else {
        (count + more) as u64
    }
}

/// The block number after `n`: it wraps from 65535 to 0.
pub open spec fn next_block(n: u16) -> u16 {
    if n == u16::MAX {
        0
    } else {
        (n + 1) as u16
    }
}

/// The block number before `n`: it wraps from 0 to 65535.
pub open spec fn previous_block(n: u16) -> u16 {
    if n == 0 {
        u16::MAX
    } else {
        (n - 1) as u16
    }
}

/// A DATA packet on the wire.
pub open spec fn data_wire(block_num: u16, payload: Seq<u8>) -> Seq<u8> {
    be16_bytes(OPCODE_DATA) + be16_bytes(block_num) + payload
}

/// The download after it failed with the text given.
pub open spec fn download_failed(s: Download, text: Seq<char>) -> (Download, ReplyModel) {
    (Download { phase: DownloadPhase::Done, ..s }, failing(s.id, text))
}

/// The progress event of a download.
pub open spec fn download_progress(s: Download) -> EventModel {
    EventModel::TransferProgress {
        id: s.id,
        transferred: s.transferred,
        total_bytes: s.total_bytes,
    }
}

/// The download after the block in flight was acknowledged: its bytes are
/// counted and reported; a block shorter than the block size was the last
/// one, after any other the next block is wanted.
pub open spec fn download_acked(s: Download) -> (Download, ReplyModel) {
    let counted = Download { transferred: add_bytes(s.transferred, s.last_len as nat), ..s };
    if s.last_len < s.blksize {
        (
            Download { phase: DownloadPhase::Done, ..counted },
            ReplyModel {
                write: None,
                send: TransmitModel::Nothing,
                events: seq![download_progress(counted), EventModel::TransferComplete(s.id)],
            },
        )
    } else {
        (
            Download {
                phase: DownloadPhase::NeedBlock,
                block_num: next_block(s.block_num),
                retries: 0,
                ..counted
            },
            ReplyModel {
                write: None,
                send: TransmitModel::Nothing,
                events: seq![download_progress(counted)],
            },
        )
    }
}

/// The reply to a datagram that does not move the download on: the last
/// datagram is sent again, and a datagram that is no packet is logged.
pub open spec fn download_resend(r: Result<PacketModel, MalformedPacket>) -> ReplyModel {
    match r {
        Ok(_) => repeating(),
        Err(e) => ReplyModel {
            write: None,
            send: TransmitModel::Repeat,
            events: seq![EventModel::Log(bad_packet_text(e))],
        },
    }
}

/// What a received datagram does to a download.
pub open spec fn download_datagram(s: Download, bytes: Seq<u8>) -> (Download, ReplyModel) {
    let packet = decode(bytes);
    match s.phase {
        DownloadPhase::Negotiating => match packet {
            Ok(PacketModel::ACK { block_num }) => if block_num == 0 {
                (Download { phase: DownloadPhase::NeedBlock, retries: 0, ..s }, silent())
            } else {
                (s, repeating())
            },
            Ok(PacketModel::ERROR { code, msg }) => download_failed(s, client_error_text(code, msg)),
            _ => (s, download_resend(packet)),
        },
        DownloadPhase::Sending => match packet {
            Ok(PacketModel::ACK { block_num }) => if block_num == s.block_num {
                download_acked(s)
            } else {
                (s, repeating())
            },
            Ok(PacketModel::ERROR { code, msg }) => download_failed(s, client_error_text(code, msg)),
            _ => (s, download_resend(packet)),
        },
        _ => (s, silent()),
    }
}

/// What a timeout does to a download: it is counted, and the last datagram
/// is sent again; the tenth timeout while one ACK is awaited fails the
/// transfer instead.
pub open spec fn download_timeout(s: Download) -> (Download, ReplyModel) {
    match s.phase {
        DownloadPhase::Negotiating => if s.retries + 1 >= MAX_RETRIES {
            download_failed(s, oack_timeout_text())
        } else {
            (Download { retries: (s.retries + 1) as u32, ..s }, repeating())
        },
        DownloadPhase::Sending => if s.retries + 1 >= MAX_RETRIES {
            download_failed(s, data_timeout_text())
        } else {
            (Download { retries: (s.retries + 1) as u32, ..s }, repeating())
        },
        _ => (s, silent()),
    }
}

/// What the next block of the file does to a download that wants it: the
/// block goes out as DATA under the present block number. A block longer
/// than the block size, or one that was not asked for, changes nothing.
pub open spec fn download_block(s: Download, payload: Seq<u8>) -> (Download, ReplyModel) {
    if s.phase == DownloadPhase::NeedBlock && payload.len() <= s.blksize {
        (
            Download {
                phase: DownloadPhase::Sending,
                last_len: payload.len() as usize,
                retries: 0,
                ..s
            },
            sending(data_wire(s.block_num, payload)),
        )
    } else {
        (s, silent())
    }
}

/// What a failure outside the protocol does to a download that has not
/// ended: it fails with the text given.
pub open spec fn download_abort(s: Download, text: Seq<char>) -> (Download, ReplyModel) {
    if s.phase == DownloadPhase::Done {
        (s, silent())
    } else {
        download_failed(s, text)
    }
}

/// The options that a download acknowledges: those negotiated, with
/// `tsize` set to the size of the file.
pub open spec fn download_oack_pairs(
    options: Map<Seq<char>, Seq<char>>,
    os_max: nat,
    total_bytes: u64,
) -> Seq<(Seq<char>, Seq<char>)> {
    oack_pairs(options, os_max, decimal(total_bytes as nat))
}

/// A download as it begins, and its first reply: the transfer is announced
/// with its size known; where options are acknowledged the OACK goes out
/// and `ACK 0` is awaited, else the first block is wanted at once.
pub open spec fn download_start(
    id: u64,
    peer: Seq<char>,
    filename: Seq<char>,
    started: u64,
    total_bytes: u64,
    options: Map<Seq<char>, Seq<char>>,
    os_max: nat,
) -> (Download, ReplyModel) {
    let pairs = download_oack_pairs(options, os_max, total_bytes);
    let started = EventModel::TransferStarted(
        TransferInfoModel {
            id,
            peer,
            filename,
            kind: TransferKind::Download,
            total_bytes,
            transferred: 0,
            started,
            size_known: true,
        },
    );
    let s = Download {
        id,
        blksize: negotiated_blksize(options, os_max) as usize,
        total_bytes,
        phase: if pairs.len() == 0 {
            DownloadPhase::NeedBlock
        } else {
            DownloadPhase::Negotiating
        },
        block_num: 1,
        retries: 0,
        transferred: 0,
        last_len: 0,
    };
    (
        s,
        ReplyModel {
            write: None,
            send: if pairs.len() == 0 {
                TransmitModel::Nothing
            } else {
                TransmitModel::Datagram(be16_bytes(OPCODE_OACK) + encode_pairs(pairs))
            },
            events: seq![started],
        },
    )
}

pub(crate) fn add_to_count(count: u64, more: usize) -> (r: u64)
    ensures
        r == add_bytes(count, more as nat),
{
    let m: u64 = more as u64;
    if u64::MAX - count < m {
        u64::MAX
    } else {
        count + m
    }
}

impl Download {
    /// Begins a download of a file of `total_bytes` bytes for the peer at
    /// `peer`, at the time `started`. `os_max` is the largest block that the
    /// kernel sends in one datagram.
    pub fn start(
        id: u64,
        peer: &str,
        filename: &str,
        started: u64,
        total_bytes: u64,
        options: &Options,
        os_max: usize,
    ) -> (r: (Download, Reply))
        ensures
            (r.0, r.1@) == download_start(
                id,
                peer@,
                filename@,
                started,
                total_bytes,
                options@,
                os_max as nat,
            ),
    {
        let (blksize, mut acked) = negotiate_options(options, os_max);
        proof {
            reveal_strlit("blksize");
            reveal_strlit("tsize");
            assert("blksize"@.len() != "tsize"@.len());
        }
        if acked.contains_key("tsize") {
            proof {
                crate::options::lemma_pairs_to_map_dom(acked.pairs(), "tsize"@);
            }
            acked.insert("tsize".to_owned(), u64_to_decimal(total_bytes));
        } else {
            proof {
                crate::options::lemma_pairs_to_map_dom(acked.pairs(), "tsize"@);
            }
        }
        assert(acked.pairs() =~= download_oack_pairs(options@, os_max as nat, total_bytes));
        let started = ServerEvent::TransferStarted(
            TransferInfo {
                id,
                peer: peer.to_owned(),
                filename: filename.to_owned(),
                kind: TransferKind::Download,
                total_bytes,
                transferred: 0,
                started,
                size_known: true,
            },
        );
        let negotiate = !acked.is_empty();
        let send = if negotiate {
            Transmit::Datagram((Packet::OACK { options: acked }).to_bytes())
        } else {
            Transmit::Nothing
        };
        let session = Download {
            id,
            blksize,
            total_bytes,
            phase: if negotiate {
                DownloadPhase::Negotiating
            } else {
                DownloadPhase::NeedBlock
            },
            block_num: 1,
            retries: 0,
            transferred: 0,
            last_len: 0,
        };
        (session, Reply { write: None, send, events: one_event(started) })
    }

    fn fail(&mut self, text: String) -> (r: Reply)
        ensures
            (*final(self), r@) == download_failed(*old(self), text@),
    {
        self.phase = DownloadPhase::Done;
        Reply::failing(self.id, text)
    }

    fn acked(&mut self) -> (r: Reply)
        ensures
            (*final(self), r@) == download_acked(*old(self)),
    {
        self.transferred = add_to_count(self.transferred, self.last_len);
        let progress = ServerEvent::TransferProgress {
            id: self.id,
            transferred: self.transferred,
            total_bytes: self.total_bytes,
        };
        if self.last_len < self.blksize {
            self.phase = DownloadPhase::Done;
            Reply {
                write: None,
                send: Transmit::Nothing,
                events: two_events(progress, ServerEvent::TransferComplete(self.id)),
            }
        } else {
            self.phase = DownloadPhase::NeedBlock;
            self.block_num = self.block_num.wrapping_add(1);
            self.retries = 0;
            Reply { write: None, send: Transmit::Nothing, events: one_event(progress) }
        }
    }

    /// Takes a datagram that came from the peer.
    pub fn on_datagram(&mut self, buf: &[u8]) -> (r: Reply)
        ensures
            (*final(self), r@) == download_datagram(*old(self), buf@),
    {
        match self.phase {
            DownloadPhase::Negotiating => {
                match Packet::from_bytes(buf) {
                    Ok(Packet::ACK { block_num }) => {
                        if block_num == 0 {
                            self.phase = DownloadPhase::NeedBlock;
                            self.retries = 0;
                            Reply::silent()
                        } else {
                            Reply::repeating()
                        }
                    },
                    Ok(Packet::ERROR { code, msg }) => self.fail(
                        client_error_message(code, msg.as_str()),
                    ),
                    Ok(_) => Reply::repeating(),
                    Err(e) => Reply {
                        write: None,
                        send: Transmit::Repeat,
                        events: one_event(ServerEvent::Log(bad_packet_message(e))),
                    },
                }
            },
            DownloadPhase::Sending => {
                match Packet::from_bytes(buf) {
                    Ok(Packet::ACK { block_num }) => {
                        if block_num == self.block_num {
                            self.acked()
                        } else {
                            Reply::repeating()
                        }
                    },
                    Ok(Packet::ERROR { code, msg }) => self.fail(
                        client_error_message(code, msg.as_str()),
                    ),
                    Ok(_) => Reply::repeating(),
                    Err(e) => Reply {
                        write: None,
                        send: Transmit::Repeat,
                        events: one_event(ServerEvent::Log(bad_packet_message(e))),
                    },
                }
            },
            _ => Reply::silent(),
        }
    }

    /// Takes note that nothing came within the time allowed.
    pub fn on_timeout(&mut self) -> (r: Reply)
        ensures
            (*final(self), r@) == download_timeout(*old(self)),
    {
        match self.phase {
            DownloadPhase::Negotiating => {
                if self.retries >= MAX_RETRIES - 1 {
                    self.fail("timeout waiting for OACK acknowledgment".to_owned())
                } else {
                    self.retries = self.retries + 1;
                    Reply::repeating()
                }
            },
            DownloadPhase::Sending => {
                if self.retries >= MAX_RETRIES - 1 {
                    self.fail("timeout after 10 retries".to_owned())
                } else {
                    self.retries = self.retries + 1;
                    Reply::repeating()
                }
            },
            _ => Reply::silent(),
        }
    }

    /// Takes the next block of the file: up to `blksize` bytes, fewer only
    /// at the end of the file.
    pub fn on_block(&mut self, payload: &[u8]) -> (r: Reply)
        ensures
            (*final(self), r@) == download_block(*old(self), payload@),
    {
        if self.phase == DownloadPhase::NeedBlock && payload.len() <= self.blksize {
            let data = vstd::slice::slice_to_vec(payload);
            let bytes = (Packet::DATA { block_num: self.block_num, data }).to_bytes();
            self.phase = DownloadPhase::Sending;
            self.last_len = payload.len();
            self.retries = 0;
            Reply::sending(bytes)
        } else {
            Reply::silent()
        }
    }

    /// Ends the download on a failure outside the protocol.
    pub fn abort(&mut self, text: String) -> (r: Reply)
        ensures
            (*final(self), r@) == download_abort(*old(self), text@),
    {
        if self.phase == DownloadPhase::Done {
            Reply::silent()
        } else {
            self.fail(text)
        }
    }
}

} // verus!
