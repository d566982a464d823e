use vstd::prelude::*;
use crate::decimal::{decimal, parse_decimal, parse_usize, u64_to_decimal};
use crate::options::Options;
use crate::tftp_protocol::{BLOCK_SIZE, MAX_BLKSIZE};

verus! {

/// How long to wait for an ACK or a DATA packet before retransmitting, in
/// milliseconds.
pub const TIMEOUT_MS: u64 = 500;

/// Timeouts in a row, while one packet is awaited, after which a session
/// gives up.
pub const MAX_RETRIES: u32 = 10;

/// Largest datagram ever expected: the 4-byte header and the largest block.
pub const MAX_PACKET: usize = 4 + MAX_BLKSIZE;

/// The size of the send and receive buffers of a session's socket: room for
/// two datagrams of the block size with their 4-byte headers, and the
/// largest size there is where that does not fit.
pub open spec fn buffer_size(blksize: usize) -> usize {
    if (4 + blksize) * 2 > usize::MAX {
        usize::MAX
    } else {
        ((4 + blksize) * 2) as usize
    }
}

/// The size of the send and receive buffers of a session's socket.
pub fn transfer_buffer_size(blksize: usize) -> (size: usize)
    ensures
        size == buffer_size(blksize),
        blksize <= MAX_BLKSIZE ==> size == (4 + blksize) * 2,
{
    if blksize > (usize::MAX - 8) / 2 {
        usize::MAX
    } else {
        (4 + blksize) * 2
    }
}

/// Direction of a transfer.
#[derive(Debug, Clone, Copy, PartialEq, Eq, Structural)]
pub enum TransferKind {
    /// RRQ: the client downloads from the server.
    Download,
    /// WRQ: the client uploads to the server.
    Upload,
}

/// A snapshot of a running transfer, suitable for display.
#[derive(Debug, Clone, PartialEq, Eq)]
pub struct TransferInfo {
    pub id: u64,
    /// The peer's address, as text.
    pub peer: String,
    pub filename: String,
    pub kind: TransferKind,
    /// Total file size in bytes (known for downloads only).
    pub total_bytes: u64,
    /// Bytes transferred so far.
    pub transferred: u64,
    /// Transfer start time: milliseconds on the clock of the code that drives
    /// the session.
    pub started: u64,
    /// Whether the total file size is known (true for downloads, false for uploads).
    pub size_known: bool,
}

/// What a `TransferInfo` says.
pub struct TransferInfoModel {
    pub id: u64,
    pub peer: Seq<char>,
    pub filename: Seq<char>,
    pub kind: TransferKind,
    pub total_bytes: u64,
    pub transferred: u64,
    pub started: u64,
    pub size_known: bool,
}

impl View for TransferInfo {
    type V = TransferInfoModel;

    open spec fn view(&self) -> TransferInfoModel {
        TransferInfoModel {
            id: self.id,
            peer: self.peer@,
            filename: self.filename@,
            kind: self.kind,
            total_bytes: self.total_bytes,
            transferred: self.transferred,
            started: self.started,
            size_known: self.size_known,
        }
    }
}

/// Events emitted by the server for its observer.
#[derive(Debug, Clone, PartialEq, Eq)]
pub enum ServerEvent {
    Log(String),
    TransferStarted(TransferInfo),
    TransferProgress { id: u64, transferred: u64, total_bytes: u64 },
    TransferComplete(u64),
    TransferFailed { id: u64, error: String },
}

/// What a `ServerEvent` says.
pub enum EventModel {
    Log(Seq<char>),
    TransferStarted(TransferInfoModel),
    TransferProgress { id: u64, transferred: u64, total_bytes: u64 },
    TransferComplete(u64),
    TransferFailed { id: u64, error: Seq<char> },
}

impl View for ServerEvent {
    type V = EventModel;

    open spec fn view(&self) -> EventModel {
        match self {
            ServerEvent::Log(text) => EventModel::Log(text@),
            ServerEvent::TransferStarted(info) => EventModel::TransferStarted(info@),
            ServerEvent::TransferProgress { id, transferred, total_bytes } => {
                EventModel::TransferProgress {
                    id: *id,
                    transferred: *transferred,
                    total_bytes: *total_bytes,
                }
            },
            ServerEvent::TransferComplete(id) => EventModel::TransferComplete(*id),
            ServerEvent::TransferFailed { id, error } => EventModel::TransferFailed {
                id: *id,
                error: error@,
            },
        }
    }
}

/// The events that a list of `ServerEvent`s says, in order.
pub open spec fn event_models(events: Seq<ServerEvent>) -> Seq<EventModel> {
    Seq::new(events.len(), |i: int| events[i]@)
}

/// An event that ends a transfer.
pub open spec fn is_terminator(e: EventModel) -> bool {
    e is TransferComplete || e is TransferFailed
}

/// The block size that the client asks for: the value of `blksize` where it
/// spells a number from 8 to 65464.
pub open spec fn requested_blksize(options: Map<Seq<char>, Seq<char>>) -> Option<nat> {
    if options.contains_key("blksize"@) {
        match parse_decimal(options["blksize"@]) {
            Some(n) => if 8 <= n <= MAX_BLKSIZE {
                Some(n)
            } else {
                None
            },
            None => None,
        }
    } else {
        None
    }
}

/// The block size of the transfer: what the client asks for, capped by what
/// the kernel sends in one datagram; 512 where it asks for nothing valid.
pub open spec fn negotiated_blksize(options: Map<Seq<char>, Seq<char>>, os_max: nat) -> nat {
    match requested_blksize(options) {
        Some(n) => if n <= os_max {
            n
        } else {
            os_max
        },
        None => BLOCK_SIZE as nat,
    }
}

/// The options that are acknowledged: `blksize` with the negotiated size
/// where a valid one was asked for, and `tsize` with `0` where the client
/// named it.
pub open spec fn acked_options(options: Map<Seq<char>, Seq<char>>, os_max: nat) -> Map<
    Seq<char>,
    Seq<char>,
> {
    let sized = if requested_blksize(options) is Some {
        Map::<Seq<char>, Seq<char>>::empty().insert(
            "blksize"@,
            decimal(negotiated_blksize(options, os_max)),
        )
    } else {
        Map::<Seq<char>, Seq<char>>::empty()
    };
    if options.contains_key("tsize"@) {
        sized.insert("tsize"@, "0"@)
    } else {
        sized
    }
}

/// The acknowledged options in the order in which they are written:
/// `blksize` first, then `tsize` with the value given.
pub open spec fn oack_pairs(options: Map<Seq<char>, Seq<char>>, os_max: nat, tsize: Seq<char>) -> Seq<
    (Seq<char>, Seq<char>),
> {
    let sized = if requested_blksize(options) is Some {
        seq![("blksize"@, decimal(negotiated_blksize(options, os_max)))]
    } else {
        Seq::<(Seq<char>, Seq<char>)>::empty()
    };
    if options.contains_key("tsize"@) {
        sized.push(("tsize"@, tsize))
    } else {
        sized
    }
}

/// Negotiate blksize from client options. Returns the negotiated block size
/// and the options to acknowledge. `os_max` is the largest block that the
/// kernel sends in one datagram.
pub fn negotiate_options(client_options: &Options, os_max: usize) -> (r: (usize, Options))
    ensures
        r.0 == negotiated_blksize(client_options@, os_max as nat),
        r.1@ == acked_options(client_options@, os_max as nat),
        r.1.pairs() == oack_pairs(client_options@, os_max as nat, "0"@),
        os_max >= BLOCK_SIZE ==> 8 <= r.0 <= MAX_BLKSIZE && r.0 <= os_max,
{
    let mut acked = Options::new();
    let mut blksize: usize = BLOCK_SIZE;
    match client_options.get("blksize") {
        Some(val) => {
            match parse_usize(val.as_str()) {
                Some(requested) => {
                    if 8 <= requested && requested <= MAX_BLKSIZE {
                        blksize = if requested <= os_max {
                            requested
                        } else {
                            os_max
                        };
                        acked.insert("blksize".to_owned(), u64_to_decimal(blksize as u64));
                    }
                },
                None => {},
            }
        },
        None => {},
    }
    proof {
        reveal_strlit("blksize");
        reveal_strlit("tsize");
        assert("blksize"@.len() != "tsize"@.len());
        if acked.pairs().len() > 0 {
            assert(acked.pairs()[0].0 == "blksize"@);
        }
    }
    if client_options.contains_key("tsize") {
        acked.insert("tsize".to_owned(), "0".to_owned());
    }
    (blksize, acked)
}

/// A request for a block size below 8 or above 65464 is ignored: the size
/// stays 512 and `blksize` is not acknowledged. A request from 8 to 65464
/// is acknowledged with the size asked for, capped by `os_max`.
pub proof fn lemma_blksize_rule(options: Map<Seq<char>, Seq<char>>, os_max: nat, n: nat)
    requires
        options.contains_key("blksize"@),
        parse_decimal(options["blksize"@]) == Some(n),
    ensures
        n < 8 || n > 65464 ==> negotiated_blksize(options, os_max) == 512 && !acked_options(
            options,
            os_max,
        ).contains_key("blksize"@),
        8 <= n <= 65464 ==> negotiated_blksize(options, os_max) == vstd::math::min(
            n as int,
            os_max as int,
        ) && acked_options(options, os_max).contains_key("blksize"@) && acked_options(
            options,
            os_max,
        )["blksize"@] == decimal(vstd::math::min(n as int, os_max as int) as nat),
{
    reveal_strlit("blksize");
    reveal_strlit("tsize");
    assert("blksize"@.len() != "tsize"@.len());
}

} // verus!
