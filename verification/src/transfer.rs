use vstd::prelude::*;
use vstd::string::StringExecFns;
use crate::decimal::{decimal, u64_to_decimal};
use crate::server::{event_models, EventModel, ServerEvent};
use crate::tftp_protocol::MalformedPacket;

verus! {

/// What a session puts on its socket after a step.
#[derive(Debug, Clone, PartialEq, Eq)]
pub enum Transmit {
    /// Nothing is sent.
    Nothing,
    /// This datagram is sent, and kept as the last one sent.
    Datagram(Vec<u8>),
    /// The last datagram sent is sent again.
    Repeat,
}

/// What a `Transmit` says.
pub enum TransmitModel {
    Nothing,
    Datagram(Seq<u8>),
    Repeat,
}

impl View for Transmit {
    type V = TransmitModel;

    open spec fn view(&self) -> TransmitModel {
        match self {
            Transmit::Nothing => TransmitModel::Nothing,
            Transmit::Datagram(bytes) => TransmitModel::Datagram(bytes@),
            Transmit::Repeat => TransmitModel::Repeat,
        }
    }
}

/// What a session asks of the code that drives it after one step: bytes to
/// write to the destination file, a datagram to send, and events to hand to
/// the observer, in this order.
#[derive(Debug, Clone, PartialEq, Eq)]
pub struct Reply {
    pub write: Option<Vec<u8>>,
    pub send: Transmit,
    pub events: Vec<ServerEvent>,
}

/// What a `Reply` says.
pub struct ReplyModel {
    pub write: Option<Seq<u8>>,
    pub send: TransmitModel,
    pub events: Seq<EventModel>,
}

impl View for Reply {
    type V = ReplyModel;

    open spec fn view(&self) -> ReplyModel {
        ReplyModel {
            write: match self.write {
                Some(bytes) => Some(bytes@),
                None => None,
            },
            send: self.send@,
            events: event_models(self.events@),
        }
    }
}

/// The reply that asks for nothing.
pub open spec fn silent() -> ReplyModel {
    ReplyModel { write: None, send: TransmitModel::Nothing, events: Seq::empty() }
}

/// The reply that only sends a datagram.
pub open spec fn sending(bytes: Seq<u8>) -> ReplyModel {
    ReplyModel { write: None, send: TransmitModel::Datagram(bytes), events: Seq::empty() }
}

/// The reply that only sends the last datagram again.
pub open spec fn repeating() -> ReplyModel {
    ReplyModel { write: None, send: TransmitModel::Repeat, events: Seq::empty() }
}

/// The reply that only reports the failure of transfer `id`.
pub open spec fn failing(id: u64, text: Seq<char>) -> ReplyModel {
    ReplyModel {
        write: None,
        send: TransmitModel::Nothing,
        events: seq![EventModel::TransferFailed { id, error: text }],
    }
}

/// The failure text for an ERROR packet from the peer.
pub open spec fn client_error_text(code: u16, msg: Seq<char>) -> Seq<char> {
    "client error "@ + decimal(code as nat) + ": "@ + msg
}

/// The failure text of a download whose DATA packet was never acknowledged.
pub open spec fn data_timeout_text() -> Seq<char> {
    "timeout after 10 retries"@
}

/// The failure text of a download whose OACK was never acknowledged.
pub open spec fn oack_timeout_text() -> Seq<char> {
    "timeout waiting for OACK acknowledgment"@
}

/// The failure text of an upload whose next DATA packet never came.
pub open spec fn block_timeout_text(block: u16) -> Seq<char> {
    "timeout waiting for DATA block "@ + decimal(block as nat)
}

/// Why a datagram is no packet, in words.
pub open spec fn malformed_text(e: MalformedPacket) -> Seq<char> {
    match e {
        MalformedPacket::TooShort => "packet too short"@,
        MalformedPacket::UnknownOpcode { opcode } => "unknown opcode "@ + decimal(opcode as nat),
        MalformedPacket::MissingMode => "missing filename or mode"@,
        MalformedPacket::EmptyFilename => "empty filename"@,
        MalformedPacket::InvalidText => "text field is not UTF-8"@,
        MalformedPacket::ShortData => "DATA packet too short"@,
        MalformedPacket::ShortAck => "ACK packet too short"@,
        MalformedPacket::ShortError => "ERROR packet too short"@,
    }
}

/// The log text for a datagram that is no packet.
pub open spec fn bad_packet_text(e: MalformedPacket) -> Seq<char> {
    "bad packet: "@ + malformed_text(e)
}

impl MalformedPacket {
    /// Why the datagram is no packet, in words.
    pub fn message(&self) -> (r: String)
        ensures
            r@ == malformed_text(*self),
    {
        match self {
            MalformedPacket::TooShort => "packet too short".to_owned(),
            MalformedPacket::UnknownOpcode { opcode } => {
                let mut s = "unknown opcode ".to_owned();
                s.append(u64_to_decimal(*opcode as u64).as_str());
                s
            },
            MalformedPacket::MissingMode => "missing filename or mode".to_owned(),
            MalformedPacket::EmptyFilename => "empty filename".to_owned(),
            MalformedPacket::InvalidText => "text field is not UTF-8".to_owned(),
            MalformedPacket::ShortData => "DATA packet too short".to_owned(),
            MalformedPacket::ShortAck => "ACK packet too short".to_owned(),
            MalformedPacket::ShortError => "ERROR packet too short".to_owned(),
        }
    }
}

/// The failure text for an ERROR packet from the peer.
pub fn client_error_message(code: u16, msg: &str) -> (r: String)
    ensures
        r@ == client_error_text(code, msg@),
{
    let mut s = "client error ".to_owned();
    s.append(u64_to_decimal(code as u64).as_str());
    s.append(": ");
    s.append(msg);
    s
}

/// The failure text of an upload whose next DATA packet never came.
pub fn block_timeout_message(block: u16) -> (r: String)
    ensures
        r@ == block_timeout_text(block),
{
    let mut s = "timeout waiting for DATA block ".to_owned();
    s.append(u64_to_decimal(block as u64).as_str());
    s
}

/// The log text for a datagram that is no packet.
pub fn bad_packet_message(e: MalformedPacket) -> (r: String)
    ensures
        r@ == bad_packet_text(e),
{
    let mut s = "bad packet: ".to_owned();
    s.append(e.message().as_str());
    s
}

pub(crate) fn no_events() -> (r: Vec<ServerEvent>)
    ensures
        event_models(r@) == Seq::<EventModel>::empty(),
{
    let r: Vec<ServerEvent> = Vec::new();
    assert(event_models(r@) =~= Seq::<EventModel>::empty());
    r
}

pub(crate) fn one_event(e: ServerEvent) -> (r: Vec<ServerEvent>)
    ensures
        event_models(r@) == seq![e@],
{
    let mut r: Vec<ServerEvent> = Vec::new();
    r.push(e);
    assert(event_models(r@) =~= seq![e@]);
    r
}

pub(crate) fn two_events(a: ServerEvent, b: ServerEvent) -> (r: Vec<ServerEvent>)
    ensures
        event_models(r@) == seq![a@, b@],
{
    let mut r: Vec<ServerEvent> = Vec::new();
    r.push(a);
    r.push(b);
    assert(event_models(r@) =~= seq![a@, b@]);
    r
}

impl Reply {
    pub(crate) fn silent() -> (r: Reply)
        ensures
            r@ == silent(),
    {
        Reply { write: None, send: Transmit::Nothing, events: no_events() }
    }

    pub(crate) fn sending(bytes: Vec<u8>) -> (r: Reply)
        ensures
            r@ == sending(bytes@),
    {
        Reply { write: None, send: Transmit::Datagram(bytes), events: no_events() }
    }

    pub(crate) fn repeating() -> (r: Reply)
        ensures
            r@ == repeating(),
    {
        Reply { write: None, send: Transmit::Repeat, events: no_events() }
    }

    pub(crate) fn failing(id: u64, text: String) -> (r: Reply)
        ensures
            r@ == failing(id, text@),
    {
        Reply {
            write: None,
            send: Transmit::Nothing,
            events: one_event(ServerEvent::TransferFailed { id, error: text }),
        }
    }
}

} // verus!
