use vstd::prelude::*;
use crate::options::Options;
use crate::tftp_protocol::{decode, MalformedPacket, Packet, PacketModel};

verus! {

/// The listener's part of the state: the id that the next session gets.
#[derive(Debug, Clone, Copy)]
pub struct Listener {
    pub next_id: u64,
}

/// What the listener does with a datagram.
#[derive(Debug, Clone)]
pub enum Dispatch {
    /// A read request: a download session begins under this id.
    Read { id: u64, filename: String, mode: String, options: Options },
    /// A write request: an upload session begins under this id.
    Write { id: u64, filename: String, mode: String, options: Options },
    /// A packet that opens no session: it is logged and dropped.
    Unexpected(Packet),
    /// No packet at all: it is logged and dropped.
    Malformed(MalformedPacket),
}

/// What a `Dispatch` says.
pub enum DispatchModel {
    Read { id: u64, filename: Seq<char>, mode: Seq<char>, options: Map<Seq<char>, Seq<char>> },
    Write { id: u64, filename: Seq<char>, mode: Seq<char>, options: Map<Seq<char>, Seq<char>> },
    Unexpected(PacketModel),
    Malformed(MalformedPacket),
}

impl View for Dispatch {
    type V = DispatchModel;

    open spec fn view(&self) -> DispatchModel {
        match self {
            Dispatch::Read { id, filename, mode, options } => DispatchModel::Read {
                id: *id,
                filename: filename@,
                mode: mode@,
                options: options@,
            },
            Dispatch::Write { id, filename, mode, options } => DispatchModel::Write {
                id: *id,
                filename: filename@,
                mode: mode@,
                options: options@,
            },
            Dispatch::Unexpected(packet) => DispatchModel::Unexpected(packet@),
            Dispatch::Malformed(e) => DispatchModel::Malformed(*e),
        }
    }
}

/// What the listener does with a datagram when the next session id is
/// `next_id`, and the next id after it: a request opens a session under
/// `next_id` and uses the id up; anything else opens none.
pub open spec fn dispatched(next_id: u64, bytes: Seq<u8>) -> (u64, DispatchModel) {
    match decode(bytes) {
        Ok(PacketModel::RRQ { filename, mode, options }) => (
            (next_id + 1) as u64,
            DispatchModel::Read { id: next_id, filename, mode, options },
        ),
        Ok(PacketModel::WRQ { filename, mode, options }) => (
            (next_id + 1) as u64,
            DispatchModel::Write { id: next_id, filename, mode, options },
        ),
        Ok(packet) => (next_id, DispatchModel::Unexpected(packet)),
        Err(e) => (next_id, DispatchModel::Malformed(e)),
    }
}

/// The id of the session that a dispatch opens.
pub open spec fn session_id(d: DispatchModel) -> Option<u64> {
    match d {
        DispatchModel::Read { id, .. } => Some(id),
        DispatchModel::Write { id, .. } => Some(id),
        _ => None,
    }
}

/// What the listener does with a sequence of datagrams, and the next id
/// after them.
pub open spec fn listened(next_id: u64, datagrams: Seq<Seq<u8>>) -> (u64, Seq<DispatchModel>)
    decreases datagrams.len(),
{
    if datagrams.len() == 0 {
        (next_id, Seq::empty())
    } else {
        let before = listened(next_id, datagrams.drop_last());
        let last = dispatched(before.0, datagrams.last());
        (last.0, before.1.push(last.1))
    }
}

impl Listener {
    /// A listener that has opened no session: the first id is 1.
    pub fn new() -> (r: Listener)
        ensures
            r.next_id == 1,
    {
        Listener { next_id: 1 }
    }

    /// Classifies a datagram that came in on the well-known port.
    pub fn dispatch(&mut self, datagram: &[u8]) -> (r: Dispatch)
        requires
            old(self).next_id < u64::MAX,
        ensures
            (final(self).next_id, r@) == dispatched(old(self).next_id, datagram@),
    {
        match Packet::from_bytes(datagram) {
            Ok(Packet::RRQ { filename, mode, options }) => {
                let id = self.next_id;
                self.next_id = id + 1;
                Dispatch::Read { id, filename, mode, options }
            },
            Ok(Packet::WRQ { filename, mode, options }) => {
                let id = self.next_id;
                self.next_id = id + 1;
                Dispatch::Write { id, filename, mode, options }
            },
            Ok(packet) => Dispatch::Unexpected(packet),
            Err(e) => Dispatch::Malformed(e),
        }
    }
}

/// Session ids are unique and strictly increasing: of the sessions that a
/// sequence of datagrams opens, each has an id from the first id on and
/// below the next one, and a later session has a greater id than an
/// earlier one.
pub proof fn lemma_session_ids(next_id: u64, datagrams: Seq<Seq<u8>>)
    requires
        next_id + datagrams.len() <= u64::MAX,
    ensures
        ({
            let (end, out) = listened(next_id, datagrams);
            &&& out.len() == datagrams.len()
            &&& next_id <= end <= next_id + datagrams.len()
            &&& forall|i: int|
                0 <= i < out.len() && session_id(#[trigger] out[i]) is Some ==> next_id
                    <= session_id(out[i])->0 < end
            &&& forall|i: int, j: int|
                0 <= i < j < out.len() && session_id(#[trigger] out[i]) is Some && session_id(
                    #[trigger] out[j],
                ) is Some ==> session_id(out[i])->0 < session_id(out[j])->0
        }),
    decreases datagrams.len(),
{
    if datagrams.len() > 0 {
        lemma_session_ids(next_id, datagrams.drop_last());
        let (mid, before) = listened(next_id, datagrams.drop_last());
        let (end, last) = dispatched(mid, datagrams.last());
        let out = before.push(last);
        assert forall|i: int|
            0 <= i < out.len() && session_id(#[trigger] out[i]) is Some implies next_id
                <= session_id(out[i])->0 < end by {
            if i < before.len() {
                assert(out[i] == before[i]);
            }
        }
        assert forall|i: int, j: int|
            0 <= i < j < out.len() && session_id(#[trigger] out[i]) is Some && session_id(
                #[trigger] out[j],
            ) is Some implies session_id(out[i])->0 < session_id(out[j])->0 by {
            assert(out[i] == before[i]);
            if j < before.len() {
                assert(out[j] == before[j]);
            }
        }
    }
}

} // verus!
