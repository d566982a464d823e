use vstd::prelude::*;
use crate::download::{
    add_bytes, data_wire, download_block, download_datagram, download_timeout, Download,
    DownloadPhase,
};
use crate::round_trip::lemma_decode_data_wire;
use crate::server::EventModel;
use crate::tftp_protocol::{decode, PacketModel};
use crate::transfer::{ReplyModel, TransmitModel};

verus! {

/// A download together with the place in the file up to which its blocks
/// were read.
pub struct Served {
    pub session: Download,
    pub offset: nat,
}

/// What the peer of a download can do.
pub enum PeerInput {
    /// Send a datagram.
    Datagram(Seq<u8>),
    /// Stay silent for the time allowed.
    Timeout,
}

/// The next block of a file from a place on: up to `blksize` bytes, fewer
/// only at the end of the file.
pub open spec fn block_at(content: Seq<u8>, offset: nat, blksize: nat) -> Seq<u8> {
    if offset + blksize <= content.len() {
        content.subrange(offset as int, (offset + blksize) as int)
    } else if offset <= content.len() {
        content.subrange(offset as int, content.len() as int)
    } else {
        Seq::empty()
    }
}

/// One round of a download that is driven from a file: where the download
/// wants a block, the next block of the file is read and handed to it; then
/// the peer has its turn. Gives the replies of the round, in order.
pub open spec fn served_step(content: Seq<u8>, v: Served, input: PeerInput) -> (
    Served,
    Seq<ReplyModel>,
) {
    let fed = if v.session.phase == DownloadPhase::NeedBlock {
        let block = block_at(content, v.offset, v.session.blksize as nat);
        let (session, reply) = download_block(v.session, block);
        (Served { session, offset: v.offset + block.len() }, seq![reply])
    } else {
        (v, Seq::<ReplyModel>::empty())
    };
    let (session, reply) = match input {
        PeerInput::Datagram(bytes) => download_datagram(fed.0.session, bytes),
        PeerInput::Timeout => download_timeout(fed.0.session),
    };
    (Served { session, offset: fed.0.offset }, fed.1.push(reply))
}

/// A download driven from a file, after the peer has done one thing after
/// the other, with all replies in order.
pub open spec fn served_run(content: Seq<u8>, v: Served, inputs: Seq<PeerInput>) -> (
    Served,
    Seq<ReplyModel>,
)
    decreases inputs.len(),
{
    if inputs.len() == 0 {
        (v, Seq::empty())
    } else {
        let before = served_run(content, v, inputs.drop_last());
        let last = served_step(content, before.0, inputs.last());
        (last.0, before.1 + last.1)
    }
}

/// The payload that a reply puts on the wire for the first time: that of
/// the DATA packet it sends, if it sends one. A repeated datagram carries
/// nothing new.
pub open spec fn new_payload(reply: ReplyModel) -> Seq<u8> {
    match reply.send {
        TransmitModel::Datagram(bytes) => match decode(bytes) {
            Ok(PacketModel::DATA { data, .. }) => data,
            _ => Seq::empty(),
        },
        _ => Seq::empty(),
    }
}

/// The payloads that a sequence of replies puts on the wire for the first
/// time, joined in order.
pub open spec fn payloads_sent(replies: Seq<ReplyModel>) -> Seq<u8>
    decreases replies.len(),
{
    if replies.len() == 0 {
        Seq::empty()
    } else {
        payloads_sent(replies.drop_last()) + new_payload(replies.last())
    }
}

/// Some reply reports the transfer complete.
pub open spec fn reports_complete(replies: Seq<ReplyModel>) -> bool {
    exists|i: int, j: int|
        0 <= i < replies.len() && 0 <= j < replies[i].events.len()
            && #[trigger] replies[i].events[j] is TransferComplete
}

/// What holds of a download that is driven from a file, whatever its peer
/// does: the payloads sent so far are the file up to the place read; the
/// bytes counted are those of the acknowledged blocks, which is all that
/// was read but the block in flight; the block in flight is a whole block,
/// or what is left of the file.
pub open spec fn served_inv(content: Seq<u8>, v: Served, sent: Seq<u8>) -> bool {
    let s = v.session;
    &&& s.blksize > 0
    &&& content.len() <= u64::MAX
    &&& v.offset <= content.len()
    &&& sent == content.take(v.offset as int)
    &&& match s.phase {
        DownloadPhase::Negotiating => v.offset == 0 && s.transferred == 0,
        DownloadPhase::NeedBlock => s.transferred == v.offset,
        DownloadPhase::Sending => {
            &&& s.transferred + s.last_len == v.offset
            &&& s.last_len <= s.blksize
            &&& (s.last_len < s.blksize ==> v.offset == content.len())
        },
        DownloadPhase::Done => true,
    }
}

proof fn lemma_payloads_sent_concat(a: Seq<ReplyModel>, b: Seq<ReplyModel>)
    ensures
        payloads_sent(a + b) == payloads_sent(a) + payloads_sent(b),
    decreases b.len(),
{
    if b.len() == 0 {
        assert(a + b =~= a);
        assert(payloads_sent(a) + payloads_sent(b) =~= payloads_sent(a));
    } else {
        lemma_payloads_sent_concat(a, b.drop_last());
        assert((a + b).drop_last() =~= a + b.drop_last());
        assert((a + b).last() == b.last());
        assert(payloads_sent(a + b) =~= payloads_sent(a) + payloads_sent(b));
    }
}

proof fn lemma_payloads_sent_short(replies: Seq<ReplyModel>)
    requires
        replies.len() <= 2,
    ensures
        replies.len() == 1 ==> payloads_sent(replies) == new_payload(replies[0]),
        replies.len() == 2 ==> payloads_sent(replies) == new_payload(replies[0]) + new_payload(
            replies[1],
        ),
    decreases replies.len(),
{
    if replies.len() >= 1 {
        lemma_payloads_sent_short(replies.drop_last());
        assert(payloads_sent(replies) =~= payloads_sent(replies.drop_last()) + new_payload(
            replies.last(),
        ));
        if replies.len() == 1 {
            assert(payloads_sent(replies.drop_last()) =~= Seq::<u8>::empty());
            assert(payloads_sent(replies) =~= new_payload(replies[0]));
        } else {
            assert(replies.drop_last()[0] == replies[0]);
        }
    }
}

/// One round keeps what holds of a download driven from a file. A round
/// that reports the transfer complete has sent the whole file and counted
/// all its bytes; a download that has ended does nothing more.
pub proof fn lemma_served_step(content: Seq<u8>, v: Served, sent: Seq<u8>, input: PeerInput)
    requires
        served_inv(content, v, sent),
    ensures
        ({
            let (t, replies) = served_step(content, v, input);
            &&& served_inv(content, t, sent + payloads_sent(replies))
            &&& 1 <= replies.len() <= 2
            &&& reports_complete(replies) ==> t.session.phase == DownloadPhase::Done
                && t.session.transferred == content.len() && t.offset == content.len()
            &&& v.session.phase == DownloadPhase::Done ==> t == v && !reports_complete(replies)
        }),
{
    let (t, replies) = served_step(content, v, input);
    lemma_payloads_sent_short(replies);
    let s = v.session;
    if s.phase == DownloadPhase::NeedBlock {
        let block = block_at(content, v.offset, s.blksize as nat);
        lemma_decode_data_wire(s.block_num, block);
        assert(new_payload(replies[0]) == block);
        assert(new_payload(replies[1]) == Seq::<u8>::empty());
        assert(sent + payloads_sent(replies) =~= content.take((v.offset + block.len()) as int));
    } else {
        assert(new_payload(replies[0]) == Seq::<u8>::empty());
        assert(sent + payloads_sent(replies) =~= sent);
    }
    if reports_complete(replies) {
        let (i, j) = choose|i: int, j: int|
            0 <= i < replies.len() && 0 <= j < replies[i].events.len()
                && #[trigger] replies[i].events[j] is TransferComplete;
        assert(replies[i].events[j] is TransferComplete);
    }
    if v.session.phase == DownloadPhase::Done {
        assert(replies[0].events.len() == 0);
    }
}

proof fn lemma_reports_complete_concat(a: Seq<ReplyModel>, b: Seq<ReplyModel>)
    ensures
        reports_complete(a + b) == (reports_complete(a) || reports_complete(b)),
{
    let all = a + b;
    if reports_complete(a) {
        let (i, j) = choose|i: int, j: int|
            0 <= i < a.len() && 0 <= j < a[i].events.len() && #[trigger] a[i].events[j] is TransferComplete;
        assert(all[i].events[j] is TransferComplete);
    }
    if reports_complete(b) {
        let (i, j) = choose|i: int, j: int|
            0 <= i < b.len() && 0 <= j < b[i].events.len() && #[trigger] b[i].events[j] is TransferComplete;
        assert(all[a.len() + i].events[j] is TransferComplete);
    }
    if reports_complete(all) {
        let (i, j) = choose|i: int, j: int|
            0 <= i < all.len() && 0 <= j < all[i].events.len()
                && #[trigger] all[i].events[j] is TransferComplete;
        if i < a.len() {
            assert(a[i].events[j] is TransferComplete);
        } else {
            assert(b[i - a.len()].events[j] is TransferComplete);
        }
    }
}

/// Whatever the peer does, a download that is driven from a file keeps what
/// holds of it: the payloads it has sent are the file up to the place read.
/// Once it has reported the transfer complete it has sent the whole file
/// and counted all its bytes.
pub proof fn lemma_served_run(content: Seq<u8>, v: Served, sent: Seq<u8>, inputs: Seq<PeerInput>)
    requires
        served_inv(content, v, sent),
    ensures
        ({
            let (t, replies) = served_run(content, v, inputs);
            &&& served_inv(content, t, sent + payloads_sent(replies))
            &&& reports_complete(replies) ==> t.session.phase == DownloadPhase::Done
                && t.session.transferred == content.len() && t.offset == content.len()
            &&& v.session.phase == DownloadPhase::Done ==> t == v && !reports_complete(replies)
        }),
    decreases inputs.len(),
{
    if inputs.len() == 0 {
        assert(sent + payloads_sent(Seq::<ReplyModel>::empty()) =~= sent);
    } else {
        let (mid, early) = served_run(content, v, inputs.drop_last());
        let (t, late) = served_step(content, mid, inputs.last());
        lemma_served_run(content, v, sent, inputs.drop_last());
        lemma_served_step(content, mid, sent + payloads_sent(early), inputs.last());
        lemma_payloads_sent_concat(early, late);
        lemma_reports_complete_concat(early, late);
        assert(sent + payloads_sent(early) + payloads_sent(late) =~= sent + (payloads_sent(early)
            + payloads_sent(late)));
    }
}

/// For every download of a file that does not change, whatever the peer
/// does: the payloads that the download sends, each counted once, are the
/// file from its beginning to the place read, in order; and where the
/// download reports the transfer complete they are the whole file, and the
/// bytes counted are as many as the file has.
pub proof fn lemma_download_sends_the_file(
    id: u64,
    peer: Seq<char>,
    filename: Seq<char>,
    started: u64,
    content: Seq<u8>,
    options: Map<Seq<char>, Seq<char>>,
    os_max: nat,
    inputs: Seq<PeerInput>,
)
    requires
        content.len() <= u64::MAX,
        0 < os_max <= usize::MAX,
    ensures
        ({
            let begun = crate::download::download_start(
                id,
                peer,
                filename,
                started,
                content.len() as u64,
                options,
                os_max,
            ).0;
            let (t, replies) = served_run(content, Served { session: begun, offset: 0 }, inputs);
            &&& t.offset <= content.len()
            &&& payloads_sent(replies) == content.take(t.offset as int)
            &&& reports_complete(replies) ==> {
                &&& payloads_sent(replies) == content
                &&& t.session.transferred == content.len()
                &&& t.session.transferred == t.session.total_bytes
            }
        }),
{
    let begun = crate::download::download_start(
        id,
        peer,
        filename,
        started,
        content.len() as u64,
        options,
        os_max,
    ).0;
    let v = Served { session: begun, offset: 0 };
    let sent = Seq::<u8>::empty();
    assert(begun.blksize > 0);
    assert(sent =~= content.take(0));
    lemma_served_run(content, v, sent, inputs);
    let (t, replies) = served_run(content, v, inputs);
    assert(sent + payloads_sent(replies) =~= payloads_sent(replies));
    assert(content.take(content.len() as int) =~= content);
    lemma_served_total(content, v, inputs);
}

/// The size of the file that a download announced stays as it is.
proof fn lemma_served_total(content: Seq<u8>, v: Served, inputs: Seq<PeerInput>)
    ensures
        served_run(content, v, inputs).0.session.total_bytes == v.session.total_bytes,
    decreases inputs.len(),
{
    if inputs.len() > 0 {
        lemma_served_total(content, v, inputs.drop_last());
    }
}

} // verus!
