use vstd::prelude::*;
use crate::download::{
    download_abort, download_block, download_datagram, download_start, download_timeout,
    Download, DownloadPhase,
};
use crate::server::{is_terminator, EventModel};
use crate::tftp_protocol::{decode, PacketModel};
use crate::transfer::ReplyModel;
use crate::upload::{
    ack_wire, upload_abort, upload_datagram, upload_finish, upload_start, upload_timeout, Upload,
    UploadPhase,
};
use crate::download::previous_block;
use crate::transfer::sending;

verus! {

/// What can happen to a download.
pub enum DownloadInput {
    /// A datagram came from the peer.
    Datagram(Seq<u8>),
    /// Nothing came within the time allowed.
    Timeout,
    /// The next block of the file was read.
    Block(Seq<u8>),
    /// Something failed outside the protocol.
    Abort(Seq<char>),
}

/// What can happen to an upload.
pub enum UploadInput {
    /// A datagram came from the peer.
    Datagram(Seq<u8>),
    /// Nothing came within the time allowed.
    Timeout,
    /// The file was flushed.
    Flushed,
    /// Something failed outside the protocol.
    Abort(Seq<char>),
}

/// One step of a download.
pub open spec fn download_step(s: Download, input: DownloadInput) -> (Download, ReplyModel) {
    match input {
        DownloadInput::Datagram(bytes) => download_datagram(s, bytes),
        DownloadInput::Timeout => download_timeout(s),
        DownloadInput::Block(payload) => download_block(s, payload),
        DownloadInput::Abort(text) => download_abort(s, text),
    }
}

/// One step of an upload.
pub open spec fn upload_step(s: Upload, input: UploadInput) -> (Upload, ReplyModel) {
    match input {
        UploadInput::Datagram(bytes) => upload_datagram(s, bytes),
        UploadInput::Timeout => upload_timeout(s),
        UploadInput::Flushed => upload_finish(s),
        UploadInput::Abort(text) => upload_abort(s, text),
    }
}

/// A download after a sequence of inputs, with the reply to each.
pub open spec fn download_run(s: Download, inputs: Seq<DownloadInput>) -> (Download, Seq<ReplyModel>)
    decreases inputs.len(),
{
    if inputs.len() == 0 {
        (s, Seq::empty())
    } else {
        let before = download_run(s, inputs.drop_last());
        let last = download_step(before.0, inputs.last());
        (last.0, before.1.push(last.1))
    }
}

/// An upload after a sequence of inputs, with the reply to each.
pub open spec fn upload_run(s: Upload, inputs: Seq<UploadInput>) -> (Upload, Seq<ReplyModel>)
    decreases inputs.len(),
{
    if inputs.len() == 0 {
        (s, Seq::empty())
    } else {
        let before = upload_run(s, inputs.drop_last());
        let last = upload_step(before.0, inputs.last());
        (last.0, before.1.push(last.1))
    }
}

/// The events of a sequence of replies, in order.
pub open spec fn all_events(replies: Seq<ReplyModel>) -> Seq<EventModel>
    decreases replies.len(),
{
    if replies.len() == 0 {
        Seq::empty()
    } else {
        all_events(replies.drop_last()) + replies.last().events
    }
}

/// How many of the events end a transfer.
pub open spec fn terminators(events: Seq<EventModel>) -> nat
    decreases events.len(),
{
    if events.len() == 0 {
        0
    } else {
        terminators(events.drop_last()) + if is_terminator(events.last()) {
            1nat
        } else {
            0nat
        }
    }
}

/// How many of the events announce a transfer.
pub open spec fn announcements(events: Seq<EventModel>) -> nat
    decreases events.len(),
{
    if events.len() == 0 {
        0
    } else {
        announcements(events.drop_last()) + if events.last() is TransferStarted {
            1nat
        } else {
            0nat
        }
    }
}

proof fn lemma_counts_concat(a: Seq<EventModel>, b: Seq<EventModel>)
    ensures
        terminators(a + b) == terminators(a) + terminators(b),
        announcements(a + b) == announcements(a) + announcements(b),
    decreases b.len(),
{
    if b.len() == 0 {
        assert(a + b =~= a);
    } else {
        lemma_counts_concat(a, b.drop_last());
        assert((a + b).drop_last() =~= a + b.drop_last());
        assert((a + b).last() == b.last());
    }
}

proof fn lemma_counts_short(events: Seq<EventModel>)
    requires
        events.len() <= 2,
    ensures
        events.len() == 0 ==> terminators(events) == 0 && announcements(events) == 0,
        events.len() == 1 ==> terminators(events) == (if is_terminator(events[0]) {
            1nat
        } else {
            0nat
        }) && announcements(events) == (if events[0] is TransferStarted {
            1nat
        } else {
            0nat
        }),
        events.len() == 2 ==> terminators(events) == (if is_terminator(events[0]) {
            1nat
        } else {
            0nat
        }) + (if is_terminator(events[1]) {
            1nat
        } else {
            0nat
        }) && announcements(events) == (if events[0] is TransferStarted {
            1nat
        } else {
            0nat
        }) + (if events[1] is TransferStarted {
            1nat
        } else {
            0nat
        }),
    decreases events.len(),
{
    if events.len() >= 1 {
        lemma_counts_short(events.drop_last());
    }
}

/// A step of a download that has ended changes nothing and says nothing. A
/// step of one that has not ended announces no transfer, and reports an end
/// exactly when it ends the download: once, as its last event.
pub proof fn lemma_download_step_events(s: Download, input: DownloadInput)
    ensures
        ({
            let (next, reply) = download_step(s, input);
            &&& announcements(reply.events) == 0
            &&& s.phase == DownloadPhase::Done ==> next == s && reply.events.len() == 0
            &&& s.phase != DownloadPhase::Done && next.phase == DownloadPhase::Done ==> terminators(
                reply.events,
            ) == 1 && is_terminator(reply.events.last())
            &&& next.phase != DownloadPhase::Done ==> terminators(reply.events) == 0
        }),
{
    let (next, reply) = download_step(s, input);
    lemma_counts_short(reply.events);
}

/// A step of an upload that has ended changes nothing and says nothing. A
/// step of one that has not ended announces no transfer, and reports an end
/// exactly when it ends the upload: once, as its last event.
pub proof fn lemma_upload_step_events(s: Upload, input: UploadInput)
    ensures
        ({
            let (next, reply) = upload_step(s, input);
            &&& announcements(reply.events) == 0
            &&& s.phase == UploadPhase::Done ==> next == s && reply.events.len() == 0
            &&& s.phase != UploadPhase::Done && next.phase == UploadPhase::Done ==> terminators(
                reply.events,
            ) == 1 && is_terminator(reply.events.last())
            &&& next.phase != UploadPhase::Done ==> terminators(reply.events) == 0
        }),
{
    let (next, reply) = upload_step(s, input);
    lemma_counts_short(reply.events);
}

/// Over any inputs a download announces no transfer and reports at most
/// one end: exactly one where it began unended and has ended, as the last
/// of its events, and none where it has not ended. Once ended it stays so.
pub proof fn lemma_download_run_events(s: Download, inputs: Seq<DownloadInput>)
    ensures
        ({
            let (t, replies) = download_run(s, inputs);
            let events = all_events(replies);
            &&& replies.len() == inputs.len()
            &&& announcements(events) == 0
            &&& s.phase == DownloadPhase::Done ==> t == s && events.len() == 0
            &&& s.phase != DownloadPhase::Done && t.phase == DownloadPhase::Done ==> terminators(
                events,
            ) == 1 && is_terminator(events.last())
            &&& t.phase != DownloadPhase::Done ==> terminators(events) == 0
        }),
    decreases inputs.len(),
{
    if inputs.len() > 0 {
        let (mid, before) = download_run(s, inputs.drop_last());
        let (t, reply) = download_step(mid, inputs.last());
        lemma_download_run_events(s, inputs.drop_last());
        lemma_download_step_events(mid, inputs.last());
        let replies = before.push(reply);
        assert(replies.drop_last() =~= before);
        assert(replies.last() == reply);
        lemma_counts_concat(all_events(before), reply.events);
        if reply.events.len() == 0 {
            assert(all_events(before) + reply.events =~= all_events(before));
        }
    }
}

/// Over any inputs an upload announces no transfer and reports at most one
/// end: exactly one where it began unended and has ended, as the last of
/// its events, and none where it has not ended. Once ended it stays so.
pub proof fn lemma_upload_run_events(s: Upload, inputs: Seq<UploadInput>)
    ensures
        ({
            let (t, replies) = upload_run(s, inputs);
            let events = all_events(replies);
            &&& replies.len() == inputs.len()
            &&& announcements(events) == 0
            &&& s.phase == UploadPhase::Done ==> t == s && events.len() == 0
            &&& s.phase != UploadPhase::Done && t.phase == UploadPhase::Done ==> terminators(
                events,
            ) == 1 && is_terminator(events.last())
            &&& t.phase != UploadPhase::Done ==> terminators(events) == 0
        }),
    decreases inputs.len(),
{
    if inputs.len() > 0 {
        let (mid, before) = upload_run(s, inputs.drop_last());
        let (t, reply) = upload_step(mid, inputs.last());
        lemma_upload_run_events(s, inputs.drop_last());
        lemma_upload_step_events(mid, inputs.last());
        let replies = before.push(reply);
        assert(replies.drop_last() =~= before);
        assert(replies.last() == reply);
        lemma_counts_concat(all_events(before), reply.events);
        if reply.events.len() == 0 {
            assert(all_events(before) + reply.events =~= all_events(before));
        }
    }
}

/// The events of a whole download, whatever happens to it: first the one
/// announcement, then events that neither announce nor end, and, exactly
/// where the download has ended, one end as the last event.
pub proof fn lemma_download_session_events(
    id: u64,
    peer: Seq<char>,
    filename: Seq<char>,
    started: u64,
    total_bytes: u64,
    options: Map<Seq<char>, Seq<char>>,
    os_max: nat,
    inputs: Seq<DownloadInput>,
)
    ensures
        ({
            let (begun, first) = download_start(
                id,
                peer,
                filename,
                started,
                total_bytes,
                options,
                os_max,
            );
            let (t, replies) = download_run(begun, inputs);
            let events = first.events + all_events(replies);
            &&& events[0] is TransferStarted
            &&& announcements(events) == 1
            &&& terminators(events) == if t.phase == DownloadPhase::Done {
                1nat
            } else {
                0nat
            }
            &&& t.phase == DownloadPhase::Done ==> is_terminator(events.last())
        }),
{
    let (begun, first) = download_start(
                id,
                peer,
                filename,
                started,
                total_bytes,
                options,
                os_max,
            );
    let (t, replies) = download_run(begun, inputs);
    lemma_download_run_events(begun, inputs);
    lemma_counts_short(first.events);
    lemma_counts_concat(first.events, all_events(replies));
}

/// The events of a whole upload, whatever happens to it: first the one
/// announcement, then events that neither announce nor end, and, exactly
/// where the upload has ended, one end as the last event.
pub proof fn lemma_upload_session_events(
    id: u64,
    peer: Seq<char>,
    filename: Seq<char>,
    started: u64,
    options: Map<Seq<char>, Seq<char>>,
    os_max: nat,
    inputs: Seq<UploadInput>,
)
    ensures
        ({
            let (begun, first) = upload_start(id, peer, filename, started, options, os_max);
            let (t, replies) = upload_run(begun, inputs);
            let events = first.events + all_events(replies);
            &&& events[0] is TransferStarted
            &&& announcements(events) == 1
            &&& terminators(events) == if t.phase == UploadPhase::Done {
                1nat
            } else {
                0nat
            }
            &&& t.phase == UploadPhase::Done ==> is_terminator(events.last())
        }),
{
    let (begun, first) = upload_start(id, peer, filename, started, options, os_max);
    let (t, replies) = upload_run(begun, inputs);
    lemma_upload_run_events(begun, inputs);
    lemma_counts_short(first.events);
    lemma_counts_concat(first.events, all_events(replies));
}

/// A DATA packet that repeats the block before the awaited one is
/// acknowledged again and changes nothing: the awaited block stays.
pub proof fn lemma_duplicate_data(s: Upload, bytes: Seq<u8>, data: Seq<u8>)
    requires
        s.phase == UploadPhase::Receiving,
        decode(bytes) == Ok::<PacketModel, crate::tftp_protocol::MalformedPacket>(
            PacketModel::DATA { block_num: previous_block(s.expected_block), data },
        ),
    ensures
        upload_datagram(s, bytes) == (s, sending(ack_wire(previous_block(s.expected_block)))),
{
}

/// Block numbers wrap: after block 65535 a download goes on with block 0.
pub proof fn lemma_download_block_wraps(s: Download, bytes: Seq<u8>)
    requires
        s.phase == DownloadPhase::Sending,
        s.block_num == 65535,
        s.last_len >= s.blksize,
        decode(bytes) == Ok::<PacketModel, crate::tftp_protocol::MalformedPacket>(
            PacketModel::ACK { block_num: 65535 },
        ),
    ensures
        download_datagram(s, bytes).0.phase == DownloadPhase::NeedBlock,
        download_datagram(s, bytes).0.block_num == 0,
{
}

/// Block numbers wrap: after block 65535 an upload awaits block 0.
pub proof fn lemma_upload_block_wraps(s: Upload, bytes: Seq<u8>, data: Seq<u8>)
    requires
        s.phase == UploadPhase::Receiving,
        s.expected_block == 65535,
        data.len() >= s.blksize,
        decode(bytes) == Ok::<PacketModel, crate::tftp_protocol::MalformedPacket>(
            PacketModel::DATA { block_num: 65535, data },
        ),
    ensures
        upload_datagram(s, bytes).0.phase == UploadPhase::Receiving,
        upload_datagram(s, bytes).0.expected_block == 0,
{
}

} // verus!
