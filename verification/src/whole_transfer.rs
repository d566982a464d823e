use vstd::prelude::*;
use crate::blocks::{file_blocks, joined, lemma_file_blocks_joined, lemma_file_blocks_shape};
use crate::download::{
    add_bytes, data_wire, download_progress, next_block, Download, DownloadPhase,
};
use crate::round_trip::{lemma_decode_ack_wire, lemma_decode_data_wire};
use crate::runs::{
    download_run, download_step, upload_run, upload_step, DownloadInput, UploadInput,
};
use crate::server::EventModel;
use crate::transfer::{sending, ReplyModel, TransmitModel};
use crate::upload::{ack_wire, Upload, UploadPhase};

verus! {

/// The number of the block that comes `i` blocks after block `first`.
pub open spec fn block_number(first: u16, i: nat) -> u16
    decreases i,
{
    if i == 0 {
        first
    } else {
        next_block(block_number(first, (i - 1) as nat))
    }
}

/// What happens to a download whose peer acknowledges every block at once:
/// for each block in turn, the block is read and then its ACK comes.
pub open spec fn acknowledged_blocks(blocks: Seq<Seq<u8>>, first: u16) -> Seq<DownloadInput>
    decreases blocks.len(),
{
    if blocks.len() == 0 {
        Seq::empty()
    } else {
        acknowledged_blocks(blocks.drop_last(), first).push(
            DownloadInput::Block(blocks.last()),
        ).push(
            DownloadInput::Datagram(ack_wire(block_number(first, (blocks.len() - 1) as nat))),
        )
    }
}

/// Counting bytes twice is counting their sum.
pub proof fn lemma_add_bytes_twice(count: u64, a: nat, b: nat)
    ensures
        add_bytes(add_bytes(count, a), b) == add_bytes(count, a + b),
{
}

proof fn lemma_download_one_step(s: Download, before: Seq<DownloadInput>, input: DownloadInput)
    ensures
        ({
            let (mid, early) = download_run(s, before);
            let (t, reply) = download_step(mid, input);
            download_run(s, before.push(input)) == (t, early.push(reply))
        }),
{
    assert(before.push(input).drop_last() =~= before);
}

proof fn lemma_download_two_steps(s: Download, before: Seq<DownloadInput>, block: Seq<u8>, ack: Seq<u8>)
    ensures
        ({
            let inputs = before.push(DownloadInput::Block(block)).push(DownloadInput::Datagram(ack));
            let (mid, early) = download_run(s, before);
            let (sent, first) = download_step(mid, DownloadInput::Block(block));
            let (t, second) = download_step(sent, DownloadInput::Datagram(ack));
            download_run(s, inputs) == (t, early.push(first).push(second))
        }),
{
    let with_block = before.push(DownloadInput::Block(block));
    lemma_download_one_step(s, before, DownloadInput::Block(block));
    lemma_download_one_step(s, with_block, DownloadInput::Datagram(ack));
}

/// Full blocks that are acknowledged at once leave a download wanting the
/// next block: each went out as DATA under its number, and the bytes of all
/// are counted.
pub proof fn lemma_download_full_blocks(s: Download, blocks: Seq<Seq<u8>>)
    requires
        s.phase == DownloadPhase::NeedBlock,
        s.blksize > 0,
        forall|i: int| 0 <= i < blocks.len() ==> (#[trigger] blocks[i]).len() == s.blksize,
    ensures
        ({
            let (t, replies) = download_run(s, acknowledged_blocks(blocks, s.block_num));
            &&& t.phase == DownloadPhase::NeedBlock
            &&& t.block_num == block_number(s.block_num, blocks.len())
            &&& t.blksize == s.blksize
            &&& t.id == s.id
            &&& t.total_bytes == s.total_bytes
            &&& t.transferred == add_bytes(s.transferred, joined(blocks).len())
            &&& replies.len() == 2 * blocks.len()
            &&& forall|i: int|
                0 <= i < blocks.len() ==> #[trigger] replies[2 * i] == sending(
                    data_wire(block_number(s.block_num, i as nat), blocks[i]),
                )
        }),
    decreases blocks.len(),
{
    if blocks.len() > 0 {
        let front = blocks.drop_last();
        let last = blocks.last();
        let number = block_number(s.block_num, front.len());
        let before = acknowledged_blocks(front, s.block_num);
        assert forall|i: int| 0 <= i < front.len() implies (#[trigger] front[i]).len()
            == s.blksize by {
            assert(front[i] == blocks[i]);
        }
        lemma_download_full_blocks(s, front);
        lemma_download_two_steps(s, before, last, ack_wire(number));
        lemma_decode_ack_wire(number);
        let (mid, early) = download_run(s, before);
        let (sent, first) = download_step(mid, DownloadInput::Block(last));
        let (t, second) = download_step(sent, DownloadInput::Datagram(ack_wire(number)));
        let replies = early.push(first).push(second);
        lemma_add_bytes_twice(s.transferred, joined(front).len(), last.len());
        assert forall|i: int| 0 <= i < blocks.len() implies #[trigger] replies[2 * i] == sending(
            data_wire(block_number(s.block_num, i as nat), blocks[i]),
        ) by {
            if i < front.len() {
                assert(replies[2 * i] == early[2 * i]);
                assert(front[i] == blocks[i]);
            }
        }
    }
}

/// A download that wants its first block, fed the blocks of a file by a
/// peer that acknowledges each at once, sends each block as DATA under its
/// number, counts the bytes of the file, and ends complete with the ACK of
/// the last block. The blocks joined are the file.
pub proof fn lemma_download_whole_file(s: Download, content: Seq<u8>)
    requires
        s.phase == DownloadPhase::NeedBlock,
        s.blksize > 0,
    ensures
        ({
            let blocks = file_blocks(content, s.blksize as nat);
            let (t, replies) = download_run(s, acknowledged_blocks(blocks, s.block_num));
            &&& joined(blocks) == content
            &&& replies.len() == 2 * blocks.len()
            &&& forall|i: int|
                0 <= i < blocks.len() ==> (#[trigger] replies[2 * i]).send
                    == TransmitModel::Datagram(
                    data_wire(block_number(s.block_num, i as nat), blocks[i]),
                )
            &&& t.phase == DownloadPhase::Done
            &&& t.id == s.id
            &&& t.total_bytes == s.total_bytes
            &&& t.transferred == add_bytes(s.transferred, content.len())
            &&& replies.last().events == seq![
                download_progress(t),
                EventModel::TransferComplete(s.id),
            ]
        }),
{
    let blocks = file_blocks(content, s.blksize as nat);
    lemma_file_blocks_joined(content, s.blksize as nat);
    lemma_file_blocks_shape(content, s.blksize as nat);
    let front = blocks.drop_last();
    let last = blocks.last();
    let number = block_number(s.block_num, front.len());
    let before = acknowledged_blocks(front, s.block_num);
    assert forall|i: int| 0 <= i < front.len() implies (#[trigger] front[i]).len() == s.blksize by {
        assert(front[i] == blocks[i]);
    }
    lemma_download_full_blocks(s, front);
    lemma_download_two_steps(s, before, last, ack_wire(number));
    lemma_decode_ack_wire(number);
    let (mid, early) = download_run(s, before);
    let (sent, first) = download_step(mid, DownloadInput::Block(last));
    let (t, second) = download_step(sent, DownloadInput::Datagram(ack_wire(number)));
    let replies = early.push(first).push(second);
    lemma_add_bytes_twice(s.transferred, joined(front).len(), last.len());
    assert forall|i: int| 0 <= i < blocks.len() implies (#[trigger] replies[2 * i]).send
        == TransmitModel::Datagram(data_wire(block_number(s.block_num, i as nat), blocks[i])) by {
        if i < front.len() {
            assert(replies[2 * i] == early[2 * i]);
            assert(front[i] == blocks[i]);
        }
    }
}

/// What happens to an upload whose peer sends the blocks of a file in
/// turn, each as DATA under its number.
pub open spec fn sent_blocks(blocks: Seq<Seq<u8>>, first: u16) -> Seq<UploadInput>
    decreases blocks.len(),
{
    if blocks.len() == 0 {
        Seq::empty()
    } else {
        sent_blocks(blocks.drop_last(), first).push(
            UploadInput::Datagram(
                data_wire(block_number(first, (blocks.len() - 1) as nat), blocks.last()),
            ),
        )
    }
}

/// The bytes that a sequence of replies asks to be written, in order.
pub open spec fn written(replies: Seq<ReplyModel>) -> Seq<u8>
    decreases replies.len(),
{
    if replies.len() == 0 {
        Seq::empty()
    } else {
        written(replies.drop_last()) + match replies.last().write {
            Some(bytes) => bytes,
            None => Seq::empty(),
        }
    }
}

proof fn lemma_upload_one_step(s: Upload, before: Seq<UploadInput>, input: UploadInput)
    ensures
        ({
            let (mid, early) = upload_run(s, before);
            let (t, reply) = upload_step(mid, input);
            upload_run(s, before.push(input)) == (t, early.push(reply))
        }),
{
    assert(before.push(input).drop_last() =~= before);
}

proof fn lemma_written_push(replies: Seq<ReplyModel>, reply: ReplyModel)
    ensures
        written(replies.push(reply)) == written(replies) + match reply.write {
            Some(bytes) => bytes,
            None => Seq::empty(),
        },
{
    assert(replies.push(reply).drop_last() =~= replies);
}

/// For every upload, whatever happens to it: the bytes it counts are as
/// many as it has asked to be written.
pub proof fn lemma_upload_counts_what_it_writes(s: Upload, inputs: Seq<UploadInput>)
    ensures
        ({
            let (t, replies) = upload_run(s, inputs);
            t.transferred == add_bytes(s.transferred, written(replies).len())
        }),
    decreases inputs.len(),
{
    if inputs.len() > 0 {
        let (mid, early) = upload_run(s, inputs.drop_last());
        let (t, reply) = upload_step(mid, inputs.last());
        lemma_upload_counts_what_it_writes(s, inputs.drop_last());
        lemma_written_push(early, reply);
        match reply.write {
            Some(bytes) => {
                lemma_add_bytes_twice(s.transferred, written(early).len(), bytes.len());
            },
            None => {
                assert(written(early) + Seq::<u8>::empty() =~= written(early));
            },
        }
    }
}

/// Full blocks that come in turn leave an upload awaiting the next block:
/// each was acknowledged under its number, and the bytes of all are to be
/// written, in order, and are counted.
pub proof fn lemma_upload_full_blocks(s: Upload, blocks: Seq<Seq<u8>>)
    requires
        s.phase == UploadPhase::Receiving,
        s.blksize > 0,
        forall|i: int| 0 <= i < blocks.len() ==> (#[trigger] blocks[i]).len() == s.blksize,
    ensures
        ({
            let (t, replies) = upload_run(s, sent_blocks(blocks, s.expected_block));
            &&& t.phase == UploadPhase::Receiving
            &&& t.expected_block == block_number(s.expected_block, blocks.len())
            &&& t.blksize == s.blksize
            &&& t.id == s.id
            &&& t.transferred == add_bytes(s.transferred, joined(blocks).len())
            &&& replies.len() == blocks.len()
            &&& written(replies) == joined(blocks)
            &&& forall|i: int|
                0 <= i < blocks.len() ==> (#[trigger] replies[i]).send == TransmitModel::Datagram(
                    ack_wire(block_number(s.expected_block, i as nat)),
                )
        }),
    decreases blocks.len(),
{
    if blocks.len() > 0 {
        let front = blocks.drop_last();
        let last = blocks.last();
        let number = block_number(s.expected_block, front.len());
        let before = sent_blocks(front, s.expected_block);
        assert forall|i: int| 0 <= i < front.len() implies (#[trigger] front[i]).len()
            == s.blksize by {
            assert(front[i] == blocks[i]);
        }
        lemma_upload_full_blocks(s, front);
        let input = UploadInput::Datagram(data_wire(number, last));
        lemma_upload_one_step(s, before, input);
        lemma_decode_data_wire(number, last);
        let (mid, early) = upload_run(s, before);
        let (t, reply) = upload_step(mid, input);
        let replies = early.push(reply);
        lemma_written_push(early, reply);
        lemma_add_bytes_twice(s.transferred, joined(front).len(), last.len());
        assert forall|i: int| 0 <= i < blocks.len() implies (#[trigger] replies[i]).send
            == TransmitModel::Datagram(ack_wire(block_number(s.expected_block, i as nat))) by {
            if i < front.len() {
                assert(replies[i] == early[i]);
            }
        }
    }
}

/// An upload that awaits its first block, sent the blocks of a file in
/// turn, acknowledges each block under its number and asks for the bytes of
/// the file to be written, in order and nothing else; it counts as many
/// bytes as it has written, and once the file is flushed it ends complete.
pub proof fn lemma_upload_whole_file(s: Upload, content: Seq<u8>)
    requires
        s.phase == UploadPhase::Receiving,
        s.blksize > 0,
    ensures
        ({
            let blocks = file_blocks(content, s.blksize as nat);
            let inputs = sent_blocks(blocks, s.expected_block).push(UploadInput::Flushed);
            let (t, replies) = upload_run(s, inputs);
            &&& replies.len() == blocks.len() + 1
            &&& forall|i: int|
                0 <= i < blocks.len() ==> (#[trigger] replies[i]).send == TransmitModel::Datagram(
                    ack_wire(block_number(s.expected_block, i as nat)),
                )
            &&& written(replies) == content
            &&& t.phase == UploadPhase::Done
            &&& t.transferred == add_bytes(s.transferred, written(replies).len())
            &&& replies.last().events == seq![EventModel::TransferComplete(s.id)]
        }),
{
    let blocks = file_blocks(content, s.blksize as nat);
    lemma_file_blocks_joined(content, s.blksize as nat);
    lemma_file_blocks_shape(content, s.blksize as nat);
    let front = blocks.drop_last();
    let last = blocks.last();
    let number = block_number(s.expected_block, front.len());
    let before = sent_blocks(front, s.expected_block);
    assert forall|i: int| 0 <= i < front.len() implies (#[trigger] front[i]).len() == s.blksize by {
        assert(front[i] == blocks[i]);
    }
    lemma_upload_full_blocks(s, front);
    let input = UploadInput::Datagram(data_wire(number, last));
    lemma_upload_one_step(s, before, input);
    lemma_decode_data_wire(number, last);
    let (mid, early) = upload_run(s, before);
    let (closing, reply) = upload_step(mid, input);
    let taken = early.push(reply);
    lemma_written_push(early, reply);
    lemma_add_bytes_twice(s.transferred, joined(front).len(), last.len());
    lemma_upload_one_step(s, sent_blocks(blocks, s.expected_block), UploadInput::Flushed);
    let (t, end) = upload_step(closing, UploadInput::Flushed);
    let replies = taken.push(end);
    lemma_written_push(taken, end);
    assert(written(replies) =~= content);
    assert forall|i: int| 0 <= i < blocks.len() implies (#[trigger] replies[i]).send
        == TransmitModel::Datagram(ack_wire(block_number(s.expected_block, i as nat))) by {
        if i < front.len() {
            assert(replies[i] == early[i]);
        }
    }
}

/// What was uploaded comes down again as it was: the bytes that an upload
/// of a file writes are the file, and a download of what was written sends
/// payloads that joined are the file, whatever the two block sizes.
pub proof fn lemma_upload_then_download(up: Upload, down: Download, content: Seq<u8>)
    requires
        up.phase == UploadPhase::Receiving,
        up.blksize > 0,
        down.phase == DownloadPhase::NeedBlock,
        down.blksize > 0,
    ensures
        ({
            let arriving = sent_blocks(file_blocks(content, up.blksize as nat), up.expected_block);
            let stored = written(upload_run(up, arriving.push(UploadInput::Flushed)).1);
            let leaving = file_blocks(stored, down.blksize as nat);
            let (t, replies) = download_run(down, acknowledged_blocks(leaving, down.block_num));
            &&& stored == content
            &&& joined(leaving) == content
            &&& replies.len() == 2 * leaving.len()
            &&& forall|i: int|
                0 <= i < leaving.len() ==> (#[trigger] replies[2 * i]).send
                    == TransmitModel::Datagram(
                    data_wire(block_number(down.block_num, i as nat), leaving[i]),
                )
            &&& t.phase == DownloadPhase::Done
        }),
{
    lemma_upload_whole_file(up, content);
    lemma_download_whole_file(down, content);
}

/// A download once the peer has acknowledged its options, where there are
/// any to acknowledge.
pub open spec fn after_negotiation(begun: Download) -> Download {
    if begun.phase == DownloadPhase::Negotiating {
        download_step(begun, DownloadInput::Datagram(ack_wire(0))).0
    } else {
        begun
    }
}

/// A download of a file that does not change, with a peer that answers at
/// once, carries the whole file: once the peer has acknowledged the options,
/// where there are any, the blocks of the file go out in turn, and the
/// download ends complete with as many bytes counted as the file has.
pub proof fn lemma_download_session_whole_file(
    id: u64,
    peer: Seq<char>,
    filename: Seq<char>,
    started: u64,
    content: Seq<u8>,
    options: Map<Seq<char>, Seq<char>>,
    os_max: nat,
)
    requires
        content.len() <= u64::MAX,
        0 < os_max <= usize::MAX,
    ensures
        ({
            let (begun, first) = crate::download::download_start(
                id,
                peer,
                filename,
                started,
                content.len() as u64,
                options,
                os_max,
            );
            let ready = after_negotiation(begun);
            let blocks = file_blocks(content, begun.blksize as nat);
            let (t, replies) = download_run(ready, acknowledged_blocks(blocks, 1));
            &&& ready.phase == DownloadPhase::NeedBlock
            &&& joined(blocks) == content
            &&& replies.len() == 2 * blocks.len()
            &&& forall|i: int|
                0 <= i < blocks.len() ==> (#[trigger] replies[2 * i]).send
                    == TransmitModel::Datagram(data_wire(block_number(1, i as nat), blocks[i]))
            &&& t.phase == DownloadPhase::Done
            &&& t.transferred == content.len()
            &&& t.transferred == t.total_bytes
        }),
{
    let (begun, first) = crate::download::download_start(
        id,
        peer,
        filename,
        started,
        content.len() as u64,
        options,
        os_max,
    );
    lemma_decode_ack_wire(0);
    let ready = after_negotiation(begun);
    assert(begun.blksize > 0);
    assert(ready.blksize == begun.blksize);
    assert(ready.block_num == 1);
    assert(ready.transferred == 0);
    lemma_download_whole_file(ready, content);
}

} // verus!
