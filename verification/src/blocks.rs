use vstd::prelude::*;

verus! {

/// The blocks in which a file goes out: blocks of `blksize` bytes read one
/// after the other, up to and with the first block that is shorter. A file
/// whose length is a multiple of `blksize` thus ends in an empty block.
pub open spec fn file_blocks(content: Seq<u8>, blksize: nat) -> Seq<Seq<u8>>
    decreases content.len(),
{
    if blksize == 0 || content.len() < blksize {
        seq![content]
    } else {
        seq![content.take(blksize as int)] + file_blocks(content.skip(blksize as int), blksize)
    }
}

/// The bytes of a sequence of blocks, one block after the other.
pub open spec fn joined(blocks: Seq<Seq<u8>>) -> Seq<u8>
    decreases blocks.len(),
{
    if blocks.len() == 0 {
        Seq::empty()
    } else {
        joined(blocks.drop_last()) + blocks.last()
    }
}

/// A block in front of others comes first in their bytes.
pub proof fn lemma_joined_front(first: Seq<u8>, rest: Seq<Seq<u8>>)
    ensures
        joined(seq![first] + rest) == first + joined(rest),
    decreases rest.len(),
{
    let all = seq![first] + rest;
    if rest.len() == 0 {
        assert(all.drop_last() =~= Seq::<Seq<u8>>::empty());
        assert(joined(all.drop_last()) =~= Seq::<u8>::empty());
        assert(all.last() == first);
        assert(joined(all) =~= first + joined(rest));
    } else {
        lemma_joined_front(first, rest.drop_last());
        assert(all.drop_last() =~= seq![first] + rest.drop_last());
        assert(all.last() == rest.last());
        assert(joined(all) =~= first + joined(rest));
    }
}

/// The blocks of a file hold the file: joined they are its content.
pub proof fn lemma_file_blocks_joined(content: Seq<u8>, blksize: nat)
    ensures
        joined(file_blocks(content, blksize)) == content,
    decreases content.len(),
{
    if blksize == 0 || content.len() < blksize {
        let one = seq![content];
        assert(one.drop_last() =~= Seq::<Seq<u8>>::empty());
        assert(joined(one.drop_last()) =~= Seq::<u8>::empty());
        assert(joined(one) =~= content);
    } else {
        let head = content.take(blksize as int);
        let tail = content.skip(blksize as int);
        lemma_file_blocks_joined(tail, blksize);
        lemma_joined_front(head, file_blocks(tail, blksize));
        assert(head + tail =~= content);
    }
}

/// The shape of the blocks of a file: one more than the file has whole
/// blocks; all but the last of full size; the last with the bytes left
/// over, fewer than a block.
pub proof fn lemma_file_blocks_shape(content: Seq<u8>, blksize: nat)
    requires
        blksize > 0,
    ensures
        file_blocks(content, blksize).len() == content.len() / blksize + 1,
        forall|i: int|
            0 <= i < file_blocks(content, blksize).len() - 1 ==> (#[trigger] file_blocks(
                content,
                blksize,
            )[i]).len() == blksize,
        file_blocks(content, blksize).last().len() == content.len() % blksize,
        file_blocks(content, blksize).last().len() < blksize,
    decreases content.len(),
{
    let n = content.len() as int;
    let b = blksize as int;
    if n < b {
        assert(n / b == 0 && n % b == n) by (nonlinear_arith)
            requires
                0 <= n < b,
        ;
    } else {
        let tail = content.skip(b);
        lemma_file_blocks_shape(tail, blksize);
        assert((n - b) / b + 1 == n / b && (n - b) % b == n % b) by (nonlinear_arith)
            requires
                0 < b <= n,
        ;
        let rest = file_blocks(tail, blksize);
        let all = file_blocks(content, blksize);
        assert(all == seq![content.take(b)] + rest);
        assert(all.last() == rest.last());
        assert forall|i: int| 0 <= i < all.len() - 1 implies (#[trigger] all[i]).len() == blksize by {
            if i > 0 {
                assert(all[i] == rest[i - 1]);
            }
        }
    }
}

/// A file whose length is a multiple of the block size ends in an empty
/// block, after as many full blocks as the multiple says.
pub proof fn lemma_file_blocks_multiple(content: Seq<u8>, blksize: nat, k: nat)
    requires
        blksize > 0,
        content.len() == k * blksize,
    ensures
        file_blocks(content, blksize).len() == k + 1,
        file_blocks(content, blksize).last().len() == 0,
{
    lemma_file_blocks_shape(content, blksize);
    let n = content.len() as int;
    let b = blksize as int;
    assert(n / b == k && n % b == 0) by (nonlinear_arith)
        requires
            b > 0,
            n == k * b,
    ;
}

/// An empty file goes out as exactly one block, which is empty.
pub proof fn lemma_file_blocks_empty(blksize: nat)
    ensures
        file_blocks(Seq::<u8>::empty(), blksize) == seq![Seq::<u8>::empty()],
{
}

} // verus!
