//! Splitting a buffer into 512-byte blocks.
//!
//! An archive is a run of blocks. The bytes after the last whole block, if
//! there are any, belong to no block and are never read.

use vstd::prelude::*;

verus! {

/// The length of one block in bytes.
pub const BLOCK_SIZE: usize = 512;

/// The byte sequence of `n` zero bytes.
pub open spec fn zeros(n: nat) -> Seq<u8> {
    Seq::new(n, |i: int| 0u8)
}

/// True when every byte of `block` is zero.
pub open spec fn is_zero_block(block: Seq<u8>) -> bool {
    forall|i: int| 0 <= i < block.len() ==> block[i] == 0
}

/// The number of whole blocks in `buffer`.
pub open spec fn block_count(buffer: Seq<u8>) -> nat {
    buffer.len() / 512
}

/// The block of `buffer` with the given index, counted from zero.
pub open spec fn block_at(buffer: Seq<u8>, index: int) -> Seq<u8>
    recommends
        0 <= index < block_count(buffer),
{
    buffer.subrange(index * 512, index * 512 + 512)
}

/// The blocks of `buffer` from index `from` up to `to`.
pub open spec fn blocks_between(buffer: Seq<u8>, from: int, to: int) -> Seq<Seq<u8>> {
    Seq::new((to - from) as nat, |i: int| block_at(buffer, from + i))
}

/// The bytes of each of a list of borrowed blocks.
pub open spec fn blocks_view(blocks: Seq<&[u8]>) -> Seq<Seq<u8>> {
    Seq::new(blocks.len(), |i: int| blocks[i]@)
}

/// Tells whether a block holds nothing but zero bytes.
pub fn is_all_zero(block: &[u8]) -> (all_zero: bool)
    ensures
        all_zero == is_zero_block(block@),
{
    let mut i: usize = 0;
    while i < block.len()
        invariant
            i <= block@.len(),
            forall|j: int| 0 <= j < i ==> block@[j] == 0,
        decreases block@.len() - i,
    {
        if block[i] != 0 {
            return false;
        }
        i += 1;
    }
    true
}

/// Counts the whole blocks of a buffer.
pub fn count_blocks(buffer: &[u8]) -> (count: usize)
    ensures
        count == block_count(buffer@),
{
    buffer.len() / BLOCK_SIZE
}

/// Borrows one block of a buffer.
pub fn get_block(buffer: &[u8], index: usize) -> (block: &[u8])
    requires
        index < block_count(buffer@),
    ensures
        block@ == block_at(buffer@, index as int),
        block@.len() == 512,
{
    assert(index * 512 + 512 <= buffer.len());
    let start: usize = index * BLOCK_SIZE;
    &buffer[start..start + BLOCK_SIZE]
}

/// Borrows the blocks of `buffer` from index `from` up to `to`.
pub fn collect_blocks<'a>(buffer: &'a [u8], from: usize, to: usize) -> (blocks: Vec<&'a [u8]>)
    requires
        from <= to <= block_count(buffer@),
    ensures
        blocks_view(blocks@) == blocks_between(buffer@, from as int, to as int),
{
    let mut blocks: Vec<&'a [u8]> = Vec::new();
    let mut index: usize = from;
    while index < to
        invariant
            from <= index <= to <= block_count(buffer@),
            blocks_view(blocks@) =~= blocks_between(buffer@, from as int, index as int),
        decreases to - index,
    {
        let ghost before = blocks_view(blocks@);
        let block = get_block(buffer, index);
        blocks.push(block);
        assert(blocks_view(blocks@) =~= before.push(block@));
        index += 1;
    }
    blocks
}

/// Splits a buffer into its blocks. What is left after the last whole
/// block is dropped.
pub fn split_blocks<'a>(buffer: &'a [u8]) -> (blocks: Vec<&'a [u8]>)
    ensures
        blocks_view(blocks@) == blocks_between(buffer@, 0, block_count(buffer@) as int),
        blocks@.len() == block_count(buffer@),
{
    let blocks = collect_blocks(buffer, 0, count_blocks(buffer));
    assert(blocks_view(blocks@).len() == blocks@.len());
    blocks
}

} // verus!
