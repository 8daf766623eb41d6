//! Hashing a file's bytes into a whole-file digest and a block chain: the
//! tiling of the content into `BLOCK_SIZE` blocks, each with the digest of
//! its own bytes.

use vstd::prelude::*;

use crate::index::{chain_size, chain_wf, hash_wf, Block, BlockChain, BlockV, ChainV, Sha256sum,
    BLOCK_SIZE};

verus! {

/// The SHA-256 digest of a byte sequence, as the outside hasher computes it.
pub uninterp spec fn sha256_of(data: Seq<u8>) -> Seq<u8>;

/// Relies on sha2::Sha256::digest: a 32-byte digest that depends on the
/// hashed bytes alone.
#[verifier::external_body]
fn sha256_slice(data: &Vec<u8>, start: usize, end: usize) -> (r: Sha256sum)
    requires
        start <= end <= data@.len(),
    ensures
        r@ == sha256_of(data@.subrange(start as int, end as int)),
        r@.len() == 32,
{
    let digest = <sha2::Sha256 as sha2::Digest>::digest(&data[start..end]);
    digest.to_vec()
}

/// The block starting at `off`: a full block, or the shorter final one.
pub open spec fn spec_block_at(data: Seq<u8>, off: int) -> BlockV {
    let l = if data.len() - off < BLOCK_SIZE as int {
        data.len() - off
    } else {
        BLOCK_SIZE as int
    };
    BlockV {
        offset: off as u64,
        len: l as u64,
        hash_sum: sha256_of(data.subrange(off, off + l)),
    }
}

/// The blocks tiling `data` from `off` on: full blocks, then one final block
/// of whatever remains (for empty input, a single empty block).
pub open spec fn spec_blocks_of(data: Seq<u8>, off: int) -> Seq<BlockV>
    decreases data.len() - off,
    when 0 <= off <= data.len()
{
    if data.len() - off <= BLOCK_SIZE as int {
        seq![spec_block_at(data, off)]
    } else {
        seq![spec_block_at(data, off)] + spec_blocks_of(data, off + BLOCK_SIZE as int)
    }
}

/// The chain that tiles the whole of `data`.
pub open spec fn spec_chain_of(data: Seq<u8>) -> ChainV {
    ChainV { block_size: BLOCK_SIZE as u64, blocks: spec_blocks_of(data, 0) }
}

/// The sum of the lengths of a prepended block and a tail.
proof fn lemma_chain_size_prepend(b: BlockV, s: Seq<BlockV>)
    ensures
        chain_size(seq![b] + s) == b.len + chain_size(s),
    decreases s.len(),
{
    if s.len() == 0 {
        assert(seq![b] + s =~= seq![b]);
        assert(seq![b].drop_last() =~= Seq::<BlockV>::empty());
        assert(seq![b].last() == b);
        assert(chain_size(seq![b].drop_last()) == 0);
    } else {
        lemma_chain_size_prepend(b, s.drop_last());
        assert((seq![b] + s).drop_last() =~= seq![b] + s.drop_last());
        assert((seq![b] + s).last() == s.last());
    }
}

/// Where block `i` of a tiling that starts at `off` begins.
pub open spec fn block_off(off: int, i: int) -> int {
    off + i * (BLOCK_SIZE as int)
}

/// Shape of the tiling from `off` on: block `i` sits at `block_off(off, i)`,
/// every block but the last is full, and the lengths sum to what remains.
pub proof fn lemma_blocks_of_props(data: Seq<u8>, off: int)
    requires
        0 <= off <= data.len(),
        data.len() <= u64::MAX,
    ensures
        spec_blocks_of(data, off).len() >= 1,
        forall|i: int|
            0 <= i < spec_blocks_of(data, off).len()
                ==> #[trigger] spec_blocks_of(data, off)[i] == spec_block_at(
                data,
                block_off(off, i),
            ),
        forall|i: int|
            0 <= i < spec_blocks_of(data, off).len() - 1
                ==> data.len() - #[trigger] block_off(off, i) > BLOCK_SIZE as int,
        data.len() - block_off(off, spec_blocks_of(data, off).len() - 1) <= BLOCK_SIZE as int,
        off <= block_off(off, spec_blocks_of(data, off).len() - 1) <= data.len(),
        chain_size(spec_blocks_of(data, off)) == data.len() - off,
    decreases data.len() - off,
{
    let bs = spec_blocks_of(data, off);
    if data.len() - off <= BLOCK_SIZE as int {
        assert(bs =~= seq![spec_block_at(data, off)]);
        assert(bs.drop_last() =~= Seq::<BlockV>::empty());
        assert(bs.last() == spec_block_at(data, off));
        assert(chain_size(bs.drop_last()) == 0);
        assert(block_off(off, 0) == off);
    } else {
        lemma_blocks_of_props(data, off + BLOCK_SIZE as int);
        let rest = spec_blocks_of(data, off + BLOCK_SIZE as int);
        assert(bs =~= seq![spec_block_at(data, off)] + rest);
        assert forall|i: int| 0 <= i < bs.len() implies #[trigger] bs[i] == spec_block_at(
            data,
            block_off(off, i),
        ) by {
            if i == 0 {
                assert(block_off(off, 0) == off);
            } else {
                assert(rest[i - 1] == spec_block_at(
                    data,
                    block_off(off + BLOCK_SIZE as int, i - 1),
                ));
                assert(block_off(off + BLOCK_SIZE as int, i - 1) == block_off(off, i))
                    by (nonlinear_arith);
            }
        }
        assert forall|i: int| 0 <= i < bs.len() - 1 implies data.len() - #[trigger] block_off(
            off,
            i,
        ) > BLOCK_SIZE as int by {
            if i == 0 {
                assert(block_off(off, 0) == off);
            } else {
                assert(data.len() - block_off(off + BLOCK_SIZE as int, i - 1)
                    > BLOCK_SIZE as int);
                assert(block_off(off + BLOCK_SIZE as int, i - 1) == block_off(off, i))
                    by (nonlinear_arith);
            }
        }
        assert(bs.len() == rest.len() + 1);
        assert(block_off(off, rest.len() + 1 - 1) == block_off(
            off + BLOCK_SIZE as int,
            rest.len() - 1,
        )) by (nonlinear_arith);
        lemma_chain_size_prepend(spec_block_at(data, off), rest);
    }
}

/// Structure of the chain over whole content: offsets are consecutive
/// multiples of `BLOCK_SIZE`, all blocks but the last are full, the last is
/// short but (except for empty content) not empty, and the lengths sum to the
/// content length.
pub proof fn lemma_chain_of_structure(data: Seq<u8>)
    requires
        data.len() <= u64::MAX,
    ensures
        spec_chain_of(data).block_size == BLOCK_SIZE,
        spec_chain_of(data).blocks.len() >= 1,
        forall|i: int|
            0 <= i < spec_chain_of(data).blocks.len()
                ==> (#[trigger] spec_chain_of(data).blocks[i]).offset == i * (BLOCK_SIZE as int),
        forall|i: int|
            0 <= i < spec_chain_of(data).blocks.len() - 1
                ==> (#[trigger] spec_chain_of(data).blocks[i]).len == BLOCK_SIZE,
        spec_chain_of(data).blocks.last().len <= BLOCK_SIZE,
        spec_chain_of(data).blocks.len() > 1 ==> spec_chain_of(data).blocks.last().len >= 1,
        chain_size(spec_chain_of(data).blocks) == data.len(),
    decreases data.len(),
{
    lemma_blocks_of_props(data, 0);
    let bs = spec_chain_of(data).blocks;
    let m = bs.len();
    assert forall|i: int| 0 <= i < m implies (#[trigger] bs[i]).offset == i * (
    BLOCK_SIZE as int) by {
        assert(bs[i] == spec_block_at(data, block_off(0, i)));
        if i < m - 1 {
            assert(data.len() - block_off(0, i) > BLOCK_SIZE as int);
        } else {
            assert(0 <= block_off(0, i) <= data.len());
        }
    }
    assert forall|i: int| 0 <= i < m - 1 implies (#[trigger] bs[i]).len == BLOCK_SIZE by {
        assert(bs[i] == spec_block_at(data, block_off(0, i)));
        assert(data.len() - block_off(0, i) > BLOCK_SIZE as int);
    }
    assert(bs.last() == spec_block_at(data, block_off(0, m - 1)));
    assert(0 <= block_off(0, m - 1) <= data.len());
    if m > 1 {
        assert(data.len() - block_off(0, m - 2) > BLOCK_SIZE as int);
        assert(block_off(0, m - 2) + BLOCK_SIZE as int == block_off(0, m - 1)) by (nonlinear_arith);
    }
}

/// Hash the bytes of one file: the whole-file digest and the block chain.
/// The chain tiles the content exactly; each block's digest is over its own
/// bytes; a zero-length input yields a single empty block.
pub fn hash_file(content: &Vec<u8>) -> (r: (Sha256sum, BlockChain))
    requires
        content@.len() <= u64::MAX,
    ensures
        r.0@ == sha256_of(content@),
        hash_wf(r.0@),
        r.1@ == spec_chain_of(content@),
        chain_wf(r.1@),
        chain_size(r.1@.blocks) == content@.len(),
{
    let ghost data = content@;
    let n = content.len();
    let mut blocks: Vec<Block> = Vec::new();
    let mut off: usize = 0;
    let mut done = false;
    while !done
        invariant
            n == content@.len(),
            n <= u64::MAX,
            0 <= off <= n,
            data == content@,
            forall|j: int| 0 <= j < blocks@.len() ==> (#[trigger] blocks@[j])@.hash_sum.len() == 32,
            !done ==> blocks@.map_values(|b: Block| b@) + spec_blocks_of(data, off as int)
                =~= spec_blocks_of(data, 0),
            done ==> blocks@.map_values(|b: Block| b@) =~= spec_blocks_of(data, 0),
        decreases n - off + (if done { 0int } else { 1int }),
    {
        let ghost before = blocks@.map_values(|x: Block| x@);
        if n - off <= BLOCK_SIZE {
            let h = sha256_slice(content, off, n);
            let b = Block { offset: off as u64, len: (n - off) as u64, hash_sum: h };
            proof {
                assert(b@ == spec_block_at(data, off as int));
                assert(spec_blocks_of(data, off as int) =~= seq![b@]);
            }
            blocks.push(b);
            proof {
                assert(blocks@.map_values(|x: Block| x@) =~= before + seq![b@]);
                assert(before + seq![b@] =~= spec_blocks_of(data, 0));
            }
            done = true;
        } else {
            let h = sha256_slice(content, off, off + BLOCK_SIZE);
            let b = Block { offset: off as u64, len: BLOCK_SIZE as u64, hash_sum: h };
            proof {
                assert(b@ == spec_block_at(data, off as int));
                assert(spec_blocks_of(data, off as int) =~= seq![b@] + spec_blocks_of(
                    data,
                    off + BLOCK_SIZE as int,
                ));
            }
            blocks.push(b);
            proof {
                assert(blocks@.map_values(|x: Block| x@) =~= before + seq![b@]);
                assert((before + seq![b@]) + spec_blocks_of(data, off + BLOCK_SIZE as int)
                    =~= spec_blocks_of(data, 0));
            }
            off = off + BLOCK_SIZE;
        }
    }
    let whole = sha256_slice(content, 0, n);
    proof {
        assert(data.subrange(0, n as int) =~= data);
    }
    let chain = BlockChain { block_size: BLOCK_SIZE as u64, blocks };
    proof {
        assert(chain@.blocks =~= spec_blocks_of(data, 0));
        assert(chain@ == spec_chain_of(data));
        lemma_blocks_of_props(data, 0);
        lemma_chain_of_structure(data);
        assert(forall|i: int|
            0 <= i < chain@.blocks.len() ==> hash_wf((#[trigger] chain@.blocks[i]).hash_sum));
        assert(chain_wf(chain@));
    }
    (whole, chain)
}

} // verus!
