use vstd::prelude::*;

use crate::block::Block;

verus! {

/// The append-only chain of blocks; the first is always genesis, so the
/// chain is never empty.
#[derive(Clone, Debug)]
pub struct Blockchain {
    pub blocks: Vec<Block>,
}

impl Blockchain {
    pub open spec fn wf(&self) -> bool {
        self.blocks@.len() >= 1
    }

    pub fn new(gen_blk: Block) -> (r: Self)
        ensures
            r.wf(),
            r.blocks@.len() == 1,
            r.blocks@[0] == gen_blk,
    {
        let mut blocks = Vec::new();
        blocks.push(gen_blk);
        Self { blocks }
    }

    pub fn len(&self) -> (r: usize)
        ensures
            r == self.blocks@.len(),
    {
        self.blocks.len()
    }

    /// Appends `blk`, stamping it with its position in the chain.
    pub fn add_block(&mut self, blk: Block)
        requires
            old(self).blocks@.len() < u32::MAX,
        ensures
            final(self).blocks@ == old(self).blocks@.push(
                Block { index: old(self).blocks@.len() as u32, ..blk },
            ),
    {
        let mut blk = blk;
        blk.index = self.blocks.len() as u32;
        self.blocks.push(blk);
    }

    /// The chain always holds at least the genesis block, so there is
    /// always a last block.
    pub fn last_block(&self) -> (r: &Block)
        requires
            self.wf(),
        ensures
            *r == self.blocks@.last(),
    {
        &self.blocks[self.blocks.len() - 1]
    }
}

} // verus!
