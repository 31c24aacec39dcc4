use crate::event::{log_views, ParsedLog, ParsedLogView};
use vstd::prelude::*;

verus! {

/// A block as it was seen at one moment: its height, its hash, and the swaps
/// that were found in it.
#[derive(Debug, PartialEq, Eq)]
pub struct Block {
    pub number: u64,
    pub hash: [u8; 32],
    pub parsed_logs: Vec<ParsedLog>,
}

/// What a `Block` holds, as plain values.
pub struct BlockView {
    pub number: u64,
    pub hash: Seq<u8>,
    pub parsed_logs: Seq<ParsedLogView>,
}

impl View for Block {
    type V = BlockView;

    open spec fn view(&self) -> BlockView {
        BlockView {
            number: self.number,
            hash: self.hash@,
            parsed_logs: log_views(self.parsed_logs@),
        }
    }
}

impl Clone for Block {
    fn clone(&self) -> (copy: Self)
        ensures
            copy@ == self@,
    {
        let parsed_logs = self.parsed_logs.clone();
        assert(log_views(parsed_logs@) =~= log_views(self.parsed_logs@));
        Block { number: self.number, hash: self.hash, parsed_logs }
    }
}

/// The views of a run of blocks, in order.
pub open spec fn block_views(blocks: Seq<Block>) -> Seq<BlockView> {
    blocks.map_values(|block: Block| block@)
}

/// Whether two block hashes are the same, byte for byte.
pub fn same_hash(a: &[u8; 32], b: &[u8; 32]) -> (same: bool)
    ensures
        same == (a@ == b@),
{
    let mut i: usize = 0;
    while i < 32
        invariant
            i <= 32,
            forall|j: int| 0 <= j < i ==> a@[j] == b@[j],
        decreases 32 - i,
    {
        if a[i] != b[i] {
            return false;
        }
        i += 1;
    }
    assert(a@ =~= b@);
    true
}

} // verus!
