use crate::block::{block_views, Block, BlockView};
use crate::reconcile::{
    lemma_repair_keeps_heights, reconcile_error, reorg_depth, repaired, replace_from, scan,
    scan_misaligned, WindowError,
};
use std::collections::VecDeque;
use vstd::prelude::*;

verus! {

/// Whether the heights of `blocks` rise by one from each block to the next.
pub open spec fn consecutive(blocks: Seq<BlockView>) -> bool {
    forall|i: int| 0 <= i < blocks.len() ==> (#[trigger] blocks[i]).number == blocks[0].number + i
}

/// Heights are consecutive exactly when each block is one above the block
/// before it.
pub proof fn lemma_consecutive_by_neighbours(blocks: Seq<BlockView>)
    ensures
        consecutive(blocks) <==> forall|i: int|
            0 <= i < blocks.len() - 1 ==> (#[trigger] blocks[i]).number + 1 == blocks[i
                + 1].number,
{
    if consecutive(blocks) {
        assert forall|i: int| 0 <= i < blocks.len() - 1 implies (#[trigger] blocks[i]).number + 1
            == blocks[i + 1].number by {
            assert(blocks[i + 1].number == blocks[0].number + i + 1);
        }
    }
    if forall|i: int|
        0 <= i < blocks.len() - 1 ==> (#[trigger] blocks[i]).number + 1 == blocks[i + 1].number {
        lemma_neighbours_add_up(blocks, blocks.len() as int);
    }
}

/// Where each block is one above the block before it, the first `count`
/// heights rise by one from the first.
proof fn lemma_neighbours_add_up(blocks: Seq<BlockView>, count: int)
    requires
        0 <= count <= blocks.len(),
        forall|i: int|
            0 <= i < blocks.len() - 1 ==> (#[trigger] blocks[i]).number + 1 == blocks[i
                + 1].number,
    ensures
        forall|i: int| 0 <= i < count ==> (#[trigger] blocks[i]).number == blocks[0].number + i,
    decreases count,
{
    if count > 1 {
        lemma_neighbours_add_up(blocks, count - 1);
        assert(blocks[count - 2].number + 1 == blocks[count - 2 + 1].number);
    }
}

/// How far a window has come.
#[derive(Clone, Copy, Debug, PartialEq, Eq, Structural)]
pub enum WindowState {
    /// The window holds no block yet; the first block that comes in starts it.
    Uninitialized,
    /// The window holds blocks, but fewer than it keeps back.
    Filling,
    /// The window holds as many blocks as it keeps back: each block that
    /// comes in confirms the oldest.
    Steady,
}

/// What a window holds: the number of blocks it keeps back, and its blocks,
/// oldest first.
pub struct WindowView {
    pub capacity: nat,
    pub members: Seq<BlockView>,
}

impl WindowView {
    /// A window keeps at least one block back and never more than its capacity,
    /// and its blocks are of consecutive heights.
    pub open spec fn wf(self) -> bool {
        &&& 1 <= self.capacity
        &&& self.members.len() <= self.capacity
        &&& consecutive(self.members)
    }

    /// How far the window has come.
    pub open spec fn state(self) -> WindowState {
        if self.members.len() == 0 {
            WindowState::Uninitialized
        } else if self.members.len() < self.capacity {
            WindowState::Filling
        } else {
            WindowState::Steady
        }
    }

    /// What stands in the way of rolling the window forward with `fresh`, the
    /// blocks fetched anew over the window's heights and the one new height.
    /// A window that holds no block yet takes any one block in; a window that
    /// holds blocks must be reconciled first, and the new block must be one
    /// above its newest.
    pub open spec fn roll_error(self, fresh: Seq<BlockView>) -> Option<WindowError> {
        let len = self.members.len() as int;
        if fresh.len() != len + 1 {
            Some(WindowError::LengthMismatch)
        } else if len == 0 {
            None
        } else if reconcile_error(self.members, fresh.take(len)) is Some {
            reconcile_error(self.members, fresh.take(len))
        } else if fresh[len].number != self.members[len - 1].number + 1 {
            Some(WindowError::NotConsecutive)
        } else {
            None
        }
    }

    /// The window's blocks after the repair, with the newest fresh block added.
    pub open spec fn extended(self, fresh: Seq<BlockView>) -> Seq<BlockView> {
        let len = self.members.len() as int;
        repaired(self.members, fresh.take(len)).push(fresh[len])
    }

    /// The block that leaves the window when it is rolled forward: the oldest
    /// one, once the window holds more than its capacity.
    pub open spec fn confirmed(self, fresh: Seq<BlockView>) -> Option<BlockView> {
        if self.extended(fresh).len() > self.capacity {
            Some(self.extended(fresh)[0])
        } else {
            None
        }
    }

    /// The window after it has been rolled forward.
    pub open spec fn rolled(self, fresh: Seq<BlockView>) -> WindowView {
        WindowView {
            capacity: self.capacity,
            members: if self.extended(fresh).len() > self.capacity {
                self.extended(fresh).skip(1)
            } else {
                self.extended(fresh)
            },
        }
    }
}

/// What stands in the way of a window of `capacity` blocks that starts out with
/// `blocks`.
pub open spec fn initialize_error(capacity: nat, blocks: Seq<BlockView>) -> Option<WindowError> {
    if capacity == 0 {
        Some(WindowError::ZeroCapacity)
    } else if blocks.len() > capacity {
        Some(WindowError::TooManyBlocks)
    } else if !consecutive(blocks) {
        Some(WindowError::NotConsecutive)
    } else {
        None
    }
}

/// The heights of the `capacity` newest blocks up to `latest`, oldest first.
pub open spec fn newest_heights(latest: u64, capacity: nat) -> Seq<u64> {
    Seq::new(capacity, |i: int| (latest - (capacity - 1) + i) as u64)
}

/// The heights of `blocks`, in order.
pub open spec fn heights(blocks: Seq<BlockView>) -> Seq<u64> {
    blocks.map_values(|block: BlockView| block.number)
}

/// What one roll forward hands back: the block that is now confirmed, if the
/// window was full, and the number of blocks that had to be replaced.
#[derive(Debug, PartialEq, Eq)]
pub struct Confirmation {
    pub block: Option<Block>,
    pub reorganizations: usize,
}

/// The view of a block that may be missing.
pub open spec fn optional_view(block: Option<Block>) -> Option<BlockView> {
    match block {
        Some(block) => Some(block@),
        None => None,
    }
}

/// The window of the newest blocks, which are kept back until `capacity`
/// later blocks have confirmed them.
#[derive(Debug)]
pub struct ReorgWindow {
    capacity: usize,
    members: VecDeque<Block>,
}

impl View for ReorgWindow {
    type V = WindowView;

    closed spec fn view(&self) -> WindowView {
        WindowView { capacity: self.capacity as nat, members: block_views(self.members@) }
    }
}

impl ReorgWindow {
    /// Every window is in order, at all times.
    #[verifier::type_invariant]
    spec fn in_order(&self) -> bool {
        self@.wf()
    }

    /// A window that keeps `capacity` blocks back and starts out with `blocks`,
    /// oldest first.
    pub fn initialize(capacity: usize, blocks: VecDeque<Block>) -> (outcome: Result<
        ReorgWindow,
        WindowError,
    >)
        ensures
            match outcome {
                Ok(window) => {
                    &&& initialize_error(capacity as nat, block_views(blocks@)) is None
                    &&& window@.wf()
                    &&& window@ == (WindowView {
                        capacity: capacity as nat,
                        members: block_views(blocks@),
                    })
                },
                Err(error) => initialize_error(capacity as nat, block_views(blocks@)) == Some(
                    error,
                ),
            },
    {
        if capacity == 0 {
            return Err(WindowError::ZeroCapacity);
        }
        let len: usize = blocks.len();
        if len > capacity {
            return Err(WindowError::TooManyBlocks);
        }
        let ghost views = block_views(blocks@);
        let mut at: usize = 1;
        while at < len
            invariant
                1 <= at,
                1 <= capacity,
                len <= capacity,
                len == blocks@.len(),
                views == block_views(blocks@),
                forall|i: int| 0 <= i < at && i < len ==> (#[trigger] views[i]).number
                    == views[0].number + i,
            decreases len - at,
        {
            let before: u64 = blocks[at - 1].number;
            if before == u64::MAX || blocks[at].number != before + 1 {
                proof {
                    assert(views[at as int - 1].number == views[0].number + at - 1);
                    assert(views[at as int].number != views[0].number + at);
                }
                return Err(WindowError::NotConsecutive);
            }
            assert(views[at as int - 1].number == views[0].number + at - 1);
            at += 1;
        }
        Ok(ReorgWindow { capacity, members: blocks })
    }

    /// The heights to fetch for a window of `capacity` blocks that ends at
    /// the block `latest`: the `capacity` heights up to `latest`, oldest first.
    /// There are none to give for a window without capacity, nor where the
    /// chain is shorter than the window.
    pub fn initial_heights(latest: u64, capacity: usize) -> (outcome: Option<Vec<u64>>)
        ensures
            outcome is Some <==> 1 <= capacity <= latest + 1,
            outcome matches Some(wanted) ==> wanted@ == newest_heights(latest, capacity as nat),
    {
        if capacity == 0 || (capacity - 1) as u64 > latest {
            return None;
        }
        let first: u64 = latest - (capacity - 1) as u64;
        let mut wanted: Vec<u64> = Vec::new();
        let mut at: usize = 0;
        while at < capacity
            invariant
                at <= capacity,
                1 <= capacity <= latest + 1,
                first == latest - (capacity - 1),
                wanted@ == Seq::new(at as nat, |i: int| (latest - (capacity - 1) + i) as u64),
            decreases capacity - at,
        {
            wanted.push(first + at as u64);
            at += 1;
            assert(wanted@ =~= Seq::new(at as nat, |i: int| (latest - (capacity - 1) + i) as u64));
        }
        Some(wanted)
    }

    /// The heights to fetch before the window is rolled forward to the block
    /// `head`: those of the window's blocks, oldest first, and then `head`.
    pub fn heights_to_fetch(&self, head: u64) -> (wanted: Vec<u64>)
        ensures
            wanted@ == heights(self@.members).push(head),
    {
        let mut wanted: Vec<u64> = Vec::new();
        let len: usize = self.members.len();
        let mut at: usize = 0;
        while at < len
            invariant
                at <= len,
                len == self.members@.len(),
                wanted@ == heights(self@.members).take(at as int),
            decreases len - at,
        {
            wanted.push(self.members[at].number);
            at += 1;
            assert(wanted@ =~= heights(self@.members).take(at as int));
        }
        assert(heights(self@.members).take(len as int) =~= heights(self@.members));
        wanted.push(head);
        wanted
    }

    /// How far the window has come.
    pub fn state(&self) -> (state: WindowState)
        ensures
            state == self@.state(),
            self@.wf(),
    {
        proof {
            use_type_invariant(self);
        }
        if self.members.len() == 0 {
            WindowState::Uninitialized
        } else if self.members.len() < self.capacity {
            WindowState::Filling
        } else {
            WindowState::Steady
        }
    }

    /// The number of blocks that the window keeps back.
    pub fn capacity(&self) -> (capacity: usize)
        ensures
            capacity == self@.capacity,
            self@.wf(),
    {
        proof {
            use_type_invariant(self);
        }
        self.capacity
    }

    /// The blocks that the window holds, oldest first.
    pub fn members(&self) -> (members: &VecDeque<Block>)
        ensures
            block_views(members@) == self@.members,
            self@.wf(),
    {
        proof {
            use_type_invariant(self);
        }
        &self.members
    }

    /// Rolls the window forward by one block. `fresh` holds the blocks fetched
    /// anew over the window's heights, oldest first, and then the new block.
    /// The window is reconciled with the fresh blocks over its own heights,
    /// the new block is added, and the oldest block leaves the window once it
    /// holds more than its capacity. A full window whose oldest block stood
    /// at height `h` holds the heights from `h + 1` on afterwards. A window
    /// that holds no block yet takes the one block of `fresh` in. Where the
    /// window cannot be rolled forward, it is left as it was.
    pub fn roll_forward(&mut self, fresh: &VecDeque<Block>) -> (outcome: Result<
        Confirmation,
        WindowError,
    >)
        ensures
            old(self)@.wf(),
            final(self)@.wf(),
            match outcome {
                Ok(confirmation) => {
                    &&& old(self)@.roll_error(block_views(fresh@)) is None
                    &&& confirmation.reorganizations == reorg_depth(
                        old(self)@.members,
                        block_views(fresh@).take(old(self)@.members.len() as int),
                    )
                    &&& optional_view(confirmation.block) == old(self)@.confirmed(
                        block_views(fresh@),
                    )
                    &&& final(self)@ == old(self)@.rolled(block_views(fresh@))
                    &&& old(self)@.state() == WindowState::Steady ==> {
                        &&& final(self)@.members.len() == old(self)@.capacity
                        &&& forall|i: int|
                            0 <= i < old(self)@.capacity ==> (#[trigger] final(self)@.members[i])
                                .number == old(self)@.members[0].number + 1 + i
                    }
                },
                Err(error) => {
                    &&& old(self)@.roll_error(block_views(fresh@)) == Some(error)
                    &&& final(self)@ == old(self)@
                },
            },
    {
        proof {
            use_type_invariant(&*self);
        }
        let len: usize = self.members.len();
        if fresh.len() == 0 || fresh.len() - 1 != len {
            return Err(WindowError::LengthMismatch);
        }
        let ghost retained = block_views(self.members@);
        let ghost fetched = block_views(fresh@);
        let mut kept: usize = 0;
        if len > 0 {
            kept = match scan(&self.members, fresh) {
                Ok(kept) => kept,
                Err(error) => {
                    return Err(error);
                },
            };
            let newest: u64 = self.members[len - 1].number;
            if newest == u64::MAX || fresh[len].number != newest + 1 {
                return Err(WindowError::NotConsecutive);
            }
        }
        let mut members: VecDeque<Block> = VecDeque::new();
        std::mem::swap(&mut members, &mut self.members);
        replace_from(&mut members, fresh, kept);
        proof {
            assert(block_views(members@).take(kept as int) =~= retained.take(kept as int));
            assert(block_views(members@) =~= block_views(members@).take(kept as int) + block_views(
                members@,
            ).skip(kept as int));
            assert(fetched.subrange(kept as int, len as int) =~= fetched.take(len as int).skip(
                kept as int,
            ));
            assert(block_views(members@) == repaired(retained, fetched.take(len as int)));
        }
        members.push_back(fresh[len].clone());
        proof {
            assert(block_views(members@) =~= old(self)@.extended(fetched));
            lemma_roll_forward_heights(old(self)@, fetched);
        }
        let block = if members.len() > self.capacity {
            members.pop_front()
        } else {
            None
        };
        proof {
            assert(block_views(members@) =~= old(self)@.rolled(fetched).members);
        }
        self.members = members;
        Ok(Confirmation { block, reorganizations: len - kept })
    }
}

/// Rolling a window forward with fresh blocks that have its own heights and
/// hashes replaces nothing: the window keeps its blocks, takes the new one in,
/// and lets its oldest go if it was full.
pub proof fn lemma_unchanged_window_rolls_intact(window: WindowView, fresh: Seq<BlockView>)
    requires
        window.wf(),
        window.members.len() >= 1,
        fresh.len() == window.members.len() + 1,
        forall|i: int|
            0 <= i < window.members.len() ==> fresh[i].hash == window.members[i].hash
                && fresh[i].number == window.members[i].number,
        fresh.last().number == window.members.last().number + 1,
    ensures
        window.roll_error(fresh) is None,
        reorg_depth(window.members, fresh.take(window.members.len() as int)) == 0,
        window.extended(fresh) == window.members.push(fresh.last()),
        window.members.len() == window.capacity ==> window.rolled(fresh).members
            == window.members.skip(1).push(fresh.last()),
        window.members.len() < window.capacity ==> window.rolled(fresh).members
            == window.members.push(fresh.last()),
{
    let len = window.members.len() as int;
    let aligned = fresh.take(len);
    assert(aligned.last().hash == window.members.last().hash);
    assert(!scan_misaligned(window.members, aligned)) by {
        assert forall|i: int| 0 <= i < len implies window.members[i].number
            == aligned[i].number by {}
    }
    assert(repaired(window.members, aligned) =~= window.members);
    assert(window.members.push(fresh.last()).skip(1) =~= window.members.skip(1).push(
        fresh.last(),
    ));
}

/// A window that can be rolled forward is in order afterwards. If it was full,
/// with its oldest block at height `h`, it is full again and holds the heights
/// from `h + 1` on, one block for each.
pub proof fn lemma_roll_forward_heights(window: WindowView, fresh: Seq<BlockView>)
    requires
        window.wf(),
        window.roll_error(fresh) is None,
    ensures
        window.rolled(fresh).wf(),
        window.rolled(fresh).capacity == window.capacity,
        window.members.len() == window.capacity ==> {
            &&& window.rolled(fresh).members.len() == window.capacity
            &&& forall|i: int|
                0 <= i < window.capacity ==> (#[trigger] window.rolled(fresh).members[i]).number
                    == window.members[0].number + 1 + i
        },
        window.members.len() < window.capacity ==> window.rolled(fresh).members.len()
            == window.members.len() + 1,
        window.state() == WindowState::Steady ==> window.rolled(fresh).state()
            == WindowState::Steady,
        window.rolled(fresh).state() != WindowState::Uninitialized,
{
    let len = window.members.len() as int;
    let aligned = fresh.take(len);
    let extended = window.extended(fresh);
    if len > 0 {
        lemma_repair_keeps_heights(window.members, aligned);
        assert forall|i: int| 0 <= i < extended.len() implies (#[trigger] extended[i]).number
            == window.members[0].number + i by {
            if i < len {
                assert(repaired(window.members, aligned)[i].number == window.members[i].number);
            } else {
                assert(window.members[len - 1].number == window.members[0].number + len - 1);
            }
        }
    } else {
        assert(extended.len() == 1);
    }
}

} // verus!
