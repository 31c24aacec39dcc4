use crate::block::{block_views, same_hash, Block, BlockView};
use crate::decimal::{decimal_digits, decimal_string};
use std::collections::VecDeque;
use vstd::prelude::*;
use vstd::string::*;

verus! {

/// Why two windows could not be reconciled, or a window not be rolled forward.
#[derive(Clone, Copy, Debug, PartialEq, Eq, Structural)]
pub enum WindowError {
    /// The retained and the fresh window differ in length.
    LengthMismatch,
    /// The retained window holds no block.
    EmptyWindow,
    /// The oldest blocks of the two windows differ in height.
    FrontHeightMismatch,
    /// The oldest blocks of the two windows differ in hash: every one of the
    /// `depth` retained blocks may have been replaced.
    FullDepthReorg { depth: usize },
    /// Two blocks at the same place of the two windows differ in height.
    HeightMismatch,
    /// A window was asked to keep no block back at all.
    ZeroCapacity,
    /// More blocks were handed over than the window can hold.
    TooManyBlocks,
    /// The heights of the blocks handed over do not rise by one from block to
    /// block, or the newest block is not one above the window's newest.
    NotConsecutive,
}

impl WindowError {
    /// The words in which the fault is reported.
    pub open spec fn message_text(self) -> Seq<char> {
        match self {
            WindowError::LengthMismatch => {
                "The 2 queues should have the same length to be compared."@
            },
            WindowError::EmptyWindow => "The retained queue holds no block."@,
            WindowError::FrontHeightMismatch => {
                "Block number of front element in both queues doesn't coincide"@
            },
            WindowError::FullDepthReorg { depth } => "A "@ + decimal_digits(depth as nat)
                + "-blocks reorganization ocurred"@,
            WindowError::HeightMismatch => "Block numbers on both queues doesn't coincide."@,
            WindowError::ZeroCapacity => "The reorganization depth should be set larger than 0."@,
            WindowError::TooManyBlocks => "The queue holds more blocks than the window keeps."@,
            WindowError::NotConsecutive => "Block numbers should rise by one from block to block."@,
        }
    }

    /// Reports the fault in words.
    pub fn message(&self) -> (text: String)
        ensures
            text@ == self.message_text(),
    {
        match self {
            WindowError::LengthMismatch => String::from_str(
                "The 2 queues should have the same length to be compared.",
            ),
            WindowError::EmptyWindow => String::from_str("The retained queue holds no block."),
            WindowError::FrontHeightMismatch => String::from_str(
                "Block number of front element in both queues doesn't coincide",
            ),
            WindowError::FullDepthReorg { depth } => {
                let mut text = String::from_str("A ");
                text.append(decimal_string(*depth as u64).as_str());
                text.append("-blocks reorganization ocurred");
                text
            },
            WindowError::HeightMismatch => String::from_str(
                "Block numbers on both queues doesn't coincide.",
            ),
            WindowError::ZeroCapacity => String::from_str(
                "The reorganization depth should be set larger than 0.",
            ),
            WindowError::TooManyBlocks => String::from_str(
                "The queue holds more blocks than the window keeps.",
            ),
            WindowError::NotConsecutive => String::from_str(
                "Block numbers should rise by one from block to block.",
            ),
        }
    }
}

/// How many of the newest blocks of `retained` have been replaced in `fresh`:
/// the length of the longest run, from the newest block back, in which every
/// fresh hash differs from the retained one.
pub open spec fn reorg_depth(retained: Seq<BlockView>, fresh: Seq<BlockView>) -> nat
    decreases retained.len(),
{
    if retained.len() == 0 || fresh.len() == 0 || retained.last().hash == fresh.last().hash {
        0
    } else {
        1 + reorg_depth(retained.drop_last(), fresh.drop_last())
    }
}

/// Whether the two windows differ in height at a place that the backward scan
/// looks at: a replaced block, or the block at which the scan stops.
pub open spec fn scan_misaligned(retained: Seq<BlockView>, fresh: Seq<BlockView>) -> bool {
    exists|i: int|
        0 <= i < retained.len() && retained.len() - reorg_depth(retained, fresh) - 1 <= i
            && #[trigger] retained[i].number != fresh[i].number
}

/// What stands in the way of reconciling `retained` with `fresh`, if anything.
/// Of several faults the first of this list is reported: lengths, an empty
/// window, the oldest heights, the oldest hashes, the heights that the scan
/// meets.
pub open spec fn reconcile_error(retained: Seq<BlockView>, fresh: Seq<BlockView>) -> Option<
    WindowError,
> {
    if retained.len() != fresh.len() {
        Some(WindowError::LengthMismatch)
    } else if retained.len() == 0 {
        Some(WindowError::EmptyWindow)
    } else if retained[0].number != fresh[0].number {
        Some(WindowError::FrontHeightMismatch)
    } else if retained[0].hash != fresh[0].hash {
        Some(WindowError::FullDepthReorg { depth: retained.len() as usize })
    } else if scan_misaligned(retained, fresh) {
        Some(WindowError::HeightMismatch)
    } else {
        None
    }
}

/// Whether two windows hold blocks of the same heights and hashes, place by
/// place, and at least one block.
pub open spec fn identical(retained: Seq<BlockView>, fresh: Seq<BlockView>) -> bool {
    &&& retained.len() == fresh.len()
    &&& retained.len() >= 1
    &&& forall|i: int|
        0 <= i < retained.len() ==> (#[trigger] retained[i]).number == fresh[i].number
            && retained[i].hash == fresh[i].hash
}

/// The retained window after its replaced blocks have been taken from `fresh`.
pub open spec fn repaired(retained: Seq<BlockView>, fresh: Seq<BlockView>) -> Seq<BlockView> {
    let kept = retained.len() - reorg_depth(retained, fresh);
    retained.take(kept) + fresh.skip(kept)
}

/// Looks through the two windows from the newest block back, as far as the
/// hashes differ, and returns the number of blocks that need no repair.
pub(crate) fn scan(queue: &VecDeque<Block>, new_queue: &VecDeque<Block>) -> (outcome: Result<
    usize,
    WindowError,
>)
    requires
        queue@.len() <= new_queue@.len(),
    ensures
        ({
            let retained = block_views(queue@);
            let fresh = block_views(new_queue@).take(queue@.len() as int);
            match outcome {
                Ok(kept) => {
                    &&& reconcile_error(retained, fresh) is None
                    &&& kept == retained.len() - reorg_depth(retained, fresh)
                    &&& 1 <= kept <= retained.len()
                },
                Err(error) => reconcile_error(retained, fresh) == Some(error),
            }
        }),
{
    let ghost retained = block_views(queue@);
    let ghost fresh = block_views(new_queue@).take(queue@.len() as int);
    let len: usize = queue.len();
    if len == 0 {
        return Err(WindowError::EmptyWindow);
    }
    if queue[0].number != new_queue[0].number {
        return Err(WindowError::FrontHeightMismatch);
    }
    if !same_hash(&queue[0].hash, &new_queue[0].hash) {
        return Err(WindowError::FullDepthReorg { depth: len });
    }
    let mut kept: usize = len;
    loop
        invariant
            len == queue@.len(),
            len <= new_queue@.len(),
            retained == block_views(queue@),
            fresh == block_views(new_queue@).take(queue@.len() as int),
            retained[0].hash == fresh[0].hash,
            retained[0].number == fresh[0].number,
            1 <= kept <= len,
            forall|j: int| kept <= j < len ==> retained[j].hash != fresh[j].hash,
            forall|j: int| kept <= j < len ==> retained[j].number == fresh[j].number,
        ensures
            retained[kept - 1].hash == fresh[kept - 1].hash,
            retained[kept - 1].number == fresh[kept - 1].number,
        decreases kept,
    {
        let at: usize = kept - 1;
        if queue[at].number != new_queue[at].number {
            proof {
                lemma_depth_of_run_at_least(retained, fresh, kept as int);
                assert(retained[at as int].number != fresh[at as int].number);
            }
            return Err(WindowError::HeightMismatch);
        }
        if same_hash(&queue[at].hash, &new_queue[at].hash) {
            break ;
        }
        kept = at;
    }
    proof {
        lemma_depth_of_run(retained, fresh, kept as int);
        assert forall|i: int|
            0 <= i < retained.len() && retained.len() - reorg_depth(retained, fresh) - 1
                <= i implies retained[i].number == fresh[i].number by {}
    }
    Ok(kept)
}

/// Puts copies of the blocks of `new_queue` in the place of the blocks of
/// `queue` from place `kept` on.
pub(crate) fn replace_from(queue: &mut VecDeque<Block>, new_queue: &VecDeque<Block>, kept: usize)
    requires
        kept <= old(queue)@.len() <= new_queue@.len(),
    ensures
        final(queue)@.len() == old(queue)@.len(),
        forall|i: int| 0 <= i < kept ==> final(queue)@[i] == old(queue)@[i],
        block_views(final(queue)@).skip(kept as int) == block_views(new_queue@).subrange(
            kept as int,
            old(queue)@.len() as int,
        ),
        kept == old(queue)@.len() ==> final(queue)@ == old(queue)@,
{
    let len: usize = queue.len();
    queue.truncate(kept);
    let mut at: usize = kept;
    while at < len
        invariant
            kept <= at <= len,
            len == old(queue)@.len(),
            len <= new_queue@.len(),
            queue@.len() == at,
            forall|i: int| 0 <= i < kept ==> queue@[i] == old(queue)@[i],
            block_views(queue@).skip(kept as int) == block_views(new_queue@).subrange(
                kept as int,
                at as int,
            ),
        decreases len - at,
    {
        queue.push_back(new_queue[at].clone());
        at += 1;
    }
    assert(kept == len ==> queue@ =~= old(queue)@);
}

/// Reconciles the retained window `queue` with `new_queue`, a window over the
/// same heights that was fetched later. The newest blocks whose hashes have
/// changed are replaced by the fresh ones, and their number is returned. The
/// scan runs from the newest block back and stops at the first hash that has
/// not changed. The queue keeps its length and every height; windows that
/// agree in every height and hash need no repair at all. Where the windows
/// cannot be reconciled, `queue` is left as it was.
pub fn check_and_update_queue(queue: &mut VecDeque<Block>, new_queue: &VecDeque<Block>) -> (outcome:
    Result<usize, WindowError>)
    ensures
        final(queue)@.len() == old(queue)@.len(),
        forall|i: int|
            0 <= i < old(queue)@.len() ==> (#[trigger] final(queue)@[i]).number
                == old(queue)@[i].number,
        identical(block_views(old(queue)@), block_views(new_queue@)) ==> outcome == Ok::<
            usize,
            WindowError,
        >(0) && final(queue)@ == old(queue)@,
        match outcome {
            Ok(depth) => {
                &&& reconcile_error(block_views(old(queue)@), block_views(new_queue@)) is None
                &&& depth == reorg_depth(block_views(old(queue)@), block_views(new_queue@))
                &&& depth < old(queue)@.len()
                &&& block_views(final(queue)@) == repaired(
                    block_views(old(queue)@),
                    block_views(new_queue@),
                )
                &&& forall|i: int|
                    0 <= i < old(queue)@.len() - depth ==> final(queue)@[i] == old(queue)@[i]
            },
            Err(error) => {
                &&& reconcile_error(block_views(old(queue)@), block_views(new_queue@)) == Some(
                    error,
                )
                &&& final(queue)@ == old(queue)@
            },
        },
{
    proof {
        if identical(block_views(queue@), block_views(new_queue@)) {
            lemma_identical_windows_need_no_repair(block_views(queue@), block_views(new_queue@));
        }
    }
    let len: usize = queue.len();
    if len != new_queue.len() {
        return Err(WindowError::LengthMismatch);
    }
    assert(block_views(new_queue@).take(len as int) =~= block_views(new_queue@));
    match scan(queue, new_queue) {
        Ok(kept) => {
            replace_from(queue, new_queue, kept);
            proof {
                let retained = block_views(old(queue)@);
                let fresh = block_views(new_queue@);
                assert(block_views(queue@).take(kept as int) =~= retained.take(kept as int));
                assert(block_views(queue@) =~= block_views(queue@).take(kept as int)
                    + block_views(queue@).skip(kept as int));
                assert(fresh.subrange(kept as int, len as int) =~= fresh.skip(kept as int));
                lemma_repair_keeps_heights(retained, fresh);
                assert forall|i: int| 0 <= i < len implies (#[trigger] queue@[i]).number
                    == old(queue)@[i].number by {
                    assert(block_views(queue@)[i].number == retained[i].number);
                }
            }
            Ok(len - kept)
        },
        Err(error) => Err(error),
    }
}

/// The depth is the length of a run of differing hashes that ends the window
/// and that an equal hash, or the window's start, precedes.
pub proof fn lemma_depth_of_run(retained: Seq<BlockView>, fresh: Seq<BlockView>, kept: int)
    requires
        retained.len() == fresh.len(),
        0 <= kept <= retained.len(),
        forall|j: int| kept <= j < retained.len() ==> retained[j].hash != fresh[j].hash,
        kept > 0 ==> retained[kept - 1].hash == fresh[kept - 1].hash,
    ensures
        reorg_depth(retained, fresh) == retained.len() - kept,
    decreases retained.len() - kept,
{
    if kept < retained.len() {
        lemma_depth_of_run(retained.drop_last(), fresh.drop_last(), kept);
    }
}

/// A run of differing hashes that ends the window is no longer than the depth.
pub proof fn lemma_depth_of_run_at_least(
    retained: Seq<BlockView>,
    fresh: Seq<BlockView>,
    kept: int,
)
    requires
        retained.len() == fresh.len(),
        0 <= kept <= retained.len(),
        forall|j: int| kept <= j < retained.len() ==> retained[j].hash != fresh[j].hash,
    ensures
        reorg_depth(retained, fresh) >= retained.len() - kept,
    decreases retained.len() - kept,
{
    if kept < retained.len() {
        lemma_depth_of_run_at_least(retained.drop_last(), fresh.drop_last(), kept);
    }
}

/// Every one of the newest `reorg_depth` hashes has changed, and the hash
/// before them, if there is one, has not.
pub proof fn lemma_run_of_depth(retained: Seq<BlockView>, fresh: Seq<BlockView>)
    requires
        retained.len() == fresh.len(),
    ensures
        reorg_depth(retained, fresh) <= retained.len(),
        forall|j: int|
            retained.len() - reorg_depth(retained, fresh) <= j < retained.len()
                ==> retained[j].hash != fresh[j].hash,
        reorg_depth(retained, fresh) < retained.len() ==> retained[retained.len() - reorg_depth(
            retained,
            fresh,
        ) - 1].hash == fresh[retained.len() - reorg_depth(retained, fresh) - 1].hash,
    decreases retained.len(),
{
    if retained.len() > 0 && retained.last().hash != fresh.last().hash {
        let older = retained.drop_last();
        let older_fresh = fresh.drop_last();
        lemma_run_of_depth(older, older_fresh);
        assert forall|j: int|
            retained.len() - reorg_depth(retained, fresh) <= j < retained.len()
                implies retained[j].hash != fresh[j].hash by {
            if j < older.len() {
                assert(older[j].hash != older_fresh[j].hash);
            }
        }
    }
}

/// No more blocks are replaced than the window holds, and fewer where the
/// oldest hash has not changed.
pub proof fn lemma_depth_bound(retained: Seq<BlockView>, fresh: Seq<BlockView>)
    requires
        retained.len() == fresh.len(),
    ensures
        reorg_depth(retained, fresh) <= retained.len(),
        retained.len() > 0 && retained[0].hash == fresh[0].hash ==> reorg_depth(retained, fresh)
            < retained.len(),
    decreases retained.len(),
{
    if retained.len() > 0 && retained.last().hash != fresh.last().hash {
        lemma_depth_bound(retained.drop_last(), fresh.drop_last());
    }
}

/// A repair leaves the window's length, its oldest block and every height as
/// they were.
pub proof fn lemma_repair_keeps_heights(retained: Seq<BlockView>, fresh: Seq<BlockView>)
    requires
        reconcile_error(retained, fresh) is None,
    ensures
        repaired(retained, fresh).len() == retained.len(),
        repaired(retained, fresh)[0] == retained[0],
        forall|i: int|
            0 <= i < retained.len() ==> (#[trigger] repaired(retained, fresh)[i]).number
                == retained[i].number,
{
    lemma_depth_bound(retained, fresh);
    let kept = retained.len() - reorg_depth(retained, fresh);
    assert forall|i: int| 0 <= i < retained.len() implies (#[trigger] repaired(
        retained,
        fresh,
    )[i]).number == retained[i].number by {
        if i >= kept {
            assert(retained[i].number == fresh[i].number);
        }
    }
}

/// Windows that agree in every height and every hash are reconciled without a
/// repair: no block is counted as replaced, and the retained window stays as
/// it was, whatever other contents the fresh blocks hold.
pub proof fn lemma_identical_windows_need_no_repair(
    retained: Seq<BlockView>,
    fresh: Seq<BlockView>,
)
    requires
        identical(retained, fresh),
    ensures
        reconcile_error(retained, fresh) is None,
        reorg_depth(retained, fresh) == 0,
        repaired(retained, fresh) == retained,
{
    assert(retained.last().hash == fresh.last().hash);
    assert(retained[0].hash == fresh[0].hash);
    assert(repaired(retained, fresh) =~= retained);
}

/// Where only the `depth` newest hashes have changed, and the heights agree,
/// the windows can be reconciled: exactly those `depth` blocks are replaced by
/// the fresh ones, and the older blocks stay as they were.
pub proof fn lemma_partial_reorg(retained: Seq<BlockView>, fresh: Seq<BlockView>, depth: nat)
    requires
        retained.len() == fresh.len(),
        depth < retained.len(),
        forall|i: int| 0 <= i < retained.len() ==> retained[i].number == fresh[i].number,
        forall|i: int| 0 <= i < retained.len() - depth ==> retained[i].hash == fresh[i].hash,
        forall|i: int|
            retained.len() - depth <= i < retained.len() ==> retained[i].hash != fresh[i].hash,
    ensures
        reconcile_error(retained, fresh) is None,
        reorg_depth(retained, fresh) == depth,
        repaired(retained, fresh).len() == retained.len(),
        forall|i: int|
            0 <= i < retained.len() - depth ==> repaired(retained, fresh)[i] == retained[i],
        forall|i: int|
            retained.len() - depth <= i < retained.len() ==> repaired(retained, fresh)[i]
                == fresh[i],
{
    lemma_depth_of_run(retained, fresh, retained.len() - depth);
}

/// A changed hash of the oldest block is never reconciled: whatever else the
/// windows hold, no depth is returned.
pub proof fn lemma_full_depth_reorg_is_fatal(retained: Seq<BlockView>, fresh: Seq<BlockView>)
    requires
        retained.len() > 0,
        fresh.len() > 0,
        retained[0].hash != fresh[0].hash,
    ensures
        reconcile_error(retained, fresh) is Some,
        retained.len() == fresh.len() && retained[0].number == fresh[0].number
            ==> reconcile_error(retained, fresh) == Some(
            WindowError::FullDepthReorg { depth: retained.len() as usize },
        ),
{
}

/// Windows of one length whose oldest heights differ are refused for that,
/// whatever their hashes.
pub proof fn lemma_front_height_comes_first(retained: Seq<BlockView>, fresh: Seq<BlockView>)
    requires
        retained.len() == fresh.len(),
        retained.len() > 0,
        retained[0].number != fresh[0].number,
    ensures
        reconcile_error(retained, fresh) == Some(WindowError::FrontHeightMismatch),
{
}

/// After a repair the window agrees with the fresh one in every hash from the
/// first replaced block on, so that a second repair replaces nothing.
pub proof fn lemma_repair_is_idempotent(retained: Seq<BlockView>, fresh: Seq<BlockView>)
    requires
        reconcile_error(retained, fresh) is None,
    ensures
        reconcile_error(repaired(retained, fresh), fresh) is None,
        reorg_depth(repaired(retained, fresh), fresh) == 0,
        repaired(repaired(retained, fresh), fresh) == repaired(retained, fresh),
{
    lemma_depth_bound(retained, fresh);
    lemma_repair_keeps_heights(retained, fresh);
    let once = repaired(retained, fresh);
    let kept = retained.len() - reorg_depth(retained, fresh);
    if kept < retained.len() {
        assert(once.last() == fresh.last());
    } else {
        assert(once =~= retained);
    }
    assert(reorg_depth(once, fresh) == 0);
    assert(!scan_misaligned(once, fresh)) by {
        assert forall|i: int| 0 <= i < once.len() && once.len() - 1 <= i implies once[i].number
            == fresh[i].number by {
            assert(retained[i].number == fresh[i].number);
        }
    }
    assert(repaired(once, fresh) =~= once);
}

} // verus!
