use crate::block::{block_views, Block, BlockView};
use crate::event::{
    log_views, parse_log, parsed, DecodeError, Log, ParsedLog, ParsedLogView, Token,
};
use crate::window::consecutive;
use std::collections::VecDeque;
use vstd::prelude::*;
use vstd::string::*;

verus! {

/// What a node answered when it was asked for the block at one height: the
/// block's height and hash, as far as the node gave them, and the swap logs
/// of the block, decoded.
#[derive(Debug, PartialEq, Eq)]
pub struct FetchedBlock {
    pub number: Option<u64>,
    pub hash: Option<[u8; 32]>,
    pub logs: Vec<Log>,
}

/// What an answer holds, as plain values.
pub struct FetchedView {
    pub number: Option<u64>,
    pub hash: Option<Seq<u8>>,
    pub logs: Seq<Seq<Token>>,
}

impl View for FetchedBlock {
    type V = FetchedView;

    open spec fn view(&self) -> FetchedView {
        FetchedView {
            number: self.number,
            hash: hash_view(self.hash),
            logs: log_params(self.logs@),
        }
    }
}

/// Why the answers of the node do not make the blocks of the window.
#[derive(Clone, Copy, Debug, PartialEq, Eq, Structural)]
pub enum FetchError {
    /// There are more answers, or fewer, than heights asked for.
    AnswerCount,
    /// The answer holds no hash.
    MissingHash,
    /// One of the logs is not the record of a swap.
    Decode(DecodeError),
    /// The answer holds no height.
    MissingNumber,
    /// The answer is for another height than the one asked for.
    UnexpectedNumber,
}

impl FetchError {
    /// The words in which the fault is reported.
    pub open spec fn message_text(self) -> Seq<char> {
        match self {
            FetchError::AnswerCount => "there should be one answer for each block number"@,
            FetchError::MissingHash => "could not get block hash"@,
            FetchError::Decode(_) => "a log of the block is not the record of a swap"@,
            FetchError::MissingNumber => "could not get block number"@,
            FetchError::UnexpectedNumber => {
                "block_i should equal `number` field of block fetched"@
            },
        }
    }

    /// Reports the fault in words.
    pub fn message(&self) -> (text: String)
        ensures
            text@ == self.message_text(),
    {
        match self {
            FetchError::AnswerCount => String::from_str(
                "there should be one answer for each block number",
            ),
            FetchError::MissingHash => String::from_str("could not get block hash"),
            FetchError::Decode(_) => String::from_str(
                "a log of the block is not the record of a swap",
            ),
            FetchError::MissingNumber => String::from_str("could not get block number"),
            FetchError::UnexpectedNumber => String::from_str(
                "block_i should equal `number` field of block fetched",
            ),
        }
    }
}

/// The values of each of a run of logs.
pub open spec fn log_params(logs: Seq<Log>) -> Seq<Seq<Token>> {
    logs.map_values(|log: Log| log.params@)
}

/// The records that a run of decoded logs stands for, in order, or the fault
/// of the first log that stands for none.
pub open spec fn parsed_all(logs: Seq<Seq<Token>>) -> Result<Seq<ParsedLogView>, DecodeError>
    decreases logs.len(),
{
    if logs.len() == 0 {
        Ok(Seq::empty())
    } else {
        match parsed_all(logs.drop_last()) {
            Err(error) => Err(error),
            Ok(records) => match parsed(logs.last()) {
                Err(error) => Err(error),
                Ok(record) => Ok(records.push(record)),
            },
        }
    }
}

/// The block that the node's answer for the height `wanted` makes, or the
/// reason why it makes none. Of several faults the first of this list is
/// reported: no hash, a log that is no swap, no height, another height.
pub open spec fn assembled(wanted: u64, fetched: FetchedView) -> Result<BlockView, FetchError> {
    if fetched.hash is None {
        Err(FetchError::MissingHash)
    } else if parsed_all(fetched.logs) is Err {
        Err(FetchError::Decode(parsed_all(fetched.logs)->Err_0))
    } else if fetched.number is None {
        Err(FetchError::MissingNumber)
    } else if fetched.number != Some(wanted) {
        Err(FetchError::UnexpectedNumber)
    } else {
        Ok(
            BlockView {
                number: wanted,
                hash: fetched.hash->0,
                parsed_logs: parsed_all(fetched.logs)->Ok_0,
            },
        )
    }
}

/// The views of a run of answers, in order.
pub open spec fn answer_views(answers: Seq<FetchedBlock>) -> Seq<FetchedView> {
    answers.map_values(|answer: FetchedBlock| answer@)
}

/// The blocks that the node's answers make, one for each of the heights
/// `wanted` and in their order, or the reason why they make none: the
/// numbers of heights and answers differ, or else the fault of the first
/// answer that makes no block.
pub open spec fn assembled_all(wanted: Seq<u64>, answers: Seq<FetchedView>) -> Result<
    Seq<BlockView>,
    FetchError,
>
    decreases wanted.len(),
{
    if wanted.len() != answers.len() {
        Err(FetchError::AnswerCount)
    } else if wanted.len() == 0 {
        Ok(Seq::empty())
    } else {
        match assembled_all(wanted.drop_last(), answers.drop_last()) {
            Err(error) => Err(error),
            Ok(blocks) => match assembled(wanted.last(), answers.last()) {
                Err(error) => Err(error),
                Ok(block) => Ok(blocks.push(block)),
            },
        }
    }
}

/// The hash of an answer, as plain bytes.
pub open spec fn hash_view(hash: Option<[u8; 32]>) -> Option<Seq<u8>> {
    match hash {
        Some(bytes) => Some(bytes@),
        None => None,
    }
}

/// Reads the records of swaps out of the decoded logs of one block, in order.
/// The first log that is no swap ends the reading.
pub fn parse_logs(logs: &Vec<Log>) -> (outcome: Result<Vec<ParsedLog>, DecodeError>)
    ensures
        match outcome {
            Ok(records) => parsed_all(log_params(logs@)) == Ok::<
                Seq<ParsedLogView>,
                DecodeError,
            >(log_views(records@)),
            Err(error) => parsed_all(log_params(logs@)) == Err::<Seq<ParsedLogView>, DecodeError>(
                error,
            ),
        },
{
    let mut records: Vec<ParsedLog> = Vec::new();
    let mut at: usize = 0;
    assert(log_params(logs@).take(0) =~= Seq::<Seq<Token>>::empty());
    assert(log_views(records@) =~= Seq::<ParsedLogView>::empty());
    while at < logs.len()
        invariant
            at <= logs@.len(),
            parsed_all(log_params(logs@).take(at as int)) == Ok::<Seq<ParsedLogView>, DecodeError>(
                log_views(records@),
            ),
        decreases logs@.len() - at,
    {
        let ghost before = log_params(logs@).take(at as int);
        let ghost upto = log_params(logs@).take(at as int + 1);
        assert(upto.drop_last() =~= before);
        assert(upto.last() == logs@[at as int].params@);
        match parse_log(&logs[at]) {
            Ok(record) => {
                let ghost so_far = log_views(records@);
                records.push(record);
                assert(log_views(records@) =~= so_far.push(record@));
            },
            Err(error) => {
                proof {
                    lemma_fault_stays(log_params(logs@), at as int + 1);
                }
                return Err(error);
            },
        }
        at += 1;
    }
    assert(log_params(logs@).take(at as int) =~= log_params(logs@));
    Ok(records)
}

/// A fault among the first `count` logs is the fault of the whole run.
pub proof fn lemma_fault_stays(logs: Seq<Seq<Token>>, count: int)
    requires
        0 <= count <= logs.len(),
        parsed_all(logs.take(count)) is Err,
    ensures
        parsed_all(logs) == parsed_all(logs.take(count)),
    decreases logs.len() - count,
{
    if count < logs.len() {
        assert(logs.drop_last().take(count) =~= logs.take(count));
        lemma_fault_stays(logs.drop_last(), count);
    } else {
        assert(logs.take(count) =~= logs);
    }
}

/// Makes the block of the window out of the node's answer for the height
/// `wanted`. The answer must hold a hash and the height asked for, and each
/// of its logs must be the record of a swap.
pub fn assemble_block(wanted: u64, fetched: &FetchedBlock) -> (outcome: Result<Block, FetchError>)
    ensures
        match outcome {
            Ok(block) => assembled(wanted, fetched@) == Ok::<BlockView, FetchError>(block@),
            Err(error) => assembled(wanted, fetched@) == Err::<BlockView, FetchError>(error),
        },
{
    let hash = match fetched.hash {
        Some(hash) => hash,
        None => {
            return Err(FetchError::MissingHash);
        },
    };
    let parsed_logs = match parse_logs(&fetched.logs) {
        Ok(records) => records,
        Err(error) => {
            return Err(FetchError::Decode(error));
        },
    };
    let number = match fetched.number {
        Some(number) => number,
        None => {
            return Err(FetchError::MissingNumber);
        },
    };
    if number != wanted {
        return Err(FetchError::UnexpectedNumber);
    }
    Ok(Block { number: wanted, hash, parsed_logs })
}

/// Makes the queue of blocks out of what the node answered for the heights
/// `block_numbers`: one block for each height, in the order of the heights.
/// There must be one answer for each height, and each answer must make a
/// block; the first that makes none ends the work.
pub fn fetch_block_queue(block_numbers: &Vec<u64>, answers: &Vec<FetchedBlock>) -> (outcome: Result<
    VecDeque<Block>,
    FetchError,
>)
    ensures
        match outcome {
            Ok(queue) => {
                &&& assembled_all(block_numbers@, answer_views(answers@)) == Ok::<
                    Seq<BlockView>,
                    FetchError,
                >(block_views(queue@))
                &&& queue@.len() == block_numbers@.len()
                &&& forall|i: int|
                    0 <= i < queue@.len() ==> (#[trigger] queue@[i]).number == block_numbers@[i]
            },
            Err(error) => assembled_all(block_numbers@, answer_views(answers@)) == Err::<
                Seq<BlockView>,
                FetchError,
            >(error),
        },
{
    let count: usize = block_numbers.len();
    if answers.len() != count {
        return Err(FetchError::AnswerCount);
    }
    let ghost wanted = block_numbers@;
    let ghost given = answer_views(answers@);
    let mut queue: VecDeque<Block> = VecDeque::new();
    let mut at: usize = 0;
    assert(wanted.take(0) =~= Seq::<u64>::empty());
    assert(given.take(0) =~= Seq::<FetchedView>::empty());
    assert(block_views(queue@) =~= Seq::<BlockView>::empty());
    while at < count
        invariant
            at <= count,
            count == block_numbers@.len(),
            count == answers@.len(),
            wanted == block_numbers@,
            given == answer_views(answers@),
            queue@.len() == at,
            assembled_all(wanted.take(at as int), given.take(at as int)) == Ok::<
                Seq<BlockView>,
                FetchError,
            >(block_views(queue@)),
            forall|i: int| 0 <= i < at ==> (#[trigger] queue@[i]).number == block_numbers@[i],
        decreases count - at,
    {
        let ghost upto = wanted.take(at as int + 1);
        let ghost given_upto = given.take(at as int + 1);
        assert(upto.drop_last() =~= wanted.take(at as int));
        assert(given_upto.drop_last() =~= given.take(at as int));
        assert(upto.last() == block_numbers@[at as int]);
        assert(given_upto.last() == answers@[at as int]@);
        match assemble_block(block_numbers[at], &answers[at]) {
            Ok(block) => {
                let ghost so_far = block_views(queue@);
                queue.push_back(block);
                assert(block_views(queue@) =~= so_far.push(block@));
            },
            Err(error) => {
                proof {
                    lemma_first_fault_stays(wanted, given, at as int + 1);
                }
                return Err(error);
            },
        }
        at += 1;
    }
    assert(wanted.take(at as int) =~= wanted);
    assert(given.take(at as int) =~= given);
    Ok(queue)
}

/// A fault among the answers for the first `count` heights is the fault of
/// the whole run.
pub proof fn lemma_first_fault_stays(wanted: Seq<u64>, answers: Seq<FetchedView>, count: int)
    requires
        wanted.len() == answers.len(),
        0 <= count <= wanted.len(),
        assembled_all(wanted.take(count), answers.take(count)) is Err,
    ensures
        assembled_all(wanted, answers) == assembled_all(wanted.take(count), answers.take(count)),
    decreases wanted.len() - count,
{
    if count < wanted.len() {
        assert(wanted.drop_last().take(count) =~= wanted.take(count));
        assert(answers.drop_last().take(count) =~= answers.take(count));
        lemma_first_fault_stays(wanted.drop_last(), answers.drop_last(), count);
    } else {
        assert(wanted.take(count) =~= wanted);
        assert(answers.take(count) =~= answers);
    }
}

/// The blocks that the answers make stand at the heights asked for, in the
/// order asked for: as many blocks as heights, each with its height. Heights
/// that rise by one give blocks of consecutive heights.
pub proof fn lemma_queue_follows_heights(wanted: Seq<u64>, answers: Seq<FetchedView>)
    requires
        assembled_all(wanted, answers) is Ok,
    ensures
        assembled_all(wanted, answers)->Ok_0.len() == wanted.len(),
        forall|i: int|
            0 <= i < wanted.len() ==> (#[trigger] assembled_all(wanted, answers)->Ok_0[i]).number
                == wanted[i],
        (forall|i: int| 0 <= i < wanted.len() ==> #[trigger] wanted[i] == wanted[0] + i)
            ==> consecutive(assembled_all(wanted, answers)->Ok_0),
    decreases wanted.len(),
{
    if wanted.len() > 0 {
        let older = wanted.drop_last();
        let older_answers = answers.drop_last();
        lemma_queue_follows_heights(older, older_answers);
        let blocks = assembled_all(wanted, answers)->Ok_0;
        let older_blocks = assembled_all(older, older_answers)->Ok_0;
        assert forall|i: int| 0 <= i < wanted.len() implies (#[trigger] blocks[i]).number
            == wanted[i] by {
            if i < older.len() {
                assert(blocks[i] == older_blocks[i]);
                assert(older[i] == wanted[i]);
            }
        }
        if forall|i: int| 0 <= i < wanted.len() ==> #[trigger] wanted[i] == wanted[0] + i {
            assert forall|i: int| 0 <= i < blocks.len() implies (#[trigger] blocks[i]).number
                == blocks[0].number + i by {
                assert(blocks[i].number == wanted[i]);
                assert(blocks[0].number == wanted[0]);
            }
        }
    }
}

} // verus!
