use swap_monitor::block::same_hash;
use swap_monitor::{
    assemble_block, fetch_block_queue, parse_logs, Block, DecodeError, FetchError, FetchedBlock,
    Log, ParsedLog, ReorgWindow, Token, Word256,
};
use web3::types::{H256, U256};

fn account(last: u8) -> [u8; 20] {
    let mut bytes = [0u8; 20];
    bytes[19] = last;
    bytes
}

fn minus(value: u64) -> Word256 {
    Word256 { limbs: ((U256::MAX - U256::from(value)) + U256::one()).0 }
}

fn plus(value: u64) -> Word256 {
    Word256 { limbs: U256::from(value).0 }
}

fn swap_log(dai: Word256, usdc: Word256) -> Log {
    Log {
        params: vec![
            Token::Address(account(1)),
            Token::Address(account(2)),
            Token::Int(dai),
            Token::Int(usdc),
        ],
    }
}

fn record(direction: &str, amount_usdc: &str, amount_dai: &str) -> ParsedLog {
    ParsedLog {
        sender: "0x0000000000000000000000000000000000000001".to_string(),
        receiver: "0x0000000000000000000000000000000000000002".to_string(),
        direction: direction.to_string(),
        amount_usdc: amount_usdc.to_string(),
        amount_dai: amount_dai.to_string(),
    }
}

#[test]
fn logs_are_read_in_order() {
    let logs = vec![swap_log(plus(3), minus(2)), swap_log(minus(5), plus(4))];
    assert_eq!(
        parse_logs(&logs),
        Ok(vec![
            record("USDC -> DAI", "0.000002", "0.000000000000000003"),
            record("DAI -> USDC", "0.000004", "0.000000000000000005"),
        ])
    );
    assert_eq!(parse_logs(&vec![]), Ok(vec![]));
}

#[test]
fn the_first_log_that_is_no_swap_ends_the_reading() {
    let logs = vec![
        swap_log(plus(3), minus(2)),
        swap_log(plus(3), plus(2)),
        Log { params: vec![] },
    ];
    assert_eq!(parse_logs(&logs), Err(DecodeError::SignPattern));

    let logs = vec![Log { params: vec![Token::Other] }, swap_log(plus(3), plus(2))];
    assert_eq!(parse_logs(&logs), Err(DecodeError::NotAnAddress { index: 0 }));
}

#[test]
fn an_answer_with_hash_and_height_makes_a_block() {
    let hash = H256::random().to_fixed_bytes();
    let fetched = FetchedBlock {
        number: Some(15),
        hash: Some(hash),
        logs: vec![swap_log(plus(1_000_000_000_000_000_000), minus(999_000))],
    };
    assert_eq!(
        assemble_block(15, &fetched),
        Ok(Block {
            number: 15,
            hash,
            parsed_logs: vec![record("USDC -> DAI", "0.999000", "1.000000000000000000")],
        })
    );

    let empty = FetchedBlock { number: Some(0), hash: Some(hash), logs: vec![] };
    assert_eq!(assemble_block(0, &empty), Ok(Block { number: 0, hash, parsed_logs: vec![] }));
}

#[test]
fn an_answer_without_a_hash_makes_no_block() {
    let fetched =
        FetchedBlock { number: None, hash: None, logs: vec![swap_log(plus(1), plus(1))] };
    assert_eq!(assemble_block(15, &fetched), Err(FetchError::MissingHash));
}

#[test]
fn a_log_that_is_no_swap_makes_no_block() {
    let fetched = FetchedBlock {
        number: None,
        hash: Some([7; 32]),
        logs: vec![swap_log(plus(1), minus(1)), swap_log(minus(1), minus(1))],
    };
    assert_eq!(assemble_block(15, &fetched), Err(FetchError::Decode(DecodeError::SignPattern)));
}

#[test]
fn an_answer_without_a_height_makes_no_block() {
    let fetched = FetchedBlock { number: None, hash: Some([7; 32]), logs: vec![] };
    assert_eq!(assemble_block(15, &fetched), Err(FetchError::MissingNumber));
}

#[test]
fn an_answer_for_another_height_makes_no_block() {
    let fetched = FetchedBlock { number: Some(16), hash: Some([7; 32]), logs: vec![] };
    assert_eq!(assemble_block(15, &fetched), Err(FetchError::UnexpectedNumber));
}

#[test]
fn hashes_are_compared_byte_for_byte() {
    let hash = H256::random().to_fixed_bytes();
    assert!(same_hash(&hash, &hash));
    for at in [0usize, 1, 15, 30, 31] {
        let mut other = hash;
        other[at] ^= 1;
        assert!(!same_hash(&hash, &other));
    }
}

#[test]
fn a_copy_of_a_block_equals_it() {
    let block = Block {
        number: 3,
        hash: H256::random().to_fixed_bytes(),
        parsed_logs: vec![record("DAI -> USDC", "1.0", "2.0"), record("USDC -> DAI", "3.0", "4.0")],
    };
    assert_eq!(block.clone(), block);
}

fn answer(number: u64) -> FetchedBlock {
    FetchedBlock {
        number: Some(number),
        hash: Some(H256::random().to_fixed_bytes()),
        logs: vec![swap_log(plus(number), minus(number + 1))],
    }
}

#[test]
fn the_queue_holds_one_block_for_each_height_in_order() {
    let block_numbers = vec![96u64, 97, 98, 99, 100];
    let answers: Vec<FetchedBlock> = block_numbers.iter().map(|number| answer(*number)).collect();

    let queue = fetch_block_queue(&block_numbers, &answers).unwrap();

    assert_eq!(queue.len(), 5);
    for i in 0..5 {
        assert_eq!(queue[i], assemble_block(block_numbers[i], &answers[i]).unwrap());
        assert_eq!(queue[i].number, block_numbers[i]);
        assert_eq!(Some(queue[i].hash), answers[i].hash);
        assert_eq!(queue[i].parsed_logs.len(), 1);
    }
    // Heights that rise by one make a queue that a window takes.
    assert!(ReorgWindow::initialize(5, queue).is_ok());

    assert_eq!(fetch_block_queue(&vec![], &vec![]).map(|queue| queue.len()), Ok(0));
}

#[test]
fn the_queue_keeps_the_order_of_heights_that_do_not_rise() {
    let block_numbers = vec![7u64, 3, 3, 100];
    let answers: Vec<FetchedBlock> = block_numbers.iter().map(|number| answer(*number)).collect();
    let queue = fetch_block_queue(&block_numbers, &answers).unwrap();
    assert_eq!(queue.iter().map(|block| block.number).collect::<Vec<u64>>(), block_numbers);
}

#[test]
fn the_queue_needs_one_answer_for_each_height() {
    let answers = vec![answer(1), answer(2)];
    assert_eq!(fetch_block_queue(&vec![1, 2, 3], &answers), Err(FetchError::AnswerCount));
    assert_eq!(fetch_block_queue(&vec![1], &answers), Err(FetchError::AnswerCount));
    assert_eq!(fetch_block_queue(&vec![], &answers), Err(FetchError::AnswerCount));
    // The count is looked at before any answer is.
    let bad = vec![FetchedBlock { number: None, hash: None, logs: vec![] }];
    assert_eq!(fetch_block_queue(&vec![1, 2], &bad), Err(FetchError::AnswerCount));
}

#[test]
fn the_first_answer_that_makes_no_block_ends_the_queue() {
    let block_numbers = vec![10u64, 11, 12, 13];
    let mut answers: Vec<FetchedBlock> =
        block_numbers.iter().map(|number| answer(*number)).collect();
    answers[1].number = Some(12);
    answers[2].hash = None;
    assert_eq!(fetch_block_queue(&block_numbers, &answers), Err(FetchError::UnexpectedNumber));

    answers[1].number = Some(11);
    assert_eq!(fetch_block_queue(&block_numbers, &answers), Err(FetchError::MissingHash));

    answers[2].hash = Some([1; 32]);
    answers[3].number = None;
    assert_eq!(fetch_block_queue(&block_numbers, &answers), Err(FetchError::MissingNumber));

    answers[0].logs = vec![swap_log(plus(1), plus(1))];
    assert_eq!(
        fetch_block_queue(&block_numbers, &answers),
        Err(FetchError::Decode(DecodeError::SignPattern))
    );
}

#[test]
fn fetch_faults_are_reported_in_words() {
    assert_eq!(FetchError::MissingNumber.message(), "could not get block number");
    assert_eq!(
        FetchError::UnexpectedNumber.message(),
        "block_i should equal `number` field of block fetched"
    );
    assert_eq!(FetchError::MissingHash.message(), "could not get block hash");
    assert_eq!(
        FetchError::Decode(DecodeError::SignPattern).message(),
        "a log of the block is not the record of a swap"
    );
    assert_eq!(
        FetchError::AnswerCount.message(),
        "there should be one answer for each block number"
    );
}
