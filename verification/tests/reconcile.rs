use std::collections::VecDeque;

use swap_monitor::{check_and_update_queue, Block, ParsedLog, WindowError};
use web3::types::{H256, U64};

/// Reconciles the two queues and stops the test with the fault's own words
/// where they cannot be reconciled.
fn reconcile(queue: &mut VecDeque<Block>, new_queue: &VecDeque<Block>) -> usize {
    match check_and_update_queue(queue, new_queue) {
        Ok(reorganizations) => reorganizations,
        Err(error) => panic!("{}", error.message()),
    }
}

fn block(number: u64, hash: H256) -> Block {
    Block { hash: hash.to_fixed_bytes(), number, parsed_logs: vec![] }
}

fn sample_log(amount_usdc: &str) -> ParsedLog {
    ParsedLog {
        sender: "0xuser".to_string(),
        receiver: "0xreceiver".to_string(),
        direction: "DAI -> USDC".to_string(),
        amount_usdc: amount_usdc.to_string(),
        amount_dai: "21921.20".to_string(),
    }
}

#[test]
fn test_check_and_update_queue_ok() {
    let mut queue = VecDeque::<Block>::from(vec![
        Block { hash: H256::random().to_fixed_bytes(), number: U64::from(1u32).as_u64(), parsed_logs: vec![] },
        Block { hash: H256::random().to_fixed_bytes(), number: U64::from(2u32).as_u64(), parsed_logs: vec![] },
        Block { hash: H256::random().to_fixed_bytes(), number: U64::from(3u32).as_u64(), parsed_logs: vec![] },
        Block { hash: H256::random().to_fixed_bytes(), number: U64::from(4u32).as_u64(), parsed_logs: vec![] },
        Block { hash: H256::random().to_fixed_bytes(), number: U64::from(5u32).as_u64(), parsed_logs: vec![] },
    ]);

    let new_queue = VecDeque::<Block>::from(vec![
        Block { hash: queue[0].hash, number: U64::from(1u32).as_u64(), parsed_logs: vec![] },
        Block { hash: H256::random().to_fixed_bytes(), number: U64::from(2u32).as_u64(), parsed_logs: vec![] },
        Block { hash: H256::random().to_fixed_bytes(), number: U64::from(3u32).as_u64(), parsed_logs: vec![] },
        Block { hash: H256::random().to_fixed_bytes(), number: U64::from(4u32).as_u64(), parsed_logs: vec![] },
        Block { hash: H256::random().to_fixed_bytes(), number: U64::from(5u32).as_u64(), parsed_logs: vec![] },
    ]);

    let reorganizations = reconcile(&mut queue, &new_queue);
    assert_eq!(reorganizations, 4)
}

#[test]
#[should_panic(expected = "A 5-blocks reorganization ocurred")]
fn test_check_and_update_queue_block_reorganization_5() {
    let mut queue = VecDeque::<Block>::from(vec![
        Block { hash: H256::random().to_fixed_bytes(), number: U64::from(5u32).as_u64(), parsed_logs: vec![] },
        Block { hash: H256::random().to_fixed_bytes(), number: U64::from(4u32).as_u64(), parsed_logs: vec![] },
        Block { hash: H256::random().to_fixed_bytes(), number: U64::from(3u32).as_u64(), parsed_logs: vec![] },
        Block { hash: H256::random().to_fixed_bytes(), number: U64::from(2u32).as_u64(), parsed_logs: vec![] },
        Block { hash: H256::random().to_fixed_bytes(), number: U64::from(1u32).as_u64(), parsed_logs: vec![] },
    ]);

    let new_queue = VecDeque::<Block>::from(vec![
        Block { hash: H256::random().to_fixed_bytes(), number: U64::from(5u32).as_u64(), parsed_logs: vec![] },
        Block { hash: H256::random().to_fixed_bytes(), number: U64::from(4u32).as_u64(), parsed_logs: vec![] },
        Block { hash: H256::random().to_fixed_bytes(), number: U64::from(3u32).as_u64(), parsed_logs: vec![] },
        Block { hash: H256::random().to_fixed_bytes(), number: U64::from(2u32).as_u64(), parsed_logs: vec![] },
        Block { hash: H256::random().to_fixed_bytes(), number: U64::from(1u32).as_u64(), parsed_logs: vec![] },
    ]);

    let reorganizations = reconcile(&mut queue, &new_queue);
    assert_eq!(reorganizations, 4)
}

#[test]
fn test_check_and_update_queue_block_reorganization_2_blocks() {
    let hash_1 = H256::random();

    let mut queue = VecDeque::<Block>::from(vec![
        Block { hash: hash_1.to_fixed_bytes(), number: U64::from(1u32).as_u64(), parsed_logs: vec![] },
        Block { hash: H256::random().to_fixed_bytes(), number: U64::from(2u32).as_u64(), parsed_logs: vec![] },
        Block { hash: H256::random().to_fixed_bytes(), number: U64::from(3u32).as_u64(), parsed_logs: vec![] },
    ]);

    let new_queue = VecDeque::<Block>::from(vec![
        Block { hash: hash_1.to_fixed_bytes(), number: U64::from(1u32).as_u64(), parsed_logs: vec![] },
        Block { hash: H256::random().to_fixed_bytes(), number: U64::from(2u32).as_u64(), parsed_logs: vec![] },
        Block { hash: H256::random().to_fixed_bytes(), number: U64::from(3u32).as_u64(), parsed_logs: vec![] },
    ]);

    let reorganizations = reconcile(&mut queue, &new_queue);
    assert_eq!(reorganizations, 2)
}

#[test]
#[should_panic(expected = "Block numbers on both queues doesn't coincide.")]
fn test_check_and_update_queue_wrong_numbering() {
    let hash_1 = H256::random();
    let hash_2 = H256::random();

    let mut queue = VecDeque::<Block>::from(vec![
        Block { hash: hash_1.to_fixed_bytes(), number: U64::from(1u32).as_u64(), parsed_logs: vec![] },
        Block { hash: hash_2.to_fixed_bytes(), number: U64::from(2u32).as_u64(), parsed_logs: vec![] },
    ]);

    let new_queue = VecDeque::<Block>::from(vec![
        Block { hash: hash_1.to_fixed_bytes(), number: U64::from(1u32).as_u64(), parsed_logs: vec![] },
        Block { hash: hash_2.to_fixed_bytes(), number: U64::from(3u32).as_u64(), parsed_logs: vec![] },
    ]);

    let _reorganizations = reconcile(&mut queue, &new_queue);
}

#[test]
#[should_panic(expected = "Block number of front element in both queues doesn't coincide")]
fn test_check_and_update_queue_wrong_numbering_first_element() {
    let hash_1 = H256::random();
    let hash_2 = H256::random();

    let mut queue = VecDeque::<Block>::from(vec![
        Block { hash: hash_1.to_fixed_bytes(), number: U64::from(1u32).as_u64(), parsed_logs: vec![] },
        Block { hash: hash_2.to_fixed_bytes(), number: U64::from(2u32).as_u64(), parsed_logs: vec![] },
    ]);

    let new_queue = VecDeque::<Block>::from(vec![
        Block { hash: hash_1.to_fixed_bytes(), number: U64::from(2u32).as_u64(), parsed_logs: vec![] },
        Block { hash: hash_2.to_fixed_bytes(), number: U64::from(2u32).as_u64(), parsed_logs: vec![] },
    ]);

    let _reorganizations = reconcile(&mut queue, &new_queue);
}

#[test]
fn test_check_and_update_queue_effectivelly_replaces_log() {
    let hash_1 = H256::random();

    let mut queue = VecDeque::<Block>::from(vec![
        Block { hash: hash_1.to_fixed_bytes(), number: U64::from(1u32).as_u64(), parsed_logs: vec![] },
        Block { hash: H256::random().to_fixed_bytes(), number: U64::from(2u32).as_u64(), parsed_logs: vec![] },
    ]);

    let parsed_logs = vec![ParsedLog {
        sender: "0xuser".to_string(),
        receiver: "0xreceiver".to_string(),
        direction: "DAI -> USDC".to_string(),
        amount_usdc: "1929.3939".to_string(),
        amount_dai: "21921.20".to_string(),
    }];

    let new_queue = VecDeque::<Block>::from(vec![
        Block { hash: hash_1.to_fixed_bytes(), number: U64::from(1u32).as_u64(), parsed_logs: vec![] },
        Block {
            hash: H256::random().to_fixed_bytes(),
            number: U64::from(2u32).as_u64(),
            parsed_logs: parsed_logs.clone(),
        },
    ]);

    let _reorganizations = reconcile(&mut queue, &new_queue);

    assert_eq!(&queue[1].parsed_logs[..], &parsed_logs[..]);
}

#[test]
#[should_panic(expected = "The 2 queues should have the same length to be compared.")]
fn test_check_and_update_queue_different_queue_sizes() {
    let hash_1 = H256::random();
    let hash_2 = H256::random();

    let mut queue = VecDeque::<Block>::from(vec![
        Block { hash: hash_1.to_fixed_bytes(), number: U64::from(1u32).as_u64(), parsed_logs: vec![] },
        Block { hash: hash_2.to_fixed_bytes(), number: U64::from(2u32).as_u64(), parsed_logs: vec![] },
    ]);

    let new_queue = VecDeque::<Block>::from(vec![Block {
        hash: hash_1.to_fixed_bytes(),
        number: U64::from(1u32).as_u64(),
        parsed_logs: vec![],
    }]);

    let _reorganizations = reconcile(&mut queue, &new_queue);
}

#[test]
fn identical_windows_need_no_repair() {
    let hashes: Vec<H256> = (0..5).map(|_| H256::random()).collect();
    let mut queue: VecDeque<Block> =
        hashes.iter().enumerate().map(|(i, hash)| block(10 + i as u64, *hash)).collect();
    queue[3].parsed_logs = vec![sample_log("1.000000")];
    let new_queue = queue.clone();
    let before = queue.clone();

    assert_eq!(check_and_update_queue(&mut queue, &new_queue), Ok(0));
    assert_eq!(queue, before);
}

#[test]
fn unchanged_hashes_keep_the_retained_logs() {
    // The fresh window reports other logs under the same hashes: nothing is replaced.
    let hashes: Vec<H256> = (0..3).map(|_| H256::random()).collect();
    let mut queue: VecDeque<Block> =
        hashes.iter().enumerate().map(|(i, hash)| block(i as u64, *hash)).collect();
    let mut new_queue = queue.clone();
    new_queue[1].parsed_logs = vec![sample_log("2.000000")];
    let before = queue.clone();

    assert_eq!(check_and_update_queue(&mut queue, &new_queue), Ok(0));
    assert_eq!(queue, before);
}

#[test]
fn partial_reorg_replaces_the_two_newest_of_five() {
    let hashes: Vec<H256> = (0..5).map(|_| H256::random()).collect();
    let mut queue: VecDeque<Block> =
        hashes.iter().enumerate().map(|(i, hash)| block(100 + i as u64, *hash)).collect();
    queue[1].parsed_logs = vec![sample_log("7.000000")];
    let mut new_queue = queue.clone();
    new_queue[3] = Block {
        hash: H256::random().to_fixed_bytes(),
        number: 103,
        parsed_logs: vec![sample_log("3.000000")],
    };
    new_queue[4] = Block {
        hash: H256::random().to_fixed_bytes(),
        number: 104,
        parsed_logs: vec![sample_log("4.000000"), sample_log("5.000000")],
    };
    let before = queue.clone();

    assert_eq!(check_and_update_queue(&mut queue, &new_queue), Ok(2));
    for i in 0..3 {
        assert_eq!(queue[i], before[i]);
    }
    assert_eq!(queue[3], new_queue[3]);
    assert_eq!(queue[4], new_queue[4]);
    assert_eq!(queue.len(), 5);
}

#[test]
fn the_scan_stops_at_the_first_unchanged_hash() {
    // The hash at place 1 has changed, but the newer one at place 2 has not: the scan
    // never reaches place 1.
    let hashes: Vec<H256> = (0..4).map(|_| H256::random()).collect();
    let mut queue: VecDeque<Block> =
        hashes.iter().enumerate().map(|(i, hash)| block(i as u64, *hash)).collect();
    let mut new_queue = queue.clone();
    new_queue[1].hash = H256::random().to_fixed_bytes();
    new_queue[3].hash = H256::random().to_fixed_bytes();
    let before = queue.clone();

    assert_eq!(check_and_update_queue(&mut queue, &new_queue), Ok(1));
    assert_eq!(queue[0], before[0]);
    assert_eq!(queue[1], before[1]);
    assert_eq!(queue[2], before[2]);
    assert_eq!(queue[3], new_queue[3]);
}

#[test]
fn heights_behind_the_stop_are_not_looked_at() {
    let hashes: Vec<H256> = (0..4).map(|_| H256::random()).collect();
    let mut queue: VecDeque<Block> =
        hashes.iter().enumerate().map(|(i, hash)| block(i as u64, *hash)).collect();
    let mut new_queue = queue.clone();
    new_queue[1].number = 77;
    new_queue[3].hash = H256::random().to_fixed_bytes();

    assert_eq!(check_and_update_queue(&mut queue, &new_queue), Ok(1));
}

#[test]
fn a_height_is_checked_where_the_scan_stops() {
    let hashes: Vec<H256> = (0..4).map(|_| H256::random()).collect();
    let mut queue: VecDeque<Block> =
        hashes.iter().enumerate().map(|(i, hash)| block(i as u64, *hash)).collect();
    let mut new_queue = queue.clone();
    new_queue[2].number = 77;
    new_queue[3].hash = H256::random().to_fixed_bytes();
    let before = queue.clone();

    assert_eq!(check_and_update_queue(&mut queue, &new_queue), Err(WindowError::HeightMismatch));
    assert_eq!(queue, before);
}

#[test]
fn full_depth_reorg_returns_no_depth() {
    let mut queue: VecDeque<Block> = (0..5).map(|i| block(i, H256::random())).collect();
    let mut new_queue = queue.clone();
    new_queue[0].hash = H256::random().to_fixed_bytes();
    let before = queue.clone();

    assert_eq!(
        check_and_update_queue(&mut queue, &new_queue),
        Err(WindowError::FullDepthReorg { depth: 5 })
    );
    assert_eq!(queue, before);

    // So it is when every hash has changed.
    let new_queue: VecDeque<Block> = (0..5).map(|i| block(i, H256::random())).collect();
    assert_eq!(
        check_and_update_queue(&mut queue, &new_queue),
        Err(WindowError::FullDepthReorg { depth: 5 })
    );
    assert_eq!(queue, before);
}

#[test]
fn a_window_of_one_block_is_reconciled_or_lost() {
    let hash = H256::random();
    let mut queue = VecDeque::from(vec![block(9, hash)]);
    assert_eq!(check_and_update_queue(&mut queue, &VecDeque::from(vec![block(9, hash)])), Ok(0));
    assert_eq!(
        check_and_update_queue(&mut queue, &VecDeque::from(vec![block(9, H256::random())])),
        Err(WindowError::FullDepthReorg { depth: 1 })
    );
}

#[test]
fn misaligned_front_heights_fail_before_any_hash_is_compared() {
    // The hashes differ too, at the front and everywhere else: the heights are reported.
    let mut queue: VecDeque<Block> = (1..4).map(|i| block(i, H256::random())).collect();
    let new_queue: VecDeque<Block> = (2..5).map(|i| block(i, H256::random())).collect();
    let before = queue.clone();

    assert_eq!(
        check_and_update_queue(&mut queue, &new_queue),
        Err(WindowError::FrontHeightMismatch)
    );
    assert_eq!(queue, before);
}

#[test]
fn lengths_are_checked_first() {
    let mut queue: VecDeque<Block> = (1..4).map(|i| block(i, H256::random())).collect();
    let new_queue: VecDeque<Block> = (5..7).map(|i| block(i, H256::random())).collect();
    assert_eq!(check_and_update_queue(&mut queue, &new_queue), Err(WindowError::LengthMismatch));
    let empty = VecDeque::new();
    assert_eq!(check_and_update_queue(&mut queue, &empty), Err(WindowError::LengthMismatch));
}

#[test]
fn empty_windows_cannot_be_reconciled() {
    let mut queue = VecDeque::<Block>::new();
    let new_queue = VecDeque::<Block>::new();
    assert_eq!(check_and_update_queue(&mut queue, &new_queue), Err(WindowError::EmptyWindow));
    assert!(queue.is_empty());
}

#[test]
fn a_second_repair_replaces_nothing() {
    let mut queue: VecDeque<Block> = (0..6).map(|i| block(i, H256::random())).collect();
    let mut new_queue = queue.clone();
    for i in 2..6 {
        new_queue[i].hash = H256::random().to_fixed_bytes();
    }
    assert_eq!(check_and_update_queue(&mut queue, &new_queue), Ok(4));
    let repaired = queue.clone();
    assert_eq!(check_and_update_queue(&mut queue, &new_queue), Ok(0));
    assert_eq!(queue, repaired);
    assert_eq!(queue, new_queue);
}

#[test]
fn faults_are_reported_in_words() {
    assert_eq!(
        WindowError::LengthMismatch.message(),
        "The 2 queues should have the same length to be compared."
    );
    assert_eq!(
        WindowError::FrontHeightMismatch.message(),
        "Block number of front element in both queues doesn't coincide"
    );
    assert_eq!(
        WindowError::HeightMismatch.message(),
        "Block numbers on both queues doesn't coincide."
    );
    assert_eq!(
        WindowError::FullDepthReorg { depth: 5 }.message(),
        "A 5-blocks reorganization ocurred"
    );
    assert_eq!(
        WindowError::FullDepthReorg { depth: 120 }.message(),
        "A 120-blocks reorganization ocurred"
    );
    assert_eq!(WindowError::EmptyWindow.message(), "The retained queue holds no block.");
    assert_eq!(
        WindowError::ZeroCapacity.message(),
        "The reorganization depth should be set larger than 0."
    );
    assert_eq!(
        WindowError::TooManyBlocks.message(),
        "The queue holds more blocks than the window keeps."
    );
    assert_eq!(
        WindowError::NotConsecutive.message(),
        "Block numbers should rise by one from block to block."
    );
}

#[test]
fn a_repair_keeps_the_length_and_every_height() {
    let mut queue: VecDeque<Block> = (40..47).map(|i| block(i, H256::random())).collect();
    let mut new_queue = queue.clone();
    for i in 3..7 {
        new_queue[i].hash = H256::random().to_fixed_bytes();
        new_queue[i].parsed_logs = vec![sample_log("8.000000")];
    }
    let heights: Vec<u64> = queue.iter().map(|block| block.number).collect();

    assert_eq!(check_and_update_queue(&mut queue, &new_queue), Ok(4));
    assert_eq!(queue.len(), 7);
    assert_eq!(queue.iter().map(|block| block.number).collect::<Vec<u64>>(), heights);
}
