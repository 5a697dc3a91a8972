use rep_cxl::config::RepCXLConfig;
use rep_cxl::shmem::starting_block::StartingBlock;
use rep_cxl::RepCXL;

#[test]
fn fresh_block_has_nobody_ready() {
    let block = StartingBlock::new();
    assert_eq!(block.get_start_time(), None);
    assert!(!block.start_is_scheduled(0));
    assert!(!block.is_ready(0));
    assert!(block.all_ready(&vec![]));
    assert!(!block.all_ready(&vec![0]));
}

#[test]
fn all_ready_needs_every_process() {
    let mut block = StartingBlock::new();
    block.mark_ready(0);
    block.mark_ready(5);
    assert!(block.is_ready(5));
    assert!(block.all_ready(&vec![0, 5]));
    assert!(block.all_ready(&vec![5, 0, 5]));
    assert!(!block.all_ready(&vec![0, 5, 127]));
    block.mark_ready(127);
    assert!(block.all_ready(&vec![0, 5, 127]));
}

#[test]
fn start_is_scheduled_while_it_lies_ahead() {
    let mut block = StartingBlock::new();
    block.start_at(1000);
    assert_eq!(block.get_start_time(), Some(1000));
    assert!(block.start_is_scheduled(999));
    assert!(!block.start_is_scheduled(1000));
    assert!(!block.start_is_scheduled(1001));
}

#[test]
fn start_is_set_once() {
    let mut block = StartingBlock::new();
    block.start_at(1000);
    block.start_at(2000);
    assert_eq!(block.get_start_time(), Some(1000));
}

fn process(id: i32, others: Vec<u32>, startup_delay: u64) -> RepCXL<u64> {
    let config = RepCXLConfig {
        id,
        processes: others,
        startup_delay,
        ..Default::default()
    };
    RepCXL::<u64>::new(&config)
}

#[test]
fn coordinator_schedules_the_start_once_all_are_ready() {
    let coordinator = process(0, vec![0, 1], 500);
    let replica = process(1, vec![0, 1], 500);
    let mut block = StartingBlock::new();

    // the coordinator is ready, the replica is not
    assert_eq!(coordinator.sync_start(&mut block, 100), None);
    assert!(block.is_ready(0));
    assert_eq!(block.get_start_time(), None);

    // the replica is ready, but no start is scheduled yet
    assert_eq!(replica.sync_start(&mut block, 110), None);
    assert!(block.is_ready(1));

    // now the coordinator schedules the start
    assert_eq!(coordinator.sync_start(&mut block, 120), Some(620));
    assert_eq!(block.get_start_time(), Some(620));

    // and keeps to it
    assert_eq!(coordinator.sync_start(&mut block, 300), Some(620));
    assert_eq!(block.get_start_time(), Some(620));

    // the replica sees it while it lies ahead
    assert_eq!(replica.sync_start(&mut block, 619), Some(620));
    assert_eq!(replica.sync_start(&mut block, 620), None);
}

#[test]
fn single_process_starts_at_once() {
    let only = process(3, vec![3], 1_000_000_000);
    let mut block = StartingBlock::new();
    assert_eq!(only.sync_start(&mut block, 42), Some(1_000_000_042));
    assert!(block.is_ready(3));
}
