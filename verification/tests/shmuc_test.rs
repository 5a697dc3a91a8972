use rep_cxl::algorithms::monster::QueuePoll;
use rep_cxl::algorithms::monster::RoundOutcome;
use rep_cxl::algorithms::monster::StopReason;
use rep_cxl::algorithms::shmuc::shmuc;
use rep_cxl::algorithms::shmuc::tchk_read;
use rep_cxl::algorithms::shmuc::tchk_write;
use rep_cxl::algorithms::shmuc::ShmucError;
use rep_cxl::algorithms::shmuc::ShmucRound;
use rep_cxl::algorithms::shmuc::ShmucStateMachine;
use rep_cxl::algorithms::shmuc::ShmucWorker;
use rep_cxl::shmem::allocator::ObjectInfo;
use rep_cxl::shmem::wcr::WriteConflictReferee;
use rep_cxl::shmem::MemoryNode;
use rep_cxl::wid::ObjectMemoryEntry;
use rep_cxl::WriteRequest;
use std::cell::RefCell;

const SIZE: usize = 1024 * 1024;

fn nodes() -> Vec<MemoryNode> {
    vec![MemoryNode::from_file(0, "/dev/shm/a", SIZE), MemoryNode::from_file(1, "/dev/shm/b", SIZE)]
}

fn request(offset: usize, value: u64) -> WriteRequest<u64> {
    WriteRequest { obj_info: ObjectInfo::new(5, offset, 64), data: value }
}

#[test]
fn rounds_take_turns_and_every_tenth_changes_the_view() {
    let mut machine = ShmucStateMachine::new();
    assert_eq!(machine.state, ShmucRound::Init);
    let mut seen = Vec::new();
    for round in 1..=15 {
        seen.push(machine.next(round));
    }
    let w = ShmucRound::Write;
    let r = ShmucRound::Read;
    assert_eq!(
        seen,
        vec![
            w,
            r,
            w,
            r,
            w,
            r,
            w,
            r,
            w,
            ShmucRound::ViewChange1,
            ShmucRound::ViewChange2,
            ShmucRound::ViewChange3,
            ShmucRound::ViewChange4,
            w,
            r
        ]
    );
    // round 0 is a tenth round too
    let mut machine = ShmucStateMachine::new();
    assert_eq!(machine.next(0), ShmucRound::ViewChange1);
    // a change of view cuts a running one short
    let mut machine = ShmucStateMachine { state: ShmucRound::ViewChange3 };
    assert_eq!(machine.next(20), ShmucRound::ViewChange1);
}

#[test]
fn waiting_and_quit_stay() {
    let mut machine = ShmucStateMachine { state: ShmucRound::Quit };
    assert_eq!(machine.next(10), ShmucRound::Quit);
    assert_eq!(machine.next(11), ShmucRound::Quit);
    let mut machine = ShmucStateMachine { state: ShmucRound::PendingViewChange };
    assert_eq!(machine.next(11), ShmucRound::PendingViewChange);
    assert_eq!(machine.next(20), ShmucRound::ViewChange1);
}

#[test]
fn time_checked_write() {
    let mut slot = 0u64;
    assert!(matches!(tchk_write(100, &mut slot, 7, || 100), Ok(())));
    assert_eq!(slot, 7);
    // late: the write took place all the same
    assert!(matches!(tchk_write(100, &mut slot, 8, || 101), Err(ShmucError::RoundOvertime)));
    assert_eq!(slot, 8);
}

#[test]
fn time_checked_read() {
    let slot = 5u64;
    assert!(matches!(tchk_read(100, &slot, || 99), Ok(5)));
    assert!(matches!(tchk_read(100, &slot, || 100), Ok(5)));
    assert!(matches!(tchk_read(100, &slot, || 101), Err(ShmucError::RoundOvertime)));
}

fn write_to(memory: &RefCell<Vec<(usize, usize, u64)>>) -> impl Fn(&MemoryNode, usize, ObjectMemoryEntry<u64>) -> Result<(), ShmucError> + '_ {
    move |node: &MemoryNode, off: usize, e: ObjectMemoryEntry<u64>| {
        memory.borrow_mut().push((node.id, off, e.value));
        Ok(())
    }
}

#[test]
fn write_round_then_read_round_answers_the_client() {
    let memory = RefCell::new(Vec::new());
    let mut worker = ShmucWorker::<u64>::new(3);
    let mut referee = WriteConflictReferee::new();
    // round 1 is for writing
    let outcome = shmuc(&mut worker, &mut referee, &nodes(), 1, || QueuePoll::Request(request(64, 42)), write_to(&memory));
    assert_eq!(outcome, RoundOutcome::Continue);
    assert_eq!(worker.machine.state, ShmucRound::Write);
    assert_eq!(worker.pending_write_req.map(|r| r.data), Some(42));
    assert_eq!(*memory.borrow(), vec![(0, 64, 42), (1, 64, 42)]);
    // round 2 is for reading: nobody else asked for the location
    let outcome = shmuc(&mut worker, &mut referee, &nodes(), 2, || panic!("no look at the queue"), write_to(&memory));
    assert_eq!(outcome, RoundOutcome::Ack(true));
    assert!(worker.pending_write_req.is_none());
    // round 3 finds the queue empty, round 4 has nothing to answer
    assert_eq!(shmuc(&mut worker, &mut referee, &nodes(), 3, || QueuePoll::Empty, write_to(&memory)), RoundOutcome::Continue);
    assert_eq!(shmuc(&mut worker, &mut referee, &nodes(), 4, || panic!("no look at the queue"), write_to(&memory)), RoundOutcome::Continue);
    assert_eq!(memory.borrow().len(), 2);
}

#[test]
fn failed_writes_do_not_stop_the_round() {
    let mut worker = ShmucWorker::<u64>::new(3);
    let mut referee = WriteConflictReferee::new();
    let outcome = shmuc(
        &mut worker,
        &mut referee,
        &nodes(),
        1,
        || QueuePoll::Request(request(64, 42)),
        |_node: &MemoryNode, _off: usize, _e: ObjectMemoryEntry<u64>| Err(ShmucError::RoundOvertime),
    );
    assert_eq!(outcome, RoundOutcome::Continue);
    assert!(worker.pending_write_req.is_some());
}

#[test]
fn closed_queue_stops_the_worker() {
    let memory = RefCell::new(Vec::new());
    let mut worker = ShmucWorker::<u64>::new(3);
    let mut referee = WriteConflictReferee::new();
    let outcome = shmuc(&mut worker, &mut referee, &nodes(), 1, || QueuePoll::Disconnected, write_to(&memory));
    assert_eq!(outcome, RoundOutcome::Stop(StopReason::QueueDisconnected));
}

#[test]
fn view_change_rounds_pass_idle() {
    let memory = RefCell::new(Vec::new());
    let mut worker = ShmucWorker::<u64>::new(3);
    let mut referee = WriteConflictReferee::new();
    for round in 10..14 {
        let outcome = shmuc(&mut worker, &mut referee, &nodes(), round, || panic!("no look at the queue"), write_to(&memory));
        assert_eq!(outcome, RoundOutcome::Continue);
    }
    assert_eq!(worker.machine.state, ShmucRound::ViewChange4);
    assert!(memory.borrow().is_empty());
}

/// A referee that tracks the location 64.
fn tracking_referee() -> WriteConflictReferee {
    let mut referee = WriteConflictReferee::new();
    referee.requests[0].req_id = 64;
    referee.requests_count = 1;
    referee
}

#[test]
fn smallest_process_wins_a_conflict() {
    let memory = RefCell::new(Vec::new());
    let mut referee = tracking_referee();
    let mut small = ShmucWorker::<u64>::new(1);
    let mut large = ShmucWorker::<u64>::new(4);
    shmuc(&mut large, &mut referee, &nodes(), 1, || QueuePoll::Request(request(64, 44)), write_to(&memory));
    shmuc(&mut small, &mut referee, &nodes(), 1, || QueuePoll::Request(request(64, 11)), write_to(&memory));
    assert_eq!(referee.check_conflicts(64), Some(vec![4, 1]));
    let lost = shmuc(&mut large, &mut referee, &nodes(), 2, || QueuePoll::Empty, write_to(&memory));
    let won = shmuc(&mut small, &mut referee, &nodes(), 2, || QueuePoll::Empty, write_to(&memory));
    assert_eq!(lost, RoundOutcome::Ack(false));
    assert_eq!(won, RoundOutcome::Ack(true));
}
