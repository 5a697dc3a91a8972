use rep_cxl::algorithms::monster::classify_read;
use rep_cxl::algorithms::monster::has_below;
use rep_cxl::algorithms::monster::monster_read;
use rep_cxl::algorithms::monster::monster_write;
use rep_cxl::algorithms::monster::MonsterState;
use rep_cxl::algorithms::monster::MonsterStats;
use rep_cxl::algorithms::monster::MonsterWriter;
use rep_cxl::algorithms::monster::QueuePoll;
use rep_cxl::algorithms::monster::RoundInput;
use rep_cxl::algorithms::monster::RoundOutcome;
use rep_cxl::algorithms::monster::RoundWork;
use rep_cxl::algorithms::monster::StopReason;
use rep_cxl::safe_memio::MemoryError;
use rep_cxl::shmem::allocator::ObjectInfo;
use rep_cxl::shmem::wcc::ObjectWCC;
use rep_cxl::shmem::wcc::ObjectWCCEntry;
use rep_cxl::shmem::MemoryNode;
use rep_cxl::wid::ObjectMemoryEntry;
use rep_cxl::wid::Wid;
use rep_cxl::ReadRequest;
use rep_cxl::ReadReturn;
use rep_cxl::WriteRequest;

const ROUND_TIME: u64 = 1000;

fn request(value: u64) -> WriteRequest<u64> {
    WriteRequest { obj_info: ObjectInfo::new(7, 128, 64), data: value }
}

fn entry(round: u64, pid: usize, value: u64) -> ObjectMemoryEntry<u64> {
    ObjectMemoryEntry::new(Wid::new(round, pid), value)
}

/// A writer of process 3 that has announced `request(42)` in round 1.
fn announced() -> (MonsterWriter<u64>, ObjectWCC) {
    let mut writer = MonsterWriter::new(3);
    let mut owcc = ObjectWCC::new();
    let outcome = monster_write(&mut writer, &mut owcc, 1, ROUND_TIME, RoundInput::Polled(QueuePoll::Request(request(42))));
    assert_eq!(outcome, RoundOutcome::Continue);
    (writer, owcc)
}

/// A writer of process 3 that lost the check of round 2 and waited in
/// round 3.
fn waited() -> (MonsterWriter<u64>, ObjectWCC) {
    let (mut writer, mut owcc) = announced();
    owcc.write(7, 1, 0);
    monster_write(&mut writer, &mut owcc, 2, ROUND_TIME, RoundInput::Elapsed(0));
    assert_eq!(writer.state, MonsterState::Wait);
    monster_write(&mut writer, &mut owcc, 3, ROUND_TIME, RoundInput::Nothing);
    assert_eq!(writer.state, MonsterState::PostConflictCheck);
    (writer, owcc)
}

#[test]
fn state_names() {
    assert_eq!(MonsterState::Try.to_string(), "Try");
    assert_eq!(MonsterState::Retry.to_string(), "Retry");
    assert_eq!(MonsterState::Check.to_string(), "Check");
    assert_eq!(MonsterState::Replicate.to_string(), "Replicate");
    assert_eq!(MonsterState::Wait.to_string(), "Wait");
    assert_eq!(MonsterState::PostConflictCheck.to_string(), "PostConflictCheck");
    assert_eq!(MonsterState::Wait.name(), "Wait");
}

#[test]
fn stats_count_skipped_rounds() {
    let mut stats = MonsterStats::new();
    assert_eq!(stats.prev_round, 1);
    stats.check_sync_failure(1);
    stats.check_sync_failure(2);
    assert_eq!(stats.sync_failures, 0);
    stats.check_sync_failure(4);
    assert_eq!(stats.sync_failures, 1);
    stats.check_sync_failure(5);
    stats.check_sync_failure(9);
    assert_eq!(stats.sync_failures, 2);
    assert_eq!(stats.prev_round, 9);
    assert_eq!(stats.conflicts, 0);
    assert_eq!(stats.empty_requests, 0);
}

#[test]
fn fresh_writer_is_idle() {
    let writer = MonsterWriter::<u64>::new(3);
    assert_eq!(writer.self_id, 3);
    assert_eq!(writer.state, MonsterState::Try);
    assert_eq!(writer.round_num, 0);
    assert!(writer.pending_req.is_none());
    assert!(matches!(writer.work(), RoundWork::Poll));
}

#[test]
fn try_with_a_request_announces_it() {
    let (writer, owcc) = announced();
    assert_eq!(writer.state, MonsterState::Check);
    assert_eq!(writer.wid, Wid::new(1, 3));
    assert_eq!(writer.oid, 7);
    assert_eq!(writer.round_num, 1);
    assert_eq!(writer.pending_req.map(|r| r.data), Some(42));
    assert_eq!(owcc.slot(3), ObjectWCCEntry::new(7, 1));
    assert_eq!(owcc.slot(2), ObjectWCCEntry::new(0, 0));
    assert!(matches!(writer.work(), RoundWork::Clock));
}

#[test]
fn try_with_an_empty_queue_stays() {
    let mut writer = MonsterWriter::<u64>::new(3);
    let mut owcc = ObjectWCC::new();
    let outcome = monster_write(&mut writer, &mut owcc, 1, ROUND_TIME, RoundInput::Polled(QueuePoll::Empty));
    assert_eq!(outcome, RoundOutcome::Continue);
    assert_eq!(writer.state, MonsterState::Try);
    assert_eq!(writer.stats.empty_requests, 1);
    assert_eq!(owcc.slot(3), ObjectWCCEntry::new(0, 0));
}

#[test]
fn try_with_a_closed_queue_ends() {
    let mut writer = MonsterWriter::<u64>::new(3);
    let mut owcc = ObjectWCC::new();
    let outcome = monster_write(&mut writer, &mut owcc, 1, ROUND_TIME, RoundInput::Polled(QueuePoll::Disconnected));
    assert_eq!(outcome, RoundOutcome::Stop(StopReason::QueueDisconnected));
    assert_eq!(writer.state, MonsterState::Try);
}

#[test]
fn check_on_time_goes_to_replicate() {
    let (mut writer, mut owcc) = announced();
    let outcome = monster_write(&mut writer, &mut owcc, 2, ROUND_TIME, RoundInput::Elapsed(ROUND_TIME - 1));
    assert_eq!(outcome, RoundOutcome::Continue);
    assert_eq!(writer.state, MonsterState::Replicate);
    match writer.work() {
        RoundWork::WriteAll { offset, entry } => {
            assert_eq!(offset, 128);
            assert_eq!(entry.wid, Wid::new(1, 3));
            assert_eq!(entry.value, 42);
        },
        other => panic!("{:?}", other),
    }
}

#[test]
fn check_overtime_stays_in_check() {
    let (mut writer, mut owcc) = announced();
    let outcome = monster_write(&mut writer, &mut owcc, 2, ROUND_TIME, RoundInput::Elapsed(ROUND_TIME));
    assert_eq!(outcome, RoundOutcome::Continue);
    assert_eq!(writer.state, MonsterState::Check);
    assert!(writer.pending_req.is_some());
    // the next round is in time
    monster_write(&mut writer, &mut owcc, 3, ROUND_TIME, RoundInput::Elapsed(5));
    assert_eq!(writer.state, MonsterState::Replicate);
    assert_eq!(writer.wid, Wid::new(1, 3));
}

#[test]
fn check_behind_another_writer_waits() {
    let (mut writer, mut owcc) = announced();
    owcc.write(7, 1, 0);
    let outcome = monster_write(&mut writer, &mut owcc, 2, ROUND_TIME, RoundInput::Elapsed(0));
    assert_eq!(outcome, RoundOutcome::Continue);
    assert_eq!(writer.state, MonsterState::Wait);
    assert!(matches!(writer.work(), RoundWork::Nothing));
    let outcome = monster_write(&mut writer, &mut owcc, 3, ROUND_TIME, RoundInput::Nothing);
    assert_eq!(outcome, RoundOutcome::Continue);
    assert_eq!(writer.state, MonsterState::PostConflictCheck);
    assert_eq!(writer.stats.conflicts, 1);
    assert!(matches!(writer.work(), RoundWork::ReadAll { offset: 128 }));
}

#[test]
fn replicate_acks_and_returns_to_try() {
    let (mut writer, mut owcc) = announced();
    monster_write(&mut writer, &mut owcc, 2, ROUND_TIME, RoundInput::Elapsed(0));
    let outcome = monster_write(&mut writer, &mut owcc, 3, ROUND_TIME, RoundInput::Written(Ok(())));
    assert_eq!(outcome, RoundOutcome::Ack(true));
    assert_eq!(writer.state, MonsterState::Try);
    assert!(writer.pending_req.is_none());
}

#[test]
fn replicate_on_a_failed_node_ends() {
    let (mut writer, mut owcc) = announced();
    monster_write(&mut writer, &mut owcc, 2, ROUND_TIME, RoundInput::Elapsed(0));
    let outcome = monster_write(&mut writer, &mut owcc, 3, ROUND_TIME, RoundInput::Written(Err(MemoryError(9))));
    assert_eq!(outcome, RoundOutcome::Stop(StopReason::MemoryFailure(9)));
    assert_eq!(writer.state, MonsterState::Replicate);
    assert!(writer.pending_req.is_some());
}

#[test]
fn post_conflict_check_retries_if_a_node_is_behind() {
    let (mut writer, mut owcc) = waited();
    let entries = vec![entry(1, 0, 88), entry(0, 0, 0)];
    let outcome = monster_write(&mut writer, &mut owcc, 4, ROUND_TIME, RoundInput::ReadBack(Ok(entries)));
    assert_eq!(outcome, RoundOutcome::Continue);
    assert_eq!(writer.state, MonsterState::Retry);
    assert!(matches!(writer.work(), RoundWork::Nothing));
    // the retry announces the same request under a new Wid
    let outcome = monster_write(&mut writer, &mut owcc, 5, ROUND_TIME, RoundInput::Nothing);
    assert_eq!(outcome, RoundOutcome::Continue);
    assert_eq!(writer.state, MonsterState::Check);
    assert_eq!(writer.wid, Wid::new(5, 3));
    assert_eq!(writer.pending_req.map(|r| r.data), Some(42));
    assert_eq!(owcc.slot(3), ObjectWCCEntry::new(7, 5));
}

#[test]
fn post_conflict_check_yields_if_every_node_is_ahead() {
    let (mut writer, mut owcc) = waited();
    let entries = vec![entry(1, 0, 88), entry(1, 0, 88)];
    let outcome = monster_write(&mut writer, &mut owcc, 4, ROUND_TIME, RoundInput::ReadBack(Ok(entries)));
    assert_eq!(outcome, RoundOutcome::Ack(true));
    assert_eq!(writer.state, MonsterState::Try);
    assert!(writer.pending_req.is_none());
}

#[test]
fn post_conflict_check_on_a_failed_node_ends() {
    let (mut writer, mut owcc) = waited();
    let outcome = monster_write(&mut writer, &mut owcc, 4, ROUND_TIME, RoundInput::ReadBack(Err(MemoryError(1))));
    assert_eq!(outcome, RoundOutcome::Stop(StopReason::MemoryFailure(1)));
}

#[test]
fn states_that_need_a_request_end_without_one() {
    for state in [MonsterState::Retry, MonsterState::Replicate, MonsterState::PostConflictCheck] {
        let mut writer = MonsterWriter::<u64>::new(3);
        writer.state = state;
        let mut owcc = ObjectWCC::new();
        assert!(matches!(writer.work(), RoundWork::Nothing));
        let outcome = monster_write(&mut writer, &mut owcc, 1, ROUND_TIME, RoundInput::Nothing);
        assert_eq!(outcome, RoundOutcome::Stop(StopReason::NoPendingRequest));
    }
}

#[test]
fn input_that_does_not_fit_the_state_changes_nothing() {
    let (mut writer, mut owcc) = announced();
    let outcome = monster_write(&mut writer, &mut owcc, 2, ROUND_TIME, RoundInput::Nothing);
    assert_eq!(outcome, RoundOutcome::Stop(StopReason::UnexpectedInput));
    assert_eq!(writer.state, MonsterState::Check);
    assert_eq!(writer.round_num, 1);
    let mut idle = MonsterWriter::<u64>::new(3);
    let outcome = monster_write(&mut idle, &mut owcc, 1, ROUND_TIME, RoundInput::Elapsed(0));
    assert_eq!(outcome, RoundOutcome::Stop(StopReason::UnexpectedInput));
    assert_eq!(idle.round_num, 0);
}

#[test]
fn skipped_rounds_are_counted() {
    let mut writer = MonsterWriter::<u64>::new(3);
    let mut owcc = ObjectWCC::new();
    for round in [1u64, 2, 5, 6, 10] {
        monster_write(&mut writer, &mut owcc, round, ROUND_TIME, RoundInput::Polled(QueuePoll::Empty));
    }
    assert_eq!(writer.stats.sync_failures, 2);
    assert_eq!(writer.stats.empty_requests, 5);
    assert_eq!(writer.stats.prev_round, 10);
}

#[test]
fn at_most_one_of_two_writers_replicates() {
    for (first_round, second_round) in [(1u64, 1u64), (1, 2), (2, 1)] {
        let mut owcc = ObjectWCC::new();
        let mut first = MonsterWriter::<u64>::new(2);
        let mut second = MonsterWriter::<u64>::new(5);
        for round in 1..=2 {
            if round == first_round {
                monster_write(&mut first, &mut owcc, round, ROUND_TIME, RoundInput::Polled(QueuePoll::Request(request(1))));
            }
            if round == second_round {
                monster_write(&mut second, &mut owcc, round, ROUND_TIME, RoundInput::Polled(QueuePoll::Request(request(2))));
            }
        }
        monster_write(&mut first, &mut owcc, 3, ROUND_TIME, RoundInput::Elapsed(0));
        monster_write(&mut second, &mut owcc, 3, ROUND_TIME, RoundInput::Elapsed(0));
        let replicating = [first.state, second.state].iter().filter(|s| **s == MonsterState::Replicate).count();
        assert_eq!(replicating, 1);
        // the later round wins; in the same round the smaller process does
        let winner = if second_round > first_round { second.state } else { first.state };
        assert_eq!(winner, MonsterState::Replicate);
    }
}

#[test]
fn has_below_looks_at_every_entry() {
    let wid = Wid::new(3, 2);
    assert!(!has_below(&Vec::<ObjectMemoryEntry<u64>>::new(), &wid));
    assert!(!has_below(&vec![entry(3, 2, 0), entry(3, 1, 0), entry(4, 9, 0)], &wid));
    assert!(has_below(&vec![entry(3, 2, 0), entry(3, 3, 0)], &wid));
    assert!(has_below(&vec![entry(4, 0, 0), entry(2, 0, 0)], &wid));
}

#[test]
fn reads_are_safe_only_if_all_wids_agree() {
    assert_eq!(classify_read(&vec![entry(3, 1, 10)]), ReadReturn::ReadSafe(10));
    assert_eq!(classify_read(&vec![entry(3, 1, 10), entry(3, 1, 10), entry(3, 1, 10)]), ReadReturn::ReadSafe(10));
    assert_eq!(classify_read(&vec![entry(0, 0, 0), entry(0, 0, 0)]), ReadReturn::ReadSafe(0));
    assert_eq!(classify_read(&vec![entry(3, 1, 10), entry(0, 0, 0)]), ReadReturn::ReadDirty(10));
    assert_eq!(classify_read(&vec![entry(0, 0, 0), entry(3, 1, 10)]), ReadReturn::ReadDirty(10));
    // the smaller process holds the greater Wid
    assert_eq!(classify_read(&vec![entry(3, 1, 10), entry(3, 0, 20)]), ReadReturn::ReadDirty(20));
    assert_eq!(classify_read(&vec![entry(3, 0, 20), entry(4, 5, 30), entry(3, 1, 10)]), ReadReturn::ReadDirty(30));
    // equal Wids with different values: the first of the latest counts
    assert_eq!(classify_read(&vec![entry(3, 1, 10), entry(3, 1, 11)]), ReadReturn::ReadSafe(10));
}

#[test]
fn read_request_is_served_from_all_nodes() {
    let nodes = vec![
        MemoryNode::from_file(0, "/dev/shm/a", 1024 * 1024),
        MemoryNode::from_file(1, "/dev/shm/b", 1024 * 1024),
    ];
    let req = ReadRequest { obj_info: ObjectInfo::new(7, 128, 64) };
    let r = monster_read(&req, &nodes, |node: &MemoryNode, off: usize| {
        assert_eq!(off, 128);
        Ok(entry(2 + node.id as u64, 0, 50 + node.id as u64))
    });
    assert_eq!(r, Ok(ReadReturn::ReadDirty(51)));
    let r = monster_read(&req, &nodes, |_node: &MemoryNode, _off: usize| Ok(entry(2, 0, 50)));
    assert_eq!(r, Ok(ReadReturn::ReadSafe(50)));
    let r: Result<ReadReturn<u64>, MemoryError> = monster_read(&req, &nodes, |node: &MemoryNode, _off: usize| {
        if node.id == 1 {
            Err("broken")
        } else {
            Ok(entry(2, 0, 50))
        }
    });
    assert_eq!(r, Err(MemoryError(1)));
}
