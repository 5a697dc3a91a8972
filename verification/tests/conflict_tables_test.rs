use rep_cxl::shmem::wcc_per_req::WriteConflictChecker;
use rep_cxl::shmem::wcr::RequestSlot;
use rep_cxl::shmem::wcr::WriteConflictReferee;
use rep_cxl::MAX_OBJECTS;
use rep_cxl::MAX_PROCESSES;

#[test]
fn slot_keeps_its_processes_in_order_and_once() {
    let mut slot = RequestSlot::empty();
    assert_eq!(slot.to_vec(), Vec::<usize>::new());
    assert!(!slot.has_member(0));
    slot.add_member(7);
    slot.add_member(3);
    slot.add_member(7);
    assert_eq!(slot.count, 2);
    assert_eq!(slot.to_vec(), vec![7, 3]);
    assert!(slot.has_member(3));
    assert!(!slot.has_member(0));
}

#[test]
fn full_slot_still_knows_its_members() {
    let mut slot = RequestSlot::empty();
    for pid in 0..MAX_PROCESSES {
        slot.add_member(pid + 1);
    }
    assert_eq!(slot.count, MAX_PROCESSES);
    slot.add_member(5);
    assert_eq!(slot.count, MAX_PROCESSES);
    assert_eq!(slot.to_vec().len(), MAX_PROCESSES);
}

#[test]
fn new_request_goes_into_the_first_column() {
    let mut checker = WriteConflictChecker::new();
    assert_eq!(checker.hash(130), 130 % MAX_OBJECTS);
    assert_eq!(checker.check_conflicts(130), None);
    checker.push_request(130, 4);
    assert_eq!(checker.requests[2][0].req_id, 130);
    assert_eq!(checker.requests[2][0].to_vec(), vec![4]);
    // one process is no conflict
    assert_eq!(checker.check_conflicts(130), None);
}

#[test]
fn second_process_makes_a_conflict() {
    let mut checker = WriteConflictChecker::new();
    checker.push_request(64, 4);
    checker.push_request(64, 1);
    checker.push_request(64, 4);
    assert_eq!(checker.check_conflicts(64), Some(vec![4, 1]));
    // another row is not touched
    assert_eq!(checker.check_conflicts(65), None);
    checker.push_request(65, 9);
    assert_eq!(checker.check_conflicts(64), Some(vec![4, 1]));
    checker.clear();
    assert_eq!(checker.check_conflicts(64), None);
    assert_eq!(checker.requests[64][0].req_id, 0);
}

#[test]
fn request_of_the_same_row_takes_the_first_column_over() {
    let mut checker = WriteConflictChecker::new();
    checker.push_request(1, 4);
    checker.push_request(1, 5);
    // 129 hashes to the row of 1 and is not found there
    checker.push_request(129, 6);
    assert_eq!(checker.requests[1][0].req_id, 129);
    assert_eq!(checker.check_conflicts(1), None);
    assert_eq!(checker.check_conflicts(129), None);
}

#[test]
fn location_zero_is_found_in_an_empty_table() {
    let mut checker = WriteConflictChecker::new();
    checker.push_request(0, 4);
    checker.push_request(0, 5);
    assert_eq!(checker.check_conflicts(0), Some(vec![4, 5]));
}

#[test]
fn referee_takes_up_no_new_request() {
    let mut referee = WriteConflictReferee::new();
    referee.push_request(64, 1);
    referee.push_request(64, 2);
    assert_eq!(referee.requests_count, 0);
    assert_eq!(referee.check_conflicts(64), None);
}

#[test]
fn referee_collects_the_processes_of_a_tracked_request() {
    let mut referee = WriteConflictReferee::new();
    referee.requests[0].req_id = 64;
    referee.requests[1].req_id = 128;
    referee.requests_count = 2;
    referee.push_request(64, 3);
    assert_eq!(referee.check_conflicts(64), None);
    referee.push_request(64, 1);
    referee.push_request(64, 3);
    referee.push_request(128, 9);
    assert_eq!(referee.check_conflicts(64), Some(vec![3, 1]));
    assert_eq!(referee.check_conflicts(128), None);
    assert_eq!(referee.check_conflicts(192), None);
    // a slot beyond those in use is not looked at
    referee.requests[2].req_id = 192;
    referee.requests[2].add_member(1);
    referee.requests[2].add_member(2);
    assert_eq!(referee.check_conflicts(192), None);
}
