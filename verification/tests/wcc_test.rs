use rep_cxl::shmem::wcc::ObjectWCC;
use rep_cxl::shmem::wcc::ObjectWCCEntry;
use rep_cxl::shmem::wcc::WCCMultiObject;
use rep_cxl::shmem::wcc::WCC;
use rep_cxl::MAX_PROCESSES;

#[test]
fn entry_holds_object_and_round() {
    let e = ObjectWCCEntry::new(4, 9);
    assert_eq!(e.oid, 4);
    assert_eq!(e.round, 9);
}

#[test]
fn sole_writer_is_last() {
    let mut owcc = ObjectWCC::new();
    owcc.write(5, 3, 2);
    assert_eq!(owcc.slot(2), ObjectWCCEntry::new(5, 3));
    assert!(owcc.is_last(5, 4, 3, 2));
}

#[test]
fn smaller_process_wins_the_round() {
    let mut owcc = ObjectWCC::new();
    owcc.write(5, 3, 2);
    owcc.write(5, 3, 7);
    assert!(owcc.is_last(5, 4, 3, 2));
    assert!(!owcc.is_last(5, 4, 3, 7));
}

#[test]
fn later_round_before_the_current_one_wins() {
    let mut owcc = ObjectWCC::new();
    owcc.write(5, 3, 2);
    owcc.write(5, 4, 7);
    assert!(!owcc.is_last(5, 5, 3, 2));
    assert!(owcc.is_last(5, 5, 4, 7));
    // an announcement of the current round does not count yet
    assert!(owcc.is_last(5, 4, 3, 2));
}

#[test]
fn other_objects_do_not_count() {
    let mut owcc = ObjectWCC::new();
    owcc.write(5, 3, 2);
    owcc.write(6, 3, 1);
    owcc.write(6, 4, 0);
    assert!(owcc.is_last(5, 5, 3, 2));
}

#[test]
fn process_outside_the_table() {
    let mut owcc = ObjectWCC::new();
    owcc.write(5, 3, MAX_PROCESSES);
    owcc.write(5, 3, MAX_PROCESSES + 1);
    for pid in 0..MAX_PROCESSES {
        assert_eq!(owcc.slot(pid), ObjectWCCEntry::new(0, 0));
    }
    assert!(!owcc.is_last(5, 4, 3, MAX_PROCESSES + 1));
    assert!(owcc.is_last(5, 4, 3, MAX_PROCESSES));
}

#[test]
fn fresh_table_names_object_zero_in_round_zero() {
    let owcc = ObjectWCC::new();
    // every slot names object 0 and round 0, so the smallest process wins
    assert!(owcc.is_last(0, 1, 0, 0));
    assert!(!owcc.is_last(0, 1, 0, 1));
    assert!(owcc.is_last(1, 1, 0, 1));
}

#[test]
fn single_object_checker() {
    let mut wcc = WCC::new();
    wcc.write(3, 2);
    assert!(wcc.is_last(4, 3, 2));
    wcc.write(3, 1);
    assert!(!wcc.is_last(4, 3, 2));
    assert!(wcc.is_last(4, 3, 1));
    wcc.write(4, 5);
    assert!(!wcc.is_last(5, 3, 1));
    assert!(wcc.is_last(5, 4, 5));
    // the slot must hold the round that is asked for
    assert!(!wcc.is_last(9, 7, 5));
    // outside the table
    wcc.write(8, MAX_PROCESSES);
    assert!(!wcc.is_last(9, 8, MAX_PROCESSES + 1));
}

#[test]
fn checker_per_object() {
    let mut multi = WCCMultiObject::new();
    multi.add_object(11);
    multi.add_object(22);
    assert!(multi.get_object_wcc(33).is_none());
    {
        let wcc = multi.get_object_wcc(22).expect("object 22 was added");
        wcc.write(5, 3);
        assert!(wcc.is_last(6, 5, 3));
    }
    {
        let other = multi.get_object_wcc(11).expect("object 11 was added");
        assert!(!other.is_last(6, 5, 3));
    }
    assert!(multi.get_object_wcc(22).unwrap().is_last(6, 5, 3));
    multi.clear();
    assert!(!multi.get_object_wcc(22).unwrap().is_last(6, 5, 3));
    // the slots that were never given away name object 0
    assert!(multi.get_object_wcc(0).is_some());
}
