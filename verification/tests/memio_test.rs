use rep_cxl::safe_memio::mem_readall;
use rep_cxl::safe_memio::mem_readat;
use rep_cxl::safe_memio::mem_readone;
use rep_cxl::safe_memio::mem_write_each;
use rep_cxl::safe_memio::mem_writeall;
use rep_cxl::safe_memio::read_with_roll;
use rep_cxl::safe_memio::safe_read;
use rep_cxl::safe_memio::safe_write;
use rep_cxl::safe_memio::write_with_roll;
use rep_cxl::safe_memio::MemoryError;
use rep_cxl::safe_memio::FAILURE_RATE;
use rep_cxl::safe_memio::FAILURE_SCALE;
use rep_cxl::shmem::MemoryNode;
use rep_cxl::wid::ObjectMemoryEntry;
use rep_cxl::wid::Wid;
use std::cell::RefCell;
use std::collections::HashMap;

const SIZE: usize = 1024 * 1024;

/// Nodes with the ids 10, 20, 30, in that order.
fn nodes() -> Vec<MemoryNode> {
    vec![
        MemoryNode::from_file(10, "/dev/shm/a", SIZE),
        MemoryNode::from_file(20, "/dev/shm/b", SIZE),
        MemoryNode::from_file(30, "/dev/shm/c", SIZE),
    ]
}

fn entry(round: u64, pid: usize, value: u64) -> ObjectMemoryEntry<u64> {
    ObjectMemoryEntry::new(Wid::new(round, pid), value)
}

#[test]
fn entries_with_and_without_wid() {
    let e = entry(3, 1, 9);
    assert_eq!(e.wid, Wid::new(3, 1));
    assert_eq!(e.value, 9);
    let plain = ObjectMemoryEntry::new_nowid(5u8);
    assert_eq!(plain.wid, Wid::new(0, 0));
    assert_eq!(plain.value, 5);
}

#[test]
fn production_rate_injects_nothing() {
    assert_eq!(FAILURE_RATE, 0);
    let mut slot = 1u64;
    for _ in 0..1000 {
        assert_eq!(safe_write(&mut slot, 7), Ok(()));
        assert_eq!(slot, 7);
        assert_eq!(safe_read(&slot), Ok(7));
        slot = 1;
    }
}

#[test]
fn injected_write_failure_leaves_the_slot() {
    let mut slot = 1u64;
    assert_eq!(write_with_roll(&mut slot, 7, 9, 10), Err("Simulated write failure"));
    assert_eq!(slot, 1);
    assert_eq!(write_with_roll(&mut slot, 7, 10, 10), Ok(()));
    assert_eq!(slot, 7);
    assert_eq!(write_with_roll(&mut slot, 8, 0, 0), Ok(()));
    assert_eq!(slot, 8);
    assert_eq!(write_with_roll(&mut slot, 9, FAILURE_SCALE - 1, FAILURE_SCALE), Err("Simulated write failure"));
    assert_eq!(slot, 8);
}

#[test]
fn injected_read_failure() {
    let slot = 5u64;
    assert_eq!(read_with_roll(&slot, 9, 10), Err("Simulated read failure"));
    assert_eq!(read_with_roll(&slot, 10, 10), Ok(5));
    assert_eq!(read_with_roll(&slot, 0, 0), Ok(5));
}

#[test]
fn write_all_reaches_every_node_in_order() {
    let written: RefCell<Vec<(usize, usize, u64)>> = RefCell::new(Vec::new());
    let r = mem_writeall(64, entry(1, 0, 42), &nodes(), |node: &MemoryNode, off: usize, e: ObjectMemoryEntry<u64>| {
        written.borrow_mut().push((node.id, off, e.value));
        Ok(())
    });
    assert_eq!(r, Ok(()));
    assert_eq!(*written.borrow(), vec![(10, 64, 42), (20, 64, 42), (30, 64, 42)]);
}

#[test]
fn write_all_stops_at_the_first_failure() {
    let written: RefCell<Vec<usize>> = RefCell::new(Vec::new());
    let r = mem_writeall(64, entry(1, 0, 42), &nodes(), |node: &MemoryNode, _off: usize, _e: ObjectMemoryEntry<u64>| {
        if node.id == 20 {
            return Err("broken");
        }
        written.borrow_mut().push(node.id);
        Ok(())
    });
    assert_eq!(r, Err(MemoryError(20)));
    assert_eq!(*written.borrow(), vec![10]);
}

#[test]
fn write_all_without_nodes_succeeds() {
    let r = mem_writeall(0, entry(1, 0, 42), &vec![], |_node: &MemoryNode, _off: usize, _e: ObjectMemoryEntry<u64>| {
        Err("never called")
    });
    assert_eq!(r, Ok(()));
}

#[test]
fn write_each_goes_on_after_a_failure() {
    let written: RefCell<Vec<usize>> = RefCell::new(Vec::new());
    let failed = mem_write_each(64, entry(1, 0, 42), &nodes(), &|node: &MemoryNode, _off: usize, _e: ObjectMemoryEntry<u64>| {
        if node.id != 20 {
            return Err("broken");
        }
        written.borrow_mut().push(node.id);
        Ok(())
    });
    assert_eq!(failed, vec![10, 30]);
    assert_eq!(*written.borrow(), vec![20]);
}

#[test]
fn read_all_returns_the_entries_in_node_order() {
    let mut memory: HashMap<usize, ObjectMemoryEntry<u64>> = HashMap::new();
    memory.insert(10, entry(1, 0, 100));
    memory.insert(20, entry(2, 0, 200));
    memory.insert(30, entry(3, 0, 300));
    let r = mem_readall(128, &nodes(), |node: &MemoryNode, off: usize| {
        assert_eq!(off, 128);
        Ok(memory[&node.id])
    });
    let entries = r.expect("every node can be read");
    assert_eq!(entries.len(), 3);
    assert_eq!(entries[0].value, 100);
    assert_eq!(entries[1].value, 200);
    assert_eq!(entries[2].value, 300);
    assert_eq!(entries[2].wid, Wid::new(3, 0));
}

#[test]
fn read_all_stops_at_the_first_failure() {
    let asked: RefCell<Vec<usize>> = RefCell::new(Vec::new());
    let r = mem_readall(128, &nodes(), |node: &MemoryNode, _off: usize| {
        asked.borrow_mut().push(node.id);
        if node.id >= 20 {
            Err("broken")
        } else {
            Ok(entry(1, 0, 1))
        }
    });
    assert_eq!(r.err(), Some(MemoryError(20)));
    assert_eq!(*asked.borrow(), vec![10, 20]);
}

#[test]
fn read_one_takes_what_some_node_holds() {
    let mut seen = [false; 3];
    for _ in 0..200 {
        let r = mem_readone(0, &nodes(), |node: &MemoryNode, _off: usize| Ok(entry(1, 0, node.id as u64)));
        let value = r.expect("every node can be read").value;
        assert!(value == 10 || value == 20 || value == 30);
        seen[(value / 10 - 1) as usize] = true;
    }
    // every node is picked now and then
    assert_eq!(seen, [true, true, true]);
}

#[test]
fn read_one_names_the_node_that_failed() {
    for _ in 0..50 {
        let r: Result<ObjectMemoryEntry<u64>, MemoryError> =
            mem_readone(0, &nodes(), |node: &MemoryNode, _off: usize| {
                if node.id == 20 {
                    Err("broken")
                } else {
                    Ok(entry(1, 0, node.id as u64))
                }
            });
        match r {
            Ok(e) => assert!(e.value == 10 || e.value == 30),
            Err(e) => assert_eq!(e, MemoryError(20)),
        }
    }
}

#[test]
fn read_at_reads_the_node_asked_for() {
    let read = |node: &MemoryNode, _off: usize| {
        if node.id == 30 {
            Err("broken")
        } else {
            Ok(entry(1, 0, node.id as u64))
        }
    };
    assert_eq!(mem_readat(0, &nodes(), 1, read).map(|e| e.value), Ok(20));
    assert_eq!(mem_readat(0, &nodes(), 2, read).map(|e| e.value), Err(MemoryError(30)));
}
