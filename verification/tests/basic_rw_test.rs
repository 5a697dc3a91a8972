use rep_cxl::algorithms::best_effort::async_best_effort_read;
use rep_cxl::algorithms::best_effort::async_best_effort_write;
use rep_cxl::algorithms::monster::QueuePoll;
use rep_cxl::algorithms::monster::RoundOutcome;
use rep_cxl::algorithms::Algorithm;
use rep_cxl::config::RepCXLConfig;
use rep_cxl::safe_memio::safe_read;
use rep_cxl::safe_memio::safe_write;
use rep_cxl::shmem::MemoryNode;
use rep_cxl::shmem::SharedState;
use rep_cxl::wid::ObjectMemoryEntry;
use rep_cxl::wid::Wid;
use rep_cxl::ReadReturn;
use rep_cxl::RepCXL;
use rep_cxl::Reply;
use std::cell::RefCell;
use std::collections::HashMap;

const ALGORITHM: &str = "async_best_effort";
const TEST_MEMORY_SIZE: usize = 1024 * 1024; // 1 MiB
const TEST_CHUNK_SIZE: usize = 64;

fn single_rcxl(id: usize, node_paths: Vec<&str>) -> RepCXL<u64> {
    let config = RepCXLConfig {
        id: id as i32,
        mem_nodes: node_paths.into_iter().map(|s| s.to_string()).collect(),
        mem_size: TEST_MEMORY_SIZE,
        chunk_size: TEST_CHUNK_SIZE,
        processes: vec![id as u32],
        algorithm: ALGORITHM.to_string(),
        ..Default::default()
    };
    RepCXL::<u64>::new(&config)
}

#[test]
fn test_rw() {
    let node_path = "/dev/shm/repCXL_test_write";
    let val = 42;
    assert_eq!(Algorithm::from_name(ALGORITHM), Some(Algorithm::AsyncBestEffort));

    // the memory of the one node: its shared state and its object area
    let area: RefCell<HashMap<usize, ObjectMemoryEntry<u64>>> = RefCell::new(HashMap::new());
    let zero = ObjectMemoryEntry::new(Wid::new(0, 0), 0u64);

    let mut repcxl0 = single_rcxl(0, vec![node_path]);
    let mut repcxl1 = single_rcxl(1, vec![node_path]);
    let mut state: SharedState = repcxl0.init_state();

    // register processes
    repcxl0.register_process(1);
    repcxl1.register_process(0);

    // coordinator creates object
    assert!(repcxl0.new_object(&mut state, 5).is_some());
    // other replica gets it
    let obj5 = repcxl1.get_object(&state, 5).expect("failed to get obj with id 5");

    let nodes = repcxl1.get_view().memory_nodes.clone();
    let write_one = |_node: &MemoryNode, off: usize, e: ObjectMemoryEntry<u64>| {
        safe_write(area.borrow_mut().entry(off).or_insert(zero), e)
    };
    let read_one = |_node: &MemoryNode, off: usize| safe_read(area.borrow().get(&off).unwrap_or(&zero));

    // Perform write
    let result = obj5.write(val, |req| {
        let turn = async_best_effort_write(QueuePoll::Request(req), &nodes, write_one);
        assert!(turn.failed.is_empty());
        match turn.outcome {
            RoundOutcome::Ack(ok) => Reply::Answer(ok),
            _ => Reply::AckLost,
        }
    });
    assert!(result.is_ok(), "Write should succeed");

    // verify the value was written correctly
    let read_val = obj5
        .read(|req| match async_best_effort_read(&req, &nodes, read_one) {
            Ok(found) => Reply::Answer(found),
            Err(_) => Reply::AckLost,
        })
        .expect("Read should succeed");
    assert!(matches!(read_val, ReadReturn::ReadDirty(_)), "Read should return ReadDirty variant");
    if let ReadReturn::ReadDirty(v) = read_val {
        assert_eq!(v, val, "Read value should match written value");
        assert_ne!(v, 0, "Read value should not be default value");
    }
}
