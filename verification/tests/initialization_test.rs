use rep_cxl::config::RepCXLConfig;
use rep_cxl::shmem::SharedState;
use rep_cxl::RepCXL;
use rep_cxl::RepCXLObject;
use std::cell::RefCell;
use std::collections::HashMap;

pub const TEST_MEMORY_SIZE: usize = 1024 * 1024; // 1 MiB
pub const TEST_CHUNK_SIZE: usize = 64;

/// The shared state of every simulated memory node, by the node's path.
type States = RefCell<HashMap<String, SharedState>>;

pub fn test_config(node_paths: Vec<&str>) -> RepCXLConfig {
    RepCXLConfig {
        id: 0,
        mem_nodes: node_paths.into_iter().map(|s| s.to_string()).collect(),
        mem_size: TEST_MEMORY_SIZE,
        chunk_size: TEST_CHUNK_SIZE,
        processes: vec![],
        ..Default::default()
    }
}

fn install<T: Copy>(states: &States, rcxl: &RepCXL<T>, state: SharedState) {
    for node in &rcxl.get_view().memory_nodes {
        states.borrow_mut().insert(node.path.clone(), state);
    }
}

fn read_state_from_any<T: Copy>(states: &States, rcxl: &RepCXL<T>) -> SharedState {
    let first = &rcxl.get_view().memory_nodes[0];
    *states.borrow().get(&first.path).unwrap()
}

pub fn single_rcxl<T: Copy>(states: &States, id: usize, node_paths: Vec<&str>) -> RepCXL<T> {
    let mut config = test_config(node_paths);
    config.id = id as i32;
    config.processes = vec![id as u32];
    let rcxl = RepCXL::<T>::new(&config);
    install(states, &rcxl, rcxl.init_state());
    rcxl
}

pub fn multi_rcxl(states: &States, num: usize, node_paths: Vec<&str>) -> Vec<RepCXL<u64>> {
    let mut processes = Vec::new();
    for i in 0..num {
        let rcxl = single_rcxl(states, i, node_paths.clone());
        processes.push(rcxl);
    }
    processes
}

fn new_object<T: Copy>(states: &States, rcxl: &RepCXL<T>, id: usize) -> Option<RepCXLObject<T>> {
    let mut state = read_state_from_any(states, rcxl);
    let object = rcxl.new_object(&mut state, id);
    if object.is_some() {
        install(states, rcxl, state);
    }
    object
}

fn get_object<T: Copy>(states: &States, rcxl: &RepCXL<T>, id: usize) -> Option<RepCXLObject<T>> {
    let state = read_state_from_any(states, rcxl);
    rcxl.get_object(&state, id)
}

fn remove_object<T: Copy>(states: &States, rcxl: &RepCXL<T>, id: usize) {
    let mut state = read_state_from_any(states, rcxl);
    rcxl.remove_object(&mut state, id);
    install(states, rcxl, state);
}

#[test]
fn test_repcxl_initialization() {
    let node_path = "/dev/shm/repCXL_test_init";
    let mut config = test_config(vec![]);
    config.id = 0;

    let mut rcxl = RepCXL::<u64>::new(&config);

    rcxl.add_memory_node_from_file(node_path);
    assert!(rcxl.is_coordinator());
    assert_eq!(rcxl.id, 0);
    assert_eq!(rcxl.size, TEST_MEMORY_SIZE);
    assert_eq!(rcxl.get_view().memory_nodes.len(), 1);
    assert_eq!(rcxl.get_view().memory_nodes[0].id, 0);
    assert_eq!(rcxl.get_view().memory_nodes[0].path, node_path);
    assert_eq!(rcxl.get_view().memory_nodes[0].size, TEST_MEMORY_SIZE);
}

#[test]
fn test_object_creation_and_allocation() {
    let node_path = "/dev/shm/repCXL_test_obj_create";
    let states: States = RefCell::new(HashMap::new());
    let mut config = test_config(vec![]);
    config.id = 0;

    let mut rcxl = RepCXL::<u64>::new(&config);

    rcxl.add_memory_node_from_file(node_path);
    install(&states, &rcxl, rcxl.init_state());

    // Create multiple objects
    let obj1 = new_object(&states, &rcxl, 1).expect("Failed to create object 1");
    let obj2 = new_object(&states, &rcxl, 2).expect("Failed to create object 2");
    let obj3 = new_object(&states, &rcxl, 3).expect("Failed to create object 3");

    // Verify objects are distinct
    assert_ne!(format!("{:?}", obj1), format!("{:?}", obj2));
    assert_ne!(format!("{:?}", obj2), format!("{:?}", obj3));

    // one chunk each, one behind the other
    assert_eq!(obj1.info().offset, 0);
    assert_eq!(obj2.info().offset, 64);
    assert_eq!(obj3.info().offset, 128);
    assert_eq!(obj1.info().size, 64);
    assert_eq!(read_state_from_any(&states, &rcxl).allocator.allocated_size(), 192);
}

#[test]
fn test_multiprocess_init() {
    let node_path = "/dev/shm/repCXL_test_multiprocess";
    let states: States = RefCell::new(HashMap::new());

    let mut repcxls = multi_rcxl(&states, 2, vec![node_path]);

    // check the process view is consistent across instances
    repcxls[0].register_process(1);
    assert!(repcxls[0].get_view().processes.contains(&1));
    repcxls[1].register_process(0);
    assert!(repcxls[0].get_view().processes.contains(&0));
    assert!(repcxls[0].get_view() == repcxls[1].get_view(), "Views are not equal");
    // no duplicates
    repcxls[0].register_process(1);
    assert!(repcxls[0].get_view().processes.iter().filter(|&&x| x == 1).count() == 1);

    // test coordinator
    assert!(repcxls[0].is_coordinator());
    assert!(!repcxls[1].is_coordinator());
}

#[test]
fn test_object_lifecycle() {
    let node_path = "/dev/shm/repCXL_test_obj_lifecycle";
    let states: States = RefCell::new(HashMap::new());

    let mut repcxls = multi_rcxl(&states, 2, vec![node_path]);
    repcxls[0].register_process(1);
    repcxls[1].register_process(0);

    // only the coordinator (process with smallest ID) can create objects
    assert!(new_object(&states, &repcxls[1], 100).is_none(),
        "Non-coordinator process should not be able to create objects");

    // Create object as coordinator
    let _obj = new_object(&states, &repcxls[0], 100).expect("Failed to create object");

    // re-creating object should return none
    assert!(new_object(&states, &repcxls[0], 100).is_none(),
        "Creating an object with an existing ID should return None");

    // Lookup object (simulates replica process)
    let found_obj = get_object(&states, &repcxls[1], 100);
    assert!(found_obj.is_some(), "Object should be found");

    // Lookup non-existent object
    let missing_obj = get_object(&states, &repcxls[1], 999);
    assert!(missing_obj.is_none(), "Non-existent object should return None");

    // a process that is not the coordinator removes nothing
    remove_object(&states, &repcxls[1], 100);
    assert!(get_object(&states, &repcxls[1], 100).is_some());

    // Remove object and verify it's gone
    remove_object(&states, &repcxls[0], 100);
    let removed_obj = get_object(&states, &repcxls[1], 100);
    assert!(removed_obj.is_none(), "Removed object should return None");
}

#[test]
fn test_object_limit() {
    let node_path = "/dev/shm/repCXL_test_limit";
    let states: States = RefCell::new(HashMap::new());
    let mut config = test_config(vec![]);
    config.id = 0;

    let mut rcxl = RepCXL::<u8>::new(&config);

    rcxl.add_memory_node_from_file(node_path);
    install(&states, &rcxl, rcxl.init_state());

    let max_objs = rep_cxl::MAX_OBJECTS;

    // Try to create more than MAX_OBJECTS (128)
    for i in 0..max_objs {
        assert!(new_object(&states, &rcxl, i).is_some());
    }

    assert!(new_object(&states, &rcxl, max_objs + 1).is_none(), "Creating an object beyond the maximum limit should return None");
}

#[test]
fn process_is_set_up_only_from_a_configuration_that_fits() {
    let good = test_config(vec!["/dev/shm/a"]);
    assert!(RepCXL::<u64>::try_new(&good).is_some());
    let made = RepCXL::<u64>::try_new(&RepCXLConfig { mem_size: 1_000_001, ..test_config(vec!["/dev/shm/a"]) })
        .expect("the configuration fits");
    // rounded up to whole chunks
    assert_eq!(made.size, 1_000_064);
    assert_eq!(made.chunk_size, 64);

    assert!(RepCXL::<u64>::try_new(&RepCXLConfig { id: -1, ..test_config(vec![]) }).is_none());
    assert!(RepCXL::<u64>::try_new(&RepCXLConfig { id: 128, ..test_config(vec![]) }).is_none());
    assert!(RepCXL::<u64>::try_new(&RepCXLConfig { id: 127, ..test_config(vec![]) }).is_some());
    assert!(RepCXL::<u64>::try_new(&RepCXLConfig { chunk_size: 0, ..test_config(vec![]) }).is_none());
    assert!(RepCXL::<u64>::try_new(&RepCXLConfig { mem_size: usize::MAX, ..test_config(vec![]) }).is_none());
    // a node must have room for the shared state and more
    assert!(RepCXL::<u64>::try_new(&RepCXLConfig { mem_size: 64, ..test_config(vec!["/dev/shm/a"]) }).is_none());
    assert!(RepCXL::<u64>::try_new(&RepCXLConfig { mem_size: 64, ..test_config(vec![]) }).is_some());
}
