use rep_cxl::shmem::allocator::Allocator;
use rep_cxl::shmem::allocator::ObjectInfo;

#[test]
fn sizes_are_rounded_up_to_whole_chunks() {
    let mut a = Allocator::new(1024, 64);
    assert_eq!(a.alloc_object(1, 1), Some(0));
    assert_eq!(a.lookup_object(1), Some(ObjectInfo::new(1, 0, 64)));
    assert_eq!(a.alloc_object(2, 64), Some(64));
    assert_eq!(a.lookup_object(2), Some(ObjectInfo::new(2, 64, 64)));
    assert_eq!(a.alloc_object(3, 65), Some(128));
    assert_eq!(a.lookup_object(3), Some(ObjectInfo::new(3, 128, 128)));
    assert_eq!(a.allocated_size(), 256);
    assert_eq!(a.total_size(), 1024);
    assert_eq!(a.chunk_size(), 64);
}

#[test]
fn taken_id_is_refused() {
    let mut a = Allocator::new(1024, 64);
    assert_eq!(a.alloc_object(7, 8), Some(0));
    assert_eq!(a.alloc_object(7, 8), None);
    assert_eq!(a.allocated_size(), 64);
}

#[test]
fn full_area_is_refused() {
    let mut a = Allocator::new(128, 64);
    assert_eq!(a.alloc_object(1, 64), Some(0));
    assert_eq!(a.alloc_object(2, 64), Some(64));
    assert_eq!(a.alloc_object(3, 1), None);
    assert_eq!(a.allocated_size(), 128);
    assert!(a.lookup_object(3).is_none());
}

#[test]
fn full_table_is_refused() {
    let mut a = Allocator::new(1024 * 1024, 64);
    for id in 0..rep_cxl::MAX_OBJECTS {
        assert_eq!(a.alloc_object(id, 8), Some(id * 64));
    }
    assert_eq!(a.alloc_object(1000, 8), None);
    assert_eq!(a.allocated_size(), 128 * 64);
}

#[test]
fn size_beyond_the_machine_word_is_refused() {
    let mut a = Allocator::new(1024, 64);
    assert_eq!(a.alloc_object(1, usize::MAX), None);
    assert_eq!(a.alloc_object(1, usize::MAX - 63), None);
    assert_eq!(a.allocated_size(), 0);
}

#[test]
fn empty_object_takes_no_room() {
    let mut a = Allocator::new(1024, 64);
    assert_eq!(a.alloc_object(1, 0), Some(0));
    assert_eq!(a.alloc_object(2, 64), Some(0));
    assert_eq!(a.allocated_size(), 64);
    assert_eq!(a.lookup_object(1), Some(ObjectInfo::new(1, 0, 0)));
}

#[test]
fn dealloc_gives_the_bytes_back() {
    let mut a = Allocator::new(1024, 64);
    assert_eq!(a.alloc_object(1, 100), Some(0));
    assert_eq!(a.alloc_object(2, 10), Some(128));
    a.dealloc_object(1);
    assert_eq!(a.allocated_size(), 64);
    assert!(a.lookup_object(1).is_none());
    assert_eq!(a.lookup_object(2), Some(ObjectInfo::new(2, 128, 64)));
    // an id that is not there changes nothing
    a.dealloc_object(99);
    assert_eq!(a.allocated_size(), 64);
}

#[test]
fn alloc_dealloc_alloc_lands_in_the_same_place() {
    let mut a = Allocator::new(1024, 64);
    assert_eq!(a.alloc_object(1, 64), Some(0));
    assert_eq!(a.alloc_object(2, 64), Some(64));
    assert_eq!(a.alloc_object(3, 64), Some(128));
    let first = a.alloc_object(9, 200);
    assert_eq!(first, Some(192));
    a.dealloc_object(9);
    let second = a.alloc_object(9, 200);
    assert_eq!(second, first);
    assert_eq!(a.allocated_size(), 3 * 64 + 256);
    // the neighbours are where they were
    assert_eq!(a.lookup_object(3), Some(ObjectInfo::new(3, 128, 64)));
}

#[test]
fn smaller_object_in_a_larger_gap_wastes_the_rest() {
    let mut a = Allocator::new(1024, 64);
    assert_eq!(a.alloc_object(1, 128), Some(0));
    assert_eq!(a.alloc_object(2, 64), Some(128));
    a.dealloc_object(1);
    // the freed slot takes the smaller object at the start of the gap
    assert_eq!(a.alloc_object(3, 64), Some(0));
    // the next object goes behind the last entry, not into the rest of the gap
    assert_eq!(a.alloc_object(4, 64), Some(192));
    assert_eq!(a.allocated_size(), 192);
}

#[test]
fn object_that_fits_no_early_gap_goes_behind() {
    let mut a = Allocator::new(1024, 64);
    assert_eq!(a.alloc_object(1, 64), Some(0));
    assert_eq!(a.alloc_object(2, 64), Some(64));
    assert_eq!(a.alloc_object(3, 64), Some(128));
    a.dealloc_object(1);
    a.dealloc_object(2);
    // two empty slots share the gap 0..128, which is too small
    assert_eq!(a.alloc_object(9, 192), Some(192));
    // the gap still takes what fits
    assert_eq!(a.alloc_object(8, 128), Some(0));
    // the slot between them has no room left
    assert_eq!(a.alloc_object(7, 64), Some(384));
}

#[test]
fn no_gap_large_enough_is_refused() {
    let mut a = Allocator::new(256, 64);
    assert_eq!(a.alloc_object(1, 64), Some(0));
    assert_eq!(a.alloc_object(2, 64), Some(64));
    assert_eq!(a.alloc_object(3, 64), Some(128));
    assert_eq!(a.alloc_object(4, 64), Some(192));
    a.dealloc_object(1);
    a.dealloc_object(3);
    // 128 bytes are free, but in two gaps of 64
    assert_eq!(a.alloc_object(5, 128), None);
    assert_eq!(a.allocated_size(), 128);
}

#[test]
fn entries_never_overlap() {
    let mut a = Allocator::new(4096, 64);
    let sizes = [64usize, 200, 1, 300, 64, 128, 17];
    for (id, size) in sizes.iter().enumerate() {
        assert!(a.alloc_object(id, *size).is_some());
    }
    a.dealloc_object(1);
    a.dealloc_object(4);
    assert!(a.alloc_object(20, 100).is_some());
    assert!(a.alloc_object(21, 64).is_some());
    let mut live: Vec<ObjectInfo> = Vec::new();
    for id in 0..32 {
        if let Some(info) = a.lookup_object(id) {
            live.push(info);
        }
    }
    let mut sum = 0;
    for x in &live {
        sum += x.size;
        assert_eq!(x.size % 64, 0);
        assert!(x.offset + x.size <= 4096);
        for y in &live {
            if x.id != y.id && x.offset < y.offset {
                assert!(x.offset + x.size <= y.offset);
            }
            assert!(x.id != y.id || x == y);
        }
    }
    assert_eq!(sum, a.allocated_size());
}
