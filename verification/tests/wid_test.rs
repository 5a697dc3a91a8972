use rep_cxl::wid::Wid;

#[test]
fn wid_orders_by_round_then_by_smaller_process() {
    assert!(Wid::new(2, 5) > Wid::new(1, 0));
    assert!(Wid::new(1, 0) > Wid::new(1, 1));
    assert!(Wid::new(1, 1) < Wid::new(1, 0));
    assert!(Wid::new(3, 7) == Wid::new(3, 7));
    assert!(Wid::new(0, 0) < Wid::new(1, 127));
}

#[test]
fn exactly_one_of_less_equal_greater() {
    let wids = [
        Wid::new(0, 0),
        Wid::new(0, 1),
        Wid::new(1, 0),
        Wid::new(1, 1),
        Wid::new(1, 127),
        Wid::new(2, 0),
        Wid::new(u64::MAX, usize::MAX),
        Wid::new(u64::MAX, 0),
    ];
    for x in wids {
        for y in wids {
            let holds = [x < y, x == y, x > y].iter().filter(|b| **b).count();
            assert_eq!(holds, 1);
            let greater = x.round_num > y.round_num || (x.round_num == y.round_num && x.process_id < y.process_id);
            assert_eq!(x > y, greater);
            assert_eq!(x.is_above(&y), greater);
            assert_eq!(x.is_below(&y), y > x);
            assert_eq!(x.same(&y), x == y);
            assert_eq!(x <= y, !greater);
            for z in wids {
                if x < y && y < z {
                    assert!(x < z);
                }
            }
        }
    }
}

#[test]
fn zero_wid_is_below_every_write() {
    // rounds are numbered from one
    for pid in [0usize, 1, 127] {
        assert!(Wid::new(0, 0) < Wid::new(1, pid));
    }
}
