use rep_cxl::utils::vec_to_array;

#[test]
fn short_vector_is_filled_up_with_zeros() {
    let arr: [u8; 8] = vec_to_array(&vec![1, 2, 3]);
    assert_eq!(arr, [1, 2, 3, 0, 0, 0, 0, 0]);
    let arr: [u8; 4] = vec_to_array(&vec![]);
    assert_eq!(arr, [0; 4]);
}

#[test]
fn long_vector_is_cut_off() {
    let arr: [u8; 2] = vec_to_array(&vec![9, 8, 7, 6]);
    assert_eq!(arr, [9, 8]);
    let arr: [u8; 3] = vec_to_array(&vec![9, 8, 7]);
    assert_eq!(arr, [9, 8, 7]);
    let arr: [u8; 0] = vec_to_array(&vec![1]);
    assert_eq!(arr, []);
}
