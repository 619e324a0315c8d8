use qb_downloader::partition::{check, get_task_order};
use qb_downloader::task::TaskError;

#[test]
fn even_partition() {
    let lengths = [3i64, 3, 3, 3];
    let order = get_task_order(&lengths, 6, None).unwrap();
    assert_eq!(order, vec![vec![0usize, 1], vec![2, 3]]);
}

#[test]
fn selected_subset_skips_file() {
    let lengths = [2i64, 5, 2, 5];
    let selected = [0usize, 2, 3];
    let order = get_task_order(&lengths, 5, Some(&selected)).unwrap();
    assert_eq!(order, vec![vec![0usize, 2], vec![3]]);
}

#[test]
fn oversize_file_is_rejected() {
    let lengths = [3i64, 10, 3];
    let r = get_task_order(&lengths, 5, None);
    assert!(matches!(r, Err(TaskError::OverSize)));
}

#[test]
fn exact_fit_carries_last_part() {
    let lengths = [4i64, 4, 1];
    let order = get_task_order(&lengths, 5, None).unwrap();
    assert_eq!(order, vec![vec![0usize], vec![1, 2]]);
}

#[test]
fn identical_inputs_give_identical_output() {
    let lengths = [7i64, 1, 2, 9, 4, 4];
    let selected = [5usize, 1, 0, 3];
    let a = get_task_order(&lengths, 9, Some(&selected)).unwrap();
    let b = get_task_order(&lengths, 9, Some(&selected)).unwrap();
    assert_eq!(a, b);
}

#[test]
fn single_file_fills_one_part() {
    let lengths = [5i64];
    let order = get_task_order(&lengths, 5, None).unwrap();
    assert_eq!(order, vec![vec![0usize]]);
}

#[test]
fn empty_input_gives_no_parts() {
    let lengths: [i64; 0] = [];
    let order = get_task_order(&lengths, 5, None).unwrap();
    assert!(order.is_empty());
}

#[test]
fn parts_cover_selection_in_order() {
    let lengths = [1i64, 8, 3, 3, 3, 2];
    let order = get_task_order(&lengths, 8, None).unwrap();
    let flat: Vec<usize> = order.iter().flatten().copied().collect();
    assert_eq!(flat, vec![0, 1, 2, 3, 4, 5]);
    for part in &order {
        let sum: i64 = part.iter().map(|&i| lengths[i]).sum();
        assert!(sum <= 8);
        assert!(!part.is_empty());
    }
}

#[test]
fn check_accepts_and_rejects() {
    let lengths = [2i64, 9, 2];
    assert!(!check(&lengths, 5, None));
    let selected = [0usize, 2];
    assert!(check(&lengths, 5, Some(&selected)));
    assert!(check(&lengths, 9, None));
}
