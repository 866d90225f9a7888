use image_browser::batch::{concat_batch, split_batch, text_placeholder, BatchError};

#[test]
fn concat_lays_items_end_to_end() {
    let items = vec![vec![1.0f32, 2.0], vec![3.0, 4.0], vec![5.0, 6.0]];
    assert_eq!(concat_batch(&items, 2), Ok(vec![1.0, 2.0, 3.0, 4.0, 5.0, 6.0]));
}

#[test]
fn concat_refuses_a_wrong_sized_item() {
    let items = vec![vec![1u8, 2], vec![3]];
    assert_eq!(concat_batch(&items, 2), Err(BatchError::Shape));
    let empty: Vec<Vec<u8>> = Vec::new();
    assert_eq!(concat_batch(&empty, 4), Ok(Vec::new()));
}

#[test]
fn split_gives_rows_back() {
    let flat = vec![1.0f32, 2.0, 3.0, 4.0, 5.0, 6.0];
    assert_eq!(
        split_batch(&flat, 3, 2),
        Ok(vec![vec![1.0, 2.0], vec![3.0, 4.0], vec![5.0, 6.0]])
    );
    assert_eq!(split_batch(&flat, 2, 3), Ok(vec![vec![1.0, 2.0, 3.0], vec![4.0, 5.0, 6.0]]));
}

#[test]
fn split_refuses_a_mismatched_output() {
    let flat = vec![0i32; 5];
    assert_eq!(split_batch(&flat, 2, 3), Err(BatchError::Output));
    assert_eq!(split_batch(&flat, usize::MAX, 2), Err(BatchError::Output));
}

#[test]
fn batch_round_trip_matches_items() {
    let items: Vec<Vec<f32>> = (0..4).map(|k| (0..512).map(|j| (k * 512 + j) as f32).collect()).collect();
    let flat = concat_batch(&items, 512).unwrap();
    assert_eq!(split_batch(&flat, 4, 512).unwrap(), items);
}

#[test]
fn placeholder_is_one_zero_per_item() {
    assert_eq!(text_placeholder(3), vec![0i64, 0, 0]);
    assert!(text_placeholder(0).is_empty());
}
