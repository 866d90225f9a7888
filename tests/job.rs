use image_browser::job::{EncodeJob, JobAction};

#[test]
fn batches_cover_the_list_in_order() {
    let mut job = EncodeJob::new(5, 2);
    assert_eq!(job.next_action(), JobAction::EncodeBatch { start: 0, end: 2 });
    job.batch_finished(true);
    assert_eq!(job.next_action(), JobAction::EncodeBatch { start: 2, end: 4 });
    job.batch_finished(true);
    assert_eq!(job.next_action(), JobAction::EncodeBatch { start: 4, end: 5 });
    job.batch_finished(true);
    assert_eq!(job.next_action(), JobAction::Finished);
}

#[test]
fn failed_batch_is_retried_one_by_one() {
    let mut job = EncodeJob::new(5, 3);
    assert_eq!(job.next_action(), JobAction::EncodeBatch { start: 0, end: 3 });
    job.batch_finished(false);
    for i in 0..3 {
        assert_eq!(job.next_action(), JobAction::EncodeOne { index: i });
        job.item_finished();
    }
    assert_eq!(job.next_action(), JobAction::EncodeBatch { start: 3, end: 5 });
    job.batch_finished(true);
    assert_eq!(job.next_action(), JobAction::Finished);
}

#[test]
fn empty_job_and_zero_batch_size() {
    assert_eq!(EncodeJob::new(0, 8).next_action(), JobAction::Finished);
    let job = EncodeJob::new(3, 0);
    assert_eq!(job.batch_size, 1);
    assert_eq!(job.next_action(), JobAction::EncodeBatch { start: 0, end: 1 });
}
