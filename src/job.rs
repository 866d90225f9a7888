use vstd::prelude::*;

verus! {

/// What an embedding job over a list of images does next.
#[derive(Clone, Copy, Debug, PartialEq, Eq, Structural)]
pub enum JobAction {
    /// Encode the images at positions `start..end` in one batch.
    EncodeBatch { start: usize, end: usize },
    /// Encode the image at `index` alone.
    EncodeOne { index: usize },
    /// Every image has been handled.
    Finished,
}

/// Embedding a list of images batch by batch. A batch that fails is retried
/// one image at a time; an image that fails alone is reported by the caller and
/// skipped, so one bad image never stops the rest.
#[derive(Clone, Copy, Debug, PartialEq, Eq, Structural)]
pub struct EncodeJob {
    /// Number of images.
    pub total: usize,
    /// Most images in one batch; at least 1.
    pub batch_size: usize,
    /// First image not yet handled.
    pub next: usize,
    /// While `next < retry_end`, the images up to `retry_end` belong to a
    /// failed batch and are encoded one at a time.
    pub retry_end: usize,
}

impl EncodeJob {
    pub open spec fn wf(&self) -> bool {
        &&& self.batch_size >= 1
        &&& self.next <= self.retry_end <= self.total
    }

    /// End of the batch that starts at `next`.
    pub open spec fn batch_end(&self) -> nat {
        if self.next + self.batch_size <= self.total {
            (self.next + self.batch_size) as nat
        } else {
            self.total as nat
        }
    }

    /// The action the job asks for in its present state.
    pub open spec fn action(&self) -> JobAction {
        if self.next < self.retry_end {
            JobAction::EncodeOne { index: self.next }
        } else if self.next < self.total {
            JobAction::EncodeBatch { start: self.next, end: self.batch_end() as usize }
        } else {
            JobAction::Finished
        }
    }

    /// Work left, counted so that every step of the job lowers it.
    pub open spec fn remaining_work(&self) -> nat {
        (2 * (self.total - self.next) + if self.next < self.retry_end {
            0int
        } else {
            1int
        }) as nat
    }

    /// A job over `total` images in batches of `batch_size`; a size of 0 is
    /// taken as 1.
    pub fn new(total: usize, batch_size: usize) -> (r: Self)
        ensures
            r.wf(),
            r.total == total,
            r.batch_size == if batch_size == 0 {
                1
            } else {
                batch_size
            },
            r.next == 0,
            r.retry_end == 0,
    {
        let size = if batch_size == 0 {
            1
        } else {
            batch_size
        };
        EncodeJob { total, batch_size: size, next: 0, retry_end: 0 }
    }

    pub fn next_action(&self) -> (r: JobAction)
        requires
            self.wf(),
        ensures
            r == self.action(),
    {
        if self.next < self.retry_end {
            JobAction::EncodeOne { index: self.next }
        } else if self.next < self.total {
            let end = if self.batch_size <= self.total - self.next {
                self.next + self.batch_size
            } else {
                self.total
            };
            JobAction::EncodeBatch { start: self.next, end }
        } else {
            JobAction::Finished
        }
    }

    /// Records the outcome of the batch that `next_action` asked for: on
    /// success its images are done; on failure they are retried one by one.
    pub fn batch_finished(&mut self, succeeded: bool)
        requires
            old(self).wf(),
            old(self).action() is EncodeBatch,
        ensures
            final(self).wf(),
            final(self).total == old(self).total,
            final(self).batch_size == old(self).batch_size,
            succeeded ==> final(self).next == old(self).batch_end(),
            !succeeded ==> final(self).next == old(self).next,
            final(self).retry_end == old(self).batch_end(),
            final(self).remaining_work() < old(self).remaining_work(),
    {
        let end = if self.batch_size <= self.total - self.next {
            self.next + self.batch_size
        } else {
            self.total
        };
        if succeeded {
            self.next = end;
        }
        self.retry_end = end;
    }

    /// Records that the single image `next_action` asked for was handled,
    /// encoded or reported as failed.
    pub fn item_finished(&mut self)
        requires
            old(self).wf(),
            old(self).action() is EncodeOne,
        ensures
            final(self).wf(),
            final(self).total == old(self).total,
            final(self).batch_size == old(self).batch_size,
            final(self).next == old(self).next + 1,
            final(self).retry_end == old(self).retry_end,
            final(self).remaining_work() < old(self).remaining_work(),
    {
        self.next = self.next + 1;
    }
}

/// Every image is handled in order: a job asks for a batch or a single image
/// exactly at its first unhandled position, each batch holds between one and
/// `batch_size` images, and the job is finished only once every image is
/// handled.
pub proof fn lemma_job_covers_images_in_order(job: EncodeJob)
    requires
        job.wf(),
    ensures
        job.action() matches JobAction::EncodeBatch { start, end } ==> start == job.next && start
            < end && end - start <= job.batch_size && end <= job.total,
        job.action() matches JobAction::EncodeOne { index } ==> index == job.next && index
            < job.total,
        job.action() is Finished <==> job.next == job.total,
{
}

} // verus!
