//! The queue of documents that are read in the background, and its counters.
//!
//! The queue is plain state. Whoever shares it between threads puts it
//! behind a lock of their own.

use std::collections::VecDeque;
use vstd::prelude::*;

verus! {

/// The queue and its counters. The counters wrap around at the largest
/// machine number, as such counters do.
#[derive(Debug)]
pub struct PdfQueue {
    queue: VecDeque<String>,
    processing_count: usize,
    completed_count: usize,
    total_queued: usize,
    is_running: bool,
}

/// What a [`PdfQueue`] holds, as mathematical values.
pub struct PdfQueueView {
    pub pending: Seq<Seq<char>>,
    pub processing: usize,
    pub completed: usize,
    pub total: usize,
    pub is_running: bool,
}

/// `a + b`, wrapped around at the ends of the machine numbers.
pub open spec fn wrapped_sum(a: usize, b: int) -> usize {
    if a + b > usize::MAX {
        (a + b - usize::MAX - 1) as usize
    } else if a + b < 0 {
        (a + b + usize::MAX + 1) as usize
    } else {
        (a + b) as usize
    }
}

fn add_wrapping(a: usize, b: usize) -> (r: usize)
    ensures
        r == wrapped_sum(a, b as int),
{
    if b > usize::MAX - a {
        b - (usize::MAX - a) - 1
    } else {
        a + b
    }
}

fn subtract_one_wrapping(a: usize) -> (r: usize)
    ensures
        r == wrapped_sum(a, -1),
{
    if a == 0 {
        usize::MAX
    } else {
        a - 1
    }
}

/// The state of the queue at one moment.
#[derive(Clone, Copy, Debug, PartialEq, Eq, Structural)]
pub struct PdfQueueStatus {
    /// Number of paths that wait in the queue.
    pub pending: usize,
    /// Number of documents that are being read.
    pub processing: usize,
    /// Number of documents that were read.
    pub completed: usize,
    /// Number of paths queued since the last reset.
    pub total: usize,
    /// Whether the background work is running.
    pub is_running: bool,
}

impl PdfQueueStatus {
    /// Whether nothing waits and nothing is being read.
    pub fn is_complete(&self) -> (r: bool)
        ensures
            r == (self.pending == 0 && self.processing == 0),
    {
        self.pending == 0 && self.processing == 0
    }
}

impl View for PdfQueue {
    type V = PdfQueueView;

    closed spec fn view(&self) -> PdfQueueView {
        PdfQueueView {
            pending: Seq::new(self.queue@.len(), |i: int| self.queue@[i]@),
            processing: self.processing_count,
            completed: self.completed_count,
            total: self.total_queued,
            is_running: self.is_running,
        }
    }
}

impl PdfQueue {
    /// An empty queue with every counter at zero, not running.
    pub fn new() -> (r: Self)
        ensures
            r@.pending == Seq::<Seq<char>>::empty(),
            r@.processing == 0,
            r@.completed == 0,
            r@.total == 0,
            !r@.is_running,
    {
        let r = PdfQueue {
            queue: VecDeque::new(),
            processing_count: 0,
            completed_count: 0,
            total_queued: 0,
            is_running: false,
        };
        proof {
            assert(r@.pending =~= Seq::<Seq<char>>::empty());
        }
        r
    }

    /// Puts a path at the end of the queue.
    pub fn enqueue(&mut self, path: String)
        ensures
            final(self)@ == (PdfQueueView {
                pending: old(self)@.pending.push(path@),
                total: wrapped_sum(old(self)@.total, 1),
                ..old(self)@
            }),
    {
        self.queue.push_back(path);
        self.total_queued = add_wrapping(self.total_queued, 1);
        proof {
            assert(self@.pending =~= old(self)@.pending.push(path@));
        }
    }

    /// Puts several paths at the end of the queue, in their order.
    pub fn enqueue_batch(&mut self, paths: Vec<String>)
        ensures
            final(self)@ == (PdfQueueView {
                pending: old(self)@.pending + crate::text::views(paths@),
                total: wrapped_sum(old(self)@.total, paths@.len() as int),
                ..old(self)@
            }),
    {
        let count = paths.len();
        let ghost all = crate::text::views(paths@);
        let ghost start = self@.pending;
        proof {
            assert(all.take(0) =~= Seq::<Seq<char>>::empty());
            assert(start + all.take(0) =~= start);
        }
        for path in it: paths
            invariant
                all == crate::text::views(it.seq()),
                self@ == (PdfQueueView { pending: start + all.take(it.index() as int), ..old(self)@ }),
        {
            let ghost before = self@.pending;
            proof {
                let i = it.index() as int;
                assert(all.take(i + 1) =~= all.take(i).push(path@));
            }
            self.queue.push_back(path);
            proof {
                assert(self@.pending =~= before.push(path@));
                assert(before.push(path@) =~= start + all.take(it.index() + 1));
            }
        }
        proof {
            assert(all.take(all.len() as int) =~= all);
        }
        self.total_queued = add_wrapping(self.total_queued, count);
    }

    /// Takes the path at the front of the queue, if there is one.
    pub fn dequeue(&mut self) -> (r: Option<String>)
        ensures
            match r {
                Some(path) => old(self)@.pending.len() > 0 && path@ == old(self)@.pending[0]
                    && final(self)@ == (PdfQueueView {
                    pending: old(self)@.pending.drop_first(),
                    ..old(self)@
                }),
                None => old(self)@.pending.len() == 0 && final(self)@ == old(self)@,
            },
    {
        let r = self.queue.pop_front();
        proof {
            if r is Some {
                assert(self@.pending =~= old(self)@.pending.drop_first());
            } else {
                assert(self@.pending =~= old(self)@.pending);
            }
        }
        r
    }

    /// The state of the queue now.
    pub fn status(&self) -> (r: PdfQueueStatus)
        ensures
            r.pending == self@.pending.len(),
            r.processing == self@.processing,
            r.completed == self@.completed,
            r.total == self@.total,
            r.is_running == self@.is_running,
    {
        PdfQueueStatus {
            pending: self.queue.len(),
            processing: self.processing_count,
            completed: self.completed_count,
            total: self.total_queued,
            is_running: self.is_running,
        }
    }

    /// Notes that the reading of a document has begun.
    pub fn mark_processing(&mut self)
        ensures
            final(self)@ == (PdfQueueView {
                processing: wrapped_sum(old(self)@.processing, 1),
                ..old(self)@
            }),
    {
        self.processing_count = add_wrapping(self.processing_count, 1);
    }

    /// Notes that the reading of a document has ended.
    pub fn mark_completed(&mut self)
        ensures
            final(self)@ == (PdfQueueView {
                processing: wrapped_sum(old(self)@.processing, -1),
                completed: wrapped_sum(old(self)@.completed, 1),
                ..old(self)@
            }),
    {
        self.processing_count = subtract_one_wrapping(self.processing_count);
        self.completed_count = add_wrapping(self.completed_count, 1);
    }

    /// Whether nothing waits and nothing is being read.
    pub fn is_idle(&self) -> (r: bool)
        ensures
            r == (self@.pending.len() == 0 && self@.processing == 0),
    {
        self.queue.len() == 0 && self.processing_count == 0
    }

    /// Says whether the background work is running.
    pub fn set_running(&mut self, running: bool)
        ensures
            final(self)@ == (PdfQueueView { is_running: running, ..old(self)@ }),
    {
        self.is_running = running;
    }

    /// Empties the queue and sets every counter to zero, not running.
    pub fn reset(&mut self)
        ensures
            final(self)@.pending == Seq::<Seq<char>>::empty(),
            final(self)@.processing == 0,
            final(self)@.completed == 0,
            final(self)@.total == 0,
            !final(self)@.is_running,
    {
        self.queue.clear();
        self.processing_count = 0;
        self.completed_count = 0;
        self.total_queued = 0;
        self.is_running = false;
        proof {
            assert(self@.pending =~= Seq::<Seq<char>>::empty());
        }
    }
}

impl Default for PdfQueue {
    fn default() -> (r: Self)
        ensures
            r@.pending == Seq::<Seq<char>>::empty(),
            r@.processing == 0,
            r@.completed == 0,
            r@.total == 0,
            !r@.is_running,
    {
        PdfQueue::new()
    }
}

} // verus!
