//! The job queue of the worker pool.
//!
//! A fixed number of workers share one queue. Jobs leave it in the order
//! in which they entered. Once the queue is closed it takes no more jobs;
//! the jobs that are in it are still handed out, and a worker that finds
//! it closed and empty exits.

use crate::error::StoreError;
use std::collections::VecDeque;
use vstd::prelude::*;

verus! {

/// What a worker that asks for work is told.
pub enum Next<T> {
    /// Run this job, then ask again.
    Job(T),
    /// Nothing to do for now: wait until the queue changes, then ask again.
    Wait,
    /// The queue is closed and empty: exit.
    Exit,
}

/// The queue between the accept loop and the workers.
pub struct JobQueue<T> {
    jobs: VecDeque<T>,
    open: bool,
    workers: usize,
}

impl<T> JobQueue<T> {
    /// The jobs that wait, the oldest first.
    pub closed spec fn pending(&self) -> Seq<T> {
        self.jobs@
    }

    /// Whether the queue still takes jobs.
    pub closed spec fn is_open(&self) -> bool {
        self.open
    }

    /// The number of workers that the queue serves.
    pub closed spec fn worker_count(&self) -> nat {
        self.workers as nat
    }

    /// An open, empty queue for `size` workers, of which there must be at
    /// least one.
    pub fn new(size: usize) -> (queue: JobQueue<T>)
        requires
            size > 0,
        ensures
            queue.pending() == Seq::<T>::empty(),
            queue.is_open(),
            queue.worker_count() == size,
    {
        JobQueue { jobs: VecDeque::new(), open: true, workers: size }
    }

    /// The number of workers that the queue serves.
    pub fn workers(&self) -> (size: usize)
        ensures
            size == self.worker_count(),
    {
        self.workers
    }

    /// The number of jobs that wait.
    pub fn len(&self) -> (n: usize)
        ensures
            n == self.pending().len(),
    {
        self.jobs.len()
    }

    /// Whether the queue has been closed.
    pub fn is_closed(&self) -> (closed: bool)
        ensures
            closed == !self.is_open(),
    {
        !self.open
    }

    /// Puts a job at the end of the queue. A closed queue refuses it and
    /// stays as it is.
    pub fn execute(&mut self, job: T) -> (done: Result<(), StoreError>)
        ensures
            final(self).is_open() == old(self).is_open(),
            final(self).worker_count() == old(self).worker_count(),
            old(self).is_open() ==> done is Ok && final(self).pending() == old(self).pending().push(
                job,
            ),
            !old(self).is_open() ==> done == Err::<(), StoreError>(StoreError::ShuttingDown)
                && final(self).pending() == old(self).pending(),
    {
        if self.open {
            self.jobs.push_back(job);
            Ok(())
        } else {
            Err(StoreError::ShuttingDown)
        }
    }

    /// Hands out the oldest job. An empty queue tells the worker to wait
    /// while it is open and to exit once it is closed.
    pub fn next(&mut self) -> (next: Next<T>)
        ensures
            final(self).is_open() == old(self).is_open(),
            final(self).worker_count() == old(self).worker_count(),
            old(self).pending().len() > 0 ==> next == Next::Job(old(self).pending()[0])
                && final(self).pending() == old(self).pending().drop_first(),
            old(self).pending().len() == 0 ==> final(self).pending() == old(self).pending()
                && next == (if old(self).is_open() {
                Next::<T>::Wait
            } else {
                Next::<T>::Exit
            }),
    {
        match self.jobs.pop_front() {
            Some(job) => Next::Job(job),
            None => {
                if self.open {
                    Next::Wait
                } else {
                    Next::Exit
                }
            },
        }
    }

    /// Closes the queue: it takes no more jobs, and keeps those it has.
    pub fn close(&mut self)
        ensures
            !final(self).is_open(),
            final(self).pending() == old(self).pending(),
            final(self).worker_count() == old(self).worker_count(),
    {
        self.open = false;
    }
}

} // verus!
