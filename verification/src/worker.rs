//! The decision core of one worker's send loop. A worker owns one dedicated
//! connection and writes its shard's batches in order, once or forever. The
//! connection itself lives outside the library: the surrounding loop asks
//! [`Worker::action`] what to do, performs it, and reports the outcome back
//! through [`Worker::on_connect`] and [`Worker::on_write`]. A failure is
//! fatal to this worker only.

use vstd::prelude::*;

verus! {

/// Observable phase of one worker's send loop.
#[derive(Debug, Clone, Copy, PartialEq, Eq, Structural)]
pub enum WorkerPhase {
    /// Not yet started.
    Idle,
    /// Opening the dedicated connection.
    Connecting,
    /// Transmitting the batch at `next`.
    Sending { next: usize },
    /// Every batch was written; terminal in finite mode.
    Done,
    /// The connection or a write failed; terminal.
    Failed,
}

/// What the surrounding loop must do next for this worker.
#[derive(Debug, Clone, Copy, PartialEq, Eq, Structural)]
pub enum WorkerAction {
    /// Open the dedicated connection to the configured server.
    Connect,
    /// Write the batch at `index` in full, retrying partial writes.
    Write { index: usize },
    /// The worker is in a terminal phase; release the connection.
    Stop,
}

/// One worker's send loop, reduced to its decisions: which batch of the
/// `n_batches` assigned ones to write next, and when to stop or start over.
#[derive(Debug, Clone, Copy, PartialEq, Eq, Structural)]
pub struct Worker {
    pub n_batches: usize,
    pub repeat: bool,
    pub phase: WorkerPhase,
}

impl Worker {
    /// A sending worker always points at one of its own batches.
    pub open spec fn wf(&self) -> bool {
        match self.phase {
            WorkerPhase::Sending { next } => next < self.n_batches,
            _ => true,
        }
    }

    /// A new worker for a shard of `n_batches` batches, not yet started.
    pub fn new(n_batches: usize, repeat: bool) -> (w: Worker)
        ensures
            w.wf(),
            w.n_batches == n_batches,
            w.repeat == repeat,
            w.phase is Idle,
    {
        Worker { n_batches, repeat, phase: WorkerPhase::Idle }
    }

    /// Starts the run. A worker with an empty shard is done immediately and
    /// never opens a connection; any other worker connects first.
    pub fn launch(&mut self)
        requires
            old(self).phase is Idle,
        ensures
            final(self).wf(),
            final(self).n_batches == old(self).n_batches,
            final(self).repeat == old(self).repeat,
            old(self).n_batches == 0 ==> final(self).phase is Done,
            old(self).n_batches > 0 ==> final(self).phase is Connecting,
    {
        if self.n_batches == 0 {
            self.phase = WorkerPhase::Done;
        } else {
            self.phase = WorkerPhase::Connecting;
        }
    }

    /// Reports the outcome of the connection attempt: on success the worker
    /// starts sending at its first batch; on failure it is failed, without
    /// affecting sibling workers.
    pub fn on_connect(&mut self, ok: bool)
        requires
            old(self).phase is Connecting,
            old(self).wf(),
            old(self).n_batches > 0,
        ensures
            final(self).wf(),
            final(self).n_batches == old(self).n_batches,
            final(self).repeat == old(self).repeat,
            ok ==> final(self).phase == (WorkerPhase::Sending { next: 0 }),
            !ok ==> final(self).phase is Failed,
    {
        if ok {
            self.phase = WorkerPhase::Sending { next: 0 };
        } else {
            self.phase = WorkerPhase::Failed;
        }
    }

    /// Reports the outcome of one batch write. A failed write fails this
    /// worker. After a successful write the worker advances to the next
    /// batch; after the last one it is done, or — in repeat mode — starts
    /// over at the first batch and never reaches a terminal success state.
    pub fn on_write(&mut self, ok: bool)
        requires
            old(self).phase is Sending,
            old(self).wf(),
        ensures
            final(self).wf(),
            final(self).n_batches == old(self).n_batches,
            final(self).repeat == old(self).repeat,
            !ok ==> final(self).phase is Failed,
            ok ==> (match old(self).phase {
                WorkerPhase::Sending { next } => final(self).phase == (if next + 1 < old(
                    self,
                ).n_batches {
                    WorkerPhase::Sending { next: (next + 1) as usize }
                } else if old(self).repeat {
                    WorkerPhase::Sending { next: 0 }
                } else {
                    WorkerPhase::Done
                }),
                _ => true,
            }),
    {
        if !ok {
            self.phase = WorkerPhase::Failed;
            return ;
        }
        let next = match self.phase {
            WorkerPhase::Sending { next } => next,
            _ => 0,
        };
        if next + 1 < self.n_batches {
            self.phase = WorkerPhase::Sending { next: next + 1 };
        } else if self.repeat {
            self.phase = WorkerPhase::Sending { next: 0 };
        } else {
            self.phase = WorkerPhase::Done;
        }
    }

    /// The action the surrounding loop must perform in the current phase.
    pub fn action(&self) -> (a: WorkerAction)
        requires
            !(self.phase is Idle),
        ensures
            self.phase is Connecting ==> a is Connect,
            self.phase matches WorkerPhase::Sending { next } ==> a == (WorkerAction::Write {
                index: next,
            }),
            self.phase is Done || self.phase is Failed ==> a is Stop,
    {
        match self.phase {
            WorkerPhase::Connecting => WorkerAction::Connect,
            WorkerPhase::Sending { next } => WorkerAction::Write { index: next },
            _ => WorkerAction::Stop,
        }
    }
}

} // verus!
