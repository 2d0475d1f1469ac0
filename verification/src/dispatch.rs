//! Worker-pool dispatcher: readiness tokens paired with accepted
//! connections, first in, first out.
//!
//! Workers announce readiness — once before their first job and again after
//! every finished one — and the dispatcher pairs the next connection with
//! the next token, whichever worker sent it.  The state here is the
//! dispatcher's whole decision: the caller's threads only move messages.
//! The well-formedness invariant carries the pool's safety law: a worker
//! never holds more jobs than it has announced readiness for, so no worker
//! receives a second job before announcing readiness after its first.
//! Once the stopping flag is set every further connection is dropped,
//! cleanly and whole, instead of being handed to a worker.

use vstd::prelude::*;

verus! {

/// What the acceptor forwards to the dispatcher and the dispatcher to a
/// worker: one accepted connection, named by a plain token, or the order
/// to terminate.
#[derive(Clone, Copy, Debug, PartialEq, Eq, Structural)]
pub enum MessageWork {
    Terminate,
    Job(u64),
}

/// The dispatcher's answer for one connection.
#[derive(Clone, Copy, Debug, PartialEq, Eq, Structural)]
pub enum Dispatch {
    /// Hand the connection to this worker.
    Assigned(u8, u64),
    /// The pool is stopping: close the connection without handing it over.
    Dropped(u64),
}

/// How often `w` stands in the readiness queue.
pub open spec fn count_of(s: Seq<u8>, w: u8) -> nat
    decreases s.len(),
{
    if s.len() == 0 {
        0
    } else {
        count_of(s.drop_last(), w) + if s.last() == w {
            1nat
        } else {
            0nat
        }
    }
}

/// Counting from the front agrees with counting from the back.
proof fn lemma_count_drop_first(s: Seq<u8>, w: u8)
    requires
        s.len() > 0,
    ensures
        count_of(s, w) == count_of(s.drop_first(), w) + if s.first() == w {
            1nat
        } else {
            0nat
        },
    decreases s.len(),
{
    if s.len() == 1 {
        assert(s.drop_first() =~= Seq::<u8>::empty());
        assert(s.drop_last() =~= Seq::<u8>::empty());
        assert(s.first() == s.last());
    } else {
        lemma_count_drop_first(s.drop_last(), w);
        assert(s.drop_last().drop_first() =~= s.drop_first().drop_last());
        assert(s.drop_last().first() == s.first());
        assert(s.drop_first().last() == s.last());
        assert(count_of(s.drop_first(), w) == count_of(s.drop_first().drop_last(), w) + if s
            .drop_first().last() == w {
            1nat
        } else {
            0nat
        });
    }
}

/// The dispatcher: the queue of readiness tokens not yet paired, the
/// stopping flag, and per worker the counts of announcements and of jobs
/// handed over.
pub struct Go {
    pub workers: u8,
    pub ready: Vec<u8>,
    pub stopping: bool,
    pub announced: Vec<u64>,
    pub assigned: Vec<u64>,
}

impl Go {
    /// The pool's safety invariant: every queued token names a worker, and
    /// no worker's jobs and queued tokens together outrun its
    /// announcements.
    pub open spec fn wf(&self) -> bool {
        &&& self.announced@.len() == self.workers as int
        &&& self.assigned@.len() == self.workers as int
        &&& forall|i: int| 0 <= i < self.ready@.len() ==> self.ready@[i] < self.workers
        &&& forall|w: int|
            0 <= w < self.workers as int ==> self.assigned@[w] + count_of(self.ready@, w as u8)
                <= self.announced@[w]
    }

    /// A dispatcher for a pool of `workers` workers, none ready yet.
    pub fn new(workers: u8) -> (g: Go)
        ensures
            g.wf(),
            g.workers == workers,
            g.ready@ == Seq::<u8>::empty(),
            !g.stopping,
            forall|w: int| 0 <= w < workers as int ==> g.announced@[w] == 0 && g.assigned@[w] == 0,
    {
        let mut announced: Vec<u64> = Vec::new();
        let mut assigned: Vec<u64> = Vec::new();
        let mut i: usize = 0;
        while i < workers as usize
            invariant
                i <= workers as usize,
                announced@.len() == i,
                assigned@.len() == i,
                forall|w: int| 0 <= w < i ==> announced@[w] == 0 && assigned@[w] == 0,
            decreases workers as usize - i,
        {
            announced.push(0);
            assigned.push(0);
            i += 1;
        }
        let g = Go { workers, ready: Vec::new(), stopping: false, announced, assigned };
        proof {
            assert(g.ready@ =~= Seq::<u8>::empty());
        }
        g
    }

    /// Takes one worker's readiness announcement into the queue.
    pub fn announce_ready(&mut self, w: u8)
        requires
            old(self).wf(),
            w < old(self).workers,
            old(self).announced@[w as int] < u64::MAX,
        ensures
            final(self).wf(),
            final(self).workers == old(self).workers,
            final(self).stopping == old(self).stopping,
            final(self).ready@ == old(self).ready@.push(w),
            final(self).assigned@ == old(self).assigned@,
            final(self).announced@ == old(self).announced@.update(
                w as int,
                (old(self).announced@[w as int] + 1) as u64,
            ),
    {
        let n = self.announced[w as usize];
        self.announced.set(w as usize, n + 1);
        self.ready.push(w);
        proof {
            assert forall|v: u8| v < self.workers implies self.assigned@[v as int] + count_of(
                self.ready@,
                v,
            ) <= self.announced@[v as int] by {
                assert(self.ready@.drop_last() =~= old(self).ready@);
            }
        }
    }

    /// Pairs the next connection with the next readiness token — FIFO, no
    /// worker affinity.  The token is consumed either way; once the pool is
    /// stopping the connection is dropped, whole, instead of assigned.
    pub fn dispatch(&mut self, conn: u64) -> (r: Dispatch)
        requires
            old(self).wf(),
            old(self).ready@.len() > 0,
            old(self).assigned@[old(self).ready@.first() as int] < u64::MAX,
        ensures
            final(self).wf(),
            final(self).workers == old(self).workers,
            final(self).stopping == old(self).stopping,
            final(self).ready@ == old(self).ready@.drop_first(),
            final(self).announced@ == old(self).announced@,
            old(self).stopping ==> r == Dispatch::Dropped(conn) && final(self).assigned@ == old(self).assigned@,
            !old(self).stopping ==> r == Dispatch::Assigned(old(self).ready@.first(), conn)
                && final(self).assigned@ == old(self).assigned@.update(
                old(self).ready@.first() as int,
                (old(self).assigned@[old(self).ready@.first() as int] + 1) as u64,
            ),
    {
        let w = self.ready.remove(0);
        proof {
            assert(self.ready@ =~= old(self).ready@.drop_first());
            assert forall|v: u8| v < self.workers implies count_of(self.ready@, v) <= count_of(
                old(self).ready@,
                v,
            ) by {
                lemma_count_drop_first(old(self).ready@, v);
            }
        }
        if self.stopping {
            return Dispatch::Dropped(conn);
        }
        let n = self.assigned[w as usize];
        proof {
            lemma_count_drop_first(old(self).ready@, w);
        }
        self.assigned.set(w as usize, n + 1);
        proof {
            assert forall|v: u8| v < self.workers implies self.assigned@[v as int] + count_of(
                self.ready@,
                v,
            ) <= self.announced@[v as int] by {
                lemma_count_drop_first(old(self).ready@, v);
            }
        }
        Dispatch::Assigned(w, conn)
    }

    /// Raises the stopping flag: every connection dispatched from now on is
    /// dropped.
    pub fn set_stopping(&mut self)
        requires
            old(self).wf(),
        ensures
            final(self).wf(),
            final(self).workers == old(self).workers,
            final(self).stopping,
            final(self).ready@ == old(self).ready@,
            final(self).announced@ == old(self).announced@,
            final(self).assigned@ == old(self).assigned@,
    {
        self.stopping = true;
    }
}

/// At-most-one dispatch: under any sequence of announcements and
/// dispatches, no worker's handed-over jobs outrun its readiness
/// announcements — a worker that has not announced again is not given a
/// second job.
pub proof fn lemma_at_most_one_dispatch(g: Go)
    requires
        g.wf(),
    ensures
        forall|w: int| 0 <= w < g.workers as int ==> g.assigned@[w] <= g.announced@[w],
{
}

/// The steps of an ordered shutdown, each waiting for the one before it.
#[derive(Clone, Copy, Debug, PartialEq, Eq, Structural)]
pub enum StopStep {
    /// Send the in-band token to the accept socket, unblocking the
    /// acceptor.
    SendToken,
    /// Join the acceptor thread.
    JoinAcceptor,
    /// Raise the dispatcher's stopping flag.
    SetStopping,
    /// Join the dispatcher thread.
    JoinDispatcher,
    /// Send terminate to every worker's private channel.
    TerminateWorkers,
    /// Join every worker thread.
    JoinWorkers,
    /// Nothing is left to stop.
    Finished,
}

/// The step an ordered shutdown takes at each stage.
pub open spec fn spec_stop_step(stage: u8) -> StopStep {
    if stage == 0 {
        StopStep::SendToken
    } else if stage == 1 {
        StopStep::JoinAcceptor
    } else if stage == 2 {
        StopStep::SetStopping
    } else if stage == 3 {
        StopStep::JoinDispatcher
    } else if stage == 4 {
        StopStep::TerminateWorkers
    } else if stage == 5 {
        StopStep::JoinWorkers
    } else {
        StopStep::Finished
    }
}

/// The shutdown sequence: a cursor over the six ordered steps.  Asking for
/// steps one after another yields them in the fixed order and never yields
/// one twice, however often the sequence is driven.
pub struct ShutdownSeq {
    pub stage: u8,
}

impl ShutdownSeq {
    pub fn new() -> (s: ShutdownSeq)
        ensures
            s.stage == 0,
    {
        ShutdownSeq { stage: 0 }
    }

    /// The next step to take; past the last step only `Finished` comes.
    pub fn next(&mut self) -> (step: StopStep)
        ensures
            step == spec_stop_step(old(self).stage),
            final(self).stage == if old(self).stage < 6 {
                (old(self).stage + 1) as u8
            } else {
                old(self).stage
            },
    {
        let step = match self.stage {
            0 => StopStep::SendToken,
            1 => StopStep::JoinAcceptor,
            2 => StopStep::SetStopping,
            3 => StopStep::JoinDispatcher,
            4 => StopStep::TerminateWorkers,
            5 => StopStep::JoinWorkers,
            _ => StopStep::Finished,
        };
        if self.stage < 6 {
            self.stage = self.stage + 1;
        }
        step
    }
}

} // verus!
