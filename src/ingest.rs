//! The consumer of the ingestion queue as a state machine: it is started
//! once, drains what is pending, then waits for wake signals and drains the
//! whole pending list on each one. Running the loop, waiting and opening the
//! paths it hands out are left to the caller.
use vstd::prelude::*;
use crate::task::{enqueued, QueueView, TaskPool};
use crate::text::view_lines;

verus! {

#[derive(Clone, Copy, Debug, PartialEq, Eq, Structural)]
pub enum ConsumerState {
    NotStarted,
    Draining,
    Waiting,
}

/// The paths that a wake hands out: all pending ones when a signal is
/// outstanding, none otherwise.
pub open spec fn wake_batch(q: QueueView) -> Seq<Seq<char>> {
    if q.signaled {
        q.pending
    } else {
        Seq::empty()
    }
}

pub struct Consumer {
    state: ConsumerState,
}

impl Consumer {
    pub closed spec fn spec_state(&self) -> ConsumerState {
        self.state
    }

    /// A consumer that has not been started.
    pub fn new() -> (r: Consumer)
        ensures
            r.spec_state() == ConsumerState::NotStarted,
    {
        Consumer { state: ConsumerState::NotStarted }
    }

    pub fn state(&self) -> (r: ConsumerState)
        ensures
            r == self.spec_state(),
    {
        self.state
    }

    /// A start request. The first one takes every pending path, oldest
    /// first, for dispatch; any later one changes nothing and hands out none.
    pub fn start(&mut self, pool: &mut TaskPool) -> (r: Vec<String>)
        ensures
            old(self).spec_state() == ConsumerState::NotStarted ==> final(self).spec_state()
                == ConsumerState::Draining && view_lines(r@) == old(pool)@.pending
                && final(pool)@.pending == Seq::<Seq<char>>::empty() && final(pool)@.signaled
                == old(pool)@.signaled,
            old(self).spec_state() != ConsumerState::NotStarted ==> final(self).spec_state()
                == old(self).spec_state() && final(pool)@ == old(pool)@ && r@.len() == 0,
    {
        if self.state == ConsumerState::NotStarted {
            self.state = ConsumerState::Draining;
            pool.fetch_tasks()
        } else {
            Vec::new()
        }
    }

    /// The batch handed out has been dispatched: a draining consumer waits.
    pub fn finish_batch(&mut self)
        ensures
            old(self).spec_state() == ConsumerState::Draining ==> final(self).spec_state()
                == ConsumerState::Waiting,
            old(self).spec_state() != ConsumerState::Draining ==> final(self).spec_state()
                == old(self).spec_state(),
    {
        if self.state == ConsumerState::Draining {
            self.state = ConsumerState::Waiting;
        }
    }

    /// A wake of a waiting consumer. It consumes the signal; when one was
    /// outstanding it takes the whole pending list, oldest first, and drains.
    pub fn wake(&mut self, pool: &mut TaskPool) -> (r: Vec<String>)
        requires
            old(self).spec_state() == ConsumerState::Waiting,
        ensures
            view_lines(r@) == wake_batch(old(pool)@),
            !final(pool)@.signaled,
            old(pool)@.signaled ==> final(pool)@.pending == Seq::<Seq<char>>::empty()
                && final(self).spec_state() == ConsumerState::Draining,
            !old(pool)@.signaled ==> final(pool)@.pending == old(pool)@.pending
                && final(self).spec_state() == ConsumerState::Waiting,
    {
        if pool.wait_for_task() {
            self.state = ConsumerState::Draining;
            pool.fetch_tasks()
        } else {
            let none: Vec<String> = Vec::new();
            proof {
                assert(view_lines(none@) =~= Seq::<Seq<char>>::empty());
            }
            none
        }
    }
}

/// Two paths enqueued one after the other while the consumer waits on an
/// empty queue are handed out by the next wake together, in that order.
pub proof fn lemma_wake_batch_in_order(q: QueueView, a: Seq<char>, b: Seq<char>)
    requires
        q.pending.len() == 0,
    ensures
        wake_batch(enqueued(enqueued(q, a), b)) == seq![a, b],
{
    assert(enqueued(enqueued(q, a), b).pending =~= seq![a, b]);
}

} // verus!
