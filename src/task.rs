//! The pending list of the ingestion queue: paths waiting to be opened,
//! and a single uncounted wake signal for the consumer.
use vstd::prelude::*;
use crate::text::view_lines;

verus! {

/// The state of a queue: its pending paths, oldest first, and whether a wake
/// signal is outstanding.
pub struct QueueView {
    pub pending: Seq<Seq<char>>,
    pub signaled: bool,
}

/// The queue after `task` is enqueued.
pub open spec fn enqueued(q: QueueView, task: Seq<char>) -> QueueView {
    QueueView { pending: q.pending.push(task), signaled: true }
}

/// Paths waiting to be opened, with the wake signal for their consumer.
pub struct TaskPool {
    tasks: Vec<String>,
    signaled: bool,
}

impl View for TaskPool {
    type V = QueueView;

    closed spec fn view(&self) -> QueueView {
        QueueView { pending: view_lines(self.tasks@), signaled: self.signaled }
    }
}

impl TaskPool {
    /// An empty queue with no signal.
    pub fn new() -> (r: TaskPool)
        ensures
            r@.pending == Seq::<Seq<char>>::empty(),
            !r@.signaled,
    {
        let r = TaskPool { tasks: Vec::new(), signaled: false };
        proof {
            assert(r@.pending =~= Seq::<Seq<char>>::empty());
        }
        r
    }

    /// Appends a path and raises the wake signal.
    pub fn add_task(&mut self, task: String)
        ensures
            final(self)@ == enqueued(old(self)@, task@),
    {
        let ghost t = task@;
        self.tasks.push(task);
        self.signaled = true;
        proof {
            assert(self@.pending =~= old(self)@.pending.push(t));
        }
    }

    /// Takes every pending path, oldest first, leaving none. The signal is
    /// left as it was.
    pub fn fetch_tasks(&mut self) -> (r: Vec<String>)
        ensures
            view_lines(r@) == old(self)@.pending,
            final(self)@.pending == Seq::<Seq<char>>::empty(),
            final(self)@.signaled == old(self)@.signaled,
    {
        let mut taken: Vec<String> = Vec::new();
        std::mem::swap(&mut taken, &mut self.tasks);
        proof {
            assert(self@.pending =~= Seq::<Seq<char>>::empty());
        }
        taken
    }

    /// Consumes the wake signal; `true` when one was outstanding. The
    /// pending paths are left as they were.
    pub fn wait_for_task(&mut self) -> (r: bool)
        ensures
            r == old(self)@.signaled,
            !final(self)@.signaled,
            final(self)@.pending == old(self)@.pending,
    {
        let r = self.signaled;
        self.signaled = false;
        r
    }
}

/// Makes sure `slot` holds the shared queue: an existing one is kept, an
/// empty one is created on first use.
pub fn get_file_queue_pool(slot: &mut Option<TaskPool>)
    ensures
        (*final(slot)) is Some,
        (*old(slot)) is Some ==> *final(slot) == *old(slot),
        (*old(slot)) is None ==> (*final(slot))->Some_0@.pending == Seq::<Seq<char>>::empty()
            && !(*final(slot))->Some_0@.signaled,
{
    if slot.is_none() {
        *slot = Some(TaskPool::new());
    }
}

} // verus!
