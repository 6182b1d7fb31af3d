//! The dispatcher: a bounded pool of execution slots fed from a FIFO
//! queue of task envelopes, and the runtime value that owns it. The
//! dispatcher knows nothing of query semantics: it accepts envelopes,
//! starts the oldest queued one when a slot frees, and replies are
//! delivered to the channel named in the envelope, never returned to
//! the submitter.

use vstd::prelude::*;

verus! {

/// One operator invocation in flight: the task and the reply channel of
/// its requester.
#[derive(Clone, Copy, Debug, PartialEq, Eq, Structural)]
pub struct TaskMessage {
    pub task_id: u64,
    pub reply_to: u64,
}

/// The bounded worker pool. `running` never exceeds `capacity`; the
/// queue is unbounded and submission never blocks — fan-out bounding is
/// the orchestrator's concern.
pub struct Dispatcher {
    pub capacity: usize,
    pub queue: Vec<TaskMessage>,
    pub running: Vec<TaskMessage>,
    pub submitted: u64,
}

impl Dispatcher {
    pub open spec fn wf(&self) -> bool {
        self.capacity >= 1 && self.running@.len() <= self.capacity
    }

    pub fn new(capacity: usize) -> (r: Dispatcher)
        requires
            capacity >= 1,
        ensures
            r.wf(),
            r.capacity == capacity,
            r.queue@.len() == 0,
            r.running@.len() == 0,
            r.submitted == 0,
    {
        Dispatcher { capacity, queue: Vec::new(), running: Vec::new(), submitted: 0 }
    }

    /// Accepts an envelope; never blocks and never rejects. The task
    /// joins the back of the queue.
    pub fn submit(&mut self, t: TaskMessage)
        requires
            old(self).wf(),
            old(self).submitted < u64::MAX,
        ensures
            final(self).wf(),
            final(self).queue@ == old(self).queue@.push(t),
            final(self).running@ == old(self).running@,
            final(self).capacity == old(self).capacity,
            final(self).submitted == old(self).submitted + 1,
    {
        self.queue.push(t);
        self.submitted = self.submitted + 1;
    }

    /// Starts the oldest queued task if a slot is free; otherwise leaves
    /// everything as it is.
    pub fn try_start(&mut self) -> (started: Option<TaskMessage>)
        requires
            old(self).wf(),
        ensures
            final(self).wf(),
            final(self).capacity == old(self).capacity,
            final(self).submitted == old(self).submitted,
            if old(self).queue@.len() > 0 && old(self).running@.len() < old(self).capacity {
                started == Some(old(self).queue@[0])
                    && final(self).queue@ == old(self).queue@.subrange(1, old(self).queue@.len() as int)
                    && final(self).running@ == old(self).running@.push(old(self).queue@[0])
            } else {
                started is None
                    && final(self).queue@ == old(self).queue@
                    && final(self).running@ == old(self).running@
            },
    {
        if self.queue.len() > 0 && self.running.len() < self.capacity {
            let t = self.queue.remove(0);
            self.running.push(t);
            Some(t)
        } else {
            None
        }
    }

    /// Marks a running task finished, freeing its slot; its result
    /// travels to the envelope's reply channel, not to the submitter.
    /// One task's failure never touches the others.
    #[verifier::loop_isolation(false)]
    pub fn complete(&mut self, task_id: u64) -> (r: Option<TaskMessage>)
        requires
            old(self).wf(),
        ensures
            final(self).wf(),
            final(self).capacity == old(self).capacity,
            final(self).queue@ == old(self).queue@,
            final(self).submitted == old(self).submitted,
            match r {
                Some(t) => exists|w: int| 0 <= w < old(self).running@.len()
                    && old(self).running@[w] == t
                    && t.task_id == task_id
                    && final(self).running@ == old(self).running@.remove(w),
                None => final(self).running@ == old(self).running@
                    && forall|w: int| 0 <= w < old(self).running@.len()
                        ==> (#[trigger] old(self).running@[w]).task_id != task_id,
            },
    {
        let mut w: usize = 0;
        while w < self.running.len()
            invariant
                w <= self.running@.len(),
                forall|v: int| 0 <= v < w ==> (#[trigger] self.running@[v]).task_id != task_id,
                *self == *old(self),
            decreases self.running@.len() - w,
        {
            if self.running[w].task_id == task_id {
                let t = self.running.remove(w);
                return Some(t);
            }
            w = w + 1;
        }
        None
    }
}

/// The process-wide runtime: an explicit value with a constructor and a
/// shutdown, passed to whatever needs to dispatch work — no implicit
/// global state.
pub struct System {
    pub running: bool,
    pub next_actor: u64,
}

impl System {
    pub fn new() -> (r: System)
        ensures
            r.running,
            r.next_actor == 0,
    {
        System { running: true, next_actor: 0 }
    }

    /// Hands out a fresh actor identity (a mailbox address).
    pub fn register_actor(&mut self) -> (id: u64)
        requires
            old(self).running,
            old(self).next_actor < u64::MAX,
        ensures
            final(self).running,
            id == old(self).next_actor,
            final(self).next_actor == old(self).next_actor + 1,
    {
        let id = self.next_actor;
        self.next_actor = self.next_actor + 1;
        id
    }

    /// Stops the runtime; nothing is dispatched afterwards.
    pub fn shutdown(&mut self)
        ensures
            !final(self).running,
            final(self).next_actor == old(self).next_actor,
    {
        self.running = false;
    }
}

} // verus!
