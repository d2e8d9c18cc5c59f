use vstd::prelude::*;

verus! {

/// How `send_and_wait` delivers a callback.
#[derive(Debug, PartialEq, Eq, Clone, Copy)]
pub enum SendMode {
    /// The caller is the owner thread: run the callback in place, since
    /// waiting for the loop would wait for this very call.
    RunInPlace,
    /// Queue the callback and block until the owner thread produced its result.
    EnqueueAndWait,
}

/// Chooses how `send_and_wait` called on thread `caller` delivers a callback
/// to the loop owned by thread `owner`.
pub fn send_and_wait_mode(caller: usize, owner: usize) -> (r: SendMode)
    ensures
        r == (if caller == owner {
            SendMode::RunInPlace
        } else {
            SendMode::EnqueueAndWait
        }),
{
    if caller == owner {
        SendMode::RunInPlace
    } else {
        SendMode::EnqueueAndWait
    }
}

/// What a spawned task shares with its join handle: the value its computation
/// produced, written at most once, and the waker of the one consumer.
pub struct TaskSlot<T, W> {
    value: Option<T>,
    finished: bool,
    waker: Option<W>,
}

impl<T, W> TaskSlot<T, W> {
    /// The produced value not yet taken by the consumer.
    pub closed spec fn value(&self) -> Option<T> {
        self.value
    }

    /// Whether the computation completed.
    pub closed spec fn finished(&self) -> bool {
        self.finished
    }

    /// The waker of the consumer waiting for the value.
    pub closed spec fn waker(&self) -> Option<W> {
        self.waker
    }

    /// A value is only held once the computation completed.
    pub open spec fn wf(&self) -> bool {
        self.value() is Some ==> self.finished()
    }

    /// A slot for a computation that has not completed.
    pub fn new() -> (r: Self)
        ensures
            r.wf(),
            !r.finished(),
            r.value() is None,
            r.waker() is None,
    {
        TaskSlot { value: None, finished: false, waker: None }
    }

    /// Whether the computation must still be polled.
    pub fn needs_poll(&self) -> (r: bool)
        ensures
            r == !self.finished(),
    {
        !self.finished
    }

    /// Stores the value the computation produced.
    pub fn complete(&mut self, value: T)
        requires
            old(self).wf(),
            !old(self).finished(),
        ensures
            final(self).wf(),
            final(self).finished(),
            final(self).value() == Some(value),
            final(self).waker() == old(self).waker(),
    {
        self.value = Some(value);
        self.finished = true;
    }

    /// After a poll: the consumer's waker to wake, once a value is ready.
    pub fn take_waker_if_ready(&mut self) -> (r: Option<W>)
        requires
            old(self).wf(),
        ensures
            final(self).wf(),
            final(self).finished() == old(self).finished(),
            final(self).value() == old(self).value(),
            old(self).value() is Some ==> r == old(self).waker() && final(self).waker() is None,
            old(self).value() is None ==> r is None && final(self).waker() == old(self).waker(),
    {
        if self.value.is_some() {
            self.waker.take()
        } else {
            None
        }
    }

    /// The consumer polls: takes the value when ready; otherwise records
    /// `waker`, unless one is recorded already, and reports not ready.
    pub fn poll_join(&mut self, waker: W) -> (r: Option<T>)
        requires
            old(self).wf(),
        ensures
            final(self).wf(),
            final(self).finished() == old(self).finished(),
            r == old(self).value(),
            final(self).value() is None,
            old(self).value() is Some ==> final(self).waker() == old(self).waker(),
            old(self).value() is None && old(self).waker() is Some ==> final(self).waker() == old(self).waker(),
            old(self).value() is None && old(self).waker() is None ==> final(self).waker() == Some(
                waker,
            ),
    {
        match self.value.take() {
            Some(v) => Some(v),
            None => {
                if self.waker.is_none() {
                    self.waker = Some(waker);
                }
                None
            },
        }
    }
}

} // verus!
