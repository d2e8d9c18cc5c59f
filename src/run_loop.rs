use vstd::prelude::*;

verus! {

/// Handle value that no scheduled timer ever receives.
pub const INVALID_HANDLE: u64 = 0;

/// A one-shot callback due at an instant of the loop's clock.
///
/// Instants are ticks of a monotonic clock chosen by the embedder (for example
/// nanoseconds since the loop was created).
pub struct Timer<C> {
    pub handle: u64,
    pub scheduled: u64,
    pub callback: C,
}

/// Work taken out of the loop in one drain pass, to run in this order:
/// first every immediate callback, then every due timer.
pub struct PendingExecution<C> {
    pub callbacks: Vec<C>,
    pub timers: Vec<Timer<C>>,
}

/// The run loop's queues: immediate callbacks in arrival order and the
/// scheduled timers, each under a handle that is never reused.
pub struct RunLoopState<C> {
    callbacks: Vec<C>,
    timers: Vec<Timer<C>>,
    next_handle: u64,
}

pub open spec fn is_due<C>(t: Timer<C>, now: u64) -> bool {
    t.scheduled <= now
}

/// The instant `delay` ticks after `now`, held at the end of the clock.
pub open spec fn deadline(now: u64, delay: u64) -> u64 {
    if now + delay > u64::MAX {
        u64::MAX
    } else {
        (now + delay) as u64
    }
}

/// The timers that a drain at `now` leaves in place, in their order.
pub open spec fn waiting_timers<C>(timers: Seq<Timer<C>>, now: u64) -> Seq<Timer<C>>
    decreases timers.len(),
{
    if timers.len() == 0 {
        Seq::empty()
    } else {
        let prev = waiting_timers(timers.drop_last(), now);
        if is_due(timers.last(), now) {
            prev
        } else {
            prev.push(timers.last())
        }
    }
}

/// The timers that a drain at `now` fires, in their order of scheduling.
pub open spec fn due_timers<C>(timers: Seq<Timer<C>>, now: u64) -> Seq<Timer<C>>
    decreases timers.len(),
{
    if timers.len() == 0 {
        Seq::empty()
    } else {
        let prev = due_timers(timers.drop_last(), now);
        if is_due(timers.last(), now) {
            prev.push(timers.last())
        } else {
            prev
        }
    }
}

/// Earlier entries are due no later than later ones.
pub open spec fn sorted_by_time<C>(timers: Seq<Timer<C>>) -> bool {
    forall|a: int, b: int|
        0 <= a < b < timers.len() ==> #[trigger] timers[a].scheduled <= #[trigger] timers[b].scheduled
}

/// Handles are unique, valid, and below `next_handle`.
pub open spec fn timers_wf<C>(timers: Seq<Timer<C>>, next_handle: u64) -> bool {
    &&& INVALID_HANDLE < next_handle
    &&& forall|i: int|
        0 <= i < timers.len() ==> INVALID_HANDLE < #[trigger] timers[i].handle < next_handle
    &&& forall|i: int, j: int|
        0 <= i < timers.len() && 0 <= j < timers.len() && i != j ==> #[trigger] timers[i].handle
            != #[trigger] timers[j].handle
}

/// Whether some timer holds `handle`.
pub open spec fn has_handle<C>(timers: Seq<Timer<C>>, handle: u64) -> bool {
    exists|i: int| 0 <= i < timers.len() && #[trigger] timers[i].handle == handle
}

proof fn lemma_waiting_members<C>(timers: Seq<Timer<C>>, now: u64)
    ensures
        forall|x: Timer<C>|
            #[trigger] waiting_timers(timers, now).contains(x) <==> timers.contains(x) && !is_due(
                x,
                now,
            ),
        forall|x: Timer<C>|
            #[trigger] due_timers(timers, now).contains(x) <==> timers.contains(x) && is_due(x, now),
    decreases timers.len(),
{
    if timers.len() > 0 {
        let init = timers.drop_last();
        lemma_waiting_members(init, now);
        let last = timers.last();
        assert forall|x: Timer<C>| timers.contains(x) implies init.contains(x) || x == last by {
            let b = choose|b: int| 0 <= b < timers.len() && timers[b] == x;
            if b < timers.len() - 1 {
                assert(init[b] == x);
            }
        }
        assert forall|x: Timer<C>| init.contains(x) implies timers.contains(x) by {
            let b = choose|b: int| 0 <= b < init.len() && init[b] == x;
            assert(timers[b] == x);
        }
        assert(timers[timers.len() - 1] == last);
        assert forall|x: Timer<C>|
            #[trigger] waiting_timers(timers, now).contains(x) <==> timers.contains(x) && !is_due(
                x,
                now,
            ) by {
            let prev = waiting_timers(init, now);
            if !is_due(last, now) {
                assert(prev.push(last)[prev.len() as int] == last);
                if prev.contains(x) {
                    let a = choose|a: int| 0 <= a < prev.len() && prev[a] == x;
                    assert(prev.push(last)[a] == x);
                }
                if prev.push(last).contains(x) {
                    let a = choose|a: int| 0 <= a < prev.push(last).len() && prev.push(last)[a] == x;
                    if a < prev.len() {
                        assert(prev[a] == x);
                    }
                }
            }
        }
        assert forall|x: Timer<C>|
            #[trigger] due_timers(timers, now).contains(x) <==> timers.contains(x) && is_due(
                x,
                now,
            ) by {
            let prev = due_timers(init, now);
            if is_due(last, now) {
                assert(prev.push(last)[prev.len() as int] == last);
                if prev.contains(x) {
                    let a = choose|a: int| 0 <= a < prev.len() && prev[a] == x;
                    assert(prev.push(last)[a] == x);
                }
                if prev.push(last).contains(x) {
                    let a = choose|a: int| 0 <= a < prev.push(last).len() && prev.push(last)[a] == x;
                    if a < prev.len() {
                        assert(prev[a] == x);
                    }
                }
            }
        }
    }
}

proof fn lemma_waiting_wf<C>(timers: Seq<Timer<C>>, now: u64, next_handle: u64)
    requires
        timers_wf(timers, next_handle),
    ensures
        timers_wf(waiting_timers(timers, now), next_handle),
    decreases timers.len(),
{
    if timers.len() > 0 {
        let init = timers.drop_last();
        assert(timers_wf(init, next_handle)) by {
            assert forall|a: int, b: int|
                0 <= a < init.len() && 0 <= b < init.len() && a != b implies #[trigger] init[a].handle
                    != #[trigger] init[b].handle by {
                assert(init[a] == timers[a] && init[b] == timers[b]);
            }
            assert forall|a: int|
                0 <= a < init.len() implies INVALID_HANDLE < #[trigger] init[a].handle
                < next_handle by {
                assert(init[a] == timers[a]);
            }
        }
        lemma_waiting_wf(init, now, next_handle);
        lemma_waiting_members(init, now);
        let prev = waiting_timers(init, now);
        let last = timers.last();
        if !is_due(last, now) {
            let after = prev.push(last);
            assert forall|a: int| 0 <= a < prev.len() implies (#[trigger] prev[a]).handle
                != last.handle by {
                assert(prev.contains(prev[a]));
                let b = choose|b: int| 0 <= b < init.len() && init[b] == prev[a];
                assert(init[b] == timers[b]);
                assert(timers[timers.len() - 1] == last);
            }
            assert forall|a: int, b: int|
                0 <= a < after.len() && 0 <= b < after.len() && a != b implies #[trigger] after[a].handle
                    != #[trigger] after[b].handle by {
                if a < prev.len() {
                    assert(after[a] == prev[a]);
                }
                if b < prev.len() {
                    assert(after[b] == prev[b]);
                }
            }
            assert forall|a: int|
                0 <= a < after.len() implies INVALID_HANDLE < #[trigger] after[a].handle
                < next_handle by {
                if a < prev.len() {
                    assert(after[a] == prev[a]);
                } else {
                    assert(timers[timers.len() - 1] == last);
                }
            }
        }
    }
}

/// Inserting an element adds it to the multiset of a sequence.
proof fn lemma_insert_multiset<A>(s: Seq<A>, p: int, x: A)
    requires
        0 <= p <= s.len(),
    ensures
        s.insert(p, x).to_multiset() =~= s.to_multiset().insert(x),
{
    broadcast use vstd::seq_lib::group_to_multiset_ensures;

    let u = s.insert(p, x);
    assert(u.remove(p) =~= s);
    assert(u[p] == x);
    assert(u.contains(x));
    assert(u.to_multiset().count(x) > 0);
}

impl<C> RunLoopState<C> {
    /// Immediate callbacks waiting for the next drain, in arrival order.
    pub closed spec fn callbacks(&self) -> Seq<C> {
        self.callbacks@
    }

    /// Scheduled timers, in scheduling order.
    pub closed spec fn timers(&self) -> Seq<Timer<C>> {
        self.timers@
    }

    /// The handle the next scheduled timer receives.
    pub closed spec fn next_handle(&self) -> u64 {
        self.next_handle
    }

    pub open spec fn wf(&self) -> bool {
        timers_wf(self.timers(), self.next_handle())
    }

    /// An idle loop: nothing queued, nothing scheduled.
    pub fn new() -> (r: Self)
        ensures
            r.wf(),
            r.callbacks() == Seq::<C>::empty(),
            r.timers() == Seq::<Timer<C>>::empty(),
            r.next_handle() == INVALID_HANDLE + 1,
    {
        RunLoopState { callbacks: Vec::new(), timers: Vec::new(), next_handle: INVALID_HANDLE + 1 }
    }

    /// Schedules `callback` to fire once `delay` ticks after `now`, and returns
    /// the handle that cancels it.
    pub fn schedule(&mut self, now: u64, delay: u64, callback: C) -> (r: u64)
        requires
            old(self).wf(),
            old(self).next_handle() < u64::MAX,
        ensures
            final(self).wf(),
            r == old(self).next_handle(),
            r != INVALID_HANDLE,
            !has_handle(old(self).timers(), r),
            final(self).next_handle() == old(self).next_handle() + 1,
            final(self).callbacks() == old(self).callbacks(),
            final(self).timers() == old(self).timers().push(
                (Timer { handle: r, scheduled: deadline(now, delay), callback }),
            ),
    {
        let handle = self.next_handle;
        let scheduled = if delay > u64::MAX - now {
            u64::MAX
        } else {
            now + delay
        };
        self.timers.push(Timer { handle, scheduled, callback });
        self.next_handle = handle + 1;
        proof {
            let ts = self.timers@;
            assert forall|a: int, b: int|
                0 <= a < ts.len() && 0 <= b < ts.len() && a != b implies #[trigger] ts[a].handle
                    != #[trigger] ts[b].handle by {
                if a < ts.len() - 1 {
                    assert(ts[a] == old(self).timers()[a]);
                }
                if b < ts.len() - 1 {
                    assert(ts[b] == old(self).timers()[b]);
                }
            }
            assert forall|a: int|
                0 <= a < ts.len() implies INVALID_HANDLE < #[trigger] ts[a].handle < handle + 1 by {
                if a < ts.len() - 1 {
                    assert(ts[a] == old(self).timers()[a]);
                }
            }
        }
        handle
    }

    /// Cancels the timer `handle` and returns its callback, unrun. A handle that
    /// already fired or was cancelled changes nothing.
    pub fn unschedule(&mut self, handle: u64) -> (r: Option<C>)
        requires
            old(self).wf(),
        ensures
            final(self).wf(),
            final(self).next_handle() == old(self).next_handle(),
            final(self).callbacks() == old(self).callbacks(),
            !has_handle(final(self).timers(), handle),
            !has_handle(old(self).timers(), handle) ==> r is None && final(self).timers() == old(self).timers(),
            has_handle(old(self).timers(), handle) ==> exists|i: int|
                0 <= i < old(self).timers().len() && old(self).timers()[i].handle == handle
                    && r == Some(old(self).timers()[i].callback) && final(self).timers() == old(self).timers().remove(i),
    {
        let mut i: usize = 0;
        while i < self.timers.len()
            invariant
                self.wf(),
                self.timers@ == old(self).timers(),
                self.callbacks@ == old(self).callbacks(),
                self.next_handle == old(self).next_handle(),
                i <= self.timers@.len(),
                forall|j: int| 0 <= j < i ==> self.timers@[j].handle != handle,
            decreases self.timers@.len() - i,
        {
            if self.timers[i].handle == handle {
                let ghost before = self.timers@;
                let t = self.timers.remove(i);
                proof {
                    let after = self.timers@;
                    assert forall|a: int, b: int|
                        0 <= a < after.len() && 0 <= b < after.len() && a != b implies #[trigger] after[a].handle
                            != #[trigger] after[b].handle by {
                        let a0 = if a < i { a } else { a + 1 };
                        let b0 = if b < i { b } else { b + 1 };
                        assert(after[a] == before[a0] && after[b] == before[b0]);
                    }
                    assert forall|a: int|
                        0 <= a < after.len() implies INVALID_HANDLE < #[trigger] after[a].handle
                        < self.next_handle by {
                        let a0 = if a < i { a } else { a + 1 };
                        assert(after[a] == before[a0]);
                    }
                    assert forall|a: int| 0 <= a < after.len() implies #[trigger] after[a].handle
                        != handle by {
                        let a0 = if a < i { a } else { a + 1 };
                        assert(after[a] == before[a0]);
                    }
                }
                return Some(t.callback);
            }
            i = i + 1;
        }
        None
    }

    /// Whether another timer can still receive a fresh handle.
    pub fn has_free_handle(&self) -> (r: bool)
        ensures
            r == (self.next_handle() < u64::MAX),
    {
        self.next_handle < u64::MAX
    }

    /// Queues `callback` to run on the next drain pass.
    pub fn send(&mut self, callback: C)
        requires
            old(self).wf(),
        ensures
            final(self).wf(),
            final(self).next_handle() == old(self).next_handle(),
            final(self).timers() == old(self).timers(),
            final(self).callbacks() == old(self).callbacks().push(callback),
    {
        self.callbacks.push(callback);
    }

    /// Whether any timer is still scheduled, so the wake primitive must be re-armed.
    pub fn has_timers(&self) -> (r: bool)
        ensures
            r == (self.timers().len() > 0),
    {
        self.timers.len() > 0
    }

    /// Whether an immediate callback is waiting.
    pub fn has_callbacks(&self) -> (r: bool)
        ensures
            r == (self.callbacks().len() > 0),
    {
        self.callbacks.len() > 0
    }
}


/// Where a timer due at `scheduled` goes in a time-sorted list: after every
/// entry due no later, before every entry due later.
fn insertion_point<C>(timers: &Vec<Timer<C>>, scheduled: u64) -> (p: usize)
    requires
        sorted_by_time(timers@),
    ensures
        p <= timers@.len(),
        forall|a: int| 0 <= a < p ==> #[trigger] timers@[a].scheduled <= scheduled,
        forall|a: int| p <= a < timers@.len() ==> #[trigger] timers@[a].scheduled > scheduled,
{
    let mut i: usize = 0;
    while i < timers.len()
        invariant
            sorted_by_time(timers@),
            i <= timers@.len(),
            forall|a: int| 0 <= a < i ==> #[trigger] timers@[a].scheduled <= scheduled,
        decreases timers@.len() - i,
    {
        if timers[i].scheduled > scheduled {
            assert forall|a: int| i <= a < timers@.len() implies #[trigger] timers@[a].scheduled
                > scheduled by {
                if a > i {
                    assert(timers@[i as int].scheduled <= timers@[a].scheduled);
                }
            }
            return i;
        }
        i = i + 1;
    }
    i
}

impl<C> RunLoopState<C> {
    /// Takes out, in one step, every queued callback and every timer due at
    /// `now`, so that nothing queued during their execution runs in this pass.
    ///
    /// The callbacks keep their arrival order; the due timers come sorted by
    /// the instant they were due at.
    pub fn take_pending(&mut self, now: u64) -> (r: PendingExecution<C>)
        requires
            old(self).wf(),
        ensures
            final(self).wf(),
            final(self).next_handle() == old(self).next_handle(),
            final(self).callbacks() == Seq::<C>::empty(),
            r.callbacks@ == old(self).callbacks(),
            final(self).timers() == waiting_timers(old(self).timers(), now),
            r.timers@.to_multiset() == due_timers(old(self).timers(), now).to_multiset(),
            sorted_by_time(r.timers@),
    {
        let mut callbacks: Vec<C> = Vec::new();
        std::mem::swap(&mut callbacks, &mut self.callbacks);
        let ghost orig = self.timers@;
        proof {
            assert(self.timers.len() <= usize::MAX);
        }
        let mut due: Vec<Timer<C>> = Vec::new();
        let mut i: usize = 0;
        let mut k: usize = 0;
        while i < self.timers.len()
            invariant
                self.next_handle == old(self).next_handle(),
                self.callbacks@ == Seq::<C>::empty(),
                callbacks@ == old(self).callbacks(),
                orig == old(self).timers(),
                timers_wf(orig, self.next_handle),
                k <= orig.len() <= usize::MAX,
                self.timers@ == waiting_timers(orig.take(k as int), now) + orig.skip(k as int),
                i == waiting_timers(orig.take(k as int), now).len(),
                sorted_by_time(due@),
                due@.to_multiset() == due_timers(orig.take(k as int), now).to_multiset(),
            decreases orig.len() - k,
        {
            proof {
                assert(k < orig.len());
                assert(orig.take(k as int + 1).drop_last() =~= orig.take(k as int));
                assert(orig.take(k as int + 1).last() == orig[k as int]);
                assert(self.timers@[i as int] == orig.skip(k as int)[0]);
            }
            if self.timers[i].scheduled <= now {
                let t = self.timers.remove(i);
                let p = insertion_point(&due, t.scheduled);
                let ghost d0 = due@;
                let ghost tg = t;
                due.insert(p, t);
                proof {
                    broadcast use vstd::seq_lib::group_to_multiset_ensures;

                    assert(self.timers@ =~= waiting_timers(orig.take(k as int + 1), now) + orig.skip(
                        k as int + 1,
                    ));
                    lemma_insert_multiset(d0, p as int, tg);
                    assert(due_timers(orig.take(k as int + 1), now) == due_timers(
                        orig.take(k as int),
                        now,
                    ).push(tg));
                    assert forall|a: int, b: int|
                        0 <= a < b < due@.len() implies #[trigger] due@[a].scheduled
                        <= #[trigger] due@[b].scheduled by {
                        let a0 = if a < p { a } else if a == p { -1 } else { a - 1 };
                        let b0 = if b < p { b } else if b == p { -1 } else { b - 1 };
                        if a0 >= 0 {
                            assert(due@[a] == d0[a0]);
                        }
                        if b0 >= 0 {
                            assert(due@[b] == d0[b0]);
                        }
                    }
                }
            } else {
                proof {
                    assert(self.timers@ =~= waiting_timers(orig.take(k as int + 1), now) + orig.skip(
                        k as int + 1,
                    ));
                }
                i = i + 1;
            }
            k = k + 1;
        }
        proof {
            assert(orig.skip(k as int).len() == 0);
            assert(orig.take(k as int) =~= orig);
            assert(self.timers@ =~= waiting_timers(orig, now));
            lemma_waiting_wf(orig, now, self.next_handle);
        }
        PendingExecution { callbacks, timers: due }
    }
}


impl<C> RunLoopState<C> {
    /// The instant the loop must wake at next: `now` when a callback is queued,
    /// else the earliest scheduled instant, or `None` when nothing is pending.
    pub fn next_instant(&self, now: u64) -> (r: Option<u64>)
        ensures
            self.callbacks().len() > 0 ==> r == Some(now),
            self.callbacks().len() == 0 && self.timers().len() == 0 ==> r is None,
            self.callbacks().len() == 0 && self.timers().len() > 0 ==> r is Some && (exists|i: int|
                0 <= i < self.timers().len() && #[trigger] self.timers()[i].scheduled == r->0)
                && forall|i: int|
                0 <= i < self.timers().len() ==> r->0 <= #[trigger] self.timers()[i].scheduled,
    {
        if self.callbacks.len() > 0 {
            return Some(now);
        }
        if self.timers.len() == 0 {
            return None;
        }
        let mut min = self.timers[0].scheduled;
        let mut i: usize = 1;
        while i < self.timers.len()
            invariant
                1 <= i <= self.timers@.len(),
                exists|j: int| 0 <= j < i && #[trigger] self.timers@[j].scheduled == min,
                forall|j: int| 0 <= j < i ==> min <= #[trigger] self.timers@[j].scheduled,
            decreases self.timers@.len() - i,
        {
            if self.timers[i].scheduled < min {
                min = self.timers[i].scheduled;
            }
            i = i + 1;
        }
        Some(min)
    }
}

/// A drain pass at `now` fires every due timer exactly once, none before it
/// was due, in order of their instants; every timer left for later passes is
/// due strictly after all of them. Timers scheduled later fall due no earlier
/// than the instant they were scheduled at (see [`deadline`]), so across passes
/// at increasing instants timers fire in the order of their instants.
pub proof fn lemma_drain_fires_in_time_order<C>(
    before: RunLoopState<C>,
    now: u64,
    after: RunLoopState<C>,
    fired: Seq<Timer<C>>,
)
    requires
        before.wf(),
        after.timers() == waiting_timers(before.timers(), now),
        fired.to_multiset() == due_timers(before.timers(), now).to_multiset(),
        sorted_by_time(fired),
    ensures
        forall|j: int|
            0 <= j < fired.len() ==> #[trigger] before.timers().contains(fired[j]) && is_due(
                fired[j],
                now,
            ),
        forall|x: Timer<C>| before.timers().contains(x) && is_due(x, now) ==> #[trigger] fired.contains(x),
        fired.len() == due_timers(before.timers(), now).len(),
        forall|a: int, b: int| 0 <= a < b < fired.len() ==> fired[a].scheduled <= fired[b].scheduled,
        forall|j: int, w: int|
            0 <= j < fired.len() && 0 <= w < after.timers().len() ==> #[trigger] fired[j].scheduled
                < #[trigger] after.timers()[w].scheduled,
        forall|x: Timer<C>|
            #[trigger] after.timers().contains(x) <==> before.timers().contains(x) && !is_due(x, now),
{
    broadcast use vstd::seq_lib::group_to_multiset_ensures;

    lemma_waiting_members(before.timers(), now);
    let due = due_timers(before.timers(), now);
    assert(fired.len() == fired.to_multiset().len());
    assert(due.len() == due.to_multiset().len());
    assert forall|j: int| 0 <= j < fired.len() implies #[trigger] before.timers().contains(fired[j])
        && is_due(fired[j], now) by {
        assert(fired.contains(fired[j]));
        assert(fired.to_multiset().count(fired[j]) > 0);
        assert(due.contains(fired[j]));
    }
    assert forall|x: Timer<C>| before.timers().contains(x) && is_due(x, now) implies #[trigger] fired.contains(
        x,
    ) by {
        assert(due.contains(x));
        assert(due.to_multiset().count(x) > 0);
    }
    assert forall|j: int, w: int|
        0 <= j < fired.len() && 0 <= w < after.timers().len() implies #[trigger] fired[j].scheduled
        < #[trigger] after.timers()[w].scheduled by {
        assert(fired.contains(fired[j]));
        assert(fired.to_multiset().count(fired[j]) > 0);
        assert(due.contains(fired[j]));
        assert(after.timers().contains(after.timers()[w]));
    }
}

/// Across two drain passes, every timer the later pass fires is due no earlier
/// than any timer the earlier pass fired, provided that the timers added in
/// between were scheduled at or after the earlier pass's instant.
pub proof fn lemma_later_pass_fires_later<C>(
    first: RunLoopState<C>,
    now1: u64,
    drained: RunLoopState<C>,
    fired1: Seq<Timer<C>>,
    second: RunLoopState<C>,
    now2: u64,
    fired2: Seq<Timer<C>>,
)
    requires
        first.wf(),
        drained.timers() == waiting_timers(first.timers(), now1),
        fired1.to_multiset() == due_timers(first.timers(), now1).to_multiset(),
        forall|w: int|
            0 <= w < second.timers().len() ==> drained.timers().contains(#[trigger] second.timers()[w])
                || now1 <= second.timers()[w].scheduled,
        fired2.to_multiset() == due_timers(second.timers(), now2).to_multiset(),
    ensures
        forall|a: int, b: int|
            0 <= a < fired1.len() && 0 <= b < fired2.len() ==> #[trigger] fired1[a].scheduled
                <= #[trigger] fired2[b].scheduled,
{
    broadcast use vstd::seq_lib::group_to_multiset_ensures;

    lemma_waiting_members(first.timers(), now1);
    lemma_waiting_members(second.timers(), now2);
    assert forall|a: int, b: int|
        0 <= a < fired1.len() && 0 <= b < fired2.len() implies #[trigger] fired1[a].scheduled
        <= #[trigger] fired2[b].scheduled by {
        assert(fired1.contains(fired1[a]));
        assert(fired1.to_multiset().count(fired1[a]) > 0);
        assert(due_timers(first.timers(), now1).contains(fired1[a]));
        assert(fired2.contains(fired2[b]));
        assert(fired2.to_multiset().count(fired2[b]) > 0);
        assert(due_timers(second.timers(), now2).contains(fired2[b]));
        let w = choose|w: int| 0 <= w < second.timers().len() && second.timers()[w] == fired2[b];
        if drained.timers().contains(second.timers()[w]) {
            assert(!is_due(fired2[b], now1));
        }
    }
}

/// A timer scheduled at `now` with `delay` never fires before `now + delay`:
/// a pass fires it only at an instant at or past its deadline, and the
/// deadline is `now + delay` whenever that fits the clock.
pub proof fn lemma_never_fires_early<C>(timer: Timer<C>, scheduled_at: u64, delay: u64, fired_at: u64)
    requires
        timer.scheduled == deadline(scheduled_at, delay),
        scheduled_at + delay <= u64::MAX,
        is_due(timer, fired_at),
    ensures
        fired_at >= scheduled_at + delay,
{
}

/// A timer cancelled before a drain pass is not fired by it, nor by any later
/// pass: the cancelled handle is gone and new timers get fresh handles.
pub proof fn lemma_cancelled_never_fires<C>(
    cancelled: RunLoopState<C>,
    handle: u64,
    now: u64,
    after: RunLoopState<C>,
    fired: Seq<Timer<C>>,
)
    requires
        cancelled.wf(),
        !has_handle(cancelled.timers(), handle),
        after.timers() == waiting_timers(cancelled.timers(), now),
        fired.to_multiset() == due_timers(cancelled.timers(), now).to_multiset(),
    ensures
        forall|j: int| 0 <= j < fired.len() ==> (#[trigger] fired[j]).handle != handle,
        !has_handle(after.timers(), handle),
{
    broadcast use vstd::seq_lib::group_to_multiset_ensures;

    lemma_waiting_members(cancelled.timers(), now);
    let due = due_timers(cancelled.timers(), now);
    assert forall|j: int| 0 <= j < fired.len() implies (#[trigger] fired[j]).handle != handle by {
        assert(fired.contains(fired[j]));
        assert(fired.to_multiset().count(fired[j]) > 0);
        assert(due.contains(fired[j]));
        let b = choose|b: int|
            0 <= b < cancelled.timers().len() && cancelled.timers()[b] == fired[j];
        assert(cancelled.timers()[b].handle == fired[j].handle);
    }
    assert forall|w: int| 0 <= w < after.timers().len() implies #[trigger] after.timers()[w].handle
        != handle by {
        assert(after.timers().contains(after.timers()[w]));
        let b = choose|b: int|
            0 <= b < cancelled.timers().len() && cancelled.timers()[b] == after.timers()[w];
        assert(cancelled.timers()[b].handle == after.timers()[w].handle);
    }
}

} // verus!
