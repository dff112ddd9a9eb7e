use crate::ready::ReadySet;
use crate::runtime::{self_driving, Poll, Task};
use crate::waker::Waker;
use vstd::prelude::*;

verus! {

/// A workload that suspends a fixed number of times before completing.
///
/// Each poll with a positive count decrements it by one and triggers the
/// workload's own wake signal once, so the next drain pass polls it again; a
/// poll at zero completes. Starting from `n`, a run loop that drives it to
/// completion polls it exactly `n + 1` times.
pub struct CountDown {
    /// How many suspensions are left before completion.
    pub remaining: usize,
}

impl CountDown {
    /// A countdown over `n` suspensions.
    pub fn new(n: usize) -> (t: CountDown)
        ensures
            t.remaining == n,
    {
        CountDown { remaining: n }
    }
}

/// A countdown drives itself to completion: every suspension re-triggers its
/// own wake signal, and the chain is finite.
pub proof fn lemma_countdown_self_driving(c: CountDown)
    ensures
        self_driving(c),
    decreases c.remaining,
{
    if !c.completes() {
        lemma_countdown_self_driving(c.step());
    }
}

impl Task for CountDown {
    open spec fn rank(&self) -> nat {
        self.remaining as nat
    }

    open spec fn completes(&self) -> bool {
        self.remaining == 0
    }

    open spec fn step(&self) -> CountDown {
        CountDown { remaining: (self.remaining - 1) as usize }
    }

    open spec fn wakes(&self) -> bool {
        true
    }

    fn poll(&mut self, waker: &Waker, ready: &mut ReadySet) -> (r: Poll) {
        if self.remaining == 0 {
            Poll::Ready
        } else {
            self.remaining = self.remaining - 1;
            waker.wake_by_ref(ready);
            Poll::Pending
        }
    }
}

/// A countdown that triggers its wake signal several times per suspension.
///
/// Duplicate triggers collapse in the ready set, so each drain pass still
/// polls the workload exactly once however often it asked. With no triggers
/// at all it never asks, like [`Forgetful`].
pub struct NoisyCountDown {
    /// How many suspensions are left before completion.
    pub remaining: usize,
    /// How often the wake signal is triggered on each suspension.
    pub triggers_per_poll: usize,
}

impl NoisyCountDown {
    /// A countdown over `n` suspensions that triggers its signal
    /// `triggers_per_poll` times on every suspension.
    pub fn new(n: usize, triggers_per_poll: usize) -> (t: NoisyCountDown)
        ensures
            t.remaining == n,
            t.triggers_per_poll == triggers_per_poll,
    {
        NoisyCountDown { remaining: n, triggers_per_poll }
    }
}

/// A noisy countdown with at least one trigger per suspension drives itself
/// to completion just like the plain one.
pub proof fn lemma_noisy_countdown_self_driving(c: NoisyCountDown)
    requires
        c.triggers_per_poll > 0,
    ensures
        self_driving(c),
    decreases c.remaining,
{
    if !c.completes() {
        lemma_noisy_countdown_self_driving(c.step());
    }
}

impl Task for NoisyCountDown {
    open spec fn rank(&self) -> nat {
        self.remaining as nat
    }

    open spec fn completes(&self) -> bool {
        self.remaining == 0
    }

    open spec fn step(&self) -> NoisyCountDown {
        NoisyCountDown {
            remaining: (self.remaining - 1) as usize,
            triggers_per_poll: self.triggers_per_poll,
        }
    }

    open spec fn wakes(&self) -> bool {
        self.triggers_per_poll > 0
    }

    fn poll(&mut self, waker: &Waker, ready: &mut ReadySet) -> (r: Poll) {
        if self.remaining == 0 {
            Poll::Ready
        } else {
            self.remaining = self.remaining - 1;
            let ghost pre = ready.view();
            let mut i: usize = 0;
            while i < self.triggers_per_poll
                invariant
                    pre == old(ready).view(),
                    i <= self.triggers_per_poll,
                    ready.wf(),
                    ready.view() == (if i == 0 {
                        pre
                    } else {
                        pre.insert(waker.handle_spec())
                    }),
                decreases self.triggers_per_poll - i,
            {
                waker.wake_by_ref(ready);
                proof {
                    assert(ready.view() =~= pre.insert(waker.handle_spec()));
                }
                i = i + 1;
            }
            Poll::Pending
        }
    }
}

/// A workload that suspends without storing or triggering its wake signal.
///
/// Nothing ever queues it again from the inside, so after its first poll it
/// sits inertly in the store — the blocked condition on which the run loop
/// stops — unless some outside holder of its signal wakes it through
/// [`crate::runtime::Runtime::wake`].
pub struct Forgetful {
    /// How many suspensions are left before completion.
    pub remaining: usize,
}

impl Forgetful {
    /// A workload that will suspend `n` times, never asking to be woken.
    pub fn new(n: usize) -> (t: Forgetful)
        ensures
            t.remaining == n,
    {
        Forgetful { remaining: n }
    }
}

impl Task for Forgetful {
    open spec fn rank(&self) -> nat {
        self.remaining as nat
    }

    open spec fn completes(&self) -> bool {
        self.remaining == 0
    }

    open spec fn step(&self) -> Forgetful {
        Forgetful { remaining: (self.remaining - 1) as usize }
    }

    open spec fn wakes(&self) -> bool {
        false
    }

    fn poll(&mut self, _waker: &Waker, _ready: &mut ReadySet) -> (r: Poll) {
        if self.remaining == 0 {
            Poll::Ready
        } else {
            self.remaining = self.remaining - 1;
            Poll::Pending
        }
    }
}

/// A workload that completes on its very first poll, never using its wake
/// signal: the shape of a computation that finishes synchronously. Spawning
/// it leaves no trace in the store even before any run loop pass.
pub struct Immediate {}

impl Immediate {
    /// A task that will complete as soon as it is polled.
    pub fn new() -> (t: Immediate) {
        Immediate {  }
    }
}

impl Task for Immediate {
    open spec fn rank(&self) -> nat {
        0
    }

    open spec fn completes(&self) -> bool {
        true
    }

    open spec fn step(&self) -> Immediate {
        Immediate {  }
    }

    open spec fn wakes(&self) -> bool {
        false
    }

    fn poll(&mut self, _waker: &Waker, _ready: &mut ReadySet) -> (r: Poll) {
        Poll::Ready
    }
}

} // verus!
