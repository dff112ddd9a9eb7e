use coop_runtime::handle::{FutureHandle, HandleAllocator};
use coop_runtime::ready::ReadySet;
use coop_runtime::runtime::Runtime;
use coop_runtime::tasks::{CountDown, Forgetful, Immediate, NoisyCountDown};
use coop_runtime::waker::Waker;

#[test]
fn spawn_immediately_ready_leaves_store_empty() {
    // An immediately completing task is removed before `spawn` returns,
    // without any run loop pass.
    let mut rt: Runtime<Immediate> = Runtime::new();
    rt.spawn(Immediate::new());
    assert_eq!(rt.store_len(), 0);
    assert_eq!(rt.polls_made(), 1);
}

#[test]
fn completed_task_is_never_polled_again() {
    let mut rt: Runtime<Immediate> = Runtime::new();
    rt.spawn(Immediate::new());
    assert_eq!(rt.polls_made(), 1);

    // Re-deriving the same handle identity and polling it is a no-op: the
    // entry is gone and nothing re-inserts it.
    let mut alloc = HandleAllocator::new();
    let first_handle = FutureHandle::new(&mut alloc);
    rt.poll_future_by_handle(first_handle);
    assert_eq!(rt.store_len(), 0);
    assert_eq!(rt.polls_made(), 1);
}

#[test]
fn waking_a_completed_task_is_harmless() {
    let mut rt: Runtime<CountDown> = Runtime::new();
    rt.spawn(CountDown::new(0));
    assert_eq!(rt.store_len(), 0);

    // Trigger a stale wake signal for the completed task's handle, then
    // drain: the handle is queued but finds no task, so nothing happens.
    let mut alloc = HandleAllocator::new();
    let stale = Waker::new_wrapped(FutureHandle::new(&mut alloc));
    let mut ready = ReadySet::new();
    stale.wake_by_ref(&mut ready);
    stale.wake(&mut ready);

    rt.poll_future_by_handle(stale.into_raw());
    assert_eq!(rt.store_len(), 0);
    assert_eq!(rt.polls_made(), 1);
    rt.runloop();
    assert_eq!(rt.store_len(), 0);
    assert_eq!(rt.polls_made(), 1);
}

#[test]
fn duplicate_triggers_collapse_in_ready_set() {
    let mut alloc = HandleAllocator::new();
    let h = FutureHandle::new(&mut alloc);
    let w = Waker::new_wrapped(h);

    let mut ready = ReadySet::new();
    assert!(ready.is_empty());
    w.wake_by_ref(&mut ready);
    w.wake_by_ref(&mut ready);
    w.wake_by_ref(&mut ready);
    assert_eq!(ready.len(), 1);
    assert!(ready.contains(h));

    let other = FutureHandle::new(&mut alloc);
    Waker::new_wrapped(other).wake(&mut ready);
    assert_eq!(ready.len(), 2);

    let batch = ready.take();
    assert!(ready.is_empty());
    assert_eq!(batch.len(), 2);
}

#[test]
fn task_woken_many_times_is_polled_once_per_drain() {
    // Three triggers per suspension; one suspension. The drain pass after
    // spawning must poll the task exactly once, so the total is two polls.
    let mut rt: Runtime<NoisyCountDown> = Runtime::new();
    rt.spawn(NoisyCountDown::new(1, 3));
    assert_eq!(rt.store_len(), 1);
    rt.runloop();
    assert_eq!(rt.store_len(), 0);
    assert_eq!(rt.polls_made(), 2);
}

#[test]
fn countdown_three_is_polled_exactly_four_times() {
    let mut rt: Runtime<CountDown> = Runtime::new();
    rt.spawn(CountDown::new(3));
    assert_eq!(rt.store_len(), 1);
    rt.runloop();
    assert_eq!(rt.store_len(), 0);
    assert!(rt.ready_is_empty());
    assert_eq!(rt.polls_made(), 4);
}

#[test]
fn two_countdowns_total_nine_polls() {
    // 2 and 5 suspensions: (2 + 1) + (5 + 1) = 9 polls in total, whatever
    // the interleaving.
    let mut rt: Runtime<CountDown> = Runtime::new();
    rt.spawn(CountDown::new(2));
    rt.spawn(CountDown::new(5));
    assert_eq!(rt.store_len(), 2);
    rt.runloop();
    assert_eq!(rt.store_len(), 0);
    assert_eq!(rt.polls_made(), 9);
}

#[test]
fn external_wake_revives_an_unwoken_task() {
    // A task that forgets its signal can still be driven from outside: any
    // holder of a wake signal for its handle may queue it between passes.
    let mut rt: Runtime<Forgetful> = Runtime::new();
    rt.spawn(Forgetful::new(1));
    assert_eq!(rt.store_len(), 1);

    let mut alloc = HandleAllocator::new();
    let w = Waker::new_wrapped(FutureHandle::new(&mut alloc));
    rt.wake(&w);
    assert!(!rt.ready_is_empty());
    rt.runloop();
    assert_eq!(rt.store_len(), 0);
    assert_eq!(rt.polls_made(), 2);
}

#[test]
fn runloop_stops_when_no_task_is_woken() {
    // A pending task that drops its wake signal sits in the store; the run
    // loop finds an empty ready set after its first check and stops rather
    // than spin.
    let mut rt: Runtime<Forgetful> = Runtime::new();
    rt.spawn(Forgetful::new(1));
    assert_eq!(rt.store_len(), 1);
    rt.runloop();
    assert_eq!(rt.store_len(), 1);
    assert_eq!(rt.polls_made(), 1);
}

#[test]
fn runloop_on_empty_runtime_returns_at_once() {
    let mut rt: Runtime<CountDown> = Runtime::default();
    rt.runloop();
    assert_eq!(rt.store_len(), 0);
    assert_eq!(rt.polls_made(), 0);
}

#[test]
fn handles_are_issued_in_increasing_order() {
    let mut alloc = HandleAllocator::new();
    let a = FutureHandle::new(&mut alloc);
    let b = FutureHandle::new(&mut alloc);
    let c = FutureHandle::new(&mut alloc);
    assert_eq!(a.id(), 0);
    assert_eq!(b.id(), 1);
    assert_eq!(c.id(), 2);
    assert_ne!(a, b);
    assert_ne!(b, c);

    let w = Waker::new_wrapped(b);
    assert_eq!(w.into_raw(), b);
}
