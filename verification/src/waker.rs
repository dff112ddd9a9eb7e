use crate::handle::FutureHandle;
use crate::ready::ReadySet;
use vstd::prelude::*;

verus! {

/// A per-task wake signal.
///
/// A waker carries the handle of the task it belongs to; triggering it records
/// that handle into the runtime's ready set, which is all a cooperative
/// scheduler needs to know to reconsider a task. The ready set is passed to
/// the trigger explicitly, so a task can ask to be re-polled without holding
/// any reference to the runtime itself.
///
/// Wakers are freely copyable: every copy made for the same handle is
/// interchangeable, since triggering any of them inserts the same handle.
#[derive(Clone, Copy, PartialEq, Eq, Structural, Debug)]
pub struct Waker {
    handle: FutureHandle,
}

impl Waker {
    /// The handle this signal is bound to.
    pub closed spec fn handle_spec(self) -> FutureHandle {
        self.handle
    }

    /// Binds a new wake signal to `handle`.
    pub fn new_wrapped(handle: FutureHandle) -> (w: Waker)
        ensures
            w.handle_spec() == handle,
    {
        Waker { handle }
    }

    /// Unwraps the signal into the raw handle it carries.
    pub fn into_raw(self) -> (h: FutureHandle)
        ensures
            h == self.handle_spec(),
    {
        self.handle
    }

    /// Triggers the signal, consuming it: queues the bound handle in `ready`.
    ///
    /// Triggering is harmless when the task has already completed: the handle
    /// is queued, but the next drain pass finds no task under it and does
    /// nothing. Nothing here, or anywhere else, re-inserts a task.
    pub fn wake(self, ready: &mut ReadySet)
        requires
            old(ready).wf(),
        ensures
            final(ready).wf(),
            final(ready).view() == old(ready).view().insert(self.handle_spec()),
    {
        ready.insert(self.handle);
    }

    /// Triggers the signal without consuming it; otherwise identical to
    /// [`Waker::wake`].
    pub fn wake_by_ref(&self, ready: &mut ReadySet)
        requires
            old(ready).wf(),
        ensures
            final(ready).wf(),
            final(ready).view() == old(ready).view().insert(self.handle_spec()),
    {
        ready.insert(self.handle);
    }
}

/// Duplicate suppression: triggering a wake signal any number of times before
/// the next drain pass queues its handle exactly once, because insertion into
/// the ready set is idempotent.
pub proof fn lemma_duplicate_wake_collapses(queued: Set<FutureHandle>, h: FutureHandle)
    ensures
        queued.insert(h).insert(h) == queued.insert(h),
{
    assert(queued.insert(h).insert(h) =~= queued.insert(h));
}

} // verus!
