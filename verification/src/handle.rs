use vstd::prelude::*;

verus! {

/// An opaque, copyable identifier for a spawned task.
///
/// Handles are issued by a [`HandleAllocator`] in strictly increasing order,
/// so no two tasks of the same runtime ever share a handle.
#[derive(Clone, Copy, PartialEq, Eq, Structural, Hash, Debug)]
pub struct FutureHandle {
    id: usize,
}

impl FutureHandle {
    /// The numeric identity of this handle.
    pub closed spec fn id_spec(self) -> usize {
        self.id
    }

    /// The handle carrying identity `id`.
    pub closed spec fn from_id(id: usize) -> FutureHandle {
        FutureHandle { id }
    }

    /// Draws a fresh handle from `alloc`.
    ///
    /// The handle carries the allocator's current counter value, so handles
    /// from one allocator never repeat.
    pub fn new(alloc: &mut HandleAllocator) -> (h: FutureHandle)
        requires
            old(alloc).next_spec() < usize::MAX,
        ensures
            h == FutureHandle::from_id(old(alloc).next_spec()),
            h.id_spec() == old(alloc).next_spec(),
            final(alloc).next_spec() == old(alloc).next_spec() + 1,
    {
        let h = FutureHandle { id: alloc.next };
        alloc.next = alloc.next + 1;
        h
    }

    /// Returns the numeric identity of this handle.
    pub fn id(self) -> (r: usize)
        ensures
            r == self.id_spec(),
    {
        self.id
    }
}

/// Issues strictly increasing, never repeating task handles.
///
/// Exhausting the counter is treated as a fatal condition: `FutureHandle::new`
/// requires that the counter has not reached its maximum, and the runtime
/// carries that requirement through to `spawn`.
pub struct HandleAllocator {
    next: usize,
}

impl HandleAllocator {
    /// The identity that the next issued handle will carry.
    pub closed spec fn next_spec(self) -> usize {
        self.next
    }

    /// A fresh allocator whose first handle carries identity `0`.
    pub fn new() -> (r: HandleAllocator)
        ensures
            r.next_spec() == 0,
    {
        HandleAllocator { next: 0 }
    }
}

/// Handles drawn later are distinct from every handle drawn earlier: an
/// identity below the allocator's counter is never issued again.
pub proof fn lemma_handles_never_repeat(issued: FutureHandle, next: usize, later: FutureHandle)
    requires
        issued.id_spec() < next,
        later.id_spec() >= next,
    ensures
        issued != later,
{
}

/// A handle is nothing but its identity: equal identities mean equal handles,
/// and `from_id` inverts `id_spec`.
pub broadcast proof fn lemma_handle_identity(h: FutureHandle)
    ensures
        #[trigger] FutureHandle::from_id(h.id_spec()) == h,
{
}

/// The identity carried by `from_id(id)` is `id` itself.
pub broadcast proof fn lemma_from_id(id: usize)
    ensures
        #[trigger] FutureHandle::from_id(id).id_spec() == id,
{
}

} // verus!
