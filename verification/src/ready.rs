use crate::handle::FutureHandle;
use vstd::prelude::*;

verus! {

/// The set of task handles that are due for re-polling on the next drain pass.
///
/// Duplicates collapse: waking an already-queued handle changes nothing, so a
/// drain pass polls each woken task at most once. The container is a vector
/// without repeated elements, viewed as the set of handles it holds; the
/// vector also fixes the deterministic order in which a drain pass walks a
/// snapshot.
pub struct ReadySet {
    handles: Vec<FutureHandle>,
}

impl ReadySet {
    /// The handles queued for the next drain pass, as a set.
    pub closed spec fn view(self) -> Set<FutureHandle> {
        self.handles@.to_set()
    }

    /// The queue holds each handle at most once.
    pub closed spec fn wf(self) -> bool {
        self.handles@.no_duplicates()
    }

    /// An empty ready set.
    pub fn new() -> (r: ReadySet)
        ensures
            r.wf(),
            r.view() == Set::<FutureHandle>::empty(),
    {
        let r = ReadySet { handles: Vec::new() };
        proof {
            assert(r.view() =~= Set::<FutureHandle>::empty());
        }
        r
    }

    /// Whether `h` is already queued.
    pub fn contains(&self, h: FutureHandle) -> (r: bool)
        ensures
            r == self.view().contains(h),
    {
        let mut i: usize = 0;
        while i < self.handles.len()
            invariant
                i <= self.handles.len(),
                forall|j: int| 0 <= j < i ==> self.handles@[j] != h,
            decreases self.handles.len() - i,
        {
            if self.handles[i] == h {
                proof {
                    assert(self.handles@.contains(h));
                    assert(self.view().contains(h));
                }
                return true;
            }
            i = i + 1;
        }
        proof {
            assert(!self.handles@.contains(h));
            assert(!self.view().contains(h));
        }
        false
    }

    /// Queues `h` for the next drain pass.
    ///
    /// Set semantics make this idempotent: inserting a handle that is already
    /// queued leaves the set unchanged, which is what suppresses duplicate
    /// wake-ups within one pass.
    pub fn insert(&mut self, h: FutureHandle)
        requires
            old(self).wf(),
        ensures
            final(self).wf(),
            final(self).view() == old(self).view().insert(h),
    {
        if !self.contains(h) {
            let ghost pre = self.handles@;
            self.handles.push(h);
            proof {
                let post = self.handles@;
                assert forall|x: FutureHandle|
                    post.contains(x) <==> (pre.contains(x) || x == h) by {
                    if pre.contains(x) {
                        let i = choose|i: int| 0 <= i < pre.len() && pre[i] == x;
                        assert(post[i] == x);
                    }
                    if x == h {
                        assert(post[pre.len() as int] == x);
                    }
                    if post.contains(x) {
                        let i = choose|i: int| 0 <= i < post.len() && post[i] == x;
                        if i < pre.len() {
                            assert(pre[i] == x);
                        }
                    }
                }
                assert(self.view() =~= old(self).view().insert(h));
                assert forall|i: int, j: int|
                    0 <= i < post.len() && 0 <= j < post.len() && i != j
                    implies post[i] != post[j] by {
                    if i < pre.len() && j < pre.len() {
                        assert(pre[i] != pre[j]);
                    } else if i < pre.len() {
                        assert(pre.contains(pre[i]));
                    } else if j < pre.len() {
                        assert(pre.contains(pre[j]));
                    }
                }
            }
        } else {
            proof {
                assert(self.view() =~= old(self).view().insert(h));
            }
        }
    }

    /// Whether no handle is queued.
    pub fn is_empty(&self) -> (r: bool)
        ensures
            r == self.view().is_empty(),
    {
        let r = self.handles.len() == 0;
        proof {
            if self.handles@.len() == 0 {
                assert(self.view() =~= Set::<FutureHandle>::empty());
            } else {
                assert(self.handles@.contains(self.handles@[0]));
                assert(self.view().contains(self.handles@[0]));
            }
        }
        r
    }

    /// How many handles are queued.
    pub fn len(&self) -> (r: usize)
        requires
            self.wf(),
        ensures
            r == self.view().len(),
    {
        proof {
            self.handles@.unique_seq_to_set();
        }
        self.handles.len()
    }

    /// Atomically swaps this set for an empty one and returns the previous
    /// contents as the work batch of the current drain pass.
    ///
    /// Wake-ups that arrive while the batch is being walked land in the now
    /// empty set, so they belong to the next pass and are neither lost nor
    /// able to grow the current batch.
    pub fn take(&mut self) -> (batch: ReadySet)
        requires
            old(self).wf(),
        ensures
            final(self).wf(),
            final(self).view() == Set::<FutureHandle>::empty(),
            batch.wf(),
            batch.view() == old(self).view(),
    {
        let mut batch = ReadySet::new();
        core::mem::swap(self, &mut batch);
        batch
    }

    /// The queued handles form a finite set.
    pub proof fn lemma_view_finite(&self)
        ensures
            self.view().finite(),
    {
        broadcast use vstd::seq_lib::seq_to_set_is_finite;

    }

    /// The handles of the batch in their deterministic drain order.
    pub fn as_slice(&self) -> (r: &[FutureHandle])
        ensures
            r@.to_set() == self.view(),
            r@.no_duplicates() == self.wf(),
    {
        self.handles.as_slice()
    }
}

} // verus!
