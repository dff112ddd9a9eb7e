use crate::handle::{FutureHandle, HandleAllocator};
use crate::ready::ReadySet;
use crate::waker::Waker;
use vstd::prelude::*;

verus! {

/// The two outcomes of polling a task: completion, or suspension until some
/// wake signal queues the task again.
#[derive(Clone, Copy, PartialEq, Eq, Structural, Debug)]
pub enum Poll {
    Ready,
    Pending,
}

/// A suspendable computation with exactly one entry point, `poll`.
///
/// A task is advanced only by the runtime, which hands it a wake signal bound
/// to its own handle together with the ready set the signal feeds. A task
/// that returns [`Poll::Pending`] is reconsidered only after some copy of its
/// signal is triggered; if it lets its signal go without triggering or
/// storing it, it sits in the store forever.
///
/// The three spec functions are the task's state machine on paper, and
/// `poll`'s contract holds the code to it: a poll completes exactly when
/// `completes` says so; a suspending poll leaves the task in the `step`
/// state, and triggers the wake signal it was handed exactly when `wakes`
/// says so. `rank` bounds how many more times the task can suspend: every
/// `Pending` poll must strictly decrease it. This is the "finite chain of
/// triggers" that makes the run loop's termination a theorem rather than a
/// hope; a task whose rank reaches zero can only complete.
pub trait Task: Sized {
    /// An upper bound on how many `Pending` polls the computation has left.
    spec fn rank(&self) -> nat;

    /// Whether the next poll completes the computation.
    spec fn completes(&self) -> bool;

    /// The state after a suspending poll.
    spec fn step(&self) -> Self;

    /// Whether a suspending poll triggers the wake signal it was handed.
    spec fn wakes(&self) -> bool;

    /// Advances the task one step.
    fn poll(&mut self, waker: &Waker, ready: &mut ReadySet) -> (r: Poll)
        requires
            old(ready).wf(),
        ensures
            final(ready).wf(),
            r is Ready <==> old(self).completes(),
            r is Pending ==> *final(self) == old(self).step(),
            r is Pending ==> final(self).rank() < old(self).rank(),
            r is Pending ==> final(ready).view() == (if old(self).wakes() {
                old(ready).view().insert(waker.handle_spec())
            } else {
                old(ready).view()
            }),
            r is Ready ==> final(ready).view() == old(ready).view(),
    ;
}

/// The rank of an occupied slot; an empty slot counts for nothing.
pub open spec fn slot_rank<T: Task>(slot: Option<T>) -> nat {
    match slot {
        Some(task) => task.rank(),
        None => 0,
    }
}

/// How many slots of `slots` hold a task.
pub open spec fn seq_task_count<T>(slots: Seq<Option<T>>) -> nat
    decreases slots.len(),
{
    if slots.len() == 0 {
        0
    } else {
        seq_task_count(slots.drop_last()) + if slots.last() is Some {
            1nat
        } else {
            0nat
        }
    }
}

/// The summed rank of every task in `slots`.
pub open spec fn seq_total_rank<T: Task>(slots: Seq<Option<T>>) -> nat
    decreases slots.len(),
{
    if slots.len() == 0 {
        0
    } else {
        seq_total_rank(slots.drop_last()) + slot_rank(slots.last())
    }
}

/// The store described by `slots`: handle identity to suspended task.
pub open spec fn seq_store<T>(slots: Seq<Option<T>>) -> Map<usize, T> {
    Map::new(
        |i: usize| i < slots.len() && slots[i as int] is Some,
        |i: usize| slots[i as int]->0,
    )
}

proof fn lemma_seq_task_count_le_len<T>(slots: Seq<Option<T>>)
    ensures
        seq_task_count(slots) <= slots.len(),
    decreases slots.len(),
{
    if slots.len() > 0 {
        lemma_seq_task_count_le_len(slots.drop_last());
    }
}

proof fn lemma_seq_task_count_update<T>(slots: Seq<Option<T>>, i: int, v: Option<T>)
    requires
        0 <= i < slots.len(),
    ensures
        seq_task_count(slots.update(i, v)) + (if slots[i] is Some { 1nat } else { 0nat })
            == seq_task_count(slots) + (if v is Some { 1nat } else { 0nat }),
    decreases slots.len(),
{
    let su = slots.update(i, v);
    if i == slots.len() - 1 {
        assert(su.drop_last() =~= slots.drop_last());
    } else {
        assert(su.drop_last() =~= slots.drop_last().update(i, v));
        lemma_seq_task_count_update(slots.drop_last(), i, v);
    }
}

proof fn lemma_seq_total_rank_update<T: Task>(slots: Seq<Option<T>>, i: int, v: Option<T>)
    requires
        0 <= i < slots.len(),
    ensures
        seq_total_rank(slots.update(i, v)) + slot_rank(slots[i])
            == seq_total_rank(slots) + slot_rank(v),
    decreases slots.len(),
{
    let su = slots.update(i, v);
    if i == slots.len() - 1 {
        assert(su.drop_last() =~= slots.drop_last());
    } else {
        assert(su.drop_last() =~= slots.drop_last().update(i, v));
        lemma_seq_total_rank_update(slots.drop_last(), i, v);
    }
}

proof fn lemma_seq_task_count_push<T>(slots: Seq<Option<T>>, v: Option<T>)
    ensures
        seq_task_count(slots.push(v)) == seq_task_count(slots) + (if v is Some {
            1nat
        } else {
            0nat
        }),
{
    assert(slots.push(v).drop_last() =~= slots);
}

proof fn lemma_seq_total_rank_push<T: Task>(slots: Seq<Option<T>>, v: Option<T>)
    ensures
        seq_total_rank(slots.push(v)) == seq_total_rank(slots) + slot_rank(v),
{
    assert(slots.push(v).drop_last() =~= slots);
}

proof fn lemma_seq_task_count_zero<T>(slots: Seq<Option<T>>)
    ensures
        seq_task_count(slots) == 0 <==> (forall|i: int|
            0 <= i < slots.len() ==> slots[i] is None),
    decreases slots.len(),
{
    if slots.len() > 0 {
        lemma_seq_task_count_zero(slots.drop_last());
        assert(forall|i: int|
            0 <= i < slots.len() - 1 ==> slots.drop_last()[i] == slots[i]);
    }
}

/// Whether the task stored under `h` (if any) will, when polled, suspend and
/// trigger its wake signal again.
pub open spec fn wakes_again<T: Task>(store: Map<usize, T>, h: FutureHandle) -> bool {
    &&& store.dom().contains(h.id_spec())
    &&& !store[h.id_spec()].completes()
    &&& store[h.id_spec()].wakes()
}

/// The wake-ups a drain pass over the woken handles leaves queued: exactly
/// those woken handles whose tasks suspend and trigger their signals again.
pub open spec fn pass_wakes<T: Task>(store: Map<usize, T>, woken: Set<FutureHandle>) -> Set<
    FutureHandle,
> {
    Set::new(|h: FutureHandle| woken.contains(h) && wakes_again(store, h))
}

/// The wake-ups queued after polling the first `i` handles of `batch`
/// against the tasks of `store`.
spec fn prefix_wakes<T: Task>(store: Map<usize, T>, batch: Seq<FutureHandle>, i: int) -> Set<
    FutureHandle,
>
    decreases i,
{
    if i <= 0 {
        Set::empty()
    } else if wakes_again(store, batch[i - 1]) {
        prefix_wakes(store, batch, i - 1).insert(batch[i - 1])
    } else {
        prefix_wakes(store, batch, i - 1)
    }
}

/// How many of the first `i` handles of `batch` hold a task in `store`.
spec fn prefix_live<T>(store: Map<usize, T>, batch: Seq<FutureHandle>, i: int) -> nat
    decreases i,
{
    if i <= 0 {
        0
    } else {
        prefix_live(store, batch, i - 1) + if store.dom().contains(batch[i - 1].id_spec()) {
            1nat
        } else {
            0nat
        }
    }
}

/// The entry under `k` is the same in both stores.
spec fn entry_same<T>(a: Map<usize, T>, b: Map<usize, T>, k: usize) -> bool {
    &&& a.dom().contains(k) == b.dom().contains(k)
    &&& (a.dom().contains(k) ==> a[k] == b[k])
}

/// The entry under `k` in `now` is the outcome of polling the entry the
/// store held before: removed when it completes, advanced one step (with
/// strictly smaller rank) when it suspends, and still absent when there was
/// none.
spec fn polled_entry<T: Task>(before: Map<usize, T>, now: Map<usize, T>, k: usize) -> bool {
    if before.dom().contains(k) {
        if before[k].completes() {
            !now.dom().contains(k)
        } else {
            &&& now.dom().contains(k)
            &&& now[k] == before[k].step()
            &&& now[k].rank() < before[k].rank()
        }
    } else {
        !now.dom().contains(k)
    }
}

/// A task that drives itself to completion: every suspension triggers its
/// own wake signal, and the chain of suspensions is finite, each step
/// strictly decreasing the rank.
pub open spec fn self_driving<T: Task>(t: T) -> bool
    decreases t.rank(),
{
    t.completes() || (t.wakes() && if t.step().rank() < t.rank() {
        self_driving(t.step())
    } else {
        true
    })
}

proof fn lemma_prefix_live_mono<T>(store: Map<usize, T>, batch: Seq<FutureHandle>, i: int, j: int)
    requires
        0 <= i <= j,
    ensures
        prefix_live(store, batch, i) <= prefix_live(store, batch, j),
    decreases j,
{
    if i < j {
        lemma_prefix_live_mono(store, batch, i, j - 1);
    }
}

proof fn lemma_prefix_live_agree<T>(
    store: Map<usize, T>,
    b1: Seq<FutureHandle>,
    b2: Seq<FutureHandle>,
    i: int,
)
    requires
        0 <= i,
        forall|j: int| 0 <= j < i ==> b1[j] == b2[j],
    ensures
        prefix_live(store, b1, i) == prefix_live(store, b2, i),
    decreases i,
{
    if i > 0 {
        lemma_prefix_live_agree(store, b1, b2, i - 1);
    }
}

proof fn lemma_prefix_wakes_set<T: Task>(store: Map<usize, T>, batch: Seq<FutureHandle>, i: int)
    requires
        0 <= i <= batch.len(),
    ensures
        prefix_wakes(store, batch, i) == Set::new(
            |h: FutureHandle|
                (exists|j: int| 0 <= j < i && batch[j] == h) && wakes_again(store, h),
        ),
    decreases i,
{
    let target = Set::new(
        |h: FutureHandle| (exists|j: int| 0 <= j < i && batch[j] == h) && wakes_again(store, h),
    );
    if i == 0 {
        assert(prefix_wakes(store, batch, i) =~= target);
    } else {
        lemma_prefix_wakes_set(store, batch, i - 1);
        assert forall|h: FutureHandle|
            target.contains(h) implies prefix_wakes(store, batch, i).contains(h) by {
            let j = choose|j: int| 0 <= j < i && batch[j] == h;
            if j < i - 1 {
                assert(prefix_wakes(store, batch, i - 1).contains(h));
            }
        }
        assert(prefix_wakes(store, batch, i) =~= target);
    }
}

proof fn lemma_prefix_live_card<T>(store: Map<usize, T>, batch: Seq<FutureHandle>)
    requires
        batch.no_duplicates(),
    ensures
        prefix_live(store, batch, batch.len() as int) == Set::new(
            |h: FutureHandle| batch.to_set().contains(h) && store.dom().contains(h.id_spec()),
        ).len(),
        Set::new(
            |h: FutureHandle| batch.to_set().contains(h) && store.dom().contains(h.id_spec()),
        ).finite(),
    decreases batch.len(),
{
    broadcast use vstd::seq_lib::seq_to_set_is_finite;

    let target = Set::new(
        |h: FutureHandle| batch.to_set().contains(h) && store.dom().contains(h.id_spec()),
    );
    if batch.len() == 0 {
        assert(target =~= Set::<FutureHandle>::empty());
    } else {
        let prefix = batch.drop_last();
        let last = batch.last();
        assert(prefix.no_duplicates());
        lemma_prefix_live_card(store, prefix);
        lemma_prefix_live_agree(store, batch, prefix, batch.len() - 1);
        let tp = Set::new(
            |h: FutureHandle| prefix.to_set().contains(h) && store.dom().contains(h.id_spec()),
        );
        assert forall|h: FutureHandle|
            batch.to_set().contains(h) implies (prefix.to_set().contains(h) || h == last) by {
            let j = choose|j: int| 0 <= j < batch.len() && batch[j] == h;
            if j < batch.len() - 1 {
                assert(prefix[j] == h);
            }
        }
        assert(forall|h: FutureHandle|
            #[trigger] prefix.to_set().contains(h) ==> batch.to_set().contains(h));
        if store.dom().contains(last.id_spec()) {
            assert(!tp.contains(last)) by {
                if prefix.to_set().contains(last) {
                    let j = choose|j: int| 0 <= j < prefix.len() && prefix[j] == last;
                    assert(batch[j] == batch[batch.len() - 1]);
                }
            }
            assert(target =~= tp.insert(last));
        } else {
            assert(target =~= tp);
        }
    }
}

/// A single-threaded cooperative runtime.
///
/// It owns the task store (a handle-indexed table of suspended tasks) and the
/// ready set that every wake signal it hands out feeds. Entries are created
/// by `spawn`, mutated only while being polled, and removed exactly once,
/// when a poll returns `Ready`.
pub struct Runtime<T> {
    alloc: HandleAllocator,
    tasks: Vec<Option<T>>,
    woken: ReadySet,
    live: usize,
    polls: u64,
}

impl<T: Task> Runtime<T> {
    /// The task store: every not-yet-completed task, under the identity of
    /// its handle.
    pub closed spec fn store(self) -> Map<usize, T> {
        seq_store(self.tasks@)
    }

    /// The handles currently queued for the next drain pass.
    pub closed spec fn ready(self) -> Set<FutureHandle> {
        self.woken.view()
    }

    /// How many tasks have ever been spawned; also the identity the next
    /// handle will carry.
    pub closed spec fn spawned(self) -> usize {
        self.alloc.next_spec()
    }

    /// How many poll calls the runtime has made (saturating at the counter's
    /// maximum).
    pub closed spec fn poll_count(self) -> u64 {
        self.polls
    }

    /// How many tasks are in the store.
    pub closed spec fn task_count(self) -> nat {
        seq_task_count(self.tasks@)
    }

    /// The summed rank of the stored tasks: an upper bound on how many more
    /// `Pending` polls the run loop can possibly make.
    pub closed spec fn total_rank(self) -> nat {
        seq_total_rank(self.tasks@)
    }

    /// The woken handles that still hold a task in the store: exactly the
    /// tasks the next drain pass will poll.
    pub open spec fn woken_live(self) -> Set<FutureHandle> {
        Set::new(
            |h: FutureHandle|
                self.ready().contains(h) && self.store().dom().contains(h.id_spec()),
        )
    }

    /// Every stored task drives itself to completion and is queued for the
    /// next drain pass: the states from which the run loop provably drains
    /// the whole store.
    pub open spec fn fully_woken(self) -> bool {
        forall|k: usize|
            #[trigger] self.store().dom().contains(k) ==> self_driving(self.store()[k])
                && self.ready().contains(FutureHandle::from_id(k))
    }

    /// Internal consistency: the ready set holds no duplicates, the handle
    /// counter matches the table, and the live-task counter is exact.
    pub closed spec fn wf(self) -> bool {
        &&& self.woken.wf()
        &&& self.alloc.next_spec() == self.tasks@.len()
        &&& self.live as nat == seq_task_count(self.tasks@)
    }

    /// Every stored handle identity was issued by this runtime's allocator.
    pub proof fn lemma_store_keys_bounded(self)
        requires
            self.wf(),
        ensures
            forall|k: usize| self.store().dom().contains(k) ==> k < self.spawned(),
    {
    }

    /// The task count is the size of the store; in particular the store is
    /// empty exactly when the count is zero.
    pub proof fn lemma_task_count_zero(self)
        ensures
            self.task_count() == 0 <==> self.store().dom().is_empty(),
    {
        lemma_seq_task_count_zero(self.tasks@);
        assert(self.tasks@.len() <= usize::MAX) by {
            assert(vstd::std_specs::vec::spec_vec_len(&self.tasks) == self.tasks@.len());
        }
        if self.task_count() == 0 {
            assert(self.store().dom() =~= Set::<usize>::empty());
        }
        if self.store().dom().is_empty() {
            assert forall|i: int| 0 <= i < self.tasks@.len() implies self.tasks@[i] is None by {
                if self.tasks@[i] is Some {
                    assert(self.store().dom().contains(i as usize));
                }
            }
        }
    }

    /// An empty runtime: nothing stored, nothing woken, nothing polled.
    pub fn new() -> (r: Runtime<T>)
        ensures
            r.wf(),
            r.store() == Map::<usize, T>::empty(),
            r.ready() == Set::<FutureHandle>::empty(),
            r.spawned() == 0,
            r.task_count() == 0,
            r.poll_count() == 0,
    {
        let r = Runtime {
            alloc: HandleAllocator::new(),
            tasks: Vec::new(),
            woken: ReadySet::new(),
            live: 0,
            polls: 0,
        };
        proof {
            assert(r.store() =~= Map::<usize, T>::empty());
        }
        r
    }

    /// Whether the store holds no task.
    pub fn store_is_empty(&self) -> (r: bool)
        requires
            self.wf(),
        ensures
            r == (self.task_count() == 0),
    {
        self.live == 0
    }

    /// How many tasks are in the store.
    pub fn store_len(&self) -> (r: usize)
        requires
            self.wf(),
        ensures
            r == self.task_count(),
    {
        self.live
    }

    /// How many poll calls the runtime has made so far.
    pub fn polls_made(&self) -> (r: u64)
        ensures
            r == self.poll_count(),
    {
        self.polls
    }

    /// Whether any handle is queued for the next drain pass.
    pub fn ready_is_empty(&self) -> (r: bool)
        ensures
            r == self.ready().is_empty(),
    {
        self.woken.is_empty()
    }

    /// Enqueues a new task: allocates a fresh handle, inserts the task into
    /// the store under it, and immediately polls it once, so a task that
    /// completes synchronously never waits for a drain pass.
    ///
    /// If that first poll returns `Ready` the task is removed again before
    /// `spawn` returns, and the store reads exactly as before; if `Pending`,
    /// the task stays and depends on a wake signal to be reconsidered.
    pub fn spawn(&mut self, task: T)
        requires
            old(self).wf(),
            old(self).spawned() < usize::MAX,
        ensures
            final(self).wf(),
            final(self).spawned() == old(self).spawned() + 1,
            // the sole first poll of the fresh task is counted
            old(self).poll_count() < u64::MAX
                ==> final(self).poll_count() == old(self).poll_count() + 1,
            // every previously stored task is untouched
            forall|k: usize|
                k != old(self).spawned() ==> (#[trigger] final(self).store().dom().contains(k))
                    == old(self).store().dom().contains(k),
            forall|k: usize|
                k != old(self).spawned() && old(self).store().dom().contains(k) ==> (
                #[trigger] final(self).store()[k]) == old(self).store()[k],
            // the fresh task stays in the store exactly when its first poll
            // suspends; completed on first poll means gone without a trace
            final(self).store().dom().contains(old(self).spawned()) <==> !task.completes(),
            task.completes() ==> final(self).store() == old(self).store(),
            !task.completes() ==> final(self).store() == old(self).store().insert(
                old(self).spawned(),
                task.step(),
            ),
            !task.completes() ==> final(self).store()[old(self).spawned()].rank() < task.rank(),
            // a task that cannot suspend is gone before `spawn` returns
            task.rank() == 0 ==> final(self).store() == old(self).store(),
            // the first poll queues the fresh handle exactly when the
            // suspending task triggers its signal
            final(self).ready() == (if !task.completes() && task.wakes() {
                old(self).ready().insert(FutureHandle::from_id(old(self).spawned()))
            } else {
                old(self).ready()
            }),
            old(self).ready().subset_of(final(self).ready()),
            final(self).poll_count() >= old(self).poll_count(),
            // spawning a self-driving task keeps the runtime fully woken, so
            // a later run loop still provably drains the store
            old(self).fully_woken() && self_driving(task) ==> final(self).fully_woken(),
    {
        proof {
            lemma_seq_task_count_le_len(self.tasks@);
        }
        let ghost task0 = task;
        let h = FutureHandle::new(&mut self.alloc);
        let ghost pre = self.tasks@;
        self.tasks.push(Some(task));
        self.live = self.live + 1;
        proof {
            lemma_seq_task_count_push(pre, Some(task0));
            assert(self.store() =~= old(self).store().insert(h.id_spec(), task0)) by {
                assert(forall|k: usize|
                    k < pre.len() ==> #[trigger] self.tasks@[k as int] == pre[k as int]);
            }
            assert(!old(self).store().dom().contains(h.id_spec()));
        }
        self.poll_future_by_handle(h);
        proof {
            let hid = h.id_spec();
            if task0.completes() {
                assert(self.store() =~= old(self).store());
            } else {
                assert(self.store() =~= old(self).store().insert(hid, task0.step()));
            }
        }
    }

    /// Looks up the task under `handle` and, if present, polls it once with a
    /// fresh wake signal bound to that handle; a poll that returns `Ready`
    /// removes the entry. An absent handle — already completed, or never
    /// issued — is a no-op, not an error, which is what makes a stale wake
    /// signal harmless.
    pub fn poll_future_by_handle(&mut self, handle: FutureHandle)
        requires
            old(self).wf(),
        ensures
            final(self).wf(),
            final(self).spawned() == old(self).spawned(),
            // an unknown or completed handle changes nothing
            !old(self).store().dom().contains(handle.id_spec()) ==> {
                &&& final(self).store() == old(self).store()
                &&& final(self).ready() == old(self).ready()
                &&& final(self).poll_count() == old(self).poll_count()
            },
            // no other entry is touched
            forall|k: usize|
                k != handle.id_spec() ==> (#[trigger] final(self).store().dom().contains(k))
                    == old(self).store().dom().contains(k),
            forall|k: usize|
                k != handle.id_spec() && old(self).store().dom().contains(k) ==> (
                #[trigger] final(self).store()[k]) == old(self).store()[k],
            // a present task is polled once: removed exactly when its poll
            // completes, and otherwise advanced by one step in place
            old(self).store().dom().contains(handle.id_spec()) ==> {
                &&& (final(self).store().dom().contains(handle.id_spec()) <==> !old(self).store()[handle.id_spec()].completes())
                &&& (old(self).store()[handle.id_spec()].completes() ==> final(self).store()
                    == old(self).store().remove(handle.id_spec()))
                &&& (!old(self).store()[handle.id_spec()].completes() ==> final(self).store()
                    == old(self).store().insert(
                    handle.id_spec(),
                    old(self).store()[handle.id_spec()].step(),
                ))
                &&& (!old(self).store()[handle.id_spec()].completes() ==> final(self).store()[handle.id_spec()].rank() < old(self).store()[handle.id_spec()].rank())
            },
            // the poll receives a signal bound to `handle`, and queues that
            // handle exactly when a suspending task triggers it
            final(self).ready() == (if old(self).store().dom().contains(handle.id_spec()) && !old(self).store()[handle.id_spec()].completes() && old(self).store()[handle.id_spec()].wakes() {
                old(self).ready().insert(handle)
            } else {
                old(self).ready()
            }),
            old(self).ready().subset_of(final(self).ready()),
            // poll accounting
            final(self).poll_count() >= old(self).poll_count(),
            old(self).store().dom().contains(handle.id_spec()) && old(self).poll_count()
                < u64::MAX ==> final(self).poll_count() == old(self).poll_count() + 1,
            // progress: polling can only shrink the remaining work
            final(self).total_rank() <= old(self).total_rank(),
            final(self).task_count() <= old(self).task_count(),
            old(self).store().dom().contains(handle.id_spec()) ==> (final(self).total_rank()
                < old(self).total_rank() || (final(self).total_rank() == old(self).total_rank()
                && final(self).task_count() < old(self).task_count())),
    {
        let id = handle.id();
        if id < self.tasks.len() {
            let ghost pre = self.tasks@;
            let slot = self.tasks[id].take();
            proof {
                assert(self.tasks@ =~= pre.update(id as int, None::<T>));
                lemma_seq_task_count_update(pre, id as int, None::<T>);
                lemma_seq_total_rank_update::<T>(pre, id as int, None::<T>);
            }
            match slot {
                None => {
                    proof {
                        assert(self.tasks@ =~= pre);
                        assert(self.store() =~= old(self).store());
                    }
                }
                Some(mut task) => {
                    let ghost task0 = task;
                    proof {
                        assert(old(self).store()[id] == task0);
                    }
                    let waker = Waker::new_wrapped(handle);
                    if self.polls < u64::MAX {
                        self.polls = self.polls + 1;
                    }
                    let r = task.poll(&waker, &mut self.woken);
                    match r {
                        Poll::Ready => {
                            self.live = self.live - 1;
                            proof {
                                assert(self.store() =~= old(self).store().remove(id));
                            }
                        },
                        Poll::Pending => {
                            self.tasks[id] = Some(task);
                            proof {
                                assert(self.tasks@ =~= pre.update(id as int, Some(task)));
                                lemma_seq_task_count_update(pre, id as int, Some(task));
                                lemma_seq_total_rank_update::<T>(pre, id as int, Some(task));
                                assert(self.store() =~= old(self).store().insert(id, task));
                            }
                        },
                    }
                },
            }
        } else {
            proof {
                assert(!old(self).store().dom().contains(handle.id_spec()));
            }
        }
    }

    /// Queues the handle of `w` for the next drain pass.
    ///
    /// This is the outside route to a re-poll: any holder of a wake signal —
    /// code that received a copy from a suspended task, a test, an embedding
    /// program — may trigger it against the runtime between passes. Nothing
    /// but the ready set changes; a stale signal for a completed task queues
    /// a handle the next pass will not find.
    pub fn wake(&mut self, w: &Waker)
        requires
            old(self).wf(),
        ensures
            final(self).wf(),
            final(self).ready() == old(self).ready().insert(w.handle_spec()),
            final(self).store() == old(self).store(),
            final(self).spawned() == old(self).spawned(),
            final(self).poll_count() == old(self).poll_count(),
            final(self).task_count() == old(self).task_count(),
            final(self).total_rank() == old(self).total_rank(),
    {
        w.wake_by_ref(&mut self.woken);
    }

    /// One drain pass: atomically swaps the ready set for an empty one,
    /// capturing its contents as the pass's batch, and polls every captured
    /// handle once.
    ///
    /// The contract pins the pass down: entries whose handles were not in
    /// the batch are untouched; every captured stored task is polled exactly
    /// once, leaving the store according to its `completes`/`step` machine;
    /// and the ready set afterwards holds exactly the batch tasks that
    /// suspended and asked to be woken again — wake-ups of the current pass
    /// are never lost and never re-drained within the pass.
    pub fn drain_pass(&mut self)
        requires
            old(self).wf(),
        ensures
            final(self).wf(),
            final(self).spawned() == old(self).spawned(),
            final(self).store().dom().subset_of(old(self).store().dom()),
            // handles that were not woken keep their entries, bit for bit
            forall|k: usize|
                !old(self).ready().contains(FutureHandle::from_id(k)) ==> (#[trigger] final(self).store().dom().contains(k)) == old(self).store().dom().contains(k),
            forall|k: usize|
                !old(self).ready().contains(FutureHandle::from_id(k)) && old(self).store().dom().contains(k) ==> (#[trigger] final(self).store()[k]) == old(self).store()[k],
            // each woken stored task is polled once: removed exactly when
            // its poll completes, advanced one step when it suspends
            forall|h: FutureHandle|
                #[trigger] old(self).ready().contains(h) && old(self).store().dom().contains(
                    h.id_spec(),
                ) && old(self).store()[h.id_spec()].completes() ==> !final(self).store().dom().contains(h.id_spec()),
            forall|h: FutureHandle|
                #[trigger] old(self).ready().contains(h) && old(self).store().dom().contains(
                    h.id_spec(),
                ) && !old(self).store()[h.id_spec()].completes() ==> final(self).store().dom().contains(h.id_spec()) && final(self).store()[h.id_spec()] == old(self).store()[h.id_spec()].step(),
            forall|h: FutureHandle|
                #[trigger] old(self).ready().contains(h) && old(self).store().dom().contains(
                    h.id_spec(),
                ) && !old(self).store()[h.id_spec()].completes()
                    ==> final(self).store()[h.id_spec()].rank() < old(self).store()[h.id_spec()].rank(),
            // the next batch is exactly this pass's still-pending wakers
            final(self).ready() == pass_wakes(old(self).store(), old(self).ready()),
            // exactly the woken stored tasks are polled, each once
            final(self).poll_count() >= old(self).poll_count(),
            old(self).poll_count() + old(self).woken_live().len() <= u64::MAX ==> final(self).poll_count() == old(self).poll_count() + old(self).woken_live().len(),
            // progress, for the run loop's termination
            final(self).total_rank() <= old(self).total_rank(),
            final(self).task_count() <= old(self).task_count(),
            final(self).ready().is_empty() || final(self).total_rank() < old(self).total_rank()
                || (final(self).total_rank() == old(self).total_rank() && final(self).task_count() < old(self).task_count()),
    {
        let ghost pre = *self;
        let batch = self.woken.take();
        let handles = batch.as_slice();
        let ghost total_live = prefix_live(pre.store(), handles@, handles@.len() as int);
        let mut i: usize = 0;
        while i < handles.len()
            invariant
                pre == *old(self),
                i <= handles@.len(),
                handles@.to_set() == pre.ready(),
                handles@.no_duplicates(),
                total_live == prefix_live(pre.store(), handles@, handles@.len() as int),
                self.wf(),
                self.spawned() == pre.spawned(),
                self.store().dom().subset_of(pre.store().dom()),
                forall|j: int|
                    i <= j < handles@.len() ==> entry_same(
                        pre.store(),
                        self.store(),
                        (#[trigger] handles@[j]).id_spec(),
                    ),
                forall|j: int|
                    0 <= j < i ==> polled_entry(
                        pre.store(),
                        self.store(),
                        (#[trigger] handles@[j]).id_spec(),
                    ),
                forall|k: usize|
                    !pre.ready().contains(#[trigger] FutureHandle::from_id(k)) ==> entry_same(
                        pre.store(),
                        self.store(),
                        k,
                    ),
                self.ready() == prefix_wakes(pre.store(), handles@, i as int),
                self.poll_count() >= pre.poll_count(),
                pre.poll_count() + total_live <= u64::MAX ==> self.poll_count()
                    == pre.poll_count() + prefix_live(pre.store(), handles@, i as int),
                self.total_rank() <= pre.total_rank(),
                self.task_count() <= pre.task_count(),
                self.ready().is_empty() || self.total_rank() < pre.total_rank() || (
                self.total_rank() == pre.total_rank() && self.task_count() < pre.task_count()),
            decreases handles@.len() - i,
        {
            let h = handles[i];
            let ghost k0 = h.id_spec();
            let ghost before = *self;
            proof {
                assert(entry_same(pre.store(), before.store(), k0));
                if pre.poll_count() + total_live <= u64::MAX && pre.store().dom().contains(k0) {
                    lemma_prefix_live_mono(pre.store(), handles@, i + 1, handles@.len() as int);
                }
            }
            self.poll_future_by_handle(h);
            proof {
                crate::handle::lemma_handle_identity(h);
                assert forall|j: int|
                    0 <= j < handles@.len() && j != i implies (#[trigger] handles@[j]).id_spec()
                    != k0 by {
                    crate::handle::lemma_handle_identity(handles@[j]);
                }
                assert forall|k: usize|
                    !pre.ready().contains(#[trigger] FutureHandle::from_id(k)) implies k
                    != k0 by {
                    if k == k0 {
                        assert(handles@.to_set().contains(h));
                    }
                }
                assert(self.ready() == prefix_wakes(pre.store(), handles@, i + 1));
            }
            i = i + 1;
        }
        proof {
            assert forall|h: FutureHandle|
                #[trigger] pre.ready().contains(h) && pre.store().dom().contains(
                    h.id_spec(),
                ) implies polled_entry(pre.store(), self.store(), h.id_spec()) by {
                assert(handles@.to_set().contains(h));
                let j = choose|j: int| 0 <= j < handles@.len() && handles@[j] == h;
                assert(polled_entry(pre.store(), self.store(), handles@[j].id_spec()));
            }
            lemma_prefix_wakes_set(pre.store(), handles@, handles@.len() as int);
            assert(self.ready() =~= pass_wakes(pre.store(), pre.ready())) by {
                assert forall|h: FutureHandle|
                    pre.ready().contains(h) implies (exists|j: int|
                    0 <= j < handles@.len() && handles@[j] == h) by {
                    assert(handles@.to_set().contains(h));
                }
            }
            lemma_prefix_live_card(pre.store(), handles@);
            assert(Set::new(
                |h: FutureHandle|
                    handles@.to_set().contains(h) && pre.store().dom().contains(h.id_spec()),
            ) =~= pre.woken_live());
        }
    }

    /// Drives the stored tasks until none remain, or until an entire pass
    /// finds the ready set empty while tasks remain — the blocked condition
    /// of a program whose pending tasks will never be woken, on which the
    /// loop stops rather than spin.
    ///
    /// The loop is a sequence of [`Runtime::drain_pass`] calls, whose
    /// contract pins each pass down; on top of it this contract promises
    /// that every handle woken at entry whose task is stored gets its poll,
    /// and that a store of self-driving, woken tasks is drained completely.
    pub fn runloop(&mut self)
        requires
            old(self).wf(),
        ensures
            final(self).wf(),
            final(self).spawned() == old(self).spawned(),
            // the loop only ever removes tasks
            final(self).store().dom().subset_of(old(self).store().dom()),
            // on return, either every task has completed, or no remaining
            // task will ever be woken
            final(self).store().dom().is_empty() || final(self).ready().is_empty(),
            final(self).task_count() == 0 || final(self).ready().is_empty(),
            // with nothing stored there is nothing to do
            old(self).task_count() == 0 ==> {
                &&& final(self).ready() == old(self).ready()
                &&& final(self).poll_count() == old(self).poll_count()
            },
            // every handle woken before the call whose task is stored is
            // polled, in the very first pass
            final(self).poll_count() >= old(self).poll_count(),
            old(self).poll_count() + old(self).woken_live().len() <= u64::MAX ==> final(self).poll_count() >= old(self).poll_count() + old(self).woken_live().len(),
            // a store of self-driving, woken tasks is drained completely:
            // every task reaches completion through its chain of triggers
            old(self).fully_woken() ==> final(self).store().dom().is_empty(),
    {
        let ghost orig = *self;
        let ghost mut first_done: bool = false;
        loop
            invariant
                orig == *old(self),
                self.wf(),
                self.spawned() == orig.spawned(),
                self.store().dom().subset_of(orig.store().dom()),
                self.poll_count() >= orig.poll_count(),
                orig.task_count() == 0 ==> {
                    &&& self.task_count() == 0
                    &&& self.ready() == orig.ready()
                    &&& self.poll_count() == orig.poll_count()
                },
                first_done ==> (orig.poll_count() + orig.woken_live().len() <= u64::MAX
                    ==> self.poll_count() >= orig.poll_count() + orig.woken_live().len()),
                !first_done ==> {
                    &&& self.store() == orig.store()
                    &&& self.ready() == orig.ready()
                    &&& self.poll_count() == orig.poll_count()
                },
                orig.fully_woken() ==> self.fully_woken(),
            decreases self.total_rank(), self.task_count(), self.ready().len(),
        {
            if self.store_is_empty() {
                proof {
                    self.lemma_task_count_zero();
                    if !first_done {
                        assert(orig.woken_live() =~= Set::<FutureHandle>::empty());
                    }
                }
                return;
            }
            if self.ready_is_empty() {
                proof {
                    if !first_done {
                        assert(orig.woken_live() =~= Set::<FutureHandle>::empty());
                    }
                    if orig.fully_woken() {
                        assert forall|k: usize|
                            !(#[trigger] self.store().dom().contains(k)) by {
                            if self.store().dom().contains(k) {
                                assert(self.ready().contains(FutureHandle::from_id(k)));
                            }
                        }
                        assert(self.store().dom() =~= Set::<usize>::empty());
                    }
                }
                return;
            }
            let ghost before = *self;
            proof {
                self.woken.lemma_view_finite();
                if !(exists|h: FutureHandle| before.ready().contains(h)) {
                    assert(before.ready() =~= Set::<FutureHandle>::empty());
                }
                let w = choose|h: FutureHandle| before.ready().contains(h);
                assert(before.ready().remove(w).len() + 1 == before.ready().len());
                assert(before.ready().len() > 0);
            }
            self.drain_pass();
            proof {
                if !first_done {
                    assert(before.woken_live() =~= orig.woken_live());
                }
                first_done = true;
                if orig.fully_woken() {
                    assert forall|k: usize|
                        #[trigger] self.store().dom().contains(k) implies self_driving(
                        self.store()[k],
                    ) && self.ready().contains(FutureHandle::from_id(k)) by {
                        assert(before.store().dom().contains(k));
                        crate::handle::lemma_from_id(k);
                        let h = FutureHandle::from_id(k);
                        assert(before.ready().contains(h));
                        assert(before.store().dom().contains(h.id_spec()));
                        assert(!before.store()[k].completes());
                        assert(self.store()[k] == before.store()[k].step());
                        assert(self.store()[k].rank() < before.store()[k].rank());
                        assert(self_driving(before.store()[k]));
                        assert(self_driving(self.store()[k]));
                        assert(wakes_again(before.store(), h));
                        assert(self.ready() == pass_wakes(before.store(), before.ready()));
                        assert(self.ready().contains(h));
                    }
                }
            }
        }
    }
}

impl<T: Task> Default for Runtime<T> {
    /// An empty runtime, exactly as [`Runtime::new`] builds it.
    fn default() -> (r: Runtime<T>)
        ensures
            r.wf(),
            r.store() == Map::<usize, T>::empty(),
            r.ready() == Set::<FutureHandle>::empty(),
            r.spawned() == 0,
            r.task_count() == 0,
            r.poll_count() == 0,
    {
        Runtime::new()
    }
}

} // verus!
