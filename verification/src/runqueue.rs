//! The run queue: one FIFO list of runnable threads per priority, and a bitmap
//! of the priorities whose list is not empty.
//!
//! With one core the next thread to run is the head of the highest non-empty
//! list. With several cores the run queue also keeps an allocation of its
//! `N_CORES` first threads to the cores, and says after each change which
//! core's allocation changed.
use vstd::prelude::*;
use crate::bitmap::{
    bit_is_set, ffs, from_bitmap, lemma_bits_and, lemma_bits_clear, lemma_bits_equal,
    lemma_bits_set, lemma_bits_xor, lemma_bits_zero, lemma_top_bit_below, top_bit,
};
use crate::clist::{lemma_without_at, lists_contain, lists_wf, rotate, without, CList};
use crate::ids::{CoreId, RunqueueId, ThreadId};

verus! {

/// The `i`-th thread in scheduling order among the queues below `k`: the
/// queues are taken from the highest down, each from its head on.
pub open spec fn nth_runnable(v: Seq<Seq<u8>>, k: int, i: int) -> Option<u8>
    decreases k,
{
    if k <= 0 || k > v.len() {
        None
    } else if i < v[k - 1].len() {
        Some(v[k - 1][i])
    } else {
        nth_runnable(v, k - 1, i - v[k - 1].len())
    }
}

/// The `i`-th thread in scheduling order.
pub open spec fn top(v: Seq<Seq<u8>>, i: int) -> Option<u8> {
    if i < 0 {
        None
    } else {
        nth_runnable(v, v.len() as int, i)
    }
}

/// Empty queues do not count: if the queues from `k2` up to `k` are empty,
/// the `i`-th thread below `k` is the `i`-th thread below `k2`.
pub proof fn lemma_skip_empty(v: Seq<Seq<u8>>, k: int, k2: int, i: int)
    requires
        0 <= k2 <= k <= v.len(),
        forall|q: int| k2 <= q < k ==> (#[trigger] v[q]).len() == 0,
        0 <= i,
    ensures
        nth_runnable(v, k, i) == nth_runnable(v, k2, i),
    decreases k - k2,
{
    if k2 < k {
        assert(v[k - 1].len() == 0);
        lemma_skip_empty(v, k - 1, k2, i);
    }
}

/// The head of the list `l`, as a thread identifier.
pub open spec fn head_of(l: Seq<u8>) -> Option<ThreadId> {
    if l.len() == 0 {
        None
    } else {
        Some(ThreadId(l[0]))
    }
}

/// The thread identifier for a list member.
pub open spec fn to_tid(o: Option<u8>) -> Option<ThreadId> {
    match o {
        Some(n) => Some(ThreadId(n)),
        None => None,
    }
}

/// Whether thread `t` is among the first `n` threads in scheduling order.
pub open spec fn in_top(v: Seq<Seq<u8>>, n: int, t: int) -> bool {
    exists|i: int| 0 <= i < n && #[trigger] top(v, i) == Some(t as u8) && 0 <= t < 256
}

/// Whether one of the first `n` cores is running thread `t` according to
/// `alloc`.
pub open spec fn allocated_below(alloc: Seq<(bool, ThreadId)>, n: int, t: int) -> bool {
    exists|c: int| 0 <= c < n && c < alloc.len() && (#[trigger] alloc[c]).0 && alloc[c].1@ == t
}

/// Whether some core is running thread `t` according to `alloc`.
pub open spec fn is_allocated(alloc: Seq<(bool, ThreadId)>, t: int) -> bool {
    allocated_below(alloc, alloc.len() as int, t)
}

/// Whether one of the first `n` cores holds the identifier `t` in its slot,
/// running or not.
pub open spec fn recorded_below(alloc: Seq<(bool, ThreadId)>, n: int, t: int) -> bool {
    exists|c: int| 0 <= c < n && c < alloc.len() && (#[trigger] alloc[c]).1@ == t
}

/// Whether some core holds the identifier `t` in its slot, running or not.
pub open spec fn is_recorded(alloc: Seq<(bool, ThreadId)>, t: int) -> bool {
    recorded_below(alloc, alloc.len() as int, t)
}

/// The highest number below `k` that satisfies `p`.
pub open spec fn highest(p: spec_fn(int) -> bool, k: int) -> Option<int>
    decreases k,
{
    if k <= 0 {
        None
    } else if p(k - 1) {
        Some(k - 1)
    } else {
        highest(p, k - 1)
    }
}

/// `highest` yields a number that satisfies `p` with none above it that
/// does, or nothing if no number below `k` satisfies `p`.
pub proof fn lemma_highest(p: spec_fn(int) -> bool, k: int)
    ensures
        match highest(p, k) {
            Some(x) => 0 <= x < k && p(x) && forall|y: int| x < y < k ==> !#[trigger] p(y),
            None => forall|y: int| 0 <= y < k ==> !#[trigger] p(y),
        },
    decreases k,
{
    if k > 0 && !p(k - 1) {
        lemma_highest(p, k - 1);
    }
}

/// The highest member of a set of thread identifiers held as a bitmap is the
/// highest number that satisfies the set's predicate.
proof fn lemma_highest_is_top_bit(bitmap: u64, p: spec_fn(int) -> bool)
    requires
        forall|t: int| 0 <= t < 256 ==> (bit_is_set(bitmap, t) <==> #[trigger] p(t)),
    ensures
        top_bit(bitmap) == highest(p, 256),
{
    lemma_top_bit_below(bitmap, 64);
    lemma_highest(p, 256);
    match (top_bit(bitmap), highest(p, 256)) {
        (Some(a), Some(b)) => {
            assert(p(a));
            assert(bit_is_set(bitmap, b));
        },
        (Some(a), None) => {
            assert(p(a));
        },
        (None, Some(b)) => {
            assert(bit_is_set(bitmap, b));
        },
        (None, None) => {},
    }
}

/// The threads that should run and do not, though an idle core still records
/// them.
pub open spec fn should_resume(alloc: Seq<(bool, ThreadId)>, v: Seq<Seq<u8>>) -> spec_fn(
    int,
) -> bool {
    |t: int| in_top(v, alloc.len() as int, t) && !is_allocated(alloc, t) && is_recorded(alloc, t)
}

/// The threads that run and should not.
pub open spec fn should_stop(alloc: Seq<(bool, ThreadId)>, v: Seq<Seq<u8>>) -> spec_fn(
    int,
) -> bool {
    |t: int| is_allocated(alloc, t) && !in_top(v, alloc.len() as int, t)
}

/// The threads that should run and do not.
pub open spec fn should_start(alloc: Seq<(bool, ThreadId)>, v: Seq<Seq<u8>>) -> spec_fn(
    int,
) -> bool {
    |t: int| in_top(v, alloc.len() as int, t) && !is_allocated(alloc, t)
}

/// What a core's slot says it runs.
pub open spec fn running(slot: (bool, ThreadId)) -> Option<int> {
    if slot.0 {
        Some(slot.1@)
    } else {
        None
    }
}

/// The first core at or after `c` whose slot records thread `id`; the number
/// of cores if there is none.
pub open spec fn first_recording(alloc: Seq<(bool, ThreadId)>, id: int, c: int) -> int
    decreases alloc.len() - c,
{
    if c < 0 || c >= alloc.len() {
        alloc.len() as int
    } else if alloc[c].1@ == id {
        c
    } else {
        first_recording(alloc, id, c + 1)
    }
}

/// The first core at or after `c` that runs `who` (that is idle, if `who` is
/// `None`); the number of cores if there is none.
pub open spec fn first_running(alloc: Seq<(bool, ThreadId)>, who: Option<int>, c: int) -> int
    decreases alloc.len() - c,
{
    if c < 0 || c >= alloc.len() {
        alloc.len() as int
    } else if running(alloc[c]) == who {
        c
    } else {
        first_running(alloc, who, c + 1)
    }
}

/// One step of reallocation: the allocation `alloc` is brought closer to the
/// first `alloc.len()` threads of the queues `v`, by changing the slot of at
/// most one core. Yields the new allocation and the core that changed.
///
/// - If the cores run exactly the first threads, nothing changes.
/// - Otherwise, if a thread that should run is still recorded on an idle
///   core, the highest such thread resumes on the first core that records it.
/// - Otherwise one core changes: the first core running the highest thread
///   that should no longer run, or the first idle core if there is no such
///   thread. It is given the highest thread that should run and does not, or
///   falls idle if there is none.
pub open spec fn realloc_step(alloc: Seq<(bool, ThreadId)>, v: Seq<Seq<u8>>) -> (
    Seq<(bool, ThreadId)>,
    Option<CoreId>,
) {
    let n = alloc.len() as int;
    if forall|t: int| in_top(v, n, t) == is_allocated(alloc, t) {
        (alloc, None)
    } else {
        match highest(should_resume(alloc, v), 256) {
            Some(id) => {
                let core = first_recording(alloc, id, 0);
                (alloc.update(core, (true, alloc[core].1)), Some(CoreId(core as u8)))
            },
            None => {
                let removed = highest(should_stop(alloc, v), 256);
                let added = highest(should_start(alloc, v), 256);
                let core = first_running(alloc, removed, 0);
                let slot = match added {
                    Some(id) => (true, ThreadId(id as u8)),
                    None => (false, alloc[core].1),
                };
                (alloc.update(core, slot), Some(CoreId(core as u8)))
            },
        }
    }
}

/// What holds of every allocation of a run queue for several cores: the
/// recorded identifiers are at most `n_threads` (which stands for "none
/// yet"), the threads that run are valid, and no thread runs on two cores.
pub open spec fn alloc_wf(alloc: Seq<(bool, ThreadId)>, n_threads: int) -> bool {
    &&& forall|c: int| 0 <= c < alloc.len() ==> (#[trigger] alloc[c]).1@ <= n_threads
    &&& forall|c: int| 0 <= c < alloc.len() && (#[trigger] alloc[c]).0 ==> alloc[c].1@ < n_threads
    &&& forall|c1: int, c2: int|
        0 <= c1 < alloc.len() && 0 <= c2 < alloc.len() && (#[trigger] alloc[c1]).0
            && (#[trigger] alloc[c2]).0 && alloc[c1].1 == alloc[c2].1 ==> c1 == c2
}

/// Everything in the queues `v` below `k` is a valid thread, so the first
/// threads in scheduling order are.
proof fn lemma_nth_valid(v: Seq<Seq<u8>>, k: int, i: int, n_threads: int)
    requires
        lists_wf(v, v.len() as int, n_threads),
        0 <= i,
    ensures
        nth_runnable(v, k, i) matches Some(t) ==> t < n_threads && lists_contain(v, t),
    decreases k,
{
    if k <= 0 || k > v.len() {
    } else if i < v[k - 1].len() {
        assert(v[k - 1][i] < n_threads);
        assert(v[k - 1].contains(v[k - 1][i]));
    } else {
        lemma_nth_valid(v, k - 1, i - v[k - 1].len(), n_threads);
    }
}

/// If every core runs a thread, all of them among the first threads in
/// scheduling order, then every one of the first threads runs: with a thread
/// that should run and does not, there is an idle core.
proof fn lemma_idle_core(alloc: Seq<(bool, ThreadId)>, v: Seq<Seq<u8>>, n_threads: int, t: int)
    requires
        alloc_wf(alloc, n_threads),
        forall|c: int| 0 <= c < alloc.len() && (#[trigger] alloc[c]).0 ==> in_top(v, alloc.len() as int, alloc[c].1@),
        in_top(v, alloc.len() as int, t),
        !is_allocated(alloc, t),
    ensures
        exists|c: int| 0 <= c < alloc.len() && !(#[trigger] alloc[c]).0,
{
    let n = alloc.len() as int;
    if forall|c: int| 0 <= c < n ==> (#[trigger] alloc[c]).0 {
        // The identifiers that run, one for each core.
        let ids = Seq::new(n as nat, |c: int| alloc[c].1@);
        assert(ids.no_duplicates()) by {
            assert forall|c1: int, c2: int| 0 <= c1 < n && 0 <= c2 < n && c1 != c2 implies ids[c1]
                != ids[c2] by {
                assert(alloc[c1].0 && alloc[c2].0);
            }
        }
        ids.unique_seq_to_set();
        vstd::seq_lib::seq_to_set_is_finite(ids);
        // The first threads: at most one for each position.
        let places = vstd::set_lib::set_int_range(0, n).filter(|i: int| top(v, i) is Some);
        let f = |i: int| top(v, i).unwrap() as int;
        let tops = places.map(f);
        vstd::set_lib::lemma_int_range(0, n);
        vstd::set_lib::set_int_range(0, n).lemma_len_filter(|i: int| top(v, i) is Some);
        vstd::set_lib::lemma_map_size_bound(places, tops, f);
        assert(ids.to_set().subset_of(tops)) by {
            assert forall|x: int| ids.to_set().contains(x) implies tops.contains(x) by {
                let c = choose|c: int| 0 <= c < n && ids[c] == x;
                assert(alloc[c].0);
                assert(in_top(v, n, x));
                let i = choose|i: int| 0 <= i < n && #[trigger] top(v, i) == Some(x as u8) && 0 <= x < 256;
                assert(places.contains(i));
                assert(f(i) == x);
            }
        }
        vstd::set_lib::lemma_len_subset(ids.to_set(), tops);
        vstd::set_lib::lemma_subset_equality(ids.to_set(), tops);
        let i = choose|i: int| 0 <= i < n && #[trigger] top(v, i) == Some(t as u8) && 0 <= t < 256;
        assert(places.contains(i));
        assert(f(i) == t);
        assert(tops.contains(t));
        assert(ids.to_set().contains(t));
        let c = choose|c: int| 0 <= c < n && ids[c] == t;
        assert(alloc[c].0 && alloc[c].1@ == t);
        assert(false);
    }
}

/// The queues after thread `n` has been added with priority `rq`: `n` is
/// appended to queue `rq`, unless it is in the run queue already.
pub open spec fn added(v: Seq<Seq<u8>>, n: ThreadId, rq: RunqueueId) -> Seq<Seq<u8>> {
    if lists_contain(v, n.0) {
        v
    } else {
        v.update(rq@, v[rq@].push(n.0))
    }
}

/// The queues after thread `n` has been deleted from queue `rq`.
pub open spec fn deleted(v: Seq<Seq<u8>>, n: ThreadId, rq: RunqueueId) -> Seq<Seq<u8>> {
    v.update(rq@, without(v[rq@], n.0))
}

/// The queues after thread `n` has yielded within queue `rq`. If `n` is the
/// head, or if there is a single core, the queue is rotated; otherwise `n`
/// moves to the tail.
pub open spec fn advanced(v: Seq<Seq<u8>>, n: ThreadId, rq: RunqueueId, single_core: bool) -> Seq<
    Seq<u8>,
> {
    if single_core || head_of(v[rq@]) == Some(n) {
        v.update(rq@, rotate(v[rq@]))
    } else {
        v.update(rq@, without(v[rq@], n.0).push(n.0))
    }
}

/// Whether queue `p` of `v` has a member, as a predicate on `p`.
pub open spec fn nonempty_at(v: Seq<Seq<u8>>) -> spec_fn(int) -> bool {
    |p: int| 0 <= p < v.len() && v[p].len() > 0
}

/// The highest priority of which a thread is in the queues `v`.
pub open spec fn top_queue(v: Seq<Seq<u8>>) -> Option<int> {
    highest(nonempty_at(v), v.len() as int)
}

/// The first thread in scheduling order is the head of the queue of the
/// highest priority that has a thread.
pub proof fn lemma_top_is_head(v: Seq<Seq<u8>>)
    ensures
        to_tid(top(v, 0)) == match top_queue(v) {
            Some(p) => head_of(v[p]),
            None => None,
        },
        top_queue(v) matches Some(p) ==> 0 <= p < v.len() && v[p].len() > 0,
{
    lemma_highest(nonempty_at(v), v.len() as int);
    match top_queue(v) {
        Some(p) => {
            assert(nonempty_at(v)(p));
            assert forall|q: int| p + 1 <= q < v.len() implies (#[trigger] v[q]).len() == 0 by {
                assert(!nonempty_at(v)(q));
            }
            lemma_skip_empty(v, v.len() as int, p + 1, 0);
        },
        None => {
            assert forall|q: int| 0 <= q < v.len() implies (#[trigger] v[q]).len() == 0 by {
                assert(!nonempty_at(v)(q));
            }
            lemma_skip_empty(v, v.len() as int, 0, 0);
        },
    }
}

/// The queues after the first thread in scheduling order has been taken out.
pub open spec fn popped(v: Seq<Seq<u8>>) -> Seq<Seq<u8>> {
    match top_queue(v) {
        Some(p) => v.update(p, v[p].drop_first()),
        None => v,
    }
}

/// The list `l` after `k` of its members have moved, one by one, from the
/// head to the tail.
pub open spec fn rotated_by(l: Seq<u8>, k: int) -> Seq<u8> {
    l.subrange(k, l.len() as int) + l.subrange(0, k)
}

/// Moving the head of a list that has been rotated `k` times to the tail
/// rotates it once more.
pub proof fn lemma_rotate_step(l: Seq<u8>, k: int)
    requires
        0 <= k < l.len(),
    ensures
        rotate(rotated_by(l, k)) == rotated_by(l, k + 1),
        rotated_by(l, k).len() == l.len(),
        rotated_by(l, k)[0] == l[k],
        rotated_by(l, 0) == l,
        rotated_by(l, l.len() as int) == l,
{
    assert(rotate(rotated_by(l, k)) =~= rotated_by(l, k + 1));
    assert(rotated_by(l, 0) =~= l);
    assert(rotated_by(l, l.len() as int) =~= l);
}

/// Whether `predicate` accepts the list member `n`.
pub open spec fn accepts<F: Fn(&ThreadId) -> bool>(predicate: F, n: u8) -> bool {
    call_ensures(predicate, (&ThreadId(n),), true)
}

/// Whether `predicate` rejects the list member `n`.
pub open spec fn rejects<F: Fn(&ThreadId) -> bool>(predicate: F, n: u8) -> bool {
    call_ensures(predicate, (&ThreadId(n),), false)
}

/// Whether `predicate` rejects every thread of the queues `v` that comes
/// before position `k` of queue `q` in scheduling order: the members of the
/// queues above `q`, and the first `k` members of queue `q`.
pub open spec fn rejects_before<F: Fn(&ThreadId) -> bool>(
    predicate: F,
    v: Seq<Seq<u8>>,
    q: int,
    k: int,
) -> bool {
    &&& forall|q2: int, i: int|
        q < q2 < v.len() && 0 <= i < v[q2].len() ==> rejects(predicate, #[trigger] v[q2][i])
    &&& forall|i: int| 0 <= i < k && i < v[q].len() ==> rejects(predicate, #[trigger] v[q][i])
}

/// Whether thread `t`, at position `k` of queue `q` of `before`, is the first
/// thread in scheduling order that `predicate` accepts, and `after` is
/// `before` with queue `q` rotated so that `t` is its head.
pub open spec fn found_at<F: Fn(&ThreadId) -> bool>(
    predicate: F,
    before: Seq<Seq<u8>>,
    after: Seq<Seq<u8>>,
    t: ThreadId,
    q: int,
    k: int,
) -> bool {
    &&& 0 <= q < before.len()
    &&& 0 <= k < before[q].len()
    &&& before[q][k] == t.0
    &&& accepts(predicate, t.0)
    &&& rejects_before(predicate, before, q, k)
    &&& after == before.update(q, rotated_by(before[q], k))
}

/// The operations of a run queue that is shared by `N_CORES` cores.
pub trait GlobalRunqueue<
    const N_QUEUES: usize,
    const N_THREADS: usize,
    const N_CORES: usize,
>: Sized {
    /// The run queue is well-formed.
    spec fn inv(&self) -> bool;

    /// The queues, one per priority, each from head to tail.
    spec fn lists(&self) -> Seq<Seq<u8>>;

    /// The slot of each core: whether it runs a thread, and which thread is
    /// recorded for it.
    spec fn slots(&self) -> Seq<(bool, ThreadId)>;

    /// Adds thread `n` to run queue number `rq`.
    ///
    /// Returns a [`CoreId`] if the allocation for this core changed. With a
    /// single core that is the case when no thread of this priority was
    /// runnable before.
    fn add(&mut self, n: ThreadId, rq: RunqueueId) -> (r: Option<CoreId>)
        requires
            old(self).inv(),
            n@ < N_THREADS,
            rq@ < N_QUEUES,
            lists_contain(old(self).lists(), n.0) ==> old(self).lists()[rq@].contains(n.0),
        ensures
            final(self).inv(),
            final(self).lists() == added(old(self).lists(), n, rq),
            N_CORES == 1 ==> final(self).slots() == old(self).slots() && r == if old(self).lists()[rq@].len() == 0 {
                Some(CoreId(0))
            } else {
                None
            },
            N_CORES != 1 ==> (final(self).slots(), r) == realloc_step(
                old(self).slots(),
                final(self).lists(),
            ),
    ;

    /// Removes thread `n` from run queue number `rq`.
    ///
    /// Returns a [`CoreId`] if the allocation for this core changed; with a
    /// single core, always.
    fn del(&mut self, n: ThreadId, rq: RunqueueId) -> (r: Option<CoreId>)
        requires
            old(self).inv(),
            n@ < N_THREADS,
            rq@ < N_QUEUES,
            lists_contain(old(self).lists(), n.0) ==> old(self).lists()[rq@].contains(n.0),
        ensures
            final(self).inv(),
            final(self).lists() == deleted(old(self).lists(), n, rq),
            N_CORES == 1 ==> final(self).slots() == old(self).slots() && r == Some(CoreId(0)),
            N_CORES != 1 ==> (final(self).slots(), r) == realloc_step(
                old(self).slots(),
                final(self).lists(),
            ),
    ;

    /// Advances from thread `n` in run queue number `rq`.
    ///
    /// This is used to "yield" to another thread of *the same* priority.
    /// With a single core the queue is rotated whatever `n` is. With
    /// several, a thread `n` that is not the head of the queue moves to its
    /// tail, which changes the order of the queue.
    ///
    /// Returns a [`CoreId`] if the allocation for this core changed. With a
    /// single core that is the case when the queue is not empty.
    fn advance(&mut self, n: ThreadId, rq: RunqueueId) -> (r: Option<CoreId>)
        requires
            old(self).inv(),
            rq@ < N_QUEUES,
            N_CORES != 1 ==> n@ < N_THREADS && old(self).lists()[rq@].contains(n.0),
        ensures
            final(self).inv(),
            final(self).lists() == advanced(old(self).lists(), n, rq, N_CORES == 1),
            N_CORES == 1 ==> final(self).slots() == old(self).slots() && r == if old(self).lists()[rq@].len() == 0 {
                None
            } else {
                Some(CoreId(0))
            },
            N_CORES != 1 ==> (final(self).slots(), r) == realloc_step(
                old(self).slots(),
                final(self).lists(),
            ),
    ;

    /// Brings the allocation one step closer to the `N_CORES` first threads
    /// in scheduling order.
    ///
    /// This changes the slot of at most one core, which is enough if the run
    /// queue has changed by one addition, deletion or advancement since the
    /// cores ran exactly the first threads.
    ///
    /// Returns a [`CoreId`] if the allocation for this core changed.
    fn reallocate(&mut self) -> (r: Option<CoreId>)
        requires
            old(self).inv(),
            N_CORES != 1,
        ensures
            final(self).inv(),
            final(self).lists() == old(self).lists(),
            (final(self).slots(), r) == realloc_step(old(self).slots(), old(self).lists()),
    ;

    /// The next thread that should run on `core`: with a single core the
    /// first thread in scheduling order, with several the thread allocated
    /// to `core`.
    fn get_next(&self, core: CoreId) -> (r: Option<ThreadId>)
        requires
            self.inv(),
        ensures
            N_CORES == 1 ==> r == to_tid(top(self.lists(), 0)),
            N_CORES != 1 ==> r == if core@ < N_CORES && self.slots()[core@].0 {
                Some(self.slots()[core@].1)
            } else {
                None
            },
    ;
}

/// Run queue for `N_QUEUES` priorities, `N_THREADS` threads and `N_CORES`
/// cores.
///
/// - run queue numbers are `0..N_QUEUES`, and a higher number is a higher
///   priority; there are at most 32 of them
/// - thread identifiers are `0..N_THREADS`, and `N_THREADS` is at most 255
pub struct RunQueue<const N_QUEUES: usize, const N_THREADS: usize, const N_CORES: usize> {
    /// The priorities whose queue is not empty.
    bitcache: u64,
    queues: CList<N_QUEUES, N_THREADS>,
    /// For each core whether it runs a thread, and the thread recorded for it.
    next: [(bool, ThreadId); N_CORES],
}

impl<const N_QUEUES: usize, const N_THREADS: usize, const N_CORES: usize> RunQueue<
    N_QUEUES,
    N_THREADS,
    N_CORES,
> {
    /// The queues, each from head to tail.
    pub closed spec fn queues(&self) -> Seq<Seq<u8>> {
        self.queues@
    }

    /// The bitmap of priorities.
    pub closed spec fn bitmap(&self) -> u64 {
        self.bitcache
    }

    /// The slot of each core: whether it runs a thread, and which thread is
    /// recorded for it.
    pub closed spec fn allocation(&self) -> Seq<(bool, ThreadId)> {
        self.next@
    }

    /// The list pool is intact.
    pub closed spec fn rep_inv(&self) -> bool {
        self.queues.wf()
    }

    /// Well-formedness. In particular, the bit of a priority is set in the
    /// bitmap if and only if the queue of that priority is not empty.
    pub open spec fn wf(&self) -> bool {
        &&& 1 <= N_CORES <= 255
        &&& N_QUEUES <= 32
        &&& N_CORES > 1 ==> N_THREADS < 64
        &&& self.rep_inv()
        &&& lists_wf(self.queues(), N_QUEUES as int, N_THREADS as int)
        &&& forall|p: int|
            #![trigger bit_is_set(self.bitmap(), p)]
            #![trigger self.queues()[p]]
            0 <= p < 64 ==> (bit_is_set(self.bitmap(), p) <==> (p < N_QUEUES
                && self.queues()[p].len() > 0))
        &&& self.allocation().len() == N_CORES
        &&& N_CORES > 1 ==> alloc_wf(self.allocation(), N_THREADS as int)
    }

    /// Whether thread `n` is in the run queue.
    pub open spec fn contains(&self, n: ThreadId) -> bool {
        lists_contain(self.queues(), n.0)
    }

    /// The bit of a priority is set in the bitmap if and only if the queue
    /// of that priority is not empty.
    pub proof fn law_bitmap_matches_queues(&self, p: int)
        requires
            self.wf(),
        ensures
            bit_is_set(self.bitmap(), p) <==> (0 <= p < N_QUEUES && self.queues()[p].len() > 0),
    {
        if 0 <= p < 64 {
            assert(bit_is_set(self.bitmap(), p) <==> (p < N_QUEUES && self.queues()[p].len() > 0));
        }
    }

    /// Deleting a thread that is not in the run queue changes nothing.
    pub proof fn law_del_absent(v: Seq<Seq<u8>>, n: ThreadId, rq: RunqueueId)
        requires
            0 <= rq@ < v.len(),
            !lists_contain(v, n.0),
        ensures
            deleted(v, n, rq) == v,
    {
        assert(!v[rq@].contains(n.0));
        assert(deleted(v, n, rq) =~= v);
    }

    /// Creates an empty run queue, with every core idle.
    pub fn new() -> (r: Self)
        requires
            1 <= N_CORES <= 255,
            N_QUEUES <= 32,
            N_THREADS <= 255,
            N_CORES > 1 ==> N_THREADS < 64,
        ensures
            r.wf(),
            r.queues() == Seq::new(N_QUEUES as nat, |q: int| Seq::<u8>::empty()),
            r.allocation() == Seq::new(N_CORES as nat, |c: int| (false, ThreadId(N_THREADS as u8))),
    {
        let r = RunQueue {
            bitcache: 0,
            queues: CList::new(),
            next: [(false, ThreadId(N_THREADS as u8));N_CORES],
        };
        proof {
            assert forall|p: int| 0 <= p < 64 implies !bit_is_set(r.bitmap(), p) by {
                lemma_bits_zero(p);
            }
            assert(r.allocation() =~= Seq::new(
                N_CORES as nat,
                |c: int| (false, ThreadId(N_THREADS as u8)),
            ));
        }
        r
    }

    /// Whether thread `n` is in the run queue.
    pub fn is_queued(&self, n: ThreadId) -> (r: bool)
        requires
            self.wf(),
            n@ < N_THREADS,
        ensures
            r == self.contains(n),
    {
        self.queues.is_in_list(n.0)
    }

    /// The head of run queue number `rq`, if a thread is in it.
    pub fn head(&self, rq: RunqueueId) -> (r: Option<ThreadId>)
        requires
            self.wf(),
            rq@ < N_QUEUES,
        ensures
            r == head_of(self.queues()[rq@]),
    {
        match self.queues.peek_head(rq.0) {
            Some(n) => Some(ThreadId(n)),
            None => None,
        }
    }

    /// Whether no thread of priority `rq` is in the run queue.
    pub fn is_empty(&self, rq: RunqueueId) -> (r: bool)
        requires
            self.wf(),
            rq@ < N_QUEUES,
        ensures
            r == (self.queues()[rq@].len() == 0),
    {
        self.queues.is_empty(rq.0)
    }

    /// The head of the highest queue whose bit is set in `bitcache`.
    fn peek_head(&self, bitcache: u64) -> (r: Option<ThreadId>)
        requires
            self.wf(),
            forall|p: int| bit_is_set(bitcache, p) ==> p < N_QUEUES,
        ensures
            r == match top_bit(bitcache) {
                Some(p) => head_of(self.queues()[p]),
                None => None,
            },
    {
        proof {
            lemma_top_bit_below(bitcache, 64);
        }
        // Switch to the highest priority queue remaining in the bitcache.
        let rq: u8 = match from_bitmap(bitcache) {
            Some(rq) => rq,
            None => {
                return None;
            },
        };
        match self.queues.peek_head(rq) {
            Some(n) => Some(ThreadId(n)),
            None => None,
        }
    }

    /// The `N_CORES` first threads in scheduling order.
    ///
    /// This walks the non-empty queues from the highest priority down, each
    /// from its head on, until `N_CORES` threads have been found or all
    /// queues have been visited.
    fn get_next_n(&self) -> (r: [Option<ThreadId>; N_CORES])
        requires
            self.wf(),
        ensures
            forall|k: int| 0 <= k < N_CORES ==> #[trigger] r[k] == to_tid(top(self.queues(), k)),
    {
        let ghost v = self.queues();
        let mut next_list: [Option<ThreadId>; N_CORES] = [None;N_CORES];
        let mut bitcache: u64 = self.bitcache;
        proof {
            lemma_top_bit_below(bitcache, 64);
            if top_bit(bitcache) is None {
                assert forall|k: int| 0 <= k implies top(v, k).is_none() by {
                    lemma_skip_empty(v, N_QUEUES as int, 0, k);
                }
            }
        }
        proof {
            assert(bitcache == self.bitmap());
            assert forall|q: int| bit_is_set(bitcache, q) implies q < N_QUEUES by {
                assert(bit_is_set(self.bitmap(), q));
            }
        }
        // Get the head of the highest priority queue.
        let mut head: u8 = match self.peek_head(bitcache) {
            Some(head) => {
                next_list[0] = Some(head);
                head.0
            },
            None => {
                return next_list;
            },
        };
        let mut thread: u8 = head;
        let ghost mut p: int = top_bit(bitcache).unwrap();
        let ghost mut base: int = 0;
        let ghost mut kq: int = p + 1;
        proof {
            assert forall|m: int| 0 <= m implies top(v, base + m) == #[trigger] nth_runnable(
                v,
                kq,
                m,
            ) by {
                lemma_skip_empty(v, N_QUEUES as int, kq, m);
            }
            assert(top(v, base + 0) == nth_runnable(v, kq, 0));
        }
        // Walk through the threads of the queue.
        let mut i: usize = 1;
        while i < N_CORES
            invariant
                self.wf(),
                v == self.queues(),
                1 <= i <= N_CORES,
                0 <= p < N_QUEUES,
                top_bit(bitcache) == Some(p),
                forall|q: int|
                    0 <= q < 64 ==> (bit_is_set(bitcache, q) <==> (q <= p && #[trigger] v[q].len()
                        > 0)),
                0 <= base,
                0 <= i - 1 - base < v[p].len(),
                thread == v[p][i - 1 - base],
                head == v[p][0],
                kq == p + 1,
                forall|m: int| 0 <= m ==> top(v, base + m) == #[trigger] nth_runnable(v, kq, m),
                forall|k: int| 0 <= k < i ==> #[trigger] next_list[k] == to_tid(top(v, k)),
                forall|k: int| i <= k < N_CORES ==> (#[trigger] next_list[k]).is_none(),
            decreases N_CORES - i,
        {
            let ghost j = i - 1 - base;
            proof {
                assert(v[p][j] == thread);
                assert(v[p][0] == head);
            }
            thread = self.queues.peek_next(thread);
            if thread == head {
                proof {
                    if j + 1 < v[p].len() {
                        assert(v[p][j + 1] == v[p][0]);
                    }
                    assert(j + 1 == v[p].len());
                }
                // Switch to the next queue.
                let highest: u32 = ffs(bitcache) - 1;
                let ghost bc0 = bitcache;
                bitcache &= !(1u64 << highest);
                proof {
                    lemma_top_bit_below(bc0, 64);
                    assert(highest == p);
                    assert forall|q: int| 0 <= q < 64 implies (bit_is_set(bitcache, q) <==> (q < p
                        && bit_is_set(bc0, q))) by {
                        lemma_bits_clear(bc0, highest as u64, q);
                    }
                    assert forall|q: int| bit_is_set(bitcache, q) implies q < N_QUEUES by {}
                    lemma_top_bit_below(bitcache, 64);
                    if top_bit(bitcache) is None {
                        assert forall|k: int| i <= k < N_CORES implies top(v, k).is_none() by {
                            assert(top(v, base + (k - base)) == nth_runnable(v, kq, k - base));
                            assert forall|q: int| 0 <= q < p implies (#[trigger] v[q]).len()
                                == 0 by {
                                assert(!bit_is_set(bitcache, q));
                            }
                            lemma_skip_empty(v, p, 0, k - base - v[p].len());
                        }
                    }
                }
                head = match self.peek_head(bitcache) {
                    Some(h) => h.0,
                    None => {
                        return next_list;
                    },
                };
                proof {
                    let lower = top_bit(bitcache).unwrap();
                    assert(bit_is_set(bitcache, lower));
                    assert(v[lower].len() > 0);
                    let kq2 = lower + 1;
                    assert forall|m: int| 0 <= m implies top(v, i + m) == #[trigger] nth_runnable(
                        v,
                        kq2,
                        m,
                    ) by {
                        assert(top(v, base + (j + 1 + m)) == nth_runnable(v, kq, j + 1 + m));
                        assert forall|q: int| lower + 1 <= q < p implies (#[trigger] v[q]).len()
                            == 0 by {
                            assert(!bit_is_set(bitcache, q));
                        }
                        lemma_skip_empty(v, p, lower + 1, m);
                    }
                    p = lower;
                    kq = kq2;
                    base = i as int;
                }
                thread = head;
            } else {
                proof {
                    assert(j + 1 < v[p].len());
                }
            }
            proof {
                assert(top(v, base + (i - base)) == nth_runnable(v, kq, i - base));
            }
            next_list[i] = Some(ThreadId(thread));
            i += 1;
        }
        next_list
    }

    /// The bitmap is that of the queues, once the bit of queue `rq`, which
    /// alone may have changed, has been brought up to date.
    proof fn lemma_bitmap_kept(&self, b0: u64, v0: Seq<Seq<u8>>, rq: int)
        requires
            0 <= rq < N_QUEUES <= 32,
            self.queues().len() == N_QUEUES,
            v0.len() == N_QUEUES,
            forall|p: int|
                #![trigger bit_is_set(b0, p)]
                0 <= p < 64 ==> (bit_is_set(b0, p) <==> (p < N_QUEUES && v0[p].len() > 0)),
            forall|p: int| 0 <= p < N_QUEUES && p != rq ==> self.queues()[p] == v0[p],
            self.bitmap() == if self.queues()[rq].len() == 0 {
                b0 & !(1u64 << (rq as u64))
            } else {
                b0 | (1u64 << (rq as u64))
            },
        ensures
            forall|p: int|
                #![trigger bit_is_set(self.bitmap(), p)]
                #![trigger self.queues()[p]]
                0 <= p < 64 ==> (bit_is_set(self.bitmap(), p) <==> (p < N_QUEUES
                    && self.queues()[p].len() > 0)),
    {
        assert forall|p: int|
            #![trigger bit_is_set(self.bitmap(), p)]
            #![trigger self.queues()[p]]
            0 <= p < 64 implies (bit_is_set(self.bitmap(), p) <==> (p < N_QUEUES
            && self.queues()[p].len() > 0)) by {
            lemma_bits_clear(b0, rq as u64, p);
            lemma_bits_set(b0, rq as u64, p);
            assert(bit_is_set(b0, p) <==> (p < N_QUEUES && v0[p].len() > 0));
        }
    }

    /// Takes thread `n`, the head of run queue number `rq`, out of the run
    /// queue.
    pub fn pop_head(&mut self, n: ThreadId, rq: RunqueueId)
        requires
            old(self).wf(),
            rq@ < N_QUEUES,
            head_of(old(self).queues()[rq@]) == Some(n),
        ensures
            final(self).wf(),
            final(self).queues() == old(self).queues().update(
                rq@,
                old(self).queues()[rq@].drop_first(),
            ),
            final(self).allocation() == old(self).allocation(),
    {
        let ghost v0 = self.queues();
        let ghost b0 = self.bitcache;
        self.queues.pop_head(rq.0);
        if self.queues.is_empty(rq.0) {
            self.bitcache &= !(1u64 << rq.0);
        } else {
            proof {
                assert(bit_is_set(b0, rq@));
                let s: u64 = rq.0 as u64;
                assert(((b0 >> s) & 1 == 1) ==> (b0 | (1u64 << s)) == b0) by (bit_vector)
                    requires
                        s < 64,
                ;
            }
        }
        proof {
            self.lemma_bitmap_kept(b0, v0, rq@);
        }
    }

    /// Takes the first thread in scheduling order out of the run queue and
    /// returns it: the head of the highest priority queue that has a thread.
    pub fn pop_next(&mut self) -> (r: Option<ThreadId>)
        requires
            old(self).wf(),
        ensures
            final(self).wf(),
            r == to_tid(top(old(self).queues(), 0)),
            final(self).queues() == popped(old(self).queues()),
            final(self).allocation() == old(self).allocation(),
    {
        let ghost v0 = self.queues();
        let ghost b0 = self.bitcache;
        proof {
            lemma_top_is_head(v0);
            lemma_highest(nonempty_at(v0), v0.len() as int);
            lemma_top_bit_below(b0, 64);
            match top_bit(b0) {
                Some(p) => {
                    assert(bit_is_set(self.bitmap(), p));
                    assert(nonempty_at(v0)(p));
                    let q = top_queue(v0).unwrap();
                    assert(nonempty_at(v0)(q));
                    assert(bit_is_set(self.bitmap(), q));
                },
                None => {
                    if top_queue(v0) is Some {
                        let q = top_queue(v0).unwrap();
                        assert(nonempty_at(v0)(q));
                        assert(bit_is_set(self.bitmap(), q));
                    }
                },
            }
        }
        let rq: u8 = match from_bitmap(self.bitcache) {
            Some(rq) => rq,
            None => {
                return None;
            },
        };
        let head = self.queues.pop_head(rq);
        if self.queues.is_empty(rq) {
            self.bitcache &= !(1u64 << rq);
        } else {
            proof {
                let s: u64 = rq as u64;
                assert(((b0 >> s) & 1 == 1) ==> (b0 | (1u64 << s)) == b0) by (bit_vector)
                    requires
                        s < 64,
                ;
            }
        }
        proof {
            self.lemma_bitmap_kept(b0, v0, rq as int);
        }
        match head {
            Some(n) => Some(ThreadId(n)),
            None => None,
        }
    }

    /// Finds the first thread in scheduling order that `predicate` accepts.
    ///
    /// The queues are searched from the highest priority down. In each, a
    /// head that the predicate rejects is moved to the tail, so the thread
    /// that is found is left at the head of its queue, with the threads that
    /// were skipped behind it in their order; a queue in which no thread is
    /// accepted is left as it was.
    pub fn get_next_filter<F: Fn(&ThreadId) -> bool>(&mut self, predicate: F) -> (r: Option<
        ThreadId,
    >)
        requires
            old(self).wf(),
            forall|t: ThreadId| t@ < N_THREADS ==> call_requires(predicate, (&t,)),
        ensures
            final(self).wf(),
            final(self).allocation() == old(self).allocation(),
            r is None ==> final(self).queues() == old(self).queues() && rejects_before(
                predicate,
                old(self).queues(),
                -1,
                0,
            ),
            r is Some ==> exists|q: int, k: int|
                found_at(predicate, old(self).queues(), final(self).queues(), r.unwrap(), q, k),
    {
        let ghost v0 = self.queues();
        let ghost b0 = self.bitcache;
        let mut bitcache: u64 = self.bitcache;
        let ghost mut bound: int = 64;
        loop
            invariant
                self.wf(),
                self.queues() == v0,
                v0 == old(self).queues(),
                self.bitmap() == b0,
                self.allocation() == old(self).allocation(),
                forall|t: ThreadId| t@ < N_THREADS ==> call_requires(predicate, (&t,)),
                0 <= bound <= 64,
                forall|p: int|
                    0 <= p < 64 ==> (#[trigger] bit_is_set(bitcache, p) <==> (p < bound
                        && bit_is_set(b0, p))),
                forall|q2: int, i: int|
                    bound <= q2 < v0.len() && 0 <= i < v0[q2].len() ==> rejects(
                        predicate,
                        #[trigger] v0[q2][i],
                    ),
            decreases bound,
        {
            proof {
                lemma_top_bit_below(bitcache, 64);
            }
            let rq: u8 = match from_bitmap(bitcache) {
                Some(rq) => rq,
                None => {
                    proof {
                        assert forall|q2: int, i: int|
                            -1 < q2 < v0.len() && 0 <= i < v0[q2].len() implies rejects(
                            predicate,
                            #[trigger] v0[q2][i],
                        ) by {
                            if q2 < bound {
                                assert(!bit_is_set(bitcache, q2));
                                assert(!bit_is_set(self.bitmap(), q2));
                            }
                        }
                        assert(rejects_before(predicate, v0, -1, 0));
                    }
                    return None;
                },
            };
            let ghost l0 = v0[rq as int];
            proof {
                assert(bit_is_set(bitcache, rq as int));
                assert(bit_is_set(self.bitmap(), rq as int));
                assert(l0.len() > 0);
                assert forall|q2: int, i: int|
                    rq < q2 < v0.len() && 0 <= i < v0[q2].len() implies rejects(
                    predicate,
                    #[trigger] v0[q2][i],
                ) by {
                    if q2 < bound {
                        assert(!bit_is_set(bitcache, q2));
                        assert(!bit_is_set(self.bitmap(), q2));
                    }
                }
                lemma_rotate_step(l0, 0);
                assert(v0 =~= v0.update(rq as int, rotated_by(l0, 0)));
            }
            let first: u8 = match self.queues.peek_head(rq) {
                Some(first) => first,
                None => 0xFF,
            };
            let mut head: u8 = first;
            let ghost mut k: int = 0;
            loop
                invariant_except_break
                    0 <= k < l0.len(),
                    head == l0[k],
                    self.queues() == v0.update(rq as int, rotated_by(l0, k)),
                invariant
                    self.rep_inv(),
                        lists_wf(self.queues(), N_QUEUES as int, N_THREADS as int),
                    lists_wf(v0, N_QUEUES as int, N_THREADS as int),
                    v0 == old(self).queues(),
                    self.bitmap() == b0,
                    self.allocation() == old(self).allocation(),
                    rq < N_QUEUES,
                    l0 == v0[rq as int],
                    l0.len() > 0,
                    first == l0[0],
                    1 <= N_CORES <= 255,
                    N_QUEUES <= 32,
                    N_CORES > 1 ==> N_THREADS < 64,
                    N_CORES > 1 ==> alloc_wf(self.allocation(), N_THREADS as int),
                    self.allocation().len() == N_CORES,
                    forall|p: int|
                        0 <= p < 64 ==> (#[trigger] bit_is_set(b0, p) <==> (p < N_QUEUES
                            && v0[p].len() > 0)),
                    forall|q2: int, i: int|
                        rq < q2 < v0.len() && 0 <= i < v0[q2].len() ==> rejects(
                            predicate,
                            #[trigger] v0[q2][i],
                        ),
                    forall|t: ThreadId| t@ < N_THREADS ==> call_requires(predicate, (&t,)),
                    forall|i: int| 0 <= i < k ==> rejects(predicate, #[trigger] l0[i]),
                ensures
                    self.queues() == v0,
                    forall|i: int| 0 <= i < l0.len() ==> rejects(predicate, #[trigger] l0[i]),
                decreases l0.len() - k,
            {
                proof {
                    assert(v0[rq as int][k] < N_THREADS);
                }
                let candidate = ThreadId(head);
                proof {
                    assert(candidate@ < N_THREADS);
                    assert(call_requires(predicate, (&candidate,)));
                }
                if predicate(&candidate) {
                    proof {
                        lemma_rotate_step(l0, k);
                        assert forall|p: int|
                            #![trigger bit_is_set(self.bitmap(), p)]
                            #![trigger self.queues()[p]]
                            0 <= p < 64 implies (bit_is_set(self.bitmap(), p) <==> (p < N_QUEUES
                            && self.queues()[p].len() > 0)) by {
                            assert(bit_is_set(b0, p) <==> (p < N_QUEUES && v0[p].len() > 0));
                        }
                        assert(v0[rq as int][k] == head);
                    }
                    let found = Some(candidate);
                    proof {
                        assert(found_at(
                            predicate,
                            old(self).queues(),
                            self.queues(),
                            found.unwrap(),
                            rq as int,
                            k,
                        ));
                    }
                    return found;
                }
                proof {
                    lemma_rotate_step(l0, k);
                }
                self.queues.advance(rq);
                proof {
                    assert(self.queues() =~= v0.update(rq as int, rotated_by(l0, k + 1)));
                    if k + 1 < l0.len() {
                        lemma_rotate_step(l0, k + 1);
                    }
                }
                head = match self.queues.peek_head(rq) {
                    Some(head) => head,
                    None => 0xFF,
                };
                proof {
                    k = k + 1;
                    if k < l0.len() {
                        assert(v0[rq as int][k] != v0[rq as int][0]);
                    } else {
                        assert(rotated_by(l0, k)[0] == l0[0]);
                        assert(v0 =~= v0.update(rq as int, l0));
                    }
                }
                if head == first {
                    break ;
                }
            }
            let ghost bc0 = bitcache;
            bitcache &= !(1u64 << rq);
            proof {
                assert forall|p: int| 0 <= p < 64 implies (#[trigger] bit_is_set(bitcache, p) <==> (p
                    < rq && bit_is_set(b0, p))) by {
                    lemma_bits_clear(bc0, rq as u64, p);
                    assert(bit_is_set(bc0, p) <==> (p < bound && bit_is_set(b0, p)));
                }
                assert forall|q2: int, i: int|
                    rq <= q2 < v0.len() && 0 <= i < v0[q2].len() implies rejects(
                    predicate,
                    #[trigger] v0[q2][i],
                ) by {
                    if q2 == rq {
                        assert(rejects(predicate, l0[i]));
                    }
                }
                bound = rq as int;
            }
        }
    }

    /// The first core whose slot records thread `id`.
    fn core_recording(&self, id: u8) -> (c: usize)
        requires
            self.allocation().len() == N_CORES,
            is_recorded(self.allocation(), id as int),
        ensures
            c < N_CORES,
            c == first_recording(self.allocation(), id as int, 0),
    {
        let ghost alloc = self.allocation();
        let ghost w = choose|w: int| 0 <= w < alloc.len() && (#[trigger] alloc[w]).1@ == id as int;
        let mut c: usize = 0;
        while self.next[c].1.0 != id
            invariant
                alloc == self.allocation(),
                alloc.len() == N_CORES,
                0 <= c <= w < N_CORES,
                alloc[w].1@ == id as int,
                first_recording(alloc, id as int, 0) == first_recording(alloc, id as int, c as int),
            decreases w - c,
        {
            c += 1;
        }
        c
    }

    /// The first core that runs thread `who`, or that is idle if `who` is
    /// `None`.
    fn core_running(&self, who: Option<u8>) -> (c: usize)
        requires
            self.allocation().len() == N_CORES,
            exists|w: int|
                0 <= w < N_CORES && running(#[trigger] self.allocation()[w]) == to_int(who),
        ensures
            c < N_CORES,
            c == first_running(self.allocation(), to_int(who), 0),
    {
        let ghost alloc = self.allocation();
        let ghost w = choose|w: int|
            0 <= w < N_CORES && running(#[trigger] self.allocation()[w]) == to_int(who);
        let mut c: usize = 0;
        loop
            invariant
                alloc == self.allocation(),
                alloc.len() == N_CORES,
                0 <= c <= w < N_CORES,
                running(alloc[w]) == to_int(who),
                first_running(alloc, to_int(who), 0) == first_running(alloc, to_int(who), c as int),
            decreases w - c,
        {
            let (is_running, id) = self.next[c];
            let found = match who {
                Some(t) => is_running && id.0 == t,
                None => !is_running,
            };
            if found {
                return c;
            }
            c += 1;
        }
    }

    /// Replaces the slot of core `c`.
    fn set_slot(&mut self, c: usize, slot: (bool, ThreadId))
        requires
            c < N_CORES,
            old(self).allocation().len() == N_CORES,
        ensures
            final(self).allocation() == old(self).allocation().update(c as int, slot),
            final(self).queues() == old(self).queues(),
            final(self).bitmap() == old(self).bitmap(),
            final(self).rep_inv() == old(self).rep_inv(),
    {
        self.next[c] = slot;
        proof {
            assert(self.allocation() =~= old(self).allocation().update(c as int, slot));
        }
    }
}

/// The thread number that an optional list member stands for.
pub open spec fn to_int(o: Option<u8>) -> Option<int> {
    match o {
        Some(t) => Some(t as int),
        None => None,
    }
}

proof fn lemma_in_top_step(v: Seq<Seq<u8>>, i: int, t: int)
    requires
        0 <= i,
    ensures
        in_top(v, i + 1, t) == (in_top(v, i, t) || (top(v, i) == Some(t as u8) && 0 <= t < 256)),
{
    if in_top(v, i + 1, t) {
        let k = choose|k: int| 0 <= k < i + 1 && #[trigger] top(v, k) == Some(t as u8) && 0 <= t < 256;
        if k < i {
            assert(in_top(v, i, t));
        }
    }
    if in_top(v, i, t) {
        let k = choose|k: int| 0 <= k < i && #[trigger] top(v, k) == Some(t as u8) && 0 <= t < 256;
        assert(0 <= k < i + 1 && top(v, k) == Some(t as u8));
    }
    if top(v, i) == Some(t as u8) && 0 <= t < 256 {
        assert(in_top(v, i + 1, t));
    }
}

proof fn lemma_allocated_step(alloc: Seq<(bool, ThreadId)>, i: int, t: int)
    requires
        0 <= i < alloc.len(),
    ensures
        allocated_below(alloc, i + 1, t) == (allocated_below(alloc, i, t) || (alloc[i].0
            && alloc[i].1@ == t)),
        recorded_below(alloc, i + 1, t) == (recorded_below(alloc, i, t) || alloc[i].1@ == t),
{
    if allocated_below(alloc, i + 1, t) {
        let c = choose|c: int|
            0 <= c < i + 1 && c < alloc.len() && (#[trigger] alloc[c]).0 && alloc[c].1@ == t;
        if c < i {
            assert(allocated_below(alloc, i, t));
        }
    }
    if allocated_below(alloc, i, t) {
        let c = choose|c: int|
            0 <= c < i && c < alloc.len() && (#[trigger] alloc[c]).0 && alloc[c].1@ == t;
        assert(0 <= c < i + 1 && alloc[c].0);
    }
    if alloc[i].0 && alloc[i].1@ == t {
        assert(allocated_below(alloc, i + 1, t));
    }
    if recorded_below(alloc, i + 1, t) {
        let c = choose|c: int| 0 <= c < i + 1 && c < alloc.len() && (#[trigger] alloc[c]).1@ == t;
        if c < i {
            assert(recorded_below(alloc, i, t));
        }
    }
    if recorded_below(alloc, i, t) {
        let c = choose|c: int| 0 <= c < i && c < alloc.len() && (#[trigger] alloc[c]).1@ == t;
        assert(0 <= c < i + 1 && alloc[c].1@ == t);
    }
    if alloc[i].1@ == t {
        assert(recorded_below(alloc, i + 1, t));
    }
}

/// A thread among the first in scheduling order is a valid thread.
proof fn lemma_in_top_valid(v: Seq<Seq<u8>>, n: int, t: int, n_threads: int)
    requires
        lists_wf(v, v.len() as int, n_threads),
        in_top(v, n, t),
    ensures
        0 <= t < n_threads,
        lists_contain(v, t as u8),
{
    let k = choose|k: int| 0 <= k < n && #[trigger] top(v, k) == Some(t as u8) && 0 <= t < 256;
    lemma_nth_valid(v, v.len() as int, k, n_threads);
}

impl<const N_QUEUES: usize, const N_THREADS: usize, const N_CORES: usize> GlobalRunqueue<
    N_QUEUES,
    N_THREADS,
    N_CORES,
> for RunQueue<N_QUEUES, N_THREADS, N_CORES> {
    open spec fn inv(&self) -> bool {
        self.wf()
    }

    open spec fn lists(&self) -> Seq<Seq<u8>> {
        self.queues()
    }

    open spec fn slots(&self) -> Seq<(bool, ThreadId)> {
        self.allocation()
    }

    fn add(&mut self, n: ThreadId, rq: RunqueueId) -> (r: Option<CoreId>) {
        let bitcache: u64 = self.bitcache;
        let ghost v0 = self.queues();
        self.bitcache |= 1u64 << rq.0;
        self.queues.push(n.0, rq.0);
        proof {
            let b = self.bitcache;
            assert((b > bitcache) <==> !bit_is_set(bitcache, rq@)) by {
                let s: u64 = rq.0 as u64;
                assert(((bitcache | (1u64 << s)) > bitcache) <==> !((bitcache >> s) & 1 == 1))
                    by (bit_vector)
                    requires
                        s < 64,
                ;
            }
            if lists_contain(v0, n.0) {
                assert(v0[rq@].contains(n.0));
                assert(v0[rq@].len() > 0);
            }
            assert forall|p: int| 0 <= p < 64 implies (bit_is_set(self.bitmap(), p) <==> (p
                < N_QUEUES && self.queues()[p].len() > 0)) by {
                lemma_bits_set(bitcache, rq.0 as u64, p);
                assert(bit_is_set(bitcache, p) <==> (p < N_QUEUES && v0[p].len() > 0));
            }
        }
        if N_CORES == 1 {
            if self.bitcache > bitcache {
                Some(CoreId(0))
            } else {
                None
            }
        } else {
            self.reallocate()
        }
    }

    fn del(&mut self, n: ThreadId, rq: RunqueueId) -> (r: Option<CoreId>) {
        let ghost v0 = self.queues();
        let ghost l0 = v0[rq@];
        let is_head = match self.queues.peek_head(rq.0) {
            Some(head) => head == n.0,
            None => false,
        };
        if is_head {
            proof {
                assert forall|i: int, j: int|
                    0 <= i < l0.len() && 0 <= j < l0.len() && l0[i] == l0[j] implies i == j by {
                    assert(v0[rq@][i] == v0[rq@][j]);
                }
                lemma_without_at(l0, 0);
                assert(l0.drop_first() =~= l0.remove(0));
            }
            self.queues.pop_head(rq.0);
        } else {
            self.queues.del(n.0, rq.0);
        }
        if self.queues.is_empty(rq.0) {
            let ghost b0 = self.bitcache;
            self.bitcache &= !(1u64 << rq.0);
            proof {
                assert forall|p: int| 0 <= p < 64 implies (bit_is_set(self.bitmap(), p) <==> (p
                    < N_QUEUES && self.queues()[p].len() > 0)) by {
                    lemma_bits_clear(b0, rq.0 as u64, p);
                    assert(bit_is_set(b0, p) <==> (p < N_QUEUES && v0[p].len() > 0));
                }
            }
        } else {
            proof {
                assert forall|p: int| 0 <= p < 64 implies (bit_is_set(self.bitmap(), p) <==> (p
                    < N_QUEUES && self.queues()[p].len() > 0)) by {
                    assert(bit_is_set(self.bitmap(), p) <==> (p < N_QUEUES && v0[p].len() > 0));
                    if p == rq@ {
                        if l0.contains(n.0) {
                        }
                    }
                }
            }
        }
        if N_CORES == 1 {
            Some(CoreId(0))
        } else {
            self.reallocate()
        }
    }

    fn advance(&mut self, n: ThreadId, rq: RunqueueId) -> (r: Option<CoreId>) {
        let ghost v0 = self.queues();
        let ghost l0 = v0[rq@];
        if N_CORES == 1 {
            let rotated = self.queues.advance(rq.0);
            proof {
                assert(rotate(l0).len() == l0.len());
                assert forall|p: int| 0 <= p < 64 implies (bit_is_set(self.bitmap(), p) <==> (p
                    < N_QUEUES && self.queues()[p].len() > 0)) by {
                    assert(bit_is_set(self.bitmap(), p) <==> (p < N_QUEUES && v0[p].len() > 0));
                }
            }
            return if rotated {
                Some(CoreId(0))
            } else {
                None
            };
        }
        let head: u8 = match self.queues.peek_head(rq.0) {
            Some(head) => head,
            None => 0xFF,
        };
        proof {
            assert(l0.len() > 0);
            assert forall|i: int, j: int|
                0 <= i < l0.len() && 0 <= j < l0.len() && l0[i] == l0[j] implies i == j by {
                assert(v0[rq@][i] == v0[rq@][j]);
            }
            let k = l0.index_of(n.0);
            assert(l0[k] == n.0);
            lemma_without_at(l0, k);
        }
        if head == n.0 {
            self.queues.advance(rq.0);
            proof {
                assert(rotate(l0).len() == l0.len());
            }
        } else if self.queues.peek_next(head) == n.0 {
            // The thread is next in line after the head: unlink it there
            // and re-insert it at the tail.
            proof {
                assert(l0[0] == head);
                if l0.len() >= 2 {
                    assert(l0[1] == l0[1]);
                }
                assert(l0.len() >= 2 && l0[1] == n.0);
                lemma_without_at(l0, 1);
            }
            self.queues.pop_next(rq.0);
            proof {
                let v1 = self.queues();
                assert(v1[rq@] == l0.remove(1));
                assert(!lists_contain(v1, n.0)) by {
                    if lists_contain(v1, n.0) {
                        let q = choose|q: int| 0 <= q < v1.len() && #[trigger] v1[q].contains(n.0);
                        let i = choose|i: int| 0 <= i < v1[q].len() && v1[q][i] == n.0;
                        if q == rq@ {
                            let i0 = if i < 1 {
                                i
                            } else {
                                i + 1
                            };
                            assert(l0[i0] == n.0);
                            assert(v0[rq@][i0] == v0[rq@][1]);
                        } else {
                            assert(v0[q][i] == v0[rq@][1]);
                        }
                    }
                }
            }
            self.queues.push(n.0, rq.0);
            proof {
                assert(self.queues() =~= v0.update(rq@, l0.remove(1).push(n.0)));
            }
        } else {
            // If the thread is not the head, remove it from the queue and
            // re-insert it at the tail.
            self.queues.del(n.0, rq.0);
            proof {
                let v1 = self.queues();
                let k = l0.index_of(n.0);
                assert(v1[rq@] == l0.remove(k));
                assert(!lists_contain(v1, n.0)) by {
                    if lists_contain(v1, n.0) {
                        let q = choose|q: int| 0 <= q < v1.len() && #[trigger] v1[q].contains(n.0);
                        let i = choose|i: int| 0 <= i < v1[q].len() && v1[q][i] == n.0;
                        if q == rq@ {
                            let i0 = if i < k {
                                i
                            } else {
                                i + 1
                            };
                            assert(l0[i0] == n.0);
                            assert(v0[rq@][i0] == v0[rq@][k]);
                        } else {
                            assert(v0[q][i] == v0[rq@][k]);
                        }
                    }
                }
            }
            self.queues.push(n.0, rq.0);
            proof {
                let k = l0.index_of(n.0);
                assert(self.queues() =~= v0.update(rq@, l0.remove(k).push(n.0)));
            }
        }
        proof {
            assert forall|p: int| 0 <= p < 64 implies (bit_is_set(self.bitmap(), p) <==> (p
                < N_QUEUES && self.queues()[p].len() > 0)) by {
                assert(bit_is_set(self.bitmap(), p) <==> (p < N_QUEUES && v0[p].len() > 0));
            }
        }
        self.reallocate()
    }

    fn reallocate(&mut self) -> (r: Option<CoreId>) {
        let ghost v = self.queues();
        let ghost alloc = self.allocation();
        let next = self.get_next_n();
        let mut bitmap_next: u64 = 0;
        let mut bitmap_allocated: u64 = 0;
        let mut bitmap_prev: u64 = 0;
        proof {
            assert forall|t: int| 0 <= t < 256 implies !bit_is_set(0u64, t) by {
                lemma_bits_zero(t);
            }
        }
        let mut i: usize = 0;
        while i < N_CORES
            invariant
                self.wf(),
                N_CORES != 1,
                v == self.queues(),
                alloc == self.allocation(),
                0 <= i <= N_CORES,
                forall|k: int| 0 <= k < N_CORES ==> #[trigger] next[k] == to_tid(top(v, k)),
                forall|t: int|
                    0 <= t < 256 ==> (#[trigger] bit_is_set(bitmap_next, t) <==> in_top(
                        v,
                        i as int,
                        t,
                    )),
                forall|t: int|
                    0 <= t < 256 ==> (#[trigger] bit_is_set(bitmap_allocated, t)
                        <==> allocated_below(alloc, i as int, t)),
                forall|t: int|
                    0 <= t < 256 ==> (#[trigger] bit_is_set(bitmap_prev, t) <==> recorded_below(
                        alloc,
                        i as int,
                        t,
                    )),
            decreases N_CORES - i,
        {
            let ghost bn0 = bitmap_next;
            let ghost ba0 = bitmap_allocated;
            let ghost bp0 = bitmap_prev;
            proof {
                assert(next[i as int] == to_tid(top(v, i as int)));
                lemma_nth_valid(v, v.len() as int, i as int, N_THREADS as int);
            }
            if let Some(id) = next[i] {
                bitmap_next |= 1u64 << id.0;
                proof {
                    assert forall|t: int| 0 <= t < 256 implies (#[trigger] bit_is_set(
                        bitmap_next,
                        t,
                    ) <==> in_top(v, i + 1, t)) by {
                        lemma_bits_set(bn0, id.0 as u64, t);
                        lemma_in_top_step(v, i as int, t);
                    }
                }
            } else {
                proof {
                    assert forall|t: int| 0 <= t < 256 implies (#[trigger] bit_is_set(
                        bitmap_next,
                        t,
                    ) <==> in_top(v, i + 1, t)) by {
                        lemma_in_top_step(v, i as int, t);
                    }
                }
            }
            let (is_running, id) = self.next[i];
            proof {
                assert(alloc[i as int] == (is_running, id));
            }
            bitmap_prev |= 1u64 << id.0;
            if is_running {
                bitmap_allocated |= 1u64 << id.0;
            }
            proof {
                assert forall|t: int| 0 <= t < 256 implies (#[trigger] bit_is_set(bitmap_prev, t)
                    <==> recorded_below(alloc, i + 1, t)) by {
                    lemma_bits_set(bp0, id.0 as u64, t);
                    lemma_allocated_step(alloc, i as int, t);
                }
                assert forall|t: int| 0 <= t < 256 implies (#[trigger] bit_is_set(
                    bitmap_allocated,
                    t,
                ) <==> allocated_below(alloc, i + 1, t)) by {
                    lemma_bits_set(ba0, id.0 as u64, t);
                    lemma_allocated_step(alloc, i as int, t);
                }
            }
            i += 1;
        }
        proof {
            assert(i == N_CORES);
            assert(alloc.len() == N_CORES);
            assert forall|t: int| 0 <= t < 256 implies (bit_is_set(bitmap_next, t) <==> in_top(
                v,
                alloc.len() as int,
                t,
            )) && (bit_is_set(bitmap_allocated, t) <==> is_allocated(alloc, t)) && (bit_is_set(
                bitmap_prev,
                t,
            ) <==> is_recorded(alloc, t)) by {
                assert(bit_is_set(bitmap_next, t) <==> in_top(v, i as int, t));
                assert(bit_is_set(bitmap_allocated, t) <==> allocated_below(alloc, i as int, t));
                assert(bit_is_set(bitmap_prev, t) <==> recorded_below(alloc, i as int, t));
            }
            // Outside the range of identifiers nothing is in either set.
            assert forall|t: int| !(0 <= t < 256) implies !in_top(v, alloc.len() as int, t)
                && !is_allocated(alloc, t) && !is_recorded(alloc, t) by {
                if is_allocated(alloc, t) {
                    let c = choose|c: int|
                        0 <= c < alloc.len() && c < alloc.len() && (#[trigger] alloc[c]).0
                            && alloc[c].1@ == t;
                }
                if is_recorded(alloc, t) {
                    let c = choose|c: int|
                        0 <= c < alloc.len() && c < alloc.len() && (#[trigger] alloc[c]).1@ == t;
                }
            }
        }
        if bitmap_next == bitmap_allocated {
            proof {
                assert forall|t: int| in_top(v, alloc.len() as int, t) == is_allocated(
                    alloc,
                    t,
                ) by {
                    if 0 <= t < 256 {
                        assert(bit_is_set(bitmap_next, t) <==> in_top(v, alloc.len() as int, t));
                    }
                }
            }
            return None;
        }
        proof {
            if forall|t: int| in_top(v, alloc.len() as int, t) == is_allocated(alloc, t) {
                assert forall|j: int| 0 <= j < 64 implies bit_is_set(bitmap_next, j)
                    == bit_is_set(bitmap_allocated, j) by {
                    assert(bit_is_set(bitmap_next, j) <==> in_top(v, alloc.len() as int, j));
                    assert(bit_is_set(bitmap_allocated, j) <==> is_allocated(alloc, j));
                }
                lemma_bits_equal(bitmap_next, bitmap_allocated);
            }
        }
        let diff: u64 = bitmap_next ^ bitmap_allocated;

        // Check if a thread was previously running on a now idle core. If
        // that is the case, reassign it to the same core.
        let reassigned: u64 = diff & bitmap_next & bitmap_prev;
        proof {
            assert forall|t: int| 0 <= t < 256 implies (bit_is_set(reassigned, t)
                <==> #[trigger] should_resume(alloc, v)(t)) by {
                lemma_bits_xor(bitmap_next, bitmap_allocated, t);
                lemma_bits_and(diff, bitmap_next, t);
                lemma_bits_and(diff & bitmap_next, bitmap_prev, t);
                assert(bit_is_set(bitmap_next, t) <==> in_top(v, alloc.len() as int, t));
                assert(bit_is_set(bitmap_allocated, t) <==> is_allocated(alloc, t));
                assert(bit_is_set(bitmap_prev, t) <==> is_recorded(alloc, t));
            }
            lemma_highest_is_top_bit(reassigned, should_resume(alloc, v));
            lemma_highest(should_resume(alloc, v), 256);
        }
        if let Some(id) = from_bitmap(reassigned) {
            proof {
                lemma_in_top_valid(v, alloc.len() as int, id as int, N_THREADS as int);
            }
            let changed_core = self.core_recording(id);
            proof {
                assert(alloc[changed_core as int].1@ == id as int) by {
                    lemma_first_recording(alloc, id as int, 0);
                }
            }
            let slot = self.next[changed_core];
            self.set_slot(changed_core, (true, slot.1));
            proof {
                let a2 = self.allocation();
                assert(alloc_wf(a2, N_THREADS as int)) by {
                    assert forall|c1: int, c2: int|
                        0 <= c1 < a2.len() && 0 <= c2 < a2.len() && (#[trigger] a2[c1]).0
                            && (#[trigger] a2[c2]).0 && a2[c1].1 == a2[c2].1 implies c1 == c2 by {
                        if c1 != c2 {
                            if c1 == changed_core {
                                assert(alloc[c2].0 && alloc[c2].1@ == id as int);
                            } else if c2 == changed_core {
                                assert(alloc[c1].0 && alloc[c1].1@ == id as int);
                            } else {
                                assert(alloc[c1].0 && alloc[c2].0);
                            }
                        }
                    }
                    assert forall|c: int| 0 <= c < a2.len() implies (#[trigger] a2[c]).1@
                        <= N_THREADS as int by {
                        assert(alloc[c].1@ <= N_THREADS as int);
                    }
                    assert forall|c: int| 0 <= c < a2.len() && (#[trigger] a2[c]).0 implies a2[c].1@
                        < N_THREADS as int by {
                        if c != changed_core {
                            assert(alloc[c].0);
                        }
                    }
                }
            }
            return Some(CoreId(changed_core as u8));
        }
        let prev_allocated: Option<u8> = from_bitmap(bitmap_allocated & diff);
        let new_allocated: Option<u8> = from_bitmap(bitmap_next & diff);
        proof {
            assert forall|t: int| 0 <= t < 256 implies (bit_is_set(bitmap_allocated & diff, t)
                <==> #[trigger] should_stop(alloc, v)(t)) by {
                lemma_bits_xor(bitmap_next, bitmap_allocated, t);
                lemma_bits_and(bitmap_allocated, diff, t);
                assert(bit_is_set(bitmap_next, t) <==> in_top(v, alloc.len() as int, t));
                assert(bit_is_set(bitmap_allocated, t) <==> is_allocated(alloc, t));
            }
            assert forall|t: int| 0 <= t < 256 implies (bit_is_set(bitmap_next & diff, t)
                <==> #[trigger] should_start(alloc, v)(t)) by {
                lemma_bits_xor(bitmap_next, bitmap_allocated, t);
                lemma_bits_and(bitmap_next, diff, t);
                assert(bit_is_set(bitmap_next, t) <==> in_top(v, alloc.len() as int, t));
                assert(bit_is_set(bitmap_allocated, t) <==> is_allocated(alloc, t));
            }
            lemma_highest_is_top_bit(bitmap_allocated & diff, should_stop(alloc, v));
            lemma_highest_is_top_bit(bitmap_next & diff, should_start(alloc, v));
            lemma_highest(should_stop(alloc, v), 256);
            lemma_highest(should_start(alloc, v), 256);
            assert(to_int(prev_allocated) == highest(should_stop(alloc, v), 256));
            assert(to_int(new_allocated) == highest(should_start(alloc, v), 256));
            // There is a core to change.
            match prev_allocated {
                Some(x) => {
                    assert(should_stop(alloc, v)(x as int));
                    let c = choose|c: int|
                        0 <= c < alloc.len() && c < alloc.len() && (#[trigger] alloc[c]).0
                            && alloc[c].1@ == x as int;
                    assert(running(alloc[c]) == to_int(prev_allocated));
                },
                None => {
                    let t = choose|t: int| in_top(v, alloc.len() as int, t) != is_allocated(alloc, t);
                    assert(!should_stop(alloc, v)(t));
                    assert forall|c: int| 0 <= c < alloc.len() && (#[trigger] alloc[c]).0 implies in_top(
                        v,
                        alloc.len() as int,
                        alloc[c].1@,
                    ) by {
                        let x = alloc[c].1@;
                        assert(is_allocated(alloc, x));
                        assert(!should_stop(alloc, v)(x));
                    }
                    lemma_idle_core(alloc, v, N_THREADS as int, t);
                    let c = choose|c: int| 0 <= c < alloc.len() && !(#[trigger] alloc[c]).0;
                    assert(running(alloc[c]) == to_int(prev_allocated));
                },
            }
        }
        let changed_core = self.core_running(prev_allocated);
        let slot = self.next[changed_core];
        let new_slot = match new_allocated {
            Some(id) => (true, ThreadId(id)),
            None => (false, slot.1),
        };
        self.set_slot(changed_core, new_slot);
        proof {
            let a2 = self.allocation();
            if let Some(id) = new_allocated {
                assert(should_start(alloc, v)(id as int));
                lemma_in_top_valid(v, alloc.len() as int, id as int, N_THREADS as int);
            }
            assert(alloc_wf(a2, N_THREADS as int)) by {
                assert forall|c1: int, c2: int|
                    0 <= c1 < a2.len() && 0 <= c2 < a2.len() && (#[trigger] a2[c1]).0
                        && (#[trigger] a2[c2]).0 && a2[c1].1 == a2[c2].1 implies c1 == c2 by {
                    if c1 != c2 {
                        if c1 == changed_core {
                            assert(alloc[c2].0 && alloc[c2].1@ == new_allocated.unwrap() as int);
                        } else if c2 == changed_core {
                            assert(alloc[c1].0 && alloc[c1].1@ == new_allocated.unwrap() as int);
                        } else {
                            assert(alloc[c1].0 && alloc[c2].0);
                        }
                    }
                }
                assert forall|c: int| 0 <= c < a2.len() implies (#[trigger] a2[c]).1@
                    <= N_THREADS as int by {
                    assert(alloc[c].1@ <= N_THREADS as int);
                }
                assert forall|c: int| 0 <= c < a2.len() && (#[trigger] a2[c]).0 implies a2[c].1@
                    < N_THREADS as int by {
                    if c != changed_core {
                        assert(alloc[c].0);
                    }
                }
            }
        }
        Some(CoreId(changed_core as u8))
    }

    fn get_next(&self, core: CoreId) -> (r: Option<ThreadId>) {
        if N_CORES == 1 {
            proof {
                let v = self.queues();
                lemma_top_bit_below(self.bitcache, 64);
                match top_bit(self.bitcache) {
                    Some(p) => {
                        assert(bit_is_set(self.bitmap(), p));
                        assert forall|q: int| p + 1 <= q < N_QUEUES implies (#[trigger] v[q]).len()
                            == 0 by {
                            assert(!bit_is_set(self.bitmap(), q));
                        }
                        lemma_skip_empty(v, N_QUEUES as int, p + 1, 0);
                    },
                    None => {
                        assert forall|q: int| 0 <= q < N_QUEUES implies (#[trigger] v[q]).len()
                            == 0 by {
                            assert(!bit_is_set(self.bitmap(), q));
                        }
                        lemma_skip_empty(v, N_QUEUES as int, 0, 0);
                    },
                }
                assert forall|q: int| bit_is_set(self.bitcache, q) implies q < N_QUEUES by {
                    assert(bit_is_set(self.bitmap(), q));
                }
            }
            return self.peek_head(self.bitcache);
        }
        if core.0 as usize >= N_CORES {
            return None;
        }
        let (is_running, next) = self.next[core.0 as usize];
        if is_running {
            Some(next)
        } else {
            None
        }
    }
}

/// The first core that records `id` does record it, if any core at or after
/// `c` does.
proof fn lemma_first_recording(alloc: Seq<(bool, ThreadId)>, id: int, c: int)
    requires
        0 <= c,
    ensures
        first_recording(alloc, id, c) < alloc.len() ==> alloc[first_recording(alloc, id, c)].1@
            == id,
    decreases alloc.len() - c,
{
    if c < alloc.len() && alloc[c].1@ != id {
        lemma_first_recording(alloc, id, c + 1);
    }
}

} // verus!
