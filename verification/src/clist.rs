//! An array of `N_QUEUES` circular linked lists over a shared pool of
//! `N_THREADS` nodes.
//!
//! The pool is the array of "next" indices, so each node can be a member of at
//! most one list at a time. A list is named by its queue index; `tail` holds
//! the last element of each list and the element after the tail is the head.
//!
//! The abstract value of a [`CList`] is one sequence per queue, listing the
//! members from head to tail.
use vstd::prelude::*;

verus! {

/// Marks "no element" in both the tail and the next-index arrays.
pub const SENTINEL: u8 = 0xFF;

/// The tail entry that stands for the list `l`.
pub open spec fn tail_of(l: Seq<u8>) -> u8 {
    if l.len() == 0 {
        SENTINEL
    } else {
        l.last()
    }
}

/// The element that follows position `i` in the cycle formed by `l`.
pub open spec fn succ_in(l: Seq<u8>, i: int) -> u8 {
    if i + 1 < l.len() {
        l[i + 1]
    } else {
        l[0]
    }
}

/// `l` with its head moved to the tail.
pub open spec fn rotate(l: Seq<u8>) -> Seq<u8> {
    if l.len() == 0 {
        l
    } else {
        l.drop_first().push(l[0])
    }
}

/// `l` without its member `n`; `l` itself if `n` is not a member.
pub open spec fn without(l: Seq<u8>, n: u8) -> Seq<u8> {
    if l.contains(n) {
        l.remove(l.index_of(n))
    } else {
        l
    }
}

/// In a list without repetition, `without` removes the one place where `n`
/// stands.
pub proof fn lemma_without_at(l: Seq<u8>, k: int)
    requires
        0 <= k < l.len(),
        forall|i: int, j: int| 0 <= i < l.len() && 0 <= j < l.len() && l[i] == l[j] ==> i == j,
    ensures
        without(l, l[k]) == l.remove(k),
{
    assert(l.contains(l[k]));
    let i = l.index_of(l[k]);
    assert(0 <= i < l.len() && l[i] == l[k]);
}

/// Whether `n` is a member of any of the lists `v`.
pub open spec fn lists_contain(v: Seq<Seq<u8>>, n: u8) -> bool {
    exists|q: int| 0 <= q < v.len() && #[trigger] v[q].contains(n)
}

/// What every well-formed pool of lists satisfies: one list per queue, every
/// member a valid node, and no node present twice.
pub open spec fn lists_wf(v: Seq<Seq<u8>>, n_queues: int, n_threads: int) -> bool {
    &&& n_threads <= 255
    &&& v.len() == n_queues
    &&& forall|q: int, i: int|
        0 <= q < v.len() && 0 <= i < v[q].len() ==> (#[trigger] v[q][i]) < n_threads
    &&& forall|q1: int, i1: int, q2: int, i2: int|
        0 <= q1 < v.len() && 0 <= i1 < v[q1].len() && 0 <= q2 < v.len() && 0 <= i2 < v[q2].len()
            && #[trigger] v[q1][i1] == #[trigger] v[q2][i2] ==> q1 == q2 && i1 == i2
}

/// The members of the lists after `n` has been appended to list `p`.
pub proof fn lemma_push_members(v: Seq<Seq<u8>>, p: int, n: u8, q: int, m: u8)
    requires
        0 <= p < v.len(),
        0 <= q < v.len(),
    ensures
        v.update(p, v[p].push(n))[q].contains(m) <==> (v[q].contains(m) || (q == p && m == n)),
{
    let l = v[p];
    let l2 = l.push(n);
    let v2 = v.update(p, l2);
    if v2[q].contains(m) {
        let i = choose|i: int| 0 <= i < v2[q].len() && v2[q][i] == m;
        if q == p && i < l.len() {
            assert(l[i] == m);
        }
    }
    if v[q].contains(m) {
        let i = choose|i: int| 0 <= i < v[q].len() && v[q][i] == m;
        assert(v2[q][i] == m);
    }
    if q == p && m == n {
        assert(l2[l.len() as int] == n);
    }
}

/// The members of the lists after the member at position `k` of list `p`
/// has been removed.
pub proof fn lemma_remove_members(
    v: Seq<Seq<u8>>,
    n_threads: int,
    p: int,
    k: int,
    q: int,
    m: u8,
)
    requires
        lists_wf(v, v.len() as int, n_threads),
        0 <= p < v.len(),
        0 <= k < v[p].len(),
        0 <= q < v.len(),
    ensures
        v.update(p, v[p].remove(k))[q].contains(m) <==> (v[q].contains(m) && m != v[p][k]),
{
    let l = v[p];
    let l2 = l.remove(k);
    let v2 = v.update(p, l2);
    if v2[q].contains(m) {
        let i = choose|i: int| 0 <= i < v2[q].len() && v2[q][i] == m;
        if q == p {
            let i0 = if i < k {
                i
            } else {
                i + 1
            };
            assert(l[i0] == m);
            assert(v[p][i0] == m);
            if m == v[p][k] {
                assert(v[p][i0] == v[p][k]);
            }
        } else {
            assert(v[q][i] == m);
            if m == v[p][k] {
                assert(v[q][i] == v[p][k]);
            }
        }
    }
    if v[q].contains(m) && m != v[p][k] {
        let i = choose|i: int| 0 <= i < v[q].len() && v[q][i] == m;
        if q == p {
            if i < k {
                assert(l2[i] == m);
            } else {
                assert(l2[i - 1] == m);
            }
        } else {
            assert(v2[q][i] == m);
        }
    }
}

/// Rotating a list keeps its members.
pub proof fn lemma_rotate_members(l: Seq<u8>, m: u8)
    ensures
        rotate(l).contains(m) <==> l.contains(m),
        rotate(l).len() == l.len(),
{
    let r = rotate(l);
    if r.contains(m) {
        let i = choose|i: int| 0 <= i < r.len() && r[i] == m;
        if i + 1 < l.len() {
            assert(l[i + 1] == m);
        } else {
            assert(l[0] == m);
        }
    }
    if l.contains(m) {
        let i = choose|i: int| 0 <= i < l.len() && l[i] == m;
        if i == 0 {
            assert(r[l.len() - 1] == m);
        } else {
            assert(r[i - 1] == m);
        }
    }
}

/// The list `l` after its head has been taken `k` times.
pub open spec fn after_pops(l: Seq<u8>, k: nat) -> Seq<u8>
    decreases k,
{
    if k == 0 || l.len() == 0 {
        l
    } else {
        after_pops(l.drop_first(), (k - 1) as nat)
    }
}

/// A list is first in, first out: after `n` has been pushed to the list `l`,
/// taking the head again and again yields the members of `l` in their
/// order, then `n`, and then the list is empty.
pub proof fn law_fifo(l: Seq<u8>, n: u8, k: nat)
    requires
        k <= l.len(),
    ensures
        after_pops(l.push(n), k).len() == l.len() + 1 - k,
        after_pops(l.push(n), k)[0] == if k < l.len() {
            l[k as int]
        } else {
            n
        },
        after_pops(l.push(n), l.len() + 1).len() == 0,
{
    lemma_after_pops(l.push(n), k);
    lemma_after_pops(l.push(n), l.len() + 1);
}

/// Taking the head of a list `k` times leaves what follows its first `k`
/// members.
pub proof fn lemma_after_pops(l: Seq<u8>, k: nat)
    requires
        k <= l.len(),
    ensures
        after_pops(l, k) == l.subrange(k as int, l.len() as int),
    decreases k,
{
    if k == 0 || l.len() == 0 {
        assert(l.subrange(0, l.len() as int) =~= l);
    } else {
        lemma_after_pops(l.drop_first(), (k - 1) as nat);
        assert(l.drop_first().subrange(k - 1, l.len() - 1) =~= l.subrange(k as int, l.len() as int));
    }
}

pub struct CList<const N_QUEUES: usize, const N_THREADS: usize> {
    tail: [u8; N_QUEUES],
    next_idxs: [u8; N_THREADS],
    /// The lists, head first.
    lists: Ghost<Seq<Seq<u8>>>,
    /// For each node the queue it is in, or -1.
    owner: Ghost<Seq<int>>,
    /// For each node that is in a queue, its position there.
    index: Ghost<Seq<int>>,
}

impl<const N_QUEUES: usize, const N_THREADS: usize> View for CList<N_QUEUES, N_THREADS> {
    type V = Seq<Seq<u8>>;

    closed spec fn view(&self) -> Seq<Seq<u8>> {
        self.lists@
    }
}

impl<const N_QUEUES: usize, const N_THREADS: usize> CList<N_QUEUES, N_THREADS> {
    /// The arrays hold exactly the lists of the abstract value.
    pub closed spec fn inv(&self) -> bool {
        let v = self.lists@;
        let owner = self.owner@;
        let index = self.index@;
        &&& N_THREADS <= 255
        &&& v.len() == N_QUEUES
        &&& owner.len() == N_THREADS
        &&& index.len() == N_THREADS
        &&& forall|q: int| 0 <= q < N_QUEUES ==> #[trigger] self.tail[q] == tail_of(v[q])
        &&& forall|q: int, i: int|
            0 <= q < N_QUEUES && 0 <= i < v[q].len() ==> {
                let n = #[trigger] v[q][i];
                &&& n < N_THREADS
                &&& owner[n as int] == q
                &&& index[n as int] == i
                &&& self.next_idxs[n as int] == succ_in(v[q], i)
            }
        &&& forall|n: int|
            0 <= n < N_THREADS ==> if #[trigger] owner[n] == -1 {
                self.next_idxs[n] == SENTINEL
            } else {
                &&& 0 <= owner[n] < N_QUEUES
                &&& 0 <= index[n] < v[owner[n]].len()
                &&& v[owner[n]][index[n]] == n
            }
    }

    /// Well-formedness: the representation invariant, and with it the
    /// properties of the abstract value that callers may rely on.
    pub open spec fn wf(&self) -> bool {
        &&& self.inv()
        &&& lists_wf(self@, N_QUEUES as int, N_THREADS as int)
    }

    /// Whether node `n` is a member of some list.
    pub open spec fn contains(&self, n: u8) -> bool {
        lists_contain(self@, n)
    }

    proof fn lemma_inv_wf(&self)
        requires
            self.inv(),
        ensures
            self.wf(),
    {
        let v = self.lists@;
        assert forall|q1: int, i1: int, q2: int, i2: int|
            0 <= q1 < v.len() && 0 <= i1 < v[q1].len() && 0 <= q2 < v.len() && 0 <= i2
                < v[q2].len() && #[trigger] v[q1][i1] == #[trigger] v[q2][i2] implies q1 == q2
            && i1 == i2 by {
            let n = v[q1][i1];
            assert(self.owner@[n as int] == q1);
            assert(self.owner@[n as int] == q2);
        }
    }

    /// A node is a member of a list exactly if its owner is recorded.
    proof fn lemma_member(&self, n: u8)
        requires
            self.inv(),
            n < N_THREADS,
        ensures
            self.contains(n) <==> self.owner@[n as int] != -1,
            self.contains(n) <==> self.next_idxs[n as int] != SENTINEL,
            self.owner@[n as int] != -1 ==> {
                let q = self.owner@[n as int];
                let i = self.index@[n as int];
                &&& 0 <= q < N_QUEUES
                &&& 0 <= i < self@[q].len()
                &&& self@[q][i] == n
                &&& self.next_idxs[n as int] == succ_in(self@[q], i)
            },
            forall|q: int| 0 <= q < N_QUEUES && #[trigger] self@[q].contains(n) ==> q == self.owner@[n as int],
    {
        let v = self.lists@;
        let o = self.owner@[n as int];
        if o != -1 {
            let i = self.index@[n as int];
            assert(v[o][i] == n);
            assert(v[o].contains(n));
            assert(self.next_idxs[n as int] == succ_in(v[o], i));
        }
        assert forall|q: int| 0 <= q < N_QUEUES && #[trigger] v[q].contains(n) implies q == o by {
            let i = choose|i: int| 0 <= i < v[q].len() && v[q][i] == n;
            assert(v[q][i] == n);
        }
        if self.contains(n) {
            let q = choose|q: int| 0 <= q < v.len() && #[trigger] v[q].contains(n);
            assert(q == o);
        }
    }

    /// The tail of each list, as it is stored.
    pub closed spec fn tails(&self) -> Seq<u8> {
        self.tail@
    }

    /// The successor of each node, as it is stored.
    pub closed spec fn nexts(&self) -> Seq<u8> {
        self.next_idxs@
    }

    /// The abstract value is determined by what is stored: two pools with
    /// the same tails and the same successors hold the same lists.
    pub proof fn lemma_view_determined(&self, other: &Self)
        requires
            self.inv(),
            other.inv(),
            self.tails() == other.tails(),
            self.nexts() == other.nexts(),
        ensures
            self@ == other@,
    {
        self.lemma_inv_wf();
        other.lemma_inv_wf();
        assert forall|q: int| 0 <= q < N_QUEUES implies #[trigger] self@[q] == other@[q] by {
            let la = self@[q];
            let lb = other@[q];
            assert(self.tail[q] == tail_of(la));
            assert(other.tail[q] == tail_of(lb));
            if la.len() > 0 && lb.len() == 0 {
                assert(la[la.len() - 1] < N_THREADS);
            }
            if lb.len() > 0 && la.len() == 0 {
                assert(lb[lb.len() - 1] < N_THREADS);
            }
            if la.len() > 0 && lb.len() > 0 {
                assert(la[la.len() - 1] == lb[lb.len() - 1]);
                assert(la[0] == lb[0]) by {
                    let t = la[la.len() - 1];
                    assert(self.next_idxs[t as int] == succ_in(la, la.len() - 1));
                    assert(other.next_idxs[t as int] == succ_in(lb, lb.len() - 1));
                }
                self.lemma_same_prefix(other, q, la.len() - 1);
                other.lemma_same_prefix(self, q, lb.len() - 1);
                if la.len() < lb.len() {
                    // The tail of the shorter list occurs twice in the longer.
                    assert(lb[la.len() - 1] == lb[lb.len() - 1]);
                    assert(other@[q][la.len() - 1] == other@[q][lb.len() - 1]);
                } else if lb.len() < la.len() {
                    assert(la[lb.len() - 1] == la[la.len() - 1]);
                    assert(self@[q][lb.len() - 1] == self@[q][la.len() - 1]);
                }
                assert forall|i: int| 0 <= i < la.len() implies la[i] == lb[i] by {
                    self.lemma_same_prefix(other, q, i);
                }
            }
            assert(la =~= lb);
        }
        assert(self@ =~= other@);
    }

    /// Two lists of pools with the same arrays, which start with the same
    /// head, agree as far as both reach.
    proof fn lemma_same_prefix(&self, other: &Self, q: int, i: int)
        requires
            self.inv(),
            other.inv(),
            self.next_idxs@ == other.next_idxs@,
            0 <= q < N_QUEUES,
            self@[q].len() > 0,
            other@[q].len() > 0,
            self@[q][0] == other@[q][0],
            0 <= i < self@[q].len(),
        ensures
            i < other@[q].len() ==> self@[q][i] == other@[q][i],
        decreases i,
    {
        if i > 0 {
            self.lemma_same_prefix(other, q, i - 1);
            if i < other@[q].len() {
                let la = self@[q];
                let lb = other@[q];
                let n = la[i - 1];
                assert(self.next_idxs[n as int] == succ_in(la, i - 1));
                assert(lb[i - 1] == n);
                assert(other.next_idxs[n as int] == succ_in(lb, i - 1));
            }
        }
    }

    /// The value that marks an empty slot.
    pub fn sentinel() -> (r: u8)
        ensures
            r == SENTINEL,
    {
        0xFF
    }

    /// Creates a pool in which every list is empty.
    pub fn new() -> (r: Self)
        requires
            N_THREADS <= 255,
        ensures
            r.wf(),
            r@ == Seq::new(N_QUEUES as nat, |q: int| Seq::<u8>::empty()),
    {
        let r = CList {
            tail: [0xFFu8;N_QUEUES],
            next_idxs: [0xFFu8;N_THREADS],
            lists: Ghost(Seq::new(N_QUEUES as nat, |q: int| Seq::<u8>::empty())),
            owner: Ghost(Seq::new(N_THREADS as nat, |n: int| -1int)),
            index: Ghost(Seq::new(N_THREADS as nat, |n: int| 0int)),
        };
        proof {
            r.lemma_inv_wf();
        }
        r
    }

    /// Whether node `n` is a member of some list.
    pub fn is_in_list(&self, n: u8) -> (r: bool)
        requires
            self.wf(),
            n < N_THREADS,
        ensures
            r == self.contains(n),
    {
        proof {
            self.lemma_member(n);
        }
        self.next_idxs[n as usize] != 0xFF
    }

    /// Whether list `rq` has no member.
    pub fn is_empty(&self, rq: u8) -> (r: bool)
        requires
            self.wf(),
            rq < N_QUEUES,
        ensures
            r == (self@[rq as int].len() == 0),
    {
        self.tail[rq as usize] == 0xFF
    }

    /// The head of list `rq`, if it has one.
    pub fn peek_head(&self, rq: u8) -> (r: Option<u8>)
        requires
            self.wf(),
            rq < N_QUEUES,
        ensures
            r == if self@[rq as int].len() == 0 {
                None
            } else {
                Some(self@[rq as int][0])
            },
    {
        let t: u8 = self.tail[rq as usize];
        if t == 0xFF {
            None
        } else {
            proof {
                let l = self@[rq as int];
                assert(l[l.len() - 1] == t);
            }
            Some(self.next_idxs[t as usize])
        }
    }

    /// Appends `n` to the tail of list `rq`, unless `n` is already a member of
    /// a list, in which case nothing changes.
    pub fn push(&mut self, n: u8, rq: u8)
        requires
            old(self).wf(),
            n < N_THREADS,
            rq < N_QUEUES,
        ensures
            final(self).wf(),
            final(self)@ == if old(self).contains(n) {
                old(self)@
            } else {
                old(self)@.update(rq as int, old(self)@[rq as int].push(n))
            },
    {
        proof {
            self.lemma_member(n);
        }
        if self.next_idxs[n as usize] == 0xFF {
            let ghost v0 = self.lists@;
            let ghost l0 = v0[rq as int];
            let ghost pre = *self;
            let t: u8 = self.tail[rq as usize];
            if t == 0xFF {
                // The list is empty: `n` becomes its only member.
                self.tail[rq as usize] = n;
                self.next_idxs[n as usize] = n;
            } else {
                proof {
                    assert(l0[l0.len() - 1] == t);
                }
                // `n` takes over the tail's successor (the head), and the old
                // tail now points to `n`.
                let head: u8 = self.next_idxs[t as usize];
                self.next_idxs[n as usize] = head;
                self.next_idxs[t as usize] = n;
                self.tail[rq as usize] = n;
            }
            self.lists = Ghost(v0.update(rq as int, l0.push(n)));
            self.owner = Ghost(self.owner@.update(n as int, rq as int));
            self.index = Ghost(self.index@.update(n as int, l0.len() as int));
            proof {
                let v = self.lists@;
                assert forall|q: int, i: int| 0 <= q < N_QUEUES && 0 <= i < v[q].len() implies {
                    let m = #[trigger] v[q][i];
                    &&& m < N_THREADS
                    &&& self.owner@[m as int] == q
                    &&& self.index@[m as int] == i
                    &&& self.next_idxs[m as int] == succ_in(v[q], i)
                } by {
                    if q == rq && i == l0.len() {
                    } else {
                        assert(v[q][i] == v0[q][i]);
                        pre.lemma_member(v0[q][i]);
                    }
                }
                assert forall|m: int| 0 <= m < N_THREADS implies if #[trigger] self.owner@[m] == -1 {
                    self.next_idxs[m] == SENTINEL
                } else {
                    &&& 0 <= self.owner@[m] < N_QUEUES
                    &&& 0 <= self.index@[m] < v[self.owner@[m]].len()
                    &&& v[self.owner@[m]][self.index@[m]] == m
                } by {
                    if m != n {
                        pre.lemma_member(m as u8);
                    }
                }
                self.lemma_inv_wf();
            }
        }
    }

    /// Removes and returns the head of list `rq`; `None` if the list is empty.
    pub fn pop_head(&mut self, rq: u8) -> (r: Option<u8>)
        requires
            old(self).wf(),
            rq < N_QUEUES,
        ensures
            final(self).wf(),
            old(self)@[rq as int].len() == 0 ==> r.is_none() && final(self)@ == old(self)@,
            old(self)@[rq as int].len() > 0 ==> r == Some(old(self)@[rq as int][0]) && final(self)@
                == old(self)@.update(rq as int, old(self)@[rq as int].drop_first()),
    {
        let t: u8 = self.tail[rq as usize];
        if t == 0xFF {
            None
        } else {
            let ghost v0 = self.lists@;
            let ghost l0 = v0[rq as int];
            let ghost pre = *self;
            proof {
                assert(l0[l0.len() - 1] == t);
                assert(l0[0] == l0[0]);
            }
            let head: u8 = self.next_idxs[t as usize];
            if head == t {
                // The tail is its own successor: it was the only member.
                self.tail[rq as usize] = 0xFF;
            } else {
                // The tail skips the head and points to the second member.
                self.next_idxs[t as usize] = self.next_idxs[head as usize];
            }
            self.next_idxs[head as usize] = 0xFF;
            self.lists = Ghost(v0.update(rq as int, l0.drop_first()));
            self.owner = Ghost(self.owner@.update(head as int, -1int));
            self.index = Ghost(
                Seq::new(
                    N_THREADS as nat,
                    |m: int|
                        if pre.owner@[m] == rq as int {
                            pre.index@[m] - 1
                        } else {
                            pre.index@[m]
                        },
                ),
            );
            proof {
                let v = self.lists@;
                assert forall|q: int, i: int| 0 <= q < N_QUEUES && 0 <= i < v[q].len() implies {
                    let m = #[trigger] v[q][i];
                    &&& m < N_THREADS
                    &&& self.owner@[m as int] == q
                    &&& self.index@[m as int] == i
                    &&& self.next_idxs[m as int] == succ_in(v[q], i)
                } by {
                    if q == rq {
                        assert(v[q][i] == l0[i + 1]);
                        pre.lemma_member(l0[i + 1]);
                        if i + 2 < l0.len() {
                            assert(l0[i + 2] == l0[i + 2]);
                        }
                        assert(l0[1] == l0[1]);
                    } else {
                        assert(v[q][i] == v0[q][i]);
                        pre.lemma_member(v0[q][i]);
                    }
                }
                assert forall|m: int| 0 <= m < N_THREADS implies if #[trigger] self.owner@[m] == -1 {
                    self.next_idxs[m] == SENTINEL
                } else {
                    &&& 0 <= self.owner@[m] < N_QUEUES
                    &&& 0 <= self.index@[m] < v[self.owner@[m]].len()
                    &&& v[self.owner@[m]][self.index@[m]] == m
                } by {
                    pre.lemma_member(m as u8);
                    pre.lemma_member(head);
                }
                assert forall|q: int| 0 <= q < N_QUEUES implies #[trigger] self.tail[q] == tail_of(
                    v[q],
                ) by {
                    if q == rq && l0.len() > 1 {
                        assert(l0[1] == l0[1]);
                        pre.lemma_member(l0[1]);
                    }
                }
                self.lemma_inv_wf();
            }
            Some(head)
        }
    }

    /// Rotates list `rq`: its head becomes its tail. Returns whether the list
    /// has any member.
    pub fn advance(&mut self, rq: u8) -> (r: bool)
        requires
            old(self).wf(),
            rq < N_QUEUES,
        ensures
            final(self).wf(),
            r == (old(self)@[rq as int].len() > 0),
            final(self)@ == old(self)@.update(rq as int, rotate(old(self)@[rq as int])),
    {
        let t: u8 = self.tail[rq as usize];
        if t == 0xFF {
            proof {
                assert(self@ =~= self@.update(rq as int, self@[rq as int]));
            }
            return false;
        }
        let ghost v0 = self.lists@;
        let ghost l0 = v0[rq as int];
        let ghost pre = *self;
        proof {
            assert(l0[l0.len() - 1] == t);
            assert(l0[0] == l0[0]);
        }
        self.tail[rq as usize] = self.next_idxs[t as usize];
        self.lists = Ghost(v0.update(rq as int, rotate(l0)));
        self.index = Ghost(
            Seq::new(
                N_THREADS as nat,
                |m: int|
                    if pre.owner@[m] == rq as int {
                        if pre.index@[m] == 0 {
                            l0.len() - 1
                        } else {
                            pre.index@[m] - 1
                        }
                    } else {
                        pre.index@[m]
                    },
            ),
        );
        proof {
            let v = self.lists@;
            let l = v[rq as int];
            assert(l.len() == l0.len());
            assert forall|q: int, i: int| 0 <= q < N_QUEUES && 0 <= i < v[q].len() implies {
                let m = #[trigger] v[q][i];
                &&& m < N_THREADS
                &&& self.owner@[m as int] == q
                &&& self.index@[m as int] == i
                &&& self.next_idxs[m as int] == succ_in(v[q], i)
            } by {
                if q == rq {
                    if i + 1 < l0.len() {
                        assert(l[i] == l0[i + 1]);
                        pre.lemma_member(l0[i + 1]);
                        if i + 2 < l0.len() {
                            assert(l[i + 1] == l0[i + 2]);
                        } else {
                            assert(l[i + 1] == l0[0]);
                        }
                    } else {
                        assert(l[i] == l0[0]);
                        pre.lemma_member(l0[0]);
                        if l0.len() > 1 {
                            assert(l[0] == l0[1]);
                        }
                    }
                } else {
                    assert(v[q][i] == v0[q][i]);
                    pre.lemma_member(v0[q][i]);
                }
            }
            assert forall|m: int| 0 <= m < N_THREADS implies if #[trigger] self.owner@[m] == -1 {
                self.next_idxs[m] == SENTINEL
            } else {
                &&& 0 <= self.owner@[m] < N_QUEUES
                &&& 0 <= self.index@[m] < v[self.owner@[m]].len()
                &&& v[self.owner@[m]][self.index@[m]] == m
            } by {
                pre.lemma_member(m as u8);
                if pre.owner@[m] == rq as int {
                    let i = pre.index@[m];
                    if i == 0 {
                        assert(l[l0.len() - 1] == l0[0]);
                    } else {
                        assert(l[i - 1] == l0[i]);
                    }
                }
            }
            assert(l[l.len() - 1] == l0[0]);
            self.lemma_inv_wf();
        }
        true
    }

    /// The successor of `curr` in the cycle of the list it is in, or the
    /// sentinel if `curr` is in no list.
    pub fn peek_next(&self, curr: u8) -> (r: u8)
        requires
            self.wf(),
            curr < N_THREADS,
        ensures
            !self.contains(curr) ==> r == SENTINEL,
            forall|q: int, i: int|
                0 <= q < N_QUEUES && 0 <= i < self@[q].len() && #[trigger] self@[q][i] == curr
                    ==> r == succ_in(self@[q], i),
    {
        proof {
            self.lemma_member(curr);
        }
        self.next_idxs[curr as usize]
    }

    /// Takes `n`, which stands at position `k` of list `rq`, out of a list of
    /// at least two members. `prev` is its predecessor in the cycle.
    fn unlink(&mut self, prev: u8, n: u8, rq: u8, Ghost(k): Ghost<int>)
        requires
            old(self).wf(),
            rq < N_QUEUES,
            n < N_THREADS,
            prev < N_THREADS,
            old(self)@[rq as int].len() >= 2,
            0 <= k < old(self)@[rq as int].len(),
            old(self)@[rq as int][k] == n,
            prev == if k == 0 {
                old(self)@[rq as int].last()
            } else {
                old(self)@[rq as int][k - 1]
            },
        ensures
            final(self).wf(),
            final(self)@ == old(self)@.update(rq as int, old(self)@[rq as int].remove(k)),
    {
        let ghost v0 = self.lists@;
        let ghost l0 = v0[rq as int];
        let ghost pre = *self;
        let ghost kp = if k == 0 {
            l0.len() - 1
        } else {
            k - 1
        };
        proof {
            assert(l0[kp] == prev);
            assert(l0[k] == n);
            pre.lemma_member(n);
            pre.lemma_member(prev);
            assert(l0[l0.len() - 1] == self.tail[rq as int]);
        }
        self.next_idxs[prev as usize] = self.next_idxs[n as usize];
        if self.tail[rq as usize] == n {
            self.tail[rq as usize] = prev;
        }
        self.next_idxs[n as usize] = 0xFF;
        self.lists = Ghost(v0.update(rq as int, l0.remove(k)));
        self.owner = Ghost(self.owner@.update(n as int, -1int));
        self.index = Ghost(
            Seq::new(
                N_THREADS as nat,
                |m: int|
                    if pre.owner@[m] == rq as int && pre.index@[m] > k {
                        pre.index@[m] - 1
                    } else {
                        pre.index@[m]
                    },
            ),
        );
        proof {
            let v = self.lists@;
            let l = v[rq as int];
            assert(l.len() == l0.len() - 1);
            assert forall|i: int| 0 <= i < l.len() implies #[trigger] l[i] == (if i < k {
                l0[i]
            } else {
                l0[i + 1]
            }) by {}
            assert forall|q: int, i: int| 0 <= q < N_QUEUES && 0 <= i < v[q].len() implies {
                let m = #[trigger] v[q][i];
                &&& m < N_THREADS
                &&& self.owner@[m as int] == q
                &&& self.index@[m as int] == i
                &&& self.next_idxs[m as int] == succ_in(v[q], i)
            } by {
                if q == rq {
                    let i0 = if i < k {
                        i
                    } else {
                        i + 1
                    };
                    assert(l[i] == l0[i0]);
                    pre.lemma_member(l0[i0]);
                    assert(l0[i0] != n);
                    if i + 1 < l.len() {
                        let j0 = if i + 1 < k {
                            i + 1
                        } else {
                            i + 2
                        };
                        assert(l[i + 1] == l0[j0]);
                    } else {
                        let j0 = if 0 < k {
                            0int
                        } else {
                            1int
                        };
                        assert(l[0] == l0[j0]);
                    }
                    if i0 == kp {
                        assert(l0[i0] == prev);
                    } else {
                        assert(l0[i0] != prev);
                    }
                } else {
                    assert(v[q][i] == v0[q][i]);
                    pre.lemma_member(v0[q][i]);
                }
            }
            assert forall|m: int| 0 <= m < N_THREADS implies if #[trigger] self.owner@[m] == -1 {
                self.next_idxs[m] == SENTINEL
            } else {
                &&& 0 <= self.owner@[m] < N_QUEUES
                &&& 0 <= self.index@[m] < v[self.owner@[m]].len()
                &&& v[self.owner@[m]][self.index@[m]] == m
            } by {
                pre.lemma_member(m as u8);
                if m != n && pre.owner@[m] == rq as int {
                    let i0 = pre.index@[m];
                    assert(l0[i0] == m);
                    assert(i0 != k);
                    if i0 > k {
                        assert(l[i0 - 1] == l0[i0]);
                    } else {
                        assert(l[i0] == l0[i0]);
                    }
                }
            }
            assert forall|q: int| 0 <= q < N_QUEUES implies #[trigger] self.tail[q] == tail_of(
                v[q],
            ) by {
                if q == rq {
                    if k == l0.len() - 1 {
                        assert(l[l.len() - 1] == l0[k - 1]);
                    } else {
                        assert(l[l.len() - 1] == l0[l0.len() - 1]);
                        assert(l0[l0.len() - 1] != n);
                    }
                }
            }
            self.lemma_inv_wf();
        }
    }

    /// Removes `n` from list `rq`, wherever in the list it stands. Does nothing
    /// if `n` is in no list.
    ///
    /// The predecessor of `n` is found by scanning the pool, so this takes time
    /// linear in `N_THREADS`.
    pub fn del(&mut self, n: u8, rq: u8)
        requires
            old(self).wf(),
            n < N_THREADS,
            rq < N_QUEUES,
            old(self).contains(n) ==> old(self)@[rq as int].contains(n),
        ensures
            final(self).wf(),
            final(self)@ == old(self)@.update(rq as int, without(old(self)@[rq as int], n)),
            !old(self).contains(n) ==> final(self)@ == old(self)@,
    {
        proof {
            self.lemma_member(n);
            self.lemma_inv_wf();
        }
        if self.next_idxs[n as usize] == 0xFF {
            // `n` is in no list.
            proof {
                assert(!self@[rq as int].contains(n));
                assert(self@ =~= self@.update(rq as int, self@[rq as int]));
            }
            return ;
        }
        let ghost v0 = self.lists@;
        let ghost l0 = v0[rq as int];
        let ghost k = self.index@[n as int];
        proof {
            assert(self.owner@[n as int] == rq as int);
            assert(l0[k] == n);
            assert forall|i: int, j: int|
                0 <= i < l0.len() && 0 <= j < l0.len() && l0[i] == l0[j] implies i == j by {
                assert(v0[rq as int][i] == v0[rq as int][j]);
            }
            lemma_without_at(l0, k);
        }
        if self.next_idxs[n as usize] == n {
            // `n` is its own successor: it is the only member.
            proof {
                if l0.len() > 1 {
                    if k + 1 < l0.len() {
                        assert(l0[k + 1] == n);
                    } else {
                        assert(l0[0] == n);
                    }
                }
                assert(l0[l0.len() - 1] == n);
            }
            self.pop_head(rq);
            proof {
                assert(l0.drop_first() =~= l0.remove(k));
            }
        } else {
            let ghost kp = if k == 0 {
                l0.len() - 1
            } else {
                k - 1
            };
            let ghost p = l0[kp];
            proof {
                assert(l0.len() >= 2);
                self.lemma_member(p);
            }
            // Find the predecessor: the list is circular, so there is one.
            let mut prev: usize = 0;
            while self.next_idxs[prev] != n
                invariant
                    self.wf(),
                    0 <= prev <= p,
                    p < N_THREADS,
                    self.next_idxs[p as int] == n,
                decreases p - prev,
            {
                prev += 1;
            }
            proof {
                // Only the predecessor points to `n`.
                self.lemma_member(prev as u8);
                let q = self.owner@[prev as int];
                let i = self.index@[prev as int];
                assert(self@[q][i] == prev);
                if i + 1 < self@[q].len() {
                    assert(self@[q][i + 1] == n);
                } else {
                    assert(self@[q][0] == n);
                }
                assert(self@[q].contains(n));
            }
            self.unlink(prev as u8, n, rq, Ghost(k));
        }
    }

    /// Removes and returns the member that follows the head of list `rq`;
    /// `None` if the list has fewer than two members.
    pub fn pop_next(&mut self, rq: u8) -> (r: Option<u8>)
        requires
            old(self).wf(),
            rq < N_QUEUES,
        ensures
            final(self).wf(),
            old(self)@[rq as int].len() < 2 ==> r.is_none() && final(self)@ == old(self)@,
            old(self)@[rq as int].len() >= 2 ==> r == Some(old(self)@[rq as int][1])
                && final(self)@ == old(self)@.update(rq as int, old(self)@[rq as int].remove(1)),
    {
        let head: u8 = match self.peek_head(rq) {
            Some(head) => head,
            None => {
                return None;
            },
        };
        let ghost l0 = self@[rq as int];
        proof {
            assert(l0[0] == head);
            if l0.len() >= 2 {
                assert(l0[1] == l0[1]);
            }
        }
        let next: u8 = self.peek_next(head);
        if next == head {
            return None;
        }
        self.unlink(head, next, rq, Ghost(1));
        Some(next)
    }
}

} // verus!
