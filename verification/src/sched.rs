//! Thread control blocks and the round-robin scheduler.
//!
//! The scheduler owns the run queue of ready threads and the thread
//! currently running. Enrolling a thread mints it a fresh, non-zero,
//! strictly increasing id; selection is round-robin:
//! the preempted thread goes to the tail of the queue and the head
//! becomes current, unless the queue is empty, in which case the
//! current thread keeps running. On the target, enrolling must run with
//! the preemption trap masked, since it shares the queue with the trap
//! handler; that critical section is the caller's obligation.

use crate::list::{LinkedList, Node};
use vstd::prelude::*;

verus! {

/// Thread control block: the identity and saved stack pointer of one
/// thread.
///
/// `top_of_stack` is written when the thread is preempted and read when
/// it is resumed; between those moments it is the address (here: word
/// index) of the lowest word of the thread's saved context.
#[derive(Clone, Copy, PartialEq, Eq, Structural, Debug)]
pub struct Tcb {
    /// Unique non-zero thread id.
    pub id: usize,
    /// Saved stack pointer of the suspended thread.
    pub top_of_stack: usize,
    /// Carried for a future priority scheme; round-robin ignores it.
    pub priority: usize,
}

/// Round-robin scheduler: the running thread, the ready queue, and the
/// id source for admission.
pub struct Scheduler {
    /// The thread now running, if any.
    pub current_thread: Option<Tcb>,
    /// Ready-to-run threads, head first.
    pub threads: LinkedList<Tcb>,
    /// Last id handed out; enrolling a thread increments it first.
    pub id_counter: usize,
}

impl Scheduler {
    /// The TCB carries an id this scheduler has handed out.
    pub open spec fn tcb_ok(self, t: Tcb) -> bool {
        0 < t.id <= self.id_counter
    }

    /// The ids of all threads in the system in run order: the current
    /// thread first, then the ready queue head to tail.
    pub open spec fn run_order_ids(self) -> Seq<usize> {
        let queue = self.threads@.map(|i: int, t: Tcb| t.id);
        match self.current_thread {
            Some(t) => seq![t.id] + queue,
            None => queue,
        }
    }

    /// Well-formed scheduler: every enrolled TCB has a non-zero id no
    /// fresher than the counter, and no id occurs twice — in
    /// particular, a TCB is never both current and queued.
    pub open spec fn wf(self) -> bool {
        &&& forall|i: int| 0 <= i < self.threads@.len() ==> self.tcb_ok(#[trigger] self.threads@[i])
        &&& forall|i: int, j: int|
            0 <= i < j < self.threads@.len() ==> (#[trigger] self.threads@[i]).id != (
            #[trigger] self.threads@[j]).id
        &&& match self.current_thread {
            Some(t) => self.tcb_ok(t) && forall|i: int|
                0 <= i < self.threads@.len() ==> (#[trigger] self.threads@[i]).id != t.id,
            None => true,
        }
    }

    /// A scheduler with no threads enrolled and nothing running.
    pub fn new() -> (r: Scheduler)
        ensures
            r.current_thread is None,
            r.threads@ == Seq::<Tcb>::empty(),
            r.id_counter == 0,
            r.wf(),
    {
        Scheduler { current_thread: None, threads: LinkedList::new(), id_counter: 0 }
    }

    /// Enrolls a new thread: mints the next id, builds its TCB around
    /// the given saved stack pointer and priority, and appends it to
    /// the ready queue. The fresh id is non-zero and strictly greater
    /// than the id of every thread enrolled before.
    pub fn add_thread(&mut self, top_of_stack: usize, priority: usize) -> (t: Tcb)
        requires
            old(self).wf(),
            old(self).id_counter < usize::MAX,
            old(self).threads@.len() < usize::MAX,
        ensures
            final(self).wf(),
            t == (Tcb { id: (old(self).id_counter + 1) as usize, top_of_stack, priority }),
            t.id != 0,
            final(self).id_counter == old(self).id_counter + 1,
            final(self).threads@ == old(self).threads@.push(t),
            final(self).current_thread == old(self).current_thread,
            forall|i: int|
                0 <= i < old(self).threads@.len() ==> (#[trigger] old(self).threads@[i]).id < t.id,
            old(self).current_thread matches Some(c) ==> c.id < t.id,
    {
        let id = self.id_counter + 1;
        self.id_counter = id;
        let t = Tcb { id, top_of_stack, priority };
        self.threads.push_back(Node::new(t));
        t
    }

    /// Starts the first thread: pops the head of the ready queue,
    /// installs it as the current thread, and returns its saved stack
    /// pointer for the low-level resume routine. Returns `None` without
    /// effect when no thread was ever enrolled.
    pub fn start_first(&mut self) -> (r: Option<usize>)
        requires
            old(self).wf(),
            old(self).current_thread is None,
        ensures
            final(self).wf(),
            old(self).threads@.len() == 0 ==> {
                &&& r is None
                &&& final(self).threads@ == old(self).threads@
                &&& final(self).current_thread == old(self).current_thread
                &&& final(self).id_counter == old(self).id_counter
            },
            old(self).threads@.len() > 0 ==> {
                &&& r == Some(old(self).threads@[0].top_of_stack)
                &&& final(self).current_thread == Some(old(self).threads@[0])
                &&& final(self).threads@ == old(self).threads@.skip(1)
                &&& final(self).id_counter == old(self).id_counter
            },
    {
        match self.threads.pop_front() {
            None => None,
            Some(node) => {
                let t = node.into_inner();
                self.current_thread = Some(t);
                Some(t.top_of_stack)
            },
        }
    }

    /// Picks the thread to run after a preemption: the preempted
    /// current thread goes to the tail of the ready queue and the head
    /// becomes current; with an empty queue the current thread simply
    /// keeps running. Invoked only from the context-switch trap.
    pub fn select_next(&mut self)
        requires
            old(self).wf(),
            old(self).current_thread is Some,
            old(self).threads@.len() < usize::MAX,
        ensures
            final(self).wf(),
            final(self).id_counter == old(self).id_counter,
            final(self).current_thread is Some,
            final(self).run_order_ids() == rotate_left(old(self).run_order_ids()),
            old(self).threads@.len() == 0 ==> *final(self) == *old(self),
            old(self).threads@.len() > 0 ==> {
                &&& final(self).current_thread == Some(old(self).threads@[0])
                &&& final(self).threads@ == old(self).threads@.skip(1).push(
                    old(self).current_thread.unwrap(),
                )
            },
    {
        if self.threads.len() == 0 {
            proof {
                assert(self.run_order_ids() =~= rotate_left(self.run_order_ids()));
            }
            return ;
        }
        let prev = self.current_thread.unwrap();
        self.threads.push_back(Node::new(prev));
        let node = self.threads.pop_front().unwrap();
        self.current_thread = Some(node.into_inner());
        proof {
            let o = old(self).threads@;
            let f = self.threads@;
            let pv = old(self).current_thread.unwrap();
            assert(f =~= o.skip(1).push(pv));
            assert forall|i: int| 0 <= i < f.len() implies self.tcb_ok(#[trigger] f[i]) by {
                if i < o.len() - 1 {
                    assert(f[i] == o[i + 1]);
                } else {
                    assert(f[i] == pv);
                }
            }
            assert forall|i: int, j: int| 0 <= i < j < f.len() implies (#[trigger] f[i]).id != (
            #[trigger] f[j]).id by {
                if j < o.len() - 1 {
                    assert(f[i] == o[i + 1] && f[j] == o[j + 1]);
                } else {
                    assert(f[j] == pv);
                    assert(f[i] == o[i + 1]);
                }
            }
            assert forall|i: int| 0 <= i < f.len() implies (#[trigger] f[i]).id != o[0].id by {
                if i < o.len() - 1 {
                    assert(f[i] == o[i + 1]);
                } else {
                    assert(f[i] == pv);
                }
            }
            assert(self.run_order_ids() =~= rotate_left(old(self).run_order_ids()));
        }
    }
}

/// One step of the round-robin rotation: the head of `s` moves to the
/// tail.
pub open spec fn rotate_left<T>(s: Seq<T>) -> Seq<T> {
    if s.len() == 0 {
        s
    } else {
        s.skip(1).push(s[0])
    }
}

/// `k` steps of the round-robin rotation.
pub open spec fn rotate_left_n<T>(s: Seq<T>, k: nat) -> Seq<T>
    decreases k,
{
    if k == 0 {
        s
    } else {
        rotate_left(rotate_left_n(s, (k - 1) as nat))
    }
}

/// Round-robin fairness law: each context switch rotates the run order
/// by one, so after `k` switches the order is the starting one cut at `k` —
/// the thread at the head is the one enrolled `k`-th, every thread
/// reaches the head exactly once in each full cycle, and after a full
/// cycle the order is back where it started.
pub proof fn lemma_round_robin_cycle<T>(s: Seq<T>, k: int)
    requires
        0 <= k <= s.len(),
    ensures
        rotate_left_n(s, k as nat) == s.skip(k) + s.take(k),
        k < s.len() ==> rotate_left_n(s, k as nat)[0] == s[k],
        k == s.len() ==> rotate_left_n(s, k as nat) == s,
    decreases k,
{
    if k == 0 {
        assert(s.skip(0) + s.take(0) =~= s);
    } else {
        lemma_round_robin_cycle(s, k - 1);
        assert(rotate_left(s.skip(k - 1) + s.take(k - 1)) =~= s.skip(k) + s.take(k));
    }
    if k == s.len() {
        assert(s.skip(k) + s.take(k) =~= s);
    }
}

/// Identity law: in a well-formed scheduler every enrolled thread has a
/// non-zero id and no two queued threads share one; together with
/// `add_thread`'s guarantee that each new id exceeds all earlier ones,
/// ids are distinct, strictly increasing and non-zero in creation
/// order.
pub proof fn lemma_tcb_identity(s: Scheduler, i: int, j: int)
    requires
        s.wf(),
        0 <= i < j < s.threads@.len(),
    ensures
        s.threads@[i].id != 0,
        s.threads@[j].id != 0,
        s.threads@[i].id != s.threads@[j].id,
{
}

} // verus!
