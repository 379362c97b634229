//! The bounded-concurrency task runner.
//!
//! The generic primitive behind the notification fan-out: a finite batch of
//! independent units of work is driven to completion with a sliding window
//! of at most `limit` units outstanding. Whenever an outstanding unit
//! completes, its callback fires exactly once and — if the early-stop
//! predicate still allows — the next pending unit is admitted immediately,
//! never waiting for the whole window to drain. Units not yet admitted when
//! stop is signalled are dropped without their callback firing; a batch of
//! zero units, or a window of zero width, is a legal no-op.
//!
//! The runner is a verified state machine over unit indices `0..total`.
//! The host shell owns the actual futures and callbacks: it asks which unit
//! to admit next, drives the remote work, and reports each completion in
//! whatever order the network produces — the runner never relies on any
//! completion order.

use vstd::prelude::*;

verus! {

/// The state of one batch: units `0..total`, a window of width `limit`,
/// units `0..next_to_admit` admitted so far, each admitted unit either
/// still in flight or completed (its callback fired), and the early-stop
/// flag.
pub struct TaskRunner {
    total: usize,
    limit: usize,
    next_to_admit: usize,
    in_flight: Vec<usize>,
    completed: Vec<usize>,
    stopped: bool,
}

impl TaskRunner {
    /// The number of units in the batch.
    pub closed spec fn total_units(self) -> int {
        self.total as int
    }

    /// The window width: the most units ever outstanding at once.
    pub closed spec fn concurrency_limit(self) -> int {
        self.limit as int
    }

    /// How many units have been admitted; units `next_admitted()..total`
    /// are still pending.
    pub closed spec fn next_admitted(self) -> int {
        self.next_to_admit as int
    }

    /// The units admitted but not yet completed.
    pub closed spec fn in_flight_ids(self) -> Seq<usize> {
        self.in_flight@
    }

    /// The completed units, in completion order — the order their callbacks
    /// fired in.
    pub closed spec fn completed_ids(self) -> Seq<usize> {
        self.completed@
    }

    /// Early stop was signalled.
    pub closed spec fn is_stopped(self) -> bool {
        self.stopped
    }

    /// The state-machine invariant, held by every operation. Its window
    /// clause — never more than `concurrency_limit()` units in flight — is
    /// the bounded-concurrency guarantee; its bookkeeping clauses make
    /// every admitted unit either in flight or completed, never both,
    /// never twice.
    pub closed spec fn wf(self) -> bool {
        &&& self.next_to_admit <= self.total
        &&& self.in_flight@.no_duplicates()
        &&& self.completed@.no_duplicates()
        &&& forall|i: int|
            0 <= i < self.in_flight@.len() ==> (#[trigger] self.in_flight@[i])
                < self.next_to_admit
        &&& forall|i: int|
            0 <= i < self.completed@.len() ==> (#[trigger] self.completed@[i])
                < self.next_to_admit
        &&& forall|i: int|
            0 <= i < self.in_flight@.len() ==> !self.completed@.contains(
                #[trigger] self.in_flight@[i],
            )
        &&& forall|u: usize|
            u < self.next_to_admit ==> self.in_flight@.contains(u) || #[trigger] self.completed@.contains(u)
        &&& self.completed@.len() + self.in_flight@.len() == self.next_to_admit
        &&& self.in_flight@.len() <= self.limit
    }

    /// A fresh batch: nothing admitted, nothing completed, not stopped.
    pub fn new(total: usize, limit: usize) -> (s: Self)
        ensures
            s.wf(),
            s.total_units() == total,
            s.concurrency_limit() == limit,
            s.next_admitted() == 0,
            s.in_flight_ids() == Seq::<usize>::empty(),
            s.completed_ids() == Seq::<usize>::empty(),
            !s.is_stopped(),
    {
        let s = TaskRunner {
            total,
            limit,
            next_to_admit: 0,
            in_flight: Vec::new(),
            completed: Vec::new(),
            stopped: false,
        };
        proof {
            assert(s.in_flight@ =~= Seq::<usize>::empty());
            assert(s.completed@ =~= Seq::<usize>::empty());
        }
        s
    }

    /// Whether another unit may be admitted now: one is pending, the
    /// window has room, and no early stop was signalled.
    pub open spec fn can_admit_spec(self) -> bool {
        &&& !self.is_stopped()
        &&& self.next_admitted() < self.total_units()
        &&& self.in_flight_ids().len() < self.concurrency_limit()
    }

    /// Decides [`Self::can_admit_spec`].
    pub fn can_admit(&self) -> (r: bool)
        ensures
            r == self.can_admit_spec(),
    {
        !self.stopped && self.next_to_admit < self.total && self.in_flight.len() < self.limit
    }

    /// The number of units currently in flight.
    pub fn in_flight_count(&self) -> (r: usize)
        ensures
            r == self.in_flight_ids().len(),
    {
        self.in_flight.len()
    }

    /// One currently in-flight unit, by position in the window.
    pub fn in_flight_at(&self, i: usize) -> (u: usize)
        requires
            i < self.in_flight_ids().len(),
        ensures
            u == self.in_flight_ids()[i as int],
    {
        self.in_flight[i]
    }

    /// The completed units, in the order their callbacks fired.
    pub fn completed_list(&self) -> (r: &Vec<usize>)
        ensures
            r@ == self.completed_ids(),
    {
        &self.completed
    }

    /// Admits the next pending unit into the window and returns its index;
    /// the host shell then starts that unit's work.
    pub fn admit_next(&mut self) -> (u: usize)
        requires
            old(self).wf(),
            old(self).can_admit_spec(),
        ensures
            final(self).wf(),
            final(self).in_flight_ids().len() <= final(self).concurrency_limit(),
            u == old(self).next_admitted(),
            final(self).next_admitted() == old(self).next_admitted() + 1,
            final(self).in_flight_ids() == old(self).in_flight_ids().push(u),
            final(self).completed_ids() == old(self).completed_ids(),
            final(self).total_units() == old(self).total_units(),
            final(self).concurrency_limit() == old(self).concurrency_limit(),
            final(self).is_stopped() == old(self).is_stopped(),
    {
        let u = self.next_to_admit;
        self.in_flight.push(u);
        self.next_to_admit = self.next_to_admit + 1;
        proof {
            assert forall|v: usize| v < self.next_to_admit implies self.in_flight@.contains(v)
                || #[trigger] self.completed@.contains(v) by {
                if v < old(self).next_to_admit {
                    if old(self).in_flight@.contains(v) {
                        let i = choose|i: int|
                            0 <= i < old(self).in_flight@.len() && old(self).in_flight@[i] == v;
                        assert(self.in_flight@[i] == v);
                    }
                } else {
                    assert(self.in_flight@[self.in_flight@.len() - 1] == v);
                }
            }
        }
        u
    }

    /// Signals early stop: units not yet admitted will never be admitted
    /// (and their callbacks never fire); units already in flight still
    /// complete. The notifier never exercises this — it always drains.
    pub fn signal_stop(&mut self)
        requires
            old(self).wf(),
        ensures
            final(self).wf(),
            final(self).is_stopped(),
            final(self).next_admitted() == old(self).next_admitted(),
            final(self).in_flight_ids() == old(self).in_flight_ids(),
            final(self).completed_ids() == old(self).completed_ids(),
            final(self).total_units() == old(self).total_units(),
            final(self).concurrency_limit() == old(self).concurrency_limit(),
    {
        self.stopped = true;
    }

    /// Records the completion of one in-flight unit: the moment its
    /// callback fires, exactly once per unit.
    #[verifier::loop_isolation(false)]
    pub fn on_complete(&mut self, u: usize)
        requires
            old(self).wf(),
            old(self).in_flight_ids().contains(u),
        ensures
            final(self).wf(),
            final(self).in_flight_ids().len() <= final(self).concurrency_limit(),
            final(self).completed_ids() == old(self).completed_ids().push(u),
            forall|v: usize|
                #[trigger] final(self).in_flight_ids().contains(v) <==> (old(
                    self,
                ).in_flight_ids().contains(v) && v != u),
            final(self).in_flight_ids().len() == old(self).in_flight_ids().len() - 1,
            final(self).next_admitted() == old(self).next_admitted(),
            final(self).total_units() == old(self).total_units(),
            final(self).concurrency_limit() == old(self).concurrency_limit(),
            final(self).is_stopped() == old(self).is_stopped(),
    {
        let ghost pre = self.in_flight@;
        let mut i: usize = 0;
        while i < self.in_flight.len()
            invariant
                i <= self.in_flight@.len(),
                self == old(self),
                forall|l: int| 0 <= l < i as int ==> self.in_flight@[l] != u,
            decreases self.in_flight@.len() - i,
        {
            if self.in_flight[i] == u {
                self.in_flight.swap_remove(i);
                self.completed.push(u);
                proof {
                    let cur = self.in_flight@;
                    assert(cur =~= pre.update(i as int, pre[pre.len() - 1]).drop_last());
                    assert forall|v: usize| cur.contains(v) implies pre.contains(v) && v != u by {
                        let l = choose|l: int| 0 <= l < cur.len() && cur[l] == v;
                        if l == i as int {
                            assert(pre[pre.len() - 1] == v);
                        } else {
                            assert(pre[l] == v);
                        }
                        assert(pre.no_duplicates());
                        if v == u {
                            if l == i as int {
                                assert(pre[pre.len() - 1] == pre[i as int]);
                                assert(pre.len() - 1 == i as int);
                                assert(false);
                            } else {
                                assert(pre[l] == pre[i as int] && l != i as int);
                                assert(false);
                            }
                        }
                    }
                    assert forall|v: usize| pre.contains(v) && v != u implies cur.contains(v) by {
                        let l = choose|l: int| 0 <= l < pre.len() && pre[l] == v;
                        assert(l != i as int);
                        if l == pre.len() - 1 {
                            assert(cur[i as int] == v);
                        } else {
                            assert(cur[l] == v);
                        }
                    }
                    assert forall|a: int, b: int| 0 <= a < b < cur.len() implies cur[a] != cur[
                        b] by {
                        let pa: int = if a == i as int { pre.len() - 1 } else { a };
                        let pb: int = if b == i as int { pre.len() - 1 } else { b };
                        assert(cur[a] == pre[pa] && cur[b] == pre[pb]);
                        assert(pa != pb);
                    }
                    assert(cur.no_duplicates());
                    assert forall|w: usize| w < self.next_to_admit implies self.in_flight@.contains(
                        w,
                    ) || #[trigger] self.completed@.contains(w) by {
                        if old(self).completed@.contains(w) {
                            let l = choose|l: int|
                                0 <= l < old(self).completed@.len() && old(self).completed@[l]
                                    == w;
                            assert(self.completed@[l] == w);
                        } else {
                            assert(pre.contains(w));
                            if w == u {
                                assert(self.completed@[self.completed@.len() - 1] == w);
                            }
                        }
                    }
                }
                return ;
            }
            i = i + 1;
        }
        proof {
            assert(!pre.contains(u));
            assert(false);
        }
    }
}

/// Drives one whole batch to completion, admitting with a window of
/// `limit` and never signalling stop — the notifier's usage pattern. The
/// completion order of the remote work is outside anyone's control, so it
/// enters as `picks`, which selects the next in-flight unit to complete;
/// any `picks` whatsoever drains the batch. When the window has a positive
/// width, every unit of the batch completes, each with its callback fired
/// exactly once; a zero-width window is a no-op.
#[verifier::loop_isolation(false)]
pub fn run_to_completion(total: usize, limit: usize, picks: &Vec<usize>) -> (s: TaskRunner)
    ensures
        s.wf(),
        s.in_flight_ids().len() == 0,
        s.total_units() == total,
        s.concurrency_limit() == limit,
        limit > 0 ==> {
            &&& s.completed_ids().len() == total
            &&& s.completed_ids().no_duplicates()
            &&& forall|u: usize| u < total ==> s.completed_ids().contains(u)
        },
        limit == 0 ==> s.completed_ids().len() == 0,
{
    let mut s = TaskRunner::new(total, limit);
    while s.can_admit()
        invariant
            s.wf(),
            !s.is_stopped(),
            s.total_units() == total,
            s.concurrency_limit() == limit,
            s.completed_ids().len() == 0,
        decreases s.total_units() - s.next_admitted(),
    {
        s.admit_next();
    }
    let mut step: usize = 0;
    while s.in_flight_count() > 0
        invariant
            s.wf(),
            !s.is_stopped(),
            !s.can_admit_spec(),
            s.total_units() == total,
            s.concurrency_limit() == limit,
            limit == 0 ==> s.next_admitted() == 0,
        decreases s.total_units() - s.next_admitted() + s.in_flight_ids().len(),
    {
        let n = s.in_flight_count();
        let choice = if picks.len() > 0 {
            picks[step % picks.len()] % n
        } else {
            0
        };
        let u = s.in_flight_at(choice);
        proof {
            assert(s.in_flight_ids().contains(u));
        }
        s.on_complete(u);
        if s.can_admit() {
            s.admit_next();
        }
        step = if step == usize::MAX {
            0
        } else {
            step + 1
        };
    }
    proof {
        if limit > 0 {
            assert(s.next_admitted() == total);
            assert forall|u: usize| u < total implies s.completed_ids().contains(u) by {
                assert(s.in_flight_ids().contains(u) || s.completed_ids().contains(u));
                if s.in_flight_ids().contains(u) {
                    let l = choose|l: int|
                        0 <= l < s.in_flight_ids().len() && s.in_flight_ids()[l] == u;
                    assert(false);
                }
            }
        }
    }
    s
}

} // verus!
