use crate::ticket::{Ticket, TicketGenerator};
use vstd::prelude::*;

verus! {

/// The transform a worker slot runs: a stateless-per-call function from one
/// input to one output. A backend constructs a fresh instance and feeds it
/// one submitted input at a time.
pub trait Function: Sized {
    /// The job payload handed to [`PoolCore::enqueue`].
    type Input;

    /// The result later collected through the job's ticket.
    type Output;

    /// What the transform computes on a given input.
    spec fn call_spec(input: Self::Input) -> Self::Output;

    /// Runs the transform on one input.
    fn call(&mut self, input: Self::Input) -> (output: Self::Output)
        ensures
            output == Self::call_spec(input),
    ;
}

/// The answer to checking a ticket: either the job is still on its way, and
/// the ticket comes back for a later retry, or its output is handed over.
#[derive(Debug)]
pub enum JobState<O> {
    /// The job has not produced its output yet; retry later with the ticket.
    Ongoing(Ticket),
    /// The job's output, removed from the pool's bookkeeping.
    Done(O),
}

/// How many of the slots hold an in-flight ticket.
pub open spec fn count_some(s: Seq<Option<Ticket>>) -> nat
    decreases s.len(),
{
    if s.len() == 0 {
        0
    } else {
        count_some(s.drop_last()) + if s.last() is Some {
            1nat
        } else {
            0nat
        }
    }
}

/// At most every slot of a sequence holds a ticket.
proof fn lemma_count_some_le(s: Seq<Option<Ticket>>)
    ensures
        count_some(s) <= s.len(),
    decreases s.len(),
{
    if s.len() > 0 {
        lemma_count_some_le(s.drop_last());
    }
}

/// Law (pool capacity): at most as many jobs are ever in flight as the pool
/// has worker slots — each slot carries at most one ticket at a time.
pub proof fn lemma_pool_capacity<I, O>(pool: PoolCore<I, O>)
    ensures
        pool.in_flight_count() <= pool.num_slots(),
{
    lemma_count_some_le(pool.slot_view());
}

/// How many slots at positions `k` and beyond are idle.
pub open spec fn idle_from(slots: Seq<Option<Ticket>>, k: int) -> nat
    decreases slots.len() - k,
{
    if k < 0 || k >= slots.len() {
        0
    } else {
        (if slots[k] is None {
            1nat
        } else {
            0nat
        }) + idle_from(slots, k + 1)
    }
}

/// What one left-to-right assignment pass over the slots does, starting at
/// slot `k`: every idle slot takes the oldest waiting backlog entry, until
/// the backlog runs out. Yields the slots and backlog after the pass and the
/// plan of submissions it calls for — which slot must be handed which input.
pub open spec fn fill_from<I>(
    slots: Seq<Option<Ticket>>,
    backlog: Seq<(Ticket, I)>,
    k: int,
) -> (Seq<Option<Ticket>>, Seq<(Ticket, I)>, Seq<(int, I)>)
    decreases slots.len() - k,
{
    if k < 0 || k >= slots.len() {
        (slots, backlog, Seq::<(int, I)>::empty())
    } else if slots[k] is None && backlog.len() > 0 {
        let rec = fill_from(slots.update(k, Some(backlog[0].0)), backlog.drop_first(), k + 1);
        (rec.0, rec.1, seq![(k, backlog[0].1)] + rec.2)
    } else {
        fill_from(slots, backlog, k + 1)
    }
}

/// Law (FIFO dispatch): an assignment pass hands out exactly the oldest
/// backlog entries, in arrival order — the plan's `j`-th submission carries
/// the `j`-th waiting input — and what stays behind is the remaining suffix,
/// still in arrival order. Busy slots keep their in-flight job untouched;
/// only as many entries leave as there were idle slots to take them.
pub proof fn lemma_fill_fifo<I>(slots: Seq<Option<Ticket>>, backlog: Seq<(Ticket, I)>, k: int)
    ensures
        ({
            let r = fill_from(slots, backlog, k);
            &&& r.0.len() == slots.len()
            &&& r.2.len() <= backlog.len()
            &&& r.1 =~= backlog.skip(r.2.len() as int)
            &&& forall|j: int| 0 <= j < r.2.len() ==> (#[trigger] r.2[j]).1 == backlog[j].1
            &&& forall|j: int|
                0 <= j < slots.len() && slots[j] is Some ==> (#[trigger] r.0[j]) == slots[j]
            &&& forall|j: int| 0 <= j < k ==> (#[trigger] r.0[j]) == slots[j]
        }),
    decreases slots.len() - k,
{
    let r = fill_from(slots, backlog, k);
    if k < 0 || k >= slots.len() {
        assert(r.1 =~= backlog.skip(0));
    } else if slots[k] is None && backlog.len() > 0 {
        let slots2 = slots.update(k, Some(backlog[0].0));
        let backlog2 = backlog.drop_first();
        lemma_fill_fifo(slots2, backlog2, k + 1);
        let rec = fill_from(slots2, backlog2, k + 1);
        assert(r.1 =~= backlog.skip(r.2.len() as int)) by {
            assert(rec.1 =~= backlog2.skip(rec.2.len() as int));
            assert(backlog2.skip(rec.2.len() as int) =~= backlog.skip(rec.2.len() as int + 1));
        }
        assert forall|j: int| 0 <= j < r.2.len() implies (#[trigger] r.2[j]).1 == backlog[j].1 by {
            if j > 0 {
                assert(r.2[j] == rec.2[j - 1]);
                assert(backlog2[j - 1] == backlog[j]);
            }
        }
    } else {
        lemma_fill_fifo(slots, backlog, k + 1);
    }
}

/// Law (backlog excess): when at least as many jobs wait as there are idle
/// slots, an assignment pass fills every idle slot, and exactly the excess
/// stays in the backlog. In particular, `n` jobs enqueued on a fresh pool of
/// `s` slots with `n > s` leave a backlog of `n - s` after the pass.
pub proof fn lemma_fill_backlog_excess<I>(
    slots: Seq<Option<Ticket>>,
    backlog: Seq<(Ticket, I)>,
    k: int,
)
    requires
        0 <= k,
        backlog.len() >= idle_from(slots, k),
    ensures
        ({
            let r = fill_from(slots, backlog, k);
            &&& r.2.len() == idle_from(slots, k)
            &&& r.1.len() == backlog.len() - idle_from(slots, k)
            &&& forall|j: int| k <= j < slots.len() ==> (#[trigger] r.0[j]) is Some
        }),
    decreases slots.len() - k,
{
    let r = fill_from(slots, backlog, k);
    if k < 0 || k >= slots.len() {
    } else if slots[k] is None && backlog.len() > 0 {
        let slots2 = slots.update(k, Some(backlog[0].0));
        let backlog2 = backlog.drop_first();
        assert(idle_from(slots2, k + 1) == idle_from(slots, k + 1)) by {
            lemma_idle_from_update(slots, k + 1, k, Some(backlog[0].0));
        }
        lemma_fill_backlog_excess(slots2, backlog2, k + 1);
        lemma_fill_fifo(slots2, backlog2, k + 1);
        let rec = fill_from(slots2, backlog2, k + 1);
        assert(r.0 == rec.0 && r.1 == rec.1 && r.2.len() == 1 + rec.2.len());
        assert forall|j: int| k <= j < slots.len() implies (#[trigger] r.0[j]) is Some by {
            if j == k {
                assert(rec.0[j] == slots2[j]);
            }
        }
    } else {
        lemma_fill_backlog_excess(slots, backlog, k + 1);
        lemma_fill_fifo(slots, backlog, k + 1);
        let rec = fill_from(slots, backlog, k + 1);
        assert(r == rec);
        assert forall|j: int| k <= j < slots.len() implies (#[trigger] r.0[j]) is Some by {
            if j == k {
                assert(rec.0[j] == slots[j]);
            }
        }
    }
}

/// In a sequence of slots that are all idle, every position from `k` on
/// counts as idle.
proof fn lemma_idle_from_all_idle(slots: Seq<Option<Ticket>>, k: int)
    requires
        0 <= k <= slots.len(),
        forall|j: int| 0 <= j < slots.len() ==> (#[trigger] slots[j]) is None,
    ensures
        idle_from(slots, k) == slots.len() - k,
    decreases slots.len() - k,
{
    if k < slots.len() {
        lemma_idle_from_all_idle(slots, k + 1);
    }
}

/// Law (backlog under load): when `n` jobs wait before a pool of `s` idle
/// slots — as after `n` enqueues on a fresh pool with `n >= s` and no
/// completion yet — one assignment pass puts every slot to work and leaves a
/// backlog of exactly `n - s`.
pub proof fn lemma_fresh_pool_backlog<I>(slots: Seq<Option<Ticket>>, backlog: Seq<(Ticket, I)>)
    requires
        forall|j: int| 0 <= j < slots.len() ==> (#[trigger] slots[j]) is None,
        backlog.len() >= slots.len(),
    ensures
        ({
            let r = fill_from(slots, backlog, 0);
            &&& r.1.len() == backlog.len() - slots.len()
            &&& r.2.len() == slots.len()
            &&& forall|j: int| 0 <= j < slots.len() ==> (#[trigger] r.0[j]) is Some
        }),
{
    lemma_idle_from_all_idle(slots, 0);
    lemma_fill_backlog_excess(slots, backlog, 0);
}

/// Updating a slot below position `k` does not change how many slots at `k`
/// and beyond are idle.
proof fn lemma_idle_from_update(slots: Seq<Option<Ticket>>, k: int, at: int, v: Option<Ticket>)
    requires
        0 <= at < k,
        at < slots.len(),
    ensures
        idle_from(slots.update(at, v), k) == idle_from(slots, k),
    decreases slots.len() - k,
{
    if k < slots.len() {
        lemma_idle_from_update(slots, k + 1, at, v);
    }
}

/// The bookkeeping of a fixed-size worker pool: a FIFO backlog of jobs not
/// yet handed to a worker slot, the ticket each slot currently works on, and
/// the outputs computed but not yet collected.
///
/// The pool itself performs no work: the embedding drives it slot by slot,
/// submitting what [`PoolCore::assign`] hands out to the slot's execution
/// backend and recording with [`PoolCore::complete`] what the backend's poll
/// returned.
pub struct PoolCore<I, O> {
    gen: TicketGenerator,
    backlog: Vec<(Ticket, I)>,
    slots: Vec<Option<Ticket>>,
    done: Vec<(Ticket, O)>,
}

impl<I, O> PoolCore<I, O> {
    /// The identity the next issued ticket will carry.
    pub closed spec fn next_id(self) -> int {
        self.gen.counter()
    }

    /// The jobs waiting for a free slot, in arrival order.
    pub closed spec fn backlog_view(self) -> Seq<(Ticket, I)> {
        self.backlog@
    }

    /// What each worker slot is doing: the ticket of its in-flight job, or
    /// `None` for an idle slot.
    pub closed spec fn slot_view(self) -> Seq<Option<Ticket>> {
        self.slots@
    }

    /// The outputs computed but not yet collected, with their tickets.
    pub closed spec fn done_view(self) -> Seq<(Ticket, O)> {
        self.done@
    }

    /// The number of worker slots, fixed at construction.
    pub open spec fn num_slots(self) -> nat {
        self.slot_view().len()
    }

    /// How many jobs are in flight: the number of slots holding a ticket.
    pub open spec fn in_flight_count(self) -> nat {
        count_some(self.slot_view())
    }

    /// Whether some slot currently works on the job with this identity.
    pub open spec fn id_in_flight(self, id: int) -> bool {
        exists|k: int|
            0 <= k < self.slot_view().len() && self.slot_view()[k] is Some
                && (#[trigger] self.slot_view()[k])->0.id() == id
    }

    /// Whether the backlog holds a job with this identity.
    pub open spec fn id_in_backlog(self, id: int) -> bool {
        exists|i: int| 0 <= i < self.backlog_view().len() && (#[trigger] self.backlog_view()[i]).0.id() == id
    }

    /// Whether an uncollected output with this identity is stored.
    pub open spec fn id_in_done(self, id: int) -> bool {
        exists|i: int| 0 <= i < self.done_view().len() && (#[trigger] self.done_view()[i]).0.id() == id
    }

    /// The pool's internal invariant: the backlog keeps arrival order (ticket
    /// identities strictly increase), every tracked identity was issued
    /// (below the generator's counter), and no identity appears twice —
    /// neither within the backlog, the slots or the done store, nor across
    /// any two of them. A job is thus in at most one place at a time, and a
    /// completed ticket can never collide with a stored output.
    pub closed spec fn wf(self) -> bool {
        &&& self.slots@.len() >= 1
        &&& forall|i: int, j: int|
            0 <= i < j < self.backlog@.len() ==> (#[trigger] self.backlog@[i]).0.id() < (
            #[trigger] self.backlog@[j]).0.id()
        &&& forall|i: int|
            0 <= i < self.backlog@.len() ==> (#[trigger] self.backlog@[i]).0.id() < self.gen.counter()
        &&& forall|k: int|
            0 <= k < self.slots@.len() && self.slots@[k] is Some ==> (#[trigger] self.slots@[k])->0.id()
                < self.gen.counter()
        &&& forall|i: int|
            0 <= i < self.done@.len() ==> (#[trigger] self.done@[i]).0.id() < self.gen.counter()
        &&& forall|k: int, l: int|
            0 <= k < l < self.slots@.len() && self.slots@[k] is Some && self.slots@[l] is Some ==> (
            #[trigger] self.slots@[k])->0.id() != (#[trigger] self.slots@[l])->0.id()
        &&& forall|i: int, j: int|
            0 <= i < j < self.done@.len() ==> (#[trigger] self.done@[i]).0.id() != (
            #[trigger] self.done@[j]).0.id()
        &&& forall|i: int, k: int|
            0 <= i < self.backlog@.len() && 0 <= k < self.slots@.len() && self.slots@[k] is Some ==> (
            #[trigger] self.backlog@[i]).0.id() != (#[trigger] self.slots@[k])->0.id()
        &&& forall|i: int, j: int|
            0 <= i < self.backlog@.len() && 0 <= j < self.done@.len() ==> (
            #[trigger] self.backlog@[i]).0.id() != (#[trigger] self.done@[j]).0.id()
        &&& forall|k: int, j: int|
            0 <= k < self.slots@.len() && self.slots@[k] is Some && 0 <= j < self.done@.len() ==> (
            #[trigger] self.slots@[k])->0.id() != (#[trigger] self.done@[j]).0.id()
    }

    /// A fresh pool with `num_slots` idle worker slots and nothing tracked.
    pub fn new(num_slots: usize) -> (pool: PoolCore<I, O>)
        requires
            num_slots >= 1,
        ensures
            pool.wf(),
            pool.num_slots() == num_slots,
            pool.next_id() == 0,
            pool.backlog_view() =~= Seq::<(Ticket, I)>::empty(),
            pool.done_view() =~= Seq::<(Ticket, O)>::empty(),
            forall|k: int| 0 <= k < num_slots ==> pool.slot_view()[k] is None,
    {
        let mut slots: Vec<Option<Ticket>> = Vec::new();
        let mut k: usize = 0;
        while k < num_slots
            invariant
                k <= num_slots,
                slots@.len() == k,
                forall|i: int| 0 <= i < k ==> slots@[i] is None,
            decreases num_slots - k,
        {
            slots.push(None);
            k = k + 1;
        }
        PoolCore { gen: TicketGenerator::new(), backlog: Vec::new(), slots, done: Vec::new() }
    }

    /// Appends one job to the backlog and returns its fresh ticket. The job
    /// is not handed to a slot here; a scheduling pass does that. Never
    /// blocks and touches neither the slots nor the stored outputs.
    pub fn enqueue(&mut self, input: I) -> (t: Ticket)
        requires
            old(self).wf(),
            old(self).next_id() < usize::MAX,
        ensures
            final(self).wf(),
            t.id() == old(self).next_id(),
            final(self).next_id() == old(self).next_id() + 1,
            final(self).backlog_view().len() == old(self).backlog_view().len() + 1,
            final(self).backlog_view().last().0 == t,
            final(self).backlog_view().last().1 == input,
            final(self).backlog_view().drop_last() =~= old(self).backlog_view(),
            final(self).slot_view() =~= old(self).slot_view(),
            final(self).done_view() =~= old(self).done_view(),
    {
        let (t_caller, t_pool) = self.gen.next();
        self.backlog.push((t_pool, input));
        t_caller
    }

    /// The position of the stored output carrying this identity.
    pub open spec fn done_index(self, id: int) -> int {
        choose|i: int|
            0 <= i < self.done_view().len() && (#[trigger] self.done_view()[i]).0.id() == id
    }

    /// Records the output a slot's backend handed back: the slot's in-flight
    /// ticket moves together with the output into the done store, and the
    /// slot becomes idle. The invariant rules out a duplicate completion:
    /// the finished identity is never already stored, so no entry is ever
    /// overwritten or shadowed.
    pub fn complete(&mut self, k: usize, output: O)
        requires
            old(self).wf(),
            k < old(self).num_slots(),
            old(self).slot_view()[k as int] is Some,
        ensures
            final(self).wf(),
            !old(self).id_in_done(old(self).slot_view()[k as int]->0.id()),
            final(self).slot_view() =~= old(self).slot_view().update(k as int, None),
            final(self).done_view().len() == old(self).done_view().len() + 1,
            final(self).done_view().last().0 == old(self).slot_view()[k as int]->0,
            final(self).done_view().last().1 == output,
            final(self).done_view().drop_last() =~= old(self).done_view(),
            final(self).backlog_view() =~= old(self).backlog_view(),
            final(self).next_id() == old(self).next_id(),
    {
        let slot = &mut self.slots[k];
        let ticket = slot.take().unwrap();
        self.done.push((ticket, output));
    }

    /// Hands the oldest backlog job to the idle slot `k` and returns the
    /// input the embedding must now submit to that slot's backend, or
    /// `None` when nothing waits. Backlog order is strictly kept: it is
    /// always the front entry that leaves.
    pub fn assign(&mut self, k: usize) -> (r: Option<I>)
        requires
            old(self).wf(),
            k < old(self).num_slots(),
            old(self).slot_view()[k as int] is None,
        ensures
            final(self).wf(),
            old(self).backlog_view().len() == 0 ==> r is None && *final(self) == *old(self),
            old(self).backlog_view().len() > 0 ==> {
                &&& r is Some
                &&& r->0 == old(self).backlog_view()[0].1
                &&& final(self).backlog_view() =~= old(self).backlog_view().drop_first()
                &&& final(self).slot_view() =~= old(self).slot_view().update(
                    k as int,
                    Some(old(self).backlog_view()[0].0),
                )
                &&& final(self).done_view() =~= old(self).done_view()
                &&& final(self).next_id() == old(self).next_id()
            },
    {
        if self.backlog.len() > 0 {
            let (ticket, input) = self.backlog.remove(0);
            self.slots.set(k, Some(ticket));
            Some(input)
        } else {
            None
        }
    }

    /// Runs the assignment half of a scheduling pass: walks the slots left
    /// to right and hands each idle one the oldest waiting backlog entry,
    /// until the backlog runs out. Returns the submission plan the embedding
    /// must now carry out — for each newly filled slot, the input to submit
    /// to that slot's backend. Exactly [`fill_from`] over the pool's state,
    /// so the FIFO and backlog-excess laws apply to it.
    pub fn fill(&mut self) -> (plan: Vec<(usize, I)>)
        requires
            old(self).wf(),
        ensures
            final(self).wf(),
            ({
                let r = fill_from(old(self).slot_view(), old(self).backlog_view(), 0);
                &&& final(self).slot_view() =~= r.0
                &&& final(self).backlog_view() =~= r.1
                &&& plan@.map_values(|p: (usize, I)| (p.0 as int, p.1)) =~= r.2
            }),
            final(self).done_view() =~= old(self).done_view(),
            final(self).next_id() == old(self).next_id(),
            final(self).num_slots() == old(self).num_slots(),
    {
        let ghost full = fill_from(old(self).slot_view(), old(self).backlog_view(), 0);
        let mut plan: Vec<(usize, I)> = Vec::new();
        let n = self.slots.len();
        let mut k: usize = 0;
        proof {
            assert(plan@.map_values(|p: (usize, I)| (p.0 as int, p.1)) =~= Seq::<(int,
            I)>::empty());
        }
        while k < n
            invariant
                self.wf(),
                k <= n,
                n == self.num_slots(),
                full == fill_from(old(self).slot_view(), old(self).backlog_view(), 0),
                ({
                    let cur = fill_from(self.slot_view(), self.backlog_view(), k as int);
                    &&& full.0 == cur.0
                    &&& full.1 == cur.1
                    &&& full.2 == plan@.map_values(|p: (usize, I)| (p.0 as int, p.1)) + cur.2
                }),
                self.done_view() =~= old(self).done_view(),
                self.next_id() == old(self).next_id(),
            decreases n - k,
        {
            let ghost pre = *self;
            let ghost plan_pre = plan@;
            let busy = self.slot_busy(k);
            if !busy {
                match self.assign(k) {
                    Some(input) => {
                        plan.push((k, input));
                        proof {
                            let cur_pre = fill_from(pre.slot_view(), pre.backlog_view(), k as int);
                            let cur = fill_from(self.slot_view(), self.backlog_view(), k as int + 1);
                            assert(self.slot_view() =~= pre.slot_view().update(
                                k as int,
                                Some(pre.backlog_view()[0].0),
                            ));
                            assert(self.backlog_view() =~= pre.backlog_view().drop_first());
                            assert(cur_pre.2 =~= seq![(k as int, pre.backlog_view()[0].1)] + cur.2);
                            let f = |p: (usize, I)| (p.0 as int, p.1);
                            assert(plan@.map_values(f) =~= plan_pre.map_values(f).push(
                                (k as int, pre.backlog_view()[0].1),
                            ));
                            assert(plan@.map_values(f) + cur.2 =~= plan_pre.map_values(f)
                                + cur_pre.2);
                        }
                    },
                    None => {
                        proof {
                            assert(pre.backlog_view().len() == 0);
                        }
                    },
                }
            }
            k = k + 1;
        }
        proof {
            let cur = fill_from(self.slot_view(), self.backlog_view(), n as int);
            assert(full.2 =~= plan@.map_values(|p: (usize, I)| (p.0 as int, p.1)) + cur.2);
            assert(full.2 =~= plan@.map_values(|p: (usize, I)| (p.0 as int, p.1)));
        }
        plan
    }

    /// The number of worker slots, as fixed at construction.
    pub fn num_workers(&self) -> (n: usize)
        ensures
            n == self.num_slots(),
    {
        self.slots.len()
    }

    /// How many ticket identities this pool has issued so far.
    pub fn issued(&self) -> (n: usize)
        ensures
            n as int == self.next_id(),
    {
        self.gen.issued()
    }

    /// How many jobs wait in the backlog for a free slot.
    pub fn backlog_len(&self) -> (n: usize)
        ensures
            n == self.backlog_view().len(),
    {
        self.backlog.len()
    }

    /// Whether slot `k` currently works on a job.
    pub fn slot_busy(&self, k: usize) -> (b: bool)
        requires
            k < self.num_slots(),
        ensures
            b == (self.slot_view()[k as int] is Some),
    {
        self.slots[k].is_some()
    }

    /// Looks a ticket up in the done store. If its output has been recorded,
    /// the entry is removed — collected exactly once — and handed over as
    /// `Done`; otherwise the ticket comes back as `Ongoing` for a later
    /// retry. An identity this pool has not issued is never reported done.
    pub fn collect(&mut self, t: Ticket) -> (r: JobState<O>)
        requires
            old(self).wf(),
        ensures
            final(self).wf(),
            t.id() >= old(self).next_id() ==> r is Ongoing,
            old(self).id_in_done(t.id()) ==> {
                &&& r is Done
                &&& r->Done_0 == old(self).done_view()[old(self).done_index(t.id())].1
                &&& final(self).done_view() =~= old(self).done_view().remove(
                    old(self).done_index(t.id()),
                )
                &&& !final(self).id_in_done(t.id())
            },
            !old(self).id_in_done(t.id()) ==> r == JobState::<O>::Ongoing(t) && *final(self)
                == *old(self),
            final(self).backlog_view() =~= old(self).backlog_view(),
            final(self).slot_view() =~= old(self).slot_view(),
            final(self).next_id() == old(self).next_id(),
    {
        let id = t.raw();
        let n = self.done.len();
        let mut i: usize = 0;
        while i < n
            invariant
                i <= n,
                n == self.done@.len(),
                old(self).wf(),
                *self == *old(self),
                forall|j: int| 0 <= j < i ==> (#[trigger] self.done@[j]).0.id() != t.id(),
                id as int == t.id(),
            decreases n - i,
        {
            if self.done[i].0.raw() == id {
                proof {
                    assert(old(self).done_view()[i as int].0.id() == t.id());
                    assert(old(self).id_in_done(t.id()));
                    let w = old(self).done_index(t.id());
                    assert(0 <= w < old(self).done_view().len() && old(self).done_view()[w].0.id()
                        == t.id());
                    assert(w == i);
                }
                let (_ticket, output) = self.done.remove(i);
                return JobState::Done(output);
            }
            i = i + 1;
        }
        JobState::Ongoing(t)
    }
}

} // verus!
