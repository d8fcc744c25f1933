//! The graph-agnostic competing-consumer lifecycle: pending FIFO, live leases and
//! the terminal dead-letter log.
//!
//! The clock is a caller argument, so redelivery is deterministic. The invalidation
//! set of a mutation is a function of the counts before and after, never of the
//! operation.

use vstd::prelude::*;

use crate::filtering::filtered_stays_distinct;
use crate::sorted::{SortedTable, ascending_is_in_order, in_order};
use crate::value::{Key, OrderedKey, Datum, copies};

verus! {

/// A stable queued item. `attempts` counts leases already issued for it.
#[derive(Debug, Clone, PartialEq, Eq)]
pub struct WorkQueueItem<T> {
    /// Stable identity.
    pub item_id: u64,
    /// The work.
    pub value: T,
    /// Leases already issued.
    pub attempts: u32,
}

impl<T: View> View for WorkQueueItem<T> {
    type V = WorkQueueItem<T::V>;

    open spec fn view(&self) -> WorkQueueItem<T::V> {
        WorkQueueItem { item_id: self.item_id, value: self.value@, attempts: self.attempts }
    }
}

impl<T: Datum> Datum for WorkQueueItem<T> {
    fn duplicate(&self) -> (copy: Self) {
        WorkQueueItem {
            item_id: self.item_id,
            value: self.value.duplicate(),
            attempts: self.attempts,
        }
    }
}

/// One exclusive, worker-owned delivery lease.
#[derive(Debug, Clone, PartialEq, Eq)]
pub struct WorkQueueDelivery<T, I = String> {
    /// Fresh on every attempt.
    pub delivery_id: u64,
    /// Stable over attempts.
    pub item_id: u64,
    /// The work.
    pub value: T,
    /// Who holds the lease.
    pub worker: I,
    /// Which attempt this is.
    pub attempt: u32,
    /// The last instant of the lease.
    pub deadline: u64,
}

impl<T: View, I: View> View for WorkQueueDelivery<T, I> {
    type V = WorkQueueDelivery<T::V, I::V>;

    open spec fn view(&self) -> WorkQueueDelivery<T::V, I::V> {
        WorkQueueDelivery {
            delivery_id: self.delivery_id,
            item_id: self.item_id,
            value: self.value@,
            worker: self.worker@,
            attempt: self.attempt,
            deadline: self.deadline,
        }
    }
}

impl<T: Datum, I: Datum> Datum for WorkQueueDelivery<T, I> {
    fn duplicate(&self) -> (copy: Self) {
        WorkQueueDelivery {
            delivery_id: self.delivery_id,
            item_id: self.item_id,
            value: self.value.duplicate(),
            worker: self.worker.duplicate(),
            attempt: self.attempt,
            deadline: self.deadline,
        }
    }
}

/// Why an item exhausted its delivery budget.
#[derive(Debug, Clone, Copy, PartialEq, Eq, Structural)]
pub enum WorkQueueDeadLetterReason {
    /// The last attempt was rejected.
    Nack,
    /// The last lease ran out.
    Expired,
}

/// A terminal poison-message record.
#[derive(Debug, Clone, PartialEq, Eq)]
pub struct WorkQueueDeadLetter<T> {
    /// Stable identity.
    pub item_id: u64,
    /// The work.
    pub value: T,
    /// Leases issued.
    pub attempts: u32,
    /// How the last attempt ended.
    pub reason: WorkQueueDeadLetterReason,
}

impl<T: View> View for WorkQueueDeadLetter<T> {
    type V = WorkQueueDeadLetter<T::V>;

    open spec fn view(&self) -> WorkQueueDeadLetter<T::V> {
        WorkQueueDeadLetter {
            item_id: self.item_id,
            value: self.value@,
            attempts: self.attempts,
            reason: self.reason,
        }
    }
}

impl<T: Datum> Datum for WorkQueueDeadLetter<T> {
    fn duplicate(&self) -> (copy: Self) {
        WorkQueueDeadLetter {
            item_id: self.item_id,
            value: self.value.duplicate(),
            attempts: self.attempts,
            reason: self.reason,
        }
    }
}

/// The three independent size observations that a reader kind can project.
#[derive(Debug, Clone, Copy, PartialEq, Eq, Structural)]
pub struct Counts {
    /// Pending items.
    pub pending: usize,
    /// Live leases.
    pub in_flight: usize,
    /// Dead letters.
    pub dead_letters: usize,
}

/// One completed mutation, as the counts before and after.
#[derive(Debug, Clone, Copy, PartialEq, Eq, Structural)]
pub struct Transition {
    /// The counts before.
    pub before: Counts,
    /// The counts after.
    pub after: Counts,
}

/// Which reader kinds a transition moved.
#[derive(Debug, Clone, Copy, PartialEq, Eq, Structural)]
pub struct ReaderChange {
    /// The pending length moved.
    pub pending_len: bool,
    /// Emptiness flipped.
    pub is_empty: bool,
    /// The number of leases moved.
    pub in_flight_len: bool,
    /// The number of dead letters moved.
    pub dead_letter_len: bool,
}

impl Transition {
    /// Which reader kinds moved: those whose projection of the counts differs.
    pub open spec fn moved(self) -> ReaderChange {
        ReaderChange {
            pending_len: self.before.pending != self.after.pending,
            is_empty: (self.before.pending == 0) != (self.after.pending == 0),
            in_flight_len: self.before.in_flight != self.after.in_flight,
            dead_letter_len: self.before.dead_letters != self.after.dead_letters,
        }
    }

    /// Which reader kinds this transition moved.
    pub fn changed(&self) -> (change: ReaderChange)
        ensures
            change == self.moved(),
    {
        ReaderChange {
            pending_len: self.before.pending != self.after.pending,
            is_empty: (self.before.pending == 0) != (self.after.pending == 0),
            in_flight_len: self.before.in_flight != self.after.in_flight,
            dead_letter_len: self.before.dead_letters != self.after.dead_letters,
        }
    }
}

/// The lifecycle, over views.
#[verifier::ext_equal]
pub struct WorkState<P, W> {
    /// Items to claim, oldest first.
    pub pending: Seq<WorkQueueItem<P>>,
    /// Live leases by delivery id.
    pub in_flight: Map<u64, WorkQueueDelivery<P, W>>,
    /// Items that exhausted their budget, in failure order.
    pub dead_letters: Seq<WorkQueueDeadLetter<P>>,
    /// The identity of the next item.
    pub next_item_id: u64,
    /// The identity of the next lease.
    pub next_delivery_id: u64,
    /// How long a lease lasts.
    pub visibility_timeout: u64,
    /// How many leases an item may get.
    pub max_deliveries: u32,
}

impl<P, W> WorkState<P, W> {
    /// A queue without items.
    pub open spec fn initial(visibility_timeout: u64, max_deliveries: u32) -> Self {
        WorkState {
            pending: Seq::empty(),
            in_flight: Map::empty(),
            dead_letters: Seq::empty(),
            next_item_id: 0,
            next_delivery_id: 0,
            visibility_timeout,
            max_deliveries,
        }
    }

    /// What every reachable queue satisfies: leases are filed under their own,
    /// already issued id, attempts are within the budget, and every item is in one
    /// place only.
    pub open spec fn wf(self) -> bool {
        &&& self.visibility_timeout > 0
        &&& self.max_deliveries >= 1
        &&& self.in_flight.dom().finite()
        &&& forall|id: u64| #[trigger]
            self.in_flight.contains_key(id) ==> {
                &&& self.in_flight[id].delivery_id == id
                &&& id < self.next_delivery_id
                &&& self.in_flight[id].item_id < self.next_item_id
                &&& 1 <= self.in_flight[id].attempt <= self.max_deliveries
            }
        &&& forall|i: int|
            0 <= i < self.pending.len() ==> (#[trigger] self.pending[i]).item_id
                < self.next_item_id && self.pending[i].attempts < self.max_deliveries
        &&& forall|i: int|
            0 <= i < self.dead_letters.len() ==> (#[trigger] self.dead_letters[i]).item_id
                < self.next_item_id && self.dead_letters[i].attempts == self.max_deliveries
        &&& self.exclusive()
    }

    /// No item is in two places.
    pub open spec fn exclusive(self) -> bool {
        &&& forall|i: int, j: int|
            0 <= i < j < self.pending.len() ==> (#[trigger] self.pending[i]).item_id != (
            #[trigger] self.pending[j]).item_id
        &&& forall|a: u64, b: u64| #[trigger]
            self.in_flight.contains_key(a) && #[trigger] self.in_flight.contains_key(b) && a != b
                ==> self.in_flight[a].item_id != self.in_flight[b].item_id
        &&& forall|i: int, j: int|
            0 <= i < j < self.dead_letters.len() ==> (#[trigger] self.dead_letters[i]).item_id != (
            #[trigger] self.dead_letters[j]).item_id
        &&& forall|i: int, id: u64|
            0 <= i < self.pending.len() && #[trigger] self.in_flight.contains_key(id) ==> (
            #[trigger] self.pending[i]).item_id != self.in_flight[id].item_id
        &&& forall|i: int, j: int|
            0 <= i < self.pending.len() && 0 <= j < self.dead_letters.len() ==> (
            #[trigger] self.pending[i]).item_id != (#[trigger] self.dead_letters[j]).item_id
        &&& forall|j: int, id: u64|
            0 <= j < self.dead_letters.len() && #[trigger] self.in_flight.contains_key(id) ==> (
            #[trigger] self.dead_letters[j]).item_id != self.in_flight[id].item_id
    }

    /// The observable sizes.
    pub open spec fn counts(self) -> Counts {
        Counts {
            pending: self.pending.len() as usize,
            in_flight: self.in_flight.len() as usize,
            dead_letters: self.dead_letters.len() as usize,
        }
    }

    /// An item appended.
    pub open spec fn pushed(self, value: P) -> Self {
        WorkState {
            pending: self.pending.push(
                WorkQueueItem { item_id: self.next_item_id, value, attempts: 0 },
            ),
            next_item_id: (self.next_item_id + 1) as u64,
            ..self
        }
    }

    /// The lease that a worker gets for the oldest pending item.
    pub open spec fn lease(self, worker: W, now: u64) -> WorkQueueDelivery<P, W> {
        let item = self.pending[0];
        WorkQueueDelivery {
            delivery_id: self.next_delivery_id,
            item_id: item.item_id,
            value: item.value,
            worker,
            attempt: (item.attempts + 1) as u32,
            deadline: if now + self.visibility_timeout > u64::MAX {
                u64::MAX
            } else {
                (now + self.visibility_timeout) as u64
            },
        }
    }

    /// The oldest pending item leased to a worker.
    pub open spec fn claimed(self, worker: W, now: u64) -> Self {
        WorkState {
            pending: self.pending.skip(1),
            in_flight: self.in_flight.insert(self.next_delivery_id, self.lease(worker, now)),
            next_delivery_id: (self.next_delivery_id + 1) as u64,
            ..self
        }
    }

    /// Whether a live lease belongs to a worker.
    pub open spec fn held_by(self, worker: W, delivery_id: u64) -> bool {
        self.in_flight.contains_key(delivery_id) && self.in_flight[delivery_id].worker == worker
    }

    /// A lease settled: the item is gone.
    pub open spec fn settled(self, delivery_id: u64) -> Self {
        WorkState { in_flight: self.in_flight.remove(delivery_id), ..self }
    }

    /// A lease failed: the item goes to the tail while its budget lasts, to the
    /// dead letters otherwise.
    pub open spec fn failed(self, delivery_id: u64, reason: WorkQueueDeadLetterReason) -> Self {
        let delivery = self.in_flight[delivery_id];
        let rest = self.settled(delivery_id);
        if delivery.attempt < self.max_deliveries {
            WorkState {
                pending: self.pending.push(
                    WorkQueueItem {
                        item_id: delivery.item_id,
                        value: delivery.value,
                        attempts: delivery.attempt,
                    },
                ),
                ..rest
            }
        } else {
            WorkState {
                dead_letters: self.dead_letters.push(
                    WorkQueueDeadLetter {
                        item_id: delivery.item_id,
                        value: delivery.value,
                        attempts: delivery.attempt,
                        reason,
                    },
                ),
                ..rest
            }
        }
    }

    /// Leases that ended before `now`, in ascending id.
    pub open spec fn expired(self, now: u64) -> Seq<u64> {
        in_order::<u64>(self.in_flight.dom()).filter(
            |id: u64| self.in_flight[id].deadline < now,
        )
    }

    /// Leases failed one after the other as expired.
    pub open spec fn reaped(self, ids: Seq<u64>) -> Self
        decreases ids.len(),
    {
        if ids.len() == 0 {
            self
        } else {
            self.reaped(ids.drop_last()).failed(ids.last(), WorkQueueDeadLetterReason::Expired)
        }
    }

    /// The leases by ascending id.
    pub open spec fn leases(self) -> Seq<WorkQueueDelivery<P, W>> {
        in_order::<u64>(self.in_flight.dom()).map_values(|id: u64| self.in_flight[id])
    }
}

/// Failing a live lease keeps the queue in order.
pub proof fn failing_keeps_order<P, W>(
    state: WorkState<P, W>,
    delivery_id: u64,
    reason: WorkQueueDeadLetterReason,
)
    requires
        state.wf(),
        state.in_flight.contains_key(delivery_id),
    ensures
        state.failed(delivery_id, reason).wf(),
{
}

/// Pending FIFO, live leases, and the terminal dead-letter log.
pub struct WorkQueueCore<T, I> {
    pending: Vec<WorkQueueItem<T>>,
    in_flight: SortedTable<u64, WorkQueueDelivery<T, I>>,
    dead_letters: Vec<WorkQueueDeadLetter<T>>,
    next_item_id: u64,
    next_delivery_id: u64,
    visibility_timeout: u64,
    max_deliveries: u32,
}

impl<T: View, I: View> View for WorkQueueCore<T, I> {
    type V = WorkState<T::V, I::V>;

    closed spec fn view(&self) -> WorkState<T::V, I::V> {
        WorkState {
            pending: self.pending@.map_values(|item: WorkQueueItem<T>| item@),
            in_flight: self.in_flight.map().map_values(
                |delivery: WorkQueueDelivery<T, I>| delivery@,
            ),
            dead_letters: self.dead_letters@.map_values(
                |letter: WorkQueueDeadLetter<T>| letter@,
            ),
            next_item_id: self.next_item_id,
            next_delivery_id: self.next_delivery_id,
            visibility_timeout: self.visibility_timeout,
            max_deliveries: self.max_deliveries,
        }
    }
}

impl<T: Datum, I: Key> WorkQueueCore<T, I> {
    /// The queue is one that the operations can reach.
    pub closed spec fn wf(&self) -> bool {
        self.in_flight.wf() && self@.wf()
    }

    /// What well-formedness says to a caller.
    pub proof fn wf_facts(&self)
        requires
            self.wf(),
        ensures
            self@.wf(),
    {
    }

    /// The leases' model has the table's domain.
    proof fn lease_facts(&self)
        requires
            self.in_flight.wf(),
        ensures
            self@.in_flight.dom() == self.in_flight.map().dom(),
            self@.in_flight.dom().finite(),
            self@.in_flight.len() == self.in_flight.ids().len(),
            self.in_flight.ids() == in_order::<u64>(self@.in_flight.dom()),
    {
        self.in_flight.wf_facts();
        assert(self@.in_flight.dom() =~= self.in_flight.map().dom());
        ascending_is_in_order::<u64>(self.in_flight.ids());
    }

    /// An empty queue.
    pub fn new(visibility_timeout: u64, max_deliveries: u32) -> (core: Self)
        requires
            visibility_timeout > 0,
            max_deliveries >= 1,
        ensures
            core.wf(),
            core@ == WorkState::<T::V, I::V>::initial(visibility_timeout, max_deliveries),
    {
        let core = WorkQueueCore {
            pending: Vec::new(),
            in_flight: SortedTable::new(),
            dead_letters: Vec::new(),
            next_item_id: 0,
            next_delivery_id: 0,
            visibility_timeout,
            max_deliveries,
        };
        proof {
            assert(core@ =~= WorkState::<T::V, I::V>::initial(visibility_timeout, max_deliveries));
        }
        core
    }

    fn counts(&self) -> (counts: Counts)
        requires
            self.in_flight.wf(),
        ensures
            counts == self@.counts(),
            counts.pending == self@.pending.len(),
            counts.in_flight == self@.in_flight.len(),
            counts.dead_letters == self@.dead_letters.len(),
    {
        proof {
            self.lease_facts();
        }
        Counts {
            pending: self.pending.len(),
            in_flight: self.in_flight.len(),
            dead_letters: self.dead_letters.len(),
        }
    }

    /// Fails a live lease: requeues at the tail while the budget lasts, else routes
    /// to the dead letters.
    fn fail_delivery(&mut self, delivery_id: u64, reason: WorkQueueDeadLetterReason)
        requires
            old(self).wf(),
            old(self)@.in_flight.contains_key(delivery_id),
        ensures
            final(self).wf(),
            final(self)@ == old(self)@.failed(delivery_id, reason),
    {
        let ghost before = self@;
        proof {
            self.lease_facts();
        }
        match self.in_flight.remove(&delivery_id) {
            Some(delivery) => {
                let ghost model = delivery@;
                proof {
                    assert(model == before.in_flight[delivery_id]);
                    assert(self@.in_flight =~= before.in_flight.remove(delivery_id));
                }
                if delivery.attempt < self.max_deliveries {
                    self.pending.push(
                        WorkQueueItem {
                            item_id: delivery.item_id,
                            value: delivery.value,
                            attempts: delivery.attempt,
                        },
                    );
                    proof {
                        assert(self@.pending =~= before.failed(delivery_id, reason).pending);
                    }
                } else {
                    self.dead_letters.push(
                        WorkQueueDeadLetter {
                            item_id: delivery.item_id,
                            value: delivery.value,
                            attempts: delivery.attempt,
                            reason,
                        },
                    );
                    proof {
                        assert(self@.dead_letters =~= before.failed(
                            delivery_id,
                            reason,
                        ).dead_letters);
                    }
                }
            },
            None => {},
        }
        proof {
            assert(self@ =~= before.failed(delivery_id, reason));
            failing_keeps_order(before, delivery_id, reason);
        }
    }

    /// Appends one item to the pending FIFO and returns its stable identity.
    pub fn push(&mut self, value: T) -> (outcome: (u64, Transition))
        requires
            old(self).wf(),
            old(self)@.next_item_id < u64::MAX,
        ensures
            final(self).wf(),
            final(self)@ == old(self)@.pushed(value@),
            outcome.0 == old(self)@.next_item_id,
            outcome.1 == (Transition { before: old(self)@.counts(), after: final(self)@.counts() }),
    {
        let before = self.counts();
        let item_id = self.next_item_id;
        let ghost model = value@;
        self.next_item_id = self.next_item_id + 1;
        self.pending.push(WorkQueueItem { item_id, value, attempts: 0 });
        proof {
            assert(self@.pending =~= old(self)@.pushed(model).pending);
            assert(self@ =~= old(self)@.pushed(model));
        }
        (item_id, Transition { before, after: self.counts() })
    }

    /// Claims the oldest pending item for `worker`, or `None` when empty. The
    /// delivery id is fresh on every attempt while the item id stays stable.
    pub fn claim(&mut self, worker: I, now: u64) -> (outcome: Option<
        (WorkQueueDelivery<T, I>, Transition),
    >)
        requires
            old(self).wf(),
            old(self)@.pending.len() > 0 ==> old(self)@.next_delivery_id < u64::MAX,
        ensures
            final(self).wf(),
            outcome is Some <==> old(self)@.pending.len() > 0,
            outcome is None ==> final(self)@ == old(self)@,
            outcome matches Some((delivery, transition)) ==> {
                &&& final(self)@ == old(self)@.claimed(worker@, now)
                &&& delivery@ == old(self)@.lease(worker@, now)
                &&& transition == (Transition {
                    before: old(self)@.counts(),
                    after: final(self)@.counts(),
                })
            },
    {
        let before = self.counts();
        if self.pending.len() == 0 {
            return None;
        }
        let ghost who = worker@;
        let ghost head = self@.pending[0];
        let item = self.pending.remove(0);
        proof {
            assert(item@ == head);
            assert(self.pending@.map_values(|item: WorkQueueItem<T>| item@)
                =~= old(self)@.pending.skip(1));
        }
        let delivery_id = self.next_delivery_id;
        self.next_delivery_id = self.next_delivery_id + 1;
        let delivery = WorkQueueDelivery {
            delivery_id,
            item_id: item.item_id,
            value: item.value,
            worker,
            attempt: item.attempts.saturating_add(1),
            deadline: now.saturating_add(self.visibility_timeout),
        };
        let handed = delivery.duplicate();
        let ghost model = delivery@;
        self.in_flight.put(delivery_id, delivery);
        proof {
            assert(model == old(self)@.lease(who, now));
            assert(self@.in_flight =~= old(self)@.in_flight.insert(delivery_id, model));
            assert(self@ =~= old(self)@.claimed(who, now));
            self.lease_facts();
            assert forall|i: int| 0 <= i < self@.pending.len() implies #[trigger] self@.pending[i]
                == old(self)@.pending[i + 1] by {}
            assert(self@.wf());
        }
        Some((handed, Transition { before, after: self.counts() }))
    }

    fn owns(&self, worker: &I, delivery_id: u64) -> (answer: bool)
        requires
            self.in_flight.wf(),
        ensures
            answer == self@.held_by(worker@, delivery_id),
    {
        match self.in_flight.get(&delivery_id) {
            Some(delivery) => delivery.worker.same(worker),
            None => false,
        }
    }

    /// Settles a matching live delivery. Wrong-worker, stale, and duplicate
    /// acknowledgements are no-ops that invalidate nothing.
    pub fn ack(&mut self, worker: &I, delivery_id: u64) -> (outcome: Option<Transition>)
        requires
            old(self).wf(),
        ensures
            final(self).wf(),
            outcome is Some <==> old(self)@.held_by(worker@, delivery_id),
            outcome is None ==> final(self)@ == old(self)@,
            outcome matches Some(transition) ==> final(self)@ == old(self)@.settled(delivery_id)
                && transition == (Transition {
                before: old(self)@.counts(),
                after: final(self)@.counts(),
            }),
    {
        if !self.owns(worker, delivery_id) {
            return None;
        }
        let before = self.counts();
        let _settled = self.in_flight.remove(&delivery_id);
        proof {
            assert(self@.in_flight =~= old(self)@.in_flight.remove(delivery_id));
            assert(self@ =~= old(self)@.settled(delivery_id));
            self.lease_facts();
        }
        Some(Transition { before, after: self.counts() })
    }

    /// Rejects a matching delivery, requeueing at the tail or dead-lettering at the
    /// attempt limit.
    pub fn nack(&mut self, worker: &I, delivery_id: u64) -> (outcome: Option<Transition>)
        requires
            old(self).wf(),
        ensures
            final(self).wf(),
            outcome is Some <==> old(self)@.held_by(worker@, delivery_id),
            outcome is None ==> final(self)@ == old(self)@,
            outcome matches Some(transition) ==> final(self)@ == old(self)@.failed(
                delivery_id,
                WorkQueueDeadLetterReason::Nack,
            ) && transition == (Transition {
                before: old(self)@.counts(),
                after: final(self)@.counts(),
            }),
    {
        if !self.owns(worker, delivery_id) {
            return None;
        }
        let before = self.counts();
        self.fail_delivery(delivery_id, WorkQueueDeadLetterReason::Nack);
        Some(Transition { before, after: self.counts() })
    }

    /// Requeues or dead-letters every lease with `deadline < now`, in delivery-id
    /// order. `None` when nothing expired.
    pub fn reap_expired(&mut self, now: u64) -> (outcome: Option<(usize, Transition)>)
        requires
            old(self).wf(),
        ensures
            final(self).wf(),
            outcome is Some <==> old(self)@.expired(now).len() > 0,
            final(self)@ == old(self)@.reaped(old(self)@.expired(now)),
            outcome matches Some((count, transition)) ==> count == old(self)@.expired(now).len()
                && transition == (Transition {
                before: old(self)@.counts(),
                after: final(self)@.counts(),
            }),
    {
        let ghost start = self@;
        let ghost ids = in_order::<u64>(start.in_flight.dom());
        let ghost over = |id: u64| start.in_flight[id].deadline < now;
        let mut expired: Vec<u64> = Vec::new();
        let mut index: usize = 0;
        proof {
            self.lease_facts();
            reveal(Seq::filter);
            assert(expired@ =~= ids.take(0).filter(over));
        }
        while index < self.in_flight.len()
            invariant
                *self == *old(self),
                self.wf(),
                start == self@,
                ids == self.in_flight.ids(),
                over == (|id: u64| start.in_flight[id].deadline < now),
                index <= ids.len(),
                expired@ == ids.take(index as int).filter(over),
            decreases ids.len() - index,
        {
            let ghost id = ids[index as int];
            let delivery = self.in_flight.value_at(index);
            proof {
                self.in_flight.wf_facts();
                assert(ids.contains(id));
                assert(start.in_flight[id] == delivery@);
                reveal(Seq::filter);
                let longer = ids.take(index + 1);
                assert(longer.drop_last() =~= ids.take(index as int));
                assert(longer.last() == id);
            }
            if delivery.deadline < now {
                expired.push(*self.in_flight.key_at(index));
            }
            index = index + 1;
        }
        proof {
            assert(ids.take(index as int) =~= ids);
            assert(expired@ == start.expired(now));
        }
        if expired.len() == 0 {
            return None;
        }
        let before = self.counts();
        let mut place: usize = 0;
        proof {
            self.in_flight.wf_facts();
            filtered_stays_distinct(ids, over);
            assert(expired@.take(0) =~= Seq::empty());
            assert forall|i: int| 0 <= i < expired@.len() implies self@.in_flight.contains_key(
                #[trigger] expired@[i],
            ) by {
                let at = ids.index_of(expired@[i]);
                assert(ids[at] == expired@[i]);
                assert(self.in_flight.ids().contains(ids[at]));
            }
        }
        while place < expired.len()
            invariant
                self.wf(),
                place <= expired@.len(),
                expired@.no_duplicates(),
                self@ == start.reaped(expired@.take(place as int)),
                forall|i: int|
                    place <= i < expired@.len() ==> self@.in_flight.contains_key(
                        #[trigger] expired@[i],
                    ),
            decreases expired@.len() - place,
        {
            let ghost here = self@;
            let delivery_id = expired[place];
            self.fail_delivery(delivery_id, WorkQueueDeadLetterReason::Expired);
            proof {
                let longer = expired@.take(place + 1);
                assert(longer.drop_last() =~= expired@.take(place as int));
                assert(longer.last() == delivery_id);
                assert forall|i: int| place + 1 <= i < expired@.len() implies
                    self@.in_flight.contains_key(#[trigger] expired@[i]) by {
                    assert(here.in_flight.contains_key(expired@[i]));
                    assert(expired@[i] != expired@[place as int]);
                }
            }
            place = place + 1;
        }
        proof {
            assert(expired@.take(place as int) =~= expired@);
        }
        Some((expired.len(), Transition { before, after: self.counts() }))
    }

    /// How many items are pending.
    pub fn pending_len(&self) -> (count: usize)
        ensures
            count == self@.pending.len(),
    {
        self.pending.len()
    }

    /// Whether nothing is pending.
    pub fn is_empty(&self) -> (answer: bool)
        ensures
            answer == (self@.pending.len() == 0),
    {
        self.pending.is_empty()
    }

    /// How many leases are live.
    pub fn in_flight_len(&self) -> (count: usize)
        requires
            self.wf(),
        ensures
            count == self@.in_flight.len(),
    {
        proof {
            self.lease_facts();
        }
        self.in_flight.len()
    }

    /// How many items are dead.
    pub fn dead_letter_len(&self) -> (count: usize)
        ensures
            count == self@.dead_letters.len(),
    {
        self.dead_letters.len()
    }

    /// Pending items, oldest first.
    pub fn pending_items(&self) -> (items: Vec<WorkQueueItem<T>>)
        ensures
            items@.map_values(|item: WorkQueueItem<T>| item@) == self@.pending,
    {
        copies(&self.pending)
    }

    /// Live leases sorted by delivery id.
    pub fn in_flight_deliveries(&self) -> (deliveries: Vec<WorkQueueDelivery<T, I>>)
        requires
            self.wf(),
        ensures
            deliveries@.map_values(|delivery: WorkQueueDelivery<T, I>| delivery@)
                == self@.leases(),
    {
        let mut deliveries: Vec<WorkQueueDelivery<T, I>> = Vec::new();
        let mut index: usize = 0;
        let ghost all = self@.leases();
        proof {
            self.lease_facts();
            assert(deliveries@.map_values(|delivery: WorkQueueDelivery<T, I>| delivery@)
                =~= all.take(0));
        }
        while index < self.in_flight.len()
            invariant
                self.wf(),
                all == self@.leases(),
                self.in_flight.ids() == in_order::<u64>(self@.in_flight.dom()),
                index <= self.in_flight.ids().len(),
                deliveries@.map_values(|delivery: WorkQueueDelivery<T, I>| delivery@) == all.take(
                    index as int,
                ),
            decreases self.in_flight.ids().len() - index,
        {
            let ghost before = deliveries@;
            deliveries.push(self.in_flight.value_at(index).duplicate());
            proof {
                self.in_flight.wf_facts();
                let id = self.in_flight.ids()[index as int];
                assert(self.in_flight.ids().contains(id));
                assert(all[index as int] == self.in_flight.map()[id]@);
                assert(deliveries@.map_values(|delivery: WorkQueueDelivery<T, I>| delivery@)
                    =~= before.map_values(|delivery: WorkQueueDelivery<T, I>| delivery@).push(
                    all[index as int],
                ));
                assert(all.take(index + 1) =~= all.take(index as int).push(all[index as int]));
            }
            index = index + 1;
        }
        proof {
            assert(all.take(index as int) =~= all);
        }
        deliveries
    }

    /// Dead letters in failure order.
    pub fn dead_letters(&self) -> (letters: Vec<WorkQueueDeadLetter<T>>)
        ensures
            letters@.map_values(|letter: WorkQueueDeadLetter<T>| letter@) == self@.dead_letters,
    {
        copies(&self.dead_letters)
    }
}

} // verus!
