//! Transport-agnostic egress: delivery authority without graph handles or I/O.
//!
//! The core owns sequence assignment, the unacknowledged window, a monotone
//! acknowledgement watermark, the retry budget and the producer-generation fence.

use vstd::prelude::*;

use crate::backoff::{backoff, clamped_backoff};
use crate::sorted::{SortedTable, ascending, ascending_is_in_order, in_order};
use crate::value::{OrderedKey, Datum, lex_less};

verus! {

/// Egress policy. `retry_budget` counts retries after the first attempt.
#[derive(Debug, Clone, Copy, PartialEq, Eq, Structural)]
pub struct EgressPolicy {
    /// How many records may be unacknowledged at once.
    pub inflight_limit: usize,
    /// Retries after the first attempt.
    pub retry_budget: u32,
    /// First retry backoff; doubles per attempt.
    pub retry_base: u64,
    /// Backoff clamp.
    pub retry_ceiling: u64,
}

impl Default for EgressPolicy {
    fn default() -> (policy: Self)
        ensures
            policy == (EgressPolicy {
                inflight_limit: 64,
                retry_budget: 3,
                retry_base: 10,
                retry_ceiling: 1_000,
            }),
    {
        EgressPolicy { inflight_limit: 64, retry_budget: 3, retry_base: 10, retry_ceiling: 1_000 }
    }
}

/// Why a policy was refused.
#[derive(Debug, Clone, Copy, PartialEq, Eq, Structural)]
pub enum EgressConfigError {
    /// Nothing could ever be sent.
    ZeroInflightLimit,
    /// Backoff would stay zero.
    ZeroRetryBase,
    /// The clamp is below the first backoff.
    RetryCeilingBelowBase,
}

/// One send attempt. Generation and sequence together are the transport's
/// idempotency identity.
#[derive(Debug, Clone, PartialEq, Eq)]
pub struct EgressEnvelope<T> {
    /// Producer incarnation.
    pub generation: u64,
    /// Position in the sequence space.
    pub sequence: u64,
    /// How often the record was claimed.
    pub attempt: u32,
    /// The payload.
    pub payload: T,
}

impl<T: View> View for EgressEnvelope<T> {
    type V = EgressEnvelope<T::V>;

    open spec fn view(&self) -> EgressEnvelope<T::V> {
        EgressEnvelope {
            generation: self.generation,
            sequence: self.sequence,
            attempt: self.attempt,
            payload: self.payload@,
        }
    }
}

impl<T: Datum> Datum for EgressEnvelope<T> {
    fn duplicate(&self) -> (copy: Self) {
        EgressEnvelope {
            generation: self.generation,
            sequence: self.sequence,
            attempt: self.attempt,
            payload: self.payload.duplicate(),
        }
    }
}

/// The derived retry decision after a failure.
#[derive(Debug, Clone, Copy, PartialEq, Eq, Structural)]
pub struct EgressRetry {
    /// The record that failed.
    pub sequence: u64,
    /// How often it was claimed.
    pub attempt: u32,
    /// Exponential backoff, clamped to the policy ceiling.
    pub backoff: u64,
    /// Whether the retry budget is spent.
    pub exhausted: bool,
}

/// The outcome of a claim.
#[derive(Debug, Clone, PartialEq, Eq)]
pub enum EgressClaim<T> {
    /// A record moved into the window.
    Claimed(EgressEnvelope<T>),
    /// Nothing is pending.
    Empty,
    /// The window is full.
    WindowFull,
    /// The attachment is not the current one.
    StaleGeneration {
        /// The fence.
        current: u64,
    },
}

impl<T: View> View for EgressClaim<T> {
    type V = EgressClaim<T::V>;

    open spec fn view(&self) -> EgressClaim<T::V> {
        match self {
            EgressClaim::Claimed(envelope) => EgressClaim::Claimed(envelope@),
            EgressClaim::Empty => EgressClaim::Empty,
            EgressClaim::WindowFull => EgressClaim::WindowFull,
            EgressClaim::StaleGeneration { current } => EgressClaim::StaleGeneration {
                current: *current,
            },
        }
    }
}

/// The outcome of an acknowledgement.
#[derive(Debug, Clone, Copy, PartialEq, Eq, Structural)]
pub enum EgressAck {
    /// The watermark moved up.
    Advanced {
        /// The new watermark.
        through: u64,
    },
    /// The watermark already covers this.
    Unchanged {
        /// The watermark.
        through: Option<u64>,
    },
    /// The attachment is not the current one.
    StaleGeneration {
        /// The fence.
        current: u64,
    },
}

/// The outcome of a failure report.
#[derive(Debug, Clone, Copy, PartialEq, Eq, Structural)]
pub enum EgressFailure {
    /// The record is parked until its backoff elapses.
    Retrying(EgressRetry),
    /// The retry budget is spent; the record is given up.
    Exhausted(EgressRetry),
    /// No such record is in the window.
    UnknownSequence,
    /// The attachment is not the current one.
    StaleGeneration {
        /// The fence.
        current: u64,
    },
}

/// The outcome of releasing a parked record.
#[derive(Debug, Clone, Copy, PartialEq, Eq, Structural)]
pub enum EgressRetryAction {
    /// The record is pending again.
    Scheduled {
        /// The record.
        sequence: u64,
    },
    /// No such record is parked.
    UnknownSequence,
    /// The attachment is not the current one.
    StaleGeneration {
        /// The fence.
        current: u64,
    },
}

/// The outcome of a reconnect.
#[derive(Debug, Clone, Copy, PartialEq, Eq, Structural)]
pub enum EgressReconnect {
    /// The fence moved and unacknowledged records are pending again.
    Advanced {
        /// The new fence.
        generation: u64,
        /// How many records are to be sent again.
        replayed: usize,
    },
    /// This is the current generation already.
    Unchanged {
        /// The fence.
        generation: u64,
    },
    /// The attachment is older than the fence.
    StaleGeneration {
        /// The fence.
        current: u64,
    },
}

/// Reader-kind invalidations emitted by one transition.
#[derive(Debug, Clone, Copy, PartialEq, Eq, Structural)]
pub struct EgressChange {
    /// The pending reader moved.
    pub pending: bool,
    /// The in-flight reader moved.
    pub inflight: bool,
    /// The watermark reader moved.
    pub acked_through: bool,
    /// The retry reader moved.
    pub retry: bool,
}

impl Default for EgressChange {
    fn default() -> (change: Self)
        ensures
            change == Self::nothing(),
    {
        EgressChange { pending: false, inflight: false, acked_through: false, retry: false }
    }
}

impl EgressChange {
    /// No reader kind.
    pub open spec fn nothing() -> Self {
        EgressChange { pending: false, inflight: false, acked_through: false, retry: false }
    }

    /// Whether no reader kind moved.
    pub fn is_empty(self) -> (answer: bool)
        ensures
            answer == (self == Self::nothing()),
    {
        self == EgressChange::default()
    }
}

/// Delivery authority, over payload views.
#[verifier::ext_equal]
pub struct EgressState<P> {
    /// Bounds in force.
    pub policy: EgressPolicy,
    /// The generation fence.
    pub generation: u64,
    /// The next sequence to assign.
    pub next_sequence: u64,
    /// The acknowledgement watermark.
    pub acked_through: Option<u64>,
    /// Records to send, in order.
    pub pending: Seq<EgressEnvelope<P>>,
    /// Unacknowledged records by sequence.
    pub inflight: Map<u64, EgressEnvelope<P>>,
    /// Parked records by sequence.
    pub failed: Map<u64, EgressEnvelope<P>>,
    /// The retry decision that is outstanding.
    pub retry: Option<EgressRetry>,
}

/// Where a record belongs among pending ones: before the first with a higher
/// sequence.
pub open spec fn slot_for<P>(pending: Seq<EgressEnvelope<P>>, sequence: u64) -> int
    decreases pending.len(),
{
    if pending.len() == 0 || pending[0].sequence > sequence {
        0
    } else {
        1 + slot_for(pending.skip(1), sequence)
    }
}

/// A slot is a position of the sequence or its end.
pub proof fn slot_in_range<P>(pending: Seq<EgressEnvelope<P>>, sequence: u64)
    ensures
        0 <= slot_for(pending, sequence) <= pending.len(),
    decreases pending.len(),
{
    if pending.len() > 0 && pending[0].sequence <= sequence {
        slot_in_range(pending.skip(1), sequence);
    }
}

/// Pending records with one more in its place.
pub open spec fn slotted<P>(pending: Seq<EgressEnvelope<P>>, record: EgressEnvelope<P>) -> Seq<
    EgressEnvelope<P>,
> {
    pending.insert(slot_for(pending, record.sequence), record)
}

/// Pending records with more of them, each in its place.
pub open spec fn slotted_all<P>(
    pending: Seq<EgressEnvelope<P>>,
    records: Seq<EgressEnvelope<P>>,
) -> Seq<EgressEnvelope<P>>
    decreases records.len(),
{
    if records.len() == 0 {
        pending
    } else {
        slotted(slotted_all(pending, records.drop_last()), records.last())
    }
}

/// The records of a window, in ascending sequence.
pub open spec fn by_sequence<P>(records: Map<u64, EgressEnvelope<P>>) -> Seq<EgressEnvelope<P>> {
    in_order::<u64>(records.dom()).map_values(|sequence: u64| records[sequence])
}

/// A record of another producer incarnation.
pub open spec fn refenced<P>(record: EgressEnvelope<P>, generation: u64) -> EgressEnvelope<P> {
    EgressEnvelope { generation, ..record }
}

/// Doublings earned by an attempt.
pub open spec fn attempt_steps(attempt: u32) -> nat {
    if attempt == 0 {
        0
    } else if attempt > 63 {
        63
    } else {
        (attempt - 1) as nat
    }
}

/// One more, up to the machine's limit.
pub open spec fn next_up(value: u32) -> u32 {
    if value == u32::MAX {
        u32::MAX
    } else {
        (value + 1) as u32
    }
}

impl<P> EgressState<P> {
    /// An authority with nothing to send.
    pub open spec fn initial(generation: u64, policy: EgressPolicy) -> Self {
        EgressState {
            policy,
            generation,
            next_sequence: 0,
            acked_through: None,
            pending: Seq::empty(),
            inflight: Map::empty(),
            failed: Map::empty(),
            retry: None,
        }
    }

    /// Whether a policy can be used.
    pub open spec fn accepts(policy: EgressPolicy) -> bool {
        policy.inflight_limit > 0 && policy.retry_base > 0 && policy.retry_base
            <= policy.retry_ceiling
    }

    /// What every reachable authority satisfies: the window is within its limit,
    /// records are filed under their own sequence, parked records have budget left,
    /// and while the sequence space lasts no sequence is in two places.
    pub open spec fn wf(self) -> bool {
        &&& Self::accepts(self.policy)
        &&& self.inflight.dom().finite()
        &&& self.failed.dom().finite()
        &&& self.inflight.len() <= self.policy.inflight_limit
        &&& forall|sequence: u64| #[trigger]
            self.inflight.contains_key(sequence) ==> self.inflight[sequence].sequence == sequence
        &&& forall|sequence: u64| #[trigger]
            self.failed.contains_key(sequence) ==> self.failed[sequence].sequence == sequence
                && self.failed[sequence].attempt <= self.policy.retry_budget
        &&& self.next_sequence < u64::MAX ==> self.distinct()
    }

    /// No sequence is in two places, and none was assigned out of turn.
    pub open spec fn distinct(self) -> bool {
        &&& forall|i: int, j: int|
            0 <= i < j < self.pending.len() ==> (#[trigger] self.pending[i]).sequence < (
            #[trigger] self.pending[j]).sequence
        &&& forall|i: int|
            0 <= i < self.pending.len() ==> (#[trigger] self.pending[i]).sequence
                < self.next_sequence && !self.inflight.contains_key(self.pending[i].sequence)
                && !self.failed.contains_key(self.pending[i].sequence)
        &&& forall|sequence: u64| #[trigger]
            self.inflight.contains_key(sequence) ==> sequence < self.next_sequence
                && !self.failed.contains_key(sequence)
        &&& forall|sequence: u64| #[trigger]
            self.failed.contains_key(sequence) ==> sequence < self.next_sequence
    }

    /// A payload was given the next sequence.
    pub open spec fn enqueued(self, payload: P) -> (Self, EgressChange, u64) {
        (
            EgressState {
                next_sequence: if self.next_sequence == u64::MAX {
                    u64::MAX
                } else {
                    (self.next_sequence + 1) as u64
                },
                pending: self.pending.push(
                    EgressEnvelope {
                        generation: self.generation,
                        sequence: self.next_sequence,
                        attempt: 0,
                        payload,
                    },
                ),
                ..self
            },
            EgressChange { pending: true, ..EgressChange::nothing() },
            self.next_sequence,
        )
    }

    /// Whether the outstanding retry is about a sequence.
    pub open spec fn retries(self, sequence: u64) -> bool {
        self.retry matches Some(retry) && retry.sequence == sequence
    }

    /// The oldest pending record moved into the window, for the current attachment
    /// and while the window has room.
    pub open spec fn claimed(self, generation: u64) -> (Self, EgressChange, EgressClaim<P>) {
        let head = self.pending[0];
        let record = EgressEnvelope {
            generation: self.generation,
            attempt: next_up(head.attempt),
            ..head
        };
        let cleared = self.retries(head.sequence);
        if generation != self.generation {
            (
                self,
                EgressChange::nothing(),
                EgressClaim::StaleGeneration { current: self.generation },
            )
        } else if self.inflight.len() >= self.policy.inflight_limit {
            (self, EgressChange::nothing(), EgressClaim::WindowFull)
        } else if self.pending.len() == 0 {
            (self, EgressChange::nothing(), EgressClaim::Empty)
        } else {
            (
                EgressState {
                    pending: self.pending.skip(1),
                    inflight: self.inflight.insert(record.sequence, record),
                    retry: if cleared {
                        None
                    } else {
                        self.retry
                    },
                    ..self
                },
                EgressChange {
                    pending: true,
                    inflight: true,
                    acked_through: false,
                    retry: cleared,
                },
                EgressClaim::Claimed(record),
            )
        }
    }

    /// Records above a watermark.
    pub open spec fn unacked(
        records: Map<u64, EgressEnvelope<P>>,
        through: u64,
    ) -> Map<u64, EgressEnvelope<P>> {
        Map::new(
            |sequence: u64| records.contains_key(sequence) && sequence > through,
            |sequence: u64| records[sequence],
        )
    }

    /// The watermark moved up and what it covers was pruned.
    pub open spec fn acked(self, generation: u64, through: u64) -> (Self, EgressChange, EgressAck) {
        let covered = self.retry matches Some(retry) && retry.sequence <= through;
        let pending = self.pending.filter(|record: EgressEnvelope<P>| record.sequence > through);
        let inflight = Self::unacked(self.inflight, through);
        if generation != self.generation {
            (
                self,
                EgressChange::nothing(),
                EgressAck::StaleGeneration { current: self.generation },
            )
        } else if self.acked_through matches Some(current) && through <= current {
            (
                self,
                EgressChange::nothing(),
                EgressAck::Unchanged { through: self.acked_through },
            )
        } else {
            (
                EgressState {
                    acked_through: Some(through),
                    pending,
                    inflight,
                    failed: Self::unacked(self.failed, through),
                    retry: if covered {
                        None
                    } else {
                        self.retry
                    },
                    ..self
                },
                EgressChange {
                    pending: pending.len() != self.pending.len(),
                    inflight: inflight.len() != self.inflight.len(),
                    acked_through: true,
                    retry: covered,
                },
                EgressAck::Advanced { through },
            )
        }
    }

    /// A record failed: parked while its budget lasts, given up beyond it.
    pub open spec fn failing(self, generation: u64, sequence: u64) -> (
        Self,
        EgressChange,
        EgressFailure,
    ) {
        let record = self.inflight[sequence];
        let exhausted = record.attempt > self.policy.retry_budget;
        let retry = EgressRetry {
            sequence,
            attempt: record.attempt,
            backoff: clamped_backoff(
                self.policy.retry_base,
                attempt_steps(record.attempt),
                self.policy.retry_ceiling,
            ) as u64,
            exhausted,
        };
        if generation != self.generation {
            (
                self,
                EgressChange::nothing(),
                EgressFailure::StaleGeneration { current: self.generation },
            )
        } else if !self.inflight.contains_key(sequence) {
            (self, EgressChange::nothing(), EgressFailure::UnknownSequence)
        } else {
            (
                EgressState {
                    inflight: self.inflight.remove(sequence),
                    failed: if exhausted {
                        self.failed
                    } else {
                        self.failed.insert(sequence, record)
                    },
                    retry: Some(retry),
                    ..self
                },
                EgressChange {
                    pending: false,
                    inflight: true,
                    acked_through: false,
                    retry: true,
                },
                if exhausted {
                    EgressFailure::Exhausted(retry)
                } else {
                    EgressFailure::Retrying(retry)
                },
            )
        }
    }

    /// A parked record is pending again, in its place.
    pub open spec fn released(self, generation: u64, sequence: u64) -> (
        Self,
        EgressChange,
        EgressRetryAction,
    ) {
        let cleared = self.retries(sequence);
        if generation != self.generation {
            (
                self,
                EgressChange::nothing(),
                EgressRetryAction::StaleGeneration { current: self.generation },
            )
        } else if !self.failed.contains_key(sequence) {
            (self, EgressChange::nothing(), EgressRetryAction::UnknownSequence)
        } else {
            (
                EgressState {
                    failed: self.failed.remove(sequence),
                    pending: slotted(self.pending, self.failed[sequence]),
                    retry: if cleared {
                        None
                    } else {
                        self.retry
                    },
                    ..self
                },
                EgressChange {
                    pending: true,
                    inflight: false,
                    acked_through: false,
                    retry: cleared,
                },
                EgressRetryAction::Scheduled { sequence },
            )
        }
    }

    /// Every unacknowledged record is pending again, each in its place, under a
    /// newer generation. Watermark and sequence space survive.
    pub open spec fn reconnected(self, generation: u64) -> (Self, EgressChange, EgressReconnect) {
        let replayed = self.inflight.len() + self.failed.len();
        if generation < self.generation {
            (
                self,
                EgressChange::nothing(),
                EgressReconnect::StaleGeneration { current: self.generation },
            )
        } else if generation == self.generation {
            (self, EgressChange::nothing(), EgressReconnect::Unchanged { generation })
        } else {
            (
                EgressState {
                    generation,
                    pending: slotted_all(
                        slotted_all(self.pending, by_sequence(self.inflight)),
                        by_sequence(self.failed),
                    ).map_values(|record: EgressEnvelope<P>| refenced(record, generation)),
                    inflight: Map::empty(),
                    failed: Map::empty(),
                    retry: None,
                    ..self
                },
                EgressChange {
                    pending: self.pending.len() > 0 || replayed > 0,
                    inflight: replayed > 0,
                    acked_through: false,
                    retry: self.retry is Some,
                },
                EgressReconnect::Advanced { generation, replayed: replayed as usize },
            )
        }
    }
}

/// The views of records.
pub open spec fn record_views<T: View>(
    records: Seq<EgressEnvelope<T>>,
) -> Seq<EgressEnvelope<T::V>> {
    records.map_values(|record: EgressEnvelope<T>| record@)
}

/// Egress delivery authority.
pub struct EgressCore<T> {
    policy: EgressPolicy,
    generation: u64,
    next_sequence: u64,
    acked_through: Option<u64>,
    pending: Vec<EgressEnvelope<T>>,
    inflight: SortedTable<u64, EgressEnvelope<T>>,
    failed: SortedTable<u64, EgressEnvelope<T>>,
    retry: Option<EgressRetry>,
}

impl<T: View> View for EgressCore<T> {
    type V = EgressState<T::V>;

    closed spec fn view(&self) -> EgressState<T::V> {
        EgressState {
            policy: self.policy,
            generation: self.generation,
            next_sequence: self.next_sequence,
            acked_through: self.acked_through,
            pending: record_views(self.pending@),
            inflight: table_view(self.inflight),
            failed: table_view(self.failed),
            retry: self.retry,
        }
    }
}

/// A table of records, over payload views.
pub open spec fn table_view<T: View>(records: SortedTable<u64, EgressEnvelope<T>>) -> Map<
    u64,
    EgressEnvelope<T::V>,
> {
    records.map().map_values(|record: EgressEnvelope<T>| record@)
}

/// A table and its view have the same sequences.
proof fn table_facts<T: View>(records: SortedTable<u64, EgressEnvelope<T>>)
    requires
        records.wf(),
    ensures
        table_view(records).dom() == records.map().dom(),
        table_view(records).dom().finite(),
        table_view(records).len() == records.ids().len(),
        records.ids() == in_order::<u64>(table_view(records).dom()),
        forall|sequence: u64| #[trigger]
            table_view(records).contains_key(sequence) <==> records.map().contains_key(sequence),
{
    records.wf_facts();
    assert(table_view(records).dom() =~= records.map().dom());
    ascending_is_in_order::<u64>(records.ids());
}

/// Copies a table's records in ascending sequence.
fn records_of<T: Datum>(table: &SortedTable<u64, EgressEnvelope<T>>) -> (records: Vec<
    EgressEnvelope<T>,
>)
    requires
        table.wf(),
    ensures
        record_views(records@) == by_sequence(table_view(*table)),
{
    let mut records: Vec<EgressEnvelope<T>> = Vec::new();
    let mut index: usize = 0;
    let ghost all = by_sequence(table_view(*table));
    proof {
        table_facts(*table);
        assert(record_views(records@) =~= all.take(0));
    }
    while index < table.len()
        invariant
            table.wf(),
            all == by_sequence(table_view(*table)),
            table.ids() == in_order::<u64>(table_view(*table).dom()),
            index <= table.ids().len(),
            record_views(records@) == all.take(index as int),
        decreases table.ids().len() - index,
    {
        let ghost before = records@;
        records.push(table.value_at(index).duplicate());
        proof {
            table.wf_facts();
            let sequence = table.ids()[index as int];
            assert(table.ids().contains(sequence));
            assert(all[index as int] == table.map()[sequence]@);
            assert(record_views(records@) =~= record_views(before).push(all[index as int]));
            assert(all.take(index + 1) =~= all.take(index as int).push(all[index as int]));
        }
        index = index + 1;
    }
    proof {
        assert(all.take(index as int) =~= all);
    }
    records
}

/// Drops a table's records up to a watermark.
fn prune<T: View>(table: &mut SortedTable<u64, EgressEnvelope<T>>, through: u64)
    requires
        old(table).wf(),
    ensures
        final(table).wf(),
        table_view(*final(table)) == EgressState::<T::V>::unacked(table_view(*old(table)), through),
{
    let ghost start = EgressState::<T::V>::unacked(table_view(*table), through);
    while table.len() > 0 && *table.key_at(0) <= through
        invariant
            table.wf(),
            EgressState::<T::V>::unacked(table_view(*table), through) == start,
        decreases table.ids().len(),
    {
        let ghost before = *table;
        let ghost first = table.ids()[0];
        let _dropped = table.remove_at(0);
        proof {
            assert(table_view(*table) =~= table_view(before).remove(first));
            assert(EgressState::<T::V>::unacked(table_view(*table), through)
                =~= EgressState::<T::V>::unacked(table_view(before), through));
        }
    }
    proof {
        table.wf_facts();
        assert forall|sequence: u64| table.map().contains_key(sequence) implies sequence
            > through by {
            assert(table.ids().contains(sequence));
            let place = table.ids().index_of(sequence);
            assert(table.ids()[place] == sequence);
            if place > 0 {
                reveal_with_fuel(lex_less, 2);
                assert(lex_less(u64::code(table.ids()[0]), u64::code(table.ids()[place])));
            }
        }
        assert(table_view(*table) =~= start);
    }
}

impl<T: Datum> EgressCore<T> {
    /// The collections are in order.
    spec fn tidy(&self) -> bool {
        self.inflight.wf() && self.failed.wf()
    }

    /// The authority is one that the operations can reach.
    pub closed spec fn wf(&self) -> bool {
        self.tidy() && self@.wf()
    }

    /// What well-formedness says to a caller.
    pub proof fn wf_facts(&self)
        requires
            self.wf(),
        ensures
            self@.wf(),
    {
    }

    /// Builds an authority over `policy`.
    pub fn new(generation: u64, policy: EgressPolicy) -> (built: Result<Self, EgressConfigError>)
        ensures
            built is Ok <==> EgressState::<T::V>::accepts(policy),
            built matches Ok(core) ==> core.wf() && core@ == EgressState::<T::V>::initial(
                generation,
                policy,
            ),
            built matches Err(error) ==> error == if policy.inflight_limit == 0 {
                EgressConfigError::ZeroInflightLimit
            } else if policy.retry_base == 0 {
                EgressConfigError::ZeroRetryBase
            } else {
                EgressConfigError::RetryCeilingBelowBase
            },
    {
        if policy.inflight_limit == 0 {
            return Err(EgressConfigError::ZeroInflightLimit);
        }
        if policy.retry_base == 0 {
            return Err(EgressConfigError::ZeroRetryBase);
        }
        if policy.retry_ceiling < policy.retry_base {
            return Err(EgressConfigError::RetryCeilingBelowBase);
        }
        let core = EgressCore {
            policy,
            generation,
            next_sequence: 0,
            acked_through: None,
            pending: Vec::new(),
            inflight: SortedTable::new(),
            failed: SortedTable::new(),
            retry: None,
        };
        proof {
            assert(core@ =~= EgressState::<T::V>::initial(generation, policy));
        }
        Ok(core)
    }

    /// The generation fence.
    pub fn generation(&self) -> (generation: u64)
        ensures
            generation == self@.generation,
    {
        self.generation
    }

    /// The next sequence to assign.
    pub fn next_sequence(&self) -> (sequence: u64)
        ensures
            sequence == self@.next_sequence,
    {
        self.next_sequence
    }

    /// Records to send, in order.
    pub fn pending(&self) -> (records: Vec<EgressEnvelope<T>>)
        ensures
            record_views(records@) == self@.pending,
    {
        let mut records: Vec<EgressEnvelope<T>> = Vec::new();
        let mut index: usize = 0;
        proof {
            assert(record_views(records@) =~= self@.pending.take(0));
        }
        while index < self.pending.len()
            invariant
                index <= self.pending@.len(),
                self@.pending == record_views(self.pending@),
                record_views(records@) == self@.pending.take(index as int),
            decreases self.pending@.len() - index,
        {
            let ghost before = records@;
            records.push(self.pending[index].duplicate());
            proof {
                let record = self@.pending[index as int];
                assert(record == self.pending@[index as int]@);
                assert(record_views(records@) =~= record_views(before).push(record));
                assert(self@.pending.take(index + 1) =~= self@.pending.take(index as int).push(
                    record,
                ));
            }
            index = index + 1;
        }
        proof {
            assert(self@.pending.take(index as int) =~= self@.pending);
        }
        records
    }

    /// Unacknowledged records, in ascending sequence.
    pub fn inflight(&self) -> (records: Vec<EgressEnvelope<T>>)
        requires
            self.wf(),
        ensures
            record_views(records@) == by_sequence(self@.inflight),
    {
        records_of(&self.inflight)
    }

    /// The acknowledgement watermark.
    pub fn acked_through(&self) -> (through: Option<u64>)
        ensures
            through == self@.acked_through,
    {
        self.acked_through
    }

    /// The retry decision that is outstanding.
    pub fn retry(&self) -> (retry: Option<EgressRetry>)
        ensures
            retry == self@.retry,
    {
        self.retry
    }

    /// Assigns the next sequence and places the value in the pending projection.
    pub fn enqueue(&mut self, payload: T) -> (outcome: (EgressChange, u64))
        requires
            old(self).wf(),
        ensures
            final(self).wf(),
            final(self)@ == old(self)@.enqueued(payload@).0,
            outcome.0 == old(self)@.enqueued(payload@).1,
            outcome.1 == old(self)@.enqueued(payload@).2,
    {
        let ghost model = payload@;
        let sequence = self.next_sequence;
        self.next_sequence = self.next_sequence.saturating_add(1);
        self.pending.push(
            EgressEnvelope { generation: self.generation, sequence, attempt: 0, payload },
        );
        proof {
            assert(self@.pending =~= old(self)@.enqueued(model).0.pending);
            assert(self@ =~= old(self)@.enqueued(model).0);
        }
        (
            EgressChange { pending: true, inflight: false, acked_through: false, retry: false },
            sequence,
        )
    }

    /// Moves one pending value into the unacknowledged window. The generation is
    /// the one captured by the caller's attachment.
    pub fn claim(&mut self, generation: u64) -> (outcome: (EgressChange, EgressClaim<T>))
        requires
            old(self).wf(),
        ensures
            final(self).wf(),
            final(self)@ == old(self)@.claimed(generation).0,
            outcome.0 == old(self)@.claimed(generation).1,
            outcome.1@ == old(self)@.claimed(generation).2,
    {
        proof {
            table_facts(self.inflight);
        }
        if generation != self.generation {
            return (
                EgressChange::default(),
                EgressClaim::StaleGeneration { current: self.generation },
            );
        }
        if self.inflight.len() >= self.policy.inflight_limit {
            return (EgressChange::default(), EgressClaim::WindowFull);
        }
        if self.pending.len() == 0 {
            return (EgressChange::default(), EgressClaim::Empty);
        }
        let ghost head = self@.pending[0];
        let mut record = self.pending.remove(0);
        proof {
            assert(record@ == head);
            assert(record_views(self.pending@) =~= old(self)@.pending.skip(1));
        }
        record.generation = self.generation;
        record.attempt = record.attempt.saturating_add(1);
        let envelope = record.duplicate();
        let sequence = record.sequence;
        let ghost model = record@;
        self.inflight.put(sequence, record);
        proof {
            assert(table_view(self.inflight) =~= old(self)@.inflight.insert(sequence, model));
            table_facts(self.inflight);
        }
        let retry_changed = match self.retry {
            Some(retry) => retry.sequence == sequence,
            None => false,
        };
        if retry_changed {
            self.retry = None;
        }
        proof {
            assert(self@ =~= old(self)@.claimed(generation).0);
            assert(self@.wf());
        }
        (
            EgressChange {
                pending: true,
                inflight: true,
                acked_through: false,
                retry: retry_changed,
            },
            EgressClaim::Claimed(envelope),
        )
    }

    /// Advances the acknowledgement watermark and prunes acknowledged records.
    pub fn ack(&mut self, generation: u64, through: u64) -> (outcome: (EgressChange, EgressAck))
        requires
            old(self).wf(),
        ensures
            final(self).wf(),
            final(self)@ == old(self)@.acked(generation, through).0,
            outcome.0 == old(self)@.acked(generation, through).1,
            outcome.1 == old(self)@.acked(generation, through).2,
    {
        if generation != self.generation {
            return (
                EgressChange::default(),
                EgressAck::StaleGeneration { current: self.generation },
            );
        }
        if let Some(current) = self.acked_through {
            if through <= current {
                return (
                    EgressChange::default(),
                    EgressAck::Unchanged { through: self.acked_through },
                );
            }
        }
        proof {
            table_facts(self.inflight);
            table_facts(self.failed);
        }
        let inflight_before = self.inflight.len();
        let pending_before = self.pending.len();
        self.acked_through = Some(through);
        prune(&mut self.inflight, through);
        prune(&mut self.failed, through);
        let ghost keep = |record: EgressEnvelope<T::V>| record.sequence > through;
        let ghost all = old(self)@.pending;
        let mut kept: Vec<EgressEnvelope<T>> = Vec::new();
        let mut taken: Vec<EgressEnvelope<T>> = Vec::new();
        taken.append(&mut self.pending);
        proof {
            reveal(Seq::filter);
            assert(record_views(taken@) =~= all);
            assert(record_views(kept@) =~= all.take(0).filter(keep));
        }
        for record in iter: taken
            invariant
                keep == (|record: EgressEnvelope<T::V>| record.sequence > through),
                iter.seq() == taken@,
                record_views(taken@) == all,
                record_views(kept@) == all.take(iter.index() as int).filter(keep),
        {
            let ghost before = kept@;
            let ghost index = iter.index() as int;
            let ghost model = record@;
            let stays = record.sequence > through;
            if stays {
                kept.push(record);
            }
            proof {
                reveal(Seq::filter);
                let longer = all.take(index + 1);
                assert(model == all[index]);
                assert(longer.drop_last() =~= all.take(index));
                assert(longer.last() == model);
                if stays {
                    assert(record_views(kept@) =~= record_views(before).push(model));
                }
            }
        }
        proof {
            assert(all.take(all.len() as int) =~= all);
        }
        self.pending = kept;
        let retry_changed = match self.retry {
            Some(retry) => retry.sequence <= through,
            None => false,
        };
        if retry_changed {
            self.retry = None;
        }
        proof {
            table_facts(self.inflight);
            table_facts(self.failed);
            assert(self@ =~= old(self)@.acked(generation, through).0);
            acked_is_wf(old(self)@, generation, through);
        }
        (
            EgressChange {
                pending: self.pending.len() != pending_before,
                inflight: self.inflight.len() != inflight_before,
                acked_through: true,
                retry: retry_changed,
            },
            EgressAck::Advanced { through },
        )
    }

    fn backoff(&self, attempt: u32) -> (delay: u64)
        ensures
            delay == clamped_backoff(
                self@.policy.retry_base,
                attempt_steps(attempt),
                self@.policy.retry_ceiling,
            ),
    {
        let earned: u32 = attempt.saturating_sub(1);
        let steps: u32 = if earned < 63 {
            earned
        } else {
            63
        };
        backoff(self.policy.retry_base, steps, self.policy.retry_ceiling)
    }

    /// Parks a failed in-flight record while budget remains.
    pub fn fail(&mut self, generation: u64, sequence: u64) -> (outcome: (
        EgressChange,
        EgressFailure,
    ))
        requires
            old(self).wf(),
        ensures
            final(self).wf(),
            final(self)@ == old(self)@.failing(generation, sequence).0,
            outcome.0 == old(self)@.failing(generation, sequence).1,
            outcome.1 == old(self)@.failing(generation, sequence).2,
    {
        if generation != self.generation {
            return (
                EgressChange::default(),
                EgressFailure::StaleGeneration { current: self.generation },
            );
        }
        proof {
            table_facts(self.inflight);
            table_facts(self.failed);
        }
        let record = match self.inflight.remove(&sequence) {
            Some(record) => record,
            None => {
                return (EgressChange::default(), EgressFailure::UnknownSequence);
            },
        };
        let ghost model = record@;
        proof {
            assert(table_view(self.inflight) =~= old(self)@.inflight.remove(sequence));
            assert(model == old(self)@.inflight[sequence]);
        }
        let exhausted = record.attempt > self.policy.retry_budget;
        let retry = EgressRetry {
            sequence,
            attempt: record.attempt,
            backoff: self.backoff(record.attempt),
            exhausted,
        };
        self.retry = Some(retry);
        if !exhausted {
            self.failed.put(sequence, record);
            proof {
                assert(table_view(self.failed) =~= old(self)@.failed.insert(sequence, model));
            }
        }
        proof {
            table_facts(self.inflight);
            table_facts(self.failed);
            assert(self@ =~= old(self)@.failing(generation, sequence).0);
        }
        (
            EgressChange { pending: false, inflight: true, acked_through: false, retry: true },
            if exhausted {
                EgressFailure::Exhausted(retry)
            } else {
                EgressFailure::Retrying(retry)
            },
        )
    }

    /// Makes a parked record eligible after its derived backoff elapses.
    pub fn retry_now(&mut self, generation: u64, sequence: u64) -> (outcome: (
        EgressChange,
        EgressRetryAction,
    ))
        requires
            old(self).wf(),
        ensures
            final(self).wf(),
            final(self)@ == old(self)@.released(generation, sequence).0,
            outcome.0 == old(self)@.released(generation, sequence).1,
            outcome.1 == old(self)@.released(generation, sequence).2,
    {
        if generation != self.generation {
            return (
                EgressChange::default(),
                EgressRetryAction::StaleGeneration { current: self.generation },
            );
        }
        proof {
            table_facts(self.failed);
        }
        let record = match self.failed.remove(&sequence) {
            Some(record) => record,
            None => {
                return (EgressChange::default(), EgressRetryAction::UnknownSequence);
            },
        };
        let ghost model = record@;
        proof {
            assert(table_view(self.failed) =~= old(self)@.failed.remove(sequence));
            assert(model == old(self)@.failed[sequence]);
        }
        self.insert_pending_ordered(record);
        let retry_changed = match self.retry {
            Some(retry) => retry.sequence == sequence,
            None => false,
        };
        if retry_changed {
            self.retry = None;
        }
        proof {
            table_facts(self.failed);
            table_facts(self.inflight);
            assert(self@ =~= old(self)@.released(generation, sequence).0);
            released_is_wf(old(self)@, generation, sequence);
        }
        (
            EgressChange {
                pending: true,
                inflight: false,
                acked_through: false,
                retry: retry_changed,
            },
            EgressRetryAction::Scheduled { sequence },
        )
    }

    /// Puts a record among the pending ones, before the first with a higher
    /// sequence.
    fn insert_pending_ordered(&mut self, record: EgressEnvelope<T>)
        requires
            old(self).tidy(),
        ensures
            final(self).tidy(),
            final(self)@ == (EgressState {
                pending: slotted(old(self)@.pending, record@),
                ..old(self)@
            }),
    {
        let ghost model = record@;
        let ghost all = self@.pending;
        let mut position: usize = 0;
        proof {
            assert(all.skip(0) =~= all);
        }
        while position < self.pending.len() && self.pending[position].sequence <= record.sequence
            invariant
                *self == *old(self),
                all == self@.pending,
                all == record_views(self.pending@),
                position <= self.pending@.len(),
                slot_for(all, record.sequence) == position + slot_for(
                    all.skip(position as int),
                    record.sequence,
                ),
            decreases self.pending@.len() - position,
        {
            proof {
                assert(all[position as int] == self.pending@[position as int]@);
                assert(all.skip(position as int).skip(1) =~= all.skip(position + 1));
            }
            position = position + 1;
        }
        proof {
            if position < self.pending@.len() {
                assert(all.skip(position as int)[0] == self.pending@[position as int]@);
            }
        }
        self.pending.insert(position, record);
        proof {
            assert(self@.pending =~= all.insert(position as int, model));
            assert(self@ =~= EgressState {
                pending: slotted(old(self)@.pending, model),
                ..old(self)@
            });
        }
    }

    /// Moves every record of a table among the pending ones.
    fn requeue(&mut self, records: Vec<EgressEnvelope<T>>)
        requires
            old(self).tidy(),
        ensures
            final(self).tidy(),
            final(self)@ == (EgressState {
                pending: slotted_all(old(self)@.pending, record_views(records@)),
                ..old(self)@
            }),
    {
        let ghost all = record_views(records@);
        proof {
            assert(all.take(0) =~= Seq::empty());
        }
        for record in iter: records
            invariant
                iter.seq() == records@,
                all == record_views(records@),
                self.tidy(),
                self@ == (EgressState {
                    pending: slotted_all(old(self)@.pending, all.take(iter.index() as int)),
                    ..old(self)@
                }),
        {
            let ghost index = iter.index() as int;
            let ghost model = record@;
            self.insert_pending_ordered(record);
            proof {
                assert(model == all[index]);
                assert(all.take(index + 1).drop_last() =~= all.take(index));
                assert(all.take(index + 1).last() == model);
            }
        }
        proof {
            assert(all.take(all.len() as int) =~= all);
        }
    }

    /// Fences the previous attachment and replays every unacknowledged record
    /// through the new generation. The ack watermark and sequence space survive.
    pub fn reconnect(&mut self, generation: u64) -> (outcome: (EgressChange, EgressReconnect))
        requires
            old(self).wf(),
            old(self)@.inflight.len() + old(self)@.failed.len() <= usize::MAX,
        ensures
            final(self).wf(),
            final(self)@ == old(self)@.reconnected(generation).0,
            outcome.0 == old(self)@.reconnected(generation).1,
            outcome.1 == old(self)@.reconnected(generation).2,
    {
        if generation < self.generation {
            return (
                EgressChange::default(),
                EgressReconnect::StaleGeneration { current: self.generation },
            );
        }
        if generation == self.generation {
            return (
                EgressChange::default(),
                EgressReconnect::Unchanged { generation: self.generation },
            );
        }
        proof {
            table_facts(self.inflight);
            table_facts(self.failed);
        }
        self.generation = generation;
        let waiting = self.pending.len() > 0;
        let replayed: usize = self.inflight.len() + self.failed.len();
        let inflight = records_of(&self.inflight);
        let failed = records_of(&self.failed);
        self.inflight.clear();
        self.failed.clear();
        self.requeue(inflight);
        self.requeue(failed);
        let ghost queued = self@.pending;
        let mut index: usize = 0;
        while index < self.pending.len()
            invariant
                self.tidy(),
                index <= self.pending@.len(),
                queued.len() == self.pending@.len(),
                self.policy == old(self).policy,
                self.generation == generation,
                self.next_sequence == old(self).next_sequence,
                self.acked_through == old(self).acked_through,
                self.retry == old(self).retry,
                self@.inflight == Map::<u64, EgressEnvelope<T::V>>::empty(),
                self@.failed == Map::<u64, EgressEnvelope<T::V>>::empty(),
                forall|i: int|
                    0 <= i < index ==> #[trigger] self.pending@[i]@ == refenced(
                        queued[i],
                        generation,
                    ),
                forall|i: int|
                    index <= i < self.pending@.len() ==> #[trigger] self.pending@[i]@ == queued[i],
            decreases self.pending@.len() - index,
        {
            let ghost before = self.pending@;
            proof {
                assert(before[index as int]@ == queued[index as int]);
            }
            let record = &mut self.pending[index];
            record.generation = generation;
            proof {
                assert(self.pending@[index as int]@ == refenced(queued[index as int], generation));
            }
            index = index + 1;
        }
        let retry_changed = self.retry.is_some();
        self.retry = None;
        proof {
            assert(self@.pending =~= queued.map_values(
                |record: EgressEnvelope<T::V>| refenced(record, generation),
            ));
            assert(self@ =~= old(self)@.reconnected(generation).0);
            reconnected_is_wf(old(self)@, generation);
        }
        (
            EgressChange {
                pending: waiting || replayed > 0,
                inflight: replayed > 0,
                acked_through: false,
                retry: retry_changed,
            },
            EgressReconnect::Advanced { generation, replayed },
        )
    }
}

/// A filter keeps the order.
proof fn filter_keeps_order<P>(pending: Seq<EgressEnvelope<P>>, through: u64)
    requires
        forall|i: int, j: int|
            0 <= i < j < pending.len() ==> (#[trigger] pending[i]).sequence < (
            #[trigger] pending[j]).sequence,
    ensures
        ({
            let kept = pending.filter(|record: EgressEnvelope<P>| record.sequence > through);
            &&& forall|i: int, j: int|
                0 <= i < j < kept.len() ==> (#[trigger] kept[i]).sequence < (
                #[trigger] kept[j]).sequence
            &&& forall|i: int| 0 <= i < kept.len() ==> pending.contains(#[trigger] kept[i])
        }),
    decreases pending.len(),
{
    reveal(Seq::filter);
    let keep = |record: EgressEnvelope<P>| record.sequence > through;
    if pending.len() > 0 {
        let shorter = pending.drop_last();
        filter_keeps_order(shorter, through);
        let kept = pending.filter(keep);
        let earlier = shorter.filter(keep);
        assert forall|i: int| 0 <= i < kept.len() implies pending.contains(#[trigger] kept[i]) by {
            if i < earlier.len() {
                assert(kept[i] == earlier[i]);
                let at = shorter.index_of(earlier[i]);
                assert(shorter[at] == earlier[i]);
                assert(pending[at] == kept[i]);
            } else {
                assert(pending[pending.len() - 1] == kept[i]);
            }
        }
        assert forall|i: int, j: int| 0 <= i < j < kept.len() implies (#[trigger] kept[i]).sequence
            < (#[trigger] kept[j]).sequence by {
            assert(kept[i] == earlier[i]);
            if j == earlier.len() {
                let at = shorter.index_of(earlier[i]);
                assert(shorter[at] == earlier[i]);
                assert(pending[at] == kept[i]);
                assert(kept[j] == pending[pending.len() - 1]);
            } else {
                assert(kept[j] == earlier[j]);
            }
        }
    }
}

/// An acknowledgement keeps the authority in order.
pub proof fn acked_is_wf<P>(state: EgressState<P>, generation: u64, through: u64)
    requires
        state.wf(),
    ensures
        state.acked(generation, through).0.wf(),
{
    let after = state.acked(generation, through).0;
    assert(after.inflight.dom().subset_of(state.inflight.dom()));
    assert(after.failed.dom().subset_of(state.failed.dom()));
    vstd::set_lib::lemma_len_subset(after.inflight.dom(), state.inflight.dom());
    vstd::set_lib::lemma_set_subset_finite(state.inflight.dom(), after.inflight.dom());
    vstd::set_lib::lemma_set_subset_finite(state.failed.dom(), after.failed.dom());
    if state.next_sequence < u64::MAX {
        filter_keeps_order(state.pending, through);
        assert forall|i: int| 0 <= i < after.pending.len() implies (
        #[trigger] after.pending[i]).sequence < after.next_sequence && !after.inflight.contains_key(
            after.pending[i].sequence,
        ) && !after.failed.contains_key(after.pending[i].sequence) by {
            if generation == state.generation && !(state.acked_through matches Some(current)
                && through <= current) {
                assert(state.pending.contains(after.pending[i]));
                let at = state.pending.index_of(after.pending[i]);
                assert(state.pending[at] == after.pending[i]);
            }
        }
    }
}

/// Placing a record whose sequence is new keeps pending records in strict order.
proof fn slotted_keeps_order<P>(pending: Seq<EgressEnvelope<P>>, record: EgressEnvelope<P>)
    requires
        forall|i: int, j: int|
            0 <= i < j < pending.len() ==> (#[trigger] pending[i]).sequence < (
            #[trigger] pending[j]).sequence,
        forall|i: int| 0 <= i < pending.len() ==> (#[trigger] pending[i]).sequence != record.sequence,
    ensures
        ({
            let after = slotted(pending, record);
            &&& after.len() == pending.len() + 1
            &&& forall|i: int, j: int|
                0 <= i < j < after.len() ==> (#[trigger] after[i]).sequence < (
                #[trigger] after[j]).sequence
            &&& forall|i: int|
                0 <= i < after.len() ==> (#[trigger] after[i]) == record || pending.contains(
                    after[i],
                )
            &&& after.contains(record)
            &&& forall|i: int| 0 <= i < pending.len() ==> after.contains(#[trigger] pending[i])
        }),
{
    let slot = slot_for(pending, record.sequence);
    slot_in_range(pending, record.sequence);
    slot_splits(pending, record.sequence);
    let after = slotted(pending, record);
    assert(after[slot] == record);
    assert forall|i: int| 0 <= i < after.len() implies (#[trigger] after[i]) == record
        || pending.contains(after[i]) by {
        if i < slot {
            assert(after[i] == pending[i]);
        } else if i > slot {
            assert(after[i] == pending[i - 1]);
        }
    }
    assert forall|i: int, j: int| 0 <= i < j < after.len() implies (#[trigger] after[i]).sequence
        < (#[trigger] after[j]).sequence by {
        if i < slot {
            assert(after[i] == pending[i]);
        } else if i > slot {
            assert(after[i] == pending[i - 1]);
        }
        if j < slot {
            assert(after[j] == pending[j]);
        } else if j > slot {
            assert(after[j] == pending[j - 1]);
        }
    }
    assert forall|i: int| 0 <= i < pending.len() implies after.contains(#[trigger] pending[i]) by {
        if i < slot {
            assert(after[i] == pending[i]);
        } else {
            assert(after[i + 1] == pending[i]);
        }
    }
}

/// The slot parts ordered records into those at or below a sequence and those
/// above it.
proof fn slot_splits<P>(pending: Seq<EgressEnvelope<P>>, sequence: u64)
    requires
        forall|i: int, j: int|
            0 <= i < j < pending.len() ==> (#[trigger] pending[i]).sequence < (
            #[trigger] pending[j]).sequence,
    ensures
        forall|i: int|
            0 <= i < slot_for(pending, sequence) ==> (#[trigger] pending[i]).sequence <= sequence,
        forall|i: int|
            slot_for(pending, sequence) <= i < pending.len() ==> (#[trigger] pending[i]).sequence
                > sequence,
    decreases pending.len(),
{
    if pending.len() > 0 && pending[0].sequence <= sequence {
        let rest = pending.skip(1);
        assert forall|i: int, j: int| 0 <= i < j < rest.len() implies (#[trigger] rest[i]).sequence
            < (#[trigger] rest[j]).sequence by {
            assert(rest[i] == pending[i + 1] && rest[j] == pending[j + 1]);
        }
        slot_splits(rest, sequence);
        slot_in_range(rest, sequence);
        assert forall|i: int| 0 <= i < slot_for(pending, sequence) implies (
        #[trigger] pending[i]).sequence <= sequence by {
            if i > 0 {
                assert(rest[i - 1] == pending[i]);
            }
        }
        assert forall|i: int| slot_for(pending, sequence) <= i < pending.len() implies (
        #[trigger] pending[i]).sequence > sequence by {
            assert(rest[i - 1] == pending[i]);
        }
    }
}

/// Releasing a record keeps the authority in order.
pub proof fn released_is_wf<P>(state: EgressState<P>, generation: u64, sequence: u64)
    requires
        state.wf(),
    ensures
        state.released(generation, sequence).0.wf(),
{
    let after = state.released(generation, sequence).0;
    if generation == state.generation && state.failed.contains_key(sequence)
        && state.next_sequence < u64::MAX {
        let record = state.failed[sequence];
        slotted_keeps_order(state.pending, record);
        assert forall|i: int| 0 <= i < after.pending.len() implies (
        #[trigger] after.pending[i]).sequence < after.next_sequence && !after.inflight.contains_key(
            after.pending[i].sequence,
        ) && !after.failed.contains_key(after.pending[i].sequence) by {
            if after.pending[i] != record {
                let at = state.pending.index_of(after.pending[i]);
                assert(state.pending[at] == after.pending[i]);
            }
        }
    }
}

/// Placing records with new, different sequences keeps pending records in strict
/// order.
proof fn slotted_all_keeps_order<P>(
    pending: Seq<EgressEnvelope<P>>,
    records: Seq<EgressEnvelope<P>>,
)
    requires
        forall|i: int, j: int|
            0 <= i < j < pending.len() ==> (#[trigger] pending[i]).sequence < (
            #[trigger] pending[j]).sequence,
        forall|i: int, j: int|
            0 <= i < j < records.len() ==> (#[trigger] records[i]).sequence != (
            #[trigger] records[j]).sequence,
        forall|i: int, j: int|
            0 <= i < pending.len() && 0 <= j < records.len() ==> (#[trigger] pending[i]).sequence
                != (#[trigger] records[j]).sequence,
    ensures
        ({
            let after = slotted_all(pending, records);
            &&& after.len() == pending.len() + records.len()
            &&& forall|i: int, j: int|
                0 <= i < j < after.len() ==> (#[trigger] after[i]).sequence < (
                #[trigger] after[j]).sequence
            &&& forall|i: int|
                0 <= i < after.len() ==> records.contains(#[trigger] after[i]) || pending.contains(
                    after[i],
                )
            &&& forall|i: int| 0 <= i < records.len() ==> after.contains(#[trigger] records[i])
            &&& forall|i: int| 0 <= i < pending.len() ==> after.contains(#[trigger] pending[i])
        }),
    decreases records.len(),
{
    if records.len() > 0 {
        let fewer = records.drop_last();
        let last = records.last();
        slotted_all_keeps_order(pending, fewer);
        let before = slotted_all(pending, fewer);
        assert forall|i: int| 0 <= i < before.len() implies (#[trigger] before[i]).sequence
            != last.sequence by {
            if fewer.contains(before[i]) {
                let at = fewer.index_of(before[i]);
                assert(fewer[at] == before[i] && records[at] == before[i]);
                assert(records[records.len() - 1] == last);
            } else {
                let at = pending.index_of(before[i]);
                assert(pending[at] == before[i]);
                assert(records[records.len() - 1] == last);
            }
        }
        slotted_keeps_order(before, last);
        let after = slotted_all(pending, records);
        assert forall|i: int| 0 <= i < after.len() implies records.contains(#[trigger] after[i])
            || pending.contains(after[i]) by {
            if after[i] == last {
                assert(records[records.len() - 1] == last);
            } else {
                let at = before.index_of(after[i]);
                assert(before[at] == after[i]);
                if fewer.contains(before[at]) {
                    let place = fewer.index_of(before[at]);
                    assert(fewer[place] == before[at] && records[place] == before[at]);
                }
            }
        }
        assert forall|i: int| 0 <= i < records.len() implies after.contains(
            #[trigger] records[i],
        ) by {
            if i < fewer.len() {
                assert(fewer[i] == records[i]);
                assert(before.contains(fewer[i]));
                let at = before.index_of(fewer[i]);
                assert(before[at] == records[i]);
            } else {
                assert(records[i] == last);
            }
        }
        assert forall|i: int| 0 <= i < pending.len() implies after.contains(
            #[trigger] pending[i],
        ) by {
            assert(before.contains(pending[i]));
            let at = before.index_of(pending[i]);
            assert(before[at] == pending[i]);
        }
    }
}

/// The records of a window by sequence: each under its own key, none twice.
pub proof fn by_sequence_facts<P>(records: Map<u64, EgressEnvelope<P>>)
    requires
        records.dom().finite(),
        forall|sequence: u64| #[trigger]
            records.contains_key(sequence) ==> records[sequence].sequence == sequence,
    ensures
        by_sequence(records).len() == records.len(),
        forall|i: int|
            0 <= i < by_sequence(records).len() ==> records.contains_key(
                (#[trigger] by_sequence(records)[i]).sequence,
            ) && records[by_sequence(records)[i].sequence] == by_sequence(records)[i],
        forall|i: int, j: int|
            0 <= i < j < by_sequence(records).len() ==> (#[trigger] by_sequence(records)[i]).sequence
                < (#[trigger] by_sequence(records)[j]).sequence,
        forall|sequence: u64| #[trigger]
            records.contains_key(sequence) ==> by_sequence(records).contains(records[sequence]),
{
    let order = in_order::<u64>(records.dom());
    crate::sorted::in_order_exists::<u64>(records.dom());
    assert(ascending::<u64>(order) && order.to_set() == records.dom());
    assert forall|i: int, j: int| 0 <= i < j < order.len() implies #[trigger] order[i]
        < #[trigger] order[j] by {
        reveal_with_fuel(lex_less, 2);
        assert(lex_less(u64::code(order[i]), u64::code(order[j])));
    }
    assert(order.no_duplicates());
    order.unique_seq_to_set();
    assert forall|i: int| 0 <= i < by_sequence(records).len() implies records.contains_key(
        (#[trigger] by_sequence(records)[i]).sequence,
    ) && records[by_sequence(records)[i].sequence] == by_sequence(records)[i] by {
        assert(order.contains(order[i]));
        assert(order.to_set().contains(order[i]));
        assert(records.contains_key(order[i]));
    }
    assert forall|i: int, j: int| 0 <= i < j < by_sequence(records).len() implies (
    #[trigger] by_sequence(records)[i]).sequence < (#[trigger] by_sequence(records)[j]).sequence by {
        assert(order.to_set().contains(order[i]) && order.to_set().contains(order[j]));
        assert(records.contains_key(order[i]) && records.contains_key(order[j]));
    }
    assert forall|sequence: u64| #[trigger] records.contains_key(sequence) implies by_sequence(
        records,
    ).contains(records[sequence]) by {
        assert(order.to_set().contains(sequence));
        assert(order.contains(sequence));
        let at = order.index_of(sequence);
        assert(order[at] == sequence);
        assert(by_sequence(records)[at] == records[sequence]);
    }
}

/// A reconnect keeps the authority in order.
pub proof fn reconnected_is_wf<P>(state: EgressState<P>, generation: u64)
    requires
        state.wf(),
    ensures
        state.reconnected(generation).0.wf(),
{
    let after = state.reconnected(generation).0;
    if generation > state.generation && state.next_sequence < u64::MAX {
        let flying = by_sequence(state.inflight);
        let parked = by_sequence(state.failed);
        by_sequence_facts(state.inflight);
        by_sequence_facts(state.failed);
        slotted_all_keeps_order(state.pending, flying);
        let some = slotted_all(state.pending, flying);
        assert forall|i: int, j: int| 0 <= i < some.len() && 0 <= j < parked.len() implies (
        #[trigger] some[i]).sequence != (#[trigger] parked[j]).sequence by {
            if flying.contains(some[i]) {
                let at = flying.index_of(some[i]);
                assert(flying[at] == some[i]);
            } else {
                let at = state.pending.index_of(some[i]);
                assert(state.pending[at] == some[i]);
            }
        }
        slotted_all_keeps_order(some, parked);
        let all = slotted_all(some, parked);
        assert forall|i: int| 0 <= i < all.len() implies (#[trigger] all[i]).sequence
            < state.next_sequence by {
            if parked.contains(all[i]) {
                let at = parked.index_of(all[i]);
                assert(parked[at] == all[i]);
            } else {
                let at = some.index_of(all[i]);
                assert(some[at] == all[i]);
                if flying.contains(some[at]) {
                    let place = flying.index_of(some[at]);
                    assert(flying[place] == some[at]);
                } else {
                    let place = state.pending.index_of(some[at]);
                    assert(state.pending[place] == some[at]);
                }
            }
        }
        assert forall|i: int, j: int| 0 <= i < j < after.pending.len() implies (
        #[trigger] after.pending[i]).sequence < (#[trigger] after.pending[j]).sequence by {
            assert(after.pending[i].sequence == all[i].sequence);
            assert(after.pending[j].sequence == all[j].sequence);
        }
        assert forall|i: int| 0 <= i < after.pending.len() implies (
        #[trigger] after.pending[i]).sequence < after.next_sequence && !after.inflight.contains_key(
            after.pending[i].sequence,
        ) && !after.failed.contains_key(after.pending[i].sequence) by {
            assert(after.pending[i].sequence == all[i].sequence);
        }
    }
}

} // verus!
