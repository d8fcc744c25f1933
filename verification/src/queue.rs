//! The vocabulary shared by the queue and topic families, and the reference queue
//! backend.

use vstd::prelude::*;

use crate::table::KeyedTable;
use crate::value::{Key, Datum};

verus! {

/// Why a push was refused.
#[derive(Debug, Clone, Copy, PartialEq, Eq, Structural)]
pub enum QueuePushError {
    /// Bounded and at capacity.
    Full,
    /// Closed.
    Closed,
}

/// Why a pop found nothing.
#[derive(Debug, Clone, Copy, PartialEq, Eq, Structural)]
pub enum QueuePopError {
    /// Open and empty.
    Empty,
    /// Closed and empty.
    Closed,
}

/// A FIFO backend.
pub trait QueueStorage<T: View>: Sized {
    /// What is queued, head first.
    spec fn queued(&self) -> Seq<T::V>;

    /// Whether nothing can be pushed any more.
    spec fn ended(&self) -> bool;

    /// The declared capacity, which never changes.
    spec fn bound(&self) -> Option<usize>;

    /// Whether the backend is one that its operations can reach.
    spec fn wf(&self) -> bool;

    /// How many elements are queued.
    fn len(&self) -> (count: usize)
        requires
            self.wf(),
        ensures
            count == self.queued().len(),
    ;

    /// The declared capacity.
    fn capacity(&self) -> (capacity: Option<usize>)
        requires
            self.wf(),
        ensures
            capacity == self.bound(),
    ;

    /// Whether nothing can be pushed any more.
    fn is_closed(&self) -> (closed: bool)
        requires
            self.wf(),
        ensures
            closed == self.ended(),
    ;

    /// The head, without taking it.
    fn peek(&self) -> (head: Option<&T>)
        requires
            self.wf(),
        ensures
            match head {
                Some(value) => self.queued().len() > 0 && value@ == self.queued()[0],
                None => self.queued().len() == 0,
            },
    ;

    /// Appends to the tail.
    fn try_push(&mut self, value: T) -> (outcome: Result<(), QueuePushError>)
        requires
            old(self).wf(),
            old(self).queued().len() < usize::MAX,
        ensures
            final(self).wf(),
            final(self).bound() == old(self).bound(),
            final(self).ended() == old(self).ended(),
            outcome == push_outcome(old(self).queued().len(), old(self).ended(), old(self).bound()),
            final(self).queued() == if outcome is Ok {
                old(self).queued().push(value@)
            } else {
                old(self).queued()
            },
    ;

    /// Takes the head.
    fn try_pop(&mut self) -> (outcome: Result<T, QueuePopError>)
        requires
            old(self).wf(),
        ensures
            final(self).wf(),
            final(self).bound() == old(self).bound(),
            final(self).ended() == old(self).ended(),
            match outcome {
                Ok(value) => old(self).queued().len() > 0 && value@ == old(self).queued()[0]
                    && final(self).queued() == old(self).queued().skip(1),
                Err(error) => old(self).queued().len() == 0 && final(self).queued() == old(
                    self,
                ).queued() && error == if old(self).ended() {
                    QueuePopError::Closed
                } else {
                    QueuePopError::Empty
                },
            },
    ;

    /// Closes the queue. What is queued can still be taken.
    fn close(&mut self)
        requires
            old(self).wf(),
        ensures
            final(self).wf(),
            final(self).bound() == old(self).bound(),
            final(self).queued() == old(self).queued(),
            final(self).ended(),
    ;
}

/// Whether a push succeeds, and why not.
pub open spec fn push_outcome(len: nat, ended: bool, bound: Option<usize>) -> Result<
    (),
    QueuePushError,
> {
    if ended {
        Err(QueuePushError::Closed)
    } else if bound matches Some(capacity) && len >= capacity {
        Err(QueuePushError::Full)
    } else {
        Ok(())
    }
}

/// The reference backend.
pub struct VecDequeStorage<T> {
    elements: Vec<T>,
    capacity: Option<usize>,
    closed: bool,
}

impl<T: View> VecDequeStorage<T> {
    /// A backend without a bound.
    pub fn unbounded() -> (storage: Self)
        ensures
            storage.wf(),
            storage.queued() == Seq::<T::V>::empty(),
            storage.bound() is None,
            !storage.ended(),
    {
        let storage = VecDequeStorage { elements: Vec::new(), capacity: None, closed: false };
        proof {
            assert(storage.queued() =~= Seq::<T::V>::empty());
        }
        storage
    }

    /// A backend that holds at most `capacity` elements.
    pub fn with_capacity(capacity: usize) -> (storage: Self)
        requires
            capacity > 0,
        ensures
            storage.wf(),
            storage.queued() == Seq::<T::V>::empty(),
            storage.bound() == Some(capacity),
            !storage.ended(),
    {
        let storage = VecDequeStorage {
            elements: Vec::new(),
            capacity: Some(capacity),
            closed: false,
        };
        proof {
            assert(storage.queued() =~= Seq::<T::V>::empty());
        }
        storage
    }
}

impl<T: View> QueueStorage<T> for VecDequeStorage<T> {
    closed spec fn queued(&self) -> Seq<T::V> {
        self.elements@.map_values(|element: T| element@)
    }

    closed spec fn ended(&self) -> bool {
        self.closed
    }

    closed spec fn bound(&self) -> Option<usize> {
        self.capacity
    }

    closed spec fn wf(&self) -> bool {
        self.capacity matches Some(capacity) ==> self.elements@.len() <= capacity
    }

    fn len(&self) -> (count: usize) {
        self.elements.len()
    }

    fn capacity(&self) -> (capacity: Option<usize>) {
        self.capacity
    }

    fn is_closed(&self) -> (closed: bool) {
        self.closed
    }

    fn peek(&self) -> (head: Option<&T>) {
        if self.elements.len() == 0 {
            None
        } else {
            Some(&self.elements[0])
        }
    }

    fn try_push(&mut self, value: T) -> (outcome: Result<(), QueuePushError>) {
        if self.closed {
            return Err(QueuePushError::Closed);
        }
        if let Some(capacity) = self.capacity {
            if self.elements.len() >= capacity {
                return Err(QueuePushError::Full);
            }
        }
        let ghost model = value@;
        self.elements.push(value);
        proof {
            assert(self.queued() =~= old(self).queued().push(model));
        }
        Ok(())
    }

    fn try_pop(&mut self) -> (outcome: Result<T, QueuePopError>) {
        if self.elements.len() == 0 {
            return Err(
                if self.closed {
                    QueuePopError::Closed
                } else {
                    QueuePopError::Empty
                },
            );
        }
        let value = self.elements.remove(0);
        proof {
            assert(self.queued() =~= old(self).queued().skip(1));
        }
        Ok(value)
    }

    fn close(&mut self) {
        self.closed = true;
    }
}

/// Whether a subscription outlives its connection.
#[derive(Debug, Clone, Copy, PartialEq, Eq, Structural)]
pub enum TopicDurability {
    /// Stays at its cursor while disconnected, and holds the log back.
    Durable,
    /// Gone on disconnect; never holds the log back.
    Ephemeral,
}

/// What a subscription did.
#[derive(Debug, Clone, Copy, PartialEq, Eq, Structural)]
pub enum TopicSubscribeOutcome {
    /// A new cursor at the tail.
    Created,
    /// A known cursor is connected again.
    Reconnected,
    /// Nothing moved.
    AlreadyConnected,
}

/// One subscription record.
#[derive(Debug, Clone, Copy, PartialEq, Eq, Structural)]
pub struct TopicSubscriptionSnapshot {
    /// Absolute offset of the next element to read.
    pub cursor: u64,
    /// Whether the record outlives its connection.
    pub durability: TopicDurability,
    /// Whether the subscriber is connected.
    pub connected: bool,
}

/// An atomic snapshot of a topic.
#[derive(Debug, Clone, PartialEq, Eq)]
pub struct TopicSnapshot<T, I = String> {
    /// Absolute offset of the first retained element.
    pub base_offset: u64,
    /// Retained elements, oldest first.
    pub elements: Vec<T>,
    /// Subscriptions by identity.
    pub subscriptions: KeyedTable<I, TopicSubscriptionSnapshot>,
}

} // verus!
