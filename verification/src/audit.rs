//! The audit log: an append-only record of every delivery attempt.

use crate::model::FollowUpEvent;
use crate::queue::SendOutcome;
use crate::store::{lemma_filter_push, views};
use vstd::prelude::*;

verus! {

/// One delivery attempt and what came of it.
#[derive(Debug, PartialEq, Eq)]
pub struct DeliveryAttempt {
    pub email_id: u64,
    pub event: FollowUpEvent,
    pub attempt_number: u32,
    pub at: u64,
    pub outcome: SendOutcome,
    pub detail: String,
}

/// The mathematical content of a [`DeliveryAttempt`].
pub struct DeliveryAttemptView {
    pub email_id: u64,
    pub event: FollowUpEvent,
    pub attempt_number: u32,
    pub at: u64,
    pub outcome: SendOutcome,
    pub detail: Seq<char>,
}

impl View for DeliveryAttempt {
    type V = DeliveryAttemptView;

    open spec fn view(&self) -> DeliveryAttemptView {
        DeliveryAttemptView {
            email_id: self.email_id,
            event: self.event,
            attempt_number: self.attempt_number,
            at: self.at,
            outcome: self.outcome,
            detail: self.detail@,
        }
    }
}

impl Clone for DeliveryAttempt {
    fn clone(&self) -> (r: Self)
        ensures
            r@ == self@,
    {
        DeliveryAttempt {
            email_id: self.email_id,
            event: self.event,
            attempt_number: self.attempt_number,
            at: self.at,
            outcome: self.outcome,
            detail: self.detail.clone(),
        }
    }
}

/// The name of an outcome's category, as shown to an operator.
pub open spec fn category_text(outcome: SendOutcome) -> Seq<char> {
    match outcome {
        SendOutcome::Delivered => "success"@,
        SendOutcome::TransientFailure => "transient"@,
        SendOutcome::PermanentFailure => "permanent"@,
    }
}

/// The name of an outcome's category.
pub fn category(outcome: SendOutcome) -> (name: String)
    ensures
        name@ == category_text(outcome),
{
    match outcome {
        SendOutcome::Delivered => String::from_str("success"),
        SendOutcome::TransientFailure => String::from_str("transient"),
        SendOutcome::PermanentFailure => String::from_str("permanent"),
    }
}

/// Which attempts a history query asks for.
#[derive(Clone, Copy, Debug, PartialEq, Eq, Structural)]
pub enum AuditQuery {
    /// Every attempt made for a client.
    Client(u64),
    /// Every attempt made for one event.
    Event(FollowUpEvent),
}

/// Whether an attempt answers a query.
pub open spec fn answers(a: DeliveryAttemptView, query: AuditQuery) -> bool {
    match query {
        AuditQuery::Client(client_id) => a.event.client_id == client_id,
        AuditQuery::Event(event) => a.event == event,
    }
}

/// Whether the log records a delivery for the event.
pub open spec fn was_sent(log: Seq<DeliveryAttemptView>, event: FollowUpEvent) -> bool {
    exists|i: int|
        0 <= i < log.len() && (#[trigger] log[i]).event == event && log[i].outcome is Delivered
}

/// The log. Records are kept in the order they were appended; none is
/// ever changed or removed.
pub struct AuditLog {
    entries: Vec<DeliveryAttempt>,
}

impl View for AuditLog {
    type V = Seq<DeliveryAttemptView>;

    closed spec fn view(&self) -> Seq<DeliveryAttemptView> {
        views(self.entries@)
    }
}

impl AuditLog {
    /// An empty log.
    pub fn new() -> (log: Self)
        ensures
            log@ == Seq::<DeliveryAttemptView>::empty(),
    {
        let log = AuditLog { entries: Vec::new() };
        assert(log@ =~= Seq::<DeliveryAttemptView>::empty());
        log
    }

    /// The number of records.
    pub fn len(&self) -> (n: usize)
        ensures
            n == self@.len(),
    {
        self.entries.len()
    }

    /// Appends a record.
    pub fn append(&mut self, record: DeliveryAttempt)
        ensures
            final(self)@ == old(self)@.push(record@),
    {
        self.entries.push(record);
        assert(self@ =~= old(self)@.push(record@));
    }

    /// Whether an email answering the event was ever delivered.
    pub fn has_sent(&self, event: FollowUpEvent) -> (r: bool)
        ensures
            r == was_sent(self@, event),
    {
        let mut i: usize = 0;
        while i < self.entries.len()
            invariant
                i <= self.entries.len(),
                forall|j: int|
                    0 <= j < i ==> !((#[trigger] self@[j]).event == event
                        && self@[j].outcome is Delivered),
            decreases self.entries.len() - i,
        {
            let e = &self.entries[i];
            let delivered = match e.outcome {
                SendOutcome::Delivered => true,
                _ => false,
            };
            if delivered && e.event == event {
                assert(self@[i as int].event == event && self@[i as int].outcome is Delivered);
                return true;
            }
            i = i + 1;
        }
        false
    }

    /// Copies of the records that answer the query, oldest first.
    pub fn history(&self, query: AuditQuery) -> (r: Vec<DeliveryAttempt>)
        ensures
            views(r@) == self@.filter(|a: DeliveryAttemptView| answers(a, query)),
    {
        let mut out: Vec<DeliveryAttempt> = Vec::new();
        let mut i: usize = 0;
        let ghost pred = |a: DeliveryAttemptView| answers(a, query);
        proof {
            reveal(Seq::filter);
            assert(self@.take(0) =~= Seq::<DeliveryAttemptView>::empty());
            assert(views(out@) =~= Seq::<DeliveryAttemptView>::empty());
        }
        while i < self.entries.len()
            invariant
                i <= self.entries.len(),
                pred == (|a: DeliveryAttemptView| answers(a, query)),
                views(out@) == self@.take(i as int).filter(pred),
            decreases self.entries.len() - i,
        {
            let e = &self.entries[i];
            let keep = match query {
                AuditQuery::Client(client_id) => e.event.client_id == client_id,
                AuditQuery::Event(event) => e.event == event,
            };
            proof {
                lemma_filter_push(self@.take(i as int), self@[i as int], pred);
                assert(self@.take(i as int).push(self@[i as int]) =~= self@.take(i + 1));
            }
            if keep {
                let copy = e.clone();
                let ghost before = out@;
                out.push(copy);
                assert(views(out@) =~= views(before).push(copy@));
            }
            i = i + 1;
        }
        assert(self@.take(self@.len() as int) =~= self@);
        out
    }
}

} // verus!
