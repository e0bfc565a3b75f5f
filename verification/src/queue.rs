//! The email queue: every email ever queued, with its state, and the
//! operations that move an email from one state to the next.

use crate::backoff::{compute_next_attempt, next_attempt_time, retry_delay};
use crate::error::{EngineError, ValidationReason};
use crate::model::FollowUpEvent;
use crate::store::{lemma_filter_push, views};
use vstd::prelude::*;

verus! {

/// The state of a queued email.
#[derive(Clone, Copy, Debug, PartialEq, Eq, Structural)]
pub enum EmailState {
    /// Queued, never attempted since it was queued or retried by hand.
    Pending,
    /// Claimed by a worker; a send is under way.
    Sending,
    /// Delivered.
    Sent,
    /// A send failed; waiting for the next attempt.
    Retrying,
    /// Given up: the retry budget is used up, or the transport refused
    /// the email for good.
    Abandoned,
    /// Cancelled from outside.
    Cancelled,
}

/// What a send attempt came to.
#[derive(Clone, Copy, Debug, PartialEq, Eq, Structural)]
pub enum SendOutcome {
    /// The transport accepted the email.
    Delivered,
    /// The transport failed in a way that may pass: network, timeout,
    /// server error.
    TransientFailure,
    /// The transport refused the email and will refuse it again.
    PermanentFailure,
}

/// The retry settings that decide what follows a failed attempt.
#[derive(Clone, Copy, Debug, PartialEq, Eq, Structural)]
pub struct RetryPolicy {
    pub max_attempts: u32,
    pub backoff_base: u64,
    pub backoff_cap: u64,
}

/// A terminal state is never left by the state machine.
pub open spec fn is_terminal(s: EmailState) -> bool {
    s is Sent || s is Abandoned || s is Cancelled
}

/// The edges of the state machine. Cancellation is an edge from every
/// state that is not terminal.
pub open spec fn allowed_edge(from: EmailState, to: EmailState) -> bool {
    match (from, to) {
        (EmailState::Pending, EmailState::Sending) => true,
        (EmailState::Sending, EmailState::Sent) => true,
        (EmailState::Sending, EmailState::Retrying) => true,
        (EmailState::Retrying, EmailState::Sending) => true,
        (EmailState::Sending, EmailState::Abandoned) => true,
        (EmailState::Retrying, EmailState::Abandoned) => true,
        (from, EmailState::Cancelled) => !is_terminal(from),
        _ => false,
    }
}

/// An email in the queue. Recipient, subject and body were rendered when
/// the email was queued and never change.
#[derive(Debug, PartialEq, Eq)]
pub struct QueuedEmail {
    pub id: u64,
    pub event: FollowUpEvent,
    pub recipient: String,
    pub subject: String,
    pub body: String,
    pub state: EmailState,
    pub attempts: u32,
    pub next_attempt_at: u64,
    pub created_at: u64,
    pub updated_at: u64,
}

/// The mathematical content of a [`QueuedEmail`].
pub struct QueuedEmailView {
    pub id: u64,
    pub event: FollowUpEvent,
    pub recipient: Seq<char>,
    pub subject: Seq<char>,
    pub body: Seq<char>,
    pub state: EmailState,
    pub attempts: u32,
    pub next_attempt_at: u64,
    pub created_at: u64,
    pub updated_at: u64,
}

impl View for QueuedEmail {
    type V = QueuedEmailView;

    open spec fn view(&self) -> QueuedEmailView {
        QueuedEmailView {
            id: self.id,
            event: self.event,
            recipient: self.recipient@,
            subject: self.subject@,
            body: self.body@,
            state: self.state,
            attempts: self.attempts,
            next_attempt_at: self.next_attempt_at,
            created_at: self.created_at,
            updated_at: self.updated_at,
        }
    }
}

impl Clone for QueuedEmail {
    fn clone(&self) -> (r: Self)
        ensures
            r@ == self@,
    {
        QueuedEmail {
            id: self.id,
            event: self.event,
            recipient: self.recipient.clone(),
            subject: self.subject.clone(),
            body: self.body.clone(),
            state: self.state,
            attempts: self.attempts,
            next_attempt_at: self.next_attempt_at,
            created_at: self.created_at,
            updated_at: self.updated_at,
        }
    }
}

/// The queue's invariant: an email's identifier is its position, no two
/// emails answer the same event, and a pending email has no counted
/// attempt behind it.
pub open spec fn queue_wf(q: Seq<QueuedEmailView>) -> bool {
    &&& forall|i: int| 0 <= i < q.len() ==> (#[trigger] q[i]).id == i
    &&& forall|i: int| 0 <= i < q.len() && (#[trigger] q[i]).state is Pending ==> q[i].attempts == 0
    &&& forall|i: int, j: int|
        0 <= i < q.len() && 0 <= j < q.len() && (#[trigger] q[i]).event == (#[trigger] q[j]).event
            ==> i == j
}

/// Whether the queue holds an email for the event, in any state.
pub open spec fn has_event(q: Seq<QueuedEmailView>, event: FollowUpEvent) -> bool {
    exists|i: int| 0 <= i < q.len() && (#[trigger] q[i]).event == event
}

/// A freshly queued email.
pub open spec fn fresh(
    id: u64,
    event: FollowUpEvent,
    recipient: Seq<char>,
    subject: Seq<char>,
    body: Seq<char>,
    now: u64,
) -> QueuedEmailView {
    QueuedEmailView {
        id,
        event,
        recipient,
        subject,
        body,
        state: EmailState::Pending,
        attempts: 0,
        next_attempt_at: now,
        created_at: now,
        updated_at: now,
    }
}

/// Whether a worker may claim the email at `now`: it is pending, or it is
/// waiting for a retry and the wait is over.
pub open spec fn eligible(v: QueuedEmailView, now: u64) -> bool {
    v.state is Pending || (v.state is Retrying && v.next_attempt_at <= now)
}

/// Whether the email at `i` is the one to claim at `now`: eligible, with
/// the earliest next-attempt time among the eligible, and the oldest among
/// those.
pub open spec fn claims_first(q: Seq<QueuedEmailView>, now: u64, i: int) -> bool {
    &&& 0 <= i < q.len()
    &&& eligible(q[i], now)
    &&& forall|j: int|
        0 <= j < q.len() && eligible(#[trigger] q[j], now) ==> q[i].next_attempt_at
            < q[j].next_attempt_at || (q[i].next_attempt_at == q[j].next_attempt_at && i <= j)
}

/// The email after a worker claimed it.
pub open spec fn claimed(v: QueuedEmailView, now: u64) -> QueuedEmailView {
    QueuedEmailView { state: EmailState::Sending, updated_at: now, ..v }
}

/// The attempt count after one more counted attempt.
pub open spec fn bump(attempts: u32) -> u32 {
    if attempts < u32::MAX {
        (attempts + 1) as u32
    } else {
        attempts
    }
}

/// The email after the outcome of a send was applied. A delivery and a
/// transient failure count as an attempt; a permanent failure abandons the
/// email without counting.
pub open spec fn after_outcome(
    v: QueuedEmailView,
    outcome: SendOutcome,
    now: u64,
    policy: RetryPolicy,
    seed: u64,
) -> QueuedEmailView {
    match outcome {
        SendOutcome::Delivered => QueuedEmailView {
            state: EmailState::Sent,
            attempts: bump(v.attempts),
            updated_at: now,
            ..v
        },
        SendOutcome::TransientFailure => if bump(v.attempts) >= policy.max_attempts {
            QueuedEmailView {
                state: EmailState::Abandoned,
                attempts: bump(v.attempts),
                updated_at: now,
                ..v
            }
        } else {
            QueuedEmailView {
                state: EmailState::Retrying,
                attempts: bump(v.attempts),
                next_attempt_at: next_attempt_time(
                    now,
                    retry_delay(
                        policy.backoff_base,
                        policy.backoff_cap,
                        bump(v.attempts) as nat,
                        seed,
                    ),
                ),
                updated_at: now,
                ..v
            }
        },
        SendOutcome::PermanentFailure => QueuedEmailView {
            state: EmailState::Abandoned,
            updated_at: now,
            ..v
        },
    }
}

/// Whether a cancellation is honoured in this state.
pub open spec fn cancellable(s: EmailState) -> bool {
    s is Pending || s is Retrying
}

/// The email after cancellation.
pub open spec fn cancelled(v: QueuedEmailView, now: u64) -> QueuedEmailView {
    QueuedEmailView { state: EmailState::Cancelled, updated_at: now, ..v }
}

/// The email after an operator asked for an abandoned email to be tried
/// again: pending, with a full retry budget.
pub open spec fn retried(v: QueuedEmailView, now: u64) -> QueuedEmailView {
    QueuedEmailView {
        state: EmailState::Pending,
        attempts: 0,
        next_attempt_at: now,
        updated_at: now,
        ..v
    }
}

/// Whether the email has been in `Sending` for longer than `timeout`.
pub open spec fn stuck(v: QueuedEmailView, now: u64, timeout: u64) -> bool {
    v.state is Sending && v.updated_at + timeout < now
}

/// What the recovery sweep makes of an email: a stuck one waits for a
/// retry that is due at once, with its attempt count untouched; any other
/// is left alone.
pub open spec fn recover_one(v: QueuedEmailView, now: u64, timeout: u64) -> QueuedEmailView {
    if stuck(v, now, timeout) {
        QueuedEmailView {
            state: EmailState::Retrying,
            next_attempt_at: now,
            updated_at: now,
            ..v
        }
    } else {
        v
    }
}

/// What the cancellation of a client's emails makes of an email.
pub open spec fn cancel_one_for(v: QueuedEmailView, client_id: u64, now: u64) -> QueuedEmailView {
    if v.event.client_id == client_id && cancellable(v.state) {
        cancelled(v, now)
    } else {
        v
    }
}

/// Whether an email passes a state filter; no filter passes every email.
pub open spec fn in_state(v: QueuedEmailView, filter: Option<EmailState>) -> bool {
    match filter {
        Some(s) => v.state == s,
        None => true,
    }
}

/// `after` is the same email as `before`, with the same frozen content,
/// and its state is the same or one edge further.
pub open spec fn moved_along(before: QueuedEmailView, after: QueuedEmailView) -> bool {
    &&& after.id == before.id
    &&& after.event == before.event
    &&& after.recipient == before.recipient
    &&& after.subject == before.subject
    &&& after.body == before.body
    &&& after.created_at == before.created_at
    &&& (after.state == before.state || allowed_edge(before.state, after.state))
}

/// A step of the queue that respects the state machine: no email is lost,
/// every email moved along an edge or stayed, and new emails start out
/// pending.
pub open spec fn lawful_step(pre: Seq<QueuedEmailView>, post: Seq<QueuedEmailView>) -> bool {
    &&& pre.len() <= post.len()
    &&& forall|i: int| 0 <= i < pre.len() ==> moved_along(pre[i], #[trigger] post[i])
    &&& forall|i: int| pre.len() <= i < post.len() ==> (#[trigger] post[i]).state is Pending
}

/// A history of one email's states in which every step stays put or
/// follows an edge.
pub open spec fn lawful_trace(t: Seq<EmailState>) -> bool {
    forall|k: int| 0 <= k && k + 1 < t.len() ==> t[k] == t[k + 1] || allowed_edge(t[k], #[trigger] t[k + 1])
}

/// No edge leaves a terminal state.
pub proof fn lemma_terminal_has_no_edge(from: EmailState, to: EmailState)
    requires
        allowed_edge(from, to),
    ensures
        !is_terminal(from),
{
}

/// Once an email has reached a terminal state, it keeps that state for
/// the rest of any history that follows the state machine.
pub proof fn lemma_terminal_is_final(t: Seq<EmailState>, i: int, j: int)
    requires
        lawful_trace(t),
        0 <= i <= j < t.len(),
        is_terminal(t[i]),
    ensures
        t[j] == t[i],
    decreases j - i,
{
    if i < j {
        lemma_terminal_is_final(t, i, j - 1);
        assert(t[j - 1] == t[j] || allowed_edge(t[j - 1], t[j - 1 + 1]));
    }
}

/// In a history that follows the state machine, an email that was ever
/// abandoned is never sent, and one that was ever sent is never
/// abandoned.
pub proof fn lemma_sent_and_abandoned_exclude(t: Seq<EmailState>, i: int, j: int)
    requires
        lawful_trace(t),
        0 <= i < t.len(),
        0 <= j < t.len(),
    ensures
        !(t[i] is Sent && t[j] is Abandoned),
{
    if t[i] is Sent && t[j] is Abandoned {
        if i <= j {
            lemma_terminal_is_final(t, i, j);
        } else {
            lemma_terminal_is_final(t, j, i);
        }
    }
}

/// A history of the queue in which every step respects the state machine.
pub open spec fn lawful_history(h: Seq<Seq<QueuedEmailView>>) -> bool {
    forall|k: int| 0 <= k && k + 1 < h.len() ==> lawful_step(#[trigger] h[k], h[k + 1])
}

/// Over any history of lawful steps, an email that has reached a terminal
/// state is still in the queue later on, in that same state: what was
/// abandoned is never sent, and what was sent is never abandoned.
pub proof fn lemma_terminal_state_is_kept(h: Seq<Seq<QueuedEmailView>>, a: int, b: int, i: int)
    requires
        lawful_history(h),
        0 <= a <= b < h.len(),
        0 <= i < h[a].len(),
        is_terminal(h[a][i].state),
    ensures
        i < h[b].len(),
        h[b][i].state == h[a][i].state,
        h[b][i].event == h[a][i].event,
    decreases b - a,
{
    if a < b {
        lemma_terminal_state_is_kept(h, a, b - 1, i);
        assert(lawful_step(h[b - 1], h[b - 1 + 1]));
        assert(moved_along(h[b - 1][i], h[b][i]));
    }
}

/// Recovery loses nothing and counts nothing twice: an email that was
/// stuck in `Sending` is the same email afterwards, with the same attempt
/// count, and a worker may claim it at once.
pub proof fn lemma_recovered_is_claimable(v: QueuedEmailView, now: u64, timeout: u64)
    requires
        stuck(v, now, timeout),
    ensures
        eligible(recover_one(v, now, timeout), now),
        moved_along(v, recover_one(v, now, timeout)),
        recover_one(v, now, timeout).attempts == v.attempts,
{
}

/// The queue. Emails are kept in the order they were queued and are never
/// removed.
pub struct EmailQueue {
    items: Vec<QueuedEmail>,
}

impl View for EmailQueue {
    type V = Seq<QueuedEmailView>;

    closed spec fn view(&self) -> Seq<QueuedEmailView> {
        views(self.items@)
    }
}

impl EmailQueue {
    /// The queue's invariant.
    pub open spec fn wf(&self) -> bool {
        queue_wf(self@)
    }

    /// An empty queue.
    pub fn new() -> (q: Self)
        ensures
            q@ == Seq::<QueuedEmailView>::empty(),
            q.wf(),
    {
        let q = EmailQueue { items: Vec::new() };
        assert(q@ =~= Seq::<QueuedEmailView>::empty());
        q
    }

    /// The number of emails ever queued.
    pub fn len(&self) -> (n: usize)
        ensures
            n == self@.len(),
    {
        self.items.len()
    }

    /// The position of the email with the given identifier.
    fn locate(&self, id: u64) -> (r: Option<usize>)
        requires
            self.wf(),
        ensures
            match r {
                Some(i) => i == id && id < self@.len(),
                None => id >= self@.len(),
            },
    {
        if id < self.items.len() as u64 {
            Some(id as usize)
        } else {
            None
        }
    }

    /// A copy of the email with the given identifier.
    pub fn get(&self, id: u64) -> (r: Result<QueuedEmail, EngineError>)
        requires
            self.wf(),
        ensures
            match r {
                Ok(item) => id < self@.len() && item@ == self@[id as int],
                Err(e) => id >= self@.len() && e == EngineError::NotFound,
            },
    {
        match self.locate(id) {
            Some(i) => Ok(self.items[i].clone()),
            None => Err(EngineError::NotFound),
        }
    }

    /// Whether the queue holds an email for the event, in any state.
    pub fn contains_event(&self, event: FollowUpEvent) -> (r: bool)
        ensures
            r == has_event(self@, event),
    {
        let mut i: usize = 0;
        while i < self.items.len()
            invariant
                i <= self.items.len(),
                forall|j: int| 0 <= j < i ==> (#[trigger] self@[j]).event != event,
            decreases self.items.len() - i,
        {
            if self.items[i].event == event {
                assert(self@[i as int].event == event);
                return true;
            }
            i = i + 1;
        }
        false
    }

    /// Rewrites the mutable fields of the email at a position.
    fn rewrite(
        &mut self,
        i: usize,
        state: EmailState,
        attempts: u32,
        next_attempt_at: u64,
        updated_at: u64,
    )
        requires
            i < old(self)@.len(),
        ensures
            final(self).items@.len() == old(self).items@.len(),
            final(self)@ == old(self)@.update(
                i as int,
                QueuedEmailView { state, attempts, next_attempt_at, updated_at, ..old(self)@[i as int] },
            ),
    {
        let item = &mut self.items[i];
        item.state = state;
        item.attempts = attempts;
        item.next_attempt_at = next_attempt_at;
        item.updated_at = updated_at;
        assert(self@ =~= old(self)@.update(
            i as int,
            QueuedEmailView { state, attempts, next_attempt_at, updated_at, ..old(self)@[i as int] },
        ));
    }

    /// Queues an email for an event, unless the queue already holds one
    /// for it. Returns the new email's identifier, or `None` where the
    /// event was already answered; that is no error, and nothing changes.
    pub fn enqueue(
        &mut self,
        event: FollowUpEvent,
        recipient: String,
        subject: String,
        body: String,
        now: u64,
    ) -> (r: Option<u64>)
        requires
            old(self).wf(),
        ensures
            final(self).wf(),
            lawful_step(old(self)@, final(self)@),
            match r {
                Some(id) => !has_event(old(self)@, event) && id == old(self)@.len() && final(self)@
                    == old(self)@.push(fresh(id, event, recipient@, subject@, body@, now)),
                None => has_event(old(self)@, event) && final(self)@ == old(self)@,
            },
    {
        if self.contains_event(event) {
            return None;
        }
        let id = self.items.len() as u64;
        let item = QueuedEmail {
            id,
            event,
            recipient,
            subject,
            body,
            state: EmailState::Pending,
            attempts: 0,
            next_attempt_at: now,
            created_at: now,
            updated_at: now,
        };
        self.items.push(item);
        assert(self@ =~= old(self)@.push(fresh(id, event, recipient@, subject@, body@, now)));
        Some(id)
    }

    /// Claims the next email for sending: among the eligible emails the
    /// one with the earliest next-attempt time, the oldest of those. The
    /// email moves to `Sending` and a copy of it is returned. Returns
    /// `None`, and changes nothing, where no email is eligible.
    pub fn claim_next(&mut self, now: u64) -> (r: Option<QueuedEmail>)
        requires
            old(self).wf(),
        ensures
            final(self).wf(),
            lawful_step(old(self)@, final(self)@),
            match r {
                Some(item) => claims_first(old(self)@, now, item.id as int) && final(self)@ == old(self)@.update(item.id as int, claimed(old(self)@[item.id as int], now)) && item@
                    == final(self)@[item.id as int],
                None => final(self)@ == old(self)@ && forall|j: int|
                    0 <= j < old(self)@.len() ==> !eligible(#[trigger] old(self)@[j], now),
            },
    {
        let mut best: Option<usize> = None;
        let mut i: usize = 0;
        while i < self.items.len()
            invariant
                i <= self.items.len(),
                match best {
                    Some(b) => b < i && claims_first(self@.take(i as int), now, b as int),
                    None => forall|j: int| 0 <= j < i ==> !eligible(#[trigger] self@[j], now),
                },
            decreases self.items.len() - i,
        {
            let item = &self.items[i];
            let is_eligible = match item.state {
                EmailState::Pending => true,
                EmailState::Retrying => item.next_attempt_at <= now,
                _ => false,
            };
            assert(is_eligible == eligible(self@[i as int], now));
            let ghost prefix = self@.take(i as int);
            let ghost longer = self@.take(i + 1);
            assert(forall|j: int| 0 <= j < i ==> longer[j] == prefix[j]);
            assert(longer[i as int] == self@[i as int]);
            if is_eligible {
                match best {
                    Some(b) => {
                        if item.next_attempt_at < self.items[b].next_attempt_at {
                            best = Some(i);
                        }
                    },
                    None => {
                        best = Some(i);
                    },
                }
            }
            assert(match best {
                Some(b) => claims_first(longer, now, b as int),
                None => true,
            }) by {
                if let Some(b) = best {
                    assert forall|j: int| 0 <= j < longer.len() && eligible(
                        #[trigger] longer[j],
                        now,
                    ) implies longer[b as int].next_attempt_at < longer[j].next_attempt_at || (
                    longer[b as int].next_attempt_at == longer[j].next_attempt_at && b <= j) by {
                        if j < i {
                            assert(eligible(prefix[j], now));
                        }
                    }
                }
            }
            i = i + 1;
        }
        assert(self@.take(self@.len() as int) =~= self@);
        match best {
            Some(b) => {
                let attempts = self.items[b].attempts;
                let next_attempt_at = self.items[b].next_attempt_at;
                self.rewrite(b, EmailState::Sending, attempts, next_attempt_at, now);
                assert(self@[b as int] == claimed(old(self)@[b as int], now));
                Some(self.items[b].clone())
            },
            None => None,
        }
    }

    /// Applies the outcome of a send to the email a worker had claimed.
    /// Returns the email's new state. Fails with `NotFound` for an unknown
    /// identifier and with `NotSending` where the email is not in
    /// `Sending`; nothing changes then.
    pub fn complete(
        &mut self,
        id: u64,
        outcome: SendOutcome,
        now: u64,
        policy: RetryPolicy,
        seed: u64,
    ) -> (r: Result<EmailState, EngineError>)
        requires
            old(self).wf(),
        ensures
            final(self).wf(),
            lawful_step(old(self)@, final(self)@),
            match r {
                Ok(state) => id < old(self)@.len() && old(self)@[id as int].state is Sending
                    && final(self)@ == old(self)@.update(
                    id as int,
                    after_outcome(old(self)@[id as int], outcome, now, policy, seed),
                ) && state == final(self)@[id as int].state,
                Err(e) => final(self)@ == old(self)@ && if id >= old(self)@.len() {
                    e == EngineError::NotFound
                } else {
                    !(old(self)@[id as int].state is Sending) && e == EngineError::Validation(
                        ValidationReason::NotSending,
                    )
                },
            },
    {
        let i = match self.locate(id) {
            Some(i) => i,
            None => {
                return Err(EngineError::NotFound);
            },
        };
        let item = &self.items[i];
        match item.state {
            EmailState::Sending => {},
            _ => {
                return Err(EngineError::Validation(ValidationReason::NotSending));
            },
        }
        let attempts = item.attempts;
        let next_attempt_at = item.next_attempt_at;
        let counted = if attempts < u32::MAX {
            attempts + 1
        } else {
            attempts
        };
        match outcome {
            SendOutcome::Delivered => {
                self.rewrite(i, EmailState::Sent, counted, next_attempt_at, now);
                Ok(EmailState::Sent)
            },
            SendOutcome::TransientFailure => {
                if counted >= policy.max_attempts {
                    self.rewrite(i, EmailState::Abandoned, counted, next_attempt_at, now);
                    Ok(EmailState::Abandoned)
                } else {
                    let at = compute_next_attempt(
                        now,
                        policy.backoff_base,
                        policy.backoff_cap,
                        counted,
                        seed,
                    );
                    self.rewrite(i, EmailState::Retrying, counted, at, now);
                    Ok(EmailState::Retrying)
                }
            },
            SendOutcome::PermanentFailure => {
                self.rewrite(i, EmailState::Abandoned, attempts, next_attempt_at, now);
                Ok(EmailState::Abandoned)
            },
        }
    }

    /// Cancels an email that is pending or waiting for a retry. An email
    /// that is being sent is left to finish (`InFlight`); one in a
    /// terminal state stays there (`AlreadyTerminal`).
    pub fn cancel(&mut self, id: u64, now: u64) -> (r: Result<(), EngineError>)
        requires
            old(self).wf(),
        ensures
            final(self).wf(),
            lawful_step(old(self)@, final(self)@),
            match r {
                Ok(_) => id < old(self)@.len() && cancellable(old(self)@[id as int].state)
                    && final(self)@ == old(self)@.update(
                    id as int,
                    cancelled(old(self)@[id as int], now),
                ),
                Err(e) => final(self)@ == old(self)@ && if id >= old(self)@.len() {
                    e == EngineError::NotFound
                } else if old(self)@[id as int].state is Sending {
                    e == EngineError::Validation(ValidationReason::InFlight)
                } else {
                    is_terminal(old(self)@[id as int].state) && e == EngineError::Validation(
                        ValidationReason::AlreadyTerminal,
                    )
                },
            },
    {
        let i = match self.locate(id) {
            Some(i) => i,
            None => {
                return Err(EngineError::NotFound);
            },
        };
        let item = &self.items[i];
        match item.state {
            EmailState::Pending | EmailState::Retrying => {
                let attempts = item.attempts;
                let next_attempt_at = item.next_attempt_at;
                self.rewrite(i, EmailState::Cancelled, attempts, next_attempt_at, now);
                Ok(())
            },
            EmailState::Sending => Err(EngineError::Validation(ValidationReason::InFlight)),
            _ => Err(EngineError::Validation(ValidationReason::AlreadyTerminal)),
        }
    }

    /// Puts an abandoned email back in line at an operator's request:
    /// pending, due at once, with its attempt count reset. This is the one
    /// operation that leaves a terminal state.
    pub fn retry_now(&mut self, id: u64, now: u64) -> (r: Result<(), EngineError>)
        requires
            old(self).wf(),
        ensures
            final(self).wf(),
            match r {
                Ok(_) => id < old(self)@.len() && old(self)@[id as int].state is Abandoned
                    && final(self)@ == old(self)@.update(
                    id as int,
                    retried(old(self)@[id as int], now),
                ),
                Err(e) => final(self)@ == old(self)@ && if id >= old(self)@.len() {
                    e == EngineError::NotFound
                } else {
                    !(old(self)@[id as int].state is Abandoned) && e == EngineError::Validation(
                        ValidationReason::NotAbandoned,
                    )
                },
            },
    {
        let i = match self.locate(id) {
            Some(i) => i,
            None => {
                return Err(EngineError::NotFound);
            },
        };
        match self.items[i].state {
            EmailState::Abandoned => {
                self.rewrite(i, EmailState::Pending, 0, now, now);
                Ok(())
            },
            _ => Err(EngineError::Validation(ValidationReason::NotAbandoned)),
        }
    }

    /// The recovery sweep: every email that has been in `Sending` for
    /// longer than `timeout` goes back to `Retrying`, due at once, with
    /// its attempt count untouched. Returns how many were requeued.
    pub fn recover_stuck(&mut self, now: u64, timeout: u64) -> (count: usize)
        requires
            old(self).wf(),
        ensures
            final(self).wf(),
            lawful_step(old(self)@, final(self)@),
            final(self)@ == old(self)@.map_values(
                |v: QueuedEmailView| recover_one(v, now, timeout),
            ),
            count == old(self)@.filter(|v: QueuedEmailView| stuck(v, now, timeout)).len(),
    {
        let mut count: usize = 0;
        let mut i: usize = 0;
        let ghost pred = |v: QueuedEmailView| stuck(v, now, timeout);
        proof {
            reveal(Seq::filter);
            assert(old(self)@.take(0) =~= Seq::<QueuedEmailView>::empty());
        }
        while i < self.items.len()
            invariant
                i <= self.items.len(),
                self@.len() == old(self)@.len(),
                pred == (|v: QueuedEmailView| stuck(v, now, timeout)),
                forall|j: int| 0 <= j < i ==> #[trigger] self@[j] == recover_one(old(self)@[j], now, timeout),
                forall|j: int| i <= j < self@.len() ==> #[trigger] self@[j] == old(self)@[j],
                count == old(self)@.take(i as int).filter(pred).len(),
                count <= i,
            decreases self.items.len() - i,
        {
            let item = &self.items[i];
            let is_stuck = match item.state {
                EmailState::Sending => timeout < now && item.updated_at < now - timeout,
                _ => false,
            };
            proof {
                assert(self@[i as int] == old(self)@[i as int]);
                assert(is_stuck == stuck(old(self)@[i as int], now, timeout));
                lemma_filter_push(old(self)@.take(i as int), old(self)@[i as int], pred);
                assert(old(self)@.take(i as int).push(old(self)@[i as int]) =~= old(self)@.take(
                    i + 1,
                ));
            }
            if is_stuck {
                let attempts = item.attempts;
                self.rewrite(i, EmailState::Retrying, attempts, now, now);
                count = count + 1;
            }
            i = i + 1;
        }
        assert(old(self)@.take(old(self)@.len() as int) =~= old(self)@);
        assert(self@ =~= old(self)@.map_values(|v: QueuedEmailView| recover_one(v, now, timeout)));
        count
    }

    /// Cancels every email of a client that is pending or waiting for a
    /// retry. Emails that are being sent are left to finish. Returns how
    /// many were cancelled.
    pub fn cancel_for_client(&mut self, client_id: u64, now: u64) -> (count: usize)
        requires
            old(self).wf(),
        ensures
            final(self).wf(),
            lawful_step(old(self)@, final(self)@),
            final(self)@ == old(self)@.map_values(
                |v: QueuedEmailView| cancel_one_for(v, client_id, now),
            ),
            count == old(self)@.filter(
                |v: QueuedEmailView| v.event.client_id == client_id && cancellable(v.state),
            ).len(),
    {
        let mut count: usize = 0;
        let mut i: usize = 0;
        let ghost pred = |v: QueuedEmailView| v.event.client_id == client_id && cancellable(v.state);
        proof {
            reveal(Seq::filter);
            assert(old(self)@.take(0) =~= Seq::<QueuedEmailView>::empty());
        }
        while i < self.items.len()
            invariant
                i <= self.items.len(),
                self@.len() == old(self)@.len(),
                pred == (|v: QueuedEmailView| v.event.client_id == client_id && cancellable(v.state)),
                forall|j: int| 0 <= j < i ==> #[trigger] self@[j] == cancel_one_for(old(self)@[j], client_id, now),
                forall|j: int| i <= j < self@.len() ==> #[trigger] self@[j] == old(self)@[j],
                count == old(self)@.take(i as int).filter(pred).len(),
                count <= i,
            decreases self.items.len() - i,
        {
            let item = &self.items[i];
            let hit = item.event.client_id == client_id && match item.state {
                EmailState::Pending | EmailState::Retrying => true,
                _ => false,
            };
            proof {
                assert(self@[i as int] == old(self)@[i as int]);
                assert(hit == pred(old(self)@[i as int]));
                lemma_filter_push(old(self)@.take(i as int), old(self)@[i as int], pred);
                assert(old(self)@.take(i as int).push(old(self)@[i as int]) =~= old(self)@.take(
                    i + 1,
                ));
            }
            if hit {
                let attempts = item.attempts;
                let next_attempt_at = item.next_attempt_at;
                self.rewrite(i, EmailState::Cancelled, attempts, next_attempt_at, now);
                count = count + 1;
            }
            i = i + 1;
        }
        assert(old(self)@.take(old(self)@.len() as int) =~= old(self)@);
        assert(self@ =~= old(self)@.map_values(
            |v: QueuedEmailView| cancel_one_for(v, client_id, now),
        ));
        count
    }

    /// Copies of the emails in the given state, or of all emails where no
    /// state is given, in the order they were queued.
    pub fn list(&self, filter: Option<EmailState>) -> (r: Vec<QueuedEmail>)
        ensures
            views(r@) == self@.filter(|v: QueuedEmailView| in_state(v, filter)),
    {
        let mut out: Vec<QueuedEmail> = Vec::new();
        let mut i: usize = 0;
        let ghost pred = |v: QueuedEmailView| in_state(v, filter);
        proof {
            reveal(Seq::filter);
            assert(self@.take(0) =~= Seq::<QueuedEmailView>::empty());
            assert(views(out@) =~= Seq::<QueuedEmailView>::empty());
        }
        while i < self.items.len()
            invariant
                i <= self.items.len(),
                pred == (|v: QueuedEmailView| in_state(v, filter)),
                views(out@) == self@.take(i as int).filter(pred),
            decreases self.items.len() - i,
        {
            let item = &self.items[i];
            let keep = match filter {
                Some(s) => item.state == s,
                None => true,
            };
            proof {
                lemma_filter_push(self@.take(i as int), self@[i as int], pred);
                assert(self@.take(i as int).push(self@[i as int]) =~= self@.take(i + 1));
            }
            if keep {
                let copy = item.clone();
                let ghost before = out@;
                out.push(copy);
                assert(views(out@) =~= views(before).push(copy@));
            }
            i = i + 1;
        }
        assert(self@.take(self@.len() as int) =~= self@);
        out
    }
}

} // verus!
