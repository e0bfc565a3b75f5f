//! The engine: the stores, the queue and the audit log under one roof,
//! with the commands that the surrounding application calls.

use crate::audit::{AuditLog, AuditQuery, DeliveryAttempt, DeliveryAttemptView, answers, was_sent};
use crate::config::{Config, config_valid, policy_of, run_due, sending_allowed};
use crate::error::{EngineError, ValidationReason};
use crate::model::{
    Client,
    ClientView,
    FollowUpEvent,
    FollowUpRule,
    Interaction,
    Record,
    Template,
    TemplateView,
    chronological,
};
use crate::queue::{
    EmailQueue,
    EmailState,
    QueuedEmail,
    QueuedEmailView,
    SendOutcome,
    after_outcome,
    bump,
    cancel_one_for,
    cancellable,
    cancelled,
    claimed,
    claims_first,
    eligible,
    fresh,
    has_event,
    in_state,
    is_terminal,
    lawful_step,
    queue_wf,
    recover_one,
    retried,
    stuck,
};
use crate::rules::{due_events, is_due, occurrence_due};
use crate::store::{
    ListFilter,
    Store,
    all_valid,
    has_id,
    index_of,
    listed,
    unique_ids,
    upserted,
    views,
};
use crate::text::{render, render_text};
use vstd::prelude::*;

verus! {

/// The records that scheduling reads: clients, templates and rules.
pub struct Catalog {
    pub clients: Seq<ClientView>,
    pub templates: Seq<TemplateView>,
    pub rules: Seq<FollowUpRule>,
}

/// The mathematical content of an [`Engine`].
pub struct EngineView {
    pub catalog: Catalog,
    pub queue: Seq<QueuedEmailView>,
    pub audit: Seq<DeliveryAttemptView>,
    pub config: Config,
    pub last_run: Option<u64>,
}

/// The catalog's invariant: identifiers are unique within each kind of
/// record, and every client and template is valid.
pub open spec fn catalog_wf(c: Catalog) -> bool {
    &&& unique_ids::<Client>(c.clients)
    &&& all_valid::<Client>(c.clients)
    &&& unique_ids::<Template>(c.templates)
    &&& all_valid::<Template>(c.templates)
    &&& unique_ids::<FollowUpRule>(c.rules)
}

/// The engine's invariant.
pub open spec fn engine_wf(v: EngineView) -> bool {
    catalog_wf(v.catalog) && queue_wf(v.queue) && config_valid(v.config)
}

/// The client an event is about.
pub open spec fn client_of(c: Catalog, e: FollowUpEvent) -> ClientView {
    c.clients[index_of::<Client>(c.clients, e.client_id)]
}

/// The rule an event comes from.
pub open spec fn rule_of(c: Catalog, e: FollowUpEvent) -> FollowUpRule {
    c.rules[index_of::<FollowUpRule>(c.rules, e.rule_id)]
}

/// The template that the event's rule refers to.
pub open spec fn template_of(c: Catalog, e: FollowUpEvent) -> TemplateView {
    c.templates[index_of::<Template>(c.templates, rule_of(c, e).template_id)]
}

/// Whether the event can be answered at `now`: its client is known and not
/// archived, its rule is known and has this occurrence due, and the rule's
/// template is known and active.
pub open spec fn answerable(c: Catalog, now: u64, e: FollowUpEvent) -> bool {
    &&& has_id::<Client>(c.clients, e.client_id)
    &&& !client_of(c, e).archived
    &&& has_id::<FollowUpRule>(c.rules, e.rule_id)
    &&& occurrence_due(client_of(c, e), rule_of(c, e), e.occurrence_key, now)
    &&& has_id::<Template>(c.templates, rule_of(c, e).template_id)
    &&& template_of(c, e).active
}

/// Whether the event is to be queued at `now`: it can be answered, the
/// queue holds no email for it, and the log records no delivery for it.
pub open spec fn newly_due(v: EngineView, now: u64, e: FollowUpEvent) -> bool {
    answerable(v.catalog, now, e) && !has_event(v.queue, e) && !was_sent(v.audit, e)
}

/// The email queued for an event: addressed to the client, with subject
/// and body rendered from the template for the client as it is at `now`.
pub open spec fn materialized(c: Catalog, now: u64, e: FollowUpEvent, id: u64) -> QueuedEmailView {
    fresh(
        id,
        e,
        client_of(c, e).email,
        render_text(template_of(c, e).subject, client_of(c, e).name, client_of(c, e).email),
        render_text(template_of(c, e).body, client_of(c, e).name, client_of(c, e).email),
        now,
    )
}

/// What a scheduler run at `now` makes of the engine: the emails already
/// queued stay as they are; every email added answers an event that was
/// newly due, and holds the rendering for it; every event that was newly
/// due is answered; nothing else changes but the instant of the last run.
pub open spec fn scheduled(pre: EngineView, post: EngineView, now: u64, count: int) -> bool {
    &&& post.catalog == pre.catalog
    &&& post.audit == pre.audit
    &&& post.config == pre.config
    &&& post.last_run == Some(now)
    &&& pre.queue.len() <= post.queue.len()
    &&& post.queue.take(pre.queue.len() as int) == pre.queue
    &&& count == post.queue.len() - pre.queue.len()
    &&& forall|i: int|
        pre.queue.len() <= i < post.queue.len() ==> newly_due(pre, now, (#[trigger] post.queue[i]).event)
            && post.queue[i] == materialized(pre.catalog, now, post.queue[i].event, i as u64)
    &&& forall|e: FollowUpEvent| newly_due(pre, now, e) ==> has_event(post.queue, e)
}

/// The client after one more interaction.
pub open spec fn with_interaction(c: ClientView, x: Interaction) -> ClientView {
    ClientView { interactions: c.interactions.push(x), ..c }
}

/// The record of an attempt on the email `v` with the given outcome.
pub open spec fn attempt_record(
    v: QueuedEmailView,
    outcome: SendOutcome,
    detail: Seq<char>,
    now: u64,
) -> DeliveryAttemptView {
    DeliveryAttemptView {
        email_id: v.id,
        event: v.event,
        attempt_number: bump(v.attempts),
        at: now,
        outcome,
        detail,
    }
}

/// An email for an event stays in the queue when the queue grows.
pub proof fn lemma_has_event_grows(
    shorter: Seq<QueuedEmailView>,
    longer: Seq<QueuedEmailView>,
    e: FollowUpEvent,
)
    requires
        shorter.len() <= longer.len(),
        longer.take(shorter.len() as int) == shorter,
        has_event(shorter, e),
    ensures
        has_event(longer, e),
{
    let i = choose|i: int| 0 <= i < shorter.len() && (#[trigger] shorter[i]).event == e;
    assert(longer.take(shorter.len() as int)[i] == longer[i]);
    assert(longer[i].event == e);
}

/// Idempotent scheduling: a second run at the same instant, with nothing
/// else done in between, queues nothing. Together with the queue's
/// invariant, under which no two emails answer the same event, and with
/// the fact that no operation removes an email, this bounds the emails
/// ever created for an event by one.
pub proof fn lemma_rerun_queues_nothing(
    first: EngineView,
    second: EngineView,
    third: EngineView,
    now: u64,
    count: int,
    recount: int,
)
    requires
        scheduled(first, second, now, count),
        scheduled(second, third, now, recount),
    ensures
        recount == 0,
        third == second,
{
    if third.queue.len() > second.queue.len() {
        let i = second.queue.len() as int;
        let e = third.queue[i].event;
        assert(newly_due(second, now, e));
        if has_event(first.queue, e) {
            lemma_has_event_grows(first.queue, second.queue, e);
        } else {
            assert(newly_due(first, now, e));
        }
        assert(false);
    }
    assert(third.queue.take(second.queue.len() as int) =~= third.queue);
}

/// A later run never answers an event a second time: every email a run
/// adds is for an event that no email queued before it answers.
pub proof fn lemma_scheduled_adds_only_new(
    pre: EngineView,
    post: EngineView,
    now: u64,
    count: int,
    i: int,
    j: int,
)
    requires
        scheduled(pre, post, now, count),
        0 <= i < pre.queue.len() <= j < post.queue.len(),
    ensures
        post.queue[i].event != post.queue[j].event,
{
    assert(post.queue.take(pre.queue.len() as int)[i] == post.queue[i]);
    assert(newly_due(pre, now, post.queue[j].event));
    if post.queue[i].event == post.queue[j].event {
        assert(pre.queue[i].event == post.queue[j].event);
        assert(has_event(pre.queue, post.queue[j].event));
    }
}

/// The engine.
pub struct Engine {
    clients: Store<Client>,
    templates: Store<Template>,
    rules: Store<FollowUpRule>,
    queue: EmailQueue,
    audit: AuditLog,
    config: Config,
    last_run: Option<u64>,
}

impl View for Engine {
    type V = EngineView;

    closed spec fn view(&self) -> EngineView {
        EngineView {
            catalog: Catalog {
                clients: self.clients@,
                templates: self.templates@,
                rules: self.rules@,
            },
            queue: self.queue@,
            audit: self.audit@,
            config: self.config,
            last_run: self.last_run,
        }
    }
}

impl Engine {
    /// The engine's invariant.
    pub open spec fn wf(&self) -> bool {
        engine_wf(self@)
    }

    /// An engine with nothing in it. Invalid settings are rejected.
    pub fn new(config: Config) -> (r: Result<Engine, EngineError>)
        ensures
            match r {
                Ok(engine) => config_valid(config) && engine.wf() && engine@ == (EngineView {
                    catalog: Catalog {
                        clients: Seq::empty(),
                        templates: Seq::empty(),
                        rules: Seq::empty(),
                    },
                    queue: Seq::empty(),
                    audit: Seq::empty(),
                    config,
                    last_run: None,
                }),
                Err(e) => !config_valid(config) && e == EngineError::Validation(
                    ValidationReason::InvalidConfig,
                ),
            },
    {
        match config.validate() {
            Ok(_) => Ok(
                Engine {
                    clients: Store::new(),
                    templates: Store::new(),
                    rules: Store::new(),
                    queue: EmailQueue::new(),
                    audit: AuditLog::new(),
                    config,
                    last_run: None,
                },
            ),
            Err(e) => Err(e),
        }
    }

    /// The settings in force.
    pub fn config(&self) -> (c: Config)
        ensures
            c == self@.config,
    {
        self.config
    }

    /// Replaces the settings. Invalid settings are rejected and nothing
    /// changes.
    pub fn set_config(&mut self, config: Config) -> (r: Result<(), EngineError>)
        requires
            old(self).wf(),
        ensures
            final(self).wf(),
            match r {
                Ok(_) => config_valid(config) && final(self)@ == (EngineView {
                    config,
                    ..old(self)@
                }),
                Err(e) => !config_valid(config) && e == EngineError::Validation(
                    ValidationReason::InvalidConfig,
                ) && final(self)@ == old(self)@,
            },
    {
        match config.validate() {
            Ok(_) => {
                self.config = config;
                Ok(())
            },
            Err(e) => Err(e),
        }
    }

    /// The clients that pass the filter.
    pub fn list_clients(&self, filter: ListFilter) -> (r: Vec<Client>)
        ensures
            views(r@) == listed::<Client>(self@.catalog.clients, filter),
    {
        self.clients.list(filter)
    }

    /// Inserts or replaces a client. Emails already queued keep the
    /// content they were queued with.
    pub fn upsert_client(&mut self, client: Client) -> (r: Result<Client, EngineError>)
        requires
            old(self).wf(),
        ensures
            final(self).wf(),
            match r {
                Ok(stored) => Client::spec_problem(client@) is None && stored@ == client@ && final(self)@
                    == (EngineView {
                    catalog: Catalog {
                        clients: upserted::<Client>(old(self)@.catalog.clients, client@),
                        ..old(self)@.catalog
                    },
                    ..old(self)@
                }),
                Err(e) => Client::spec_problem(client@) is Some && e == EngineError::Validation(
                    Client::spec_problem(client@)->0,
                ) && final(self)@ == old(self)@,
            },
    {
        self.clients.upsert(client)
    }

    /// Adds an interaction to a client's history. An interaction older
    /// than the client's last one is rejected and nothing changes.
    pub fn record_interaction(&mut self, client_id: u64, interaction: Interaction) -> (r: Result<
        Client,
        EngineError,
    >)
        requires
            old(self).wf(),
        ensures
            final(self).wf(),
            match r {
                Ok(stored) => has_id::<Client>(old(self)@.catalog.clients, client_id)
                    && chronological(
                    with_interaction(
                        old(self)@.catalog.clients[index_of::<Client>(
                            old(self)@.catalog.clients,
                            client_id,
                        )],
                        interaction,
                    ).interactions,
                ) && stored@ == with_interaction(
                    old(self)@.catalog.clients[index_of::<Client>(
                        old(self)@.catalog.clients,
                        client_id,
                    )],
                    interaction,
                ) && final(self)@ == (EngineView {
                    catalog: Catalog {
                        clients: old(self)@.catalog.clients.update(
                            index_of::<Client>(old(self)@.catalog.clients, client_id),
                            stored@,
                        ),
                        ..old(self)@.catalog
                    },
                    ..old(self)@
                }),
                Err(e) => final(self)@ == old(self)@ && if !has_id::<Client>(
                    old(self)@.catalog.clients,
                    client_id,
                ) {
                    e == EngineError::NotFound
                } else {
                    !chronological(
                        with_interaction(
                            old(self)@.catalog.clients[index_of::<Client>(
                                old(self)@.catalog.clients,
                                client_id,
                            )],
                            interaction,
                        ).interactions,
                    ) && e == EngineError::Validation(ValidationReason::InteractionsOutOfOrder)
                },
            },
    {
        let mut client = match self.clients.get(client_id) {
            Ok(client) => client,
            Err(e) => {
                return Err(e);
            },
        };
        let ghost before = client@;
        client.interactions.push(interaction);
        proof {
            assert(Client::spec_problem(before) is None);
            assert(client@ == with_interaction(before, interaction));
            assert(Client::spec_id(client@) == client_id);
        }
        self.clients.upsert(client)
    }

    /// Archives a client and cancels the client's emails that are pending
    /// or waiting for a retry. An email that is being sent is left to
    /// finish.
    pub fn archive_client(&mut self, id: u64, now: u64) -> (r: Result<(), EngineError>)
        requires
            old(self).wf(),
        ensures
            final(self).wf(),
            lawful_step(old(self)@.queue, final(self)@.queue),
            match r {
                Ok(_) => has_id::<Client>(old(self)@.catalog.clients, id) && final(self)@ == (
                EngineView {
                    catalog: Catalog {
                        clients: old(self)@.catalog.clients.update(
                            index_of::<Client>(old(self)@.catalog.clients, id),
                            Client::spec_archive(
                                old(self)@.catalog.clients[index_of::<Client>(
                                    old(self)@.catalog.clients,
                                    id,
                                )],
                            ),
                        ),
                        ..old(self)@.catalog
                    },
                    queue: old(self)@.queue.map_values(
                        |v: QueuedEmailView| cancel_one_for(v, id, now),
                    ),
                    ..old(self)@
                }),
                Err(e) => !has_id::<Client>(old(self)@.catalog.clients, id) && e
                    == EngineError::NotFound && final(self)@ == old(self)@,
            },
    {
        match self.clients.archive(id) {
            Ok(_) => {
                self.queue.cancel_for_client(id, now);
                Ok(())
            },
            Err(e) => Err(e),
        }
    }

    /// The templates that pass the filter.
    pub fn list_templates(&self, filter: ListFilter) -> (r: Vec<Template>)
        ensures
            views(r@) == listed::<Template>(self@.catalog.templates, filter),
    {
        self.templates.list(filter)
    }

    /// Inserts or replaces a template. Emails already queued keep the
    /// content they were queued with.
    pub fn upsert_template(&mut self, template: Template) -> (r: Result<Template, EngineError>)
        requires
            old(self).wf(),
        ensures
            final(self).wf(),
            match r {
                Ok(stored) => Template::spec_problem(template@) is None && stored@ == template@
                    && final(self)@ == (EngineView {
                    catalog: Catalog {
                        templates: upserted::<Template>(old(self)@.catalog.templates, template@),
                        ..old(self)@.catalog
                    },
                    ..old(self)@
                }),
                Err(e) => Template::spec_problem(template@) is Some && e == EngineError::Validation(
                    Template::spec_problem(template@)->0,
                ) && final(self)@ == old(self)@,
            },
    {
        self.templates.upsert(template)
    }

    /// The rules that pass the filter.
    pub fn list_rules(&self, filter: ListFilter) -> (r: Vec<FollowUpRule>)
        ensures
            r@ == listed::<FollowUpRule>(self@.catalog.rules, filter),
    {
        let r = self.rules.list(filter);
        assert(views(r@) =~= r@);
        r
    }

    /// Inserts or replaces a rule. A rule that refers to an unknown
    /// template is rejected with `NotFound` and nothing changes.
    pub fn upsert_rule(&mut self, rule: FollowUpRule) -> (r: Result<FollowUpRule, EngineError>)
        requires
            old(self).wf(),
        ensures
            final(self).wf(),
            match r {
                Ok(stored) => has_id::<Template>(old(self)@.catalog.templates, rule.template_id)
                    && stored == rule && final(self)@ == (EngineView {
                    catalog: Catalog {
                        rules: upserted::<FollowUpRule>(old(self)@.catalog.rules, rule),
                        ..old(self)@.catalog
                    },
                    ..old(self)@
                }),
                Err(e) => !has_id::<Template>(old(self)@.catalog.templates, rule.template_id) && e
                    == EngineError::NotFound && final(self)@ == old(self)@,
            },
    {
        match self.templates.position(rule.template_id) {
            Some(_) => self.rules.upsert(rule),
            None => Err(EngineError::NotFound),
        }
    }

    /// The queued emails in the given state, or all of them.
    pub fn list_queue(&self, filter: Option<EmailState>) -> (r: Vec<QueuedEmail>)
        ensures
            views(r@) == self@.queue.filter(|v: QueuedEmailView| in_state(v, filter)),
    {
        self.queue.list(filter)
    }

    /// Cancels a queued email that is pending or waiting for a retry.
    pub fn cancel_queued(&mut self, id: u64, now: u64) -> (r: Result<(), EngineError>)
        requires
            old(self).wf(),
        ensures
            final(self).wf(),
            lawful_step(old(self)@.queue, final(self)@.queue),
            match r {
                Ok(_) => id < old(self)@.queue.len() && cancellable(old(self)@.queue[id as int].state)
                    && final(self)@ == (EngineView {
                    queue: old(self)@.queue.update(
                        id as int,
                        cancelled(old(self)@.queue[id as int], now),
                    ),
                    ..old(self)@
                }),
                Err(e) => final(self)@ == old(self)@ && if id >= old(self)@.queue.len() {
                    e == EngineError::NotFound
                } else if old(self)@.queue[id as int].state is Sending {
                    e == EngineError::Validation(ValidationReason::InFlight)
                } else {
                    is_terminal(old(self)@.queue[id as int].state) && e == EngineError::Validation(
                        ValidationReason::AlreadyTerminal,
                    )
                },
            },
    {
        self.queue.cancel(id, now)
    }

    /// Puts an abandoned email back in line, with its attempt count
    /// reset.
    pub fn retry_now(&mut self, id: u64, now: u64) -> (r: Result<(), EngineError>)
        requires
            old(self).wf(),
        ensures
            final(self).wf(),
            match r {
                Ok(_) => id < old(self)@.queue.len() && old(self)@.queue[id as int].state is Abandoned
                    && final(self)@ == (EngineView {
                    queue: old(self)@.queue.update(
                        id as int,
                        retried(old(self)@.queue[id as int], now),
                    ),
                    ..old(self)@
                }),
                Err(e) => final(self)@ == old(self)@ && if id >= old(self)@.queue.len() {
                    e == EngineError::NotFound
                } else {
                    !(old(self)@.queue[id as int].state is Abandoned) && e
                        == EngineError::Validation(ValidationReason::NotAbandoned)
                },
            },
    {
        self.queue.retry_now(id, now)
    }

    /// The delivery attempts that answer the query, oldest first.
    pub fn get_audit_history(&self, query: AuditQuery) -> (r: Vec<DeliveryAttempt>)
        ensures
            views(r@) == self@.audit.filter(|a: DeliveryAttemptView| answers(a, query)),
    {
        self.audit.history(query)
    }

    /// The recovery sweep, to be run at startup: every email that has been
    /// in `Sending` for longer than the recovery timeout goes back to
    /// `Retrying`, due at once. Its attempt count stays, and the audit log
    /// gets no record. Returns how many emails were requeued.
    pub fn recover_stuck(&mut self, now: u64) -> (count: usize)
        requires
            old(self).wf(),
        ensures
            final(self).wf(),
            lawful_step(old(self)@.queue, final(self)@.queue),
            final(self)@ == (EngineView {
                queue: old(self)@.queue.map_values(
                    |v: QueuedEmailView| recover_one(v, now, old(self)@.config.recovery_timeout),
                ),
                ..old(self)@
            }),
            count == old(self)@.queue.filter(
                |v: QueuedEmailView| stuck(v, now, old(self)@.config.recovery_timeout),
            ).len(),
    {
        let timeout = self.config.recovery_timeout;
        self.queue.recover_stuck(now, timeout)
    }

    /// Claims the next email for a delivery worker, if emails are handed
    /// out at `now` and one is eligible. The email moves to `Sending`.
    pub fn claim_next(&mut self, now: u64) -> (r: Option<QueuedEmail>)
        requires
            old(self).wf(),
        ensures
            final(self).wf(),
            lawful_step(old(self)@.queue, final(self)@.queue),
            match r {
                Some(item) => sending_allowed(old(self)@.config, now) && claims_first(
                    old(self)@.queue,
                    now,
                    item.id as int,
                ) && final(self)@ == (EngineView {
                    queue: old(self)@.queue.update(
                        item.id as int,
                        claimed(old(self)@.queue[item.id as int], now),
                    ),
                    ..old(self)@
                }) && item@ == final(self)@.queue[item.id as int],
                None => final(self)@ == old(self)@ && (sending_allowed(old(self)@.config, now)
                    ==> forall|j: int|
                    0 <= j < old(self)@.queue.len() ==> !eligible(
                        #[trigger] old(self)@.queue[j],
                        now,
                    )),
            },
    {
        if !self.config.allows_sending(now) {
            return None;
        }
        self.queue.claim_next(now)
    }

    /// Records what came of sending a claimed email: appends the attempt
    /// to the audit log and moves the email to its next state, in one
    /// step. `seed` is a random number for the jitter. Returns the new
    /// state. For an unknown identifier, or an email that is not being
    /// sent, nothing changes.
    pub fn record_outcome(
        &mut self,
        id: u64,
        outcome: SendOutcome,
        detail: String,
        now: u64,
        seed: u64,
    ) -> (r: Result<EmailState, EngineError>)
        requires
            old(self).wf(),
        ensures
            final(self).wf(),
            lawful_step(old(self)@.queue, final(self)@.queue),
            match r {
                Ok(state) => id < old(self)@.queue.len() && old(self)@.queue[id as int].state is Sending
                    && final(self)@ == (EngineView {
                    queue: old(self)@.queue.update(
                        id as int,
                        after_outcome(
                            old(self)@.queue[id as int],
                            outcome,
                            now,
                            policy_of(old(self)@.config),
                            seed,
                        ),
                    ),
                    audit: old(self)@.audit.push(
                        attempt_record(old(self)@.queue[id as int], outcome, detail@, now),
                    ),
                    ..old(self)@
                }) && state == final(self)@.queue[id as int].state,
                Err(e) => final(self)@ == old(self)@ && if id >= old(self)@.queue.len() {
                    e == EngineError::NotFound
                } else {
                    !(old(self)@.queue[id as int].state is Sending) && e
                        == EngineError::Validation(ValidationReason::NotSending)
                },
            },
    {
        let before = match self.queue.get(id) {
            Ok(item) => item,
            Err(e) => {
                return Err(e);
            },
        };
        let policy = self.config.retry_policy();
        match self.queue.complete(id, outcome, now, policy, seed) {
            Ok(state) => {
                let number = if before.attempts < u32::MAX {
                    before.attempts + 1
                } else {
                    before.attempts
                };
                self.audit.append(
                    DeliveryAttempt {
                        email_id: before.id,
                        event: before.event,
                        attempt_number: number,
                        at: now,
                        outcome,
                        detail,
                    },
                );
                Ok(state)
            },
            Err(e) => Err(e),
        }
    }
}

impl Engine {
    /// Queues the email for one due event of the client at position `c`,
    /// unless the event was answered before or cannot be answered.
    fn schedule_event(&mut self, c: usize, e: FollowUpEvent, now: u64) -> (added: bool)
        requires
            old(self).wf(),
            c < old(self)@.catalog.clients.len(),
            !old(self)@.catalog.clients[c as int].archived,
            is_due(old(self)@.catalog.clients[c as int], old(self)@.catalog.rules, now, e),
        ensures
            final(self).wf(),
            added == newly_due(old(self)@, now, e),
            final(self)@ == (EngineView {
                queue: if added {
                    old(self)@.queue.push(
                        materialized(old(self)@.catalog, now, e, old(self)@.queue.len() as u64),
                    )
                } else {
                    old(self)@.queue
                },
                ..old(self)@
            }),
    {
        let ghost cat = self@.catalog;
        proof {
            let witness = choose|r: int|
                0 <= r < cat.rules.len() && crate::rules::contributes(
                    cat.clients[c as int],
                    #[trigger] cat.rules[r],
                    now,
                    e,
                );
            assert(Client::spec_id(cat.clients[c as int]) == e.client_id);
            assert(has_id::<Client>(cat.clients, e.client_id));
            assert(index_of::<Client>(cat.clients, e.client_id) == c);
            assert(FollowUpRule::spec_id(cat.rules[witness]) == e.rule_id);
            assert(has_id::<FollowUpRule>(cat.rules, e.rule_id));
            assert(index_of::<FollowUpRule>(cat.rules, e.rule_id) == witness);
        }
        if self.queue.contains_event(e) || self.audit.has_sent(e) {
            return false;
        }
        let r = match self.rules.position(e.rule_id) {
            Some(r) => r,
            None => {
                return false;
            },
        };
        let rule = *self.rules.at(r);
        let t = match self.templates.position(rule.template_id) {
            Some(t) => t,
            None => {
                return false;
            },
        };
        let template = self.templates.at(t);
        if !template.active {
            return false;
        }
        let client = self.clients.at(c);
        let subject = render(template.subject.as_str(), client.name.as_str(), client.email.as_str());
        let body = render(template.body.as_str(), client.name.as_str(), client.email.as_str());
        let recipient = client.email.clone();
        match self.queue.enqueue(e, recipient, subject, body, now) {
            Some(_) => true,
            None => false,
        }
    }

    /// Queues the emails for the due events of the client at position `c`.
    fn schedule_client(&mut self, c: usize, now: u64) -> (added: usize)
        requires
            old(self).wf(),
            c < old(self)@.catalog.clients.len(),
        ensures
            final(self).wf(),
            final(self)@ == (EngineView { queue: final(self)@.queue, ..old(self)@ }),
            old(self)@.queue.len() <= final(self)@.queue.len(),
            final(self)@.queue.take(old(self)@.queue.len() as int) == old(self)@.queue,
            added == final(self)@.queue.len() - old(self)@.queue.len(),
            forall|i: int|
                old(self)@.queue.len() <= i < final(self)@.queue.len() ==> newly_due(
                    old(self)@,
                    now,
                    (#[trigger] final(self)@.queue[i]).event,
                ) && final(self)@.queue[i] == materialized(
                    old(self)@.catalog,
                    now,
                    final(self)@.queue[i].event,
                    i as u64,
                ),
            forall|e: FollowUpEvent|
                newly_due(old(self)@, now, e) && e.client_id == old(self)@.catalog.clients[c as int].id
                    ==> has_event(final(self)@.queue, e),
    {
        let ghost pre = self@;
        let ghost cat = self@.catalog;
        let ghost me = cat.clients[c as int];
        if self.clients.at(c).archived {
            assert(self@.queue.take(pre.queue.len() as int) =~= pre.queue);
            assert forall|e: FollowUpEvent| newly_due(pre, now, e) && e.client_id == me.id implies has_event(
                self@.queue,
                e,
            ) by {
                assert(Client::spec_id(me) == e.client_id);
                assert(index_of::<Client>(cat.clients, e.client_id) == c);
            }
            return 0;
        }
        let rules = self.rules.records();
        assert(views(rules@) =~= rules@);
        let events = due_events(self.clients.at(c), rules, now);
        let start = self.queue.len();
        let mut k: usize = 0;
        assert(self@.queue.take(pre.queue.len() as int) =~= pre.queue);
        while k < events.len()
            invariant
                k <= events.len(),
                c < cat.clients.len(),
                self.wf(),
                pre.catalog == cat,
                me == cat.clients[c as int],
                !me.archived,
                self@ == (EngineView { queue: self@.queue, ..pre }),
                pre.queue.len() <= self@.queue.len(),
                self@.queue.take(pre.queue.len() as int) == pre.queue,
                start == pre.queue.len(),
                forall|e: FollowUpEvent| events@.contains(e) <==> is_due(me, cat.rules, now, e),
                forall|i: int|
                    pre.queue.len() <= i < self@.queue.len() ==> newly_due(
                        pre,
                        now,
                        (#[trigger] self@.queue[i]).event,
                    ) && self@.queue[i] == materialized(cat, now, self@.queue[i].event, i as u64),
                forall|j: int|
                    0 <= j < k && newly_due(pre, now, #[trigger] events@[j]) ==> has_event(
                        self@.queue,
                        events@[j],
                    ),
            decreases events.len() - k,
        {
            let e = events[k];
            let ghost cur = self@;
            assert(events@.contains(e));
            let was_added = self.schedule_event(c, e, now);
            proof {
                let q = self@.queue;
                assert(q.take(cur.queue.len() as int) =~= cur.queue);
                assert(q.take(pre.queue.len() as int) =~= pre.queue);
                if was_added {
                    assert(!has_event(pre.queue, e)) by {
                        if has_event(pre.queue, e) {
                            lemma_has_event_grows(pre.queue, cur.queue, e);
                        }
                    }
                    assert(q[cur.queue.len() as int].event == e);
                    assert(has_event(q, e));
                } else {
                    if newly_due(pre, now, e) {
                        assert(has_event(cur.queue, e));
                    }
                }
                assert forall|j: int| 0 <= j < k + 1 && newly_due(pre, now, #[trigger] events@[j]) implies has_event(
                    q,
                    events@[j],
                ) by {
                    if j < k {
                        lemma_has_event_grows(cur.queue, q, events@[j]);
                    }
                }
            }
            k = k + 1;
        }
        proof {
            assert forall|e: FollowUpEvent| newly_due(pre, now, e) && e.client_id == me.id implies has_event(
                self@.queue,
                e,
            ) by {
                assert(Client::spec_id(me) == e.client_id);
                assert(index_of::<Client>(cat.clients, e.client_id) == c);
                let r = index_of::<FollowUpRule>(cat.rules, e.rule_id);
                assert(crate::rules::contributes(me, cat.rules[r], now, e));
                assert(is_due(me, cat.rules, now, e));
                assert(events@.contains(e));
                let j = choose|j: int| 0 <= j < events@.len() && events@[j] == e;
                assert(newly_due(pre, now, events@[j]));
            }
        }
        self.queue.len() - start
    }

    /// Runs the scheduler at `now`: queues one email for every event that
    /// is due for a client that is not archived, can be answered, and was
    /// not answered before. Returns the number of emails queued. The
    /// exclusive borrow keeps two runs from overlapping.
    pub fn run_scheduler_now(&mut self, now: u64) -> (count: usize)
        requires
            old(self).wf(),
        ensures
            final(self).wf(),
            scheduled(old(self)@, final(self)@, now, count as int),
            lawful_step(old(self)@.queue, final(self)@.queue),
    {
        let ghost pre = self@;
        let ghost cat = self@.catalog;
        let start = self.queue.len();
        let mut c: usize = 0;
        assert(self@.queue.take(pre.queue.len() as int) =~= pre.queue);
        while c < self.clients.len()
            invariant
                c <= cat.clients.len(),
                cat.clients.len() == self.clients@.len(),
                self.wf(),
                pre.catalog == cat,
                self@ == (EngineView { queue: self@.queue, ..pre }),
                pre.queue.len() <= self@.queue.len(),
                self@.queue.take(pre.queue.len() as int) == pre.queue,
                start == pre.queue.len(),
                forall|i: int|
                    pre.queue.len() <= i < self@.queue.len() ==> newly_due(
                        pre,
                        now,
                        (#[trigger] self@.queue[i]).event,
                    ) && self@.queue[i] == materialized(cat, now, self@.queue[i].event, i as u64),
                forall|e: FollowUpEvent|
                    newly_due(pre, now, e) && index_of::<Client>(cat.clients, e.client_id) < c
                        ==> has_event(self@.queue, e),
            decreases cat.clients.len() - c,
        {
            let ghost cur = self@;
            self.schedule_client(c, now);
            proof {
                let q = self@.queue;
                assert(q.take(pre.queue.len() as int) =~= pre.queue) by {
                    assert forall|i: int| 0 <= i < pre.queue.len() implies q[i] == pre.queue[i] by {
                        assert(q.take(cur.queue.len() as int)[i] == q[i]);
                        assert(cur.queue.take(pre.queue.len() as int)[i] == cur.queue[i]);
                    }
                }
                assert forall|i: int| pre.queue.len() <= i < q.len() implies newly_due(
                    pre,
                    now,
                    (#[trigger] q[i]).event,
                ) && q[i] == materialized(cat, now, q[i].event, i as u64) by {
                    if i < cur.queue.len() {
                        assert(q.take(cur.queue.len() as int)[i] == q[i]);
                    } else {
                        assert(newly_due(cur, now, q[i].event));
                        if has_event(pre.queue, q[i].event) {
                            lemma_has_event_grows(pre.queue, cur.queue, q[i].event);
                        }
                    }
                }
                assert forall|e: FollowUpEvent|
                    newly_due(pre, now, e) && index_of::<Client>(cat.clients, e.client_id) < c
                        + 1 implies has_event(q, e) by {
                    if index_of::<Client>(cat.clients, e.client_id) < c {
                        lemma_has_event_grows(cur.queue, q, e);
                    } else {
                        assert(Client::spec_id(cat.clients[c as int]) == e.client_id);
                        if newly_due(cur, now, e) {
                        } else {
                            assert(has_event(cur.queue, e));
                            lemma_has_event_grows(cur.queue, q, e);
                        }
                    }
                }
            }
            c = c + 1;
        }
        self.last_run = Some(now);
        self.queue.len() - start
    }

    /// Runs the scheduler if the interval since the last run has passed.
    /// Returns the number of emails queued, or `None` where no run was
    /// due.
    pub fn scheduler_tick(&mut self, now: u64) -> (r: Option<usize>)
        requires
            old(self).wf(),
        ensures
            final(self).wf(),
            lawful_step(old(self)@.queue, final(self)@.queue),
            match r {
                Some(count) => run_due(old(self)@.config, old(self)@.last_run, now) && scheduled(
                    old(self)@,
                    final(self)@,
                    now,
                    count as int,
                ),
                None => !run_due(old(self)@.config, old(self)@.last_run, now) && final(self)@
                    == old(self)@,
            },
    {
        if self.config.is_run_due(self.last_run, now) {
            Some(self.run_scheduler_now(now))
        } else {
            None
        }
    }
}

} // verus!
