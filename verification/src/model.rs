//! The records the engine works on: clients, templates, follow-up rules
//! and the events that rules give rise to.

use crate::error::ValidationReason;
use crate::text::{check_email, is_valid_email};
use vstd::prelude::*;

verus! {

/// One logical due instance of a rule for a client. The occurrence key is
/// the instant the occurrence was computed from, so that repeated
/// occurrences of one rule for one client differ.
#[derive(Clone, Copy, Debug, PartialEq, Eq, Structural)]
pub struct FollowUpEvent {
    pub client_id: u64,
    pub rule_id: u64,
    pub occurrence_key: u64,
}

/// One contact with a client: when it happened, and of what kind.
#[derive(Clone, Copy, Debug, PartialEq, Eq, Structural)]
pub struct Interaction {
    pub at: u64,
    pub kind: u32,
}

/// What a record must offer to be kept in a [`crate::store::Store`]: an
/// identifier, an archive flag, a validity check and an exact copy.
pub trait Record: View + Sized {
    /// The record's identifier.
    spec fn spec_id(v: Self::V) -> u64;

    /// Whether the record is archived.
    spec fn spec_archived(v: Self::V) -> bool;

    /// The first reason to reject the record, if there is one.
    spec fn spec_problem(v: Self::V) -> Option<ValidationReason>;

    /// The record after archiving.
    spec fn spec_archive(v: Self::V) -> Self::V;

    /// Archiving sets the flag and touches neither the identifier nor the
    /// record's validity.
    proof fn lemma_archive(v: Self::V)
        ensures
            Self::spec_id(Self::spec_archive(v)) == Self::spec_id(v),
            Self::spec_archived(Self::spec_archive(v)),
            Self::spec_problem(Self::spec_archive(v)) == Self::spec_problem(v),
    ;

    fn id(&self) -> (r: u64)
        ensures
            r == Self::spec_id(self@),
    ;

    fn is_archived(&self) -> (r: bool)
        ensures
            r == Self::spec_archived(self@),
    ;

    fn problem(&self) -> (r: Option<ValidationReason>)
        ensures
            r == Self::spec_problem(self@),
    ;

    fn archived_copy(&self) -> (r: Self)
        ensures
            r@ == Self::spec_archive(self@),
    ;

    fn duplicate(&self) -> (r: Self)
        ensures
            r@ == self@,
    ;
}

/// A client: contact data, the instant of intake, and the interactions
/// since, oldest first.
#[derive(Debug, PartialEq, Eq)]
pub struct Client {
    pub id: u64,
    pub name: String,
    pub email: String,
    pub intake_at: u64,
    pub interactions: Vec<Interaction>,
    pub archived: bool,
}

/// The mathematical content of a [`Client`].
pub struct ClientView {
    pub id: u64,
    pub name: Seq<char>,
    pub email: Seq<char>,
    pub intake_at: u64,
    pub interactions: Seq<Interaction>,
    pub archived: bool,
}

impl View for Client {
    type V = ClientView;

    open spec fn view(&self) -> ClientView {
        ClientView {
            id: self.id,
            name: self.name@,
            email: self.email@,
            intake_at: self.intake_at,
            interactions: self.interactions@,
            archived: self.archived,
        }
    }
}

/// Interactions are in chronological order: none is older than one before
/// it.
pub open spec fn chronological(s: Seq<Interaction>) -> bool {
    forall|i: int, j: int| 0 <= i <= j < s.len() ==> s[i].at <= s[j].at
}

/// Checks that interactions are in chronological order.
pub fn check_chronological(s: &Vec<Interaction>) -> (ok: bool)
    ensures
        ok == chronological(s@),
{
    let mut i: usize = 1;
    while i < s.len()
        invariant
            1 <= i,
            forall|a: int, b: int| 0 <= a <= b < i && b < s.len() ==> s@[a].at <= s@[b].at,
        decreases s.len() - i,
    {
        if s[i - 1].at > s[i].at {
            return false;
        }
        i = i + 1;
    }
    true
}

impl Record for Client {
    open spec fn spec_id(v: ClientView) -> u64 {
        v.id
    }

    open spec fn spec_archived(v: ClientView) -> bool {
        v.archived
    }

    open spec fn spec_problem(v: ClientView) -> Option<ValidationReason> {
        if v.name.len() == 0 {
            Some(ValidationReason::EmptyName)
        } else if !is_valid_email(v.email) {
            Some(ValidationReason::InvalidEmail)
        } else if !chronological(v.interactions) {
            Some(ValidationReason::InteractionsOutOfOrder)
        } else {
            None
        }
    }

    open spec fn spec_archive(v: ClientView) -> ClientView {
        ClientView { archived: true, ..v }
    }

    proof fn lemma_archive(v: ClientView) {
    }

    fn id(&self) -> (r: u64) {
        self.id
    }

    fn is_archived(&self) -> (r: bool) {
        self.archived
    }

    fn problem(&self) -> (r: Option<ValidationReason>) {
        if self.name.as_str().is_empty() {
            Some(ValidationReason::EmptyName)
        } else if !check_email(self.email.as_str()) {
            Some(ValidationReason::InvalidEmail)
        } else if !check_chronological(&self.interactions) {
            Some(ValidationReason::InteractionsOutOfOrder)
        } else {
            None
        }
    }

    fn archived_copy(&self) -> (r: Self) {
        let mut c = self.duplicate();
        c.archived = true;
        c
    }

    fn duplicate(&self) -> (r: Self) {
        Client {
            id: self.id,
            name: self.name.clone(),
            email: self.email.clone(),
            intake_at: self.intake_at,
            interactions: self.interactions.clone(),
            archived: self.archived,
        }
    }
}

impl Clone for Client {
    fn clone(&self) -> (r: Self)
        ensures
            r@ == self@,
    {
        self.duplicate()
    }
}

/// A reusable message: a subject pattern and a body pattern, in which
/// `{name}` and `{email}` stand for the client's name and address.
#[derive(Debug, PartialEq, Eq)]
pub struct Template {
    pub id: u64,
    pub name: String,
    pub subject: String,
    pub body: String,
    pub active: bool,
}

/// The mathematical content of a [`Template`].
pub struct TemplateView {
    pub id: u64,
    pub name: Seq<char>,
    pub subject: Seq<char>,
    pub body: Seq<char>,
    pub active: bool,
}

impl View for Template {
    type V = TemplateView;

    open spec fn view(&self) -> TemplateView {
        TemplateView {
            id: self.id,
            name: self.name@,
            subject: self.subject@,
            body: self.body@,
            active: self.active,
        }
    }
}

impl Record for Template {
    open spec fn spec_id(v: TemplateView) -> u64 {
        v.id
    }

    open spec fn spec_archived(v: TemplateView) -> bool {
        !v.active
    }

    open spec fn spec_problem(v: TemplateView) -> Option<ValidationReason> {
        if v.name.len() == 0 {
            Some(ValidationReason::EmptyName)
        } else if v.subject.len() == 0 {
            Some(ValidationReason::EmptySubject)
        } else {
            None
        }
    }

    open spec fn spec_archive(v: TemplateView) -> TemplateView {
        TemplateView { active: false, ..v }
    }

    proof fn lemma_archive(v: TemplateView) {
    }

    fn id(&self) -> (r: u64) {
        self.id
    }

    fn is_archived(&self) -> (r: bool) {
        !self.active
    }

    fn problem(&self) -> (r: Option<ValidationReason>) {
        if self.name.as_str().is_empty() {
            Some(ValidationReason::EmptyName)
        } else if self.subject.as_str().is_empty() {
            Some(ValidationReason::EmptySubject)
        } else {
            None
        }
    }

    fn archived_copy(&self) -> (r: Self) {
        let mut t = self.duplicate();
        t.active = false;
        t
    }

    fn duplicate(&self) -> (r: Self) {
        Template {
            id: self.id,
            name: self.name.clone(),
            subject: self.subject.clone(),
            body: self.body.clone(),
            active: self.active,
        }
    }
}

impl Clone for Template {
    fn clone(&self) -> (r: Self)
        ensures
            r@ == self@,
    {
        self.duplicate()
    }
}

/// The instant a rule counts from.
#[derive(Clone, Copy, Debug, PartialEq, Eq, Structural)]
pub enum Anchor {
    /// The client's intake.
    Intake,
    /// An interaction of the given kind.
    Interaction(u32),
}

/// How often a rule fires for one client.
#[derive(Clone, Copy, Debug, PartialEq, Eq, Structural)]
pub enum Recurrence {
    /// Only for the latest qualifying anchor.
    OneShot,
    /// For every qualifying anchor.
    Repeating,
}

/// A follow-up rule: `offset` after the anchor, send the template.
#[derive(Clone, Copy, Debug, PartialEq, Eq, Structural)]
pub struct FollowUpRule {
    pub id: u64,
    pub template_id: u64,
    pub anchor: Anchor,
    pub offset: u64,
    pub recurrence: Recurrence,
    pub active: bool,
}

impl View for FollowUpRule {
    type V = FollowUpRule;

    open spec fn view(&self) -> FollowUpRule {
        *self
    }
}

impl Record for FollowUpRule {
    open spec fn spec_id(v: FollowUpRule) -> u64 {
        v.id
    }

    open spec fn spec_archived(v: FollowUpRule) -> bool {
        !v.active
    }

    open spec fn spec_problem(v: FollowUpRule) -> Option<ValidationReason> {
        None
    }

    open spec fn spec_archive(v: FollowUpRule) -> FollowUpRule {
        FollowUpRule { active: false, ..v }
    }

    proof fn lemma_archive(v: FollowUpRule) {
    }

    fn id(&self) -> (r: u64) {
        self.id
    }

    fn is_archived(&self) -> (r: bool) {
        !self.active
    }

    fn problem(&self) -> (r: Option<ValidationReason>) {
        None
    }

    fn archived_copy(&self) -> (r: Self) {
        FollowUpRule { active: false, ..*self }
    }

    fn duplicate(&self) -> (r: Self) {
        *self
    }
}

} // verus!
