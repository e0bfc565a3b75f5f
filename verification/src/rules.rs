//! The rule engine: which follow-up events are due for a client at a
//! given instant. Evaluation is pure: the same inputs give the same
//! events.

use crate::model::{Anchor, Client, ClientView, FollowUpEvent, FollowUpRule, Interaction, Recurrence};
use vstd::prelude::*;

verus! {

/// Whether the client had an interaction of the given kind at `key`.
pub open spec fn anchored(s: Seq<Interaction>, kind: u32, key: u64) -> bool {
    exists|i: int| 0 <= i < s.len() && #[trigger] s[i] == (Interaction { at: key, kind })
}

/// Whether no interaction of the given kind is later than `key`.
pub open spec fn latest(s: Seq<Interaction>, kind: u32, key: u64) -> bool {
    forall|j: int| 0 <= j < s.len() && (#[trigger] s[j]).kind == kind ==> s[j].at <= key
}

/// Whether `key` is an instant the rule counts from for this client. A
/// rule anchored at intake counts from the intake. A rule anchored at a
/// kind of interaction counts from every interaction of that kind if it
/// repeats, and from the latest one only if it does not.
pub open spec fn qualifies(client: ClientView, rule: FollowUpRule, key: u64) -> bool {
    match rule.anchor {
        Anchor::Intake => key == client.intake_at,
        Anchor::Interaction(kind) => anchored(client.interactions, kind, key) && (
        rule.recurrence is OneShot ==> latest(client.interactions, kind, key)),
    }
}

/// Whether the rule's occurrence with the given key is due at `as_of`: the
/// rule is active, the key is one it counts from, and the offset has
/// passed.
pub open spec fn occurrence_due(
    client: ClientView,
    rule: FollowUpRule,
    key: u64,
    as_of: u64,
) -> bool {
    rule.active && qualifies(client, rule, key) && key + rule.offset <= as_of
}

/// Whether the event is a due occurrence of this rule for this client.
pub open spec fn contributes(
    client: ClientView,
    rule: FollowUpRule,
    as_of: u64,
    e: FollowUpEvent,
) -> bool {
    e.client_id == client.id && e.rule_id == rule.id && occurrence_due(
        client,
        rule,
        e.occurrence_key,
        as_of,
    )
}

/// Whether the event is due under one of the first `n` rules.
pub open spec fn is_due_within(
    client: ClientView,
    rules: Seq<FollowUpRule>,
    as_of: u64,
    e: FollowUpEvent,
    n: int,
) -> bool {
    exists|r: int| 0 <= r < n && r < rules.len() && contributes(client, #[trigger] rules[r], as_of, e)
}

/// Whether the event is due for the client at `as_of` under the rules.
pub open spec fn is_due(
    client: ClientView,
    rules: Seq<FollowUpRule>,
    as_of: u64,
    e: FollowUpEvent,
) -> bool {
    is_due_within(client, rules, as_of, e, rules.len() as int)
}

/// Whether the offset after `key` has passed at `as_of`.
fn offset_passed(key: u64, offset: u64, as_of: u64) -> (r: bool)
    ensures
        r == (key + offset <= as_of),
{
    offset <= as_of && key <= as_of - offset
}

/// Appends an event unless it is already there.
fn push_unique(out: &mut Vec<FollowUpEvent>, e: FollowUpEvent)
    requires
        old(out)@.no_duplicates(),
    ensures
        final(out)@.no_duplicates(),
        forall|x: FollowUpEvent| final(out)@.contains(x) <==> old(out)@.contains(x) || x == e,
{
    let mut i: usize = 0;
    while i < out.len()
        invariant
            i <= out.len(),
            out@ == old(out)@,
            out@.no_duplicates(),
            forall|j: int| 0 <= j < i ==> out@[j] != e,
        decreases out.len() - i,
    {
        if out[i] == e {
            assert(out@.contains(e));
            return ;
        }
        i = i + 1;
    }
    out.push(e);
    proof {
        let before = old(out)@;
        let after = out@;
        assert(after == before.push(e));
        assert(after[before.len() as int] == e);
        assert forall|x: FollowUpEvent| after.contains(x) <==> before.contains(x) || x == e by {
            if before.contains(x) {
                let k = choose|k: int| 0 <= k < before.len() && before[k] == x;
                assert(after[k] == x);
            }
            if after.contains(x) {
                let k = choose|k: int| 0 <= k < after.len() && after[k] == x;
                if k < before.len() {
                    assert(before[k] == x);
                }
            }
        }
    }
}

/// The instant of the latest interaction of the given kind.
fn latest_of_kind(s: &Vec<Interaction>, kind: u32) -> (r: Option<u64>)
    ensures
        match r {
            Some(t) => anchored(s@, kind, t) && latest(s@, kind, t),
            None => forall|j: int| 0 <= j < s.len() ==> (#[trigger] s@[j]).kind != kind,
        },
{
    let mut best: Option<u64> = None;
    let mut i: usize = 0;
    while i < s.len()
        invariant
            i <= s.len(),
            match best {
                Some(t) => anchored(s@, kind, t) && forall|j: int|
                    0 <= j < i && (#[trigger] s@[j]).kind == kind ==> s@[j].at <= t,
                None => forall|j: int| 0 <= j < i ==> (#[trigger] s@[j]).kind != kind,
            },
        decreases s.len() - i,
    {
        let x = s[i];
        if x.kind == kind {
            let better = match best {
                Some(t) => x.at > t,
                None => true,
            };
            if better {
                best = Some(x.at);
                assert(s@[i as int] == (Interaction { at: x.at, kind }));
            }
        }
        i = i + 1;
    }
    best
}

/// Adds the due occurrences of one rule for the client.
fn add_rule_events(client: &Client, rule: &FollowUpRule, as_of: u64, out: &mut Vec<FollowUpEvent>)
    requires
        old(out)@.no_duplicates(),
    ensures
        final(out)@.no_duplicates(),
        forall|e: FollowUpEvent|
            final(out)@.contains(e) <==> old(out)@.contains(e) || contributes(
                client@,
                *rule,
                as_of,
                e,
            ),
{
    if !rule.active {
        return ;
    }
    match rule.anchor {
        Anchor::Intake => {
            if offset_passed(client.intake_at, rule.offset, as_of) {
                push_unique(
                    out,
                    FollowUpEvent {
                        client_id: client.id,
                        rule_id: rule.id,
                        occurrence_key: client.intake_at,
                    },
                );
            }
        },
        Anchor::Interaction(kind) => {
            match rule.recurrence {
                Recurrence::OneShot => {
                    match latest_of_kind(&client.interactions, kind) {
                        Some(t) => {
                            assert forall|key: u64| qualifies(client@, *rule, key) implies key
                                == t by {
                                let i = choose|i: int|
                                    0 <= i < client@.interactions.len()
                                        && #[trigger] client@.interactions[i] == (Interaction {
                                        at: key,
                                        kind,
                                    });
                                let k = choose|k: int|
                                    0 <= k < client@.interactions.len()
                                        && #[trigger] client@.interactions[k] == (Interaction {
                                        at: t,
                                        kind,
                                    });
                                assert(client@.interactions[i].kind == kind);
                                assert(client@.interactions[k].kind == kind);
                            }
                            if offset_passed(t, rule.offset, as_of) {
                                push_unique(
                                    out,
                                    FollowUpEvent {
                                        client_id: client.id,
                                        rule_id: rule.id,
                                        occurrence_key: t,
                                    },
                                );
                            }
                        },
                        None => {
                            assert forall|key: u64| !qualifies(client@, *rule, key) by {
                                if anchored(client@.interactions, kind, key) {
                                    let i = choose|i: int|
                                        0 <= i < client@.interactions.len()
                                            && #[trigger] client@.interactions[i] == (Interaction {
                                            at: key,
                                            kind,
                                        });
                                    assert(client@.interactions[i].kind == kind);
                                }
                            }
                        },
                    }
                },
                Recurrence::Repeating => {
                    let mut i: usize = 0;
                    while i < client.interactions.len()
                        invariant
                            i <= client.interactions.len(),
                            rule.active,
                            rule.anchor == Anchor::Interaction(kind),
                            rule.recurrence is Repeating,
                            out@.no_duplicates(),
                            forall|e: FollowUpEvent|
                                out@.contains(e) <==> old(out)@.contains(e) || (contributes(
                                    client@,
                                    *rule,
                                    as_of,
                                    e,
                                ) && anchored(
                                    client@.interactions.take(i as int),
                                    kind,
                                    e.occurrence_key,
                                )),
                        decreases client.interactions.len() - i,
                    {
                        let x = client.interactions[i];
                        let ghost shorter = client@.interactions.take(i as int);
                        let ghost longer = client@.interactions.take(i + 1);
                        let ghost before = out@;
                        let cand = FollowUpEvent {
                            client_id: client.id,
                            rule_id: rule.id,
                            occurrence_key: x.at,
                        };
                        let hit = x.kind == kind && offset_passed(x.at, rule.offset, as_of);
                        if hit {
                            push_unique(out, cand);
                        }
                        proof {
                            assert(longer[i as int] == x);
                            assert forall|key: u64|
                                anchored(longer, kind, key) <==> anchored(shorter, kind, key) || (
                                x.kind == kind && x.at == key) by {
                                if anchored(shorter, kind, key) {
                                    let k = choose|k: int|
                                        0 <= k < shorter.len() && #[trigger] shorter[k] == (
                                        Interaction { at: key, kind });
                                    assert(longer[k] == shorter[k]);
                                }
                                if anchored(longer, kind, key) {
                                    let k = choose|k: int|
                                        0 <= k < longer.len() && #[trigger] longer[k] == (
                                        Interaction { at: key, kind });
                                    if k < i {
                                        assert(shorter[k] == longer[k]);
                                    }
                                }
                            }
                            if hit {
                                assert(client@.interactions[i as int] == (Interaction {
                                    at: x.at,
                                    kind,
                                }));
                                assert(anchored(client@.interactions, kind, x.at));
                                assert(contributes(client@, *rule, as_of, cand));
                            }
                            assert forall|e: FollowUpEvent|
                                out@.contains(e) <==> old(out)@.contains(e) || (contributes(
                                    client@,
                                    *rule,
                                    as_of,
                                    e,
                                ) && anchored(longer, kind, e.occurrence_key)) by {
                                if contributes(client@, *rule, as_of, e) && x.kind == kind && x.at
                                    == e.occurrence_key {
                                    assert(e == cand);
                                    assert(hit);
                                }
                            }
                        }
                        i = i + 1;
                    }
                    assert(client@.interactions.take(client@.interactions.len() as int)
                        =~= client@.interactions);
                },
            }
        },
    }
}

/// Extending the rules considered by one adds that rule's occurrences.
proof fn lemma_due_within_step(
    client: ClientView,
    rules: Seq<FollowUpRule>,
    as_of: u64,
    e: FollowUpEvent,
    n: int,
)
    requires
        0 <= n < rules.len(),
    ensures
        is_due_within(client, rules, as_of, e, n + 1) <==> is_due_within(client, rules, as_of, e, n)
            || contributes(client, rules[n], as_of, e),
{
    if is_due_within(client, rules, as_of, e, n + 1) {
        let r = choose|r: int|
            0 <= r < n + 1 && r < rules.len() && contributes(client, #[trigger] rules[r], as_of, e);
        if r < n {
            assert(is_due_within(client, rules, as_of, e, n));
        }
    }
    if is_due_within(client, rules, as_of, e, n) {
        let r = choose|r: int|
            0 <= r < n && r < rules.len() && contributes(client, #[trigger] rules[r], as_of, e);
        assert(0 <= r < n + 1);
    }
    if contributes(client, rules[n], as_of, e) {
        assert(is_due_within(client, rules, as_of, e, n + 1));
    }
}

/// The events that are due for the client at `as_of` under the rules: each
/// of them once, and no other.
pub fn due_events(client: &Client, rules: &Vec<FollowUpRule>, as_of: u64) -> (out: Vec<
    FollowUpEvent,
>)
    ensures
        out@.no_duplicates(),
        forall|e: FollowUpEvent| out@.contains(e) <==> is_due(client@, rules@, as_of, e),
{
    let mut out: Vec<FollowUpEvent> = Vec::new();
    let mut n: usize = 0;
    while n < rules.len()
        invariant
            n <= rules.len(),
            out@.no_duplicates(),
            forall|e: FollowUpEvent|
                out@.contains(e) <==> is_due_within(client@, rules@, as_of, e, n as int),
        decreases rules.len() - n,
    {
        let ghost before = out@;
        add_rule_events(client, &rules[n], as_of, &mut out);
        proof {
            assert forall|e: FollowUpEvent|
                out@.contains(e) <==> is_due_within(client@, rules@, as_of, e, n + 1) by {
                lemma_due_within_step(client@, rules@, as_of, e, n as int);
            }
        }
        n = n + 1;
    }
    out
}

} // verus!
