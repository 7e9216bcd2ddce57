//! External events pushed into an agent session, and the topic
//! subscriptions that decide which of them are injected.
//!
//! Topics use glob patterns for subscription matching (e.g. `"github.*"`,
//! `"ci.*"`, `"*"`).
use vstd::prelude::*;

use crate::message::Message;
use crate::pattern::{glob_match, glob_matches};
use crate::text::{chars_of, extend_str, string_of};

verus! {

/// A single topic subscription pattern.
#[derive(Debug, Clone)]
pub struct Subscription {
    /// Glob pattern (e.g. `"github.*"`, `"ci.alerts"`). An empty string or
    /// `"*"` matches every topic.
    pub topic: String,
}

/// An event pushed from outside into the agent session.
#[derive(Debug, Clone)]
pub struct ExternalEvent {
    /// Topic used for subscription matching.
    pub topic: String,
    /// Free-form payload text injected into the agent's context.
    pub payload: String,
}

/// `topic` matches the subscription pattern: `*` and the empty pattern match
/// everything, any other pattern as a glob.
pub open spec fn subscription_matches(pattern: Seq<char>, topic: Seq<char>) -> bool {
    pattern == "*"@ || pattern.len() == 0 || glob_match(pattern, topic)
}

/// Some subscription accepts `topic`; with no subscriptions nothing is accepted.
pub open spec fn accepted(subs: Seq<Subscription>, topic: Seq<char>) -> bool {
    exists|i: int| 0 <= i < subs.len() && subscription_matches((#[trigger] subs[i]).topic@, topic)
}

/// Whether some subscription accepts `topic`.
pub fn topic_matches(subscriptions: &Vec<Subscription>, topic: &str) -> (r: bool)
    ensures
        r == accepted(subscriptions@, topic@),
{
    let star = chars_of("*");
    let mut i: usize = 0;
    while i < subscriptions.len()
        invariant
            i <= subscriptions.len(),
            star@ == "*"@,
            forall|j: int|
                0 <= j < i ==> !subscription_matches((#[trigger] subscriptions@[j]).topic@, topic@),
        decreases subscriptions.len() - i,
    {
        let pattern = subscriptions[i].topic.as_str();
        let pv = chars_of(pattern);
        if crate::text::seq_eq(pv.as_slice(), star.as_slice()) || pv.len() == 0 || glob_matches(
            pattern,
            topic,
        ) {
            assert(subscription_matches(subscriptions@[i as int].topic@, topic@));
            return true;
        }
        i = i + 1;
    }
    false
}

/// The events whose topic some subscription accepts, in arrival order.
pub open spec fn accepted_events(subs: Seq<Subscription>, events: Seq<ExternalEvent>) -> Seq<
    ExternalEvent,
>
    decreases events.len(),
{
    if events.len() == 0 {
        seq![]
    } else if accepted(subs, events.last().topic@) {
        accepted_events(subs, events.drop_last()).push(events.last())
    } else {
        accepted_events(subs, events.drop_last())
    }
}

/// Keep the incoming events whose topic matches a subscription, in order.
pub fn filter_incoming(subscriptions: &Vec<Subscription>, incoming: Vec<ExternalEvent>) -> (r: Vec<
    ExternalEvent,
>)
    ensures
        r@ == accepted_events(subscriptions@, incoming@),
{
    let ghost all = incoming@;
    let mut rest = incoming;
    let mut rev: Vec<ExternalEvent> = Vec::new();
    while rest.len() > 0
        invariant
            rev@.len() + rest@.len() == all.len(),
            rest@ == all.take(rest@.len() as int),
            forall|k: int| 0 <= k < rev@.len() ==> rev@[k] == all[all.len() - 1 - k],
        decreases rest.len(),
    {
        let e = rest.pop().unwrap();
        rev.push(e);
    }
    let mut out: Vec<ExternalEvent> = Vec::new();
    assert(all.take(0) =~= Seq::<ExternalEvent>::empty());
    while rev.len() > 0
        invariant
            rev@.len() <= all.len(),
            forall|k: int| 0 <= k < rev@.len() ==> rev@[k] == all[all.len() - 1 - k],
            out@ == accepted_events(subscriptions@, all.take(all.len() - rev@.len())),
        decreases rev.len(),
    {
        let ghost done = all.len() - rev@.len();
        let e = rev.pop().unwrap();
        assert(all.take(done + 1).drop_last() =~= all.take(done));
        assert(all.take(done + 1).last() == e);
        if topic_matches(subscriptions, e.topic.as_str()) {
            out.push(e);
        }
    }
    assert(all.take(all.len() as int) =~= all);
    out
}

/// The system message an accepted event is injected as.
pub open spec fn event_text(e: ExternalEvent) -> Seq<char> {
    "<external-event topic=\""@ + e.topic@ + "\">\n"@ + e.payload@ + "\n</external-event>"@
}

/// Convert an accepted event into a system message for the conversation.
pub fn to_system_message(event: &ExternalEvent) -> (r: Message)
    ensures
        r.is_text(crate::message::Role::System, event_text(*event)),
{
    let mut t: Vec<char> = Vec::new();
    extend_str(&mut t, "<external-event topic=\"");
    extend_str(&mut t, event.topic.as_str());
    extend_str(&mut t, "\">\n");
    extend_str(&mut t, event.payload.as_str());
    extend_str(&mut t, "\n</external-event>");
    let s = string_of(t.as_slice());
    Message::system(s.as_str())
}

} // verus!
