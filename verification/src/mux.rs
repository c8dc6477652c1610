//! The topic multiplexer's fan-out rule.
//!
//! One physical connection carries messages for many subscribers. Each
//! subscriber holds a topic filter and a private channel; a subscriber whose
//! channel has been dropped is inactive and is pruned on the next dispatch
//! pass. For every inbound message the multiplexer keeps exactly the active
//! subscriptions and delivers the message to exactly those whose filter
//! matches the topic. The channels themselves live outside the library;
//! here a subscription is its filter and whether its channel is still open.

use vstd::prelude::*;

verus! {

/// One message taken off the bus: a topic and an opaque payload.
#[derive(Debug, Clone)]
pub struct Message {
    /// The topic the message was published on
    pub topic: String,
    /// The raw payload bytes
    pub payload: Vec<u8>,
}

/// The mathematical content of a [`Message`].
pub struct MessageView {
    /// The characters of the topic
    pub topic: Seq<char>,
    /// The payload bytes
    pub payload: Seq<u8>,
}

impl View for Message {
    type V = MessageView;

    open spec fn view(&self) -> MessageView {
        MessageView { topic: self.topic@, payload: self.payload@ }
    }
}

/// One entry of the multiplexer's subscriber table.
#[derive(Debug, Clone)]
pub struct Subscription {
    /// The topic filter the subscriber asked for
    pub filter: String,
    /// Whether the subscriber's channel is still open
    pub active: bool,
}

/// Whether a topic matches a topic filter under the transport's wildcard
/// rules (`+` for one path level, `#` for any tail). The exact relation is
/// the transport library's; it depends on the two strings alone.
pub uninterp spec fn filter_matches(topic: Seq<char>, filter: Seq<char>) -> bool;

/// Relies on rumqttc::matches: whether `topic` matches the wildcard
/// `filter` is a pure function of the two strings. The matcher slices off
/// the topic's first byte to test for a leading `$`, so a non-empty topic
/// whose first character is not ASCII would make it panic: such topics are
/// excluded here.
#[verifier::external_body]
fn topic_matches(topic: &str, filter: &str) -> (r: bool)
    requires
        topic@.len() == 0 || (topic@[0] as u32) < 128,
    ensures
        r == filter_matches(topic@, filter@),
{
    rumqttc::matches(topic, filter)
}

/// What one dispatch pass does to the subscriber table: which entries
/// survive the pruning of closed subscribers, and which of them receive
/// the message.
pub struct DispatchPlan {
    /// Positions of the subscriptions to keep, in their table order
    pub keep: Vec<usize>,
    /// Positions of the subscriptions that receive the message, in table order
    pub deliver: Vec<usize>,
}

proof fn lemma_push_keeps_contains(s: Seq<usize>, x: usize)
    ensures
        forall|y: usize| s.contains(y) ==> #[trigger] s.push(x).contains(y),
        s.push(x).contains(x),
{
    assert(s.push(x)[s.len() as int] == x);
    assert forall|y: usize| s.contains(y) implies s.push(x).contains(y) by {
        let j = choose|j: int| 0 <= j < s.len() && s[j] == y;
        assert(s.push(x)[j] == y);
    }
}

/// Plans one dispatch pass for a message on `topic` over the subscriber
/// table `subs`: keep exactly the active subscriptions, and deliver the
/// message to exactly the active subscriptions whose filter matches.
///
/// The topic must be empty or start with an ASCII character: the
/// transport's matcher reads the topic's first byte, so the caller checks
/// this before planning a pass.
pub fn plan_dispatch(subs: &Vec<Subscription>, topic: &str) -> (plan: DispatchPlan)
    requires
        topic@.len() == 0 || (topic@[0] as u32) < 128,
    ensures
        forall|j: int|
            0 <= j < plan.keep@.len() ==> plan.keep@[j] < subs@.len() && subs@[plan.keep@[j] as int].active,
        forall|j1: int, j2: int|
            0 <= j1 < j2 < plan.keep@.len() ==> plan.keep@[j1] < plan.keep@[j2],
        forall|i: int|
            0 <= i < subs@.len() && subs@[i].active ==> plan.keep@.contains(i as usize),
        forall|j: int|
            0 <= j < plan.deliver@.len() ==> plan.deliver@[j] < subs@.len()
                && subs@[plan.deliver@[j] as int].active
                && filter_matches(topic@, subs@[plan.deliver@[j] as int].filter@),
        forall|j1: int, j2: int|
            0 <= j1 < j2 < plan.deliver@.len() ==> plan.deliver@[j1] < plan.deliver@[j2],
        forall|i: int|
            0 <= i < subs@.len() && subs@[i].active && filter_matches(topic@, subs@[i].filter@)
                ==> plan.deliver@.contains(i as usize),
{
    let n = subs.len();
    let mut keep: Vec<usize> = Vec::new();
    let mut deliver: Vec<usize> = Vec::new();
    let mut i: usize = 0;
    while i < n
        invariant
            0 <= i <= n,
            n == subs@.len(),
            topic@.len() == 0 || (topic@[0] as u32) < 128,
            forall|j: int| 0 <= j < keep@.len() ==> keep@[j] < i && subs@[keep@[j] as int].active,
            forall|j1: int, j2: int| 0 <= j1 < j2 < keep@.len() ==> keep@[j1] < keep@[j2],
            forall|k: int| 0 <= k < i && subs@[k].active ==> keep@.contains(k as usize),
            forall|j: int|
                0 <= j < deliver@.len() ==> deliver@[j] < i && subs@[deliver@[j] as int].active
                    && filter_matches(topic@, subs@[deliver@[j] as int].filter@),
            forall|j1: int, j2: int| 0 <= j1 < j2 < deliver@.len() ==> deliver@[j1] < deliver@[j2],
            forall|k: int|
                0 <= k < i && subs@[k].active && filter_matches(topic@, subs@[k].filter@)
                    ==> deliver@.contains(k as usize),
        decreases n - i,
    {
        if subs[i].active {
            proof {
                lemma_push_keeps_contains(keep@, i);
            }
            keep.push(i);
            if topic_matches(topic, subs[i].filter.as_str()) {
                proof {
                    lemma_push_keeps_contains(deliver@, i);
                }
                deliver.push(i);
            }
        }
        i = i + 1;
    }
    DispatchPlan { keep, deliver }
}

} // verus!
