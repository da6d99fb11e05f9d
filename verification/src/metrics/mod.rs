//! Metrics: folding the MQTT engine's meter reports into counter updates.
//! The Prometheus registry itself lives outside this library.

use vstd::prelude::*;

verus! {

/// One meter report of the MQTT engine.
pub enum MeterEvent {
    /// Router totals since the previous report.
    Router { total_connections: usize, total_publishes: usize, failed_publishes: usize },
    /// One active subscription, with the publishes routed to its filter
    /// since the previous report.
    Subscription { routed_publishes: usize },
}

/// How a batch of meter reports changes the metrics.
pub struct MetricsUpdate {
    /// New value of the active connections gauge, if a router report came.
    pub connections_active: Option<i64>,
    /// Increment of the received messages counter.
    pub messages_received_inc: u64,
    /// Increment of the failed messages counter.
    pub messages_failed_inc: u64,
    /// Increment of the sent messages counter: publishes routed to subscriptions.
    pub messages_sent_inc: u64,
    /// New value of the active subscriptions gauge, if any subscription was reported.
    pub subscriptions_active: Option<i64>,
}

/// The connection count of the last router report, if any.
pub open spec fn last_connections(events: Seq<MeterEvent>) -> Option<i64>
    decreases events.len(),
{
    if events.len() == 0 {
        None
    } else {
        match events.last() {
            MeterEvent::Router { total_connections, .. } => Some(#[verifier::truncate] (total_connections as i64)),
            MeterEvent::Subscription { .. } => last_connections(events.drop_last()),
        }
    }
}

/// Sum of the publishes of the router reports, modulo 2^64.
pub open spec fn publishes_sum(events: Seq<MeterEvent>) -> u64
    decreases events.len(),
{
    if events.len() == 0 {
        0
    } else {
        let prev = publishes_sum(events.drop_last());
        match events.last() {
            MeterEvent::Router { total_publishes, .. } => prev.wrapping_add(total_publishes as u64),
            MeterEvent::Subscription { .. } => prev,
        }
    }
}

/// Sum of the failed publishes of the router reports, modulo 2^64.
pub open spec fn failed_sum(events: Seq<MeterEvent>) -> u64
    decreases events.len(),
{
    if events.len() == 0 {
        0
    } else {
        let prev = failed_sum(events.drop_last());
        match events.last() {
            MeterEvent::Router { failed_publishes, .. } => prev.wrapping_add(failed_publishes as u64),
            MeterEvent::Subscription { .. } => prev,
        }
    }
}

/// Sum of the publishes routed to subscriptions, modulo 2^64.
pub open spec fn routed_sum(events: Seq<MeterEvent>) -> u64
    decreases events.len(),
{
    if events.len() == 0 {
        0
    } else {
        let prev = routed_sum(events.drop_last());
        match events.last() {
            MeterEvent::Router { .. } => prev,
            MeterEvent::Subscription { routed_publishes } => prev.wrapping_add(
                routed_publishes as u64,
            ),
        }
    }
}

/// Number of subscription reports.
pub open spec fn subscription_count(events: Seq<MeterEvent>) -> nat
    decreases events.len(),
{
    if events.len() == 0 {
        0
    } else {
        subscription_count(events.drop_last()) + match events.last() {
            MeterEvent::Router { .. } => 0nat,
            MeterEvent::Subscription { .. } => 1nat,
        }
    }
}

/// A count is at most the number of reports.
proof fn lemma_subscription_count_bound(events: Seq<MeterEvent>)
    ensures
        subscription_count(events) <= events.len(),
    decreases events.len(),
{
    if events.len() > 0 {
        lemma_subscription_count_bound(events.drop_last());
    }
}

/// Fold a batch of meter reports: the connection gauge takes the last
/// router report, counters add up the router reports, and the subscription
/// gauge is set to the number of subscription reports when there are any.
pub fn summarize_meters(events: &Vec<MeterEvent>) -> (res: MetricsUpdate)
    requires
        events@.len() <= i64::MAX,
    ensures
        res.connections_active == last_connections(events@),
        res.messages_received_inc == publishes_sum(events@),
        res.messages_failed_inc == failed_sum(events@),
        res.messages_sent_inc == routed_sum(events@),
        res.subscriptions_active == if subscription_count(events@) > 0 {
            Some(subscription_count(events@) as i64)
        } else {
            None::<i64>
        },
{
    let mut connections: Option<i64> = None;
    let mut received: u64 = 0;
    let mut failed: u64 = 0;
    let mut sent: u64 = 0;
    let mut subscriptions: u64 = 0;
    let mut i: usize = 0;
    while i < events.len()
        invariant
            i <= events@.len(),
            events@.len() <= i64::MAX,
            connections == last_connections(events@.take(i as int)),
            received == publishes_sum(events@.take(i as int)),
            failed == failed_sum(events@.take(i as int)),
            sent == routed_sum(events@.take(i as int)),
            subscriptions == subscription_count(events@.take(i as int)),
        decreases events@.len() - i,
    {
        proof {
            lemma_subscription_count_bound(events@.take(i as int));
            assert(events@.take(i + 1).drop_last() == events@.take(i as int));
        }
        match &events[i] {
            MeterEvent::Router { total_connections, total_publishes, failed_publishes } => {
                connections = Some(#[verifier::truncate] (*total_connections as i64));
                received = received.wrapping_add(*total_publishes as u64);
                failed = failed.wrapping_add(*failed_publishes as u64);
            },
            MeterEvent::Subscription { routed_publishes } => {
                subscriptions = subscriptions + 1;
                sent = sent.wrapping_add(*routed_publishes as u64);
            },
        }
        i = i + 1;
    }
    assert(events@.take(events@.len() as int) == events@);
    proof {
        lemma_subscription_count_bound(events@);
    }
    MetricsUpdate {
        connections_active: connections,
        messages_received_inc: received,
        messages_failed_inc: failed,
        messages_sent_inc: sent,
        subscriptions_active: if subscriptions > 0 {
            Some(subscriptions as i64)
        } else {
            None
        },
    }
}

/// Subscription reports add up over concatenated batches.
pub proof fn lemma_subscription_count_additive(a: Seq<MeterEvent>, b: Seq<MeterEvent>)
    ensures
        subscription_count(a + b) == subscription_count(a) + subscription_count(b),
    decreases b.len(),
{
    if b.len() == 0 {
        assert(a + b =~= a);
    } else {
        lemma_subscription_count_additive(a, b.drop_last());
        assert((a + b).drop_last() =~= a + b.drop_last());
    }
}

/// Every subscription report counts once, whatever it routed; router reports count for nothing.
pub proof fn lemma_subscription_count_single(e: MeterEvent)
    ensures
        subscription_count(seq![e]) == if e is Subscription {
            1nat
        } else {
            0nat
        },
{
    assert(seq![e].drop_last() =~= Seq::<MeterEvent>::empty());
    assert(subscription_count(Seq::<MeterEvent>::empty()) == 0);
    assert(seq![e].last() == e);
}

/// The subscription gauge is set to the number of subscription reports in
/// the batch, whatever they routed, and left alone when there are none.
pub proof fn lemma_subscriptions_counted(events: Seq<MeterEvent>)
    ensures
        subscription_count(events) == events.filter(|e: MeterEvent| e is Subscription).len(),
    decreases events.len(),
{
    let pred = |e: MeterEvent| e is Subscription;
    if events.len() == 0 {
        assert(events.filter(pred) =~= Seq::<MeterEvent>::empty());
    } else {
        lemma_subscriptions_counted(events.drop_last());
        assert(events.drop_last().push(events.last()) =~= events);
        events.drop_last().lemma_filter_push(events.last(), pred);
    }
}

} // verus!
