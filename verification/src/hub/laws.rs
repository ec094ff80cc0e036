//! What a hub is for: that the rate limit holds whatever is sent, that envelopes reach
//! those who want them, and that nobody gets or changes what is not theirs.
use vstd::prelude::*;

use crate::bytes::rows_of;
use crate::hub::gossip::{passed_on, GossipKind, GossipMode, GossipModel, GossipOut, RoutingId};
use crate::hub::handler::{
    client_step, deliver_verdict, is_passing_on, is_publication, kp_answer, lemma_routing_id_at,
    may_travel, publish_verdict, routing_id_at, routing_ids, ClientAction, ClientFrame,
    GossipVerdict,
};
use crate::hub::rate_limit::{
    after_frame, after_frames, bucket_for, bucket_wf, cap_units, fresh_bucket, gain, has_token,
    in_order, law_rate_bound, limiter_after_frame, limiter_evicted, limiter_forgetting, limiter_wf,
    passed, units_at, BucketModel, LimiterModel, RateKey,
};
use crate::hub::state::{
    drained, first_frame, gossip_wires, hub_wf, is_client_delivery, is_delivery, is_telling,
    law_drained_once, law_source_skipped, live_for, offered_to, published, queue_of, rate_counted,
    subscribed, subscribers_of, taken_of, told_taken, ConnId, HubModel, SentModel, ToldModel,
};
use tokio::sync::mpsc;

verus! {

/// Of frames that come all at once to a full bucket, as many pass as it holds tokens,
/// and not one more.
pub proof fn law_burst(capacity: nat, per_minute: nat, now: nat, frames: nat)
    ensures
        passed(fresh_bucket(capacity, per_minute, now), Seq::new(frames, |i: int| now)) == if frames
            < capacity {
            frames
        } else {
            capacity
        },
{
    lemma_burst(capacity, per_minute, now, frames);
}

proof fn lemma_burst(capacity: nat, per_minute: nat, now: nat, frames: nat)
    ensures
        ({
            let b = fresh_bucket(capacity, per_minute, now);
            let times = Seq::new(frames, |i: int| now);
            let most = if frames < capacity {
                frames
            } else {
                capacity
            };
            let e = after_frames(b, times);
            &&& passed(b, times) == most
            &&& e.capacity == capacity
            &&& e.last_refill == now
            &&& capacity > 0 ==> e.units == (capacity - most) * 3_000_000_000_000
            &&& capacity == 0 ==> e.units == 3_000_000_000
        }),
    decreases frames,
{
    let b = fresh_bucket(capacity, per_minute, now);
    let times = Seq::new(frames, |i: int| now);
    if frames > 0 {
        let less = (frames - 1) as nat;
        let front = Seq::new(less, |i: int| now);
        lemma_burst(capacity, per_minute, now, less);
        assert(times.drop_last() =~= front);
        let e = after_frames(b, front);
        assert((now - now) * gain(e) == 0) by (nonlinear_arith);
        if capacity > 0 {
            let most = if less < capacity {
                less
            } else {
                capacity
            };
            assert((capacity - most) * 3_000_000_000_000 <= capacity * 3_000_000_000_000)
                by (nonlinear_arith)
                requires
                    most >= 0,
            ;
            assert(units_at(e, now) == e.units);
        }
    }
}

/// Frames that come no faster than the sustained rate all pass.
pub proof fn law_steady_frames_pass(b: BucketModel, times: Seq<nat>)
    requires
        bucket_wf(b),
        b.capacity > 0,
        b.per_minute > 0,
        forall|i: int|
            0 <= i < times.len() ==> (#[trigger] times[i] - (if i == 0 {
                b.last_refill
            } else {
                times[i - 1]
            })) * b.per_minute >= 60_000_000_000,
    ensures
        passed(b, times) == times.len(),
{
    lemma_steady_frames_pass(b, times);
}

proof fn lemma_steady_frames_pass(b: BucketModel, times: Seq<nat>)
    requires
        bucket_wf(b),
        b.capacity > 0,
        b.per_minute > 0,
        forall|i: int|
            0 <= i < times.len() ==> (#[trigger] times[i] - (if i == 0 {
                b.last_refill
            } else {
                times[i - 1]
            })) * b.per_minute >= 60_000_000_000,
    ensures
        passed(b, times) == times.len(),
        after_frames(b, times).capacity == b.capacity,
        after_frames(b, times).per_minute == b.per_minute,
        after_frames(b, times).last_refill == if times.len() == 0 {
            b.last_refill
        } else {
            times.last()
        },
    decreases times.len(),
{
    if times.len() > 0 {
        let front = times.drop_last();
        assert forall|i: int| 0 <= i < front.len() implies (#[trigger] front[i] - (if i == 0 {
            b.last_refill
        } else {
            front[i - 1]
        })) * b.per_minute >= 60_000_000_000 by {
            assert(times[i] == front[i]);
        }
        lemma_steady_frames_pass(b, front);
        let e = after_frames(b, front);
        let t = times.last();
        assert(times[times.len() - 1] == t);
        let waited = t - e.last_refill;
        assert(waited * b.per_minute >= 60_000_000_000);
        assert(waited > 0) by (nonlinear_arith)
            requires
                waited * b.per_minute >= 60_000_000_000,
                b.per_minute > 0,
        ;
        assert(waited * (b.per_minute * 50) >= 3_000_000_000_000) by (nonlinear_arith)
            requires
                waited * b.per_minute >= 60_000_000_000,
        ;
        assert(b.capacity * 3_000_000_000_000 >= 3_000_000_000_000) by (nonlinear_arith)
            requires
                b.capacity > 0,
        ;
        assert(has_token(e, t));
    }
}

/// However frames are timed, a bucket lets through at most what it holds when full and
/// what it gains in the time that they take, which is `per_minute` in a minute.
pub proof fn law_rate_in_tokens(b: BucketModel, times: Seq<nat>)
    requires
        bucket_wf(b),
        b.capacity > 0,
        b.per_minute > 0,
        in_order(b.last_refill, times),
        times.len() > 0,
    ensures
        passed(b, times) * 60_000_000_000 <= b.capacity * 60_000_000_000 + (times.last()
            - b.last_refill) * b.per_minute,
{
    law_rate_bound(b, times);
    let dt = times.last() - b.last_refill;
    assert(dt * (b.per_minute * 50) == (dt * b.per_minute) * 50) by (nonlinear_arith);
}

/// Who has sent nothing for a minute is forgotten, and only buckets that are full are:
/// those of others are as they were.
pub proof fn law_idle_are_forgotten(m: LimiterModel, key: RateKey, other: RateKey, now: nat)
    requires
        limiter_wf(m),
        m.buckets.dom().contains(key),
        m.buckets[key].last_refill + 60_000_000_000 <= now,
    ensures
        !limiter_evicted(m, now).buckets.dom().contains(key),
        !limiter_forgetting(m, key, now).buckets.dom().contains(key),
        other != key ==> limiter_forgetting(m, key, now).buckets.dom().contains(other)
            == m.buckets.dom().contains(other),
        limiter_evicted(m, now).buckets.dom().contains(other) ==> m.buckets.dom().contains(other)
            && limiter_evicted(m, now).buckets[other] == m.buckets[other],
{
    let b = m.buckets[key];
    let dt = now - b.last_refill;
    if b.per_minute > 0 {
        assert(dt * (b.per_minute * 50) >= b.per_minute * 3_000_000_000_000) by (nonlinear_arith)
            requires
                dt >= 60_000_000_000,
                b.per_minute > 0,
        ;
    } else {
        assert(dt * 3 >= 3_000_000_000);
    }
}

/// Nothing of the hub is other than before, apart from what its rate limit counts.
pub open spec fn only_counts(before: HubModel, after: HubModel) -> bool {
    &&& after.queues == before.queues
    &&& after.sent == before.sent
    &&& after.told == before.told
    &&& after.keypackages == before.keypackages
    &&& after.unsaved == before.unsaved
    &&& after.subscribers == before.subscribers
    &&& after.conns == before.conns
    &&& after.wires == before.wires
    &&& after.peers == before.peers
    &&& after.next_conn == before.next_conn
}

/// The tokens that an identity had at its last frame, and those it has gained since, do
/// not make one.
pub open spec fn is_starved(m: HubModel, key: RateKey, now: nat) -> bool {
    &&& m.limiter matches Some(l)
    &&& if l.frames_per_minute == 0 {
        true
    } else {
        &&& l.buckets.dom().contains(key)
        &&& l.buckets[key].units + (if now >= l.buckets[key].last_refill {
            (now - l.buckets[key].last_refill) * (l.frames_per_minute * 50)
        } else {
            0
        }) < 3_000_000_000_000
    }
}

/// An identity without a token has no effect: its envelopes go nowhere and wait for
/// nobody, and its key packages are not looked at.
pub proof fn law_starved_has_no_effect(
    before: HubModel,
    conn: ConnId,
    key: RateKey,
    kind: ClientFrame,
    payload: Seq<u8>,
    now: nat,
    action: ClientAction,
    after: HubModel,
)
    requires
        hub_wf(before),
        client_step(before, conn, key, kind, payload, now, action, after),
        kind == ClientFrame::Deliver || kind == ClientFrame::KpPublish,
        is_starved(before, key, now),
    ensures
        action is Ignore,
        only_counts(before, after),
{
    let l = before.limiter->0;
    let b = bucket_for(l, key, now);
    if l.frames_per_minute == 0 {
        assert(cap_units(b) < 3_000_000_000_000);
    }
}

/// A frame that was served.
pub struct Served {
    pub conn: ConnId,
    pub key: RateKey,
    pub kind: ClientFrame,
    pub payload: Seq<u8>,
    pub now: nat,
    pub action: ClientAction,
    /// The hub before it and after it.
    pub before: HubModel,
    pub after: HubModel,
}

/// The frame was served as the hub serves frames.
#[verifier::opaque]
pub open spec fn is_served(s: Served) -> bool {
    client_step(s.before, s.conn, s.key, s.kind, s.payload, s.now, s.action, s.after)
}

/// These frames were served one after the other, at times that do not run backwards, by
/// a hub that was like this at first.
pub open spec fn is_run(first: HubModel, run: Seq<Served>) -> bool
    decreases run.len(),
{
    run.len() == 0 || {
        let front = run.drop_last();
        &&& is_run(first, front)
        &&& is_served(run.last())
        &&& run.last().before == (if front.len() == 0 {
            first
        } else {
            front.last().after
        })
        &&& front.len() > 0 ==> front.last().now <= run.last().now
    }
}

/// The frame did something: it was answered, or something went out or was kept.
#[verifier::opaque]
pub open spec fn has_effect(s: Served) -> bool {
    !(s.action is Ignore) || !only_counts(s.before, s.after)
}

/// How many envelopes and key packages of an identity had an effect.
pub open spec fn effects(run: Seq<Served>, key: RateKey) -> nat
    decreases run.len(),
{
    if run.len() == 0 {
        0
    } else {
        let s = run.last();
        effects(run.drop_last(), key) + if s.key == key && (s.kind == ClientFrame::Deliver || s.kind
            == ClientFrame::KpPublish) && has_effect(s) {
            1nat
        } else {
            0nat
        }
    }
}

/// The rate limit holds whatever clients send, and in whatever order: of the envelopes
/// and key packages of one identity no more have an effect than a burst of one minute's
/// worth, and what the rate grants in the time that they take.
pub proof fn law_rate_limit_holds(first: HubModel, run: Seq<Served>, key: RateKey)
    requires
        hub_wf(first),
        is_run(first, run),
        run.len() > 0,
        first.limiter is Some,
        first.limiter->0.frames_per_minute > 0,
        first.limiter->0.buckets.dom().contains(key) ==> first.limiter->0.buckets[key].last_refill
            <= run[0].now,
    ensures
        effects(run, key) * 60_000_000_000 <= first.limiter->0.frames_per_minute * 60_000_000_000 + (
        run.last().now - run[0].now) * first.limiter->0.frames_per_minute,
{
    if first.limiter->0.buckets.dom().contains(key) {
        assert(bucket_wf(first.limiter->0.buckets[key]));
    }
    lemma_rate_limit_holds(first, run, key);
    let n = first.limiter->0.frames_per_minute;
    let dt = run.last().now - run[0].now;
    assert(dt * (n * 50) == (dt * n) * 50) by (nonlinear_arith);
}

/// What an identity can still send at once.
spec fn credit(l: LimiterModel, key: RateKey, now: nat) -> nat {
    units_at(bucket_for(l, key, now), now)
}

/// A bucket of an identity is one that the limit of `n` frames a minute grants, and was
/// refilled by then.
spec fn is_granted(l: LimiterModel, key: RateKey, n: nat, now: nat) -> bool {
    &&& l.frames_per_minute == n
    &&& l.buckets.dom().contains(key) ==> {
        let b = l.buckets[key];
        b.last_refill <= now && b.capacity == n && b.per_minute == n && b.units <= n
            * 3_000_000_000_000
    }
}

proof fn lemma_credit_grows(l: LimiterModel, key: RateKey, n: nat, start: nat, now: nat)
    requires
        n > 0,
        is_granted(l, key, n, start),
        start <= now,
    ensures
        credit(l, key, now) <= credit(l, key, start) + (now - start) * (n * 50),
        credit(l, key, now) <= n * 3_000_000_000_000,
        (now - start) * (n * 50) >= 0,
        !l.buckets.dom().contains(key) ==> credit(l, key, now) == n * 3_000_000_000_000,
{
    let won = (now - start) * (n * 50);
    assert(won >= 0) by (nonlinear_arith)
        requires
            won == (now - start) * (n * 50),
            start <= now,
    ;
    assert((now - now) * (n * 50) == 0) by (nonlinear_arith);
    assert((start - start) * (n * 50) == 0) by (nonlinear_arith);
    if l.buckets.dom().contains(key) {
        let b = l.buckets[key];
        assert((start - b.last_refill) * (n * 50) + won == (now - b.last_refill) * (n * 50))
            by (nonlinear_arith)
            requires
                won == (now - start) * (n * 50),
        ;
    }
}

proof fn lemma_credit_is_spent(l: LimiterModel, key: RateKey, n: nat, now: nat)
    requires
        n > 0,
        is_granted(l, key, n, now),
    ensures
        ({
            let after = limiter_after_frame(l, key, now);
            &&& is_granted(after, key, n, now)
            &&& after.buckets.dom().contains(key)
            &&& credit(after, key, now) + (if has_token(bucket_for(l, key, now), now) {
                3_000_000_000_000nat
            } else {
                0nat
            }) == credit(l, key, now)
        }),
{
    lemma_credit_grows(l, key, n, now, now);
    assert((now - now) * (n * 50) == 0) by (nonlinear_arith);
}

proof fn lemma_rate_limit_holds(first: HubModel, run: Seq<Served>, key: RateKey)
    requires
        is_run(first, run),
        run.len() > 0,
        first.limiter is Some,
        first.limiter->0.frames_per_minute > 0,
        is_granted(first.limiter->0, key, first.limiter->0.frames_per_minute, run[0].now),
    ensures
        ({
            let n = first.limiter->0.frames_per_minute;
            let s = run.last();
            &&& s.after.limiter is Some
            &&& is_granted(s.after.limiter->0, key, n, s.now)
            &&& !s.after.limiter->0.buckets.dom().contains(key) ==> effects(run, key) == 0
            &&& s.now >= run[0].now
            &&& effects(run, key) * 3_000_000_000_000 + credit(s.after.limiter->0, key, s.now) <= n
                * 3_000_000_000_000 + (s.now - run[0].now) * (n * 50)
        }),
    decreases run.len(),
{
    let n = first.limiter->0.frames_per_minute;
    let s = run.last();
    let front = run.drop_last();
    let t0 = run[0].now;
    let start = if front.len() == 0 {
        s.now
    } else {
        front.last().now
    };
    if front.len() == 0 {
        assert(effects(front, key) == 0);
        lemma_credit_grows(first.limiter->0, key, n, t0, t0);
    } else {
        assert(front[0] == run[0]);
        lemma_rate_limit_holds(first, front, key);
    }
    let l = s.before.limiter->0;
    lemma_credit_grows(l, key, n, start, s.now);
    assert((start - t0) * (n * 50) + (s.now - start) * (n * 50) == (s.now - t0) * (n * 50))
        by (nonlinear_arith);
    assert((s.now - t0) * (n * 50) >= 0) by (nonlinear_arith)
        requires
            s.now >= t0,
    ;
    assert(effects(front, key) * 3_000_000_000_000 + credit(l, key, s.now) <= n * 3_000_000_000_000
        + (s.now - t0) * (n * 50));
    lemma_limiter_of_step(s);
    if s.key == key && (s.kind == ClientFrame::Deliver || s.kind == ClientFrame::KpPublish) {
        lemma_credit_is_spent(l, key, n, s.now);
    } else {
        let after = s.after.limiter->0;
        assert(after.buckets.dom().contains(key) == l.buckets.dom().contains(key));
        assert(credit(after, key, s.now) == credit(l, key, s.now));
    }
}

/// What a frame does to the buckets.
proof fn lemma_limiter_of_step(s: Served)
    requires
        is_served(s),
        s.before.limiter is Some,
    ensures
        s.after.limiter == if s.kind == ClientFrame::Deliver || s.kind == ClientFrame::KpPublish {
            Some(limiter_after_frame(s.before.limiter->0, s.key, s.now))
        } else {
            s.before.limiter
        },
        (s.kind == ClientFrame::Deliver || s.kind == ClientFrame::KpPublish) && !has_token(
            bucket_for(s.before.limiter->0, s.key, s.now),
            s.now,
        ) ==> !has_effect(s),
{
    reveal(is_served);
    reveal(has_effect);
    if s.kind == ClientFrame::Subscribe {
        lemma_subscribed_limiter(s.before, s.conn, routing_ids(s.payload));
    }
}

proof fn lemma_subscribed_limiter(m: HubModel, conn: ConnId, ids: Seq<RoutingId>)
    ensures
        subscribed(m, conn, ids).limiter == m.limiter,
        subscribed(m, conn, ids).keypackages == m.keypackages,
        subscribed(m, conn, ids).sent == m.sent,
        subscribed(m, conn, ids).told == m.told,
        subscribed(m, conn, ids).conns == m.conns,
        subscribed(m, conn, ids).wires == m.wires,
        subscribed(m, conn, ids).peers == m.peers,
    decreases ids.len(),
{
    if ids.len() > 0 {
        lemma_subscribed_limiter(m, conn, ids.drop_last());
    }
}

/// This connection is open and wants envelopes for the routing id.
pub open spec fn wants(m: HubModel, conn: ConnId, id: RoutingId) -> bool {
    &&& m.conns.contains(conn)
    &&& m.subscribers.dom().contains(id)
    &&& m.subscribers[id].contains(conn)
}

/// Delivering an envelope offers it, as it is, to every open connection that wants it,
/// and to no other channel.
pub proof fn law_delivery_reaches_those_who_want_it(
    before: HubModel,
    id: RoutingId,
    payload: Seq<u8>,
    delivered: nat,
    after: HubModel,
)
    requires
        is_delivery(before, id, payload, delivered, after),
    ensures
        after.sent.len() >= before.sent.len(),
        after.sent.take(before.sent.len() as int) == before.sent,
        forall|i: int|
            before.sent.len() <= i < after.sent.len() ==> (#[trigger] after.sent[i]).payload == payload
                && exists|c: ConnId| #[trigger] wants(before, c, id) && after.sent[i].to
                == before.wires[c],
        forall|c: ConnId| #[trigger]
            wants(before, c, id) ==> exists|i: int|
                before.sent.len() <= i < after.sent.len() && (#[trigger] after.sent[i]).to
                    == before.wires[c],
{
    let n = before.sent.len() as int;
    let offers = after.sent.skip(n);
    let order = choose|order: Seq<ConnId>| #[trigger]
        offered_to(before, id, payload, order, offers);
    assert(after.sent == before.sent + offers);
    assert(after.sent.take(n) =~= before.sent);
    assert forall|i: int| n <= i < after.sent.len() implies (#[trigger] after.sent[i]).payload
        == payload && exists|c: ConnId| #[trigger] wants(before, c, id) && after.sent[i].to
        == before.wires[c] by {
        let c = order[i - n];
        assert(offers[i - n] == after.sent[i]);
        assert(order.to_set().contains(c));
        assert(live_for(before, id).contains(c));
        assert(wants(before, c, id));
    }
    assert forall|c: ConnId| #[trigger] wants(before, c, id) implies exists|i: int|
        n <= i < after.sent.len() && (#[trigger] after.sent[i]).to == before.wires[c] by {
        assert(live_for(before, id).contains(c));
        assert(order.to_set().contains(c));
        let k = choose|k: int| 0 <= k < order.len() && order[k] == c;
        assert(offers[k].to == before.wires[order[k]]);
        assert(after.sent[n + k] == offers[k]);
    }
}

/// If one of those that were offered an envelope takes it, it waits for nobody; if none
/// does, it waits behind what waits already. Nothing that is meant for other routing ids
/// changes.
pub proof fn law_delivery_waits_if_nobody_takes_it(
    before: HubModel,
    id: RoutingId,
    payload: Seq<u8>,
    delivered: nat,
    after: HubModel,
    other: RoutingId,
)
    requires
        is_delivery(before, id, payload, delivered, after),
        other != id,
    ensures
        delivered == 0 <==> forall|i: int|
            before.sent.len() <= i < after.sent.len() ==> !(#[trigger] after.sent[i]).taken,
        delivered <= after.sent.len() - before.sent.len(),
        delivered > 0 ==> after.queues == before.queues && after.unsaved == before.unsaved,
        delivered == 0 ==> after.queues.dom().contains(id) && after.queues[id] == (
        if before.queues.dom().contains(id) {
            before.queues[id].push(payload)
        } else {
            seq![payload]
        }),
        after.queues.dom().contains(other) == before.queues.dom().contains(other),
        before.queues.dom().contains(other) ==> after.queues[other] == before.queues[other],
        after.subscribers == before.subscribers,
        after.keypackages == before.keypackages,
        after.conns == before.conns,
        after.told == before.told,
        after.limiter == before.limiter,
{
    let n = before.sent.len() as int;
    let offers = after.sent.skip(n);
    assert(after.sent == before.sent + offers);
    lemma_taken(offers);
    if forall|i: int| n <= i < after.sent.len() ==> !(#[trigger] after.sent[i]).taken {
        assert forall|i: int| 0 <= i < offers.len() implies !(#[trigger] offers[i]).taken by {
            assert(offers[i] == after.sent[n + i]);
        }
    }
    if delivered == 0 {
        assert forall|i: int| n <= i < after.sent.len() implies !(#[trigger] after.sent[i]).taken by {
            assert(offers[i - n] == after.sent[i]);
        }
        if !before.queues.dom().contains(id) {
            assert(Seq::<Seq<u8>>::empty().push(payload) =~= seq![payload]);
        }
    }
}

proof fn lemma_taken(offers: Seq<SentModel>)
    ensures
        taken_of(offers) <= offers.len(),
        taken_of(offers) == 0 <==> forall|i: int|
            0 <= i < offers.len() ==> !(#[trigger] offers[i]).taken,
    decreases offers.len(),
{
    if offers.len() > 0 {
        let front = offers.drop_last();
        lemma_taken(front);
        assert(offers[offers.len() - 1] == offers.last());
        if forall|i: int| 0 <= i < offers.len() ==> !(#[trigger] offers[i]).taken {
            assert forall|i: int| 0 <= i < front.len() implies !(#[trigger] front[i]).taken by {
                assert(front[i] == offers[i]);
            }
        }
        if taken_of(offers) == 0 {
            assert forall|i: int| 0 <= i < offers.len() implies !(#[trigger] offers[i]).taken by {
                if i < front.len() {
                    assert(front[i] == offers[i]);
                }
            }
        }
    }
}

/// Two more takers count as two: the number that a delivery gives is that of the offers
/// that were taken.
pub proof fn law_takers_are_counted(offers: Seq<SentModel>, more: Seq<SentModel>)
    requires
        forall|i: int| 0 <= i < more.len() ==> (#[trigger] more[i]).taken,
    ensures
        taken_of(offers + more) == taken_of(offers) + more.len(),
    decreases more.len(),
{
    if more.len() == 0 {
        assert(offers + more =~= offers);
    } else {
        let front = more.drop_last();
        assert forall|i: int| 0 <= i < front.len() implies (#[trigger] front[i]).taken by {
            assert(front[i] == more[i]);
        }
        law_takers_are_counted(offers, front);
        assert((offers + more).drop_last() =~= offers + front);
        assert(more[more.len() - 1].taken);
    }
}

proof fn lemma_all_wires(peers: Seq<[u8; 32]>, wires: Seq<mpsc::Sender<GossipOut>>)
    requires
        wires.len() == peers.len(),
    ensures
        gossip_wires(peers, wires, None) == wires,
    decreases peers.len(),
{
    if peers.len() > 0 {
        lemma_all_wires(peers.drop_last(), wires.drop_last());
        assert(wires.drop_last().push(wires.last()) =~= wires);
    } else {
        assert(wires =~= Seq::<mpsc::Sender<GossipOut>>::empty());
    }
}

/// An envelope of a client that nobody here took goes to all other hubs, one frame to
/// each, with three hops to go; one that somebody took goes to them only where the hub
/// was told to pass on everything.
pub proof fn law_client_envelopes_are_told(
    before: HubModel,
    id: RoutingId,
    payload: Seq<u8>,
    delivered: nat,
    after: HubModel,
)
    requires
        hub_wf(before),
        is_client_delivery(before, id, payload, delivered, after),
    ensures
        after.told.len() == before.told.len() + if delivered == 0 || before.gossip_mode
            == GossipMode::Eager {
            before.peers.len()
        } else {
            0
        },
        after.told.take(before.told.len() as int) == before.told,
        forall|i: int|
            before.told.len() <= i < after.told.len() ==> {
                let t = #[trigger] after.told[i];
                &&& t.to == before.peer_wires[i - before.told.len()]
                &&& t.kind == GossipKind::Deliver
                &&& t.frame.ttl == 3
                &&& t.frame.seen_by == before.self_hash
                &&& t.frame.routing_id == id
                &&& t.frame.body == payload
            },
        exists|mid: HubModel|
            is_delivery(before, id, payload, delivered, mid) && after.queues == mid.queues
                && after.sent == mid.sent && after.keypackages == mid.keypackages
                && after.subscribers == mid.subscribers,
{
    let n = before.told.len() as int;
    let mid = choose|mid: HubModel|
        {
            &&& #[trigger] is_delivery(before, id, payload, delivered, mid)
            &&& if crate::hub::state::passes_on(before.gossip_mode, delivered) {
                exists|accepted: nat| #[trigger]
                    is_telling(
                        mid,
                        None,
                        GossipKind::Deliver,
                        first_frame(before, id, payload),
                        accepted,
                        after,
                    )
            } else {
                after == mid
            }
        };
    assert(mid.told == before.told && mid.peers == before.peers && mid.peer_wires
        == before.peer_wires);
    lemma_all_wires(before.peers, before.peer_wires);
    if crate::hub::state::passes_on(before.gossip_mode, delivered) {
        let accepted = choose|accepted: nat| #[trigger]
            is_telling(
                mid,
                None,
                GossipKind::Deliver,
                first_frame(before, id, payload),
                accepted,
                after,
            );
        let offers = after.told.skip(n);
        assert(after.told =~= before.told + offers);
        assert forall|i: int| n <= i < after.told.len() implies ({
            let t = #[trigger] after.told[i];
            &&& t.to == before.peer_wires[i - n]
            &&& t.kind == GossipKind::Deliver
            &&& t.frame == first_frame(before, id, payload)
        }) by {
            assert(offers[i - n] == after.told[i]);
        }
    }
    assert(after.told.take(n) =~= before.told);
}

/// An envelope of a client that has a token, or of any client where there is no limit,
/// is delivered, to the routing id that its first sixteen bytes are and whole. One that
/// is too short ends the session and goes nowhere.
pub proof fn law_envelope_is_routed(
    before: HubModel,
    conn: ConnId,
    key: RateKey,
    payload: Seq<u8>,
    now: nat,
    action: ClientAction,
    after: HubModel,
    id: RoutingId,
)
    requires
        client_step(before, conn, key, ClientFrame::Deliver, payload, now, action, after),
        match before.limiter {
            None => true,
            Some(l) => l.frames_per_minute > 0 && !l.buckets.dom().contains(key),
        },
        payload.len() >= 16 ==> id@ == payload.take(16),
    ensures
        payload.len() < 16 ==> action is Close && only_counts(before, after),
        payload.len() >= 16 ==> {
            &&& action matches ClientAction::Routed(n)
            &&& is_client_delivery(
                (HubModel { limiter: after.limiter, ..before }),
                id,
                payload,
                n as nat,
                after,
            )
        },
{
    if let Some(l) = before.limiter {
        let b = fresh_bucket(l.frames_per_minute, l.frames_per_minute, now);
        assert((now - now) * gain(b) == 0) by (nonlinear_arith);
        assert(l.frames_per_minute * 3_000_000_000_000 >= 3_000_000_000_000) by (nonlinear_arith)
            requires
                l.frames_per_minute > 0,
        ;
        assert(has_token(b, now));
    }
    if payload.len() >= 16 {
        assert(payload.take(16) =~= payload.subrange(0, 16));
        lemma_routing_id_at(payload, 0, id);
        let counted = rate_counted(before, key, now);
        let n = action->Routed_0 as nat;
        let mid = choose|mid: HubModel|
            {
                &&& #[trigger] is_delivery(counted, id, payload, n, mid)
                &&& if crate::hub::state::passes_on(counted.gossip_mode, n) {
                    exists|accepted: nat| #[trigger]
                        is_telling(
                            mid,
                            None,
                            GossipKind::Deliver,
                            first_frame(counted, id, payload),
                            accepted,
                            after,
                        )
                } else {
                    after == mid
                }
            };
        assert(after.limiter == counted.limiter);
        assert(counted =~= HubModel { limiter: after.limiter, ..before });
    }
}

/// Cover traffic and frames of no known kind change nothing and are not answered; a
/// request for a key package changes nothing; a subscription counts against no limit.
pub proof fn law_other_frames(
    before: HubModel,
    conn: ConnId,
    key: RateKey,
    kind: ClientFrame,
    payload: Seq<u8>,
    now: nat,
    action: ClientAction,
    after: HubModel,
    id: RoutingId,
)
    requires
        client_step(before, conn, key, kind, payload, now, action, after),
        payload.len() >= 16 ==> id@ == payload.take(16),
    ensures
        kind == ClientFrame::Pad || kind == ClientFrame::Other ==> action is Ignore && after == before,
        kind == ClientFrame::KpFetch ==> after == before && (action is Respond <==> payload.len()
            == 16) && (action is Respond || action is Ignore),
        kind == ClientFrame::Subscribe ==> after.limiter == before.limiter && (action is Close
            <==> payload.len() % 16 != 0) && (action is Flush <==> payload.len() > 0
            && payload.len() % 16 == 0),
        kind == ClientFrame::KpPublish ==> only_counts(before, after) && !(action is Close) && (
        action matches ClientAction::CheckKeyPackage { routing_id, kp } ==> routing_id == id
            && routing_id@ + kp@ == payload),
        action is Routed ==> kind == ClientFrame::Deliver,
        action is Ignore || action is Close ==> only_counts(before, after),
{
    if kind == ClientFrame::Subscribe {
        lemma_subscribed_limiter(before, conn, routing_ids(payload));
    }
    if kind == ClientFrame::KpPublish && action is CheckKeyPackage {
        assert(payload.take(16) =~= payload.subrange(0, 16));
        lemma_routing_id_at(payload, 0, id);
        assert(payload.take(16) + payload.skip(16) =~= payload);
    }
}

/// A key package that was published is what a request for it is answered with, behind a
/// zero; requests for ids without one are answered with a one alone. No other entry
/// changes, no envelope moves, and every other hub is told.
pub proof fn law_published_is_fetched(
    before: HubModel,
    id: RoutingId,
    kp: Seq<u8>,
    after: HubModel,
    other: RoutingId,
)
    requires
        hub_wf(before),
        is_publication(before, id, kp, after),
        other != id,
    ensures
        kp_answer(after, id) == seq![0u8] + kp,
        kp_answer(after, other) == kp_answer(before, other),
        !before.keypackages.dom().contains(other) ==> kp_answer(after, other) == seq![1u8],
        before.keypackages.dom().contains(other) ==> kp_answer(after, other) == seq![0u8]
            + before.keypackages[other],
        after.queues == before.queues,
        after.sent == before.sent,
        after.told.len() == before.told.len() + before.peers.len(),
        forall|i: int|
            before.told.len() <= i < after.told.len() ==> {
                let t = #[trigger] after.told[i];
                &&& t.to == before.peer_wires[i - before.told.len()]
                &&& t.kind == GossipKind::Publish
                &&& t.frame.ttl == 3
                &&& t.frame.seen_by == before.self_hash
                &&& t.frame.routing_id == id
                &&& t.frame.body == kp
            },
{
    let n = before.told.len() as int;
    let (mid, took) = choose|mid: HubModel, took: nat|
        #[trigger] is_telling(
            before,
            None,
            GossipKind::Publish,
            first_frame(before, id, kp),
            took,
            mid,
        ) && after == published(mid, id, kp);
    lemma_all_wires(before.peers, before.peer_wires);
    let offers = mid.told.skip(n);
    assert(mid.told == before.told + offers);
    assert(after.told == mid.told);
    assert forall|i: int| n <= i < after.told.len() implies ({
        let t = #[trigger] after.told[i];
        &&& t.to == before.peer_wires[i - n]
        &&& t.kind == GossipKind::Publish
        &&& t.frame == first_frame(before, id, kp)
    }) by {
        assert(offers[i - n] == after.told[i]);
    }
}

/// A request for a key package is answered from the directory entry of the id it names.
pub proof fn law_fetch_answers(
    m: HubModel,
    conn: ConnId,
    key: RateKey,
    id: RoutingId,
    now: nat,
    action: ClientAction,
    after: HubModel,
)
    requires
        client_step(m, conn, key, ClientFrame::KpFetch, id@, now, action, after),
    ensures
        action matches ClientAction::Respond(answer) && answer@ == (if m.keypackages.dom().contains(
            id,
        ) {
            seq![0u8] + m.keypackages[id]
        } else {
            seq![1u8]
        }),
{
    assert(id@.subrange(0, 16) =~= id@);
    lemma_routing_id_at(id@, 0, id);
}

/// A subscription to one more id hands out what waits for it, behind what waits for the
/// ids before it, unless it was named before: then there is nothing more.
pub proof fn law_each_queue_is_handed_out(
    m: HubModel,
    conn: ConnId,
    ids: Seq<RoutingId>,
    id: RoutingId,
)
    ensures
        drained(m, conn, Seq::empty()) == Seq::<Seq<u8>>::empty(),
        drained(m, conn, ids.push(id)) == drained(m, conn, ids) + if !ids.contains(id)
            && m.queues.dom().contains(id) {
            m.queues[id]
        } else {
            Seq::empty()
        },
{
    assert(ids.push(id).drop_last() =~= ids);
    let n = subscribed(m, conn, ids);
    if ids.contains(id) {
        law_drained_once(m, conn, ids, id);
        assert(queue_of(n, id) =~= Seq::<Seq<u8>>::empty());
    } else {
        crate::hub::state::law_other_queues_untouched(m, conn, ids, id);
    }
}

/// After a subscription the connection is among those who want envelopes for every id
/// that its blocks of sixteen bytes are, nothing waits for them any more, and whoever
/// wanted something before still does.
pub proof fn law_subscription(
    before: HubModel,
    conn: ConnId,
    key: RateKey,
    payload: Seq<u8>,
    now: nat,
    action: ClientAction,
    after: HubModel,
    i: int,
    id: RoutingId,
    who: ConnId,
    what: RoutingId,
)
    requires
        client_step(before, conn, key, ClientFrame::Subscribe, payload, now, action, after),
        payload.len() % 16 == 0,
        0 <= i < payload.len() / 16,
        id@ == payload.subrange(16 * i, 16 * i + 16),
    ensures
        after.subscribers.dom().contains(id) && after.subscribers[id].contains(conn),
        !after.queues.dom().contains(id),
        before.subscribers.dom().contains(what) && before.subscribers[what].contains(who)
            ==> after.subscribers.dom().contains(what) && after.subscribers[what].contains(who),
        after.subscribers.dom().contains(what) && after.subscribers[what].contains(who) && who
            != conn ==> before.subscribers.dom().contains(what) && before.subscribers[what].contains(
            who,
        ),
        action is Flush,
        payload.len() == 16 ==> rows_of(action->Flush_0@) == (if before.queues.dom().contains(id) {
            before.queues[id]
        } else {
            Seq::empty()
        }),
        after.keypackages == before.keypackages,
        after.sent == before.sent,
{
    let ids = routing_ids(payload);
    lemma_routing_id_at(payload, i, id);
    assert(ids[i] == id);
    lemma_subscribed_limiter(before, conn, ids);
    lemma_subscribed(before, conn, ids, id, what, who);
    if payload.len() == 16 {
        assert(ids =~= Seq::<RoutingId>::empty().push(id));
        law_each_queue_is_handed_out(before, conn, Seq::empty(), id);
        assert(!Seq::<RoutingId>::empty().contains(id));
        let waiting = if before.queues.dom().contains(id) {
            before.queues[id]
        } else {
            Seq::empty()
        };
        assert(Seq::<Seq<u8>>::empty() + waiting =~= waiting);
    }
}

proof fn lemma_subscribed(
    m: HubModel,
    conn: ConnId,
    ids: Seq<RoutingId>,
    id: RoutingId,
    what: RoutingId,
    who: ConnId,
)
    ensures
        ids.contains(id) ==> subscribed(m, conn, ids).subscribers.dom().contains(id) && subscribed(
            m,
            conn,
            ids,
        ).subscribers[id].contains(conn) && !subscribed(m, conn, ids).queues.dom().contains(id),
        subscribers_of(m, what).contains(who) ==> subscribers_of(
            subscribed(m, conn, ids),
            what,
        ).contains(who),
        subscribers_of(subscribed(m, conn, ids), what).contains(who) && who != conn
            ==> subscribers_of(m, what).contains(who),
    decreases ids.len(),
{
    if ids.len() > 0 {
        let front = ids.drop_last();
        lemma_subscribed(m, conn, front, id, what, who);
        if ids.contains(id) && ids.last() != id {
            let k = choose|k: int| 0 <= k < ids.len() && ids[k] == id;
            assert(front[k] == id);
        }
    }
}

/// What becomes of a key package that another hub tells of: it is taken exactly if it is
/// readable, was not here before and belongs to the id that it claims, and it goes on
/// exactly if it has two hops or more to go.
pub proof fn law_gossiped_key_packages(
    m: HubModel,
    frame: Option<GossipModel>,
    owner: Option<RoutingId>,
)
    ensures
        publish_verdict(m, frame, owner) is Malformed <==> frame is None,
        publish_verdict(m, frame, owner) is Taken <==> frame is Some && frame->0.seen_by
            != m.self_hash && owner is Some && owner->0 == frame->0.routing_id,
        publish_verdict(m, frame, owner) is Loop <==> frame is Some && frame->0.seen_by
            == m.self_hash,
        publish_verdict(m, frame, owner) matches GossipVerdict::Taken { forwarded } ==> (forwarded
            <==> frame->0.ttl >= 2),
{
}

/// What becomes of an envelope that another hub tells of: one that was here before goes
/// nowhere; one that may go on does if somebody here took it only where the hub was told
/// to pass on everything.
pub proof fn law_gossiped_envelopes(m: HubModel, frame: Option<GossipModel>, delivered: nat)
    ensures
        deliver_verdict(m, frame, delivered) is Malformed <==> frame is None,
        deliver_verdict(m, frame, delivered) is Taken <==> frame is Some && frame->0.seen_by
            != m.self_hash,
        deliver_verdict(m, frame, delivered) matches GossipVerdict::Taken { forwarded } ==> (
        forwarded <==> frame->0.ttl >= 2 && (delivered == 0 || m.gossip_mode == GossipMode::Eager)),
        !(deliver_verdict(m, frame, delivered) is NotOwner),
{
}

/// A frame that is passed on is the one that came, with exactly one hop less to go and
/// this hub's mark; it goes to all hubs with another key than the one it came from, and
/// nothing but what was told changes.
pub proof fn law_passing_on(
    before: HubModel,
    source: [u8; 32],
    kind: GossipKind,
    f: GossipModel,
    after: HubModel,
    j: int,
)
    requires
        hub_wf(before),
        is_passing_on(before, source, kind, f, after),
        f.ttl > 1,
        0 <= j < before.peers.len(),
    ensures
        forall|i: int|
            before.told.len() <= i < after.told.len() ==> {
                let t = #[trigger] after.told[i];
                &&& t.kind == kind
                &&& t.frame.ttl == f.ttl - 1
                &&& t.frame.seen_by == before.self_hash
                &&& t.frame.routing_id == f.routing_id
                &&& t.frame.body == f.body
            },
        before.peers[j] != source ==> exists|i: int|
            before.told.len() <= i < after.told.len() && (#[trigger] after.told[i]).to
                == before.peer_wires[j],
        after.told.take(before.told.len() as int) == before.told,
        after.queues == before.queues,
        after.sent == before.sent,
        after.keypackages == before.keypackages,
{
    let n = before.told.len() as int;
    let took = choose|took: nat| #[trigger]
        is_telling(before, Some(source), kind, passed_on(f, before.self_hash), took, after);
    let offers = after.told.skip(n);
    assert(after.told == before.told + offers);
    assert(after.told.take(n) =~= before.told);
    let wires = gossip_wires(before.peers, before.peer_wires, Some(source));
    assert forall|i: int| n <= i < after.told.len() implies ({
        let t = #[trigger] after.told[i];
        &&& t.kind == kind
        &&& t.frame == passed_on(f, before.self_hash)
        &&& t.to == wires[i - n]
    }) by {
        assert(offers[i - n] == after.told[i]);
    }
    if before.peers[j] != source {
        law_source_skipped(before.peers, before.peer_wires, source, before.peer_wires[j]);
        let k = choose|k: int| 0 <= k < wires.len() && wires[k] == before.peer_wires[j];
        assert(offers[k].to == wires[k]);
        assert(after.told[n + k] == offers[k]);
    }
}

/// An identity that has a token, or that no limit holds for, is served: its envelope is
/// routed and its key package is looked at, if they are long enough to name a routing id.
pub proof fn law_a_token_suffices(
    before: HubModel,
    conn: ConnId,
    key: RateKey,
    kind: ClientFrame,
    payload: Seq<u8>,
    now: nat,
    action: ClientAction,
    after: HubModel,
)
    requires
        hub_wf(before),
        client_step(before, conn, key, kind, payload, now, action, after),
        !is_starved(before, key, now),
        payload.len() >= 16,
    ensures
        kind == ClientFrame::Deliver ==> action is Routed,
        kind == ClientFrame::KpPublish ==> action is CheckKeyPackage && action->kp@ == payload.skip(
            16,
        ),
{
    if let Some(l) = before.limiter {
        let b = bucket_for(l, key, now);
        assert(l.frames_per_minute * 3_000_000_000_000 >= 3_000_000_000_000) by (nonlinear_arith)
            requires
                l.frames_per_minute > 0,
        ;
        if !l.buckets.dom().contains(key) {
            assert((now - now) * gain(b) == 0) by (nonlinear_arith);
        }
        assert(has_token(b, now));
    }
}

/// Everyone who wants an envelope is offered it once: there are as many offers as open
/// connections that asked for its routing id.
pub proof fn law_each_is_offered_once(
    before: HubModel,
    id: RoutingId,
    payload: Seq<u8>,
    delivered: nat,
    after: HubModel,
)
    requires
        is_delivery(before, id, payload, delivered, after),
    ensures
        before.subscribers.dom().contains(id) ==> after.sent.len() == before.sent.len()
            + before.subscribers[id].intersect(before.conns).len(),
        !before.subscribers.dom().contains(id) ==> after.sent.len() == before.sent.len(),
{
    let offers = after.sent.skip(before.sent.len() as int);
    let order = choose|order: Seq<ConnId>| #[trigger]
        offered_to(before, id, payload, order, offers);
    assert(after.sent == before.sent + offers);
    order.unique_seq_to_set();
    if !before.subscribers.dom().contains(id) {
        assert(live_for(before, id) =~= Set::<ConnId>::empty());
    }
}

/// A connection that closes takes nothing with it but itself: what waits, the directory,
/// the limits and the other connections stay.
pub proof fn law_closing_leaves_the_rest(m: HubModel, conn: ConnId, other: ConnId, id: RoutingId)
    requires
        other != conn,
    ensures
        ({
            let n = crate::hub::state::without_conn(m, conn);
            &&& n.queues == m.queues
            &&& n.keypackages == m.keypackages
            &&& n.limiter == m.limiter
            &&& n.peers == m.peers
            &&& n.sent == m.sent
            &&& n.told == m.told
            &&& n.unsaved == m.unsaved
            &&& n.next_conn == m.next_conn
            &&& n.conns.contains(other) == m.conns.contains(other)
            &&& n.wires[other] == m.wires[other]
            &&& wants(n, other, id) == wants(m, other, id)
            &&& !wants(n, conn, id)
        }),
{
}

/// The channel to a hub is the first that has its key.
pub proof fn law_outlets(outlets: Seq<crate::hub::state::PeerOutlet>, key: [u8; 32], from: int)
    requires
        0 <= from,
    ensures
        match crate::hub::state::outlet_at(outlets, key, from) {
            Some(i) => from <= i < outlets.len() && outlets[i].key == key && forall|j: int|
                from <= j < i ==> (#[trigger] outlets[j]).key != key,
            None => forall|j: int| from <= j < outlets.len() ==> (#[trigger] outlets[j]).key != key,
        },
    decreases outlets.len() - from,
{
    if from < outlets.len() && outlets[from].key != key {
        law_outlets(outlets, key, from + 1);
    }
}

/// A frame costs its identity exactly one token where there is one, and costs nobody
/// else anything.
pub proof fn law_a_frame_costs_a_token(
    m: HubModel,
    key: RateKey,
    other: RateKey,
    now: nat,
)
    requires
        hub_wf(m),
        m.limiter is Some,
        m.limiter->0.frames_per_minute > 0,
        m.limiter->0.buckets.dom().contains(key),
        m.limiter->0.buckets[key].last_refill == now,
        other != key,
    ensures
        ({
            let l = m.limiter->0;
            let n = rate_counted(m, key, now).limiter->0;
            let had = l.buckets[key].units;
            &&& n.buckets.dom().contains(key)
            &&& had >= 3_000_000_000_000 ==> n.buckets[key].units == had - 3_000_000_000_000
            &&& had < 3_000_000_000_000 ==> n.buckets[key].units == had
            &&& n.buckets.dom().contains(other) == l.buckets.dom().contains(other)
            &&& l.buckets.dom().contains(other) ==> n.buckets[other] == l.buckets[other]
            &&& n.frames_per_minute == l.frames_per_minute
        }),
{
    let b = m.limiter->0.buckets[key];
    assert((now - now) * gain(b) == 0) by (nonlinear_arith);
}

/// The number that telling the other hubs gives is that of the channels that took the frame.
pub proof fn law_told_hubs_are_counted(
    before: HubModel,
    source: Option<[u8; 32]>,
    kind: GossipKind,
    frame: GossipModel,
    accepted: nat,
    after: HubModel,
)
    requires
        is_telling(before, source, kind, frame, accepted, after),
    ensures
        accepted <= after.told.len() - before.told.len(),
        accepted == 0 <==> forall|i: int|
            before.told.len() <= i < after.told.len() ==> !(#[trigger] after.told[i]).taken,
        accepted == after.told.len() - before.told.len() <==> forall|i: int|
            before.told.len() <= i < after.told.len() ==> (#[trigger] after.told[i]).taken,
{
    let n = before.told.len() as int;
    let offers = after.told.skip(n);
    assert(after.told == before.told + offers);
    lemma_told_taken(offers);
    if forall|i: int| n <= i < after.told.len() ==> !(#[trigger] after.told[i]).taken {
        assert forall|i: int| 0 <= i < offers.len() implies !(#[trigger] offers[i]).taken by {
            assert(offers[i] == after.told[n + i]);
        }
    }
    if forall|i: int| n <= i < after.told.len() ==> (#[trigger] after.told[i]).taken {
        assert forall|i: int| 0 <= i < offers.len() implies (#[trigger] offers[i]).taken by {
            assert(offers[i] == after.told[n + i]);
        }
    }
    assert forall|i: int| n <= i < after.told.len() implies #[trigger] after.told[i] == offers[i
        - n] by {}
}

proof fn lemma_told_taken(offers: Seq<ToldModel>)
    ensures
        told_taken(offers) <= offers.len(),
        told_taken(offers) == 0 <==> forall|i: int|
            0 <= i < offers.len() ==> !(#[trigger] offers[i]).taken,
        told_taken(offers) == offers.len() <==> forall|i: int|
            0 <= i < offers.len() ==> (#[trigger] offers[i]).taken,
    decreases offers.len(),
{
    if offers.len() > 0 {
        let front = offers.drop_last();
        lemma_told_taken(front);
        assert(offers[offers.len() - 1] == offers.last());
        assert forall|i: int| 0 <= i < front.len() implies front[i] == #[trigger] offers[i] by {}
        if forall|i: int| 0 <= i < offers.len() ==> !(#[trigger] offers[i]).taken {
            assert forall|i: int| 0 <= i < front.len() implies !(#[trigger] front[i]).taken by {
                assert(front[i] == offers[i]);
            }
        }
        if forall|i: int| 0 <= i < offers.len() ==> (#[trigger] offers[i]).taken {
            assert forall|i: int| 0 <= i < front.len() implies (#[trigger] front[i]).taken by {
                assert(front[i] == offers[i]);
            }
        }
    }
}

/// Hubs have one channel each exactly if no two channels have the same key.
pub proof fn law_one_channel_each(outlets: Seq<crate::hub::state::PeerOutlet>)
    ensures
        crate::hub::state::one_each(outlets) <==> outlets.map_values(
            |o: crate::hub::state::PeerOutlet| o.key,
        ).no_duplicates(),
{
    let keys = outlets.map_values(|o: crate::hub::state::PeerOutlet| o.key);
    if keys.no_duplicates() {
        assert forall|i: int, j: int|
            #![trigger outlets[i], outlets[j]]
            0 <= i < j < outlets.len() implies outlets[i].key != outlets[j].key by {
            assert(keys[i] != keys[j]);
        }
    }
    if crate::hub::state::one_each(outlets) {
        assert forall|i: int, j: int|
            0 <= i < keys.len() && 0 <= j < keys.len() && i != j implies keys[i] != keys[j] by {
            assert(outlets[i].key == keys[i] && outlets[j].key == keys[j]);
        }
    }
}

} // verus!
