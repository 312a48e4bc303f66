//! The traffic of a limited server: packets whose handling goes on side by side, and whose tokens
//! come out of one limiter.

use vstd::prelude::*;

use crate::client;
use crate::client::{Event, Rules, Stage};
use crate::net_packet::NetPacket;
use crate::rate_limiter;

verus! {

/// Something that happened to one of the packets.
pub ghost struct Move<E> {
    /// Which packet.
    pub packet: int,
    /// What happened to it.
    pub event: Event<E>,
    /// When, in nanoseconds.
    pub now: nat,
    /// The tokens that came in since the limiter's last refill.
    pub credit: nat,
}

/// What happened to one packet.
pub open spec fn events_of<E>(moves: Seq<Move<E>>, packet: int) -> Seq<Event<E>>
    decreases moves.len(),
{
    if moves.len() == 0 {
        Seq::empty()
    } else {
        let before = events_of(moves.drop_last(), packet);
        if moves.last().packet == packet {
            before.push(moves.last().event)
        } else {
            before
        }
    }
}

/// How far a packet has come.
pub open spec fn stage_of<E>(traffic: Seq<Rules>, moves: Seq<Move<E>>, packet: int) -> Stage<E> {
    traffic[packet].stage_after(events_of(moves, packet))
}

/// Whether the last of the moves is an answer of the limiter.
pub open spec fn limiter_answers<E>(traffic: Seq<Rules>, moves: Seq<Move<E>>) -> bool {
    let m = moves.last();
    let stage = stage_of(traffic, moves.drop_last(), m.packet);
    (stage is Admit || stage is Pay) && (m.event is Granted || m.event is Refused)
}

/// What the limiter was asked for.
pub open spec fn requests_of<E>(traffic: Seq<Rules>, moves: Seq<Move<E>>) -> Seq<
    rate_limiter::Request,
>
    decreases moves.len(),
{
    if moves.len() == 0 {
        Seq::empty()
    } else {
        let before = requests_of(traffic, moves.drop_last());
        let m = moves.last();
        if limiter_answers(traffic, moves) {
            before.push(
                rate_limiter::Request {
                    size: traffic[m.packet].size as nat,
                    now: m.now,
                    credit: m.credit,
                },
            )
        } else {
            before
        }
    }
}

/// Whether the moves are those of a server with one limiter, which started as `bucket`: tokens are
/// granted if the limiter grants them, and a packet to one client selects at most one receiver.
pub open spec fn follows<E>(
    bucket: rate_limiter::Bucket,
    traffic: Seq<Rules>,
    moves: Seq<Move<E>>,
) -> bool
    decreases moves.len(),
{
    moves.len() > 0 ==> {
        let before = moves.drop_last();
        let m = moves.last();
        let rules = traffic[m.packet];
        &&& follows(bucket, traffic, before)
        &&& 0 <= m.packet < traffic.len()
        &&& limiter_answers(traffic, moves) ==> (m.event is Granted
            == rate_limiter::after_requests(bucket, requests_of(traffic, before)).grants(
            rules.size as nat,
            m.now,
            m.credit,
        ))
        &&& stage_of(traffic, before, m.packet) is Select && !rules.to_all
            ==> (m.event matches Event::Selected { count } ==> count <= 1)
    }
}

/// The bytes of IPv4 that were forwarded of the first `n` packets, every copy counted.
pub open spec fn forwarded<E>(traffic: Seq<Rules>, moves: Seq<Move<E>>, n: nat) -> nat
    decreases n,
{
    if n == 0 {
        0
    } else {
        let i = n - 1;
        forwarded(traffic, moves, (n - 1) as nat) + if traffic[i].ip_turn {
            traffic[i].sent(events_of(moves, i)).len() * traffic[i].size as nat
        } else {
            0
        }
    }
}

/// The bytes that the first `n` packets took tokens for.
spec fn paid<E>(traffic: Seq<Rules>, moves: Seq<Move<E>>, n: nat) -> nat
    decreases n,
{
    if n == 0 {
        0
    } else {
        let i = n - 1;
        paid(traffic, moves, (n - 1) as nat) + traffic[i].payments(events_of(moves, i))
            * traffic[i].size as nat
    }
}

/// The bytes that tokens were taken for grow by those of the packet that was granted tokens.
proof fn lemma_paid_step<E>(traffic: Seq<Rules>, moves: Seq<Move<E>>, n: nat)
    requires
        moves.len() > 0,
        0 <= moves.last().packet,
    ensures
        paid(traffic, moves, n) == paid(traffic, moves.drop_last(), n) + if moves.last().packet < n
            && limiter_answers(traffic, moves) && moves.last().event is Granted {
            traffic[moves.last().packet].size as nat
        } else {
            0
        },
    decreases n,
{
    if n > 0 {
        lemma_paid_step(traffic, moves, (n - 1) as nat);
        let i = n - 1;
        let before = events_of(moves.drop_last(), i);
        if moves.last().packet == i {
            assert(events_of(moves, i).drop_last() =~= before);
            let k = traffic[i].payments(before);
            let size = traffic[i].size as nat;
            assert((k + 1) * size == k * size + size) by (nonlinear_arith);
        }
    }
}

/// What the packets took tokens for is what the limiter granted.
proof fn lemma_paid_is_granted<E>(
    bucket: rate_limiter::Bucket,
    traffic: Seq<Rules>,
    moves: Seq<Move<E>>,
)
    requires
        follows(bucket, traffic, moves),
    ensures
        paid(traffic, moves, traffic.len()) == rate_limiter::granted(
            bucket,
            requests_of(traffic, moves),
        ),
    decreases moves.len(),
{
    let requests = requests_of(traffic, moves);
    if moves.len() > 0 {
        lemma_paid_is_granted(bucket, traffic, moves.drop_last());
        lemma_paid_step(traffic, moves, traffic.len());
        if limiter_answers(traffic, moves) {
            assert(requests.drop_last() =~= requests_of(traffic, moves.drop_last()));
        }
    } else {
        lemma_nothing_paid(traffic, moves, traffic.len());
    }
}

/// Before anything happens, no tokens are taken.
proof fn lemma_nothing_paid<E>(traffic: Seq<Rules>, moves: Seq<Move<E>>, n: nat)
    requires
        moves.len() == 0,
    ensures
        paid(traffic, moves, n) == 0,
    decreases n,
{
    if n > 0 {
        lemma_nothing_paid(traffic, moves, (n - 1) as nat);
        let size = traffic[n - 1].size as nat;
        assert(0 * size == 0) by (nonlinear_arith);
    }
}

/// A packet to one client selects at most one receiver.
proof fn lemma_one_receiver<E>(
    bucket: rate_limiter::Bucket,
    traffic: Seq<Rules>,
    moves: Seq<Move<E>>,
    packet: int,
)
    requires
        follows(bucket, traffic, moves),
        !traffic[packet].to_all,
    ensures
        traffic[packet].selected(events_of(moves, packet)) matches Some(count) ==> count <= 1,
    decreases moves.len(),
{
    if moves.len() > 0 {
        lemma_one_receiver(bucket, traffic, moves.drop_last(), packet);
        if moves.last().packet == packet {
            assert(events_of(moves, packet).drop_last() =~= events_of(moves.drop_last(), packet));
        }
    }
}

/// No more bytes are forwarded than tokens were taken for.
proof fn lemma_forwarded_is_paid<E>(
    bucket: rate_limiter::Bucket,
    traffic: Seq<Rules>,
    moves: Seq<Move<E>>,
    n: nat,
)
    requires
        follows(bucket, traffic, moves),
        n <= traffic.len(),
        forall|i: int| 0 <= i < traffic.len() ==> (#[trigger] traffic[i]).limited,
    ensures
        forwarded(traffic, moves, n) <= paid(traffic, moves, n),
    decreases n,
{
    if n > 0 {
        lemma_forwarded_is_paid(bucket, traffic, moves, (n - 1) as nat);
        let i = n - 1;
        let rules = traffic[i];
        let events = events_of(moves, i);
        if rules.ip_turn {
            if !rules.to_all {
                lemma_one_receiver(bucket, traffic, moves, i);
            }
            client::law_every_copy_is_paid(rules, events);
            let sent = rules.sent(events).len();
            let payments = rules.payments(events);
            let size = rules.size as nat;
            assert(sent * size <= payments * size) by (nonlinear_arith)
                requires
                    sent <= payments,
            ;
        }
    }
}

/// The last refill is no later than the moves.
proof fn lemma_bucket<E>(
    bucket: rate_limiter::Bucket,
    traffic: Seq<Rules>,
    moves: Seq<Move<E>>,
    end: nat,
)
    requires
        bucket.wf(),
        bucket.last_refill <= end,
        forall|i: int| 0 <= i < moves.len() ==> (#[trigger] moves[i]).now <= end,
    ensures
        rate_limiter::after_requests(bucket, requests_of(traffic, moves)).last_refill <= end,
    decreases moves.len(),
{
    if moves.len() > 0 {
        let before = moves.drop_last();
        assert forall|i: int| 0 <= i < before.len() implies (#[trigger] before[i]).now <= end by {
            assert(before[i] == moves[i]);
        }
        lemma_bucket(bucket, traffic, before, end);
        assert(moves[moves.len() - 1] == moves.last());
        if limiter_answers(traffic, moves) {
            assert(requests_of(traffic, moves).drop_last() =~= requests_of(traffic, before));
        }
    }
}

/// The rules that a handler has for packets; the first part of each pair says whether the sender
/// has joined a network.
pub open spec fn traffic_of(
    handler: client::HandlerModel,
    packets: Seq<(bool, NetPacket)>,
) -> Seq<Rules> {
    Seq::new(packets.len(), |i: int| handler.rules(packets[i].0, packets[i].1))
}

/// The data bytes of the copies that were forwarded of the first `n` packets, of those that carry
/// IPv4.
pub open spec fn forwarded_data<E>(
    handler: client::HandlerModel,
    packets: Seq<(bool, NetPacket)>,
    moves: Seq<Move<E>>,
    n: nat,
) -> nat
    decreases n,
{
    if n == 0 {
        0
    } else {
        let packet = packets[n - 1].1;
        let copies = handler.rules(packets[n - 1].0, packet).sent(events_of(moves, n - 1)).len();
        forwarded_data(handler, packets, moves, (n - 1) as nat) + if packet.buffer@.len() > 0
            && packet.buffer@[0] == handler.numbers.ip_turn {
            copies * packet.data_len as nat
        } else {
            0
        }
    }
}

/// The bytes that are counted are the data bytes of the packets.
proof fn lemma_forwarded_data<E>(
    handler: client::HandlerModel,
    packets: Seq<(bool, NetPacket)>,
    moves: Seq<Move<E>>,
    n: nat,
)
    requires
        n <= packets.len(),
    ensures
        forwarded_data(handler, packets, moves, n) == forwarded(
            traffic_of(handler, packets),
            moves,
            n,
        ),
    decreases n,
{
    if n > 0 {
        lemma_forwarded_data(handler, packets, moves, (n - 1) as nat);
    }
}

/// A limited server keeps its limit: with its own limiter, and where every credit is earned at
/// `num / den` bytes per second, the data bytes of IPv4 that it forwards, every copy counted, are
/// no more than the limit and what that rate makes of the time that passed.
pub proof fn law_limit_is_kept<E>(
    handler: client::HandlerModel,
    packets: Seq<(bool, NetPacket)>,
    moves: Seq<Move<E>>,
    start: nat,
    end: nat,
    num: nat,
    den: nat,
)
    requires
        handler.wf(),
        handler.limiter is Some,
        start <= end,
        forall|i: int| 0 <= i < moves.len() ==> (#[trigger] moves[i]).now <= end,
        follows(handler.bucket(start), traffic_of(handler, packets), moves),
        rate_limiter::earned(
            handler.bucket(start),
            requests_of(traffic_of(handler, packets), moves),
            num,
            den,
        ),
    ensures
        forwarded(traffic_of(handler, packets), moves, packets.len()) * (den * rate_limiter::NANOS)
            <= handler.limiter->0 * (den * rate_limiter::NANOS) + num * (end - start),
        forwarded_data(handler, packets, moves, packets.len()) * (den * rate_limiter::NANOS)
            <= handler.limiter->0 * (den * rate_limiter::NANOS) + num * (end - start),
{
    lemma_forwarded_data(handler, packets, moves, packets.len());
    let traffic = traffic_of(handler, packets);
    let bucket = handler.bucket(start);
    let requests = requests_of(traffic, moves);
    client::lemma_bucket_wf(handler, start);
    lemma_forwarded_is_paid(bucket, traffic, moves, packets.len());
    lemma_paid_is_granted(bucket, traffic, moves);
    rate_limiter::law_fractional_rate_is_kept(bucket, requests, num, den);
    lemma_bucket(bucket, traffic, moves, end);
    let f = forwarded(traffic, moves, packets.len());
    let g = rate_limiter::granted(bucket, requests);
    let scale = (den * rate_limiter::NANOS) as nat;
    let last = rate_limiter::after_requests(bucket, requests).last_refill;
    assert(f * scale <= g * scale) by (nonlinear_arith)
        requires
            f <= g,
    ;
    assert(num * (last - start) <= num * (end - start)) by (nonlinear_arith)
        requires
            last <= end,
    ;
}

/// A packet of IPv4 that is longer than the limit is never sent, and takes no tokens. If it is
/// alive, its sender has joined a network, and its fingerprint was found right where that is
/// checked, then it waits for its tokens, whatever happens.
pub proof fn law_oversized_packet_waits<E>(
    handler: client::HandlerModel,
    packets: Seq<(bool, NetPacket)>,
    moves: Seq<Move<E>>,
    start: nat,
    packet: int,
)
    requires
        handler.wf(),
        0 <= packet < packets.len(),
        handler.limiter matches Some(limit) && packets[packet].1.data_len > limit,
        packets[packet].1.buffer@.len() > 0,
        packets[packet].1.buffer@[0] == handler.numbers.ip_turn,
        follows(handler.bucket(start), traffic_of(handler, packets), moves),
    ensures
        ({
            let rules = handler.rules(packets[packet].0, packets[packet].1);
            let linked = packets[packet].0;
            let ttl = packets[packet].1.ttl;
            let events = events_of(moves, packet);
            &&& rules.sent(events).len() == 0
            &&& rules.payments(events) == 0
            &&& linked && ttl > 1 ==> rules.stage_after(events) !is Done
            &&& linked && ttl > 1 && (handler.config.check_finger ==> events.contains(
                Event::FingerAccepted,
            ) && forall|e: E| !events.contains(Event::FingerRejected(e))) ==> {
                ||| rules.stage_after(events) is Admit
                ||| rules.stage_after(events) is AdmitPause
            }
        }),
{
    lemma_oversized(handler, packets, moves, start, packet);
    let rules = traffic_of(handler, packets)[packet];
    let events = events_of(moves, packet);
    if let Stage::Failed(client::ForwardError::Finger(e)) = rules.stage_after(events) {
        client::law_refused_reaches_no_one(rules, events);
        assert(events.contains(Event::FingerRejected(e)));
    }
    if let Stage::Failed(client::ForwardError::Disconnect) = rules.stage_after(events) {
        client::law_refused_reaches_no_one(rules, events);
    }
}

/// How far a packet of IPv4 comes that is longer than the limit.
proof fn lemma_oversized<E>(
    handler: client::HandlerModel,
    packets: Seq<(bool, NetPacket)>,
    moves: Seq<Move<E>>,
    start: nat,
    packet: int,
)
    requires
        handler.wf(),
        0 <= packet < packets.len(),
        handler.limiter matches Some(limit) && traffic_of(handler, packets)[packet].size > limit,
        traffic_of(handler, packets)[packet].ip_turn,
        follows(handler.bucket(start), traffic_of(handler, packets), moves),
    ensures
        ({
            let rules = traffic_of(handler, packets)[packet];
            let events = events_of(moves, packet);
            let stage = rules.stage_after(events);
            &&& rules.sent(events).len() == 0
            &&& rules.payments(events) == 0
            &&& stage is Admit || stage is AdmitPause || stage is Finger || stage is Failed
                || stage is Done
            &&& stage is Done ==> rules.ttl <= 1
            &&& stage is Finger ==> rules.check_finger && !events.contains(Event::FingerAccepted)
        }),
    decreases moves.len(),
{
    let traffic = traffic_of(handler, packets);
    let bucket = handler.bucket(start);
    let rules = traffic[packet];
    if moves.len() > 0 {
        let before = moves.drop_last();
        lemma_oversized(handler, packets, before, start, packet);
        let m = moves.last();
        if m.packet == packet {
            let events = events_of(moves, packet);
            let earlier = events_of(before, packet);
            assert(events.drop_last() =~= earlier);
            if limiter_answers(traffic, moves) {
                let requests = requests_of(traffic, before);
                let now = rate_limiter::after_requests(bucket, requests);
                client::lemma_bucket_wf(handler, start);
                rate_limiter::law_no_more_than_credited(bucket, requests);
                rate_limiter::law_oversized_is_refused(now, rules.size as nat, m.now, m.credit);
            }
            if rules.stage_after(events) is Finger && events.contains(Event::FingerAccepted) {
                let i = choose|i: int|
                    0 <= i < events.len() && events[i] == Event::<E>::FingerAccepted;
                if i < earlier.len() {
                    assert(earlier[i] == events[i]);
                    assert(earlier.contains(Event::FingerAccepted));
                }
            }
        }
    }
}

} // verus!
