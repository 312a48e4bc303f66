//! The path of a client's packet: whether, when and to whom it is forwarded.

use std::collections::HashMap;

use vstd::prelude::*;

use crate::config::ConfigInfo;
use crate::ipv4::Ipv4Addr;
use crate::net_packet::{NetPacket, Protocol, ProtocolNumbers};
use crate::rate_limiter;
use crate::rate_limiter::{ByteRateLimiter, RefillRate};

verus! {

/// How long to wait before asking the limiter again, in milliseconds.
pub const RETRY_MILLIS: u64 = 1;

/// Why a packet is not handled. `E` is what the check of a fingerprint says of a wrong one.
#[derive(Debug, PartialEq, Eq)]
pub enum ForwardError<E> {
    /// The sender has not joined a network.
    Disconnect,
    /// The packet's fingerprint is wrong.
    Finger(E),
}

/// A client of a network. `A` is the type of a network address, `S` that of the sending half of a
/// connection.
#[derive(Debug)]
pub struct ClientInfo<A, S> {
    pub virtual_ip: u32,
    pub online: bool,
    /// Whether the client encrypts its packets for the server.
    pub client_secret: bool,
    /// Whether this is a WireGuard client.
    pub wireguard: bool,
    pub address: A,
    pub tcp_sender: Option<S>,
}

/// The way to a client.
#[derive(Debug)]
pub enum Route<'a, A, S> {
    /// Over its connection.
    Tcp(&'a S),
    /// As a datagram to its address.
    Udp(&'a A),
}

impl<A, S> ClientInfo<A, S> {
    /// Whether a packet from `source` may go to this client: it speaks the relay's own protocol,
    /// is online, agrees with the packet on encryption, and is not the sender.
    pub open spec fn receives(self, encrypt: bool, source: u32) -> bool {
        &&& !self.wireguard
        &&& self.online
        &&& self.client_secret == encrypt
        &&& self.virtual_ip != source
    }

    /// Whether a packet from `source` may go to this client.
    pub fn can_receive(&self, encrypt: bool, source: u32) -> (r: bool)
        ensures
            r == self.receives(encrypt, source),
    {
        !self.wireguard && self.online && self.client_secret == encrypt && self.virtual_ip != source
    }
}

/// The way to a client: its connection, if it has one, or else its address.
pub fn route<'a, A, S>(address: &'a A, tcp_sender: &'a Option<S>) -> (r: Route<'a, A, S>)
    ensures
        r == match *tcp_sender {
            Some(sender) => Route::<A, S>::Tcp(&sender),
            None => Route::<A, S>::Udp(address),
        },
{
    match tcp_sender {
        Some(sender) => Route::Tcp(sender),
        None => Route::Udp(address),
    }
}

/// What the handling of a packet depends on.
#[derive(Clone, Copy, Debug, PartialEq, Eq, Structural)]
pub struct Rules {
    /// The sender has joined a network.
    pub linked: bool,
    /// The packet's time to live.
    pub ttl: u8,
    /// Fingerprints are checked.
    pub check_finger: bool,
    /// The packet carries IPv4.
    pub ip_turn: bool,
    /// Nothing is forwarded at all.
    pub blocked: bool,
    /// Packets that carry IPv4 are limited.
    pub limited: bool,
    /// The packet goes to every client.
    pub to_all: bool,
    /// The bytes that the packet counts for.
    pub size: u64,
    /// The packet is encrypted for the server.
    pub encrypt: bool,
    /// The sender's virtual address.
    pub source: u32,
    /// The receiver's virtual address.
    pub destination: u32,
}

/// How far the handling of a packet has come.
#[derive(Debug)]
pub enum Stage<E> {
    /// The fingerprint is being checked.
    Finger,
    /// The packet waits for its tokens.
    Admit,
    /// The packet pauses before it asks for its tokens again.
    AdmitPause,
    /// The receivers are being selected.
    Select,
    /// The copy for receiver `next` of `count` waits for its tokens.
    Pay { next: usize, count: usize },
    /// The copy for receiver `next` pauses before it asks for its tokens again.
    PayPause { next: usize, count: usize },
    /// The packet is on its way to receiver `next` of `count`.
    Send { next: usize, count: usize },
    /// The packet is handled.
    Done,
    /// The packet is refused.
    Failed(ForwardError<E>),
}

/// What happened.
#[derive(Debug)]
pub enum Event<E> {
    /// The fingerprint is right.
    FingerAccepted,
    /// The fingerprint is wrong; what the check says of it.
    FingerRejected(E),
    /// The limiter granted the tokens.
    Granted,
    /// The limiter refused the tokens.
    Refused,
    /// The pause is over.
    Woke,
    /// This many receivers were selected.
    Selected { count: usize },
    /// The packet was sent to a receiver, or sending failed.
    Sent,
}

/// What is to be done next.
#[derive(Clone, Copy, Debug, PartialEq, Eq, Structural)]
pub enum Action {
    /// Check the fingerprint.
    CheckFinger,
    /// Ask the limiter for tokens.
    Acquire { size: u64 },
    /// Pause.
    Sleep { millis: u64 },
    /// Select the receivers.
    SelectClients,
    /// Send the packet to the receiver with this index among the selected ones.
    Send { index: usize },
    /// Nothing: the handling is over and has its result.
    Finish,
}

impl Rules {
    /// Where the handling starts. A packet without a network is refused; one at the end of its
    /// life is dropped.
    pub open spec fn start<E>(self) -> Stage<E> {
        if !self.linked {
            Stage::Failed(ForwardError::Disconnect)
        } else if self.ttl <= 1 {
            Stage::Done
        } else if self.check_finger {
            Stage::Finger
        } else {
            self.cleared()
        }
    }

    /// Where a packet goes on whose fingerprint is right or not checked. A blocked server drops it;
    /// on a limited one IPv4 waits for its tokens.
    pub open spec fn cleared<E>(self) -> Stage<E> {
        if self.blocked {
            Stage::Done
        } else if self.ip_turn && self.limited {
            Stage::Admit
        } else {
            self.admitted()
        }
    }

    /// Where a packet goes on that has its tokens or needs none. Only IPv4 goes to all clients.
    pub open spec fn admitted<E>(self) -> Stage<E> {
        if self.to_all && !self.ip_turn {
            Stage::Done
        } else {
            Stage::Select
        }
    }

    /// Where a packet goes on that has been sent to `next` of `count` receivers. Each copy of a
    /// packet to all clients waits for tokens of its own on a limited server.
    pub open spec fn at<E>(self, next: int, count: int) -> Stage<E> {
        if next >= count {
            Stage::Done
        } else if self.to_all && self.limited {
            Stage::Pay { next: next as usize, count: count as usize }
        } else {
            Stage::Send { next: next as usize, count: count as usize }
        }
    }

    /// The stage after an event. An event that the stage does not wait for changes nothing.
    pub open spec fn step<E>(self, stage: Stage<E>, event: Event<E>) -> Stage<E> {
        match (stage, event) {
            (Stage::Finger, Event::FingerAccepted) => self.cleared(),
            (Stage::Finger, Event::FingerRejected(e)) => Stage::Failed(ForwardError::Finger(e)),
            (Stage::Admit, Event::Granted) => self.admitted(),
            (Stage::Admit, Event::Refused) => Stage::AdmitPause,
            (Stage::AdmitPause, Event::Woke) => Stage::Admit,
            (Stage::Select, Event::Selected { count }) => self.at(0, count as int),
            (Stage::Pay { next, count }, Event::Granted) => Stage::Send { next, count },
            (Stage::Pay { next, count }, Event::Refused) => Stage::PayPause { next, count },
            (Stage::PayPause { next, count }, Event::Woke) => Stage::Pay { next, count },
            (Stage::Send { next, count }, Event::Sent) => self.at(next + 1, count as int),
            _ => stage,
        }
    }

    /// What a stage waits for.
    pub open spec fn action_at<E>(self, stage: Stage<E>) -> Action {
        match stage {
            Stage::Finger => Action::CheckFinger,
            Stage::Admit => Action::Acquire { size: self.size },
            Stage::AdmitPause => Action::Sleep { millis: RETRY_MILLIS },
            Stage::Select => Action::SelectClients,
            Stage::Pay { .. } => Action::Acquire { size: self.size },
            Stage::PayPause { .. } => Action::Sleep { millis: RETRY_MILLIS },
            Stage::Send { next, .. } => Action::Send { index: next },
            Stage::Done | Stage::Failed(_) => Action::Finish,
        }
    }

    /// Whether the client with the given number receives the packet.
    pub open spec fn selects<A, S>(self, clients: Map<u32, ClientInfo<A, S>>, key: u32) -> bool {
        &&& clients.contains_key(key)
        &&& clients[key].receives(self.encrypt, self.source)
        &&& self.to_all || key == self.destination
    }

    fn start_stage<E>(&self) -> (r: Stage<E>)
        ensures
            r == self.start::<E>(),
    {
        if !self.linked {
            Stage::Failed(ForwardError::Disconnect)
        } else if self.ttl <= 1 {
            Stage::Done
        } else if self.check_finger {
            Stage::Finger
        } else {
            self.cleared_stage()
        }
    }

    fn cleared_stage<E>(&self) -> (r: Stage<E>)
        ensures
            r == self.cleared::<E>(),
    {
        if self.blocked {
            Stage::Done
        } else if self.ip_turn && self.limited {
            Stage::Admit
        } else {
            self.admitted_stage()
        }
    }

    fn admitted_stage<E>(&self) -> (r: Stage<E>)
        ensures
            r == self.admitted::<E>(),
    {
        if self.to_all && !self.ip_turn {
            Stage::Done
        } else {
            Stage::Select
        }
    }

    fn at_stage<E>(&self, next: usize, count: usize) -> (r: Stage<E>)
        ensures
            r == self.at::<E>(next as int, count as int),
    {
        if next >= count {
            Stage::Done
        } else if self.to_all && self.limited {
            Stage::Pay { next, count }
        } else {
            Stage::Send { next, count }
        }
    }

    /// The numbers of the clients that receive the packet: every client that may, or the one that
    /// the packet is addressed to, if it may.
    pub fn select<A, S>(&self, clients: &HashMap<u32, ClientInfo<A, S>>) -> (r: Vec<u32>)
        ensures
            r@.no_duplicates(),
            forall|key: u32| #[trigger] r@.contains(key) == self.selects(clients@, key),
            !self.to_all ==> r@.len() <= 1,
    {
        let mut keys: Vec<u32> = Vec::new();
        if self.to_all {
            let ghost items = vstd::std_specs::iter::IteratorSpec::remaining(
                &vstd::std_specs::hash::spec_hash_map_iter(clients),
            );
            for (key, client) in it: clients.iter()
                invariant
                    self.to_all,
                    it.seq() == items,
                    items.no_duplicates(),
                    forall|i: int|
                        0 <= i < items.len() ==> clients@.contains_key(*(#[trigger] items[i]).0)
                            && clients@[*items[i].0] == *items[i].1,
                    keys@.no_duplicates(),
                    forall|k: u32| #[trigger]
                        keys@.contains(k) == exists|i: int|
                            0 <= i < it.index() && k == *(#[trigger] items[i]).0 && self.selects(
                                clients@,
                                k,
                            ),
            {
                let ghost at = it.index() as int;
                let ghost before = keys@;
                assert(items[at] == (key, client));
                if client.can_receive(self.encrypt, self.source) {
                    proof {
                        if before.contains(*key) {
                            let i = choose|i: int|
                                0 <= i < at && *key == *(#[trigger] items[i]).0 && self.selects(
                                    clients@,
                                    *key,
                                );
                            assert(items[i] == items[at]);
                        }
                    }
                    keys.push(*key);
                    proof {
                        assert forall|k: u32| #[trigger] keys@.contains(k) == (before.contains(k)
                            || k == *key) by {
                            assert(keys@[before.len() as int] == *key);
                            if before.contains(k) {
                                let j = choose|j: int| 0 <= j < before.len() && before[j] == k;
                                assert(keys@[j] == k);
                            }
                        }
                    }
                }
                proof {
                    assert forall|k: u32| #[trigger] keys@.contains(k) == exists|i: int|
                        0 <= i < at + 1 && k == *(#[trigger] items[i]).0 && self.selects(
                            clients@,
                            k,
                        ) by {
                        if before.contains(k) {
                            let i = choose|i: int|
                                0 <= i < at && k == *(#[trigger] items[i]).0 && self.selects(
                                    clients@,
                                    k,
                                );
                            assert(0 <= i < at + 1 && k == *items[i].0);
                        }
                        if k == *key && self.selects(clients@, k) {
                            assert(k == *items[at].0);
                        }
                    }
                }
            }
            proof {
                assert forall|k: u32| #[trigger] keys@.contains(k) == self.selects(
                    clients@,
                    k,
                ) by {
                    if self.selects(clients@, k) {
                        let pair = (&k, &clients@[k]);
                        assert(items.contains(pair));
                        let i = choose|i: int| 0 <= i < items.len() && items[i] == pair;
                        assert(k == *items[i].0);
                    }
                }
            }
        } else {
            if let Some(client) = clients.get(&self.destination) {
                if client.can_receive(self.encrypt, self.source) {
                    keys.push(self.destination);
                    assert(keys@[0] == self.destination);
                }
            }
        }
        keys
    }
}

/// The handling of one packet: its rules, and how far it has come.
pub ghost struct Progress<E> {
    pub rules: Rules,
    pub stage: Stage<E>,
}

/// The handling of one packet. It says what is to be done, and is told what happened.
#[derive(Debug)]
pub struct Delivery<E> {
    rules: Rules,
    stage: Stage<E>,
}

/// Whether a stage that sends copies has one left to send.
pub open spec fn stage_wf<E>(stage: Stage<E>) -> bool {
    match stage {
        Stage::Pay { next, count } => next < count,
        Stage::PayPause { next, count } => next < count,
        Stage::Send { next, count } => next < count,
        _ => true,
    }
}

impl<E> View for Delivery<E> {
    type V = Progress<E>;

    closed spec fn view(&self) -> Progress<E> {
        Progress { rules: self.rules, stage: self.stage }
    }
}

impl<E> Delivery<E> {
    /// A stage that sends copies has one left to send.
    #[verifier::type_invariant]
    spec fn inv(&self) -> bool {
        stage_wf(self.stage)
    }

    /// Starts the handling of a packet.
    pub fn begin(rules: Rules) -> (r: Self)
        ensures
            r@ == (Progress { rules, stage: rules.start::<E>() }),
    {
        let stage = rules.start_stage();
        Delivery { rules, stage }
    }

    /// What is to be done next.
    pub fn action(&self) -> (r: Action)
        ensures
            r == self@.rules.action_at(self@.stage),
    {
        match self.stage {
            Stage::Finger => Action::CheckFinger,
            Stage::Admit => Action::Acquire { size: self.rules.size },
            Stage::AdmitPause => Action::Sleep { millis: RETRY_MILLIS },
            Stage::Select => Action::SelectClients,
            Stage::Pay { .. } => Action::Acquire { size: self.rules.size },
            Stage::PayPause { .. } => Action::Sleep { millis: RETRY_MILLIS },
            Stage::Send { next, .. } => Action::Send { index: next },
            Stage::Done | Stage::Failed(_) => Action::Finish,
        }
    }

    /// The result of the handling, once it is over.
    pub fn result(self) -> (r: Option<Result<(), ForwardError<E>>>)
        ensures
            r == match self@.stage {
                Stage::Done => Some(Ok::<(), ForwardError<E>>(())),
                Stage::Failed(e) => Some(Err::<(), ForwardError<E>>(e)),
                _ => None,
            },
    {
        match self.stage {
            Stage::Done => Some(Ok(())),
            Stage::Failed(e) => Some(Err(e)),
            _ => None,
        }
    }

    /// Takes note of an event. One that the handling does not wait for changes nothing.
    pub fn on(&mut self, event: Event<E>)
        ensures
            final(self)@ == (Progress {
                rules: old(self)@.rules,
                stage: old(self)@.rules.step(old(self)@.stage, event),
            }),
    {
        proof {
            use_type_invariant(&*self);
        }
        let next = match (&self.stage, event) {
            (Stage::Finger, Event::FingerAccepted) => Some(self.rules.cleared_stage()),
            (Stage::Finger, Event::FingerRejected(e)) => Some(
                Stage::Failed(ForwardError::Finger(e)),
            ),
            (Stage::Admit, Event::Granted) => Some(self.rules.admitted_stage()),
            (Stage::Admit, Event::Refused) => Some(Stage::AdmitPause),
            (Stage::AdmitPause, Event::Woke) => Some(Stage::Admit),
            (Stage::Select, Event::Selected { count }) => Some(self.rules.at_stage(0, count)),
            (Stage::Pay { next, count }, Event::Granted) => Some(
                Stage::Send { next: *next, count: *count },
            ),
            (Stage::Pay { next, count }, Event::Refused) => Some(
                Stage::PayPause { next: *next, count: *count },
            ),
            (Stage::PayPause { next, count }, Event::Woke) => Some(
                Stage::Pay { next: *next, count: *count },
            ),
            (Stage::Send { next, count }, Event::Sent) => Some(
                self.rules.at_stage(*next + 1, *count),
            ),
            _ => None,
        };
        if let Some(stage) = next {
            self.stage = stage;
        }
    }

    /// Asks the limiter for the tokens that the handling waits for, and takes note of the answer.
    /// Where the handling waits for none, nobody is asked and nothing changes. `credit` is the
    /// number of tokens that came in since the limiter's last refill.
    pub fn acquire(&mut self, limiter: &mut ByteRateLimiter, now: u64, credit: u64)
        ensures
            old(self)@.rules.action_at(old(self)@.stage) matches Action::Acquire { size } ==> {
                &&& final(limiter)@ == old(limiter)@.asked(size as nat, now as nat, credit as nat)
                &&& final(self)@ == (Progress {
                    rules: old(self)@.rules,
                    stage: old(self)@.rules.step(
                        old(self)@.stage,
                        if old(limiter)@.grants(size as nat, now as nat, credit as nat) {
                            Event::Granted
                        } else {
                            Event::Refused
                        },
                    ),
                })
            },
            old(self)@.rules.action_at(old(self)@.stage) !is Acquire ==> {
                &&& final(limiter)@ == old(limiter)@
                &&& final(self)@ == old(self)@
            },
    {
        match self.action() {
            Action::Acquire { size } => {
                if limiter.try_acquire_bytes(size, now, credit) {
                    self.on(Event::Granted);
                } else {
                    self.on(Event::Refused);
                }
            },
            _ => {},
        }
    }

    /// Selects the receivers among the clients of the sender's network and goes on to them. Where
    /// the handling does not wait for that, it selects none and changes nothing.
    pub fn select<A, S>(&mut self, clients: &HashMap<u32, ClientInfo<A, S>>) -> (r: Vec<u32>)
        ensures
            old(self)@.stage is Select ==> {
                &&& r@.no_duplicates()
                &&& forall|key: u32| #[trigger]
                    r@.contains(key) == old(self)@.rules.selects(clients@, key)
                &&& !old(self)@.rules.to_all ==> r@.len() <= 1
                &&& final(self)@ == (Progress {
                    rules: old(self)@.rules,
                    stage: old(self)@.rules.step(
                        Stage::<E>::Select,
                        Event::Selected { count: r@.len() as usize },
                    ),
                })
            },
            old(self)@.stage !is Select ==> r@.len() == 0 && final(self)@ == old(self)@,
    {
        match &self.stage {
            Stage::Select => {
                let keys = self.rules.select(clients);
                self.on(Event::Selected { count: keys.len() });
                keys
            },
            _ => Vec::new(),
        }
    }
}

/// What a handler goes by.
pub ghost struct HandlerModel {
    pub config: crate::config::ConfigModel,
    pub numbers: ProtocolNumbers,
    /// Nothing is forwarded at all.
    pub blocked: bool,
    /// The bytes per second that IPv4 is limited to, which is also what may come at once.
    pub limiter: Option<u64>,
}

impl HandlerModel {
    /// The handler for a configuration. A rate limit of 0 blocks; any other limits.
    pub open spec fn for_config(
        config: crate::config::ConfigModel,
        numbers: ProtocolNumbers,
    ) -> HandlerModel {
        HandlerModel {
            config,
            numbers,
            blocked: config.rate_limit == Some(0u64),
            limiter: if config.rate_limit == Some(0u64) {
                None
            } else {
                config.rate_limit
            },
        }
    }

    /// A handler that blocks needs no limiter, and a limiter lets something through.
    pub open spec fn wf(self) -> bool {
        self.limiter matches Some(rate) ==> rate > 0 && !self.blocked
    }

    /// The full bucket of a limiter for this handler: it holds as many bytes as may come in a
    /// second, and fills at that rate.
    pub open spec fn bucket(self, now: nat) -> rate_limiter::Bucket {
        let limit = self.limiter->0 as nat;
        rate_limiter::Bucket {
            capacity: limit,
            tokens: limit,
            refill_rate: RefillRate { bits: RefillRate::whole_bits(limit) as u64 },
            last_refill: now,
        }
    }

    /// The rules for a packet.
    pub open spec fn rules(self, linked: bool, packet: NetPacket) -> Rules {
        Rules {
            linked,
            ttl: packet.ttl,
            check_finger: self.config.check_finger,
            ip_turn: packet.carried(self.numbers) == Protocol::IpTurn,
            blocked: self.blocked,
            limited: self.limiter is Some,
            to_all: packet.destination.limited_broadcast() || packet.destination
                == self.config.broadcast,
            size: packet.data_len as u64,
            encrypt: packet.encrypt,
            source: packet.source.bits,
            destination: packet.destination.bits,
        }
    }
}

/// The bucket of a limiter for a handler is sound.
pub proof fn lemma_bucket_wf(handler: HandlerModel, now: nat)
    requires
        handler.wf(),
        handler.limiter is Some,
    ensures
        handler.bucket(now).wf(),
{
    rate_limiter::law_whole_rates_are_positive(handler.limiter->0);
}

/// The handler of the packets that clients send to each other.
pub struct ClientPacketHandler {
    config: ConfigInfo,
    numbers: ProtocolNumbers,
    blocked: bool,
    limiter: Option<u64>,
}

impl View for ClientPacketHandler {
    type V = HandlerModel;

    closed spec fn view(&self) -> HandlerModel {
        HandlerModel {
            config: self.config@,
            numbers: self.numbers,
            blocked: self.blocked,
            limiter: self.limiter,
        }
    }
}

impl Clone for ClientPacketHandler {
    fn clone(&self) -> (r: Self)
        ensures
            r@ == self@,
    {
        proof {
            use_type_invariant(self);
        }
        ClientPacketHandler {
            config: self.config.clone(),
            numbers: self.numbers,
            blocked: self.blocked,
            limiter: self.limiter,
        }
    }
}

impl ClientPacketHandler {
    /// The handler goes by sound limits.
    #[verifier::type_invariant]
    spec fn inv(&self) -> bool {
        self@.wf()
    }

    /// A handler for a configuration. A rate limit of 0 blocks; any other limits.
    pub fn new(config: ConfigInfo, numbers: ProtocolNumbers) -> (r: Self)
        ensures
            r@ == HandlerModel::for_config(config@, numbers),
            r@.wf(),
    {
        let (blocked, limiter) = match config.rate_limit {
            None => (false, None),
            Some(rate) => if rate == 0 {
                (true, None)
            } else {
                (false, Some(rate))
            },
        };
        ClientPacketHandler { config, numbers, blocked, limiter }
    }

    /// The bytes per second, and at once, that a limiter for this handler has to let through;
    /// nothing, where there is no limiter.
    pub fn limiter(&self) -> (r: Option<u64>)
        ensures
            r == self@.limiter,
            self@.wf(),
    {
        proof {
            use_type_invariant(self);
        }
        self.limiter
    }

    /// The limiter for this handler, where it limits: a full bucket that holds as many bytes as may
    /// come in a second, and fills at that rate.
    pub fn new_limiter(&self, now: u64) -> (r: Option<ByteRateLimiter>)
        ensures
            r is Some == self@.limiter is Some,
            r matches Some(limiter) ==> limiter@ == self@.bucket(now as nat) && limiter@.wf(),
    {
        proof {
            use_type_invariant(self);
        }
        match self.limiter {
            None => None,
            Some(limit) => Some(ByteRateLimiter::new(limit, RefillRate::whole(limit), now)),
        }
    }

    /// Starts the handling of a packet. `linked` says whether the sender has joined a network.
    pub fn handle<E>(&self, linked: bool, packet: &NetPacket) -> (r: Delivery<E>)
        ensures
            r@ == (Progress {
                rules: self@.rules(linked, *packet),
                stage: self@.rules(linked, *packet).start::<E>(),
            }),
    {
        let ip_turn = match packet.protocol(&self.numbers) {
            Protocol::IpTurn => true,
            Protocol::Unknown(_) => false,
        };
        let rules = Rules {
            linked,
            ttl: packet.ttl,
            check_finger: self.config.check_finger,
            ip_turn,
            blocked: self.blocked,
            limited: self.limiter.is_some(),
            to_all: packet.destination.is_broadcast() || packet.destination
                == self.config.broadcast,
            size: packet.data_len as u64,
            encrypt: packet.encrypt,
            source: packet.source.bits,
            destination: packet.destination.bits,
        };
        Delivery::begin(rules)
    }
}

impl Rules {
    /// The stage after a series of events.
    pub open spec fn stage_after<E>(self, events: Seq<Event<E>>) -> Stage<E>
        decreases events.len(),
    {
        if events.len() == 0 {
            self.start()
        } else {
            self.step(self.stage_after(events.drop_last()), events.last())
        }
    }

    /// The receivers that the packet was sent to, by index among the selected ones.
    pub open spec fn sent<E>(self, events: Seq<Event<E>>) -> Seq<usize>
        decreases events.len(),
    {
        if events.len() == 0 {
            Seq::empty()
        } else {
            let before = self.sent(events.drop_last());
            match (self.stage_after(events.drop_last()), events.last()) {
                (Stage::Send { next, .. }, Event::Sent) => before.push(next),
                _ => before,
            }
        }
    }

    /// How many receivers were selected, once that was done.
    pub open spec fn selected<E>(self, events: Seq<Event<E>>) -> Option<usize>
        decreases events.len(),
    {
        if events.len() == 0 {
            None
        } else {
            match (self.stage_after(events.drop_last()), events.last()) {
                (Stage::Select, Event::Selected { count }) => Some(count),
                _ => self.selected(events.drop_last()),
            }
        }
    }

    /// How often the packet took tokens.
    pub open spec fn payments<E>(self, events: Seq<Event<E>>) -> nat
        decreases events.len(),
    {
        if events.len() == 0 {
            0
        } else {
            let before = self.payments(events.drop_last());
            match (self.stage_after(events.drop_last()), events.last()) {
                (Stage::Admit, Event::Granted) => before + 1,
                (Stage::Pay { .. }, Event::Granted) => before + 1,
                _ => before,
            }
        }
    }

    /// How often a packet takes tokens that has been sent to `n` receivers: once on admission,
    /// and once for each copy of a packet to all clients, on a limited server.
    pub open spec fn price(self, n: nat) -> nat {
        (if self.ip_turn && self.limited {
            1nat
        } else {
            0
        }) + (if self.to_all && self.limited {
            n
        } else {
            0
        })
    }
}

/// What holds after any series of events.
spec fn run_invariant<E>(rules: Rules, events: Seq<Event<E>>) -> bool {
    let stage = rules.stage_after(events);
    let sent = rules.sent(events);
    let n = sent.len();
    &&& forall|i: int| 0 <= i < n ==> sent[i] == i
    &&& n > 0 ==> rules.selected(events) is Some
    &&& rules.selected(events) matches Some(count) ==> n <= count && may_forward(rules, events)
    &&& match stage {
        Stage::Finger => rules.selected(events) is None && rules.payments(events) == 0
            && rules.linked && rules.ttl > 1 && rules.check_finger,
        Stage::Admit | Stage::AdmitPause => rules.selected(events) is None && rules.payments(events)
            == 0 && cleared_rightly(rules, events) && rules.ip_turn && rules.limited
            && !rules.blocked,
        Stage::Select => rules.selected(events) is None && rules.payments(events) == rules.price(0)
            && may_forward(rules, events),
        Stage::Pay { next, count } | Stage::PayPause { next, count } => rules.selected(events)
            == Some(count) && n == next && next < count && rules.to_all && rules.limited
            && rules.payments(events) == rules.price(n),
        Stage::Send { next, count } => rules.selected(events) == Some(count) && n == next && next
            < count && rules.payments(events) == rules.price(n) + if rules.to_all
            && rules.limited {
            1nat
        } else {
            0
        },
        Stage::Done => match rules.selected(events) {
            Some(count) => n == count && rules.payments(events) == rules.price(n),
            None => n == 0,
        },
        Stage::Failed(_) => rules.selected(events) is None && n == 0,
    }
}

/// The packet is of a network, alive, and its fingerprint was found right if that is checked.
pub open spec fn cleared_rightly<E>(rules: Rules, events: Seq<Event<E>>) -> bool {
    &&& rules.linked
    &&& rules.ttl > 1
    &&& rules.check_finger ==> events.contains(Event::FingerAccepted)
}

/// The packet may go to receivers: it is cleared, the server does not block, and if it goes to all
/// clients, it is IPv4.
pub open spec fn may_forward<E>(rules: Rules, events: Seq<Event<E>>) -> bool {
    &&& cleared_rightly(rules, events)
    &&& !rules.blocked
    &&& rules.to_all ==> rules.ip_turn
}

/// Every series of events keeps the invariant.
proof fn lemma_run<E>(rules: Rules, events: Seq<Event<E>>)
    ensures
        run_invariant(rules, events),
    decreases events.len(),
{
    if events.len() > 0 {
        let before = events.drop_last();
        lemma_run(rules, before);
        assert(forall|e: Event<E>| before.contains(e) ==> events.contains(e)) by {
            assert forall|e: Event<E>| before.contains(e) implies events.contains(e) by {
                let i = choose|i: int| 0 <= i < before.len() && before[i] == e;
                assert(events[i] == e);
            }
        }
        assert(events.contains(events.last())) by {
            assert(events[events.len() - 1] == events.last());
        }
    }
}

/// However the handling goes, receivers are served in order and none is served twice; once the
/// packet is handled, every selected receiver has been served.
pub proof fn law_each_receiver_once<E>(rules: Rules, events: Seq<Event<E>>)
    ensures
        forall|i: int| 0 <= i < rules.sent(events).len() ==> rules.sent(events)[i] == i,
        rules.selected(events) matches Some(count) ==> rules.sent(events).len() <= count,
        rules.selected(events) is None ==> rules.sent(events).len() == 0,
        rules.stage_after(events) is Done ==> match rules.selected(events) {
            Some(count) => rules.sent(events).len() == count,
            None => rules.sent(events).len() == 0,
        },
{
    lemma_run(rules, events);
}

/// A packet is forwarded to someone only if its sender has joined a network, it is alive, its
/// fingerprint was found right where that is checked, and the server does not block it. To all
/// clients only IPv4 is forwarded.
pub proof fn law_forwarded_only_if_allowed<E>(rules: Rules, events: Seq<Event<E>>)
    ensures
        rules.sent(events).len() > 0 ==> may_forward(rules, events),
{
    lemma_run(rules, events);
}

/// A refused packet was sent to no one, and is refused for one of two reasons: its sender has not
/// joined a network, or its fingerprint was found wrong, and then with what the check said of it.
pub proof fn law_refused_reaches_no_one<E>(rules: Rules, events: Seq<Event<E>>)
    requires
        rules.stage_after(events) is Failed,
    ensures
        rules.sent(events).len() == 0,
        rules.stage_after(events) == Stage::<E>::Failed(ForwardError::Disconnect) <==> !rules.linked,
        rules.stage_after(events) matches Stage::Failed(ForwardError::Finger(e))
            ==> rules.check_finger && events.contains(Event::FingerRejected(e)),
    decreases events.len(),
{
    lemma_run(rules, events);
    if events.len() > 0 {
        let before = events.drop_last();
        lemma_run(rules, before);
        assert(events[events.len() - 1] == events.last());
        if rules.stage_after(before) is Failed {
            law_refused_reaches_no_one(rules, before);
            if let Stage::Failed(ForwardError::Finger(e)) = rules.stage_after(before) {
                let i = choose|i: int|
                    0 <= i < before.len() && before[i] == Event::FingerRejected(e);
                assert(events[i] == Event::FingerRejected(e));
            }
        }
    }
}

/// A blocked server forwards no packet of any protocol and takes no tokens.
pub proof fn law_blocked_forwards_nothing<E>(rules: Rules, events: Seq<Event<E>>)
    requires
        rules.blocked,
    ensures
        rules.sent(events).len() == 0,
        rules.payments(events) == 0,
    decreases events.len(),
{
    lemma_run(rules, events);
    if events.len() > 0 {
        lemma_run(rules, events.drop_last());
        law_blocked_forwards_nothing(rules, events.drop_last());
    }
}

/// With a rate limit of 0 no packet is forwarded to anyone.
pub proof fn law_rate_limit_zero_forwards_nothing<E>(
    config: crate::config::ConfigModel,
    numbers: ProtocolNumbers,
    linked: bool,
    packet: NetPacket,
    events: Seq<Event<E>>,
)
    requires
        config.rate_limit == Some(0u64),
    ensures
        HandlerModel::for_config(config, numbers).rules(linked, packet).sent(events).len() == 0,
        HandlerModel::for_config(config, numbers).rules(linked, packet).payments(events) == 0,
{
    law_blocked_forwards_nothing(
        HandlerModel::for_config(config, numbers).rules(linked, packet),
        events,
    );
}

/// A packet that is not IPv4 takes no tokens, on a limited server either.
pub proof fn law_only_ipv4_takes_tokens<E>(rules: Rules, events: Seq<Event<E>>)
    requires
        !rules.ip_turn,
    ensures
        rules.payments(events) == 0,
    decreases events.len(),
{
    if events.len() > 0 {
        lemma_run(rules, events.drop_last());
        law_only_ipv4_takes_tokens(rules, events.drop_last());
    }
}

/// On a limited server no copy leaves before its tokens were taken, and a handled packet has
/// taken tokens exactly as often as it had to: once for itself if it is IPv4, and once more for
/// each receiver if it goes to all clients. On a server without a limit no tokens are taken.
pub proof fn law_paid_before_sent<E>(rules: Rules, events: Seq<Event<E>>)
    ensures
        rules.sent(events).len() > 0 ==> rules.payments(events) >= rules.price(
            rules.sent(events).len(),
        ),
        rules.stage_after(events) is Done && rules.selected(events) is Some
            ==> rules.payments(events) == rules.price(rules.sent(events).len()),
        !rules.limited ==> rules.payments(events) == 0,
    decreases events.len(),
{
    lemma_run(rules, events);
    if events.len() > 0 {
        lemma_run(rules, events.drop_last());
        law_paid_before_sent(rules, events.drop_last());
    }
}

/// On a limited server tokens were taken for every copy of an IPv4 packet that was sent: a packet
/// to one client has at most one receiver.
pub proof fn law_every_copy_is_paid<E>(rules: Rules, events: Seq<Event<E>>)
    requires
        rules.limited,
        rules.ip_turn,
        !rules.to_all ==> match rules.selected(events) {
            Some(count) => count <= 1,
            None => true,
        },
    ensures
        rules.sent(events).len() <= rules.payments(events),
{
    lemma_run(rules, events);
    law_paid_before_sent(rules, events);
}

/// The sender receives no copy of its own packet, and neither does a client that is offline, is a
/// WireGuard client, or disagrees with the packet on encryption.
pub proof fn law_sender_is_no_receiver<A, S>(
    rules: Rules,
    clients: Map<u32, ClientInfo<A, S>>,
    key: u32,
)
    requires
        rules.selects(clients, key),
    ensures
        clients[key].virtual_ip != rules.source,
        clients[key].online,
        !clients[key].wireguard,
        clients[key].client_secret == rules.encrypt,
        !rules.to_all ==> key == rules.destination,
{
}

/// Whether `event` answers what `stage` waits for.
pub open spec fn answers<E>(stage: Stage<E>, event: Event<E>) -> bool {
    match stage {
        Stage::Finger => event is FingerAccepted || event is FingerRejected,
        Stage::Admit | Stage::Pay { .. } => event is Granted || event is Refused,
        Stage::AdmitPause | Stage::PayPause { .. } => event is Woke,
        Stage::Select => event is Selected,
        Stage::Send { .. } => event is Sent,
        Stage::Done | Stage::Failed(_) => false,
    }
}

/// How far a stage is from the end: the part of the way that it is on, and what is left of that.
pub open spec fn way_left<E>(stage: Stage<E>) -> (nat, nat) {
    match stage {
        Stage::Finger => (4, 0),
        Stage::AdmitPause => (3, 1),
        Stage::Admit => (3, 0),
        Stage::Select => (2, 0),
        Stage::PayPause { next, count } => (1, (3 * (count - next) + 2) as nat),
        Stage::Pay { next, count } => (1, (3 * (count - next) + 1) as nat),
        Stage::Send { next, count } => (1, (3 * (count - next)) as nat),
        Stage::Done | Stage::Failed(_) => (0, 0),
    }
}

/// Only refused tokens hold a packet up: any other answer brings it nearer to the end.
pub proof fn law_only_refusals_delay<E>(rules: Rules, stage: Stage<E>, event: Event<E>)
    requires
        stage_wf(stage),
        answers(stage, event),
        event !is Refused,
    ensures
        ({
            let before = way_left(stage);
            let after = way_left(rules.step(stage, event));
            after.0 < before.0 || (after.0 == before.0 && after.1 < before.1)
        }),
        stage_wf(rules.step(stage, event)),
{
}

/// Once a packet is handled or refused, no event changes that.
pub proof fn law_end_is_final<E>(rules: Rules, stage: Stage<E>, event: Event<E>)
    requires
        stage is Done || stage is Failed,
    ensures
        rules.step(stage, event) == stage,
{
}

/// A client may receive a packet if and only if it is online, is no WireGuard client, agrees with
/// the packet on encryption, and is not at the packet's source.
pub proof fn law_eligible_clients_receive<A, S>(
    client: ClientInfo<A, S>,
    encrypt: bool,
    source: u32,
)
    ensures
        client.receives(encrypt, source) <==> (client.online && !client.wireguard && (
        client.client_secret <==> encrypt) && client.virtual_ip != source),
{
}

/// Two clients that agree on encryption reach each other: where one may receive what the other
/// sends, and the other is online and no WireGuard client, it may receive the answer.
pub proof fn law_clients_can_answer<A, S>(a: ClientInfo<A, S>, b: ClientInfo<A, S>)
    requires
        a.receives(b.client_secret, b.virtual_ip),
        b.online,
        !b.wireguard,
    ensures
        b.receives(a.client_secret, a.virtual_ip),
{
}

/// What the handling of a packet depends on is taken from the packet and the configuration as it
/// stands there.
pub proof fn law_rules_are_those_of_the_packet(
    config: crate::config::ConfigModel,
    numbers: ProtocolNumbers,
    linked: bool,
    packet: NetPacket,
)
    ensures
        ({
            let rules = HandlerModel::for_config(config, numbers).rules(linked, packet);
            &&& rules.linked == linked
            &&& rules.ttl == packet.ttl
            &&& rules.check_finger == config.check_finger
            &&& rules.ip_turn <==> packet.buffer@.len() > 0 && packet.buffer@[0] == numbers.ip_turn
            &&& rules.blocked <==> config.rate_limit is Some && config.rate_limit->0 == 0
            &&& rules.limited <==> config.rate_limit is Some && config.rate_limit->0 > 0
            &&& rules.to_all <==> packet.destination.bits == u32::MAX || packet.destination.bits
                == config.broadcast.bits
            &&& rules.size == packet.data_len
            &&& rules.encrypt == packet.encrypt
            &&& rules.source == packet.source.bits
            &&& rules.destination == packet.destination.bits
        }),
{
    crate::net_packet::law_first_byte_names_the_protocol(packet, numbers);
}

/// A packet goes to all clients if and only if it is addressed to `255.255.255.255` or to the
/// broadcast address of the server's own subnet: the gateway with every host bit set.
pub proof fn law_broadcasts_go_to_all(
    args: crate::config::StartArgs,
    file: crate::config::ConfigFile,
    token_file: Option<Seq<char>>,
    fallback: Seq<u8>,
    numbers: ProtocolNumbers,
    linked: bool,
    packet: NetPacket,
)
    requires
        crate::config::resolved(args, file, token_file, fallback) is Ok,
    ensures
        ({
            let c = crate::config::resolved(args, file, token_file, fallback)->Ok_0;
            HandlerModel::for_config(c, numbers).rules(linked, packet).to_all <==> (
            packet.destination.bits == u32::MAX || packet.destination.bits == c.gateway.bits
                | !c.netmask.bits)
        }),
{
    let c = crate::config::resolved(args, file, token_file, fallback)->Ok_0;
    law_rules_are_those_of_the_packet(c, numbers, linked, packet);
    crate::config::law_first_refusal_counts(args, file, token_file, fallback);
}

/// The receivers of a packet are exactly the clients of the network that are online, are no
/// WireGuard clients, agree with the packet on encryption, are not its source, and are addressed:
/// by a broadcast address, or by their own number.
pub proof fn law_receivers_are_the_addressed<A, S>(
    config: crate::config::ConfigModel,
    numbers: ProtocolNumbers,
    linked: bool,
    packet: NetPacket,
    clients: Map<u32, ClientInfo<A, S>>,
    key: u32,
)
    ensures
        HandlerModel::for_config(config, numbers).rules(linked, packet).selects(clients, key) <==> {
            &&& clients.contains_key(key)
            &&& clients[key].online
            &&& !clients[key].wireguard
            &&& clients[key].client_secret <==> packet.encrypt
            &&& clients[key].virtual_ip != packet.source.bits
            &&& packet.destination.bits == key || packet.destination.bits == u32::MAX
                || packet.destination.bits == config.broadcast.bits
        },
{
    law_rules_are_those_of_the_packet(config, numbers, linked, packet);
}

/// What a packet asks the limiter for is the number of its data bytes, each time.
pub proof fn law_tokens_are_data_bytes<E>(
    config: crate::config::ConfigModel,
    numbers: ProtocolNumbers,
    linked: bool,
    packet: NetPacket,
    events: Seq<Event<E>>,
)
    ensures
        ({
            let rules = HandlerModel::for_config(config, numbers).rules(linked, packet);
            rules.action_at(rules.stage_after(events)) matches Action::Acquire { size } ==> size
                == packet.data_len
        }),
{
}

/// A limiter for a handler starts full, with the rate limit as its capacity and as its rate.
pub proof fn law_limiter_starts_full(
    config: crate::config::ConfigModel,
    numbers: ProtocolNumbers,
    now: nat,
)
    ensures
        ({
            let handler = HandlerModel::for_config(config, numbers);
            let bucket = handler.bucket(now);
            &&& handler.limiter is Some <==> config.rate_limit is Some && config.rate_limit->0 > 0
            &&& handler.limiter matches Some(limit) ==> {
                &&& config.rate_limit == Some(limit)
                &&& bucket.capacity == limit
                &&& bucket.tokens == limit
                &&& bucket.last_refill == now
                &&& bucket.refill_rate.bits == RefillRate::whole_bits(limit as nat)
            }
        }),
{
    let handler = HandlerModel::for_config(config, numbers);
    if let Some(limit) = handler.limiter {
        rate_limiter::law_whole_rates_are_positive(limit);
    }
}

/// A packet whose sender has not joined a network is refused, and only such a packet is refused
/// for that, whatever happens.
pub proof fn law_unlinked_is_refused<E>(rules: Rules, events: Seq<Event<E>>)
    ensures
        rules.stage_after(events) == Stage::<E>::Failed(ForwardError::Disconnect) <==> !rules.linked,
    decreases events.len(),
{
    if events.len() > 0 {
        law_unlinked_is_refused(rules, events.drop_last());
    }
}

/// A packet at the end of its life is dropped at once: nothing is checked, asked for or sent.
pub proof fn law_expired_is_dropped<E>(rules: Rules, events: Seq<Event<E>>)
    requires
        rules.linked,
        rules.ttl <= 1,
    ensures
        rules.stage_after(events) is Done,
        rules.sent(events).len() == 0,
        rules.payments(events) == 0,
        rules.selected(events) is None,
    decreases events.len(),
{
    if events.len() > 0 {
        law_expired_is_dropped(rules, events.drop_last());
    }
}

/// A packet that is handled without being sent to every selected receiver was dropped for a
/// reason: it was at the end of its life, the server blocks, or it was to go to all clients and
/// is not IPv4. No other packet is dropped.
pub proof fn law_dropped_only_for_a_reason<E>(rules: Rules, events: Seq<Event<E>>)
    requires
        rules.stage_after(events) is Done,
        rules.ttl > 1,
        !rules.blocked,
        rules.to_all ==> rules.ip_turn,
    ensures
        rules.selected(events) is Some,
        rules.sent(events).len() == rules.selected(events)->0,
    decreases events.len(),
{
    lemma_run(rules, events);
    if events.len() > 0 {
        lemma_run(rules, events.drop_last());
        if rules.stage_after(events.drop_last()) is Done {
            law_dropped_only_for_a_reason(rules, events.drop_last());
        }
    }
}

/// The fingerprint of a live packet is checked first where that is asked for, and is never checked
/// otherwise. A wrong one refuses the packet with what the check said of it; a right one lets it
/// go on.
pub proof fn law_fingerprint_decides<E>(rules: Rules, events: Seq<Event<E>>, e: E)
    ensures
        rules.linked && rules.ttl > 1 && rules.check_finger && (forall|i: int|
            0 <= i < events.len() ==> !(#[trigger] events[i] is FingerAccepted || events[
            i] is FingerRejected)) ==> rules.action_at(rules.stage_after(events)) is CheckFinger,
        rules.action_at(rules.stage_after(events)) is CheckFinger ==> {
            &&& rules.check_finger
            &&& rules.stage_after(events.push(Event::FingerRejected(e))) == Stage::Failed(
                ForwardError::Finger(e),
            )
            &&& rules.stage_after(events.push(Event::FingerAccepted)) !is Failed
            &&& rules.stage_after(events.push(Event::FingerAccepted)) !is Finger
            &&& !rules.blocked && (rules.to_all ==> rules.ip_turn) ==> rules.stage_after(
                events.push(Event::FingerAccepted),
            ) !is Done
        },
    decreases events.len(),
{
    lemma_run(rules, events);
    assert(events.push(Event::FingerRejected(e)).drop_last() =~= events);
    assert(events.push(Event::FingerAccepted).drop_last() =~= events);
    if events.len() > 0 {
        let before = events.drop_last();
        law_fingerprint_decides(rules, before, e);
        if forall|i: int|
            0 <= i < events.len() ==> !(#[trigger] events[i] is FingerAccepted || events[
            i] is FingerRejected) {
            assert(events[events.len() - 1] == events.last());
            assert forall|i: int| 0 <= i < before.len() implies !(#[trigger] before[
            i] is FingerAccepted || before[i] is FingerRejected) by {
                assert(before[i] == events[i]);
            }
        }
    }
}

/// A packet that is refused its tokens pauses for a millisecond and then asks again, as often as
/// it takes.
pub proof fn law_refused_tokens_are_asked_for_again<E>(rules: Rules, stage: Stage<E>)
    requires
        rules.action_at(stage) is Acquire,
    ensures
        rules.action_at(rules.step(stage, Event::Refused)) == (Action::Sleep { millis: 1 }),
        rules.step(rules.step(stage, Event::Refused), Event::Woke) == stage,
{
}

/// What is to be done next follows from what happened: tokens are asked for only of IPv4 on a
/// limited server; receivers are selected once; the next copy goes to the first receiver that has
/// none yet; and the handling is over once it has a result.
pub proof fn law_next_action_follows<E>(rules: Rules, events: Seq<Event<E>>)
    ensures
        match rules.action_at(rules.stage_after(events)) {
            Action::CheckFinger => rules.check_finger && rules.selected(events) is None,
            Action::Acquire { size } => size == rules.size && rules.limited && rules.ip_turn
                && !rules.blocked,
            Action::Sleep { millis } => millis == 1 && rules.limited && rules.ip_turn,
            Action::SelectClients => rules.selected(events) is None && rules.sent(events).len()
                == 0,
            Action::Send { index } => index == rules.sent(events).len() && rules.selected(
                events,
            ) is Some && index < rules.selected(events)->0,
            Action::Finish => rules.stage_after(events) is Done || rules.stage_after(
                events,
            ) is Failed,
        },
        rules.stage_after(events) is Done || rules.stage_after(events) is Failed
            ==> rules.action_at(rules.stage_after(events)) is Finish,
{
    lemma_run(rules, events);
}

/// Where IPv4 is limited, a packet to one client takes tokens once before it is sent, and a packet
/// to all clients once and once more before each copy; a packet that is not IPv4, or on a server
/// without a limit, takes none.
pub proof fn law_tokens_taken<E>(rules: Rules, events: Seq<Event<E>>)
    ensures
        rules.limited && rules.ip_turn && !rules.to_all && rules.selected(events) is Some
            ==> rules.payments(events) == 1,
        rules.limited && rules.ip_turn && rules.to_all && rules.selected(events) is Some
            ==> rules.sent(events).len() + 1 <= rules.payments(events) <= rules.sent(events).len()
            + 2,
        rules.limited && rules.ip_turn && rules.to_all && rules.selected(events) is Some
            && rules.stage_after(events) is Done ==> rules.payments(events) == rules.sent(
            events,
        ).len() + 1,
        rules.limited && rules.ip_turn && rules.to_all && rules.action_at(
            rules.stage_after(events),
        ) is Send ==> rules.payments(events) == rules.sent(events).len() + 2,
        !rules.limited || !rules.ip_turn ==> rules.payments(events) == 0,
        rules.payments(events) > 0 ==> events.contains(Event::Granted),
    decreases events.len(),
{
    lemma_run(rules, events);
    if events.len() > 0 {
        let before = events.drop_last();
        lemma_run(rules, before);
        law_tokens_taken(rules, before);
        if before.contains(Event::Granted) {
            let i = choose|i: int| 0 <= i < before.len() && before[i] == Event::<E>::Granted;
            assert(events[i] == Event::<E>::Granted);
        }
        assert(events[events.len() - 1] == events.last());
    }
}

/// Nothing but its tokens, its receivers and the fingerprint holds a packet up: while none of
/// these is awaited, a cleared packet that may be forwarded is on its way to a receiver.
pub proof fn law_granted_copies_are_sent<E>(rules: Rules, events: Seq<Event<E>>, count: usize)
    ensures
        rules.action_at(rules.stage_after(events)) is SelectClients ==> {
            let after = rules.stage_after(events.push(Event::Selected { count }));
            &&& count == 0 ==> after is Done
            &&& count > 0 && rules.to_all && rules.limited ==> rules.action_at(after) == (
            Action::Acquire { size: rules.size })
            &&& count > 0 && !(rules.to_all && rules.limited) ==> rules.action_at(after) == (
            Action::Send { index: 0 })
        },
        rules.action_at(rules.stage_after(events)) is Acquire && rules.selected(events) is Some
            ==> rules.action_at(rules.stage_after(events.push(Event::Granted))) == (Action::Send {
            index: rules.sent(events).len() as usize,
        }),
        rules.action_at(rules.stage_after(events)) is Acquire && rules.selected(events) is None && (
        rules.to_all ==> rules.ip_turn) ==> rules.action_at(
            rules.stage_after(events.push(Event::Granted)),
        ) is SelectClients,
{
    lemma_run(rules, events);
    assert(events.push(Event::Granted).drop_last() =~= events);
    assert(events.push(Event::Selected { count }).drop_last() =~= events);
}

/// An event that a packet does not wait for changes nothing.
pub proof fn law_other_events_change_nothing<E>(rules: Rules, stage: Stage<E>, event: Event<E>)
    requires
        match rules.action_at(stage) {
            Action::CheckFinger => !(event is FingerAccepted || event is FingerRejected),
            Action::Acquire { .. } => !(event is Granted || event is Refused),
            Action::Sleep { .. } => event !is Woke,
            Action::SelectClients => event !is Selected,
            Action::Send { .. } => event !is Sent,
            Action::Finish => true,
        },
    ensures
        rules.step(stage, event) == stage,
{
}

} // verus!
