use std::collections::HashMap;

use vnts::client::{
    route, Action, ClientInfo, ClientPacketHandler, Delivery, Event, ForwardError, Route, Rules,
};
use vnts::config::{ConfigFile, ConfigInfo, StartArgs};
use vnts::ipv4::Ipv4Addr;
use vnts::net_packet::{NetPacket, Protocol, ProtocolNumbers};
use vnts::rate_limiter::RefillRate;

const NUMBERS: ProtocolNumbers = ProtocolNumbers { ip_turn: 4 };

type Client = ClientInfo<u16, u8>;

fn config(rate_limit: Option<u64>, finger: bool) -> ConfigInfo {
    let args = StartArgs {
        host: None,
        port: None,
        white_token: None,
        gateway: None,
        netmask: None,
        finger,
        log_path: None,
        web_port: None,
        username: None,
        password: None,
        wg_secret_key: None,
        rate_limit,
        conf: None,
        token: None,
    };
    ConfigInfo::resolve(&args, &ConfigFile::or_empty(None), &None).ok().unwrap()
}

fn handler(rate_limit: Option<u64>, finger: bool) -> ClientPacketHandler {
    ClientPacketHandler::new(config(rate_limit, finger), NUMBERS)
}

fn packet(protocol: u8, destination: Ipv4Addr) -> NetPacket {
    NetPacket {
        buffer: vec![protocol, 1, 2, 3],
        ttl: 2,
        source: Ipv4Addr::new(10, 26, 0, 2),
        destination,
        encrypt: false,
        data_len: 3,
    }
}

fn client(last: u8) -> Client {
    ClientInfo {
        virtual_ip: Ipv4Addr::new(10, 26, 0, last).bits,
        online: true,
        client_secret: false,
        wireguard: false,
        address: last as u16,
        tcp_sender: None,
    }
}

fn clients() -> HashMap<u32, Client> {
    let mut m = HashMap::new();
    for last in 2..=8u8 {
        let mut c = client(last);
        match last {
            5 => c.online = false,
            6 => c.client_secret = true,
            7 => c.wireguard = true,
            8 => c.tcp_sender = Some(80),
            _ => {}
        }
        m.insert(c.virtual_ip, c);
    }
    m
}

/// Runs a delivery; the limiter refuses every other request. Gives the receivers, the number of
/// granted requests, and the end.
fn run(
    mut d: Delivery<&'static str>,
    finger: bool,
) -> (Vec<u32>, usize, Result<(), ForwardError<&'static str>>) {
    let clients = clients();
    let mut selected: Vec<u32> = Vec::new();
    let mut sent = Vec::new();
    let mut grants = 0;
    let mut refuse = true;
    for _ in 0..200 {
        match d.action() {
            Action::Finish => return (sent, grants, d.result().unwrap()),
            Action::CheckFinger => d.on(if finger {
                Event::FingerAccepted
            } else {
                Event::FingerRejected("wrong")
            }),
            Action::Acquire { size } => {
                assert_eq!(size, 3);
                if refuse {
                    d.on(Event::Refused);
                } else {
                    grants += 1;
                    d.on(Event::Granted);
                }
                refuse = !refuse;
            }
            Action::Sleep { millis } => {
                assert_eq!(millis, 1);
                d.on(Event::Woke);
            }
            Action::SelectClients => selected = d.select(&clients),
            Action::Send { index } => {
                sent.push(selected[index]);
                d.on(Event::Sent);
            }
        }
    }
    panic!("no end");
}

fn ip(last: u8) -> Ipv4Addr {
    Ipv4Addr::new(10, 26, 0, last)
}

fn sorted(mut v: Vec<u32>) -> Vec<u32> {
    v.sort();
    v
}

#[test]
fn protocol_of_a_packet() {
    assert_eq!(packet(4, ip(3)).protocol(&NUMBERS), Protocol::IpTurn);
    assert_eq!(packet(9, ip(3)).protocol(&NUMBERS), Protocol::Unknown(9));
    let mut empty = packet(4, ip(3));
    empty.buffer = Vec::new();
    assert_eq!(empty.protocol(&NUMBERS), Protocol::Unknown(0));
    assert_eq!(
        empty.protocol(&ProtocolNumbers { ip_turn: 0 }),
        Protocol::Unknown(0)
    );
    assert_eq!(NUMBERS.protocol(4), Protocol::IpTurn);
    assert_eq!(NUMBERS.protocol(0), Protocol::Unknown(0));
}

#[test]
fn limits_of_a_handler() {
    assert_eq!(handler(None, false).limiter(), None);
    assert_eq!(handler(Some(0), false).limiter(), None);
    assert_eq!(handler(Some(700), false).limiter(), Some(700));
}

#[test]
fn one_receiver() {
    let h = handler(None, false);
    assert_eq!(run(h.handle(true, &packet(4, ip(3))), true), (vec![ip(3).bits], 0, Ok(())));
    assert_eq!(run(h.handle(true, &packet(9, ip(3))), true), (vec![ip(3).bits], 0, Ok(())));
    for last in [2, 5, 6, 7, 99] {
        assert_eq!(run(h.handle(true, &packet(4, ip(last))), true), (vec![], 0, Ok(())));
    }
    let mut secret = packet(4, ip(6));
    secret.encrypt = true;
    assert_eq!(run(h.handle(true, &secret), true), (vec![ip(6).bits], 0, Ok(())));
}

#[test]
fn all_receivers() {
    let h = handler(None, false);
    let expected = vec![ip(3).bits, ip(4).bits, ip(8).bits];
    for to in [ip(255), Ipv4Addr { bits: u32::MAX }] {
        let (sent, grants, end) = run(h.handle(true, &packet(4, to)), true);
        assert_eq!(sorted(sent), expected);
        assert_eq!(grants, 0);
        assert_eq!(end, Ok(()));
        assert_eq!(run(h.handle(true, &packet(9, to)), true), (vec![], 0, Ok(())));
    }
}

#[test]
fn tokens_of_a_limited_server() {
    let h = handler(Some(1000), false);
    assert_eq!(run(h.handle(true, &packet(4, ip(3))), true), (vec![ip(3).bits], 1, Ok(())));
    assert_eq!(run(h.handle(true, &packet(9, ip(3))), true), (vec![ip(3).bits], 0, Ok(())));
    let (sent, grants, _) = run(h.handle(true, &packet(4, ip(255))), true);
    assert_eq!(sent.len(), 3);
    assert_eq!(grants, 4);
    assert_eq!(run(h.handle(true, &packet(4, ip(99))), true), (vec![], 1, Ok(())));
}

#[test]
fn blocked_server_forwards_nothing() {
    let h = handler(Some(0), false);
    assert_eq!(run(h.handle(true, &packet(4, ip(3))), true), (vec![], 0, Ok(())));
    assert_eq!(run(h.handle(true, &packet(4, ip(255))), true), (vec![], 0, Ok(())));
    assert_eq!(run(h.handle(true, &packet(9, ip(255))), true), (vec![], 0, Ok(())));
    assert_eq!(run(h.handle(true, &packet(9, ip(3))), true), (vec![], 0, Ok(())));
    assert_eq!(
        run(h.handle(false, &packet(9, ip(3))), true),
        (vec![], 0, Err(ForwardError::Disconnect))
    );
    let h = handler(Some(0), true);
    assert_eq!(run(h.handle(true, &packet(9, ip(3))), true), (vec![], 0, Ok(())));
    assert_eq!(
        run(h.handle(true, &packet(9, ip(3))), false),
        (vec![], 0, Err(ForwardError::Finger("wrong")))
    );
}

#[test]
fn fingerprints() {
    let h = handler(None, true);
    assert_eq!(run(h.handle(true, &packet(4, ip(3))), true), (vec![ip(3).bits], 0, Ok(())));
    assert_eq!(
        run(h.handle(true, &packet(4, ip(3))), false),
        (vec![], 0, Err(ForwardError::Finger("wrong")))
    );
}

#[test]
fn unlinked_and_expired_packets() {
    let h = handler(None, true);
    assert_eq!(
        run(h.handle(false, &packet(4, ip(3))), true),
        (vec![], 0, Err(ForwardError::Disconnect))
    );
    for ttl in [0, 1] {
        let mut p = packet(4, ip(3));
        p.ttl = ttl;
        assert_eq!(run(h.handle(true, &p), false), (vec![], 0, Ok(())));
    }
}

#[test]
fn unexpected_events_change_nothing() {
    let rules = Rules {
        linked: true,
        ttl: 9,
        check_finger: true,
        ip_turn: true,
        blocked: false,
        limited: true,
        to_all: false,
        size: 10,
        encrypt: false,
        source: 1,
        destination: 2,
    };
    let mut d: Delivery<u8> = Delivery::begin(rules);
    d.on(Event::Sent);
    d.on(Event::Granted);
    assert_eq!(d.select(&clients()), Vec::<u32>::new());
    assert_eq!(d.action(), Action::CheckFinger);
    d.on(Event::FingerAccepted);
    assert_eq!(d.action(), Action::Acquire { size: 10 });
    d.on(Event::Refused);
    assert_eq!(d.action(), Action::Sleep { millis: 1 });
    d.on(Event::Granted);
    assert_eq!(d.action(), Action::Sleep { millis: 1 });
    d.on(Event::Woke);
    d.on(Event::Granted);
    assert_eq!(d.action(), Action::SelectClients);
    d.on(Event::Selected { count: 0 });
    assert_eq!(d.action(), Action::Finish);
    d.on(Event::Selected { count: 3 });
    d.on(Event::FingerRejected(7));
    assert_eq!(d.action(), Action::Finish);
    assert_eq!(d.result(), Some(Ok(())));
}

#[test]
fn no_result_before_the_end() {
    let d: Delivery<u8> = handler(None, true).handle(true, &packet(4, ip(3)));
    assert_eq!(d.action(), Action::CheckFinger);
    assert_eq!(d.result(), None);
    let mut d: Delivery<u8> = handler(None, true).handle(true, &packet(4, ip(3)));
    d.on(Event::FingerRejected(7));
    assert_eq!(d.action(), Action::Finish);
    assert_eq!(d.result(), Some(Err(ForwardError::Finger(7))));
}

#[test]
fn routes() {
    assert!(matches!(route(&5u16, &Some(7u8)), Route::Tcp(&7)));
    assert!(matches!(route(&5u16, &None::<u8>), Route::Udp(&5)));
    assert!(client(3).can_receive(false, 0));
    assert!(!client(3).can_receive(true, 0));
    assert!(!client(3).can_receive(false, ip(3).bits));
}

#[test]
fn limiter_of_a_handler() {
    assert!(handler(None, false).new_limiter(0).is_none());
    assert!(handler(Some(0), false).new_limiter(0).is_none());
    let mut limiter = handler(Some(700), false).new_limiter(5).unwrap();
    assert_eq!(limiter.tokens(), 700);
    assert_eq!(limiter.refill_rate(), RefillRate { bits: 700f64.to_bits() });
    assert_eq!(limiter.elapsed(9), 4);
    assert!(!limiter.try_acquire_bytes(701, 6, 1000));
    assert!(limiter.try_acquire_bytes(700, 7, 0));
    assert!(!limiter.try_acquire_bytes(1, 8, 0));
}

#[test]
fn packet_longer_than_the_limit_waits() {
    let h = handler(Some(2), false);
    let mut limiter = h.new_limiter(0).unwrap();
    let mut d: Delivery<u8> = h.handle(true, &packet(4, ip(3)));
    for now in 1..100u64 {
        assert_eq!(d.action(), Action::Acquire { size: 3 });
        d.acquire(&mut limiter, now, 50);
        assert_eq!(d.action(), Action::Sleep { millis: 1 });
        d.on(Event::Woke);
    }
    assert_eq!(limiter.tokens(), 2);
}

#[test]
fn packets_share_a_limiter() {
    let h = handler(Some(6), false);
    let mut limiter = h.new_limiter(0).unwrap();
    let mut sent = 0u64;
    let mut now = 0u64;
    for to in [ip(255), ip(3), ip(4), ip(255)] {
        let mut d: Delivery<u8> = h.handle(true, &packet(4, to));
        loop {
            match d.action() {
                Action::Acquire { .. } => {
                    let credit = limiter.elapsed(now) * 6 / 1_000_000_000;
                    d.acquire(&mut limiter, now, credit);
                }
                Action::Sleep { millis } => {
                    now += millis * 1_000_000;
                    d.on(Event::Woke);
                }
                Action::SelectClients => {
                    d.select(&clients());
                }
                Action::Send { .. } => {
                    sent += 3;
                    assert!(sent * 1_000_000_000 <= 6 * 1_000_000_000 + 6 * now);
                    d.on(Event::Sent);
                }
                Action::Finish => break,
                Action::CheckFinger => unreachable!(),
            }
        }
    }
    assert_eq!(sent, 24);
}

#[test]
fn nobody_is_asked_without_need() {
    let h = handler(Some(6), true);
    let mut limiter = h.new_limiter(0).unwrap();
    let mut d: Delivery<u8> = h.handle(true, &packet(4, ip(3)));
    d.acquire(&mut limiter, 1, 0);
    assert_eq!(d.action(), Action::CheckFinger);
    assert_eq!(limiter.tokens(), 6);
}

#[test]
fn copied_handler_acts_alike() {
    let h = handler(Some(700), false);
    let copy = h.clone();
    assert_eq!(copy.limiter(), h.limiter());
    assert_eq!(
        run(copy.handle(true, &packet(4, ip(3))), true),
        run(h.handle(true, &packet(4, ip(3))), true)
    );
}
