use vnts::ipv4::Ipv4Addr;
use vnts::subnet::{broadcast_address, is_valid_netmask};

#[test]
fn reads_dotted_addresses() {
    assert_eq!(
        Ipv4Addr::parse("10.26.0.1"),
        Some(Ipv4Addr::new(10, 26, 0, 1))
    );
    assert_eq!(Ipv4Addr::new(10, 26, 0, 1).bits, 0x0a1a_0001);
    assert_eq!(Ipv4Addr::parse("0.0.0.0"), Some(Ipv4Addr { bits: 0 }));
    assert_eq!(
        Ipv4Addr::parse("255.255.255.255"),
        Some(Ipv4Addr { bits: u32::MAX })
    );
}

#[test]
fn refuses_what_is_not_a_dotted_address() {
    let samples = [
        "", ".", "...", "1", "1.2", "1.2.3", "1.2.3.4.5", "1.2.3.4.", ".1.2.3.4", "1..2.3",
        "01.2.3.4", "1.2.3.04", "00.0.0.0", "256.1.1.1", "1.2.3.256", "1.2.3.1000",
        "1.2.3.99999999999", " 1.2.3.4", "1.2.3.4 ", "1.2.3.4\n", "a.b.c.d", "1.2.3.-4",
        "+1.2.3.4", "1,2,3,4", "1.2.3.4x", "１.2.3.4", "000.0.0.0", "0.0.0.00", "1.2.3.4/24",
        "0x1.2.3.4", "1.2.3. 4",
    ];
    for s in samples {
        assert_eq!(Ipv4Addr::parse(s), None, "{}", s);
    }
}

#[test]
fn text_reads_back() {
    for (a, b, c, d) in [
        (0u8, 0u8, 0u8, 0u8),
        (10, 26, 0, 1),
        (192, 168, 1, 255),
        (9, 99, 100, 249),
        (250, 251, 252, 253),
        (255, 255, 255, 255),
    ] {
        let addr = Ipv4Addr::new(a, b, c, d);
        let text = addr.to_text();
        assert_eq!(text, format!("{}.{}.{}.{}", a, b, c, d));
        assert_eq!(Ipv4Addr::parse(&text), Some(addr));
    }
}

#[test]
fn classes_of_addresses() {
    for first in 0..=255u8 {
        for second in 0..=255u8 {
            let a = Ipv4Addr::new(first, second, 7, 9);
            assert_eq!(a.is_multicast(), first >> 4 == 14);
            assert_eq!(
                a.is_private(),
                first == 10
                    || (first == 172 && second >> 4 == 1)
                    || (first == 192 && second == 168)
            );
            assert!(!a.is_unspecified());
            assert!(!a.is_broadcast());
        }
    }
    assert!(Ipv4Addr { bits: 0 }.is_unspecified());
    assert!(Ipv4Addr { bits: u32::MAX }.is_broadcast());
    assert!(!Ipv4Addr { bits: u32::MAX }.is_multicast());
}

#[test]
fn netmasks_are_the_prefixes() {
    for prefix in 1..32u32 {
        assert!(is_valid_netmask(&Ipv4Addr {
            bits: u32::MAX << (32 - prefix)
        }));
    }
    assert!(!is_valid_netmask(&Ipv4Addr { bits: 0 }));
    assert!(!is_valid_netmask(&Ipv4Addr { bits: u32::MAX }));
    assert!(!is_valid_netmask(&Ipv4Addr::new(255, 0, 255, 0)));
    assert!(!is_valid_netmask(&Ipv4Addr::new(0, 255, 255, 0)));
    assert!(!is_valid_netmask(&Ipv4Addr::new(255, 255, 255, 1)));
}

#[test]
fn broadcast_is_the_last_address_of_the_subnet() {
    let mask = Ipv4Addr::new(255, 255, 255, 0);
    let gateway = Ipv4Addr::new(10, 26, 0, 1);
    let broadcast = broadcast_address(&gateway, &mask);
    assert_eq!(broadcast, Ipv4Addr::new(10, 26, 0, 255));
    for last in 0..=255u8 {
        assert!(Ipv4Addr::new(10, 26, 0, last).bits <= broadcast.bits);
    }
    assert_eq!(
        broadcast_address(&Ipv4Addr::new(172, 16, 5, 9), &Ipv4Addr::new(255, 240, 0, 0)),
        Ipv4Addr::new(172, 31, 255, 255)
    );
}
