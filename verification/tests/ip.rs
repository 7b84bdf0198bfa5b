use netutils::Ipv4Addr;

#[test]
fn ipv4_from_str_reads_dot_decimal() {
    assert_eq!(Ipv4Addr::from_str("127.0.0.1"), Ipv4Addr { bytes: [127, 0, 0, 1] });
    assert_eq!(Ipv4Addr::from_str("255.255.255.255"), Ipv4Addr { bytes: [255; 4] });
    assert_eq!(Ipv4Addr::from_str("0.0.0.0"), Ipv4Addr { bytes: [0; 4] });
    assert_eq!(Ipv4Addr::from_str("10.0.2.15"), Ipv4Addr { bytes: [10, 0, 2, 15] });
    assert_eq!(Ipv4Addr::from_str("192.168.001.010"), Ipv4Addr { bytes: [192, 168, 1, 10] });
}

#[test]
fn ipv4_from_str_turns_a_bad_octet_into_zero() {
    assert_eq!(Ipv4Addr::from_str("256.1.2.3"), Ipv4Addr { bytes: [0, 1, 2, 3] });
    assert_eq!(Ipv4Addr::from_str("1.x.2.3"), Ipv4Addr { bytes: [1, 0, 2, 3] });
    assert_eq!(Ipv4Addr::from_str("1..2.3"), Ipv4Addr { bytes: [1, 0, 2, 3] });
    assert_eq!(Ipv4Addr::from_str("1.2.-3.4"), Ipv4Addr { bytes: [1, 2, 0, 4] });
    assert_eq!(Ipv4Addr::from_str("1.2.3.4 "), Ipv4Addr { bytes: [1, 2, 3, 0] });
    assert_eq!(Ipv4Addr::from_str("1.2.3.99999999999999999999"), Ipv4Addr { bytes: [1, 2, 3, 0] });
    assert_eq!(Ipv4Addr::from_str("1.2.3.+"), Ipv4Addr { bytes: [1, 2, 3, 0] });
    assert_eq!(Ipv4Addr::from_str("999.999.999.999"), Ipv4Addr { bytes: [0; 4] });
    assert_eq!(Ipv4Addr::from_str("::1"), Ipv4Addr { bytes: [0; 4] });
    assert_eq!(Ipv4Addr::from_str("\u{661}.2.3.4"), Ipv4Addr { bytes: [0, 2, 3, 4] });
}

#[test]
fn ipv4_from_str_accepts_a_plus_sign_and_leading_zeros() {
    assert_eq!(Ipv4Addr::from_str("+1.+22.+255.4"), Ipv4Addr { bytes: [1, 22, 255, 4] });
    assert_eq!(Ipv4Addr::from_str("0000000000000001.2.3.4"), Ipv4Addr { bytes: [1, 2, 3, 4] });
    assert_eq!(Ipv4Addr::from_str("++1.2.3.4"), Ipv4Addr { bytes: [0, 2, 3, 4] });
}

#[test]
fn ipv4_from_str_fills_missing_octets_and_ignores_extra_ones() {
    assert_eq!(Ipv4Addr::from_str(""), Ipv4Addr { bytes: [0; 4] });
    assert_eq!(Ipv4Addr::from_str("7"), Ipv4Addr { bytes: [7, 0, 0, 0] });
    assert_eq!(Ipv4Addr::from_str("1.2"), Ipv4Addr { bytes: [1, 2, 0, 0] });
    assert_eq!(Ipv4Addr::from_str("1.2.3"), Ipv4Addr { bytes: [1, 2, 3, 0] });
    assert_eq!(Ipv4Addr::from_str("1.2.3.4.5"), Ipv4Addr { bytes: [1, 2, 3, 4] });
    assert_eq!(Ipv4Addr::from_str("1.2.3.4.x.y"), Ipv4Addr { bytes: [1, 2, 3, 4] });
}

#[test]
fn ipv4_to_string_writes_dot_decimal() {
    assert_eq!(Ipv4Addr { bytes: [127, 0, 0, 1] }.to_string(), "127.0.0.1");
    assert_eq!(Ipv4Addr { bytes: [255, 255, 255, 255] }.to_string(), "255.255.255.255");
    assert_eq!(Ipv4Addr { bytes: [0, 9, 10, 99] }.to_string(), "0.9.10.99");
    assert_eq!(Ipv4Addr { bytes: [100, 101, 200, 209] }.to_string(), "100.101.200.209");
}

#[test]
fn ipv4_text_round_trip_over_every_octet_value() {
    for v in 0..=255u8 {
        let addr = Ipv4Addr { bytes: [v, 255 - v, v / 10, v.wrapping_mul(7)] };
        assert_eq!(Ipv4Addr::from_str(&addr.to_string()), addr);
    }
}

#[test]
fn ipv4_well_known_addresses() {
    assert_eq!(Ipv4Addr::broadcast().bytes, [255, 255, 255, 255]);
    assert_eq!(Ipv4Addr::loopback().bytes, [127, 0, 0, 1]);
    assert_eq!(Ipv4Addr::null().bytes, [0, 0, 0, 0]);
    assert_eq!(Ipv4Addr::loopback(), Ipv4Addr::from_str("127.0.0.1"));
}

#[test]
fn ipv4_addresses_order_by_their_octets() {
    assert!(Ipv4Addr { bytes: [1, 2, 3, 4] } < Ipv4Addr { bytes: [1, 2, 4, 0] });
    assert!(Ipv4Addr { bytes: [1, 2, 3, 4] } == Ipv4Addr { bytes: [1, 2, 3, 4] });
    assert!(Ipv4Addr { bytes: [1, 2, 3, 4] } != Ipv4Addr { bytes: [1, 2, 3, 5] });
    let mut out = vec![9u8];
    Ipv4Addr { bytes: [1, 2, 3, 4] }.append_to(&mut out);
    assert_eq!(out, vec![9, 1, 2, 3, 4]);
}

#[test]
fn ipv4_try_from_str_is_strict() {
    assert_eq!(Ipv4Addr::try_from_str("127.0.0.1"), Some(Ipv4Addr::loopback()));
    assert_eq!(Ipv4Addr::try_from_str("0.0.0.0"), Some(Ipv4Addr::null()));
    assert_eq!(Ipv4Addr::try_from_str("+1.02.3.4"), Some(Ipv4Addr { bytes: [1, 2, 3, 4] }));
    for text in ["", "1.2.3", "1.2.3.4.5", "256.1.1.1", "1.2.3.x", "1..3.4", "1.2.3.4."] {
        assert_eq!(Ipv4Addr::try_from_str(text), None);
    }
    for text in ["10.0.2.15", "255.255.255.255", "9.99.199.0"] {
        assert_eq!(Ipv4Addr::try_from_str(text), Some(Ipv4Addr::from_str(text)));
    }
}

#[test]
fn ipv4_comparison_is_that_of_the_octet_arrays() {
    let samples = [
        Ipv4Addr { bytes: [0; 4] },
        Ipv4Addr { bytes: [0, 0, 1, 0] },
        Ipv4Addr { bytes: [10, 0, 2, 15] },
        Ipv4Addr { bytes: [10, 0, 2, 2] },
        Ipv4Addr { bytes: [255; 4] },
    ];
    for a in samples {
        for b in samples {
            assert_eq!(a.partial_cmp(&b), Some(a.bytes.cmp(&b.bytes)));
            assert_eq!(a.cmp(&b), a.bytes.cmp(&b.bytes));
            assert_eq!(a == b, a.bytes == b.bytes);
        }
    }
}
