use netutils::MacAddr;

#[test]
fn addr_from_str_test() {
    let mac = MacAddr { bytes: [0x01, 0x23, 0x45, 0x67, 0x89, 0xab] };
    let empty_mac = MacAddr::default();

    assert_eq!(mac, MacAddr::from_str("01:23:45:67:89:ab"));
    assert_eq!(mac, MacAddr::from_str("1:23:45:67:89:ab"));
    assert_eq!(mac, MacAddr::from_str("01:23:45:67:89:AB"));
    assert_eq!(mac, MacAddr::from_str("01-23-45-67-89-ab"));
    assert_eq!(empty_mac, MacAddr::from_str(""));
    assert_eq!(empty_mac, MacAddr::from_str("01:23:45:67:89"));
    assert_eq!(empty_mac, MacAddr::from_str("01:23:45:67:89:ab:cd"));
    assert_eq!(empty_mac, MacAddr::from_str("x1:23:45:67:89:ab"));
    assert_eq!(empty_mac, MacAddr::from_str("01:23-45-67-89-ab"));
    assert_eq!(empty_mac, MacAddr::from_str("01-23-45-67-89-ag"));
    assert_eq!(empty_mac, MacAddr::from_str("01.23.45.67.89.ab"));
    assert_eq!(empty_mac, MacAddr::from_str("01234-23-45-67-89-ab"));
    assert_eq!(empty_mac, MacAddr::from_str("01--23-45-67-89-ab"));
    assert_eq!(empty_mac, MacAddr::from_str("12"));
    assert_eq!(empty_mac, MacAddr::from_str("0:0:0:0:0:0"));

    assert_eq!(mac, MacAddr::from_str(&mac.to_string()));
    assert_eq!(empty_mac, MacAddr::from_str(&empty_mac.to_string()));
}

#[test]
fn main_from_str_test() {
    let mac = MacAddr {
        bytes: [0x01, 0x23, 0x45, 0x67, 0x89, 0xab],
    };
    let empty_mac = MacAddr::default();

    assert_eq!(mac, MacAddr::from_str("01:23:45:67:89:ab"));
    assert_eq!(mac, MacAddr::from_str("1:23:45:67:89:ab"));
    assert_eq!(mac, MacAddr::from_str("01:23:45:67:89:AB"));
    assert_eq!(mac, MacAddr::from_str("01-23-45-67-89-ab"));
    assert_eq!(empty_mac, MacAddr::from_str(""));
    assert_eq!(empty_mac, MacAddr::from_str("01:23:45:67:89"));
    assert_eq!(empty_mac, MacAddr::from_str("01:23:45:67:89:ab:cd"));
    assert_eq!(empty_mac, MacAddr::from_str("x1:23:45:67:89:ab"));
    assert_eq!(empty_mac, MacAddr::from_str("01:23-45-67-89-ab"));
    assert_eq!(empty_mac, MacAddr::from_str("01-23-45-67-89-ag"));
    assert_eq!(empty_mac, MacAddr::from_str("01.23.45.67.89.ab"));
    assert_eq!(empty_mac, MacAddr::from_str("01234-23-45-67-89-ab"));
    assert_eq!(empty_mac, MacAddr::from_str("01--23-45-67-89-ab"));
    assert_eq!(empty_mac, MacAddr::from_str("12"));
    assert_eq!(empty_mac, MacAddr::from_str("0:0:0:0:0:0"));

    assert_eq!(mac, MacAddr::from_str(&mac.to_string()));
    assert_eq!(empty_mac, MacAddr::from_str(&empty_mac.to_string()));
}

#[test]
fn mac_text_is_upper_case_pairs_with_dashes() {
    let mac = MacAddr { bytes: [0x01, 0x23, 0x45, 0x67, 0x89, 0xab] };
    assert_eq!(mac.to_string(), "01-23-45-67-89-AB");
    assert_eq!(MacAddr::default().to_string(), "00-00-00-00-00-00");
    assert_eq!(MacAddr::broadcast().to_string(), "FF-FF-FF-FF-FF-FF");
    assert_eq!(MacAddr::broadcast().bytes, [0xFF; 6]);
}

#[test]
fn mac_text_round_trip_over_every_octet_value() {
    for v in 0..=255u8 {
        let mac = MacAddr { bytes: [v, v ^ 0x5A, v.wrapping_add(17), !v, v / 3, v.rotate_left(3)] };
        assert_eq!(MacAddr::from_str(&mac.to_string()), mac);
    }
}

#[test]
fn mac_parse_with_one_delimiter_tells_failure_from_zero() {
    assert_eq!(
        MacAddr::try_parse_with_delimeter("0:0:0:0:0:0", ':'),
        Some(MacAddr { bytes: [0; 6] })
    );
    assert_eq!(MacAddr::try_parse_with_delimeter("0:0:0:0:0", ':'), None);
    assert_eq!(MacAddr::try_parse_with_delimeter("01-23-45-67-89-ab", ':'), None);
    assert_eq!(
        MacAddr::try_parse_with_delimeter("01-23-45-67-89-ab", '-'),
        Some(MacAddr { bytes: [0x01, 0x23, 0x45, 0x67, 0x89, 0xab] })
    );
    assert_eq!(
        MacAddr::try_parse_with_delimeter("a.B.c.D.e.F", '.'),
        Some(MacAddr { bytes: [10, 11, 12, 13, 14, 15] })
    );
}

#[test]
fn mac_parse_rejects_malformed_pieces() {
    // three digits, a sign, an empty piece, a character beyond ASCII
    assert_eq!(MacAddr::try_parse_with_delimeter("001:23:45:67:89:ab", ':'), None);
    assert_eq!(MacAddr::try_parse_with_delimeter("+1:23:45:67:89:ab", ':'), None);
    assert_eq!(MacAddr::try_parse_with_delimeter("01:23:45:67:89:", ':'), None);
    assert_eq!(MacAddr::try_parse_with_delimeter(":01:23:45:67:89", ':'), None);
    assert_eq!(MacAddr::try_parse_with_delimeter("01:23:45:67:89:a\u{e9}", ':'), None);
    assert_eq!(MacAddr::try_parse_with_delimeter("01:23:45:67:89:ab:", ':'), None);
    assert_eq!(MacAddr::from_str("01:23:45:67:89: b"), MacAddr::default());
}

#[test]
fn mac_addresses_order_by_their_octets() {
    let low = MacAddr { bytes: [0, 0, 0, 0, 0, 1] };
    let high = MacAddr { bytes: [0, 0, 0, 0, 1, 0] };
    assert!(low < high);
    assert!(low != high);
    assert!(low == MacAddr { bytes: [0, 0, 0, 0, 0, 1] });
}

#[test]
fn mac_try_from_str_agrees_with_from_str() {
    let mac = MacAddr { bytes: [0x01, 0x23, 0x45, 0x67, 0x89, 0xab] };
    assert_eq!(MacAddr::try_from_str("01:23:45:67:89:ab"), Some(mac));
    assert_eq!(MacAddr::try_from_str("01-23-45-67-89-AB"), Some(mac));
    assert_eq!(MacAddr::try_from_str("0:0:0:0:0:0"), Some(MacAddr::default()));
    assert_eq!(MacAddr::try_from_str("00-00-00-00-00-00"), Some(MacAddr::default()));
    for text in ["", "12", "01:23-45-67-89-ab", "01.23.45.67.89.ab", "01:23:45:67:89:ab:cd"] {
        assert_eq!(MacAddr::try_from_str(text), None);
        assert_eq!(MacAddr::from_str(text), MacAddr::default());
    }
}

#[test]
fn mac_comparison_is_that_of_the_octet_arrays() {
    let samples = [
        MacAddr { bytes: [0; 6] },
        MacAddr { bytes: [0, 0, 0, 0, 0, 1] },
        MacAddr { bytes: [0, 0, 0, 0, 1, 0] },
        MacAddr { bytes: [1, 0, 0, 0, 0, 0] },
        MacAddr { bytes: [0xFF; 6] },
    ];
    for a in samples {
        for b in samples {
            assert_eq!(a.partial_cmp(&b), Some(a.bytes.cmp(&b.bytes)));
            assert_eq!(a.cmp(&b), a.bytes.cmp(&b.bytes));
            assert_eq!(a == b, a.bytes == b.bytes);
            assert_eq!(a < b, a.bytes < b.bytes);
        }
    }
}
