use netutils::ipv4::IPV4_HEADER_SIZE;
use netutils::{n16, Checksum, Ipv4, Ipv4Addr, Ipv4Header};

fn sample_header() -> Ipv4Header {
    Ipv4Header {
        ver_hlen: 0x45,
        services: 0,
        len: n16::new(0x73),
        id: n16::new(0),
        flags_fragment: n16::new(0x4000),
        ttl: 0x40,
        proto: 0x11,
        checksum: Checksum { data: 0 },
        src: Ipv4Addr { bytes: [192, 168, 0, 1] },
        dst: Ipv4Addr { bytes: [192, 168, 0, 199] },
    }
}

const SAMPLE_WIRE: [u8; 20] = [
    0x45, 0x00, 0x00, 0x73, 0x00, 0x00, 0x40, 0x00, 0x40, 0x11, 0xb8, 0x61, 0xc0, 0xa8, 0x00, 0x01,
    0xc0, 0xa8, 0x00, 0xc7,
];

fn same_header(a: &Ipv4Header, b: &Ipv4Header) -> bool {
    a.to_bytes() == b.to_bytes()
}

#[test]
fn ipv4_header_len_is_four_times_the_low_nibble() {
    let mut h = sample_header();
    assert_eq!(h.header_len(), 20);
    h.ver_hlen = 0x46;
    assert_eq!(h.header_len(), 24);
    h.ver_hlen = 0x4F;
    assert_eq!(h.header_len(), 60);
    h.ver_hlen = 0xF0;
    assert_eq!(h.header_len(), 0);
    h.ver_hlen = 0x04;
    assert_eq!(h.header_len(), 16);
}

#[test]
fn ipv4_checksum_of_a_known_header() {
    let mut p = Ipv4 { header: sample_header(), options: vec![], data: vec![0; 0x73 - 20] };
    p.checksum();
    assert_eq!(p.header.checksum.data, 0x61b8);
    assert_eq!(p.to_bytes()[..20], SAMPLE_WIRE);
    assert_eq!(p.data.len(), 0x73 - 20);
}

#[test]
fn ipv4_checksum_ignores_the_old_field_the_options_and_the_data() {
    let mut a = Ipv4 { header: sample_header(), options: vec![], data: vec![] };
    let mut b = Ipv4 { header: sample_header(), options: vec![1, 1, 1, 1], data: vec![9; 33] };
    b.header.checksum.data = 0xDEAD;
    a.checksum();
    b.checksum();
    assert_eq!(a.header.checksum.data, 0x61b8);
    assert_eq!(b.header.checksum.data, 0x61b8);
    assert_eq!(b.options, vec![1, 1, 1, 1]);
    assert_eq!(b.data, vec![9; 33]);
    assert_eq!(b.header.ttl, 0x40);
}

#[test]
fn ipv4_header_with_its_checksum_sums_to_all_ones() {
    let mut p = Ipv4 { header: sample_header(), options: vec![], data: vec![] };
    p.header.id = n16::new(0xBEEF);
    p.header.ttl = 1;
    p.checksum();
    assert_eq!(Checksum::compile(Checksum::sum(&p.header.to_bytes())), 0);
}

#[test]
fn ipv4_to_bytes_is_header_options_data() {
    let mut h = sample_header();
    h.ver_hlen = 0x46;
    h.len = n16::new(27);
    h.checksum = Checksum { data: 0x61b8 };
    let p = Ipv4 { header: h, options: vec![1, 2, 3, 4], data: vec![7, 8, 9] };
    let mut expected = SAMPLE_WIRE.to_vec();
    expected[0] = 0x46;
    expected[2] = 0;
    expected[3] = 27;
    expected.extend_from_slice(&[1, 2, 3, 4, 7, 8, 9]);
    assert_eq!(p.to_bytes(), expected);
}

#[test]
fn ipv4_from_bytes_reads_every_field() {
    let mut bytes = SAMPLE_WIRE.to_vec();
    bytes[3] = 23;
    bytes.extend_from_slice(&[0xA, 0xB, 0xC, 0xEE, 0xEE]);
    let p = Ipv4::from_bytes(&bytes).unwrap();
    assert_eq!(p.header.ver_hlen, 0x45);
    assert_eq!(p.header.header_len(), 20);
    assert_eq!(p.header.services, 0);
    assert_eq!(p.header.len.get(), 23);
    assert_eq!(p.header.id.get(), 0);
    assert_eq!(p.header.flags_fragment.get(), 0x4000);
    assert_eq!(p.header.ttl, 0x40);
    assert_eq!(p.header.proto, 0x11);
    assert_eq!(p.header.checksum.data, 0x61b8);
    assert_eq!(p.header.src, Ipv4Addr { bytes: [192, 168, 0, 1] });
    assert_eq!(p.header.dst, Ipv4Addr { bytes: [192, 168, 0, 199] });
    assert!(p.options.is_empty());
    assert_eq!(p.data, vec![0xA, 0xB, 0xC]);
    assert_eq!(p.to_bytes(), bytes[..23].to_vec());
}

#[test]
fn ipv4_from_bytes_separates_options_from_data() {
    let mut bytes = SAMPLE_WIRE.to_vec();
    bytes[0] = 0x47;
    bytes[3] = 30;
    bytes.extend_from_slice(&[1, 2, 3, 4, 5, 6, 7, 8, 0xD0, 0xD1]);
    let p = Ipv4::from_bytes(&bytes).unwrap();
    assert_eq!(p.header.header_len(), 28);
    assert_eq!(p.options, vec![1, 2, 3, 4, 5, 6, 7, 8]);
    assert_eq!(p.data, vec![0xD0, 0xD1]);
}

#[test]
fn ipv4_round_trip() {
    let mut h = sample_header();
    h.ver_hlen = 0x46;
    h.len = n16::new(24 + 5);
    let mut p = Ipv4 { header: h, options: vec![0x94, 0x04, 0, 0], data: b"hello".to_vec() };
    p.checksum();
    let back = Ipv4::from_bytes(&p.to_bytes()).unwrap();
    assert!(same_header(&back.header, &p.header));
    assert_eq!(back.options, p.options);
    assert_eq!(back.data, p.data);
}

#[test]
fn ipv4_from_bytes_rejects_short_buffers() {
    assert!(Ipv4::from_bytes(&[]).is_none());
    assert!(Ipv4::from_bytes(&SAMPLE_WIRE[..19]).is_none());
    assert!(Ipv4Header::from_bytes(&SAMPLE_WIRE[..19]).is_none());
    assert!(Ipv4Header::from_bytes(&SAMPLE_WIRE).is_some());
    assert_eq!(IPV4_HEADER_SIZE, 20);
}

#[test]
fn ipv4_from_bytes_rejects_a_header_length_below_twenty() {
    for low in 0..5u8 {
        let mut bytes = SAMPLE_WIRE.to_vec();
        bytes[0] = 0x40 | low;
        bytes[3] = 20;
        assert!(Ipv4::from_bytes(&bytes).is_none());
    }
    let mut bytes = SAMPLE_WIRE.to_vec();
    bytes[3] = 20;
    assert!(Ipv4::from_bytes(&bytes).is_some());
}

#[test]
fn ipv4_from_bytes_rejects_inconsistent_lengths() {
    // total length past the end of the buffer
    let bytes = SAMPLE_WIRE.to_vec();
    assert!(Ipv4::from_bytes(&bytes).is_none());
    // header length past the end of the buffer
    let mut bytes = SAMPLE_WIRE.to_vec();
    bytes[0] = 0x46;
    bytes[3] = 20;
    assert!(Ipv4::from_bytes(&bytes).is_none());
    // header length above the total length
    let mut bytes = SAMPLE_WIRE.to_vec();
    bytes[0] = 0x46;
    bytes[3] = 23;
    bytes.extend_from_slice(&[0; 8]);
    assert!(Ipv4::from_bytes(&bytes).is_none());
    // total length below the fixed header
    let mut bytes = SAMPLE_WIRE.to_vec();
    bytes[3] = 19;
    assert!(Ipv4::from_bytes(&bytes).is_none());
    // both exactly the buffer
    let mut bytes = SAMPLE_WIRE.to_vec();
    bytes[0] = 0x46;
    bytes[3] = 24;
    bytes.extend_from_slice(&[0; 4]);
    let p = Ipv4::from_bytes(&bytes).unwrap();
    assert_eq!(p.options, vec![0; 4]);
    assert!(p.data.is_empty());
}

#[test]
fn ipv4_from_bytes_does_not_check_the_checksum() {
    let mut bytes = SAMPLE_WIRE.to_vec();
    bytes[3] = 20;
    bytes[10] = 0;
    bytes[11] = 0;
    assert!(Ipv4::from_bytes(&bytes).is_some());
}
