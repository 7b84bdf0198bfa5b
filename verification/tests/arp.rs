use netutils::arp::ARP_HEADER_SIZE;
use netutils::{n16, Arp, ArpHeader, Ipv4Addr, MacAddr};

const REQUEST: [u8; 28] = [
    0x00, 0x01, 0x08, 0x00, 0x06, 0x04, 0x00, 0x01, 0x52, 0x54, 0x00, 0x12, 0x34, 0x56, 0x0a, 0x00,
    0x02, 0x0f, 0x00, 0x00, 0x00, 0x00, 0x00, 0x00, 0x0a, 0x00, 0x02, 0x02,
];

fn request() -> ArpHeader {
    ArpHeader {
        htype: n16::new(1),
        ptype: n16::new(0x0800),
        hlen: 6,
        plen: 4,
        oper: n16::new(1),
        src_mac: MacAddr { bytes: [0x52, 0x54, 0x00, 0x12, 0x34, 0x56] },
        src_ip: Ipv4Addr { bytes: [10, 0, 2, 15] },
        dst_mac: MacAddr { bytes: [0; 6] },
        dst_ip: Ipv4Addr { bytes: [10, 0, 2, 2] },
    }
}

#[test]
fn arp_to_bytes_is_header_then_data() {
    let p = Arp { header: request(), data: vec![] };
    assert_eq!(p.to_bytes(), REQUEST.to_vec());
    let p = Arp { header: request(), data: vec![0; 18] };
    let mut expected = REQUEST.to_vec();
    expected.extend_from_slice(&[0; 18]);
    assert_eq!(p.to_bytes(), expected);
    assert_eq!(ARP_HEADER_SIZE, 28);
}

#[test]
fn arp_from_bytes_reads_every_field() {
    let mut bytes = REQUEST.to_vec();
    bytes.extend_from_slice(&[0xAA, 0xBB]);
    let p = Arp::from_bytes(&bytes).unwrap();
    assert_eq!(p.header.htype.get(), 1);
    assert_eq!(p.header.ptype.get(), 0x0800);
    assert_eq!(p.header.hlen, 6);
    assert_eq!(p.header.plen, 4);
    assert_eq!(p.header.oper.get(), 1);
    assert_eq!(p.header.src_mac, MacAddr::from_str("52:54:00:12:34:56"));
    assert_eq!(p.header.src_ip, Ipv4Addr::from_str("10.0.2.15"));
    assert_eq!(p.header.dst_mac, MacAddr::default());
    assert_eq!(p.header.dst_ip, Ipv4Addr::from_str("10.0.2.2"));
    assert_eq!(p.data, vec![0xAA, 0xBB]);
}

#[test]
fn arp_round_trip() {
    let mut header = request();
    header.oper = n16::new(2);
    header.dst_mac = MacAddr::broadcast();
    for data in [vec![], vec![1], vec![0; 18], vec![0xFF; 200]] {
        let p = Arp { header, data };
        let bytes = p.to_bytes();
        let back = Arp::from_bytes(&bytes).unwrap();
        assert_eq!(back.header.to_bytes(), p.header.to_bytes());
        assert_eq!(back.header.oper, p.header.oper);
        assert_eq!(back.header.dst_mac, p.header.dst_mac);
        assert_eq!(back.data, p.data);
        assert_eq!(back.to_bytes(), bytes);
    }
}

#[test]
fn arp_from_bytes_rejects_short_buffers() {
    assert!(Arp::from_bytes(&[]).is_none());
    assert!(Arp::from_bytes(&REQUEST[..27]).is_none());
    assert!(ArpHeader::from_bytes(&REQUEST[..27]).is_none());
    let p = Arp::from_bytes(&REQUEST).unwrap();
    assert!(p.data.is_empty());
}
