use crate::ip::Ipv4Addr;
use crate::mac::MacAddr;
use crate::scalar::n16;
use vstd::prelude::*;
use vstd::slice::slice_to_vec;

verus! {

/// The number of octets in an ARP header for Ethernet and IPv4.
pub const ARP_HEADER_SIZE: usize = 28;

/// The ARP header of RFC 826, for Ethernet hardware addresses and IPv4
/// protocol addresses.
#[derive(Copy, Clone, Debug)]
pub struct ArpHeader {
    pub htype: n16,
    pub ptype: n16,
    pub hlen: u8,
    pub plen: u8,
    pub oper: n16,
    pub src_mac: MacAddr,
    pub src_ip: Ipv4Addr,
    pub dst_mac: MacAddr,
    pub dst_ip: Ipv4Addr,
}

/// An ARP packet: the header and whatever follows it (padding, if any).
#[derive(Debug)]
pub struct Arp {
    pub header: ArpHeader,
    pub data: Vec<u8>,
}

/// An ARP packet as a mathematical value.
pub struct ArpView {
    pub header: ArpHeader,
    pub data: Seq<u8>,
}

impl Clone for Arp {
    fn clone(&self) -> (r: Self)
        ensures
            r@ == self@,
    {
        Arp { header: self.header, data: self.data.clone() }
    }
}

impl View for Arp {
    type V = ArpView;

    open spec fn view(&self) -> ArpView {
        ArpView { header: self.header, data: self.data@ }
    }
}

impl ArpHeader {
    /// The twenty-eight octets of the header as transmitted.
    pub open spec fn wire(self) -> Seq<u8> {
        self.htype.wire() + self.ptype.wire() + seq![self.hlen, self.plen] + self.oper.wire()
            + self.src_mac.bytes@ + self.src_ip.bytes@ + self.dst_mac.bytes@ + self.dst_ip.bytes@
    }

    /// The header that the first twenty-eight octets of `bytes` spell.
    pub open spec fn spec_from_wire(bytes: Seq<u8>) -> ArpHeader {
        ArpHeader {
            htype: n16::spec_from_wire(bytes[0], bytes[1]),
            ptype: n16::spec_from_wire(bytes[2], bytes[3]),
            hlen: bytes[4],
            plen: bytes[5],
            oper: n16::spec_from_wire(bytes[6], bytes[7]),
            src_mac: MacAddr::spec_from_wire(bytes.skip(8)),
            src_ip: Ipv4Addr::spec_from_wire(bytes.skip(14)),
            dst_mac: MacAddr::spec_from_wire(bytes.skip(18)),
            dst_ip: Ipv4Addr::spec_from_wire(bytes.skip(24)),
        }
    }

    /// A header occupies twenty-eight octets, and reading them gives it back.
    pub proof fn lemma_wire_round_trip(self)
        ensures
            self.wire().len() == ARP_HEADER_SIZE,
            Self::spec_from_wire(self.wire()) == self,
    {
        broadcast use n16::lemma_new_of_view;

        let w = self.wire();
        let r = Self::spec_from_wire(w);
        assert(w.len() == 28);
        assert(w[0] == self.htype.wire()[0] && w[1] == self.htype.wire()[1]);
        assert(w[2] == self.ptype.wire()[0] && w[3] == self.ptype.wire()[1]);
        assert(w[6] == self.oper.wire()[0] && w[7] == self.oper.wire()[1]);
        assert(r.htype == n16::spec_new(self.htype@));
        assert(r.ptype == n16::spec_new(self.ptype@));
        assert(r.oper == n16::spec_new(self.oper@));
        assert(r.src_mac.bytes =~= self.src_mac.bytes);
        assert(r.src_ip.bytes =~= self.src_ip.bytes);
        assert(r.dst_mac.bytes =~= self.dst_mac.bytes);
        assert(r.dst_ip.bytes =~= self.dst_ip.bytes);
    }

    /// The header read from twenty-eight octets is transmitted as those
    /// octets.
    pub proof fn lemma_from_wire_round_trip(bytes: Seq<u8>)
        requires
            bytes.len() >= ARP_HEADER_SIZE,
        ensures
            Self::spec_from_wire(bytes).wire() == bytes.subrange(0, ARP_HEADER_SIZE as int),
    {
        broadcast use n16::lemma_from_wire;

        assert(Self::spec_from_wire(bytes).wire() =~= bytes.subrange(0, ARP_HEADER_SIZE as int));
    }

    /// Reads a header from the front of a buffer; `None` where the buffer is
    /// shorter than a header.
    pub fn from_bytes(bytes: &[u8]) -> (r: Option<Self>)
        ensures
            r == (if bytes.len() >= ARP_HEADER_SIZE {
                Some(Self::spec_from_wire(bytes@))
            } else {
                None
            }),
    {
        if bytes.len() < ARP_HEADER_SIZE {
            return None;
        }
        Some(
            ArpHeader {
                htype: n16::from_wire(bytes[0], bytes[1]),
                ptype: n16::from_wire(bytes[2], bytes[3]),
                hlen: bytes[4],
                plen: bytes[5],
                oper: n16::from_wire(bytes[6], bytes[7]),
                src_mac: MacAddr::from_wire(bytes, 8),
                src_ip: Ipv4Addr::from_wire(bytes, 14),
                dst_mac: MacAddr::from_wire(bytes, 18),
                dst_ip: Ipv4Addr::from_wire(bytes, 24),
            },
        )
    }

    /// The header as its twenty-eight octets.
    pub fn to_bytes(&self) -> (r: Vec<u8>)
        ensures
            r@ == self.wire(),
    {
        let mut out: Vec<u8> = Vec::new();
        self.htype.append_to(&mut out);
        self.ptype.append_to(&mut out);
        out.push(self.hlen);
        out.push(self.plen);
        self.oper.append_to(&mut out);
        self.src_mac.append_to(&mut out);
        self.src_ip.append_to(&mut out);
        self.dst_mac.append_to(&mut out);
        self.dst_ip.append_to(&mut out);
        assert(out@ =~= self.wire());
        out
    }
}

impl ArpView {
    /// The packet as transmitted: header, then trailing octets.
    pub open spec fn wire(self) -> Seq<u8> {
        self.header.wire() + self.data
    }
}

impl Arp {
    /// The packet that a buffer holds.  There is one where the buffer is at
    /// least as long as a header; all that follows the header is kept as
    /// trailing data.
    pub open spec fn spec_from_bytes(bytes: Seq<u8>) -> Option<ArpView> {
        if bytes.len() >= ARP_HEADER_SIZE {
            Some(
                ArpView {
                    header: ArpHeader::spec_from_wire(bytes),
                    data: bytes.subrange(ARP_HEADER_SIZE as int, bytes.len() as int),
                },
            )
        } else {
            None
        }
    }

    /// Encoding a packet and decoding the result gives the packet back.
    pub proof fn lemma_round_trip(packet: ArpView)
        ensures
            Self::spec_from_bytes(packet.wire()) == Some(packet),
    {
        let w = packet.wire();
        let r = ArpHeader::spec_from_wire(w);
        let h = ArpHeader::spec_from_wire(packet.header.wire());
        packet.header.lemma_wire_round_trip();
        assert(r.src_mac.bytes =~= h.src_mac.bytes);
        assert(r.src_ip.bytes =~= h.src_ip.bytes);
        assert(r.dst_mac.bytes =~= h.dst_mac.bytes);
        assert(r.dst_ip.bytes =~= h.dst_ip.bytes);
        assert(w.subrange(ARP_HEADER_SIZE as int, w.len() as int) =~= packet.data);
    }

    /// A decoded packet encodes to the buffer it was decoded from.
    pub proof fn lemma_decoded_wire(bytes: Seq<u8>)
        requires
            Self::spec_from_bytes(bytes) is Some,
        ensures
            Self::spec_from_bytes(bytes)->0.wire() == bytes,
    {
        ArpHeader::lemma_from_wire_round_trip(bytes);
        assert(Self::spec_from_bytes(bytes)->0.wire() =~= bytes);
    }

    /// Decodes the packet that a buffer holds.
    ///
    /// Returns `None`, and reads nothing out of bounds, where the buffer is
    /// shorter than a header.
    pub fn from_bytes(bytes: &[u8]) -> (r: Option<Self>)
        ensures
            match r {
                Some(packet) => Self::spec_from_bytes(bytes@) == Some(packet@),
                None => Self::spec_from_bytes(bytes@) is None,
            },
            bytes.len() < ARP_HEADER_SIZE ==> r is None,
    {
        match ArpHeader::from_bytes(bytes) {
            Some(header) => Some(
                Arp { header, data: slice_to_vec(&bytes[ARP_HEADER_SIZE..bytes.len()]) },
            ),
            None => None,
        }
    }

    /// Encodes the packet: the header, then the trailing data.
    pub fn to_bytes(&self) -> (r: Vec<u8>)
        ensures
            r@ == self@.wire(),
    {
        let mut ret = self.header.to_bytes();
        ret.extend_from_slice(self.data.as_slice());
        assert(ret@ =~= self@.wire());
        ret
    }
}

} // verus!
