use crate::checksum::Checksum;
use crate::ip::Ipv4Addr;
use crate::scalar::n16;
use vstd::prelude::*;
use vstd::slice::slice_to_vec;

verus! {

/// The number of octets in a UDP header.
pub const UDP_HEADER_SIZE: usize = 8;

/// The protocol number of UDP in an IPv4 header and pseudo-header.
pub const UDP_PROTOCOL: u8 = 17;

/// The UDP header of RFC 768.
#[derive(Copy, Clone, Debug)]
pub struct UdpHeader {
    /// Source port
    pub src: n16,
    /// Destination port
    pub dst: n16,
    /// Length of header and data together, in octets
    pub len: n16,
    /// Checksum
    pub checksum: Checksum,
}

/// A UDP datagram for IPv4: the header and the data that follows it.
#[derive(Debug)]
pub struct Udp {
    pub header: UdpHeader,
    pub data: Vec<u8>,
}

/// A UDP datagram as a mathematical value.
pub struct UdpView {
    pub header: UdpHeader,
    pub data: Seq<u8>,
}

impl View for Udp {
    type V = UdpView;

    open spec fn view(&self) -> UdpView {
        UdpView { header: self.header, data: self.data@ }
    }
}

impl UdpHeader {
    /// The eight octets of the header as transmitted.
    pub open spec fn wire(self) -> Seq<u8> {
        self.src.wire() + self.dst.wire() + self.len.wire() + self.checksum.wire()
    }

    /// The header that the first eight octets of `bytes` spell.
    pub open spec fn spec_from_wire(bytes: Seq<u8>) -> UdpHeader {
        UdpHeader {
            src: n16::spec_from_wire(bytes[0], bytes[1]),
            dst: n16::spec_from_wire(bytes[2], bytes[3]),
            len: n16::spec_from_wire(bytes[4], bytes[5]),
            checksum: Checksum::spec_from_wire(bytes[6], bytes[7]),
        }
    }

    /// The same header with its checksum field set to `data`.
    pub open spec fn with_checksum(self, data: u16) -> UdpHeader {
        UdpHeader { checksum: Checksum { data }, ..self }
    }

    /// A header occupies eight octets, and reading them gives it back.
    pub proof fn lemma_wire_round_trip(self)
        ensures
            self.wire().len() == UDP_HEADER_SIZE,
            Self::spec_from_wire(self.wire()) == self,
    {
        broadcast use n16::lemma_new_of_view;

        let w = self.wire();
        assert(w =~= seq![
            self.src.wire()[0],
            self.src.wire()[1],
            self.dst.wire()[0],
            self.dst.wire()[1],
            self.len.wire()[0],
            self.len.wire()[1],
            self.checksum.wire()[0],
            self.checksum.wire()[1],
        ]);
        assert(n16::spec_from_wire(w[0], w[1]) == n16::spec_new(self.src@));
        assert(n16::spec_from_wire(w[2], w[3]) == n16::spec_new(self.dst@));
        assert(n16::spec_from_wire(w[4], w[5]) == n16::spec_new(self.len@));
    }

    /// The header read from eight octets is transmitted as those octets.
    pub proof fn lemma_from_wire_round_trip(bytes: Seq<u8>)
        requires
            bytes.len() >= UDP_HEADER_SIZE,
        ensures
            Self::spec_from_wire(bytes).wire() == bytes.subrange(0, UDP_HEADER_SIZE as int),
    {
        broadcast use n16::lemma_from_wire;

        assert(Self::spec_from_wire(bytes).wire() =~= bytes.subrange(0, UDP_HEADER_SIZE as int));
    }

    /// Reads a header from the front of a buffer; `None` where the buffer is
    /// shorter than a header.
    pub fn from_bytes(bytes: &[u8]) -> (r: Option<Self>)
        ensures
            r == (if bytes.len() >= UDP_HEADER_SIZE {
                Some(Self::spec_from_wire(bytes@))
            } else {
                None
            }),
    {
        if bytes.len() < UDP_HEADER_SIZE {
            return None;
        }
        Some(
            UdpHeader {
                src: n16::from_wire(bytes[0], bytes[1]),
                dst: n16::from_wire(bytes[2], bytes[3]),
                len: n16::from_wire(bytes[4], bytes[5]),
                checksum: Checksum::from_wire(bytes[6], bytes[7]),
            },
        )
    }

    /// The header as its eight octets.
    pub fn to_bytes(&self) -> (r: Vec<u8>)
        ensures
            r@ == self.wire(),
    {
        let mut out: Vec<u8> = Vec::new();
        self.src.append_to(&mut out);
        self.dst.append_to(&mut out);
        self.len.append_to(&mut out);
        self.checksum.append_to(&mut out);
        assert(out@ =~= self.wire());
        out
    }
}

impl UdpView {
    /// The datagram as transmitted: header, then data.
    pub open spec fn wire(self) -> Seq<u8> {
        self.header.wire() + self.data
    }

    /// The pseudo-header that is summed in front of the datagram: source
    /// address, destination address, a zero octet, the protocol number, and
    /// the UDP length.  It is never transmitted.
    pub open spec fn spec_pseudo_header(self, src_addr: Ipv4Addr, dst_addr: Ipv4Addr) -> Seq<u8> {
        src_addr.bytes@ + dst_addr.bytes@ + seq![0u8, UDP_PROTOCOL] + self.header.len.wire()
    }

    /// The unfolded sum that the checksum of the datagram is taken from: the
    /// pseudo-header (source address, destination address, a zero octet and
    /// the protocol number, the UDP length), the header with a zero checksum
    /// field, and the data.
    pub open spec fn spec_sum(self, src_addr: Ipv4Addr, dst_addr: Ipv4Addr) -> nat {
        Checksum::spec_sum(src_addr.bytes@) + Checksum::spec_sum(dst_addr.bytes@)
            + Checksum::spec_sum(seq![0u8, UDP_PROTOCOL]) + Checksum::spec_sum(
            self.header.len.wire(),
        ) + Checksum::spec_sum(self.header.with_checksum(0).wire()) + Checksum::spec_sum(
            self.data,
        )
    }

    /// The checksum that a sender stores for this datagram.  A computed zero
    /// is stored as all ones, since a zero field says that there is no
    /// checksum.
    pub open spec fn spec_checksum(self, src_addr: Ipv4Addr, dst_addr: Ipv4Addr) -> u16 {
        let computed = Checksum::spec_compile(self.spec_sum(src_addr, dst_addr));
        if computed == 0 {
            0xFFFF
        } else {
            computed
        }
    }

    /// Whether the datagram passes the check of RFC 768: its checksum field
    /// is zero, or it holds the checksum of the datagram between these two
    /// addresses.
    pub open spec fn spec_is_valid(self, src_addr: Ipv4Addr, dst_addr: Ipv4Addr) -> bool {
        self.header.checksum.data == 0 || self.header.checksum.data == self.spec_checksum(
            src_addr,
            dst_addr,
        )
    }

    /// The sum of the parts is the sum of the whole: of the pseudo-header
    /// followed by the datagram as transmitted with a zero checksum field.
    pub proof fn lemma_sum_of_region(self, src_addr: Ipv4Addr, dst_addr: Ipv4Addr)
        ensures
            self.spec_sum(src_addr, dst_addr) == Checksum::spec_sum(
                self.spec_pseudo_header(src_addr, dst_addr) + self.header.with_checksum(0).wire()
                    + self.data,
            ),
    {
        let a = src_addr.bytes@;
        let b = dst_addr.bytes@;
        let c = seq![0u8, UDP_PROTOCOL];
        let d = self.header.len.wire();
        let e = self.header.with_checksum(0).wire();
        Checksum::lemma_sum_concat(a, b);
        Checksum::lemma_sum_concat(a + b, c);
        Checksum::lemma_sum_concat(a + b + c, d);
        Checksum::lemma_sum_concat(a + b + c + d, e);
        Checksum::lemma_sum_concat(a + b + c + d + e, self.data);
    }

    /// Validity as a receiver tests it: the checksum field is zero, or
    /// pseudo-header, header and data, the checksum field included, sum to
    /// all ones.
    pub proof fn lemma_valid_iff_all_ones(self, src_addr: Ipv4Addr, dst_addr: Ipv4Addr)
        ensures
            self.spec_is_valid(src_addr, dst_addr) <==> (self.header.checksum.data == 0
                || Checksum::spec_fold(
                self.spec_sum(src_addr, dst_addr) + self.header.checksum.data as nat,
            ) == 0xFFFF),
    {
        if self.header.checksum.data != 0 {
            Checksum::lemma_field_matches(
                self.spec_sum(src_addr, dst_addr),
                self.header.checksum.data,
            );
        }
    }

    /// Whether the length field agrees with the data: header and data
    /// together are as long as it says.
    pub open spec fn consistent(self) -> bool {
        self.header.len@ == UDP_HEADER_SIZE + self.data.len()
    }
}

impl Udp {
    /// The datagram at the front of a buffer.  There is one where the buffer
    /// holds a header whose length field covers at least the header and at
    /// most the buffer; its data are the octets between the header and that
    /// length.
    pub open spec fn spec_from_bytes(bytes: Seq<u8>) -> Option<UdpView> {
        if bytes.len() >= UDP_HEADER_SIZE {
            let header = UdpHeader::spec_from_wire(bytes);
            if UDP_HEADER_SIZE <= header.len@ <= bytes.len() {
                Some(UdpView { header, data: bytes.subrange(UDP_HEADER_SIZE as int, header.len@ as int) })
            } else {
                None
            }
        } else {
            None
        }
    }

    /// Encoding a datagram whose length field is consistent and decoding the
    /// result gives the datagram back.
    pub proof fn lemma_round_trip(datagram: UdpView)
        requires
            datagram.consistent(),
        ensures
            Self::spec_from_bytes(datagram.wire()) == Some(datagram),
    {
        let w = datagram.wire();
        datagram.header.lemma_wire_round_trip();
        assert(w.subrange(0, UDP_HEADER_SIZE as int) =~= datagram.header.wire());
        assert(UdpHeader::spec_from_wire(w) == UdpHeader::spec_from_wire(datagram.header.wire()));
        assert(w.subrange(UDP_HEADER_SIZE as int, datagram.header.len@ as int) =~= datagram.data);
    }

    /// A decoded datagram is consistent, and it encodes to the octets it was
    /// decoded from: the front of the buffer, as far as the length field says.
    pub proof fn lemma_decoded_wire(bytes: Seq<u8>)
        requires
            Self::spec_from_bytes(bytes) is Some,
        ensures
            Self::spec_from_bytes(bytes)->0.consistent(),
            Self::spec_from_bytes(bytes)->0.wire() == bytes.subrange(
                0,
                Self::spec_from_bytes(bytes)->0.header.len@ as int,
            ),
    {
        let v = Self::spec_from_bytes(bytes)->0;
        UdpHeader::lemma_from_wire_round_trip(bytes);
        assert(v.wire() =~= bytes.subrange(0, v.header.len@ as int));
    }

    /// Decodes the datagram at the front of a buffer.
    ///
    /// Returns `None`, and reads nothing out of bounds, where the buffer is
    /// shorter than a header, where the length field is smaller than a
    /// header, and where it points past the end of the buffer.  The checksum
    /// is not looked at.
    pub fn from_bytes(bytes: &[u8]) -> (r: Option<Self>)
        ensures
            match r {
                Some(datagram) => Self::spec_from_bytes(bytes@) == Some(datagram@),
                None => Self::spec_from_bytes(bytes@) is None,
            },
            bytes.len() < UDP_HEADER_SIZE ==> r is None,
            bytes.len() >= UDP_HEADER_SIZE && UdpHeader::spec_from_wire(bytes@).len@ > bytes.len()
                ==> r is None,
    {
        match UdpHeader::from_bytes(bytes) {
            Some(header) => {
                let len = header.len.get() as usize;
                if len <= bytes.len() && UDP_HEADER_SIZE <= len {
                    Some(Udp { header, data: slice_to_vec(&bytes[UDP_HEADER_SIZE..len]) })
                } else {
                    None
                }
            },
            None => None,
        }
    }

    /// Encodes the datagram: the header, then the data.
    pub fn to_bytes(&self) -> (r: Vec<u8>)
        ensures
            r@ == self@.wire(),
    {
        let mut ret = self.header.to_bytes();
        ret.extend_from_slice(self.data.as_slice());
        assert(ret@ =~= self@.wire());
        ret
    }

    /// Checks the datagram against its checksum field, for a datagram that
    /// travelled from `src_addr` to `dst_addr`.
    ///
    /// A zero checksum field means that the sender computed none, and the
    /// datagram is valid whatever it holds.  Otherwise the checksum is
    /// computed anew and compared with the field.
    pub fn is_valid(&self, src_addr: &Ipv4Addr, dst_addr: &Ipv4Addr) -> (r: bool)
        ensures
            r == self@.spec_is_valid(*src_addr, *dst_addr),
            self.header.checksum.data == 0 ==> r,
    {
        if self.header.checksum.data == 0 {
            true
        } else {
            let mut header = self.header;
            header.checksum.data = 0;
            let protocol: [u8; 2] = [0, UDP_PROTOCOL];
            let length = header.len.to_wire();
            let header_bytes = header.to_bytes();
            assert(protocol@ =~= seq![0u8, UDP_PROTOCOL]);
            assert(header == self.header.with_checksum(0));
            let total: u128 =
                // Pseudo header
                Checksum::sum_wide(&src_addr.bytes) + Checksum::sum_wide(&dst_addr.bytes)
                + Checksum::sum_wide(&protocol) + Checksum::sum_wide(&length)
                // Real header
                + Checksum::sum_wide(header_bytes.as_slice())
                // Data
                + Checksum::sum_wide(self.data.as_slice());
            let mut computed_checksum: u16 = Checksum::compile_wide(total);
            if computed_checksum == 0 {
                computed_checksum = 0xFFFF;
            }
            computed_checksum == self.header.checksum.data
        }
    }
}

} // verus!
