use crate::checksum::Checksum;
use crate::ip::Ipv4Addr;
use crate::scalar::n16;
use vstd::prelude::*;
use vstd::slice::slice_to_vec;

verus! {

/// The number of octets in an IPv4 header without options.
pub const IPV4_HEADER_SIZE: usize = 20;

/// The fixed part of the IPv4 header of RFC 791.
#[derive(Copy, Clone, Debug)]
pub struct Ipv4Header {
    /// Version in the high nibble, header length in 32-bit words in the low
    pub ver_hlen: u8,
    pub services: u8,
    /// Length of header, options and data together, in octets
    pub len: n16,
    pub id: n16,
    pub flags_fragment: n16,
    pub ttl: u8,
    pub proto: u8,
    pub checksum: Checksum,
    pub src: Ipv4Addr,
    pub dst: Ipv4Addr,
}

/// An IPv4 packet: the fixed header, its options, and the data.
#[derive(Debug)]
pub struct Ipv4 {
    pub header: Ipv4Header,
    pub options: Vec<u8>,
    pub data: Vec<u8>,
}

/// An IPv4 packet as a mathematical value.
pub struct Ipv4View {
    pub header: Ipv4Header,
    pub options: Seq<u8>,
    pub data: Seq<u8>,
}

impl Clone for Ipv4 {
    fn clone(&self) -> (r: Self)
        ensures
            r@ == self@,
    {
        Ipv4 { header: self.header, options: self.options.clone(), data: self.data.clone() }
    }
}

impl View for Ipv4 {
    type V = Ipv4View;

    open spec fn view(&self) -> Ipv4View {
        Ipv4View { header: self.header, options: self.options@, data: self.data@ }
    }
}

impl Ipv4Header {
    /// The twenty octets of the header as transmitted.
    pub open spec fn wire(self) -> Seq<u8> {
        seq![self.ver_hlen, self.services] + self.len.wire() + self.id.wire()
            + self.flags_fragment.wire() + seq![self.ttl, self.proto] + self.checksum.wire()
            + self.src.bytes@ + self.dst.bytes@
    }

    /// The header that the first twenty octets of `bytes` spell.
    pub open spec fn spec_from_wire(bytes: Seq<u8>) -> Ipv4Header {
        Ipv4Header {
            ver_hlen: bytes[0],
            services: bytes[1],
            len: n16::spec_from_wire(bytes[2], bytes[3]),
            id: n16::spec_from_wire(bytes[4], bytes[5]),
            flags_fragment: n16::spec_from_wire(bytes[6], bytes[7]),
            ttl: bytes[8],
            proto: bytes[9],
            checksum: Checksum::spec_from_wire(bytes[10], bytes[11]),
            src: Ipv4Addr::spec_from_wire(bytes.skip(12)),
            dst: Ipv4Addr::spec_from_wire(bytes.skip(16)),
        }
    }

    /// The same header with its checksum field set to `data`.
    pub open spec fn with_checksum(self, data: u16) -> Ipv4Header {
        Ipv4Header { checksum: Checksum { data }, ..self }
    }

    /// The length of header and options that the header announces: its low
    /// nibble counts 32-bit words.
    pub open spec fn spec_header_len(self) -> nat {
        ((self.ver_hlen & 0xF) * 4) as nat
    }

    /// The checksum of the header: that of its twenty octets with the
    /// checksum field taken as zero.  Options are not covered.
    pub open spec fn spec_checksum(self) -> u16 {
        Checksum::spec_compile(Checksum::spec_sum(self.with_checksum(0).wire()))
    }

    /// A header occupies twenty octets, and reading them gives it back.
    pub proof fn lemma_wire_round_trip(self)
        ensures
            self.wire().len() == IPV4_HEADER_SIZE,
            Self::spec_from_wire(self.wire()) == self,
    {
        broadcast use n16::lemma_new_of_view;

        let w = self.wire();
        let r = Self::spec_from_wire(w);
        assert(w.len() == 20);
        assert(w[2] == self.len.wire()[0] && w[3] == self.len.wire()[1]);
        assert(w[4] == self.id.wire()[0] && w[5] == self.id.wire()[1]);
        assert(w[6] == self.flags_fragment.wire()[0] && w[7] == self.flags_fragment.wire()[1]);
        assert(w[10] == self.checksum.wire()[0] && w[11] == self.checksum.wire()[1]);
        assert(r.len == n16::spec_new(self.len@));
        assert(r.id == n16::spec_new(self.id@));
        assert(r.flags_fragment == n16::spec_new(self.flags_fragment@));
        assert(r.src.bytes =~= self.src.bytes);
        assert(r.dst.bytes =~= self.dst.bytes);
    }

    /// The header read from twenty octets is transmitted as those octets.
    pub proof fn lemma_from_wire_round_trip(bytes: Seq<u8>)
        requires
            bytes.len() >= IPV4_HEADER_SIZE,
        ensures
            Self::spec_from_wire(bytes).wire() == bytes.subrange(0, IPV4_HEADER_SIZE as int),
    {
        broadcast use n16::lemma_from_wire;

        assert(Self::spec_from_wire(bytes).wire() =~= bytes.subrange(0, IPV4_HEADER_SIZE as int));
    }

    /// The announced header length is a multiple of four, at most 60.
    pub proof fn lemma_header_len_bound(self)
        ensures
            self.spec_header_len() <= 60,
            self.spec_header_len() % 4 == 0,
            self.spec_header_len() == (self.ver_hlen % 16) * 4,
    {
        let b = self.ver_hlen;
        assert(b & 0xF <= 15 && b & 0xF == b % 16) by (bit_vector);
    }

    /// A header that carries its own checksum passes the receiver's test:
    /// the checksum over all twenty octets, the stored field included, is
    /// zero.
    pub proof fn lemma_checksum_verifies(self)
        ensures
            Checksum::spec_compile(
                Checksum::spec_sum(self.with_checksum(self.spec_checksum()).wire()),
            ) == 0,
    {
        let before = seq![self.ver_hlen, self.services] + self.len.wire() + self.id.wire()
            + self.flags_fragment.wire() + seq![self.ttl, self.proto];
        let after = self.src.bytes@ + self.dst.bytes@;
        let zeroed = self.with_checksum(0);
        let stored = self.with_checksum(self.spec_checksum());
        assert(zeroed.wire() =~= before + zeroed.checksum.wire() + after);
        assert(stored.wire() =~= before + stored.checksum.wire() + after);
        Checksum::lemma_sum_around_field(before, zeroed.checksum, after);
        Checksum::lemma_sum_around_field(before, stored.checksum, after);
        Checksum::lemma_checksum_verifies(Checksum::spec_sum(zeroed.wire()));
    }

    /// Reads a header from the front of a buffer; `None` where the buffer is
    /// shorter than a header.
    pub fn from_bytes(bytes: &[u8]) -> (r: Option<Self>)
        ensures
            r == (if bytes.len() >= IPV4_HEADER_SIZE {
                Some(Self::spec_from_wire(bytes@))
            } else {
                None
            }),
    {
        if bytes.len() < IPV4_HEADER_SIZE {
            return None;
        }
        Some(
            Ipv4Header {
                ver_hlen: bytes[0],
                services: bytes[1],
                len: n16::from_wire(bytes[2], bytes[3]),
                id: n16::from_wire(bytes[4], bytes[5]),
                flags_fragment: n16::from_wire(bytes[6], bytes[7]),
                ttl: bytes[8],
                proto: bytes[9],
                checksum: Checksum::from_wire(bytes[10], bytes[11]),
                src: Ipv4Addr::from_wire(bytes, 12),
                dst: Ipv4Addr::from_wire(bytes, 16),
            },
        )
    }

    /// The header as its twenty octets.
    pub fn to_bytes(&self) -> (r: Vec<u8>)
        ensures
            r@ == self.wire(),
    {
        let mut out: Vec<u8> = Vec::new();
        out.push(self.ver_hlen);
        out.push(self.services);
        self.len.append_to(&mut out);
        self.id.append_to(&mut out);
        self.flags_fragment.append_to(&mut out);
        out.push(self.ttl);
        out.push(self.proto);
        self.checksum.append_to(&mut out);
        self.src.append_to(&mut out);
        self.dst.append_to(&mut out);
        assert(out@ =~= self.wire());
        out
    }

    /// The length of header and options in octets, as the low nibble of the
    /// first octet announces it.
    pub fn header_len(&self) -> (r: usize)
        ensures
            r == self.spec_header_len(),
            r <= 60,
    {
        let b = self.ver_hlen;
        assert((b & 0xF) << 2 == (b & 0xF) * 4 && b & 0xF <= 15) by (bit_vector);
        ((self.ver_hlen & 0xF) << 2) as usize
    }
}

impl Ipv4View {
    /// The packet as transmitted: header, then options, then data.
    pub open spec fn wire(self) -> Seq<u8> {
        self.header.wire() + self.options + self.data
    }

    /// Whether the two length fields agree with the packet: the header
    /// length covers header and options, the total length all three parts.
    pub open spec fn consistent(self) -> bool {
        &&& self.header.spec_header_len() == IPV4_HEADER_SIZE + self.options.len()
        &&& self.header.len@ == self.header.spec_header_len() + self.data.len()
    }
}

impl Ipv4 {
    /// The packet at the front of a buffer.  There is one where the buffer
    /// holds a header, the announced header length is at least that of the
    /// fixed header, the header length is at most the total length, and the
    /// total length is at most the length of the buffer.  The options are the
    /// octets between the fixed header and the header length, the data those
    /// between the header length and the total length.
    pub open spec fn spec_from_bytes(bytes: Seq<u8>) -> Option<Ipv4View> {
        if bytes.len() >= IPV4_HEADER_SIZE {
            let header = Ipv4Header::spec_from_wire(bytes);
            let header_len = header.spec_header_len() as int;
            let total_len = header.len@ as int;
            if IPV4_HEADER_SIZE <= header_len <= total_len <= bytes.len() {
                Some(
                    Ipv4View {
                        header,
                        options: bytes.subrange(IPV4_HEADER_SIZE as int, header_len),
                        data: bytes.subrange(header_len, total_len),
                    },
                )
            } else {
                None
            }
        } else {
            None
        }
    }

    /// Encoding a packet whose length fields are consistent and decoding the
    /// result gives the packet back.
    pub proof fn lemma_round_trip(packet: Ipv4View)
        requires
            packet.consistent(),
        ensures
            Self::spec_from_bytes(packet.wire()) == Some(packet),
    {
        let w = packet.wire();
        let header_len = packet.header.spec_header_len() as int;
        packet.header.lemma_wire_round_trip();
        assert(w.subrange(0, IPV4_HEADER_SIZE as int) =~= packet.header.wire());
        Self::lemma_header_of_prefix(w, packet.header.wire());
        assert(w.subrange(IPV4_HEADER_SIZE as int, header_len) =~= packet.options);
        assert(w.subrange(header_len, packet.header.len@ as int) =~= packet.data);
    }

    /// A decoded packet is consistent, and it encodes to the octets it was
    /// decoded from: the front of the buffer, as far as the total length says.
    pub proof fn lemma_decoded_wire(bytes: Seq<u8>)
        requires
            Self::spec_from_bytes(bytes) is Some,
        ensures
            Self::spec_from_bytes(bytes)->0.consistent(),
            Self::spec_from_bytes(bytes)->0.wire() == bytes.subrange(
                0,
                Self::spec_from_bytes(bytes)->0.header.len@ as int,
            ),
    {
        let v = Self::spec_from_bytes(bytes)->0;
        Ipv4Header::lemma_from_wire_round_trip(bytes);
        assert(v.wire() =~= bytes.subrange(0, v.header.len@ as int));
    }

    /// Reading a header looks at the first twenty octets only.
    proof fn lemma_header_of_prefix(bytes: Seq<u8>, prefix: Seq<u8>)
        requires
            prefix.len() == IPV4_HEADER_SIZE,
            bytes.len() >= IPV4_HEADER_SIZE,
            bytes.subrange(0, IPV4_HEADER_SIZE as int) == prefix,
        ensures
            Ipv4Header::spec_from_wire(bytes) == Ipv4Header::spec_from_wire(prefix),
    {
        let a = Ipv4Header::spec_from_wire(bytes);
        let b = Ipv4Header::spec_from_wire(prefix);
        assert forall|i: int| 0 <= i < 20 implies bytes[i] == prefix[i] by {
            assert(bytes.subrange(0, 20)[i] == bytes[i]);
        }
        assert(a.src.bytes =~= b.src.bytes);
        assert(a.dst.bytes =~= b.dst.bytes);
    }

    /// Computes the header checksum and stores it in the header.
    ///
    /// The checksum covers the twenty octets of the fixed header, with the
    /// checksum field itself taken as zero.  The options are not part of it.
    pub fn checksum(&mut self)
        ensures
            final(self).header == old(self).header.with_checksum(old(self).header.spec_checksum()),
            final(self).options == old(self).options,
            final(self).data == old(self).data,
    {
        self.header.checksum.data = 0;
        let header_bytes = self.header.to_bytes();
        self.header.checksum.data = Checksum::compile_wide(
            Checksum::sum_wide(header_bytes.as_slice()),
        );
    }

    /// Decodes the packet at the front of a buffer.
    ///
    /// Returns `None`, and reads nothing out of bounds, where the buffer is
    /// shorter than the fixed header, where the announced header length is
    /// shorter than the fixed header, and where the length fields are
    /// inconsistent or point past the end of the buffer.  The checksum is not
    /// looked at.
    pub fn from_bytes(bytes: &[u8]) -> (r: Option<Self>)
        ensures
            match r {
                Some(packet) => Self::spec_from_bytes(bytes@) == Some(packet@),
                None => Self::spec_from_bytes(bytes@) is None,
            },
            bytes.len() < IPV4_HEADER_SIZE ==> r is None,
            bytes.len() >= IPV4_HEADER_SIZE && Ipv4Header::spec_from_wire(bytes@).len@
                > bytes.len() ==> r is None,
            bytes.len() >= IPV4_HEADER_SIZE && Ipv4Header::spec_from_wire(
                bytes@,
            ).spec_header_len() > bytes.len() ==> r is None,
            bytes.len() >= IPV4_HEADER_SIZE && Ipv4Header::spec_from_wire(
                bytes@,
            ).spec_header_len() < IPV4_HEADER_SIZE ==> r is None,
    {
        match Ipv4Header::from_bytes(bytes) {
            Some(header) => {
                let header_len = header.header_len();
                let total_len = header.len.get() as usize;
                if header_len >= IPV4_HEADER_SIZE && header_len <= bytes.len() && total_len
                    <= bytes.len() && header_len <= total_len {
                    Some(
                        Ipv4 {
                            header,
                            options: slice_to_vec(&bytes[IPV4_HEADER_SIZE..header_len]),
                            data: slice_to_vec(&bytes[header_len..total_len]),
                        },
                    )
                } else {
                    None
                }
            },
            None => None,
        }
    }

    /// Encodes the packet: the header, then the options, then the data.
    pub fn to_bytes(&self) -> (r: Vec<u8>)
        ensures
            r@ == self@.wire(),
    {
        let mut ret = self.header.to_bytes();
        ret.extend_from_slice(self.options.as_slice());
        ret.extend_from_slice(self.data.as_slice());
        assert(ret@ =~= self@.wire());
        ret
    }
}

} // verus!
