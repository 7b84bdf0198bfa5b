use crate::checksum::Checksum;
use crate::ip::Ipv4Addr;
use crate::scalar::{n16, n32};
use vstd::prelude::*;
use vstd::slice::slice_to_vec;

verus! {

/// Flag bit of the flags word: no more data from the sender.
pub const TCP_FIN: u16 = 1;

/// Flag bit of the flags word: synchronise sequence numbers.
pub const TCP_SYN: u16 = 1 << 1;

/// Flag bit of the flags word: reset the connection.
pub const TCP_RST: u16 = 1 << 2;

/// Flag bit of the flags word: push the data to the receiver.
pub const TCP_PSH: u16 = 1 << 3;

/// Flag bit of the flags word: the acknowledgment number is significant.
pub const TCP_ACK: u16 = 1 << 4;

/// The number of octets in a TCP header without options.
pub const TCP_HEADER_SIZE: usize = 20;

/// The protocol number of TCP in an IPv4 header and pseudo-header.
pub const TCP_PROTOCOL: u8 = 6;

/// The fixed part of the TCP header of RFC 793.
#[derive(Copy, Clone, Debug)]
pub struct TcpHeader {
    pub src: n16,
    pub dst: n16,
    pub sequence: n32,
    pub ack_num: n32,
    /// Data offset in 32-bit words in the top nibble, flag bits below
    pub flags: n16,
    pub window_size: n16,
    pub checksum: Checksum,
    pub urgent_pointer: n16,
}

/// A TCP segment: the fixed header, its options, and the data.
#[derive(Debug)]
pub struct Tcp {
    pub header: TcpHeader,
    pub options: Vec<u8>,
    pub data: Vec<u8>,
}

/// A TCP segment as a mathematical value.
pub struct TcpView {
    pub header: TcpHeader,
    pub options: Seq<u8>,
    pub data: Seq<u8>,
}

impl Clone for Tcp {
    fn clone(&self) -> (r: Self)
        ensures
            r@ == self@,
    {
        Tcp { header: self.header, options: self.options.clone(), data: self.data.clone() }
    }
}

impl View for Tcp {
    type V = TcpView;

    open spec fn view(&self) -> TcpView {
        TcpView { header: self.header, options: self.options@, data: self.data@ }
    }
}

impl TcpHeader {
    /// The twenty octets of the header as transmitted.
    pub open spec fn wire(self) -> Seq<u8> {
        self.src.wire() + self.dst.wire() + self.sequence.wire() + self.ack_num.wire()
            + self.flags.wire() + self.window_size.wire() + self.checksum.wire()
            + self.urgent_pointer.wire()
    }

    /// The header that the first twenty octets of `bytes` spell.
    pub open spec fn spec_from_wire(bytes: Seq<u8>) -> TcpHeader {
        TcpHeader {
            src: n16::spec_from_wire(bytes[0], bytes[1]),
            dst: n16::spec_from_wire(bytes[2], bytes[3]),
            sequence: n32::spec_from_wire(bytes[4], bytes[5], bytes[6], bytes[7]),
            ack_num: n32::spec_from_wire(bytes[8], bytes[9], bytes[10], bytes[11]),
            flags: n16::spec_from_wire(bytes[12], bytes[13]),
            window_size: n16::spec_from_wire(bytes[14], bytes[15]),
            checksum: Checksum::spec_from_wire(bytes[16], bytes[17]),
            urgent_pointer: n16::spec_from_wire(bytes[18], bytes[19]),
        }
    }

    /// The same header with its checksum field set to `data`.
    pub open spec fn with_checksum(self, data: u16) -> TcpHeader {
        TcpHeader { checksum: Checksum { data }, ..self }
    }

    /// The length of header and options that the header announces: the top
    /// nibble of the flags word counts 32-bit words.
    pub open spec fn spec_header_len(self) -> nat {
        ((self.flags@ & 0xF000) >> 10) as nat
    }

    /// A header occupies twenty octets, and reading them gives it back.
    pub proof fn lemma_wire_round_trip(self)
        ensures
            self.wire().len() == TCP_HEADER_SIZE,
            Self::spec_from_wire(self.wire()) == self,
    {
        broadcast use n16::lemma_new_of_view, n32::lemma_new_of_view;

        let w = self.wire();
        let r = Self::spec_from_wire(w);
        assert(w.len() == 20);
        assert(w[0] == self.src.wire()[0] && w[1] == self.src.wire()[1]);
        assert(w[2] == self.dst.wire()[0] && w[3] == self.dst.wire()[1]);
        assert(w[4] == self.sequence.wire()[0] && w[5] == self.sequence.wire()[1] && w[6]
            == self.sequence.wire()[2] && w[7] == self.sequence.wire()[3]);
        assert(w[8] == self.ack_num.wire()[0] && w[9] == self.ack_num.wire()[1] && w[10]
            == self.ack_num.wire()[2] && w[11] == self.ack_num.wire()[3]);
        assert(w[12] == self.flags.wire()[0] && w[13] == self.flags.wire()[1]);
        assert(w[14] == self.window_size.wire()[0] && w[15] == self.window_size.wire()[1]);
        assert(w[16] == self.checksum.wire()[0] && w[17] == self.checksum.wire()[1]);
        assert(w[18] == self.urgent_pointer.wire()[0] && w[19] == self.urgent_pointer.wire()[1]);
        assert(r.src == n16::spec_new(self.src@));
        assert(r.dst == n16::spec_new(self.dst@));
        assert(r.sequence == n32::spec_new(self.sequence@));
        assert(r.ack_num == n32::spec_new(self.ack_num@));
        assert(r.flags == n16::spec_new(self.flags@));
        assert(r.window_size == n16::spec_new(self.window_size@));
        assert(r.urgent_pointer == n16::spec_new(self.urgent_pointer@));
    }

    /// The header read from twenty octets is transmitted as those octets.
    pub proof fn lemma_from_wire_round_trip(bytes: Seq<u8>)
        requires
            bytes.len() >= TCP_HEADER_SIZE,
        ensures
            Self::spec_from_wire(bytes).wire() == bytes.subrange(0, TCP_HEADER_SIZE as int),
    {
        broadcast use n16::lemma_from_wire, n32::lemma_from_wire;

        assert(Self::spec_from_wire(bytes).wire() =~= bytes.subrange(0, TCP_HEADER_SIZE as int));
    }

    /// The announced header length is four times the top nibble of the flags
    /// word: a multiple of four, at most 60.
    pub proof fn lemma_header_len_bound(self)
        ensures
            self.spec_header_len() <= 60,
            self.spec_header_len() == (self.flags@ / 0x1000) * 4,
    {
        let f = self.flags@;
        assert((f & 0xF000) >> 10 <= 60 && (f & 0xF000) >> 10 == (f / 0x1000) * 4) by (bit_vector);
    }

    /// Reads a header from the front of a buffer; `None` where the buffer is
    /// shorter than a header.
    pub fn from_bytes(bytes: &[u8]) -> (r: Option<Self>)
        ensures
            r == (if bytes.len() >= TCP_HEADER_SIZE {
                Some(Self::spec_from_wire(bytes@))
            } else {
                None
            }),
    {
        if bytes.len() < TCP_HEADER_SIZE {
            return None;
        }
        Some(
            TcpHeader {
                src: n16::from_wire(bytes[0], bytes[1]),
                dst: n16::from_wire(bytes[2], bytes[3]),
                sequence: n32::from_wire(bytes[4], bytes[5], bytes[6], bytes[7]),
                ack_num: n32::from_wire(bytes[8], bytes[9], bytes[10], bytes[11]),
                flags: n16::from_wire(bytes[12], bytes[13]),
                window_size: n16::from_wire(bytes[14], bytes[15]),
                checksum: Checksum::from_wire(bytes[16], bytes[17]),
                urgent_pointer: n16::from_wire(bytes[18], bytes[19]),
            },
        )
    }

    /// The header as its twenty octets.
    pub fn to_bytes(&self) -> (r: Vec<u8>)
        ensures
            r@ == self.wire(),
    {
        let mut out: Vec<u8> = Vec::new();
        self.src.append_to(&mut out);
        self.dst.append_to(&mut out);
        self.sequence.append_to(&mut out);
        self.ack_num.append_to(&mut out);
        self.flags.append_to(&mut out);
        self.window_size.append_to(&mut out);
        self.checksum.append_to(&mut out);
        self.urgent_pointer.append_to(&mut out);
        assert(out@ =~= self.wire());
        out
    }

    /// The length of header and options in octets, as the data offset in the
    /// flags word announces it.
    pub fn header_len(&self) -> (r: usize)
        ensures
            r == self.spec_header_len(),
            r <= 60,
    {
        let f = self.flags.get();
        assert((f & 0xF000) >> 10 <= 60) by (bit_vector);
        ((f & 0xF000) >> 10) as usize
    }
}

impl TcpView {
    /// The segment as transmitted: header, then options, then data.
    pub open spec fn wire(self) -> Seq<u8> {
        self.header.wire() + self.options + self.data
    }

    /// The segment length that enters the pseudo-header: the octets of
    /// header, options and data, cut to 16 bits.
    pub open spec fn spec_segment_len(self) -> u16 {
        ((TCP_HEADER_SIZE + self.options.len() + self.data.len()) % 0x1_0000) as u16
    }

    /// The pseudo-header that is summed in front of the segment: source
    /// address, destination address, a zero octet, the protocol number, and
    /// the segment length.  It is never transmitted.
    pub open spec fn spec_pseudo_header(self, src_addr: Ipv4Addr, dst_addr: Ipv4Addr) -> Seq<u8> {
        src_addr.bytes@ + dst_addr.bytes@ + seq![0u8, TCP_PROTOCOL] + n16::spec_new(
            self.spec_segment_len(),
        ).wire()
    }

    /// The unfolded sum that the checksum of the segment is taken from: the
    /// pseudo-header (source address, destination address, a zero octet and
    /// the protocol number, the segment length), the header with a zero
    /// checksum field, the options, and the data, each summed by itself.
    pub open spec fn spec_sum(self, src_addr: Ipv4Addr, dst_addr: Ipv4Addr) -> nat {
        Checksum::spec_sum(src_addr.bytes@) + Checksum::spec_sum(dst_addr.bytes@)
            + Checksum::spec_sum(seq![0u8, TCP_PROTOCOL]) + Checksum::spec_sum(
            n16::spec_new(self.spec_segment_len()).wire(),
        ) + Checksum::spec_sum(self.header.with_checksum(0).wire()) + Checksum::spec_sum(
            self.options,
        ) + Checksum::spec_sum(self.data)
    }

    /// The checksum of the segment between two addresses.
    pub open spec fn spec_checksum(self, src_addr: Ipv4Addr, dst_addr: Ipv4Addr) -> u16 {
        Checksum::spec_compile(self.spec_sum(src_addr, dst_addr))
    }

    /// Where the options end on a word boundary, the sum of the parts is the
    /// sum of the whole: of the pseudo-header followed by the segment as
    /// transmitted with a zero checksum field.
    pub proof fn lemma_sum_of_region(self, src_addr: Ipv4Addr, dst_addr: Ipv4Addr)
        requires
            self.options.len() % 2 == 0,
        ensures
            self.spec_sum(src_addr, dst_addr) == Checksum::spec_sum(
                self.spec_pseudo_header(src_addr, dst_addr) + self.header.with_checksum(0).wire()
                    + self.options + self.data,
            ),
    {
        let a = src_addr.bytes@;
        let b = dst_addr.bytes@;
        let c = seq![0u8, TCP_PROTOCOL];
        let d = n16::spec_new(self.spec_segment_len()).wire();
        let e = self.header.with_checksum(0).wire();
        Checksum::lemma_sum_concat(a, b);
        Checksum::lemma_sum_concat(a + b, c);
        Checksum::lemma_sum_concat(a + b + c, d);
        Checksum::lemma_sum_concat(a + b + c + d, e);
        Checksum::lemma_sum_concat(a + b + c + d + e, self.options);
        Checksum::lemma_sum_concat(a + b + c + d + e + self.options, self.data);
    }

    /// A segment that carries its own checksum passes the receiver's test:
    /// the checksum over pseudo-header, header, options and data, the stored
    /// field included, is zero.
    pub proof fn lemma_checksum_verifies(self, src_addr: Ipv4Addr, dst_addr: Ipv4Addr)
        ensures
            Checksum::spec_compile(
                (self.spec_sum(src_addr, dst_addr) + self.spec_checksum(src_addr, dst_addr)) as nat,
            ) == 0,
            Checksum::spec_sum(
                self.header.with_checksum(self.spec_checksum(src_addr, dst_addr)).wire(),
            ) == Checksum::spec_sum(self.header.with_checksum(0).wire()) + self.spec_checksum(
                src_addr,
                dst_addr,
            ),
    {
        let h = self.header;
        let before = h.src.wire() + h.dst.wire() + h.sequence.wire() + h.ack_num.wire()
            + h.flags.wire() + h.window_size.wire();
        let after = h.urgent_pointer.wire();
        let zeroed = h.with_checksum(0);
        let stored = h.with_checksum(self.spec_checksum(src_addr, dst_addr));
        assert(zeroed.wire() =~= before + zeroed.checksum.wire() + after);
        assert(stored.wire() =~= before + stored.checksum.wire() + after);
        Checksum::lemma_sum_around_field(before, zeroed.checksum, after);
        Checksum::lemma_sum_around_field(before, stored.checksum, after);
        Checksum::lemma_checksum_verifies(self.spec_sum(src_addr, dst_addr));
    }

    /// Whether the data offset agrees with the segment: it covers header and
    /// options.
    pub open spec fn consistent(self) -> bool {
        self.header.spec_header_len() == TCP_HEADER_SIZE + self.options.len()
    }
}

impl Tcp {
    /// The segment that a buffer holds.  There is one where the buffer holds
    /// a header whose data offset covers at least the fixed header and at
    /// most the buffer.  The options are the octets between the fixed header
    /// and the data offset, the data all that follow.
    pub open spec fn spec_from_bytes(bytes: Seq<u8>) -> Option<TcpView> {
        if bytes.len() >= TCP_HEADER_SIZE {
            let header = TcpHeader::spec_from_wire(bytes);
            let header_len = header.spec_header_len() as int;
            if TCP_HEADER_SIZE <= header_len <= bytes.len() {
                Some(
                    TcpView {
                        header,
                        options: bytes.subrange(TCP_HEADER_SIZE as int, header_len),
                        data: bytes.subrange(header_len, bytes.len() as int),
                    },
                )
            } else {
                None
            }
        } else {
            None
        }
    }

    /// Encoding a segment whose data offset is consistent and decoding the
    /// result gives the segment back.
    pub proof fn lemma_round_trip(segment: TcpView)
        requires
            segment.consistent(),
        ensures
            Self::spec_from_bytes(segment.wire()) == Some(segment),
    {
        let w = segment.wire();
        let header_len = segment.header.spec_header_len() as int;
        segment.header.lemma_wire_round_trip();
        assert(w.subrange(0, TCP_HEADER_SIZE as int) =~= segment.header.wire());
        assert(TcpHeader::spec_from_wire(w) == TcpHeader::spec_from_wire(segment.header.wire()));
        assert(w.subrange(TCP_HEADER_SIZE as int, header_len) =~= segment.options);
        assert(w.subrange(header_len, w.len() as int) =~= segment.data);
    }

    /// A decoded segment is consistent, and it encodes to the buffer it was
    /// decoded from.
    pub proof fn lemma_decoded_wire(bytes: Seq<u8>)
        requires
            Self::spec_from_bytes(bytes) is Some,
        ensures
            Self::spec_from_bytes(bytes)->0.consistent(),
            Self::spec_from_bytes(bytes)->0.wire() == bytes,
    {
        let v = Self::spec_from_bytes(bytes)->0;
        TcpHeader::lemma_from_wire_round_trip(bytes);
        assert(v.wire() =~= bytes);
    }

    /// The number of octets in header, options and data, cut to 16 bits as
    /// the pseudo-header holds it.
    pub fn segment_len(&self) -> (r: u16)
        ensures
            r == self@.spec_segment_len(),
    {
        let options_len: usize = self.options.len() % 0x1_0000;
        let data_len: usize = self.data.len() % 0x1_0000;
        let total: usize = (TCP_HEADER_SIZE + options_len + data_len) % 0x1_0000;
        assert(total == (TCP_HEADER_SIZE + self.options.len() + self.data.len()) % 0x1_0000) by {
            let a = self.options.len() as int;
            let b = self.data.len() as int;
            assert(a == 0x1_0000 * (a / 0x1_0000) + a % 0x1_0000);
            assert(b == 0x1_0000 * (b / 0x1_0000) + b % 0x1_0000);
            vstd::arithmetic::div_mod::lemma_mod_multiples_vanish(
                a / 0x1_0000 + b / 0x1_0000,
                20 + a % 0x1_0000 + b % 0x1_0000,
                0x1_0000,
            );
        }
        total as u16
    }

    /// Computes the checksum of the segment for its way from `src_addr` to
    /// `dst_addr` and stores it in the header.
    ///
    /// The checksum covers the pseudo-header, the header with the checksum
    /// field taken as zero, the options and the data.
    pub fn checksum(&mut self, src_addr: &Ipv4Addr, dst_addr: &Ipv4Addr)
        ensures
            final(self).header == old(self).header.with_checksum(
                old(self)@.spec_checksum(*src_addr, *dst_addr),
            ),
            final(self).options == old(self).options,
            final(self).data == old(self).data,
    {
        self.header.checksum.data = 0;

        let proto: [u8; 2] = [0, TCP_PROTOCOL];
        let segment_len = n16::new(self.segment_len()).to_wire();
        let header_bytes = self.header.to_bytes();
        assert(proto@ =~= seq![0u8, TCP_PROTOCOL]);
        let total: u128 = Checksum::sum_wide(&src_addr.bytes) + Checksum::sum_wide(&dst_addr.bytes)
            + Checksum::sum_wide(&segment_len) + Checksum::sum_wide(&proto) + Checksum::sum_wide(
            header_bytes.as_slice(),
        ) + Checksum::sum_wide(self.options.as_slice()) + Checksum::sum_wide(
            self.data.as_slice(),
        );
        self.header.checksum.data = Checksum::compile_wide(total);
    }

    /// Decodes the segment that a buffer holds.
    ///
    /// Returns `None`, and reads nothing out of bounds, where the buffer is
    /// shorter than the fixed header, where the data offset is smaller than
    /// the fixed header, and where it points past the end of the buffer.  The
    /// checksum is not looked at.
    pub fn from_bytes(bytes: &[u8]) -> (r: Option<Self>)
        ensures
            match r {
                Some(segment) => Self::spec_from_bytes(bytes@) == Some(segment@),
                None => Self::spec_from_bytes(bytes@) is None,
            },
            bytes.len() < TCP_HEADER_SIZE ==> r is None,
            bytes.len() >= TCP_HEADER_SIZE && TcpHeader::spec_from_wire(
                bytes@,
            ).spec_header_len() > bytes.len() ==> r is None,
            bytes.len() >= TCP_HEADER_SIZE && TcpHeader::spec_from_wire(
                bytes@,
            ).spec_header_len() < TCP_HEADER_SIZE ==> r is None,
    {
        match TcpHeader::from_bytes(bytes) {
            Some(header) => {
                let header_len = header.header_len();
                if header_len >= TCP_HEADER_SIZE && header_len <= bytes.len() {
                    Some(
                        Tcp {
                            header,
                            options: slice_to_vec(&bytes[TCP_HEADER_SIZE..header_len]),
                            data: slice_to_vec(&bytes[header_len..bytes.len()]),
                        },
                    )
                } else {
                    None
                }
            },
            None => None,
        }
    }

    /// Encodes the segment: the header, then the options, then the data.
    pub fn to_bytes(&self) -> (r: Vec<u8>)
        ensures
            r@ == self@.wire(),
    {
        let mut ret = self.header.to_bytes();
        ret.extend_from_slice(self.options.as_slice());
        ret.extend_from_slice(self.data.as_slice());
        assert(ret@ =~= self@.wire());
        ret
    }
}

} // verus!
