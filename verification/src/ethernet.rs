use crate::mac::MacAddr;
use crate::scalar::n16;
use vstd::prelude::*;
use vstd::slice::slice_to_vec;

verus! {

/// The number of octets in an Ethernet II header.
pub const ETHERNET_HEADER_SIZE: usize = 14;

/// The header of an Ethernet II frame.
#[derive(Copy, Clone, Debug)]
pub struct EthernetIIHeader {
    pub dst: MacAddr,
    pub src: MacAddr,
    pub ethertype: n16,
}

/// An Ethernet II frame: the header and the payload.  The frame check
/// sequence is not part of it.
#[derive(Debug)]
pub struct EthernetII {
    pub header: EthernetIIHeader,
    pub data: Vec<u8>,
}

/// An Ethernet II frame as a mathematical value.
pub struct EthernetIIView {
    pub header: EthernetIIHeader,
    pub data: Seq<u8>,
}

impl Clone for EthernetII {
    fn clone(&self) -> (r: Self)
        ensures
            r@ == self@,
    {
        EthernetII { header: self.header, data: self.data.clone() }
    }
}

impl View for EthernetII {
    type V = EthernetIIView;

    open spec fn view(&self) -> EthernetIIView {
        EthernetIIView { header: self.header, data: self.data@ }
    }
}

impl EthernetIIHeader {
    /// The fourteen octets of the header as transmitted.
    pub open spec fn wire(self) -> Seq<u8> {
        self.dst.bytes@ + self.src.bytes@ + self.ethertype.wire()
    }

    /// The header that the first fourteen octets of `bytes` spell.
    pub open spec fn spec_from_wire(bytes: Seq<u8>) -> EthernetIIHeader {
        EthernetIIHeader {
            dst: MacAddr::spec_from_wire(bytes),
            src: MacAddr::spec_from_wire(bytes.skip(6)),
            ethertype: n16::spec_from_wire(bytes[12], bytes[13]),
        }
    }

    /// A header occupies fourteen octets, and reading them gives it back.
    pub proof fn lemma_wire_round_trip(self)
        ensures
            self.wire().len() == ETHERNET_HEADER_SIZE,
            Self::spec_from_wire(self.wire()) == self,
    {
        broadcast use n16::lemma_new_of_view;

        let w = self.wire();
        let r = Self::spec_from_wire(w);
        assert(w.len() == 14);
        assert(w[12] == self.ethertype.wire()[0] && w[13] == self.ethertype.wire()[1]);
        assert(r.ethertype == n16::spec_new(self.ethertype@));
        assert(r.dst.bytes =~= self.dst.bytes);
        assert(r.src.bytes =~= self.src.bytes);
    }

    /// The header read from fourteen octets is transmitted as those octets.
    pub proof fn lemma_from_wire_round_trip(bytes: Seq<u8>)
        requires
            bytes.len() >= ETHERNET_HEADER_SIZE,
        ensures
            Self::spec_from_wire(bytes).wire() == bytes.subrange(0, ETHERNET_HEADER_SIZE as int),
    {
        broadcast use n16::lemma_from_wire;

        assert(Self::spec_from_wire(bytes).wire() =~= bytes.subrange(
            0,
            ETHERNET_HEADER_SIZE as int,
        ));
    }

    /// Reads a header from the front of a buffer; `None` where the buffer is
    /// shorter than a header.
    pub fn from_bytes(bytes: &[u8]) -> (r: Option<Self>)
        ensures
            r == (if bytes.len() >= ETHERNET_HEADER_SIZE {
                Some(Self::spec_from_wire(bytes@))
            } else {
                None
            }),
    {
        if bytes.len() < ETHERNET_HEADER_SIZE {
            return None;
        }
        assert(bytes@.skip(0) =~= bytes@);
        Some(
            EthernetIIHeader {
                dst: MacAddr::from_wire(bytes, 0),
                src: MacAddr::from_wire(bytes, 6),
                ethertype: n16::from_wire(bytes[12], bytes[13]),
            },
        )
    }

    /// The header as its fourteen octets.
    pub fn to_bytes(&self) -> (r: Vec<u8>)
        ensures
            r@ == self.wire(),
    {
        let mut out: Vec<u8> = Vec::new();
        self.dst.append_to(&mut out);
        self.src.append_to(&mut out);
        self.ethertype.append_to(&mut out);
        assert(out@ =~= self.wire());
        out
    }
}

impl EthernetIIView {
    /// The frame as transmitted: header, then payload.
    pub open spec fn wire(self) -> Seq<u8> {
        self.header.wire() + self.data
    }
}

impl EthernetII {
    /// The frame that a buffer holds.  There is one where the buffer is at
    /// least as long as a header; the payload is all that follows the header.
    pub open spec fn spec_from_bytes(bytes: Seq<u8>) -> Option<EthernetIIView> {
        if bytes.len() >= ETHERNET_HEADER_SIZE {
            Some(
                EthernetIIView {
                    header: EthernetIIHeader::spec_from_wire(bytes),
                    data: bytes.subrange(ETHERNET_HEADER_SIZE as int, bytes.len() as int),
                },
            )
        } else {
            None
        }
    }

    /// Encoding a frame and decoding the result gives the frame back.
    pub proof fn lemma_round_trip(frame: EthernetIIView)
        ensures
            Self::spec_from_bytes(frame.wire()) == Some(frame),
    {
        let w = frame.wire();
        let r = EthernetIIHeader::spec_from_wire(w);
        let h = EthernetIIHeader::spec_from_wire(frame.header.wire());
        frame.header.lemma_wire_round_trip();
        assert(r.dst.bytes =~= h.dst.bytes);
        assert(r.src.bytes =~= h.src.bytes);
        assert(w.subrange(ETHERNET_HEADER_SIZE as int, w.len() as int) =~= frame.data);
    }

    /// A decoded frame encodes to the buffer it was decoded from.
    pub proof fn lemma_decoded_wire(bytes: Seq<u8>)
        requires
            Self::spec_from_bytes(bytes) is Some,
        ensures
            Self::spec_from_bytes(bytes)->0.wire() == bytes,
    {
        EthernetIIHeader::lemma_from_wire_round_trip(bytes);
        assert(Self::spec_from_bytes(bytes)->0.wire() =~= bytes);
    }

    /// Decodes the frame that a buffer holds.
    ///
    /// Returns `None`, and reads nothing out of bounds, where the buffer is
    /// shorter than a header.
    pub fn from_bytes(bytes: &[u8]) -> (r: Option<Self>)
        ensures
            match r {
                Some(frame) => Self::spec_from_bytes(bytes@) == Some(frame@),
                None => Self::spec_from_bytes(bytes@) is None,
            },
            bytes.len() < ETHERNET_HEADER_SIZE ==> r is None,
    {
        match EthernetIIHeader::from_bytes(bytes) {
            Some(header) => Some(
                EthernetII {
                    header,
                    data: slice_to_vec(&bytes[ETHERNET_HEADER_SIZE..bytes.len()]),
                },
            ),
            None => None,
        }
    }

    /// Encodes the frame: the header, then the payload.
    pub fn to_bytes(&self) -> (r: Vec<u8>)
        ensures
            r@ == self@.wire(),
    {
        let mut ret = self.header.to_bytes();
        ret.extend_from_slice(self.data.as_slice());
        assert(ret@ =~= self@.wire());
        ret
    }
}

} // verus!
