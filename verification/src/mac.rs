use crate::octets::{lexical_compare, lexical_order};
use crate::text::{
    chars_of, hex_octet, lemma_hex_pair, lemma_split_join, lemma_split_none, push_hex_pair, split,
    spec_hex_octet, spec_hex_pair, spec_split, views,
};
use core::cmp::Ordering;
use vstd::prelude::*;
use vstd::std_specs::cmp::{PartialEqSpecImpl, PartialOrdSpecImpl};
use vstd::string::StringExecFns;

verus! {

/// A 48-bit hardware address: six octets in transmission order.
#[derive(Copy, Clone, Debug, Eq, Ord)]
pub struct MacAddr {
    pub bytes: [u8; 6],
}

impl PartialEq for MacAddr {
    fn eq(&self, other: &Self) -> (r: bool) {
        let same = self.bytes[0] == other.bytes[0] && self.bytes[1] == other.bytes[1]
            && self.bytes[2] == other.bytes[2] && self.bytes[3] == other.bytes[3]
            && self.bytes[4] == other.bytes[4] && self.bytes[5] == other.bytes[5];
        assert(same ==> self.bytes =~= other.bytes);
        same
    }
}

impl PartialEqSpecImpl for MacAddr {
    open spec fn obeys_eq_spec() -> bool {
        true
    }

    open spec fn eq_spec(&self, other: &Self) -> bool {
        self.bytes == other.bytes
    }
}

impl PartialOrd for MacAddr {
    fn partial_cmp(&self, other: &Self) -> (r: Option<Ordering>) {
        Some(lexical_compare(&self.bytes, &other.bytes))
    }
}

impl PartialOrdSpecImpl for MacAddr {
    open spec fn obeys_partial_cmp_spec() -> bool {
        true
    }

    /// Addresses are ordered as their octet strings are.
    open spec fn partial_cmp_spec(&self, other: &Self) -> Option<Ordering> {
        Some(lexical_order(self.bytes@, other.bytes@))
    }
}

impl Default for MacAddr {
    /// The all-zero address.
    fn default() -> (r: Self)
        ensures
            r == Self::spec_zero(),
    {
        MacAddr { bytes: [0, 0, 0, 0, 0, 0] }
    }
}

impl MacAddr {
    /// The all-zero address, which also stands for text that is no address.
    pub open spec fn spec_zero() -> MacAddr {
        MacAddr { bytes: [0u8, 0u8, 0u8, 0u8, 0u8, 0u8] }
    }

    /// The address that the first six octets of `bytes` spell.
    pub open spec fn spec_from_wire(bytes: Seq<u8>) -> MacAddr {
        MacAddr { bytes: [bytes[0], bytes[1], bytes[2], bytes[3], bytes[4], bytes[5]] }
    }

    /// An address is the one that its own octets spell.
    pub broadcast proof fn lemma_from_wire(addr: MacAddr)
        ensures
            #[trigger] Self::spec_from_wire(addr.bytes@) == addr,
    {
        assert(Self::spec_from_wire(addr.bytes@).bytes =~= addr.bytes);
    }

    /// The octets that spell an address are its octets.
    pub broadcast proof fn lemma_wire_of_from_wire(bytes: Seq<u8>)
        requires
            bytes.len() >= 6,
        ensures
            (#[trigger] Self::spec_from_wire(bytes)).bytes@ == bytes.subrange(0, 6),
    {
        assert(Self::spec_from_wire(bytes).bytes@ =~= bytes.subrange(0, 6));
    }

    /// The address that a text spells with the delimiter `delimeter`: the
    /// text has exactly six pieces between delimiters, and each piece is an
    /// octet in one or two hexadecimal digits.
    pub open spec fn spec_parse(s: Seq<char>, delimeter: char) -> Option<MacAddr> {
        let parts = spec_split(s, delimeter);
        if parts.len() == 6 && (forall|k: int|
            0 <= k < 6 ==> spec_hex_octet(#[trigger] parts[k]) is Some) {
            Some(
                MacAddr {
                    bytes: [
                        spec_hex_octet(parts[0])->0,
                        spec_hex_octet(parts[1])->0,
                        spec_hex_octet(parts[2])->0,
                        spec_hex_octet(parts[3])->0,
                        spec_hex_octet(parts[4])->0,
                        spec_hex_octet(parts[5])->0,
                    ],
                },
            )
        } else {
            None
        }
    }

    /// The address that a text stands for: the one it spells with colons,
    /// else the one it spells with dashes, else the all-zero address.
    pub open spec fn spec_from_str(s: Seq<char>) -> MacAddr {
        match Self::spec_parse(s, ':') {
            Some(addr) => addr,
            None => match Self::spec_parse(s, '-') {
                Some(addr) => addr,
                None => Self::spec_zero(),
            },
        }
    }

    /// The address that a text spells, with colons or with dashes; `None`
    /// where it spells none.
    pub open spec fn spec_try_from_str(s: Seq<char>) -> Option<MacAddr> {
        match Self::spec_parse(s, ':') {
            Some(addr) => Some(addr),
            None => Self::spec_parse(s, '-'),
        }
    }

    /// The address as text: six pairs of upper-case hexadecimal digits with
    /// dashes between them.
    pub open spec fn spec_text(self) -> Seq<char> {
        spec_hex_pair(self.bytes[0]) + seq!['-'] + spec_hex_pair(self.bytes[1]) + seq!['-']
            + spec_hex_pair(self.bytes[2]) + seq!['-'] + spec_hex_pair(self.bytes[3]) + seq!['-']
            + spec_hex_pair(self.bytes[4]) + seq!['-'] + spec_hex_pair(self.bytes[5])
    }

    /// The text of an address has the six digit pairs of its octets as its
    /// pieces between dashes, and holds no colon.
    pub proof fn lemma_text_pieces(self)
        ensures
            spec_split(self.spec_text(), '-') == seq![
                spec_hex_pair(self.bytes[0]),
                spec_hex_pair(self.bytes[1]),
                spec_hex_pair(self.bytes[2]),
                spec_hex_pair(self.bytes[3]),
                spec_hex_pair(self.bytes[4]),
                spec_hex_pair(self.bytes[5]),
            ],
            spec_split(self.spec_text(), ':') == seq![self.spec_text()],
    {
        let pair0 = spec_hex_pair(self.bytes[0]);
        let pair1 = spec_hex_pair(self.bytes[1]);
        let pair2 = spec_hex_pair(self.bytes[2]);
        let pair3 = spec_hex_pair(self.bytes[3]);
        let pair4 = spec_hex_pair(self.bytes[4]);
        let pair5 = spec_hex_pair(self.bytes[5]);
        let dash = seq!['-'];
        let tail4 = pair4 + dash + pair5;
        let tail3 = pair3 + dash + tail4;
        let tail2 = pair2 + dash + tail3;
        let tail1 = pair1 + dash + tail2;
        let tail0 = pair0 + dash + tail1;
        lemma_hex_pair(self.bytes[0]);
        lemma_hex_pair(self.bytes[1]);
        lemma_hex_pair(self.bytes[2]);
        lemma_hex_pair(self.bytes[3]);
        lemma_hex_pair(self.bytes[4]);
        lemma_hex_pair(self.bytes[5]);
        lemma_split_none(pair0, '-');
        lemma_split_none(pair1, '-');
        lemma_split_none(pair2, '-');
        lemma_split_none(pair3, '-');
        lemma_split_none(pair4, '-');
        lemma_split_none(pair5, '-');
        lemma_split_join(pair4, pair5, '-');
        lemma_split_join(pair3, tail4, '-');
        lemma_split_join(pair2, tail3, '-');
        lemma_split_join(pair1, tail2, '-');
        lemma_split_join(pair0, tail1, '-');
        assert(spec_split(tail4, '-') =~= seq![pair4, pair5]);
        assert(spec_split(tail3, '-') =~= seq![pair3, pair4, pair5]);
        assert(spec_split(tail2, '-') =~= seq![pair2, pair3, pair4, pair5]);
        assert(spec_split(tail1, '-') =~= seq![pair1, pair2, pair3, pair4, pair5]);
        assert(spec_split(tail0, '-') =~= seq![pair0, pair1, pair2, pair3, pair4, pair5]);
        assert(self.spec_text() =~= tail0);
        assert forall|i: int| 0 <= i < tail0.len() implies tail0[i] != ':' by {
            let k = i % 3;
            let j = i / 3;
            if k < 2 {
                if j == 0 {
                    assert(tail0[i] == pair0[k]);
                } else if j == 1 {
                    assert(tail0[i] == pair1[k]);
                } else if j == 2 {
                    assert(tail0[i] == pair2[k]);
                } else if j == 3 {
                    assert(tail0[i] == pair3[k]);
                } else if j == 4 {
                    assert(tail0[i] == pair4[k]);
                } else {
                    assert(tail0[i] == pair5[k]);
                }
            } else {
                assert(tail0[i] == '-');
            }
        }
        lemma_split_none(tail0, ':');
    }

    /// Writing an address as text and reading the text gives the address
    /// back.
    pub proof fn lemma_text_round_trip(self)
        ensures
            Self::spec_parse(self.spec_text(), '-') == Some(self),
            Self::spec_parse(self.spec_text(), ':') is None,
            Self::spec_try_from_str(self.spec_text()) == Some(self),
            Self::spec_from_str(self.spec_text()) == self,
    {
        self.lemma_text_pieces();
        lemma_hex_pair(self.bytes[0]);
        lemma_hex_pair(self.bytes[1]);
        lemma_hex_pair(self.bytes[2]);
        lemma_hex_pair(self.bytes[3]);
        lemma_hex_pair(self.bytes[4]);
        lemma_hex_pair(self.bytes[5]);
        let parsed = Self::spec_parse(self.spec_text(), '-');
        assert(parsed is Some);
        assert(parsed->0.bytes =~= self.bytes);
    }

    /// Reads an address from text: hexadecimal octets with colons between
    /// them, or with dashes.  A text that is no address in either form
    /// yields the all-zero address.
    pub fn from_str(string: &str) -> (r: Self)
        ensures
            r == Self::spec_from_str(string@),
    {
        match MacAddr::try_parse_with_delimeter(string, ':') {
            Some(addr) => addr,
            None => match MacAddr::try_parse_with_delimeter(string, '-') {
                Some(addr) => addr,
                None => MacAddr::default(),
            },
        }
    }

    /// Reads an address from text as [`MacAddr::from_str`] does, but tells a
    /// text that is no address from one that spells the all-zero address.
    pub fn try_from_str(string: &str) -> (r: Option<Self>)
        ensures
            r == Self::spec_try_from_str(string@),
            Self::spec_from_str(string@) == match r {
                Some(addr) => addr,
                None => Self::spec_zero(),
            },
    {
        match MacAddr::try_parse_with_delimeter(string, ':') {
            Some(addr) => Some(addr),
            None => MacAddr::try_parse_with_delimeter(string, '-'),
        }
    }

    /// Reads an address from text with one given delimiter between its six
    /// octets.  `None` where the text does not have exactly six pieces, or
    /// where a piece is not one or two hexadecimal digits.
    pub fn try_parse_with_delimeter(string: &str, delimeter: char) -> (r: Option<MacAddr>)
        ensures
            r == Self::spec_parse(string@, delimeter),
    {
        let chars = chars_of(string);
        let parts = split(chars.as_slice(), delimeter);
        let ghost pieces = spec_split(string@, delimeter);
        if parts.len() != 6 {
            return None;
        }
        let mut addr = MacAddr::default();
        let mut segments: usize = 0;
        while segments < 6
            invariant
                segments <= 6,
                parts.len() == 6,
                views(parts@) == pieces,
                pieces == spec_split(string@, delimeter),
                forall|k: int|
                    0 <= k < segments ==> spec_hex_octet(#[trigger] pieces[k]) == Some(
                        addr.bytes[k],
                    ),
            decreases 6 - segments,
        {
            assert(views(parts@)[segments as int] == parts[segments as int]@);
            match hex_octet(parts[segments].as_slice()) {
                Some(b) => {
                    addr.bytes[segments] = b;
                },
                None => {
                    return None;
                },
            }
            segments += 1;
        }
        assert(addr.bytes =~= Self::spec_parse(string@, delimeter)->0.bytes);
        Some(addr)
    }

    /// Writes the address as six pairs of upper-case hexadecimal digits with
    /// dashes between them.
    pub fn to_string(&self) -> (r: String)
        ensures
            r@ == self.spec_text(),
    {
        let mut out = String::new();
        push_hex_pair(&mut out, self.bytes[0]);
        out.append("-");
        push_hex_pair(&mut out, self.bytes[1]);
        out.append("-");
        push_hex_pair(&mut out, self.bytes[2]);
        out.append("-");
        push_hex_pair(&mut out, self.bytes[3]);
        out.append("-");
        push_hex_pair(&mut out, self.bytes[4]);
        out.append("-");
        push_hex_pair(&mut out, self.bytes[5]);
        proof {
            reveal_strlit("-");
            assert("-"@ =~= seq!['-']);
        }
        assert(out@ =~= self.spec_text());
        out
    }

    /// The broadcast address, FF-FF-FF-FF-FF-FF.
    pub fn broadcast() -> (r: Self)
        ensures
            r.bytes@ == seq![0xFFu8, 0xFFu8, 0xFFu8, 0xFFu8, 0xFFu8, 0xFFu8],
    {
        let r = MacAddr { bytes: [0xFF, 0xFF, 0xFF, 0xFF, 0xFF, 0xFF] };
        assert(r.bytes@ =~= seq![0xFFu8, 0xFFu8, 0xFFu8, 0xFFu8, 0xFFu8, 0xFFu8]);
        r
    }

    /// Takes an address from six octets of a buffer.
    pub(crate) fn from_wire(bytes: &[u8], at: usize) -> (r: Self)
        requires
            at + 6 <= bytes.len(),
        ensures
            r == Self::spec_from_wire(bytes@.skip(at as int)),
    {
        MacAddr {
            bytes: [
                bytes[at],
                bytes[at + 1],
                bytes[at + 2],
                bytes[at + 3],
                bytes[at + 4],
                bytes[at + 5],
            ],
        }
    }

    /// Appends the six octets to a buffer.
    pub fn append_to(&self, out: &mut Vec<u8>)
        ensures
            final(out)@ == old(out)@ + self.bytes@,
    {
        out.extend_from_slice(&self.bytes);
        assert(out@ =~= old(out)@ + self.bytes@);
    }
}

} // verus!
