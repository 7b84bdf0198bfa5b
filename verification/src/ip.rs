use crate::octets::{lexical_compare, lexical_order};
use crate::text::{
    chars_of, dec_octet, lemma_dec_text, lemma_split_join, lemma_split_none, push_dec, split,
    spec_dec_octet, spec_dec_text, spec_split, views,
};
use core::cmp::Ordering;
use vstd::prelude::*;
use vstd::std_specs::cmp::{PartialEqSpecImpl, PartialOrdSpecImpl};
use vstd::string::StringExecFns;

verus! {

/// An IPv4 address: four octets in transmission order.
#[derive(Copy, Clone, Debug, Eq, Ord)]
pub struct Ipv4Addr {
    pub bytes: [u8; 4],
}

impl PartialEq for Ipv4Addr {
    fn eq(&self, other: &Self) -> (r: bool) {
        let same = self.bytes[0] == other.bytes[0] && self.bytes[1] == other.bytes[1]
            && self.bytes[2] == other.bytes[2] && self.bytes[3] == other.bytes[3];
        assert(same ==> self.bytes =~= other.bytes);
        same
    }
}

impl PartialEqSpecImpl for Ipv4Addr {
    open spec fn obeys_eq_spec() -> bool {
        true
    }

    open spec fn eq_spec(&self, other: &Self) -> bool {
        self.bytes == other.bytes
    }
}

impl PartialOrd for Ipv4Addr {
    fn partial_cmp(&self, other: &Self) -> (r: Option<Ordering>) {
        Some(lexical_compare(&self.bytes, &other.bytes))
    }
}

impl PartialOrdSpecImpl for Ipv4Addr {
    open spec fn obeys_partial_cmp_spec() -> bool {
        true
    }

    /// Addresses are ordered as their octet strings are.
    open spec fn partial_cmp_spec(&self, other: &Self) -> Option<Ordering> {
        Some(lexical_order(self.bytes@, other.bytes@))
    }
}

impl Ipv4Addr {
    /// The address with the octets `a.b.c.d`.
    pub open spec fn spec_new(a: u8, b: u8, c: u8, d: u8) -> Ipv4Addr {
        Ipv4Addr { bytes: [a, b, c, d] }
    }

    /// The address that the first four octets of `bytes` spell.
    pub open spec fn spec_from_wire(bytes: Seq<u8>) -> Ipv4Addr {
        Self::spec_new(bytes[0], bytes[1], bytes[2], bytes[3])
    }

    /// An address is the one that its own octets spell.
    pub broadcast proof fn lemma_from_wire(addr: Ipv4Addr)
        ensures
            #[trigger] Self::spec_from_wire(addr.bytes@) == addr,
    {
        assert(Self::spec_from_wire(addr.bytes@).bytes =~= addr.bytes);
    }

    /// The octet that piece `k` of a dotted text gives: the value of the
    /// piece where it is a decimal numeral of an octet, and zero where it is
    /// not, or where the text has no such piece.
    pub open spec fn spec_octet(parts: Seq<Seq<char>>, k: int) -> u8 {
        if 0 <= k < parts.len() {
            match spec_dec_octet(parts[k]) {
                Some(v) => v,
                None => 0,
            }
        } else {
            0
        }
    }

    /// The address that a text stands for: its first four pieces between
    /// dots, each read as an octet.  Further pieces are ignored.
    pub open spec fn spec_from_str(s: Seq<char>) -> Ipv4Addr {
        let parts = spec_split(s, '.');
        Self::spec_new(
            Self::spec_octet(parts, 0),
            Self::spec_octet(parts, 1),
            Self::spec_octet(parts, 2),
            Self::spec_octet(parts, 3),
        )
    }

    /// The address that a text spells in strict dot-decimal notation:
    /// exactly four pieces between dots, each the decimal numeral of an
    /// octet.  `None` where the text is not of that form.
    pub open spec fn spec_try_from_str(s: Seq<char>) -> Option<Ipv4Addr> {
        let parts = spec_split(s, '.');
        if parts.len() == 4 && (forall|k: int|
            0 <= k < 4 ==> spec_dec_octet(#[trigger] parts[k]) is Some) {
            Some(Self::spec_from_str(s))
        } else {
            None
        }
    }

    /// The address in dot-decimal notation.
    pub open spec fn spec_text(self) -> Seq<char> {
        spec_dec_text(self.bytes[0]) + seq!['.'] + spec_dec_text(self.bytes[1]) + seq!['.']
            + spec_dec_text(self.bytes[2]) + seq!['.'] + spec_dec_text(self.bytes[3])
    }

    /// The text of an address has the four numerals of its octets as its
    /// pieces between dots.
    pub proof fn lemma_text_pieces(self)
        ensures
            spec_split(self.spec_text(), '.') == seq![
                spec_dec_text(self.bytes[0]),
                spec_dec_text(self.bytes[1]),
                spec_dec_text(self.bytes[2]),
                spec_dec_text(self.bytes[3]),
            ],
    {
        let numeral0 = spec_dec_text(self.bytes[0]);
        let numeral1 = spec_dec_text(self.bytes[1]);
        let numeral2 = spec_dec_text(self.bytes[2]);
        let numeral3 = spec_dec_text(self.bytes[3]);
        let dot = seq!['.'];
        let tail2 = numeral2 + dot + numeral3;
        let tail1 = numeral1 + dot + tail2;
        let tail0 = numeral0 + dot + tail1;
        lemma_dec_text(self.bytes[0]);
        lemma_dec_text(self.bytes[1]);
        lemma_dec_text(self.bytes[2]);
        lemma_dec_text(self.bytes[3]);
        lemma_split_none(numeral0, '.');
        lemma_split_none(numeral1, '.');
        lemma_split_none(numeral2, '.');
        lemma_split_none(numeral3, '.');
        lemma_split_join(numeral2, numeral3, '.');
        lemma_split_join(numeral1, tail2, '.');
        lemma_split_join(numeral0, tail1, '.');
        assert(spec_split(tail2, '.') =~= seq![numeral2, numeral3]);
        assert(spec_split(tail1, '.') =~= seq![numeral1, numeral2, numeral3]);
        assert(spec_split(tail0, '.') =~= seq![numeral0, numeral1, numeral2, numeral3]);
        assert(self.spec_text() =~= tail0);
    }

    /// Writing an address in dot-decimal notation and reading the text gives
    /// the address back.
    pub proof fn lemma_text_round_trip(self)
        ensures
            Self::spec_from_str(self.spec_text()) == self,
            Self::spec_try_from_str(self.spec_text()) == Some(self),
    {
        self.lemma_text_pieces();
        lemma_dec_text(self.bytes[0]);
        lemma_dec_text(self.bytes[1]);
        lemma_dec_text(self.bytes[2]);
        lemma_dec_text(self.bytes[3]);
        let parts = spec_split(self.spec_text(), '.');
        assert(parts[0] == spec_dec_text(self.bytes[0]));
        assert(parts[1] == spec_dec_text(self.bytes[1]));
        assert(parts[2] == spec_dec_text(self.bytes[2]));
        assert(parts[3] == spec_dec_text(self.bytes[3]));
        assert(Self::spec_from_str(self.spec_text()).bytes =~= self.bytes);
    }

    /// Reads an address from dot-decimal notation.
    ///
    /// Each of the first four pieces between dots gives one octet; a piece
    /// that is not the decimal numeral of an octet gives zero, and so does a
    /// piece that is missing.  Pieces after the fourth are ignored.
    pub fn from_str(string: &str) -> (r: Self)
        ensures
            r == Self::spec_from_str(string@),
    {
        let mut addr = Ipv4Addr { bytes: [0, 0, 0, 0] };
        let chars = chars_of(string);
        let parts = split(chars.as_slice(), '.');
        let ghost pieces = spec_split(string@, '.');

        let mut i: usize = 0;
        while i < 4 && i < parts.len()
            invariant
                i <= 4,
                views(parts@) == pieces,
                forall|k: int| 0 <= k < i ==> addr.bytes[k] == Self::spec_octet(pieces, k),
                forall|k: int| i <= k < 4 ==> addr.bytes[k] == 0,
            decreases 4 - i,
        {
            assert(views(parts@)[i as int] == parts[i as int]@);
            let octet = match dec_octet(parts[i].as_slice()) {
                Some(v) => v,
                None => 0,
            };
            addr.bytes[i] = octet;
            i += 1;
        }
        assert(addr.bytes =~= Self::spec_from_str(string@).bytes);
        addr
    }

    /// Reads an address from strict dot-decimal notation: `None` unless the
    /// text has exactly four pieces between dots and each is the decimal
    /// numeral of an octet.  Where it returns an address,
    /// [`Ipv4Addr::from_str`] returns the same one.
    pub fn try_from_str(string: &str) -> (r: Option<Self>)
        ensures
            r == Self::spec_try_from_str(string@),
            r is Some ==> r == Some(Self::spec_from_str(string@)),
    {
        let chars = chars_of(string);
        let parts = split(chars.as_slice(), '.');
        let ghost pieces = spec_split(string@, '.');
        if parts.len() != 4 {
            return None;
        }
        let mut addr = Ipv4Addr { bytes: [0, 0, 0, 0] };
        let mut i: usize = 0;
        while i < 4
            invariant
                i <= 4,
                parts.len() == 4,
                views(parts@) == pieces,
                pieces == spec_split(string@, '.'),
                forall|k: int|
                    0 <= k < i ==> spec_dec_octet(#[trigger] pieces[k]) == Some(addr.bytes[k]),
            decreases 4 - i,
        {
            assert(views(parts@)[i as int] == parts[i as int]@);
            match dec_octet(parts[i].as_slice()) {
                Some(v) => {
                    addr.bytes[i] = v;
                },
                None => {
                    return None;
                },
            }
            i += 1;
        }
        assert(addr.bytes =~= Self::spec_from_str(string@).bytes);
        Some(addr)
    }

    /// Writes the address in dot-decimal notation.
    pub fn to_string(&self) -> (r: String)
        ensures
            r@ == self.spec_text(),
    {
        let mut string = String::new();
        push_dec(&mut string, self.bytes[0]);
        string.append(".");
        push_dec(&mut string, self.bytes[1]);
        string.append(".");
        push_dec(&mut string, self.bytes[2]);
        string.append(".");
        push_dec(&mut string, self.bytes[3]);
        proof {
            reveal_strlit(".");
            assert("."@ =~= seq!['.']);
        }
        assert(string@ =~= self.spec_text());
        string
    }

    /// The limited broadcast address, 255.255.255.255.
    pub fn broadcast() -> (r: Self)
        ensures
            r == Self::spec_new(255, 255, 255, 255),
    {
        Ipv4Addr { bytes: [255, 255, 255, 255] }
    }

    /// The loopback address, 127.0.0.1.
    pub fn loopback() -> (r: Self)
        ensures
            r == Self::spec_new(127, 0, 0, 1),
    {
        Ipv4Addr { bytes: [127, 0, 0, 1] }
    }

    /// The unspecified address, 0.0.0.0.
    pub fn null() -> (r: Self)
        ensures
            r == Self::spec_new(0, 0, 0, 0),
    {
        Ipv4Addr { bytes: [0, 0, 0, 0] }
    }

    /// The octets that spell an address are its octets.
    pub broadcast proof fn lemma_wire_of_from_wire(bytes: Seq<u8>)
        requires
            bytes.len() >= 4,
        ensures
            (#[trigger] Self::spec_from_wire(bytes)).bytes@ == bytes.subrange(0, 4),
    {
        assert(Self::spec_from_wire(bytes).bytes@ =~= bytes.subrange(0, 4));
    }

    /// Takes an address from four octets of a buffer.
    pub(crate) fn from_wire(bytes: &[u8], at: usize) -> (r: Self)
        requires
            at + 4 <= bytes.len(),
        ensures
            r == Self::spec_from_wire(bytes@.skip(at as int)),
    {
        Ipv4Addr { bytes: [bytes[at], bytes[at + 1], bytes[at + 2], bytes[at + 3]] }
    }

    /// Appends the four octets to a buffer.
    pub fn append_to(&self, out: &mut Vec<u8>)
        ensures
            final(out)@ == old(out)@ + self.bytes@,
    {
        out.extend_from_slice(&self.bytes);
        assert(out@ =~= old(out)@ + self.bytes@);
    }
}

} // verus!
