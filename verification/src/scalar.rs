use vstd::prelude::*;

verus! {

/// A 16-bit integer kept in network byte order.
///
/// The two octets are stored as they travel on the wire, most significant
/// first.  The host value is only ever seen through [`n16::new`],
/// [`n16::get`] and [`n16::set`], so the byte-order boundary is crossed
/// exactly once on every read and on every write.
#[derive(Copy, Clone, Debug, PartialEq, Eq, PartialOrd, Ord, Structural)]
#[allow(non_camel_case_types)]
pub struct n16 {
    hi: u8,
    lo: u8,
}

impl View for n16 {
    type V = u16;

    /// The host value.
    closed spec fn view(&self) -> u16 {
        (self.hi as int * 256 + self.lo as int) as u16
    }
}

impl n16 {
    /// The two octets of the value as transmitted: most significant first.
    pub open spec fn wire(self) -> Seq<u8> {
        seq![(self@ / 256) as u8, (self@ % 256) as u8]
    }

    /// The value whose wire image is the octet pair `(hi, lo)`.
    pub closed spec fn spec_from_wire(hi: u8, lo: u8) -> n16 {
        n16 { hi, lo }
    }

    /// The wrapper that holds the host value `value`.
    pub open spec fn spec_new(value: u16) -> n16 {
        Self::spec_from_wire((value / 256) as u8, (value % 256) as u8)
    }

    /// A value is determined by its wire image, and the wire image by the
    /// host value: big-endian encoding loses nothing.
    pub broadcast proof fn lemma_from_wire(hi: u8, lo: u8)
        ensures
            (#[trigger] Self::spec_from_wire(hi, lo))@ == hi as int * 256 + lo as int,
            Self::spec_from_wire(hi, lo).wire() == seq![hi, lo],
    {
        let v = Self::spec_from_wire(hi, lo);
        assert(v@ == hi as int * 256 + lo as int);
        assert(v.wire() =~= seq![hi, lo]);
    }

    /// Two wrappers with the same host value are the same wrapper.
    pub proof fn lemma_view_injective(a: n16, b: n16)
        requires
            a@ == b@,
        ensures
            a == b,
    {
    }

    /// Rebuilding a wrapper from its own host value gives it back.
    pub broadcast proof fn lemma_new_of_view(a: n16)
        ensures
            #[trigger] Self::spec_new(a@) == a,
    {
    }

    /// Wraps a host-order value.
    pub fn new(value: u16) -> (r: Self)
        ensures
            r@ == value,
            r == Self::spec_new(value),
    {
        n16 { hi: (value / 256) as u8, lo: (value % 256) as u8 }
    }

    /// Reads the host-order value.
    pub fn get(&self) -> (r: u16)
        ensures
            r == self@,
    {
        self.hi as u16 * 256 + self.lo as u16
    }

    /// Replaces the held value with the host-order `value`.
    pub fn set(&mut self, value: u16)
        ensures
            final(self)@ == value,
            *final(self) == Self::spec_new(value),
    {
        self.hi = (value / 256) as u8;
        self.lo = (value % 256) as u8;
    }

    /// Takes the value from two octets in wire order.
    pub fn from_wire(hi: u8, lo: u8) -> (r: Self)
        ensures
            r == Self::spec_from_wire(hi, lo),
            r@ == hi as int * 256 + lo as int,
            r.wire() == seq![hi, lo],
    {
        proof {
            Self::lemma_from_wire(hi, lo);
        }
        n16 { hi, lo }
    }

    /// Appends the two octets, in wire order, to a buffer.
    pub fn append_to(&self, out: &mut Vec<u8>)
        ensures
            final(out)@ == old(out)@ + self.wire(),
    {
        out.push(self.hi);
        out.push(self.lo);
        assert(out@ =~= old(out)@ + self.wire());
    }

    /// The two octets in wire order.
    pub fn to_wire(&self) -> (r: [u8; 2])
        ensures
            r@ == self.wire(),
    {
        let r = [self.hi, self.lo];
        assert(r@ =~= self.wire());
        r
    }
}

/// A 32-bit integer kept in network byte order.
///
/// The four octets are stored as they travel on the wire, most significant
/// first; see [`n16`].
#[derive(Copy, Clone, Debug, PartialEq, Eq, PartialOrd, Ord, Structural)]
#[allow(non_camel_case_types)]
pub struct n32 {
    b0: u8,
    b1: u8,
    b2: u8,
    b3: u8,
}

impl View for n32 {
    type V = u32;

    /// The host value.
    closed spec fn view(&self) -> u32 {
        (self.b0 as int * 0x100_0000 + self.b1 as int * 0x1_0000 + self.b2 as int * 0x100
            + self.b3 as int) as u32
    }
}

impl n32 {
    /// The four octets of the value as transmitted: most significant first.
    pub open spec fn wire(self) -> Seq<u8> {
        seq![
            (self@ / 0x100_0000) as u8,
            (self@ / 0x1_0000 % 0x100) as u8,
            (self@ / 0x100 % 0x100) as u8,
            (self@ % 0x100) as u8,
        ]
    }

    /// The value whose wire image is the four octets given.
    pub closed spec fn spec_from_wire(b0: u8, b1: u8, b2: u8, b3: u8) -> n32 {
        n32 { b0, b1, b2, b3 }
    }

    /// The wrapper that holds the host value `value`.
    pub open spec fn spec_new(value: u32) -> n32 {
        Self::spec_from_wire(
            (value / 0x100_0000) as u8,
            (value / 0x1_0000 % 0x100) as u8,
            (value / 0x100 % 0x100) as u8,
            (value % 0x100) as u8,
        )
    }

    /// A value is determined by its wire image, and the wire image by the
    /// host value: big-endian encoding loses nothing.
    pub broadcast proof fn lemma_from_wire(b0: u8, b1: u8, b2: u8, b3: u8)
        ensures
            (#[trigger] Self::spec_from_wire(b0, b1, b2, b3))@ == b0 as int * 0x100_0000 + b1 as int
                * 0x1_0000 + b2 as int * 0x100 + b3 as int,
            Self::spec_from_wire(b0, b1, b2, b3).wire() == seq![b0, b1, b2, b3],
    {
        let v = Self::spec_from_wire(b0, b1, b2, b3);
        Self::lemma_octets(b0, b1, b2, b3);
        assert(v.wire() =~= seq![b0, b1, b2, b3]);
    }

    /// Two wrappers with the same host value are the same wrapper.
    pub proof fn lemma_view_injective(a: n32, b: n32)
        requires
            a@ == b@,
        ensures
            a == b,
    {
        Self::lemma_octets(a.b0, a.b1, a.b2, a.b3);
        Self::lemma_octets(b.b0, b.b1, b.b2, b.b3);
    }

    /// Rebuilding a wrapper from its own host value gives it back.
    pub broadcast proof fn lemma_new_of_view(a: n32)
        ensures
            #[trigger] Self::spec_new(a@) == a,
    {
        Self::lemma_octets(a.b0, a.b1, a.b2, a.b3);
    }

    /// Four octets joined most significant first come apart again by
    /// division.
    proof fn lemma_octets(b0: u8, b1: u8, b2: u8, b3: u8)
        ensures
            ({
                let v = b0 as int * 0x100_0000 + b1 as int * 0x1_0000 + b2 as int * 0x100
                    + b3 as int;
                &&& 0 <= v <= u32::MAX
                &&& v / 0x100_0000 == b0
                &&& v / 0x1_0000 % 0x100 == b1
                &&& v / 0x100 % 0x100 == b2
                &&& v % 0x100 == b3
            }),
    {
        let hi = b0 as int * 0x100 + b1 as int;
        let lo = b2 as int * 0x100 + b3 as int;
        let v = hi * 0x1_0000 + lo;
        assert(hi / 0x100 == b0 && hi % 0x100 == b1);
        assert(lo / 0x100 == b2 && lo % 0x100 == b3);
        assert(v / 0x1_0000 == hi && v % 0x1_0000 == lo);
        assert(v / 0x100_0000 == hi / 0x100);
        assert(v / 0x100 % 0x100 == lo / 0x100);
        assert(v % 0x100 == lo % 0x100);
    }

    /// Wraps a host-order value.
    pub fn new(value: u32) -> (r: Self)
        ensures
            r@ == value,
            r == Self::spec_new(value),
    {
        n32 {
            b0: (value / 0x100_0000) as u8,
            b1: (value / 0x1_0000 % 0x100) as u8,
            b2: (value / 0x100 % 0x100) as u8,
            b3: (value % 0x100) as u8,
        }
    }

    /// Reads the host-order value.
    pub fn get(&self) -> (r: u32)
        ensures
            r == self@,
    {
        self.b0 as u32 * 0x100_0000 + self.b1 as u32 * 0x1_0000 + self.b2 as u32 * 0x100
            + self.b3 as u32
    }

    /// Replaces the held value with the host-order `value`.
    pub fn set(&mut self, value: u32)
        ensures
            final(self)@ == value,
            *final(self) == Self::spec_new(value),
    {
        self.b0 = (value / 0x100_0000) as u8;
        self.b1 = (value / 0x1_0000 % 0x100) as u8;
        self.b2 = (value / 0x100 % 0x100) as u8;
        self.b3 = (value % 0x100) as u8;
    }

    /// Takes the value from four octets in wire order.
    pub fn from_wire(b0: u8, b1: u8, b2: u8, b3: u8) -> (r: Self)
        ensures
            r == Self::spec_from_wire(b0, b1, b2, b3),
            r@ == b0 as int * 0x100_0000 + b1 as int * 0x1_0000 + b2 as int * 0x100 + b3 as int,
            r.wire() == seq![b0, b1, b2, b3],
    {
        proof {
            Self::lemma_from_wire(b0, b1, b2, b3);
        }
        n32 { b0, b1, b2, b3 }
    }

    /// Appends the four octets, in wire order, to a buffer.
    pub fn append_to(&self, out: &mut Vec<u8>)
        ensures
            final(out)@ == old(out)@ + self.wire(),
    {
        out.push(self.b0);
        out.push(self.b1);
        out.push(self.b2);
        out.push(self.b3);
        proof {
            Self::lemma_octets(self.b0, self.b1, self.b2, self.b3);
        }
        assert(out@ =~= old(out)@ + self.wire());
    }
}

} // verus!
