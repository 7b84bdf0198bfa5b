use vstd::prelude::*;

verus! {

/// The Internet checksum of a region, as it sits in a header field.
///
/// The summation reads the region in 16-bit words whose first octet is the
/// low half.  A checksum word is stored the same way, low half first, so the
/// word that is stored is the word that is summed.
#[derive(Copy, Clone, Debug)]
pub struct Checksum {
    pub data: u16,
}

impl Checksum {
    /// The unfolded ones-complement sum of a region: all its 16-bit words,
    /// and the last octet alone where the length is odd.
    pub open spec fn spec_sum(bytes: Seq<u8>) -> nat
        decreases bytes.len(),
    {
        if bytes.len() == 0 {
            0
        } else if bytes.len() == 1 {
            bytes[0] as nat
        } else {
            (bytes[0] as nat + 256 * bytes[1] as nat) + Self::spec_sum(bytes.skip(2))
        }
    }

    /// The sum with every carry above bit 15 added back into the low 16 bits,
    /// until none is left.
    pub open spec fn spec_fold(sum: nat) -> nat
        decreases sum,
    {
        if sum < 0x10000 {
            sum
        } else {
            Self::spec_fold(sum % 0x10000 + sum / 0x10000)
        }
    }

    /// The checksum of a region whose unfolded sum is `sum`: the ones
    /// complement of the folded sum.
    pub open spec fn spec_compile(sum: nat) -> u16 {
        (0xFFFF - Self::spec_fold(sum)) as u16
    }

    /// The sum of a region as RFC 1071 describes it: in 16-bit words whose
    /// first octet is the high half, an odd last octet padded with a zero
    /// octet on its right.
    pub open spec fn spec_sum_network(bytes: Seq<u8>) -> nat
        decreases bytes.len(),
    {
        if bytes.len() == 0 {
            0
        } else if bytes.len() == 1 {
            256 * bytes[0] as nat
        } else {
            (256 * bytes[0] as nat + bytes[1] as nat) + Self::spec_sum_network(bytes.skip(2))
        }
    }

    /// The sum of the octets at the odd offsets of a region: the high halves
    /// of the words that [`Checksum::spec_sum`] adds up.
    pub open spec fn spec_sum_high(bytes: Seq<u8>) -> nat
        decreases bytes.len(),
    {
        if bytes.len() < 2 {
            0
        } else {
            bytes[1] as nat + Self::spec_sum_high(bytes.skip(2))
        }
    }

    /// A 16-bit value with its two octets exchanged.
    pub open spec fn spec_swap(value: nat) -> nat {
        (value % 256) * 256 + value / 256
    }

    /// The two octets of the field as transmitted.
    pub open spec fn wire(self) -> Seq<u8> {
        seq![(self.data % 256) as u8, (self.data / 256) as u8]
    }

    /// The field whose transmitted octets are `(first, second)`.
    pub open spec fn spec_from_wire(first: u8, second: u8) -> Checksum {
        Checksum { data: (first as int + 256 * second as int) as u16 }
    }

    /// Takes the field from two octets of a buffer.
    pub fn from_wire(first: u8, second: u8) -> (r: Self)
        ensures
            r == Self::spec_from_wire(first, second),
    {
        Checksum { data: first as u16 + 256 * (second as u16) }
    }

    /// Appends the two octets of the field to a buffer.
    pub fn append_to(&self, out: &mut Vec<u8>)
        ensures
            final(out)@ == old(out)@ + self.wire(),
    {
        out.push((self.data % 256) as u8);
        out.push((self.data / 256) as u8);
        assert(out@ =~= old(out)@ + self.wire());
    }

    /// A folded sum fits in 16 bits.
    pub proof fn lemma_fold_bound(sum: nat)
        ensures
            Self::spec_fold(sum) <= 0xFFFF,
        decreases sum,
    {
        if sum >= 0x10000 {
            Self::lemma_fold_bound(sum % 0x10000 + sum / 0x10000);
        }
    }

    /// Folding is idempotent: a sum without carry bits is its own fold, so a
    /// second fold changes nothing, and the checksum of a sum is the checksum
    /// of its fold.
    pub proof fn lemma_fold_idempotent(sum: nat)
        ensures
            sum < 0x10000 ==> Self::spec_fold(sum) == sum,
            sum < 0x10000 ==> Self::spec_compile(sum) == 0xFFFF - sum,
            Self::spec_fold(Self::spec_fold(sum)) == Self::spec_fold(sum),
            Self::spec_compile(Self::spec_fold(sum)) == Self::spec_compile(sum),
    {
        Self::lemma_fold_bound(sum);
    }

    /// One folding pass does not change the checksum.
    pub proof fn lemma_fold_step(sum: nat)
        ensures
            Self::spec_fold(sum % 0x10000 + sum / 0x10000) == Self::spec_fold(sum),
    {
    }

    /// Folding in closed form: zero stays zero, and every other sum folds to
    /// the one value between 1 and `0xFFFF` that it is congruent to modulo
    /// `0xFFFF`.
    pub proof fn lemma_fold_closed_form(sum: nat)
        ensures
            Self::spec_fold(sum) == if sum == 0 {
                0
            } else {
                ((sum - 1) % 0xFFFF + 1) as nat
            },
        decreases sum,
    {
        if sum >= 0x10000 {
            let q = sum / 0x10000;
            let next = sum % 0x10000 + q;
            Self::lemma_fold_closed_form(next);
            assert(sum - 1 == 0xFFFF * q + (next - 1));
            vstd::arithmetic::div_mod::lemma_mod_multiples_vanish(
                q as int,
                next as int - 1,
                0xFFFF,
            );
        }
    }

    /// A region together with its own checksum sums to all ones: the
    /// checksum of the whole is zero.  This is the test that a receiver
    /// makes.
    pub proof fn lemma_checksum_verifies(sum: nat)
        ensures
            Self::spec_fold(sum + Self::spec_compile(sum) as nat) == 0xFFFF,
            Self::spec_compile(sum + Self::spec_compile(sum) as nat) == 0,
    {
        let folded = Self::spec_fold(sum);
        let check = Self::spec_compile(sum);
        let whole = sum + check as nat;
        Self::lemma_fold_bound(sum);
        Self::lemma_fold_closed_form(sum);
        Self::lemma_fold_closed_form(whole);
        if sum > 0 {
            let q = (sum - 1) / 0xFFFF;
            assert(sum - 1 == 0xFFFF * q + (folded - 1));
            assert(whole - 1 == 0xFFFF * q + 0xFFFE);
            vstd::arithmetic::div_mod::lemma_mod_multiples_vanish(q as int, 0xFFFE, 0xFFFF);
        }
    }

    /// The receiver's rule for a checksum field that is not zero.  The field
    /// equals the checksum computed anew, with a computed zero taken as all
    /// ones, exactly if the region and the field together sum to all ones.
    pub proof fn lemma_field_matches(sum: nat, field: u16)
        requires
            field != 0,
        ensures
            (field == if Self::spec_compile(sum) == 0 {
                0xFFFFu16
            } else {
                Self::spec_compile(sum)
            }) <==> Self::spec_fold(sum + field as nat) == 0xFFFF,
    {
        let whole = sum + field as nat;
        let folded = Self::spec_fold(sum);
        Self::lemma_fold_bound(sum);
        Self::lemma_fold_closed_form(sum);
        Self::lemma_fold_closed_form(whole);
        if sum > 0 {
            let q = (sum - 1) / 0xFFFF;
            let r = folded + field - 1;
            assert(sum - 1 == 0xFFFF * q + (folded - 1));
            assert(whole - 1 == 0xFFFF * q + r);
            vstd::arithmetic::div_mod::lemma_mod_multiples_vanish(q as int, r, 0xFFFF);
            assert((whole - 1) % 0xFFFF == r % 0xFFFF);
            if r >= 0xFFFF {
                assert(r == 0xFFFF * 1 + (r - 0xFFFF));
                vstd::arithmetic::div_mod::lemma_mod_multiples_vanish(1, r - 0xFFFF, 0xFFFF);
            }
        }
    }

    /// The sum of a region is at most `0x8000` times its length: no word
    /// exceeds `0xFFFF`.
    pub proof fn lemma_sum_bound(bytes: Seq<u8>)
        ensures
            Self::spec_sum(bytes) <= 0x8000 * bytes.len(),
        decreases bytes.len(),
    {
        if bytes.len() >= 2 {
            Self::lemma_sum_bound(bytes.skip(2));
        }
    }

    /// Sums compose: where the first of two adjoining regions has an even
    /// length, the sum of the whole is the sum of the partial sums.
    pub proof fn lemma_sum_concat(a: Seq<u8>, b: Seq<u8>)
        requires
            a.len() % 2 == 0,
        ensures
            Self::spec_sum(a + b) == Self::spec_sum(a) + Self::spec_sum(b),
        decreases a.len(),
    {
        if a.len() == 0 {
            assert(a + b =~= b);
        } else {
            assert((a + b).skip(2) =~= a.skip(2) + b);
            Self::lemma_sum_concat(a.skip(2), b);
        }
    }

    /// Reading the words of a region the other way round multiplies its sum
    /// by 256, up to a multiple of `0xFFFF`.
    pub proof fn lemma_sum_network(bytes: Seq<u8>)
        ensures
            256 * Self::spec_sum(bytes) == Self::spec_sum_network(bytes) + 0xFFFF
                * Self::spec_sum_high(bytes),
            256 * Self::spec_sum_high(bytes) <= Self::spec_sum(bytes),
        decreases bytes.len(),
    {
        if bytes.len() >= 2 {
            Self::lemma_sum_network(bytes.skip(2));
        }
    }

    /// Exchanging the octets of a 16-bit value multiplies it by 256, up to a
    /// multiple of `0xFFFF`; it keeps zero apart from the other values, and
    /// it commutes with the ones complement.
    pub proof fn lemma_swap(value: nat)
        requires
            value <= 0xFFFF,
        ensures
            Self::spec_swap(value) <= 0xFFFF,
            Self::spec_swap(value) == 0 <==> value == 0,
            256 * value == Self::spec_swap(value) + 0xFFFF * (value / 256),
            Self::spec_swap((0xFFFF - value) as nat) == 0xFFFF - Self::spec_swap(value),
            Self::spec_swap(Self::spec_swap(value)) == value,
    {
        let high = value / 256;
        let low = value % 256;
        assert(value == 256 * high + low);
        assert(high <= 255);
        assert(0xFFFF - value == 256 * (255 - high) + (255 - low));
        assert((0xFFFF - value) / 256 == 255 - high);
        assert((0xFFFF - value) % 256 == 255 - low);
        let swapped = low * 256 + high;
        assert(swapped / 256 == low);
        assert(swapped % 256 == high);
    }

    /// A sum other than zero that is congruent modulo `0xFFFF` to a value
    /// between 1 and `0xFFFF` folds to that value.
    pub proof fn lemma_fold_congruent(sum: nat, multiple: int, value: nat)
        requires
            1 <= sum,
            1 <= value <= 0xFFFF,
            sum == 0xFFFF * multiple + value,
        ensures
            Self::spec_fold(sum) == value,
    {
        Self::lemma_fold_closed_form(sum);
        vstd::arithmetic::div_mod::lemma_mod_multiples_vanish(multiple, value - 1, 0xFFFF);
        assert(sum - 1 == 0xFFFF * multiple + (value - 1));
        assert((sum - 1) % 0xFFFF == (value - 1) % 0xFFFF);
    }

    /// The checksum does not depend on the byte order of the machine that
    /// computes it.  Summing the words low octet first and storing the
    /// result low octet first puts on the wire what RFC 1071 asks for: the
    /// checksum over the words in network byte order, in network byte order.
    pub proof fn lemma_byte_order_independent(bytes: Seq<u8>)
        ensures
            Self::spec_fold(Self::spec_sum_network(bytes)) == Self::spec_swap(
                Self::spec_fold(Self::spec_sum(bytes)),
            ),
            ({
                let field = Checksum { data: Self::spec_compile(Self::spec_sum(bytes)) };
                let network = 0xFFFF - Self::spec_fold(Self::spec_sum_network(bytes));
                field.wire() == seq![(network / 256) as u8, (network % 256) as u8]
            }),
    {
        let s = Self::spec_sum(bytes);
        let n = Self::spec_sum_network(bytes);
        let k = Self::spec_sum_high(bytes);
        let f = Self::spec_fold(s);
        let swapped = Self::spec_swap(f);
        Self::lemma_sum_network(bytes);
        Self::lemma_fold_bound(s);
        Self::lemma_swap(f);
        if s == 0 {
            assert(n == 0);
        } else {
            Self::lemma_fold_closed_form(s);
            let q = (s - 1) / 0xFFFF;
            assert(s == 0xFFFF * q + f);
            let m = f / 256 + 256 * q - k;
            assert(n == 0xFFFF * m + swapped) by {
                assert(256 * s == 0xFFFF * (256 * q) + 256 * f);
            }
            assert(n >= 1) by {
                if n == 0 {
                    assert(0xFFFF * k + k <= 0xFFFF * k);
                }
            }
            Self::lemma_fold_congruent(n, m, swapped);
        }
        assert(Self::spec_fold(n) == swapped);
        let data = Self::spec_compile(s);
        let network = 0xFFFF - Self::spec_fold(n);
        assert(network == Self::spec_swap(data as nat));
        Self::lemma_swap(data as nat);
        assert(data / 256 == network % 256);
        assert(data % 256 == network / 256);
        let field = Checksum { data };
        assert(field.wire() =~= seq![(network / 256) as u8, (network % 256) as u8]);
    }

    /// A checksum field at an even offset adds its own value to the sum of
    /// the region around it.
    pub proof fn lemma_sum_around_field(before: Seq<u8>, field: Checksum, after: Seq<u8>)
        requires
            before.len() % 2 == 0,
        ensures
            Self::spec_sum(before + field.wire() + after) == Self::spec_sum(before) + field.data
                + Self::spec_sum(after),
    {
        let w = field.wire();
        assert(w.skip(2) =~= Seq::<u8>::empty());
        assert(Self::spec_sum(w) == field.data) by {
            reveal_with_fuel(Checksum::spec_sum, 2);
        }
        Self::lemma_sum_concat(before, w);
        Self::lemma_sum_concat(before + w, after);
    }

    /// Sums a region of any length without losing a carry.
    pub fn sum_wide(bytes: &[u8]) -> (r: u128)
        ensures
            r == Self::spec_sum(bytes@),
            r <= 0x8000 * bytes.len(),
    {
        let n = bytes.len();
        let mut acc: u128 = 0;
        let mut i: usize = 0;
        assert(bytes@.skip(0) =~= bytes@);
        while n - i > 1
            invariant
                n == bytes.len(),
                i <= n,
                i % 2 == 0,
                acc <= 0x8000 * i,
                acc + Self::spec_sum(bytes@.skip(i as int)) == Self::spec_sum(bytes@),
            decreases n - i,
        {
            assert(bytes@.skip(i as int).skip(2) =~= bytes@.skip(i as int + 2));
            acc = acc + (bytes[i] as u128 + 256 * (bytes[i + 1] as u128));
            i = i + 2;
        }
        if n - i > 0 {
            acc = acc + bytes[i] as u128;
        }
        acc
    }

    /// Sums a region: its 16-bit words, first octet low, plus the last octet
    /// where the length is odd.  Nothing is folded.
    ///
    /// The sum has to fit the result; by [`Checksum::lemma_sum_bound`] it
    /// does for every region that a 16-bit length field can describe.  For a
    /// region of any length there is [`Checksum::sum_wide`].
    pub fn sum(bytes: &[u8]) -> (r: usize)
        requires
            Self::spec_sum(bytes@) <= usize::MAX,
        ensures
            r == Self::spec_sum(bytes@),
    {
        Self::sum_wide(bytes) as usize
    }

    /// Folds a sum of any width and complements it.
    pub fn compile_wide(sum: u128) -> (r: u16)
        ensures
            r == Self::spec_compile(sum as nat),
            sum < 0x10000 ==> r == 0xFFFF - sum,
    {
        let mut rest: u128 = sum;
        while (rest >> 16) > 0
            invariant
                Self::spec_fold(rest as nat) == Self::spec_fold(sum as nat),
            decreases rest,
        {
            assert(rest >> 16 == rest / 0x10000) by (bit_vector);
            assert(rest & 0xFFFF == rest % 0x10000) by (bit_vector);
            rest = (rest & 0xFFFF) + (rest >> 16);
        }
        assert(rest >> 16 == rest / 0x10000) by (bit_vector);
        0xFFFF - (rest as u16)
    }

    /// Folds the carries of a sum into its low 16 bits until none remains and
    /// returns the ones complement: the value to store in a checksum field.
    pub fn compile(sum: usize) -> (r: u16)
        ensures
            r == Self::spec_compile(sum as nat),
            sum < 0x10000 ==> r == 0xFFFF - sum,
    {
        Self::compile_wide(sum as u128)
    }
}

} // verus!
