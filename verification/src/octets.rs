use core::cmp::Ordering;
use vstd::prelude::*;

verus! {

/// Whether `a` comes before `b` in the order of octet strings: at the first
/// place where they differ `a` has the smaller octet, or `a` ends there and
/// `b` goes on.
pub open spec fn spec_less(a: Seq<u8>, b: Seq<u8>) -> bool {
    exists|i: int|
        0 <= i <= a.len() && i <= b.len() && #[trigger] a.take(i) == b.take(i) && (if i
            < a.len() {
            i < b.len() && a[i] < b[i]
        } else {
            i < b.len()
        })
}

/// How `a` stands to `b` in the order of octet strings.
pub open spec fn lexical_order(a: Seq<u8>, b: Seq<u8>) -> Ordering {
    if a == b {
        Ordering::Equal
    } else if spec_less(a, b) {
        Ordering::Less
    } else {
        Ordering::Greater
    }
}

/// The first place where two octet strings differ decides their order.
pub proof fn lemma_first_difference(a: Seq<u8>, b: Seq<u8>, n: usize)
    requires
        n <= a.len(),
        n <= b.len(),
        a.take(n as int) == b.take(n as int),
        n < a.len() && n < b.len() ==> a[n as int] != b[n as int],
    ensures
        (n == a.len() && n == b.len()) <==> a == b,
        spec_less(a, b) <==> (if n < a.len() {
            n < b.len() && a[n as int] < b[n as int]
        } else {
            n < b.len()
        }),
        spec_less(b, a) <==> (if n < b.len() {
            n < a.len() && b[n as int] < a[n as int]
        } else {
            n < a.len()
        }),
{
    let at = n as int;
    assert(b.take(at) == a.take(at));
    if n == a.len() && n == b.len() {
        assert(a.take(at) =~= a);
        assert(b.take(at) =~= b);
    }
    assert forall|j: int| 0 <= j <= a.len() && j <= b.len() && j != at implies !(#[trigger] a.take(
        j,
    ) == b.take(j) && (if j < a.len() {
        j < b.len() && a[j] < b[j]
    } else {
        j < b.len()
    })) && !(#[trigger] b.take(j) == a.take(j) && (if j < b.len() {
        j < a.len() && b[j] < a[j]
    } else {
        j < a.len()
    })) by {
        if j < at {
            assert(a.take(at)[j] == b.take(at)[j]);
        } else {
            assert(a.take(j)[at] == a[at]);
            assert(b.take(j)[at] == b[at]);
        }
    }
}

/// The number of leading octets that two octet strings share.
pub fn common_prefix_len(a: &[u8], b: &[u8]) -> (n: usize)
    ensures
        n <= a.len(),
        n <= b.len(),
        a@.take(n as int) == b@.take(n as int),
        n < a.len() && n < b.len() ==> a[n as int] != b[n as int],
{
    let mut n: usize = 0;
    assert(a@.take(0) =~= b@.take(0));
    while n < a.len() && n < b.len() && a[n] == b[n]
        invariant
            n <= a.len(),
            n <= b.len(),
            a@.take(n as int) == b@.take(n as int),
        decreases a.len() - n,
    {
        assert(a@.take(n + 1) =~= a@.take(n as int).push(a[n as int]));
        assert(b@.take(n + 1) =~= b@.take(n as int).push(b[n as int]));
        n += 1;
    }
    n
}

/// Compares two octet strings place by place.
pub fn lexical_compare(a: &[u8], b: &[u8]) -> (r: Ordering)
    ensures
        r == lexical_order(a@, b@),
        r == Ordering::Greater <==> spec_less(b@, a@),
{
    let n = common_prefix_len(a, b);
    proof {
        lemma_first_difference(a@, b@, n);
    }
    if n < a.len() && n < b.len() {
        if a[n] < b[n] {
            Ordering::Less
        } else {
            Ordering::Greater
        }
    } else if n < b.len() {
        Ordering::Less
    } else if n < a.len() {
        Ordering::Greater
    } else {
        Ordering::Equal
    }
}

} // verus!
