//! Natural numbers of any size, held as big-endian bytes.

use vstd::prelude::*;

verus! {

/// The number that `bytes` denotes when read most significant byte first.
/// Leading zero bytes do not change it, and the empty string denotes zero.
pub open spec fn be_value(bytes: Seq<u8>) -> nat
    decreases bytes.len(),
{
    if bytes.len() == 0 {
        0
    } else {
        be_value(bytes.drop_last()) * 256 + bytes.last() as nat
    }
}

/// The number that the first `i` bytes denote once `pad` zero bytes have been
/// put in front of `bytes`.
pub open spec fn padded_prefix_value(bytes: Seq<u8>, pad: int, i: int) -> nat {
    if i <= pad {
        0
    } else {
        be_value(bytes.take(i - pad))
    }
}

/// Taking one more byte of a padded string shifts the value by one byte and
/// adds the byte taken.
pub proof fn lemma_padded_prefix_step(bytes: Seq<u8>, pad: int, i: int)
    requires
        0 <= pad,
        0 <= i < pad + bytes.len(),
    ensures
        padded_prefix_value(bytes, pad, i + 1) == padded_prefix_value(bytes, pad, i) * 256 + (if i
            < pad {
            0
        } else {
            bytes[i - pad] as nat
        }),
{
    if i >= pad {
        let longer = bytes.take(i + 1 - pad);
        assert(longer.drop_last() =~= bytes.take(i - pad));
        assert(longer.last() == bytes[i - pad]);
        if i == pad {
            assert(be_value(bytes.take(0)) == 0);
        }
    }
}

/// A zero byte in front changes nothing.
pub proof fn lemma_leading_zero(bytes: Seq<u8>)
    requires
        bytes.len() > 0,
        bytes[0] == 0,
    ensures
        be_value(bytes) == be_value(bytes.skip(1)),
    decreases bytes.len(),
{
    if bytes.len() == 1 {
        assert(bytes.drop_last() =~= Seq::<u8>::empty());
        assert(bytes.skip(1) =~= Seq::<u8>::empty());
        assert(be_value(Seq::<u8>::empty()) == 0);
    } else {
        lemma_leading_zero(bytes.drop_last());
        assert(bytes.skip(1).drop_last() =~= bytes.drop_last().skip(1));
        assert(bytes.skip(1).last() == bytes.last());
    }
}

/// A string of bytes denotes at least what any of its prefixes denotes.
pub proof fn lemma_prefix_at_most_whole(bytes: Seq<u8>, i: int)
    requires
        0 <= i <= bytes.len(),
    ensures
        be_value(bytes.take(i)) <= be_value(bytes),
    decreases bytes.len() - i,
{
    if i == bytes.len() {
        assert(bytes.take(i) =~= bytes);
    } else {
        lemma_prefix_at_most_whole(bytes, i + 1);
        assert(bytes.take(i + 1).drop_last() =~= bytes.take(i));
    }
}

/// Whether `bytes` is the shortest string for its number that has at least
/// one byte: a single byte, or a string that does not start with zero.
pub open spec fn is_canonical(bytes: Seq<u8>) -> bool {
    bytes.len() >= 1 && (bytes.len() == 1 || bytes[0] != 0)
}

/// Strings of one length that denote the same number are the same string.
pub proof fn lemma_same_length_same_value(a: Seq<u8>, b: Seq<u8>)
    requires
        a.len() == b.len(),
        be_value(a) == be_value(b),
    ensures
        a == b,
    decreases a.len(),
{
    if a.len() == 0 {
        assert(a =~= b);
    } else {
        lemma_same_length_same_value(a.drop_last(), b.drop_last());
        assert(a =~= a.drop_last().push(a.last()));
        assert(b =~= b.drop_last().push(b.last()));
    }
}

/// Zero bytes in front, however many, change nothing.
pub proof fn lemma_leading_zeros(zeros: nat, bytes: Seq<u8>)
    ensures
        be_value(Seq::new(zeros, |i: int| 0u8) + bytes) == be_value(bytes),
    decreases zeros,
{
    let padded = Seq::new(zeros, |i: int| 0u8) + bytes;
    if zeros == 0 {
        assert(padded =~= bytes);
    } else {
        lemma_leading_zero(padded);
        assert(padded.skip(1) =~= Seq::new((zeros - 1) as nat, |i: int| 0u8) + bytes);
        lemma_leading_zeros((zeros - 1) as nat, bytes);
    }
}

/// A number has one canonical string only.
pub proof fn lemma_canonical_is_unique(a: Seq<u8>, b: Seq<u8>)
    requires
        is_canonical(a),
        is_canonical(b),
        be_value(a) == be_value(b),
    ensures
        a == b,
{
    if a.len() < b.len() {
        let padded = Seq::new((b.len() - a.len()) as nat, |i: int| 0u8) + a;
        lemma_leading_zeros((b.len() - a.len()) as nat, a);
        lemma_same_length_same_value(padded, b);
        assert(padded[0] == 0);
    } else if b.len() < a.len() {
        let padded = Seq::new((a.len() - b.len()) as nat, |i: int| 0u8) + b;
        lemma_leading_zeros((a.len() - b.len()) as nat, b);
        lemma_same_length_same_value(padded, a);
        assert(padded[0] == 0);
    } else {
        lemma_same_length_same_value(a, b);
    }
}

/// How one number stands to another.
#[derive(Clone, Copy, Debug, PartialEq, Eq, Structural)]
pub enum Relation {
    Below,
    Same,
    Above,
}

/// How `a` stands to `b`.
pub open spec fn relation_of(a: nat, b: nat) -> Relation {
    if a < b {
        Relation::Below
    } else if a == b {
        Relation::Same
    } else {
        Relation::Above
    }
}

/// A natural number of any size.
///
/// The number is kept as big-endian bytes; its view is the number itself.
/// Two values are equal when they denote the same number, whatever leading
/// zero bytes they were built from.
#[derive(Debug)]
pub struct BigNat {
    pub(crate) bytes: Vec<u8>,
}

impl View for BigNat {
    type V = nat;

    closed spec fn view(&self) -> nat {
        be_value(self.bytes@)
    }
}

impl BigNat {
    /// The number that `bytes` denotes in big-endian order.
    pub fn from_bytes_be(bytes: &[u8]) -> (r: BigNat)
        ensures
            r@ == be_value(bytes@),
    {
        BigNat { bytes: vstd::slice::slice_to_vec(bytes) }
    }

    /// How this number stands to `other`.
    pub fn relation_to(&self, other: &BigNat) -> (r: Relation)
        ensures
            r == relation_of(self@, other@),
    {
        let a = &self.bytes;
        let b = &other.bytes;
        let n: usize = if a.len() < b.len() {
            b.len()
        } else {
            a.len()
        };
        let pad_a: usize = n - a.len();
        let pad_b: usize = n - b.len();
        let mut r = Relation::Same;
        let mut i: usize = 0;
        while i < n
            invariant
                i <= n,
                n == pad_a + a.len(),
                n == pad_b + b.len(),
                r == relation_of(
                    padded_prefix_value(a@, pad_a as int, i as int),
                    padded_prefix_value(b@, pad_b as int, i as int),
                ),
            decreases n - i,
        {
            let x: u8 = if i < pad_a {
                0
            } else {
                a[i - pad_a]
            };
            let y: u8 = if i < pad_b {
                0
            } else {
                b[i - pad_b]
            };
            proof {
                lemma_padded_prefix_step(a@, pad_a as int, i as int);
                lemma_padded_prefix_step(b@, pad_b as int, i as int);
            }
            if r == Relation::Same {
                if x < y {
                    r = Relation::Below;
                } else if x > y {
                    r = Relation::Above;
                }
            }
            i = i + 1;
        }
        proof {
            assert(a@.take(a.len() as int) =~= a@);
            assert(b@.take(b.len() as int) =~= b@);
            assert(be_value(Seq::<u8>::empty()) == 0);
        }
        r
    }

    /// Whether this number is less than `other`.
    pub fn lt(&self, other: &BigNat) -> (r: bool)
        ensures
            r == (self@ < other@),
    {
        self.relation_to(other) == Relation::Below
    }

    /// Whether this number is at most `other`.
    pub fn le(&self, other: &BigNat) -> (r: bool)
        ensures
            r == (self@ <= other@),
    {
        self.relation_to(other) != Relation::Above
    }

    /// The shortest big-endian bytes of this number; zero is one zero byte.
    pub fn to_bytes_be(&self) -> (out: Vec<u8>)
        ensures
            be_value(out@) == self@,
            is_canonical(out@),
    {
        let n = self.bytes.len();
        let mut start: usize = 0;
        proof {
            assert(self.bytes@.skip(0) =~= self.bytes@);
        }
        while start < n && self.bytes[start] == 0
            invariant
                start <= n,
                n == self.bytes@.len(),
                be_value(self.bytes@.skip(start as int)) == be_value(self.bytes@),
            decreases n - start,
        {
            proof {
                lemma_leading_zero(self.bytes@.skip(start as int));
                assert(self.bytes@.skip(start as int).skip(1) =~= self.bytes@.skip(start + 1));
            }
            start = start + 1;
        }
        let mut out: Vec<u8> = Vec::new();
        if start == n {
            out.push(0);
            proof {
                assert(self.bytes@.skip(start as int) =~= Seq::<u8>::empty());
                assert(out@.drop_last() =~= Seq::<u8>::empty());
                assert(be_value(Seq::<u8>::empty()) == 0);
            }
        } else {
            let mut i: usize = start;
            while i < n
                invariant
                    start <= i <= n,
                    n == self.bytes@.len(),
                    out@ == self.bytes@.subrange(start as int, i as int),
                decreases n - i,
            {
                out.push(self.bytes[i]);
                i = i + 1;
            }
            proof {
                assert(out@ =~= self.bytes@.skip(start as int));
            }
        }
        out
    }

    /// This number as a `u64`, where it fits.
    pub fn to_u64(&self) -> (r: Option<u64>)
        ensures
            match r {
                Some(v) => v == self@,
                None => self@ > u64::MAX,
            },
    {
        let n = self.bytes.len();
        let mut acc: u64 = 0;
        let mut i: usize = 0;
        proof {
            assert(be_value(self.bytes@.take(0)) == 0);
        }
        while i < n
            invariant
                i <= n,
                n == self.bytes@.len(),
                acc == be_value(self.bytes@.take(i as int)),
            decreases n - i,
        {
            let b: u64 = self.bytes[i] as u64;
            proof {
                assert(self.bytes@.take(i + 1).drop_last() =~= self.bytes@.take(i as int));
                lemma_prefix_at_most_whole(self.bytes@, i + 1);
            }
            if acc > (u64::MAX - b) / 256 {
                return None;
            }
            acc = acc * 256 + b;
            i = i + 1;
        }
        proof {
            assert(self.bytes@.take(n as int) =~= self.bytes@);
        }
        Some(acc)
    }

    /// The number `v`.
    pub fn from_u64(v: u64) -> (r: BigNat)
        ensures
            r@ == v,
        decreases v,
    {
        if v < 256 {
            let mut bytes: Vec<u8> = Vec::new();
            bytes.push(v as u8);
            proof {
                assert(bytes@.drop_last() =~= Seq::<u8>::empty());
                assert(be_value(Seq::<u8>::empty()) == 0);
                assert(bytes@.last() == v);
            }
            BigNat { bytes }
        } else {
            let high = BigNat::from_u64(v / 256);
            let mut bytes = high.bytes;
            let ghost before = bytes@;
            bytes.push((v % 256) as u8);
            proof {
                assert(bytes@.drop_last() =~= before);
                assert(bytes@.last() == v % 256);
                assert(be_value(before) == v / 256);
            }
            BigNat { bytes }
        }
    }
}

impl Clone for BigNat {
    fn clone(&self) -> (r: BigNat)
        ensures
            r@ == self@,
    {
        BigNat { bytes: self.bytes.clone() }
    }
}

impl PartialEq for BigNat {
    /// Whether the two values denote the same number.
    fn eq(&self, other: &BigNat) -> (r: bool) {
        self.relation_to(other) == Relation::Same
    }
}

impl Eq for BigNat {

}

impl vstd::std_specs::cmp::PartialEqSpecImpl for BigNat {
    open spec fn obeys_eq_spec() -> bool {
        true
    }

    open spec fn eq_spec(&self, other: &BigNat) -> bool {
        self@ == other@
    }
}

} // verus!
