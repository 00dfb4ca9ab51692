//! Numbers as big-endian byte strings, and the one operation on them that
//! the RSA key needs: modular exponentiation.

use vstd::arithmetic::power::pow;
use vstd::prelude::*;

verus! {

/// 256 to the power `k`.
pub open spec fn pow256(k: nat) -> nat
    decreases k,
{
    if k == 0 {
        1
    } else {
        256 * pow256((k - 1) as nat)
    }
}

/// The number that `s` writes, most significant byte first.
pub open spec fn be_value(s: Seq<u8>) -> nat
    decreases s.len(),
{
    if s.len() == 0 {
        0
    } else {
        256 * be_value(s.drop_last()) + s.last() as nat
    }
}

/// The `len` lowest bytes of `v`, most significant byte first.
pub open spec fn be_bytes(v: nat, len: nat) -> Seq<u8>
    decreases len,
{
    if len == 0 {
        Seq::empty()
    } else {
        be_bytes(v / 256, (len - 1) as nat).push((v % 256) as u8)
    }
}

/// `k` zero bytes.
pub open spec fn zeros(k: nat) -> Seq<u8> {
    Seq::new(k, |i: int| 0u8)
}

pub proof fn lemma_pow256_positive(k: nat)
    ensures
        pow256(k) >= 1,
    decreases k,
{
    if k > 0 {
        lemma_pow256_positive((k - 1) as nat);
    }
}

/// The value of a concatenation: the first part is shifted by the length of
/// the second.
pub proof fn lemma_be_value_concat(a: Seq<u8>, b: Seq<u8>)
    ensures
        be_value(a + b) == be_value(a) * pow256(b.len()) + be_value(b),
    decreases b.len(),
{
    let x = be_value(a);
    if b.len() == 0 {
        assert(a + b =~= a);
        assert(x * 1 == x);
    } else {
        lemma_be_value_concat(a, b.drop_last());
        assert((a + b).drop_last() =~= a + b.drop_last());
        assert((a + b).last() == b.last());
        let p = pow256(b.drop_last().len());
        let y = be_value(b.drop_last());
        assert(pow256(b.len()) == 256 * p);
        assert(256 * (x * p + y) == x * (256 * p) + 256 * y) by (nonlinear_arith);
        assert(be_value(a + b) == 256 * be_value(a + b.drop_last()) + b.last() as nat);
    }
}

/// A byte string of length `n` writes a number below `256^n`.
pub proof fn lemma_be_value_bound(s: Seq<u8>)
    ensures
        be_value(s) < pow256(s.len()),
    decreases s.len(),
{
    if s.len() > 0 {
        lemma_be_value_bound(s.drop_last());
    }
}

/// The value of one byte and of two bytes.
pub proof fn lemma_be_value_short(s: Seq<u8>)
    ensures
        s.len() == 1 ==> be_value(s) == s[0] as nat,
        s.len() == 2 ==> be_value(s) == 256 * s[0] as nat + s[1] as nat,
{
    reveal_with_fuel(be_value, 3);
}

pub proof fn lemma_be_value_zeros(k: nat)
    ensures
        be_value(zeros(k)) == 0,
    decreases k,
{
    if k > 0 {
        lemma_be_value_zeros((k - 1) as nat);
        assert(zeros(k).drop_last() =~= zeros((k - 1) as nat));
    }
}

/// Writing the value of a byte string in as many bytes gives the string back.
pub proof fn lemma_be_bytes_of_value(s: Seq<u8>)
    ensures
        be_bytes(be_value(s), s.len()) == s,
    decreases s.len(),
{
    if s.len() > 0 {
        lemma_be_bytes_of_value(s.drop_last());
        let v = be_value(s);
        assert(v / 256 == be_value(s.drop_last()));
        assert(v % 256 == s.last() as nat);
        assert(be_bytes(v, s.len()) =~= s);
    } else {
        assert(be_bytes(be_value(s), s.len()) =~= s);
    }
}

/// A number is written in as many bytes as asked for.
pub proof fn lemma_be_bytes_len(v: nat, len: nat)
    ensures
        be_bytes(v, len).len() == len,
    decreases len,
{
    if len > 0 {
        lemma_be_bytes_len(v / 256, (len - 1) as nat);
    }
}

/// The number `bytes` writes, in exactly `width` bytes.
pub fn to_width(bytes: &Vec<u8>, width: usize) -> (out: Vec<u8>)
    requires
        be_value(bytes@) < pow256(width as nat),
    ensures
        out@ == be_bytes(be_value(bytes@), width as nat),
        out@.len() == width,
{
    let mut out: Vec<u8> = Vec::new();
    let n = bytes.len();
    if n <= width {
        let pad = width - n;
        let mut i: usize = 0;
        while i < pad
            invariant
                i <= pad,
                out@ == zeros(i as nat),
            decreases pad - i,
        {
            out.push(0u8);
            i = i + 1;
            assert(out@ =~= zeros(i as nat));
        }
        out.extend_from_slice(bytes.as_slice());
        proof {
            assert(out@ =~= zeros(pad as nat) + bytes@);
            lemma_be_value_concat(zeros(pad as nat), bytes@);
            lemma_be_value_zeros(pad as nat);
            assert(0 * pow256(bytes@.len()) == 0);
            assert(be_value(out@) == be_value(bytes@));
            lemma_be_bytes_of_value(out@);
        }
    } else {
        let skip = n - width;
        let ghost head = bytes@.take(skip as int);
        let ghost tail = bytes@.skip(skip as int);
        let mut i: usize = skip;
        while i < n
            invariant
                skip <= i <= n,
                n == bytes@.len(),
                out@ == bytes@.subrange(skip as int, i as int),
            decreases n - i,
        {
            out.push(bytes[i]);
            i = i + 1;
            assert(out@ =~= bytes@.subrange(skip as int, i as int));
        }
        proof {
            assert(out@ =~= tail);
            assert(bytes@ =~= head + tail);
            lemma_be_value_concat(head, tail);
            lemma_be_value_bound(tail);
            let h = be_value(head);
            let p = pow256(tail.len());
            assert(tail.len() == width);
            if h >= 1 {
                assert(h * p >= p) by (nonlinear_arith)
                    requires
                        h >= 1,
                        p >= 0,
                ;
            }
            assert(h == 0);
            assert(h * p == 0) by (nonlinear_arith)
                requires
                    h == 0,
            ;
            assert(be_value(out@) == be_value(bytes@));
            lemma_be_bytes_of_value(out@);
        }
    }
    out
}

/// Calls `BigUint::modpow` of `num-bigint` on three numbers written most
/// significant byte first (`BigUint::from_bytes_be`) and writes the result
/// the same way (`BigUint::to_bytes_be`). The crate documents the result as
/// `(self ^ exponent) % modulus` and a panic on a modulus of zero.
#[verifier::external_body]
pub(crate) fn modpow_be(base: &[u8], exponent: &[u8], modulus: &[u8]) -> (result: Vec<u8>)
    requires
        be_value(modulus@) != 0,
    ensures
        be_value(result@) == pow(be_value(base@) as int, be_value(exponent@)) % (be_value(
            modulus@,
        ) as int),
{
    let base = num_bigint::BigUint::from_bytes_be(base);
    let exponent = num_bigint::BigUint::from_bytes_be(exponent);
    let modulus = num_bigint::BigUint::from_bytes_be(modulus);
    base.modpow(&exponent, &modulus).to_bytes_be()
}

} // verus!
