//! The RSA key of the host: it signs the tokens that a device sends during
//! authentication and writes its public half in the format that Android
//! expects.

use crate::bignum::{
    be_bytes, be_value, lemma_be_bytes_len, lemma_be_value_bound, lemma_be_value_concat,
    lemma_be_value_short, lemma_pow256_positive, modpow_be, pow256, to_width,
};
use crate::error::RustADBError;
use crate::wire::{le_bytes, le_value, put_u32_le};
use vstd::arithmetic::power::pow;
use vstd::prelude::*;

verus! {

/// Length of the modulus, of a signature and of a padded message, in bytes.
pub const KEY_BYTES: usize = 256;

/// Length of a token, in bytes.
pub const TOKEN_BYTES: usize = 20;

/// Number of 32-bit words of the modulus, as the public key states it.
pub const MODULUS_SIZE_WORDS: u32 = 64;

/// The DER prefix of a SHA-1 `DigestInfo`; the 20 bytes of the digest follow
/// it.
pub open spec fn sha1_digest_info_prefix() -> Seq<u8> {
    seq![
        0x30u8, 0x21u8, 0x30u8, 0x09u8, 0x06u8, 0x05u8, 0x2bu8, 0x0eu8, 0x03u8, 0x02u8, 0x1au8,
        0x05u8, 0x00u8, 0x04u8, 0x14u8,
    ]
}

/// The message that is raised to the private exponent: `00 01`, 218 bytes
/// `ff`, `00`, the SHA-1 `DigestInfo` prefix and the token itself, which is
/// taken as the digest and not hashed again.
pub open spec fn pkcs1_encoding(token: Seq<u8>) -> Seq<u8> {
    seq![0x00u8, 0x01u8] + Seq::new(218, |i: int| 0xffu8) + seq![0x00u8]
        + sha1_digest_info_prefix() + token
}

/// Writes [`pkcs1_encoding`] of a token of 20 bytes.
pub fn pkcs1_encode(token: &[u8]) -> (em: Vec<u8>)
    requires
        token@.len() == 20,
    ensures
        em@ == pkcs1_encoding(token@),
        em@.len() == 256,
{
    let mut em: Vec<u8> = Vec::new();
    em.push(0x00);
    em.push(0x01);
    let mut i: usize = 0;
    while i < 218
        invariant
            i <= 218,
            em@ == seq![0x00u8, 0x01u8] + Seq::new(i as nat, |j: int| 0xffu8),
        decreases 218 - i,
    {
        em.push(0xff);
        i = i + 1;
        assert(em@ =~= seq![0x00u8, 0x01u8] + Seq::new(i as nat, |j: int| 0xffu8));
    }
    em.push(0x00);
    let prefix: [u8; 15] = [
        0x30, 0x21, 0x30, 0x09, 0x06, 0x05, 0x2b, 0x0e, 0x03, 0x02, 0x1a, 0x05, 0x00, 0x04, 0x14,
    ];
    let mut j: usize = 0;
    while j < 15
        invariant
            j <= 15,
            prefix@ == sha1_digest_info_prefix(),
            em@ == seq![0x00u8, 0x01u8] + Seq::new(218, |i: int| 0xffu8) + seq![0x00u8]
                + sha1_digest_info_prefix().take(j as int),
        decreases 15 - j,
    {
        em.push(prefix[j]);
        j = j + 1;
        assert(em@ =~= seq![0x00u8, 0x01u8] + Seq::new(218, |i: int| 0xffu8) + seq![0x00u8]
            + sha1_digest_info_prefix().take(j as int));
    }
    assert(sha1_digest_info_prefix().take(15) =~= sha1_digest_info_prefix());
    em.extend_from_slice(token);
    em
}

/// Whether `n0 * x + 1` is divisible by `2^32`.
pub open spec fn is_neg_inverse(n0: u32, x: u32) -> bool {
    (n0 as int * x as int + 1) % 0x1_0000_0000 == 0
}

/// The one `x` with `n0 * x + 1` divisible by `2^32`, for an odd `n0`.
pub open spec fn neg_inverse(n0: u32) -> u32 {
    choose|x: u32| is_neg_inverse(n0, x)
}

/// Two numbers below `2^32` that both make `n0 * x + 1` divisible by `2^32`
/// are the same number.
pub proof fn lemma_neg_inverse_unique(n0: u32, x: u32, y: u32)
    requires
        is_neg_inverse(n0, x),
        is_neg_inverse(n0, y),
    ensures
        x == y,
{
    let m = 0x1_0000_0000int;
    let a = n0 as int;
    let k = (a * x + 1) / m;
    let j = (a * y + 1) / m;
    assert(a * x + 1 == m * k);
    assert(a * y + 1 == m * j);
    let d = x as int * j - k * y as int;
    assert(x - y == m * d) by (nonlinear_arith)
        requires
            a * x + 1 == m * k,
            a * y + 1 == m * j,
            d == x * j - k * y,
    ;
    if d >= 1 {
        assert(m * d >= m) by (nonlinear_arith)
            requires
                d >= 1,
                m > 0,
        ;
    }
    if d <= -1 {
        assert(m * d <= -m) by (nonlinear_arith)
            requires
                d <= -1,
                m > 0,
        ;
    }
}

/// One round of Newton's iteration: an inverse of `a` modulo `m` becomes one
/// modulo `m * m`, as long as `m * m` divides `2^32`.
proof fn lemma_newton_round(a: int, x: int, y: int, m: int, c: int, t: int) -> (t2: int)
    requires
        a * x - 1 == m * t,
        0x1_0000_0000 == m * m * c,
        y == (x * ((0x1_0000_0000 + 2 - (a * x) % 0x1_0000_0000) % 0x1_0000_0000)) % 0x1_0000_0000,
    ensures
        a * y - 1 == (m * m) * t2,
{
    let big = 0x1_0000_0000int;
    let u = a * x;
    let q1 = u / big;
    let nx = u % big;
    assert(nx == u - big * q1);
    let w = big + 2 - nx;
    let q2 = w / big;
    let tm = w % big;
    assert(tm == w - big * q2);
    let v = x * tm;
    let q3 = v / big;
    assert(y == v - big * q3);
    let k = q1 + 1 - q2;
    let z = u * k - a * q3;
    assert(tm == (2 - u) + big * k);
    assert(a * y == u * tm - big * (a * q3)) by (nonlinear_arith)
        requires
            u == a * x,
            y == x * tm - big * q3,
    ;
    assert(u * tm == u * (2 - u) + big * (u * k)) by (nonlinear_arith)
        requires
            tm == (2 - u) + big * k,
    ;
    assert(big * z == big * (u * k) - big * (a * q3)) by (nonlinear_arith)
        requires
            z == u * k - a * q3,
    ;
    assert(a * y == u * (2 - u) + big * z);
    assert(u * (2 - u) == 1 - (m * m) * (t * t)) by (nonlinear_arith)
        requires
            u - 1 == m * t,
    ;
    assert(big * z == (m * m) * (c * z)) by (nonlinear_arith)
        requires
            big == m * m * c,
    ;
    let t2 = c * z - t * t;
    assert((m * m) * t2 == (m * m) * (c * z) - (m * m) * (t * t)) by (nonlinear_arith)
        requires
            t2 == c * z - t * t,
    ;
    t2
}

/// Computes [`neg_inverse`] of an odd number.
pub fn neg_inverse_u32(n0: u32) -> (r: u32)
    requires
        n0 % 2 == 1,
    ensures
        is_neg_inverse(n0, r),
        r == neg_inverse(n0),
{
    let big: u64 = 0x1_0000_0000;
    let mut x: u64 = 1;
    let mut m: u64 = 2;
    let ghost mut t: int = (n0 as int - 1) / 2;
    while m != 0x1_0000_0000
        invariant
            big == 0x1_0000_0000,
            x < 0x1_0000_0000,
            m == 2 || m == 4 || m == 16 || m == 256 || m == 65536 || m == 0x1_0000_0000,
            n0 as int * x as int - 1 == m as int * t,
        decreases 0x1_0000_0000 - m,
    {
        assert(n0 as u64 * x < 0x1_0000_0000 * 0x1_0000_0000) by (nonlinear_arith)
            requires
                n0 < 0x1_0000_0000,
                x < 0x1_0000_0000,
        ;
        let nx = (n0 as u64 * x) % big;
        let tm = (big + 2 - nx) % big;
        assert(x * tm < 0x1_0000_0000 * 0x1_0000_0000) by (nonlinear_arith)
            requires
                x < 0x1_0000_0000,
                tm < 0x1_0000_0000,
        ;
        let y = (x * tm) % big;
        proof {
            let c: int = if m == 2 {
                0x4000_0000
            } else if m == 4 {
                0x1000_0000
            } else if m == 16 {
                0x100_0000
            } else if m == 256 {
                0x1_0000
            } else {
                1
            };
            assert(0x1_0000_0000 == m as int * m as int * c) by (nonlinear_arith)
                requires
                    (m == 2 && c == 0x4000_0000) || (m == 4 && c == 0x1000_0000) || (m == 16 && c
                        == 0x100_0000) || (m == 256 && c == 0x1_0000) || (m == 65536 && c == 1),
            ;
            t = lemma_newton_round(n0 as int, x as int, y as int, m as int, c, t);
        }
        assert(m * m <= 0x1_0000_0000) by (nonlinear_arith)
            requires
                m == 2 || m == 4 || m == 16 || m == 256 || m == 65536,
        ;
        assert(m * m == 4 || m * m == 16 || m * m == 256 || m * m == 65536 || m * m
            == 0x1_0000_0000) by (nonlinear_arith)
            requires
                m == 2 || m == 4 || m == 16 || m == 256 || m == 65536,
        ;
        x = y;
        m = m * m;
    }
    let r = ((big - x) % big) as u32;
    proof {
        let a = n0 as int;
        let q = (big - x) as int / 0x1_0000_0000;
        assert(r as int == big as int - x as int - 0x1_0000_0000 * q);
        assert(a * r + 1 == 0x1_0000_0000 * (a - a * q - t)) by (nonlinear_arith)
            requires
                a * x - 1 == 0x1_0000_0000 * t,
                r == 0x1_0000_0000 - x - 0x1_0000_0000 * q,
        ;
        vstd::arithmetic::div_mod::lemma_mod_multiples_basic(a - a * q - t, 0x1_0000_0000);
        assert((0x1_0000_0000 * (a - a * q - t)) % 0x1_0000_0000 == 0) by {
            assert(0x1_0000_0000 * (a - a * q - t) == (a - a * q - t) * 0x1_0000_0000) by (nonlinear_arith);
        }
        assert(is_neg_inverse(n0, r));
        lemma_neg_inverse_unique(n0, r, neg_inverse(n0));
    }
    r
}

/// The text that the standard base64 alphabet, with padding, makes of `bytes`.
pub uninterp spec fn base64_text(bytes: Seq<u8>) -> Seq<char>;

/// Calls `Engine::encode` of `base64` on the engine `STANDARD`: the standard
/// alphabet with padding. The call panics where the length of the text would
/// not fit a `usize`, which takes an input in the top quarter of that range.
#[verifier::external_body]
pub(crate) fn base64_encode(bytes: &[u8]) -> (text: String)
    requires
        bytes@.len() <= 0x3fff_ffff,
    ensures
        text@ == base64_text(bytes@),
{
    <base64::engine::GeneralPurpose as base64::Engine>::encode(
        &base64::engine::general_purpose::STANDARD,
        bytes,
    )
}

/// The number made of the four lowest bytes of a big-endian byte string.
pub open spec fn low_word(s: Seq<u8>) -> int
    recommends
        s.len() >= 4,
{
    le_value(seq![s[s.len() - 1], s[s.len() - 2], s[s.len() - 3], s[s.len() - 4]])
}

/// A 2048-bit RSA key: modulus and private exponent as big-endian bytes, the
/// public exponent, and the identifier that follows the public key.
#[derive(Debug, PartialEq, Eq)]
pub struct ADBRsaKey {
    modulus: Vec<u8>,
    private_exponent: Vec<u8>,
    public_exponent: u32,
    user: String,
}

impl ADBRsaKey {
    /// The modulus, most significant byte first.
    pub closed spec fn modulus(&self) -> Seq<u8> {
        self.modulus@
    }

    /// The private exponent, most significant byte first.
    pub closed spec fn private_exponent(&self) -> Seq<u8> {
        self.private_exponent@
    }

    pub closed spec fn public_exponent(&self) -> u32 {
        self.public_exponent
    }

    /// The identifier of the user, such as `host@workstation`.
    pub closed spec fn user(&self) -> Seq<char> {
        self.user@
    }

    /// Every key has a modulus of 256 bytes that is odd and has its highest
    /// bit set.
    #[verifier::type_invariant]
    pub open spec fn wf(&self) -> bool {
        Self::acceptable(self.modulus())
    }

    /// What [`ADBRsaKey::new`] asks of a modulus.
    pub open spec fn acceptable(modulus: Seq<u8>) -> bool {
        &&& modulus.len() == 256
        &&& modulus[0] >= 128
        &&& modulus[255] % 2 == 1
    }

    /// The signature of `token`: the padded token raised to the private
    /// exponent modulo the modulus, in 256 bytes.
    pub open spec fn signature(&self, token: Seq<u8>) -> Seq<u8> {
        be_bytes(
            (pow(be_value(pkcs1_encoding(token)) as int, be_value(self.private_exponent())) % (
            be_value(self.modulus()) as int)) as nat,
            256,
        )
    }

    /// The public key as Android stores it, 524 bytes: the number of words of
    /// the modulus, the negated inverse of its lowest word modulo `2^32`, the
    /// modulus, `2^4096` modulo the modulus, and the public exponent; the
    /// numbers of several words least significant byte first.
    pub open spec fn public_key_blob(&self) -> Seq<u8> {
        le_bytes(64) + le_bytes(neg_inverse(low_word(self.modulus()) as u32))
            + self.modulus().reverse() + be_bytes(
            (pow(2, 4096) % (be_value(self.modulus()) as int)) as nat,
            256,
        ).reverse() + le_bytes(self.public_exponent())
    }

    /// The public key as it is sent: the blob in base64, a space and the
    /// identifier of the user.
    pub open spec fn public_key_text(&self) -> Seq<char> {
        base64_text(self.public_key_blob()) + seq![' '] + self.user()
    }

    /// The public key as Android stores it has 524 bytes.
    pub proof fn lemma_public_key_blob_len(&self)
        requires
            self.wf(),
        ensures
            self.public_key_blob().len() == 524,
    {
        lemma_be_bytes_len((pow(2, 4096) % (be_value(self.modulus()) as int)) as nat, 256);
    }

    /// Makes a key of its numbers. The modulus must be acceptable, see
    /// [`ADBRsaKey::acceptable`]; otherwise the answer is `ConversionError`.
    pub fn new(
        modulus: Vec<u8>,
        private_exponent: Vec<u8>,
        public_exponent: u32,
        user: String,
    ) -> (r:
        Result<Self, RustADBError>)
        ensures
            r is Ok <==> Self::acceptable(modulus@),
            r matches Ok(key) ==> key.wf() && key.modulus() == modulus@ && key.private_exponent()
                == private_exponent@ && key.public_exponent() == public_exponent && key.user()
                == user@,
            r matches Err(e) ==> e == RustADBError::ConversionError,
    {
        if modulus.len() != KEY_BYTES || modulus[0] < 128 || modulus[KEY_BYTES - 1] % 2 != 1 {
            return Err(RustADBError::ConversionError);
        }
        Ok(ADBRsaKey { modulus, private_exponent, public_exponent, user })
    }

    /// An acceptable modulus is not zero and is below `256^256`.
    proof fn lemma_modulus_range(&self)
        requires
            self.wf(),
        ensures
            0 < be_value(self.modulus()) < pow256(256),
    {
        let m = self.modulus();
        let head = m.take(1);
        let tail = m.skip(1);
        assert(m =~= head + tail);
        lemma_be_value_concat(head, tail);
        lemma_be_value_bound(m);
        lemma_pow256_positive(255);
        lemma_be_value_short(head);
        assert(be_value(head) * pow256(255) >= pow256(255)) by (nonlinear_arith)
            requires
                be_value(head) >= 1,
                pow256(255) >= 1,
        ;
    }

    /// Signs a token of 20 bytes with RSASSA-PKCS1-v1_5 over the SHA-1
    /// `DigestInfo`, the token standing for the digest. A token of another
    /// length is a `ConversionError`.
    pub fn sign(&self, token: &[u8]) -> (r: Result<Vec<u8>, RustADBError>)
        ensures
            r is Ok <==> token@.len() == 20,
            r matches Ok(signature) ==> signature@ == self.signature(token@) && signature@.len()
                == 256,
            r matches Err(e) ==> e == RustADBError::ConversionError,
    {
        if token.len() != TOKEN_BYTES {
            return Err(RustADBError::ConversionError);
        }
        let em = pkcs1_encode(token);
        proof {
            use_type_invariant(self);
            self.lemma_modulus_range();
        }
        let raw = modpow_be(
            em.as_slice(),
            self.private_exponent.as_slice(),
            self.modulus.as_slice(),
        );
        proof {
            vstd::arithmetic::div_mod::lemma_mod_bound(
                pow(be_value(em@) as int, be_value(self.private_exponent@)),
                be_value(self.modulus@) as int,
            );
        }
        Ok(to_width(&raw, KEY_BYTES))
    }

    /// Writes the public key as Android stores it: see
    /// [`ADBRsaKey::public_key_blob`].
    pub fn android_pubkey_blob(&self) -> (blob: Vec<u8>)
        ensures
            blob@ == self.public_key_blob(),
            blob@.len() == 524,
    {
        proof {
            use_type_invariant(self);
        }
        let m = &self.modulus;
        let n0: u32 = m[255] as u32 + 256 * (m[254] as u32) + 65536 * (m[253] as u32) + 16777216 * (
        m[252] as u32);
        let n0inv = neg_inverse_u32(n0);
        let mut two: Vec<u8> = Vec::new();
        two.push(2u8);
        let mut exponent: Vec<u8> = Vec::new();
        exponent.push(0x10u8);
        exponent.push(0x00u8);
        proof {
            self.lemma_modulus_range();
            lemma_be_value_short(two@);
            lemma_be_value_short(exponent@);
        }
        let raw = modpow_be(two.as_slice(), exponent.as_slice(), m.as_slice());
        proof {
            vstd::arithmetic::div_mod::lemma_mod_bound(
                pow(2, 4096),
                be_value(self.modulus@) as int,
            );
        }
        let rr = to_width(&raw, KEY_BYTES);
        let mut blob: Vec<u8> = Vec::new();
        put_u32_le(&mut blob, MODULUS_SIZE_WORDS);
        put_u32_le(&mut blob, n0inv);
        append_reversed(&mut blob, m);
        append_reversed(&mut blob, &rr);
        put_u32_le(&mut blob, self.public_exponent);
        assert(blob@ =~= self.public_key_blob());
        blob
    }

    /// Writes the public key in the form that a device stores: see
    /// [`ADBRsaKey::public_key_text`].
    pub fn android_pubkey_encode(&self) -> (r: Result<String, RustADBError>)
        ensures
            r is Ok,
            r matches Ok(text) ==> text@ == self.public_key_text(),
    {
        let blob = self.android_pubkey_blob();
        Ok(name_public_key(base64_encode(blob.as_slice()), self.user.as_str()))
    }
}

/// Puts the identifier of the user behind an encoded public key, with a
/// space between the two.
pub fn name_public_key(encoded: String, user: &str) -> (text: String)
    ensures
        text@ == encoded@ + seq![' '] + user@,
{
    let mut text = encoded;
    text.append(" ");
    text.append(user);
    proof {
        reveal_strlit(" ");
        assert(" "@ =~= seq![' ']);
    }
    text
}

/// Appends the bytes of `bytes` to `out`, last byte first.
pub fn append_reversed(out: &mut Vec<u8>, bytes: &Vec<u8>)
    ensures
        final(out)@ == old(out)@ + bytes@.reverse(),
{
    let n = bytes.len();
    let mut i: usize = 0;
    while i < n
        invariant
            i <= n,
            n == bytes@.len(),
            out@ == old(out)@ + bytes@.reverse().take(i as int),
        decreases n - i,
    {
        out.push(bytes[n - 1 - i]);
        i = i + 1;
        assert(out@ =~= old(out)@ + bytes@.reverse().take(i as int));
    }
    assert(bytes@.reverse().take(n as int) =~= bytes@.reverse());
}

} // verus!
