//! The HOTP engine (RFC 4226): HMAC signing of a counter, dynamic truncation
//! of the tag into a bounded decimal number, fixed-width rendering, and
//! verification of caller-supplied tokens.

use crate::digits::{
    chars_match_bytes, decimal_digits, lemma_decimal_digits_props, lemma_pow10_mono,
    lemma_pow10_pos, lemma_rendered_token_value, parse_decimal, pow10, pow10_u32, render_decimal,
    token_parses, token_value,
};
use crate::Algorithm;
use ring::hmac;
use vstd::arithmetic::div_mod::{lemma_mod_decreases, lemma_small_mod};
use vstd::prelude::*;
use vstd::string::StrSliceExecFns;

verus! {

/// Declares `ring::hmac::Key` so that it can stand in a field; the value is
/// opaque here.
#[verifier::external_type_specification]
#[verifier::external_body]
pub struct ExHmacKey(hmac::Key);

/// The HMAC tag that `ring` computes for the given hash algorithm, key bytes
/// and message: a function of those three values alone.
pub uninterp spec fn hmac_tag(algorithm: Algorithm, key: Seq<u8>, message: Seq<u8>) -> Seq<u8>;

/// Tag length in bytes of each supported hash algorithm.
pub open spec fn tag_len(algorithm: Algorithm) -> nat {
    match algorithm {
        Algorithm::SHA1 => 20,
        Algorithm::SHA256 => 32,
        Algorithm::SHA512 => 64,
    }
}

/// The eight big-endian bytes of a counter, the message that HOTP signs.
pub open spec fn counter_bytes(counter: u64) -> Seq<u8> {
    seq![
        ((counter >> 56) & 0xff) as u8,
        ((counter >> 48) & 0xff) as u8,
        ((counter >> 40) & 0xff) as u8,
        ((counter >> 32) & 0xff) as u8,
        ((counter >> 24) & 0xff) as u8,
        ((counter >> 16) & 0xff) as u8,
        ((counter >> 8) & 0xff) as u8,
        (counter & 0xff) as u8,
    ]
}

/// Big-endian 32-bit word assembled from four bytes.
pub open spec fn word32(b0: u8, b1: u8, b2: u8, b3: u8) -> u32 {
    ((b0 as u32) << 24) | ((b1 as u32) << 16) | ((b2 as u32) << 8) | (b3 as u32)
}

/// Dynamic truncation: the low four bits of the final tag byte give an
/// offset; the 31-bit big-endian word read there is the truncated value.
pub open spec fn truncated(tag: Seq<u8>) -> u32
    recommends
        tag.len() >= 20,
{
    let off = (tag[tag.len() - 1] & 0x0f) as int;
    word32(tag[off], tag[off + 1], tag[off + 2], tag[off + 3]) & 0x7fff_ffff
}

/// The derived number for a counter: the truncated tag value reduced to
/// `digits` decimal digits.
pub open spec fn hotp_code(algorithm: Algorithm, key: Seq<u8>, counter: u64, digits: nat) -> nat {
    (truncated(hmac_tag(algorithm, key, counter_bytes(counter))) as nat) % pow10(digits)
}

/// Token acceptance: the token parses as a non-negative decimal integer equal
/// to the code derived at the token's own character length.
pub open spec fn hotp_accepts(
    algorithm: Algorithm,
    key: Seq<u8>,
    counter: u64,
    token: Seq<char>,
) -> bool {
    token_parses(token) && token_value(token) == hotp_code(algorithm, key, counter, token.len())
}

/// The derived number never reaches `2^31`: the sign bit is cleared before the
/// decimal reduction.
pub proof fn lemma_hotp_code_bound(algorithm: Algorithm, key: Seq<u8>, counter: u64, digits: nat)
    ensures
        hotp_code(algorithm, key, counter, digits) < 0x8000_0000,
        hotp_code(algorithm, key, counter, digits) < pow10(digits),
{
    let t = truncated(hmac_tag(algorithm, key, counter_bytes(counter)));
    let tag = hmac_tag(algorithm, key, counter_bytes(counter));
    let off = (tag[tag.len() - 1] & 0x0f) as int;
    let w = word32(tag[off], tag[off + 1], tag[off + 2], tag[off + 3]);
    assert(w & 0x7fff_ffff < 0x8000_0000u32) by (bit_vector);
    lemma_pow10_pos(digits);
    lemma_mod_decreases(t as nat, pow10(digits));
}

/// Serializes a counter as eight big-endian bytes.
fn counter_to_bytes(counter: u64) -> (r: Vec<u8>)
    ensures
        r@ == counter_bytes(counter),
{
    let mut r: Vec<u8> = Vec::new();
    r.push(((counter >> 56) & 0xff) as u8);
    r.push(((counter >> 48) & 0xff) as u8);
    r.push(((counter >> 40) & 0xff) as u8);
    r.push(((counter >> 32) & 0xff) as u8);
    r.push(((counter >> 24) & 0xff) as u8);
    r.push(((counter >> 16) & 0xff) as u8);
    r.push(((counter >> 8) & 0xff) as u8);
    r.push((counter & 0xff) as u8);
    proof {
        assert(r@ =~= counter_bytes(counter));
    }
    r
}

/// Counter-based one-time passwords over a keyed HMAC context.
pub struct Hotp {
    key: hmac::Key,
    algorithm: Ghost<Algorithm>,
    key_bytes: Ghost<Seq<u8>>,
}

impl Hotp {
    /// The hash algorithm this engine was built with.
    pub closed spec fn alg(&self) -> Algorithm {
        self.algorithm@
    }

    /// The secret bytes the HMAC key was derived from.
    pub closed spec fn secret(&self) -> Seq<u8> {
        self.key_bytes@
    }

    /// Relies on `ring::hmac::Key::new`: derives the keyed HMAC context for
    /// the chosen hash algorithm from the secret bytes.
    #[verifier::external_body]
    fn derive_key(algorithm: Algorithm, secret: &[u8]) -> (engine: Hotp)
        ensures
            engine.alg() == algorithm,
            engine.secret() == secret@,
    {
        let alg = match algorithm {
            Algorithm::SHA1 => hmac::HMAC_SHA1_FOR_LEGACY_USE_ONLY,
            Algorithm::SHA256 => hmac::HMAC_SHA256,
            Algorithm::SHA512 => hmac::HMAC_SHA512,
        };
        Hotp {
            key: hmac::Key::new(alg, secret),
            algorithm: Ghost(algorithm),
            key_bytes: Ghost(secret@),
        }
    }

    /// Relies on `ring::hmac::sign`: the tag is a function of the key's hash
    /// algorithm, the key bytes and the message alone, and is as long as the
    /// hash's output (20, 32 or 64 bytes). `derive_key` is the only
    /// constructor, so `self.key` always matches `self.alg()` and
    /// `self.secret()`.
    #[verifier::external_body]
    fn hmac_sign(&self, message: &[u8]) -> (tag: Vec<u8>)
        ensures
            tag@ == hmac_tag(self.alg(), self.secret(), message@),
            tag@.len() == tag_len(self.alg()),
    {
        hmac::sign(&self.key, message).as_ref().to_vec()
    }

    /// Builds the engine from the algorithm and the raw secret bytes. The
    /// secret must be non-empty: an empty key would materially weaken the
    /// primitive, so it is ruled out by contract.
    pub fn new(algorithm: Algorithm, secret: &[u8]) -> (engine: Self)
        requires
            secret@.len() > 0,
        ensures
            engine.alg() == algorithm,
            engine.secret() == secret@,
    {
        Self::derive_key(algorithm, secret)
    }

    /// Signs the counter's eight big-endian bytes with the stored key.
    pub fn sign(&self, counter: u64) -> (tag: Vec<u8>)
        ensures
            tag@ == hmac_tag(self.alg(), self.secret(), counter_bytes(counter)),
            tag@.len() == tag_len(self.alg()),
    {
        let message = counter_to_bytes(counter);
        self.hmac_sign(message.as_slice())
    }

    /// Dynamic truncation of the counter's tag to a 31-bit value.
    fn truncate(&self, counter: u64) -> (r: u32)
        ensures
            r == truncated(hmac_tag(self.alg(), self.secret(), counter_bytes(counter))),
            r < 0x8000_0000,
    {
        let tag = self.sign(counter);
        let last = tag[tag.len() - 1];
        let off = (last & 0x0f) as usize;
        proof {
            assert(last & 0x0f <= 0x0f) by (bit_vector);
        }
        let b0 = tag[off];
        let b1 = tag[off + 1];
        let b2 = tag[off + 2];
        let b3 = tag[off + 3];
        let word = ((b0 as u32) << 24) | ((b1 as u32) << 16) | ((b2 as u32) << 8) | (b3 as u32);
        let r = word & 0x7fff_ffff;
        proof {
            assert(word & 0x7fff_ffff < 0x8000_0000u32) by (bit_vector);
        }
        r
    }

    /// Derives the code for `counter`: the truncated tag value reduced to
    /// `digits` decimal digits.
    pub fn generate_num(&self, counter: u64, digits: u8) -> (r: u32)
        requires
            1 <= digits <= 9,
        ensures
            r as nat == hotp_code(self.alg(), self.secret(), counter, digits as nat),
            r < pow10(digits as nat),
    {
        let t = self.truncate(counter);
        let m = pow10_u32(digits);
        t % m
    }

    /// Renders the code for `counter` into `dest`: exactly `dest.len()` ASCII
    /// decimal digits, zero-padded. The buffer length chooses the digit count
    /// and must lie in `1..=9`.
    pub fn generate_to(&self, counter: u64, dest: &mut Vec<u8>)
        requires
            1 <= old(dest)@.len() <= 9,
        ensures
            final(dest)@.len() == old(dest)@.len(),
            final(dest)@ == decimal_digits(
                hotp_code(self.alg(), self.secret(), counter, old(dest)@.len()),
                old(dest)@.len(),
            ),
    {
        let digits: u8 = dest.len() as u8;
        let num = self.generate_num(counter, digits);
        proof {
            lemma_hotp_code_bound(self.alg(), self.secret(), counter, digits as nat);
            lemma_small_mod(num as nat, pow10(digits as nat));
        }
        render_decimal(num, dest);
    }

    /// Compares a parsed token value against the code derived at the token's
    /// character length, for any length.
    pub(crate) fn matches_code(&self, counter: u64, len: usize, expected: u32) -> (r: bool)
        requires
            len >= 1,
        ensures
            r == (expected as nat == hotp_code(self.alg(), self.secret(), counter, len as nat)),
    {
        if len <= 9 {
            self.generate_num(counter, len as u8) == expected
        } else {
            proof {
                lemma_pow10_mono(10, len as nat);
                assert(pow10(10) == 10000000000) by {
                    reveal_with_fuel(pow10, 11);
                }
                lemma_hotp_code_bound(self.alg(), self.secret(), counter, len as nat);
                let t = truncated(hmac_tag(self.alg(), self.secret(), counter_bytes(counter)));
                lemma_small_mod(t as nat, pow10(len as nat));
            }
            self.truncate(counter) == expected
        }
    }

    /// Token verification: true exactly when the token parses as a
    /// non-negative decimal integer equal to the code derived at the token's
    /// own character length. A malformed token is never an error: the result
    /// is simply `false`.
    pub fn verify(&self, token: &str, counter: u64) -> (r: bool)
        ensures
            r == hotp_accepts(self.alg(), self.secret(), counter, token@),
    {
        match parse_decimal(token) {
            None => {
                proof {
                    if token_parses(token@) {
                        lemma_hotp_code_bound(
                            self.alg(),
                            self.secret(),
                            counter,
                            token@.len() as nat,
                        );
                    }
                }
                false
            },
            Some(v) => {
                let n = token.unicode_len();
                self.matches_code(counter, n, v)
            },
        }
    }
}

/// A rendered code is exactly `digits` ASCII decimal digits, and any token
/// spelling those digits parses back to the derived number itself.
pub proof fn lemma_render_properties(algorithm: Algorithm, key: Seq<u8>, counter: u64, digits: nat)
    requires
        1 <= digits <= 9,
    ensures
        ({
            let s = decimal_digits(hotp_code(algorithm, key, counter, digits), digits);
            &&& s.len() == digits
            &&& (forall|i: int| 0 <= i < digits ==> 48 <= #[trigger] s[i] <= 57)
            &&& (forall|t: Seq<char>|
                chars_match_bytes(t, s) ==> token_parses(t) && token_value(t) == hotp_code(
                    algorithm,
                    key,
                    counter,
                    digits,
                ))
        }),
{
    let v = hotp_code(algorithm, key, counter, digits);
    let s = decimal_digits(v, digits);
    lemma_decimal_digits_props(v, digits);
    lemma_hotp_code_bound(algorithm, key, counter, digits);
    assert forall|t: Seq<char>| chars_match_bytes(t, s) implies token_parses(t) && token_value(t)
        == v by {
        lemma_rendered_token_value(v, digits, t);
        lemma_pow10_pos(digits);
        lemma_small_mod(v, pow10(digits));
    }
}

/// Round trip: a token that spells the rendered code for a counter is
/// accepted for that counter.
pub proof fn lemma_rendered_token_accepted(
    algorithm: Algorithm,
    key: Seq<u8>,
    counter: u64,
    digits: nat,
    t: Seq<char>,
)
    requires
        1 <= digits <= 9,
        chars_match_bytes(t, decimal_digits(hotp_code(algorithm, key, counter, digits), digits)),
    ensures
        hotp_accepts(algorithm, key, counter, t),
{
    lemma_render_properties(algorithm, key, counter, digits);
    lemma_decimal_digits_props(hotp_code(algorithm, key, counter, digits), digits);
}

} // verus!
