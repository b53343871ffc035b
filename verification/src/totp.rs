//! The TOTP engine (RFC 6238): wall-clock time mapped to a counter by a step
//! size, and verification over a symmetric skew window that tolerates clock
//! drift between verifier and token generator.

use crate::digits::{
    chars_match_bytes, decimal_digits, parse_decimal, pow10, token_parses, token_value,
};
use crate::hotp::{
    counter_bytes, hmac_tag, hotp_accepts, hotp_code, lemma_hotp_code_bound,
    lemma_rendered_token_accepted, tag_len, Hotp,
};
use crate::Algorithm;
use vstd::prelude::*;
use vstd::string::StrSliceExecFns;

verus! {

/// The counter a time falls in: the number of whole steps since the epoch.
pub open spec fn step_counter(time: u64, window: u64) -> u64
    recommends
        window > 0,
{
    time / window
}

/// Whether counter `c` lies within `skew` steps of the counter for `time`.
pub open spec fn in_window(time: u64, window: u64, skew: u8, c: u64) -> bool {
    step_counter(time, window) - skew <= c <= step_counter(time, window) + skew
}

/// TOTP acceptance: some counter within the skew window accepts the token.
pub open spec fn totp_accepts(
    algorithm: Algorithm,
    key: Seq<u8>,
    window: u64,
    skew: u8,
    time: u64,
    token: Seq<char>,
) -> bool {
    exists|c: u64|
        in_window(time, window, skew, c) && #[trigger] hotp_accepts(algorithm, key, c, token)
}

/// The rendered code for a time: the counter's code at `digits` width.
pub open spec fn totp_code_bytes(
    algorithm: Algorithm,
    key: Seq<u8>,
    window: u64,
    time: u64,
    digits: nat,
) -> Seq<u8> {
    decimal_digits(hotp_code(algorithm, key, step_counter(time, window), digits), digits)
}

/// Time-based one-time passwords: an HOTP engine driven by wall-clock time.
pub struct TOTP {
    /// The HOTP engine that the time-derived counters are handed to.
    pub inner: Hotp,
    /// Steps tolerated on each side of the current one during verification.
    pub skew: u8,
    /// Seconds per counter step. Must stay positive.
    pub window: u64,
}

/// Relies on `std::time::SystemTime`: seconds since the Unix epoch now, or
/// zero if the clock reads before the epoch. Nothing is promised of the
/// value.
#[verifier::external_body]
fn current_time_s() -> u64 {
    match std::time::SystemTime::now().duration_since(std::time::UNIX_EPOCH) {
        Ok(d) => d.as_secs(),
        Err(_) => 0,
    }
}

impl TOTP {
    /// The hash algorithm of the inner engine.
    pub open spec fn alg(&self) -> Algorithm {
        self.inner.alg()
    }

    /// The secret bytes of the inner engine.
    pub open spec fn secret(&self) -> Seq<u8> {
        self.inner.secret()
    }

    /// Builds the engine with the recommended policy: 30-second steps and one
    /// step of skew. The secret must be non-empty.
    pub fn new(algorithm: Algorithm, secret: &[u8]) -> (engine: Self)
        requires
            secret@.len() > 0,
        ensures
            engine.alg() == algorithm,
            engine.secret() == secret@,
            engine.window == 30,
            engine.skew == 1,
    {
        TOTP { inner: Hotp::new(algorithm, secret), skew: 1, window: 30 }
    }

    /// Signs the counter for `time` with the stored key.
    pub fn sign(&self, time: u64) -> (tag: Vec<u8>)
        requires
            self.window > 0,
        ensures
            tag@ == hmac_tag(
                self.alg(),
                self.secret(),
                counter_bytes(step_counter(time, self.window)),
            ),
            tag@.len() == tag_len(self.alg()),
    {
        self.inner.sign(time / self.window)
    }

    /// Derives the code for `time` at `digits` width, as a number. Padding to
    /// a fixed width is the caller's concern here.
    pub fn generate_num(&self, time: u64, digits: u8) -> (r: u32)
        requires
            self.window > 0,
            1 <= digits <= 9,
        ensures
            r as nat == hotp_code(
                self.alg(),
                self.secret(),
                step_counter(time, self.window),
                digits as nat,
            ),
            r < pow10(digits as nat),
    {
        self.inner.generate_num(time / self.window, digits)
    }

    /// Renders the code for `time` into `dest`: exactly `dest.len()` ASCII
    /// decimal digits, zero-padded. The buffer length chooses the digit count
    /// and must lie in `1..=9`.
    pub fn generate_to(&self, time: u64, dest: &mut Vec<u8>)
        requires
            self.window > 0,
            1 <= old(dest)@.len() <= 9,
        ensures
            final(dest)@.len() == old(dest)@.len(),
            final(dest)@ == totp_code_bytes(
                self.alg(),
                self.secret(),
                self.window,
                time,
                old(dest)@.len(),
            ),
    {
        self.inner.generate_to(time / self.window, dest);
    }

    /// Renders the code for the current wall-clock time into `dest`.
    pub fn generate_to_now(&self, dest: &mut Vec<u8>)
        requires
            self.window > 0,
            1 <= old(dest)@.len() <= 9,
        ensures
            final(dest)@.len() == old(dest)@.len(),
            exists|t: u64|
                final(dest)@ == #[trigger] totp_code_bytes(
                    self.alg(),
                    self.secret(),
                    self.window,
                    t,
                    old(dest)@.len(),
                ),
    {
        let now = current_time_s();
        self.generate_to(now, dest);
    }

    /// Skew-window verification: true exactly when some counter within
    /// `skew` steps of the one for `time` accepts the token. Counters past
    /// the ends of the counter range are skipped, never wrapped. A malformed
    /// token is never an error: the result is simply `false`.
    pub fn verify(&self, token: &str, time: u64) -> (r: bool)
        requires
            self.window > 0,
        ensures
            r == totp_accepts(self.alg(), self.secret(), self.window, self.skew, time, token@),
    {
        let expected = match parse_decimal(token) {
            None => {
                proof {
                    assert forall|c: u64|
                        in_window(time, self.window, self.skew, c) implies !hotp_accepts(
                        self.alg(),
                        self.secret(),
                        c,
                        token@,
                    ) by {
                        if token_parses(token@) {
                            lemma_hotp_code_bound(self.alg(), self.secret(), c, token@.len() as nat);
                        }
                    }
                }
                return false;
            },
            Some(v) => v,
        };
        let n = token.unicode_len();
        let c0 = time / self.window;
        if self.inner.matches_code(c0, n, expected) {
            proof {
                assert(in_window(time, self.window, self.skew, c0));
                assert(hotp_accepts(self.alg(), self.secret(), c0, token@));
            }
            return true;
        }
        let skew = self.skew as u64;
        let mut k: u64 = 1;
        while k <= skew
            invariant
                1 <= k <= skew + 1,
                skew == self.skew as u64,
                self.window > 0,
                c0 == step_counter(time, self.window),
                token_parses(token@),
                token_value(token@) == expected as nat,
                n == token@.len(),
                n >= 1,
                forall|c: u64|
                    c0 - (k - 1) <= c <= c0 + (k - 1) ==> !(#[trigger] hotp_accepts(
                        self.alg(),
                        self.secret(),
                        c,
                        token@,
                    )),
            decreases skew + 1 - k,
        {
            let high_fits = k <= u64::MAX - c0;
            let high_hit = high_fits && self.inner.matches_code(c0 + k, n, expected);
            if high_hit {
                proof {
                    assert(in_window(time, self.window, self.skew, (c0 + k) as u64));
                    assert(hotp_accepts(self.alg(), self.secret(), (c0 + k) as u64, token@));
                }
                return true;
            }
            let low_fits = c0 >= k;
            let low_hit = low_fits && self.inner.matches_code(c0 - k, n, expected);
            if low_hit {
                proof {
                    assert(in_window(time, self.window, self.skew, (c0 - k) as u64));
                    assert(hotp_accepts(self.alg(), self.secret(), (c0 - k) as u64, token@));
                }
                return true;
            }
            proof {
                assert forall|c: u64| c0 - k <= c <= c0 + k implies !hotp_accepts(
                    self.alg(),
                    self.secret(),
                    c,
                    token@,
                ) by {
                    if c0 - (k - 1) <= c <= c0 + (k - 1) {
                    } else if c == c0 + k {
                        assert(high_fits && !high_hit);
                    } else {
                        assert(c == c0 - k && low_fits && !low_hit);
                    }
                }
            }
            k = k + 1;
        }
        proof {
            assert forall|c: u64|
                in_window(time, self.window, self.skew, c) implies !hotp_accepts(
                self.alg(),
                self.secret(),
                c,
                token@,
            ) by {}
        }
        false
    }

    /// Verifies the token against the current wall-clock time.
    pub fn verify_now(&self, token: &str) -> (r: bool)
        requires
            self.window > 0,
        ensures
            exists|t: u64|
                r == #[trigger] totp_accepts(
                    self.alg(),
                    self.secret(),
                    self.window,
                    self.skew,
                    t,
                    token@,
                ),
    {
        let now = current_time_s();
        self.verify(token, now)
    }
}

/// Skew tolerance: a token that spells the code generated at any time whose
/// counter lies within `skew` steps of the verification time's counter is
/// accepted at the verification time.
pub proof fn lemma_skew_window_accepts(
    algorithm: Algorithm,
    key: Seq<u8>,
    window: u64,
    skew: u8,
    t_gen: u64,
    t_ver: u64,
    digits: nat,
    token: Seq<char>,
)
    requires
        window > 0,
        1 <= digits <= 9,
        step_counter(t_ver, window) - skew <= step_counter(t_gen, window) <= step_counter(
            t_ver,
            window,
        ) + skew,
        chars_match_bytes(token, totp_code_bytes(algorithm, key, window, t_gen, digits)),
    ensures
        totp_accepts(algorithm, key, window, skew, t_ver, token),
{
    let c = step_counter(t_gen, window);
    lemma_rendered_token_accepted(algorithm, key, c, digits, token);
    assert(in_window(t_ver, window, skew, c));
}

/// Two times that fall in the same step render identical codes.
pub proof fn lemma_same_step_same_code(
    algorithm: Algorithm,
    key: Seq<u8>,
    window: u64,
    t1: u64,
    t2: u64,
    digits: nat,
)
    requires
        window > 0,
        step_counter(t1, window) == step_counter(t2, window),
    ensures
        totp_code_bytes(algorithm, key, window, t1, digits) == totp_code_bytes(
            algorithm,
            key,
            window,
            t2,
            digits,
        ),
{
}

/// Generation and verification are functions of their inputs alone: any two
/// outputs that meet the rendering contract for identical inputs are equal,
/// and so are any two verdicts that meet the verification contract.
pub proof fn lemma_repeated_calls_agree(
    algorithm: Algorithm,
    key: Seq<u8>,
    window: u64,
    skew: u8,
    time: u64,
    digits: nat,
    out1: Seq<u8>,
    out2: Seq<u8>,
    token: Seq<char>,
    r1: bool,
    r2: bool,
)
    requires
        out1 == totp_code_bytes(algorithm, key, window, time, digits),
        out2 == totp_code_bytes(algorithm, key, window, time, digits),
        r1 == totp_accepts(algorithm, key, window, skew, time, token),
        r2 == totp_accepts(algorithm, key, window, skew, time, token),
    ensures
        out1 == out2,
        r1 == r2,
{
}

} // verus!
