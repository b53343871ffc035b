//! Fixed-width decimal rendering of derived codes, and parsing of
//! caller-supplied tokens, with the lemmas that tie the two together.

use vstd::arithmetic::div_mod::lemma_breakdown;
use vstd::prelude::*;

verus! {

/// `10^e`, the modulus that keeps a derived code to `e` decimal digits.
pub open spec fn pow10(e: nat) -> nat
    decreases e,
{
    if e == 0 {
        1
    } else {
        10 * pow10((e - 1) as nat)
    }
}

pub proof fn lemma_pow10_pos(e: nat)
    ensures
        pow10(e) >= 1,
    decreases e,
{
    if e > 0 {
        lemma_pow10_pos((e - 1) as nat);
    }
}

pub proof fn lemma_pow10_mono(a: nat, b: nat)
    requires
        a <= b,
    ensures
        pow10(a) <= pow10(b),
    decreases b,
{
    if a < b {
        lemma_pow10_mono(a, (b - 1) as nat);
    }
}

/// The ten powers of ten that fit a 32-bit code width.
pub fn pow10_u32(e: u8) -> (r: u32)
    requires
        e <= 9,
    ensures
        r as nat == pow10(e as nat),
        r >= 1,
{
    proof {
        reveal_with_fuel(pow10, 11);
    }
    match e {
        0 => 1,
        1 => 10,
        2 => 100,
        3 => 1000,
        4 => 10000,
        5 => 100000,
        6 => 1000000,
        7 => 10000000,
        8 => 100000000,
        _ => 1000000000,
    }
}

/// The `width` low decimal digits of `v` as ASCII bytes, most significant
/// first, zero-padded.
pub open spec fn decimal_digits(v: nat, width: nat) -> Seq<u8>
    decreases width,
{
    if width == 0 {
        Seq::empty()
    } else {
        decimal_digits(v / 10, (width - 1) as nat).push((48 + v % 10) as u8)
    }
}

pub proof fn lemma_decimal_digits_props(v: nat, width: nat)
    ensures
        decimal_digits(v, width).len() == width,
        forall|i: int| 0 <= i < width ==> 48 <= #[trigger] decimal_digits(v, width)[i] <= 57,
    decreases width,
{
    if width > 0 {
        lemma_decimal_digits_props(v / 10, (width - 1) as nat);
    }
}

/// An ASCII decimal digit.
pub open spec fn is_digit_char(c: char) -> bool {
    48 <= c as u32 <= 57
}

/// Numeric value of a single digit character.
pub open spec fn digit_val(c: char) -> nat
    recommends
        is_digit_char(c),
{
    (c as u32 - 48) as nat
}

pub open spec fn all_digit_chars(s: Seq<char>) -> bool {
    forall|i: int| 0 <= i < s.len() ==> is_digit_char(#[trigger] s[i])
}

/// Whether `s` parses as a non-negative base-10 integer: non-empty and made of
/// decimal digits only.
pub open spec fn token_parses(s: Seq<char>) -> bool {
    s.len() > 0 && all_digit_chars(s)
}

/// Numeric value of a digit string, most significant digit first.
pub open spec fn token_value(s: Seq<char>) -> nat
    decreases s.len(),
{
    if s.len() == 0 {
        0
    } else {
        token_value(s.drop_last()) * 10 + digit_val(s.last())
    }
}

/// `t` spells the ASCII bytes `s`, character for character.
pub open spec fn chars_match_bytes(t: Seq<char>, s: Seq<u8>) -> bool {
    t.len() == s.len() && forall|i: int|
        0 <= i < t.len() ==> (#[trigger] t[i]) as u32 == s[i] as u32
}

/// Appending characters never decreases a token's numeric value.
pub proof fn lemma_token_value_prefix(s: Seq<char>, i: int)
    requires
        0 <= i <= s.len(),
    ensures
        token_value(s.take(i)) <= token_value(s),
    decreases s.len() - i,
{
    if i == s.len() {
        assert(s.take(i) =~= s);
    } else {
        assert(s.take(i + 1).drop_last() =~= s.take(i));
        lemma_token_value_prefix(s, i + 1);
    }
}

/// A token that spells the `width` low decimal digits of `v` parses back to
/// `v % 10^width`.
pub proof fn lemma_rendered_token_value(v: nat, width: nat, t: Seq<char>)
    requires
        chars_match_bytes(t, decimal_digits(v, width)),
    ensures
        token_parses(t) == (width > 0),
        token_value(t) == v % pow10(width),
    decreases width,
{
    lemma_decimal_digits_props(v, width);
    lemma_pow10_pos(width);
    if width == 0 {
        assert(v % 1 == 0) by (nonlinear_arith);
    } else {
        let s = decimal_digits(v, width);
        let s_head = decimal_digits(v / 10, (width - 1) as nat);
        lemma_decimal_digits_props(v / 10, (width - 1) as nat);
        assert(t.drop_last().len() == s_head.len());
        assert forall|i: int| 0 <= i < t.drop_last().len() implies (#[trigger] t.drop_last()[i])
            as u32 == s_head[i] as u32 by {
            assert(t[i] as u32 == s[i] as u32);
            assert(s[i] == s_head[i]);
        }
        lemma_rendered_token_value(v / 10, (width - 1) as nat, t.drop_last());
        assert(t.last() as u32 == s.last() as u32);
        assert(s.last() == (48 + v % 10) as u8);
        assert(digit_val(t.last()) == v % 10);
        assert(token_value(t) == ((v / 10) % pow10((width - 1) as nat)) * 10 + v % 10);
        let p = pow10((width - 1) as nat);
        lemma_pow10_pos((width - 1) as nat);
        lemma_breakdown(v as int, 10, p as int);
        assert(pow10(width) == 10 * p);
        assert(v % (10 * p) == 10 * ((v / 10) % p) + v % 10);
    }
}

/// Writes the `dest.len()` low decimal digits of `value` into `dest`, most
/// significant first, zero-padded.
pub fn render_decimal(value: u32, dest: &mut Vec<u8>)
    ensures
        final(dest)@.len() == old(dest)@.len(),
        final(dest)@ == decimal_digits(value as nat, old(dest)@.len()),
{
    let w = dest.len();
    let mut v: u32 = value;
    let mut i: usize = 0;
    proof {
        assert(dest@.subrange(w as int, w as int) =~= Seq::<u8>::empty());
        assert(decimal_digits(v as nat, (w - i) as nat) + dest@.subrange((w - i) as int, w as int)
            =~= decimal_digits(value as nat, w as nat));
    }
    while i < w
        invariant
            i <= w,
            w == dest@.len(),
            decimal_digits(v as nat, (w - i) as nat) + dest@.subrange((w - i) as int, w as int)
                == decimal_digits(value as nat, w as nat),
        decreases w - i,
    {
        let d: u8 = (v % 10) as u8;
        let ghost before = dest@;
        let ghost rest = (w - i) as nat;
        dest.set(w - 1 - i, 48 + d);
        proof {
            assert(decimal_digits(v as nat, rest) == decimal_digits(
                (v as nat) / 10,
                (rest - 1) as nat,
            ).push((48 + (v as nat) % 10) as u8));
            assert(dest@.subrange((w - i - 1) as int, w as int) =~= seq![(48 + d) as u8]
                + before.subrange((w - i) as int, w as int));
            assert(decimal_digits((v as nat) / 10, (rest - 1) as nat).push(
                (48 + (v as nat) % 10) as u8,
            ) + before.subrange((w - i) as int, w as int) =~= decimal_digits(
                (v as nat) / 10,
                (rest - 1) as nat,
            ) + dest@.subrange((w - i - 1) as int, w as int));
        }
        v = v / 10;
        i = i + 1;
    }
    proof {
        assert(dest@.subrange(0, w as int) =~= dest@);
        assert(decimal_digits(v as nat, 0) + dest@ =~= dest@);
    }
}

/// Parses a string of ASCII decimal digits into its numeric value, rejecting
/// the empty string, any non-digit character, and values above `u32::MAX`.
pub fn parse_decimal(token: &str) -> (r: Option<u32>)
    ensures
        (match r {
            Some(v) => token_parses(token@) && token_value(token@) == v as nat,
            None => !token_parses(token@) || token_value(token@) > u32::MAX,
        }),
{
    let n = token.unicode_len();
    if n == 0 {
        return None;
    }
    let mut acc: u64 = 0;
    let mut i: usize = 0;
    while i < n
        invariant
            0 < n == token@.len(),
            i <= n,
            acc == token_value(token@.take(i as int)),
            acc <= u32::MAX,
            forall|j: int| 0 <= j < i ==> is_digit_char(#[trigger] token@[j]),
        decreases n - i,
    {
        let c = token.get_char(i);
        let u = c as u32;
        if u < 48 || u > 57 {
            return None;
        }
        let d = (u - 48) as u64;
        let next: u64 = acc * 10 + d;
        proof {
            assert(token@.take(i as int + 1).drop_last() =~= token@.take(i as int));
            assert(token@.take(i as int + 1).last() == token@[i as int]);
        }
        if next > 0xffff_ffff {
            proof {
                lemma_token_value_prefix(token@, i as int + 1);
            }
            return None;
        }
        acc = next;
        i = i + 1;
    }
    proof {
        assert(token@.take(n as int) =~= token@);
    }
    Some(acc as u32)
}

} // verus!

