//! Arithmetic cells: negation, the binary operations, shifts and
//! comparators, in signed and unsigned form, over native 32-bit words
//! for narrow signals and over 2048-bit integers for wide ones.

use vstd::prelude::*;

use crate::errors::CellError;
use crate::vector3vl::{
    clone_words, lemma_uval_words, view_normalized, word_count, words_val,
    words_val_prefix, Vec3vl,
};

verus! {

/// The 2048-bit unsigned integer that carries wide arithmetic.
#[verifier::external_type_specification]
#[verifier::external_body]
pub struct ExBUintD32<const N: usize>(bnum::BUintD32<N>);

pub type BigUInt = bnum::BUintD32<64>;

/// The 64 little-endian digits a 2048-bit integer holds.
pub uninterp spec fn big_digits(x: BigUInt) -> Seq<u32>;

/// The numeric value of a 2048-bit integer.
pub open spec fn big_val(x: BigUInt) -> nat {
    words_val(big_digits(x))
}

/// The modulus of 2048-bit arithmetic.
pub open spec fn big_mod() -> nat {
    vstd::arithmetic::power2::pow2(2048)
}

/// Relies on `BUintD32::from_digits`: the integer made of exactly
/// these little-endian digits.
#[verifier::external_body]
pub fn big_from_words(d: &Vec<u32>) -> (r: BigUInt)
    requires
        d@.len() == 64,
    ensures
        big_digits(r) == d@,
{
    let digits: [u32; 64] = match d.as_slice().try_into() {
        Ok(a) => a,
        Err(_) => [0u32; 64],
    };
    bnum::BUintD32::from_digits(digits)
}

/// Relies on `BUintD32::digits`: the 64 little-endian digits of the
/// integer.
#[verifier::external_body]
pub fn big_to_words(x: &BigUInt) -> (r: Vec<u32>)
    ensures
        r@ == big_digits(*x),
        r@.len() == 64,
{
    x.digits().to_vec()
}

/// Relies on `BUintD32::overflowing_add`: addition wrapping at the
/// 2048-bit boundary.
#[verifier::external_body]
pub fn big_add(a: &BigUInt, b: &BigUInt) -> (r: BigUInt)
    ensures
        big_digits(r).len() == 64,
        big_val(r) == (big_val(*a) + big_val(*b)) % big_mod(),
{
    a.overflowing_add(*b).0
}

/// Relies on `BUintD32::overflowing_sub`: subtraction wrapping at the
/// 2048-bit boundary.
#[verifier::external_body]
pub fn big_sub(a: &BigUInt, b: &BigUInt) -> (r: BigUInt)
    ensures
        big_digits(r).len() == 64,
        big_val(r) as int == (big_val(*a) - big_val(*b)) % (big_mod() as int),
{
    a.overflowing_sub(*b).0
}

/// Relies on `BUintD32::overflowing_mul`: multiplication wrapping at
/// the 2048-bit boundary.
#[verifier::external_body]
pub fn big_mul(a: &BigUInt, b: &BigUInt) -> (r: BigUInt)
    ensures
        big_digits(r).len() == 64,
        big_val(r) == (big_val(*a) * big_val(*b)) % big_mod(),
{
    a.overflowing_mul(*b).0
}

/// Relies on `BUintD32::overflowing_div`: unsigned truncating division
/// (never overflows; the divisor must not be zero).
#[verifier::external_body]
pub fn big_div(a: &BigUInt, b: &BigUInt) -> (r: BigUInt)
    requires
        big_val(*b) != 0,
    ensures
        big_digits(r).len() == 64,
        big_val(r) == big_val(*a) / big_val(*b),
{
    a.overflowing_div(*b).0
}

/// Relies on `BUintD32::overflowing_rem`: unsigned remainder (the
/// divisor must not be zero).
#[verifier::external_body]
pub fn big_rem(a: &BigUInt, b: &BigUInt) -> (r: BigUInt)
    requires
        big_val(*b) != 0,
    ensures
        big_digits(r).len() == 64,
        big_val(r) == big_val(*a) % big_val(*b),
{
    a.overflowing_rem(*b).0
}

/// Relies on `BUintD32::overflowing_pow`: exponentiation wrapping at
/// the 2048-bit boundary.
#[verifier::external_body]
pub fn big_pow(a: &BigUInt, e: u32) -> (r: BigUInt)
    ensures
        big_digits(r).len() == 64,
        big_val(r) as int == vstd::arithmetic::power::pow(big_val(*a) as int, e as nat) % (
        big_mod() as int),
{
    a.overflowing_pow(e).0
}

/// Relies on `BUintD32::unbounded_shl`: left shift; bits pushed past
/// the 2048-bit boundary are discarded, a shift of 2048 or more gives
/// zero.
#[verifier::external_body]
pub fn big_shl(a: &BigUInt, s: u32) -> (r: BigUInt)
    ensures
        big_digits(r).len() == 64,
        big_val(r) == (big_val(*a) * vstd::arithmetic::power2::pow2(s as nat)) % big_mod(),
{
    a.unbounded_shl(s)
}

/// Relies on `BUintD32::unbounded_shr`: logical right shift; a shift of
/// 2048 or more gives zero.
#[verifier::external_body]
pub fn big_shr(a: &BigUInt, s: u32) -> (r: BigUInt)
    ensures
        big_digits(r).len() == 64,
        big_val(r) == big_val(*a) / vstd::arithmetic::power2::pow2(s as nat),
{
    a.unbounded_shr(s)
}

/// Relies on `BUintD32`'s `Ord` implementation: numeric comparison.
#[verifier::external_body]
pub fn big_lt(a: &BigUInt, b: &BigUInt) -> (r: bool)
    ensures
        r == (big_val(*a) < big_val(*b)),
{
    a.lt(b)
}

/// Relies on `BUintD32`'s `PartialEq` implementation: numeric equality
/// (the digit arrays determine the value).
#[verifier::external_body]
pub fn big_eq(a: &BigUInt, b: &BigUInt) -> (r: bool)
    ensures
        r == (big_val(*a) == big_val(*b)),
{
    a.eq(b)
}

impl Vec3vl {
    /// Pack a fully defined vector of at most 64 words into a 2048-bit
    /// integer carrying the same unsigned value.
    pub fn to_biguint(&self) -> (r: Result<BigUInt, CellError>)
        requires
            self.well_formed(),
        ensures
            r is Ok <==> (self.all_defined() && word_count(self.bits as nat) <= 64),
            r is Ok ==> big_val(r->Ok_0) == self.uval() && big_digits(r->Ok_0).len() == 64,
            r is Err ==> r->Err_0 == CellError::UnsupportedEncoding,
    {
        if !self.is_fully_defined() {
            return Err(CellError::UnsupportedEncoding);
        }
        if self.avec.len() > 64 {
            return Err(CellError::UnsupportedEncoding);
        }
        let mut c = self.clone();
        c.normalize();
        let mut words = clone_words(&c.avec);
        while words.len() < 64
            invariant
                words@.len() >= c.avec@.len(),
                words@.len() <= 64,
                forall|k: int| 0 <= k < c.avec@.len() ==> #[trigger] words@[k] == c.avec@[k],
                forall|k: int| c.avec@.len() <= k < words@.len() ==> #[trigger] words@[k] == 0u32,
            decreases 64 - words.len(),
        {
            words.push(0u32);
        }
        let r = big_from_words(&words);
        proof {
            lemma_uval_words(c@);
            lemma_words_zero_pad(words@, c.avec@.len() as int);
            assert(words@.subrange(0, c.avec@.len() as int) =~= c.avec@);
            assert(forall|i: nat| i < self.bits ==> #[trigger] self.abit(i) == c.abit(i));
            crate::vector3vl::lemma_uval_congruence(*self, c, self.bits as nat);
        }
        Ok(r)
    }

    /// Unpack a 2048-bit integer into a fully defined, normalized
    /// vector of the given width, keeping its value modulo `2^bits`.
    pub fn from_biguint(number: &BigUInt, bits: u32) -> (r: Vec3vl)
        requires
            big_digits(*number).len() == 64,
        ensures
            r.bits == bits,
            r.well_formed(),
            r.is_normalized(),
            r.canonical(),
            r.all_defined(),
            r.uval() == big_val(*number) % vstd::arithmetic::power2::pow2(bits as nat),
    {
        let digits = big_to_words(number);
        let words = Self::word_len(bits);
        let mut avec: Vec<u32> = Vec::new();
        let mut k: usize = 0;
        while k < words
            invariant
                k <= words,
                digits@.len() == 64,
                avec@.len() == k,
                forall|j: int|
                    0 <= j < k ==> #[trigger] avec@[j] == (if j < 64 {
                        digits@[j]
                    } else {
                        0u32
                    }),
            decreases words - k,
        {
            if k < 64 {
                avec.push(digits[k]);
            } else {
                avec.push(0u32);
            }
            k = k + 1;
        }
        let bvec = clone_words(&avec);
        let mut v = Vec3vl { bits, avec, bvec };
        v.normalize();
        proof {
            assert forall|j: int| 0 <= j < v.avec@.len() implies #[trigger] v.avec@[j] & !v.bvec@[j]
                == 0 by {
                crate::vector3vl::lemma_self_canonical(v.avec@[j]);
            }
            assert forall|i: nat| i < bits implies #[trigger] v.tri_at(i) != 0i32 by {
                crate::vector3vl::lemma_bit_word_index(bits as nat, i);
            }
            lemma_uval_words(v@);
            lemma_truncated_words_val(v.avec@, digits@, bits);
        }
        v
    }
}

/// Zero-padding beyond a prefix leaves the word value unchanged.
pub proof fn lemma_words_zero_pad(s: Seq<u32>, n: int)
    requires
        0 <= n <= s.len(),
        forall|k: int| n <= k < s.len() ==> #[trigger] s[k] == 0u32,
    ensures
        words_val(s) == words_val(s.subrange(0, n)),
    decreases s.len(),
{
    if s.len() > n {
        lemma_words_prefix_zero(s, s.len() as int, n);
        assert(words_val_prefix(s, n as nat) == words_val(s.subrange(0, n))) by {
            lemma_words_prefix_subrange(s, n);
        }
    } else {
        assert(s.subrange(0, n) =~= s);
    }
}

/// Prefix values ignore zero words above `n`.
pub proof fn lemma_words_prefix_zero(s: Seq<u32>, m: int, n: int)
    requires
        0 <= n <= m <= s.len(),
        forall|k: int| n <= k < s.len() ==> #[trigger] s[k] == 0u32,
    ensures
        words_val_prefix(s, m as nat) == words_val_prefix(s, n as nat),
    decreases m,
{
    if m > n {
        lemma_words_prefix_zero(s, m - 1, n);
        assert(vstd::arithmetic::power2::pow2((32 * (m - 1)) as nat) * s[m - 1] == 0)
            by (nonlinear_arith)
            requires
                s[m - 1] == 0u32,
        ;
    }
}

/// A prefix value only reads the words below the bound.
pub proof fn lemma_words_prefix_subrange(s: Seq<u32>, n: int)
    requires
        0 <= n <= s.len(),
    ensures
        words_val_prefix(s, n as nat) == words_val(s.subrange(0, n)),
    decreases n,
{
    if n > 0 {
        lemma_words_prefix_subrange(s, n - 1);
        assert(s.subrange(0, n).drop_last() =~= s.subrange(0, n - 1));
        lemma_words_prefix_congruence(s.subrange(0, n), s, (n - 1) as nat);
    }
}

/// Sequences that agree below `k` have equal `k`-prefix values.
pub proof fn lemma_words_prefix_congruence(a: Seq<u32>, b: Seq<u32>, k: nat)
    requires
        k <= a.len(),
        k <= b.len(),
        forall|j: int| 0 <= j < k ==> a[j] == b[j],
    ensures
        words_val_prefix(a, k) == words_val_prefix(b, k),
    decreases k,
{
    if k > 0 {
        lemma_words_prefix_congruence(a, b, (k - 1) as nat);
    }
}

/// The value of a word array truncated to a width's storage and
/// normalized is the source value modulo `2^bits`.
pub proof fn lemma_truncated_words_val(out: Seq<u32>, digits: Seq<u32>, bits: u32)
    requires
        digits.len() == 64,
        out.len() == word_count(bits as nat),
        forall|j: int|
            0 <= j < out.len() - 1 ==> #[trigger] out[j] == (if j < 64 {
                digits[j]
            } else {
                0u32
            }),
        out.len() > 0 ==> out.last() == (if out.len() - 1 < 64 {
            digits[out.len() - 1]
        } else {
            0u32
        }) & crate::vector3vl::lastmask_of(bits),
    ensures
        words_val(out) == words_val(digits) % vstd::arithmetic::power2::pow2(bits as nat),
{
    let p = vstd::arithmetic::power2::pow2(bits as nat);
    vstd::arithmetic::power2::lemma_pow2_pos(bits as nat);
    if out.len() == 0 {
        assert(bits == 0);
        vstd::arithmetic::power2::lemma2_to64();
        assert(words_val(out) == 0);
        assert(words_val(digits) % 1 == 0) by (nonlinear_arith);
    } else if out.len() <= 64 {
        lemma_words_prefix_mod(digits, bits, 64);
        lemma_prefix_split_last(out, digits, bits);
    } else {
        // more storage words than digits: the width exceeds 2048 bits,
        // so the whole value fits unchanged
        let wc = out.len() as int;
        crate::vector3vl::lemma_word_count_lower(bits as nat);
        assert(out.last() == 0u32) by {
            assert(0u32 & crate::vector3vl::lastmask_of(bits) == 0u32) by (bit_vector);
        }
        assert(words_val(out) == words_val(out.subrange(0, 64))) by {
            lemma_words_zero_pad(out, 64);
        }
        assert(words_val(out.subrange(0, 64)) == words_val(digits)) by {
            lemma_words_prefix_subrange(out, 64);
            lemma_words_prefix_congruence(out, digits, 64);
            assert(words_val(out.subrange(0, 64)) == words_val_prefix(out, 64));
        }
        lemma_words_prefix_bound(digits, 64);
        assert(bits > 2048) by (nonlinear_arith)
            requires
                wc == ((bits + 31) / 32) as int,
                wc >= 65,
        ;
        vstd::arithmetic::power2::lemma_pow2_strictly_increases(2048, bits as nat);
        vstd::arithmetic::div_mod::lemma_small_mod(words_val(digits), p);
    }
}

/// Splitting the last stored word at the width mask turns the prefix
/// value into the source value modulo `2^bits`.
pub proof fn lemma_prefix_split_last(out: Seq<u32>, digits: Seq<u32>, bits: u32)
    requires
        digits.len() == 64,
        out.len() == word_count(bits as nat),
        0 < out.len() <= 64,
        forall|j: int|
            0 <= j < out.len() - 1 ==> #[trigger] out[j] == (if j < 64 {
                digits[j]
            } else {
                0u32
            }),
        out.last() == digits[out.len() - 1] & crate::vector3vl::lastmask_of(bits),
    ensures
        words_val(out) == words_val_prefix(digits, word_count(bits as nat))
            % vstd::arithmetic::power2::pow2(bits as nat),
{
    let p = vstd::arithmetic::power2::pow2(bits as nat);
    vstd::arithmetic::power2::lemma_pow2_pos(bits as nat);
    let wc = out.len() as int;
    let src: u32 = digits[wc - 1];
    let last = out.last();
    crate::vector3vl::lemma_word_count_lower(bits as nat);
    let full = (wc - 1) as nat;
    let r: u32 = if bits % 32 == 0 {
        32u32
    } else {
        bits % 32
    };
    assert(bits == 32 * (wc - 1) + r) by (nonlinear_arith)
        requires
            wc == ((bits + 31) / 32) as int,
            wc >= 1,
            32 * (wc - 1) < bits,
            bits <= 32 * wc,
            r == (if bits % 32 == 0 {
                32u32
            } else {
                bits % 32
            }),
    ;
    assert(bits == 32 * full + r);
    let pr = vstd::arithmetic::power2::pow2(r as nat);
    // last == src mod 2^r
    assert((src as int) % (pr as int) == last as int) by {
        if bits % 32 == 0 {
            vstd::arithmetic::power2::lemma2_to64();
            assert(src & 0xffff_ffffu32 == src) by (bit_vector);
            vstd::arithmetic::div_mod::lemma_small_mod(src as nat, 0x1_0000_0000);
        } else {
            let sh: u32 = (32 - r) as u32;
            assert(0xffff_ffffu32 >> sh == (1u32 << r) - 1) by (bit_vector)
                requires
                    sh + r == 32,
                    0 < r < 32,
            ;
            vstd::bits::lemma_u32_pow2_no_overflow(r as nat);
            vstd::bits::lemma_u32_shl_is_mul(1u32, r);
            assert((1u32 << r) - 1 == vstd::bits::low_bits_mask(r as nat));
            vstd::bits::lemma_u32_low_bits_mask_is_mod(src, r as nat);
        }
    }
    let p32f = vstd::arithmetic::power2::pow2((32 * full) as nat);
    vstd::arithmetic::power2::lemma_pow2_adds((32 * full) as nat, r as nat);
    assert(p == p32f * pr);
    vstd::arithmetic::power2::lemma_pow2_pos(r as nat);
    vstd::arithmetic::power2::lemma_pow2_pos((32 * full) as nat);
    lemma_words_prefix_congruence(out, digits, full);
    assert(words_val(out) == words_val_prefix(digits, full) + p32f * (last as nat));
    assert(words_val_prefix(digits, (full + 1) as nat) == words_val_prefix(digits, full) + p32f * (
    src as nat));
    lemma_words_prefix_bound(digits, full);
    assert(words_val_prefix(digits, full) < p32f);
    let whole = words_val_prefix(digits, (full + 1) as nat) as int;
    assert(whole % (p32f as int) == words_val_prefix(digits, full) && whole / (p32f as int)
        == src as int) by {
        vstd::arithmetic::div_mod::lemma_fundamental_div_mod_converse(
            whole,
            p32f as int,
            src as int,
            words_val_prefix(digits, full) as int,
        );
    }
    vstd::arithmetic::div_mod::lemma_mod_breakdown(whole, p32f as int, pr as int);
    assert(whole % (p as int) == p32f * (last as int) + words_val_prefix(digits, full)) by (
    nonlinear_arith)
        requires
            whole % ((p32f * pr) as int) == p32f * ((whole / (p32f as int)) % (pr as int)) + whole
                % (p32f as int),
            p as int == p32f as int * pr as int,
            whole / (p32f as int) == src as int,
            (src as int) % (pr as int) == last as int,
            whole % (p32f as int) == words_val_prefix(digits, full) as int,
    ;
    assert(word_count(bits as nat) == full + 1);
}

/// Above the storage bound, every extra word contributes a multiple of
/// `2^bits` to the prefix value.
pub proof fn lemma_words_prefix_mod(s: Seq<u32>, bits: u32, m: int)
    requires
        word_count(bits as nat) <= m <= s.len(),
    ensures
        words_val_prefix(s, m as nat) % vstd::arithmetic::power2::pow2(bits as nat)
            == words_val_prefix(s, word_count(bits as nat)) % vstd::arithmetic::power2::pow2(
            bits as nat,
        ),
    decreases m,
{
    let p = vstd::arithmetic::power2::pow2(bits as nat);
    vstd::arithmetic::power2::lemma_pow2_pos(bits as nat);
    let wc = word_count(bits as nat) as int;
    if m > wc {
        lemma_words_prefix_mod(s, bits, m - 1);
        let term = vstd::arithmetic::power2::pow2((32 * (m - 1)) as nat) * s[m - 1];
        assert(32 * (m - 1) >= bits) by (nonlinear_arith)
            requires
                m - 1 >= wc,
                wc == ((bits + 31) / 32) as int,
                bits >= 0,
        ;
        assert((term as int) % (p as int) == 0) by {
            vstd::arithmetic::power2::lemma_pow2_adds(bits as nat, (32 * (m - 1) - bits) as nat);
            let q = vstd::arithmetic::power2::pow2((32 * (m - 1) - bits) as nat);
            assert(term == p * (q * s[m - 1])) by (nonlinear_arith)
                requires
                    vstd::arithmetic::power2::pow2((32 * (m - 1)) as nat) == p * q,
                    term == vstd::arithmetic::power2::pow2((32 * (m - 1)) as nat) * s[m - 1],
            ;
            vstd::arithmetic::div_mod::lemma_mod_multiples_basic((q * s[m - 1]) as int, p as int);
        }
        let a = words_val_prefix(s, (m - 1) as nat) as int;
        assert((a + term) % (p as int) == a % (p as int)) by {
            vstd::arithmetic::div_mod::lemma_add_mod_noop(a, term as int, p as int);
            vstd::arithmetic::div_mod::lemma_mod_twice(a, p as int);
            assert((term as int) % (p as int) == 0);
            vstd::arithmetic::div_mod::lemma_small_mod(0, p as nat);
            vstd::arithmetic::div_mod::lemma_mod_twice(a + term, p as int);
        }
    }
}

/// A `k`-word prefix value is below `2^(32 k)`.
pub proof fn lemma_words_prefix_bound(s: Seq<u32>, k: nat)
    requires
        k <= s.len(),
    ensures
        words_val_prefix(s, k) < vstd::arithmetic::power2::pow2((32 * k) as nat),
    decreases k,
{
    vstd::arithmetic::power2::lemma_pow2_pos((32 * k) as nat);
    if k > 0 {
        lemma_words_prefix_bound(s, (k - 1) as nat);
        let p1 = vstd::arithmetic::power2::pow2((32 * (k - 1)) as nat);
        let p = vstd::arithmetic::power2::pow2((32 * k) as nat);
        vstd::arithmetic::power2::lemma_pow2_adds((32 * (k - 1)) as nat, 32);
        vstd::arithmetic::power2::lemma2_to64();
        assert(p == p1 * 0x1_0000_0000);
        assert(words_val_prefix(s, (k - 1) as nat) + p1 * s[k - 1] < p) by (nonlinear_arith)
            requires
                words_val_prefix(s, (k - 1) as nat) < p1,
                s[k - 1] <= 0xffff_ffffu32,
                p == p1 * 0x1_0000_0000,
                p1 > 0,
        ;
    }
}


/// A 2048-bit integer holds a value below the modulus.
pub proof fn lemma_big_val_bound(x: BigUInt)
    requires
        big_digits(x).len() == 64,
    ensures
        big_val(x) < big_mod(),
{
    lemma_words_prefix_bound(big_digits(x), 64);
}

/// The zero 2048-bit integer.
pub fn big_zero() -> (r: BigUInt)
    ensures
        big_digits(r).len() == 64,
        big_val(r) == 0,
{
    let words = crate::vector3vl::filled_vec(0u32, 64);
    let r = big_from_words(&words);
    proof {
        lemma_words_zero_pad(big_digits(r), 0);
        assert(big_digits(r).subrange(0, 0) =~= Seq::<u32>::empty());
    }
    r
}

/// Truncating (toward-zero) division, as the division cells use it.
pub open spec fn trunc_div(a: int, b: int) -> int {
    if b == 0 {
        a
    } else {
        let q = (if a >= 0 {
            a
        } else {
            -a
        }) / (if b >= 0 {
            b
        } else {
            -b
        });
        if (a < 0) != (b < 0) {
            -q
        } else {
            q
        }
    }
}

/// Truncating remainder: what is left after [`trunc_div`].
pub open spec fn trunc_rem(a: int, b: int) -> int {
    if b == 0 {
        a
    } else {
        a - b * trunc_div(a, b)
    }
}

/// Modulo `2^32` of a value already in `[0, 2^32)` or `[2^32, 2^33)`.
pub proof fn lemma_wrap32(v: int)
    ensures
        0 <= v < 0x1_0000_0000 ==> v % 0x1_0000_0000 == v,
        0x1_0000_0000 <= v < 0x2_0000_0000 ==> v % 0x1_0000_0000 == v - 0x1_0000_0000,
        -0x1_0000_0000 <= v < 0 ==> v % 0x1_0000_0000 == v + 0x1_0000_0000,
{
    if 0 <= v < 0x1_0000_0000 {
        vstd::arithmetic::div_mod::lemma_small_mod(v as nat, 0x1_0000_0000);
    } else if 0x1_0000_0000 <= v < 0x2_0000_0000 {
        vstd::arithmetic::div_mod::lemma_fundamental_div_mod_converse(
            v,
            0x1_0000_0000,
            1,
            v - 0x1_0000_0000,
        );
    } else if -0x1_0000_0000 <= v < 0 {
        vstd::arithmetic::div_mod::lemma_fundamental_div_mod_converse(
            v,
            0x1_0000_0000,
            -1,
            v + 0x1_0000_0000,
        );
    }
}

/// An arithmetic unary operation.
pub trait ArithMonopStruct {
    /// The exact mathematical result.
    spec fn spec_op(i: int) -> int;

    /// The operation on a 32-bit word, wrapping.
    fn op_const(i: u32) -> (r: u32)
        ensures
            r as int == Self::spec_op(i as int) % 0x1_0000_0000,
    ;

    /// The operation on a 2048-bit integer, wrapping.
    fn op_big(i: &BigUInt) -> (r: BigUInt)
        requires
            big_digits(*i).len() == 64,
        ensures
            big_digits(r).len() == 64,
            big_val(r) as int == Self::spec_op(big_val(*i) as int) % (big_mod() as int),
    ;
}

/// Two's-complement negation.
pub struct Negation {}

impl ArithMonopStruct for Negation {
    open spec fn spec_op(i: int) -> int {
        -i
    }

    fn op_const(i: u32) -> (r: u32) {
        let r = 0u32.wrapping_sub(i);
        proof {
            lemma_wrap32(-(i as int));
        }
        r
    }

    fn op_big(i: &BigUInt) -> (r: BigUInt) {
        let z = big_zero();
        let r = big_sub(&z, i);
        r
    }
}

/// The identity operation.
pub struct UnaryPlus {}

impl ArithMonopStruct for UnaryPlus {
    open spec fn spec_op(i: int) -> int {
        i
    }

    fn op_const(i: u32) -> (r: u32) {
        proof {
            lemma_wrap32(i as int);
        }
        i
    }

    fn op_big(i: &BigUInt) -> (r: BigUInt) {
        let z = big_zero();
        let r = big_add(i, &z);
        proof {
            lemma_big_val_bound(*i);
            vstd::arithmetic::div_mod::lemma_small_mod(big_val(*i), big_mod());
        }
        r
    }
}

/// An arithmetic binary operation.
pub trait ArithBinopStruct {
    /// The exact mathematical result on unsigned operands.
    spec fn spec_uns(l: nat, r: nat) -> int;

    /// The exact mathematical result on signed operands.
    spec fn spec_sig(l: int, r: int) -> int;

    /// The mathematical result the wide path computes (it differs from
    /// [`ArithBinopStruct::spec_uns`] only where the wide operation
    /// reads less of an operand).
    spec fn spec_big(l: nat, r: nat) -> int;

    /// The operation on unsigned 32-bit words, wrapping.
    fn op_const_uns(l: u32, r: u32) -> (res: u32)
        ensures
            res as int == Self::spec_uns(l as nat, r as nat) % 0x1_0000_0000,
    ;

    /// The operation on signed 32-bit words, wrapping.
    fn op_const_sig(l: i32, r: i32) -> (res: i32)
        ensures
            (res as int) % 0x1_0000_0000 == Self::spec_sig(l as int, r as int) % 0x1_0000_0000,
    ;

    /// The operation on 2048-bit integers, wrapping.
    fn op_big(l: &BigUInt, r: &BigUInt) -> (res: BigUInt)
        requires
            big_digits(*l).len() == 64,
            big_digits(*r).len() == 64,
        ensures
            big_digits(res).len() == 64,
            big_val(res) as int == Self::spec_big(big_val(*l), big_val(*r)) % (big_mod() as int),
    ;
}

/// Addition.
pub struct Add {}

impl ArithBinopStruct for Add {
    open spec fn spec_uns(l: nat, r: nat) -> int {
        l + r as int
    }

    open spec fn spec_sig(l: int, r: int) -> int {
        l + r
    }

    open spec fn spec_big(l: nat, r: nat) -> int {
        l + r as int
    }

    fn op_const_uns(l: u32, r: u32) -> (res: u32) {
        let res = l.wrapping_add(r);
        proof {
            lemma_wrap32(l + r);
        }
        res
    }

    fn op_const_sig(l: i32, r: i32) -> (res: i32) {
        let res = l.wrapping_add(r);
        proof {
            lemma_wrap32(l + r);
            lemma_wrap32(l + r - 0x1_0000_0000);
            lemma_wrap32(l + r + 0x1_0000_0000);
            lemma_wrap32(res as int);
            lemma_wrap32(res as int + 0x1_0000_0000);
        }
        res
    }

    fn op_big(l: &BigUInt, r: &BigUInt) -> (res: BigUInt) {
        big_add(l, r)
    }
}

/// Subtraction.
pub struct Sub {}

impl ArithBinopStruct for Sub {
    open spec fn spec_uns(l: nat, r: nat) -> int {
        l - r
    }

    open spec fn spec_sig(l: int, r: int) -> int {
        l - r
    }

    open spec fn spec_big(l: nat, r: nat) -> int {
        l - r
    }

    fn op_const_uns(l: u32, r: u32) -> (res: u32) {
        let res = l.wrapping_sub(r);
        proof {
            lemma_wrap32(l - r);
        }
        res
    }

    fn op_const_sig(l: i32, r: i32) -> (res: i32) {
        let res = l.wrapping_sub(r);
        proof {
            lemma_wrap32(l - r);
            lemma_wrap32(l - r - 0x1_0000_0000);
            lemma_wrap32(l - r + 0x1_0000_0000);
            lemma_wrap32(res as int);
            lemma_wrap32(res as int + 0x1_0000_0000);
        }
        res
    }

    fn op_big(l: &BigUInt, r: &BigUInt) -> (res: BigUInt) {
        big_sub(l, r)
    }
}

/// Multiplication.
pub struct Mul {}

impl ArithBinopStruct for Mul {
    open spec fn spec_uns(l: nat, r: nat) -> int {
        (l as int) * (r as int)
    }

    open spec fn spec_sig(l: int, r: int) -> int {
        l * r
    }

    open spec fn spec_big(l: nat, r: nat) -> int {
        (l as int) * (r as int)
    }

    fn op_const_uns(l: u32, r: u32) -> (res: u32) {
        l.wrapping_mul(r)
    }

    fn op_const_sig(l: i32, r: i32) -> (res: i32) {
        let res = l.wrapping_mul(r);
        proof {
            lemma_signed_mul_wrap(l, r, res);
        }
        res
    }

    fn op_big(l: &BigUInt, r: &BigUInt) -> (res: BigUInt) {
        big_mul(l, r)
    }
}

/// The signed wrapping product agrees with the product modulo `2^32`.
pub proof fn lemma_signed_mul_wrap(l: i32, r: i32, res: i32)
    requires
        res == vstd::wrapping::i32_specs::wrapping_mul(l, r),
    ensures
        (res as int) % 0x1_0000_0000 == (l * r) % 0x1_0000_0000,
{
    let p = (l as int) * (r as int);
    let m: int = 0x1_0000_0000;
    let w = p % m;
    assert(0 <= w < m) by {
        vstd::arithmetic::div_mod::lemma_mod_bound(p, m);
    }
    vstd::arithmetic::div_mod::lemma_mod_twice(p, m);
    if w > i32::MAX {
        assert(res == w - m);
        lemma_wrap32(w - m);
    } else {
        assert(res == w);
        lemma_wrap32(w);
    }
}


/// Division: the divisor zero gives the dividend back (a division by
/// zero never traps).
pub struct Div {}

impl ArithBinopStruct for Div {
    open spec fn spec_uns(l: nat, r: nat) -> int {
        if r == 0 {
            l as int
        } else {
            (l / r) as int
        }
    }

    open spec fn spec_sig(l: int, r: int) -> int {
        if r == 0 {
            l
        } else {
            trunc_div(l, r)
        }
    }

    open spec fn spec_big(l: nat, r: nat) -> int {
        if r == 0 {
            l as int
        } else {
            (l / r) as int
        }
    }

    fn op_const_uns(l: u32, r: u32) -> (res: u32) {
        if r == 0 {
            proof {
                lemma_wrap32(l as int);
            }
            l
        } else {
            let res = l / r;
            proof {
                lemma_wrap32((l as nat / r as nat) as int);
            }
            res
        }
    }

    fn op_const_sig(l: i32, r: i32) -> (res: i32) {
        if r == 0 {
            proof {
                lemma_wrap32(l as int);
                lemma_wrap32(l as int + 0x1_0000_0000);
            }
            return l;
        }
        match l.checked_div(r) {
            Some(q) => {
                proof {
                    lemma_trunc_div_is_checked(l as int, r as int, q as int);
                    lemma_wrap32(q as int);
                    lemma_wrap32(q as int + 0x1_0000_0000);
                }
                q
            },
            None => {
                proof {
                    lemma_div_magnitudes(l as int, r as int);
                    assert(l == i32::MIN && r == -1i32);
                    assert(trunc_div(i32::MIN as int, -1) == -(i32::MIN as int)) by {
                        assert((0x8000_0000int) / 1int == 0x8000_0000int) by (nonlinear_arith);
                    }
                    lemma_wrap32(-(i32::MIN as int));
                    lemma_wrap32(i32::MIN as int + 0x1_0000_0000);
                }
                i32::MIN
            },
        }
    }

    fn op_big(l: &BigUInt, r: &BigUInt) -> (res: BigUInt) {
        let mut rc = clone_big(r);
        if big_eq(r, &big_zero()) {
            let res = clone_big(l);
            proof {
                lemma_big_val_bound(*l);
                vstd::arithmetic::div_mod::lemma_small_mod(big_val(*l), big_mod());
            }
            res
        } else {
            let res = big_div(l, r);
            proof {
                lemma_big_val_bound(*l);
                lemma_div_le_self(big_val(*l), big_val(*r));
                vstd::arithmetic::div_mod::lemma_small_mod(
                    big_val(*l) / big_val(*r),
                    big_mod(),
                );
            }
            res
        }
    }
}

/// An unsigned quotient never exceeds the dividend.
pub proof fn lemma_div_le_self(a: nat, b: nat)
    requires
        b > 0,
    ensures
        a / b <= a,
    decreases a,
{
    assert(a / b <= a) by (nonlinear_arith)
        requires
            b > 0,
    ;
}

/// `checked_div` on signed words is truncating division.
pub proof fn lemma_trunc_div_is_checked(l: int, r: int, q: int)
    requires
        r != 0,
        q == (if l == 0 {
            0int
        } else if l > 0 && r > 0 {
            l / r
        } else if l < 0 && r < 0 {
            (l * -1) / (r * -1)
        } else if l < 0 {
            ((l * -1) / r) * -1
        } else {
            (l / (r * -1)) * -1
        }),
    ensures
        q == trunc_div(l, r),
{
    if l == 0 {
        assert(0int / (if r >= 0 {
            r
        } else {
            -r
        }) == 0) by (nonlinear_arith)
            requires
                r != 0,
        ;
    }
}

/// Remainder with the dividend's sign; a divisor of zero gives the
/// dividend back.
pub struct Mod {}

impl ArithBinopStruct for Mod {
    open spec fn spec_uns(l: nat, r: nat) -> int {
        if r == 0 {
            l as int
        } else {
            (l % r) as int
        }
    }

    open spec fn spec_sig(l: int, r: int) -> int {
        trunc_rem(l, r)
    }

    open spec fn spec_big(l: nat, r: nat) -> int {
        if r == 0 {
            l as int
        } else {
            (l % r) as int
        }
    }

    fn op_const_uns(l: u32, r: u32) -> (res: u32) {
        if r == 0 {
            proof {
                lemma_wrap32(l as int);
            }
            l
        } else {
            let res = l % r;
            proof {
                lemma_wrap32((l as nat % r as nat) as int);
            }
            res
        }
    }

    fn op_const_sig(l: i32, r: i32) -> (res: i32) {
        if r == 0 {
            proof {
                lemma_wrap32(l as int);
                lemma_wrap32(l as int + 0x1_0000_0000);
            }
            return l;
        }
        match l.checked_rem(r) {
            Some(m) => {
                proof {
                    lemma_trunc_rem_is_checked(l as int, r as int, m as int);
                    lemma_wrap32(m as int);
                    lemma_wrap32(m as int + 0x1_0000_0000);
                }
                m
            },
            None => {
                proof {
                    assert(l == i32::MIN && r == -1i32);
                    assert(trunc_div(l as int, -1) == -(l as int)) by {
                        assert((0x8000_0000int) / 1int == 0x8000_0000int) by (nonlinear_arith);
                    }
                    assert(trunc_rem(l as int, -1) == 0) by (nonlinear_arith)
                        requires
                            trunc_rem(l as int, -1int) == l - (-1int) * trunc_div(
                                l as int,
                                -1int,
                            ),
                            trunc_div(l as int, -1int) == -(l as int),
                    ;
                    lemma_wrap32(0);
                }
                0
            },
        }
    }

    fn op_big(l: &BigUInt, r: &BigUInt) -> (res: BigUInt) {
        if big_eq(r, &big_zero()) {
            let res = clone_big(l);
            proof {
                lemma_big_val_bound(*l);
                vstd::arithmetic::div_mod::lemma_small_mod(big_val(*l), big_mod());
            }
            res
        } else {
            let res = big_rem(l, r);
            proof {
                vstd::arithmetic::div_mod::lemma_mod_bound(
                    big_val(*l) as int,
                    big_val(*r) as int,
                );
                lemma_big_val_bound(*r);
                vstd::arithmetic::div_mod::lemma_small_mod(
                    big_val(*l) % big_val(*r),
                    big_mod(),
                );
            }
            res
        }
    }
}

/// `checked_rem` on signed words is the truncating remainder.
pub proof fn lemma_trunc_rem_is_checked(l: int, r: int, m: int)
    requires
        r != 0,
        m == (if l == 0 {
            0int
        } else if l > 0 && r > 0 {
            l % r
        } else if l < 0 && r < 0 {
            ((l * -1) % (r * -1)) * -1
        } else if l < 0 {
            ((l * -1) % r) * -1
        } else {
            l % (r * -1)
        }),
    ensures
        m == trunc_rem(l, r),
{
    let la: int = if l >= 0 {
        l
    } else {
        -l
    };
    let ra: int = if r >= 0 {
        r
    } else {
        -r
    };
    vstd::arithmetic::div_mod::lemma_fundamental_div_mod(la, ra);
    let q = la / ra;
    let sr = la % ra;
    assert(la == ra * q + sr);
    if l == 0 {
        assert(0int / ra == 0 && 0int % ra == 0) by (nonlinear_arith)
            requires
                ra > 0,
        ;
        assert(trunc_rem(l, r) == 0) by (nonlinear_arith)
            requires
                trunc_div(l, r) == 0,
                l == 0,
                r != 0,
        ;
    } else if (l < 0) != (r < 0) {
        assert(trunc_div(l, r) == -q);
        assert(l - r * (-q) == m) by (nonlinear_arith)
            requires
                la == ra * q + sr,
                m == (if l < 0 {
                    -sr
                } else {
                    sr
                }),
                la == (if l >= 0 {
                    l
                } else {
                    -l
                }),
                ra == (if r >= 0 {
                    r
                } else {
                    -r
                }),
                l != 0,
                (l < 0) != (r < 0),
        ;
    } else {
        assert(trunc_div(l, r) == q);
        assert(l - r * q == m) by (nonlinear_arith)
            requires
                la == ra * q + sr,
                m == (if l < 0 {
                    -sr
                } else {
                    sr
                }),
                la == (if l >= 0 {
                    l
                } else {
                    -l
                }),
                ra == (if r >= 0 {
                    r
                } else {
                    -r
                }),
                l != 0,
                (l < 0) == (r < 0),
        ;
    }
}

/// The magnitude quotient of bounded signed words stays in range
/// except for the most negative value divided by minus one.
pub proof fn lemma_div_magnitudes(l: int, r: int)
    requires
        i32::MIN <= l <= i32::MAX,
        i32::MIN <= r <= i32::MAX,
        r != 0,
        l != 0,
    ensures
        ({
            let q = (if l > 0 && r > 0 {
                l / r
            } else if l < 0 && r < 0 {
                (l * -1) / (r * -1)
            } else if l < 0 {
                ((l * -1) / r) * -1
            } else {
                (l / (r * -1)) * -1
            });
            (q < i32::MIN || q > i32::MAX) ==> (l == i32::MIN && r == -1)
        }),
{
    let la: int = if l >= 0 {
        l
    } else {
        -l
    };
    let ra: int = if r >= 0 {
        r
    } else {
        -r
    };
    assert(la / ra <= la && la / ra >= 0) by (nonlinear_arith)
        requires
            ra > 0,
            la >= 0,
    ;
    if ra >= 2 {
        assert(la / ra <= la / 2) by (nonlinear_arith)
            requires
                ra >= 2,
                la >= 0,
        ;
        assert((0x8000_0000int) / 2 == 0x4000_0000) by (nonlinear_arith);
        assert(la / 2 <= 0x4000_0000) by (nonlinear_arith)
            requires
                0 <= la <= 0x8000_0000,
        ;
    } else {
        assert(la / 1int == la) by (nonlinear_arith);
    }
}

/// Relies on `BUintD32`'s `Clone`/`Copy`: an identical integer.
#[verifier::external_body]
pub fn clone_big(x: &BigUInt) -> (r: BigUInt)
    ensures
        r == *x,
{
    *x
}


/// Exponentiation; a negative exponent collapses per the integer
/// power rules (base 1 gives 1, base -1 gives its parity sign, any
/// other base gives 0).
pub struct Pow {}

impl ArithBinopStruct for Pow {
    open spec fn spec_uns(l: nat, r: nat) -> int {
        vstd::arithmetic::power::pow(l as int, r)
    }

    open spec fn spec_sig(l: int, r: int) -> int {
        if r >= 0 {
            vstd::arithmetic::power::pow(l, r as nat)
        } else if l == 1 {
            1
        } else if l == -1 {
            if r % 2 == 0 {
                1
            } else {
                -1
            }
        } else {
            0
        }
    }

    open spec fn spec_big(l: nat, r: nat) -> int {
        vstd::arithmetic::power::pow(l as int, r % 0x1_0000_0000)
    }

    fn op_const_uns(l: u32, r: u32) -> (res: u32) {
        let mut acc: u32 = 1;
        let mut i: u32 = 0;
        proof {
            vstd::arithmetic::power::lemma_pow0(l as int);
            lemma_wrap32(1);
        }
        while i < r
            invariant
                i <= r,
                (acc as int) % 0x1_0000_0000 == vstd::arithmetic::power::pow(l as int, i as nat)
                    % 0x1_0000_0000,
            decreases r - i,
        {
            let prev = acc;
            acc = acc.wrapping_mul(l);
            proof {
                lemma_pow_step_wrap(l, i as nat, prev, acc);
            }
            i = i + 1;
        }
        proof {
            lemma_wrap32(acc as int);
        }
        acc
    }

    fn op_const_sig(l: i32, r: i32) -> (res: i32) {
        if r >= 0 {
            let mut acc: i32 = 1;
            let mut i: i32 = 0;
            proof {
                vstd::arithmetic::power::lemma_pow0(l as int);
            }
            while i < r
                invariant
                    0 <= i <= r,
                    (acc as int) % 0x1_0000_0000 == vstd::arithmetic::power::pow(
                        l as int,
                        i as nat,
                    ) % 0x1_0000_0000,
                decreases r - i,
            {
                let prev = acc;
                acc = acc.wrapping_mul(l);
                proof {
                    lemma_signed_mul_wrap(prev, l, acc);
                    lemma_pow_step_wrap_sig(l, i as nat, prev, acc);
                }
                i = i + 1;
            }
            acc
        } else if l == 1 {
            1
        } else if l == -1 {
            let low = #[verifier::truncate] (r as u32);
            let res: i32 = if low % 2 == 0 {
                1
            } else {
                -1
            };
            proof {
                assert(low == r || low == r + 0x1_0000_0000) by (bit_vector)
                    requires
                        low == r as u32,
                ;
                if low != r {
                    vstd::arithmetic::div_mod::lemma_mod_multiples_vanish(
                        0x8000_0000,
                        r as int,
                        2,
                    );
                }
            }
            res
        } else {
            0
        }
    }

    fn op_big(l: &BigUInt, r: &BigUInt) -> (res: BigUInt) {
        let rw = big_to_words(r);
        let e = rw[0];
        proof {
            lemma_words_prefix_mod(big_digits(*r), 32, 64);
            assert(word_count(32) == 1);
            lemma_words_prefix_one(big_digits(*r));
            vstd::arithmetic::power2::lemma2_to64();
            vstd::arithmetic::div_mod::lemma_small_mod(e as nat, 0x1_0000_0000);
        }
        big_pow(l, e)
    }
}

/// A one-word prefix value is the first word.
pub proof fn lemma_words_prefix_one(s: Seq<u32>)
    requires
        s.len() >= 1,
    ensures
        words_val_prefix(s, 1) == s[0],
{
    vstd::arithmetic::power2::lemma2_to64();
    assert(words_val_prefix(s, 0) == 0);
    assert(vstd::arithmetic::power2::pow2((32 * 0) as nat) * s[0] == s[0]) by (nonlinear_arith)
        requires
            vstd::arithmetic::power2::pow2((32 * 0) as nat) == 1,
    ;
}

/// One unsigned multiply step preserves the wrapped power value.
pub proof fn lemma_pow_step_wrap(l: u32, i: nat, prev: u32, acc: u32)
    requires
        (prev as int) % 0x1_0000_0000 == vstd::arithmetic::power::pow(l as int, i)
            % 0x1_0000_0000,
        acc == vstd::wrapping::u32_specs::wrapping_mul(prev, l),
    ensures
        (acc as int) % 0x1_0000_0000 == vstd::arithmetic::power::pow(l as int, i + 1)
            % 0x1_0000_0000,
{
    let m: int = 0x1_0000_0000;
    let p = vstd::arithmetic::power::pow(l as int, i);
    assert(vstd::arithmetic::power::pow(l as int, i + 1) == p * l) by {
        vstd::arithmetic::power::lemma_pow1(l as int);
        vstd::arithmetic::power::lemma_pow_adds(l as int, i, 1);
    }
    lemma_wrap32(prev as int);
    assert(acc as int == ((prev as int) * (l as int)) % m);
    vstd::arithmetic::div_mod::lemma_mul_mod_noop_left(p, l as int, m);
    vstd::arithmetic::div_mod::lemma_mul_mod_noop_left(prev as int, l as int, m);
    lemma_wrap32(acc as int);
}

/// One signed multiply step preserves the wrapped power value.
pub proof fn lemma_pow_step_wrap_sig(l: i32, i: nat, prev: i32, acc: i32)
    requires
        (prev as int) % 0x1_0000_0000 == vstd::arithmetic::power::pow(l as int, i)
            % 0x1_0000_0000,
        (acc as int) % 0x1_0000_0000 == ((prev as int) * (l as int)) % 0x1_0000_0000,
    ensures
        (acc as int) % 0x1_0000_0000 == vstd::arithmetic::power::pow(l as int, i + 1)
            % 0x1_0000_0000,
{
    let m: int = 0x1_0000_0000;
    let p = vstd::arithmetic::power::pow(l as int, i);
    assert(vstd::arithmetic::power::pow(l as int, i + 1) == p * l) by {
        vstd::arithmetic::power::lemma_pow1(l as int);
        vstd::arithmetic::power::lemma_pow_adds(l as int, i, 1);
    }
    vstd::arithmetic::div_mod::lemma_mul_mod_noop_left(p, l as int, m);
    vstd::arithmetic::div_mod::lemma_mul_mod_noop_left(prev as int, l as int, m);
}

/// An arithmetic shift operation.
pub trait ArithShiftStruct {
    /// The exact mathematical result on an unsigned operand.
    spec fn spec_uns(l: nat, r: nat) -> int;

    /// The exact mathematical result on a signed operand.
    spec fn spec_sig(l: int, r: nat) -> int;

    /// The shift of an unsigned 32-bit word, wrapping.
    fn op_const_uns(l: u32, r: u32) -> (res: u32)
        ensures
            res as int == Self::spec_uns(l as nat, r as nat) % 0x1_0000_0000,
    ;

    /// The shift of a signed 32-bit word, wrapping.
    fn op_const_sig(l: i32, r: u32) -> (res: i32)
        ensures
            (res as int) % 0x1_0000_0000 == Self::spec_sig(l as int, r as nat) % 0x1_0000_0000,
    ;

    /// The shift of a 2048-bit integer, wrapping.
    fn op_big(l: &BigUInt, r: u32) -> (res: BigUInt)
        requires
            big_digits(*l).len() == 64,
        ensures
            big_digits(res).len() == 64,
            big_val(res) as int == Self::spec_uns(big_val(*l), r as nat) % (big_mod() as int),
    ;
}

/// Left shift: multiplication by a power of two.
pub struct Shl {}

impl ArithShiftStruct for Shl {
    open spec fn spec_uns(l: nat, r: nat) -> int {
        (l as int) * (vstd::arithmetic::power2::pow2(r) as int)
    }

    open spec fn spec_sig(l: int, r: nat) -> int {
        l * (vstd::arithmetic::power2::pow2(r) as int)
    }

    fn op_const_uns(l: u32, r: u32) -> (res: u32) {
        if r >= 32 {
            proof {
                lemma_shl_overflow_mod(l as int, r as nat);
            }
            0
        } else {
            let wide = (l as u64) << r;
            proof {
                vstd::bits::lemma_u64_pow2_no_overflow(r as nat);
                assert(vstd::arithmetic::power2::pow2(r as nat) <= 0x8000_0000) by {
                    if (r as nat) < 31 {
                        vstd::arithmetic::power2::lemma_pow2_strictly_increases(r as nat, 31);
                    }
                    vstd::arithmetic::power2::lemma2_to64();
                }
                assert((l as u64) * vstd::arithmetic::power2::pow2(r as nat) <= u64::MAX) by (
                nonlinear_arith)
                    requires
                        l <= 0xffff_ffffu32,
                        vstd::arithmetic::power2::pow2(r as nat) <= 0x8000_0000,
                ;
                vstd::bits::lemma_u64_shl_is_mul(l as u64, r as u64);
            }
            let res = #[verifier::truncate] (wide as u32);
            proof {
                assert(wide as u32 == (wide % 0x1_0000_0000u64) as u32) by (bit_vector);
            }
            res
        }
    }

    fn op_const_sig(l: i32, r: u32) -> (res: i32) {
        let lu = #[verifier::truncate] (l as u32);
        let ru = Self::op_const_uns(lu, r);
        let res = #[verifier::truncate] (ru as i32);
        proof {
            let m: int = 0x1_0000_0000;
            assert(lu == l || lu == l + 0x1_0000_0000) by (bit_vector)
                requires
                    lu == l as u32,
            ;
            assert(res == ru || res == ru - 0x1_0000_0000) by (bit_vector)
                requires
                    res == ru as i32,
            ;
            if lu != l {
                vstd::arithmetic::div_mod::lemma_mod_multiples_vanish(1, l as int, m);
            }
            vstd::arithmetic::div_mod::lemma_mul_mod_noop_left(
                l as int,
                vstd::arithmetic::power2::pow2(r as nat) as int,
                m,
            );
            vstd::arithmetic::div_mod::lemma_mul_mod_noop_left(
                lu as int,
                vstd::arithmetic::power2::pow2(r as nat) as int,
                m,
            );
            vstd::arithmetic::div_mod::lemma_mod_twice(ru as int, m);
            if res != ru {
                vstd::arithmetic::div_mod::lemma_mod_multiples_vanish(-1, res as int, m);
            }
            lemma_wrap32(ru as int);
        }
        res
    }

    fn op_big(l: &BigUInt, r: u32) -> (res: BigUInt) {
        big_shl(l, r)
    }
}

/// Shifting a 32-bit value left by 32 or more leaves nothing.
pub proof fn lemma_shl_overflow_mod(l: int, r: nat)
    requires
        r >= 32,
        0 <= l < 0x1_0000_0000,
    ensures
        (l * (vstd::arithmetic::power2::pow2(r) as int)) % 0x1_0000_0000 == 0,
{
    vstd::arithmetic::power2::lemma_pow2_adds(32, (r - 32) as nat);
    vstd::arithmetic::power2::lemma2_to64();
    let q = vstd::arithmetic::power2::pow2((r - 32) as nat);
    assert(l * (vstd::arithmetic::power2::pow2(r) as int) == 0x1_0000_0000 * (l * q)) by (
    nonlinear_arith)
        requires
            vstd::arithmetic::power2::pow2(r) == 0x1_0000_0000 * q,
    ;
    vstd::arithmetic::div_mod::lemma_mod_multiples_basic((l * q) as int, 0x1_0000_0000);
}

/// Right shift: division by a power of two (arithmetic on a signed
/// operand).
pub struct Shr {}

impl ArithShiftStruct for Shr {
    open spec fn spec_uns(l: nat, r: nat) -> int {
        (l as int) / (vstd::arithmetic::power2::pow2(r) as int)
    }

    open spec fn spec_sig(l: int, r: nat) -> int {
        l / (vstd::arithmetic::power2::pow2(r) as int)
    }

    fn op_const_uns(l: u32, r: u32) -> (res: u32) {
        proof {
            vstd::arithmetic::power2::lemma_pow2_pos(r as nat);
        }
        if r >= 32 {
            proof {
                vstd::arithmetic::power2::lemma2_to64();
                if (32 as nat) < r as nat {
                    vstd::arithmetic::power2::lemma_pow2_strictly_increases(32, r as nat);
                }
                vstd::arithmetic::div_mod::lemma_basic_div(
                    l as int,
                    vstd::arithmetic::power2::pow2(r as nat) as int,
                );
                lemma_wrap32(0);
            }
            0
        } else {
            let res = l >> r;
            proof {
                vstd::bits::lemma_u32_shr_is_div(l, r);
                lemma_div_le_self(l as nat, vstd::arithmetic::power2::pow2(r as nat));
                lemma_wrap32((l as nat / vstd::arithmetic::power2::pow2(r as nat)) as int);
            }
            res
        }
    }

    fn op_const_sig(l: i32, r: u32) -> (res: i32) {
        proof {
            vstd::arithmetic::power2::lemma_pow2_pos(r as nat);
        }
        if l >= 0 {
            let res = #[verifier::truncate] (Self::op_const_uns(l as u32, r) as i32);
            proof {
                let d = vstd::arithmetic::power2::pow2(r as nat) as int;
                lemma_div_le_self(l as nat, vstd::arithmetic::power2::pow2(r as nat));
                lemma_wrap32((l as int) / d);
                assert(Self::spec_uns(l as nat, r as nat) == Self::spec_sig(l as int, r as nat));
            }
            res
        } else {
            let m = -1i32 - l;
            let mq = Self::op_const_uns(m as u32, r);
            let res = -1i32 - (#[verifier::truncate] (mq as i32));
            proof {
                let d = vstd::arithmetic::power2::pow2(r as nat) as int;
                let mi = m as int;
                lemma_div_le_self(m as nat, vstd::arithmetic::power2::pow2(r as nat));
                lemma_wrap32(mi / d);
                assert(mq as int == mi / d);
                vstd::arithmetic::div_mod::lemma_fundamental_div_mod(mi, d);
                assert((l as int) / d == -1 - mi / d) by {
                    vstd::arithmetic::div_mod::lemma_mod_bound(mi, d);
                    assert(l as int == (-1 - mi / d) * d + (d - 1 - mi % d)) by (nonlinear_arith)
                        requires
                            mi == d * (mi / d) + (mi % d),
                            l as int == -1 - mi,
                    ;
                    vstd::arithmetic::div_mod::lemma_fundamental_div_mod_converse(
                        l as int,
                        d,
                        -1 - mi / d,
                        d - 1 - mi % d,
                    );
                }
                lemma_wrap32(res as int);
                lemma_wrap32(res as int + 0x1_0000_0000);
            }
            res
        }
    }

    fn op_big(l: &BigUInt, r: u32) -> (res: BigUInt) {
        let res = big_shr(l, r);
        proof {
            vstd::arithmetic::power2::lemma_pow2_pos(r as nat);
            lemma_big_val_bound(*l);
            lemma_div_le_self(big_val(*l), vstd::arithmetic::power2::pow2(r as nat));
            vstd::arithmetic::div_mod::lemma_small_mod(
                big_val(*l) / vstd::arithmetic::power2::pow2(r as nat),
                big_mod(),
            );
        }
        res
    }
}

/// An arithmetic comparison.
pub trait ArithCompStruct {
    /// The comparison on unsigned values.
    spec fn spec_uns(l: nat, r: nat) -> bool;

    /// The comparison on signed values.
    spec fn spec_sig(l: int, r: int) -> bool;

    /// The comparison on unsigned 32-bit words.
    fn op_const_uns(l: u32, r: u32) -> (res: bool)
        ensures
            res == Self::spec_uns(l as nat, r as nat),
    ;

    /// The comparison on signed 32-bit words.
    fn op_const_sig(l: i32, r: i32) -> (res: bool)
        ensures
            res == Self::spec_sig(l as int, r as int),
    ;

    /// The comparison on 2048-bit integers.
    fn op_big(l: &BigUInt, r: &BigUInt) -> (res: bool)
        requires
            big_digits(*l).len() == 64,
            big_digits(*r).len() == 64,
        ensures
            res == Self::spec_uns(big_val(*l), big_val(*r)),
    ;
}

/// Strictly below.
pub struct Lt {}

impl ArithCompStruct for Lt {
    open spec fn spec_uns(l: nat, r: nat) -> bool {
        l < r
    }

    open spec fn spec_sig(l: int, r: int) -> bool {
        l < r
    }

    fn op_const_uns(l: u32, r: u32) -> (res: bool) {
        l < r
    }

    fn op_const_sig(l: i32, r: i32) -> (res: bool) {
        l < r
    }

    fn op_big(l: &BigUInt, r: &BigUInt) -> (res: bool) {
        big_lt(l, r)
    }
}

/// Below or equal.
pub struct Le {}

impl ArithCompStruct for Le {
    open spec fn spec_uns(l: nat, r: nat) -> bool {
        l <= r
    }

    open spec fn spec_sig(l: int, r: int) -> bool {
        l <= r
    }

    fn op_const_uns(l: u32, r: u32) -> (res: bool) {
        l <= r
    }

    fn op_const_sig(l: i32, r: i32) -> (res: bool) {
        l <= r
    }

    fn op_big(l: &BigUInt, r: &BigUInt) -> (res: bool) {
        !big_lt(r, l)
    }
}

/// Strictly above.
pub struct Gt {}

impl ArithCompStruct for Gt {
    open spec fn spec_uns(l: nat, r: nat) -> bool {
        l > r
    }

    open spec fn spec_sig(l: int, r: int) -> bool {
        l > r
    }

    fn op_const_uns(l: u32, r: u32) -> (res: bool) {
        l > r
    }

    fn op_const_sig(l: i32, r: i32) -> (res: bool) {
        l > r
    }

    fn op_big(l: &BigUInt, r: &BigUInt) -> (res: bool) {
        big_lt(r, l)
    }
}

/// Above or equal.
pub struct Ge {}

impl ArithCompStruct for Ge {
    open spec fn spec_uns(l: nat, r: nat) -> bool {
        l >= r
    }

    open spec fn spec_sig(l: int, r: int) -> bool {
        l >= r
    }

    fn op_const_uns(l: u32, r: u32) -> (res: bool) {
        l >= r
    }

    fn op_const_sig(l: i32, r: i32) -> (res: bool) {
        l >= r
    }

    fn op_big(l: &BigUInt, r: &BigUInt) -> (res: bool) {
        !big_lt(l, r)
    }
}

/// Equal.
pub struct Eq {}

impl ArithCompStruct for Eq {
    open spec fn spec_uns(l: nat, r: nat) -> bool {
        l == r
    }

    open spec fn spec_sig(l: int, r: int) -> bool {
        l == r
    }

    fn op_const_uns(l: u32, r: u32) -> (res: bool) {
        l == r
    }

    fn op_const_sig(l: i32, r: i32) -> (res: bool) {
        l == r
    }

    fn op_big(l: &BigUInt, r: &BigUInt) -> (res: bool) {
        big_eq(l, r)
    }
}

/// Not equal.
pub struct Ne {}

impl ArithCompStruct for Ne {
    open spec fn spec_uns(l: nat, r: nat) -> bool {
        l != r
    }

    open spec fn spec_sig(l: int, r: int) -> bool {
        l != r
    }

    fn op_const_uns(l: u32, r: u32) -> (res: bool) {
        l != r
    }

    fn op_const_sig(l: i32, r: i32) -> (res: bool) {
        l != r
    }

    fn op_big(l: &BigUInt, r: &BigUInt) -> (res: bool) {
        !big_eq(l, r)
    }
}

/// Reinterpret the low `bits` bits of a word as a signed number
/// (two's-complement sign-extension; high bits beyond the width are
/// discarded, and widths of zero or above 32 pass the word through).
pub fn extend_number(value: u32, bits: u32) -> (r: i32)
    ensures
        (bits == 0 || bits > 32) ==> r as int == (value as int) - (if value > 0x7fff_ffffu32 {
            0x1_0000_0000int
        } else {
            0int
        }),
        (0 < bits <= 32) ==> {
            let m = (value as nat) % vstd::arithmetic::power2::pow2(bits as nat);
            r as int == (if m >= vstd::arithmetic::power2::pow2((bits - 1) as nat) {
                m - vstd::arithmetic::power2::pow2(bits as nat)
            } else {
                m as int
            })
        },
{
    if bits == 0 || bits >= 32 {
        let r: i32 = if value <= 0x7fff_ffffu32 {
            value as i32
        } else {
            let diff = 0xffff_ffffu32 - value;
            -(diff as i32) - 1
        };
        proof {
            lemma_wrap32(value as int);
            if bits == 32 {
                vstd::arithmetic::power2::lemma2_to64();
                vstd::arithmetic::power2::lemma_pow2_pos(32);
                vstd::arithmetic::div_mod::lemma_small_mod(
                    value as nat,
                    vstd::arithmetic::power2::pow2(32),
                );
            }
        }
        r
    } else {
        proof {
            vstd::bits::lemma_u32_pow2_no_overflow(bits as nat);
            vstd::bits::lemma_u32_shl_is_mul(1u32, bits);
            vstd::bits::lemma_u32_low_bits_mask_is_mod(value, bits as nat);
            vstd::arithmetic::power2::lemma_pow2_pos(bits as nat);
        }
        let mask_w = (1u32 << bits) - 1;
        let m = value & mask_w;
        proof {
            assert(m == (value as nat) % vstd::arithmetic::power2::pow2(bits as nat));
        }
        let p = 1u32 << (bits - 1);
        proof {
            vstd::bits::lemma_u32_pow2_no_overflow((bits - 1) as nat);
            vstd::bits::lemma_u32_shl_is_mul(1u32, (bits - 1) as u32);
        }
        if m >= p {
            let pw = 1u64 << bits;
            proof {
                vstd::bits::lemma_u64_pow2_no_overflow(bits as nat);
                vstd::bits::lemma_u64_shl_is_mul(1u64, bits as u64);
                vstd::arithmetic::power2::lemma_pow2_adds((bits - 1) as nat, 1);
                vstd::arithmetic::power2::lemma2_to64();
            }
            let diff = (pw as u32) - m;
            proof {
                assert(diff <= 0x4000_0000u32);
            }
            let r = -(diff as i32);
            r
        } else {
            proof {
                vstd::arithmetic::power2::lemma_pow2_strictly_increases((bits - 1) as nat, 31);
                vstd::arithmetic::power2::lemma2_to64();
            }
            m as i32
        }
    }
}


/// The signed value follows from the unsigned value and the width: the
/// top bit decides the sign.
pub proof fn lemma_sval_from_uval(v: crate::vector3vl::Vec3vlV, w: Vec3vl)
    requires
        w@ == v,
        1 <= v.bits <= 32,
        crate::vector3vl::view_wf(v),
    ensures
        crate::vector3vl::view_sval(v) == (if crate::vector3vl::view_uval(v)
            >= vstd::arithmetic::power2::pow2((v.bits - 1) as nat) {
            crate::vector3vl::view_uval(v) - vstd::arithmetic::power2::pow2(v.bits as nat)
        } else {
            crate::vector3vl::view_uval(v) as int
        }),
{
    let top = (v.bits - 1) as nat;
    if crate::vector3vl::view_abit(v, top) {
        crate::cell_mux::lemma_uval_lower(w, top, v.bits as nat);
    } else {
        crate::vector3vl::lemma_uval_stable(w, top, v.bits as nat);
        crate::cell_mux::lemma_uval_bound(w, top);
    }
}

/// The unsigned 32-bit value of a narrow, fully defined signal.
pub fn unsigned_value(v: &Vec3vl) -> (r: u32)
    requires
        v.well_formed(),
        v.all_defined(),
        v.bits <= 32,
    ensures
        r == v.uval(),
{
    match v.get_number() {
        Ok(u) => u,
        Err(_) => {
            proof {
                assert(false);
            }
            0
        },
    }
}

/// The signed (two's-complement) value of a narrow, fully defined
/// signal.
pub fn signed_value(v: &Vec3vl) -> (r: i32)
    requires
        v.well_formed(),
        v.all_defined(),
        v.bits <= 32,
    ensures
        r as int == v.sval(),
{
    let u = unsigned_value(v);
    proof {
        crate::cell_mux::lemma_uval_bound(*v, v.bits as nat);
        if v.bits >= 1 {
            lemma_sval_from_uval(v@, *v);
        }
        if v.bits == 32 {
            vstd::arithmetic::power2::lemma2_to64();
            if u > 0x7fff_ffffu32 {
                vstd::arithmetic::power2::lemma2_to64();
            } else {
                vstd::arithmetic::power2::lemma_pow2_strictly_increases(31, 32);
            }
        }
    }
    let r = extend_number(u, v.bits);
    proof {
        if v.bits == 0 {
            lemma_wrap32(u as int);
        } else {
            vstd::arithmetic::power2::lemma_pow2_pos(v.bits as nat);
            vstd::arithmetic::div_mod::lemma_small_mod(
                u as nat,
                vstd::arithmetic::power2::pow2(v.bits as nat),
            );
            if v.bits == 32 {
                vstd::arithmetic::power2::lemma2_to64();
                lemma_wrap32(u as int);
            }
        }
    }
    r
}

/// The wrapped 32-bit word of a signed result.
pub fn as_word(x: i32) -> (r: u32)
    ensures
        r as int == (x as int) % 0x1_0000_0000,
{
    let r = #[verifier::truncate] (x as u32);
    proof {
        assert(r == x || r == x + 0x1_0000_0000) by (bit_vector)
            requires
                r == x as u32,
        ;
        lemma_wrap32(x as int);
        lemma_wrap32(x as int + 0x1_0000_0000);
    }
    r
}

/// The value a narrow arithmetic result denotes after wrapping at 32
/// bits and masking to the output width.
pub open spec fn masked32(x: int, bits: u32) -> int {
    (x % 0x1_0000_0000) % (vstd::arithmetic::power2::pow2(bits as nat) as int)
}

/// The value a wide arithmetic result denotes after wrapping at 2048
/// bits and masking to the output width.
pub open spec fn masked_big(x: int, bits: u32) -> int {
    (x % (big_mod() as int)) % (vstd::arithmetic::power2::pow2(bits as nat) as int)
}


/// The arguments name both operand ports.
pub open spec fn has_two(m: Map<Seq<char>, crate::vector3vl::Vec3vlV>) -> bool {
    m.contains_key("in1"@) && m.contains_key("in2"@)
}

/// Evaluate an arithmetic unary cell on its `in` signal: an X input
/// gives all-X of the output width, otherwise the operation applies to
/// the unsigned value, wrapping at 32 bits (or at 2048 bits for a wide
/// input) and masked to the output width.
pub fn arith_monop<T: ArithMonopStruct>(args: &crate::sigmap::SigMap, bits: u32) -> (r: Result<
    crate::operations::ReturnValue,
    CellError,
>)
    requires
        args.wf(),
        args.values_wf(),
    ensures
        !args@.contains_key("in"@) ==> r == Result::<
            crate::operations::ReturnValue,
            CellError,
        >::Err(CellError::MissingInput),
        r is Ok <==> (args@.contains_key("in"@) && (!crate::vector3vl::view_defined(args@["in"@])
            || args@["in"@].bits <= 32 || word_count(args@["in"@].bits as nat) <= 64)),
        r is Ok ==> {
            let rv = r->Ok_0;
            let v = args@["in"@];
            &&& rv.out is Some
            &&& !rv.clock
            &&& rv.out->0.bits == bits
            &&& rv.out->0.well_formed()
            &&& !crate::vector3vl::view_defined(v) ==> forall|i: nat|
                i < bits ==> #[trigger] rv.out->0.tri_at(i) == 0i32
            &&& (crate::vector3vl::view_defined(v) && v.bits <= 32) ==> {
                &&& rv.out->0.all_defined()
                &&& rv.out->0.uval() as int == masked32(
                    T::spec_op(crate::vector3vl::view_uval(v) as int),
                    bits,
                )
            }
            &&& (crate::vector3vl::view_defined(v) && v.bits > 32) ==> {
                &&& rv.out->0.all_defined()
                &&& rv.out->0.uval() as int == masked_big(
                    T::spec_op(crate::vector3vl::view_uval(v) as int),
                    bits,
                )
            }
        },
        r is Err ==> (r->Err_0 == CellError::MissingInput || r->Err_0
            == CellError::UnsupportedEncoding),
{
    let input = match args.get("in") {
        Some(v) => v,
        None => {
            return Err(CellError::MissingInput);
        },
    };
    if !input.is_fully_defined() {
        return crate::operations::ReturnValue::out(Vec3vl::xes(bits));
    }
    if input.bits <= 32 {
        let i = unsigned_value(input);
        let result = T::op_const(i);
        crate::operations::ReturnValue::out(Vec3vl::from_number(result, bits))
    } else {
        let b = match input.to_biguint() {
            Ok(b) => b,
            Err(e) => {
                return Err(e);
            },
        };
        let result = T::op_big(&b);
        crate::operations::ReturnValue::out(Vec3vl::from_biguint(&result, bits))
    }
}

/// Evaluate an arithmetic binary cell on `in1` and `in2`: an X on
/// either input gives all-X of the output width; narrow inputs compute
/// natively (signed when both operands are marked signed), wide inputs
/// compute over 2048-bit integers; the result is masked to the output
/// width.
pub fn arith_binop<T: ArithBinopStruct>(
    args: &crate::sigmap::SigMap,
    bits: u32,
    sgn: (bool, bool),
) -> (r: Result<crate::operations::ReturnValue, CellError>)
    requires
        args.wf(),
        args.values_wf(),
    ensures
        !has_two(args@) ==> r == Result::<crate::operations::ReturnValue, CellError>::Err(
            CellError::MissingInput,
        ),
        r is Ok <==> (has_two(args@) && {
            let l = args@["in1"@];
            let rr = args@["in2"@];
            ||| !(crate::vector3vl::view_defined(l) && crate::vector3vl::view_defined(rr))
            ||| (l.bits <= 32 && rr.bits <= 32)
            ||| (word_count(l.bits as nat) <= 64 && word_count(rr.bits as nat) <= 64)
        }),
        r is Ok ==> {
            let rv = r->Ok_0;
            let l = args@["in1"@];
            let rr = args@["in2"@];
            let defined = crate::vector3vl::view_defined(l) && crate::vector3vl::view_defined(rr);
            &&& rv.out is Some
            &&& !rv.clock
            &&& rv.out->0.bits == bits
            &&& rv.out->0.well_formed()
            &&& !defined ==> forall|i: nat| i < bits ==> #[trigger] rv.out->0.tri_at(i) == 0i32
            &&& (defined && l.bits <= 32 && rr.bits <= 32) ==> {
                &&& rv.out->0.all_defined()
                &&& (sgn.0 && sgn.1) ==> rv.out->0.uval() as int == masked32(
                    T::spec_sig(
                        crate::vector3vl::view_sval(l),
                        crate::vector3vl::view_sval(rr),
                    ),
                    bits,
                )
                &&& !(sgn.0 && sgn.1) ==> rv.out->0.uval() as int == masked32(
                    T::spec_uns(
                        crate::vector3vl::view_uval(l),
                        crate::vector3vl::view_uval(rr),
                    ),
                    bits,
                )
            }
            &&& (defined && (l.bits > 32 || rr.bits > 32)) ==> {
                &&& rv.out->0.all_defined()
                &&& rv.out->0.uval() as int == masked_big(
                    T::spec_big(
                        crate::vector3vl::view_uval(l),
                        crate::vector3vl::view_uval(rr),
                    ),
                    bits,
                )
            }
        },
        r is Err ==> (r->Err_0 == CellError::MissingInput || r->Err_0
            == CellError::UnsupportedEncoding),
{
    let vecl = match args.get("in1") {
        Some(v) => v,
        None => {
            return Err(CellError::MissingInput);
        },
    };
    let vecr = match args.get("in2") {
        Some(v) => v,
        None => {
            return Err(CellError::MissingInput);
        },
    };
    if !vecl.is_fully_defined() || !vecr.is_fully_defined() {
        return crate::operations::ReturnValue::out(Vec3vl::xes(bits));
    }
    if vecl.bits <= 32 && vecr.bits <= 32 {
        let result: u32 = if sgn.0 && sgn.1 {
            let n_l = signed_value(vecl);
            let n_r = signed_value(vecr);
            as_word(T::op_const_sig(n_l, n_r))
        } else {
            let l = unsigned_value(vecl);
            let rr = unsigned_value(vecr);
            T::op_const_uns(l, rr)
        };
        crate::operations::ReturnValue::out(Vec3vl::from_number(result, bits))
    } else {
        let lb = match vecl.to_biguint() {
            Ok(b) => b,
            Err(e) => {
                return Err(e);
            },
        };
        let rb = match vecr.to_biguint() {
            Ok(b) => b,
            Err(e) => {
                return Err(e);
            },
        };
        let result = T::op_big(&lb, &rb);
        crate::operations::ReturnValue::out(Vec3vl::from_biguint(&result, bits))
    }
}

/// Evaluate a constant-operand arithmetic cell on `in`: the fixed
/// constant sits on the left or the right of the operation.  Only
/// inputs of at most 32 bits are supported.
pub fn arith_const_binop<T: ArithBinopStruct>(
    args: &crate::sigmap::SigMap,
    constant: i32,
    left_op: bool,
    bits: u32,
    sgn: bool,
) -> (r: Result<crate::operations::ReturnValue, CellError>)
    requires
        args.wf(),
        args.values_wf(),
    ensures
        !args@.contains_key("in"@) ==> r == Result::<
            crate::operations::ReturnValue,
            CellError,
        >::Err(CellError::MissingInput),
        r is Ok <==> (args@.contains_key("in"@) && args@["in"@].bits <= 32),
        r is Ok ==> {
            let rv = r->Ok_0;
            let v = args@["in"@];
            &&& rv.out is Some
            &&& !rv.clock
            &&& rv.out->0.bits == bits
            &&& rv.out->0.well_formed()
            &&& !crate::vector3vl::view_defined(v) ==> forall|i: nat|
                i < bits ==> #[trigger] rv.out->0.tri_at(i) == 0i32
            &&& crate::vector3vl::view_defined(v) ==> {
                &&& rv.out->0.all_defined()
                &&& sgn ==> rv.out->0.uval() as int == masked32(
                    (if left_op {
                        T::spec_sig(constant as int, crate::vector3vl::view_sval(v))
                    } else {
                        T::spec_sig(crate::vector3vl::view_sval(v), constant as int)
                    }),
                    bits,
                )
                &&& !sgn ==> rv.out->0.uval() as int == masked32(
                    (if left_op {
                        T::spec_uns((constant as u32) as nat, crate::vector3vl::view_uval(v))
                    } else {
                        T::spec_uns(crate::vector3vl::view_uval(v), (constant as u32) as nat)
                    }),
                    bits,
                )
            }
        },
        r is Err ==> (r->Err_0 == CellError::MissingInput || r->Err_0
            == CellError::UnsupportedEncoding),
{
    let vecl = match args.get("in") {
        Some(v) => v,
        None => {
            return Err(CellError::MissingInput);
        },
    };
    if vecl.bits > 32 {
        return Err(CellError::UnsupportedEncoding);
    }
    if !vecl.is_fully_defined() {
        return crate::operations::ReturnValue::out(Vec3vl::xes(bits));
    }
    let a = unsigned_value(vecl);
    let result: u32 = if sgn {
        let s_a = signed_value(vecl);
        let s_b = constant;
        if left_op {
            as_word(T::op_const_sig(s_b, s_a))
        } else {
            as_word(T::op_const_sig(s_a, s_b))
        }
    } else {
        let u_a = a;
        let u_b = #[verifier::truncate] (constant as u32);
        if left_op {
            T::op_const_uns(u_b, u_a)
        } else {
            T::op_const_uns(u_a, u_b)
        }
    };
    crate::operations::ReturnValue::out(Vec3vl::from_number(result, bits))
}

/// Evaluate a comparator cell on `in1` and `in2`: a one-bit result,
/// X if either operand has an X bit.
pub fn arith_comp<T: ArithCompStruct>(args: &crate::sigmap::SigMap, sgn: (bool, bool)) -> (r:
    Result<crate::operations::ReturnValue, CellError>)
    requires
        args.wf(),
        args.values_wf(),
    ensures
        !has_two(args@) ==> r == Result::<crate::operations::ReturnValue, CellError>::Err(
            CellError::MissingInput,
        ),
        r is Ok <==> (has_two(args@) && {
            let l = args@["in1"@];
            let rr = args@["in2"@];
            ||| !(crate::vector3vl::view_defined(l) && crate::vector3vl::view_defined(rr))
            ||| (l.bits <= 32 && rr.bits <= 32)
            ||| (word_count(l.bits as nat) <= 64 && word_count(rr.bits as nat) <= 64)
        }),
        r is Ok ==> {
            let rv = r->Ok_0;
            let l = args@["in1"@];
            let rr = args@["in2"@];
            let defined = crate::vector3vl::view_defined(l) && crate::vector3vl::view_defined(rr);
            &&& rv.out is Some
            &&& !rv.clock
            &&& rv.out->0.bits == 1
            &&& rv.out->0.well_formed()
            &&& !defined ==> rv.out->0.tri_at(0) == 0i32
            &&& (defined && l.bits <= 32 && rr.bits <= 32) ==> rv.out->0.tri_at(0) == (if (sgn.0
                && sgn.1) {
                if T::spec_sig(
                    crate::vector3vl::view_sval(l),
                    crate::vector3vl::view_sval(rr),
                ) {
                    1i32
                } else {
                    -1i32
                }
            } else {
                if T::spec_uns(
                    crate::vector3vl::view_uval(l),
                    crate::vector3vl::view_uval(rr),
                ) {
                    1i32
                } else {
                    -1i32
                }
            })
            &&& (defined && (l.bits > 32 || rr.bits > 32)) ==> rv.out->0.tri_at(0) == (if T::spec_uns(
                crate::vector3vl::view_uval(l),
                crate::vector3vl::view_uval(rr),
            ) {
                1i32
            } else {
                -1i32
            })
        },
        r is Err ==> (r->Err_0 == CellError::MissingInput || r->Err_0
            == CellError::UnsupportedEncoding),
{
    let vecl = match args.get("in1") {
        Some(v) => v,
        None => {
            return Err(CellError::MissingInput);
        },
    };
    let vecr = match args.get("in2") {
        Some(v) => v,
        None => {
            return Err(CellError::MissingInput);
        },
    };
    if !vecl.is_fully_defined() || !vecr.is_fully_defined() {
        return crate::operations::ReturnValue::out(Vec3vl::xes(1));
    }
    let result: bool = if vecl.bits <= 32 && vecr.bits <= 32 {
        if sgn.0 && sgn.1 {
            T::op_const_sig(signed_value(vecl), signed_value(vecr))
        } else {
            T::op_const_uns(unsigned_value(vecl), unsigned_value(vecr))
        }
    } else {
        let lb = match vecl.to_biguint() {
            Ok(b) => b,
            Err(e) => {
                return Err(e);
            },
        };
        let rb = match vecr.to_biguint() {
            Ok(b) => b,
            Err(e) => {
                return Err(e);
            },
        };
        T::op_big(&lb, &rb)
    };
    crate::operations::ReturnValue::out(Vec3vl::make_bool(1, result))
}

/// Evaluate a constant-operand comparator cell on `in`.  Only inputs
/// of at most 32 bits are supported.
pub fn arith_const_comp<T: ArithCompStruct>(
    args: &crate::sigmap::SigMap,
    constant: i32,
    left_op: bool,
    sgn: bool,
) -> (r: Result<crate::operations::ReturnValue, CellError>)
    requires
        args.wf(),
        args.values_wf(),
    ensures
        !args@.contains_key("in"@) ==> r == Result::<
            crate::operations::ReturnValue,
            CellError,
        >::Err(CellError::MissingInput),
        r is Ok <==> (args@.contains_key("in"@) && args@["in"@].bits <= 32),
        r is Ok ==> {
            let rv = r->Ok_0;
            let v = args@["in"@];
            &&& rv.out is Some
            &&& !rv.clock
            &&& rv.out->0.bits == 1
            &&& rv.out->0.well_formed()
            &&& !crate::vector3vl::view_defined(v) ==> rv.out->0.tri_at(0) == 0i32
            &&& crate::vector3vl::view_defined(v) ==> rv.out->0.tri_at(0) == (if sgn {
                if (if left_op {
                    T::spec_sig(constant as int, crate::vector3vl::view_sval(v))
                } else {
                    T::spec_sig(crate::vector3vl::view_sval(v), constant as int)
                }) {
                    1i32
                } else {
                    -1i32
                }
            } else {
                if (if left_op {
                    T::spec_uns((constant as u32) as nat, crate::vector3vl::view_uval(v))
                } else {
                    T::spec_uns(crate::vector3vl::view_uval(v), (constant as u32) as nat)
                }) {
                    1i32
                } else {
                    -1i32
                }
            })
        },
        r is Err ==> (r->Err_0 == CellError::MissingInput || r->Err_0
            == CellError::UnsupportedEncoding),
{
    let vecl = match args.get("in") {
        Some(v) => v,
        None => {
            return Err(CellError::MissingInput);
        },
    };
    if vecl.bits > 32 {
        return Err(CellError::UnsupportedEncoding);
    }
    if !vecl.is_fully_defined() {
        return crate::operations::ReturnValue::out(Vec3vl::xes(1));
    }
    let result: bool = if sgn {
        let s_a = signed_value(vecl);
        if left_op {
            T::op_const_sig(constant, s_a)
        } else {
            T::op_const_sig(s_a, constant)
        }
    } else {
        let u_a = unsigned_value(vecl);
        let u_b = #[verifier::truncate] (constant as u32);
        if left_op {
            T::op_const_uns(u_b, u_a)
        } else {
            T::op_const_uns(u_a, u_b)
        }
    };
    crate::operations::ReturnValue::out(Vec3vl::make_bool(1, result))
}


/// The shift amount a signed right operand denotes: a negative amount
/// reverses the direction.
pub open spec fn shift_reversed(r: crate::vector3vl::Vec3vlV) -> bool {
    crate::vector3vl::view_sval(r) < 0
}

/// Evaluate a shift cell on `in1` (data) and `in2` (amount).  A signed
/// negative amount shifts the other way; the right shift is arithmetic
/// exactly when the data operand is signed.  The amount operand must be
/// at most 32 bits wide when the data is wide.
pub fn arith_shift<L: ArithShiftStruct, R: ArithShiftStruct>(
    args: &crate::sigmap::SigMap,
    bits: u32,
    sgn: (bool, bool),
) -> (r: Result<crate::operations::ReturnValue, CellError>)
    requires
        args.wf(),
        args.values_wf(),
    ensures
        !has_two(args@) ==> r == Result::<crate::operations::ReturnValue, CellError>::Err(
            CellError::MissingInput,
        ),
        r is Ok <==> (has_two(args@) && {
            let l = args@["in1"@];
            let rr = args@["in2"@];
            ||| !(crate::vector3vl::view_defined(l) && crate::vector3vl::view_defined(rr))
            ||| (rr.bits <= 32 && (l.bits <= 32 || word_count(l.bits as nat) <= 64))
        }),
        r is Ok ==> {
            let rv = r->Ok_0;
            let l = args@["in1"@];
            let rr = args@["in2"@];
            let defined = crate::vector3vl::view_defined(l) && crate::vector3vl::view_defined(rr);
            let rev = sgn.1 && shift_reversed(rr);
            let amount: nat = if rev {
                (-crate::vector3vl::view_sval(rr)) as nat
            } else {
                crate::vector3vl::view_uval(rr)
            };
            &&& rv.out is Some
            &&& !rv.clock
            &&& rv.out->0.bits == bits
            &&& rv.out->0.well_formed()
            &&& !defined ==> forall|i: nat| i < bits ==> #[trigger] rv.out->0.tri_at(i) == 0i32
            &&& (defined && l.bits <= 32 && rr.bits <= 32) ==> {
                &&& rv.out->0.all_defined()
                &&& sgn.0 ==> rv.out->0.uval() as int == masked32(
                    (if rev {
                        R::spec_sig(crate::vector3vl::view_sval(l), amount)
                    } else {
                        L::spec_sig(crate::vector3vl::view_sval(l), amount)
                    }),
                    bits,
                )
                &&& !sgn.0 ==> rv.out->0.uval() as int == masked32(
                    (if rev {
                        R::spec_uns(crate::vector3vl::view_uval(l), amount)
                    } else {
                        L::spec_uns(crate::vector3vl::view_uval(l), amount)
                    }),
                    bits,
                )
            }
            &&& (defined && l.bits > 32 && rr.bits <= 32) ==> {
                &&& rv.out->0.all_defined()
                &&& rv.out->0.uval() as int == masked_big(
                    (if rev {
                        R::spec_uns(crate::vector3vl::view_uval(l), amount)
                    } else {
                        L::spec_uns(crate::vector3vl::view_uval(l), amount)
                    }),
                    bits,
                )
            }
        },
        r is Err ==> (r->Err_0 == CellError::MissingInput || r->Err_0
            == CellError::UnsupportedEncoding),
{
    let vecl = match args.get("in1") {
        Some(v) => v,
        None => {
            return Err(CellError::MissingInput);
        },
    };
    let vecr = match args.get("in2") {
        Some(v) => v,
        None => {
            return Err(CellError::MissingInput);
        },
    };
    if !vecl.is_fully_defined() || !vecr.is_fully_defined() {
        return crate::operations::ReturnValue::out(Vec3vl::xes(bits));
    }
    if vecr.bits > 32 {
        return Err(CellError::UnsupportedEncoding);
    }
    let u_r = unsigned_value(vecr);
    let s_r = signed_value(vecr);
    let reversed = sgn.1 && s_r < 0;
    let amount: u32 = if reversed {
        proof {
            assert(s_r >= -0x8000_0000i64);
        }
        #[verifier::truncate] ((-(s_r as i64)) as u32)
    } else {
        u_r
    };
    proof {
        crate::cell_mux::lemma_uval_bound(*vecr, vecr.bits as nat);
        if vecr.bits == 32 {
            vstd::arithmetic::power2::lemma2_to64();
        } else {
            vstd::arithmetic::power2::lemma_pow2_strictly_increases(vecr.bits as nat, 32);
            vstd::arithmetic::power2::lemma2_to64();
        }
    }
    if vecl.bits <= 32 {
        let result: u32 = if sgn.0 {
            let s_l = signed_value(vecl);
            if reversed {
                as_word(R::op_const_sig(s_l, amount))
            } else {
                as_word(L::op_const_sig(s_l, amount))
            }
        } else {
            let u_l = unsigned_value(vecl);
            if reversed {
                R::op_const_uns(u_l, amount)
            } else {
                L::op_const_uns(u_l, amount)
            }
        };
        crate::operations::ReturnValue::out(Vec3vl::from_number(result, bits))
    } else {
        let lb = match vecl.to_biguint() {
            Ok(b) => b,
            Err(e) => {
                return Err(e);
            },
        };
        let result = if reversed {
            R::op_big(&lb, amount)
        } else {
            L::op_big(&lb, amount)
        };
        crate::operations::ReturnValue::out(Vec3vl::from_biguint(&result, bits))
    }
}

/// Evaluate a constant-amount (or constant-data) shift cell on `in`.
/// Only inputs of at most 32 bits are supported; with `left_op` the
/// constant is the data and the input is the amount.
pub fn arith_shift_const<L: ArithShiftStruct, R: ArithShiftStruct>(
    args: &crate::sigmap::SigMap,
    constant: i32,
    left_op: bool,
    bits: u32,
    sgn: bool,
) -> (r: Result<crate::operations::ReturnValue, CellError>)
    requires
        args.wf(),
        args.values_wf(),
    ensures
        !args@.contains_key("in"@) ==> r == Result::<
            crate::operations::ReturnValue,
            CellError,
        >::Err(CellError::MissingInput),
        r is Ok <==> (args@.contains_key("in"@) && args@["in"@].bits <= 32),
        r is Ok ==> {
            let rv = r->Ok_0;
            let v = args@["in"@];
            &&& rv.out is Some
            &&& !rv.clock
            &&& rv.out->0.bits == bits
            &&& rv.out->0.well_formed()
            &&& !crate::vector3vl::view_defined(v) ==> forall|i: nat|
                i < bits ==> #[trigger] rv.out->0.tri_at(i) == 0i32
            &&& (crate::vector3vl::view_defined(v) && left_op) ==> {
                let rev = sgn && crate::vector3vl::view_sval(v) < 0;
                let amount: nat = if rev {
                    (-crate::vector3vl::view_sval(v)) as nat
                } else {
                    crate::vector3vl::view_uval(v)
                };
                &&& rv.out->0.all_defined()
                &&& constant < 0 ==> rv.out->0.uval() as int == masked32(
                    (if rev {
                        R::spec_sig(constant as int, amount)
                    } else {
                        L::spec_sig(constant as int, amount)
                    }),
                    bits,
                )
                &&& constant >= 0 ==> rv.out->0.uval() as int == masked32(
                    (if rev {
                        R::spec_uns(constant as nat, amount)
                    } else {
                        L::spec_uns(constant as nat, amount)
                    }),
                    bits,
                )
            }
            &&& (crate::vector3vl::view_defined(v) && !left_op) ==> {
                let rev = constant < 0;
                let amount: nat = if rev {
                    (-constant) as nat
                } else {
                    constant as nat
                };
                &&& rv.out->0.all_defined()
                &&& sgn ==> rv.out->0.uval() as int == masked32(
                    (if rev {
                        R::spec_sig(crate::vector3vl::view_sval(v), amount)
                    } else {
                        L::spec_sig(crate::vector3vl::view_sval(v), amount)
                    }),
                    bits,
                )
                &&& !sgn ==> rv.out->0.uval() as int == masked32(
                    (if rev {
                        R::spec_uns(crate::vector3vl::view_uval(v), amount)
                    } else {
                        L::spec_uns(crate::vector3vl::view_uval(v), amount)
                    }),
                    bits,
                )
            }
        },
        r is Err ==> (r->Err_0 == CellError::MissingInput || r->Err_0
            == CellError::UnsupportedEncoding),
{
    let vecl = match args.get("in") {
        Some(v) => v,
        None => {
            return Err(CellError::MissingInput);
        },
    };
    if vecl.bits > 32 {
        return Err(CellError::UnsupportedEncoding);
    }
    if !vecl.is_fully_defined() {
        return crate::operations::ReturnValue::out(Vec3vl::xes(bits));
    }
    let u_in = unsigned_value(vecl);
    let s_in = signed_value(vecl);
    let c_u: u32 = if constant >= 0 {
        constant as u32
    } else {
        #[verifier::truncate] (constant as u32)
    };
    let result: u32 = if left_op {
        // the constant is the data, the input is the amount
        let rev = sgn && s_in < 0;
        let amount: u32 = if rev {
            proof {
                assert(s_in >= -0x8000_0000i64);
            }
            #[verifier::truncate] ((-(s_in as i64)) as u32)
        } else {
            u_in
        };
        proof {
            crate::cell_mux::lemma_uval_bound(*vecl, vecl.bits as nat);
            if vecl.bits == 32 {
                vstd::arithmetic::power2::lemma2_to64();
            } else {
                vstd::arithmetic::power2::lemma_pow2_strictly_increases(vecl.bits as nat, 32);
                vstd::arithmetic::power2::lemma2_to64();
            }
        }
        if constant < 0 {
            if rev {
                as_word(R::op_const_sig(constant, amount))
            } else {
                as_word(L::op_const_sig(constant, amount))
            }
        } else {
            if rev {
                R::op_const_uns(c_u, amount)
            } else {
                L::op_const_uns(c_u, amount)
            }
        }
    } else {
        // the constant is the amount
        let rev = constant < 0;
        let amount: u32 = if rev {
            proof {
                assert(constant >= -0x8000_0000i64);
            }
            #[verifier::truncate] ((-(constant as i64)) as u32)
        } else {
            c_u
        };
        if sgn {
            if rev {
                as_word(R::op_const_sig(s_in, amount))
            } else {
                as_word(L::op_const_sig(s_in, amount))
            }
        } else {
            if rev {
                R::op_const_uns(u_in, amount)
            } else {
                L::op_const_uns(u_in, amount)
            }
        }
    };
    crate::operations::ReturnValue::out(Vec3vl::from_number(result, bits))
}

} // verus!






