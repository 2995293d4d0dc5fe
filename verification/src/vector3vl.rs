//! Three-valued (0 / 1 / X) fixed-width bit vectors.
//!
//! A vector of `bits` bits is stored as two parallel arrays of 32-bit words,
//! `avec` and `bvec`.  Bit `i` decodes as: `(0,0)` = low, `(1,1)` = high and
//! anything else = unknown ("X").  The canonical X encoding is `(0,1)`; the
//! alternate encoding `(1,0)` arises from negation identities and is treated
//! as X by every consumer.  Bits beyond `bits` in the last word are junk and
//! are masked off by [`Vec3vl::normalize`] before comparison or packing.

use vstd::prelude::*;

use crate::errors::CellError;

verus! {

/// Number of 32-bit words needed to store `bits` bits.
pub open spec fn word_count(bits: nat) -> nat {
    (bits + 31) / 32
}

/// The mask that keeps the valid bits of the last storage word
/// (a full word when `bits` is a multiple of 32).
pub open spec fn lastmask_of(bits: u32) -> u32 {
    if bits % 32 == 0 {
        0xffff_ffffu32
    } else {
        0xffff_ffffu32 >> (32 - (bits % 32))
    }
}

/// Bit `b` of the word `w`.
pub open spec fn raw_bit(w: u32, b: nat) -> bool {
    (w >> (b as u32)) & 1 == 1
}

/// Three-valued AND (`-1` = low, `0` = X, `1` = high).
pub open spec fn tri_and(x: i32, y: i32) -> i32 {
    if x == -1 || y == -1 {
        -1i32
    } else if x == 1 && y == 1 {
        1
    } else {
        0
    }
}

/// Three-valued OR.
pub open spec fn tri_or(x: i32, y: i32) -> i32 {
    if x == 1 || y == 1 {
        1
    } else if x == -1 && y == -1 {
        -1i32
    } else {
        0
    }
}

/// Three-valued XOR: X dominates, otherwise ordinary exclusive or.
pub open spec fn tri_xor(x: i32, y: i32) -> i32 {
    if x == 0 || y == 0 {
        0
    } else if x == y {
        -1i32
    } else {
        1
    }
}

/// Three-valued NOT.
pub open spec fn tri_not(x: i32) -> i32 {
    if x == 1 {
        -1i32
    } else if x == -1 {
        1
    } else {
        0
    }
}


/// A vector of `n` copies of `val`.
pub fn filled_vec(val: u32, n: usize) -> (r: Vec<u32>)
    ensures
        r@.len() == n,
        forall|k: int| 0 <= k < n ==> #[trigger] r@[k] == val,
{
    let mut r: Vec<u32> = Vec::new();
    let mut i: usize = 0;
    while i < n
        invariant
            i <= n,
            r@.len() == i,
            forall|k: int| 0 <= k < i ==> #[trigger] r@[k] == val,
        decreases n - i,
    {
        r.push(val);
        i = i + 1;
    }
    r
}

/// A bit index below the width lands inside the storage words.
pub proof fn lemma_bit_word_index(bits: nat, i: nat)
    requires
        i < bits,
    ensures
        i / 32 < word_count(bits),
        i % 32 < 32,
{
    assert(i / 32 < (bits + 31) / 32) by (nonlinear_arith)
        requires
            i < bits,
    ;
}

pub struct Vec3vl {
    pub bits: u32,
    pub avec: Vec<u32>,
    pub bvec: Vec<u32>,
}

/// The mathematical content of a [`Vec3vl`]: its width and the two word
/// sequences.
pub ghost struct Vec3vlV {
    pub bits: u32,
    pub avec: Seq<u32>,
    pub bvec: Seq<u32>,
}

impl View for Vec3vl {
    type V = Vec3vlV;

    open spec fn view(&self) -> Vec3vlV {
        Vec3vlV { bits: self.bits, avec: self.avec@, bvec: self.bvec@ }
    }
}

/// Well-formedness of the mathematical content: both word sequences
/// have exactly the storage the width asks for.
pub open spec fn view_wf(v: Vec3vlV) -> bool {
    v.avec.len() == word_count(v.bits as nat) && v.bvec.len() == word_count(v.bits as nat)
}

/// Junk bits of the last word of the content are zero in both arrays.
pub open spec fn view_normalized(v: Vec3vlV) -> bool {
    &&& view_wf(v)
    &&& v.avec.len() > 0 ==> {
        &&& v.avec.last() & lastmask_of(v.bits) == v.avec.last()
        &&& v.bvec.last() & lastmask_of(v.bits) == v.bvec.last()
    }
}

/// Raw `avec` bit `i` of a vector's content.
pub open spec fn view_abit(v: Vec3vlV, i: nat) -> bool {
    raw_bit(v.avec[i as int / 32], i % 32)
}

/// Raw `bvec` bit `i` of a vector's content.
pub open spec fn view_bbit(v: Vec3vlV, i: nat) -> bool {
    raw_bit(v.bvec[i as int / 32], i % 32)
}

/// The three-valued content of bit `i`: `-1` low, `0` X, `1` high.
pub open spec fn view_tri(v: Vec3vlV, i: nat) -> i32 {
    if view_abit(v, i) && view_bbit(v, i) {
        1
    } else if !view_abit(v, i) && !view_bbit(v, i) {
        -1i32
    } else {
        0
    }
}

/// No bit of the content is X.
pub open spec fn view_defined(v: Vec3vlV) -> bool {
    forall|i: nat| i < v.bits ==> #[trigger] view_tri(v, i) != 0i32
}

/// Some bit of the content carries the three-valued value `t`.
pub open spec fn view_has_tri(v: Vec3vlV, t: i32) -> bool {
    exists|i: nat| i < v.bits && #[trigger] view_tri(v, i) == t
}

/// Whether the number of high bits below `n` is odd.
pub open spec fn view_odd_ones(v: Vec3vlV, n: nat) -> bool
    decreases n,
{
    if n == 0 {
        false
    } else {
        view_odd_ones(v, (n - 1) as nat) != (view_tri(v, (n - 1) as nat) == 1)
    }
}

impl Vec3vl {
    /// Both word arrays have exactly the storage the width asks for.
    #[verifier::inline]
    pub open spec fn well_formed(self) -> bool {
        view_wf(self@)
    }

    /// Junk bits of the last word are zero in both arrays.
    #[verifier::inline]
    pub open spec fn is_normalized(self) -> bool {
        view_normalized(self@)
    }

    /// No bit (junk included) uses the alternate X encoding `(1,0)`.
    pub open spec fn canonical(self) -> bool {
        forall|k: int|
            0 <= k < self.avec@.len() ==> #[trigger] self.avec@[k] & !self.bvec@[k] == 0
    }

    /// Raw `avec` bit `i` of the vector.
    #[verifier::inline]
    pub open spec fn abit(self, i: nat) -> bool {
        view_abit(self@, i)
    }

    /// Raw `bvec` bit `i` of the vector.
    #[verifier::inline]
    pub open spec fn bbit(self, i: nat) -> bool {
        view_bbit(self@, i)
    }

    /// The three-valued content of bit `i`: `-1` low, `0` X, `1` high.
    #[verifier::inline]
    pub open spec fn tri_at(self, i: nat) -> i32 {
        view_tri(self@, i)
    }

    /// All bits in the range are defined (none is X).
    pub open spec fn all_defined(self) -> bool {
        forall|i: nat| i < self.bits ==> #[trigger] self.tri_at(i) != 0
    }

    pub fn new(bits: u32, avec: Vec<u32>, bvec: Vec<u32>) -> (r: Vec3vl)
        ensures
            r.bits == bits,
            r.avec == avec,
            r.bvec == bvec,
    {
        Vec3vl { bits, avec, bvec }
    }

    /// Number of storage words for a width, as executable code.
    pub fn word_len(bits: u32) -> (r: usize)
        ensures
            r == word_count(bits as nat),
    {
        ((bits as u64 + 31) / 32) as usize
    }

    pub fn make_bool(bits: u32, init: bool) -> (r: Vec3vl)
        ensures
            r.bits == bits,
            r.well_formed(),
            forall|k: int|
                0 <= k < r.avec@.len() ==> #[trigger] r.avec@[k] == (if init { 0xffff_ffffu32 } else { 0u32 }),
            forall|k: int|
                0 <= k < r.bvec@.len() ==> #[trigger] r.bvec@[k] == (if init { 0xffff_ffffu32 } else { 0u32 }),
            forall|i: nat| i < bits ==> #[trigger] r.tri_at(i) == (if init { 1i32 } else { -1i32 }),
    {
        let (iva, ivb) = if init { (0xffff_ffffu32, 0xffff_ffffu32) } else { (0u32, 0u32) };
        let words = Self::word_len(bits);
        let v = Vec3vl { bits, avec: filled_vec(iva, words), bvec: filled_vec(ivb, words) };
        proof {
            assert forall|i: nat| i < bits implies #[trigger] v.tri_at(i) == (if init { 1i32 } else { -1i32 }) by {
                lemma_bit_word_index(bits as nat, i);
                lemma_raw_bit_const(i % 32);
            }
        }
        v
    }

    pub fn make_int(bits: u32, init: i32) -> (r: Result<Vec3vl, CellError>)
        ensures
            (init == 1 || init == 0 || init == -1) <==> r is Ok,
            r is Ok ==> {
                let v = r->Ok_0;
                &&& v.bits == bits
                &&& v.well_formed()
                &&& forall|k: int|
                    0 <= k < v.avec@.len() ==> #[trigger] v.avec@[k] == (if init == 1 { 0xffff_ffffu32 } else { 0u32 })
                &&& forall|k: int|
                    0 <= k < v.bvec@.len() ==> #[trigger] v.bvec@[k] == (if init == -1 { 0u32 } else { 0xffff_ffffu32 })
                &&& forall|i: nat| i < bits ==> #[trigger] v.tri_at(i) == init
            },
    {
        let (iva, ivb) = match init {
            1 => (0xffff_ffffu32, 0xffff_ffffu32),
            0 => (0u32, 0xffff_ffffu32),
            -1 => (0u32, 0u32),
            _ => {
                return Err(CellError::UnsupportedEncoding);
            },
        };
        let words = Self::word_len(bits);
        let v = Vec3vl { bits, avec: filled_vec(iva, words), bvec: filled_vec(ivb, words) };
        proof {
            assert forall|i: nat| i < bits implies #[trigger] v.tri_at(i) == init by {
                lemma_bit_word_index(bits as nat, i);
                lemma_raw_bit_const(i % 32);
            }
        }
        Ok(v)
    }

    pub fn make_str(bits: u32, init: &str) -> (r: Result<Vec3vl, CellError>)
        ensures
            r is Ok ==> {
                let v = r->Ok_0;
                &&& v.bits == bits
                &&& v.well_formed()
            },
    {
        let one = "1";
        let zero = "0";
        let ex = "x";
        if str_eq(init, one) {
            Self::make_int(bits, 1)
        } else if str_eq(init, zero) {
            Self::make_int(bits, -1)
        } else if str_eq(init, ex) {
            Self::make_int(bits, 0)
        } else {
            Err(CellError::UnsupportedEncoding)
        }
    }

    /// All-low vector.
    pub fn zeros(bits: u32) -> (r: Vec3vl)
        ensures
            r.bits == bits,
            r.well_formed(),
            r.is_normalized(),
            r.canonical(),
            forall|k: int| 0 <= k < r.avec@.len() ==> #[trigger] r.avec@[k] == 0u32,
            forall|k: int| 0 <= k < r.bvec@.len() ==> #[trigger] r.bvec@[k] == 0u32,
            forall|i: nat| i < bits ==> #[trigger] r.tri_at(i) == -1i32,
    {
        let r = Self::make_bool(bits, false);
        proof {
            lemma_word_ops_auto();
        }
        r
    }

    /// All-high vector.  Note: every stored word is all-ones, so the junk
    /// bits of the last word are set (the vector is not normalized unless
    /// the width fills its words exactly).
    pub fn ones(bits: u32) -> (r: Vec3vl)
        ensures
            r.bits == bits,
            r.well_formed(),
            r.canonical(),
            forall|k: int| 0 <= k < r.avec@.len() ==> #[trigger] r.avec@[k] == 0xffff_ffffu32,
            forall|k: int| 0 <= k < r.bvec@.len() ==> #[trigger] r.bvec@[k] == 0xffff_ffffu32,
            forall|i: nat| i < bits ==> #[trigger] r.tri_at(i) == 1i32,
    {
        let r = Self::make_bool(bits, true);
        proof {
            lemma_word_ops_auto();
        }
        r
    }

    /// All-X vector (canonical encoding).
    pub fn xes(bits: u32) -> (r: Vec3vl)
        ensures
            r.bits == bits,
            r.well_formed(),
            r.canonical(),
            forall|k: int| 0 <= k < r.avec@.len() ==> #[trigger] r.avec@[k] == 0u32,
            forall|k: int| 0 <= k < r.bvec@.len() ==> #[trigger] r.bvec@[k] == 0xffff_ffffu32,
            forall|i: nat| i < bits ==> #[trigger] r.tri_at(i) == 0i32,
    {
        let words = Self::word_len(bits);
        let v = Vec3vl { bits, avec: filled_vec(0u32, words), bvec: filled_vec(0xffff_ffffu32, words) };
        proof {
            lemma_word_ops_auto();
            assert forall|i: nat| i < bits implies #[trigger] v.tri_at(i) == 0i32 by {
                lemma_bit_word_index(bits as nat, i);
                lemma_raw_bit_const(i % 32);
            }
        }
        v
    }

    /// Mask the junk bits of the last word to zero.
    pub fn normalize(&mut self)
        requires
            old(self).well_formed(),
        ensures
            final(self).bits == old(self).bits,
            final(self).is_normalized(),
            final(self).avec@.len() == old(self).avec@.len(),
            final(self).bvec@.len() == old(self).bvec@.len(),
            forall|k: int|
                0 <= k < old(self).avec@.len() - 1 ==> #[trigger] final(self).avec@[k] == old(self).avec@[k],
            forall|k: int|
                0 <= k < old(self).bvec@.len() - 1 ==> #[trigger] final(self).bvec@[k] == old(self).bvec@[k],
            old(self).avec@.len() > 0 ==> {
                &&& final(self).avec@.last() == old(self).avec@.last() & lastmask_of(old(self).bits)
                &&& final(self).bvec@.last() == old(self).bvec@.last() & lastmask_of(old(self).bits)
            },
            forall|i: nat| i < old(self).bits ==> #[trigger] final(self).abit(i) == old(self).abit(i),
            forall|i: nat| i < old(self).bits ==> #[trigger] final(self).bbit(i) == old(self).bbit(i),
            old(self).is_normalized() ==> final(self).avec@ == old(self).avec@
                && final(self).bvec@ == old(self).bvec@,
    {
        let ghost prev = *self;
        if self.avec.len() == 0 {
            return ;
        }
        let mask = Self::lastmask(self.bits);
        let last_a = self.avec.len() - 1;
        let last_b = self.bvec.len() - 1;
        let na = self.avec[last_a] & mask;
        let nb = self.bvec[last_b] & mask;
        self.avec.set(last_a, na);
        self.bvec.set(last_b, nb);
        proof {
            lemma_word_ops_auto();
            assert forall|i: nat| i < prev.bits implies #[trigger] self.abit(i) == prev.abit(i) by {
                lemma_bit_word_index(prev.bits as nat, i);
                if i as int / 32 == last_a as int {
                    lemma_in_range_bit_mask(prev.avec@.last(), prev.bits, i);
                }
            }
            assert forall|i: nat| i < prev.bits implies #[trigger] self.bbit(i) == prev.bbit(i) by {
                lemma_bit_word_index(prev.bits as nat, i);
                if i as int / 32 == last_a as int {
                    lemma_in_range_bit_mask(prev.bvec@.last(), prev.bits, i);
                }
            }
            if prev.is_normalized() {
                assert(self.avec@ =~= prev.avec@);
                assert(self.bvec@ =~= prev.bvec@);
            }
        }
    }

    /// The mask of valid bits in the last storage word.
    pub fn lastmask(bits: u32) -> (r: u32)
        ensures
            r == lastmask_of(bits),
    {
        if bits % 32 == 0 {
            0xffff_ffffu32
        } else {
            0xffff_ffffu32 >> (32 - bits % 32)
        }
    }
}

/// Compare two string slices; equality means equal character sequences.
pub fn str_eq(a: &str, b: &str) -> (r: bool)
    ensures
        r == (a@ == b@),
{
    let sa = a.to_owned();
    let sb = b.to_owned();
    sa == sb
}

/// Any fixed bit of a constant-filled word: all-ones gives 1, zero gives 0.
pub proof fn lemma_raw_bit_const(b: nat)
    requires
        b < 32,
    ensures
        raw_bit(0xffff_ffffu32, b),
        !raw_bit(0u32, b),
{
    let bb = b as u32;
    assert((0xffff_ffffu32 >> bb) & 1 == 1 && (0u32 >> bb) & 1 == 0) by (bit_vector)
        requires
            bb < 32,
    ;
}

/// Ubiquitous word-level facts: zero and all-ones behaviour of `&` and `!`,
/// and idempotence of masking.
pub proof fn lemma_word_ops_auto()
    by (bit_vector)
    ensures
        forall|m: u32| #[trigger] (0u32 & m) == 0u32,
        forall|m: u32| #[trigger] (m & 0u32) == 0u32,
        forall|m: u32| #[trigger] (0xffff_ffffu32 & m) == m,
        forall|m: u32| #[trigger] (m & 0xffff_ffffu32) == m,
        forall|w: u32, m: u32| #[trigger] ((w & m) & m) == w & m,
        !0xffff_ffffu32 == 0u32,
        !0u32 == 0xffff_ffffu32,
{
}

/// Bits of a word below the width survive masking with the last-word mask.
pub proof fn lemma_in_range_bit_mask(w: u32, bits: u32, i: nat)
    requires
        i < bits,
        i as int / 32 == word_count(bits as nat) - 1,
    ensures
        raw_bit(w & lastmask_of(bits), i % 32) == raw_bit(w, i % 32),
{
    let b = (i % 32) as u32;
    if bits % 32 == 0 {
        assert(((w & 0xffff_ffffu32) >> b) & 1 == (w >> b) & 1) by (bit_vector);
    } else {
        let r = bits % 32;
        assert(b < r) by {
            lemma_last_word_offset(bits, i);
        }
        let sh: u32 = (32 - r) as u32;
        assert(((w & (0xffff_ffffu32 >> sh)) >> b) & 1 == (w >> b) & 1) by (bit_vector)
            requires
                sh + r == 32,
                0 < r < 32,
                b < r,
        ;
        assert(0xffff_ffffu32 >> sh == lastmask_of(bits));
    }
}

/// A bit index below the width, falling in the last word, has offset below
/// `bits % 32` when the width does not fill the word.
pub proof fn lemma_last_word_offset(bits: u32, i: nat)
    requires
        i < bits,
        bits % 32 != 0,
        i as int / 32 == word_count(bits as nat) - 1,
    ensures
        i % 32 < bits % 32,
{
    let w = word_count(bits as nat);
    assert(w == (bits + 31) / 32);
    assert(i == (i as int / 32) * 32 + (i % 32));
    assert(bits as nat == ((bits as nat) / 32) * 32 + (bits as nat) % 32) by (nonlinear_arith);
    assert((bits + 31) / 32 == (bits as nat) / 32 + 1) by (nonlinear_arith)
        requires
            bits % 32 != 0,
            bits < 0x1_0000_0000,
    ;
}


/// Bitwise behaviour of `&`, `|`, `^` and `!` at a single bit position.
pub proof fn lemma_raw_bit_ops(x: u32, y: u32, b: u32)
    by (bit_vector)
    requires
        b < 32,
    ensures
        raw_bit(x & y, b as nat) == (raw_bit(x, b as nat) && raw_bit(y, b as nat)),
        raw_bit(x | y, b as nat) == (raw_bit(x, b as nat) || raw_bit(y, b as nat)),
        raw_bit(x ^ y, b as nat) == (raw_bit(x, b as nat) != raw_bit(y, b as nat)),
        raw_bit(!x, b as nat) == !raw_bit(x, b as nat),
{
}

/// In a canonically encoded word pair, an `avec` bit implies its `bvec` bit.
pub proof fn lemma_canonical_bit(a: u32, b: u32, i: u32)
    by (bit_vector)
    requires
        a & !b == 0,
        i < 32,
    ensures
        raw_bit(a, i as nat) ==> raw_bit(b, i as nat),
{
}

/// The word formulas of the logic operations keep the canonical encoding.
pub proof fn lemma_canonical_ops(a1: u32, b1: u32, a2: u32, b2: u32)
    by (bit_vector)
    requires
        a1 & !b1 == 0,
        a2 & !b2 == 0,
    ensures
        (a1 & a2) & !(b1 & b2) == 0,
        (a1 | a2) & !(b1 | b2) == 0,
        ((a1 | a2) & (b1 ^ b2)) & !((a1 & a2) ^ (b1 | b2)) == 0,
        (!(b1 & b2)) & !(!(a1 & a2)) == 0,
        (!(b1 | b2)) & !(!(a1 | a2)) == 0,
        (!((a1 & a2) ^ (b1 | b2))) & !(!((a1 | a2) & (b1 ^ b2))) == 0,
{
}

impl Vec3vl {
    /// Three-valued AND, bitwise.  Fails iff the widths differ.
    pub fn and(&self, v: &Vec3vl) -> (r: Result<Vec3vl, CellError>)
        requires
            self.well_formed(),
            v.well_formed(),
        ensures
            r is Ok <==> self.bits == v.bits,
            r is Err ==> r->Err_0 == CellError::WidthMismatch,
            r is Ok ==> {
                let o = r->Ok_0;
                &&& o.bits == self.bits
                &&& o.well_formed()
                &&& forall|k: int|
                    0 <= k < o.avec@.len() ==> #[trigger] o.avec@[k] == self.avec@[k] & v.avec@[k]
                &&& forall|k: int|
                    0 <= k < o.bvec@.len() ==> #[trigger] o.bvec@[k] == self.bvec@[k] & v.bvec@[k]
                &&& (self.canonical() && v.canonical()) ==> {
                    &&& o.canonical()
                    &&& forall|i: nat|
                        i < o.bits ==> #[trigger] o.tri_at(i) == tri_and(self.tri_at(i), v.tri_at(i))
                }
            },
    {
        if self.bits != v.bits {
            return Err(CellError::WidthMismatch);
        }
        let n = self.avec.len();
        let mut avec: Vec<u32> = Vec::new();
        let mut bvec: Vec<u32> = Vec::new();
        let mut k: usize = 0;
        while k < n
            invariant
                k <= n,
                n == self.avec@.len() == self.bvec@.len(),
                avec@.len() == k,
                bvec@.len() == k,
                forall|j: int| 0 <= j < k ==> #[trigger] avec@[j] == self.avec@[j] & v.avec@[j],
                forall|j: int| 0 <= j < k ==> #[trigger] bvec@[j] == self.bvec@[j] & v.bvec@[j],
                self.well_formed(),
                v.well_formed(),
                self.bits == v.bits,
            decreases n - k,
        {
            avec.push(self.avec[k] & v.avec[k]);
            bvec.push(self.bvec[k] & v.bvec[k]);
            k = k + 1;
        }
        let o = Vec3vl { bits: self.bits, avec, bvec };
        proof {
            if self.canonical() && v.canonical() {
                assert forall|j: int| 0 <= j < o.avec@.len() implies #[trigger] o.avec@[j] & !o.bvec@[j] == 0 by {
                    lemma_canonical_ops(self.avec@[j], self.bvec@[j], v.avec@[j], v.bvec@[j]);
                }
                assert forall|i: nat| i < o.bits implies #[trigger] o.tri_at(i) == tri_and(
                    self.tri_at(i),
                    v.tri_at(i),
                ) by {
                    lemma_bit_word_index(o.bits as nat, i);
                    let w = i as int / 32;
                    let b = (i % 32) as u32;
                    lemma_raw_bit_ops(self.avec@[w], v.avec@[w], b);
                    lemma_raw_bit_ops(self.bvec@[w], v.bvec@[w], b);
                    lemma_canonical_bit(self.avec@[w], self.bvec@[w], b);
                    lemma_canonical_bit(v.avec@[w], v.bvec@[w], b);
                }
            }
        }
        Ok(o)
    }

    /// Three-valued OR, bitwise.  Fails iff the widths differ.
    pub fn or(&self, v: &Vec3vl) -> (r: Result<Vec3vl, CellError>)
        requires
            self.well_formed(),
            v.well_formed(),
        ensures
            r is Ok <==> self.bits == v.bits,
            r is Err ==> r->Err_0 == CellError::WidthMismatch,
            r is Ok ==> {
                let o = r->Ok_0;
                &&& o.bits == self.bits
                &&& o.well_formed()
                &&& forall|k: int|
                    0 <= k < o.avec@.len() ==> #[trigger] o.avec@[k] == self.avec@[k] | v.avec@[k]
                &&& forall|k: int|
                    0 <= k < o.bvec@.len() ==> #[trigger] o.bvec@[k] == self.bvec@[k] | v.bvec@[k]
                &&& (self.canonical() && v.canonical()) ==> {
                    &&& o.canonical()
                    &&& forall|i: nat|
                        i < o.bits ==> #[trigger] o.tri_at(i) == tri_or(self.tri_at(i), v.tri_at(i))
                }
            },
    {
        if self.bits != v.bits {
            return Err(CellError::WidthMismatch);
        }
        let n = self.avec.len();
        let mut avec: Vec<u32> = Vec::new();
        let mut bvec: Vec<u32> = Vec::new();
        let mut k: usize = 0;
        while k < n
            invariant
                k <= n,
                n == self.avec@.len() == self.bvec@.len(),
                avec@.len() == k,
                bvec@.len() == k,
                forall|j: int| 0 <= j < k ==> #[trigger] avec@[j] == self.avec@[j] | v.avec@[j],
                forall|j: int| 0 <= j < k ==> #[trigger] bvec@[j] == self.bvec@[j] | v.bvec@[j],
                self.well_formed(),
                v.well_formed(),
                self.bits == v.bits,
            decreases n - k,
        {
            avec.push(self.avec[k] | v.avec[k]);
            bvec.push(self.bvec[k] | v.bvec[k]);
            k = k + 1;
        }
        let o = Vec3vl { bits: self.bits, avec, bvec };
        proof {
            if self.canonical() && v.canonical() {
                assert forall|j: int| 0 <= j < o.avec@.len() implies #[trigger] o.avec@[j] & !o.bvec@[j] == 0 by {
                    lemma_canonical_ops(self.avec@[j], self.bvec@[j], v.avec@[j], v.bvec@[j]);
                }
                assert forall|i: nat| i < o.bits implies #[trigger] o.tri_at(i) == tri_or(
                    self.tri_at(i),
                    v.tri_at(i),
                ) by {
                    lemma_bit_word_index(o.bits as nat, i);
                    let w = i as int / 32;
                    let b = (i % 32) as u32;
                    lemma_raw_bit_ops(self.avec@[w], v.avec@[w], b);
                    lemma_raw_bit_ops(self.bvec@[w], v.bvec@[w], b);
                    lemma_canonical_bit(self.avec@[w], self.bvec@[w], b);
                    lemma_canonical_bit(v.avec@[w], v.bvec@[w], b);
                }
            }
        }
        Ok(o)
    }

    /// Three-valued XOR, bitwise: any X operand bit gives an X result bit.
    pub fn xor(&self, v: &Vec3vl) -> (r: Result<Vec3vl, CellError>)
        requires
            self.well_formed(),
            v.well_formed(),
        ensures
            r is Ok <==> self.bits == v.bits,
            r is Err ==> r->Err_0 == CellError::WidthMismatch,
            r is Ok ==> {
                let o = r->Ok_0;
                &&& o.bits == self.bits
                &&& o.well_formed()
                &&& forall|k: int|
                    0 <= k < o.avec@.len() ==> #[trigger] o.avec@[k] == (self.avec@[k] | v.avec@[k])
                        & (self.bvec@[k] ^ v.bvec@[k])
                &&& forall|k: int|
                    0 <= k < o.bvec@.len() ==> #[trigger] o.bvec@[k] == (self.avec@[k] & v.avec@[k])
                        ^ (self.bvec@[k] | v.bvec@[k])
                &&& (self.canonical() && v.canonical()) ==> {
                    &&& o.canonical()
                    &&& forall|i: nat|
                        i < o.bits ==> #[trigger] o.tri_at(i) == tri_xor(self.tri_at(i), v.tri_at(i))
                }
            },
    {
        if self.bits != v.bits {
            return Err(CellError::WidthMismatch);
        }
        let n = self.avec.len();
        let mut avec: Vec<u32> = Vec::new();
        let mut bvec: Vec<u32> = Vec::new();
        let mut k: usize = 0;
        while k < n
            invariant
                k <= n,
                n == self.avec@.len() == self.bvec@.len(),
                avec@.len() == k,
                bvec@.len() == k,
                forall|j: int|
                    0 <= j < k ==> #[trigger] avec@[j] == (self.avec@[j] | v.avec@[j]) & (self.bvec@[j]
                        ^ v.bvec@[j]),
                forall|j: int|
                    0 <= j < k ==> #[trigger] bvec@[j] == (self.avec@[j] & v.avec@[j]) ^ (self.bvec@[j]
                        | v.bvec@[j]),
                self.well_formed(),
                v.well_formed(),
                self.bits == v.bits,
            decreases n - k,
        {
            avec.push((self.avec[k] | v.avec[k]) & (self.bvec[k] ^ v.bvec[k]));
            bvec.push((self.avec[k] & v.avec[k]) ^ (self.bvec[k] | v.bvec[k]));
            k = k + 1;
        }
        let o = Vec3vl { bits: self.bits, avec, bvec };
        proof {
            if self.canonical() && v.canonical() {
                assert forall|j: int| 0 <= j < o.avec@.len() implies #[trigger] o.avec@[j] & !o.bvec@[j] == 0 by {
                    lemma_canonical_ops(self.avec@[j], self.bvec@[j], v.avec@[j], v.bvec@[j]);
                }
                assert forall|i: nat| i < o.bits implies #[trigger] o.tri_at(i) == tri_xor(
                    self.tri_at(i),
                    v.tri_at(i),
                ) by {
                    lemma_bit_word_index(o.bits as nat, i);
                    let w = i as int / 32;
                    let b = (i % 32) as u32;
                    lemma_raw_bit_ops(self.avec@[w] | v.avec@[w], self.bvec@[w] ^ v.bvec@[w], b);
                    lemma_raw_bit_ops(self.avec@[w] & v.avec@[w], self.bvec@[w] | v.bvec@[w], b);
                    lemma_raw_bit_ops(self.avec@[w], v.avec@[w], b);
                    lemma_raw_bit_ops(self.bvec@[w], v.bvec@[w], b);
                    lemma_canonical_bit(self.avec@[w], self.bvec@[w], b);
                    lemma_canonical_bit(v.avec@[w], v.bvec@[w], b);
                }
            }
        }
        Ok(o)
    }

    /// Three-valued NOT, bitwise.  Complements both word arrays; an X input
    /// bit stays X (in the alternate encoding).
    pub fn not(&self) -> (o: Vec3vl)
        requires
            self.well_formed(),
        ensures
            o.bits == self.bits,
            o.well_formed(),
            forall|k: int| 0 <= k < o.avec@.len() ==> #[trigger] o.avec@[k] == !self.avec@[k],
            forall|k: int| 0 <= k < o.bvec@.len() ==> #[trigger] o.bvec@[k] == !self.bvec@[k],
            forall|i: nat| i < o.bits ==> #[trigger] o.tri_at(i) == tri_not(self.tri_at(i)),
    {
        let n = self.avec.len();
        let mut avec: Vec<u32> = Vec::new();
        let mut bvec: Vec<u32> = Vec::new();
        let mut k: usize = 0;
        while k < n
            invariant
                k <= n,
                n == self.avec@.len() == self.bvec@.len(),
                avec@.len() == k,
                bvec@.len() == k,
                forall|j: int| 0 <= j < k ==> #[trigger] avec@[j] == !self.avec@[j],
                forall|j: int| 0 <= j < k ==> #[trigger] bvec@[j] == !self.bvec@[j],
                self.well_formed(),
            decreases n - k,
        {
            avec.push(!self.avec[k]);
            bvec.push(!self.bvec[k]);
            k = k + 1;
        }
        let o = Vec3vl { bits: self.bits, avec, bvec };
        proof {
            assert forall|i: nat| i < o.bits implies #[trigger] o.tri_at(i) == tri_not(self.tri_at(i)) by {
                lemma_bit_word_index(o.bits as nat, i);
                let w = i as int / 32;
                let b = (i % 32) as u32;
                lemma_raw_bit_ops(self.avec@[w], self.bvec@[w], b);
                lemma_raw_bit_ops(self.bvec@[w], self.avec@[w], b);
            }
        }
        o
    }

    /// Three-valued NAND: high `avec`/`bvec` words are the complements of
    /// the AND of the opposite arrays, which keeps the canonical encoding.
    pub fn nand(&self, v: &Vec3vl) -> (r: Result<Vec3vl, CellError>)
        requires
            self.well_formed(),
            v.well_formed(),
        ensures
            r is Ok <==> self.bits == v.bits,
            r is Err ==> r->Err_0 == CellError::WidthMismatch,
            r is Ok ==> {
                let o = r->Ok_0;
                &&& o.bits == self.bits
                &&& o.well_formed()
                &&& forall|k: int|
                    0 <= k < o.avec@.len() ==> #[trigger] o.avec@[k] == !(self.bvec@[k] & v.bvec@[k])
                &&& forall|k: int|
                    0 <= k < o.bvec@.len() ==> #[trigger] o.bvec@[k] == !(self.avec@[k] & v.avec@[k])
                &&& (self.canonical() && v.canonical()) ==> {
                    &&& o.canonical()
                    &&& forall|i: nat|
                        i < o.bits ==> #[trigger] o.tri_at(i) == tri_not(
                            tri_and(self.tri_at(i), v.tri_at(i)),
                        )
                }
            },
    {
        if self.bits != v.bits {
            return Err(CellError::WidthMismatch);
        }
        let n = self.avec.len();
        let mut avec: Vec<u32> = Vec::new();
        let mut bvec: Vec<u32> = Vec::new();
        let mut k: usize = 0;
        while k < n
            invariant
                k <= n,
                n == self.avec@.len() == self.bvec@.len(),
                avec@.len() == k,
                bvec@.len() == k,
                forall|j: int| 0 <= j < k ==> #[trigger] avec@[j] == !(self.bvec@[j] & v.bvec@[j]),
                forall|j: int| 0 <= j < k ==> #[trigger] bvec@[j] == !(self.avec@[j] & v.avec@[j]),
                self.well_formed(),
                v.well_formed(),
                self.bits == v.bits,
            decreases n - k,
        {
            avec.push(!(self.bvec[k] & v.bvec[k]));
            bvec.push(!(self.avec[k] & v.avec[k]));
            k = k + 1;
        }
        let o = Vec3vl { bits: self.bits, avec, bvec };
        proof {
            if self.canonical() && v.canonical() {
                assert forall|j: int| 0 <= j < o.avec@.len() implies #[trigger] o.avec@[j] & !o.bvec@[j] == 0 by {
                    lemma_canonical_ops(self.avec@[j], self.bvec@[j], v.avec@[j], v.bvec@[j]);
                }
                assert forall|i: nat| i < o.bits implies #[trigger] o.tri_at(i) == tri_not(
                    tri_and(self.tri_at(i), v.tri_at(i)),
                ) by {
                    lemma_bit_word_index(o.bits as nat, i);
                    let w = i as int / 32;
                    let b = (i % 32) as u32;
                    lemma_raw_bit_ops(self.bvec@[w], v.bvec@[w], b);
                    lemma_raw_bit_ops(self.avec@[w], v.avec@[w], b);
                    lemma_raw_bit_ops(self.bvec@[w] & v.bvec@[w], self.avec@[w] & v.avec@[w], b);
                    lemma_raw_bit_ops(self.avec@[w] & v.avec@[w], self.bvec@[w] & v.bvec@[w], b);
                    lemma_canonical_bit(self.avec@[w], self.bvec@[w], b);
                    lemma_canonical_bit(v.avec@[w], v.bvec@[w], b);
                }
            }
        }
        Ok(o)
    }

    /// Three-valued NOR.
    pub fn nor(&self, v: &Vec3vl) -> (r: Result<Vec3vl, CellError>)
        requires
            self.well_formed(),
            v.well_formed(),
        ensures
            r is Ok <==> self.bits == v.bits,
            r is Err ==> r->Err_0 == CellError::WidthMismatch,
            r is Ok ==> {
                let o = r->Ok_0;
                &&& o.bits == self.bits
                &&& o.well_formed()
                &&& forall|k: int|
                    0 <= k < o.avec@.len() ==> #[trigger] o.avec@[k] == !(self.bvec@[k] | v.bvec@[k])
                &&& forall|k: int|
                    0 <= k < o.bvec@.len() ==> #[trigger] o.bvec@[k] == !(self.avec@[k] | v.avec@[k])
                &&& (self.canonical() && v.canonical()) ==> {
                    &&& o.canonical()
                    &&& forall|i: nat|
                        i < o.bits ==> #[trigger] o.tri_at(i) == tri_not(
                            tri_or(self.tri_at(i), v.tri_at(i)),
                        )
                }
            },
    {
        if self.bits != v.bits {
            return Err(CellError::WidthMismatch);
        }
        let n = self.avec.len();
        let mut avec: Vec<u32> = Vec::new();
        let mut bvec: Vec<u32> = Vec::new();
        let mut k: usize = 0;
        while k < n
            invariant
                k <= n,
                n == self.avec@.len() == self.bvec@.len(),
                avec@.len() == k,
                bvec@.len() == k,
                forall|j: int| 0 <= j < k ==> #[trigger] avec@[j] == !(self.bvec@[j] | v.bvec@[j]),
                forall|j: int| 0 <= j < k ==> #[trigger] bvec@[j] == !(self.avec@[j] | v.avec@[j]),
                self.well_formed(),
                v.well_formed(),
                self.bits == v.bits,
            decreases n - k,
        {
            avec.push(!(self.bvec[k] | v.bvec[k]));
            bvec.push(!(self.avec[k] | v.avec[k]));
            k = k + 1;
        }
        let o = Vec3vl { bits: self.bits, avec, bvec };
        proof {
            if self.canonical() && v.canonical() {
                assert forall|j: int| 0 <= j < o.avec@.len() implies #[trigger] o.avec@[j] & !o.bvec@[j] == 0 by {
                    lemma_canonical_ops(self.avec@[j], self.bvec@[j], v.avec@[j], v.bvec@[j]);
                }
                assert forall|i: nat| i < o.bits implies #[trigger] o.tri_at(i) == tri_not(
                    tri_or(self.tri_at(i), v.tri_at(i)),
                ) by {
                    lemma_bit_word_index(o.bits as nat, i);
                    let w = i as int / 32;
                    let b = (i % 32) as u32;
                    lemma_raw_bit_ops(self.bvec@[w], v.bvec@[w], b);
                    lemma_raw_bit_ops(self.avec@[w], v.avec@[w], b);
                    lemma_raw_bit_ops(self.bvec@[w] | v.bvec@[w], self.avec@[w] | v.avec@[w], b);
                    lemma_raw_bit_ops(self.avec@[w] | v.avec@[w], self.bvec@[w] | v.bvec@[w], b);
                    lemma_canonical_bit(self.avec@[w], self.bvec@[w], b);
                    lemma_canonical_bit(v.avec@[w], v.bvec@[w], b);
                }
            }
        }
        Ok(o)
    }

    /// Three-valued XNOR.
    pub fn xnor(&self, v: &Vec3vl) -> (r: Result<Vec3vl, CellError>)
        requires
            self.well_formed(),
            v.well_formed(),
        ensures
            r is Ok <==> self.bits == v.bits,
            r is Err ==> r->Err_0 == CellError::WidthMismatch,
            r is Ok ==> {
                let o = r->Ok_0;
                &&& o.bits == self.bits
                &&& o.well_formed()
                &&& forall|k: int|
                    0 <= k < o.avec@.len() ==> #[trigger] o.avec@[k] == !((self.avec@[k] & v.avec@[k])
                        ^ (self.bvec@[k] | v.bvec@[k]))
                &&& forall|k: int|
                    0 <= k < o.bvec@.len() ==> #[trigger] o.bvec@[k] == !((self.avec@[k] | v.avec@[k])
                        & (self.bvec@[k] ^ v.bvec@[k]))
                &&& (self.canonical() && v.canonical()) ==> {
                    &&& o.canonical()
                    &&& forall|i: nat|
                        i < o.bits ==> #[trigger] o.tri_at(i) == tri_not(
                            tri_xor(self.tri_at(i), v.tri_at(i)),
                        )
                }
            },
    {
        if self.bits != v.bits {
            return Err(CellError::WidthMismatch);
        }
        let n = self.avec.len();
        let mut avec: Vec<u32> = Vec::new();
        let mut bvec: Vec<u32> = Vec::new();
        let mut k: usize = 0;
        while k < n
            invariant
                k <= n,
                n == self.avec@.len() == self.bvec@.len(),
                avec@.len() == k,
                bvec@.len() == k,
                forall|j: int|
                    0 <= j < k ==> #[trigger] avec@[j] == !((self.avec@[j] & v.avec@[j]) ^ (self.bvec@[j]
                        | v.bvec@[j])),
                forall|j: int|
                    0 <= j < k ==> #[trigger] bvec@[j] == !((self.avec@[j] | v.avec@[j]) & (self.bvec@[j]
                        ^ v.bvec@[j])),
                self.well_formed(),
                v.well_formed(),
                self.bits == v.bits,
            decreases n - k,
        {
            avec.push(!((self.avec[k] & v.avec[k]) ^ (self.bvec[k] | v.bvec[k])));
            bvec.push(!((self.avec[k] | v.avec[k]) & (self.bvec[k] ^ v.bvec[k])));
            k = k + 1;
        }
        let o = Vec3vl { bits: self.bits, avec, bvec };
        proof {
            if self.canonical() && v.canonical() {
                assert forall|j: int| 0 <= j < o.avec@.len() implies #[trigger] o.avec@[j] & !o.bvec@[j] == 0 by {
                    lemma_canonical_ops(self.avec@[j], self.bvec@[j], v.avec@[j], v.bvec@[j]);
                }
                assert forall|i: nat| i < o.bits implies #[trigger] o.tri_at(i) == tri_not(
                    tri_xor(self.tri_at(i), v.tri_at(i)),
                ) by {
                    lemma_bit_word_index(o.bits as nat, i);
                    let w = i as int / 32;
                    let b = (i % 32) as u32;
                    lemma_raw_bit_ops(self.avec@[w], v.avec@[w], b);
                    lemma_raw_bit_ops(self.bvec@[w], v.bvec@[w], b);
                    lemma_raw_bit_ops(self.avec@[w] & v.avec@[w], self.bvec@[w] | v.bvec@[w], b);
                    lemma_raw_bit_ops(self.avec@[w] | v.avec@[w], self.bvec@[w] ^ v.bvec@[w], b);
                    lemma_raw_bit_ops(
                        (self.avec@[w] & v.avec@[w]) ^ (self.bvec@[w] | v.bvec@[w]),
                        (self.avec@[w] | v.avec@[w]) & (self.bvec@[w] ^ v.bvec@[w]),
                        b,
                    );
                    lemma_raw_bit_ops(
                        (self.avec@[w] | v.avec@[w]) & (self.bvec@[w] ^ v.bvec@[w]),
                        (self.avec@[w] & v.avec@[w]) ^ (self.bvec@[w] | v.bvec@[w]),
                        b,
                    );
                    lemma_canonical_bit(self.avec@[w], self.bvec@[w], b);
                    lemma_canonical_bit(v.avec@[w], v.bvec@[w], b);
                }
            }
        }
        Ok(o)
    }

    /// A vector that is high exactly where this one is X (low elsewhere).
    pub fn xmask(&self) -> (o: Vec3vl)
        requires
            self.well_formed(),
        ensures
            o.bits == self.bits,
            o.well_formed(),
            o.canonical(),
            forall|k: int|
                0 <= k < o.avec@.len() ==> #[trigger] o.avec@[k] == self.avec@[k] ^ self.bvec@[k],
            forall|k: int|
                0 <= k < o.bvec@.len() ==> #[trigger] o.bvec@[k] == self.avec@[k] ^ self.bvec@[k],
            forall|i: nat|
                i < o.bits ==> #[trigger] o.tri_at(i) == (if self.tri_at(i) == 0 { 1i32 } else { -1i32 }),
    {
        let n = self.avec.len();
        let mut avec: Vec<u32> = Vec::new();
        let mut k: usize = 0;
        while k < n
            invariant
                k <= n,
                n == self.avec@.len() == self.bvec@.len(),
                avec@.len() == k,
                forall|j: int| 0 <= j < k ==> #[trigger] avec@[j] == self.avec@[j] ^ self.bvec@[j],
                self.well_formed(),
            decreases n - k,
        {
            avec.push(self.avec[k] ^ self.bvec[k]);
            k = k + 1;
        }
        let bvec = clone_words(&avec);
        let o = Vec3vl { bits: self.bits, avec, bvec };
        proof {
            lemma_word_ops_auto();
            assert forall|j: int| 0 <= j < o.avec@.len() implies #[trigger] o.avec@[j] & !o.bvec@[j] == 0 by {
                lemma_self_canonical(o.avec@[j]);
            }
            assert forall|i: nat| i < o.bits implies #[trigger] o.tri_at(i) == (if self.tri_at(i) == 0 {
                1i32
            } else {
                -1i32
            }) by {
                lemma_bit_word_index(o.bits as nat, i);
                let w = i as int / 32;
                let b = (i % 32) as u32;
                lemma_raw_bit_ops(self.avec@[w], self.bvec@[w], b);
            }
        }
        o
    }
}

/// A word is canonical when paired with itself.
pub proof fn lemma_self_canonical(w: u32)
    by (bit_vector)
    ensures
        w & !w == 0,
{
}

/// Copy of a word vector.
pub fn clone_words(v: &Vec<u32>) -> (r: Vec<u32>)
    ensures
        r@ == v@,
{
    let n = v.len();
    let mut r: Vec<u32> = Vec::new();
    let mut k: usize = 0;
    while k < n
        invariant
            k <= n,
            n == v@.len(),
            r@.len() == k,
            forall|j: int| 0 <= j < k ==> #[trigger] r@[j] == v@[j],
        decreases n - k,
    {
        r.push(v[k]);
        k = k + 1;
    }
    proof {
        assert(r@ =~= v@);
    }
    r
}


/// `(w >> b) & 1` is zero or one.
pub proof fn lemma_bit_is_binary(w: u32, b: u32)
    by (bit_vector)
    requires
        b < 32,
    ensures
        (w >> b) & 1 == 0 || (w >> b) & 1 == 1,
        ((w >> b) & 1 == 1) == raw_bit(w, b as nat),
{
}

/// Setting one bit of a word leaves every other bit as it was.
pub proof fn lemma_set_word_bit(w: u32, b: u32, c: u32)
    by (bit_vector)
    requires
        b < 32,
        c < 32,
    ensures
        raw_bit(w | (1u32 << b), c as nat) == (if b == c { true } else { raw_bit(w, c as nat) }),
{
}

impl Vec3vl {
    /// The raw `avec` bit at a position, as executable code.
    pub fn get_abit(&self, i: u32) -> (r: bool)
        requires
            self.well_formed(),
            i < self.bits,
        ensures
            r == self.abit(i as nat),
    {
        proof {
            lemma_bit_word_index(self.bits as nat, i as nat);
        }
        let w = self.avec[(i / 32) as usize];
        let b = i % 32;
        proof {
            lemma_bit_is_binary(w, b);
        }
        (w >> b) & 1 == 1
    }

    /// The raw `bvec` bit at a position, as executable code.
    pub fn get_bbit(&self, i: u32) -> (r: bool)
        requires
            self.well_formed(),
            i < self.bits,
        ensures
            r == self.bbit(i as nat),
    {
        proof {
            lemma_bit_word_index(self.bits as nat, i as nat);
        }
        let w = self.bvec[(i / 32) as usize];
        let b = i % 32;
        proof {
            lemma_bit_is_binary(w, b);
        }
        (w >> b) & 1 == 1
    }

    /// The three-valued content of bit `n`: `-1` low, `0` X, `+1` high.
    pub fn get(&self, n: u32) -> (r: i32)
        requires
            self.well_formed(),
            n < self.bits,
        ensures
            r == self.tri_at(n as nat),
    {
        let a = self.get_abit(n);
        let b = self.get_bbit(n);
        if a && b {
            1
        } else if !a && !b {
            -1
        } else {
            0
        }
    }

    /// The most significant bit.
    pub fn msb(&self) -> (r: i32)
        requires
            self.well_formed(),
            self.bits >= 1,
        ensures
            r == self.tri_at((self.bits - 1) as nat),
    {
        self.get(self.bits - 1)
    }

    /// The least significant bit.
    pub fn lsb(&self) -> (r: i32)
        requires
            self.well_formed(),
            self.bits >= 1,
        ensures
            r == self.tri_at(0),
    {
        self.get(0)
    }

    /// Every bit is high.
    pub fn is_high(&self) -> (r: bool)
        requires
            self.well_formed(),
        ensures
            r == forall|i: nat| i < self.bits ==> #[trigger] self.tri_at(i) == 1i32,
    {
        let mut i: u32 = 0;
        while i < self.bits
            invariant
                i <= self.bits,
                self.well_formed(),
                forall|j: nat| j < i ==> #[trigger] self.tri_at(j) == 1i32,
            decreases self.bits - i,
        {
            if self.get(i) != 1 {
                return false;
            }
            i = i + 1;
        }
        true
    }

    /// Every bit is low.
    pub fn is_low(&self) -> (r: bool)
        requires
            self.well_formed(),
        ensures
            r == forall|i: nat| i < self.bits ==> #[trigger] self.tri_at(i) == -1i32,
    {
        let mut i: u32 = 0;
        while i < self.bits
            invariant
                i <= self.bits,
                self.well_formed(),
                forall|j: nat| j < i ==> #[trigger] self.tri_at(j) == -1i32,
            decreases self.bits - i,
        {
            if self.get(i) != -1 {
                return false;
            }
            i = i + 1;
        }
        true
    }

    /// No bit is X.
    pub fn is_fully_defined(&self) -> (r: bool)
        requires
            self.well_formed(),
        ensures
            r == self.all_defined(),
    {
        let mut i: u32 = 0;
        while i < self.bits
            invariant
                i <= self.bits,
                self.well_formed(),
                forall|j: nat| j < i ==> #[trigger] self.tri_at(j) != 0i32,
            decreases self.bits - i,
        {
            if self.get(i) == 0 {
                proof {
                    assert(self.tri_at(i as nat) == 0i32);
                }
                return false;
            }
            i = i + 1;
        }
        true
    }

    /// No bit is X (the same predicate as [`Vec3vl::is_fully_defined`]).
    pub fn is_defined(&self) -> (r: bool)
        requires
            self.well_formed(),
        ensures
            r == self.all_defined(),
    {
        self.is_fully_defined()
    }

    /// The numeric value of the first `n` bits of `avec`
    /// (for a fully defined vector this is its unsigned value).
    #[verifier::inline]
    pub open spec fn uval_upto(self, n: nat) -> nat {
        view_uval_upto(self@, n)
    }

    /// The unsigned value of a fully defined vector.
    #[verifier::inline]
    pub open spec fn uval(self) -> nat {
        view_uval(self@)
    }

    /// The two's-complement value of a fully defined vector.
    #[verifier::inline]
    pub open spec fn sval(self) -> int {
        view_sval(self@)
    }

    /// The unsigned value of a vector of at most 32 bits.  Fails on a
    /// wider vector and on one with an X bit.
    pub fn get_number(&self) -> (r: Result<u32, CellError>)
        requires
            self.well_formed(),
        ensures
            r is Ok <==> (self.bits <= 32 && self.all_defined()),
            r is Ok ==> r->Ok_0 == self.uval(),
            r is Err ==> r->Err_0 == CellError::UnsupportedEncoding,
    {
        if !self.is_fully_defined() || self.bits > 32 {
            return Err(CellError::UnsupportedEncoding);
        }
        let mut v: u32 = 0;
        let mut i: u32 = 0;
        proof {
            vstd::arithmetic::power2::lemma2_to64();
        }
        while i < self.bits
            invariant
                i <= self.bits <= 32,
                self.well_formed(),
                v == self.uval_upto(i as nat),
                v < vstd::arithmetic::power2::pow2(i as nat),
            decreases self.bits - i,
        {
            proof {
                vstd::arithmetic::power2::lemma_pow2_strictly_increases(i as nat, 32);
                vstd::arithmetic::power2::lemma2_to64();
                vstd::bits::lemma_u32_shl_is_mul(1u32, i);
                vstd::arithmetic::power2::lemma_pow2_adds(i as nat, 1);
                vstd::arithmetic::power2::lemma2_to64();
            }
            if self.get_abit(i) {
                v = v + (1u32 << i);
            }
            i = i + 1;
        }
        Ok(v)
    }
}


impl Clone for Vec3vl {
    /// An exact copy: width and both word arrays are preserved.
    fn clone(&self) -> (r: Self)
        ensures
            r.bits == self.bits,
            r.avec@ == self.avec@,
            r.bvec@ == self.bvec@,
            r@ == self@,
    {
        Vec3vl { bits: self.bits, avec: clone_words(&self.avec), bvec: clone_words(&self.bvec) }
    }
}

impl PartialEq for Vec3vl {
    /// Structural equality: equal width and equal word arrays.  Vectors
    /// must be normalized before comparison for this to agree with the
    /// three-valued contents.
    fn eq(&self, other: &Self) -> (r: bool) {
        if self.bits != other.bits {
            return false;
        }
        if self.avec.len() != other.avec.len() || self.bvec.len() != other.bvec.len() {
            return false;
        }
        let mut k: usize = 0;
        let n = self.avec.len();
        while k < n
            invariant
                k <= n,
                n == self.avec@.len() == other.avec@.len(),
                forall|j: int| 0 <= j < k ==> #[trigger] self.avec@[j] == other.avec@[j],
            decreases n - k,
        {
            if self.avec[k] != other.avec[k] {
                return false;
            }
            k = k + 1;
        }
        let mut k2: usize = 0;
        let m = self.bvec.len();
        while k2 < m
            invariant
                k2 <= m,
                m == self.bvec@.len() == other.bvec@.len(),
                forall|j: int| 0 <= j < k2 ==> #[trigger] self.bvec@[j] == other.bvec@[j],
            decreases m - k2,
        {
            if self.bvec[k2] != other.bvec[k2] {
                return false;
            }
            k2 = k2 + 1;
        }
        proof {
            assert(self.avec@ =~= other.avec@);
            assert(self.bvec@ =~= other.bvec@);
        }
        true
    }
}

impl vstd::std_specs::cmp::PartialEqSpecImpl for Vec3vl {
    open spec fn obeys_eq_spec() -> bool {
        true
    }

    open spec fn eq_spec(&self, other: &Vec3vl) -> bool {
        self.bits == other.bits && self.avec@ == other.avec@ && self.bvec@ == other.bvec@
    }
}

/// Set (or leave) one bit in a word array: bit `i` is OR-ed with `val`,
/// every other bit keeps its value.
pub fn set_bit_in(words: &mut Vec<u32>, i: u32, val: bool)
    requires
        (i as nat) / 32 < old(words)@.len(),
    ensures
        final(words)@.len() == old(words)@.len(),
        forall|j: nat|
            j / 32 < final(words)@.len() && j != i ==> #[trigger] raw_bit(
                final(words)@[j as int / 32],
                j % 32,
            ) == raw_bit(old(words)@[j as int / 32], j % 32),
        raw_bit(final(words)@[i as int / 32], (i % 32) as nat) == (raw_bit(
            old(words)@[i as int / 32],
            (i % 32) as nat,
        ) || val),
        final(words)@ == old(words)@.update(
            i as int / 32,
            old(words)@[i as int / 32] | (if val { 1u32 << (i % 32) } else { 0u32 }),
        ),
{
    let ghost prev = words@;
    if !val {
        proof {
            lemma_or_zero(prev[i as int / 32]);
            assert(words@ =~= prev.update(i as int / 32, prev[i as int / 32] | 0u32));
        }
        return ;
    }
    let w = (i / 32) as usize;
    let b = i % 32;
    let updated = words[w] | (1u32 << b);
    words.set(w, updated);
    proof {
        lemma_set_word_bit(prev[w as int], b, b);
        assert forall|j: nat|
            j / 32 < words@.len() && j != i implies #[trigger] raw_bit(
            words@[j as int / 32],
            j % 32,
        ) == raw_bit(prev[j as int / 32], j % 32) by {
            if j as int / 32 == w as int {
                assert(j % 32 != b) by {
                    assert(j == 32 * (j / 32) + j % 32) by (nonlinear_arith);
                    assert(i == 32 * (i / 32) + i % 32) by (nonlinear_arith);
                }
                lemma_set_word_bit(prev[w as int], b, (j % 32) as u32);
            }
        }
    }
}


/// The summed width of the first `n` vectors of a sequence.
pub open spec fn total_width(s: Seq<Vec3vl>, n: int) -> nat
    decreases n,
{
    if n <= 0 {
        0
    } else {
        (total_width(s, n - 1) + s[n - 1].bits) as nat
    }
}

/// Summed widths grow with the number of vectors counted.
pub proof fn lemma_total_width_mono(s: Seq<Vec3vl>, a: int, b: int)
    requires
        0 <= a <= b,
    ensures
        total_width(s, a) <= total_width(s, b),
    decreases b,
{
    if a < b {
        lemma_total_width_mono(s, a, b - 1);
    }
}

impl Vec3vl {
    /// The sub-vector `[s, e)`; `e` is clamped to the width, and an empty
    /// range gives a zero-width vector.
    pub fn slice(&self, s: u32, e: u32) -> (r: Result<Vec3vl, CellError>)
        requires
            self.well_formed(),
        ensures
            r is Ok,
            ({
                let end = if e > self.bits { self.bits } else { e };
                let width = if s > end { 0u32 } else { (end - s) as u32 };
                let o = r->Ok_0;
                &&& o.bits == width
                &&& o.well_formed()
                &&& o.is_normalized()
                &&& forall|i: nat| i < width ==> #[trigger] o.abit(i) == self.abit((s + i) as nat)
                &&& forall|i: nat| i < width ==> #[trigger] o.bbit(i) == self.bbit((s + i) as nat)
            }),
    {
        let end = if e > self.bits { self.bits } else { e };
        let width = if s > end { 0 } else { end - s };
        let words = Self::word_len(width);
        let mut avec = filled_vec(0, words);
        let mut bvec = filled_vec(0, words);
        proof {
            assert forall|j: nat| j / 32 < avec@.len() implies !raw_bit(
                #[trigger] avec@[j as int / 32],
                j % 32,
            ) by {
                lemma_raw_bit_const(j % 32);
            }
            assert forall|j: nat| j / 32 < bvec@.len() implies !raw_bit(
                #[trigger] bvec@[j as int / 32],
                j % 32,
            ) by {
                lemma_raw_bit_const(j % 32);
            }
        }
        let mut i: u32 = 0;
        while i < width
            invariant
                i <= width,
                width == 0 || s + width <= self.bits,
                self.well_formed(),
                avec@.len() == word_count(width as nat),
                bvec@.len() == word_count(width as nat),
                forall|j: nat|
                    j < i ==> #[trigger] raw_bit(avec@[j as int / 32], j % 32) == self.abit((s + j) as nat),
                forall|j: nat|
                    j < i ==> #[trigger] raw_bit(bvec@[j as int / 32], j % 32) == self.bbit((s + j) as nat),
                forall|j: nat|
                    i <= j && j / 32 < avec@.len() ==> !raw_bit(#[trigger] avec@[j as int / 32], j % 32),
                forall|j: nat|
                    i <= j && j / 32 < bvec@.len() ==> !raw_bit(#[trigger] bvec@[j as int / 32], j % 32),
            decreases width - i,
        {
            proof {
                lemma_bit_word_index(width as nat, i as nat);
            }
            let av = self.get_abit(s + i);
            let bv = self.get_bbit(s + i);
            set_bit_in(&mut avec, i, av);
            set_bit_in(&mut bvec, i, bv);
            i = i + 1;
        }
        let mut o = Vec3vl { bits: width, avec, bvec };
        let ghost before = o;
        o.normalize();
        proof {
            assert forall|i2: nat| i2 < width implies #[trigger] o.abit(i2) == self.abit((s + i2) as nat) by {
                assert(before.abit(i2) == self.abit((s + i2) as nat));
            }
            assert forall|i2: nat| i2 < width implies #[trigger] o.bbit(i2) == self.bbit((s + i2) as nat) by {
                assert(before.bbit(i2) == self.bbit((s + i2) as nat));
            }
        }
        Ok(o)
    }

    /// Concatenation: vector `n` of the list occupies bits
    /// `[total_width(n), total_width(n) + bits(n))` of the result
    /// (the first vector is the least significant side).
    pub fn concat(vs: &Vec<Vec3vl>) -> (r: Result<Vec3vl, CellError>)
        requires
            forall|n: int| 0 <= n < vs@.len() ==> (#[trigger] vs@[n]).well_formed(),
            total_width(vs@, vs@.len() as int) <= u32::MAX,
        ensures
            r is Ok,
            ({
                let o = r->Ok_0;
                &&& o.bits == total_width(vs@, vs@.len() as int)
                &&& o.well_formed()
                &&& o.is_normalized()
                &&& forall|n: int, i: nat|
                    0 <= n < vs@.len() && i < vs@[n].bits ==> #[trigger] o.abit(
                        (total_width(vs@, n) + i) as nat,
                    ) == vs@[n].abit(i)
                &&& forall|n: int, i: nat|
                    0 <= n < vs@.len() && i < vs@[n].bits ==> #[trigger] o.bbit(
                        (total_width(vs@, n) + i) as nat,
                    ) == vs@[n].bbit(i)
            }),
    {
        let count = vs.len();
        let mut width: u32 = 0;
        let mut n: usize = 0;
        while n < count
            invariant
                n <= count,
                count == vs@.len(),
                width == total_width(vs@, n as int),
                total_width(vs@, count as int) <= u32::MAX,
                forall|m: int| 0 <= m < count ==> (#[trigger] vs@[m]).well_formed(),
            decreases count - n,
        {
            proof {
                lemma_total_width_mono(vs@, n as int + 1, count as int);
            }
            width = width + vs[n].bits;
            n = n + 1;
        }
        let words = Self::word_len(width);
        let mut avec = filled_vec(0, words);
        let mut bvec = filled_vec(0, words);
        proof {
            assert forall|j: nat| j / 32 < avec@.len() implies !raw_bit(
                #[trigger] avec@[j as int / 32],
                j % 32,
            ) by {
                lemma_raw_bit_const(j % 32);
            }
            assert forall|j: nat| j / 32 < bvec@.len() implies !raw_bit(
                #[trigger] bvec@[j as int / 32],
                j % 32,
            ) by {
                lemma_raw_bit_const(j % 32);
            }
        }
        let mut offset: u32 = 0;
        let mut n2: usize = 0;
        while n2 < count
            invariant
                n2 <= count,
                count == vs@.len(),
                width == total_width(vs@, count as int),
                offset == total_width(vs@, n2 as int),
                avec@.len() == word_count(width as nat),
                bvec@.len() == word_count(width as nat),
                forall|m: int| 0 <= m < count ==> (#[trigger] vs@[m]).well_formed(),
                forall|m: int, j: nat|
                    0 <= m < n2 && j < vs@[m].bits ==> #[trigger] raw_bit(
                        avec@[(total_width(vs@, m) + j) as int / 32],
                        (total_width(vs@, m) + j) % 32,
                    ) == vs@[m].abit(j),
                forall|m: int, j: nat|
                    0 <= m < n2 && j < vs@[m].bits ==> #[trigger] raw_bit(
                        bvec@[(total_width(vs@, m) + j) as int / 32],
                        (total_width(vs@, m) + j) % 32,
                    ) == vs@[m].bbit(j),
                forall|j: nat|
                    offset <= j && j / 32 < avec@.len() ==> !raw_bit(#[trigger] avec@[j as int / 32], j % 32),
                forall|j: nat|
                    offset <= j && j / 32 < bvec@.len() ==> !raw_bit(#[trigger] bvec@[j as int / 32], j % 32),
            decreases count - n2,
        {
            let vbits = vs[n2].bits;
            proof {
                lemma_total_width_mono(vs@, n2 as int + 1, count as int);
            }
            let mut j: u32 = 0;
            while j < vbits
                invariant
                    j <= vbits,
                    n2 < count,
                    count == vs@.len(),
                    vbits == vs@[n2 as int].bits,
                    width == total_width(vs@, count as int),
                    offset == total_width(vs@, n2 as int),
                    offset + vbits <= width,
                    avec@.len() == word_count(width as nat),
                    bvec@.len() == word_count(width as nat),
                    forall|m: int| 0 <= m < count ==> (#[trigger] vs@[m]).well_formed(),
                    forall|m: int, j2: nat|
                        0 <= m < n2 && j2 < vs@[m].bits ==> #[trigger] raw_bit(
                            avec@[(total_width(vs@, m) + j2) as int / 32],
                            (total_width(vs@, m) + j2) % 32,
                        ) == vs@[m].abit(j2),
                    forall|m: int, j2: nat|
                        0 <= m < n2 && j2 < vs@[m].bits ==> #[trigger] raw_bit(
                            bvec@[(total_width(vs@, m) + j2) as int / 32],
                            (total_width(vs@, m) + j2) % 32,
                        ) == vs@[m].bbit(j2),
                    forall|j2: nat|
                        j2 < j ==> #[trigger] raw_bit(
                            avec@[(offset + j2) as int / 32],
                            (offset + j2) as nat % 32,
                        ) == vs@[n2 as int].abit(j2),
                    forall|j2: nat|
                        j2 < j ==> #[trigger] raw_bit(
                            bvec@[(offset + j2) as int / 32],
                            (offset + j2) as nat % 32,
                        ) == vs@[n2 as int].bbit(j2),
                    forall|j2: nat|
                        offset + j <= j2 && j2 / 32 < avec@.len() ==> !raw_bit(
                            #[trigger] avec@[j2 as int / 32],
                            j2 % 32,
                        ),
                    forall|j2: nat|
                        offset + j <= j2 && j2 / 32 < bvec@.len() ==> !raw_bit(
                            #[trigger] bvec@[j2 as int / 32],
                            j2 % 32,
                        ),
                decreases vbits - j,
            {
                proof {
                    lemma_bit_word_index(width as nat, (offset + j) as nat);
                }
                let ghost prev_a = avec@;
                let ghost prev_b = bvec@;
                let av = vs[n2].get_abit(j);
                let bv = vs[n2].get_bbit(j);
                set_bit_in(&mut avec, offset + j, av);
                set_bit_in(&mut bvec, offset + j, bv);
                proof {
                    assert forall|m: int, j2: nat|
                        0 <= m < n2 && j2 < vs@[m].bits implies #[trigger] raw_bit(
                        avec@[(total_width(vs@, m) + j2) as int / 32],
                        (total_width(vs@, m) + j2) % 32,
                    ) == vs@[m].abit(j2) by {
                        lemma_total_width_mono(vs@, m + 1, n2 as int);
                        assert(total_width(vs@, m) + j2 < offset);
                        lemma_bit_word_index(width as nat, (total_width(vs@, m) + j2) as nat);
                        assert(raw_bit(avec@[(total_width(vs@, m) + j2) as int / 32],
                            (total_width(vs@, m) + j2) % 32) == raw_bit(
                            prev_a[(total_width(vs@, m) + j2) as int / 32],
                            (total_width(vs@, m) + j2) % 32));
                    }
                    assert forall|m: int, j2: nat|
                        0 <= m < n2 && j2 < vs@[m].bits implies #[trigger] raw_bit(
                        bvec@[(total_width(vs@, m) + j2) as int / 32],
                        (total_width(vs@, m) + j2) % 32,
                    ) == vs@[m].bbit(j2) by {
                        lemma_total_width_mono(vs@, m + 1, n2 as int);
                        assert(total_width(vs@, m) + j2 < offset);
                        lemma_bit_word_index(width as nat, (total_width(vs@, m) + j2) as nat);
                        assert(raw_bit(bvec@[(total_width(vs@, m) + j2) as int / 32],
                            (total_width(vs@, m) + j2) % 32) == raw_bit(
                            prev_b[(total_width(vs@, m) + j2) as int / 32],
                            (total_width(vs@, m) + j2) % 32));
                    }
                    assert forall|j2: nat| j2 < j + 1 implies #[trigger] raw_bit(
                        avec@[(offset + j2) as int / 32],
                        (offset + j2) as nat % 32,
                    ) == vs@[n2 as int].abit(j2) by {
                        lemma_bit_word_index(width as nat, (offset + j2) as nat);
                        if j2 < j {
                            assert(raw_bit(avec@[(offset + j2) as int / 32],
                                (offset + j2) as nat % 32) == raw_bit(
                                prev_a[(offset + j2) as int / 32], (offset + j2) as nat % 32));
                        }
                    }
                    assert forall|j2: nat| j2 < j + 1 implies #[trigger] raw_bit(
                        bvec@[(offset + j2) as int / 32],
                        (offset + j2) as nat % 32,
                    ) == vs@[n2 as int].bbit(j2) by {
                        lemma_bit_word_index(width as nat, (offset + j2) as nat);
                        if j2 < j {
                            assert(raw_bit(bvec@[(offset + j2) as int / 32],
                                (offset + j2) as nat % 32) == raw_bit(
                                prev_b[(offset + j2) as int / 32], (offset + j2) as nat % 32));
                        }
                    }
                }
                j = j + 1;
            }
            proof {
                assert forall|m: int, j2: nat|
                    0 <= m < n2 + 1 && j2 < vs@[m].bits implies #[trigger] raw_bit(
                    avec@[(total_width(vs@, m) + j2) as int / 32],
                    (total_width(vs@, m) + j2) % 32,
                ) == vs@[m].abit(j2) by {
                    if m == n2 as int {
                        assert(total_width(vs@, m) == offset);
                        assert(raw_bit(avec@[(offset + j2) as int / 32],
                            (offset + j2) as nat % 32) == vs@[n2 as int].abit(j2));
                    }
                }
                assert forall|m: int, j2: nat|
                    0 <= m < n2 + 1 && j2 < vs@[m].bits implies #[trigger] raw_bit(
                    bvec@[(total_width(vs@, m) + j2) as int / 32],
                    (total_width(vs@, m) + j2) % 32,
                ) == vs@[m].bbit(j2) by {
                    if m == n2 as int {
                        assert(total_width(vs@, m) == offset);
                        assert(raw_bit(bvec@[(offset + j2) as int / 32],
                            (offset + j2) as nat % 32) == vs@[n2 as int].bbit(j2));
                    }
                }
            }
            offset = offset + vbits;
            n2 = n2 + 1;
        }
        let mut o = Vec3vl { bits: width, avec, bvec };
        let ghost before = o;
        o.normalize();
        proof {
            assert forall|m: int, i: nat|
                0 <= m < vs@.len() && i < vs@[m].bits implies #[trigger] o.abit(
                (total_width(vs@, m) + i) as nat,
            ) == vs@[m].abit(i) by {
                lemma_total_width_mono(vs@, m + 1, vs@.len() as int);
                assert(total_width(vs@, m) + i < width);
                assert(before.abit((total_width(vs@, m) + i) as nat) == vs@[m].abit(i));
            }
            assert forall|m: int, i: nat|
                0 <= m < vs@.len() && i < vs@[m].bits implies #[trigger] o.bbit(
                (total_width(vs@, m) + i) as nat,
            ) == vs@[m].bbit(i) by {
                lemma_total_width_mono(vs@, m + 1, vs@.len() as int);
                assert(total_width(vs@, m) + i < width);
                assert(before.bbit((total_width(vs@, m) + i) as nat) == vs@[m].bbit(i));
            }
        }
        Ok(o)
    }
}


/// The value of the low `n` bits of a word.
pub open spec fn word_val(w: u32, n: nat) -> nat
    decreases n,
{
    if n == 0 {
        0
    } else {
        word_val(w, (n - 1) as nat) + if raw_bit(w, (n - 1) as nat) {
            vstd::arithmetic::power2::pow2((n - 1) as nat)
        } else {
            0
        }
    }
}

/// The low `n` bits of a word are its value modulo `2^n`.
pub proof fn lemma_word_val_is_mod(w: u32, n: nat)
    requires
        n <= 32,
    ensures
        word_val(w, n) == (w as nat) % vstd::arithmetic::power2::pow2(n),
    decreases n,
{
    vstd::arithmetic::power2::lemma2_to64();
    if n == 0 {
        assert((w as nat) % 1 == 0) by (nonlinear_arith);
    } else {
        lemma_word_val_is_mod(w, (n - 1) as nat);
        let p = vstd::arithmetic::power2::pow2((n - 1) as nat);
        let p2 = vstd::arithmetic::power2::pow2(n);
        vstd::arithmetic::power2::lemma_pow2_adds((n - 1) as nat, 1);
        vstd::arithmetic::power2::lemma_pow2_pos((n - 1) as nat);
        assert(p2 == p * 2);
        vstd::arithmetic::div_mod::lemma_mod_breakdown(w as int, p as int, 2);
        vstd::bits::lemma_u32_shr_is_div(w, (n - 1) as u32);
        let q = w >> ((n - 1) as u32);
        assert(q == (w as nat) / p);
        assert(q & 1 == q % 2) by (bit_vector);
        assert(raw_bit(w, (n - 1) as nat) == ((q & 1) == 1));
        assert((w as nat) % p2 == p * (((w as nat) / p) % 2) + (w as nat) % p);
        if raw_bit(w, (n - 1) as nat) {
            assert(((w as nat) / p) % 2 == 1);
            assert(p * (((w as nat) / p) % 2) == p) by (nonlinear_arith)
                requires
                    ((w as nat) / p) % 2 == 1,
            ;
            assert(word_val(w, n) == (w as nat) % p + p);
        } else {
            assert(((w as nat) / p) % 2 == 0);
            assert(p * (((w as nat) / p) % 2) == 0) by (nonlinear_arith)
                requires
                    ((w as nat) / p) % 2 == 0,
            ;
            assert(word_val(w, n) == (w as nat) % p);
        }
        assert(word_val(w, n) == (w as nat) % p2);
    }
}

/// Bits at and above `a` being low means the prefix value stalls there.
pub proof fn lemma_uval_stable(v: Vec3vl, a: nat, b: nat)
    requires
        a <= b,
        forall|i: nat| a <= i < b ==> !(#[trigger] v.abit(i)),
    ensures
        v.uval_upto(b) == v.uval_upto(a),
    decreases b - a,
{
    if a < b {
        lemma_uval_stable(v, a, (b - 1) as nat);
    }
}

/// Two vectors with the same `avec` bits below `n` have the same prefix value.
pub proof fn lemma_uval_congruence(v: Vec3vl, w: Vec3vl, n: nat)
    requires
        forall|i: nat| i < n ==> #[trigger] v.abit(i) == w.abit(i),
    ensures
        v.uval_upto(n) == w.uval_upto(n),
    decreases n,
{
    if n > 0 {
        lemma_uval_congruence(v, w, (n - 1) as nat);
    }
}

/// The prefix value of a vector whose `avec` bits mirror a word's bits.
pub proof fn lemma_uval_from_word(v: Vec3vl, w: u32, n: nat)
    requires
        n <= 32,
        forall|i: nat| i < n ==> #[trigger] v.abit(i) == raw_bit(w, i),
    ensures
        v.uval_upto(n) == word_val(w, n),
    decreases n,
{
    if n > 0 {
        lemma_uval_from_word(v, w, (n - 1) as nat);
    }
}

impl Vec3vl {
    /// Some bit of the vector carries the three-valued content `t`.
    #[verifier::inline]
    pub open spec fn has_tri(self, t: i32) -> bool {
        view_has_tri(self@, t)
    }

    /// Whether the number of high bits below `n` is odd.
    #[verifier::inline]
    pub open spec fn odd_ones(self, n: nat) -> bool {
        view_odd_ones(self@, n)
    }

    /// A one-bit vector holding a given three-valued content.
    pub fn tri_vec1(t: i32) -> (r: Vec3vl)
        requires
            -1 <= t <= 1,
        ensures
            r.bits == 1,
            r.well_formed(),
            r.is_normalized(),
            r.canonical(),
            r.tri_at(0) == t,
    {
        let (a, b) = if t == 1 {
            (1u32, 1u32)
        } else if t == 0 {
            (0u32, 1u32)
        } else {
            (0u32, 0u32)
        };
        let mut avec: Vec<u32> = Vec::new();
        let mut bvec: Vec<u32> = Vec::new();
        avec.push(a);
        bvec.push(b);
        let r = Vec3vl { bits: 1, avec, bvec };
        proof {
            lemma_bit1_facts();
        }
        r
    }

    /// Reduction AND over all bits: low if any bit is low, else X if any
    /// bit is X, else high.
    pub fn reduce_and(&self) -> (r: Vec3vl)
        requires
            self.well_formed(),
        ensures
            r.bits == 1,
            r.well_formed(),
            r.is_normalized(),
            r.canonical(),
            r.tri_at(0) == (if self.has_tri(-1i32) {
                -1i32
            } else if self.has_tri(0) {
                0i32
            } else {
                1i32
            }),
    {
        let mut any_low = false;
        let mut any_x = false;
        let mut i: u32 = 0;
        while i < self.bits
            invariant
                i <= self.bits,
                self.well_formed(),
                any_low == exists|j: nat| j < i && #[trigger] self.tri_at(j) == -1i32,
                any_x == exists|j: nat| j < i && #[trigger] self.tri_at(j) == 0i32,
            decreases self.bits - i,
        {
            let t = self.get(i);
            if t == -1 {
                any_low = true;
            } else if t == 0 {
                any_x = true;
            }
            i = i + 1;
        }
        Self::tri_vec1(if any_low {
            -1
        } else if any_x {
            0
        } else {
            1
        })
    }

    /// Reduction OR over all bits: high if any bit is high, else X if any
    /// bit is X, else low.
    pub fn reduce_or(&self) -> (r: Vec3vl)
        requires
            self.well_formed(),
        ensures
            r.bits == 1,
            r.well_formed(),
            r.is_normalized(),
            r.canonical(),
            r.tri_at(0) == (if self.has_tri(1) {
                1i32
            } else if self.has_tri(0) {
                0i32
            } else {
                -1i32
            }),
    {
        let mut any_high = false;
        let mut any_x = false;
        let mut i: u32 = 0;
        while i < self.bits
            invariant
                i <= self.bits,
                self.well_formed(),
                any_high == exists|j: nat| j < i && #[trigger] self.tri_at(j) == 1i32,
                any_x == exists|j: nat| j < i && #[trigger] self.tri_at(j) == 0i32,
            decreases self.bits - i,
        {
            let t = self.get(i);
            if t == 1 {
                any_high = true;
            } else if t == 0 {
                any_x = true;
            }
            i = i + 1;
        }
        Self::tri_vec1(if any_high {
            1
        } else if any_x {
            0
        } else {
            -1
        })
    }

    /// Reduction XOR: X if any bit is X, else the parity of the high bits.
    pub fn reduce_xor(&self) -> (r: Vec3vl)
        requires
            self.well_formed(),
        ensures
            r.bits == 1,
            r.well_formed(),
            r.is_normalized(),
            r.canonical(),
            r.tri_at(0) == (if self.has_tri(0) {
                0i32
            } else if self.odd_ones(self.bits as nat) {
                1i32
            } else {
                -1i32
            }),
    {
        let mut any_x = false;
        let mut parity = false;
        let mut i: u32 = 0;
        while i < self.bits
            invariant
                i <= self.bits,
                self.well_formed(),
                any_x == exists|j: nat| j < i && #[trigger] self.tri_at(j) == 0i32,
                parity == self.odd_ones(i as nat),
            decreases self.bits - i,
        {
            let t = self.get(i);
            if t == 0 {
                any_x = true;
            } else if t == 1 {
                parity = !parity;
            }
            i = i + 1;
        }
        Self::tri_vec1(if any_x {
            0
        } else if parity {
            1
        } else {
            -1
        })
    }

    /// Negated reduction AND.
    pub fn reduce_nand(&self) -> (r: Vec3vl)
        requires
            self.well_formed(),
        ensures
            r.bits == 1,
            r.well_formed(),
            r.is_normalized(),
            r.canonical(),
            r.tri_at(0) == tri_not(
                if self.has_tri(-1i32) {
                    -1i32
                } else if self.has_tri(0) {
                    0i32
                } else {
                    1i32
                },
            ),
    {
        let v = self.reduce_and();
        let t = v.get(0);
        Self::tri_vec1(-t)
    }

    /// Negated reduction OR.
    pub fn reduce_nor(&self) -> (r: Vec3vl)
        requires
            self.well_formed(),
        ensures
            r.bits == 1,
            r.well_formed(),
            r.is_normalized(),
            r.canonical(),
            r.tri_at(0) == tri_not(
                if self.has_tri(1) {
                    1i32
                } else if self.has_tri(0) {
                    0i32
                } else {
                    -1i32
                },
            ),
    {
        let v = self.reduce_or();
        let t = v.get(0);
        Self::tri_vec1(-t)
    }

    /// Negated reduction XOR.
    pub fn reduce_xnor(&self) -> (r: Vec3vl)
        requires
            self.well_formed(),
        ensures
            r.bits == 1,
            r.well_formed(),
            r.is_normalized(),
            r.canonical(),
            r.tri_at(0) == tri_not(
                if self.has_tri(0) {
                    0i32
                } else if self.odd_ones(self.bits as nat) {
                    1i32
                } else {
                    -1i32
                },
            ),
    {
        let v = self.reduce_xor();
        let t = v.get(0);
        Self::tri_vec1(-t)
    }

    /// The per-bit three-valued contents, least significant first.
    pub fn to_array(&self) -> (r: Vec<i32>)
        requires
            self.well_formed(),
        ensures
            r@.len() == self.bits,
            forall|i: int| 0 <= i < self.bits ==> #[trigger] r@[i] == self.tri_at(i as nat),
    {
        let mut r: Vec<i32> = Vec::new();
        let mut i: u32 = 0;
        while i < self.bits
            invariant
                i <= self.bits,
                self.well_formed(),
                r@.len() == i,
                forall|j: int| 0 <= j < i ==> #[trigger] r@[j] == self.tri_at(j as nat),
            decreases self.bits - i,
        {
            r.push(self.get(i));
            i = i + 1;
        }
        r
    }

    /// A fully defined vector carrying the low `bits` bits of `number`
    /// (zero-extended when `bits` exceeds 32).
    pub fn from_number(number: u32, bits: u32) -> (r: Vec3vl)
        ensures
            r.bits == bits,
            r.well_formed(),
            r.is_normalized(),
            r.canonical(),
            r.all_defined(),
            forall|i: nat|
                i < bits ==> #[trigger] r.abit(i) == (i < 32 && raw_bit(number, i)),
            r.uval() == (number as nat) % vstd::arithmetic::power2::pow2(bits as nat),
    {
        let words = Self::word_len(bits);
        let mut avec = filled_vec(0, words);
        let mut bvec = filled_vec(0, words);
        proof {
            assert forall|j: nat| j / 32 < avec@.len() implies !raw_bit(
                #[trigger] avec@[j as int / 32],
                j % 32,
            ) by {
                lemma_raw_bit_const(j % 32);
            }
            assert forall|j: nat| j / 32 < bvec@.len() implies !raw_bit(
                #[trigger] bvec@[j as int / 32],
                j % 32,
            ) by {
                lemma_raw_bit_const(j % 32);
            }
        }
        let limit = if bits > 32 { 32 } else { bits };
        let mut i: u32 = 0;
        while i < limit
            invariant
                i <= limit <= 32,
                limit <= bits,
                bits > 32 ==> limit == 32,
                avec@.len() == word_count(bits as nat),
                bvec@.len() == word_count(bits as nat),
                bvec@ == avec@,
                forall|j: nat|
                    j < i ==> #[trigger] raw_bit(avec@[j as int / 32], j % 32) == raw_bit(number, j),
                forall|j: nat|
                    j < i ==> #[trigger] raw_bit(bvec@[j as int / 32], j % 32) == raw_bit(number, j),
                forall|j: nat|
                    i <= j && j / 32 < avec@.len() ==> !raw_bit(#[trigger] avec@[j as int / 32], j % 32),
                forall|j: nat|
                    i <= j && j / 32 < bvec@.len() ==> !raw_bit(#[trigger] bvec@[j as int / 32], j % 32),
            decreases limit - i,
        {
            proof {
                lemma_bit_word_index(bits as nat, i as nat);
                lemma_bit_is_binary(number, i);
            }
            let bit = (number >> i) & 1 == 1;
            set_bit_in(&mut avec, i, bit);
            set_bit_in(&mut bvec, i, bit);
            i = i + 1;
        }
        let r = Vec3vl { bits, avec, bvec };
        proof {
            assert forall|j: int| 0 <= j < r.avec@.len() implies #[trigger] r.avec@[j] & !r.bvec@[j] == 0 by {
                lemma_self_canonical(r.avec@[j]);
            }
            assert forall|i2: nat| i2 < bits implies #[trigger] r.tri_at(i2) != 0i32 by {
                lemma_bit_word_index(bits as nat, i2);
            }
            if r.avec@.len() > 0 {
                lemma_normalized_from_bits(r);
            }
            // the numeric value
            lemma_uval_from_word(r, number, limit as nat);
            if bits > 32 {
                lemma_uval_stable(r, 32, bits as nat);
                lemma_word_val_is_mod(number, 32);
                vstd::arithmetic::power2::lemma2_to64();
                vstd::arithmetic::div_mod::lemma_small_mod(number as nat, 0x1_0000_0000);
                vstd::arithmetic::power2::lemma_pow2_strictly_increases(32, bits as nat);
                vstd::arithmetic::div_mod::lemma_small_mod(
                    number as nat,
                    vstd::arithmetic::power2::pow2(bits as nat),
                );
            } else {
                lemma_word_val_is_mod(number, bits as nat);
            }
        }
        r
    }
}

/// Words that agree on a prefix of bits have equal prefix values.
pub proof fn lemma_word_val_congruence(x: u32, y: u32, n: nat)
    requires
        forall|b: nat| b < n ==> #[trigger] raw_bit(x, b) == raw_bit(y, b),
    ensures
        word_val(x, n) == word_val(y, n),
    decreases n,
{
    if n > 0 {
        lemma_word_val_congruence(x, y, (n - 1) as nat);
    }
}

/// Two words that agree on every bit are equal.
pub proof fn lemma_words_equal_bitwise(x: u32, y: u32)
    requires
        forall|b: nat| b < 32 ==> #[trigger] raw_bit(x, b) == raw_bit(y, b),
    ensures
        x == y,
{
    lemma_word_val_congruence(x, y, 32);
    lemma_word_val_is_mod(x, 32);
    lemma_word_val_is_mod(y, 32);
    vstd::arithmetic::power2::lemma2_to64();
    vstd::arithmetic::div_mod::lemma_small_mod(x as nat, 0x1_0000_0000);
    vstd::arithmetic::div_mod::lemma_small_mod(y as nat, 0x1_0000_0000);
}

/// OR with zero is the identity.
pub proof fn lemma_or_zero(w: u32)
    by (bit_vector)
    ensures
        w | 0u32 == w,
{
}

/// The global bit index `32 * k + b` decomposes into word `k`, offset `b`.
pub proof fn lemma_split_index(k: int, b: nat)
    by (nonlinear_arith)
    requires
        0 <= k,
        b < 32,
    ensures
        ((32 * k + b) as nat) / 32 == k,
        ((32 * k + b) as nat) % 32 == b,
{
}

/// A vector whose raw bits at and above its width are all zero is
/// normalized.
pub proof fn lemma_normalized_from_bits(v: Vec3vl)
    requires
        v.well_formed(),
        v.avec@.len() > 0,
        forall|j: nat|
            v.bits <= j && j / 32 < v.avec@.len() ==> !raw_bit(#[trigger] v.avec@[j as int / 32], j % 32),
        forall|j: nat|
            v.bits <= j && j / 32 < v.bvec@.len() ==> !raw_bit(#[trigger] v.bvec@[j as int / 32], j % 32),
    ensures
        v.is_normalized(),
{
    let last = v.avec@.len() - 1;
    let la = v.avec@[last];
    let lb = v.bvec@[last];
    let m = lastmask_of(v.bits);
    assert forall|b: nat| b < 32 implies #[trigger] raw_bit(la & m, b) == raw_bit(la, b) by {
        lemma_split_index(last, b);
        if 32 * last + b >= v.bits {
            let g: nat = (32 * last + b) as nat;
            assert(!raw_bit(v.avec@[g as int / 32], g % 32));
        }
        lemma_mask_or_zero(la, v.bits, last, b);
    }
    assert forall|b: nat| b < 32 implies #[trigger] raw_bit(lb & m, b) == raw_bit(lb, b) by {
        lemma_split_index(last, b);
        if 32 * last + b >= v.bits {
            let g: nat = (32 * last + b) as nat;
            assert(!raw_bit(v.bvec@[g as int / 32], g % 32));
        }
        lemma_mask_or_zero(lb, v.bits, last, b);
    }
    lemma_words_equal_bitwise(la & m, la);
    lemma_words_equal_bitwise(lb & m, lb);
}

/// Helper for [`lemma_normalized_from_bits`]: masking the last word does
/// not change a bit that is either in range or already zero.
pub proof fn lemma_mask_or_zero(w: u32, bits: u32, last: int, b: nat)
    requires
        b < 32,
        last >= 0,
        last == word_count(bits as nat) - 1,
        (32 * last + b >= bits) ==> !raw_bit(w, b),
    ensures
        raw_bit(w & lastmask_of(bits), b) == raw_bit(w, b),
{
    let bb = b as u32;
    if bits % 32 == 0 {
        assert(((w & 0xffff_ffffu32) >> bb) & 1 == (w >> bb) & 1) by (bit_vector);
    } else {
        let r = bits % 32;
        let sh: u32 = (32 - r) as u32;
        assert(bits as int == 32 * (word_count(bits as nat) - 1) + r) by {
            assert(bits as nat == 32 * ((bits as nat) / 32) + (bits as nat) % 32) by (nonlinear_arith);
            assert((bits + 31) / 32 == (bits as nat) / 32 + 1) by (nonlinear_arith)
                requires
                    bits % 32 != 0,
                    bits < 0x1_0000_0000,
            ;
        }
        if b < r {
            assert(((w & (0xffff_ffffu32 >> sh)) >> bb) & 1 == (w >> bb) & 1) by (bit_vector)
                requires
                    sh + r == 32,
                    0 < r < 32,
                    bb < r,
            ;
        } else {
            assert(!raw_bit(w, b));
            assert(((w & (0xffff_ffffu32 >> sh)) >> bb) & 1 == 0) by (bit_vector)
                requires
                    sh + r == 32,
                    0 < r < 32,
                    r <= bb < 32,
                    (w >> bb) & 1 != 1,
            ;
        }
    }
}

/// Facts about single-bit words used by the one-bit constructors.
pub proof fn lemma_bit1_facts()
    by (bit_vector)
    ensures
        raw_bit(1u32, 0),
        !raw_bit(0u32, 0),
        lastmask_of(1) == 1u32,
        1u32 & 1u32 == 1u32,
        0u32 & 1u32 == 0u32,
        1u32 & !1u32 == 0,
        0u32 & !1u32 == 0,
        0u32 & !0u32 == 0,
{
}


/// The hexadecimal character for a digit value below 16.
pub open spec fn hex_digit_char(d: nat) -> char {
    if d == 0 {
        '0'
    } else if d == 1 {
        '1'
    } else if d == 2 {
        '2'
    } else if d == 3 {
        '3'
    } else if d == 4 {
        '4'
    } else if d == 5 {
        '5'
    } else if d == 6 {
        '6'
    } else if d == 7 {
        '7'
    } else if d == 8 {
        '8'
    } else if d == 9 {
        '9'
    } else if d == 10 {
        'a'
    } else if d == 11 {
        'b'
    } else if d == 12 {
        'c'
    } else if d == 13 {
        'd'
    } else if d == 14 {
        'e'
    } else {
        'f'
    }
}

/// The value of a hexadecimal character; 16 marks a character that is
/// no hexadecimal digit.
pub open spec fn hex_digit_val(c: char) -> nat {
    if c == '0' {
        0
    } else if c == '1' {
        1
    } else if c == '2' {
        2
    } else if c == '3' {
        3
    } else if c == '4' {
        4
    } else if c == '5' {
        5
    } else if c == '6' {
        6
    } else if c == '7' {
        7
    } else if c == '8' {
        8
    } else if c == '9' {
        9
    } else if c == 'a' {
        10
    } else if c == 'b' {
        11
    } else if c == 'c' {
        12
    } else if c == 'd' {
        13
    } else if c == 'e' {
        14
    } else if c == 'f' {
        15
    } else {
        16
    }
}

/// Parsing the character of a digit gives the digit back.
pub proof fn lemma_hex_digit_round_trip(d: nat)
    requires
        d < 16,
    ensures
        hex_digit_val(hex_digit_char(d)) == d,
{
}

/// Number of hexadecimal digits that a width needs.
pub open spec fn nibble_count(bits: u32) -> nat {
    ((bits + 3) / 4) as nat
}

/// The value of the four `avec` bits of nibble `k` of a vector's
/// content (bits past the width count as zero).
pub open spec fn view_nibble_val(v: Vec3vlV, k: nat) -> nat {
    (if 4 * k < v.bits && view_abit(v, 4 * k) {
        1nat
    } else {
        0nat
    }) + (if 4 * k + 1 < v.bits && view_abit(v, 4 * k + 1) {
        2nat
    } else {
        0nat
    }) + (if 4 * k + 2 < v.bits && view_abit(v, 4 * k + 2) {
        4nat
    } else {
        0nat
    }) + (if 4 * k + 3 < v.bits && view_abit(v, 4 * k + 3) {
        8nat
    } else {
        0nat
    })
}

/// Whether nibble `k` of a vector's content holds an X bit.
pub open spec fn view_nibble_has_x(v: Vec3vlV, k: nat) -> bool {
    exists|j: nat| j < 4 && 4 * k + j < v.bits && #[trigger] view_tri(v, 4 * k + j) == 0i32
}

/// The character that nibble `k` of a vector's content prints as.
pub open spec fn view_nib_char(v: Vec3vlV, k: nat) -> char {
    if view_nibble_has_x(v, k) {
        'x'
    } else {
        hex_digit_char(view_nibble_val(v, k))
    }
}

/// The hexadecimal characters of nibbles `hi - 1` down to `lo` of a
/// vector's content, most significant first.
pub open spec fn view_hex_range(v: Vec3vlV, hi: nat, lo: nat) -> Seq<char>
    decreases hi - lo,
{
    if hi <= lo {
        Seq::empty()
    } else {
        seq![view_nib_char(v, (hi - 1) as nat)] + view_hex_range(v, (hi - 1) as nat, lo)
    }
}

/// The numeric value of the first `n` `avec` bits of a vector's
/// content.
pub open spec fn view_uval_upto(v: Vec3vlV, n: nat) -> nat
    decreases n,
{
    if n == 0 {
        0
    } else {
        view_uval_upto(v, (n - 1) as nat) + if view_abit(v, (n - 1) as nat) {
            vstd::arithmetic::power2::pow2((n - 1) as nat)
        } else {
            0
        }
    }
}

/// The unsigned value of a fully defined vector's content.
pub open spec fn view_uval(v: Vec3vlV) -> nat {
    view_uval_upto(v, v.bits as nat)
}

/// The two's-complement value of a fully defined vector's content.
pub open spec fn view_sval(v: Vec3vlV) -> int {
    if v.bits > 0 && view_abit(v, (v.bits - 1) as nat) {
        view_uval(v) - vstd::arithmetic::power2::pow2(v.bits as nat)
    } else {
        view_uval(v) as int
    }
}

impl Vec3vl {
    /// The value of the four `avec` bits of nibble `k` (bits past the
    /// width count as zero).
    #[verifier::inline]
    pub open spec fn nibble_val(self, k: nat) -> nat {
        view_nibble_val(self@, k)
    }

    /// Whether nibble `k` holds an X bit.
    #[verifier::inline]
    pub open spec fn nibble_has_x(self, k: nat) -> bool {
        view_nibble_has_x(self@, k)
    }

    /// The character that nibble `k` prints as.
    #[verifier::inline]
    pub open spec fn nib_char(self, k: nat) -> char {
        view_nib_char(self@, k)
    }

    /// The characters of nibbles `hi - 1` down to `lo`, most significant
    /// first.
    #[verifier::inline]
    pub open spec fn hex_range(self, hi: nat, lo: nat) -> Seq<char> {
        view_hex_range(self@, hi, lo)
    }

    /// The X flag and digit value of one nibble, as executable code.
    pub fn nib_info(&self, k: u32) -> (r: (bool, u32))
        requires
            self.well_formed(),
            4 * (k as nat) < self.bits + 4,
        ensures
            r.0 == self.nibble_has_x(k as nat),
            !r.0 ==> r.1 == self.nibble_val(k as nat),
            r.1 < 16,
    {
        let ghost kk = k as nat;
        let mut has_x = false;
        let mut d: u32 = 0;
        let base: u64 = 4u64 * (k as u64);
        let ghost t0: i32 = 1;
        let ghost t1: i32 = 1;
        let ghost t2: i32 = 1;
        let ghost t3: i32 = 1;
        if base < self.bits as u64 {
            let t = self.get((base) as u32);
            proof {
                assert((base) as u32 as nat == 4 * kk);
                t0 = t;
            }
            if t == 0 {
                has_x = true;
            } else if t == 1 {
                d = d + 1;
            }
        }
        if base + 1 < self.bits as u64 {
            let t = self.get((base + 1) as u32);
            proof {
                assert((base + 1) as u32 as nat == 4 * kk + 1);
                t1 = t;
            }
            if t == 0 {
                has_x = true;
            } else if t == 1 {
                d = d + 2;
            }
        }
        if base + 2 < self.bits as u64 {
            let t = self.get((base + 2) as u32);
            proof {
                assert((base + 2) as u32 as nat == 4 * kk + 2);
                t2 = t;
            }
            if t == 0 {
                has_x = true;
            } else if t == 1 {
                d = d + 4;
            }
        }
        if base + 3 < self.bits as u64 {
            let t = self.get((base + 3) as u32);
            proof {
                assert((base + 3) as u32 as nat == 4 * kk + 3);
                t3 = t;
            }
            if t == 0 {
                has_x = true;
            } else if t == 1 {
                d = d + 8;
            }
        }
        proof {
            assert(has_x == self.nibble_has_x(kk)) by {
                if has_x {
                    if 4 * kk < self.bits && self.tri_at(4 * kk) == 0i32 {
                        assert(self.nibble_has_x(kk)) by {
                            assert(4 * kk + 0 == 4 * kk);
                            assert(self.tri_at(4 * kk + 0) == 0i32);
                        }
                    } else if 4 * kk + 1 < self.bits && self.tri_at(4 * kk + 1) == 0i32 {
                        assert(self.nibble_has_x(kk));
                    } else if 4 * kk + 2 < self.bits && self.tri_at(4 * kk + 2) == 0i32 {
                        assert(self.nibble_has_x(kk));
                    } else {
                        assert(self.tri_at(4 * kk + 3) == 0i32);
                        assert(self.nibble_has_x(kk));
                    }
                } else {
                    assert forall|j: nat| j < 4 && 4 * kk + j < self.bits implies #[trigger] self.tri_at(
                        4 * kk + j,
                    ) != 0i32 by {
                        if j == 0 {
                            assert(self.tri_at(4 * kk) == t0 && t0 != 0i32);
                        } else if j == 1 {
                            assert(self.tri_at(4 * kk + 1) == t1 && t1 != 0i32);
                        } else if j == 2 {
                            assert(self.tri_at(4 * kk + 2) == t2 && t2 != 0i32);
                        } else {
                            assert(self.tri_at(4 * kk + 3) == t3 && t3 != 0i32);
                        }
                    }
                }
            }
        }
        (has_x, d)
    }

    /// The hexadecimal rendering, most significant nibble first; a
    /// nibble with an X bit prints as `x`.
    pub fn to_hex(&self) -> (r: String)
        requires
            self.well_formed(),
        ensures
            r@ == self.hex_range(nibble_count(self.bits), 0),
    {
        let nibs: u64 = (self.bits as u64 + 3) / 4;
        let mut out = String::new();
        let mut k: u64 = nibs;
        while k > 0
            invariant
                k <= nibs,
                nibs == nibble_count(self.bits),
                self.well_formed(),
                out@ == self.hex_range(nibs as nat, k as nat),
            decreases k,
        {
            k = k - 1;
            proof {
                reveal_strlit("x");
                reveal_strlit("0");
                reveal_strlit("1");
                reveal_strlit("2");
                reveal_strlit("3");
                reveal_strlit("4");
                reveal_strlit("5");
                reveal_strlit("6");
                reveal_strlit("7");
                reveal_strlit("8");
                reveal_strlit("9");
                reveal_strlit("a");
                reveal_strlit("b");
                reveal_strlit("c");
                reveal_strlit("d");
                reveal_strlit("e");
                reveal_strlit("f");
            }
            let (has_x, d) = self.nib_info(k as u32);
            let c: &str = if has_x {
                "x"
            } else if d == 0 {
                "0"
            } else if d == 1 {
                "1"
            } else if d == 2 {
                "2"
            } else if d == 3 {
                "3"
            } else if d == 4 {
                "4"
            } else if d == 5 {
                "5"
            } else if d == 6 {
                "6"
            } else if d == 7 {
                "7"
            } else if d == 8 {
                "8"
            } else if d == 9 {
                "9"
            } else if d == 10 {
                "a"
            } else if d == 11 {
                "b"
            } else if d == 12 {
                "c"
            } else if d == 13 {
                "d"
            } else if d == 14 {
                "e"
            } else {
                "f"
            };
            out.append(c);
            proof {
                assert(c@ == seq![self.nib_char(k as nat)]) by {
                    assert(c@.len() == 1);
                    assert(c@ =~= seq![c@[0]]);
                }
                lemma_hex_range_snoc(*self, nibs as nat, k as nat);
                assert(out@ =~= self.hex_range(nibs as nat, k as nat));
            }
        }
        out
    }
}

/// Extending a nibble range downward appends the next character.
pub proof fn lemma_hex_range_snoc(v: Vec3vl, hi: nat, lo: nat)
    requires
        lo < hi,
    ensures
        v.hex_range(hi, lo) == v.hex_range(hi, lo + 1) + seq![v.nib_char(lo)],
    decreases hi - lo,
{
    if hi == lo + 1 {
        assert(v.hex_range(lo, lo) =~= Seq::<char>::empty());
        assert(v.hex_range(hi, lo) =~= seq![v.nib_char(lo)] + v.hex_range(lo, lo));
        assert(v.hex_range(hi, lo) =~= seq![v.nib_char(lo)]);
        assert(v.hex_range(hi, lo + 1) =~= Seq::<char>::empty());
        assert(v.hex_range(hi, lo + 1) + seq![v.nib_char(lo)] =~= seq![v.nib_char(lo)]);
    } else {
        lemma_hex_range_snoc(v, (hi - 1) as nat, lo);
        assert(v.hex_range(hi, lo) =~= v.hex_range(hi, lo + 1) + seq![v.nib_char(lo)]);
    }
}


/// Every character is a hexadecimal digit.
pub open spec fn hex_chars_ok(cs: Seq<char>) -> bool {
    forall|i: int| 0 <= i < cs.len() ==> hex_digit_val(#[trigger] cs[i]) < 16
}

/// Bit `i` of the vector a hexadecimal string denotes (character `k`
/// from the end carries bits `4k .. 4k+3`).
pub open spec fn from_hex_bit(cs: Seq<char>, i: nat) -> bool {
    &&& i / 4 < cs.len()
    &&& raw_bit(hex_digit_val(cs[cs.len() - 1 - i as int / 4]) as u32, i % 4)
}

/// Every character is `0`, `1` or `x`.
pub open spec fn bin_chars_ok(cs: Seq<char>) -> bool {
    forall|i: int| 0 <= i < cs.len() ==> (#[trigger] cs[i] == '0' || cs[i] == '1' || cs[i] == 'x')
}

/// Some character is `x`.
pub open spec fn bin_has_x(cs: Seq<char>) -> bool {
    exists|i: int| 0 <= i < cs.len() && #[trigger] cs[i] == 'x'
}

/// Bit `i` of the vector a binary string denotes (character `i` from
/// the end).
pub open spec fn from_bin_bit(cs: Seq<char>, i: nat) -> bool {
    i < cs.len() && cs[cs.len() - 1 - i as int] == '1'
}

/// The value of one hexadecimal character, 16 for any other character.
pub fn hex_val_char(c: char) -> (d: u32)
    ensures
        d == hex_digit_val(c),
{
    if c == '0' {
        0
    } else if c == '1' {
        1
    } else if c == '2' {
        2
    } else if c == '3' {
        3
    } else if c == '4' {
        4
    } else if c == '5' {
        5
    } else if c == '6' {
        6
    } else if c == '7' {
        7
    } else if c == '8' {
        8
    } else if c == '9' {
        9
    } else if c == 'a' {
        10
    } else if c == 'b' {
        11
    } else if c == 'c' {
        12
    } else if c == 'd' {
        13
    } else if c == 'e' {
        14
    } else if c == 'f' {
        15
    } else {
        16
    }
}

impl Vec3vl {
    /// Parse a hexadecimal string into a fully defined vector of width
    /// `len` (default: four bits per character).  Character `k` from the
    /// end carries bits `4k .. 4k+3`; missing high characters read as
    /// zero, excess ones are ignored.  Fails on a character that is no
    /// hexadecimal digit and on a width beyond `u32`.
    pub fn from_hex(data: &str, len: Option<usize>) -> (r: Result<Vec3vl, CellError>)
        ensures
            ({
                let cs = data@;
                let nbits: int = match len {
                    Option::Some(l) => l as int,
                    Option::None => 4 * cs.len() as int,
                };
                &&& (r is Ok <==> (hex_chars_ok(cs) && nbits <= u32::MAX))
                &&& r is Ok ==> {
                    let o = r->Ok_0;
                    &&& o.bits == nbits
                    &&& o.well_formed()
                    &&& o.is_normalized()
                    &&& o.canonical()
                    &&& o.all_defined()
                    &&& forall|i: nat| i < nbits ==> #[trigger] o.abit(i) == from_hex_bit(cs, i)
                }
                &&& r is Err ==> r->Err_0 == CellError::UnsupportedEncoding
            }),
    {
        let nchars = data.unicode_len();
        let mut ds: Vec<u32> = Vec::new();
        let mut ci: usize = 0;
        while ci < nchars
            invariant
                ci <= nchars,
                nchars == data@.len(),
                ds@.len() == ci,
                forall|j: int| 0 <= j < ci ==> #[trigger] ds@[j] == hex_digit_val(data@[j]) && ds@[j] < 16,
            decreases nchars - ci,
        {
            let c = data.get_char(ci);
            let d = hex_val_char(c);
            if d >= 16 {
                return Err(CellError::UnsupportedEncoding);
            }
            ds.push(d);
            ci = ci + 1;
        }
        proof {
            assert forall|j: int| 0 <= j < data@.len() implies hex_digit_val(#[trigger] data@[j]) < 16 by {
                assert(ds@[j] == hex_digit_val(data@[j]) && ds@[j] < 16);
            }
        }
        let nbits_wide: u64 = match len {
            Some(l) => {
                if l > 0xffff_ffffusize {
                    return Err(CellError::UnsupportedEncoding);
                }
                l as u64
            },
            None => {
                if nchars > 0x3fff_ffffusize {
                    return Err(CellError::UnsupportedEncoding);
                }
                4u64 * (nchars as u64)
            },
        };
        let nbits = nbits_wide as u32;
        let words = Self::word_len(nbits);
        let mut avec = filled_vec(0, words);
        let mut bvec = filled_vec(0, words);
        proof {
            assert forall|j: nat| j / 32 < avec@.len() implies !raw_bit(
                #[trigger] avec@[j as int / 32],
                j % 32,
            ) by {
                lemma_raw_bit_const(j % 32);
            }
        }
        let mut i: u32 = 0;
        while i < nbits
            invariant
                i <= nbits,
                nchars == data@.len(),
                ds@.len() == nchars,
                forall|j: int| 0 <= j < nchars ==> #[trigger] ds@[j] == hex_digit_val(data@[j]) && ds@[j] < 16,
                avec@.len() == word_count(nbits as nat),
                bvec@ == avec@,
                forall|j: nat|
                    j < i ==> #[trigger] raw_bit(avec@[j as int / 32], j % 32) == from_hex_bit(data@, j),
                forall|j: nat|
                    i <= j && j / 32 < avec@.len() ==> !raw_bit(#[trigger] avec@[j as int / 32], j % 32),
            decreases nbits - i,
        {
            proof {
                lemma_bit_word_index(nbits as nat, i as nat);
            }
            let k = (i / 4) as usize;
            let bit = if k < nchars {
                let digit = ds[nchars - 1 - k];
                proof {
                    lemma_bit_is_binary(digit, i % 4);
                }
                (digit >> (i % 4)) & 1 == 1
            } else {
                false
            };
            set_bit_in(&mut avec, i, bit);
            set_bit_in(&mut bvec, i, bit);
            i = i + 1;
        }
        let r = Vec3vl { bits: nbits, avec, bvec };
        proof {
            assert forall|j: int| 0 <= j < r.avec@.len() implies #[trigger] r.avec@[j] & !r.bvec@[j] == 0 by {
                lemma_self_canonical(r.avec@[j]);
            }
            assert forall|i2: nat| i2 < nbits implies #[trigger] r.tri_at(i2) != 0i32 by {
                lemma_bit_word_index(nbits as nat, i2);
            }
            if r.avec@.len() > 0 {
                lemma_normalized_from_bits(r);
            }
        }
        Ok(r)
    }

    /// Parse a binary string into a vector of width `len` (default: one
    /// bit per character).  Any `x` character makes the whole result X;
    /// otherwise character `i` from the end is bit `i`, missing high
    /// characters read as zero and excess ones are ignored.  Fails on a
    /// character outside `0`, `1`, `x` and on a width beyond `u32`.
    pub fn from_binary(data: &str, len: Option<usize>) -> (r: Result<Vec3vl, CellError>)
        ensures
            ({
                let cs = data@;
                let nbits: int = match len {
                    Option::Some(l) => l as int,
                    Option::None => cs.len() as int,
                };
                &&& (r is Ok <==> (bin_chars_ok(cs) && nbits <= u32::MAX))
                &&& r is Ok ==> {
                    let o = r->Ok_0;
                    &&& o.bits == nbits
                    &&& o.well_formed()
                    &&& o.canonical()
                    &&& bin_has_x(cs) ==> forall|i: nat| i < nbits ==> #[trigger] o.tri_at(i) == 0i32
                    &&& !bin_has_x(cs) ==> {
                        &&& o.is_normalized()
                        &&& o.all_defined()
                        &&& forall|i: nat| i < nbits ==> #[trigger] o.abit(i) == from_bin_bit(cs, i)
                    }
                }
                &&& r is Err ==> r->Err_0 == CellError::UnsupportedEncoding
            }),
    {
        let nchars = data.unicode_len();
        let mut bs: Vec<bool> = Vec::new();
        let mut any_x = false;
        let mut ci: usize = 0;
        while ci < nchars
            invariant
                ci <= nchars,
                nchars == data@.len(),
                bs@.len() == ci,
                forall|j: int| 0 <= j < ci ==> #[trigger] bs@[j] == (data@[j] == '1'),
                forall|j: int| 0 <= j < ci ==> (#[trigger] data@[j] == '0' || data@[j] == '1' || data@[j] == 'x'),
                any_x == exists|j: int| 0 <= j < ci && #[trigger] data@[j] == 'x',
            decreases nchars - ci,
        {
            let c = data.get_char(ci);
            if c == 'x' {
                any_x = true;
                bs.push(false);
            } else if c == '1' {
                bs.push(true);
            } else if c == '0' {
                bs.push(false);
            } else {
                return Err(CellError::UnsupportedEncoding);
            }
            ci = ci + 1;
        }
        let nbits_wide: u64 = match len {
            Some(l) => {
                if l > 0xffff_ffffusize {
                    return Err(CellError::UnsupportedEncoding);
                }
                l as u64
            },
            None => {
                if nchars > 0xffff_ffffusize {
                    return Err(CellError::UnsupportedEncoding);
                }
                nchars as u64
            },
        };
        let nbits = nbits_wide as u32;
        if any_x {
            return Ok(Self::xes(nbits));
        }
        let words = Self::word_len(nbits);
        let mut avec = filled_vec(0, words);
        let mut bvec = filled_vec(0, words);
        proof {
            assert forall|j: nat| j / 32 < avec@.len() implies !raw_bit(
                #[trigger] avec@[j as int / 32],
                j % 32,
            ) by {
                lemma_raw_bit_const(j % 32);
            }
        }
        let mut i: u32 = 0;
        while i < nbits
            invariant
                i <= nbits,
                nchars == data@.len(),
                bs@.len() == nchars,
                forall|j: int| 0 <= j < nchars ==> #[trigger] bs@[j] == (data@[j] == '1'),
                avec@.len() == word_count(nbits as nat),
                bvec@ == avec@,
                forall|j: nat|
                    j < i ==> #[trigger] raw_bit(avec@[j as int / 32], j % 32) == from_bin_bit(data@, j),
                forall|j: nat|
                    i <= j && j / 32 < avec@.len() ==> !raw_bit(#[trigger] avec@[j as int / 32], j % 32),
            decreases nbits - i,
        {
            proof {
                lemma_bit_word_index(nbits as nat, i as nat);
            }
            let bit = if (i as usize) < nchars {
                bs[nchars - 1 - (i as usize)]
            } else {
                false
            };
            set_bit_in(&mut avec, i, bit);
            set_bit_in(&mut bvec, i, bit);
            i = i + 1;
        }
        let r = Vec3vl { bits: nbits, avec, bvec };
        proof {
            assert forall|j: int| 0 <= j < r.avec@.len() implies #[trigger] r.avec@[j] & !r.bvec@[j] == 0 by {
                lemma_self_canonical(r.avec@[j]);
            }
            assert forall|i2: nat| i2 < nbits implies #[trigger] r.tri_at(i2) != 0i32 by {
                lemma_bit_word_index(nbits as nat, i2);
            }
            if r.avec@.len() > 0 {
                lemma_normalized_from_bits(r);
            }
        }
        Ok(r)
    }

    /// Rebuild a vector from its wire form (width and the two word
    /// arrays) and normalize it.  Fails when the arrays do not have the
    /// storage the width asks for.
    pub fn from_clonable(bits: u32, avec: Vec<u32>, bvec: Vec<u32>) -> (r: Result<Vec3vl, CellError>)
        ensures
            r is Ok <==> (avec@.len() == word_count(bits as nat) && bvec@.len() == word_count(
                bits as nat,
            )),
            r is Ok ==> {
                let o = r->Ok_0;
                &&& o.bits == bits
                &&& o.is_normalized()
                &&& forall|i: nat| i < bits ==> #[trigger] o.abit(i) == raw_bit(avec@[i as int / 32], i % 32)
                &&& forall|i: nat| i < bits ==> #[trigger] o.bbit(i) == raw_bit(bvec@[i as int / 32], i % 32)
            },
            r is Err ==> r->Err_0 == CellError::UnsupportedEncoding,
    {
        let words = Self::word_len(bits);
        if avec.len() != words || bvec.len() != words {
            return Err(CellError::UnsupportedEncoding);
        }
        let mut v = Vec3vl { bits, avec, bvec };
        v.normalize();
        Ok(v)
    }
}


/// Bits of a normalized last word at or above the width offset are zero.
pub proof fn lemma_norm_high_bit_zero(w: u32, r: u32, b: u32)
    by (bit_vector)
    requires
        0 < r < 32,
        r <= b < 32,
        w & (0xffff_ffffu32 >> ((32 - r) as u32)) == w,
    ensures
        !raw_bit(w, b as nat),
{
}

/// A width that needs `len` words exceeds `32 * (len - 1)` bits.
pub proof fn lemma_word_count_lower(bits: nat)
    by (nonlinear_arith)
    requires
        word_count(bits) > 0,
    ensures
        32 * (word_count(bits) - 1) < bits,
        bits <= 32 * word_count(bits),
{
}

/// Two normalized vectors of one width whose raw bits all agree are
/// structurally equal (word array equality).
pub proof fn lemma_eq_from_bits(a: Vec3vl, b: Vec3vl)
    requires
        a.is_normalized(),
        b.is_normalized(),
        a.bits == b.bits,
        forall|i: nat| i < a.bits ==> #[trigger] a.abit(i) == b.abit(i),
        forall|i: nat| i < a.bits ==> #[trigger] a.bbit(i) == b.bbit(i),
    ensures
        a.avec@ == b.avec@,
        a.bvec@ == b.bvec@,
{
    let len = a.avec@.len() as int;
    assert forall|k: int| 0 <= k < len implies #[trigger] a.avec@[k] == b.avec@[k] by {
        lemma_word_count_lower(a.bits as nat);
        assert forall|bb: nat| bb < 32 implies #[trigger] raw_bit(a.avec@[k], bb) == raw_bit(
            b.avec@[k],
            bb,
        ) by {
            lemma_split_index(k, bb);
            let g: nat = (32 * k + bb) as nat;
            if g < a.bits {
                assert(a.abit(g) == b.abit(g));
            } else {
                assert(k == len - 1);
                assert(a.bits % 32 != 0 && bb >= a.bits % 32) by (nonlinear_arith)
                    requires
                        g == 32 * k + bb,
                        bb < 32,
                        k == (a.bits + 31) / 32 - 1,
                        g >= a.bits,
                        a.bits > 32 * k,
                ;
                lemma_norm_high_bit_zero(a.avec@[k], a.bits % 32, bb as u32);
                lemma_norm_high_bit_zero(b.avec@[k], b.bits % 32, bb as u32);
            }
        }
        lemma_words_equal_bitwise(a.avec@[k], b.avec@[k]);
    }
    assert forall|k: int| 0 <= k < len implies #[trigger] a.bvec@[k] == b.bvec@[k] by {
        lemma_word_count_lower(a.bits as nat);
        assert forall|bb: nat| bb < 32 implies #[trigger] raw_bit(a.bvec@[k], bb) == raw_bit(
            b.bvec@[k],
            bb,
        ) by {
            lemma_split_index(k, bb);
            let g: nat = (32 * k + bb) as nat;
            if g < a.bits {
                assert(a.bbit(g) == b.bbit(g));
            } else {
                assert(k == len - 1);
                assert(a.bits % 32 != 0 && bb >= a.bits % 32) by (nonlinear_arith)
                    requires
                        g == 32 * k + bb,
                        bb < 32,
                        k == (a.bits + 31) / 32 - 1,
                        g >= a.bits,
                        a.bits > 32 * k,
                ;
                lemma_norm_high_bit_zero(a.bvec@[k], a.bits % 32, bb as u32);
                lemma_norm_high_bit_zero(b.bvec@[k], b.bits % 32, bb as u32);
            }
        }
        lemma_words_equal_bitwise(a.bvec@[k], b.bvec@[k]);
    }
    assert(a.avec@ =~= b.avec@);
    assert(a.bvec@ =~= b.bvec@);
}

/// Identity law: AND of a vector with the all-ones vector of its width
/// gives the vector back, word for word.
pub proof fn lemma_and_ones_identity(v: Vec3vl, ones: Vec3vl, o: Vec3vl)
    requires
        v.well_formed(),
        ones.well_formed(),
        o.well_formed(),
        ones.bits == v.bits,
        o.bits == v.bits,
        forall|k: int| 0 <= k < ones.avec@.len() ==> #[trigger] ones.avec@[k] == 0xffff_ffffu32,
        forall|k: int| 0 <= k < ones.bvec@.len() ==> #[trigger] ones.bvec@[k] == 0xffff_ffffu32,
        forall|k: int| 0 <= k < o.avec@.len() ==> #[trigger] o.avec@[k] == v.avec@[k] & ones.avec@[k],
        forall|k: int| 0 <= k < o.bvec@.len() ==> #[trigger] o.bvec@[k] == v.bvec@[k] & ones.bvec@[k],
    ensures
        o.avec@ == v.avec@,
        o.bvec@ == v.bvec@,
{
    lemma_word_ops_auto();
    assert(o.avec@ =~= v.avec@);
    assert(o.bvec@ =~= v.bvec@);
}

/// Identity law: OR of a vector with the all-low vector of its width
/// gives the vector back, word for word.
pub proof fn lemma_or_zeros_identity(v: Vec3vl, zeros: Vec3vl, o: Vec3vl)
    requires
        v.well_formed(),
        zeros.well_formed(),
        o.well_formed(),
        zeros.bits == v.bits,
        o.bits == v.bits,
        forall|k: int| 0 <= k < zeros.avec@.len() ==> #[trigger] zeros.avec@[k] == 0u32,
        forall|k: int| 0 <= k < zeros.bvec@.len() ==> #[trigger] zeros.bvec@[k] == 0u32,
        forall|k: int| 0 <= k < o.avec@.len() ==> #[trigger] o.avec@[k] == v.avec@[k] | zeros.avec@[k],
        forall|k: int| 0 <= k < o.bvec@.len() ==> #[trigger] o.bvec@[k] == v.bvec@[k] | zeros.bvec@[k],
    ensures
        o.avec@ == v.avec@,
        o.bvec@ == v.bvec@,
{
    assert forall|k: int| 0 <= k < o.avec@.len() implies #[trigger] o.avec@[k] == v.avec@[k] by {
        lemma_or_zero(v.avec@[k]);
    }
    assert forall|k: int| 0 <= k < o.bvec@.len() implies #[trigger] o.bvec@[k] == v.bvec@[k] by {
        lemma_or_zero(v.bvec@[k]);
    }
    assert(o.avec@ =~= v.avec@);
    assert(o.bvec@ =~= v.bvec@);
}

/// Identity law: XOR of a canonically encoded vector with the all-low
/// vector of its width gives the vector back, word for word.  (A vector
/// holding the alternate X encoding is the exception: XOR re-encodes
/// its X bits canonically.)
pub proof fn lemma_xor_zeros_identity(v: Vec3vl, zeros: Vec3vl, o: Vec3vl)
    requires
        v.well_formed(),
        v.canonical(),
        zeros.well_formed(),
        o.well_formed(),
        zeros.bits == v.bits,
        o.bits == v.bits,
        forall|k: int| 0 <= k < zeros.avec@.len() ==> #[trigger] zeros.avec@[k] == 0u32,
        forall|k: int| 0 <= k < zeros.bvec@.len() ==> #[trigger] zeros.bvec@[k] == 0u32,
        forall|k: int|
            0 <= k < o.avec@.len() ==> #[trigger] o.avec@[k] == (v.avec@[k] | zeros.avec@[k])
                & (v.bvec@[k] ^ zeros.bvec@[k]),
        forall|k: int|
            0 <= k < o.bvec@.len() ==> #[trigger] o.bvec@[k] == (v.avec@[k] & zeros.avec@[k])
                ^ (v.bvec@[k] | zeros.bvec@[k]),
    ensures
        o.avec@ == v.avec@,
        o.bvec@ == v.bvec@,
{
    assert forall|k: int| 0 <= k < o.avec@.len() implies #[trigger] o.avec@[k] == v.avec@[k] by {
        let a = v.avec@[k];
        let b = v.bvec@[k];
        assert((a | 0u32) & (b ^ 0u32) == a) by (bit_vector)
            requires
                a & !b == 0,
        ;
    }
    assert forall|k: int| 0 <= k < o.bvec@.len() implies #[trigger] o.bvec@[k] == v.bvec@[k] by {
        let a = v.avec@[k];
        let b = v.bvec@[k];
        assert((a & 0u32) ^ (b | 0u32) == b) by (bit_vector);
    }
    assert(o.avec@ =~= v.avec@);
    assert(o.bvec@ =~= v.bvec@);
}

/// Involution law: complementing twice gives the vector back, word for
/// word.
pub proof fn lemma_not_involution(v: Vec3vl, m: Vec3vl, o: Vec3vl)
    requires
        v.well_formed(),
        m.well_formed(),
        o.well_formed(),
        m.bits == v.bits,
        o.bits == v.bits,
        forall|k: int| 0 <= k < m.avec@.len() ==> #[trigger] m.avec@[k] == !v.avec@[k],
        forall|k: int| 0 <= k < m.bvec@.len() ==> #[trigger] m.bvec@[k] == !v.bvec@[k],
        forall|k: int| 0 <= k < o.avec@.len() ==> #[trigger] o.avec@[k] == !m.avec@[k],
        forall|k: int| 0 <= k < o.bvec@.len() ==> #[trigger] o.bvec@[k] == !m.bvec@[k],
    ensures
        o.avec@ == v.avec@,
        o.bvec@ == v.bvec@,
{
    assert forall|k: int| 0 <= k < o.avec@.len() implies #[trigger] o.avec@[k] == v.avec@[k] by {
        let a = v.avec@[k];
        assert(!(!a) == a) by (bit_vector);
    }
    assert forall|k: int| 0 <= k < o.bvec@.len() implies #[trigger] o.bvec@[k] == v.bvec@[k] by {
        let b = v.bvec@[k];
        assert(!(!b) == b) by (bit_vector);
    }
    assert(o.avec@ =~= v.avec@);
    assert(o.bvec@ =~= v.bvec@);
}

/// De Morgan: the complement of an AND equals the OR of the
/// complements, word for word (and hence structurally).
pub proof fn lemma_de_morgan_and(a: Vec3vl, b: Vec3vl, lhs: Vec3vl, rhs: Vec3vl)
    requires
        a.well_formed(),
        b.well_formed(),
        lhs.well_formed(),
        rhs.well_formed(),
        b.bits == a.bits,
        lhs.bits == a.bits,
        rhs.bits == a.bits,
        forall|k: int|
            0 <= k < lhs.avec@.len() ==> #[trigger] lhs.avec@[k] == !(a.avec@[k] & b.avec@[k]),
        forall|k: int|
            0 <= k < lhs.bvec@.len() ==> #[trigger] lhs.bvec@[k] == !(a.bvec@[k] & b.bvec@[k]),
        forall|k: int|
            0 <= k < rhs.avec@.len() ==> #[trigger] rhs.avec@[k] == (!a.avec@[k]) | (!b.avec@[k]),
        forall|k: int|
            0 <= k < rhs.bvec@.len() ==> #[trigger] rhs.bvec@[k] == (!a.bvec@[k]) | (!b.bvec@[k]),
    ensures
        lhs.avec@ == rhs.avec@,
        lhs.bvec@ == rhs.bvec@,
{
    assert forall|k: int| 0 <= k < lhs.avec@.len() implies #[trigger] lhs.avec@[k] == rhs.avec@[k] by {
        let x = a.avec@[k];
        let y = b.avec@[k];
        assert(!(x & y) == !x | !y) by (bit_vector);
    }
    assert forall|k: int| 0 <= k < lhs.bvec@.len() implies #[trigger] lhs.bvec@[k] == rhs.bvec@[k] by {
        let x2 = a.bvec@[k];
        let y2 = b.bvec@[k];
        assert(!(x2 & y2) == !x2 | !y2) by (bit_vector);
    }
    assert(lhs.avec@ =~= rhs.avec@);
    assert(lhs.bvec@ =~= rhs.bvec@);
}

/// De Morgan: the complement of an OR equals the AND of the
/// complements, word for word (and hence structurally).
pub proof fn lemma_de_morgan_or(a: Vec3vl, b: Vec3vl, lhs: Vec3vl, rhs: Vec3vl)
    requires
        a.well_formed(),
        b.well_formed(),
        lhs.well_formed(),
        rhs.well_formed(),
        b.bits == a.bits,
        lhs.bits == a.bits,
        rhs.bits == a.bits,
        forall|k: int|
            0 <= k < lhs.avec@.len() ==> #[trigger] lhs.avec@[k] == !(a.avec@[k] | b.avec@[k]),
        forall|k: int|
            0 <= k < lhs.bvec@.len() ==> #[trigger] lhs.bvec@[k] == !(a.bvec@[k] | b.bvec@[k]),
        forall|k: int|
            0 <= k < rhs.avec@.len() ==> #[trigger] rhs.avec@[k] == (!a.avec@[k]) & (!b.avec@[k]),
        forall|k: int|
            0 <= k < rhs.bvec@.len() ==> #[trigger] rhs.bvec@[k] == (!a.bvec@[k]) & (!b.bvec@[k]),
    ensures
        lhs.avec@ == rhs.avec@,
        lhs.bvec@ == rhs.bvec@,
{
    assert forall|k: int| 0 <= k < lhs.avec@.len() implies #[trigger] lhs.avec@[k] == rhs.avec@[k] by {
        let x = a.avec@[k];
        let y = b.avec@[k];
        assert(!(x | y) == !x & !y) by (bit_vector);
    }
    assert forall|k: int| 0 <= k < lhs.bvec@.len() implies #[trigger] lhs.bvec@[k] == rhs.bvec@[k] by {
        let x2 = a.bvec@[k];
        let y2 = b.bvec@[k];
        assert(!(x2 | y2) == !x2 & !y2) by (bit_vector);
    }
    assert(lhs.avec@ =~= rhs.avec@);
    assert(lhs.bvec@ =~= rhs.bvec@);
}

/// X absorption: at a bit where either operand is X, AND yields low
/// only against a definite low, OR yields high only against a definite
/// high, and XOR is always X.
pub proof fn lemma_x_absorption(x: i32, y: i32)
    requires
        x == 0 || y == 0,
        -1 <= x <= 1,
        -1 <= y <= 1,
    ensures
        tri_and(x, y) == (if x == -1 || y == -1 { -1i32 } else { 0i32 }),
        tri_or(x, y) == (if x == 1 || y == 1 { 1i32 } else { 0i32 }),
        tri_xor(x, y) == 0i32,
{
}

/// Splitting a normalized vector at any position and concatenating the
/// two slices gives the vector back, word for word.
pub proof fn lemma_slice_concat(v: Vec3vl, lo: Vec3vl, hi: Vec3vl, c: Vec3vl, k: u32)
    requires
        v.is_normalized(),
        lo.is_normalized(),
        hi.is_normalized(),
        c.is_normalized(),
        k <= v.bits,
        lo.bits == k,
        hi.bits == v.bits - k,
        c.bits == v.bits,
        forall|i: nat| i < lo.bits ==> #[trigger] lo.abit(i) == v.abit(i),
        forall|i: nat| i < lo.bits ==> #[trigger] lo.bbit(i) == v.bbit(i),
        forall|i: nat| i < hi.bits ==> #[trigger] hi.abit(i) == v.abit((k + i) as nat),
        forall|i: nat| i < hi.bits ==> #[trigger] hi.bbit(i) == v.bbit((k + i) as nat),
        forall|i: nat| i < lo.bits ==> #[trigger] c.abit(i) == lo.abit(i),
        forall|i: nat| i < lo.bits ==> #[trigger] c.bbit(i) == lo.bbit(i),
        forall|i: nat| i < hi.bits ==> #[trigger] c.abit((k + i) as nat) == hi.abit(i),
        forall|i: nat| i < hi.bits ==> #[trigger] c.bbit((k + i) as nat) == hi.bbit(i),
    ensures
        c.avec@ == v.avec@,
        c.bvec@ == v.bvec@,
{
    assert forall|i: nat| i < v.bits implies #[trigger] c.abit(i) == v.abit(i) by {
        if i < k {
            assert(c.abit(i) == lo.abit(i));
        } else {
            let j: nat = (i - k) as nat;
            assert(c.abit((k + j) as nat) == hi.abit(j));
            assert(hi.abit(j) == v.abit((k + j) as nat));
        }
    }
    assert forall|i: nat| i < v.bits implies #[trigger] c.bbit(i) == v.bbit(i) by {
        if i < k {
            assert(c.bbit(i) == lo.bbit(i));
        } else {
            let j: nat = (i - k) as nat;
            assert(c.bbit((k + j) as nat) == hi.bbit(j));
            assert(hi.bbit(j) == v.bbit((k + j) as nat));
        }
    }
    lemma_eq_from_bits(c, v);
}

/// Round trip: parsing the hexadecimal rendering of a normalized, fully
/// defined vector at its own width restores every bit.
pub proof fn lemma_hex_round_trip(v: Vec3vl, i: nat)
    requires
        v.is_normalized(),
        v.all_defined(),
        v.canonical(),
        i < v.bits,
    ensures
        from_hex_bit(v.hex_range(nibble_count(v.bits), 0), i) == v.abit(i),
{
    let cs = v.hex_range(nibble_count(v.bits), 0);
    let nibs = nibble_count(v.bits);
    lemma_hex_range_len(v, nibs, 0);
    let k = i / 4;
    assert(k < nibs) by (nonlinear_arith)
        requires
            k == i / 4,
            i < v.bits,
            nibs == (v.bits + 3) / 4,
    ;
    lemma_hex_range_index(v, nibs, 0, (nibs - 1 - k) as int);
    assert(cs[cs.len() - 1 - i as int / 4] == v.nib_char(k));
    assert(!v.nibble_has_x(k)) by {
        assert forall|j: nat| j < 4 && 4 * k + j < v.bits implies #[trigger] v.tri_at(4 * k + j)
            != 0i32 by {
            assert(v.tri_at(4 * k + j) != 0);
        }
    }
    let d = v.nibble_val(k);
    assert(d < 16);
    lemma_hex_digit_round_trip(d);
    let b = i % 4;
    assert(i == 4 * k + b) by (nonlinear_arith)
        requires
            k == i / 4,
            b == i % 4,
    ;
    assert(raw_bit(d as u32, b) == v.abit(i)) by {
        lemma_nibble_val_bits(v, k);
    }
}

/// The bits of a nibble value are the corresponding `avec` bits.
pub proof fn lemma_nibble_val_bits(v: Vec3vl, k: nat)
    ensures
        forall|j: nat|
            j < 4 ==> #[trigger] raw_bit(v.nibble_val(k) as u32, j) == (4 * k + j < v.bits && v.abit(
                4 * k + j,
            )),
{
    let b0: u32 = if 4 * k < v.bits && v.abit(4 * k) {
        1
    } else {
        0
    };
    let b1: u32 = if 4 * k + 1 < v.bits && v.abit(4 * k + 1) {
        1
    } else {
        0
    };
    let b2: u32 = if 4 * k + 2 < v.bits && v.abit(4 * k + 2) {
        1
    } else {
        0
    };
    let b3: u32 = if 4 * k + 3 < v.bits && v.abit(4 * k + 3) {
        1
    } else {
        0
    };
    let d: u32 = (b0 + 2 * b1 + 4 * b2 + 8 * b3) as u32;
    assert(d == v.nibble_val(k));
    assert forall|j: nat| j < 4 implies #[trigger] raw_bit(d, j) == (if j == 0 {
        b0 == 1
    } else if j == 1 {
        b1 == 1
    } else if j == 2 {
        b2 == 1
    } else {
        b3 == 1
    }) by {
        let jj = j as u32;
        assert(((((b0 + 2 * b1 + 4 * b2 + 8 * b3) as u32) >> jj) & 1 == 1) == (if jj == 0 {
            b0 == 1
        } else if jj == 1 {
            b1 == 1
        } else if jj == 2 {
            b2 == 1
        } else {
            b3 == 1
        })) by (bit_vector)
            requires
                b0 <= 1,
                b1 <= 1,
                b2 <= 1,
                b3 <= 1,
                jj < 4,
        ;
    }
}

/// Length of a hexadecimal character range.
pub proof fn lemma_hex_range_len(v: Vec3vl, hi: nat, lo: nat)
    requires
        lo <= hi,
    ensures
        v.hex_range(hi, lo).len() == hi - lo,
    decreases hi - lo,
{
    if lo < hi {
        lemma_hex_range_len(v, (hi - 1) as nat, lo);
    }
}

/// Character `p` of a hexadecimal range prints nibble `hi - 1 - p`.
pub proof fn lemma_hex_range_index(v: Vec3vl, hi: nat, lo: nat, p: int)
    requires
        lo <= hi,
        0 <= p < hi - lo,
    ensures
        v.hex_range(hi, lo)[p] == v.nib_char((hi - 1 - p) as nat),
    decreases hi - lo,
{
    lemma_hex_range_len(v, hi, lo);
    if p > 0 {
        lemma_hex_range_len(v, (hi - 1) as nat, lo);
        lemma_hex_range_index(v, (hi - 1) as nat, lo, p - 1);
    }
}


/// The value of the first `k` words of a little-endian word sequence.
pub open spec fn words_val_prefix(s: Seq<u32>, k: nat) -> nat
    decreases k,
{
    if k == 0 {
        0
    } else {
        (words_val_prefix(s, (k - 1) as nat) + vstd::arithmetic::power2::pow2(
            (32 * (k - 1)) as nat,
        ) * s[k - 1]) as nat
    }
}

/// The value of a little-endian word sequence.
pub open spec fn words_val(s: Seq<u32>) -> nat {
    words_val_prefix(s, s.len())
}

/// Extending a prefix value by `n` bits of word `k` adds that word
/// chunk's weighted value.
pub proof fn lemma_uval_chunk(v: Vec3vlV, k: nat, n: nat)
    requires
        n <= 32,
        k < v.avec.len(),
    ensures
        view_uval_upto(v, 32 * k + n) == view_uval_upto(v, 32 * k) + vstd::arithmetic::power2::pow2(
            32 * k,
        ) * word_val(v.avec[k as int], n),
    decreases n,
{
    let p32k = vstd::arithmetic::power2::pow2(32 * k);
    if n == 0 {
        assert(p32k * 0 == 0) by (nonlinear_arith);
    } else {
        lemma_uval_chunk(v, k, (n - 1) as nat);
        lemma_split_index(k as int, (n - 1) as nat);
        assert(view_abit(v, (32 * k + n - 1) as nat) == raw_bit(v.avec[k as int], (n - 1) as nat));
        vstd::arithmetic::power2::lemma_pow2_adds(32 * k, (n - 1) as nat);
        let pn1 = vstd::arithmetic::power2::pow2((n - 1) as nat);
        let w = word_val(v.avec[k as int], (n - 1) as nat);
        let b: nat = if raw_bit(v.avec[k as int], (n - 1) as nat) {
            pn1
        } else {
            0
        };
        assert(word_val(v.avec[k as int], n) == w + b);
        assert(p32k * (w + b) == p32k * w + p32k * b) by (nonlinear_arith);
    }
}

/// For a normalized vector, the prefix value over `k` full words equals
/// the word-sequence prefix value.
pub proof fn lemma_uval_words_prefix(v: Vec3vlV, k: nat)
    requires
        k <= v.avec.len(),
        32 * k <= v.bits || k == 0,
    ensures
        view_uval_upto(v, 32 * k) == words_val_prefix(v.avec, k),
    decreases k,
{
    if k > 0 {
        lemma_uval_words_prefix(v, (k - 1) as nat);
        lemma_uval_chunk(v, (k - 1) as nat, 32);
        lemma_word_val_is_mod(v.avec[k - 1], 32);
        vstd::arithmetic::power2::lemma2_to64();
        vstd::arithmetic::div_mod::lemma_small_mod(v.avec[k - 1] as nat, 0x1_0000_0000);
    }
}

/// A word that survives masking with a short mask is below the mask's
/// power of two.
pub proof fn lemma_masked_word_small(w: u32, r: u32)
    by (bit_vector)
    requires
        0 < r < 32,
        w & (0xffff_ffffu32 >> ((32 - r) as u32)) == w,
    ensures
        w < (1u32 << r),
{
}

/// The unsigned value of a normalized vector is the value of its word
/// array.
pub proof fn lemma_uval_words(v: Vec3vlV)
    requires
        view_normalized(v),
    ensures
        view_uval(v) == words_val(v.avec),
    decreases v.avec.len(),
{
    let len = v.avec.len();
    if len == 0 {
        assert(v.bits == 0);
    } else {
        lemma_word_count_lower(v.bits as nat);
        if v.bits % 32 == 0 {
            assert(v.bits == 32 * len) by (nonlinear_arith)
                requires
                    v.bits % 32 == 0,
                    len == (v.bits + 31) / 32,
                    v.bits > 0,
            ;
            lemma_uval_words_prefix(v, len);
        } else {
            let full = (len - 1) as nat;
            let r = (v.bits % 32) as u32;
            assert(v.bits == 32 * (len - 1) + r) by (nonlinear_arith)
                requires
                    r == v.bits % 32,
                    r != 0,
                    len == (v.bits + 31) / 32,
            ;
            assert(v.bits == 32 * full + r);
            lemma_uval_words_prefix(v, full);
            lemma_uval_chunk(v, full, r as nat);
            let w = v.avec.last();
            lemma_masked_word_small(w, r);
            assert((1u32 << r) as nat == vstd::arithmetic::power2::pow2(r as nat)) by {
                vstd::bits::lemma_u32_pow2_no_overflow(r as nat);
                vstd::bits::lemma_u32_shl_is_mul(1u32, r);
            }
            lemma_word_val_is_mod(w, r as nat);
            vstd::arithmetic::div_mod::lemma_small_mod(
                w as nat,
                vstd::arithmetic::power2::pow2(r as nat),
            );
            assert(word_val(w, r as nat) == w);
        }
    }
}

} // verus!









