//! Integers of a given width: their domains, wrap-around arithmetic, and the
//! conversion between bit patterns and values.
use vstd::arithmetic::div_mod::{
    lemma_fundamental_div_mod, lemma_mod_add_multiples_vanish, lemma_mod_equivalence,
    lemma_mod_bound, lemma_mod_multiples_basic, lemma_small_mod,
};
use vstd::arithmetic::mul::{lemma_mul_is_associative, lemma_mul_is_commutative};
use vstd::arithmetic::power2::{
    lemma2_to64, lemma_pow2_adds, lemma_pow2_pos, lemma_pow2_strictly_increases,
    lemma_pow2_unfold, pow2,
};
use vstd::prelude::*;

verus! {

/// Whether an integer type has a sign bit.
#[derive(Clone, Copy, Debug, PartialEq, Eq, Structural)]
pub enum Signedness {
    Unsigned,
    Signed,
}

/// A number of bytes: a size, or an offset from the start of a value.
#[derive(Clone, Copy, Debug, PartialEq, Eq, Structural)]
pub struct Size {
    pub bytes: u64,
}

/// A distance in bytes from the start of a value.
pub type Offset = Size;

/// An alignment requirement in bytes.
#[derive(Clone, Copy, Debug, PartialEq, Eq, Structural)]
pub struct Align {
    pub bytes: u64,
}

impl Size {
    /// The number of bits in this many bytes.
    pub open spec fn bits(self) -> nat {
        (self.bytes * 8) as nat
    }
}

/// One more than the largest value an [`Int`] can hold: 2^128.
pub open spec fn int_limit() -> int {
    0x1_0000_0000_0000_0000_0000_0000_0000_0000int
}

/// An integer between `-2^128` and `2^128 - 1`: wide enough for every value of
/// every integer type of up to 128 bits, signed or unsigned.
///
/// Each number has exactly one representation, so two values are equal exactly
/// when their views are.
#[derive(Clone, Copy, Debug, PartialEq, Eq, Structural)]
pub struct Int {
    negative: bool,
    /// The number itself when it is not negative, and `-n - 1` for a negative `n`.
    rest: u128,
}

impl View for Int {
    type V = int;

    closed spec fn view(&self) -> int {
        if self.negative {
            -(self.rest as int) - 1
        } else {
            self.rest as int
        }
    }
}

/// An integer type: signedness and width.
#[derive(Clone, Copy, Debug, PartialEq, Eq, Structural)]
pub struct IntType {
    pub signed: Signedness,
    pub size: Size,
}

/// The values of the powers of two that bound the widest integers.
pub proof fn lemma_pow2_wide()
    ensures
        pow2(8) == 0x100,
        pow2(64) == 0x1_0000_0000_0000_0000,
        pow2(120) == 0x100_0000_0000_0000_0000_0000_0000_0000,
        pow2(127) == 0x8000_0000_0000_0000_0000_0000_0000_0000,
        pow2(128) == int_limit(),
{
    lemma2_to64();
    lemma_pow2_adds(64, 64);
    lemma_pow2_unfold(128);
    lemma_pow2_adds(120, 8);
}

impl Int {
    /// Whether `i` lies in the interval that an [`Int`] can hold.
    pub open spec fn in_range(i: int) -> bool {
        -int_limit() <= i < int_limit()
    }

    /// The value whose view is `i`, for `i` in range.
    pub closed spec fn of(i: int) -> Int {
        if i < 0 {
            Int { negative: true, rest: (-i - 1) as u128 }
        } else {
            Int { negative: false, rest: i as u128 }
        }
    }

    /// Every value stands for a number in range.
    pub proof fn lemma_view_in_range(self)
        ensures
            Int::in_range(self@),
    {
    }

    /// Every value is the one that stands for its number.
    pub proof fn lemma_of_view(self)
        ensures
            Int::of(self@) == self,
    {
    }

    /// The value for a number in range stands for that number.
    pub proof fn lemma_view_of(i: int)
        requires
            Int::in_range(i),
        ensures
            Int::of(i)@ == i,
    {
    }

    /// Two values are equal exactly when they stand for the same number.
    pub proof fn lemma_view_injective(a: Int, b: Int)
        ensures
            (a@ == b@) <==> (a == b),
    {
    }

    /// The value that stands for `v`.
    pub fn from_u128(v: u128) -> (r: Int)
        ensures
            r@ == v,
    {
        Int { negative: false, rest: v }
    }

    /// The value that stands for `v`.
    pub fn from_i128(v: i128) -> (r: Int)
        ensures
            r@ == v,
    {
        if v < 0 {
            let below: i128 = -(v + 1);
            Int { negative: true, rest: below as u128 }
        } else {
            Int { negative: false, rest: v as u128 }
        }
    }

    /// The number 0.
    pub fn zero() -> (r: Int)
        ensures
            r@ == 0,
    {
        Int { negative: false, rest: 0 }
    }

    /// The number 1.
    pub fn one() -> (r: Int)
        ensures
            r@ == 1,
    {
        Int { negative: false, rest: 1 }
    }

    /// The value as a `u128`, where it is one.
    pub fn to_u128(&self) -> (r: Option<u128>)
        ensures
            self@ >= 0 ==> r == Some(self@ as u128),
            self@ < 0 ==> r is None,
    {
        if self.negative {
            None
        } else {
            Some(self.rest)
        }
    }

    /// The value as an `i128`, where it is one.
    pub fn to_i128(&self) -> (r: Option<i128>)
        ensures
            i128::MIN <= self@ <= i128::MAX ==> r == Some(self@ as i128),
            !(i128::MIN <= self@ <= i128::MAX) ==> r is None,
    {
        if self.rest > 0x7fff_ffff_ffff_ffff_ffff_ffff_ffff_ffffu128 {
            None
        } else {
            let low: i128 = self.rest as i128;
            if self.negative {
                Some(-low - 1)
            } else {
                Some(low)
            }
        }
    }

    /// Whether the number is less than `other`.
    pub fn lt(&self, other: &Int) -> (b: bool)
        ensures
            b == (self@ < other@),
    {
        if self.negative {
            !other.negative || self.rest > other.rest
        } else {
            !other.negative && self.rest < other.rest
        }
    }

    /// Whether the number is at most `other`.
    pub fn le(&self, other: &Int) -> (b: bool)
        ensures
            b == (self@ <= other@),
    {
        !other.lt(self)
    }

    /// The sum, where it is in range.
    pub fn checked_add(&self, rhs: &Int) -> (r: Option<Int>)
        ensures
            Int::in_range(self@ + rhs@) ==> r == Some(Int::of(self@ + rhs@)),
            !Int::in_range(self@ + rhs@) ==> r is None,
    {
        if self.negative && rhs.negative {
            // -(a + 1) - (b + 1) = -(a + b + 1) - 1
            match self.rest.checked_add(rhs.rest) {
                Some(s) => match s.checked_add(1) {
                    Some(t) => Some(Int { negative: true, rest: t }),
                    None => None,
                },
                None => None,
            }
        } else if !self.negative && !rhs.negative {
            match self.rest.checked_add(rhs.rest) {
                Some(s) => Some(Int { negative: false, rest: s }),
                None => None,
            }
        } else {
            let (p, n): (u128, u128) = if self.negative {
                (rhs.rest, self.rest)
            } else {
                (self.rest, rhs.rest)
            };
            // p - (n + 1)
            if p > n {
                Some(Int { negative: false, rest: p - n - 1 })
            } else {
                Some(Int { negative: true, rest: n - p })
            }
        }
    }

    /// The difference, where it is in range.
    pub fn checked_sub(&self, rhs: &Int) -> (r: Option<Int>)
        ensures
            Int::in_range(self@ - rhs@) ==> r == Some(Int::of(self@ - rhs@)),
            !Int::in_range(self@ - rhs@) ==> r is None,
    {
        if rhs.negative {
            // self + (b + 1)
            let b = Int { negative: false, rest: rhs.rest };
            match self.checked_add(&b) {
                Some(s) => s.checked_add(&Int::one()),
                None => {
                    // Only a non-negative `self` can overflow here, and one
                    // more only adds to it.
                    None
                },
            }
        } else if rhs.rest == 0 {
            Some(*self)
        } else {
            let m = Int { negative: true, rest: rhs.rest - 1 };
            self.checked_add(&m)
        }
    }

    /// The 128-bit two's complement pattern of the value: the value modulo 2^128.
    pub fn to_bits(&self) -> (b: u128)
        ensures
            b == self@ % int_limit(),
    {
        if self.negative {
            u128::MAX - self.rest
        } else {
            self.rest
        }
    }

    /// The value brought into the domain of the integer type of the given
    /// signedness and size by wrapping around.
    pub fn modulo(&self, signed: Signedness, size: Size) -> (r: Int)
        requires
            1 <= size.bytes <= 16,
        ensures
            r@ == (IntType { signed, size }).wrap(self@),
    {
        let ity = IntType { signed, size };
        let bits = self.to_bits();
        proof {
            lemma_wrap_congruent_wide(ity, bits as int, self@);
        }
        int_from_bits(bits, ity)
    }
}

impl IntType {
    /// The width in bits.
    pub open spec fn bits(self) -> nat {
        self.size.bits()
    }

    /// Whether values of this type fit an [`Int`]: between 1 and 16 bytes.
    pub open spec fn wf(self) -> bool {
        1 <= self.size.bytes <= 16
    }

    /// The number of values of the type: 2^bits.
    pub open spec fn modulus(self) -> int {
        pow2(self.bits()) as int
    }

    /// The least value of the type.
    pub open spec fn min_value(self) -> int {
        match self.signed {
            Signedness::Unsigned => 0,
            Signedness::Signed => -(pow2((self.bits() - 1) as nat) as int),
        }
    }

    /// The greatest value of the type.
    pub open spec fn max_value(self) -> int {
        match self.signed {
            Signedness::Unsigned => pow2(self.bits()) - 1,
            Signedness::Signed => pow2((self.bits() - 1) as nat) - 1,
        }
    }

    /// Whether `i` is a value of the type.
    pub open spec fn contains(self, i: int) -> bool {
        self.min_value() <= i <= self.max_value()
    }

    /// The value of the type that is congruent to `i` modulo 2^bits.
    pub open spec fn wrap(self, i: int) -> int {
        let r = i % self.modulus();
        if self.signed == Signedness::Signed && r > self.max_value() {
            r - self.modulus()
        } else {
            r
        }
    }

    /// Whether the type has a supported width.
    pub fn is_wf(&self) -> (b: bool)
        ensures
            b == self.wf(),
    {
        1 <= self.size.bytes && self.size.bytes <= 16
    }

    /// The least value of the type.
    pub fn domain_min(&self) -> (r: Int)
        requires
            self.wf(),
        ensures
            r@ == self.min_value(),
    {
        match self.signed {
            Signedness::Unsigned => Int::zero(),
            Signedness::Signed => {
                let top = top_magnitude(self.size.bytes);
                Int { negative: true, rest: top }
            },
        }
    }

    /// The greatest value of the type.
    pub fn domain_max(&self) -> (r: Int)
        requires
            self.wf(),
        ensures
            r@ == self.max_value(),
    {
        let top = top_magnitude(self.size.bytes);
        match self.signed {
            Signedness::Unsigned => {
                proof {
                    lemma_pow2_unfold(self.bits());
                }
                Int { negative: false, rest: top + top + 1 }
            },
            Signedness::Signed => Int { negative: false, rest: top },
        }
    }

    /// Whether `i` is a value of the type.
    pub fn can_represent(&self, i: &Int) -> (b: bool)
        requires
            self.wf(),
        ensures
            b == self.contains(i@),
    {
        self.domain_min().le(i) && i.le(&self.domain_max())
    }
}

/// `2^(8 * bytes - 1) - 1`: the greatest value of the signed type of that size.
fn top_magnitude(bytes: u64) -> (r: u128)
    requires
        1 <= bytes <= 16,
    ensures
        r == pow2((8 * bytes - 1) as nat) - 1,
        r <= 0x7fff_ffff_ffff_ffff_ffff_ffff_ffff_ffff,
{
    let mut r: u128 = 0x7f;
    let mut i: u64 = 1;
    proof {
        lemma2_to64();
    }
    while i < bytes
        invariant
            1 <= i <= bytes <= 16,
            r == pow2((8 * i - 1) as nat) - 1,
        decreases bytes - i,
    {
        proof {
            lemma2_to64();
            lemma_pow2_wide();
            lemma_pow2_adds((8 * i - 1) as nat, 8);
            if 8 * i - 1 < 119 {
                lemma_pow2_strictly_increases((8 * i - 1) as nat, 119);
            }
            lemma_pow2_unfold(120);
        }
        r = r * 256 + 255;
        i = i + 1;
    }
    proof {
        lemma_pow2_wide();
        if 8 * bytes - 1 < 127 {
            lemma_pow2_strictly_increases((8 * bytes - 1) as nat, 127);
        }
    }
    r
}

/// The integer that a bit pattern stands for at a given integer type: the low
/// bits of the pattern, read as an unsigned number or as two's complement.
pub open spec fn int_from_bits_spec(bits: u128, ity: IntType) -> int {
    ity.wrap(bits as int)
}

/// The bit pattern of `v` at the width of `ity`: `v` modulo 2^bits.
pub open spec fn bit_pattern(v: int, ity: IntType) -> u128 {
    (v % ity.modulus()) as u128
}

/// Reads `bits` as a pattern of the width of `ity`: truncated to that width for
/// an unsigned type, sign-extended from its top bit for a signed one.
pub fn int_from_bits(bits: u128, ity: IntType) -> (r: Int)
    requires
        ity.wf(),
    ensures
        r@ == int_from_bits_spec(bits, ity),
        ity.contains(r@),
{
    let top = top_magnitude(ity.size.bytes);
    proof {
        lemma_pow2_wide();
        lemma_pow2_unfold(ity.bits());
        lemma_wrap_in_domain(ity, bits as int);
        if ity.bits() < 128 {
            lemma_pow2_strictly_increases((ity.bits() - 1) as nat, 127);
        }
    }
    let low: u128 = if ity.size.bytes == 16 {
        proof {
            lemma_small_mod(bits as nat, pow2(128));
        }
        bits
    } else {
        bits % (top + top + 2)
    };
    match ity.signed {
        Signedness::Unsigned => Int { negative: false, rest: low },
        Signedness::Signed => {
            if low > top {
                // low - 2^bits = -(2^bits - low - 1) - 1
                Int { negative: true, rest: top + top + 1 - low }
            } else {
                Int { negative: false, rest: low }
            }
        },
    }
}

/// Wrapping lands in the domain of the type.
pub proof fn lemma_wrap_in_domain(ity: IntType, i: int)
    requires
        ity.wf(),
    ensures
        ity.contains(ity.wrap(i)),
{
    lemma_pow2_pos(ity.bits());
    lemma_pow2_unfold(ity.bits());
    lemma_mod_bound(i, ity.modulus());
}

/// Wrapping leaves the values of the type alone, and only those.
pub proof fn lemma_wrap_fixes_domain(ity: IntType, i: int)
    requires
        ity.wf(),
    ensures
        ity.contains(i) <==> ity.wrap(i) == i,
{
    let m = ity.modulus();
    lemma_pow2_pos(ity.bits());
    lemma_pow2_unfold(ity.bits());
    lemma_wrap_in_domain(ity, i);
    if ity.contains(i) {
        if i >= 0 {
            lemma_small_mod(i as nat, m as nat);
        } else {
            lemma_mod_add_multiples_vanish(i, m);
            lemma_small_mod((m + i) as nat, m as nat);
        }
    }
}

/// Numbers that differ by a multiple of 2^bits wrap to the same value.
pub proof fn lemma_wrap_congruent(ity: IntType, a: int, b: int)
    requires
        ity.wf(),
        (a - b) % ity.modulus() == 0,
    ensures
        ity.wrap(a) == ity.wrap(b),
{
    lemma_pow2_pos(ity.bits());
    lemma_mod_equivalence(a, b, ity.modulus());
}

/// Numbers that differ by a multiple of 2^128 wrap to the same value at every
/// supported width.
pub proof fn lemma_wrap_congruent_wide(ity: IntType, a: int, b: int)
    requires
        ity.wf(),
        (a - b) % int_limit() == 0,
    ensures
        ity.wrap(a) == ity.wrap(b),
{
    let m = ity.modulus();
    let rest = pow2((128 - ity.bits()) as nat) as int;
    let k = (a - b) / int_limit();
    lemma_pow2_pos(ity.bits());
    lemma_pow2_wide();
    lemma_pow2_adds((128 - ity.bits()) as nat, ity.bits());
    lemma_fundamental_div_mod(a - b, int_limit());
    assert(a - b == (k * rest) * m) by {
        lemma_mul_is_associative(k, rest, m);
        lemma_mul_is_commutative(int_limit(), k);
    }
    lemma_mod_multiples_basic(k * rest, m);
    lemma_wrap_congruent(ity, a, b);
}

/// Reading the bit pattern of a value of the type gives the value back. This
/// holds of the pattern at the width of the type and of the pattern
/// sign-extended to 128 bits.
pub proof fn lemma_int_from_bits_inverts(ity: IntType, v: int)
    requires
        ity.wf(),
        ity.contains(v),
    ensures
        int_from_bits_spec(bit_pattern(v, ity), ity) == v,
        int_from_bits_spec((v % int_limit()) as u128, ity) == v,
{
    let m = ity.modulus();
    lemma_pow2_pos(ity.bits());
    lemma_pow2_wide();
    if ity.bits() < 128 {
        lemma_pow2_strictly_increases(ity.bits(), 128);
    }
    lemma_mod_bound(v, m);
    lemma_wrap_fixes_domain(ity, v);
    assert(ity.wrap(v % m) == ity.wrap(v)) by {
        lemma_fundamental_div_mod(v, m);
        lemma_mul_is_commutative(m, v / m);
        lemma_mod_multiples_basic(-(v / m), m);
        assert((v % m) - v == (-(v / m)) * m) by (nonlinear_arith)
            requires
                v == m * (v / m) + v % m,
        ;
        lemma_wrap_congruent(ity, v % m, v);
    }
    assert(ity.wrap(v % int_limit()) == ity.wrap(v)) by {
        lemma_wrap_congruent_wide(ity, v % int_limit(), v);
    }
}


/// Every value of a supported integer type is one that an [`Int`] can hold.
pub proof fn lemma_domain_in_range(ity: IntType, v: int)
    requires
        ity.wf(),
        ity.contains(v),
    ensures
        Int::in_range(v),
{
    lemma_pow2_wide();
    lemma_pow2_pos(ity.bits());
    lemma_pow2_unfold(ity.bits());
    if ity.bits() < 128 {
        lemma_pow2_strictly_increases(ity.bits(), 128);
    }
}

/// Numbers that wrap to the same value differ by a multiple of 2^bits.
pub proof fn lemma_wrap_same_is_congruent(ity: IntType, a: int, b: int)
    requires
        ity.wf(),
        ity.wrap(a) == ity.wrap(b),
    ensures
        (a - b) % ity.modulus() == 0,
{
    let m = ity.modulus();
    lemma_pow2_pos(ity.bits());
    lemma_mod_bound(a, m);
    lemma_mod_bound(b, m);
    // Two remainders that differ by a multiple of the modulus are equal.
    assert(a % m == b % m);
    lemma_mod_equivalence(a, b, m);
}

} // verus!
