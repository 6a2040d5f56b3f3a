use vstd::prelude::*;

verus! {

use vstd::arithmetic::power::pow;
use vstd::arithmetic::power2::pow2;
use vstd::arithmetic::div_mod::{
    lemma_fundamental_div_mod, lemma_fundamental_div_mod_converse, lemma_mod_bound,
};
use crate::bytes::{be_value, lemma_be_value_bound, min_be_bytes};
use crate::encoding::{AttributeEncoder, lemma_pow2_window, zero_center_value};

#[verifier::external_type_specification]
#[verifier::external_body]
pub struct ExBigInt(num_bigint::BigInt);

#[verifier::external_type_specification]
#[verifier::external_body]
pub struct ExBigDecimal(bigdecimal::BigDecimal);

/// Sign of an arbitrary-precision integer, mirroring num-bigint's three-way
/// sign.
pub enum SignKind {
    Negative,
    Zero,
    Positive,
}

/// An arbitrary-precision integer with its ghost reading.
struct BigIntVal {
    inner: num_bigint::BigInt,
    val: Ghost<int>,
}

/// An arbitrary-precision decimal `digits * 10^-scale`, with the ghost
/// reading of its two components.
struct BigDecVal {
    inner: bigdecimal::BigDecimal,
    ival: Ghost<int>,
    scale: Ghost<int>,
}

/// The signed integer a (sign, magnitude bytes) pair denotes.
pub open spec fn signed_digits_value(negative: bool, digits: Seq<u8>) -> int {
    if negative {
        -be_value(digits)
    } else {
        be_value(digits)
    }
}

/// Relies on num-bigint's `BigInt::from_bytes_be`: a big-endian magnitude
/// with the given sign; a zero magnitude yields zero whatever the sign.
#[verifier::external_body]
fn bigint_from_bytes_be(negative: bool, digits: &Vec<u8>) -> (r: BigIntVal)
    ensures
        r.val@ == signed_digits_value(negative, digits@),
{
    let sign = if negative {
        num_bigint::Sign::Minus
    } else {
        num_bigint::Sign::Plus
    };
    BigIntVal { inner: num_bigint::BigInt::from_bytes_be(sign, digits.as_slice()), val: Ghost(0) }
}

/// Relies on `BigDecimal::new`: the decimal with exactly the given digits
/// and scale.
#[verifier::external_body]
fn bigdec_new(digits: BigIntVal, scale: i64) -> (r: BigDecVal)
    ensures
        r.ival@ == digits.val@,
        r.scale@ == scale as int,
{
    BigDecVal {
        inner: bigdecimal::BigDecimal::new(digits.inner, scale),
        ival: Ghost(0),
        scale: Ghost(0),
    }
}

/// Relies on `BigDecimal::double`: twice the digits at the same scale.
#[verifier::external_body]
fn bigdec_double(d: &BigDecVal) -> (r: BigDecVal)
    ensures
        r.ival@ == 2 * d.ival@,
        r.scale@ == d.scale@,
{
    BigDecVal { inner: d.inner.double(), ival: Ghost(0), scale: Ghost(0) }
}

/// Relies on `BigDecimal::half`: even digits are halved at the same scale,
/// odd digits are multiplied by five with the scale raised by one.
#[verifier::external_body]
fn bigdec_half(d: &BigDecVal) -> (r: BigDecVal)
    requires
        d.scale@ < 0x7FFF_FFFF_FFFF_FFFF,
    ensures
        d.ival@ % 2 == 0 ==> r.ival@ == d.ival@ / 2 && r.scale@ == d.scale@,
        d.ival@ % 2 != 0 ==> r.ival@ == 5 * d.ival@ && r.scale@ == d.scale@ + 1,
{
    BigDecVal { inner: d.inner.half(), ival: Ghost(0), scale: Ghost(0) }
}

/// Relies on `BigDecimal::into_bigint_and_exponent`: the digits as they
/// stand; the exponent it also returns is left unspecified here.
#[verifier::external_body]
fn bigdec_into_bigint(d: BigDecVal) -> (r: (BigIntVal, i64))
    ensures
        r.0.val@ == d.ival@,
{
    let (bi, e) = d.inner.into_bigint_and_exponent();
    (BigIntVal { inner: bi, val: Ghost(0) }, e)
}

/// Relies on `BigInt::to_bytes_be`: the sign and the magnitude's shortest
/// big-endian byte form; zero yields a single zero byte.
#[verifier::external_body]
fn bigint_to_bytes_be(i: &BigIntVal) -> (r: (SignKind, Vec<u8>))
    ensures
        i.val@ == 0 ==> r.0 is Zero && r.1@ == seq![0u8],
        i.val@ > 0 ==> r.0 is Positive && r.1@ == min_be_bytes(i.val@ as nat),
        i.val@ < 0 ==> r.0 is Negative && r.1@ == min_be_bytes((-i.val@) as nat),
{
    let (sign, bytes) = i.inner.to_bytes_be();
    let kind = match sign {
        num_bigint::Sign::Minus => SignKind::Negative,
        num_bigint::Sign::NoSign => SignKind::Zero,
        num_bigint::Sign::Plus => SignKind::Positive,
    };
    (kind, bytes)
}

/// `k` halvings of a decimal's digits: an even number is divided by two, an
/// odd one is multiplied by five (its scale absorbing the shift).
pub open spec fn halve_int(i: int, k: nat) -> int
    decreases k,
{
    if k == 0 {
        i
    } else if i % 2 == 0 {
        halve_int(i / 2, (k - 1) as nat)
    } else {
        halve_int(5 * i, (k - 1) as nat)
    }
}

/// How many halvings a decimal of the given scale gets: one per digit after
/// the decimal point beyond fifteen.
pub open spec fn halving_steps(scale: int) -> nat {
    if scale > 15 {
        (scale - 15) as nat
    } else {
        0
    }
}

/// The digits the scaling pipeline ends with: the input digits doubled 254
/// times, then halved once per scale digit beyond fifteen.
pub open spec fn scaled_decimal_int(i0: int, scale: int) -> int {
    halve_int(i0 * pow2(254), halving_steps(scale))
}

/// The decimal reading of a finite nonzero 64-bit float, as the conversion
/// from floats renders it (sixteen significant digits): its sign, the
/// big-endian bytes of its decimal digits, and its decimal scale.
pub struct DecimalParts {
    pub negative: bool,
    pub digits: Vec<u8>,
    pub scale: i64,
}

impl DecimalParts {
    /// The window the decimal reading of any 64-bit float lies in: its scale
    /// and the byte length of its digits, both with generous margin.
    pub open spec fn wf(self) -> bool {
        -0x8000 <= self.scale <= 0x8000 && self.digits@.len() <= 64
    }
}

/// The classification of a 64-bit float, with the decimal reading of a
/// normal value; this is what the float-free encoder consumes.
pub enum FloatClass {
    NanOrSubnormal,
    Zero,
    PositiveInfinity,
    NegativeInfinity,
    Normal(DecimalParts),
}

impl FloatClass {
    pub open spec fn wf(self) -> bool {
        match self {
            FloatClass::Normal(p) => p.wf(),
            _ => true,
        }
    }
}

/// The backend integer a normal decimal reading encodes to: the scaled
/// magnitude itself when positive, the origin when the digits vanish, and
/// the origin minus the magnitude when negative.
pub open spec fn decimal_encoding<T: AttributeEncoder>(
    negative: bool,
    digits: Seq<u8>,
    scale: int,
) -> int {
    let m = scaled_decimal_int(signed_digits_value(negative, digits), scale);
    if m == 0 {
        zero_center_value()
    } else if m > 0 {
        T::from_bytes_spec(min_be_bytes(m as nat))
    } else {
        T::reduce(zero_center_value() - T::from_bytes_spec(min_be_bytes((-m) as nat)))
    }
}

/// The backend integer each float classification encodes to.
pub open spec fn float_class_encoding<T: AttributeEncoder>(c: FloatClass) -> int {
    match c {
        FloatClass::NanOrSubnormal => T::reduce(T::max_spec() - 8),
        FloatClass::Zero => zero_center_value(),
        FloatClass::PositiveInfinity => T::reduce(T::max_spec() - 9),
        FloatClass::NegativeInfinity => 8,
        FloatClass::Normal(p) => decimal_encoding::<T>(p.negative, p.digits@, p.scale as int),
    }
}

/// Takes the classification of a 64-bit float and converts it to a backend
/// integer: NaN and subnormal values hit the `max - 8` sentinel, infinities
/// the `max - 9` and `8` sentinels, zero the origin, and a normal value goes
/// through the decimal scaling pipeline. Total: never fails.
pub fn encode_from_f64<T: AttributeEncoder>(value: FloatClass) -> (r: Result<T, String>)
    requires
        value.wf(),
    ensures
        r is Ok,
        r->Ok_0.inv(),
        r->Ok_0.value() == float_class_encoding::<T>(value),
{
    match value {
        FloatClass::NanOrSubnormal => {
            proof {
                lemma_sentinel_in_domain::<T>();
            }
            Ok(T::max().sub(T::from_u64(8)))
        },
        FloatClass::Zero => Ok(T::zero_center()),
        FloatClass::PositiveInfinity => {
            proof {
                lemma_sentinel_in_domain::<T>();
            }
            Ok(T::max().sub(T::from_u64(9)))
        },
        FloatClass::NegativeInfinity => Ok(T::from_u64(8)),
        FloatClass::Normal(parts) => {
            let DecimalParts { negative, digits, scale } = parts;
            let ghost i0 = signed_digits_value(negative, digits@);
            let start = bigint_from_bytes_be(negative, &digits);
            let mut b = bigdec_new(start, scale);
            let mut j: u64 = 0;
            proof {
                vstd::arithmetic::power2::lemma2_to64();
            }
            while j < crate::BITS_IN_ZERO
                invariant
                    j <= 254,
                    b.ival@ == i0 * pow2(j as nat),
                    b.scale@ == scale as int,
                decreases 254 - j,
            {
                b = bigdec_double(&b);
                proof {
                    vstd::arithmetic::power2::lemma_pow2_adds(j as nat, 1);
                    vstd::arithmetic::power2::lemma2_to64();
                    assert(2 * (i0 * pow2(j as nat)) == i0 * (pow2(j as nat) * 2))
                        by (nonlinear_arith);
                }
                j = j + 1;
            }
            let mut d: i64 = scale;
            while d > 15
                invariant
                    -0x8000 <= scale <= 0x8000,
                    d <= scale,
                    -0x8000 <= b.scale@ <= scale + (scale - d),
                    halve_int(b.ival@, halving_steps(d as int)) == scaled_decimal_int(
                        i0,
                        scale as int,
                    ),
                decreases d,
            {
                let ghost prev = b.ival@;
                b = bigdec_half(&b);
                d = d - 1;
                proof {
                    assert(halve_int(prev, ((d + 1) - 15) as nat) == halve_int(
                        b.ival@,
                        (d - 15) as nat,
                    ));
                }
            }
            let pair = bigdec_into_bigint(b);
            let (sign, bytes) = bigint_to_bytes_be(&pair.0);
            proof {
                assert(halving_steps(d as int) == 0);
                assert(pair.0.val@ == scaled_decimal_int(i0, scale as int));
                lemma_be_value_bound(digits@);
                vstd::arithmetic::power::lemma_pow_increases(256, digits@.len(), 64);
                crate::bytes::lemma_pow256_is_pow2(64);
                lemma_scaled_magnitude_len(i0, scale as int);
            }
            match sign {
                SignKind::Zero => Ok(T::zero_center()),
                SignKind::Positive => Ok(T::from_vec(bytes)),
                SignKind::Negative => {
                    let mag = T::from_vec(bytes);
                    proof {
                        let m = scaled_decimal_int(i0, scale as int);
                        let f = T::from_bytes_spec(min_be_bytes((-m) as nat));
                        T::lemma_reduce_add(-f, zero_center_value());
                        T::lemma_from_bytes(min_be_bytes((-m) as nat));
                        lemma_pow2_window();
                        crate::encoding::lemma_pow2_le(
                            8 * min_be_bytes((-m) as nat).len() + 257,
                            131071,
                        );
                        vstd::arithmetic::power2::lemma_pow2_adds(131071, 1);
                        vstd::arithmetic::power2::lemma2_to64();
                        crate::encoding::lemma_pow2_le(254, 131071);
                        T::lemma_domain_window(-f);
                        T::lemma_domain_window(T::reduce(-f) + zero_center_value());
                    }
                    Ok(mag.neg().add(T::zero_center()))
                },
            }
        },
    }
}

/// Halving never grows a non-negative quantity beyond a factor of five per
/// step.
proof fn lemma_halve_int_growth(i: int, k: nat)
    requires
        i >= 0,
    ensures
        0 <= halve_int(i, k) <= i * pow(5, k),
    decreases k,
{
    if k == 0 {
        vstd::arithmetic::power::lemma_pow0(5);
    } else {
        let p = pow(5, (k - 1) as nat);
        vstd::arithmetic::power::lemma_pow_positive(5, (k - 1) as nat);
        assert(pow(5, k) == 5 * p) by {
            vstd::arithmetic::power::lemma_pow_adds(5, 1, (k - 1) as nat);
            vstd::arithmetic::power::lemma_pow1(5);
        }
        lemma_fundamental_div_mod(i, 2);
        lemma_mod_bound(i, 2);
        if i % 2 == 0 {
            lemma_halve_int_growth(i / 2, (k - 1) as nat);
            assert((i / 2) * p <= i * (5 * p)) by (nonlinear_arith)
                requires
                    0 <= i / 2 <= i,
                    p >= 1,
            ;
        } else {
            lemma_halve_int_growth(5 * i, (k - 1) as nat);
            assert((5 * i) * p == i * (5 * p)) by (nonlinear_arith);
        }
    }
}

/// Five to a power stays below two to three times that power.
proof fn lemma_pow5_le_pow2(k: nat)
    ensures
        1 <= pow(5, k) <= pow2(3 * k),
    decreases k,
{
    if k == 0 {
        vstd::arithmetic::power::lemma_pow0(5);
        vstd::arithmetic::power2::lemma2_to64();
    } else {
        lemma_pow5_le_pow2((k - 1) as nat);
        assert(pow(5, k) == 5 * pow(5, (k - 1) as nat)) by {
            vstd::arithmetic::power::lemma_pow_adds(5, 1, (k - 1) as nat);
            vstd::arithmetic::power::lemma_pow1(5);
        }
        vstd::arithmetic::power2::lemma_pow2_adds(3, (3 * k - 3) as nat);
        vstd::arithmetic::power2::lemma2_to64();
        assert(5 * pow(5, (k - 1) as nat) <= 8 * pow2((3 * k - 3) as nat)) by (nonlinear_arith)
            requires
                1 <= pow(5, (k - 1) as nat) <= pow2((3 * k - 3) as nat),
        ;
    }
}

/// For every well-formed decimal reading, the scaled magnitude's shortest
/// byte form stays far below the byte-count limit of `from_vec`.
proof fn lemma_scaled_magnitude_len(i0: int, scale: int)
    requires
        -pow2(512) < i0 < pow2(512),
        -0x8000 <= scale <= 0x8000,
    ensures
        ({
            let m = scaled_decimal_int(i0, scale);
            &&& (m >= 0 ==> min_be_bytes(m as nat).len() <= 12384)
            &&& (m < 0 ==> min_be_bytes((-m) as nat).len() <= 12384)
        }),
{
    let k = halving_steps(scale);
    let a = if i0 >= 0 { i0 } else { -i0 };
    let m = scaled_decimal_int(i0, scale);
    let mag = if m >= 0 { m } else { -m };
    lemma_pow2_window();
    assert(0 <= a < pow2(512));
    assert(i0 * pow2(254) == if i0 >= 0 { a * pow2(254) } else { -(a * pow2(254)) })
        by (nonlinear_arith)
        requires
            a == (if i0 >= 0 { i0 } else { -i0 }),
    ;
    lemma_halve_int_neg(a * pow2(254), k);
    vstd::arithmetic::power2::lemma_pow2_pos(254);
    assert(a * pow2(254) >= 0) by (nonlinear_arith)
        requires
            a >= 0,
            pow2(254) > 0,
    ;
    lemma_halve_int_sign(a * pow2(254), k);
    assert(mag == halve_int(a * pow2(254), k));
    lemma_halve_int_growth(a * pow2(254), k);
    lemma_pow5_le_pow2(k);
    assert(pow2(512) * pow2(254) == pow2(766)) by {
        vstd::arithmetic::power2::lemma_pow2_adds(512, 254);
    }
    assert(a * pow2(254) < pow2(766)) by (nonlinear_arith)
        requires
            0 <= a < pow2(512),
            pow2(512) * pow2(254) == pow2(766),
            pow2(254) > 0,
    ;
    assert(mag < pow2(766) * pow2(3 * k)) by (nonlinear_arith)
        requires
            0 <= mag <= (a * pow2(254)) * pow(5, k),
            0 <= a * pow2(254) < pow2(766),
            1 <= pow(5, k) <= pow2(3 * k),
    ;
    assert(pow2(766) * pow2(3 * k) == pow2(766 + 3 * k)) by {
        vstd::arithmetic::power2::lemma_pow2_adds(766, 3 * k);
    }
    assert(k <= 0x8000);
    vstd::arithmetic::power2::lemma_pow2(766 + 3 * k);
    vstd::arithmetic::power2::lemma_pow2(99072);
    vstd::arithmetic::power::lemma_pow_increases(2, 766 + 3 * k, 99072);
    crate::bytes::lemma_pow256_is_pow2(12384);
    crate::bytes::lemma_min_be_bytes_len(mag as nat, 12384);
}

/// The two near-maximum sentinels sit inside every backend's domain.
proof fn lemma_sentinel_in_domain<T: AttributeEncoder>()
    ensures
        T::in_domain(T::max_spec() - 8),
        T::in_domain(T::max_spec() - 9),
{
    lemma_pow2_window();
    crate::encoding::lemma_pow2_le(64, 131072);
    crate::encoding::lemma_pow2_le(257, 131072);
    T::lemma_domain_window(T::max_spec() - 8);
    T::lemma_domain_window(T::max_spec() - 9);
}

/// Halving keeps a positive quantity positive and a nonzero one nonzero.
proof fn lemma_halve_int_sign(i: int, k: nat)
    ensures
        i > 0 ==> halve_int(i, k) > 0,
        i < 0 ==> halve_int(i, k) < 0,
        i == 0 ==> halve_int(i, k) == 0,
    decreases k,
{
    if k > 0 {
        lemma_fundamental_div_mod(i, 2);
        if i % 2 == 0 {
            lemma_halve_int_sign(i / 2, (k - 1) as nat);
        } else {
            lemma_halve_int_sign(5 * i, (k - 1) as nat);
        }
    }
}

/// Halving commutes with negation.
proof fn lemma_halve_int_neg(i: int, k: nat)
    ensures
        halve_int(-i, k) == -halve_int(i, k),
    decreases k,
{
    if k > 0 {
        lemma_fundamental_div_mod(i, 2);
        lemma_mod_bound(i, 2);
        if i % 2 == 0 {
            lemma_fundamental_div_mod_converse(-i, 2, -(i / 2), 0);
            lemma_halve_int_neg(i / 2, (k - 1) as nat);
        } else {
            lemma_fundamental_div_mod_converse(-i, 2, -(i / 2) - 1, 1);
            lemma_halve_int_neg(5 * i, (k - 1) as nat);
            assert(5 * (-i) == -(5 * i));
        }
    }
}

/// The negation-symmetry law of the decimal encoder: for every finite
/// nonzero decimal reading, the encoding of a value and the encoding of its
/// negation add up to the zero-centering origin, in every backend.
pub proof fn lemma_decimal_negation_symmetry<T: AttributeEncoder>(digits: Seq<u8>, scale: int)
    requires
        be_value(digits) != 0,
    ensures
        T::reduce(
            decimal_encoding::<T>(false, digits, scale) + decimal_encoding::<T>(
                true,
                digits,
                scale,
            ),
        ) == zero_center_value(),
{
    let v = be_value(digits);
    let k = halving_steps(scale);
    lemma_be_value_bound(digits);
    lemma_pow2_window();
    assert(v * pow2(254) > 0) by (nonlinear_arith)
        requires
            v > 0,
            pow2(254) > 0,
    ;
    assert((-v) * pow2(254) == -(v * pow2(254))) by (nonlinear_arith);
    let mp = scaled_decimal_int(v, scale);
    lemma_halve_int_sign(v * pow2(254), k);
    lemma_halve_int_neg(v * pow2(254), k);
    assert(mp > 0);
    assert(scaled_decimal_int(-v, scale) == -mp);
    let f = T::from_bytes_spec(min_be_bytes(mp as nat));
    assert(decimal_encoding::<T>(false, digits, scale) == f);
    assert(decimal_encoding::<T>(true, digits, scale) == T::reduce(zero_center_value() - f));
    T::lemma_reduce_add(zero_center_value() - f, f);
    T::lemma_reduce_identity(zero_center_value());
}

/// The negation-symmetry law at the level of float classifications: a finite
/// nonzero float and its negation classify to the same digits and scale with
/// opposite signs, and their encodings add up to the zero-centering origin,
/// in every backend.
pub proof fn lemma_f64_negation_symmetry<T: AttributeEncoder>(p: DecimalParts, q: DecimalParts)
    requires
        be_value(p.digits@) != 0,
        q.negative == !p.negative,
        q.digits@ == p.digits@,
        q.scale == p.scale,
    ensures
        T::reduce(
            float_class_encoding::<T>(FloatClass::Normal(p)) + float_class_encoding::<T>(
                FloatClass::Normal(q),
            ),
        ) == zero_center_value(),
{
    lemma_decimal_negation_symmetry::<T>(p.digits@, p.scale as int);
}

} // verus!
