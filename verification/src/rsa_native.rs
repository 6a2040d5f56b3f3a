use vstd::prelude::*;

verus! {

use crate::bytes::{
    be_value, filled, lemma_be_value_all_ff, lemma_be_value_bound, lemma_pow256_is_pow2,
    u64_to_be_bytes,
};
use crate::encoding::{AttributeEncoder, lemma_pow2_window};
use vstd::arithmetic::power2::pow2;
use vstd::string::{StrSliceExecFns, StringExecFns};

#[verifier::external_type_specification]
#[verifier::external_body]
pub struct ExBigNum(openssl::bn::BigNum);

/// A wrapper for converting attributes to cryptographic integers represented
/// in OpenSSL's arbitrary-precision integers. The ghost value is the signed
/// integer the number stands for; this backend applies no width
/// normalization and no modular reduction.
pub struct BigNumber {
    inner: openssl::bn::BigNum,
    val: Ghost<int>,
}

/// Whether a character is a hexadecimal digit.
pub open spec fn is_hex_digit(c: char) -> bool {
    (48 <= c as u32 <= 57) || (97 <= c as u32 <= 102) || (65 <= c as u32 <= 70)
}

/// The value of a hexadecimal digit.
pub open spec fn hex_digit_value(c: char) -> int {
    if 48 <= c as u32 <= 57 {
        c as u32 - 48
    } else if 97 <= c as u32 <= 102 {
        c as u32 - 87
    } else {
        c as u32 - 55
    }
}

/// The number an all-digit hexadecimal sequence denotes.
pub open spec fn hex_digits_value(s: Seq<char>) -> int
    decreases s.len(),
{
    if s.len() == 0 {
        0
    } else {
        hex_digits_value(s.drop_last()) * 16 + hex_digit_value(s.last())
    }
}

/// A well-formed hexadecimal string: an optional minus sign, then at least
/// one hexadecimal digit and nothing else. The length bound is a machine
/// limit: OpenSSL refuses big numbers beyond about 2^26 bytes, and this cap
/// keeps the denoted number a factor below that.
pub open spec fn is_valid_hex(s: Seq<char>) -> bool {
    &&& s.len() < 0x400_0000
    &&& if s.len() > 0 && s[0] == '-' {
        s.len() >= 2 && (forall|i: int| 1 <= i < s.len() ==> is_hex_digit(#[trigger] s[i]))
    } else {
        s.len() >= 1 && (forall|i: int| 0 <= i < s.len() ==> is_hex_digit(#[trigger] s[i]))
    }
}

/// The signed number a well-formed hexadecimal string denotes.
pub open spec fn hex_string_value(s: Seq<char>) -> int {
    if s.len() > 0 && s[0] == '-' {
        -hex_digits_value(s.skip(1))
    } else {
        hex_digits_value(s)
    }
}

fn hex_digit_exec(c: char) -> (r: bool)
    ensures
        r == is_hex_digit(c),
{
    let u = c as u32;
    (48 <= u && u <= 57) || (97 <= u && u <= 102) || (65 <= u && u <= 70)
}

/// Whether the string is a well-formed hexadecimal number.
fn check_valid_hex(n: &str) -> (r: bool)
    ensures
        r == is_valid_hex(n@),
{
    let len = n.unicode_len();
    if len == 0 {
        return false;
    }
    if len >= 0x400_0000usize {
        return false;
    }
    let first = n.get_char(0);
    let start: usize = if first == '-' {
        1
    } else {
        0
    };
    if start == 1 && len == 1 {
        return false;
    }
    let mut i: usize = start;
    while i < len
        invariant
            start <= i <= len,
            len == n@.len(),
            1 <= len < 0x400_0000,
            start == (if n@[0] == '-' {
                1int
            } else {
                0int
            }),
            start == 1 ==> len >= 2,
            forall|j: int| start <= j < i ==> is_hex_digit(#[trigger] n@[j]),
        decreases len - i,
    {
        let c = n.get_char(i);
        if !hex_digit_exec(c) {
            return false;
        }
        i += 1;
    }
    true
}

/// An all-digit hexadecimal sequence denotes less than 16 to its length.
proof fn lemma_hex_digits_bound(s: Seq<char>)
    requires
        forall|i: int| 0 <= i < s.len() ==> is_hex_digit(#[trigger] s[i]),
    ensures
        0 <= hex_digits_value(s) < pow2(4 * s.len()) as int,
    decreases s.len(),
{
    vstd::arithmetic::power2::lemma2_to64();
    if s.len() > 0 {
        assert(forall|i: int|
            0 <= i < s.drop_last().len() ==> is_hex_digit(#[trigger] s.drop_last()[i]));
        lemma_hex_digits_bound(s.drop_last());
        vstd::arithmetic::power2::lemma_pow2_adds(4 * ((s.len() - 1) as nat), 4);
        assert(0 <= hex_digit_value(s.last()) < 16);
        let p = pow2(4 * ((s.len() - 1) as nat)) as int;
        assert(hex_digits_value(s.drop_last()) * 16 + hex_digit_value(s.last()) < p * 16)
            by (nonlinear_arith)
            requires
                0 <= hex_digits_value(s.drop_last()) < p,
                0 <= hex_digit_value(s.last()) < 16,
        ;
    }
}

/// Relies on OpenSSL's `BN_hex2bn` through `BigNum::from_hex_str`: on a
/// well-formed hexadecimal string (an optional minus sign, then hexadecimal
/// digits and nothing else, short enough to stay below OpenSSL's number-size
/// cap) it returns the signed number the digits denote.
#[verifier::external_body]
fn bn_from_valid_hex(n: &str) -> (r: BigNumber)
    requires
        is_valid_hex(n@),
    ensures
        r.val@ == hex_string_value(n@),
{
    BigNumber { inner: openssl::bn::BigNum::from_hex_str(n).unwrap(), val: Ghost(0) }
}

impl BigNumber {
    /// Convert a hex string to a BigNumber: the signed number denoted by an
    /// optional minus sign and hexadecimal digits. Fails, with a message
    /// naming the input, exactly on strings not of that shape.
    pub fn from_hex(n: &str) -> (r: Result<BigNumber, String>)
        ensures
            match r {
                Ok(b) => is_valid_hex(n@) && b.inv() && b.value() == hex_string_value(n@),
                Err(_) => !is_valid_hex(n@),
            },
    {
        if check_valid_hex(n) {
            let b = bn_from_valid_hex(n);
            proof {
                let s = n@;
                if s[0] == '-' {
                    assert(forall|i: int|
                        0 <= i < s.skip(1).len() ==> is_hex_digit(#[trigger] s.skip(1)[i]));
                    lemma_hex_digits_bound(s.skip(1));
                    crate::encoding::lemma_pow2_le(4 * s.skip(1).len(), 0x1000_0000);
                } else {
                    lemma_hex_digits_bound(s);
                    crate::encoding::lemma_pow2_le(4 * s.len(), 0x1000_0000);
                }
            }
            Ok(b)
        } else {
            let mut msg = String::from_str("Unable to convert ");
            msg.append(n);
            msg.append(" to a BigNumber");
            Err(msg)
        }
    }
}

/// Relies on `BigNum::from_slice` (`BN_bin2bn`): the bytes are read as an
/// unsigned big-endian integer. The length bound stays a factor below the
/// roughly 2^26 bytes at which OpenSSL reports a number as too long.
#[verifier::external_body]
fn bn_from_slice(bytes: &Vec<u8>) -> (r: BigNumber)
    requires
        bytes@.len() < 0x200_0000,
    ensures
        r.val@ == be_value(bytes@),
{
    BigNumber { inner: openssl::bn::BigNum::from_slice(bytes.as_slice()).unwrap(), val: Ghost(0) }
}

/// Relies on `BigNumRef::checked_add` (`BN_add`): exact signed addition.
/// The operand bounds keep the result below the size at which OpenSSL
/// reports a number as too long.
#[verifier::external_body]
fn bn_add(a: &BigNumber, b: &BigNumber) -> (r: BigNumber)
    requires
        -(pow2(0x1000_0000) as int) < a.val@ < pow2(0x1000_0000) as int,
        -(pow2(0x1000_0000) as int) < b.val@ < pow2(0x1000_0000) as int,
    ensures
        r.val@ == a.val@ + b.val@,
{
    let mut bn = openssl::bn::BigNum::new().unwrap();
    openssl::bn::BigNumRef::checked_add(&mut bn, &a.inner, &b.inner).unwrap();
    BigNumber { inner: bn, val: Ghost(0) }
}

/// Relies on `BigNumRef::checked_sub` (`BN_sub`): exact signed subtraction.
/// The operand bounds keep the result below the size at which OpenSSL
/// reports a number as too long.
#[verifier::external_body]
fn bn_sub(a: &BigNumber, b: &BigNumber) -> (r: BigNumber)
    requires
        -(pow2(0x1000_0000) as int) < a.val@ < pow2(0x1000_0000) as int,
        -(pow2(0x1000_0000) as int) < b.val@ < pow2(0x1000_0000) as int,
    ensures
        r.val@ == a.val@ - b.val@,
{
    let mut bn = openssl::bn::BigNum::new().unwrap();
    openssl::bn::BigNumRef::checked_sub(&mut bn, &a.inner, &b.inner).unwrap();
    BigNumber { inner: bn, val: Ghost(0) }
}

/// Relies on `BigNum::from_slice`, `BigNumRef::to_vec`, `is_negative` and
/// `set_negative`: a copy of the magnitude with the sign flipped, zero
/// staying non-negative. The operand bound keeps the magnitude's round trip
/// below the size at which OpenSSL reports a number as too long.
#[verifier::external_body]
fn bn_neg(a: &BigNumber) -> (r: BigNumber)
    requires
        -(pow2(0x1000_0000) as int) < a.val@ < pow2(0x1000_0000) as int,
    ensures
        r.val@ == -a.val@,
{
    let mut bn = openssl::bn::BigNum::from_slice(&a.inner.to_vec()).unwrap();
    bn.set_negative(!a.inner.is_negative());
    BigNumber { inner: bn, val: Ghost(0) }
}

/// Relies on `BigNum`'s `PartialEq` (`BN_cmp`): an exact, sign-aware
/// comparison.
#[verifier::external_body]
fn bn_eq(a: &BigNumber, b: &BigNumber) -> (r: bool)
    ensures
        r == (a.val@ == b.val@),
{
    a.inner == b.inner
}

/// Relies on `BigNumRef::to_owned` (`BN_dup`): an identical copy.
#[verifier::external_body]
fn bn_clone(a: &BigNumber) -> (r: BigNumber)
    ensures
        r.val@ == a.val@,
{
    BigNumber { inner: a.inner.to_owned().unwrap(), val: Ghost(0) }
}

impl AttributeEncoder for BigNumber {
    closed spec fn value(self) -> int {
        self.val@
    }

    closed spec fn inv(self) -> bool {
        Self::in_domain(self.val@)
    }

    open spec fn reduce(x: int) -> int {
        x
    }

    open spec fn from_bytes_spec(b: Seq<u8>) -> int {
        be_value(b)
    }

    open spec fn max_spec() -> int {
        0xFFFFFFFFFFFFFFFFFFFFFFFFFFFFFFFFFFFFFFFFFFFFFFFFFFFFFFFFFFFFFFFFint
    }

    /// The window this backend constructs in: numbers of up to 2^28 bits,
    /// half the size at which OpenSSL reports a number as too long.
    open spec fn in_domain(x: int) -> bool {
        -(pow2(0x1000_0000) as int) < x < pow2(0x1000_0000) as int
    }

    proof fn lemma_domain_window(a: int) {
        crate::encoding::lemma_pow2_le(131072, 0x1000_0000);
        lemma_pow2_window();
        vstd::arithmetic::power2::lemma_pow2_adds(128, 128);
        vstd::arithmetic::power2::lemma_pow2_adds(256, 1);
        vstd::arithmetic::power2::lemma2_to64();
    }

    proof fn lemma_reduce_add(a: int, b: int) {
    }

    proof fn lemma_reduce_identity(a: int) {
    }

    proof fn lemma_from_bytes(b: Seq<u8>) {
        lemma_be_value_bound(b);
        lemma_pow256_is_pow2(b.len());
        crate::encoding::lemma_pow2_le(8 * b.len(), 8 * b.len() + 257);
    }

    fn max() -> (r: Self) {
        let ones = filled(0xFFu8, 32);
        let r = bn_from_slice(&ones);
        proof {
            lemma_be_value_all_ff(ones@);
            lemma_pow256_is_pow2(32);
            vstd::arithmetic::power2::lemma_pow2_adds(128, 128);
            lemma_pow2_window();
            crate::encoding::lemma_pow2_le(256, 0x1000_0000);
        }
        r
    }

    fn zero_center() -> (r: Self) {
        let mut v: Vec<u8> = Vec::new();
        v.push(0x40u8);
        let mut z = filled(0u8, 31);
        v.append(&mut z);
        let r = bn_from_slice(&v);
        proof {
            vstd::arithmetic::power2::lemma_pow2_strictly_increases(254, 0x1000_0000);
            let s = v@;
            let lead = seq![0x40u8];
            assert(s =~= lead + s.skip(1));
            assert(lead.drop_last() =~= Seq::<u8>::empty());
            assert(be_value(lead) == be_value(lead.drop_last()) * 256 + 0x40);
            crate::bytes::lemma_be_value_zero_suffix(lead, s.skip(1));
            lemma_pow256_is_pow2(31);
            vstd::arithmetic::power2::lemma_pow2_adds(6, 248);
            vstd::arithmetic::power2::lemma2_to64();
            lemma_pow2_window();
        }
        r
    }

    fn from_vec(v: Vec<u8>) -> (r: Self) {
        let r = bn_from_slice(&v);
        proof {
            lemma_be_value_bound(v@);
            lemma_pow256_is_pow2(v@.len());
            crate::encoding::lemma_pow2_le(8 * v@.len(), 0x1000_0000);
        }
        r
    }

    fn from_u64(v: u64) -> (r: Self) {
        let bytes = u64_to_be_bytes(v);
        let r = bn_from_slice(&bytes);
        proof {
            lemma_pow2_window();
            crate::encoding::lemma_pow2_le(64, 0x1000_0000);
        }
        r
    }

    fn add(self, rhs: Self) -> (r: Self) {
        bn_add(&self, &rhs)
    }

    fn sub(self, rhs: Self) -> (r: Self) {
        bn_sub(&self, &rhs)
    }

    fn neg(self) -> (r: Self) {
        bn_neg(&self)
    }

    fn duplicate(&self) -> (r: Self) {
        bn_clone(self)
    }

    fn equals(&self, other: &Self) -> (r: bool) {
        bn_eq(self, other)
    }
}

/// In this backend the decimal pipeline's magnitude encodes as itself: the
/// round trip through the shortest big-endian byte form is exact, with no
/// width normalization and no reduction.
pub proof fn lemma_magnitude_roundtrip_exact(m: nat)
    ensures
        BigNumber::from_bytes_spec(crate::bytes::min_be_bytes(m)) == m,
{
    crate::bytes::lemma_min_be_bytes_value(m);
}

} // verus!
