use vstd::prelude::*;

verus! {

use vstd::arithmetic::power2::pow2;
use vstd::arithmetic::div_mod::{
    lemma_fundamental_div_mod_converse, lemma_mod_add_multiples_vanish, lemma_small_mod,
};
use crate::bytes::{be_value, filled, lemma_be_value_zero_prefix, u64_to_be_bytes};
use crate::rfc3339::{parse_rfc3339, rfc3339_parse};
use crate::hash::{sha256_of, sha256_utf8};

/// The zero-centering origin: 2 to the power of `BITS_IN_ZERO`.
pub open spec fn zero_center_value() -> int {
    pow2(254) as int
}

/// The value of a 64-bit signed quantity after a wrapping cast to unsigned.
pub open spec fn wrap_u64(x: int) -> int {
    x % pow2(64) as int
}

/// Interface of an integer backend: a domain of integers with addition,
/// subtraction, negation, construction from a 64-bit value or from big-endian
/// bytes, and a domain maximum. The spec members give the backend's
/// mathematical reading: `value` is the integer a backend value stands for,
/// `reduce` is the normalization its arithmetic applies (reduction modulo the
/// field order for the fixed-width backend, the identity for the
/// arbitrary-precision one), and `from_bytes_spec` is what `from_vec` yields.
pub trait AttributeEncoder: Sized {
    /// The integer this backend value stands for.
    spec fn value(self) -> int;

    /// Which values arise in this backend's domain; every operation keeps it.
    spec fn inv(self) -> bool;

    /// The normalization the backend's arithmetic applies to a result.
    spec fn reduce(x: int) -> int;

    /// The integer `from_vec` yields on a byte sequence.
    spec fn from_bytes_spec(b: Seq<u8>) -> int;

    /// The domain's maximum value.
    spec fn max_spec() -> int;

    /// Which integers the backend can hold at all: everything, for the
    /// modular backend; for the arbitrary-precision backend a very wide but
    /// finite window, since OpenSSL refuses numbers beyond about 2^26 bytes.
    spec fn in_domain(x: int) -> bool;

    /// The encoders' working window sits inside every backend's domain,
    /// reduction keeps values inside that window, and the domain maximum is
    /// itself bounded.
    proof fn lemma_domain_window(a: int)
        ensures
            -(pow2(131072) as int) < a < pow2(131072) as int ==> Self::in_domain(a),
            -(pow2(131071) as int) < a < pow2(131071) as int ==> -(pow2(131071) as int)
                < Self::reduce(a) < pow2(131071) as int,
            0 <= Self::max_spec() < pow2(257) as int,
    ;

    /// `reduce` is a congruence for addition, subtraction and negation.
    proof fn lemma_reduce_add(a: int, b: int)
        ensures
            Self::reduce(Self::reduce(a) + b) == Self::reduce(a + b),
            Self::reduce(a + Self::reduce(b)) == Self::reduce(a + b),
            Self::reduce(Self::reduce(a) - b) == Self::reduce(a - b),
            Self::reduce(a - Self::reduce(b)) == Self::reduce(a - b),
            Self::reduce(-Self::reduce(a)) == Self::reduce(-a),
    ;

    /// `reduce` leaves the window where encodings of realistic attribute
    /// values live untouched.
    proof fn lemma_reduce_identity(a: int)
        requires
            0 <= a < pow2(254) as int + pow2(128) as int,
        ensures
            Self::reduce(a) == a,
    ;

    /// Bytes always canonicalize to a non-negative, reduced domain value, and
    /// short inputs are read as plain big-endian integers.
    proof fn lemma_from_bytes(b: Seq<u8>)
        ensures
            Self::reduce(Self::from_bytes_spec(b)) == Self::from_bytes_spec(b),
            0 <= Self::from_bytes_spec(b) < pow2(8 * b.len() + 257) as int,
            b.len() <= 32 ==> Self::from_bytes_spec(b) == Self::reduce(be_value(b)),
    ;

    /// Return the highest value of the domain.
    fn max() -> (r: Self)
        ensures
            r.inv(),
            r.value() == Self::max_spec(),
    ;

    /// Return the value that represents zero.
    fn zero_center() -> (r: Self)
        ensures
            r.inv(),
            r.value() == zero_center_value(),
    ;

    /// Canonicalize a big-endian byte sequence into the domain. The length
    /// bound is a machine limit: OpenSSL refuses big numbers beyond about
    /// 2^26 bytes, and the backends stay a factor below that cap.
    fn from_vec(v: Vec<u8>) -> (r: Self)
        requires
            v@.len() < 0x200_0000,
        ensures
            r.inv(),
            r.value() == Self::from_bytes_spec(v@),
    ;

    /// Construct the domain value of a 64-bit unsigned integer.
    fn from_u64(v: u64) -> (r: Self)
        ensures
            r.inv(),
            r.value() == v as int,
    ;

    fn add(self, rhs: Self) -> (r: Self)
        requires
            self.inv(),
            rhs.inv(),
            Self::in_domain(self.value() + rhs.value()),
        ensures
            r.inv(),
            r.value() == Self::reduce(self.value() + rhs.value()),
    ;

    fn sub(self, rhs: Self) -> (r: Self)
        requires
            self.inv(),
            rhs.inv(),
            Self::in_domain(self.value() - rhs.value()),
        ensures
            r.inv(),
            r.value() == Self::reduce(self.value() - rhs.value()),
    ;

    fn neg(self) -> (r: Self)
        requires
            self.inv(),
            Self::in_domain(-self.value()),
        ensures
            r.inv(),
            r.value() == Self::reduce(-self.value()),
    ;

    /// An independent copy standing for the same integer.
    fn duplicate(&self) -> (r: Self)
        requires
            self.inv(),
        ensures
            r.inv(),
            r.value() == self.value(),
    ;

    /// Whether two backend values stand for the same integer.
    fn equals(&self, other: &Self) -> (r: bool)
        requires
            self.inv(),
            other.inv(),
        ensures
            r == (self.value() == other.value()),
    ;
}

/// The fixed 32-byte pattern reserved for the null sentinel: all zero but the
/// final byte, which is 7.
pub open spec fn null_bytes() -> Seq<u8> {
    Seq::new(32, |i: int| if i == 31 { 7u8 } else { 0u8 })
}

/// The reserved encoding for a missing attribute. Its value is 7 in every
/// backend, so the sentinel is backend-independent.
pub fn encoded_null<T: AttributeEncoder>() -> (r: Result<T, String>)
    ensures
        r is Ok,
        r->Ok_0.inv(),
        r->Ok_0.value() == 7,
{
    let mut null = filled(0u8, 31);
    null.push(7u8);
    proof {
        assert(null@ =~= null_bytes());
        lemma_null_bytes_value();
        T::lemma_from_bytes(null_bytes());
        lemma_pow2_window();
        T::lemma_reduce_identity(7);
    }
    Ok(T::from_vec(null))
}

/// The null pattern reads as the integer 7.
proof fn lemma_null_bytes_value()
    ensures
        be_value(null_bytes()) == 7,
{
    let z = null_bytes().take(31);
    let t = seq![7u8];
    assert(null_bytes() =~= z + t);
    lemma_be_value_zero_prefix(z, t);
    assert(be_value(t) == be_value(t.drop_last()) * 256 + 7);
    assert(be_value(t.drop_last()) == 0) by {
        assert(t.drop_last().len() == 0);
    }
}

/// Numeric window facts shared by the encoders.
pub proof fn lemma_pow2_window()
    ensures
        pow2(254) as int == 0x4000000000000000000000000000000000000000000000000000000000000000,
        pow2(128) as int == 0x100000000000000000000000000000000,
        pow2(64) as int == 0x10000000000000000,
{
    vstd::arithmetic::power2::lemma2_to64();
    assert(pow2(64) == 0x10000000000000000);
    assert(pow2(128) == 0x100000000000000000000000000000000) by {
        vstd::arithmetic::power2::lemma_pow2_adds(64, 64);
    }
    assert(pow2(62) == 0x4000000000000000) by {
        vstd::arithmetic::power2::lemma_pow2_adds(32, 30);
    }
    assert(pow2(192) == 0x1000000000000000000000000000000000000000000000000) by {
        vstd::arithmetic::power2::lemma_pow2_adds(128, 64);
    }
    assert(pow2(254) == 0x4000000000000000000000000000000000000000000000000000000000000000) by {
        vstd::arithmetic::power2::lemma_pow2_adds(192, 62);
    }
}

/// Powers of two grow with the exponent.
pub proof fn lemma_pow2_le(e1: nat, e2: nat)
    requires
        e1 <= e2,
    ensures
        pow2(e1) <= pow2(e2),
{
    vstd::arithmetic::power2::lemma_pow2(e1);
    vstd::arithmetic::power2::lemma_pow2(e2);
    vstd::arithmetic::power::lemma_pow_increases(2, e1, e2);
}

/// The value of 2 to the 255, one doubling above the origin.
pub proof fn lemma_pow2_255()
    ensures
        pow2(255) as int == 0x8000000000000000000000000000000000000000000000000000000000000000,
{
    lemma_pow2_window();
    vstd::arithmetic::power2::lemma_pow2_adds(254, 1);
    vstd::arithmetic::power2::lemma2_to64();
}

/// The wrapping cast of a signed 64-bit value to unsigned, without leaving
/// the 64-bit world.
fn i64_wrap_to_u64(v: i64) -> (r: u64)
    ensures
        r as int == wrap_u64(v as int),
{
    proof {
        lemma_pow2_window();
    }
    if v >= 0 {
        proof {
            lemma_small_mod(v as nat, pow2(64) as int as nat);
        }
        v as u64
    } else {
        let m: u64 = ((-(v + 1)) as u64) + 1;
        proof {
            assert(m == -(v as int));
            lemma_mod_add_multiples_vanish(v as int, pow2(64) as int);
            lemma_small_mod((pow2(64) as int + v) as nat, pow2(64) as int as nat);
        }
        (u64::MAX - m) + 1
    }
}

/// Takes a date string formatted according to RFC3339 and converts it to the
/// backend integer `zeroCenter + timestampSeconds`, the signed epoch seconds
/// read through a wrapping cast to unsigned. Fails exactly on strings the
/// RFC3339 parser rejects.
pub fn encode_from_rfc3339_as_unixtimestamp<T: AttributeEncoder>(value: &str) -> (r: Result<
    T,
    String,
>)
    ensures
        match rfc3339_parse(value@) {
            Some(p) => r is Ok && r->Ok_0.inv() && r->Ok_0.value() == zero_center_value()
                + wrap_u64(p.0),
            None => r is Err,
        },
{
    match parse_rfc3339(value) {
        Ok(p) => {
            let ts = i64_wrap_to_u64(p.0);
            proof {
                lemma_pow2_window();
                vstd::arithmetic::div_mod::lemma_mod_bound(p.0 as int, pow2(64) as int);
                T::lemma_reduce_identity(pow2(254) as int + wrap_u64(p.0 as int));
                lemma_pow2_255();
                lemma_pow2_le(255, 131072);
                T::lemma_domain_window(pow2(254) as int + wrap_u64(p.0 as int));
            }
            Ok(T::zero_center().add(T::from_u64(ts)))
        },
        Err(e) => Err(e),
    }
}

/// The fixed reference instant for day counting.
pub open spec fn base1900_str() -> Seq<char> {
    "1900-01-01T00:00:00.000+00:00"@
}

/// The whole-day difference between two instants, each given as (epoch
/// seconds, subsecond nanoseconds): the exact difference in seconds, rounded
/// toward zero to whole days.
pub open spec fn days_between(p: (int, int), b: (int, int)) -> int {
    let total = (p.0 - b.0) * 1_000_000_000 + (p.1 - b.1);
    let secs = total / 1_000_000_000;
    let nanos = total % 1_000_000_000;
    let whole = if secs < 0 && nanos > 0 {
        secs + 1
    } else {
        secs
    };
    if whole >= 0 {
        whole / 86400
    } else {
        -((-whole) / 86400)
    }
}

/// The whole-day difference, on machine integers.
fn whole_days_between(p: (i64, u32), b: (i64, u32)) -> (d: i64)
    requires
        -0x1_0000_0000_0000 < p.0 < 0x1_0000_0000_0000,
        p.1 < 2_000_000_000,
        -0x1_0000_0000_0000 < b.0 < 0x1_0000_0000_0000,
        b.1 < 2_000_000_000,
    ensures
        d == days_between((p.0 as int, p.1 as int), (b.0 as int, b.1 as int)),
        -0x1_0000_0000_0000 < d < 0x1_0000_0000_0000,
{
    let ghost total = (p.0 - b.0) * 1_000_000_000 + (p.1 - b.1);
    let mut secs: i64 = p.0 - b.0;
    let mut nanos: i64 = (p.1 as i64) - (b.1 as i64);
    if nanos < -1_000_000_000 {
        secs = secs - 2;
        nanos = nanos + 2_000_000_000;
    } else if nanos < 0 {
        secs = secs - 1;
        nanos = nanos + 1_000_000_000;
    } else if nanos >= 1_000_000_000 {
        secs = secs + 1;
        nanos = nanos - 1_000_000_000;
    }
    proof {
        assert(total == secs * 1_000_000_000 + nanos);
        lemma_fundamental_div_mod_converse(total, 1_000_000_000, secs as int, nanos as int);
    }
    let whole: i64 = if secs < 0 && nanos > 0 {
        secs + 1
    } else {
        secs
    };
    if whole >= 0 {
        ((whole as u64) / 86400) as i64
    } else {
        -((((-whole) as u64) / 86400) as i64)
    }
}

/// Takes a date string formatted according to RFC3339 and converts it to the
/// backend integer `zeroCenter + dayCount`, the whole-day difference from the
/// fixed reference instant 1900-01-01T00:00:00.000+00:00, read through a
/// wrapping cast to unsigned. Fails exactly on strings the RFC3339 parser
/// rejects.
pub fn encode_from_rfc3339_as_dayssince1900<T: AttributeEncoder>(value: &str) -> (r: Result<
    T,
    String,
>)
    ensures
        match (rfc3339_parse(value@), rfc3339_parse(base1900_str())) {
            (Some(p), Some(base)) => r is Ok && r->Ok_0.inv() && r->Ok_0.value()
                == zero_center_value() + wrap_u64(days_between(p, base)),
            _ => r is Err,
        },
{
    let p = match parse_rfc3339(value) {
        Ok(p) => p,
        Err(e) => { return Err(e) },
    };
    let base = match parse_rfc3339("1900-01-01T00:00:00.000+00:00") {
        Ok(b) => b,
        Err(e) => { return Err(e) },
    };
    let days = whole_days_between(p, base);
    let wrapped = i64_wrap_to_u64(days);
    proof {
        lemma_pow2_window();
        vstd::arithmetic::div_mod::lemma_mod_bound(days as int, pow2(64) as int);
        T::lemma_reduce_identity(pow2(254) as int + wrap_u64(days as int));
        lemma_pow2_255();
        lemma_pow2_le(255, 131072);
        T::lemma_domain_window(pow2(254) as int + wrap_u64(days as int));
    }
    Ok(T::zero_center().add(T::from_u64(wrapped)))
}

/// Takes a UTF-8 string and converts it to a backend integer through a
/// 32-byte cryptographic digest: the digest bytes are canonicalized with
/// `from_vec`, deliberately without the zero-centering offset. The hash here
/// is SHA-256; `from_vec` on any other 32-byte digest gives the same scheme
/// for a different hash.
pub fn encode_from_utf8_as_hash<T: AttributeEncoder>(value: &str) -> (r: Result<T, String>)
    ensures
        r is Ok,
        r->Ok_0.inv(),
        r->Ok_0.value() == T::from_bytes_spec(sha256_of(value@)),
{
    let digest = sha256_utf8(value);
    Ok(T::from_vec(digest))
}

/// Takes a signed 64-bit number and converts it to the backend integer
/// `zeroCenter + value`: values below the origin for negative inputs, above
/// it for positive ones, with the minimum representable value going through
/// its raw big-endian bit pattern. Total: never fails.
pub fn encode_from_isize<T: AttributeEncoder>(value: i64) -> (r: Result<T, String>)
    ensures
        r is Ok,
        r->Ok_0.inv(),
        r->Ok_0.value() == zero_center_value() + value as int,
{
    proof {
        lemma_pow2_window();
    }
    if value < 0 {
        if value == i64::MIN {
            let bytes = u64_to_be_bytes(0x8000_0000_0000_0000u64);
            let mag = T::from_vec(bytes);
            proof {
                T::lemma_from_bytes(bytes@);
                T::lemma_reduce_identity(0x8000_0000_0000_0000);
                T::lemma_reduce_add(pow2(254) as int, 0x8000_0000_0000_0000);
                T::lemma_reduce_identity(pow2(254) as int - 0x8000_0000_0000_0000);
                lemma_pow2_255();
                lemma_pow2_le(255, 131072);
                T::lemma_domain_window(pow2(254) as int - mag.value());
            }
            Ok(T::zero_center().sub(mag))
        } else {
            let mag = T::from_u64((-value) as u64);
            proof {
                T::lemma_reduce_identity(pow2(254) as int + value as int);
                lemma_pow2_255();
                lemma_pow2_le(255, 131072);
                T::lemma_domain_window(pow2(254) as int - mag.value());
            }
            Ok(T::zero_center().sub(mag))
        }
    } else {
        let mag = T::from_u64(value as u64);
        proof {
            T::lemma_reduce_identity(pow2(254) as int + value as int);
            lemma_pow2_255();
            lemma_pow2_le(255, 131072);
            T::lemma_domain_window(pow2(254) as int + mag.value());
        }
        Ok(T::zero_center().add(mag))
    }
}

/// Takes an unsigned 64-bit number and converts it to the backend integer
/// `zeroCenter + value`, routing the value through its big-endian byte
/// representation as the signed encoder's minimum-value case does. Total:
/// never fails.
pub fn encode_from_usize<T: AttributeEncoder>(value: u64) -> (r: Result<T, String>)
    ensures
        r is Ok,
        r->Ok_0.inv(),
        r->Ok_0.value() == zero_center_value() + value as int,
{
    proof {
        lemma_pow2_window();
    }
    let bytes = u64_to_be_bytes(value);
    let mag = T::from_vec(bytes);
    proof {
        T::lemma_from_bytes(bytes@);
        T::lemma_reduce_identity(value as int);
        T::lemma_reduce_add(pow2(254) as int, value as int);
        T::lemma_reduce_identity(pow2(254) as int + value as int);
        lemma_pow2_255();
        lemma_pow2_le(255, 131072);
        T::lemma_domain_window(pow2(254) as int + mag.value());
    }
    Ok(T::zero_center().add(mag))
}

} // verus!
