use vstd::prelude::*;

verus! {

use vstd::arithmetic::power::pow;
use vstd::arithmetic::div_mod::lemma_fundamental_div_mod;

/// The integer denoted by a big-endian byte sequence.
pub open spec fn be_value(b: Seq<u8>) -> int
    decreases b.len(),
{
    if b.len() == 0 {
        0
    } else {
        be_value(b.drop_last()) * 256 + b.last()
    }
}

/// The shortest big-endian byte sequence denoting `n`; empty for zero.
pub open spec fn min_be_bytes(n: nat) -> Seq<u8>
    decreases n,
{
    if n == 0 {
        Seq::empty()
    } else {
        min_be_bytes(n / 256) + seq![(n % 256) as u8]
    }
}

/// `min_be_bytes` denotes the number it was built from and never starts
/// with a zero byte.
pub proof fn lemma_min_be_bytes_value(n: nat)
    ensures
        be_value(min_be_bytes(n)) == n,
        n > 0 ==> min_be_bytes(n).len() >= 1 && min_be_bytes(n).first() != 0,
    decreases n,
{
    if n > 0 {
        lemma_min_be_bytes_value(n / 256);
        let s = min_be_bytes(n);
        assert(s.drop_last() =~= min_be_bytes(n / 256));
        lemma_fundamental_div_mod(n as int, 256);
        if n / 256 == 0 {
            assert(s.first() == (n % 256) as u8);
        } else {
            assert(s.first() == min_be_bytes(n / 256).first());
        }
    }
}

/// A big-endian byte sequence denotes a non-negative value below
/// 256 to the power of its length.
pub proof fn lemma_be_value_bound(b: Seq<u8>)
    ensures
        0 <= be_value(b) < pow(256, b.len()),
    decreases b.len(),
{
    if b.len() == 0 {
        vstd::arithmetic::power::lemma_pow0(256);
    } else {
        lemma_be_value_bound(b.drop_last());
        vstd::arithmetic::power::lemma_pow_adds(256, 1, (b.len() - 1) as nat);
        vstd::arithmetic::power::lemma_pow1(256);
        assert(pow(256, b.len()) == 256 * pow(256, (b.len() - 1) as nat));
        assert(be_value(b) == be_value(b.drop_last()) * 256 + b.last());
        assert(be_value(b.drop_last()) * 256 + b.last() < 256 * pow(256, (b.len() - 1) as nat))
            by (nonlinear_arith)
            requires
                0 <= be_value(b.drop_last()) < pow(256, (b.len() - 1) as nat),
                0 <= b.last() < 256,
        ;
    }
}

/// Prepending zero bytes does not change the denoted value.
pub proof fn lemma_be_value_zero_prefix(z: Seq<u8>, b: Seq<u8>)
    requires
        forall|i: int| 0 <= i < z.len() ==> z[i] == 0,
    ensures
        be_value(z + b) == be_value(b),
    decreases b.len(),
{
    if b.len() == 0 {
        assert(z + b =~= z);
        lemma_be_value_zeros(z);
    } else {
        assert((z + b).drop_last() =~= z + b.drop_last());
        assert((z + b).last() == b.last());
        lemma_be_value_zero_prefix(z, b.drop_last());
    }
}

/// A sequence of zero bytes denotes zero.
pub proof fn lemma_be_value_zeros(z: Seq<u8>)
    requires
        forall|i: int| 0 <= i < z.len() ==> z[i] == 0,
    ensures
        be_value(z) == 0,
    decreases z.len(),
{
    if z.len() > 0 {
        lemma_be_value_zeros(z.drop_last());
    }
}

/// Appending zero bytes multiplies the denoted value by 256 per byte.
pub proof fn lemma_be_value_zero_suffix(b: Seq<u8>, z: Seq<u8>)
    requires
        forall|i: int| 0 <= i < z.len() ==> z[i] == 0,
    ensures
        be_value(b + z) == be_value(b) * pow(256, z.len()),
    decreases z.len(),
{
    if z.len() == 0 {
        assert(b + z =~= b);
        vstd::arithmetic::power::lemma_pow0(256);
    } else {
        assert((b + z).drop_last() =~= b + z.drop_last());
        lemma_be_value_zero_suffix(b, z.drop_last());
        vstd::arithmetic::power::lemma_pow_adds(256, (z.len() - 1) as nat, 1);
        vstd::arithmetic::power::lemma_pow1(256);
        assert(be_value(b) * pow(256, (z.len() - 1) as nat) * 256 == be_value(b) * pow(
            256,
            z.len(),
        )) by (nonlinear_arith)
            requires
                pow(256, z.len()) == pow(256, (z.len() - 1) as nat) * 256,
        ;
    }
}

/// A sequence of all-ones bytes denotes one less than 256 to the power of
/// its length.
pub proof fn lemma_be_value_all_ff(b: Seq<u8>)
    requires
        forall|i: int| 0 <= i < b.len() ==> b[i] == 0xFF,
    ensures
        be_value(b) == pow(256, b.len()) - 1,
    decreases b.len(),
{
    if b.len() == 0 {
        vstd::arithmetic::power::lemma_pow0(256);
    } else {
        lemma_be_value_all_ff(b.drop_last());
        vstd::arithmetic::power::lemma_pow_adds(256, 1, (b.len() - 1) as nat);
        vstd::arithmetic::power::lemma_pow1(256);
    }
}

/// A number below 256 to the power of `len_bound` needs at most `len_bound`
/// bytes.
pub proof fn lemma_min_be_bytes_len(n: nat, len_bound: nat)
    requires
        n < pow(256, len_bound),
    ensures
        min_be_bytes(n).len() <= len_bound,
    decreases n,
{
    if n > 0 {
        vstd::arithmetic::power::lemma_pow0(256);
        assert(len_bound >= 1);
        vstd::arithmetic::power::lemma_pow_adds(256, 1, (len_bound - 1) as nat);
        vstd::arithmetic::power::lemma_pow1(256);
        vstd::arithmetic::div_mod::lemma_multiply_divide_lt(
            n as int,
            256,
            pow(256, (len_bound - 1) as nat),
        );
        lemma_min_be_bytes_len((n / 256) as nat, (len_bound - 1) as nat);
    }
}

/// Powers of 256 are powers of two.
pub proof fn lemma_pow256_is_pow2(n: nat)
    ensures
        pow(256, n) == vstd::arithmetic::power2::pow2(8 * n),
{
    vstd::arithmetic::power2::lemma2_to64();
    vstd::arithmetic::power2::lemma_pow2(8);
    vstd::arithmetic::power::lemma_pow_multiplies(2, 8, n);
    vstd::arithmetic::power2::lemma_pow2(8 * n);
}

/// A vector holding `count` copies of `value`.
pub fn filled(value: u8, count: usize) -> (r: Vec<u8>)
    ensures
        r@.len() == count,
        forall|i: int| 0 <= i < count ==> r@[i] == value,
{
    let mut out: Vec<u8> = Vec::new();
    let mut i: usize = 0;
    while i < count
        invariant
            i <= count,
            out@.len() == i,
            forall|j: int| 0 <= j < i ==> out@[j] == value,
        decreases count - i,
    {
        out.push(value);
        i += 1;
    }
    out
}

/// The eight-byte big-endian representation of a 64-bit value.
pub fn u64_to_be_bytes(v: u64) -> (r: Vec<u8>)
    ensures
        r@.len() == 8,
        be_value(r@) == v as int,
{
    let b0: u64 = (v >> 56) & 0xFF;
    let b1: u64 = (v >> 48) & 0xFF;
    let b2: u64 = (v >> 40) & 0xFF;
    let b3: u64 = (v >> 32) & 0xFF;
    let b4: u64 = (v >> 24) & 0xFF;
    let b5: u64 = (v >> 16) & 0xFF;
    let b6: u64 = (v >> 8) & 0xFF;
    let b7: u64 = v & 0xFF;
    proof {
        assert(b0 < 256 && b1 < 256 && b2 < 256 && b3 < 256 && b4 < 256 && b5 < 256 && b6 < 256
            && b7 < 256) by (bit_vector)
            requires
                b0 == (v >> 56) & 0xFF,
                b1 == (v >> 48) & 0xFF,
                b2 == (v >> 40) & 0xFF,
                b3 == (v >> 32) & 0xFF,
                b4 == (v >> 24) & 0xFF,
                b5 == (v >> 16) & 0xFF,
                b6 == (v >> 8) & 0xFF,
                b7 == v & 0xFF,
        ;
        assert(v == ((((((b0 * 256 + b1) * 256 + b2) * 256 + b3) * 256 + b4) * 256 + b5) * 256
            + b6) * 256 + b7) by (bit_vector)
            requires
                b0 == (v >> 56) & 0xFF,
                b1 == (v >> 48) & 0xFF,
                b2 == (v >> 40) & 0xFF,
                b3 == (v >> 32) & 0xFF,
                b4 == (v >> 24) & 0xFF,
                b5 == (v >> 16) & 0xFF,
                b6 == (v >> 8) & 0xFF,
                b7 == v & 0xFF,
        ;
    }
    let r: Vec<u8> = vec![
        b0 as u8,
        b1 as u8,
        b2 as u8,
        b3 as u8,
        b4 as u8,
        b5 as u8,
        b6 as u8,
        b7 as u8,
    ];
    proof {
        let s = r@;
        assert(be_value(s) == ((((((b0 * 256 + b1) * 256 + b2) * 256 + b3) * 256 + b4) * 256 + b5)
            * 256 + b6) * 256 + b7) by {
            reveal_with_fuel(be_value, 9);
            assert(s.drop_last().drop_last().drop_last().drop_last().drop_last().drop_last()
                .drop_last().drop_last() =~= Seq::<u8>::empty());
        }
    }
    r
}

} // verus!
