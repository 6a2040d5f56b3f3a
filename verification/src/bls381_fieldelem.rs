use vstd::prelude::*;

verus! {

use vstd::arithmetic::power2::pow2;
use vstd::arithmetic::div_mod::{
    lemma_add_mod_noop, lemma_mod_bound, lemma_mod_twice, lemma_small_mod, lemma_sub_mod_noop,
};
use crate::bytes::{
    be_value, filled, lemma_be_value_zero_prefix, lemma_be_value_zero_suffix, lemma_pow256_is_pow2,
    u64_to_be_bytes,
};
use crate::encoding::{AttributeEncoder, lemma_pow2_window};

/// The order of the BLS12-381 prime-order subgroup: the modulus of this
/// backend's domain.
pub open spec fn curve_order() -> int {
    0x73EDA753299D7D483339D80809A1D80553BDA402FFFE5BFEFFFFFFFF00000001int
}

/// Serialized width of a field element in bytes.
pub const FIELD_ELEMENT_BYTES: usize = 48;

#[verifier::external_type_specification]
#[verifier::external_body]
pub struct ExFieldElement(amcl_wrapper::field_elem::FieldElement);

/// An encoder backed by a BLS12-381 field element. The ghost value is the
/// integer the element stands for; the arithmetic keeps it reduced modulo the
/// curve order, with the one unreduced value being the domain maximum itself.
pub struct FieldElem {
    inner: amcl_wrapper::field_elem::FieldElement,
    val: Ghost<int>,
}

/// What the fixed-width backend feeds to deserialization: inputs shorter
/// than the field width are left-padded with zero bytes, longer ones keep
/// only their leading bytes. The width is the 48 bytes of the underlying
/// field element's serialized form, wider than the 32 bytes the attribute
/// values themselves occupy.
pub open spec fn normalize_width(b: Seq<u8>) -> Seq<u8> {
    if b.len() < 48 {
        Seq::new((48 - b.len()) as nat, |i: int| 0u8) + b
    } else if b.len() > 48 {
        b.take(48)
    } else {
        b
    }
}

/// Relies on `FieldElement::from_bytes`: exactly 48 bytes in MSB form are
/// accepted and reduced modulo the curve order.
#[verifier::external_body]
fn fe_from_bytes(bytes: &Vec<u8>) -> (r: FieldElem)
    requires
        bytes@.len() == 48,
    ensures
        r.val@ == be_value(bytes@) % curve_order(),
{
    let elem = amcl_wrapper::field_elem::FieldElement::from_bytes(bytes.as_slice()).unwrap();
    FieldElem { inner: elem, val: Ghost(0) }
}

/// Relies on `FieldElement::plus`: addition modulo the curve order.
#[verifier::external_body]
fn fe_add(a: FieldElem, b: FieldElem) -> (r: FieldElem)
    requires
        0 <= a.val@ <= curve_order(),
        0 <= b.val@ <= curve_order(),
    ensures
        r.val@ == (a.val@ + b.val@) % curve_order(),
{
    FieldElem { inner: a.inner.plus(&b.inner), val: Ghost(0) }
}

/// Relies on `FieldElement::minus`: subtraction modulo the curve order.
#[verifier::external_body]
fn fe_sub(a: FieldElem, b: FieldElem) -> (r: FieldElem)
    requires
        0 <= a.val@ <= curve_order(),
        0 <= b.val@ <= curve_order(),
    ensures
        r.val@ == (a.val@ - b.val@) % curve_order(),
{
    FieldElem { inner: a.inner.minus(&b.inner), val: Ghost(0) }
}

/// Relies on `FieldElement::negation`: negation modulo the curve order.
#[verifier::external_body]
fn fe_neg(a: FieldElem) -> (r: FieldElem)
    requires
        0 <= a.val@ <= curve_order(),
    ensures
        r.val@ == (-a.val@) % curve_order(),
{
    FieldElem { inner: a.inner.negation(), val: Ghost(0) }
}

/// Relies on `FieldElement::from::<BigNum>` applied to the curve order
/// constant: the conversion stores the raw, unreduced number.
#[verifier::external_body]
fn fe_max() -> (r: FieldElem)
    ensures
        r.val@ == curve_order(),
{
    let co: amcl_wrapper::types::BigNum = *amcl_wrapper::constants::CurveOrder;
    FieldElem { inner: amcl_wrapper::field_elem::FieldElement::from(co), val: Ghost(0) }
}

/// Relies on `FieldElement`'s `PartialEq`: an exact comparison of the stored
/// numbers.
#[verifier::external_body]
fn fe_eq(a: &FieldElem, b: &FieldElem) -> (r: bool)
    requires
        0 <= a.val@ <= curve_order(),
        0 <= b.val@ <= curve_order(),
    ensures
        r == (a.val@ == b.val@),
{
    a.inner == b.inner
}

/// Relies on `FieldElement`'s `Clone`: an identical copy.
#[verifier::external_body]
fn fe_clone(a: &FieldElem) -> (r: FieldElem)
    ensures
        r.val@ == a.val@,
{
    FieldElem { inner: a.inner.clone(), val: Ghost(0) }
}

impl AttributeEncoder for FieldElem {
    closed spec fn value(self) -> int {
        self.val@
    }

    closed spec fn inv(self) -> bool {
        0 <= self.val@ <= curve_order()
    }

    open spec fn reduce(x: int) -> int {
        x % curve_order()
    }

    open spec fn from_bytes_spec(b: Seq<u8>) -> int {
        be_value(normalize_width(b)) % curve_order()
    }

    open spec fn max_spec() -> int {
        curve_order()
    }

    open spec fn in_domain(x: int) -> bool {
        true
    }

    proof fn lemma_domain_window(a: int) {
        lemma_pow2_window();
        crate::encoding::lemma_pow2_255();
        crate::encoding::lemma_pow2_le(255, 131071);
        crate::encoding::lemma_pow2_le(255, 257);
        lemma_mod_bound(a, curve_order());
    }

    proof fn lemma_reduce_add(a: int, b: int) {
        let m = curve_order();
        lemma_mod_twice(a, m);
        lemma_mod_twice(b, m);
        lemma_add_mod_noop(a, b, m);
        lemma_add_mod_noop(a % m, b, m);
        lemma_add_mod_noop(a, b % m, m);
        lemma_sub_mod_noop(a, b, m);
        lemma_sub_mod_noop(a % m, b, m);
        lemma_sub_mod_noop(a, b % m, m);
        lemma_sub_mod_noop(0, a, m);
        lemma_small_mod(0, m as nat);
        assert(-(a % m) == 0 - (a % m));
        assert(-a == 0 - a);
    }

    proof fn lemma_reduce_identity(a: int) {
        lemma_pow2_window();
        lemma_small_mod(a as nat, curve_order() as nat);
    }

    proof fn lemma_from_bytes(b: Seq<u8>) {
        let m = curve_order();
        lemma_mod_twice(be_value(normalize_width(b)), m);
        lemma_mod_bound(be_value(normalize_width(b)), m);
        crate::encoding::lemma_pow2_255();
        crate::encoding::lemma_pow2_le(255, 8 * b.len() + 257);
        if b.len() <= 32 {
            let z = Seq::new((48 - b.len()) as nat, |i: int| 0u8);
            lemma_be_value_zero_prefix(z, b);
        }
    }

    fn max() -> (r: Self) {
        let r = fe_max();
        proof {
            lemma_mod_bound(r.val@, curve_order());
        }
        r
    }

    fn zero_center() -> (r: Self) {
        let mut v: Vec<u8> = Vec::new();
        v.push(0x40u8);
        let mut z = filled(0u8, 31);
        v.append(&mut z);
        proof {
            let s = v@;
            let lead = seq![0x40u8];
            assert(s =~= lead + s.skip(1));
            assert(forall|i: int| 0 <= i < s.skip(1).len() ==> s.skip(1)[i] == 0);
            lemma_be_value_zero_suffix(lead, s.skip(1));
            assert(lead.drop_last() =~= Seq::<u8>::empty());
            assert(be_value(lead) == be_value(lead.drop_last()) * 256 + 0x40);
            assert(be_value(lead) == 0x40);
            lemma_pow256_is_pow2(31);
            vstd::arithmetic::power2::lemma_pow2_adds(6, 248);
            vstd::arithmetic::power2::lemma2_to64();
            lemma_pow2_window();
            assert(be_value(s) == pow2(254));
            let z48 = Seq::new(16nat, |i: int| 0u8);
            lemma_be_value_zero_prefix(z48, s);
            assert(normalize_width(s) =~= z48 + s);
            lemma_small_mod(pow2(254), curve_order() as nat);
            lemma_mod_bound(Self::from_bytes_spec(s), curve_order());
        }
        Self::from_vec(v)
    }

    fn from_vec(v: Vec<u8>) -> (r: Self) {
        let n = v.len();
        let data: Vec<u8>;
        if n < FIELD_ELEMENT_BYTES {
            let mut padded = filled(0u8, FIELD_ELEMENT_BYTES - n);
            let mut tail = v;
            padded.append(&mut tail);
            proof {
                assert(padded@ =~= normalize_width(v@));
            }
            data = padded;
        } else if n > FIELD_ELEMENT_BYTES {
            let mut lead: Vec<u8> = Vec::new();
            let mut i: usize = 0;
            while i < FIELD_ELEMENT_BYTES
                invariant
                    i <= FIELD_ELEMENT_BYTES,
                    v@.len() > FIELD_ELEMENT_BYTES,
                    lead@ =~= v@.take(i as int),
                decreases FIELD_ELEMENT_BYTES - i,
            {
                let byte = v[i];
                lead.push(byte);
                i += 1;
            }
            proof {
                assert(lead@ =~= normalize_width(v@));
            }
            data = lead;
        } else {
            proof {
                assert(v@ =~= normalize_width(v@));
            }
            data = v;
        }
        let r = fe_from_bytes(&data);
        proof {
            lemma_mod_bound(be_value(data@), curve_order());
        }
        r
    }

    fn from_u64(v: u64) -> (r: Self) {
        let bytes = u64_to_be_bytes(v);
        proof {
            let z = Seq::new(40nat, |i: int| 0u8);
            assert(normalize_width(bytes@) =~= z + bytes@);
            lemma_be_value_zero_prefix(z, bytes@);
            lemma_pow2_window();
            lemma_small_mod(v as nat, curve_order() as nat);
        }
        Self::from_vec(bytes)
    }

    fn add(self, rhs: Self) -> (r: Self) {
        let r = fe_add(self, rhs);
        proof {
            lemma_mod_bound(self.val@ + rhs.val@, curve_order());
        }
        r
    }

    fn sub(self, rhs: Self) -> (r: Self) {
        let r = fe_sub(self, rhs);
        proof {
            lemma_mod_bound(self.val@ - rhs.val@, curve_order());
        }
        r
    }

    fn neg(self) -> (r: Self) {
        let r = fe_neg(self);
        proof {
            lemma_mod_bound(-self.val@, curve_order());
        }
        r
    }

    fn duplicate(&self) -> (r: Self) {
        fe_clone(self)
    }

    fn equals(&self, other: &Self) -> (r: bool) {
        fe_eq(self, other)
    }
}

/// The fixed-width canonicalization law: `from_vec` left-pads shorter inputs
/// with zero bytes, which leaves the denoted integer unchanged, and keeps
/// only the leading bytes of longer inputs.
pub proof fn lemma_from_vec_width_normalization(b: Seq<u8>)
    ensures
        b.len() <= 48 ==> FieldElem::from_bytes_spec(b) == be_value(b) % curve_order(),
        b.len() > 48 ==> FieldElem::from_bytes_spec(b) == be_value(b.take(48)) % curve_order(),
{
    if b.len() < 48 {
        let z = Seq::new((48 - b.len()) as nat, |i: int| 0u8);
        lemma_be_value_zero_prefix(z, b);
    }
}

} // verus!
