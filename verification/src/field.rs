//! Elements of the scalar field of BN254 in their canonical byte form.

use vstd::prelude::*;
use vstd::std_specs::cmp::PartialEqSpecImpl;
use vstd::std_specs::convert::FromSpecImpl;

verus! {

/// Width in bytes of the canonical encoding of a field element.
pub const REPR_LEN: usize = 32;

/// The field modulus `r`, the order of the scalar field of BN254.
pub open spec fn modulus() -> nat {
    0x30644e72e131a029b85045b68181585d2833e84879b9709143e1f593f0000001nat
}

/// The integer that the bytes from index `start` on denote, least
/// significant byte first.
pub open spec fn le_value_from(bytes: Seq<u8>, start: int) -> nat
    decreases bytes.len() - start,
{
    if 0 <= start < bytes.len() {
        bytes[start] as nat + 256 * le_value_from(bytes, start + 1)
    } else {
        0
    }
}

/// The integer that a little-endian byte string denotes.
pub open spec fn le_value(bytes: Seq<u8>) -> nat {
    le_value_from(bytes, 0)
}

/// A byte string is the canonical encoding of a field element when it has the
/// fixed width and denotes an integer below the modulus.
pub open spec fn is_canonical(bytes: Seq<u8>) -> bool {
    bytes.len() == REPR_LEN && le_value(bytes) < modulus()
}

/// The little-endian bytes of the modulus.
pub open spec fn modulus_repr() -> Seq<u8> {
    seq![
        0x01u8, 0x00, 0x00, 0xf0, 0x93, 0xf5, 0xe1, 0x43,
        0x91, 0x70, 0xb9, 0x79, 0x48, 0xe8, 0x33, 0x28,
        0x5d, 0x58, 0x81, 0x81, 0xb6, 0x45, 0x50, 0xb8,
        0x29, 0xa0, 0x31, 0xe1, 0x72, 0x4e, 0x64, 0x30,
    ]
}

/// The bytes of `modulus_repr` denote the modulus.
pub proof fn lemma_modulus_repr()
    ensures
        modulus_repr().len() == REPR_LEN,
        le_value(modulus_repr()) == modulus(),
{
    reveal_with_fuel(le_value_from, 33);
}

/// Byte strings that agree from `start` on denote the same integer there.
pub proof fn lemma_suffix_value(a: Seq<u8>, b: Seq<u8>, start: int)
    requires
        a.len() == b.len(),
        0 <= start,
        forall|j: int| start <= j < a.len() ==> a[j] == b[j],
    ensures
        le_value_from(a, start) == le_value_from(b, start),
    decreases a.len() - start,
{
    if start < a.len() {
        lemma_suffix_value(a, b, start + 1);
    }
}

/// The most significant byte in which two strings of one length differ
/// decides which denotes the smaller integer.
pub proof fn lemma_top_byte_decides(a: Seq<u8>, b: Seq<u8>, top: int, start: int)
    requires
        a.len() == b.len(),
        0 <= start <= top < a.len(),
        a[top] < b[top],
        forall|j: int| top < j < a.len() ==> a[j] == b[j],
    ensures
        le_value_from(a, start) < le_value_from(b, start),
    decreases top - start,
{
    if start == top {
        lemma_suffix_value(a, b, top + 1);
    } else {
        lemma_top_byte_decides(a, b, top, start + 1);
    }
}

/// Two byte strings of one length that denote the same integer are the same
/// string: no integer has two encodings of a given width.
pub proof fn lemma_le_value_injective(a: Seq<u8>, b: Seq<u8>)
    requires
        a.len() == b.len(),
        le_value(a) == le_value(b),
    ensures
        a == b,
{
    lemma_agree_from(a, b, 0);
    assert(a =~= b);
}

proof fn lemma_agree_from(a: Seq<u8>, b: Seq<u8>, start: int)
    requires
        a.len() == b.len(),
        0 <= start,
        le_value_from(a, start) == le_value_from(b, start),
    ensures
        forall|j: int| start <= j < a.len() ==> a[j] == b[j],
    decreases a.len() - start,
{
    if start < a.len() {
        let x = le_value_from(a, start + 1);
        let y = le_value_from(b, start + 1);
        assert(a[start] as nat + 256 * x == b[start] as nat + 256 * y);
        assert(x == y && a[start] == b[start]) by {
            if x < y {
                assert(256 * x + 256 <= 256 * y);
            }
            if y < x {
                assert(256 * y + 256 <= 256 * x);
            }
        }
        lemma_agree_from(a, b, start + 1);
    }
}

/// The little-endian bytes of the modulus, as an array.
fn modulus_bytes() -> (m: [u8; 32])
    ensures
        m@ == modulus_repr(),
{
    let m: [u8; 32] = [
        0x01, 0x00, 0x00, 0xf0, 0x93, 0xf5, 0xe1, 0x43,
        0x91, 0x70, 0xb9, 0x79, 0x48, 0xe8, 0x33, 0x28,
        0x5d, 0x58, 0x81, 0x81, 0xb6, 0x45, 0x50, 0xb8,
        0x29, 0xa0, 0x31, 0xe1, 0x72, 0x4e, 0x64, 0x30,
    ];
    assert(m@ =~= modulus_repr());
    m
}

/// Decides whether 32 bytes denote an integer below the modulus, by looking
/// for the most significant byte that differs from the modulus.
pub fn below_modulus(bytes: &[u8; 32]) -> (below: bool)
    ensures
        below == is_canonical(bytes@),
{
    let m = modulus_bytes();
    proof {
        lemma_modulus_repr();
    }
    let mut i: usize = 32;
    while i > 0
        invariant
            i <= 32,
            m@ == modulus_repr(),
            le_value(m@) == modulus(),
            forall|j: int| i <= j < 32 ==> bytes[j] == m[j],
        decreases i,
    {
        i = i - 1;
        if bytes[i] < m[i] {
            proof {
                lemma_top_byte_decides(bytes@, m@, i as int, 0);
            }
            return true;
        }
        if bytes[i] > m[i] {
            proof {
                lemma_top_byte_decides(m@, bytes@, i as int, 0);
            }
            return false;
        }
    }
    proof {
        lemma_suffix_value(bytes@, m@, 0);
    }
    false
}

/// An element of the field, held as its canonical encoding: 32 bytes, least
/// significant first, that denote an integer below the modulus.
#[derive(Clone, Copy, Debug)]
pub struct FieldElement {
    repr: [u8; 32],
}

impl View for FieldElement {
    type V = nat;

    /// The integer in `[0, r)` that the element stands for.
    open spec fn view(&self) -> nat {
        le_value(self.repr())
    }
}

impl FieldElement {
    /// The canonical encoding that the element holds.
    pub closed spec fn repr(self) -> Seq<u8> {
        self.repr@
    }

    /// Every element holds a canonical encoding.
    #[verifier::type_invariant]
    pub open spec fn wf(self) -> bool {
        is_canonical(self.repr())
    }

    /// The element that `bytes` encode, if they are canonical. Bytes that
    /// denote the modulus or more are refused, never reduced.
    pub fn from_repr(bytes: [u8; 32]) -> (element: Option<FieldElement>)
        ensures
            element is Some <==> is_canonical(bytes@),
            element matches Some(f) ==> f.repr() == bytes@ && f.wf(),
    {
        if below_modulus(&bytes) {
            Some(FieldElement { repr: bytes })
        } else {
            None
        }
    }

    /// The canonical encoding of the element.
    pub fn to_repr(&self) -> (bytes: [u8; 32])
        ensures
            bytes@ == self.repr(),
            is_canonical(bytes@),
    {
        proof {
            use_type_invariant(self);
        }
        self.repr
    }

    /// The additive identity.
    pub fn zero() -> (element: FieldElement)
        ensures
            element@ == 0,
            element.wf(),
    {
        FieldElement::from_u64(0)
    }

    /// The element that stands for the integer `x`.
    pub closed spec fn of_u64(x: u64) -> FieldElement {
        FieldElement { repr: u64_repr(x) }
    }

    /// The element that stands for the integer `x`.
    pub fn from_u64(x: u64) -> (element: FieldElement)
        ensures
            element == FieldElement::of_u64(x),
            element@ == x,
            element.wf(),
    {
        let b0: u8 = (x % 256) as u8;
        let q1: u64 = x / 256;
        let b1: u8 = (q1 % 256) as u8;
        let q2: u64 = q1 / 256;
        let b2: u8 = (q2 % 256) as u8;
        let q3: u64 = q2 / 256;
        let b3: u8 = (q3 % 256) as u8;
        let q4: u64 = q3 / 256;
        let b4: u8 = (q4 % 256) as u8;
        let q5: u64 = q4 / 256;
        let b5: u8 = (q5 % 256) as u8;
        let q6: u64 = q5 / 256;
        let b6: u8 = (q6 % 256) as u8;
        let q7: u64 = q6 / 256;
        let b7: u8 = (q7 % 256) as u8;
        let repr: [u8; 32] = [
            b0, b1, b2, b3, b4, b5, b6, b7,
            0, 0, 0, 0, 0, 0, 0, 0,
            0, 0, 0, 0, 0, 0, 0, 0,
            0, 0, 0, 0, 0, 0, 0, 0,
        ];
        proof {
            reveal_with_fuel(u64_byte, 9);
            lemma_of_u64(x);
            assert(repr@ =~= u64_repr(x)@);
            assert(repr =~= u64_repr(x));
        }
        FieldElement { repr }
    }
}

/// The byte of `x` at `index`, counted from the least significant.
pub open spec fn u64_byte(x: u64, index: nat) -> u8
    decreases index,
{
    if index == 0 {
        (x % 256) as u8
    } else {
        u64_byte(x / 256, (index - 1) as nat)
    }
}

/// The 32 bytes that encode `x`: its eight bytes, least significant first,
/// then zeros.
spec fn u64_repr(x: u64) -> [u8; 32] {
    [
        u64_byte(x, 0), u64_byte(x, 1), u64_byte(x, 2), u64_byte(x, 3),
        u64_byte(x, 4), u64_byte(x, 5), u64_byte(x, 6), u64_byte(x, 7),
        0, 0, 0, 0, 0, 0, 0, 0,
        0, 0, 0, 0, 0, 0, 0, 0,
        0, 0, 0, 0, 0, 0, 0, 0,
    ]
}

/// The element made of a 64-bit integer stands for that integer.
pub proof fn lemma_of_u64(x: u64)
    ensures
        FieldElement::of_u64(x)@ == x,
        FieldElement::of_u64(x).wf(),
{
    reveal_with_fuel(u64_byte, 9);
    reveal_with_fuel(le_value_from, 33);
    assert(le_value(u64_repr(x)@) == x);
}

/// An element is determined by the integer it stands for.
pub proof fn lemma_value_determines_element(a: FieldElement, b: FieldElement)
    requires
        a.wf(),
        b.wf(),
        a@ == b@,
    ensures
        a == b,
{
    lemma_le_value_injective(a.repr(), b.repr());
    assert(a.repr =~= b.repr);
}

impl PartialEq for FieldElement {
    /// Elements are equal when they stand for the same integer.
    fn eq(&self, other: &FieldElement) -> (equal: bool) {
        proof {
            use_type_invariant(self);
            use_type_invariant(other);
        }
        let mut i: usize = 0;
        while i < 32
            invariant
                i <= 32,
                forall|j: int| 0 <= j < i ==> self.repr[j] == other.repr[j],
            decreases 32 - i,
        {
            if self.repr[i] != other.repr[i] {
                proof {
                    if self@ == other@ {
                        lemma_le_value_injective(self.repr(), other.repr());
                    }
                }
                return false;
            }
            i = i + 1;
        }
        assert(self.repr@ =~= other.repr@);
        true
    }
}

impl PartialEqSpecImpl for FieldElement {
    open spec fn obeys_eq_spec() -> bool {
        true
    }

    open spec fn eq_spec(&self, other: &FieldElement) -> bool {
        self@ == other@
    }
}

impl Eq for FieldElement {

}

impl From<u64> for FieldElement {
    fn from(x: u64) -> (element: FieldElement) {
        FieldElement::from_u64(x)
    }
}

impl FromSpecImpl<u64> for FieldElement {
    open spec fn obeys_from_spec() -> bool {
        true
    }

    open spec fn from_spec(x: u64) -> FieldElement {
        FieldElement::of_u64(x)
    }
}

impl Default for FieldElement {
    fn default() -> (element: FieldElement)
        ensures
            element@ == 0,
            element.wf(),
    {
        FieldElement::zero()
    }
}

} // verus!
