//! Field elements and the two-to-one compression function of the tree.

use vstd::prelude::*;

verus! {

/// The order of the scalar field of BN254, below which every tree value lies.
pub open spec fn field_modulus() -> nat {
    21888242871839275222246405745257275088548364400416034343698204186575808495617nat
}

/// The number that four 64-bit limbs spell, least significant limb first.
pub open spec fn limbs_value(l0: u64, l1: u64, l2: u64, l3: u64) -> nat {
    (l0 as nat) + (l1 as nat) * 0x1_0000_0000_0000_0000nat
        + (l2 as nat) * 0x1_0000_0000_0000_0000_0000_0000_0000_0000nat
        + (l3 as nat) * 0x1_0000_0000_0000_0000_0000_0000_0000_0000_0000_0000_0000_0000nat
}

/// A field element: a 256-bit unsigned integer below [`field_modulus`].
///
/// Its view is the number itself. Every value of this type that executable
/// code holds is a field element, so it can always be fed to the compression
/// function.
#[derive(Clone, Copy, Debug, PartialEq, Eq, Structural)]
pub struct Field {
    l0: u64,
    l1: u64,
    l2: u64,
    l3: u64,
}

impl View for Field {
    type V = nat;

    closed spec fn view(&self) -> nat {
        limbs_value(self.l0, self.l1, self.l2, self.l3)
    }
}

const MODULUS_L0: u64 = 0x43e1_f593_f000_0001;
const MODULUS_L1: u64 = 0x2833_e848_79b9_7091;
const MODULUS_L2: u64 = 0xb850_45b6_8181_585d;
const MODULUS_L3: u64 = 0x3064_4e72_e131_a029;

impl Field {
    /// The invariant of the type: the number is a field element.
    #[verifier::type_invariant]
    pub open spec fn is_field_element(self) -> bool {
        self@ < field_modulus()
    }

    /// The limbs of the number, least significant first.
    pub closed spec fn limbs(self) -> Seq<u64> {
        seq![self.l0, self.l1, self.l2, self.l3]
    }

    /// The zero element, which marks an empty leaf.
    pub fn zero() -> (z: Field)
        ensures
            z@ == 0,
    {
        Field { l0: 0, l1: 0, l2: 0, l3: 0 }
    }

    /// Builds a field element from four limbs, least significant first.
    /// Numbers that are not below the field modulus are refused.
    pub fn from_limbs(limbs: [u64; 4]) -> (r: Option<Field>)
        ensures
            r is Some <==> limbs_value(limbs[0], limbs[1], limbs[2], limbs[3]) < field_modulus(),
            r matches Some(h) ==> h@ == limbs_value(limbs[0], limbs[1], limbs[2], limbs[3])
                && h.limbs() == limbs@,
    {
        let l0: u64 = limbs[0];
        let l1: u64 = limbs[1];
        let l2: u64 = limbs[2];
        let l3: u64 = limbs[3];
        let below = l3 < MODULUS_L3 || (l3 == MODULUS_L3 && (l2 < MODULUS_L2 || (l2 == MODULUS_L2
            && (l1 < MODULUS_L1 || (l1 == MODULUS_L1 && l0 < MODULUS_L0)))));
        if below {
            Some(Field { l0, l1, l2, l3 })
        } else {
            None
        }
    }

    /// The four limbs of the number, least significant first.
    pub fn to_limbs(&self) -> (limbs: [u64; 4])
        ensures
            limbs@ == self.limbs(),
            limbs_value(limbs[0], limbs[1], limbs[2], limbs[3]) == self@,
    {
        [self.l0, self.l1, self.l2, self.l3]
    }

    /// Whether this number is smaller than `other`.
    pub fn lt(&self, other: &Field) -> (b: bool)
        ensures
            b == (self@ < other@),
    {
        self.l3 < other.l3 || (self.l3 == other.l3 && (self.l2 < other.l2 || (self.l2 == other.l2
            && (self.l1 < other.l1 || (self.l1 == other.l1 && self.l0 < other.l0)))))
    }

    /// Two elements with the same number are the same element.
    pub proof fn lemma_view_injective(a: Field, b: Field)
        ensures
            a@ == b@ <==> a == b,
    {
        if a@ == b@ {
            let a1 = (a.l1 as nat) + 0x1_0000_0000_0000_0000nat * ((a.l2 as nat)
                + 0x1_0000_0000_0000_0000nat * (a.l3 as nat));
            let b1 = (b.l1 as nat) + 0x1_0000_0000_0000_0000nat * ((b.l2 as nat)
                + 0x1_0000_0000_0000_0000nat * (b.l3 as nat));
            assert(a@ == (a.l0 as nat) + 0x1_0000_0000_0000_0000nat * a1);
            assert(b@ == (b.l0 as nat) + 0x1_0000_0000_0000_0000nat * b1);
            lemma_split_limb(a.l0 as nat, a1, b.l0 as nat, b1);
            let a2 = (a.l2 as nat) + 0x1_0000_0000_0000_0000nat * (a.l3 as nat);
            let b2 = (b.l2 as nat) + 0x1_0000_0000_0000_0000nat * (b.l3 as nat);
            lemma_split_limb(a.l1 as nat, a2, b.l1 as nat, b2);
            lemma_split_limb(a.l2 as nat, a.l3 as nat, b.l2 as nat, b.l3 as nat);
        }
    }
}

/// A number written as a low limb and the rest has only one such writing.
proof fn lemma_split_limb(x0: nat, x1: nat, y0: nat, y1: nat)
    requires
        x0 < 0x1_0000_0000_0000_0000nat,
        y0 < 0x1_0000_0000_0000_0000nat,
        x0 + 0x1_0000_0000_0000_0000nat * x1 == y0 + 0x1_0000_0000_0000_0000nat * y1,
    ensures
        x0 == y0,
        x1 == y1,
{
    if x1 < y1 {
        assert(0x1_0000_0000_0000_0000nat * y1 >= 0x1_0000_0000_0000_0000nat * x1
            + 0x1_0000_0000_0000_0000nat);
    } else if y1 < x1 {
        assert(0x1_0000_0000_0000_0000nat * x1 >= 0x1_0000_0000_0000_0000nat * y1
            + 0x1_0000_0000_0000_0000nat);
    }
}

/// The Poseidon hash of two field elements, as a function on numbers.
pub uninterp spec fn poseidon2(left: nat, right: nat) -> nat;

/// Compresses two field elements into one with
/// `semaphore_rs_poseidon::poseidon::hash2`.
///
/// Not proved: that the call returns the Poseidon hash of its two arguments,
/// a function of the two numbers alone, and that the result is again a field
/// element. The call panics on a number that is not below the field modulus,
/// which the precondition excludes.
#[verifier::external_body]
pub(crate) fn hash_pair(left: &Field, right: &Field) -> (res: Field)
    requires
        left.is_field_element(),
        right.is_field_element(),
    ensures
        res@ == poseidon2(left@, right@),
        res.is_field_element(),
{
    let l = ruint::aliases::U256::from_limbs([left.l0, left.l1, left.l2, left.l3]);
    let r = ruint::aliases::U256::from_limbs([right.l0, right.l1, right.l2, right.l3]);
    let out = semaphore_rs_poseidon::poseidon::hash2(l, r).into_limbs();
    Field { l0: out[0], l1: out[1], l2: out[2], l3: out[3] }
}

} // verus!
