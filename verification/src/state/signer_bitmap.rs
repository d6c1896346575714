//! A fixed-width set of signer slots, one bit per slot.

use vstd::prelude::*;

verus! {

/// The largest number of signers that a multisig can be configured with,
/// which is also the width of a signer bitmap.
pub const MAX_SIGNERS: usize = 8;

/// Whether bit number `slot` of `bits` is set.
pub open spec fn bit_is_set(bits: u8, slot: int) -> bool {
    0 <= slot < 8 && (bits >> (slot as u8)) & 1u8 == 1u8
}

/// The slots below `bound` whose bits are set in `bits`.
pub open spec fn slots_below(bits: u8, bound: int) -> Set<int> {
    Set::new(|slot: int| slot < bound && bit_is_set(bits, slot))
}

/// Which signer slots have signed: bit `i` stands for slot `i`.
#[derive(Clone, Copy, Debug, PartialEq, Eq, Structural)]
pub struct SignerBitmap {
    pub bits: u8,
}

impl View for SignerBitmap {
    type V = Set<int>;

    open spec fn view(&self) -> Set<int> {
        slots_below(self.bits, 8)
    }
}

proof fn lemma_no_bits_in_zero(slot: u8)
    by (bit_vector)
    requires
        slot < 8,
    ensures
        (0u8 >> slot) & 1u8 != 1u8,
{
}

proof fn lemma_bit_after_set(bits: u8, slot: u8, other: u8)
    by (bit_vector)
    requires
        slot < 8,
        other < 8,
    ensures
        ((bits | (1u8 << slot)) >> other) & 1u8 == 1u8 <==> (other == slot || (bits >> other) & 1u8
            == 1u8),
{
}

/// The slots below a bound form a finite set, which grows by at most the
/// bound's own slot when the bound is raised by one.
proof fn lemma_slots_below_step(bits: u8, bound: int)
    requires
        0 <= bound,
    ensures
        slots_below(bits, bound).finite(),
        slots_below(bits, bound).len() <= bound,
        slots_below(bits, bound + 1) == if bit_is_set(bits, bound) {
            slots_below(bits, bound).insert(bound)
        } else {
            slots_below(bits, bound)
        },
        !slots_below(bits, bound).contains(bound),
    decreases bound,
{
    if bound == 0 {
        assert(slots_below(bits, 0) =~= Set::<int>::empty());
    } else {
        lemma_slots_below_step(bits, bound - 1);
    }
    if bit_is_set(bits, bound) {
        assert(slots_below(bits, bound + 1) =~= slots_below(bits, bound).insert(bound));
    } else {
        assert(slots_below(bits, bound + 1) =~= slots_below(bits, bound));
    }
}

impl SignerBitmap {
    /// The bitmap in which no slot has signed.
    pub fn empty() -> (r: SignerBitmap)
        ensures
            r@ == Set::<int>::empty(),
    {
        let r = SignerBitmap { bits: 0 };
        proof {
            assert forall|slot: int| !r@.contains(slot) by {
                if 0 <= slot < 8 {
                    lemma_no_bits_in_zero(slot as u8);
                }
            }
            assert(r@ =~= Set::<int>::empty());
        }
        r
    }

    /// Every bitmap is a finite set of slots below `MAX_SIGNERS`.
    pub proof fn lemma_bounded(self)
        ensures
            self@.finite(),
            self@.len() <= MAX_SIGNERS,
            forall|slot: int| self@.contains(slot) ==> 0 <= slot < MAX_SIGNERS,
    {
        lemma_slots_below_step(self.bits, 8);
    }

    /// Whether the given slot has signed.
    pub fn contains(&self, slot: usize) -> (r: bool)
        ensures
            r == self@.contains(slot as int),
    {
        if slot >= MAX_SIGNERS {
            return false;
        }
        let shift: u8 = slot as u8;
        (self.bits >> shift) & 1u8 == 1u8
    }

    /// This bitmap with the given slot added.
    pub fn insert(&self, slot: usize) -> (r: SignerBitmap)
        requires
            slot < MAX_SIGNERS,
        ensures
            r@ == self@.insert(slot as int),
    {
        let shift: u8 = slot as u8;
        let r = SignerBitmap { bits: self.bits | (1u8 << shift) };
        proof {
            assert forall|other: int| r@.contains(other) == self@.insert(slot as int).contains(
                other,
            ) by {
                if 0 <= other < 8 {
                    lemma_bit_after_set(self.bits, shift, other as u8);
                }
            }
            assert(r@ =~= self@.insert(slot as int));
        }
        r
    }

    /// The number of slots that have signed.
    pub fn count(&self) -> (n: u8)
        ensures
            n == self@.len(),
            n <= MAX_SIGNERS,
    {
        let mut n: u8 = 0;
        let mut slot: usize = 0;
        proof {
            lemma_slots_below_step(self.bits, 0);
        }
        while slot < MAX_SIGNERS
            invariant
                slot <= MAX_SIGNERS,
                n <= slot,
                n == slots_below(self.bits, slot as int).len(),
            decreases MAX_SIGNERS - slot,
        {
            proof {
                lemma_slots_below_step(self.bits, slot as int);
            }
            if self.contains(slot) {
                n += 1;
            }
            slot += 1;
        }
        n
    }
}

} // verus!
