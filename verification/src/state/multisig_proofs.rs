//! What holds of signing, whoever signs and in whatever order: the
//! account's invariant, the count of missing signatures, and the clearing
//! of an instruction once its threshold is reached.

use crate::error::ErrorCode;
use crate::state::multisig::MultisigView;
use vstd::prelude::*;

verus! {

impl MultisigView {
    /// The slots of the given signers.
    pub open spec fn slots_of(self, callers: Seq<Seq<u8>>) -> Set<int> {
        Set::new(
            |slot: int|
                exists|i: int|
                    0 <= i < callers.len() && self.slot_of(#[trigger] callers[i]) == slot,
        )
    }

    /// The account after the given callers have signed one after the
    /// other, the first of them first.
    pub open spec fn after_signing(self, callers: Seq<Seq<u8>>, digest: Seq<u8>) -> MultisigView
        decreases callers.len(),
    {
        if callers.len() == 0 {
            self
        } else {
            self.after_signing(callers.drop_last(), digest).after_sign(callers.last(), digest)
        }
    }

    /// Whether the callers are distinct signers of which none has signed
    /// the instruction with the given digest.
    pub open spec fn fresh_signers(self, callers: Seq<Seq<u8>>, digest: Seq<u8>) -> bool {
        &&& callers.no_duplicates()
        &&& forall|i: int|
            0 <= i < callers.len() ==> self.is_signer(#[trigger] callers[i]) && !self.signed_by(
                digest,
            ).contains(self.slot_of(callers[i]))
    }

    /// Two signers share a slot only if they are the same signer.
    pub proof fn lemma_slot_injective(self, a: Seq<u8>, b: Seq<u8>)
        requires
            self.is_signer(a),
            self.is_signer(b),
            self.slot_of(a) == self.slot_of(b),
        ensures
            a == b,
            0 <= self.slot_of(a) < self.signers.len(),
    {
        let i = self.signers.index_of(a);
        let j = self.signers.index_of(b);
        assert(0 <= i < self.signers.len() && self.signers[i] == a);
        assert(0 <= j < self.signers.len() && self.signers[j] == b);
    }

    /// Signing keeps the account's invariant, whoever signs and whatever
    /// comes of it, and never changes the signers, the threshold or the
    /// bump seed.
    pub proof fn lemma_sign_keeps_valid(self, who: Seq<u8>, digest: Seq<u8>)
        requires
            self.valid(),
        ensures
            self.after_sign(who, digest).valid(),
            self.after_sign(who, digest).signers == self.signers,
            self.after_sign(who, digest).threshold == self.threshold,
            self.after_sign(who, digest).bump == self.bump,
    {
        let after = self.after_sign(who, digest);
        if let Ok(remaining) = self.sign_result(who, digest) {
            let slot = self.slot_of(who);
            self.lemma_slot_injective(who, who);
            if remaining != 0 {
                let signed = self.signed_by(digest).insert(slot);
                assert forall|other: Seq<u8>| #[trigger]
                    after.pending.dom().contains(other) implies {
                    &&& after.pending[other].finite()
                    &&& 1 <= after.pending[other].len() < after.threshold
                    &&& forall|k: int| #[trigger]
                        after.pending[other].contains(k) ==> 0 <= k < after.signers.len()
                } by {
                    if other != digest {
                        assert(self.pending.dom().contains(other));
                    }
                }
            } else {
                assert forall|other: Seq<u8>| #[trigger]
                    after.pending.dom().contains(other) implies {
                    &&& after.pending[other].finite()
                    &&& 1 <= after.pending[other].len() < after.threshold
                    &&& forall|k: int| #[trigger]
                        after.pending[other].contains(k) ==> 0 <= k < after.signers.len()
                } by {
                    assert(self.pending.dom().contains(other));
                }
            }
        }
    }

    /// Signing an instruction leaves every other pending instruction as it
    /// was: an instruction with another digest gathers its signatures
    /// apart, from none.
    pub proof fn lemma_other_digest_untouched(self, who: Seq<u8>, digest: Seq<u8>, other: Seq<u8>)
        requires
            other != digest,
        ensures
            self.after_sign(who, digest).signed_by(other) == self.signed_by(other),
            self.after_sign(who, digest).pending.dom().contains(other)
                == self.pending.dom().contains(other),
    {
    }

    /// A failed call changes nothing.
    pub proof fn lemma_failure_changes_nothing(self, who: Seq<u8>, digest: Seq<u8>)
        requires
            self.sign_result(who, digest).is_err(),
        ensures
            self.after_sign(who, digest) == self,
            !self.is_signer(who) ==> self.sign_result(who, digest) == Err::<u8, ErrorCode>(
                ErrorCode::NotAuthorized,
            ),
    {
    }

    /// A signer whose signature was counted, with signatures still
    /// missing, cannot sign the same instruction again: the second call
    /// fails with `AlreadySigned`, changes nothing, and leaves what any
    /// other caller would be told as it was.
    pub proof fn lemma_no_double_signing(self, who: Seq<u8>, digest: Seq<u8>, next: Seq<u8>)
        requires
            self.valid(),
            self.sign_result(who, digest) matches Ok(remaining) && remaining > 0,
        ensures
            self.after_sign(who, digest).sign_result(who, digest) == Err::<u8, ErrorCode>(
                ErrorCode::AlreadySigned,
            ),
            self.after_sign(who, digest).after_sign(who, digest) == self.after_sign(who, digest),
            self.after_sign(who, digest).after_sign(who, digest).sign_result(next, digest)
                == self.after_sign(who, digest).sign_result(next, digest),
    {
    }

    /// While the threshold is out of reach, distinct signers that sign one
    /// after the other, in whatever order, are each told how many
    /// signatures are missing once theirs is counted, and the account ends
    /// up holding exactly their slots beside those that had signed before.
    pub proof fn lemma_signing_below_threshold(self, callers: Seq<Seq<u8>>, digest: Seq<u8>)
        requires
            self.valid(),
            self.fresh_signers(callers, digest),
            self.signed_by(digest).len() + callers.len() < self.threshold,
        ensures
            forall|i: int|
                0 <= i < callers.len() ==> (#[trigger] self.after_signing(
                    callers.take(i),
                    digest,
                )).sign_result(callers[i], digest) == Ok::<u8, ErrorCode>(
                    (self.threshold - self.signed_by(digest).len() - i - 1) as u8,
                ),
            self.after_signing(callers, digest).valid(),
            self.after_signing(callers, digest) == if callers.len() == 0 {
                self
            } else {
                MultisigView {
                    pending: self.pending.insert(
                        digest,
                        self.signed_by(digest).union(self.slots_of(callers)),
                    ),
                    ..self
                }
            },
            self.after_signing(callers, digest).signed_by(digest).len() == self.signed_by(
                digest,
            ).len() + callers.len(),
        decreases callers.len(),
    {
        if callers.len() == 0 {
            assert forall|i: int| 0 <= i < callers.len() implies (#[trigger] self.after_signing(
                callers.take(i),
                digest,
            )).sign_result(callers[i], digest) == Ok::<u8, ErrorCode>(
                (self.threshold - self.signed_by(digest).len() - i - 1) as u8,
            ) by {}
        } else {
            let prev = callers.drop_last();
            let last = callers.last();
            let n = prev.len() as int;
            assert(callers[n] == last);
            assert forall|i: int| 0 <= i < prev.len() implies self.is_signer(#[trigger] prev[i])
                && !self.signed_by(digest).contains(self.slot_of(prev[i])) by {
                assert(prev[i] == callers[i]);
            }
            assert(prev.no_duplicates()) by {
                assert forall|i: int, j: int|
                    0 <= i < prev.len() && 0 <= j < prev.len() && i != j implies prev[i]
                    != prev[j] by {
                    assert(prev[i] == callers[i] && prev[j] == callers[j]);
                }
            }
            self.lemma_signing_below_threshold(prev, digest);
            let mid = self.after_signing(prev, digest);
            let before = self.signed_by(digest);
            assert(mid.signers == self.signers && mid.threshold == self.threshold);
            assert(mid.signed_by(digest) =~= before.union(self.slots_of(prev))) by {
                if prev.len() == 0 {
                    assert(self.slots_of(prev) =~= Set::<int>::empty());
                }
            }
            let slot = self.slot_of(last);
            assert(!self.slots_of(prev).contains(slot)) by {
                if self.slots_of(prev).contains(slot) {
                    let i = choose|i: int|
                        0 <= i < prev.len() && self.slot_of(#[trigger] prev[i]) == slot;
                    assert(prev[i] == callers[i]);
                    self.lemma_slot_injective(callers[i], last);
                    assert(callers[i] == callers[n]);
                }
            }
            self.lemma_slot_injective(last, last);
            assert(mid.valid());
            if mid.pending.dom().contains(digest) {
                assert(mid.signed_by(digest).finite());
            } else {
                assert(mid.signed_by(digest) =~= Set::<int>::empty());
            }
            assert(mid.sign_result(last, digest) == Ok::<u8, ErrorCode>(
                (self.threshold - before.len() - n - 1) as u8,
            ));
            assert(self.slots_of(callers) =~= self.slots_of(prev).insert(slot)) by {
                assert forall|s: int| self.slots_of(prev).insert(slot).contains(s)
                    implies self.slots_of(callers).contains(s) by {
                    if s == slot {
                        assert(self.slot_of(callers[n]) == s);
                    } else {
                        let i = choose|i: int|
                            0 <= i < prev.len() && self.slot_of(#[trigger] prev[i]) == s;
                        assert(self.slot_of(callers[i]) == s);
                    }
                }
                assert forall|s: int| self.slots_of(callers).contains(s)
                    implies self.slots_of(prev).insert(slot).contains(s) by {
                    let i = choose|i: int|
                        0 <= i < callers.len() && self.slot_of(#[trigger] callers[i]) == s;
                    if i < n {
                        assert(self.slot_of(prev[i]) == s);
                    }
                }
            }
            let after = self.after_signing(callers, digest);
            assert(after == mid.after_sign(last, digest));
            assert(before.union(self.slots_of(callers)) =~= mid.signed_by(digest).insert(slot));
            assert(after.pending =~= self.pending.insert(
                digest,
                before.union(self.slots_of(callers)),
            ));
            mid.lemma_sign_keeps_valid(last, digest);
            assert forall|i: int| 0 <= i < callers.len() implies (#[trigger] self.after_signing(
                callers.take(i),
                digest,
            )).sign_result(callers[i], digest) == Ok::<u8, ErrorCode>(
                (self.threshold - self.signed_by(digest).len() - i - 1) as u8,
            ) by {
                if i < n {
                    assert(callers.take(i) =~= prev.take(i));
                    assert(callers[i] == prev[i]);
                } else {
                    assert(callers.take(i) =~= prev);
                }
            }
        }
    }

    /// The order in which distinct signers sign does not matter while the
    /// threshold is out of reach: the same signers leave the same account.
    pub proof fn lemma_order_does_not_matter(
        self,
        callers: Seq<Seq<u8>>,
        reordered: Seq<Seq<u8>>,
        digest: Seq<u8>,
    )
        requires
            self.valid(),
            self.fresh_signers(callers, digest),
            self.fresh_signers(reordered, digest),
            callers.to_set() == reordered.to_set(),
            callers.len() == reordered.len(),
            self.signed_by(digest).len() + callers.len() < self.threshold,
        ensures
            self.after_signing(callers, digest) == self.after_signing(reordered, digest),
    {
        self.lemma_signing_below_threshold(callers, digest);
        self.lemma_signing_below_threshold(reordered, digest);
        assert(self.slots_of(callers) =~= self.slots_of(reordered)) by {
            assert forall|s: int| self.slots_of(callers).contains(s) implies self.slots_of(
                reordered,
            ).contains(s) by {
                let i = choose|i: int|
                    0 <= i < callers.len() && self.slot_of(#[trigger] callers[i]) == s;
                assert(callers.to_set().contains(callers[i]));
                assert(reordered.contains(callers[i]));
                let j = reordered.index_of(callers[i]);
                assert(self.slot_of(reordered[j]) == s);
            }
            assert forall|s: int| self.slots_of(reordered).contains(s) implies self.slots_of(
                callers,
            ).contains(s) by {
                let i = choose|i: int|
                    0 <= i < reordered.len() && self.slot_of(#[trigger] reordered[i]) == s;
                assert(reordered.to_set().contains(reordered[i]));
                assert(callers.contains(reordered[i]));
                let j = callers.index_of(reordered[i]);
                assert(self.slot_of(callers[j]) == s);
            }
        }
    }

    /// The signer whose signature completes the threshold is told `0`, and
    /// the instruction is pending no longer: whoever submits it next
    /// starts from no signature.
    pub proof fn lemma_threshold_clears(self, who: Seq<u8>, digest: Seq<u8>, next: Seq<u8>)
        requires
            self.valid(),
            self.is_signer(who),
            !self.signed_by(digest).contains(self.slot_of(who)),
            self.signed_by(digest).len() + 1 == self.threshold,
        ensures
            self.sign_result(who, digest) == Ok::<u8, ErrorCode>(0u8),
            !self.after_sign(who, digest).pending.dom().contains(digest),
            self.after_sign(who, digest).signed_by(digest) == Set::<int>::empty(),
            self.is_signer(next) ==> self.after_sign(who, digest).sign_result(next, digest)
                == Ok::<u8, ErrorCode>((self.threshold - 1) as u8),
    {
        let after = self.after_sign(who, digest);
        assert(after.signed_by(digest).len() == 0);
    }

    /// Distinct signers that between them complete the threshold: each but
    /// the last is told a positive number, the last is told `0`, and the
    /// instruction is then pending no longer.
    pub proof fn lemma_signing_reaches_threshold(self, callers: Seq<Seq<u8>>, digest: Seq<u8>)
        requires
            self.valid(),
            self.fresh_signers(callers, digest),
            callers.len() >= 1,
            self.signed_by(digest).len() + callers.len() == self.threshold,
        ensures
            forall|i: int|
                0 <= i < callers.len() ==> (#[trigger] self.after_signing(
                    callers.take(i),
                    digest,
                )).sign_result(callers[i], digest) == Ok::<u8, ErrorCode>(
                    (self.threshold - self.signed_by(digest).len() - i - 1) as u8,
                ),
            self.after_signing(callers.drop_last(), digest).sign_result(callers.last(), digest)
                == Ok::<u8, ErrorCode>(0u8),
            self.after_signing(callers, digest).valid(),
            self.after_signing(callers, digest) == (MultisigView {
                pending: self.pending.remove(digest),
                ..self
            }),
    {
        let prev = callers.drop_last();
        let last = callers.last();
        let n = prev.len() as int;
        assert(callers[n] == last);
        assert forall|i: int| 0 <= i < prev.len() implies self.is_signer(#[trigger] prev[i])
            && !self.signed_by(digest).contains(self.slot_of(prev[i])) by {
            assert(prev[i] == callers[i]);
        }
        assert(prev.no_duplicates()) by {
            assert forall|i: int, j: int|
                0 <= i < prev.len() && 0 <= j < prev.len() && i != j implies prev[i] != prev[j] by {
                assert(prev[i] == callers[i] && prev[j] == callers[j]);
            }
        }
        self.lemma_signing_below_threshold(prev, digest);
        let mid = self.after_signing(prev, digest);
        let slot = self.slot_of(last);
        assert(!self.slots_of(prev).contains(slot)) by {
            if self.slots_of(prev).contains(slot) {
                let i = choose|i: int|
                    0 <= i < prev.len() && self.slot_of(#[trigger] prev[i]) == slot;
                assert(prev[i] == callers[i]);
                self.lemma_slot_injective(callers[i], last);
                assert(callers[i] == callers[n]);
            }
        }
        if prev.len() == 0 {
            assert(self.slots_of(prev) =~= Set::<int>::empty());
        }
        assert(mid.signed_by(digest) =~= self.signed_by(digest).union(self.slots_of(prev)));
        mid.lemma_threshold_clears(last, digest, last);
        mid.lemma_sign_keeps_valid(last, digest);
        assert(self.after_signing(callers, digest) == mid.after_sign(last, digest));
        assert(self.after_signing(callers, digest).pending =~= self.pending.remove(digest));
        assert forall|i: int| 0 <= i < callers.len() implies (#[trigger] self.after_signing(
            callers.take(i),
            digest,
        )).sign_result(callers[i], digest) == Ok::<u8, ErrorCode>(
            (self.threshold - self.signed_by(digest).len() - i - 1) as u8,
        ) by {
            if i < n {
                assert(callers.take(i) =~= prev.take(i));
                assert(callers[i] == prev[i]);
            } else {
                assert(callers.take(i) =~= prev);
            }
        }
    }
}

} // verus!
