//! The multisig account: a fixed set of signers, a threshold, and for each
//! pending instruction the signers that have approved it so far.

use crate::error::{ErrorCode, TYieldResult};
use crate::state::address::Address;
use crate::state::digest::Digest;
use crate::state::signer_bitmap::{SignerBitmap, MAX_SIGNERS};
use vstd::prelude::*;

verus! {

/// What a multisig account holds, as mathematical values.
pub ghost struct MultisigView {
    /// The authorized signers, in the order in which they were configured.
    pub signers: Seq<Seq<u8>>,
    /// How many distinct signers must approve an instruction.
    pub threshold: nat,
    /// For each pending instruction's digest, the slots that have signed it.
    pub pending: Map<Seq<u8>, Set<int>>,
    /// The bump seed of the account's address.
    pub bump: u8,
}

impl MultisigView {
    /// The invariant of a multisig account.
    pub open spec fn valid(self) -> bool {
        &&& 1 <= self.threshold <= self.signers.len() <= MAX_SIGNERS
        &&& self.signers.no_duplicates()
        &&& forall|digest: Seq<u8>| #[trigger]
            self.pending.dom().contains(digest) ==> {
                &&& self.pending[digest].finite()
                &&& 1 <= self.pending[digest].len() < self.threshold
                &&& forall|slot: int| #[trigger]
                    self.pending[digest].contains(slot) ==> 0 <= slot < self.signers.len()
            }
    }

    /// Whether the given address is one of the signers.
    pub open spec fn is_signer(self, who: Seq<u8>) -> bool {
        self.signers.contains(who)
    }

    /// The slot of a signer: its position among the signers.
    pub open spec fn slot_of(self, who: Seq<u8>) -> int {
        self.signers.index_of(who)
    }

    /// The slots that have signed the instruction with the given digest;
    /// empty where no such instruction is pending.
    pub open spec fn signed_by(self, digest: Seq<u8>) -> Set<int> {
        if self.pending.dom().contains(digest) {
            self.pending[digest]
        } else {
            Set::empty()
        }
    }

    /// What signing returns: the number of signatures still missing once
    /// the caller's has been counted, or why the caller's is not counted.
    pub open spec fn sign_result(self, who: Seq<u8>, digest: Seq<u8>) -> TYieldResult<u8> {
        if !self.is_signer(who) {
            Err(ErrorCode::NotAuthorized)
        } else if self.signed_by(digest).contains(self.slot_of(who)) {
            Err(ErrorCode::AlreadySigned)
        } else if self.signed_by(digest).len() + 1 < self.threshold {
            Ok((self.threshold - self.signed_by(digest).len() - 1) as u8)
        } else {
            Ok(0u8)
        }
    }

    /// The account after a call to sign: unchanged where the call fails,
    /// the caller's slot added where signatures are still missing, and the
    /// pending instruction cleared where the threshold is reached.
    pub open spec fn after_sign(self, who: Seq<u8>, digest: Seq<u8>) -> MultisigView {
        match self.sign_result(who, digest) {
            Err(_) => self,
            Ok(remaining) => if remaining == 0 {
                MultisigView { pending: self.pending.remove(digest), ..self }
            } else {
                MultisigView {
                    pending: self.pending.insert(
                        digest,
                        self.signed_by(digest).insert(self.slot_of(who)),
                    ),
                    ..self
                }
            },
        }
    }
}

/// One pending instruction: its digest and the signers that approved it.
#[derive(Clone, Copy, Debug, PartialEq, Eq)]
pub struct PendingInstruction {
    pub digest: Digest,
    pub signed: SignerBitmap,
}

/// The multisig account.
#[derive(Debug, PartialEq, Eq)]
pub struct Multisig {
    signers: Vec<Address>,
    threshold: u8,
    pending: Vec<PendingInstruction>,
    bump: u8,
}

/// The views of a sequence of addresses.
pub open spec fn address_views(addresses: Seq<Address>) -> Seq<Seq<u8>> {
    Seq::new(addresses.len(), |i: int| addresses[i]@)
}

/// Whether one of the entries carries the given digest.
pub open spec fn is_pending(entries: Seq<PendingInstruction>, digest: Seq<u8>) -> bool {
    exists|i: int| 0 <= i < entries.len() && #[trigger] entries[i].digest@ == digest
}

/// The position of the entry that carries the given digest.
pub open spec fn position_of(entries: Seq<PendingInstruction>, digest: Seq<u8>) -> int {
    choose|i: int| 0 <= i < entries.len() && #[trigger] entries[i].digest@ == digest
}

/// The entries as a map from digest to the slots that signed.
pub open spec fn pending_map(entries: Seq<PendingInstruction>) -> Map<Seq<u8>, Set<int>> {
    Map::new(
        |digest: Seq<u8>| is_pending(entries, digest),
        |digest: Seq<u8>| entries[position_of(entries, digest)].signed@,
    )
}

/// No two entries carry the same digest.
pub open spec fn distinct_digests(entries: Seq<PendingInstruction>) -> bool {
    forall|i: int, j: int|
        0 <= i < j < entries.len() ==> #[trigger] entries[i].digest@
            != #[trigger] entries[j].digest@
}

impl View for Multisig {
    type V = MultisigView;

    closed spec fn view(&self) -> MultisigView {
        MultisigView {
            signers: address_views(self.signers@),
            threshold: self.threshold as nat,
            pending: pending_map(self.pending@),
            bump: self.bump,
        }
    }
}

/// An entry is found at its own position, and nowhere else.
proof fn lemma_position(entries: Seq<PendingInstruction>, p: int)
    requires
        distinct_digests(entries),
        0 <= p < entries.len(),
    ensures
        is_pending(entries, entries[p].digest@),
        position_of(entries, entries[p].digest@) == p,
{
    let q = position_of(entries, entries[p].digest@);
    assert(entries[q].digest@ == entries[p].digest@);
    if q < p {
        assert(entries[q].digest@ != entries[p].digest@);
    }
    if p < q {
        assert(entries[p].digest@ != entries[q].digest@);
    }
}

/// Appending an entry with a new digest adds that digest to the map.
proof fn lemma_pending_push(entries: Seq<PendingInstruction>, entry: PendingInstruction)
    requires
        distinct_digests(entries),
        !is_pending(entries, entry.digest@),
    ensures
        distinct_digests(entries.push(entry)),
        pending_map(entries.push(entry)) == pending_map(entries).insert(
            entry.digest@,
            entry.signed@,
        ),
{
    let after = entries.push(entry);
    assert forall|i: int, j: int| 0 <= i < j < after.len() implies #[trigger] after[i].digest@
        != #[trigger] after[j].digest@ by {
        if j == entries.len() {
            assert(entries[i].digest@ != entry.digest@);
        } else {
            assert(entries[i].digest@ != entries[j].digest@);
        }
    }
    assert forall|digest: Seq<u8>|
        pending_map(after).dom().contains(digest) == pending_map(entries).insert(
            entry.digest@,
            entry.signed@,
        ).dom().contains(digest) by {
        if is_pending(entries, digest) {
            let i = position_of(entries, digest);
            assert(after[i].digest@ == digest);
        }
        if digest == entry.digest@ {
            assert(after[entries.len() as int].digest@ == digest);
        }
        if is_pending(after, digest) {
            let i = position_of(after, digest);
            if i < entries.len() {
                assert(entries[i].digest@ == digest);
            }
        }
    }
    assert forall|digest: Seq<u8>| #[trigger]
        pending_map(after).dom().contains(digest) implies pending_map(after)[digest]
        == pending_map(entries).insert(entry.digest@, entry.signed@)[digest] by {
        let i = position_of(after, digest);
        lemma_position(after, i);
        if i < entries.len() {
            assert(entries[i].digest@ == digest);
            lemma_position(entries, i);
        }
    }
    assert(pending_map(after) =~= pending_map(entries).insert(entry.digest@, entry.signed@));
}

/// Replacing an entry by one with the same digest replaces its slots in
/// the map.
proof fn lemma_pending_update(entries: Seq<PendingInstruction>, p: int, entry: PendingInstruction)
    requires
        distinct_digests(entries),
        0 <= p < entries.len(),
        entry.digest@ == entries[p].digest@,
    ensures
        distinct_digests(entries.update(p, entry)),
        pending_map(entries.update(p, entry)) == pending_map(entries).insert(
            entry.digest@,
            entry.signed@,
        ),
{
    let after = entries.update(p, entry);
    assert forall|i: int, j: int| 0 <= i < j < after.len() implies #[trigger] after[i].digest@
        != #[trigger] after[j].digest@ by {
        assert(entries[i].digest@ != entries[j].digest@);
    }
    assert forall|digest: Seq<u8>|
        pending_map(after).dom().contains(digest) == pending_map(entries).insert(
            entry.digest@,
            entry.signed@,
        ).dom().contains(digest) by {
        if is_pending(entries, digest) {
            let i = position_of(entries, digest);
            assert(after[i].digest@ == digest);
        }
        if digest == entry.digest@ {
            assert(after[p].digest@ == digest);
        }
        if is_pending(after, digest) {
            let i = position_of(after, digest);
            assert(entries[i].digest@ == digest);
        }
    }
    assert forall|digest: Seq<u8>| #[trigger]
        pending_map(after).dom().contains(digest) implies pending_map(after)[digest]
        == pending_map(entries).insert(entry.digest@, entry.signed@)[digest] by {
        let i = position_of(after, digest);
        lemma_position(after, i);
        assert(entries[i].digest@ == digest);
        lemma_position(entries, i);
    }
    assert(pending_map(after) =~= pending_map(entries).insert(entry.digest@, entry.signed@));
}

/// Removing an entry removes its digest from the map.
proof fn lemma_pending_remove(entries: Seq<PendingInstruction>, p: int)
    requires
        distinct_digests(entries),
        0 <= p < entries.len(),
    ensures
        distinct_digests(entries.remove(p)),
        pending_map(entries.remove(p)) == pending_map(entries).remove(entries[p].digest@),
{
    let after = entries.remove(p);
    let gone = entries[p].digest@;
    assert forall|i: int| 0 <= i < after.len() implies #[trigger] after[i] == entries[if i < p {
        i
    } else {
        i + 1
    }] by {}
    assert forall|i: int, j: int| 0 <= i < j < after.len() implies #[trigger] after[i].digest@
        != #[trigger] after[j].digest@ by {
        let a = if i < p { i } else { i + 1 };
        let b = if j < p { j } else { j + 1 };
        assert(entries[a].digest@ != entries[b].digest@);
    }
    assert forall|digest: Seq<u8>|
        pending_map(after).dom().contains(digest) == pending_map(entries).remove(
            gone,
        ).dom().contains(digest) by {
        if is_pending(entries, digest) && digest != gone {
            let i = position_of(entries, digest);
            let a = if i < p { i } else { i - 1 };
            assert(after[a].digest@ == digest);
        }
        if is_pending(after, digest) {
            let i = position_of(after, digest);
            let a = if i < p { i } else { i + 1 };
            assert(entries[a].digest@ == digest);
            if a < p {
                assert(entries[a].digest@ != entries[p].digest@);
            } else {
                assert(entries[p].digest@ != entries[a].digest@);
            }
        }
    }
    assert forall|digest: Seq<u8>| #[trigger]
        pending_map(after).dom().contains(digest) implies pending_map(after)[digest]
        == pending_map(entries).remove(gone)[digest] by {
        let i = position_of(after, digest);
        lemma_position(after, i);
        let a = if i < p { i } else { i + 1 };
        assert(entries[a].digest@ == digest);
        lemma_position(entries, a);
    }
    assert(pending_map(after) =~= pending_map(entries).remove(gone));
}

/// A copy of a vector of plain values.
fn copy_of<T: Copy>(values: &Vec<T>) -> (r: Vec<T>)
    ensures
        r@ == values@,
{
    let mut r: Vec<T> = Vec::new();
    let mut i: usize = 0;
    while i < values.len()
        invariant
            i <= values.len(),
            r@ == values@.subrange(0, i as int),
        decreases values.len() - i,
    {
        r.push(values[i]);
        assert(values@.subrange(0, i + 1) == values@.subrange(0, i as int).push(values@[i as int]));
        i += 1;
    }
    assert(values@.subrange(0, values.len() as int) == values@);
    r
}

impl Clone for Multisig {
    /// An account that holds the same as this one.
    fn clone(&self) -> (r: Multisig)
        ensures
            r@ == self@,
    {
        proof {
            use_type_invariant(self);
        }
        Multisig {
            signers: copy_of(&self.signers),
            threshold: self.threshold,
            pending: copy_of(&self.pending),
            bump: self.bump,
        }
    }
}

impl Multisig {
    /// The invariant of the account's representation: no digest is
    /// pending twice, and the view is a valid multisig.
    #[verifier::type_invariant]
    pub(crate) closed spec fn wf(&self) -> bool {
        &&& distinct_digests(self.pending@)
        &&& self@.valid()
    }

    /// The invariant of the representation holds the invariant of the view.
    pub(crate) proof fn lemma_wf_valid(&self)
        requires
            self.wf(),
        ensures
            self@.valid(),
    {
    }

    /// Whether a signer set and a threshold make a multisig: between one
    /// and `MAX_SIGNERS` signers, no signer twice, and a threshold between
    /// one and the number of signers.
    pub open spec fn valid_setup(signers: Seq<Seq<u8>>, threshold: u8) -> bool {
        &&& 1 <= threshold <= signers.len() <= MAX_SIGNERS
        &&& signers.no_duplicates()
    }

    /// Whether pending entries fit a multisig of the given size and
    /// threshold: no digest twice, and for each digest at least one
    /// signature, fewer than the threshold, all of them in slots that
    /// stand for a signer.
    pub open spec fn valid_pending(
        entries: Seq<PendingInstruction>,
        signers: nat,
        threshold: u8,
    ) -> bool {
        &&& distinct_digests(entries)
        &&& forall|i: int|
            0 <= i < entries.len() ==> {
                &&& 1 <= (#[trigger] entries[i]).signed@.len() < threshold
                &&& forall|slot: int| entries[i].signed@.contains(slot) ==> slot < signers
            }
    }

    /// Whether the signers are at most `MAX_SIGNERS` and all distinct.
    fn distinct_signers(signers: &Vec<Address>) -> (r: bool)
        ensures
            r == (signers.len() <= MAX_SIGNERS && address_views(signers@).no_duplicates()),
    {
        let count = signers.len();
        if count > MAX_SIGNERS {
            return false;
        }
        let ghost views = address_views(signers@);
        let mut i: usize = 0;
        while i < count
            invariant
                count == signers.len(),
                views == address_views(signers@),
                i <= count,
                forall|a: int, b: int| 0 <= a < b < i ==> views[a] != views[b],
            decreases count - i,
        {
            let mut j: usize = 0;
            while j < i
                invariant
                    count == signers.len(),
                    views == address_views(signers@),
                    i < count,
                    j <= i,
                    forall|a: int| 0 <= a < j ==> views[a] != views[i as int],
                decreases i - j,
            {
                if signers[j] == signers[i] {
                    assert(views[j as int] == views[i as int]);
                    return false;
                }
                j += 1;
            }
            i += 1;
        }
        true
    }

    /// Whether one pending entry fits a multisig of the given size and
    /// threshold.
    fn entry_fits(entry: &PendingInstruction, signers: usize, threshold: u8) -> (r: bool)
        requires
            signers <= MAX_SIGNERS,
        ensures
            r == {
                &&& 1 <= entry.signed@.len() < threshold
                &&& forall|slot: int| entry.signed@.contains(slot) ==> slot < signers
            },
    {
        let count = entry.signed.count();
        if count < 1 || count >= threshold {
            return false;
        }
        proof {
            entry.signed.lemma_bounded();
        }
        let mut slot: usize = signers;
        while slot < MAX_SIGNERS
            invariant
                signers <= slot <= MAX_SIGNERS,
                forall|s: int| signers <= s < slot ==> !entry.signed@.contains(s),
                forall|s: int| entry.signed@.contains(s) ==> 0 <= s < MAX_SIGNERS,
            decreases MAX_SIGNERS - slot,
        {
            if entry.signed.contains(slot) {
                return false;
            }
            slot += 1;
        }
        true
    }

    /// Whether the pending entries fit a multisig of the given size and
    /// threshold.
    fn pending_fits(entries: &Vec<PendingInstruction>, signers: usize, threshold: u8) -> (r: bool)
        requires
            signers <= MAX_SIGNERS,
        ensures
            r == Multisig::valid_pending(entries@, signers as nat, threshold),
    {
        let mut i: usize = 0;
        while i < entries.len()
            invariant
                signers <= MAX_SIGNERS,
                i <= entries.len(),
                Multisig::valid_pending(entries@.subrange(0, i as int), signers as nat, threshold),
            decreases entries.len() - i,
        {
            let ghost seen = entries@.subrange(0, i as int);
            let ghost next = entries@.subrange(0, i + 1);
            if !Multisig::entry_fits(&entries[i], signers, threshold) {
                return false;
            }
            let mut j: usize = 0;
            while j < i
                invariant
                    i < entries.len(),
                    j <= i,
                    forall|a: int| 0 <= a < j ==> entries@[a].digest@ != entries@[i as int].digest@,
                decreases i - j,
            {
                if entries[j].digest == entries[i].digest {
                    return false;
                }
                j += 1;
            }
            proof {
                assert forall|a: int, b: int| 0 <= a < b < next.len() implies #[trigger] next[a]
                    .digest@ != #[trigger] next[b].digest@ by {
                    if b < i {
                        assert(seen[a].digest@ != seen[b].digest@);
                    }
                }
                assert forall|a: int| 0 <= a < next.len() implies {
                    &&& 1 <= (#[trigger] next[a]).signed@.len() < threshold
                    &&& forall|slot: int| next[a].signed@.contains(slot) ==> slot < signers
                } by {
                    if a < i {
                        assert(seen[a] == next[a]);
                    }
                }
            }
            i += 1;
        }
        assert(entries@.subrange(0, i as int) == entries@);
        true
    }

    /// A multisig account with the given signers and threshold and with no
    /// pending instruction; `None` where the setup is not valid.
    pub fn new(signers: Vec<Address>, threshold: u8, bump: u8) -> (r: Option<Multisig>)
        ensures
            r.is_some() == Multisig::valid_setup(address_views(signers@), threshold),
            r matches Some(multisig) ==> {
                &&& multisig@.valid()
                &&& multisig@ == (MultisigView {
                    signers: address_views(signers@),
                    threshold: threshold as nat,
                    pending: Map::empty(),
                    bump,
                })
            },
    {
        let pending: Vec<PendingInstruction> = Vec::new();
        assert(pending_map(pending@) =~= Map::empty());
        Multisig::restore(signers, threshold, bump, pending)
    }

    /// The multisig account with the given signers, threshold and pending
    /// instructions, as it was stored; `None` where the setup is not valid
    /// or the pending instructions do not fit it.
    pub fn restore(
        signers: Vec<Address>,
        threshold: u8,
        bump: u8,
        pending: Vec<PendingInstruction>,
    ) -> (r: Option<Multisig>)
        ensures
            r.is_some() == (Multisig::valid_setup(address_views(signers@), threshold)
                && Multisig::valid_pending(pending@, signers@.len(), threshold)),
            r matches Some(multisig) ==> {
                &&& multisig@.valid()
                &&& multisig@ == (MultisigView {
                    signers: address_views(signers@),
                    threshold: threshold as nat,
                    pending: pending_map(pending@),
                    bump,
                })
            },
    {
        if threshold == 0 || threshold as usize > signers.len() {
            return None;
        }
        if !Multisig::distinct_signers(&signers) {
            return None;
        }
        if !Multisig::pending_fits(&pending, signers.len(), threshold) {
            return None;
        }
        proof {
            let entries = pending@;
            let stored = pending_map(entries);
            assert forall|digest: Seq<u8>| #[trigger] stored.dom().contains(digest) implies {
                &&& stored[digest].finite()
                &&& 1 <= stored[digest].len() < threshold
                &&& forall|slot: int| #[trigger]
                    stored[digest].contains(slot) ==> 0 <= slot < signers@.len()
            } by {
                let p = position_of(entries, digest);
                entries[p].signed.lemma_bounded();
            }
        }
        Some(Multisig { signers, threshold, pending, bump })
    }

    /// The signers, in the order in which they were configured.
    pub fn signers(&self) -> (r: &Vec<Address>)
        ensures
            address_views(r@) == self@.signers,
            self@.valid(),
    {
        proof {
            use_type_invariant(self);
        }
        &self.signers
    }

    /// The pending instructions, each with the slots that have signed it.
    pub fn pending(&self) -> (r: &Vec<PendingInstruction>)
        ensures
            pending_map(r@) == self@.pending,
            distinct_digests(r@),
    {
        proof {
            use_type_invariant(self);
        }
        &self.pending
    }

    /// The slots that have signed the instruction with the given digest.
    pub fn signatures(&self, digest: &Digest) -> (r: SignerBitmap)
        ensures
            r@ == self@.signed_by(digest@),
    {
        proof {
            use_type_invariant(self);
        }
        match self.pending_index(digest) {
            Some(p) => {
                proof {
                    lemma_position(self.pending@, p as int);
                }
                self.pending[p].signed
            },
            None => SignerBitmap::empty(),
        }
    }

    /// The bump seed of the account's address.
    pub fn bump(&self) -> (r: u8)
        ensures
            r == self@.bump,
    {
        self.bump
    }

    /// How many distinct signers must approve an instruction.
    pub fn threshold(&self) -> (r: u8)
        ensures
            r == self@.threshold,
            self@.valid(),
    {
        proof {
            use_type_invariant(self);
        }
        self.threshold
    }

    /// The position of the given address among the signers.
    pub fn signer_index(&self, who: &Address) -> (r: Option<usize>)
        ensures
            self@.valid(),
            r.is_some() == self@.is_signer(who@),
            r matches Some(slot) ==> slot == self@.slot_of(who@) && slot < MAX_SIGNERS,
    {
        proof {
            use_type_invariant(self);
        }
        let ghost views = address_views(self.signers@);
        let mut i: usize = 0;
        while i < self.signers.len()
            invariant
                self@.valid(),
                views == address_views(self.signers@),
                i <= self.signers.len(),
                forall|a: int| 0 <= a < i ==> views[a] != who@,
            decreases self.signers.len() - i,
        {
            if self.signers[i] == *who {
                proof {
                    assert(views[i as int] == who@);
                    let found = views.index_of(who@);
                    assert(0 <= found < views.len() && views[found] == who@);
                    assert(views.no_duplicates());
                }
                return Some(i);
            }
            i += 1;
        }
        None
    }

    /// The position of the pending entry with the given digest.
    fn pending_index(&self, digest: &Digest) -> (r: Option<usize>)
        ensures
            r.is_some() == is_pending(self.pending@, digest@),
            r matches Some(p) ==> p < self.pending.len() && self.pending@[p as int].digest@
                == digest@,
    {
        let mut i: usize = 0;
        while i < self.pending.len()
            invariant
                i <= self.pending.len(),
                forall|a: int| 0 <= a < i ==> self.pending@[a].digest@ != digest@,
            decreases self.pending.len() - i,
        {
            if self.pending[i].digest == *digest {
                return Some(i);
            }
            i += 1;
        }
        None
    }

    /// Counts the signature of `signer` for the instruction with the given
    /// digest.
    ///
    /// Fails with `NotAuthorized` where `signer` is not one of the signers
    /// and with `AlreadySigned` where its signature is already counted;
    /// the account is then unchanged. Otherwise returns how many signatures
    /// are still missing; where none is, the pending instruction is
    /// cleared. Signers are told apart by address alone, and the accounts
    /// passed beside the signer add no signature, whatever their
    /// addresses.
    pub fn sign_multisig(
        &mut self,
        signer: &Address,
        _other_signer_accounts: &[Address],
        digest: &Digest,
    ) -> (r: TYieldResult<u8>)
        ensures
            old(self)@.valid(),
            final(self)@.valid(),
            r == old(self)@.sign_result(signer@, digest@),
            final(self)@ == old(self)@.after_sign(signer@, digest@),
    {
        proof {
            use_type_invariant(&*self);
        }
        let slot = match self.signer_index(signer) {
            Some(slot) => slot,
            None => {
                return Err(ErrorCode::NotAuthorized);
            },
        };
        let position = self.pending_index(digest);
        let current = match position {
            Some(p) => self.pending[p].signed,
            None => SignerBitmap::empty(),
        };
        proof {
            if let Some(p) = position {
                lemma_position(self.pending@, p as int);
            }
            assert(current@ == self@.signed_by(digest@));
            current.lemma_bounded();
        }
        if current.contains(slot) {
            return Err(ErrorCode::AlreadySigned);
        }
        let updated = current.insert(slot);
        let count = updated.count();
        let entry = PendingInstruction { digest: *digest, signed: updated };
        let ghost before = self@;
        // The entries are taken out, changed and put back, so that the
        // account is a valid multisig at every step.
        let mut pending: Vec<PendingInstruction> = Vec::new();
        core::mem::swap(&mut self.pending, &mut pending);
        if count < self.threshold {
            match position {
                Some(p) => {
                    proof {
                        lemma_pending_update(pending@, p as int, entry);
                    }
                    pending.set(p, entry);
                },
                None => {
                    proof {
                        lemma_pending_push(pending@, entry);
                    }
                    pending.push(entry);
                },
            }
            proof {
                assert(pending_map(pending@) == before.pending.insert(digest@, updated@));
                before.lemma_sign_keeps_valid(signer@, digest@);
            }
            self.pending = pending;
            Ok(self.threshold - count)
        } else {
            if let Some(p) = position {
                proof {
                    lemma_pending_remove(pending@, p as int);
                }
                pending.remove(p);
            }
            proof {
                assert(pending_map(pending@) =~= before.pending.remove(digest@));
                before.lemma_sign_keeps_valid(signer@, digest@);
            }
            self.pending = pending;
            Ok(0)
        }
    }
}

} // verus!
