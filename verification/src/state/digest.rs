//! Binding an instruction kind and its payload to a fixed-size digest.

use crate::state::address::bytes32_equal;
use anchor_lang::solana_program::hash::hash;
use vstd::prelude::*;
use vstd::std_specs::cmp::PartialEqSpecImpl;

verus! {

/// The kinds of administrative instruction that the multisig guards.
#[derive(Clone, Copy, Debug, PartialEq, Eq, Structural)]
pub enum AdminInstruction {
    /// Minting a master agent.
    DeployAgent,
}

impl AdminInstruction {
    /// The byte that stands for this kind in an instruction's data.
    pub open spec fn spec_tag(self) -> u8 {
        match self {
            AdminInstruction::DeployAgent => 0,
        }
    }

    /// The byte that stands for this kind in an instruction's data.
    pub fn tag(self) -> (t: u8)
        ensures
            t == self.spec_tag(),
    {
        match self {
            AdminInstruction::DeployAgent => 0,
        }
    }
}

/// A 32-byte digest of an instruction.
#[derive(Clone, Copy, Debug, Eq)]
pub struct Digest {
    pub bytes: [u8; 32],
}

impl View for Digest {
    type V = Seq<u8>;

    open spec fn view(&self) -> Seq<u8> {
        self.bytes@
    }
}

impl PartialEq for Digest {
    fn eq(&self, other: &Digest) -> (r: bool) {
        bytes32_equal(&self.bytes, &other.bytes)
    }
}

impl PartialEqSpecImpl for Digest {
    open spec fn obeys_eq_spec() -> bool {
        true
    }

    open spec fn eq_spec(&self, other: &Digest) -> bool {
        self@ == other@
    }
}

/// The SHA-256 hash of a byte string.
pub uninterp spec fn sha256(data: Seq<u8>) -> Seq<u8>;

/// Calls `anchor_lang::solana_program::hash::hash`.
///
/// Trusted: the hash is a function of the bytes alone, so its value is
/// named `sha256`; nothing more is claimed of it.
#[verifier::external_body]
pub(crate) fn sha256_of(data: &[u8]) -> (d: Digest)
    ensures
        d@ == sha256(data@),
{
    Digest { bytes: hash(data).to_bytes() }
}

/// The bytes that are hashed for an instruction: the kind's tag, then the
/// serialized parameters.
pub open spec fn instruction_data(kind: AdminInstruction, payload: Seq<u8>) -> Seq<u8> {
    seq![kind.spec_tag()] + payload
}

/// Tagged bytes are equal only where the kinds are the same and the
/// serialized parameters are the same.
pub proof fn lemma_instruction_data_injective(
    kind: AdminInstruction,
    payload: Seq<u8>,
    other_kind: AdminInstruction,
    other_payload: Seq<u8>,
)
    requires
        instruction_data(kind, payload) == instruction_data(other_kind, other_payload),
    ensures
        kind == other_kind,
        payload == other_payload,
{
    let data = instruction_data(kind, payload);
    let other_data = instruction_data(other_kind, other_payload);
    assert(data[0] == kind.spec_tag());
    assert(other_data[0] == other_kind.spec_tag());
    assert(payload =~= data.subrange(1, data.len() as int));
    assert(other_payload =~= other_data.subrange(1, other_data.len() as int));
}

/// The tagged bytes of an instruction of the given kind with the given
/// serialized parameters.
pub fn get_instruction_data(kind: AdminInstruction, payload: &Vec<u8>) -> (data: Vec<u8>)
    ensures
        data@ == instruction_data(kind, payload@),
{
    let mut data: Vec<u8> = Vec::new();
    data.push(kind.tag());
    let mut i: usize = 0;
    while i < payload.len()
        invariant
            i <= payload.len(),
            data@ == seq![kind.spec_tag()] + payload@.subrange(0, i as int),
        decreases payload.len() - i,
    {
        data.push(payload[i]);
        assert(payload@.subrange(0, i + 1) == payload@.subrange(0, i as int).push(
            payload@[i as int],
        ));
        i += 1;
    }
    assert(payload@.subrange(0, payload.len() as int) == payload@);
    data
}

/// The digest of an instruction's tagged bytes.
pub fn get_instruction_hash(data: &Vec<u8>) -> (d: Digest)
    ensures
        d@ == sha256(data@),
{
    sha256_of(data.as_slice())
}

} // verus!
