//! Minting a master agent: an instruction that takes effect once enough
//! of the multisig's signers have submitted it with the same parameters.

use crate::error::{ErrorCode, TYieldResult};
use crate::math::le_bytes::{
    append_le_bytes, le_bytes, lemma_le_bytes_injective, lemma_le_bytes_len, lemma_pow256_widths,
    pow256,
};
use crate::state::address::{
    find_program_address, found_view, program_address, seeds_view, Address,
};
use crate::state::digest::{
    get_instruction_data, get_instruction_hash, instruction_data,
    lemma_instruction_data_injective, sha256, AdminInstruction, Digest,
};
use crate::state::master_agent::{
    MasterAgent, MasterAgentInitParams, MasterAgentView, TradingStatus,
};
use crate::state::multisig::{Multisig, MultisigView};
use vstd::prelude::*;
use vstd::slice::slice_to_vec;
use vstd::string::StringSliceAdditionalSpecFns;
use vstd::utf8::{encode_utf8, encode_utf8_decode_utf8};

verus! {

/// The parameters of the instruction.
#[derive(Clone, Debug)]
pub struct MintMasterAgentParams {
    pub name: String,
    pub symbol: String,
    pub uri: String,
    pub seller_fee_basis_points: u16,
    pub price: u64,
    pub w_yield: u64,
    pub max_supply: u64,
}

/// The parameters of the instruction, as mathematical values.
pub ghost struct MintMasterAgentParamsView {
    pub name: Seq<char>,
    pub symbol: Seq<char>,
    pub uri: Seq<char>,
    pub seller_fee_basis_points: u16,
    pub price: u64,
    pub w_yield: u64,
    pub max_supply: u64,
}

impl View for MintMasterAgentParams {
    type V = MintMasterAgentParamsView;

    open spec fn view(&self) -> MintMasterAgentParamsView {
        MintMasterAgentParamsView {
            name: self.name@,
            symbol: self.symbol@,
            uri: self.uri@,
            seller_fee_basis_points: self.seller_fee_basis_points,
            price: self.price,
            w_yield: self.w_yield,
            max_supply: self.max_supply,
        }
    }
}

/// Whether a string can be serialized: the length of its UTF-8 encoding
/// fits in 32 bits.
pub open spec fn string_serializable(s: Seq<char>) -> bool {
    encode_utf8(s).len() <= u32::MAX
}

/// The serialized form of a string: the length of its UTF-8 encoding as
/// four little-endian bytes, then the encoding.
pub open spec fn serialized_string(s: Seq<char>) -> Seq<u8> {
    le_bytes(encode_utf8(s).len(), 4) + encode_utf8(s)
}

impl MintMasterAgentParamsView {
    /// Whether the parameters can be serialized.
    pub open spec fn serializable(self) -> bool {
        &&& string_serializable(self.name)
        &&& string_serializable(self.symbol)
        &&& string_serializable(self.uri)
    }

    /// The canonical serialized form: the fields in their declared order,
    /// strings with a length prefix, integers little-endian, no padding.
    pub open spec fn serialized(self) -> Seq<u8> {
        serialized_string(self.name) + (serialized_string(self.symbol) + (serialized_string(
            self.uri,
        ) + (le_bytes(self.seller_fee_basis_points as nat, 2) + (le_bytes(self.price as nat, 8)
            + (le_bytes(self.w_yield as nat, 8) + le_bytes(self.max_supply as nat, 8))))))
    }
}

/// Two byte strings that begin with parts of equal length are equal only
/// if the parts are equal and the rests are equal.
proof fn lemma_split(a1: Seq<u8>, r1: Seq<u8>, a2: Seq<u8>, r2: Seq<u8>)
    requires
        a1.len() == a2.len(),
        a1 + r1 == a2 + r2,
    ensures
        a1 == a2,
        r1 == r2,
{
    let whole = a1 + r1;
    assert(a1 =~= whole.subrange(0, a1.len() as int));
    assert(a2 =~= (a2 + r2).subrange(0, a2.len() as int));
    assert(r1 =~= whole.subrange(a1.len() as int, whole.len() as int));
    assert(r2 =~= (a2 + r2).subrange(a2.len() as int, (a2 + r2).len() as int));
}

/// A serialized string can be read back from the front of a byte string.
proof fn lemma_string_prefix(s1: Seq<char>, r1: Seq<u8>, s2: Seq<char>, r2: Seq<u8>)
    requires
        string_serializable(s1),
        string_serializable(s2),
        serialized_string(s1) + r1 == serialized_string(s2) + r2,
    ensures
        s1 == s2,
        r1 == r2,
{
    let e1 = encode_utf8(s1);
    let e2 = encode_utf8(s2);
    let l1 = le_bytes(e1.len(), 4);
    let l2 = le_bytes(e2.len(), 4);
    lemma_le_bytes_len(e1.len(), 4);
    lemma_le_bytes_len(e2.len(), 4);
    lemma_pow256_widths();
    assert(serialized_string(s1) + r1 =~= l1 + (e1 + r1));
    assert(serialized_string(s2) + r2 =~= l2 + (e2 + r2));
    lemma_split(l1, e1 + r1, l2, e2 + r2);
    lemma_le_bytes_injective(e1.len(), e2.len(), 4);
    lemma_split(e1, r1, e2, r2);
    encode_utf8_decode_utf8(s1);
    encode_utf8_decode_utf8(s2);
}

/// A number of the given width can be read back from the front of a byte
/// string.
proof fn lemma_number_prefix(a: nat, r1: Seq<u8>, b: nat, r2: Seq<u8>, width: nat)
    requires
        a < pow256(width),
        b < pow256(width),
        le_bytes(a, width) + r1 == le_bytes(b, width) + r2,
    ensures
        a == b,
        r1 == r2,
{
    lemma_le_bytes_len(a, width);
    lemma_le_bytes_len(b, width);
    lemma_split(le_bytes(a, width), r1, le_bytes(b, width), r2);
    lemma_le_bytes_injective(a, b, width);
}

impl MintMasterAgentParamsView {
    /// Serialization loses nothing: parameters with the same serialized
    /// form are the same parameters.
    pub proof fn lemma_serialized_injective(self, other: MintMasterAgentParamsView)
        requires
            self.serializable(),
            other.serializable(),
            self.serialized() == other.serialized(),
        ensures
            self == other,
    {
        lemma_pow256_widths();
        let a5 = le_bytes(self.max_supply as nat, 8);
        let b5 = le_bytes(other.max_supply as nat, 8);
        let a4 = le_bytes(self.w_yield as nat, 8) + a5;
        let b4 = le_bytes(other.w_yield as nat, 8) + b5;
        let a3 = le_bytes(self.price as nat, 8) + a4;
        let b3 = le_bytes(other.price as nat, 8) + b4;
        let a2 = le_bytes(self.seller_fee_basis_points as nat, 2) + a3;
        let b2 = le_bytes(other.seller_fee_basis_points as nat, 2) + b3;
        let a1 = serialized_string(self.uri) + a2;
        let b1 = serialized_string(other.uri) + b2;
        let a0 = serialized_string(self.symbol) + a1;
        let b0 = serialized_string(other.symbol) + b1;
        lemma_string_prefix(self.name, a0, other.name, b0);
        lemma_string_prefix(self.symbol, a1, other.symbol, b1);
        lemma_string_prefix(self.uri, a2, other.uri, b2);
        lemma_number_prefix(
            self.seller_fee_basis_points as nat,
            a3,
            other.seller_fee_basis_points as nat,
            b3,
            2,
        );
        lemma_number_prefix(self.price as nat, a4, other.price as nat, b4, 8);
        lemma_number_prefix(self.w_yield as nat, a5, other.w_yield as nat, b5, 8);
        assert(a5 + Seq::<u8>::empty() =~= a5);
        assert(b5 + Seq::<u8>::empty() =~= b5);
        lemma_number_prefix(
            self.max_supply as nat,
            Seq::empty(),
            other.max_supply as nat,
            Seq::empty(),
            8,
        );
    }
}

impl MintMasterAgentParamsView {
    /// The bytes that are hashed for the instruction with these
    /// parameters.
    pub open spec fn hashed_bytes(self) -> Seq<u8> {
        instruction_data(AdminInstruction::DeployAgent, self.serialized())
    }

    /// Parameters that differ in any field are hashed from different
    /// bytes, so their digests differ unless SHA-256 maps those two byte
    /// strings to one value. The digest is a function of the parameters:
    /// the same parameters always have the same digest.
    pub proof fn lemma_any_change_changes_hashed_bytes(self, other: MintMasterAgentParamsView)
        requires
            self.serializable(),
            other.serializable(),
        ensures
            self != other ==> self.hashed_bytes() != other.hashed_bytes(),
            params_digest(AdminInstruction::DeployAgent, self) == Some(
                sha256(self.hashed_bytes()),
            ),
            params_digest(AdminInstruction::DeployAgent, other) == Some(
                sha256(other.hashed_bytes()),
            ),
    {
        if self.hashed_bytes() == other.hashed_bytes() {
            lemma_instruction_data_injective(
                AdminInstruction::DeployAgent,
                self.serialized(),
                AdminInstruction::DeployAgent,
                other.serialized(),
            );
            self.lemma_serialized_injective(other);
        }
    }
}

/// Appends the serialized form of a string; leaves the bytes as they are
/// and reports `false` where the string cannot be serialized.
fn write_string(out: &mut Vec<u8>, s: &String) -> (ok: bool)
    ensures
        ok == string_serializable(s@),
        ok ==> final(out)@ == old(out)@ + serialized_string(s@),
        !ok ==> final(out)@ == old(out)@,
{
    let bytes = s.as_str().as_bytes();
    if bytes.len() > u32::MAX as usize {
        return false;
    }
    append_le_bytes(out, bytes.len() as u64, 4);
    let mut body = slice_to_vec(bytes);
    out.append(&mut body);
    assert(out@ =~= old(out)@ + serialized_string(s@));
    true
}

impl MintMasterAgentParams {
    /// The canonical serialized form of the parameters; `None` where a
    /// string is too long to be serialized.
    pub fn serialize(&self) -> (r: Option<Vec<u8>>)
        ensures
            r.is_some() == self@.serializable(),
            r matches Some(bytes) ==> bytes@ == self@.serialized(),
    {
        let mut out: Vec<u8> = Vec::new();
        if !write_string(&mut out, &self.name) {
            return None;
        }
        if !write_string(&mut out, &self.symbol) {
            return None;
        }
        if !write_string(&mut out, &self.uri) {
            return None;
        }
        append_le_bytes(&mut out, self.seller_fee_basis_points as u64, 2);
        append_le_bytes(&mut out, self.price, 8);
        append_le_bytes(&mut out, self.w_yield, 8);
        append_le_bytes(&mut out, self.max_supply, 8);
        assert(out@ =~= self@.serialized());
        Some(out)
    }
}

/// The seeds of the multisig account's address.
pub open spec fn multisig_seeds() -> Seq<Seq<u8>> {
    seq!["multisig".spec_bytes()]
}

/// The seeds of the address of the master-agent record of a mint.
pub open spec fn master_agent_seeds(mint: Seq<u8>) -> Seq<Seq<u8>> {
    seq!["master_agent".spec_bytes(), mint]
}

/// The seeds of the address of the metadata account of a mint.
pub open spec fn metadata_seeds(metadata_program: Seq<u8>, mint: Seq<u8>) -> Seq<Seq<u8>> {
    seq!["metadata".spec_bytes(), metadata_program, mint]
}

/// The seeds of the address of the master-edition account of a mint.
pub open spec fn master_edition_seeds(metadata_program: Seq<u8>, mint: Seq<u8>) -> Seq<Seq<u8>> {
    seq!["metadata".spec_bytes(), metadata_program, mint, "edition".spec_bytes()]
}

/// The addresses, with their bump seeds, that the accounts of the
/// instruction are expected at; `None` where the derivation found none.
#[derive(Clone, Copy, Debug)]
pub struct DerivedAddresses {
    pub multisig: Option<(Address, u8)>,
    pub master_agent: Option<(Address, u8)>,
    pub metadata: Option<(Address, u8)>,
    pub master_edition: Option<(Address, u8)>,
}

/// The expected addresses, as mathematical values.
pub ghost struct DerivedAddressesView {
    pub multisig: Option<(Seq<u8>, u8)>,
    pub master_agent: Option<(Seq<u8>, u8)>,
    pub metadata: Option<(Seq<u8>, u8)>,
    pub master_edition: Option<(Seq<u8>, u8)>,
}

impl View for DerivedAddresses {
    type V = DerivedAddressesView;

    open spec fn view(&self) -> DerivedAddressesView {
        DerivedAddressesView {
            multisig: found_view(self.multisig),
            master_agent: found_view(self.master_agent),
            metadata: found_view(self.metadata),
            master_edition: found_view(self.master_edition),
        }
    }
}

/// The addresses that the derivation gives for a program, the metadata
/// program and a mint: the multisig account and the master-agent record
/// under the program, the metadata and master-edition accounts under the
/// metadata program.
pub open spec fn expected_addresses(
    program_id: Seq<u8>,
    metadata_program: Seq<u8>,
    mint: Seq<u8>,
) -> DerivedAddressesView {
    DerivedAddressesView {
        multisig: program_address(multisig_seeds(), program_id),
        master_agent: program_address(master_agent_seeds(mint), program_id),
        metadata: program_address(metadata_seeds(metadata_program, mint), metadata_program),
        master_edition: program_address(
            master_edition_seeds(metadata_program, mint),
            metadata_program,
        ),
    }
}

fn tag_bytes(tag: &str) -> (r: Vec<u8>)
    ensures
        r@ == tag.spec_bytes(),
{
    slice_to_vec(tag.as_bytes())
}

fn address_bytes(address: &Address) -> (r: Vec<u8>)
    ensures
        r@ == address@,
{
    slice_to_vec(address.bytes.as_slice())
}

/// The address of the multisig account of a program.
pub fn multisig_address(program_id: &Address) -> (r: Option<(Address, u8)>)
    ensures
        found_view(r) == program_address(multisig_seeds(), program_id@),
{
    let mut seeds: Vec<Vec<u8>> = Vec::new();
    seeds.push(tag_bytes("multisig"));
    assert(seeds_view(seeds@) =~= multisig_seeds());
    find_program_address(&seeds, program_id)
}

/// The address of the master-agent record of a mint.
pub fn master_agent_address(program_id: &Address, mint: &Address) -> (r: Option<(Address, u8)>)
    ensures
        found_view(r) == program_address(master_agent_seeds(mint@), program_id@),
{
    let mut seeds: Vec<Vec<u8>> = Vec::new();
    seeds.push(tag_bytes("master_agent"));
    seeds.push(address_bytes(mint));
    assert(seeds_view(seeds@) =~= master_agent_seeds(mint@));
    find_program_address(&seeds, program_id)
}

/// The address of the metadata account of a mint.
pub fn metadata_address(metadata_program: &Address, mint: &Address) -> (r: Option<(Address, u8)>)
    ensures
        found_view(r) == program_address(
            metadata_seeds(metadata_program@, mint@),
            metadata_program@,
        ),
{
    let mut seeds: Vec<Vec<u8>> = Vec::new();
    seeds.push(tag_bytes("metadata"));
    seeds.push(address_bytes(metadata_program));
    seeds.push(address_bytes(mint));
    assert(seeds_view(seeds@) =~= metadata_seeds(metadata_program@, mint@));
    find_program_address(&seeds, metadata_program)
}

/// The address of the master-edition account of a mint.
pub fn master_edition_address(metadata_program: &Address, mint: &Address) -> (r: Option<
    (Address, u8),
>)
    ensures
        found_view(r) == program_address(
            master_edition_seeds(metadata_program@, mint@),
            metadata_program@,
        ),
{
    let mut seeds: Vec<Vec<u8>> = Vec::new();
    seeds.push(tag_bytes("metadata"));
    seeds.push(address_bytes(metadata_program));
    seeds.push(address_bytes(mint));
    seeds.push(tag_bytes("edition"));
    assert(seeds_view(seeds@) =~= master_edition_seeds(metadata_program@, mint@));
    find_program_address(&seeds, metadata_program)
}

/// The addresses that the accounts of the instruction are expected at.
pub fn derive_addresses(program_id: &Address, metadata_program: &Address, mint: &Address) -> (r:
    DerivedAddresses)
    ensures
        r@ == expected_addresses(program_id@, metadata_program@, mint@),
{
    DerivedAddresses {
        multisig: multisig_address(program_id),
        master_agent: master_agent_address(program_id, mint),
        metadata: metadata_address(metadata_program, mint),
        master_edition: master_edition_address(metadata_program, mint),
    }
}

/// The accounts that the instruction works on, and the time at which it
/// runs.
#[derive(Debug)]
pub struct MintMasterAgent {
    /// The program that runs the instruction.
    pub program_id: Address,
    /// The signer that submits the instruction.
    pub payer: Address,
    /// Where the multisig account is.
    pub multisig_key: Address,
    pub multisig: Multisig,
    /// Where the master-agent record is.
    pub master_agent_key: Address,
    pub master_agent: MasterAgent,
    /// The token that is minted for the agent.
    pub mint: Address,
    /// The authority over the mint and over the record.
    pub authority: Address,
    /// The metadata account of the mint.
    pub metadata: Address,
    /// The program that keeps token metadata.
    pub metadata_program: Address,
    /// The master-edition account of the mint.
    pub master_edition: Address,
    /// The time that the clock gives.
    pub current_time: i64,
}

/// The accounts of the instruction, as mathematical values.
pub ghost struct MintMasterAgentView {
    pub program_id: Seq<u8>,
    pub payer: Seq<u8>,
    pub multisig_key: Seq<u8>,
    pub multisig: MultisigView,
    pub master_agent_key: Seq<u8>,
    pub master_agent: MasterAgentView,
    pub mint: Seq<u8>,
    pub authority: Seq<u8>,
    pub metadata: Seq<u8>,
    pub metadata_program: Seq<u8>,
    pub master_edition: Seq<u8>,
    pub current_time: i64,
}

impl View for MintMasterAgent {
    type V = MintMasterAgentView;

    open spec fn view(&self) -> MintMasterAgentView {
        MintMasterAgentView {
            program_id: self.program_id@,
            payer: self.payer@,
            multisig_key: self.multisig_key@,
            multisig: self.multisig@,
            master_agent_key: self.master_agent_key@,
            master_agent: self.master_agent@,
            mint: self.mint@,
            authority: self.authority@,
            metadata: self.metadata@,
            metadata_program: self.metadata_program@,
            master_edition: self.master_edition@,
            current_time: self.current_time,
        }
    }
}

/// Whether a derivation found the given address.
pub open spec fn found_at(found: Option<(Seq<u8>, u8)>, key: Seq<u8>) -> bool {
    found matches Some((address, _)) && address == key
}

impl MintMasterAgentView {
    /// Whether every derived account sits at its expected address, and the
    /// multisig account records the bump seed of its own.
    pub open spec fn addresses_match(self, derived: DerivedAddressesView) -> bool {
        &&& derived.multisig == Some((self.multisig_key, self.multisig.bump))
        &&& found_at(derived.master_agent, self.master_agent_key)
        &&& found_at(derived.metadata, self.metadata)
        &&& found_at(derived.master_edition, self.master_edition)
    }

    /// The record that the instruction creates: the submitted price, yield
    /// and supply, trading restricted to the white list, automatic
    /// relisting on.
    pub open spec fn new_record(
        self,
        params: MintMasterAgentParamsView,
        derived: DerivedAddressesView,
    ) -> MasterAgentView {
        MasterAgentView {
            authority: self.authority,
            mint: self.mint,
            price: params.price,
            w_yield: params.w_yield,
            max_supply: params.max_supply,
            trading_status: TradingStatus::WhiteList,
            auto_relist: true,
            current_time: self.current_time,
            bump: derived.master_agent.unwrap().1,
        }
    }

    /// What the instruction returns, given the expected addresses and the
    /// digest of the instruction (`None` where it has none).
    pub open spec fn mint_result(
        self,
        params: MintMasterAgentParamsView,
        derived: DerivedAddressesView,
        digest: Option<Seq<u8>>,
    ) -> TYieldResult<u8> {
        if !self.addresses_match(derived) {
            Err(ErrorCode::InvalidBump)
        } else if digest.is_none() {
            Err(ErrorCode::InvalidInstructionHash)
        } else {
            match self.multisig.sign_result(self.payer, digest.unwrap()) {
                Err(e) => Err(e),
                Ok(remaining) => if remaining > 0 {
                    Ok(remaining)
                } else if self.master_agent != MasterAgentView::blank() {
                    Err(ErrorCode::AlreadyInitialized)
                } else if !self.new_record(params, derived).valid() {
                    Err(ErrorCode::InvalidParams)
                } else {
                    Ok(0u8)
                },
            }
        }
    }

    /// The accounts after the instruction. Nothing changes before the
    /// signature is counted; the record changes only where the threshold is
    /// reached and the record is blank.
    pub open spec fn after_mint(
        self,
        params: MintMasterAgentParamsView,
        derived: DerivedAddressesView,
        digest: Option<Seq<u8>>,
    ) -> MintMasterAgentView {
        if !self.addresses_match(derived) || digest.is_none() {
            self
        } else {
            let signed = MintMasterAgentView {
                multisig: self.multisig.after_sign(self.payer, digest.unwrap()),
                ..self
            };
            if self.multisig.sign_result(self.payer, digest.unwrap()) == Ok::<u8, ErrorCode>(0u8)
                && self.master_agent == MasterAgentView::blank() {
                MintMasterAgentView { master_agent: self.new_record(params, derived), ..signed }
            } else {
                signed
            }
        }
    }
}

impl MintMasterAgentView {
    /// What is rejected before a signature is counted, or because the
    /// signature is not counted, changes nothing at all.
    pub proof fn lemma_rejection_changes_nothing(
        self,
        params: MintMasterAgentParamsView,
        derived: DerivedAddressesView,
        digest: Option<Seq<u8>>,
    )
        requires
            self.mint_result(params, derived, digest) matches Err(e) && (e
                == ErrorCode::InvalidBump || e == ErrorCode::InvalidInstructionHash || e
                == ErrorCode::NotAuthorized || e == ErrorCode::AlreadySigned),
        ensures
            self.after_mint(params, derived, digest) == self,
    {
    }

    /// A call that leaves signatures missing does the bookkeeping of the
    /// signature and nothing else: it returns what signing returns, and
    /// the record and every other account are as they were.
    pub proof fn lemma_pending_call_only_signs(
        self,
        params: MintMasterAgentParamsView,
        derived: DerivedAddressesView,
        digest: Option<Seq<u8>>,
    )
        requires
            self.mint_result(params, derived, digest) matches Ok(remaining) && remaining > 0,
        ensures
            digest.is_some(),
            self.mint_result(params, derived, digest) == self.multisig.sign_result(
                self.payer,
                digest.unwrap(),
            ),
            self.after_mint(params, derived, digest) == (MintMasterAgentView {
                multisig: self.multisig.after_sign(self.payer, digest.unwrap()),
                ..self
            }),
            self.after_mint(params, derived, digest).master_agent == self.master_agent,
    {
    }

    /// The call that completes the threshold returns `0` only with the
    /// record created at its derived address: trading restricted to the
    /// white list, automatic relisting on, price, yield and supply as
    /// submitted, and the instruction pending no longer.
    pub proof fn lemma_threshold_creates_record(
        self,
        params: MintMasterAgentParamsView,
        derived: DerivedAddressesView,
        digest: Option<Seq<u8>>,
    )
        requires
            self.multisig.valid(),
            self.mint_result(params, derived, digest) == Ok::<u8, ErrorCode>(0u8),
        ensures
            digest.is_some(),
            self.multisig.sign_result(self.payer, digest.unwrap()) == Ok::<u8, ErrorCode>(0u8),
            self.master_agent == MasterAgentView::blank(),
            found_at(derived.master_agent, self.master_agent_key),
            self.after_mint(params, derived, digest).master_agent == self.new_record(
                params,
                derived,
            ),
            self.after_mint(params, derived, digest).master_agent.trading_status
                == TradingStatus::WhiteList,
            self.after_mint(params, derived, digest).master_agent.auto_relist,
            self.after_mint(params, derived, digest).master_agent.price == params.price,
            self.after_mint(params, derived, digest).master_agent.w_yield == params.w_yield,
            self.after_mint(params, derived, digest).master_agent.max_supply == params.max_supply,
            self.after_mint(params, derived, digest).master_agent.valid(),
            self.after_mint(params, derived, digest).master_agent != MasterAgentView::blank(),
            !self.after_mint(params, derived, digest).multisig.pending.dom().contains(
                digest.unwrap(),
            ),
    {
        let record = self.new_record(params, derived);
        assert(record.valid());
        assert(record.auto_relist);
    }

    /// Once a record has been created, the instruction cannot create it
    /// again: with the same record in place, a later call that completes
    /// the threshold, whatever its parameters, fails with
    /// `AlreadyInitialized` and leaves the record as it is.
    pub proof fn lemma_second_mint_rejected(
        self,
        params: MintMasterAgentParamsView,
        derived: DerivedAddressesView,
        digest: Option<Seq<u8>>,
        later: MintMasterAgentView,
        later_params: MintMasterAgentParamsView,
        later_derived: DerivedAddressesView,
        later_digest: Seq<u8>,
    )
        requires
            self.multisig.valid(),
            self.mint_result(params, derived, digest) == Ok::<u8, ErrorCode>(0u8),
            later.master_agent == self.after_mint(params, derived, digest).master_agent,
            later.addresses_match(later_derived),
            later.multisig.sign_result(later.payer, later_digest) == Ok::<u8, ErrorCode>(0u8),
        ensures
            later.mint_result(later_params, later_derived, Some(later_digest)) == Err::<
                u8,
                ErrorCode,
            >(ErrorCode::AlreadyInitialized),
            later.after_mint(later_params, later_derived, Some(later_digest)).master_agent
                == later.master_agent,
    {
        self.lemma_threshold_creates_record(params, derived, digest);
    }
}

impl MintMasterAgentView {
    /// The accounts as the given signer submits the instruction.
    pub open spec fn submitted_by(self, payer: Seq<u8>) -> MintMasterAgentView {
        MintMasterAgentView { payer, ..self }
    }

    /// The accounts after the given signers have submitted the instruction
    /// one after the other, the first of them first.
    pub open spec fn after_submissions(
        self,
        payers: Seq<Seq<u8>>,
        params: MintMasterAgentParamsView,
        derived: DerivedAddressesView,
        digest: Seq<u8>,
    ) -> MintMasterAgentView
        decreases payers.len(),
    {
        if payers.len() == 0 {
            self
        } else {
            self.after_submissions(payers.drop_last(), params, derived, digest).submitted_by(
                payers.last(),
            ).after_mint(params, derived, Some(digest))
        }
    }

    /// While the threshold is out of reach, distinct signers that submit
    /// the instruction one after the other, in whatever order, are each
    /// told how many signatures are missing once theirs is counted, and
    /// none of their calls touches the record: only the multisig changes,
    /// as signing changes it.
    pub proof fn lemma_submissions_below_threshold(
        self,
        payers: Seq<Seq<u8>>,
        params: MintMasterAgentParamsView,
        derived: DerivedAddressesView,
        digest: Seq<u8>,
    )
        requires
            self.multisig.valid(),
            self.addresses_match(derived),
            self.multisig.fresh_signers(payers, digest),
            self.multisig.signed_by(digest).len() + payers.len() < self.multisig.threshold,
        ensures
            forall|i: int|
                0 <= i < payers.len() ==> (#[trigger] self.after_submissions(
                    payers.take(i),
                    params,
                    derived,
                    digest,
                )).submitted_by(payers[i]).mint_result(params, derived, Some(digest)) == Ok::<
                    u8,
                    ErrorCode,
                >((self.multisig.threshold - self.multisig.signed_by(digest).len() - i - 1) as u8),
            self.after_submissions(payers, params, derived, digest).master_agent
                == self.master_agent,
            self.after_submissions(payers, params, derived, digest) == (MintMasterAgentView {
                payer: if payers.len() == 0 {
                    self.payer
                } else {
                    payers.last()
                },
                multisig: self.multisig.after_signing(payers, digest),
                ..self
            }),
            self.after_submissions(payers, params, derived, digest).addresses_match(derived),
        decreases payers.len(),
    {
        self.multisig.lemma_signing_below_threshold(payers, digest);
        if payers.len() > 0 {
            let prev = payers.drop_last();
            let last = payers.last();
            let n = prev.len() as int;
            assert(payers[n] == last);
            assert(payers.take(n) =~= prev);
            assert forall|i: int| 0 <= i < prev.len() implies self.multisig.is_signer(
                #[trigger] prev[i],
            ) && !self.multisig.signed_by(digest).contains(self.multisig.slot_of(prev[i])) by {
                assert(prev[i] == payers[i]);
            }
            assert(prev.no_duplicates()) by {
                assert forall|i: int, j: int|
                    0 <= i < prev.len() && 0 <= j < prev.len() && i != j implies prev[i]
                    != prev[j] by {
                    assert(prev[i] == payers[i] && prev[j] == payers[j]);
                }
            }
            self.lemma_submissions_below_threshold(prev, params, derived, digest);
            self.multisig.lemma_signing_below_threshold(prev, digest);
            let mid = self.after_submissions(prev, params, derived, digest);
            let call = mid.submitted_by(last);
            assert(call.multisig.sign_result(last, digest) == Ok::<u8, ErrorCode>(
                (self.multisig.threshold - self.multisig.signed_by(digest).len() - n - 1) as u8,
            ));
            assert(call.addresses_match(derived));
            assert forall|i: int| 0 <= i < payers.len() implies (#[trigger] self.after_submissions(
                payers.take(i),
                params,
                derived,
                digest,
            )).submitted_by(payers[i]).mint_result(params, derived, Some(digest)) == Ok::<
                u8,
                ErrorCode,
            >(
                (self.multisig.threshold - self.multisig.signed_by(digest).len() - i - 1) as u8,
            ) by {
                if i < n {
                    assert(payers.take(i) =~= prev.take(i));
                    assert(payers[i] == prev[i]);
                }
            }
        }
    }

    /// Distinct signers that between them complete the threshold: each but
    /// the last is told a positive number and leaves the record blank; the
    /// last is told `0`, and its call creates the record, with trading
    /// restricted to the white list, automatic relisting on, and price,
    /// yield and supply as submitted.
    pub proof fn lemma_submissions_reach_threshold(
        self,
        payers: Seq<Seq<u8>>,
        params: MintMasterAgentParamsView,
        derived: DerivedAddressesView,
        digest: Seq<u8>,
    )
        requires
            self.multisig.valid(),
            self.addresses_match(derived),
            self.multisig.fresh_signers(payers, digest),
            payers.len() >= 1,
            self.multisig.signed_by(digest).len() + payers.len() == self.multisig.threshold,
            self.master_agent == MasterAgentView::blank(),
            self.authority != Address::null(),
            self.mint != Address::null(),
        ensures
            forall|i: int|
                0 <= i < payers.len() ==> (#[trigger] self.after_submissions(
                    payers.take(i),
                    params,
                    derived,
                    digest,
                )).submitted_by(payers[i]).mint_result(params, derived, Some(digest)) == Ok::<
                    u8,
                    ErrorCode,
                >((self.multisig.threshold - self.multisig.signed_by(digest).len() - i - 1) as u8),
            self.after_submissions(payers.drop_last(), params, derived, digest).master_agent
                == MasterAgentView::blank(),
            self.after_submissions(payers.drop_last(), params, derived, digest).submitted_by(
                payers.last(),
            ).mint_result(params, derived, Some(digest)) == Ok::<u8, ErrorCode>(0u8),
            self.after_submissions(payers, params, derived, digest).master_agent
                == self.new_record(params, derived),
            self.after_submissions(payers, params, derived, digest).master_agent.trading_status
                == TradingStatus::WhiteList,
            self.after_submissions(payers, params, derived, digest).master_agent.auto_relist,
            self.after_submissions(payers, params, derived, digest).master_agent.price
                == params.price,
            self.after_submissions(payers, params, derived, digest).master_agent.w_yield
                == params.w_yield,
            self.after_submissions(payers, params, derived, digest).master_agent.max_supply
                == params.max_supply,
            self.after_submissions(payers, params, derived, digest).multisig.signed_by(digest)
                == Set::<int>::empty(),
    {
        let prev = payers.drop_last();
        let last = payers.last();
        let n = prev.len() as int;
        assert(payers[n] == last);
        assert(payers.take(n) =~= prev);
        assert forall|i: int| 0 <= i < prev.len() implies self.multisig.is_signer(
            #[trigger] prev[i],
        ) && !self.multisig.signed_by(digest).contains(self.multisig.slot_of(prev[i])) by {
            assert(prev[i] == payers[i]);
        }
        assert(prev.no_duplicates()) by {
            assert forall|i: int, j: int|
                0 <= i < prev.len() && 0 <= j < prev.len() && i != j implies prev[i] != prev[j] by {
                assert(prev[i] == payers[i] && prev[j] == payers[j]);
            }
        }
        self.lemma_submissions_below_threshold(prev, params, derived, digest);
        self.multisig.lemma_signing_reaches_threshold(payers, digest);
        let mid = self.after_submissions(prev, params, derived, digest);
        let call = mid.submitted_by(last);
        assert(call.multisig.sign_result(last, digest) == Ok::<u8, ErrorCode>(0u8));
        assert(call.new_record(params, derived) == self.new_record(params, derived));
        assert(call.new_record(params, derived).valid());
        assert(self.after_submissions(payers, params, derived, digest) == call.after_mint(
            params,
            derived,
            Some(digest),
        ));
        assert(self.multisig.after_signing(payers, digest) == call.multisig.after_sign(
            last,
            digest,
        ));
        assert forall|i: int| 0 <= i < payers.len() implies (#[trigger] self.after_submissions(
            payers.take(i),
            params,
            derived,
            digest,
        )).submitted_by(payers[i]).mint_result(params, derived, Some(digest)) == Ok::<
            u8,
            ErrorCode,
        >((self.multisig.threshold - self.multisig.signed_by(digest).len() - i - 1) as u8) by {
            if i < n {
                assert(payers.take(i) =~= prev.take(i));
                assert(payers[i] == prev[i]);
            }
        }
    }
}

/// A digest, as a mathematical value.
pub open spec fn digest_view(digest: Option<Digest>) -> Option<Seq<u8>> {
    match digest {
        Some(d) => Some(d@),
        None => None,
    }
}

/// The digest that binds the multisig's approval to an instruction of the
/// given kind with the given parameters: the hash of the tagged,
/// serialized parameters; `None` where they cannot be serialized.
pub open spec fn params_digest(
    kind: AdminInstruction,
    params: MintMasterAgentParamsView,
) -> Option<Seq<u8>> {
    if params.serializable() {
        Some(sha256(instruction_data(kind, params.serialized())))
    } else {
        None
    }
}

/// The digest of an instruction of the given kind with the given
/// parameters; `InvalidInstructionHash` where the parameters cannot be
/// serialized.
pub fn instruction_digest(kind: AdminInstruction, params: &MintMasterAgentParams) -> (r:
    TYieldResult<Digest>)
    ensures
        r.is_ok() == params@.serializable(),
        r matches Ok(digest) ==> Some(digest@) == params_digest(kind, params@),
        r matches Err(e) ==> e == ErrorCode::InvalidInstructionHash,
{
    match params.serialize() {
        Some(payload) => Ok(get_instruction_hash(&get_instruction_data(kind, &payload))),
        None => Err(ErrorCode::InvalidInstructionHash),
    }
}

fn address_found_at(found: &Option<(Address, u8)>, key: &Address) -> (r: bool)
    ensures
        r == found_at(found_view(*found), key@),
{
    match found {
        Some((address, _)) => *address == *key,
        None => false,
    }
}

impl MintMasterAgent {
    /// The accounts of the instruction after the payer, in their order.
    pub fn other_accounts(&self) -> (r: Vec<Address>)
        ensures
            r@ == seq![
                self.multisig_key,
                self.master_agent_key,
                self.mint,
                self.authority,
                self.metadata,
                self.metadata_program,
                self.master_edition,
            ],
    {
        let mut r: Vec<Address> = Vec::new();
        r.push(self.multisig_key);
        r.push(self.master_agent_key);
        r.push(self.mint);
        r.push(self.authority);
        r.push(self.metadata);
        r.push(self.metadata_program);
        r.push(self.master_edition);
        assert(r@ =~= seq![
            self.multisig_key,
            self.master_agent_key,
            self.mint,
            self.authority,
            self.metadata,
            self.metadata_program,
            self.master_edition,
        ]);
        r
    }

    /// Checks that every derived account sits at its expected address;
    /// where they all do, hands out the bump seed of the record's address.
    pub fn check_addresses(&self, derived: &DerivedAddresses) -> (r: Option<u8>)
        ensures
            r.is_some() == self@.addresses_match(derived@),
            r matches Some(bump) ==> derived@.master_agent matches Some((_, found)) && found
                == bump,
    {
        let multisig_ok = match derived.multisig {
            Some((address, bump)) => address == self.multisig_key && bump == self.multisig.bump(),
            None => false,
        };
        if !multisig_ok || !address_found_at(&derived.metadata, &self.metadata)
            || !address_found_at(&derived.master_edition, &self.master_edition) {
            return None;
        }
        match derived.master_agent {
            Some((address, bump)) => if address == self.master_agent_key {
                Some(bump)
            } else {
                None
            },
            None => None,
        }
    }
}

/// Runs the instruction against addresses and a digest that have been
/// computed already.
///
/// Fails with `InvalidBump` where an account is not at its expected
/// address and with `InvalidInstructionHash` where there is no digest;
/// nothing has changed then. Otherwise the payer's signature is counted.
/// While signatures are missing their number is returned and the record
/// is untouched. Once the threshold is reached the record is initialized
/// and validated, and `0` is returned.
pub fn process_mint_master_agent(
    ctx: &mut MintMasterAgent,
    params: &MintMasterAgentParams,
    derived: &DerivedAddresses,
    digest: Option<Digest>,
) -> (r: TYieldResult<u8>)
    ensures
        old(ctx)@.multisig.valid(),
        final(ctx)@.multisig.valid(),
        r == old(ctx)@.mint_result(params@, derived@, digest_view(digest)),
        final(ctx)@ == old(ctx)@.after_mint(params@, derived@, digest_view(digest)),
{
    proof {
        use_type_invariant(&ctx.multisig);
        ctx.multisig.lemma_wf_valid();
    }
    let bump = match ctx.check_addresses(derived) {
        Some(bump) => bump,
        None => {
            return Err(ErrorCode::InvalidBump);
        },
    };
    let digest = match digest {
        Some(digest) => digest,
        None => {
            return Err(ErrorCode::InvalidInstructionHash);
        },
    };
    let payer = ctx.payer;
    let others = ctx.other_accounts();
    let signatures_left = match ctx.multisig.sign_multisig(&payer, others.as_slice(), &digest) {
        Ok(remaining) => remaining,
        Err(e) => {
            return Err(e);
        },
    };
    if signatures_left > 0 {
        return Ok(signatures_left);
    }
    let init_params = MasterAgentInitParams {
        authority: ctx.authority,
        mint: ctx.mint,
        price: params.price,
        w_yield: params.w_yield,
        trading_status: TradingStatus::WhiteList,
        max_supply: params.max_supply,
        auto_relist: true,
        current_time: ctx.current_time,
        bump,
    };
    match ctx.master_agent.initialize(init_params) {
        Ok(()) => {},
        Err(e) => {
            return Err(e);
        },
    }
    match ctx.master_agent.validate() {
        Ok(()) => {},
        Err(e) => {
            return Err(e);
        },
    }
    Ok(0)
}

/// Runs the instruction: counts the payer's signature for these
/// parameters and, once the threshold is reached, creates the master-agent
/// record. A return of `0` tells the caller to go on and mint the token
/// with its metadata; any other return tells how many signatures are
/// missing.
pub fn mint_master_agent(ctx: &mut MintMasterAgent, params: MintMasterAgentParams) -> (r:
    TYieldResult<u8>)
    ensures
        old(ctx)@.multisig.valid(),
        final(ctx)@.multisig.valid(),
        r == old(ctx)@.mint_result(
            params@,
            expected_addresses(old(ctx)@.program_id, old(ctx)@.metadata_program, old(ctx)@.mint),
            params_digest(AdminInstruction::DeployAgent, params@),
        ),
        final(ctx)@ == old(ctx)@.after_mint(
            params@,
            expected_addresses(old(ctx)@.program_id, old(ctx)@.metadata_program, old(ctx)@.mint),
            params_digest(AdminInstruction::DeployAgent, params@),
        ),
{
    let derived = derive_addresses(&ctx.program_id, &ctx.metadata_program, &ctx.mint);
    let digest = match instruction_digest(AdminInstruction::DeployAgent, &params) {
        Ok(digest) => Some(digest),
        Err(_) => None,
    };
    process_mint_master_agent(ctx, &params, &derived, digest)
}

/// What the instruction returns once the token program and the metadata
/// program have been asked to mint the token: `0` where they succeeded,
/// `InvalidInstructionHash` where they did not.
pub fn finish_mint_master_agent(minted: bool) -> (r: TYieldResult<u8>)
    ensures
        r == if minted {
            Ok::<u8, ErrorCode>(0u8)
        } else {
            Err::<u8, ErrorCode>(ErrorCode::InvalidInstructionHash)
        },
{
    if minted {
        Ok(0)
    } else {
        Err(ErrorCode::InvalidInstructionHash)
    }
}

} // verus!
