use tubor_yield::error::ErrorCode;
use tubor_yield::instructions::mint_master_agent::{
    derive_addresses, finish_mint_master_agent, mint_master_agent, process_mint_master_agent,
    DerivedAddresses, MintMasterAgent, MintMasterAgentParams,
};
use tubor_yield::state::address::Address;
use tubor_yield::state::digest::{
    get_instruction_data, get_instruction_hash, AdminInstruction, Digest,
};
use tubor_yield::state::master_agent::{MasterAgent, TradingStatus};
use tubor_yield::state::multisig::Multisig;
use tubor_yield::state::signer_bitmap::SignerBitmap;

const A: u8 = 1;
const B: u8 = 2;
const C: u8 = 3;
const D: u8 = 4;
const PROGRAM: u8 = 42;
const METADATA_PROGRAM: u8 = 43;
const MINT: u8 = 7;
const AUTHORITY: u8 = 9;
const NOW: i64 = 1_700_000_000;

fn addr(byte: u8) -> Address {
    Address { bytes: [byte; 32] }
}

fn params() -> MintMasterAgentParams {
    MintMasterAgentParams {
        name: String::from("Agent1"),
        symbol: String::from("AG"),
        uri: String::from("https://a.b/c"),
        seller_fee_basis_points: 500,
        price: 100,
        w_yield: 7,
        max_supply: 1000,
    }
}

fn digest_of(p: &MintMasterAgentParams) -> Digest {
    let payload = p.serialize().unwrap();
    get_instruction_hash(&get_instruction_data(AdminInstruction::DeployAgent, &payload))
}

fn derived() -> DerivedAddresses {
    derive_addresses(&addr(PROGRAM), &addr(METADATA_PROGRAM), &addr(MINT))
}

fn context(threshold: u8) -> MintMasterAgent {
    let derived = derived();
    let (multisig_key, bump) = derived.multisig.unwrap();
    MintMasterAgent {
        program_id: addr(PROGRAM),
        payer: addr(A),
        multisig_key,
        multisig: Multisig::new(vec![addr(A), addr(B), addr(C)], threshold, bump).unwrap(),
        master_agent_key: derived.master_agent.unwrap().0,
        master_agent: MasterAgent::default(),
        mint: addr(MINT),
        authority: addr(AUTHORITY),
        metadata: derived.metadata.unwrap().0,
        metadata_program: addr(METADATA_PROGRAM),
        master_edition: derived.master_edition.unwrap().0,
        current_time: NOW,
    }
}

fn submit(ctx: &mut MintMasterAgent, payer: u8, p: MintMasterAgentParams) -> Result<u8, ErrorCode> {
    ctx.payer = addr(payer);
    mint_master_agent(ctx, p)
}

#[test]
fn two_of_three_scenario() {
    let mut ctx = context(2);
    assert_eq!(submit(&mut ctx, A, params()), Ok(1));
    assert!(!ctx.master_agent.is_initialized());
    assert_eq!(ctx.multisig.signatures(&digest_of(&params())), SignerBitmap { bits: 0b001 });

    assert_eq!(submit(&mut ctx, B, params()), Ok(0));
    assert!(ctx.multisig.pending().is_empty());
    let record = ctx.master_agent;
    assert_eq!(record.authority, addr(AUTHORITY));
    assert_eq!(record.mint, addr(MINT));
    assert_eq!(record.price, 100);
    assert_eq!(record.w_yield, 7);
    assert_eq!(record.max_supply, 1000);
    assert_eq!(record.trading_status, TradingStatus::WhiteList);
    assert!(record.auto_relist);
    assert_eq!(record.current_time, NOW);
    assert_eq!(record.bump, derived().master_agent.unwrap().1);
    assert_eq!(ctx.master_agent_key, derived().master_agent.unwrap().0);
    assert_eq!(finish_mint_master_agent(true), Ok(0));

    let mut other = params();
    other.uri = String::from("https://a.b/other");
    assert_eq!(submit(&mut ctx, C, other.clone()), Ok(1));
    assert_eq!(ctx.multisig.signatures(&digest_of(&other)), SignerBitmap { bits: 0b100 });
    assert_eq!(ctx.multisig.signatures(&digest_of(&params())).count(), 0);
    assert_eq!(ctx.master_agent.price, 100);
}

#[test]
fn stranger_is_not_authorized_and_changes_nothing() {
    let mut ctx = context(2);
    let before = ctx.multisig.clone();
    assert_eq!(submit(&mut ctx, D, params()), Err(ErrorCode::NotAuthorized));
    assert_eq!(ctx.multisig, before);
    assert!(!ctx.master_agent.is_initialized());
    assert_eq!(submit(&mut ctx, A, params()), Ok(1));
    let before = ctx.multisig.clone();
    assert_eq!(submit(&mut ctx, D, params()), Err(ErrorCode::NotAuthorized));
    assert_eq!(ctx.multisig, before);
    assert!(!ctx.master_agent.is_initialized());
}

#[test]
fn signing_twice_is_rejected_and_changes_nothing() {
    let mut ctx = context(3);
    assert_eq!(submit(&mut ctx, A, params()), Ok(2));
    let before = ctx.multisig.clone();
    assert_eq!(submit(&mut ctx, A, params()), Err(ErrorCode::AlreadySigned));
    assert_eq!(ctx.multisig, before);
    assert_eq!(submit(&mut ctx, B, params()), Ok(1));
    assert!(!ctx.master_agent.is_initialized());
}

#[test]
fn pending_calls_create_nothing_in_any_order() {
    for order in [[A, B], [B, A], [A, C], [C, A], [B, C], [C, B]].iter() {
        let mut ctx = context(3);
        assert_eq!(submit(&mut ctx, order[0], params()), Ok(2));
        assert!(!ctx.master_agent.is_initialized());
        assert_eq!(submit(&mut ctx, order[1], params()), Ok(1));
        assert!(!ctx.master_agent.is_initialized());
    }
}

#[test]
fn threshold_signer_creates_the_record() {
    let mut ctx = context(3);
    assert_eq!(submit(&mut ctx, C, params()), Ok(2));
    assert_eq!(submit(&mut ctx, A, params()), Ok(1));
    assert_eq!(submit(&mut ctx, B, params()), Ok(0));
    assert!(ctx.master_agent.is_initialized());
    assert_eq!(ctx.master_agent.validate(), Ok(()));
    assert_eq!(ctx.master_agent.price, 100);
    assert_eq!(ctx.master_agent.w_yield, 7);
    assert_eq!(ctx.master_agent.max_supply, 1000);
    assert_eq!(ctx.master_agent.trading_status, TradingStatus::WhiteList);
    assert!(ctx.master_agent.auto_relist);
}

#[test]
fn different_params_start_a_fresh_entry() {
    let mut ctx = context(2);
    assert_eq!(submit(&mut ctx, A, params()), Ok(1));
    let mut other = params();
    other.price = 101;
    assert_eq!(submit(&mut ctx, B, other.clone()), Ok(1));
    assert_eq!(ctx.multisig.pending().len(), 2);
    assert!(!ctx.master_agent.is_initialized());
    assert_eq!(submit(&mut ctx, A, other), Ok(0));
    assert_eq!(ctx.master_agent.price, 101);
    assert_eq!(ctx.multisig.signatures(&digest_of(&params())), SignerBitmap { bits: 0b001 });
}

#[test]
fn resubmitting_after_execution_is_already_initialized() {
    let mut ctx = context(2);
    assert_eq!(submit(&mut ctx, A, params()), Ok(1));
    assert_eq!(submit(&mut ctx, B, params()), Ok(0));
    let record = ctx.master_agent;
    assert_eq!(submit(&mut ctx, C, params()), Ok(1));
    assert_eq!(ctx.multisig.signatures(&digest_of(&params())), SignerBitmap { bits: 0b100 });
    assert_eq!(submit(&mut ctx, A, params()), Err(ErrorCode::AlreadyInitialized));
    assert_eq!(ctx.master_agent.price, record.price);
    assert_eq!(ctx.master_agent.current_time, record.current_time);
}

#[test]
fn wrong_multisig_address_is_invalid_bump() {
    let mut ctx = context(2);
    ctx.multisig_key = addr(99);
    let before = ctx.multisig.clone();
    assert_eq!(submit(&mut ctx, A, params()), Err(ErrorCode::InvalidBump));
    assert_eq!(ctx.multisig, before);
}

#[test]
fn wrong_multisig_bump_is_invalid_bump() {
    let mut ctx = context(2);
    let bump = ctx.multisig.bump();
    ctx.multisig =
        Multisig::new(vec![addr(A), addr(B), addr(C)], 2, bump.wrapping_sub(1)).unwrap();
    assert_eq!(submit(&mut ctx, A, params()), Err(ErrorCode::InvalidBump));
    assert!(ctx.multisig.pending().is_empty());
}

#[test]
fn wrong_record_address_is_invalid_bump() {
    let mut ctx = context(2);
    ctx.master_agent_key = addr(99);
    assert_eq!(submit(&mut ctx, A, params()), Err(ErrorCode::InvalidBump));
    assert!(ctx.multisig.pending().is_empty());
}

#[test]
fn wrong_metadata_address_is_invalid_bump() {
    let mut ctx = context(2);
    ctx.metadata = ctx.master_edition;
    assert_eq!(submit(&mut ctx, A, params()), Err(ErrorCode::InvalidBump));
    let mut ctx = context(2);
    ctx.master_edition = ctx.metadata;
    assert_eq!(submit(&mut ctx, A, params()), Err(ErrorCode::InvalidBump));
    assert!(ctx.multisig.pending().is_empty());
}

#[test]
fn another_mint_moves_the_expected_addresses() {
    let mut ctx = context(2);
    ctx.mint = addr(MINT + 1);
    assert_eq!(submit(&mut ctx, A, params()), Err(ErrorCode::InvalidBump));
}

#[test]
fn missing_digest_is_invalid_instruction_hash() {
    let mut ctx = context(2);
    let before = ctx.multisig.clone();
    assert_eq!(
        process_mint_master_agent(&mut ctx, &params(), &derived(), None),
        Err(ErrorCode::InvalidInstructionHash)
    );
    assert_eq!(ctx.multisig, before);
}

#[test]
fn missing_derivation_is_invalid_bump() {
    let mut ctx = context(2);
    let mut none = derived();
    none.master_agent = None;
    assert_eq!(
        process_mint_master_agent(&mut ctx, &params(), &none, Some(digest_of(&params()))),
        Err(ErrorCode::InvalidBump)
    );
    assert!(ctx.multisig.pending().is_empty());
}

#[test]
fn process_agrees_with_the_instruction() {
    let mut one = context(2);
    let mut two = context(2);
    assert_eq!(
        process_mint_master_agent(&mut one, &params(), &derived(), Some(digest_of(&params()))),
        mint_master_agent(&mut two, params())
    );
    assert_eq!(one.multisig, two.multisig);
}

#[test]
fn null_authority_is_invalid_params() {
    let mut ctx = context(1);
    ctx.authority = Address::default();
    assert_eq!(submit(&mut ctx, A, params()), Err(ErrorCode::InvalidParams));
}

#[test]
fn null_mint_is_invalid_params() {
    let derived = derive_addresses(&addr(PROGRAM), &addr(METADATA_PROGRAM), &Address::default());
    let mut ctx = context(1);
    ctx.mint = Address::default();
    ctx.master_agent_key = derived.master_agent.unwrap().0;
    ctx.metadata = derived.metadata.unwrap().0;
    ctx.master_edition = derived.master_edition.unwrap().0;
    assert_eq!(submit(&mut ctx, A, params()), Err(ErrorCode::InvalidParams));
}

#[test]
fn single_signer_executes_at_once() {
    let mut ctx = context(1);
    assert_eq!(submit(&mut ctx, B, params()), Ok(0));
    assert!(ctx.master_agent.is_initialized());
    assert!(ctx.multisig.pending().is_empty());
}

#[test]
fn failed_collaborator_is_invalid_instruction_hash() {
    assert_eq!(finish_mint_master_agent(false), Err(ErrorCode::InvalidInstructionHash));
    assert_eq!(finish_mint_master_agent(true), Ok(0));
}

#[test]
fn other_accounts_follow_the_payer() {
    let ctx = context(2);
    assert_eq!(
        ctx.other_accounts(),
        vec![
            ctx.multisig_key,
            ctx.master_agent_key,
            ctx.mint,
            ctx.authority,
            ctx.metadata,
            ctx.metadata_program,
            ctx.master_edition
        ]
    );
}
