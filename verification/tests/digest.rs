use anchor_lang::solana_program::hash::hash;
use anchor_lang::AnchorSerialize;
use tubor_yield::instructions::mint_master_agent::{instruction_digest, MintMasterAgentParams};
use tubor_yield::math::le_bytes::append_le_bytes;
use tubor_yield::state::digest::{
    get_instruction_data, get_instruction_hash, AdminInstruction, Digest,
};

fn params() -> MintMasterAgentParams {
    MintMasterAgentParams {
        name: String::from("Agent1"),
        symbol: String::from("AG"),
        uri: String::from("https://a.b/c"),
        seller_fee_basis_points: 500,
        price: 100,
        w_yield: 7,
        max_supply: 1000,
    }
}

fn digest_of(p: &MintMasterAgentParams) -> Digest {
    let payload = p.serialize().unwrap();
    get_instruction_hash(&get_instruction_data(AdminInstruction::DeployAgent, &payload))
}

fn hex(bytes: &[u8]) -> String {
    let mut out = String::new();
    for b in bytes {
        out.push_str(&format!("{:02x}", b));
    }
    out
}

#[test]
fn serialize_gives_the_canonical_bytes() {
    let mut expected: Vec<u8> = Vec::new();
    expected.extend_from_slice(&[6, 0, 0, 0]);
    expected.extend_from_slice(b"Agent1");
    expected.extend_from_slice(&[2, 0, 0, 0]);
    expected.extend_from_slice(b"AG");
    expected.extend_from_slice(&[13, 0, 0, 0]);
    expected.extend_from_slice(b"https://a.b/c");
    expected.extend_from_slice(&[0xf4, 0x01]);
    expected.extend_from_slice(&[100, 0, 0, 0, 0, 0, 0, 0]);
    expected.extend_from_slice(&[7, 0, 0, 0, 0, 0, 0, 0]);
    expected.extend_from_slice(&[0xe8, 0x03, 0, 0, 0, 0, 0, 0]);
    assert_eq!(params().serialize(), Some(expected));
}

#[test]
fn serialize_of_empty_strings_and_extremes() {
    let p = MintMasterAgentParams {
        name: String::new(),
        symbol: String::new(),
        uri: String::new(),
        seller_fee_basis_points: u16::MAX,
        price: u64::MAX,
        w_yield: 0,
        max_supply: 0x0102_0304_0506_0708,
    };
    let mut expected: Vec<u8> = vec![0; 12];
    expected.extend_from_slice(&[0xff, 0xff]);
    expected.extend_from_slice(&[0xff; 8]);
    expected.extend_from_slice(&[0; 8]);
    expected.extend_from_slice(&[8, 7, 6, 5, 4, 3, 2, 1]);
    assert_eq!(p.serialize(), Some(expected));
}

#[test]
fn serialize_counts_bytes_not_characters() {
    let mut p = params();
    p.name = String::from("é€");
    let bytes = p.serialize().unwrap();
    assert_eq!(&bytes[..4], &[5, 0, 0, 0]);
    assert_eq!(&bytes[4..9], &[0xc3, 0xa9, 0xe2, 0x82, 0xac]);
    assert_eq!(&bytes[9..13], &[2, 0, 0, 0]);
}

#[test]
fn serialize_agrees_with_the_borsh_encoding() {
    let p = params();
    let tuple = (
        p.name.clone(),
        p.symbol.clone(),
        p.uri.clone(),
        p.seller_fee_basis_points,
        p.price,
        p.w_yield,
        p.max_supply,
    );
    assert_eq!(p.serialize().unwrap(), tuple.try_to_vec().unwrap());
}

#[test]
fn instruction_data_is_tag_then_payload() {
    assert_eq!(AdminInstruction::DeployAgent.tag(), 0);
    let data = get_instruction_data(AdminInstruction::DeployAgent, &vec![9, 8, 7]);
    assert_eq!(data, vec![0, 9, 8, 7]);
    let data = get_instruction_data(AdminInstruction::DeployAgent, &vec![]);
    assert_eq!(data, vec![0]);
}

#[test]
fn instruction_hash_is_sha256() {
    assert_eq!(
        hex(&get_instruction_hash(&vec![]).bytes),
        "e3b0c44298fc1c149afbf4c8996fb92427ae41e4649b934ca495991b7852b855"
    );
    assert_eq!(
        hex(&get_instruction_hash(&b"abc".to_vec()).bytes),
        "ba7816bf8f01cfea414140de5dae2223b00361a396177a9cb410ff61f20015ad"
    );
}

#[test]
fn instruction_hash_agrees_with_the_hasher() {
    let payload = params().serialize().unwrap();
    let mut data = vec![0u8];
    data.extend_from_slice(&payload);
    assert_eq!(digest_of(&params()).bytes, hash(&data).to_bytes());
}

#[test]
fn same_params_same_digest() {
    assert_eq!(digest_of(&params()), digest_of(&params().clone()));
}

#[test]
fn changing_any_field_changes_the_digest() {
    let base = digest_of(&params());
    let mut changed: Vec<MintMasterAgentParams> = Vec::new();
    let mut p = params();
    p.name = String::from("Agent2");
    changed.push(p);
    let mut p = params();
    p.symbol = String::from("AH");
    changed.push(p);
    let mut p = params();
    p.uri = String::from("https://a.b/d");
    changed.push(p);
    let mut p = params();
    p.seller_fee_basis_points = 501;
    changed.push(p);
    let mut p = params();
    p.price = 101;
    changed.push(p);
    let mut p = params();
    p.w_yield = 8;
    changed.push(p);
    let mut p = params();
    p.max_supply = 1001;
    changed.push(p);
    for (i, p) in changed.iter().enumerate() {
        assert_ne!(digest_of(p), base);
        for q in changed.iter().skip(i + 1) {
            assert_ne!(digest_of(p), digest_of(q));
        }
    }
}

#[test]
fn moving_a_character_between_strings_changes_the_bytes() {
    let mut p = params();
    p.name = String::from("Agent1A");
    p.symbol = String::from("G");
    assert_ne!(p.serialize(), params().serialize());
    assert_ne!(digest_of(&p), digest_of(&params()));
}

#[test]
fn swapping_price_and_yield_changes_the_digest() {
    let mut p = params();
    p.price = 7;
    p.w_yield = 100;
    assert_ne!(digest_of(&p), digest_of(&params()));
}

#[test]
fn instruction_digest_hashes_the_tagged_bytes() {
    let got = instruction_digest(AdminInstruction::DeployAgent, &params());
    assert_eq!(got, Ok(digest_of(&params())));
    assert_ne!(got.unwrap().bytes.to_vec(), params().serialize().unwrap());
}

#[test]
fn le_bytes_lowest_byte_first() {
    let mut out: Vec<u8> = vec![9];
    append_le_bytes(&mut out, 0x0102, 2);
    assert_eq!(out, vec![9, 2, 1]);
    append_le_bytes(&mut out, 0x0a0b_0c0d, 4);
    assert_eq!(out, vec![9, 2, 1, 0x0d, 0x0c, 0x0b, 0x0a]);
    let mut out: Vec<u8> = Vec::new();
    append_le_bytes(&mut out, u64::MAX - 1, 8);
    assert_eq!(out, vec![0xfe, 0xff, 0xff, 0xff, 0xff, 0xff, 0xff, 0xff]);
}

#[test]
fn le_bytes_of_other_widths() {
    let mut out: Vec<u8> = Vec::new();
    append_le_bytes(&mut out, 7, 0);
    assert!(out.is_empty());
    append_le_bytes(&mut out, 0x0102_03, 2);
    assert_eq!(out, vec![3, 2]);
    let mut out: Vec<u8> = Vec::new();
    append_le_bytes(&mut out, 1, 10);
    assert_eq!(out, vec![1, 0, 0, 0, 0, 0, 0, 0, 0, 0]);
}
