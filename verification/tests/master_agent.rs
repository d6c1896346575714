use tubor_yield::error::ErrorCode;
use tubor_yield::state::address::Address;
use tubor_yield::state::master_agent::{MasterAgent, MasterAgentInitParams, TradingStatus};

fn addr(byte: u8) -> Address {
    Address { bytes: [byte; 32] }
}

fn init_params() -> MasterAgentInitParams {
    MasterAgentInitParams {
        authority: addr(1),
        mint: addr(2),
        price: 100,
        w_yield: 5,
        trading_status: TradingStatus::Open,
        max_supply: 1000,
        auto_relist: true,
        current_time: 1_700_000_000,
        bump: 253,
    }
}

#[test]
fn default_record_is_blank() {
    let record = MasterAgent::default();
    assert!(!record.is_initialized());
    assert!(record.authority.is_null());
    assert!(record.mint.is_null());
    assert_eq!(record.price, 0);
    assert_eq!(record.w_yield, 0);
    assert_eq!(record.max_supply, 0);
    assert_eq!(record.trading_status, TradingStatus::WhiteList);
    assert_eq!(record.trading_status, TradingStatus::default());
    assert!(!record.auto_relist);
    assert_eq!(record.current_time, 0);
    assert_eq!(record.bump, 0);
}

#[test]
fn initialize_sets_every_field() {
    let mut record = MasterAgent::default();
    assert_eq!(record.initialize(init_params()), Ok(()));
    assert_eq!(record.authority, addr(1));
    assert_eq!(record.mint, addr(2));
    assert_eq!(record.price, 100);
    assert_eq!(record.w_yield, 5);
    assert_eq!(record.max_supply, 1000);
    assert_eq!(record.trading_status, TradingStatus::Open);
    assert!(record.auto_relist);
    assert_eq!(record.current_time, 1_700_000_000);
    assert_eq!(record.bump, 253);
    assert!(record.is_initialized());
    assert_eq!(record.validate(), Ok(()));
}

#[test]
fn initialize_twice_is_already_initialized() {
    let mut record = MasterAgent::default();
    assert_eq!(record.initialize(init_params()), Ok(()));
    let mut other = init_params();
    other.price = 7;
    assert_eq!(record.initialize(other), Err(ErrorCode::AlreadyInitialized));
    assert_eq!(record.price, 100);
}

#[test]
fn any_non_default_field_counts_as_initialized() {
    let mut record = MasterAgent::default();
    record.bump = 1;
    assert!(record.is_initialized());
    assert_eq!(record.initialize(init_params()), Err(ErrorCode::AlreadyInitialized));
    let mut record = MasterAgent::default();
    record.auto_relist = true;
    assert!(record.is_initialized());
    let mut record = MasterAgent::default();
    record.trading_status = TradingStatus::Closed;
    assert!(record.is_initialized());
    let mut record = MasterAgent::default();
    record.current_time = -1;
    assert!(record.is_initialized());
    let mut record = MasterAgent::default();
    record.mint.bytes[31] = 1;
    assert!(record.is_initialized());
}

#[test]
fn validate_rejects_null_authority() {
    let mut record = MasterAgent::default();
    let mut params = init_params();
    params.authority = Address::default();
    assert_eq!(record.initialize(params), Ok(()));
    assert_eq!(record.validate(), Err(ErrorCode::InvalidParams));
}

#[test]
fn validate_rejects_null_mint() {
    let mut record = MasterAgent::default();
    let mut params = init_params();
    params.mint = Address::default();
    assert_eq!(record.initialize(params), Ok(()));
    assert_eq!(record.validate(), Err(ErrorCode::InvalidParams));
}

#[test]
fn validate_rejects_blank_record() {
    assert_eq!(MasterAgent::default().validate(), Err(ErrorCode::InvalidParams));
}

#[test]
fn validate_accepts_zero_numbers() {
    let mut record = MasterAgent::default();
    let mut params = init_params();
    params.price = 0;
    params.w_yield = 0;
    params.max_supply = 0;
    assert_eq!(record.initialize(params), Ok(()));
    assert_eq!(record.validate(), Ok(()));
}

#[test]
fn null_address_is_all_zero() {
    assert!(Address::default().is_null());
    assert_eq!(Address::default().bytes, [0u8; 32]);
    let mut near = Address::default();
    near.bytes[17] = 1;
    assert!(!near.is_null());
    assert!(near != Address::default());
    assert!(near == near);
}
