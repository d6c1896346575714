//! The master-agent record: what is stored for each minted agent.

use crate::error::{ErrorCode, TYieldResult};
use crate::state::address::Address;
use vstd::prelude::*;

verus! {

/// Whether, and to whom, an agent can be traded.
#[derive(Clone, Copy, Debug, PartialEq, Eq, Structural)]
pub enum TradingStatus {
    WhiteList,
    Open,
    Paused,
    Closed,
}

impl Default for TradingStatus {
    /// Trading starts restricted to the white list.
    fn default() -> (r: TradingStatus)
        ensures
            r == TradingStatus::WhiteList,
    {
        TradingStatus::WhiteList
    }
}

/// What a master-agent record holds, as mathematical values.
pub ghost struct MasterAgentView {
    pub authority: Seq<u8>,
    pub mint: Seq<u8>,
    pub price: u64,
    pub w_yield: u64,
    pub max_supply: u64,
    pub trading_status: TradingStatus,
    pub auto_relist: bool,
    pub current_time: i64,
    pub bump: u8,
}

impl MasterAgentView {
    /// The record that has not been initialized: null addresses, zero
    /// numbers, the default trading status, no automatic relisting.
    pub open spec fn blank() -> MasterAgentView {
        MasterAgentView {
            authority: Address::null(),
            mint: Address::null(),
            price: 0,
            w_yield: 0,
            max_supply: 0,
            trading_status: TradingStatus::WhiteList,
            auto_relist: false,
            current_time: 0,
            bump: 0,
        }
    }

    /// The invariant of an initialized record: it names an authority and a
    /// mint. The numeric fields are non-negative by their types, and the
    /// trading status is one of the known variants by its type.
    pub open spec fn valid(self) -> bool {
        &&& self.authority != Address::null()
        &&& self.mint != Address::null()
    }
}

/// The values that a master-agent record is initialized with.
#[derive(Clone, Copy, Debug)]
pub struct MasterAgentInitParams {
    pub authority: Address,
    pub mint: Address,
    pub price: u64,
    pub w_yield: u64,
    pub trading_status: TradingStatus,
    pub max_supply: u64,
    pub auto_relist: bool,
    pub current_time: i64,
    pub bump: u8,
}

impl View for MasterAgentInitParams {
    type V = MasterAgentView;

    /// The record that these values make.
    open spec fn view(&self) -> MasterAgentView {
        MasterAgentView {
            authority: self.authority@,
            mint: self.mint@,
            price: self.price,
            w_yield: self.w_yield,
            max_supply: self.max_supply,
            trading_status: self.trading_status,
            auto_relist: self.auto_relist,
            current_time: self.current_time,
            bump: self.bump,
        }
    }
}

/// The record of one minted master agent.
#[derive(Clone, Copy, Debug)]
pub struct MasterAgent {
    /// Who manages the record.
    pub authority: Address,
    /// The token that stands for the agent.
    pub mint: Address,
    pub price: u64,
    pub w_yield: u64,
    /// The most tokens that may ever be issued for the agent.
    pub max_supply: u64,
    pub trading_status: TradingStatus,
    pub auto_relist: bool,
    /// When the record was created.
    pub current_time: i64,
    /// The bump seed of the record's address.
    pub bump: u8,
}

impl View for MasterAgent {
    type V = MasterAgentView;

    open spec fn view(&self) -> MasterAgentView {
        MasterAgentView {
            authority: self.authority@,
            mint: self.mint@,
            price: self.price,
            w_yield: self.w_yield,
            max_supply: self.max_supply,
            trading_status: self.trading_status,
            auto_relist: self.auto_relist,
            current_time: self.current_time,
            bump: self.bump,
        }
    }
}

impl Default for MasterAgent {
    /// The record that has not been initialized.
    fn default() -> (r: MasterAgent)
        ensures
            r@ == MasterAgentView::blank(),
    {
        MasterAgent {
            authority: Address::default(),
            mint: Address::default(),
            price: 0,
            w_yield: 0,
            max_supply: 0,
            trading_status: TradingStatus::WhiteList,
            auto_relist: false,
            current_time: 0,
            bump: 0,
        }
    }
}

impl MasterAgent {
    /// Whether the record holds anything but the blank state.
    pub fn is_initialized(&self) -> (r: bool)
        ensures
            r == (self@ != MasterAgentView::blank()),
    {
        !self.authority.is_null() || !self.mint.is_null() || self.price != 0 || self.w_yield != 0
            || self.max_supply != 0 || self.trading_status != TradingStatus::WhiteList
            || self.auto_relist || self.current_time != 0 || self.bump != 0
    }

    /// Fills a blank record with the given values, every field at once.
    ///
    /// Fails with `AlreadyInitialized`, and changes nothing, where the
    /// record is not blank.
    pub fn initialize(&mut self, params: MasterAgentInitParams) -> (r: TYieldResult<()>)
        ensures
            old(self)@ != MasterAgentView::blank() ==> {
                &&& r == Err::<(), ErrorCode>(ErrorCode::AlreadyInitialized)
                &&& final(self)@ == old(self)@
            },
            old(self)@ == MasterAgentView::blank() ==> {
                &&& r == Ok::<(), ErrorCode>(())
                &&& final(self)@ == params@
            },
    {
        if self.is_initialized() {
            return Err(ErrorCode::AlreadyInitialized);
        }
        self.authority = params.authority;
        self.mint = params.mint;
        self.price = params.price;
        self.w_yield = params.w_yield;
        self.trading_status = params.trading_status;
        self.max_supply = params.max_supply;
        self.auto_relist = params.auto_relist;
        self.current_time = params.current_time;
        self.bump = params.bump;
        Ok(())
    }

    /// Checks the record's invariant: `InvalidParams` where it is broken.
    pub fn validate(&self) -> (r: TYieldResult<()>)
        ensures
            r == if self@.valid() {
                Ok::<(), ErrorCode>(())
            } else {
                Err::<(), ErrorCode>(ErrorCode::InvalidParams)
            },
    {
        if self.authority.is_null() || self.mint.is_null() {
            return Err(ErrorCode::InvalidParams);
        }
        Ok(())
    }
}

} // verus!
