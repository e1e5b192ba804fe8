//! The replicated state of the ledger.

use vstd::prelude::*;
use crate::sorted_map::SortedMap;
use crate::views::{list_bytes, optional_bytes, optional_hash};

verus! {

/// A payment stream that an account has opened.
#[derive(Clone, Copy, Debug, PartialEq, Eq)]
pub struct StreamState {
    pub recipient: [u8; 32],
    pub amount_per_sec: u64,
    pub start_timestamp: u64,
    pub end_timestamp: u64,
    pub withdrawn: u64,
}

/// Senior units wrapped into a yield-bearing position.
#[derive(Clone, Copy, Debug, PartialEq, Eq)]
pub struct YieldPosition {
    pub token_id: u64,
    pub principal: u64,
    pub maturity_height: u64,
    pub issued_height: u64,
}

/// A redemption that waits in the fair queue.
#[derive(Clone, Copy, Debug, PartialEq, Eq)]
pub struct RedemptionRequest {
    pub address: [u8; 32],
    pub amount: u64,
    pub timestamp: u64,
}

/// What the ledger holds for one address.
#[derive(Clone, Debug, PartialEq, Eq)]
pub struct AccountState {
    /// The number of transactions of this sender that were applied.
    pub nonce: u64,
    pub lusd_balance: u64,
    pub ljun_balance: u64,
    pub lumina_balance: u64,
    /// The commitment of the last confidential transfer.
    pub commitment: Option<[u8; 32]>,
    pub passkey_device_key: Option<Vec<u8>>,
    pub guardians: Vec<[u8; 32]>,
    pub pq_pubkey: Option<Vec<u8>>,
    pub epoch_tx_volume: u64,
    pub last_reward_epoch: u64,
    pub credit_score: u16,
    pub active_streams: Vec<StreamState>,
    pub yield_positions: Vec<YieldPosition>,
}

/// The mathematical value of an [`AccountState`].
pub struct AccountView {
    pub nonce: u64,
    pub lusd_balance: u64,
    pub ljun_balance: u64,
    pub lumina_balance: u64,
    pub commitment: Option<Seq<u8>>,
    pub passkey_device_key: Option<Seq<u8>>,
    pub guardians: Seq<Seq<u8>>,
    pub pq_pubkey: Option<Seq<u8>>,
    pub epoch_tx_volume: u64,
    pub last_reward_epoch: u64,
    pub credit_score: u16,
    pub active_streams: Seq<StreamState>,
    pub yield_positions: Seq<YieldPosition>,
}

impl AccountView {
    /// The account that an address has before anything was done to it.
    pub open spec fn zero() -> AccountView {
        AccountView {
            nonce: 0,
            lusd_balance: 0,
            ljun_balance: 0,
            lumina_balance: 0,
            commitment: None,
            passkey_device_key: None,
            guardians: Seq::empty(),
            pq_pubkey: None,
            epoch_tx_volume: 0,
            last_reward_epoch: 0,
            credit_score: 0,
            active_streams: Seq::empty(),
            yield_positions: Seq::empty(),
        }
    }
}

impl View for AccountState {
    type V = AccountView;

    open spec fn view(&self) -> AccountView {
        AccountView {
            nonce: self.nonce,
            lusd_balance: self.lusd_balance,
            ljun_balance: self.ljun_balance,
            lumina_balance: self.lumina_balance,
            commitment: optional_hash(self.commitment),
            passkey_device_key: optional_bytes(self.passkey_device_key),
            guardians: list_bytes(self.guardians@),
            pq_pubkey: optional_bytes(self.pq_pubkey),
            epoch_tx_volume: self.epoch_tx_volume,
            last_reward_epoch: self.last_reward_epoch,
            credit_score: self.credit_score,
            active_streams: self.active_streams@,
            yield_positions: self.yield_positions@,
        }
    }
}

impl AccountState {
    /// The zero-valued account.
    pub fn new() -> (account: AccountState)
        ensures
            account@ == AccountView::zero(),
    {
        let account = AccountState {
            nonce: 0,
            lusd_balance: 0,
            ljun_balance: 0,
            lumina_balance: 0,
            commitment: None,
            passkey_device_key: None,
            guardians: Vec::new(),
            pq_pubkey: None,
            epoch_tx_volume: 0,
            last_reward_epoch: 0,
            credit_score: 0,
            active_streams: Vec::new(),
            yield_positions: Vec::new(),
        };
        assert(account@.guardians =~= Seq::empty());
        account
    }
}

impl Default for AccountState {
    fn default() -> (account: AccountState)
        ensures
            account@ == AccountView::zero(),
    {
        AccountState::new()
    }
}

/// A validator of the network.
#[derive(Clone, Debug, PartialEq, Eq)]
pub struct ValidatorState {
    pub pubkey: [u8; 32],
    pub stake: u64,
    pub power: u64,
    pub is_green: bool,
    pub energy_proof: Option<Vec<u8>>,
}

/// The mathematical value of a [`ValidatorState`].
pub struct ValidatorView {
    pub pubkey: Seq<u8>,
    pub stake: u64,
    pub power: u64,
    pub is_green: bool,
    pub energy_proof: Option<Seq<u8>>,
}

impl View for ValidatorState {
    type V = ValidatorView;

    open spec fn view(&self) -> ValidatorView {
        ValidatorView {
            pubkey: self.pubkey@,
            stake: self.stake,
            power: self.power,
            is_green: self.is_green,
            energy_proof: optional_bytes(self.energy_proof),
        }
    }
}

/// A custodian of reserves.
#[derive(Clone, Debug, PartialEq, Eq)]
pub struct CustodianState {
    pub pubkey: [u8; 32],
    pub stake: u64,
    pub mpc_pubkeys: Vec<[u8; 32]>,
    pub registered_height: u64,
}

/// The mathematical value of a [`CustodianState`].
pub struct CustodianView {
    pub pubkey: Seq<u8>,
    pub stake: u64,
    pub mpc_pubkeys: Seq<Seq<u8>>,
    pub registered_height: u64,
}

impl View for CustodianState {
    type V = CustodianView;

    open spec fn view(&self) -> CustodianView {
        CustodianView {
            pubkey: self.pubkey@,
            stake: self.stake,
            mpc_pubkeys: list_bytes(self.mpc_pubkeys@),
            registered_height: self.registered_height,
        }
    }
}

/// A real-world asset listed as collateral.
#[derive(Clone, Debug, PartialEq, Eq)]
pub struct RWAListing {
    pub owner: [u8; 32],
    pub attestation_proof: Vec<u8>,
    pub collateral_value: u64,
    pub is_active: bool,
    pub collateralized_amount: u64,
}

/// The mathematical value of an [`RWAListing`].
pub struct RWAListingView {
    pub owner: Seq<u8>,
    pub attestation_proof: Seq<u8>,
    pub collateral_value: u64,
    pub is_active: bool,
    pub collateralized_amount: u64,
}

impl View for RWAListing {
    type V = RWAListingView;

    open spec fn view(&self) -> RWAListingView {
        RWAListingView {
            owner: self.owner@,
            attestation_proof: self.attestation_proof@,
            collateral_value: self.collateral_value,
            is_active: self.is_active,
            collateralized_amount: self.collateralized_amount,
        }
    }
}

/// A registered compliance circuit.
#[derive(Clone, Debug, PartialEq, Eq)]
pub struct ComplianceCircuit {
    pub id: u64,
    pub circuit: Vec<u8>,
}

/// The mathematical value of a [`ComplianceCircuit`].
pub struct ComplianceCircuitView {
    pub id: u64,
    pub circuit: Seq<u8>,
}

impl View for ComplianceCircuit {
    type V = ComplianceCircuitView;

    open spec fn view(&self) -> ComplianceCircuitView {
        ComplianceCircuitView { id: self.id, circuit: self.circuit@ }
    }
}

/// The whole state of the ledger at one height.
///
/// The reserve ratio is held in parts per million, so that every replica
/// computes the same value from the same state.
#[derive(Debug)]
pub struct GlobalState {
    pub accounts: SortedMap<[u8; 32], AccountState>,
    pub total_lusd_supply: u64,
    pub total_ljun_supply: u64,
    pub stabilization_pool_balance: u64,
    /// Reserves per unit of senior supply, in parts per million.
    pub reserve_ratio_ppm: u64,
    /// Prices by ticker, scaled by 1,000,000.
    pub oracle_prices: SortedMap<Vec<u8>, u64>,
    pub validators: Vec<ValidatorState>,
    pub circuit_breaker_active: bool,
    pub fair_redeem_queue: Vec<RedemptionRequest>,
    pub last_rebalance_height: u64,
    pub insurance_fund_balance: u64,
    pub custodians: Vec<CustodianState>,
    pub last_reserve_rotation_height: u64,
    pub compliance_circuits: Vec<ComplianceCircuit>,
    pub rwa_listings: SortedMap<[u8; 32], RWAListing>,
    pub next_yield_token_id: u64,
    /// Health of the protocol, from 0 to 10,000.
    pub health_index: u64,
    pub pending_flash_mints: u64,
    pub current_epoch: u64,
    pub velocity_reward_pool: u64,
}

/// The mathematical value of a [`GlobalState`].
pub struct GlobalStateView {
    pub accounts: Map<Seq<u8>, AccountView>,
    pub total_lusd_supply: u64,
    pub total_ljun_supply: u64,
    pub stabilization_pool_balance: u64,
    pub reserve_ratio_ppm: u64,
    pub oracle_prices: Map<Seq<u8>, u64>,
    pub validators: Seq<ValidatorView>,
    pub circuit_breaker_active: bool,
    pub fair_redeem_queue: Seq<RedemptionRequest>,
    pub last_rebalance_height: u64,
    pub insurance_fund_balance: u64,
    pub custodians: Seq<CustodianView>,
    pub last_reserve_rotation_height: u64,
    pub compliance_circuits: Seq<ComplianceCircuitView>,
    pub rwa_listings: Map<Seq<u8>, RWAListingView>,
    pub next_yield_token_id: u64,
    pub health_index: u64,
    pub pending_flash_mints: u64,
    pub current_epoch: u64,
    pub velocity_reward_pool: u64,
}

/// The accounts of a map, each by its mathematical value.
pub open spec fn account_views(accounts: Map<Seq<u8>, AccountState>) -> Map<Seq<u8>, AccountView> {
    accounts.map_values(|a: AccountState| a@)
}

impl View for GlobalState {
    type V = GlobalStateView;

    open spec fn view(&self) -> GlobalStateView {
        GlobalStateView {
            accounts: account_views(self.accounts@),
            total_lusd_supply: self.total_lusd_supply,
            total_ljun_supply: self.total_ljun_supply,
            stabilization_pool_balance: self.stabilization_pool_balance,
            reserve_ratio_ppm: self.reserve_ratio_ppm,
            oracle_prices: self.oracle_prices@,
            validators: self.validators@.map_values(|v: ValidatorState| v@),
            circuit_breaker_active: self.circuit_breaker_active,
            fair_redeem_queue: self.fair_redeem_queue@,
            last_rebalance_height: self.last_rebalance_height,
            insurance_fund_balance: self.insurance_fund_balance,
            custodians: self.custodians@.map_values(|c: CustodianState| c@),
            last_reserve_rotation_height: self.last_reserve_rotation_height,
            compliance_circuits: self.compliance_circuits@.map_values(|c: ComplianceCircuit| c@),
            rwa_listings: self.rwa_listings@.map_values(|l: RWAListing| l@),
            next_yield_token_id: self.next_yield_token_id,
            health_index: self.health_index,
            pending_flash_mints: self.pending_flash_mints,
            current_epoch: self.current_epoch,
            velocity_reward_pool: self.velocity_reward_pool,
        }
    }
}

impl GlobalStateView {
    /// The state in which nothing has happened yet.
    pub open spec fn empty() -> GlobalStateView {
        GlobalStateView {
            accounts: Map::empty(),
            total_lusd_supply: 0,
            total_ljun_supply: 0,
            stabilization_pool_balance: 0,
            reserve_ratio_ppm: 0,
            oracle_prices: Map::empty(),
            validators: Seq::empty(),
            circuit_breaker_active: false,
            fair_redeem_queue: Seq::empty(),
            last_rebalance_height: 0,
            insurance_fund_balance: 0,
            custodians: Seq::empty(),
            last_reserve_rotation_height: 0,
            compliance_circuits: Seq::empty(),
            rwa_listings: Map::empty(),
            next_yield_token_id: 0,
            health_index: 0,
            pending_flash_mints: 0,
            current_epoch: 0,
            velocity_reward_pool: 0,
        }
    }

    /// The account of `address`: what is stored for it, or the zero-valued
    /// account.
    pub open spec fn account(self, address: Seq<u8>) -> AccountView {
        if self.accounts.contains_key(address) {
            self.accounts[address]
        } else {
            AccountView::zero()
        }
    }
}

impl GlobalState {
    /// The state in which nothing has happened yet.
    pub fn new() -> (state: GlobalState)
        ensures
            state@ == GlobalStateView::empty(),
    {
        let state = GlobalState {
            accounts: SortedMap::new(),
            total_lusd_supply: 0,
            total_ljun_supply: 0,
            stabilization_pool_balance: 0,
            reserve_ratio_ppm: 0,
            oracle_prices: SortedMap::new(),
            validators: Vec::new(),
            circuit_breaker_active: false,
            fair_redeem_queue: Vec::new(),
            last_rebalance_height: 0,
            insurance_fund_balance: 0,
            custodians: Vec::new(),
            last_reserve_rotation_height: 0,
            compliance_circuits: Vec::new(),
            rwa_listings: SortedMap::new(),
            next_yield_token_id: 0,
            health_index: 0,
            pending_flash_mints: 0,
            current_epoch: 0,
            velocity_reward_pool: 0,
        };
        proof {
            assert(state@.accounts =~= Map::empty());
            assert(state@.rwa_listings =~= Map::empty());
            assert(state@.validators =~= Seq::empty());
            assert(state@.custodians =~= Seq::empty());
            assert(state@.compliance_circuits =~= Seq::empty());
        }
        state
    }
}

impl Default for GlobalState {
    fn default() -> (state: GlobalState)
        ensures
            state@ == GlobalStateView::empty(),
    {
        GlobalState::new()
    }
}

} // verus!
