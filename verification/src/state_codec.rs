//! The wire format of the state and of what it holds.

use vstd::prelude::*;
use crate::state::{
    AccountState, AccountView, ComplianceCircuit, ComplianceCircuitView, CustodianState,
    CustodianView, GlobalState, GlobalStateView, RedemptionRequest, RWAListing, RWAListingView,
    StreamState, ValidatorState, ValidatorView, YieldPosition,
};
use crate::views::{address_of, lemma_address_of, list_bytes, optional_bytes, optional_hash};
use crate::wire::{
    dec_bool, dec_bytes, dec_option_bytes, dec_option_hash, dec_raw, dec_u16, dec_u64, enc_bool,
    enc_bytes, enc_option_bytes, enc_option_hash, enc_u16, enc_u64, holds_at, lemma_holds_split,
    lemma_holds_whole, lemma_read_bool, lemma_read_option_hash, lemma_read_option_vec,
    lemma_read_raw, lemma_read_u16, lemma_read_u64, lemma_read_vec, put_bool, put_bytes,
    put_option_bytes, put_option_hash, put_raw, put_u16, put_u64, read_bool, read_bytes, read_hash,
    read_option_bytes, read_option_hash, read_u16, read_u64,
};
use crate::wire_list::{
    dec_hash_list, dec_list, enc_hash_list, enc_list, lemma_read_hash_vec, lemma_read_list,
    put_hash_list, put_list, read_hash_list, read_list, values, Wire,
};
use crate::wire_map::{dec_map, enc_map, put_map, read_map, value_map};

verus! {

/// A 64-bit integer is its eight bytes.
impl Wire for u64 {
    type Value = u64;

    open spec fn value(&self) -> u64 {
        *self
    }

    open spec fn enc(value: u64) -> Seq<u8> {
        enc_u64(value)
    }

    open spec fn dec(s: Seq<u8>, pos: int) -> Option<(u64, int)> {
        dec_u64(s, pos)
    }

    proof fn lemma_read(s: Seq<u8>, pos: int, item: u64) {
        lemma_read_u64(s, pos, item);
    }

    fn put(&self, out: &mut Vec<u8>) {
        put_u64(out, *self);
    }

    fn read(input: &[u8], pos: usize) -> (read: Option<(Self, usize)>) {
        read_u64(input, pos)
    }
}

impl Wire for StreamState {
    type Value = StreamState;

    open spec fn value(&self) -> StreamState {
        *self
    }

    /// The encoding of a payment stream: its fields in order.
    open spec fn enc(value: StreamState) -> Seq<u8> {
        value.recipient@
            + enc_u64(value.amount_per_sec)
            + enc_u64(value.start_timestamp)
            + enc_u64(value.end_timestamp)
            + enc_u64(
            value.withdrawn,
        )
    }

    open spec fn dec(s: Seq<u8>, pos: int) -> Option<(StreamState, int)> {
        match dec_raw(s, pos, 32) {
            Some((recipient, at1)) => match dec_u64(s, at1) {
                Some((amount_per_sec, at2)) => match dec_u64(s, at2) {
                    Some((start_timestamp, at3)) => match dec_u64(s, at3) {
                        Some((end_timestamp, at4)) => match dec_u64(s, at4) {
                            Some((withdrawn, at5)) => Some(
                                (
                                    StreamState {
                                        recipient: address_of(recipient),
                                        amount_per_sec,
                                        start_timestamp,
                                        end_timestamp,
                                        withdrawn,
                                    },
                                    at5,
                                ),
                            ),
                            None => None,
                        },
                        None => None,
                    },
                    None => None,
                },
                None => None,
            },
            None => None,
        }
    }

    proof fn lemma_read(s: Seq<u8>, pos: int, item: StreamState) {
        let through_recipient = item.recipient@;
        let through_amount_per_sec = through_recipient + enc_u64(item.amount_per_sec);
        let through_start_timestamp = through_amount_per_sec + enc_u64(item.start_timestamp);
        let through_end_timestamp = through_start_timestamp + enc_u64(item.end_timestamp);
        lemma_holds_split(s, pos, through_end_timestamp, enc_u64(item.withdrawn));
        lemma_holds_split(s, pos, through_start_timestamp, enc_u64(item.end_timestamp));
        lemma_holds_split(s, pos, through_amount_per_sec, enc_u64(item.start_timestamp));
        lemma_holds_split(s, pos, through_recipient, enc_u64(item.amount_per_sec));
        lemma_read_raw(s, pos, item.recipient@);
        lemma_address_of(item.recipient);
        lemma_read_u64(s, pos + through_recipient.len(), item.amount_per_sec);
        lemma_read_u64(s, pos + through_amount_per_sec.len(), item.start_timestamp);
        lemma_read_u64(s, pos + through_start_timestamp.len(), item.end_timestamp);
        lemma_read_u64(s, pos + through_end_timestamp.len(), item.withdrawn);
    }

    fn put(&self, out: &mut Vec<u8>) {
        put_raw(out, self.recipient.as_slice());
        put_u64(out, self.amount_per_sec);
        put_u64(out, self.start_timestamp);
        put_u64(out, self.end_timestamp);
        put_u64(out, self.withdrawn);
    }

    fn read(input: &[u8], pos: usize) -> (read: Option<(Self, usize)>) {
        let (recipient, at1) = match read_hash(input, pos) {
            Some(read) => read,
            None => {
                return None;
            },
        };
        let (amount_per_sec, at2) = match read_u64(input, at1) {
            Some(read) => read,
            None => {
                return None;
            },
        };
        let (start_timestamp, at3) = match read_u64(input, at2) {
            Some(read) => read,
            None => {
                return None;
            },
        };
        let (end_timestamp, at4) = match read_u64(input, at3) {
            Some(read) => read,
            None => {
                return None;
            },
        };
        let (withdrawn, at5) = match read_u64(input, at4) {
            Some(read) => read,
            None => {
                return None;
            },
        };
        proof {
            lemma_address_of(recipient);
        }
        Some(
            (
                StreamState {
                    recipient,
                    amount_per_sec,
                    start_timestamp,
                    end_timestamp,
                    withdrawn,
                },
                at5,
            ),
        )
    }
}

impl Wire for YieldPosition {
    type Value = YieldPosition;

    open spec fn value(&self) -> YieldPosition {
        *self
    }

    /// The encoding of a yield position: its fields in order.
    open spec fn enc(value: YieldPosition) -> Seq<u8> {
        enc_u64(value.token_id)
            + enc_u64(value.principal)
            + enc_u64(value.maturity_height)
            + enc_u64(
            value.issued_height,
        )
    }

    open spec fn dec(s: Seq<u8>, pos: int) -> Option<(YieldPosition, int)> {
        match dec_u64(s, pos) {
            Some((token_id, at1)) => match dec_u64(s, at1) {
                Some((principal, at2)) => match dec_u64(s, at2) {
                    Some((maturity_height, at3)) => match dec_u64(s, at3) {
                        Some((issued_height, at4)) => Some(
                            (
                                YieldPosition {
                                    token_id,
                                    principal,
                                    maturity_height,
                                    issued_height,
                                },
                                at4,
                            ),
                        ),
                        None => None,
                    },
                    None => None,
                },
                None => None,
            },
            None => None,
        }
    }

    proof fn lemma_read(s: Seq<u8>, pos: int, item: YieldPosition) {
        let through_token_id = enc_u64(item.token_id);
        let through_principal = through_token_id + enc_u64(item.principal);
        let through_maturity_height = through_principal + enc_u64(item.maturity_height);
        lemma_holds_split(s, pos, through_maturity_height, enc_u64(item.issued_height));
        lemma_holds_split(s, pos, through_principal, enc_u64(item.maturity_height));
        lemma_holds_split(s, pos, through_token_id, enc_u64(item.principal));
        lemma_read_u64(s, pos, item.token_id);
        lemma_read_u64(s, pos + through_token_id.len(), item.principal);
        lemma_read_u64(s, pos + through_principal.len(), item.maturity_height);
        lemma_read_u64(s, pos + through_maturity_height.len(), item.issued_height);
    }

    fn put(&self, out: &mut Vec<u8>) {
        put_u64(out, self.token_id);
        put_u64(out, self.principal);
        put_u64(out, self.maturity_height);
        put_u64(out, self.issued_height);
    }

    fn read(input: &[u8], pos: usize) -> (read: Option<(Self, usize)>) {
        let (token_id, at1) = match read_u64(input, pos) {
            Some(read) => read,
            None => {
                return None;
            },
        };
        let (principal, at2) = match read_u64(input, at1) {
            Some(read) => read,
            None => {
                return None;
            },
        };
        let (maturity_height, at3) = match read_u64(input, at2) {
            Some(read) => read,
            None => {
                return None;
            },
        };
        let (issued_height, at4) = match read_u64(input, at3) {
            Some(read) => read,
            None => {
                return None;
            },
        };
        Some((YieldPosition { token_id, principal, maturity_height, issued_height }, at4))
    }
}

impl Wire for RedemptionRequest {
    type Value = RedemptionRequest;

    open spec fn value(&self) -> RedemptionRequest {
        *self
    }

    /// The encoding of a queued redemption: its fields in order.
    open spec fn enc(value: RedemptionRequest) -> Seq<u8> {
        value.address@ + enc_u64(value.amount) + enc_u64(value.timestamp)
    }

    open spec fn dec(s: Seq<u8>, pos: int) -> Option<(RedemptionRequest, int)> {
        match dec_raw(s, pos, 32) {
            Some((address, at1)) => match dec_u64(s, at1) {
                Some((amount, at2)) => match dec_u64(s, at2) {
                    Some((timestamp, at3)) => Some(
                        (RedemptionRequest { address: address_of(address), amount, timestamp }, at3),
                    ),
                    None => None,
                },
                None => None,
            },
            None => None,
        }
    }

    proof fn lemma_read(s: Seq<u8>, pos: int, item: RedemptionRequest) {
        let through_address = item.address@;
        let through_amount = through_address + enc_u64(item.amount);
        lemma_holds_split(s, pos, through_amount, enc_u64(item.timestamp));
        lemma_holds_split(s, pos, through_address, enc_u64(item.amount));
        lemma_read_raw(s, pos, item.address@);
        lemma_address_of(item.address);
        lemma_read_u64(s, pos + through_address.len(), item.amount);
        lemma_read_u64(s, pos + through_amount.len(), item.timestamp);
    }

    fn put(&self, out: &mut Vec<u8>) {
        put_raw(out, self.address.as_slice());
        put_u64(out, self.amount);
        put_u64(out, self.timestamp);
    }

    fn read(input: &[u8], pos: usize) -> (read: Option<(Self, usize)>) {
        let (address, at1) = match read_hash(input, pos) {
            Some(read) => read,
            None => {
                return None;
            },
        };
        let (amount, at2) = match read_u64(input, at1) {
            Some(read) => read,
            None => {
                return None;
            },
        };
        let (timestamp, at3) = match read_u64(input, at2) {
            Some(read) => read,
            None => {
                return None;
            },
        };
        proof {
            lemma_address_of(address);
        }
        Some((RedemptionRequest { address, amount, timestamp }, at3))
    }
}

impl Wire for ValidatorState {
    type Value = ValidatorView;

    open spec fn value(&self) -> ValidatorView {
        self@
    }

    /// The encoding of a validator: its fields in order.
    open spec fn enc(value: ValidatorView) -> Seq<u8> {
        value.pubkey
            + enc_u64(value.stake)
            + enc_u64(value.power)
            + enc_bool(value.is_green)
            + enc_option_bytes(
            value.energy_proof,
        )
    }

    open spec fn dec(s: Seq<u8>, pos: int) -> Option<(ValidatorView, int)> {
        match dec_raw(s, pos, 32) {
            Some((pubkey, at1)) => match dec_u64(s, at1) {
                Some((stake, at2)) => match dec_u64(s, at2) {
                    Some((power, at3)) => match dec_bool(s, at3) {
                        Some((is_green, at4)) => match dec_option_bytes(s, at4) {
                            Some((energy_proof, at5)) => Some(
                                (
                                    ValidatorView { pubkey, stake, power, is_green, energy_proof },
                                    at5,
                                ),
                            ),
                            None => None,
                        },
                        None => None,
                    },
                    None => None,
                },
                None => None,
            },
            None => None,
        }
    }

    proof fn lemma_read(s: Seq<u8>, pos: int, item: ValidatorState) {
        let through_pubkey = item.pubkey@;
        let through_stake = through_pubkey + enc_u64(item.stake);
        let through_power = through_stake + enc_u64(item.power);
        let through_is_green = through_power + enc_bool(item.is_green);
        lemma_holds_split(
            s,
            pos,
            through_is_green,
            enc_option_bytes(optional_bytes(item.energy_proof)),
        );
        lemma_holds_split(s, pos, through_power, enc_bool(item.is_green));
        lemma_holds_split(s, pos, through_stake, enc_u64(item.power));
        lemma_holds_split(s, pos, through_pubkey, enc_u64(item.stake));
        lemma_read_raw(s, pos, item.pubkey@);
        lemma_read_u64(s, pos + through_pubkey.len(), item.stake);
        lemma_read_u64(s, pos + through_stake.len(), item.power);
        lemma_read_bool(s, pos + through_power.len(), item.is_green);
        lemma_read_option_vec(s, pos + through_is_green.len(), item.energy_proof);
    }

    fn put(&self, out: &mut Vec<u8>) {
        put_raw(out, self.pubkey.as_slice());
        put_u64(out, self.stake);
        put_u64(out, self.power);
        put_bool(out, self.is_green);
        put_option_bytes(out, &self.energy_proof);
    }

    fn read(input: &[u8], pos: usize) -> (read: Option<(Self, usize)>) {
        let (pubkey, at1) = match read_hash(input, pos) {
            Some(read) => read,
            None => {
                return None;
            },
        };
        let (stake, at2) = match read_u64(input, at1) {
            Some(read) => read,
            None => {
                return None;
            },
        };
        let (power, at3) = match read_u64(input, at2) {
            Some(read) => read,
            None => {
                return None;
            },
        };
        let (is_green, at4) = match read_bool(input, at3) {
            Some(read) => read,
            None => {
                return None;
            },
        };
        let (energy_proof, at5) = match read_option_bytes(input, at4) {
            Some(read) => read,
            None => {
                return None;
            },
        };
        Some((ValidatorState { pubkey, stake, power, is_green, energy_proof }, at5))
    }
}

impl Wire for CustodianState {
    type Value = CustodianView;

    open spec fn value(&self) -> CustodianView {
        self@
    }

    /// The encoding of a custodian: its fields in order.
    open spec fn enc(value: CustodianView) -> Seq<u8> {
        value.pubkey + enc_u64(value.stake) + enc_hash_list(value.mpc_pubkeys) + enc_u64(
            value.registered_height,
        )
    }

    open spec fn dec(s: Seq<u8>, pos: int) -> Option<(CustodianView, int)> {
        match dec_raw(s, pos, 32) {
            Some((pubkey, at1)) => match dec_u64(s, at1) {
                Some((stake, at2)) => match dec_hash_list(s, at2) {
                    Some((mpc_pubkeys, at3)) => match dec_u64(s, at3) {
                        Some((registered_height, at4)) => Some(
                            (CustodianView { pubkey, stake, mpc_pubkeys, registered_height }, at4),
                        ),
                        None => None,
                    },
                    None => None,
                },
                None => None,
            },
            None => None,
        }
    }

    proof fn lemma_read(s: Seq<u8>, pos: int, item: CustodianState) {
        let through_pubkey = item.pubkey@;
        let through_stake = through_pubkey + enc_u64(item.stake);
        let through_mpc_pubkeys = through_stake + enc_hash_list(list_bytes(item.mpc_pubkeys@));
        lemma_holds_split(s, pos, through_mpc_pubkeys, enc_u64(item.registered_height));
        lemma_holds_split(s, pos, through_stake, enc_hash_list(list_bytes(item.mpc_pubkeys@)));
        lemma_holds_split(s, pos, through_pubkey, enc_u64(item.stake));
        lemma_read_raw(s, pos, item.pubkey@);
        lemma_read_u64(s, pos + through_pubkey.len(), item.stake);
        lemma_read_hash_vec(s, pos + through_stake.len(), item.mpc_pubkeys);
        lemma_read_u64(s, pos + through_mpc_pubkeys.len(), item.registered_height);
    }

    fn put(&self, out: &mut Vec<u8>) {
        put_raw(out, self.pubkey.as_slice());
        put_u64(out, self.stake);
        put_hash_list(out, &self.mpc_pubkeys);
        put_u64(out, self.registered_height);
    }

    fn read(input: &[u8], pos: usize) -> (read: Option<(Self, usize)>) {
        let (pubkey, at1) = match read_hash(input, pos) {
            Some(read) => read,
            None => {
                return None;
            },
        };
        let (stake, at2) = match read_u64(input, at1) {
            Some(read) => read,
            None => {
                return None;
            },
        };
        let (mpc_pubkeys, at3) = match read_hash_list(input, at2) {
            Some(read) => read,
            None => {
                return None;
            },
        };
        let (registered_height, at4) = match read_u64(input, at3) {
            Some(read) => read,
            None => {
                return None;
            },
        };
        Some((CustodianState { pubkey, stake, mpc_pubkeys, registered_height }, at4))
    }
}

impl Wire for ComplianceCircuit {
    type Value = ComplianceCircuitView;

    open spec fn value(&self) -> ComplianceCircuitView {
        self@
    }

    /// The encoding of a compliance circuit: its fields in order.
    open spec fn enc(value: ComplianceCircuitView) -> Seq<u8> {
        enc_u64(value.id) + enc_bytes(value.circuit)
    }

    open spec fn dec(s: Seq<u8>, pos: int) -> Option<(ComplianceCircuitView, int)> {
        match dec_u64(s, pos) {
            Some((id, at1)) => match dec_bytes(s, at1) {
                Some((circuit, at2)) => Some((ComplianceCircuitView { id, circuit }, at2)),
                None => None,
            },
            None => None,
        }
    }

    proof fn lemma_read(s: Seq<u8>, pos: int, item: ComplianceCircuit) {
        let through_id = enc_u64(item.id);
        lemma_holds_split(s, pos, through_id, enc_bytes(item.circuit@));
        lemma_read_u64(s, pos, item.id);
        lemma_read_vec(s, pos + through_id.len(), item.circuit);
    }

    fn put(&self, out: &mut Vec<u8>) {
        put_u64(out, self.id);
        put_bytes(out, self.circuit.as_slice());
    }

    fn read(input: &[u8], pos: usize) -> (read: Option<(Self, usize)>) {
        let (id, at1) = match read_u64(input, pos) {
            Some(read) => read,
            None => {
                return None;
            },
        };
        let (circuit, at2) = match read_bytes(input, at1) {
            Some(read) => read,
            None => {
                return None;
            },
        };
        Some((ComplianceCircuit { id, circuit }, at2))
    }
}

impl Wire for RWAListing {
    type Value = RWAListingView;

    open spec fn value(&self) -> RWAListingView {
        self@
    }

    /// The encoding of a listed asset: its fields in order.
    open spec fn enc(value: RWAListingView) -> Seq<u8> {
        value.owner
            + enc_bytes(value.attestation_proof)
            + enc_u64(value.collateral_value)
            + enc_bool(value.is_active)
            + enc_u64(
            value.collateralized_amount,
        )
    }

    open spec fn dec(s: Seq<u8>, pos: int) -> Option<(RWAListingView, int)> {
        match dec_raw(s, pos, 32) {
            Some((owner, at1)) => match dec_bytes(s, at1) {
                Some((attestation_proof, at2)) => match dec_u64(s, at2) {
                    Some((collateral_value, at3)) => match dec_bool(s, at3) {
                        Some((is_active, at4)) => match dec_u64(s, at4) {
                            Some((collateralized_amount, at5)) => Some(
                                (
                                    RWAListingView {
                                        owner,
                                        attestation_proof,
                                        collateral_value,
                                        is_active,
                                        collateralized_amount,
                                    },
                                    at5,
                                ),
                            ),
                            None => None,
                        },
                        None => None,
                    },
                    None => None,
                },
                None => None,
            },
            None => None,
        }
    }

    proof fn lemma_read(s: Seq<u8>, pos: int, item: RWAListing) {
        let through_owner = item.owner@;
        let through_attestation_proof = through_owner + enc_bytes(item.attestation_proof@);
        let through_collateral_value = through_attestation_proof + enc_u64(item.collateral_value);
        let through_is_active = through_collateral_value + enc_bool(item.is_active);
        lemma_holds_split(s, pos, through_is_active, enc_u64(item.collateralized_amount));
        lemma_holds_split(s, pos, through_collateral_value, enc_bool(item.is_active));
        lemma_holds_split(s, pos, through_attestation_proof, enc_u64(item.collateral_value));
        lemma_holds_split(s, pos, through_owner, enc_bytes(item.attestation_proof@));
        lemma_read_raw(s, pos, item.owner@);
        lemma_read_vec(s, pos + through_owner.len(), item.attestation_proof);
        lemma_read_u64(s, pos + through_attestation_proof.len(), item.collateral_value);
        lemma_read_bool(s, pos + through_collateral_value.len(), item.is_active);
        lemma_read_u64(s, pos + through_is_active.len(), item.collateralized_amount);
    }

    fn put(&self, out: &mut Vec<u8>) {
        put_raw(out, self.owner.as_slice());
        put_bytes(out, self.attestation_proof.as_slice());
        put_u64(out, self.collateral_value);
        put_bool(out, self.is_active);
        put_u64(out, self.collateralized_amount);
    }

    fn read(input: &[u8], pos: usize) -> (read: Option<(Self, usize)>) {
        let (owner, at1) = match read_hash(input, pos) {
            Some(read) => read,
            None => {
                return None;
            },
        };
        let (attestation_proof, at2) = match read_bytes(input, at1) {
            Some(read) => read,
            None => {
                return None;
            },
        };
        let (collateral_value, at3) = match read_u64(input, at2) {
            Some(read) => read,
            None => {
                return None;
            },
        };
        let (is_active, at4) = match read_bool(input, at3) {
            Some(read) => read,
            None => {
                return None;
            },
        };
        let (collateralized_amount, at5) = match read_u64(input, at4) {
            Some(read) => read,
            None => {
                return None;
            },
        };
        Some(
            (
                RWAListing {
                    owner,
                    attestation_proof,
                    collateral_value,
                    is_active,
                    collateralized_amount,
                },
                at5,
            ),
        )
    }
}

/// The encoding of the nonce and the balances of an account.
pub open spec fn enc_balances(account: AccountView) -> Seq<u8> {
    enc_u64(account.nonce) + enc_u64(account.lusd_balance) + enc_u64(account.ljun_balance)
        + enc_u64(account.lumina_balance)
}

/// The encoding of what an account holds for authentication.
pub open spec fn enc_credentials(account: AccountView) -> Seq<u8> {
    enc_option_hash(account.commitment) + enc_option_bytes(account.passkey_device_key)
        + enc_hash_list(account.guardians) + enc_option_bytes(account.pq_pubkey)
}

/// The encoding of the incentive fields, the streams and the positions of
/// an account.
pub open spec fn enc_activity(account: AccountView) -> Seq<u8> {
    enc_u64(account.epoch_tx_volume) + enc_u64(account.last_reward_epoch) + enc_u16(
        account.credit_score,
    ) + enc_list::<StreamState>(account.active_streams) + enc_list::<YieldPosition>(
        account.yield_positions,
    )
}

/// What is read as the nonce and the balances of an account at `pos`.
pub open spec fn dec_balances(s: Seq<u8>, pos: int) -> Option<((u64, u64, u64, u64), int)> {
    match dec_u64(s, pos) {
        Some((nonce, at1)) => match dec_u64(s, at1) {
            Some((lusd, at2)) => match dec_u64(s, at2) {
                Some((ljun, at3)) => match dec_u64(s, at3) {
                    Some((lumina, at4)) => Some(((nonce, lusd, ljun, lumina), at4)),
                    None => None,
                },
                None => None,
            },
            None => None,
        },
        None => None,
    }
}

/// What is read as the credentials of an account at `pos`.
pub open spec fn dec_credentials(s: Seq<u8>, pos: int) -> Option<
    ((Option<Seq<u8>>, Option<Seq<u8>>, Seq<Seq<u8>>, Option<Seq<u8>>), int),
> {
    match dec_option_hash(s, pos) {
        Some((commitment, at1)) => match dec_option_bytes(s, at1) {
            Some((passkey, at2)) => match dec_hash_list(s, at2) {
                Some((guardians, at3)) => match dec_option_bytes(s, at3) {
                    Some((pq, at4)) => Some(((commitment, passkey, guardians, pq), at4)),
                    None => None,
                },
                None => None,
            },
            None => None,
        },
        None => None,
    }
}

/// What is read as the activity of an account at `pos`.
pub open spec fn dec_activity(s: Seq<u8>, pos: int) -> Option<
    ((u64, u64, u16, Seq<StreamState>, Seq<YieldPosition>), int),
> {
    match dec_u64(s, pos) {
        Some((volume, at1)) => match dec_u64(s, at1) {
            Some((epoch, at2)) => match dec_u16(s, at2) {
                Some((score, at3)) => match dec_list::<StreamState>(s, at3) {
                    Some((streams, at4)) => match dec_list::<YieldPosition>(s, at4) {
                        Some((positions, at5)) => Some(
                            ((volume, epoch, score, streams, positions), at5),
                        ),
                        None => None,
                    },
                    None => None,
                },
                None => None,
            },
            None => None,
        },
        None => None,
    }
}

/// The balances of an account, standing at `pos`, are read back.
proof fn lemma_read_balances(s: Seq<u8>, pos: int, item: AccountState)
    requires
        holds_at(s, pos, enc_balances(item@)),
    ensures
        enc_balances(item@).len() == 32,
        dec_balances(s, pos) == Some(
            ((item.nonce, item.lusd_balance, item.ljun_balance, item.lumina_balance), pos + 32),
        ),
{
    let through_nonce = enc_u64(item.nonce);
    let through_lusd = through_nonce + enc_u64(item.lusd_balance);
    let through_ljun = through_lusd + enc_u64(item.ljun_balance);
    lemma_holds_split(s, pos, through_ljun, enc_u64(item.lumina_balance));
    lemma_holds_split(s, pos, through_lusd, enc_u64(item.ljun_balance));
    lemma_holds_split(s, pos, through_nonce, enc_u64(item.lusd_balance));
    lemma_read_u64(s, pos, item.nonce);
    lemma_read_u64(s, pos + 8, item.lusd_balance);
    lemma_read_u64(s, pos + 16, item.ljun_balance);
    lemma_read_u64(s, pos + 24, item.lumina_balance);
}

/// The credentials of an account, standing at `pos`, are read back.
proof fn lemma_read_credentials(s: Seq<u8>, pos: int, item: AccountState)
    requires
        holds_at(s, pos, enc_credentials(item@)),
    ensures
        dec_credentials(s, pos) == Some(
            (
                (
                    item@.commitment,
                    item@.passkey_device_key,
                    item@.guardians,
                    item@.pq_pubkey,
                ),
                pos + enc_credentials(item@).len(),
            ),
        ),
{
    let through_commitment = enc_option_hash(optional_hash(item.commitment));
    let through_passkey = through_commitment + enc_option_bytes(
        optional_bytes(item.passkey_device_key),
    );
    let through_guardians = through_passkey + enc_hash_list(list_bytes(item.guardians@));
    lemma_holds_split(s, pos, through_guardians, enc_option_bytes(optional_bytes(item.pq_pubkey)));
    lemma_holds_split(s, pos, through_passkey, enc_hash_list(list_bytes(item.guardians@)));
    lemma_holds_split(
        s,
        pos,
        through_commitment,
        enc_option_bytes(optional_bytes(item.passkey_device_key)),
    );
    lemma_read_option_hash(s, pos, optional_hash(item.commitment));
    lemma_read_option_vec(s, pos + through_commitment.len(), item.passkey_device_key);
    lemma_read_hash_vec(s, pos + through_passkey.len(), item.guardians);
    lemma_read_option_vec(s, pos + through_guardians.len(), item.pq_pubkey);
}

/// The activity of an account, standing at `pos`, is read back.
proof fn lemma_read_activity(s: Seq<u8>, pos: int, item: AccountState)
    requires
        holds_at(s, pos, enc_activity(item@)),
    ensures
        dec_activity(s, pos) == Some(
            (
                (
                    item.epoch_tx_volume,
                    item.last_reward_epoch,
                    item.credit_score,
                    item@.active_streams,
                    item@.yield_positions,
                ),
                pos + enc_activity(item@).len(),
            ),
        ),
{
    assert(values(item.active_streams@) =~= item.active_streams@);
    assert(values(item.yield_positions@) =~= item.yield_positions@);
    let through_volume = enc_u64(item.epoch_tx_volume);
    let through_epoch = through_volume + enc_u64(item.last_reward_epoch);
    let through_score = through_epoch + enc_u16(item.credit_score);
    let through_streams = through_score + enc_list::<StreamState>(item.active_streams@);
    lemma_holds_split(s, pos, through_streams, enc_list::<YieldPosition>(item.yield_positions@));
    lemma_holds_split(s, pos, through_score, enc_list::<StreamState>(item.active_streams@));
    lemma_holds_split(s, pos, through_epoch, enc_u16(item.credit_score));
    lemma_holds_split(s, pos, through_volume, enc_u64(item.last_reward_epoch));
    lemma_read_u64(s, pos, item.epoch_tx_volume);
    lemma_read_u64(s, pos + 8, item.last_reward_epoch);
    lemma_read_u16(s, pos + 16, item.credit_score);
    lemma_read_list::<StreamState>(s, pos + through_score.len(), item.active_streams);
    lemma_read_list::<YieldPosition>(s, pos + through_streams.len(), item.yield_positions);
}

/// Appends the encoding of the nonce and the balances of an account.
fn put_balances(out: &mut Vec<u8>, account: &AccountState)
    ensures
        final(out)@ == old(out)@ + enc_balances(account@),
{
    put_u64(out, account.nonce);
    put_u64(out, account.lusd_balance);
    put_u64(out, account.ljun_balance);
    put_u64(out, account.lumina_balance);
}

/// Appends the encoding of the credentials of an account.
fn put_credentials(out: &mut Vec<u8>, account: &AccountState)
    ensures
        final(out)@ == old(out)@ + enc_credentials(account@),
{
    put_option_hash(out, &account.commitment);
    put_option_bytes(out, &account.passkey_device_key);
    put_hash_list(out, &account.guardians);
    put_option_bytes(out, &account.pq_pubkey);
}

/// Appends the encoding of the activity of an account.
fn put_activity(out: &mut Vec<u8>, account: &AccountState)
    ensures
        final(out)@ == old(out)@ + enc_activity(account@),
{
    put_u64(out, account.epoch_tx_volume);
    put_u64(out, account.last_reward_epoch);
    put_u16(out, account.credit_score);
    put_list(out, &account.active_streams);
    put_list(out, &account.yield_positions);
    proof {
        assert(values(account.active_streams@) =~= account.active_streams@);
        assert(values(account.yield_positions@) =~= account.yield_positions@);
    }
}

impl Wire for AccountState {
    type Value = AccountView;

    open spec fn value(&self) -> AccountView {
        self@
    }

    /// The encoding of an account: its fields in order, each list with its
    /// length in front.
    open spec fn enc(value: AccountView) -> Seq<u8> {
        enc_balances(value) + enc_credentials(value) + enc_activity(value)
    }

    open spec fn dec(s: Seq<u8>, pos: int) -> Option<(AccountView, int)> {
        match dec_balances(s, pos) {
            Some((balances, at1)) => match dec_credentials(s, at1) {
                Some((credentials, at2)) => match dec_activity(s, at2) {
                    Some((activity, at3)) => Some(
                        (
                            AccountView {
                                nonce: balances.0,
                                lusd_balance: balances.1,
                                ljun_balance: balances.2,
                                lumina_balance: balances.3,
                                commitment: credentials.0,
                                passkey_device_key: credentials.1,
                                guardians: credentials.2,
                                pq_pubkey: credentials.3,
                                epoch_tx_volume: activity.0,
                                last_reward_epoch: activity.1,
                                credit_score: activity.2,
                                active_streams: activity.3,
                                yield_positions: activity.4,
                            },
                            at3,
                        ),
                    ),
                    None => None,
                },
                None => None,
            },
            None => None,
        }
    }

    proof fn lemma_read(s: Seq<u8>, pos: int, item: AccountState) {
        let v = item@;
        lemma_holds_split(s, pos, enc_balances(v) + enc_credentials(v), enc_activity(v));
        lemma_holds_split(s, pos, enc_balances(v), enc_credentials(v));
        lemma_read_balances(s, pos, item);
        lemma_read_credentials(s, pos + 32, item);
        lemma_read_activity(s, pos + 32 + enc_credentials(v).len(), item);
    }

    fn put(&self, out: &mut Vec<u8>) {
        put_balances(out, self);
        put_credentials(out, self);
        put_activity(out, self);
    }

    fn read(input: &[u8], pos: usize) -> (read: Option<(Self, usize)>) {
        let (nonce, a1) = match read_u64(input, pos) {
            Some(read) => read,
            None => {
                return None;
            },
        };
        let (lusd_balance, a2) = match read_u64(input, a1) {
            Some(read) => read,
            None => {
                return None;
            },
        };
        let (ljun_balance, a3) = match read_u64(input, a2) {
            Some(read) => read,
            None => {
                return None;
            },
        };
        let (lumina_balance, a4) = match read_u64(input, a3) {
            Some(read) => read,
            None => {
                return None;
            },
        };
        let (commitment, b1) = match read_option_hash(input, a4) {
            Some(read) => read,
            None => {
                return None;
            },
        };
        let (passkey_device_key, b2) = match read_option_bytes(input, b1) {
            Some(read) => read,
            None => {
                return None;
            },
        };
        let (guardians, b3) = match read_hash_list(input, b2) {
            Some(read) => read,
            None => {
                return None;
            },
        };
        let (pq_pubkey, b4) = match read_option_bytes(input, b3) {
            Some(read) => read,
            None => {
                return None;
            },
        };
        let (epoch_tx_volume, c1) = match read_u64(input, b4) {
            Some(read) => read,
            None => {
                return None;
            },
        };
        let (last_reward_epoch, c2) = match read_u64(input, c1) {
            Some(read) => read,
            None => {
                return None;
            },
        };
        let (credit_score, c3) = match read_u16(input, c2) {
            Some(read) => read,
            None => {
                return None;
            },
        };
        let (active_streams, c4) = match read_list::<StreamState>(input, c3) {
            Some(read) => read,
            None => {
                return None;
            },
        };
        let (yield_positions, c5) = match read_list::<YieldPosition>(input, c4) {
            Some(read) => read,
            None => {
                return None;
            },
        };
        proof {
            assert(values(active_streams@) =~= active_streams@);
            assert(values(yield_positions@) =~= yield_positions@);
            assert(dec_balances(input@, pos as int) is Some);
            assert(dec_credentials(input@, a4 as int) is Some);
            assert(dec_activity(input@, b4 as int) is Some);
        }
        Some(
            (
                AccountState {
                    nonce,
                    lusd_balance,
                    ljun_balance,
                    lumina_balance,
                    commitment,
                    passkey_device_key,
                    guardians,
                    pq_pubkey,
                    epoch_tx_volume,
                    last_reward_epoch,
                    credit_score,
                    active_streams,
                    yield_positions,
                },
                c5,
            ),
        )
    }
}

/// The encoding of an account.
pub open spec fn enc_account(account: AccountView) -> Seq<u8> {
    AccountState::enc(account)
}

/// Encodes an account.
pub fn encode_account(account: &AccountState) -> (bytes: Vec<u8>)
    ensures
        bytes@ == enc_account(account@),
{
    let mut out: Vec<u8> = Vec::new();
    account.put(&mut out);
    assert(out@ =~= enc_account(account@));
    out
}

/// The encoding of the accounts and the totals of a state.
pub open spec fn enc_ledger(s: GlobalStateView) -> Seq<u8> {
    enc_map::<[u8; 32], AccountState>(s.accounts) + enc_u64(s.total_lusd_supply) + enc_u64(
        s.total_ljun_supply,
    ) + enc_u64(s.stabilization_pool_balance) + enc_u64(s.reserve_ratio_ppm)
}

/// The encoding of what a state holds for its stability.
pub open spec fn enc_stability(s: GlobalStateView) -> Seq<u8> {
    enc_map::<Vec<u8>, u64>(s.oracle_prices) + enc_list::<ValidatorState>(s.validators) + enc_bool(
        s.circuit_breaker_active,
    ) + enc_list::<RedemptionRequest>(s.fair_redeem_queue) + enc_u64(s.last_rebalance_height)
        + enc_u64(s.insurance_fund_balance)
}

/// The encoding of the registries and the counters of a state.
pub open spec fn enc_registry(s: GlobalStateView) -> Seq<u8> {
    enc_list::<CustodianState>(s.custodians) + enc_u64(s.last_reserve_rotation_height)
        + enc_list::<ComplianceCircuit>(s.compliance_circuits) + enc_map::<[u8; 32], RWAListing>(
        s.rwa_listings,
    ) + enc_u64(s.next_yield_token_id) + enc_u64(s.health_index) + enc_u64(s.pending_flash_mints)
        + enc_u64(s.current_epoch) + enc_u64(s.velocity_reward_pool)
}

/// The encoding of a state: its fields in order, each list with its length
/// in front, each mapping in ascending order of key.
pub open spec fn enc_state(s: GlobalStateView) -> Seq<u8> {
    enc_ledger(s) + enc_stability(s) + enc_registry(s)
}

/// What is read as the accounts and the totals of a state at `pos`.
pub open spec fn dec_ledger(s: Seq<u8>, pos: int) -> Option<
    ((Map<Seq<u8>, AccountView>, u64, u64, u64, u64), int),
> {
    match dec_map::<[u8; 32], AccountState>(s, pos) {
        Some((accounts, at1)) => match dec_u64(s, at1) {
            Some((lusd, at2)) => match dec_u64(s, at2) {
                Some((ljun, at3)) => match dec_u64(s, at3) {
                    Some((pool, at4)) => match dec_u64(s, at4) {
                        Some((ratio, at5)) => Some(((accounts, lusd, ljun, pool, ratio), at5)),
                        None => None,
                    },
                    None => None,
                },
                None => None,
            },
            None => None,
        },
        None => None,
    }
}

/// What is read as the stability part of a state at `pos`.
pub open spec fn dec_stability(s: Seq<u8>, pos: int) -> Option<
    ((Map<Seq<u8>, u64>, Seq<ValidatorView>, bool, Seq<RedemptionRequest>, u64, u64), int),
> {
    match dec_map::<Vec<u8>, u64>(s, pos) {
        Some((prices, at1)) => match dec_list::<ValidatorState>(s, at1) {
            Some((validators, at2)) => match dec_bool(s, at2) {
                Some((breaker, at3)) => match dec_list::<RedemptionRequest>(s, at3) {
                    Some((queue, at4)) => match dec_u64(s, at4) {
                        Some((rebalanced, at5)) => match dec_u64(s, at5) {
                            Some((insurance, at6)) => Some(
                                ((prices, validators, breaker, queue, rebalanced, insurance), at6),
                            ),
                            None => None,
                        },
                        None => None,
                    },
                    None => None,
                },
                None => None,
            },
            None => None,
        },
        None => None,
    }
}

/// What is read as the counters of a state at `pos`.
pub open spec fn dec_counters(s: Seq<u8>, pos: int) -> Option<((u64, u64, u64, u64, u64), int)> {
    match dec_u64(s, pos) {
        Some((next_id, at1)) => match dec_u64(s, at1) {
            Some((health, at2)) => match dec_u64(s, at2) {
                Some((flash, at3)) => match dec_u64(s, at3) {
                    Some((epoch, at4)) => match dec_u64(s, at4) {
                        Some((rewards, at5)) => Some(((next_id, health, flash, epoch, rewards), at5)),
                        None => None,
                    },
                    None => None,
                },
                None => None,
            },
            None => None,
        },
        None => None,
    }
}

/// What is read as the registries and the counters of a state at `pos`.
pub open spec fn dec_registry(s: Seq<u8>, pos: int) -> Option<
    (
        (
            Seq<CustodianView>,
            u64,
            Seq<ComplianceCircuitView>,
            Map<Seq<u8>, RWAListingView>,
            (u64, u64, u64, u64, u64),
        ),
        int,
    ),
> {
    match dec_list::<CustodianState>(s, pos) {
        Some((custodians, at1)) => match dec_u64(s, at1) {
            Some((rotated, at2)) => match dec_list::<ComplianceCircuit>(s, at2) {
                Some((circuits, at3)) => match dec_map::<[u8; 32], RWAListing>(s, at3) {
                    Some((listings, at4)) => match dec_counters(s, at4) {
                        Some((counters, at5)) => Some(
                            ((custodians, rotated, circuits, listings, counters), at5),
                        ),
                        None => None,
                    },
                    None => None,
                },
                None => None,
            },
            None => None,
        },
        None => None,
    }
}

/// What is read as a state at `pos`, and where reading goes on.
pub open spec fn dec_state(s: Seq<u8>, pos: int) -> Option<(GlobalStateView, int)> {
    match dec_ledger(s, pos) {
        Some((ledger, at1)) => match dec_stability(s, at1) {
            Some((stability, at2)) => match dec_registry(s, at2) {
                Some((registry, at3)) => Some(
                    (
                        GlobalStateView {
                            accounts: ledger.0,
                            total_lusd_supply: ledger.1,
                            total_ljun_supply: ledger.2,
                            stabilization_pool_balance: ledger.3,
                            reserve_ratio_ppm: ledger.4,
                            oracle_prices: stability.0,
                            validators: stability.1,
                            circuit_breaker_active: stability.2,
                            fair_redeem_queue: stability.3,
                            last_rebalance_height: stability.4,
                            insurance_fund_balance: stability.5,
                            custodians: registry.0,
                            last_reserve_rotation_height: registry.1,
                            compliance_circuits: registry.2,
                            rwa_listings: registry.3,
                            next_yield_token_id: registry.4.0,
                            health_index: registry.4.1,
                            pending_flash_mints: registry.4.2,
                            current_epoch: registry.4.3,
                            velocity_reward_pool: registry.4.4,
                        },
                        at3,
                    ),
                ),
                None => None,
            },
            None => None,
        },
        None => None,
    }
}

/// The encoding of the ledger part of a state, wherever it stands, is read
/// back.
pub open spec fn ledger_reads_back(v: GlobalStateView) -> bool {
    forall|s: Seq<u8>, pos: int|
        holds_at(s, pos, enc_ledger(v)) ==> #[trigger] dec_ledger(s, pos) == Some(
            (
                (
                    v.accounts,
                    v.total_lusd_supply,
                    v.total_ljun_supply,
                    v.stabilization_pool_balance,
                    v.reserve_ratio_ppm,
                ),
                pos + enc_ledger(v).len(),
            ),
        )
}

/// The encoding of the stability part of a state, wherever it stands, is
/// read back.
pub open spec fn stability_reads_back(v: GlobalStateView) -> bool {
    forall|s: Seq<u8>, pos: int|
        holds_at(s, pos, enc_stability(v)) ==> #[trigger] dec_stability(s, pos) == Some(
            (
                (
                    v.oracle_prices,
                    v.validators,
                    v.circuit_breaker_active,
                    v.fair_redeem_queue,
                    v.last_rebalance_height,
                    v.insurance_fund_balance,
                ),
                pos + enc_stability(v).len(),
            ),
        )
}

/// The encoding of the registry part of a state, wherever it stands, is
/// read back.
pub open spec fn registry_reads_back(v: GlobalStateView) -> bool {
    forall|s: Seq<u8>, pos: int|
        holds_at(s, pos, enc_registry(v)) ==> #[trigger] dec_registry(s, pos) == Some(
            (
                (
                    v.custodians,
                    v.last_reserve_rotation_height,
                    v.compliance_circuits,
                    v.rwa_listings,
                    (
                        v.next_yield_token_id,
                        v.health_index,
                        v.pending_flash_mints,
                        v.current_epoch,
                        v.velocity_reward_pool,
                    ),
                ),
                pos + enc_registry(v).len(),
            ),
        )
}

/// The encoding of a state, wherever it stands, is read back as the state.
pub open spec fn state_reads_back(v: GlobalStateView) -> bool {
    forall|s: Seq<u8>, pos: int|
        holds_at(s, pos, enc_state(v)) ==> #[trigger] dec_state(s, pos) == Some(
            (v, pos + enc_state(v).len()),
        )
}

/// Appends the encoding of the accounts and the totals of a state.
fn put_ledger(out: &mut Vec<u8>, state: &GlobalState)
    ensures
        final(out)@ == old(out)@ + enc_ledger(state@),
        ledger_reads_back(state@),
{
    let ghost v = state@;
    put_map(out, &state.accounts);
    put_u64(out, state.total_lusd_supply);
    put_u64(out, state.total_ljun_supply);
    put_u64(out, state.stabilization_pool_balance);
    put_u64(out, state.reserve_ratio_ppm);
    proof {
        assert(value_map(state.accounts@) =~= v.accounts);
        let accounts = enc_map::<[u8; 32], AccountState>(v.accounts);
        let through_lusd = accounts + enc_u64(v.total_lusd_supply);
        let through_ljun = through_lusd + enc_u64(v.total_ljun_supply);
        let through_pool = through_ljun + enc_u64(v.stabilization_pool_balance);
        assert forall|s: Seq<u8>, pos: int| holds_at(s, pos, enc_ledger(v)) implies (
        #[trigger] dec_ledger(s, pos)) == Some(
            (
                (
                    v.accounts,
                    v.total_lusd_supply,
                    v.total_ljun_supply,
                    v.stabilization_pool_balance,
                    v.reserve_ratio_ppm,
                ),
                pos + enc_ledger(v).len(),
            ),
        ) by {
            lemma_holds_split(s, pos, through_pool, enc_u64(v.reserve_ratio_ppm));
            lemma_holds_split(s, pos, through_ljun, enc_u64(v.stabilization_pool_balance));
            lemma_holds_split(s, pos, through_lusd, enc_u64(v.total_ljun_supply));
            lemma_holds_split(s, pos, accounts, enc_u64(v.total_lusd_supply));
            assert(dec_map::<[u8; 32], AccountState>(s, pos) == Some(
                (v.accounts, pos + accounts.len()),
            ));
            lemma_read_u64(s, pos + accounts.len(), v.total_lusd_supply);
            lemma_read_u64(s, pos + through_lusd.len(), v.total_ljun_supply);
            lemma_read_u64(s, pos + through_ljun.len(), v.stabilization_pool_balance);
            lemma_read_u64(s, pos + through_pool.len(), v.reserve_ratio_ppm);
        }
    }
}

/// Appends the encoding of what a state holds for its stability.
fn put_stability(out: &mut Vec<u8>, state: &GlobalState)
    ensures
        final(out)@ == old(out)@ + enc_stability(state@),
        stability_reads_back(state@),
{
    let ghost v = state@;
    put_map(out, &state.oracle_prices);
    put_list(out, &state.validators);
    put_bool(out, state.circuit_breaker_active);
    put_list(out, &state.fair_redeem_queue);
    put_u64(out, state.last_rebalance_height);
    put_u64(out, state.insurance_fund_balance);
    proof {
        assert(value_map(state.oracle_prices@) =~= v.oracle_prices);
        assert(values(state.validators@) =~= v.validators);
        assert(values(state.fair_redeem_queue@) =~= v.fair_redeem_queue);
        let prices = enc_map::<Vec<u8>, u64>(v.oracle_prices);
        let through_validators = prices + enc_list::<ValidatorState>(v.validators);
        let through_breaker = through_validators + enc_bool(v.circuit_breaker_active);
        let through_queue = through_breaker + enc_list::<RedemptionRequest>(v.fair_redeem_queue);
        let through_rebalanced = through_queue + enc_u64(v.last_rebalance_height);
        assert(out@ =~= old(out)@ + enc_stability(v));
        assert forall|s: Seq<u8>, pos: int| holds_at(s, pos, enc_stability(v)) implies (
        #[trigger] dec_stability(s, pos)) == Some(
            (
                (
                    v.oracle_prices,
                    v.validators,
                    v.circuit_breaker_active,
                    v.fair_redeem_queue,
                    v.last_rebalance_height,
                    v.insurance_fund_balance,
                ),
                pos + enc_stability(v).len(),
            ),
        ) by {
            lemma_holds_split(s, pos, through_rebalanced, enc_u64(v.insurance_fund_balance));
            lemma_holds_split(s, pos, through_queue, enc_u64(v.last_rebalance_height));
            lemma_holds_split(
                s,
                pos,
                through_breaker,
                enc_list::<RedemptionRequest>(v.fair_redeem_queue),
            );
            lemma_holds_split(s, pos, through_validators, enc_bool(v.circuit_breaker_active));
            lemma_holds_split(s, pos, prices, enc_list::<ValidatorState>(v.validators));
            assert(dec_map::<Vec<u8>, u64>(s, pos) == Some((v.oracle_prices, pos + prices.len())));
            lemma_read_list::<ValidatorState>(s, pos + prices.len(), state.validators);
            lemma_read_bool(s, pos + through_validators.len(), v.circuit_breaker_active);
            lemma_read_list::<RedemptionRequest>(
                s,
                pos + through_breaker.len(),
                state.fair_redeem_queue,
            );
            lemma_read_u64(s, pos + through_queue.len(), v.last_rebalance_height);
            lemma_read_u64(s, pos + through_rebalanced.len(), v.insurance_fund_balance);
        }
    }
}

/// The counters of a state, standing at `pos`, are read back.
proof fn lemma_read_counters(s: Seq<u8>, pos: int, v: GlobalStateView)
    requires
        holds_at(
            s,
            pos,
            enc_u64(v.next_yield_token_id) + enc_u64(v.health_index) + enc_u64(
                v.pending_flash_mints,
            ) + enc_u64(v.current_epoch) + enc_u64(v.velocity_reward_pool),
        ),
    ensures
        (enc_u64(v.next_yield_token_id) + enc_u64(v.health_index) + enc_u64(v.pending_flash_mints)
            + enc_u64(v.current_epoch) + enc_u64(v.velocity_reward_pool)).len() == 40,
        dec_counters(s, pos) == Some(
            (
                (
                    v.next_yield_token_id,
                    v.health_index,
                    v.pending_flash_mints,
                    v.current_epoch,
                    v.velocity_reward_pool,
                ),
                pos + 40,
            ),
        ),
{
    let through_id = enc_u64(v.next_yield_token_id);
    let through_health = through_id + enc_u64(v.health_index);
    let through_flash = through_health + enc_u64(v.pending_flash_mints);
    let through_epoch = through_flash + enc_u64(v.current_epoch);
    lemma_holds_split(s, pos, through_epoch, enc_u64(v.velocity_reward_pool));
    lemma_holds_split(s, pos, through_flash, enc_u64(v.current_epoch));
    lemma_holds_split(s, pos, through_health, enc_u64(v.pending_flash_mints));
    lemma_holds_split(s, pos, through_id, enc_u64(v.health_index));
    lemma_read_u64(s, pos, v.next_yield_token_id);
    lemma_read_u64(s, pos + 8, v.health_index);
    lemma_read_u64(s, pos + 16, v.pending_flash_mints);
    lemma_read_u64(s, pos + 24, v.current_epoch);
    lemma_read_u64(s, pos + 32, v.velocity_reward_pool);
}

/// Appends the encoding of the registries and the counters of a state.
fn put_registry(out: &mut Vec<u8>, state: &GlobalState)
    ensures
        final(out)@ == old(out)@ + enc_registry(state@),
        registry_reads_back(state@),
{
    let ghost v = state@;
    put_list(out, &state.custodians);
    put_u64(out, state.last_reserve_rotation_height);
    put_list(out, &state.compliance_circuits);
    put_map(out, &state.rwa_listings);
    let ghost middle = out@;
    put_u64(out, state.next_yield_token_id);
    put_u64(out, state.health_index);
    put_u64(out, state.pending_flash_mints);
    put_u64(out, state.current_epoch);
    put_u64(out, state.velocity_reward_pool);
    proof {
        assert(values(state.custodians@) =~= v.custodians);
        assert(values(state.compliance_circuits@) =~= v.compliance_circuits);
        assert(value_map(state.rwa_listings@) =~= v.rwa_listings);
        let custodians = enc_list::<CustodianState>(v.custodians);
        let through_rotated = custodians + enc_u64(v.last_reserve_rotation_height);
        let through_circuits = through_rotated + enc_list::<ComplianceCircuit>(
            v.compliance_circuits,
        );
        let through_listings = through_circuits + enc_map::<[u8; 32], RWAListing>(v.rwa_listings);
        let counters = enc_u64(v.next_yield_token_id) + enc_u64(v.health_index) + enc_u64(
            v.pending_flash_mints,
        ) + enc_u64(v.current_epoch) + enc_u64(v.velocity_reward_pool);
        assert(middle =~= old(out)@ + through_listings);
        assert(out@ =~= middle + counters);
        assert(enc_registry(v) =~= through_listings + counters);
        assert(out@ =~= old(out)@ + enc_registry(v));
        assert forall|s: Seq<u8>, pos: int| holds_at(s, pos, enc_registry(v)) implies (
        #[trigger] dec_registry(s, pos)) == Some(
            (
                (
                    v.custodians,
                    v.last_reserve_rotation_height,
                    v.compliance_circuits,
                    v.rwa_listings,
                    (
                        v.next_yield_token_id,
                        v.health_index,
                        v.pending_flash_mints,
                        v.current_epoch,
                        v.velocity_reward_pool,
                    ),
                ),
                pos + enc_registry(v).len(),
            ),
        ) by {
            lemma_holds_split(s, pos, through_listings, counters);
            lemma_holds_split(
                s,
                pos,
                through_circuits,
                enc_map::<[u8; 32], RWAListing>(v.rwa_listings),
            );
            lemma_holds_split(
                s,
                pos,
                through_rotated,
                enc_list::<ComplianceCircuit>(v.compliance_circuits),
            );
            lemma_holds_split(s, pos, custodians, enc_u64(v.last_reserve_rotation_height));
            lemma_read_list::<CustodianState>(s, pos, state.custodians);
            lemma_read_u64(s, pos + custodians.len(), v.last_reserve_rotation_height);
            lemma_read_list::<ComplianceCircuit>(
                s,
                pos + through_rotated.len(),
                state.compliance_circuits,
            );
            assert(dec_map::<[u8; 32], RWAListing>(s, pos + through_circuits.len()) == Some(
                (
                    v.rwa_listings,
                    pos + through_circuits.len() + enc_map::<[u8; 32], RWAListing>(
                        v.rwa_listings,
                    ).len(),
                ),
            ));
            lemma_read_counters(s, pos + through_listings.len(), v);
        }
    }
}

/// Appends the encoding of a state.
pub fn put_state(out: &mut Vec<u8>, state: &GlobalState)
    ensures
        final(out)@ == old(out)@ + enc_state(state@),
        state_reads_back(state@),
{
    let ghost v = state@;
    put_ledger(out, state);
    put_stability(out, state);
    put_registry(out, state);
    proof {
        assert(out@ =~= old(out)@ + enc_state(v));
        assert forall|s: Seq<u8>, pos: int| holds_at(s, pos, enc_state(v)) implies (
        #[trigger] dec_state(s, pos)) == Some((v, pos + enc_state(v).len())) by {
            lemma_holds_split(s, pos, enc_ledger(v) + enc_stability(v), enc_registry(v));
            lemma_holds_split(s, pos, enc_ledger(v), enc_stability(v));
            let at1 = pos + enc_ledger(v).len();
            let at2 = at1 + enc_stability(v).len();
            assert(dec_ledger(s, pos) is Some);
            assert(dec_stability(s, at1) is Some);
            assert(dec_registry(s, at2) is Some);
        }
    }
}

/// Reads a state at `pos`.
pub fn read_state(input: &[u8], pos: usize) -> (read: Option<(GlobalState, usize)>)
    ensures
        match read {
            Some((state, next)) => dec_state(input@, pos as int) == Some((state@, next as int)),
            None => dec_state(input@, pos as int) is None,
        },
{
    let (accounts, a1) = match read_map::<[u8; 32], AccountState>(input, pos) {
        Some(read) => read,
        None => {
            return None;
        },
    };
    let (total_lusd_supply, a2) = match read_u64(input, a1) {
        Some(read) => read,
        None => {
            return None;
        },
    };
    let (total_ljun_supply, a3) = match read_u64(input, a2) {
        Some(read) => read,
        None => {
            return None;
        },
    };
    let (stabilization_pool_balance, a4) = match read_u64(input, a3) {
        Some(read) => read,
        None => {
            return None;
        },
    };
    let (reserve_ratio_ppm, a5) = match read_u64(input, a4) {
        Some(read) => read,
        None => {
            return None;
        },
    };
    let (oracle_prices, b1) = match read_map::<Vec<u8>, u64>(input, a5) {
        Some(read) => read,
        None => {
            return None;
        },
    };
    let (validators, b2) = match read_list::<ValidatorState>(input, b1) {
        Some(read) => read,
        None => {
            return None;
        },
    };
    let (circuit_breaker_active, b3) = match read_bool(input, b2) {
        Some(read) => read,
        None => {
            return None;
        },
    };
    let (fair_redeem_queue, b4) = match read_list::<RedemptionRequest>(input, b3) {
        Some(read) => read,
        None => {
            return None;
        },
    };
    let (last_rebalance_height, b5) = match read_u64(input, b4) {
        Some(read) => read,
        None => {
            return None;
        },
    };
    let (insurance_fund_balance, b6) = match read_u64(input, b5) {
        Some(read) => read,
        None => {
            return None;
        },
    };
    let (custodians, c1) = match read_list::<CustodianState>(input, b6) {
        Some(read) => read,
        None => {
            return None;
        },
    };
    let (last_reserve_rotation_height, c2) = match read_u64(input, c1) {
        Some(read) => read,
        None => {
            return None;
        },
    };
    let (compliance_circuits, c3) = match read_list::<ComplianceCircuit>(input, c2) {
        Some(read) => read,
        None => {
            return None;
        },
    };
    let (rwa_listings, c4) = match read_map::<[u8; 32], RWAListing>(input, c3) {
        Some(read) => read,
        None => {
            return None;
        },
    };
    let (next_yield_token_id, c5) = match read_u64(input, c4) {
        Some(read) => read,
        None => {
            return None;
        },
    };
    let (health_index, c6) = match read_u64(input, c5) {
        Some(read) => read,
        None => {
            return None;
        },
    };
    let (pending_flash_mints, c7) = match read_u64(input, c6) {
        Some(read) => read,
        None => {
            return None;
        },
    };
    let (current_epoch, c8) = match read_u64(input, c7) {
        Some(read) => read,
        None => {
            return None;
        },
    };
    let (velocity_reward_pool, c9) = match read_u64(input, c8) {
        Some(read) => read,
        None => {
            return None;
        },
    };
    let state = GlobalState {
        accounts,
        total_lusd_supply,
        total_ljun_supply,
        stabilization_pool_balance,
        reserve_ratio_ppm,
        oracle_prices,
        validators,
        circuit_breaker_active,
        fair_redeem_queue,
        last_rebalance_height,
        insurance_fund_balance,
        custodians,
        last_reserve_rotation_height,
        compliance_circuits,
        rwa_listings,
        next_yield_token_id,
        health_index,
        pending_flash_mints,
        current_epoch,
        velocity_reward_pool,
    };
    proof {
        let v = state@;
        assert(value_map(state.accounts@) =~= v.accounts);
        assert(value_map(state.oracle_prices@) =~= v.oracle_prices);
        assert(values(state.validators@) =~= v.validators);
        assert(values(state.fair_redeem_queue@) =~= v.fair_redeem_queue);
        assert(values(state.custodians@) =~= v.custodians);
        assert(values(state.compliance_circuits@) =~= v.compliance_circuits);
        assert(value_map(state.rwa_listings@) =~= v.rwa_listings);
        assert(dec_ledger(input@, pos as int) is Some);
        assert(dec_stability(input@, a5 as int) is Some);
        assert(dec_counters(input@, c4 as int) is Some);
        assert(dec_registry(input@, b6 as int) is Some);
    }
    Some((state, c9))
}

impl GlobalState {
    /// The encoding of the state. Decoding it gives the state back.
    pub fn to_bytes(&self) -> (bytes: Vec<u8>)
        ensures
            bytes@ == enc_state(self@),
            dec_state(bytes@, 0) == Some((self@, bytes@.len() as int)),
    {
        let mut out: Vec<u8> = Vec::new();
        put_state(&mut out, self);
        proof {
            assert(out@ =~= enc_state(self@));
            lemma_holds_whole(out@);
        }
        out
    }

    /// Decodes a state from the start of `bytes`. What follows the state is
    /// not looked at.
    pub fn from_bytes(bytes: &[u8]) -> (state: Option<GlobalState>)
        ensures
            match state {
                Some(s) => dec_state(bytes@, 0) matches Some((v, end)) && v == s@,
                None => dec_state(bytes@, 0) is None,
            },
    {
        match read_state(bytes, 0) {
            Some((state, _)) => Some(state),
            None => None,
        }
    }
}

} // verus!
