//! Transactions and their wire format.
//!
//! A transaction is signed over the digest of its signing pre-image: its
//! encoding with the signature left empty.

use vstd::prelude::*;
use crate::byte_order::copy_bytes;
use crate::hashing::{blake3_digest, hash};
use crate::instruction::{InstructionView, StablecoinInstruction};
use crate::instruction_codec::{
    dec_instruction, enc_instruction, lemma_read_instruction, put_instruction, read_instruction,
};
use crate::wire::{
    dec_bytes, dec_raw, dec_u64, enc_bytes, enc_u64, holds_at, lemma_holds_split, lemma_holds_whole,
    lemma_read_raw, lemma_read_u64, lemma_read_vec, put_bytes, put_raw, put_u64, read_bytes,
    read_hash, read_u64,
};
use crate::wire_list::Wire;

verus! {

/// A signed transaction.
#[derive(Clone, Debug, PartialEq, Eq)]
pub struct Transaction {
    /// The public key of the sender, which is its address.
    pub sender: [u8; 32],
    pub nonce: u64,
    pub instruction: StablecoinInstruction,
    pub signature: Vec<u8>,
    pub gas_limit: u64,
    pub gas_price: u64,
}

/// A transaction that has not been signed yet.
#[derive(Clone, Debug, PartialEq, Eq)]
pub struct UnsignedTransaction {
    pub sender: [u8; 32],
    pub nonce: u64,
    pub instruction: StablecoinInstruction,
    pub gas_limit: u64,
    pub gas_price: u64,
}

/// The mathematical value of a [`Transaction`].
pub struct TransactionView {
    pub sender: Seq<u8>,
    pub nonce: u64,
    pub instruction: InstructionView,
    pub signature: Seq<u8>,
    pub gas_limit: u64,
    pub gas_price: u64,
}

impl View for Transaction {
    type V = TransactionView;

    open spec fn view(&self) -> TransactionView {
        TransactionView {
            sender: self.sender@,
            nonce: self.nonce,
            instruction: self.instruction@,
            signature: self.signature@,
            gas_limit: self.gas_limit,
            gas_price: self.gas_price,
        }
    }
}

impl View for UnsignedTransaction {
    type V = TransactionView;

    /// An unsigned transaction is the transaction with an empty signature.
    open spec fn view(&self) -> TransactionView {
        TransactionView {
            sender: self.sender@,
            nonce: self.nonce,
            instruction: self.instruction@,
            signature: Seq::empty(),
            gas_limit: self.gas_limit,
            gas_price: self.gas_price,
        }
    }
}

/// The encoding of a transaction: sender, nonce, instruction, signature,
/// gas limit and gas price.
pub open spec fn enc_transaction(tx: TransactionView) -> Seq<u8> {
    tx.sender + (enc_u64(tx.nonce) + (enc_instruction(tx.instruction) + (enc_bytes(tx.signature) + (
    enc_u64(tx.gas_limit) + enc_u64(tx.gas_price)))))
}

/// What is read as a transaction at `pos`, and where reading goes on.
pub open spec fn dec_transaction(s: Seq<u8>, pos: int) -> Option<(TransactionView, int)> {
    match dec_raw(s, pos, 32) {
        Some((sender, at1)) => match dec_u64(s, at1) {
            Some((nonce, at2)) => match dec_instruction(s, at2) {
                Some((instruction, at3)) => match dec_bytes(s, at3) {
                    Some((signature, at4)) => match dec_u64(s, at4) {
                        Some((gas_limit, at5)) => match dec_u64(s, at5) {
                            Some((gas_price, at6)) => Some(
                                (
                                    TransactionView {
                                        sender,
                                        nonce,
                                        instruction,
                                        signature,
                                        gas_limit,
                                        gas_price,
                                    },
                                    at6,
                                ),
                            ),
                            None => None,
                        },
                        None => None,
                    },
                    None => None,
                },
                None => None,
            },
            None => None,
        },
        None => None,
    }
}

/// The signing pre-image: the encoding of the transaction with the
/// signature left empty.
pub open spec fn signing_preimage(tx: TransactionView) -> Seq<u8> {
    enc_transaction(TransactionView { signature: Seq::empty(), ..tx })
}

/// The message that the signature binds: the digest of the signing
/// pre-image.
pub open spec fn signing_message(tx: TransactionView) -> Seq<u8> {
    blake3_digest(signing_preimage(tx))
}

/// The identifier of a transaction: the digest of its encoding.
pub open spec fn transaction_id(tx: TransactionView) -> Seq<u8> {
    blake3_digest(enc_transaction(tx))
}

/// A transaction that stands at `pos` is read back.
pub proof fn lemma_read_transaction(s: Seq<u8>, pos: int, tx: Transaction)
    requires
        holds_at(s, pos, enc_transaction(tx@)),
    ensures
        dec_transaction(s, pos) == Some((tx@, pos + enc_transaction(tx@).len())),
{
    let v = tx@;
    let after_sender = enc_u64(v.nonce) + (enc_instruction(v.instruction) + (enc_bytes(v.signature)
        + (enc_u64(v.gas_limit) + enc_u64(v.gas_price))));
    let after_nonce = enc_instruction(v.instruction) + (enc_bytes(v.signature) + (enc_u64(
        v.gas_limit,
    ) + enc_u64(v.gas_price)));
    let after_instruction = enc_bytes(v.signature) + (enc_u64(v.gas_limit) + enc_u64(v.gas_price));
    let after_signature = enc_u64(v.gas_limit) + enc_u64(v.gas_price);
    lemma_holds_split(s, pos, v.sender, after_sender);
    lemma_read_raw(s, pos, v.sender);
    let at1 = pos + 32;
    lemma_holds_split(s, at1, enc_u64(v.nonce), after_nonce);
    lemma_read_u64(s, at1, v.nonce);
    let at2 = at1 + 8;
    lemma_holds_split(s, at2, enc_instruction(v.instruction), after_instruction);
    lemma_read_instruction(s, at2, tx.instruction);
    let at3 = at2 + enc_instruction(v.instruction).len();
    lemma_holds_split(s, at3, enc_bytes(v.signature), after_signature);
    lemma_read_vec(s, at3, tx.signature);
    let at4 = at3 + 8 + v.signature.len();
    lemma_holds_split(s, at4, enc_u64(v.gas_limit), enc_u64(v.gas_price));
    lemma_read_u64(s, at4, v.gas_limit);
    lemma_read_u64(s, at4 + 8, v.gas_price);
}

/// Decoding the encoding of a transaction gives the transaction back.
pub proof fn lemma_transaction_round_trip(tx: Transaction)
    ensures
        dec_transaction(enc_transaction(tx@), 0) == Some(
            (tx@, enc_transaction(tx@).len() as int),
        ),
{
    lemma_holds_whole(enc_transaction(tx@));
    lemma_read_transaction(enc_transaction(tx@), 0, tx);
}

/// Appends the encoding of a transaction with the given signature.
fn put_fields(
    out: &mut Vec<u8>,
    sender: &[u8; 32],
    nonce: u64,
    instruction: &StablecoinInstruction,
    signature: &[u8],
    gas_limit: u64,
    gas_price: u64,
)
    ensures
        final(out)@ == old(out)@ + enc_transaction(
            TransactionView {
                sender: sender@,
                nonce,
                instruction: instruction@,
                signature: signature@,
                gas_limit,
                gas_price,
            },
        ),
{
    put_raw(out, sender.as_slice());
    put_u64(out, nonce);
    put_instruction(out, instruction);
    put_bytes(out, signature);
    put_u64(out, gas_limit);
    put_u64(out, gas_price);
    assert(out@ =~= old(out)@ + enc_transaction(
        TransactionView {
            sender: sender@,
            nonce,
            instruction: instruction@,
            signature: signature@,
            gas_limit,
            gas_price,
        },
    ));
}

/// Appends the encoding of a transaction.
pub fn put_transaction(out: &mut Vec<u8>, tx: &Transaction)
    ensures
        final(out)@ == old(out)@ + enc_transaction(tx@),
{
    put_fields(
        out,
        &tx.sender,
        tx.nonce,
        &tx.instruction,
        tx.signature.as_slice(),
        tx.gas_limit,
        tx.gas_price,
    );
}

/// Reads a transaction at `pos`.
pub fn read_transaction(input: &[u8], pos: usize) -> (read: Option<(Transaction, usize)>)
    ensures
        match read {
            Some((tx, next)) => dec_transaction(input@, pos as int) == Some((tx@, next as int)),
            None => dec_transaction(input@, pos as int) is None,
        },
{
    let (sender, at1) = match read_hash(input, pos) {
        Some(read) => read,
        None => {
            return None;
        },
    };
    let (nonce, at2) = match read_u64(input, at1) {
        Some(read) => read,
        None => {
            return None;
        },
    };
    let (instruction, at3) = match read_instruction(input, at2) {
        Some(read) => read,
        None => {
            return None;
        },
    };
    let (signature, at4) = match read_bytes(input, at3) {
        Some(read) => read,
        None => {
            return None;
        },
    };
    let (gas_limit, at5) = match read_u64(input, at4) {
        Some(read) => read,
        None => {
            return None;
        },
    };
    let (gas_price, at6) = match read_u64(input, at5) {
        Some(read) => read,
        None => {
            return None;
        },
    };
    Some((Transaction { sender, nonce, instruction, signature, gas_limit, gas_price }, at6))
}

/// The digest of a byte string, as a vector.
fn digest_vec(bytes: &Vec<u8>) -> (digest: Vec<u8>)
    ensures
        digest@ == blake3_digest(bytes@),
{
    let digest = hash(bytes.as_slice());
    copy_bytes(digest.as_slice())
}

impl Transaction {
    /// The encoding of the transaction. Decoding it gives the transaction
    /// back.
    pub fn to_bytes(&self) -> (bytes: Vec<u8>)
        ensures
            bytes@ == enc_transaction(self@),
            dec_transaction(bytes@, 0) == Some((self@, bytes@.len() as int)),
    {
        let mut out: Vec<u8> = Vec::new();
        put_transaction(&mut out, self);
        proof {
            assert(out@ =~= enc_transaction(self@));
            lemma_transaction_round_trip(*self);
        }
        out
    }

    /// Decodes a transaction from the start of `bytes`. What follows the
    /// transaction is not looked at.
    pub fn from_bytes(bytes: &[u8]) -> (tx: Option<Transaction>)
        ensures
            match tx {
                Some(t) => dec_transaction(bytes@, 0) matches Some((v, end)) && v == t@,
                None => dec_transaction(bytes@, 0) is None,
            },
    {
        match read_transaction(bytes, 0) {
            Some((tx, _)) => Some(tx),
            None => None,
        }
    }

    /// The signing pre-image: the encoding with the signature left empty.
    pub fn signable_bytes(&self) -> (bytes: Vec<u8>)
        ensures
            bytes@ == signing_preimage(self@),
    {
        let mut out: Vec<u8> = Vec::new();
        let none: Vec<u8> = Vec::new();
        put_fields(
            &mut out,
            &self.sender,
            self.nonce,
            &self.instruction,
            none.as_slice(),
            self.gas_limit,
            self.gas_price,
        );
        assert(none@ =~= Seq::<u8>::empty());
        assert(out@ =~= signing_preimage(self@));
        out
    }

    /// The 32 bytes that the sender signs: the digest of the signing
    /// pre-image.
    pub fn signing_bytes(&self) -> (bytes: Vec<u8>)
        ensures
            bytes@ == signing_message(self@),
    {
        let preimage = self.signable_bytes();
        digest_vec(&preimage)
    }

    /// The identifier of the transaction.
    pub fn id(&self) -> (id: [u8; 32])
        ensures
            id@ == transaction_id(self@),
    {
        let bytes = self.to_bytes();
        hash(bytes.as_slice())
    }
}

impl UnsignedTransaction {
    /// The signing pre-image.
    pub fn signable_bytes(&self) -> (bytes: Vec<u8>)
        ensures
            bytes@ == signing_preimage(self@),
            bytes@ == enc_transaction(self@),
    {
        let mut out: Vec<u8> = Vec::new();
        let none: Vec<u8> = Vec::new();
        put_fields(
            &mut out,
            &self.sender,
            self.nonce,
            &self.instruction,
            none.as_slice(),
            self.gas_limit,
            self.gas_price,
        );
        assert(none@ =~= Seq::<u8>::empty());
        assert(out@ =~= enc_transaction(self@));
        out
    }

    /// The 32 bytes to sign: the digest of the signing pre-image.
    pub fn signing_bytes(&self) -> (bytes: Vec<u8>)
        ensures
            bytes@ == signing_message(self@),
    {
        let preimage = self.signable_bytes();
        digest_vec(&preimage)
    }

    /// The transaction with its signature.
    pub fn into_signed(self, signature: Vec<u8>) -> (tx: Transaction)
        ensures
            tx@ == (TransactionView { signature: signature@, ..self@ }),
            signing_message(tx@) == signing_message(self@),
    {
        Transaction {
            sender: self.sender,
            nonce: self.nonce,
            instruction: self.instruction,
            signature,
            gas_limit: self.gas_limit,
            gas_price: self.gas_price,
        }
    }
}

impl Wire for Transaction {
    type Value = TransactionView;

    open spec fn value(&self) -> TransactionView {
        self@
    }

    open spec fn enc(value: TransactionView) -> Seq<u8> {
        enc_transaction(value)
    }

    open spec fn dec(s: Seq<u8>, pos: int) -> Option<(TransactionView, int)> {
        dec_transaction(s, pos)
    }

    proof fn lemma_read(s: Seq<u8>, pos: int, item: Transaction) {
        lemma_read_transaction(s, pos, item);
    }

    fn put(&self, out: &mut Vec<u8>) {
        put_transaction(out, self);
    }

    fn read(input: &[u8], pos: usize) -> (read: Option<(Self, usize)>) {
        read_transaction(input, pos)
    }
}

} // verus!
