//! Blocks and their wire format.

use vstd::prelude::*;
use crate::hashing::{blake3_digest, hash};
use crate::transaction::{Transaction, TransactionView};
use crate::views::{address_of, lemma_address_of};
use crate::wire::{
    dec_bytes, dec_raw, dec_u64, enc_bytes, enc_u64, holds_at, lemma_holds_split, lemma_holds_whole,
    lemma_read_raw, lemma_read_u64, lemma_read_vec, put_bytes, put_raw, put_u64, read_bytes,
    read_hash, read_u64,
};
use crate::wire_list::{dec_list, enc_list, lemma_read_list, put_list, read_list, values, Wire};

verus! {

/// What a block commits to.
#[derive(Clone, Copy, Debug, PartialEq, Eq)]
pub struct BlockHeader {
    pub height: u64,
    pub prev_hash: [u8; 32],
    pub transactions_root: [u8; 32],
    pub state_root: [u8; 32],
    pub timestamp: u64,
    pub proposer: [u8; 32],
}

/// The signature of a validator on a block.
#[derive(Clone, Debug, PartialEq, Eq)]
pub struct Vote {
    pub validator: [u8; 32],
    pub signature: Vec<u8>,
}

/// The mathematical value of a [`Vote`].
pub struct VoteView {
    pub validator: Seq<u8>,
    pub signature: Seq<u8>,
}

impl View for Vote {
    type V = VoteView;

    open spec fn view(&self) -> VoteView {
        VoteView { validator: self.validator@, signature: self.signature@ }
    }
}

/// A block: a header, the transactions that were applied, in their order,
/// and the votes on the block.
#[derive(Clone, Debug, PartialEq, Eq)]
pub struct Block {
    pub header: BlockHeader,
    pub transactions: Vec<Transaction>,
    pub votes: Vec<Vote>,
}

/// The mathematical value of a [`Block`].
pub struct BlockView {
    pub header: BlockHeader,
    pub transactions: Seq<TransactionView>,
    pub votes: Seq<VoteView>,
}

/// The transactions of a list, each by its mathematical value.
pub open spec fn transaction_views(transactions: Seq<Transaction>) -> Seq<TransactionView> {
    transactions.map_values(|t: Transaction| t@)
}

/// The votes of a list, each by its mathematical value.
pub open spec fn vote_views(votes: Seq<Vote>) -> Seq<VoteView> {
    votes.map_values(|v: Vote| v@)
}

impl View for Block {
    type V = BlockView;

    open spec fn view(&self) -> BlockView {
        BlockView {
            header: self.header,
            transactions: transaction_views(self.transactions@),
            votes: vote_views(self.votes@),
        }
    }
}

/// The encoding of a header: its fields in order.
pub open spec fn enc_header(header: BlockHeader) -> Seq<u8> {
    enc_u64(header.height) + (header.prev_hash@ + (header.transactions_root@ + (header.state_root@
        + (enc_u64(header.timestamp) + header.proposer@))))
}

/// The hash of a block: the digest of the encoding of its header.
pub open spec fn block_hash(header: BlockHeader) -> Seq<u8> {
    blake3_digest(enc_header(header))
}

/// The encoding of a vote.
pub open spec fn enc_vote(vote: VoteView) -> Seq<u8> {
    vote.validator + enc_bytes(vote.signature)
}

/// The encoding of a block: the header, the transactions with their
/// number in front, the votes with their number in front.
pub open spec fn enc_block(block: BlockView) -> Seq<u8> {
    enc_header(block.header) + enc_list::<Transaction>(block.transactions) + enc_list::<Vote>(
        block.votes,
    )
}

/// What is read as a header at `pos`, and where reading goes on.
pub open spec fn dec_header(s: Seq<u8>, pos: int) -> Option<(BlockHeader, int)> {
    match dec_u64(s, pos) {
        Some((height, at1)) => match dec_raw(s, at1, 32) {
            Some((prev_hash, at2)) => match dec_raw(s, at2, 32) {
                Some((transactions_root, at3)) => match dec_raw(s, at3, 32) {
                    Some((state_root, at4)) => match dec_u64(s, at4) {
                        Some((timestamp, at5)) => match dec_raw(s, at5, 32) {
                            Some((proposer, at6)) => Some(
                                (
                                    BlockHeader {
                                        height,
                                        prev_hash: address_of(prev_hash),
                                        transactions_root: address_of(
                                            transactions_root,
                                        ),
                                        state_root: address_of(state_root),
                                        timestamp,
                                        proposer: address_of(proposer),
                                    },
                                    at6,
                                ),
                            ),
                            None => None,
                        },
                        None => None,
                    },
                    None => None,
                },
                None => None,
            },
            None => None,
        },
        None => None,
    }
}

/// What is read as a vote at `pos`.
pub open spec fn dec_vote(s: Seq<u8>, pos: int) -> Option<(VoteView, int)> {
    match dec_raw(s, pos, 32) {
        Some((validator, next)) => match dec_bytes(s, next) {
            Some((signature, end)) => Some((VoteView { validator, signature }, end)),
            None => None,
        },
        None => None,
    }
}

impl Wire for Vote {
    type Value = VoteView;

    open spec fn value(&self) -> VoteView {
        self@
    }

    open spec fn enc(value: VoteView) -> Seq<u8> {
        enc_vote(value)
    }

    open spec fn dec(s: Seq<u8>, pos: int) -> Option<(VoteView, int)> {
        dec_vote(s, pos)
    }

    proof fn lemma_read(s: Seq<u8>, pos: int, item: Vote) {
        lemma_holds_split(s, pos, item@.validator, enc_bytes(item@.signature));
        lemma_read_raw(s, pos, item@.validator);
        lemma_read_vec(s, pos + 32, item.signature);
    }

    fn put(&self, out: &mut Vec<u8>) {
        put_raw(out, self.validator.as_slice());
        put_bytes(out, self.signature.as_slice());
    }

    fn read(input: &[u8], pos: usize) -> (read: Option<(Self, usize)>) {
        match read_hash(input, pos) {
            Some((validator, next)) => match read_bytes(input, next) {
                Some((signature, end)) => Some((Vote { validator, signature }, end)),
                None => None,
            },
            None => None,
        }
    }
}

/// What is read as a block at `pos`, and where reading goes on.
pub open spec fn dec_block(s: Seq<u8>, pos: int) -> Option<(BlockView, int)> {
    match dec_header(s, pos) {
        Some((header, at1)) => match dec_list::<Transaction>(s, at1) {
            Some((transactions, at2)) => match dec_list::<Vote>(s, at2) {
                Some((votes, at3)) => Some((BlockView { header, transactions, votes }, at3)),
                None => None,
            },
            None => None,
        },
        None => None,
    }
}

/// A header that stands at `pos` is read back.
pub proof fn lemma_read_header(s: Seq<u8>, pos: int, header: BlockHeader)
    requires
        holds_at(s, pos, enc_header(header)),
    ensures
        enc_header(header).len() == 144,
        dec_header(s, pos) == Some((header, pos + 144)),
{
    let after_height = header.prev_hash@ + (header.transactions_root@ + (header.state_root@ + (
    enc_u64(header.timestamp) + header.proposer@)));
    let after_prev = header.transactions_root@ + (header.state_root@ + (enc_u64(header.timestamp)
        + header.proposer@));
    let after_tx_root = header.state_root@ + (enc_u64(header.timestamp) + header.proposer@);
    let after_state_root = enc_u64(header.timestamp) + header.proposer@;
    lemma_holds_split(s, pos, enc_u64(header.height), after_height);
    lemma_read_u64(s, pos, header.height);
    lemma_holds_split(s, pos + 8, header.prev_hash@, after_prev);
    lemma_read_raw(s, pos + 8, header.prev_hash@);
    lemma_holds_split(s, pos + 40, header.transactions_root@, after_tx_root);
    lemma_read_raw(s, pos + 40, header.transactions_root@);
    lemma_holds_split(s, pos + 72, header.state_root@, after_state_root);
    lemma_read_raw(s, pos + 72, header.state_root@);
    lemma_holds_split(s, pos + 104, enc_u64(header.timestamp), header.proposer@);
    lemma_read_u64(s, pos + 104, header.timestamp);
    lemma_read_raw(s, pos + 112, header.proposer@);
    lemma_address_of(header.prev_hash);
    lemma_address_of(header.transactions_root);
    lemma_address_of(header.state_root);
    lemma_address_of(header.proposer);
}

/// Decoding the encoding of a block gives the block back.
pub proof fn lemma_block_round_trip(block: Block)
    ensures
        dec_block(enc_block(block@), 0) == Some((block@, enc_block(block@).len() as int)),
{
    let v = block@;
    let s = enc_block(v);
    let listed = enc_list::<Transaction>(v.transactions);
    assert(values(block.transactions@) =~= v.transactions);
    assert(values(block.votes@) =~= v.votes);
    lemma_holds_whole(s);
    lemma_holds_split(s, 0, enc_header(v.header) + listed, enc_list::<Vote>(v.votes));
    lemma_holds_split(s, 0, enc_header(v.header), listed);
    lemma_read_header(s, 0, v.header);
    lemma_read_list::<Transaction>(s, 144, block.transactions);
    lemma_read_list::<Vote>(s, 144 + listed.len() as int, block.votes);
}

/// Appends the encoding of a header.
pub fn put_header(out: &mut Vec<u8>, header: &BlockHeader)
    ensures
        final(out)@ == old(out)@ + enc_header(*header),
{
    put_u64(out, header.height);
    put_raw(out, header.prev_hash.as_slice());
    put_raw(out, header.transactions_root.as_slice());
    put_raw(out, header.state_root.as_slice());
    put_u64(out, header.timestamp);
    put_raw(out, header.proposer.as_slice());
    assert(out@ =~= old(out)@ + enc_header(*header));
}

/// Reads a header at `pos`.
pub fn read_header(input: &[u8], pos: usize) -> (read: Option<(BlockHeader, usize)>)
    ensures
        match read {
            Some((header, next)) => dec_header(input@, pos as int) == Some((header, next as int)),
            None => dec_header(input@, pos as int) is None,
        },
{
    let (height, at1) = match read_u64(input, pos) {
        Some(read) => read,
        None => {
            return None;
        },
    };
    let (prev_hash, at2) = match read_hash(input, at1) {
        Some(read) => read,
        None => {
            return None;
        },
    };
    let (transactions_root, at3) = match read_hash(input, at2) {
        Some(read) => read,
        None => {
            return None;
        },
    };
    let (state_root, at4) = match read_hash(input, at3) {
        Some(read) => read,
        None => {
            return None;
        },
    };
    let (timestamp, at5) = match read_u64(input, at4) {
        Some(read) => read,
        None => {
            return None;
        },
    };
    let (proposer, at6) = match read_hash(input, at5) {
        Some(read) => read,
        None => {
            return None;
        },
    };
    proof {
        lemma_address_of(prev_hash);
        lemma_address_of(transactions_root);
        lemma_address_of(state_root);
        lemma_address_of(proposer);
    }
    Some(
        (BlockHeader { height, prev_hash, transactions_root, state_root, timestamp, proposer }, at6),
    )
}

impl BlockHeader {
    /// The hash of the header.
    pub fn hash(&self) -> (digest: [u8; 32])
        ensures
            digest@ == block_hash(*self),
    {
        let mut out: Vec<u8> = Vec::new();
        put_header(&mut out, self);
        assert(out@ =~= enc_header(*self));
        hash(out.as_slice())
    }
}

impl Block {
    /// The hash of the block: the hash of its header. Neither the
    /// transactions nor the votes enter it.
    pub fn hash(&self) -> (digest: [u8; 32])
        ensures
            digest@ == block_hash(self.header),
    {
        self.header.hash()
    }

    /// The encoding of the block. Decoding it gives the block back.
    pub fn to_bytes(&self) -> (bytes: Vec<u8>)
        ensures
            bytes@ == enc_block(self@),
            dec_block(bytes@, 0) == Some((self@, bytes@.len() as int)),
    {
        let mut out: Vec<u8> = Vec::new();
        put_header(&mut out, &self.header);
        put_list(&mut out, &self.transactions);
        put_list(&mut out, &self.votes);
        proof {
            assert(values(self.transactions@) =~= self@.transactions);
            assert(values(self.votes@) =~= self@.votes);
            assert(out@ =~= enc_block(self@));
            lemma_block_round_trip(*self);
        }
        out
    }

    /// Decodes a block from the start of `bytes`. What follows the block is
    /// not looked at.
    pub fn from_bytes(bytes: &[u8]) -> (block: Option<Block>)
        ensures
            match block {
                Some(b) => dec_block(bytes@, 0) matches Some((v, end)) && v == b@,
                None => dec_block(bytes@, 0) is None,
            },
    {
        let (header, at1) = match read_header(bytes, 0) {
            Some(read) => read,
            None => {
                return None;
            },
        };
        let (transactions, at2) = match read_list::<Transaction>(bytes, at1) {
            Some(read) => read,
            None => {
                return None;
            },
        };
        let (votes, _) = match read_list::<Vote>(bytes, at2) {
            Some(read) => read,
            None => {
                return None;
            },
        };
        proof {
            assert(values(transactions@) =~= transaction_views(transactions@));
            assert(values(votes@) =~= vote_views(votes@));
        }
        Some(Block { header, transactions, votes })
    }
}

} // verus!
