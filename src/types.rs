//! Ledger data: outputs, inputs, transactions, headers and blocks, with their
//! canonical encodings and hashes.
use vstd::prelude::*;
use crate::crypto::{PublicKey, Signature};
use crate::encoding::{
    concat_enc, enc_bytes, lemma_concat_enc_step, lemma_le_u128_injective, lemma_le_u256_injective,
    lemma_le_u64_injective, le_i64, le_u128, le_u256, le_u64, push_bytes,
    push_i64, push_u128, push_u256, push_u64,
};
use crate::hashing::digest_hash;
use crate::merkle::MerkleRoot;
use crate::u256::U256;

verus! {

/// What an output holds: an amount, a unique id and its owner's key bytes.
pub struct OutputModel {
    pub value: u64,
    pub unique_id: u128,
    pub pubkey: Seq<u8>,
}

/// What an input holds: the hash of the output it spends and the signature bytes.
pub struct InputModel {
    pub prev: crate::hashing::Hash,
    pub signature: Seq<u8>,
}

/// What a transaction holds.
pub struct TxModel {
    pub inputs: Seq<InputModel>,
    pub outputs: Seq<OutputModel>,
}

/// What a block holds.
pub struct BlockModel {
    pub header: BlockHeader,
    pub transactions: Seq<TxModel>,
}

/// A spendable amount owned by a public key.
#[derive(Debug)]
pub struct TransactionOutput {
    pub value: u64,
    /// Makes two outputs of the same amount and owner distinct.
    pub unique_id: u128,
    pub pubkey: PublicKey,
}

/// A reference to an earlier output, with the proof that its owner spends it.
#[derive(Debug)]
pub struct TransactionInput {
    pub prev_transaction_output_hash: crate::hashing::Hash,
    pub signature: Signature,
}

/// Inputs spent and outputs created.
#[derive(Debug)]
pub struct Transaction {
    pub inputs: Vec<TransactionInput>,
    pub outputs: Vec<TransactionOutput>,
}

/// The hashed summary of a block.
#[derive(Clone, Copy, Debug, PartialEq, Eq, Structural)]
pub struct BlockHeader {
    /// Milliseconds since the Unix epoch.
    pub timestamp: i64,
    /// Varied by miners to search for a hash under the target.
    pub nonce: u64,
    pub prev_block_hash: crate::hashing::Hash,
    pub merkle_root: MerkleRoot,
    /// The largest acceptable header hash.
    pub target: U256,
}

/// A header with its transactions.
#[derive(Debug)]
pub struct Block {
    pub header: BlockHeader,
    pub transactions: Vec<Transaction>,
}

impl View for TransactionOutput {
    type V = OutputModel;

    open spec fn view(&self) -> OutputModel {
        OutputModel { value: self.value, unique_id: self.unique_id, pubkey: self.pubkey@ }
    }
}

impl View for TransactionInput {
    type V = InputModel;

    open spec fn view(&self) -> InputModel {
        InputModel { prev: self.prev_transaction_output_hash, signature: self.signature@ }
    }
}

impl View for Transaction {
    type V = TxModel;

    open spec fn view(&self) -> TxModel {
        TxModel {
            inputs: self.inputs@.map_values(|i: TransactionInput| i@),
            outputs: self.outputs@.map_values(|o: TransactionOutput| o@),
        }
    }
}

impl View for Block {
    type V = BlockModel;

    open spec fn view(&self) -> BlockModel {
        BlockModel { header: self.header, transactions: txs_view(self.transactions@) }
    }
}

/// The models of a sequence of transactions.
pub open spec fn txs_view(txs: Seq<Transaction>) -> Seq<TxModel> {
    txs.map_values(|t: Transaction| t@)
}

/// Canonical encoding of an output.
pub open spec fn enc_output(o: OutputModel) -> Seq<u8> {
    le_u64(o.value) + le_u128(o.unique_id) + enc_bytes(o.pubkey)
}

/// Canonical encoding of an input.
pub open spec fn enc_input(i: InputModel) -> Seq<u8> {
    i.prev.le_bytes() + enc_bytes(i.signature)
}

/// Canonical encoding of a transaction: its inputs, then its outputs, each list counted.
pub open spec fn enc_tx(t: TxModel) -> Seq<u8> {
    le_u64(t.inputs.len() as u64) + concat_enc(t.inputs, |i: InputModel| enc_input(i)) + le_u64(
        t.outputs.len() as u64,
    ) + concat_enc(t.outputs, |o: OutputModel| enc_output(o))
}

/// Canonical encoding of a header, fields in declaration order.
pub open spec fn enc_header(h: BlockHeader) -> Seq<u8> {
    le_i64(h.timestamp) + le_u64(h.nonce) + h.prev_block_hash.le_bytes() + h.merkle_root.0.le_bytes()
        + le_u256(h.target)
}

/// Canonical encoding of a block: its header, then its counted transactions.
pub open spec fn enc_block(b: BlockModel) -> Seq<u8> {
    enc_header(b.header) + le_u64(b.transactions.len() as u64) + concat_enc(
        b.transactions,
        |t: TxModel| enc_tx(t),
    )
}

/// The hash of an output: the key under which the unspent-output set holds it.
pub open spec fn output_hash(o: OutputModel) -> crate::hashing::Hash {
    digest_hash(enc_output(o))
}

/// The hash of a transaction.
pub open spec fn tx_hash(t: TxModel) -> crate::hashing::Hash {
    digest_hash(enc_tx(t))
}

/// The hash of a header.
pub open spec fn header_hash(h: BlockHeader) -> crate::hashing::Hash {
    digest_hash(enc_header(h))
}

/// The hash of a block.
pub open spec fn block_hash(b: BlockModel) -> crate::hashing::Hash {
    digest_hash(enc_block(b))
}

impl Clone for TransactionOutput {
    fn clone(&self) -> (r: Self)
        ensures
            r@ == self@,
    {
        TransactionOutput { value: self.value, unique_id: self.unique_id, pubkey: self.pubkey.clone() }
    }
}

impl Clone for TransactionInput {
    fn clone(&self) -> (r: Self)
        ensures
            r@ == self@,
    {
        TransactionInput {
            prev_transaction_output_hash: self.prev_transaction_output_hash,
            signature: self.signature.clone(),
        }
    }
}

impl TransactionOutput {
    /// Appends the canonical encoding.
    pub fn encode_into(&self, buf: &mut Vec<u8>)
        ensures
            final(buf)@ == old(buf)@ + enc_output(self@),
    {
        push_u64(buf, self.value);
        push_u128(buf, self.unique_id);
        push_bytes(buf, self.pubkey.0.as_slice());
        assert(buf@ =~= old(buf)@ + enc_output(self@));
    }

    /// The hash of the canonical encoding.
    pub fn hash(&self) -> (r: crate::hashing::Hash)
        ensures
            r == output_hash(self@),
    {
        let mut buf: Vec<u8> = Vec::new();
        self.encode_into(&mut buf);
        assert(buf@ =~= enc_output(self@));
        crate::hashing::Hash::hash(&buf)
    }
}

impl TransactionInput {
    /// Appends the canonical encoding.
    pub fn encode_into(&self, buf: &mut Vec<u8>)
        ensures
            final(buf)@ == old(buf)@ + enc_input(self@),
    {
        push_u256(buf, &self.prev_transaction_output_hash.0);
        push_bytes(buf, self.signature.0.as_slice());
        assert(buf@ =~= old(buf)@ + enc_input(self@));
    }
}

impl Transaction {
    pub fn new(inputs: Vec<TransactionInput>, outputs: Vec<TransactionOutput>) -> (r: Transaction)
        ensures
            r.inputs@ == inputs@,
            r.outputs@ == outputs@,
    {
        Transaction { inputs, outputs }
    }

    /// Appends the canonical encoding.
    pub fn encode_into(&self, buf: &mut Vec<u8>)
        ensures
            final(buf)@ == old(buf)@ + enc_tx(self@),
    {
        let ghost start = buf@;
        let ghost ins = self@.inputs;
        let ghost outs = self@.outputs;
        push_u64(buf, self.inputs.len() as u64);
        let ghost mid = buf@;
        let mut i: usize = 0;
        while i < self.inputs.len()
            invariant
                i <= self.inputs@.len(),
                ins == self@.inputs,
                buf@ == mid + concat_enc(ins.take(i as int), |i: InputModel| enc_input(i)),
            decreases self.inputs@.len() - i,
        {
            proof {
                lemma_concat_enc_step(ins, |i: InputModel| enc_input(i), i as int);
            }
            self.inputs[i].encode_into(buf);
            i = i + 1;
            assert(buf@ =~= mid + concat_enc(ins.take(i as int), |i: InputModel| enc_input(i)));
        }
        assert(ins.take(ins.len() as int) =~= ins);
        push_u64(buf, self.outputs.len() as u64);
        let ghost mid2 = buf@;
        let mut j: usize = 0;
        while j < self.outputs.len()
            invariant
                j <= self.outputs@.len(),
                outs == self@.outputs,
                buf@ == mid2 + concat_enc(outs.take(j as int), |o: OutputModel| enc_output(o)),
            decreases self.outputs@.len() - j,
        {
            proof {
                lemma_concat_enc_step(outs, |o: OutputModel| enc_output(o), j as int);
            }
            self.outputs[j].encode_into(buf);
            j = j + 1;
            assert(buf@ =~= mid2 + concat_enc(outs.take(j as int), |o: OutputModel| enc_output(o)));
        }
        assert(outs.take(outs.len() as int) =~= outs);
        assert(buf@ =~= old(buf)@ + enc_tx(self@));
    }

    /// The hash of the canonical encoding.
    pub fn hash(&self) -> (r: crate::hashing::Hash)
        ensures
            r == tx_hash(self@),
    {
        let mut buf: Vec<u8> = Vec::new();
        self.encode_into(&mut buf);
        assert(buf@ =~= enc_tx(self@));
        crate::hashing::Hash::hash(&buf)
    }
}

impl BlockHeader {
    pub fn new(
        timestamp: i64,
        nonce: u64,
        prev_block_hash: crate::hashing::Hash,
        merkle_root: MerkleRoot,
        target: U256,
    ) -> (r: BlockHeader)
        ensures
            r == (BlockHeader { timestamp, nonce, prev_block_hash, merkle_root, target }),
    {
        BlockHeader { timestamp, nonce, prev_block_hash, merkle_root, target }
    }

    /// Appends the canonical encoding.
    pub fn encode_into(&self, buf: &mut Vec<u8>)
        ensures
            final(buf)@ == old(buf)@ + enc_header(*self),
    {
        push_i64(buf, self.timestamp);
        push_u64(buf, self.nonce);
        push_u256(buf, &self.prev_block_hash.0);
        push_u256(buf, &self.merkle_root.0.0);
        push_u256(buf, &self.target);
        assert(buf@ =~= old(buf)@ + enc_header(*self));
    }

    /// The hash of the canonical encoding.
    pub fn hash(&self) -> (r: crate::hashing::Hash)
        ensures
            r == header_hash(*self),
    {
        let mut buf: Vec<u8> = Vec::new();
        self.encode_into(&mut buf);
        assert(buf@ =~= enc_header(*self));
        crate::hashing::Hash::hash(&buf)
    }
}

impl Block {
    pub fn new(header: BlockHeader, transactions: Vec<Transaction>) -> (r: Block)
        ensures
            r.header == header,
            r.transactions@ == transactions@,
    {
        Block { header, transactions }
    }

    /// The hash of the canonical encoding of the whole block.
    pub fn hash(&self) -> (r: crate::hashing::Hash)
        ensures
            r == block_hash(self@),
    {
        let mut buf: Vec<u8> = Vec::new();
        self.header.encode_into(&mut buf);
        push_u64(&mut buf, self.transactions.len() as u64);
        let ghost mid = buf@;
        let ghost txs = self@.transactions;
        let mut i: usize = 0;
        while i < self.transactions.len()
            invariant
                i <= self.transactions@.len(),
                txs == self@.transactions,
                buf@ == mid + concat_enc(txs.take(i as int), |t: TxModel| enc_tx(t)),
            decreases self.transactions@.len() - i,
        {
            proof {
                lemma_concat_enc_step(txs, |t: TxModel| enc_tx(t), i as int);
            }
            self.transactions[i].encode_into(&mut buf);
            i = i + 1;
            assert(buf@ =~= mid + concat_enc(txs.take(i as int), |t: TxModel| enc_tx(t)));
        }
        assert(txs.take(txs.len() as int) =~= txs);
        assert(buf@ =~= enc_block(self@));
        crate::hashing::Hash::hash(&buf)
    }
}

/// Two headers give the digest the same bytes only if they are equal: changing
/// any field changes what is hashed, and equal headers hash alike.
pub proof fn lemma_header_encoding_injective(a: BlockHeader, b: BlockHeader)
    ensures
        (enc_header(a) == enc_header(b)) == (a == b),
        a == b ==> header_hash(a) == header_hash(b),
{
    broadcast use crate::encoding::lemma_le_u64_len;
    if enc_header(a) == enc_header(b) {
        let ta = le_i64(a.timestamp);
        let tb = le_i64(b.timestamp);
        let na = ta + le_u64(a.nonce);
        let nb = tb + le_u64(b.nonce);
        let pa = na + a.prev_block_hash.le_bytes();
        let pb = nb + b.prev_block_hash.le_bytes();
        let ma = pa + a.merkle_root.0.le_bytes();
        let mb = pb + b.merkle_root.0.le_bytes();
        lemma_split_concat(ma, le_u256(a.target), mb, le_u256(b.target));
        lemma_split_concat(pa, a.merkle_root.0.le_bytes(), pb, b.merkle_root.0.le_bytes());
        lemma_split_concat(na, a.prev_block_hash.le_bytes(), nb, b.prev_block_hash.le_bytes());
        lemma_split_concat(ta, le_u64(a.nonce), tb, le_u64(b.nonce));
        lemma_le_u64_injective(a.timestamp as u64, b.timestamp as u64);
        lemma_le_u64_injective(a.nonce, b.nonce);
        lemma_le_u256_injective(a.prev_block_hash.0, b.prev_block_hash.0);
        lemma_le_u256_injective(a.merkle_root.0.0, b.merkle_root.0.0);
        lemma_le_u256_injective(a.target, b.target);
        lemma_i64_bits_injective(a.timestamp, b.timestamp);
    }
}

proof fn lemma_i64_bits_injective(x: i64, y: i64)
    requires
        x as u64 == y as u64,
    ensures
        x == y,
{
    assert(x == y) by (bit_vector)
        requires
            x as u64 == y as u64,
    ;
}

/// Equal concatenations with equally long first parts have equal parts.
proof fn lemma_split_concat(p1: Seq<u8>, q1: Seq<u8>, p2: Seq<u8>, q2: Seq<u8>)
    requires
        p1 + q1 == p2 + q2,
        p1.len() == p2.len(),
    ensures
        p1 == p2,
        q1 == q2,
{
    assert(p1 =~= (p1 + q1).subrange(0, p1.len() as int));
    assert(p2 =~= (p2 + q2).subrange(0, p2.len() as int));
    assert(q1 =~= (p1 + q1).subrange(p1.len() as int, (p1 + q1).len() as int));
    assert(q2 =~= (p2 + q2).subrange(p2.len() as int, (p2 + q2).len() as int));
}

/// Two outputs give the digest the same bytes only if they are equal: changing
/// the value, the unique id or the owner's key changes what is hashed, and
/// equal outputs hash alike.
pub proof fn lemma_output_encoding_injective(a: OutputModel, b: OutputModel)
    ensures
        (enc_output(a) == enc_output(b)) == (a == b),
        a == b ==> output_hash(a) == output_hash(b),
{
    broadcast use crate::encoding::lemma_le_u64_len;
    if enc_output(a) == enc_output(b) {
        let ea = enc_output(a);
        let eb = enc_output(b);
        assert(ea.subrange(0, 8) =~= le_u64(a.value));
        assert(eb.subrange(0, 8) =~= le_u64(b.value));
        assert(ea.subrange(8, 24) =~= le_u128(a.unique_id));
        assert(eb.subrange(8, 24) =~= le_u128(b.unique_id));
        assert(ea.subrange(32, ea.len() as int) =~= a.pubkey);
        assert(eb.subrange(32, eb.len() as int) =~= b.pubkey);
        lemma_le_u64_injective(a.value, b.value);
        lemma_le_u128_injective(a.unique_id, b.unique_id);
    }
}

} // verus!
