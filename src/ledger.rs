//! The consensus rules: transaction validity against the unspent outputs, the
//! staged checks on a candidate block, and the ledger that commits accepted blocks.
use vstd::prelude::*;
use crate::crypto::Signature;
use crate::hashing::zero_hash;
use crate::merkle::{merkle_root_of, MerkleRoot};
use crate::types::{
    block_hash, header_hash, output_hash, txs_view, Block, BlockModel, InputModel, OutputModel,
    Transaction, TxModel,
};
use crate::utxo::UtxoSet;

verus! {

/// Why a block was rejected.
#[derive(Clone, Copy, Debug, PartialEq, Eq, Structural)]
pub enum BtcError {
    /// A transaction spends a missing or already-spent output, spends one output
    /// twice, carries a bad signature, creates more value than it spends, or the
    /// block has no transactions.
    InvalidTransaction,
    /// Wrong predecessor, insufficient proof of work, or a timestamp not after the tip's.
    InvalidBlock,
    /// The declared Merkle root is not the one computed from the transactions.
    InvalidMerkleRoot,
}

/// The unspent outputs keyed by hash.
pub type UtxoMap = Map<crate::hashing::Hash, OutputModel>;

/// The items' sequences, one after another.
pub open spec fn flat_map<A, B>(s: Seq<A>, f: spec_fn(A) -> Seq<B>) -> Seq<B>
    decreases s.len(),
{
    if s.len() == 0 {
        seq![]
    } else {
        flat_map(s.drop_last(), f) + f(s.last())
    }
}

/// The total of `f` over the items.
pub open spec fn sum_of<A>(s: Seq<A>, f: spec_fn(A) -> int) -> int
    decreases s.len(),
{
    if s.len() == 0 {
        0
    } else {
        sum_of(s.drop_last(), f) + f(s.last())
    }
}

proof fn lemma_flat_map_step<A, B>(s: Seq<A>, f: spec_fn(A) -> Seq<B>, i: int)
    requires
        0 <= i < s.len(),
    ensures
        flat_map(s.take(i + 1), f) == flat_map(s.take(i), f) + f(s[i]),
{
    assert(s.take(i + 1).drop_last() =~= s.take(i));
}

/// The sequence of a prefix is a prefix of the sequence.
proof fn lemma_flat_map_prefix<A, B>(s: Seq<A>, f: spec_fn(A) -> Seq<B>, i: int) -> (suffix: Seq<B>)
    requires
        0 <= i <= s.len(),
    ensures
        flat_map(s, f) == flat_map(s.take(i), f) + suffix,
    decreases s.len(),
{
    if i == s.len() {
        assert(s.take(i) =~= s);
        assert(flat_map(s, f) =~= flat_map(s.take(i), f) + seq![]);
        seq![]
    } else {
        let rest = lemma_flat_map_prefix(s.drop_last(), f, i);
        assert(s.drop_last().take(i) =~= s.take(i));
        let suffix = rest + f(s.last());
        assert(flat_map(s, f) =~= flat_map(s.take(i), f) + suffix);
        suffix
    }
}

proof fn lemma_sum_of_step<A>(s: Seq<A>, f: spec_fn(A) -> int, i: int)
    requires
        0 <= i < s.len(),
    ensures
        sum_of(s.take(i + 1), f) == sum_of(s.take(i), f) + f(s[i]),
{
    assert(s.take(i + 1).drop_last() =~= s.take(i));
}

/// The hashes of the outputs that a transaction spends, in order.
pub open spec fn input_prevs(t: TxModel) -> Seq<crate::hashing::Hash> {
    t.inputs.map_values(|i: InputModel| i.prev)
}

/// The hashes of the outputs that a block's transactions spend, in order.
pub open spec fn block_inputs(txs: Seq<TxModel>) -> Seq<crate::hashing::Hash> {
    flat_map(txs, |t: TxModel| input_prevs(t))
}

/// The value that inputs draw from the outputs they spend.
pub open spec fn input_value(ins: Seq<InputModel>, m: UtxoMap) -> int {
    sum_of(ins, |i: InputModel| m[i.prev].value as int)
}

/// The value that outputs create.
pub open spec fn output_value(outs: Seq<OutputModel>) -> int {
    sum_of(outs, |o: OutputModel| o.value as int)
}

/// The input spends an unspent output, signed by that output's owner over its hash.
pub open spec fn input_authorised(i: InputModel, m: UtxoMap) -> bool {
    &&& m.contains_key(i.prev)
    &&& Signature::accepts(i.signature, i.prev, m[i.prev].pubkey)
}

/// A transaction that spends at least one output, only authorised inputs, and
/// creates no more value than it spends.
pub open spec fn tx_valid(t: TxModel, m: UtxoMap) -> bool {
    &&& t.inputs.len() > 0
    &&& forall|k: int| 0 <= k < t.inputs.len() ==> input_authorised(#[trigger] t.inputs[k], m)
    &&& input_value(t.inputs, m) >= output_value(t.outputs)
}

/// A non-empty list of valid transactions in which no output is spent twice.
pub open spec fn txs_valid(txs: Seq<TxModel>, m: UtxoMap) -> bool {
    &&& txs.len() > 0
    &&& block_inputs(txs).no_duplicates()
    &&& forall|k: int| 0 <= k < txs.len() ==> tx_valid(#[trigger] txs[k], m)
}

/// The block names the chain's tip as predecessor, or the zero hash on an empty chain.
pub open spec fn linked(blocks: Seq<BlockModel>, b: BlockModel) -> bool {
    if blocks.len() == 0 {
        b.header.prev_block_hash == zero_hash()
    } else {
        b.header.prev_block_hash == block_hash(blocks.last())
    }
}

/// The header's hash, as an integer, is at most its target.
pub open spec fn proof_of_work_ok(b: BlockModel) -> bool {
    header_hash(b.header).0.value() <= b.header.target.value()
}

/// The outcome of offering block `b` to a chain of `blocks` with unspent outputs `m`:
/// linkage, proof of work, Merkle root, timestamp and transactions are checked in
/// that order, the first failure deciding the error. The genesis block has no
/// timestamp to follow and no outputs to spend, so those two checks are skipped for it.
pub open spec fn block_verdict(blocks: Seq<BlockModel>, m: UtxoMap, b: BlockModel) -> Result<(), BtcError> {
    if !linked(blocks, b) {
        Err(BtcError::InvalidBlock)
    } else if !proof_of_work_ok(b) {
        Err(BtcError::InvalidBlock)
    } else if b.header.merkle_root != merkle_root_of(b.transactions) {
        Err(BtcError::InvalidMerkleRoot)
    } else if blocks.len() > 0 && b.header.timestamp <= blocks.last().header.timestamp {
        Err(BtcError::InvalidBlock)
    } else if blocks.len() > 0 && !txs_valid(b.transactions, m) {
        Err(BtcError::InvalidTransaction)
    } else {
        Ok(())
    }
}

/// Removes the outputs that the inputs spend.
pub open spec fn spend_inputs(m: UtxoMap, ins: Seq<InputModel>) -> UtxoMap
    decreases ins.len(),
{
    if ins.len() == 0 {
        m
    } else {
        spend_inputs(m, ins.drop_last()).remove(ins.last().prev)
    }
}

/// Adds the outputs, each under its own hash.
pub open spec fn add_outputs(m: UtxoMap, outs: Seq<OutputModel>) -> UtxoMap
    decreases outs.len(),
{
    if outs.len() == 0 {
        m
    } else {
        add_outputs(m, outs.drop_last()).insert(output_hash(outs.last()), outs.last())
    }
}

/// One transaction applied: its spent outputs removed, then its new outputs added.
pub open spec fn apply_tx(m: UtxoMap, t: TxModel) -> UtxoMap {
    add_outputs(spend_inputs(m, t.inputs), t.outputs)
}

/// Transactions applied in order.
pub open spec fn apply_txs(m: UtxoMap, txs: Seq<TxModel>) -> UtxoMap
    decreases txs.len(),
{
    if txs.len() == 0 {
        m
    } else {
        apply_tx(apply_txs(m, txs.drop_last()), txs.last())
    }
}

/// The unspent outputs after replaying every block from genesis.
pub open spec fn replay(blocks: Seq<BlockModel>) -> UtxoMap
    decreases blocks.len(),
{
    if blocks.len() == 0 {
        Map::empty()
    } else {
        apply_txs(replay(blocks.drop_last()), blocks.last().transactions)
    }
}

/// Whether `h` is among the items of `v`.
fn contains_hash(v: &Vec<crate::hashing::Hash>, h: &crate::hashing::Hash) -> (r: bool)
    ensures
        r == v@.contains(*h),
{
    let mut i: usize = 0;
    while i < v.len()
        invariant
            i <= v@.len(),
            forall|k: int| 0 <= k < i ==> v@[k] != *h,
        decreases v@.len() - i,
    {
        if v[i] == *h {
            return true;
        }
        i = i + 1;
    }
    false
}

/// Sums the outputs' values.
fn sum_outputs(t: &Transaction) -> (r: u128)
    ensures
        r == output_value(t@.outputs),
{
    let ghost outs = t@.outputs;
    let ghost f = |o: OutputModel| o.value as int;
    let mut acc: u128 = 0;
    let mut j: usize = 0;
    while j < t.outputs.len()
        invariant
            j <= t.outputs@.len(),
            outs == t@.outputs,
            f == (|o: OutputModel| o.value as int),
            acc == sum_of(outs.take(j as int), f),
            acc <= j * 0xFFFF_FFFF_FFFF_FFFF,
        decreases t.outputs@.len() - j,
    {
        proof {
            lemma_sum_of_step(outs, f, j as int);
        }
        acc = acc + t.outputs[j].value as u128;
        j = j + 1;
    }
    assert(outs.take(outs.len() as int) =~= outs);
    acc
}

impl Block {
    /// Checks the transactions against the unspent outputs `utxos`, without
    /// changing them: `Ok` exactly when the list is non-empty, no output is spent
    /// twice in the block, and each transaction is valid.
    pub fn verify_transactions(&self, utxos: &UtxoSet) -> (r: Result<(), BtcError>)
        requires
            utxos.wf(),
        ensures
            r == (if txs_valid(self@.transactions, utxos@) {
                Ok(())
            } else {
                Err(BtcError::InvalidTransaction)
            }),
    {
        let ghost txs = self@.transactions;
        let ghost m = utxos@;
        let ghost fp = |t: TxModel| input_prevs(t);
        if self.transactions.len() == 0 {
            return Err(BtcError::InvalidTransaction);
        }
        let mut seen: Vec<crate::hashing::Hash> = Vec::new();
        let mut t: usize = 0;
        while t < self.transactions.len()
            invariant
                t <= self.transactions@.len(),
                txs == self@.transactions,
                m == utxos@,
                utxos.wf(),
                fp == (|t: TxModel| input_prevs(t)),
                seen@ == flat_map(txs.take(t as int), fp),
                seen@.no_duplicates(),
                forall|k: int| 0 <= k < t ==> tx_valid(#[trigger] txs[k], m),
            decreases self.transactions@.len() - t,
        {
            let tx = &self.transactions[t];
            let ghost tm = tx@;
            let ghost prevs = input_prevs(tm);
            let ghost fi = |i: InputModel| m[i.prev].value as int;
            assert(tm == txs[t as int]);
            if tx.inputs.len() == 0 {
                return Err(BtcError::InvalidTransaction);
            }
            let ghost base = seen@;
            let mut input_total: u128 = 0;
            let mut j: usize = 0;
            while j < tx.inputs.len()
                invariant
                    j <= tx.inputs@.len(),
                    tm == tx@,
                    tm == txs[t as int],
                    t < txs.len(),
                    txs == self@.transactions,
                    m == utxos@,
                    utxos.wf(),
                    fp == (|t: TxModel| input_prevs(t)),
                    prevs == input_prevs(tm),
                    fi == (|i: InputModel| m[i.prev].value as int),
                    base == flat_map(txs.take(t as int), fp),
                    seen@ == base + prevs.take(j as int),
                    seen@.no_duplicates(),
                    forall|k: int| 0 <= k < j ==> input_authorised(#[trigger] tm.inputs[k], m),
                    input_total == sum_of(tm.inputs.take(j as int), fi),
                    input_total <= j * 0xFFFF_FFFF_FFFF_FFFF,
                decreases tx.inputs@.len() - j,
            {
                let input = &tx.inputs[j];
                let h = input.prev_transaction_output_hash;
                assert(tm.inputs[j as int] == input@);
                assert(prevs[j as int] == h);
                match utxos.get(&h) {
                    None => {
                        assert(!input_authorised(tm.inputs[j as int], m));
                        assert(!tx_valid(txs[t as int], m));
                        return Err(BtcError::InvalidTransaction);
                    },
                    Some(prev_output) => {
                        if contains_hash(&seen, &h) {
                            proof {
                                let suf = lemma_flat_map_prefix(txs, fp, t + 1);
                                lemma_flat_map_step(txs, fp, t as int);
                                let full = block_inputs(txs);
                                assert(full =~= seen@ + (prevs.skip(j as int) + suf));
                                let k = choose|k: int| 0 <= k < seen@.len() && seen@[k] == h;
                                assert(full[k] == h);
                                assert(full[seen@.len() as int] == h);
                            }
                            return Err(BtcError::InvalidTransaction);
                        }
                        if !input.signature.verify(&h, &prev_output.pubkey) {
                            assert(!input_authorised(tm.inputs[j as int], m));
                            assert(!tx_valid(txs[t as int], m));
                            return Err(BtcError::InvalidTransaction);
                        }
                        proof {
                            lemma_sum_of_step(tm.inputs, fi, j as int);
                        }
                        input_total = input_total + prev_output.value as u128;
                        let ghost before = seen@;
                        seen.push(h);
                        proof {
                            assert(seen@ =~= base + prevs.take(j + 1));
                            assert forall|a: int, b: int| 0 <= a < b < seen@.len() implies seen@[a] != seen@[b] by {
                                if b == seen@.len() - 1 {
                                    assert(seen@[a] == before[a]);
                                    assert(before.contains(before[a]));
                                }
                            }
                        }
                        j = j + 1;
                    },
                }
            }
            assert(tm.inputs.take(tm.inputs.len() as int) =~= tm.inputs);
            assert(prevs.take(prevs.len() as int) =~= prevs);
            let output_total = sum_outputs(tx);
            if input_total < output_total {
                assert(!tx_valid(txs[t as int], m));
                return Err(BtcError::InvalidTransaction);
            }
            proof {
                lemma_flat_map_step(txs, fp, t as int);
            }
            t = t + 1;
        }
        assert(txs.take(txs.len() as int) =~= txs);
        Ok(())
    }
}

/// Applies `txs` to `utxos` in order: each transaction's spent outputs are
/// removed, then its new outputs are added under their own hashes.
fn apply_transactions(utxos: &mut UtxoSet, txs: &Vec<Transaction>)
    requires
        old(utxos).wf(),
    ensures
        final(utxos).wf(),
        final(utxos)@ == apply_txs(old(utxos)@, txs_view(txs@)),
{
    let ghost tv = txs_view(txs@);
    let mut t: usize = 0;
    while t < txs.len()
        invariant
            t <= txs@.len(),
            tv == txs_view(txs@),
            utxos.wf(),
            utxos@ == apply_txs(old(utxos)@, tv.take(t as int)),
        decreases txs@.len() - t,
    {
        let tx = &txs[t];
        let ghost tm = tx@;
        let ghost start = utxos@;
        assert(tm == tv[t as int]);
        let mut j: usize = 0;
        while j < tx.inputs.len()
            invariant
                j <= tx.inputs@.len(),
                tm == tx@,
                utxos.wf(),
                utxos@ == spend_inputs(start, tm.inputs.take(j as int)),
            decreases tx.inputs@.len() - j,
        {
            assert(tm.inputs.take(j + 1).drop_last() =~= tm.inputs.take(j as int));
            utxos.remove(&tx.inputs[j].prev_transaction_output_hash);
            j = j + 1;
        }
        assert(tm.inputs.take(tm.inputs.len() as int) =~= tm.inputs);
        let ghost spent = utxos@;
        let mut k: usize = 0;
        while k < tx.outputs.len()
            invariant
                k <= tx.outputs@.len(),
                tm == tx@,
                utxos.wf(),
                utxos@ == add_outputs(spent, tm.outputs.take(k as int)),
            decreases tx.outputs@.len() - k,
        {
            assert(tm.outputs.take(k + 1).drop_last() =~= tm.outputs.take(k as int));
            let output = &tx.outputs[k];
            let h = output.hash();
            utxos.insert(h, output.clone());
            k = k + 1;
        }
        assert(tm.outputs.take(tm.outputs.len() as int) =~= tm.outputs);
        assert(tv.take(t + 1).drop_last() =~= tv.take(t as int));
        t = t + 1;
    }
    assert(tv.take(tv.len() as int) =~= tv);
}

impl UtxoSet {
    /// The unspent outputs of a chain, computed by replaying its blocks in order
    /// from an empty set.
    pub fn rebuild(blocks: &Vec<Block>) -> (r: UtxoSet)
        ensures
            r.wf(),
            r@ == replay(blocks@.map_values(|b: Block| b@)),
    {
        let ghost bv = blocks@.map_values(|b: Block| b@);
        let mut fresh = UtxoSet::new();
        let mut i: usize = 0;
        while i < blocks.len()
            invariant
                i <= blocks@.len(),
                bv == blocks@.map_values(|b: Block| b@),
                fresh.wf(),
                fresh@ == replay(bv.take(i as int)),
            decreases blocks@.len() - i,
        {
            assert(bv.take(i + 1).drop_last() =~= bv.take(i as int));
            apply_transactions(&mut fresh, &blocks[i].transactions);
            i = i + 1;
        }
        assert(bv.take(bv.len() as int) =~= bv);
        fresh
    }
}

/// What a ledger holds: its blocks in order and its unspent outputs.
pub struct ChainModel {
    pub blocks: Seq<BlockModel>,
    pub utxos: UtxoMap,
}

/// An append-only chain of accepted blocks with its unspent outputs.
pub struct Blockchain {
    utxos: UtxoSet,
    blocks: Vec<Block>,
}

impl View for Blockchain {
    type V = ChainModel;

    closed spec fn view(&self) -> ChainModel {
        ChainModel { blocks: self.blocks@.map_values(|b: Block| b@), utxos: self.utxos@ }
    }
}

impl Blockchain {
    /// The unspent outputs are exactly those that replaying the blocks gives.
    pub closed spec fn wf(self) -> bool {
        &&& self.utxos.wf()
        &&& self.utxos@ == replay(self@.blocks)
    }

    /// An empty ledger.
    pub fn new() -> (r: Blockchain)
        ensures
            r.wf(),
            r@.blocks == Seq::<BlockModel>::empty(),
            r@.utxos == UtxoMap::empty(),
    {
        let r = Blockchain { utxos: UtxoSet::new(), blocks: Vec::new() };
        assert(r@.blocks =~= Seq::<BlockModel>::empty());
        r
    }

    /// Offers a block. It is appended, and its transactions applied to the
    /// unspent outputs, exactly when `block_verdict` accepts it; otherwise the
    /// ledger is left as it was and the first failed check is reported.
    pub fn add_block(&mut self, block: Block) -> (r: Result<(), BtcError>)
        requires
            old(self).wf(),
        ensures
            final(self).wf(),
            r == block_verdict(old(self)@.blocks, old(self)@.utxos, block@),
            r is Ok ==> final(self)@ == (ChainModel {
                blocks: old(self)@.blocks.push(block@),
                utxos: apply_txs(old(self)@.utxos, block@.transactions),
            }),
            r is Err ==> final(self)@ == old(self)@,
    {
        let ghost bv = self@.blocks;
        let n = self.blocks.len();
        if n == 0 {
            if block.header.prev_block_hash != crate::hashing::Hash::zero() {
                return Err(BtcError::InvalidBlock);
            }
        } else {
            assert(bv.last() == self.blocks@[n - 1]@);
            if block.header.prev_block_hash != self.blocks[n - 1].hash() {
                return Err(BtcError::InvalidBlock);
            }
        }
        if !block.header.hash().matches_target(block.header.target) {
            return Err(BtcError::InvalidBlock);
        }
        if MerkleRoot::calculate(&block.transactions) != block.header.merkle_root {
            return Err(BtcError::InvalidMerkleRoot);
        }
        if n > 0 {
            if block.header.timestamp <= self.blocks[n - 1].header.timestamp {
                return Err(BtcError::InvalidBlock);
            }
            match block.verify_transactions(&self.utxos) {
                Ok(()) => {},
                Err(e) => {
                    return Err(e);
                },
            }
        }
        apply_transactions(&mut self.utxos, &block.transactions);
        let ghost b = block@;
        self.blocks.push(block);
        assert(self@.blocks =~= bv.push(b));
        assert(self@.blocks.drop_last() =~= bv);
        Ok(())
    }

    /// Recomputes the unspent outputs from scratch by replaying every block.
    pub fn rebuild_utxos(&mut self)
        requires
            old(self).wf(),
        ensures
            final(self).wf(),
            final(self)@ == old(self)@,
            final(self)@.utxos == replay(final(self)@.blocks),
    {
        self.utxos = UtxoSet::rebuild(&self.blocks);
    }

    /// The last appended block.
    pub fn tip(&self) -> (r: Option<&Block>)
        ensures
            r is None <==> self@.blocks.len() == 0,
            r is Some ==> r->0@ == self@.blocks.last(),
    {
        if self.blocks.len() == 0 {
            None
        } else {
            Some(&self.blocks[self.blocks.len() - 1])
        }
    }

    /// The unspent outputs.
    pub fn utxos(&self) -> (r: &UtxoSet)
        requires
            self.wf(),
        ensures
            r.wf(),
            r@ == self@.utxos,
    {
        &self.utxos
    }

    /// The number of blocks.
    pub fn len(&self) -> (r: usize)
        ensures
            r == self@.blocks.len(),
    {
        self.blocks.len()
    }

    /// The block at `i`, counting from genesis.
    pub fn block(&self, i: usize) -> (r: Option<&Block>)
        ensures
            r is Some <==> i < self@.blocks.len(),
            r is Some ==> r->0@ == self@.blocks[i as int],
    {
        if i < self.blocks.len() {
            Some(&self.blocks[i])
        } else {
            None
        }
    }
}

/// Position `j` of item `t`'s sequence sits at the length of the earlier items' sequences.
proof fn lemma_flat_map_index<A, B>(s: Seq<A>, f: spec_fn(A) -> Seq<B>, t: int, j: int)
    requires
        0 <= t < s.len(),
        0 <= j < f(s[t]).len(),
    ensures
        flat_map(s.take(t), f).len() + f(s[t]).len() <= flat_map(s, f).len(),
        flat_map(s, f)[flat_map(s.take(t), f).len() + j] == f(s[t])[j],
{
    let suf = lemma_flat_map_prefix(s, f, t + 1);
    lemma_flat_map_step(s, f, t);
}

/// Earlier prefixes give shorter sequences.
proof fn lemma_flat_map_len_mono<A, B>(s: Seq<A>, f: spec_fn(A) -> Seq<B>, a: int, b: int)
    requires
        0 <= a <= b <= s.len(),
    ensures
        flat_map(s.take(a), f).len() <= flat_map(s.take(b), f).len(),
{
    let suf = lemma_flat_map_prefix(s.take(b), f, a);
    assert(s.take(b).take(a) =~= s.take(a));
}

/// A block that would pass linkage, proof of work, Merkle and timestamp checks,
/// but in which two inputs (in one transaction or in two) spend the same
/// output, is rejected with `InvalidTransaction`.
pub proof fn lemma_double_spend_rejected(
    blocks: Seq<BlockModel>,
    m: UtxoMap,
    b: BlockModel,
    t1: int,
    j1: int,
    t2: int,
    j2: int,
)
    requires
        blocks.len() > 0,
        linked(blocks, b),
        proof_of_work_ok(b),
        b.header.merkle_root == merkle_root_of(b.transactions),
        b.header.timestamp > blocks.last().header.timestamp,
        0 <= t1 < b.transactions.len(),
        0 <= t2 < b.transactions.len(),
        0 <= j1 < b.transactions[t1].inputs.len(),
        0 <= j2 < b.transactions[t2].inputs.len(),
        t1 != t2 || j1 != j2,
        b.transactions[t1].inputs[j1].prev == b.transactions[t2].inputs[j2].prev,
    ensures
        block_verdict(blocks, m, b) == Err::<(), BtcError>(BtcError::InvalidTransaction),
{
    let txs = b.transactions;
    let fp = |t: TxModel| input_prevs(t);
    lemma_flat_map_index(txs, fp, t1, j1);
    lemma_flat_map_index(txs, fp, t2, j2);
    let p1 = flat_map(txs.take(t1), fp).len() + j1;
    let p2 = flat_map(txs.take(t2), fp).len() + j2;
    if t1 < t2 {
        lemma_flat_map_len_mono(txs, fp, t1 + 1, t2);
        lemma_flat_map_step(txs, fp, t1);
    } else if t2 < t1 {
        lemma_flat_map_len_mono(txs, fp, t2 + 1, t1);
        lemma_flat_map_step(txs, fp, t2);
    }
    assert(p1 != p2);
    assert(block_inputs(txs)[p1] == block_inputs(txs)[p2]);
    assert(!block_inputs(txs).no_duplicates());
}

/// A block that would pass linkage, proof of work, Merkle and timestamp checks,
/// but holds a transaction whose outputs are worth more than the outputs its
/// inputs spend, is rejected with `InvalidTransaction`.
pub proof fn lemma_overspend_rejected(blocks: Seq<BlockModel>, m: UtxoMap, b: BlockModel, t: int)
    requires
        blocks.len() > 0,
        linked(blocks, b),
        proof_of_work_ok(b),
        b.header.merkle_root == merkle_root_of(b.transactions),
        b.header.timestamp > blocks.last().header.timestamp,
        0 <= t < b.transactions.len(),
        input_value(b.transactions[t].inputs, m) < output_value(b.transactions[t].outputs),
    ensures
        block_verdict(blocks, m, b) == Err::<(), BtcError>(BtcError::InvalidTransaction),
{
    assert(!tx_valid(b.transactions[t], m));
}

/// On an empty chain a block is accepted only if its predecessor is the zero
/// hash; any other predecessor is rejected with `InvalidBlock`.
pub proof fn lemma_genesis_link(m: UtxoMap, b: BlockModel)
    ensures
        block_verdict(Seq::empty(), m, b) is Ok ==> b.header.prev_block_hash == zero_hash(),
        b.header.prev_block_hash != zero_hash() ==> block_verdict(Seq::empty(), m, b)
            == Err::<(), BtcError>(BtcError::InvalidBlock),
{
}

/// Proof of work decides at the boundary: a block that passes every other
/// check is accepted exactly when its header hash is at most its target
/// (equality included), and a linked block whose header hash exceeds its target
/// is rejected with `InvalidBlock`.
pub proof fn lemma_proof_of_work_boundary(blocks: Seq<BlockModel>, m: UtxoMap, b: BlockModel)
    ensures
        block_verdict(blocks, m, b) is Ok ==> header_hash(b.header).0.value() <= b.header.target.value(),
        linked(blocks, b) && header_hash(b.header).0.value() > b.header.target.value()
            ==> block_verdict(blocks, m, b) == Err::<(), BtcError>(BtcError::InvalidBlock),
        linked(blocks, b) && b.header.merkle_root == merkle_root_of(b.transactions) && (blocks.len() == 0 || (
        b.header.timestamp > blocks.last().header.timestamp && txs_valid(b.transactions, m))) ==> (
        block_verdict(blocks, m, b) is Ok <==> header_hash(b.header).0.value() <= b.header.target.value()),
{
}

/// Replaying a chain with one more block equals applying that block's
/// transactions to the replay of the shorter chain: rebuilding from scratch and
/// appending incrementally agree.
pub proof fn lemma_replay_incremental(blocks: Seq<BlockModel>, b: BlockModel)
    ensures
        replay(blocks.push(b)) == apply_txs(replay(blocks), b.transactions),
{
    assert(blocks.push(b).drop_last() =~= blocks);
}

} // verus!
