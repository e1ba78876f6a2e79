use btclib::crypto::{PrivateKey, PublicKey, Signature};
use btclib::hashing;
use btclib::ledger::{BtcError, Blockchain};
use btclib::merkle::MerkleRoot;
use btclib::types::{Block, BlockHeader, Transaction, TransactionInput, TransactionOutput};
use btclib::u256::U256;
use btclib::utxo::UtxoSet;

fn output(value: u64, owner: &PublicKey) -> TransactionOutput {
    TransactionOutput { value, unique_id: uuid::Uuid::new_v4().as_u128(), pubkey: owner.clone() }
}

fn spend(prev: &TransactionOutput, key: &PrivateKey) -> TransactionInput {
    let h = prev.hash();
    TransactionInput { prev_transaction_output_hash: h, signature: Signature::sign_output(&h, key) }
}

fn block_on(prev: hashing::Hash, timestamp: i64, transactions: Vec<Transaction>) -> Block {
    let root = MerkleRoot::calculate(&transactions);
    Block::new(BlockHeader::new(timestamp, 0, prev, root, U256::max_value()), transactions)
}

/// A ledger holding a genesis block that pays `value` to `owner`; returns the paid output too.
fn funded_chain(value: u64, owner: &PublicKey) -> (Blockchain, TransactionOutput) {
    let mut chain = Blockchain::new();
    let out = output(value, owner);
    let genesis = block_on(hashing::Hash::zero(), 1_000, vec![Transaction::new(vec![], vec![out.clone()])]);
    assert_eq!(chain.add_block(genesis), Ok(()));
    (chain, out)
}

#[test]
fn end_to_end_two_blocks() {
    let key_a = PrivateKey::new_key();
    let key_b = PrivateKey::new_key();
    let (mut chain, first) = funded_chain(50, &key_a.public_key());
    let first_hash = first.hash();
    assert_eq!(chain.utxos().len(), 1);
    let held = chain.utxos().get(&first_hash).unwrap();
    assert_eq!(held.value, 50);
    assert_eq!(held.pubkey, key_a.public_key());

    let second = output(30, &key_b.public_key());
    let tx = Transaction::new(vec![spend(&first, &key_a)], vec![second.clone()]);
    let tip = chain.tip().unwrap().hash();
    assert_eq!(chain.add_block(block_on(tip, 2_000, vec![tx])), Ok(()));
    assert!(!chain.utxos().contains(&first_hash));
    let new_out = chain.utxos().get(&second.hash()).unwrap();
    assert_eq!(new_out.value, 30);
    assert_eq!(new_out.pubkey, key_b.public_key());
    assert_eq!(chain.utxos().len(), 1);
    assert_eq!(chain.len(), 2);
}

#[test]
fn genesis_needs_zero_predecessor() {
    let key = PrivateKey::new_key();
    let mut chain = Blockchain::new();
    let not_zero = hashing::Hash(U256::from_words(1, 0, 0, 0));
    let tx = Transaction::new(vec![], vec![output(50, &key.public_key())]);
    assert_eq!(chain.add_block(block_on(not_zero, 1_000, vec![tx])), Err(BtcError::InvalidBlock));
    assert_eq!(chain.len(), 0);
    assert!(chain.tip().is_none());
}

#[test]
fn second_block_must_name_tip() {
    let key = PrivateKey::new_key();
    let (mut chain, first) = funded_chain(50, &key.public_key());
    let tx = Transaction::new(vec![spend(&first, &key)], vec![output(10, &key.public_key())]);
    let b = block_on(hashing::Hash::zero(), 2_000, vec![tx]);
    assert_eq!(chain.add_block(b), Err(BtcError::InvalidBlock));
    assert_eq!(chain.len(), 1);
}

#[test]
fn proof_of_work_failure_rejected() {
    let key = PrivateKey::new_key();
    let mut chain = Blockchain::new();
    let txs = vec![Transaction::new(vec![], vec![output(50, &key.public_key())])];
    let root = MerkleRoot::calculate(&txs);
    let header = BlockHeader::new(1_000, 7, hashing::Hash::zero(), root, U256::zero());
    assert_eq!(chain.add_block(Block::new(header, txs)), Err(BtcError::InvalidBlock));
    assert_eq!(chain.len(), 0);
}

#[test]
fn merkle_mismatch_rejected() {
    let key = PrivateKey::new_key();
    let mut chain = Blockchain::new();
    let txs = vec![Transaction::new(vec![], vec![output(50, &key.public_key())])];
    let header = BlockHeader::new(1_000, 0, hashing::Hash::zero(), MerkleRoot(hashing::Hash::zero()), U256::max_value());
    assert_eq!(chain.add_block(Block::new(header, txs)), Err(BtcError::InvalidMerkleRoot));
}

#[test]
fn timestamp_must_increase() {
    let key = PrivateKey::new_key();
    let (mut chain, first) = funded_chain(50, &key.public_key());
    let tx = Transaction::new(vec![spend(&first, &key)], vec![output(10, &key.public_key())]);
    let tip = chain.tip().unwrap().hash();
    assert_eq!(chain.add_block(block_on(tip, 1_000, vec![tx])), Err(BtcError::InvalidBlock));
    assert_eq!(chain.len(), 1);
    assert!(chain.utxos().contains(&first.hash()));
}

#[test]
fn double_spend_in_one_transaction_rejected() {
    let key = PrivateKey::new_key();
    let (mut chain, first) = funded_chain(50, &key.public_key());
    let tx = Transaction::new(vec![spend(&first, &key), spend(&first, &key)], vec![output(60, &key.public_key())]);
    let tip = chain.tip().unwrap().hash();
    assert_eq!(chain.add_block(block_on(tip, 2_000, vec![tx])), Err(BtcError::InvalidTransaction));
    assert!(chain.utxos().contains(&first.hash()));
}

#[test]
fn double_spend_across_transactions_rejected() {
    let key = PrivateKey::new_key();
    let (mut chain, first) = funded_chain(50, &key.public_key());
    let tx1 = Transaction::new(vec![spend(&first, &key)], vec![output(20, &key.public_key())]);
    let tx2 = Transaction::new(vec![spend(&first, &key)], vec![output(20, &key.public_key())]);
    let tip = chain.tip().unwrap().hash();
    assert_eq!(chain.add_block(block_on(tip, 2_000, vec![tx1, tx2])), Err(BtcError::InvalidTransaction));
    assert_eq!(chain.len(), 1);
}

#[test]
fn overspend_rejected() {
    let key = PrivateKey::new_key();
    let (mut chain, first) = funded_chain(50, &key.public_key());
    let tx = Transaction::new(vec![spend(&first, &key)], vec![output(30, &key.public_key()), output(21, &key.public_key())]);
    let tip = chain.tip().unwrap().hash();
    assert_eq!(chain.add_block(block_on(tip, 2_000, vec![tx])), Err(BtcError::InvalidTransaction));
}

#[test]
fn spending_everything_accepted() {
    let key = PrivateKey::new_key();
    let (mut chain, first) = funded_chain(50, &key.public_key());
    let tx = Transaction::new(vec![spend(&first, &key)], vec![output(30, &key.public_key()), output(20, &key.public_key())]);
    let tip = chain.tip().unwrap().hash();
    assert_eq!(chain.add_block(block_on(tip, 2_000, vec![tx])), Ok(()));
    assert_eq!(chain.utxos().len(), 2);
}

#[test]
fn wrong_signer_rejected() {
    let key = PrivateKey::new_key();
    let thief = PrivateKey::new_key();
    let (mut chain, first) = funded_chain(50, &key.public_key());
    let tx = Transaction::new(vec![spend(&first, &thief)], vec![output(10, &thief.public_key())]);
    let tip = chain.tip().unwrap().hash();
    assert_eq!(chain.add_block(block_on(tip, 2_000, vec![tx])), Err(BtcError::InvalidTransaction));
}

#[test]
fn unknown_output_rejected() {
    let key = PrivateKey::new_key();
    let (mut chain, _first) = funded_chain(50, &key.public_key());
    let stranger = output(50, &key.public_key());
    let tx = Transaction::new(vec![spend(&stranger, &key)], vec![output(10, &key.public_key())]);
    let tip = chain.tip().unwrap().hash();
    assert_eq!(chain.add_block(block_on(tip, 2_000, vec![tx])), Err(BtcError::InvalidTransaction));
}

#[test]
fn empty_block_after_genesis_rejected() {
    let key = PrivateKey::new_key();
    let (mut chain, _first) = funded_chain(50, &key.public_key());
    let tip = chain.tip().unwrap().hash();
    assert_eq!(chain.add_block(block_on(tip, 2_000, vec![])), Err(BtcError::InvalidTransaction));
}

#[test]
fn transaction_without_inputs_rejected_after_genesis() {
    let key = PrivateKey::new_key();
    let (mut chain, _first) = funded_chain(50, &key.public_key());
    let tx = Transaction::new(vec![], vec![output(10, &key.public_key())]);
    let tip = chain.tip().unwrap().hash();
    assert_eq!(chain.add_block(block_on(tip, 2_000, vec![tx])), Err(BtcError::InvalidTransaction));
}

#[test]
fn rebuild_matches_incremental() {
    let key = PrivateKey::new_key();
    let (mut chain, first) = funded_chain(50, &key.public_key());
    let out = output(40, &key.public_key());
    let tx = Transaction::new(vec![spend(&first, &key)], vec![out.clone()]);
    let tip = chain.tip().unwrap().hash();
    assert_eq!(chain.add_block(block_on(tip, chrono::Utc::now().timestamp_millis(), vec![tx])), Ok(()));
    chain.rebuild_utxos();
    assert_eq!(chain.utxos().len(), 1);
    assert!(chain.utxos().contains(&out.hash()));
    assert!(!chain.utxos().contains(&first.hash()));
}

#[test]
fn verify_transactions_is_read_only() {
    let key = PrivateKey::new_key();
    let (chain, first) = funded_chain(50, &key.public_key());
    let tx = Transaction::new(vec![spend(&first, &key)], vec![output(50, &key.public_key())]);
    let b = block_on(hashing::Hash::zero(), 0, vec![tx]);
    assert_eq!(b.verify_transactions(chain.utxos()), Ok(()));
    assert_eq!(chain.utxos().len(), 1);
    assert!(chain.block(0).is_some());
    assert!(chain.block(1).is_none());
}

#[test]
fn utxo_set_operations() {
    let key = PrivateKey::new_key();
    let mut set = UtxoSet::new();
    let a = output(5, &key.public_key());
    let b = output(6, &key.public_key());
    set.insert(a.hash(), a.clone());
    set.insert(b.hash(), b.clone());
    set.insert(a.hash(), a.clone());
    assert_eq!(set.len(), 2);
    assert_eq!(set.get(&b.hash()).unwrap().value, 6);
    set.remove(&a.hash());
    assert!(!set.contains(&a.hash()));
    assert!(set.contains(&b.hash()));
    set.remove(&a.hash());
    assert_eq!(set.len(), 1);
}

fn two_blocks(key: &PrivateKey) -> Vec<Block> {
    let first = TransactionOutput { value: 50, unique_id: 1, pubkey: key.public_key() };
    let genesis = block_on(hashing::Hash::zero(), 10, vec![Transaction::new(vec![], vec![first.clone()])]);
    let second = TransactionOutput { value: 45, unique_id: 2, pubkey: key.public_key() };
    let next = block_on(genesis.hash(), 20, vec![Transaction::new(vec![spend(&first, key)], vec![second])]);
    vec![genesis, next]
}

#[test]
fn utxo_rebuild_replays_blocks() {
    let key = PrivateKey::new_key();
    let mut chain = Blockchain::new();
    for b in two_blocks(&key) {
        assert_eq!(chain.add_block(b), Ok(()));
    }
    let rebuilt = UtxoSet::rebuild(&two_blocks(&key));
    let second = TransactionOutput { value: 45, unique_id: 2, pubkey: key.public_key() };
    let first = TransactionOutput { value: 50, unique_id: 1, pubkey: key.public_key() };
    assert_eq!(rebuilt.len(), 1);
    assert_eq!(rebuilt.get(&second.hash()).unwrap().value, 45);
    assert!(!rebuilt.contains(&first.hash()));
    assert_eq!(chain.utxos().len(), 1);
    assert!(chain.utxos().contains(&second.hash()));
}
