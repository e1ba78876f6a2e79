use btclib::crypto::{PrivateKey, PublicKey, Signature};
use btclib::hashing;
use btclib::merkle::MerkleRoot;
use btclib::types::{BlockHeader, Transaction, TransactionOutput};
use btclib::u256::U256;

#[test]
fn digest_of_known_bytes() {
    let h = hashing::Hash::hash(&b"hello".to_vec());
    // sha256("hello") = 2cf24dba5fb0a30e 26e83b2ac5b9e29e 1b161e5c1fa7425e 73043362938b9824
    assert_eq!(h.0, U256::from_words(0x73043362938b9824, 0x1b161e5c1fa7425e, 0x26e83b2ac5b9e29e, 0x2cf24dba5fb0a30e));
    assert_eq!(h.as_bytes()[0], 0x24);
    assert_eq!(h.as_bytes()[31], 0x2c);
}

#[test]
fn hashing_is_deterministic() {
    let data = vec![1u8, 2, 3];
    assert_eq!(hashing::Hash::hash(&data), hashing::Hash::hash(&data));
    let key = PrivateKey::new_key();
    let out = TransactionOutput { value: 7, unique_id: 99, pubkey: key.public_key() };
    assert_eq!(out.hash(), out.clone().hash());
    let mut other = out.clone();
    other.value = 8;
    assert_ne!(out.hash(), other.hash());
    let mut other_id = out.clone();
    other_id.unique_id = 100;
    assert_ne!(out.hash(), other_id.hash());
}

#[test]
fn header_field_change_changes_hash() {
    let h = BlockHeader::new(5, 1, hashing::Hash::zero(), MerkleRoot(hashing::Hash::zero()), U256::max_value());
    let mut g = h;
    g.nonce = 2;
    assert_eq!(h.hash(), h.hash());
    assert_ne!(h.hash(), g.hash());
}

#[test]
fn output_encoding_layout() {
    let out = TransactionOutput { value: 0x0102, unique_id: 3, pubkey: PublicKey(vec![9, 8]) };
    let mut buf = Vec::new();
    out.encode_into(&mut buf);
    let mut expected = vec![0x02, 0x01, 0, 0, 0, 0, 0, 0];
    expected.extend_from_slice(&[3, 0, 0, 0, 0, 0, 0, 0, 0, 0, 0, 0, 0, 0, 0, 0]);
    expected.extend_from_slice(&[2, 0, 0, 0, 0, 0, 0, 0, 9, 8]);
    assert_eq!(buf, expected);
    assert_eq!(out.hash(), hashing::Hash::hash(&expected));
}

#[test]
fn matches_target_boundary() {
    let h = hashing::Hash(U256::from_words(5, 0, 0, 1));
    assert!(h.matches_target(U256::from_words(5, 0, 0, 1)));
    assert!(!h.matches_target(U256::from_words(4, 0, 0, 1)));
    assert!(h.matches_target(U256::from_words(0, 0, 1, 1)));
    assert!(!h.matches_target(U256::from_words(u64::MAX, u64::MAX, u64::MAX, 0)));
    assert!(hashing::Hash::zero().matches_target(U256::zero()));
    assert!(!hashing::Hash(U256::from_words(1, 0, 0, 0)).matches_target(U256::zero()));
}

#[test]
fn zero_and_bytes() {
    assert_eq!(hashing::Hash::zero().as_bytes(), [0u8; 32]);
    let h = hashing::Hash(U256::from_words(0x0807060504030201, 0, 0, 0xff00000000000000));
    let b = h.as_bytes();
    assert_eq!(&b[0..8], &[1, 2, 3, 4, 5, 6, 7, 8]);
    assert_eq!(b[31], 0xff);
    assert_eq!(b[24], 0);
}

#[test]
fn signature_round_trip() {
    let key = PrivateKey::new_key();
    let other = PrivateKey::new_key();
    let h = hashing::Hash::hash(&vec![4u8, 5]);
    let sig = Signature::sign_output(&h, &key);
    assert_eq!(sig.0.len(), 64);
    assert_eq!(key.public_key().0.len(), 33);
    assert!(sig.verify(&h, &key.public_key()));
    let altered = hashing::Hash::hash(&vec![4u8, 6]);
    assert!(!sig.verify(&altered, &key.public_key()));
    assert!(!sig.verify(&h, &other.public_key()));
    assert!(!Signature(vec![0; 64]).verify(&h, &key.public_key()));
    assert!(!sig.verify(&h, &PublicKey(vec![1, 2, 3])));
}

#[test]
fn signing_is_deterministic() {
    let key = PrivateKey::new_key();
    let h = hashing::Hash::hash(&vec![1u8]);
    assert_eq!(Signature::sign_output(&h, &key), Signature::sign_output(&h, &key));
}

#[test]
fn private_key_bytes_round_trip() {
    let key = PrivateKey::new_key();
    let bytes = key.to_bytes();
    assert_eq!(bytes.len(), 32);
    let back = PrivateKey::from_bytes(&bytes).unwrap();
    assert_eq!(back.public_key(), key.public_key());
    assert!(PrivateKey::from_bytes(&vec![0u8; 32]).is_none());
    assert!(PrivateKey::from_bytes(&vec![0xffu8; 32]).is_none());
}

fn tx(value: u64) -> Transaction {
    let key_bytes = vec![7u8; 33];
    Transaction::new(vec![], vec![TransactionOutput { value, unique_id: value as u128, pubkey: PublicKey(key_bytes) }])
}

fn pair(a: &hashing::Hash, b: &hashing::Hash) -> hashing::Hash {
    let mut bytes = a.as_bytes().to_vec();
    bytes.extend_from_slice(&b.as_bytes());
    hashing::Hash::hash(&bytes)
}

#[test]
fn merkle_empty_is_zero() {
    assert_eq!(MerkleRoot::calculate(&vec![]), MerkleRoot(hashing::Hash::zero()));
}

#[test]
fn merkle_single_is_tx_hash() {
    let t = tx(1);
    assert_eq!(MerkleRoot::calculate(&vec![tx(1)]), MerkleRoot(t.hash()));
}

#[test]
fn merkle_pairs_left_to_right() {
    let (a, b) = (tx(1).hash(), tx(2).hash());
    assert_eq!(MerkleRoot::calculate(&vec![tx(1), tx(2)]), MerkleRoot(pair(&a, &b)));
    assert_ne!(MerkleRoot::calculate(&vec![tx(2), tx(1)]), MerkleRoot::calculate(&vec![tx(1), tx(2)]));
}

#[test]
fn merkle_odd_duplicates_last() {
    let (a, b, c) = (tx(1).hash(), tx(2).hash(), tx(3).hash());
    let root = MerkleRoot::calculate(&vec![tx(1), tx(2), tx(3)]);
    assert_eq!(root, MerkleRoot(pair(&pair(&a, &b), &pair(&c, &c))));
    assert_eq!(root, MerkleRoot::calculate(&vec![tx(1), tx(2), tx(3), tx(3)]));
    assert_eq!(root, MerkleRoot::calculate(&vec![tx(1), tx(2), tx(3)]));
}

#[test]
fn display_form_is_lowercase_hex() {
    let h = hashing::Hash::hash(&b"hello".to_vec());
    assert_eq!(h.to_hex(), "2cf24dba5fb0a30e26e83b2ac5b9e29e1b161e5c1fa7425e73043362938b9824");
    let small = hashing::Hash(U256::from_words(0xab, 0, 0, 0));
    assert_eq!(small.to_hex(), format!("{}ab", "0".repeat(62)));
}
