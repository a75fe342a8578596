use oracle_settle::hashing::hash_leaf;
use oracle_settle::merkle::build_merkle_root;
use sha2::{Digest, Sha256};

fn sha(data: &[u8]) -> Vec<u8> {
    Sha256::digest(data).to_vec()
}

#[test]
fn hash_leaf_is_sha256() {
    // SHA-256("abc"), a published test vector
    let d = hash_leaf(&b"abc".to_vec());
    assert_eq!(
        hex::encode(&d),
        "ba7816bf8f01cfea414140de5dae2223b00361a396177a9cb410ff61f20015ad"
    );
}

#[test]
fn empty_root_is_all_zero() {
    assert_eq!(build_merkle_root(vec![]), vec![0u8; 32]);
}

#[test]
fn single_leaf_is_its_own_root() {
    let a = sha(b"a");
    assert_eq!(build_merkle_root(vec![a.clone()]), a);
}

#[test]
fn two_leaves_hash_their_concatenation() {
    let a = sha(b"a");
    let b = sha(b"b");
    let mut ab = a.clone();
    ab.extend_from_slice(&b);
    assert_eq!(build_merkle_root(vec![a, b]), sha(&ab));
}

#[test]
fn odd_leaf_is_duplicated() {
    let a = sha(b"a");
    let b = sha(b"b");
    let c = sha(b"c");
    let mut ab = a.clone();
    ab.extend_from_slice(&b);
    let mut cc = c.clone();
    cc.extend_from_slice(&c);
    let mut top = sha(&ab);
    top.extend_from_slice(&sha(&cc));
    assert_eq!(build_merkle_root(vec![a, b, c]), sha(&top));
}

#[test]
fn root_depends_on_leaf_order() {
    let a = sha(b"a");
    let b = sha(b"b");
    assert_ne!(
        build_merkle_root(vec![a.clone(), b.clone()]),
        build_merkle_root(vec![b, a])
    );
}
