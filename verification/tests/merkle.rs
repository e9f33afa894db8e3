use continuation_batcher::errors::BatchError;
use continuation_batcher::merkle::{construct_merkle_proof, construct_merkle_records};
use sha2::Digest;

fn sha256_pair(left: &[u8; 32], right: &[u8; 32]) -> [u8; 32] {
    let mut h = sha2::Sha256::new();
    h.update(left.as_slice());
    h.update(right.as_slice());
    h.finalize().into()
}

#[test]
fn merkle_test() {
    let mut hashes = vec![];
    for i in 0..1024u32 {
        hashes.push([(i % 256) as u8; 32]);
    }
    construct_merkle_records(&mut hashes, 10);
    let proofs = construct_merkle_proof(&hashes, 12, 10).unwrap();
    println!("proofs is {:?}", proofs);
}

#[test]
fn merkle_record_counts() {
    let mut data = vec![[1u8; 32], [2u8; 32], [3u8; 32], [4u8; 32]];
    construct_merkle_records(&mut data, 2);
    assert_eq!(data.len(), 7);
    assert_eq!(data[0], [1u8; 32]);
    assert_eq!(data[1], [2u8; 32]);
    assert_eq!(data[2], [3u8; 32]);
    assert_eq!(data[3], [4u8; 32]);
}

#[test]
fn merkle_parent_matches_sha256() {
    let l0 = [5u8; 32];
    let l1 = [6u8; 32];
    let mut data = vec![l0, l1];
    construct_merkle_records(&mut data, 1);
    assert_eq!(data.len(), 3);
    assert_eq!(data[2], sha256_pair(&l0, &l1));
}

#[test]
fn merkle_audit_paths_rebuild_root() {
    let mut data = vec![[10u8; 32], [20u8; 32], [30u8; 32], [40u8; 32]];
    construct_merkle_records(&mut data, 2);
    let root = data[6];
    for index in 0..4usize {
        let path = construct_merkle_proof(&data, index, 2).unwrap();
        assert_eq!(path.len(), 3);
        assert_eq!(path[0], data[index]);
        let mut cur = path[0];
        let mut acc = index;
        for sib in &path[1..] {
            cur = if acc % 2 == 0 {
                sha256_pair(&cur, sib)
            } else {
                sha256_pair(sib, &cur)
            };
            acc /= 2;
        }
        assert_eq!(cur, root);
    }
}

#[test]
fn merkle_detects_corruption() {
    let mut data = vec![[10u8; 32], [20u8; 32], [30u8; 32], [40u8; 32]];
    construct_merkle_records(&mut data, 2);
    data[4][0] ^= 0xff;
    let r = construct_merkle_proof(&data, 0, 2);
    assert_eq!(r.unwrap_err(), BatchError::IntegrityError);
}

#[test]
fn merkle_single_leaf() {
    let mut data = vec![[9u8; 32]];
    construct_merkle_records(&mut data, 0);
    assert_eq!(data.len(), 1);
    let path = construct_merkle_proof(&data, 0, 0).unwrap();
    assert_eq!(path.len(), 1);
    assert_eq!(path[0], [9u8; 32]);
}
