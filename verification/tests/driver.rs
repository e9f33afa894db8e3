use continuation_batcher::batch::{BatchInfo, ProofInfo};
use continuation_batcher::driver::{
    plan_continuation, reverse_vec, round_batch_info, single_batch_info, validate_groups,
    RoundKind,
};
use continuation_batcher::errors::BatchError;
use continuation_batcher::proofinfo::ProofGenerationInfo;
use continuation_batcher::types::{Accumulator, HashType};

fn plain_proof(k: usize) -> ProofInfo {
    ProofInfo {
        named_advices: vec![],
        instance_lens: vec![1],
        k,
        hashtype: HashType::Poseidon,
    }
}

#[test]
fn continuation_chain_of_five() {
    let plan = plan_continuation("test", 5, 18, 21, 2).unwrap();
    assert_eq!(plan.rounds.len(), 5);
    assert_eq!(plan.depth, 2);
    assert_eq!(plan.leaf_count, 4);
    assert_eq!(plan.record_count, 7);
    assert_eq!(plan.merkle_file, "test.4.hashes");
    assert!(matches!(plan.rounds[0].kind, RoundKind::Start));
    assert_eq!(plan.rounds[0].piece_name, "test.start");
    assert_eq!(plan.rounds[0].piece_index, 0);
    assert_eq!(plan.rounds[0].batch_k, 18);
    assert!(!plan.rounds[0].carry);
    assert!(plan.rounds[0].absorb_instance.is_empty());
    for i in 1..4 {
        assert!(matches!(plan.rounds[i].kind, RoundKind::Recursive));
        assert_eq!(plan.rounds[i].piece_name, "test.rec");
        assert_eq!(plan.rounds[i].piece_index, i);
        assert_eq!(plan.rounds[i].guest_proof, i);
        assert_eq!(plan.rounds[i].batch_k, 18);
        assert!(plan.rounds[i].carry);
        assert_eq!(plan.rounds[i].absorb_instance, vec![(0, 0, 1, 1)]);
    }
    assert!(matches!(plan.rounds[4].kind, RoundKind::Final));
    assert_eq!(plan.rounds[4].piece_name, "test.final");
    assert_eq!(plan.rounds[4].piece_index, 0);
    assert_eq!(plan.rounds[4].batch_k, 21);
    assert!(plan.rounds[4].is_final);
    let final_batch = BatchInfo {
        proofs: vec![],
        batch_k: 21,
        target_k: 18,
        equivalents: vec![],
        expose: vec![],
        absorb: vec![],
        is_final: true,
    };
    assert_eq!(final_batch.get_agg_instance_size(), 1);
}

#[test]
fn continuation_too_few_proofs() {
    assert_eq!(
        plan_continuation("test", 2, 18, 21, 2).unwrap_err(),
        BatchError::PreconditionViolation
    );
    assert_eq!(
        plan_continuation("test", 0, 18, 21, 2).unwrap_err(),
        BatchError::PreconditionViolation
    );
    assert!(plan_continuation("test", 3, 18, 21, 2).is_ok());
}

#[test]
fn group_validation() {
    let a = ProofGenerationInfo::new("a", 18, HashType::Poseidon);
    let b = ProofGenerationInfo::new("b", 18, HashType::Poseidon);
    assert_eq!(validate_groups(&vec![a, b]).unwrap(), 18);
    let a = ProofGenerationInfo::new("a", 18, HashType::Poseidon);
    let b = ProofGenerationInfo::new("b", 19, HashType::Poseidon);
    assert_eq!(
        validate_groups(&vec![a, b]).unwrap_err(),
        BatchError::PreconditionViolation
    );
    let a = ProofGenerationInfo::new("a", 18, HashType::Sha);
    assert_eq!(
        validate_groups(&vec![a]).unwrap_err(),
        BatchError::PreconditionViolation
    );
    assert_eq!(
        validate_groups(&Vec::new()).unwrap_err(),
        BatchError::PreconditionViolation
    );
}

#[test]
fn single_batch_accumulator_choice() {
    let b = single_batch_info(vec![plain_proof(18), plain_proof(18)], 18, 21, Accumulator::UseHash);
    assert!(b.is_final);
    assert_eq!(b.proofs.len(), 2);
    assert_eq!(b.target_k, 18);
    assert_eq!(b.batch_k, 21);
    assert!(b.equivalents.is_empty() && b.expose.is_empty() && b.absorb.is_empty());
    let b = single_batch_info(vec![plain_proof(18)], 18, 21, Accumulator::UseCommitment);
    assert!(!b.is_final);
}

#[test]
fn round_batch_shapes() {
    let start = round_batch_info(plain_proof(18), None, 18, 18, false);
    assert_eq!(start.proofs.len(), 1);
    assert!(!start.is_final);
    let agg = plain_proof(18);
    let rec = round_batch_info(plain_proof(18), Some(agg), 18, 18, false);
    assert_eq!(rec.proofs.len(), 2);
    let fin = round_batch_info(plain_proof(18), Some(plain_proof(18)), 18, 21, true);
    assert!(fin.is_final);
    assert_eq!(fin.batch_k, 21);
}

#[test]
fn proofs_consumed_in_reverse() {
    let v: Vec<u32> = vec![1, 2, 3, 4];
    assert_eq!(reverse_vec(v), vec![4, 3, 2, 1]);
    let empty: Vec<u32> = Vec::new();
    assert_eq!(reverse_vec(empty), Vec::<u32>::new());
}
