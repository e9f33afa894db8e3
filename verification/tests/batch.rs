use continuation_batcher::batch::{
    BatchInfo, CommitmentAbsorb, CommitmentCheck, CommitmentEquivPair, CommitmentInInstance,
    CommitmentName, ContinuationCarry, ProofInfo,
};
use continuation_batcher::errors::BatchError;
use continuation_batcher::proofinfo::{ProofGenerationInfo, ProofPieceInfo};
use continuation_batcher::types::{HashType, OpenSchema};

fn group(name: &str, n: usize, k: usize) -> ProofGenerationInfo {
    let mut g = ProofGenerationInfo::new(name, k, HashType::Poseidon);
    for i in 0..n {
        g.append_single_proof(ProofPieceInfo::new(name.to_string(), i, 1, None));
    }
    g
}

fn proof_with(cols: Vec<(&str, u32)>) -> ProofInfo {
    ProofInfo {
        named_advices: cols.into_iter().map(|(s, c)| (s.to_string(), c)).collect(),
        instance_lens: vec![1],
        k: 18,
        hashtype: HashType::Poseidon,
    }
}

fn five_proof_batch() -> BatchInfo {
    BatchInfo {
        proofs: vec![
            proof_with(vec![("x", 7)]),
            proof_with(vec![]),
            proof_with(vec![]),
            proof_with(vec![("y", 4)]),
            proof_with(vec![]),
        ],
        batch_k: 21,
        target_k: 18,
        equivalents: vec![],
        expose: vec![],
        absorb: vec![],
        is_final: false,
    }
}

#[test]
fn resolve_concrete_indices() {
    let groups = vec![group("A", 2, 18), group("B", 3, 18)];
    let mut batch = five_proof_batch();
    let src = CommitmentName {
        name: String::from("A"),
        proof_idx: 0,
        column_name: String::from("x"),
    };
    let tgt = CommitmentName {
        name: String::from("B"),
        proof_idx: 1,
        column_name: String::from("y"),
    };
    assert_eq!(batch.get_commitment_index(&groups, &src).unwrap(), (0, 7));
    assert_eq!(batch.get_commitment_index(&groups, &tgt).unwrap(), (3, 4));
    let check = CommitmentCheck {
        equivalents: vec![CommitmentEquivPair { source: src, target: tgt }],
        expose: vec![],
        absorb: vec![],
    };
    batch.load_commitments_check(&groups, &check).unwrap();
    assert_eq!(batch.equivalents, vec![(0, 7, 3, 4)]);
    assert!(batch.expose.is_empty());
    assert!(batch.absorb.is_empty());
}

#[test]
fn policy_document_to_plan() {
    let groups = vec![group("A", 2, 18), group("B", 3, 18)];
    let mut batch = five_proof_batch();
    let text = "{\"equivalents\":[{\"source\":{\"name\":\"A\",\"proof_idx\":0,\"column_name\":\"x\"},\"target\":{\"name\":\"B\",\"proof_idx\":1,\"column_name\":\"y\"}}],\"expose\":[],\"absorb\":[]}";
    let check = CommitmentCheck::load(text).unwrap();
    batch.load_commitments_check(&groups, &check).unwrap();
    assert_eq!(batch.equivalents, vec![(0, 7, 3, 4)]);
}

#[test]
fn resolve_unknown_group() {
    let groups = vec![group("A", 2, 18), group("B", 3, 18)];
    let batch = five_proof_batch();
    let cn = CommitmentName {
        name: String::from("C"),
        proof_idx: 0,
        column_name: String::from("x"),
    };
    match batch.get_commitment_index(&groups, &cn) {
        Err(BatchError::LookupError { name, known }) => {
            assert_eq!(name, "C");
            assert_eq!(known, vec![String::from("A"), String::from("B")]);
        }
        other => panic!("expected LookupError, got {:?}", other),
    }
}

#[test]
fn resolve_unknown_column() {
    let groups = vec![group("A", 2, 18), group("B", 3, 18)];
    let batch = five_proof_batch();
    let cn = CommitmentName {
        name: String::from("A"),
        proof_idx: 0,
        column_name: String::from("zz"),
    };
    match batch.get_commitment_index(&groups, &cn) {
        Err(BatchError::LookupError { name, known }) => {
            assert_eq!(name, "zz");
            assert_eq!(known.len(), 2);
        }
        other => panic!("expected LookupError, got {:?}", other),
    }
}

#[test]
fn resolve_out_of_range() {
    let groups = vec![group("A", 2, 18), group("B", 3, 18)];
    let batch = five_proof_batch();
    let cn = CommitmentName {
        name: String::from("B"),
        proof_idx: 9,
        column_name: String::from("y"),
    };
    assert_eq!(
        batch.get_commitment_index(&groups, &cn),
        Err(BatchError::PreconditionViolation)
    );
}

#[test]
fn instance_slot_layout() {
    let groups = vec![group("A", 2, 18), group("B", 3, 18)];
    let batch = five_proof_batch();
    let ci = CommitmentInInstance {
        name: String::from("B"),
        proof_idx: 1,
        group_idx: 2,
    };
    assert_eq!(batch.get_instance_index(&groups, &ci), (3, 0, 7));
}

#[test]
fn absorb_resolution() {
    let groups = vec![group("A", 2, 18), group("B", 3, 18)];
    let mut batch = five_proof_batch();
    let check = CommitmentCheck {
        equivalents: vec![],
        expose: vec![],
        absorb: vec![CommitmentAbsorb {
            instance_idx: CommitmentInInstance {
                name: String::from("A"),
                proof_idx: 1,
                group_idx: 0,
            },
            target: CommitmentName {
                name: String::from("B"),
                proof_idx: 1,
                column_name: String::from("y"),
            },
        }],
    };
    batch.load_commitments_check(&groups, &check).unwrap();
    assert_eq!(batch.absorb, vec![((1, 0, 1), (3, 4))]);
}

#[test]
fn agg_instance_size_formula() {
    let mut batch = five_proof_batch();
    batch.expose = vec![(0, 7), (3, 4)];
    assert_eq!(batch.get_agg_instance_size(), 2 * 3 + 1 + 5 * 3);
    batch.is_final = true;
    assert_eq!(batch.get_agg_instance_size(), 1);
}

#[test]
fn aggregate_config_assembly() {
    let batch = BatchInfo {
        proofs: vec![
            ProofInfo {
                named_advices: vec![],
                instance_lens: vec![3],
                k: 18,
                hashtype: HashType::Poseidon,
            },
            ProofInfo {
                named_advices: vec![],
                instance_lens: vec![2],
                k: 18,
                hashtype: HashType::Poseidon,
            },
        ],
        batch_k: 21,
        target_k: 18,
        equivalents: vec![(0, 1, 1, 2)],
        expose: vec![(0, 1)],
        absorb: vec![],
        is_final: false,
    };
    let carry = Some(ContinuationCarry {
        proof_index: 1,
        column: 0,
        hash: vec![0u8; 32],
    });
    let (config, max_instances) =
        batch.build_aggregate_config(&carry, true, OpenSchema::Shplonk, vec![(0, 0, 1, 1)]);
    assert_eq!(max_instances, 3);
    assert!(matches!(config.hash, HashType::Poseidon));
    assert_eq!(config.commitment_check, vec![(0, 1, 1, 2)]);
    assert_eq!(config.expose, vec![(0, 1)]);
    assert_eq!(config.target_proof_max_instance, vec![vec![3], vec![1]]);
    assert_eq!(config.prev_aggregator_skip_instance, vec![(1, 1)]);
    assert_eq!(config.absorb_instance, vec![(0, 0, 1, 1)]);
    assert!(config.target_proof_with_shplonk_as_default);
    assert!(config.use_select_chip);
    assert!(!config.is_final_aggregator);
    let (config2, _) = batch.build_aggregate_config(&None, false, OpenSchema::GWC, vec![]);
    assert_eq!(config2.target_proof_max_instance, vec![vec![3], vec![2]]);
    assert!(config2.prev_aggregator_skip_instance.is_empty());
    assert!(config2.absorb_instance.is_empty());
    assert!(!config2.target_proof_with_shplonk_as_default);
}
