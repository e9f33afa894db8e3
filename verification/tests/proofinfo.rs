use continuation_batcher::proofinfo::{usize_to_decimal, ProofGenerationInfo, ProofPieceInfo};
use continuation_batcher::types::HashType;

#[test]
fn artifact_naming_convention() {
    let p = ProofPieceInfo::new(String::from("test_circuit"), 0, 1, None);
    assert_eq!(p.witness, "test_circuit.0.witness.data");
    assert_eq!(p.instance, "test_circuit.0.instance.data");
    assert_eq!(p.transcript, "test_circuit.0.transcript.data");
    assert_eq!(p.circuit, "test_circuit.circuit.data");
    assert_eq!(p.instance_size, 1);
    let q = ProofPieceInfo::new(String::from("name"), 42, 9, Some(String::from("other")));
    assert_eq!(q.witness, "name.42.witness.data");
    assert_eq!(q.circuit, "other.circuit.data");
    assert_eq!(q.instance_size, 9);
}

#[test]
fn group_descriptor_defaults() {
    let mut g = ProofGenerationInfo::new("abc", 22, HashType::Sha);
    assert_eq!(g.param, "K22.params");
    assert_eq!(g.name, "abc");
    assert_eq!(g.k, 22);
    assert!(g.proofs.is_empty());
    g.append_single_proof(ProofPieceInfo::new(String::from("abc"), 0, 1, None));
    g.append_single_proof(ProofPieceInfo::new(String::from("abc"), 1, 2, None));
    assert_eq!(g.proofs.len(), 2);
    let single = g.get_single_info("single", 1);
    assert_eq!(single.name, "single");
    assert_eq!(single.k, 22);
    assert_eq!(single.param, "K22.params");
    assert_eq!(single.proofs.len(), 1);
    assert_eq!(single.proofs[0].instance, "abc.1.instance.data");
    assert_eq!(single.proofs[0].instance_size, 2);
}

#[test]
fn decimal_rendering() {
    assert_eq!(usize_to_decimal(0), "0");
    assert_eq!(usize_to_decimal(7), "7");
    assert_eq!(usize_to_decimal(10), "10");
    assert_eq!(usize_to_decimal(105), "105");
    assert_eq!(usize_to_decimal(99999), "99999");
}
