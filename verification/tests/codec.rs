use continuation_batcher::batch::{
    CommitmentAbsorb, CommitmentCheck, CommitmentEquivPair, CommitmentInInstance, CommitmentName,
};
use continuation_batcher::codec::read_u32;
use continuation_batcher::errors::BatchError;
use continuation_batcher::proofinfo::{ProofGenerationInfo, ProofPieceInfo};
use continuation_batcher::types::HashType;

#[test]
fn descriptor_round_trip() {
    let mut info = ProofGenerationInfo::new("test", 21, HashType::Poseidon);
    info.append_single_proof(ProofPieceInfo::new(String::from("test"), 0, 1, None));
    info.append_single_proof(ProofPieceInfo::new(
        String::from("test"),
        1,
        3,
        Some(String::from("pre")),
    ));
    let text = info.save().unwrap();
    let back = ProofGenerationInfo::load(&text).unwrap();
    assert_eq!(back.name, info.name);
    assert_eq!(back.k, info.k);
    assert_eq!(back.param, info.param);
    assert_eq!(back.hashtype, info.hashtype);
    assert_eq!(back.proofs.len(), 2);
    for (a, b) in back.proofs.iter().zip(info.proofs.iter()) {
        assert_eq!(a.circuit, b.circuit);
        assert_eq!(a.instance_size, b.instance_size);
        assert_eq!(a.witness, b.witness);
        assert_eq!(a.instance, b.instance);
        assert_eq!(a.transcript, b.transcript);
    }
}

#[test]
fn descriptor_document_text() {
    let mut info = ProofGenerationInfo::new("test", 21, HashType::Poseidon);
    info.append_single_proof(ProofPieceInfo::new(String::from("test"), 0, 1, None));
    let text = info.save().unwrap();
    let expected = "{\"proofs\":[{\"circuit\":\"test.circuit.data\",\"instance_size\":1,\"witness\":\"test.0.witness.data\",\"instance\":\"test.0.instance.data\",\"transcript\":\"test.0.transcript.data\"}],\"k\":21,\"param\":\"K21.params\",\"name\":\"test\",\"hashtype\":\"Poseidon\"}";
    assert_eq!(text, expected);
}

#[test]
fn descriptor_empty_group() {
    let info = ProofGenerationInfo::new("empty", 10, HashType::Keccak);
    let text = info.save().unwrap();
    assert_eq!(
        text,
        "{\"proofs\":[],\"k\":10,\"param\":\"K10.params\",\"name\":\"empty\",\"hashtype\":\"Keccak\"}"
    );
    let back = ProofGenerationInfo::load(&text).unwrap();
    assert_eq!(back.proofs.len(), 0);
    assert_eq!(back.hashtype, HashType::Keccak);
}

#[test]
fn descriptor_escaping() {
    let mut info = ProofGenerationInfo::new("a\"b\\c", 8, HashType::Sha);
    info.append_single_proof(ProofPieceInfo::new(String::from("x\"y"), 2, 5, None));
    let text = info.save().unwrap();
    let back = ProofGenerationInfo::load(&text).unwrap();
    assert_eq!(back.name, "a\"b\\c");
    assert_eq!(back.proofs[0].witness, "x\"y.2.witness.data");
}

#[test]
fn descriptor_rejects_control_chars() {
    let info = ProofGenerationInfo::new("bad\u{1}name", 8, HashType::Sha);
    assert_eq!(info.save().unwrap_err(), BatchError::ConfigError);
}

#[test]
fn descriptor_rejects_malformed() {
    assert_eq!(
        ProofGenerationInfo::load("{").unwrap_err(),
        BatchError::ConfigError
    );
    assert_eq!(
        ProofGenerationInfo::load("").unwrap_err(),
        BatchError::ConfigError
    );
    let info = ProofGenerationInfo::new("t", 8, HashType::Sha);
    let mut text = info.save().unwrap();
    text.push(' ');
    assert_eq!(
        ProofGenerationInfo::load(&text).unwrap_err(),
        BatchError::ConfigError
    );
}

#[test]
fn commitment_check_round_trip() {
    let check = CommitmentCheck {
        equivalents: vec![CommitmentEquivPair {
            source: CommitmentName {
                name: String::from("A"),
                proof_idx: 0,
                column_name: String::from("x"),
            },
            target: CommitmentName {
                name: String::from("B"),
                proof_idx: 1,
                column_name: String::from("y"),
            },
        }],
        expose: vec![CommitmentName {
            name: String::from("A"),
            proof_idx: 1,
            column_name: String::from("z"),
        }],
        absorb: vec![CommitmentAbsorb {
            instance_idx: CommitmentInInstance {
                name: String::from("B"),
                proof_idx: 2,
                group_idx: 3,
            },
            target: CommitmentName {
                name: String::from("A"),
                proof_idx: 0,
                column_name: String::from("w"),
            },
        }],
    };
    let text = check.save().unwrap();
    let back = CommitmentCheck::load(&text).unwrap();
    assert_eq!(back.equivalents.len(), 1);
    assert_eq!(back.equivalents[0].source.name, "A");
    assert_eq!(back.equivalents[0].source.proof_idx, 0);
    assert_eq!(back.equivalents[0].source.column_name, "x");
    assert_eq!(back.equivalents[0].target.name, "B");
    assert_eq!(back.expose.len(), 1);
    assert_eq!(back.expose[0].column_name, "z");
    assert_eq!(back.absorb.len(), 1);
    assert_eq!(back.absorb[0].instance_idx.group_idx, 3);
    assert_eq!(back.absorb[0].target.column_name, "w");
}

#[test]
fn commitment_check_document_text() {
    let check = CommitmentCheck {
        equivalents: vec![],
        expose: vec![],
        absorb: vec![],
    };
    let text = check.save().unwrap();
    assert_eq!(text, "{\"equivalents\":[],\"expose\":[],\"absorb\":[]}");
    let back = CommitmentCheck::load(&text).unwrap();
    assert!(back.equivalents.is_empty());
    assert!(back.expose.is_empty());
    assert!(back.absorb.is_empty());
}

#[test]
fn read_u32_le() {
    let data = vec![0x78u8, 0x56, 0x34, 0x12, 0xff];
    let (v, pos) = read_u32(&data, 0).unwrap();
    assert_eq!(v, 0x12345678);
    assert_eq!(pos, 4);
    assert_eq!(read_u32(&data, 2).unwrap_err(), BatchError::ConfigError);
}
