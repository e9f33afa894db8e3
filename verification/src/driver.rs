use vstd::prelude::*;

use crate::batch::{pview, BatchInfo, ProofInfo};
use crate::errors::BatchError;
use crate::merkle::pow2;
use crate::proofinfo::{spec_decimal, push_decimal, ProofGenerationInfo};
use crate::types::{Accumulator, HashType};

verus! {

/// The three phases of a continuation chain.
#[derive(Clone, Copy, Debug, PartialEq, Eq, Structural)]
pub enum RoundKind {
    Start,
    Recursive,
    Final,
}

/// Everything one continuation round fixes before any engine call: which
/// guest proof it consumes, how its artifacts are named, its circuit
/// sizes, which policy document applies, and how the previous round's
/// aggregate is carried in.
#[derive(Debug)]
pub struct RoundPlan {
    pub kind: RoundKind,
    pub round_index: usize,
    /// Index of the guest proof in the (already reversed) input list.
    pub guest_proof: usize,
    pub piece_name: String,
    pub piece_index: usize,
    pub batch_k: usize,
    pub target_k: usize,
    pub is_final: bool,
    pub use_select_chip: bool,
    /// Which of the three policy documents (start, recursive, final)
    /// this round resolves.
    pub commits_slot: usize,
    /// Whether the previous round's aggregate enters as input proof 1,
    /// carrying its first instance scalar on column 0.
    pub carry: bool,
    /// Instance-absorb edges tying this round's slot (0,0) to the
    /// previous aggregate's slot (1,1), present exactly when carrying.
    pub absorb_instance: Vec<(usize, usize, usize, usize)>,
}

/// The whole chain: one plan per round, and the Merkle chain that closes
/// it.
#[derive(Debug)]
pub struct ChainPlan {
    pub rounds: Vec<RoundPlan>,
    pub depth: usize,
    pub leaf_count: usize,
    pub record_count: usize,
    pub merkle_file: String,
}

/// Name of the Merkle record file: `"{name}.{leaves}.hashes"`.
pub open spec fn merkle_file_name(name: Seq<char>, leaves: nat) -> Seq<char> {
    name + "."@ + spec_decimal(leaves) + ".hashes"@
}

/// What the plan of round `i` out of `n` must say.
pub open spec fn round_ok(
    name: Seq<char>,
    n: usize,
    target_k: usize,
    batch_k: usize,
    rp: RoundPlan,
    i: int,
) -> bool {
    &&& rp.round_index == i
    &&& rp.guest_proof == i
    &&& rp.target_k == target_k
    &&& rp.use_select_chip
    &&& rp.carry == (i > 0)
    &&& rp.absorb_instance@ == if i > 0 {
        seq![(0usize, 0usize, 1usize, 1usize)]
    } else {
        Seq::<(usize, usize, usize, usize)>::empty()
    }
    &&& if i == 0 {
        rp.kind == RoundKind::Start && rp.piece_name@ == name + ".start"@ && rp.piece_index == 0
            && rp.batch_k == target_k && !rp.is_final && rp.commits_slot == 0
    } else if i < n - 1 {
        rp.kind == RoundKind::Recursive && rp.piece_name@ == name + ".rec"@ && rp.piece_index == i
            && rp.batch_k == target_k && !rp.is_final && rp.commits_slot == 1
    } else {
        rp.kind == RoundKind::Final && rp.piece_name@ == name + ".final"@ && rp.piece_index == 0
            && rp.batch_k == batch_k && rp.is_final && rp.commits_slot == 2
    }
}

/// Plans a whole continuation chain over `n_proofs` guest proofs at depth
/// `depth`: a Start round, `n_proofs - 2` Recursive rounds, one Final
/// round, and the `2^depth`-leaf Merkle chain closing it. Fails with
/// `PreconditionViolation` — before any engine call — if and only if
/// fewer than 3 proofs are supplied.
#[verifier::loop_isolation(false)]
pub fn plan_continuation(
    proof_name: &str,
    n_proofs: usize,
    target_k: usize,
    batch_k: usize,
    depth: usize,
) -> (r: Result<ChainPlan, BatchError>)
    requires
        2 * pow2(depth as nat) - 1 <= usize::MAX,
    ensures
        (r is Ok) == (n_proofs >= 3),
        r matches Err(e) ==> e == BatchError::PreconditionViolation,
        r matches Ok(p) ==> p.rounds@.len() == n_proofs && (forall|i: int|
            0 <= i < n_proofs ==> round_ok(
                proof_name@,
                n_proofs,
                target_k,
                batch_k,
                #[trigger] p.rounds@[i],
                i,
            )) && p.depth == depth && p.leaf_count as nat == pow2(depth as nat) && p.record_count
            as nat == 2 * pow2(depth as nat) - 1 && p.merkle_file@ == merkle_file_name(
            proof_name@,
            pow2(depth as nat),
        ),
{
    if n_proofs < 3 {
        return Err(BatchError::PreconditionViolation);
    }
    let mut rounds: Vec<RoundPlan> = Vec::new();
    let mut i: usize = 0;
    while i < n_proofs
        invariant
            i <= n_proofs,
            rounds@.len() == i,
            forall|j: int|
                0 <= j < i ==> round_ok(
                    proof_name@,
                    n_proofs,
                    target_k,
                    batch_k,
                    #[trigger] rounds@[j],
                    j,
                ),
        decreases n_proofs - i,
    {
        let mut absorb: Vec<(usize, usize, usize, usize)> = Vec::new();
        if i > 0 {
            absorb.push((0, 0, 1, 1));
            proof {
                assert(absorb@ =~= seq![(0usize, 0usize, 1usize, 1usize)]);
            }
        } else {
            proof {
                assert(absorb@ =~= Seq::<(usize, usize, usize, usize)>::empty());
            }
        }
        let rp = if i == 0 {
            let mut piece_name = String::from_str(proof_name);
            piece_name.append(".start");
            RoundPlan {
                kind: RoundKind::Start,
                round_index: i,
                guest_proof: i,
                piece_name,
                piece_index: 0,
                batch_k: target_k,
                target_k,
                is_final: false,
                use_select_chip: true,
                commits_slot: 0,
                carry: false,
                absorb_instance: absorb,
            }
        } else if i < n_proofs - 1 {
            let mut piece_name = String::from_str(proof_name);
            piece_name.append(".rec");
            RoundPlan {
                kind: RoundKind::Recursive,
                round_index: i,
                guest_proof: i,
                piece_name,
                piece_index: i,
                batch_k: target_k,
                target_k,
                is_final: false,
                use_select_chip: true,
                commits_slot: 1,
                carry: true,
                absorb_instance: absorb,
            }
        } else {
            let mut piece_name = String::from_str(proof_name);
            piece_name.append(".final");
            RoundPlan {
                kind: RoundKind::Final,
                round_index: i,
                guest_proof: i,
                piece_name,
                piece_index: 0,
                batch_k,
                target_k,
                is_final: true,
                use_select_chip: true,
                commits_slot: 2,
                carry: true,
                absorb_instance: absorb,
            }
        };
        rounds.push(rp);
        i = i + 1;
    }
    let leaf_count = crate::merkle::pow2_usize(depth);
    proof {
        crate::merkle::lemma_pow2_pos(depth as nat);
    }
    let record_count = leaf_count - 1 + leaf_count;
    let mut merkle_file = String::from_str(proof_name);
    merkle_file.append(".");
    push_decimal(&mut merkle_file, leaf_count);
    merkle_file.append(".hashes");
    proof {
        crate::merkle::lemma_pow2_pos(depth as nat);
        assert(merkle_file@ =~= merkle_file_name(proof_name@, pow2(depth as nat)));
    }
    Ok(ChainPlan { rounds, depth, leaf_count, record_count, merkle_file })
}

/// Checks that a set of loaded proof groups can enter one continuation
/// batch: every group carries a Poseidon transcript and all share one
/// circuit size, which is returned. Fails with `PreconditionViolation`
/// exactly when some group disagrees or no group was given.
#[verifier::loop_isolation(false)]
pub fn validate_groups(proofsinfo: &Vec<ProofGenerationInfo>) -> (r: Result<usize, BatchError>)
    ensures
        (r is Ok) == (proofsinfo@.len() > 0 && forall|j: int|
            0 <= j < proofsinfo@.len() ==> (#[trigger] proofsinfo@[j]).k == proofsinfo@[0].k
                && proofsinfo@[j].hashtype == HashType::Poseidon),
        r matches Ok(k) ==> k == proofsinfo@[0].k,
        r matches Err(e) ==> e == BatchError::PreconditionViolation,
{
    if proofsinfo.len() == 0 {
        return Err(BatchError::PreconditionViolation);
    }
    let k0 = proofsinfo[0].k;
    let mut j: usize = 0;
    while j < proofsinfo.len()
        invariant
            j <= proofsinfo@.len(),
            forall|i: int|
                0 <= i < j ==> (#[trigger] proofsinfo@[i]).k == k0 && proofsinfo@[i].hashtype
                    == HashType::Poseidon,
        decreases proofsinfo@.len() - j,
    {
        let ok = match proofsinfo[j].hashtype {
            HashType::Poseidon => true,
            _ => false,
        };
        if proofsinfo[j].k != k0 || !ok {
            return Err(BatchError::PreconditionViolation);
        }
        j = j + 1;
    }
    Ok(k0)
}

/// The batch of a stand-alone (non-continuation) run: it folds every
/// loaded proof at once, with an empty plan to be filled from the policy
/// document, and is terminal exactly when the accumulator folds the
/// public instances into a hash.
pub fn single_batch_info(
    proofs: Vec<ProofInfo>,
    target_k: usize,
    batch_k: usize,
    accumulator: Accumulator,
) -> (r: BatchInfo)
    ensures
        r@.proofs == pview(proofs@),
        r@.target_k == target_k,
        r@.batch_k == batch_k,
        r@.equivalents == Seq::<(usize, usize, usize, usize)>::empty(),
        r@.expose == Seq::<(usize, usize)>::empty(),
        r@.absorb == Seq::<((usize, usize, usize), (usize, usize))>::empty(),
        r@.is_final == (accumulator == Accumulator::UseHash),
{
    let r = BatchInfo {
        proofs,
        target_k,
        batch_k,
        equivalents: Vec::new(),
        expose: Vec::new(),
        absorb: Vec::new(),
        is_final: accumulator == Accumulator::UseHash,
    };
    proof {
        assert(r@.equivalents =~= Seq::<(usize, usize, usize, usize)>::empty());
        assert(r@.expose =~= Seq::<(usize, usize)>::empty());
        assert(r@.absorb =~= Seq::<((usize, usize, usize), (usize, usize))>::empty());
    }
    r
}

/// The batch of one continuation round: the guest proof, then — after the
/// Start round — the previous round's aggregate, with an empty plan.
pub fn round_batch_info(
    guest: ProofInfo,
    prev: Option<ProofInfo>,
    target_k: usize,
    batch_k: usize,
    is_final: bool,
) -> (r: BatchInfo)
    ensures
        r@.proofs == (match prev {
            Some(p) => seq![guest@, p@],
            None => seq![guest@],
        }),
        r@.target_k == target_k,
        r@.batch_k == batch_k,
        r@.equivalents == Seq::<(usize, usize, usize, usize)>::empty(),
        r@.expose == Seq::<(usize, usize)>::empty(),
        r@.absorb == Seq::<((usize, usize, usize), (usize, usize))>::empty(),
        r@.is_final == is_final,
{
    let mut proofs: Vec<ProofInfo> = Vec::new();
    let ghost gv = guest@;
    proofs.push(guest);
    match prev {
        Some(p) => {
            let ghost pv2 = p@;
            proofs.push(p);
            proof {
                assert(pview(proofs@) =~= seq![gv, pv2]);
            }
        },
        None => {
            proof {
                assert(pview(proofs@) =~= seq![gv]);
            }
        },
    }
    let r = BatchInfo {
        proofs,
        target_k,
        batch_k,
        equivalents: Vec::new(),
        expose: Vec::new(),
        absorb: Vec::new(),
        is_final,
    };
    proof {
        assert(r@.equivalents =~= Seq::<(usize, usize, usize, usize)>::empty());
        assert(r@.expose =~= Seq::<(usize, usize)>::empty());
        assert(r@.absorb =~= Seq::<((usize, usize, usize), (usize, usize))>::empty());
    }
    r
}

/// The input list, reversed: continuation processing consumes proofs in
/// the reverse of their loaded order.
pub fn reverse_vec<T>(v: Vec<T>) -> (r: Vec<T>)
    ensures
        r@ == v@.reverse(),
{
    let ghost v0 = v@;
    let mut v = v;
    let mut r: Vec<T> = Vec::new();
    while v.len() > 0
        invariant
            v@.len() <= v0.len(),
            v@ == v0.take(v@.len() as int),
            r@ == v0.skip(v@.len() as int).reverse(),
        decreases v@.len(),
    {
        let ghost l = v@.len() as int;
        let last = v.len() - 1;
        let x = v.remove(last);
        r.push(x);
        proof {
            assert(x == v0[l - 1]);
            assert(v0.take(l).remove(l - 1) =~= v0.take(l - 1));
            assert(v@ =~= v0.take(v@.len() as int));
            assert(r@ =~= v0.skip(l).reverse().push(v0[l - 1]));
            assert(v0.skip(l - 1).reverse() =~= v0.skip(l).reverse().push(v0[l - 1]));
            assert(r@ =~= v0.skip(l - 1).reverse());
        }
    }
    proof {
        assert(v0.skip(0).reverse() =~= v0.reverse());
    }
    r
}

} // verus!
