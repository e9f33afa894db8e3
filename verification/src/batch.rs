use vstd::prelude::*;

use crate::errors::BatchError;
use crate::proofinfo::{ProofGenerationInfo, ProofGenerationInfoView};
use crate::types::{HashType, OpenSchema};

verus! {

/// Symbolic handle into a named advice column of some proof: group name,
/// index within the group, column name.
#[derive(Clone, Debug)]
pub struct CommitmentName {
    pub name: String,
    pub proof_idx: usize,
    pub column_name: String,
}

pub struct CommitmentNameView {
    pub name: Seq<char>,
    pub proof_idx: usize,
    pub column_name: Seq<char>,
}

impl View for CommitmentName {
    type V = CommitmentNameView;

    open spec fn view(&self) -> CommitmentNameView {
        CommitmentNameView {
            name: self.name@,
            proof_idx: self.proof_idx,
            column_name: self.column_name@,
        }
    }
}

/// Symbolic handle into a 3-scalar-wide commitment group packed inside a
/// proof's public instances.
#[derive(Clone, Debug)]
pub struct CommitmentInInstance {
    pub name: String,
    pub proof_idx: usize,
    pub group_idx: usize,
}

pub struct CommitmentInInstanceView {
    pub name: Seq<char>,
    pub proof_idx: usize,
    pub group_idx: usize,
}

impl View for CommitmentInInstance {
    type V = CommitmentInInstanceView;

    open spec fn view(&self) -> CommitmentInInstanceView {
        CommitmentInInstanceView {
            name: self.name@,
            proof_idx: self.proof_idx,
            group_idx: self.group_idx,
        }
    }
}

/// Asserts that two named commitments are equal.
#[derive(Clone, Debug)]
pub struct CommitmentEquivPair {
    pub source: CommitmentName,
    pub target: CommitmentName,
}

pub struct CommitmentEquivPairView {
    pub source: CommitmentNameView,
    pub target: CommitmentNameView,
}

impl View for CommitmentEquivPair {
    type V = CommitmentEquivPairView;

    open spec fn view(&self) -> CommitmentEquivPairView {
        CommitmentEquivPairView { source: self.source@, target: self.target@ }
    }
}

/// Asserts that an instance-embedded commitment equals a named one.
#[derive(Clone, Debug)]
pub struct CommitmentAbsorb {
    pub instance_idx: CommitmentInInstance,
    pub target: CommitmentName,
}

pub struct CommitmentAbsorbView {
    pub instance_idx: CommitmentInInstanceView,
    pub target: CommitmentNameView,
}

impl View for CommitmentAbsorb {
    type V = CommitmentAbsorbView;

    open spec fn view(&self) -> CommitmentAbsorbView {
        CommitmentAbsorbView { instance_idx: self.instance_idx@, target: self.target@ }
    }
}

/// The commitment-equality policy loaded from a batch-script document.
#[derive(Clone, Debug)]
pub struct CommitmentCheck {
    pub equivalents: Vec<CommitmentEquivPair>,
    pub expose: Vec<CommitmentName>,
    pub absorb: Vec<CommitmentAbsorb>,
}

pub struct CommitmentCheckView {
    pub equivalents: Seq<CommitmentEquivPairView>,
    pub expose: Seq<CommitmentNameView>,
    pub absorb: Seq<CommitmentAbsorbView>,
}

impl View for CommitmentCheck {
    type V = CommitmentCheckView;

    open spec fn view(&self) -> CommitmentCheckView {
        CommitmentCheckView {
            equivalents: self.equivalents@.map_values(|p: CommitmentEquivPair| p@),
            expose: self.expose@.map_values(|p: CommitmentName| p@),
            absorb: self.absorb@.map_values(|p: CommitmentAbsorb| p@),
        }
    }
}

/// What one loaded proof contributes to batching, in plain values: the
/// named-advice table of its verifying key and the length of each of its
/// instance columns.
#[derive(Clone, Debug)]
pub struct ProofInfo {
    pub named_advices: Vec<(String, u32)>,
    pub instance_lens: Vec<usize>,
    pub k: usize,
    pub hashtype: HashType,
}

pub struct ProofInfoView {
    pub named_advices: Seq<(Seq<char>, u32)>,
    pub instance_lens: Seq<usize>,
    pub k: usize,
    pub hashtype: HashType,
}

impl View for ProofInfo {
    type V = ProofInfoView;

    open spec fn view(&self) -> ProofInfoView {
        ProofInfoView {
            named_advices: self.named_advices@.map_values(|p: (String, u32)| (p.0@, p.1)),
            instance_lens: self.instance_lens@,
            k: self.k,
            hashtype: self.hashtype,
        }
    }
}

/// Position of the first group with this name, or `-1`.
pub open spec fn first_group(groups: Seq<ProofGenerationInfoView>, name: Seq<char>) -> int
    decreases groups.len(),
{
    if groups.len() == 0 {
        -1
    } else if groups[0].name == name {
        0
    } else {
        let r = first_group(groups.skip(1), name);
        if r == -1 {
            -1
        } else {
            r + 1
        }
    }
}

/// Number of proofs held by the first `i` groups.
pub open spec fn prefix_len(groups: Seq<ProofGenerationInfoView>, i: int) -> nat
    decreases i,
{
    if i <= 0 {
        0
    } else {
        prefix_len(groups, i - 1) + groups[i - 1].proofs.len()
    }
}

/// Number of proofs over all groups.
pub open spec fn total_proofs(groups: Seq<ProofGenerationInfoView>) -> nat {
    prefix_len(groups, groups.len() as int)
}

pub proof fn lemma_first_group_props(groups: Seq<ProofGenerationInfoView>, name: Seq<char>)
    ensures
        first_group(groups, name) == -1 ==> forall|j: int|
            0 <= j < groups.len() ==> groups[j].name != name,
        first_group(groups, name) != -1 ==> {
            let i = first_group(groups, name);
            0 <= i < groups.len() && groups[i].name == name && forall|j: int|
                0 <= j < i ==> groups[j].name != name
        },
    decreases groups.len(),
{
    if groups.len() > 0 && groups[0].name != name {
        lemma_first_group_props(groups.skip(1), name);
        assert forall|j: int| 1 <= j < groups.len() implies groups[j].name == groups.skip(1)[j
            - 1].name by {}
    }
}

pub proof fn lemma_first_group_found(groups: Seq<ProofGenerationInfoView>, name: Seq<char>, i: int)
    requires
        0 <= i < groups.len(),
        groups[i].name == name,
        forall|j: int| 0 <= j < i ==> groups[j].name != name,
    ensures
        first_group(groups, name) == i,
    decreases groups.len(),
{
    if i > 0 {
        lemma_first_group_found(groups.skip(1), name, i - 1);
    }
}

pub proof fn lemma_prefix_len_mono(groups: Seq<ProofGenerationInfoView>, a: int, b: int)
    requires
        a <= b,
    ensures
        prefix_len(groups, a) <= prefix_len(groups, b),
    decreases b,
{
    if a < b && b > 0 {
        lemma_prefix_len_mono(groups, a, b - 1);
    }
}

/// Position of the first advice column with this name, or `-1`.
pub open spec fn advice_index(tbl: Seq<(Seq<char>, u32)>, col: Seq<char>) -> int
    decreases tbl.len(),
{
    if tbl.len() == 0 {
        -1
    } else if tbl[0].0 == col {
        0
    } else {
        let r = advice_index(tbl.skip(1), col);
        if r == -1 {
            -1
        } else {
            r + 1
        }
    }
}

pub proof fn lemma_advice_index_props(tbl: Seq<(Seq<char>, u32)>, col: Seq<char>)
    ensures
        advice_index(tbl, col) == -1 ==> forall|j: int| 0 <= j < tbl.len() ==> tbl[j].0 != col,
        advice_index(tbl, col) != -1 ==> {
            let i = advice_index(tbl, col);
            0 <= i < tbl.len() && tbl[i].0 == col && forall|j: int| 0 <= j < i ==> tbl[j].0 != col
        },
    decreases tbl.len(),
{
    if tbl.len() > 0 && tbl[0].0 != col {
        lemma_advice_index_props(tbl.skip(1), col);
        assert forall|j: int| 1 <= j < tbl.len() implies tbl[j].0 == tbl.skip(1)[j - 1].0 by {}
    }
}

pub proof fn lemma_advice_index_found(tbl: Seq<(Seq<char>, u32)>, col: Seq<char>, i: int)
    requires
        0 <= i < tbl.len(),
        tbl[i].0 == col,
        forall|j: int| 0 <= j < i ==> tbl[j].0 != col,
    ensures
        advice_index(tbl, col) == i,
    decreases tbl.len(),
{
    if i > 0 {
        lemma_advice_index_found(tbl.skip(1), col, i - 1);
    }
}

/// The global (proof index, column index) a symbolic commitment name
/// denotes, or `None` when the group, the proof slot, or the column name
/// has no match.
pub open spec fn spec_resolve(
    groups: Seq<ProofGenerationInfoView>,
    proofs: Seq<ProofInfoView>,
    cn: CommitmentNameView,
) -> Option<(nat, nat)> {
    let g = first_group(groups, cn.name);
    if g == -1 {
        None
    } else {
        let idx = (prefix_len(groups, g) + cn.proof_idx) as nat;
        if idx >= proofs.len() {
            None
        } else {
            let t = advice_index(proofs[idx as int].named_advices, cn.column_name);
            if t == -1 {
                None
            } else {
                Some((idx, proofs[idx as int].named_advices[t].1 as nat))
            }
        }
    }
}

/// The names of the groups, in order: what a failed lookup reports.
pub open spec fn group_names(groups: Seq<ProofGenerationInfoView>) -> Seq<Seq<char>> {
    Seq::new(groups.len(), |j: int| groups[j].name)
}

/// The instance slot a packed commitment group occupies:
/// `[global proof index, column 0, group_idx * 3 + 1]`, skipping one
/// leading instance slot; a name with no matching group denotes the
/// position after all groups, as the scan leaves it.
pub open spec fn spec_resolve_instance(
    groups: Seq<ProofGenerationInfoView>,
    ci: CommitmentInInstanceView,
) -> (nat, nat, nat) {
    let g = first_group(groups, ci.name);
    let idx = if g == -1 {
        total_proofs(groups)
    } else {
        (prefix_len(groups, g) + ci.proof_idx) as nat
    };
    (idx, 0, (ci.group_idx * 3 + 1) as nat)
}

/// The groups of a loaded batch, as mathematical values.
pub open spec fn gview(groups: Seq<ProofGenerationInfo>) -> Seq<ProofGenerationInfoView> {
    groups.map_values(|g: ProofGenerationInfo| g@)
}

fn find_group(proofsinfo: &Vec<ProofGenerationInfo>, name: &String) -> (r: Option<usize>)
    ensures
        match r {
            Some(i) => i < proofsinfo@.len() && first_group(gview(proofsinfo@), name@) == i,
            None => first_group(gview(proofsinfo@), name@) == -1,
        },
{
    let ghost groups = gview(proofsinfo@);
    let n = proofsinfo.len();
    let mut i: usize = 0;
    while i < n
        invariant
            i <= n,
            n == proofsinfo@.len(),
            groups == gview(proofsinfo@),
            forall|j: int| 0 <= j < i ==> groups[j].name != name@,
        decreases n - i,
    {
        if proofsinfo[i].name == *name {
            proof {
                lemma_first_group_found(groups, name@, i as int);
            }
            return Some(i);
        }
        i = i + 1;
    }
    proof {
        lemma_first_group_props(groups, name@);
        if first_group(groups, name@) != -1 {
            assert(groups[first_group(groups, name@)].name == name@);
        }
    }
    None
}

fn prefix_sum(proofsinfo: &Vec<ProofGenerationInfo>, upto: usize) -> (r: usize)
    requires
        upto <= proofsinfo@.len(),
        total_proofs(gview(proofsinfo@)) <= usize::MAX,
    ensures
        r == prefix_len(gview(proofsinfo@), upto as int),
{
    let ghost groups = gview(proofsinfo@);
    let mut acc: usize = 0;
    let mut j: usize = 0;
    while j < upto
        invariant
            j <= upto,
            upto <= proofsinfo@.len(),
            groups == gview(proofsinfo@),
            total_proofs(groups) <= usize::MAX,
            acc == prefix_len(groups, j as int),
        decreases upto - j,
    {
        proof {
            assert(groups[j as int].proofs.len() == proofsinfo@[j as int].proofs@.len());
            lemma_prefix_len_mono(groups, j as int + 1, groups.len() as int);
        }
        acc = acc + proofsinfo[j].proofs.len();
        j = j + 1;
    }
    acc
}

fn collect_group_names(proofsinfo: &Vec<ProofGenerationInfo>) -> (r: Vec<String>)
    ensures
        r@.map_values(|s: String| s@) == group_names(gview(proofsinfo@)),
{
    let ghost groups = gview(proofsinfo@);
    let n = proofsinfo.len();
    let mut r: Vec<String> = Vec::new();
    let mut i: usize = 0;
    while i < n
        invariant
            i <= n,
            n == proofsinfo@.len(),
            groups == gview(proofsinfo@),
            r@.map_values(|s: String| s@) == group_names(groups).take(i as int),
        decreases n - i,
    {
        let s = proofsinfo[i].name.clone();
        let ghost pre = r@;
        r.push(s);
        proof {
            assert(r@ == pre.push(s));
            assert(r@.map_values(|x: String| x@) =~= pre.map_values(|x: String| x@).push(s@));
            assert(s@ == groups[i as int].name);
            assert(group_names(groups).take(i as int + 1) =~= group_names(groups).take(
                i as int,
            ).push(groups[i as int].name));
            assert(r@.map_values(|x: String| x@) =~= group_names(groups).take(i as int + 1));
        }
        i = i + 1;
    }
    proof {
        assert(group_names(groups).take(n as int) =~= group_names(groups));
    }
    r
}

fn find_advice(proof: &ProofInfo, col: &String) -> (r: Option<usize>)
    ensures
        match r {
            Some(t) => t < proof@.named_advices.len() && advice_index(proof@.named_advices, col@)
                == t,
            None => advice_index(proof@.named_advices, col@) == -1,
        },
{
    let ghost tbl = proof@.named_advices;
    let n = proof.named_advices.len();
    let mut i: usize = 0;
    while i < n
        invariant
            i <= n,
            n == proof.named_advices@.len(),
            tbl == proof@.named_advices,
            forall|j: int| 0 <= j < i ==> tbl[j].0 != col@,
        decreases n - i,
    {
        if proof.named_advices[i].0 == *col {
            proof {
                lemma_advice_index_found(tbl, col@, i as int);
            }
            return Some(i);
        }
        i = i + 1;
    }
    proof {
        lemma_advice_index_props(tbl, col@);
        if advice_index(tbl, col@) != -1 {
            assert(tbl[advice_index(tbl, col@)].0 == col@);
        }
    }
    None
}

/// The carry threading one continuation round into the next: which input
/// proof holds the previous aggregate, the instance column read from it,
/// and the carried hash scalar in its serialized form.
#[derive(Clone, Debug)]
pub struct ContinuationCarry {
    pub proof_index: usize,
    pub column: usize,
    pub hash: Vec<u8>,
}

pub struct ContinuationCarryView {
    pub proof_index: usize,
    pub column: usize,
    pub hash: Seq<u8>,
}

impl View for ContinuationCarry {
    type V = ContinuationCarryView;

    open spec fn view(&self) -> ContinuationCarryView {
        ContinuationCarryView {
            proof_index: self.proof_index,
            column: self.column,
            hash: self.hash@,
        }
    }
}

/// One round's input to the proving engine's aggregate-circuit builder,
/// fully resolved into plain values.
#[derive(Debug)]
pub struct AggregatorConfig {
    pub hash: HashType,
    pub commitment_check: Vec<(usize, usize, usize, usize)>,
    pub expose: Vec<(usize, usize)>,
    pub absorb: Vec<((usize, usize, usize), (usize, usize))>,
    pub target_aggregator_constant_hash_instance_offset: Vec<ContinuationCarry>,
    pub target_proof_with_shplonk: Vec<usize>,
    pub target_proof_with_shplonk_as_default: bool,
    pub target_proof_max_instance: Vec<Vec<usize>>,
    pub is_final_aggregator: bool,
    pub prev_aggregator_skip_instance: Vec<(usize, usize)>,
    pub absorb_instance: Vec<(usize, usize, usize, usize)>,
    pub use_select_chip: bool,
}

/// One batch round: the proofs to fold, the resolved commitment plan, the
/// two circuit sizes, and whether this is the terminal round.
#[derive(Debug)]
pub struct BatchInfo {
    pub proofs: Vec<ProofInfo>,
    pub batch_k: usize,
    pub target_k: usize,
    pub equivalents: Vec<(usize, usize, usize, usize)>,
    pub expose: Vec<(usize, usize)>,
    pub absorb: Vec<((usize, usize, usize), (usize, usize))>,
    pub is_final: bool,
}

pub struct BatchInfoView {
    pub proofs: Seq<ProofInfoView>,
    pub batch_k: usize,
    pub target_k: usize,
    pub equivalents: Seq<(usize, usize, usize, usize)>,
    pub expose: Seq<(usize, usize)>,
    pub absorb: Seq<((usize, usize, usize), (usize, usize))>,
    pub is_final: bool,
}

impl View for BatchInfo {
    type V = BatchInfoView;

    open spec fn view(&self) -> BatchInfoView {
        BatchInfoView {
            proofs: self.proofs@.map_values(|p: ProofInfo| p@),
            batch_k: self.batch_k,
            target_k: self.target_k,
            equivalents: self.equivalents@,
            expose: self.expose@,
            absorb: self.absorb@,
            is_final: self.is_final,
        }
    }
}

impl BatchInfo {
    /// Number of public instances the aggregate circuit of this round
    /// exposes: one folded hash for a terminal round; otherwise three
    /// scalars per exposed commitment, one leading hash slot, and three
    /// scalars per input proof.
    pub fn get_agg_instance_size(&self) -> (r: usize)
        requires
            self@.expose.len() * 3 + 1 + self@.proofs.len() * 3 <= usize::MAX,
        ensures
            self@.is_final ==> r == 1,
            !self@.is_final ==> r == self@.expose.len() * 3 + 1 + self@.proofs.len() * 3,
    {
        if self.is_final {
            1
        } else {
            self.expose.len() * 3 + 1 + self.proofs.len() * 3
        }
    }

    /// Resolves a symbolic commitment name to its global
    /// (proof index, column index): the named group's offset plus the
    /// in-group index, and the column found in that proof's named-advice
    /// table. Fails with `LookupError` (listing the known group names)
    /// when the group or the column has no match, and with
    /// `PreconditionViolation` when the group's slot lies outside the
    /// loaded proofs.
    pub fn get_commitment_index(
        &self,
        proofsinfo: &Vec<ProofGenerationInfo>,
        cn: &CommitmentName,
    ) -> (r: Result<(usize, usize), BatchError>)
        requires
            total_proofs(gview(proofsinfo@)) + cn@.proof_idx <= usize::MAX,
        ensures
            ({
                let groups = gview(proofsinfo@);
                let proofs = self@.proofs;
                let res = spec_resolve(groups, proofs, cn@);
                let g = first_group(groups, cn.name@);
                match r {
                    Ok(p) => res == Some(((p.0 as nat), (p.1 as nat))),
                    Err(e) => res is None && match e {
                        BatchError::LookupError { name, known } => known@.map_values(
                            |s: String| s@,
                        ) == group_names(groups) && ((g == -1 && name@ == cn.name@) || (g >= 0
                            && prefix_len(groups, g) + cn.proof_idx < proofs.len() && name@
                            == cn.column_name@)),
                        BatchError::PreconditionViolation => g >= 0 && prefix_len(groups, g)
                            + cn.proof_idx >= proofs.len(),
                        _ => false,
                    },
                }
            }),
    {
        let ghost groups = gview(proofsinfo@);
        match find_group(proofsinfo, &cn.name) {
            None => Err(
                BatchError::LookupError {
                    name: cn.name.clone(),
                    known: collect_group_names(proofsinfo),
                },
            ),
            Some(g) => {
                proof {
                    lemma_prefix_len_mono(groups, g as int, groups.len() as int);
                }
                let off = prefix_sum(proofsinfo, g);
                let idx = off + cn.proof_idx;
                if idx >= self.proofs.len() {
                    Err(BatchError::PreconditionViolation)
                } else {
                    match find_advice(&self.proofs[idx], &cn.column_name) {
                        None => Err(
                            BatchError::LookupError {
                                name: cn.column_name.clone(),
                                known: collect_group_names(proofsinfo),
                            },
                        ),
                        Some(t) => {
                            let col = self.proofs[idx].named_advices[t].1;
                            Ok((idx, col as usize))
                        },
                    }
                }
            },
        }
    }

    /// Resolves an instance-embedded commitment reference to its slot
    /// `(global proof index, 0, group_idx * 3 + 1)`.
    pub fn get_instance_index(
        &self,
        proofsinfo: &Vec<ProofGenerationInfo>,
        ci: &CommitmentInInstance,
    ) -> (r: (usize, usize, usize))
        requires
            total_proofs(gview(proofsinfo@)) + ci@.proof_idx <= usize::MAX,
            ci@.group_idx * 3 + 1 <= usize::MAX,
        ensures
            ((r.0 as nat), (r.1 as nat), (r.2 as nat)) == spec_resolve_instance(
                gview(proofsinfo@),
                ci@,
            ),
    {
        let ghost groups = gview(proofsinfo@);
        let idx = match find_group(proofsinfo, &ci.name) {
            Some(g) => {
                proof {
                    lemma_prefix_len_mono(groups, g as int, groups.len() as int);
                }
                prefix_sum(proofsinfo, g) + ci.proof_idx
            },
            None => prefix_sum(proofsinfo, proofsinfo.len()),
        };
        (idx, 0, ci.group_idx * 3 + 1)
    }
}

/// Whether every name a policy document references resolves against
/// these groups and proofs.
pub open spec fn all_resolve(
    groups: Seq<ProofGenerationInfoView>,
    proofs: Seq<ProofInfoView>,
    commits: CommitmentCheckView,
) -> bool {
    (forall|j: int|
        0 <= j < commits.equivalents.len() ==> spec_resolve(
            groups,
            proofs,
            (#[trigger] commits.equivalents[j]).source,
        ) is Some && spec_resolve(groups, proofs, commits.equivalents[j].target) is Some)
        && (forall|j: int|
        0 <= j < commits.expose.len() ==> spec_resolve(
            groups,
            proofs,
            #[trigger] commits.expose[j],
        ) is Some) && (forall|j: int|
        0 <= j < commits.absorb.len() ==> spec_resolve(
            groups,
            proofs,
            (#[trigger] commits.absorb[j]).target,
        ) is Some)
}

/// The resolved equivalence quads, in document order.
pub open spec fn equiv_quads(
    groups: Seq<ProofGenerationInfoView>,
    proofs: Seq<ProofInfoView>,
    eqs: Seq<CommitmentEquivPairView>,
) -> Seq<(usize, usize, usize, usize)> {
    Seq::new(
        eqs.len(),
        |j: int|
            {
                let s = spec_resolve(groups, proofs, eqs[j].source).unwrap();
                let t = spec_resolve(groups, proofs, eqs[j].target).unwrap();
                ((s.0 as usize), (s.1 as usize), (t.0 as usize), (t.1 as usize))
            },
    )
}

/// The resolved expose pairs, in document order.
pub open spec fn expose_pairs(
    groups: Seq<ProofGenerationInfoView>,
    proofs: Seq<ProofInfoView>,
    exs: Seq<CommitmentNameView>,
) -> Seq<(usize, usize)> {
    Seq::new(
        exs.len(),
        |j: int|
            {
                let s = spec_resolve(groups, proofs, exs[j]).unwrap();
                ((s.0 as usize), (s.1 as usize))
            },
    )
}

/// The resolved absorb pairs, in document order.
pub open spec fn absorb_pairs(
    groups: Seq<ProofGenerationInfoView>,
    proofs: Seq<ProofInfoView>,
    abs: Seq<CommitmentAbsorbView>,
) -> Seq<((usize, usize, usize), (usize, usize))> {
    Seq::new(
        abs.len(),
        |j: int|
            {
                let s = spec_resolve_instance(groups, abs[j].instance_idx);
                let t = spec_resolve(groups, proofs, abs[j].target).unwrap();
                (((s.0 as usize), (s.1 as usize), (s.2 as usize)), ((t.0 as usize), (t.1 as usize)))
            },
    )
}

fn extend_vec<T: Copy>(dst: &mut Vec<T>, src: &Vec<T>)
    ensures
        final(dst)@ == old(dst)@ + src@,
{
    let mut i: usize = 0;
    while i < src.len()
        invariant
            i <= src@.len(),
            dst@ == old(dst)@ + src@.take(i as int),
        decreases src@.len() - i,
    {
        dst.push(src[i]);
        proof {
            assert(dst@ =~= old(dst)@ + src@.take(i as int + 1));
        }
        i = i + 1;
    }
    proof {
        assert(src@.take(src@.len() as int) =~= src@);
    }
}

impl BatchInfo {
    #[verifier::loop_isolation(false)]
    fn resolve_equivalents(
        &self,
        proofsinfo: &Vec<ProofGenerationInfo>,
        list: &Vec<CommitmentEquivPair>,
    ) -> (r: Result<Vec<(usize, usize, usize, usize)>, BatchError>)
        requires
            forall|j: int|
                0 <= j < list@.len() ==> total_proofs(gview(proofsinfo@)) + (#[trigger] list@[j])@.source.proof_idx
                    <= usize::MAX && total_proofs(gview(proofsinfo@)) + list@[j]@.target.proof_idx
                    <= usize::MAX,
        ensures
            ({
                let groups = gview(proofsinfo@);
                let proofs = self@.proofs;
                let lv = list@.map_values(|p: CommitmentEquivPair| p@);
                (r is Ok) == (forall|j: int|
                    0 <= j < lv.len() ==> spec_resolve(groups, proofs, (#[trigger] lv[j]).source) is Some
                        && spec_resolve(groups, proofs, lv[j].target) is Some) && (r matches Ok(v)
                    ==> v@ == equiv_quads(groups, proofs, lv))
            }),
    {
        let ghost groups = gview(proofsinfo@);
        let ghost proofs = self@.proofs;
        let ghost lv = list@.map_values(|p: CommitmentEquivPair| p@);
        let mut out: Vec<(usize, usize, usize, usize)> = Vec::new();
        let mut j: usize = 0;
        while j < list.len()
            invariant
                j <= lv.len(),
                out@ == equiv_quads(groups, proofs, lv.take(j as int)),
                forall|i: int|
                    0 <= i < j ==> spec_resolve(groups, proofs, (#[trigger] lv[i]).source) is Some
                        && spec_resolve(groups, proofs, lv[i].target) is Some,
            decreases lv.len() - j,
        {
            proof {
                assert(lv[j as int] == list@[j as int]@);
            }
            let s = match self.get_commitment_index(proofsinfo, &list[j].source) {
                Ok(v) => v,
                Err(e) => {
                    proof {
                        assert(spec_resolve(groups, proofs, lv[j as int].source) is None);
                    }
                    return Err(e);
                },
            };
            let t = match self.get_commitment_index(proofsinfo, &list[j].target) {
                Ok(v) => v,
                Err(e) => {
                    proof {
                        assert(spec_resolve(groups, proofs, lv[j as int].target) is None);
                    }
                    return Err(e);
                },
            };
            out.push((s.0, s.1, t.0, t.1));
            proof {
                assert(out@ =~= equiv_quads(groups, proofs, lv.take(j as int + 1)));
            }
            j = j + 1;
        }
        proof {
            assert(lv.take(lv.len() as int) =~= lv);
        }
        Ok(out)
    }

    #[verifier::loop_isolation(false)]
    fn resolve_expose(
        &self,
        proofsinfo: &Vec<ProofGenerationInfo>,
        list: &Vec<CommitmentName>,
    ) -> (r: Result<Vec<(usize, usize)>, BatchError>)
        requires
            forall|j: int|
                0 <= j < list@.len() ==> total_proofs(gview(proofsinfo@)) + (#[trigger] list@[j])@.proof_idx
                    <= usize::MAX,
        ensures
            ({
                let groups = gview(proofsinfo@);
                let proofs = self@.proofs;
                let lv = list@.map_values(|p: CommitmentName| p@);
                (r is Ok) == (forall|j: int|
                    0 <= j < lv.len() ==> spec_resolve(groups, proofs, #[trigger] lv[j]) is Some)
                    && (r matches Ok(v) ==> v@ == expose_pairs(groups, proofs, lv))
            }),
    {
        let ghost groups = gview(proofsinfo@);
        let ghost proofs = self@.proofs;
        let ghost lv = list@.map_values(|p: CommitmentName| p@);
        let mut out: Vec<(usize, usize)> = Vec::new();
        let mut j: usize = 0;
        while j < list.len()
            invariant
                j <= lv.len(),
                out@ == expose_pairs(groups, proofs, lv.take(j as int)),
                forall|i: int|
                    0 <= i < j ==> spec_resolve(groups, proofs, #[trigger] lv[i]) is Some,
            decreases lv.len() - j,
        {
            proof {
                assert(lv[j as int] == list@[j as int]@);
            }
            let s = match self.get_commitment_index(proofsinfo, &list[j]) {
                Ok(v) => v,
                Err(e) => {
                    proof {
                        assert(spec_resolve(groups, proofs, lv[j as int]) is None);
                    }
                    return Err(e);
                },
            };
            out.push((s.0, s.1));
            proof {
                assert(out@ =~= expose_pairs(groups, proofs, lv.take(j as int + 1)));
            }
            j = j + 1;
        }
        proof {
            assert(lv.take(lv.len() as int) =~= lv);
        }
        Ok(out)
    }

    #[verifier::loop_isolation(false)]
    fn resolve_absorb(
        &self,
        proofsinfo: &Vec<ProofGenerationInfo>,
        list: &Vec<CommitmentAbsorb>,
    ) -> (r: Result<Vec<((usize, usize, usize), (usize, usize))>, BatchError>)
        requires
            forall|j: int|
                0 <= j < list@.len() ==> total_proofs(gview(proofsinfo@)) + (#[trigger] list@[j])@.target.proof_idx
                    <= usize::MAX && total_proofs(gview(proofsinfo@))
                    + list@[j]@.instance_idx.proof_idx <= usize::MAX
                    && list@[j]@.instance_idx.group_idx * 3 + 1 <= usize::MAX,
        ensures
            ({
                let groups = gview(proofsinfo@);
                let proofs = self@.proofs;
                let lv = list@.map_values(|p: CommitmentAbsorb| p@);
                (r is Ok) == (forall|j: int|
                    0 <= j < lv.len() ==> spec_resolve(groups, proofs, (#[trigger] lv[j]).target) is Some)
                    && (r matches Ok(v) ==> v@ == absorb_pairs(groups, proofs, lv))
            }),
    {
        let ghost groups = gview(proofsinfo@);
        let ghost proofs = self@.proofs;
        let ghost lv = list@.map_values(|p: CommitmentAbsorb| p@);
        let mut out: Vec<((usize, usize, usize), (usize, usize))> = Vec::new();
        let mut j: usize = 0;
        while j < list.len()
            invariant
                j <= lv.len(),
                out@ == absorb_pairs(groups, proofs, lv.take(j as int)),
                forall|i: int|
                    0 <= i < j ==> spec_resolve(groups, proofs, (#[trigger] lv[i]).target) is Some,
            decreases lv.len() - j,
        {
            proof {
                assert(lv[j as int] == list@[j as int]@);
            }
            let s = self.get_instance_index(proofsinfo, &list[j].instance_idx);
            let t = match self.get_commitment_index(proofsinfo, &list[j].target) {
                Ok(v) => v,
                Err(e) => {
                    proof {
                        assert(spec_resolve(groups, proofs, lv[j as int].target) is None);
                    }
                    return Err(e);
                },
            };
            out.push(((s.0, s.1, s.2), (t.0, t.1)));
            proof {
                assert(out@ =~= absorb_pairs(groups, proofs, lv.take(j as int + 1)));
            }
            j = j + 1;
        }
        proof {
            assert(lv.take(lv.len() as int) =~= lv);
        }
        Ok(out)
    }

    /// Resolves all three lists of a policy document and appends the
    /// concrete index plan to this batch: equivalence quads, expose
    /// pairs, and absorb pairs, in document order. Succeeds if and only
    /// if every referenced name resolves; on failure the batch is
    /// unchanged and the first offending name's error is returned.
    pub fn load_commitments_check(
        &mut self,
        proofsinfo: &Vec<ProofGenerationInfo>,
        commits: &CommitmentCheck,
    ) -> (r: Result<(), BatchError>)
        requires
            forall|j: int|
                0 <= j < commits@.equivalents.len() ==> total_proofs(gview(proofsinfo@)) + (
                #[trigger] commits@.equivalents[j]).source.proof_idx <= usize::MAX && total_proofs(
                    gview(proofsinfo@),
                ) + commits@.equivalents[j].target.proof_idx <= usize::MAX,
            forall|j: int|
                0 <= j < commits@.expose.len() ==> total_proofs(gview(proofsinfo@)) + (
                #[trigger] commits@.expose[j]).proof_idx <= usize::MAX,
            forall|j: int|
                0 <= j < commits@.absorb.len() ==> total_proofs(gview(proofsinfo@)) + (
                #[trigger] commits@.absorb[j]).target.proof_idx <= usize::MAX && total_proofs(
                    gview(proofsinfo@),
                ) + commits@.absorb[j].instance_idx.proof_idx <= usize::MAX
                    && commits@.absorb[j].instance_idx.group_idx * 3 + 1 <= usize::MAX,
        ensures
            (r is Ok) == all_resolve(gview(proofsinfo@), old(self)@.proofs, commits@),
            r is Ok ==> final(self)@.equivalents == old(self)@.equivalents + equiv_quads(
                gview(proofsinfo@),
                old(self)@.proofs,
                commits@.equivalents,
            ) && final(self)@.expose == old(self)@.expose + expose_pairs(
                gview(proofsinfo@),
                old(self)@.proofs,
                commits@.expose,
            ) && final(self)@.absorb == old(self)@.absorb + absorb_pairs(
                gview(proofsinfo@),
                old(self)@.proofs,
                commits@.absorb,
            ),
            r is Err ==> final(self)@ == old(self)@,
            final(self)@.proofs == old(self)@.proofs,
            final(self)@.batch_k == old(self)@.batch_k,
            final(self)@.target_k == old(self)@.target_k,
            final(self)@.is_final == old(self)@.is_final,
    {
        proof {
            assert forall|j: int| 0 <= j < commits.equivalents@.len() implies (
            #[trigger] commits.equivalents@[j])@ == commits@.equivalents[j] by {
                assert(commits@.equivalents[j] == commits.equivalents@.map_values(
                    |p: CommitmentEquivPair| p@,
                )[j]);
            }
            assert forall|j: int| 0 <= j < commits.expose@.len() implies (
            #[trigger] commits.expose@[j])@ == commits@.expose[j] by {
                assert(commits@.expose[j] == commits.expose@.map_values(
                    |p: CommitmentName| p@,
                )[j]);
            }
            assert forall|j: int| 0 <= j < commits.absorb@.len() implies (
            #[trigger] commits.absorb@[j])@ == commits@.absorb[j] by {
                assert(commits@.absorb[j] == commits.absorb@.map_values(
                    |p: CommitmentAbsorb| p@,
                )[j]);
            }
        }
        let eqv = match self.resolve_equivalents(proofsinfo, &commits.equivalents) {
            Ok(v) => v,
            Err(e) => {
                return Err(e);
            },
        };
        let exv = match self.resolve_expose(proofsinfo, &commits.expose) {
            Ok(v) => v,
            Err(e) => {
                return Err(e);
            },
        };
        let abv = match self.resolve_absorb(proofsinfo, &commits.absorb) {
            Ok(v) => v,
            Err(e) => {
                return Err(e);
            },
        };
        extend_vec(&mut self.equivalents, &eqv);
        extend_vec(&mut self.expose, &exv);
        extend_vec(&mut self.absorb, &abv);
        Ok(())
    }
}

pub open spec fn nat_max(a: nat, b: nat) -> nat {
    if a > b {
        a
    } else {
        b
    }
}

/// The largest element, zero when empty.
pub open spec fn seq_usize_max(s: Seq<usize>) -> nat
    decreases s.len(),
{
    if s.len() == 0 {
        0
    } else {
        nat_max(seq_usize_max(s.drop_last()), s.last() as nat)
    }
}

/// The proofs of a batch, as mathematical values.
pub open spec fn pview(proofs: Seq<ProofInfo>) -> Seq<ProofInfoView> {
    proofs.map_values(|p: ProofInfo| p@)
}

/// The largest instance-column length over all proofs.
pub open spec fn max_instance_len(proofs: Seq<ProofInfoView>) -> nat
    decreases proofs.len(),
{
    if proofs.len() == 0 {
        0
    } else {
        nat_max(max_instance_len(proofs.drop_last()), seq_usize_max(proofs.last().instance_lens))
    }
}

fn copy_vec<T: Copy>(v: &Vec<T>) -> (r: Vec<T>)
    ensures
        r@ == v@,
{
    let mut r: Vec<T> = Vec::new();
    extend_vec(&mut r, v);
    proof {
        assert(r@ =~= v@);
    }
    r
}

#[verifier::loop_isolation(false)]
fn max_instances(proofs: &Vec<ProofInfo>) -> (r: usize)
    ensures
        r as nat == max_instance_len(pview(proofs@)),
{
    let ghost pv = pview(proofs@);
    let mut m: usize = 0;
    let mut i: usize = 0;
    while i < proofs.len()
        invariant
            i <= pv.len(),
            m as nat == max_instance_len(pv.take(i as int)),
        decreases pv.len() - i,
    {
        let lens = &proofs[i].instance_lens;
        let mut l: usize = 0;
        while l < lens.len()
            invariant
                l <= lens@.len(),
                m as nat == nat_max(
                    max_instance_len(pv.take(i as int)),
                    seq_usize_max(lens@.take(l as int)),
                ),
            decreases lens@.len() - l,
        {
            let v = lens[l];
            if v > m {
                m = v;
            }
            proof {
                assert(lens@.take(l as int + 1).drop_last() =~= lens@.take(l as int));
                assert(lens@.take(l as int + 1).last() == lens@[l as int]);
            }
            l = l + 1;
        }
        proof {
            assert(lens@.take(lens@.len() as int) =~= lens@);
            assert(pv.take(i as int + 1).drop_last() =~= pv.take(i as int));
            assert(pv.take(i as int + 1).last() == pv[i as int]);
            assert(pv[i as int].instance_lens == lens@);
        }
        i = i + 1;
    }
    proof {
        assert(pv.take(pv.len() as int) =~= pv);
    }
    m
}

impl BatchInfo {
    /// Assembles the engine configuration for this round from the resolved
    /// plan: the per-proof instance lengths (the carried aggregate proof,
    /// when present, overridden to a single exposed hash and marked to be
    /// absorbed rather than independently checked), the largest instance
    /// length the verifier must be sized for, and the round's flags. The
    /// config's transcript hash is always Poseidon.
    #[verifier::loop_isolation(false)]
    pub fn build_aggregate_config(
        &self,
        last_agg_info: &Option<ContinuationCarry>,
        use_select_chip: bool,
        open_schema: OpenSchema,
        absorb_instance: Vec<(usize, usize, usize, usize)>,
    ) -> (r: (AggregatorConfig, usize))
        requires
            exists|j: int|
                0 <= j < self@.proofs.len() && (#[trigger] self@.proofs[j]).instance_lens.len()
                    > 0,
            (*last_agg_info) matches Some(c) ==> c.proof_index < self@.proofs.len(),
        ensures
            r.1 as nat == max_instance_len(self@.proofs),
            r.0.hash == HashType::Poseidon,
            r.0.commitment_check@ == self@.equivalents,
            r.0.expose@ == self@.expose,
            r.0.absorb@ == self@.absorb,
            r.0.target_proof_with_shplonk@ == Seq::<usize>::empty(),
            r.0.target_proof_with_shplonk_as_default == (open_schema == OpenSchema::Shplonk),
            r.0.is_final_aggregator == self@.is_final,
            r.0.use_select_chip == use_select_chip,
            r.0.target_proof_max_instance@.map_values(|v: Vec<usize>| v@) == Seq::new(
                self@.proofs.len(),
                |j: int|
                    if (*last_agg_info) matches Some(c) && c.proof_index == j {
                        seq![1usize]
                    } else {
                        self@.proofs[j].instance_lens
                    },
            ),
            r.0.prev_aggregator_skip_instance@ == (match *last_agg_info {
                Some(c) => seq![(c.proof_index, 1usize)],
                None => Seq::<(usize, usize)>::empty(),
            }),
            r.0.absorb_instance@ == (match *last_agg_info {
                Some(c) => absorb_instance@,
                None => Seq::<(usize, usize, usize, usize)>::empty(),
            }),
            r.0.target_aggregator_constant_hash_instance_offset@.map_values(
                |c2: ContinuationCarry| c2@,
            ) == (match *last_agg_info {
                Some(c) => seq![c@],
                None => Seq::<ContinuationCarryView>::empty(),
            }),
    {
        let max_target_instances = max_instances(&self.proofs);
        let n = self.proofs.len();
        let mut tpmi: Vec<Vec<usize>> = Vec::new();
        let ghost goal = Seq::new(
            self@.proofs.len(),
            |j: int|
                if (*last_agg_info) matches Some(c) && c.proof_index == j {
                    seq![1usize]
                } else {
                    self@.proofs[j].instance_lens
                },
        );
        let mut j: usize = 0;
        while j < n
            invariant
                j <= n,
                tpmi@.map_values(|v: Vec<usize>| v@) == goal.take(j as int),
            decreases n - j,
        {
            let is_carry = match last_agg_info {
                Some(c) => c.proof_index == j,
                None => false,
            };
            let ghost pre = tpmi@;
            if is_carry {
                let mut one: Vec<usize> = Vec::new();
                one.push(1usize);
                proof {
                    assert(one@ =~= seq![1usize]);
                }
                tpmi.push(one);
            } else {
                tpmi.push(copy_vec(&self.proofs[j].instance_lens));
            }
            proof {
                let m = tpmi@.map_values(|v: Vec<usize>| v@);
                let pm = pre.map_values(|v: Vec<usize>| v@);
                assert(m =~= pm.push(tpmi@[j as int]@));
                if is_carry {
                    assert(tpmi@[j as int]@ =~= seq![1usize]);
                    assert(goal[j as int] == seq![1usize]);
                } else {
                    assert(self@.proofs[j as int] == self.proofs@[j as int]@);
                    assert(tpmi@[j as int]@ == self@.proofs[j as int].instance_lens);
                    assert(goal[j as int] == self@.proofs[j as int].instance_lens);
                }
                assert(m =~= goal.take(j as int + 1));
            }
            j = j + 1;
        }
        proof {
            assert(goal.take(goal.len() as int) =~= goal);
        }
        let mut skip_v: Vec<(usize, usize)> = Vec::new();
        let mut carry_v: Vec<ContinuationCarry> = Vec::new();
        let mut absorb_v: Vec<(usize, usize, usize, usize)> = Vec::new();
        match last_agg_info {
            Some(c) => {
                skip_v.push((c.proof_index, 1));
                carry_v.push(
                    ContinuationCarry {
                        proof_index: c.proof_index,
                        column: c.column,
                        hash: copy_vec(&c.hash),
                    },
                );
                absorb_v = absorb_instance;
            },
            None => {},
        }
        proof {
            match last_agg_info {
                Some(c) => {
                    assert(skip_v@ =~= seq![(c.proof_index, 1usize)]);
                    assert(carry_v@.map_values(|c2: ContinuationCarry| c2@) =~= seq![c@]);
                },
                None => {
                    assert(skip_v@ =~= Seq::<(usize, usize)>::empty());
                    assert(carry_v@.map_values(|c2: ContinuationCarry| c2@) =~= Seq::<
                        ContinuationCarryView,
                    >::empty());
                    assert(absorb_v@ =~= Seq::<(usize, usize, usize, usize)>::empty());
                },
            }
        }
        let config = AggregatorConfig {
            hash: HashType::Poseidon,
            commitment_check: copy_vec(&self.equivalents),
            expose: copy_vec(&self.expose),
            absorb: copy_vec(&self.absorb),
            target_aggregator_constant_hash_instance_offset: carry_v,
            target_proof_with_shplonk: Vec::new(),
            target_proof_with_shplonk_as_default: open_schema == OpenSchema::Shplonk,
            target_proof_max_instance: tpmi,
            is_final_aggregator: self.is_final,
            prev_aggregator_skip_instance: skip_v,
            absorb_instance: absorb_v,
            use_select_chip,
        };
        (config, max_target_instances)
    }
}

/// Law: resolution is deterministic and independent of group-list
/// ordering beyond the declared offsets. If two group lists both name the
/// group, and the proof slots they denote carry the same named-advice
/// table, then the same symbolic name resolves in both, to the same
/// column, and to global indices that differ exactly by the groups'
/// offsets.
pub proof fn lemma_resolve_offset_independent(
    g1: Seq<ProofGenerationInfoView>,
    p1: Seq<ProofInfoView>,
    g2: Seq<ProofGenerationInfoView>,
    p2: Seq<ProofInfoView>,
    cn: CommitmentNameView,
)
    requires
        first_group(g1, cn.name) >= 0,
        first_group(g2, cn.name) >= 0,
        prefix_len(g1, first_group(g1, cn.name)) + cn.proof_idx < p1.len(),
        prefix_len(g2, first_group(g2, cn.name)) + cn.proof_idx < p2.len(),
        p1[prefix_len(g1, first_group(g1, cn.name)) + cn.proof_idx].named_advices == p2[prefix_len(
            g2,
            first_group(g2, cn.name),
        ) + cn.proof_idx].named_advices,
    ensures
        ({
            let o1 = prefix_len(g1, first_group(g1, cn.name));
            let o2 = prefix_len(g2, first_group(g2, cn.name));
            let r1 = spec_resolve(g1, p1, cn);
            let r2 = spec_resolve(g2, p2, cn);
            (r1 is Some <==> r2 is Some) && (r1 is Some ==> r1.unwrap().0 == o1 + cn.proof_idx
                && r2.unwrap().0 == o2 + cn.proof_idx && r1.unwrap().1 == r2.unwrap().1)
        }),
{
}

} // verus!
