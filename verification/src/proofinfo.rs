use vstd::prelude::*;

use crate::types::HashType;

verus! {

/// The decimal digit `d` as a character; meaningful for `d < 10`.
pub open spec fn spec_digit(d: nat) -> char {
    if d == 0 {
        '0'
    } else if d == 1 {
        '1'
    } else if d == 2 {
        '2'
    } else if d == 3 {
        '3'
    } else if d == 4 {
        '4'
    } else if d == 5 {
        '5'
    } else if d == 6 {
        '6'
    } else if d == 7 {
        '7'
    } else if d == 8 {
        '8'
    } else {
        '9'
    }
}

/// The usual decimal rendering of `n`, without leading zeros
/// (a single `'0'` for zero itself).
pub open spec fn spec_decimal(n: nat) -> Seq<char>
    decreases n,
{
    if n < 10 {
        seq![spec_digit(n)]
    } else {
        spec_decimal(n / 10).push(spec_digit(n % 10))
    }
}

fn digit_str(d: usize) -> (r: &'static str)
    requires
        d < 10,
    ensures
        r@ == seq![spec_digit(d as nat)],
{
    proof {
        reveal_strlit("0");
        reveal_strlit("1");
        reveal_strlit("2");
        reveal_strlit("3");
        reveal_strlit("4");
        reveal_strlit("5");
        reveal_strlit("6");
        reveal_strlit("7");
        reveal_strlit("8");
        reveal_strlit("9");
    }
    let r = if d == 0 {
        "0"
    } else if d == 1 {
        "1"
    } else if d == 2 {
        "2"
    } else if d == 3 {
        "3"
    } else if d == 4 {
        "4"
    } else if d == 5 {
        "5"
    } else if d == 6 {
        "6"
    } else if d == 7 {
        "7"
    } else if d == 8 {
        "8"
    } else {
        "9"
    };
    proof {
        assert(r@ =~= seq![spec_digit(d as nat)]);
    }
    r
}

/// Appends the decimal rendering of `m` to `s`.
pub fn push_decimal(s: &mut String, m: usize)
    ensures
        final(s)@ == old(s)@ + spec_decimal(m as nat),
    decreases m,
{
    if m >= 10 {
        push_decimal(s, m / 10);
        let d = m % 10;
        s.append(digit_str(d));
        proof {
            assert(final(s)@ =~= old(s)@ + spec_decimal(m as nat));
        }
    } else {
        s.append(digit_str(m));
        proof {
            assert(final(s)@ =~= old(s)@ + spec_decimal(m as nat));
        }
    }
}

/// The decimal rendering of `n` as an owned string.
pub fn usize_to_decimal(n: usize) -> (s: String)
    ensures
        s@ == spec_decimal(n as nat),
{
    let mut s = String::new();
    push_decimal(&mut s, n);
    proof {
        assert(s@ =~= spec_decimal(n as nat));
    }
    s
}

/// Name of the on-disk artifact holding one proof's file of the given kind:
/// `"{name}.{i}.{suffix}"` with `suffix` carrying its own leading dot.
pub open spec fn piece_file_name(name: Seq<char>, i: nat, suffix: Seq<char>) -> Seq<char> {
    name + "."@ + spec_decimal(i) + suffix
}

/// Name of the on-disk circuit artifact: `"{prefix}.circuit.data"`.
pub open spec fn circuit_file_name(prefix: Seq<char>) -> Seq<char> {
    prefix + ".circuit.data"@
}

/// Name of the setup-parameter artifact for circuit size `k`: `"K{k}.params"`.
pub open spec fn k_param_name(k: nat) -> Seq<char> {
    "K"@ + spec_decimal(k) + ".params"@
}

/// Mathematical image of a persisted proof-piece descriptor.
pub struct ProofPieceInfoView {
    pub circuit: Seq<char>,
    pub instance_size: u32,
    pub witness: Seq<char>,
    pub instance: Seq<char>,
    pub transcript: Seq<char>,
}

/// Descriptor of one persisted proof: the file names of its artifacts and
/// the size of its instance column.
#[derive(Clone, Debug)]
pub struct ProofPieceInfo {
    pub circuit: String,
    pub instance_size: u32,
    pub witness: String,
    pub instance: String,
    pub transcript: String,
}

impl View for ProofPieceInfo {
    type V = ProofPieceInfoView;

    open spec fn view(&self) -> ProofPieceInfoView {
        ProofPieceInfoView {
            circuit: self.circuit@,
            instance_size: self.instance_size,
            witness: self.witness@,
            instance: self.instance@,
            transcript: self.transcript@,
        }
    }
}

impl ProofPieceInfo {
    /// Builds the descriptor for proof `i` of task `name`, deriving every
    /// artifact file name by the fixed naming convention.
    pub fn new(name: String, i: usize, instance_size: u32, circuit_name_prefix: Option<
        String,
    >) -> (r: Self)
        ensures
            r.witness@ == piece_file_name(name@, i as nat, ".witness.data"@),
            r.instance@ == piece_file_name(name@, i as nat, ".instance.data"@),
            r.transcript@ == piece_file_name(name@, i as nat, ".transcript.data"@),
            r.circuit@ == circuit_file_name(
                match circuit_name_prefix {
                    Some(p) => p@,
                    None => name@,
                },
            ),
            r.instance_size == instance_size,
    {
        let circuit_prefix = match circuit_name_prefix {
            Some(p) => p,
            None => name.clone(),
        };
        let mut witness = name.clone();
        witness.append(".");
        push_decimal(&mut witness, i);
        witness.append(".witness.data");
        let mut instance = name.clone();
        instance.append(".");
        push_decimal(&mut instance, i);
        instance.append(".instance.data");
        let mut transcript = name.clone();
        transcript.append(".");
        push_decimal(&mut transcript, i);
        transcript.append(".transcript.data");
        let mut circuit = circuit_prefix;
        circuit.append(".circuit.data");
        ProofPieceInfo { circuit, instance_size, witness, instance, transcript }
    }

    /// A structurally identical copy whose contract, unlike the derived
    /// `Clone`, records that nothing changes.
    pub fn duplicate(&self) -> (r: Self)
        ensures
            r@ == self@,
    {
        ProofPieceInfo {
            circuit: self.circuit.clone(),
            instance_size: self.instance_size,
            witness: self.witness.clone(),
            instance: self.instance.clone(),
            transcript: self.transcript.clone(),
        }
    }
}

/// Mathematical image of a proof-group descriptor.
pub struct ProofGenerationInfoView {
    pub proofs: Seq<ProofPieceInfoView>,
    pub k: nat,
    pub param: Seq<char>,
    pub name: Seq<char>,
    pub hashtype: HashType,
}

/// A named, ordered group of proof descriptors sharing one circuit size `k`
/// and one transcript hash type.
#[derive(Clone, Debug)]
pub struct ProofGenerationInfo {
    pub proofs: Vec<ProofPieceInfo>,
    pub k: usize,
    pub param: String,
    pub name: String,
    pub hashtype: HashType,
}

impl View for ProofGenerationInfo {
    type V = ProofGenerationInfoView;

    open spec fn view(&self) -> ProofGenerationInfoView {
        ProofGenerationInfoView {
            proofs: self.proofs@.map_values(|p: ProofPieceInfo| p@),
            k: self.k as nat,
            param: self.param@,
            name: self.name@,
            hashtype: self.hashtype,
        }
    }
}

impl ProofGenerationInfo {
    /// An empty group for task `name` at circuit size `k`; its parameter
    /// file name is derived from `k`.
    pub fn new(name: &str, k: usize, hashtype: HashType) -> (r: Self)
        ensures
            r@.proofs == Seq::<ProofPieceInfoView>::empty(),
            r@.k == k as nat,
            r@.param == k_param_name(k as nat),
            r@.name == name@,
            r@.hashtype == hashtype,
    {
        let mut param = String::from_str("K");
        push_decimal(&mut param, k);
        param.append(".params");
        let r = ProofGenerationInfo {
            name: String::from_str(name),
            k,
            proofs: Vec::new(),
            param,
            hashtype,
        };
        proof {
            assert(r@.proofs =~= Seq::<ProofPieceInfoView>::empty());
            assert(r@.param =~= k_param_name(k as nat));
        }
        r
    }

    /// Appends one proof descriptor to the group.
    pub fn append_single_proof(&mut self, pi: ProofPieceInfo)
        ensures
            final(self)@.proofs == old(self)@.proofs.push(pi@),
            final(self)@.k == old(self)@.k,
            final(self)@.param == old(self)@.param,
            final(self)@.name == old(self)@.name,
            final(self)@.hashtype == old(self)@.hashtype,
    {
        self.proofs.push(pi);
        proof {
            assert(final(self)@.proofs =~= old(self)@.proofs.push(pi@));
        }
    }

    /// A single-proof group named `name` holding a copy of proof `i`,
    /// at this group's circuit size and hash type.
    pub fn get_single_info(&self, name: &str, i: usize) -> (r: Self)
        requires
            i < self.proofs.len(),
        ensures
            r@.proofs == seq![self@.proofs[i as int]],
            r@.k == self@.k,
            r@.param == k_param_name(self@.k),
            r@.name == name@,
            r@.hashtype == self@.hashtype,
    {
        let mut info = Self::new(name, self.k, self.hashtype);
        info.append_single_proof(self.proofs[i].duplicate());
        proof {
            assert(info@.proofs =~= seq![self@.proofs[i as int]]);
        }
        info
    }
}

} // verus!
