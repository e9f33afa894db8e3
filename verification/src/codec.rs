use vstd::prelude::*;

use crate::batch::{
    CommitmentAbsorb, CommitmentAbsorbView, CommitmentCheck, CommitmentCheckView,
    CommitmentEquivPair, CommitmentEquivPairView, CommitmentInInstance, CommitmentInInstanceView,
    CommitmentName, CommitmentNameView,
};
use crate::errors::BatchError;
use crate::proofinfo::{
    spec_decimal, ProofGenerationInfo, ProofGenerationInfoView, ProofPieceInfo, ProofPieceInfoView,
};
use crate::types::HashType;

verus! {

/// A character a descriptor string may hold: anything but the control
/// range, which the document format cannot carry.
pub open spec fn ok_char(c: char) -> bool {
    c as u32 >= 32
}

/// Every character of the string is representable.
pub open spec fn ok_string(s: Seq<char>) -> bool {
    forall|i: int| 0 <= i < s.len() ==> ok_char(#[trigger] s[i])
}

/// How one character appears inside a quoted document string.
pub open spec fn esc_char(c: char) -> Seq<char> {
    if c == '"' {
        seq!['\\', '"']
    } else if c == '\\' {
        seq!['\\', '\\']
    } else {
        seq![c]
    }
}

/// The whole string, escaped.
pub open spec fn esc(s: Seq<char>) -> Seq<char>
    decreases s.len(),
{
    if s.len() == 0 {
        Seq::empty()
    } else {
        esc_char(s[0]) + esc(s.skip(1))
    }
}

pub proof fn lemma_esc_push(s: Seq<char>, c: char)
    ensures
        esc(s.push(c)) == esc(s) + esc_char(c),
    decreases s.len(),
{
    let sc = s.push(c);
    if s.len() == 0 {
        assert(sc.len() == 1 && sc[0] == c);
        assert(sc.skip(1) =~= Seq::<char>::empty());
        assert(esc(sc.skip(1)) == Seq::<char>::empty());
        assert(esc(sc) == esc_char(c) + esc(sc.skip(1)));
        assert(esc(sc) =~= esc(s) + esc_char(c));
    } else {
        assert(sc[0] == s[0]);
        assert(sc.skip(1) =~= s.skip(1).push(c));
        lemma_esc_push(s.skip(1), c);
        assert(esc(sc) == esc_char(sc[0]) + esc(sc.skip(1)));
        assert(esc(sc) =~= esc(s) + esc_char(c));
    }
}

/// A string as the document carries it: quoted and escaped.
pub open spec fn emit_string(s: Seq<char>) -> Seq<char> {
    seq!['"'] + esc(s) + seq!['"']
}

/// The document text of one hash-type tag.
pub open spec fn emit_hashtype(h: HashType) -> Seq<char> {
    match h {
        HashType::Poseidon => "\"Poseidon\""@,
        HashType::Sha => "\"Sha\""@,
        HashType::Keccak => "\"Keccak\""@,
    }
}

/// The document text of one proof-piece descriptor.
pub open spec fn emit_piece(p: ProofPieceInfoView) -> Seq<char> {
    "{\"circuit\":"@ + emit_string(p.circuit) + ",\"instance_size\":"@ + spec_decimal(
        p.instance_size as nat,
    ) + ",\"witness\":"@ + emit_string(p.witness) + ",\"instance\":"@ + emit_string(p.instance)
        + ",\"transcript\":"@ + emit_string(p.transcript) + "}"@
}

/// The comma-joined piece list, without its brackets.
pub open spec fn emit_pieces_inner(ps: Seq<ProofPieceInfoView>) -> Seq<char>
    decreases ps.len(),
{
    if ps.len() == 0 {
        Seq::empty()
    } else if ps.len() == 1 {
        emit_piece(ps[0])
    } else {
        emit_piece(ps[0]) + seq![','] + emit_pieces_inner(ps.skip(1))
    }
}

/// The document text of a whole proof-group descriptor.
pub open spec fn emit_info(v: ProofGenerationInfoView) -> Seq<char> {
    "{\"proofs\":["@ + emit_pieces_inner(v.proofs) + "],\"k\":"@ + spec_decimal(v.k)
        + ",\"param\":"@ + emit_string(v.param) + ",\"name\":"@ + emit_string(v.name)
        + ",\"hashtype\":"@ + emit_hashtype(v.hashtype) + "}"@
}

/// Whether a piece's strings can all be carried by the document format.
pub open spec fn piece_ok(p: ProofPieceInfoView) -> bool {
    ok_string(p.circuit) && ok_string(p.witness) && ok_string(p.instance) && ok_string(
        p.transcript,
    )
}

/// Whether a descriptor can be carried by the document format.
pub open spec fn info_ok(v: ProofGenerationInfoView) -> bool {
    ok_string(v.param) && ok_string(v.name) && forall|i: int|
        0 <= i < v.proofs.len() ==> piece_ok(#[trigger] v.proofs[i])
}

/// Appends a literal to the character buffer.
#[verifier::loop_isolation(false)]
fn push_lit(out: &mut Vec<char>, lit: &str)
    ensures
        final(out)@ == old(out)@ + lit@,
{
    let n = lit.unicode_len();
    let mut i: usize = 0;
    while i < n
        invariant
            i <= n,
            out@ == old(out)@ + lit@.take(i as int),
        decreases n - i,
    {
        out.push(lit.get_char(i));
        proof {
            assert(out@ =~= old(out)@ + lit@.take(i as int + 1));
        }
        i = i + 1;
    }
    proof {
        assert(lit@.take(n as int) =~= lit@);
    }
}

/// Appends a string in its quoted, escaped document form; fails exactly
/// when the string holds a control character.
#[verifier::loop_isolation(false)]
fn push_string(out: &mut Vec<char>, s: &String) -> (r: Result<(), BatchError>)
    ensures
        (r is Ok) == ok_string(s@),
        r is Ok ==> final(out)@ == old(out)@ + emit_string(s@),
        r is Err ==> final(out)@ == old(out)@,
        r matches Err(e) ==> e == BatchError::ConfigError,
{
    let ss = s.as_str();
    let n = ss.unicode_len();
    let mut buf: Vec<char> = Vec::new();
    buf.push('"');
    let mut i: usize = 0;
    while i < n
        invariant
            i <= n,
            buf@ == seq!['"'] + esc(s@.take(i as int)),
            forall|j: int| 0 <= j < i ==> ok_char(#[trigger] s@[j]),
        decreases n - i,
    {
        let c = ss.get_char(i);
        let code = c as u32;
        if code < 32 {
            proof {
                assert(!ok_char(s@[i as int]));
            }
            return Err(BatchError::ConfigError);
        }
        if c == '"' {
            buf.push('\\');
            buf.push('"');
        } else if c == '\\' {
            buf.push('\\');
            buf.push('\\');
        } else {
            buf.push(c);
        }
        proof {
            lemma_esc_push(s@.take(i as int), c);
            assert(s@.take(i as int + 1) =~= s@.take(i as int).push(c));
            assert(buf@ =~= seq!['"'] + esc(s@.take(i as int + 1)));
        }
        i = i + 1;
    }
    buf.push('"');
    proof {
        assert(s@.take(n as int) =~= s@);
        assert(buf@ =~= emit_string(s@));
    }
    let ghost pre = out@;
    let mut j: usize = 0;
    while j < buf.len()
        invariant
            j <= buf@.len(),
            out@ == pre + buf@.take(j as int),
        decreases buf@.len() - j,
    {
        out.push(buf[j]);
        proof {
            assert(out@ =~= pre + buf@.take(j as int + 1));
        }
        j = j + 1;
    }
    proof {
        assert(buf@.take(buf@.len() as int) =~= buf@);
    }
    Ok(())
}

/// Appends the decimal rendering of `m`.
fn push_decimal_chars(out: &mut Vec<char>, m: usize)
    ensures
        final(out)@ == old(out)@ + spec_decimal(m as nat),
    decreases m,
{
    if m >= 10 {
        push_decimal_chars(out, m / 10);
    }
    let d = m % 10;
    let c = if d == 0 {
        '0'
    } else if d == 1 {
        '1'
    } else if d == 2 {
        '2'
    } else if d == 3 {
        '3'
    } else if d == 4 {
        '4'
    } else if d == 5 {
        '5'
    } else if d == 6 {
        '6'
    } else if d == 7 {
        '7'
    } else if d == 8 {
        '8'
    } else {
        '9'
    };
    out.push(c);
    proof {
        assert(final(out)@ =~= old(out)@ + spec_decimal(m as nat));
    }
}

impl ProofPieceInfo {
    /// Renders this piece in its document form.
    fn emit(&self, out: &mut Vec<char>) -> (r: Result<(), BatchError>)
        ensures
            (r is Ok) == piece_ok(self@),
            r is Ok ==> final(out)@ == old(out)@ + emit_piece(self@),
            r matches Err(e) ==> e == BatchError::ConfigError,
    {
        let ghost pre = out@;
        let mut buf: Vec<char> = Vec::new();
        push_lit(&mut buf, "{\"circuit\":");
        let r1 = push_string(&mut buf, &self.circuit);
        if r1.is_err() {
            return Err(BatchError::ConfigError);
        }
        push_lit(&mut buf, ",\"instance_size\":");
        push_decimal_chars(&mut buf, self.instance_size as usize);
        push_lit(&mut buf, ",\"witness\":");
        let r2 = push_string(&mut buf, &self.witness);
        if r2.is_err() {
            return Err(BatchError::ConfigError);
        }
        push_lit(&mut buf, ",\"instance\":");
        let r3 = push_string(&mut buf, &self.instance);
        if r3.is_err() {
            return Err(BatchError::ConfigError);
        }
        push_lit(&mut buf, ",\"transcript\":");
        let r4 = push_string(&mut buf, &self.transcript);
        if r4.is_err() {
            return Err(BatchError::ConfigError);
        }
        push_lit(&mut buf, "}");
        proof {
            assert(buf@ =~= emit_piece(self@));
        }
        let mut j: usize = 0;
        while j < buf.len()
            invariant
                j <= buf@.len(),
                out@ == pre + buf@.take(j as int),
                buf@ == emit_piece(self@),
                pre == old(out)@,
            decreases buf@.len() - j,
        {
            out.push(buf[j]);
            proof {
                assert(out@ =~= pre + buf@.take(j as int + 1));
            }
            j = j + 1;
        }
        proof {
            assert(buf@.take(buf@.len() as int) =~= buf@);
        }
        Ok(())
    }
}

/// Relies on String's `FromIterator` over characters: collecting yields
/// exactly these characters.
#[verifier::external_body]
fn string_from_chars(v: &Vec<char>) -> (s: String)
    ensures
        s@ == v@,
{
    v.iter().collect()
}

/// Relies on str::chars: iterating a string yields exactly its
/// characters.
#[verifier::external_body]
fn chars_of(s: &str) -> (v: Vec<char>)
    ensures
        v@ == s@,
{
    s.chars().collect()
}

pub proof fn lemma_pieces_inner_push(ps: Seq<ProofPieceInfoView>, p: ProofPieceInfoView)
    ensures
        emit_pieces_inner(ps.push(p)) == if ps.len() == 0 {
            emit_piece(p)
        } else {
            emit_pieces_inner(ps) + seq![','] + emit_piece(p)
        },
    decreases ps.len(),
{
    let sp = ps.push(p);
    if ps.len() == 0 {
        assert(sp.len() == 1 && sp[0] == p);
    } else if ps.len() == 1 {
        assert(sp.len() == 2 && sp[0] == ps[0]);
        assert(sp.skip(1) =~= seq![p]);
        assert(emit_pieces_inner(sp.skip(1)) == emit_piece(p));
        assert(emit_pieces_inner(sp) =~= emit_pieces_inner(ps) + seq![','] + emit_piece(p));
    } else {
        assert(sp[0] == ps[0]);
        assert(sp.skip(1) =~= ps.skip(1).push(p));
        lemma_pieces_inner_push(ps.skip(1), p);
        assert(emit_pieces_inner(sp) == emit_piece(sp[0]) + seq![','] + emit_pieces_inner(
            sp.skip(1),
        ));
        assert(emit_pieces_inner(sp) =~= emit_pieces_inner(ps) + seq![','] + emit_piece(p));
    }
}

impl ProofGenerationInfo {
    /// Renders this descriptor as its persisted document, one line of
    /// text; fails with `ConfigError` exactly when some string of it
    /// holds a control character the format cannot carry.
    #[verifier::loop_isolation(false)]
    pub fn save(&self) -> (r: Result<String, BatchError>)
        ensures
            (r is Ok) == info_ok(self@),
            r matches Ok(s) ==> s@ == emit_info(self@),
            r matches Err(e) ==> e == BatchError::ConfigError,
    {
        let mut buf: Vec<char> = Vec::new();
        push_lit(&mut buf, "{\"proofs\":[");
        let mut i: usize = 0;
        while i < self.proofs.len()
            invariant
                i <= self.proofs@.len(),
                buf@ == "{\"proofs\":["@ + emit_pieces_inner(self@.proofs.take(i as int)),
                forall|j: int| 0 <= j < i ==> piece_ok(#[trigger] self@.proofs[j]),
            decreases self.proofs@.len() - i,
        {
            if i > 0 {
                push_lit(&mut buf, ",");
            }
            let e = self.proofs[i].emit(&mut buf);
            proof {
                assert(self@.proofs[i as int] == self.proofs@[i as int]@);
            }
            if e.is_err() {
                proof {
                    assert(!piece_ok(self@.proofs[i as int]));
                }
                return Err(BatchError::ConfigError);
            }
            proof {
                reveal_strlit(",");
                assert(","@ =~= seq![',']);
                lemma_pieces_inner_push(self@.proofs.take(i as int), self@.proofs[i as int]);
                assert(self@.proofs.take(i as int + 1) =~= self@.proofs.take(i as int).push(
                    self@.proofs[i as int],
                ));
                assert(buf@ =~= "{\"proofs\":["@ + emit_pieces_inner(
                    self@.proofs.take(i as int + 1),
                ));
            }
            i = i + 1;
        }
        proof {
            assert(self@.proofs.take(self.proofs@.len() as int) =~= self@.proofs);
        }
        push_lit(&mut buf, "],\"k\":");
        push_decimal_chars(&mut buf, self.k);
        push_lit(&mut buf, ",\"param\":");
        let r1 = push_string(&mut buf, &self.param);
        if r1.is_err() {
            return Err(BatchError::ConfigError);
        }
        push_lit(&mut buf, ",\"name\":");
        let r2 = push_string(&mut buf, &self.name);
        if r2.is_err() {
            return Err(BatchError::ConfigError);
        }
        push_lit(&mut buf, ",\"hashtype\":");
        match self.hashtype {
            HashType::Poseidon => push_lit(&mut buf, "\"Poseidon\""),
            HashType::Sha => push_lit(&mut buf, "\"Sha\""),
            HashType::Keccak => push_lit(&mut buf, "\"Keccak\""),
        }
        push_lit(&mut buf, "}");
        proof {
            assert(buf@ =~= emit_info(self@));
        }
        Ok(string_from_chars(&buf))
    }
}

/// Consumes `lit` from the front, yielding the remainder.
pub open spec fn sp_lit(input: Seq<char>, lit: Seq<char>) -> Option<Seq<char>> {
    if lit.len() <= input.len() && input.take(lit.len() as int) == lit {
        Some(input.skip(lit.len() as int))
    } else {
        None
    }
}

/// Consumes an escaped string body up to its closing quote, yielding the
/// unescaped text and the remainder.
pub open spec fn sp_str_body(input: Seq<char>) -> Option<(Seq<char>, Seq<char>)>
    decreases input.len(),
{
    if input.len() == 0 {
        None
    } else if input[0] == '"' {
        Some((Seq::empty(), input.skip(1)))
    } else if input[0] == '\\' {
        if input.len() >= 2 && (input[1] == '"' || input[1] == '\\') {
            match sp_str_body(input.skip(2)) {
                Some(p) => Some((seq![input[1]] + p.0, p.1)),
                None => None,
            }
        } else {
            None
        }
    } else if ok_char(input[0]) {
        match sp_str_body(input.skip(1)) {
            Some(p) => Some((seq![input[0]] + p.0, p.1)),
            None => None,
        }
    } else {
        None
    }
}

/// Consumes a quoted, escaped string.
pub open spec fn sp_string(input: Seq<char>) -> Option<(Seq<char>, Seq<char>)> {
    if input.len() >= 1 && input[0] == '"' {
        sp_str_body(input.skip(1))
    } else {
        None
    }
}

pub open spec fn is_digit(c: char) -> bool {
    48 <= c as u32 <= 57
}

pub open spec fn dval(c: char) -> nat {
    (c as u32 - 48) as nat
}

/// Consumes digits, folding them onto `acc`.
pub open spec fn sp_digits(input: Seq<char>, acc: nat) -> (nat, Seq<char>)
    decreases input.len(),
{
    if input.len() > 0 && is_digit(input[0]) {
        sp_digits(input.skip(1), acc * 10 + dval(input[0]))
    } else {
        (acc, input)
    }
}

/// Consumes a number of at least one digit.
pub open spec fn sp_number(input: Seq<char>) -> Option<(nat, Seq<char>)> {
    if input.len() > 0 && is_digit(input[0]) {
        Some(sp_digits(input, 0))
    } else {
        None
    }
}

/// Consumes a hash-type tag.
pub open spec fn sp_hashtype(input: Seq<char>) -> Option<(HashType, Seq<char>)> {
    if sp_lit(input, "\"Poseidon\""@) is Some {
        Some((HashType::Poseidon, sp_lit(input, "\"Poseidon\""@).unwrap()))
    } else if sp_lit(input, "\"Sha\""@) is Some {
        Some((HashType::Sha, sp_lit(input, "\"Sha\""@).unwrap()))
    } else if sp_lit(input, "\"Keccak\""@) is Some {
        Some((HashType::Keccak, sp_lit(input, "\"Keccak\""@).unwrap()))
    } else {
        None
    }
}

/// Consumes one proof-piece object.
pub open spec fn sp_piece(input: Seq<char>) -> Option<(ProofPieceInfoView, Seq<char>)> {
    match sp_lit(input, "{\"circuit\":"@) {
        None => None,
        Some(r1) => match sp_string(r1) {
            None => None,
            Some((circuit, r2)) => match sp_lit(r2, ",\"instance_size\":"@) {
                None => None,
                Some(r3) => match sp_number(r3) {
                    None => None,
                    Some((isz, r4)) => if isz > u32::MAX {
                        None
                    } else {
                        match sp_lit(r4, ",\"witness\":"@) {
                            None => None,
                            Some(r5) => match sp_string(r5) {
                                None => None,
                                Some((witness, r6)) => match sp_lit(r6, ",\"instance\":"@) {
                                    None => None,
                                    Some(r7) => match sp_string(r7) {
                                        None => None,
                                        Some((instance, r8)) => match sp_lit(
                                            r8,
                                            ",\"transcript\":"@,
                                        ) {
                                            None => None,
                                            Some(r9) => match sp_string(r9) {
                                                None => None,
                                                Some((transcript, r10)) => match sp_lit(
                                                    r10,
                                                    "}"@,
                                                ) {
                                                    None => None,
                                                    Some(r11) => Some(
                                                        (
                                                            ProofPieceInfoView {
                                                                circuit,
                                                                instance_size: isz as u32,
                                                                witness,
                                                                instance,
                                                                transcript,
                                                            },
                                                            r11,
                                                        ),
                                                    ),
                                                },
                                            },
                                        },
                                    },
                                },
                            },
                        }
                    },
                },
            },
        },
    }
}

/// Consumes `,piece` repetitions up to and including the closing `]`.
pub open spec fn sp_pieces_rest(input: Seq<char>) -> Option<
    (Seq<ProofPieceInfoView>, Seq<char>),
>
    decreases input.len(),
{
    if input.len() == 0 {
        None
    } else if input[0] == ']' {
        Some((Seq::empty(), input.skip(1)))
    } else if input[0] == ',' {
        match sp_piece(input.skip(1)) {
            None => None,
            Some((p, rem)) => if rem.len() < input.len() {
                match sp_pieces_rest(rem) {
                    None => None,
                    Some((ps, rem2)) => Some((seq![p] + ps, rem2)),
                }
            } else {
                None
            },
        }
    } else {
        None
    }
}

/// Consumes a piece list up to and including the closing `]`; the opening
/// `[` has already been consumed.
pub open spec fn sp_piece_list(input: Seq<char>) -> Option<
    (Seq<ProofPieceInfoView>, Seq<char>),
> {
    if input.len() > 0 && input[0] == ']' {
        Some((Seq::empty(), input.skip(1)))
    } else {
        match sp_piece(input) {
            None => None,
            Some((p, rem)) => if rem.len() < input.len() {
                match sp_pieces_rest(rem) {
                    None => None,
                    Some((ps, rem2)) => Some((seq![p] + ps, rem2)),
                }
            } else {
                None
            },
        }
    }
}

/// Consumes a whole proof-group descriptor document.
pub open spec fn sp_info(input: Seq<char>) -> Option<(ProofGenerationInfoView, Seq<char>)> {
    match sp_lit(input, "{\"proofs\":["@) {
        None => None,
        Some(r1) => match sp_piece_list(r1) {
            None => None,
            Some((proofs, r2)) => match sp_lit(r2, ",\"k\":"@) {
                None => None,
                Some(r3) => match sp_number(r3) {
                    None => None,
                    Some((k, r4)) => if k > usize::MAX {
                        None
                    } else {
                        match sp_lit(r4, ",\"param\":"@) {
                            None => None,
                            Some(r5) => match sp_string(r5) {
                                None => None,
                                Some((param, r6)) => match sp_lit(r6, ",\"name\":"@) {
                                    None => None,
                                    Some(r7) => match sp_string(r7) {
                                        None => None,
                                        Some((name, r8)) => match sp_lit(r8, ",\"hashtype\":"@) {
                                            None => None,
                                            Some(r9) => match sp_hashtype(r9) {
                                                None => None,
                                                Some((hashtype, r10)) => match sp_lit(r10, "}"@) {
                                                    None => None,
                                                    Some(r11) => Some(
                                                        (
                                                            ProofGenerationInfoView {
                                                                proofs,
                                                                k,
                                                                param,
                                                                name,
                                                                hashtype,
                                                            },
                                                            r11,
                                                        ),
                                                    ),
                                                },
                                            },
                                        },
                                    },
                                },
                            },
                        }
                    },
                },
            },
        },
    }
}

pub proof fn lemma_sp_lit_rt(lit: Seq<char>, tail: Seq<char>)
    ensures
        sp_lit(lit + tail, lit) == Some(tail),
{
    assert((lit + tail).take(lit.len() as int) =~= lit);
    assert((lit + tail).skip(lit.len() as int) =~= tail);
}

pub proof fn lemma_sp_str_body_rt(t: Seq<char>, tail: Seq<char>)
    requires
        ok_string(t),
    ensures
        sp_str_body(esc(t) + seq!['"'] + tail) == Some((t, tail)),
    decreases t.len(),
{
    let input = esc(t) + seq!['"'] + tail;
    if t.len() == 0 {
        assert(input =~= seq!['"'] + tail);
        assert(input[0] == '"');
        assert(input.skip(1) =~= tail);
        assert(sp_str_body(input) == Some((Seq::<char>::empty(), tail)));
        assert(t =~= Seq::<char>::empty());
    } else {
        assert(ok_char(t[0]));
        assert forall|i: int| 0 <= i < t.skip(1).len() implies ok_char(#[trigger] t.skip(1)[i]) by {
            assert(t.skip(1)[i] == t[i + 1]);
        }
        lemma_sp_str_body_rt(t.skip(1), tail);
        let rest = esc(t.skip(1)) + seq!['"'] + tail;
        if t[0] == '"' {
            assert(esc_char(t[0]) =~= seq!['\\', '"']);
            assert(input =~= seq!['\\', '"'] + rest);
            assert(input[0] == '\\' && input[1] == '"' && input.len() >= 2);
            assert(input.skip(2) =~= rest);
            assert(seq![input[1]] + t.skip(1) =~= t);
        } else if t[0] == '\\' {
            assert(esc_char(t[0]) =~= seq!['\\', '\\']);
            assert(input =~= seq!['\\', '\\'] + rest);
            assert(input[0] == '\\' && input[1] == '\\' && input.len() >= 2);
            assert(input.skip(2) =~= rest);
            assert(seq![input[1]] + t.skip(1) =~= t);
        } else {
            assert(esc_char(t[0]) =~= seq![t[0]]);
            assert(input =~= seq![t[0]] + rest);
            assert(input[0] == t[0]);
            assert(input.skip(1) =~= rest);
            assert(seq![input[0]] + t.skip(1) =~= t);
        }
    }
}

pub proof fn lemma_sp_string_rt(t: Seq<char>, tail: Seq<char>)
    requires
        ok_string(t),
    ensures
        sp_string(emit_string(t) + tail) == Some((t, tail)),
{
    let input = emit_string(t) + tail;
    assert(input =~= seq!['"'] + (esc(t) + seq!['"'] + tail));
    assert(input[0] == '"');
    assert(input.skip(1) =~= esc(t) + seq!['"'] + tail);
    lemma_sp_str_body_rt(t, tail);
}

/// The digits of `ds` folded onto `acc`, most significant first.
pub open spec fn digits_value(acc: nat, ds: Seq<char>) -> nat
    decreases ds.len(),
{
    if ds.len() == 0 {
        acc
    } else {
        digits_value(acc * 10 + dval(ds[0]), ds.skip(1))
    }
}

pub proof fn lemma_digits_value_push(acc: nat, ds: Seq<char>, c: char)
    ensures
        digits_value(acc, ds.push(c)) == digits_value(acc, ds) * 10 + dval(c),
    decreases ds.len(),
{
    let dc = ds.push(c);
    if ds.len() == 0 {
        assert(dc.len() == 1 && dc[0] == c);
        assert(dc.skip(1) =~= Seq::<char>::empty());
        assert(digits_value(acc, dc) == digits_value(acc * 10 + dval(c), dc.skip(1)));
    } else {
        assert(dc[0] == ds[0]);
        assert(dc.skip(1) =~= ds.skip(1).push(c));
        lemma_digits_value_push(acc * 10 + dval(ds[0]), ds.skip(1), c);
    }
}

pub proof fn lemma_decimal_all_digits(n: nat)
    ensures
        spec_decimal(n).len() >= 1,
        forall|i: int| 0 <= i < spec_decimal(n).len() ==> is_digit(#[trigger] spec_decimal(n)[i]),
    decreases n,
{
    if n < 10 {
        assert(is_digit(crate::proofinfo::spec_digit(n)));
    } else {
        lemma_decimal_all_digits(n / 10);
        let d = spec_decimal(n / 10);
        assert(is_digit(crate::proofinfo::spec_digit(n % 10)));
        assert forall|i: int| 0 <= i < spec_decimal(n).len() implies is_digit(
            #[trigger] spec_decimal(n)[i],
        ) by {
            if i < d.len() {
                assert(spec_decimal(n)[i] == d[i]);
            } else {
                assert(spec_decimal(n)[i] == crate::proofinfo::spec_digit(n % 10));
            }
        }
    }
}

pub proof fn lemma_sp_digits_split(ds: Seq<char>, tail: Seq<char>, acc: nat)
    requires
        forall|i: int| 0 <= i < ds.len() ==> is_digit(#[trigger] ds[i]),
        tail.len() == 0 || !is_digit(tail[0]),
    ensures
        sp_digits(ds + tail, acc) == (digits_value(acc, ds), tail),
    decreases ds.len(),
{
    let input = ds + tail;
    if ds.len() == 0 {
        assert(input =~= tail);
    } else {
        assert(input[0] == ds[0]);
        assert(input.skip(1) =~= ds.skip(1) + tail);
        assert forall|i: int| 0 <= i < ds.skip(1).len() implies is_digit(
            #[trigger] ds.skip(1)[i],
        ) by {
            assert(ds.skip(1)[i] == ds[i + 1]);
        }
        lemma_sp_digits_split(ds.skip(1), tail, acc * 10 + dval(ds[0]));
    }
}

pub proof fn lemma_digits_value_decimal(n: nat)
    ensures
        digits_value(0, spec_decimal(n)) == n,
    decreases n,
{
    if n < 10 {
        let d = spec_decimal(n);
        assert(d.len() == 1 && d[0] == crate::proofinfo::spec_digit(n));
        assert(d.skip(1) =~= Seq::<char>::empty());
        assert(digits_value(0, d) == digits_value(dval(d[0]), d.skip(1)));
        assert(dval(crate::proofinfo::spec_digit(n)) == n);
    } else {
        lemma_digits_value_decimal(n / 10);
        lemma_digits_value_push(0, spec_decimal(n / 10), crate::proofinfo::spec_digit(n % 10));
        assert(dval(crate::proofinfo::spec_digit(n % 10)) == n % 10);
        assert(digits_value(0, spec_decimal(n)) == (n / 10) * 10 + n % 10);
    }
}

pub proof fn lemma_sp_number_dec(n: nat, tail: Seq<char>)
    requires
        tail.len() == 0 || !is_digit(tail[0]),
    ensures
        sp_number(spec_decimal(n) + tail) == Some((n, tail)),
{
    lemma_decimal_all_digits(n);
    let input = spec_decimal(n) + tail;
    assert(input[0] == spec_decimal(n)[0]);
    lemma_sp_digits_split(spec_decimal(n), tail, 0);
    lemma_digits_value_decimal(n);
}

pub proof fn lemma_sp_hashtype_rt(h: HashType, tail: Seq<char>)
    ensures
        sp_hashtype(emit_hashtype(h) + tail) == Some((h, tail)),
{
    reveal_strlit("\"Poseidon\"");
    reveal_strlit("\"Sha\"");
    reveal_strlit("\"Keccak\"");
    let input = emit_hashtype(h) + tail;
    match h {
        HashType::Poseidon => {
            lemma_sp_lit_rt("\"Poseidon\""@, tail);
        },
        HashType::Sha => {
            if sp_lit(input, "\"Poseidon\""@) is Some {
                assert(input.take(10)[1] == input[1]);
                assert(input[1] == 'S');
                assert(("\"Poseidon\""@)[1] == 'P');
                assert(false);
            }
            lemma_sp_lit_rt("\"Sha\""@, tail);
        },
        HashType::Keccak => {
            if sp_lit(input, "\"Poseidon\""@) is Some {
                assert(input.take(10)[1] == input[1]);
                assert(input[1] == 'K');
                assert(("\"Poseidon\""@)[1] == 'P');
                assert(false);
            }
            if sp_lit(input, "\"Sha\""@) is Some {
                assert(input.take(5)[1] == input[1]);
                assert(input[1] == 'K');
                assert(("\"Sha\""@)[1] == 'S');
                assert(false);
            }
            lemma_sp_lit_rt("\"Keccak\""@, tail);
        },
    }
}

pub proof fn lemma_sp_piece_rt(p: ProofPieceInfoView, tail: Seq<char>)
    requires
        piece_ok(p),
    ensures
        sp_piece(emit_piece(p) + tail) == Some((p, tail)),
{
    reveal_strlit(",\"witness\":");
    let c1 = "{\"circuit\":"@;
    let c2 = ",\"instance_size\":"@;
    let c3 = ",\"witness\":"@;
    let c4 = ",\"instance\":"@;
    let c5 = ",\"transcript\":"@;
    let c6 = "}"@;
    let t10 = c6 + tail;
    let t9 = emit_string(p.transcript) + t10;
    let t8 = c5 + t9;
    let t7 = emit_string(p.instance) + t8;
    let t6 = c4 + t7;
    let t5 = emit_string(p.witness) + t6;
    let t4 = c3 + t5;
    let t3 = spec_decimal(p.instance_size as nat) + t4;
    let t2 = c2 + t3;
    let t1 = emit_string(p.circuit) + t2;
    let input = emit_piece(p) + tail;
    assert(input =~= c1 + t1);
    lemma_sp_lit_rt(c1, t1);
    lemma_sp_string_rt(p.circuit, t2);
    lemma_sp_lit_rt(c2, t3);
    assert(t4[0] == ',');
    assert(!is_digit(','));
    lemma_sp_number_dec(p.instance_size as nat, t4);
    lemma_sp_lit_rt(c3, t5);
    lemma_sp_string_rt(p.witness, t6);
    lemma_sp_lit_rt(c4, t7);
    lemma_sp_string_rt(p.instance, t8);
    lemma_sp_lit_rt(c5, t9);
    lemma_sp_string_rt(p.transcript, t10);
    lemma_sp_lit_rt(c6, tail);
    assert(sp_piece(input) matches Some(q) && q.0 == p && q.1 == tail);
}

/// Everything a piece list's emission holds after its first piece: for
/// each further piece a comma and its text, then the closing bracket.
pub open spec fn emit_rest(ps: Seq<ProofPieceInfoView>) -> Seq<char>
    decreases ps.len(),
{
    if ps.len() == 0 {
        seq![']']
    } else {
        seq![','] + emit_piece(ps[0]) + emit_rest(ps.skip(1))
    }
}

pub proof fn lemma_inner_rest(ps: Seq<ProofPieceInfoView>)
    requires
        ps.len() >= 1,
    ensures
        emit_pieces_inner(ps) + seq![']'] == emit_piece(ps[0]) + emit_rest(ps.skip(1)),
    decreases ps.len(),
{
    if ps.len() == 1 {
        assert(emit_rest(ps.skip(1)) =~= seq![']']);
        assert(emit_pieces_inner(ps) + seq![']'] =~= emit_piece(ps[0]) + emit_rest(ps.skip(1)));
    } else {
        lemma_inner_rest(ps.skip(1));
        assert(ps.skip(1)[0] == ps[1]);
        assert(ps.skip(1).skip(1) =~= ps.skip(2));
        assert(emit_pieces_inner(ps) + seq![']'] =~= emit_piece(ps[0]) + (seq![','] + (
        emit_pieces_inner(ps.skip(1)) + seq![']'])));
        assert(emit_rest(ps.skip(1)) == seq![','] + emit_piece(ps.skip(1)[0]) + emit_rest(
            ps.skip(1).skip(1),
        ));
        assert(emit_piece(ps[0]) + emit_rest(ps.skip(1)) =~= emit_piece(ps[0]) + (seq![','] + (
        emit_piece(ps[1]) + emit_rest(ps.skip(2)))));
        assert(emit_pieces_inner(ps.skip(1)) + seq![']'] =~= emit_piece(ps[1]) + emit_rest(
            ps.skip(2),
        ));
        assert(emit_pieces_inner(ps) + seq![']'] =~= emit_piece(ps[0]) + emit_rest(ps.skip(1)));
    }
}

pub proof fn lemma_emit_piece_nonempty(p: ProofPieceInfoView)
    ensures
        emit_piece(p).len() >= 1,
        emit_piece(p)[0] == '{',
{
    reveal_strlit("{\"circuit\":");
    assert(emit_piece(p)[0] == ("{\"circuit\":"@)[0]);
}

#[verifier::rlimit(60)]
pub proof fn lemma_sp_pieces_rest_rt(ps: Seq<ProofPieceInfoView>, tail: Seq<char>)
    requires
        forall|i: int| 0 <= i < ps.len() ==> piece_ok(#[trigger] ps[i]),
    ensures
        sp_pieces_rest(emit_rest(ps) + tail) == Some((ps, tail)),
    decreases ps.len(),
{
    let input = emit_rest(ps) + tail;
    if ps.len() == 0 {
        assert(input =~= seq![']'] + tail);
        assert(input[0] == ']');
        assert(input.skip(1) =~= tail);
        assert(ps =~= Seq::<ProofPieceInfoView>::empty());
    } else {
        let rem = emit_rest(ps.skip(1)) + tail;
        assert(input =~= seq![','] + (emit_piece(ps[0]) + rem));
        assert(input[0] == ',');
        assert(input.skip(1) =~= emit_piece(ps[0]) + rem);
        lemma_sp_piece_rt(ps[0], rem);
        lemma_emit_piece_nonempty(ps[0]);
        assert(rem.len() < input.len());
        assert forall|i: int| 0 <= i < ps.skip(1).len() implies piece_ok(
            #[trigger] ps.skip(1)[i],
        ) by {
            assert(ps.skip(1)[i] == ps[i + 1]);
        }
        lemma_sp_pieces_rest_rt(ps.skip(1), tail);
        assert(seq![ps[0]] + ps.skip(1) =~= ps);
    }
}

#[verifier::rlimit(60)]
pub proof fn lemma_sp_piece_list_rt(ps: Seq<ProofPieceInfoView>, tail: Seq<char>)
    requires
        forall|i: int| 0 <= i < ps.len() ==> piece_ok(#[trigger] ps[i]),
    ensures
        sp_piece_list(emit_pieces_inner(ps) + seq![']'] + tail) == Some((ps, tail)),
{
    let input = emit_pieces_inner(ps) + seq![']'] + tail;
    if ps.len() == 0 {
        assert(input =~= seq![']'] + tail);
        assert(input[0] == ']');
        assert(input.skip(1) =~= tail);
        assert(ps =~= Seq::<ProofPieceInfoView>::empty());
    } else {
        lemma_inner_rest(ps);
        let rem = emit_rest(ps.skip(1)) + tail;
        assert(input =~= emit_piece(ps[0]) + rem);
        lemma_emit_piece_nonempty(ps[0]);
        assert(input[0] == '{');
        lemma_sp_piece_rt(ps[0], rem);
        assert(rem.len() < input.len());
        assert forall|i: int| 0 <= i < ps.skip(1).len() implies piece_ok(
            #[trigger] ps.skip(1)[i],
        ) by {
            assert(ps.skip(1)[i] == ps[i + 1]);
        }
        lemma_sp_pieces_rest_rt(ps.skip(1), tail);
        assert(seq![ps[0]] + ps.skip(1) =~= ps);
    }
}

/// Law of the metadata store: parsing a saved proof-group descriptor
/// document yields the descriptor it was saved from, with nothing left
/// over.
#[verifier::rlimit(60)]
pub proof fn lemma_descriptor_round_trip(v: ProofGenerationInfoView)
    requires
        info_ok(v),
        v.k <= usize::MAX,
    ensures
        sp_info(emit_info(v)) == Some((v, Seq::<char>::empty())),
{
    reveal_strlit("],\"k\":");
    reveal_strlit(",\"k\":");
    reveal_strlit(",\"param\":");
    let l1 = "{\"proofs\":["@;
    let u9 = "}"@;
    let u8 = emit_hashtype(v.hashtype) + u9;
    let u7 = ",\"hashtype\":"@ + u8;
    let u6 = emit_string(v.name) + u7;
    let u5 = ",\"name\":"@ + u6;
    let u4 = emit_string(v.param) + u5;
    let u3 = ",\"param\":"@ + u4;
    let u2 = spec_decimal(v.k) + u3;
    let u1 = ",\"k\":"@ + u2;
    let ul = emit_pieces_inner(v.proofs) + seq![']'] + u1;
    let input = emit_info(v);
    assert(("],\"k\":"@) =~= seq![']'] + ",\"k\":"@);
    assert(input =~= l1 + ul);
    lemma_sp_lit_rt(l1, ul);
    lemma_sp_piece_list_rt(v.proofs, u1);
    lemma_sp_lit_rt(",\"k\":"@, u2);
    assert(u3[0] == ',');
    assert(!is_digit(','));
    lemma_sp_number_dec(v.k, u3);
    lemma_sp_lit_rt(",\"param\":"@, u4);
    lemma_sp_string_rt(v.param, u5);
    lemma_sp_lit_rt(",\"name\":"@, u6);
    lemma_sp_string_rt(v.name, u7);
    lemma_sp_lit_rt(",\"hashtype\":"@, u8);
    lemma_sp_hashtype_rt(v.hashtype, u9);
    assert(u9 =~= "}"@ + Seq::<char>::empty());
    lemma_sp_lit_rt("}"@, Seq::<char>::empty());
    assert(sp_info(input) matches Some(q) && q.0 == v && q.1 == Seq::<char>::empty());
}

#[verifier::loop_isolation(false)]
fn p_lit(chars: &Vec<char>, pos: usize, lit: &str) -> (r: Result<usize, BatchError>)
    requires
        pos <= chars@.len(),
    ensures
        match r {
            Ok(p2) => pos <= p2 <= chars@.len() && p2 == pos + lit@.len() && sp_lit(
                chars@.skip(pos as int),
                lit@,
            ) == Some(chars@.skip(p2 as int)),
            Err(e) => sp_lit(chars@.skip(pos as int), lit@) is None && e
                == BatchError::ConfigError,
        },
{
    let n = lit.unicode_len();
    if chars.len() - pos < n {
        return Err(BatchError::ConfigError);
    }
    let mut i: usize = 0;
    while i < n
        invariant
            i <= n,
            forall|j: int| 0 <= j < i ==> chars@[pos + j] == lit@[j],
        decreases n - i,
    {
        if chars[pos + i] != lit.get_char(i) {
            proof {
                let input = chars@.skip(pos as int);
                if sp_lit(input, lit@) is Some {
                    assert(input.take(lit@.len() as int)[i as int] == lit@[i as int]);
                    assert(input[i as int] == chars@[pos + i]);
                    assert(false);
                }
            }
            return Err(BatchError::ConfigError);
        }
        i = i + 1;
    }
    proof {
        let input = chars@.skip(pos as int);
        assert(input.take(lit@.len() as int) =~= lit@);
        assert(input.skip(lit@.len() as int) =~= chars@.skip(pos + lit@.len()));
    }
    Ok(pos + n)
}

#[verifier::loop_isolation(false)]
fn p_string(chars: &Vec<char>, pos: usize) -> (r: Result<(String, usize), BatchError>)
    requires
        pos <= chars@.len(),
    ensures
        match r {
            Ok(p) => pos <= p.1 <= chars@.len() && sp_string(chars@.skip(pos as int)) == Some(
                (p.0@, chars@.skip(p.1 as int)),
            ),
            Err(e) => sp_string(chars@.skip(pos as int)) is None && e == BatchError::ConfigError,
        },
{
    if pos >= chars.len() || chars[pos] != '"' {
        return Err(BatchError::ConfigError);
    }
    proof {
        assert(chars@.skip(pos as int)[0] == chars@[pos as int]);
        assert(chars@.skip(pos as int).skip(1) =~= chars@.skip(pos as int + 1));
    }
    let mut out: Vec<char> = Vec::new();
    let mut i: usize = pos + 1;
    loop
        invariant
            pos + 1 <= i <= chars@.len(),
            sp_str_body(chars@.skip(pos as int + 1)) == (match sp_str_body(
                chars@.skip(i as int),
            ) {
                Some(p) => Some((out@ + p.0, p.1)),
                None => None,
            }),
        decreases chars@.len() - i,
    {
        if i >= chars.len() {
            proof {
                assert(chars@.skip(i as int).len() == 0);
            }
            return Err(BatchError::ConfigError);
        }
        let c = chars[i];
        proof {
            assert(chars@.skip(i as int)[0] == c);
        }
        if c == '"' {
            proof {
                assert(chars@.skip(i as int).skip(1) =~= chars@.skip(i as int + 1));
                assert(out@ + Seq::<char>::empty() =~= out@);
            }
            let s = string_from_chars(&out);
            return Ok((s, i + 1));
        } else if c == '\\' {
            if i + 1 >= chars.len() {
                proof {
                    assert(chars@.skip(i as int).len() == 1);
                }
                return Err(BatchError::ConfigError);
            }
            let c2 = chars[i + 1];
            proof {
                assert(chars@.skip(i as int)[1] == c2);
                assert(chars@.skip(i as int).len() >= 2);
            }
            if c2 == '"' || c2 == '\\' {
                let ghost pre_out = out@;
                out.push(c2);
                proof {
                    let rem = chars@.skip(i as int);
                    assert(rem.skip(2) =~= chars@.skip(i as int + 2));
                    match sp_str_body(chars@.skip(i as int + 2)) {
                        Some(p) => {
                            assert(out@ + p.0 =~= pre_out + (seq![c2] + p.0));
                        },
                        None => {},
                    }
                }
                i = i + 2;
            } else {
                return Err(BatchError::ConfigError);
            }
        } else {
            let code = c as u32;
            if code < 32 {
                return Err(BatchError::ConfigError);
            }
            let ghost pre_out = out@;
            out.push(c);
            proof {
                let rem = chars@.skip(i as int);
                assert(rem.skip(1) =~= chars@.skip(i as int + 1));
                match sp_str_body(chars@.skip(i as int + 1)) {
                    Some(p) => {
                        assert(out@ + p.0 =~= pre_out + (seq![c] + p.0));
                    },
                    None => {},
                }
            }
            i = i + 1;
        }
    }
}

proof fn lemma_sp_digits_ge(input: Seq<char>, acc: nat)
    ensures
        sp_digits(input, acc).0 >= acc,
    decreases input.len(),
{
    if input.len() > 0 && is_digit(input[0]) {
        lemma_sp_digits_ge(input.skip(1), acc * 10 + dval(input[0]));
    }
}

#[verifier::loop_isolation(false)]
fn p_number(chars: &Vec<char>, pos: usize) -> (r: Result<(usize, usize), BatchError>)
    requires
        pos <= chars@.len(),
    ensures
        match r {
            Ok(p) => pos <= p.1 <= chars@.len() && sp_number(chars@.skip(pos as int)) == Some(
                ((p.0 as nat), chars@.skip(p.1 as int)),
            ),
            Err(e) => (sp_number(chars@.skip(pos as int)) is None || sp_number(
                chars@.skip(pos as int),
            ).unwrap().0 > usize::MAX) && e == BatchError::ConfigError,
        },
{
    if pos >= chars.len() {
        return Err(BatchError::ConfigError);
    }
    let c0 = chars[pos];
    let cu0 = c0 as u32;
    proof {
        assert(chars@.skip(pos as int)[0] == c0);
    }
    if !(48 <= cu0 && cu0 <= 57) {
        return Err(BatchError::ConfigError);
    }
    let mut acc: usize = 0;
    let mut i: usize = pos;
    loop
        invariant
            pos <= i <= chars@.len(),
            sp_digits(chars@.skip(pos as int), 0) == sp_digits(chars@.skip(i as int), acc as nat),
        decreases chars@.len() - i,
    {
        if i >= chars.len() {
            proof {
                assert(chars@.skip(i as int).len() == 0);
            }
            return Ok((acc, i));
        }
        let c = chars[i];
        let cu = c as u32;
        proof {
            assert(chars@.skip(i as int)[0] == c);
        }
        if !(48 <= cu && cu <= 57) {
            return Ok((acc, i));
        }
        let d = (cu - 48) as usize;
        let step = match acc.checked_mul(10) {
            Some(m) => m.checked_add(d),
            None => None,
        };
        match step {
            Some(acc2) => {
                proof {
                    assert(chars@.skip(i as int).skip(1) =~= chars@.skip(i as int + 1));
                    assert(dval(c) == d);
                }
                acc = acc2;
                i = i + 1;
            },
            None => {
                proof {
                    let rem = chars@.skip(i as int);
                    assert(rem.skip(1) =~= chars@.skip(i as int + 1));
                    lemma_sp_digits_ge(chars@.skip(i as int + 1), acc as nat * 10 + dval(c));
                    assert(sp_digits(chars@.skip(pos as int), 0).0 > usize::MAX);
                }
                return Err(BatchError::ConfigError);
            },
        }
    }
}

fn p_hashtype(chars: &Vec<char>, pos: usize) -> (r: Result<(HashType, usize), BatchError>)
    requires
        pos <= chars@.len(),
    ensures
        match r {
            Ok(p) => pos <= p.1 <= chars@.len() && sp_hashtype(chars@.skip(pos as int)) == Some(
                (p.0, chars@.skip(p.1 as int)),
            ),
            Err(e) => sp_hashtype(chars@.skip(pos as int)) is None && e == BatchError::ConfigError,
        },
{
    match p_lit(chars, pos, "\"Poseidon\"") {
        Ok(p2) => Ok((HashType::Poseidon, p2)),
        Err(_) => match p_lit(chars, pos, "\"Sha\"") {
            Ok(p2) => Ok((HashType::Sha, p2)),
            Err(_) => match p_lit(chars, pos, "\"Keccak\"") {
                Ok(p2) => Ok((HashType::Keccak, p2)),
                Err(_) => Err(BatchError::ConfigError),
            },
        },
    }
}

#[verifier::rlimit(60)]
fn p_piece(chars: &Vec<char>, pos: usize) -> (r: Result<(ProofPieceInfo, usize), BatchError>)
    requires
        pos <= chars@.len(),
    ensures
        match r {
            Ok(p) => pos < p.1 <= chars@.len() && sp_piece(chars@.skip(pos as int)) == Some(
                (p.0@, chars@.skip(p.1 as int)),
            ),
            Err(e) => sp_piece(chars@.skip(pos as int)) is None && e == BatchError::ConfigError,
        },
{
    let p1 = match p_lit(chars, pos, "{\"circuit\":") {
        Ok(v) => v,
        Err(e) => {
            return Err(e);
        },
    };
    proof {
        reveal_strlit("{\"circuit\":");
    }
    let (circuit, p2) = match p_string(chars, p1) {
        Ok(v) => v,
        Err(e) => {
            return Err(e);
        },
    };
    let p3 = match p_lit(chars, p2, ",\"instance_size\":") {
        Ok(v) => v,
        Err(e) => {
            return Err(e);
        },
    };
    let (isz, p4) = match p_number(chars, p3) {
        Ok(v) => v,
        Err(e) => {
            return Err(e);
        },
    };
    if isz > u32::MAX as usize {
        return Err(BatchError::ConfigError);
    }
    let p5 = match p_lit(chars, p4, ",\"witness\":") {
        Ok(v) => v,
        Err(e) => {
            return Err(e);
        },
    };
    let (witness, p6) = match p_string(chars, p5) {
        Ok(v) => v,
        Err(e) => {
            return Err(e);
        },
    };
    let p7 = match p_lit(chars, p6, ",\"instance\":") {
        Ok(v) => v,
        Err(e) => {
            return Err(e);
        },
    };
    let (instance, p8) = match p_string(chars, p7) {
        Ok(v) => v,
        Err(e) => {
            return Err(e);
        },
    };
    let p9 = match p_lit(chars, p8, ",\"transcript\":") {
        Ok(v) => v,
        Err(e) => {
            return Err(e);
        },
    };
    let (transcript, p10) = match p_string(chars, p9) {
        Ok(v) => v,
        Err(e) => {
            return Err(e);
        },
    };
    let p11 = match p_lit(chars, p10, "}") {
        Ok(v) => v,
        Err(e) => {
            return Err(e);
        },
    };
    let piece = ProofPieceInfo {
        circuit,
        instance_size: isz as u32,
        witness,
        instance,
        transcript,
    };
    Ok((piece, p11))
}

#[verifier::loop_isolation(false)]
#[verifier::rlimit(60)]
fn p_piece_list(chars: &Vec<char>, pos: usize) -> (r: Result<(Vec<ProofPieceInfo>, usize),
    BatchError,
>)
    requires
        pos <= chars@.len(),
    ensures
        match r {
            Ok(p) => pos <= p.1 <= chars@.len() && sp_piece_list(chars@.skip(pos as int)) == Some(
                (p.0@.map_values(|q: ProofPieceInfo| q@), chars@.skip(p.1 as int)),
            ),
            Err(e) => sp_piece_list(chars@.skip(pos as int)) is None && e
                == BatchError::ConfigError,
        },
{
    if pos < chars.len() && chars[pos] == ']' {
        proof {
            assert(chars@.skip(pos as int)[0] == ']');
            assert(chars@.skip(pos as int).skip(1) =~= chars@.skip(pos as int + 1));
        }
        let empty: Vec<ProofPieceInfo> = Vec::new();
        proof {
            assert(empty@.map_values(|q: ProofPieceInfo| q@) =~= Seq::<
                ProofPieceInfoView,
            >::empty());
        }
        return Ok((empty, pos + 1));
    }
    proof {
        if chars@.skip(pos as int).len() > 0 {
            assert(chars@.skip(pos as int)[0] == chars@[pos as int]);
        }
    }
    let (first, mut i) = match p_piece(chars, pos) {
        Ok(v) => v,
        Err(e) => {
            return Err(e);
        },
    };
    let mut out: Vec<ProofPieceInfo> = Vec::new();
    out.push(first);
    proof {
        assert(chars@.skip(i as int).len() < chars@.skip(pos as int).len());
    }
    loop
        invariant
            pos < i <= chars@.len(),
            sp_piece_list(chars@.skip(pos as int)) == (match sp_pieces_rest(
                chars@.skip(i as int),
            ) {
                Some(p) => Some(
                    (out@.map_values(|q: ProofPieceInfo| q@) + p.0, p.1),
                ),
                None => None,
            }),
        decreases chars@.len() - i,
    {
        if i >= chars.len() {
            proof {
                assert(chars@.skip(i as int).len() == 0);
            }
            return Err(BatchError::ConfigError);
        }
        let c = chars[i];
        proof {
            assert(chars@.skip(i as int)[0] == c);
        }
        if c == ']' {
            proof {
                assert(chars@.skip(i as int).skip(1) =~= chars@.skip(i as int + 1));
                assert(out@.map_values(|q: ProofPieceInfo| q@) + Seq::<
                    ProofPieceInfoView,
                >::empty() =~= out@.map_values(|q: ProofPieceInfo| q@));
            }
            return Ok((out, i + 1));
        } else if c == ',' {
            proof {
                assert(chars@.skip(i as int).skip(1) =~= chars@.skip(i as int + 1));
            }
            let (p, i2) = match p_piece(chars, i + 1) {
                Ok(v) => v,
                Err(e) => {
                    return Err(e);
                },
            };
            let ghost pre = out@;
            out.push(p);
            proof {
                assert(chars@.skip(i2 as int).len() < chars@.skip(i as int).len());
                assert(out@.map_values(|q: ProofPieceInfo| q@) =~= pre.map_values(
                    |q: ProofPieceInfo| q@,
                ).push(p@));
                match sp_pieces_rest(chars@.skip(i2 as int)) {
                    Some(rr) => {
                        assert(out@.map_values(|q: ProofPieceInfo| q@) + rr.0 =~= pre.map_values(
                            |q: ProofPieceInfo| q@,
                        ) + (seq![p@] + rr.0));
                    },
                    None => {},
                }
            }
            i = i2;
        } else {
            return Err(BatchError::ConfigError);
        }
    }
}

impl ProofGenerationInfo {
    /// Parses a persisted proof-group descriptor document; succeeds
    /// exactly on a whole well-formed document and fails with
    /// `ConfigError` otherwise.
    #[verifier::rlimit(60)]
    pub fn load(text: &str) -> (r: Result<ProofGenerationInfo, BatchError>)
        ensures
            match r {
                Ok(info) => sp_info(text@) matches Some(q) && q.0 == info@ && q.1 == Seq::<
                    char,
                >::empty(),
                Err(e) => (sp_info(text@) is None || (sp_info(text@) matches Some(q) && q.1.len()
                    != 0)) && e == BatchError::ConfigError,
            },
{
        let chars = chars_of(text);
        proof {
            assert(chars@.skip(0) =~= text@);
        }
        let p1 = match p_lit(&chars, 0, "{\"proofs\":[") {
            Ok(v) => v,
            Err(e) => {
                return Err(e);
            },
        };
        let (proofs, p2) = match p_piece_list(&chars, p1) {
            Ok(v) => v,
            Err(e) => {
                return Err(e);
            },
        };
        let p3 = match p_lit(&chars, p2, ",\"k\":") {
            Ok(v) => v,
            Err(e) => {
                return Err(e);
            },
        };
        let (k, p4) = match p_number(&chars, p3) {
            Ok(v) => v,
            Err(e) => {
                return Err(e);
            },
        };
        let p5 = match p_lit(&chars, p4, ",\"param\":") {
            Ok(v) => v,
            Err(e) => {
                return Err(e);
            },
        };
        let (param, p6) = match p_string(&chars, p5) {
            Ok(v) => v,
            Err(e) => {
                return Err(e);
            },
        };
        let p7 = match p_lit(&chars, p6, ",\"name\":") {
            Ok(v) => v,
            Err(e) => {
                return Err(e);
            },
        };
        let (name, p8) = match p_string(&chars, p7) {
            Ok(v) => v,
            Err(e) => {
                return Err(e);
            },
        };
        let p9 = match p_lit(&chars, p8, ",\"hashtype\":") {
            Ok(v) => v,
            Err(e) => {
                return Err(e);
            },
        };
        let (hashtype, p10) = match p_hashtype(&chars, p9) {
            Ok(v) => v,
            Err(e) => {
                return Err(e);
            },
        };
        let p11 = match p_lit(&chars, p10, "}") {
            Ok(v) => v,
            Err(e) => {
                return Err(e);
            },
        };
        if p11 != chars.len() {
            proof {
                assert(chars@.skip(p11 as int).len() != 0);
            }
            return Err(BatchError::ConfigError);
        }
        proof {
            assert(chars@.skip(p11 as int) =~= Seq::<char>::empty());
        }
        Ok(ProofGenerationInfo { proofs, k, param, name, hashtype })
    }
}

/// The little-endian 32-bit value at `pos`.
pub open spec fn spec_le_u32(b: Seq<u8>, pos: int) -> nat {
    (b[pos] + 256 * b[pos + 1] + 65536 * b[pos + 2] + 16777216 * b[pos + 3]) as nat
}

/// Reads the little-endian 32-bit integer at `pos` of a serialized key
/// file; fails with `ConfigError` exactly when fewer than four bytes
/// remain.
pub fn read_u32(data: &Vec<u8>, pos: usize) -> (r: Result<(u32, usize), BatchError>)
    ensures
        match r {
            Ok(p) => pos + 4 <= data@.len() && p.0 as nat == spec_le_u32(data@, pos as int)
                && p.1 == pos + 4,
            Err(e) => pos + 4 > data@.len() && e == BatchError::ConfigError,
        },
{
    if data.len() < 4 || pos > data.len() - 4 {
        return Err(BatchError::ConfigError);
    }
    let b0 = data[pos] as u32;
    let b1 = data[pos + 1] as u32;
    let b2 = data[pos + 2] as u32;
    let b3 = data[pos + 3] as u32;
    Ok((b0 + 256 * b1 + 65536 * b2 + 16777216 * b3, pos + 4))
}

/// The document text of one symbolic commitment name.
pub open spec fn emit_cn(c: CommitmentNameView) -> Seq<char> {
    "{\"name\":"@ + emit_string(c.name) + ",\"proof_idx\":"@ + spec_decimal(c.proof_idx as nat)
        + ",\"column_name\":"@ + emit_string(c.column_name) + "}"@
}

/// The document text of one instance-embedded commitment reference.
pub open spec fn emit_ci(c: CommitmentInInstanceView) -> Seq<char> {
    "{\"name\":"@ + emit_string(c.name) + ",\"proof_idx\":"@ + spec_decimal(c.proof_idx as nat)
        + ",\"group_idx\":"@ + spec_decimal(c.group_idx as nat) + "}"@
}

/// The document text of one equivalence pair.
pub open spec fn emit_pair(p: CommitmentEquivPairView) -> Seq<char> {
    "{\"source\":"@ + emit_cn(p.source) + ",\"target\":"@ + emit_cn(p.target) + "}"@
}

/// The document text of one absorb edge.
pub open spec fn emit_ab(a: CommitmentAbsorbView) -> Seq<char> {
    "{\"instance_idx\":"@ + emit_ci(a.instance_idx) + ",\"target\":"@ + emit_cn(a.target) + "}"@
}

pub open spec fn emit_pairs_inner(ps: Seq<CommitmentEquivPairView>) -> Seq<char>
    decreases ps.len(),
{
    if ps.len() == 0 {
        Seq::empty()
    } else if ps.len() == 1 {
        emit_pair(ps[0])
    } else {
        emit_pair(ps[0]) + seq![','] + emit_pairs_inner(ps.skip(1))
    }
}

pub open spec fn emit_cns_inner(ps: Seq<CommitmentNameView>) -> Seq<char>
    decreases ps.len(),
{
    if ps.len() == 0 {
        Seq::empty()
    } else if ps.len() == 1 {
        emit_cn(ps[0])
    } else {
        emit_cn(ps[0]) + seq![','] + emit_cns_inner(ps.skip(1))
    }
}

pub open spec fn emit_abs_inner(ps: Seq<CommitmentAbsorbView>) -> Seq<char>
    decreases ps.len(),
{
    if ps.len() == 0 {
        Seq::empty()
    } else if ps.len() == 1 {
        emit_ab(ps[0])
    } else {
        emit_ab(ps[0]) + seq![','] + emit_abs_inner(ps.skip(1))
    }
}

/// The document text of a whole commitment-policy document.
pub open spec fn emit_check(v: CommitmentCheckView) -> Seq<char> {
    "{\"equivalents\":["@ + emit_pairs_inner(v.equivalents) + "],\"expose\":["@ + emit_cns_inner(
        v.expose,
    ) + "],\"absorb\":["@ + emit_abs_inner(v.absorb) + "]}"@
}

pub open spec fn cn_ok(c: CommitmentNameView) -> bool {
    ok_string(c.name) && ok_string(c.column_name)
}

pub open spec fn ci_ok(c: CommitmentInInstanceView) -> bool {
    ok_string(c.name)
}

/// Whether a policy document's strings can all be carried by the format.
pub open spec fn check_ok(v: CommitmentCheckView) -> bool {
    (forall|i: int|
        0 <= i < v.equivalents.len() ==> cn_ok((#[trigger] v.equivalents[i]).source) && cn_ok(
            v.equivalents[i].target,
        )) && (forall|i: int| 0 <= i < v.expose.len() ==> cn_ok(#[trigger] v.expose[i])) && (
    forall|i: int|
        0 <= i < v.absorb.len() ==> ci_ok((#[trigger] v.absorb[i]).instance_idx) && cn_ok(
            v.absorb[i].target,
        ))
}

impl CommitmentName {
    fn emit(&self, out: &mut Vec<char>) -> (r: Result<(), BatchError>)
        ensures
            (r is Ok) == cn_ok(self@),
            r is Ok ==> final(out)@ == old(out)@ + emit_cn(self@),
            r is Err ==> final(out)@ == old(out)@,
            r matches Err(e) ==> e == BatchError::ConfigError,
    {
        let ghost pre = out@;
        let mut buf: Vec<char> = Vec::new();
        push_lit(&mut buf, "{\"name\":");
        if push_string(&mut buf, &self.name).is_err() {
            return Err(BatchError::ConfigError);
        }
        push_lit(&mut buf, ",\"proof_idx\":");
        push_decimal_chars(&mut buf, self.proof_idx);
        push_lit(&mut buf, ",\"column_name\":");
        if push_string(&mut buf, &self.column_name).is_err() {
            return Err(BatchError::ConfigError);
        }
        push_lit(&mut buf, "}");
        proof {
            assert(buf@ =~= emit_cn(self@));
        }
        let mut j: usize = 0;
        while j < buf.len()
            invariant
                j <= buf@.len(),
                out@ == pre + buf@.take(j as int),
                buf@ == emit_cn(self@),
                pre == old(out)@,
            decreases buf@.len() - j,
        {
            out.push(buf[j]);
            proof {
                assert(out@ =~= pre + buf@.take(j as int + 1));
            }
            j = j + 1;
        }
        proof {
            assert(buf@.take(buf@.len() as int) =~= buf@);
        }
        Ok(())
    }
}

impl CommitmentInInstance {
    fn emit(&self, out: &mut Vec<char>) -> (r: Result<(), BatchError>)
        ensures
            (r is Ok) == ci_ok(self@),
            r is Ok ==> final(out)@ == old(out)@ + emit_ci(self@),
            r is Err ==> final(out)@ == old(out)@,
            r matches Err(e) ==> e == BatchError::ConfigError,
    {
        let ghost pre = out@;
        let mut buf: Vec<char> = Vec::new();
        push_lit(&mut buf, "{\"name\":");
        if push_string(&mut buf, &self.name).is_err() {
            return Err(BatchError::ConfigError);
        }
        push_lit(&mut buf, ",\"proof_idx\":");
        push_decimal_chars(&mut buf, self.proof_idx);
        push_lit(&mut buf, ",\"group_idx\":");
        push_decimal_chars(&mut buf, self.group_idx);
        push_lit(&mut buf, "}");
        proof {
            assert(buf@ =~= emit_ci(self@));
        }
        let mut j: usize = 0;
        while j < buf.len()
            invariant
                j <= buf@.len(),
                out@ == pre + buf@.take(j as int),
                buf@ == emit_ci(self@),
                pre == old(out)@,
            decreases buf@.len() - j,
        {
            out.push(buf[j]);
            proof {
                assert(out@ =~= pre + buf@.take(j as int + 1));
            }
            j = j + 1;
        }
        proof {
            assert(buf@.take(buf@.len() as int) =~= buf@);
        }
        Ok(())
    }
}

impl CommitmentCheck {
    /// Renders this policy as its persisted document, one line of text;
    /// fails with `ConfigError` exactly when some string of it holds a
    /// control character.
    #[verifier::loop_isolation(false)]
    #[verifier::rlimit(60)]
    pub fn save(&self) -> (r: Result<String, BatchError>)
        ensures
            (r is Ok) == check_ok(self@),
            r matches Ok(s) ==> s@ == emit_check(self@),
            r matches Err(e) ==> e == BatchError::ConfigError,
    {
        let mut buf: Vec<char> = Vec::new();
        push_lit(&mut buf, "{\"equivalents\":[");
        let mut i: usize = 0;
        while i < self.equivalents.len()
            invariant
                i <= self.equivalents@.len(),
                buf@ == "{\"equivalents\":["@ + emit_pairs_inner(self@.equivalents.take(i as int)),
                forall|j: int|
                    0 <= j < i ==> cn_ok((#[trigger] self@.equivalents[j]).source) && cn_ok(
                        self@.equivalents[j].target,
                    ),
            decreases self.equivalents@.len() - i,
        {
            if i > 0 {
                push_lit(&mut buf, ",");
            }
            let ghost prei = buf@;
            let mut pb: Vec<char> = Vec::new();
            push_lit(&mut pb, "{\"source\":");
            if self.equivalents[i].source.emit(&mut pb).is_err() {
                proof {
                    assert(self@.equivalents[i as int] == self.equivalents@[i as int]@);
                    assert(!cn_ok(self@.equivalents[i as int].source));
                }
                return Err(BatchError::ConfigError);
            }
            push_lit(&mut pb, ",\"target\":");
            if self.equivalents[i].target.emit(&mut pb).is_err() {
                proof {
                    assert(self@.equivalents[i as int] == self.equivalents@[i as int]@);
                    assert(!cn_ok(self@.equivalents[i as int].target));
                }
                return Err(BatchError::ConfigError);
            }
            push_lit(&mut pb, "}");
            proof {
                assert(self@.equivalents[i as int] == self.equivalents@[i as int]@);
                assert(pb@ =~= emit_pair(self@.equivalents[i as int]));
            }
            let mut j: usize = 0;
            while j < pb.len()
                invariant
                    j <= pb@.len(),
                    buf@ == prei + pb@.take(j as int),
                decreases pb@.len() - j,
            {
                buf.push(pb[j]);
                proof {
                    assert(buf@ =~= prei + pb@.take(j as int + 1));
                }
                j = j + 1;
            }
            proof {
                reveal_strlit(",");
                assert(","@ =~= seq![',']);
                assert(pb@.take(pb@.len() as int) =~= pb@);
                lemma_pairs_inner_push(
                    self@.equivalents.take(i as int),
                    self@.equivalents[i as int],
                );
                assert(self@.equivalents.take(i as int + 1) =~= self@.equivalents.take(
                    i as int,
                ).push(self@.equivalents[i as int]));
                assert(buf@ =~= "{\"equivalents\":["@ + emit_pairs_inner(
                    self@.equivalents.take(i as int + 1),
                ));
            }
            i = i + 1;
        }
        proof {
            assert(self@.equivalents.take(self.equivalents@.len() as int) =~= self@.equivalents);
        }
        push_lit(&mut buf, "],\"expose\":[");
        let ghost base2 = buf@;
        let mut i: usize = 0;
        while i < self.expose.len()
            invariant
                i <= self.expose@.len(),
                buf@ == base2 + emit_cns_inner(self@.expose.take(i as int)),
                forall|j: int| 0 <= j < i ==> cn_ok(#[trigger] self@.expose[j]),
            decreases self.expose@.len() - i,
        {
            if i > 0 {
                push_lit(&mut buf, ",");
            }
            if self.expose[i].emit(&mut buf).is_err() {
                proof {
                    assert(self@.expose[i as int] == self.expose@[i as int]@);
                    assert(!cn_ok(self@.expose[i as int]));
                }
                return Err(BatchError::ConfigError);
            }
            proof {
                reveal_strlit(",");
                assert(","@ =~= seq![',']);
                assert(self@.expose[i as int] == self.expose@[i as int]@);
                lemma_cns_inner_push(self@.expose.take(i as int), self@.expose[i as int]);
                assert(self@.expose.take(i as int + 1) =~= self@.expose.take(i as int).push(
                    self@.expose[i as int],
                ));
                assert(buf@ =~= base2 + emit_cns_inner(self@.expose.take(i as int + 1)));
            }
            i = i + 1;
        }
        proof {
            assert(self@.expose.take(self.expose@.len() as int) =~= self@.expose);
        }
        push_lit(&mut buf, "],\"absorb\":[");
        let ghost base3 = buf@;
        let mut i: usize = 0;
        while i < self.absorb.len()
            invariant
                i <= self.absorb@.len(),
                buf@ == base3 + emit_abs_inner(self@.absorb.take(i as int)),
                forall|j: int|
                    0 <= j < i ==> ci_ok((#[trigger] self@.absorb[j]).instance_idx) && cn_ok(
                        self@.absorb[j].target,
                    ),
            decreases self.absorb@.len() - i,
        {
            if i > 0 {
                push_lit(&mut buf, ",");
            }
            let ghost prei = buf@;
            let mut pb: Vec<char> = Vec::new();
            push_lit(&mut pb, "{\"instance_idx\":");
            if self.absorb[i].instance_idx.emit(&mut pb).is_err() {
                proof {
                    assert(self@.absorb[i as int] == self.absorb@[i as int]@);
                    assert(!ci_ok(self@.absorb[i as int].instance_idx));
                }
                return Err(BatchError::ConfigError);
            }
            push_lit(&mut pb, ",\"target\":");
            if self.absorb[i].target.emit(&mut pb).is_err() {
                proof {
                    assert(self@.absorb[i as int] == self.absorb@[i as int]@);
                    assert(!cn_ok(self@.absorb[i as int].target));
                }
                return Err(BatchError::ConfigError);
            }
            push_lit(&mut pb, "}");
            proof {
                assert(self@.absorb[i as int] == self.absorb@[i as int]@);
                assert(pb@ =~= emit_ab(self@.absorb[i as int]));
            }
            let mut j: usize = 0;
            while j < pb.len()
                invariant
                    j <= pb@.len(),
                    buf@ == prei + pb@.take(j as int),
                decreases pb@.len() - j,
            {
                buf.push(pb[j]);
                proof {
                    assert(buf@ =~= prei + pb@.take(j as int + 1));
                }
                j = j + 1;
            }
            proof {
                reveal_strlit(",");
                assert(","@ =~= seq![',']);
                assert(pb@.take(pb@.len() as int) =~= pb@);
                lemma_abs_inner_push(self@.absorb.take(i as int), self@.absorb[i as int]);
                assert(self@.absorb.take(i as int + 1) =~= self@.absorb.take(i as int).push(
                    self@.absorb[i as int],
                ));
                assert(buf@ =~= base3 + emit_abs_inner(self@.absorb.take(i as int + 1)));
            }
            i = i + 1;
        }
        proof {
            assert(self@.absorb.take(self.absorb@.len() as int) =~= self@.absorb);
        }
        push_lit(&mut buf, "]}");
        proof {
            assert(buf@ =~= emit_check(self@));
        }
        Ok(string_from_chars(&buf))
    }
}

/// Consumes one symbolic commitment name object.
pub open spec fn sp_cn(input: Seq<char>) -> Option<(CommitmentNameView, Seq<char>)> {
    match sp_lit(input, "{\"name\":"@) {
        None => None,
        Some(r1) => match sp_string(r1) {
            None => None,
            Some((name, r2)) => match sp_lit(r2, ",\"proof_idx\":"@) {
                None => None,
                Some(r3) => match sp_number(r3) {
                    None => None,
                    Some((pi, r4)) => if pi > usize::MAX {
                        None
                    } else {
                        match sp_lit(r4, ",\"column_name\":"@) {
                            None => None,
                            Some(r5) => match sp_string(r5) {
                                None => None,
                                Some((column_name, r6)) => match sp_lit(r6, "}"@) {
                                    None => None,
                                    Some(r7) => Some(
                                        (
                                            CommitmentNameView {
                                                name,
                                                proof_idx: pi as usize,
                                                column_name,
                                            },
                                            r7,
                                        ),
                                    ),
                                },
                            },
                        }
                    },
                },
            },
        },
    }
}

/// Consumes one instance-embedded commitment reference object.
pub open spec fn sp_ci(input: Seq<char>) -> Option<(CommitmentInInstanceView, Seq<char>)> {
    match sp_lit(input, "{\"name\":"@) {
        None => None,
        Some(r1) => match sp_string(r1) {
            None => None,
            Some((name, r2)) => match sp_lit(r2, ",\"proof_idx\":"@) {
                None => None,
                Some(r3) => match sp_number(r3) {
                    None => None,
                    Some((pi, r4)) => if pi > usize::MAX {
                        None
                    } else {
                        match sp_lit(r4, ",\"group_idx\":"@) {
                            None => None,
                            Some(r5) => match sp_number(r5) {
                                None => None,
                                Some((gi, r6)) => if gi > usize::MAX {
                                    None
                                } else {
                                    match sp_lit(r6, "}"@) {
                                        None => None,
                                        Some(r7) => Some(
                                            (
                                                CommitmentInInstanceView {
                                                    name,
                                                    proof_idx: pi as usize,
                                                    group_idx: gi as usize,
                                                },
                                                r7,
                                            ),
                                        ),
                                    }
                                },
                            },
                        }
                    },
                },
            },
        },
    }
}

/// Consumes one equivalence-pair object.
pub open spec fn sp_pair(input: Seq<char>) -> Option<(CommitmentEquivPairView, Seq<char>)> {
    match sp_lit(input, "{\"source\":"@) {
        None => None,
        Some(r1) => match sp_cn(r1) {
            None => None,
            Some((source, r2)) => match sp_lit(r2, ",\"target\":"@) {
                None => None,
                Some(r3) => match sp_cn(r3) {
                    None => None,
                    Some((target, r4)) => match sp_lit(r4, "}"@) {
                        None => None,
                        Some(r5) => Some((CommitmentEquivPairView { source, target }, r5)),
                    },
                },
            },
        },
    }
}

/// Consumes one absorb-edge object.
pub open spec fn sp_ab(input: Seq<char>) -> Option<(CommitmentAbsorbView, Seq<char>)> {
    match sp_lit(input, "{\"instance_idx\":"@) {
        None => None,
        Some(r1) => match sp_ci(r1) {
            None => None,
            Some((instance_idx, r2)) => match sp_lit(r2, ",\"target\":"@) {
                None => None,
                Some(r3) => match sp_cn(r3) {
                    None => None,
                    Some((target, r4)) => match sp_lit(r4, "}"@) {
                        None => None,
                        Some(r5) => Some((CommitmentAbsorbView { instance_idx, target }, r5)),
                    },
                },
            },
        },
    }
}

pub open spec fn sp_pairs_rest(input: Seq<char>) -> Option<
    (Seq<CommitmentEquivPairView>, Seq<char>),
>
    decreases input.len(),
{
    if input.len() == 0 {
        None
    } else if input[0] == ']' {
        Some((Seq::empty(), input.skip(1)))
    } else if input[0] == ',' {
        match sp_pair(input.skip(1)) {
            None => None,
            Some((p, rem)) => if rem.len() < input.len() {
                match sp_pairs_rest(rem) {
                    None => None,
                    Some((ps, rem2)) => Some((seq![p] + ps, rem2)),
                }
            } else {
                None
            },
        }
    } else {
        None
    }
}

pub open spec fn sp_pairs_list(input: Seq<char>) -> Option<
    (Seq<CommitmentEquivPairView>, Seq<char>),
> {
    if input.len() > 0 && input[0] == ']' {
        Some((Seq::empty(), input.skip(1)))
    } else {
        match sp_pair(input) {
            None => None,
            Some((p, rem)) => if rem.len() < input.len() {
                match sp_pairs_rest(rem) {
                    None => None,
                    Some((ps, rem2)) => Some((seq![p] + ps, rem2)),
                }
            } else {
                None
            },
        }
    }
}

pub open spec fn sp_cns_rest(input: Seq<char>) -> Option<(Seq<CommitmentNameView>, Seq<char>)>
    decreases input.len(),
{
    if input.len() == 0 {
        None
    } else if input[0] == ']' {
        Some((Seq::empty(), input.skip(1)))
    } else if input[0] == ',' {
        match sp_cn(input.skip(1)) {
            None => None,
            Some((p, rem)) => if rem.len() < input.len() {
                match sp_cns_rest(rem) {
                    None => None,
                    Some((ps, rem2)) => Some((seq![p] + ps, rem2)),
                }
            } else {
                None
            },
        }
    } else {
        None
    }
}

pub open spec fn sp_cns_list(input: Seq<char>) -> Option<(Seq<CommitmentNameView>, Seq<char>)> {
    if input.len() > 0 && input[0] == ']' {
        Some((Seq::empty(), input.skip(1)))
    } else {
        match sp_cn(input) {
            None => None,
            Some((p, rem)) => if rem.len() < input.len() {
                match sp_cns_rest(rem) {
                    None => None,
                    Some((ps, rem2)) => Some((seq![p] + ps, rem2)),
                }
            } else {
                None
            },
        }
    }
}

pub open spec fn sp_abs_rest(input: Seq<char>) -> Option<(Seq<CommitmentAbsorbView>, Seq<char>)>
    decreases input.len(),
{
    if input.len() == 0 {
        None
    } else if input[0] == ']' {
        Some((Seq::empty(), input.skip(1)))
    } else if input[0] == ',' {
        match sp_ab(input.skip(1)) {
            None => None,
            Some((p, rem)) => if rem.len() < input.len() {
                match sp_abs_rest(rem) {
                    None => None,
                    Some((ps, rem2)) => Some((seq![p] + ps, rem2)),
                }
            } else {
                None
            },
        }
    } else {
        None
    }
}

pub open spec fn sp_abs_list(input: Seq<char>) -> Option<(Seq<CommitmentAbsorbView>, Seq<char>)> {
    if input.len() > 0 && input[0] == ']' {
        Some((Seq::empty(), input.skip(1)))
    } else {
        match sp_ab(input) {
            None => None,
            Some((p, rem)) => if rem.len() < input.len() {
                match sp_abs_rest(rem) {
                    None => None,
                    Some((ps, rem2)) => Some((seq![p] + ps, rem2)),
                }
            } else {
                None
            },
        }
    }
}

/// Consumes a whole commitment-policy document.
pub open spec fn sp_check(input: Seq<char>) -> Option<(CommitmentCheckView, Seq<char>)> {
    match sp_lit(input, "{\"equivalents\":["@) {
        None => None,
        Some(r1) => match sp_pairs_list(r1) {
            None => None,
            Some((equivalents, r2)) => match sp_lit(r2, ",\"expose\":["@) {
                None => None,
                Some(r3) => match sp_cns_list(r3) {
                    None => None,
                    Some((expose, r4)) => match sp_lit(r4, ",\"absorb\":["@) {
                        None => None,
                        Some(r5) => match sp_abs_list(r5) {
                            None => None,
                            Some((absorb, r6)) => match sp_lit(r6, "}"@) {
                                None => None,
                                Some(r7) => Some(
                                    (CommitmentCheckView { equivalents, expose, absorb }, r7),
                                ),
                            },
                        },
                    },
                },
            },
        },
    }
}

#[verifier::rlimit(60)]
fn p_cn(chars: &Vec<char>, pos: usize) -> (r: Result<(CommitmentName, usize), BatchError>)
    requires
        pos <= chars@.len(),
    ensures
        match r {
            Ok(p) => pos < p.1 <= chars@.len() && sp_cn(chars@.skip(pos as int)) == Some(
                (p.0@, chars@.skip(p.1 as int)),
            ),
            Err(e) => sp_cn(chars@.skip(pos as int)) is None && e == BatchError::ConfigError,
        },
{
    let p1 = match p_lit(chars, pos, "{\"name\":") {
        Ok(v) => v,
        Err(e) => {
            return Err(e);
        },
    };
    proof {
        reveal_strlit("{\"name\":");
    }
    let (name, p2) = match p_string(chars, p1) {
        Ok(v) => v,
        Err(e) => {
            return Err(e);
        },
    };
    let p3 = match p_lit(chars, p2, ",\"proof_idx\":") {
        Ok(v) => v,
        Err(e) => {
            return Err(e);
        },
    };
    let (pi, p4) = match p_number(chars, p3) {
        Ok(v) => v,
        Err(e) => {
            return Err(e);
        },
    };
    let p5 = match p_lit(chars, p4, ",\"column_name\":") {
        Ok(v) => v,
        Err(e) => {
            return Err(e);
        },
    };
    let (column_name, p6) = match p_string(chars, p5) {
        Ok(v) => v,
        Err(e) => {
            return Err(e);
        },
    };
    let p7 = match p_lit(chars, p6, "}") {
        Ok(v) => v,
        Err(e) => {
            return Err(e);
        },
    };
    Ok((CommitmentName { name, proof_idx: pi, column_name }, p7))
}

#[verifier::rlimit(60)]
fn p_ci(chars: &Vec<char>, pos: usize) -> (r: Result<(CommitmentInInstance, usize), BatchError>)
    requires
        pos <= chars@.len(),
    ensures
        match r {
            Ok(p) => pos < p.1 <= chars@.len() && sp_ci(chars@.skip(pos as int)) == Some(
                (p.0@, chars@.skip(p.1 as int)),
            ),
            Err(e) => sp_ci(chars@.skip(pos as int)) is None && e == BatchError::ConfigError,
        },
{
    let p1 = match p_lit(chars, pos, "{\"name\":") {
        Ok(v) => v,
        Err(e) => {
            return Err(e);
        },
    };
    proof {
        reveal_strlit("{\"name\":");
    }
    let (name, p2) = match p_string(chars, p1) {
        Ok(v) => v,
        Err(e) => {
            return Err(e);
        },
    };
    let p3 = match p_lit(chars, p2, ",\"proof_idx\":") {
        Ok(v) => v,
        Err(e) => {
            return Err(e);
        },
    };
    let (pi, p4) = match p_number(chars, p3) {
        Ok(v) => v,
        Err(e) => {
            return Err(e);
        },
    };
    let p5 = match p_lit(chars, p4, ",\"group_idx\":") {
        Ok(v) => v,
        Err(e) => {
            return Err(e);
        },
    };
    let (gi, p6) = match p_number(chars, p5) {
        Ok(v) => v,
        Err(e) => {
            return Err(e);
        },
    };
    let p7 = match p_lit(chars, p6, "}") {
        Ok(v) => v,
        Err(e) => {
            return Err(e);
        },
    };
    Ok((CommitmentInInstance { name, proof_idx: pi, group_idx: gi }, p7))
}

#[verifier::rlimit(60)]
fn p_pair(chars: &Vec<char>, pos: usize) -> (r: Result<(CommitmentEquivPair, usize), BatchError>)
    requires
        pos <= chars@.len(),
    ensures
        match r {
            Ok(p) => pos < p.1 <= chars@.len() && sp_pair(chars@.skip(pos as int)) == Some(
                (p.0@, chars@.skip(p.1 as int)),
            ),
            Err(e) => sp_pair(chars@.skip(pos as int)) is None && e == BatchError::ConfigError,
        },
{
    let p1 = match p_lit(chars, pos, "{\"source\":") {
        Ok(v) => v,
        Err(e) => {
            return Err(e);
        },
    };
    proof {
        reveal_strlit("{\"source\":");
    }
    let (source, p2) = match p_cn(chars, p1) {
        Ok(v) => v,
        Err(e) => {
            return Err(e);
        },
    };
    let p3 = match p_lit(chars, p2, ",\"target\":") {
        Ok(v) => v,
        Err(e) => {
            return Err(e);
        },
    };
    let (target, p4) = match p_cn(chars, p3) {
        Ok(v) => v,
        Err(e) => {
            return Err(e);
        },
    };
    let p5 = match p_lit(chars, p4, "}") {
        Ok(v) => v,
        Err(e) => {
            return Err(e);
        },
    };
    Ok((CommitmentEquivPair { source, target }, p5))
}

#[verifier::rlimit(60)]
fn p_ab(chars: &Vec<char>, pos: usize) -> (r: Result<(CommitmentAbsorb, usize), BatchError>)
    requires
        pos <= chars@.len(),
    ensures
        match r {
            Ok(p) => pos < p.1 <= chars@.len() && sp_ab(chars@.skip(pos as int)) == Some(
                (p.0@, chars@.skip(p.1 as int)),
            ),
            Err(e) => sp_ab(chars@.skip(pos as int)) is None && e == BatchError::ConfigError,
        },
{
    let p1 = match p_lit(chars, pos, "{\"instance_idx\":") {
        Ok(v) => v,
        Err(e) => {
            return Err(e);
        },
    };
    proof {
        reveal_strlit("{\"instance_idx\":");
    }
    let (instance_idx, p2) = match p_ci(chars, p1) {
        Ok(v) => v,
        Err(e) => {
            return Err(e);
        },
    };
    let p3 = match p_lit(chars, p2, ",\"target\":") {
        Ok(v) => v,
        Err(e) => {
            return Err(e);
        },
    };
    let (target, p4) = match p_cn(chars, p3) {
        Ok(v) => v,
        Err(e) => {
            return Err(e);
        },
    };
    let p5 = match p_lit(chars, p4, "}") {
        Ok(v) => v,
        Err(e) => {
            return Err(e);
        },
    };
    Ok((CommitmentAbsorb { instance_idx, target }, p5))
}

#[verifier::loop_isolation(false)]
#[verifier::rlimit(60)]
fn p_pairs_list(chars: &Vec<char>, pos: usize) -> (r: Result<(Vec<CommitmentEquivPair>, usize),
    BatchError,
>)
    requires
        pos <= chars@.len(),
    ensures
        match r {
            Ok(p) => pos <= p.1 <= chars@.len() && sp_pairs_list(chars@.skip(pos as int)) == Some(
                (p.0@.map_values(|q: CommitmentEquivPair| q@), chars@.skip(p.1 as int)),
            ),
            Err(e) => sp_pairs_list(chars@.skip(pos as int)) is None && e
                == BatchError::ConfigError,
        },
{
    if pos < chars.len() && chars[pos] == ']' {
        proof {
            assert(chars@.skip(pos as int)[0] == ']');
            assert(chars@.skip(pos as int).skip(1) =~= chars@.skip(pos as int + 1));
        }
        let empty: Vec<CommitmentEquivPair> = Vec::new();
        proof {
            assert(empty@.map_values(|q: CommitmentEquivPair| q@) =~= Seq::<
                CommitmentEquivPairView,
            >::empty());
        }
        return Ok((empty, pos + 1));
    }
    proof {
        if chars@.skip(pos as int).len() > 0 {
            assert(chars@.skip(pos as int)[0] == chars@[pos as int]);
        }
    }
    let (first, mut i) = match p_pair(chars, pos) {
        Ok(v) => v,
        Err(e) => {
            return Err(e);
        },
    };
    let mut out: Vec<CommitmentEquivPair> = Vec::new();
    out.push(first);
    proof {
        assert(chars@.skip(i as int).len() < chars@.skip(pos as int).len());
    }
    loop
        invariant
            pos < i <= chars@.len(),
            sp_pairs_list(chars@.skip(pos as int)) == (match sp_pairs_rest(
                chars@.skip(i as int),
            ) {
                Some(p) => Some(
                    (out@.map_values(|q: CommitmentEquivPair| q@) + p.0, p.1),
                ),
                None => None,
            }),
        decreases chars@.len() - i,
    {
        if i >= chars.len() {
            proof {
                assert(chars@.skip(i as int).len() == 0);
            }
            return Err(BatchError::ConfigError);
        }
        let c = chars[i];
        proof {
            assert(chars@.skip(i as int)[0] == c);
        }
        if c == ']' {
            proof {
                assert(chars@.skip(i as int).skip(1) =~= chars@.skip(i as int + 1));
                assert(out@.map_values(|q: CommitmentEquivPair| q@) + Seq::<
                    CommitmentEquivPairView,
                >::empty() =~= out@.map_values(|q: CommitmentEquivPair| q@));
            }
            return Ok((out, i + 1));
        } else if c == ',' {
            proof {
                assert(chars@.skip(i as int).skip(1) =~= chars@.skip(i as int + 1));
            }
            let (p, i2) = match p_pair(chars, i + 1) {
                Ok(v) => v,
                Err(e) => {
                    return Err(e);
                },
            };
            let ghost pre = out@;
            out.push(p);
            proof {
                assert(chars@.skip(i2 as int).len() < chars@.skip(i as int).len());
                assert(out@.map_values(|q: CommitmentEquivPair| q@) =~= pre.map_values(
                    |q: CommitmentEquivPair| q@,
                ).push(p@));
                match sp_pairs_rest(chars@.skip(i2 as int)) {
                    Some(rr) => {
                        assert(out@.map_values(|q: CommitmentEquivPair| q@) + rr.0
                            =~= pre.map_values(|q: CommitmentEquivPair| q@) + (seq![p@] + rr.0));
                    },
                    None => {},
                }
            }
            i = i2;
        } else {
            return Err(BatchError::ConfigError);
        }
    }
}

#[verifier::loop_isolation(false)]
#[verifier::rlimit(60)]
fn p_cns_list(chars: &Vec<char>, pos: usize) -> (r: Result<(Vec<CommitmentName>, usize),
    BatchError,
>)
    requires
        pos <= chars@.len(),
    ensures
        match r {
            Ok(p) => pos <= p.1 <= chars@.len() && sp_cns_list(chars@.skip(pos as int)) == Some(
                (p.0@.map_values(|q: CommitmentName| q@), chars@.skip(p.1 as int)),
            ),
            Err(e) => sp_cns_list(chars@.skip(pos as int)) is None && e
                == BatchError::ConfigError,
        },
{
    if pos < chars.len() && chars[pos] == ']' {
        proof {
            assert(chars@.skip(pos as int)[0] == ']');
            assert(chars@.skip(pos as int).skip(1) =~= chars@.skip(pos as int + 1));
        }
        let empty: Vec<CommitmentName> = Vec::new();
        proof {
            assert(empty@.map_values(|q: CommitmentName| q@) =~= Seq::<
                CommitmentNameView,
            >::empty());
        }
        return Ok((empty, pos + 1));
    }
    proof {
        if chars@.skip(pos as int).len() > 0 {
            assert(chars@.skip(pos as int)[0] == chars@[pos as int]);
        }
    }
    let (first, mut i) = match p_cn(chars, pos) {
        Ok(v) => v,
        Err(e) => {
            return Err(e);
        },
    };
    let mut out: Vec<CommitmentName> = Vec::new();
    out.push(first);
    proof {
        assert(chars@.skip(i as int).len() < chars@.skip(pos as int).len());
    }
    loop
        invariant
            pos < i <= chars@.len(),
            sp_cns_list(chars@.skip(pos as int)) == (match sp_cns_rest(chars@.skip(i as int)) {
                Some(p) => Some((out@.map_values(|q: CommitmentName| q@) + p.0, p.1)),
                None => None,
            }),
        decreases chars@.len() - i,
    {
        if i >= chars.len() {
            proof {
                assert(chars@.skip(i as int).len() == 0);
            }
            return Err(BatchError::ConfigError);
        }
        let c = chars[i];
        proof {
            assert(chars@.skip(i as int)[0] == c);
        }
        if c == ']' {
            proof {
                assert(chars@.skip(i as int).skip(1) =~= chars@.skip(i as int + 1));
                assert(out@.map_values(|q: CommitmentName| q@) + Seq::<
                    CommitmentNameView,
                >::empty() =~= out@.map_values(|q: CommitmentName| q@));
            }
            return Ok((out, i + 1));
        } else if c == ',' {
            proof {
                assert(chars@.skip(i as int).skip(1) =~= chars@.skip(i as int + 1));
            }
            let (p, i2) = match p_cn(chars, i + 1) {
                Ok(v) => v,
                Err(e) => {
                    return Err(e);
                },
            };
            let ghost pre = out@;
            out.push(p);
            proof {
                assert(chars@.skip(i2 as int).len() < chars@.skip(i as int).len());
                assert(out@.map_values(|q: CommitmentName| q@) =~= pre.map_values(
                    |q: CommitmentName| q@,
                ).push(p@));
                match sp_cns_rest(chars@.skip(i2 as int)) {
                    Some(rr) => {
                        assert(out@.map_values(|q: CommitmentName| q@) + rr.0 =~= pre.map_values(
                            |q: CommitmentName| q@,
                        ) + (seq![p@] + rr.0));
                    },
                    None => {},
                }
            }
            i = i2;
        } else {
            return Err(BatchError::ConfigError);
        }
    }
}

#[verifier::loop_isolation(false)]
#[verifier::rlimit(60)]
fn p_abs_list(chars: &Vec<char>, pos: usize) -> (r: Result<(Vec<CommitmentAbsorb>, usize),
    BatchError,
>)
    requires
        pos <= chars@.len(),
    ensures
        match r {
            Ok(p) => pos <= p.1 <= chars@.len() && sp_abs_list(chars@.skip(pos as int)) == Some(
                (p.0@.map_values(|q: CommitmentAbsorb| q@), chars@.skip(p.1 as int)),
            ),
            Err(e) => sp_abs_list(chars@.skip(pos as int)) is None && e
                == BatchError::ConfigError,
        },
{
    if pos < chars.len() && chars[pos] == ']' {
        proof {
            assert(chars@.skip(pos as int)[0] == ']');
            assert(chars@.skip(pos as int).skip(1) =~= chars@.skip(pos as int + 1));
        }
        let empty: Vec<CommitmentAbsorb> = Vec::new();
        proof {
            assert(empty@.map_values(|q: CommitmentAbsorb| q@) =~= Seq::<
                CommitmentAbsorbView,
            >::empty());
        }
        return Ok((empty, pos + 1));
    }
    proof {
        if chars@.skip(pos as int).len() > 0 {
            assert(chars@.skip(pos as int)[0] == chars@[pos as int]);
        }
    }
    let (first, mut i) = match p_ab(chars, pos) {
        Ok(v) => v,
        Err(e) => {
            return Err(e);
        },
    };
    let mut out: Vec<CommitmentAbsorb> = Vec::new();
    out.push(first);
    proof {
        assert(chars@.skip(i as int).len() < chars@.skip(pos as int).len());
    }
    loop
        invariant
            pos < i <= chars@.len(),
            sp_abs_list(chars@.skip(pos as int)) == (match sp_abs_rest(chars@.skip(i as int)) {
                Some(p) => Some((out@.map_values(|q: CommitmentAbsorb| q@) + p.0, p.1)),
                None => None,
            }),
        decreases chars@.len() - i,
    {
        if i >= chars.len() {
            proof {
                assert(chars@.skip(i as int).len() == 0);
            }
            return Err(BatchError::ConfigError);
        }
        let c = chars[i];
        proof {
            assert(chars@.skip(i as int)[0] == c);
        }
        if c == ']' {
            proof {
                assert(chars@.skip(i as int).skip(1) =~= chars@.skip(i as int + 1));
                assert(out@.map_values(|q: CommitmentAbsorb| q@) + Seq::<
                    CommitmentAbsorbView,
                >::empty() =~= out@.map_values(|q: CommitmentAbsorb| q@));
            }
            return Ok((out, i + 1));
        } else if c == ',' {
            proof {
                assert(chars@.skip(i as int).skip(1) =~= chars@.skip(i as int + 1));
            }
            let (p, i2) = match p_ab(chars, i + 1) {
                Ok(v) => v,
                Err(e) => {
                    return Err(e);
                },
            };
            let ghost pre = out@;
            out.push(p);
            proof {
                assert(chars@.skip(i2 as int).len() < chars@.skip(i as int).len());
                assert(out@.map_values(|q: CommitmentAbsorb| q@) =~= pre.map_values(
                    |q: CommitmentAbsorb| q@,
                ).push(p@));
                match sp_abs_rest(chars@.skip(i2 as int)) {
                    Some(rr) => {
                        assert(out@.map_values(|q: CommitmentAbsorb| q@) + rr.0 =~= pre.map_values(
                            |q: CommitmentAbsorb| q@,
                        ) + (seq![p@] + rr.0));
                    },
                    None => {},
                }
            }
            i = i2;
        } else {
            return Err(BatchError::ConfigError);
        }
    }
}

impl CommitmentCheck {
    /// Parses a persisted commitment-policy document; succeeds exactly on
    /// a whole well-formed document and fails with `ConfigError`
    /// otherwise.
    #[verifier::rlimit(60)]
    pub fn load(text: &str) -> (r: Result<CommitmentCheck, BatchError>)
        ensures
            match r {
                Ok(check) => sp_check(text@) matches Some(q) && q.0 == check@ && q.1 == Seq::<
                    char,
                >::empty(),
                Err(e) => (sp_check(text@) is None || (sp_check(text@) matches Some(q)
                    && q.1.len() != 0)) && e == BatchError::ConfigError,
            },
    {
        let chars = chars_of(text);
        proof {
            assert(chars@.skip(0) =~= text@);
        }
        let p1 = match p_lit(&chars, 0, "{\"equivalents\":[") {
            Ok(v) => v,
            Err(e) => {
                return Err(e);
            },
        };
        let (equivalents, p2) = match p_pairs_list(&chars, p1) {
            Ok(v) => v,
            Err(e) => {
                return Err(e);
            },
        };
        let p3 = match p_lit(&chars, p2, ",\"expose\":[") {
            Ok(v) => v,
            Err(e) => {
                return Err(e);
            },
        };
        let (expose, p4) = match p_cns_list(&chars, p3) {
            Ok(v) => v,
            Err(e) => {
                return Err(e);
            },
        };
        let p5 = match p_lit(&chars, p4, ",\"absorb\":[") {
            Ok(v) => v,
            Err(e) => {
                return Err(e);
            },
        };
        let (absorb, p6) = match p_abs_list(&chars, p5) {
            Ok(v) => v,
            Err(e) => {
                return Err(e);
            },
        };
        let p7 = match p_lit(&chars, p6, "}") {
            Ok(v) => v,
            Err(e) => {
                return Err(e);
            },
        };
        if p7 != chars.len() {
            proof {
                assert(chars@.skip(p7 as int).len() != 0);
            }
            return Err(BatchError::ConfigError);
        }
        proof {
            assert(chars@.skip(p7 as int) =~= Seq::<char>::empty());
        }
        Ok(CommitmentCheck { equivalents, expose, absorb })
    }
}

#[verifier::rlimit(60)]
pub proof fn lemma_sp_cn_rt(c: CommitmentNameView, tail: Seq<char>)
    requires
        cn_ok(c),
    ensures
        sp_cn(emit_cn(c) + tail) == Some((c, tail)),
{
    reveal_strlit(",\"column_name\":");
    let c1 = "{\"name\":"@;
    let c2 = ",\"proof_idx\":"@;
    let c3 = ",\"column_name\":"@;
    let c4 = "}"@;
    let t6 = c4 + tail;
    let t5 = emit_string(c.column_name) + t6;
    let t4 = c3 + t5;
    let t3 = spec_decimal(c.proof_idx as nat) + t4;
    let t2 = c2 + t3;
    let t1 = emit_string(c.name) + t2;
    let input = emit_cn(c) + tail;
    assert(input =~= c1 + t1);
    lemma_sp_lit_rt(c1, t1);
    lemma_sp_string_rt(c.name, t2);
    lemma_sp_lit_rt(c2, t3);
    assert(t4[0] == ',');
    assert(!is_digit(','));
    lemma_sp_number_dec(c.proof_idx as nat, t4);
    lemma_sp_lit_rt(c3, t5);
    lemma_sp_string_rt(c.column_name, t6);
    lemma_sp_lit_rt(c4, tail);
    assert(sp_cn(input) matches Some(q) && q.0 == c && q.1 == tail);
}

#[verifier::rlimit(60)]
pub proof fn lemma_sp_ci_rt(c: CommitmentInInstanceView, tail: Seq<char>)
    requires
        ci_ok(c),
    ensures
        sp_ci(emit_ci(c) + tail) == Some((c, tail)),
{
    reveal_strlit(",\"group_idx\":");
    reveal_strlit("}");
    let c1 = "{\"name\":"@;
    let c2 = ",\"proof_idx\":"@;
    let c3 = ",\"group_idx\":"@;
    let c4 = "}"@;
    let t6 = c4 + tail;
    let t5 = spec_decimal(c.group_idx as nat) + t6;
    let t4 = c3 + t5;
    let t3 = spec_decimal(c.proof_idx as nat) + t4;
    let t2 = c2 + t3;
    let t1 = emit_string(c.name) + t2;
    let input = emit_ci(c) + tail;
    assert(input =~= c1 + t1);
    lemma_sp_lit_rt(c1, t1);
    lemma_sp_string_rt(c.name, t2);
    lemma_sp_lit_rt(c2, t3);
    assert(t4[0] == ',');
    assert(!is_digit(','));
    lemma_sp_number_dec(c.proof_idx as nat, t4);
    lemma_sp_lit_rt(c3, t5);
    assert(t6[0] == '}');
    assert(!is_digit('}'));
    lemma_sp_number_dec(c.group_idx as nat, t6);
    lemma_sp_lit_rt(c4, tail);
    assert(sp_ci(input) matches Some(q) && q.0 == c && q.1 == tail);
}

pub proof fn lemma_sp_pair_rt(p: CommitmentEquivPairView, tail: Seq<char>)
    requires
        cn_ok(p.source),
        cn_ok(p.target),
    ensures
        sp_pair(emit_pair(p) + tail) == Some((p, tail)),
{
    let c1 = "{\"source\":"@;
    let c2 = ",\"target\":"@;
    let c3 = "}"@;
    let t4 = c3 + tail;
    let t3 = emit_cn(p.target) + t4;
    let t2 = c2 + t3;
    let t1 = emit_cn(p.source) + t2;
    let input = emit_pair(p) + tail;
    assert(input =~= c1 + t1);
    lemma_sp_lit_rt(c1, t1);
    lemma_sp_cn_rt(p.source, t2);
    lemma_sp_lit_rt(c2, t3);
    lemma_sp_cn_rt(p.target, t4);
    lemma_sp_lit_rt(c3, tail);
    assert(sp_pair(input) matches Some(q) && q.0 == p && q.1 == tail);
}

pub proof fn lemma_sp_ab_rt(a: CommitmentAbsorbView, tail: Seq<char>)
    requires
        ci_ok(a.instance_idx),
        cn_ok(a.target),
    ensures
        sp_ab(emit_ab(a) + tail) == Some((a, tail)),
{
    let c1 = "{\"instance_idx\":"@;
    let c2 = ",\"target\":"@;
    let c3 = "}"@;
    let t4 = c3 + tail;
    let t3 = emit_cn(a.target) + t4;
    let t2 = c2 + t3;
    let t1 = emit_ci(a.instance_idx) + t2;
    let input = emit_ab(a) + tail;
    assert(input =~= c1 + t1);
    lemma_sp_lit_rt(c1, t1);
    lemma_sp_ci_rt(a.instance_idx, t2);
    lemma_sp_lit_rt(c2, t3);
    lemma_sp_cn_rt(a.target, t4);
    lemma_sp_lit_rt(c3, tail);
    assert(sp_ab(input) matches Some(q) && q.0 == a && q.1 == tail);
}

/// Everything a pair list's emission holds after its first pair.
pub open spec fn emit_pairs_rest(ps: Seq<CommitmentEquivPairView>) -> Seq<char>
    decreases ps.len(),
{
    if ps.len() == 0 {
        seq![']']
    } else {
        seq![','] + emit_pair(ps[0]) + emit_pairs_rest(ps.skip(1))
    }
}

/// Everything a name list's emission holds after its first name.
pub open spec fn emit_cns_rest(ps: Seq<CommitmentNameView>) -> Seq<char>
    decreases ps.len(),
{
    if ps.len() == 0 {
        seq![']']
    } else {
        seq![','] + emit_cn(ps[0]) + emit_cns_rest(ps.skip(1))
    }
}

/// Everything an absorb list's emission holds after its first edge.
pub open spec fn emit_abs_rest(ps: Seq<CommitmentAbsorbView>) -> Seq<char>
    decreases ps.len(),
{
    if ps.len() == 0 {
        seq![']']
    } else {
        seq![','] + emit_ab(ps[0]) + emit_abs_rest(ps.skip(1))
    }
}

proof fn lemma_pairs_inner_rest(ps: Seq<CommitmentEquivPairView>)
    requires
        ps.len() >= 1,
    ensures
        emit_pairs_inner(ps) + seq![']'] == emit_pair(ps[0]) + emit_pairs_rest(ps.skip(1)),
    decreases ps.len(),
{
    if ps.len() == 1 {
        assert(emit_pairs_rest(ps.skip(1)) =~= seq![']']);
        assert(emit_pairs_inner(ps) + seq![']'] =~= emit_pair(ps[0]) + emit_pairs_rest(
            ps.skip(1),
        ));
    } else {
        lemma_pairs_inner_rest(ps.skip(1));
        assert(ps.skip(1)[0] == ps[1]);
        assert(ps.skip(1).skip(1) =~= ps.skip(2));
        assert(emit_pairs_inner(ps.skip(1)) + seq![']'] =~= emit_pair(ps[1]) + emit_pairs_rest(
            ps.skip(2),
        ));
        assert(emit_pairs_inner(ps) + seq![']'] =~= emit_pair(ps[0]) + (seq![','] + (
        emit_pairs_inner(ps.skip(1)) + seq![']'])));
        assert(emit_pairs_rest(ps.skip(1)) == seq![','] + emit_pair(ps.skip(1)[0]) + emit_pairs_rest(
            ps.skip(1).skip(1),
        ));
        assert(emit_pair(ps[0]) + emit_pairs_rest(ps.skip(1)) =~= emit_pair(ps[0]) + (seq![','] + (
        emit_pair(ps[1]) + emit_pairs_rest(ps.skip(2)))));
        assert(emit_pairs_inner(ps) + seq![']'] =~= emit_pair(ps[0]) + emit_pairs_rest(
            ps.skip(1),
        ));
    }
}

proof fn lemma_cns_inner_rest(ps: Seq<CommitmentNameView>)
    requires
        ps.len() >= 1,
    ensures
        emit_cns_inner(ps) + seq![']'] == emit_cn(ps[0]) + emit_cns_rest(ps.skip(1)),
    decreases ps.len(),
{
    if ps.len() == 1 {
        assert(emit_cns_rest(ps.skip(1)) =~= seq![']']);
        assert(emit_cns_inner(ps) + seq![']'] =~= emit_cn(ps[0]) + emit_cns_rest(ps.skip(1)));
    } else {
        lemma_cns_inner_rest(ps.skip(1));
        assert(ps.skip(1)[0] == ps[1]);
        assert(ps.skip(1).skip(1) =~= ps.skip(2));
        assert(emit_cns_inner(ps.skip(1)) + seq![']'] =~= emit_cn(ps[1]) + emit_cns_rest(
            ps.skip(2),
        ));
        assert(emit_cns_inner(ps) + seq![']'] =~= emit_cn(ps[0]) + (seq![','] + (
        emit_cns_inner(ps.skip(1)) + seq![']'])));
        assert(emit_cns_rest(ps.skip(1)) == seq![','] + emit_cn(ps.skip(1)[0]) + emit_cns_rest(
            ps.skip(1).skip(1),
        ));
        assert(emit_cn(ps[0]) + emit_cns_rest(ps.skip(1)) =~= emit_cn(ps[0]) + (seq![','] + (
        emit_cn(ps[1]) + emit_cns_rest(ps.skip(2)))));
        assert(emit_cns_inner(ps) + seq![']'] =~= emit_cn(ps[0]) + emit_cns_rest(ps.skip(1)));
    }
}

proof fn lemma_abs_inner_rest(ps: Seq<CommitmentAbsorbView>)
    requires
        ps.len() >= 1,
    ensures
        emit_abs_inner(ps) + seq![']'] == emit_ab(ps[0]) + emit_abs_rest(ps.skip(1)),
    decreases ps.len(),
{
    if ps.len() == 1 {
        assert(emit_abs_rest(ps.skip(1)) =~= seq![']']);
        assert(emit_abs_inner(ps) + seq![']'] =~= emit_ab(ps[0]) + emit_abs_rest(ps.skip(1)));
    } else {
        lemma_abs_inner_rest(ps.skip(1));
        assert(ps.skip(1)[0] == ps[1]);
        assert(ps.skip(1).skip(1) =~= ps.skip(2));
        assert(emit_abs_inner(ps.skip(1)) + seq![']'] =~= emit_ab(ps[1]) + emit_abs_rest(
            ps.skip(2),
        ));
        assert(emit_abs_inner(ps) + seq![']'] =~= emit_ab(ps[0]) + (seq![','] + (
        emit_abs_inner(ps.skip(1)) + seq![']'])));
        assert(emit_abs_rest(ps.skip(1)) == seq![','] + emit_ab(ps.skip(1)[0]) + emit_abs_rest(
            ps.skip(1).skip(1),
        ));
        assert(emit_ab(ps[0]) + emit_abs_rest(ps.skip(1)) =~= emit_ab(ps[0]) + (seq![','] + (
        emit_ab(ps[1]) + emit_abs_rest(ps.skip(2)))));
        assert(emit_abs_inner(ps) + seq![']'] =~= emit_ab(ps[0]) + emit_abs_rest(ps.skip(1)));
    }
}

proof fn lemma_emit_pair_nonempty(p: CommitmentEquivPairView)
    ensures
        emit_pair(p).len() >= 1,
        emit_pair(p)[0] == '{',
{
    reveal_strlit("{\"source\":");
    assert(emit_pair(p)[0] == ("{\"source\":"@)[0]);
}

proof fn lemma_emit_cn_nonempty(c: CommitmentNameView)
    ensures
        emit_cn(c).len() >= 1,
        emit_cn(c)[0] == '{',
{
    reveal_strlit("{\"name\":");
    assert(emit_cn(c)[0] == ("{\"name\":"@)[0]);
}

proof fn lemma_emit_ab_nonempty(a: CommitmentAbsorbView)
    ensures
        emit_ab(a).len() >= 1,
        emit_ab(a)[0] == '{',
{
    reveal_strlit("{\"instance_idx\":");
    assert(emit_ab(a)[0] == ("{\"instance_idx\":"@)[0]);
}

#[verifier::rlimit(60)]
proof fn lemma_sp_pairs_rest_rt(ps: Seq<CommitmentEquivPairView>, tail: Seq<char>)
    requires
        forall|i: int|
            0 <= i < ps.len() ==> cn_ok((#[trigger] ps[i]).source) && cn_ok(ps[i].target),
    ensures
        sp_pairs_rest(emit_pairs_rest(ps) + tail) == Some((ps, tail)),
    decreases ps.len(),
{
    let input = emit_pairs_rest(ps) + tail;
    if ps.len() == 0 {
        assert(input =~= seq![']'] + tail);
        assert(input[0] == ']');
        assert(input.skip(1) =~= tail);
        assert(ps =~= Seq::<CommitmentEquivPairView>::empty());
    } else {
        let rem = emit_pairs_rest(ps.skip(1)) + tail;
        assert(input =~= seq![','] + (emit_pair(ps[0]) + rem));
        assert(input[0] == ',');
        assert(input.skip(1) =~= emit_pair(ps[0]) + rem);
        lemma_sp_pair_rt(ps[0], rem);
        lemma_emit_pair_nonempty(ps[0]);
        assert(rem.len() < input.len());
        assert forall|i: int| 0 <= i < ps.skip(1).len() implies cn_ok(
            (#[trigger] ps.skip(1)[i]).source,
        ) && cn_ok(ps.skip(1)[i].target) by {
            assert(ps.skip(1)[i] == ps[i + 1]);
        }
        lemma_sp_pairs_rest_rt(ps.skip(1), tail);
        assert(seq![ps[0]] + ps.skip(1) =~= ps);
    }
}

#[verifier::rlimit(60)]
proof fn lemma_sp_cns_rest_rt(ps: Seq<CommitmentNameView>, tail: Seq<char>)
    requires
        forall|i: int| 0 <= i < ps.len() ==> cn_ok(#[trigger] ps[i]),
    ensures
        sp_cns_rest(emit_cns_rest(ps) + tail) == Some((ps, tail)),
    decreases ps.len(),
{
    let input = emit_cns_rest(ps) + tail;
    if ps.len() == 0 {
        assert(input =~= seq![']'] + tail);
        assert(input[0] == ']');
        assert(input.skip(1) =~= tail);
        assert(ps =~= Seq::<CommitmentNameView>::empty());
    } else {
        let rem = emit_cns_rest(ps.skip(1)) + tail;
        assert(input =~= seq![','] + (emit_cn(ps[0]) + rem));
        assert(input[0] == ',');
        assert(input.skip(1) =~= emit_cn(ps[0]) + rem);
        lemma_sp_cn_rt(ps[0], rem);
        lemma_emit_cn_nonempty(ps[0]);
        assert(rem.len() < input.len());
        assert forall|i: int| 0 <= i < ps.skip(1).len() implies cn_ok(
            #[trigger] ps.skip(1)[i],
        ) by {
            assert(ps.skip(1)[i] == ps[i + 1]);
        }
        lemma_sp_cns_rest_rt(ps.skip(1), tail);
        assert(seq![ps[0]] + ps.skip(1) =~= ps);
    }
}

#[verifier::rlimit(60)]
proof fn lemma_sp_abs_rest_rt(ps: Seq<CommitmentAbsorbView>, tail: Seq<char>)
    requires
        forall|i: int|
            0 <= i < ps.len() ==> ci_ok((#[trigger] ps[i]).instance_idx) && cn_ok(ps[i].target),
    ensures
        sp_abs_rest(emit_abs_rest(ps) + tail) == Some((ps, tail)),
    decreases ps.len(),
{
    let input = emit_abs_rest(ps) + tail;
    if ps.len() == 0 {
        assert(input =~= seq![']'] + tail);
        assert(input[0] == ']');
        assert(input.skip(1) =~= tail);
        assert(ps =~= Seq::<CommitmentAbsorbView>::empty());
    } else {
        let rem = emit_abs_rest(ps.skip(1)) + tail;
        assert(input =~= seq![','] + (emit_ab(ps[0]) + rem));
        assert(input[0] == ',');
        assert(input.skip(1) =~= emit_ab(ps[0]) + rem);
        lemma_sp_ab_rt(ps[0], rem);
        lemma_emit_ab_nonempty(ps[0]);
        assert(rem.len() < input.len());
        assert forall|i: int| 0 <= i < ps.skip(1).len() implies ci_ok(
            (#[trigger] ps.skip(1)[i]).instance_idx,
        ) && cn_ok(ps.skip(1)[i].target) by {
            assert(ps.skip(1)[i] == ps[i + 1]);
        }
        lemma_sp_abs_rest_rt(ps.skip(1), tail);
        assert(seq![ps[0]] + ps.skip(1) =~= ps);
    }
}

#[verifier::rlimit(60)]
proof fn lemma_sp_pairs_list_rt(ps: Seq<CommitmentEquivPairView>, tail: Seq<char>)
    requires
        forall|i: int|
            0 <= i < ps.len() ==> cn_ok((#[trigger] ps[i]).source) && cn_ok(ps[i].target),
    ensures
        sp_pairs_list(emit_pairs_inner(ps) + seq![']'] + tail) == Some((ps, tail)),
{
    let input = emit_pairs_inner(ps) + seq![']'] + tail;
    if ps.len() == 0 {
        assert(input =~= seq![']'] + tail);
        assert(input[0] == ']');
        assert(input.skip(1) =~= tail);
        assert(ps =~= Seq::<CommitmentEquivPairView>::empty());
    } else {
        lemma_pairs_inner_rest(ps);
        let rem = emit_pairs_rest(ps.skip(1)) + tail;
        assert(input =~= emit_pair(ps[0]) + rem);
        lemma_emit_pair_nonempty(ps[0]);
        assert(input[0] == '{');
        lemma_sp_pair_rt(ps[0], rem);
        assert(rem.len() < input.len());
        assert forall|i: int| 0 <= i < ps.skip(1).len() implies cn_ok(
            (#[trigger] ps.skip(1)[i]).source,
        ) && cn_ok(ps.skip(1)[i].target) by {
            assert(ps.skip(1)[i] == ps[i + 1]);
        }
        lemma_sp_pairs_rest_rt(ps.skip(1), tail);
        assert(seq![ps[0]] + ps.skip(1) =~= ps);
    }
}

#[verifier::rlimit(60)]
proof fn lemma_sp_cns_list_rt(ps: Seq<CommitmentNameView>, tail: Seq<char>)
    requires
        forall|i: int| 0 <= i < ps.len() ==> cn_ok(#[trigger] ps[i]),
    ensures
        sp_cns_list(emit_cns_inner(ps) + seq![']'] + tail) == Some((ps, tail)),
{
    let input = emit_cns_inner(ps) + seq![']'] + tail;
    if ps.len() == 0 {
        assert(input =~= seq![']'] + tail);
        assert(input[0] == ']');
        assert(input.skip(1) =~= tail);
        assert(ps =~= Seq::<CommitmentNameView>::empty());
    } else {
        lemma_cns_inner_rest(ps);
        let rem = emit_cns_rest(ps.skip(1)) + tail;
        assert(input =~= emit_cn(ps[0]) + rem);
        lemma_emit_cn_nonempty(ps[0]);
        assert(input[0] == '{');
        lemma_sp_cn_rt(ps[0], rem);
        assert(rem.len() < input.len());
        assert forall|i: int| 0 <= i < ps.skip(1).len() implies cn_ok(
            #[trigger] ps.skip(1)[i],
        ) by {
            assert(ps.skip(1)[i] == ps[i + 1]);
        }
        lemma_sp_cns_rest_rt(ps.skip(1), tail);
        assert(seq![ps[0]] + ps.skip(1) =~= ps);
    }
}

#[verifier::rlimit(60)]
proof fn lemma_sp_abs_list_rt(ps: Seq<CommitmentAbsorbView>, tail: Seq<char>)
    requires
        forall|i: int|
            0 <= i < ps.len() ==> ci_ok((#[trigger] ps[i]).instance_idx) && cn_ok(ps[i].target),
    ensures
        sp_abs_list(emit_abs_inner(ps) + seq![']'] + tail) == Some((ps, tail)),
{
    let input = emit_abs_inner(ps) + seq![']'] + tail;
    if ps.len() == 0 {
        assert(input =~= seq![']'] + tail);
        assert(input[0] == ']');
        assert(input.skip(1) =~= tail);
        assert(ps =~= Seq::<CommitmentAbsorbView>::empty());
    } else {
        lemma_abs_inner_rest(ps);
        let rem = emit_abs_rest(ps.skip(1)) + tail;
        assert(input =~= emit_ab(ps[0]) + rem);
        lemma_emit_ab_nonempty(ps[0]);
        assert(input[0] == '{');
        lemma_sp_ab_rt(ps[0], rem);
        assert(rem.len() < input.len());
        assert forall|i: int| 0 <= i < ps.skip(1).len() implies ci_ok(
            (#[trigger] ps.skip(1)[i]).instance_idx,
        ) && cn_ok(ps.skip(1)[i].target) by {
            assert(ps.skip(1)[i] == ps[i + 1]);
        }
        lemma_sp_abs_rest_rt(ps.skip(1), tail);
        assert(seq![ps[0]] + ps.skip(1) =~= ps);
    }
}

/// Law of the policy store: parsing a saved commitment-policy document
/// yields the policy it was saved from, with nothing left over.
#[verifier::rlimit(60)]
pub proof fn lemma_check_round_trip(v: CommitmentCheckView)
    requires
        check_ok(v),
    ensures
        sp_check(emit_check(v)) == Some((v, Seq::<char>::empty())),
{
    reveal_strlit("],\"expose\":[");
    reveal_strlit(",\"expose\":[");
    reveal_strlit("],\"absorb\":[");
    reveal_strlit(",\"absorb\":[");
    reveal_strlit("]}");
    reveal_strlit("}");
    let l1 = "{\"equivalents\":["@;
    let u5 = "}"@;
    let u4 = emit_abs_inner(v.absorb) + seq![']'] + u5;
    let u3 = ",\"absorb\":["@ + u4;
    let u2 = emit_cns_inner(v.expose) + seq![']'] + u3;
    let u1 = ",\"expose\":["@ + u2;
    let u0 = emit_pairs_inner(v.equivalents) + seq![']'] + u1;
    let input = emit_check(v);
    assert(("],\"expose\":["@) =~= seq![']'] + ",\"expose\":["@);
    assert(("],\"absorb\":["@) =~= seq![']'] + ",\"absorb\":["@);
    assert(("]}"@) =~= seq![']'] + "}"@);
    assert(input =~= l1 + u0);
    lemma_sp_lit_rt(l1, u0);
    lemma_sp_pairs_list_rt(v.equivalents, u1);
    lemma_sp_lit_rt(",\"expose\":["@, u2);
    lemma_sp_cns_list_rt(v.expose, u3);
    lemma_sp_lit_rt(",\"absorb\":["@, u4);
    lemma_sp_abs_list_rt(v.absorb, u5);
    assert(u5 =~= "}"@ + Seq::<char>::empty());
    lemma_sp_lit_rt("}"@, Seq::<char>::empty());
    assert(sp_check(input) matches Some(q) && q.0 == v && q.1 == Seq::<char>::empty());
}

proof fn lemma_pairs_inner_push(ps: Seq<CommitmentEquivPairView>, p: CommitmentEquivPairView)
    ensures
        emit_pairs_inner(ps.push(p)) == if ps.len() == 0 {
            emit_pair(p)
        } else {
            emit_pairs_inner(ps) + seq![','] + emit_pair(p)
        },
    decreases ps.len(),
{
    let sp = ps.push(p);
    if ps.len() == 0 {
        assert(sp.len() == 1 && sp[0] == p);
    } else if ps.len() == 1 {
        assert(sp.len() == 2 && sp[0] == ps[0]);
        assert(sp.skip(1) =~= seq![p]);
        assert(emit_pairs_inner(sp.skip(1)) == emit_pair(p));
        assert(emit_pairs_inner(sp) =~= emit_pairs_inner(ps) + seq![','] + emit_pair(p));
    } else {
        assert(sp[0] == ps[0]);
        assert(sp.skip(1) =~= ps.skip(1).push(p));
        lemma_pairs_inner_push(ps.skip(1), p);
        assert(emit_pairs_inner(sp) == emit_pair(sp[0]) + seq![','] + emit_pairs_inner(
            sp.skip(1),
        ));
        assert(emit_pairs_inner(sp) =~= emit_pairs_inner(ps) + seq![','] + emit_pair(p));
    }
}

proof fn lemma_cns_inner_push(ps: Seq<CommitmentNameView>, p: CommitmentNameView)
    ensures
        emit_cns_inner(ps.push(p)) == if ps.len() == 0 {
            emit_cn(p)
        } else {
            emit_cns_inner(ps) + seq![','] + emit_cn(p)
        },
    decreases ps.len(),
{
    let sp = ps.push(p);
    if ps.len() == 0 {
        assert(sp.len() == 1 && sp[0] == p);
    } else if ps.len() == 1 {
        assert(sp.len() == 2 && sp[0] == ps[0]);
        assert(sp.skip(1) =~= seq![p]);
        assert(emit_cns_inner(sp.skip(1)) == emit_cn(p));
        assert(emit_cns_inner(sp) =~= emit_cns_inner(ps) + seq![','] + emit_cn(p));
    } else {
        assert(sp[0] == ps[0]);
        assert(sp.skip(1) =~= ps.skip(1).push(p));
        lemma_cns_inner_push(ps.skip(1), p);
        assert(emit_cns_inner(sp) == emit_cn(sp[0]) + seq![','] + emit_cns_inner(sp.skip(1)));
        assert(emit_cns_inner(sp) =~= emit_cns_inner(ps) + seq![','] + emit_cn(p));
    }
}

proof fn lemma_abs_inner_push(ps: Seq<CommitmentAbsorbView>, p: CommitmentAbsorbView)
    ensures
        emit_abs_inner(ps.push(p)) == if ps.len() == 0 {
            emit_ab(p)
        } else {
            emit_abs_inner(ps) + seq![','] + emit_ab(p)
        },
    decreases ps.len(),
{
    let sp = ps.push(p);
    if ps.len() == 0 {
        assert(sp.len() == 1 && sp[0] == p);
    } else if ps.len() == 1 {
        assert(sp.len() == 2 && sp[0] == ps[0]);
        assert(sp.skip(1) =~= seq![p]);
        assert(emit_abs_inner(sp.skip(1)) == emit_ab(p));
        assert(emit_abs_inner(sp) =~= emit_abs_inner(ps) + seq![','] + emit_ab(p));
    } else {
        assert(sp[0] == ps[0]);
        assert(sp.skip(1) =~= ps.skip(1).push(p));
        lemma_abs_inner_push(ps.skip(1), p);
        assert(emit_abs_inner(sp) == emit_ab(sp[0]) + seq![','] + emit_abs_inner(sp.skip(1)));
        assert(emit_abs_inner(sp) =~= emit_abs_inner(ps) + seq![','] + emit_ab(p));
    }
}

} // verus!
