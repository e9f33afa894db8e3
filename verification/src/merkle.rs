use vstd::prelude::*;

use crate::errors::BatchError;
use sha2::Digest;

verus! {

/// SHA-256 digest of `bytes`. Only named here: the digest is computed by
/// the sha2 crate and depends on the input bytes alone.
pub uninterp spec fn sha256_of(bytes: Seq<u8>) -> Seq<u8>;

/// Relies on sha2::Sha256 (`Digest::new` / `update` / `finalize`): returns
/// the 32-byte SHA-256 digest of the two inputs concatenated, a function of
/// those bytes alone.
#[verifier::external_body]
pub fn hash_pair(left: &[u8; 32], right: &[u8; 32]) -> (r: [u8; 32])
    ensures
        r@ == sha256_of(left@ + right@),
{
    let mut h = sha2::Sha256::new();
    h.update(left.as_slice());
    h.update(right.as_slice());
    h.finalize().into()
}

/// Two to the power `e`.
pub open spec fn pow2(e: nat) -> nat
    decreases e,
{
    if e == 0 {
        1
    } else {
        2 * pow2((e - 1) as nat)
    }
}

pub proof fn lemma_pow2_pos(e: nat)
    ensures
        pow2(e) >= 1,
    decreases e,
{
    if e > 0 {
        lemma_pow2_pos((e - 1) as nat);
    }
}

pub proof fn lemma_pow2_mono(a: nat, b: nat)
    requires
        a <= b,
    ensures
        pow2(a) <= pow2(b),
    decreases b,
{
    if a < b && b > 0 {
        lemma_pow2_mono(a, (b - 1) as nat);
    }
}

/// Two to the power `e`, as a machine integer.
pub fn pow2_usize(e: usize) -> (r: usize)
    requires
        pow2(e as nat) <= usize::MAX,
    ensures
        r == pow2(e as nat),
{
    let mut r: usize = 1;
    let mut i: usize = 0;
    while i < e
        invariant
            i <= e,
            r == pow2(i as nat),
            pow2(e as nat) <= usize::MAX,
        decreases e - i,
    {
        proof {
            lemma_pow2_mono((i + 1) as nat, e as nat);
        }
        r = r * 2;
        i = i + 1;
    }
    r
}

/// The digests of a record array, as mathematical byte sequences.
pub open spec fn dv(s: Seq<[u8; 32]>) -> Seq<Seq<u8>> {
    s.map_values(|a: [u8; 32]| a@)
}

/// One level up in the tree: each adjacent pair hashed into its parent.
pub open spec fn parent_layer(layer: Seq<Seq<u8>>) -> Seq<Seq<u8>> {
    Seq::new(layer.len() / 2, |i: int| sha256_of(layer[2 * i] + layer[2 * i + 1]))
}

/// All records above a layer, bottom layer's parents first.
pub open spec fn upper_records(layer: Seq<Seq<u8>>, depth: nat) -> Seq<Seq<u8>>
    decreases depth,
{
    if depth == 0 {
        Seq::empty()
    } else {
        parent_layer(layer) + upper_records(parent_layer(layer), (depth - 1) as nat)
    }
}

/// The flat record file contents: the leaves, then each parent layer in
/// turn, up to the single root.
pub open spec fn merkle_records(leaves: Seq<Seq<u8>>, depth: nat) -> Seq<Seq<u8>> {
    leaves + upper_records(leaves, depth)
}

pub proof fn lemma_upper_records_len(layer: Seq<Seq<u8>>, depth: nat)
    requires
        layer.len() == pow2(depth),
    ensures
        upper_records(layer, depth).len() == pow2(depth) - 1,
    decreases depth,
{
    if depth > 0 {
        lemma_upper_records_len(parent_layer(layer), (depth - 1) as nat);
    }
}

fn digest_eq(a: &[u8; 32], b: &[u8; 32]) -> (r: bool)
    ensures
        r == (a@ == b@),
{
    let mut i: usize = 0;
    while i < 32
        invariant
            i <= 32,
            forall|j: int| 0 <= j < i ==> a@[j] == b@[j],
        decreases 32 - i,
    {
        if a[i] != b[i] {
            return false;
        }
        i = i + 1;
    }
    proof {
        assert(a@ =~= b@);
    }
    true
}

fn append_level(data: &mut Vec<[u8; 32]>, base: usize, llen: usize)
    requires
        base + llen == old(data)@.len(),
        llen % 2 == 0,
        old(data)@.len() + llen / 2 <= usize::MAX,
    ensures
        final(data)@.len() == old(data)@.len() + llen / 2,
        dv(final(data)@) == dv(old(data)@) + parent_layer(
            dv(old(data)@).subrange(base as int, (base + llen) as int),
        ),
{
    let ghost layer = dv(old(data)@).subrange(base as int, (base + llen) as int);
    let half = llen / 2;
    let mut i: usize = 0;
    while i < half
        invariant
            i <= half,
            half == llen / 2,
            llen % 2 == 0,
            base + llen == old(data)@.len(),
            old(data)@.len() + half <= usize::MAX,
            data@.len() == old(data)@.len() + i,
            layer == dv(old(data)@).subrange(base as int, (base + llen) as int),
            dv(data@) == dv(old(data)@) + parent_layer(layer).take(i as int),
        decreases half - i,
    {
        let left = data[base + 2 * i];
        let right = data[base + 2 * i + 1];
        proof {
            let j = (base + 2 * i) as int;
            assert(left == data@[j] && right == data@[j + 1]);
            assert(dv(data@)[j] == data@[j]@ && dv(data@)[j + 1] == data@[j + 1]@);
            assert(dv(data@)[j] == dv(old(data)@)[j] && dv(data@)[j + 1] == dv(old(data)@)[j
                + 1]);
            assert(layer[2 * (i as int)] == dv(old(data)@)[j]);
            assert(layer[2 * (i as int) + 1] == dv(old(data)@)[j + 1]);
        }
        let h = hash_pair(&left, &right);
        let ghost pre = data@;
        data.push(h);
        proof {
            assert(h@ == sha256_of(layer[2 * (i as int)] + layer[2 * (i as int) + 1]));
            assert(h@ == parent_layer(layer)[i as int]);
            assert(dv(data@) =~= dv(pre).push(h@));
            assert(parent_layer(layer).take(i as int + 1) =~= parent_layer(layer).take(
                i as int,
            ).push(parent_layer(layer)[i as int]));
            assert(dv(data@) =~= dv(old(data)@) + parent_layer(layer).take(i as int + 1));
        }
        i = i + 1;
    }
    proof {
        assert(parent_layer(layer).take(half as int) =~= parent_layer(layer));
    }
}

fn append_upper(data: &mut Vec<[u8; 32]>, base: usize, llen: usize, depth: usize)
    requires
        base + llen == old(data)@.len(),
        llen == pow2(depth as nat),
        old(data)@.len() + llen - 1 <= usize::MAX,
    ensures
        final(data)@.len() == old(data)@.len() + llen - 1,
        dv(final(data)@) == dv(old(data)@) + upper_records(
            dv(old(data)@).subrange(base as int, (base + llen) as int),
            depth as nat,
        ),
    decreases depth,
{
    let ghost layer = dv(old(data)@).subrange(base as int, (base + llen) as int);
    if depth == 0 {
        proof {
            assert(dv(data@) =~= dv(data@) + upper_records(layer, 0));
        }
    } else {
        append_level(data, base, llen);
        let ghost mid = dv(data@);
        proof {
            assert(mid.subrange((base + llen) as int, (base + llen + llen / 2) as int)
                =~= parent_layer(layer));
        }
        append_upper(data, base + llen, llen / 2, depth - 1);
        proof {
            assert(dv(data@) =~= dv(old(data)@) + upper_records(layer, depth as nat));
        }
    }
}

/// Extends `data`, holding `2^depth` leaf digests, with every parent layer
/// of the binary hash tree over them: afterwards it holds the whole flat
/// record array, `2 * leaves - 1` entries in depth-major order.
pub fn construct_merkle_records(data: &mut Vec<[u8; 32]>, depth: usize)
    requires
        old(data)@.len() == pow2(depth as nat),
        2 * pow2(depth as nat) - 1 <= usize::MAX,
    ensures
        final(data)@.len() == 2 * old(data)@.len() - 1,
        dv(final(data)@) == merkle_records(dv(old(data)@), depth as nat),
{
    let llen = data.len();
    proof {
        assert(dv(data@).subrange(0, llen as int) =~= dv(data@));
    }
    append_upper(data, 0, llen, depth);
}

/// One step of the audit walk, from the current level upward. Yields
/// whether every stored record met its recomputation, the sibling digests
/// collected on the way, and the recomputed root.
pub open spec fn spec_walk(
    records: Seq<Seq<u8>>,
    levels: nat,
    lsize: nat,
    acc: nat,
    cur: Seq<u8>,
) -> (bool, Seq<Seq<u8>>, Seq<u8>)
    decreases levels,
{
    if levels == 0 {
        (true, Seq::empty(), cur)
    } else if records[acc as int] != cur {
        (false, Seq::empty(), cur)
    } else {
        let sib = if acc % 2 == 0 {
            records[acc as int + 1]
        } else {
            records[acc as int - 1]
        };
        let pair = if acc % 2 == 0 {
            records[acc as int] + records[acc as int + 1]
        } else {
            records[acc as int - 1] + records[acc as int]
        };
        let rest = spec_walk(
            records.skip(lsize as int),
            (levels - 1) as nat,
            lsize / 2,
            acc / 2,
            sha256_of(pair),
        );
        (rest.0, seq![sib] + rest.1, rest.2)
    }
}

/// Iterative re-hash of an audit path `[leaf, sibling0, sibling1, ...]`
/// for the leaf at `index`: the root that the path claims.
pub open spec fn spec_rehash(path: Seq<Seq<u8>>, index: nat) -> Seq<u8>
    decreases path.len(),
{
    if path.len() <= 1 {
        path[0]
    } else {
        let next = if index % 2 == 0 {
            sha256_of(path[0] + path[1])
        } else {
            sha256_of(path[1] + path[0])
        };
        spec_rehash(seq![next] + path.skip(2), index / 2)
    }
}

/// Walks the flat record array from leaf `index` to the root, recomputing
/// each parent and checking it against the stored record; returns the
/// audit path (leaf first, then one sibling per level), or
/// `IntegrityError` on the first mismatch.
pub fn construct_merkle_proof(data: &Vec<[u8; 32]>, index: usize, depth: usize) -> (r: Result<
    Vec<[u8; 32]>,
    BatchError,
>)
    requires
        data@.len() == 2 * pow2(depth as nat) - 1,
        2 * pow2(depth as nat) - 1 <= usize::MAX,
        index < pow2(depth as nat),
    ensures
        ({
            let w = spec_walk(
                dv(data@),
                depth as nat,
                pow2(depth as nat),
                index as nat,
                dv(data@)[index as int],
            );
            match r {
                Ok(path) => w.0 && path@.len() == depth + 1 && dv(path@) == seq![
                    dv(data@)[index as int],
                ] + w.1,
                Err(e) => !w.0 && e == BatchError::IntegrityError,
            }
        }),
{
    let ghost full = spec_walk(
        dv(data@),
        depth as nat,
        pow2(depth as nat),
        index as nat,
        dv(data@)[index as int],
    );
    let mut path: Vec<[u8; 32]> = Vec::new();
    let leaf = data[index];
    path.push(leaf);
    let mut acc = index;
    let mut base: usize = 0;
    let mut cur = leaf;
    proof {
        lemma_pow2_mono(0, depth as nat);
    }
    let mut lsize = pow2_usize(depth);
    let mut d: usize = 0;
    proof {
        assert(dv(data@).skip(0) =~= dv(data@));
        assert(cur@ == dv(data@)[index as int]);
        assert(dv(path@) =~= seq![dv(data@)[index as int]]);
    }
    while d < depth
        invariant
            d <= depth,
            lsize == pow2((depth - d) as nat),
            acc < lsize,
            base == 2 * pow2(depth as nat) - 2 * lsize,
            data@.len() == 2 * pow2(depth as nat) - 1,
            2 * pow2(depth as nat) - 1 <= usize::MAX,
            full == spec_walk(
                dv(data@),
                depth as nat,
                pow2(depth as nat),
                index as nat,
                dv(data@)[index as int],
            ),
            ({
                let w = spec_walk(
                    dv(data@).skip(base as int),
                    (depth - d) as nat,
                    lsize as nat,
                    acc as nat,
                    cur@,
                );
                full.0 == w.0 && (w.0 ==> seq![dv(data@)[index as int]] + full.1 == dv(path@)
                    + w.1)
            }),
            path@.len() == d + 1,
        decreases depth - d,
    {
        proof {
            lemma_pow2_pos((depth - d - 1) as nat);
            assert(pow2((depth - d) as nat) == 2 * pow2((depth - d - 1) as nat));
            assert(lsize >= 2);
            assert(base + lsize <= data@.len());
            assert(base + acc < data@.len());
        }
        let stored = data[base + acc];
        if !digest_eq(&stored, &cur) {
            return Err(BatchError::IntegrityError);
        }
        let sib_idx = if acc % 2 == 0 {
            base + acc + 1
        } else {
            base + acc - 1
        };
        let sib = data[sib_idx];
        let h = if acc % 2 == 0 {
            hash_pair(&stored, &sib)
        } else {
            hash_pair(&sib, &stored)
        };
        path.push(sib);
        proof {
            let rem = dv(data@).skip(base as int);
            let w = spec_walk(rem, (depth - d) as nat, lsize as nat, acc as nat, cur@);
            assert(rem[acc as int] == cur@);
            assert(rem.skip(lsize as int) =~= dv(data@).skip((base + lsize) as int));
            if acc % 2 == 0 {
                assert(h@ == sha256_of(rem[acc as int] + rem[acc as int + 1]));
            } else {
                assert(h@ == sha256_of(rem[acc as int - 1] + rem[acc as int]));
            }
            let w2 = spec_walk(
                dv(data@).skip((base + lsize) as int),
                (depth - d - 1) as nat,
                (lsize / 2) as nat,
                (acc / 2) as nat,
                h@,
            );
            assert(w.0 == w2.0 && w.1 == seq![sib@] + w2.1);
            if w2.0 {
                assert(seq![dv(data@)[index as int]] + full.1 =~= dv(path@) + w2.1);
            }
        }
        base = base + lsize;
        lsize = lsize / 2;
        acc = acc / 2;
        cur = h;
        d = d + 1;
    }
    proof {
        let w = spec_walk(dv(data@).skip(base as int), 0, lsize as nat, acc as nat, cur@);
        assert(w.0 && w.1 =~= Seq::<Seq<u8>>::empty());
        assert(seq![dv(data@)[index as int]] + full.1 =~= dv(path@));
    }
    Ok(path)
}

proof fn lemma_walk_on_built(layer: Seq<Seq<u8>>, depth: nat, index: nat)
    requires
        layer.len() == pow2(depth),
        index < pow2(depth),
    ensures
        ({
            let records = merkle_records(layer, depth);
            let w = spec_walk(records, depth, pow2(depth), index, layer[index as int]);
            w.0 && w.1.len() == depth && w.2 == records.last()
        }),
    decreases depth,
{
    let records = merkle_records(layer, depth);
    lemma_upper_records_len(layer, depth);
    if depth == 0 {
        assert(records =~= layer);
    } else {
        lemma_pow2_pos((depth - 1) as nat);
        assert(pow2(depth) == 2 * pow2((depth - 1) as nat));
        let pl = parent_layer(layer);
        assert(pl.len() == pow2((depth - 1) as nat));
        let half = index / 2;
        assert(records[index as int] == layer[index as int]);
        if index % 2 == 0 {
            assert(records[index as int + 1] == layer[index as int + 1]);
            assert(pl[half as int] == sha256_of(layer[2 * (half as int)] + layer[2 * (
            half as int) + 1]));
            assert(sha256_of(records[index as int] + records[index as int + 1]) == pl[
            half as int]);
        } else {
            assert(records[index as int - 1] == layer[index as int - 1]);
            assert(pl[half as int] == sha256_of(layer[2 * (half as int)] + layer[2 * (
            half as int) + 1]));
            assert(sha256_of(records[index as int - 1] + records[index as int]) == pl[
            half as int]);
        }
        let p = pow2(depth) as int;
        assert(records.skip(p) =~= merkle_records(pl, (depth - 1) as nat));
        lemma_walk_on_built(pl, (depth - 1) as nat, half);
        lemma_upper_records_len(pl, (depth - 1) as nat);
        assert(records.skip(p).len() > 0);
        assert(records.skip(p)[records.len() - p - 1] == records[records.len() as int - 1]);
        assert(records.skip(p).last() == records.last());
    }
}

proof fn lemma_rehash(records: Seq<Seq<u8>>, levels: nat, lsize: nat, acc: nat, cur: Seq<u8>)
    requires
        spec_walk(records, levels, lsize, acc, cur).0,
    ensures
        ({
            let w = spec_walk(records, levels, lsize, acc, cur);
            spec_rehash(seq![cur] + w.1, acc) == w.2
        }),
    decreases levels,
{
    let w = spec_walk(records, levels, lsize, acc, cur);
    if levels == 0 {
        assert(seq![cur] + w.1 =~= seq![cur]);
    } else {
        let sib = if acc % 2 == 0 {
            records[acc as int + 1]
        } else {
            records[acc as int - 1]
        };
        let pair = if acc % 2 == 0 {
            records[acc as int] + records[acc as int + 1]
        } else {
            records[acc as int - 1] + records[acc as int]
        };
        let next = sha256_of(pair);
        let w2 = spec_walk(records.skip(lsize as int), (levels - 1) as nat, lsize / 2, acc / 2, next);
        lemma_rehash(records.skip(lsize as int), (levels - 1) as nat, lsize / 2, acc / 2, next);
        let path = seq![cur] + w.1;
        assert(path.len() >= 2);
        assert(path[0] == cur && path[1] == sib);
        assert(records[acc as int] == cur);
        if acc % 2 == 0 {
            assert(sha256_of(path[0] + path[1]) == next);
        } else {
            assert(sha256_of(path[1] + path[0]) == next);
        }
        assert(path.skip(2) =~= w2.1);
        assert(seq![next] + path.skip(2) =~= seq![next] + w2.1);
    }
}

/// For every full layer of `2^depth` leaf digests: the flat record array
/// built over it holds exactly `2 * leaves - 1` records, auditing any leaf
/// of it succeeds, the audit path holds `depth + 1` digests, and their
/// iterative re-hash equals the stored root record.
pub proof fn lemma_merkle_construct_extract(leaves: Seq<Seq<u8>>, depth: nat, index: nat)
    requires
        leaves.len() == pow2(depth),
        index < pow2(depth),
    ensures
        ({
            let records = merkle_records(leaves, depth);
            let w = spec_walk(records, depth, pow2(depth), index, records[index as int]);
            records.len() == 2 * pow2(depth) - 1 && w.0 && (seq![records[index as int]]
                + w.1).len() == depth + 1 && spec_rehash(seq![records[index as int]] + w.1, index)
                == records.last()
        }),
{
    let records = merkle_records(leaves, depth);
    lemma_upper_records_len(leaves, depth);
    assert(records[index as int] == leaves[index as int]);
    lemma_walk_on_built(leaves, depth, index);
    lemma_rehash(records, depth, pow2(depth), index, leaves[index as int]);
}

} // verus!
