//! The seed expander: a deterministic pseudorandom byte stream obtained
//! by hashing the seed together with a 16-bit big-endian block counter.

use vstd::prelude::*;
use crate::digest::{digest_bytes, digest_of, digest_len, DigestKind};

verus! {

/// The two-byte big-endian encoding of a block counter.
pub open spec fn ctr_bytes(c: nat) -> Seq<u8> {
    seq![(c / 256) as u8, (c % 256) as u8]
}

/// The concatenation of the first `blocks` digest outputs.
pub open spec fn blob_spec(kind: DigestKind, seed: Seq<u8>, blocks: nat) -> Seq<u8>
    decreases blocks,
{
    if blocks == 0 {
        Seq::empty()
    } else {
        blob_spec(kind, seed, (blocks - 1) as nat) + digest_of(
            kind,
            seed + ctr_bytes((blocks - 1) as nat),
        )
    }
}

/// How many digest blocks are needed to cover `count` bytes.
pub open spec fn num_blocks(kind: DigestKind, count: nat) -> nat {
    (count + digest_len(kind) - 1) as nat / digest_len(kind)
}

/// The expansion of a seed to exactly `count` bytes.
pub open spec fn expand_spec(kind: DigestKind, seed: Seq<u8>, count: nat) -> Seq<u8> {
    blob_spec(kind, seed, num_blocks(kind, count)).take(count as int)
}

/// The first `blocks` digest blocks have the digest's fixed total length.
proof fn lemma_blob_len(kind: DigestKind, seed: Seq<u8>, blocks: nat)
    requires
        forall|i: nat|
            i < blocks ==> #[trigger] digest_of(kind, seed + ctr_bytes(i)).len() == digest_len(
                kind,
            ),
    ensures
        blob_spec(kind, seed, blocks).len() == blocks * digest_len(kind),
    decreases blocks,
{
    if blocks == 0 {
        assert(blob_spec(kind, seed, 0).len() == 0);
    } else {
        lemma_blob_len(kind, seed, (blocks - 1) as nat);
        assert(((blocks - 1) as nat) * digest_len(kind) + digest_len(kind) == blocks * digest_len(
            kind,
        )) by (nonlinear_arith)
            requires
                blocks >= 1,
        ;
    }
}

/// Fewer digest blocks form a prefix of more digest blocks.
proof fn lemma_blob_prefix(kind: DigestKind, seed: Seq<u8>, b1: nat, b2: nat)
    requires
        b1 <= b2,
        forall|i: nat|
            i < b2 ==> #[trigger] digest_of(kind, seed + ctr_bytes(i)).len() == digest_len(kind),
    ensures
        blob_spec(kind, seed, b1) == blob_spec(kind, seed, b2).take(
            (b1 * digest_len(kind)) as int,
        ),
    decreases b2,
{
    lemma_blob_len(kind, seed, b1);
    lemma_blob_len(kind, seed, b2);
    if b1 == b2 {
        assert(blob_spec(kind, seed, b1) =~= blob_spec(kind, seed, b2).take(
            (b1 * digest_len(kind)) as int,
        ));
    } else {
        lemma_blob_prefix(kind, seed, b1, (b2 - 1) as nat);
        lemma_blob_len(kind, seed, (b2 - 1) as nat);
        assert(b1 * digest_len(kind) <= ((b2 - 1) as nat) * digest_len(kind)) by (nonlinear_arith)
            requires
                b1 <= b2 - 1,
        ;
        assert(blob_spec(kind, seed, b2).take((b1 * digest_len(kind)) as int) =~= blob_spec(
            kind,
            seed,
            (b2 - 1) as nat,
        ).take((b1 * digest_len(kind)) as int));
    }
}

/// A byte count is covered by the blocks that `num_blocks` asks for.
proof fn lemma_num_blocks_covers(kind: DigestKind, count: nat)
    ensures
        count <= num_blocks(kind, count) * digest_len(kind),
        digest_len(kind) >= 1,
{
    let l = digest_len(kind);
    let x = (count + l - 1) as int;
    vstd::arithmetic::div_mod::lemma_fundamental_div_mod(x, l as int);
    vstd::arithmetic::div_mod::lemma_mod_bound(x, l as int);
    assert(x == l as int * (x / l as int) + x % l as int);
    assert(num_blocks(kind, count) * l == l as int * (x / l as int)) by (nonlinear_arith)
        requires
            num_blocks(kind, count) == x / l as int,
            l >= 1,
            x >= 0,
    ;
}

/// Prefix consistency: the expansion to a smaller byte count is exactly
/// the prefix of the expansion to a larger one.  The hypothesis — each
/// digest block used has the digest's fixed output length — is what the
/// digest capability guarantees of every call.
pub proof fn lemma_expand_prefix(kind: DigestKind, seed: Seq<u8>, c1: nat, c2: nat)
    requires
        c1 <= c2,
        forall|i: nat|
            i < num_blocks(kind, c2) ==> #[trigger] digest_of(kind, seed + ctr_bytes(i)).len()
                == digest_len(kind),
    ensures
        expand_spec(kind, seed, c1) == expand_spec(kind, seed, c2).take(c1 as int),
{
    let l = digest_len(kind);
    let b1 = num_blocks(kind, c1);
    let b2 = num_blocks(kind, c2);
    vstd::arithmetic::div_mod::lemma_div_is_ordered(
        (c1 + l - 1) as int,
        (c2 + l - 1) as int,
        l as int,
    );
    assert(b1 <= b2);
    lemma_num_blocks_covers(kind, c1);
    lemma_num_blocks_covers(kind, c2);
    lemma_blob_prefix(kind, seed, b1, b2);
    lemma_blob_len(kind, seed, b1);
    lemma_blob_len(kind, seed, b2);
    assert(expand_spec(kind, seed, c1) =~= expand_spec(kind, seed, c2).take(c1 as int));
}

/// Expands `seed` deterministically to exactly `byte_count` pseudorandom
/// bytes: digests of `seed` followed by a big-endian 16-bit counter that
/// starts at zero, concatenated in counter order and truncated.  The
/// ceiling on `byte_count` keeps every counter value distinct within one
/// call for every digest choice.
pub fn random_bytes_from_seed(seed: &[u8], byte_count: usize, kind: DigestKind) -> (r: Vec<u8>)
    requires
        byte_count <= 32 * 65535,
    ensures
        r@ == expand_spec(kind, seed@, byte_count as nat),
        r@.len() == byte_count,
{
    let mut blob: Vec<u8> = Vec::new();
    let mut extra: u16 = 0;
    while blob.len() < byte_count
        invariant
            byte_count <= 32 * 65535,
            blob@ == blob_spec(kind, seed@, extra as nat),
            blob@.len() == (extra as nat) * digest_len(kind),
            extra == 0 || ((extra as nat) - 1) * digest_len(kind) < byte_count as nat,
            blob@.len() <= byte_count as nat + 64,
        decreases byte_count as nat + 64 - blob@.len(),
    {
        let ghost prev_len = blob@.len();
        proof {
            assert((extra as nat) * 32 <= (extra as nat) * digest_len(kind)) by (nonlinear_arith)
                requires 32 <= digest_len(kind);
            assert(extra < 65535) by (nonlinear_arith)
                requires
                    (extra as nat) * 32 <= blob@.len(),
                    blob@.len() < byte_count,
                    byte_count <= 32 * 65535;
        }
        let mut inp: Vec<u8> = vstd::slice::slice_to_vec(seed);
        inp.push((extra / 256) as u8);
        inp.push((extra % 256) as u8);
        proof {
            assert(inp@ =~= seed@ + ctr_bytes(extra as nat));
        }
        let mut block = digest_bytes(kind, &inp);
        blob.append(&mut block);
        extra = extra + 1;
        proof {
            assert(blob@ == blob_spec(kind, seed@, extra as nat));
            assert(((extra as nat) - 1) * digest_len(kind) + digest_len(kind)
                == (extra as nat) * digest_len(kind)) by (nonlinear_arith);
            assert(blob@.len() >= prev_len + 32);
        }
    }
    proof {
        let c = byte_count as nat;
        let l = digest_len(kind);
        let e = extra as nat;
        if e == 0 {
            assert(c == 0);
            assert(num_blocks(kind, c) == 0);
        } else {
            assert((e - 1) * l < c);
            assert(c <= e * l);
            assert((c + l - 1) as int == e as int * l as int + (c + l - 1 - e * l)) by (nonlinear_arith)
                requires
                    (e - 1) as int * (l as int) < c as int,
                    c as int <= e as int * (l as int),
            ;
            assert(0 <= ((c + l - 1 - e * l) as int) && ((c + l - 1 - e * l) as int) < l as int)
                by (nonlinear_arith)
                requires
                    (e - 1) as int * (l as int) < c as int,
                    c as int <= e as int * (l as int),
                    l >= 1,
            ;
            vstd::arithmetic::div_mod::lemma_fundamental_div_mod_converse(
                (c + l - 1) as int,
                l as int,
                e as int,
                (c + l - 1 - e * l) as int,
            );
            assert(num_blocks(kind, c) == e);
        }
    }
    blob.truncate(byte_count);
    proof {
        assert(blob@ =~= expand_spec(kind, seed@, byte_count as nat));
    }
    blob
}

} // verus!
