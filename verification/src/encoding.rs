//! BCS encoding of a vector of `u64`, through the `bcs` crate.

use vstd::prelude::*;

verus! {

/// The longest sequence that BCS encodes (`bcs::MAX_SEQUENCE_LENGTH`).
pub const BCS_MAX_SEQUENCE_LENGTH: usize = 2147483647;

/// ULEB128 encoding of a length: seven bits per byte, least significant
/// first, the high bit set on every byte but the last.
pub open spec fn uleb128(n: nat) -> Seq<u8>
    decreases n,
{
    if n < 128 {
        seq![n as u8]
    } else {
        seq![((n % 128) + 128) as u8] + uleb128(n / 128)
    }
}

/// The `k` least significant bytes of `v`, least significant first.
pub open spec fn le_bytes(v: nat, k: nat) -> Seq<u8>
    decreases k,
{
    if k == 0 {
        Seq::empty()
    } else {
        seq![(v % 256) as u8] + le_bytes(v / 256, (k - 1) as nat)
    }
}

/// The little-endian bytes of each value, one after the other.
pub open spec fn concat_u64_le(values: Seq<u64>) -> Seq<u8>
    decreases values.len(),
{
    if values.len() == 0 {
        Seq::empty()
    } else {
        concat_u64_le(values.drop_last()) + le_bytes(values.last() as nat, 8)
    }
}

/// BCS encoding of a sequence of `u64`: its length in ULEB128, then each value
/// in eight little-endian bytes.
pub open spec fn bcs_u64_seq(values: Seq<u64>) -> Seq<u8> {
    uleb128(values.len()) + concat_u64_le(values)
}

/// Decodes a ULEB128 length at the start of `bytes`: the length, and how many
/// bytes it takes.
pub open spec fn uleb128_decode(bytes: Seq<u8>) -> Option<(nat, nat)>
    decreases bytes.len(),
{
    if bytes.len() == 0 {
        None
    } else if bytes[0] < 128 {
        Some((bytes[0] as nat, 1))
    } else {
        match uleb128_decode(bytes.drop_first()) {
            Some((v, k)) => Some(((bytes[0] - 128) as nat + 128 * v, k + 1)),
            None => None,
        }
    }
}

/// The number whose little-endian bytes these are.
pub open spec fn le_value(bytes: Seq<u8>) -> nat
    decreases bytes.len(),
{
    if bytes.len() == 0 {
        0
    } else {
        bytes[0] as nat + 256 * le_value(bytes.drop_first())
    }
}

/// The `u64` values of consecutive blocks of eight little-endian bytes.
pub open spec fn decode_u64_blocks(bytes: Seq<u8>) -> Seq<u64>
    decreases bytes.len(),
{
    if bytes.len() < 8 {
        Seq::empty()
    } else {
        decode_u64_blocks(bytes.subrange(0, bytes.len() - 8)).push(
            le_value(bytes.subrange(bytes.len() - 8, bytes.len() as int)) as u64,
        )
    }
}

/// BCS decoding of a sequence of `u64`: a ULEB128 length, then exactly that
/// many values of eight little-endian bytes.
pub open spec fn bcs_decode_u64_seq(bytes: Seq<u8>) -> Option<Seq<u64>> {
    match uleb128_decode(bytes) {
        None => None,
        Some((n, k)) => {
            let body = bytes.subrange(k as int, bytes.len() as int);
            if body.len() == 8 * n {
                Some(decode_u64_blocks(body))
            } else {
                None
            }
        },
    }
}

/// `256` to the power `k`.
pub open spec fn pow256(k: nat) -> nat
    decreases k,
{
    if k == 0 {
        1
    } else {
        256 * pow256((k - 1) as nat)
    }
}

proof fn lemma_uleb128_decode(n: nat, rest: Seq<u8>)
    ensures
        uleb128_decode(uleb128(n) + rest) == Some((n, uleb128(n).len())),
    decreases n,
{
    let bytes = uleb128(n) + rest;
    if n < 128 {
        assert(bytes[0] == n as u8);
    } else {
        lemma_uleb128_decode(n / 128, rest);
        assert(bytes[0] == ((n % 128) + 128) as u8);
        assert(bytes.drop_first() =~= uleb128(n / 128) + rest);
        assert(n == 128 * (n / 128) + n % 128);
    }
}

proof fn lemma_le_value(v: nat, k: nat)
    requires
        v < pow256(k),
    ensures
        le_bytes(v, k).len() == k,
        le_value(le_bytes(v, k)) == v,
    decreases k,
{
    if k > 0 {
        let p = pow256((k - 1) as nat);
        assert(v / 256 < p) by (nonlinear_arith)
            requires
                v < 256 * p,
        ;
        lemma_le_value(v / 256, (k - 1) as nat);
        let bytes = le_bytes(v, k);
        assert(bytes.drop_first() =~= le_bytes(v / 256, (k - 1) as nat));
        assert(bytes[0] == (v % 256) as u8);
        assert(v == 256 * (v / 256) + v % 256);
    }
}

proof fn lemma_concat_u64_le(values: Seq<u64>)
    ensures
        concat_u64_le(values).len() == 8 * values.len(),
        decode_u64_blocks(concat_u64_le(values)) == values,
    decreases values.len(),
{
    if values.len() > 0 {
        let front = values.drop_last();
        lemma_concat_u64_le(front);
        assert(pow256(8) == 0x1_0000_0000_0000_0000) by {
            reveal_with_fuel(pow256, 9);
        }
        lemma_le_value(values.last() as nat, 8);
        let bytes = concat_u64_le(values);
        let n = bytes.len();
        assert(bytes.subrange(0, n - 8) =~= concat_u64_le(front));
        assert(bytes.subrange(n - 8, n as int) =~= le_bytes(values.last() as nat, 8));
        assert(values =~= front.push(values.last()));
    }
}

/// The BCS bytes of a sequence of `u64` decode back to that sequence: the
/// same values, in the same order.
pub proof fn lemma_bcs_u64_seq_decodes(values: Seq<u64>)
    ensures
        bcs_decode_u64_seq(bcs_u64_seq(values)) == Some(values),
{
    let len_bytes = uleb128(values.len());
    let body = concat_u64_le(values);
    lemma_uleb128_decode(values.len(), body);
    lemma_concat_u64_le(values);
    let bytes = bcs_u64_seq(values);
    assert(bytes.subrange(len_bytes.len() as int, bytes.len() as int) =~= body);
}

/// Calls `bcs::to_bytes` on a vector of `u64`. Claims what the crate's source
/// shows: it fails exactly when the vector is longer than
/// `MAX_SEQUENCE_LENGTH`, and otherwise gives the length in ULEB128 followed by
/// each value in eight little-endian bytes. The error itself is dropped.
#[verifier::external_body]
pub(crate) fn bcs_to_bytes_u64s(values: &Vec<u64>) -> (r: Option<Vec<u8>>)
    ensures
        r is Some <==> values@.len() <= BCS_MAX_SEQUENCE_LENGTH,
        r matches Some(bytes) ==> bytes@ == bcs_u64_seq(values@),
{
    bcs::to_bytes(values).ok()
}

} // verus!
