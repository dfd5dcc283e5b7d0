//! The digest of a mirror: a key under which a position is found again.
//!
//! The digest is the SHA-256 hash, in hexadecimal, of a plain byte string
//! that spells the mirror out: a separator before every column, then two
//! bytes for every slot. Equal mirrors have equal digests; the digest serves
//! no other purpose.

use crate::cards::Card;
use crate::hex_text::{encode, hex_text};
use sha2::{Digest, Sha256};
use vstd::prelude::*;

verus! {

/// The byte that goes before every column.
pub const COLUMN_MARK: u8 = 0x7c;

/// The first of the two bytes that stand for an opaque slot. No suit has
/// this tag, so no card is spelt like an opaque slot.
pub const OPAQUE_MARK: u8 = 0x5f;

/// The mirror as sequences of sequences.
pub open spec fn mirror_view(local: Seq<Vec<Option<Card>>>) -> Seq<Seq<Option<Card>>> {
    Seq::new(local.len(), |i: int| local[i]@)
}

/// The two bytes that stand for a slot: the two-byte form of a known card,
/// and a fixed pair for an opaque slot.
pub open spec fn slot_bytes(slot: Option<Card>) -> Seq<u8> {
    match slot {
        Some(card) => card.encoding(),
        None => seq![OPAQUE_MARK, 2u8],
    }
}

/// The bytes that stand for a column: the separator, then the slots from
/// base to top.
pub open spec fn column_bytes(column: Seq<Option<Card>>) -> Seq<u8>
    decreases column.len(),
{
    if column.len() == 0 {
        seq![COLUMN_MARK]
    } else {
        column_bytes(column.drop_last()) + slot_bytes(column.last())
    }
}

/// The bytes that stand for a mirror: its columns in order.
pub open spec fn mirror_bytes(mirror: Seq<Seq<Option<Card>>>) -> Seq<u8>
    decreases mirror.len(),
{
    if mirror.len() == 0 {
        Seq::empty()
    } else {
        mirror_bytes(mirror.drop_last()) + column_bytes(mirror.last())
    }
}

/// The hash that `sha2` computes of `data` with SHA-256.
pub uninterp spec fn sha256(data: Seq<u8>) -> Seq<u8>;

/// Calls `Sha256::digest`, which makes a hasher, feeds it the data and
/// returns the finished hash. The hash is a function of the data alone and
/// is named [`sha256`]; it has thirty-two bytes.
#[verifier::external_body]
fn sha256_of(data: &[u8]) -> (hash: Vec<u8>)
    ensures
        hash@ == sha256(data@),
        hash@.len() == 32,
{
    Sha256::digest(data).to_vec()
}

/// The digest of a mirror as text: sixty-four hexadecimal digits.
pub open spec fn digest_text(mirror: Seq<Seq<Option<Card>>>) -> Seq<char> {
    hex_text(sha256(mirror_bytes(mirror)))
}

/// Spells a mirror out in bytes, as the digest hashes it.
pub fn preimage(local: &Vec<Vec<Option<Card>>>) -> (bytes: Vec<u8>)
    ensures
        bytes@ == mirror_bytes(mirror_view(local@)),
{
    let ghost mirror = mirror_view(local@);
    let mut bytes: Vec<u8> = Vec::new();
    let mut i: usize = 0;
    while i < local.len()
        invariant
            i <= local@.len(),
            mirror == mirror_view(local@),
            bytes@ == mirror_bytes(mirror.take(i as int)),
        decreases local@.len() - i,
    {
        let ghost done = bytes@;
        let column = &local[i];
        bytes.push(COLUMN_MARK);
        let mut k: usize = 0;
        while k < column.len()
            invariant
                k <= column@.len(),
                bytes@ == done + column_bytes(column@.take(k as int)),
            decreases column@.len() - k,
        {
            match column[k] {
                Some(card) => {
                    let v = card.encode();
                    bytes.push(v[0]);
                    bytes.push(v[1]);
                    assert(seq![v[0], v[1]] =~= slot_bytes(column@[k as int]));
                },
                None => {
                    bytes.push(OPAQUE_MARK);
                    bytes.push(2);
                },
            }
            proof {
                let next = column@.take(k + 1);
                assert(next.drop_last() =~= column@.take(k as int));
                assert(next.last() == column@[k as int]);
                assert(bytes@ =~= done + column_bytes(next));
            }
            k += 1;
        }
        proof {
            assert(column@.take(k as int) =~= column@);
            let next = mirror.take(i + 1);
            assert(next.drop_last() =~= mirror.take(i as int));
            assert(next.last() == column@);
        }
        i += 1;
    }
    assert(mirror.take(i as int) =~= mirror);
    bytes
}

/// The digest of a mirror.
pub fn digest_of(local: &Vec<Vec<Option<Card>>>) -> (text: String)
    ensures
        text@ == digest_text(mirror_view(local@)),
{
    let bytes = preimage(local);
    let hash = sha256_of(bytes.as_slice());
    encode(hash.as_slice())
}

} // verus!
