//! Identifiers of asset classes made by `create`: the first 24 bytes of a
//! BLAKE2b-256 digest of the creation nonce, the host's random seed and the
//! creator.

use crate::types::{AccountId, AssetId};
use vstd::prelude::*;

verus! {

/// The BLAKE2b-256 digest of `data`.
pub uninterp spec fn blake2_256_of(data: Seq<u8>) -> Seq<u8>;

/// Relies on sp_crypto_hashing::blake2_256: the 32-byte BLAKE2b digest of the
/// bytes, a function of the bytes alone.
#[verifier::external_body]
fn blake2_256(data: &Vec<u8>) -> (r: [u8; 32])
    ensures
        r@ == blake2_256_of(data@),
{
    sp_crypto_hashing::blake2_256(data.as_slice())
}

/// The `n` low-order bytes of `x`, least significant first.
pub open spec fn le_bytes(x: nat, n: nat) -> Seq<u8>
    decreases n,
{
    if n == 0 {
        Seq::empty()
    } else {
        seq![(x % 256) as u8] + le_bytes(x / 256, (n - 1) as nat)
    }
}

/// What is hashed: the nonce and the creator as eight little-endian bytes
/// each, around the seed.
pub open spec fn id_preimage(nonce: u64, seed: Seq<u8>, caller: AccountId) -> Seq<u8> {
    le_bytes(nonce as nat, 8) + seed + le_bytes(caller as nat, 8)
}

/// The identifier that `create` gives the class it makes.
pub open spec fn derived_id(nonce: u64, seed: Seq<u8>, caller: AccountId) -> Seq<u8> {
    blake2_256_of(id_preimage(nonce, seed, caller)).take(24)
}

fn push_le_bytes(out: &mut Vec<u8>, x: u64)
    ensures
        final(out)@ == old(out)@ + le_bytes(x as nat, 8),
{
    let ghost start = out@;
    let mut v: u64 = x;
    let mut i: usize = 0;
    while i < 8
        invariant
            i <= 8,
            out@ + le_bytes(v as nat, (8 - i) as nat) == start + le_bytes(x as nat, 8),
        decreases 8 - i,
    {
        let ghost before = out@;
        out.push((v % 256) as u8);
        proof {
            assert(le_bytes(v as nat, (8 - i) as nat) == seq![(v % 256) as u8] + le_bytes(
                (v / 256) as nat,
                (8 - i - 1) as nat,
            ));
            assert(out@ + le_bytes((v / 256) as nat, (8 - i - 1) as nat) =~= before + le_bytes(
                v as nat,
                (8 - i) as nat,
            ));
        }
        v = v / 256;
        i = i + 1;
    }
    proof {
        assert(le_bytes(v as nat, 0) =~= Seq::<u8>::empty());
        assert(out@ =~= out@ + le_bytes(v as nat, 0));
    }
}

/// The bytes hashed for an identifier.
pub fn id_preimage_bytes(nonce: u64, seed: &[u8; 32], caller: AccountId) -> (r: Vec<u8>)
    ensures
        r@ == id_preimage(nonce, seed@, caller),
{
    let mut out: Vec<u8> = Vec::new();
    push_le_bytes(&mut out, nonce);
    let ghost mid = out@;
    let mut i: usize = 0;
    while i < 32
        invariant
            i <= 32,
            out@ == mid + seed@.take(i as int),
        decreases 32 - i,
    {
        out.push(seed[i]);
        proof {
            assert(seed@.take(i + 1) =~= seed@.take(i as int).push(seed@[i as int]));
        }
        i = i + 1;
    }
    proof {
        assert(seed@.take(32) =~= seed@);
    }
    push_le_bytes(&mut out, caller);
    proof {
        assert(out@ =~= id_preimage(nonce, seed@, caller));
    }
    out
}

/// An identifier from a digest: its first 24 bytes.
pub fn asset_id_from_digest(digest: &[u8; 32]) -> (r: AssetId)
    ensures
        r@ == digest@.take(24),
{
    let mut id: AssetId = [0u8; 24];
    let mut i: usize = 0;
    while i < 24
        invariant
            i <= 24,
            forall|j: int| 0 <= j < i ==> id@[j] == digest@[j],
        decreases 24 - i,
    {
        id[i] = digest[i];
        i = i + 1;
    }
    proof {
        assert(id@ =~= digest@.take(24));
    }
    id
}

/// The identifier made from `nonce`, `seed` and `caller`.
pub fn derive_asset_id(nonce: u64, seed: &[u8; 32], caller: AccountId) -> (r: AssetId)
    ensures
        r@ == derived_id(nonce, seed@, caller),
{
    let data = id_preimage_bytes(nonce, seed, caller);
    let digest = blake2_256(&data);
    asset_id_from_digest(&digest)
}

} // verus!
