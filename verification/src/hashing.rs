//! The hash functions from which storage keys and transaction identities are
//! made. The hashes themselves are computed by the `sp-crypto-hashing` crate;
//! this module gives each of them a name that the contracts can speak of, and
//! applies the hashing mode that a storage item declares for a key argument.

use crate::metadata::Hasher;
use crate::wire::append_bytes;
use vstd::prelude::*;

verus! {

/// What `sp_crypto_hashing::twox_64` returns for `data`.
pub uninterp spec fn twox_64_of(data: Seq<u8>) -> Seq<u8>;

/// What `sp_crypto_hashing::twox_128` returns for `data`.
pub uninterp spec fn twox_128_of(data: Seq<u8>) -> Seq<u8>;

/// What `sp_crypto_hashing::twox_256` returns for `data`.
pub uninterp spec fn twox_256_of(data: Seq<u8>) -> Seq<u8>;

/// What `sp_crypto_hashing::blake2_128` returns for `data`.
pub uninterp spec fn blake2_128_of(data: Seq<u8>) -> Seq<u8>;

/// What `sp_crypto_hashing::blake2_256` returns for `data`.
pub uninterp spec fn blake2_256_of(data: Seq<u8>) -> Seq<u8>;

/// Calls `sp_crypto_hashing::twox_64`, which returns the XX hash of `data` with
/// seed 0 as an array of 8 bytes. Trusted: the result is the named hash of the
/// data and is 8 bytes long.
#[verifier::external_body]
pub(crate) fn twox_64(data: &[u8]) -> (hash: Vec<u8>)
    ensures
        hash@ == twox_64_of(data@),
        hash@.len() == 8,
{
    sp_crypto_hashing::twox_64(data).to_vec()
}

/// Calls `sp_crypto_hashing::twox_128`, which returns the XX hashes of `data`
/// with seeds 0 and 1 as an array of 16 bytes. Trusted: the result is the named
/// hash of the data and is 16 bytes long.
#[verifier::external_body]
pub(crate) fn twox_128(data: &[u8]) -> (hash: Vec<u8>)
    ensures
        hash@ == twox_128_of(data@),
        hash@.len() == 16,
{
    sp_crypto_hashing::twox_128(data).to_vec()
}

/// Calls `sp_crypto_hashing::twox_256`, which returns the XX hashes of `data`
/// with seeds 0 to 3 as an array of 32 bytes. Trusted: the result is the named
/// hash of the data and is 32 bytes long.
#[verifier::external_body]
pub(crate) fn twox_256(data: &[u8]) -> (hash: Vec<u8>)
    ensures
        hash@ == twox_256_of(data@),
        hash@.len() == 32,
{
    sp_crypto_hashing::twox_256(data).to_vec()
}

/// Calls `sp_crypto_hashing::blake2_128`, which returns the Blake2b hash of
/// `data` with a 16-byte digest. Trusted: the result is the named hash of the
/// data and is 16 bytes long.
#[verifier::external_body]
pub(crate) fn blake2_128(data: &[u8]) -> (hash: Vec<u8>)
    ensures
        hash@ == blake2_128_of(data@),
        hash@.len() == 16,
{
    sp_crypto_hashing::blake2_128(data).to_vec()
}

/// Calls `sp_crypto_hashing::blake2_256`, which returns the Blake2b hash of
/// `data` with a 32-byte digest. Trusted: the result is the named hash of the
/// data and is 32 bytes long.
#[verifier::external_body]
pub(crate) fn blake2_256(data: &[u8]) -> (hash: Vec<u8>)
    ensures
        hash@ == blake2_256_of(data@),
        hash@.len() == 32,
{
    sp_crypto_hashing::blake2_256(data).to_vec()
}

/// The key material that a hashing mode makes of an encoded key argument: the
/// argument itself, its hash, or its hash followed by the argument.
pub open spec fn hashed(hasher: Hasher, data: Seq<u8>) -> Seq<u8> {
    match hasher {
        Hasher::Identity => data,
        Hasher::Blake2_128 => blake2_128_of(data),
        Hasher::Blake2_128Concat => blake2_128_of(data) + data,
        Hasher::Blake2_256 => blake2_256_of(data),
        Hasher::Twox128 => twox_128_of(data),
        Hasher::Twox256 => twox_256_of(data),
        Hasher::Twox64Concat => twox_64_of(data) + data,
    }
}

/// Whether the encoded argument can be read back from the key material: it can
/// where the mode keeps the argument.
pub open spec fn keeps_argument(hasher: Hasher) -> bool {
    hasher == Hasher::Identity || hasher == Hasher::Blake2_128Concat || hasher
        == Hasher::Twox64Concat
}

/// Applies a hashing mode to an encoded key argument.
pub fn hash_key_part(hasher: Hasher, data: &Vec<u8>) -> (part: Vec<u8>)
    ensures
        part@ == hashed(hasher, data@),
        keeps_argument(hasher) ==> part@.len() >= data@.len() && part@.subrange(
            part@.len() - data@.len(),
            part@.len() as int,
        ) == data@,
{
    let mut part: Vec<u8> = match hasher {
        Hasher::Identity => Vec::new(),
        Hasher::Blake2_128 => blake2_128(data.as_slice()),
        Hasher::Blake2_128Concat => blake2_128(data.as_slice()),
        Hasher::Blake2_256 => blake2_256(data.as_slice()),
        Hasher::Twox128 => twox_128(data.as_slice()),
        Hasher::Twox256 => twox_256(data.as_slice()),
        Hasher::Twox64Concat => twox_64(data.as_slice()),
    };
    match hasher {
        Hasher::Identity => {
            append_bytes(&mut part, data.as_slice());
            assert(part@ =~= data@);
        },
        Hasher::Blake2_128Concat => {
            append_bytes(&mut part, data.as_slice());
        },
        Hasher::Twox64Concat => {
            append_bytes(&mut part, data.as_slice());
        },
        _ => {},
    }
    proof {
        if keeps_argument(hasher) {
            assert(part@.subrange(part@.len() - data@.len(), part@.len() as int) =~= data@);
        }
    }
    part
}

/// The identity of a signed transaction: its 256-bit Blake2 hash.
pub fn transaction_hash(extrinsic: &[u8]) -> (hash: Vec<u8>)
    ensures
        hash@ == blake2_256_of(extrinsic@),
        hash@.len() == 32,
{
    blake2_256(extrinsic)
}

} // verus!
