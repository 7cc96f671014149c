//! The digest registry: each algorithm's digest of a byte sequence, as an
//! upper-case hex string of the algorithm's published length.
use vstd::prelude::*;
use crate::algorithms::{Algorithm, hex_len_of};
use crate::utilities::string_of;
use blake2::Digest;

verus! {

/// The digest that `sha1::Sha1` gives for the bytes.
pub uninterp spec fn sha1_of(data: Seq<u8>) -> Seq<u8>;

/// The digest that `sha2::Sha224` gives for the bytes.
pub uninterp spec fn sha2_224_of(data: Seq<u8>) -> Seq<u8>;

/// The digest that `sha2::Sha256` gives for the bytes.
pub uninterp spec fn sha2_256_of(data: Seq<u8>) -> Seq<u8>;

/// The digest that `sha2::Sha384` gives for the bytes.
pub uninterp spec fn sha2_384_of(data: Seq<u8>) -> Seq<u8>;

/// The digest that `sha2::Sha512` gives for the bytes.
pub uninterp spec fn sha2_512_of(data: Seq<u8>) -> Seq<u8>;

/// The digest that `sha3::Sha3_224` gives for the bytes.
pub uninterp spec fn sha3_224_of(data: Seq<u8>) -> Seq<u8>;

/// The digest that `sha3::Sha3_256` gives for the bytes.
pub uninterp spec fn sha3_256_of(data: Seq<u8>) -> Seq<u8>;

/// The digest that `sha3::Sha3_384` gives for the bytes.
pub uninterp spec fn sha3_384_of(data: Seq<u8>) -> Seq<u8>;

/// The digest that `sha3::Sha3_512` gives for the bytes.
pub uninterp spec fn sha3_512_of(data: Seq<u8>) -> Seq<u8>;

/// The digest that `md5::Md5` gives for the bytes.
pub uninterp spec fn md5_of(data: Seq<u8>) -> Seq<u8>;

/// The digest that `whirlpool::Whirlpool` gives for the bytes.
pub uninterp spec fn whirlpool_of(data: Seq<u8>) -> Seq<u8>;

/// The digest that `blake2::Blake2b512` gives for the bytes.
pub uninterp spec fn blake2b_of(data: Seq<u8>) -> Seq<u8>;

/// The digest that `blake2::Blake2s256` gives for the bytes.
pub uninterp spec fn blake2s_of(data: Seq<u8>) -> Seq<u8>;

/// The hash that `blake3::hash` gives for the bytes.
pub uninterp spec fn blake3_of(data: Seq<u8>) -> Seq<u8>;

/// The CRC-32 checksum that `crc32fast::hash` gives for the bytes.
pub uninterp spec fn crc32_of(data: Seq<u8>) -> u32;

/// The 32-bit xxHash that `xxhash_rust::xxh32::xxh32` gives for the bytes and seed.
pub uninterp spec fn xxh32_of(data: Seq<u8>, seed: u32) -> u32;

/// The 64-bit xxHash that `xxhash_rust::xxh64::xxh64` gives for the bytes and seed.
pub uninterp spec fn xxh64_of(data: Seq<u8>, seed: u64) -> u64;

/// The XXH3 64-bit hash that `xxhash_rust::xxh3::xxh3_64` gives for the bytes.
pub uninterp spec fn xxh3_of(data: Seq<u8>) -> u64;

/// Relies on `sha1::Sha1` via `Digest::digest`: a 20-byte digest.
#[verifier::external_body]
fn sha1_digest(data: &[u8]) -> (r: Vec<u8>)
    ensures
        r@ == sha1_of(data@),
        r@.len() == 20,
{
    sha1::Sha1::digest(data).to_vec()
}

/// Relies on `sha2::Sha224` via `Digest::digest`: a 28-byte digest.
#[verifier::external_body]
fn sha2_224_digest(data: &[u8]) -> (r: Vec<u8>)
    ensures
        r@ == sha2_224_of(data@),
        r@.len() == 28,
{
    sha2::Sha224::digest(data).to_vec()
}

/// Relies on `sha2::Sha256` via `Digest::digest`: a 32-byte digest.
#[verifier::external_body]
fn sha2_256_digest(data: &[u8]) -> (r: Vec<u8>)
    ensures
        r@ == sha2_256_of(data@),
        r@.len() == 32,
{
    sha2::Sha256::digest(data).to_vec()
}

/// Relies on `sha2::Sha384` via `Digest::digest`: a 48-byte digest.
#[verifier::external_body]
fn sha2_384_digest(data: &[u8]) -> (r: Vec<u8>)
    ensures
        r@ == sha2_384_of(data@),
        r@.len() == 48,
{
    sha2::Sha384::digest(data).to_vec()
}

/// Relies on `sha2::Sha512` via `Digest::digest`: a 64-byte digest.
#[verifier::external_body]
fn sha2_512_digest(data: &[u8]) -> (r: Vec<u8>)
    ensures
        r@ == sha2_512_of(data@),
        r@.len() == 64,
{
    sha2::Sha512::digest(data).to_vec()
}

/// Relies on `sha3::Sha3_224` via `Digest::digest`: a 28-byte digest.
#[verifier::external_body]
fn sha3_224_digest(data: &[u8]) -> (r: Vec<u8>)
    ensures
        r@ == sha3_224_of(data@),
        r@.len() == 28,
{
    sha3::Sha3_224::digest(data).to_vec()
}

/// Relies on `sha3::Sha3_256` via `Digest::digest`: a 32-byte digest.
#[verifier::external_body]
fn sha3_256_digest(data: &[u8]) -> (r: Vec<u8>)
    ensures
        r@ == sha3_256_of(data@),
        r@.len() == 32,
{
    sha3::Sha3_256::digest(data).to_vec()
}

/// Relies on `sha3::Sha3_384` via `Digest::digest`: a 48-byte digest.
#[verifier::external_body]
fn sha3_384_digest(data: &[u8]) -> (r: Vec<u8>)
    ensures
        r@ == sha3_384_of(data@),
        r@.len() == 48,
{
    sha3::Sha3_384::digest(data).to_vec()
}

/// Relies on `sha3::Sha3_512` via `Digest::digest`: a 64-byte digest.
#[verifier::external_body]
fn sha3_512_digest(data: &[u8]) -> (r: Vec<u8>)
    ensures
        r@ == sha3_512_of(data@),
        r@.len() == 64,
{
    sha3::Sha3_512::digest(data).to_vec()
}

/// Relies on `md5::Md5` (package md-5) via `Digest::digest`: a 16-byte digest.
#[verifier::external_body]
fn md5_digest(data: &[u8]) -> (r: Vec<u8>)
    ensures
        r@ == md5_of(data@),
        r@.len() == 16,
{
    md5::Md5::digest(data).to_vec()
}

/// Relies on `whirlpool::Whirlpool` via `Digest::digest`: a 64-byte digest.
#[verifier::external_body]
fn whirlpool_digest(data: &[u8]) -> (r: Vec<u8>)
    ensures
        r@ == whirlpool_of(data@),
        r@.len() == 64,
{
    whirlpool::Whirlpool::digest(data).to_vec()
}

/// Relies on `blake2::Blake2b512` via `Digest::digest`: a 64-byte digest.
#[verifier::external_body]
fn blake2b_digest(data: &[u8]) -> (r: Vec<u8>)
    ensures
        r@ == blake2b_of(data@),
        r@.len() == 64,
{
    blake2::Blake2b512::digest(data).to_vec()
}

/// Relies on `blake2::Blake2s256` via `Digest::digest`: a 32-byte digest.
#[verifier::external_body]
fn blake2s_digest(data: &[u8]) -> (r: Vec<u8>)
    ensures
        r@ == blake2s_of(data@),
        r@.len() == 32,
{
    blake2::Blake2s256::digest(data).to_vec()
}

/// Relies on `blake3::hash`: a 32-byte hash.
#[verifier::external_body]
fn blake3_digest(data: &[u8]) -> (r: Vec<u8>)
    ensures
        r@ == blake3_of(data@),
        r@.len() == 32,
{
    blake3::hash(data).as_bytes().to_vec()
}

/// Relies on `crc32fast::hash`: the CRC-32 of the bytes.
#[verifier::external_body]
fn crc32_digest(data: &[u8]) -> (r: u32)
    ensures
        r == crc32_of(data@),
{
    crc32fast::hash(data)
}

/// Relies on `xxhash_rust::xxh32::xxh32`: the one-shot 32-bit xxHash.
#[verifier::external_body]
fn xxh32_digest(data: &[u8], seed: u32) -> (r: u32)
    ensures
        r == xxh32_of(data@, seed),
{
    xxhash_rust::xxh32::xxh32(data, seed)
}

/// Relies on `xxhash_rust::xxh64::xxh64`: the one-shot 64-bit xxHash.
#[verifier::external_body]
fn xxh64_digest(data: &[u8], seed: u64) -> (r: u64)
    ensures
        r == xxh64_of(data@, seed),
{
    xxhash_rust::xxh64::xxh64(data, seed)
}

/// Relies on `xxhash_rust::xxh3::xxh3_64`: the one-shot XXH3 64-bit hash.
#[verifier::external_body]
fn xxh3_digest(data: &[u8]) -> (r: u64)
    ensures
        r == xxh3_of(data@),
{
    xxhash_rust::xxh3::xxh3_64(data)
}

/// Seed of the 32- and 64-bit xxHash digests.
pub const XXH_SEED: u32 = 1234;

/// The big-endian bytes of a 64-bit value, most significant first.
pub open spec fn be_bytes(x: nat, n: nat) -> Seq<u8>
    decreases n,
{
    if n == 0 {
        Seq::empty()
    } else {
        be_bytes(x / 256, (n - 1) as nat).push((x % 256) as u8)
    }
}

/// The raw digest of `data` under `a`; integer checksums as their
/// big-endian bytes.
pub open spec fn digest_of(a: Algorithm, data: Seq<u8>) -> Seq<u8> {
    match a {
        Algorithm::SHA1 => sha1_of(data),
        Algorithm::SHA2224 => sha2_224_of(data),
        Algorithm::SHA2256 => sha2_256_of(data),
        Algorithm::SHA2384 => sha2_384_of(data),
        Algorithm::SHA2512 => sha2_512_of(data),
        Algorithm::SHA3224 => sha3_224_of(data),
        Algorithm::SHA3256 => sha3_256_of(data),
        Algorithm::SHA3384 => sha3_384_of(data),
        Algorithm::SHA3512 => sha3_512_of(data),
        Algorithm::MD5 => md5_of(data),
        Algorithm::WhirlPool => whirlpool_of(data),
        Algorithm::BLAKE2B => blake2b_of(data),
        Algorithm::BLAKE2S => blake2s_of(data),
        Algorithm::BLAKE3 => blake3_of(data),
        Algorithm::CRC32 => be_bytes(crc32_of(data) as nat, 4),
        Algorithm::XXH32 => be_bytes(xxh32_of(data, XXH_SEED) as nat, 4),
        Algorithm::XXH64 => be_bytes(xxh64_of(data, XXH_SEED as u64) as nat, 8),
        Algorithm::XXH3 => be_bytes(xxh3_of(data) as nat, 8),
    }
}

/// The big-endian bytes of `x`, `n` of them.
fn be_bytes_exec(x: u64, n: usize) -> (r: Vec<u8>)
    requires
        n <= 8,
    ensures
        r@ == be_bytes(x as nat, n as nat),
        r@.len() == n,
    decreases n,
{
    if n == 0 {
        Vec::new()
    } else {
        let mut r = be_bytes_exec(x / 256, n - 1);
        r.push((x % 256) as u8);
        r
    }
}

/// Upper-case hex digit of a value below 16.
pub open spec fn hex_digit(n: u8) -> char {
    if n == 0 {
        '0'
    } else if n == 1 {
        '1'
    } else if n == 2 {
        '2'
    } else if n == 3 {
        '3'
    } else if n == 4 {
        '4'
    } else if n == 5 {
        '5'
    } else if n == 6 {
        '6'
    } else if n == 7 {
        '7'
    } else if n == 8 {
        '8'
    } else if n == 9 {
        '9'
    } else if n == 10 {
        'A'
    } else if n == 11 {
        'B'
    } else if n == 12 {
        'C'
    } else if n == 13 {
        'D'
    } else if n == 14 {
        'E'
    } else {
        'F'
    }
}

/// Two upper-case hex digits per byte, high nibble first.
pub open spec fn hex_upper(b: Seq<u8>) -> Seq<char>
    decreases b.len(),
{
    if b.len() == 0 {
        Seq::empty()
    } else {
        hex_upper(b.drop_last()) + seq![hex_digit(b.last() / 16), hex_digit(b.last() % 16)]
    }
}

/// An upper-case hex digit.
pub open spec fn is_upper_hex(c: char) -> bool {
    ('0' <= c && c <= '9') || ('A' <= c && c <= 'F')
}

fn hex_digit_exec(n: u8) -> (r: char)
    requires
        n < 16,
    ensures
        r == hex_digit(n),
{
    if n < 10 {
        if n == 0 { '0' } else if n == 1 { '1' } else if n == 2 { '2' } else if n == 3 { '3' }
        else if n == 4 { '4' } else if n == 5 { '5' } else if n == 6 { '6' } else if n == 7 { '7' }
        else if n == 8 { '8' } else { '9' }
    } else {
        if n == 10 { 'A' } else if n == 11 { 'B' } else if n == 12 { 'C' } else if n == 13 { 'D' }
        else if n == 14 { 'E' } else { 'F' }
    }
}

/// Create a hash string out of its raw bytes: two upper-case hex digits per byte.
pub fn hash_string(bytes: &[u8]) -> (r: String)
    ensures
        r@ == hex_upper(bytes@),
{
    let mut out: Vec<char> = Vec::new();
    let mut i: usize = 0;
    while i < bytes.len()
        invariant
            i <= bytes@.len(),
            out@ == hex_upper(bytes@.take(i as int)),
        decreases bytes.len() - i,
    {
        let b = bytes[i];
        assert(bytes@.take(i + 1).drop_last() =~= bytes@.take(i as int));
        out.push(hex_digit_exec(b / 16));
        out.push(hex_digit_exec(b % 16));
        assert(out@ =~= hex_upper(bytes@.take(i + 1)));
        i = i + 1;
    }
    assert(bytes@.take(bytes@.len() as int) =~= bytes@);
    string_of(out.as_slice())
}

/// The raw digest of `data` under `algo`.
pub fn digest_bytes(algo: Algorithm, data: &[u8]) -> (r: Vec<u8>)
    ensures
        r@ == digest_of(algo, data@),
        2 * r@.len() == hex_len_of(algo),
{
    match algo {
        Algorithm::SHA1 => sha1_digest(data),
        Algorithm::SHA2224 => sha2_224_digest(data),
        Algorithm::SHA2256 => sha2_256_digest(data),
        Algorithm::SHA2384 => sha2_384_digest(data),
        Algorithm::SHA2512 => sha2_512_digest(data),
        Algorithm::SHA3224 => sha3_224_digest(data),
        Algorithm::SHA3256 => sha3_256_digest(data),
        Algorithm::SHA3384 => sha3_384_digest(data),
        Algorithm::SHA3512 => sha3_512_digest(data),
        Algorithm::MD5 => md5_digest(data),
        Algorithm::WhirlPool => whirlpool_digest(data),
        Algorithm::BLAKE2B => blake2b_digest(data),
        Algorithm::BLAKE2S => blake2s_digest(data),
        Algorithm::BLAKE3 => blake3_digest(data),
        Algorithm::CRC32 => be_bytes_exec(crc32_digest(data) as u64, 4),
        Algorithm::XXH32 => be_bytes_exec(xxh32_digest(data, XXH_SEED) as u64, 4),
        Algorithm::XXH64 => be_bytes_exec(xxh64_digest(data, XXH_SEED as u64), 8),
        Algorithm::XXH3 => be_bytes_exec(xxh3_digest(data), 8),
    }
}


/// Hex encoding doubles the length and uses upper-case hex digits only.
pub proof fn lemma_hex_upper_shape(b: Seq<u8>)
    ensures
        hex_upper(b).len() == 2 * b.len(),
        forall|i: int| 0 <= i < hex_upper(b).len() ==> is_upper_hex(#[trigger] hex_upper(b)[i]),
    decreases b.len(),
{
    if b.len() > 0 {
        lemma_hex_upper_shape(b.drop_last());
        let h = hex_upper(b);
        let p = hex_upper(b.drop_last());
        assert forall|i: int| 0 <= i < h.len() implies is_upper_hex(#[trigger] h[i]) by {
            if i < p.len() {
                assert(h[i] == p[i]);
            }
        }
    }
}

/// Hash the bytes with the specified hashing algorithm: the digest as
/// upper-case hex, exactly `algo.hexlen()` characters long.
pub fn hash_reader(algo: Algorithm, data: &[u8]) -> (r: String)
    ensures
        r@ == hex_upper(digest_of(algo, data@)),
        r@.len() == hex_len_of(algo),
        forall|i: int| 0 <= i < r@.len() ==> is_upper_hex(#[trigger] r@[i]),
{
    let raw = digest_bytes(algo, data);
    proof {
        lemma_hex_upper_shape(raw@);
    }
    hash_string(raw.as_slice())
}

} // verus!
