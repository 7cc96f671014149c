use quickdash::Algorithm;
use std::str::FromStr;

#[test]
fn from_str() {
    for a in &[("sha1", Algorithm::SHA1),
               ("sha-224", Algorithm::SHA2224),
               ("sha-256", Algorithm::SHA2256),
               ("sha-384", Algorithm::SHA2384),
               ("sha-512", Algorithm::SHA2512),
               ("sha3-224", Algorithm::SHA3224),
               ("sha3-256", Algorithm::SHA3256),
               ("sha3-384", Algorithm::SHA3384),
               ("sha3-512", Algorithm::SHA3512),
               ("blake2b", Algorithm::BLAKE2B),
               ("blake2s", Algorithm::BLAKE2S),
               ("blake3", Algorithm::BLAKE3),
               ("xxh3", Algorithm::XXH3),
               ("xxh64", Algorithm::XXH64),
               ("xxh32", Algorithm::XXH32),
               ("crc32", Algorithm::CRC32),
               ("md5", Algorithm::MD5),
               ("whirlpool", Algorithm::WhirlPool)] {
        assert_eq!(Algorithm::from_str(a.0).unwrap(), a.1);
    }
}

#[test]
fn from_str_ignores_case_and_underscores() {
    assert_eq!(Algorithm::from_str("BLAKE3"), Ok(Algorithm::BLAKE3));
    assert_eq!(Algorithm::from_str("MD5"), Ok(Algorithm::MD5));
    assert_eq!(Algorithm::from_str("SHA_2_256"), Ok(Algorithm::SHA2256));
    assert_eq!(Algorithm::from_str("XxHash64"), Ok(Algorithm::XXH64));
}

#[test]
fn sha2_aliases() {
    for name in ["sha256", "sha-256", "sha2256", "sha-2-256", "SHA256"] {
        assert_eq!(Algorithm::from_str(name), Ok(Algorithm::SHA2256));
    }
    assert_eq!(Algorithm::from_str("sha224"), Ok(Algorithm::SHA2224));
    assert_eq!(Algorithm::from_str("sha384"), Ok(Algorithm::SHA2384));
    assert_eq!(Algorithm::from_str("sha512"), Ok(Algorithm::SHA2512));
}

#[test]
fn from_str_rejects_unknown_token() {
    assert_eq!(
        Algorithm::from_str("sha-999"),
        Err("\"sha-999\" is not a recognised hashing algorithm".to_string())
    );
    assert_eq!(Algorithm::parse_name("Foo_Bar"), Err("Foo_Bar".to_string()));
}

#[test]
fn from_normalized_needs_lower_case() {
    assert_eq!(Algorithm::from_normalized(&"sha3-512".to_string()), Some(Algorithm::SHA3512));
    assert_eq!(Algorithm::from_normalized(&"SHA3-512".to_string()), None);
}

#[test]
fn hexlen_table() {
    assert_eq!(Algorithm::CRC32.hexlen(), 8);
    assert_eq!(Algorithm::XXH32.hexlen(), 8);
    assert_eq!(Algorithm::XXH64.hexlen(), 16);
    assert_eq!(Algorithm::XXH3.hexlen(), 16);
    assert_eq!(Algorithm::MD5.hexlen(), 32);
    assert_eq!(Algorithm::SHA1.hexlen(), 40);
    assert_eq!(Algorithm::SHA2224.hexlen(), 56);
    assert_eq!(Algorithm::SHA3256.hexlen(), 64);
    assert_eq!(Algorithm::BLAKE3.hexlen(), 64);
    assert_eq!(Algorithm::SHA2384.hexlen(), 96);
    assert_eq!(Algorithm::WhirlPool.hexlen(), 128);
    assert_eq!(Algorithm::BLAKE2B.hexlen(), 128);
}
