use quickdash::hashing::digest_bytes;
use quickdash::{hash_reader, hash_string, Algorithm};

const ALL: [Algorithm; 18] = [
    Algorithm::SHA1,
    Algorithm::SHA2224,
    Algorithm::SHA2256,
    Algorithm::SHA2384,
    Algorithm::SHA2512,
    Algorithm::SHA3224,
    Algorithm::SHA3256,
    Algorithm::SHA3384,
    Algorithm::SHA3512,
    Algorithm::XXH32,
    Algorithm::XXH64,
    Algorithm::XXH3,
    Algorithm::CRC32,
    Algorithm::MD5,
    Algorithm::WhirlPool,
    Algorithm::BLAKE2B,
    Algorithm::BLAKE2S,
    Algorithm::BLAKE3,
];

#[test]
fn hash_string_examples() {
    assert_eq!(hash_string(&[0x99, 0xAA, 0xBB, 0xCC]), "99AABBCC".to_string());
    assert_eq!(hash_string(&[0x09, 0x0A]), "090A".to_string());
    assert_eq!(hash_string(&[]), "".to_string());
}

#[test]
fn every_digest_has_published_length_and_upper_hex() {
    for data in [&b""[..], &b"abc"[..], &[0u8; 5000][..]] {
        for a in ALL {
            let h = hash_reader(a, data);
            assert_eq!(h.len(), a.hexlen());
            assert!(h.chars().all(|c| c.is_ascii_digit() || ('A'..='F').contains(&c)));
        }
    }
}

#[test]
fn known_digest_values() {
    assert_eq!(
        hash_reader(Algorithm::SHA2256, b"abc"),
        "BA7816BF8F01CFEA414140DE5DAE2223B00361A396177A9CB410FF61F20015AD"
    );
    assert_eq!(hash_reader(Algorithm::MD5, b"abc"), "900150983CD24FB0D6963F7D28E17F72");
    assert_eq!(hash_reader(Algorithm::SHA1, b"abc"), "A9993E364706816ABA3E25717850C26C9CD0D89D");
    assert_eq!(hash_reader(Algorithm::CRC32, b"123456789"), "CBF43926");
    assert_eq!(
        hash_reader(Algorithm::BLAKE3, b""),
        "AF1349B9F5F9A1A6A0404DEA36DCC9499BCB25C9ADC112B7CC9A93CAE41F3262"
    );
    assert_eq!(
        hash_reader(Algorithm::SHA3256, b""),
        "A7FFC6F8BF1ED76651C14756A061D662F580FF4DE43B49FA82D80A4B80F8434A"
    );
}

#[test]
fn integer_checksums_are_big_endian() {
    assert_eq!(digest_bytes(Algorithm::CRC32, b"123456789"), vec![0xCB, 0xF4, 0x39, 0x26]);
    assert_eq!(digest_bytes(Algorithm::XXH32, b"abc").len(), 4);
    assert_eq!(digest_bytes(Algorithm::XXH3, b"abc").len(), 8);
}

#[test]
fn same_bytes_same_digest() {
    for a in ALL {
        assert_eq!(hash_reader(a, b"same"), hash_reader(a, b"same"));
        assert_ne!(hash_reader(a, b"same"), hash_reader(a, b"other"));
    }
}
