//! The closed set of digest algorithms and their published hex lengths.
use vstd::prelude::*;

verus! {

/// A hashing algorithm.
#[derive(Debug, Clone, Copy, Hash, PartialEq, Eq, PartialOrd, Ord, Structural)]
pub enum Algorithm {
    SHA1,
    SHA2224,
    SHA2256,
    SHA2384,
    SHA2512,
    SHA3224,
    SHA3256,
    SHA3384,
    SHA3512,
    XXH32,
    XXH64,
    XXH3,
    CRC32,
    MD5,
    WhirlPool,
    BLAKE2B,
    BLAKE2S,
    BLAKE3,
}

/// Number of hex characters in the digest that `a` produces.
pub open spec fn hex_len_of(a: Algorithm) -> nat {
    match a {
        Algorithm::CRC32 | Algorithm::XXH32 => 8,
        Algorithm::XXH3 | Algorithm::XXH64 => 16,
        Algorithm::MD5 => 32,
        Algorithm::SHA1 => 40,
        Algorithm::SHA2224 | Algorithm::SHA3224 => 56,
        Algorithm::SHA3256 | Algorithm::SHA2256 | Algorithm::BLAKE2S | Algorithm::BLAKE3 => 64,
        Algorithm::SHA2384 | Algorithm::SHA3384 => 96,
        Algorithm::BLAKE2B | Algorithm::SHA3512 | Algorithm::SHA2512 | Algorithm::WhirlPool => 128,
    }
}

/// The algorithm that a normalized (lower case, `-` for `_`) identifier names.
pub open spec fn algorithm_named(name: Seq<char>) -> Option<Algorithm> {
    if name == "sha-1"@ || name == "sha1"@ {
        Some(Algorithm::SHA1)
    } else if name == "sha2224"@ || name == "sha224"@ || name == "sha-224"@ || name == "sha-2-224"@ {
        Some(Algorithm::SHA2224)
    } else if name == "sha2256"@ || name == "sha256"@ || name == "sha-256"@ || name == "sha-2-256"@ {
        Some(Algorithm::SHA2256)
    } else if name == "sha2384"@ || name == "sha384"@ || name == "sha-384"@ || name == "sha-2-384"@ {
        Some(Algorithm::SHA2384)
    } else if name == "sha2512"@ || name == "sha512"@ || name == "sha-512"@ || name == "sha-2-512"@ {
        Some(Algorithm::SHA2512)
    } else if name == "sha3224"@ || name == "sha3-224"@ || name == "sha-3-224"@ {
        Some(Algorithm::SHA3224)
    } else if name == "sha3256"@ || name == "sha3-256"@ || name == "sha-3-256"@ {
        Some(Algorithm::SHA3256)
    } else if name == "sha3384"@ || name == "sha3-384"@ || name == "sha-3-384"@ {
        Some(Algorithm::SHA3384)
    } else if name == "sha3512"@ || name == "sha3-512"@ || name == "sha-3-512"@ {
        Some(Algorithm::SHA3512)
    } else if name == "crc32"@ {
        Some(Algorithm::CRC32)
    } else if name == "xxhash64"@ || name == "xxh64"@ {
        Some(Algorithm::XXH64)
    } else if name == "xxhash32"@ || name == "xxh32"@ {
        Some(Algorithm::XXH32)
    } else if name == "xxhash3"@ || name == "xxh3"@ {
        Some(Algorithm::XXH3)
    } else if name == "md5"@ {
        Some(Algorithm::MD5)
    } else if name == "blake2b"@ {
        Some(Algorithm::BLAKE2B)
    } else if name == "blake2s"@ {
        Some(Algorithm::BLAKE2S)
    } else if name == "blake3"@ {
        Some(Algorithm::BLAKE3)
    } else if name == "whirlpool"@ {
        Some(Algorithm::WhirlPool)
    } else {
        None
    }
}

/// `s` with every occurrence of `from` replaced by `to`.
pub open spec fn replace_char(s: Seq<char>, from: char, to: char) -> Seq<char> {
    s.map_values(|c: char| if c == from { to } else { c })
}

/// What `str::to_lowercase` returns for the given characters.
pub uninterp spec fn lower_of(s: Seq<char>) -> Seq<char>;

/// Relies on `str::replace` with a one-character pattern: every occurrence of
/// `from` becomes `to`, all other characters stay in place.
#[verifier::external_body]
pub(crate) fn replace_chars(s: &str, from: char, to: char) -> (r: String)
    ensures
        r@ == replace_char(s@, from, to),
{
    s.replace(from, to.encode_utf8(&mut [0u8; 4]))
}

/// Relies on `str::to_lowercase`: the result depends on the characters alone.
#[verifier::external_body]
fn lowercase(s: &str) -> (r: String)
    ensures
        r@ == lower_of(s@),
{
    s.to_lowercase()
}

fn name_is(name: &String, lit: &str) -> (r: bool)
    ensures
        r == (name@ == lit@),
{
    let owned = lit.to_owned();
    *name == owned
}

impl Algorithm {
    /// Length, in characters, of the algorithm's output hex string.
    pub fn hexlen(&self) -> (r: usize)
        ensures
            r == hex_len_of(*self),
            r > 0,
    {
        match *self {
            Algorithm::CRC32 | Algorithm::XXH32 => 8,
            Algorithm::XXH3 | Algorithm::XXH64 => 16,
            Algorithm::MD5 => 32,
            Algorithm::SHA3256 | Algorithm::SHA2256 | Algorithm::BLAKE2S | Algorithm::BLAKE3 => 64,
            Algorithm::SHA1 => 40,
            Algorithm::SHA2224 | Algorithm::SHA3224 => 56,
            Algorithm::SHA2384 | Algorithm::SHA3384 => 96,
            Algorithm::BLAKE2B | Algorithm::SHA3512 | Algorithm::SHA2512 | Algorithm::WhirlPool => {
                128
            },
        }
    }

    /// Looks up an identifier that is already lower case and uses `-` where
    /// the user may have written `_`.
    pub fn from_normalized(name: &String) -> (r: Option<Algorithm>)
        ensures
            r == algorithm_named(name@),
    {
        if name_is(name, "sha-1") || name_is(name, "sha1") {
            Some(Algorithm::SHA1)
        } else if name_is(name, "sha2224") || name_is(name, "sha224") || name_is(name, "sha-224") || name_is(name, "sha-2-224") {
            Some(Algorithm::SHA2224)
        } else if name_is(name, "sha2256") || name_is(name, "sha256") || name_is(name, "sha-256") || name_is(name, "sha-2-256") {
            Some(Algorithm::SHA2256)
        } else if name_is(name, "sha2384") || name_is(name, "sha384") || name_is(name, "sha-384") || name_is(name, "sha-2-384") {
            Some(Algorithm::SHA2384)
        } else if name_is(name, "sha2512") || name_is(name, "sha512") || name_is(name, "sha-512") || name_is(name, "sha-2-512") {
            Some(Algorithm::SHA2512)
        } else if name_is(name, "sha3224") || name_is(name, "sha3-224") || name_is(name, "sha-3-224") {
            Some(Algorithm::SHA3224)
        } else if name_is(name, "sha3256") || name_is(name, "sha3-256") || name_is(name, "sha-3-256") {
            Some(Algorithm::SHA3256)
        } else if name_is(name, "sha3384") || name_is(name, "sha3-384") || name_is(name, "sha-3-384") {
            Some(Algorithm::SHA3384)
        } else if name_is(name, "sha3512") || name_is(name, "sha3-512") || name_is(name, "sha-3-512") {
            Some(Algorithm::SHA3512)
        } else if name_is(name, "crc32") {
            Some(Algorithm::CRC32)
        } else if name_is(name, "xxhash64") || name_is(name, "xxh64") {
            Some(Algorithm::XXH64)
        } else if name_is(name, "xxhash32") || name_is(name, "xxh32") {
            Some(Algorithm::XXH32)
        } else if name_is(name, "xxhash3") || name_is(name, "xxh3") {
            Some(Algorithm::XXH3)
        } else if name_is(name, "md5") {
            Some(Algorithm::MD5)
        } else if name_is(name, "blake2b") {
            Some(Algorithm::BLAKE2B)
        } else if name_is(name, "blake2s") {
            Some(Algorithm::BLAKE2S)
        } else if name_is(name, "blake3") {
            Some(Algorithm::BLAKE3)
        } else if name_is(name, "whirlpool") {
            Some(Algorithm::WhirlPool)
        } else {
            None
        }
    }

    /// Parses a user-supplied identifier: case-insensitive, `_` and `-` alike.
    /// An unknown identifier is returned as the error.
    pub fn parse_name(s: &str) -> (r: Result<Algorithm, String>)
        ensures
            r is Ok <==> algorithm_named(lower_of(replace_char(s@, '_', '-'))) is Some,
            r matches Ok(a) ==> algorithm_named(lower_of(replace_char(s@, '_', '-'))) == Some(a),
            r matches Err(token) ==> token@ == s@,
    {
        let dashed = replace_chars(s, '_', '-');
        let lowered = lowercase(dashed.as_str());
        match Algorithm::from_normalized(&lowered) {
            Some(a) => Ok(a),
            None => Err(s.to_owned()),
        }
    }
}

impl std::str::FromStr for Algorithm {
    type Err = String;

    fn from_str(s: &str) -> (r: Result<Algorithm, String>)
        ensures
            r is Ok <==> algorithm_named(lower_of(replace_char(s@, '_', '-'))) is Some,
            r matches Ok(a) ==> algorithm_named(lower_of(replace_char(s@, '_', '-'))) == Some(a),
            r matches Err(m) ==> m@ == seq!['"'] + s@ + "\" is not a recognised hashing algorithm"@,
    {
        match Algorithm::parse_name(s) {
            Ok(a) => Ok(a),
            Err(token) => {
                let mut msg = "\"".to_owned();
                proof {
                    reveal_strlit("\"");
                    assert("\""@ =~= seq!['"']);
                }
                msg.append(token.as_str());
                msg.append("\" is not a recognised hashing algorithm");
                Err(msg)
            },
        }
    }
}

} // verus!
