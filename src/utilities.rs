//! Small helpers on strings, paths and vectors.
use vstd::prelude::*;
use crate::algorithms::{replace_char, replace_chars};

verus! {

/// `n` copies of `s`, one after another.
pub open spec fn repeat(s: Seq<char>, n: nat) -> Seq<char>
    decreases n,
{
    if n == 0 {
        Seq::empty()
    } else {
        repeat(s, (n - 1) as nat) + s
    }
}

/// Relies on collecting `char`s into a `String` (`FromIterator`): the
/// characters, in order.
#[verifier::external_body]
pub(crate) fn string_of(v: &[char]) -> (r: String)
    ensures
        r@ == v@,
{
    v.iter().collect()
}

/// Merges two `Vec`s.
pub fn vec_merge<T>(lhs: Vec<T>, rhs: Vec<T>) -> (r: Vec<T>)
    ensures
        r@ == lhs@ + rhs@,
{
    let mut lhs = lhs;
    let mut rhs = rhs;
    lhs.append(&mut rhs);
    lhs
}

/// Create a string consisting of `n` repetitions of `what`.
pub fn mul_str(what: &str, n: usize) -> (r: String)
    ensures
        r@ == repeat(what@, n as nat),
{
    let mut r = String::new();
    let mut k: usize = 0;
    while k < n
        invariant
            k <= n,
            r@ == repeat(what@, k as nat),
        decreases n - k,
    {
        r.append(what);
        k = k + 1;
    }
    r
}

/// What `Path::strip_prefix` leaves of `what` after the path prefix `prefix`,
/// as text; `None` where `prefix` is not a prefix of `what`.
pub uninterp spec fn path_suffix_of(prefix: Seq<char>, what: Seq<char>) -> Option<Seq<char>>;

/// Relies on `Path::strip_prefix`, which compares whole path components; the
/// remainder of a path made from a `&str` is again valid text.
#[verifier::external_body]
fn strip_path_prefix(prefix: &str, what: &str) -> (r: Option<String>)
    ensures
        r matches Some(s) ==> path_suffix_of(prefix@, what@) == Some(s@),
        r is None ==> path_suffix_of(prefix@, what@) is None,
{
    match std::path::Path::new(what).strip_prefix(prefix) {
        Ok(rest) => rest.to_str().map(|t| t.to_owned()),
        Err(_) => None,
    }
}

/// Create a user-usable path to `what` from `prefix`, with `/` separators.
/// `None` where `what` does not lie under `prefix`.
pub fn relative_name(prefix: &str, what: &str) -> (r: Option<String>)
    ensures
        r is None <==> path_suffix_of(prefix@, what@) is None,
        r matches Some(s) ==> (path_suffix_of(prefix@, what@) matches Some(t) && s@ == replace_char(
            t,
            '\\',
            '/',
        )),
{
    match strip_path_prefix(prefix, what) {
        Some(rest) => Some(replace_chars(rest.as_str(), '\\', '/')),
        None => None,
    }
}

} // verus!
