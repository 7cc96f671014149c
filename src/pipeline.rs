//! The decisions of the hashing pipeline: which walked entries are hashed,
//! recorded as ignored or pruned, how many workers run, and how the results
//! are assembled into a manifest.
use vstd::prelude::*;
use crate::algorithms::{Algorithm, hex_len_of};
use crate::compare::sentinel;
use crate::hashing::{digest_of, hex_upper};
use crate::manifest::{EntryView, Manifest, lemma_sorted_map_determines};
use crate::utilities::mul_str;

verus! {

/// Largest number of hashing workers.
pub const MAX_JOBS: usize = 255;

/// What the walk does with one entry.
#[derive(Debug, Clone, Copy, PartialEq, Eq, Structural)]
pub enum EntryAction {
    /// An ignored file: recorded with the sentinel, not hashed.
    RecordIgnored,
    /// An ignored directory: not descended into.
    Prune,
    /// A file to hash.
    Hash,
    /// Anything else: walked on, not recorded.
    Pass,
}

/// Whether `name` is one of the ignored paths.
pub open spec fn is_ignored(ignored: Seq<String>, name: Seq<char>) -> bool {
    exists|i: int| 0 <= i < ignored.len() && #[trigger] ignored[i]@ == name
}

/// Decides what the walk does with the entry at relative path `name`.
pub fn classify_entry(name: &String, is_file: bool, ignored_files: &Vec<String>) -> (r: EntryAction)
    ensures
        r == (if is_ignored(ignored_files@, name@) {
            if is_file {
                EntryAction::RecordIgnored
            } else {
                EntryAction::Prune
            }
        } else if is_file {
            EntryAction::Hash
        } else {
            EntryAction::Pass
        }),
{
    let mut found = false;
    let mut i: usize = 0;
    while i < ignored_files.len()
        invariant
            i <= ignored_files@.len(),
            found == exists|j: int| 0 <= j < i && #[trigger] ignored_files@[j]@ == name@,
        decreases ignored_files.len() - i,
    {
        if ignored_files[i] == *name {
            found = true;
        }
        i = i + 1;
    }
    if found {
        if is_file {
            EntryAction::RecordIgnored
        } else {
            EntryAction::Prune
        }
    } else if is_file {
        EntryAction::Hash
    } else {
        EntryAction::Pass
    }
}

/// Number of hashing workers: the host's `cores` where none was asked for,
/// else the request, at most `MAX_JOBS`.
pub fn worker_count(requested: usize, cores: usize) -> (r: usize)
    ensures
        requested == 0 ==> r == cores,
        requested > 0 ==> r == if requested > MAX_JOBS {
            MAX_JOBS
        } else {
            requested
        },
{
    if requested == 0 {
        cores
    } else if requested > MAX_JOBS {
        MAX_JOBS
    } else {
        requested
    }
}

/// The walk's depth bound: one level more than asked (depth 0 reaches the
/// immediate children); no bound stays no bound.
pub fn walk_depth(depth: Option<usize>) -> (r: Option<usize>)
    ensures
        depth is None ==> r is None,
        depth matches Some(d) ==> r == Some(if d == usize::MAX {
            d
        } else {
            (d + 1) as usize
        }),
{
    match depth {
        Some(d) => Some(d.saturating_add(1)),
        None => None,
    }
}

/// The mapping of the ignored paths, each to `d`.
pub open spec fn ignored_map(ignored: Seq<Seq<char>>, d: Seq<char>) -> Map<Seq<char>, Seq<char>>
    decreases ignored.len(),
{
    if ignored.len() == 0 {
        Map::empty()
    } else {
        ignored_map(ignored.drop_last(), d).insert(ignored.last(), d)
    }
}

/// `m` with the entries of `s` recorded in order, later ones winning.
pub open spec fn insert_all(m: Map<Seq<char>, Seq<char>>, s: Seq<EntryView>) -> Map<Seq<char>, Seq<char>>
    decreases s.len(),
{
    if s.len() == 0 {
        m
    } else {
        insert_all(m, s.drop_last()).insert(s.last().0, s.last().1)
    }
}

/// The manifest of a walk: the ignored files with the sentinel of length
/// `len`, then the hashed files with their digests.
pub open spec fn assembled_map(ignored: Seq<Seq<char>>, hashed: Seq<EntryView>, len: nat) -> Map<
    Seq<char>,
    Seq<char>,
> {
    insert_all(ignored_map(ignored, sentinel(len)), hashed)
}

/// Each file's path with the hex digest of its contents under `a`.
pub open spec fn digests_of(a: Algorithm, files: Seq<(Seq<char>, Seq<u8>)>) -> Seq<EntryView> {
    files.map_values(|f: (Seq<char>, Seq<u8>)| (f.0, hex_upper(digest_of(a, f.1))))
}

/// Builds the manifest of a walk from the ignored files found and the
/// (path, digest) results of hashing the others.
pub fn assemble_hashes(ignored_found: &Vec<String>, hashed: &Vec<(String, String)>, algo: Algorithm) -> (r:
    Manifest)
    ensures
        r.wf(),
        r.map() == assembled_map(
            ignored_found@.map_values(|s: String| s@),
            hashed@.map_values(|e: (String, String)| (e.0@, e.1@)),
            hex_len_of(algo),
        ),
{
    let ghost ig = ignored_found@.map_values(|s: String| s@);
    let ghost hs = hashed@.map_values(|e: (String, String)| (e.0@, e.1@));
    let placeholder = mul_str("-", algo.hexlen());
    proof {
        reveal_strlit("-");
        assert("-"@ =~= seq!['-']);
    }
    let mut hashes = Manifest::new();
    let mut i: usize = 0;
    while i < ignored_found.len()
        invariant
            i <= ignored_found@.len(),
            ig == ignored_found@.map_values(|s: String| s@),
            placeholder@ == sentinel(hex_len_of(algo)),
            hashes.wf(),
            hashes.map() == ignored_map(ig.take(i as int), placeholder@),
        decreases ignored_found.len() - i,
    {
        assert(ig.take(i + 1).drop_last() =~= ig.take(i as int));
        hashes.insert(ignored_found[i].clone(), placeholder.clone());
        i = i + 1;
    }
    assert(ig.take(ignored_found@.len() as int) =~= ig);
    let mut k: usize = 0;
    while k < hashed.len()
        invariant
            k <= hashed@.len(),
            ig == ignored_found@.map_values(|s: String| s@),
            hs == hashed@.map_values(|e: (String, String)| (e.0@, e.1@)),
            placeholder@ == sentinel(hex_len_of(algo)),
            hashes.wf(),
            hashes.map() == insert_all(ignored_map(ig, placeholder@), hs.take(k as int)),
        decreases hashed.len() - k,
    {
        assert(hs.take(k + 1).drop_last() =~= hs.take(k as int));
        assert(hs.take(k + 1).last() == (hashed@[k as int].0@, hashed@[k as int].1@));
        hashes.insert(hashed[k].0.clone(), hashed[k].1.clone());
        k = k + 1;
    }
    assert(hs.take(hashed@.len() as int) =~= hs);
    hashes
}

/// Hashing the same unchanged files twice, with the same algorithm and the
/// same ignored files, gives identical manifests, in content and in order.
pub proof fn lemma_hashing_idempotent(
    algo: Algorithm,
    ignored: Seq<Seq<char>>,
    files: Seq<(Seq<char>, Seq<u8>)>,
    first: Manifest,
    second: Manifest,
)
    requires
        first.wf(),
        second.wf(),
        first.map() == assembled_map(ignored, digests_of(algo, files), hex_len_of(algo)),
        second.map() == assembled_map(ignored, digests_of(algo, files), hex_len_of(algo)),
    ensures
        first@ == second@,
{
    lemma_sorted_map_determines(first@, second@);
}

} // verus!
