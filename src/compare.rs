//! Reconciliation of a freshly computed manifest against a loaded one.
use vstd::prelude::*;
use crate::manifest::{
    EntryView, Manifest, has_key, lemma_sorted_unique, lemma_value_at, sorted_keys, unique_keys,
    value_of,
};
use crate::error::Error;
use crate::utilities::{mul_str, repeat, vec_merge};

verus! {

/// A structural difference between two manifests.
#[derive(Debug, Clone, Hash, PartialEq, Eq, PartialOrd, Ord)]
pub enum CompareResult {
    FileAdded(String),
    FileRemoved(String),
    FileIgnored(String),
}

/// The outcome of comparing the digests of a path present on both sides.
#[derive(Debug, Clone, Hash, PartialEq, Eq, PartialOrd, Ord)]
pub enum CompareFileResult {
    FileMatches(String),
    FileDiffers { file: String, was_hash: String, new_hash: String },
}

/// Why two manifests cannot be compared.
#[derive(Debug, Clone, Hash, PartialEq, Eq, Copy, Structural)]
pub enum CompareError {
    HashLengthDiffers { previous_len: usize, current_len: usize },
}

/// A structural difference, as the specifications see it.
pub enum Change {
    Added(Seq<char>),
    Removed(Seq<char>),
    Ignored(Seq<char>),
}

/// A content comparison, as the specifications see it:
/// `Differs(path, was, new)`.
pub enum Comparison {
    Matches(Seq<char>),
    Differs(Seq<char>, Seq<char>, Seq<char>),
}

impl View for CompareResult {
    type V = Change;

    open spec fn view(&self) -> Change {
        match self {
            CompareResult::FileAdded(f) => Change::Added(f@),
            CompareResult::FileRemoved(f) => Change::Removed(f@),
            CompareResult::FileIgnored(f) => Change::Ignored(f@),
        }
    }
}

impl View for CompareFileResult {
    type V = Comparison;

    open spec fn view(&self) -> Comparison {
        match self {
            CompareFileResult::FileMatches(f) => Comparison::Matches(f@),
            CompareFileResult::FileDiffers { file, was_hash, new_hash } => Comparison::Differs(
                file@,
                was_hash@,
                new_hash@,
            ),
        }
    }
}

pub open spec fn changes_view(v: Seq<CompareResult>) -> Seq<Change> {
    v.map_values(|r: CompareResult| r@)
}

pub open spec fn comparisons_view(v: Seq<CompareFileResult>) -> Seq<Comparison> {
    v.map_values(|r: CompareFileResult| r@)
}

/// The values `f` gives for the entries of `s`, in order, where it gives one.
pub open spec fn collect<T>(s: Seq<EntryView>, f: spec_fn(EntryView) -> Option<T>) -> Seq<T>
    decreases s.len(),
{
    if s.len() == 0 {
        Seq::empty()
    } else {
        let rest = collect(s.drop_last(), f);
        match f(s.last()) {
            Some(x) => rest.push(x),
            None => rest,
        }
    }
}

/// The ignored-sentinel of a given digest length: that many `-`.
pub open spec fn sentinel(len: nat) -> Seq<char> {
    repeat(seq!['-'], len)
}

/// The digest length both manifests share: that of the first entry of
/// `current`, or of `loaded` where `current` is empty.
pub open spec fn shared_len(current: Seq<EntryView>, loaded: Seq<EntryView>) -> nat {
    if current.len() > 0 {
        current[0].1.len()
    } else if loaded.len() > 0 {
        loaded[0].1.len()
    } else {
        0
    }
}

/// The two manifests were made with algorithms of different digest lengths.
pub open spec fn lengths_differ(current: Seq<EntryView>, loaded: Seq<EntryView>) -> bool {
    current.len() > 0 && loaded.len() > 0 && current[0].1.len() != loaded[0].1.len()
}

/// The passes of the structural scan.
#[derive(Clone, Copy, PartialEq, Eq, Structural)]
pub enum Pass {
    /// Paths missing on the other side, without the sentinel, are reported
    /// as added.
    Added,
    /// Paths missing on the other side, without the sentinel, are reported
    /// as removed.
    Removed,
    /// Paths whose digest here is the sentinel are reported as ignored.
    IgnoredHere,
    /// Paths whose digest here is the sentinel are reported as ignored,
    /// unless the other side holds the sentinel for them too.
    IgnoredHereOnly,
}

/// What a pass reports for one entry of the side it walks; `other` is the
/// opposite side, `x` the manifest's own path, `d` the sentinel.
pub open spec fn pass_fn(p: Pass, other: Seq<EntryView>, x: Seq<char>, d: Seq<char>) -> spec_fn(
    EntryView,
) -> Option<Change> {
    |e: EntryView|
        if e.0 == x {
            None
        } else {
            match p {
                Pass::Added => if !has_key(other, e.0) && e.1 != d {
                    Some(Change::Added(e.0))
                } else {
                    None
                },
                Pass::Removed => if !has_key(other, e.0) && e.1 != d {
                    Some(Change::Removed(e.0))
                } else {
                    None
                },
                Pass::IgnoredHere => if e.1 == d {
                    Some(Change::Ignored(e.0))
                } else {
                    None
                },
                Pass::IgnoredHereOnly => if e.1 == d && !(has_key(other, e.0) && value_of(
                    other,
                    e.0,
                ) == d) {
                    Some(Change::Ignored(e.0))
                } else {
                    None
                },
            }
        }
}

/// What the content pass reports for one entry of `loaded`.
pub open spec fn content_fn(current: Seq<EntryView>, x: Seq<char>, d: Seq<char>) -> spec_fn(
    EntryView,
) -> Option<Comparison> {
    |e: EntryView|
        if e.0 != x && has_key(current, e.0) && value_of(current, e.0) != d && e.1 != d {
            if value_of(current, e.0) == e.1 {
                Some(Comparison::Matches(e.0))
            } else {
                Some(Comparison::Differs(e.0, e.1, value_of(current, e.0)))
            }
        } else {
            None
        }
}

/// Structural changes: added, then removed, then ignored in `current`, then
/// ignored in `loaded` only. Sentinel paths are only ever ignored.
pub open spec fn structural_spec(
    current: Seq<EntryView>,
    loaded: Seq<EntryView>,
    x: Seq<char>,
    d: Seq<char>,
) -> Seq<Change> {
    collect(current, pass_fn(Pass::Added, loaded, x, d)) + collect(
        loaded,
        pass_fn(Pass::Removed, current, x, d),
    ) + collect(current, pass_fn(Pass::IgnoredHere, loaded, x, d)) + collect(
        loaded,
        pass_fn(Pass::IgnoredHereOnly, current, x, d),
    )
}

/// Content comparisons, in the order of `loaded`.
pub open spec fn content_spec(
    current: Seq<EntryView>,
    loaded: Seq<EntryView>,
    x: Seq<char>,
    d: Seq<char>,
) -> Seq<Comparison> {
    collect(loaded, content_fn(current, x, d))
}

proof fn lemma_collect_step<T>(s: Seq<EntryView>, i: int, f: spec_fn(EntryView) -> Option<T>)
    requires
        0 <= i < s.len(),
    ensures
        collect(s.take(i + 1), f) == match f(s[i]) {
            Some(x) => collect(s.take(i), f).push(x),
            None => collect(s.take(i), f),
        },
{
    assert(s.take(i + 1).drop_last() =~= s.take(i));
}

/// Runs one pass over `curr`, appending what it reports to `results`.
fn process_ignores_iter(
    pass: Pass,
    curr: &Manifest,
    other: &Manifest,
    excluded: &String,
    placeholder: &String,
    results: &mut Vec<CompareResult>,
)
    requires
        curr.wf(),
        other.wf(),
    ensures
        changes_view(final(results)@) == changes_view(old(results)@) + collect(
            curr@,
            pass_fn(pass, other@, excluded@, placeholder@),
        ),
{
    let ghost f = pass_fn(pass, other@, excluded@, placeholder@);
    let ghost start = changes_view(results@);
    let entries = curr.entries();
    proof {
        lemma_sorted_unique(other@);
    }
    let mut i: usize = 0;
    while i < entries.len()
        invariant
            i <= entries@.len(),
            entries@.map_values(|e: (String, String)| (e.0@, e.1@)) == curr@,
            other.wf(),
            unique_keys(other@),
            f == pass_fn(pass, other@, excluded@, placeholder@),
            changes_view(results@) == start + collect(curr@.take(i as int), f),
        decreases entries.len() - i,
    {
        proof {
            lemma_collect_step(curr@, i as int, f);
        }
        let key = &entries[i].0;
        let value = &entries[i].1;
        let ghost e = curr@[i as int];
        assert(e == (key@, value@));
        let ghost before = results@;
        if *key != *excluded {
            let found = other.find(key);
            let is_sentinel = *value == *placeholder;
            let report = match pass {
                Pass::Added => found.is_none() && !is_sentinel,
                Pass::Removed => found.is_none() && !is_sentinel,
                Pass::IgnoredHere => is_sentinel,
                Pass::IgnoredHereOnly => match found {
                    Some(j) => {
                        proof {
                            lemma_value_at(other@, j as int);
                        }
                        let theirs = &other.entries()[j].1;
                        assert(other@[j as int].1 == theirs@);
                        is_sentinel && *theirs != *placeholder
                    },
                    None => is_sentinel,
                },
            };
            if report {
                let item = match pass {
                    Pass::Added => CompareResult::FileAdded(key.clone()),
                    Pass::Removed => CompareResult::FileRemoved(key.clone()),
                    _ => CompareResult::FileIgnored(key.clone()),
                };
                results.push(item);
                assert(f(e) == Some(item@));
                assert(changes_view(results@) =~= changes_view(before).push(item@));
            } else {
                assert(f(e) is None);
            }
        } else {
            assert(f(e) is None);
        }
        i = i + 1;
    }
    assert(curr@.take(entries@.len() as int) =~= curr@);
}

/// Runs `first` over `ch` against `lh`, then `second` over `lh` against `ch`.
fn process_ignores(
    first: Pass,
    second: Pass,
    ch: &Manifest,
    lh: &Manifest,
    excluded: &String,
    placeholder: &String,
) -> (r: Vec<CompareResult>)
    requires
        ch.wf(),
        lh.wf(),
    ensures
        changes_view(r@) == collect(ch@, pass_fn(first, lh@, excluded@, placeholder@)) + collect(
            lh@,
            pass_fn(second, ch@, excluded@, placeholder@),
        ),
{
    let mut results: Vec<CompareResult> = Vec::new();
    assert(changes_view(results@) =~= Seq::<Change>::empty());
    process_ignores_iter(first, ch, lh, excluded, placeholder, &mut results);
    process_ignores_iter(second, lh, ch, excluded, placeholder, &mut results);
    results
}


/// Compares the digests of the paths that remain on both sides after the
/// structural passes, in the order of `loaded`.
fn compare_contents(
    current: &Manifest,
    loaded: &Manifest,
    excluded: &String,
    placeholder: &String,
) -> (r: Vec<CompareFileResult>)
    requires
        current.wf(),
        loaded.wf(),
    ensures
        comparisons_view(r@) == content_spec(current@, loaded@, excluded@, placeholder@),
{
    let ghost f = content_fn(current@, excluded@, placeholder@);
    let mut results: Vec<CompareFileResult> = Vec::new();
    assert(comparisons_view(results@) =~= Seq::<Comparison>::empty());
    let entries = loaded.entries();
    let theirs = current.entries();
    proof {
        lemma_sorted_unique(current@);
    }
    let mut i: usize = 0;
    while i < entries.len()
        invariant
            i <= entries@.len(),
            entries@.map_values(|e: (String, String)| (e.0@, e.1@)) == loaded@,
            theirs@.map_values(|e: (String, String)| (e.0@, e.1@)) == current@,
            current.wf(),
            unique_keys(current@),
            f == content_fn(current@, excluded@, placeholder@),
            comparisons_view(results@) == collect(loaded@.take(i as int), f),
        decreases entries.len() - i,
    {
        proof {
            lemma_collect_step(loaded@, i as int, f);
        }
        let key = &entries[i].0;
        let loaded_value = &entries[i].1;
        let ghost e = loaded@[i as int];
        assert(e == (key@, loaded_value@));
        let ghost before = results@;
        let mut pushed = false;
        if *key != *excluded && *loaded_value != *placeholder {
            match current.find(key) {
                Some(j) => {
                    proof {
                        lemma_value_at(current@, j as int);
                    }
                    let current_value = &theirs[j].1;
                    assert(current@[j as int].1 == current_value@);
                    if *current_value != *placeholder {
                        let item = if *current_value == *loaded_value {
                            CompareFileResult::FileMatches(key.clone())
                        } else {
                            CompareFileResult::FileDiffers {
                                file: key.clone(),
                                was_hash: loaded_value.clone(),
                                new_hash: current_value.clone(),
                            }
                        };
                        results.push(item);
                        pushed = true;
                        assert(f(e) == Some(item@));
                        assert(comparisons_view(results@) =~= comparisons_view(before).push(item@));
                    }
                },
                None => {},
            }
        }
        if !pushed {
            assert(f(e) is None);
        }
        i = i + 1;
    }
    assert(loaded@.take(entries@.len() as int) =~= loaded@);
    results
}

/// Number of characters of the digest of the first entry.
fn first_digest_len(m: &Manifest) -> (r: usize)
    requires
        m@.len() > 0,
    ensures
        r == m@[0].1.len(),
{
    let entries = m.entries();
    assert(m@[0] == (entries@[0].0@, entries@[0].1@));
    entries[0].1.as_str().unicode_len()
}

/// Compare two provided manifests: `current_hashes`, just computed, against
/// `loaded_hashes`, read back from `out_file`.
///
/// Fails where both are non-empty and their first digests differ in length.
/// Otherwise the entry for `out_file` is left out on both sides; the
/// structural changes are the paths only in `current_hashes` (added), then
/// those only in `loaded_hashes` (removed), neither with the sentinel; then
/// the paths with the sentinel in `current_hashes`, then those with it in
/// `loaded_hashes` alone (ignored). Every shared path without the sentinel
/// on either side is compared, in path order.
pub fn compare_hashes(out_file: &String, current_hashes: Manifest, loaded_hashes: Manifest) -> (r:
    Result<(Vec<CompareResult>, Vec<CompareFileResult>), CompareError>)
    requires
        current_hashes.wf(),
        loaded_hashes.wf(),
    ensures
        r is Err <==> lengths_differ(current_hashes@, loaded_hashes@),
        r matches Err(CompareError::HashLengthDiffers { previous_len, current_len }) ==> (
        previous_len == loaded_hashes@[0].1.len() && current_len == current_hashes@[0].1.len()),
        r matches Ok((changes, contents)) ==> (changes_view(changes@) == structural_spec(
            current_hashes@,
            loaded_hashes@,
            out_file@,
            sentinel(shared_len(current_hashes@, loaded_hashes@)),
        ) && comparisons_view(contents@) == content_spec(
            current_hashes@,
            loaded_hashes@,
            out_file@,
            sentinel(shared_len(current_hashes@, loaded_hashes@)),
        )),
{
    let mut value_len: usize = 0;
    if current_hashes.len() > 0 {
        value_len = first_digest_len(&current_hashes);
    }
    if loaded_hashes.len() > 0 {
        let loaded_len = first_digest_len(&loaded_hashes);
        if current_hashes.len() == 0 {
            value_len = loaded_len;
        } else if loaded_len != value_len {
            return Err(
                CompareError::HashLengthDiffers { previous_len: loaded_len, current_len: value_len },
            );
        }
    }
    let placeholder = mul_str("-", value_len);
    proof {
        reveal_strlit("-");
        assert("-"@ =~= seq!['-']);
    }
    let remove_results = process_ignores(
        Pass::Added,
        Pass::Removed,
        &current_hashes,
        &loaded_hashes,
        out_file,
        &placeholder,
    );
    let ignore_results = process_ignores(
        Pass::IgnoredHere,
        Pass::IgnoredHereOnly,
        &current_hashes,
        &loaded_hashes,
        out_file,
        &placeholder,
    );
    let file_compare_results = compare_contents(
        &current_hashes,
        &loaded_hashes,
        out_file,
        &placeholder,
    );
    let merged = vec_merge(remove_results, ignore_results);
    assert(changes_view(merged@) =~= changes_view(remove_results@) + changes_view(
        ignore_results@,
    ));
    Ok((merged, file_compare_results))
}


/// Every value that `collect` gives satisfies `p` where every value `f` gives does.
pub proof fn lemma_collect_all<T>(s: Seq<EntryView>, f: spec_fn(EntryView) -> Option<T>, p: spec_fn(T) -> bool)
    requires
        forall|i: int| 0 <= i < s.len() ==> (#[trigger] f(s[i]) matches Some(v) ==> p(v)),
    ensures
        forall|j: int| 0 <= j < collect(s, f).len() ==> p(#[trigger] collect(s, f)[j]),
    decreases s.len(),
{
    if s.len() > 0 {
        let init = s.drop_last();
        assert forall|i: int| 0 <= i < init.len() implies (#[trigger] f(init[i]) matches Some(v) ==> p(v)) by {
            assert(init[i] == s[i]);
        }
        lemma_collect_all(init, f, p);
        assert(f(s[s.len() - 1]) == f(s.last()));
        let c0 = collect(init, f);
        let c = collect(s, f);
        assert forall|j: int| 0 <= j < c.len() implies p(#[trigger] c[j]) by {
            if j < c0.len() {
                assert(c[j] == c0[j]);
            }
        }
    }
}

/// `collect` gives the value that `f` gives for any entry.
pub proof fn lemma_collect_has<T>(s: Seq<EntryView>, f: spec_fn(EntryView) -> Option<T>, i: int)
    requires
        0 <= i < s.len(),
        f(s[i]) is Some,
    ensures
        collect(s, f).contains(f(s[i])->0),
    decreases s.len(),
{
    let c = collect(s, f);
    if i == s.len() - 1 {
        assert(c[c.len() - 1] == f(s[i])->0);
    } else {
        let init = s.drop_last();
        assert(init[i] == s[i]);
        lemma_collect_has(init, f, i);
        let c0 = collect(init, f);
        let j = choose|j: int| 0 <= j < c0.len() && c0[j] == f(s[i])->0;
        assert(c[j] == c0[j]);
    }
}

proof fn lemma_self_compare_prefix(m: Seq<EntryView>, s: Seq<EntryView>, x: Seq<char>, d: Seq<char>)
    requires
        forall|i: int| 0 <= i < s.len() ==> has_key(m, #[trigger] s[i].0) && value_of(m, s[i].0) == s[i].1,
    ensures
        collect(s, pass_fn(Pass::Added, m, x, d)).len() == 0,
        collect(s, pass_fn(Pass::Removed, m, x, d)).len() == 0,
        collect(s, pass_fn(Pass::IgnoredHereOnly, m, x, d)).len() == 0,
        collect(s, pass_fn(Pass::IgnoredHere, m, x, d)) == collect(s, ignored_fn(x, d)),
        collect(s, content_fn(m, x, d)) == collect(s, matches_fn(x, d)),
    decreases s.len(),
{
    if s.len() > 0 {
        let init = s.drop_last();
        assert forall|i: int| 0 <= i < init.len() implies has_key(m, #[trigger] init[i].0) && value_of(
            m,
            init[i].0,
        ) == init[i].1 by {
            assert(init[i] == s[i]);
        }
        lemma_self_compare_prefix(m, init, x, d);
        assert(s.last() == s[s.len() - 1]);
    }
}

/// Reports the sentinel paths of a manifest other than `x` as ignored.
pub open spec fn ignored_fn(x: Seq<char>, d: Seq<char>) -> spec_fn(EntryView) -> Option<Change> {
    |e: EntryView|
        if e.0 != x && e.1 == d {
            Some(Change::Ignored(e.0))
        } else {
            None
        }
}

/// Reports the non-sentinel paths of a manifest other than `x` as matching.
pub open spec fn matches_fn(x: Seq<char>, d: Seq<char>) -> spec_fn(EntryView) -> Option<Comparison> {
    |e: EntryView|
        if e.0 != x && e.1 != d {
            Some(Comparison::Matches(e.0))
        } else {
            None
        }
}

/// Comparing a manifest with itself reports nothing added, removed or
/// differing: the structural changes are its sentinel paths, reported as
/// ignored, and every other path but the manifest's own matches.
pub proof fn lemma_compare_with_itself(m: Seq<EntryView>, x: Seq<char>, d: Seq<char>)
    requires
        sorted_keys(m),
    ensures
        structural_spec(m, m, x, d) == collect(m, ignored_fn(x, d)),
        content_spec(m, m, x, d) == collect(m, matches_fn(x, d)),
{
    lemma_sorted_unique(m);
    assert forall|i: int| 0 <= i < m.len() implies has_key(m, #[trigger] m[i].0) && value_of(m, m[i].0)
        == m[i].1 by {
        lemma_value_at(m, i);
    }
    lemma_self_compare_prefix(m, m, x, d);
    assert(structural_spec(m, m, x, d) =~= collect(m, ignored_fn(x, d)));
}

/// A change reported for path `k`, of any kind.
pub open spec fn change_path(v: Change) -> Seq<char> {
    match v {
        Change::Added(p) => p,
        Change::Removed(p) => p,
        Change::Ignored(p) => p,
    }
}

/// `v` occurs at most once in `s`.
pub open spec fn at_most_once<T>(s: Seq<T>, v: T) -> bool {
    forall|a: int, b: int| 0 <= a < s.len() && 0 <= b < s.len() && s[a] == v && s[b] == v ==> a == b
}

/// A value that `f` gives only for entries with path `k` occurs at most once
/// in what `collect` gives over entries with distinct paths.
proof fn lemma_collect_at_most_once<T>(s: Seq<EntryView>, f: spec_fn(EntryView) -> Option<T>, v: T, k: Seq<char>)
    requires
        unique_keys(s),
        forall|i: int| 0 <= i < s.len() && #[trigger] f(s[i]) == Some(v) ==> s[i].0 == k,
    ensures
        at_most_once(collect(s, f), v),
    decreases s.len(),
{
    if s.len() > 0 {
        let init = s.drop_last();
        assert forall|i: int, j: int| 0 <= i < init.len() && 0 <= j < init.len() && i != j implies #[trigger] init[i].0 != #[trigger] init[j].0 by {
            assert(init[i] == s[i] && init[j] == s[j]);
        }
        assert forall|i: int| 0 <= i < init.len() && #[trigger] f(init[i]) == Some(v) implies init[i].0 == k by {
            assert(init[i] == s[i]);
        }
        lemma_collect_at_most_once(init, f, v, k);
        let c0 = collect(init, f);
        let c = collect(s, f);
        assert(s.last() == s[s.len() - 1]);
        if f(s.last()) == Some(v) {
            let not_v = |w: T| w != v;
            assert forall|i: int| 0 <= i < init.len() implies (#[trigger] f(init[i]) matches Some(w) ==> not_v(w)) by {
                assert(init[i] == s[i]);
                if f(init[i]) == Some(v) {
                    assert(s[i].0 == k);
                    assert(s[s.len() - 1].0 == k);
                }
            }
            lemma_collect_all(init, f, not_v);
            assert forall|a: int, b: int| 0 <= a < c.len() && 0 <= b < c.len() && c[a] == v && c[b] == v implies a == b by {
                if a < c0.len() {
                    assert(c[a] == c0[a]);
                    assert(not_v(c0[a]));
                }
                if b < c0.len() {
                    assert(c[b] == c0[b]);
                    assert(not_v(c0[b]));
                }
            }
        } else {
            assert forall|a: int, b: int| 0 <= a < c.len() && 0 <= b < c.len() && c[a] == v && c[b] == v implies a == b by {
                assert(c[a] == c0[a] && c[b] == c0[b]);
            }
        }
    }
}

/// What the structural changes say of one path `k` other than the
/// manifest's own: it is added exactly where only `current` holds it, without
/// the sentinel; removed exactly where only `loaded` holds it, without the
/// sentinel; ignored exactly where either side holds the sentinel for it,
/// and then exactly once. Its digests are compared only where both sides
/// hold it and neither with the sentinel.
pub proof fn lemma_structural_per_path(
    c: Seq<EntryView>,
    l: Seq<EntryView>,
    x: Seq<char>,
    d: Seq<char>,
    k: Seq<char>,
)
    requires
        sorted_keys(c),
        sorted_keys(l),
        k != x,
    ensures
        structural_spec(c, l, x, d).contains(Change::Added(k)) <==> (has_key(c, k) && !has_key(l, k)
            && value_of(c, k) != d),
        structural_spec(c, l, x, d).contains(Change::Removed(k)) <==> (has_key(l, k) && !has_key(c, k)
            && value_of(l, k) != d),
        structural_spec(c, l, x, d).contains(Change::Ignored(k)) <==> ((has_key(c, k) && value_of(c, k)
            == d) || (has_key(l, k) && value_of(l, k) == d)),
        at_most_once(structural_spec(c, l, x, d), Change::Ignored(k)),
        (exists|j: int| 0 <= j < content_spec(c, l, x, d).len() && match #[trigger] content_spec(c, l, x, d)[j] {
            Comparison::Matches(p) => p == k,
            Comparison::Differs(p, _, _) => p == k,
        }) ==> (has_key(c, k) && has_key(l, k) && value_of(c, k) != d && value_of(l, k) != d),
{
    lemma_sorted_unique(c);
    lemma_sorted_unique(l);
    let fa = pass_fn(Pass::Added, l, x, d);
    let fr = pass_fn(Pass::Removed, c, x, d);
    let fic = pass_fn(Pass::IgnoredHere, l, x, d);
    let fil = pass_fn(Pass::IgnoredHereOnly, c, x, d);
    let a = collect(c, fa);
    let r = collect(l, fr);
    let ic = collect(c, fic);
    let il = collect(l, fil);
    let all = structural_spec(c, l, x, d);
    assert(all == a + r + ic + il);
    // where each part's values come from
    let added_ok = |v: Change| v == Change::Added(k) ==> (has_key(c, k) && !has_key(l, k) && value_of(c, k) != d);
    let removed_ok = |v: Change| v == Change::Removed(k) ==> (has_key(l, k) && !has_key(c, k) && value_of(l, k) != d);
    let ignored_ok = |v: Change| v == Change::Ignored(k) ==> ((has_key(c, k) && value_of(c, k) == d) || (has_key(l, k) && value_of(l, k) == d));
    let only_added = |v: Change| v is Added && added_ok(v);
    let only_removed = |v: Change| v is Removed && removed_ok(v);
    let only_ignored = |v: Change| v is Ignored && ignored_ok(v);
    assert forall|i: int| 0 <= i < c.len() implies (#[trigger] fa(c[i]) matches Some(v) ==> only_added(v)) by {
        lemma_value_at(c, i);
    }
    assert forall|i: int| 0 <= i < l.len() implies (#[trigger] fr(l[i]) matches Some(v) ==> only_removed(v)) by {
        lemma_value_at(l, i);
    }
    assert forall|i: int| 0 <= i < c.len() implies (#[trigger] fic(c[i]) matches Some(v) ==> only_ignored(v)) by {
        lemma_value_at(c, i);
    }
    assert forall|i: int| 0 <= i < l.len() implies (#[trigger] fil(l[i]) matches Some(v) ==> only_ignored(v)) by {
        lemma_value_at(l, i);
    }
    lemma_collect_all(c, fa, only_added);
    lemma_collect_all(l, fr, only_removed);
    lemma_collect_all(c, fic, only_ignored);
    lemma_collect_all(l, fil, only_ignored);
    assert forall|j: int| 0 <= j < all.len() implies added_ok(#[trigger] all[j]) && removed_ok(all[j])
        && ignored_ok(all[j]) && (j < a.len() <==> all[j] is Added) && (a.len() <= j < a.len() + r.len() <==> all[j] is Removed) by {
        if j < a.len() {
            assert(all[j] == a[j]);
        } else if j < a.len() + r.len() {
            assert(all[j] == r[j - a.len()]);
        } else if j < a.len() + r.len() + ic.len() {
            assert(all[j] == ic[j - a.len() - r.len()]);
        } else {
            assert(all[j] == il[j - a.len() - r.len() - ic.len()]);
        }
    }
    // each condition gives its change
    if has_key(c, k) {
        let ci = choose|i: int| 0 <= i < c.len() && #[trigger] c[i].0 == k;
        lemma_value_at(c, ci);
        if !has_key(l, k) && value_of(c, k) != d {
            lemma_collect_has(c, fa, ci);
            let j = choose|j: int| 0 <= j < a.len() && a[j] == Change::Added(k);
            assert(all[j] == Change::Added(k));
        }
        if value_of(c, k) == d {
            lemma_collect_has(c, fic, ci);
            let j = choose|j: int| 0 <= j < ic.len() && ic[j] == Change::Ignored(k);
            assert(all[a.len() + r.len() + j] == Change::Ignored(k));
        }
    }
    if has_key(l, k) {
        let li = choose|i: int| 0 <= i < l.len() && #[trigger] l[i].0 == k;
        lemma_value_at(l, li);
        if !has_key(c, k) && value_of(l, k) != d {
            lemma_collect_has(l, fr, li);
            let j = choose|j: int| 0 <= j < r.len() && r[j] == Change::Removed(k);
            assert(all[a.len() + j] == Change::Removed(k));
        }
        if value_of(l, k) == d && !(has_key(c, k) && value_of(c, k) == d) {
            lemma_collect_has(l, fil, li);
            let j = choose|j: int| 0 <= j < il.len() && il[j] == Change::Ignored(k);
            assert(all[a.len() + r.len() + ic.len() + j] == Change::Ignored(k));
        }
    }
    // ignored at most once
    assert forall|i: int| 0 <= i < c.len() && #[trigger] fic(c[i]) == Some(Change::Ignored(k)) implies c[i].0 == k by {}
    assert forall|i: int| 0 <= i < l.len() && #[trigger] fil(l[i]) == Some(Change::Ignored(k)) implies l[i].0 == k by {}
    lemma_collect_at_most_once(c, fic, Change::Ignored(k), k);
    lemma_collect_at_most_once(l, fil, Change::Ignored(k), k);
    let no_ign = |v: Change| v != Change::Ignored(k);
    if ic.contains(Change::Ignored(k)) {
        // then `current` holds the sentinel for `k`, and the loaded pass skips it
        let from_current = |v: Change| v == Change::Ignored(k) ==> (has_key(c, k) && value_of(c, k) == d);
        assert forall|i: int| 0 <= i < c.len() implies (#[trigger] fic(c[i]) matches Some(v) ==> from_current(v)) by {
            lemma_value_at(c, i);
        }
        lemma_collect_all(c, fic, from_current);
        let j = choose|j: int| 0 <= j < ic.len() && ic[j] == Change::Ignored(k);
        assert(from_current(ic[j]));
        assert forall|i: int| 0 <= i < l.len() implies (#[trigger] fil(l[i]) matches Some(v) ==> no_ign(v)) by {}
        lemma_collect_all(l, fil, no_ign);
    }
    assert forall|p: int, q: int| 0 <= p < all.len() && 0 <= q < all.len() && all[p] == Change::Ignored(k) && all[q] == Change::Ignored(k) implies p == q by {
        let base = a.len() + r.len();
        assert(p >= base && q >= base);
        if p < base + ic.len() && q < base + ic.len() {
            assert(ic[p - base] == all[p] && ic[q - base] == all[q]);
        } else if p >= base + ic.len() && q >= base + ic.len() {
            assert(il[p - base - ic.len()] == all[p] && il[q - base - ic.len()] == all[q]);
        } else if p < base + ic.len() {
            assert(ic[p - base] == all[p]);
            assert(ic.contains(Change::Ignored(k)));
            assert(il[q - base - ic.len()] == all[q]);
        } else {
            assert(ic[q - base] == all[q]);
            assert(ic.contains(Change::Ignored(k)));
            assert(il[p - base - ic.len()] == all[p]);
        }
    }
    // contents
    let content_ok = |v: Comparison| (match v {
        Comparison::Matches(p) => p == k,
        Comparison::Differs(p, _, _) => p == k,
    }) ==> (has_key(c, k) && has_key(l, k) && value_of(c, k) != d && value_of(l, k) != d);
    assert forall|i: int| 0 <= i < l.len() implies (#[trigger] content_fn(c, x, d)(l[i]) matches Some(v) ==> content_ok(v)) by {
        lemma_value_at(l, i);
    }
    lemma_collect_all(l, content_fn(c, x, d), content_ok);
}

/// A path other than the manifest's own whose digest is the sentinel on
/// either side, whether or not the other side holds it, is reported as
/// ignored, exactly once; it is neither added nor removed, and its digests
/// are not compared.
pub proof fn lemma_sentinel_is_ignored(
    c: Seq<EntryView>,
    l: Seq<EntryView>,
    x: Seq<char>,
    d: Seq<char>,
    k: Seq<char>,
)
    requires
        sorted_keys(c),
        sorted_keys(l),
        k != x,
        (has_key(c, k) && value_of(c, k) == d) || (has_key(l, k) && value_of(l, k) == d),
    ensures
        structural_spec(c, l, x, d).contains(Change::Ignored(k)),
        at_most_once(structural_spec(c, l, x, d), Change::Ignored(k)),
        !structural_spec(c, l, x, d).contains(Change::Added(k)),
        !structural_spec(c, l, x, d).contains(Change::Removed(k)),
        forall|j: int| 0 <= j < content_spec(c, l, x, d).len() ==> match #[trigger] content_spec(c, l, x, d)[j] {
            Comparison::Matches(p) => p != k,
            Comparison::Differs(p, _, _) => p != k,
        },
{
    lemma_structural_per_path(c, l, x, d, k);
}

/// Manifests whose first digests have different lengths, such as 64 and
/// 128 characters, cannot be compared.
pub proof fn lemma_length_mismatch(c: Seq<EntryView>, l: Seq<EntryView>)
    requires
        c.len() > 0,
        l.len() > 0,
        c[0].1.len() != l[0].1.len(),
    ensures
        lengths_differ(c, l),
{
}


/// Number of structural changes that count as differences (added or removed).
pub open spec fn presence_count(v: Seq<Change>) -> nat
    decreases v.len(),
{
    if v.len() == 0 {
        0
    } else {
        presence_count(v.drop_last()) + match v.last() {
            Change::Ignored(_) => 0nat,
            _ => 1nat,
        }
    }
}

/// Number of content comparisons that differ.
pub open spec fn differs_count(v: Seq<Comparison>) -> nat
    decreases v.len(),
{
    if v.len() == 0 {
        0
    } else {
        differs_count(v.drop_last()) + match v.last() {
            Comparison::Differs(_, _, _) => 1nat,
            _ => 0nat,
        }
    }
}

/// The largest count of differing files that an exit value can carry.
pub const MAX_REPORTED: i32 = 2147483644;

/// The way a verification ends: the length mismatch, no error where nothing
/// was added, removed or differs, else the number of such files (at most
/// `MAX_REPORTED`).
pub fn verification_outcome(result: &Result<(Vec<CompareResult>, Vec<CompareFileResult>), CompareError>) -> (r: Error)
    ensures
        result is Err ==> r == Error::HashLengthDiffers,
        result matches Ok((s, c)) ==> ({
            let n = presence_count(changes_view(s@)) + differs_count(comparisons_view(c@));
            if n == 0 {
                r == Error::NoError
            } else {
                r == Error::NFilesDiffer(if n > MAX_REPORTED { MAX_REPORTED } else { n as i32 })
            }
        }),
{
    match result {
        Err(_) => Error::HashLengthDiffers,
        Ok((s, c)) => {
            let mut n: u128 = 0;
            let mut i: usize = 0;
            while i < s.len()
                invariant
                    i <= s@.len(),
                    n == presence_count(changes_view(s@.take(i as int))),
                    n <= i,
                decreases s.len() - i,
            {
                assert(changes_view(s@.take(i + 1)).drop_last() =~= changes_view(s@.take(i as int)));
                match &s[i] {
                    CompareResult::FileIgnored(_) => {},
                    _ => {
                        n = n + 1;
                    },
                }
                i = i + 1;
            }
            assert(s@.take(s@.len() as int) =~= s@);
            let sl = s.len();
            let mut k: usize = 0;
            while k < c.len()
                invariant
                    k <= c@.len(),
                    n == presence_count(changes_view(s@)) + differs_count(comparisons_view(c@.take(k as int))),
                    sl == s@.len(),
                    n <= sl + k,
                decreases c.len() - k,
            {
                assert(comparisons_view(c@.take(k + 1)).drop_last() =~= comparisons_view(c@.take(k as int)));
                match &c[k] {
                    CompareFileResult::FileDiffers { .. } => {
                        n = n + 1;
                    },
                    _ => {},
                }
                k = k + 1;
            }
            assert(c@.take(c@.len() as int) =~= c@);
            if n == 0 {
                Error::NoError
            } else if n > MAX_REPORTED as u128 {
                Error::NFilesDiffer(MAX_REPORTED)
            } else {
                Error::NFilesDiffer(n as i32)
            }
        },
    }
}

} // verus!
