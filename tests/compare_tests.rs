use quickdash::compare::verification_outcome;
use quickdash::{compare_hashes, CompareError, CompareFileResult, CompareResult, Error, Manifest};

fn manifest(entries: &[(&str, &str)]) -> Manifest {
    let mut m = Manifest::new();
    for (k, v) in entries {
        m.insert(k.to_string(), v.to_string());
    }
    m
}

fn s(x: &str) -> String {
    x.to_string()
}

#[test]
fn added_removed_and_matching() {
    let aa = "A".repeat(64);
    let bb = "B".repeat(64);
    let cc = "C".repeat(64);
    let current = manifest(&[("a.txt", &aa), ("b.txt", &bb)]);
    let loaded = manifest(&[("a.txt", &aa), ("c.txt", &cc)]);
    let (changes, contents) = compare_hashes(&s("out.hash"), current, loaded).unwrap();
    assert_eq!(changes, vec![CompareResult::FileAdded(s("b.txt")), CompareResult::FileRemoved(s("c.txt"))]);
    assert_eq!(contents, vec![CompareFileResult::FileMatches(s("a.txt"))]);
}

#[test]
fn differing_digest_is_reported_with_both_values() {
    let current = manifest(&[("f", "0011")]);
    let loaded = manifest(&[("f", "0022")]);
    let (changes, contents) = compare_hashes(&s("x"), current, loaded).unwrap();
    assert!(changes.is_empty());
    assert_eq!(
        contents,
        vec![CompareFileResult::FileDiffers { file: s("f"), was_hash: s("0022"), new_hash: s("0011") }]
    );
}

#[test]
fn sentinel_on_both_sides_is_ignored_once() {
    let dash = "-".repeat(8);
    let current = manifest(&[("skip.txt", &dash), ("z", "12345678")]);
    let loaded = manifest(&[("skip.txt", &dash), ("z", "12345678")]);
    let (changes, contents) = compare_hashes(&s("m.hash"), current, loaded).unwrap();
    assert_eq!(changes, vec![CompareResult::FileIgnored(s("skip.txt"))]);
    assert_eq!(contents, vec![CompareFileResult::FileMatches(s("z"))]);
}

#[test]
fn sentinel_in_loaded_only_is_ignored() {
    let dash = "-".repeat(8);
    let current = manifest(&[("skip.txt", "ABCDEF01")]);
    let loaded = manifest(&[("skip.txt", &dash)]);
    let (changes, contents) = compare_hashes(&s("m.hash"), current, loaded).unwrap();
    assert_eq!(changes, vec![CompareResult::FileIgnored(s("skip.txt"))]);
    assert!(contents.is_empty());
}

#[test]
fn sentinel_absent_from_current_is_ignored() {
    let a = "A".repeat(64);
    let dash = "-".repeat(64);
    let current = manifest(&[("a.txt", &a)]);
    let loaded = manifest(&[("a.txt", &a), ("skip.txt", &dash)]);
    let (changes, contents) = compare_hashes(&s("m.hash"), current, loaded).unwrap();
    assert_eq!(changes, vec![CompareResult::FileIgnored(s("skip.txt"))]);
    assert_eq!(contents, vec![CompareFileResult::FileMatches(s("a.txt"))]);
}

#[test]
fn sentinel_absent_from_loaded_is_ignored() {
    let dash = "-".repeat(8);
    let current = manifest(&[("a", "ABCDEF01"), ("new-ignored", &dash)]);
    let loaded = manifest(&[("a", "ABCDEF01")]);
    let (changes, contents) = compare_hashes(&s("m.hash"), current, loaded).unwrap();
    assert_eq!(changes, vec![CompareResult::FileIgnored(s("new-ignored"))]);
    assert_eq!(contents, vec![CompareFileResult::FileMatches(s("a"))]);
}

#[test]
fn sentinel_in_current_against_digest_in_loaded_is_ignored() {
    let dash = "-".repeat(8);
    let current = manifest(&[("f", &dash)]);
    let loaded = manifest(&[("f", "ABCDEF01")]);
    let (changes, contents) = compare_hashes(&s("m.hash"), current, loaded).unwrap();
    assert_eq!(changes, vec![CompareResult::FileIgnored(s("f"))]);
    assert!(contents.is_empty());
}

#[test]
fn manifest_self_entry_is_left_out() {
    let dash = "-".repeat(8);
    let current = manifest(&[("a", "ABCDEF01")]);
    let loaded = manifest(&[("a", "ABCDEF01"), ("m.hash", &dash)]);
    let (changes, contents) = compare_hashes(&s("m.hash"), current, loaded).unwrap();
    assert!(changes.is_empty());
    assert_eq!(contents, vec![CompareFileResult::FileMatches(s("a"))]);
}

#[test]
fn comparing_with_itself() {
    let dash = "-".repeat(4);
    let m = manifest(&[("a", "AAAA"), ("b", "BBBB"), ("i", &dash), ("m.hash", &dash)]);
    let (changes, contents) = compare_hashes(&s("m.hash"), m.clone(), m).unwrap();
    assert_eq!(changes, vec![CompareResult::FileIgnored(s("i"))]);
    assert_eq!(
        contents,
        vec![CompareFileResult::FileMatches(s("a")), CompareFileResult::FileMatches(s("b"))]
    );
}

#[test]
fn lengths_64_and_128_cannot_be_compared() {
    let current = manifest(&[("a", &"A".repeat(64))]);
    let loaded = manifest(&[("a", &"A".repeat(128))]);
    assert_eq!(
        compare_hashes(&s("m"), current, loaded),
        Err(CompareError::HashLengthDiffers { previous_len: 128, current_len: 64 })
    );
}

#[test]
fn empty_side_reports_sentinel_as_ignored() {
    let dash = "-".repeat(4);
    let loaded = manifest(&[("a", "AAAA"), ("i", &dash)]);
    let (changes, contents) = compare_hashes(&s("m"), Manifest::new(), loaded).unwrap();
    assert_eq!(changes, vec![CompareResult::FileRemoved(s("a")), CompareResult::FileIgnored(s("i"))]);
    assert!(contents.is_empty());
    let current = manifest(&[("b", "BBBB"), ("j", &dash)]);
    let (changes, _) = compare_hashes(&s("m"), current, Manifest::new()).unwrap();
    assert_eq!(changes, vec![CompareResult::FileAdded(s("b")), CompareResult::FileIgnored(s("j"))]);
}

#[test]
fn empty_side_skips_length_check() {
    let current = Manifest::new();
    let loaded = manifest(&[("a", "AAAA"), ("b", "BB")]);
    let (changes, contents) = compare_hashes(&s("m"), current, loaded).unwrap();
    assert_eq!(changes, vec![CompareResult::FileRemoved(s("a")), CompareResult::FileRemoved(s("b"))]);
    assert!(contents.is_empty());
}

#[test]
fn outcome_counts_differences() {
    let current = manifest(&[("a", "AAAA"), ("b", "BBBB"), ("n", "1111")]);
    let loaded = manifest(&[("a", "AAAA"), ("b", "CCCC"), ("r", "2222")]);
    let result = compare_hashes(&s("m"), current, loaded);
    assert_eq!(verification_outcome(&result), Error::NFilesDiffer(3));
    assert_eq!(verification_outcome(&result).exit_value(), 6);
    let same = compare_hashes(&s("m"), manifest(&[("a", "AA")]), manifest(&[("a", "AA")]));
    assert_eq!(verification_outcome(&same), Error::NoError);
    let bad = compare_hashes(&s("m"), manifest(&[("a", "AA")]), manifest(&[("a", "AAAA")]));
    assert_eq!(verification_outcome(&bad), Error::HashLengthDiffers);
}

#[test]
fn manifest_keeps_paths_sorted_and_unique() {
    let mut m = Manifest::new();
    m.insert(s("b"), s("2"));
    m.insert(s("a"), s("1"));
    m.insert(s("c"), s("3"));
    m.insert(s("b"), s("4"));
    let keys: Vec<&str> = m.entries().iter().map(|e| e.0.as_str()).collect();
    assert_eq!(keys, vec!["a", "b", "c"]);
    assert_eq!(m.len(), 3);
    assert_eq!(m.get(&s("b")), Some(s("4")));
    assert_eq!(m.get(&s("d")), None);
}
