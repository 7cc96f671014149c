use quickdash::options::may_write;
use quickdash::pipeline::{assemble_hashes, classify_entry, walk_depth, worker_count, EntryAction};
use quickdash::{hash_reader, Algorithm};

fn s(x: &str) -> String {
    x.to_string()
}

#[test]
fn classify_entries() {
    let ignored = vec![s("skip.txt"), s("build")];
    assert_eq!(classify_entry(&s("skip.txt"), true, &ignored), EntryAction::RecordIgnored);
    assert_eq!(classify_entry(&s("build"), false, &ignored), EntryAction::Prune);
    assert_eq!(classify_entry(&s("a.txt"), true, &ignored), EntryAction::Hash);
    assert_eq!(classify_entry(&s("src"), false, &ignored), EntryAction::Pass);
    assert_eq!(classify_entry(&s("dir/skip.txt"), true, &ignored), EntryAction::Hash);
}

#[test]
fn workers_and_depth() {
    assert_eq!(worker_count(0, 12), 12);
    assert_eq!(worker_count(4, 12), 4);
    assert_eq!(worker_count(1000, 12), 255);
    assert_eq!(walk_depth(Some(0)), Some(1));
    assert_eq!(walk_depth(None), None);
    assert_eq!(walk_depth(Some(usize::MAX)), Some(usize::MAX));
}

#[test]
fn assembled_manifest_holds_ignored_and_hashed() {
    let a = hash_reader(Algorithm::MD5, b"hello");
    let hashed = vec![(s("b.txt"), a.clone()), (s("a.txt"), s("00000000000000000000000000000000"))];
    let m = assemble_hashes(&vec![s("skip.txt")], &hashed, Algorithm::MD5);
    let keys: Vec<&str> = m.entries().iter().map(|e| e.0.as_str()).collect();
    assert_eq!(keys, vec!["a.txt", "b.txt", "skip.txt"]);
    assert_eq!(m.get(&s("skip.txt")), Some("-".repeat(32)));
    assert_eq!(m.get(&s("b.txt")), Some(a));
}

#[test]
fn hashing_twice_gives_identical_manifests() {
    let files = [("x", &b"one"[..]), ("y", &b"two"[..])];
    let run = || {
        let hashed: Vec<(String, String)> =
            files.iter().map(|(n, b)| (s(n), hash_reader(Algorithm::SHA2256, b))).collect();
        assemble_hashes(&vec![s("ign")], &hashed, Algorithm::SHA2256)
    };
    assert_eq!(run().entries(), run().entries());
}

#[test]
fn create_may_write() {
    assert!(may_write(true, true));
    assert!(may_write(false, false));
    assert!(!may_write(false, true));
}
