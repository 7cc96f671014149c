use quickdash::codec::{parse_line, read_hashes, write_hashes};
use quickdash::{Algorithm, Manifest};

fn s(x: &str) -> String {
    x.to_string()
}

#[test]
fn digest_first_line() {
    assert_eq!(parse_line(&s("A1B2  file.txt")), Some((s("file.txt"), s("A1B2"))));
}

#[test]
fn path_first_line() {
    assert_eq!(parse_line(&s("file.txt\tA1B2")), Some((s("file.txt"), s("A1B2"))));
    assert_eq!(parse_line(&s("my file.txt a1b2")), Some((s("my file.txt"), s("A1B2"))));
}

#[test]
fn empty_and_malformed_lines_fail() {
    assert_eq!(parse_line(&s("")), None);
    assert_eq!(parse_line(&s("garbage")), None);
    assert_eq!(parse_line(&s("A1B2 ")), None);
}

#[test]
fn digest_is_upper_cased_and_dashes_kept() {
    assert_eq!(parse_line(&s("abcdef  x")), Some((s("x"), s("ABCDEF"))));
    assert_eq!(parse_line(&s("----  skip")), Some((s("skip"), s("----"))));
}

#[test]
fn parse_collects_all_failing_lines() {
    let lines = vec![s("A1B2  file.txt"), s(""), s("CCCC  b"), s("nonsense!")];
    assert_eq!(read_hashes(&lines).unwrap_err(), vec![2, 4]);
}

#[test]
fn parse_later_line_wins() {
    let lines = vec![s("AAAA  x"), s("BBBB  x"), s("CCCC  a")];
    let m = read_hashes(&lines).unwrap();
    assert_eq!(m.len(), 2);
    assert_eq!(m.get(&s("x")), Some(s("BBBB")));
    assert_eq!(m.entries()[0].0, s("a"));
}

#[test]
fn serialize_inserts_self_entry_in_order() {
    let mut m = Manifest::new();
    m.insert(s("b.txt"), s("BBBBBBBB"));
    m.insert(s("a.txt"), s("AAAAAAAA"));
    let lines = write_hashes(&s("dir.hash"), Algorithm::CRC32, m);
    assert_eq!(lines, vec![s("AAAAAAAA  a.txt"), s("BBBBBBBB  b.txt"), s("--------  dir.hash")]);
}

#[test]
fn serialize_then_parse_round_trips() {
    let mut m = Manifest::new();
    m.insert(s("dir/sub file.bin"), s("0123456789ABCDEF"));
    m.insert(s("z"), s("FEDCBA9876543210"));
    m.insert(s("out.hash"), "-".repeat(16));
    let lines = write_hashes(&s("out.hash"), Algorithm::XXH64, m.clone());
    let back = read_hashes(&lines).unwrap();
    assert_eq!(back.entries(), m.entries());
}
