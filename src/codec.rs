//! The manifest text format: one `DIGEST  PATH` (or `PATH DIGEST`) per line.
use vstd::prelude::*;
use crate::algorithms::Algorithm;
use crate::compare::sentinel;
use crate::manifest::{
    EntryView, Manifest, chars_of, has_key, lemma_sorted_map_determines, lemma_sorted_unique,
    lemma_value_at, map_of, sorted_keys, unique_keys, value_of,
};
use crate::utilities::{mul_str, string_of};

verus! {

/// A character that may appear in a digest: a hex digit in either case, or `-`.
pub open spec fn is_digest_char(c: char) -> bool {
    ('0' <= c && c <= '9') || ('a' <= c && c <= 'f') || ('A' <= c && c <= 'F') || c == '-'
}

/// A white-space character (the Unicode `White_Space` property).
pub open spec fn is_space(c: char) -> bool {
    c == '\t' || c == '\n' || c == '\x0B' || c == '\x0C' || c == '\r' || c == ' ' || c == '\u{85}'
        || c == '\u{A0}' || c == '\u{1680}' || ('\u{2000}' <= c && c <= '\u{200A}') || c
        == '\u{2028}' || c == '\u{2029}' || c == '\u{202F}' || c == '\u{205F}' || c == '\u{3000}'
}

/// Upper case of a digest character; other characters are kept.
pub open spec fn upper_char(c: char) -> char {
    if c == 'a' {
        'A'
    } else if c == 'b' {
        'B'
    } else if c == 'c' {
        'C'
    } else if c == 'd' {
        'D'
    } else if c == 'e' {
        'E'
    } else if c == 'f' {
        'F'
    } else {
        c
    }
}

pub open spec fn upper(s: Seq<char>) -> Seq<char> {
    s.map_values(|c: char| upper_char(c))
}

/// End of the run of digest characters that starts at `i`.
pub open spec fn span_digest(s: Seq<char>, i: int) -> int
    decreases s.len() - i,
{
    if 0 <= i < s.len() && is_digest_char(s[i]) {
        span_digest(s, i + 1)
    } else {
        i
    }
}

/// End of the run of white space that starts at `i`.
pub open spec fn span_space(s: Seq<char>, i: int) -> int
    decreases s.len() - i,
{
    if 0 <= i < s.len() && is_space(s[i]) {
        span_space(s, i + 1)
    } else {
        i
    }
}

/// Start of the run of digest characters that ends at `j`.
pub open spec fn back_digest(s: Seq<char>, j: int) -> int
    decreases j,
{
    if 0 < j <= s.len() && is_digest_char(s[j - 1]) {
        back_digest(s, j - 1)
    } else {
        j
    }
}

/// Start of the run of white space that ends at `j`.
pub open spec fn back_space(s: Seq<char>, j: int) -> int
    decreases j,
{
    if 0 < j <= s.len() && is_space(s[j - 1]) {
        back_space(s, j - 1)
    } else {
        j
    }
}

pub open spec fn no_newline(s: Seq<char>) -> bool {
    forall|i: int| 0 <= i < s.len() ==> s[i] != '\n'
}

/// The (path, digest) that a manifest line holds, if it follows one of the
/// two layouts: first `DIGEST`, two or more spaces, `PATH`; else `PATH`,
/// white space, `DIGEST` at the end. The path holds no line break; the digest
/// is returned in upper case.
pub open spec fn line_entry(s: Seq<char>) -> Option<EntryView> {
    let h = span_digest(s, 0);
    let w = span_space(s, h);
    let d = back_digest(s, s.len() as int);
    let v = back_space(s, d);
    let i = if v >= 1 {
        v
    } else {
        1
    };
    if h > 0 && w - h >= 2 && w < s.len() && no_newline(s.subrange(w, s.len() as int)) {
        Some((s.subrange(w, s.len() as int), upper(s.take(h))))
    } else if h > 0 && w == s.len() && w - h >= 3 && s[s.len() - 1] != '\n' {
        Some((s.subrange(s.len() - 1, s.len() as int), upper(s.take(h))))
    } else if d < s.len() && v < d && i < d && no_newline(s.take(i)) {
        Some((s.take(i), upper(s.subrange(d, s.len() as int))))
    } else {
        None
    }
}

/// The mapping that a sequence of lines describes, later lines winning.
pub open spec fn parsed_map(lines: Seq<Seq<char>>) -> Map<Seq<char>, Seq<char>>
    decreases lines.len(),
{
    if lines.len() == 0 {
        Map::empty()
    } else {
        let m = parsed_map(lines.drop_last());
        match line_entry(lines.last()) {
            Some(e) => m.insert(e.0, e.1),
            None => m,
        }
    }
}

/// The numbers (counted from 1) of the lines that follow neither layout.
pub open spec fn failed_lines(lines: Seq<Seq<char>>) -> Seq<int>
    decreases lines.len(),
{
    if lines.len() == 0 {
        Seq::empty()
    } else {
        let f = failed_lines(lines.drop_last());
        if line_entry(lines.last()) is None {
            f.push(lines.len() as int)
        } else {
            f
        }
    }
}

/// The line that records an entry: digest, two spaces, path.
pub open spec fn line_of(e: EntryView) -> Seq<char> {
    e.1 + seq![' ', ' '] + e.0
}

pub open spec fn lines_view(v: Seq<String>) -> Seq<Seq<char>> {
    v.map_values(|s: String| s@)
}

fn is_digest_char_exec(c: char) -> (r: bool)
    ensures
        r == is_digest_char(c),
{
    ('0' <= c && c <= '9') || ('a' <= c && c <= 'f') || ('A' <= c && c <= 'F') || c == '-'
}

fn is_space_exec(c: char) -> (r: bool)
    ensures
        r == is_space(c),
{
    c == '\t' || c == '\n' || c == '\x0B' || c == '\x0C' || c == '\r' || c == ' ' || c == '\u{85}'
        || c == '\u{A0}' || c == '\u{1680}' || ('\u{2000}' <= c && c <= '\u{200A}') || c
        == '\u{2028}' || c == '\u{2029}' || c == '\u{202F}' || c == '\u{205F}' || c == '\u{3000}'
}

fn upper_char_exec(c: char) -> (r: char)
    ensures
        r == upper_char(c),
{
    if c == 'a' {
        'A'
    } else if c == 'b' {
        'B'
    } else if c == 'c' {
        'C'
    } else if c == 'd' {
        'D'
    } else if c == 'e' {
        'E'
    } else if c == 'f' {
        'F'
    } else {
        c
    }
}

/// The characters `from..to` of `s`, as a `String`, optionally upper-cased.
fn slice_string(s: &Vec<char>, from: usize, to: usize, to_upper: bool) -> (r: String)
    requires
        from <= to <= s@.len(),
    ensures
        to_upper ==> r@ == upper(s@.subrange(from as int, to as int)),
        !to_upper ==> r@ == s@.subrange(from as int, to as int),
{
    let mut out: Vec<char> = Vec::new();
    let mut k: usize = from;
    while k < to
        invariant
            from <= k <= to <= s@.len(),
            to_upper ==> out@ == upper(s@.subrange(from as int, k as int)),
            !to_upper ==> out@ == s@.subrange(from as int, k as int),
        decreases to - k,
    {
        let c = s[k];
        if to_upper {
            out.push(upper_char_exec(c));
            assert(upper(s@.subrange(from as int, k + 1)) =~= upper(s@.subrange(from as int, k as int)).push(upper_char(c)));
        } else {
            out.push(c);
            assert(s@.subrange(from as int, k + 1) =~= s@.subrange(from as int, k as int).push(c));
        }
        k = k + 1;
    }
    string_of(out.as_slice())
}

/// Whether the characters `from..to` of `s` hold no line break.
fn no_newline_in(s: &Vec<char>, from: usize, to: usize) -> (r: bool)
    requires
        from <= to <= s@.len(),
    ensures
        r == no_newline(s@.subrange(from as int, to as int)),
{
    let mut k: usize = from;
    while k < to
        invariant
            from <= k <= to <= s@.len(),
            forall|j: int| from <= j < k ==> s@[j] != '\n',
        decreases to - k,
    {
        if s[k] == '\n' {
            assert(s@.subrange(from as int, to as int)[k - from] == '\n');
            return false;
        }
        k = k + 1;
    }
    assert forall|j: int| 0 <= j < to - from implies s@.subrange(from as int, to as int)[j] != '\n' by {
        assert(s@.subrange(from as int, to as int)[j] == s@[from + j]);
    }
    true
}

/// Parses one manifest line into (path, digest), the digest upper-cased.
pub fn parse_line(line: &String) -> (r: Option<(String, String)>)
    ensures
        r is None <==> line_entry(line@) is None,
        r matches Some(e) ==> line_entry(line@) == Some((e.0@, e.1@)),
{
    let s = chars_of(line.as_str());
    let n = s.len();
    let ghost q = s@;
    let mut h: usize = 0;
    while h < n && is_digest_char_exec(s[h])
        invariant
            h <= n == q.len(),
            s@ == q,
            span_digest(q, 0) == span_digest(q, h as int),
        decreases n - h,
    {
        h = h + 1;
    }
    let mut w: usize = h;
    while w < n && is_space_exec(s[w])
        invariant
            h <= w <= n == q.len(),
            s@ == q,
            span_space(q, h as int) == span_space(q, w as int),
        decreases n - w,
    {
        w = w + 1;
    }
    if h > 0 && w - h >= 2 && w < n && no_newline_in(&s, w, n) {
        return Some((slice_string(&s, w, n, false), slice_string(&s, 0, h, true)));
    }
    if h > 0 && w == n && w - h >= 3 && s[n - 1] != '\n' {
        return Some((slice_string(&s, n - 1, n, false), slice_string(&s, 0, h, true)));
    }
    let mut d: usize = n;
    while d > 0 && is_digest_char_exec(s[d - 1])
        invariant
            d <= n == q.len(),
            s@ == q,
            back_digest(q, n as int) == back_digest(q, d as int),
        decreases d,
    {
        d = d - 1;
    }
    let mut v: usize = d;
    while v > 0 && is_space_exec(s[v - 1])
        invariant
            v <= d <= n == q.len(),
            s@ == q,
            back_space(q, d as int) == back_space(q, v as int),
        decreases v,
    {
        v = v - 1;
    }
    let i: usize = if v >= 1 {
        v
    } else {
        1
    };
    if d < n && v < d && i < d && no_newline_in(&s, 0, i) {
        proof {
            assert(q.subrange(0, i as int) =~= q.take(i as int));
        }
        return Some((slice_string(&s, 0, i, false), slice_string(&s, d, n, true)));
    }
    proof {
        assert(q.subrange(0, i as int) =~= q.take(i as int));
    }
    None
}

/// Reads uppercased hashes from the lines of a manifest file. Every line is
/// tried; where any follows neither layout, the numbers of all such lines
/// (counted from 1) are the error.
pub fn read_hashes(lines: &Vec<String>) -> (r: Result<Manifest, Vec<usize>>)
    ensures
        r is Ok <==> failed_lines(lines_view(lines@)).len() == 0,
        r matches Ok(m) ==> m.wf() && m.map() == parsed_map(lines_view(lines@)),
        r matches Err(e) ==> e@.map_values(|k: usize| k as int) == failed_lines(lines_view(lines@)),
{
    let ghost all = lines_view(lines@);
    let mut hashes = Manifest::new();
    let mut failed: Vec<usize> = Vec::new();
    let mut k: usize = 0;
    while k < lines.len()
        invariant
            k <= lines@.len(),
            all == lines_view(lines@),
            hashes.wf(),
            hashes.map() == parsed_map(all.take(k as int)),
            failed@.map_values(|x: usize| x as int) == failed_lines(all.take(k as int)),
        decreases lines.len() - k,
    {
        let ghost before = failed@;
        assert(all.take(k + 1).drop_last() =~= all.take(k as int));
        assert(all.take(k + 1).last() == lines@[k as int]@);
        match parse_line(&lines[k]) {
            Some(e) => {
                hashes.insert(e.0, e.1);
            },
            None => {
                failed.push(k + 1);
                assert(failed@.map_values(|x: usize| x as int) =~= before.map_values(
                    |x: usize| x as int,
                ).push(k + 1));
            },
        }
        k = k + 1;
    }
    assert(all.take(lines@.len() as int) =~= all);
    if failed.len() == 0 {
        Ok(hashes)
    } else {
        Err(failed)
    }
}

/// Serialises the manifest to lines, `DIGEST  PATH`, in path order, after
/// recording `out_file` itself with the ignored-sentinel of `algo`.
pub fn write_hashes(out_file: &String, algo: Algorithm, hashes: Manifest) -> (r: Vec<String>)
    requires
        hashes.wf(),
    ensures
        exists|t: Seq<EntryView>|
            sorted_keys(t) && map_of(t) == hashes.map().insert(
                out_file@,
                sentinel(crate::algorithms::hex_len_of(algo)),
            ) && lines_view(r@) == t.map_values(|e: EntryView| line_of(e)),
{
    let mut hashes = hashes;
    let placeholder = mul_str("-", algo.hexlen());
    proof {
        reveal_strlit("-");
        assert("-"@ =~= seq!['-']);
    }
    hashes.insert(out_file.clone(), placeholder);
    let entries = hashes.entries();
    let ghost t = hashes@;
    let mut out: Vec<String> = Vec::new();
    let mut k: usize = 0;
    while k < entries.len()
        invariant
            k <= entries@.len(),
            entries@.map_values(|e: (String, String)| (e.0@, e.1@)) == t,
            lines_view(out@) == t.take(k as int).map_values(|e: EntryView| line_of(e)),
        decreases entries.len() - k,
    {
        let ghost before = out@;
        assert(t[k as int] == (entries@[k as int].0@, entries@[k as int].1@));
        let mut line = entries[k].1.clone();
        line.append("  ");
        line.append(entries[k].0.as_str());
        proof {
            reveal_strlit("  ");
            assert("  "@ =~= seq![' ', ' ']);
        }
        out.push(line);
        assert(lines_view(out@) =~= lines_view(before).push(line@));
        assert(t.take(k + 1).map_values(|e: EntryView| line_of(e)) =~= t.take(k as int).map_values(
            |e: EntryView| line_of(e),
        ).push(line_of(t[k as int])));
        k = k + 1;
    }
    assert(t.take(entries@.len() as int) =~= t);
    out
}


/// A path that survives a round trip through a manifest line: not empty, no
/// line break, not starting with white space.
pub open spec fn valid_path(p: Seq<char>) -> bool {
    p.len() > 0 && no_newline(p) && !is_space(p[0])
}

/// A digest in canonical form: not empty, digits, `A`-`F` and `-` only.
pub open spec fn valid_digest(d: Seq<char>) -> bool {
    d.len() > 0 && forall|i: int| 0 <= i < d.len() ==> is_digest_char(#[trigger] d[i]) && upper_char(d[i]) == d[i]
}

proof fn lemma_span_digest(s: Seq<char>, i: int, j: int)
    requires
        0 <= i <= j <= s.len(),
        forall|k: int| i <= k < j ==> is_digest_char(#[trigger] s[k]),
        j == s.len() || !is_digest_char(s[j]),
    ensures
        span_digest(s, i) == j,
    decreases j - i,
{
    if i < j {
        lemma_span_digest(s, i + 1, j);
    }
}

proof fn lemma_span_space(s: Seq<char>, i: int, j: int)
    requires
        0 <= i <= j <= s.len(),
        forall|k: int| i <= k < j ==> is_space(#[trigger] s[k]),
        j == s.len() || !is_space(s[j]),
    ensures
        span_space(s, i) == j,
    decreases j - i,
{
    if i < j {
        lemma_span_space(s, i + 1, j);
    }
}

/// The line written for an entry parses back to that entry.
pub proof fn lemma_line_entry_of(e: EntryView)
    requires
        valid_path(e.0),
        valid_digest(e.1),
    ensures
        line_entry(line_of(e)) == Some(e),
{
    let s = line_of(e);
    let h = e.1.len() as int;
    assert(s[h] == ' ');
    assert(s[h + 1] == ' ');
    assert(s[h + 2] == e.0[0]);
    assert forall|k: int| 0 <= k < h implies is_digest_char(#[trigger] s[k]) by {
        assert(s[k] == e.1[k]);
    }
    lemma_span_digest(s, 0, h);
    lemma_span_space(s, h, h + 2);
    assert(s.subrange(h + 2, s.len() as int) =~= e.0);
    assert(upper(s.take(h)) =~= e.1);
}

proof fn lemma_map_of_push(s: Seq<EntryView>, e: EntryView)
    requires
        unique_keys(s.push(e)),
    ensures
        map_of(s.push(e)) == map_of(s).insert(e.0, e.1),
{
    let t = s.push(e);
    let n = s.len() as int;
    assert(t[n] == e);
    assert forall|i: int, j: int| 0 <= i < s.len() && 0 <= j < s.len() && i != j implies #[trigger] s[i].0
        != #[trigger] s[j].0 by {
        assert(t[i] == s[i] && t[j] == s[j]);
    }
    assert(map_of(t) =~= map_of(s).insert(e.0, e.1)) by {
        assert forall|k: Seq<char>| has_key(t, k) <==> (has_key(s, k) || k == e.0) by {
            if has_key(s, k) {
                let j = choose|j: int| 0 <= j < s.len() && #[trigger] s[j].0 == k;
                assert(t[j].0 == k);
            }
            if has_key(t, k) {
                let j = choose|j: int| 0 <= j < t.len() && #[trigger] t[j].0 == k;
                if j < n {
                    assert(s[j].0 == k);
                }
            }
            if k == e.0 {
                assert(t[n].0 == k);
            }
        }
        assert forall|k: Seq<char>| #[trigger] has_key(t, k) implies value_of(t, k) == (if k == e.0 {
            e.1
        } else {
            value_of(s, k)
        }) by {
            let j = choose|j: int| 0 <= j < t.len() && #[trigger] t[j].0 == k;
            lemma_value_at(t, j);
            if j < n {
                assert(t[j] == s[j]);
                lemma_value_at(s, j);
            }
        }
    }
}

proof fn lemma_parse_lines_of(t: Seq<EntryView>)
    requires
        sorted_keys(t),
        forall|i: int| 0 <= i < t.len() ==> valid_path(#[trigger] t[i].0) && valid_digest(t[i].1),
    ensures
        failed_lines(t.map_values(|e: EntryView| line_of(e))).len() == 0,
        parsed_map(t.map_values(|e: EntryView| line_of(e))) == map_of(t),
    decreases t.len(),
{
    let lines = t.map_values(|e: EntryView| line_of(e));
    if t.len() == 0 {
        assert(map_of(t) =~= Map::empty());
    } else {
        let init = t.drop_last();
        assert(lines.drop_last() =~= init.map_values(|e: EntryView| line_of(e)));
        assert forall|i: int| 0 <= i < init.len() implies valid_path(#[trigger] init[i].0)
            && valid_digest(init[i].1) by {
            assert(init[i] == t[i]);
        }
        lemma_parse_lines_of(init);
        lemma_line_entry_of(t.last());
        lemma_sorted_unique(t);
        assert(init.push(t.last()) =~= t);
        lemma_map_of_push(init, t.last());
    }
}

/// Serialising a manifest that already records its own file with the
/// sentinel, and parsing the lines back, gives the same manifest. Paths must
/// be non-empty, hold no line break and not start with white space; digests
/// must be non-empty and in upper case.
pub proof fn lemma_round_trip(m: Manifest, out_file: Seq<char>, hexlen: nat, lines: Seq<Seq<char>>)
    requires
        m.wf(),
        forall|i: int| 0 <= i < m@.len() ==> valid_path(#[trigger] m@[i].0) && valid_digest(m@[i].1),
        m.map().contains_key(out_file),
        m.map()[out_file] == sentinel(hexlen),
        exists|t: Seq<EntryView>|
            sorted_keys(t) && map_of(t) == m.map().insert(out_file, sentinel(hexlen)) && lines
                == t.map_values(|e: EntryView| line_of(e)),
    ensures
        failed_lines(lines).len() == 0,
        parsed_map(lines) == m.map(),
        forall|m2: Manifest| m2.wf() && m2.map() == parsed_map(lines) ==> m2@ == m@,
{
    let t = choose|t: Seq<EntryView>|
        sorted_keys(t) && map_of(t) == m.map().insert(out_file, sentinel(hexlen)) && lines
            == t.map_values(|e: EntryView| line_of(e));
    assert(m.map().insert(out_file, sentinel(hexlen)) =~= m.map());
    lemma_sorted_unique(t);
    lemma_sorted_unique(m@);
    assert forall|i: int| 0 <= i < t.len() implies valid_path(#[trigger] t[i].0) && valid_digest(
        t[i].1,
    ) by {
        lemma_value_at(t, i);
        assert(map_of(t).contains_key(t[i].0));
        let j = choose|j: int| 0 <= j < m@.len() && #[trigger] m@[j].0 == t[i].0;
        lemma_value_at(m@, j);
        assert(map_of(t)[t[i].0] == map_of(m@)[t[i].0]);
    }
    lemma_parse_lines_of(t);
    assert forall|m2: Manifest| m2.wf() && m2.map() == parsed_map(lines) implies m2@ == m@ by {
        lemma_sorted_map_determines(m2@, m@);
    }
}

} // verus!
