//! The digest manifest: relative paths mapped to digests, kept sorted by path.
use vstd::prelude::*;

verus! {

/// A manifest entry as seen by the specifications: (path, digest).
pub type EntryView = (Seq<char>, Seq<char>);

/// Lexicographic order on character sequences, compared from index `i` on.
/// Characters are ordered by code point, which is the order of `String`.
pub open spec fn lex_lt_from(a: Seq<char>, b: Seq<char>, i: int) -> bool
    decreases a.len() - i,
{
    if i < 0 || i >= a.len() {
        0 <= i < b.len()
    } else if i >= b.len() {
        false
    } else if a[i] != b[i] {
        a[i] < b[i]
    } else {
        lex_lt_from(a, b, i + 1)
    }
}

/// `a` sorts strictly before `b`.
pub open spec fn lex_lt(a: Seq<char>, b: Seq<char>) -> bool {
    lex_lt_from(a, b, 0)
}

pub proof fn lemma_lex_irreflexive_from(a: Seq<char>, i: int)
    requires
        0 <= i,
    ensures
        !lex_lt_from(a, a, i),
    decreases a.len() - i,
{
    if i < a.len() {
        lemma_lex_irreflexive_from(a, i + 1);
    }
}

pub proof fn lemma_lex_transitive_from(a: Seq<char>, b: Seq<char>, c: Seq<char>, i: int)
    requires
        0 <= i,
        lex_lt_from(a, b, i),
        lex_lt_from(b, c, i),
    ensures
        lex_lt_from(a, c, i),
    decreases a.len() - i,
{
    if i < a.len() && i < b.len() && i < c.len() && a[i] == b[i] && b[i] == c[i] {
        lemma_lex_transitive_from(a, b, c, i + 1);
    }
}

pub proof fn lemma_lex_total_from(a: Seq<char>, b: Seq<char>, i: int)
    requires
        0 <= i <= a.len(),
        i <= b.len(),
    ensures
        lex_lt_from(a, b, i) || lex_lt_from(b, a, i) || a.subrange(i, a.len() as int)
            =~= b.subrange(i, b.len() as int),
    decreases a.len() - i,
{
    if i < a.len() && i < b.len() && a[i] == b[i] {
        lemma_lex_total_from(a, b, i + 1);
        if a.subrange(i + 1, a.len() as int) =~= b.subrange(i + 1, b.len() as int) {
            assert(a.subrange(i, a.len() as int) =~= b.subrange(i, b.len() as int)) by {
                assert forall|j: int| 0 <= j < a.len() - i implies a.subrange(
                    i,
                    a.len() as int,
                )[j] == b.subrange(i, b.len() as int)[j] by {
                    if j > 0 {
                        assert(a.subrange(i + 1, a.len() as int)[j - 1] == b.subrange(
                            i + 1,
                            b.len() as int,
                        )[j - 1]);
                    }
                }
            }
        }
    } else if i == a.len() && i == b.len() {
        assert(a.subrange(i, a.len() as int) =~= b.subrange(i, b.len() as int));
    } else if i < a.len() && i < b.len() {
        assert(a[i] < b[i] || b[i] < a[i]);
    }
}

/// Strict order is irreflexive, transitive and total on distinct sequences.
pub proof fn lemma_lex_order(a: Seq<char>, b: Seq<char>, c: Seq<char>)
    ensures
        !lex_lt(a, a),
        lex_lt(a, b) && lex_lt(b, c) ==> lex_lt(a, c),
        a != b ==> lex_lt(a, b) || lex_lt(b, a),
{
    lemma_lex_irreflexive_from(a, 0);
    if lex_lt(a, b) && lex_lt(b, c) {
        lemma_lex_transitive_from(a, b, c, 0);
    }
    lemma_lex_total_from(a, b, 0);
    assert(a.subrange(0, a.len() as int) =~= a);
    assert(b.subrange(0, b.len() as int) =~= b);
}

/// Paths appear in strictly increasing order.
pub open spec fn sorted_keys(s: Seq<EntryView>) -> bool {
    forall|i: int, j: int| 0 <= i < j < s.len() ==> lex_lt(#[trigger] s[i].0, #[trigger] s[j].0)
}

/// No path appears twice.
pub open spec fn unique_keys(s: Seq<EntryView>) -> bool {
    forall|i: int, j: int| 0 <= i < s.len() && 0 <= j < s.len() && i != j ==> #[trigger] s[i].0 != #[trigger] s[j].0
}

/// Some entry has path `k`.
pub open spec fn has_key(s: Seq<EntryView>, k: Seq<char>) -> bool {
    exists|i: int| 0 <= i < s.len() && #[trigger] s[i].0 == k
}

/// The digest recorded for path `k` (meaningful when `has_key(s, k)`).
pub open spec fn value_of(s: Seq<EntryView>, k: Seq<char>) -> Seq<char> {
    s[choose|i: int| 0 <= i < s.len() && #[trigger] s[i].0 == k].1
}

/// The path-to-digest mapping that the entries describe.
pub open spec fn map_of(s: Seq<EntryView>) -> Map<Seq<char>, Seq<char>> {
    Map::new(|k: Seq<char>| has_key(s, k), |k: Seq<char>| value_of(s, k))
}

pub proof fn lemma_sorted_unique(s: Seq<EntryView>)
    requires
        sorted_keys(s),
    ensures
        unique_keys(s),
{
    assert forall|i: int, j: int|
        0 <= i < s.len() && 0 <= j < s.len() && i != j implies #[trigger] s[i].0 != #[trigger] s[j].0 by {
        lemma_lex_order(s[i].0, s[j].0, s[j].0);
        lemma_lex_order(s[j].0, s[i].0, s[i].0);
    }
}

pub proof fn lemma_value_at(s: Seq<EntryView>, i: int)
    requires
        unique_keys(s),
        0 <= i < s.len(),
    ensures
        has_key(s, s[i].0),
        value_of(s, s[i].0) == s[i].1,
{
    assert(s[i].0 == s[i].0);
}

/// Two sorted entry sequences that describe the same mapping are equal.
pub proof fn lemma_sorted_map_determines(s: Seq<EntryView>, t: Seq<EntryView>)
    requires
        sorted_keys(s),
        sorted_keys(t),
        map_of(s) == map_of(t),
    ensures
        s == t,
    decreases s.len(),
{
    lemma_sorted_unique(s);
    lemma_sorted_unique(t);
    if s.len() == 0 {
        if t.len() > 0 {
            assert(map_of(t).contains_key(t[0].0));
        }
        assert(s =~= t);
    } else {
        assert(map_of(s).contains_key(s.last().0));
        assert(t.len() > 0);
        let ls = s.last();
        let lt = t.last();
        assert(map_of(t).contains_key(lt.0));
        // both last keys are the greatest of a common key set
        let i = choose|i: int| 0 <= i < s.len() && #[trigger] s[i].0 == lt.0;
        let j = choose|j: int| 0 <= j < t.len() && #[trigger] t[j].0 == ls.0;
        if i < s.len() - 1 {
            lemma_lex_order(lt.0, ls.0, lt.0);
            if j < t.len() - 1 {
                lemma_lex_order(ls.0, lt.0, ls.0);
            }
            assert(j == t.len() - 1 || lex_lt(ls.0, lt.0));
            lemma_lex_order(ls.0, lt.0, ls.0);
        }
        if j < t.len() - 1 {
            lemma_lex_order(ls.0, lt.0, ls.0);
        }
        assert(ls.0 == lt.0);
        lemma_value_at(s, s.len() - 1);
        lemma_value_at(t, t.len() - 1);
        assert(map_of(s)[ls.0] == map_of(t)[ls.0]);
        assert(ls == lt);
        let s2 = s.drop_last();
        let t2 = t.drop_last();
        assert(map_of(s2) =~= map_of(t2)) by {
            assert forall|k: Seq<char>| #[trigger] has_key(s2, k) implies has_key(t2, k) by {
                let a = choose|a: int| 0 <= a < s2.len() && #[trigger] s2[a].0 == k;
                assert(s[a].0 == k);
                assert(map_of(t).contains_key(k));
                let b = choose|b: int| 0 <= b < t.len() && #[trigger] t[b].0 == k;
                assert(b != t.len() - 1);
                assert(t2[b].0 == k);
            }
            assert forall|k: Seq<char>| #[trigger] has_key(t2, k) implies has_key(s2, k) by {
                let a = choose|a: int| 0 <= a < t2.len() && #[trigger] t2[a].0 == k;
                assert(t[a].0 == k);
                assert(map_of(s).contains_key(k));
                let b = choose|b: int| 0 <= b < s.len() && #[trigger] s[b].0 == k;
                assert(b != s.len() - 1);
                assert(s2[b].0 == k);
            }
            assert forall|k: Seq<char>| #[trigger] has_key(s2, k) implies value_of(s2, k)
                == value_of(t2, k) by {
                let a = choose|a: int| 0 <= a < s2.len() && #[trigger] s2[a].0 == k;
                let b = choose|b: int| 0 <= b < t2.len() && #[trigger] t2[b].0 == k;
                lemma_value_at(s2, a);
                lemma_value_at(t2, b);
                lemma_value_at(s, a);
                lemma_value_at(t, b);
                assert(map_of(s)[k] == map_of(t)[k]);
            }
        }
        lemma_sorted_map_determines(s2, t2);
        assert(s =~= s2.push(ls));
        assert(t =~= t2.push(lt));
    }
}


/// The characters of `s`, in order.
pub fn chars_of(s: &str) -> (r: Vec<char>)
    ensures
        r@ == s@,
{
    broadcast use vstd::string::axiom_spec_iter, vstd::string::next_postcondition;

    let mut it = s.chars();
    let mut out: Vec<char> = Vec::new();
    loop
        invariant
            vstd::std_specs::iter::IteratorSpec::obeys_prophetic_iter_laws(&it),
            out@ + vstd::std_specs::iter::IteratorSpec::remaining(&it) == s@,
            vstd::std_specs::iter::IteratorSpec::decrease(&it) is Some,
        ensures
            out@ == s@,
        decreases vstd::std_specs::iter::IteratorSpec::decrease(&it)->0,
    {
        let ghost before = vstd::std_specs::iter::IteratorSpec::remaining(&it);
        match it.next() {
            Some(c) => {
                out.push(c);
                assert(out@ + vstd::std_specs::iter::IteratorSpec::remaining(&it) =~= s@) by {
                    assert(before =~= seq![c] + vstd::std_specs::iter::IteratorSpec::remaining(&it));
                }
            },
            None => {
                assert(out@ =~= s@);
                break;
            },
        }
    }
    out
}

/// Whether `a` sorts strictly before `b`.
pub fn key_lt(a: &String, b: &String) -> (r: bool)
    ensures
        r == lex_lt(a@, b@),
{
    let x = chars_of(a.as_str());
    let y = chars_of(b.as_str());
    let mut i: usize = 0;
    while i < x.len() && i < y.len() && x[i] == y[i]
        invariant
            x@ == a@,
            y@ == b@,
            i <= x.len(),
            i <= y.len(),
            lex_lt(a@, b@) == lex_lt_from(a@, b@, i as int),
        decreases x.len() - i,
    {
        i = i + 1;
    }
    if i == x.len() {
        i < y.len()
    } else if i == y.len() {
        false
    } else {
        x[i] < y[i]
    }
}

/// A digest manifest: an ordered mapping from relative path to digest.
#[derive(Debug, Clone)]
pub struct Manifest {
    entries: Vec<(String, String)>,
}

impl View for Manifest {
    type V = Seq<EntryView>;

    closed spec fn view(&self) -> Seq<EntryView> {
        self.entries@.map_values(|e: (String, String)| (e.0@, e.1@))
    }
}

impl Manifest {
    /// Entries are sorted by path, each path once.
    pub open spec fn wf(&self) -> bool {
        sorted_keys(self@)
    }

    /// The path-to-digest mapping.
    pub open spec fn map(&self) -> Map<Seq<char>, Seq<char>> {
        map_of(self@)
    }

    /// An empty manifest.
    pub fn new() -> (r: Manifest)
        ensures
            r.wf(),
            r@ == Seq::<EntryView>::empty(),
    {
        let r = Manifest { entries: Vec::new() };
        assert(r@ =~= Seq::<EntryView>::empty());
        r
    }

    /// Number of entries.
    pub fn len(&self) -> (r: usize)
        ensures
            r == self@.len(),
    {
        self.entries.len()
    }

    /// The entries, in path order.
    pub fn entries(&self) -> (r: &Vec<(String, String)>)
        ensures
            r@.map_values(|e: (String, String)| (e.0@, e.1@)) == self@,
    {
        &self.entries
    }

    /// Index of the entry with path `key`, if any.
    pub fn find(&self, key: &String) -> (r: Option<usize>)
        ensures
            r is None <==> !has_key(self@, key@),
            r matches Some(i) ==> i < self@.len() && self@[i as int].0 == key@,
    {
        let mut i: usize = 0;
        while i < self.entries.len()
            invariant
                i <= self@.len(),
                self@.len() == self.entries@.len(),
                forall|j: int| 0 <= j < i ==> #[trigger] self@[j].0 != key@,
            decreases self.entries.len() - i,
        {
            assert(self@[i as int] == (self.entries@[i as int].0@, self.entries@[i as int].1@));
            if self.entries[i].0 == *key {
                assert(self@[i as int].0 == key@);
                return Some(i);
            }
            i = i + 1;
        }
        None
    }

    /// The digest recorded for `key`, if any.
    pub fn get(&self, key: &String) -> (r: Option<String>)
        requires
            self.wf(),
        ensures
            r is None <==> !self.map().contains_key(key@),
            r matches Some(v) ==> self.map()[key@] == v@,
    {
        match self.find(key) {
            Some(i) => {
                proof {
                    lemma_sorted_unique(self@);
                    lemma_value_at(self@, i as int);
                }
                Some(self.entries[i].1.clone())
            },
            None => None,
        }
    }

    /// Records `value` for `key`, replacing any earlier digest for it.
    pub fn insert(&mut self, key: String, value: String)
        requires
            old(self).wf(),
        ensures
            final(self).wf(),
            final(self).map() == old(self).map().insert(key@, value@),
    {
        let ghost s = self@;
        let ghost e: EntryView = (key@, value@);
        let mut p: usize = self.entries.len();
        while p > 0 && key_lt(&key, &self.entries[p - 1].0)
            invariant
                p <= self@.len(),
                self@ == s,
                self@.len() == self.entries@.len(),
                forall|j: int| p <= j < s.len() ==> lex_lt(key@, #[trigger] s[j].0),
            decreases p,
        {
            assert(s[p - 1] == (self.entries@[p - 1].0@, self.entries@[p - 1].1@));
            p = p - 1;
        }
        proof {
            lemma_sorted_unique(s);
        }
        if p > 0 && self.entries[p - 1].0 == key {
            let ghost q = (p - 1) as int;
            assert(s[q] == (self.entries@[q].0@, self.entries@[q].1@));
            self.entries.set(p - 1, (key, value));
            let ghost t = self@;
            assert(t =~= s.update(q, e));
            assert(s[q].0 == e.0);
            assert(sorted_keys(t)) by {
                assert forall|i: int, j: int| 0 <= i < j < t.len() implies lex_lt(
                    #[trigger] t[i].0,
                    #[trigger] t[j].0,
                ) by {
                    assert(t[i].0 == s[i].0);
                    assert(t[j].0 == s[j].0);
                }
            }
            assert(map_of(t) =~= map_of(s).insert(e.0, e.1)) by {
                assert forall|k: Seq<char>| has_key(t, k) <==> (has_key(s, k) || k == e.0) by {
                    if has_key(s, k) {
                        let j = choose|j: int| 0 <= j < s.len() && #[trigger] s[j].0 == k;
                        assert(t[j].0 == k);
                    }
                    if has_key(t, k) {
                        let j = choose|j: int| 0 <= j < t.len() && #[trigger] t[j].0 == k;
                        assert(s[j].0 == k || j == q);
                    }
                    if k == e.0 {
                        assert(t[q].0 == k);
                    }
                }
                lemma_sorted_unique(t);
                assert forall|k: Seq<char>| #[trigger] has_key(t, k) implies value_of(t, k)
                    == (if k == e.0 { e.1 } else { value_of(s, k) }) by {
                    let j = choose|j: int| 0 <= j < t.len() && #[trigger] t[j].0 == k;
                    lemma_value_at(t, j);
                    assert(t[q] == e);
                    if j != q {
                        assert(t[j] == s[j]);
                        lemma_value_at(s, j);
                    }
                }
            }
        } else {
            if p > 0 {
                let ghost q = (p - 1) as int;
                assert(s[q] == (self.entries@[q].0@, self.entries@[q].1@));
                proof {
                    lemma_lex_order(key@, s[q].0, key@);
                    assert(lex_lt(s[q].0, key@));
                    assert forall|j: int| 0 <= j < p implies lex_lt(#[trigger] s[j].0, key@) by {
                        if j < q {
                            lemma_lex_order(s[j].0, s[q].0, key@);
                        }
                    }
                }
            }
            self.entries.insert(p, (key, value));
            let ghost t = self@;
            assert(t =~= s.insert(p as int, e));
            assert(sorted_keys(t)) by {
                assert forall|i: int, j: int| 0 <= i < j < t.len() implies lex_lt(
                    #[trigger] t[i].0,
                    #[trigger] t[j].0,
                ) by {
                    if i < p && j > p {
                        lemma_lex_order(s[i].0, key@, s[j - 1].0);
                    }
                }
            }
            proof { lemma_sorted_unique(t); }
            assert(map_of(t) =~= map_of(s).insert(e.0, e.1)) by {
                assert forall|k: Seq<char>| has_key(t, k) <==> (has_key(s, k) || k == e.0) by {
                    if has_key(s, k) {
                        let j = choose|j: int| 0 <= j < s.len() && #[trigger] s[j].0 == k;
                        if j < p {
                            assert(t[j].0 == k);
                        } else {
                            assert(t[j + 1].0 == k);
                        }
                    }
                    if has_key(t, k) {
                        let j = choose|j: int| 0 <= j < t.len() && #[trigger] t[j].0 == k;
                        if j < p {
                            assert(s[j].0 == k);
                        } else if j > p {
                            assert(s[j - 1].0 == k);
                        }
                    }
                    if k == e.0 {
                        assert(t[p as int].0 == k);
                    }
                }
                assert forall|k: Seq<char>| #[trigger] has_key(t, k) implies value_of(t, k) == (if k
                    == e.0 { e.1 } else { value_of(s, k) }) by {
                    let j = choose|j: int| 0 <= j < t.len() && #[trigger] t[j].0 == k;
                    lemma_value_at(t, j);
                    assert(t[p as int] == e);
                    if j < p {
                        assert(t[j] == s[j]);
                        lemma_value_at(s, j);
                    } else if j > p {
                        assert(t[j] == s[j - 1]);
                        lemma_value_at(s, j - 1);
                    }
                }
            }
        }
    }
}

} // verus!
