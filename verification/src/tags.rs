//! An ordered string-to-string map for metadata tags: keys are kept unique
//! and in ascending order, which is the order in which they are walked.
use vstd::prelude::*;

use crate::text::{chars_of, copy_str};

verus! {

/// Lexicographic order on characters by scalar value (the order of `str`'s
/// `Ord`, since UTF-8 preserves code point order).
pub open spec fn lex_lt(a: Seq<char>, b: Seq<char>) -> bool
    decreases a.len(),
{
    if a.len() == 0 {
        b.len() > 0
    } else if b.len() == 0 {
        false
    } else if a[0] != b[0] {
        a[0] < b[0]
    } else {
        lex_lt(a.drop_first(), b.drop_first())
    }
}

pub proof fn lemma_lex_irreflexive(a: Seq<char>)
    ensures
        !lex_lt(a, a),
    decreases a.len(),
{
    if a.len() > 0 {
        lemma_lex_irreflexive(a.drop_first());
    }
}

pub proof fn lemma_lex_transitive(a: Seq<char>, b: Seq<char>, c: Seq<char>)
    requires
        lex_lt(a, b),
        lex_lt(b, c),
    ensures
        lex_lt(a, c),
    decreases a.len(),
{
    if a.len() > 0 && b.len() > 0 && c.len() > 0 {
        if a[0] == b[0] && b[0] == c[0] {
            lemma_lex_transitive(a.drop_first(), b.drop_first(), c.drop_first());
        }
    }
}

pub proof fn lemma_lex_total(a: Seq<char>, b: Seq<char>)
    ensures
        a == b || lex_lt(a, b) || lex_lt(b, a),
    decreases a.len(),
{
    if a.len() > 0 && b.len() > 0 {
        if a[0] == b[0] {
            lemma_lex_total(a.drop_first(), b.drop_first());
            if a.drop_first() == b.drop_first() {
                assert(a.drop_first().len() == b.drop_first().len());
                assert(a.len() == b.len());
                assert forall|i: int| 0 <= i < a.len() implies a[i] == b[i] by {
                    if i > 0 {
                        assert(a.drop_first()[i - 1] == b.drop_first()[i - 1]);
                        assert(a[i] == a.drop_first()[i - 1]);
                        assert(b[i] == b.drop_first()[i - 1]);
                    }
                }
                assert(a =~= b);
            }
        }
    } else if a.len() == 0 && b.len() == 0 {
        assert(a =~= b);
    }
}

pub proof fn lemma_lex_asym(a: Seq<char>, b: Seq<char>)
    requires
        lex_lt(a, b),
    ensures
        !lex_lt(b, a),
        a != b,
{
    lemma_lex_irreflexive(a);
    if lex_lt(b, a) {
        lemma_lex_transitive(a, b, a);
    }
}

/// Three-way comparison: -1, 0 or 1.
pub fn compare_chars(a: &[char], b: &[char]) -> (r: i8)
    ensures
        r == 0 <==> a@ == b@,
        r < 0 <==> lex_lt(a@, b@),
        r > 0 <==> lex_lt(b@, a@),
{
    let mut i: usize = 0;
    assert(a@.skip(0) == a@ && b@.skip(0) == b@);
    assert(a@.take(0) =~= b@.take(0));
    while i < a.len() && i < b.len()
        invariant
            i <= a@.len(),
            i <= b@.len(),
            a@.take(i as int) == b@.take(i as int),
            lex_lt(a@, b@) == lex_lt(a@.skip(i as int), b@.skip(i as int)),
            lex_lt(b@, a@) == lex_lt(b@.skip(i as int), a@.skip(i as int)),
        decreases a.len() - i,
    {
        assert(a@.skip(i as int).drop_first() == a@.skip(i + 1));
        assert(b@.skip(i as int).drop_first() == b@.skip(i + 1));
        if a[i] != b[i] {
            proof {
                lemma_lex_total(a@, b@);
                if a@[i as int] < b@[i as int] {
                    lemma_lex_asym(a@, b@);
                } else {
                    lemma_lex_asym(b@, a@);
                }
                assert(a@[i as int] == a@.skip(i as int)[0]);
            }
            if a[i] < b[i] {
                return -1;
            } else {
                return 1;
            }
        }
        assert(a@.take(i + 1) == a@.take(i as int).push(a@[i as int]));
        assert(b@.take(i + 1) == b@.take(i as int).push(b@[i as int]));
        i += 1;
    }
    proof {
        lemma_lex_irreflexive(a@);
        if a@.len() == b@.len() {
            assert(a@ =~= a@.take(i as int));
            assert(b@ =~= b@.take(i as int));
        } else if i == a@.len() {
            assert(a@.take(i as int) =~= a@);
            assert(a@ != b@);
        } else {
            assert(b@.take(i as int) =~= b@);
            assert(a@ != b@);
        }
    }
    if a.len() == b.len() {
        0
    } else if i == a.len() {
        -1
    } else {
        1
    }
}

pub open spec fn keys_sorted(s: Seq<(Seq<char>, Seq<char>)>) -> bool {
    forall|i: int, j: int| 0 <= i < j < s.len() ==> lex_lt(#[trigger] s[i].0, #[trigger] s[j].0)
}

/// The value stored under `k` in an entry list.
pub open spec fn lookup(s: Seq<(Seq<char>, Seq<char>)>, k: Seq<char>) -> Option<Seq<char>>
    decreases s.len(),
{
    if s.len() == 0 {
        None
    } else if s[0].0 == k {
        Some(s[0].1)
    } else {
        lookup(s.drop_first(), k)
    }
}

/// String tags, unique and ordered by key.
#[derive(Debug)]
pub struct TagMap {
    entries: Vec<(String, String)>,
}

impl TagMap {
    /// The entries in key order.
    pub closed spec fn pairs(&self) -> Seq<(Seq<char>, Seq<char>)> {
        self.entries@.map_values(|e: (String, String)| (e.0@, e.1@))
    }

    #[verifier::type_invariant]
    closed spec fn wf(&self) -> bool {
        keys_sorted(self.pairs())
    }

    pub open spec fn get_spec(&self, k: Seq<char>) -> Option<Seq<char>> {
        lookup(self.pairs(), k)
    }

    pub fn new() -> (r: Self)
        ensures
            r.pairs() == Seq::<(Seq<char>, Seq<char>)>::empty(),
            keys_sorted(r.pairs()),
    {
        let v: Vec<(String, String)> = Vec::new();
        assert(v@.map_values(|e: (String, String)| (e.0@, e.1@)) =~= Seq::<(Seq<char>, Seq<char>)>::empty());
        let r = TagMap { entries: v };
        assert(r.pairs() =~= Seq::<(Seq<char>, Seq<char>)>::empty());
        r
    }

    pub fn clone_map(&self) -> (r: Self)
        ensures
            r.pairs() == self.pairs(),
            keys_sorted(r.pairs()),
    {
        proof {
            use_type_invariant(self);
        }
        let mut v: Vec<(String, String)> = Vec::new();
        let mut i: usize = 0;
        while i < self.entries.len()
            invariant
                i <= self.entries@.len(),
                v@.map_values(|e: (String, String)| (e.0@, e.1@)) == self.pairs().take(i as int),
            decreases self.entries.len() - i,
        {
            let k = self.entries[i].0.clone();
            let val = self.entries[i].1.clone();
            let ghost before = v@;
            v.push((k, val));
            assert(v@.map_values(|e: (String, String)| (e.0@, e.1@)) =~= before.map_values(
                |e: (String, String)| (e.0@, e.1@),
            ).push((k@, val@)));
            assert(self.pairs().take(i + 1) =~= self.pairs().take(i as int).push(self.pairs()[i as int]));
            i += 1;
        }
        assert(self.pairs().take(i as int) =~= self.pairs());
        TagMap { entries: v }
    }

    pub fn len(&self) -> (r: usize)
        ensures
            r == self.pairs().len(),
    {
        self.entries.len()
    }

    pub fn key_at(&self, i: usize) -> (r: &String)
        requires
            i < self.pairs().len(),
        ensures
            r@ == self.pairs()[i as int].0,
    {
        &self.entries[i].0
    }

    pub fn value_at(&self, i: usize) -> (r: &String)
        requires
            i < self.pairs().len(),
        ensures
            r@ == self.pairs()[i as int].1,
    {
        &self.entries[i].1
    }

    /// The value stored under `key`.
    pub fn get(&self, key: &str) -> (r: Option<&String>)
        ensures
            match r {
                Some(v) => self.get_spec(key@) == Some(v@),
                None => self.get_spec(key@) is None,
            },
    {
        let kc = chars_of(key);
        let mut i: usize = 0;
        assert(self.pairs().skip(0) == self.pairs());
        while i < self.entries.len()
            invariant
                i <= self.pairs().len(),
                self.get_spec(key@) == lookup(self.pairs().skip(i as int), key@),
                kc@ == key@,
            decreases self.entries.len() - i,
        {
            let ec = chars_of(self.entries[i].0.as_str());
            assert(self.pairs().skip(i as int).drop_first() == self.pairs().skip(i + 1));
            assert(self.pairs().skip(i as int)[0] == self.pairs()[i as int]);
            if compare_chars(ec.as_slice(), kc.as_slice()) == 0 {
                return Some(&self.entries[i].1);
            }
            i += 1;
        }
        None
    }

    /// Stores `value` under `key`, replacing an earlier value.
    pub fn insert(&mut self, key: String, value: String)
        ensures
            forall|k: Seq<char>| #[trigger] final(self).get_spec(k) == if k == key@ {
                Some(value@)
            } else {
                old(self).get_spec(k)
            },
            keys_sorted(final(self).pairs()),
    {
        proof {
            use_type_invariant(&*self);
        }
        let kc = chars_of(key.as_str());
        let n = self.entries.len();
        let mut i: usize = 0;
        let mut stop = false;
        while i < n && !stop
            invariant
                n == self.pairs().len(),
                i <= n,
                kc@ == key@,
                keys_sorted(self.pairs()),
                forall|j: int| 0 <= j < i ==> lex_lt(#[trigger] self.pairs()[j].0, key@),
                stop ==> i < n && !lex_lt(self.pairs()[i as int].0, key@),
            decreases n - i + (if stop { 0int } else { 1 }),
        {
            let ec = chars_of(self.entries[i].0.as_str());
            let c = compare_chars(ec.as_slice(), kc.as_slice());
            if c >= 0 {
                stop = true;
            } else {
                i += 1;
            }
        }
        let ghost old_pairs = self.pairs();
        proof {
            lemma_lookup_sorted_prefix(old_pairs, key@, i as int);
        }
        if i < n {
            let ec = chars_of(self.entries[i].0.as_str());
            if compare_chars(ec.as_slice(), kc.as_slice()) == 0 {
                let mut entries: Vec<(String, String)> = Vec::new();
                std::mem::swap(&mut entries, &mut self.entries);
                entries.set(i, (key, value));
                let ghost np = entries@.map_values(|e: (String, String)| (e.0@, e.1@));
                assert(np =~= old_pairs.update(i as int, (key@, value@)));
                proof {
                    lemma_lookup_update(old_pairs, i as int, key@, value@);
                }
                self.entries = entries;
                proof {
                    use_type_invariant(&*self);
                }
                return;
            }
        }
        let mut entries: Vec<(String, String)> = Vec::new();
        std::mem::swap(&mut entries, &mut self.entries);
        entries.insert(i, (key, value));
        let ghost np = entries@.map_values(|e: (String, String)| (e.0@, e.1@));
        assert(np =~= old_pairs.insert(i as int, (key@, value@)));
        proof {
            lemma_lookup_insert(old_pairs, i as int, key@, value@);
        }
        self.entries = entries;
        proof {
            use_type_invariant(&*self);
        }
    }
}

/// Before a sorted list's first key not below `k`, `k` does not occur.
proof fn lemma_lookup_sorted_prefix(s: Seq<(Seq<char>, Seq<char>)>, k: Seq<char>, i: int)
    requires
        keys_sorted(s),
        0 <= i <= s.len(),
        forall|j: int| 0 <= j < i ==> lex_lt(#[trigger] s[j].0, k),
        i < s.len() ==> !lex_lt(s[i].0, k),
    ensures
        i < s.len() ==> (s[i].0 == k || lex_lt(k, s[i].0)),
        forall|j: int| 0 <= j < s.len() && j != i ==> s[j].0 != k,
{
    assert forall|j: int| 0 <= j < s.len() && j != i implies s[j].0 != k by {
        if j < i {
            lemma_lex_asym(s[j].0, k);
        } else {
            lemma_lex_total(s[i].0, k);
            if s[i].0 != k {
                lemma_lex_transitive(k, s[i].0, s[j].0);
                lemma_lex_asym(k, s[j].0);
            } else {
                lemma_lex_asym(s[i].0, s[j].0);
            }
        }
    }
    if i < s.len() {
        lemma_lex_total(s[i].0, k);
    }
}

#[verifier::rlimit(40)]
pub open spec fn unique_keys(s: Seq<(Seq<char>, Seq<char>)>) -> bool {
    forall|a: int, b: int| 0 <= a < s.len() && 0 <= b < s.len() && a != b ==> #[trigger] s[a].0 != #[trigger] s[b].0
}

proof fn lemma_sorted_unique(s: Seq<(Seq<char>, Seq<char>)>)
    requires
        keys_sorted(s),
    ensures
        unique_keys(s),
{
    assert forall|a: int, b: int| 0 <= a < s.len() && 0 <= b < s.len() && a != b implies #[trigger] s[a].0 != #[trigger] s[b].0 by {
        if a < b {
            lemma_lex_asym(s[a].0, s[b].0);
        } else {
            lemma_lex_asym(s[b].0, s[a].0);
        }
    }
}

proof fn lemma_lookup_none(s: Seq<(Seq<char>, Seq<char>)>, k: Seq<char>)
    requires
        forall|j: int| 0 <= j < s.len() ==> #[trigger] s[j].0 != k,
    ensures
        lookup(s, k) is None,
    decreases s.len(),
{
    if s.len() > 0 {
        assert(s[0].0 != k);
        assert forall|j: int| 0 <= j < s.drop_first().len() implies #[trigger] s.drop_first()[j].0 != k by {
            assert(s.drop_first()[j] == s[j + 1]);
        }
        lemma_lookup_none(s.drop_first(), k);
    }
}

proof fn lemma_lookup_some(s: Seq<(Seq<char>, Seq<char>)>, k: Seq<char>, j: int)
    requires
        0 <= j < s.len(),
        s[j].0 == k,
        forall|m: int| 0 <= m < j ==> #[trigger] s[m].0 != k,
    ensures
        lookup(s, k) == Some(s[j].1),
    decreases j,
{
    if j > 0 {
        assert(s[0].0 != k);
        assert forall|m: int| 0 <= m < j - 1 implies #[trigger] s.drop_first()[m].0 != k by {
            assert(s.drop_first()[m] == s[m + 1]);
        }
        assert(s.drop_first()[j - 1] == s[j]);
        lemma_lookup_some(s.drop_first(), k, j - 1);
    }
}

/// A key that a lookup finds has an entry.
proof fn lemma_lookup_found(s: Seq<(Seq<char>, Seq<char>)>, k: Seq<char>)
    requires
        lookup(s, k) is Some,
    ensures
        exists|j: int| 0 <= j < s.len() && #[trigger] s[j] == (k, lookup(s, k).unwrap()),
    decreases s.len(),
{
    if s[0].0 != k {
        lemma_lookup_found(s.drop_first(), k);
        let j = choose|j: int| 0 <= j < s.drop_first().len() && #[trigger] s.drop_first()[j] == (
            k,
            lookup(s.drop_first(), k).unwrap(),
        );
        assert(s[j + 1] == s.drop_first()[j]);
    } else {
        assert(s[0] == (k, lookup(s, k).unwrap()));
    }
}

/// The entries of a tag map are determined by what it stores: two key-ordered
/// entry lists that give every key the same value are the same list.
pub proof fn lemma_sorted_entries_determined(a: Seq<(Seq<char>, Seq<char>)>, b: Seq<(Seq<char>, Seq<char>)>)
    requires
        keys_sorted(a),
        keys_sorted(b),
        forall|k: Seq<char>| #[trigger] lookup(a, k) == lookup(b, k),
    ensures
        a == b,
    decreases a.len(),
{
    if a.len() == 0 {
        if b.len() > 0 {
            assert(lookup(b, b[0].0) is Some);
            assert(lookup(a, b[0].0) is None);
        }
        assert(a =~= b);
    } else if b.len() == 0 {
        assert(lookup(a, a[0].0) is Some);
        assert(lookup(b, a[0].0) is None);
    } else {
        let ka = a[0].0;
        let kb = b[0].0;
        assert(lookup(a, ka) == Some(a[0].1));
        assert(lookup(b, kb) == Some(b[0].1));
        lemma_lookup_found(b, ka);
        lemma_lookup_found(a, kb);
        let j = choose|j: int| 0 <= j < b.len() && #[trigger] b[j] == (ka, lookup(b, ka).unwrap());
        let i = choose|i: int| 0 <= i < a.len() && #[trigger] a[i] == (kb, lookup(a, kb).unwrap());
        if j > 0 && i > 0 {
            assert(lex_lt(b[0].0, b[j].0));
            assert(lex_lt(a[0].0, a[i].0));
            lemma_lex_asym(kb, ka);
        }
        assert(ka == kb);
        assert(a[0] == b[0]);
        let ta = a.drop_first();
        let tb = b.drop_first();
        assert(keys_sorted(ta)) by {
            assert forall|x: int, y: int| 0 <= x < y < ta.len() implies lex_lt(#[trigger] ta[x].0, #[trigger] ta[y].0) by {
                assert(ta[x] == a[x + 1] && ta[y] == a[y + 1]);
            }
        }
        assert(keys_sorted(tb)) by {
            assert forall|x: int, y: int| 0 <= x < y < tb.len() implies lex_lt(#[trigger] tb[x].0, #[trigger] tb[y].0) by {
                assert(tb[x] == b[x + 1] && tb[y] == b[y + 1]);
            }
        }
        assert forall|k: Seq<char>| #[trigger] lookup(ta, k) == lookup(tb, k) by {
            if k == ka {
                assert forall|m: int| 0 <= m < ta.len() implies #[trigger] ta[m].0 != k by {
                    assert(ta[m] == a[m + 1]);
                    assert(lex_lt(a[0].0, a[m + 1].0));
                    lemma_lex_asym(a[0].0, a[m + 1].0);
                }
                assert forall|m: int| 0 <= m < tb.len() implies #[trigger] tb[m].0 != k by {
                    assert(tb[m] == b[m + 1]);
                    assert(lex_lt(b[0].0, b[m + 1].0));
                    lemma_lex_asym(b[0].0, b[m + 1].0);
                }
                lemma_lookup_none(ta, k);
                lemma_lookup_none(tb, k);
            } else {
                assert(lookup(a, k) == lookup(ta, k));
                assert(lookup(b, k) == lookup(tb, k));
            }
        }
        lemma_sorted_entries_determined(ta, tb);
        assert(a =~= b) by {
            assert forall|x: int| 0 <= x < a.len() implies a[x] == b[x] by {
                if x > 0 {
                    assert(a[x] == ta[x - 1]);
                    assert(b[x] == tb[x - 1]);
                }
            }
        }
    }
}

/// With unique keys, the lookup of a key is the value of its entry.
proof fn lemma_lookup_unique(s: Seq<(Seq<char>, Seq<char>)>, k: Seq<char>, j: int)
    requires
        0 <= j < s.len(),
        s[j].0 == k,
        forall|m: int| 0 <= m < s.len() && m != j ==> #[trigger] s[m].0 != k,
    ensures
        lookup(s, k) == Some(s[j].1),
{
    lemma_lookup_some(s, k, j);
}

proof fn lemma_lookup_update(s: Seq<(Seq<char>, Seq<char>)>, i: int, k: Seq<char>, v: Seq<char>)
    requires
        keys_sorted(s),
        0 <= i < s.len(),
        s[i].0 == k,
    ensures
        keys_sorted(s.update(i, (k, v))),
        forall|q: Seq<char>| #[trigger] lookup(s.update(i, (k, v)), q) == if q == k {
            Some(v)
        } else {
            lookup(s, q)
        },
{
    let t = s.update(i, (k, v));
    assert forall|a: int, b: int| 0 <= a < b < t.len() implies lex_lt(#[trigger] t[a].0, #[trigger] t[b].0) by {
        assert(t[a].0 == s[a].0 && t[b].0 == s[b].0);
    }
    lemma_sorted_unique(s);
    lemma_sorted_unique(t);
    assert forall|q: Seq<char>| #[trigger] lookup(t, q) == if q == k {
        Some(v)
    } else {
        lookup(s, q)
    } by {
        if q == k {
            assert forall|m: int| 0 <= m < t.len() && m != i implies #[trigger] t[m].0 != q by {
                assert(t[m].0 != t[i].0);
            }
            lemma_lookup_unique(t, k, i);
        } else if exists|j: int| 0 <= j < s.len() && #[trigger] s[j].0 == q {
            let j = choose|j: int| 0 <= j < s.len() && #[trigger] s[j].0 == q;
            assert forall|m: int| 0 <= m < s.len() && m != j implies #[trigger] s[m].0 != q by {
                assert(s[m].0 != s[j].0);
            }
            assert forall|m: int| 0 <= m < t.len() && m != j implies #[trigger] t[m].0 != q by {
                assert(t[m].0 != t[j].0);
            }
            lemma_lookup_unique(s, q, j);
            lemma_lookup_unique(t, q, j);
        } else {
            assert forall|m: int| 0 <= m < t.len() implies #[trigger] t[m].0 != q by {
                if m != i {
                    assert(t[m] == s[m]);
                }
            }
            lemma_lookup_none(s, q);
            lemma_lookup_none(t, q);
        }
    }
}

proof fn lemma_lookup_insert(s: Seq<(Seq<char>, Seq<char>)>, i: int, k: Seq<char>, v: Seq<char>)
    requires
        keys_sorted(s),
        0 <= i <= s.len(),
        forall|j: int| 0 <= j < i ==> lex_lt(#[trigger] s[j].0, k),
        i < s.len() ==> lex_lt(k, s[i].0),
    ensures
        keys_sorted(s.insert(i, (k, v))),
        forall|q: Seq<char>| #[trigger] lookup(s.insert(i, (k, v)), q) == if q == k {
            Some(v)
        } else {
            lookup(s, q)
        },
{
    let t = s.insert(i, (k, v));
    s.insert_ensures(i, (k, v));
    assert forall|a: int, b: int| 0 <= a < b < t.len() implies lex_lt(#[trigger] t[a].0, #[trigger] t[b].0) by {
        if a < i && b <= i {
        } else if a < i && b > i {
            lemma_insert_index(s, i, (k, v), b);
            if b - 1 > i {
                lemma_lex_transitive(k, s[i].0, s[b - 1].0);
            }
            lemma_lex_transitive(s[a].0, k, s[b - 1].0);
        } else if a == i && b > i {
            lemma_insert_index(s, i, (k, v), b);
            if b - 1 > i {
                lemma_lex_transitive(k, s[i].0, s[b - 1].0);
            }
        } else {
            lemma_insert_index(s, i, (k, v), a);
            lemma_insert_index(s, i, (k, v), b);
        }
    }
    lemma_sorted_unique(s);
    lemma_sorted_unique(t);
    assert forall|q: Seq<char>| #[trigger] lookup(t, q) == if q == k {
        Some(v)
    } else {
        lookup(s, q)
    } by {
        if q == k {
            assert forall|m: int| 0 <= m < t.len() && m != i implies #[trigger] t[m].0 != q by {
                assert(t[m].0 != t[i].0);
            }
            lemma_lookup_unique(t, k, i);
        } else if exists|j: int| 0 <= j < s.len() && #[trigger] s[j].0 == q {
            let j = choose|j: int| 0 <= j < s.len() && #[trigger] s[j].0 == q;
            let tj = if j < i { j } else { j + 1 };
            if j >= i {
                lemma_insert_index(s, i, (k, v), j + 1);
            }
            assert(t[tj] == s[j]);
            assert forall|m: int| 0 <= m < s.len() && m != j implies #[trigger] s[m].0 != q by {
                assert(s[m].0 != s[j].0);
            }
            assert forall|m: int| 0 <= m < t.len() && m != tj implies #[trigger] t[m].0 != q by {
                assert(t[m].0 != t[tj].0);
            }
            lemma_lookup_unique(s, q, j);
            lemma_lookup_unique(t, q, tj);
        } else {
            assert forall|m: int| 0 <= m < t.len() implies #[trigger] t[m].0 != q by {
                if m < i {
                    assert(t[m] == s[m]);
                } else if m > i {
                    lemma_insert_index(s, i, (k, v), m);
                }
            }
            lemma_lookup_none(s, q);
            lemma_lookup_none(t, q);
        }
    }
}

proof fn lemma_insert_index<A>(s: Seq<A>, i: int, x: A, b: int)
    requires
        0 <= i < b <= s.len(),
    ensures
        s.insert(i, x)[b] == s[b - 1],
        s.insert(i, x).len() == s.len() + 1,
{
    s.insert_ensures(i, x);
    let t = s.subrange(0, i).push(x) + s.subrange(i, s.len() as int);
    assert(t[b] == s.subrange(i, s.len() as int)[b - i - 1]);
}

/// Builds a map from pairs, later pairs replacing earlier ones with the same key.
pub fn tag_map_from_pairs(pairs: &[(&str, &str)]) -> (r: TagMap)
    ensures
        forall|k: Seq<char>| #[trigger] r.get_spec(k) == lookup_last(
            pairs@.map_values(|p: (&str, &str)| (p.0@, p.1@)),
            k,
        ),
{
    let ghost ps = pairs@.map_values(|p: (&str, &str)| (p.0@, p.1@));
    let mut m = TagMap::new();
    let mut i: usize = 0;
    while i < pairs.len()
        invariant
            i <= pairs@.len(),
            ps == pairs@.map_values(|p: (&str, &str)| (p.0@, p.1@)),
            forall|k: Seq<char>| #[trigger] m.get_spec(k) == lookup_last(ps.take(i as int), k),
        decreases pairs.len() - i,
    {
        let (k, v) = pairs[i];
        assert(ps.take(i + 1).drop_last() == ps.take(i as int));
        assert(ps.take(i + 1).last() == (k@, v@));
        m.insert(copy_str(k), copy_str(v));
        i += 1;
    }
    assert(ps.take(pairs@.len() as int) == ps);
    m
}

/// The value of the last pair with key `k`.
pub open spec fn lookup_last(s: Seq<(Seq<char>, Seq<char>)>, k: Seq<char>) -> Option<Seq<char>>
    decreases s.len(),
{
    if s.len() == 0 {
        None
    } else if s.last().0 == k {
        Some(s.last().1)
    } else {
        lookup_last(s.drop_last(), k)
    }
}

} // verus!
