//! Trimming the components of a path twice gives what trimming once gives.
use vstd::prelude::*;

use crate::naming::{is_blank, trim_blank_end, trim_blank_start, trimmed_components, trimmed_path};
use crate::text::{find_char_from, rfind_char, rfind_char_before};

verus! {

/// A component without surrounding blanks.
spec fn tr(x: Seq<char>) -> Seq<char> {
    trim_blank_end(trim_blank_start(x))
}

/// The components of `p`, trimmed, from its start.
spec fn tc(p: Seq<char>, sep: char) -> Seq<char> {
    trimmed_components(p, sep, 0)
}

proof fn lemma_tbs_is_suffix(x: Seq<char>)
    ensures
        exists|i: int| 0 <= i <= x.len() && trim_blank_start(x) == x.skip(i),
        trim_blank_start(x).len() > 0 ==> !is_blank(trim_blank_start(x)[0]),
        x.len() > 0 && !is_blank(x[0]) ==> trim_blank_start(x) == x,
    decreases x.len(),
{
    if x.len() > 0 && is_blank(x[0]) {
        lemma_tbs_is_suffix(x.drop_first());
        let i = choose|i: int| 0 <= i <= x.drop_first().len() && trim_blank_start(x.drop_first())
            == x.drop_first().skip(i);
        assert(x.drop_first().skip(i) =~= x.skip(i + 1));
    } else {
        assert(x.skip(0) =~= x);
    }
}

proof fn lemma_tbe_is_prefix(x: Seq<char>)
    ensures
        exists|j: int| 0 <= j <= x.len() && trim_blank_end(x) == x.take(j),
        trim_blank_end(x).len() > 0 ==> !is_blank(trim_blank_end(x).last()),
        x.len() > 0 && !is_blank(x.last()) ==> trim_blank_end(x) == x,
        trim_blank_end(trim_blank_end(x)) == trim_blank_end(x),
        x.len() > 0 && !is_blank(x[0]) ==> trim_blank_end(x).len() > 0 && trim_blank_end(x)[0]
            == x[0],
    decreases x.len(),
{
    if x.len() > 0 && is_blank(x.last()) {
        lemma_tbe_is_prefix(x.drop_last());
        let j = choose|j: int| 0 <= j <= x.drop_last().len() && trim_blank_end(x.drop_last())
            == x.drop_last().take(j);
        assert(x.drop_last().take(j) =~= x.take(j));
    } else {
        assert(x.take(x.len() as int) =~= x);
    }
}

/// A trimmed component stays as it is, holds no character its source does
/// not hold, and starts and ends with no blank.
proof fn lemma_tr(x: Seq<char>)
    ensures
        tr(tr(x)) == tr(x),
        forall|k: int| 0 <= k < tr(x).len() ==> x.contains(#[trigger] tr(x)[k]),
        tr(x).len() > 0 ==> !is_blank(tr(x)[0]) && !is_blank(tr(x).last()),
{
    lemma_tbs_is_suffix(x);
    let s = trim_blank_start(x);
    lemma_tbe_is_prefix(s);
    let t = trim_blank_end(s);
    let i = choose|i: int| 0 <= i <= x.len() && s == x.skip(i);
    let j = choose|j: int| 0 <= j <= s.len() && t == s.take(j);
    assert forall|k: int| 0 <= k < t.len() implies x.contains(#[trigger] t[k]) by {
        assert(t[k] == x[i + k]);
    }
    if t.len() > 0 {
        assert(!is_blank(t[0])) by {
            assert(s.len() > 0);
            assert(t[0] == s[0]);
        }
        lemma_tbs_is_suffix(t);
        lemma_tbe_is_prefix(t);
    } else {
        assert(trim_blank_start(t) =~= t);
        assert(trim_blank_end(t) =~= t);
    }
}

/// Where the first `c` from `from` on is, or that there is none.
proof fn lemma_find_first(s: Seq<char>, c: char, from: int, i: int)
    requires
        0 <= from <= i <= s.len(),
        forall|k: int| from <= k < i ==> s[k] != c,
        i < s.len() ==> s[i] == c,
    ensures
        find_char_from(s, c, from) == if i < s.len() {
            Some(i)
        } else {
            None::<int>
        },
    decreases i - from,
{
    if from < i {
        lemma_find_first(s, c, from + 1, i);
    }
}

proof fn lemma_find_facts(s: Seq<char>, c: char, from: int)
    requires
        0 <= from <= s.len(),
    ensures
        find_char_from(s, c, from) matches Some(i) ==> from <= i < s.len() && s[i] == c && forall|k: int|
            from <= k < i ==> s[k] != c,
        find_char_from(s, c, from) is None ==> forall|k: int| from <= k < s.len() ==> s[k] != c,
    decreases s.len() - from,
{
    if from < s.len() && s[from] != c {
        lemma_find_facts(s, c, from + 1);
    }
}

/// The components from `from` on are those of the rest of the path.
proof fn lemma_tc_skip(p: Seq<char>, sep: char, from: int, k: int)
    requires
        0 <= from,
        0 <= k,
        from + k <= p.len(),
    ensures
        trimmed_components(p, sep, from + k) == trimmed_components(p.skip(from), sep, k),
    decreases p.len() - from - k,
{
    let q = p.skip(from);
    lemma_find_facts(p, sep, from + k);
    lemma_find_facts(q, sep, k);
    let e = match find_char_from(p, sep, from + k) {
        Some(i) => i,
        None => p.len() as int,
    };
    assert forall|j: int| k <= j < e - from implies q[j] != sep by {
        assert(q[j] == p[from + j]);
    }
    if e < p.len() {
        assert(q[e - from] == sep);
    }
    lemma_find_first(q, sep, k, e - from);
    assert(p.subrange(from + k, e) =~= q.subrange(k, e - from));
    if e < p.len() {
        lemma_tc_skip(p, sep, from, e - from + 1);
    }
}

/// The components of a path: its first, trimmed, then the others.
proof fn lemma_tc_split(x: Seq<char>, sep: char, y: Seq<char>)
    requires
        forall|k: int| 0 <= k < x.len() ==> x[k] != sep,
    ensures
        tc(x.push(sep) + y, sep) == tr(x).push(sep) + tc(y, sep),
        tc(x, sep) == tr(x),
{
    let p = x.push(sep) + y;
    lemma_find_first(p, sep, 0, x.len() as int);
    lemma_find_first(x, sep, 0, x.len() as int);
    assert(p.subrange(0, x.len() as int) =~= x);
    assert(x.subrange(0, x.len() as int) =~= x);
    lemma_tc_skip(p, sep, x.len() as int + 1, 0);
    assert(p.skip(x.len() as int + 1) =~= y);
}

/// The first separator of a path, and what lies before and after it.
proof fn lemma_tc_shape(p: Seq<char>, sep: char)
    ensures
        find_char_from(p, sep, 0) matches Some(e) ==> 0 <= e < p.len() && p == p.take(e).push(sep)
            + p.skip(e + 1) && forall|k: int| 0 <= k < e ==> #[trigger] p.take(e)[k] != sep,
        find_char_from(p, sep, 0) is None ==> forall|k: int| 0 <= k < p.len() ==> #[trigger] p[k]
            != sep,
{
    lemma_find_facts(p, sep, 0);
    if let Some(e) = find_char_from(p, sep, 0) {
        assert(p =~= p.take(e).push(sep) + p.skip(e + 1));
    }
}

/// Trimming the components of trimmed components changes nothing.
proof fn lemma_tc_fixpoint(p: Seq<char>, sep: char)
    ensures
        tc(tc(p, sep), sep) == tc(p, sep),
    decreases p.len(),
{
    lemma_tc_shape(p, sep);
    match find_char_from(p, sep, 0) {
        Some(e) => {
            let x = p.take(e);
            let y = p.skip(e + 1);
            lemma_tc_split(x, sep, y);
            lemma_tr(x);
            assert forall|k: int| 0 <= k < tr(x).len() implies tr(x)[k] != sep by {
                assert(x.contains(tr(x)[k]));
            }
            lemma_tc_fixpoint(y, sep);
            lemma_tc_split(tr(x), sep, tc(y, sep));
        },
        None => {
            lemma_tc_split(p, sep, Seq::empty());
            lemma_tr(p);
            assert forall|k: int| 0 <= k < tr(p).len() implies tr(p)[k] != sep by {
                assert(p.contains(tr(p)[k]));
            }
            lemma_tc_split(tr(p), sep, Seq::empty());
        },
    }
}

/// Blanks at the end of `a + b` are those of `b` when `a` ends with a
/// character that is no blank.
proof fn lemma_tbe_after(a: Seq<char>, b: Seq<char>)
    requires
        a.len() > 0,
        !is_blank(a.last()),
    ensures
        trim_blank_end(a + b) == a + trim_blank_end(b),
    decreases b.len(),
{
    if b.len() == 0 {
        assert(a + b =~= a);
        assert(a + trim_blank_end(b) =~= a);
    } else {
        assert((a + b).last() == b.last());
        if is_blank(b.last()) {
            assert((a + b).drop_last() =~= a + b.drop_last());
            lemma_tbe_after(a, b.drop_last());
        }
    }
}

/// A path whose components are trimmed: its first component is trimmed,
/// and so are the components after it.
proof fn lemma_clean_parts(t: Seq<char>, sep: char)
    requires
        tc(t, sep) == t,
    ensures
        find_char_from(t, sep, 0) matches Some(e) ==> tr(t.take(e)) == t.take(e) && tc(
            t.skip(e + 1),
            sep,
        ) == t.skip(e + 1),
        find_char_from(t, sep, 0) is None ==> tr(t) == t,
{
    lemma_tc_shape(t, sep);
    match find_char_from(t, sep, 0) {
        Some(e) => {
            let x = t.take(e);
            let y = t.skip(e + 1);
            lemma_tc_split(x, sep, y);
            lemma_tr(x);
            let l = tr(x).push(sep) + tc(y, sep);
            assert forall|k: int| 0 <= k < tr(x).len() implies l[k] != sep by {
                assert(x.contains(tr(x)[k]));
            }
            lemma_find_first(l, sep, 0, tr(x).len() as int);
            assert(tr(x) =~= t.take(e));
            assert(tc(y, sep) =~= l.skip(e + 1));
        },
        None => {
            lemma_tc_split(t, sep, Seq::empty());
        },
    }
}

/// Blanks taken away just before a dot.
spec fn trim_before(t: Seq<char>, d: int) -> Seq<char> {
    trim_blank_end(t.take(d)) + t.skip(d)
}

/// A component with no blank around it keeps none when the blanks before
/// one of its dots are taken away.
proof fn lemma_component_trim_before(x: Seq<char>, d: int)
    requires
        tr(x) == x,
        0 <= d < x.len(),
        !is_blank(x[d]),
    ensures
        tr(trim_before(x, d)) == trim_before(x, d),
{
    lemma_tr(x);
    let y = trim_before(x, d);
    lemma_tbe_is_prefix(x.take(d));
    if d > 0 {
        assert(x.take(d)[0] == x[0]);
    } else {
        assert(x.take(d) =~= Seq::<char>::empty());
        assert(trim_blank_end(x.take(d)) =~= Seq::<char>::empty());
    }
    assert(y.len() > 0 && !is_blank(y[0]));
    assert(y.last() == x.last());
    lemma_tbs_is_suffix(y);
    assert(trim_blank_start(y) == y);
    lemma_tbe_is_prefix(y);
}

/// Taking the blanks before a dot away keeps the components trimmed.
proof fn lemma_trim_before_clean(t: Seq<char>, sep: char, d: int)
    requires
        tc(t, sep) == t,
        0 <= d < t.len(),
        t[d] == '.',
        sep != '.',
        !is_blank(sep),
    ensures
        tc(trim_before(t, d), sep) == trim_before(t, d),
    decreases t.len(),
{
    lemma_tc_shape(t, sep);
    lemma_clean_parts(t, sep);
    match find_char_from(t, sep, 0) {
        Some(e) => {
            let x = t.take(e);
            let y = t.skip(e + 1);
            if d > e {
                let d2 = d - e - 1;
                assert(t.take(d) =~= x.push(sep) + y.take(d2));
                lemma_tbe_after(x.push(sep), y.take(d2));
                assert(t.skip(d) =~= y.skip(d2));
                assert(trim_before(t, d) =~= x.push(sep) + trim_before(y, d2));
                lemma_trim_before_clean(y, sep, d2);
                lemma_tc_split(x, sep, trim_before(y, d2));
            } else {
                assert(d < e);
                lemma_component_trim_before(x, d);
                assert(t.take(d) =~= x.take(d));
                assert(trim_before(t, d) =~= trim_before(x, d).push(sep) + y);
                let x2 = trim_before(x, d);
                lemma_tbe_is_prefix(x.take(d));
                let j = choose|j: int| 0 <= j <= x.take(d).len() && trim_blank_end(x.take(d))
                    == x.take(d).take(j);
                assert forall|k: int| 0 <= k < x2.len() implies x2[k] != sep by {
                    if k < j {
                        assert(x2[k] == x[k]);
                    } else {
                        assert(x2[k] == x[d + k - j]);
                    }
                }
                lemma_tc_split(x2, sep, y);
            }
        },
        None => {
            lemma_component_trim_before(t, d);
            let t2 = trim_before(t, d);
            lemma_tbe_is_prefix(t.take(d));
            let j = choose|j: int| 0 <= j <= t.take(d).len() && trim_blank_end(t.take(d))
                == t.take(d).take(j);
            assert forall|k: int| 0 <= k < t2.len() implies t2[k] != sep by {
                if k < j {
                    assert(t2[k] == t[k]);
                } else {
                    assert(t2[k] == t[d + k - j]);
                }
            }
            lemma_tc_split(t2, sep, Seq::empty());
        },
    }
}

proof fn lemma_rfind_facts(s: Seq<char>, c: char, end: int)
    requires
        0 <= end <= s.len(),
    ensures
        rfind_char_before(s, c, end) matches Some(i) ==> 0 <= i < end && s[i] == c && forall|k: int|
            i < k < end ==> s[k] != c,
        rfind_char_before(s, c, end) is None ==> forall|k: int| 0 <= k < end ==> s[k] != c,
    decreases end,
{
    if end > 0 && s[end - 1] != c {
        lemma_rfind_facts(s, c, end - 1);
    }
}

proof fn lemma_rfind_last(s: Seq<char>, c: char, end: int, i: int)
    requires
        0 <= i < end <= s.len(),
        s[i] == c,
        forall|k: int| i < k < end ==> s[k] != c,
    ensures
        rfind_char_before(s, c, end) == Some(i),
    decreases end - i,
{
    if end - 1 > i {
        lemma_rfind_last(s, c, end - 1, i);
    }
}

/// Trimming the components of a path and the blanks before its extension
/// dot, done twice, gives what doing it once gives.
pub proof fn law_trim_path_idempotent(p: Seq<char>)
    ensures
        trimmed_path(trimmed_path(p, '/'), '/') == trimmed_path(p, '/'),
{
    let t = tc(p, '/');
    lemma_tc_fixpoint(p, '/');
    lemma_rfind_facts(t, '.', t.len() as int);
    match rfind_char(t, '.') {
        Some(d) => {
            let r = trim_before(t, d);
            lemma_trim_before_clean(t, '/', d);
            let m = trim_blank_end(t.take(d)).len() as int;
            assert(r[m] == '.');
            assert forall|k: int| m < k < r.len() implies r[k] != '.' by {
                assert(r[k] == t[d + k - m]);
            }
            lemma_rfind_last(r, '.', r.len() as int, m);
            assert(r.take(m) =~= trim_blank_end(t.take(d)));
            assert(r.skip(m) =~= t.skip(d));
            lemma_tbe_is_prefix(t.take(d));
        },
        None => {},
    }
}

} // verus!
