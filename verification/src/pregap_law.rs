//! What applying pregap entries leaves, in closed form.
use vstd::prelude::*;

use crate::{apply_pregap_spec, parse_pregap_spec, PregapAction};

verus! {

/// The index of the first entry from `i` on that does not parse, or the
/// number of entries when all do.
pub open spec fn first_bad_entry(entries: Seq<Seq<char>>, i: int) -> int
    decreases entries.len() - i,
{
    if i < 0 || i >= entries.len() {
        entries.len() as int
    } else if parse_pregap_spec(entries[i]) is Err {
        i
    } else {
        first_bad_entry(entries, i + 1)
    }
}

/// The actions after the entries that parse are applied in order.
pub open spec fn apply_parsed(p: Seq<PregapAction>, entries: Seq<Seq<char>>) -> Seq<PregapAction>
    decreases entries.len(),
{
    if entries.len() == 0 {
        p
    } else {
        let q = apply_parsed(p, entries.drop_last());
        match parse_pregap_spec(entries.last()) {
            Ok((idx, a)) => q.update(idx as int, a),
            Err(_) => q,
        }
    }
}

proof fn lemma_first_bad_bounds(entries: Seq<Seq<char>>, i: int)
    requires
        0 <= i <= entries.len(),
    ensures
        i <= first_bad_entry(entries, i) <= entries.len(),
        forall|j: int| i <= j < first_bad_entry(entries, i) ==> parse_pregap_spec(entries[j]) is Ok,
        first_bad_entry(entries, i) < entries.len() ==> parse_pregap_spec(
            entries[first_bad_entry(entries, i)],
        ) is Err,
    decreases entries.len() - i,
{
    if i < entries.len() && parse_pregap_spec(entries[i]) is Ok {
        lemma_first_bad_bounds(entries, i + 1);
    }
}

proof fn lemma_apply_from(p: Seq<PregapAction>, entries: Seq<Seq<char>>, i: int)
    requires
        0 <= i <= first_bad_entry(entries, 0),
    ensures
        apply_pregap_spec(apply_parsed(p, entries.take(i)), entries, i) == (
            apply_parsed(p, entries.take(first_bad_entry(entries, 0))),
            if first_bad_entry(entries, 0) < entries.len() {
                Some(parse_pregap_spec(entries[first_bad_entry(entries, 0)])->Err_0)
            } else {
                None
            },
        ),
    decreases entries.len() - i,
{
    lemma_first_bad_bounds(entries, 0);
    let k = first_bad_entry(entries, 0);
    if i < k {
        assert(entries.take(i + 1).drop_last() =~= entries.take(i));
        assert(entries.take(i + 1).last() == entries[i]);
        lemma_apply_from(p, entries, i + 1);
    }
}

/// Applying pregap entries applies, in order, every entry before the first
/// one that does not parse, leaves every other slot as it was, and fails
/// with that entry's error; without such an entry it applies them all and
/// succeeds.
pub proof fn law_pregap_entries_closed_form(p: Seq<PregapAction>, entries: Seq<Seq<char>>)
    ensures
        apply_pregap_spec(p, entries, 0) == (
            apply_parsed(p, entries.take(first_bad_entry(entries, 0))),
            if first_bad_entry(entries, 0) < entries.len() {
                Some(parse_pregap_spec(entries[first_bad_entry(entries, 0)])->Err_0)
            } else {
                None
            },
        ),
{
    lemma_first_bad_bounds(entries, 0);
    assert(entries.take(0) =~= Seq::<Seq<char>>::empty());
    lemma_apply_from(p, entries, 0);
}

} // verus!
