use vstd::prelude::*;
use std::collections::BTreeSet;
use vstd::std_specs::iter::IteratorSpec;

verus! {

/// The attributes that two sets have in common.
pub fn intersection(a: &BTreeSet<i64>, b: &BTreeSet<i64>) -> (out: BTreeSet<i64>)
    ensures
        out@ == a@.intersect(b@),
{
    let mut out: BTreeSet<i64> = BTreeSet::new();
    let ghost items: Seq<i64> = a.iter().remaining().unref();
    for x in it: a.iter()
        invariant
            it.seq().unref() == items,
            items.to_set() == a@,
            out@ == items.take(it.index() as int).to_set().intersect(b@),
    {
        proof {
            let i = it.index() as int;
            assert(items.take(i + 1) =~= items.take(i).push(items[i]));
            items.take(i).lemma_push_to_set_commute(items[i]);
        }
        if b.contains(x) {
            out.insert(*x);
        }
        assert(out@ =~= items.take(it.index() + 1).to_set().intersect(b@));
    }
    proof {
        assert(items.take(items.len() as int) =~= items);
    }
    out
}

/// The set of the identifiers that `ids` holds, however often and in
/// whatever order it holds them.
pub fn attribute_set(ids: &[i64]) -> (set: BTreeSet<i64>)
    ensures
        set@ == ids@.to_set(),
{
    let mut set: BTreeSet<i64> = BTreeSet::new();
    let mut i: usize = 0;
    while i < ids.len()
        invariant
            0 <= i <= ids@.len(),
            set@ == ids@.take(i as int).to_set(),
        decreases ids@.len() - i,
    {
        proof {
            assert(ids@.take(i + 1) =~= ids@.take(i as int).push(ids@[i as int]));
            ids@.take(i as int).lemma_push_to_set_commute(ids@[i as int]);
        }
        set.insert(ids[i]);
        i += 1;
    }
    assert(ids@.take(ids@.len() as int) =~= ids@);
    set
}

} // verus!
