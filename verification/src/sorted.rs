use vstd::prelude::*;
use vstd::std_specs::btree::increasing_seq;
use vstd::std_specs::cmp::OrdSpec;

verus! {

/// A sequence of identifiers in strictly ascending order.
pub open spec fn ascending(ids: Seq<i64>) -> bool {
    forall|i: int, j: int| 0 <= i < j < ids.len() ==> ids[i] < ids[j]
}

/// `ids` lists the members of `members`, each once, in ascending order.
pub open spec fn is_listing(ids: Seq<i64>, members: Set<i64>) -> bool {
    ascending(ids) && ids.to_set() == members
}

/// The order in which a B-tree hands out `i64` keys is strictly ascending.
pub proof fn lemma_increasing_is_ascending(ids: Seq<i64>)
    requires
        increasing_seq(ids),
    ensures
        ascending(ids),
{
    broadcast use vstd::laws_cmp::group_laws_cmp;
    assert(vstd::laws_cmp::obeys_cmp::<i64>());
    vstd::std_specs::btree::axiom_increasing_seq_meaning(ids);
    assert forall|i: int, j: int| 0 <= i < j < ids.len() implies ids[i] < ids[j] by {
        assert(ids[i].cmp_spec(&ids[j]) is Less);
    }
}

/// The order in which a B-tree hands out references to `i64` items is
/// strictly ascending.
pub proof fn lemma_increasing_refs_are_ascending(ids: Seq<&i64>)
    requires
        increasing_seq(ids),
    ensures
        ascending(ids.unref()),
{
    broadcast use vstd::laws_cmp::group_laws_cmp;
    assert(vstd::laws_cmp::obeys_cmp::<&i64>());
    vstd::std_specs::btree::axiom_increasing_seq_meaning(ids);
    assert forall|i: int, j: int| 0 <= i < j < ids.len() implies *ids[i] < *ids[j] by {
        assert(OrdSpec::cmp_spec(&ids[i], &ids[j]) is Less);
    }
}

/// A set has at most one listing.
pub proof fn lemma_listing_is_unique(first: Seq<i64>, second: Seq<i64>, members: Set<i64>)
    requires
        is_listing(first, members),
        is_listing(second, members),
    ensures
        first == second,
    decreases first.len(),
{
    if first.len() == 0 {
        if second.len() > 0 {
            assert(second.contains(second[0]));
            assert(first.to_set().contains(second[0]));
        }
        assert(first =~= second);
    } else {
        let top = first.last();
        assert(first.contains(top));
        assert(second.to_set().contains(top));
        let at = choose|at: int| 0 <= at < second.len() && second[at] == top;
        if at < second.len() - 1 {
            let above = second.last();
            assert(second.contains(above));
            assert(first.to_set().contains(above));
            let back = choose|back: int| 0 <= back < first.len() && first[back] == above;
            assert(first[back] <= top);
        }
        let rest = members.remove(top);
        assert forall|id: i64| first.drop_last().to_set().contains(id) <==> rest.contains(id) by {
            if first.drop_last().contains(id) {
                let i = choose|i: int| 0 <= i < first.drop_last().len() && first.drop_last()[i] == id;
                assert(first[i] == id);
                assert(first.contains(id));
            }
            if rest.contains(id) {
                assert(first.to_set().contains(id));
                let i = choose|i: int| 0 <= i < first.len() && first[i] == id;
                assert(first.drop_last()[i] == id);
            }
        }
        assert forall|id: i64| second.drop_last().to_set().contains(id) <==> rest.contains(id) by {
            if second.drop_last().contains(id) {
                let i = choose|i: int| 0 <= i < second.drop_last().len() && second.drop_last()[i] == id;
                assert(second[i] == id);
                assert(second.contains(id));
            }
            if rest.contains(id) {
                assert(second.to_set().contains(id));
                let i = choose|i: int| 0 <= i < second.len() && second[i] == id;
                assert(second.drop_last()[i] == id);
            }
        }
        assert(first.drop_last().to_set() =~= rest);
        assert(second.drop_last().to_set() =~= rest);
        lemma_listing_is_unique(first.drop_last(), second.drop_last(), rest);
        assert(first =~= first.drop_last().push(top));
        assert(second =~= second.drop_last().push(top));
    }
}

/// What is left of an ascending sequence when some of its items are taken
/// out is ascending, and holds the items that were kept.
pub proof fn lemma_filter_keeps_order(ids: Seq<i64>, keep: spec_fn(i64) -> bool)
    requires
        ascending(ids),
    ensures
        ascending(ids.filter(keep)),
        forall|id: i64| ids.filter(keep).contains(id) <==> ids.contains(id) && keep(id),
    decreases ids.len(),
{
    reveal(Seq::filter);
    if ids.len() > 0 {
        let rest = ids.drop_last();
        let top = ids.last();
        lemma_filter_keeps_order(rest, keep);
        let kept = rest.filter(keep);
        assert forall|id: i64| kept.contains(id) implies id < top by {
            assert(rest.contains(id));
            let i = choose|i: int| 0 <= i < rest.len() && rest[i] == id;
            assert(ids[i] == id);
        }
        assert forall|id: i64| ids.filter(keep).contains(id) <==> ids.contains(id) && keep(id) by {
            if ids.filter(keep).contains(id) {
                let i = choose|i: int| 0 <= i < ids.filter(keep).len() && ids.filter(keep)[i] == id;
                if i < kept.len() {
                    assert(kept[i] == id);
                    assert(kept.contains(id));
                    assert(rest.contains(id) && keep(id));
                    let j = choose|j: int| 0 <= j < rest.len() && rest[j] == id;
                    assert(ids[j] == id);
                } else {
                    assert(ids[ids.len() - 1] == id);
                }
            }
            if ids.contains(id) && keep(id) {
                let i = choose|i: int| 0 <= i < ids.len() && ids[i] == id;
                if i < rest.len() {
                    assert(rest[i] == id);
                    assert(rest.contains(id));
                    let j = choose|j: int| 0 <= j < kept.len() && kept[j] == id;
                    assert(ids.filter(keep)[j] == id);
                } else {
                    assert(ids.filter(keep)[kept.len() as int] == id);
                }
            }
        }
        assert forall|i: int, j: int| 0 <= i < j < ids.filter(keep).len() implies ids.filter(keep)[i]
            < ids.filter(keep)[j] by {
            if j < kept.len() {
                assert(kept[i] < kept[j]);
            } else {
                assert(kept.contains(kept[i]));
            }
        }
    }
}

} // verus!
