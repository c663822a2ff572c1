use vstd::prelude::*;
use std::collections::BTreeMap;
use std::collections::BTreeSet;
use vstd::std_specs::iter::IteratorSpec;
use crate::attributes::intersection;
use crate::sorted::is_listing;
use crate::sorted::lemma_increasing_is_ascending;

verus! {

/// The changesets of a map of transactions, each as the set that it holds.
pub open spec fn changesets(m: Map<i64, BTreeSet<i64>>) -> Map<i64, Set<i64>> {
    m.map_values(|s: BTreeSet<i64>| s@)
}

/// The part of a batch that concerns a filter: the transactions whose
/// changeset and the filter have an attribute in common, each with what the
/// two have in common.
pub open spec fn filtered(batch: Map<i64, Set<i64>>, filter: Set<i64>) -> Map<i64, Set<i64>> {
    Map::new(
        |tx: i64| batch.contains_key(tx) && !batch[tx].disjoint(filter),
        |tx: i64| batch[tx].intersect(filter),
    )
}

/// The keys of a map, in the ascending order in which a B-tree hands out its
/// entries, list the map's domain.
pub proof fn lemma_keys_list_domain(
    m: Map<i64, BTreeSet<i64>>,
    entries: Seq<(i64, BTreeSet<i64>)>,
    keys: Seq<i64>,
)
    requires
        entries.to_set() == m.kv_pairs(),
        keys == entries.map_values(|p: (i64, BTreeSet<i64>)| p.0),
        vstd::std_specs::btree::increasing_seq(keys),
    ensures
        is_listing(keys, changesets(m).dom()),
{
    lemma_increasing_is_ascending(keys);
    assert forall|tx: i64| keys.to_set().contains(tx) <==> changesets(m).dom().contains(tx) by {
        if keys.contains(tx) {
            let i = choose|i: int| 0 <= i < keys.len() && keys[i] == tx;
            assert(entries.to_set().contains(entries[i]));
        }
        if m.dom().contains(tx) {
            let pair = (tx, m[tx]);
            assert(m.kv_pairs().contains(pair));
            assert(entries.contains(pair));
            let i = choose|i: int| 0 <= i < entries.len() && entries[i] == pair;
            assert(keys[i] == tx);
        }
    }
    assert(keys.to_set() =~= changesets(m).dom());
}

/// The transactions of one commit: for each transaction id the set of the
/// attributes that the transaction changed, in ascending order of the ids.
#[derive(Debug)]
pub struct BatchedTransaction {
    inner: BTreeMap<i64, BTreeSet<i64>>,
}

impl View for BatchedTransaction {
    type V = Map<i64, Set<i64>>;

    closed spec fn view(&self) -> Map<i64, Set<i64>> {
        changesets(self.inner@)
    }
}

impl BatchedTransaction {
    /// A batch without transactions.
    pub fn new() -> (batch: Self)
        ensures
            batch@ == Map::<i64, Set<i64>>::empty(),
    {
        let batch = BatchedTransaction { inner: BTreeMap::new() };
        assert(batch@ =~= Map::<i64, Set<i64>>::empty());
        batch
    }

    /// Adds the transaction `tx_id` with its changeset. A transaction that
    /// the batch already holds under this id is replaced.
    pub fn add_transact(&mut self, tx_id: i64, changes: BTreeSet<i64>)
        ensures
            final(self)@ == old(self)@.insert(tx_id, changes@),
    {
        self.inner.insert(tx_id, changes);
        assert(self@ =~= old(self)@.insert(tx_id, changes@));
    }

    /// The transactions of the batch by their ids.
    pub fn get(&self) -> (inner: &BTreeMap<i64, BTreeSet<i64>>)
        ensures
            changesets(inner@) == self@,
    {
        &self.inner
    }

    /// The part of the batch that concerns `filter`.
    pub fn applicable_to(&self, filter: &BTreeSet<i64>) -> (out: BatchedTransaction)
        ensures
            out@ == filtered(self@, filter@),
    {
        let mut kept: BTreeMap<i64, BTreeSet<i64>> = BTreeMap::new();
        let ghost raw = self.inner.iter().remaining();
        for kv in it: self.inner.iter()
            invariant
                it.seq() == raw,
                raw.unref().to_set() == self.inner@.kv_pairs(),
                forall|j: int|
                    0 <= j < raw.len() ==> self.inner@.contains_key(*(#[trigger] raw[j]).0)
                        && self.inner@[*raw[j].0] == *raw[j].1,
                forall|tx: i64| #[trigger]
                    kept@.contains_key(tx) ==> self.inner@.contains_key(tx)
                        && !self.inner@[tx]@.disjoint(filter@) && kept@[tx]@
                        == self.inner@[tx]@.intersect(filter@),
                forall|j: int|
                    0 <= j < it.index() && !(*(#[trigger] raw[j]).1)@.disjoint(filter@)
                        ==> kept@.contains_key(*raw[j].0),
        {
            let common = intersection(kv.1, filter);
            if !common.is_empty() {
                proof {
                    let witness = common@.choose();
                    assert(common@.contains(witness));
                }
                kept.insert(*kv.0, common);
            } else {
                assert((*kv.1)@.disjoint(filter@)) by {
                    assert forall|a: i64| (*kv.1)@.contains(a) implies !filter@.contains(a) by {
                        if filter@.contains(a) {
                            assert(common@.contains(a));
                        }
                    }
                }
            }
        }
        let out = BatchedTransaction { inner: kept };
        proof {
            assert forall|tx: i64| filtered(self@, filter@).contains_key(tx) implies out@.contains_key(tx) by {
                let pair = (tx, self.inner@[tx]);
                assert(self.inner@.kv_pairs().contains(pair));
                assert(raw.unref().contains(pair));
                let j = choose|j: int| 0 <= j < raw.unref().len() && raw.unref()[j] == pair;
                assert(*raw[j].0 == tx && *raw[j].1 == self.inner@[tx]);
            }
            assert(out@ =~= filtered(self@, filter@));
        }
        out
    }

    /// Whether the batch holds no transaction.
    pub fn is_empty(&self) -> (empty: bool)
        ensures
            empty == self@.is_empty(),
    {
        let empty = self.inner.is_empty();
        assert(self@.dom() =~= self.inner@.dom());
        empty
    }

    /// The ids of the batch's transactions, in ascending order.
    pub fn tx_ids(&self) -> (ids: Vec<i64>)
        ensures
            is_listing(ids@, self@.dom()),
    {
        let mut ids: Vec<i64> = Vec::new();
        let ghost raw = self.inner.iter().remaining();
        let ghost keys = raw.map_values(|kv: (&i64, &BTreeSet<i64>)| *kv.0);
        for kv in it: self.inner.iter()
            invariant
                it.seq() == raw,
                keys == raw.map_values(|kv: (&i64, &BTreeSet<i64>)| *kv.0),
                vstd::std_specs::btree::increasing_seq(keys),
                raw.unref().to_set() == self.inner@.kv_pairs(),
                ids@ == keys.take(it.index() as int),
        {
            ids.push(*kv.0);
            assert(ids@ =~= keys.take(it.index() + 1));
        }
        proof {
            assert(keys.take(keys.len() as int) =~= keys);
            assert(keys =~= raw.unref().map_values(|p: (i64, BTreeSet<i64>)| p.0));
            lemma_keys_list_domain(self.inner@, raw.unref(), keys);
        }
        ids
    }
}

impl Default for BatchedTransaction {
    fn default() -> (batch: Self)
        ensures
            batch@ == Map::<i64, Set<i64>>::empty(),
    {
        BatchedTransaction::new()
    }
}

} // verus!
