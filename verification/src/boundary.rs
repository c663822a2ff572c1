use vstd::prelude::*;
use vstd::std_specs::iter::IteratorSpec;
use std::collections::BTreeMap;
use std::collections::BTreeSet;
use crate::attributes::attribute_set;
use crate::batch::BatchedTransaction;
use crate::batch::changesets;
use crate::batch::lemma_keys_list_domain;
use crate::observer::Subscription;
use crate::observer::TxObservationService;
use crate::observer::TxObserver;
use crate::observer::distinct_keys;
use crate::observer::released;
use crate::observer::with_subscription;
use crate::observer::without_key;
use crate::sorted::is_listing;
use crate::sorted::lemma_increasing_refs_are_ascending;

verus! {

/// `Vec::into_boxed_slice` of std: the box holds the vector's items, in the
/// vector's order.
#[verifier::external_body]
fn into_boxed_slice<T>(items: Vec<T>) -> (boxed: Box<[T]>)
    ensures
        boxed@ == items@,
{
    items.into_boxed_slice()
}

/// The attributes of one changeset, laid out for a caller on the other side
/// of the boundary: an array and its count.
#[derive(Debug)]
pub struct AttributeList {
    pub attributes: Box<[i64]>,
    pub len: usize,
}

impl View for AttributeList {
    type V = Seq<i64>;

    open spec fn view(&self) -> Seq<i64> {
        self.attributes@
    }
}

impl AttributeList {
    /// The count says how many attributes the array holds.
    pub open spec fn wf(&self) -> bool {
        self.len == self.attributes@.len()
    }

    /// Lays out a changeset: its attributes in ascending order, each once.
    pub fn new(changes: &BTreeSet<i64>) -> (list: AttributeList)
        ensures
            list.wf(),
            is_listing(list@, changes@),
    {
        let mut attributes: Vec<i64> = Vec::new();
        let ghost raw: Seq<&i64> = changes.iter().remaining();
        let ghost items: Seq<i64> = raw.unref();
        for x in it: changes.iter()
            invariant
                it.seq() == raw,
                items == raw.unref(),
                items.to_set() == changes@,
                vstd::std_specs::btree::increasing_seq(raw),
                attributes@ == items.take(it.index() as int),
        {
            attributes.push(*x);
            assert(attributes@ =~= items.take(it.index() + 1));
        }
        proof {
            assert(items.take(items.len() as int) =~= items);
            lemma_increasing_refs_are_ascending(raw);
        }
        let len = attributes.len();
        AttributeList { attributes: into_boxed_slice(attributes), len }
    }
}

impl Clone for AttributeList {
    fn clone(&self) -> (copy: Self)
        ensures
            copy@ == self@,
            copy.len == self.len,
    {
        let mut attributes: Vec<i64> = Vec::new();
        let mut i: usize = 0;
        while i < self.attributes.len()
            invariant
                0 <= i <= self.attributes@.len(),
                attributes@ == self.attributes@.take(i as int),
            decreases self.attributes@.len() - i,
        {
            attributes.push(self.attributes[i]);
            assert(attributes@ =~= self.attributes@.take(i + 1));
            i += 1;
        }
        assert(self.attributes@.take(self.attributes@.len() as int) =~= self.attributes@);
        AttributeList { attributes: into_boxed_slice(attributes), len: self.len }
    }
}

/// One transaction of a notification, laid out for a caller on the other
/// side of the boundary.
#[derive(Debug)]
pub struct ExternTxReport {
    pub txid: i64,
    pub changes: AttributeList,
}

impl View for ExternTxReport {
    type V = (i64, Seq<i64>);

    open spec fn view(&self) -> (i64, Seq<i64>) {
        (self.txid, self.changes@)
    }
}

impl ExternTxReport {
    /// The count of the changes says how many attributes their array holds.
    pub open spec fn wf(&self) -> bool {
        self.changes.wf()
    }

    /// Lays out one transaction: its id and its changeset.
    pub fn new(txid: i64, changes: &BTreeSet<i64>) -> (report: ExternTxReport)
        ensures
            report.wf(),
            report.txid == txid,
            is_listing(report.changes@, changes@),
    {
        ExternTxReport { txid, changes: AttributeList::new(changes) }
    }
}

impl Clone for ExternTxReport {
    fn clone(&self) -> (copy: Self)
        ensures
            copy@ == self@,
            copy.changes.len == self.changes.len,
    {
        ExternTxReport { txid: self.txid, changes: self.changes.clone() }
    }
}

/// A whole notification, laid out for a caller on the other side of the
/// boundary: an array of transactions and its count.
#[derive(Debug)]
pub struct ExternTxReportList {
    pub reports: Box<[ExternTxReport]>,
    pub len: usize,
}

impl View for ExternTxReportList {
    type V = Seq<(i64, Seq<i64>)>;

    open spec fn view(&self) -> Seq<(i64, Seq<i64>)> {
        self.reports@.map_values(|r: ExternTxReport| r@)
    }
}

/// `reports` lays out `batch`: its transactions in ascending order of their
/// ids, each once, and for each of them its attributes in ascending order,
/// each once.
pub open spec fn lays_out(reports: Seq<(i64, Seq<i64>)>, batch: Map<i64, Set<i64>>) -> bool {
    &&& is_listing(reports.map_values(|r: (i64, Seq<i64>)| r.0), batch.dom())
    &&& forall|i: int| 0 <= i < reports.len() ==> is_listing((#[trigger] reports[i]).1, batch[reports[i].0])
}

impl ExternTxReportList {
    /// Each count says how many items its array holds.
    pub open spec fn wf(&self) -> bool {
        &&& self.len == self.reports@.len()
        &&& forall|i: int| 0 <= i < self.reports@.len() ==> (#[trigger] self.reports@[i]).wf()
    }

    /// Lays out a batch.
    pub fn new(batch: &BatchedTransaction) -> (list: ExternTxReportList)
        ensures
            list.wf(),
            lays_out(list@, batch@),
    {
        let inner: &BTreeMap<i64, BTreeSet<i64>> = batch.get();
        let mut reports: Vec<ExternTxReport> = Vec::new();
        let ghost raw = inner.iter().remaining();
        let ghost keys = raw.map_values(|kv: (&i64, &BTreeSet<i64>)| *kv.0);
        for kv in it: inner.iter()
            invariant
                it.seq() == raw,
                keys == raw.map_values(|kv: (&i64, &BTreeSet<i64>)| *kv.0),
                vstd::std_specs::btree::increasing_seq(keys),
                raw.unref().to_set() == inner@.kv_pairs(),
                changesets(inner@) == batch@,
                forall|j: int|
                    0 <= j < raw.len() ==> inner@.contains_key(*(#[trigger] raw[j]).0)
                        && inner@[*raw[j].0] == *raw[j].1,
                reports@.len() == it.index(),
                forall|j: int|
                    0 <= j < reports@.len() ==> {
                        &&& (#[trigger] reports@[j]).wf()
                        &&& reports@[j].txid == keys[j]
                        &&& is_listing(reports@[j].changes@, batch@[keys[j]])
                    },
        {
            let report = ExternTxReport::new(*kv.0, kv.1);
            proof {
                let j = it.index() as int;
                assert(keys[j] == *raw[j].0);
                assert(batch@[keys[j]] == (*raw[j].1)@);
            }
            reports.push(report);
        }
        let len = reports.len();
        let list = ExternTxReportList { reports: into_boxed_slice(reports), len };
        proof {
            assert(list@.map_values(|r: (i64, Seq<i64>)| r.0) =~= keys);
            assert(keys =~= raw.unref().map_values(|p: (i64, BTreeSet<i64>)| p.0));
            lemma_keys_list_domain(inner@, raw.unref(), keys);
        }
        list
    }
}

/// Hands out a copy of the transaction at `index` of a notification.
pub fn tx_report_list_entry_at(tx_report_list: &ExternTxReportList, index: i32) -> (report: ExternTxReport)
    requires
        0 <= index < tx_report_list@.len(),
    ensures
        report@ == tx_report_list@[index as int],
        report.changes.len == tx_report_list.reports@[index as int].changes.len,
{
    let index = index as usize;
    tx_report_list.reports[index].clone()
}

/// Hands out the attribute at `index` of a changeset.
pub fn changelist_entry_at(attribute_list: &AttributeList, index: i32) -> (attribute: i64)
    requires
        0 <= index < attribute_list@.len(),
    ensures
        attribute == attribute_list@[index as int],
{
    let index = index as usize;
    attribute_list.attributes[index]
}

/// Lays out `batch` for the other side of the boundary and hands it, with
/// the key, to `callback`, which owns it from then on.
pub fn notify_extern<C: Fn(&String, ExternTxReportList)>(callback: &C, key: &String, batch: &BatchedTransaction)
    requires
        forall|reports: ExternTxReportList| #[trigger] call_requires(*callback, (key, reports)),
    ensures
        exists|reports: ExternTxReportList| #[trigger]
            call_ensures(*callback, (key, reports), ()) && reports.wf() && lays_out(
                reports@,
                batch@,
            ),
{
    let reports = ExternTxReportList::new(batch);
    callback(key, reports)
}

/// Subscribes `callback` under `key` to the attributes that `attributes`
/// holds. A subscription already held under `key` is replaced, and its
/// observer is handed back.
pub fn store_register_observer<F: Fn(&String, &BatchedTransaction)>(
    store: &mut TxObservationService<F>,
    key: String,
    attributes: &[i64],
    callback: F,
) -> (freed: Option<TxObserver<F>>)
    ensures
        final(store)@ == with_subscription(
            old(store)@,
            (Subscription {
                key: key@,
                filter: attributes@.to_set(),
                observer: (TxObserver { notify_fn: callback }),
            }),
        ),
        freed == released(old(store)@, key@),
        distinct_keys(final(store)@),
{
    let attribute_set = attribute_set(attributes);
    let tx_observer = TxObserver::new(callback);
    store.register(tx_observer, key, attribute_set)
}

/// Ends the subscription held under `key`, if there is one, and hands back
/// its observer.
pub fn store_unregister_observer<F>(store: &mut TxObservationService<F>, key: &String) -> (freed: Option<TxObserver<F>>)
    ensures
        final(store)@ == without_key(old(store)@, key@),
        freed == released(old(store)@, key@),
        distinct_keys(final(store)@),
{
    store.deregister(key)
}

} // verus!
