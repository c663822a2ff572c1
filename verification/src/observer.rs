use vstd::prelude::*;
use std::collections::BTreeSet;
use crate::batch::BatchedTransaction;
use crate::batch::filtered;

verus! {

/// A notification sink: the callable that receives, for one subscription, the
/// key it was registered under and the part of a commit that concerns it.
pub struct TxObserver<F> {
    pub notify_fn: F,
}

impl<F: Fn(&String, &BatchedTransaction)> TxObserver<F> {
    /// Whether the sink may be called with every key and every batch.
    pub open spec fn accepts_all(&self) -> bool {
        forall|key: &String, reports: &BatchedTransaction| #[trigger]
            call_requires(self.notify_fn, (key, reports))
    }

    /// An observer that hands its notifications to `notify_fn`.
    pub fn new(notify_fn: F) -> (observer: Self)
        ensures
            observer == (TxObserver { notify_fn }),
    {
        TxObserver { notify_fn }
    }

    /// Calls the sink once with `key` and `reports`.
    pub fn notify(&self, key: &String, reports: &BatchedTransaction)
        requires
            call_requires(self.notify_fn, (key, reports)),
        ensures
            call_ensures(self.notify_fn, (key, reports), ()),
    {
        (self.notify_fn)(key, reports)
    }
}

/// One entry of the registry, as contracts see it.
pub struct Subscription<F> {
    pub key: Seq<char>,
    pub filter: Set<i64>,
    pub observer: TxObserver<F>,
}

/// No two subscriptions share a key.
pub open spec fn distinct_keys<F>(subs: Seq<Subscription<F>>) -> bool {
    forall|i: int, j: int| 0 <= i < j < subs.len() ==> subs[i].key != subs[j].key
}

/// Some subscription is held under `key`.
pub open spec fn registered<F>(subs: Seq<Subscription<F>>, key: Seq<char>) -> bool {
    exists|i: int| 0 <= i < subs.len() && #[trigger] subs[i].key == key
}

/// Where the subscription under `key` stands, if there is one.
pub open spec fn position<F>(subs: Seq<Subscription<F>>, key: Seq<char>) -> int {
    choose|i: int| 0 <= i < subs.len() && #[trigger] subs[i].key == key
}

/// The registry after `sub` was installed: in the place of the subscription
/// that held its key, or else at the end.
pub open spec fn with_subscription<F>(subs: Seq<Subscription<F>>, sub: Subscription<F>) -> Seq<
    Subscription<F>,
> {
    if registered(subs, sub.key) {
        subs.update(position(subs, sub.key), sub)
    } else {
        subs.push(sub)
    }
}

/// The registry after the subscription under `key`, if any, was taken out.
pub open spec fn without_key<F>(subs: Seq<Subscription<F>>, key: Seq<char>) -> Seq<
    Subscription<F>,
> {
    if registered(subs, key) {
        subs.remove(position(subs, key))
    } else {
        subs
    }
}

/// The observer that leaves the registry when `key` is registered anew or
/// deregistered: the one held under `key`, if any.
pub open spec fn released<F>(subs: Seq<Subscription<F>>, key: Seq<char>) -> Option<TxObserver<F>> {
    if registered(subs, key) {
        Some(subs[position(subs, key)].observer)
    } else {
        None
    }
}

/// What one sink is handed for one commit, as contracts see it.
pub struct NotificationView {
    pub key: Seq<char>,
    pub reports: Map<i64, Set<i64>>,
}

/// What one sink is handed for one commit: the key of its subscription and
/// the transactions of the batch that touch its filter, each cut down to the
/// filter.
#[derive(Debug)]
pub struct Notification {
    pub key: String,
    pub reports: BatchedTransaction,
}

impl View for Notification {
    type V = NotificationView;

    open spec fn view(&self) -> NotificationView {
        NotificationView { key: self.key@, reports: self.reports@ }
    }
}

/// Whether a commit of `batch` concerns `sub`: some transaction of the batch
/// touches an attribute of its filter.
pub open spec fn concerns<F>(batch: Map<i64, Set<i64>>, sub: Subscription<F>) -> bool {
    !filtered(batch, sub.filter).is_empty()
}

/// What `sub` is handed for a commit of `batch`.
pub open spec fn notification_for<F>(batch: Map<i64, Set<i64>>, sub: Subscription<F>) -> NotificationView {
    NotificationView { key: sub.key, reports: filtered(batch, sub.filter) }
}

/// The notifications that a commit gives rise to, in the order of the
/// registry: none for an absent batch; else one for each subscription that
/// the batch concerns.
pub open spec fn notifications<F>(
    subs: Seq<Subscription<F>>,
    batch: Option<Map<i64, Set<i64>>>,
) -> Seq<NotificationView> {
    match batch {
        None => Seq::empty(),
        Some(b) => subs.filter(|sub: Subscription<F>| concerns(b, sub)).map_values(
            |sub: Subscription<F>| notification_for(b, sub),
        ),
    }
}

/// The batch as contracts see it.
pub open spec fn batch_view(batch: Option<BatchedTransaction>) -> Option<Map<i64, Set<i64>>> {
    match batch {
        None => None,
        Some(b) => Some(b@),
    }
}

struct Entry<F> {
    key: String,
    attributes: BTreeSet<i64>,
    observer: TxObserver<F>,
}

impl<F> Entry<F> {
    spec fn model(self) -> Subscription<F> {
        Subscription { key: self.key@, filter: self.attributes@, observer: self.observer }
    }
}

/// The registry of subscriptions, in the order in which their keys were first
/// registered.
pub struct TxObservationService<F> {
    observers: Vec<Entry<F>>,
}

impl<F> View for TxObservationService<F> {
    type V = Seq<Subscription<F>>;

    closed spec fn view(&self) -> Seq<Subscription<F>> {
        self.observers@.map_values(|e: Entry<F>| e.model())
    }
}

impl<F> TxObservationService<F> {
    /// The registry holds at most one subscription per key.
    #[verifier::type_invariant]
    spec fn keys_are_distinct(self) -> bool {
        distinct_keys(self@)
    }

    /// A registry without subscriptions.
    pub fn new() -> (service: Self)
        ensures
            service@ == Seq::<Subscription<F>>::empty(),
    {
        let service = TxObservationService { observers: Vec::new() };
        assert(service@ =~= Seq::<Subscription<F>>::empty());
        service
    }

    /// The first place at which a subscription is held under `key`.
    fn find(&self, key: &String) -> (found: Option<usize>)
        ensures
            match found {
                Some(i) => i < self@.len() && self@[i as int].key == key@,
                None => !registered(self@, key@),
            },
    {
        let mut i: usize = 0;
        while i < self.observers.len()
            invariant
                0 <= i <= self.observers.len(),
                self@.len() == self.observers.len(),
                forall|j: int| 0 <= j < i ==> (#[trigger] self@[j]).key != key@,
            decreases self.observers.len() - i,
        {
            if self.observers[i].key == *key {
                assert(self@[i as int].key == key@);
                return Some(i);
            }
            i += 1;
        }
        None
    }

    /// Whether a subscription is held under `key`.
    pub fn is_registered(&self, key: &String) -> (found: bool)
        ensures
            found == registered(self@, key@),
    {
        self.find(key).is_some()
    }

    /// Installs the subscription `(key, attributes, observer)`. A subscription
    /// already held under `key` is replaced where it stands, and its observer
    /// is handed back: it has left the registry and is the caller's to drop.
    pub fn register(&mut self, observer: TxObserver<F>, key: String, attributes: BTreeSet<i64>) -> (freed: Option<TxObserver<F>>)
        ensures
            final(self)@ == with_subscription(
                old(self)@,
                (Subscription { key: key@, filter: attributes@, observer }),
            ),
            freed == released(old(self)@, key@),
            distinct_keys(final(self)@),
    {
        proof {
            use_type_invariant(&*self);
        }
        let ghost sub = Subscription { key: key@, filter: attributes@, observer };
        let found = self.find(&key);
        let mut observers = self.take_observers();
        let mut entry = Entry { key, attributes, observer };
        let freed = match found {
            Some(i) => {
                assert(position(old(self)@, key@) == i);
                observers.set_and_swap(i, &mut entry);
                Some(entry.observer)
            },
            None => {
                observers.push(entry);
                None
            },
        };
        let ghost after = observers@.map_values(|e: Entry<F>| e.model());
        assert(after =~= with_subscription(old(self)@, sub));
        *self = TxObservationService { observers };
        freed
    }

    /// Takes out the subscription held under `key`, if there is one, and hands
    /// back its observer. Without one the registry stays as it is.
    pub fn deregister(&mut self, key: &String) -> (freed: Option<TxObserver<F>>)
        ensures
            final(self)@ == without_key(old(self)@, key@),
            freed == released(old(self)@, key@),
            distinct_keys(final(self)@),
    {
        proof {
            use_type_invariant(&*self);
        }
        match self.find(key) {
            Some(i) => {
                assert(position(old(self)@, key@) == i);
                let mut observers = self.take_observers();
                let entry = observers.remove(i);
                let ghost after = observers@.map_values(|e: Entry<F>| e.model());
                assert(after =~= without_key(old(self)@, key@));
                *self = TxObservationService { observers };
                Some(entry.observer)
            },
            None => None,
        }
    }

    /// Empties the registry and hands out what it held.
    fn take_observers(&mut self) -> (observers: Vec<Entry<F>>)
        ensures
            observers@.map_values(|e: Entry<F>| e.model()) == old(self)@,
            final(self)@ == Seq::<Subscription<F>>::empty(),
    {
        let mut taken = TxObservationService { observers: Vec::new() };
        assert(taken@ =~= Seq::<Subscription<F>>::empty());
        core::mem::swap(self, &mut taken);
        taken.observers
    }

    /// What the subscription at `i` is owed for a commit of `batch`, if anything.
    fn report_for(&self, i: usize, batch: &BatchedTransaction) -> (note: Option<Notification>)
        requires
            i < self@.len(),
        ensures
            note is Some <==> concerns(batch@, self@[i as int]),
            note matches Some(n) ==> n@ == notification_for(batch@, self@[i as int]),
    {
        let entry = &self.observers[i];
        let reports = batch.applicable_to(&entry.attributes);
        if reports.is_empty() {
            None
        } else {
            Some(Notification { key: entry.key.clone(), reports })
        }
    }

    /// Works out, without calling any sink, what a commit of `batch` owes to
    /// which subscription.
    pub fn applicable_reports(&self, batch: &Option<BatchedTransaction>) -> (due: Vec<Notification>)
        ensures
            due@.map_values(|n: Notification| n@) == notifications(self@, batch_view(*batch)),
            distinct_keys(self@),
    {
        proof {
            use_type_invariant(self);
        }
        let mut due: Vec<Notification> = Vec::new();
        match batch {
            None => {
                assert(due@.map_values(|n: Notification| n@) =~= Seq::<NotificationView>::empty());
            },
            Some(b) => {
                let ghost pred = |sub: Subscription<F>| concerns(b@, sub);
                let ghost make = |sub: Subscription<F>| notification_for(b@, sub);
                assert(self@.take(0) =~= Seq::<Subscription<F>>::empty());
                assert(due@.map_values(|n: Notification| n@) =~= self@.take(0).filter(pred).map_values(make));
                let mut i: usize = 0;
                while i < self.observers.len()
                    invariant
                        0 <= i <= self.observers.len(),
                        self@.len() == self.observers.len(),
                        pred == |sub: Subscription<F>| concerns(b@, sub),
                        make == |sub: Subscription<F>| notification_for(b@, sub),
                        due@.map_values(|n: Notification| n@) == self@.take(i as int).filter(
                            pred,
                        ).map_values(make),
                    decreases self.observers.len() - i,
                {
                    let ghost before = due@;
                    let ghost sub = self@[i as int];
                    proof {
                        assert(self@.take(i + 1) =~= self@.take(i as int).push(sub));
                        self@.take(i as int).lemma_filter_push(sub, pred);
                    }
                    if let Some(note) = self.report_for(i, b) {
                        proof {
                            before.lemma_push_map_commute(|n: Notification| n@, note);
                            self@.take(i as int).filter(pred).lemma_push_map_commute(make, sub);
                        }
                        due.push(note);
                    }
                    i += 1;
                }
                assert(self@.take(self@.len() as int) =~= self@);
            },
        }
        due
    }

    /// The number of subscriptions.
    pub fn len(&self) -> (n: usize)
        ensures
            n == self@.len(),
    {
        self.observers.len()
    }
}

impl<F> Default for TxObservationService<F> {
    fn default() -> (service: Self)
        ensures
            service@ == Seq::<Subscription<F>>::empty(),
    {
        TxObservationService::new()
    }
}

impl<F: Fn(&String, &BatchedTransaction)> TxObservationService<F> {
    /// Whether every sink of the registry may be called with every key and
    /// every batch.
    pub open spec fn sinks_accept_all(&self) -> bool {
        forall|i: int| 0 <= i < self@.len() ==> (#[trigger] self@[i]).observer.accepts_all()
    }

    /// Tells the subscriptions of a commit. For an absent batch no sink is
    /// called. Otherwise each subscription that the batch concerns has its
    /// sink called once, with its key and its part of the batch, in the order
    /// of the registry; the others are not called. Returns what was
    /// delivered, in the order of delivery.
    pub fn transaction_did_commit(&self, batch: &Option<BatchedTransaction>) -> (delivered: Vec<Notification>)
        requires
            self.sinks_accept_all(),
        ensures
            delivered@.map_values(|n: Notification| n@) == notifications(self@, batch_view(*batch)),
            distinct_keys(self@),
            forall|k: int|
                0 <= k < delivered.len() ==> registered(self@, (#[trigger] delivered[k]).key@)
                    && call_ensures(
                    self@[position(self@, delivered[k].key@)].observer.notify_fn,
                    (&delivered[k].key, &delivered[k].reports),
                    (),
                ),
    {
        proof {
            use_type_invariant(self);
        }
        let mut delivered: Vec<Notification> = Vec::new();
        match batch {
            None => {
                assert(delivered@.map_values(|n: Notification| n@) =~= Seq::<NotificationView>::empty());
            },
            Some(b) => {
                let ghost pred = |sub: Subscription<F>| concerns(b@, sub);
                let ghost make = |sub: Subscription<F>| notification_for(b@, sub);
                assert(self@.take(0) =~= Seq::<Subscription<F>>::empty());
                assert(delivered@.map_values(|n: Notification| n@) =~= self@.take(0).filter(pred).map_values(make));
                let mut i: usize = 0;
                while i < self.observers.len()
                    invariant
                        0 <= i <= self.observers.len(),
                        self@.len() == self.observers.len(),
                        distinct_keys(self@),
                        self.sinks_accept_all(),
                        pred == |sub: Subscription<F>| concerns(b@, sub),
                        make == |sub: Subscription<F>| notification_for(b@, sub),
                        delivered@.map_values(|n: Notification| n@) == self@.take(i as int).filter(
                            pred,
                        ).map_values(make),
                        forall|k: int|
                            0 <= k < delivered.len() ==> registered(
                                self@,
                                (#[trigger] delivered[k]).key@,
                            ) && call_ensures(
                                self@[position(self@, delivered[k].key@)].observer.notify_fn,
                                (&delivered[k].key, &delivered[k].reports),
                                (),
                            ),
                    decreases self.observers.len() - i,
                {
                    let ghost before = delivered@;
                    let ghost sub = self@[i as int];
                    proof {
                        assert(self@.take(i + 1) =~= self@.take(i as int).push(sub));
                        self@.take(i as int).lemma_filter_push(sub, pred);
                    }
                    if let Some(note) = self.report_for(i, b) {
                        proof {
                            before.lemma_push_map_commute(|n: Notification| n@, note);
                            self@.take(i as int).filter(pred).lemma_push_map_commute(make, sub);
                            assert(sub.observer.accepts_all());
                            assert(sub.key == note.key@);
                            assert(position(self@, note.key@) == i);
                        }
                        self.observers[i].observer.notify(&note.key, &note.reports);
                        delivered.push(note);
                    }
                    i += 1;
                }
                assert(self@.take(self@.len() as int) =~= self@);
            },
        }
        delivered
    }
}

} // verus!
