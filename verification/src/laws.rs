use vstd::prelude::*;
use crate::batch::filtered;
use crate::observer::NotificationView;
use crate::observer::Subscription;
use crate::observer::concerns;
use crate::observer::distinct_keys;
use crate::observer::notification_for;
use crate::observer::notifications;
use crate::observer::position;
use crate::observer::registered;
use crate::observer::with_subscription;
use crate::observer::without_key;
use crate::sorted::is_listing;
use crate::sorted::lemma_filter_keeps_order;
use crate::sorted::lemma_listing_is_unique;

verus! {

/// A key is registered as soon as a subscription was registered under it.
pub proof fn law_registered_after_register<F>(subs: Seq<Subscription<F>>, sub: Subscription<F>)
    requires
        distinct_keys(subs),
    ensures
        registered(with_subscription(subs, sub), sub.key),
{
    let after = with_subscription(subs, sub);
    if registered(subs, sub.key) {
        assert(after[position(subs, sub.key)].key == sub.key);
    } else {
        assert(after[subs.len() as int].key == sub.key);
    }
}

/// A key is no longer registered as soon as it was deregistered.
pub proof fn law_not_registered_after_deregister<F>(subs: Seq<Subscription<F>>, key: Seq<char>)
    requires
        distinct_keys(subs),
    ensures
        !registered(without_key(subs, key), key),
{
    let after = without_key(subs, key);
    if registered(subs, key) {
        let at = position(subs, key);
        assert forall|i: int| 0 <= i < after.len() implies (#[trigger] after[i]).key != key by {
            if i < at {
                assert(after[i] == subs[i]);
            } else {
                assert(after[i] == subs[i + 1]);
            }
        }
    }
}

/// Registering under a key puts the new filter and the new observer in the
/// place of those that the key had, leaves every other subscription as it
/// was, and never leaves two subscriptions under one key.
pub proof fn law_register_replaces<F>(subs: Seq<Subscription<F>>, sub: Subscription<F>)
    requires
        distinct_keys(subs),
    ensures
        distinct_keys(with_subscription(subs, sub)),
        with_subscription(subs, sub)[position(with_subscription(subs, sub), sub.key)] == sub,
        with_subscription(subs, sub).len() == subs.len() + if registered(subs, sub.key) {
            0int
        } else {
            1int
        },
        forall|key: Seq<char>|
            key != sub.key ==> (registered(with_subscription(subs, sub), key) <==> registered(
                subs,
                key,
            )),
        forall|key: Seq<char>|
            key != sub.key && registered(subs, key) ==> with_subscription(subs, sub)[position(
                with_subscription(subs, sub),
                key,
            )] == subs[position(subs, key)],
{
    let after = with_subscription(subs, sub);
    law_registered_after_register(subs, sub);
    let at = if registered(subs, sub.key) {
        position(subs, sub.key)
    } else {
        subs.len() as int
    };
    assert(after[at] == sub);
    assert forall|i: int, j: int| 0 <= i < j < after.len() implies after[i].key != after[j].key by {
        if i != at && j != at {
            assert(after[i] == subs[i] && after[j] == subs[j]);
        } else if i == at {
            assert(after[j] == subs[j]);
        } else {
            assert(after[i] == subs[i]);
        }
    }
    assert forall|key: Seq<char>| key != sub.key implies (registered(after, key) <==> registered(
        subs,
        key,
    )) by {
        if registered(after, key) {
            let i = position(after, key);
            assert(subs[i].key == key);
        }
        if registered(subs, key) {
            let i = position(subs, key);
            assert(after[i].key == key);
        }
    }
    assert forall|key: Seq<char>| key != sub.key && registered(subs, key) implies after[position(
        after,
        key,
    )] == subs[position(subs, key)] by {
        let i = position(subs, key);
        assert(after[i].key == key);
        let j = position(after, key);
        assert(i == j);
    }
}

/// For a commit of a batch, a subscription is told exactly if the batch
/// concerns it: if some transaction of the batch touches an attribute of its
/// filter. It is then told once, and handed those transactions, each cut down
/// to the filter. A subscription that no transaction concerns is not told at
/// all.
pub proof fn law_told_iff_concerned<F>(
    subs: Seq<Subscription<F>>,
    batch: Map<i64, Set<i64>>,
    at: int,
)
    requires
        distinct_keys(subs),
        0 <= at < subs.len(),
    ensures
        concerns(batch, subs[at]) ==> exists|k: int|
            0 <= k < notifications(subs, Some(batch)).len() && #[trigger] notifications(
                subs,
                Some(batch),
            )[k] == notification_for(batch, subs[at]),
        forall|k: int, l: int|
            0 <= k < l < notifications(subs, Some(batch)).len() ==> notifications(
                subs,
                Some(batch),
            )[k].key != notifications(subs, Some(batch))[l].key,
        forall|k: int|
            0 <= k < notifications(subs, Some(batch)).len() && #[trigger] notifications(
                subs,
                Some(batch),
            )[k].key == subs[at].key ==> concerns(batch, subs[at]) && notifications(
                subs,
                Some(batch),
            )[k] == notification_for(batch, subs[at]),
{
    lemma_notifications(subs, batch);
}

/// The transactions that a subscription is handed are, in ascending order of
/// their ids, exactly those transactions of the batch, in ascending order of
/// their ids, whose changeset touches the filter.
pub proof fn law_delivered_ids_follow_batch(
    batch: Map<i64, Set<i64>>,
    filter: Set<i64>,
    ids: Seq<i64>,
    delivered: Seq<i64>,
)
    requires
        is_listing(ids, batch.dom()),
        is_listing(delivered, filtered(batch, filter).dom()),
    ensures
        delivered == ids.filter(|tx: i64| !batch[tx].disjoint(filter)),
{
    let touched = |tx: i64| !batch[tx].disjoint(filter);
    lemma_filter_keeps_order(ids, touched);
    assert forall|tx: i64| ids.filter(touched).to_set().contains(tx) <==> filtered(
        batch,
        filter,
    ).dom().contains(tx) by {
        assert(ids.to_set().contains(tx) <==> ids.contains(tx));
    }
    assert(ids.filter(touched).to_set() =~= filtered(batch, filter).dom());
    lemma_listing_is_unique(delivered, ids.filter(touched), filtered(batch, filter).dom());
}

/// The changeset that a subscription is handed for a transaction is what the
/// transaction's changeset and the filter have in common: never empty, and
/// never an attribute from outside the filter.
pub proof fn law_delivered_changes_are_common(
    batch: Map<i64, Set<i64>>,
    filter: Set<i64>,
    tx: i64,
)
    requires
        filtered(batch, filter).contains_key(tx),
    ensures
        batch.contains_key(tx),
        filtered(batch, filter)[tx] == batch[tx].intersect(filter),
        filtered(batch, filter)[tx].subset_of(filter),
        filtered(batch, filter)[tx].subset_of(batch[tx]),
        !filtered(batch, filter)[tx].is_empty(),
{
    let witness = choose|a: i64| batch[tx].contains(a) && filter.contains(a);
    assert(filtered(batch, filter)[tx].contains(witness));
}

/// A commit without a batch tells nobody.
pub proof fn law_absent_batch_tells_nobody<F>(subs: Seq<Subscription<F>>)
    ensures
        notifications(subs, None).len() == 0,
{
}

/// An empty filter matches no transaction, whatever the transaction changed.
pub proof fn law_empty_filter_matches_nothing(batch: Map<i64, Set<i64>>)
    ensures
        filtered(batch, Set::<i64>::empty()) == Map::<i64, Set<i64>>::empty(),
{
    assert(filtered(batch, Set::<i64>::empty()) =~= Map::<i64, Set<i64>>::empty());
}

/// A transaction that changed nothing matches no filter.
pub proof fn law_empty_changeset_matches_nothing(
    batch: Map<i64, Set<i64>>,
    filter: Set<i64>,
    tx: i64,
)
    requires
        batch.contains_key(tx),
        batch[tx] == Set::<i64>::empty(),
    ensures
        !filtered(batch, filter).contains_key(tx),
{
}

/// A subscription with an empty filter is told of no commit.
pub proof fn law_empty_filter_is_never_told<F>(
    subs: Seq<Subscription<F>>,
    batch: Option<Map<i64, Set<i64>>>,
    at: int,
)
    requires
        distinct_keys(subs),
        0 <= at < subs.len(),
        subs[at].filter == Set::<i64>::empty(),
    ensures
        forall|k: int|
            0 <= k < notifications(subs, batch).len() ==> (#[trigger] notifications(
                subs,
                batch,
            )[k]).key != subs[at].key,
{
    match batch {
        None => {},
        Some(b) => {
            law_told_iff_concerned(subs, b, at);
            law_empty_filter_matches_nothing(b);
        },
    }
}

/// The notifications of a commit follow the registry: each stems from one
/// subscription that the batch concerns, in the order of the registry, and
/// each such subscription has one.
proof fn lemma_notifications<F>(subs: Seq<Subscription<F>>, batch: Map<i64, Set<i64>>)
    requires
        distinct_keys(subs),
    ensures
        forall|k: int|
            0 <= k < notifications(subs, Some(batch)).len() ==> exists|i: int|
                0 <= i < subs.len() && concerns(batch, subs[i]) && #[trigger] notifications(
                    subs,
                    Some(batch),
                )[k] == notification_for(batch, subs[i]),
        forall|i: int|
            0 <= i < subs.len() && concerns(batch, #[trigger] subs[i]) ==> exists|k: int|
                0 <= k < notifications(subs, Some(batch)).len() && #[trigger] notifications(
                    subs,
                    Some(batch),
                )[k] == notification_for(batch, subs[i]),
        forall|k: int, l: int|
            0 <= k < l < notifications(subs, Some(batch)).len() ==> notifications(
                subs,
                Some(batch),
            )[k].key != notifications(subs, Some(batch))[l].key,
    decreases subs.len(),
{
    let pred = |sub: Subscription<F>| concerns(batch, sub);
    let make = |sub: Subscription<F>| notification_for(batch, sub);
    reveal(Seq::filter);
    if subs.len() > 0 {
        let rest = subs.drop_last();
        let last = subs.last();
        lemma_notifications(rest, batch);
        let told_rest = notifications(rest, Some(batch));
        let told = notifications(subs, Some(batch));
        assert(told_rest == rest.filter(pred).map_values(make));
        if pred(last) {
            assert(subs.filter(pred) == rest.filter(pred).push(last));
            assert(told =~= told_rest.push(make(last)));
        } else {
            assert(told =~= told_rest);
        }
        assert forall|k: int| 0 <= k < told.len() implies exists|i: int|
            0 <= i < subs.len() && concerns(batch, subs[i]) && #[trigger] told[k]
                == notification_for(batch, subs[i]) by {
            if k < told_rest.len() {
                let i = choose|i: int|
                    0 <= i < rest.len() && concerns(batch, rest[i]) && told_rest[k]
                        == notification_for(batch, rest[i]);
                assert(subs[i] == rest[i]);
            } else {
                assert(told[k] == notification_for(batch, subs[subs.len() - 1]));
            }
        }
        assert forall|i: int| 0 <= i < subs.len() && concerns(batch, #[trigger] subs[i]) implies exists|
            k: int,
        |
            0 <= k < told.len() && #[trigger] told[k] == notification_for(batch, subs[i]) by {
            if i < rest.len() {
                assert(rest[i] == subs[i]);
                let k = choose|k: int|
                    0 <= k < told_rest.len() && told_rest[k] == notification_for(batch, rest[i]);
                assert(told[k] == told_rest[k]);
            } else {
                assert(told[told.len() - 1] == notification_for(batch, subs[i]));
            }
        }
        assert forall|k: int, l: int| 0 <= k < l < told.len() implies told[k].key != told[l].key by {
            if l < told_rest.len() {
                assert(told_rest[k].key != told_rest[l].key);
            } else {
                let i = choose|i: int|
                    0 <= i < rest.len() && concerns(batch, rest[i]) && told_rest[k]
                        == notification_for(batch, rest[i]);
                assert(subs[i] == rest[i]);
                assert(subs[i].key != subs[subs.len() - 1].key);
            }
        }
    } else {
        assert(notifications(subs, Some(batch)) =~= Seq::<NotificationView>::empty());
    }
}

} // verus!
