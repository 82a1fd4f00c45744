//! What an order does to the entities that a state holds.

use crate::list_map::{
    as_map, delete, distinct_keys, has_key, lemma_delete, lemma_position, lemma_put, lookup,
    position, put,
};
use crate::messages::OrderView;
use crate::model::{
    apply, fingerprint_of, holds, other_http_front, other_instance, pairs, replay, with_item,
    with_kept, ConfigStateView, Entities, Table,
};
use vstd::prelude::*;

verus! {

/// The pairs of `held` without those of `key` that `keep` rejects.
pub open spec fn kept_pairs<E>(
    held: Set<(Seq<char>, E)>,
    key: Seq<char>,
    keep: spec_fn(E) -> bool,
) -> Set<(Seq<char>, E)> {
    Set::new(|pair: (Seq<char>, E)| held.contains(pair) && (pair.0 != key || keep(pair.1)))
}

/// The pairs of `held` without those of `key`.
pub open spec fn pairs_of_others<E>(held: Set<(Seq<char>, E)>, key: Seq<char>) -> Set<
    (Seq<char>, E),
> {
    Set::new(|pair: (Seq<char>, E)| held.contains(pair) && pair.0 != key)
}

/// The entities after `order`.
pub open spec fn step(held: Entities, order: OrderView) -> Entities {
    match order {
        OrderView::AddHttpFront(front) => Entities {
            http_fronts: held.http_fronts.insert((front.app_id, front)),
            ..held
        },
        OrderView::RemoveHttpFront(front) => Entities {
            http_fronts: kept_pairs(held.http_fronts, front.app_id, other_http_front(front)),
            ..held
        },
        OrderView::AddHttpsFront(front) => Entities {
            https_fronts: held.https_fronts.insert((front.app_id, front)),
            ..held
        },
        OrderView::RemoveHttpsFront(front) => Entities {
            https_fronts: pairs_of_others(held.https_fronts, front.app_id),
            ..held
        },
        OrderView::AddCertificate(certificate) => match fingerprint_of(certificate) {
            Some(print) => if held.certificates.dom().contains(print) {
                held
            } else {
                Entities { certificates: held.certificates.insert(print, certificate), ..held }
            },
            None => held,
        },
        OrderView::RemoveCertificate(print) => Entities {
            certificates: held.certificates.remove(print),
            ..held
        },
        OrderView::AddInstance(instance) => Entities {
            instances: held.instances.insert((instance.app_id, instance)),
            ..held
        },
        OrderView::RemoveInstance(instance) => Entities {
            instances: kept_pairs(held.instances, instance.app_id, other_instance(instance)),
            ..held
        },
        _ => held,
    }
}

/// The entities after `orders`, taken from the first to the last.
pub open spec fn run(held: Entities, orders: Seq<OrderView>) -> Entities
    decreases orders.len(),
{
    if orders.len() == 0 {
        held
    } else {
        step(run(held, orders.drop_last()), orders.last())
    }
}

/// A list that is filtered holds what it held and the filter accepts.
pub proof fn lemma_filter_holds<E>(items: Seq<E>, keep: spec_fn(E) -> bool, item: E)
    ensures
        items.filter(keep).contains(item) == (items.contains(item) && keep(item)),
    decreases items.len(),
{
    reveal(Seq::filter);
    if items.len() > 0 {
        let front = items.drop_last();
        lemma_filter_holds(front, keep, item);
        if items.contains(item) {
            let i = choose|i: int| 0 <= i < items.len() && items[i] == item;
            if i < items.len() - 1 {
                assert(front[i] == item);
            }
        }
        if front.contains(item) {
            let i = choose|i: int| 0 <= i < front.len() && front[i] == item;
            assert(items[i] == item);
        }
        if keep(items.last()) {
            let kept = front.filter(keep);
            if kept.push(items.last()).contains(item) {
                let i = choose|i: int|
                    0 <= i < kept.push(items.last()).len() && kept.push(items.last())[i] == item;
                if i < kept.len() {
                    assert(kept[i] == item);
                }
            }
            if kept.contains(item) {
                let i = choose|i: int| 0 <= i < kept.len() && kept[i] == item;
                assert(kept.push(items.last())[i] == item);
            }
            assert(kept.push(items.last())[kept.len() as int] == items.last());
        }
        assert(items[items.len() - 1] == items.last());
    }
}

/// A table that took an item holds it, and what it held.
pub proof fn lemma_with_item<E>(table: Table<E>, key: Seq<char>, item: E)
    ensures
        pairs(with_item(table, key, item)) == pairs(table).insert((key, item)),
        distinct_keys(table) ==> distinct_keys(with_item(table, key, item)),
{
    let after = with_item(table, key, item);
    let items = match lookup(table, key) {
        Some(items) => if items.contains(item) {
            items
        } else {
            items.push(item)
        },
        None => seq![item],
    };
    assert(items.contains(item)) by {
        if !(lookup(table, key) matches Some(old) && old.contains(item)) {
            assert(items[items.len() - 1] == item);
        }
    }
    if has_key(table, key) {
        lemma_position(table, key);
        assert(put(table, key, table[position(table, key)].1) =~= table);
    }
    assert(after == put(table, key, items));
    assert forall|pair: (Seq<char>, E)|
        pairs(after).contains(pair) == #[trigger] pairs(table).insert((key, item)).contains(
            pair,
        ) by {
        lemma_put(table, key, items, pair.0);
        if pair.0 == key {
            match lookup(table, key) {
                Some(old) => {
                    if !old.contains(item) {
                        if old.contains(pair.1) {
                            let i = choose|i: int| 0 <= i < old.len() && old[i] == pair.1;
                            assert(items[i] == pair.1);
                        }
                        if items.contains(pair.1) && pair.1 != item {
                            let i = choose|i: int| 0 <= i < items.len() && items[i] == pair.1;
                            assert(old[i] == pair.1);
                        }
                    }
                },
                None => {
                    if items.contains(pair.1) {
                        let i = choose|i: int| 0 <= i < items.len() && items[i] == pair.1;
                        assert(items[i] == item);
                    }
                },
            }
        }
    }
    assert(pairs(after) =~= pairs(table).insert((key, item)));
    lemma_put(table, key, items, key);
}

/// A table whose list of `key` was cut down holds what it held, but of
/// `key` only what the filter accepts.
pub proof fn lemma_with_kept<E>(table: Table<E>, key: Seq<char>, keep: spec_fn(E) -> bool)
    ensures
        pairs(with_kept(table, key, keep)) == kept_pairs(pairs(table), key, keep),
        distinct_keys(table) ==> distinct_keys(with_kept(table, key, keep)),
{
    let after = with_kept(table, key, keep);
    assert forall|pair: (Seq<char>, E)|
        pairs(after).contains(pair) == #[trigger] kept_pairs(pairs(table), key, keep).contains(
            pair,
        ) by {
        match lookup(table, key) {
            Some(items) => {
                lemma_put(table, key, items.filter(keep), pair.0);
                lemma_filter_holds(items, keep, pair.1);
            },
            None => {},
        }
    }
    assert(pairs(after) =~= kept_pairs(pairs(table), key, keep));
    match lookup(table, key) {
        Some(items) => {
            lemma_put(table, key, items.filter(keep), key);
        },
        None => {},
    }
}

/// A table without the entry of `key` holds what it held of the other keys.
pub proof fn lemma_without_key<E>(table: Table<E>, key: Seq<char>)
    requires
        distinct_keys(table),
    ensures
        pairs(delete(table, key)) == pairs_of_others(pairs(table), key),
        distinct_keys(delete(table, key)),
{
    assert forall|pair: (Seq<char>, E)|
        pairs(delete(table, key)).contains(pair) == #[trigger] pairs_of_others(
            pairs(table),
            key,
        ).contains(pair) by {
        lemma_delete(table, key, pair.0);
    }
    assert(pairs(delete(table, key)) =~= pairs_of_others(pairs(table), key));
    lemma_delete(table, key, key);
}

/// The map of a list that took a new entry is the map with that entry.
pub proof fn lemma_put_as_map<K, V>(entries: Seq<(K, V)>, key: K, value: V)
    ensures
        as_map(put(entries, key, value)) == as_map(entries).insert(key, value),
{
    assert forall|other: K|
        has_key(put(entries, key, value), other) == (other == key || has_key(entries, other))
            && lookup(put(entries, key, value), other) == if other == key {
            Some(value)
        } else {
            lookup(entries, other)
        } by {
        lemma_put(entries, key, value, other);
    }
    assert(as_map(put(entries, key, value)) =~= as_map(entries).insert(key, value));
}

/// The map of a list without a key is the map without that key.
pub proof fn lemma_delete_as_map<K, V>(entries: Seq<(K, V)>, key: K)
    requires
        distinct_keys(entries),
    ensures
        as_map(delete(entries, key)) == as_map(entries).remove(key),
{
    assert forall|other: K|
        has_key(delete(entries, key), other) == (other != key && has_key(entries, other))
            && lookup(delete(entries, key), other) == if other == key {
            None
        } else {
            lookup(entries, other)
        } by {
        lemma_delete(entries, key, other);
    }
    assert(as_map(delete(entries, key)) =~= as_map(entries).remove(key));
}

/// An order does to the entities of a valid state what `step` says, and
/// leaves the state valid.
pub proof fn lemma_apply_steps(state: ConfigStateView, order: OrderView)
    requires
        state.valid(),
    ensures
        apply(state, order).entities() == step(state.entities(), order),
        apply(state, order).valid(),
{
    match order {
        OrderView::AddHttpFront(front) => {
            lemma_with_item(state.http_fronts, front.app_id, front);
        },
        OrderView::RemoveHttpFront(front) => {
            lemma_with_kept(state.http_fronts, front.app_id, other_http_front(front));
        },
        OrderView::AddHttpsFront(front) => {
            lemma_with_item(state.https_fronts, front.app_id, front);
        },
        OrderView::RemoveHttpsFront(front) => {
            lemma_without_key(state.https_fronts, front.app_id);
        },
        OrderView::AddCertificate(certificate) => {
            match fingerprint_of(certificate) {
                Some(print) => {
                    lemma_put_as_map(state.certificates, print, certificate);
                    lemma_put(state.certificates, print, certificate, print);
                },
                None => {},
            }
        },
        OrderView::RemoveCertificate(print) => {
            lemma_delete_as_map(state.certificates, print);
            lemma_delete(state.certificates, print, print);
        },
        OrderView::AddInstance(instance) => {
            lemma_with_item(state.instances, instance.app_id, instance);
        },
        OrderView::RemoveInstance(instance) => {
            lemma_with_kept(state.instances, instance.app_id, other_instance(instance));
        },
        _ => {},
    }
}

/// Orders do to the entities of a valid state what `run` says, and leave
/// the state valid.
pub proof fn lemma_replay_runs(state: ConfigStateView, orders: Seq<OrderView>)
    requires
        state.valid(),
    ensures
        replay(state, orders).entities() == run(state.entities(), orders),
        replay(state, orders).valid(),
    decreases orders.len(),
{
    if orders.len() > 0 {
        lemma_replay_runs(state, orders.drop_last());
        lemma_apply_steps(replay(state, orders.drop_last()), orders.last());
    }
}

/// Running two sequences of orders, one after the other, is running their
/// concatenation.
pub proof fn lemma_run_append(held: Entities, first: Seq<OrderView>, second: Seq<OrderView>)
    ensures
        run(held, first + second) == run(run(held, first), second),
    decreases second.len(),
{
    if second.len() == 0 {
        assert(first + second =~= first);
    } else {
        assert((first + second).drop_last() =~= first + second.drop_last());
        assert((first + second).last() == second.last());
        lemma_run_append(held, first, second.drop_last());
    }
}

} // verus!
