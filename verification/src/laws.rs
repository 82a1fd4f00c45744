//! What holds of orders, dumps and diffs, whatever the state.
//!
//! The laws speak of valid and coherent states. Every configuration state is
//! valid, and all those are coherent that come from orders or from routing
//! rules.

use crate::entities::{
    lemma_filter_holds, lemma_replay_runs, lemma_run_append, lemma_with_item, run,
};
use crate::groups::{
    all_with_owner, each_with_owner, keys_of, lemma_run_add_certificates,
    lemma_run_add_http_fronts, lemma_run_add_https_fronts, lemma_run_add_instances,
    lemma_run_remove_certificates, lemma_run_remove_http_fronts, lemma_run_remove_https_fronts,
    lemma_run_remove_instances, pairs_of_none_of,
};
use crate::list_map::{
    as_map, delete, distinct_keys, has_key, lemma_delete, lemma_place_is_position, lemma_position,
    lemma_put, lookup, position, put,
};
use crate::listing::{
    lemma_certificates_only_in, lemma_concat_contains, lemma_contains_what_lookup_finds,
    lemma_held_under_owner, lemma_listing_contains, lemma_lists_what_it_holds,
    lemma_only_in_contains,
};
use crate::messages::{
    CertificateAndKeyView, HttpFrontView, HttpsFrontView, InstanceView, OrderView,
};
use crate::model::{
    add_certificate, add_http_front, add_https_front, add_instance, apply,
    certificate_missing_from, certificates_only_in, diff, dump, empty_state, fingerprint_of, holds,
    http_front_owner, http_front_under, https_front_owner, https_front_under, instance_owner,
    keeps, kept_under_fingerprint, listed_under_owner, listing, only_in, other_http_front,
    other_instance, pairs, remove_certificate, remove_http_front, remove_https_front,
    remove_instance, replay, with_item, with_kept, CertificateTable, ConfigStateView, Entities,
    Table,
};
use crate::soundness::law_replay_keeps_sound;
use vstd::prelude::*;

verus! {

/// Filtering a second time changes nothing.
proof fn lemma_filter_twice<E>(items: Seq<E>, keep: spec_fn(E) -> bool)
    ensures
        items.filter(keep).filter(keep) == items.filter(keep),
    decreases items.len(),
{
    reveal(Seq::filter);
    if items.len() > 0 {
        lemma_filter_twice(items.drop_last(), keep);
        if keep(items.last()) {
            items.drop_last().filter(keep).lemma_filter_push(items.last(), keep);
        }
    }
}

/// Taking an item a second time changes nothing.
proof fn lemma_with_item_twice<E>(table: Table<E>, key: Seq<char>, item: E)
    ensures
        with_item(with_item(table, key, item), key, item) == with_item(table, key, item),
{
    lemma_with_item(table, key, item);
    assert(pairs(with_item(table, key, item)).contains((key, item)));
}

/// Cutting a list down a second time changes nothing.
proof fn lemma_with_kept_twice<E>(table: Table<E>, key: Seq<char>, keep: spec_fn(E) -> bool)
    ensures
        with_kept(with_kept(table, key, keep), key, keep) == with_kept(table, key, keep),
{
    match lookup(table, key) {
        Some(items) => {
            let kept = items.filter(keep);
            let after = put(table, key, kept);
            lemma_put(table, key, kept, key);
            lemma_filter_twice(items, keep);
            lemma_position(after, key);
            assert(put(after, key, kept) =~= after);
        },
        None => {},
    }
}

/// Deleting a key a second time changes nothing.
proof fn lemma_delete_twice<K, V>(entries: Seq<(K, V)>, key: K)
    requires
        distinct_keys(entries),
    ensures
        delete(delete(entries, key), key) == delete(entries, key),
{
    lemma_delete(entries, key, key);
}

/// An order that is applied twice does what it does when applied once.
pub proof fn law_apply_is_idempotent(state: ConfigStateView, order: OrderView)
    requires
        state.valid(),
    ensures
        apply(apply(state, order), order) == apply(state, order),
{
    match order {
        OrderView::AddHttpFront(front) => {
            lemma_with_item_twice(state.http_fronts, front.app_id, front);
        },
        OrderView::RemoveHttpFront(front) => {
            lemma_with_kept_twice(
                state.http_fronts,
                front.app_id,
                other_http_front(front),
            );
        },
        OrderView::AddHttpsFront(front) => {
            lemma_with_item_twice(state.https_fronts, front.app_id, front);
        },
        OrderView::RemoveHttpsFront(front) => {
            lemma_delete_twice(state.https_fronts, front.app_id);
        },
        OrderView::AddCertificate(certificate) => {
            match fingerprint_of(certificate) {
                Some(print) => {
                    lemma_put(state.certificates, print, certificate, print);
                },
                None => {},
            }
        },
        OrderView::RemoveCertificate(print) => {
            lemma_delete_twice(state.certificates, print);
        },
        OrderView::AddInstance(instance) => {
            lemma_with_item_twice(state.instances, instance.app_id, instance);
        },
        OrderView::RemoveInstance(instance) => {
            lemma_with_kept_twice(
                state.instances,
                instance.app_id,
                other_instance(instance),
            );
        },
        _ => {},
    }
}

/// Of two certificates with one fingerprint, added one after the other, the
/// state keeps the first: the second addition changes nothing, and where the
/// fingerprint was free before, it now stands for the first certificate, in
/// one entry only.
pub proof fn law_first_certificate_stays(
    state: ConfigStateView,
    first: CertificateAndKeyView,
    second: CertificateAndKeyView,
    print: Seq<u8>,
)
    requires
        state.valid(),
        fingerprint_of(first) == Some(print),
        fingerprint_of(second) == Some(print),
    ensures
        apply(apply(state, OrderView::AddCertificate(first)), OrderView::AddCertificate(second))
            == apply(state, OrderView::AddCertificate(first)),
        !has_key(state.certificates, print) ==> lookup(
            apply(
                apply(state, OrderView::AddCertificate(first)),
                OrderView::AddCertificate(second),
            ).certificates,
            print,
        ) == Some(first),
        forall|i: int, j: int|
            #![trigger
                apply(state, OrderView::AddCertificate(first)).certificates[i],
                apply(state, OrderView::AddCertificate(first)).certificates[j]
            ]
            {
                let kept = apply(state, OrderView::AddCertificate(first)).certificates;
                0 <= i < kept.len() && 0 <= j < kept.len() && kept[i].0 == print && kept[j].0
                    == print ==> i == j
            },
{
    lemma_put(state.certificates, print, first, print);
    let kept = apply(state, OrderView::AddCertificate(first)).certificates;
    assert(distinct_keys(kept));
    assert forall|i: int, j: int|
        0 <= i < kept.len() && 0 <= j < kept.len() && kept[i].0 == print && kept[j].0
            == print implies i == j by {
        if i < j {
            assert(kept[i].0 != kept[j].0);
        }
        if j < i {
            assert(kept[j].0 != kept[i].0);
        }
    }
}

/// A table has no pair that it does not hold itself.
proof fn lemma_only_in_itself<E>(table: Table<E>)
    requires
        distinct_keys(table),
    ensures
        only_in(table, table) == Seq::<(Seq<char>, E)>::empty(),
{
    let only = only_in(table, table);
    if only.len() > 0 {
        assert(only.contains(only[0]));
        lemma_only_in_contains(table, table, only[0]);
    }
    assert(only =~= Seq::<(Seq<char>, E)>::empty());
}

/// A list of certificates has no entry that it does not hold itself.
proof fn lemma_certificates_only_in_itself(certificates: CertificateTable)
    requires
        distinct_keys(certificates),
    ensures
        certificates_only_in(certificates, certificates) == Seq::<
            (Seq<u8>, CertificateAndKeyView),
        >::empty(),
{
    let only = certificates_only_in(certificates, certificates);
    if only.len() > 0 {
        assert(only.contains(only[0]));
        lemma_filter_holds(certificates, certificate_missing_from(certificates), only[0]);
        lemma_contains_what_lookup_finds(certificates, only[0]);
    }
    assert(only =~= Seq::<(Seq<u8>, CertificateAndKeyView)>::empty());
}

/// The diff of a state with itself is empty.
pub proof fn law_diff_with_itself_is_empty(state: ConfigStateView)
    requires
        state.valid(),
    ensures
        diff(state, state) == Seq::<OrderView>::empty(),
{
    lemma_only_in_itself(state.instances);
    lemma_only_in_itself(state.http_fronts);
    lemma_only_in_itself(state.https_fronts);
    lemma_certificates_only_in_itself(state.certificates);
    assert(diff(state, state) =~= Seq::<OrderView>::empty());
}

/// What is mapped holds the image of something that was held.
proof fn lemma_mapped_from<A, B>(items: Seq<A>, image: spec_fn(A) -> B, mapped: B) -> (item: A)
    requires
        items.map_values(image).contains(mapped),
    ensures
        items.contains(item),
        image(item) == mapped,
{
    let i = choose|i: int|
        0 <= i < items.map_values(image).len() && items.map_values(image)[i] == mapped;
    assert(items[i] == items[i]);
    items[i]
}

/// Whether `order` tells of something that only one of the two states holds:
/// an addition of what only `target` holds, or a removal of what only
/// `current` holds.
pub open spec fn tells_a_difference(
    current: ConfigStateView,
    target: ConfigStateView,
    order: OrderView,
) -> bool {
    match order {
        OrderView::AddHttpFront(front) => holds(target.http_fronts, front.app_id, front) && !holds(
            current.http_fronts,
            front.app_id,
            front,
        ),
        OrderView::RemoveHttpFront(front) => holds(current.http_fronts, front.app_id, front)
            && !holds(target.http_fronts, front.app_id, front),
        OrderView::AddHttpsFront(front) => holds(target.https_fronts, front.app_id, front)
            && !holds(current.https_fronts, front.app_id, front),
        OrderView::RemoveHttpsFront(front) => holds(current.https_fronts, front.app_id, front)
            && !holds(target.https_fronts, front.app_id, front),
        OrderView::AddInstance(instance) => holds(target.instances, instance.app_id, instance)
            && !holds(current.instances, instance.app_id, instance),
        OrderView::RemoveInstance(instance) => holds(current.instances, instance.app_id, instance)
            && !holds(target.instances, instance.app_id, instance),
        OrderView::AddCertificate(certificate) => match fingerprint_of(certificate) {
            Some(print) => keeps(target.certificates, print, certificate) && !keeps(
                current.certificates,
                print,
                certificate,
            ),
            None => false,
        },
        OrderView::RemoveCertificate(print) => has_key(current.certificates, print) && lookup(
            current.certificates,
            print,
        ) != lookup(target.certificates, print),
        _ => false,
    }
}

/// A pair that only `listed` holds, of which `order` tells.
proof fn lemma_told_pair<E>(
    listed: Table<E>,
    other: Table<E>,
    owner: spec_fn(E) -> Seq<char>,
    tell: spec_fn((Seq<char>, E)) -> OrderView,
    order: OrderView,
) -> (pair: (Seq<char>, E))
    requires
        distinct_keys(listed),
        listed_under_owner(listed, owner),
        only_in(listed, other).map_values(tell).contains(order),
    ensures
        holds(listed, pair.0, pair.1),
        !holds(other, pair.0, pair.1),
        owner(pair.1) == pair.0,
        tell(pair) == order,
{
    let pair = lemma_mapped_from(only_in(listed, other), tell, order);
    lemma_only_in_contains(listed, other, pair);
    lemma_held_under_owner(listed, owner, pair.0, pair.1);
    pair
}

/// A certificate that only `listed` keeps, of which `order` tells.
proof fn lemma_told_certificate(
    listed: CertificateTable,
    other: CertificateTable,
    tell: spec_fn((Seq<u8>, CertificateAndKeyView)) -> OrderView,
    order: OrderView,
) -> (entry: (Seq<u8>, CertificateAndKeyView))
    requires
        distinct_keys(listed),
        kept_under_fingerprint(listed),
        certificates_only_in(listed, other).map_values(tell).contains(order),
    ensures
        keeps(listed, entry.0, entry.1),
        !keeps(other, entry.0, entry.1),
        fingerprint_of(entry.1) == Some(entry.0),
        tell(entry) == order,
{
    let entry = lemma_mapped_from(certificates_only_in(listed, other), tell, order);
    lemma_filter_holds(listed, certificate_missing_from(other), entry);
    lemma_contains_what_lookup_finds(listed, entry);
    lemma_position(listed, entry.0);
    entry
}

/// Every order of a diff tells of something that only one of the two states
/// holds: it adds what only the target holds, or removes what only the
/// current state holds.
pub proof fn law_diff_tells_differences(
    current: ConfigStateView,
    target: ConfigStateView,
    order: OrderView,
)
    requires
        current.valid(),
        current.coherent(),
        target.valid(),
        target.coherent(),
        diff(current, target).contains(order),
    ensures
        tells_a_difference(current, target, order),
{
    let g1 = certificates_only_in(target.certificates, current.certificates).map_values(
        add_certificate(),
    );
    let g2 = only_in(current.http_fronts, target.http_fronts).map_values(remove_http_front());
    let g3 = only_in(current.https_fronts, target.https_fronts).map_values(remove_https_front());
    let g4 = only_in(target.instances, current.instances).map_values(add_instance());
    let g5 = only_in(current.instances, target.instances).map_values(remove_instance());
    let g6 = only_in(target.http_fronts, current.http_fronts).map_values(add_http_front());
    let g7 = only_in(target.https_fronts, current.https_fronts).map_values(add_https_front());
    let g8 = certificates_only_in(current.certificates, target.certificates).map_values(
        remove_certificate(),
    );
    lemma_concat_contains(g1 + g2 + g3 + g4 + g5 + g6 + g7, g8, order);
    lemma_concat_contains(g1 + g2 + g3 + g4 + g5 + g6, g7, order);
    lemma_concat_contains(g1 + g2 + g3 + g4 + g5, g6, order);
    lemma_concat_contains(g1 + g2 + g3 + g4, g5, order);
    lemma_concat_contains(g1 + g2 + g3, g4, order);
    lemma_concat_contains(g1 + g2, g3, order);
    lemma_concat_contains(g1, g2, order);
    if g1.contains(order) {
        let entry = lemma_told_certificate(
            target.certificates,
            current.certificates,
            add_certificate(),
            order,
        );
    } else if g2.contains(order) {
        let pair = lemma_told_pair(
            current.http_fronts,
            target.http_fronts,
            http_front_owner(),
            remove_http_front(),
            order,
        );
        assert(http_front_under(pair.0, pair.1) == pair.1);
    } else if g3.contains(order) {
        let pair = lemma_told_pair(
            current.https_fronts,
            target.https_fronts,
            https_front_owner(),
            remove_https_front(),
            order,
        );
        assert(https_front_under(pair.0, pair.1) == pair.1);
    } else if g4.contains(order) {
        let pair = lemma_told_pair(
            target.instances,
            current.instances,
            instance_owner(),
            add_instance(),
            order,
        );
    } else if g5.contains(order) {
        let pair = lemma_told_pair(
            current.instances,
            target.instances,
            instance_owner(),
            remove_instance(),
            order,
        );
    } else if g6.contains(order) {
        let pair = lemma_told_pair(
            target.http_fronts,
            current.http_fronts,
            http_front_owner(),
            add_http_front(),
            order,
        );
        assert(http_front_under(pair.0, pair.1) == pair.1);
    } else if g7.contains(order) {
        let pair = lemma_told_pair(
            target.https_fronts,
            current.https_fronts,
            https_front_owner(),
            add_https_front(),
            order,
        );
        assert(https_front_under(pair.0, pair.1) == pair.1);
    } else {
        let entry = lemma_told_certificate(
            current.certificates,
            target.certificates,
            remove_certificate(),
            order,
        );
    }
}

/// What both states hold alike is in no order of their diff: no order adds
/// or removes an entity that both list under one application, nor a
/// certificate that both keep under one fingerprint, nor removes that
/// fingerprint.
pub proof fn law_diff_spares_what_both_hold(current: ConfigStateView, target: ConfigStateView)
    requires
        current.valid(),
        current.coherent(),
        target.valid(),
        target.coherent(),
    ensures
        forall|key: Seq<char>, front: HttpFrontView|
            #![trigger holds(current.http_fronts, key, front)]
            holds(current.http_fronts, key, front) && holds(target.http_fronts, key, front) ==> {
                &&& !diff(current, target).contains(OrderView::AddHttpFront(front))
                &&& !diff(current, target).contains(OrderView::RemoveHttpFront(front))
            },
        forall|key: Seq<char>, front: HttpsFrontView|
            #![trigger holds(current.https_fronts, key, front)]
            holds(current.https_fronts, key, front) && holds(target.https_fronts, key, front) ==> {
                &&& !diff(current, target).contains(OrderView::AddHttpsFront(front))
                &&& !diff(current, target).contains(OrderView::RemoveHttpsFront(front))
            },
        forall|key: Seq<char>, instance: InstanceView|
            #![trigger holds(current.instances, key, instance)]
            holds(current.instances, key, instance) && holds(target.instances, key, instance) ==> {
                &&& !diff(current, target).contains(OrderView::AddInstance(instance))
                &&& !diff(current, target).contains(OrderView::RemoveInstance(instance))
            },
        forall|print: Seq<u8>, certificate: CertificateAndKeyView|
            #![trigger keeps(current.certificates, print, certificate)]
            keeps(current.certificates, print, certificate) && keeps(
                target.certificates,
                print,
                certificate,
            ) ==> {
                &&& !diff(current, target).contains(OrderView::AddCertificate(certificate))
                &&& !diff(current, target).contains(OrderView::RemoveCertificate(print))
            },
{
    assert forall|key: Seq<char>, front: HttpFrontView|
        #![trigger holds(current.http_fronts, key, front)]
        holds(current.http_fronts, key, front) && holds(target.http_fronts, key, front) implies {
        &&& !diff(current, target).contains(OrderView::AddHttpFront(front))
        &&& !diff(current, target).contains(OrderView::RemoveHttpFront(front))
    } by {
        lemma_held_under_owner(current.http_fronts, http_front_owner(), key, front);
        if diff(current, target).contains(OrderView::AddHttpFront(front)) {
            law_diff_tells_differences(current, target, OrderView::AddHttpFront(front));
        }
        if diff(current, target).contains(OrderView::RemoveHttpFront(front)) {
            law_diff_tells_differences(current, target, OrderView::RemoveHttpFront(front));
        }
    }
    assert forall|key: Seq<char>, front: HttpsFrontView|
        #![trigger holds(current.https_fronts, key, front)]
        holds(current.https_fronts, key, front) && holds(target.https_fronts, key, front) implies {
        &&& !diff(current, target).contains(OrderView::AddHttpsFront(front))
        &&& !diff(current, target).contains(OrderView::RemoveHttpsFront(front))
    } by {
        lemma_held_under_owner(current.https_fronts, https_front_owner(), key, front);
        if diff(current, target).contains(OrderView::AddHttpsFront(front)) {
            law_diff_tells_differences(current, target, OrderView::AddHttpsFront(front));
        }
        if diff(current, target).contains(OrderView::RemoveHttpsFront(front)) {
            law_diff_tells_differences(current, target, OrderView::RemoveHttpsFront(front));
        }
    }
    assert forall|key: Seq<char>, instance: InstanceView|
        #![trigger holds(current.instances, key, instance)]
        holds(current.instances, key, instance) && holds(target.instances, key, instance) implies {
        &&& !diff(current, target).contains(OrderView::AddInstance(instance))
        &&& !diff(current, target).contains(OrderView::RemoveInstance(instance))
    } by {
        lemma_held_under_owner(current.instances, instance_owner(), key, instance);
        if diff(current, target).contains(OrderView::AddInstance(instance)) {
            law_diff_tells_differences(current, target, OrderView::AddInstance(instance));
        }
        if diff(current, target).contains(OrderView::RemoveInstance(instance)) {
            law_diff_tells_differences(current, target, OrderView::RemoveInstance(instance));
        }
    }
    assert forall|print: Seq<u8>, certificate: CertificateAndKeyView|
        #![trigger keeps(current.certificates, print, certificate)]
        keeps(current.certificates, print, certificate) && keeps(
            target.certificates,
            print,
            certificate,
        ) implies {
        &&& !diff(current, target).contains(OrderView::AddCertificate(certificate))
        &&& !diff(current, target).contains(OrderView::RemoveCertificate(print))
    } by {
        lemma_position(current.certificates, print);
        assert(fingerprint_of(current.certificates[position(current.certificates, print)].1)
            == Some(print));
        if diff(current, target).contains(OrderView::AddCertificate(certificate)) {
            law_diff_tells_differences(current, target, OrderView::AddCertificate(certificate));
        }
        if diff(current, target).contains(OrderView::RemoveCertificate(print)) {
            law_diff_tells_differences(current, target, OrderView::RemoveCertificate(print));
        }
    }
}

/// The pairs that a table lists join each entity with its owner, where the
/// table lists every entity under its owner.
proof fn lemma_listing_with_owner<E>(table: Table<E>, owner: spec_fn(E) -> Seq<char>)
    requires
        listed_under_owner(table, owner),
    ensures
        each_with_owner(listing(table), owner),
{
    assert forall|i: int| 0 <= i < listing(table).len() implies owner(
        (#[trigger] listing(table)[i]).1,
    ) == listing(table)[i].0 by {
        let pair = listing(table)[i];
        assert(listing(table).contains(pair));
        lemma_listing_contains(table, pair);
        let at = choose|at: int|
            0 <= at < table.len() && (#[trigger] table[at]).0 == pair.0 && table[at].1.contains(
                pair.1,
            );
        let j = choose|j: int| 0 <= j < table[at].1.len() && table[at].1[j] == pair.1;
        assert(owner(table[at].1[j]) == table[at].0);
    }
}

/// The set of the pairs that a table lists is the set of the pairs that it
/// holds.
proof fn lemma_listing_set<E>(table: Table<E>)
    requires
        distinct_keys(table),
    ensures
        listing(table).to_set() == pairs(table),
{
    assert forall|pair: (Seq<char>, E)|
        listing(table).to_set().contains(pair) == #[trigger] pairs(table).contains(pair) by {
        lemma_listing_contains(table, pair);
        lemma_lists_what_it_holds(table, pair.0, pair.1);
    }
    assert(listing(table).to_set() =~= pairs(table));
}

/// The pairs only in `listed`, as a set and with their owners.
proof fn lemma_only_in_set<E>(listed: Table<E>, other: Table<E>, owner: spec_fn(E) -> Seq<char>)
    requires
        distinct_keys(listed),
        listed_under_owner(listed, owner),
    ensures
        only_in(listed, other).to_set() == pairs(listed).difference(pairs(other)),
        each_with_owner(only_in(listed, other), owner),
{
    let only = only_in(listed, other);
    assert forall|pair: (Seq<char>, E)|
        only.to_set().contains(pair) == #[trigger] pairs(listed).difference(
            pairs(other),
        ).contains(pair) by {
        lemma_only_in_contains(listed, other, pair);
    }
    assert(only.to_set() =~= pairs(listed).difference(pairs(other)));
    assert forall|i: int| 0 <= i < only.len() implies owner((#[trigger] only[i]).1)
        == only[i].0 by {
        assert(only.contains(only[i]));
        lemma_only_in_contains(listed, other, only[i]);
        lemma_held_under_owner(listed, owner, only[i].0, only[i].1);
    }
}

/// The pairs that a table holds join each entity with its owner, where the
/// table lists every entity under its owner.
proof fn lemma_pairs_with_owner<E>(table: Table<E>, owner: spec_fn(E) -> Seq<char>)
    requires
        listed_under_owner(table, owner),
    ensures
        all_with_owner(pairs(table), owner),
{
    assert forall|pair: (Seq<char>, E)| #[trigger] pairs(table).contains(pair) implies owner(
        pair.1,
    ) == pair.0 by {
        lemma_held_under_owner(table, owner, pair.0, pair.1);
    }
}

/// A table lists every entity under its owner where the pairs that it
/// holds join each entity with its owner.
proof fn lemma_listed_under_owner<E>(table: Table<E>, owner: spec_fn(E) -> Seq<char>)
    requires
        distinct_keys(table),
        all_with_owner(pairs(table), owner),
    ensures
        listed_under_owner(table, owner),
{
    assert forall|i: int, j: int| 0 <= i < table.len() && 0 <= j < table[i].1.len() implies owner(
        #[trigger] table[i].1[j],
    ) == table[i].0 by {
        lemma_place_is_position(table, i);
        assert(table[i].1.contains(table[i].1[j]));
        assert(pairs(table).contains((table[i].0, table[i].1[j])));
    }
}

/// What the orders of a dump build up from nothing.
proof fn lemma_after_dump(state: ConfigStateView)
    requires
        state.valid(),
        state.coherent(),
    ensures
        replay(empty_state(), dump(state)).entities() == state.entities(),
{
    let nothing = empty_state().entities();
    let fronts = listing(state.http_fronts);
    let secure_fronts = listing(state.https_fronts);
    let instances = listing(state.instances);
    let g1 = fronts.map_values(add_http_front());
    let g2 = state.certificates.map_values(add_certificate());
    let g3 = secure_fronts.map_values(add_https_front());
    let g4 = instances.map_values(add_instance());
    assert(nothing.instances =~= Set::empty());
    assert(nothing.http_fronts =~= Set::empty());
    assert(nothing.https_fronts =~= Set::empty());
    assert(nothing.certificates =~= Map::empty());
    lemma_replay_runs(empty_state(), dump(state));
    lemma_run_append(nothing, g1 + g2 + g3, g4);
    lemma_run_append(nothing, g1 + g2, g3);
    lemma_run_append(nothing, g1, g2);
    lemma_listing_with_owner(state.http_fronts, http_front_owner());
    lemma_listing_with_owner(state.https_fronts, https_front_owner());
    lemma_listing_with_owner(state.instances, instance_owner());
    lemma_run_add_http_fronts(nothing, fronts);
    let e1 = run(nothing, g1);
    lemma_run_add_certificates(e1, state.certificates);
    let e2 = run(e1, g2);
    lemma_run_add_https_fronts(e2, secure_fronts);
    let e3 = run(e2, g3);
    lemma_run_add_instances(e3, instances);
    let e4 = run(e3, g4);
    lemma_listing_set(state.http_fronts);
    lemma_listing_set(state.https_fronts);
    lemma_listing_set(state.instances);
    assert(e4.http_fronts =~= state.entities().http_fronts);
    assert(e4.https_fronts =~= state.entities().https_fronts);
    assert(e4.instances =~= state.entities().instances);
    assert(e4.certificates =~= state.entities().certificates);
    assert(e4 == state.entities());
}

/// The orders of a dump, replayed on the empty state, bring back what the
/// state holds, where the state is coherent, and nowhere else. A front is
/// dumped under the application of its list and an instance under its own,
/// and a certificate is stored under the fingerprint of its leaf, wherever
/// the state had them.
pub proof fn law_dump_rebuilds(state: ConfigStateView)
    requires
        state.valid(),
    ensures
        replay(empty_state(), dump(state)).entities() == state.entities() <==> state.coherent(),
{
    let rebuilt = replay(empty_state(), dump(state));
    if state.coherent() {
        lemma_after_dump(state);
    }
    if rebuilt.entities() == state.entities() {
        law_replay_keeps_sound(empty_state(), dump(state));
        lemma_pairs_with_owner(rebuilt.instances, instance_owner());
        lemma_pairs_with_owner(rebuilt.http_fronts, http_front_owner());
        lemma_pairs_with_owner(rebuilt.https_fronts, https_front_owner());
        lemma_listed_under_owner(state.instances, instance_owner());
        lemma_listed_under_owner(state.http_fronts, http_front_owner());
        lemma_listed_under_owner(state.https_fronts, https_front_owner());
        assert forall|i: int| 0 <= i < state.certificates.len() implies fingerprint_of(
            (#[trigger] state.certificates[i]).1,
        ) == Some(state.certificates[i].0) by {
            let print = state.certificates[i].0;
            lemma_place_is_position(state.certificates, i);
            assert(as_map(state.certificates).dom().contains(print));
            assert(as_map(rebuilt.certificates).dom().contains(print));
            assert(as_map(rebuilt.certificates)[print] == as_map(state.certificates)[print]);
            lemma_position(rebuilt.certificates, print);
        }
    }
}

/// Whether an application that loses an HTTPS front on the way from
/// `current` to `target` keeps none of its HTTPS fronts.
pub open spec fn lost_https_fronts_leave_none(
    current: ConfigStateView,
    target: ConfigStateView,
) -> bool {
    forall|key: Seq<char>, lost: HttpsFrontView, kept: HttpsFrontView|
        #![trigger holds(current.https_fronts, key, lost), holds(current.https_fronts, key, kept)]
        holds(current.https_fronts, key, lost) && !holds(target.https_fronts, key, lost) && holds(
            current.https_fronts,
            key,
            kept,
        ) ==> !holds(target.https_fronts, key, kept)
}

/// Whether a fingerprint that both states know stands for one certificate
/// in both.
pub open spec fn shared_fingerprints_agree(
    current: ConfigStateView,
    target: ConfigStateView,
) -> bool {
    forall|print: Seq<u8>|
        #![trigger has_key(current.certificates, print)]
        has_key(current.certificates, print) && has_key(target.certificates, print) ==> lookup(
            current.certificates,
            print,
        ) == lookup(target.certificates, print)
}

/// The certificates that a diff adds are kept under their fingerprints.
proof fn lemma_added_certificates_have_fingerprints(
    current: ConfigStateView,
    target: ConfigStateView,
)
    requires
        target.coherent(),
    ensures
        kept_under_fingerprint(certificates_only_in(target.certificates, current.certificates)),
{
    let added = certificates_only_in(target.certificates, current.certificates);
    assert forall|i: int| 0 <= i < added.len() implies fingerprint_of((#[trigger] added[i]).1)
        == Some(added[i].0) by {
        let entry = added[i];
        assert(added.contains(entry));
        lemma_filter_holds(
            target.certificates,
            certificate_missing_from(current.certificates),
            entry,
        );
        let at = choose|at: int|
            0 <= at < target.certificates.len() && target.certificates[at] == entry;
        assert(fingerprint_of(target.certificates[at].1) == Some(target.certificates[at].0));
    }
}

/// What a state holds after the orders of a diff. The HTTP fronts and the
/// instances are those of the target. Of the HTTPS fronts of the current
/// state, those stay whose application loses none; the new ones come. Of the
/// certificates of the current state, those stay that the target keeps
/// alike; those come whose fingerprint was free.
proof fn lemma_after_diff(current: ConfigStateView, target: ConfigStateView)
    requires
        current.valid(),
        current.coherent(),
        target.valid(),
        target.coherent(),
    ensures
        replay(current, diff(current, target)).entities() == (Entities {
            instances: target.entities().instances,
            http_fronts: target.entities().http_fronts,
            https_fronts: pairs_of_none_of(
                current.entities().https_fronts,
                only_in(current.https_fronts, target.https_fronts),
            ).union(only_in(target.https_fronts, current.https_fronts).to_set()),
            certificates: as_map(
                certificates_only_in(target.certificates, current.certificates),
            ).union_prefer_right(current.entities().certificates).remove_keys(
                keys_of(certificates_only_in(current.certificates, target.certificates)),
            ),
        }),
{
    let from = current.entities();
    let to = target.entities();
    let new_certificates = certificates_only_in(target.certificates, current.certificates);
    let old_fronts = only_in(current.http_fronts, target.http_fronts);
    let old_secure_fronts = only_in(current.https_fronts, target.https_fronts);
    let new_instances = only_in(target.instances, current.instances);
    let old_instances = only_in(current.instances, target.instances);
    let new_fronts = only_in(target.http_fronts, current.http_fronts);
    let new_secure_fronts = only_in(target.https_fronts, current.https_fronts);
    let old_certificates = certificates_only_in(current.certificates, target.certificates);
    let g1 = new_certificates.map_values(add_certificate());
    let g2 = old_fronts.map_values(remove_http_front());
    let g3 = old_secure_fronts.map_values(remove_https_front());
    let g4 = new_instances.map_values(add_instance());
    let g5 = old_instances.map_values(remove_instance());
    let g6 = new_fronts.map_values(add_http_front());
    let g7 = new_secure_fronts.map_values(add_https_front());
    let g8 = old_certificates.map_values(remove_certificate());
    lemma_replay_runs(current, diff(current, target));
    lemma_run_append(from, g1 + g2 + g3 + g4 + g5 + g6 + g7, g8);
    lemma_run_append(from, g1 + g2 + g3 + g4 + g5 + g6, g7);
    lemma_run_append(from, g1 + g2 + g3 + g4 + g5, g6);
    lemma_run_append(from, g1 + g2 + g3 + g4, g5);
    lemma_run_append(from, g1 + g2 + g3, g4);
    lemma_run_append(from, g1 + g2, g3);
    lemma_run_append(from, g1, g2);
    lemma_only_in_set(current.http_fronts, target.http_fronts, http_front_owner());
    lemma_only_in_set(target.http_fronts, current.http_fronts, http_front_owner());
    lemma_only_in_set(current.https_fronts, target.https_fronts, https_front_owner());
    lemma_only_in_set(target.https_fronts, current.https_fronts, https_front_owner());
    lemma_only_in_set(current.instances, target.instances, instance_owner());
    lemma_only_in_set(target.instances, current.instances, instance_owner());
    lemma_pairs_with_owner(current.http_fronts, http_front_owner());
    lemma_pairs_with_owner(current.instances, instance_owner());
    lemma_added_certificates_have_fingerprints(current, target);
    lemma_run_add_certificates(from, new_certificates);
    let e1 = run(from, g1);
    lemma_run_remove_http_fronts(e1, old_fronts);
    let e2 = run(e1, g2);
    lemma_run_remove_https_fronts(e2, old_secure_fronts);
    let e3 = run(e2, g3);
    lemma_run_add_instances(e3, new_instances);
    let e4 = run(e3, g4);
    lemma_run_remove_instances(e4, old_instances);
    let e5 = run(e4, g5);
    lemma_run_add_http_fronts(e5, new_fronts);
    let e6 = run(e5, g6);
    lemma_run_add_https_fronts(e6, new_secure_fronts);
    let e7 = run(e6, g7);
    lemma_run_remove_certificates(e7, old_certificates);
    let e8 = run(e7, g8);
    assert(e8.http_fronts =~= to.http_fronts);
    assert(e8.instances =~= to.instances);
}

/// The orders of a diff, replayed on the current state, lead to what the
/// target holds, in two cases excepted, and in no other. The removal of an
/// HTTPS front takes all the HTTPS fronts of its application: an
/// application that loses one and keeps another is left without any. And a
/// certificate is not added under a fingerprint that is taken: where the two
/// states have different certificates under one fingerprint, the new one is
/// not taken and the old one is removed.
pub proof fn law_diff_converges(current: ConfigStateView, target: ConfigStateView)
    requires
        current.valid(),
        current.coherent(),
        target.valid(),
        target.coherent(),
    ensures
        replay(current, diff(current, target)).entities() == target.entities() <==> (
        lost_https_fronts_leave_none(current, target) && shared_fingerprints_agree(
            current,
            target,
        )),
{
    let from = current.entities();
    let to = target.entities();
    let after = replay(current, diff(current, target)).entities();
    let new_certificates = certificates_only_in(target.certificates, current.certificates);
    let old_certificates = certificates_only_in(current.certificates, target.certificates);
    let old_secure_fronts = only_in(current.https_fronts, target.https_fronts);
    let new_secure_fronts = only_in(target.https_fronts, current.https_fronts);
    lemma_after_diff(current, target);
    lemma_only_in_set(current.https_fronts, target.https_fronts, https_front_owner());
    lemma_only_in_set(target.https_fronts, current.https_fronts, https_front_owner());
    assert forall|print: Seq<u8>|
        has_key(new_certificates, print) == (has_key(target.certificates, print) && lookup(
            current.certificates,
            print,
        ) != lookup(target.certificates, print)) && (has_key(new_certificates, print) ==> lookup(
            new_certificates,
            print,
        ) == lookup(target.certificates, print)) && has_key(old_certificates, print) == (has_key(
            current.certificates,
            print,
        ) && lookup(target.certificates, print) != lookup(current.certificates, print)) by {
        lemma_certificates_only_in(target.certificates, current.certificates, print);
        lemma_certificates_only_in(current.certificates, target.certificates, print);
    }
    if lost_https_fronts_leave_none(current, target) && shared_fingerprints_agree(
        current,
        target,
    ) {
        assert forall|pair: (Seq<char>, HttpsFrontView)|
            after.https_fronts.contains(pair) == #[trigger] to.https_fronts.contains(pair) by {
            if has_key(old_secure_fronts, pair.0) {
                let i = choose|i: int|
                    0 <= i < old_secure_fronts.len() && (#[trigger] old_secure_fronts[i]).0
                        == pair.0;
                let lost = old_secure_fronts[i];
                assert(old_secure_fronts.to_set().contains(lost));
                assert(holds(current.https_fronts, lost.0, lost.1));
            }
            if from.https_fronts.contains(pair) && !to.https_fronts.contains(pair) {
                assert(old_secure_fronts.to_set().contains(pair));
                let i = choose|i: int|
                    0 <= i < old_secure_fronts.len() && old_secure_fronts[i] == pair;
                assert(old_secure_fronts[i].0 == pair.0);
            }
        }
        assert(after.https_fronts =~= to.https_fronts);
        assert forall|print: Seq<u8>|
            after.certificates.dom().contains(print) == #[trigger] to.certificates.dom().contains(
                print,
            ) && (to.certificates.dom().contains(print) ==> after.certificates[print]
                == to.certificates[print]) by {
            if has_key(current.certificates, print) && has_key(target.certificates, print) {
                assert(lookup(current.certificates, print) == lookup(target.certificates, print));
            }
        }
        assert(after.certificates =~= to.certificates);
        assert(after == to);
    }
    if after == to {
        assert forall|key: Seq<char>, lost: HttpsFrontView, kept: HttpsFrontView|
            #![trigger holds(current.https_fronts, key, lost), holds(current.https_fronts, key, kept)]
            holds(current.https_fronts, key, lost) && !holds(target.https_fronts, key, lost)
                && holds(current.https_fronts, key, kept) implies !holds(
            target.https_fronts,
            key,
            kept,
        ) by {
            if holds(target.https_fronts, key, kept) {
                assert(old_secure_fronts.to_set().contains((key, lost)));
                let i = choose|i: int|
                    0 <= i < old_secure_fronts.len() && old_secure_fronts[i] == (key, lost);
                assert(old_secure_fronts[i].0 == key);
                assert(has_key(old_secure_fronts, key));
                assert(!new_secure_fronts.to_set().contains((key, kept)));
                assert(to.https_fronts.contains((key, kept)));
                assert(!after.https_fronts.contains((key, kept)));
            }
        }
        assert forall|print: Seq<u8>|
            #![trigger has_key(current.certificates, print)]
            has_key(current.certificates, print) && has_key(
                target.certificates,
                print,
            ) implies lookup(current.certificates, print) == lookup(
            target.certificates,
            print,
        ) by {
            if lookup(current.certificates, print) != lookup(target.certificates, print) {
                assert(has_key(old_certificates, print));
                assert(to.certificates.dom().contains(print));
                assert(!after.certificates.dom().contains(print));
            }
        }
    }
}

} // verus!
