//! Which states are sound: valid, so that each table is a map, and coherent,
//! so that every entity is listed under its own application and every
//! certificate under its own fingerprint. The empty state is sound, and
//! orders and routing rules keep a state sound.

use crate::entities::{lemma_apply_steps, lemma_filter_holds};
use crate::list_map::{
    delete, distinct_keys, has_key, lemma_position, lemma_put, lookup, position, put,
};
use crate::messages::{CertificateAndKeyView, HttpFrontView, HttpsFrontView, OrderView};
use crate::model::{
    apply, empty_state, fingerprint_of, http_front_owner, https_front_owner, instance_owner,
    kept_under_fingerprint, listed_under_owner, other_http_front, other_instance, replay,
    with_certificate, with_item, with_kept, CertificateTable, ConfigStateView, Table,
};
use crate::routing::{
    authorities, certificate_of, configured, configured_from, instances_at, path_of, routed,
    routed_all, with_listed, RoutingConfigView,
};
use vstd::prelude::*;

verus! {

/// A table that lists every entity under its owner still does so when the
/// list of `key` is replaced by entities of `key`.
proof fn lemma_put_under_owner<E>(
    table: Table<E>,
    key: Seq<char>,
    items: Seq<E>,
    owner: spec_fn(E) -> Seq<char>,
)
    requires
        listed_under_owner(table, owner),
        forall|j: int| 0 <= j < items.len() ==> owner(#[trigger] items[j]) == key,
    ensures
        listed_under_owner(put(table, key, items), owner),
{
    let after = put(table, key, items);
    if has_key(table, key) {
        lemma_position(table, key);
    }
    assert forall|i: int, j: int| 0 <= i < after.len() && 0 <= j < after[i].1.len() implies owner(
        #[trigger] after[i].1[j],
    ) == after[i].0 by {
        if after[i] != (key, items) {
            assert(after[i] == table[i]);
            assert(owner(table[i].1[j]) == table[i].0);
        }
    }
}

/// A table that lists every entity under its owner still does so without
/// the entry of `key`.
proof fn lemma_delete_under_owner<E>(
    table: Table<E>,
    key: Seq<char>,
    owner: spec_fn(E) -> Seq<char>,
)
    requires
        listed_under_owner(table, owner),
    ensures
        listed_under_owner(delete(table, key), owner),
{
    let after = delete(table, key);
    if has_key(table, key) {
        lemma_position(table, key);
        let place = position(table, key);
        assert forall|i: int, j: int|
            0 <= i < after.len() && 0 <= j < after[i].1.len() implies owner(
            #[trigger] after[i].1[j],
        ) == after[i].0 by {
            let at = if i < place { i } else { i + 1 };
            assert(after[i] == table[at]);
            assert(owner(table[at].1[j]) == table[at].0);
        }
    }
}

/// A table that lists every entity under its owner still does so when it
/// takes an entity under its owner.
proof fn lemma_with_item_under_owner<E>(
    table: Table<E>,
    key: Seq<char>,
    item: E,
    owner: spec_fn(E) -> Seq<char>,
)
    requires
        listed_under_owner(table, owner),
        owner(item) == key,
    ensures
        listed_under_owner(with_item(table, key, item), owner),
{
    match lookup(table, key) {
        Some(items) => {
            lemma_position(table, key);
            let place = position(table, key);
            assert forall|j: int| 0 <= j < items.push(item).len() implies owner(
                #[trigger] items.push(item)[j],
            ) == key by {
                if j < items.len() {
                    assert(owner(table[place].1[j]) == table[place].0);
                }
            }
            lemma_put_under_owner(table, key, items.push(item), owner);
        },
        None => {
            lemma_put_under_owner(table, key, seq![item], owner);
        },
    }
}

/// A table that lists every entity under its owner still does so when a
/// list is cut down.
proof fn lemma_with_kept_under_owner<E>(
    table: Table<E>,
    key: Seq<char>,
    keep: spec_fn(E) -> bool,
    owner: spec_fn(E) -> Seq<char>,
)
    requires
        listed_under_owner(table, owner),
    ensures
        listed_under_owner(with_kept(table, key, keep), owner),
{
    match lookup(table, key) {
        Some(items) => {
            lemma_position(table, key);
            let place = position(table, key);
            let kept = items.filter(keep);
            assert forall|j: int| 0 <= j < kept.len() implies owner(#[trigger] kept[j])
                == key by {
                assert(kept.contains(kept[j]));
                lemma_filter_holds(items, keep, kept[j]);
                let at = choose|at: int| 0 <= at < items.len() && items[at] == kept[j];
                assert(owner(table[place].1[at]) == table[place].0);
            }
            lemma_put_under_owner(table, key, kept, owner);
        },
        None => {},
    }
}

/// A table that lists every entity under its owner still does so when
/// entities of `key` are put at the end of the list of `key`, and a table
/// without repeated keys gets none.
proof fn lemma_with_listed<E>(
    table: Table<E>,
    key: Seq<char>,
    items: Seq<E>,
    owner: spec_fn(E) -> Seq<char>,
)
    requires
        forall|j: int| 0 <= j < items.len() ==> owner(#[trigger] items[j]) == key,
    ensures
        distinct_keys(table) ==> distinct_keys(with_listed(table, key, items)),
        listed_under_owner(table, owner) ==> listed_under_owner(
            with_listed(table, key, items),
            owner,
        ),
{
    match lookup(table, key) {
        Some(listed) => {
            lemma_put(table, key, listed + items, key);
            if listed_under_owner(table, owner) {
                lemma_position(table, key);
                let place = position(table, key);
                assert forall|j: int| 0 <= j < (listed + items).len() implies owner(
                    #[trigger] (listed + items)[j],
                ) == key by {
                    if j < listed.len() {
                        assert(owner(table[place].1[j]) == table[place].0);
                    } else {
                        assert((listed + items)[j] == items[j - listed.len()]);
                    }
                }
                lemma_put_under_owner(table, key, listed + items, owner);
            }
        },
        None => {
            lemma_put(table, key, items, key);
            if listed_under_owner(table, owner) {
                lemma_put_under_owner(table, key, items, owner);
            }
        },
    }
}

/// Certificates that are kept under their fingerprints are still so when one
/// takes the place that its fingerprint gives it.
proof fn lemma_put_under_fingerprint(
    certificates: CertificateTable,
    print: Seq<u8>,
    certificate: CertificateAndKeyView,
)
    requires
        kept_under_fingerprint(certificates),
        fingerprint_of(certificate) == Some(print),
    ensures
        kept_under_fingerprint(put(certificates, print, certificate)),
{
    let kept = put(certificates, print, certificate);
    if has_key(certificates, print) {
        lemma_position(certificates, print);
    }
    assert forall|i: int| 0 <= i < kept.len() implies fingerprint_of((#[trigger] kept[i]).1)
        == Some(kept[i].0) by {
        if kept[i] != (print, certificate) {
            assert(kept[i] == certificates[i]);
        }
    }
}

/// A routing rule leaves a valid state valid, and a coherent state coherent.
pub proof fn law_route_keeps_sound(
    state: ConfigStateView,
    app: Seq<char>,
    route: RoutingConfigView,
)
    ensures
        routed(state, app, route) matches Ok(next) ==> (state.valid() ==> next.valid()) && (
        state.coherent() ==> next.coherent()),
{
    if let Ok(next) = routed(state, app, route) {
        let addresses = authorities(route.backends)->0;
        let front = HttpFrontView {
            app_id: app,
            hostname: route.hostname,
            path_begin: path_of(route),
        };
        lemma_with_listed(state.instances, app, instances_at(app, addresses), instance_owner());
        lemma_with_listed(state.http_fronts, app, seq![front], http_front_owner());
        if route.frontends.contains("HTTPS"@) {
            let certificate = certificate_of(route);
            let print = fingerprint_of(certificate)->0;
            let secure_front = HttpsFrontView {
                app_id: app,
                hostname: route.hostname,
                path_begin: path_of(route),
                fingerprint: print,
            };
            lemma_with_listed(state.https_fronts, app, seq![secure_front], https_front_owner());
            lemma_put(state.certificates, print, certificate, print);
            if state.coherent() && !has_key(state.certificates, print) {
                lemma_put_under_fingerprint(state.certificates, print, certificate);
            }
        }
    }
}

/// The routing rules of an application leave a valid state valid, and a
/// coherent state coherent.
proof fn lemma_routes_keep_sound(
    state: ConfigStateView,
    app: Seq<char>,
    routes: Seq<RoutingConfigView>,
)
    ensures
        routed_all(state, app, routes) matches Ok(last) ==> (state.valid() ==> last.valid()) && (
        state.coherent() ==> last.coherent()),
    decreases routes.len(),
{
    if routes.len() > 0 {
        law_route_keeps_sound(state, app, routes[0]);
        if let Ok(next) = routed(state, app, routes[0]) {
            lemma_routes_keep_sound(next, app, routes.skip(1));
        }
    }
}

/// The routing rules of applications leave a valid state valid, and a
/// coherent state coherent.
proof fn lemma_applications_keep_sound(
    state: ConfigStateView,
    applications: Seq<(Seq<char>, Seq<RoutingConfigView>)>,
)
    ensures
        configured_from(state, applications) matches Ok(last) ==> (state.valid()
            ==> last.valid()) && (state.coherent() ==> last.coherent()),
    decreases applications.len(),
{
    if applications.len() > 0 {
        lemma_routes_keep_sound(state, applications[0].0, applications[0].1);
        if let Ok(next) = routed_all(state, applications[0].0, applications[0].1) {
            lemma_applications_keep_sound(next, applications.skip(1));
        }
    }
}

/// The state that routing rules make is valid and coherent.
pub proof fn law_routes_make_sound_states(applications: Seq<(Seq<char>, Seq<RoutingConfigView>)>)
    ensures
        configured(applications) matches Ok(state) ==> state.valid() && state.coherent(),
{
    lemma_applications_keep_sound(empty_state(), applications);
}

/// The empty state is valid and coherent.
pub proof fn law_empty_state_is_sound()
    ensures
        empty_state().valid(),
        empty_state().coherent(),
{
}

/// An order leaves a valid state valid, and a coherent state coherent.
pub proof fn law_apply_keeps_sound(state: ConfigStateView, order: OrderView)
    ensures
        state.valid() ==> apply(state, order).valid(),
        state.coherent() ==> apply(state, order).coherent(),
{
    if state.valid() {
        lemma_apply_steps(state, order);
    }
    if state.coherent() {
        match order {
            OrderView::AddHttpFront(front) => {
                lemma_with_item_under_owner(
                    state.http_fronts,
                    front.app_id,
                    front,
                    http_front_owner(),
                );
            },
            OrderView::RemoveHttpFront(front) => {
                lemma_with_kept_under_owner(
                    state.http_fronts,
                    front.app_id,
                    other_http_front(front),
                    http_front_owner(),
                );
            },
            OrderView::AddHttpsFront(front) => {
                lemma_with_item_under_owner(
                    state.https_fronts,
                    front.app_id,
                    front,
                    https_front_owner(),
                );
            },
            OrderView::RemoveHttpsFront(front) => {
                lemma_delete_under_owner(state.https_fronts, front.app_id, https_front_owner());
            },
            OrderView::AddCertificate(certificate) => {
                match fingerprint_of(certificate) {
                    Some(print) => {
                        let kept = with_certificate(state.certificates, print, certificate);
                        assert forall|i: int| 0 <= i < kept.len() implies fingerprint_of(
                            (#[trigger] kept[i]).1,
                        ) == Some(kept[i].0) by {
                            if i < state.certificates.len() {
                                assert(kept[i] == state.certificates[i]);
                            }
                        }
                    },
                    None => {},
                }
            },
            OrderView::RemoveCertificate(print) => {
                let kept = delete(state.certificates, print);
                if has_key(state.certificates, print) {
                    lemma_position(state.certificates, print);
                    let place = position(state.certificates, print);
                    assert forall|i: int| 0 <= i < kept.len() implies fingerprint_of(
                        (#[trigger] kept[i]).1,
                    ) == Some(kept[i].0) by {
                        let at = if i < place { i } else { i + 1 };
                        assert(kept[i] == state.certificates[at]);
                    }
                }
            },
            OrderView::AddInstance(instance) => {
                lemma_with_item_under_owner(
                    state.instances,
                    instance.app_id,
                    instance,
                    instance_owner(),
                );
            },
            OrderView::RemoveInstance(instance) => {
                lemma_with_kept_under_owner(
                    state.instances,
                    instance.app_id,
                    other_instance(instance),
                    instance_owner(),
                );
            },
            _ => {},
        }
    }
}

/// Orders leave a valid state valid, and a coherent state coherent.
pub proof fn law_replay_keeps_sound(state: ConfigStateView, orders: Seq<OrderView>)
    ensures
        state.valid() ==> replay(state, orders).valid(),
        state.coherent() ==> replay(state, orders).coherent(),
    decreases orders.len(),
{
    if orders.len() > 0 {
        law_replay_keeps_sound(state, orders.drop_last());
        law_apply_keeps_sound(replay(state, orders.drop_last()), orders.last());
    }
}

} // verus!
