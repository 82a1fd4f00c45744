//! The mathematical model of a configuration state: what a state is, what an
//! order does to it, and which orders a dump and a diff consist of.

use crate::certificate::fingerprint;
use crate::list_map::{as_map, delete, distinct_keys, has_key, lookup, put};
use crate::messages::{
    CertificateAndKeyView, HttpFrontView, HttpsFrontView, InstanceView, OrderView,
};
use vstd::prelude::*;
use vstd::utf8::encode_utf8;

verus! {

/// The lists of entities of one kind, by application, in the order in which
/// the applications came.
pub type Table<E> = Seq<(Seq<char>, Seq<E>)>;

/// The certificates by fingerprint, in the order in which they came.
pub type CertificateTable = Seq<(Seq<u8>, CertificateAndKeyView)>;

/// The model of a configuration state.
#[verifier::ext_equal]
pub struct ConfigStateView {
    pub instances: Table<InstanceView>,
    pub http_fronts: Table<HttpFrontView>,
    pub https_fronts: Table<HttpsFrontView>,
    pub certificates: CertificateTable,
    pub http_addresses: Seq<(Seq<char>, u16)>,
    pub https_addresses: Seq<(Seq<char>, u16)>,
}

/// The application of an instance.
pub open spec fn instance_owner() -> spec_fn(InstanceView) -> Seq<char> {
    |instance: InstanceView| instance.app_id
}

/// The application of an HTTP front.
pub open spec fn http_front_owner() -> spec_fn(HttpFrontView) -> Seq<char> {
    |front: HttpFrontView| front.app_id
}

/// The application of an HTTPS front.
pub open spec fn https_front_owner() -> spec_fn(HttpsFrontView) -> Seq<char> {
    |front: HttpsFrontView| front.app_id
}

/// Whether every item of `table` is listed under the application that
/// `owner` gives it.
pub open spec fn listed_under_owner<E>(table: Table<E>, owner: spec_fn(E) -> Seq<char>) -> bool {
    forall|i: int, j: int|
        0 <= i < table.len() && 0 <= j < table[i].1.len() ==> owner(#[trigger] table[i].1[j])
            == table[i].0
}

/// Whether every certificate of `certificates` is kept under the fingerprint
/// of its leaf.
pub open spec fn kept_under_fingerprint(certificates: CertificateTable) -> bool {
    forall|i: int|
        0 <= i < certificates.len() ==> fingerprint_of((#[trigger] certificates[i]).1) == Some(
            certificates[i].0,
        )
}

/// The pairs of application and entity that `table` holds.
pub open spec fn pairs<E>(table: Table<E>) -> Set<(Seq<char>, E)> {
    Set::new(|pair: (Seq<char>, E)| holds(table, pair.0, pair.1))
}

/// What a state holds, whatever the order of its lists: the entities of each
/// kind with their applications, and the certificates by fingerprint.
#[verifier::ext_equal]
pub struct Entities {
    pub instances: Set<(Seq<char>, InstanceView)>,
    pub http_fronts: Set<(Seq<char>, HttpFrontView)>,
    pub https_fronts: Set<(Seq<char>, HttpsFrontView)>,
    pub certificates: Map<Seq<u8>, CertificateAndKeyView>,
}

impl ConfigStateView {
    /// Whether each table is a map: no application and no fingerprint has two
    /// entries. Every configuration state is valid.
    pub open spec fn valid(self) -> bool {
        &&& distinct_keys(self.instances)
        &&& distinct_keys(self.http_fronts)
        &&& distinct_keys(self.https_fronts)
        &&& distinct_keys(self.certificates)
    }

    /// Whether every entity is listed under its own application, and every
    /// certificate under the fingerprint of its leaf. The empty state is
    /// coherent, and an order leaves a coherent state coherent.
    pub open spec fn coherent(self) -> bool {
        &&& listed_under_owner(self.instances, instance_owner())
        &&& listed_under_owner(self.http_fronts, http_front_owner())
        &&& listed_under_owner(self.https_fronts, https_front_owner())
        &&& kept_under_fingerprint(self.certificates)
    }

    /// Whether the two states have the same lists for the same applications,
    /// the same certificates for the same fingerprints, and the same
    /// addresses, whatever the order of the applications and fingerprints.
    pub open spec fn same_as(self, other: ConfigStateView) -> bool {
        &&& as_map(self.instances) == as_map(other.instances)
        &&& as_map(self.http_fronts) == as_map(other.http_fronts)
        &&& as_map(self.https_fronts) == as_map(other.https_fronts)
        &&& as_map(self.certificates) == as_map(other.certificates)
        &&& self.http_addresses == other.http_addresses
        &&& self.https_addresses == other.https_addresses
    }

    /// What the state holds.
    pub open spec fn entities(self) -> Entities {
        Entities {
            instances: pairs(self.instances),
            http_fronts: pairs(self.http_fronts),
            https_fronts: pairs(self.https_fronts),
            certificates: as_map(self.certificates),
        }
    }
}

/// The state that holds nothing.
pub open spec fn empty_state() -> ConfigStateView {
    ConfigStateView {
        instances: Seq::empty(),
        http_fronts: Seq::empty(),
        https_fronts: Seq::empty(),
        certificates: Seq::empty(),
        http_addresses: Seq::empty(),
        https_addresses: Seq::empty(),
    }
}

/// Whether the list of `key` in `table` holds `item`.
pub open spec fn holds<E>(table: Table<E>, key: Seq<char>, item: E) -> bool {
    match lookup(table, key) {
        Some(items) => items.contains(item),
        None => false,
    }
}

/// Whether `certificates` keeps `certificate` under `print`.
pub open spec fn keeps(
    certificates: CertificateTable,
    print: Seq<u8>,
    certificate: CertificateAndKeyView,
) -> bool {
    lookup(certificates, print) == Some(certificate)
}

/// `table` with `item` at the end of the list of `key`, unless that list
/// holds `item` already. A new key gets a list of its own.
pub open spec fn with_item<E>(table: Table<E>, key: Seq<char>, item: E) -> Table<E> {
    match lookup(table, key) {
        Some(items) => if items.contains(item) {
            table
        } else {
            put(table, key, items.push(item))
        },
        None => put(table, key, seq![item]),
    }
}

/// `table` with the list of `key` cut down to the items that `keep` accepts.
pub open spec fn with_kept<E>(table: Table<E>, key: Seq<char>, keep: spec_fn(E) -> bool) -> Table<
    E,
> {
    match lookup(table, key) {
        Some(items) => put(table, key, items.filter(keep)),
        None => table,
    }
}

/// Accepts the fronts that differ from `front` in host name or path prefix.
pub open spec fn other_http_front(front: HttpFrontView) -> spec_fn(HttpFrontView) -> bool {
    |f: HttpFrontView| f.hostname != front.hostname || f.path_begin != front.path_begin
}

/// Accepts the instances that differ from `instance` in address or port.
pub open spec fn other_instance(instance: InstanceView) -> spec_fn(InstanceView) -> bool {
    |i: InstanceView| i.ip_address != instance.ip_address || i.port != instance.port
}

/// The fingerprint of the leaf certificate of `certificate`.
pub open spec fn fingerprint_of(certificate: CertificateAndKeyView) -> Option<Seq<u8>> {
    fingerprint(encode_utf8(certificate.certificate))
}

/// `certificates` with `certificate` under `print`, unless `print` is taken.
pub open spec fn with_certificate(
    certificates: CertificateTable,
    print: Seq<u8>,
    certificate: CertificateAndKeyView,
) -> CertificateTable {
    if has_key(certificates, print) {
        certificates
    } else {
        put(certificates, print, certificate)
    }
}

/// The state after `order`.
pub open spec fn apply(state: ConfigStateView, order: OrderView) -> ConfigStateView {
    match order {
        OrderView::AddHttpFront(front) => ConfigStateView {
            http_fronts: with_item(state.http_fronts, front.app_id, front),
            ..state
        },
        OrderView::RemoveHttpFront(front) => ConfigStateView {
            http_fronts: with_kept(state.http_fronts, front.app_id, other_http_front(front)),
            ..state
        },
        OrderView::AddHttpsFront(front) => ConfigStateView {
            https_fronts: with_item(state.https_fronts, front.app_id, front),
            ..state
        },
        OrderView::RemoveHttpsFront(front) => ConfigStateView {
            https_fronts: delete(state.https_fronts, front.app_id),
            ..state
        },
        OrderView::AddCertificate(certificate) => match fingerprint_of(certificate) {
            Some(print) => ConfigStateView {
                certificates: with_certificate(state.certificates, print, certificate),
                ..state
            },
            None => state,
        },
        OrderView::RemoveCertificate(print) => ConfigStateView {
            certificates: delete(state.certificates, print),
            ..state
        },
        OrderView::AddInstance(instance) => ConfigStateView {
            instances: with_item(state.instances, instance.app_id, instance),
            ..state
        },
        OrderView::RemoveInstance(instance) => ConfigStateView {
            instances: with_kept(state.instances, instance.app_id, other_instance(instance)),
            ..state
        },
        _ => state,
    }
}

/// The state after `orders`, applied from the first to the last.
pub open spec fn replay(state: ConfigStateView, orders: Seq<OrderView>) -> ConfigStateView
    decreases orders.len(),
{
    if orders.len() == 0 {
        state
    } else {
        apply(replay(state, orders.drop_last()), orders.last())
    }
}

/// Each of `items`, paired with `key`.
pub open spec fn under<E>(key: Seq<char>, items: Seq<E>) -> Seq<(Seq<char>, E)> {
    Seq::new(items.len(), |j: int| (key, items[j]))
}

/// The pairs of application and entity that `table` lists, entry by entry.
pub open spec fn listing<E>(table: Table<E>) -> Seq<(Seq<char>, E)>
    decreases table.len(),
{
    if table.len() == 0 {
        Seq::empty()
    } else {
        listing(table.drop_last()) + under(table.last().0, table.last().1)
    }
}

/// `items` without the repetitions of an earlier item.
pub open spec fn once<E>(items: Seq<E>) -> Seq<E>
    decreases items.len(),
{
    if items.len() == 0 {
        items
    } else if items.drop_last().contains(items.last()) {
        once(items.drop_last())
    } else {
        once(items.drop_last()).push(items.last())
    }
}

/// The pairs that `table` lists, each entry's list taken without repetitions.
pub open spec fn listing_once<E>(table: Table<E>) -> Seq<(Seq<char>, E)>
    decreases table.len(),
{
    if table.len() == 0 {
        Seq::empty()
    } else {
        listing_once(table.drop_last()) + under(table.last().0, once(table.last().1))
    }
}

/// Accepts the pairs that `table` does not hold.
pub open spec fn missing_from<E>(table: Table<E>) -> spec_fn((Seq<char>, E)) -> bool {
    |pair: (Seq<char>, E)| !holds(table, pair.0, pair.1)
}

/// The pairs that `listed` lists and `other` does not hold.
pub open spec fn only_in<E>(listed: Table<E>, other: Table<E>) -> Seq<(Seq<char>, E)> {
    listing_once(listed).filter(missing_from(other))
}

/// Accepts the entries of which `certificates` does not hold the like.
pub open spec fn certificate_missing_from(certificates: CertificateTable) -> spec_fn(
    (Seq<u8>, CertificateAndKeyView),
) -> bool {
    |entry: (Seq<u8>, CertificateAndKeyView)| !keeps(certificates, entry.0, entry.1)
}

/// The entries of `listed` of which `other` does not hold the like.
pub open spec fn certificates_only_in(
    listed: CertificateTable,
    other: CertificateTable,
) -> CertificateTable {
    listed.filter(certificate_missing_from(other))
}

/// The HTTP front of `key` with the host name and path prefix of `front`.
pub open spec fn http_front_under(key: Seq<char>, front: HttpFrontView) -> HttpFrontView {
    HttpFrontView { app_id: key, hostname: front.hostname, path_begin: front.path_begin }
}

/// The HTTPS front of `key` with the host name, path prefix and fingerprint
/// of `front`.
pub open spec fn https_front_under(key: Seq<char>, front: HttpsFrontView) -> HttpsFrontView {
    HttpsFrontView {
        app_id: key,
        hostname: front.hostname,
        path_begin: front.path_begin,
        fingerprint: front.fingerprint,
    }
}

/// The order that adds the HTTP front of a pair.
pub open spec fn add_http_front() -> spec_fn((Seq<char>, HttpFrontView)) -> OrderView {
    |pair: (Seq<char>, HttpFrontView)| OrderView::AddHttpFront(http_front_under(pair.0, pair.1))
}

/// The order that removes the HTTP front of a pair.
pub open spec fn remove_http_front() -> spec_fn((Seq<char>, HttpFrontView)) -> OrderView {
    |pair: (Seq<char>, HttpFrontView)| OrderView::RemoveHttpFront(http_front_under(pair.0, pair.1))
}

/// The order that adds the HTTPS front of a pair.
pub open spec fn add_https_front() -> spec_fn((Seq<char>, HttpsFrontView)) -> OrderView {
    |pair: (Seq<char>, HttpsFrontView)| OrderView::AddHttpsFront(https_front_under(pair.0, pair.1))
}

/// The order that removes the HTTPS front of a pair.
pub open spec fn remove_https_front() -> spec_fn((Seq<char>, HttpsFrontView)) -> OrderView {
    |pair: (Seq<char>, HttpsFrontView)|
        OrderView::RemoveHttpsFront(https_front_under(pair.0, pair.1))
}

/// The order that adds the instance of a pair, as it is.
pub open spec fn add_instance() -> spec_fn((Seq<char>, InstanceView)) -> OrderView {
    |pair: (Seq<char>, InstanceView)| OrderView::AddInstance(pair.1)
}

/// The order that removes the instance of a pair, as it is.
pub open spec fn remove_instance() -> spec_fn((Seq<char>, InstanceView)) -> OrderView {
    |pair: (Seq<char>, InstanceView)| OrderView::RemoveInstance(pair.1)
}

/// The order that adds the certificate of an entry.
pub open spec fn add_certificate() -> spec_fn((Seq<u8>, CertificateAndKeyView)) -> OrderView {
    |entry: (Seq<u8>, CertificateAndKeyView)| OrderView::AddCertificate(entry.1)
}

/// The order that removes the fingerprint of an entry.
pub open spec fn remove_certificate() -> spec_fn((Seq<u8>, CertificateAndKeyView)) -> OrderView {
    |entry: (Seq<u8>, CertificateAndKeyView)| OrderView::RemoveCertificate(entry.0)
}

/// The orders that build `state` up from nothing: the HTTP fronts, then the
/// certificates, then the HTTPS fronts, then the instances. The certificates
/// come before the HTTPS fronts that name them.
pub open spec fn dump(state: ConfigStateView) -> Seq<OrderView> {
    let http_fronts = listing(state.http_fronts).map_values(add_http_front());
    let certificates = state.certificates.map_values(add_certificate());
    let https_fronts = listing(state.https_fronts).map_values(add_https_front());
    let instances = listing(state.instances).map_values(add_instance());
    http_fronts + certificates + https_fronts + instances
}

/// The orders that lead from `current` to `target`: one for each entity and
/// each certificate that only one of the two holds, in the order in which a
/// running proxy can take them. New certificates come first and old ones go
/// last; old fronts go before new instances come and old instances go; new
/// fronts come after that.
pub open spec fn diff(current: ConfigStateView, target: ConfigStateView) -> Seq<OrderView> {
    let added_certificates = certificates_only_in(
        target.certificates,
        current.certificates,
    ).map_values(add_certificate());
    let removed_http_fronts = only_in(current.http_fronts, target.http_fronts).map_values(
        remove_http_front(),
    );
    let removed_https_fronts = only_in(current.https_fronts, target.https_fronts).map_values(
        remove_https_front(),
    );
    let added_instances = only_in(target.instances, current.instances).map_values(add_instance());
    let removed_instances = only_in(current.instances, target.instances).map_values(
        remove_instance(),
    );
    let added_http_fronts = only_in(target.http_fronts, current.http_fronts).map_values(
        add_http_front(),
    );
    let added_https_fronts = only_in(target.https_fronts, current.https_fronts).map_values(
        add_https_front(),
    );
    let removed_certificates = certificates_only_in(
        current.certificates,
        target.certificates,
    ).map_values(remove_certificate());
    added_certificates + removed_http_fronts + removed_https_fronts + added_instances
        + removed_instances + added_http_fronts + added_https_fronts + removed_certificates
}

} // verus!
