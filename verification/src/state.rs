//! The configuration state: the fronts, instances and certificates that a
//! proxy should serve, the orders that change them, and the orders that lead
//! from one state to another.

use crate::certificate::{calculate_fingerprint, FingerprintError};
use crate::list_map::ListMap;
use crate::messages::{
    CertFingerprint, CertificateAndKey, CertificateAndKeyView, HttpFront, HttpFrontView,
    HttpsFront, HttpsFrontView, Instance, InstanceView, Order, OrderView,
};
use crate::model::{
    add_certificate, apply, certificate_missing_from, certificates_only_in, diff, dump,
    empty_state, remove_certificate, with_certificate, CertificateTable, ConfigStateView, Table,
};
use crate::soundness::law_apply_keeps_sound;
use crate::table::{add_item, announce_all, drop_items, tell_changes};
use crate::value::Value;
use vstd::prelude::*;
use vstd::std_specs::cmp::PartialEqSpecImpl;

verus! {

/// The name of an application.
pub type AppId = String;

/// The configuration of a proxy that listens for plain HTTP.
#[derive(Debug, Clone, PartialEq, Eq)]
pub struct HttpProxy {
    ip_address: String,
    port: u16,
    fronts: ListMap<AppId, Vec<HttpFront>>,
    instances: ListMap<AppId, Vec<Instance>>,
}

/// The configuration of a proxy that listens for HTTPS.
#[derive(Debug, Clone, PartialEq, Eq)]
pub struct HttpsProxy {
    ip_address: String,
    port: u16,
    certificates: ListMap<CertFingerprint, CertificateAndKey>,
    fronts: ListMap<AppId, Vec<HttpsFront>>,
    instances: ListMap<AppId, Vec<Instance>>,
}

/// What a proxy should serve: instances and fronts by application,
/// certificates by fingerprint, and the addresses to listen on.
#[derive(Debug)]
pub struct ConfigState {
    instances: ListMap<AppId, Vec<Instance>>,
    http_fronts: ListMap<AppId, Vec<HttpFront>>,
    https_fronts: ListMap<AppId, Vec<HttpsFront>>,
    certificates: ListMap<CertFingerprint, CertificateAndKey>,
    http_addresses: Vec<(String, u16)>,
    https_addresses: Vec<(String, u16)>,
}

impl View for ConfigState {
    type V = ConfigStateView;

    closed spec fn view(&self) -> ConfigStateView {
        ConfigStateView {
            instances: self.instances@,
            http_fronts: self.http_fronts@,
            https_fronts: self.https_fronts@,
            certificates: self.certificates@,
            http_addresses: self.http_addresses.deep_view(),
            https_addresses: self.https_addresses.deep_view(),
        }
    }
}

/// Appends to `orders` the addition of every certificate of `certificates`.
fn announce_certificates(
    orders: &mut Vec<Order>,
    certificates: &ListMap<CertFingerprint, CertificateAndKey>,
)
    ensures
        final(orders).deep_view() == old(orders).deep_view() + certificates@.map_values(
            add_certificate(),
        ),
{
    let ghost start = orders.deep_view();
    let mut i: usize = 0;
    assert(orders.deep_view() =~= start + certificates@.take(0).map_values(add_certificate()));
    while i < certificates.len()
        invariant
            i <= certificates@.len(),
            orders.deep_view() == start + certificates@.take(i as int).map_values(
                add_certificate(),
            ),
        decreases certificates@.len() - i,
    {
        let order = Order::AddCertificate(certificates.value(i).duplicate());
        let ghost before = orders.deep_view();
        orders.push(order);
        proof {
            assert(orders.deep_view() =~= before.push(order.deep_view()));
            assert(certificates@.take(i + 1) =~= certificates@.take(i as int).push(
                certificates@[i as int],
            ));
            assert(orders.deep_view() =~= start + certificates@.take(i + 1).map_values(
                add_certificate(),
            ));
        }
        i += 1;
    }
    assert(certificates@.take(i as int) =~= certificates@);
}

/// The order that tells of a certificate: its removal or its addition.
pub open spec fn telling_certificate(withdrawn: bool) -> spec_fn(
    (Seq<u8>, CertificateAndKeyView),
) -> OrderView {
    if withdrawn {
        remove_certificate()
    } else {
        add_certificate()
    }
}

/// Appends to `orders` one order for each entry of `listed` of which `other`
/// does not hold the like: its removal if `withdrawn`, else its addition.
fn tell_certificate_changes(
    orders: &mut Vec<Order>,
    listed: &ListMap<CertFingerprint, CertificateAndKey>,
    other: &ListMap<CertFingerprint, CertificateAndKey>,
    withdrawn: bool,
)
    ensures
        final(orders).deep_view() == old(orders).deep_view() + certificates_only_in(
            listed@,
            other@,
        ).map_values(telling_certificate(withdrawn)),
{
    let ghost start = orders.deep_view();
    let ghost tell = telling_certificate(withdrawn);
    let ghost missing = certificate_missing_from(other@);
    let mut i: usize = 0;
    assert(orders.deep_view() =~= start + listed@.take(0).filter(missing).map_values(tell)) by {
        reveal(Seq::filter);
    }
    while i < listed.len()
        invariant
            i <= listed@.len(),
            tell == telling_certificate(withdrawn),
            missing == certificate_missing_from(other@),
            orders.deep_view() == start + listed@.take(i as int).filter(missing).map_values(tell),
        decreases listed@.len() - i,
    {
        let print = listed.key(i);
        let certificate = listed.value(i);
        let ghost kept = listed@.take(i as int).filter(missing);
        proof {
            assert(listed@.take(i + 1) =~= listed@.take(i as int).push(listed@[i as int]));
            listed@.take(i as int).lemma_filter_push(listed@[i as int], missing);
        }
        let held = match other.get(print) {
            Some(theirs) => theirs.same(certificate),
            None => false,
        };
        if !held {
            let order = if withdrawn {
                Order::RemoveCertificate(print.duplicate())
            } else {
                Order::AddCertificate(certificate.duplicate())
            };
            let ghost before = orders.deep_view();
            orders.push(order);
            proof {
                assert(orders.deep_view() =~= before.push(order.deep_view()));
                assert(kept.push(listed@[i as int]).map_values(tell) =~= kept.map_values(
                    tell,
                ).push(order.deep_view()));
                assert(orders.deep_view() =~= start + kept.push(listed@[i as int]).map_values(
                    tell,
                ));
            }
        }
        i += 1;
    }
    assert(listed@.take(i as int) =~= listed@);
}

impl ConfigState {
    /// The state that holds nothing.
    pub fn new() -> (state: ConfigState)
        ensures
            state@ == empty_state(),
            state@.valid(),
            state@.coherent(),
    {
        let state = ConfigState {
            instances: ListMap::new(),
            http_fronts: ListMap::new(),
            https_fronts: ListMap::new(),
            certificates: ListMap::new(),
            http_addresses: Vec::new(),
            https_addresses: Vec::new(),
        };
        assert(state.http_addresses.deep_view() =~= Seq::empty());
        assert(state.https_addresses.deep_view() =~= Seq::empty());
        state
    }

    /// Adds an address on which to listen for HTTP.
    pub fn add_http_address(&mut self, ip_address: String, port: u16)
        ensures
            final(self)@ == (ConfigStateView {
                http_addresses: old(self)@.http_addresses.push((ip_address@, port)),
                ..old(self)@
            }),
    {
        self.http_addresses.push((ip_address, port));
        assert(self.http_addresses.deep_view() =~= old(self).http_addresses.deep_view().push(
            (ip_address@, port),
        ));
    }

    /// Adds an address on which to listen for HTTPS.
    pub fn add_https_address(&mut self, ip_address: String, port: u16)
        ensures
            final(self)@ == (ConfigStateView {
                https_addresses: old(self)@.https_addresses.push((ip_address@, port)),
                ..old(self)@
            }),
    {
        self.https_addresses.push((ip_address, port));
        assert(self.https_addresses.deep_view() =~= old(self).https_addresses.deep_view().push(
            (ip_address@, port),
        ));
    }

    /// Takes a certificate whose leaf has been fingerprinted with the outcome
    /// `outcome`. The certificate is stored under its fingerprint, unless the
    /// fingerprint is taken; where there is no fingerprint, nothing changes.
    pub fn store_certificate(
        &mut self,
        outcome: Result<Vec<u8>, FingerprintError>,
        certificate: &CertificateAndKey,
    )
        ensures
            final(self)@ == match outcome {
                Ok(print) => (ConfigStateView {
                    certificates: with_certificate(
                        old(self)@.certificates,
                        print@,
                        certificate@,
                    ),
                    ..old(self)@
                }),
                Err(_) => old(self)@,
            },
    {
        match outcome {
            Ok(bytes) => {
                let print = CertFingerprint(bytes);
                if !self.certificates.contains_key(&print) {
                    self.certificates.insert(print, certificate.duplicate());
                }
            },
            Err(_) => {},
        }
    }

    /// Follows `order`. An order of a kind that the state does not keep is
    /// ignored, and so is a certificate without a fingerprint.
    pub fn handle_order(&mut self, order: &Order)
        ensures
            final(self)@ == apply(old(self)@, order@),
            final(self)@.valid(),
            old(self)@.coherent() ==> final(self)@.coherent(),
    {
        proof {
            law_apply_keeps_sound(self@, order@);
        }
        match order {
            Order::AddHttpFront(front) => {
                add_item(&mut self.http_fronts, &front.app_id, front);
            },
            Order::RemoveHttpFront(front) => {
                drop_items(&mut self.http_fronts, &front.app_id, front);
            },
            Order::AddCertificate(certificate) => {
                let outcome = calculate_fingerprint(certificate.certificate.as_str().as_bytes());
                self.store_certificate(outcome, certificate);
            },
            Order::RemoveCertificate(print) => {
                self.certificates.remove(print);
            },
            Order::AddHttpsFront(front) => {
                add_item(&mut self.https_fronts, &front.app_id, front);
            },
            Order::RemoveHttpsFront(front) => {
                self.https_fronts.remove(&front.app_id);
            },
            Order::AddInstance(instance) => {
                add_item(&mut self.instances, &instance.app_id, instance);
            },
            Order::RemoveInstance(instance) => {
                drop_items(&mut self.instances, &instance.app_id, instance);
            },
            _ => {},
        }
        proof {
            use_type_invariant(&self.instances);
            use_type_invariant(&self.http_fronts);
            use_type_invariant(&self.https_fronts);
            use_type_invariant(&self.certificates);
        }
    }

    /// The orders that build this state up from nothing.
    pub fn generate_orders(&self) -> (orders: Vec<Order>)
        ensures
            orders.deep_view() == dump(self@),
            self@.valid(),
    {
        proof {
            use_type_invariant(&self.instances);
            use_type_invariant(&self.http_fronts);
            use_type_invariant(&self.https_fronts);
            use_type_invariant(&self.certificates);
        }
        let mut orders: Vec<Order> = Vec::new();
        announce_all(&mut orders, &self.http_fronts);
        announce_certificates(&mut orders, &self.certificates);
        announce_all(&mut orders, &self.https_fronts);
        announce_all(&mut orders, &self.instances);
        assert(orders.deep_view() =~= dump(self@));
        orders
    }

    /// The orders that lead a proxy from this state to `other`.
    pub fn diff(&self, other: &ConfigState) -> (orders: Vec<Order>)
        ensures
            orders.deep_view() == diff(self@, other@),
            self@.valid(),
            other@.valid(),
    {
        proof {
            use_type_invariant(&self.instances);
            use_type_invariant(&self.http_fronts);
            use_type_invariant(&self.https_fronts);
            use_type_invariant(&self.certificates);
            use_type_invariant(&other.instances);
            use_type_invariant(&other.http_fronts);
            use_type_invariant(&other.https_fronts);
            use_type_invariant(&other.certificates);
        }
        let mut orders: Vec<Order> = Vec::new();
        tell_certificate_changes(&mut orders, &other.certificates, &self.certificates, false);
        tell_changes(&mut orders, &self.http_fronts, &other.http_fronts, true);
        tell_changes(&mut orders, &self.https_fronts, &other.https_fronts, true);
        tell_changes(&mut orders, &other.instances, &self.instances, false);
        tell_changes(&mut orders, &self.instances, &other.instances, true);
        tell_changes(&mut orders, &other.http_fronts, &self.http_fronts, false);
        tell_changes(&mut orders, &other.https_fronts, &self.https_fronts, false);
        tell_certificate_changes(&mut orders, &self.certificates, &other.certificates, true);
        assert(orders.deep_view() =~= diff(self@, other@));
        orders
    }
}

impl ConfigState {
    /// The instances, by application.
    pub fn instances(&self) -> (table: &ListMap<AppId, Vec<Instance>>)
        ensures
            table@ == self@.instances,
    {
        &self.instances
    }

    /// The HTTP fronts, by application.
    pub fn http_fronts(&self) -> (table: &ListMap<AppId, Vec<HttpFront>>)
        ensures
            table@ == self@.http_fronts,
    {
        &self.http_fronts
    }

    /// The HTTPS fronts, by application.
    pub fn https_fronts(&self) -> (table: &ListMap<AppId, Vec<HttpsFront>>)
        ensures
            table@ == self@.https_fronts,
    {
        &self.https_fronts
    }

    /// The certificates, by fingerprint.
    pub fn certificates(&self) -> (table: &ListMap<CertFingerprint, CertificateAndKey>)
        ensures
            table@ == self@.certificates,
    {
        &self.certificates
    }

    /// The addresses on which to listen for HTTP.
    pub fn http_addresses(&self) -> (addresses: &Vec<(String, u16)>)
        ensures
            addresses.deep_view() == self@.http_addresses,
    {
        &self.http_addresses
    }

    /// The addresses on which to listen for HTTPS.
    pub fn https_addresses(&self) -> (addresses: &Vec<(String, u16)>)
        ensures
            addresses.deep_view() == self@.https_addresses,
    {
        &self.https_addresses
    }
}

impl Default for ConfigState {
    fn default() -> (state: ConfigState)
        ensures
            state@ == empty_state(),
    {
        ConfigState::new()
    }
}

/// A copy of `addresses`.
fn copy_addresses(addresses: &Vec<(String, u16)>) -> (copy: Vec<(String, u16)>)
    ensures
        copy.deep_view() == addresses.deep_view(),
{
    let mut copy: Vec<(String, u16)> = Vec::new();
    let mut i: usize = 0;
    while i < addresses.len()
        invariant
            i <= addresses.len(),
            copy.len() == i,
            forall|j: int| 0 <= j < i ==> copy[j].deep_view() == addresses[j].deep_view(),
        decreases addresses.len() - i,
    {
        copy.push((addresses[i].0.duplicate(), addresses[i].1));
        i += 1;
    }
    assert(copy.deep_view() =~= addresses.deep_view());
    copy
}

/// Whether the two lists hold the same addresses in the same order.
fn same_addresses(ours: &Vec<(String, u16)>, theirs: &Vec<(String, u16)>) -> (alike: bool)
    ensures
        alike == (ours.deep_view() == theirs.deep_view()),
{
    if ours.len() != theirs.len() {
        assert(ours.deep_view().len() != theirs.deep_view().len());
        return false;
    }
    let mut i: usize = 0;
    while i < ours.len()
        invariant
            i <= ours.len(),
            ours.len() == theirs.len(),
            forall|j: int| 0 <= j < i ==> ours[j].deep_view() == theirs[j].deep_view(),
        decreases ours.len() - i,
    {
        if !ours[i].0.same(&theirs[i].0) || ours[i].1 != theirs[i].1 {
            assert(ours.deep_view()[i as int] != theirs.deep_view()[i as int]);
            return false;
        }
        i += 1;
    }
    assert(ours.deep_view() =~= theirs.deep_view());
    true
}

impl PartialEq for ConfigState {
    fn eq(&self, other: &Self) -> (alike: bool) {
        self.instances.same_entries(&other.instances) && self.http_fronts.same_entries(
            &other.http_fronts,
        ) && self.https_fronts.same_entries(&other.https_fronts) && self.certificates.same_entries(
            &other.certificates,
        ) && same_addresses(&self.http_addresses, &other.http_addresses) && same_addresses(
            &self.https_addresses,
            &other.https_addresses,
        )
    }
}

impl PartialEqSpecImpl for ConfigState {
    open spec fn obeys_eq_spec() -> bool {
        true
    }

    open spec fn eq_spec(&self, other: &Self) -> bool {
        self@.same_as(other@)
    }
}

impl Eq for ConfigState {

}

impl Clone for ConfigState {
    fn clone(&self) -> (copy: ConfigState)
        ensures
            copy@ == self@,
    {
        ConfigState {
            instances: self.instances.clone(),
            http_fronts: self.http_fronts.clone(),
            https_fronts: self.https_fronts.clone(),
            certificates: self.certificates.clone(),
            http_addresses: copy_addresses(&self.http_addresses),
            https_addresses: copy_addresses(&self.https_addresses),
        }
    }
}

/// Collects the parts of a configuration state. Only the instances must be
/// given; each other part is empty unless it is set.
pub struct ConfigStateBuilder {
    instances: ListMap<AppId, Vec<Instance>>,
    http_fronts: Option<ListMap<AppId, Vec<HttpFront>>>,
    https_fronts: Option<ListMap<AppId, Vec<HttpsFront>>>,
    certificates: Option<ListMap<CertFingerprint, CertificateAndKey>>,
    http_addresses: Option<Vec<(String, u16)>>,
    https_addresses: Option<Vec<(String, u16)>>,
}

/// The model of a [`ConfigStateBuilder`]: the parts set so far.
pub struct ConfigStateBuilderView {
    pub instances: Table<InstanceView>,
    pub http_fronts: Option<Table<HttpFrontView>>,
    pub https_fronts: Option<Table<HttpsFrontView>>,
    pub certificates: Option<CertificateTable>,
    pub http_addresses: Option<Seq<(Seq<char>, u16)>>,
    pub https_addresses: Option<Seq<(Seq<char>, u16)>>,
}

/// `part`, or the empty sequence where it was not set.
pub open spec fn or_empty<A>(part: Option<Seq<A>>) -> Seq<A> {
    match part {
        Some(given) => given,
        None => Seq::empty(),
    }
}

impl ConfigStateBuilderView {
    /// The state that these parts make.
    pub open spec fn built(self) -> ConfigStateView {
        ConfigStateView {
            instances: self.instances,
            http_fronts: or_empty(self.http_fronts),
            https_fronts: or_empty(self.https_fronts),
            certificates: or_empty(self.certificates),
            http_addresses: or_empty(self.http_addresses),
            https_addresses: or_empty(self.https_addresses),
        }
    }
}

impl View for ConfigStateBuilder {
    type V = ConfigStateBuilderView;

    closed spec fn view(&self) -> ConfigStateBuilderView {
        ConfigStateBuilderView {
            instances: self.instances@,
            http_fronts: match self.http_fronts {
                Some(table) => Some(table@),
                None => None,
            },
            https_fronts: match self.https_fronts {
                Some(table) => Some(table@),
                None => None,
            },
            certificates: match self.certificates {
                Some(table) => Some(table@),
                None => None,
            },
            http_addresses: match self.http_addresses {
                Some(addresses) => Some(addresses.deep_view()),
                None => None,
            },
            https_addresses: match self.https_addresses {
                Some(addresses) => Some(addresses.deep_view()),
                None => None,
            },
        }
    }
}

impl ConfigStateBuilder {
    /// A builder that holds `instances` and nothing else.
    pub fn new(instances: ListMap<AppId, Vec<Instance>>) -> (builder: ConfigStateBuilder)
        ensures
            builder@ == (ConfigStateBuilderView {
                instances: instances@,
                http_fronts: None,
                https_fronts: None,
                certificates: None,
                http_addresses: None,
                https_addresses: None,
            }),
    {
        ConfigStateBuilder {
            instances: instances,
            http_fronts: None,
            https_fronts: None,
            certificates: None,
            http_addresses: None,
            https_addresses: None,
        }
    }

    /// Sets the HTTP fronts.
    pub fn http_fronts(self, http_fronts: ListMap<AppId, Vec<HttpFront>>) -> (builder:
        ConfigStateBuilder)
        ensures
            builder@ == (ConfigStateBuilderView { http_fronts: Some(http_fronts@), ..self@ }),
    {
        let mut builder = self;
        builder.http_fronts = Some(http_fronts);
        builder
    }

    /// Sets the HTTPS fronts.
    pub fn https_fronts(self, https_fronts: ListMap<AppId, Vec<HttpsFront>>) -> (builder:
        ConfigStateBuilder)
        ensures
            builder@ == (ConfigStateBuilderView { https_fronts: Some(https_fronts@), ..self@ }),
    {
        let mut builder = self;
        builder.https_fronts = Some(https_fronts);
        builder
    }

    /// Sets the certificates.
    pub fn certificates(
        self,
        certificates: ListMap<CertFingerprint, CertificateAndKey>,
    ) -> (builder: ConfigStateBuilder)
        ensures
            builder@ == (ConfigStateBuilderView { certificates: Some(certificates@), ..self@ }),
    {
        let mut builder = self;
        builder.certificates = Some(certificates);
        builder
    }

    /// Sets the addresses on which to listen for HTTP.
    pub fn http_addresses(self, http_addresses: Vec<(String, u16)>) -> (builder:
        ConfigStateBuilder)
        ensures
            builder@ == (ConfigStateBuilderView {
                http_addresses: Some(http_addresses.deep_view()),
                ..self@
            }),
    {
        let mut builder = self;
        builder.http_addresses = Some(http_addresses);
        builder
    }

    /// Sets the addresses on which to listen for HTTPS.
    pub fn https_addresses(self, https_addresses: Vec<(String, u16)>) -> (builder:
        ConfigStateBuilder)
        ensures
            builder@ == (ConfigStateBuilderView {
                https_addresses: Some(https_addresses.deep_view()),
                ..self@
            }),
    {
        let mut builder = self;
        builder.https_addresses = Some(https_addresses);
        builder
    }

    /// The state made of the parts set so far. Nothing is checked: the
    /// tables are taken as they are.
    pub fn build(self) -> (state: ConfigState)
        ensures
            state@ == self@.built(),
            state@.valid(),
    {
        let state = ConfigState {
            instances: self.instances,
            http_fronts: match self.http_fronts {
                Some(table) => table,
                None => ListMap::new(),
            },
            https_fronts: match self.https_fronts {
                Some(table) => table,
                None => ListMap::new(),
            },
            certificates: match self.certificates {
                Some(table) => table,
                None => ListMap::new(),
            },
            http_addresses: match self.http_addresses {
                Some(addresses) => addresses,
                None => Vec::new(),
            },
            https_addresses: match self.https_addresses {
                Some(addresses) => addresses,
                None => Vec::new(),
            },
        };
        assert(state.http_addresses.deep_view() =~= or_empty(self@.http_addresses));
        assert(state.https_addresses.deep_view() =~= or_empty(self@.https_addresses));
        proof {
            use_type_invariant(&state.instances);
            use_type_invariant(&state.http_fronts);
            use_type_invariant(&state.https_fronts);
            use_type_invariant(&state.certificates);
        }
        state
    }
}

} // verus!
