//! The routing rules of the applications, as an operator writes them, and
//! the configuration state that they make.

use crate::authority::{authority, parse_authority};
use crate::certificate::calculate_fingerprint;
use crate::list_map::{lemma_position, lookup, put, ListMap};
use crate::messages::{
    CertFingerprint, CertificateAndKey, CertificateAndKeyView, HttpFront, HttpFrontView,
    HttpsFront, HttpsFrontView, Instance, InstanceView,
};
use crate::model::{empty_state, fingerprint_of, with_certificate, ConfigStateView, Table};
use crate::soundness::law_routes_make_sound_states;
use crate::state::{or_empty, AppId, ConfigState, ConfigStateBuilder};
use crate::value::Value;
use vstd::prelude::*;
use vstd::string::*;

verus! {

/// One routing rule of an application: a host name and a path prefix, the
/// protocols on which the proxy serves them, the certificate for HTTPS, and
/// the backends that serve the application.
#[derive(Debug)]
pub struct RoutingConfig {
    pub hostname: String,
    /// The path prefix; `/` where none is given.
    pub path_begin: Option<String>,
    /// The leaf certificate, in PEM.
    pub certificate: Option<String>,
    /// The private key, in PEM.
    pub key: Option<String>,
    /// The intermediate certificates, each in PEM.
    pub certificate_chain: Option<Vec<String>>,
    /// The protocols: `HTTP`, `HTTPS`.
    pub frontends: Vec<String>,
    /// The backends, each written as a host, or as a host, a colon and a port.
    pub backends: Vec<String>,
}

/// The model of a [`RoutingConfig`].
pub struct RoutingConfigView {
    pub hostname: Seq<char>,
    pub path_begin: Option<Seq<char>>,
    pub certificate: Option<Seq<char>>,
    pub key: Option<Seq<char>>,
    pub certificate_chain: Option<Seq<Seq<char>>>,
    pub frontends: Seq<Seq<char>>,
    pub backends: Seq<Seq<char>>,
}

impl DeepView for RoutingConfig {
    type V = RoutingConfigView;

    open spec fn deep_view(&self) -> RoutingConfigView {
        RoutingConfigView {
            hostname: self.hostname@,
            path_begin: self.path_begin.deep_view(),
            certificate: self.certificate.deep_view(),
            key: self.key.deep_view(),
            certificate_chain: self.certificate_chain.deep_view(),
            frontends: self.frontends.deep_view(),
            backends: self.backends.deep_view(),
        }
    }
}

impl View for RoutingConfig {
    type V = RoutingConfigView;

    open spec fn view(&self) -> RoutingConfigView {
        self.deep_view()
    }
}

/// Why routing rules make no configuration state.
#[derive(Debug, PartialEq, Eq, Structural)]
pub enum RoutingError {
    /// An address with a port that is no number of 16 bits.
    InvalidBackend,
    /// A rule for HTTPS without a certificate.
    MissingCertificate,
    /// A rule for HTTPS without a private key.
    MissingKey,
    /// A certificate without a fingerprint.
    InvalidCertificate,
}

/// The addresses that `backends` write, if each of them writes one.
pub open spec fn authorities(backends: Seq<Seq<char>>) -> Option<Seq<(Seq<char>, u16)>> {
    if forall|i: int| 0 <= i < backends.len() ==> authority(#[trigger] backends[i]) is Some {
        Some(backends.map_values(|text: Seq<char>| authority(text)->0))
    } else {
        None
    }
}

/// `table` with `items` at the end of the list of `key`. A new key gets a
/// list of its own.
pub open spec fn with_listed<E>(table: Table<E>, key: Seq<char>, items: Seq<E>) -> Table<E> {
    match lookup(table, key) {
        Some(listed) => put(table, key, listed + items),
        None => put(table, key, items),
    }
}

/// The instances of `app` at `addresses`.
pub open spec fn instances_at(app: Seq<char>, addresses: Seq<(Seq<char>, u16)>) -> Seq<
    InstanceView,
> {
    addresses.map_values(
        |address: (Seq<char>, u16)|
            InstanceView { app_id: app, ip_address: address.0, port: address.1 },
    )
}

/// The path prefix of `route`: `/` where none is given.
pub open spec fn path_of(route: RoutingConfigView) -> Seq<char> {
    match route.path_begin {
        Some(path) => path,
        None => "/"@,
    }
}

/// The certificate of `route`, with an empty chain where none is given.
pub open spec fn certificate_of(route: RoutingConfigView) -> CertificateAndKeyView {
    CertificateAndKeyView {
        certificate: route.certificate->0,
        certificate_chain: or_empty(route.certificate_chain),
        key: route.key->0,
    }
}

/// `state` with the rule `route` of `app`.
///
/// Every backend of the rule is an instance of `app`. A rule for HTTP gives
/// `app` an HTTP front, and a rule for HTTPS an HTTPS front and its
/// certificate, which is kept under its fingerprint unless the fingerprint
/// is taken. The addresses of the rule are also addresses on which to
/// listen, for each protocol that the rule names.
pub open spec fn routed(state: ConfigStateView, app: Seq<char>, route: RoutingConfigView) -> Result<
    ConfigStateView,
    RoutingError,
> {
    let plain = route.frontends.contains("HTTP"@);
    let secure = route.frontends.contains("HTTPS"@);
    match authorities(route.backends) {
        None => Err(RoutingError::InvalidBackend),
        Some(addresses) => {
            let served = ConfigStateView {
                instances: with_listed(state.instances, app, instances_at(app, addresses)),
                ..state
            };
            let first = if plain {
                ConfigStateView {
                    http_fronts: with_listed(
                        served.http_fronts,
                        app,
                        seq![
                            HttpFrontView {
                                app_id: app,
                                hostname: route.hostname,
                                path_begin: path_of(route),
                            },
                        ],
                    ),
                    http_addresses: served.http_addresses + addresses,
                    ..served
                }
            } else {
                served
            };
            if !secure {
                Ok(first)
            } else if route.certificate is None {
                Err(RoutingError::MissingCertificate)
            } else if route.key is None {
                Err(RoutingError::MissingKey)
            } else {
                match fingerprint_of(certificate_of(route)) {
                    None => Err(RoutingError::InvalidCertificate),
                    Some(print) => Ok(
                        ConfigStateView {
                            certificates: with_certificate(
                                first.certificates,
                                print,
                                certificate_of(route),
                            ),
                            https_fronts: with_listed(
                                first.https_fronts,
                                app,
                                seq![
                                    HttpsFrontView {
                                        app_id: app,
                                        hostname: route.hostname,
                                        path_begin: path_of(route),
                                        fingerprint: print,
                                    },
                                ],
                            ),
                            https_addresses: first.https_addresses + addresses,
                            ..first
                        },
                    ),
                }
            }
        },
    }
}

/// `state` with the rules `routes` of `app`, from the first to the last, up
/// to the first that fails.
pub open spec fn routed_all(
    state: ConfigStateView,
    app: Seq<char>,
    routes: Seq<RoutingConfigView>,
) -> Result<ConfigStateView, RoutingError>
    decreases routes.len(),
{
    if routes.len() == 0 {
        Ok(state)
    } else {
        match routed(state, app, routes[0]) {
            Ok(next) => routed_all(next, app, routes.skip(1)),
            Err(e) => Err(e),
        }
    }
}

/// `state` with the rules of `applications`, from the first application to
/// the last, up to the first rule that fails.
pub open spec fn configured_from(
    state: ConfigStateView,
    applications: Seq<(Seq<char>, Seq<RoutingConfigView>)>,
) -> Result<ConfigStateView, RoutingError>
    decreases applications.len(),
{
    if applications.len() == 0 {
        Ok(state)
    } else {
        match routed_all(state, applications[0].0, applications[0].1) {
            Ok(next) => configured_from(next, applications.skip(1)),
            Err(e) => Err(e),
        }
    }
}

/// The state that the rules of `applications` make.
pub open spec fn configured(applications: Seq<(Seq<char>, Seq<RoutingConfigView>)>) -> Result<
    ConfigStateView,
    RoutingError,
> {
    configured_from(empty_state(), applications)
}

/// Whether `tags` holds `tag`.
pub fn has_tag(tags: &Vec<String>, tag: &str) -> (found: bool)
    ensures
        found == tags.deep_view().contains(tag@),
{
    let wanted = tag.to_owned();
    let mut i: usize = 0;
    while i < tags.len()
        invariant
            i <= tags.len(),
            wanted@ == tag@,
            forall|j: int| 0 <= j < i ==> tags.deep_view()[j] != tag@,
        decreases tags.len() - i,
    {
        if tags[i].same(&wanted) {
            assert(tags.deep_view()[i as int] == tag@);
            return true;
        }
        i += 1;
    }
    false
}

/// Reads the addresses that `backends` write, if each of them writes one.
pub fn read_backends(backends: &Vec<String>) -> (read: Option<Vec<(String, u16)>>)
    ensures
        match read {
            Some(addresses) => authorities(backends.deep_view()) == Some(addresses.deep_view()),
            None => authorities(backends.deep_view()) is None,
        },
{
    let mut addresses: Vec<(String, u16)> = Vec::new();
    let mut i: usize = 0;
    while i < backends.len()
        invariant
            i <= backends.len(),
            addresses.len() == i,
            forall|j: int|
                0 <= j < i ==> authority(#[trigger] backends.deep_view()[j]) == Some(
                    addresses.deep_view()[j],
                ),
        decreases backends.len() - i,
    {
        match parse_authority(backends[i].as_str()) {
            Some(address) => {
                assert(authority(backends.deep_view()[i as int]) == Some(address.deep_view()));
                addresses.push(address);
            },
            None => {
                assert(authority(backends.deep_view()[i as int]) is None);
                return None;
            },
        }
        i += 1;
    }
    assert(addresses.deep_view() =~= backends.deep_view().map_values(
        |text: Seq<char>| authority(text)->0,
    ));
    Some(addresses)
}

/// Puts a copy of each of `items` at the end of the list of `key`.
fn list_items<T: Value>(table: &mut ListMap<AppId, Vec<T>>, key: &String, items: &Vec<T>)
    ensures
        final(table)@ == with_listed(old(table)@, key@, items.deep_view()),
{
    match table.find(key) {
        Some(place) => {
            proof {
                lemma_position(table@, key@);
            }
            let ghost listed = table@[place as int].1;
            let mut i: usize = 0;
            assert(table@ =~= old(table)@.update(
                place as int,
                (key@, listed + items.deep_view().take(0)),
            ));
            while i < items.len()
                invariant
                    i <= items.len(),
                    place < old(table)@.len(),
                    table@ == old(table)@.update(
                        place as int,
                        (key@, listed + items.deep_view().take(i as int)),
                    ),
                decreases items.len() - i,
            {
                table.push_value(place, items[i].duplicate());
                assert(table@ =~= old(table)@.update(
                    place as int,
                    (key@, listed + items.deep_view().take(i + 1)),
                )) by {
                    assert((listed + items.deep_view().take(i as int)).push(
                        items.deep_view()[i as int],
                    ) =~= listed + items.deep_view().take(i + 1));
                }
                i += 1;
            }
            assert(items.deep_view().take(i as int) =~= items.deep_view());
        },
        None => {
            table.insert(key.duplicate(), items.duplicate());
        },
    }
}

/// Puts a copy of each of `more` at the end of `addresses`.
fn add_addresses(addresses: &mut Vec<(String, u16)>, more: &Vec<(String, u16)>)
    ensures
        final(addresses).deep_view() == old(addresses).deep_view() + more.deep_view(),
{
    let mut i: usize = 0;
    assert(addresses.deep_view() =~= old(addresses).deep_view() + more.deep_view().take(0));
    while i < more.len()
        invariant
            i <= more.len(),
            addresses.deep_view() == old(addresses).deep_view() + more.deep_view().take(i as int),
        decreases more.len() - i,
    {
        let ghost before = addresses.deep_view();
        let copy = (more[i].0.duplicate(), more[i].1);
        addresses.push(copy);
        assert(addresses.deep_view() =~= before.push(copy.deep_view()));
        assert(addresses.deep_view() =~= old(addresses).deep_view() + more.deep_view().take(
            i + 1,
        ));
        i += 1;
    }
    assert(more.deep_view().take(i as int) =~= more.deep_view());
}

/// The instances of `app` at `addresses`.
fn instances_of(app: &String, addresses: &Vec<(String, u16)>) -> (instances: Vec<Instance>)
    ensures
        instances.deep_view() == instances_at(app@, addresses.deep_view()),
{
    let mut instances: Vec<Instance> = Vec::new();
    let mut i: usize = 0;
    while i < addresses.len()
        invariant
            i <= addresses.len(),
            instances.len() == i,
            forall|j: int|
                0 <= j < i ==> (#[trigger] instances[j]).deep_view() == instances_at(
                    app@,
                    addresses.deep_view(),
                )[j],
        decreases addresses.len() - i,
    {
        let instance = Instance {
            app_id: app.duplicate(),
            ip_address: addresses[i].0.duplicate(),
            port: addresses[i].1,
        };
        assert(instance.deep_view() == instances_at(app@, addresses.deep_view())[i as int]);
        instances.push(instance);
        i += 1;
    }
    assert(instances.deep_view() =~= instances_at(app@, addresses.deep_view()));
    instances
}

/// The state that the routing rules taken so far make.
#[derive(Debug)]
pub struct Routes {
    instances: ListMap<AppId, Vec<Instance>>,
    http_fronts: ListMap<AppId, Vec<HttpFront>>,
    https_fronts: ListMap<AppId, Vec<HttpsFront>>,
    certificates: ListMap<CertFingerprint, CertificateAndKey>,
    http_addresses: Vec<(String, u16)>,
    https_addresses: Vec<(String, u16)>,
}

impl View for Routes {
    type V = ConfigStateView;

    closed spec fn view(&self) -> ConfigStateView {
        ConfigStateView {
            instances: self.instances@,
            http_fronts: self.http_fronts@,
            https_fronts: self.https_fronts@,
            certificates: self.certificates@,
            http_addresses: self.http_addresses.deep_view(),
            https_addresses: self.https_addresses.deep_view(),
        }
    }
}

/// Reads the certificate of a rule for HTTPS, with its fingerprint.
fn read_certificate(route: &RoutingConfig) -> (read: Result<
    (CertFingerprint, CertificateAndKey),
    RoutingError,
>)
    ensures
        match read {
            Ok(found) => route@.certificate is Some && route@.key is Some && found.1@
                == certificate_of(route@) && fingerprint_of(certificate_of(route@)) == Some(
                found.0@,
            ),
            Err(e) => e == if route@.certificate is None {
                RoutingError::MissingCertificate
            } else if route@.key is None {
                RoutingError::MissingKey
            } else {
                RoutingError::InvalidCertificate
            } && (route@.certificate is Some && route@.key is Some ==> fingerprint_of(
                certificate_of(route@),
            ) is None),
        },
{
    let leaf = match &route.certificate {
        Some(leaf) => leaf,
        None => {
            return Err(RoutingError::MissingCertificate);
        },
    };
    let key = match &route.key {
        Some(key) => key,
        None => {
            return Err(RoutingError::MissingKey);
        },
    };
    let chain: Vec<String> = match &route.certificate_chain {
        Some(chain) => chain.duplicate(),
        None => Vec::new(),
    };
    assert(chain.deep_view() =~= or_empty(route@.certificate_chain));
    let certificate = CertificateAndKey {
        certificate: leaf.duplicate(),
        certificate_chain: chain,
        key: key.duplicate(),
    };
    match calculate_fingerprint(certificate.certificate.as_str().as_bytes()) {
        Ok(bytes) => Ok((CertFingerprint(bytes), certificate)),
        Err(_) => Err(RoutingError::InvalidCertificate),
    }
}

impl Routes {
    /// No rules: the empty state.
    pub fn new() -> (routes: Routes)
        ensures
            routes@ == empty_state(),
    {
        let routes = Routes {
            instances: ListMap::new(),
            http_fronts: ListMap::new(),
            https_fronts: ListMap::new(),
            certificates: ListMap::new(),
            http_addresses: Vec::new(),
            https_addresses: Vec::new(),
        };
        assert(routes.http_addresses.deep_view() =~= Seq::empty());
        assert(routes.https_addresses.deep_view() =~= Seq::empty());
        routes
    }

    /// Takes the rule `route` of `app`. A rule that cannot be followed
    /// changes nothing.
    pub fn add_route(&mut self, app: &String, route: &RoutingConfig) -> (done: Result<
        (),
        RoutingError,
    >)
        ensures
            match done {
                Ok(_) => routed(old(self)@, app@, route@) == Ok::<ConfigStateView, RoutingError>(
                    final(self)@,
                ),
                Err(e) => routed(old(self)@, app@, route@) == Err::<ConfigStateView, RoutingError>(
                    e,
                ) && final(self)@ == old(self)@,
            },
    {
        let plain = has_tag(&route.frontends, "HTTP");
        let secure = has_tag(&route.frontends, "HTTPS");
        let addresses = match read_backends(&route.backends) {
            Some(addresses) => addresses,
            None => {
                return Err(RoutingError::InvalidBackend);
            },
        };
        let secured = if secure {
            match read_certificate(route) {
                Ok(found) => Some(found),
                Err(e) => {
                    return Err(e);
                },
            }
        } else {
            None
        };
        let path = match &route.path_begin {
            Some(path) => path.duplicate(),
            None => "/".to_owned(),
        };
        let instances = instances_of(app, &addresses);
        list_items(&mut self.instances, app, &instances);
        if plain {
            let mut fronts: Vec<HttpFront> = Vec::new();
            fronts.push(
                HttpFront {
                    app_id: app.duplicate(),
                    hostname: route.hostname.duplicate(),
                    path_begin: path.duplicate(),
                },
            );
            assert(fronts.deep_view() =~= seq![
                HttpFrontView { app_id: app@, hostname: route@.hostname, path_begin: path@ },
            ]);
            list_items(&mut self.http_fronts, app, &fronts);
            add_addresses(&mut self.http_addresses, &addresses);
        }
        match secured {
            Some(found) => {
                let (print, certificate) = found;
                let mut fronts: Vec<HttpsFront> = Vec::new();
                fronts.push(
                    HttpsFront {
                        app_id: app.duplicate(),
                        hostname: route.hostname.duplicate(),
                        path_begin: path.duplicate(),
                        fingerprint: print.duplicate(),
                    },
                );
                assert(fronts.deep_view() =~= seq![
                    HttpsFrontView {
                        app_id: app@,
                        hostname: route@.hostname,
                        path_begin: path@,
                        fingerprint: print@,
                    },
                ]);
                if !self.certificates.contains_key(&print) {
                    self.certificates.insert(print, certificate);
                }
                list_items(&mut self.https_fronts, app, &fronts);
                add_addresses(&mut self.https_addresses, &addresses);
            },
            None => {},
        }
        Ok(())
    }

    /// The configuration state that the rules taken make.
    pub fn build(self) -> (state: ConfigState)
        ensures
            state@ == self@,
            state@.valid(),
    {
        let state = ConfigStateBuilder::new(self.instances).http_fronts(
            self.http_fronts,
        ).https_fronts(self.https_fronts).certificates(self.certificates).http_addresses(
            self.http_addresses,
        ).https_addresses(self.https_addresses).build();
        assert(state@ =~= self@);
        state
    }
}

/// Makes the configuration state of the routing rules of `applications`,
/// taken in their order. The first rule that cannot be followed ends the
/// work with its error.
pub fn configure(applications: &Vec<(AppId, Vec<RoutingConfig>)>) -> (made: Result<
    ConfigState,
    RoutingError,
>)
    ensures
        match made {
            Ok(state) => configured(applications.deep_view()) == Ok::<
                ConfigStateView,
                RoutingError,
            >(state@) && state@.valid() && state@.coherent(),
            Err(e) => configured(applications.deep_view()) == Err::<ConfigStateView, RoutingError>(
                e,
            ),
        },
{
    let mut routes = Routes::new();
    let ghost all = applications.deep_view();
    proof {
        law_routes_make_sound_states(all);
    }
    let mut i: usize = 0;
    assert(all.skip(0) =~= all);
    while i < applications.len()
        invariant
            i <= applications.len(),
            all == applications.deep_view(),
            configured(all) == configured_from(routes@, all.skip(i as int)),
        decreases applications.len() - i,
    {
        let app = &applications[i].0;
        let rules = &applications[i].1;
        let ghost written = rules.deep_view();
        let ghost rest = all.skip(i + 1);
        assert(all.skip(i as int)[0] == (app@, written));
        assert(all.skip(i as int).skip(1) =~= rest);
        let mut j: usize = 0;
        assert(written.skip(0) =~= written);
        while j < rules.len()
            invariant
                j <= rules.len(),
                written == rules.deep_view(),
                all == applications.deep_view(),
                configured(all) == match routed_all(routes@, app@, written.skip(j as int)) {
                    Ok(next) => configured_from(next, rest),
                    Err(e) => Err(e),
                },
            decreases rules.len() - j,
        {
            assert(written.skip(j as int)[0] == rules[j as int].deep_view());
            assert(written.skip(j as int).skip(1) =~= written.skip(j + 1));
            match routes.add_route(app, &rules[j]) {
                Ok(_) => {},
                Err(e) => {
                    return Err(e);
                },
            }
            j += 1;
        }
        i += 1;
    }
    Ok(routes.build())
}

} // verus!
