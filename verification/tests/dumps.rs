use std::collections::HashSet;

use proxy_state::list_map::ListMap;
use proxy_state::messages::{
    CertFingerprint, CertificateAndKey, HttpFront, HttpsFront, Instance, Order,
};
use proxy_state::state::{ConfigState, ConfigStateBuilder};

const FIRST_PEM: &str = "-----BEGIN CERTIFICATE-----\nAAEC\n-----END CERTIFICATE-----\n";
const SECOND_PEM: &str = "-----BEGIN CERTIFICATE-----\nAwQF\n-----END CERTIFICATE-----\n";

const FIRST_PRINT: [u8; 32] = [
    0xae, 0x4b, 0x32, 0x80, 0xe5, 0x6e, 0x2f, 0xaf, 0x83, 0xf4, 0x14, 0xa6, 0xe3, 0xda, 0xbe, 0x9d,
    0x5f, 0xbe, 0x18, 0x97, 0x65, 0x44, 0xc0, 0x5f, 0xed, 0x12, 0x1a, 0xcc, 0xb8, 0x5b, 0x53, 0xfc,
];

fn front(app: &str, host: &str, path: &str) -> HttpFront {
    HttpFront {
        app_id: String::from(app),
        hostname: String::from(host),
        path_begin: String::from(path),
    }
}

fn secure_front(app: &str, host: &str, path: &str, print: &[u8]) -> HttpsFront {
    HttpsFront {
        app_id: String::from(app),
        hostname: String::from(host),
        path_begin: String::from(path),
        fingerprint: CertFingerprint(print.to_vec()),
    }
}

fn instance(app: &str, ip: &str, port: u16) -> Instance {
    Instance { app_id: String::from(app), ip_address: String::from(ip), port }
}

fn certificate(pem: &str, key: &str) -> CertificateAndKey {
    CertificateAndKey {
        certificate: String::from(pem),
        certificate_chain: vec![],
        key: String::from(key),
    }
}

fn sample() -> ConfigState {
    let mut state = ConfigState::new();
    state.handle_order(&Order::AddInstance(instance("app_2", "192.167.1.2", 1026)));
    state.handle_order(&Order::AddHttpsFront(secure_front("app_1", "a.example", "/", &FIRST_PRINT)));
    state.handle_order(&Order::AddHttpFront(front("app_1", "lolcatho.st:8080", "/")));
    state.handle_order(&Order::AddCertificate(certificate(FIRST_PEM, "key 1")));
    state.handle_order(&Order::AddInstance(instance("app_1", "127.0.0.1", 1026)));
    state.handle_order(&Order::AddHttpFront(front("app_2", "test.local", "/abc")));
    state.handle_order(&Order::AddCertificate(certificate(SECOND_PEM, "key 2")));
    state.handle_order(&Order::AddInstance(instance("app_1", "127.0.0.2", 1027)));
    state.handle_order(&Order::AddHttpFront(front("app_1", "lolcatho.st:8080", "/api")));
    state
}

fn entities(state: &ConfigState) -> HashSet<Order> {
    state.generate_orders().into_iter().collect()
}

#[test]
fn dump_lists_fronts_then_certificates_then_secure_fronts_then_instances() {
    let orders = sample().generate_orders();
    let expected = vec![
        Order::AddHttpFront(front("app_1", "lolcatho.st:8080", "/")),
        Order::AddHttpFront(front("app_1", "lolcatho.st:8080", "/api")),
        Order::AddHttpFront(front("app_2", "test.local", "/abc")),
        Order::AddCertificate(certificate(FIRST_PEM, "key 1")),
        Order::AddCertificate(certificate(SECOND_PEM, "key 2")),
        Order::AddHttpsFront(secure_front("app_1", "a.example", "/", &FIRST_PRINT)),
        Order::AddInstance(instance("app_2", "192.167.1.2", 1026)),
        Order::AddInstance(instance("app_1", "127.0.0.1", 1026)),
        Order::AddInstance(instance("app_1", "127.0.0.2", 1027)),
    ];
    assert_eq!(orders, expected);
}

#[test]
fn replaying_a_dump_rebuilds_the_state() {
    let state = sample();
    let mut rebuilt = ConfigState::new();
    for order in state.generate_orders().iter() {
        rebuilt.handle_order(order);
    }
    assert_eq!(entities(&rebuilt), entities(&state));
    assert_eq!(rebuilt.generate_orders().len(), 9);
    assert_eq!(
        rebuilt.instances().get(&String::from("app_1")),
        state.instances().get(&String::from("app_1"))
    );
    assert_eq!(rebuilt.certificates().len(), 2);
}

#[test]
fn a_dump_names_fronts_by_the_application_of_their_list() {
    let mut fronts: ListMap<String, Vec<HttpFront>> = ListMap::new();
    fronts.insert(String::from("app_1"), vec![front("elsewhere", "a.example", "/")]);
    let mut instances: ListMap<String, Vec<Instance>> = ListMap::new();
    instances.insert(String::from("app_1"), vec![instance("elsewhere", "127.0.0.1", 80)]);
    let state = ConfigStateBuilder::new(instances).http_fronts(fronts).build();
    assert_eq!(
        state.generate_orders(),
        vec![
            Order::AddHttpFront(front("app_1", "a.example", "/")),
            Order::AddInstance(instance("elsewhere", "127.0.0.1", 80)),
        ]
    );
}

#[test]
fn a_dump_repeats_what_a_list_repeats() {
    let mut instances: ListMap<String, Vec<Instance>> = ListMap::new();
    instances.insert(
        String::from("app_1"),
        vec![instance("app_1", "127.0.0.1", 80), instance("app_1", "127.0.0.1", 80)],
    );
    let state = ConfigStateBuilder::new(instances).build();
    assert_eq!(
        state.generate_orders(),
        vec![
            Order::AddInstance(instance("app_1", "127.0.0.1", 80)),
            Order::AddInstance(instance("app_1", "127.0.0.1", 80)),
        ]
    );
}
