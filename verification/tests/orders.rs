use proxy_state::certificate::FingerprintError;
use proxy_state::messages::{
    CertFingerprint, CertificateAndKey, HttpFront, HttpsFront, Instance, Order,
};
use proxy_state::state::ConfigState;

const FIRST_PEM: &str = "-----BEGIN CERTIFICATE-----\nAAEC\n-----END CERTIFICATE-----\n";
const SECOND_PEM: &str = "-----BEGIN CERTIFICATE-----\nAwQF\n-----END CERTIFICATE-----\n";

const FIRST_PRINT: [u8; 32] = [
    0xae, 0x4b, 0x32, 0x80, 0xe5, 0x6e, 0x2f, 0xaf, 0x83, 0xf4, 0x14, 0xa6, 0xe3, 0xda, 0xbe, 0x9d,
    0x5f, 0xbe, 0x18, 0x97, 0x65, 0x44, 0xc0, 0x5f, 0xed, 0x12, 0x1a, 0xcc, 0xb8, 0x5b, 0x53, 0xfc,
];
const SECOND_PRINT: [u8; 32] = [
    0x28, 0x48, 0x69, 0x8a, 0xa4, 0xb3, 0x43, 0x1e, 0x3d, 0xb0, 0x6c, 0x34, 0x3c, 0xa2, 0xcb, 0x04,
    0x55, 0xf8, 0xaa, 0xf1, 0x6c, 0x85, 0xcd, 0xd8, 0x28, 0xc9, 0x2d, 0xdf, 0x7d, 0xc1, 0x34, 0xf8,
];

fn front(app: &str, host: &str, path: &str) -> HttpFront {
    HttpFront {
        app_id: String::from(app),
        hostname: String::from(host),
        path_begin: String::from(path),
    }
}

fn secure_front(app: &str, host: &str, path: &str, print: &[u8]) -> HttpsFront {
    HttpsFront {
        app_id: String::from(app),
        hostname: String::from(host),
        path_begin: String::from(path),
        fingerprint: CertFingerprint(print.to_vec()),
    }
}

fn instance(app: &str, ip: &str, port: u16) -> Instance {
    Instance { app_id: String::from(app), ip_address: String::from(ip), port }
}

fn certificate(pem: &str, key: &str) -> CertificateAndKey {
    CertificateAndKey {
        certificate: String::from(pem),
        certificate_chain: vec![],
        key: String::from(key),
    }
}

fn same_state(a: &ConfigState, b: &ConfigState) -> bool {
    format!("{:?}", a) == format!("{:?}", b)
}

#[test]
fn new_state_holds_nothing() {
    let state = ConfigState::new();
    assert_eq!(state.instances().len(), 0);
    assert_eq!(state.http_fronts().len(), 0);
    assert_eq!(state.https_fronts().len(), 0);
    assert_eq!(state.certificates().len(), 0);
    assert!(state.http_addresses().is_empty());
    assert!(state.https_addresses().is_empty());
    assert!(state.generate_orders().is_empty());
}

#[test]
fn addresses_are_appended_in_order() {
    let mut state = ConfigState::new();
    state.add_http_address(String::from("0.0.0.0"), 80);
    state.add_http_address(String::from("0.0.0.0"), 8080);
    state.add_https_address(String::from("0.0.0.0"), 443);
    assert_eq!(
        state.http_addresses(),
        &vec![(String::from("0.0.0.0"), 80), (String::from("0.0.0.0"), 8080)]
    );
    assert_eq!(state.https_addresses(), &vec![(String::from("0.0.0.0"), 443)]);
}

#[test]
fn adding_an_http_front_twice_keeps_one() {
    let mut state = ConfigState::new();
    state.handle_order(&Order::AddHttpFront(front("app_1", "lolcatho.st:8080", "/")));
    let once = state.clone();
    state.handle_order(&Order::AddHttpFront(front("app_1", "lolcatho.st:8080", "/")));
    assert!(same_state(&state, &once));
    assert_eq!(
        state.http_fronts().get(&String::from("app_1")),
        Some(&vec![front("app_1", "lolcatho.st:8080", "/")])
    );
}

#[test]
fn fronts_of_one_application_keep_their_order() {
    let mut state = ConfigState::new();
    state.handle_order(&Order::AddHttpFront(front("app_1", "a.example", "/")));
    state.handle_order(&Order::AddHttpFront(front("app_1", "b.example", "/")));
    state.handle_order(&Order::AddHttpFront(front("app_1", "a.example", "/api")));
    assert_eq!(
        state.http_fronts().get(&String::from("app_1")),
        Some(&vec![
            front("app_1", "a.example", "/"),
            front("app_1", "b.example", "/"),
            front("app_1", "a.example", "/api"),
        ])
    );
}

#[test]
fn removing_an_http_front_takes_the_host_and_path_only() {
    let mut state = ConfigState::new();
    state.handle_order(&Order::AddHttpFront(front("app_1", "a.example", "/")));
    state.handle_order(&Order::AddHttpFront(front("app_1", "b.example", "/")));
    state.handle_order(&Order::AddHttpFront(front("app_2", "a.example", "/")));
    state.handle_order(&Order::RemoveHttpFront(front("app_1", "a.example", "/")));
    assert_eq!(
        state.http_fronts().get(&String::from("app_1")),
        Some(&vec![front("app_1", "b.example", "/")])
    );
    assert_eq!(
        state.http_fronts().get(&String::from("app_2")),
        Some(&vec![front("app_2", "a.example", "/")])
    );
    let once = state.clone();
    state.handle_order(&Order::RemoveHttpFront(front("app_1", "a.example", "/")));
    assert!(same_state(&state, &once));
}

#[test]
fn removing_the_last_http_front_leaves_an_empty_list() {
    let mut state = ConfigState::new();
    state.handle_order(&Order::AddHttpFront(front("app_1", "a.example", "/")));
    state.handle_order(&Order::RemoveHttpFront(front("app_1", "a.example", "/")));
    assert_eq!(state.http_fronts().get(&String::from("app_1")), Some(&vec![]));
    assert!(state.generate_orders().is_empty());
}

#[test]
fn removing_from_an_unknown_application_changes_nothing() {
    let mut state = ConfigState::new();
    state.handle_order(&Order::AddInstance(instance("app_1", "127.0.0.1", 1026)));
    let before = state.clone();
    state.handle_order(&Order::RemoveInstance(instance("app_9", "127.0.0.1", 1026)));
    state.handle_order(&Order::RemoveHttpFront(front("app_9", "a.example", "/")));
    state.handle_order(&Order::RemoveHttpsFront(secure_front("app_9", "a.example", "/", &[1])));
    state.handle_order(&Order::RemoveCertificate(CertFingerprint(vec![1, 2, 3])));
    assert!(same_state(&state, &before));
}

#[test]
fn removing_an_instance_needs_address_and_port() {
    let mut state = ConfigState::new();
    state.handle_order(&Order::AddInstance(instance("app_1", "127.0.0.1", 1026)));
    state.handle_order(&Order::AddInstance(instance("app_1", "127.0.0.1", 1027)));
    state.handle_order(&Order::AddInstance(instance("app_1", "127.0.0.2", 1026)));
    state.handle_order(&Order::RemoveInstance(instance("app_1", "127.0.0.1", 1026)));
    assert_eq!(
        state.instances().get(&String::from("app_1")),
        Some(&vec![instance("app_1", "127.0.0.1", 1027), instance("app_1", "127.0.0.2", 1026)])
    );
}

#[test]
fn adding_an_instance_twice_keeps_one() {
    let mut state = ConfigState::new();
    state.handle_order(&Order::AddInstance(instance("app_1", "127.0.0.1", 1026)));
    state.handle_order(&Order::AddInstance(instance("app_1", "127.0.0.1", 1026)));
    assert_eq!(
        state.instances().get(&String::from("app_1")),
        Some(&vec![instance("app_1", "127.0.0.1", 1026)])
    );
}

#[test]
fn adding_an_https_front_twice_keeps_one() {
    let mut state = ConfigState::new();
    state.handle_order(&Order::AddHttpsFront(secure_front("app_1", "a.example", "/", &[1, 2])));
    state.handle_order(&Order::AddHttpsFront(secure_front("app_1", "a.example", "/", &[1, 2])));
    state.handle_order(&Order::AddHttpsFront(secure_front("app_1", "a.example", "/", &[3, 4])));
    assert_eq!(
        state.https_fronts().get(&String::from("app_1")),
        Some(&vec![
            secure_front("app_1", "a.example", "/", &[1, 2]),
            secure_front("app_1", "a.example", "/", &[3, 4]),
        ])
    );
}

#[test]
fn removing_an_https_front_takes_all_of_its_application() {
    let mut state = ConfigState::new();
    state.handle_order(&Order::AddHttpsFront(secure_front("app_1", "a.example", "/", &[1])));
    state.handle_order(&Order::AddHttpsFront(secure_front("app_1", "b.example", "/", &[1])));
    state.handle_order(&Order::AddHttpsFront(secure_front("app_2", "c.example", "/", &[1])));
    state.handle_order(&Order::RemoveHttpsFront(secure_front("app_1", "a.example", "/", &[1])));
    assert_eq!(state.https_fronts().get(&String::from("app_1")), None);
    assert_eq!(
        state.https_fronts().get(&String::from("app_2")),
        Some(&vec![secure_front("app_2", "c.example", "/", &[1])])
    );
    let once = state.clone();
    state.handle_order(&Order::RemoveHttpsFront(secure_front("app_1", "a.example", "/", &[1])));
    assert!(same_state(&state, &once));
}

#[test]
fn a_certificate_is_kept_under_the_fingerprint_of_its_leaf() {
    let mut state = ConfigState::new();
    state.handle_order(&Order::AddCertificate(certificate(FIRST_PEM, "key 1")));
    state.handle_order(&Order::AddCertificate(certificate(SECOND_PEM, "key 2")));
    assert_eq!(state.certificates().len(), 2);
    assert_eq!(
        state.certificates().get(&CertFingerprint(FIRST_PRINT.to_vec())),
        Some(&certificate(FIRST_PEM, "key 1"))
    );
    assert_eq!(
        state.certificates().get(&CertFingerprint(SECOND_PRINT.to_vec())),
        Some(&certificate(SECOND_PEM, "key 2"))
    );
}

#[test]
fn of_two_certificates_with_one_fingerprint_the_first_stays() {
    let mut state = ConfigState::new();
    state.handle_order(&Order::AddCertificate(certificate(FIRST_PEM, "key 1")));
    state.handle_order(&Order::AddCertificate(certificate(FIRST_PEM, "key 2")));
    assert_eq!(state.certificates().len(), 1);
    assert_eq!(
        state.certificates().get(&CertFingerprint(FIRST_PRINT.to_vec())),
        Some(&certificate(FIRST_PEM, "key 1"))
    );
}

#[test]
fn a_certificate_without_fingerprint_is_dropped() {
    let mut state = ConfigState::new();
    state.handle_order(&Order::AddInstance(instance("app_1", "127.0.0.1", 1026)));
    let before = state.clone();
    state.handle_order(&Order::AddCertificate(certificate("no certificate at all", "key")));
    assert!(same_state(&state, &before));
    state.handle_order(&Order::AddCertificate(certificate(FIRST_PEM, "key")));
    assert_eq!(state.certificates().len(), 1);
}

#[test]
fn store_certificate_follows_the_outcome_of_the_fingerprint() {
    let mut state = ConfigState::new();
    state.store_certificate(Ok(vec![7, 7, 7]), &certificate("first", "key 1"));
    state.store_certificate(Ok(vec![7, 7, 7]), &certificate("second", "key 2"));
    state.store_certificate(Err(FingerprintError::MalformedPem), &certificate("third", "key 3"));
    state.store_certificate(Ok(vec![8]), &certificate("fourth", "key 4"));
    assert_eq!(state.certificates().len(), 2);
    assert_eq!(
        state.certificates().get(&CertFingerprint(vec![7, 7, 7])),
        Some(&certificate("first", "key 1"))
    );
    assert_eq!(
        state.certificates().get(&CertFingerprint(vec![8])),
        Some(&certificate("fourth", "key 4"))
    );
}

#[test]
fn removing_a_certificate_takes_its_fingerprint() {
    let mut state = ConfigState::new();
    state.handle_order(&Order::AddCertificate(certificate(FIRST_PEM, "key 1")));
    state.handle_order(&Order::AddCertificate(certificate(SECOND_PEM, "key 2")));
    state.handle_order(&Order::RemoveCertificate(CertFingerprint(FIRST_PRINT.to_vec())));
    assert_eq!(state.certificates().len(), 1);
    assert_eq!(state.certificates().get(&CertFingerprint(FIRST_PRINT.to_vec())), None);
    let once = state.clone();
    state.handle_order(&Order::RemoveCertificate(CertFingerprint(FIRST_PRINT.to_vec())));
    assert!(same_state(&state, &once));
}

#[test]
fn removing_a_certificate_does_not_look_at_the_fronts() {
    let mut state = ConfigState::new();
    state.handle_order(&Order::AddCertificate(certificate(FIRST_PEM, "key 1")));
    state.handle_order(&Order::AddHttpsFront(secure_front(
        "app_1",
        "a.example",
        "/",
        &FIRST_PRINT,
    )));
    state.handle_order(&Order::RemoveCertificate(CertFingerprint(FIRST_PRINT.to_vec())));
    assert_eq!(state.certificates().len(), 0);
    assert_eq!(
        state.https_fronts().get(&String::from("app_1")),
        Some(&vec![secure_front("app_1", "a.example", "/", &FIRST_PRINT)])
    );
}

#[test]
fn other_orders_are_ignored() {
    let mut state = ConfigState::new();
    state.handle_order(&Order::AddInstance(instance("app_1", "127.0.0.1", 1026)));
    let before = state.clone();
    state.handle_order(&Order::SoftStop);
    state.handle_order(&Order::HardStop);
    state.handle_order(&Order::Status);
    assert!(same_state(&state, &before));
}

#[test]
fn every_kind_of_order_is_idempotent() {
    let orders = vec![
        Order::AddHttpFront(front("app_1", "a.example", "/")),
        Order::AddHttpFront(front("app_1", "b.example", "/")),
        Order::AddHttpsFront(secure_front("app_1", "a.example", "/", &FIRST_PRINT)),
        Order::AddHttpsFront(secure_front("app_2", "c.example", "/", &FIRST_PRINT)),
        Order::AddCertificate(certificate(FIRST_PEM, "key 1")),
        Order::AddCertificate(certificate(SECOND_PEM, "key 2")),
        Order::AddInstance(instance("app_1", "127.0.0.1", 1026)),
        Order::AddInstance(instance("app_1", "127.0.0.2", 1026)),
        Order::RemoveHttpFront(front("app_1", "a.example", "/")),
        Order::RemoveHttpsFront(secure_front("app_1", "a.example", "/", &FIRST_PRINT)),
        Order::RemoveCertificate(CertFingerprint(FIRST_PRINT.to_vec())),
        Order::RemoveInstance(instance("app_1", "127.0.0.1", 1026)),
        Order::Status,
    ];
    let mut state = ConfigState::new();
    for order in orders.iter() {
        state.handle_order(order);
        let once = state.clone();
        state.handle_order(order);
        assert!(same_state(&state, &once));
    }
    assert_eq!(
        state.http_fronts().get(&String::from("app_1")),
        Some(&vec![front("app_1", "b.example", "/")])
    );
    assert_eq!(state.https_fronts().get(&String::from("app_1")), None);
    assert_eq!(state.certificates().len(), 1);
    assert_eq!(
        state.instances().get(&String::from("app_1")),
        Some(&vec![instance("app_1", "127.0.0.2", 1026)])
    );
}

#[test]
fn a_copy_of_an_order_is_equal_to_it() {
    let orders = vec![
        Order::AddHttpFront(front("app_1", "a.example", "/")),
        Order::RemoveHttpsFront(secure_front("app_1", "a.example", "/", &FIRST_PRINT)),
        Order::AddCertificate(CertificateAndKey {
            certificate: String::from(FIRST_PEM),
            certificate_chain: vec![String::from(SECOND_PEM)],
            key: String::from("key"),
        }),
        Order::RemoveCertificate(CertFingerprint(vec![1, 2])),
        Order::RemoveInstance(instance("app_1", "127.0.0.1", 1026)),
        Order::HardStop,
    ];
    for (i, order) in orders.iter().enumerate() {
        assert_eq!(&order.clone(), order);
        for (j, other) in orders.iter().enumerate() {
            assert_eq!(order == other, i == j);
        }
    }
    assert_ne!(
        Order::AddInstance(instance("app_1", "127.0.0.1", 1026)),
        Order::AddInstance(instance("app_1", "127.0.0.1", 1027))
    );
    assert_ne!(
        Order::AddInstance(instance("app_1", "127.0.0.1", 1026)),
        Order::RemoveInstance(instance("app_1", "127.0.0.1", 1026))
    );
    assert_ne!(
        Order::RemoveCertificate(CertFingerprint(vec![1, 2])),
        Order::RemoveCertificate(CertFingerprint(vec![1, 2, 3]))
    );
}
