use proxy_state::list_map::ListMap;
use proxy_state::messages::{
    CertFingerprint, CertificateAndKey, HttpFront, HttpsFront, Instance,
};
use proxy_state::state::{ConfigState, ConfigStateBuilder};

fn instance(app: &str, ip: &str, port: u16) -> Instance {
    Instance { app_id: String::from(app), ip_address: String::from(ip), port }
}

fn instances() -> ListMap<String, Vec<Instance>> {
    let mut instances: ListMap<String, Vec<Instance>> = ListMap::new();
    instances.insert(String::from("app_1"), vec![instance("app_1", "127.0.0.1", 1026)]);
    instances
}

#[test]
fn a_builder_with_instances_only_leaves_the_rest_empty() {
    let state = ConfigStateBuilder::new(instances()).build();
    assert_eq!(
        state.instances().get(&String::from("app_1")),
        Some(&vec![instance("app_1", "127.0.0.1", 1026)])
    );
    assert_eq!(state.instances().len(), 1);
    assert_eq!(state.http_fronts().len(), 0);
    assert_eq!(state.https_fronts().len(), 0);
    assert_eq!(state.certificates().len(), 0);
    assert!(state.http_addresses().is_empty());
    assert!(state.https_addresses().is_empty());
}

#[test]
fn a_builder_takes_every_part_as_it_is() {
    let mut fronts: ListMap<String, Vec<HttpFront>> = ListMap::new();
    fronts.insert(
        String::from("app_1"),
        vec![HttpFront {
            app_id: String::from("app_1"),
            hostname: String::from("a.example"),
            path_begin: String::from("/"),
        }],
    );
    let mut secure_fronts: ListMap<String, Vec<HttpsFront>> = ListMap::new();
    secure_fronts.insert(
        String::from("app_2"),
        vec![HttpsFront {
            app_id: String::from("app_2"),
            hostname: String::from("b.example"),
            path_begin: String::from("/"),
            fingerprint: CertFingerprint(vec![1, 2, 3]),
        }],
    );
    let mut certificates: ListMap<CertFingerprint, CertificateAndKey> = ListMap::new();
    certificates.insert(
        CertFingerprint(vec![1, 2, 3]),
        CertificateAndKey {
            certificate: String::from("certificate"),
            certificate_chain: vec![String::from("intermediate")],
            key: String::from("key"),
        },
    );
    let state = ConfigStateBuilder::new(instances())
        .http_fronts(fronts)
        .https_fronts(secure_fronts)
        .certificates(certificates)
        .http_addresses(vec![(String::from("0.0.0.0"), 80)])
        .https_addresses(vec![(String::from("0.0.0.0"), 443), (String::from("::"), 443)])
        .build();
    assert_eq!(state.instances().len(), 1);
    assert_eq!(state.http_fronts().get(&String::from("app_1")).map(|list| list.len()), Some(1));
    assert_eq!(state.https_fronts().get(&String::from("app_2")).map(|list| list.len()), Some(1));
    assert_eq!(
        state.certificates().get(&CertFingerprint(vec![1, 2, 3])).map(|c| c.key.clone()),
        Some(String::from("key"))
    );
    assert_eq!(state.http_addresses(), &vec![(String::from("0.0.0.0"), 80)]);
    assert_eq!(
        state.https_addresses(),
        &vec![(String::from("0.0.0.0"), 443), (String::from("::"), 443)]
    );
}

#[test]
fn a_part_set_twice_is_what_was_set_last() {
    let state = ConfigStateBuilder::new(instances())
        .http_addresses(vec![(String::from("0.0.0.0"), 80)])
        .http_addresses(vec![(String::from("0.0.0.0"), 8080)])
        .build();
    assert_eq!(state.http_addresses(), &vec![(String::from("0.0.0.0"), 8080)]);
}

#[test]
fn a_builder_does_not_remove_repetitions() {
    let mut repeated: ListMap<String, Vec<Instance>> = ListMap::new();
    repeated.insert(
        String::from("app_1"),
        vec![instance("app_1", "127.0.0.1", 1026), instance("app_1", "127.0.0.1", 1026)],
    );
    let state = ConfigStateBuilder::new(repeated).build();
    assert_eq!(state.instances().get(&String::from("app_1")).map(|list| list.len()), Some(2));
}

#[test]
fn the_default_state_is_the_new_state() {
    let state: ConfigState = Default::default();
    assert_eq!(format!("{:?}", state), format!("{:?}", ConfigState::new()));
}
