use proxy_state::authority::parse_authority;
use proxy_state::messages::{
    CertFingerprint, CertificateAndKey, HttpFront, HttpsFront, Instance,
};
use proxy_state::routing::{
    configure, has_tag, read_backends, Routes, RoutingConfig, RoutingError,
};

const FIRST_PEM: &str = "-----BEGIN CERTIFICATE-----\nAAEC\n-----END CERTIFICATE-----\n";

const FIRST_PRINT: [u8; 32] = [
    0xae, 0x4b, 0x32, 0x80, 0xe5, 0x6e, 0x2f, 0xaf, 0x83, 0xf4, 0x14, 0xa6, 0xe3, 0xda, 0xbe, 0x9d,
    0x5f, 0xbe, 0x18, 0x97, 0x65, 0x44, 0xc0, 0x5f, 0xed, 0x12, 0x1a, 0xcc, 0xb8, 0x5b, 0x53, 0xfc,
];

fn route(host: &str, tags: &[&str], backends: &[&str]) -> RoutingConfig {
    RoutingConfig {
        hostname: String::from(host),
        path_begin: None,
        certificate: None,
        key: None,
        certificate_chain: None,
        frontends: tags.iter().map(|tag| String::from(*tag)).collect(),
        backends: backends.iter().map(|backend| String::from(*backend)).collect(),
    }
}

#[test]
fn an_address_is_a_host_and_a_port() {
    assert_eq!(parse_authority("127.0.0.1:1026"), Some((String::from("127.0.0.1"), 1026)));
    assert_eq!(parse_authority("localhost:0"), Some((String::from("localhost"), 0)));
    assert_eq!(parse_authority("localhost:65535"), Some((String::from("localhost"), 65535)));
    assert_eq!(parse_authority("localhost:+80"), Some((String::from("localhost"), 80)));
    assert_eq!(parse_authority("localhost:0080"), Some((String::from("localhost"), 80)));
    assert_eq!(parse_authority(":81"), Some((String::new(), 81)));
}

#[test]
fn an_address_without_a_port_has_port_80() {
    assert_eq!(parse_authority("127.0.0.1"), Some((String::from("127.0.0.1"), 80)));
    assert_eq!(parse_authority(""), Some((String::new(), 80)));
    assert_eq!(parse_authority("h\u{f4}te"), Some((String::from("h\u{f4}te"), 80)));
}

#[test]
fn what_follows_a_second_colon_is_not_read() {
    assert_eq!(parse_authority("host:81:rest"), Some((String::from("host"), 81)));
    assert_eq!(parse_authority("host:81:"), Some((String::from("host"), 81)));
}

#[test]
fn a_port_that_is_no_number_of_16_bits_is_refused() {
    assert_eq!(parse_authority("host:"), None);
    assert_eq!(parse_authority("host:+"), None);
    assert_eq!(parse_authority("host:-1"), None);
    assert_eq!(parse_authority("host:65536"), None);
    assert_eq!(parse_authority("host:99999999999999999999"), None);
    assert_eq!(parse_authority("host:8o"), None);
    assert_eq!(parse_authority("host: 80"), None);
    assert_eq!(parse_authority("host::80"), None);
    assert_eq!(parse_authority("host:70000x"), None);
}

#[test]
fn port_reading_agrees_with_the_standard_library() {
    let texts = ["0", "1", "80", "+80", "0080", "65535", "65536", "", "+", "-", "-0", "1a", "٣"];
    for text in texts.iter() {
        let expected = text.parse::<u16>().ok();
        let read = parse_authority(&format!("h:{}", text)).map(|found| found.1);
        assert_eq!(read, expected);
    }
}

#[test]
fn tags_are_found_as_they_are_written() {
    let tags = vec![String::from("HTTP"), String::from("TCP")];
    assert!(has_tag(&tags, "HTTP"));
    assert!(has_tag(&tags, "TCP"));
    assert!(!has_tag(&tags, "HTTPS"));
    assert!(!has_tag(&tags, "http"));
    assert!(!has_tag(&vec![], "HTTP"));
}

fn instance(app: &str, ip: &str, port: u16) -> Instance {
    Instance { app_id: String::from(app), ip_address: String::from(ip), port }
}

#[test]
fn every_backend_is_an_instance_of_its_application() {
    let applications =
        vec![(String::from("app_1"), vec![route("lolcatho.st", &["HTTP"], &["127.0.0.1:1026"])])];
    let state = configure(&applications).unwrap();
    assert_eq!(
        state.instances().get(&String::from("app_1")),
        Some(&vec![instance("app_1", "127.0.0.1", 1026)])
    );
}

#[test]
fn a_rule_for_http_gives_a_front_and_listen_addresses() {
    let applications =
        vec![(String::from("app_1"), vec![route("lolcatho.st", &["HTTP"], &["127.0.0.1:1026"])])];
    let state = configure(&applications).unwrap();
    assert_eq!(
        state.http_fronts().get(&String::from("app_1")),
        Some(&vec![HttpFront {
            app_id: String::from("app_1"),
            hostname: String::from("lolcatho.st"),
            path_begin: String::from("/"),
        }])
    );
    assert_eq!(state.http_addresses(), &vec![(String::from("127.0.0.1"), 1026)]);
    assert!(state.https_addresses().is_empty());
    assert_eq!(
        state.instances().get(&String::from("app_1")),
        Some(&vec![instance("app_1", "127.0.0.1", 1026)])
    );
    assert_eq!(state.https_fronts().len(), 0);
    assert_eq!(state.certificates().len(), 0);
}

#[test]
fn a_rule_for_no_protocol_gives_instances_only() {
    let mut with_path = route("lolcatho.st", &[], &["127.0.0.1:1026", "127.0.0.2"]);
    with_path.path_begin = Some(String::from("/api"));
    let applications = vec![(String::from("app_1"), vec![with_path])];
    let state = configure(&applications).unwrap();
    assert_eq!(
        state.instances().get(&String::from("app_1")),
        Some(&vec![instance("app_1", "127.0.0.1", 1026), instance("app_1", "127.0.0.2", 80)])
    );
    assert_eq!(state.http_fronts().len(), 0);
    assert_eq!(state.https_fronts().len(), 0);
    assert!(state.http_addresses().is_empty());
    assert!(state.https_addresses().is_empty());
}

#[test]
fn a_rule_for_https_gives_a_certificate_a_front_and_listen_addresses() {
    let mut secure = route("lolcatho.st", &["HTTPS"], &["127.0.0.1:8443"]);
    secure.path_begin = Some(String::from("/api"));
    secure.certificate = Some(String::from(FIRST_PEM));
    secure.key = Some(String::from("key"));
    secure.certificate_chain = Some(vec![String::from("intermediate")]);
    let applications = vec![(String::from("app_1"), vec![secure])];
    let state = configure(&applications).unwrap();
    assert_eq!(
        state.certificates().get(&CertFingerprint(FIRST_PRINT.to_vec())),
        Some(&CertificateAndKey {
            certificate: String::from(FIRST_PEM),
            certificate_chain: vec![String::from("intermediate")],
            key: String::from("key"),
        })
    );
    assert_eq!(
        state.https_fronts().get(&String::from("app_1")),
        Some(&vec![HttpsFront {
            app_id: String::from("app_1"),
            hostname: String::from("lolcatho.st"),
            path_begin: String::from("/api"),
            fingerprint: CertFingerprint(FIRST_PRINT.to_vec()),
        }])
    );
    assert_eq!(state.https_addresses(), &vec![(String::from("127.0.0.1"), 8443)]);
    assert!(state.http_addresses().is_empty());
    assert_eq!(state.http_fronts().len(), 0);
    assert_eq!(
        state.instances().get(&String::from("app_1")),
        Some(&vec![instance("app_1", "127.0.0.1", 8443)])
    );
}

#[test]
fn a_rule_for_both_protocols_listens_for_both_on_its_addresses() {
    let mut both = route("lolcatho.st", &["HTTP", "HTTPS"], &["127.0.0.1:1026"]);
    both.certificate = Some(String::from(FIRST_PEM));
    both.key = Some(String::from("key"));
    let applications = vec![(String::from("app_1"), vec![both])];
    let state = configure(&applications).unwrap();
    assert_eq!(state.http_addresses(), &vec![(String::from("127.0.0.1"), 1026)]);
    assert_eq!(state.https_addresses(), &vec![(String::from("127.0.0.1"), 1026)]);
    assert_eq!(state.http_fronts().get(&String::from("app_1")).map(|l| l.len()), Some(1));
    assert_eq!(state.https_fronts().get(&String::from("app_1")).map(|l| l.len()), Some(1));
    assert_eq!(
        state.instances().get(&String::from("app_1")),
        Some(&vec![instance("app_1", "127.0.0.1", 1026)])
    );
    assert_eq!(
        state
            .certificates()
            .get(&CertFingerprint(FIRST_PRINT.to_vec()))
            .map(|c| c.certificate_chain.len()),
        Some(0)
    );
}

#[test]
fn rules_are_taken_in_their_order() {
    let applications = vec![
        (
            String::from("app_1"),
            vec![
                route("a.example", &["HTTP"], &["10.0.0.1:81"]),
                route("b.example", &[], &["10.0.0.2:82"]),
            ],
        ),
        (String::from("app_2"), vec![route("c.example", &["HTTP"], &["10.0.0.3:83"])]),
        (String::from("app_1"), vec![route("d.example", &["HTTP"], &[])]),
    ];
    let state = configure(&applications).unwrap();
    assert_eq!(state.http_fronts().len(), 2);
    assert_eq!(state.http_fronts().key(0), "app_1");
    assert_eq!(state.http_fronts().key(1), "app_2");
    assert_eq!(
        state
            .http_fronts()
            .get(&String::from("app_1"))
            .map(|fronts| fronts.iter().map(|f| f.hostname.clone()).collect::<Vec<String>>()),
        Some(vec![String::from("a.example"), String::from("d.example")])
    );
    assert_eq!(
        state.http_addresses(),
        &vec![(String::from("10.0.0.1"), 81), (String::from("10.0.0.3"), 83)]
    );
    assert_eq!(
        state.instances().get(&String::from("app_1")),
        Some(&vec![instance("app_1", "10.0.0.1", 81), instance("app_1", "10.0.0.2", 82)])
    );
    assert_eq!(
        state.instances().get(&String::from("app_2")),
        Some(&vec![instance("app_2", "10.0.0.3", 83)])
    );
}

#[test]
fn a_rule_without_backends_gives_its_application_an_empty_list() {
    let applications = vec![(String::from("app_1"), vec![route("a.example", &["HTTP"], &[])])];
    let state = configure(&applications).unwrap();
    assert_eq!(state.instances().get(&String::from("app_1")), Some(&vec![]));
    assert!(state.http_addresses().is_empty());
}

#[test]
fn a_backend_written_twice_is_an_instance_twice() {
    let applications = vec![(
        String::from("app_1"),
        vec![route("a.example", &[], &["10.0.0.1:81", "10.0.0.1:81"])],
    )];
    let state = configure(&applications).unwrap();
    assert_eq!(
        state.instances().get(&String::from("app_1")),
        Some(&vec![instance("app_1", "10.0.0.1", 81), instance("app_1", "10.0.0.1", 81)])
    );
}

#[test]
fn of_two_certificates_with_one_fingerprint_the_first_rule_keeps_its_own() {
    let mut first = route("a.example", &["HTTPS"], &[]);
    first.certificate = Some(String::from(FIRST_PEM));
    first.key = Some(String::from("key 1"));
    let mut second = route("b.example", &["HTTPS"], &[]);
    second.certificate = Some(String::from(FIRST_PEM));
    second.key = Some(String::from("key 2"));
    let applications = vec![(String::from("app_1"), vec![first, second])];
    let state = configure(&applications).unwrap();
    assert_eq!(state.certificates().len(), 1);
    assert_eq!(
        state.certificates().get(&CertFingerprint(FIRST_PRINT.to_vec())).map(|c| c.key.clone()),
        Some(String::from("key 1"))
    );
    assert_eq!(state.https_fronts().get(&String::from("app_1")).map(|l| l.len()), Some(2));
}

#[test]
fn backends_are_read_all_or_not_at_all() {
    let good = vec![String::from("10.0.0.1:81"), String::from("10.0.0.2")];
    assert_eq!(
        read_backends(&good),
        Some(vec![(String::from("10.0.0.1"), 81), (String::from("10.0.0.2"), 80)])
    );
    let bad = vec![String::from("10.0.0.1:81"), String::from("10.0.0.2:x")];
    assert_eq!(read_backends(&bad), None);
    assert_eq!(read_backends(&vec![]), Some(vec![]));
}

#[test]
fn rules_taken_one_by_one_make_the_state_of_all() {
    let mut secure = route("b.example", &["HTTP", "HTTPS"], &["10.0.0.2:82"]);
    secure.certificate = Some(String::from(FIRST_PEM));
    secure.key = Some(String::from("key"));
    let mut routes = Routes::new();
    assert_eq!(
        routes.add_route(&String::from("app_1"), &route("a.example", &["HTTP"], &["10.0.0.1:81"])),
        Ok(())
    );
    assert_eq!(routes.add_route(&String::from("app_2"), &secure), Ok(()));
    let one_by_one = routes.build();

    let mut secure = route("b.example", &["HTTP", "HTTPS"], &["10.0.0.2:82"]);
    secure.certificate = Some(String::from(FIRST_PEM));
    secure.key = Some(String::from("key"));
    let all = configure(&vec![
        (String::from("app_1"), vec![route("a.example", &["HTTP"], &["10.0.0.1:81"])]),
        (String::from("app_2"), vec![secure]),
    ])
    .unwrap();
    assert_eq!(one_by_one, all);
    assert_eq!(all.generate_orders().len(), 6);
}

#[test]
fn a_rule_that_cannot_be_followed_changes_nothing() {
    let mut routes = Routes::new();
    assert_eq!(
        routes.add_route(&String::from("app_1"), &route("a.example", &["HTTP"], &["10.0.0.1:81"])),
        Ok(())
    );
    let before = format!("{:?}", routes);
    let without_key = {
        let mut secure = route("b.example", &["HTTP", "HTTPS"], &["10.0.0.2:82"]);
        secure.certificate = Some(String::from(FIRST_PEM));
        secure
    };
    assert_eq!(
        routes.add_route(&String::from("app_1"), &without_key),
        Err(RoutingError::MissingKey)
    );
    assert_eq!(format!("{:?}", routes), before);
    assert_eq!(
        routes.add_route(&String::from("app_1"), &route("c.example", &["HTTP"], &["10.0.0.3:"])),
        Err(RoutingError::InvalidBackend)
    );
    assert_eq!(format!("{:?}", routes), before);
    assert_eq!(Routes::new().build(), proxy_state::state::ConfigState::new());
}

#[test]
fn a_bad_port_is_an_invalid_backend() {
    let applications =
        vec![(String::from("app_1"), vec![route("a.example", &["HTTP"], &["127.0.0.1:http"])])];
    assert_eq!(configure(&applications).err(), Some(RoutingError::InvalidBackend));
}

#[test]
fn https_without_a_certificate_is_refused() {
    let mut secure = route("a.example", &["HTTPS"], &[]);
    secure.key = Some(String::from("key"));
    let applications = vec![(String::from("app_1"), vec![secure])];
    assert_eq!(configure(&applications).err(), Some(RoutingError::MissingCertificate));
}

#[test]
fn https_without_a_key_is_refused() {
    let mut secure = route("a.example", &["HTTPS"], &[]);
    secure.certificate = Some(String::from(FIRST_PEM));
    let applications = vec![(String::from("app_1"), vec![secure])];
    assert_eq!(configure(&applications).err(), Some(RoutingError::MissingKey));
}

#[test]
fn https_with_a_certificate_that_has_no_fingerprint_is_refused() {
    let mut secure = route("a.example", &["HTTPS"], &[]);
    secure.certificate = Some(String::from("not a certificate"));
    secure.key = Some(String::from("key"));
    let applications = vec![(String::from("app_1"), vec![secure])];
    assert_eq!(configure(&applications).err(), Some(RoutingError::InvalidCertificate));
}

#[test]
fn the_first_error_is_the_one_reported() {
    let mut secure = route("a.example", &["HTTPS"], &["host:x"]);
    secure.key = None;
    let applications = vec![
        (String::from("app_1"), vec![route("a.example", &["HTTP"], &["10.0.0.1:81"]), secure]),
        (String::from("app_2"), vec![route("b.example", &["HTTPS"], &[])]),
    ];
    assert_eq!(configure(&applications).err(), Some(RoutingError::InvalidBackend));
}

#[test]
fn no_rules_make_the_empty_state() {
    let state = configure(&vec![]).unwrap();
    assert!(state.generate_orders().is_empty());
    let state = configure(&vec![(String::from("app_1"), vec![])]).unwrap();
    assert_eq!(state.instances().len(), 0);
}
