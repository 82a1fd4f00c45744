use proxy_state::list_map::ListMap;
use proxy_state::messages::{HttpFront, Instance, Order};
use proxy_state::state::{ConfigState, ConfigStateBuilder};

fn front(app: &str, host: &str, path: &str) -> HttpFront {
    HttpFront {
        app_id: String::from(app),
        hostname: String::from(host),
        path_begin: String::from(path),
    }
}

fn instance(app: &str, ip: &str, port: u16) -> Instance {
    Instance { app_id: String::from(app), ip_address: String::from(ip), port }
}

#[test]
fn maps_are_equal_whatever_the_order_of_their_keys() {
    let mut a: ListMap<String, u16> = ListMap::new();
    a.insert(String::from("x"), 1);
    a.insert(String::from("y"), 2);
    let mut b: ListMap<String, u16> = ListMap::new();
    b.insert(String::from("y"), 2);
    b.insert(String::from("x"), 1);
    assert_eq!(a, b);
    assert!(a.same_entries(&b));
    b.insert(String::from("x"), 3);
    assert_ne!(a, b);
    b.insert(String::from("x"), 1);
    b.insert(String::from("z"), 0);
    assert_ne!(a, b);
    assert_ne!(b, a);
    b.remove(&String::from("z"));
    assert_eq!(b, a);
    assert_eq!(ListMap::<String, u16>::new(), ListMap::<String, u16>::new());
}

#[test]
fn states_are_equal_whatever_the_order_of_their_applications() {
    let mut a = ConfigState::new();
    a.handle_order(&Order::AddInstance(instance("app_1", "127.0.0.1", 1026)));
    a.handle_order(&Order::AddInstance(instance("app_2", "127.0.0.1", 1026)));
    a.handle_order(&Order::AddHttpFront(front("app_1", "a.example", "/")));
    let mut b = ConfigState::new();
    b.handle_order(&Order::AddHttpFront(front("app_1", "a.example", "/")));
    b.handle_order(&Order::AddInstance(instance("app_2", "127.0.0.1", 1026)));
    b.handle_order(&Order::AddInstance(instance("app_1", "127.0.0.1", 1026)));
    assert_eq!(a, b);
    assert_eq!(a, a.clone());
    b.handle_order(&Order::AddInstance(instance("app_1", "127.0.0.2", 1026)));
    assert_ne!(a, b);
}

#[test]
fn the_order_within_a_list_counts() {
    let mut a = ConfigState::new();
    a.handle_order(&Order::AddInstance(instance("app_1", "127.0.0.1", 1026)));
    a.handle_order(&Order::AddInstance(instance("app_1", "127.0.0.2", 1026)));
    let mut b = ConfigState::new();
    b.handle_order(&Order::AddInstance(instance("app_1", "127.0.0.2", 1026)));
    b.handle_order(&Order::AddInstance(instance("app_1", "127.0.0.1", 1026)));
    assert_ne!(a, b);
    assert_eq!(a.diff(&b), vec![]);
}

#[test]
fn an_empty_list_is_not_a_missing_list() {
    let mut a = ConfigState::new();
    a.handle_order(&Order::AddInstance(instance("app_1", "127.0.0.1", 1026)));
    a.handle_order(&Order::RemoveInstance(instance("app_1", "127.0.0.1", 1026)));
    assert_ne!(a, ConfigState::new());
    assert_eq!(a.diff(&ConfigState::new()), vec![]);
}

#[test]
fn the_listen_addresses_count_in_their_order() {
    let a = ConfigStateBuilder::new(ListMap::new())
        .http_addresses(vec![(String::from("0.0.0.0"), 80), (String::from("::"), 80)])
        .build();
    let b = ConfigStateBuilder::new(ListMap::new())
        .http_addresses(vec![(String::from("::"), 80), (String::from("0.0.0.0"), 80)])
        .build();
    let c = ConfigStateBuilder::new(ListMap::new())
        .https_addresses(vec![(String::from("0.0.0.0"), 80), (String::from("::"), 80)])
        .build();
    assert_ne!(a, b);
    assert_ne!(a, c);
    let mut d = ConfigState::new();
    d.add_http_address(String::from("0.0.0.0"), 80);
    assert_ne!(a, d);
    d.add_http_address(String::from("::"), 80);
    assert_eq!(a, d);
}

#[test]
fn an_order_applied_twice_gives_an_equal_state() {
    let orders = vec![
        Order::AddHttpFront(front("app_1", "a.example", "/")),
        Order::AddInstance(instance("app_1", "127.0.0.1", 1026)),
        Order::RemoveHttpFront(front("app_1", "a.example", "/")),
        Order::RemoveInstance(instance("app_1", "127.0.0.1", 1026)),
        Order::SoftStop,
    ];
    let mut state = ConfigState::new();
    for order in orders.iter() {
        state.handle_order(order);
        let once = state.clone();
        state.handle_order(order);
        assert_eq!(state, once);
    }
}
