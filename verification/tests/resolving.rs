use statusbar::access_point::ActiveConnection;
use statusbar::active::{address_in, property, Resolve, ResolveStep};
use statusbar::bus::{ClientError, Property, Reply, Request, Value};

/// A device as a test service holds it; `None` is what cannot be read.
struct Device {
    path: &'static str,
    kind: Option<u32>,
    interface: Option<&'static str>,
    active: Option<&'static str>,
    config: Option<&'static str>,
}

/// An access point as a test service holds it.
struct Point {
    path: &'static str,
    ssid: Option<&'static str>,
    strength: Option<u8>,
}

/// A test service: devices, access points, and the address records of each configuration.
struct Service {
    devices: Vec<Device>,
    points: Vec<Point>,
    configs: Vec<(&'static str, Option<Vec<Vec<Property>>>)>,
}

fn failed() -> Reply {
    Reply::Failed(String::from("no such object"))
}

fn text(value: &str) -> Value {
    Value::Text(value.to_string())
}

fn entry(key: &str, value: Value) -> Property {
    Property { key: key.to_string(), value }
}

fn answer(service: &Service, request: &Request) -> Reply {
    let device = |path: &String| service.devices.iter().find(|d| d.path == path.as_str());
    let point = |path: &String| service.points.iter().find(|p| p.path == path.as_str());
    match request {
        Request::Devices => Reply::Paths(service.devices.iter().map(|d| d.path.to_string()).collect()),
        Request::DeviceType(path) => match device(path).and_then(|d| d.kind) {
            Some(kind) => Reply::Number(kind),
            None => failed(),
        },
        Request::ActiveAccessPoint(path) => match device(path).and_then(|d| d.active) {
            Some(active) => Reply::Path(active.to_string()),
            None => failed(),
        },
        Request::Interface(path) => match device(path).and_then(|d| d.interface) {
            Some(name) => Reply::Text(name.to_string()),
            None => failed(),
        },
        Request::Ip4Config(path) => match device(path).and_then(|d| d.config) {
            Some(config) => Reply::Path(config.to_string()),
            None => failed(),
        },
        Request::AddressData(path) => {
            match service.configs.iter().find(|c| c.0 == path.as_str()).and_then(|c| c.1.clone()) {
                Some(records) => Reply::Records(records),
                None => failed(),
            }
        }
        Request::Ssid(path) => match point(path).and_then(|p| p.ssid) {
            Some(name) => Reply::Bytes(name.as_bytes().to_vec()),
            None => failed(),
        },
        Request::Strength(path) => match point(path).and_then(|p| p.strength) {
            Some(level) => Reply::Level(level),
            None => failed(),
        },
        Request::WpaFlags(_) | Request::RsnFlags(_) => Reply::Number(0),
        _ => failed(),
    }
}

/// Runs the search against the service; returns the outcome and what was asked.
fn resolve(service: &Service) -> (Result<Option<ActiveConnection>, ClientError>, Vec<Request>) {
    let mut asked = Vec::new();
    let (mut state, mut request) = Resolve::start();
    loop {
        asked.push(request.clone());
        match state.step(answer(service, &request)) {
            ResolveStep::Ask(next, question) => {
                state = next;
                request = question;
            }
            ResolveStep::Done(outcome) => return (outcome, asked),
        }
    }
}

fn wlan(path: &'static str, interface: &'static str, active: &'static str, config: &'static str) -> Device {
    Device { path, kind: Some(2), interface: Some(interface), active: Some(active), config: Some(config) }
}

fn home() -> Vec<Point> {
    vec![Point { path: "/ap/home", ssid: Some("Home"), strength: Some(64) }]
}

fn addresses(address: &str) -> Vec<Vec<Property>> {
    vec![vec![entry("prefix", Value::Other), entry("address", text(address))]]
}

#[test]
fn resolve_finds_the_connection_with_its_address() {
    let service = Service {
        devices: vec![wlan("/dev/w", "wlan0", "/ap/home", "/ip4/1")],
        points: home(),
        configs: vec![("/ip4/1", Some(addresses("192.168.1.20")))],
    };
    let found = resolve(&service).0.unwrap().unwrap();
    assert_eq!(found.ssid, "Home");
    assert_eq!(found.strength, 64);
    assert_eq!(found.interface, "wlan0");
    assert_eq!(found.ip_address, "192.168.1.20");
}

#[test]
fn resolve_finds_nothing_when_every_wireless_device_is_unassociated() {
    let service = Service {
        devices: vec![
            wlan("/dev/a", "wlan0", "/", "/ip4/1"),
            Device { path: "/dev/eth", kind: Some(1), interface: Some("eth0"), active: Some("/ap/home"), config: Some("/ip4/1") },
            wlan("/dev/b", "wlan1", "/", "/"),
        ],
        points: home(),
        configs: vec![("/ip4/1", Some(addresses("10.0.0.1")))],
    };
    let (outcome, asked) = resolve(&service);
    assert_eq!(outcome.unwrap().map(|found| found.ssid), None);
    assert!(!asked.contains(&Request::ActiveAccessPoint("/dev/eth".to_string())));
    assert!(!asked.contains(&Request::Interface("/dev/a".to_string())));
}

#[test]
fn resolve_finds_nothing_without_devices() {
    let service = Service { devices: vec![], points: vec![], configs: vec![] };
    assert!(resolve(&service).0.unwrap().is_none());
}

#[test]
fn resolve_passes_over_an_unassociated_device() {
    let service = Service {
        devices: vec![wlan("/dev/a", "wlan0", "/", "/"), wlan("/dev/b", "wlan1", "/ap/home", "/ip4/2")],
        points: home(),
        configs: vec![("/ip4/2", Some(addresses("10.0.0.7")))],
    };
    let found = resolve(&service).0.unwrap().unwrap();
    assert_eq!(found.interface, "wlan1");
    assert_eq!(found.ssid, "Home");
    assert_eq!(found.ip_address, "10.0.0.7");
}

#[test]
fn resolve_takes_the_first_device_that_is_associated() {
    let service = Service {
        devices: vec![wlan("/dev/a", "wlan0", "/ap/cafe", "/"), wlan("/dev/b", "wlan1", "/ap/home", "/")],
        points: vec![
            Point { path: "/ap/home", ssid: Some("Home"), strength: Some(90) },
            Point { path: "/ap/cafe", ssid: Some("Cafe"), strength: Some(12) },
        ],
        configs: vec![],
    };
    let (outcome, asked) = resolve(&service);
    let found = outcome.unwrap().unwrap();
    assert_eq!((found.ssid.as_str(), found.strength, found.interface.as_str()), ("Cafe", 12, "wlan0"));
    assert!(!asked.contains(&Request::DeviceType("/dev/b".to_string())));
}

#[test]
fn resolve_goes_on_when_the_access_point_cannot_be_read() {
    let service = Service {
        devices: vec![wlan("/dev/a", "wlan0", "/ap/gone", "/"), wlan("/dev/b", "wlan1", "/ap/home", "/")],
        points: vec![
            Point { path: "/ap/gone", ssid: Some("Gone"), strength: None },
            Point { path: "/ap/home", ssid: Some("Home"), strength: Some(64) },
        ],
        configs: vec![],
    };
    let found = resolve(&service).0.unwrap().unwrap();
    assert_eq!(found.interface, "wlan1");
}

#[test]
fn resolve_goes_on_when_the_interface_name_cannot_be_read() {
    let service = Service {
        devices: vec![
            Device { path: "/dev/a", kind: Some(2), interface: None, active: Some("/ap/home"), config: Some("/") },
            Device { path: "/dev/c", kind: Some(2), interface: Some("wlan2"), active: None, config: Some("/") },
            wlan("/dev/b", "wlan1", "/ap/home", "/"),
        ],
        points: home(),
        configs: vec![],
    };
    let found = resolve(&service).0.unwrap().unwrap();
    assert_eq!(found.interface, "wlan1");
}

#[test]
fn resolve_leaves_the_address_empty_without_configuration() {
    for config in [Some("/"), None, Some("/ip4/unreadable"), Some("/ip4/empty"), Some("/ip4/odd")] {
        let service = Service {
            devices: vec![Device { path: "/dev/w", kind: Some(2), interface: Some("wlan0"), active: Some("/ap/home"), config }],
            points: home(),
            configs: vec![
                ("/ip4/unreadable", None),
                ("/ip4/empty", Some(vec![])),
                ("/ip4/odd", Some(vec![vec![entry("address", Value::Other)], vec![entry("address", text("10.0.0.9"))]])),
            ],
        };
        let found = resolve(&service).0.unwrap().unwrap();
        assert_eq!(found.ssid, "Home");
        assert_eq!(found.interface, "wlan0");
        assert_eq!(found.ip_address, "");
    }
}

#[test]
fn resolve_fails_when_the_device_list_fails() {
    let (state, request) = Resolve::start();
    assert_eq!(request, Request::Devices);
    match state.step(Reply::Failed("bus is gone".to_string())) {
        ResolveStep::Done(Err(ClientError::Bus(message))) => assert_eq!(message, "bus is gone"),
        _ => panic!("the search went on"),
    }
}

#[test]
fn resolve_asks_its_questions_in_order() {
    let service = Service {
        devices: vec![wlan("/dev/w", "wlan0", "/ap/home", "/ip4/1")],
        points: home(),
        configs: vec![("/ip4/1", Some(addresses("192.168.1.20")))],
    };
    let path = |text: &str| text.to_string();
    assert_eq!(
        resolve(&service).1,
        vec![
            Request::Devices,
            Request::DeviceType(path("/dev/w")),
            Request::ActiveAccessPoint(path("/dev/w")),
            Request::Interface(path("/dev/w")),
            Request::Ssid(path("/ap/home")),
            Request::Strength(path("/ap/home")),
            Request::WpaFlags(path("/ap/home")),
            Request::RsnFlags(path("/ap/home")),
            Request::Ip4Config(path("/dev/w")),
            Request::AddressData(path("/ip4/1")),
        ]
    );
}

#[test]
fn address_is_taken_from_the_first_record_only() {
    let records = vec![vec![entry("prefix", Value::Other)], vec![entry("address", text("10.0.0.9"))]];
    assert_eq!(address_in(&records), "");
    let records = vec![
        vec![entry("address", text("10.0.0.1")), entry("address", text("10.0.0.2"))],
        vec![entry("address", text("10.0.0.9"))],
    ];
    assert_eq!(address_in(&records), "10.0.0.1");
    assert_eq!(address_in(&Vec::new()), "");
}

#[test]
fn property_is_the_first_entry_under_the_key() {
    let record = vec![entry("a", Value::Other), entry("b", text("x")), entry("b", text("y"))];
    assert_eq!(property(&record, "b"), Some(&text("x")));
    assert_eq!(property(&record, "a"), Some(&Value::Other));
    assert_eq!(property(&record, "c"), None);
}
