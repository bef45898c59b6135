use statusbar::access_point::AccessPoint;
use statusbar::bus::{ClientError, Reply, Request};
use statusbar::scan::{Scan, ScanStep};

/// An access point as a test service holds it; `None` is a property that cannot be read.
struct Point {
    path: &'static str,
    ssid: Option<Vec<u8>>,
    strength: Option<u8>,
    wpa: Option<u32>,
    rsn: Option<u32>,
}

/// A device as a test service holds it.
struct Device {
    path: &'static str,
    kind: Option<u32>,
    scan_fails: bool,
    points: Option<Vec<Point>>,
}

fn point(path: &'static str, ssid: &str, strength: u8) -> Point {
    Point { path, ssid: Some(ssid.as_bytes().to_vec()), strength: Some(strength), wpa: Some(0), rsn: Some(0) }
}

fn wireless(path: &'static str, points: Vec<Point>) -> Device {
    Device { path, kind: Some(2), scan_fails: false, points: Some(points) }
}

fn failed() -> Reply {
    Reply::Failed(String::from("no such object"))
}

fn number(read: Option<u32>) -> Reply {
    match read {
        Some(number) => Reply::Number(number),
        None => failed(),
    }
}

fn answer(devices: &[Device], request: &Request) -> Reply {
    let device = |path: &String| devices.iter().find(|d| d.path == path.as_str());
    let found = |path: &String| {
        devices
            .iter()
            .filter_map(|d| d.points.as_ref())
            .flat_map(|points| points.iter())
            .find(|p| p.path == path.as_str())
    };
    match request {
        Request::Devices => Reply::Paths(devices.iter().map(|d| d.path.to_string()).collect()),
        Request::DeviceType(path) => number(device(path).and_then(|d| d.kind)),
        Request::RequestScan(path) => match device(path) {
            Some(d) if !d.scan_fails => Reply::Done,
            _ => failed(),
        },
        Request::AccessPoints(path) => match device(path).and_then(|d| d.points.as_ref()) {
            Some(points) => Reply::Paths(points.iter().map(|p| p.path.to_string()).collect()),
            None => failed(),
        },
        Request::Ssid(path) => match found(path).and_then(|p| p.ssid.clone()) {
            Some(bytes) => Reply::Bytes(bytes),
            None => failed(),
        },
        Request::Strength(path) => match found(path).and_then(|p| p.strength) {
            Some(level) => Reply::Level(level),
            None => failed(),
        },
        Request::WpaFlags(path) => number(found(path).and_then(|p| p.wpa)),
        Request::RsnFlags(path) => number(found(path).and_then(|p| p.rsn)),
        _ => failed(),
    }
}

/// Runs a scan against the devices; returns the outcome and what was asked.
fn scan(devices: &[Device]) -> (Result<Vec<AccessPoint>, ClientError>, Vec<Request>) {
    let mut asked = Vec::new();
    let (mut state, mut request) = Scan::start();
    loop {
        asked.push(request.clone());
        match state.step(answer(devices, &request)) {
            ScanStep::Ask(next, question) => {
                state = next;
                request = question;
            }
            ScanStep::Done(outcome) => return (outcome, asked),
        }
    }
}

fn names(catalog: &[AccessPoint]) -> Vec<(String, u8)> {
    catalog.iter().map(|ap| (ap.ssid.clone(), ap.strength)).collect()
}

#[test]
fn scan_keeps_the_strongest_of_each_name_across_devices() {
    let devices = vec![
        wireless("/dev/a", vec![point("/ap/1", "Cafe", 40)]),
        wireless("/dev/b", vec![point("/ap/2", "Cafe", 72), point("/ap/3", "Home", 90)]),
    ];
    let (outcome, _) = scan(&devices);
    let catalog = outcome.unwrap();
    assert_eq!(names(&catalog), vec![("Home".to_string(), 90), ("Cafe".to_string(), 72)]);
    assert_eq!(catalog[1].path, "/ap/2");
}

#[test]
fn scan_later_weaker_record_does_not_replace() {
    let devices = vec![
        wireless("/dev/a", vec![point("/ap/1", "Cafe", 72)]),
        wireless("/dev/b", vec![point("/ap/2", "Cafe", 40)]),
    ];
    let catalog = scan(&devices).0.unwrap();
    assert_eq!(names(&catalog), vec![("Cafe".to_string(), 72)]);
    assert_eq!(catalog[0].path, "/ap/1");
}

#[test]
fn scan_tie_keeps_the_earlier_record() {
    let devices = vec![
        wireless("/dev/a", vec![point("/ap/1", "Cafe", 50), point("/ap/2", "Cafe", 50)]),
    ];
    let catalog = scan(&devices).0.unwrap();
    assert_eq!(catalog.len(), 1);
    assert_eq!(catalog[0].path, "/ap/1");
}

#[test]
fn scan_equal_strength_keeps_order_of_first_arrival() {
    let devices = vec![
        wireless(
            "/dev/a",
            vec![
                point("/ap/1", "one", 30),
                point("/ap/2", "two", 60),
                point("/ap/3", "three", 30),
                point("/ap/4", "four", 60),
                point("/ap/5", "one", 60),
            ],
        ),
    ];
    let catalog = scan(&devices).0.unwrap();
    assert_eq!(
        names(&catalog),
        vec![
            ("one".to_string(), 60),
            ("two".to_string(), 60),
            ("four".to_string(), 60),
            ("three".to_string(), 30),
        ]
    );
    assert_eq!(catalog[0].path, "/ap/5");
}

#[test]
fn scan_passes_over_devices_that_are_not_wireless() {
    let devices = vec![
        Device { path: "/dev/eth", kind: Some(1), scan_fails: false, points: Some(vec![point("/ap/9", "Wired", 99)]) },
        Device { path: "/dev/odd", kind: None, scan_fails: false, points: Some(vec![point("/ap/8", "Odd", 98)]) },
        wireless("/dev/w", vec![point("/ap/1", "Home", 10)]),
    ];
    let (outcome, asked) = scan(&devices);
    assert_eq!(names(&outcome.unwrap()), vec![("Home".to_string(), 10)]);
    assert!(!asked.contains(&Request::RequestScan("/dev/eth".to_string())));
    assert!(!asked.contains(&Request::AccessPoints("/dev/odd".to_string())));
}

#[test]
fn scan_without_wireless_devices_is_empty_and_no_error() {
    let devices = vec![Device { path: "/dev/eth", kind: Some(1), scan_fails: false, points: None }];
    assert_eq!(scan(&devices).0.unwrap().len(), 0);
    assert_eq!(scan(&[]).0.unwrap().len(), 0);
}

#[test]
fn scan_goes_on_when_the_scan_request_fails() {
    let devices = vec![Device {
        path: "/dev/w",
        kind: Some(2),
        scan_fails: true,
        points: Some(vec![point("/ap/1", "Home", 55)]),
    }];
    assert_eq!(names(&scan(&devices).0.unwrap()), vec![("Home".to_string(), 55)]);
}

#[test]
fn scan_device_without_access_point_list_contributes_nothing() {
    let devices = vec![
        Device { path: "/dev/gone", kind: Some(2), scan_fails: false, points: None },
        wireless("/dev/w", vec![point("/ap/1", "Home", 55)]),
    ];
    assert_eq!(names(&scan(&devices).0.unwrap()), vec![("Home".to_string(), 55)]);
}

#[test]
fn scan_drops_access_points_without_name_or_strength() {
    let devices = vec![wireless(
        "/dev/w",
        vec![
            Point { path: "/ap/1", ssid: None, strength: Some(80), wpa: Some(0), rsn: Some(0) },
            Point { path: "/ap/2", ssid: Some(b"Mute".to_vec()), strength: None, wpa: Some(0), rsn: Some(0) },
            point("/ap/3", "Home", 20),
        ],
    )];
    let (outcome, asked) = scan(&devices);
    assert_eq!(names(&outcome.unwrap()), vec![("Home".to_string(), 20)]);
    assert!(!asked.contains(&Request::Strength("/ap/1".to_string())));
    assert!(!asked.contains(&Request::WpaFlags("/ap/2".to_string())));
}

#[test]
fn scan_fails_when_the_device_list_fails() {
    let (state, request) = Scan::start();
    assert_eq!(request, Request::Devices);
    match state.step(Reply::Failed("bus is gone".to_string())) {
        ScanStep::Done(Err(ClientError::Bus(message))) => assert_eq!(message, "bus is gone"),
        _ => panic!("the scan went on"),
    }
    let (state, _) = Scan::start();
    match state.step(Reply::Number(7)) {
        ScanStep::Done(Err(ClientError::Unexpected)) => {}
        _ => panic!("the scan went on"),
    }
}

#[test]
fn scan_asks_its_questions_in_order() {
    let devices = vec![
        Device { path: "/dev/eth", kind: Some(1), scan_fails: false, points: None },
        wireless("/dev/w", vec![point("/ap/1", "Home", 55)]),
    ];
    let (_, asked) = scan(&devices);
    let path = |text: &str| text.to_string();
    assert_eq!(
        asked,
        vec![
            Request::Devices,
            Request::DeviceType(path("/dev/eth")),
            Request::DeviceType(path("/dev/w")),
            Request::RequestScan(path("/dev/w")),
            Request::AccessPoints(path("/dev/w")),
            Request::Ssid(path("/ap/1")),
            Request::Strength(path("/ap/1")),
            Request::WpaFlags(path("/ap/1")),
            Request::RsnFlags(path("/ap/1")),
        ]
    );
}

#[test]
fn scan_decodes_a_name_that_is_not_text_with_replacement_characters() {
    let devices = vec![wireless(
        "/dev/w",
        vec![Point { path: "/ap/1", ssid: Some(vec![0x41, 0xff, 0x42]), strength: Some(33), wpa: Some(0), rsn: Some(0) }],
    )];
    let catalog = scan(&devices).0.unwrap();
    assert_eq!(catalog.len(), 1);
    assert_eq!(catalog[0].ssid, "A\u{fffd}B");
    assert_eq!(catalog[0].strength, 33);
}

#[test]
fn scan_marks_a_network_secured_by_either_set_of_flags() {
    let flagged = |path: &'static str, name: &str, wpa: Option<u32>, rsn: Option<u32>| Point {
        path,
        ssid: Some(name.as_bytes().to_vec()),
        strength: Some(50),
        wpa,
        rsn,
    };
    let devices = vec![wireless(
        "/dev/w",
        vec![
            flagged("/ap/1", "open", Some(0), Some(0)),
            flagged("/ap/2", "wpa", Some(0x188), Some(0)),
            flagged("/ap/3", "rsn", Some(0), Some(1)),
            flagged("/ap/4", "both", Some(2), Some(3)),
            flagged("/ap/5", "unreadable", None, None),
            flagged("/ap/6", "half", None, Some(4)),
        ],
    )];
    let catalog = scan(&devices).0.unwrap();
    let secured: Vec<(String, bool)> = catalog.iter().map(|ap| (ap.ssid.clone(), ap.is_secured)).collect();
    assert_eq!(
        secured,
        vec![
            ("open".to_string(), false),
            ("wpa".to_string(), true),
            ("rsn".to_string(), true),
            ("both".to_string(), true),
            ("unreadable".to_string(), false),
            ("half".to_string(), true),
        ]
    );
}
