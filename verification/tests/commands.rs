use statusbar::bus::{ClientError, Reply, Request};
use statusbar::connect::{connect_command, connect_outcome};
use statusbar::disconnect::{Disconnect, DisconnectStep};

/// A device as a test service holds it: path, interface name if readable,
/// and whether it refuses to disconnect.
struct Device {
    path: &'static str,
    interface: Option<&'static str>,
    refuses: bool,
}

fn answer(devices: &[Device], request: &Request) -> Reply {
    let device = |path: &String| devices.iter().find(|d| d.path == path.as_str());
    match request {
        Request::Devices => Reply::Paths(devices.iter().map(|d| d.path.to_string()).collect()),
        Request::Interface(path) => match device(path).and_then(|d| d.interface) {
            Some(name) => Reply::Text(name.to_string()),
            None => Reply::Failed("unreadable".to_string()),
        },
        Request::Disconnect(path) => match device(path) {
            Some(d) if !d.refuses => Reply::Done,
            _ => Reply::Failed("not active".to_string()),
        },
        _ => Reply::Failed("not asked for".to_string()),
    }
}

/// Runs a disconnect against the devices; returns the outcome and what was asked.
fn disconnect(devices: &[Device], interface: &str) -> (Result<(), ClientError>, Vec<Request>) {
    let mut asked = Vec::new();
    let (mut state, mut request) = Disconnect::start(interface);
    loop {
        asked.push(request.clone());
        match state.step(answer(devices, &request)) {
            DisconnectStep::Ask(next, question) => {
                state = next;
                request = question;
            }
            DisconnectStep::Done(outcome) => return (outcome, asked),
        }
    }
}

fn devices() -> Vec<Device> {
    vec![
        Device { path: "/dev/lo", interface: Some("lo"), refuses: false },
        Device { path: "/dev/odd", interface: None, refuses: false },
        Device { path: "/dev/eth", interface: Some("eth0"), refuses: true },
        Device { path: "/dev/w", interface: Some("wlan0"), refuses: false },
        Device { path: "/dev/w2", interface: Some("wlan0"), refuses: true },
    ]
}

#[test]
fn disconnect_of_an_unknown_interface_is_not_found_and_tells_no_device() {
    let (outcome, asked) = disconnect(&devices(), "eth-does-not-exist");
    assert_eq!(outcome, Err(ClientError::DeviceNotFound("eth-does-not-exist".to_string())));
    assert!(asked.iter().all(|request| !matches!(request, Request::Disconnect(_))));
    assert_eq!(asked.len(), 6);
    assert_eq!(
        outcome.unwrap_err().message(),
        "Device with interface 'eth-does-not-exist' not found"
    );
}

#[test]
fn disconnect_without_devices_is_not_found() {
    let (outcome, asked) = disconnect(&[], "wlan0");
    assert_eq!(outcome, Err(ClientError::DeviceNotFound("wlan0".to_string())));
    assert_eq!(asked, vec![Request::Devices]);
}

#[test]
fn disconnect_tells_the_first_device_that_carries_the_name() {
    let (outcome, asked) = disconnect(&devices(), "wlan0");
    assert_eq!(outcome, Ok(()));
    let path = |text: &str| text.to_string();
    assert_eq!(
        asked,
        vec![
            Request::Devices,
            Request::Interface(path("/dev/lo")),
            Request::Interface(path("/dev/odd")),
            Request::Interface(path("/dev/eth")),
            Request::Interface(path("/dev/w")),
            Request::Disconnect(path("/dev/w")),
        ]
    );
}

#[test]
fn disconnect_reports_what_the_device_answers() {
    let (outcome, asked) = disconnect(&devices(), "eth0");
    assert_eq!(outcome, Err(ClientError::Bus("not active".to_string())));
    assert_eq!(asked.last(), Some(&Request::Disconnect("/dev/eth".to_string())));
    assert_eq!(outcome.unwrap_err().message(), "not active");
}

#[test]
fn disconnect_fails_when_the_device_list_fails() {
    let (state, request) = Disconnect::start("wlan0");
    assert_eq!(request, Request::Devices);
    match state.step(Reply::Failed("bus is gone".to_string())) {
        DisconnectStep::Done(outcome) => assert_eq!(outcome, Err(ClientError::Bus("bus is gone".to_string()))),
        DisconnectStep::Ask(_, _) => panic!("the disconnect went on"),
    }
    let (state, _) = Disconnect::start("wlan0");
    match state.step(Reply::Done) {
        DisconnectStep::Done(outcome) => {
            assert_eq!(outcome, Err(ClientError::Unexpected));
            assert_eq!(outcome.unwrap_err().message(), "Unexpected reply");
        }
        DisconnectStep::Ask(_, _) => panic!("the disconnect went on"),
    }
}

#[test]
fn connect_calls_the_helper_with_the_network_name() {
    let command = connect_command("Cafe Central");
    assert_eq!(command.program, "nmcli");
    assert_eq!(command.arguments, vec!["device", "wifi", "connect", "Cafe Central"]);
}

#[test]
fn connect_reports_only_a_failed_launch() {
    assert_eq!(connect_outcome(Ok(())), Ok(()));
    let outcome = connect_outcome(Err("No such file or directory (os error 2)".to_string()));
    assert_eq!(
        outcome,
        Err(ClientError::Launch("No such file or directory (os error 2)".to_string()))
    );
    assert_eq!(
        outcome.unwrap_err().message(),
        "Failed to connect: No such file or directory (os error 2)"
    );
}
