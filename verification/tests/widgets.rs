use statusbar::battery::{battery_icon, find_battery};
use statusbar::media::{track_info, TrackInfo};
use statusbar::nmcli::ActiveNetwork;
use statusbar::wifi::connection_info;
use statusbar::window_title::{on_window_event, TitleAction, WindowEvent};
use statusbar::workspace::{compute_css_classes, sort_by_index, Workspace};

fn workspace(id: u64, idx: u8) -> Workspace {
    Workspace { id, idx, is_active: false, is_focused: false, active_window_id: None }
}

#[test]
fn battery_icon_goes_by_bands_of_ten() {
    for (level, icon) in [
        (100, "󰁹"), (90, "󰁹"), (89, "󰂂"), (80, "󰂂"), (79, "󰂁"), (70, "󰂁"), (69, "󰂀"), (60, "󰂀"),
        (59, "󰁿"), (50, "󰁿"), (49, "󰁾"), (40, "󰁾"), (39, "󰁽"), (30, "󰁽"), (29, "󰁼"), (20, "󰁼"),
        (19, "󰁻"), (10, "󰁻"), (9, "󰁺"), (0, "󰁺"), (-1, "󰁺"), (101, "󰁺"), (i32::MAX, "󰁺"), (i32::MIN, "󰁺"),
    ] {
        assert_eq!(battery_icon(level, false), icon, "{}", level);
        assert_eq!(battery_icon(level, true), "󰂄", "{}", level);
    }
}

#[test]
fn battery_is_the_first_supply_named_bat() {
    let names = |list: &[&str]| list.iter().map(|name| name.to_string()).collect::<Vec<String>>();
    assert_eq!(find_battery(&names(&["AC", "BAT0", "BAT1"])), Some(1));
    assert_eq!(find_battery(&names(&["BAT"])), Some(0));
    assert_eq!(find_battery(&names(&["AC", "hidpp_battery_0", "bat0", "BA", "xBAT0", ""])), None);
    assert_eq!(find_battery(&names(&["ucsi-source-psy", "BATT", "BAT0"])), Some(1));
    assert_eq!(find_battery(&names(&[])), None);
}

#[test]
fn track_info_fills_in_what_is_missing() {
    let text = |value: &str| Some(value.to_string());
    assert_eq!(
        track_info(text("Song"), text("Band"), text("Record")),
        TrackInfo { title: "Song".to_string(), artist: "Band".to_string(), album: "Record".to_string() }
    );
    assert_eq!(
        track_info(None, None, None),
        TrackInfo {
            title: "Unknown Track".to_string(),
            artist: "Unknown Artist".to_string(),
            album: "Unknown Album".to_string(),
        }
    );
    assert_eq!(track_info(text(""), None, text("R")).title, "");
    assert_eq!(track_info(text(""), None, text("R")).artist, "Unknown Artist");
    assert_eq!(track_info(text(""), None, text("R")).album, "R");
}

#[test]
fn connection_info_is_that_of_the_active_network() {
    let active = || Some(ActiveNetwork { ssid: "Home".to_string(), signal: 72, device: "wlan0".to_string() });
    let info = connection_info(active(), Some("10.0.0.2/8".to_string()), "10.0.0.1/8".to_string()).unwrap();
    assert_eq!(
        (info.ssid.as_str(), info.signal_strength, info.interface.as_str(), info.ip_address.as_str()),
        ("Home", 72, "wlan0", "10.0.0.2/8")
    );
    let info = connection_info(active(), None, "10.0.0.1/8".to_string()).unwrap();
    assert_eq!(info.ip_address, "10.0.0.1/8");
    assert!(connection_info(None, Some("10.0.0.2/8".to_string()), "10.0.0.1/8".to_string()).is_none());
    assert!(connection_info(None, None, String::new()).is_none());
}

#[test]
fn window_events_call_for_asking_showing_or_nothing() {
    assert_eq!(on_window_event(WindowEvent::FocusChanged), TitleAction::Ask);
    assert_eq!(on_window_event(WindowEvent::WindowsChanged), TitleAction::Ask);
    assert_eq!(on_window_event(WindowEvent::Closed), TitleAction::AskOrClear);
    assert_eq!(on_window_event(WindowEvent::Other), TitleAction::Keep);
    let changed = |is_focused: bool, title: Option<&str>, app_id: Option<&str>| WindowEvent::OpenedOrChanged {
        is_focused,
        title: title.map(|text| text.to_string()),
        app_id: app_id.map(|text| text.to_string()),
    };
    assert_eq!(
        on_window_event(changed(true, Some("notes.txt"), Some("editor"))),
        TitleAction::Show("notes.txt".to_string(), Some("editor".to_string()))
    );
    assert_eq!(on_window_event(changed(true, None, None)), TitleAction::Show(String::new(), None));
    assert_eq!(on_window_event(changed(false, Some("notes.txt"), Some("editor"))), TitleAction::Keep);
}

#[test]
fn workspace_classes_tell_the_state() {
    let mut shown = workspace(1, 1);
    assert_eq!(compute_css_classes(&shown), vec!["workspace-button", "workspace-empty"]);
    shown.active_window_id = Some(9);
    assert_eq!(compute_css_classes(&shown), vec!["workspace-button", "workspace-occupied"]);
    shown.is_active = true;
    assert_eq!(compute_css_classes(&shown), vec!["workspace-button", "workspace-active"]);
    shown.is_focused = true;
    assert_eq!(compute_css_classes(&shown), vec!["workspace-button", "workspace-focused"]);
    shown.is_active = false;
    shown.active_window_id = None;
    assert_eq!(compute_css_classes(&shown), vec!["workspace-button", "workspace-focused"]);
}

#[test]
fn workspaces_are_sorted_by_position_and_ties_keep_their_order() {
    let mut row = vec![
        workspace(10, 3), workspace(11, 1), workspace(12, 2), workspace(13, 1), workspace(14, 0),
        workspace(15, 3), workspace(16, 255), workspace(17, 1),
    ];
    sort_by_index(&mut row);
    let ids: Vec<u64> = row.iter().map(|w| w.id).collect();
    assert_eq!(ids, vec![14, 11, 13, 17, 12, 10, 15, 16]);
    let mut none: Vec<Workspace> = Vec::new();
    sort_by_index(&mut none);
    assert!(none.is_empty());
}

#[test]
fn workspace_sort_agrees_with_the_standard_stable_sort() {
    let mut seed: u32 = 99;
    for round in 0..60 {
        let mut row = Vec::new();
        for i in 0..(round % 13) {
            seed = seed.wrapping_mul(1103515245).wrapping_add(12345);
            row.push(workspace(i as u64, ((seed >> 16) % 5) as u8));
        }
        let mut expected = row.clone();
        expected.sort_by_key(|w| w.idx);
        sort_by_index(&mut row);
        assert_eq!(row, expected);
    }
}
