use statusbar::access_point::AccessPoint;
use statusbar::bus::{into_queue, object_in, Reply};
use statusbar::catalog::merge_access_point;
use statusbar::decode::{decode_access_point, DecodeError};
use statusbar::ranking::sort_by_strength;
use statusbar::wifi::{network_items, signal_icon, NetworkItem};

fn ap(ssid: &str, strength: u8, path: &str) -> AccessPoint {
    AccessPoint { ssid: ssid.to_string(), strength, is_secured: false, path: path.to_string() }
}

fn paths(catalog: &[AccessPoint]) -> Vec<&str> {
    catalog.iter().map(|ap| ap.path.as_str()).collect()
}

#[test]
fn merge_appends_a_new_name() {
    let mut catalog = vec![ap("a", 10, "/1")];
    merge_access_point(&mut catalog, ap("b", 5, "/2"));
    assert_eq!(paths(&catalog), vec!["/1", "/2"]);
}

#[test]
fn merge_replaces_in_place_only_when_stronger() {
    let mut catalog = vec![ap("a", 10, "/1"), ap("b", 20, "/2"), ap("c", 30, "/3")];
    merge_access_point(&mut catalog, ap("b", 21, "/4"));
    assert_eq!(paths(&catalog), vec!["/1", "/4", "/3"]);
    merge_access_point(&mut catalog, ap("b", 21, "/5"));
    assert_eq!(paths(&catalog), vec!["/1", "/4", "/3"]);
    merge_access_point(&mut catalog, ap("b", 0, "/6"));
    assert_eq!(paths(&catalog), vec!["/1", "/4", "/3"]);
    assert_eq!(catalog[1].strength, 21);
}

#[test]
fn merge_gives_one_record_per_name_with_the_greatest_strength() {
    let arrivals = [
        ("x", 3u8), ("y", 9), ("x", 7), ("z", 1), ("y", 9), ("x", 7), ("z", 0), ("y", 200), ("x", 6),
    ];
    let mut catalog = Vec::new();
    for (i, (name, strength)) in arrivals.iter().enumerate() {
        merge_access_point(&mut catalog, ap(name, *strength, &format!("/{}", i)));
    }
    let held: Vec<(&str, u8, &str)> =
        catalog.iter().map(|ap| (ap.ssid.as_str(), ap.strength, ap.path.as_str())).collect();
    assert_eq!(held, vec![("x", 7, "/2"), ("y", 200, "/7"), ("z", 1, "/3")]);
}

#[test]
fn sort_orders_from_strongest_and_keeps_ties_in_order() {
    let mut catalog = vec![
        ap("a", 10, "/1"),
        ap("b", 90, "/2"),
        ap("c", 10, "/3"),
        ap("d", 255, "/4"),
        ap("e", 90, "/5"),
        ap("f", 0, "/6"),
        ap("g", 10, "/7"),
    ];
    sort_by_strength(&mut catalog);
    assert_eq!(paths(&catalog), vec!["/4", "/2", "/5", "/1", "/3", "/7", "/6"]);
    let strengths: Vec<u8> = catalog.iter().map(|ap| ap.strength).collect();
    assert_eq!(strengths, vec![255, 90, 90, 10, 10, 10, 0]);
}

#[test]
fn sort_of_nothing_and_of_one() {
    let mut catalog: Vec<AccessPoint> = Vec::new();
    sort_by_strength(&mut catalog);
    assert!(catalog.is_empty());
    let mut catalog = vec![ap("a", 10, "/1")];
    sort_by_strength(&mut catalog);
    assert_eq!(paths(&catalog), vec!["/1"]);
}

#[test]
fn sort_agrees_with_the_standard_stable_sort() {
    let mut seed: u32 = 12345;
    for round in 0..50 {
        let mut catalog = Vec::new();
        for i in 0..(round % 17) {
            seed = seed.wrapping_mul(1103515245).wrapping_add(12345);
            catalog.push(ap(&format!("n{}", i), ((seed >> 16) % 6) as u8, &format!("/{}", i)));
        }
        let mut expected = catalog.clone();
        expected.sort_by(|a, b| b.strength.cmp(&a.strength));
        sort_by_strength(&mut catalog);
        assert_eq!(paths(&catalog), paths(&expected));
    }
}

#[test]
fn decode_needs_name_and_strength() {
    let path = || "/ap/1".to_string();
    assert_eq!(
        decode_access_point(path(), None, Some(1), Some(1), Some(1)).unwrap_err(),
        DecodeError::MissingSsid
    );
    assert_eq!(
        decode_access_point(path(), None, None, None, None).unwrap_err(),
        DecodeError::MissingSsid
    );
    assert_eq!(
        decode_access_point(path(), Some(b"Home".to_vec()), None, Some(1), Some(1)).unwrap_err(),
        DecodeError::MissingStrength
    );
    let ap = decode_access_point(path(), Some(b"Home".to_vec()), Some(77), None, None).unwrap();
    assert_eq!((ap.ssid.as_str(), ap.strength, ap.is_secured, ap.path.as_str()), ("Home", 77, false, "/ap/1"));
}

#[test]
fn decode_is_secured_iff_a_flag_is_set() {
    let secured = |wpa: Option<u32>, rsn: Option<u32>| {
        decode_access_point("/ap".to_string(), Some(b"n".to_vec()), Some(1), wpa, rsn).unwrap().is_secured
    };
    assert!(!secured(Some(0), Some(0)));
    assert!(!secured(None, None));
    assert!(!secured(Some(0), None));
    assert!(!secured(None, Some(0)));
    assert!(secured(Some(1), Some(0)));
    assert!(secured(Some(0), Some(0x80000000)));
    assert!(secured(Some(4), None));
    assert!(secured(None, Some(8)));
    assert!(secured(Some(u32::MAX), Some(u32::MAX)));
}

#[test]
fn decode_replaces_what_is_not_text() {
    let decode = |bytes: &[u8]| {
        decode_access_point("/ap".to_string(), Some(bytes.to_vec()), Some(1), None, None).unwrap().ssid
    };
    assert_eq!(decode(b"Caf\xc3\xa9"), "Café");
    assert_eq!(decode(b"Caf\xe9"), "Caf\u{fffd}");
    assert_eq!(decode(&[0xf0, 0x9f, 0x92]), "\u{fffd}");
    assert_eq!(decode(&[]), "");
    assert_ne!(decode(&[0xff]), "\u{ff}");
}

#[test]
fn queue_is_the_list_reversed() {
    let list = vec!["a".to_string(), "b".to_string(), "c".to_string()];
    assert_eq!(into_queue(list), vec!["c", "b", "a"]);
    assert_eq!(into_queue(Vec::new()), Vec::<String>::new());
}

#[test]
fn object_is_a_path_other_than_the_root() {
    assert_eq!(object_in(Reply::Path("/org/x".to_string())), Some("/org/x".to_string()));
    assert_eq!(object_in(Reply::Path("/".to_string())), None);
    assert_eq!(object_in(Reply::Text("/org/x".to_string())), None);
    assert_eq!(object_in(Reply::Failed("/org/x".to_string())), None);
}

#[test]
fn signal_icon_goes_by_bands_of_twenty() {
    let item = |strength: u8| NetworkItem { ssid: String::new(), strength, is_secured: false, is_connected: false };
    for (strength, icon) in [
        (0u8, "󰤯"), (19, "󰤯"), (20, "󰤟"), (39, "󰤟"), (40, "󰤢"), (59, "󰤢"), (60, "󰤥"),
        (79, "󰤥"), (80, "󰤨"), (100, "󰤨"), (101, "󰤯"), (255, "󰤯"),
    ] {
        assert_eq!(item(strength).signal_icon(), icon);
        assert_eq!(signal_icon(strength as i32), icon);
    }
    assert_eq!(signal_icon(-1), "󰤯");
    assert_eq!(signal_icon(i32::MIN), "󰤯");
    assert_eq!(signal_icon(i32::MAX), "󰤯");
}

#[test]
fn lock_icon_marks_secured_networks() {
    let item = |is_secured: bool| NetworkItem { ssid: String::new(), strength: 0, is_secured, is_connected: false };
    assert_eq!(item(true).lock_icon(), "󰌾");
    assert_eq!(item(false).lock_icon(), "");
}

#[test]
fn network_items_mark_the_current_network() {
    let mut secured = ap("Home", 90, "/1");
    secured.is_secured = true;
    let catalog = vec![secured, ap("Cafe", 72, "/2"), ap("", 3, "/3")];
    let items = network_items(&catalog, "Cafe");
    let shown: Vec<(&str, u8, bool, bool)> =
        items.iter().map(|i| (i.ssid.as_str(), i.strength, i.is_secured, i.is_connected)).collect();
    assert_eq!(shown, vec![("Home", 90, true, false), ("Cafe", 72, false, true), ("", 3, false, false)]);
    let items = network_items(&catalog, "");
    assert_eq!(items.iter().map(|i| i.is_connected).collect::<Vec<_>>(), vec![false, false, true]);
    assert!(network_items(&Vec::new(), "Cafe").is_empty());
}
