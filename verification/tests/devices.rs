use bluetooth::address::Address;
use bluetooth::device::{
    device_type_to_icon, BluerDevice, BluerDeviceStatus, DeviceReading, DEFAULT_DEVICE_ICON,
};
use bluetooth::listing::{build_device_list, sort_devices, sort_keyed};
use bluetooth::order::listed_before;
use bluetooth::property::DeviceProperty;
use bluetooth::text::{characters, precedes, same_text};
use std::cmp::Ordering;

const ADDRESS: Address = Address([0x0a, 0xb1, 0x2c, 0xd3, 0x4e, 0xff]);

fn reading(name: Option<&str>) -> DeviceReading<String> {
    DeviceReading {
        address: ADDRESS,
        name: Ok(name.map(|n| n.to_string())),
        paired: Ok(false),
        connected: Ok(false),
        properties: Ok(vec![]),
    }
}

fn device(name: &str, status: BluerDeviceStatus, last: u8) -> BluerDevice {
    BluerDevice {
        name: name.to_string(),
        address: Address([0, 0, 0, 0, 0, last]),
        status,
        properties: vec![],
        icon: DEFAULT_DEVICE_ICON.to_string(),
    }
}

fn bonded(properties: Vec<DeviceProperty>) -> bool {
    let mut d = device("x", BluerDeviceStatus::Paired, 1);
    d.properties = properties;
    d.paired_and_trusted()
}

#[test]
fn address_in_upper_case_hex() {
    assert_eq!(ADDRESS.to_text(), "0A:B1:2C:D3:4E:FF");
    assert_eq!(Address([0; 6]).to_text(), "00:00:00:00:00:00");
}

#[test]
fn addresses_compare_by_bytes() {
    assert!(ADDRESS == Address([0x0a, 0xb1, 0x2c, 0xd3, 0x4e, 0xff]));
    assert!(ADDRESS != Address([0x0a, 0xb1, 0x2c, 0xd3, 0x4e, 0xfe]));
}

#[test]
fn different_addresses_have_different_texts() {
    assert_ne!(Address([1, 0, 0, 0, 0, 0]).to_text(), Address([0x10, 0, 0, 0, 0, 0]).to_text());
}

#[test]
fn icon_for_each_type() {
    let cases = [
        ("computer", "laptop-symbolic"),
        ("phone", "smartphone-symbolic"),
        ("network-wireless", "network-wireless-symbolic"),
        ("audio-headset", "audio-headset-symbolic"),
        ("audio-headphones", "audio-headphones-symbolic"),
        ("camera-video", "camera-video-symbolic"),
        ("audio-card", "audio-card-symbolic"),
        ("input-gaming", "input-gaming-symbolic"),
        ("input-keyboard", "input-keyboard-symbolic"),
        ("input-tablet", "input-tablet-symbolic"),
        ("input-mouse", "input-mouse-symbolic"),
        ("printer", "printer-network-symbolic"),
        ("camera-photo", "camera-photo-symbolic"),
        ("Phone", "bluetooth-symbolic"),
        ("", "bluetooth-symbolic"),
        ("bluetooth-symbolic", "bluetooth-symbolic"),
    ];
    for (device_type, icon) in cases {
        assert_eq!(device_type_to_icon(device_type), icon);
    }
}

#[test]
fn device_keeps_its_reported_name() {
    let d = BluerDevice::from_device(reading(Some("Keyboard")));
    assert_eq!(d.name, "Keyboard");
    assert!(d.address == ADDRESS);
    assert!(d.has_name());
}

#[test]
fn device_without_name_shows_its_address() {
    for name in [None, Some("")] {
        let d = BluerDevice::from_device(reading(name));
        assert_eq!(d.name, "0A:B1:2C:D3:4E:FF");
        assert!(!d.has_name());
    }
    let mut failed = reading(None);
    failed.name = Err("gone".to_string());
    assert_eq!(BluerDevice::from_device(failed).name, "0A:B1:2C:D3:4E:FF");
}

#[test]
fn device_named_like_its_address_counts_as_unnamed() {
    let d = BluerDevice::from_device(reading(Some("0A:B1:2C:D3:4E:FF")));
    assert!(!d.has_name());
}

#[test]
fn status_of_a_device() {
    let cases = [
        (Ok(true), Ok(true), BluerDeviceStatus::Connected),
        (Ok(false), Ok(true), BluerDeviceStatus::Connected),
        (Ok(true), Ok(false), BluerDeviceStatus::Paired),
        (Ok(true), Err("e".to_string()), BluerDeviceStatus::Paired),
        (Err("e".to_string()), Ok(false), BluerDeviceStatus::Disconnected),
        (Ok(false), Ok(false), BluerDeviceStatus::Disconnected),
    ];
    for (paired, connected, status) in cases {
        let mut r = reading(None);
        r.paired = paired;
        r.connected = connected;
        assert_eq!(BluerDevice::from_device(r).status, status);
    }
}

#[test]
fn icon_comes_from_the_first_icon_property() {
    let mut r = reading(None);
    r.properties = Ok(vec![
        DeviceProperty::Rssi(-40),
        DeviceProperty::Icon("phone".to_string()),
        DeviceProperty::Icon("printer".to_string()),
    ]);
    let d = BluerDevice::from_device(r);
    assert_eq!(d.icon, "smartphone-symbolic");
    assert_eq!(d.properties.len(), 3);
    assert!(d.is_known_device_type());
}

#[test]
fn device_without_properties_has_the_default_icon() {
    let mut r = reading(None);
    r.properties = Err("e".to_string());
    let d = BluerDevice::from_device(r);
    assert_eq!(d.icon, "bluetooth-symbolic");
    assert!(d.properties.is_empty());
    assert!(!d.is_known_device_type());
}

#[test]
fn first_icon_property_of_unknown_type_wins() {
    let mut r = reading(None);
    r.properties = Ok(vec![
        DeviceProperty::Icon("toaster".to_string()),
        DeviceProperty::Icon("phone".to_string()),
    ]);
    assert_eq!(BluerDevice::from_device(r).icon, "bluetooth-symbolic");
}

#[test]
fn paired_and_trusted_asks_for_both() {
    assert!(bonded(vec![DeviceProperty::Paired(true), DeviceProperty::Blocked(true), DeviceProperty::Trusted(true)]));
    assert!(bonded(vec![DeviceProperty::Trusted(true), DeviceProperty::Paired(true)]));
    assert!(!bonded(vec![DeviceProperty::Paired(true), DeviceProperty::Trusted(false)]));
    assert!(!bonded(vec![DeviceProperty::Paired(false), DeviceProperty::Trusted(true)]));
    assert!(!bonded(vec![]));
}

#[test]
fn paired_and_trusted_counts_properties() {
    assert!(bonded(vec![DeviceProperty::Paired(true), DeviceProperty::Paired(true)]));
    assert!(!bonded(vec![DeviceProperty::Paired(true), DeviceProperty::Trusted(true), DeviceProperty::Trusted(true)]));
}

#[test]
fn status_decides_before_name() {
    let order = [
        BluerDeviceStatus::Connected,
        BluerDeviceStatus::Connecting,
        BluerDeviceStatus::Paired,
        BluerDeviceStatus::Pairing,
        BluerDeviceStatus::Disconnected,
        BluerDeviceStatus::Disconnecting,
    ];
    for i in 0..order.len() {
        assert_eq!(order[i].place() as usize, i);
        for j in 0..order.len() {
            let a = device("b", order[i], 1);
            let b = device(if i == j { "b" } else { "a" }, order[j], 2);
            assert_eq!(a.cmp(&b), i.cmp(&j));
        }
    }
}

#[test]
fn names_compare_without_case() {
    let a = device("alpha", BluerDeviceStatus::Paired, 1);
    let b = device("Beta", BluerDeviceStatus::Paired, 2);
    let c = device("ALPHA", BluerDeviceStatus::Paired, 3);
    assert_eq!(a.cmp(&b), Ordering::Less);
    assert_eq!(b.cmp(&a), Ordering::Greater);
    assert_eq!(a.cmp(&c), Ordering::Equal);
    assert_eq!(a.partial_cmp(&b), Some(Ordering::Less));
    assert!(a < b);
    assert!(a != c);
}

#[test]
fn same_name_and_address_is_the_same_device() {
    let a = device("x", BluerDeviceStatus::Paired, 1);
    let b = device("x", BluerDeviceStatus::Connected, 1);
    let c = device("x", BluerDeviceStatus::Paired, 2);
    assert!(a == b);
    assert!(a != c);
    assert!(a != device("X", BluerDeviceStatus::Paired, 1));
}

#[test]
fn comparison_on_lower_case_names() {
    let s = BluerDeviceStatus::Paired;
    assert!(listed_before(s, "a", s, "b"));
    assert!(!listed_before(s, "b", s, "a"));
    assert!(!listed_before(s, "a", s, "a"));
    assert!(listed_before(BluerDeviceStatus::Connected, "b", s, "a"));
}

#[test]
fn text_in_code_point_order() {
    assert!(precedes("", "a"));
    assert!(precedes("a", "ab"));
    assert!(precedes("ab", "b"));
    assert!(precedes("z", "\u{e9}"));
    assert!(precedes("\u{ffff}", "\u{10000}"));
    assert!(!precedes("b", "ab"));
    assert!(!precedes("a", "a"));
    assert!(same_text("\u{e9}t\u{e9}", "\u{e9}t\u{e9}"));
    assert!(!same_text("ab", "abc"));
    assert!(!same_text("ab", "ac"));
    assert_eq!(characters("a\u{e9}"), vec!['a', '\u{e9}']);
}

#[test]
fn devices_are_sorted() {
    let list = sort_devices(vec![
        device("zeta", BluerDeviceStatus::Connected, 1),
        device("Beta", BluerDeviceStatus::Disconnected, 2),
        device("alpha", BluerDeviceStatus::Disconnected, 3),
        device("mid", BluerDeviceStatus::Paired, 4),
    ]);
    let names: Vec<&str> = list.iter().map(|d| d.name.as_str()).collect();
    assert_eq!(names, vec!["zeta", "mid", "alpha", "Beta"]);
}

#[test]
fn level_devices_keep_their_order() {
    let list = sort_devices(vec![
        device("same", BluerDeviceStatus::Paired, 3),
        device("SAME", BluerDeviceStatus::Paired, 1),
        device("Same", BluerDeviceStatus::Paired, 2),
    ]);
    let last: Vec<u8> = list.iter().map(|d| d.address.0[5]).collect();
    assert_eq!(last, vec![3, 1, 2]);
}

#[test]
fn sorting_again_changes_nothing() {
    let once = sort_devices(vec![
        device("b", BluerDeviceStatus::Paired, 1),
        device("a", BluerDeviceStatus::Paired, 2),
        device("B", BluerDeviceStatus::Connected, 3),
    ]);
    let names: Vec<String> = once.iter().map(|d| d.name.clone()).collect();
    let again: Vec<String> = sort_devices(once).iter().map(|d| d.name.clone()).collect();
    assert_eq!(names, again);
    assert_eq!(names, vec!["B", "a", "b"]);
}

#[test]
fn sorting_by_given_keys() {
    let list = sort_keyed(vec![
        (device("first", BluerDeviceStatus::Paired, 1), "2".to_string()),
        (device("second", BluerDeviceStatus::Paired, 2), "1".to_string()),
    ]);
    assert_eq!(list[0].name, "second");
    assert_eq!(list[1].name, "first");
}

#[test]
fn list_leaves_out_what_cannot_be_opened() {
    let list = build_device_list(Ok(vec![
        Ok(reading(Some("b"))),
        Err("gone".to_string()),
        Ok(reading(Some("A"))),
    ]));
    let names: Vec<&str> = list.iter().map(|d| d.name.as_str()).collect();
    assert_eq!(names, vec!["A", "b"]);
}

#[test]
fn list_is_empty_without_addresses() {
    assert!(build_device_list::<String>(Err("down".to_string())).is_empty());
}
