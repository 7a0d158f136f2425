use sdroxide_input::hid::{
    HidEntry, field, hid_id, hidiocgfeature, hidiocsfeature, hidraw_index, hidraw_name,
    hidraw_order, ioc,
    linux_entry, parse_hex, wanted, windows_input_len, with_report_id,
};

/// A real `uevent` from a dcttech relay board, verbatim.
const UEVENT: &str = "DRIVER=hid-generic\n\
     HID_ID=0003:000016C0:000005DF\n\
     HID_NAME=www.dcttech.com USBRelay2\n\
     HID_PHYS=usb-0000:00:14.0-2/input0\n\
     HID_UNIQ=\n\
     MODALIAS=hid:b0003g0001v000016C0p000005DF\n";

#[test]
fn a_uevent_yields_the_usb_ids_and_the_product_string() {
    assert_eq!(hid_id(UEVENT), Some((0x16c0, 0x05df)));
    assert_eq!(field(UEVENT, "HID_NAME").as_deref(), Some("www.dcttech.com USBRelay2"));
    // Present but empty.
    assert_eq!(field(UEVENT, "HID_UNIQ").as_deref(), Some(""));
    assert_eq!(field(UEVENT, "HID_NOPE"), None);
}

#[test]
fn a_uevent_without_an_id_is_skipped_rather_than_guessed_at() {
    assert_eq!(hid_id("DRIVER=hid-generic\n"), None);
    assert_eq!(hid_id("HID_ID=0003:zzzz:0005\n"), None);
}

/// The numbers a reader can check against `linux/hidraw.h`.
#[test]
fn the_ioctl_numbers_are_the_kernels() {
    // HIDIOCSFEATURE(9) and HIDIOCGFEATURE(9).
    assert_eq!(hidiocsfeature(9), 0xC009_4806);
    assert_eq!(hidiocgfeature(9), 0xC009_4807);
    assert_eq!(ioc(2, 1, 4), 0x8004_4801);
}

#[test]
fn a_field_is_the_first_line_for_its_key_trimmed() {
    let text = "HID_NAMEX=no\nHID_NAME=  first \r\nHID_NAME=second";
    assert_eq!(field(text, "HID_NAME").as_deref(), Some("first"));
    assert_eq!(field("A=1\nB=2", "B").as_deref(), Some("2"));
    assert_eq!(field("A", "A"), None);
    assert_eq!(field("", "A"), None);
}

#[test]
fn ids_are_hex_with_an_optional_plus_and_cut_to_sixteen_bits() {
    assert_eq!(hid_id("HID_ID=3: +1A : 0010FFFF"), Some((0x1a, 0xffff)));
    assert_eq!(hid_id("HID_ID=0003:16C0"), None);
    assert_eq!(hid_id("HID_ID=0003::05DF"), None);
    assert_eq!(parse_hex("ffffffff"), Some(u32::MAX));
    assert_eq!(parse_hex("100000000"), None);
    assert_eq!(parse_hex("+"), None);
    assert_eq!(parse_hex("-1"), None);
}

#[test]
fn an_empty_id_list_wants_every_device() {
    assert!(wanted(&[], 1, 2));
    assert!(wanted(&[(3, 4), (1, 2)], 1, 2));
    assert!(!wanted(&[(3, 4)], 1, 2));
}

#[test]
fn a_hidraw_node_becomes_an_entry_only_when_wanted() {
    let e = linux_entry("hidraw3", UEVENT, &[(0x16c0, 0x05df)]).unwrap();
    assert_eq!(
        e,
        HidEntry {
            key: "/dev/hidraw3".into(),
            vendor: 0x16c0,
            product: 0x05df,
            name: "www.dcttech.com USBRelay2".into(),
            serial: String::new(),
        }
    );
    assert_eq!(linux_entry("hidraw3", UEVENT, &[(0x0c26, 0x001e)]), None);
    assert_eq!(linux_entry("hidraw3", "DRIVER=x\n", &[]), None);
}

#[test]
fn hidraw_nodes_sort_numerically() {
    assert!(hidraw_name("hidraw10"));
    assert!(!hidraw_name("hid"));
    assert!(!hidraw_name("event3"));
    assert_eq!(hidraw_index("hidraw2"), 2);
    assert_eq!(hidraw_index("hidraw10"), 10);
    assert_eq!(hidraw_index("hidrawx"), u32::MAX);
}

#[test]
fn reports_are_framed_with_their_id_first() {
    assert_eq!(with_report_id(0, &[0xfe, 1]), vec![0, 0xfe, 1]);
    assert_eq!(windows_input_len(0, 32), None);
    assert_eq!(windows_input_len(33, 32), Some(32));
    assert_eq!(windows_input_len(65, 32), Some(32));
    assert_eq!(windows_input_len(10, 32), Some(9));
}

#[test]
fn hidraw_nodes_are_listed_by_number() {
    let listed: Vec<String> = ["hidraw10", "card0", "hidraw2", "hidrawx", "hidraw1", "hidraw02"]
        .iter()
        .map(|s| s.to_string())
        .collect();
    // Numerically, so hidraw2 comes before hidraw10; a name without a number
    // goes last, and two that rank alike keep the order they were listed in.
    assert_eq!(hidraw_order(&listed), vec!["hidraw1", "hidraw2", "hidraw02", "hidraw10", "hidrawx"]);
}

use sdroxide_input::hid::{
    INBOX_MAX, Inbox, from_wide, interface_path, mac_entry, names_device, registry_key,
    windows_entry,
};

#[test]
fn the_inbox_drops_the_oldest_report_when_full() {
    let mut inbox = Inbox::new();
    inbox.on_report(&[]);
    assert_eq!(inbox.take(8), None);
    for i in 0..(INBOX_MAX + 2) {
        inbox.on_report(&[(i % 251) as u8, 0xAA]);
    }
    // The two oldest made room for the two newest.
    assert_eq!(inbox.take(8), Some(vec![2, 0xAA]));
    assert_eq!(inbox.take(1), Some(vec![3]));
    let mut n = 2;
    while inbox.take(8).is_some() {
        n += 1;
    }
    assert_eq!(n, INBOX_MAX);
}

#[test]
fn a_removed_device_keeps_what_it_sent() {
    let mut inbox = Inbox::new();
    inbox.on_report(&[1, 2, 3]);
    assert!(!inbox.removed());
    inbox.on_removal();
    assert!(inbox.removed());
    assert_eq!(inbox.take(2), Some(vec![1, 2]));
    assert_eq!(inbox.take(2), None);
}

fn units(s: &str) -> Vec<u16> {
    s.encode_utf16().collect()
}

#[test]
fn wide_strings_end_at_their_nul() {
    let mut buf = [0u16; 16];
    for (i, u) in units("USBRelay2").into_iter().enumerate() {
        buf[i] = u;
    }
    assert_eq!(from_wide(&buf), "USBRelay2");
    assert_eq!(from_wide(&units("no nul")), "no nul");
    assert_eq!(from_wide(&[]), "");
}

#[test]
fn an_interface_detail_holds_its_path_after_the_size() {
    let mut detail = vec![8u8, 0, 0, 0];
    for u in units("\\\\?\\hid#vid_16c0") {
        detail.extend_from_slice(&u.to_le_bytes());
    }
    detail.extend_from_slice(&[0, 0, b'x', 0, 7]);
    assert_eq!(interface_path(&detail), "\\\\?\\hid#vid_16c0");
    assert_eq!(interface_path(&[8, 0, 0, 0]), "");
}

#[test]
fn windows_entries_need_a_path_and_a_wanted_id() {
    let ids = [(0x16c0u16, 0x05dfu16)];
    let name = units("USBRelay2");
    let e = windows_entry("\\\\?\\hid".to_string(), 0x16c0, 0x05df, Some(&name), None, &ids).unwrap();
    assert_eq!(e.key, "\\\\?\\hid");
    assert_eq!(e.name, "USBRelay2");
    assert_eq!(e.serial, "");
    assert_eq!(windows_entry(String::new(), 0x16c0, 0x05df, None, None, &ids), None);
    assert_eq!(windows_entry("p".to_string(), 0x0c26, 0x001e, None, None, &ids), None);
    assert!(windows_entry("p".to_string(), 0x0c26, 0x001e, None, None, &[]).is_some());
}

#[test]
fn mac_entries_are_keyed_by_registry_entry_id() {
    let e = mac_entry(Some(0x0c26), Some(0x001e), Some(4_294_969_123), Some("IC-RC28".to_string()), None, &[])
        .unwrap();
    assert_eq!(e.key, "4294969123");
    assert_eq!((e.vendor, e.product), (0x0c26, 0x001e));
    assert_eq!(e.name, "IC-RC28");
    assert_eq!(e.serial, "");
    // Only the low 16 bits are an id.
    let e = mac_entry(Some(0x1_0c26), Some(0x001e), Some(14), None, None, &[(0x0c26, 0x001e)]).unwrap();
    assert_eq!(e.key, "14");
    assert_eq!(mac_entry(None, Some(1), Some(1), None, None, &[]), None);
    assert_eq!(mac_entry(Some(1), Some(1), None, None, None, &[]), None);
    assert_eq!(mac_entry(Some(1), Some(1), Some(1), None, None, &[(2, 2)]), None);
}

#[test]
fn a_mac_key_names_its_registry_entry() {
    assert_eq!(registry_key(0), "0");
    assert_eq!(registry_key(u64::MAX), "18446744073709551615");
    assert!(names_device("4294969123", 4_294_969_123));
    assert!(!names_device("4294969123", 4_294_969_124));
    assert!(!names_device("", 0));
    assert!(!names_device("014", 14));
}
