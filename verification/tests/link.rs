use sdroxide_input::link::{Rc28Link, WebRc28};
use sdroxide_input::proto::{Input, Key};
use sdroxide_input::rc28::Rc28Event;

#[test]
fn the_same_leds_are_sent_once() {
    let mut link = Rc28Link::new(true);
    assert!(link.set_leds(0x03));
    assert!(!link.set_leds(0x03));
    assert!(link.set_leds(0x01));
    // A new device has unknown LEDs.
    link.saw(&vec![Rc28Event::Disconnected]);
    assert!(!link.set_leds(0x01));
    link.saw(&vec![Rc28Event::Connected("IC-RC28".to_string())]);
    assert!(link.set_leds(0x01));
}

#[test]
fn toggling_the_rc28_forgets_the_leds() {
    let mut link = Rc28Link::new(true);
    assert!(!link.set_enabled(true));
    assert!(link.set_leds(0x02));
    assert!(link.set_enabled(false));
    assert!(link.set_leds(0x02));
    assert!(link.discard());
    assert!(!link.discard());
}

#[test]
fn bridge_notes_connect_and_disconnect() {
    let mut web = WebRc28::new();
    let (ev, write) = web.note("connected:IC-RC28");
    assert_eq!(ev, Some(Rc28Event::Connected("IC-RC28".to_string())));
    assert!(write);
    let (ev, write) = web.note("disconnected");
    assert_eq!(ev, Some(Rc28Event::Disconnected));
    assert!(!write);
    assert_eq!(web.note("connected"), (None, false));
    assert_eq!(web.note("hello"), (None, false));
}

#[test]
fn bridge_reports_become_events_and_firmware() {
    let mut web = WebRc28::new();
    // Two steps clockwise, TRANSMIT down (the button byte is active-low).
    let ev = web.bytes(&[0x01, 2, 0, 1, 0, 0xFE]);
    assert_eq!(
        ev,
        vec![
            Rc28Event::Input(Input::Turn(2)),
            Rc28Event::Input(Input::Key { key: Key::Transmit, down: true }),
        ]
    );
    assert!(web.bytes(&[0x02, b' ', b'1', b'.', b'0', 0, b'x']).is_empty());
    assert!(web.bytes(&[0x07]).is_empty());
    let s = web.status(true, "IC-RC28".to_string(), Some(String::new()));
    assert!(s.connected);
    assert_eq!(s.firmware, "1.0");
    assert_eq!(s.error, None);
    let s = web.status(true, String::new(), Some("denied".to_string()));
    assert!(!s.connected);
    assert_eq!(s.firmware, "");
    assert_eq!(s.error.as_deref(), Some("denied"));
    let s = web.status(false, "IC-RC28".to_string(), None);
    assert!(!s.connected);
    assert_eq!(s.name, "");
}
