use sdroxide_input::proto::{
    Decoder, Detents, Input, Key, LED_LINK, REPORT_LEN, Report, firmware_request, led_report,
};

fn report(bytes: &[u8]) -> [u8; REPORT_LEN] {
    let mut r = [0u8; REPORT_LEN];
    r[..bytes.len()].copy_from_slice(bytes);
    r
}

/// Reports captured from a real RC-28, verbatim apart from the zero tail.
#[test]
fn the_knob_reads_as_signed_steps() {
    let cw = report(&[0x01, 0x03, 0x00, 0x01, 0x00, 0x07]);
    let ccw = report(&[0x01, 0x0e, 0x00, 0x02, 0x01, 0x07]);
    assert_eq!(Report::parse(&cw), Some(Report::State { steps: 3, keys: 0 }));
    assert_eq!(Report::parse(&ccw), Some(Report::State { steps: -14, keys: 0 }));
}

#[test]
fn the_buttons_are_active_low() {
    let tx = report(&[0x01, 0x00, 0x00, 0x00, 0x00, 0x06]);
    let f1 = report(&[0x01, 0x00, 0x00, 0x00, 0x00, 0x05]);
    let f2 = report(&[0x01, 0x00, 0x00, 0x00, 0x00, 0x03]);
    let parse = |r: &[u8]| match Report::parse(r) {
        Some(Report::State { keys, .. }) => keys,
        other => panic!("{other:?}"),
    };
    assert_eq!(parse(&tx), Key::Transmit.bit());
    assert_eq!(parse(&f1), Key::F1.bit());
    assert_eq!(parse(&f2), Key::F2.bit());
}

#[test]
fn the_firmware_reply_is_text() {
    let mut r = report(&[0x02]);
    r[1..9].copy_from_slice(b"102 3210");
    assert_eq!(Report::parse(&r), Some(Report::Firmware("102 3210".into())));
}

#[test]
fn anything_else_is_not_a_report() {
    assert_eq!(Report::parse(&[]), None);
    assert_eq!(Report::parse(&report(&[0x05, 0x01])), None);
    // Too short to hold the button byte.
    assert_eq!(Report::parse(&[0x01, 0x01, 0x00]), None);
}

#[test]
fn the_decoder_reports_edges_not_levels() {
    let mut d = Decoder::default();
    let press = Report::State { steps: 0, keys: Key::F1.bit() };
    assert_eq!(d.feed(&press), vec![Input::Key { key: Key::F1, down: true }]);
    // The same level again, the knob moving while F-1 is held, is not a
    // second press.
    let turn = Report::State { steps: 2, keys: Key::F1.bit() };
    assert_eq!(d.feed(&turn), vec![Input::Turn(2)]);
    let release = Report::State { steps: 0, keys: 0 };
    assert_eq!(d.feed(&release), vec![Input::Key { key: Key::F1, down: false }]);
    assert_eq!(d.feed(&Report::Firmware("x".into())), vec![]);
}

#[test]
fn a_reset_forgets_what_was_held() {
    let mut d = Decoder::default();
    d.feed(&Report::State { steps: 0, keys: Key::Transmit.bit() });
    d.reset();
    let again = Report::State { steps: 0, keys: Key::Transmit.bit() };
    assert_eq!(d.feed(&again), vec![Input::Key { key: Key::Transmit, down: true }]);
}

#[test]
fn counts_become_whole_detents_with_the_rest_carried() {
    let mut d = Detents::default();
    assert_eq!(d.add(7), 0);
    assert_eq!(d.add(7), 1);
    assert_eq!(d.add(-4), 0, "the carry of 4 is spent first");
    assert_eq!(d.add(-25), -2);
    assert_eq!(d.add(-5), -1);
    d.reset();
    assert_eq!(d.add(9), 0);
}

/// Each of these lit exactly the LED named.
#[test]
fn the_leds_are_active_low() {
    assert_eq!(led_report(0)[..2], [0x01, 0x0f]);
    assert_eq!(led_report(Key::Transmit.bit())[..2], [0x01, 0x0e]);
    assert_eq!(led_report(Key::F1.bit())[..2], [0x01, 0x0d]);
    assert_eq!(led_report(Key::F2.bit())[..2], [0x01, 0x0b]);
    assert_eq!(led_report(LED_LINK)[..2], [0x01, 0x07]);
    assert_eq!(led_report(0x0f)[..2], [0x01, 0x00]);
    assert_eq!(firmware_request()[0], 0x02);
}

#[test]
fn keys_have_their_labels_and_order() {
    assert_eq!(Key::all(), [Key::Transmit, Key::F1, Key::F2]);
    assert_eq!(Key::Transmit.label(), "TRANSMIT");
    assert_eq!(Key::F1.label(), "F-1");
    assert_eq!(Key::F2.label(), "F-2");
}

#[test]
fn every_report_is_thirty_two_bytes_with_a_zero_tail() {
    let r = led_report(0x05);
    assert_eq!(r.len(), 32);
    assert!(r[2..].iter().all(|b| *b == 0));
    assert!(firmware_request()[1..].iter().all(|b| *b == 0));
}

#[test]
fn a_still_knob_with_an_unknown_direction_is_no_turn() {
    let r = report(&[0x01, 0x05, 0x00, 0x00, 0x00, 0x07]);
    assert_eq!(Report::parse(&r), Some(Report::State { steps: 0, keys: 0 }));
    let r = report(&[0x01, 0x05, 0x00, 0x03, 0x00, 0x07]);
    assert_eq!(Report::parse(&r), Some(Report::State { steps: 0, keys: 0 }));
}

#[test]
fn all_three_buttons_can_be_held_at_once() {
    let r = report(&[0x01, 0x00, 0x00, 0x00, 0x00, 0x00]);
    assert_eq!(Report::parse(&r), Some(Report::State { steps: 0, keys: 0x07 }));
    let mut d = Decoder::default();
    assert_eq!(
        d.feed(&Report::State { steps: -1, keys: 0x07 }),
        vec![
            Input::Turn(-1),
            Input::Key { key: Key::Transmit, down: true },
            Input::Key { key: Key::F1, down: true },
            Input::Key { key: Key::F2, down: true },
        ]
    );
    assert_eq!(d.held(), 0x07);
}

#[test]
fn the_firmware_text_stops_at_the_first_zero_and_is_trimmed() {
    let mut r = report(&[0x02]);
    r[1..12].copy_from_slice(b"  102 3210 ");
    r[13] = b'x';
    assert_eq!(Report::parse(&r), Some(Report::Firmware("102 3210".into())));
    assert_eq!(Report::parse(&[0x02]), Some(Report::Firmware(String::new())));
}

#[test]
fn invalid_utf8_in_the_firmware_text_is_replaced() {
    let r = [0x02, b'a', 0xff, b'b'];
    assert_eq!(Report::parse(&r), Some(Report::Firmware("a\u{fffd}b".into())));
}

#[test]
fn a_wiggle_spends_the_carry() {
    let mut d = Detents::default();
    assert_eq!(d.add(15), 1);
    assert_eq!(d.add(-15), -1);
    assert_eq!(d.add(5), 0);
    assert_eq!(d.add(-5), 0);
}

#[test]
fn no_knob_count_is_lost_over_a_run() {
    let counts = [7i32, 7, -4, -25, -5, 3, 12, -1];
    let mut d = Detents::default();
    let mut counted: i64 = 0;
    let mut whole: i64 = 0;
    for c in counts.iter() {
        whole += d.add(*c) as i64;
        counted += *c as i64;
        assert!((counted - 10 * whole).abs() < 10);
    }
    assert_eq!(counted, -6);
    assert_eq!(whole, -1);
    let mut d = Detents::default();
    assert_eq!(d.add(7), 0);
    assert_eq!(d.add(-7), 0, "a wiggle nets out");
}
