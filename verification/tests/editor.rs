use sdroxide_input::editor::{
    action_choices, add_key, add_midi, bind_space_ptt, clear_midi, offers_space_ptt, remove_key,
    remove_midi, restore_keys, wheel_cannot_zoom,
};
use sdroxide_input::input::{
    Action, ButtonMode, KeyBinding, KeyChord, MidiBinding, WheelAction, WheelSettings,
};
use sdroxide_input::runtime::MidiLearn;

#[test]
fn adding_a_shortcut_waits_for_its_key() {
    let mut keys = KeyBinding::defaults();
    let n = keys.len();
    let mut capture = None;
    add_key(&mut keys, &mut capture);
    assert_eq!(keys.len(), n + 1);
    assert_eq!(capture, Some(n));
    assert!(keys[n].chord.is_empty());
    assert_eq!(keys[n].action, Action::Tune);
}

#[test]
fn removing_the_captured_row_drops_the_capture() {
    let mut keys = KeyBinding::defaults();
    let mut capture = Some(2);
    remove_key(&mut keys, 5, &mut capture);
    assert_eq!(capture, Some(2));
    remove_key(&mut keys, 2, &mut capture);
    assert_eq!(capture, None);
    assert_eq!(keys.len(), KeyBinding::defaults().len() - 2);
}

#[test]
fn restore_puts_the_shipped_shortcuts_back() {
    let mut keys = Vec::new();
    let mut capture = Some(0);
    restore_keys(&mut keys, &mut capture);
    assert_eq!(keys, KeyBinding::defaults());
    assert_eq!(capture, None);
}

#[test]
fn hold_to_talk_is_offered_until_ptt_is_bound() {
    let mut keys = KeyBinding::defaults();
    assert!(offers_space_ptt(&keys));
    bind_space_ptt(&mut keys);
    let b = keys.last().unwrap();
    assert_eq!(b.chord, KeyChord::plain("Space"));
    assert_eq!(b.action, Action::Ptt);
    assert_eq!(b.button, ButtonMode::Momentary);
    assert!(b.enabled);
    assert!(!offers_space_ptt(&keys));
}

#[test]
fn two_tuning_wheels_leave_nothing_to_zoom_with() {
    let mut w = WheelSettings::default();
    assert!(!wheel_cannot_zoom(&w));
    w.wheel = WheelAction::Tune;
    assert!(wheel_cannot_zoom(&w));
}

#[test]
fn a_new_midi_row_is_learned_and_clearing_stops_learn() {
    let mut bindings = Vec::new();
    let mut learn = None;
    add_midi(&mut bindings, &mut learn);
    add_midi(&mut bindings, &mut learn);
    assert_eq!(bindings, vec![MidiBinding::default(), MidiBinding::default()]);
    assert_eq!(learn, Some(MidiLearn { row: 1 }));
    remove_midi(&mut bindings, 0, &mut learn);
    assert_eq!(learn, Some(MidiLearn { row: 1 }));
    remove_midi(&mut bindings, 0, &mut learn);
    assert_eq!(learn, Some(MidiLearn { row: 1 }));
    add_midi(&mut bindings, &mut learn);
    clear_midi(&mut bindings, &mut learn);
    assert!(bindings.is_empty());
    assert_eq!(learn, None);
}

#[test]
fn the_action_menu_ends_with_the_memories() {
    let all = Action::all();
    let v = action_choices(&[7, 3]);
    assert_eq!(v.len(), all.len() + 2);
    assert_eq!(&v[..all.len()], &all[..]);
    assert_eq!(v[all.len()], Action::MemoryRecall(7));
    assert_eq!(v[all.len() + 1], Action::MemoryRecall(3));
}

use sdroxide_input::editor::{
    last_midi_line, midi_chip_label, midi_status_line, rc28_status_line, set_key_action,
    set_knob_action, set_midi_action, toggle_learn,
};
use sdroxide_input::input::{MidiMsg, MidiMsgKind, Rc28Settings};
use sdroxide_input::rc28::Rc28Status;
use sdroxide_input::runtime::{MidiStatusView, Rc28StatusView};

#[test]
fn clicking_a_control_chip_learns_it_or_stops() {
    let mut learn = None;
    toggle_learn(&mut learn, 3);
    assert_eq!(learn, Some(MidiLearn { row: 3 }));
    toggle_learn(&mut learn, 1);
    assert_eq!(learn, Some(MidiLearn { row: 1 }));
    toggle_learn(&mut learn, 1);
    assert_eq!(learn, None);
}

#[test]
fn a_new_action_takes_its_default_step() {
    let mut b = MidiBinding::default();
    b.tuning.accel = 0x3F800000;
    set_midi_action(&mut b, Action::Volume);
    assert_eq!(b.action, Action::Volume);
    assert_eq!(b.tuning.step, Action::Volume.default_step());
    assert_eq!(b.tuning.accel, 0x3F800000);
    let mut rc = Rc28Settings::default();
    set_knob_action(&mut rc, Action::FilterWidth);
    assert_eq!(rc.knob, Action::FilterWidth);
    assert_eq!(rc.knob_tuning.step, Action::FilterWidth.default_step());
    assert_eq!(rc.knob_tuning.accel, Rc28Settings::default().knob_tuning.accel);
}

fn rc28_view(connected: bool, firmware: &str, error: Option<&str>, choose: bool) -> Rc28StatusView {
    Rc28StatusView {
        unsupported: None,
        status: Rc28Status {
            connected,
            name: "IC-RC28".to_string(),
            firmware: firmware.to_string(),
            error: error.map(|e| e.to_string()),
        },
        choose,
    }
}

#[test]
fn the_rc28_status_line() {
    assert_eq!(rc28_status_line(&rc28_view(true, "1.02", None, false)), "● IC-RC28, firmware 1.02");
    assert_eq!(rc28_status_line(&rc28_view(true, "", None, false)), "● IC-RC28");
    assert_eq!(rc28_status_line(&rc28_view(false, "", Some("busy"), true)), "busy");
    assert_eq!(
        rc28_status_line(&rc28_view(false, "", None, true)),
        "Not connected — choose the device once."
    );
    assert_eq!(rc28_status_line(&rc28_view(false, "", None, false)), "Not connected — plug it in.");
}

#[test]
fn the_midi_status_and_last_message_lines() {
    let mut v = MidiStatusView::default();
    assert_eq!(midi_status_line(&v), "Not connected.");
    v.error = Some("no such port".to_string());
    assert_eq!(midi_status_line(&v), "no such port");
    v.connected = true;
    v.port = "DJ Control".to_string();
    assert_eq!(midi_status_line(&v), "● DJ Control");
    let msg = MidiMsg { kind: MidiMsgKind::Cc, channel: 0, data1: 7 };
    assert_eq!(last_midi_line(Some((msg, 64))), "Last message: CC 7  ch 1  value 64");
    assert_eq!(last_midi_line(None), "Move a control to see it here.");
    let b = MidiBinding { msg, ..MidiBinding::default() };
    assert_eq!(midi_chip_label(&b, true), "move it…");
    assert_eq!(midi_chip_label(&b, false), "CC 7  ch 1");
}

#[test]
fn a_key_row_given_a_new_action_takes_its_default_step() {
    let mut b = KeyBinding::default();
    b.chord = KeyChord::plain("Q");
    b.tuning.step = 0x41200000;
    b.tuning.accel = 0x3F800000;
    set_key_action(&mut b, Action::FilterWidth);
    assert_eq!(b.action, Action::FilterWidth);
    assert_eq!(b.tuning.step, Action::FilterWidth.default_step());
    assert_eq!(b.tuning.accel, 0x3F800000);
    assert_eq!(b.chord, KeyChord::plain("Q"));
}
