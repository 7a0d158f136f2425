use sdroxide_input::dispatch::{
    Apply, ButtonProbe, Fire, HoldProbe, KeyProbe, Modifiers, binding_button, capture_chord,
    hidden_frame,
    chord_matches, cw_straight_chords, fired, midi_button, pointer_button, rc28_button, rc28_key,
    rc28_leds, stale_holds,
};
use sdroxide_input::input::{
    Action, ButtonMode, InputSettings, KeyBinding, KeyChord, MidiBinding, MouseButton,
    MouseButtonBinding, Rc28Settings,
};
use sdroxide_input::proto::{Detents, Input, Key};
use sdroxide_input::rc28::Rc28Event;
use sdroxide_input::runtime::{HeldSet, HeldSource};

fn plain() -> Modifiers {
    Modifiers { alt: false, ctrl: false, shift: false, mac_cmd: false, command: false }
}

fn chord(key: &str, ctrl: bool, shift: bool, alt: bool) -> KeyChord {
    KeyChord { key: key.to_string(), ctrl, shift, alt }
}

fn key_binding(key: &str, action: Action, button: ButtonMode) -> KeyBinding {
    KeyBinding {
        chord: KeyChord::plain(key),
        action,
        value: 0x3F800000,
        tuning: Default::default(),
        button,
        enabled: true,
    }
}

fn settings(keys: Vec<KeyBinding>) -> InputSettings {
    InputSettings { keys, mouse_buttons: Vec::new(), ..InputSettings::default() }
}

fn sources(h: &HeldSet<u32>) -> Vec<HeldSource> {
    h.items().iter().map(|x| x.src).collect()
}

#[test]
fn a_ctrl_chord_matches_the_command_modifier_everywhere() {
    let c = chord("S", true, false, false);
    // Windows and Linux: Ctrl is the command modifier.
    let linux = Modifiers { ctrl: true, command: true, ..plain() };
    assert!(chord_matches(linux, &c));
    // macOS: the command modifier is ⌘.
    let mac = Modifiers { mac_cmd: true, command: true, ..plain() };
    assert!(chord_matches(mac, &c));
    // macOS Ctrl is not ⌘, and is not an unmodified press either.
    let mac_ctrl = Modifiers { ctrl: true, ..plain() };
    assert!(!chord_matches(mac_ctrl, &c));
    assert!(!chord_matches(mac_ctrl, &chord("S", false, false, false)));
}

#[test]
fn shift_and_alt_must_be_exactly_as_bound() {
    let c = chord("ArrowRight", false, true, false);
    assert!(chord_matches(Modifiers { shift: true, ..plain() }, &c));
    assert!(!chord_matches(plain(), &c));
    assert!(!chord_matches(Modifiers { shift: true, alt: true, ..plain() }, &c));
}

#[test]
fn capture_takes_the_next_key_but_escape() {
    let mut cfg = settings(vec![key_binding("Space", Action::Ptt, ButtonMode::Momentary)]);
    capture_chord(&mut cfg, 0, "Escape", Modifiers { shift: true, ..plain() });
    assert_eq!(cfg.keys[0].chord, KeyChord::plain("Space"));
    capture_chord(&mut cfg, 0, "F5", Modifiers { shift: true, command: true, ctrl: true, ..plain() });
    assert_eq!(cfg.keys[0].chord, chord("F5", true, true, false));
    assert_eq!(cfg.keys[0].action, Action::Ptt);
    // A row deleted while the capture waited is left alone.
    capture_chord(&mut cfg, 3, "F6", plain());
    assert_eq!(cfg.keys.len(), 1);
}

#[test]
fn capturing_a_chord_leaves_the_midi_table_alone() {
    let mut cfg = settings(vec![key_binding("Space", Action::Ptt, ButtonMode::Momentary)]);
    cfg.midi.enabled = true;
    cfg.midi.bindings.push(MidiBinding { action: Action::Split, ..MidiBinding::default() });
    capture_chord(&mut cfg, 0, "F5", plain());
    assert_eq!(cfg.keys[0].chord, KeyChord::plain("F5"));
    assert!(cfg.midi.enabled);
    assert_eq!(cfg.midi.bindings.len(), 1);
    assert_eq!(cfg.midi.bindings[0].action, Action::Split);
}

#[test]
fn the_binding_behind_each_source() {
    let mut cfg = settings(vec![key_binding("Space", Action::Ptt, ButtonMode::Momentary)]);
    cfg.mouse_buttons.push(MouseButtonBinding { button: MouseButton::Extra1, action: Action::Mute, button_mode: ButtonMode::Toggle, ..MouseButtonBinding::default() });
    cfg.midi.bindings.push(MidiBinding { action: Action::Split, button_mode: ButtonMode::Toggle, ..MidiBinding::default() });
    assert_eq!(binding_button(&cfg, HeldSource::Key(0)), Some((Action::Ptt, ButtonMode::Momentary)));
    assert_eq!(binding_button(&cfg, HeldSource::Key(1)), None);
    assert_eq!(binding_button(&cfg, HeldSource::Mouse(0)), Some((Action::Mute, ButtonMode::Toggle)));
    assert_eq!(binding_button(&cfg, HeldSource::Midi(0)), Some((Action::Split, ButtonMode::Toggle)));
    assert_eq!(binding_button(&cfg, HeldSource::Midi(2)), None);
    assert_eq!(
        binding_button(&cfg, HeldSource::Rc28(Key::Transmit)),
        Some((Action::Ptt, ButtonMode::Momentary))
    );
    cfg.rc28.f2.enabled = false;
    assert_eq!(binding_button(&cfg, HeldSource::Rc28(Key::F2)), None);
    assert_eq!(rc28_button(&cfg.rc28, Key::F1).action, Action::VfoToggle);
}

#[test]
fn cw_chords_are_the_enabled_bindings_that_name_a_key() {
    let mut off = key_binding("K", Action::CwStraight, ButtonMode::Momentary);
    off.enabled = false;
    let keys = vec![
        key_binding("Space", Action::CwStraight, ButtonMode::Momentary),
        key_binding("P", Action::Ptt, ButtonMode::Momentary),
        off,
        key_binding("", Action::CwStraight, ButtonMode::Momentary),
        key_binding("Period", Action::CwStraight, ButtonMode::Momentary),
    ];
    let cfg = settings(keys);
    assert_eq!(cw_straight_chords(&cfg), vec![KeyChord::plain("Space"), KeyChord::plain("Period")]);
    assert_eq!(cw_straight_chords(&InputSettings::default()), vec![KeyChord::plain("Space")]);
}

#[test]
fn losing_focus_lets_go_of_keys_but_not_of_the_rc28() {
    let mut held: HeldSet<u32> = HeldSet::new();
    held.press(HeldSource::Key(0), Action::Ptt, ButtonMode::Momentary, 1);
    held.press(HeldSource::Rc28(Key::Transmit), Action::Ptt, ButtonMode::Momentary, 2);
    held.press(HeldSource::Midi(4), Action::Mute, ButtonMode::Momentary, 3);
    let still = HoldProbe { timed_out: false, down: true };
    let probes = vec![still, still, still];
    assert_eq!(stale_holds(&held, &probes, true, false), vec![]);
    assert_eq!(
        stale_holds(&held, &probes, false, false),
        vec![HeldSource::Key(0), HeldSource::Midi(4)]
    );
    // Typing into a field counts as losing the keyboard.
    assert_eq!(
        stale_holds(&held, &probes, true, true),
        vec![HeldSource::Key(0), HeldSource::Midi(4)]
    );
}

#[test]
fn a_timeout_or_a_key_coming_up_lets_go() {
    let mut held: HeldSet<u32> = HeldSet::new();
    held.press(HeldSource::Key(0), Action::Ptt, ButtonMode::Momentary, 1);
    held.press(HeldSource::Rc28(Key::Transmit), Action::Ptt, ButtonMode::Momentary, 2);
    held.press(HeldSource::Mouse(1), Action::Mute, ButtonMode::Momentary, 3);
    let probes = vec![
        HoldProbe { timed_out: false, down: false },
        HoldProbe { timed_out: true, down: true },
        HoldProbe { timed_out: false, down: true },
    ];
    assert_eq!(
        stale_holds(&held, &probes, true, false),
        vec![HeldSource::Key(0), HeldSource::Rc28(Key::Transmit)]
    );
}

#[test]
fn a_momentary_key_is_held_until_it_comes_up() {
    let cfg = settings(vec![key_binding("Space", Action::Ptt, ButtonMode::Momentary)]);
    let mut held: HeldSet<u32> = HeldSet::new();
    let src = HeldSource::Key(0);
    assert_eq!(
        pointer_button(&mut held, &cfg, src, true, 7),
        Some(Apply { action: Action::Ptt, press: true, mode: ButtonMode::Momentary })
    );
    assert_eq!(sources(&held), vec![src]);
    assert_eq!(
        pointer_button(&mut held, &cfg, src, false, 8),
        Some(Apply { action: Action::Ptt, press: false, mode: ButtonMode::Momentary })
    );
    assert!(!held.any());
    // A release with nothing held applies nothing.
    assert_eq!(pointer_button(&mut held, &cfg, src, false, 9), None);
    // A source whose binding is gone does nothing.
    assert_eq!(pointer_button(&mut held, &cfg, HeldSource::Key(5), true, 9), None);
}

#[test]
fn a_toggle_key_holds_nothing() {
    let cfg = settings(vec![key_binding("M", Action::Mute, ButtonMode::Toggle)]);
    let mut held: HeldSet<u32> = HeldSet::new();
    assert_eq!(
        pointer_button(&mut held, &cfg, HeldSource::Key(0), true, 1),
        Some(Apply { action: Action::Mute, press: true, mode: ButtonMode::Toggle })
    );
    assert!(!held.any());
}

#[test]
fn a_midi_release_reaches_a_toggle_even_when_nothing_is_held() {
    let bindings = vec![
        MidiBinding { action: Action::Ptt, button_mode: ButtonMode::Momentary, ..MidiBinding::default() },
        MidiBinding { action: Action::Split, button_mode: ButtonMode::Toggle, ..MidiBinding::default() },
    ];
    let mut held: HeldSet<u32> = HeldSet::new();
    assert_eq!(midi_button(&mut held, &bindings, 0, false, 1), None);
    assert_eq!(
        midi_button(&mut held, &bindings, 1, false, 1),
        Some(Apply { action: Action::Split, press: false, mode: ButtonMode::Toggle })
    );
    assert_eq!(
        midi_button(&mut held, &bindings, 0, true, 2),
        Some(Apply { action: Action::Ptt, press: true, mode: ButtonMode::Momentary })
    );
    assert_eq!(sources(&held), vec![HeldSource::Midi(0)]);
    assert_eq!(
        midi_button(&mut held, &bindings, 0, false, 3),
        Some(Apply { action: Action::Ptt, press: false, mode: ButtonMode::Momentary })
    );
    assert!(!held.any());
    assert_eq!(midi_button(&mut held, &bindings, 9, true, 3), None);
}

#[test]
fn an_rc28_release_unkeys_what_was_keyed() {
    let mut cfg = settings(Vec::new());
    cfg.rc28 = Rc28Settings::default();
    let mut held: HeldSet<u32> = HeldSet::new();
    assert_eq!(
        rc28_key(&mut held, &cfg, Key::Transmit, true, 1),
        Some(Apply { action: Action::Ptt, press: true, mode: ButtonMode::Momentary })
    );
    // The binding is edited mid-press; the release still unkeys PTT.
    cfg.rc28.transmit.action = Action::Mute;
    assert_eq!(
        rc28_key(&mut held, &cfg, Key::Transmit, false, 2),
        Some(Apply { action: Action::Ptt, press: false, mode: ButtonMode::Momentary })
    );
    assert_eq!(rc28_key(&mut held, &cfg, Key::Transmit, false, 3), None);
}

#[test]
fn an_rc28_button_bound_to_a_knob_action_does_nothing() {
    let mut cfg = settings(Vec::new());
    cfg.rc28.f1.action = Action::Tune;
    let mut held: HeldSet<u32> = HeldSet::new();
    assert_eq!(rc28_key(&mut held, &cfg, Key::F1, true, 1), None);
    assert!(!held.any());
    cfg.rc28.f1.enabled = false;
    cfg.rc28.f1.action = Action::Split;
    assert_eq!(rc28_key(&mut held, &cfg, Key::F1, true, 1), None);
}

#[test]
fn rc28_leds_follow_the_indicators() {
    let mut cfg = Rc28Settings::default();
    assert_eq!(rc28_leds(&cfg, [Some(1), Some(0), Some(3)]), 0x01 | 0x04);
    assert_eq!(rc28_leds(&cfg, [None, Some(1), None]), 0x02);
    cfg.f2.led = false;
    assert_eq!(rc28_leds(&cfg, [Some(1), Some(1), Some(1)]), 0x03);
    cfg.transmit.enabled = false;
    assert_eq!(rc28_leds(&cfg, [Some(1), Some(1), Some(1)]), 0x02);
}

#[test]
fn keys_fire_in_binding_order_then_mouse_buttons() {
    let mut cfg = settings(vec![
        key_binding("ArrowRight", Action::Tune, ButtonMode::Momentary),
        key_binding("Space", Action::Ptt, ButtonMode::Momentary),
        key_binding("M", Action::Mute, ButtonMode::Toggle),
        key_binding("Q", Action::Ptt, ButtonMode::Momentary),
    ]);
    cfg.keys[3].chord.shift = true;
    cfg.mouse_buttons.push(MouseButtonBinding::default());
    let keys = vec![
        KeyProbe { known: true, presses: 3, pressed: true, released: false },
        KeyProbe { known: true, presses: 1, pressed: true, released: true },
        KeyProbe { known: true, presses: 1, pressed: true, released: true },
        // Wants Shift, which is not held.
        KeyProbe { known: true, presses: 1, pressed: true, released: false },
    ];
    let mouse = vec![ButtonProbe { pressed: false, released: true }];
    assert_eq!(
        fired(&cfg, plain(), &keys, &mouse),
        vec![
            Fire::Value { ix: 0, presses: 3 },
            Fire::Button { src: HeldSource::Key(1), down: true },
            Fire::Button { src: HeldSource::Key(1), down: false },
            Fire::Button { src: HeldSource::Key(2), down: true },
            Fire::Button { src: HeldSource::Mouse(0), down: false },
        ]
    );
}

#[test]
fn an_unknown_key_name_fires_nothing() {
    let cfg = settings(vec![key_binding("NoSuchKey", Action::Ptt, ButtonMode::Momentary)]);
    let keys = vec![KeyProbe { known: false, presses: 1, pressed: true, released: false }];
    assert_eq!(fired(&cfg, plain(), &keys, &Vec::new()), vec![]);
}

fn release(action: Action) -> Apply {
    Apply { action, press: false, mode: ButtonMode::Momentary }
}

/// TRANSMIT pressed with the window shown, then let go while it is hidden:
/// the release unkeys the rig there and then.
#[test]
fn a_transmit_released_while_hidden_unkeys_at_once() {
    let cfg = InputSettings::default();
    let mut held: HeldSet<u32> = HeldSet::new();
    let mut detents = Detents::new();
    assert_eq!(
        rc28_key(&mut held, &cfg, Key::Transmit, true, 0),
        Some(Apply { action: Action::Ptt, press: true, mode: ButtonMode::Momentary })
    );
    let events = vec![Rc28Event::Input(Input::Key { key: Key::Transmit, down: false })];
    assert_eq!(hidden_frame(&mut held, &events, &mut detents), vec![release(Action::Ptt)]);
    assert!(!held.any());
}

/// A press while hidden keys nothing, and so is never replayed later.
#[test]
fn a_transmit_pressed_while_hidden_is_dropped() {
    let mut held: HeldSet<u32> = HeldSet::new();
    let mut detents = Detents::new();
    let events = vec![
        Rc28Event::Input(Input::Key { key: Key::Transmit, down: true }),
        Rc28Event::Input(Input::Turn(500)),
    ];
    assert_eq!(hidden_frame(&mut held, &events, &mut detents), vec![]);
    assert!(!held.any());
}

/// A keyboard hold cannot see its key-up while hidden, so it goes; a
/// disconnect takes the RC-28's.
#[test]
fn hiding_lets_go_of_keys_and_a_disconnect_of_the_rc28() {
    let cfg = InputSettings::default();
    let mut held: HeldSet<u32> = HeldSet::new();
    let mut detents = Detents::new();
    held.press(HeldSource::Key(0), Action::TuneCarrier, ButtonMode::Momentary, 0);
    rc28_key(&mut held, &cfg, Key::Transmit, true, 0);
    assert_eq!(hidden_frame(&mut held, &Vec::new(), &mut detents), vec![release(Action::TuneCarrier)]);
    assert_eq!(sources(&held), vec![HeldSource::Rc28(Key::Transmit)]);
    let events = vec![Rc28Event::Disconnected];
    assert_eq!(hidden_frame(&mut held, &events, &mut detents), vec![release(Action::Ptt)]);
    assert!(!held.any());
}
