use sdroxide_input::input::{
    ANY_CHANNEL, Action, ActionKind, BindingTuning, ButtonMode, InputSettings, KeyBinding,
    KeyChord, MidiMsg, MidiMsgKind, MouseButton, RelativeMode, SCHEMA, WheelAction,
};
use sdroxide_input::radio::{Band, Mode, VOICE_SLOTS, Vfo};

#[test]
fn absolute_has_no_detents() {
    assert_eq!(RelativeMode::Absolute.decode(64), None);
}

/// A settings file saved before `CwStraight` existed picks the binding up.
#[test]
fn an_old_file_gains_the_bindings_added_since() {
    let mut old = InputSettings {
        keys: KeyBinding::defaults()
            .into_iter()
            .filter(|b| b.action != Action::CwStraight)
            .collect(),
        schema: 0,
        ..InputSettings::default()
    };
    assert!(old.migrate(), "an old file has to be written back");
    let straight: Vec<_> = old.keys.iter().filter(|b| b.action == Action::CwStraight).collect();
    assert_eq!(straight.len(), 1, "exactly one straight-key binding");
    assert_eq!(straight[0].chord, KeyChord::plain("Space"));
    assert!(straight[0].enabled);
    assert_eq!(old.schema, SCHEMA);
}

/// ...and only once.
#[test]
fn a_migrated_file_does_not_get_it_back() {
    let mut cfg = InputSettings::default();
    cfg.keys.retain(|b| b.action != Action::CwStraight);
    assert!(!cfg.migrate(), "a current file needs no write-back");
    assert!(!cfg.keys.iter().any(|b| b.action == Action::CwStraight));
}

/// A binding the operator moved to another key is theirs.
#[test]
fn a_rebound_action_is_not_given_the_default_as_well() {
    let mut old = InputSettings { schema: 0, ..InputSettings::default() };
    for b in old.keys.iter_mut().filter(|b| b.action == Action::CwStraight) {
        b.chord = KeyChord::plain("Z");
    }
    old.migrate();
    let straight: Vec<_> = old.keys.iter().filter(|b| b.action == Action::CwStraight).collect();
    assert_eq!(straight.len(), 1);
    assert_eq!(straight[0].chord, KeyChord::plain("Z"));
}

#[test]
fn the_default_rc28_is_off_with_transmit_held_to_talk() {
    let rc = sdroxide_input::input::Rc28Settings::default();
    assert!(!rc.enabled);
    assert_eq!(rc.transmit.action, Action::Ptt);
    assert_eq!(rc.transmit.button_mode, ButtonMode::Momentary);
    assert_eq!(InputSettings::default().rc28, rc);
}

#[test]
fn sign_magnitude_round_trip() {
    let m = RelativeMode::SignMagnitude;
    assert_eq!(m.decode(0x01), Some(1));
    assert_eq!(m.decode(0x03), Some(3));
    assert_eq!(m.decode(0x3F), Some(63));
    assert_eq!(m.decode(0x41), Some(-1));
    assert_eq!(m.decode(0x43), Some(-3));
    assert_eq!(m.decode(0x7F), Some(-63));
    assert_eq!(m.decode(0x00), Some(0));
    assert_eq!(m.decode(0x40), Some(0));
}

#[test]
fn twos_complement_round_trip() {
    let m = RelativeMode::TwosComplement;
    assert_eq!(m.decode(1), Some(1));
    assert_eq!(m.decode(63), Some(63));
    assert_eq!(m.decode(127), Some(-1));
    assert_eq!(m.decode(65), Some(-63));
    assert_eq!(m.decode(0), Some(0));
    assert_eq!(m.decode(64), Some(0));
}

#[test]
fn binary_offset_is_centred_on_64() {
    let m = RelativeMode::BinaryOffset;
    assert_eq!(m.decode(64), Some(0));
    assert_eq!(m.decode(65), Some(1));
    assert_eq!(m.decode(63), Some(-1));
    assert_eq!(m.decode(127), Some(63));
    assert_eq!(m.decode(0), Some(-64));
}

/// 65 is +1 one way and -1 the other.
#[test]
fn sixty_five_is_ambiguous() {
    assert_eq!(RelativeMode::BinaryOffset.decode(65), Some(1));
    assert_eq!(RelativeMode::SignMagnitude.decode(65), Some(-1));
}

#[test]
fn guess_encodings() {
    assert_eq!(RelativeMode::guess(&[63, 65, 64, 65, 63]), RelativeMode::BinaryOffset);
    assert_eq!(RelativeMode::guess(&[1, 1, 127, 126, 2]), RelativeMode::TwosComplement);
    assert_eq!(RelativeMode::guess(&[1, 2, 66, 67]), RelativeMode::SignMagnitude);
    assert_eq!(RelativeMode::guess(&[0, 20, 40, 90, 127]), RelativeMode::Absolute);
    assert_eq!(RelativeMode::guess(&[5]), RelativeMode::Absolute);
    // Clockwise-only on an ambiguous encoder: read it as positive.
    assert_eq!(RelativeMode::guess(&[65, 66, 65]), RelativeMode::BinaryOffset);
}

#[test]
fn the_top_bit_of_a_relative_value_is_ignored() {
    assert_eq!(RelativeMode::BinaryOffset.decode(0x80 | 65), Some(1));
    assert_eq!(RelativeMode::SignMagnitude.decode(0xC1), Some(-1));
    assert!(RelativeMode::TwosComplement.is_relative());
    assert!(!RelativeMode::Absolute.is_relative());
}

#[test]
fn omni_channel_matches_anything() {
    let omni = MidiMsg { kind: MidiMsgKind::Cc, channel: MidiMsg::ANY_CHANNEL, data1: 16 };
    let ch3 = MidiMsg { kind: MidiMsgKind::Cc, channel: 2, data1: 16 };
    assert!(omni.matches(&ch3));
    assert!(!omni.matches(&MidiMsg { data1: 17, ..ch3 }));
    assert!(!omni.matches(&MidiMsg { kind: MidiMsgKind::Note, ..ch3 }));
}

#[test]
fn pitch_bend_ignores_controller_number() {
    let a = MidiMsg { kind: MidiMsgKind::PitchBend, channel: 0, data1: 0 };
    let b = MidiMsg { kind: MidiMsgKind::PitchBend, channel: 0, data1: 99 };
    assert!(a.matches(&b));
}

#[test]
fn different_channels_do_not_match_and_matching_is_symmetric() {
    let a = MidiMsg { kind: MidiMsgKind::Note, channel: 0, data1: 60 };
    let b = MidiMsg { kind: MidiMsgKind::Note, channel: 1, data1: 60 };
    assert!(!a.matches(&b));
    let omni = MidiMsg { channel: ANY_CHANNEL, ..a };
    assert_eq!(omni.matches(&b), b.matches(&omni));
}

#[test]
fn midi_labels_count_channels_from_one() {
    let m = MidiMsg { kind: MidiMsgKind::Cc, channel: 0, data1: 7 };
    assert_eq!(m.label(), "CC 7  ch 1");
    let m = MidiMsg { kind: MidiMsgKind::PitchBend, channel: ANY_CHANNEL, data1: 7 };
    assert_eq!(m.label(), "Pitch bend  ch any");
    assert_eq!(MidiMsg::default(), MidiMsg { kind: MidiMsgKind::Cc, channel: ANY_CHANNEL, data1: 0 });
}

/// The shipped bindings must be exactly the shortcuts there were before they
/// became configurable.
#[test]
fn defaults_reproduce_the_legacy_shortcuts() {
    let d = KeyBinding::defaults();
    let find = |label: &str| {
        d.iter().find(|b| b.chord.label() == label).unwrap_or_else(|| panic!("missing {label}"))
    };
    assert_eq!(f32::from_bits(find("ArrowRight").tuning.step), 100.0);
    assert_eq!(f32::from_bits(find("ArrowRight").value), 1.0);
    assert_eq!(f32::from_bits(find("ArrowLeft").value), -1.0);
    assert_eq!(f32::from_bits(find("Shift+ArrowRight").tuning.step), 10.0);
    assert_eq!(f32::from_bits(find("ArrowUp").tuning.step), 1_000.0);
    assert_eq!(f32::from_bits(find("PageUp").tuning.step), 10_000.0);
    assert_eq!(find("M").action, Action::Mute);
    assert_eq!(find("N").action, Action::NoiseBlanker);
    assert_eq!(find("F").action, Action::FitSpan);
    // PTT must never ship bound.
    assert!(!d.iter().any(|b| b.action == Action::Ptt));
}

/// The keypad plays slot 1 on "1" to slot 10 on "0", and every slot has
/// exactly one shipped key.
#[test]
fn voice_slots_ship_on_the_numpad() {
    let d = KeyBinding::defaults();
    let key_for = |slot: u8| {
        d.iter()
            .find(|b| b.action == Action::VoicePlay(slot))
            .map(|b| b.chord.key.clone())
            .unwrap_or_else(|| panic!("slot {slot} unbound"))
    };
    assert_eq!(key_for(0), "1");
    assert_eq!(key_for(8), "9");
    assert_eq!(key_for(9), "0");
    for slot in 0..VOICE_SLOTS {
        let n = d.iter().filter(|b| b.action == Action::VoicePlay(slot)).count();
        assert_eq!(n, 1, "slot {slot} bound {n} times");
    }
    assert!(d.iter().any(|b| b.action == Action::VoiceStop));
}

#[test]
fn every_action_has_a_label_and_a_group() {
    for a in Action::all() {
        assert!(!a.label().is_empty());
        assert!(!a.group().is_empty());
    }
}

#[test]
fn parameterised_labels_name_their_parameter() {
    assert_eq!(Action::VfoSelect(Vfo::B).label(), "Select VFO B");
    assert_eq!(Action::BandSelect(Band::M20).label(), "Band 20m");
    assert_eq!(Action::ModeSelect(Mode::Usb).label(), "Mode USB");
    assert_eq!(Action::MemoryRecall(120).label(), "Recall memory 120");
    assert_eq!(Action::VoicePlay(0).label(), "Voice keyer slot 1");
    assert_eq!(Action::VoicePlay(9).label(), "Voice keyer slot 10");
    assert_eq!(Action::SwapVfos.label(), "Swap A↔B");
}

#[test]
fn the_first_block_is_continuous_and_the_rest_momentary() {
    let all = Action::all();
    assert!(all[..18].iter().all(|a| a.kind() == ActionKind::Continuous));
    assert!(all[18..].iter().all(|a| a.kind() == ActionKind::Momentary));
    assert!(!all.iter().any(|a| matches!(a, Action::MemoryRecall(_))));
    assert_eq!(Action::Ptt.group(), "Transmit");
    assert_eq!(Action::BandSelect(Band::M6).group(), "Tuning");
    assert_eq!(Action::SpeechToggle.group(), "Speech");
}

#[test]
fn default_steps_fit_their_units() {
    assert_eq!(f32::from_bits(Action::Tune.default_step()), 100.0);
    assert_eq!(f32::from_bits(Action::FilterWidth.default_step()), 50.0);
    assert_eq!(f32::from_bits(Action::Volume.default_step()), 0.02);
    assert_eq!(f32::from_bits(Action::SpectrumZoom.default_step()), 0.05);
    assert_eq!(f32::from_bits(Action::Ptt.default_step()), 1.0);
    assert_eq!(BindingTuning::with_step(7).step, 7);
}

#[test]
fn chords_read_with_their_modifiers_in_order() {
    let c = KeyChord { key: "K".into(), ctrl: true, shift: true, alt: true };
    assert_eq!(c.label(), "Ctrl+Alt+Shift+K");
    assert_eq!(KeyChord::default().label(), "—");
    assert!(KeyChord::default().is_empty());
    assert_eq!(KeyChord::shift("ArrowLeft").label(), "Shift+ArrowLeft");
}

#[test]
fn small_labels() {
    assert_eq!(ButtonMode::Momentary.label(), "Hold");
    assert_eq!(ButtonMode::Toggle.label(), "Toggle");
    assert_eq!(WheelAction::Nothing.label(), "Nothing");
    assert_eq!(MouseButton::Extra1.label(), "Back (extra 1)");
    assert_eq!(MidiMsgKind::ProgramChange.label(), "Program");
    assert_eq!(RelativeMode::BinaryOffset.label(), "Relative: 64-centred");
}

#[test]
fn the_port_selection_ignores_the_bindings() {
    let mut m = sdroxide_input::input::MidiSettings::default();
    m.enabled = true;
    m.in_port_id = "hw:1".to_string();
    m.in_port_name = "DJ Control".to_string();
    let before = m.ports();
    m.bindings.push(sdroxide_input::input::MidiBinding::default());
    assert_eq!(m.ports(), before);
    m.out_port_name = "DJ Control out".to_string();
    assert_ne!(m.ports(), before);
    assert_eq!(m.ports().out_port_name, "DJ Control out");
}

#[test]
fn a_guess_only_reads_small_moves() {
    assert_eq!(RelativeMode::guess(&[]), RelativeMode::Absolute);
    assert_eq!(RelativeMode::guess(&[1, 2, 30]), RelativeMode::Absolute);
    assert_eq!(RelativeMode::guess(&[65, 1, 200]), RelativeMode::Absolute);
    let values = [65u8, 72, 66, 70];
    let m = RelativeMode::guess(&values);
    assert_eq!(m, RelativeMode::BinaryOffset);
    for v in values.iter() {
        let d = m.decode(*v).unwrap();
        assert!(d > 0 && d <= 8);
    }
    let values = [1u8, 8, 127, 120];
    let m = RelativeMode::guess(&values);
    assert_eq!(m, RelativeMode::TwosComplement);
    for v in values.iter() {
        let d = m.decode(*v).unwrap();
        assert!((-8..=8).contains(&d));
    }
}
