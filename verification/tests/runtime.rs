use sdroxide_input::input::{Action, ButtonMode, MidiBinding, MidiMsg, MidiMsgKind, RelativeMode};
use sdroxide_input::proto::{Detents, Input, Key};
use sdroxide_input::radio::Band;
use sdroxide_input::rc28::Rc28Event;
use sdroxide_input::runtime::{
    HeldClass, HeldSet, HeldSource, MidiLearn, Rc28Step, learn_capture, rc28_frame,
    rc28_hidden_frame, rc28_note, step_band,
};

/// The bands Region 1's plan gives, in order.
fn region1() -> Vec<Band> {
    vec![
        Band::M160, Band::M80, Band::M60, Band::M40, Band::M30, Band::M20, Band::M17, Band::M15,
        Band::M12, Band::M10, Band::M6, Band::M4, Band::M2, Band::M70, Band::Cm23, Band::Cm13,
        Band::Cm9, Band::Cm6, Band::Cm3,
    ]
}

#[test]
fn band_stepping_skips_general_coverage() {
    let ham = region1();
    assert_eq!(step_band(&ham, Band::M20, true), Some(Band::M17));
    assert_eq!(step_band(&ham, Band::M20, false), Some(Band::M30));
    // 4 m sits between 6 m and 2 m, in the region that has it.
    assert_eq!(step_band(&ham, Band::M6, true), Some(Band::M4));
    assert_eq!(step_band(&ham, Band::M4, true), Some(Band::M2));
    // 1.25 m and 33 cm are Region 2's alone.
    assert_eq!(step_band(&ham, Band::M2, true), Some(Band::M70));
    assert_eq!(step_band(&ham, Band::M70, true), Some(Band::Cm23));
    assert_eq!(step_band(&ham, Band::Cm23, false), Some(Band::M70));
    // Wraps within the ham bands only, from the highest to the lowest.
    assert_eq!(step_band(&ham, Band::Cm6, true), Some(Band::Cm3));
    assert_eq!(step_band(&ham, Band::Cm3, true), Some(Band::M160));
    assert_eq!(step_band(&ham, Band::Cm3, false), Some(Band::Cm6));
    assert_eq!(step_band(&ham, Band::Gen, true), None);
}

#[test]
fn a_step_up_and_back_down_returns() {
    let ham = region1();
    for b in ham.iter() {
        let up = step_band(&ham, *b, true).unwrap();
        assert_eq!(step_band(&ham, up, false), Some(*b));
    }
}

#[test]
fn a_momentary_press_is_held_once_and_a_toggle_not_at_all() {
    let mut h: HeldSet<f64> = HeldSet::new();
    h.press(HeldSource::Key(0), Action::Ptt, ButtonMode::Momentary, 1.0);
    h.press(HeldSource::Key(0), Action::Ptt, ButtonMode::Momentary, 2.0);
    h.press(HeldSource::Key(1), Action::Mute, ButtonMode::Toggle, 2.0);
    assert_eq!(h.items().len(), 1);
    assert!(h.any());
    assert_eq!(h.release(HeldSource::Key(1)), None);
    assert_eq!(h.release(HeldSource::Key(0)), Some(Action::Ptt));
    assert_eq!(h.release(HeldSource::Key(0)), None);
    assert!(!h.any());
}

#[test]
fn losing_a_device_releases_only_its_holds() {
    let mut h: HeldSet<f64> = HeldSet::new();
    h.press(HeldSource::Rc28(Key::Transmit), Action::Ptt, ButtonMode::Momentary, 0.0);
    h.press(HeldSource::Midi(2), Action::TuneCarrier, ButtonMode::Momentary, 0.0);
    h.press(HeldSource::Key(0), Action::CwStraight, ButtonMode::Momentary, 0.0);
    assert_eq!(h.release_class(HeldClass::NotRc28), vec![Action::TuneCarrier, Action::CwStraight]);
    assert_eq!(h.release_class(HeldClass::Midi), vec![]);
    assert_eq!(h.release_all(), vec![Action::Ptt]);
    assert!(!h.any());
}

#[test]
fn a_frame_applies_turns_before_the_button_that_followed_them() {
    let mut d = Detents::default();
    let evs = vec![
        Rc28Event::Input(Input::Turn(7)),
        Rc28Event::Input(Input::Turn(7)),
        Rc28Event::Input(Input::Key { key: Key::F1, down: true }),
        Rc28Event::Input(Input::Turn(25)),
        Rc28Event::Disconnected,
        Rc28Event::Input(Input::Turn(3)),
    ];
    assert_eq!(
        rc28_frame(&evs, &mut d, true),
        vec![
            Rc28Step::Turn(1),
            Rc28Step::Key { key: Key::F1, down: true },
            Rc28Step::ReleaseHolds,
            Rc28Step::Turn(2),
        ]
    );
    // 4 + 25 made two detents and left 9; the disconnect forgot it; 3 is left.
    assert_eq!(d.add(7), 1);
}

#[test]
fn a_knob_bound_to_a_button_turns_nothing() {
    let mut d = Detents::default();
    let evs = vec![Rc28Event::Input(Input::Turn(30)), Rc28Event::Connected("x".into())];
    assert_eq!(rc28_frame(&evs, &mut d, false), vec![]);
}

#[test]
fn a_hidden_window_only_lets_go() {
    let mut d = Detents::default();
    let evs = vec![
        Rc28Event::Input(Input::Key { key: Key::Transmit, down: true }),
        Rc28Event::Input(Input::Turn(40)),
        Rc28Event::Input(Input::Key { key: Key::Transmit, down: false }),
        Rc28Event::Disconnected,
    ];
    assert_eq!(
        rc28_hidden_frame(&evs, &mut d),
        vec![Rc28Step::Key { key: Key::Transmit, down: false }, Rc28Step::ReleaseHolds]
    );
}

#[test]
fn notes_say_what_the_rc28_did() {
    assert_eq!(rc28_note(Input::Turn(3)), "knob +3");
    assert_eq!(rc28_note(Input::Turn(-14)), "knob -14");
    assert_eq!(rc28_note(Input::Turn(0)), "knob +0");
    assert_eq!(rc28_note(Input::Key { key: Key::F2, down: true }), "F-2 pressed");
    assert_eq!(rc28_note(Input::Key { key: Key::Transmit, down: false }), "TRANSMIT released");
}

#[test]
fn learn_guesses_an_encoder_after_six_values_and_a_button_at_once() {
    let knob = MidiMsg { kind: MidiMsgKind::Cc, channel: 0, data1: 16 };
    let mut bindings = vec![MidiBinding::default(), MidiBinding { action: Action::Ptt, ..MidiBinding::default() }];
    let mut learn = Some(MidiLearn { row: 0 });
    let mut values = Vec::new();
    for v in [65, 66, 65, 65, 67] {
        learn_capture(&mut bindings, &mut learn, &mut values, 0, knob, v);
        assert_eq!(learn, Some(MidiLearn { row: 0 }));
    }
    learn_capture(&mut bindings, &mut learn, &mut values, 0, knob, 65);
    assert_eq!(learn, None);
    assert!(values.is_empty());
    assert_eq!(bindings[0].msg, knob);
    assert_eq!(bindings[0].relative, RelativeMode::BinaryOffset);

    let button = MidiMsg { kind: MidiMsgKind::Note, channel: 0, data1: 60 };
    let mut learn = Some(MidiLearn { row: 1 });
    learn_capture(&mut bindings, &mut learn, &mut values, 1, button, 127);
    assert_eq!(learn, None);
    assert_eq!(bindings[1].msg, button);

    let mut learn = Some(MidiLearn { row: 9 });
    learn_capture(&mut bindings, &mut learn, &mut values, 9, button, 127);
    assert_eq!(learn, None);
}

#[test]
fn band_steps_stay_within_the_plan() {
    let ham = region1();
    for b in ham.iter() {
        for up in [true, false] {
            let next = step_band(&ham, *b, up).unwrap();
            assert!(ham.contains(&next));
        }
    }
    assert_eq!(step_band(&ham, Band::Gen, false), None);
    assert_eq!(step_band(&[], Band::M20, true), None);
}
