use sdroxide_input::input::{Action, ButtonMode, MidiBinding, MidiMsg, MidiMsgKind, RelativeMode};
use sdroxide_input::midi::{MidiControl, MidiEvent, midi_feedback, midi_frame};
use sdroxide_input::runtime::MidiLearn;

fn cc(data1: u8) -> MidiMsg {
    MidiMsg { kind: MidiMsgKind::Cc, channel: 0, data1 }
}

fn note(data1: u8) -> MidiMsg {
    MidiMsg { kind: MidiMsgKind::Note, channel: 0, data1 }
}

fn bind(msg: MidiMsg, action: Action, relative: RelativeMode) -> MidiBinding {
    MidiBinding { msg, action, relative, ..MidiBinding::default() }
}

fn control(msg: MidiMsg, value: u8) -> MidiEvent {
    MidiEvent::Control(MidiControl { msg, value, off: false })
}

#[test]
fn encoder_detents_are_summed_into_one_delta() {
    let mut bindings = vec![bind(cc(16), Action::Tune, RelativeMode::TwosComplement)];
    let mut learn = None;
    let mut values = Vec::new();
    let events = vec![control(cc(16), 1), control(cc(16), 3), control(cc(16), 127)];
    let f = midi_frame(&mut bindings, &mut learn, &mut values, &events);
    assert_eq!(f.deltas, vec![(0, 3)]);
    assert!(f.buttons.is_empty());
    assert!(f.absolutes.is_empty());
    assert_eq!(f.last, Some((cc(16), 127)));
    assert!(!f.disconnected);
}

#[test]
fn two_encoders_keep_the_order_they_first_moved_in() {
    let mut bindings = vec![
        bind(cc(1), Action::Volume, RelativeMode::BinaryOffset),
        bind(cc(2), Action::Tune, RelativeMode::SignMagnitude),
    ];
    let mut learn = None;
    let mut values = Vec::new();
    let events = vec![control(cc(2), 0x42), control(cc(1), 65), control(cc(2), 5)];
    let f = midi_frame(&mut bindings, &mut learn, &mut values, &events);
    assert_eq!(f.deltas, vec![(1, 3), (0, 1)]);
}

#[test]
fn a_fader_keeps_its_last_position() {
    let mut bindings = vec![bind(cc(7), Action::Volume, RelativeMode::Absolute)];
    let mut learn = None;
    let mut values = Vec::new();
    let events = vec![control(cc(7), 10), control(cc(7), 90), control(cc(7), 64)];
    let f = midi_frame(&mut bindings, &mut learn, &mut values, &events);
    assert_eq!(f.absolutes, vec![(0, 64)]);
    assert!(f.deltas.is_empty());
}

#[test]
fn buttons_keep_their_arrival_order() {
    let mut bindings = vec![
        bind(note(60), Action::Ptt, RelativeMode::Absolute),
        bind(cc(20), Action::Mute, RelativeMode::TwosComplement),
    ];
    let mut learn = None;
    let mut values = Vec::new();
    let events = vec![
        control(note(60), 100),
        control(cc(20), 127),
        MidiEvent::Control(MidiControl { msg: note(60), value: 100, off: true }),
        control(note(60), 0),
    ];
    let f = midi_frame(&mut bindings, &mut learn, &mut values, &events);
    // A note-off and a zero velocity both release; a relative encoder on a
    // button fires on any movement.
    assert_eq!(f.buttons, vec![(0, true), (1, true), (0, false), (0, false)]);
}

#[test]
fn disabled_and_other_controls_reach_nothing() {
    let mut off = bind(cc(7), Action::Volume, RelativeMode::Absolute);
    off.enabled = false;
    let mut bindings = vec![off, bind(cc(8), Action::Squelch, RelativeMode::Absolute)];
    let mut learn = None;
    let mut values = Vec::new();
    let events = vec![control(cc(7), 10), control(cc(9), 10)];
    let f = midi_frame(&mut bindings, &mut learn, &mut values, &events);
    assert!(f.absolutes.is_empty());
    assert!(f.buttons.is_empty());
    assert_eq!(f.last, Some((cc(9), 10)));
}

#[test]
fn an_omni_binding_hears_every_channel() {
    let omni = MidiMsg { kind: MidiMsgKind::Cc, channel: MidiMsg::ANY_CHANNEL, data1: 7 };
    let mut bindings = vec![bind(omni, Action::Volume, RelativeMode::Absolute)];
    let mut learn = None;
    let mut values = Vec::new();
    let ch5 = MidiMsg { kind: MidiMsgKind::Cc, channel: 5, data1: 7 };
    let events = vec![control(ch5, 33)];
    let f = midi_frame(&mut bindings, &mut learn, &mut values, &events);
    assert_eq!(f.absolutes, vec![(0, 33)]);
}

#[test]
fn a_vanished_port_is_reported_and_connects_are_ignored() {
    let mut bindings = vec![bind(cc(7), Action::Volume, RelativeMode::Absolute)];
    let mut learn = None;
    let mut values = Vec::new();
    let events = vec![
        MidiEvent::Connected(String::from("Surface")),
        MidiEvent::Disconnected,
    ];
    let f = midi_frame(&mut bindings, &mut learn, &mut values, &events);
    assert!(f.disconnected);
    assert_eq!(f.last, None);
    assert!(f.absolutes.is_empty());
}

#[test]
fn learn_captures_a_button_then_lets_the_rest_through() {
    let mut bindings = vec![bind(cc(1), Action::Ptt, RelativeMode::Absolute)];
    bindings[0].button_mode = ButtonMode::Toggle;
    let mut learn = Some(MidiLearn { row: 0 });
    let mut values = Vec::new();
    let events = vec![control(note(61), 90), control(note(61), 0)];
    let f = midi_frame(&mut bindings, &mut learn, &mut values, &events);
    // The first press is the capture; the release after it reaches the
    // binding that now names the note.
    assert_eq!(bindings[0].msg, note(61));
    assert_eq!(learn, None);
    assert!(values.is_empty());
    assert_eq!(f.buttons, vec![(0, false)]);
}

#[test]
fn learn_of_an_encoder_swallows_six_values_and_guesses_its_encoding() {
    let mut bindings = vec![bind(cc(1), Action::Tune, RelativeMode::Absolute)];
    let mut learn = Some(MidiLearn { row: 0 });
    let mut values = Vec::new();
    let mut events = Vec::new();
    for v in [1u8, 1, 2, 127, 126, 1, 3] {
        events.push(control(cc(30), v));
    }
    let f = midi_frame(&mut bindings, &mut learn, &mut values, &events);
    assert_eq!(bindings[0].msg, cc(30));
    assert_eq!(bindings[0].relative, RelativeMode::TwosComplement);
    assert_eq!(learn, None);
    // Only the seventh value reaches the binding.
    assert_eq!(f.deltas, vec![(0, 3)]);
}

#[test]
fn feedback_goes_to_enabled_bindings_that_ask_for_it() {
    let mut led = bind(note(60), Action::Ptt, RelativeMode::Absolute);
    led.feedback = true;
    let mut fader = bind(cc(7), Action::Volume, RelativeMode::Absolute);
    fader.feedback = true;
    let mut off = bind(cc(8), Action::Mute, RelativeMode::Absolute);
    off.feedback = true;
    off.enabled = false;
    let quiet = bind(cc(9), Action::Split, RelativeMode::Absolute);
    let mut tune = bind(cc(10), Action::Tune, RelativeMode::TwosComplement);
    tune.feedback = true;
    let bindings = vec![led, fader, off, quiet, tune];
    let shown = vec![Some(127), Some(32), Some(127), Some(0), None];
    assert_eq!(midi_feedback(&bindings, &shown), vec![(note(60), 127), (cc(7), 32)]);
}
