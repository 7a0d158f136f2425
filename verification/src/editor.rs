//! The Controls tab's edits: rows added, removed and restored, and the key
//! capture and MIDI LEARN targets that follow them. A rebind has no apply
//! step; each edit is in effect from the next frame.

use vstd::prelude::*;

use crate::input::{
    Action, ButtonMode, KeyBinding, KeyChord, MidiBinding, WheelAction, WheelSettings, all_actions,
    any_binds, binding_is, binds, default_step_bits, shipped_keys, ANY_CHANNEL, BindingTuning, MidiMsg,
    MidiMsgKind, RelativeMode,
};
use crate::input::{Rc28Settings, msg_label};
use crate::runtime::{MidiLearn, MidiStatusView, Rc28StatusView};
use crate::text::{decimal, push_decimal};

verus! {

/// Remove key binding `i`. A key capture waiting on that row is dropped.
pub fn remove_key(keys: &mut Vec<KeyBinding>, i: usize, capture: &mut Option<usize>)
    requires
        i < old(keys)@.len(),
    ensures
        final(keys)@ == old(keys)@.remove(i as int),
        *final(capture) == if *old(capture) == Some(i) {
            None
        } else {
            *old(capture)
        },
{
    keys.remove(i);
    if *capture == Some(i) {
        *capture = None;
    }
}

/// Add an empty shortcut, tuning by one step until it is set, and wait for
/// its key.
pub fn add_key(keys: &mut Vec<KeyBinding>, capture: &mut Option<usize>)
    requires
        old(keys)@.len() < usize::MAX,
    ensures
        final(keys)@.len() == old(keys)@.len() + 1,
        final(keys)@.take(old(keys)@.len() as int) == old(keys)@,
        binding_is(
            final(keys)@.last(),
            Seq::empty(),
            false,
            Action::Tune,
            0x3F800000,
            default_step_bits(Action::Tune),
            ButtonMode::Momentary,
        ),
        *final(capture) == Some(old(keys)@.len() as usize),
{
    keys.push(KeyBinding::default());
    *capture = Some(keys.len() - 1);
    assert(keys@.take(old(keys)@.len() as int) =~= old(keys)@);
}

/// Put the shipped shortcuts back, dropping any key capture.
pub fn restore_keys(keys: &mut Vec<KeyBinding>, capture: &mut Option<usize>)
    ensures
        shipped_keys(final(keys)@),
        *final(capture) is None,
{
    *keys = KeyBinding::defaults();
    *capture = None;
}

/// Whether the one-click hold-to-talk binding is offered: PTT ships
/// unbound, and the offer stands while nothing binds it.
pub fn offers_space_ptt(keys: &Vec<KeyBinding>) -> (b: bool)
    ensures
        b == !binds(keys@, Action::Ptt),
{
    !any_binds(keys, Action::Ptt)
}

/// Bind hold-to-talk to Space: hold it to transmit, let go to unkey.
pub fn bind_space_ptt(keys: &mut Vec<KeyBinding>)
    ensures
        final(keys)@.len() == old(keys)@.len() + 1,
        final(keys)@.take(old(keys)@.len() as int) == old(keys)@,
        binding_is(
            final(keys)@.last(),
            "Space"@,
            false,
            Action::Ptt,
            0x3F800000,
            default_step_bits(Action::Tune),
            ButtonMode::Momentary,
        ),
{
    let d = KeyBinding::default();
    keys.push(
        KeyBinding {
            chord: KeyChord::plain("Space"),
            action: Action::Ptt,
            button: ButtonMode::Momentary,
            ..d
        },
    );
    assert(keys@.take(old(keys)@.len() as int) =~= old(keys)@);
}

/// Whether the wheel settings leave no way to zoom: both the plain and the
/// shifted wheel tune. The tab warns of it.
pub fn wheel_cannot_zoom(w: &WheelSettings) -> (b: bool)
    ensures
        b == (w.wheel == WheelAction::Tune && w.wheel_shift == WheelAction::Tune),
{
    w.wheel == WheelAction::Tune && w.wheel_shift == WheelAction::Tune
}

/// Remove MIDI binding `i`. LEARN waiting on that row stops.
pub fn remove_midi(bindings: &mut Vec<MidiBinding>, i: usize, learn: &mut Option<MidiLearn>)
    requires
        i < old(bindings)@.len(),
    ensures
        final(bindings)@ == old(bindings)@.remove(i as int),
        *final(learn) == if *old(learn) == Some(MidiLearn { row: i }) {
            None
        } else {
            *old(learn)
        },
{
    bindings.remove(i);
    if let Some(l) = *learn {
        if l.row == i {
            *learn = None;
        }
    }
}

/// Add a MIDI binding and start LEARN on it: the next control moved is
/// captured into it.
pub fn add_midi(bindings: &mut Vec<MidiBinding>, learn: &mut Option<MidiLearn>)
    requires
        old(bindings)@.len() < usize::MAX,
    ensures
        final(bindings)@ == old(bindings)@.push(
            MidiBinding {
                msg: MidiMsg { kind: MidiMsgKind::Cc, channel: ANY_CHANNEL, data1: 0 },
                action: Action::Tune,
                relative: RelativeMode::Absolute,
                tuning: BindingTuning { step: default_step_bits(Action::Tune), accel: 0, invert: false },
                button_mode: ButtonMode::Momentary,
                feedback: false,
                enabled: true,
            },
        ),
        *final(learn) == Some(MidiLearn { row: old(bindings)@.len() as usize }),
{
    bindings.push(MidiBinding::default());
    *learn = Some(MidiLearn { row: bindings.len() - 1 });
}

/// Remove every MIDI binding, and stop LEARN.
pub fn clear_midi(bindings: &mut Vec<MidiBinding>, learn: &mut Option<MidiLearn>)
    ensures
        final(bindings)@ == Seq::<MidiBinding>::empty(),
        *final(learn) is None,
{
    bindings.clear();
    *learn = None;
}

/// What the action menu offers, in order: every action of the bindings
/// vocabulary, then a recall of each stored memory channel, by id.
pub open spec fn action_menu(memories: Seq<u32>) -> Seq<Action> {
    all_actions() + memories.map_values(|id: u32| Action::MemoryRecall(id))
}

/// The action menu (see [`action_menu`]).
pub fn action_choices(memories: &[u32]) -> (v: Vec<Action>)
    ensures
        v@ == action_menu(memories@),
{
    let mut v = Action::all();
    let ghost base = v@;
    let mut i: usize = 0;
    while i < memories.len()
        invariant
            base == all_actions(),
            i <= memories@.len(),
            v@ == base + memories@.take(i as int).map_values(|id: u32| Action::MemoryRecall(id)),
        decreases memories@.len() - i,
    {
        v.push(Action::MemoryRecall(memories[i]));
        i = i + 1;
        assert(v@ =~= base + memories@.take(i as int).map_values(
            |id: u32| Action::MemoryRecall(id),
        ));
    }
    assert(memories@.take(memories@.len() as int) =~= memories@);
    v
}

/// A click on a MIDI binding's control: LEARN that row, or stop if it was
/// the row being learned.
pub fn toggle_learn(learn: &mut Option<MidiLearn>, row: usize)
    ensures
        *final(learn) == if *old(learn) == Some(MidiLearn { row }) {
            None
        } else {
            Some(MidiLearn { row })
        },
{
    let learning = match *learn {
        Some(l) => l.row == row,
        None => false,
    };
    *learn = if learning {
        None
    } else {
        Some(MidiLearn { row })
    };
}

/// A new action chosen for a key binding: its step becomes the action's
/// default.
pub fn set_key_action(b: &mut KeyBinding, action: Action)
    ensures
        *final(b) == (KeyBinding {
            action,
            tuning: BindingTuning { step: default_step_bits(action), ..old(b).tuning },
            ..*old(b)
        }),
{
    b.action = action;
    b.tuning.step = action.default_step();
}

/// A new action chosen for a MIDI binding: its step becomes the action's
/// default.
pub fn set_midi_action(b: &mut MidiBinding, action: Action)
    ensures
        *final(b) == (MidiBinding {
            action,
            tuning: BindingTuning { step: default_step_bits(action), ..old(b).tuning },
            ..*old(b)
        }),
{
    b.action = action;
    b.tuning.step = action.default_step();
}

/// A new action chosen for the RC-28's knob: its step becomes the action's
/// default.
pub fn set_knob_action(rc: &mut Rc28Settings, action: Action)
    ensures
        *final(rc) == (Rc28Settings {
            knob: action,
            knob_tuning: BindingTuning { step: default_step_bits(action), ..old(rc).knob_tuning },
            ..*old(rc)
        }),
{
    rc.knob = action;
    rc.knob_tuning.step = action.default_step();
}

/// The RC-28's connection line: its name and firmware while connected, else
/// the last error, else what the operator has to do.
pub open spec fn rc28_status_text(view: Rc28StatusView) -> Seq<char> {
    let s = view.status;
    if s.connected {
        "● "@ + s.name@ + (if s.firmware@.len() == 0 {
            Seq::empty()
        } else {
            ", firmware "@ + s.firmware@
        })
    } else if s.error is Some {
        s.error->0@
    } else if view.choose {
        "Not connected — choose the device once."@
    } else {
        "Not connected — plug it in."@
    }
}

/// The RC-28's connection line (see [`rc28_status_text`]).
pub fn rc28_status_line(view: &Rc28StatusView) -> (line: String)
    ensures
        line@ == rc28_status_text(*view),
{
    let s = &view.status;
    if s.connected {
        let mut line = String::from_str("● ");
        line.append(s.name.as_str());
        if s.firmware.as_str().unicode_len() > 0 {
            line.append(", firmware ");
            line.append(s.firmware.as_str());
        }
        proof {
            if s.firmware@.len() == 0 {
                assert(line@ =~= rc28_status_text(*view));
            } else {
                assert(line@ =~= rc28_status_text(*view));
            }
        }
        line
    } else {
        match &s.error {
            Some(e) => e.clone(),
            None => if view.choose {
                String::from_str("Not connected — choose the device once.")
            } else {
                String::from_str("Not connected — plug it in.")
            },
        }
    }
}

/// The MIDI connection line: the port while connected, else the last
/// error, else that nothing is connected.
pub open spec fn midi_status_text(view: MidiStatusView) -> Seq<char> {
    if view.connected {
        "● "@ + view.port@
    } else if view.error is Some {
        view.error->0@
    } else {
        "Not connected."@
    }
}

/// The MIDI connection line (see [`midi_status_text`]).
pub fn midi_status_line(view: &MidiStatusView) -> (line: String)
    ensures
        line@ == midi_status_text(*view),
{
    if view.connected {
        let mut line = String::from_str("● ");
        line.append(view.port.as_str());
        line
    } else {
        match &view.error {
            Some(e) => e.clone(),
            None => String::from_str("Not connected."),
        }
    }
}

/// The readout of the last MIDI message, which names the control that just
/// moved: what makes an unlabelled surface bindable at all.
pub open spec fn last_midi_text(last: Option<(MidiMsg, u8)>) -> Seq<char> {
    match last {
        Some((msg, v)) => "Last message: "@ + msg_label(msg) + "  value "@ + decimal(v as nat),
        None => "Move a control to see it here."@,
    }
}

/// The readout of the last MIDI message (see [`last_midi_text`]).
pub fn last_midi_line(last: Option<(MidiMsg, u8)>) -> (line: String)
    ensures
        line@ == last_midi_text(last),
{
    match last {
        Some((msg, v)) => {
            let mut line = String::from_str("Last message: ");
            line.append(msg.label().as_str());
            line.append("  value ");
            push_decimal(&mut line, v as u32);
            line
        },
        None => String::from_str("Move a control to see it here."),
    }
}

/// What a MIDI binding's control chip reads: a prompt while LEARN waits on
/// it, else the control it is bound to.
pub fn midi_chip_label(b: &MidiBinding, learning: bool) -> (label: String)
    ensures
        label@ == if learning {
            "move it…"@
        } else {
            msg_label(b.msg)
        },
{
    if learning {
        String::from_str("move it…")
    } else {
        b.msg.label()
    }
}

} // verus!
