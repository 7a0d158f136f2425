//! What a frame of keyboard, mouse, MIDI and RC-28 button input asks of the
//! runtime once each transport has been read: which bindings fire, what a
//! press or a release applies, and which holds must be let go.
//!
//! The window reports what it saw as plain values ([`Modifiers`],
//! [`KeyProbe`], [`ButtonProbe`], [`HoldProbe`]); everything decided from
//! them is here.

use vstd::prelude::*;

use crate::input::{
    Action, ActionKind, ButtonMode, InputSettings, KeyBinding, KeyChord, MidiBinding,
    MouseButtonBinding, Rc28Button, Rc28Settings, action_kind,
};
use crate::proto::{Detents, Key, key_bit};
use crate::rc28::Rc28Event;
use crate::runtime::{
    Held, HeldClass, HeldSet, HeldSource, Rc28Step, after_press, class_actions, class_kept,
    hidden_steps, is_held, rc28_hidden_frame, release_spec,
};
use crate::text::same_text;

verus! {

// ── Chords ──────────────────────────────────────────────────────────────────

/// The modifier keys held, as the window reports them. `command` is Ctrl, or
/// ⌘ on macOS; `mac_cmd` is ⌘ itself.
#[derive(Debug, Clone, Copy, PartialEq, Eq, Structural)]
pub struct Modifiers {
    pub alt: bool,
    pub ctrl: bool,
    pub shift: bool,
    pub mac_cmd: bool,
    pub command: bool,
}

/// Whether chord `c`'s modifiers are exactly what is held. `c.ctrl` means
/// the command modifier, so one saved binding behaves alike everywhere; a
/// Ctrl that is not the command modifier (macOS Ctrl) is a modifier no chord
/// names.
pub open spec fn chord_matches_spec(m: Modifiers, c: KeyChord) -> bool {
    &&& m.alt == c.alt
    &&& m.shift == c.shift
    &&& m.command == c.ctrl
    &&& m.ctrl == (c.ctrl && !m.mac_cmd)
}

/// Whether chord `c`'s modifier set matches what is held.
pub fn chord_matches(m: Modifiers, c: &KeyChord) -> (b: bool)
    ensures
        b == chord_matches_spec(m, *c),
{
    m.alt == c.alt && m.shift == c.shift && m.command == c.ctrl && m.ctrl == (c.ctrl
        && !m.mac_cmd)
}

/// A Ctrl that is not the command modifier, as macOS Ctrl is, matches no
/// chord: it is not passed off as an unmodified press.
pub proof fn law_a_stray_ctrl_matches_no_chord(m: Modifiers, c: KeyChord)
    requires
        m.ctrl,
        !m.command,
    ensures
        !chord_matches_spec(m, c),
{
}

/// Rebind row `row` of the key bindings to the key `key` (the window's name
/// for it) pressed with modifiers `m`: the row keeps its action and tuning
/// and takes the new chord. Escape, or a row that is gone, changes nothing.
pub fn capture_chord(cfg: &mut InputSettings, row: usize, key: &str, m: Modifiers)
    ensures
        final(cfg).keys@.len() == old(cfg).keys@.len(),
        forall|i: int|
            0 <= i < old(cfg).keys@.len() && i != row ==> #[trigger] final(cfg).keys@[i]
                == old(cfg).keys@[i],
        (key@ != "Escape"@ && row < old(cfg).keys@.len()) ==> ({
            let b = final(cfg).keys@[row as int];
            let was = old(cfg).keys@[row as int];
            &&& b.chord.key@ == key@
            &&& b.chord.ctrl == m.command
            &&& b.chord.shift == m.shift
            &&& b.chord.alt == m.alt
            &&& b.action == was.action
            &&& b.value == was.value
            &&& b.tuning == was.tuning
            &&& b.button == was.button
            &&& b.enabled == was.enabled
        }),
        !(key@ != "Escape"@ && row < old(cfg).keys@.len()) ==> final(cfg).keys@ == old(
            cfg,
        ).keys@,
        final(cfg).wheel == old(cfg).wheel,
        final(cfg).mouse_buttons@ == old(cfg).mouse_buttons@,
        final(cfg).ptt_hold_timeout_s == old(cfg).ptt_hold_timeout_s,
        final(cfg).midi == old(cfg).midi,
        final(cfg).rc28 == old(cfg).rc28,
        final(cfg).schema == old(cfg).schema,
{
    let escape = "Escape";
    proof {
        reveal_strlit("Escape");
    }
    if same_text(key, escape) || row >= cfg.keys.len() {
        return;
    }
    let was = &cfg.keys[row];
    let b = KeyBinding {
        chord: KeyChord { key: key.to_owned(), ctrl: m.command, shift: m.shift, alt: m.alt },
        action: was.action,
        value: was.value,
        tuning: was.tuning,
        button: was.button,
        enabled: was.enabled,
    };
    cfg.keys.set(row, b);
}

// ── Bindings behind a source ────────────────────────────────────────────────

/// The binding of RC-28 button `key`.
pub open spec fn rc28_button_spec(cfg: Rc28Settings, key: Key) -> Rc28Button {
    match key {
        Key::Transmit => cfg.transmit,
        Key::F1 => cfg.f1,
        Key::F2 => cfg.f2,
    }
}

/// The binding of RC-28 button `key`.
pub fn rc28_button(cfg: &Rc28Settings, key: Key) -> (b: Rc28Button)
    ensures
        b == rc28_button_spec(*cfg, key),
{
    match key {
        Key::Transmit => cfg.transmit,
        Key::F1 => cfg.f1,
        Key::F2 => cfg.f2,
    }
}

/// The action and button mode behind `src`, if its binding is still there
/// (a row can be deleted mid-press) and, for the RC-28, enabled.
pub open spec fn binding_button_spec(cfg: InputSettings, src: HeldSource) -> Option<
    (Action, ButtonMode),
> {
    match src {
        HeldSource::Key(ix) => if ix < cfg.keys@.len() {
            Some((cfg.keys@[ix as int].action, cfg.keys@[ix as int].button))
        } else {
            None
        },
        HeldSource::Mouse(ix) => if ix < cfg.mouse_buttons@.len() {
            Some((cfg.mouse_buttons@[ix as int].action, cfg.mouse_buttons@[ix as int].button_mode))
        } else {
            None
        },
        HeldSource::Midi(ix) => if ix < cfg.midi.bindings@.len() {
            Some((cfg.midi.bindings@[ix as int].action, cfg.midi.bindings@[ix as int].button_mode))
        } else {
            None
        },
        HeldSource::Rc28(key) => {
            let b = rc28_button_spec(cfg.rc28, key);
            if b.enabled {
                Some((b.action, b.button_mode))
            } else {
                None
            }
        },
    }
}

/// The action and button mode behind `src` (see [`binding_button_spec`]).
pub fn binding_button(cfg: &InputSettings, src: HeldSource) -> (r: Option<(Action, ButtonMode)>)
    ensures
        r == binding_button_spec(*cfg, src),
{
    match src {
        HeldSource::Key(ix) => if ix < cfg.keys.len() {
            Some((cfg.keys[ix].action, cfg.keys[ix].button))
        } else {
            None
        },
        HeldSource::Mouse(ix) => if ix < cfg.mouse_buttons.len() {
            Some((cfg.mouse_buttons[ix].action, cfg.mouse_buttons[ix].button_mode))
        } else {
            None
        },
        HeldSource::Midi(ix) => if ix < cfg.midi.bindings.len() {
            Some((cfg.midi.bindings[ix].action, cfg.midi.bindings[ix].button_mode))
        } else {
            None
        },
        HeldSource::Rc28(key) => {
            let b = rc28_button(&cfg.rc28, key);
            if b.enabled {
                Some((b.action, b.button_mode))
            } else {
                None
            }
        },
    }
}

/// The chords bound to the CW straight key, in binding order: those of the
/// enabled bindings of [`Action::CwStraight`] that name a key.
pub open spec fn cw_chords(keys: Seq<KeyBinding>) -> Seq<KeyChord>
    decreases keys.len(),
{
    if keys.len() == 0 {
        Seq::empty()
    } else {
        let b = keys.last();
        let prev = cw_chords(keys.drop_last());
        if b.enabled && b.action == Action::CwStraight && b.chord.key@.len() > 0 {
            prev.push(b.chord)
        } else {
            prev
        }
    }
}

/// The chords the CW panel keys by (see [`cw_chords`]).
pub fn cw_straight_chords(cfg: &InputSettings) -> (out: Vec<KeyChord>)
    ensures
        out@ == cw_chords(cfg.keys@),
{
    let mut out: Vec<KeyChord> = Vec::new();
    let mut i: usize = 0;
    while i < cfg.keys.len()
        invariant
            i <= cfg.keys@.len(),
            out@ == cw_chords(cfg.keys@.take(i as int)),
        decreases cfg.keys@.len() - i,
    {
        let b = &cfg.keys[i];
        assert(cfg.keys@.take(i + 1).drop_last() =~= cfg.keys@.take(i as int));
        assert(cfg.keys@.take(i + 1).last() == cfg.keys@[i as int]);
        if b.enabled && b.action == Action::CwStraight && !b.chord.is_empty() {
            out.push(b.chord.copy());
        }
        i = i + 1;
    }
    assert(cfg.keys@.take(cfg.keys@.len() as int) =~= cfg.keys@);
    out
}

// ── What fires ──────────────────────────────────────────────────────────────

/// What the window saw of a bound key this frame: whether it knows the key
/// by the chord's name, how many presses arrived (auto-repeat included), and
/// whether it went down or came up.
#[derive(Debug, Clone, Copy, PartialEq, Eq, Structural)]
pub struct KeyProbe {
    pub known: bool,
    pub presses: u32,
    pub pressed: bool,
    pub released: bool,
}

/// What the window saw of a bound mouse button this frame.
#[derive(Debug, Clone, Copy, PartialEq, Eq, Structural)]
pub struct ButtonProbe {
    pub pressed: bool,
    pub released: bool,
}

/// A binding that fired.
#[derive(Debug, Clone, Copy, PartialEq, Eq, Structural)]
pub enum Fire {
    /// Key binding `ix`, of a continuous action, was pressed this many times.
    Value { ix: usize, presses: u32 },
    /// The button bound at `src` went down or came up.
    Button { src: HeldSource, down: bool },
}

/// What key binding `b`, at `ix`, fires with modifiers `m` held: nothing if
/// it is disabled, names no key, wants other modifiers or names a key the
/// window does not know. A continuous action fires once with the number of
/// presses, if any; a button fires on the press, and a momentary one also on
/// the release.
pub open spec fn key_fires(b: KeyBinding, ix: usize, m: Modifiers, p: KeyProbe) -> Seq<Fire> {
    if !b.enabled || b.chord.key@.len() == 0 || !chord_matches_spec(m, b.chord) || !p.known {
        Seq::empty()
    } else {
        match action_kind(b.action) {
            ActionKind::Continuous => if p.presses > 0 {
                seq![Fire::Value { ix, presses: p.presses }]
            } else {
                Seq::empty()
            },
            ActionKind::Momentary => (if p.pressed {
                seq![Fire::Button { src: HeldSource::Key(ix), down: true }]
            } else {
                Seq::empty()
            }) + (if b.button == ButtonMode::Momentary && p.released {
                seq![Fire::Button { src: HeldSource::Key(ix), down: false }]
            } else {
                Seq::empty()
            }),
        }
    }
}

/// What mouse binding `b`, at `ix`, fires: nothing if it is disabled; else
/// the press, and for a momentary one the release.
pub open spec fn mouse_fires(b: MouseButtonBinding, ix: usize, p: ButtonProbe) -> Seq<Fire> {
    if !b.enabled {
        Seq::empty()
    } else {
        (if p.pressed {
            seq![Fire::Button { src: HeldSource::Mouse(ix), down: true }]
        } else {
            Seq::empty()
        }) + (if b.button_mode == ButtonMode::Momentary && p.released {
            seq![Fire::Button { src: HeldSource::Mouse(ix), down: false }]
        } else {
            Seq::empty()
        })
    }
}

/// What the key bindings fire, in binding order; `probes[i]` is what the
/// window saw of binding `i`'s key.
pub open spec fn keys_fired(keys: Seq<KeyBinding>, m: Modifiers, probes: Seq<KeyProbe>) -> Seq<Fire>
    decreases keys.len(),
{
    if keys.len() == 0 {
        Seq::empty()
    } else {
        let ix = keys.len() - 1;
        keys_fired(keys.drop_last(), m, probes) + key_fires(keys.last(), ix as usize, m, probes[ix])
    }
}

/// What the mouse bindings fire, in binding order.
pub open spec fn mouse_fired(buttons: Seq<MouseButtonBinding>, probes: Seq<ButtonProbe>) -> Seq<
    Fire,
>
    decreases buttons.len(),
{
    if buttons.len() == 0 {
        Seq::empty()
    } else {
        let ix = buttons.len() - 1;
        mouse_fired(buttons.drop_last(), probes) + mouse_fires(buttons.last(), ix as usize, probes[ix])
    }
}

fn push_key_fires(out: &mut Vec<Fire>, b: &KeyBinding, ix: usize, m: Modifiers, p: KeyProbe)
    ensures
        final(out)@ == old(out)@ + key_fires(*b, ix, m, p),
{
    if !b.enabled || b.chord.is_empty() || !chord_matches(m, &b.chord) || !p.known {
        assert(old(out)@ + Seq::<Fire>::empty() =~= old(out)@);
        return;
    }
    let ghost before = out@;
    match b.action.kind() {
        ActionKind::Continuous => {
            if p.presses > 0 {
                out.push(Fire::Value { ix, presses: p.presses });
            }
        },
        ActionKind::Momentary => {
            if p.pressed {
                out.push(Fire::Button { src: HeldSource::Key(ix), down: true });
            }
            if b.button == ButtonMode::Momentary && p.released {
                out.push(Fire::Button { src: HeldSource::Key(ix), down: false });
            }
        },
    }
    assert(out@ =~= before + key_fires(*b, ix, m, p));
}

fn push_mouse_fires(out: &mut Vec<Fire>, b: MouseButtonBinding, ix: usize, p: ButtonProbe)
    ensures
        final(out)@ == old(out)@ + mouse_fires(b, ix, p),
{
    let ghost before = out@;
    if b.enabled {
        if p.pressed {
            out.push(Fire::Button { src: HeldSource::Mouse(ix), down: true });
        }
        if b.button_mode == ButtonMode::Momentary && p.released {
            out.push(Fire::Button { src: HeldSource::Mouse(ix), down: false });
        }
    }
    assert(out@ =~= before + mouse_fires(b, ix, p));
}

/// The key bindings that fire, in binding order, then the mouse bindings;
/// `keys[i]` and `mouse[i]` are what the window saw of binding `i`.
pub fn fired(
    cfg: &InputSettings,
    m: Modifiers,
    keys: &Vec<KeyProbe>,
    mouse: &Vec<ButtonProbe>,
) -> (out: Vec<Fire>)
    requires
        keys@.len() == cfg.keys@.len(),
        mouse@.len() == cfg.mouse_buttons@.len(),
    ensures
        out@ == keys_fired(cfg.keys@, m, keys@) + mouse_fired(cfg.mouse_buttons@, mouse@),
{
    let mut out: Vec<Fire> = Vec::new();
    let mut i: usize = 0;
    while i < cfg.keys.len()
        invariant
            keys@.len() == cfg.keys@.len(),
            i <= cfg.keys@.len(),
            out@ == keys_fired(cfg.keys@.take(i as int), m, keys@),
        decreases cfg.keys@.len() - i,
    {
        assert(cfg.keys@.take(i + 1).drop_last() =~= cfg.keys@.take(i as int));
        assert(cfg.keys@.take(i + 1).last() == cfg.keys@[i as int]);
        push_key_fires(&mut out, &cfg.keys[i], i, m, keys[i]);
        i = i + 1;
    }
    assert(cfg.keys@.take(cfg.keys@.len() as int) =~= cfg.keys@);
    let ghost from_keys = out@;
    let mut j: usize = 0;
    assert(from_keys + mouse_fired(cfg.mouse_buttons@.take(0), mouse@) =~= from_keys);
    while j < cfg.mouse_buttons.len()
        invariant
            mouse@.len() == cfg.mouse_buttons@.len(),
            j <= cfg.mouse_buttons@.len(),
            out@ == from_keys + mouse_fired(cfg.mouse_buttons@.take(j as int), mouse@),
        decreases cfg.mouse_buttons@.len() - j,
    {
        assert(cfg.mouse_buttons@.take(j + 1).drop_last() =~= cfg.mouse_buttons@.take(j as int));
        assert(cfg.mouse_buttons@.take(j + 1).last() == cfg.mouse_buttons@[j as int]);
        push_mouse_fires(&mut out, cfg.mouse_buttons[j], j, mouse[j]);
        assert(out@ =~= from_keys + mouse_fired(cfg.mouse_buttons@.take(j + 1), mouse@));
        j = j + 1;
    }
    assert(cfg.mouse_buttons@.take(cfg.mouse_buttons@.len() as int) =~= cfg.mouse_buttons@);
    out
}

// ── Letting go ──────────────────────────────────────────────────────────────

/// What the window can tell of a held control this frame: whether it has
/// been held past the timeout, and whether its key or mouse button is still
/// down (false where its binding or key is gone).
#[derive(Debug, Clone, Copy, PartialEq, Eq, Structural)]
pub struct HoldProbe {
    pub timed_out: bool,
    pub down: bool,
}

/// Whether a control held from `src` must be let go: when the window lost
/// focus or a text field has the keyboard (except for the RC-28, whose
/// release comes as a report and whose PTT has to stay keyed while the
/// operator types), when the hold timeout ran out, or when its key or mouse
/// button came up. MIDI and RC-28 releases come as messages; only the global
/// conditions end them here. Modifiers are not looked at: releasing Shift
/// before Space must not strand the transmitter.
pub open spec fn must_release(src: HeldSource, focused: bool, typing: bool, p: HoldProbe) -> bool {
    ||| !(src is Rc28) && (!focused || typing)
    ||| p.timed_out
    ||| (src is Key || src is Mouse) && !p.down
}

/// The sources among `held` that must be let go, in the order they were
/// pressed; `probes[i]` is what the window saw of `held[i]`.
pub open spec fn stale_sources<T>(
    held: Seq<Held<T>>,
    probes: Seq<HoldProbe>,
    focused: bool,
    typing: bool,
) -> Seq<HeldSource>
    decreases held.len(),
{
    if held.len() == 0 || probes.len() == 0 {
        Seq::empty()
    } else {
        let prev = stale_sources(held.drop_last(), probes.drop_last(), focused, typing);
        if must_release(held.last().src, focused, typing, probes.last()) {
            prev.push(held.last().src)
        } else {
            prev
        }
    }
}

/// The holds to let go this frame (see [`must_release`]).
pub fn stale_holds<T: Copy>(
    held: &HeldSet<T>,
    probes: &Vec<HoldProbe>,
    focused: bool,
    typing: bool,
) -> (out: Vec<HeldSource>)
    requires
        probes@.len() == held@.len(),
    ensures
        out@ == stale_sources(held@, probes@, focused, typing),
{
    let items = held.items();
    let mut out: Vec<HeldSource> = Vec::new();
    let mut i: usize = 0;
    while i < items.len()
        invariant
            items@ == held@,
            probes@.len() == held@.len(),
            i <= items@.len(),
            out@ == stale_sources(
                items@.take(i as int),
                probes@.take(i as int),
                focused,
                typing,
            ),
        decreases items@.len() - i,
    {
        assert(items@.take(i + 1).drop_last() =~= items@.take(i as int));
        assert(probes@.take(i + 1).drop_last() =~= probes@.take(i as int));
        assert(items@.take(i + 1).last() == items@[i as int]);
        assert(probes@.take(i + 1).last() == probes@[i as int]);
        let h = items[i];
        let p = probes[i];
        let reported = matches!(h.src, HeldSource::Rc28(_));
        let polled = matches!(h.src, HeldSource::Key(_)) || matches!(h.src, HeldSource::Mouse(_));
        if (!reported && (!focused || typing)) || p.timed_out || (polled && !p.down) {
            out.push(h.src);
        }
        i = i + 1;
    }
    assert(items@.take(items@.len() as int) =~= items@);
    assert(probes@.take(probes@.len() as int) =~= probes@);
    out
}

/// Losing focus, or a text field taking the keyboard, lets go of every key
/// and mouse button held, and of what MIDI held.
pub proof fn law_losing_the_keyboard_lets_go_of_keys(
    src: HeldSource,
    focused: bool,
    typing: bool,
    p: HoldProbe,
)
    requires
        !focused || typing,
        !(src is Rc28),
    ensures
        must_release(src, focused, typing, p),
{
}

/// An RC-28 hold outlives focus and typing: only its timeout ends it here.
pub proof fn law_the_rc28_keeps_its_hold_while_typing(
    key: Key,
    focused: bool,
    typing: bool,
    p: HoldProbe,
)
    ensures
        must_release(HeldSource::Rc28(key), focused, typing, p) == p.timed_out,
{
}

/// A hold past its timeout is let go, whatever it came from.
pub proof fn law_a_timed_out_hold_is_let_go(
    src: HeldSource,
    focused: bool,
    typing: bool,
    p: HoldProbe,
)
    requires
        p.timed_out,
    ensures
        must_release(src, focused, typing, p),
{
}

// ── Presses and releases ────────────────────────────────────────────────────

/// What to apply for a button: its action, pressed or released, and how the
/// button acts.
#[derive(Debug, Clone, Copy, PartialEq, Eq, Structural)]
pub struct Apply {
    pub action: Action,
    pub press: bool,
    pub mode: ButtonMode,
}

/// `after` is `before` with the hold of `src` removed.
pub open spec fn released_from<T>(before: Seq<Held<T>>, after: Seq<Held<T>>, src: HeldSource) -> bool {
    exists|i: int| 0 <= i < before.len() && before[i].src == src && after == before.remove(i)
}

/// A key or mouse button bound at `src` went down or up. A press of a
/// binding that is still there is applied with the binding's mode, and a
/// momentary one is held; a release is applied only if the source was held,
/// and lets it go.
pub fn pointer_button<T: Copy>(
    held: &mut HeldSet<T>,
    cfg: &InputSettings,
    src: HeldSource,
    down: bool,
    now: T,
) -> (r: Option<Apply>)
    ensures
        match binding_button_spec(*cfg, src) {
            None => r is None && final(held)@ == old(held)@,
            Some((action, mode)) => if down {
                &&& r == Some(Apply { action, press: true, mode })
                &&& final(held)@ == after_press(old(held)@, src, action, mode, now)
            } else if is_held(old(held)@, src) {
                &&& r == Some(Apply { action, press: false, mode })
                &&& released_from(old(held)@, final(held)@, src)
            } else {
                &&& r is None
                &&& final(held)@ == old(held)@
            },
        },
{
    match binding_button(cfg, src) {
        None => None,
        Some((action, mode)) => {
            if down {
                held.press(src, action, mode, now);
                Some(Apply { action, press: true, mode })
            } else {
                match held.release(src) {
                    Some(_) => Some(Apply { action, press: false, mode }),
                    None => None,
                }
            }
        },
    }
}

/// MIDI binding `ix` saw a button go down or up. A press is applied with
/// the binding's mode, and a momentary one is held. A release lets the hold
/// go and is applied; one that was not held is applied only to a toggle
/// binding.
pub fn midi_button<T: Copy>(
    held: &mut HeldSet<T>,
    bindings: &Vec<MidiBinding>,
    ix: usize,
    down: bool,
    now: T,
) -> (r: Option<Apply>)
    ensures
        ix >= bindings@.len() ==> r is None && final(held)@ == old(held)@,
        ix < bindings@.len() ==> ({
            let b = bindings@[ix as int];
            let src = HeldSource::Midi(ix);
            if down {
                &&& r == Some(Apply { action: b.action, press: true, mode: b.button_mode })
                &&& final(held)@ == after_press(old(held)@, src, b.action, b.button_mode, now)
            } else if is_held(old(held)@, src) {
                &&& r == Some(Apply { action: b.action, press: false, mode: b.button_mode })
                &&& released_from(old(held)@, final(held)@, src)
            } else {
                &&& final(held)@ == old(held)@
                &&& r == if b.button_mode == ButtonMode::Momentary {
                    None
                } else {
                    Some(Apply { action: b.action, press: false, mode: b.button_mode })
                }
            }
        }),
{
    if ix >= bindings.len() {
        return None;
    }
    let b = bindings[ix];
    let src = HeldSource::Midi(ix);
    if down {
        held.press(src, b.action, b.button_mode, now);
    } else if held.release(src).is_none() && b.button_mode == ButtonMode::Momentary {
        return None;
    }
    Some(Apply { action: b.action, press: down, mode: b.button_mode })
}

/// RC-28 button `key` went down or up. A press of an enabled button bound
/// to a momentary-kind action is applied with the button's mode, and held
/// if that mode is momentary; anything else pressed does nothing. A release
/// lets go of what was pressed, whatever the binding says now, so that an
/// edit mid-press still unkeys what was keyed.
pub fn rc28_key<T: Copy>(
    held: &mut HeldSet<T>,
    cfg: &InputSettings,
    key: Key,
    down: bool,
    now: T,
) -> (r: Option<Apply>)
    ensures
        ({
            let src = HeldSource::Rc28(key);
            if down {
                match binding_button_spec(*cfg, src) {
                    Some((action, mode)) => if action_kind(action) == ActionKind::Momentary {
                        &&& r == Some(Apply { action, press: true, mode })
                        &&& final(held)@ == after_press(old(held)@, src, action, mode, now)
                    } else {
                        &&& r is None
                        &&& final(held)@ == old(held)@
                    },
                    None => r is None && final(held)@ == old(held)@,
                }
            } else if is_held(old(held)@, src) {
                exists|i: int|
                    0 <= i < old(held)@.len() && old(held)@[i].src == src && final(held)@ == old(
                        held,
                    )@.remove(i) && r == Some(
                        Apply { action: old(held)@[i].action, press: false, mode: ButtonMode::Momentary },
                    )
            } else {
                &&& r is None
                &&& final(held)@ == old(held)@
            }
        }),
{
    let src = HeldSource::Rc28(key);
    if down {
        match binding_button(cfg, src) {
            Some((action, mode)) => {
                if action.kind() != ActionKind::Momentary {
                    return None;
                }
                held.press(src, action, mode, now);
                Some(Apply { action, press: true, mode })
            },
            None => None,
        }
    } else {
        match held.release(src) {
            Some(action) => Some(Apply { action, press: false, mode: ButtonMode::Momentary }),
            None => None,
        }
    }
}

// ── While the window is hidden ──────────────────────────────────────────────

/// The releases to apply for `actions`, in order: each let go as a momentary
/// button.
pub open spec fn releases(actions: Seq<Action>) -> Seq<Apply> {
    actions.map_values(|a: Action| Apply { action: a, press: false, mode: ButtonMode::Momentary })
}

/// Where the RC-28 steps of a hidden frame leave `held`, and the releases
/// they apply: a button's release lets go of what it held, and a disconnect
/// of everything the RC-28 held.
pub open spec fn hidden_applied<T>(held: Seq<Held<T>>, steps: Seq<Rc28Step>) -> (
    Seq<Held<T>>,
    Seq<Apply>,
)
    decreases steps.len(),
{
    if steps.len() == 0 {
        (held, Seq::empty())
    } else {
        let (h, out) = hidden_applied(held, steps.drop_last());
        match steps.last() {
            Rc28Step::Key { key, down: false } => {
                let (h2, r) = release_spec(h, HeldSource::Rc28(key));
                (
                    h2,
                    match r {
                        Some(a) => out.push(
                            Apply { action: a, press: false, mode: ButtonMode::Momentary },
                        ),
                        None => out,
                    },
                )
            },
            Rc28Step::ReleaseHolds => (
                class_kept(h, HeldClass::Rc28),
                out + releases(class_actions(h, HeldClass::Rc28)),
            ),
            _ => (h, out),
        }
    }
}

/// What a frame does while the window is hidden (minimised, covered, a
/// background tab), where only what lets go of the rig is done. Keys and
/// mouse buttons cannot be read, so their holds go first, as on losing
/// focus; then the RC-28's events are taken as they came (see
/// [`hidden_steps`]): its releases and a disconnect let go, its presses and
/// turns are dropped, since nobody is looking at the radio they would key or
/// retune.
pub open spec fn hidden_spec<T>(held: Seq<Held<T>>, events: Seq<Rc28Event>, carry: int) -> (
    Seq<Held<T>>,
    Seq<Apply>,
    int,
) {
    let first = releases(class_actions(held, HeldClass::NotRc28));
    let kept = class_kept(held, HeldClass::NotRc28);
    let (steps, c) = hidden_steps(events, carry);
    let (h, out) = hidden_applied(kept, steps);
    (h, first + out, c)
}

fn push_releases(out: &mut Vec<Apply>, actions: &Vec<Action>)
    ensures
        final(out)@ == old(out)@ + releases(actions@),
{
    let ghost before = out@;
    let mut i: usize = 0;
    while i < actions.len()
        invariant
            i <= actions@.len(),
            out@ == before + releases(actions@.take(i as int)),
        decreases actions@.len() - i,
    {
        out.push(Apply { action: actions[i], press: false, mode: ButtonMode::Momentary });
        i = i + 1;
        assert(out@ =~= before + releases(actions@.take(i as int)));
    }
    assert(actions@.take(actions@.len() as int) =~= actions@);
}

/// A frame while the window is hidden (see [`hidden_spec`]): the releases
/// to apply, in order. `detents` carries the knob's counts across frames.
pub fn hidden_frame<T: Copy>(held: &mut HeldSet<T>, events: &Vec<Rc28Event>, detents: &mut Detents) -> (out:
    Vec<Apply>)
    ensures
        (final(held)@, out@, final(detents)@ as int) == hidden_spec(
            old(held)@,
            events@,
            old(detents)@ as int,
        ),
{
    let mut out: Vec<Apply> = Vec::new();
    let unread = held.release_class(HeldClass::NotRc28);
    push_releases(&mut out, &unread);
    let ghost first = out@;
    let ghost kept = held@;
    let steps = rc28_hidden_frame(events, detents);
    let mut i: usize = 0;
    assert(first + Seq::<Apply>::empty() =~= first);
    while i < steps.len()
        invariant
            i <= steps@.len(),
            (held@, out@) == ({
                let (h, o) = hidden_applied(kept, steps@.take(i as int));
                (h, first + o)
            }),
        decreases steps@.len() - i,
    {
        assert(steps@.take(i + 1).drop_last() =~= steps@.take(i as int));
        assert(steps@.take(i + 1).last() == steps@[i as int]);
        match steps[i] {
            Rc28Step::Key { key, down: false } => {
                match held.release(HeldSource::Rc28(key)) {
                    Some(a) => {
                        out.push(Apply { action: a, press: false, mode: ButtonMode::Momentary });
                    },
                    None => {},
                }
                assert(out@ =~= first + hidden_applied(kept, steps@.take(i + 1)).1);
            },
            Rc28Step::ReleaseHolds => {
                let gone = held.release_class(HeldClass::Rc28);
                push_releases(&mut out, &gone);
                assert(out@ =~= first + hidden_applied(kept, steps@.take(i + 1)).1);
            },
            _ => {},
        }
        i = i + 1;
    }
    assert(steps@.take(steps@.len() as int) =~= steps@);
    out
}

/// While hidden, nothing is pressed: every action applied is a release.
pub proof fn law_a_hidden_window_only_lets_go<T>(held: Seq<Held<T>>, events: Seq<Rc28Event>, carry: int)
    ensures
        forall|k: int|
            0 <= k < hidden_spec(held, events, carry).1.len() ==> !(
            #[trigger] hidden_spec(held, events, carry).1[k]).press,
{
    let kept = class_kept(held, HeldClass::NotRc28);
    let (steps, c) = hidden_steps(events, carry);
    lemma_hidden_applied_releases(kept, steps);
}

proof fn lemma_hidden_applied_releases<T>(held: Seq<Held<T>>, steps: Seq<Rc28Step>)
    ensures
        forall|k: int|
            0 <= k < hidden_applied(held, steps).1.len() ==> !(#[trigger] hidden_applied(
                held,
                steps,
            ).1[k]).press,
    decreases steps.len(),
{
    if steps.len() > 0 {
        lemma_hidden_applied_releases(held, steps.drop_last());
    }
}

/// While hidden, no key or mouse hold survives the frame: whatever is still
/// held came from the RC-28.
pub proof fn law_a_hidden_window_keeps_only_rc28_holds<T>(
    held: Seq<Held<T>>,
    events: Seq<Rc28Event>,
    carry: int,
)
    ensures
        forall|k: int|
            0 <= k < hidden_spec(held, events, carry).0.len() ==> (#[trigger] hidden_spec(
                held,
                events,
                carry,
            ).0[k]).src is Rc28,
{
    reveal_with_fuel(Seq::filter, 1);
    let kept = class_kept(held, HeldClass::NotRc28);
    assert forall|k: int| 0 <= k < kept.len() implies (#[trigger] kept[k]).src is Rc28 by {
        held.lemma_filter_pred(|h: Held<T>| !crate::runtime::in_class(h.src, HeldClass::NotRc28), k);
    }
    let (steps, c) = hidden_steps(events, carry);
    lemma_hidden_applied_keeps_rc28(kept, steps);
}

proof fn lemma_hidden_applied_keeps_rc28<T>(held: Seq<Held<T>>, steps: Seq<Rc28Step>)
    requires
        forall|k: int| 0 <= k < held.len() ==> (#[trigger] held[k]).src is Rc28,
    ensures
        forall|k: int|
            0 <= k < hidden_applied(held, steps).0.len() ==> (#[trigger] hidden_applied(
                held,
                steps,
            ).0[k]).src is Rc28,
    decreases steps.len(),
{
    if steps.len() > 0 {
        lemma_hidden_applied_keeps_rc28(held, steps.drop_last());
        let (h, o) = hidden_applied(held, steps.drop_last());
        match steps.last() {
            Rc28Step::Key { key, down: false } => {
                if is_held(h, HeldSource::Rc28(key)) {
                    let i = choose|i: int| 0 <= i < h.len() && (#[trigger] h[i]).src == HeldSource::Rc28(key);
                    let h2 = h.remove(i);
                    assert forall|k: int| 0 <= k < h2.len() implies (#[trigger] h2[k]).src is Rc28 by {
                        if k < i {
                            assert(h2[k] == h[k]);
                        } else {
                            assert(h2[k] == h[k + 1]);
                        }
                    }
                }
            },
            Rc28Step::ReleaseHolds => {
                reveal_with_fuel(Seq::filter, 1);
                let h2 = class_kept(h, HeldClass::Rc28);
                assert forall|k: int| 0 <= k < h2.len() implies (#[trigger] h2[k]).src is Rc28 by {
                    crate::runtime::lemma_filter_elem_in(
                        h,
                        |x: Held<T>| !crate::runtime::in_class(x.src, HeldClass::Rc28),
                        k,
                    );
                }
            },
            _ => {},
        }
    }
}

/// While hidden, a disconnect of the RC-28 lets go of everything: after a
/// frame that holds one, nothing at all is held.
pub proof fn law_a_disconnect_while_hidden_lets_go_of_everything<T>(
    held: Seq<Held<T>>,
    events: Seq<Rc28Event>,
    carry: int,
)
    requires
        exists|k: int| 0 <= k < events.len() && #[trigger] events[k] is Disconnected,
    ensures
        hidden_spec(held, events, carry).0.len() == 0,
{
    let kept = class_kept(held, HeldClass::NotRc28);
    assert forall|k: int| 0 <= k < kept.len() implies (#[trigger] kept[k]).src is Rc28 by {
        held.lemma_filter_pred(|h: Held<T>| !crate::runtime::in_class(h.src, HeldClass::NotRc28), k);
    }
    lemma_disconnect_releases_holds(events, carry);
    let (steps, c) = hidden_steps(events, carry);
    lemma_release_holds_empties(kept, steps);
}

proof fn lemma_disconnect_releases_holds(events: Seq<Rc28Event>, carry: int)
    requires
        exists|k: int| 0 <= k < events.len() && #[trigger] events[k] is Disconnected,
    ensures
        hidden_steps(events, carry).0.contains(Rc28Step::ReleaseHolds),
    decreases events.len(),
{
    let steps = hidden_steps(events, carry).0;
    if events[0] is Disconnected {
        assert(steps[0] == Rc28Step::ReleaseHolds);
    } else {
        let k = choose|k: int| 0 <= k < events.len() && #[trigger] events[k] is Disconnected;
        let rest = events.drop_first();
        assert(rest[k - 1] == events[k]);
        let c2 = match events[0] {
            Rc28Event::Connected(_) => 0,
            _ => carry,
        };
        lemma_disconnect_releases_holds(rest, c2);
        let tail = hidden_steps(rest, c2).0;
        let head_len = steps.len() - tail.len();
        let j = choose|j: int| 0 <= j < tail.len() && tail[j] == Rc28Step::ReleaseHolds;
        assert(steps[head_len + j] == tail[j]);
    }
}

proof fn lemma_release_holds_empties<T>(held: Seq<Held<T>>, steps: Seq<Rc28Step>)
    requires
        forall|k: int| 0 <= k < held.len() ==> (#[trigger] held[k]).src is Rc28,
        steps.contains(Rc28Step::ReleaseHolds),
    ensures
        hidden_applied(held, steps).0.len() == 0,
    decreases steps.len(),
{
    let g = steps.drop_last();
    let (h, o) = hidden_applied(held, g);
    lemma_hidden_applied_keeps_rc28(held, g);
    if steps.last() == Rc28Step::ReleaseHolds {
        reveal_with_fuel(Seq::filter, 1);
        let h2 = class_kept(h, HeldClass::Rc28);
        if h2.len() > 0 {
            crate::runtime::lemma_filter_elem_in(
                h,
                |x: Held<T>| !crate::runtime::in_class(x.src, HeldClass::Rc28),
                0,
            );
            h.lemma_filter_pred(|x: Held<T>| !crate::runtime::in_class(x.src, HeldClass::Rc28), 0);
            assert(!(h2[0].src is Rc28));
        }
    } else {
        let k = choose|k: int| 0 <= k < steps.len() && steps[k] == Rc28Step::ReleaseHolds;
        assert(k < steps.len() - 1);
        assert(g[k] == steps[k]);
        lemma_release_holds_empties(held, g);
        match steps.last() {
            Rc28Step::Key { key, down: false } => {
                assert(!is_held(h, HeldSource::Rc28(key)));
            },
            _ => {},
        }
    }
}

/// Whether an RC-28 button's LED is lit: it is enabled, asks for its LED,
/// and its action's indicator is non-zero.
pub open spec fn led_on_spec(b: Rc28Button, indicator: Option<u8>) -> bool {
    b.enabled && b.led && (indicator matches Some(v) && v > 0)
}

/// The LED byte for the RC-28, where `indicators` holds the indicator of
/// each button's action in the order of [`Key::all`].
pub open spec fn rc28_lit(cfg: Rc28Settings, indicators: Seq<Option<u8>>) -> u8 {
    (if led_on_spec(cfg.transmit, indicators[0]) {
        key_bit(Key::Transmit)
    } else {
        0u8
    }) | (if led_on_spec(cfg.f1, indicators[1]) {
        key_bit(Key::F1)
    } else {
        0u8
    }) | (if led_on_spec(cfg.f2, indicators[2]) {
        key_bit(Key::F2)
    } else {
        0u8
    })
}

fn led_on(b: Rc28Button, indicator: Option<u8>) -> (on: bool)
    ensures
        on == led_on_spec(b, indicator),
{
    b.enabled && b.led && match indicator {
        Some(v) => v > 0,
        None => false,
    }
}

/// The LEDs to light (see [`rc28_lit`]).
pub fn rc28_leds(cfg: &Rc28Settings, indicators: [Option<u8>; 3]) -> (lit: u8)
    ensures
        lit == rc28_lit(*cfg, indicators@),
{
    let t: u8 = if led_on(cfg.transmit, indicators[0]) {
        Key::Transmit.bit()
    } else {
        0
    };
    let f1: u8 = if led_on(cfg.f1, indicators[1]) {
        Key::F1.bit()
    } else {
        0
    };
    let f2: u8 = if led_on(cfg.f2, indicators[2]) {
        Key::F2.bit()
    } else {
        0
    };
    t | f1 | f2
}

} // verus!
