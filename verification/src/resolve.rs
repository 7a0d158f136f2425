//! What a button's press or release means for the action it is bound to:
//! the command it sends the radio, and stepping through the modes the
//! station can run.

use vstd::prelude::*;

use crate::input::{Action, ActionKind, ButtonMode, action_kind};
use crate::radio::{Band, Mode, Vfo, all_modes};
use crate::runtime::{first_index, step_band, step_band_spec};

verus! {

/// PTT and TUNE follow a momentary button both ways; every other action
/// fires once, on the press.
pub open spec fn latching(act: Action) -> bool {
    act == Action::Ptt || act == Action::TuneCarrier
}

/// What a button sample asks of `act`: `Some(on)`, or nothing. A momentary
/// button is on while pressed and off when released; a toggle fires on the
/// press and ignores the release. A release asks nothing of an action that
/// does not latch, and a button asks nothing of a continuous action.
pub open spec fn button_on_spec(act: Action, button: ButtonMode, press: bool) -> Option<bool> {
    if action_kind(act) == ActionKind::Continuous {
        None
    } else if press {
        Some(true)
    } else if button == ButtonMode::Momentary && latching(act) {
        Some(false)
    } else {
        None
    }
}

/// What a button sample asks of `act` (see [`button_on_spec`]).
pub fn button_on(act: Action, button: ButtonMode, press: bool) -> (r: Option<bool>)
    ensures
        r == button_on_spec(act, button, press),
{
    if act.kind() == ActionKind::Continuous {
        return None;
    }
    if press {
        return Some(true);
    }
    let latches = act == Action::Ptt || act == Action::TuneCarrier;
    if button == ButtonMode::Momentary && latches {
        Some(false)
    } else {
        None
    }
}

/// The PTT or TUNE state to ask for: a toggle flips what the radio reports,
/// never a local latch, so the on-screen chip and the external control
/// cannot disagree; a momentary button asks for what it is.
pub fn latched_state(button: ButtonMode, on: bool, reported: bool) -> (want: bool)
    ensures
        want == if button == ButtonMode::Toggle {
            !reported
        } else {
            on
        },
{
    if button == ButtonMode::Toggle {
        !reported
    } else {
        on
    }
}

/// A momentary PTT follows the button: on while pressed, off when let go.
pub proof fn law_momentary_ptt_follows_the_button(act: Action)
    requires
        latching(act),
    ensures
        button_on_spec(act, ButtonMode::Momentary, true) == Some(true),
        button_on_spec(act, ButtonMode::Momentary, false) == Some(false),
{
}

/// A one-shot action fires once per physical press: its release, and any
/// toggle's release, asks nothing.
pub proof fn law_one_shots_ignore_release(act: Action, button: ButtonMode)
    requires
        !latching(act) || button == ButtonMode::Toggle,
    ensures
        button_on_spec(act, button, false) is None,
{
}

/// The VFO a toggle selects: the other one.
pub fn other_vfo(v: Vfo) -> (w: Vfo)
    ensures
        w != v,
{
    match v {
        Vfo::A => Vfo::B,
        Vfo::B => Vfo::A,
    }
}

/// The modes of `modes` that mode stepping passes through: those the station
/// can run (not in `unavailable`), and `cur` itself, which the radio is in
/// whatever the station says.
pub open spec fn usable_modes(modes: Seq<Mode>, cur: Mode, unavailable: Seq<Mode>) -> Seq<Mode>
    decreases modes.len(),
{
    if modes.len() == 0 {
        Seq::empty()
    } else {
        let prev = usable_modes(modes.drop_last(), cur, unavailable);
        let m = modes.last();
        if m == cur || !unavailable.contains(m) {
            prev.push(m)
        } else {
            prev
        }
    }
}

/// The next (`up`) or previous mode from `cur`, in the order of every mode,
/// past any the station cannot run, wrapping at either end.
pub open spec fn step_mode_spec(cur: Mode, up: bool, unavailable: Seq<Mode>) -> Mode {
    let u = usable_modes(all_modes(), cur, unavailable);
    match first_index(u, cur) {
        Some(i) => {
            let n = u.len() as int;
            if up {
                u[(i + 1) % n]
            } else {
                u[(i + n - 1) % n]
            }
        },
        None => cur,
    }
}

proof fn lemma_every_mode_is_listed(m: Mode)
    ensures
        all_modes().contains(m),
{
    let a = all_modes();
    match m {
        Mode::Lsb => assert(a[0] == m),
        Mode::Usb => assert(a[1] == m),
        Mode::Cw => assert(a[2] == m),
        Mode::CwR => assert(a[3] == m),
        Mode::Am => assert(a[4] == m),
        Mode::Sam => assert(a[5] == m),
        Mode::Fm => assert(a[6] == m),
        Mode::Wfm => assert(a[7] == m),
        Mode::DigU => assert(a[8] == m),
        Mode::DigL => assert(a[9] == m),
        Mode::Drm => assert(a[10] == m),
        Mode::HdRadio => assert(a[11] == m),
        Mode::Adsb => assert(a[12] == m),
    }
}

proof fn lemma_usable_keeps_cur(modes: Seq<Mode>, cur: Mode, unavailable: Seq<Mode>)
    requires
        modes.contains(cur),
    ensures
        usable_modes(modes, cur, unavailable).contains(cur),
    decreases modes.len(),
{
    let u = usable_modes(modes, cur, unavailable);
    if modes.last() == cur {
        assert(u[u.len() - 1] == cur);
    } else {
        let k = choose|k: int| 0 <= k < modes.len() && modes[k] == cur;
        assert(modes.drop_last()[k] == cur);
        lemma_usable_keeps_cur(modes.drop_last(), cur, unavailable);
        let p = usable_modes(modes.drop_last(), cur, unavailable);
        let j = choose|j: int| 0 <= j < p.len() && p[j] == cur;
        assert(u[j] == cur);
    }
}

fn listed(modes: &[Mode], m: Mode) -> (b: bool)
    ensures
        b == modes@.contains(m),
{
    let mut i: usize = 0;
    while i < modes.len()
        invariant
            i <= modes@.len(),
            forall|k: int| 0 <= k < i ==> modes@[k] != m,
        decreases modes@.len() - i,
    {
        if modes[i] == m {
            return true;
        }
        i = i + 1;
    }
    false
}

/// The next or previous mode (see [`step_mode_spec`]); `unavailable` holds
/// the modes the station cannot run.
pub fn step_mode(cur: Mode, up: bool, unavailable: &[Mode]) -> (m: Mode)
    ensures
        m == step_mode_spec(cur, up, unavailable@),
{
    let all = Mode::all();
    let mut usable: Vec<Mode> = Vec::new();
    let mut i: usize = 0;
    while i < all.len()
        invariant
            all@ == all_modes(),
            i <= all@.len(),
            usable@ == usable_modes(all@.take(i as int), cur, unavailable@),
        decreases all@.len() - i,
    {
        assert(all@.take(i + 1).drop_last() =~= all@.take(i as int));
        assert(all@.take(i + 1).last() == all@[i as int]);
        let m = all[i];
        if m == cur || !listed(unavailable, m) {
            usable.push(m);
        }
        i = i + 1;
    }
    assert(all@.take(all@.len() as int) =~= all@);
    proof {
        lemma_every_mode_is_listed(cur);
        lemma_usable_keeps_cur(all_modes(), cur, unavailable@);
    }
    let n = usable.len();
    let mut j: usize = 0;
    while j < n
        invariant
            n == usable@.len(),
            usable@ == usable_modes(all_modes(), cur, unavailable@),
            j <= n,
            usable@.contains(cur),
            forall|k: int| 0 <= k < j ==> usable@[k] != cur,
        decreases n - j,
    {
        if usable[j] == cur {
            proof {
                crate::runtime::lemma_first_index_at(usable@, cur, j as int);
                let (jj, nn) = (j as int, n as int);
                if j == 0 {
                    vstd::arithmetic::div_mod::lemma_small_mod((n - 1) as nat, n as nat);
                } else {
                    vstd::arithmetic::div_mod::lemma_mod_add_multiples_vanish(jj - 1, nn);
                    vstd::arithmetic::div_mod::lemma_small_mod((j - 1) as nat, n as nat);
                }
                let back = if j == 0 { nn - 1 } else { jj - 1 };
                assert((jj + nn - 1) % nn == back);
            }
            let back = if j == 0 {
                n - 1
            } else {
                j - 1
            };
            return if up {
                usable[(j + 1) % n]
            } else {
                usable[back]
            };
        }
        j = j + 1;
    }
    proof {
        let k = choose|k: int| 0 <= k < usable@.len() && usable@[k] == cur;
        assert(usable@[k] != cur);
    }
    cur
}

/// A command a button sends the radio. A receiver's setting is always the
/// main receiver's.
#[derive(Debug, Clone, Copy, PartialEq, Eq, Structural)]
pub enum Command {
    SetPtt(bool),
    SetTune(bool),
    SetMute(bool),
    SetNoiseBlanker(bool),
    /// The noise-reduction level to select.
    SetNoiseReduction(u8),
    SetAutoNotch(bool),
    SetBinaural(bool),
    /// The AGC mode to select, by its place in the receiver's list of modes.
    SetAgc(u8),
    SetSubRx(bool),
    SetSplit(bool),
    SetRit { enabled: bool, hz: i32 },
    SetXit { enabled: bool, hz: i32 },
    SelectVfo(Vfo),
    SwapVfos,
    CopyAtoB,
    SetBand(Band),
    SetMode(Mode),
    RecallMemory(u32),
    SetRecording(bool),
    DigiAbortTx,
    /// Play voice-keyer slot `n`, or with `None` stop playing.
    VoicePlay(Option<u8>),
    ToneBurst,
}

/// What a button's action reads of the radio as it last reported itself.
#[derive(Debug, Clone, Copy, PartialEq, Eq, Structural)]
pub struct RadioFlags {
    pub ptt: bool,
    pub tune: bool,
    pub muted: bool,
    pub noise_blanker: bool,
    /// The noise-reduction level that follows the current one in the
    /// receiver's cycle.
    pub noise_reduction_next: u8,
    pub auto_notch: bool,
    pub binaural: bool,
    /// Whether the current mode has binaural audio at all.
    pub binaural_audio: bool,
    /// The current AGC mode's place in the receiver's list of AGC modes.
    pub agc: u8,
    /// How many AGC modes that list holds.
    pub agc_modes: u8,
    /// Whether the current mode's audio runs through the AGC.
    pub audio_agc: bool,
    pub sub_rx: bool,
    pub split: bool,
    pub rit_enabled: bool,
    pub rit_hz: i32,
    pub xit_enabled: bool,
    pub xit_hz: i32,
    pub active_vfo: Vfo,
    pub band: Band,
    pub mode: Mode,
    pub recording: bool,
}

/// The AGC mode after the current one, wrapping round; a place that is not
/// in the list counts as the first.
pub open spec fn next_agc(s: RadioFlags) -> u8 {
    let i = if s.agc < s.agc_modes {
        s.agc
    } else {
        0
    };
    if i + 1 < s.agc_modes {
        (i + 1) as u8
    } else {
        0
    }
}

/// The command a button action sends once the button has asked for `on`
/// (see [`button_on_spec`]): `ham` is the band plan, `unavailable` the modes
/// the station cannot run. `None` for an action that sends nothing: one that
/// only changes this window (the view, a panel, speech), the CW straight key
/// (read held by the CW panel), a band step off the plan, and binaural audio
/// or the AGC where the mode has none.
pub open spec fn button_command(
    act: Action,
    button: ButtonMode,
    on: bool,
    s: RadioFlags,
    ham: Seq<Band>,
    unavailable: Seq<Mode>,
) -> Option<Command> {
    match act {
        Action::Ptt => Some(Command::SetPtt(if button == ButtonMode::Toggle { !s.ptt } else { on })),
        Action::TuneCarrier => Some(
            Command::SetTune(if button == ButtonMode::Toggle { !s.tune } else { on }),
        ),
        Action::Mute => Some(Command::SetMute(!s.muted)),
        Action::NoiseBlanker => Some(Command::SetNoiseBlanker(!s.noise_blanker)),
        Action::NoiseReductionCycle => Some(Command::SetNoiseReduction(s.noise_reduction_next)),
        Action::AutoNotch => Some(Command::SetAutoNotch(!s.auto_notch)),
        Action::Binaural => if s.binaural_audio {
            Some(Command::SetBinaural(!s.binaural))
        } else {
            None
        },
        Action::AgcCycle => if s.audio_agc {
            Some(Command::SetAgc(next_agc(s)))
        } else {
            None
        },
        Action::SubRx => Some(Command::SetSubRx(!s.sub_rx)),
        Action::Split => Some(Command::SetSplit(!s.split)),
        Action::RitEnable => Some(Command::SetRit { enabled: !s.rit_enabled, hz: s.rit_hz }),
        Action::XitEnable => Some(Command::SetXit { enabled: !s.xit_enabled, hz: s.xit_hz }),
        Action::RitClear => Some(Command::SetRit { enabled: s.rit_enabled, hz: 0 }),
        Action::XitClear => Some(Command::SetXit { enabled: s.xit_enabled, hz: 0 }),
        Action::VfoSelect(v) => Some(Command::SelectVfo(v)),
        Action::VfoToggle => Some(
            Command::SelectVfo(if s.active_vfo == Vfo::A { Vfo::B } else { Vfo::A }),
        ),
        Action::SwapVfos => Some(Command::SwapVfos),
        Action::CopyAtoB => Some(Command::CopyAtoB),
        Action::BandUp => match step_band_spec(ham, s.band, true) {
            Some(b) => Some(Command::SetBand(b)),
            None => None,
        },
        Action::BandDown => match step_band_spec(ham, s.band, false) {
            Some(b) => Some(Command::SetBand(b)),
            None => None,
        },
        Action::BandSelect(b) => Some(Command::SetBand(b)),
        Action::ModeNext => Some(Command::SetMode(step_mode_spec(s.mode, true, unavailable))),
        Action::ModePrev => Some(Command::SetMode(step_mode_spec(s.mode, false, unavailable))),
        Action::ModeSelect(m) => Some(Command::SetMode(m)),
        Action::MemoryRecall(n) => Some(Command::RecallMemory(n)),
        Action::RecordToggle => Some(Command::SetRecording(!s.recording)),
        Action::AbortTx => Some(Command::DigiAbortTx),
        Action::VoicePlay(slot) => Some(Command::VoicePlay(Some(slot))),
        Action::VoiceStop => Some(Command::VoicePlay(None)),
        Action::ToneBurst => Some(Command::ToneBurst),
        _ => None,
    }
}

/// The command a button sample sends: nothing where the sample asks nothing
/// of the action, else the action's command.
pub open spec fn press_command_spec(
    act: Action,
    button: ButtonMode,
    press: bool,
    s: RadioFlags,
    ham: Seq<Band>,
    unavailable: Seq<Mode>,
) -> Option<Command> {
    match button_on_spec(act, button, press) {
        Some(on) => button_command(act, button, on, s, ham, unavailable),
        None => None,
    }
}

/// A release sends nothing but the un-key of a momentary PTT or TUNE, so
/// no physical press fires an action twice.
pub proof fn law_a_release_only_unkeys(
    act: Action,
    button: ButtonMode,
    s: RadioFlags,
    ham: Seq<Band>,
    unavailable: Seq<Mode>,
)
    ensures
        press_command_spec(act, button, false, s, ham, unavailable) is Some ==> {
            &&& button == ButtonMode::Momentary
            &&& (act == Action::Ptt ==> press_command_spec(act, button, false, s, ham, unavailable)
                == Some(Command::SetPtt(false)))
            &&& (act == Action::TuneCarrier ==> press_command_spec(act, button, false, s, ham, unavailable)
                == Some(Command::SetTune(false)))
            &&& latching(act)
        },
{
}

/// A press of an on/off action asks for the opposite of what the radio
/// reports, whatever kind of button it is on, so each press flips it; a
/// toggle PTT or TUNE does too, while a momentary one asks to key.
pub proof fn law_a_press_flips_what_the_radio_reports(
    button: ButtonMode,
    s: RadioFlags,
    ham: Seq<Band>,
    unavailable: Seq<Mode>,
)
    ensures
        press_command_spec(Action::Mute, button, true, s, ham, unavailable) == Some(
            Command::SetMute(!s.muted),
        ),
        press_command_spec(Action::NoiseBlanker, button, true, s, ham, unavailable) == Some(
            Command::SetNoiseBlanker(!s.noise_blanker),
        ),
        press_command_spec(Action::AutoNotch, button, true, s, ham, unavailable) == Some(
            Command::SetAutoNotch(!s.auto_notch),
        ),
        press_command_spec(Action::SubRx, button, true, s, ham, unavailable) == Some(
            Command::SetSubRx(!s.sub_rx),
        ),
        press_command_spec(Action::Split, button, true, s, ham, unavailable) == Some(
            Command::SetSplit(!s.split),
        ),
        press_command_spec(Action::RecordToggle, button, true, s, ham, unavailable) == Some(
            Command::SetRecording(!s.recording),
        ),
        press_command_spec(Action::RitEnable, button, true, s, ham, unavailable) == Some(
            Command::SetRit { enabled: !s.rit_enabled, hz: s.rit_hz },
        ),
        press_command_spec(Action::XitEnable, button, true, s, ham, unavailable) == Some(
            Command::SetXit { enabled: !s.xit_enabled, hz: s.xit_hz },
        ),
        s.binaural_audio ==> press_command_spec(Action::Binaural, button, true, s, ham, unavailable)
            == Some(Command::SetBinaural(!s.binaural)),
        press_command_spec(Action::VfoToggle, button, true, s, ham, unavailable) matches Some(
            Command::SelectVfo(v),
        ) && v != s.active_vfo,
        press_command_spec(Action::Ptt, button, true, s, ham, unavailable) == Some(
            Command::SetPtt(button == ButtonMode::Momentary || !s.ptt),
        ),
        press_command_spec(Action::TuneCarrier, button, true, s, ham, unavailable) == Some(
            Command::SetTune(button == ButtonMode::Momentary || !s.tune),
        ),
{
}

/// The command a press (`press`) or release of a button bound to `act`
/// sends the radio, as `s` reports it; `ham` is the band plan and
/// `unavailable` the modes the station cannot run.
pub fn press_command(
    act: Action,
    button: ButtonMode,
    press: bool,
    s: &RadioFlags,
    ham: &[Band],
    unavailable: &[Mode],
) -> (c: Option<Command>)
    ensures
        c == press_command_spec(act, button, press, *s, ham@, unavailable@),
{
    match button_on(act, button, press) {
        Some(on) => command_for(act, button, on, s, ham, unavailable),
        None => None,
    }
}

/// The command a button action sends once asked for `on` (see
/// [`button_command`]).
fn command_for(
    act: Action,
    button: ButtonMode,
    on: bool,
    s: &RadioFlags,
    ham: &[Band],
    unavailable: &[Mode],
) -> (c: Option<Command>)
    ensures
        c == button_command(act, button, on, *s, ham@, unavailable@),
{
    match act {
        Action::Ptt => Some(Command::SetPtt(latched_state(button, on, s.ptt))),
        Action::TuneCarrier => Some(Command::SetTune(latched_state(button, on, s.tune))),
        Action::Mute => Some(Command::SetMute(!s.muted)),
        Action::NoiseBlanker => Some(Command::SetNoiseBlanker(!s.noise_blanker)),
        Action::NoiseReductionCycle => Some(Command::SetNoiseReduction(s.noise_reduction_next)),
        Action::AutoNotch => Some(Command::SetAutoNotch(!s.auto_notch)),
        Action::Binaural => if s.binaural_audio {
            Some(Command::SetBinaural(!s.binaural))
        } else {
            None
        },
        Action::AgcCycle => if s.audio_agc {
            let i: u8 = if s.agc < s.agc_modes {
                s.agc
            } else {
                0
            };
            let next: u8 = if (i as u16) + 1 < s.agc_modes as u16 {
                i + 1
            } else {
                0
            };
            Some(Command::SetAgc(next))
        } else {
            None
        },
        Action::SubRx => Some(Command::SetSubRx(!s.sub_rx)),
        Action::Split => Some(Command::SetSplit(!s.split)),
        Action::RitEnable => Some(Command::SetRit { enabled: !s.rit_enabled, hz: s.rit_hz }),
        Action::XitEnable => Some(Command::SetXit { enabled: !s.xit_enabled, hz: s.xit_hz }),
        Action::RitClear => Some(Command::SetRit { enabled: s.rit_enabled, hz: 0 }),
        Action::XitClear => Some(Command::SetXit { enabled: s.xit_enabled, hz: 0 }),
        Action::VfoSelect(v) => Some(Command::SelectVfo(v)),
        Action::VfoToggle => Some(Command::SelectVfo(other_vfo(s.active_vfo))),
        Action::SwapVfos => Some(Command::SwapVfos),
        Action::CopyAtoB => Some(Command::CopyAtoB),
        Action::BandUp | Action::BandDown => match step_band(ham, s.band, act == Action::BandUp) {
            Some(b) => Some(Command::SetBand(b)),
            None => None,
        },
        Action::BandSelect(b) => Some(Command::SetBand(b)),
        Action::ModeNext | Action::ModePrev => Some(
            Command::SetMode(step_mode(s.mode, act == Action::ModeNext, unavailable)),
        ),
        Action::ModeSelect(m) => Some(Command::SetMode(m)),
        Action::MemoryRecall(n) => Some(Command::RecallMemory(n)),
        Action::RecordToggle => Some(Command::SetRecording(!s.recording)),
        Action::AbortTx => Some(Command::DigiAbortTx),
        Action::VoicePlay(slot) => Some(Command::VoicePlay(Some(slot))),
        Action::VoiceStop => Some(Command::VoicePlay(None)),
        Action::ToneBurst => Some(Command::ToneBurst),
        _ => None,
    }
}

} // verus!
