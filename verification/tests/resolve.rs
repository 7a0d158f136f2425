use sdroxide_input::input::{Action, ButtonMode};
use sdroxide_input::radio::{Band, Mode, Vfo};
use sdroxide_input::resolve::{
    Command, RadioFlags, button_on, latched_state, other_vfo, press_command, step_mode,
};

fn flags() -> RadioFlags {
    RadioFlags {
        ptt: false,
        tune: false,
        muted: false,
        noise_blanker: false,
        noise_reduction_next: 1,
        auto_notch: false,
        binaural: false,
        binaural_audio: false,
        agc: 0,
        agc_modes: 4,
        audio_agc: true,
        sub_rx: false,
        split: false,
        rit_enabled: false,
        rit_hz: 0,
        xit_enabled: false,
        xit_hz: 0,
        active_vfo: Vfo::A,
        band: Band::M20,
        mode: Mode::Usb,
        recording: false,
    }
}

/// A press of a button bound to `act` in `mode`, against `s`.
fn press_of(act: Action, mode: ButtonMode, s: &RadioFlags) -> Option<Command> {
    press_command(act, mode, true, s, &[Band::M40, Band::M20, Band::M15], &[])
}

fn release_of(act: Action, mode: ButtonMode, s: &RadioFlags) -> Option<Command> {
    press_command(act, mode, false, s, &[Band::M40, Band::M20, Band::M15], &[])
}

/// DRM, HD Radio and ADS-B sit side by side in the mode order; a station
/// without HD Radio steps past it, unless the radio is already in it.
#[test]
fn mode_stepping_passes_a_mode_the_station_cannot_run() {
    let step = |from: Mode, up: bool, unavailable: bool| {
        let missing: Vec<Mode> = if unavailable { vec![Mode::HdRadio] } else { vec![] };
        step_mode(from, up, &missing)
    };
    assert_eq!(step(Mode::Drm, true, false), Mode::HdRadio);
    assert_eq!(step(Mode::Drm, true, true), Mode::Adsb);
    assert_eq!(step(Mode::Adsb, false, true), Mode::Drm);
    assert_eq!(step(Mode::HdRadio, true, true), Mode::Adsb);
    let command = |from: Mode, act: Action, unavailable: bool| {
        let missing: Vec<Mode> = if unavailable { vec![Mode::HdRadio] } else { vec![] };
        let s = RadioFlags { mode: from, ..flags() };
        press_command(act, ButtonMode::Momentary, true, &s, &[], &missing)
    };
    assert_eq!(command(Mode::Drm, Action::ModeNext, false), Some(Command::SetMode(Mode::HdRadio)));
    assert_eq!(command(Mode::Drm, Action::ModeNext, true), Some(Command::SetMode(Mode::Adsb)));
    assert_eq!(command(Mode::Adsb, Action::ModePrev, true), Some(Command::SetMode(Mode::Drm)));
    assert_eq!(command(Mode::HdRadio, Action::ModeNext, true), Some(Command::SetMode(Mode::Adsb)));
}

#[test]
fn mode_stepping_wraps_at_either_end() {
    assert_eq!(step_mode(Mode::Adsb, true, &[]), Mode::Lsb);
    assert_eq!(step_mode(Mode::Lsb, false, &[]), Mode::Adsb);
    assert_eq!(step_mode(Mode::Lsb, false, &[Mode::Adsb, Mode::HdRadio]), Mode::Drm);
}

#[test]
fn momentary_ptt_follows_the_button() {
    let press = button_on(Action::Ptt, ButtonMode::Momentary, true);
    let release = button_on(Action::Ptt, ButtonMode::Momentary, false);
    assert_eq!(press, Some(true));
    assert_eq!(release, Some(false));
    assert!(latched_state(ButtonMode::Momentary, true, false));
    assert!(!latched_state(ButtonMode::Momentary, false, true));
    let s = flags();
    assert_eq!(press_of(Action::Ptt, ButtonMode::Momentary, &s), Some(Command::SetPtt(true)));
    assert_eq!(release_of(Action::Ptt, ButtonMode::Momentary, &s), Some(Command::SetPtt(false)));
}

/// A toggle PTT flips the radio's reported state, never a local latch.
#[test]
fn toggle_ptt_flips_reported_state() {
    assert_eq!(button_on(Action::Ptt, ButtonMode::Toggle, true), Some(true));
    assert!(!latched_state(ButtonMode::Toggle, true, true));
    // Release on a toggle does nothing.
    assert_eq!(button_on(Action::Ptt, ButtonMode::Toggle, false), None);
    let s = RadioFlags { ptt: true, ..flags() };
    assert_eq!(press_of(Action::Ptt, ButtonMode::Toggle, &s), Some(Command::SetPtt(false)));
    assert_eq!(release_of(Action::Ptt, ButtonMode::Toggle, &s), None);
}

/// One-shots must not fire twice for one physical press.
#[test]
fn one_shot_actions_ignore_release() {
    assert_eq!(button_on(Action::SwapVfos, ButtonMode::Momentary, true), Some(true));
    assert_eq!(button_on(Action::SwapVfos, ButtonMode::Momentary, false), None);
    let s = flags();
    assert_eq!(press_of(Action::SwapVfos, ButtonMode::Momentary, &s), Some(Command::SwapVfos));
    assert_eq!(release_of(Action::SwapVfos, ButtonMode::Momentary, &s), None);
}

#[test]
fn ui_only_actions_emit_no_commands() {
    let s = flags();
    assert_eq!(press_of(Action::FitSpan, ButtonMode::Toggle, &s), None);
    assert_eq!(press_of(Action::ToggleHelp, ButtonMode::Toggle, &s), None);
    assert_eq!(press_of(Action::SpeakStatus, ButtonMode::Toggle, &s), None);
    assert_eq!(press_of(Action::CwStraight, ButtonMode::Momentary, &s), None);
}

#[test]
fn a_press_sends_the_command_for_what_the_radio_reports() {
    let s = RadioFlags { muted: true, rit_enabled: true, rit_hz: 120, active_vfo: Vfo::B, ..flags() };
    assert_eq!(press_of(Action::Mute, ButtonMode::Toggle, &s), Some(Command::SetMute(false)));
    assert_eq!(press_of(Action::RitClear, ButtonMode::Toggle, &s), Some(Command::SetRit { enabled: true, hz: 0 }));
    assert_eq!(press_of(Action::RitEnable, ButtonMode::Toggle, &s), Some(Command::SetRit { enabled: false, hz: 120 }));
    assert_eq!(press_of(Action::VfoToggle, ButtonMode::Toggle, &s), Some(Command::SelectVfo(Vfo::A)));
    assert_eq!(press_of(Action::NoiseReductionCycle, ButtonMode::Toggle, &s), Some(Command::SetNoiseReduction(1)));
    assert_eq!(press_of(Action::VoicePlay(2), ButtonMode::Toggle, &s), Some(Command::VoicePlay(Some(2))));
    assert_eq!(press_of(Action::VoiceStop, ButtonMode::Toggle, &s), Some(Command::VoicePlay(None)));
    assert_eq!(press_of(Action::MemoryRecall(7), ButtonMode::Toggle, &s), Some(Command::RecallMemory(7)));
}

#[test]
fn the_agc_and_binaural_only_change_where_the_mode_has_them() {
    let s = RadioFlags { agc: 3, agc_modes: 4, ..flags() };
    assert_eq!(press_of(Action::AgcCycle, ButtonMode::Toggle, &s), Some(Command::SetAgc(0)));
    let s = RadioFlags { agc: 1, ..flags() };
    assert_eq!(press_of(Action::AgcCycle, ButtonMode::Toggle, &s), Some(Command::SetAgc(2)));
    let s = RadioFlags { audio_agc: false, ..flags() };
    assert_eq!(press_of(Action::AgcCycle, ButtonMode::Toggle, &s), None);
    assert_eq!(press_of(Action::Binaural, ButtonMode::Toggle, &flags()), None);
    let s = RadioFlags { binaural_audio: true, ..flags() };
    assert_eq!(press_of(Action::Binaural, ButtonMode::Toggle, &s), Some(Command::SetBinaural(true)));
}

#[test]
fn a_band_step_stays_on_the_plan() {
    let s = flags();
    assert_eq!(press_of(Action::BandUp, ButtonMode::Toggle, &s), Some(Command::SetBand(Band::M15)));
    assert_eq!(press_of(Action::BandDown, ButtonMode::Toggle, &s), Some(Command::SetBand(Band::M40)));
    let s = RadioFlags { band: Band::Gen, ..flags() };
    assert_eq!(press_of(Action::BandUp, ButtonMode::Toggle, &s), None);
}

#[test]
fn a_button_on_a_knob_action_does_nothing() {
    assert_eq!(button_on(Action::Tune, ButtonMode::Momentary, true), None);
    assert_eq!(button_on(Action::Volume, ButtonMode::Toggle, false), None);
}

#[test]
fn the_vfo_toggle_selects_the_other() {
    assert_eq!(other_vfo(Vfo::A), Vfo::B);
    assert_eq!(other_vfo(Vfo::B), Vfo::A);
}
