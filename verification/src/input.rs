//! Control-input vocabulary: what an external control does, independent of
//! what produced it.
//!
//! A keyboard chord, a mouse button, a MIDI control and the RC-28 all resolve
//! to an [`Action`]. Everything here is plain data; quantities that are
//! floating point where they are used (steps, values, timeouts) are held as
//! the bits of the `f32` or `f64` they are, so that they are carried exactly.

use vstd::prelude::*;

use crate::radio::{Band, Mode, Vfo, VOICE_SLOTS, all_bands, all_modes, band_label, mode_label};
use crate::text::{decimal, push_decimal};

verus! {

/// What a control input does.
///
/// The first block is [`ActionKind::Continuous`], driven by a signed delta
/// (encoder, wheel, arrow key) or an absolute position (fader). The rest are
/// [`ActionKind::Momentary`], driven by press and release.
#[derive(Debug, Clone, Copy, PartialEq, Eq, Hash, Structural)]
pub enum Action {
    Tune,
    RitOffset,
    XitOffset,
    Volume,
    SubVolume,
    Squelch,
    FilterWidth,
    FilterShift,
    AgcMaxGain,
    /// Fixed audio gain, in effect while the AGC is off.
    ManualGain,
    TxDrive,
    TuneDrive,
    MicGain,
    /// Digital-mode transmit tone offset within the passband (Hz).
    DigiAudioFreq,
    SpectrumZoom,
    SpectrumPan,
    SpectrumFloorDb,
    SpectrumCeilDb,
    Ptt,
    TuneCarrier,
    Mute,
    NoiseBlanker,
    /// Advance the noise-reduction strength: Off, Low, Med, High, Off.
    NoiseReductionCycle,
    AutoNotch,
    /// Binaural (pseudo-stereo) audio.
    Binaural,
    AgcCycle,
    SubRx,
    Split,
    RitEnable,
    XitEnable,
    RitClear,
    XitClear,
    VfoSelect(Vfo),
    VfoToggle,
    SwapVfos,
    CopyAtoB,
    BandUp,
    BandDown,
    BandSelect(Band),
    ModeNext,
    ModePrev,
    ModeSelect(Mode),
    MemoryRecall(u32),
    RecordToggle,
    AbortTx,
    /// Hold the bound key as a CW straight key. Only takes effect while the CW panel's KEY toggle is armed.
    CwStraight,
    /// Transmit voice-keyer slot `n` (0-based). Does nothing when the slot is empty.
    VoicePlay(u8),
    /// Stop a voice-keyer message mid-transmission.
    VoiceStop,
    /// Send the 1750 Hz repeater tone burst.
    ToneBurst,
    FitSpan,
    ZoomIn,
    ZoomOut,
    PeakHold,
    SpectrumCollapse,
    /// Hide or show the waterfall.
    WaterfallCollapse,
    WaterfallFlip,
    ToggleHelp,
    ToggleSettings,
    ToggleLogbook,
    ToggleSpots,
    ToggleMemories,
    ToggleVoice,
    /// Read the whole radio out.
    SpeakStatus,
    /// Say the last announcement again.
    SpeakRepeat,
    /// Stop talking now and drop whatever is queued.
    SpeechSilence,
    /// Announcements on/off.
    SpeechToggle,
}

/// Whether an action is driven by a value or by a button.
#[derive(Debug, Clone, Copy, PartialEq, Eq, Structural)]
pub enum ActionKind {
    Continuous,
    Momentary,
}

/// Whether an action is driven by a value (the first block) or a button.
pub open spec fn action_kind(a: Action) -> ActionKind {
    match a {
        Action::Tune | Action::RitOffset | Action::XitOffset | Action::Volume | Action::SubVolume | Action::Squelch | Action::FilterWidth | Action::FilterShift | Action::AgcMaxGain | Action::ManualGain | Action::TxDrive | Action::TuneDrive | Action::MicGain | Action::DigiAudioFreq | Action::SpectrumZoom | Action::SpectrumPan | Action::SpectrumFloorDb | Action::SpectrumCeilDb => ActionKind::Continuous,
        _ => ActionKind::Momentary,
    }
}

/// The section of the bindings editor an action belongs under.
pub open spec fn action_group(a: Action) -> Seq<char> {
    match a {
        Action::Tune | Action::RitOffset | Action::XitOffset | Action::Split | Action::RitEnable | Action::XitEnable | Action::RitClear | Action::XitClear | Action::VfoSelect(_) | Action::VfoToggle | Action::SwapVfos | Action::CopyAtoB | Action::BandUp | Action::BandDown | Action::BandSelect(_) | Action::MemoryRecall(_) => "Tuning"@,
        Action::Volume | Action::SubVolume | Action::Squelch | Action::FilterWidth | Action::FilterShift | Action::AgcMaxGain | Action::ManualGain | Action::Mute | Action::NoiseBlanker | Action::NoiseReductionCycle | Action::AutoNotch | Action::Binaural | Action::AgcCycle | Action::SubRx | Action::ModeNext | Action::ModePrev | Action::ModeSelect(_) | Action::RecordToggle => "Receive"@,
        Action::TxDrive | Action::TuneDrive | Action::MicGain | Action::DigiAudioFreq | Action::Ptt | Action::TuneCarrier | Action::AbortTx | Action::CwStraight | Action::VoicePlay(_) | Action::VoiceStop | Action::ToneBurst => "Transmit"@,
        Action::SpectrumZoom | Action::SpectrumPan | Action::SpectrumFloorDb | Action::SpectrumCeilDb | Action::FitSpan | Action::ZoomIn | Action::ZoomOut | Action::PeakHold | Action::SpectrumCollapse | Action::WaterfallCollapse | Action::WaterfallFlip => "Display"@,
        Action::ToggleHelp | Action::ToggleSettings | Action::ToggleLogbook | Action::ToggleSpots | Action::ToggleMemories | Action::ToggleVoice => "Windows"@,
        Action::SpeakStatus | Action::SpeakRepeat | Action::SpeechSilence | Action::SpeechToggle => "Speech"@,
    }
}

/// The name an action is shown by.
pub open spec fn action_label(a: Action) -> Seq<char> {
    match a {
        Action::Tune => "Tune VFO"@,
        Action::RitOffset => "RIT offset"@,
        Action::XitOffset => "XIT offset"@,
        Action::Volume => "Volume"@,
        Action::SubVolume => "Sub-RX volume"@,
        Action::Squelch => "Squelch"@,
        Action::FilterWidth => "Filter width"@,
        Action::FilterShift => "Filter shift"@,
        Action::AgcMaxGain => "AGC max gain"@,
        Action::ManualGain => "Manual gain (AGC off)"@,
        Action::TxDrive => "TX drive"@,
        Action::TuneDrive => "Tune drive"@,
        Action::MicGain => "Mic gain"@,
        Action::DigiAudioFreq => "Digi audio offset"@,
        Action::SpectrumZoom => "Spectrum zoom"@,
        Action::SpectrumPan => "Spectrum pan"@,
        Action::SpectrumFloorDb => "Spectrum floor"@,
        Action::SpectrumCeilDb => "Spectrum ceiling"@,
        Action::Ptt => "PTT"@,
        Action::TuneCarrier => "TUNE carrier"@,
        Action::Mute => "Mute"@,
        Action::NoiseBlanker => "Noise blanker"@,
        Action::NoiseReductionCycle => "Noise reduction (cycle)"@,
        Action::AutoNotch => "Auto notch"@,
        Action::Binaural => "Binaural audio"@,
        Action::AgcCycle => "AGC (cycle)"@,
        Action::SubRx => "Sub receiver"@,
        Action::Split => "Split"@,
        Action::RitEnable => "RIT on/off"@,
        Action::XitEnable => "XIT on/off"@,
        Action::RitClear => "RIT clear"@,
        Action::XitClear => "XIT clear"@,
        Action::VfoToggle => "VFO A/B toggle"@,
        Action::SwapVfos => "Swap A↔B"@,
        Action::CopyAtoB => "Copy A→B"@,
        Action::BandUp => "Band up"@,
        Action::BandDown => "Band down"@,
        Action::ModeNext => "Mode next"@,
        Action::ModePrev => "Mode previous"@,
        Action::RecordToggle => "Record on/off"@,
        Action::AbortTx => "Abort transmit"@,
        Action::CwStraight => "CW straight key"@,
        Action::VoiceStop => "Voice keyer stop"@,
        Action::ToneBurst => "1750 Hz tone burst"@,
        Action::FitSpan => "Fit span"@,
        Action::ZoomIn => "Zoom in"@,
        Action::ZoomOut => "Zoom out"@,
        Action::PeakHold => "Peak hold"@,
        Action::SpectrumCollapse => "Collapse spectrum"@,
        Action::WaterfallCollapse => "Collapse waterfall"@,
        Action::WaterfallFlip => "Flip waterfall"@,
        Action::ToggleHelp => "Manual window"@,
        Action::ToggleSettings => "Settings window"@,
        Action::ToggleLogbook => "Logbook window"@,
        Action::ToggleSpots => "Spots window"@,
        Action::ToggleMemories => "Memories window"@,
        Action::ToggleVoice => "Voice keyer window"@,
        Action::SpeakStatus => "Speak status"@,
        Action::SpeakRepeat => "Repeat last announcement"@,
        Action::SpeechSilence => "Stop speaking"@,
        Action::SpeechToggle => "Announcements on/off"@,
        Action::VfoSelect(v) => "Select VFO "@ + (if v == Vfo::A {
            "A"@
        } else {
            "B"@
        }),
        Action::BandSelect(b) => "Band "@ + band_label(b),
        Action::ModeSelect(m) => "Mode "@ + mode_label(m),
        Action::MemoryRecall(n) => "Recall memory "@ + decimal(n as nat),
        Action::VoicePlay(n) => "Voice keyer slot "@ + decimal((n + 1) as nat),
    }
}

/// The step an action is given when freshly bound, as the bits of an `f32`:
/// hertz for frequencies, dB for levels, a fraction for gains.
pub open spec fn default_step_bits(a: Action) -> u32 {
    match a {
        Action::Tune => 0x42C80000, // 100.0
        Action::RitOffset | Action::XitOffset | Action::DigiAudioFreq => 0x41200000, // 10.0
        Action::FilterWidth | Action::FilterShift => 0x42480000, // 50.0
        Action::Volume | Action::SubVolume | Action::TxDrive | Action::TuneDrive | Action::MicGain | Action::SpectrumPan => 0x3CA3D70A, // 0.02
        Action::Squelch | Action::AgcMaxGain | Action::ManualGain | Action::SpectrumFloorDb | Action::SpectrumCeilDb => 0x3F800000, // 1.0
        Action::SpectrumZoom => 0x3D4CCCCD, // 0.05
        _ => 0x3F800000, // 1.0
    }
}

/// Every action the bindings editor offers, in its order: everything but
/// [`Action::MemoryRecall`], one entry per band, mode and voice slot.
pub open spec fn all_actions() -> Seq<Action> {
    seq![
        Action::Tune,
        Action::RitOffset,
        Action::XitOffset,
        Action::Volume,
        Action::SubVolume,
        Action::Squelch,
        Action::FilterWidth,
        Action::FilterShift,
        Action::AgcMaxGain,
        Action::ManualGain,
        Action::TxDrive,
        Action::TuneDrive,
        Action::MicGain,
        Action::DigiAudioFreq,
        Action::SpectrumZoom,
        Action::SpectrumPan,
        Action::SpectrumFloorDb,
        Action::SpectrumCeilDb,
        Action::Ptt,
        Action::TuneCarrier,
        Action::Mute,
        Action::NoiseBlanker,
        Action::NoiseReductionCycle,
        Action::AutoNotch,
        Action::Binaural,
        Action::AgcCycle,
        Action::SubRx,
        Action::Split,
        Action::RitEnable,
        Action::XitEnable,
        Action::RitClear,
        Action::XitClear,
        Action::VfoSelect(Vfo::A),
        Action::VfoSelect(Vfo::B),
        Action::VfoToggle,
        Action::SwapVfos,
        Action::CopyAtoB,
        Action::BandUp,
        Action::BandDown,
    ]
        + all_bands().map_values(|b: Band| Action::BandSelect(b))
        + seq![Action::ModeNext, Action::ModePrev]
        + all_modes().map_values(|m: Mode| Action::ModeSelect(m))
        + seq![Action::RecordToggle, Action::AbortTx, Action::CwStraight, Action::VoiceStop, Action::ToneBurst]
        + Seq::new(VOICE_SLOTS as nat, |i: int| Action::VoicePlay(i as u8))
        + seq![
        Action::FitSpan,
        Action::ZoomIn,
        Action::ZoomOut,
        Action::PeakHold,
        Action::SpectrumCollapse,
        Action::WaterfallCollapse,
        Action::WaterfallFlip,
        Action::ToggleHelp,
        Action::ToggleSettings,
        Action::ToggleLogbook,
        Action::ToggleSpots,
        Action::ToggleMemories,
        Action::ToggleVoice,
        Action::SpeakStatus,
        Action::SpeakRepeat,
        Action::SpeechSilence,
        Action::SpeechToggle,
    ]
}

impl Action {
    /// Whether the action is driven by a value or by a button.
    pub fn kind(self) -> (k: ActionKind)
        ensures
            k == action_kind(self),
    {
        match self {
            Action::Tune | Action::RitOffset | Action::XitOffset | Action::Volume | Action::SubVolume | Action::Squelch | Action::FilterWidth | Action::FilterShift | Action::AgcMaxGain | Action::ManualGain | Action::TxDrive | Action::TuneDrive | Action::MicGain | Action::DigiAudioFreq | Action::SpectrumZoom | Action::SpectrumPan | Action::SpectrumFloorDb | Action::SpectrumCeilDb => ActionKind::Continuous,
            _ => ActionKind::Momentary,
        }
    }

    /// Which section of the bindings editor this belongs under.
    pub fn group(self) -> (g: &'static str)
        ensures
            g@ == action_group(self),
    {
        match self {
            Action::Tune | Action::RitOffset | Action::XitOffset | Action::Split | Action::RitEnable | Action::XitEnable | Action::RitClear | Action::XitClear | Action::VfoSelect(_) | Action::VfoToggle | Action::SwapVfos | Action::CopyAtoB | Action::BandUp | Action::BandDown | Action::BandSelect(_) | Action::MemoryRecall(_) => "Tuning",
            Action::Volume | Action::SubVolume | Action::Squelch | Action::FilterWidth | Action::FilterShift | Action::AgcMaxGain | Action::ManualGain | Action::Mute | Action::NoiseBlanker | Action::NoiseReductionCycle | Action::AutoNotch | Action::Binaural | Action::AgcCycle | Action::SubRx | Action::ModeNext | Action::ModePrev | Action::ModeSelect(_) | Action::RecordToggle => "Receive",
            Action::TxDrive | Action::TuneDrive | Action::MicGain | Action::DigiAudioFreq | Action::Ptt | Action::TuneCarrier | Action::AbortTx | Action::CwStraight | Action::VoicePlay(_) | Action::VoiceStop | Action::ToneBurst => "Transmit",
            Action::SpectrumZoom | Action::SpectrumPan | Action::SpectrumFloorDb | Action::SpectrumCeilDb | Action::FitSpan | Action::ZoomIn | Action::ZoomOut | Action::PeakHold | Action::SpectrumCollapse | Action::WaterfallCollapse | Action::WaterfallFlip => "Display",
            Action::ToggleHelp | Action::ToggleSettings | Action::ToggleLogbook | Action::ToggleSpots | Action::ToggleMemories | Action::ToggleVoice => "Windows",
            Action::SpeakStatus | Action::SpeakRepeat | Action::SpeechSilence | Action::SpeechToggle => "Speech",
        }
    }

    /// The name the action is shown by.
    pub fn label(self) -> (s: String)
        requires
            self matches Action::VoicePlay(n) ==> n < 255,
        ensures
            s@ == action_label(self),
    {
        match self {
            Action::Tune => "Tune VFO".to_owned(),
            Action::RitOffset => "RIT offset".to_owned(),
            Action::XitOffset => "XIT offset".to_owned(),
            Action::Volume => "Volume".to_owned(),
            Action::SubVolume => "Sub-RX volume".to_owned(),
            Action::Squelch => "Squelch".to_owned(),
            Action::FilterWidth => "Filter width".to_owned(),
            Action::FilterShift => "Filter shift".to_owned(),
            Action::AgcMaxGain => "AGC max gain".to_owned(),
            Action::ManualGain => "Manual gain (AGC off)".to_owned(),
            Action::TxDrive => "TX drive".to_owned(),
            Action::TuneDrive => "Tune drive".to_owned(),
            Action::MicGain => "Mic gain".to_owned(),
            Action::DigiAudioFreq => "Digi audio offset".to_owned(),
            Action::SpectrumZoom => "Spectrum zoom".to_owned(),
            Action::SpectrumPan => "Spectrum pan".to_owned(),
            Action::SpectrumFloorDb => "Spectrum floor".to_owned(),
            Action::SpectrumCeilDb => "Spectrum ceiling".to_owned(),
            Action::Ptt => "PTT".to_owned(),
            Action::TuneCarrier => "TUNE carrier".to_owned(),
            Action::Mute => "Mute".to_owned(),
            Action::NoiseBlanker => "Noise blanker".to_owned(),
            Action::NoiseReductionCycle => "Noise reduction (cycle)".to_owned(),
            Action::AutoNotch => "Auto notch".to_owned(),
            Action::Binaural => "Binaural audio".to_owned(),
            Action::AgcCycle => "AGC (cycle)".to_owned(),
            Action::SubRx => "Sub receiver".to_owned(),
            Action::Split => "Split".to_owned(),
            Action::RitEnable => "RIT on/off".to_owned(),
            Action::XitEnable => "XIT on/off".to_owned(),
            Action::RitClear => "RIT clear".to_owned(),
            Action::XitClear => "XIT clear".to_owned(),
            Action::VfoToggle => "VFO A/B toggle".to_owned(),
            Action::SwapVfos => "Swap A↔B".to_owned(),
            Action::CopyAtoB => "Copy A→B".to_owned(),
            Action::BandUp => "Band up".to_owned(),
            Action::BandDown => "Band down".to_owned(),
            Action::ModeNext => "Mode next".to_owned(),
            Action::ModePrev => "Mode previous".to_owned(),
            Action::RecordToggle => "Record on/off".to_owned(),
            Action::AbortTx => "Abort transmit".to_owned(),
            Action::CwStraight => "CW straight key".to_owned(),
            Action::VoiceStop => "Voice keyer stop".to_owned(),
            Action::ToneBurst => "1750 Hz tone burst".to_owned(),
            Action::FitSpan => "Fit span".to_owned(),
            Action::ZoomIn => "Zoom in".to_owned(),
            Action::ZoomOut => "Zoom out".to_owned(),
            Action::PeakHold => "Peak hold".to_owned(),
            Action::SpectrumCollapse => "Collapse spectrum".to_owned(),
            Action::WaterfallCollapse => "Collapse waterfall".to_owned(),
            Action::WaterfallFlip => "Flip waterfall".to_owned(),
            Action::ToggleHelp => "Manual window".to_owned(),
            Action::ToggleSettings => "Settings window".to_owned(),
            Action::ToggleLogbook => "Logbook window".to_owned(),
            Action::ToggleSpots => "Spots window".to_owned(),
            Action::ToggleMemories => "Memories window".to_owned(),
            Action::ToggleVoice => "Voice keyer window".to_owned(),
            Action::SpeakStatus => "Speak status".to_owned(),
            Action::SpeakRepeat => "Repeat last announcement".to_owned(),
            Action::SpeechSilence => "Stop speaking".to_owned(),
            Action::SpeechToggle => "Announcements on/off".to_owned(),
            Action::VfoSelect(v) => {
                let mut s = String::from_str("Select VFO ");
                s.append(if v == Vfo::A {
                    "A"
                } else {
                    "B"
                });
                s
            },
            Action::BandSelect(b) => {
                let mut s = String::from_str("Band ");
                s.append(b.label());
                s
            },
            Action::ModeSelect(m) => {
                let mut s = String::from_str("Mode ");
                s.append(m.label());
                s
            },
            Action::MemoryRecall(n) => {
                let mut s = String::from_str("Recall memory ");
                push_decimal(&mut s, n);
                s
            },
            Action::VoicePlay(n) => {
                let mut s = String::from_str("Voice keyer slot ");
                push_decimal(&mut s, n as u32 + 1);
                s
            },
        }
    }

    /// The step this action is given when freshly bound, as the bits of an
    /// `f32`.
    pub fn default_step(self) -> (b: u32)
        ensures
            b == default_step_bits(self),
    {
        match self {
            Action::Tune => 0x42C80000,
            Action::RitOffset | Action::XitOffset | Action::DigiAudioFreq => 0x41200000,
            Action::FilterWidth | Action::FilterShift => 0x42480000,
            Action::Volume | Action::SubVolume | Action::TxDrive | Action::TuneDrive | Action::MicGain | Action::SpectrumPan => 0x3CA3D70A,
            Action::Squelch | Action::AgcMaxGain | Action::ManualGain | Action::SpectrumFloorDb | Action::SpectrumCeilDb => 0x3F800000,
            Action::SpectrumZoom => 0x3D4CCCCD,
            _ => 0x3F800000,
        }
    }

    /// Every action offered by the bindings editor, minus
    /// [`Action::MemoryRecall`] (the editor appends one entry per stored
    /// memory channel).
    #[verifier::rlimit(30)]
    pub fn all() -> (v: Vec<Action>)
        ensures
            v@ == all_actions(),
    {
        let mut v: Vec<Action> = vec![
            Action::Tune,
            Action::RitOffset,
            Action::XitOffset,
            Action::Volume,
            Action::SubVolume,
            Action::Squelch,
            Action::FilterWidth,
            Action::FilterShift,
            Action::AgcMaxGain,
            Action::ManualGain,
            Action::TxDrive,
            Action::TuneDrive,
            Action::MicGain,
            Action::DigiAudioFreq,
            Action::SpectrumZoom,
            Action::SpectrumPan,
            Action::SpectrumFloorDb,
            Action::SpectrumCeilDb,
            Action::Ptt,
            Action::TuneCarrier,
            Action::Mute,
            Action::NoiseBlanker,
            Action::NoiseReductionCycle,
            Action::AutoNotch,
            Action::Binaural,
            Action::AgcCycle,
            Action::SubRx,
            Action::Split,
            Action::RitEnable,
            Action::XitEnable,
            Action::RitClear,
            Action::XitClear,
            Action::VfoSelect(Vfo::A),
            Action::VfoSelect(Vfo::B),
            Action::VfoToggle,
            Action::SwapVfos,
            Action::CopyAtoB,
            Action::BandUp,
            Action::BandDown,
        ];
        let ghost head = v@;
        let bands = Band::all();
        let mut i: usize = 0;
        while i < bands.len()
            invariant
                i <= bands@.len(),
                bands@ == all_bands(),
                v@ == head + bands@.take(i as int).map_values(|b: Band| Action::BandSelect(b)),
            decreases bands@.len() - i,
        {
            v.push(Action::BandSelect(bands[i]));
            i = i + 1;
            assert(v@ =~= head + bands@.take(i as int).map_values(|b: Band| Action::BandSelect(b)));
        }
        assert(bands@.take(bands@.len() as int) =~= bands@);
        v.push(Action::ModeNext);
        v.push(Action::ModePrev);
        let ghost head = v@;
        let modes = Mode::all();
        let mut i: usize = 0;
        while i < modes.len()
            invariant
                i <= modes@.len(),
                modes@ == all_modes(),
                v@ == head + modes@.take(i as int).map_values(|m: Mode| Action::ModeSelect(m)),
            decreases modes@.len() - i,
        {
            v.push(Action::ModeSelect(modes[i]));
            i = i + 1;
            assert(v@ =~= head + modes@.take(i as int).map_values(|m: Mode| Action::ModeSelect(m)));
        }
        assert(modes@.take(modes@.len() as int) =~= modes@);
        v.push(Action::RecordToggle);
        v.push(Action::AbortTx);
        v.push(Action::CwStraight);
        v.push(Action::VoiceStop);
        v.push(Action::ToneBurst);
        let ghost head = v@;
        let mut slot: u8 = 0;
        while slot < VOICE_SLOTS
            invariant
                slot <= VOICE_SLOTS,
                v@ == head + Seq::new(slot as nat, |i: int| Action::VoicePlay(i as u8)),
            decreases VOICE_SLOTS - slot,
        {
            v.push(Action::VoicePlay(slot));
            slot = slot + 1;
            assert(v@ =~= head + Seq::new(slot as nat, |i: int| Action::VoicePlay(i as u8)));
        }
        v.push(Action::FitSpan);
        v.push(Action::ZoomIn);
        v.push(Action::ZoomOut);
        v.push(Action::PeakHold);
        v.push(Action::SpectrumCollapse);
        v.push(Action::WaterfallCollapse);
        v.push(Action::WaterfallFlip);
        v.push(Action::ToggleHelp);
        v.push(Action::ToggleSettings);
        v.push(Action::ToggleLogbook);
        v.push(Action::ToggleSpots);
        v.push(Action::ToggleMemories);
        v.push(Action::ToggleVoice);
        v.push(Action::SpeakStatus);
        v.push(Action::SpeakRepeat);
        v.push(Action::SpeechSilence);
        v.push(Action::SpeechToggle);
        assert(v@ =~= all_actions());
        v
    }
}

/// Every action has a non-empty label and a non-empty group.
pub proof fn law_every_action_has_a_label_and_a_group(a: Action)
    ensures
        action_label(a).len() > 0,
        action_group(a).len() > 0,
{
    reveal_strlit("Tuning");
    reveal_strlit("Receive");
    reveal_strlit("Transmit");
    reveal_strlit("Display");
    reveal_strlit("Windows");
    reveal_strlit("Speech");
    reveal_strlit("Tune VFO");
    reveal_strlit("RIT offset");
    reveal_strlit("XIT offset");
    reveal_strlit("Volume");
    reveal_strlit("Sub-RX volume");
    reveal_strlit("Squelch");
    reveal_strlit("Filter width");
    reveal_strlit("Filter shift");
    reveal_strlit("AGC max gain");
    reveal_strlit("Manual gain (AGC off)");
    reveal_strlit("TX drive");
    reveal_strlit("Tune drive");
    reveal_strlit("Mic gain");
    reveal_strlit("Digi audio offset");
    reveal_strlit("Spectrum zoom");
    reveal_strlit("Spectrum pan");
    reveal_strlit("Spectrum floor");
    reveal_strlit("Spectrum ceiling");
    reveal_strlit("PTT");
    reveal_strlit("TUNE carrier");
    reveal_strlit("Mute");
    reveal_strlit("Noise blanker");
    reveal_strlit("Noise reduction (cycle)");
    reveal_strlit("Auto notch");
    reveal_strlit("Binaural audio");
    reveal_strlit("AGC (cycle)");
    reveal_strlit("Sub receiver");
    reveal_strlit("Split");
    reveal_strlit("RIT on/off");
    reveal_strlit("XIT on/off");
    reveal_strlit("RIT clear");
    reveal_strlit("XIT clear");
    reveal_strlit("VFO A/B toggle");
    reveal_strlit("Swap A↔B");
    reveal_strlit("Copy A→B");
    reveal_strlit("Band up");
    reveal_strlit("Band down");
    reveal_strlit("Mode next");
    reveal_strlit("Mode previous");
    reveal_strlit("Record on/off");
    reveal_strlit("Abort transmit");
    reveal_strlit("CW straight key");
    reveal_strlit("Voice keyer stop");
    reveal_strlit("1750 Hz tone burst");
    reveal_strlit("Fit span");
    reveal_strlit("Zoom in");
    reveal_strlit("Zoom out");
    reveal_strlit("Peak hold");
    reveal_strlit("Collapse spectrum");
    reveal_strlit("Collapse waterfall");
    reveal_strlit("Flip waterfall");
    reveal_strlit("Manual window");
    reveal_strlit("Settings window");
    reveal_strlit("Logbook window");
    reveal_strlit("Spots window");
    reveal_strlit("Memories window");
    reveal_strlit("Voice keyer window");
    reveal_strlit("Speak status");
    reveal_strlit("Repeat last announcement");
    reveal_strlit("Stop speaking");
    reveal_strlit("Announcements on/off");
    reveal_strlit("Select VFO ");
    reveal_strlit("Band ");
    reveal_strlit("Mode ");
    reveal_strlit("Recall memory ");
    reveal_strlit("Voice keyer slot ");
}

/// How a button-shaped input drives a momentary action.
#[derive(Debug, Clone, Copy, PartialEq, Eq, Structural)]
pub enum ButtonMode {
    /// Hold-to-act: press asserts, release de-asserts. Required for PTT.
    Momentary,
    /// Press flips the current state; release is ignored.
    Toggle,
}

impl Default for ButtonMode {
    fn default() -> (m: ButtonMode)
        ensures
            m == ButtonMode::Momentary,
    {
        ButtonMode::Momentary
    }
}

impl ButtonMode {
    pub fn label(self) -> (s: &'static str)
        ensures
            s@ == (match self {
                ButtonMode::Momentary => "Hold"@,
                ButtonMode::Toggle => "Toggle"@,
            }),
    {
        match self {
            ButtonMode::Momentary => "Hold",
            ButtonMode::Toggle => "Toggle",
        }
    }
}

/// A keyboard chord: a key by its platform name ("ArrowRight", "F",
/// "Space") and the modifiers held with it. `ctrl` means Ctrl, or the command
/// key on macOS.
#[derive(Debug, Clone)]
pub struct KeyChord {
    pub key: String,
    pub ctrl: bool,
    pub shift: bool,
    pub alt: bool,
}

impl PartialEq for KeyChord {
    fn eq(&self, other: &Self) -> (r: bool) {
        self.key == other.key && self.ctrl == other.ctrl && self.shift == other.shift && self.alt
            == other.alt
    }
}

impl vstd::std_specs::cmp::PartialEqSpecImpl for KeyChord {
    open spec fn obeys_eq_spec() -> bool {
        true
    }

    open spec fn eq_spec(&self, other: &Self) -> bool {
        &&& self.key@ == other.key@
        &&& self.ctrl == other.ctrl
        &&& self.shift == other.shift
        &&& self.alt == other.alt
    }
}

impl Eq for KeyChord {}

impl Default for KeyChord {
    fn default() -> (c: KeyChord)
        ensures
            c.key@ == Seq::<char>::empty(),
            !c.ctrl,
            !c.shift,
            !c.alt,
    {
        KeyChord { key: String::new(), ctrl: false, shift: false, alt: false }
    }
}

/// The human-readable form of a chord: `Ctrl+`, `Alt+` and `Shift+` in that
/// order, then the key; a dash for a chord with no key.
pub open spec fn chord_label(c: KeyChord) -> Seq<char> {
    if c.key@.len() == 0 {
        "—"@
    } else {
        (if c.ctrl {
            "Ctrl+"@
        } else {
            Seq::empty()
        }) + (if c.alt {
            "Alt+"@
        } else {
            Seq::empty()
        }) + (if c.shift {
            "Shift+"@
        } else {
            Seq::empty()
        }) + c.key@
    }
}

impl KeyChord {
    /// The key alone.
    pub fn plain(key: &str) -> (c: KeyChord)
        ensures
            c.key@ == key@,
            !c.ctrl,
            !c.shift,
            !c.alt,
    {
        KeyChord { key: key.to_owned(), ctrl: false, shift: false, alt: false }
    }

    /// The key with Shift.
    pub fn shift(key: &str) -> (c: KeyChord)
        ensures
            c.key@ == key@,
            !c.ctrl,
            c.shift,
            !c.alt,
    {
        KeyChord { key: key.to_owned(), ctrl: false, shift: true, alt: false }
    }

    pub fn is_empty(&self) -> (b: bool)
        ensures
            b == (self.key@.len() == 0),
    {
        self.key.as_str().is_empty()
    }

    /// Human-readable form, e.g. `Shift+ArrowRight`.
    pub fn label(&self) -> (s: String)
        ensures
            s@ == chord_label(*self),
    {
        if self.key.as_str().is_empty() {
            return "—".to_owned();
        }
        let mut s = String::new();
        if self.ctrl {
            s.append("Ctrl+");
        }
        if self.alt {
            s.append("Alt+");
        }
        if self.shift {
            s.append("Shift+");
        }
        s.append(self.key.as_str());
        proof {
            assert(s@ =~= chord_label(*self));
        }
        s
    }

    /// A copy with the same key and modifiers.
    pub fn copy(&self) -> (c: KeyChord)
        ensures
            c == *self,
    {
        KeyChord { key: self.key.clone(), ctrl: self.ctrl, shift: self.shift, alt: self.alt }
    }
}

/// Per-binding scaling, shared by every transport. `step` and `accel` are the
/// bits of an `f32`.
#[derive(Debug, Clone, Copy, PartialEq, Eq, Structural)]
pub struct BindingTuning {
    /// Units per detent.
    pub step: u32,
    /// Speed sensitivity; 0 is linear.
    pub accel: u32,
    pub invert: bool,
}

impl Default for BindingTuning {
    fn default() -> (t: BindingTuning)
        ensures
            t.step == 0x3F800000,
            t.accel == 0,
            !t.invert,
    {
        BindingTuning { step: 0x3F800000, accel: 0, invert: false }
    }
}

impl BindingTuning {
    /// A linear tuning of `step` (the bits of an `f32`) per detent.
    pub fn with_step(step: u32) -> (t: BindingTuning)
        ensures
            t.step == step,
            t.accel == 0,
            !t.invert,
    {
        BindingTuning { step, accel: 0, invert: false }
    }
}

/// A key bound to an action. `value`, the delta a press of a continuous
/// action emits, is the bits of an `f32`.
#[derive(Debug, Clone)]
pub struct KeyBinding {
    pub chord: KeyChord,
    pub action: Action,
    pub value: u32,
    pub tuning: BindingTuning,
    pub button: ButtonMode,
    pub enabled: bool,
}

impl PartialEq for KeyBinding {
    fn eq(&self, other: &Self) -> (r: bool) {
        self.chord == other.chord && self.action == other.action && self.value == other.value
            && self.tuning == other.tuning && self.button == other.button && self.enabled
            == other.enabled
    }
}

impl vstd::std_specs::cmp::PartialEqSpecImpl for KeyBinding {
    open spec fn obeys_eq_spec() -> bool {
        true
    }

    open spec fn eq_spec(&self, other: &Self) -> bool {
        &&& self.chord.key@ == other.chord.key@
        &&& self.chord.ctrl == other.chord.ctrl
        &&& self.chord.shift == other.chord.shift
        &&& self.chord.alt == other.chord.alt
        &&& self.action == other.action
        &&& self.value == other.value
        &&& self.tuning == other.tuning
        &&& self.button == other.button
        &&& self.enabled == other.enabled
    }
}

/// Whether `b` is the enabled binding of a plain or shifted `key` to
/// `action`, emitting `value` with a linear `step`, in `button` mode.
pub open spec fn binding_is(
    b: KeyBinding,
    key: Seq<char>,
    shift: bool,
    action: Action,
    value: u32,
    step: u32,
    button: ButtonMode,
) -> bool {
    &&& b.chord.key@ == key
    &&& !b.chord.ctrl
    &&& b.chord.shift == shift
    &&& !b.chord.alt
    &&& b.action == action
    &&& b.value == value
    &&& b.tuning == BindingTuning { step, accel: 0, invert: false }
    &&& b.button == button
    &&& b.enabled
}

/// The key a voice-keyer slot ships on: slot 0 on "1" to slot 8 on "9", and
/// slot 9 on "0".
pub open spec fn voice_slot_key(slot: int) -> Seq<char> {
    decimal(((slot + 1) % 10) as nat)
}

/// The shipped key bindings: the arrow and page keys tune, M, N, F and V
/// toggle mute, the noise blanker, fit-span and the waterfall flip, Space is
/// the CW straight key, the digits play the voice-keyer slots and Minus stops
/// them. PTT is deliberately not bound.
pub open spec fn shipped_keys(v: Seq<KeyBinding>) -> bool {
    &&& v.len() == 14 + VOICE_SLOTS
    &&& binding_is(v[0], "ArrowRight"@, false, Action::Tune, 0x3F800000, 0x42C80000, ButtonMode::Momentary)
    &&& binding_is(v[1], "ArrowLeft"@, false, Action::Tune, 0xBF800000, 0x42C80000, ButtonMode::Momentary)
    &&& binding_is(v[2], "ArrowRight"@, true, Action::Tune, 0x3F800000, 0x41200000, ButtonMode::Momentary)
    &&& binding_is(v[3], "ArrowLeft"@, true, Action::Tune, 0xBF800000, 0x41200000, ButtonMode::Momentary)
    &&& binding_is(v[4], "ArrowUp"@, false, Action::Tune, 0x3F800000, 0x447A0000, ButtonMode::Momentary)
    &&& binding_is(v[5], "ArrowDown"@, false, Action::Tune, 0xBF800000, 0x447A0000, ButtonMode::Momentary)
    &&& binding_is(v[6], "PageUp"@, false, Action::Tune, 0x3F800000, 0x461C4000, ButtonMode::Momentary)
    &&& binding_is(v[7], "PageDown"@, false, Action::Tune, 0xBF800000, 0x461C4000, ButtonMode::Momentary)
    &&& binding_is(v[8], "M"@, false, Action::Mute, 0x3F800000, default_step_bits(Action::Mute), ButtonMode::Toggle)
    &&& binding_is(v[9], "N"@, false, Action::NoiseBlanker, 0x3F800000, default_step_bits(Action::NoiseBlanker), ButtonMode::Toggle)
    &&& binding_is(v[10], "F"@, false, Action::FitSpan, 0x3F800000, default_step_bits(Action::FitSpan), ButtonMode::Toggle)
    &&& binding_is(v[11], "V"@, false, Action::WaterfallFlip, 0x3F800000, default_step_bits(Action::WaterfallFlip), ButtonMode::Toggle)
    &&& binding_is(v[12], "Space"@, false, Action::CwStraight, 0x3F800000, default_step_bits(Action::CwStraight), ButtonMode::Momentary)
    &&& forall|i: int| 13 <= i < 13 + VOICE_SLOTS ==> binding_is(#[trigger] v[i], voice_slot_key(i - 13), false, Action::VoicePlay((i - 13) as u8), 0x3F800000, default_step_bits(Action::VoicePlay((i - 13) as u8)), ButtonMode::Toggle)
    &&& binding_is(v[13 + VOICE_SLOTS], "Minus"@, false, Action::VoiceStop, 0x3F800000, default_step_bits(Action::VoiceStop), ButtonMode::Toggle)
}

/// PTT never ships bound: keying the rig is something the operator opts
/// into.
pub proof fn law_ptt_never_ships_bound(v: Seq<KeyBinding>)
    requires
        shipped_keys(v),
    ensures
        !binds(v, Action::Ptt),
{
    assert forall|i: int| 0 <= i < v.len() implies (#[trigger] v[i]).action != Action::Ptt by {
        if 13 <= i < 13 + VOICE_SLOTS {
            assert(binding_is(v[i], voice_slot_key(i - 13), false, Action::VoicePlay((i - 13) as u8), 0x3F800000, default_step_bits(Action::VoicePlay((i - 13) as u8)), ButtonMode::Toggle));
        }
    }
}

/// Every voice-keyer slot ships on exactly one key.
pub proof fn law_each_voice_slot_ships_once(v: Seq<KeyBinding>, slot: u8)
    requires
        shipped_keys(v),
        slot < VOICE_SLOTS,
    ensures
        exists|i: int| 0 <= i < v.len() && (#[trigger] v[i]).action == Action::VoicePlay(slot),
        forall|i: int, j: int|
            0 <= i < v.len() && 0 <= j < v.len() && (#[trigger] v[i]).action == Action::VoicePlay(
                slot,
            ) && (#[trigger] v[j]).action == Action::VoicePlay(slot) ==> i == j,
{
    let k = 13 + slot as int;
    assert(binding_is(v[k], voice_slot_key(k - 13), false, Action::VoicePlay((k - 13) as u8), 0x3F800000, default_step_bits(Action::VoicePlay((k - 13) as u8)), ButtonMode::Toggle));
    assert forall|i: int| 0 <= i < v.len() && (#[trigger] v[i]).action == Action::VoicePlay(slot) implies i == k by {
        if 13 <= i < 13 + VOICE_SLOTS {
            assert(binding_is(v[i], voice_slot_key(i - 13), false, Action::VoicePlay((i - 13) as u8), 0x3F800000, default_step_bits(Action::VoicePlay((i - 13) as u8)), ButtonMode::Toggle));
        }
    }
}

impl Default for KeyBinding {
    fn default() -> (b: KeyBinding)
        ensures
            binding_is(b, Seq::empty(), false, Action::Tune, 0x3F800000, default_step_bits(Action::Tune), ButtonMode::Momentary),
    {
        KeyBinding {
            chord: KeyChord::default(),
            action: Action::Tune,
            value: 0x3F800000,
            tuning: BindingTuning::with_step(Action::Tune.default_step()),
            button: ButtonMode::Momentary,
            enabled: true,
        }
    }
}

impl KeyBinding {
    fn tune(chord: KeyChord, value: u32, step: u32) -> (b: KeyBinding)
        ensures
            b.chord == chord,
            b.action == Action::Tune,
            b.value == value,
            b.tuning == (BindingTuning { step, accel: 0, invert: false }),
            b.button == ButtonMode::Momentary,
            b.enabled,
    {
        KeyBinding {
            chord,
            action: Action::Tune,
            value,
            tuning: BindingTuning::with_step(step),
            button: ButtonMode::Momentary,
            enabled: true,
        }
    }

    fn toggle(chord: KeyChord, action: Action) -> (b: KeyBinding)
        ensures
            b.chord == chord,
            b.action == action,
            b.value == 0x3F800000,
            b.tuning == (BindingTuning { step: default_step_bits(action), accel: 0, invert: false }),
            b.button == ButtonMode::Toggle,
            b.enabled,
    {
        KeyBinding {
            chord,
            action,
            value: 0x3F800000,
            tuning: BindingTuning::with_step(action.default_step()),
            button: ButtonMode::Toggle,
            enabled: true,
        }
    }

    /// Hold to act, release to stop.
    fn momentary(chord: KeyChord, action: Action) -> (b: KeyBinding)
        ensures
            b.chord == chord,
            b.action == action,
            b.value == 0x3F800000,
            b.tuning == (BindingTuning { step: default_step_bits(action), accel: 0, invert: false }),
            b.button == ButtonMode::Momentary,
            b.enabled,
    {
        KeyBinding {
            chord,
            action,
            value: 0x3F800000,
            tuning: BindingTuning::with_step(action.default_step()),
            button: ButtonMode::Momentary,
            enabled: true,
        }
    }

    /// A copy of every field.
    pub fn copy(&self) -> (b: KeyBinding)
        ensures
            b == *self,
    {
        KeyBinding {
            chord: self.chord.copy(),
            action: self.action,
            value: self.value,
            tuning: self.tuning,
            button: self.button,
            enabled: self.enabled,
        }
    }

    /// The shipped defaults (see [`shipped_keys`]).
    pub fn defaults() -> (v: Vec<KeyBinding>)
        ensures
            shipped_keys(v@),
    {
        let mut v: Vec<KeyBinding> = vec![
            KeyBinding::tune(KeyChord::plain("ArrowRight"), 0x3F800000, 0x42C80000),
            KeyBinding::tune(KeyChord::plain("ArrowLeft"), 0xBF800000, 0x42C80000),
            KeyBinding::tune(KeyChord::shift("ArrowRight"), 0x3F800000, 0x41200000),
            KeyBinding::tune(KeyChord::shift("ArrowLeft"), 0xBF800000, 0x41200000),
            KeyBinding::tune(KeyChord::plain("ArrowUp"), 0x3F800000, 0x447A0000),
            KeyBinding::tune(KeyChord::plain("ArrowDown"), 0xBF800000, 0x447A0000),
            KeyBinding::tune(KeyChord::plain("PageUp"), 0x3F800000, 0x461C4000),
            KeyBinding::tune(KeyChord::plain("PageDown"), 0xBF800000, 0x461C4000),
            KeyBinding::toggle(KeyChord::plain("M"), Action::Mute),
            KeyBinding::toggle(KeyChord::plain("N"), Action::NoiseBlanker),
            KeyBinding::toggle(KeyChord::plain("F"), Action::FitSpan),
            KeyBinding::toggle(KeyChord::plain("V"), Action::WaterfallFlip),
            KeyBinding::momentary(KeyChord::plain("Space"), Action::CwStraight),
        ];
        let ghost head = v@;
        let mut slot: u8 = 0;
        while slot < VOICE_SLOTS
            invariant
                slot <= VOICE_SLOTS,
                v@.len() == 13 + slot,
                forall|i: int| 0 <= i < 13 ==> v@[i] == head[i],
                forall|i: int| 13 <= i < 13 + slot ==> binding_is(#[trigger] v@[i], voice_slot_key(i - 13), false, Action::VoicePlay((i - 13) as u8), 0x3F800000, default_step_bits(Action::VoicePlay((i - 13) as u8)), ButtonMode::Toggle),
            decreases VOICE_SLOTS - slot,
        {
            let digit: u32 = ((slot + 1) % 10) as u32;
            let mut key = String::new();
            push_decimal(&mut key, digit);
            assert(key@ =~= voice_slot_key(slot as int));
            let chord = KeyChord { key, ctrl: false, shift: false, alt: false };
            v.push(KeyBinding::toggle(chord, Action::VoicePlay(slot)));
            slot = slot + 1;
        }
        v.push(KeyBinding::toggle(KeyChord::plain("Minus"), Action::VoiceStop));
        v
    }
}

/// What the wheel does over the panadapter.
#[derive(Debug, Clone, Copy, PartialEq, Eq, Structural)]
pub enum WheelAction {
    Zoom,
    Tune,
    /// The wheel does nothing.
    Nothing,
}

impl WheelAction {
    pub fn label(self) -> (s: &'static str)
        ensures
            s@ == (match self {
                WheelAction::Zoom => "Zoom"@,
                WheelAction::Tune => "Tune"@,
                WheelAction::Nothing => "Nothing"@,
            }),
    {
        match self {
            WheelAction::Zoom => "Zoom",
            WheelAction::Tune => "Tune",
            WheelAction::Nothing => "Nothing",
        }
    }
}

/// Panadapter pointer behaviour. The steps and the zoom rate are the bits of
/// the `f64` and `f32` they are.
#[derive(Debug, Clone, Copy, PartialEq, Eq, Structural)]
pub struct WheelSettings {
    pub wheel: WheelAction,
    /// What the wheel does with Shift held.
    pub wheel_shift: WheelAction,
    pub invert: bool,
    /// Hz per wheel detent when the wheel tunes (`f64`).
    pub tune_step_hz: u64,
    /// Zoom rate multiplier (`f32`); 1.0 is the shipped feel.
    pub zoom_rate: u32,
    /// Rounding applied by click-to-tune (`f64`).
    pub click_tune_step_hz: u64,
    /// Left-drag on the panadapter drags the tuning along with the view.
    pub drag_tunes: bool,
    /// Per-digit scroll stepping on the frequency readout.
    pub digit_wheel: bool,
}

impl Default for WheelSettings {
    fn default() -> (w: WheelSettings)
        ensures
            w == (WheelSettings {
                wheel: WheelAction::Zoom,
                wheel_shift: WheelAction::Tune,
                invert: false,
                tune_step_hz: 0x4059000000000000,
                zoom_rate: 0x3F800000,
                click_tune_step_hz: 0x4024000000000000,
                drag_tunes: true,
                digit_wheel: true,
            }),
    {
        WheelSettings {
            wheel: WheelAction::Zoom,
            wheel_shift: WheelAction::Tune,
            invert: false,
            tune_step_hz: 0x4059000000000000,
            zoom_rate: 0x3F800000,
            click_tune_step_hz: 0x4024000000000000,
            drag_tunes: true,
            digit_wheel: true,
        }
    }
}

/// Mouse buttons that can carry a binding. The primary and secondary buttons
/// are reserved for tuning and panning the panadapter.
#[derive(Debug, Clone, Copy, PartialEq, Eq, Structural)]
pub enum MouseButton {
    Middle,
    Extra1,
    Extra2,
}

impl MouseButton {
    pub fn label(self) -> (s: &'static str)
        ensures
            s@ == (match self {
                MouseButton::Middle => "Middle"@,
                MouseButton::Extra1 => "Back (extra 1)"@,
                MouseButton::Extra2 => "Forward (extra 2)"@,
            }),
    {
        match self {
            MouseButton::Middle => "Middle",
            MouseButton::Extra1 => "Back (extra 1)",
            MouseButton::Extra2 => "Forward (extra 2)",
        }
    }
}

/// A mouse button bound to an action.
#[derive(Debug, Clone, Copy, PartialEq, Eq, Structural)]
pub struct MouseButtonBinding {
    pub button: MouseButton,
    pub action: Action,
    pub tuning: BindingTuning,
    pub button_mode: ButtonMode,
    pub enabled: bool,
}

impl Default for MouseButtonBinding {
    fn default() -> (b: MouseButtonBinding)
        ensures
            b == (MouseButtonBinding {
                button: MouseButton::Middle,
                action: Action::Ptt,
                tuning: BindingTuning { step: 0x3F800000, accel: 0, invert: false },
                button_mode: ButtonMode::Momentary,
                enabled: true,
            }),
    {
        MouseButtonBinding {
            button: MouseButton::Middle,
            action: Action::Ptt,
            tuning: BindingTuning::default(),
            button_mode: ButtonMode::Momentary,
            enabled: true,
        }
    }
}

// ── MIDI ────────────────────────────────────────────────────────────────────

/// The MIDI message class a binding matches.
#[derive(Debug, Clone, Copy, PartialEq, Eq, Hash, Structural)]
pub enum MidiMsgKind {
    Note,
    Cc,
    PitchBend,
    ProgramChange,
}

/// The name a message class is shown by.
pub open spec fn msg_kind_label(k: MidiMsgKind) -> Seq<char> {
    match k {
        MidiMsgKind::Note => "Note"@,
        MidiMsgKind::Cc => "CC"@,
        MidiMsgKind::PitchBend => "Pitch bend"@,
        MidiMsgKind::ProgramChange => "Program"@,
    }
}

impl MidiMsgKind {
    pub fn label(self) -> (s: &'static str)
        ensures
            s@ == msg_kind_label(self),
    {
        match self {
            MidiMsgKind::Note => "Note",
            MidiMsgKind::Cc => "CC",
            MidiMsgKind::PitchBend => "Pitch bend",
            MidiMsgKind::ProgramChange => "Program",
        }
    }
}

/// Matches every channel.
pub const ANY_CHANNEL: u8 = 0xFF;

/// The identity of one physical control on a MIDI surface.
#[derive(Debug, Clone, Copy, PartialEq, Eq, Hash, Structural)]
pub struct MidiMsg {
    pub kind: MidiMsgKind,
    /// 0..=15, or [`ANY_CHANNEL`] to match every channel (omni).
    pub channel: u8,
    /// Note number or CC number. Unused for pitch bend.
    pub data1: u8,
}

impl Default for MidiMsg {
    fn default() -> (m: MidiMsg)
        ensures
            m == (MidiMsg { kind: MidiMsgKind::Cc, channel: ANY_CHANNEL, data1: 0 }),
    {
        MidiMsg { kind: MidiMsgKind::Cc, channel: ANY_CHANNEL, data1: 0 }
    }
}

/// Whether `other` is the control `m` names: the same class, on the same
/// channel unless either is omni, and the same number unless it is pitch
/// bend, which has none.
pub open spec fn msg_matches(m: MidiMsg, other: MidiMsg) -> bool {
    &&& m.kind == other.kind
    &&& (m.channel == ANY_CHANNEL || other.channel == ANY_CHANNEL || m.channel == other.channel)
    &&& (m.kind == MidiMsgKind::PitchBend || m.data1 == other.data1)
}

/// How a message is shown: its class, its number unless pitch bend, and its
/// channel counted from 1, or "any".
pub open spec fn msg_label(m: MidiMsg) -> Seq<char> {
    let ch = if m.channel == ANY_CHANNEL {
        "any"@
    } else {
        decimal((m.channel + 1) as nat)
    };
    match m.kind {
        MidiMsgKind::PitchBend => "Pitch bend  ch "@ + ch,
        k => msg_kind_label(k) + " "@ + decimal(m.data1 as nat) + "  ch "@ + ch,
    }
}

impl MidiMsg {
    pub const ANY_CHANNEL: u8 = 0xFF;

    /// Whether an incoming control matches this binding's identity.
    pub fn matches(&self, other: &MidiMsg) -> (b: bool)
        ensures
            b == msg_matches(*self, *other),
    {
        if self.kind != other.kind {
            return false;
        }
        if self.channel != ANY_CHANNEL && other.channel != ANY_CHANNEL && self.channel
            != other.channel {
            return false;
        }
        self.kind == MidiMsgKind::PitchBend || self.data1 == other.data1
    }

    pub fn label(&self) -> (s: String)
        ensures
            s@ == msg_label(*self),
    {
        let mut ch = String::new();
        if self.channel == ANY_CHANNEL {
            ch.append("any");
        } else {
            push_decimal(&mut ch, self.channel as u32 + 1);
        }
        let mut s = String::new();
        match self.kind {
            MidiMsgKind::PitchBend => {
                s.append("Pitch bend  ch ");
            },
            k => {
                s.append(k.label());
                s.append(" ");
                push_decimal(&mut s, self.data1 as u32);
                s.append("  ch ");
            },
        }
        s.append(ch.as_str());
        proof {
            assert(s@ =~= msg_label(*self));
        }
        s
    }
}

/// Matching does not depend on which side is the binding: a binding matches
/// a control exactly when the control, as a binding, would match it.
pub proof fn law_matching_is_symmetric(a: MidiMsg, b: MidiMsg)
    ensures
        msg_matches(a, b) == msg_matches(b, a),
{
}

/// An omni binding matches its control on every channel.
pub proof fn law_omni_matches_every_channel(m: MidiMsg, channel: u8)
    requires
        m.channel == ANY_CHANNEL,
    ensures
        msg_matches(m, MidiMsg { channel, ..m }),
{
}

/// How a 7-bit value from an endless (relative) encoder is decoded.
#[derive(Debug, Clone, Copy, PartialEq, Eq, Structural)]
pub enum RelativeMode {
    /// Absolute fader or knob: 0..=127 maps onto the full range.
    Absolute,
    /// Signed bit: `0x01..=0x3F` is +n, `0x41..=0x7F` is -(v - 0x40).
    SignMagnitude,
    /// Two's complement: 1..=63 is +n, 127..=65 is -(128 - v).
    TwosComplement,
    /// Binary offset centred on 64: v - 64.
    BinaryOffset,
}

impl Default for RelativeMode {
    fn default() -> (m: RelativeMode)
        ensures
            m == RelativeMode::Absolute,
    {
        RelativeMode::Absolute
    }
}

/// The signed detent count `v` (its low seven bits) stands for under `m`;
/// `None` for an absolute control.
pub open spec fn decode_spec(m: RelativeMode, v: u8) -> Option<i8> {
    let v = v & 0x7f;
    match m {
        RelativeMode::Absolute => None,
        RelativeMode::SignMagnitude => Some(if 0x01 <= v <= 0x3f {
            v as i8
        } else if 0x41 <= v <= 0x7f {
            -(v - 0x40) as i8
        } else {
            0i8
        }),
        RelativeMode::TwosComplement => Some(if 1 <= v <= 63 {
            v as i8
        } else if 65 <= v <= 127 {
            -(128 - v) as i8
        } else {
            0i8
        }),
        RelativeMode::BinaryOffset => Some((v - 64) as i8),
    }
}

/// How many of `values` lie in `lo..=hi`.
pub open spec fn count_in(values: Seq<u8>, lo: u8, hi: u8) -> nat
    decreases values.len(),
{
    if values.len() == 0 {
        0
    } else {
        count_in(values.drop_last(), lo, hi) + if lo <= values.last() <= hi {
            1nat
        } else {
            0nat
        }
    }
}

/// The encoding a burst of values captured during LEARN most likely came
/// from. Sign/magnitude and binary offset cannot be told apart on small
/// values; nothing but 65..=72 reads as a clockwise binary-offset turn.
pub open spec fn guess_spec(values: Seq<u8>) -> RelativeMode {
    let small_pos = count_in(values, 1, 8);
    let high_wrap = count_in(values, 120, 127);
    let low_neg = count_in(values, 65, 72);
    let near_below = count_in(values, 56, 63);
    if values.len() < 2 {
        RelativeMode::Absolute
    } else if near_below > 0 && count_in(values, 56, 72) == values.len() {
        RelativeMode::BinaryOffset
    } else if high_wrap > 0 && high_wrap == values.len() - small_pos {
        RelativeMode::TwosComplement
    } else if small_pos > 0 && low_neg == values.len() - small_pos {
        RelativeMode::SignMagnitude
    } else if low_neg == values.len() {
        RelativeMode::BinaryOffset
    } else {
        RelativeMode::Absolute
    }
}

fn count_range(values: &[u8], lo: u8, hi: u8) -> (n: usize)
    ensures
        n == count_in(values@, lo, hi),
        n <= values@.len(),
{
    let mut n: usize = 0;
    let mut i: usize = 0;
    while i < values.len()
        invariant
            i <= values@.len(),
            n == count_in(values@.take(i as int), lo, hi),
            n <= i,
        decreases values@.len() - i,
    {
        assert(values@.take(i + 1).drop_last() =~= values@.take(i as int));
        if lo <= values[i] && values[i] <= hi {
            n = n + 1;
        }
        i = i + 1;
    }
    assert(values@.take(values@.len() as int) =~= values@);
    n
}

impl RelativeMode {
    pub fn label(self) -> (s: &'static str)
        ensures
            s@ == (match self {
                RelativeMode::Absolute => "Absolute (fader)"@,
                RelativeMode::SignMagnitude => "Relative: sign/magnitude"@,
                RelativeMode::TwosComplement => "Relative: two's complement"@,
                RelativeMode::BinaryOffset => "Relative: 64-centred"@,
            }),
    {
        match self {
            RelativeMode::Absolute => "Absolute (fader)",
            RelativeMode::SignMagnitude => "Relative: sign/magnitude",
            RelativeMode::TwosComplement => "Relative: two's complement",
            RelativeMode::BinaryOffset => "Relative: 64-centred",
        }
    }

    pub fn is_relative(self) -> (b: bool)
        ensures
            b == (self != RelativeMode::Absolute),
    {
        !matches!(self, RelativeMode::Absolute)
    }

    /// Signed detent count for a relative encoding. `None` for
    /// [`RelativeMode::Absolute`].
    pub fn decode(self, v: u8) -> (r: Option<i8>)
        ensures
            r == decode_spec(self, v),
    {
        let w = v & 0x7F;
        assert(w <= 0x7f) by (bit_vector)
            requires
                w == v & 0x7F,
        ;
        let v = w;
        match self {
            RelativeMode::Absolute => None,
            RelativeMode::SignMagnitude => Some(if 0x01 <= v && v <= 0x3F {
                v as i8
            } else if 0x41 <= v && v <= 0x7F {
                -((v - 0x40) as i8)
            } else {
                0
            }),
            RelativeMode::TwosComplement => Some(if 1 <= v && v <= 63 {
                v as i8
            } else if 65 <= v && v <= 127 {
                -((128 - v) as i8)
            } else {
                0
            }),
            RelativeMode::BinaryOffset => Some(v as i8 - 64),
        }
    }

    /// Best guess at the encoding behind a burst of values captured while the
    /// operator turned a control during LEARN.
    pub fn guess(values: &[u8]) -> (m: RelativeMode)
        ensures
            m == guess_spec(values@),
    {
        if values.len() < 2 {
            return RelativeMode::Absolute;
        }
        let small_pos = count_range(values, 1, 8);
        let high_wrap = count_range(values, 120, 127);
        let low_neg = count_range(values, 65, 72);
        let near_below = count_range(values, 56, 63);
        if near_below > 0 && count_range(values, 56, 72) == values.len() {
            return RelativeMode::BinaryOffset;
        }
        if high_wrap > 0 && high_wrap == values.len() - small_pos {
            return RelativeMode::TwosComplement;
        }
        if small_pos > 0 && low_neg == values.len() - small_pos {
            return RelativeMode::SignMagnitude;
        }
        if low_neg == values.len() {
            return RelativeMode::BinaryOffset;
        }
        RelativeMode::Absolute
    }
}

proof fn lemma_count_bound(values: Seq<u8>, lo: u8, hi: u8)
    ensures
        count_in(values, lo, hi) <= values.len(),
        count_in(values, lo, hi) == values.len() ==> forall|k: int|
            0 <= k < values.len() ==> lo <= #[trigger] values[k] <= hi,
        (forall|k: int| 0 <= k < values.len() ==> !(lo <= #[trigger] values[k] <= hi)) ==> count_in(
            values,
            lo,
            hi,
        ) == 0,
        (forall|k: int| 0 <= k < values.len() ==> lo <= #[trigger] values[k] <= hi) ==> count_in(
            values,
            lo,
            hi,
        ) == values.len(),
    decreases values.len(),
{
    if values.len() > 0 {
        let g = values.drop_last();
        lemma_count_bound(g, lo, hi);
        if forall|k: int| 0 <= k < values.len() ==> lo <= #[trigger] values[k] <= hi {
            assert(lo <= values[values.len() - 1] <= hi);
            assert forall|k: int| 0 <= k < g.len() implies lo <= #[trigger] g[k] <= hi by {
                assert(g[k] == values[k]);
            }
        }
        assert forall|k: int| 0 <= k < g.len() implies g[k] == values[k] by {}
        if count_in(values, lo, hi) == values.len() {
            assert forall|k: int| 0 <= k < values.len() implies lo <= #[trigger] values[k] <= hi by {
                if k < g.len() {
                    assert(g[k] == values[k]);
                }
            }
        }
        if forall|k: int| 0 <= k < values.len() ==> !(lo <= #[trigger] values[k] <= hi) {
            assert(!(lo <= values[values.len() - 1] <= hi));
            assert forall|k: int| 0 <= k < g.len() implies !(lo <= #[trigger] g[k] <= hi) by {
                assert(g[k] == values[k]);
            }
        }
    }
}

/// Two counts over ranges that do not overlap make up all the values only
/// where every value lies in one of them.
proof fn lemma_counts_cover(values: Seq<u8>, lo1: u8, hi1: u8, lo2: u8, hi2: u8)
    requires
        hi1 < lo2,
    ensures
        count_in(values, lo1, hi1) + count_in(values, lo2, hi2) <= values.len(),
        count_in(values, lo1, hi1) + count_in(values, lo2, hi2) == values.len() ==> forall|k: int|
            0 <= k < values.len() ==> (lo1 <= #[trigger] values[k] <= hi1 || lo2 <= values[k]
                <= hi2),
    decreases values.len(),
{
    if values.len() > 0 {
        let g = values.drop_last();
        lemma_counts_cover(g, lo1, hi1, lo2, hi2);
        if count_in(values, lo1, hi1) + count_in(values, lo2, hi2) == values.len() {
            assert forall|k: int| 0 <= k < values.len() implies (lo1 <= #[trigger] values[k] <= hi1
                || lo2 <= values[k] <= hi2) by {
                if k < g.len() {
                    assert(g[k] == values[k]);
                }
            }
        }
    }
}

/// Whether `v` is a value a guessed encoding can have come from: a small
/// step either way under one of the relative encodings.
pub open spec fn small_move(v: u8) -> bool {
    1 <= v <= 8 || 56 <= v <= 72 || 120 <= v <= 127
}

/// LEARN only guesses a relative encoding from small moves: fewer than two
/// values, or any value that is no small step under any encoding, reads as
/// absolute; under a guessed encoding every value decodes to a move of at
/// most eight detents; and a clockwise turn on an encoding that cannot be
/// told apart (every value in 65..=72) reads as positive.
pub proof fn law_guess_reads_only_small_moves(values: Seq<u8>)
    ensures
        values.len() < 2 ==> guess_spec(values) == RelativeMode::Absolute,
        (exists|k: int| 0 <= k < values.len() && !small_move(#[trigger] values[k])) ==> guess_spec(
            values,
        ) == RelativeMode::Absolute,
        guess_spec(values) != RelativeMode::Absolute ==> forall|k: int|
            0 <= k < values.len() ==> (decode_spec(guess_spec(values), #[trigger] values[k]) matches Some(
                d,
            ) && -8 <= d <= 8),
        (values.len() >= 2 && forall|k: int| 0 <= k < values.len() ==> 65 <= #[trigger] values[k] <= 72)
            ==> guess_spec(values) == RelativeMode::BinaryOffset && forall|k: int|
            0 <= k < values.len() ==> (decode_spec(RelativeMode::BinaryOffset, #[trigger] values[k])
                matches Some(d) && d > 0),
{
    let m = guess_spec(values);
    let n = values.len();
    lemma_count_bound(values, 56, 72);
    lemma_count_bound(values, 65, 72);
    lemma_counts_cover(values, 1, 8, 120, 127);
    lemma_counts_cover(values, 1, 8, 65, 72);
    let small_pos = count_in(values, 1, 8);
    let high_wrap = count_in(values, 120, 127);
    let low_neg = count_in(values, 65, 72);
    let near_below = count_in(values, 56, 63);
    assert forall|k: int| 0 <= k < n && m != RelativeMode::Absolute implies small_move(
        #[trigger] values[k],
    ) && (decode_spec(m, values[k]) matches Some(d) && -8 <= d <= 8) by {
        let v = values[k];
        assert(v <= 127 ==> v & 0x7f == v) by (bit_vector);
        if n >= 2 && near_below > 0 && count_in(values, 56, 72) == n {
            assert(56 <= v <= 72);
        } else if n >= 2 && high_wrap > 0 && high_wrap == n - small_pos {
            assert(1 <= v <= 8 || 120 <= v <= 127);
        } else if n >= 2 && small_pos > 0 && low_neg == n - small_pos {
            assert(1 <= v <= 8 || 65 <= v <= 72);
        } else if n >= 2 && low_neg == n {
            assert(65 <= v <= 72);
        }
    }
    if n >= 2 && forall|k: int| 0 <= k < n ==> 65 <= #[trigger] values[k] <= 72 {
        lemma_count_bound(values, 56, 63);
        lemma_count_bound(values, 1, 8);
        lemma_count_bound(values, 120, 127);
        assert forall|k: int| 0 <= k < n implies !(56 <= #[trigger] values[k] <= 63) by {}
        assert forall|k: int| 0 <= k < n implies !(1 <= #[trigger] values[k] <= 8) by {}
        assert forall|k: int| 0 <= k < n implies !(120 <= #[trigger] values[k] <= 127) by {}
        assert forall|k: int| 0 <= k < n implies (decode_spec(
            RelativeMode::BinaryOffset,
            #[trigger] values[k],
        ) matches Some(d) && d > 0) by {
            let v = values[k];
            assert(v <= 127 ==> v & 0x7f == v) by (bit_vector);
        }
    }
}

/// A clockwise-only burst of small values (two or more, all in 1..=8) is read
/// as a relative encoder, and each value as that many detents clockwise.
pub proof fn law_a_clockwise_burst_reads_as_relative(values: Seq<u8>)
    requires
        values.len() >= 2,
        forall|k: int| 0 <= k < values.len() ==> 1 <= #[trigger] values[k] <= 8,
    ensures
        guess_spec(values) != RelativeMode::Absolute,
        forall|k: int|
            0 <= k < values.len() ==> decode_spec(guess_spec(values), #[trigger] values[k])
                == Some(values[k] as i8),
{
    let n = values.len();
    lemma_count_bound(values, 1, 8);
    lemma_count_bound(values, 56, 63);
    lemma_count_bound(values, 56, 72);
    lemma_count_bound(values, 65, 72);
    lemma_count_bound(values, 120, 127);
    assert forall|k: int| 0 <= k < n implies !(56 <= #[trigger] values[k] <= 63) by {}
    assert forall|k: int| 0 <= k < n implies !(65 <= #[trigger] values[k] <= 72) by {}
    assert forall|k: int| 0 <= k < n implies !(120 <= #[trigger] values[k] <= 127) by {}
    assert(guess_spec(values) == RelativeMode::SignMagnitude);
    assert forall|k: int| 0 <= k < n implies decode_spec(guess_spec(values), #[trigger] values[k])
        == Some(values[k] as i8) by {
        let v = values[k];
        assert(1 <= v <= 8 ==> v & 0x7f == v) by (bit_vector);
    }
}

/// Each relative encoding reads back every move it can carry: sign/magnitude
/// and two's complement +-1..=63, binary offset -64..=63. An absolute control
/// has no detents.
pub proof fn law_relative_encodings_round_trip(n: u8, k: i8, v: u8)
    ensures
        1 <= n <= 63 ==> decode_spec(RelativeMode::SignMagnitude, n) == Some(n as i8),
        1 <= n <= 63 ==> decode_spec(RelativeMode::SignMagnitude, (0x40 + n) as u8) == Some((-(n as int)) as i8),
        1 <= n <= 63 ==> decode_spec(RelativeMode::TwosComplement, n) == Some(n as i8),
        1 <= n <= 63 ==> decode_spec(RelativeMode::TwosComplement, (128 - n) as u8) == Some((-(n as int)) as i8),
        -64 <= k <= 63 ==> decode_spec(RelativeMode::BinaryOffset, (k + 64) as u8) == Some(k),
        decode_spec(RelativeMode::Absolute, v) is None,
{
    assert(1 <= n <= 63 ==> n & 0x7f == n) by (bit_vector);
    assert(1 <= n <= 63 ==> ((0x40 + n) as u8) & 0x7f == 0x40 + n) by (bit_vector);
    assert(1 <= n <= 63 ==> ((128 - n) as u8) & 0x7f == 128 - n) by (bit_vector);
    let b = (k + 64) as u8;
    assert(-64 <= k <= 63 ==> ((k + 64) as u8) & 0x7f == k + 64) by (bit_vector);
}

/// A MIDI control bound to an action.
#[derive(Debug, Clone, Copy, PartialEq, Eq, Structural)]
pub struct MidiBinding {
    pub msg: MidiMsg,
    pub action: Action,
    pub relative: RelativeMode,
    pub tuning: BindingTuning,
    pub button_mode: ButtonMode,
    /// Echo the resulting state back to the controller.
    pub feedback: bool,
    pub enabled: bool,
}

impl Default for MidiBinding {
    fn default() -> (b: MidiBinding)
        ensures
            b == (MidiBinding {
                msg: MidiMsg { kind: MidiMsgKind::Cc, channel: ANY_CHANNEL, data1: 0 },
                action: Action::Tune,
                relative: RelativeMode::Absolute,
                tuning: BindingTuning { step: default_step_bits(Action::Tune), accel: 0, invert: false },
                button_mode: ButtonMode::Momentary,
                feedback: false,
                enabled: true,
            }),
    {
        MidiBinding {
            msg: MidiMsg::default(),
            action: Action::Tune,
            relative: RelativeMode::default(),
            tuning: BindingTuning::with_step(Action::Tune.default_step()),
            button_mode: ButtonMode::Momentary,
            feedback: false,
            enabled: true,
        }
    }
}

/// The MIDI ports to use, and the bindings.
#[derive(Debug, Clone)]
pub struct MidiSettings {
    pub enabled: bool,
    /// Stable port id; the name is the label, and the fallback when the id
    /// changes across a replug.
    pub in_port_id: String,
    pub in_port_name: String,
    pub out_port_id: String,
    pub out_port_name: String,
    pub bindings: Vec<MidiBinding>,
}

impl Default for MidiSettings {
    fn default() -> (m: MidiSettings)
        ensures
            !m.enabled,
            m.in_port_id@ == Seq::<char>::empty(),
            m.in_port_name@ == Seq::<char>::empty(),
            m.out_port_id@ == Seq::<char>::empty(),
            m.out_port_name@ == Seq::<char>::empty(),
            m.bindings@ == Seq::<MidiBinding>::empty(),
    {
        MidiSettings {
            enabled: false,
            in_port_id: String::new(),
            in_port_name: String::new(),
            out_port_id: String::new(),
            out_port_name: String::new(),
            bindings: Vec::new(),
        }
    }
}

/// The MIDI port selection alone: what the MIDI worker is told. Split out
/// of the settings so that editing a binding never looks like a port change
/// and never interrupts a live connection.
#[derive(Debug, Clone)]
pub struct MidiPorts {
    pub enabled: bool,
    pub in_port_id: String,
    pub in_port_name: String,
    pub out_port_id: String,
    pub out_port_name: String,
}

impl PartialEq for MidiPorts {
    fn eq(&self, other: &Self) -> (r: bool) {
        self.enabled == other.enabled && self.in_port_id == other.in_port_id && self.in_port_name
            == other.in_port_name && self.out_port_id == other.out_port_id && self.out_port_name
            == other.out_port_name
    }
}

impl vstd::std_specs::cmp::PartialEqSpecImpl for MidiPorts {
    open spec fn obeys_eq_spec() -> bool {
        true
    }

    open spec fn eq_spec(&self, other: &Self) -> bool {
        &&& self.enabled == other.enabled
        &&& self.in_port_id@ == other.in_port_id@
        &&& self.in_port_name@ == other.in_port_name@
        &&& self.out_port_id@ == other.out_port_id@
        &&& self.out_port_name@ == other.out_port_name@
    }
}

impl Eq for MidiPorts {}

impl MidiSettings {
    /// The port selection of these settings.
    pub fn ports(&self) -> (p: MidiPorts)
        ensures
            p.enabled == self.enabled,
            p.in_port_id@ == self.in_port_id@,
            p.in_port_name@ == self.in_port_name@,
            p.out_port_id@ == self.out_port_id@,
            p.out_port_name@ == self.out_port_name@,
    {
        MidiPorts {
            enabled: self.enabled,
            in_port_id: self.in_port_id.clone(),
            in_port_name: self.in_port_name.clone(),
            out_port_id: self.out_port_id.clone(),
            out_port_name: self.out_port_name.clone(),
        }
    }
}

// ── Icom RC-28 ──────────────────────────────────────────────────────────────

/// What one of the RC-28's three buttons does.
#[derive(Debug, Clone, Copy, PartialEq, Eq, Structural)]
pub struct Rc28Button {
    pub action: Action,
    pub button_mode: ButtonMode,
    /// Light the LED over the button while its action is on.
    pub led: bool,
    pub enabled: bool,
}

impl Default for Rc28Button {
    fn default() -> (b: Rc28Button)
        ensures
            b == (Rc28Button { action: Action::VfoToggle, button_mode: ButtonMode::Toggle, led: true, enabled: true }),
    {
        Rc28Button::toggle(Action::VfoToggle)
    }
}

impl Rc28Button {
    fn toggle(action: Action) -> (b: Rc28Button)
        ensures
            b == (Rc28Button { action, button_mode: ButtonMode::Toggle, led: true, enabled: true }),
    {
        Rc28Button { action, button_mode: ButtonMode::Toggle, led: true, enabled: true }
    }
}

/// The RC-28: a knob and three buttons, each bound to one action.
#[derive(Debug, Clone, Copy, PartialEq, Eq, Structural)]
pub struct Rc28Settings {
    /// Off until the operator turns it on: TRANSMIT keys the rig.
    pub enabled: bool,
    pub knob: Action,
    /// Per detent of the knob.
    pub knob_tuning: BindingTuning,
    pub transmit: Rc28Button,
    pub f1: Rc28Button,
    pub f2: Rc28Button,
}

impl Default for Rc28Settings {
    /// Off; the knob tunes 10 Hz a detent with acceleration; TRANSMIT is hold
    /// to talk, F-1 toggles the VFO and F-2 split.
    fn default() -> (s: Rc28Settings)
        ensures
            s == (Rc28Settings {
                enabled: false,
                knob: Action::Tune,
                knob_tuning: BindingTuning { step: 0x41200000, accel: 0x3F800000, invert: false },
                transmit: Rc28Button { action: Action::Ptt, button_mode: ButtonMode::Momentary, led: true, enabled: true },
                f1: Rc28Button { action: Action::VfoToggle, button_mode: ButtonMode::Toggle, led: true, enabled: true },
                f2: Rc28Button { action: Action::Split, button_mode: ButtonMode::Toggle, led: true, enabled: true },
            }),
    {
        Rc28Settings {
            enabled: false,
            knob: Action::Tune,
            knob_tuning: BindingTuning { step: 0x41200000, accel: 0x3F800000, invert: false },
            transmit: Rc28Button {
                action: Action::Ptt,
                button_mode: ButtonMode::Momentary,
                led: true,
                enabled: true,
            },
            f1: Rc28Button::toggle(Action::VfoToggle),
            f2: Rc28Button::toggle(Action::Split),
        }
    }
}

/// Everything client-local input control needs.
#[derive(Debug, Clone)]
pub struct InputSettings {
    pub keys: Vec<KeyBinding>,
    pub wheel: WheelSettings,
    pub mouse_buttons: Vec<MouseButtonBinding>,
    /// Unkey a held momentary PTT after this many seconds (`f32` bits); 0
    /// disables the timeout.
    pub ptt_hold_timeout_s: u32,
    pub midi: MidiSettings,
    pub rc28: Rc28Settings,
    /// Which set of shipped defaults this file has already seen.
    pub schema: u32,
}

/// The current shipped-defaults generation.
pub const SCHEMA: u32 = 1;

/// What the schema stamp reads as in a file written before it existed.
pub fn schema_before_stamps() -> (s: u32)
    ensures
        s == 0,
{
    0
}

/// Whether any binding in `keys` drives `action`.
pub open spec fn binds(keys: Seq<KeyBinding>, action: Action) -> bool {
    exists|i: int| 0 <= i < keys.len() && (#[trigger] keys[i]).action == action
}

pub(crate) fn any_binds(keys: &Vec<KeyBinding>, action: Action) -> (b: bool)
    ensures
        b == binds(keys@, action),
{
    let mut i: usize = 0;
    while i < keys.len()
        invariant
            i <= keys@.len(),
            forall|k: int| 0 <= k < i ==> (#[trigger] keys@[k]).action != action,
        decreases keys@.len() - i,
    {
        if keys[i].action == action {
            return true;
        }
        i = i + 1;
    }
    false
}

impl Default for InputSettings {
    fn default() -> (s: InputSettings)
        ensures
            shipped_keys(s.keys@),
            s.wheel == (WheelSettings {
                wheel: WheelAction::Zoom,
                wheel_shift: WheelAction::Tune,
                invert: false,
                tune_step_hz: 0x4059000000000000,
                zoom_rate: 0x3F800000,
                click_tune_step_hz: 0x4024000000000000,
                drag_tunes: true,
                digit_wheel: true,
            }),
            s.mouse_buttons@.len() == 0,
            s.ptt_hold_timeout_s == 0x43960000,
            !s.midi.enabled,
            s.midi.in_port_id@ == Seq::<char>::empty(),
            s.midi.in_port_name@ == Seq::<char>::empty(),
            s.midi.out_port_id@ == Seq::<char>::empty(),
            s.midi.out_port_name@ == Seq::<char>::empty(),
            s.midi.bindings@ == Seq::<MidiBinding>::empty(),
            s.rc28 == (Rc28Settings {
                enabled: false,
                knob: Action::Tune,
                knob_tuning: BindingTuning { step: 0x41200000, accel: 0x3F800000, invert: false },
                transmit: Rc28Button { action: Action::Ptt, button_mode: ButtonMode::Momentary, led: true, enabled: true },
                f1: Rc28Button { action: Action::VfoToggle, button_mode: ButtonMode::Toggle, led: true, enabled: true },
                f2: Rc28Button { action: Action::Split, button_mode: ButtonMode::Toggle, led: true, enabled: true },
            }),
            s.schema == SCHEMA,
    {
        InputSettings {
            keys: KeyBinding::defaults(),
            wheel: WheelSettings::default(),
            mouse_buttons: Vec::new(),
            ptt_hold_timeout_s: 0x43960000,
            midi: MidiSettings::default(),
            rc28: Rc28Settings::default(),
            schema: SCHEMA,
        }
    }
}

/// What bringing `before` up to [`SCHEMA`] makes of it, and whether it had
/// to be touched: a file at the current schema is left alone; an older one
/// is stamped, keeps everything it has, and gains each binding added to the
/// shipped defaults since (the CW straight key on Space, at schema 1) only
/// where nothing binds that action already.
pub open spec fn migration(before: InputSettings, after: InputSettings, touched: bool) -> bool {
    &&& touched == (before.schema < SCHEMA)
    &&& !touched ==> after == before
    &&& touched ==> {
        &&& after.schema == SCHEMA
        &&& after.wheel == before.wheel
        &&& after.mouse_buttons == before.mouse_buttons
        &&& after.ptt_hold_timeout_s == before.ptt_hold_timeout_s
        &&& after.midi == before.midi
        &&& after.rc28 == before.rc28
        &&& binds(before.keys@, Action::CwStraight) ==> after.keys@ == before.keys@
        &&& !binds(before.keys@, Action::CwStraight) ==> {
            &&& after.keys@.len() == before.keys@.len() + 1
            &&& after.keys@.take(before.keys@.len() as int) == before.keys@
            &&& binding_is(after.keys@.last(), "Space"@, false, Action::CwStraight, 0x3F800000, default_step_bits(Action::CwStraight), ButtonMode::Momentary)
        }
    }
}

/// A file is migrated once: whatever the operator then edits, short of the
/// stamp, the next migration touches nothing, so a binding it added and the
/// operator removed does not come back on the next start.
pub proof fn law_a_migrated_file_is_not_migrated_again(
    loaded: InputSettings,
    migrated: InputSettings,
    edited: InputSettings,
    again: InputSettings,
    touched_first: bool,
    touched_again: bool,
)
    requires
        migration(loaded, migrated, touched_first),
        edited.schema == migrated.schema,
        migration(edited, again, touched_again),
    ensures
        !touched_again,
        again == edited,
{
}

impl InputSettings {
    pub const SCHEMA: u32 = 1;

    /// Bring a loaded file up to [`SCHEMA`], reporting whether it had to be
    /// touched, and so whether it is worth writing back.
    ///
    /// A binding added to the shipped defaults since the file's schema (the
    /// CW straight key, at schema 1) is appended, but only where the file has
    /// no binding for that action at all: one the operator moved, disabled
    /// or deleted after the stamp is theirs. The stamp is written even when
    /// nothing was added, since it is what keeps a later deletion deleted.
    pub fn migrate(&mut self) -> (touched: bool)
        ensures
            migration(*old(self), *final(self), touched),
    {
        if self.schema >= SCHEMA {
            return false;
        }
        let shipped = KeyBinding::defaults();
        // Bindings introduced at each schema step: the CW straight key at 1.
        let at: u32 = 1;
        let action = Action::CwStraight;
        if !(self.schema >= at || any_binds(&self.keys, action)) {
            let mut i: usize = 0;
            while i < shipped.len()
                invariant_except_break
                    i <= 12,
                invariant
                    action == Action::CwStraight,
                    shipped@.len() == 14 + VOICE_SLOTS,
                    binding_is(shipped@[12], "Space"@, false, Action::CwStraight, 0x3F800000, default_step_bits(Action::CwStraight), ButtonMode::Momentary),
                    forall|k: int| 0 <= k < 12 ==> (#[trigger] shipped@[k]).action != Action::CwStraight,
                ensures
                    i == 12,
                decreases 12 - i,
            {
                let a = shipped[i].action;
                if a == action {
                    break;
                }
                i = i + 1;
            }
            if i < shipped.len() {
                self.keys.push(shipped[i].copy());
            }
        }
        self.schema = SCHEMA;
        proof {
            if !binds(old(self).keys@, Action::CwStraight) {
                assert(self.keys@.take(old(self).keys@.len() as int) =~= old(self).keys@);
            }
        }
        true
    }
}

} // verus!
