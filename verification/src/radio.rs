//! The radio vocabulary that control actions name: the two VFOs, the bands
//! and the modes.

use vstd::prelude::*;

verus! {

/// How many voice-keyer slots there are.
pub const VOICE_SLOTS: u8 = 10;

/// One of the two VFOs.
#[derive(Debug, Clone, Copy, PartialEq, Eq, Hash, Structural)]
pub enum Vfo {
    A,
    B,
}

/// An amateur band, or general coverage.
#[derive(Debug, Clone, Copy, PartialEq, Eq, Hash, Structural)]
pub enum Band {
    M160,
    M80,
    M60,
    M40,
    M30,
    M20,
    M17,
    M15,
    M12,
    M10,
    M6,
    M4,
    M2,
    M125,
    M70,
    Cm33,
    Cm23,
    Cm13,
    Cm9,
    Cm6,
    Cm3,
    Gen,
}

/// Every band, in order.
pub open spec fn all_bands() -> Seq<Band> {
    seq![Band::M160, Band::M80, Band::M60, Band::M40, Band::M30, Band::M20, Band::M17, Band::M15, Band::M12, Band::M10, Band::M6, Band::M4, Band::M2, Band::M125, Band::M70, Band::Cm33, Band::Cm23, Band::Cm13, Band::Cm9, Band::Cm6, Band::Cm3, Band::Gen]
}

/// The name a band is shown by.
pub open spec fn band_label(x: Band) -> Seq<char> {
    match x {
        Band::M160 => "160m"@,
        Band::M80 => "80m"@,
        Band::M60 => "60m"@,
        Band::M40 => "40m"@,
        Band::M30 => "30m"@,
        Band::M20 => "20m"@,
        Band::M17 => "17m"@,
        Band::M15 => "15m"@,
        Band::M12 => "12m"@,
        Band::M10 => "10m"@,
        Band::M6 => "6m"@,
        Band::M4 => "4m"@,
        Band::M2 => "2m"@,
        Band::M125 => "1.25m"@,
        Band::M70 => "70cm"@,
        Band::Cm33 => "33cm"@,
        Band::Cm23 => "23cm"@,
        Band::Cm13 => "13cm"@,
        Band::Cm9 => "9cm"@,
        Band::Cm6 => "6cm"@,
        Band::Cm3 => "3cm"@,
        Band::Gen => "GEN"@,
    }
}

impl Band {
    /// Every band, in order.
    pub fn all() -> (v: Vec<Band>)
        ensures
            v@ == all_bands(),
    {
        let v = vec![Band::M160, Band::M80, Band::M60, Band::M40, Band::M30, Band::M20, Band::M17, Band::M15, Band::M12, Band::M10, Band::M6, Band::M4, Band::M2, Band::M125, Band::M70, Band::Cm33, Band::Cm23, Band::Cm13, Band::Cm9, Band::Cm6, Band::Cm3, Band::Gen];
        assert(v@ =~= all_bands());
        v
    }

    /// The name the band is shown by.
    pub fn label(self) -> (s: &'static str)
        ensures
            s@ == band_label(self),
    {
        match self {
            Band::M160 => "160m",
            Band::M80 => "80m",
            Band::M60 => "60m",
            Band::M40 => "40m",
            Band::M30 => "30m",
            Band::M20 => "20m",
            Band::M17 => "17m",
            Band::M15 => "15m",
            Band::M12 => "12m",
            Band::M10 => "10m",
            Band::M6 => "6m",
            Band::M4 => "4m",
            Band::M2 => "2m",
            Band::M125 => "1.25m",
            Band::M70 => "70cm",
            Band::Cm33 => "33cm",
            Band::Cm23 => "23cm",
            Band::Cm13 => "13cm",
            Band::Cm9 => "9cm",
            Band::Cm6 => "6cm",
            Band::Cm3 => "3cm",
            Band::Gen => "GEN",
        }
    }
}

/// A demodulation mode.
#[derive(Debug, Clone, Copy, PartialEq, Eq, Hash, Structural)]
pub enum Mode {
    Lsb,
    Usb,
    Cw,
    CwR,
    Am,
    Sam,
    Fm,
    Wfm,
    DigU,
    DigL,
    Drm,
    HdRadio,
    Adsb,
}

/// Every mode, in order.
pub open spec fn all_modes() -> Seq<Mode> {
    seq![Mode::Lsb, Mode::Usb, Mode::Cw, Mode::CwR, Mode::Am, Mode::Sam, Mode::Fm, Mode::Wfm, Mode::DigU, Mode::DigL, Mode::Drm, Mode::HdRadio, Mode::Adsb]
}

/// The name a mode is shown by.
pub open spec fn mode_label(x: Mode) -> Seq<char> {
    match x {
        Mode::Lsb => "LSB"@,
        Mode::Usb => "USB"@,
        Mode::Cw => "CW"@,
        Mode::CwR => "CW-R"@,
        Mode::Am => "AM"@,
        Mode::Sam => "SAM"@,
        Mode::Fm => "FM"@,
        Mode::Wfm => "WFM"@,
        Mode::DigU => "DIGU"@,
        Mode::DigL => "DIGL"@,
        Mode::Drm => "DRM"@,
        Mode::HdRadio => "HD Radio"@,
        Mode::Adsb => "ADS-B"@,
    }
}

impl Mode {
    /// Every mode, in order.
    pub fn all() -> (v: Vec<Mode>)
        ensures
            v@ == all_modes(),
    {
        let v = vec![Mode::Lsb, Mode::Usb, Mode::Cw, Mode::CwR, Mode::Am, Mode::Sam, Mode::Fm, Mode::Wfm, Mode::DigU, Mode::DigL, Mode::Drm, Mode::HdRadio, Mode::Adsb];
        assert(v@ =~= all_modes());
        v
    }

    /// The name the mode is shown by.
    pub fn label(self) -> (s: &'static str)
        ensures
            s@ == mode_label(self),
    {
        match self {
            Mode::Lsb => "LSB",
            Mode::Usb => "USB",
            Mode::Cw => "CW",
            Mode::CwR => "CW-R",
            Mode::Am => "AM",
            Mode::Sam => "SAM",
            Mode::Fm => "FM",
            Mode::Wfm => "WFM",
            Mode::DigU => "DIGU",
            Mode::DigL => "DIGL",
            Mode::Drm => "DRM",
            Mode::HdRadio => "HD Radio",
            Mode::Adsb => "ADS-B",
        }
    }
}
} // verus!
