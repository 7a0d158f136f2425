//! The app's side of the RC-28: what it last asked of the device, and, in a
//! browser, the bridge that stands in for the worker thread.

use vstd::prelude::*;

use crate::proto::{
    Decoder, Input, Report, firmware_bytes, is_firmware_report, is_state_report, pressed_keys,
    signed_steps, state_events,
};
use crate::rc28::{Rc28Event, Rc28Status};
use crate::text::{same_text, trim_spec, utf8_lossy};

verus! {

/// Whether any of `events` is a connect.
pub open spec fn has_connect(events: Seq<Rc28Event>) -> bool {
    exists|i: int| 0 <= i < events.len() && events[i] is Connected
}

/// What the app last asked of the RC-28: whether it is on, and the LEDs last
/// sent, if any since the device last changed.
pub struct Rc28Link {
    enabled: bool,
    leds: Option<u8>,
}

impl Rc28Link {
    /// Whether the RC-28 is on.
    pub closed spec fn is_on(&self) -> bool {
        self.enabled
    }

    /// The LEDs last sent to the device it has now, if any.
    pub closed spec fn leds_sent(&self) -> Option<u8> {
        self.leds
    }

    pub fn new(enabled: bool) -> (l: Rc28Link)
        ensures
            l.is_on() == enabled,
            l.leds_sent() is None,
    {
        Rc28Link { enabled, leds: None }
    }

    /// Turn the RC-28 on or off: whether that is a change, to be passed on.
    /// A change forgets the LEDs sent.
    pub fn set_enabled(&mut self, on: bool) -> (changed: bool)
        ensures
            changed == (on != old(self).is_on()),
            final(self).is_on() == on,
            changed ==> final(self).leds_sent() is None,
            !changed ==> final(self).leds_sent() == old(self).leds_sent(),
    {
        if on == self.enabled {
            return false;
        }
        self.enabled = on;
        self.leds = None;
        true
    }

    /// A poll's events: a connect is a new device, whose LEDs are unknown.
    pub fn saw(&mut self, events: &Vec<Rc28Event>)
        ensures
            final(self).is_on() == old(self).is_on(),
            has_connect(events@) ==> final(self).leds_sent() is None,
            !has_connect(events@) ==> final(self).leds_sent() == old(self).leds_sent(),
    {
        let mut i: usize = 0;
        while i < events.len()
            invariant
                i <= events@.len(),
                forall|k: int| 0 <= k < i ==> !(events@[k] is Connected),
                self.enabled == old(self).enabled,
                self.leds == old(self).leds,
            decreases events@.len() - i,
        {
            if let Rc28Event::Connected(_) = &events[i] {
                self.leds = None;
                return;
            }
            i = i + 1;
        }
    }

    /// The queue was thrown away unread: whether LEDs had been sent and are
    /// to be released.
    pub fn discard(&mut self) -> (release: bool)
        ensures
            release == old(self).leds_sent() is Some,
            final(self).leds_sent() is None,
            final(self).is_on() == old(self).is_on(),
    {
        let release = self.leds.is_some();
        self.leds = None;
        release
    }

    /// Whether to send `lit`: only when it is not what was last sent.
    pub fn set_leds(&mut self, lit: u8) -> (send: bool)
        ensures
            send == (old(self).leds_sent() != Some(lit)),
            final(self).leds_sent() == Some(lit),
            final(self).is_on() == old(self).is_on(),
    {
        let send = match self.leds {
            Some(v) => v != lit,
            None => true,
        };
        self.leds = Some(lit);
        send
    }
}

/// The text the browser bridge sends when a device connects, before its
/// name.
pub open spec fn connect_prefix() -> Seq<char> {
    "connected:"@
}

/// In a browser, the bridge to WebHID stands in for the worker: it hands
/// over reports and `connected:NAME` / `disconnected` notes, and this keeps
/// the button decoder and the firmware text.
pub struct WebRc28 {
    decoder: Decoder,
    firmware: String,
}

impl WebRc28 {
    /// The keys last seen held.
    pub closed spec fn held_spec(&self) -> u8 {
        self.decoder@
    }

    /// The firmware text the device last reported.
    pub closed spec fn firmware_spec(&self) -> Seq<char> {
        self.firmware@
    }

    pub fn new() -> (w: WebRc28)
        ensures
            w.held_spec() == 0,
            w.firmware_spec() == Seq::<char>::empty(),
    {
        WebRc28 { decoder: Decoder::new(), firmware: String::new() }
    }

    /// A note from the bridge. `connected:NAME` is a connect of `NAME`, and
    /// asks for the firmware and the link LED to be written (the `bool`);
    /// `disconnected` is a disconnect. Either forgets the keys held and the
    /// firmware. Anything else is ignored.
    pub fn note(&mut self, text: &str) -> (r: (Option<Rc28Event>, bool))
        ensures
            text@.len() >= 10 && text@.take(10) == connect_prefix() ==> {
                &&& r.0 matches Some(Rc28Event::Connected(name)) && name@ == text@.skip(10)
                &&& r.1
                &&& final(self).held_spec() == 0
                &&& final(self).firmware_spec() == Seq::<char>::empty()
            },
            text@ == "disconnected"@ ==> {
                &&& r.0 matches Some(Rc28Event::Disconnected)
                &&& !r.1
                &&& final(self).held_spec() == 0
                &&& final(self).firmware_spec() == Seq::<char>::empty()
            },
            !(text@.len() >= 10 && text@.take(10) == connect_prefix()) && text@
                != "disconnected"@ ==> {
                &&& r.0 is None
                &&& !r.1
                &&& final(self).held_spec() == old(self).held_spec()
                &&& final(self).firmware_spec() == old(self).firmware_spec()
            },
    {
        let prefix = "connected:";
        let gone = "disconnected";
        proof {
            reveal_strlit("connected:");
            reveal_strlit("disconnected");
        }
        let n = text.unicode_len();
        if n >= 10 && same_text(text.substring_char(0, 10), prefix) {
            assert(text@.subrange(0, 10) =~= text@.take(10));
            assert(text@ != gone@) by {
                assert(text@[0] == text@.take(10)[0]);
                assert(text@.take(10)[0] == prefix@[0]);
            }
            self.decoder.reset();
            self.firmware = String::new();
            let name = text.substring_char(10, n).to_owned();
            assert(text@.subrange(10, n as int) =~= text@.skip(10));
            return (Some(Rc28Event::Connected(name)), true);
        }
        proof {
            if n >= 10 {
                assert(text@.subrange(0, 10) =~= text@.take(10));
            }
        }
        if same_text(text, gone) {
            proof {
                assert(text@.take(10) != connect_prefix()) by {
                    assert(text@[0] != connect_prefix()[0] || text@[9] != connect_prefix()[9]);
                }
            }
            self.decoder.reset();
            self.firmware = String::new();
            return (Some(Rc28Event::Disconnected), false);
        }
        (None, false)
    }

    /// A report from the bridge: a state report's knob and button changes,
    /// in order; a firmware report's text is kept. Anything else is
    /// ignored.
    pub fn bytes(&mut self, bytes: &[u8]) -> (events: Vec<Rc28Event>)
        ensures
            is_state_report(bytes@) ==> {
                let steps = signed_steps(bytes@[1], bytes@[3]) as i32;
                let keys = pressed_keys(bytes@[5]);
                &&& final(self).held_spec() == keys
                &&& events@ == state_events(old(self).held_spec(), steps, keys).map_values(
                    |i: Input| Rc28Event::Input(i),
                )
                &&& final(self).firmware_spec() == old(self).firmware_spec()
            },
            !is_state_report(bytes@) ==> {
                &&& final(self).held_spec() == old(self).held_spec()
                &&& events@.len() == 0
            },
            is_firmware_report(bytes@) ==> final(self).firmware_spec() == trim_spec(
                utf8_lossy(firmware_bytes(bytes@)),
            ),
            is_firmware_report(bytes@) && vstd::utf8::valid_utf8(firmware_bytes(bytes@))
                ==> final(self).firmware_spec() == trim_spec(
                vstd::utf8::decode_utf8(firmware_bytes(bytes@)),
            ),
            !is_state_report(bytes@) && !is_firmware_report(bytes@) ==> final(self).firmware_spec()
                == old(self).firmware_spec(),
    {
        let mut events: Vec<Rc28Event> = Vec::new();
        match Report::parse(bytes) {
            Some(Report::Firmware(v)) => {
                self.firmware = v;
            },
            Some(r) => {
                let inputs = self.decoder.feed(&r);
                let mut i: usize = 0;
                while i < inputs.len()
                    invariant
                        i <= inputs@.len(),
                        events@ == inputs@.take(i as int).map_values(|x: Input| Rc28Event::Input(x)),
                    decreases inputs@.len() - i,
                {
                    events.push(Rc28Event::Input(inputs[i]));
                    i = i + 1;
                    assert(events@ =~= inputs@.take(i as int).map_values(
                        |x: Input| Rc28Event::Input(x),
                    ));
                }
                assert(inputs@.take(inputs@.len() as int) =~= inputs@);
            },
            None => {},
        }
        events
    }

    /// The status the settings dialog shows. Where the browser cannot reach
    /// USB devices at all, nothing is connected. Otherwise the device is
    /// connected while the bridge names one; the firmware is shown only
    /// then, and an empty error is no error.
    pub fn status(&self, usable: bool, name: String, error: Option<String>) -> (s: Rc28Status)
        ensures
            !usable ==> {
                &&& !s.connected
                &&& s.name@ == Seq::<char>::empty()
                &&& s.firmware@ == Seq::<char>::empty()
                &&& s.error is None
            },
            usable ==> {
                &&& s.connected == (name@.len() > 0)
                &&& s.name@ == name@
                &&& s.firmware@ == (if name@.len() > 0 {
                    self.firmware_spec()
                } else {
                    Seq::<char>::empty()
                })
                &&& match error {
                    Some(e) => if e@.len() > 0 {
                        s.error matches Some(x) && x@ == e@
                    } else {
                        s.error is None
                    },
                    None => s.error is None,
                }
            },
    {
        if !usable {
            return Rc28Status::default();
        }
        let connected = name.as_str().unicode_len() > 0;
        let firmware = if connected {
            self.firmware.clone()
        } else {
            String::new()
        };
        let error = match error {
            Some(e) => if e.as_str().unicode_len() > 0 {
                Some(e)
            } else {
                None
            },
            None => None,
        };
        Rc28Status { connected, firmware, name, error }
    }
}

} // verus!
