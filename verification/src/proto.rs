//! The RC-28's reports, and nothing that touches a device.
//!
//! Both directions are 32-byte reports with no report id. In, byte 0 says
//! what the report is: `01 cc 00 dd 00 kk` is the state (`cc` knob steps in
//! direction `dd`, 1 clockwise and 2 anticlockwise, and `kk` the buttons,
//! active low: bit 0 TRANSMIT, bit 1 F-1, bit 2 F-2), and `02` followed by
//! text is the firmware version. Out, `01 ll` sets the LEDs (active low, bit 3
//! is LINK) and `02` asks for the firmware version.

use vstd::prelude::*;

use crate::text::{trim, trim_spec, from_utf8_lossy, utf8_lossy};

verus! {

/// USB vendor id.
pub const VID: u16 = 0x0c26;

/// USB product id.
pub const PID: u16 = 0x001e;

/// Length of every report in both directions, report id excluded.
pub const REPORT_LEN: usize = 32;

/// The LINK LED's bit. The other three share their key's bit.
pub const LED_LINK: u8 = 0x08;

/// Knob counts that make one detent.
pub const COUNTS_PER_DETENT: i32 = 10;

/// One of the three buttons.
#[derive(Debug, Clone, Copy, PartialEq, Eq, Hash, Structural)]
pub enum Key {
    Transmit,
    F1,
    F2,
}

/// The bit a key owns, in both the button byte and the LED byte.
pub open spec fn key_bit(k: Key) -> u8 {
    match k {
        Key::Transmit => 0x01,
        Key::F1 => 0x02,
        Key::F2 => 0x04,
    }
}

/// The name printed on a key.
pub open spec fn key_label(k: Key) -> Seq<char> {
    match k {
        Key::Transmit => "TRANSMIT"@,
        Key::F1 => "F-1"@,
        Key::F2 => "F-2"@,
    }
}

/// The three keys, in the order their events are reported.
pub open spec fn all_keys() -> Seq<Key> {
    seq![Key::Transmit, Key::F1, Key::F2]
}

impl Key {
    /// The three keys, in the order their events are reported.
    pub fn all() -> (v: [Key; 3])
        ensures
            v@ == all_keys(),
    {
        let v = [Key::Transmit, Key::F1, Key::F2];
        assert(v@ =~= all_keys());
        v
    }

    /// The key's bit, in both the button byte and the LED byte.
    pub fn bit(self) -> (b: u8)
        ensures
            b == key_bit(self),
    {
        match self {
            Key::Transmit => 0x01,
            Key::F1 => 0x02,
            Key::F2 => 0x04,
        }
    }

    /// The name printed on the key.
    pub fn label(self) -> (s: &'static str)
        ensures
            s@ == key_label(self),
    {
        match self {
            Key::Transmit => "TRANSMIT",
            Key::F1 => "F-1",
            Key::F2 => "F-2",
        }
    }
}

/// A report from the device, parsed.
#[derive(Debug, Clone)]
pub enum Report {
    /// The knob moved `steps` (positive clockwise), and the buttons are now
    /// `keys`, a mask of [`Key::bit`] set for pressed.
    State { steps: i32, keys: u8 },
    /// The firmware version text.
    Firmware(String),
}

impl PartialEq for Report {
    fn eq(&self, other: &Self) -> (r: bool) {
        match (self, other) {
            (Report::State { steps: a, keys: b }, Report::State { steps: c, keys: d }) => *a == *c
                && *b == *d,
            (Report::Firmware(a), Report::Firmware(b)) => *a == *b,
            _ => false,
        }
    }
}

impl vstd::std_specs::cmp::PartialEqSpecImpl for Report {
    open spec fn obeys_eq_spec() -> bool {
        true
    }

    open spec fn eq_spec(&self, other: &Self) -> bool {
        match (self, other) {
            (Report::State { steps: a, keys: b }, Report::State { steps: c, keys: d }) => a == c
                && b == d,
            (Report::Firmware(a), Report::Firmware(b)) => a@ == b@,
            _ => false,
        }
    }
}

impl Eq for Report {}

/// Signed knob steps of a state report: `n` steps in direction `dir`.
pub open spec fn signed_steps(n: u8, dir: u8) -> int {
    if dir == 1 {
        n as int
    } else if dir == 2 {
        -(n as int)
    } else {
        0
    }
}

/// The keys held, by a state report's active-low button byte.
pub open spec fn pressed_keys(b: u8) -> u8 {
    !b & 0x07
}

/// Where the firmware text of a `02` report ends: at the first zero byte
/// after byte 0, or at the end.
pub open spec fn text_end(bytes: Seq<u8>) -> int
    decreases bytes.len(),
{
    if bytes.len() == 0 {
        0
    } else if bytes[0] == 0 {
        0
    } else {
        1 + text_end(bytes.drop_first())
    }
}

/// The firmware text of a `02` report, as bytes.
pub open spec fn firmware_bytes(bytes: Seq<u8>) -> Seq<u8> {
    let body = bytes.drop_first();
    body.take(text_end(body))
}

/// Whether `bytes` is a state report.
pub open spec fn is_state_report(bytes: Seq<u8>) -> bool {
    bytes.len() >= 6 && bytes[0] == 0x01
}

/// Whether `bytes` is a firmware report.
pub open spec fn is_firmware_report(bytes: Seq<u8>) -> bool {
    bytes.len() >= 1 && bytes[0] == 0x02
}

proof fn lemma_text_end_bounds(bytes: Seq<u8>)
    ensures
        0 <= text_end(bytes) <= bytes.len(),
        text_end(bytes) < bytes.len() ==> bytes[text_end(bytes)] == 0,
        forall|i: int| 0 <= i < text_end(bytes) ==> bytes[i] != 0,
    decreases bytes.len(),
{
    if bytes.len() > 0 && bytes[0] != 0 {
        lemma_text_end_bounds(bytes.drop_first());
        assert forall|i: int| 0 <= i < text_end(bytes) implies bytes[i] != 0 by {
            if i > 0 {
                assert(bytes[i] == bytes.drop_first()[i - 1]);
            }
        }
    }
}

proof fn lemma_text_end_at(bytes: Seq<u8>, e: int)
    requires
        0 <= e <= bytes.len(),
        e < bytes.len() ==> bytes[e] == 0,
        forall|i: int| 0 <= i < e ==> bytes[i] != 0,
    ensures
        text_end(bytes) == e,
    decreases bytes.len(),
{
    if bytes.len() > 0 && bytes[0] != 0 {
        let t = bytes.drop_first();
        assert forall|i: int| 0 <= i < e - 1 implies t[i] != 0 by {
            assert(t[i] == bytes[i + 1]);
        }
        if e - 1 < t.len() {
            assert(t[e - 1] == bytes[e]);
        }
        lemma_text_end_at(t, e - 1);
    }
}

/// Cut `bytes[from..]` at its first zero byte.
fn nul_terminated(bytes: &[u8], from: usize) -> (v: Vec<u8>)
    requires
        from <= bytes@.len(),
    ensures
        v@ == bytes@.skip(from as int).take(text_end(bytes@.skip(from as int))),
{
    let ghost body = bytes@.skip(from as int);
    let mut v: Vec<u8> = Vec::new();
    let mut i = from;
    while i < bytes.len() && bytes[i] != 0
        invariant
            from <= i <= bytes@.len(),
            body == bytes@.skip(from as int),
            v@ == body.take(i - from),
            forall|k: int| 0 <= k < i - from ==> body[k] != 0,
        decreases bytes@.len() - i,
    {
        v.push(bytes[i]);
        i = i + 1;
        assert(v@ =~= body.take(i - from));
    }
    proof {
        if i < bytes@.len() {
            assert(body[i - from] == bytes@[i as int]);
        }
        lemma_text_end_at(body, i - from);
    }
    v
}

impl Report {
    /// `None` for anything that is not a state report of at least six bytes or
    /// a firmware report.
    pub fn parse(bytes: &[u8]) -> (r: Option<Report>)
        ensures
            match r {
                None => !is_state_report(bytes@) && !is_firmware_report(bytes@),
                Some(Report::State { steps, keys }) => {
                    &&& is_state_report(bytes@)
                    &&& steps == signed_steps(bytes@[1], bytes@[3])
                    &&& keys == pressed_keys(bytes@[5])
                },
                Some(Report::Firmware(text)) => {
                    &&& is_firmware_report(bytes@)
                    &&& text@ == trim_spec(utf8_lossy(firmware_bytes(bytes@)))
                    &&& vstd::utf8::valid_utf8(firmware_bytes(bytes@)) ==> text@ == trim_spec(
                        vstd::utf8::decode_utf8(firmware_bytes(bytes@)),
                    )
                },
            },
    {
        if bytes.len() == 0 {
            return None;
        }
        if bytes[0] == 0x01 && bytes.len() >= 6 {
            let n = bytes[1] as i32;
            let steps = if bytes[3] == 1 {
                n
            } else if bytes[3] == 2 {
                -n
            } else {
                0
            };
            Some(Report::State { steps, keys: !bytes[5] & 0x07 })
        } else if bytes[0] == 0x02 {
            let raw = nul_terminated(bytes, 1);
            assert(raw@ == firmware_bytes(bytes@));
            let lossy = from_utf8_lossy(raw.as_slice());
            Some(Report::Firmware(trim(lossy.as_str())))
        } else {
            None
        }
    }
}

/// Something the operator did.
#[derive(Debug, Clone, Copy, PartialEq, Eq, Structural)]
pub enum Input {
    /// Knob steps, positive clockwise.
    Turn(i32),
    Key { key: Key, down: bool },
}

/// The event for `k` when the held keys go from `old` to `new`: nothing if its
/// bit did not change, else a press or a release.
pub open spec fn key_edge(k: Key, old: u8, new: u8) -> Seq<Input> {
    if (old ^ new) & key_bit(k) != 0 {
        seq![Input::Key { key: k, down: new & key_bit(k) != 0 }]
    } else {
        seq![]
    }
}

/// Everything a state report says happened: the turn first, then the keys in
/// [`all_keys`] order.
pub open spec fn state_events(old: u8, steps: i32, new: u8) -> Seq<Input> {
    (if steps != 0 {
        seq![Input::Turn(steps)]
    } else {
        seq![]
    }) + key_edge(Key::Transmit, old, new) + key_edge(Key::F1, old, new) + key_edge(
        Key::F2,
        old,
        new,
    )
}

/// Turns the level-triggered button byte into presses and releases.
#[derive(Debug, Clone, Copy)]
pub struct Decoder {
    keys: u8,
}

impl View for Decoder {
    type V = u8;

    /// The keys this decoder last saw held.
    closed spec fn view(&self) -> u8 {
        self.keys
    }
}

impl Default for Decoder {
    fn default() -> (d: Decoder)
        ensures
            d@ == 0,
    {
        Decoder { keys: 0 }
    }
}

impl Decoder {
    /// A decoder that has seen nothing held.
    pub fn new() -> (d: Decoder)
        ensures
            d@ == 0,
    {
        Decoder { keys: 0 }
    }

    /// The keys last seen held.
    pub fn held(&self) -> (h: u8)
        ensures
            h == self@,
    {
        self.keys
    }

    /// Everything a report says happened, turn first, then keys in
    /// [`Key::all`] order. A firmware report says nothing.
    pub fn feed(&mut self, report: &Report) -> (out: Vec<Input>)
        ensures
            match *report {
                Report::State { steps, keys } => {
                    &&& out@ == state_events(old(self)@, steps, keys)
                    &&& final(self)@ == keys
                },
                Report::Firmware(_) => {
                    &&& out@ == Seq::<Input>::empty()
                    &&& final(self)@ == old(self)@
                },
            },
    {
        let (steps, keys) = match report {
            Report::State { steps, keys } => (*steps, *keys),
            Report::Firmware(_) => {
                return Vec::new();
            },
        };
        let mut out: Vec<Input> = Vec::new();
        if steps != 0 {
            out.push(Input::Turn(steps));
        }
        let changed = self.keys ^ keys;
        let all = Key::all();
        let ghost old_keys = self.keys;
        let mut i: usize = 0;
        while i < 3
            invariant
                i <= 3,
                all@ == all_keys(),
                changed == old_keys ^ keys,
                out@ == (if steps != 0 {
                    seq![Input::Turn(steps)]
                } else {
                    seq![]
                }) + (if i >= 1 {
                    key_edge(Key::Transmit, old_keys, keys)
                } else {
                    seq![]
                }) + (if i >= 2 {
                    key_edge(Key::F1, old_keys, keys)
                } else {
                    seq![]
                }) + (if i >= 3 {
                    key_edge(Key::F2, old_keys, keys)
                } else {
                    seq![]
                }),
            decreases 3 - i,
        {
            let key = all[i];
            let b = key.bit();
            if changed & b != 0 {
                out.push(Input::Key { key, down: keys & b != 0 });
            }
            i = i + 1;
            assert(out@ =~= (if steps != 0 {
                seq![Input::Turn(steps)]
            } else {
                seq![]
            }) + (if i >= 1 {
                key_edge(Key::Transmit, old_keys, keys)
            } else {
                seq![]
            }) + (if i >= 2 {
                key_edge(Key::F1, old_keys, keys)
            } else {
                seq![]
            }) + (if i >= 3 {
                key_edge(Key::F2, old_keys, keys)
            } else {
                seq![]
            }));
        }
        self.keys = keys;
        out
    }

    /// The device is gone: whatever it was holding is released, and the next
    /// device starts from nothing held.
    pub fn reset(&mut self)
        ensures
            final(self)@ == 0,
    {
        self.keys = 0;
    }
}

/// The held mask after the key events `evs` are applied to `held`: a press
/// sets its key's bit, a release clears it, a turn changes nothing.
pub open spec fn replay(held: u8, evs: Seq<Input>) -> u8
    decreases evs.len(),
{
    if evs.len() == 0 {
        held
    } else {
        let h = match evs[0] {
            Input::Turn(_) => held,
            Input::Key { key, down } => if down {
                held | key_bit(key)
            } else {
                held & !key_bit(key)
            },
        };
        replay(h, evs.drop_first())
    }
}

/// A report whose keys are the ones already held says nothing about keys:
/// the decoder reports edges, not levels.
pub proof fn law_same_level_is_no_key_event(held: u8, steps: i32)
    ensures
        state_events(held, steps, held) == (if steps != 0 {
            seq![Input::Turn(steps)]
        } else {
            Seq::<Input>::empty()
        }),
{
    assert((held ^ held) & 0x01 == 0) by (bit_vector);
    assert((held ^ held) & 0x02 == 0) by (bit_vector);
    assert((held ^ held) & 0x04 == 0) by (bit_vector);
    assert(state_events(held, steps, held) =~= (if steps != 0 {
        seq![Input::Turn(steps)]
    } else {
        Seq::<Input>::empty()
    }));
}

proof fn lemma_replay_append(held: u8, a: Seq<Input>, b: Seq<Input>)
    ensures
        replay(held, a + b) == replay(replay(held, a), b),
    decreases a.len(),
{
    if a.len() == 0 {
        assert(a + b =~= b);
    } else {
        assert((a + b).drop_first() =~= a.drop_first() + b);
        let h = match a[0] {
            Input::Turn(_) => held,
            Input::Key { key, down } => if down {
                held | key_bit(key)
            } else {
                held & !key_bit(key)
            },
        };
        lemma_replay_append(h, a.drop_first(), b);
    }
}

/// Replaying what a state report produced, from the keys held before it,
/// gives exactly the keys the report says are held: no press or release is
/// lost or invented.
pub proof fn law_events_replay_to_the_new_level(old: u8, steps: i32, new: u8)
    requires
        old & !0x07u8 == 0,
        new & !0x07u8 == 0,
    ensures
        replay(old, state_events(old, steps, new)) == new,
{
    let turn: Seq<Input> = if steps != 0 {
        seq![Input::Turn(steps)]
    } else {
        seq![]
    };
    let e1 = key_edge(Key::Transmit, old, new);
    let e2 = key_edge(Key::F1, old, new);
    let e3 = key_edge(Key::F2, old, new);
    assert(state_events(old, steps, new) == turn + e1 + e2 + e3);
    lemma_replay_append(old, turn + e1 + e2, e3);
    lemma_replay_append(old, turn + e1, e2);
    lemma_replay_append(old, turn, e1);
    reveal_with_fuel(replay, 2);
    assert(replay(old, turn) == old) by {
        if steps != 0 {
            assert(turn.drop_first() =~= Seq::<Input>::empty());
        }
    }
    let h1 = if (old ^ new) & 0x01 != 0 {
        if new & 0x01 != 0 {
            old | 0x01
        } else {
            old & !0x01u8
        }
    } else {
        old
    };
    assert(replay(old, e1) == h1) by {
        if (old ^ new) & 0x01 != 0 {
            assert(e1.drop_first() =~= Seq::<Input>::empty());
        }
    }
    let h2 = if (h1 ^ new) & 0x02 != 0 {
        if new & 0x02 != 0 {
            h1 | 0x02
        } else {
            h1 & !0x02u8
        }
    } else {
        h1
    };
    assert((old ^ new) & 0x02 == (h1 ^ new) & 0x02) by (bit_vector)
        requires
            h1 == (if (old ^ new) & 0x01 != 0 {
                if new & 0x01 != 0 {
                    old | 0x01
                } else {
                    old & !0x01u8
                }
            } else {
                old
            }),
    ;
    assert(replay(h1, e2) == h2) by {
        if (old ^ new) & 0x02 != 0 {
            assert(e2.drop_first() =~= Seq::<Input>::empty());
        }
    }
    let h3 = if (h2 ^ new) & 0x04 != 0 {
        if new & 0x04 != 0 {
            h2 | 0x04
        } else {
            h2 & !0x04u8
        }
    } else {
        h2
    };
    assert((old ^ new) & 0x04 == (h2 ^ new) & 0x04) by (bit_vector)
        requires
            h1 == (if (old ^ new) & 0x01 != 0 {
                if new & 0x01 != 0 {
                    old | 0x01
                } else {
                    old & !0x01u8
                }
            } else {
                old
            }),
            h2 == (if (h1 ^ new) & 0x02 != 0 {
                if new & 0x02 != 0 {
                    h1 | 0x02
                } else {
                    h1 & !0x02u8
                }
            } else {
                h1
            }),
    ;
    assert(replay(h2, e3) == h3) by {
        if (old ^ new) & 0x04 != 0 {
            assert(e3.drop_first() =~= Seq::<Input>::empty());
        }
    }
    assert(h3 == new) by (bit_vector)
        requires
            old & !0x07u8 == 0,
            new & !0x07u8 == 0,
            h1 == (if (old ^ new) & 0x01 != 0 {
                if new & 0x01 != 0 {
                    old | 0x01
                } else {
                    old & !0x01u8
                }
            } else {
                old
            }),
            h2 == (if (h1 ^ new) & 0x02 != 0 {
                if new & 0x02 != 0 {
                    h1 | 0x02
                } else {
                    h1 & !0x02u8
                }
            } else {
                h1
            }),
            h3 == (if (h2 ^ new) & 0x04 != 0 {
                if new & 0x04 != 0 {
                    h2 | 0x04
                } else {
                    h2 & !0x04u8
                }
            } else {
                h2
            }),
    ;
}

/// After a reset, whatever is held reads as a fresh press of each held key,
/// and nothing else.
pub proof fn law_after_reset_held_keys_are_presses(keys: u8, k: Key)
    ensures
        key_edge(k, 0, keys) == (if keys & key_bit(k) != 0 {
            seq![Input::Key { key: k, down: true }]
        } else {
            Seq::<Input>::empty()
        }),
{
    assert((0u8 ^ keys) & 0x01 == keys & 0x01) by (bit_vector);
    assert((0u8 ^ keys) & 0x02 == keys & 0x02) by (bit_vector);
    assert((0u8 ^ keys) & 0x04 == keys & 0x04) by (bit_vector);
}

/// Whole detents in `total` counts: the quotient by [`COUNTS_PER_DETENT`],
/// rounded toward zero.
pub open spec fn whole_detents(total: int) -> int {
    if total >= 0 {
        total / 10
    } else {
        -((-total) / 10)
    }
}

/// Gathers knob counts into whole detents, carrying the remainder.
#[derive(Debug, Clone, Copy)]
pub struct Detents {
    carry: i32,
}

impl View for Detents {
    type V = int;

    /// The counts carried toward the next detent.
    closed spec fn view(&self) -> int {
        self.carry as int
    }
}

impl Default for Detents {
    fn default() -> (d: Detents)
        ensures
            d@ == 0,
    {
        Detents { carry: 0 }
    }
}

impl Detents {
    /// Nothing carried.
    pub fn new() -> (d: Detents)
        ensures
            d@ == 0,
    {
        Detents { carry: 0 }
    }

    /// Add `counts`, and return how many whole detents that completes: the
    /// carry plus `counts`, divided into detents rounding toward zero, with
    /// the remainder carried. A turn back the other way spends the carry
    /// first.
    pub fn add(&mut self, counts: i32) -> (d: i32)
        requires
            i32::MIN <= old(self)@ + counts <= i32::MAX,
        ensures
            d == whole_detents(old(self)@ + counts),
            d * 10 + final(self)@ == old(self)@ + counts,
            -10 < final(self)@ < 10,
    {
        let total: i64 = self.carry as i64 + counts as i64;
        let d: i64 = if total >= 0 {
            total / 10
        } else {
            -((-total) / 10)
        };
        let carry: i64 = total - d * 10;
        self.carry = carry as i32;
        d as i32
    }

    pub fn reset(&mut self)
        ensures
            final(self)@ == 0,
    {
        self.carry = 0;
    }
}

/// The sum of `xs`.
pub open spec fn total(xs: Seq<int>) -> int
    decreases xs.len(),
{
    if xs.len() == 0 {
        0
    } else {
        total(xs.drop_last()) + xs.last()
    }
}

/// What a run of [`Detents::add`] calls with `counts` gives, from nothing
/// carried: the whole detents each call returns, and the carry after.
pub open spec fn detent_run(counts: Seq<int>) -> (Seq<int>, int)
    decreases counts.len(),
{
    if counts.len() == 0 {
        (Seq::empty(), 0)
    } else {
        let (ds, c) = detent_run(counts.drop_last());
        let d = whole_detents(c + counts.last());
        (ds.push(d), c + counts.last() - 10 * d)
    }
}

/// Each call of [`Detents::add`] extends the run: from the carry a run of
/// `counts` leaves, a call with `c` that returns `d` and leaves `carry` (as
/// its contract fixes them) is the run of `counts` followed by `c`.
pub proof fn law_each_add_extends_the_run(counts: Seq<int>, c: int, d: int, carry: int)
    requires
        d == whole_detents(detent_run(counts).1 + c),
        d * 10 + carry == detent_run(counts).1 + c,
    ensures
        detent_run(counts.push(c)) == (detent_run(counts).0.push(d), carry),
{
    assert(counts.push(c).drop_last() =~= counts);
}

/// No knob count is lost over a run of calls: the counts add up to ten per
/// detent returned plus what is still carried, and less than a detent is
/// ever carried.
pub proof fn law_no_knob_count_is_lost(counts: Seq<int>)
    ensures
        total(counts) == 10 * total(detent_run(counts).0) + detent_run(counts).1,
        -10 < detent_run(counts).1 < 10,
    decreases counts.len(),
{
    if counts.len() > 0 {
        let g = counts.drop_last();
        law_no_knob_count_is_lost(g);
        let (ds, c) = detent_run(g);
        let t = c + counts.last();
        let d = whole_detents(t);
        assert(detent_run(counts).0.drop_last() =~= ds);
        assert(-10 < t - 10 * d < 10) by {
            if t >= 0 {
                assert(0 <= t - 10 * (t / 10) < 10);
            } else {
                assert(0 <= (-t) - 10 * ((-t) / 10) < 10);
            }
        }
    }
}

/// The LED byte of a report that lights exactly the LEDs in `lit`.
pub open spec fn led_byte(lit: u8) -> u8 {
    !lit & 0x0f
}

/// The report that lights exactly the LEDs in `lit` (a mask of [`Key::bit`]
/// and [`LED_LINK`]).
pub fn led_report(lit: u8) -> (r: [u8; REPORT_LEN])
    ensures
        r@.len() == REPORT_LEN,
        r@[0] == 0x01,
        r@[1] == led_byte(lit),
        forall|i: int| 2 <= i < REPORT_LEN ==> r@[i] == 0,
{
    let b = !lit & 0x0f;
    [
        0x01, b, 0, 0, 0, 0, 0, 0, 0, 0, 0, 0, 0, 0, 0, 0,
        0, 0, 0, 0, 0, 0, 0, 0, 0, 0, 0, 0, 0, 0, 0, 0,
    ]
}

/// Each of the four LEDs is driven low, and so lit, exactly when its bit is
/// in `lit`; the upper nibble of the LED byte is always clear.
pub proof fn law_led_report_lights_exactly_lit(lit: u8)
    ensures
        (led_byte(lit) & 0x01 == 0) == (lit & 0x01 != 0),
        (led_byte(lit) & 0x02 == 0) == (lit & 0x02 != 0),
        (led_byte(lit) & 0x04 == 0) == (lit & 0x04 != 0),
        (led_byte(lit) & 0x08 == 0) == (lit & 0x08 != 0),
        led_byte(lit) & 0xf0 == 0,
{
    assert(((!lit & 0x0f) & 0x01 == 0) == (lit & 0x01 != 0)) by (bit_vector);
    assert(((!lit & 0x0f) & 0x02 == 0) == (lit & 0x02 != 0)) by (bit_vector);
    assert(((!lit & 0x0f) & 0x04 == 0) == (lit & 0x04 != 0)) by (bit_vector);
    assert(((!lit & 0x0f) & 0x08 == 0) == (lit & 0x08 != 0)) by (bit_vector);
    assert((!lit & 0x0f) & 0xf0 == 0) by (bit_vector);
}

/// The report that asks for the firmware version.
pub fn firmware_request() -> (r: [u8; REPORT_LEN])
    ensures
        r@.len() == REPORT_LEN,
        r@[0] == 0x02,
        forall|i: int| 1 <= i < REPORT_LEN ==> r@[i] == 0,
{
    [
        0x02, 0, 0, 0, 0, 0, 0, 0, 0, 0, 0, 0, 0, 0, 0, 0,
        0, 0, 0, 0, 0, 0, 0, 0, 0, 0, 0, 0, 0, 0, 0, 0,
    ]
}

/// A button byte parses to a mask of the three keys alone.
pub proof fn law_parsed_keys_are_key_bits(b: u8)
    ensures
        pressed_keys(b) & !0x07u8 == 0,
{
    assert((!b & 0x07) & !0x07u8 == 0) by (bit_vector);
}

} // verus!
