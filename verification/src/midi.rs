//! One frame of MIDI input: which bindings the controls that arrived reach,
//! and what each binding is asked to do.
//!
//! Buttons keep their arrival order. Encoder deltas are summed per binding
//! and fader positions keep the last value per binding, so a fast spin still
//! yields exactly one command per binding per frame.

use vstd::prelude::*;

use crate::input::{
    ActionKind, MidiBinding, MidiMsg, RelativeMode, action_kind, decode_spec, msg_matches,
};
use crate::runtime::{MidiLearn, learn_capture, learn_step};

verus! {

/// A control that moved on a MIDI surface.
#[derive(Debug, Clone, Copy, PartialEq, Eq, Structural)]
pub struct MidiControl {
    pub msg: MidiMsg,
    /// The 7-bit value: velocity, controller value or position.
    pub value: u8,
    /// A note-off, which a button reads as a release whatever its value.
    pub off: bool,
}

/// What the MIDI worker reports.
#[derive(Debug, Clone)]
pub enum MidiEvent {
    Control(MidiControl),
    /// An input port was opened; its name.
    Connected(String),
    /// The input port went away.
    Disconnected,
}

/// What a control asks of one binding it reaches.
#[derive(Debug, Clone, Copy, PartialEq, Eq, Structural)]
pub enum MidiHit {
    /// A button went down (`true`) or up.
    Button(bool),
    /// A relative encoder moved by this many detents.
    Delta(i8),
    /// An absolute fader or knob moved to this position.
    Absolute(u8),
}

/// What control `c` asks of binding `b`, if it reaches it at all: an enabled
/// binding of the same control. A continuous action reads the value as
/// detents under the binding's encoding, or as a position if it is absolute.
/// A button on an absolute control goes down on a non-zero value that is not
/// a note-off; one on a relative encoder fires on any movement.
pub open spec fn binding_hit(b: MidiBinding, c: MidiControl) -> Option<MidiHit> {
    if !b.enabled || !msg_matches(b.msg, c.msg) {
        None
    } else {
        match action_kind(b.action) {
            ActionKind::Continuous => match decode_spec(b.relative, c.value) {
                Some(d) => Some(MidiHit::Delta(d)),
                None => Some(MidiHit::Absolute(c.value)),
            },
            ActionKind::Momentary => Some(
                MidiHit::Button(
                    if b.relative == RelativeMode::Absolute {
                        !c.off && c.value > 0
                    } else {
                        true
                    },
                ),
            ),
        }
    }
}

/// What `c` asks of the first `n` bindings, in binding order, each with the
/// binding's index.
pub open spec fn control_hits(bindings: Seq<MidiBinding>, c: MidiControl, n: nat) -> Seq<
    (usize, MidiHit),
>
    decreases n,
{
    if n == 0 {
        Seq::empty()
    } else {
        let prev = control_hits(bindings, c, (n - 1) as nat);
        match binding_hit(bindings[n - 1], c) {
            Some(h) => prev.push(((n - 1) as usize, h)),
            None => prev,
        }
    }
}

/// Where a frame of `events` leaves the bindings, the LEARN target and its
/// samples, and what it asks of the bindings, in arrival order.
///
/// While LEARN waits, each control is captured and reaches no binding; once
/// it is done, the following controls reach the bindings as they now are.
pub open spec fn route(
    bindings: Seq<MidiBinding>,
    learn: Option<MidiLearn>,
    values: Seq<u8>,
    events: Seq<MidiEvent>,
) -> (Seq<MidiBinding>, Option<MidiLearn>, Seq<u8>, Seq<(usize, MidiHit)>)
    decreases events.len(),
{
    if events.len() == 0 {
        (bindings, learn, values, Seq::empty())
    } else {
        let prev = route(bindings, learn, values, events.drop_last());
        match events.last() {
            MidiEvent::Control(c) => match prev.1 {
                Some(l) => {
                    let s = learn_step(prev.0, prev.1, prev.2, l.row, c.msg, c.value);
                    (s.0, s.1, s.2, prev.3)
                },
                None => (prev.0, prev.1, prev.2, prev.3 + control_hits(prev.0, c, prev.0.len())),
            },
            _ => prev,
        }
    }
}

/// Whether the input port went away during the frame.
pub open spec fn has_disconnect(events: Seq<MidiEvent>) -> bool {
    exists|k: int| 0 <= k < events.len() && events[k] is Disconnected
}

/// The last control of the frame and its value, if any moved.
pub open spec fn last_control(events: Seq<MidiEvent>) -> Option<(MidiMsg, u8)>
    decreases events.len(),
{
    if events.len() == 0 {
        None
    } else {
        match events.last() {
            MidiEvent::Control(c) => Some((c.msg, c.value)),
            _ => last_control(events.drop_last()),
        }
    }
}

/// The button hits, in order.
pub open spec fn button_hits(h: Seq<(usize, MidiHit)>) -> Seq<(usize, bool)>
    decreases h.len(),
{
    if h.len() == 0 {
        Seq::empty()
    } else {
        let prev = button_hits(h.drop_last());
        match h.last().1 {
            MidiHit::Button(down) => prev.push((h.last().0, down)),
            _ => prev,
        }
    }
}

/// `s` with `d` added to the entry for `ix`, or `(ix, d)` appended if it has
/// none.
pub open spec fn add_to(s: Seq<(usize, int)>, ix: usize, d: int) -> Seq<(usize, int)> {
    if exists|p: int| 0 <= p < s.len() && s[p].0 == ix {
        let p = choose|p: int| 0 <= p < s.len() && s[p].0 == ix;
        s.update(p, (ix, s[p].1 + d))
    } else {
        s.push((ix, d))
    }
}

/// `s` with the entry for `ix` set to `v`, or `(ix, v)` appended if it has
/// none.
pub open spec fn set_last(s: Seq<(usize, u8)>, ix: usize, v: u8) -> Seq<(usize, u8)> {
    if exists|p: int| 0 <= p < s.len() && s[p].0 == ix {
        let p = choose|p: int| 0 <= p < s.len() && s[p].0 == ix;
        s.update(p, (ix, v))
    } else {
        s.push((ix, v))
    }
}

/// The encoder deltas summed per binding, bindings in the order they first
/// moved.
pub open spec fn delta_sums(h: Seq<(usize, MidiHit)>) -> Seq<(usize, int)>
    decreases h.len(),
{
    if h.len() == 0 {
        Seq::empty()
    } else {
        let prev = delta_sums(h.drop_last());
        match h.last().1 {
            MidiHit::Delta(d) => add_to(prev, h.last().0, d as int),
            _ => prev,
        }
    }
}

/// The last fader position per binding, bindings in the order they first
/// moved.
pub open spec fn last_positions(h: Seq<(usize, MidiHit)>) -> Seq<(usize, u8)>
    decreases h.len(),
{
    if h.len() == 0 {
        Seq::empty()
    } else {
        let prev = last_positions(h.drop_last());
        match h.last().1 {
            MidiHit::Absolute(v) => set_last(prev, h.last().0, v),
            _ => prev,
        }
    }
}

/// No binding index occurs twice in `s`.
pub open spec fn keys_distinct<V>(s: Seq<(usize, V)>) -> bool {
    forall|p: int, q: int| 0 <= p < q < s.len() ==> (#[trigger] s[p]).0 != (#[trigger] s[q]).0
}

/// `v` holds the same bindings and totals as `s`, in the same order.
pub open spec fn sums_match(v: Seq<(usize, i64)>, s: Seq<(usize, int)>) -> bool {
    &&& v.len() == s.len()
    &&& forall|p: int| 0 <= p < v.len() ==> (#[trigger] v[p]).0 == s[p].0 && v[p].1 == s[p].1
}

/// The detents of all the delta hits on binding `ix`, added up.
pub open spec fn delta_total(h: Seq<(usize, MidiHit)>, ix: usize) -> int
    decreases h.len(),
{
    if h.len() == 0 {
        0
    } else {
        let x = h.last();
        delta_total(h.drop_last(), ix) + match x.1 {
            MidiHit::Delta(d) => if x.0 == ix {
                d as int
            } else {
                0
            },
            _ => 0,
        }
    }
}

/// Whether some delta hit is on binding `ix`.
pub open spec fn has_delta(h: Seq<(usize, MidiHit)>, ix: usize) -> bool {
    exists|k: int| 0 <= k < h.len() && (#[trigger] h[k]).0 == ix && h[k].1 is Delta
}

/// The position of the last fader hit on binding `ix`, if there is one.
pub open spec fn last_position(h: Seq<(usize, MidiHit)>, ix: usize) -> Option<u8>
    decreases h.len(),
{
    if h.len() == 0 {
        None
    } else {
        match h.last().1 {
            MidiHit::Absolute(v) => if h.last().0 == ix {
                Some(v)
            } else {
                last_position(h.drop_last(), ix)
            },
            _ => last_position(h.drop_last(), ix),
        }
    }
}

/// Whether `s` has an entry for `ix`.
pub open spec fn has_key<V>(s: Seq<(usize, V)>, ix: usize) -> bool {
    exists|p: int| 0 <= p < s.len() && (#[trigger] s[p]).0 == ix
}

proof fn lemma_no_delta_no_total(h: Seq<(usize, MidiHit)>, ix: usize)
    requires
        !has_delta(h, ix),
    ensures
        delta_total(h, ix) == 0,
    decreases h.len(),
{
    if h.len() > 0 {
        let g = h.drop_last();
        assert(!has_delta(g, ix)) by {
            if has_delta(g, ix) {
                let k = choose|k: int| 0 <= k < g.len() && (#[trigger] g[k]).0 == ix && g[k].1 is Delta;
                assert(h[k] == g[k]);
            }
        }
        lemma_no_delta_no_total(g, ix);
        assert(h[h.len() - 1] == h.last());
    }
}

/// Encoder deltas are summed per binding: each binding that moved has
/// exactly one entry, and it holds the sum of that binding's detents.
pub proof fn law_deltas_are_summed_per_binding(h: Seq<(usize, MidiHit)>)
    ensures
        keys_distinct(delta_sums(h)),
        forall|p: int|
            0 <= p < delta_sums(h).len() ==> (#[trigger] delta_sums(h)[p]).1 == delta_total(
                h,
                delta_sums(h)[p].0,
            ),
        forall|ix: usize| #[trigger] has_key(delta_sums(h), ix) == has_delta(h, ix),
    decreases h.len(),
{
    if h.len() > 0 {
        let g = h.drop_last();
        let x = h.last();
        law_deltas_are_summed_per_binding(g);
        let sg = delta_sums(g);
        let sh = delta_sums(h);
        assert(h[h.len() - 1] == x);
        assert forall|k: int| 0 <= k < g.len() implies #[trigger] h[k] == g[k] by {}
        match x.1 {
            MidiHit::Delta(d) => {
                let ix = x.0;
                if has_key(sg, ix) {
                    let p = choose|p: int| 0 <= p < sg.len() && (#[trigger] sg[p]).0 == ix;
                    lemma_add_to_found(sg, ix, d as int, p);
                    assert(sh == sg.update(p, (ix, sg[p].1 + d)));
                    assert forall|q: int| 0 <= q < sh.len() implies (#[trigger] sh[q]).1
                        == delta_total(h, sh[q].0) by {
                        assert(sg[q].1 == delta_total(g, sg[q].0));
                    }
                    assert forall|k: usize| #[trigger] has_key(sh, k) == has_delta(h, k) by {
                        if has_key(sh, k) {
                            let q = choose|q: int| 0 <= q < sh.len() && (#[trigger] sh[q]).0 == k;
                            assert(sg[q].0 == k);
                            assert(has_key(sg, k));
                            if !has_delta(h, k) {
                                let w = choose|w: int|
                                    0 <= w < g.len() && (#[trigger] g[w]).0 == k && g[w].1 is Delta;
                                assert(h[w] == g[w]);
                            }
                        }
                        if has_delta(h, k) {
                            if k != ix {
                                let w = choose|w: int|
                                    0 <= w < h.len() && (#[trigger] h[w]).0 == k && h[w].1 is Delta;
                                assert(w < g.len());
                                assert(g[w] == h[w]);
                                assert(has_delta(g, k));
                                assert(has_key(sg, k));
                                let q = choose|q: int| 0 <= q < sg.len() && (#[trigger] sg[q]).0 == k;
                                assert(sh[q].0 == k);
                            } else {
                                assert(sh[p].0 == k);
                            }
                        }
                    }
                } else {
                    assert(!has_delta(g, ix));
                    lemma_no_delta_no_total(g, ix);
                    assert(sh == sg.push((ix, d as int)));
                    assert forall|a: int, b: int| 0 <= a < b < sh.len() implies (#[trigger] sh[a]).0
                        != (#[trigger] sh[b]).0 by {
                        if b < sg.len() {
                            assert(sg[a].0 != sg[b].0);
                        } else {
                            assert(sh[a] == sg[a]);
                            assert(!(0 <= a < sg.len() && sg[a].0 == ix));
                        }
                    }
                    assert forall|q: int| 0 <= q < sh.len() implies (#[trigger] sh[q]).1
                        == delta_total(h, sh[q].0) by {
                        if q < sg.len() {
                            assert(sg[q].1 == delta_total(g, sg[q].0));
                        }
                    }
                    assert forall|k: usize| #[trigger] has_key(sh, k) == has_delta(h, k) by {
                        if k == ix {
                            assert(sh[sg.len() as int].0 == k);
                            assert(h[h.len() - 1].0 == k);
                        } else {
                            if has_key(sh, k) {
                                let q = choose|q: int| 0 <= q < sh.len() && (#[trigger] sh[q]).0 == k;
                                assert(q < sg.len());
                                assert(sg[q].0 == k);
                                assert(has_key(sg, k));
                                let w = choose|w: int|
                                    0 <= w < g.len() && (#[trigger] g[w]).0 == k && g[w].1 is Delta;
                                assert(h[w] == g[w]);
                            }
                            if has_delta(h, k) {
                                let w = choose|w: int|
                                    0 <= w < h.len() && (#[trigger] h[w]).0 == k && h[w].1 is Delta;
                                assert(w < g.len());
                                assert(g[w] == h[w]);
                                assert(has_delta(g, k));
                                assert(has_key(sg, k));
                                let q = choose|q: int| 0 <= q < sg.len() && (#[trigger] sg[q]).0 == k;
                                assert(sh[q] == sg[q]);
                            }
                        }
                    }
                }
            },
            _ => {
                assert(sh == sg);
                assert forall|q: int| 0 <= q < sh.len() implies (#[trigger] sh[q]).1
                    == delta_total(h, sh[q].0) by {
                    assert(sg[q].1 == delta_total(g, sg[q].0));
                }
                assert forall|k: usize| #[trigger] has_key(sh, k) == has_delta(h, k) by {
                    assert(has_key(sg, k) == has_delta(g, k));
                    if has_delta(h, k) {
                        let w = choose|w: int|
                            0 <= w < h.len() && (#[trigger] h[w]).0 == k && h[w].1 is Delta;
                        assert(w < g.len());
                        assert(g[w] == h[w]);
                    }
                    if has_delta(g, k) {
                        let w = choose|w: int|
                            0 <= w < g.len() && (#[trigger] g[w]).0 == k && g[w].1 is Delta;
                        assert(h[w] == g[w]);
                    }
                }
            },
        }
    }
}

/// A fader keeps the last position it was moved to in the frame: each
/// binding that moved has exactly one entry, holding its last position.
pub proof fn law_faders_keep_their_last_position(h: Seq<(usize, MidiHit)>)
    ensures
        keys_distinct(last_positions(h)),
        forall|p: int|
            0 <= p < last_positions(h).len() ==> last_position(
                h,
                (#[trigger] last_positions(h)[p]).0,
            ) == Some(last_positions(h)[p].1),
        forall|ix: usize| #[trigger] has_key(last_positions(h), ix) == last_position(h, ix) is Some,
    decreases h.len(),
{
    if h.len() > 0 {
        let g = h.drop_last();
        let x = h.last();
        law_faders_keep_their_last_position(g);
        let sg = last_positions(g);
        let sh = last_positions(h);
        match x.1 {
            MidiHit::Absolute(v) => {
                let ix = x.0;
                if has_key(sg, ix) {
                    let p = choose|p: int| 0 <= p < sg.len() && (#[trigger] sg[p]).0 == ix;
                    lemma_set_last_found(sg, ix, v, p);
                    assert(sh == sg.update(p, (ix, v)));
                    assert forall|q: int| 0 <= q < sh.len() implies last_position(
                        h,
                        (#[trigger] sh[q]).0,
                    ) == Some(sh[q].1) by {
                        if q != p {
                            assert(last_position(g, sg[q].0) == Some(sg[q].1));
                        }
                    }
                    assert forall|k: usize| #[trigger] has_key(sh, k) == last_position(h, k) is Some by {
                        assert(has_key(sg, k) == last_position(g, k) is Some);
                        if has_key(sg, k) {
                            let q = choose|q: int| 0 <= q < sg.len() && (#[trigger] sg[q]).0 == k;
                            assert(sh[q].0 == k);
                        }
                        if has_key(sh, k) {
                            let q = choose|q: int| 0 <= q < sh.len() && (#[trigger] sh[q]).0 == k;
                            assert(sg[q].0 == k);
                        }
                    }
                } else {
                    assert(sh == sg.push((ix, v)));
                    assert forall|a: int, b: int| 0 <= a < b < sh.len() implies (#[trigger] sh[a]).0
                        != (#[trigger] sh[b]).0 by {
                        if b < sg.len() {
                            assert(sg[a].0 != sg[b].0);
                        } else {
                            assert(sh[a] == sg[a]);
                            assert(!(0 <= a < sg.len() && sg[a].0 == ix));
                        }
                    }
                    assert forall|q: int| 0 <= q < sh.len() implies last_position(
                        h,
                        (#[trigger] sh[q]).0,
                    ) == Some(sh[q].1) by {
                        if q < sg.len() {
                            assert(last_position(g, sg[q].0) == Some(sg[q].1));
                            assert(sg[q].0 != ix);
                        }
                    }
                    assert forall|k: usize| #[trigger] has_key(sh, k) == last_position(h, k) is Some by {
                        assert(has_key(sg, k) == last_position(g, k) is Some);
                        if k == ix {
                            assert(sh[sg.len() as int].0 == k);
                        } else {
                            if has_key(sg, k) {
                                let q = choose|q: int| 0 <= q < sg.len() && (#[trigger] sg[q]).0 == k;
                                assert(sh[q].0 == k);
                            }
                            if has_key(sh, k) {
                                let q = choose|q: int| 0 <= q < sh.len() && (#[trigger] sh[q]).0 == k;
                                assert(q < sg.len());
                                assert(sg[q].0 == k);
                            }
                        }
                    }
                }
            },
            _ => {
                assert(sh == sg);
                assert forall|q: int| 0 <= q < sh.len() implies last_position(
                    h,
                    (#[trigger] sh[q]).0,
                ) == Some(sh[q].1) by {
                    assert(last_position(g, sg[q].0) == Some(sg[q].1));
                }
                assert forall|k: usize| #[trigger] has_key(sh, k) == last_position(h, k) is Some by {
                    assert(has_key(sg, k) == last_position(g, k) is Some);
                }
            },
        }
    }
}

/// What one frame of MIDI input asks of the bindings.
#[derive(Debug, Clone)]
pub struct MidiFrame {
    /// The input port went away: whatever MIDI held down is to be let go.
    pub disconnected: bool,
    /// The last control that moved and its value, if any did.
    pub last: Option<(MidiMsg, u8)>,
    /// Binding index and whether the button went down, in arrival order.
    pub buttons: Vec<(usize, bool)>,
    /// Binding index and its summed detents.
    pub deltas: Vec<(usize, i64)>,
    /// Binding index and its last position, 0..=127.
    pub absolutes: Vec<(usize, u8)>,
}

/// `f` holds what the hits `h` ask: the buttons in order, the deltas summed
/// and the last positions.
pub open spec fn frame_holds(f: MidiFrame, h: Seq<(usize, MidiHit)>) -> bool {
    &&& f.buttons@ == button_hits(h)
    &&& sums_match(f.deltas@, delta_sums(h))
    &&& f.absolutes@ == last_positions(h)
}

/// Each delta total is within `128 * rounds`.
pub open spec fn deltas_within(v: Seq<(usize, i64)>, rounds: int) -> bool {
    forall|p: int| 0 <= p < v.len() ==> -128 * rounds <= (#[trigger] v[p]).1 <= 128 * rounds
}

/// Route one frame of MIDI `events` (see [`route`]). Controls that arrive
/// while LEARN waits are captured into `bindings`, updating `learn` and the
/// samples in `values`; the rest reach the bindings.
pub fn midi_frame(
    bindings: &mut Vec<MidiBinding>,
    learn: &mut Option<MidiLearn>,
    values: &mut Vec<u8>,
    events: &Vec<MidiEvent>,
) -> (f: MidiFrame)
    requires
        events@.len() <= u32::MAX,
    ensures
        ({
            let r = route(old(bindings)@, *old(learn), old(values)@, events@);
            &&& final(bindings)@ == r.0
            &&& *final(learn) == r.1
            &&& final(values)@ == r.2
            &&& frame_holds(f, r.3)
        }),
        f.disconnected == has_disconnect(events@),
        f.last == last_control(events@),
{
    let ghost b0 = bindings@;
    let ghost l0 = *learn;
    let ghost v0 = values@;
    let mut f = MidiFrame {
        disconnected: false,
        last: None,
        buttons: Vec::new(),
        deltas: Vec::new(),
        absolutes: Vec::new(),
    };
    let mut i: usize = 0;
    while i < events.len()
        invariant
            i <= events@.len() <= u32::MAX,
            ({
                let r = route(b0, l0, v0, events@.take(i as int));
                &&& bindings@ == r.0
                &&& *learn == r.1
                &&& values@ == r.2
                &&& frame_holds(f, r.3)
            }),
            keys_distinct(f.deltas@),
            keys_distinct(f.absolutes@),
            deltas_within(f.deltas@, i as int),
            f.disconnected == has_disconnect(events@.take(i as int)),
            f.last == last_control(events@.take(i as int)),
        decreases events@.len() - i,
    {
        let ghost pre = events@.take(i as int);
        let ghost h = route(b0, l0, v0, pre).3;
        assert(events@.take(i + 1).drop_last() =~= pre);
        assert(events@.take(i + 1).last() == events@[i as int]);
        match &events[i] {
            MidiEvent::Control(c) => {
                let c = *c;
                f.last = Some((c.msg, c.value));
                match *learn {
                    Some(l) => {
                        learn_capture(bindings, learn, values, l.row, c.msg, c.value);
                        proof {
                            lemma_frame_deltas_grow(f.deltas@, i as int);
                        }
                    },
                    None => {
                        route_control(bindings, c, &mut f, i, Ghost(h));
                    },
                }
            },
            MidiEvent::Connected(_) => {
                proof {
                    lemma_frame_deltas_grow(f.deltas@, i as int);
                }
            },
            MidiEvent::Disconnected => {
                f.disconnected = true;
                proof {
                    lemma_frame_deltas_grow(f.deltas@, i as int);
                }
            },
        }
        proof {
            let now = events@.take(i + 1);
            assert forall|k: int| 0 <= k < now.len() && now[k] is Disconnected implies f.disconnected by {
                if k < i {
                    assert(pre[k] == now[k]);
                }
            }
            if f.disconnected {
                if !(events@[i as int] is Disconnected) {
                    let k = choose|k: int| 0 <= k < pre.len() && pre[k] is Disconnected;
                    assert(now[k] == pre[k]);
                }
                assert(now[i as int] == events@[i as int]);
            }
        }
        i = i + 1;
    }
    assert(events@.take(events@.len() as int) =~= events@);
    f
}

/// Where `s` has an entry for `ix` at `p`, adding to `ix` adds to that entry.
proof fn lemma_add_to_found(s: Seq<(usize, int)>, ix: usize, d: int, p: int)
    requires
        keys_distinct(s),
        0 <= p < s.len(),
        s[p].0 == ix,
    ensures
        add_to(s, ix, d) == s.update(p, (ix, s[p].1 + d)),
{
    let q = choose|q: int| 0 <= q < s.len() && s[q].0 == ix;
    assert(0 <= q < s.len() && s[q].0 == ix);
    if q < p {
        assert(s[q].0 != s[p].0);
    } else if q > p {
        assert(s[p].0 != s[q].0);
    }
}

/// Where `s` has an entry for `ix` at `p`, setting `ix` sets that entry.
proof fn lemma_set_last_found(s: Seq<(usize, u8)>, ix: usize, v: u8, p: int)
    requires
        keys_distinct(s),
        0 <= p < s.len(),
        s[p].0 == ix,
    ensures
        set_last(s, ix, v) == s.update(p, (ix, v)),
{
    let q = choose|q: int| 0 <= q < s.len() && s[q].0 == ix;
    assert(0 <= q < s.len() && s[q].0 == ix);
    if q < p {
        assert(s[q].0 != s[p].0);
    } else if q > p {
        assert(s[p].0 != s[q].0);
    }
}

/// A larger bound holds where a smaller one did.
proof fn lemma_frame_deltas_grow(v: Seq<(usize, i64)>, i: int)
    requires
        i >= 0,
        deltas_within(v, i),
    ensures
        deltas_within(v, i + 1),
{
    assert forall|p: int| 0 <= p < v.len() implies -128 * (i + 1) <= (#[trigger] v[p]).1 <= 128 * (
    i + 1) by {}
}

/// Add the hits of control `c` on every binding to `f`, whose totals are
/// within `128 * round` and grow by at most 128.
fn route_control(
    bindings: &Vec<MidiBinding>,
    c: MidiControl,
    f: &mut MidiFrame,
    round: usize,
    Ghost(h): Ghost<Seq<(usize, MidiHit)>>,
)
    requires
        round < u32::MAX,
        frame_holds(*old(f), h),
        keys_distinct(old(f).deltas@),
        keys_distinct(old(f).absolutes@),
        deltas_within(old(f).deltas@, round as int),
    ensures
        frame_holds(*final(f), h + control_hits(bindings@, c, bindings@.len())),
        keys_distinct(final(f).deltas@),
        keys_distinct(final(f).absolutes@),
        deltas_within(final(f).deltas@, round + 1),
        final(f).disconnected == old(f).disconnected,
        final(f).last == old(f).last,
{
    let n = bindings.len();
    let mut j: usize = 0;
    assert(h + control_hits(bindings@, c, 0) =~= h);
    while j < n
        invariant
            n == bindings@.len(),
            j <= n,
            round < u32::MAX,
            frame_holds(*f, h + control_hits(bindings@, c, j as nat)),
            keys_distinct(f.deltas@),
            keys_distinct(f.absolutes@),
            forall|p: int|
                0 <= p < f.deltas@.len() ==> {
                    let e = #[trigger] f.deltas@[p];
                    &&& e.0 < j ==> -128 * (round + 1) <= e.1 <= 128 * (round + 1)
                    &&& e.0 >= j ==> -128 * round <= e.1 <= 128 * round
                },
            f.disconnected == old(f).disconnected,
            f.last == old(f).last,
        decreases n - j,
    {
        let ghost hj = h + control_hits(bindings@, c, j as nat);
        let b = bindings[j];
        if b.enabled && b.msg.matches(&c.msg) {
            match b.action.kind() {
                ActionKind::Continuous => match b.relative.decode(c.value) {
                    Some(d) => {
                        let ghost x = (j, MidiHit::Delta(d));
                        assert(hj.push(x).drop_last() =~= hj);
                        add_delta(&mut f.deltas, j, d as i64, Ghost(delta_sums(hj)), round);
                        proof {
                            assert(h + control_hits(bindings@, c, (j + 1) as nat) =~= hj.push(x));
                        }
                    },
                    None => {
                        let ghost x = (j, MidiHit::Absolute(c.value));
                        assert(hj.push(x).drop_last() =~= hj);
                        set_position(&mut f.absolutes, j, c.value);
                        proof {
                            assert(h + control_hits(bindings@, c, (j + 1) as nat) =~= hj.push(x));
                        }
                    },
                },
                ActionKind::Momentary => {
                    let down = if b.relative == RelativeMode::Absolute {
                        !c.off && c.value > 0
                    } else {
                        true
                    };
                    let ghost x = (j, MidiHit::Button(down));
                    assert(hj.push(x).drop_last() =~= hj);
                    f.buttons.push((j, down));
                    proof {
                        assert(h + control_hits(bindings@, c, (j + 1) as nat) =~= hj.push(x));
                    }
                },
            }
        } else {
            assert(h + control_hits(bindings@, c, (j + 1) as nat) =~= hj);
        }
        j = j + 1;
    }
    assert forall|p: int| 0 <= p < f.deltas@.len() implies -128 * (round + 1) <= (
    #[trigger] f.deltas@[p]).1 <= 128 * (round + 1) by {}
}

/// Add `d` to the entry for `ix` in `deltas`, or append `(ix, d)`; `s` is
/// what `deltas` holds, as integers. Totals are within `128 * round`, and
/// that of `ix` within it before this call.
fn add_delta(
    deltas: &mut Vec<(usize, i64)>,
    ix: usize,
    d: i64,
    Ghost(s): Ghost<Seq<(usize, int)>>,
    round: usize,
)
    requires
        -128 <= d <= 128,
        round < u32::MAX,
        sums_match(old(deltas)@, s),
        keys_distinct(old(deltas)@),
        forall|p: int|
            0 <= p < old(deltas)@.len() && (#[trigger] old(deltas)@[p]).0 >= ix ==> -128 * round
                <= old(deltas)@[p].1 <= 128 * round,
        forall|p: int|
            0 <= p < old(deltas)@.len() && (#[trigger] old(deltas)@[p]).0 < ix ==> -128 * (round
                + 1) <= old(deltas)@[p].1 <= 128 * (round + 1),
    ensures
        sums_match(final(deltas)@, add_to(s, ix, d as int)),
        keys_distinct(final(deltas)@),
        forall|p: int|
            0 <= p < final(deltas)@.len() ==> {
                let e = #[trigger] final(deltas)@[p];
                &&& e.0 < ix + 1 ==> -128 * (round + 1) <= e.1 <= 128 * (round + 1)
                &&& e.0 >= ix + 1 ==> -128 * round <= e.1 <= 128 * round
            },
{
    let mut p: usize = 0;
    while p < deltas.len()
        invariant
            p <= deltas@.len(),
            deltas@ == old(deltas)@,
            forall|q: int| 0 <= q < p ==> (#[trigger] deltas@[q]).0 != ix,
        ensures
            p <= deltas@.len(),
            deltas@ == old(deltas)@,
            p < deltas@.len() ==> deltas@[p as int].0 == ix,
            forall|q: int| 0 <= q < p ==> (#[trigger] deltas@[q]).0 != ix,
        decreases deltas@.len() - p,
    {
        if deltas[p].0 == ix {
            break;
        }
        p = p + 1;
    }
    if p < deltas.len() {
        proof {
            assert(exists|q: int| 0 <= q < s.len() && s[q].0 == ix) by {
                assert(s[p as int].0 == ix);
            }
            assert forall|a: int, b: int| 0 <= a < b < s.len() implies (#[trigger] s[a]).0 != (
            #[trigger] s[b]).0 by {
                assert(deltas@[a].0 != deltas@[b].0);
            }
            lemma_add_to_found(s, ix, d as int, p as int);
        }
        let old_total = deltas[p].1;
        deltas.set(p, (ix, old_total + d));
        proof {
            let t = add_to(s, ix, d as int);
            assert(deltas@ == old(deltas)@.update(p as int, (ix, (old_total + d) as i64)));
            assert forall|q: int| 0 <= q < deltas@.len() implies (#[trigger] deltas@[q]).0 == t[q].0
                && deltas@[q].1 == t[q].1 by {}
            assert forall|a: int, b: int| 0 <= a < b < deltas@.len() implies (
            #[trigger] deltas@[a]).0 != (#[trigger] deltas@[b]).0 by {
                assert(old(deltas)@[a].0 != old(deltas)@[b].0);
            }
        }
    } else {
        proof {
            assert(!exists|q: int| 0 <= q < s.len() && s[q].0 == ix) by {
                assert forall|q: int| 0 <= q < s.len() implies s[q].0 != ix by {
                    assert(deltas@[q].0 == s[q].0);
                }
            }
        }
        deltas.push((ix, d));
        proof {
            let t = add_to(s, ix, d as int);
            assert(t == s.push((ix, d as int)));
            assert forall|q: int| 0 <= q < deltas@.len() implies (#[trigger] deltas@[q]).0 == t[q].0
                && deltas@[q].1 == t[q].1 by {}
            assert forall|a: int, b: int| 0 <= a < b < deltas@.len() implies (
            #[trigger] deltas@[a]).0 != (#[trigger] deltas@[b]).0 by {
                if b < old(deltas)@.len() {
                    assert(old(deltas)@[a].0 != old(deltas)@[b].0);
                } else {
                    assert(deltas@[a] == old(deltas)@[a]);
                }
            }
        }
    }
}

/// Set the entry for `ix` in `positions` to `v`, or append `(ix, v)`.
fn set_position(positions: &mut Vec<(usize, u8)>, ix: usize, v: u8)
    requires
        keys_distinct(old(positions)@),
    ensures
        final(positions)@ == set_last(old(positions)@, ix, v),
        keys_distinct(final(positions)@),
{
    let ghost s = positions@;
    let mut p: usize = 0;
    while p < positions.len()
        invariant
            p <= positions@.len(),
            positions@ == s,
            forall|q: int| 0 <= q < p ==> (#[trigger] positions@[q]).0 != ix,
        ensures
            p <= positions@.len(),
            positions@ == s,
            p < positions@.len() ==> positions@[p as int].0 == ix,
            forall|q: int| 0 <= q < p ==> (#[trigger] positions@[q]).0 != ix,
        decreases positions@.len() - p,
    {
        if positions[p].0 == ix {
            break;
        }
        p = p + 1;
    }
    if p < positions.len() {
        proof {
            assert(s[p as int].0 == ix);
            lemma_set_last_found(s, ix, v, p as int);
        }
        positions.set(p, (ix, v));
        proof {
            assert forall|a: int, b: int| 0 <= a < b < positions@.len() implies (
            #[trigger] positions@[a]).0 != (#[trigger] positions@[b]).0 by {
                assert(s[a].0 != s[b].0);
            }
        }
    } else {
        positions.push((ix, v));
        proof {
            assert forall|a: int, b: int| 0 <= a < b < positions@.len() implies (
            #[trigger] positions@[a]).0 != (#[trigger] positions@[b]).0 by {
                if b < s.len() {
                    assert(s[a].0 != s[b].0);
                } else {
                    assert(positions@[a] == s[a]);
                }
            }
        }
    }
}

/// The values to send back to the controller: for each enabled binding that
/// asks for feedback, in binding order, its control and the indicator of its
/// action, where the action has one. `indicators[i]` is that of binding `i`.
pub open spec fn feedback_of(bindings: Seq<MidiBinding>, indicators: Seq<Option<u8>>) -> Seq<
    (MidiMsg, u8),
>
    decreases bindings.len(),
{
    if bindings.len() == 0 {
        Seq::empty()
    } else {
        let i = bindings.len() - 1;
        let prev = feedback_of(bindings.drop_last(), indicators);
        let b = bindings.last();
        if b.enabled && b.feedback && indicators[i] is Some {
            prev.push((b.msg, indicators[i]->0))
        } else {
            prev
        }
    }
}

/// What to send back to the controller, so that an LED tracks PTT and a
/// motor fader tracks the volume (see [`feedback_of`]).
pub fn midi_feedback(bindings: &Vec<MidiBinding>, indicators: &Vec<Option<u8>>) -> (out: Vec<
    (MidiMsg, u8),
>)
    requires
        indicators@.len() == bindings@.len(),
    ensures
        out@ == feedback_of(bindings@, indicators@),
{
    let mut out: Vec<(MidiMsg, u8)> = Vec::new();
    let mut i: usize = 0;
    while i < bindings.len()
        invariant
            indicators@.len() == bindings@.len(),
            i <= bindings@.len(),
            out@ == feedback_of(bindings@.take(i as int), indicators@),
        decreases bindings@.len() - i,
    {
        assert(bindings@.take(i + 1).drop_last() =~= bindings@.take(i as int));
        assert(bindings@.take(i + 1).last() == bindings@[i as int]);
        let b = bindings[i];
        if b.enabled && b.feedback {
            if let Some(v) = indicators[i] {
                out.push((b.msg, v));
            }
        }
        i = i + 1;
    }
    assert(bindings@.take(bindings@.len() as int) =~= bindings@);
    out
}

} // verus!
