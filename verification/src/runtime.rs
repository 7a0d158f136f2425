//! The input runtime's own bookkeeping: which controls are held down, how a
//! frame of RC-28 events becomes turns, presses and releases, MIDI LEARN, and
//! stepping through the bands.

use vstd::prelude::*;

use crate::input::{
    Action, ActionKind, ButtonMode, MidiBinding, MidiMsg, action_kind, guess_spec,
    RelativeMode,
};
use crate::proto::{Detents, Input, Key, key_label, whole_detents};
use crate::radio::Band;
use crate::rc28::{Rc28Event, Rc28Status};
use crate::text::{decimal, push_decimal};

verus! {

/// Which binding an in-flight momentary press came from.
#[derive(Debug, Clone, Copy, PartialEq, Eq, Structural)]
pub enum HeldSource {
    Key(usize),
    Mouse(usize),
    Midi(usize),
    Rc28(Key),
}

/// One control held down: where from, what it asserted and how, and when
/// (a time of the caller's choosing).
#[derive(Debug, Clone, Copy)]
pub struct Held<T> {
    pub src: HeldSource,
    pub action: Action,
    pub mode: ButtonMode,
    pub since: T,
}

/// The sources of `held`, in order.
pub open spec fn sources<T>(held: Seq<Held<T>>) -> Seq<HeldSource> {
    held.map_values(|h: Held<T>| h.src)
}

/// No source is held twice.
pub open spec fn distinct_sources<T>(held: Seq<Held<T>>) -> bool {
    forall|i: int, j: int|
        0 <= i < held.len() && 0 <= j < held.len() && i != j ==> (#[trigger] held[i]).src
            != (#[trigger] held[j]).src
}

/// Whether `src` is held.
pub open spec fn is_held<T>(held: Seq<Held<T>>, src: HeldSource) -> bool {
    exists|i: int| 0 <= i < held.len() && (#[trigger] held[i]).src == src
}

/// What `held` is after a press: a momentary press of a source not already
/// held is recorded; a toggle has nothing to hold.
pub open spec fn after_press<T>(
    held: Seq<Held<T>>,
    src: HeldSource,
    action: Action,
    mode: ButtonMode,
    since: T,
) -> Seq<Held<T>> {
    if mode == ButtonMode::Momentary && !is_held(held, src) {
        held.push(Held { src, action, mode, since })
    } else {
        held
    }
}

/// The controls currently held down, each source at most once.
pub struct HeldSet<T> {
    items: Vec<Held<T>>,
}

impl<T> View for HeldSet<T> {
    type V = Seq<Held<T>>;

    closed spec fn view(&self) -> Seq<Held<T>> {
        self.items@
    }
}

impl<T> HeldSet<T> {
    #[verifier::type_invariant]
    spec fn no_source_twice(&self) -> bool {
        distinct_sources(self.items@)
    }
}

impl<T: Copy> HeldSet<T> {
    /// Nothing held.
    pub fn new() -> (s: HeldSet<T>)
        ensures
            s@ == Seq::<Held<T>>::empty(),
    {
        HeldSet { items: Vec::new() }
    }

    /// Whether anything is held.
    pub fn any(&self) -> (b: bool)
        ensures
            b == (self@.len() > 0),
    {
        self.items.len() > 0
    }

    /// Everything held, in the order it was pressed.
    pub fn items(&self) -> (v: &Vec<Held<T>>)
        ensures
            v@ == self@,
    {
        &self.items
    }

    fn position(&self, src: HeldSource) -> (r: Option<usize>)
        ensures
            r matches Some(i) ==> i < self@.len() && self@[i as int].src == src,
            r is None ==> !is_held(self@, src),
    {
        let mut i: usize = 0;
        while i < self.items.len()
            invariant
                i <= self.items@.len(),
                forall|k: int| 0 <= k < i ==> (#[trigger] self.items@[k]).src != src,
            decreases self.items@.len() - i,
        {
            if self.items[i].src == src {
                return Some(i);
            }
            i = i + 1;
        }
        None
    }

    /// A press (see [`after_press`]).
    pub fn press(&mut self, src: HeldSource, action: Action, mode: ButtonMode, since: T)
        ensures
            final(self)@ == after_press(old(self)@, src, action, mode, since),
    {
        proof {
            use_type_invariant(&*self);
        }
        if mode == ButtonMode::Momentary && self.position(src).is_none() {
            let ghost before = self.items@;
            let mut items: Vec<Held<T>> = Vec::new();
            std::mem::swap(&mut items, &mut self.items);
            items.push(Held { src, action, mode, since });
            assert forall|i: int, j: int|
                0 <= i < items@.len() && 0 <= j < items@.len() && i != j implies (
            #[trigger] items@[i]).src != (#[trigger] items@[j]).src by {
                if i < before.len() && j < before.len() {
                    assert(items@[i] == before[i]);
                    assert(items@[j] == before[j]);
                } else if i < before.len() {
                    assert(items@[i] == before[i]);
                } else if j < before.len() {
                    assert(items@[j] == before[j]);
                }
            }
            std::mem::swap(&mut items, &mut self.items);
        }
    }

    /// Release `src`, if it is held: the action to de-assert. What is
    /// released is what was pressed, whatever the binding says now.
    pub fn release(&mut self, src: HeldSource) -> (r: Option<Action>)
        ensures
            !is_held(final(self)@, src),
            r is None == !is_held(old(self)@, src),
            r is None ==> final(self)@ == old(self)@,
            r matches Some(a) ==> exists|i: int|
                0 <= i < old(self)@.len() && old(self)@[i].src == src && old(self)@[i].action == a
                    && final(self)@ == old(self)@.remove(i),
            (final(self)@, r) == release_spec(old(self)@, src),
    {
        proof {
            use_type_invariant(&*self);
        }
        match self.position(src) {
            None => None,
            Some(i) => {
                let ghost before = self.items@;
                let mut items: Vec<Held<T>> = Vec::new();
                std::mem::swap(&mut items, &mut self.items);
                let h = items.remove(i);
                proof {
                    assert(before[i as int] == h);
                    assert forall|k: int| 0 <= k < items@.len() implies (
                    #[trigger] items@[k]).src != src by {
                        if k < i {
                            assert(items@[k] == before[k]);
                        } else {
                            assert(items@[k] == before[k + 1]);
                        }
                    }
                    assert forall|a: int, b: int|
                        0 <= a < items@.len() && 0 <= b < items@.len() && a != b implies (
                    #[trigger] items@[a]).src != (#[trigger] items@[b]).src by {
                        let a2 = if a < i {
                            a
                        } else {
                            a + 1
                        };
                        let b2 = if b < i {
                            b
                        } else {
                            b + 1
                        };
                        assert(items@[a] == before[a2]);
                        assert(items@[b] == before[b2]);
                    }
                    assert(items@ =~= before.remove(i as int));
                    let c = choose|c: int| 0 <= c < before.len() && (#[trigger] before[c]).src == src;
                    if c != i {
                        assert(before[c].src == before[i as int].src);
                    }
                }
                std::mem::swap(&mut items, &mut self.items);
                Some(h.action)
            },
        }
    }

    /// Release everything held, in the order it was pressed.
    pub fn release_all(&mut self) -> (out: Vec<Action>)
        ensures
            final(self)@ == Seq::<Held<T>>::empty(),
            out@ == old(self)@.map_values(|h: Held<T>| h.action),
    {
        let mut out: Vec<Action> = Vec::new();
        let mut i: usize = 0;
        while i < self.items.len()
            invariant
                i <= self.items@.len(),
                out@ == self.items@.take(i as int).map_values(|h: Held<T>| h.action),
            decreases self.items@.len() - i,
        {
            out.push(self.items[i].action);
            i = i + 1;
            assert(out@ =~= self.items@.take(i as int).map_values(|h: Held<T>| h.action));
        }
        assert(self.items@.take(self.items@.len() as int) =~= self.items@);
        self.items = Vec::new();
        out
    }
}

/// The actions held from sources of `class`, in the order they were pressed.
pub open spec fn class_actions<T>(held: Seq<Held<T>>, class: HeldClass) -> Seq<Action> {
    held.filter(|h: Held<T>| in_class(h.src, class)).map_values(|h: Held<T>| h.action)
}

/// The holds of sources outside `class`, in order.
pub open spec fn class_kept<T>(held: Seq<Held<T>>, class: HeldClass) -> Seq<Held<T>> {
    held.filter(|h: Held<T>| !in_class(h.src, class))
}

/// What `held` is after `src` is released, and the action released: the
/// hold of `src` is removed, if there is one.
pub open spec fn release_spec<T>(held: Seq<Held<T>>, src: HeldSource) -> (Seq<Held<T>>, Option<Action>) {
    if is_held(held, src) {
        let i = choose|i: int| 0 <= i < held.len() && (#[trigger] held[i]).src == src;
        (held.remove(i), Some(held[i].action))
    } else {
        (held, None)
    }
}

/// A class of held sources, for letting go of everything one transport held.
#[derive(Debug, Clone, Copy, PartialEq, Eq, Structural)]
pub enum HeldClass {
    /// The RC-28's buttons, when the device goes.
    Rc28,
    /// A MIDI surface's controls, when it goes.
    Midi,
    /// Everything but the RC-28: keys and mouse buttons cannot be read while
    /// the window is hidden, and the RC-28 reports its own releases.
    NotRc28,
}

/// Whether `src` is in `class`.
pub open spec fn in_class(src: HeldSource, class: HeldClass) -> bool {
    match class {
        HeldClass::Rc28 => src is Rc28,
        HeldClass::Midi => src is Midi,
        HeldClass::NotRc28 => !(src is Rc28),
    }
}

fn src_in_class(src: HeldSource, class: HeldClass) -> (b: bool)
    ensures
        b == in_class(src, class),
{
    match class {
        HeldClass::Rc28 => matches!(src, HeldSource::Rc28(_)),
        HeldClass::Midi => matches!(src, HeldSource::Midi(_)),
        HeldClass::NotRc28 => !matches!(src, HeldSource::Rc28(_)),
    }
}

impl<T: Copy> HeldSet<T> {
    /// Release every held source of `class`, in the order they were pressed:
    /// the actions to de-assert. Everything else stays held, in order.
    pub fn release_class(&mut self, class: HeldClass) -> (out: Vec<Action>)
        ensures
            out@ == class_actions(old(self)@, class),
            final(self)@ == class_kept(old(self)@, class),
    {
        proof {
            use_type_invariant(&*self);
        }
        let ghost all = self.items@;
        let mut out: Vec<Action> = Vec::new();
        let mut keep: Vec<Held<T>> = Vec::new();
        let mut i: usize = 0;
        while i < self.items.len()
            invariant
                i <= self.items@.len(),
                all == self.items@,
                distinct_sources(all),
                out@ == all.take(i as int).filter(|h: Held<T>| in_class(h.src, class)).map_values(
                    |h: Held<T>| h.action,
                ),
                keep@ == all.take(i as int).filter(|h: Held<T>| !in_class(h.src, class)),
            decreases self.items@.len() - i,
        {
            let h = self.items[i];
            reveal_with_fuel(Seq::filter, 1);
            assert(all.take(i + 1).drop_last() =~= all.take(i as int));
            if src_in_class(h.src, class) {
                out.push(h.action);
            } else {
                keep.push(h);
            }
            i = i + 1;
            assert(out@ =~= all.take(i as int).filter(|h: Held<T>| in_class(h.src, class)).map_values(
                |h: Held<T>| h.action,
            ));
        }
        assert(all.take(all.len() as int) =~= all);
        proof {
            let f = all.filter(|h: Held<T>| !in_class(h.src, class));
            assert forall|a: int, b: int|
                0 <= a < f.len() && 0 <= b < f.len() && a != b implies (#[trigger] f[a]).src != (
            #[trigger] f[b]).src by {
                lemma_filter_index_injective(all, |h: Held<T>| !in_class(h.src, class), a, b);
            }
        }
        self.items = keep;
        out
    }
}

/// Every element of `s.filter(p)` is an element of `s`.
pub(crate) proof fn lemma_filter_elem_in<A>(s: Seq<A>, p: spec_fn(A) -> bool, k: int)
    requires
        0 <= k < s.filter(p).len(),
    ensures
        exists|m: int| 0 <= m < s.len() && s[m] == s.filter(p)[k],
    decreases s.len(),
{
    reveal_with_fuel(Seq::filter, 1);
    if s.len() > 0 {
        let d = s.drop_last();
        let fd = d.filter(p);
        if p(s.last()) && k == fd.len() {
            assert(s[s.len() - 1] == s.filter(p)[k]);
        } else {
            lemma_filter_elem_in(d, p, k);
            let m = choose|m: int| 0 <= m < d.len() && d[m] == fd[k];
            assert(s[m] == s.filter(p)[k]);
        }
    }
}

/// Distinct positions of `s.filter(p)` hold holds of distinct sources, as
/// those of `s` do.
proof fn lemma_filter_index_injective<T>(s: Seq<Held<T>>, p: spec_fn(Held<T>) -> bool, a: int, b: int)
    requires
        distinct_sources(s),
        0 <= a < s.filter(p).len(),
        0 <= b < s.filter(p).len(),
        a != b,
    ensures
        s.filter(p)[a].src != s.filter(p)[b].src,
    decreases s.len(),
{
    reveal_with_fuel(Seq::filter, 1);
    let f = s.filter(p);
    if s.len() > 0 {
        let d = s.drop_last();
        assert forall|i: int, j: int|
            0 <= i < d.len() && 0 <= j < d.len() && i != j implies (#[trigger] d[i]).src != (
        #[trigger] d[j]).src by {
            assert(d[i] == s[i]);
            assert(d[j] == s[j]);
        }
        let fd = d.filter(p);
        if p(s.last()) {
            assert(f == fd.push(s.last()));
            if a < fd.len() && b < fd.len() {
                lemma_filter_index_injective(d, p, a, b);
            } else {
                let k = if a < fd.len() {
                    a
                } else {
                    b
                };
                lemma_filter_elem_in(d, p, k);
                let x = fd[k];
                let m = choose|m: int| 0 <= m < d.len() && d[m] == x;
                assert(s[m] == x);
                assert(s[s.len() - 1] == s.last());
            }
        } else {
            assert(f == fd);
            lemma_filter_index_injective(d, p, a, b);
        }
    }
}

// ── The RC-28, a frame at a time ────────────────────────────────────────────

/// What a frame of RC-28 events asks of the runtime, in the order it
/// happened.
#[derive(Debug, Clone, Copy, PartialEq, Eq, Structural)]
pub enum Rc28Step {
    /// Turn the knob's action by this many whole detents.
    Turn(i64),
    /// A button went down or came up.
    Key { key: Key, down: bool },
    /// The device is gone: release whatever it was holding.
    ReleaseHolds,
}

/// The steps a frame of `events` gives, with `carry` knob counts left over
/// from before: turns gathered into whole detents and summed up to each
/// button event (a turn step only where there are detents and the knob's
/// action takes them), connects and disconnects forgetting the carry, and a
/// disconnect releasing the holds. Returns the steps and the carry after.
pub open spec fn frame_steps(
    events: Seq<Rc28Event>,
    carry: int,
    pending: int,
    knob_continuous: bool,
) -> (Seq<Rc28Step>, int)
    decreases events.len(),
{
    if events.len() == 0 {
        (flush(pending, knob_continuous), carry)
    } else {
        let (steps, carry2, pending2) = match events[0] {
            Rc28Event::Input(Input::Turn(n)) => (
                Seq::<Rc28Step>::empty(),
                carry + n - 10 * whole_detents(carry + n),
                pending + whole_detents(carry + n),
            ),
            Rc28Event::Input(Input::Key { key, down }) => (
                flush(pending, knob_continuous).push(Rc28Step::Key { key, down }),
                carry,
                0,
            ),
            Rc28Event::Connected(_) => (Seq::<Rc28Step>::empty(), 0, pending),
            Rc28Event::Disconnected => (seq![Rc28Step::ReleaseHolds], 0, pending),
        };
        let (rest, c) = frame_steps(events.drop_first(), carry2, pending2, knob_continuous);
        (steps + rest, c)
    }
}

/// A turn of `pending` detents, where there is one to make.
pub open spec fn flush(pending: int, knob_continuous: bool) -> Seq<Rc28Step> {
    if pending != 0 && knob_continuous {
        seq![Rc28Step::Turn(pending as i64)]
    } else {
        Seq::empty()
    }
}

/// The knob counts the turns of `events` add up to.
pub open spec fn counts_turned(events: Seq<Rc28Event>) -> int
    decreases events.len(),
{
    if events.len() == 0 {
        0
    } else {
        (match events[0] {
            Rc28Event::Input(Input::Turn(n)) => n as int,
            _ => 0,
        }) + counts_turned(events.drop_first())
    }
}

/// The size of every turn of `events`, added up regardless of direction.
pub open spec fn counts_moved(events: Seq<Rc28Event>) -> int
    decreases events.len(),
{
    if events.len() == 0 {
        0
    } else {
        (match events[0] {
            Rc28Event::Input(Input::Turn(n)) => if n < 0 {
                -n
            } else {
                n as int
            },
            _ => 0,
        }) + counts_moved(events.drop_first())
    }
}

/// The detents the turn steps of `steps` add up to.
pub open spec fn detents_stepped(steps: Seq<Rc28Step>) -> int
    decreases steps.len(),
{
    if steps.len() == 0 {
        0
    } else {
        (match steps[0] {
            Rc28Step::Turn(t) => t as int,
            _ => 0,
        }) + detents_stepped(steps.drop_first())
    }
}

/// Whether every event of `events` came from the device's reports (no
/// connect or disconnect, which forget the carry).
pub open spec fn only_inputs(events: Seq<Rc28Event>) -> bool {
    forall|i: int| 0 <= i < events.len() ==> #[trigger] events[i] is Input
}

proof fn lemma_detents_stepped_append(a: Seq<Rc28Step>, b: Seq<Rc28Step>)
    ensures
        detents_stepped(a + b) == detents_stepped(a) + detents_stepped(b),
    decreases a.len(),
{
    if a.len() == 0 {
        assert(a + b =~= b);
    } else {
        assert((a + b).drop_first() =~= a.drop_first() + b);
        lemma_detents_stepped_append(a.drop_first(), b);
    }
}

proof fn lemma_whole_detents_step(carry: int, n: int)
    requires
        -10 < carry < 10,
    ensures
        -10 < carry + n - 10 * whole_detents(carry + n) < 10,
        -(if n < 0 { -n } else { n }) <= whole_detents(carry + n) <= (if n < 0 { -n } else { n }),
{
}

proof fn lemma_frame_counts(events: Seq<Rc28Event>, carry: int, pending: int)
    requires
        -10 < carry < 10,
        only_inputs(events),
        i64::MIN <= pending - counts_moved(events),
        pending + counts_moved(events) <= i64::MAX,
    ensures
        10 * detents_stepped(frame_steps(events, carry, pending, true).0)
            + frame_steps(events, carry, pending, true).1 == carry + 10 * pending + counts_turned(
            events,
        ),
    decreases events.len(),
{
    if events.len() == 0 {
        assert(counts_moved(events) == 0);
        lemma_flush_detents(pending);
    } else {
        let rest = events.drop_first();
        assert(only_inputs(rest)) by {
            assert forall|i: int| 0 <= i < rest.len() implies #[trigger] rest[i] is Input by {
                assert(rest[i] == events[i + 1]);
            }
        }
        assert(events[0] is Input);
        assert(counts_moved(rest) >= 0) by {
            lemma_counts_moved_nonneg(rest);
        }
        match events[0] {
            Rc28Event::Input(Input::Turn(n)) => {
                lemma_whole_detents_step(carry, n as int);
                let w = whole_detents(carry + n);
                lemma_frame_counts(rest, carry + n - 10 * w, pending + w);
                let (r, c) = frame_steps(rest, carry + n - 10 * w, pending + w, true);
                assert(Seq::<Rc28Step>::empty() + r =~= r);
                assert(frame_steps(events, carry, pending, true) == (Seq::<Rc28Step>::empty() + r, c));
                assert(counts_turned(events) == n + counts_turned(rest));
            },
            Rc28Event::Input(Input::Key { key, down }) => {
                lemma_frame_counts(rest, carry, 0);
                let f = flush(pending, true);
                lemma_flush_detents(pending);
                let k = f.push(Rc28Step::Key { key, down });
                assert(k =~= f + seq![Rc28Step::Key { key, down }]);
                lemma_detents_stepped_append(f, seq![Rc28Step::Key { key, down }]);
                let one = seq![Rc28Step::Key { key, down }];
                assert(one.drop_first() =~= Seq::<Rc28Step>::empty());
                assert(detents_stepped(one.drop_first()) == 0);
                assert(one[0] == Rc28Step::Key { key, down });
                assert(detents_stepped(one) == 0);
                let (r, c) = frame_steps(rest, carry, 0, true);
                lemma_detents_stepped_append(k, r);
                assert(frame_steps(events, carry, pending, true) == (k + r, c));
                assert(counts_turned(events) == counts_turned(rest));
                assert(detents_stepped(k) == pending);
            },
            _ => {},
        }
    }
}

proof fn lemma_flush_detents(pending: int)
    requires
        i64::MIN <= pending <= i64::MAX,
    ensures
        detents_stepped(flush(pending, true)) == pending,
{
    if pending != 0 {
        let t = Rc28Step::Turn(pending as i64);
        let f = flush(pending, true);
        assert(f.len() == 1);
        assert(f[0] == t);
        assert(f.drop_first() =~= Seq::<Rc28Step>::empty());
        assert(detents_stepped(f.drop_first()) == 0);
        assert((pending as i64) as int == pending);
    } else {
        assert(flush(pending, true) =~= Seq::<Rc28Step>::empty());
    }
}

proof fn lemma_counts_moved_nonneg(events: Seq<Rc28Event>)
    ensures
        counts_moved(events) >= 0,
    decreases events.len(),
{
    if events.len() > 0 {
        lemma_counts_moved_nonneg(events.drop_first());
    }
}

/// No detent is lost in a frame: with the knob's action taking detents, the
/// turn steps of a frame of reports add up to the whole detents its turns
/// complete, counting the carry from before and leaving less than one
/// detent carried, whatever presses and releases lie between the turns.
pub proof fn law_no_detent_is_lost_in_a_frame(events: Seq<Rc28Event>, carry: int)
    requires
        -10 < carry < 10,
        only_inputs(events),
        counts_moved(events) <= i64::MAX,
    ensures
        10 * detents_stepped(frame_steps(events, carry, 0, true).0) + frame_steps(
            events,
            carry,
            0,
            true,
        ).1 == carry + counts_turned(events),
        -10 < frame_steps(events, carry, 0, true).1 < 10,
{
    lemma_counts_moved_nonneg(events);
    lemma_frame_counts(events, carry, 0);
    lemma_frame_carry(events, carry, 0);
}

proof fn lemma_frame_carry(events: Seq<Rc28Event>, carry: int, pending: int)
    requires
        -10 < carry < 10,
    ensures
        -10 < frame_steps(events, carry, pending, true).1 < 10,
    decreases events.len(),
{
    if events.len() > 0 {
        let rest = events.drop_first();
        match events[0] {
            Rc28Event::Input(Input::Turn(n)) => {
                lemma_whole_detents_step(carry, n as int);
                let w = whole_detents(carry + n);
                lemma_frame_carry(rest, carry + n - 10 * w, pending + w);
            },
            Rc28Event::Input(Input::Key { .. }) => {
                lemma_frame_carry(rest, carry, 0);
            },
            _ => {
                lemma_frame_carry(rest, 0, pending);
            },
        }
    }
}

/// Whether every turn in `events` is small enough that adding it to a carry
/// of less than one detent cannot overflow.
pub open spec fn turns_bounded(events: Seq<Rc28Event>) -> bool {
    forall|i: int|
        0 <= i < events.len() ==> (#[trigger] events[i] matches Rc28Event::Input(Input::Turn(n))
            ==> -0x7fff_fff6 <= n <= 0x7fff_fff6)
}

/// Turn one frame of RC-28 events into steps, gathering knob counts into
/// whole detents with `detents` (which carries the remainder across frames).
/// A button event first applies the turns before it, so a knob moved and a
/// button pressed in one frame land in the order they happened.
pub fn rc28_frame(events: &Vec<Rc28Event>, detents: &mut Detents, knob_continuous: bool) -> (steps:
    Vec<Rc28Step>)
    requires
        events@.len() <= u32::MAX,
        -10 < old(detents)@ < 10,
        turns_bounded(events@),
    ensures
        (steps@, final(detents)@) == frame_steps(events@, old(detents)@, 0, knob_continuous),
        -10 < final(detents)@ < 10,
{
    let mut steps: Vec<Rc28Step> = Vec::new();
    let mut pending: i64 = 0;
    let mut i: usize = 0;
    assert(events@.skip(0) =~= events@);
    while i < events.len()
        invariant
            i <= events@.len(),
            events@.len() <= u32::MAX,
            turns_bounded(events@),
            -10 < detents@ < 10,
            -0x1000_0000 * i <= pending <= 0x1000_0000 * i,
            frame_steps(events@, old(detents)@, 0, knob_continuous) == ({
                let (rest, c) = frame_steps(
                    events@.skip(i as int),
                    detents@,
                    pending as int,
                    knob_continuous,
                );
                (steps@ + rest, c)
            }),
        decreases events@.len() - i,
    {
        let ghost before = steps@;
        let ghost p = pending as int;
        let ghost tail = events@.skip(i as int);
        assert(tail.drop_first() =~= events@.skip(i + 1));
        assert(tail[0] == events@[i as int]);
        match &events[i] {
            Rc28Event::Input(Input::Turn(n)) => {
                let n = *n;
                let d = detents.add(n);
                pending = pending + d as i64;
                assert(steps@ + Seq::<Rc28Step>::empty() =~= steps@);
            },
            Rc28Event::Input(Input::Key { key, down }) => {
                if pending != 0 && knob_continuous {
                    steps.push(Rc28Step::Turn(pending));
                }
                steps.push(Rc28Step::Key { key: *key, down: *down });
                pending = 0;
                assert(steps@ =~= before + flush(p, knob_continuous).push(
                    Rc28Step::Key { key: *key, down: *down },
                ));
            },
            Rc28Event::Connected(_) => {
                detents.reset();
                assert(steps@ + Seq::<Rc28Step>::empty() =~= steps@);
            },
            Rc28Event::Disconnected => {
                steps.push(Rc28Step::ReleaseHolds);
                detents.reset();
                assert(steps@ =~= before + seq![Rc28Step::ReleaseHolds]);
            },
        }
        proof {
            let (rest, c2) = frame_steps(events@.skip(i + 1), detents@, pending as int, knob_continuous);
            assert(before + (steps@.skip(before.len() as int) + rest) =~= steps@ + rest) by {
                assert(steps@ =~= before + steps@.skip(before.len() as int));
            }
        }
        i = i + 1;
    }
    let ghost before = steps@;
    if pending != 0 && knob_continuous {
        steps.push(Rc28Step::Turn(pending));
    }
    assert(events@.skip(i as int) =~= Seq::<Rc28Event>::empty());
    assert(steps@ =~= before + flush(pending as int, knob_continuous));
    steps
}

/// The steps a frame of events gives while the window is hidden: only what
/// lets go of the rig. Releases and disconnects are applied; presses and
/// turns are dropped, since nobody is looking at the radio they would key or
/// retune. A connect or a disconnect forgets the carried counts.
pub open spec fn hidden_steps(events: Seq<Rc28Event>, carry: int) -> (Seq<Rc28Step>, int)
    decreases events.len(),
{
    if events.len() == 0 {
        (Seq::empty(), carry)
    } else {
        let (steps, c2) = match events[0] {
            Rc28Event::Input(Input::Key { key, down: false }) => (
                seq![Rc28Step::Key { key, down: false }],
                carry,
            ),
            Rc28Event::Input(_) => (Seq::<Rc28Step>::empty(), carry),
            Rc28Event::Connected(_) => (Seq::<Rc28Step>::empty(), 0),
            Rc28Event::Disconnected => (seq![Rc28Step::ReleaseHolds], 0),
        };
        let (rest, c) = hidden_steps(events.drop_first(), c2);
        (steps + rest, c)
    }
}

/// One frame of RC-28 events while the window is hidden.
pub fn rc28_hidden_frame(events: &Vec<Rc28Event>, detents: &mut Detents) -> (steps: Vec<Rc28Step>)
    ensures
        (steps@, final(detents)@) == hidden_steps(events@, old(detents)@),
{
    let mut steps: Vec<Rc28Step> = Vec::new();
    let mut i: usize = 0;
    assert(events@.skip(0) =~= events@);
    while i < events.len()
        invariant
            i <= events@.len(),
            hidden_steps(events@, old(detents)@) == ({
                let (rest, c) = hidden_steps(events@.skip(i as int), detents@);
                (steps@ + rest, c)
            }),
        decreases events@.len() - i,
    {
        let ghost before = steps@;
        let ghost tail = events@.skip(i as int);
        assert(tail.drop_first() =~= events@.skip(i + 1));
        assert(tail[0] == events@[i as int]);
        match &events[i] {
            Rc28Event::Input(Input::Key { key, down: false }) => {
                steps.push(Rc28Step::Key { key: *key, down: false });
                assert(steps@ =~= before + seq![Rc28Step::Key { key: *key, down: false }]);
            },
            Rc28Event::Input(_) => {
                assert(steps@ + Seq::<Rc28Step>::empty() =~= steps@);
            },
            Rc28Event::Connected(_) => {
                detents.reset();
                assert(steps@ + Seq::<Rc28Step>::empty() =~= steps@);
            },
            Rc28Event::Disconnected => {
                steps.push(Rc28Step::ReleaseHolds);
                detents.reset();
                assert(steps@ =~= before + seq![Rc28Step::ReleaseHolds]);
            },
        }
        proof {
            let (rest, c2) = hidden_steps(events@.skip(i + 1), detents@);
            assert(before + (steps@.skip(before.len() as int) + rest) =~= steps@ + rest) by {
                assert(steps@ =~= before + steps@.skip(before.len() as int));
            }
        }
        i = i + 1;
    }
    assert(events@.skip(i as int) =~= Seq::<Rc28Event>::empty());
    assert(steps@ + Seq::<Rc28Step>::empty() =~= steps@);
    steps
}

/// While hidden, nothing the RC-28 does can press a button or turn the knob.
pub proof fn law_hidden_frames_never_press_or_turn(events: Seq<Rc28Event>, carry: int)
    ensures
        forall|i: int|
            0 <= i < hidden_steps(events, carry).0.len() ==> match #[trigger] hidden_steps(
                events,
                carry,
            ).0[i] {
                Rc28Step::Turn(_) => false,
                Rc28Step::Key { down, .. } => !down,
                Rc28Step::ReleaseHolds => true,
            },
    decreases events.len(),
{
    if events.len() > 0 {
        law_hidden_frames_never_press_or_turn(events.drop_first(), match events[0] {
            Rc28Event::Connected(_) | Rc28Event::Disconnected => 0,
            _ => carry,
        });
    }
}

/// What the settings dialog shows as the RC-28's last act.
pub open spec fn rc28_note_spec(i: Input) -> Seq<char> {
    match i {
        Input::Turn(n) => "knob "@ + (if n >= 0 {
            "+"@
        } else {
            "-"@
        }) + decimal(if n >= 0 {
            n as nat
        } else {
            (-n) as nat
        }),
        Input::Key { key, down } => key_label(key) + (if down {
            " pressed"@
        } else {
            " released"@
        }),
    }
}

/// What the settings dialog shows as the RC-28's last act: `knob +3`,
/// `F-1 pressed`.
pub fn rc28_note(i: Input) -> (s: String)
    ensures
        s@ == rc28_note_spec(i),
{
    match i {
        Input::Turn(n) => {
            let mut s = String::from_str("knob ");
            if n >= 0 {
                s.append("+");
                push_decimal(&mut s, n as u32);
            } else {
                s.append("-");
                let m: u32 = if n == i32::MIN {
                    0x8000_0000
                } else {
                    (-n) as u32
                };
                push_decimal(&mut s, m);
            }
            s
        },
        Input::Key { key, down } => {
            let mut s = String::from_str(key.label());
            s.append(if down {
                " pressed"
            } else {
                " released"
            });
            s
        },
    }
}

// ── Bands ───────────────────────────────────────────────────────────────────

/// Where `x` first stands in `s`, if it does.
pub open spec fn first_index<A>(s: Seq<A>, x: A) -> Option<int>
    decreases s.len(),
{
    if s.len() == 0 {
        None
    } else if s[0] == x {
        Some(0)
    } else {
        match first_index(s.drop_first(), x) {
            Some(i) => Some(i + 1),
            None => None,
        }
    }
}

proof fn lemma_first_index<A>(s: Seq<A>, x: A)
    ensures
        first_index(s, x) matches Some(i) ==> 0 <= i < s.len() && s[i] == x && forall|k: int|
            0 <= k < i ==> s[k] != x,
        first_index(s, x) is None ==> forall|k: int| 0 <= k < s.len() ==> s[k] != x,
    decreases s.len(),
{
    if s.len() > 0 && s[0] != x {
        lemma_first_index(s.drop_first(), x);
        assert forall|k: int| 0 < k < s.len() implies s[k] == s.drop_first()[k - 1] by {}
    }
}

pub(crate) proof fn lemma_first_index_at<A>(s: Seq<A>, x: A, i: int)
    requires
        0 <= i < s.len(),
        s[i] == x,
        forall|k: int| 0 <= k < i ==> s[k] != x,
    ensures
        first_index(s, x) == Some(i),
    decreases s.len(),
{
    if i > 0 {
        assert forall|k: int| 0 <= k < i - 1 implies s.drop_first()[k] != x by {
            assert(s.drop_first()[k] == s[k + 1]);
        }
        lemma_first_index_at(s.drop_first(), x, i - 1);
    }
}

/// The next or previous band of `ham` after `cur`, wrapping round; `None`
/// where `cur` is not one of them (general coverage, or a band this region's
/// plan does not give).
pub open spec fn step_band_spec(ham: Seq<Band>, cur: Band, up: bool) -> Option<Band> {
    match first_index(ham, cur) {
        None => None,
        Some(i) => {
            let n = ham.len() as int;
            Some(
                if up {
                    ham[(i + 1) % n]
                } else {
                    ham[(i + n - 1) % n]
                },
            )
        },
    }
}

/// Next or previous amateur band: `ham` is the bands the station's band plan
/// gives this region, in order.
pub fn step_band(ham: &[Band], cur: Band, up: bool) -> (r: Option<Band>)
    ensures
        r == step_band_spec(ham@, cur, up),
{
    let mut i: usize = 0;
    while i < ham.len()
        invariant
            i <= ham@.len(),
            forall|k: int| 0 <= k < i ==> ham@[k] != cur,
        decreases ham@.len() - i,
    {
        if ham[i] == cur {
            proof {
                lemma_first_index_at(ham@, cur, i as int);
            }
            let n = ham.len();
            let back = if i == 0 {
                n - 1
            } else {
                i - 1
            };
            proof {
                let (ii, nn) = (i as int, n as int);
                if i == 0 {
                    vstd::arithmetic::div_mod::lemma_small_mod((n - 1) as nat, n as nat);
                } else {
                    vstd::arithmetic::div_mod::lemma_mod_add_multiples_vanish(ii - 1, nn);
                    vstd::arithmetic::div_mod::lemma_small_mod((i - 1) as nat, n as nat);
                }
                assert((ii + nn - 1) % nn == back as int);
            }
            return Some(if up {
                ham[(i + 1) % n]
            } else {
                ham[back]
            });
        }
        i = i + 1;
    }
    proof {
        lemma_first_index(ham@, cur);
        if first_index(ham@, cur) is Some {
            let j = first_index(ham@, cur)->0;
            assert(ham@[j] == cur);
        }
    }
    None
}

/// No band is listed twice.
pub open spec fn distinct_bands(ham: Seq<Band>) -> bool {
    forall|i: int, j: int| 0 <= i < ham.len() && 0 <= j < ham.len() && i != j ==> ham[i] != ham[j]
}

/// Stepping stays within the band plan: it answers `None` exactly where the
/// current band is not in the plan, and otherwise lands on a band of the plan.
pub proof fn law_band_steps_stay_in_the_plan(ham: Seq<Band>, cur: Band, up: bool)
    ensures
        step_band_spec(ham, cur, up) is None <==> !ham.contains(cur),
        step_band_spec(ham, cur, up) matches Some(c) ==> ham.contains(c),
{
    lemma_first_index(ham, cur);
    if let Some(i) = first_index(ham, cur) {
        assert(ham.contains(cur));
        let n = ham.len() as int;
        let j = if up {
            (i + 1) % n
        } else {
            (i + n - 1) % n
        };
        assert(0 <= j < n) by {
            vstd::arithmetic::div_mod::lemma_mod_bound(if up { i + 1 } else { i + n - 1 }, n);
        }
        assert(ham[j] == step_band_spec(ham, cur, up)->0);
    } else {
        assert(!ham.contains(cur));
    }
}

/// A step up and a step back down lands on the band it started from, and
/// so does a step down and back up.
pub proof fn law_band_steps_undo_each_other(ham: Seq<Band>, cur: Band, up: bool)
    requires
        distinct_bands(ham),
        step_band_spec(ham, cur, up) is Some,
    ensures
        step_band_spec(ham, step_band_spec(ham, cur, up)->0, !up) == Some(cur),
{
    lemma_first_index(ham, cur);
    let i = first_index(ham, cur)->0;
    let n = ham.len() as int;
    let j = if up {
        (i + 1) % n
    } else {
        (i + n - 1) % n
    };
    assert(0 <= j < n) by {
        if up {
            if i + 1 < n {
                vstd::arithmetic::div_mod::lemma_small_mod((i + 1) as nat, n as nat);
            } else {
                vstd::arithmetic::div_mod::lemma_mod_self_0(n);
            }
        } else {
            if i == 0 {
                vstd::arithmetic::div_mod::lemma_small_mod((n - 1) as nat, n as nat);
            } else {
                vstd::arithmetic::div_mod::lemma_mod_add_multiples_vanish(i - 1, n);
                vstd::arithmetic::div_mod::lemma_small_mod((i - 1) as nat, n as nat);
            }
        }
    }
    let b = ham[j];
    assert forall|k: int| 0 <= k < j implies ham[k] != b by {}
    lemma_first_index_at(ham, b, j);
    let back = if !up {
        (j + 1) % n
    } else {
        (j + n - 1) % n
    };
    assert(back == i) by {
        if up {
            if i + 1 < n {
                vstd::arithmetic::div_mod::lemma_small_mod((i + 1) as nat, n as nat);
                vstd::arithmetic::div_mod::lemma_mod_add_multiples_vanish(i, n);
                vstd::arithmetic::div_mod::lemma_small_mod(i as nat, n as nat);
            } else {
                vstd::arithmetic::div_mod::lemma_mod_self_0(n);
                vstd::arithmetic::div_mod::lemma_small_mod((n - 1) as nat, n as nat);
            }
        } else {
            if i == 0 {
                vstd::arithmetic::div_mod::lemma_small_mod((n - 1) as nat, n as nat);
                vstd::arithmetic::div_mod::lemma_mod_self_0(n);
            } else {
                vstd::arithmetic::div_mod::lemma_mod_add_multiples_vanish(i - 1, n);
                vstd::arithmetic::div_mod::lemma_small_mod((i - 1) as nat, n as nat);
                vstd::arithmetic::div_mod::lemma_small_mod(i as nat, n as nat);
            }
        }
    }
}

// ── MIDI LEARN ──────────────────────────────────────────────────────────────

/// What the MIDI LEARN button is waiting for.
#[derive(Debug, Clone, Copy, PartialEq, Eq, Structural)]
pub struct MidiLearn {
    /// Row in the MIDI bindings to write the captured control into.
    pub row: usize,
}

/// Values enough to classify a relative encoder's encoding.
pub open spec fn learn_samples() -> nat {
    6
}

/// Where capturing `value` from control `msg` into binding `row` leaves the
/// bindings, the LEARN target and the samples taken so far.
///
/// A different control from the one being captured starts the sample set
/// afresh. A continuous action has its encoding guessed from the samples and
/// is done after six; a button is done after one. A row that no longer
/// exists ends the capture.
pub open spec fn learn_step(
    bindings: Seq<MidiBinding>,
    learn: Option<MidiLearn>,
    values: Seq<u8>,
    row: usize,
    msg: MidiMsg,
    value: u8,
) -> (Seq<MidiBinding>, Option<MidiLearn>, Seq<u8>) {
    if row >= bindings.len() {
        (bindings, None, values)
    } else {
        let b = bindings[row as int];
        let samples = (if b.msg != msg {
            Seq::<u8>::empty()
        } else {
            values
        }).push(value);
        let continuous = action_kind(b.action) == ActionKind::Continuous;
        let done = !continuous || samples.len() >= learn_samples();
        (
            bindings.update(
                row as int,
                MidiBinding {
                    msg,
                    relative: if continuous {
                        guess_spec(samples)
                    } else {
                        b.relative
                    },
                    ..b
                },
            ),
            if done {
                None
            } else {
                learn
            },
            if done {
                Seq::<u8>::empty()
            } else {
                samples
            },
        )
    }
}

/// Record a control that moved during LEARN into binding `row` (see
/// [`learn_step`]).
pub fn learn_capture(
    bindings: &mut Vec<MidiBinding>,
    learn: &mut Option<MidiLearn>,
    values: &mut Vec<u8>,
    row: usize,
    msg: MidiMsg,
    value: u8,
)
    ensures
        (final(bindings)@, *final(learn), final(values)@) == learn_step(
            old(bindings)@,
            *old(learn),
            old(values)@,
            row,
            msg,
            value,
        ),
{
    if row >= bindings.len() {
        *learn = None;
        return;
    }
    let mut b = bindings[row];
    if b.msg != msg {
        values.clear();
        b.msg = msg;
    }
    values.push(value);
    let continuous = b.action.kind() == ActionKind::Continuous;
    if continuous {
        b.relative = RelativeMode::guess(values.as_slice());
    }
    bindings.set(row, b);
    let done = if continuous {
        values.len() >= 6
    } else {
        true
    };
    if done {
        *learn = None;
        values.clear();
    }
}

// ── What the settings dialog shows ──────────────────────────────────────────

/// The RC-28's state as the settings dialog needs it.
#[derive(Debug, Clone)]
pub struct Rc28StatusView {
    /// Why this client cannot reach an RC-28 at all, if it cannot.
    pub unsupported: Option<&'static str>,
    pub status: Rc28Status,
    /// Whether the device has to be picked by hand rather than found.
    pub choose: bool,
}

/// MIDI connection state as the settings dialog needs it.
#[derive(Debug, Clone)]
pub struct MidiStatusView {
    /// False where the client has no MIDI runtime.
    pub supported: bool,
    pub connected: bool,
    pub port: String,
    pub out_connected: bool,
    pub error: Option<String>,
}

impl Default for MidiStatusView {
    fn default() -> (v: MidiStatusView)
        ensures
            !v.supported,
            !v.connected,
            v.port@ == Seq::<char>::empty(),
            !v.out_connected,
            v.error is None,
    {
        MidiStatusView {
            supported: false,
            connected: false,
            port: String::new(),
            out_connected: false,
            error: None,
        }
    }
}

} // verus!
