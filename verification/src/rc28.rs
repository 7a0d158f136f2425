//! What the RC-28 tells the app, the queue that carries it, and every decision
//! the worker that owns the device makes.
//!
//! The worker itself, a thread with a device and a clock, runs its loop
//! outside this crate; [`Worker`] is the state it keeps and the choices it
//! makes, one call per thing that happened: a control message, a device found
//! or not, a report read, a write that succeeded or failed.

use vstd::prelude::*;

use crate::proto::{
    Decoder, Input, LED_LINK, Report, led_report, state_events,
    REPORT_LEN,
};

verus! {

/// Something the RC-28 did, or something that happened to it.
#[derive(Debug, Clone)]
pub enum Rc28Event {
    Input(Input),
    /// Found and opened. Carries the product name.
    Connected(String),
    /// Unplugged, or switched off. Whatever it was holding down has to be
    /// released by whoever acted on it.
    Disconnected,
}

/// Spec equality of events: names compared by their characters.
pub open spec fn same_event(a: Rc28Event, b: Rc28Event) -> bool {
    match (a, b) {
        (Rc28Event::Input(x), Rc28Event::Input(y)) => x == y,
        (Rc28Event::Connected(x), Rc28Event::Connected(y)) => x@ == y@,
        (Rc28Event::Disconnected, Rc28Event::Disconnected) => true,
        _ => false,
    }
}

impl PartialEq for Rc28Event {
    fn eq(&self, other: &Self) -> (r: bool) {
        match (self, other) {
            (Rc28Event::Input(x), Rc28Event::Input(y)) => *x == *y,
            (Rc28Event::Connected(x), Rc28Event::Connected(y)) => *x == *y,
            (Rc28Event::Disconnected, Rc28Event::Disconnected) => true,
            _ => false,
        }
    }
}

impl vstd::std_specs::cmp::PartialEqSpecImpl for Rc28Event {
    open spec fn obeys_eq_spec() -> bool {
        true
    }

    open spec fn eq_spec(&self, other: &Self) -> bool {
        same_event(*self, *other)
    }
}

impl Eq for Rc28Event {}

/// The worker's state as the settings dialog shows it.
#[derive(Debug, Clone)]
pub struct Rc28Status {
    pub connected: bool,
    pub name: String,
    /// The version string the device reports, once it has.
    pub firmware: String,
    /// Last failure to open, cleared once one succeeds.
    pub error: Option<String>,
}

/// Spec equality of optional texts.
pub open spec fn same_opt_text(a: Option<String>, b: Option<String>) -> bool {
    match (a, b) {
        (Some(x), Some(y)) => x@ == y@,
        (None, None) => true,
        _ => false,
    }
}

fn opt_text_eq(a: &Option<String>, b: &Option<String>) -> (r: bool)
    ensures
        r == same_opt_text(*a, *b),
{
    match (a, b) {
        (Some(x), Some(y)) => *x == *y,
        (None, None) => true,
        _ => false,
    }
}

impl PartialEq for Rc28Status {
    fn eq(&self, other: &Self) -> (r: bool) {
        self.connected == other.connected && self.name == other.name && self.firmware
            == other.firmware && opt_text_eq(&self.error, &other.error)
    }
}

impl vstd::std_specs::cmp::PartialEqSpecImpl for Rc28Status {
    open spec fn obeys_eq_spec() -> bool {
        true
    }

    open spec fn eq_spec(&self, other: &Self) -> bool {
        &&& self.connected == other.connected
        &&& self.name@ == other.name@
        &&& self.firmware@ == other.firmware@
        &&& same_opt_text(self.error, other.error)
    }
}

impl Eq for Rc28Status {}

impl Default for Rc28Status {
    fn default() -> (s: Rc28Status)
        ensures
            !s.connected,
            s.name@ == Seq::<char>::empty(),
            s.firmware@ == Seq::<char>::empty(),
            s.error is None,
    {
        Rc28Status { connected: false, name: String::new(), firmware: String::new(), error: None }
    }
}

/// `a + b`, held to the range of an `i32`.
pub open spec fn saturating_sum(a: i32, b: i32) -> i32 {
    if a + b > i32::MAX {
        i32::MAX
    } else if a + b < i32::MIN {
        i32::MIN
    } else {
        (a + b) as i32
    }
}

fn saturating_add(a: i32, b: i32) -> (r: i32)
    ensures
        r == saturating_sum(a, b),
{
    match a.checked_add(b) {
        Some(v) => v,
        None => if b > 0 {
            i32::MAX
        } else {
            i32::MIN
        },
    }
}

/// Whether an event is a knob turn.
pub open spec fn is_turn(e: Rc28Event) -> bool {
    e matches Rc28Event::Input(Input::Turn(_))
}

/// The queue after `e` is pushed: a turn merges into a turn queued just before
/// it, anything else is appended.
pub open spec fn pushed(q: Seq<Rc28Event>, e: Rc28Event) -> Seq<Rc28Event> {
    if q.len() > 0 && is_turn(q.last()) && is_turn(e) {
        let m = q.last()->Input_0->Turn_0;
        let n = e->Input_0->Turn_0;
        q.drop_last().push(Rc28Event::Input(Input::Turn(saturating_sum(m, n))))
    } else {
        q.push(e)
    }
}

/// Events on their way to the app, in the order they happened.
///
/// Unbounded, so that nothing is ever dropped: a release or a disconnect lost
/// would be a rig left keyed. What keeps it from growing is that a knob turn
/// merges into a turn queued just before it.
pub struct Queue {
    items: Vec<Rc28Event>,
}

impl View for Queue {
    type V = Seq<Rc28Event>;

    closed spec fn view(&self) -> Seq<Rc28Event> {
        self.items@
    }
}

impl Default for Queue {
    fn default() -> (q: Queue)
        ensures
            q@ == Seq::<Rc28Event>::empty(),
    {
        Queue { items: Vec::new() }
    }
}

impl Queue {
    pub fn new() -> (q: Queue)
        ensures
            q@ == Seq::<Rc28Event>::empty(),
    {
        Queue { items: Vec::new() }
    }

    /// Queue `e`, merging a turn into a turn queued just before it.
    pub fn push(&mut self, e: Rc28Event)
        ensures
            final(self)@ == pushed(old(self)@, e),
    {
        let n = self.items.len();
        if n > 0 {
            if let Rc28Event::Input(Input::Turn(add)) = e {
                if let Rc28Event::Input(Input::Turn(m)) = self.items[n - 1] {
                    let merged = saturating_add(m, add);
                    self.items.set(n - 1, Rc28Event::Input(Input::Turn(merged)));
                    assert(self.items@ =~= pushed(old(self)@, e));
                    return;
                }
            }
        }
        self.items.push(e);
    }

    /// Everything queued, oldest first, leaving the queue empty.
    pub fn drain(&mut self) -> (out: Vec<Rc28Event>)
        ensures
            out@ == old(self)@,
            final(self)@ == Seq::<Rc28Event>::empty(),
    {
        let mut out: Vec<Rc28Event> = Vec::new();
        std::mem::swap(&mut out, &mut self.items);
        out
    }

    pub fn len(&self) -> (n: usize)
        ensures
            n == self@.len(),
    {
        self.items.len()
    }
}

/// The queue after every event of `es` is pushed, in order.
pub open spec fn pushed_all(q: Seq<Rc28Event>, es: Seq<Rc28Event>) -> Seq<Rc28Event>
    decreases es.len(),
{
    if es.len() == 0 {
        q
    } else {
        pushed_all(pushed(q, es[0]), es.drop_first())
    }
}

/// Everything in `q` but the turns, in order.
pub open spec fn non_turns(q: Seq<Rc28Event>) -> Seq<Rc28Event>
    decreases q.len(),
{
    if q.len() == 0 {
        q
    } else if is_turn(q.last()) {
        non_turns(q.drop_last())
    } else {
        non_turns(q.drop_last()).push(q.last())
    }
}

/// No two turns stand next to each other.
pub open spec fn turns_merged(q: Seq<Rc28Event>) -> bool {
    forall|i: int| 0 <= i < q.len() - 1 ==> !(is_turn(#[trigger] q[i]) && is_turn(q[i + 1]))
}

proof fn lemma_non_turns_push(q: Seq<Rc28Event>, e: Rc28Event)
    ensures
        non_turns(q.push(e)) == (if is_turn(e) {
            non_turns(q)
        } else {
            non_turns(q).push(e)
        }),
{
    assert(q.push(e).drop_last() =~= q);
}

proof fn lemma_non_turns_append(a: Seq<Rc28Event>, b: Seq<Rc28Event>)
    ensures
        non_turns(a + b) == non_turns(a) + non_turns(b),
    decreases b.len(),
{
    if b.len() == 0 {
        assert(a + b =~= a);
        assert(non_turns(a) + non_turns(b) =~= non_turns(a));
    } else {
        lemma_non_turns_append(a, b.drop_last());
        assert((a + b).drop_last() =~= a + b.drop_last());
        assert((a + b).last() == b.last());
        if !is_turn(b.last()) {
            assert(non_turns(a) + non_turns(b.drop_last()).push(b.last()) =~= (non_turns(a)
                + non_turns(b.drop_last())).push(b.last()));
        }
    }
}

proof fn lemma_push_keeps_non_turns(q: Seq<Rc28Event>, e: Rc28Event)
    ensures
        non_turns(pushed(q, e)) == non_turns(q) + non_turns(seq![e]),
{
    lemma_non_turns_push(Seq::<Rc28Event>::empty(), e);
    assert(Seq::<Rc28Event>::empty().push(e) =~= seq![e]);
    if q.len() > 0 && is_turn(q.last()) && is_turn(e) {
        let t = Rc28Event::Input(
            Input::Turn(saturating_sum(q.last()->Input_0->Turn_0, e->Input_0->Turn_0)),
        );
        assert(q =~= q.drop_last().push(q.last()));
        lemma_non_turns_push(q.drop_last(), q.last());
        lemma_non_turns_push(q.drop_last(), t);
        assert(non_turns(q) + non_turns(seq![e]) =~= non_turns(q));
    } else {
        lemma_non_turns_push(q, e);
        if is_turn(e) {
            assert(non_turns(q) + non_turns(seq![e]) =~= non_turns(q));
        } else {
            assert(non_turns(q) + non_turns(seq![e]) =~= non_turns(q).push(e));
        }
    }
}

/// How far a queued event turns the knob: its counts if it is a turn.
pub open spec fn turn_counts(e: Rc28Event) -> int {
    match e {
        Rc28Event::Input(Input::Turn(n)) => n as int,
        _ => 0,
    }
}

/// How far the turns in `q` move the knob, all told.
pub open spec fn turn_total(q: Seq<Rc28Event>) -> int
    decreases q.len(),
{
    if q.len() == 0 {
        0
    } else {
        turn_total(q.drop_last()) + turn_counts(q.last())
    }
}

/// Merging loses no knob movement: after a push the turns queued add up to
/// what they did before plus the counts pushed, wherever a merged turn still
/// fits in its counter (past that it is held at the counter's limit).
pub proof fn law_a_push_keeps_the_knob_movement(q: Seq<Rc28Event>, e: Rc28Event)
    requires
        q.len() > 0 && is_turn(q.last()) && is_turn(e) ==> i32::MIN <= turn_counts(q.last())
            + turn_counts(e) <= i32::MAX,
    ensures
        turn_total(pushed(q, e)) == turn_total(q) + turn_counts(e),
{
    if q.len() > 0 && is_turn(q.last()) && is_turn(e) {
        let p = pushed(q, e);
        assert(p.drop_last() =~= q.drop_last());
    } else {
        assert(q.push(e).drop_last() =~= q);
    }
}

/// Merging only ever touches turns: every press, release, connect and
/// disconnect pushed comes out of the queue, in the order it was pushed.
pub proof fn law_queue_keeps_every_non_turn_in_order(q: Seq<Rc28Event>, es: Seq<Rc28Event>)
    ensures
        non_turns(pushed_all(q, es)) == non_turns(q) + non_turns(es),
    decreases es.len(),
{
    if es.len() == 0 {
        assert(non_turns(q) + non_turns(es) =~= non_turns(q)) by {
            assert(non_turns(es) =~= Seq::<Rc28Event>::empty());
        }
    } else {
        lemma_push_keeps_non_turns(q, es[0]);
        law_queue_keeps_every_non_turn_in_order(pushed(q, es[0]), es.drop_first());
        assert(es =~= seq![es[0]] + es.drop_first());
        lemma_non_turns_append(seq![es[0]], es.drop_first());
        assert(non_turns(q) + non_turns(seq![es[0]]) + non_turns(es.drop_first()) =~= non_turns(q)
            + (non_turns(seq![es[0]]) + non_turns(es.drop_first())));
    }
}

/// A queue never holds two turns side by side, so one that stops being
/// drained grows by one entry per press, release or replug, not per report.
pub proof fn law_queue_never_holds_adjacent_turns(q: Seq<Rc28Event>, es: Seq<Rc28Event>)
    requires
        turns_merged(q),
    ensures
        turns_merged(pushed_all(q, es)),
    decreases es.len(),
{
    if es.len() > 0 {
        let e = es[0];
        let p = pushed(q, e);
        assert(turns_merged(p)) by {
            if q.len() > 0 && is_turn(q.last()) && is_turn(e) {
                assert forall|i: int| 0 <= i < p.len() - 1 implies !(is_turn(#[trigger] p[i])
                    && is_turn(p[i + 1])) by {
                    assert(p[i] == q[i]);
                    if i + 1 < p.len() - 1 {
                        assert(p[i + 1] == q[i + 1]);
                    } else {
                        assert(q[i + 1] == q.last());
                    }
                }
            } else {
                assert forall|i: int| 0 <= i < p.len() - 1 implies !(is_turn(#[trigger] p[i])
                    && is_turn(p[i + 1])) by {
                    assert(p[i] == q[i]);
                    if i + 1 < q.len() {
                        assert(p[i + 1] == q[i + 1]);
                    }
                }
            }
        }
        law_queue_never_holds_adjacent_turns(p, es.drop_first());
    }
}

/// A message to the worker.
#[derive(Debug, Clone, Copy, PartialEq, Eq, Structural)]
pub enum Ctl {
    Enabled(bool),
    /// `None`: leave the LEDs alone.
    Leds(Option<u8>),
    Stop,
}

/// What the worker's loop does after a control message.
#[derive(Debug, Clone, Copy, PartialEq, Eq, Structural)]
pub enum Flow {
    /// Go on to the device: write the LEDs, read, probe.
    Proceed,
    /// Start the loop over, looking for a device at once.
    Restart,
    /// Leave the loop: the worker is done.
    Exit,
}

/// What a step of the worker asks of the loop that runs it, besides the
/// state it changed.
pub struct Effects {
    /// Write the all-dark LED report to the device before letting it go.
    pub dark: bool,
    /// Let go of the device.
    pub release: bool,
    /// Look for a device again only after the rescan interval.
    pub rescan_later: bool,
    /// The device answered: restart the quiet timer.
    pub heard: bool,
    /// Events for the app, in order.
    pub events: Vec<Rc28Event>,
}

/// The name the RC-28 goes by when it reports none.
pub open spec fn default_name() -> Seq<char> {
    "Icom RC-28"@
}

/// The error a handle reports for a worker that has stopped.
pub open spec fn stopped_message() -> Seq<char> {
    "the RC-28 worker has stopped — restart sdroxide"@
}

/// The LED mask a worker writes for `lit`: the app's three plus LINK, which
/// is lit while the device is open.
pub open spec fn with_link(lit: u8) -> u8 {
    lit | LED_LINK
}

/// The worker's state: whether it is on, whether it has the device open, the
/// keys it has seen held, and what it has told the device about the LEDs.
pub struct Worker {
    enabled: bool,
    open: bool,
    decoder: Decoder,
    /// The LEDs the app wants lit, or `None` while this worker is not the one
    /// driving them.
    leds: Option<u8>,
    /// What this worker last wrote to the LEDs, LINK included.
    leds_sent: Option<u8>,
    status: Rc28Status,
}

impl Worker {
    pub closed spec fn is_enabled(&self) -> bool {
        self.enabled
    }

    /// Whether the worker holds an open device.
    pub closed spec fn is_open(&self) -> bool {
        self.open
    }

    /// The keys the worker has seen held.
    pub closed spec fn held_keys(&self) -> u8 {
        self.decoder@
    }

    /// The LEDs the app wants lit, if this worker drives them.
    pub closed spec fn wanted_leds(&self) -> Option<u8> {
        self.leds
    }

    /// What the worker last wrote to the LEDs.
    pub closed spec fn sent_leds(&self) -> Option<u8> {
        self.leds_sent
    }

    pub closed spec fn status_spec(&self) -> Rc28Status {
        self.status
    }

    /// The state right after the device is lost: closed, nothing held,
    /// nothing written, and the status saying so.
    pub open spec fn is_lost_from(&self, before: &Worker) -> bool {
        &&& !self.is_open()
        &&& self.held_keys() == 0
        &&& self.sent_leds() is None
        &&& self.is_enabled() == before.is_enabled()
        &&& self.wanted_leds() == before.wanted_leds()
        &&& !self.status_spec().connected
        &&& self.status_spec().firmware@ == Seq::<char>::empty()
        &&& self.status_spec().name@ == before.status_spec().name@
        &&& same_opt_text(self.status_spec().error, before.status_spec().error)
    }

    /// A worker that has found nothing yet and drives no LEDs.
    pub fn new(enabled: bool) -> (w: Worker)
        ensures
            w.is_enabled() == enabled,
            !w.is_open(),
            w.held_keys() == 0,
            w.wanted_leds() is None,
            w.sent_leds() is None,
            !w.status_spec().connected,
            w.status_spec().error is None,
    {
        Worker {
            enabled,
            open: false,
            decoder: Decoder::new(),
            leds: None,
            leds_sent: None,
            status: Rc28Status::default(),
        }
    }

    pub fn enabled(&self) -> (b: bool)
        ensures
            b == self.is_enabled(),
    {
        self.enabled
    }

    pub fn has_device(&self) -> (b: bool)
        ensures
            b == self.is_open(),
    {
        self.open
    }

    /// The status to publish.
    pub fn status(&self) -> (s: &Rc28Status)
        ensures
            *s == self.status_spec(),
    {
        &self.status
    }

    /// The device is gone, however that happened: one disconnect, and the
    /// next device starts from nothing held and nothing written.
    fn lost(&mut self, dark: bool) -> (e: Effects)
        requires
            old(self).is_open(),
        ensures
            final(self).is_lost_from(old(self)),
            e.dark == dark,
            e.release,
            e.rescan_later,
            !e.heard,
            e.events@.len() == 1,
            e.events@[0] is Disconnected,
    {
        self.open = false;
        self.decoder.reset();
        self.leds_sent = None;
        self.status.connected = false;
        self.status.firmware = String::new();
        let mut events: Vec<Rc28Event> = Vec::new();
        events.push(Rc28Event::Disconnected);
        Effects { dark, release: true, rescan_later: true, heard: false, events }
    }

    /// Let go of the device, dark if this worker was lighting it. Nothing at
    /// all if there was none.
    fn close(&mut self) -> (e: Effects)
        ensures
            old(self).is_open() ==> {
                &&& final(self).is_lost_from(old(self))
                &&& e.dark == old(self).wanted_leds() is Some
                &&& e.release
                &&& e.events@.len() == 1
                &&& e.events@[0] is Disconnected
            },
            !old(self).is_open() ==> {
                &&& *final(self) == *old(self)
                &&& !e.dark
                &&& !e.release
                &&& e.events@.len() == 0
            },
            e.rescan_later == old(self).is_open(),
            !e.heard,
    {
        if self.open {
            let dark = self.leds.is_some();
            self.lost(dark)
        } else {
            Effects {
                dark: false,
                release: false,
                rescan_later: false,
                heard: false,
                events: Vec::new(),
            }
        }
    }

    /// A control message from the app.
    ///
    /// Switching off closes the device; either way the loop starts over and
    /// looks at once. New LEDs are taken on, and taking them back from
    /// another driver forgets what was last written, so they are written
    /// again. A stop closes the device and ends the loop.
    pub fn control(&mut self, msg: Ctl) -> (r: (Flow, Effects))
        ensures
            match msg {
                Ctl::Enabled(on) => {
                    &&& r.0 == Flow::Restart
                    &&& final(self).is_enabled() == on
                    &&& (on || !old(self).is_open()) ==> {
                        &&& final(self).is_open() == old(self).is_open()
                        &&& final(self).held_keys() == old(self).held_keys()
                        &&& final(self).sent_leds() == old(self).sent_leds()
                        &&& final(self).status_spec() == old(self).status_spec()
                        &&& r.1.events@.len() == 0
                        &&& !r.1.release
                        &&& !r.1.dark
                        &&& !r.1.rescan_later
                    }
                    &&& (!on && old(self).is_open()) ==> {
                        &&& !final(self).is_open()
                        &&& final(self).held_keys() == 0
                        &&& final(self).sent_leds() is None
                        &&& r.1.release
                        &&& r.1.dark == old(self).wanted_leds() is Some
                        &&& r.1.rescan_later
                        &&& !final(self).status_spec().connected
                        &&& final(self).status_spec().firmware@ == Seq::<char>::empty()
                        &&& r.1.events@.len() == 1
                        &&& r.1.events@[0] is Disconnected
                    }
                    &&& final(self).wanted_leds() == old(self).wanted_leds()
                },
                Ctl::Leds(lit) => {
                    &&& r.0 == Flow::Proceed
                    &&& final(self).wanted_leds() == lit
                    &&& final(self).sent_leds() == (if old(self).wanted_leds() is None {
                        None
                    } else {
                        old(self).sent_leds()
                    })
                    &&& final(self).is_open() == old(self).is_open()
                    &&& final(self).is_enabled() == old(self).is_enabled()
                    &&& final(self).held_keys() == old(self).held_keys()
                    &&& final(self).status_spec() == old(self).status_spec()
                    &&& r.1.events@.len() == 0
                    &&& !r.1.release
                    &&& !r.1.dark
                    &&& !r.1.rescan_later
                },
                Ctl::Stop => {
                    &&& r.0 == Flow::Exit
                    &&& !final(self).is_open()
                    &&& r.1.release == old(self).is_open()
                    &&& r.1.dark == (old(self).is_open() && old(self).wanted_leds() is Some)
                    &&& r.1.events@.len() == (if old(self).is_open() {
                        1int
                    } else {
                        0
                    })
                    &&& old(self).is_open() ==> r.1.events@[0] is Disconnected
                    &&& old(self).is_open() ==> final(self).is_lost_from(old(self))
                    &&& !old(self).is_open() ==> *final(self) == *old(self)
                    &&& r.1.rescan_later == old(self).is_open()
                },
            },
            !r.1.heard,
    {
        match msg {
            Ctl::Enabled(on) => {
                self.enabled = on;
                let e = if !on {
                    self.close()
                } else {
                    Effects {
                        dark: false,
                        release: false,
                        rescan_later: false,
                        heard: false,
                        events: Vec::new(),
                    }
                };
                (Flow::Restart, e)
            },
            Ctl::Leds(lit) => {
                if self.leds.is_none() {
                    self.leds_sent = None;
                }
                self.leds = lit;
                (
                    Flow::Proceed,
                    Effects {
                        dark: false,
                        release: false,
                        rescan_later: false,
                        heard: false,
                        events: Vec::new(),
                    },
                )
            },
            Ctl::Stop => {
                let e = self.close();
                (Flow::Exit, e)
            },
        }
    }

    /// Nothing with the RC-28's ids is plugged in. That is not an error, so a
    /// stale one is cleared.
    pub fn nothing_found(&mut self)
        ensures
            final(self).status_spec().error is None,
            final(self).status_spec().connected == old(self).status_spec().connected,
            final(self).status_spec().name@ == old(self).status_spec().name@,
            final(self).status_spec().firmware@ == old(self).status_spec().firmware@,
            final(self).is_open() == old(self).is_open(),
            final(self).is_enabled() == old(self).is_enabled(),
            final(self).held_keys() == old(self).held_keys(),
            final(self).wanted_leds() == old(self).wanted_leds(),
            final(self).sent_leds() == old(self).sent_leds(),
    {
        self.status.error = None;
    }

    /// Opening the device failed with `msg`. Returns whether that is the
    /// failure already on show, so that a retry every second is not news.
    pub fn open_failed(&mut self, msg: String) -> (repeated: bool)
        ensures
            repeated == (old(self).status_spec().error matches Some(m) && m@ == msg@),
            final(self).status_spec().error matches Some(m) && m@ == msg@,
            final(self).status_spec().connected == old(self).status_spec().connected,
            final(self).status_spec().name@ == old(self).status_spec().name@,
            final(self).status_spec().firmware@ == old(self).status_spec().firmware@,
            final(self).is_open() == old(self).is_open(),
            final(self).is_enabled() == old(self).is_enabled(),
            final(self).held_keys() == old(self).held_keys(),
            final(self).wanted_leds() == old(self).wanted_leds(),
            final(self).sent_leds() == old(self).sent_leds(),
    {
        let repeated = match &self.status.error {
            Some(e) => *e == msg,
            None => false,
        };
        self.status.error = Some(msg);
        repeated
    }

    /// The device is open, and reports `product` as its name (empty for
    /// none). The loop has asked it for its firmware version.
    pub fn opened(&mut self, product: &str) -> (e: Effects)
        ensures
            final(self).is_open(),
            final(self).held_keys() == 0,
            final(self).sent_leds() is None,
            final(self).wanted_leds() == old(self).wanted_leds(),
            final(self).is_enabled() == old(self).is_enabled(),
            final(self).status_spec().connected,
            final(self).status_spec().error is None,
            final(self).status_spec().firmware@ == Seq::<char>::empty(),
            final(self).status_spec().name@ == (if product@.len() == 0 {
                default_name()
            } else {
                product@
            }),
            e.heard,
            !e.release,
            !e.dark,
            !e.rescan_later,
            e.events@.len() == 1,
            e.events@[0] matches Rc28Event::Connected(n) && n@ == final(self).status_spec().name@,
    {
        let name = if product.is_empty() {
            let n = "Icom RC-28".to_owned();
            proof {
                reveal_strlit("Icom RC-28");
            }
            n
        } else {
            product.to_owned()
        };
        self.open = true;
        self.decoder.reset();
        self.leds_sent = None;
        self.status.connected = true;
        self.status.name = name.clone();
        self.status.firmware = String::new();
        self.status.error = None;
        let mut events: Vec<Rc28Event> = Vec::new();
        events.push(Rc28Event::Connected(name));
        Effects { dark: false, release: false, rescan_later: false, heard: true, events }
    }

    /// The LED mask to write now: the wanted LEDs with LINK, if this worker
    /// has the device open, drives the LEDs, and has not written that state.
    pub open spec fn leds_due_spec(&self) -> Option<u8> {
        if self.is_open() && self.wanted_leds() is Some && self.sent_leds() != Some(
            with_link(self.wanted_leds()->0),
        ) {
            Some(with_link(self.wanted_leds()->0))
        } else {
            None
        }
    }

    /// The LED mask to write now, if this worker drives the LEDs and has not
    /// written this state already.
    pub fn leds_due(&self) -> (want: Option<u8>)
        ensures
            want == self.leds_due_spec(),
    {
        if !self.open {
            return None;
        }
        match self.leds {
            None => None,
            Some(lit) => {
                let want = lit | LED_LINK;
                if self.leds_sent == Some(want) {
                    None
                } else {
                    Some(want)
                }
            },
        }
    }

    /// The LED report for `want` was written, or failed to be, which means
    /// the device has gone.
    pub fn leds_written(&mut self, want: u8, ok: bool) -> (e: Effects)
        requires
            old(self).is_open(),
        ensures
            ok ==> {
                &&& final(self).sent_leds() == Some(want)
                &&& final(self).is_open()
                &&& final(self).held_keys() == old(self).held_keys()
                &&& e.events@.len() == 0
                &&& !e.release
            },
            !ok ==> {
                &&& final(self).is_lost_from(old(self))
                &&& e.release
                &&& e.events@.len() == 1
                &&& e.events@[0] is Disconnected
            },
            e.rescan_later == !ok,
            !e.dark,
            !e.heard,
    {
        if ok {
            self.leds_sent = Some(want);
            Effects {
                dark: false,
                release: false,
                rescan_later: false,
                heard: false,
                events: Vec::new(),
            }
        } else {
            self.lost(false)
        }
    }

    /// A read failed: the device has gone.
    pub fn read_failed(&mut self) -> (e: Effects)
        requires
            old(self).is_open(),
        ensures
            final(self).is_lost_from(old(self)),
            e.release,
            e.rescan_later,
            !e.dark,
            !e.heard,
            e.events@.len() == 1,
            e.events@[0] is Disconnected,
    {
        self.lost(false)
    }

    /// A report of `bytes` arrived. A firmware answer updates the status, a
    /// state report becomes presses, releases and a turn; anything else is
    /// ignored. Returns whether the report was recognised.
    pub fn report(&mut self, bytes: &[u8]) -> (r: (bool, Effects))
        requires
            old(self).is_open(),
        ensures
            final(self).is_open(),
            final(self).is_enabled() == old(self).is_enabled(),
            final(self).wanted_leds() == old(self).wanted_leds(),
            final(self).sent_leds() == old(self).sent_leds(),
            !r.1.release,
            !r.1.dark,
            r.1.heard == r.0,
            r.0 == (crate::proto::is_state_report(bytes@) || crate::proto::is_firmware_report(
                bytes@,
            )),
            crate::proto::is_state_report(bytes@) ==> {
                let steps = crate::proto::signed_steps(bytes@[1], bytes@[3]) as i32;
                let keys = crate::proto::pressed_keys(bytes@[5]);
                &&& final(self).held_keys() == keys
                &&& r.1.events@ == state_events(old(self).held_keys(), steps, keys).map_values(
                    |i: Input| Rc28Event::Input(i),
                )
            },
            !crate::proto::is_state_report(bytes@) ==> {
                &&& final(self).held_keys() == old(self).held_keys()
                &&& r.1.events@.len() == 0
            },
            crate::proto::is_firmware_report(bytes@) ==> final(self).status_spec().firmware@
                == crate::text::trim_spec(crate::text::utf8_lossy(crate::proto::firmware_bytes(bytes@))),
            crate::proto::is_firmware_report(bytes@) && vstd::utf8::valid_utf8(
                crate::proto::firmware_bytes(bytes@),
            ) ==> final(self).status_spec().firmware@ == crate::text::trim_spec(
                vstd::utf8::decode_utf8(crate::proto::firmware_bytes(bytes@)),
            ),
            !crate::proto::is_firmware_report(bytes@) ==> final(self).status_spec().firmware@
                == old(self).status_spec().firmware@,
            final(self).status_spec().connected == old(self).status_spec().connected,
            final(self).status_spec().name@ == old(self).status_spec().name@,
            same_opt_text(final(self).status_spec().error, old(self).status_spec().error),
            !r.1.rescan_later,
    {
        let mut events: Vec<Rc28Event> = Vec::new();
        match Report::parse(bytes) {
            Some(Report::Firmware(v)) => {
                if !(self.status.firmware == v) {
                    self.status.firmware = v;
                }
                (true, Effects { dark: false, release: false, rescan_later: false, heard: true, events })
            },
            Some(r) => {
                let inputs = self.decoder.feed(&r);
                let mut i: usize = 0;
                while i < inputs.len()
                    invariant
                        i <= inputs@.len(),
                        events@ == inputs@.take(i as int).map_values(|x: Input| Rc28Event::Input(x)),
                    decreases inputs@.len() - i,
                {
                    events.push(Rc28Event::Input(inputs[i]));
                    i = i + 1;
                    assert(events@ =~= inputs@.take(i as int).map_values(|x: Input| Rc28Event::Input(x)));
                }
                assert(inputs@.take(inputs@.len() as int) =~= inputs@);
                (true, Effects { dark: false, release: false, rescan_later: false, heard: true, events })
            },
            None => (false, Effects { dark: false, release: false, rescan_later: false, heard: false, events }),
        }
    }

    /// Whether to ask the device if it is still there: only with a key held
    /// and nothing heard for the probe interval (`quiet`), since a held
    /// button with the knob still sends nothing at all.
    pub fn should_probe(&self, quiet: bool) -> (b: bool)
        ensures
            b == (self.is_open() && self.held_keys() != 0 && quiet),
    {
        self.open && self.decoder.held() != 0 && quiet
    }

    /// The probe write went through, or failed, which means the device has
    /// gone.
    pub fn probe_written(&mut self, ok: bool) -> (e: Effects)
        requires
            old(self).is_open(),
        ensures
            ok ==> {
                &&& *final(self) == *old(self)
                &&& e.events@.len() == 0
                &&& !e.release
            },
            !ok ==> {
                &&& final(self).is_lost_from(old(self))
                &&& e.release
                &&& e.events@.len() == 1
                &&& e.events@[0] is Disconnected
            },
            e.rescan_later == !ok,
            !e.dark,
            !e.heard,
    {
        if ok {
            Effects { dark: false, release: false, rescan_later: false, heard: false, events: Vec::new() }
        } else {
            self.lost(false)
        }
    }
}

/// The report a worker writes to light `want`.
pub fn leds_report(want: u8) -> (r: [u8; REPORT_LEN])
    ensures
        r@[0] == 0x01,
        r@[1] == crate::proto::led_byte(want),
{
    led_report(want)
}

/// What the app may ask to light: TRANSMIT, F-1 and F-2 only. LINK is the
/// worker's own, lit while the device is open.
pub fn app_leds(lit: u8) -> (r: u8)
    ensures
        r == lit & !LED_LINK,
{
    lit & !LED_LINK
}

/// Whatever the app asks for, every LED report a worker writes has LINK lit.
pub proof fn law_written_leds_light_link(w: Worker)
    ensures
        w.leds_due_spec() matches Some(want) ==> want & LED_LINK != 0,
{
    if let Some(lit) = w.wanted_leds() {
        assert((lit | 0x08u8) & 0x08u8 != 0) by (bit_vector);
    }
}

/// Finish a handle's poll: a worker that has stopped reads as one
/// disconnect, once, and its status says so.
pub fn finish_poll(
    events: Vec<Rc28Event>,
    dead: &mut bool,
    finished: bool,
    status: &mut Rc28Status,
) -> (out: Vec<Rc28Event>)
    ensures
        (!*old(dead) && finished) ==> {
            &&& *final(dead)
            &&& out@ == events@.push(Rc28Event::Disconnected)
            &&& !final(status).connected
            &&& final(status).error matches Some(m) && m@ == stopped_message()
            &&& final(status).name@ == old(status).name@
            &&& final(status).firmware@ == old(status).firmware@
        },
        !(!*old(dead) && finished) ==> {
            &&& *final(dead) == *old(dead)
            &&& out@ == events@
            &&& *final(status) == *old(status)
        },
{
    let mut out = events;
    if !*dead && finished {
        *dead = true;
        status.connected = false;
        let m = "the RC-28 worker has stopped — restart sdroxide".to_owned();
        proof {
            reveal_strlit("the RC-28 worker has stopped — restart sdroxide");
        }
        status.error = Some(m);
        out.push(Rc28Event::Disconnected);
    }
    out
}

} // verus!
