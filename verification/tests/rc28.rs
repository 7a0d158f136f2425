use sdroxide_input::proto::{Input, Key, LED_LINK, led_report};
use sdroxide_input::rc28::{Ctl, Flow, Queue, Rc28Event, Rc28Status, Worker, app_leds, finish_poll};

#[test]
fn turns_merge_and_presses_and_releases_are_all_kept() {
    let mut q = Queue::default();
    let key = |down| Rc28Event::Input(Input::Key { key: Key::Transmit, down });
    // A UI that stopped draining mid-spin, with TRANSMIT pressed and released
    // in the middle of it.
    for _ in 0..10_000 {
        q.push(Rc28Event::Input(Input::Turn(1)));
    }
    q.push(key(true));
    for _ in 0..10_000 {
        q.push(Rc28Event::Input(Input::Turn(-1)));
    }
    q.push(key(false));
    q.push(Rc28Event::Disconnected);
    assert_eq!(
        q.drain(),
        vec![
            Rc28Event::Input(Input::Turn(10_000)),
            key(true),
            Rc28Event::Input(Input::Turn(-10_000)),
            key(false),
            Rc28Event::Disconnected,
        ]
    );
}

#[test]
fn merged_turns_saturate_rather_than_wrap() {
    let mut q = Queue::new();
    q.push(Rc28Event::Input(Input::Turn(i32::MAX)));
    q.push(Rc28Event::Input(Input::Turn(5)));
    assert_eq!(q.drain(), vec![Rc28Event::Input(Input::Turn(i32::MAX))]);
    assert_eq!(q.len(), 0);
}

/// A worker that is gone cannot report the release of what it held, so its
/// absence has to read as the device going, once.
#[test]
fn a_worker_that_has_stopped_reads_as_a_disconnect_once() {
    let mut dead = false;
    let mut status = Rc28Status::default();
    assert_eq!(finish_poll(Vec::new(), &mut dead, true, &mut status), vec![Rc28Event::Disconnected]);
    assert!(status.error.is_some());
    assert!(finish_poll(Vec::new(), &mut dead, true, &mut status).is_empty());
}

#[test]
fn a_running_worker_passes_its_events_through() {
    let mut dead = false;
    let mut status = Rc28Status::default();
    let evs = vec![Rc28Event::Connected("Icom RC-28".into())];
    assert_eq!(finish_poll(evs.clone(), &mut dead, false, &mut status), evs);
    assert!(!dead);
    assert_eq!(status, Rc28Status::default());
}

#[test]
fn the_app_cannot_light_link() {
    assert_eq!(app_leds(0x0f), 0x07);
    assert_eq!(app_leds(LED_LINK), 0);
}

#[test]
fn an_opened_worker_announces_itself_and_lights_link_once() {
    let mut w = Worker::new(true);
    let e = w.opened("");
    assert_eq!(e.events, vec![Rc28Event::Connected("Icom RC-28".into())]);
    assert!(e.heard);
    assert!(w.status().connected);
    assert_eq!(w.leds_due(), None, "a worker starts out not driving the LEDs");
    let (flow, e) = w.control(Ctl::Leds(Some(0x01)));
    assert_eq!(flow, Flow::Proceed);
    assert!(e.events.is_empty());
    assert_eq!(w.leds_due(), Some(0x09));
    let e = w.leds_written(0x09, true);
    assert!(e.events.is_empty());
    assert_eq!(w.leds_due(), None);
    assert_eq!(led_report(0x09)[1], 0x06);
}

#[test]
fn a_failed_write_is_a_disconnect() {
    let mut w = Worker::new(true);
    w.opened("RC-28");
    w.control(Ctl::Leds(Some(0)));
    let e = w.leds_written(0x08, false);
    assert!(e.release);
    assert_eq!(e.events, vec![Rc28Event::Disconnected]);
    assert!(!w.has_device());
    assert!(!w.status().connected);
}

#[test]
fn switching_off_closes_dark_and_stopping_with_nothing_open_is_silent() {
    let mut w = Worker::new(true);
    w.opened("RC-28");
    w.control(Ctl::Leds(Some(0)));
    let (flow, e) = w.control(Ctl::Enabled(false));
    assert_eq!(flow, Flow::Restart);
    assert!(e.dark && e.release);
    assert_eq!(e.events, vec![Rc28Event::Disconnected]);
    let (flow, e) = w.control(Ctl::Stop);
    assert_eq!(flow, Flow::Exit);
    assert!(!e.release && e.events.is_empty());
}

#[test]
fn a_held_key_is_probed_and_a_report_feeds_the_decoder() {
    let mut w = Worker::new(true);
    w.opened("RC-28");
    assert!(!w.should_probe(true), "nothing held, nothing to ask");
    let mut r = [0u8; 32];
    r[..6].copy_from_slice(&[0x01, 0x02, 0x00, 0x01, 0x00, 0x06]);
    let (known, e) = w.report(&r);
    assert!(known && e.heard);
    assert_eq!(
        e.events,
        vec![
            Rc28Event::Input(Input::Turn(2)),
            Rc28Event::Input(Input::Key { key: Key::Transmit, down: true }),
        ]
    );
    assert!(w.should_probe(true));
    assert!(!w.should_probe(false));
    let e = w.probe_written(false);
    assert_eq!(e.events, vec![Rc28Event::Disconnected]);
}

#[test]
fn a_firmware_answer_is_shown_and_a_repeated_failure_is_not_news() {
    let mut w = Worker::new(true);
    assert!(!w.open_failed("no".into()));
    assert!(w.open_failed("no".into()));
    w.nothing_found();
    assert!(w.status().error.is_none());
    w.opened("RC-28");
    let mut r = [0u8; 32];
    r[0] = 2;
    r[1..9].copy_from_slice(b"102 3210");
    let (known, _) = w.report(&r);
    assert!(known);
    assert_eq!(w.status().firmware, "102 3210");
    let (known, e) = w.report(&[0x05]);
    assert!(!known && !e.heard);
}

#[test]
fn a_disabled_worker_reports_nothing() {
    let w = Worker::new(false);
    assert!(!w.status().connected);
    assert!(!w.enabled());
    assert!(!w.has_device());
    assert!(!w.should_probe(true));
    let mut q = Queue::new();
    assert!(q.drain().is_empty());
}
