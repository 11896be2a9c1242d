use g502_linux_control::daemon::{
    batch_line, daemon_role, dropped_line, setup_line, Daemon, DaemonAction, DaemonEvent,
};
use g502_linux_control::config::Config;
use g502_linux_control::dpi::Step;
use g502_linux_control::error::Error;
use g502_linux_control::input::{
    find_endpoint, notice_text, step_for, steps_of, Endpoint, Happened, InputEvent, Listener, Next, Notice,
    Reaction, EVENT_KEY, KEY_F13, KEY_F14,
};
use g502_linux_control::journal::log_line;
use g502_linux_control::ratbag::RawValue;

#[test]
fn the_two_keys_are_evdevs() {
    assert_eq!(KEY_F13, evdev::KeyCode::KEY_F13.code());
    assert_eq!(KEY_F14, evdev::KeyCode::KEY_F14.code());
    assert_eq!(EVENT_KEY, evdev::EventType::KEY.0);
}

#[test]
fn the_endpoint_has_the_ids_and_both_keys() {
    let node = |vendor, product, keys: Option<Vec<u16>>| Endpoint { vendor, product, keys };
    let nodes = vec![
        node(0x046d, 0xc08b, None),
        node(0x046d, 0xc08b, Some(vec![272, 273])),
        node(0x046d, 0xc08b, Some(vec![183])),
        node(0x046d, 0x0001, Some(vec![183, 184])),
        node(0x046d, 0xc08b, Some(vec![30, 184, 183])),
        node(0x046d, 0xc08b, Some(vec![183, 184])),
    ];
    assert_eq!(find_endpoint(&nodes, 0x046d, 0xc08b), Some(4));
    assert_eq!(find_endpoint(&nodes, 0x046d, 0x0001), Some(3));
    assert_eq!(find_endpoint(&nodes, 1, 2), None);
    assert_eq!(find_endpoint(&[], 0x046d, 0xc08b), None);
}

fn key(code: u16, value: i32) -> InputEvent {
    InputEvent { kind: EVENT_KEY, code, value }
}

#[test]
fn only_presses_of_the_two_keys_are_steps() {
    assert_eq!(step_for(KEY_F13), Some(Step::Down));
    assert_eq!(step_for(KEY_F14), Some(Step::Up));
    assert_eq!(step_for(30), None);
    let events = [
        key(KEY_F14, 1),
        key(KEY_F14, 2),
        key(KEY_F14, 0),
        InputEvent { kind: 0, code: KEY_F13, value: 1 },
        key(30, 1),
        key(KEY_F13, 1),
        key(KEY_F13, -1),
    ];
    assert_eq!(steps_of(&events), vec![Step::Up, Step::Down]);
    let (a, b) = events.split_at(3);
    let mut both = steps_of(a);
    both.extend(steps_of(b));
    assert_eq!(both, steps_of(&events));
}

#[test]
fn the_listener_retries_and_logs_each_failure_once() {
    let mut l = Listener::default();
    let r = |notice, pause_seconds, next| Reaction { notice, pause_seconds, next };
    assert_eq!(l.react(Happened::NotFound), r(Some(Notice::Waiting), 2, Next::Find));
    assert_eq!(l.react(Happened::NotFound), r(None, 2, Next::Find));
    assert_eq!(l.react(Happened::Found), r(None, 0, Next::Grab));
    assert_eq!(l.react(Happened::NotGrabbed), r(Some(Notice::CannotGrab), 5, Next::Find));
    assert_eq!(l.react(Happened::Found), r(None, 0, Next::Grab));
    assert_eq!(l.react(Happened::NotGrabbed), r(None, 5, Next::Find));
    assert_eq!(l.react(Happened::Grabbed), r(Some(Notice::Listening), 0, Next::Read));
    assert_eq!(l.react(Happened::Sent), r(None, 0, Next::Read));
    assert_eq!(l.react(Happened::WentAway), r(Some(Notice::WentAway), 1, Next::Find));
    assert_eq!(l.react(Happened::NotFound), r(Some(Notice::Waiting), 2, Next::Find));
    assert_eq!(l.react(Happened::NotGrabbed), r(Some(Notice::CannotGrab), 5, Next::Find));
    assert_eq!(l.react(Happened::ReceiverGone), r(None, 0, Next::Stop));
}

#[test]
fn notices_have_words_and_priorities() {
    assert_eq!(notice_text(Notice::Waiting, "", ""), (4, "G502 keyboard endpoint not found or not readable; waiting".to_string()));
    assert_eq!(
        notice_text(Notice::CannotGrab, "/dev/input/event3", "busy"),
        (3, "cannot grab /dev/input/event3 (busy); is another daemon (g502-dpid?) running? retrying every 5s".to_string())
    );
    assert_eq!(notice_text(Notice::Listening, "/dev/x", "Mouse"), (6, "listening on /dev/x (Mouse)".to_string()));
    assert_eq!(notice_text(Notice::WentAway, "/dev/x", "gone"), (4, "/dev/x went away: gone".to_string()));
}

#[test]
fn the_journal_gets_priorities() {
    assert_eq!(log_line(4, "careful", true), "<4>careful");
    assert_eq!(log_line(4, "careful", false), "careful");
}

#[test]
fn the_daemon_connects_when_needed() {
    let mut d = Daemon::default();
    assert_eq!(d.react(DaemonEvent::Batch), DaemonAction::Connect);
    assert_eq!(d.react(DaemonEvent::NotConnected), DaemonAction::Wait);
    assert_eq!(d.react(DaemonEvent::Batch), DaemonAction::Connect);
    assert_eq!(d.react(DaemonEvent::Connected), DaemonAction::Apply);
    assert_eq!(d.react(DaemonEvent::Applied), DaemonAction::Wait);
    assert_eq!(d.react(DaemonEvent::Batch), DaemonAction::Apply);
    assert_eq!(d.react(DaemonEvent::NotApplied), DaemonAction::Wait);
    assert_eq!(d.react(DaemonEvent::Batch), DaemonAction::Connect);
}

#[test]
fn the_daemon_says_what_it_did() {
    let gone = || Error::new("no mouse".to_string()).context("reading".to_string());
    assert_eq!(batch_line(&Ok(Some((1000, 3200))), 3), (6, "dpi 1000 -> 3200 (3 press(es))".to_string()));
    assert_eq!(batch_line(&Ok(None), 2), (6, "dpi unchanged (2 press(es), at boundary)".to_string()));
    assert_eq!(batch_line(&Err(gone()), 1), (3, "dpi update failed: reading: no mouse".to_string()));
    assert_eq!(dropped_line(4, &gone()), (4, "cannot use device, dropping 4 press(es): reading: no mouse".to_string()));
    assert_eq!(
        setup_line(&Config::default()),
        "stages [1000, 1800, 2400, 3200, 4000], shared slot 1, synced profiles [0, 1]"
    );
}

#[test]
fn the_daemons_buttons_are_recognised() {
    let tap = |a, b| Some(RawValue::MacroEvents(vec![[1, a], [2, b]]));
    assert_eq!(daemon_role(4, &tap(183, 183)), Some("DPI down (KEY_F13)"));
    assert_eq!(daemon_role(4, &tap(184, 184)), Some("DPI up (KEY_F14)"));
    assert_eq!(daemon_role(4, &tap(183, 184)), None);
    assert_eq!(daemon_role(4, &Some(RawValue::MacroEvents(vec![[1, 183]]))), None);
    assert_eq!(daemon_role(3, &tap(183, 183)), None);
    assert_eq!(daemon_role(4, &Some(RawValue::Number(183))), None);
    assert_eq!(daemon_role(4, &None), None);
}
