use g502_linux_control::config::Config;
use g502_linux_control::edit::{editor_for, parse_edit_hook, ButtonEdit, Edit, Kind, LedEdit, SlotEdit, KINDS};
use g502_linux_control::gui::{Action, App, Data, Load, Message};
use g502_linux_control::panel::{
    dpi_line, editor_panel, profile_edit_text, profile_panel, rate_choices, stage_chips, subtitle, tab_label, Tone,
};
use g502_linux_control::ratbag::{describe, ButtonInfo, LedInfo, ProfileInfo, RawValue, ResolutionInfo, Snapshot};
use g502_linux_control::restore::plan;

fn button(index: u32, kind: u32, value: Option<RawValue>) -> ButtonInfo {
    ButtonInfo { index, action_types: vec![0, 1, 2, 3, 4], action: describe(kind, &value), raw_type: kind, raw_value: value }
}

fn tap(code: u32) -> Option<RawValue> {
    Some(RawValue::MacroEvents(vec![[1, code], [2, code]]))
}

fn profile(index: u32, disabled: bool) -> ProfileInfo {
    let slot = |i, dpi, is_disabled| ResolutionInfo {
        index: i, dpi, is_active: i == 1, is_default: i == 1, is_disabled, capabilities: vec![2], supported_dpi: vec![1000, 1800, 2400],
    };
    ProfileInfo {
        index,
        disabled,
        is_active: index == 0,
        report_rate: 1000,
        report_rates: vec![500, 1000],
        capabilities: vec![],
        buttons: vec![button(0, 1, Some(RawValue::Number(1))), button(1, 4, tap(184)), button(2, 0, None)],
        resolutions: vec![slot(0, Some(1000), false), slot(1, Some(1800), false), slot(2, None, true)],
        leds: vec![LedInfo { index: 0, mode: 1, modes: vec![0, 1], color: "0a0b0c".into(), brightness: 7, color_depth: 1 },
            LedInfo { index: 1, mode: 8, modes: vec![0, 1], color: "?".into(), brightness: 7, color_depth: 1 }],
    }
}

fn data() -> Data {
    Data {
        cfg: Config::default(),
        snap: Snapshot {
            name: "Mouse".into(),
            model: "usb:046d:c08b:0".into(),
            profiles: vec![profile(0, false), profile(1, false), profile(2, false), profile(3, true)],
        },
        shared_dpi: Some(1800),
        config_diff: None,
    }
}

fn ready() -> App {
    let mut app = App::boot(false, None, None, false);
    assert_eq!(app.update(Message::Loaded(Ok(data()))), Action::Idle);
    app
}

#[test]
fn kinds_have_words_and_labels() {
    let words: Vec<&str> = KINDS.iter().map(|k| k.word()).collect();
    assert_eq!(words, vec!["button", "special", "key", "macro", "none"]);
    for k in KINDS {
        assert_eq!(Kind::from_word(k.word()), Some(k));
    }
    assert_eq!(Kind::from_word("mouse"), None);
    let labels: Vec<&str> = KINDS.iter().map(|k| k.label()).collect();
    assert_eq!(labels, vec!["mouse button", "special action", "keyboard key", "key macro (press+release)", "none (disable button)"]);
    let defaults: Vec<&str> = KINDS.iter().map(|k| k.default_value()).collect();
    assert_eq!(defaults, vec!["1", "doubleclick", "KEY_A", "KEY_A", ""]);
}

#[test]
fn edits_have_words_and_titles() {
    let e = ButtonEdit { profile: 1, button: 2, kind: Kind::Key, value: " KEY_A ".into() };
    assert_eq!(e.words(), vec!["key", "KEY_A"]);
    let none = ButtonEdit { profile: 1, button: 2, kind: Kind::Nothing, value: "x".into() };
    assert_eq!(none.words(), vec!["none"]);
    assert_eq!(Edit::Button(e).title(), "profile 1 button 2");
    assert_eq!(Edit::Led(LedEdit { profile: 0, led: 1, mode: 0, color: String::new(), brightness: String::new() }).title(), "profile 0 LED 1");
    assert_eq!(Edit::Rate { profile: 3, hz: 1 }.title(), "profile 3 report rate");
    assert_eq!(Edit::Profile { profile: 3, disable: true }.title(), "profile 3: disable");
    assert_eq!(Edit::Profile { profile: 3, disable: false }.title(), "profile 3: enable");
    let slot = Edit::Slot(SlotEdit { profile: 4, slot: 2, dpi: String::new(), enabled: true });
    assert_eq!((slot.title().as_str(), slot.profile()), ("profile 4 resolution slot 2", 4));
}

#[test]
fn targets_follow_the_same_rules() {
    let d = data();
    let changes = |e: &Edit| e.target(&d.snap, &d.cfg).map(|t| plan(&d.snap, &t).map(|p| p.len()).map_err(|e| e.message())).map_err(|e| e.message());
    let led = |brightness: &str| Edit::Led(LedEdit { profile: 0, led: 0, mode: 0, color: "#0A0B0C".into(), brightness: brightness.into() });
    assert_eq!(changes(&led(" 7 ")), Ok(Ok(1)));
    assert_eq!(changes(&led("many")), Err("brightness must be a number from 0 to 255, got \"many\"".into()));
    assert_eq!(changes(&led("300")), Err("brightness must be 0-255, got 300".into()));
    let slot = |slot: u32, dpi: &str| Edit::Slot(SlotEdit { profile: 0, slot, dpi: dpi.into(), enabled: true });
    assert_eq!(changes(&slot(0, "1800")), Ok(Ok(1)));
    assert_eq!(changes(&slot(0, "1.5")), Err("DPI must be a whole number, got \"1.5\"".into()));
    assert!(changes(&slot(1, "1800")).unwrap_err().starts_with("slot 1 of profile 0 holds the shared DPI"));
    assert_eq!(changes(&Edit::Rate { profile: 0, hz: 500 }), Ok(Ok(1)));
    assert_eq!(changes(&Edit::Profile { profile: 3, disable: false }), Ok(Ok(1)));
    assert!(changes(&Edit::Profile { profile: 1, disable: true }).unwrap_err().contains("dpi.profiles"));
    assert_eq!(changes(&Edit::Button(ButtonEdit { profile: 0, button: 0, kind: Kind::MouseButton, value: "1".into() })), Ok(Ok(0)));
}

#[test]
fn editors_open_on_the_current_action() {
    let open = |kind, value| {
        let e = editor_for(1, kind, &value, 2);
        assert_eq!((e.profile, e.button), (1, 2));
        (e.kind, e.value)
    };
    assert_eq!(open(3, Some(RawValue::Number(30))), (Kind::Key, "KEY_A".to_string()));
    assert_eq!(open(4, tap(183)), (Kind::Macro, "KEY_F13".to_string()));
    assert_eq!(open(2, Some(RawValue::Number((1 << 30) + 2))), (Kind::Special, "wheel-left".to_string()));
    assert_eq!(open(1, Some(RawValue::Number(4))), (Kind::MouseButton, "4".to_string()));
    assert_eq!(open(0, None), (Kind::Nothing, String::new()));
    assert_eq!(open(4, Some(RawValue::MacroEvents(vec![]))), (Kind::MouseButton, "1".to_string()));
    // Applying it unchanged is no change.
    let d = data();
    for b in &d.snap.profiles[0].buttons {
        let e = Edit::Button(editor_for(0, b.raw_type, &b.raw_value, b.index));
        assert!(plan(&d.snap, &e.target(&d.snap, &d.cfg).unwrap()).unwrap().is_empty());
    }
}

#[test]
fn hooks_open_editors() {
    assert_eq!(
        parse_edit_hook("led:0:1:on:ff0000:9"),
        Some(Edit::Led(LedEdit { profile: 0, led: 1, mode: 1, color: "ff0000".into(), brightness: "9".into() }))
    );
    assert_eq!(parse_edit_hook("rate:2:500"), Some(Edit::Rate { profile: 2, hz: 500 }));
    assert_eq!(parse_edit_hook("profile:2:disable"), Some(Edit::Profile { profile: 2, disable: true }));
    assert_eq!(parse_edit_hook("profile:2:other"), Some(Edit::Profile { profile: 2, disable: false }));
    assert_eq!(
        parse_edit_hook("slot:1:2:800:disabled"),
        Some(Edit::Slot(SlotEdit { profile: 1, slot: 2, dpi: "800".into(), enabled: false }))
    );
    let b = |value: &str| Some(Edit::Button(ButtonEdit { profile: 1, button: 3, kind: Kind::Key, value: value.into() }));
    assert_eq!(parse_edit_hook("1:3:key:KEY_A"), b("KEY_A"));
    assert_eq!(parse_edit_hook("1:3:key"), b(""));
    assert_eq!(parse_edit_hook("1:3:key:a:b:c:d:e"), b("a:b:c:d:e"));
    for bad in ["", "1", "1:2", "led:0:1:blink:x:9", "led:0:1:on:x", "rate:x:1", "slot:x:1:1:enabled", "1:3:kex:KEY_A", "x:3:key:KEY_A"] {
        assert_eq!(parse_edit_hook(bad), None, "{bad}");
    }
}

#[test]
fn a_window_opens_on_what_was_asked_for() {
    let app = App::boot(true, Some(3), None, true);
    assert_eq!((app.selected, app.auto_apply, app.busy), (3, true, false));
    let app = App::boot(false, Some(3), Some("rate:2:500"), true);
    assert_eq!((app.selected, app.auto_apply), (2, false));
    assert_eq!(app.editor, Some(Edit::Rate { profile: 2, hz: 500 }));
    assert_eq!(App::boot(false, None, Some("nonsense"), false).editor, None);
}

#[test]
fn nothing_is_written_before_apply() {
    let mut app = ready();
    assert_eq!(app.update(Message::ApplyEdit), Action::Idle);
    assert_eq!(app.update(Message::EditRate(0)), Action::Idle);
    assert_eq!(app.editor, Some(Edit::Rate { profile: 0, hz: 1000 }));
    assert_eq!(app.update(Message::RateHz(500)), Action::Idle);
    assert_eq!(app.update(Message::ApplyEdit), Action::Write(Edit::Rate { profile: 0, hz: 500 }));
    assert!(app.busy);
    assert_eq!(app.update(Message::Applied(Err("no".into()))), Action::Read);
    assert_eq!((app.busy, app.notice.clone()), (false, Some((false, "no".to_string()))));
    assert!(app.editor.is_some());
    assert_eq!(app.update(Message::Applied(Ok("done".into()))), Action::Read);
    assert_eq!((app.editor.is_none(), app.notice.clone()), (true, Some((true, "done".to_string()))));
}

#[test]
fn editors_take_their_own_inputs() {
    let mut app = ready();
    app.update(Message::Edit(0, 0));
    app.update(Message::EditKind(Kind::Special));
    app.update(Message::EditValue("wheel-left".into()));
    app.update(Message::LedMode(3));
    app.update(Message::SlotDpi("9".into()));
    assert_eq!(app.editor, Some(Edit::Button(ButtonEdit { profile: 0, button: 0, kind: Kind::Special, value: "wheel-left".into() })));
    app.update(Message::EditKind(Kind::Key));
    assert_eq!(app.editor, Some(Edit::Button(ButtonEdit { profile: 0, button: 0, kind: Kind::Key, value: "KEY_A".into() })));
    app.update(Message::EditLed(0, 0));
    app.update(Message::LedMode(3));
    app.update(Message::LedColor("fff".into()));
    app.update(Message::LedBrightness("x".into()));
    assert_eq!(app.editor, Some(Edit::Led(LedEdit { profile: 0, led: 0, mode: 3, color: "fff".into(), brightness: "x".into() })));
    app.update(Message::EditSlot(0, 2));
    assert_eq!(app.editor, Some(Edit::Slot(SlotEdit { profile: 0, slot: 2, dpi: String::new(), enabled: false })));
    app.update(Message::SlotDpi("800".into()));
    app.update(Message::SlotEnabled(true));
    assert_eq!(app.editor, Some(Edit::Slot(SlotEdit { profile: 0, slot: 2, dpi: "800".into(), enabled: true })));
    app.update(Message::EditSlot(0, 9));
    app.update(Message::EditLed(9, 0));
    app.update(Message::Edit(0, 9));
    app.update(Message::EditRate(9));
    assert!(matches!(app.editor, Some(Edit::Slot(_))), "there is nothing else to open");
    app.update(Message::EditProfile(9, true));
    assert_eq!(app.editor, Some(Edit::Profile { profile: 9, disable: true }));
    app.update(Message::CancelEdit);
    assert_eq!(app.editor, None);
    app.update(Message::Select(2));
    assert_eq!(app.selected, 2);
}

#[test]
fn screenshots_are_taken_once_things_settled() {
    let mut app = App::boot(true, None, Some("rate:0:500"), true);
    assert_eq!(app.update(Message::Loaded(Ok(data()))), Action::Apply);
    assert_eq!(app.update(Message::ApplyEdit), Action::Write(Edit::Rate { profile: 0, hz: 500 }));
    assert_eq!(app.update(Message::Loaded(Err("x".into()))), Action::Idle, "still busy");
    assert_eq!(app.load, Load::Failed("x".into()));
    app.update(Message::Applied(Ok("done".into())));
    assert_eq!(app.update(Message::Loaded(Ok(data()))), Action::CaptureSoon);
    assert_eq!(app.update(Message::Capture), Action::FindWindow);
    assert_eq!(app.update(Message::WindowId(true)), Action::TakeScreenshot);
    assert_eq!(app.update(Message::Captured), Action::SaveAndExit);
    assert_eq!(app.update(Message::WindowId(false)), Action::Exit);
    assert_eq!(app.update(Message::Refresh), Action::Read);
    assert_eq!(app.load, Load::Loading);
}

#[test]
fn the_header_tells_what_is_shown() {
    let mut d = data();
    assert_eq!(subtitle(&d), "usb:046d:c08b:0   |   edits are only written when you press Apply");
    assert_eq!(tab_label(&d, &d.snap.profiles[0]), "Profile 0  (DPI sync)");
    assert_eq!(tab_label(&d, &d.snap.profiles[3]), "Profile 3  off");
    assert_eq!(dpi_line(&d), "Current: 1800 DPI   (kept in sync across profiles [0, 1], slot 1)");
    assert_eq!(stage_chips(&d), vec![(1000, false), (1800, true), (2400, false), (3200, false), (4000, false)]);
    d.shared_dpi = None;
    assert_eq!(dpi_line(&d), "Current: unknown   (kept in sync across profiles [0, 1], slot 1)");
    assert_eq!(rate_choices(&d, 0), vec![500, 1000]);
    assert!(rate_choices(&d, 9).is_empty());
    assert!(profile_edit_text(true).starts_with("The profile will be disabled"));
    assert!(profile_edit_text(false).starts_with("The profile will be enabled"));
}

#[test]
fn the_editor_shows_the_exact_diff() {
    let mut app = ready();
    let d = data();
    let rate = |hz| Edit::Rate { profile: 0, hz };
    let p = editor_panel(&app, &d, &rate(500), true);
    assert_eq!((p.title.as_str(), p.lines.clone()), ("Edit profile 0 report rate", vec!["profile 0: report rate 1000 -> 500 Hz".to_string()]));
    assert_eq!((p.tone, p.can_apply, p.can_cancel, p.warning), (Tone::Plain, true, true, None));
    let p = editor_panel(&app, &d, &rate(1000), true);
    assert_eq!((p.lines, p.tone, p.can_apply), (vec!["No change: the device already has this.".to_string()], Tone::Muted, false));
    let p = editor_panel(&app, &d, &rate(333), true);
    assert_eq!((p.lines, p.tone, p.can_apply), (vec!["profile 0: 333 Hz is not a supported report rate".to_string()], Tone::Danger, false));
    let daemon = Edit::Button(ButtonEdit { profile: 0, button: 1, kind: Kind::Nothing, value: String::new() });
    assert_eq!(
        editor_panel(&app, &d, &daemon, true).warning,
        Some(("This button sends KEY_F13/KEY_F14 to g502d. Changing it turns off that DPI button.".to_string(), Tone::Danger))
    );
    assert_eq!(editor_panel(&app, &d, &daemon, false).warning, None);
    let led = Edit::Led(LedEdit { profile: 0, led: 0, mode: 0, color: "0a0b0c".into(), brightness: "7".into() });
    assert_eq!(editor_panel(&app, &d, &led, true).warning.unwrap().1, Tone::Muted);
    assert!(editor_panel(&app, &d, &led, true).note.starts_with("Nothing is written until you press Apply."));
    app.busy = true;
    let p = editor_panel(&app, &d, &rate(500), true);
    assert_eq!((p.can_apply, p.can_cancel, p.note.as_str()), (false, false, "Writing to the mouse..."));
}

#[test]
fn a_profile_panel_shows_what_can_be_edited() {
    let mut app = ready();
    let d = data();
    let p = profile_panel(&app, &d, &d.snap.profiles[0]);
    assert_eq!((p.title.as_str(), p.disabled, p.has_toggle, p.can_toggle), ("Profile 0 - buttons", false, false, false));
    assert_eq!(p.state, "Profile 0 keeps the shared DPI in sync through g502d, so it cannot be disabled here.");
    let b = &p.buttons[1];
    assert_eq!((b.label.as_str(), b.action.as_str(), b.tone, b.can_edit), ("Button 1", "macro KEY_F14", Tone::Accent, true));
    assert_eq!(b.place, "onboard macro, read by g502d: DPI up (KEY_F14)");
    assert_eq!((p.buttons[0].place.as_str(), p.buttons[0].tone), ("onboard (stored in the mouse)", Tone::Muted));
    let slots: Vec<(&str, bool, bool)> = p.slots.iter().map(|s| (s.text.as_str(), s.shared, s.can_edit)).collect();
    assert_eq!(
        slots,
        vec![("Slot 0: 1000 DPI", false, true), ("Slot 1: 1800 DPI  shared, managed by g502d", true, false), ("Slot 2: ?  disabled", false, true)]
    );
    assert_eq!((p.rate.as_str(), p.can_edit_rate), ("Report rate: 1000 Hz (supports [500, 1000])", true));
    let leds: Vec<(&str, (u8, u8, u8))> = p.leds.iter().map(|l| (l.text.as_str(), l.color)).collect();
    assert_eq!(leds, vec![("LED 0: on, #0a0b0c", (10, 11, 12)), ("LED 1: mode 8, #?", (128, 128, 128))]);
    assert_eq!(p.editor, None);

    let p = profile_panel(&app, &d, &d.snap.profiles[2]);
    assert_eq!((p.state.as_str(), p.has_toggle, p.can_toggle), ("This profile is enabled.", true, true));
    assert_eq!(p.buttons[1].tone, Tone::Muted, "the profile is not synced");

    let p = profile_panel(&app, &d, &d.snap.profiles[3]);
    assert_eq!((p.title.as_str(), p.state.as_str(), p.disabled, p.can_toggle), ("Profile 3", "Disabled on the device.", true, true));
    assert!(p.buttons.is_empty() && p.slots.is_empty() && p.leds.is_empty());

    app.update(Message::Edit(0, 1));
    let p = profile_panel(&app, &d, &d.snap.profiles[0]);
    assert_eq!((p.buttons[0].can_edit, p.buttons[1].can_edit), (true, false));
    assert_eq!(p.editor.unwrap().title, "Edit profile 0 button 1");
    assert_eq!(profile_panel(&app, &d, &d.snap.profiles[1]).editor, None);
    app.update(Message::ApplyEdit);
    let p = profile_panel(&app, &d, &d.snap.profiles[2]);
    assert!(!p.can_toggle && !p.can_edit_rate && p.leds.iter().all(|l| !l.can_edit) && p.slots.iter().all(|s| !s.can_edit));
}
