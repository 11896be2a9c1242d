use g502_linux_control::ratbag::{ButtonInfo, LedInfo, ProfileInfo, RawValue, ResolutionInfo, Snapshot};
use g502_linux_control::restore::{check_can_disable, plan, stage, Change, Planned, StageCall};

fn button(index: u32, kind: u32, value: Option<RawValue>, action: &str) -> ButtonInfo {
    ButtonInfo { index, action_types: vec![0, 1, 2, 3, 4], action: action.into(), raw_type: kind, raw_value: value }
}

fn sample() -> Snapshot {
    Snapshot {
        name: "Test Mouse".into(),
        model: "usb:046d:c08b:0".into(),
        profiles: vec![ProfileInfo {
            index: 0,
            disabled: false,
            is_active: true,
            report_rate: 1000,
            report_rates: vec![125, 250, 500, 1000],
            capabilities: vec![102],
            buttons: vec![
                button(0, 1, Some(RawValue::Number(1)), "mouse button 1"),
                button(1, 4, Some(RawValue::MacroEvents(vec![[1, 183], [2, 183]])), "macro KEY_F13"),
            ],
            resolutions: vec![ResolutionInfo {
                index: 0,
                dpi: Some(1800),
                is_active: true,
                is_default: true,
                is_disabled: false,
                capabilities: vec![2],
                supported_dpi: vec![1000, 1800, 2400],
            }],
            leds: vec![LedInfo { index: 0, mode: 1, modes: vec![0, 1, 2, 3], color: "0000ff".into(), brightness: 255, color_depth: 1 }],
        }],
    }
}

#[test]
fn identical_snapshot_plans_nothing() {
    assert!(plan(&sample(), &sample()).unwrap().is_empty());
}

#[test]
fn plans_each_kind_of_difference() {
    let cur = sample();
    let mut t = sample();
    t.profiles[0].report_rate = 500;
    t.profiles[0].resolutions[0].dpi = Some(2400);
    t.profiles[0].buttons[0] = button(0, 3, Some(RawValue::Number(30)), "key KEY_A");
    t.profiles[0].leds[0].color = "ff0000".into();
    t.profiles[0].leds[0].brightness = 100;
    let p = plan(&cur, &t).unwrap();
    let changes: Vec<_> = p.iter().map(|p| p.change.clone()).collect();
    assert_eq!(
        changes,
        vec![
            Change::ReportRate { profile: 0, to: 500 },
            Change::Dpi { profile: 0, slot: 0, to: 2400 },
            Change::Button { profile: 0, button: 0, kind: 3, value: Some(RawValue::Number(30)) },
            Change::Led { profile: 0, led: 0, mode: None, color: Some("ff0000".into()), brightness: Some(100) },
        ]
    );
    assert!(p[2].summary.contains("mouse button 1 -> key KEY_A"), "{}", p[2].summary);
}

#[test]
fn unchanged_parts_are_not_planned() {
    let mut t = sample();
    t.profiles[0].leds[0].color = "00ff00".into();
    assert_eq!(plan(&sample(), &t).unwrap().len(), 1);
}

#[test]
fn refuses_other_models() {
    let mut t = sample();
    t.model = "usb:046d:c539:0".into();
    assert!(plan(&sample(), &t).unwrap_err().to_string().contains("snapshot is for"));
}

#[test]
fn refuses_different_shape() {
    let mut t = sample();
    t.profiles[0].buttons.pop();
    assert!(plan(&sample(), &t).is_err());
    let mut t = sample();
    t.profiles.push(t.profiles[0].clone());
    assert!(plan(&sample(), &t).is_err());
}

#[test]
fn refuses_values_the_device_does_not_support() {
    let mut t = sample();
    t.profiles[0].resolutions[0].dpi = Some(1234);
    assert!(plan(&sample(), &t).is_err());
    let mut t = sample();
    t.profiles[0].report_rate = 333;
    assert!(plan(&sample(), &t).is_err());
    let mut t = sample();
    t.profiles[0].leds[0].mode = 9;
    assert!(plan(&sample(), &t).is_err());
    let mut t = sample();
    t.profiles[0].leds[0].color = "nope".into();
    assert!(plan(&sample(), &t).is_err());
    let mut cur = sample();
    cur.profiles[0].buttons[0].action_types = vec![1];
    let mut t = sample();
    t.profiles[0].buttons[0] = button(0, 4, Some(RawValue::MacroEvents(vec![])), "macro");
    assert!(plan(&cur, &t).is_err());
}

fn three_profiles() -> Snapshot {
    let mut s = sample();
    for (i, (disabled, active)) in [(false, true), (false, false), (true, false)].into_iter().enumerate() {
        let mut p = s.profiles[0].clone();
        p.index = i as u32;
        p.disabled = disabled;
        p.is_active = active;
        if i == 0 {
            s.profiles.clear();
        }
        s.profiles.push(p);
    }
    s
}

#[test]
fn disable_rules() {
    let s = three_profiles();
    assert!(check_can_disable(&s, &[], 1).is_ok());
    assert!(check_can_disable(&s, &[], 2).is_ok(), "already disabled is fine");
    let err = |p, dpi: &[u32]| check_can_disable(&s, dpi, p).unwrap_err().to_string();
    assert!(err(0, &[]).contains("active profile"));
    assert!(err(1, &[1]).contains("dpi.profiles"));
    assert!(err(0, &[0]).contains("dpi.profiles"), "sync rule is reported before the active rule");
    assert!(err(7, &[]).contains("no profile 7"));
}

#[test]
fn never_disables_the_last_enabled_profile() {
    let mut s = three_profiles();
    s.profiles[1].disabled = true; // only profile 0 (active) is left
    s.profiles[0].is_active = false;
    assert!(check_can_disable(&s, &[], 0).unwrap_err().to_string().contains("only enabled profile"));
}

#[test]
fn refuses_malformed_button_values() {
    let mut t = sample();
    t.profiles[0].buttons[0] = button(0, 4, Some(RawValue::Number(3)), "macro?");
    assert!(plan(&sample(), &t).is_err());
    let mut t = sample();
    t.profiles[0].buttons[0] = button(0, 1, None, "button?");
    assert!(plan(&sample(), &t).is_err());
}

fn refusal(cur: &Snapshot, t: &Snapshot) -> String {
    plan(cur, t).unwrap_err().to_string()
}

#[test]
fn refusals_say_why() {
    let cur = sample();
    let mut t = sample();
    t.name = "Other".into();
    t.model = "usb:0000:0000:0".into();
    assert_eq!(refusal(&cur, &t), "snapshot is for Other (usb:0000:0000:0), connected device is Test Mouse (usb:046d:c08b:0)");
    let mut t = sample();
    t.profiles.clear();
    assert_eq!(refusal(&cur, &t), "snapshot has 0 profiles, device has 1");
    let mut t = sample();
    t.profiles[0].index = 4;
    assert_eq!(refusal(&cur, &t), "snapshot profile order differs at profile 0");
    let mut t = sample();
    t.profiles[0].leds.clear();
    assert_eq!(refusal(&cur, &t), "profile 0: snapshot has a different number of buttons/resolutions/LEDs than the device");
    let mut t = sample();
    t.profiles[0].report_rate = 333;
    assert_eq!(refusal(&cur, &t), "profile 0: 333 Hz is not a supported report rate");
    let mut t = sample();
    t.profiles[0].resolutions[0].dpi = Some(1234);
    assert_eq!(refusal(&cur, &t), "profile 0 slot 0: 1234 DPI is not supported");
    let mut t = sample();
    t.profiles[0].buttons[0] = button(0, 7, None, "?");
    assert_eq!(refusal(&cur, &t), "profile 0 button 0: action type 7 is not supported (supported: [0, 1, 2, 3, 4])");
    let mut t = sample();
    t.profiles[0].buttons[0] = button(0, 4, Some(RawValue::Number(3)), "?");
    assert_eq!(refusal(&cur, &t), "profile 0 button 0: malformed value Some(Number(3)) for action type 4");
    let mut t = sample();
    t.profiles[0].buttons[0] = button(0, 1, Some(RawValue::MacroEvents(vec![[1, 2], [3, 4]])), "?");
    assert_eq!(refusal(&cur, &t), "profile 0 button 0: malformed value Some(MacroEvents([[1, 2], [3, 4]])) for action type 1");
    let mut t = sample();
    t.profiles[0].leds[0].mode = 9;
    assert_eq!(refusal(&cur, &t), "profile 0 LED 0: mode 9 is not supported (supported: [0, 1, 2, 3])");
    let mut t = sample();
    t.profiles[0].leds[0].color = "nope".into();
    assert_eq!(refusal(&cur, &t), "color must be RRGGBB, got \"nope\"");
}

#[test]
fn summaries_show_both_values() {
    let cur = sample();
    let mut t = sample();
    t.profiles[0].disabled = true;
    t.profiles[0].report_rate = 500;
    t.profiles[0].resolutions[0].dpi = Some(2400);
    t.profiles[0].resolutions[0].is_disabled = true;
    t.profiles[0].leds[0].mode = 3;
    t.profiles[0].leds[0].color = "ff0000".into();
    t.profiles[0].leds[0].brightness = 1;
    let lines: Vec<String> = plan(&cur, &t).unwrap().into_iter().map(|p| p.summary).collect();
    assert_eq!(
        lines,
        vec![
            "profile 0: enabled -> disabled",
            "profile 0: report rate 1000 -> 500 Hz",
            "profile 0 resolution 0: 1800 -> 2400 DPI",
            "profile 0 resolution 0: disabled false -> true",
            "profile 0 LED 0: mode 1 -> 3, color 0000ff -> ff0000, brightness 255 -> 1",
        ]
    );
}

#[test]
fn an_unknown_dpi_is_not_restored() {
    let mut t = sample();
    t.profiles[0].resolutions[0].dpi = None;
    assert!(plan(&sample(), &t).unwrap().is_empty());
    let mut cur = sample();
    cur.profiles[0].resolutions[0].dpi = None;
    assert_eq!(plan(&cur, &sample()).unwrap()[0].summary, "profile 0 resolution 0: ? -> 1800 DPI");
}

/// The device after a change, with what it reads back.
fn carry_out(s: &mut Snapshot, c: &Change) {
    match c {
        Change::ProfileDisabled { profile, to } => s.profiles[*profile as usize].disabled = *to,
        Change::ReportRate { profile, to } => s.profiles[*profile as usize].report_rate = *to,
        Change::Dpi { profile, slot, to } => s.profiles[*profile as usize].resolutions[*slot as usize].dpi = Some(*to),
        Change::SlotDisabled { profile, slot, to } => {
            s.profiles[*profile as usize].resolutions[*slot as usize].is_disabled = *to
        }
        Change::Button { profile, button, kind, value } => {
            let b = &mut s.profiles[*profile as usize].buttons[*button as usize];
            b.raw_type = *kind;
            b.raw_value = value.clone();
        }
        Change::Led { profile, led, mode, color, brightness } => {
            let l = &mut s.profiles[*profile as usize].leds[*led as usize];
            l.mode = mode.unwrap_or(l.mode);
            l.color = color.clone().unwrap_or(l.color.clone());
            l.brightness = brightness.unwrap_or(l.brightness);
        }
    }
}

#[test]
fn carrying_out_a_plan_leaves_nothing_to_write() {
    let mut t = three_profiles();
    t.profiles[0].report_rate = 125;
    t.profiles[1].resolutions[0].dpi = Some(1000);
    t.profiles[1].resolutions[0].is_disabled = true;
    t.profiles[2].disabled = false;
    t.profiles[2].buttons[0] = button(0, 0, None, "none");
    t.profiles[2].leds[0].color = "102030".into();
    let mut device = three_profiles();
    let p = plan(&device, &t).unwrap();
    assert_eq!(p.len(), 6);
    for step in &p {
        carry_out(&mut device, &step.change);
    }
    assert!(plan(&device, &t).unwrap().is_empty());
    // A colour in another spelling is written, but reads back in the device's own.
    let mut loud = three_profiles();
    loud.profiles[0].leds[0].color = "0000FF".into();
    assert_eq!(plan(&three_profiles(), &loud).unwrap().len(), 1);
}

#[test]
fn profiles_are_enabled_first_and_disabled_last() {
    let planned = |change: Change| Planned { change, summary: String::new() };
    let calls = stage(&vec![
        planned(Change::ProfileDisabled { profile: 0, to: true }),
        planned(Change::Led { profile: 1, led: 2, mode: Some(1), color: Some("#102030".into()), brightness: None }),
        planned(Change::ProfileDisabled { profile: 1, to: false }),
        planned(Change::Button { profile: 1, button: 3, kind: 0, value: None }),
    ]);
    let calls: Vec<StageCall> = calls.into_iter().map(|c| c.unwrap()).collect();
    assert_eq!(
        calls,
        vec![
            StageCall::ProfileDisabled { profile: 1, disabled: false },
            StageCall::Led { profile: 1, led: 2, mode: Some(1), color: Some((16, 32, 48)), brightness: None },
            StageCall::Button { profile: 1, button: 3, kind: 0, value: RawValue::Number(0) },
            StageCall::ProfileDisabled { profile: 0, disabled: true },
        ]
    );
    let bad = stage(&vec![planned(Change::Led { profile: 0, led: 0, mode: None, color: Some("x".into()), brightness: None })]);
    assert_eq!(bad[0].as_ref().unwrap_err().to_string(), "color must be RRGGBB, got \"x\"");
}

#[test]
fn disable_refusals_say_why() {
    let s = three_profiles();
    let err = |p, dpi: &[u32]| check_can_disable(&s, dpi, p).unwrap_err().to_string();
    assert_eq!(err(0, &[]), "profile 0 is the active profile; switch to another profile first");
    assert_eq!(err(1, &[1]), "profile 1 is in dpi.profiles, so g502d keeps its DPI in sync; remove it from the config first");
    assert_eq!(err(7, &[]), "device has no profile 7");
}
