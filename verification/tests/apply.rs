use g502_linux_control::apply::{
    export, normalized, overlay, with_button, with_led, with_profile_disabled, with_report_rate, with_slot,
};
use g502_linux_control::config::{ButtonConfig, Config, LedConfig, ProfileConfig, ResolutionConfig};
use g502_linux_control::ratbag::{action_string, describe, ButtonInfo, LedInfo, ProfileInfo, RawValue, ResolutionInfo, Snapshot};
use g502_linux_control::report::config_diff;
use g502_linux_control::restore::plan;

/// A config from its text, as far as these tests need it.
fn parse(text: &str) -> Result<Config, String> {
    let doc: toml::Table = text.parse().map_err(|e| format!("{e}"))?;
    let mut c = Config::default();
    let num = |v: &toml::Value| v.as_integer().unwrap() as u32;
    let list = |v: &toml::Value| v.as_array().unwrap().iter().map(num).collect::<Vec<u32>>();
    let text = |v: &toml::Value| v.as_str().unwrap().to_string();
    if let Some(d) = doc.get("device") {
        if let Some(v) = d.get("vendor") {
            c.device.vendor = num(v) as u16;
        }
        if let Some(v) = d.get("product") {
            c.device.product = num(v) as u16;
        }
    }
    if let Some(d) = doc.get("dpi") {
        if let Some(v) = d.get("values") {
            c.dpi.values = list(v);
        }
        if let Some(v) = d.get("shared_slot") {
            c.dpi.shared_slot = num(v);
        }
        if let Some(v) = d.get("profiles") {
            c.dpi.profiles = list(v);
        }
    }
    for (i, p) in doc.get("profiles").and_then(|p| p.as_table()).into_iter().flatten() {
        let mut out = ProfileConfig::default();
        out.enabled = p.get("enabled").map(|v| v.as_bool().unwrap());
        out.report_rate = p.get("report_rate").map(num);
        out.color = p.get("color").map(text);
        for (k, l) in p.get("leds").and_then(|t| t.as_table()).into_iter().flatten() {
            let led = LedConfig { mode: l.get("mode").map(text), color: l.get("color").map(text), brightness: l.get("brightness").map(num) };
            out.leds.insert(k.parse().unwrap(), led);
        }
        for (k, b) in p.get("buttons").and_then(|t| t.as_table()).into_iter().flatten() {
            out.buttons.insert(k.parse().unwrap(), ButtonConfig { onboard: text(b.get("onboard").unwrap()) });
        }
        for (k, r) in p.get("resolutions").and_then(|t| t.as_table()).into_iter().flatten() {
            let slot = ResolutionConfig { dpi: r.get("dpi").map(num), enabled: r.get("enabled").map(|v| v.as_bool().unwrap()) };
            out.resolutions.insert(k.parse().unwrap(), slot);
        }
        c.profiles.insert(i.parse().unwrap(), out);
    }
    c.validate().map_err(|e| e.message())?;
    Ok(c)
}

fn cfg(text: &str) -> Config {
    parse(text).unwrap()
}

fn button(index: u32, kind: u32, value: Option<RawValue>) -> ButtonInfo {
    ButtonInfo { index, action_types: vec![0, 1, 2, 3, 4], action: describe(kind, &value), raw_type: kind, raw_value: value }
}

fn profile(index: u32, disabled: bool, active: bool) -> ProfileInfo {
    let res = |i, dpi| ResolutionInfo {
        index: i, dpi: Some(dpi), is_active: i == 1, is_default: i == 1, is_disabled: false,
        capabilities: vec![2], supported_dpi: vec![1000, 1800, 2000, 2400],
    };
    ProfileInfo {
        index, disabled, is_active: active, report_rate: 1000, report_rates: vec![125, 250, 500, 1000],
        capabilities: vec![102],
        buttons: vec![
            button(0, 1, Some(RawValue::Number(1))),
            button(1, 2, Some(RawValue::Number((1 << 30) + 11))),
            button(2, 4, Some(RawValue::MacroEvents(vec![[1, 183], [2, 183]]))),
            button(3, 3, Some(RawValue::Number(30))),
            button(4, 0, None),
            button(5, 4, Some(RawValue::MacroEvents(vec![[1, 29], [1, 46], [2, 46], [2, 29]]))),
        ],
        resolutions: vec![res(0, 1000), res(1, 1800), res(2, 2400)],
        leds: vec![
            LedInfo { index: 0, mode: 1, modes: vec![0, 1, 2, 3], color: "0000ff".into(), brightness: 255, color_depth: 1 },
            LedInfo { index: 1, mode: 1, modes: vec![0, 1, 2, 3], color: "0000ff".into(), brightness: 255, color_depth: 1 },
        ],
    }
}

fn device() -> Snapshot {
    Snapshot {
        name: "Test Mouse".into(),
        model: "usb:046d:c08b:0".into(),
        profiles: vec![profile(0, false, true), profile(1, false, false), profile(2, true, false)],
    }
}

#[test]
fn exported_config_applies_as_an_empty_diff() {
    let dev = device();
    let text = export(&dev, &Config::default()).unwrap();
    let parsed = parse(&text).unwrap_or_else(|e| panic!("{e:#}\n{text}"));
    let target = overlay(&dev, &parsed).unwrap();
    assert!(plan(&dev, &target).unwrap().is_empty());
}

#[test]
fn export_skips_the_daemons_slot_and_comments_what_it_cannot_spell() {
    let text = export(&device(), &Config::default()).unwrap();
    assert!(!text.contains("[profiles.0.resolutions.1]"), "{text}");
    assert!(text.contains("[profiles.0.resolutions.2]"));
    assert!(!text.contains("[profiles.1.resolutions.1]"));
    assert!(text.contains("onboard = \"special resolution-alternate\""));
    assert!(text.contains("onboard = \"macro KEY_F13\""));
    assert!(text.contains("# profiles.0.buttons.5: macro ["), "multi-event macro becomes a comment");
    assert!(text.contains("[profiles.2]\nenabled = false"));
    assert!(!text.contains("[profiles.2.buttons"), "disabled profiles only record that they are disabled");
}

#[test]
fn only_named_things_change() {
    let dev = device();
    let c = cfg("[profiles.1]\ncolor = \"ff0000\"\n[profiles.1.buttons.0]\nonboard = \"button 2\"");
    let p = plan(&dev, &overlay(&dev, &c).unwrap()).unwrap();
    let lines: Vec<_> = p.iter().map(|p| p.summary.as_str()).collect();
    assert_eq!(lines.len(), 3, "{lines:?}"); // 2 LEDs + 1 button, nothing else
    assert!(lines.iter().all(|l| l.starts_with("profile 1 ")));
    assert!(plan(&dev, &overlay(&dev, &cfg("")).unwrap()).unwrap().is_empty());
}

#[test]
fn with_button_changes_only_that_button() {
    let dev = device();
    let t = with_button(&dev, 1, 3, &["special", "wheel-left"]).unwrap();
    let p = plan(&dev, &t).unwrap();
    assert_eq!(p.len(), 1);
    assert!(p[0].summary.contains("profile 1 button 3: key KEY_A -> special wheel-left"), "{}", p[0].summary);
    assert!(plan(&dev, &with_button(&dev, 1, 3, &["key", "a"]).unwrap()).unwrap().is_empty());
    assert!(with_button(&dev, 1, 99, &["none"]).is_err());
    assert!(with_button(&dev, 9, 0, &["none"]).is_err());
    assert!(with_button(&dev, 0, 0, &["special", "nope"]).is_err());
}

#[test]
fn with_led_changes_only_what_is_given() {
    let dev = device();
    let t = with_led(&dev, 0, 1, Some(3), Some("#00FF00"), None).unwrap();
    let p = plan(&dev, &t).unwrap();
    assert_eq!(p.len(), 1);
    assert!(p[0].summary.contains("LED 1: mode 1 -> 3, color 0000ff -> 00ff00"), "{}", p[0].summary);
    assert!(!p[0].summary.contains("brightness"));
    assert!(plan(&dev, &with_led(&dev, 0, 0, None, None, None).unwrap()).unwrap().is_empty());
    assert!(with_led(&dev, 0, 0, None, Some("red"), None).is_err());
    assert!(with_led(&dev, 0, 0, None, None, Some(256)).is_err());
    assert!(with_led(&dev, 0, 9, None, None, None).is_err());
    // an unsupported mode is caught by the plan
    assert!(plan(&dev, &with_led(&dev, 0, 0, Some(9), None, None).unwrap()).is_err());
}

#[test]
fn with_report_rate_is_validated_by_the_plan() {
    let dev = device();
    let ok = plan(&dev, &with_report_rate(&dev, 0, 500).unwrap()).unwrap();
    assert_eq!(ok.len(), 1);
    assert!(plan(&dev, &with_report_rate(&dev, 0, 333).unwrap()).is_err());
    assert!(with_report_rate(&dev, 9, 500).is_err());
}

#[test]
fn with_profile_disabled_follows_the_safety_rules() {
    let dev = device();
    assert!(with_profile_disabled(&dev, &[0, 1], 1, true).is_err(), "daemon-synced");
    assert!(with_profile_disabled(&dev, &[], 0, true).is_err(), "active");
    assert!(with_profile_disabled(&dev, &[0, 1], 2, true).is_ok(), "already disabled");
    let p = plan(&dev, &with_profile_disabled(&dev, &[0, 1], 2, false).unwrap()).unwrap();
    assert_eq!(p.len(), 1);
    assert!(p[0].summary.contains("profile 2: disabled -> enabled"), "{}", p[0].summary);
    assert!(with_profile_disabled(&dev, &[], 9, true).is_err());
}

#[test]
fn with_slot_protects_the_daemons_slot() {
    let dev = device();
    let cfg = Config::default(); // shared slot 1, profiles [0, 1]
    assert!(with_slot(&dev, &cfg, 0, 1, Some(2000), None).is_err());
    assert!(with_slot(&dev, &cfg, 2, 1, Some(2000), None).is_ok(), "profile 2 is not synced");
    let p = plan(&dev, &with_slot(&dev, &cfg, 0, 2, Some(2000), Some(false)).unwrap()).unwrap();
    assert_eq!(p.len(), 2, "{:?}", p.iter().map(|p| &p.summary).collect::<Vec<_>>());
    assert!(with_slot(&dev, &cfg, 0, 9, Some(2000), None).is_err());
    assert!(plan(&dev, &with_slot(&dev, &cfg, 0, 2, Some(1234), None).unwrap()).is_err(), "unsupported DPI");
}

#[test]
fn per_led_setting_beats_the_profile_shorthand() {
    let dev = device();
    let c = cfg("[profiles.0]\ncolor = \"ff0000\"\n[profiles.0.leds.1]\ncolor = \"00ff00\"\nmode = \"breathing\"");
    let t = overlay(&dev, &c).unwrap();
    assert_eq!(t.profiles[0].leds[0].color, "ff0000");
    assert_eq!(t.profiles[0].leds[1].color, "00ff00");
    assert_eq!(t.profiles[0].leds[1].mode, 3);
    assert_eq!(t.profiles[0].leds[0].mode, 1);
}

#[test]
fn colour_spelling_is_normalised() {
    let dev = device();
    let same = cfg("[profiles.0]\ncolor = \"#0000FF\"");
    assert!(plan(&dev, &overlay(&dev, &same).unwrap()).unwrap().is_empty());
}

#[test]
fn button_and_slot_edits() {
    let dev = device();
    let c = cfg(
        "[profiles.0.buttons.3]\nonboard = \"key KEY_B\"\n[profiles.0.resolutions.2]\ndpi = 2000\nenabled = false\n[profiles.0]\nreport_rate = 250",
    );
    let p = plan(&dev, &overlay(&dev, &c).unwrap()).unwrap();
    let text: Vec<_> = p.iter().map(|p| p.summary.clone()).collect();
    assert_eq!(text.len(), 4, "{text:?}");
    assert!(text.iter().any(|t| t.contains("key KEY_A -> key KEY_B")));
    assert!(text.iter().any(|t| t.contains("2400 -> 2000 DPI")));
    assert!(text.iter().any(|t| t.contains("report rate 1000 -> 250")));
}

#[test]
fn refuses_things_the_device_does_not_have() {
    let dev = device();
    for bad in [
        "[profiles.9]\nenabled = true",
        "[profiles.0.buttons.99]\nonboard = \"none\"",
        "[profiles.0.leds.5]\nmode = \"on\"",
        "[profiles.0.resolutions.9]\ndpi = 1000",
    ] {
        assert!(overlay(&dev, &cfg(bad)).is_err(), "{bad}");
    }
}

#[test]
fn safety_rules_apply_to_enabled_false() {
    let dev = device();
    // profiles 0 and 1 are the daemon's
    assert!(overlay(&dev, &cfg("[profiles.1]\nenabled = false")).is_err());
    // an already-disabled profile may be stated as disabled (even if ratbagd calls it active)
    assert!(plan(&dev, &overlay(&dev, &cfg("[profiles.2]\nenabled = false")).unwrap()).unwrap().is_empty());
    // and enabling it is a normal change
    let p = plan(&dev, &overlay(&dev, &cfg("[profiles.2]\nenabled = true")).unwrap()).unwrap();
    assert_eq!(p.len(), 1);
}

#[test]
fn unsupported_values_are_caught_by_the_plan() {
    let dev = device();
    let t = overlay(&dev, &cfg("[profiles.0.resolutions.2]\ndpi = 3300")).unwrap();
    assert!(plan(&dev, &t).is_err());
}

#[test]
fn the_whole_export() {
    let mut dev = device();
    dev.profiles.truncate(1);
    dev.profiles[0].buttons.truncate(1);
    dev.profiles[0].buttons.push(button(1, 4, Some(RawValue::MacroEvents(vec![[3, 5]]))));
    dev.profiles[0].leds.truncate(1);
    dev.profiles[0].leds[0].mode = 9;
    dev.profiles[0].resolutions[2].dpi = None;
    let text = export(&dev, &Config::default()).unwrap();
    assert_eq!(
        text,
        "# g502-linux-control config, exported from: Test Mouse (usb:046d:c08b:0)\n\
         # `g502ctl apply` writes what is named here and leaves everything else alone.\n\
         \n\
         [device]\nvendor = 0x046d\nproduct = 0xc08b\n\
         \n\
         [dpi]\nvalues = [1000, 1800, 2400, 3200, 4000]\nshared_slot = 1\nprofiles = [0, 1]\n\
         \n\
         [profiles.0]\nenabled = true\nreport_rate = 1000\n\
         \n\
         [profiles.0.leds.0]\n# mode 9 has no name here\ncolor = \"0000ff\"\nbrightness = 255\n\
         \n\
         [profiles.0.buttons.0]\nonboard = \"button 1\"\n\
         \n\
         # profiles.0.buttons.1: macro [wait 5ms] (cannot be written in a config)\n\
         \n\
         [profiles.0.resolutions.0]\ndpi = 1000\nenabled = true\n\
         \n\
         [profiles.0.resolutions.2]\nenabled = true\n\
         \n"
    );
}

#[test]
fn an_export_keeps_the_given_settings() {
    let mut c = Config::default();
    c.device.vendor = 0x00ff;
    c.dpi.values = vec![400, 800];
    c.dpi.shared_slot = 2;
    c.dpi.profiles = vec![2];
    let back = cfg(&export(&device(), &c).unwrap());
    assert_eq!((back.device, back.dpi), (c.device, c.dpi));
    assert_eq!(back.profiles.len(), 3);
    assert!(back.profiles[&0].resolutions.contains_key(&2), "profile 0 is not synced now");
}

#[test]
fn a_zero_button_has_no_spelling() {
    let mut dev = device();
    dev.profiles[0].buttons[0] = button(0, 1, Some(RawValue::Number(0)));
    assert_eq!(action_string(1, &Some(RawValue::Number(0))), None);
    let text = export(&dev, &Config::default()).unwrap();
    assert!(text.contains("# profiles.0.buttons.0: mouse button 0 (cannot be written in a config)\n"));
    let back = cfg(&text);
    assert!(!back.profiles[&0].buttons.contains_key(&0));
    assert_eq!(plan(&dev, &overlay(&dev, &back).unwrap()).unwrap(), vec![]);
}

#[test]
fn overlay_errors_name_the_place() {
    let dev = device();
    let err = |t: &str| overlay(&dev, &cfg(t)).unwrap_err().message();
    assert_eq!(err("[profiles.9]\nenabled = true"), "config names profile 9, but the device has 3");
    assert_eq!(err("[profiles.0.buttons.99]\nonboard = \"none\""), "profiles.0.buttons: profile 0 has no button 99");
    assert_eq!(err("[profiles.0.leds.5]\nmode = \"on\""), "profiles.0.leds: profile 0 has no LED 5");
    assert_eq!(err("[profiles.0.resolutions.9]\ndpi = 1000"), "profiles.0.resolutions: profile 0 has no resolution slot 9");
    assert_eq!(
        err("[profiles.1]\nenabled = false"),
        "profiles.1.enabled: profile 1 is in dpi.profiles, so g502d keeps its DPI in sync; remove it from the config first"
    );
}

#[test]
fn edit_errors_name_the_place() {
    let dev = device();
    let c = Config::default();
    assert_eq!(with_button(&dev, 9, 0, &["none"]).unwrap_err().to_string(), "device has no profile 9 button 0");
    assert_eq!(with_led(&dev, 0, 9, None, None, None).unwrap_err().to_string(), "device has no profile 0 LED 9");
    assert_eq!(with_led(&dev, 0, 0, None, None, Some(256)).unwrap_err().to_string(), "brightness must be 0-255, got 256");
    assert_eq!(with_report_rate(&dev, 9, 500).unwrap_err().to_string(), "device has no profile 9");
    assert_eq!(with_slot(&dev, &c, 0, 9, None, None).unwrap_err().to_string(), "device has no profile 0 resolution slot 9");
    assert!(with_slot(&dev, &c, 0, 1, None, None).unwrap_err().to_string().starts_with("slot 1 of profile 0 holds the shared DPI"));
}

#[test]
fn a_valid_config_leaves_the_shared_slot() {
    let dev = device();
    let c = cfg("[profiles.0.resolutions.0]\ndpi = 2000\n[profiles.0.resolutions.2]\nenabled = false\n[profiles.2.resolutions.1]\ndpi = 1000");
    let t = overlay(&dev, &c).unwrap();
    assert_eq!(t.profiles[0].resolutions[1], dev.profiles[0].resolutions[1]);
    assert_eq!(t.profiles[2].resolutions[1].dpi, Some(1000));
}

#[test]
fn an_enabled_profile_is_always_left() {
    let mut dev = device();
    dev.profiles[0].is_active = false;
    let t = with_profile_disabled(&dev, &[], 0, true).unwrap();
    assert!(t.profiles.iter().any(|p| !p.disabled));
    assert_eq!(
        with_profile_disabled(&t, &[], 1, true).unwrap_err().to_string(),
        "refusing to disable the only enabled profile"
    );
    // Nor do the entries of one config take the last profile between them.
    let c = cfg("[dpi]\nprofiles = [2]\n[profiles.0]\nenabled = false\n[profiles.1]\nenabled = false");
    assert_eq!(overlay(&dev, &c).unwrap_err().message(), "profiles: refusing to disable the only enabled profile");
    let c = cfg("[dpi]\nprofiles = [2]\n[profiles.0]\nenabled = false\n[profiles.1]\nenabled = false\n[profiles.2]\nenabled = true");
    assert_eq!(overlay(&dev, &c).unwrap().profiles.iter().filter(|p| !p.disabled).count(), 1);
}

#[test]
fn an_overlay_refuses_the_shared_slot() {
    let mut c = Config::default();
    let mut said = ProfileConfig::default();
    said.resolutions.insert(1, ResolutionConfig { dpi: Some(1000), enabled: None });
    c.profiles.insert(0, said);
    assert!(overlay(&device(), &c).unwrap_err().message().starts_with("profiles.0.resolutions: slot 1 of profile 0 holds the shared DPI"));
}

#[test]
fn a_config_applied_twice_changes_nothing_more() {
    let mut dev = device();
    dev.profiles[0].is_active = false;
    let c = cfg("[dpi]\nprofiles = [1]\n[profiles.0]\nenabled = false\nreport_rate = 500\ncolor = \"#FF0000\"\n[profiles.0.leds.1]\nmode = \"cycle\"\ncolor = \"00FF00\"\n[profiles.1.buttons.0]\nonboard = \"key a\"\n[profiles.0.resolutions.1]\ndpi = 2000\nenabled = false");
    let once = overlay(&dev, &c).unwrap();
    assert_ne!(once, dev);
    assert_eq!(overlay(&once, &c).unwrap(), once);
}

#[test]
fn normal_colours_stand_for_the_same() {
    assert_eq!(normalized("#0A0b0C").unwrap(), "0a0b0c");
    assert_eq!(normalized(&normalized("FF8000").unwrap()).unwrap(), "ff8000");
    assert!(normalized("+1+2+3").is_err());
    assert!(normalized("red").is_err());
}

#[test]
fn the_config_is_compared_with_the_device() {
    let dev = device();
    assert_eq!(config_diff(&dev, &cfg("")), None);
    assert_eq!(config_diff(&dev, &cfg("[profiles.0]\nreport_rate = 1000")), Some(Ok(0)));
    assert_eq!(config_diff(&dev, &cfg("[profiles.0]\nreport_rate = 500")), Some(Ok(1)));
    assert_eq!(
        config_diff(&dev, &cfg("[profiles.9]\nreport_rate = 500")),
        Some(Err("config names profile 9, but the device has 3".to_string()))
    );
}

#[test]
fn a_disabled_profile_is_only_recorded_as_disabled() {
    let text = export(&device(), &Config::default()).unwrap();
    assert!(text.ends_with("[profiles.2]\nenabled = false\n\n"), "{text}");
}

#[test]
fn only_texts_that_are_written_matter_to_an_export() {
    let mut dev = device();
    // A spelled button and one of a disabled profile are not shown by what they are called.
    dev.profiles[0].buttons[0].action = "a\nb".to_string();
    dev.profiles[2].buttons[5].action = "a\nb".to_string();
    let back = cfg(&export(&dev, &Config::default()).unwrap());
    assert_eq!(plan(&dev, &overlay(&dev, &back).unwrap()).unwrap(), vec![]);
    assert!(dev.profiles[1].buttons.iter().all(|b| !describe(b.raw_type, &b.raw_value).contains(char::is_control)));
}
