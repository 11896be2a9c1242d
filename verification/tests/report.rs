use g502_linux_control::config::{Config, LedConfig, ProfileConfig};
use g502_linux_control::dpi::Step;
use g502_linux_control::error::Error;
use g502_linux_control::ratbag::{ButtonInfo, LedInfo, ProfileInfo, RawValue, ResolutionInfo, Snapshot};
use g502_linux_control::report::{
    check, config_finding, config_line, device_findings, has_failure, parse_dpi, report_lines, set_text,
    stage_label, status_lines, step_text, unsupported_dpi, Finding, Level,
};

fn slot(index: u32, dpi: Option<u32>, used: bool) -> ResolutionInfo {
    ResolutionInfo { index, dpi, is_active: used, is_default: used, is_disabled: false, capabilities: vec![2], supported_dpi: vec![100, 200, 25600] }
}

fn profile(index: u32, disabled: bool, dpi: Option<u32>) -> ProfileInfo {
    ProfileInfo {
        index,
        disabled,
        is_active: index == 0,
        report_rate: 1000,
        report_rates: vec![500, 1000],
        capabilities: vec![102],
        buttons: vec![
            ButtonInfo { index: 3, action_types: vec![], action: "macro KEY_F13".into(), raw_type: 4, raw_value: Some(RawValue::MacroEvents(vec![[1, 183], [2, 183]])) },
            ButtonInfo { index: 10, action_types: vec![], action: "none".into(), raw_type: 0, raw_value: None },
        ],
        resolutions: vec![slot(0, Some(800), false), slot(1, dpi, true)],
        leds: vec![LedInfo { index: 0, mode: 1, modes: vec![0, 1], color: "0000ff".into(), brightness: 255, color_depth: 1 }],
    }
}

fn mouse() -> Snapshot {
    Snapshot {
        name: "Logitech G502 HERO".into(),
        model: "usb:046d:c08b:0".into(),
        profiles: vec![profile(0, false, Some(1800)), profile(1, false, Some(1800)), profile(2, true, None)],
    }
}

fn texts(f: &[Finding]) -> Vec<String> {
    f.iter().map(|f| f.line()).collect()
}

#[test]
fn stages_are_labelled() {
    assert_eq!(stage_label(&[1000, 1800, 2400], 1800), "stage 2 of 3");
    assert_eq!(stage_label(&[1000, 1800, 2400], 2000), "off-stage");
    assert_eq!(stage_label(&[], 1), "off-stage");
}

#[test]
fn the_status_lists_profiles_and_the_shared_dpi() {
    let lines = status_lines(
        &mouse(),
        &Config::default(),
        &[Some(1800), None, Some(1000)],
        1800,
        &[Some(1800), Some(1000)],
    );
    assert_eq!(
        lines,
        vec![
            "Logitech G502 HERO (usb:046d:c08b:0)",
            "profile 0: enabled, active, 1000 Hz, slot 1 = 1800 DPI",
            "profile 1: enabled, 1000 Hz, slot 1 = ?",
            "profile 2: disabled, 1000 Hz",
            "shared DPI: 1800 (stage 2 of 5; stages [1000, 1800, 2400, 3200, 4000])",
            "warning: profiles [1] do not match; next change will resync them",
        ]
    );
    let lines = status_lines(&mouse(), &Config::default(), &[None, None, None], 900, &[Some(900), Some(900)]);
    assert_eq!(lines.last().unwrap(), "shared DPI: 900 (off-stage; stages [1000, 1800, 2400, 3200, 4000])");
}

#[test]
fn dpi_commands_say_what_they_did() {
    assert_eq!(step_text(Step::Up, Some((1000, 1800))), "1000 -> 1800 DPI");
    assert_eq!(step_text(Step::Up, None), "already at the highest stage");
    assert_eq!(step_text(Step::Down, None), "already at the lowest stage");
    assert_eq!(parse_dpi("2400").unwrap(), 2400);
    assert_eq!(parse_dpi("+5").unwrap(), 5);
    assert_eq!(parse_dpi("2400 ").unwrap_err().to_string(), "not a DPI value: \"2400 \"");
    assert_eq!(parse_dpi("4294967296").unwrap_err().to_string(), "not a DPI value: \"4294967296\"");
    assert!(parse_dpi("").is_err());
    assert!(parse_dpi("-1").is_err());
    assert_eq!(unsupported_dpi(1234).to_string(), "1234 DPI is not supported by the device (see `g502ctl check`)");
    assert_eq!(set_text(1000, 1000), "already 1000 DPI");
    assert_eq!(set_text(1000, 2000), "1000 -> 2000 DPI");
}

#[test]
fn the_report_shows_everything_of_enabled_profiles() {
    let mut s = mouse();
    s.profiles.remove(1);
    s.profiles[0].resolutions[0].supported_dpi.clear();
    s.profiles[0].resolutions[0].is_disabled = true;
    assert_eq!(
        report_lines(&s),
        vec![
            "profile 0 [enabled, active] report rate 1000 Hz (supports [500, 1000]), capabilities [102]",
            "  resolution 0: 800 DPI [disabled] (accepts ?, 0 values)",
            "  resolution 1: 1800 DPI [active,default] (accepts 100..25600, 3 values)",
            "  button  3: macro KEY_F13",
            "  button 10: none",
            "  led 0: mode 1 (modes [0, 1]), color 0000ff, brightness 255, color depth 1",
            "profile 2 [disabled] report rate 1000 Hz (supports [500, 1000]), capabilities [102]",
        ]
    );
}

#[test]
fn the_opening_of_a_check() {
    assert_eq!(config_finding(Some("/c.toml")).line(), "[ ok ] config /c.toml");
    assert_eq!(config_finding(None).line(), "[ ok ] no config file, using built-in defaults");
    let cfg = Config::default();
    assert_eq!(texts(&device_findings(&cfg, "Logitech G502 HERO Gaming Mouse", "m")), vec!["[ ok ] ratbagd: Logitech G502 HERO Gaming Mouse (m)"]);
    let untested = "[warn] only the Logitech G502 HERO (046d:c08b) has been tested; this device may behave differently";
    assert_eq!(texts(&device_findings(&cfg, "G502 X", "m")), vec!["[ ok ] ratbagd: G502 X (m)", untested]);
    let mut other = Config::default();
    other.device.product = 1;
    assert_eq!(texts(&device_findings(&other, "G502 HERO", "m"))[1], untested);
}

#[test]
fn a_good_device_passes_the_check() {
    let found = check(&mouse(), &Config::default(), &None, Some("/dev/input/event5"));
    assert_eq!(
        texts(&found),
        vec![
            "[ ok ] DPI control validated: profiles [0, 1], slot 1, stages [1000, 1800, 2400, 3200, 4000] all supported",
            "[ ok ] macro F13 (DPI down) on p0b3, p1b3, p2b3",
            "[warn] no button is mapped to macro F14 (DPI up); the daemon will never see it",
            "[ ok ] evdev endpoint /dev/input/event5 readable (has KEY_F13/KEY_F14)",
        ]
    );
    assert!(!has_failure(&found));
}

#[test]
fn a_check_reports_what_is_wrong() {
    let mut s = mouse();
    s.profiles[1].resolutions[1].dpi = None;
    s.profiles[1].resolutions[1].is_default = false;
    let mut cfg = Config::default();
    cfg.dpi.profiles = vec![0, 0, 1, 9];
    cfg.profiles.insert(0, ProfileConfig { color: Some("#FF0000".into()), ..ProfileConfig::default() });
    cfg.profiles.insert(1, ProfileConfig { color: Some("0000FF".into()), ..ProfileConfig::default() });
    cfg.profiles.insert(9, ProfileConfig { color: Some("00ff00".into()), ..ProfileConfig::default() });
    let problem = Some(Error::new("no profile 9".into()).context("Mouse".into()));
    let found = check(&s, &cfg, &problem, None);
    assert_eq!(
        texts(&found),
        vec![
            "[FAIL] DPI control not usable: Mouse: no profile 9",
            "[warn] profile 1 slot 1 is not active+default; the mouse may not use the shared DPI",
            "[warn] synced profiles currently disagree on DPI ([Some(1800), None]); the next change resyncs them",
            "[ ok ] macro F13 (DPI down) on p0b3, p1b3, p2b3",
            "[warn] no button is mapped to macro F14 (DPI up); the daemon will never see it",
            "[warn] no readable evdev endpoint with KEY_F13/KEY_F14 (permissions? profile without F13/F14 macros?)",
            "[warn] Config cannot be applied to this device: config names profile 9, but the device has 3",
        ]
    );
    assert!(has_failure(&found));
    assert_eq!(found[0].level, Level::Failure);
}

#[test]
fn the_config_line_counts_differences() {
    assert_eq!(config_line(&Ok(0)), "Config: the device matches the [profiles.*] settings in your config.");
    assert_eq!(config_line(&Ok(3)), "Config: the device differs from your config in 3 place(s). `g502ctl apply --dry-run` lists them.");
    assert_eq!(config_line(&Err("no".into())), "Config cannot be applied to this device: no");
}

#[test]
fn a_check_says_whether_the_config_matches() {
    let s = mouse();
    let last = |cfg: &Config| check(&s, cfg, &None, None).pop().unwrap().line();
    let mut cfg = Config::default();
    let mut said = ProfileConfig { color: Some("ff0000".into()), ..ProfileConfig::default() };
    cfg.profiles.insert(0, said.clone());
    assert!(last(&cfg).starts_with("[warn] Config: the device differs from your config in "));
    // What is said of an LED beats what is said of the profile.
    for l in &s.profiles[0].leds {
        said.leds.insert(l.index, LedConfig { color: Some(l.color.clone()), ..LedConfig::default() });
    }
    cfg.profiles.insert(0, said);
    assert_eq!(last(&cfg), "[ ok ] Config: the device matches the [profiles.*] settings in your config.");
    assert!(check(&s, &cfg, &None, None).iter().all(|f| !f.text.contains("LED")));
    cfg.profiles.insert(1, ProfileConfig { color: Some("blue".into()), ..ProfileConfig::default() });
    assert!(last(&cfg).starts_with("[warn] Config cannot be applied to this device: color must be RRGGBB"));
}
