use g502_linux_control::config::{
    parse_color, ButtonConfig, Config, DeviceConfig, LedConfig, ProfileConfig, ResolutionConfig,
};

/// A config from its text, as far as these tests need it.
fn parse(text: &str) -> Result<Config, String> {
    let doc: toml::Table = text.parse().map_err(|e| format!("{e}"))?;
    let mut c = Config::default();
    let num = |v: &toml::Value| v.as_integer().unwrap() as u32;
    let list = |v: &toml::Value| v.as_array().unwrap().iter().map(num).collect::<Vec<u32>>();
    let text = |v: &toml::Value| v.as_str().unwrap().to_string();
    if let Some(d) = doc.get("device") {
        if let Some(v) = d.get("vendor") {
            c.device.vendor = num(v) as u16;
        }
        if let Some(v) = d.get("product") {
            c.device.product = num(v) as u16;
        }
    }
    if let Some(d) = doc.get("dpi") {
        if let Some(v) = d.get("values") {
            c.dpi.values = list(v);
        }
        if let Some(v) = d.get("shared_slot") {
            c.dpi.shared_slot = num(v);
        }
        if let Some(v) = d.get("profiles") {
            c.dpi.profiles = list(v);
        }
    }
    for (i, p) in doc.get("profiles").and_then(|p| p.as_table()).into_iter().flatten() {
        let mut out = ProfileConfig::default();
        out.enabled = p.get("enabled").map(|v| v.as_bool().unwrap());
        out.report_rate = p.get("report_rate").map(num);
        out.color = p.get("color").map(text);
        for (k, l) in p.get("leds").and_then(|t| t.as_table()).into_iter().flatten() {
            let led = LedConfig { mode: l.get("mode").map(text), color: l.get("color").map(text), brightness: l.get("brightness").map(num) };
            out.leds.insert(k.parse().unwrap(), led);
        }
        for (k, b) in p.get("buttons").and_then(|t| t.as_table()).into_iter().flatten() {
            out.buttons.insert(k.parse().unwrap(), ButtonConfig { onboard: text(b.get("onboard").unwrap()) });
        }
        for (k, r) in p.get("resolutions").and_then(|t| t.as_table()).into_iter().flatten() {
            let slot = ResolutionConfig { dpi: r.get("dpi").map(num), enabled: r.get("enabled").map(|v| v.as_bool().unwrap()) };
            out.resolutions.insert(k.parse().unwrap(), slot);
        }
        c.profiles.insert(i.parse().unwrap(), out);
    }
    c.validate().map_err(|e| e.message())?;
    Ok(c)
}

#[test]
fn empty_file_is_the_defaults() {
    assert_eq!(parse("").unwrap(), Config::default());
}

#[test]
fn full_example_parses() {
    let cfg = parse(
        r##"
            [device]
            vendor = 0x046d
            product = 0xc08b

            [dpi]
            values = [800, 1600]
            shared_slot = 2
            profiles = [0]

            [profiles.0]
            color = "0000ff"

            [profiles.1]
            color = "#ff0000"
            "##,
    )
    .unwrap();
    assert_eq!(cfg.device, DeviceConfig { vendor: 0x046d, product: 0xc08b });
    assert_eq!(cfg.dpi.values, vec![800, 1600]);
    assert_eq!(cfg.dpi.shared_slot, 2);
    assert_eq!(cfg.dpi.profiles, vec![0]);
    assert_eq!(cfg.profiles[&1].color.as_deref(), Some("#ff0000"));
}

#[test]
fn partial_file_keeps_other_defaults() {
    let cfg = parse("[dpi]\nvalues = [400, 800]\n").unwrap();
    assert_eq!(cfg.dpi.values, vec![400, 800]);
    assert_eq!(cfg.dpi.shared_slot, 1);
    assert_eq!(cfg.device, DeviceConfig::default());
}

#[test]
fn rejects_bad_values() {
    assert!(parse("[dpi]\nvalues = []").is_err());
    assert!(parse("[dpi]\nvalues = [1800, 1000]").is_err());
    assert!(parse("[dpi]\nvalues = [1000, 1000]").is_err());
    assert!(parse("[dpi]\nvalues = [0, 1000]").is_err());
    assert!(parse("[dpi]\nprofiles = []").is_err());
    assert!(parse("[profiles.0]\ncolor = \"blue\"").is_err());
}

#[test]
fn colors() {
    assert_eq!(parse_color("ff8000").unwrap(), (255, 128, 0));
    assert_eq!(parse_color("#0000ff").unwrap(), (0, 0, 255));
    assert!(parse_color("fff").is_err());
    assert!(parse_color("gg0000").is_err());
}

#[test]
fn the_defaults_are_the_tested_setup() {
    let c = Config::default();
    assert_eq!((c.device.vendor, c.device.product), (0x046d, 0xc08b));
    assert_eq!(c.dpi.values, vec![1000, 1800, 2400, 3200, 4000]);
    assert_eq!((c.dpi.shared_slot, c.dpi.profiles.clone()), (1, vec![0, 1]));
    assert!(c.profiles.is_empty());
    assert!(c.validate().is_ok());
}

#[test]
fn config_errors_say_what_is_wrong() {
    let err = |t: &str| parse(t).unwrap_err();
    assert_eq!(err("[dpi]\nvalues = []"), "dpi.values must not be empty");
    assert_eq!(err("[dpi]\nvalues = [1800, 1000]"), "dpi.values must be positive and strictly ascending, got [1800, 1000]");
    assert_eq!(err("[dpi]\nprofiles = []"), "dpi.profiles must list at least one profile");
    assert_eq!(err("[profiles.0]\ncolor = \"blue\""), "profiles.0.color: color must be RRGGBB, got \"blue\"");
    assert_eq!(
        err("[profiles.3]\ncolor = \"zz0000\""),
        "profiles.3.color: bad color \"zz0000\": invalid digit found in string"
    );
}

#[test]
fn the_shared_slot_cannot_be_configured() {
    assert_eq!(
        parse("[profiles.1.resolutions.1]\ndpi = 1000").unwrap_err(),
        "profiles.1.resolutions: slot 1 of profile 1 holds the shared DPI managed by g502d; change dpi.values in the config or use `g502ctl dpi`"
    );
    assert!(parse("[profiles.2.resolutions.1]\ndpi = 1000").is_ok());
    assert!(parse("[profiles.1.resolutions.2]\ndpi = 1000").is_ok());
}

#[test]
fn colour_edge_cases() {
    assert_eq!(parse_color("#ABCdef").unwrap(), (0xab, 0xcd, 0xef));
    assert!(parse_color("+f0000").is_err());
    assert!(parse_color("+1+2+3").is_err());
    assert!(parse_color("##ff0000").is_err());
    assert!(parse_color("##00000").is_err());
    assert!(parse_color("").is_err());
    assert!(parse_color("1+0000").is_err());
    assert!(parse_color("\u{e9}0000").is_err());
    assert_eq!(parse_color("\u{e9}00000").unwrap_err().to_string(), "color must be RRGGBB, got \"\u{e9}00000\"");
}

#[test]
fn no_file_means_the_defaults() {
    assert_eq!(Config::or_defaults(None), Config::default());
    let mut c = Config::default();
    c.dpi.shared_slot = 3;
    assert_eq!(Config::or_defaults(Some(c.clone())), c);
}
