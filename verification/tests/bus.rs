use g502_linux_control::bus::{
    check_api_version, check_child, check_commit, check_profile, describe_mapping, has_usb_id, is_model,
    no_device, raw_value, read_dpi, snapshot, unwrap, ButtonProperties, DeviceProperties, LedProperties,
    ProfileProperties, ResolutionProperties, Variant,
};
use g502_linux_control::config::Config;
use g502_linux_control::controller::{Controller, SlotReading};
use g502_linux_control::error::Error;
use g502_linux_control::ratbag::RawValue;
use g502_linux_control::sync::{Sync, SyncDone, SyncStep};

fn nested(v: Variant) -> Variant {
    Variant::Nested(Box::new(Variant::Nested(Box::new(v))))
}

fn pair(a: u32, b: u32) -> Variant {
    Variant::Structure(vec![Variant::U32(a), Variant::U32(b)])
}

#[test]
fn values_inside_variants_are_found() {
    assert_eq!(*unwrap(&nested(Variant::U32(7))), Variant::U32(7));
    assert_eq!(raw_value(&nested(Variant::U32(7))), Some(RawValue::Number(7)));
    assert_eq!(
        raw_value(&nested(Variant::Array(vec![pair(1, 183), pair(2, 183)]))),
        Some(RawValue::MacroEvents(vec![[1, 183], [2, 183]]))
    );
    assert_eq!(raw_value(&Variant::Array(vec![])), Some(RawValue::MacroEvents(vec![])));
    assert_eq!(raw_value(&Variant::Array(vec![pair(1, 2), Variant::U32(3)])), None);
    assert_eq!(raw_value(&Variant::Array(vec![nested(pair(1, 2))])), None);
    assert_eq!(raw_value(&Variant::Array(vec![Variant::Structure(vec![Variant::U32(1)])])), None);
    assert_eq!(raw_value(&pair(1, 2)), None);
    assert_eq!(raw_value(&Variant::Other), None);
}

#[test]
fn mappings_are_described() {
    assert_eq!(describe_mapping(4, &nested(Variant::Array(vec![pair(1, 183), pair(2, 183)]))), "macro KEY_F13");
    assert_eq!(describe_mapping(1, &nested(Variant::U32(2))), "mouse button 2");
    assert_eq!(describe_mapping(1, &Variant::Other), "unknown type 1");
}

#[test]
fn only_a_single_dpi_is_read() {
    assert_eq!(read_dpi("/r", &nested(Variant::U32(1800)), "").unwrap(), 1800);
    assert_eq!(
        read_dpi("/r/0", &nested(pair(800, 900)), "(800, 900)").unwrap_err().to_string(),
        "/r/0: DPI is not a single u32 ((800, 900))"
    );
}

#[test]
fn devices_go_by_their_usb_id() {
    assert!(is_model("usb:046d:c08b:0", 0x046d, 0xc08b));
    assert!(is_model("USB:046D:C08B:0", 0x046d, 0xc08b));
    assert!(!is_model("usb:046d:c08b", 0x046d, 0xc08b));
    assert!(!is_model("usb:046d:c08b0:0", 0x046d, 0xc08b));
    assert!(!is_model("bluetooth:046d:c08b:0", 0x046d, 0xc08b));
    assert!(is_model("usb:0001:000f:1", 1, 15));
    assert!(!has_usb_id("USB:0001:000f:1", 1, 15));
    assert_eq!(no_device(1, 0xabc).to_string(), "no ratbagd device with USB id 0001:0abc");
}

#[test]
fn answers_of_ratbagd_are_checked() {
    assert!(check_api_version(2).is_ok());
    assert_eq!(check_api_version(-1).unwrap_err().to_string(), "unsupported ratbagd API version -1 (expected 2)");
    assert_eq!(check_api_version(i32::MIN).unwrap_err().to_string(), "unsupported ratbagd API version -2147483648 (expected 2)");
    assert!(check_profile(5, 4).is_ok());
    assert_eq!(check_profile(5, 5).unwrap_err().to_string(), "device has no profile 5");
    assert!(check_child(1, 0, "LED", 0).is_ok());
    assert_eq!(check_child(1, 0, "LED", 1).unwrap_err().to_string(), "profile 0 has no LED 1");
    assert!(check_commit(0).is_ok());
    assert_eq!(check_commit(3).unwrap_err().to_string(), "Device.Commit failed with ratbagd status 3");
}

#[test]
fn a_snapshot_is_made_of_the_properties() {
    let device = DeviceProperties {
        name: "Mouse".into(),
        model: "usb:046d:c08b:0".into(),
        profiles: vec![ProfileProperties {
            index: 0,
            disabled: false,
            is_active: true,
            report_rate: 500,
            report_rates: vec![500, 1000],
            capabilities: vec![102],
            buttons: vec![ButtonProperties { index: 0, action_types: vec![0, 1], kind: 1, value: nested(Variant::U32(3)) }],
            resolutions: vec![
                ResolutionProperties {
                    index: 0,
                    resolution: Some(nested(Variant::U32(1800))),
                    is_active: true,
                    is_default: false,
                    is_disabled: false,
                    capabilities: vec![2],
                    resolutions: vec![1800],
                },
                ResolutionProperties {
                    index: 1,
                    resolution: Some(pair(1, 2)),
                    is_active: false,
                    is_default: false,
                    is_disabled: true,
                    capabilities: vec![],
                    resolutions: vec![],
                },
                ResolutionProperties {
                    index: 2,
                    resolution: None,
                    is_active: false,
                    is_default: true,
                    is_disabled: false,
                    capabilities: vec![],
                    resolutions: vec![],
                },
            ],
            leds: vec![LedProperties { index: 0, mode: 1, modes: vec![0, 1], color: (1, 255, 16), brightness: 9, color_depth: 1 }],
        }],
    };
    let s = snapshot(&device);
    assert_eq!((s.name.as_str(), s.model.as_str()), ("Mouse", "usb:046d:c08b:0"));
    let p = &s.profiles[0];
    assert_eq!((p.index, p.disabled, p.is_active, p.report_rate), (0, false, true, 500));
    assert_eq!((p.report_rates.clone(), p.capabilities.clone()), (vec![500, 1000], vec![102]));
    let b = &p.buttons[0];
    assert_eq!((b.index, b.raw_type, b.raw_value.clone()), (0, 1, Some(RawValue::Number(3))));
    assert_eq!((b.action.as_str(), b.action_types.clone()), ("mouse button 3", vec![0, 1]));
    let dpis: Vec<Option<u32>> = p.resolutions.iter().map(|r| r.dpi).collect();
    assert_eq!(dpis, vec![Some(1800), None, None]);
    assert_eq!(p.resolutions[0].supported_dpi, vec![1800]);
    assert!(p.resolutions[1].is_disabled && p.resolutions[2].is_default);
    let l = &p.leds[0];
    assert_eq!((l.color.as_str(), l.mode, l.brightness, l.color_depth), ("01ff10", 1, 9, 1));
}

#[test]
fn large_colour_components_keep_their_digits() {
    let led = LedProperties { index: 0, mode: 0, modes: vec![], color: (256, 0, 4096), brightness: 0, color_depth: 0 };
    let device = DeviceProperties {
        name: String::new(),
        model: String::new(),
        profiles: vec![ProfileProperties {
            index: 0,
            disabled: false,
            is_active: false,
            report_rate: 0,
            report_rates: vec![],
            capabilities: vec![],
            buttons: vec![],
            resolutions: vec![],
            leds: vec![led],
        }],
    };
    assert_eq!(snapshot(&device).profiles[0].leds[0].color, "100001000");
}

fn reading(accepts: Vec<u32>) -> SlotReading {
    SlotReading { disabled: Ok(false), slot: Ok(()), dpi: Ok(1000), accepts: Ok(accepts) }
}

fn gone() -> Error {
    Error::new("gone".to_string())
}

fn connected(count: usize, readings: Vec<SlotReading>) -> Result<Controller, String> {
    let mut cfg = Config::default();
    cfg.dpi.values = vec![1000, 1800];
    cfg.dpi.profiles = (0..readings.len() as u32).collect();
    Controller::connect("Mouse".to_string(), count, &cfg, readings).map_err(|e| e.message())
}

#[test]
fn a_controller_accepts_what_every_slot_does() {
    let one = connected(2, vec![reading(vec![800, 1000, 1800, 2000])]).ok().unwrap();
    assert_eq!(one.device_name(), "Mouse");
    assert!(one.is_supported(2000) && one.is_supported(800) && !one.is_supported(900));
    let two = connected(2, vec![reading(vec![800, 1000, 1800, 2000]), reading(vec![1000, 1800, 2000])]).ok().unwrap();
    assert!(two.is_supported(2000) && !two.is_supported(800));
    assert!(two.is_supported(1000) && two.is_supported(1800));
    assert!(!connected(2, vec![]).ok().unwrap().is_supported(1000));
}

#[test]
fn a_controller_names_the_first_reason_against_it() {
    let fine = || reading(vec![1000, 1800]);
    let why = |count: usize, bad: SlotReading| connected(count, vec![fine(), bad]).err().unwrap();
    assert_eq!(why(1, fine()), "Mouse: no profile 1");
    assert_eq!(why(2, reading(vec![1000, 2000])), "1800 DPI is not supported by profile 1 slot 1");
    assert_eq!(why(2, SlotReading { disabled: Ok(true), ..fine() }), "profile 1 is disabled on the device");
    assert_eq!(why(2, SlotReading { disabled: Err(gone()), ..fine() }), "gone");
    assert_eq!(why(2, SlotReading { slot: Err(gone()), ..fine() }), "gone");
    assert_eq!(why(2, SlotReading { dpi: Err(gone()), ..fine() }), "profile 1 slot 1: gone");
    assert_eq!(why(2, SlotReading { accepts: Err(gone()), ..fine() }), "gone");
    let worse = SlotReading { disabled: Ok(true), slot: Err(gone()), dpi: Err(gone()), accepts: Err(gone()) };
    assert_eq!(why(2, worse), "profile 1 is disabled on the device");
}

/// Runs a write of `dpi` over slots that hold these values.
fn synced(slots: &[u32], dpi: u32) -> (Vec<u32>, Vec<SyncStep>) {
    let mut held = slots.to_vec();
    let mut asked = Vec::new();
    let (mut sync, mut step) = Sync::begin(slots.len(), dpi);
    while step != SyncStep::Return {
        asked.push(step);
        let done = match step {
            SyncStep::Read(i) => SyncDone::Read(held[i]),
            SyncStep::Stage(i) => {
                held[i] = dpi;
                SyncDone::Staged
            }
            _ => SyncDone::Committed,
        };
        step = sync.next(done);
    }
    (held, asked)
}

#[test]
fn a_sync_writes_the_slots_that_differ_in_one_commit() {
    let (held, asked) = synced(&[1000, 1800, 1000], 1800);
    assert_eq!(held, vec![1800, 1800, 1800]);
    assert_eq!(
        asked,
        vec![
            SyncStep::Read(0),
            SyncStep::Stage(0),
            SyncStep::Read(1),
            SyncStep::Read(2),
            SyncStep::Stage(2),
            SyncStep::Commit
        ]
    );
    assert_eq!(synced(&[1800], 1800).1, vec![SyncStep::Read(0), SyncStep::Commit]);
    assert_eq!(synced(&[], 1800).1, vec![SyncStep::Commit]);
}

#[test]
fn a_failed_sync_commits_nothing() {
    let (mut sync, step) = Sync::begin(2, 1800);
    assert_eq!(step, SyncStep::Read(0));
    assert_eq!(sync.next(SyncDone::Read(1000)), SyncStep::Stage(0));
    assert_eq!(sync.next(SyncDone::Failed), SyncStep::Return);
}
