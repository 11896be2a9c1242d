//! What ratbagd's D-Bus API (org.freedesktop.ratbag1, API v2) sends, and what it means.
//!
//! Property writes only stage changes; `Device.Commit()` writes everything staged to the
//! hardware in one go.

use crate::action::{describe, description};
use crate::apply::{color_text, normal_color};
use crate::error::{failure, is_outcome, Error, Failure};
use crate::overlay_law::color_text_reads_back;
use crate::ratbag::{
    copy_numbers, event_pairs, raw_model, ButtonInfo, ButtonModel, LedInfo, LedModel, ProfileInfo,
    ProfileModel, RawModel, RawValue, ResolutionInfo, ResolutionModel, Snapshot, SnapshotModel,
};
use crate::readback::has_plain_colors;
use crate::text::{
    an_id_has_four_digits, begins, begins_with, dec, hex_padded, is_printed, lower, push_dec, push_hex_padded, push_signed, signed_dec, to_lower,
    views,
};
use vstd::prelude::*;

verus! {

// -------------------------------------------------------------------------- values
/// A D-Bus value, as far as ratbagd's properties need it. Its `v`-typed properties
/// arrive as variants inside variants.
#[derive(Debug, PartialEq)]
pub enum Variant {
    U32(u32),
    Nested(Box<Variant>),
    Array(Vec<Variant>),
    Structure(Vec<Variant>),
    /// Anything else.
    Other,
}

/// The value inside all variants.
pub open spec fn unwrapped(v: Variant) -> Variant
    decreases v,
{
    match v {
        Variant::Nested(inner) => unwrapped(*inner),
        _ => v,
    }
}

/// `(uu)`: an event type and a key.
pub open spec fn event_of(v: Variant) -> Option<(u32, u32)> {
    match v {
        Variant::Structure(fields) => if fields@.len() == 2 {
            match (fields@[0], fields@[1]) {
                (Variant::U32(a), Variant::U32(b)) => Some((a, b)),
                _ => None,
            }
        } else {
            None
        },
        _ => None,
    }
}

/// The value of a mapping: a number, or the events of a macro, `a(uu)`.
pub open spec fn raw_of(v: Variant) -> Option<RawModel> {
    match unwrapped(v) {
        Variant::U32(n) => Some(RawModel::Number(n)),
        Variant::Array(items) => if forall|i: int|
            0 <= i < items@.len() ==> event_of(#[trigger] items@[i]) is Some {
            Some(RawModel::MacroEvents(Seq::new(items@.len(), |i: int| event_of(items@[i])->0)))
        } else {
            None
        },
        _ => None,
    }
}

/// ratbagd's `v`-typed properties reach us as variants inside variants.
pub fn unwrap(v: &Variant) -> (r: &Variant)
    ensures
        *r == unwrapped(*v),
    decreases v,
{
    match v {
        Variant::Nested(inner) => unwrap(inner),
        _ => v,
    }
}

fn event(v: &Variant) -> (r: Option<[u32; 2]>)
    ensures
        match (r, event_of(*v)) {
            (Some(e), Some(p)) => (e@[0], e@[1]) == p,
            (None, None) => true,
            _ => false,
        },
{
    match v {
        Variant::Structure(fields) => {
            if fields.len() != 2 {
                return None;
            }
            match (&fields[0], &fields[1]) {
                (Variant::U32(a), Variant::U32(b)) => Some([*a, *b]),
                _ => None,
            }
        },
        _ => None,
    }
}

fn events(items: &Vec<Variant>) -> (r: Option<Vec<[u32; 2]>>)
    ensures
        match r {
            Some(ev) => (forall|i: int|
                0 <= i < items@.len() ==> event_of(#[trigger] items@[i]) is Some) && event_pairs(ev@)
                == Seq::new(items@.len(), |i: int| event_of(items@[i])->0),
            None => exists|i: int| 0 <= i < items@.len() && event_of(#[trigger] items@[i]) is None,
        },
{
    let mut out: Vec<[u32; 2]> = Vec::new();
    let mut i: usize = 0;
    while i < items.len()
        invariant
            i <= items.len(),
            out.len() == i,
            forall|j: int|
                0 <= j < i ==> event_of(#[trigger] items@[j]) == Some((out@[j]@[0], out@[j]@[1])),
        decreases items.len() - i,
    {
        match event(&items[i]) {
            None => {
                assert(event_of(items@[i as int]) is None);
                return None;
            },
            Some(e) => out.push(e),
        }
        i += 1;
    }
    assert(event_pairs(out@) =~= Seq::new(items@.len(), |i: int| event_of(items@[i])->0));
    Some(out)
}

pub fn raw_value(v: &Variant) -> (r: Option<RawValue>)
    ensures
        raw_model(r) == raw_of(*v),
{
    match unwrap(v) {
        Variant::U32(n) => Some(RawValue::Number(*n)),
        Variant::Array(items) => match events(items) {
            None => None,
            Some(ev) => Some(RawValue::MacroEvents(ev)),
        },
        _ => None,
    }
}

/// libratbag's button action types and special-action ids.
pub fn describe_mapping(kind: u32, v: &Variant) -> (r: String)
    ensures
        r@ == description(kind, raw_of(*v)),
        is_printed(r@),
{
    describe(kind, &raw_value(v))
}

/// The DPI of a resolution, where it is a single number.
pub open spec fn dpi_of(v: Variant) -> Option<u32> {
    match unwrapped(v) {
        Variant::U32(dpi) => Some(dpi),
        _ => None,
    }
}

/// DPI of one resolution slot. Only the single-value form (`u`) is handled;
/// devices with separate X/Y DPI (`(uu)`) are refused rather than guessed at.
/// `shown` is how the value prints.
pub fn read_dpi(resolution: &str, v: &Variant, shown: &str) -> (r: Result<u32, Error>)
    ensures
        match (r, dpi_of(*v)) {
            (Ok(d), Some(dpi)) => d == dpi,
            (Err(e), None) => e@ == failure(
                resolution@ + ": DPI is not a single u32 ("@ + shown@ + ")"@,
            ),
            _ => false,
        },
{
    match unwrap(v) {
        Variant::U32(dpi) => Ok(*dpi),
        _ => {
            let mut m = resolution.to_owned();
            m.append(": DPI is not a single u32 (");
            m.append(shown);
            m.append(")");
            Err(Error::new(m))
        },
    }
}

// ------------------------------------------------------------------------- finding
/// `vvvv:pppp`.
pub open spec fn usb_id(vendor: u16, product: u16) -> Seq<char> {
    hex_padded(vendor as nat, 4) + ":"@ + hex_padded(product as nat, 4)
}

/// What the model of a device with this USB id begins with.
pub open spec fn model_prefix(vendor: u16, product: u16) -> Seq<char> {
    "usb:"@ + usb_id(vendor, product) + ":"@
}

fn usb_id_text(vendor: u16, product: u16) -> (r: String)
    ensures
        r@ == usb_id(vendor, product),
{
    let mut s = String::new();
    push_hex_padded(&mut s, vendor as u32, 4);
    s.append(":");
    push_hex_padded(&mut s, product as u32, 4);
    assert(s@ =~= usb_id(vendor, product));
    s
}

/// Whether a model, in lower case, has this USB id.
pub fn has_usb_id(lowered: &str, vendor: u16, product: u16) -> (r: bool)
    ensures
        r == begins(lowered@, model_prefix(vendor, product)),
{
    let mut want = "usb:".to_owned();
    let id = usb_id_text(vendor, product);
    want.append(id.as_str());
    want.append(":");
    begins_with(lowered, want.as_str())
}

/// Whether `Device.Model` (e.g. "usb:046d:c08b:0") has this USB vendor:product, in
/// digits of either case.
/// (ratbagd's nicknames like "warbling-mara" are not on D-Bus and differ
/// per system, so we match on the model.)
pub fn is_model(model: &str, vendor: u16, product: u16) -> (r: bool)
    ensures
        r == begins(lower(model@), model_prefix(vendor, product)),
{
    let lowered = to_lower(model);
    has_usb_id(lowered.as_str(), vendor, product)
}

/// No device of ratbagd has the USB id.
pub fn no_device(vendor: u16, product: u16) -> (e: Error)
    ensures
        e@ == failure("no ratbagd device with USB id "@ + usb_id(vendor, product)),
{
    let mut m = "no ratbagd device with USB id ".to_owned();
    let id = usb_id_text(vendor, product);
    m.append(id.as_str());
    Error::new(m)
}

/// Only version 2 of ratbagd's API is spoken.
pub fn check_api_version(version: i32) -> (r: Result<(), Error>)
    ensures
        is_outcome(
            r,
            if version == 2 {
                Ok(())
            } else {
                Err(
                    failure(
                        "unsupported ratbagd API version "@ + signed_dec(version as int)
                            + " (expected 2)"@,
                    ),
                )
            },
        ),
{
    if version == 2 {
        Ok(())
    } else {
        let mut m = "unsupported ratbagd API version ".to_owned();
        push_signed(&mut m, version);
        m.append(" (expected 2)");
        Err(Error::new(m))
    }
}

/// The device has profile `profile` among its `count`.
pub fn check_profile(count: usize, profile: u32) -> (r: Result<(), Error>)
    ensures
        is_outcome(
            r,
            if profile < count {
                Ok(())
            } else {
                Err(failure("device has no profile "@ + dec(profile as nat)))
            },
        ),
{
    if (profile as usize) < count {
        Ok(())
    } else {
        let mut m = "device has no profile ".to_owned();
        push_dec(&mut m, profile as u64);
        Err(Error::new(m))
    }
}

/// Profile `profile` has number `index` among its `count` slots, buttons or LEDs.
pub fn check_child(count: usize, profile: u32, what: &str, index: u32) -> (r: Result<(), Error>)
    ensures
        is_outcome(
            r,
            if index < count {
                Ok(())
            } else {
                Err(
                    failure(
                        "profile "@ + dec(profile as nat) + " has no "@ + what@ + " "@ + dec(
                            index as nat,
                        ),
                    ),
                )
            },
        ),
{
    if (index as usize) < count {
        Ok(())
    } else {
        let mut m = "profile ".to_owned();
        push_dec(&mut m, profile as u64);
        m.append(" has no ");
        m.append(what);
        m.append(" ");
        push_dec(&mut m, index as u64);
        Err(Error::new(m))
    }
}

/// A commit succeeded: ratbagd's status is zero.
pub fn check_commit(status: u32) -> (r: Result<(), Error>)
    ensures
        is_outcome(
            r,
            if status == 0 {
                Ok(())
            } else {
                Err(failure("Device.Commit failed with ratbagd status "@ + dec(status as nat)))
            },
        ),
{
    if status == 0 {
        Ok(())
    } else {
        let mut m = "Device.Commit failed with ratbagd status ".to_owned();
        push_dec(&mut m, status as u64);
        Err(Error::new(m))
    }
}

// ----------------------------------------------------------------------- properties
/// The properties of a device and its parts, as ratbagd sent them.
#[derive(Debug, PartialEq)]
pub struct DeviceProperties {
    pub name: String,
    pub model: String,
    pub profiles: Vec<ProfileProperties>,
}

#[derive(Debug, PartialEq)]
pub struct ProfileProperties {
    pub index: u32,
    pub disabled: bool,
    pub is_active: bool,
    pub report_rate: u32,
    pub report_rates: Vec<u32>,
    pub capabilities: Vec<u32>,
    pub buttons: Vec<ButtonProperties>,
    pub resolutions: Vec<ResolutionProperties>,
    pub leds: Vec<LedProperties>,
}

#[derive(Debug, PartialEq)]
pub struct ButtonProperties {
    pub index: u32,
    pub action_types: Vec<u32>,
    /// `Mapping`, `(uv)`.
    pub kind: u32,
    pub value: Variant,
}

#[derive(Debug, PartialEq)]
pub struct ResolutionProperties {
    pub index: u32,
    /// `Resolution`, if it could be read.
    pub resolution: Option<Variant>,
    pub is_active: bool,
    pub is_default: bool,
    pub is_disabled: bool,
    pub capabilities: Vec<u32>,
    pub resolutions: Vec<u32>,
}

#[derive(Debug, PartialEq)]
pub struct LedProperties {
    pub index: u32,
    pub mode: u32,
    pub modes: Vec<u32>,
    /// Red, green, blue.
    pub color: (u32, u32, u32),
    pub brightness: u32,
    pub color_depth: u32,
}

/// A colour as the device reports it: each component with two digits at least.
pub open spec fn reported_color(c: (u32, u32, u32)) -> Seq<char> {
    hex_padded(c.0 as nat, 2) + hex_padded(c.1 as nat, 2) + hex_padded(c.2 as nat, 2)
}

pub open spec fn button_model(b: ButtonProperties) -> ButtonModel {
    ButtonModel {
        index: b.index,
        action_types: b.action_types@,
        action: description(b.kind, raw_of(b.value)),
        raw_type: b.kind,
        raw_value: raw_of(b.value),
    }
}

pub open spec fn resolution_model(r: ResolutionProperties) -> ResolutionModel {
    ResolutionModel {
        index: r.index,
        dpi: match r.resolution {
            Some(v) => dpi_of(v),
            None => None,
        },
        is_active: r.is_active,
        is_default: r.is_default,
        is_disabled: r.is_disabled,
        capabilities: r.capabilities@,
        supported_dpi: r.resolutions@,
    }
}

pub open spec fn led_model(l: LedProperties) -> LedModel {
    LedModel {
        index: l.index,
        mode: l.mode,
        modes: l.modes@,
        color: reported_color(l.color),
        brightness: l.brightness,
        color_depth: l.color_depth,
    }
}

pub open spec fn profile_model(p: ProfileProperties) -> ProfileModel {
    ProfileModel {
        index: p.index,
        disabled: p.disabled,
        is_active: p.is_active,
        report_rate: p.report_rate,
        report_rates: p.report_rates@,
        capabilities: p.capabilities@,
        buttons: Seq::new(p.buttons@.len(), |i: int| button_model(p.buttons@[i])),
        resolutions: Seq::new(p.resolutions@.len(), |i: int| resolution_model(p.resolutions@[i])),
        leds: Seq::new(p.leds@.len(), |i: int| led_model(p.leds@[i])),
    }
}

/// What the buttons of a profile are called holds no control character.
pub open spec fn has_printed_actions(p: ProfileModel) -> bool {
    forall|j: int| 0 <= j < p.buttons.len() ==> is_printed((#[trigger] p.buttons[j]).action)
}

/// The snapshot that the properties make.
pub open spec fn snapshot_model(d: DeviceProperties) -> SnapshotModel {
    SnapshotModel {
        name: d.name@,
        model: d.model@,
        profiles: Seq::new(d.profiles@.len(), |i: int| profile_model(d.profiles@[i])),
    }
}

fn button_info(b: &ButtonProperties) -> (r: ButtonInfo)
    ensures
        r@ == button_model(*b),
        is_printed(r@.action),
{
    ButtonInfo {
        index: b.index,
        action_types: copy_numbers(&b.action_types),
        action: describe_mapping(b.kind, &b.value),
        raw_type: b.kind,
        raw_value: raw_value(&b.value),
    }
}

fn resolution_info(r: &ResolutionProperties) -> (s: ResolutionInfo)
    ensures
        s@ == resolution_model(*r),
{
    let dpi = match &r.resolution {
        None => None,
        Some(v) => match unwrap(v) {
            Variant::U32(dpi) => Some(*dpi),
            _ => None,
        },
    };
    ResolutionInfo {
        index: r.index,
        dpi,
        is_active: r.is_active,
        is_default: r.is_default,
        is_disabled: r.is_disabled,
        capabilities: copy_numbers(&r.capabilities),
        supported_dpi: copy_numbers(&r.resolutions),
    }
}

fn led_info(l: &LedProperties) -> (r: LedInfo)
    ensures
        r@ == led_model(*l),
{
    let mut color = String::new();
    push_hex_padded(&mut color, l.color.0, 2);
    push_hex_padded(&mut color, l.color.1, 2);
    push_hex_padded(&mut color, l.color.2, 2);
    assert(color@ =~= reported_color(l.color));
    LedInfo {
        index: l.index,
        mode: l.mode,
        modes: copy_numbers(&l.modes),
        color,
        brightness: l.brightness,
        color_depth: l.color_depth,
    }
}

fn profile_info(p: &ProfileProperties) -> (r: ProfileInfo)
    ensures
        r@ == profile_model(*p),
        has_printed_actions(r@),
{
    let mut buttons: Vec<ButtonInfo> = Vec::new();
    let mut i: usize = 0;
    while i < p.buttons.len()
        invariant
            i <= p.buttons.len(),
            buttons.len() == i,
            forall|j: int|
                0 <= j < i ==> (#[trigger] buttons@[j])@ == button_model(p.buttons@[j])
                    && is_printed(buttons@[j]@.action),
        decreases p.buttons.len() - i,
    {
        buttons.push(button_info(&p.buttons[i]));
        i += 1;
    }
    let mut resolutions: Vec<ResolutionInfo> = Vec::new();
    i = 0;
    while i < p.resolutions.len()
        invariant
            i <= p.resolutions.len(),
            resolutions.len() == i,
            forall|j: int|
                0 <= j < i ==> (#[trigger] resolutions@[j])@ == resolution_model(p.resolutions@[j]),
        decreases p.resolutions.len() - i,
    {
        resolutions.push(resolution_info(&p.resolutions[i]));
        i += 1;
    }
    let mut leds: Vec<LedInfo> = Vec::new();
    i = 0;
    while i < p.leds.len()
        invariant
            i <= p.leds.len(),
            leds.len() == i,
            forall|j: int| 0 <= j < i ==> (#[trigger] leds@[j])@ == led_model(p.leds@[j]),
        decreases p.leds.len() - i,
    {
        leds.push(led_info(&p.leds[i]));
        i += 1;
    }
    assert(views(buttons@) =~= profile_model(*p).buttons);
    assert forall|j: int| 0 <= j < buttons@.len() implies is_printed(
        (#[trigger] profile_model(*p).buttons[j]).action,
    ) by {
        assert(buttons@[j]@ == button_model(p.buttons@[j]));
    }
    assert(views(resolutions@) =~= profile_model(*p).resolutions);
    assert(views(leds@) =~= profile_model(*p).leds);
    ProfileInfo {
        index: p.index,
        disabled: p.disabled,
        is_active: p.is_active,
        report_rate: p.report_rate,
        report_rates: copy_numbers(&p.report_rates),
        capabilities: copy_numbers(&p.capabilities),
        buttons,
        resolutions,
        leds,
    }
}

/// The full state of a device from its properties.
pub fn snapshot(d: &DeviceProperties) -> (r: Snapshot)
    ensures
        r@ == snapshot_model(*d),
        forall|i: int| 0 <= i < r@.profiles.len() ==> has_printed_actions(#[trigger] r@.profiles[i]),
        r.name@ == d.name@,
        r.model@ == d.model@,
        r.profiles@.len() == d.profiles@.len(),
        forall|i: int|
            0 <= i < r.profiles@.len() ==> (#[trigger] r.profiles@[i]).index == d.profiles@[i].index
                && r.profiles@[i].disabled == d.profiles@[i].disabled && r.profiles@[i].is_active
                == d.profiles@[i].is_active && r.profiles@[i].report_rate == d.profiles@[i].report_rate
                && r.profiles@[i].report_rates@ == d.profiles@[i].report_rates@
                && r.profiles@[i].capabilities@ == d.profiles@[i].capabilities@
                && r.profiles@[i].buttons@.len() == d.profiles@[i].buttons@.len()
                && r.profiles@[i].resolutions@.len() == d.profiles@[i].resolutions@.len()
                && r.profiles@[i].leds@.len() == d.profiles@[i].leds@.len(),
        forall|i: int, j: int|
            0 <= i < r.profiles@.len() && 0 <= j < r.profiles@[i].buttons@.len() ==> {
                let b = #[trigger] r.profiles@[i].buttons@[j];
                let p = d.profiles@[i].buttons@[j];
                &&& b.index == p.index
                &&& b.action_types@ == p.action_types@
                &&& b.raw_type == p.kind
                &&& raw_model(b.raw_value) == raw_of(p.value)
                &&& b.action@ == description(p.kind, raw_of(p.value))
            },
        forall|i: int, j: int|
            0 <= i < r.profiles@.len() && 0 <= j < r.profiles@[i].resolutions@.len() ==> {
                let s = #[trigger] r.profiles@[i].resolutions@[j];
                let p = d.profiles@[i].resolutions@[j];
                &&& s.index == p.index
                &&& s.dpi == (if p.resolution is Some {
                    dpi_of(p.resolution->0)
                } else {
                    None
                })
                &&& s.is_active == p.is_active
                &&& s.is_default == p.is_default
                &&& s.is_disabled == p.is_disabled
                &&& s.capabilities@ == p.capabilities@
                &&& s.supported_dpi@ == p.resolutions@
            },
        forall|i: int, j: int|
            0 <= i < r.profiles@.len() && 0 <= j < r.profiles@[i].leds@.len() ==> {
                let l = #[trigger] r.profiles@[i].leds@[j];
                let p = d.profiles@[i].leds@[j];
                &&& l.index == p.index
                &&& l.mode == p.mode
                &&& l.modes@ == p.modes@
                &&& l.color@ == hex_padded(p.color.0 as nat, 2) + hex_padded(p.color.1 as nat, 2)
                    + hex_padded(p.color.2 as nat, 2)
                &&& l.brightness == p.brightness
                &&& l.color_depth == p.color_depth
            },
{
    let mut profiles: Vec<ProfileInfo> = Vec::new();
    let mut i: usize = 0;
    while i < d.profiles.len()
        invariant
            i <= d.profiles.len(),
            profiles.len() == i,
            forall|j: int|
                0 <= j < i ==> (#[trigger] profiles@[j])@ == profile_model(d.profiles@[j])
                    && has_printed_actions(profiles@[j]@),
        decreases d.profiles.len() - i,
    {
        profiles.push(profile_info(&d.profiles[i]));
        i += 1;
    }
    assert(views(profiles@) =~= snapshot_model(*d).profiles);
    assert forall|i: int| 0 <= i < profiles@.len() implies has_printed_actions(
        #[trigger] snapshot_model(*d).profiles[i],
    ) by {
        assert(profiles@[i]@ == profile_model(d.profiles@[i]));
    }
    proof {
        assert forall|i: int, j: int|
            0 <= i < profiles@.len() && 0 <= j < profiles@[i].buttons@.len() implies (
        #[trigger] profiles@[i].buttons@[j])@ == button_model(d.profiles@[i].buttons@[j]) by {
            assert(profiles@[i]@ == profile_model(d.profiles@[i]));
            assert(profiles@[i]@.buttons[j] == profiles@[i].buttons@[j]@);
        }
        assert forall|i: int, j: int|
            0 <= i < profiles@.len() && 0 <= j < profiles@[i].resolutions@.len() implies (
        #[trigger] profiles@[i].resolutions@[j])@ == resolution_model(
            d.profiles@[i].resolutions@[j],
        ) by {
            assert(profiles@[i]@ == profile_model(d.profiles@[i]));
            assert(profiles@[i]@.resolutions.len() == profiles@[i].resolutions@.len());
            assert(profiles@[i]@.resolutions[j] == profiles@[i].resolutions@[j]@);
            assert(profile_model(d.profiles@[i]).resolutions[j] == resolution_model(d.profiles@[i].resolutions@[j]));
        }
        assert forall|i: int, j: int|
            0 <= i < profiles@.len() && 0 <= j < profiles@[i].leds@.len() implies (
        #[trigger] profiles@[i].leds@[j])@ == led_model(d.profiles@[i].leds@[j]) by {
            assert(profiles@[i]@ == profile_model(d.profiles@[i]));
            assert(profiles@[i]@.leds.len() == profiles@[i].leds@.len());
            assert(profiles@[i]@.leds[j] == profiles@[i].leds@[j]@);
            assert(profile_model(d.profiles@[i]).leds[j] == led_model(d.profiles@[i].leds@[j]));
        }
        assert forall|i: int| 0 <= i < profiles@.len() implies (#[trigger] profiles@[i])@
            == profile_model(d.profiles@[i]) && profiles@[i]@.buttons.len()
            == profiles@[i].buttons@.len() && profiles@[i]@.resolutions.len()
            == profiles@[i].resolutions@.len() && profiles@[i]@.leds.len()
            == profiles@[i].leds@.len() by {}
    }
    Snapshot { name: d.name.clone(), model: d.model.clone(), profiles }
}

// ---------------------------------------------------------------------------- laws
/// A value is read through the variants around it: a number as itself, an array of pairs of
/// numbers as those pairs in their order, and nothing else.
pub proof fn values_are_read_through_variants(
    inner: Box<Variant>,
    n: u32,
    items: Vec<Variant>,
    fields: Vec<Variant>,
)
    ensures
        raw_of(Variant::Nested(inner)) == raw_of(*inner),
        dpi_of(Variant::Nested(inner)) == dpi_of(*inner),
        raw_of(Variant::U32(n)) == Some(RawModel::Number(n)),
        dpi_of(Variant::U32(n)) == Some(n),
        raw_of(Variant::Array(items)) is Some <==> forall|i: int|
            0 <= i < items@.len() ==> {
                &&& #[trigger] items@[i] is Structure
                &&& items@[i]->Structure_0@.len() == 2
                &&& items@[i]->Structure_0@[0] is U32
                &&& items@[i]->Structure_0@[1] is U32
            },
        raw_of(Variant::Array(items)) is Some ==> {
            &&& raw_of(Variant::Array(items))->0 is MacroEvents
            &&& raw_of(Variant::Array(items))->0->MacroEvents_0.len() == items@.len()
            &&& forall|i: int|
                0 <= i < items@.len() ==> (#[trigger] raw_of(
                    Variant::Array(items),
                )->0->MacroEvents_0[i]) == (
                    items@[i]->Structure_0@[0]->U32_0,
                    items@[i]->Structure_0@[1]->U32_0,
                )
        },
        dpi_of(Variant::Array(items)) is None,
        raw_of(Variant::Structure(fields)) is None,
        dpi_of(Variant::Structure(fields)) is None,
        raw_of(Variant::Other) is None,
        dpi_of(Variant::Other) is None,
{
    let array = Variant::Array(items);
    assert(unwrapped(array) == array);
    let all = forall|i: int| 0 <= i < items@.len() ==> event_of(#[trigger] items@[i]) is Some;
    if all {
        assert forall|i: int| 0 <= i < items@.len() implies ({
            &&& #[trigger] items@[i] is Structure
            &&& items@[i]->Structure_0@.len() == 2
            &&& items@[i]->Structure_0@[0] is U32
            &&& items@[i]->Structure_0@[1] is U32
        }) by {
            assert(event_of(items@[i]) is Some);
        }
    }
}

/// The colour components of the device's LEDs fit a byte.
pub open spec fn has_byte_colors(d: DeviceProperties) -> bool {
    forall|i: int, j: int|
        0 <= i < d.profiles@.len() && 0 <= j < d.profiles@[i].leds@.len() ==> ({
            let c = (#[trigger] d.profiles@[i].leds@[j]).color;
            c.0 < 256 && c.1 < 256 && c.2 < 256
        })
}

/// A snapshot spells colours the one way that an overlay does, so that they can be
/// compared as text.
pub proof fn snapshots_have_plain_colors(d: DeviceProperties)
    requires
        has_byte_colors(d),
    ensures
        has_plain_colors(snapshot_model(d)),
{
    let s = snapshot_model(d);
    assert forall|i: int, j: int|
        0 <= i < s.profiles.len() && 0 <= j < s.profiles[i].leds.len() implies normal_color(
        (#[trigger] s.profiles[i].leds[j]).color,
    ) == Ok::<Seq<char>, Failure>(s.profiles[i].leds[j].color) by {
        let c = d.profiles@[i].leds@[j].color;
        let rgb = (c.0 as u8, c.1 as u8, c.2 as u8);
        assert(s.profiles[i].leds[j].color == color_text(rgb));
        color_text_reads_back(rgb);
    }
}

/// The model of a device begins with its bus and its two ids, four hexadecimal digits each.
pub proof fn a_model_begins_with_its_ids(vendor: u16, product: u16, rest: Seq<char>)
    ensures
        model_prefix(vendor, product).len() == 14,
        begins(
            "usb:"@ + hex_padded(vendor as nat, 4) + ":"@ + hex_padded(product as nat, 4) + ":"@
                + rest,
            model_prefix(vendor, product),
        ),
        forall|v: u16, p: u16| #[trigger]
            model_prefix(v, p) == model_prefix(vendor, product) ==> v == vendor && p == product,
{
    reveal_strlit("usb:");
    reveal_strlit(":");
    reveal_strlit("0123456789abcdef");
    an_id_has_four_digits(vendor);
    an_id_has_four_digits(product);
    let prefix = model_prefix(vendor, product);
    assert(("usb:"@ + hex_padded(vendor as nat, 4) + ":"@ + hex_padded(product as nat, 4) + ":"@
        + rest).take(14) =~= prefix);
    assert forall|v: u16, p: u16| #[trigger]
        model_prefix(v, p) == prefix implies v == vendor && p == product by {
        an_id_has_four_digits(v);
        an_id_has_four_digits(p);
        let other = model_prefix(v, p);
        assert(other.subrange(4, 8) =~= hex_padded(v as nat, 4));
        assert(prefix.subrange(4, 8) =~= hex_padded(vendor as nat, 4));
        assert(other.subrange(9, 13) =~= hex_padded(p as nat, 4));
        assert(prefix.subrange(9, 13) =~= hex_padded(product as nat, 4));
        lemma_same_digits(v, vendor, other, prefix, 4);
        lemma_same_digits(p, product, other, prefix, 9);
    }
}

proof fn lemma_same_digits(a: u16, b: u16, s: Seq<char>, t: Seq<char>, at: int)
    requires
        0 <= at,
        s == t,
        at + 4 <= s.len(),
        s.subrange(at, at + 4) == hex_padded(a as nat, 4),
        t.subrange(at, at + 4) == hex_padded(b as nat, 4),
    ensures
        a == b,
{
    reveal_strlit("0123456789abcdef");
    an_id_has_four_digits(a);
    an_id_has_four_digits(b);
    let d = "0123456789abcdef"@;
    assert forall|i: int, j: int| 0 <= i < 16 && 0 <= j < 16 && d[i] == d[j] implies i == j by {}
    let x = hex_padded(a as nat, 4);
    let y = hex_padded(b as nat, 4);
    assert(x == y);
    assert(x[0] == y[0] && x[1] == y[1] && x[2] == y[2] && x[3] == y[3]);
    let m = a as int;
    let n = b as int;
    assert(m / 4096 < 16 && n / 4096 < 16);
    assert(m / 4096 == n / 4096);
    assert(m / 256 % 16 == n / 256 % 16);
    assert(m / 16 % 16 == n / 16 % 16);
    assert(m % 16 == n % 16);
}

} // verus!
