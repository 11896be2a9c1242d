//! What ratbagd tells of a device, and the actions that its buttons can have.
//!
//! Object tree: Manager -> Device -> Profile -> {Resolution, Button, Led}.

pub use crate::action::{
    action_string, describe, led_mode_name, parse_action, parse_led_mode, special_names, LED_MODES,
};
pub use crate::bus::describe_mapping;
pub use crate::controller::Controller;
use crate::text::views;
use vstd::prelude::*;

verus! {

// --------------------------------------------------------------------- snapshot
#[derive(Debug, PartialEq)]
pub struct Snapshot {
    pub name: String,
    pub model: String,
    pub profiles: Vec<ProfileInfo>,
}

#[derive(Debug, PartialEq)]
pub struct ProfileInfo {
    pub index: u32,
    pub disabled: bool,
    pub is_active: bool,
    pub report_rate: u32,
    pub report_rates: Vec<u32>,
    pub capabilities: Vec<u32>,
    pub buttons: Vec<ButtonInfo>,
    pub resolutions: Vec<ResolutionInfo>,
    pub leds: Vec<LedInfo>,
}

#[derive(Debug, PartialEq)]
pub struct ButtonInfo {
    pub index: u32,
    pub action_types: Vec<u32>,
    /// Human-readable, e.g. "macro KEY_F13" or "special resolution-alternate".
    pub action: String,
    /// ratbagd action type: 0 none, 1 button, 2 special, 3 key, 4 macro.
    pub raw_type: u32,
    /// Button number / special id / key code, or macro events as
    /// [event_type, key] pairs (1 = press, 2 = release).
    pub raw_value: Option<RawValue>,
}

#[derive(Debug, PartialEq)]
pub enum RawValue {
    Number(u32),
    MacroEvents(Vec<[u32; 2]>),
}

#[derive(Debug, PartialEq)]
pub struct ResolutionInfo {
    pub index: u32,
    pub dpi: Option<u32>,
    pub is_active: bool,
    pub is_default: bool,
    pub is_disabled: bool,
    pub capabilities: Vec<u32>,
    pub supported_dpi: Vec<u32>,
}

#[derive(Debug, PartialEq)]
pub struct LedInfo {
    pub index: u32,
    pub mode: u32,
    pub modes: Vec<u32>,
    pub color: String,
    pub brightness: u32,
    pub color_depth: u32,
}

// ------------------------------------------------------------------------ models
#[verifier::ext_equal]
pub struct SnapshotModel {
    pub name: Seq<char>,
    pub model: Seq<char>,
    pub profiles: Seq<ProfileModel>,
}

#[verifier::ext_equal]
pub struct ProfileModel {
    pub index: u32,
    pub disabled: bool,
    pub is_active: bool,
    pub report_rate: u32,
    pub report_rates: Seq<u32>,
    pub capabilities: Seq<u32>,
    pub buttons: Seq<ButtonModel>,
    pub resolutions: Seq<ResolutionModel>,
    pub leds: Seq<LedModel>,
}

#[verifier::ext_equal]
pub struct ButtonModel {
    pub index: u32,
    pub action_types: Seq<u32>,
    pub action: Seq<char>,
    pub raw_type: u32,
    pub raw_value: Option<RawModel>,
}

#[verifier::ext_equal]
pub enum RawModel {
    Number(u32),
    MacroEvents(Seq<(u32, u32)>),
}

#[verifier::ext_equal]
pub struct ResolutionModel {
    pub index: u32,
    pub dpi: Option<u32>,
    pub is_active: bool,
    pub is_default: bool,
    pub is_disabled: bool,
    pub capabilities: Seq<u32>,
    pub supported_dpi: Seq<u32>,
}

#[verifier::ext_equal]
pub struct LedModel {
    pub index: u32,
    pub mode: u32,
    pub modes: Seq<u32>,
    pub color: Seq<char>,
    pub brightness: u32,
    pub color_depth: u32,
}

/// The events of a macro as pairs.
pub open spec fn event_pairs(ev: Seq<[u32; 2]>) -> Seq<(u32, u32)> {
    Seq::new(ev.len(), |i: int| (ev[i]@[0], ev[i]@[1]))
}

/// The value of a mapping, if it has one.
pub open spec fn raw_model(v: Option<RawValue>) -> Option<RawModel> {
    match v {
        Some(r) => Some(r@),
        None => None,
    }
}

impl View for RawValue {
    type V = RawModel;

    open spec fn view(&self) -> RawModel {
        match *self {
            RawValue::Number(n) => RawModel::Number(n),
            RawValue::MacroEvents(ev) => RawModel::MacroEvents(event_pairs(ev@)),
        }
    }
}

impl View for Snapshot {
    type V = SnapshotModel;

    open spec fn view(&self) -> SnapshotModel {
        SnapshotModel { name: self.name@, model: self.model@, profiles: views(self.profiles@) }
    }
}

impl View for ProfileInfo {
    type V = ProfileModel;

    open spec fn view(&self) -> ProfileModel {
        ProfileModel {
            index: self.index,
            disabled: self.disabled,
            is_active: self.is_active,
            report_rate: self.report_rate,
            report_rates: self.report_rates@,
            capabilities: self.capabilities@,
            buttons: views(self.buttons@),
            resolutions: views(self.resolutions@),
            leds: views(self.leds@),
        }
    }
}

impl View for ButtonInfo {
    type V = ButtonModel;

    open spec fn view(&self) -> ButtonModel {
        ButtonModel {
            index: self.index,
            action_types: self.action_types@,
            action: self.action@,
            raw_type: self.raw_type,
            raw_value: raw_model(self.raw_value),
        }
    }
}

impl View for ResolutionInfo {
    type V = ResolutionModel;

    open spec fn view(&self) -> ResolutionModel {
        ResolutionModel {
            index: self.index,
            dpi: self.dpi,
            is_active: self.is_active,
            is_default: self.is_default,
            is_disabled: self.is_disabled,
            capabilities: self.capabilities@,
            supported_dpi: self.supported_dpi@,
        }
    }
}

impl View for LedInfo {
    type V = LedModel;

    open spec fn view(&self) -> LedModel {
        LedModel {
            index: self.index,
            mode: self.mode,
            modes: self.modes@,
            color: self.color@,
            brightness: self.brightness,
            color_depth: self.color_depth,
        }
    }
}

// ------------------------------------------------------------------------ copies
pub fn copy_numbers(v: &Vec<u32>) -> (r: Vec<u32>)
    ensures
        r@ == v@,
{
    let r = v.clone();
    assert(r@ =~= v@);
    r
}

impl Clone for RawValue {
    fn clone(&self) -> (r: Self)
        ensures
            r@ == self@,
    {
        match self {
            RawValue::Number(n) => RawValue::Number(*n),
            RawValue::MacroEvents(ev) => {
                let mut out: Vec<[u32; 2]> = Vec::new();
                let mut i: usize = 0;
                while i < ev.len()
                    invariant
                        i <= ev.len(),
                        out.len() == i,
                        forall|j: int|
                            0 <= j < i ==> #[trigger] event_pairs(out@)[j] == event_pairs(ev@)[j],
                    decreases ev.len() - i,
                {
                    let e: [u32; 2] = [ev[i][0], ev[i][1]];
                    let ghost before = out@;
                    out.push(e);
                    proof {
                        assert forall|j: int| 0 <= j < i + 1 implies #[trigger] event_pairs(
                            out@,
                        )[j] == event_pairs(ev@)[j] by {
                            if j < i {
                                assert(event_pairs(before)[j] == event_pairs(ev@)[j]);
                            }
                        }
                    }
                    i += 1;
                }
                assert(event_pairs(out@) =~= event_pairs(ev@));
                RawValue::MacroEvents(out)
            },
        }
    }
}

/// A copy of a mapping's value.
pub fn copy_raw(v: &Option<RawValue>) -> (r: Option<RawValue>)
    ensures
        raw_model(r) == raw_model(*v),
{
    match v {
        Some(x) => Some(x.clone()),
        None => None,
    }
}

impl Clone for ButtonInfo {
    fn clone(&self) -> (r: Self)
        ensures
            r@ == self@,
    {
        ButtonInfo {
            index: self.index,
            action_types: copy_numbers(&self.action_types),
            action: self.action.clone(),
            raw_type: self.raw_type,
            raw_value: copy_raw(&self.raw_value),
        }
    }
}

impl Clone for ResolutionInfo {
    fn clone(&self) -> (r: Self)
        ensures
            r@ == self@,
    {
        ResolutionInfo {
            index: self.index,
            dpi: self.dpi,
            is_active: self.is_active,
            is_default: self.is_default,
            is_disabled: self.is_disabled,
            capabilities: copy_numbers(&self.capabilities),
            supported_dpi: copy_numbers(&self.supported_dpi),
        }
    }
}

impl Clone for LedInfo {
    fn clone(&self) -> (r: Self)
        ensures
            r@ == self@,
    {
        LedInfo {
            index: self.index,
            mode: self.mode,
            modes: copy_numbers(&self.modes),
            color: self.color.clone(),
            brightness: self.brightness,
            color_depth: self.color_depth,
        }
    }
}

impl Clone for ProfileInfo {
    fn clone(&self) -> (r: Self)
        ensures
            r@ == self@,
    {
        let r = ProfileInfo {
            index: self.index,
            disabled: self.disabled,
            is_active: self.is_active,
            report_rate: self.report_rate,
            report_rates: copy_numbers(&self.report_rates),
            capabilities: copy_numbers(&self.capabilities),
            buttons: self.buttons.clone(),
            resolutions: self.resolutions.clone(),
            leds: self.leds.clone(),
        };
        assert(views(r.buttons@) =~= views(self.buttons@));
        assert(views(r.resolutions@) =~= views(self.resolutions@));
        assert(views(r.leds@) =~= views(self.leds@));
        r
    }
}

impl Clone for Snapshot {
    fn clone(&self) -> (r: Self)
        ensures
            r@ == self@,
    {
        let r = Snapshot {
            name: self.name.clone(),
            model: self.model.clone(),
            profiles: self.profiles.clone(),
        };
        assert(views(r.profiles@) =~= views(self.profiles@));
        r
    }
}

fn same_events(x: &Vec<[u32; 2]>, y: &Vec<[u32; 2]>) -> (r: bool)
    ensures
        r == (event_pairs(x@) == event_pairs(y@)),
{
    if x.len() != y.len() {
        assert(event_pairs(x@).len() != event_pairs(y@).len());
        return false;
    }
    let mut i: usize = 0;
    while i < x.len()
        invariant
            i <= x.len() == y.len(),
            forall|j: int| 0 <= j < i ==> #[trigger] event_pairs(x@)[j] == event_pairs(y@)[j],
        decreases x.len() - i,
    {
        if x[i][0] != y[i][0] || x[i][1] != y[i][1] {
            assert(event_pairs(x@)[i as int] != event_pairs(y@)[i as int]);
            return false;
        }
        i += 1;
    }
    assert(event_pairs(x@) =~= event_pairs(y@));
    true
}

/// Whether two mappings have the same value.
pub fn same_raw(a: &Option<RawValue>, b: &Option<RawValue>) -> (r: bool)
    ensures
        r == (raw_model(*a) == raw_model(*b)),
{
    match (a, b) {
        (None, None) => true,
        (Some(RawValue::Number(x)), Some(RawValue::Number(y))) => *x == *y,
        (Some(RawValue::MacroEvents(x)), Some(RawValue::MacroEvents(y))) => same_events(x, y),
        _ => false,
    }
}

} // verus!
