//! Restore a `g502ctl backup` snapshot: compare it with the device, validate
//! every difference against what the device says it supports, and stage it.
//!
//! Restored: profile enabled/disabled, report rate, every resolution slot's DPI
//! and disabled flag, button mappings, LED mode/colour/brightness.
//! Not restored: which profile / resolution is active or default (those are
//! immediate actions in ratbagd, not staged properties), and LED effect duration.

use crate::config::{color_of, holds, optional, parse_color};
use crate::error::{failure, is_outcome, Error, Failure};
use crate::ratbag::{
    copy_raw, event_pairs, raw_model, same_raw, ButtonInfo, ButtonModel, LedInfo, LedModel, ProfileInfo,
    ProfileModel, RawModel, RawValue, ResolutionInfo, ResolutionModel, Snapshot, SnapshotModel,
};
use crate::text::{
    bool_str, bool_text, dec, join, joined, list_text, number_list, push_dec, same, texts, views,
};
use vstd::prelude::*;

verus! {

#[derive(Debug, PartialEq)]
#[allow(inconsistent_fields)]
pub enum Change {
    ProfileDisabled { profile: u32, to: bool },
    ReportRate { profile: u32, to: u32 },
    Dpi { profile: u32, slot: u32, to: u32 },
    SlotDisabled { profile: u32, slot: u32, to: bool },
    Button { profile: u32, button: u32, kind: u32, value: Option<RawValue> },
    Led {
        profile: u32,
        led: u32,
        mode: Option<u32>,
        color: Option<String>,
        brightness: Option<u32>,
    },
}

#[derive(Debug, PartialEq)]
pub struct Planned {
    pub change: Change,
    /// One human-readable line: what changes, from -> to.
    pub summary: String,
}

#[verifier::ext_equal]
#[allow(inconsistent_fields)]
pub enum ChangeModel {
    ProfileDisabled { profile: u32, to: bool },
    ReportRate { profile: u32, to: u32 },
    Dpi { profile: u32, slot: u32, to: u32 },
    SlotDisabled { profile: u32, slot: u32, to: bool },
    Button { profile: u32, button: u32, kind: u32, value: Option<RawModel> },
    Led {
        profile: u32,
        led: u32,
        mode: Option<u32>,
        color: Option<Seq<char>>,
        brightness: Option<u32>,
    },
}

#[verifier::ext_equal]
pub struct PlannedModel {
    pub change: ChangeModel,
    pub summary: Seq<char>,
}

impl View for Change {
    type V = ChangeModel;

    open spec fn view(&self) -> ChangeModel {
        match *self {
            Change::ProfileDisabled { profile, to } => ChangeModel::ProfileDisabled { profile, to },
            Change::ReportRate { profile, to } => ChangeModel::ReportRate { profile, to },
            Change::Dpi { profile, slot, to } => ChangeModel::Dpi { profile, slot, to },
            Change::SlotDisabled { profile, slot, to } => ChangeModel::SlotDisabled {
                profile,
                slot,
                to,
            },
            Change::Button { profile, button, kind, value } => ChangeModel::Button {
                profile,
                button,
                kind,
                value: raw_model(value),
            },
            Change::Led { profile, led, mode, color, brightness } => ChangeModel::Led {
                profile,
                led,
                mode,
                color: optional(color),
                brightness,
            },
        }
    }
}

impl View for Planned {
    type V = PlannedModel;

    open spec fn view(&self) -> PlannedModel {
        PlannedModel { change: self.change@, summary: self.summary@ }
    }
}

impl Clone for Change {
    fn clone(&self) -> (r: Self)
        ensures
            r@ == self@,
    {
        match self {
            Change::ProfileDisabled { profile, to } => Change::ProfileDisabled {
                profile: *profile,
                to: *to,
            },
            Change::ReportRate { profile, to } => Change::ReportRate { profile: *profile, to: *to },
            Change::Dpi { profile, slot, to } => Change::Dpi {
                profile: *profile,
                slot: *slot,
                to: *to,
            },
            Change::SlotDisabled { profile, slot, to } => Change::SlotDisabled {
                profile: *profile,
                slot: *slot,
                to: *to,
            },
            Change::Button { profile, button, kind, value } => Change::Button {
                profile: *profile,
                button: *button,
                kind: *kind,
                value: copy_raw(value),
            },
            Change::Led { profile, led, mode, color, brightness } => Change::Led {
                profile: *profile,
                led: *led,
                mode: *mode,
                color: match color {
                    Some(c) => Some(c.clone()),
                    None => None,
                },
                brightness: *brightness,
            },
        }
    }
}

impl Clone for Planned {
    fn clone(&self) -> (r: Self)
        ensures
            r@ == self@,
    {
        Planned { change: self.change.clone(), summary: self.summary.clone() }
    }
}

// --------------------------------------------------------------------- sequencing
/// What a part of a plan comes to: the changes, or why it cannot be planned.
pub type Part = Result<Seq<PlannedModel>, Failure>;

/// No change.
pub open spec fn nothing() -> Part {
    Ok(Seq::empty())
}

/// One change.
pub open spec fn one(change: ChangeModel, summary: Seq<char>) -> Part {
    Ok(seq![PlannedModel { change, summary }])
}

/// `a`, then `b`; the first that fails is reported.
pub open spec fn after(a: Part, b: Part) -> Part {
    match (a, b) {
        (Ok(x), Ok(y)) => Ok(x + y),
        (Err(e), _) => Err(e),
        (_, Err(e)) => Err(e),
    }
}

/// All parts in order; the first that fails is reported.
pub open spec fn gather(parts: Seq<Part>) -> Part
    decreases parts.len(),
{
    if parts.len() == 0 {
        nothing()
    } else {
        after(gather(parts.drop_last()), parts.last())
    }
}

/// One more part.
proof fn lemma_gather_next(parts: Seq<Part>, i: int)
    requires
        0 <= i < parts.len(),
    ensures
        gather(parts.take(i + 1)) == after(gather(parts.take(i)), parts[i]),
{
    assert(parts.take(i + 1).drop_last() =~= parts.take(i));
}

/// A failure stays the outcome, whatever comes behind it.
proof fn lemma_gather_failed(parts: Seq<Part>, i: int)
    requires
        0 <= i <= parts.len(),
        gather(parts.take(i)) is Err,
    ensures
        gather(parts) == gather(parts.take(i)),
    decreases parts.len() - i,
{
    if i == parts.len() {
        assert(parts.take(i) =~= parts);
    } else {
        lemma_gather_next(parts, i);
        lemma_gather_failed(parts, i + 1);
    }
}

/// `r` is the outcome `want` for a part of a plan.
pub open spec fn is_part(r: Result<Vec<Planned>, Error>, want: Part) -> bool {
    match (r, want) {
        (Ok(v), Ok(s)) => views(v@) == s,
        (Err(e), Err(f)) => e@ == f,
        _ => false,
    }
}

/// The part `done`, then the part that `next` is the outcome of.
fn then_part(done: Vec<Planned>, next: Result<Vec<Planned>, Error>, Ghost(want): Ghost<Part>) -> (r:
    Result<Vec<Planned>, Error>)
    requires
        is_part(next, want),
    ensures
        is_part(r, after(Ok(views(done@)), want)),
{
    match next {
        Err(e) => Err(e),
        Ok(v) => {
            let mut all = done;
            let mut more = v;
            all.append(&mut more);
            assert(views(all@) =~= views(done@) + views(v@));
            Ok(all)
        },
    }
}

fn planned(change: Change, summary: String) -> (r: Result<Vec<Planned>, Error>)
    ensures
        is_part(r, one(change@, summary@)),
{
    let mut v: Vec<Planned> = Vec::new();
    v.push(Planned { change, summary });
    assert(views(v@) =~= seq![PlannedModel { change: change@, summary: summary@ }]);
    Ok(v)
}

fn unplanned() -> (r: Result<Vec<Planned>, Error>)
    ensures
        is_part(r, nothing()),
{
    let v: Vec<Planned> = Vec::new();
    assert(views(v@) =~= Seq::empty());
    Ok(v)
}

fn refused(message: String) -> (r: Result<Vec<Planned>, Error>)
    ensures
        is_part(r, Err(failure(message@))),
{
    Err(Error::new(message))
}

// --------------------------------------------------------------- profile settings
/// `profile P`.
pub open spec fn profile_text(p: u32) -> Seq<char> {
    "profile "@ + dec(p as nat)
}

pub open spec fn disabled_text(d: bool) -> Seq<char> {
    if d {
        "disabled"@
    } else {
        "enabled"@
    }
}

/// Enable or disable a profile.
pub open spec fn disabled_part(c: ProfileModel, t: ProfileModel) -> Part {
    if c.disabled != t.disabled {
        one(
            ChangeModel::ProfileDisabled { profile: c.index, to: t.disabled },
            profile_text(c.index) + ": "@ + disabled_text(c.disabled) + " -> "@ + disabled_text(
                t.disabled,
            ),
        )
    } else {
        nothing()
    }
}

/// Change a report rate to one that the profile supports.
pub open spec fn rate_part(c: ProfileModel, t: ProfileModel) -> Part {
    if c.report_rate == t.report_rate {
        nothing()
    } else if !c.report_rates.contains(t.report_rate) {
        Err(
            failure(
                profile_text(c.index) + ": "@ + dec(t.report_rate as nat)
                    + " Hz is not a supported report rate"@,
            ),
        )
    } else {
        one(
            ChangeModel::ReportRate { profile: c.index, to: t.report_rate },
            profile_text(c.index) + ": report rate "@ + dec(c.report_rate as nat) + " -> "@ + dec(
                t.report_rate as nat,
            ) + " Hz"@,
        )
    }
}

fn profile_line(p: u32) -> (r: String)
    ensures
        r@ == profile_text(p),
{
    let mut s = "profile ".to_owned();
    push_dec(&mut s, p as u64);
    s
}

pub fn disabled_word(d: bool) -> (r: &'static str)
    ensures
        r@ == disabled_text(d),
{
    if d {
        "disabled"
    } else {
        "enabled"
    }
}

fn plan_disabled(c: &ProfileInfo, t: &ProfileInfo) -> (r: Result<Vec<Planned>, Error>)
    ensures
        is_part(r, disabled_part(c@, t@)),
{
    if c.disabled == t.disabled {
        return unplanned();
    }
    let mut s = profile_line(c.index);
    s.append(": ");
    s.append(disabled_word(c.disabled));
    s.append(" -> ");
    s.append(disabled_word(t.disabled));
    planned(Change::ProfileDisabled { profile: c.index, to: t.disabled }, s)
}

fn plan_rate(c: &ProfileInfo, t: &ProfileInfo) -> (r: Result<Vec<Planned>, Error>)
    ensures
        is_part(r, rate_part(c@, t@)),
{
    if c.report_rate == t.report_rate {
        return unplanned();
    }
    let mut s = profile_line(c.index);
    if !holds(&c.report_rates, t.report_rate) {
        s.append(": ");
        push_dec(&mut s, t.report_rate as u64);
        s.append(" Hz is not a supported report rate");
        return refused(s);
    }
    s.append(": report rate ");
    push_dec(&mut s, c.report_rate as u64);
    s.append(" -> ");
    push_dec(&mut s, t.report_rate as u64);
    s.append(" Hz");
    planned(Change::ReportRate { profile: c.index, to: t.report_rate }, s)
}

// -------------------------------------------------------------- resolution slots
/// A DPI that may be unknown.
pub open spec fn dpi_text(dpi: Option<u32>) -> Seq<char> {
    match dpi {
        Some(d) => dec(d as nat),
        None => "?"@,
    }
}

/// Change the DPI of a slot to one that it supports.
pub open spec fn dpi_part(p: u32, c: ResolutionModel, t: ResolutionModel) -> Part {
    match t.dpi {
        Some(dpi) if c.dpi != Some(dpi) => if !c.supported_dpi.contains(dpi) {
            Err(
                failure(
                    profile_text(p) + " slot "@ + dec(c.index as nat) + ": "@ + dec(dpi as nat)
                        + " DPI is not supported"@,
                ),
            )
        } else {
            one(
                ChangeModel::Dpi { profile: p, slot: c.index, to: dpi },
                profile_text(p) + " resolution "@ + dec(c.index as nat) + ": "@ + dpi_text(c.dpi)
                    + " -> "@ + dec(dpi as nat) + " DPI"@,
            )
        },
        _ => nothing(),
    }
}

/// Enable or disable a slot.
pub open spec fn slot_disabled_part(p: u32, c: ResolutionModel, t: ResolutionModel) -> Part {
    if c.is_disabled != t.is_disabled {
        one(
            ChangeModel::SlotDisabled { profile: p, slot: c.index, to: t.is_disabled },
            profile_text(p) + " resolution "@ + dec(c.index as nat) + ": disabled "@ + bool_text(
                c.is_disabled,
            ) + " -> "@ + bool_text(t.is_disabled),
        )
    } else {
        nothing()
    }
}

pub open spec fn slot_part(p: u32, c: ResolutionModel, t: ResolutionModel) -> Part {
    after(dpi_part(p, c, t), slot_disabled_part(p, c, t))
}

pub open spec fn slot_parts(p: u32, c: Seq<ResolutionModel>, t: Seq<ResolutionModel>) -> Seq<Part> {
    Seq::new(c.len(), |i: int| slot_part(p, c[i], t[i]))
}

fn plan_dpi(p: u32, c: &ResolutionInfo, t: &ResolutionInfo) -> (r: Result<Vec<Planned>, Error>)
    ensures
        is_part(r, dpi_part(p, c@, t@)),
{
    let dpi: u32 = match t.dpi {
        Some(d) => d,
        None => return unplanned(),
    };
    let mut s = profile_line(p);
    if let Some(d) = c.dpi {
        if d == dpi {
            return unplanned();
        }
    }
    if !holds(&c.supported_dpi, dpi) {
        s.append(" slot ");
        push_dec(&mut s, c.index as u64);
        s.append(": ");
        push_dec(&mut s, dpi as u64);
        s.append(" DPI is not supported");
        return refused(s);
    }
    s.append(" resolution ");
    push_dec(&mut s, c.index as u64);
    s.append(": ");
    match c.dpi {
        Some(d) => push_dec(&mut s, d as u64),
        None => s.append("?"),
    }
    s.append(" -> ");
    push_dec(&mut s, dpi as u64);
    s.append(" DPI");
    planned(Change::Dpi { profile: p, slot: c.index, to: dpi }, s)
}

fn plan_slot_disabled(p: u32, c: &ResolutionInfo, t: &ResolutionInfo) -> (r: Result<
    Vec<Planned>,
    Error,
>)
    ensures
        is_part(r, slot_disabled_part(p, c@, t@)),
{
    if c.is_disabled == t.is_disabled {
        return unplanned();
    }
    let mut s = profile_line(p);
    s.append(" resolution ");
    push_dec(&mut s, c.index as u64);
    s.append(": disabled ");
    s.append(bool_str(c.is_disabled));
    s.append(" -> ");
    s.append(bool_str(t.is_disabled));
    planned(Change::SlotDisabled { profile: p, slot: c.index, to: t.is_disabled }, s)
}

fn plan_slot(p: u32, c: &ResolutionInfo, t: &ResolutionInfo) -> (r: Result<Vec<Planned>, Error>)
    ensures
        is_part(r, slot_part(p, c@, t@)),
{
    match plan_dpi(p, c, t) {
        Err(e) => Err(e),
        Ok(v) => then_part(v, plan_slot_disabled(p, c, t), Ghost(slot_disabled_part(p, c@, t@))),
    }
}

fn plan_slots(p: u32, c: &Vec<ResolutionInfo>, t: &Vec<ResolutionInfo>) -> (r: Result<
    Vec<Planned>,
    Error,
>)
    requires
        c.len() == t.len(),
    ensures
        is_part(r, gather(slot_parts(p, views(c@), views(t@)))),
{
    let ghost parts = slot_parts(p, views(c@), views(t@));
    let mut out: Vec<Planned> = Vec::new();
    let mut i: usize = 0;
    assert(parts.take(0) =~= Seq::empty());
    assert(views(out@) =~= Seq::empty());
    while i < c.len()
        invariant
            i <= c.len() == t.len(),
            parts == slot_parts(p, views(c@), views(t@)),
            gather(parts.take(i as int)) == Ok::<Seq<PlannedModel>, Failure>(views(out@)),
        decreases c.len() - i,
    {
        proof {
            lemma_gather_next(parts, i as int);
            assert(parts[i as int] == slot_part(p, c@[i as int]@, t@[i as int]@));
        }
        let next = plan_slot(p, &c[i], &t[i]);
        i += 1;
        match then_part(out, next, Ghost(parts[i - 1])) {
            Err(e) => {
                proof {
                    lemma_gather_failed(parts, i as int);
                }
                return Err(e);
            },
            Ok(v) => {
                out = v;
            },
        }
    }
    assert(parts.take(i as int) =~= parts);
    Ok(out)
}

// ------------------------------------------------------------------------ buttons
/// The button already does what the target says. A button without an action has no value.
pub open spec fn same_mapping(c: ButtonModel, t: ButtonModel) -> bool {
    c.raw_type == t.raw_type && (t.raw_type == 0 || c.raw_value == t.raw_value)
}

/// The value is of the kind that the action type takes.
pub open spec fn is_well_typed(kind: u32, value: Option<RawModel>) -> bool {
    ||| kind == 0
    ||| 1 <= kind <= 3 && value matches Some(RawModel::Number(_))
    ||| kind == 4 && value matches Some(RawModel::MacroEvents(_))
}

pub open spec fn pair_text(e: (u32, u32)) -> Seq<char> {
    "["@ + dec(e.0 as nat) + ", "@ + dec(e.1 as nat) + "]"@
}

pub open spec fn pair_texts(ev: Seq<(u32, u32)>) -> Seq<Seq<char>> {
    Seq::new(ev.len(), |i: int| pair_text(ev[i]))
}

/// A mapping's value as an error message shows it.
pub open spec fn value_text(v: Option<RawModel>) -> Seq<char> {
    match v {
        None => "None"@,
        Some(RawModel::Number(n)) => "Some(Number("@ + dec(n as nat) + "))"@,
        Some(RawModel::MacroEvents(ev)) => "Some(MacroEvents(["@ + join(pair_texts(ev), ", "@)
            + "]))"@,
    }
}

/// Give a button an action of a type that it supports, with a value of that type.
pub open spec fn button_part(p: u32, c: ButtonModel, t: ButtonModel) -> Part {
    let at = profile_text(p) + " button "@ + dec(c.index as nat) + ": "@;
    if same_mapping(c, t) {
        nothing()
    } else if !c.action_types.contains(t.raw_type) {
        Err(
            failure(
                at + "action type "@ + dec(t.raw_type as nat) + " is not supported (supported: "@
                    + number_list(c.action_types) + ")"@,
            ),
        )
    } else if !is_well_typed(t.raw_type, t.raw_value) {
        Err(
            failure(
                at + "malformed value "@ + value_text(t.raw_value) + " for action type "@ + dec(
                    t.raw_type as nat,
                ),
            ),
        )
    } else {
        one(
            ChangeModel::Button {
                profile: p,
                button: c.index,
                kind: t.raw_type,
                value: t.raw_value,
            },
            at + c.action + " -> "@ + t.action,
        )
    }
}

pub open spec fn button_parts(p: u32, c: Seq<ButtonModel>, t: Seq<ButtonModel>) -> Seq<Part> {
    Seq::new(c.len(), |i: int| button_part(p, c[i], t[i]))
}

fn events_text(ev: &Vec<[u32; 2]>) -> (r: String)
    ensures
        r@ == join(pair_texts(event_pairs(ev@)), ", "@),
{
    let mut parts: Vec<String> = Vec::new();
    let mut i: usize = 0;
    while i < ev.len()
        invariant
            i <= ev.len(),
            parts.len() == i,
            forall|j: int| 0 <= j < i ==> (#[trigger] parts@[j])@ == pair_text(event_pairs(ev@)[j]),
        decreases ev.len() - i,
    {
        let mut s = "[".to_owned();
        push_dec(&mut s, ev[i][0] as u64);
        s.append(", ");
        push_dec(&mut s, ev[i][1] as u64);
        s.append("]");
        parts.push(s);
        i += 1;
    }
    assert(texts(parts@) =~= pair_texts(event_pairs(ev@)));
    joined(&parts, ", ")
}

fn show_value(v: &Option<RawValue>) -> (r: String)
    ensures
        r@ == value_text(raw_model(*v)),
{
    match v {
        None => "None".to_owned(),
        Some(RawValue::Number(n)) => {
            let mut s = "Some(Number(".to_owned();
            push_dec(&mut s, *n as u64);
            s.append("))");
            s
        },
        Some(RawValue::MacroEvents(ev)) => {
            let mut s = "Some(MacroEvents([".to_owned();
            s.append(events_text(ev).as_str());
            s.append("]))");
            s
        },
    }
}

fn fits_type(kind: u32, value: &Option<RawValue>) -> (r: bool)
    ensures
        r == is_well_typed(kind, raw_model(*value)),
{
    if kind == 0 {
        return true;
    }
    match value {
        Some(RawValue::Number(_)) => 1 <= kind && kind <= 3,
        Some(RawValue::MacroEvents(_)) => kind == 4,
        None => false,
    }
}

fn plan_button(p: u32, c: &ButtonInfo, t: &ButtonInfo) -> (r: Result<Vec<Planned>, Error>)
    ensures
        is_part(r, button_part(p, c@, t@)),
{
    if c.raw_type == t.raw_type && (t.raw_type == 0 || same_raw(&c.raw_value, &t.raw_value)) {
        return unplanned();
    }
    let mut s = profile_line(p);
    s.append(" button ");
    push_dec(&mut s, c.index as u64);
    s.append(": ");
    if !holds(&c.action_types, t.raw_type) {
        s.append("action type ");
        push_dec(&mut s, t.raw_type as u64);
        s.append(" is not supported (supported: ");
        s.append(list_text(&c.action_types).as_str());
        s.append(")");
        return refused(s);
    }
    if !fits_type(t.raw_type, &t.raw_value) {
        s.append("malformed value ");
        s.append(show_value(&t.raw_value).as_str());
        s.append(" for action type ");
        push_dec(&mut s, t.raw_type as u64);
        return refused(s);
    }
    s.append(c.action.as_str());
    s.append(" -> ");
    s.append(t.action.as_str());
    planned(
        Change::Button {
            profile: p,
            button: c.index,
            kind: t.raw_type,
            value: copy_raw(&t.raw_value),
        },
        s,
    )
}

fn plan_buttons(p: u32, c: &Vec<ButtonInfo>, t: &Vec<ButtonInfo>) -> (r: Result<Vec<Planned>, Error>)
    requires
        c.len() == t.len(),
    ensures
        is_part(r, gather(button_parts(p, views(c@), views(t@)))),
{
    let ghost parts = button_parts(p, views(c@), views(t@));
    let mut out: Vec<Planned> = Vec::new();
    let mut i: usize = 0;
    assert(parts.take(0) =~= Seq::empty());
    assert(views(out@) =~= Seq::empty());
    while i < c.len()
        invariant
            i <= c.len() == t.len(),
            parts == button_parts(p, views(c@), views(t@)),
            gather(parts.take(i as int)) == Ok::<Seq<PlannedModel>, Failure>(views(out@)),
        decreases c.len() - i,
    {
        proof {
            lemma_gather_next(parts, i as int);
            assert(parts[i as int] == button_part(p, c@[i as int]@, t@[i as int]@));
        }
        let next = plan_button(p, &c[i], &t[i]);
        i += 1;
        match then_part(out, next, Ghost(parts[i - 1])) {
            Err(e) => {
                proof {
                    lemma_gather_failed(parts, i as int);
                }
                return Err(e);
            },
            Ok(v) => {
                out = v;
            },
        }
    }
    assert(parts.take(i as int) =~= parts);
    Ok(out)
}

// --------------------------------------------------------------------------- LEDs
pub open spec fn led_mode_change(c: LedModel, t: LedModel) -> Option<u32> {
    if c.mode != t.mode {
        Some(t.mode)
    } else {
        None
    }
}

pub open spec fn led_color_change(c: LedModel, t: LedModel) -> Option<Seq<char>> {
    if c.color != t.color {
        Some(t.color)
    } else {
        None
    }
}

pub open spec fn led_brightness_change(c: LedModel, t: LedModel) -> Option<u32> {
    if c.brightness != t.brightness {
        Some(t.brightness)
    } else {
        None
    }
}

/// What differs, one text per setting.
pub open spec fn led_differences(c: LedModel, t: LedModel) -> Seq<Seq<char>> {
    let mode = if c.mode != t.mode {
        seq!["mode "@ + dec(c.mode as nat) + " -> "@ + dec(t.mode as nat)]
    } else {
        Seq::empty()
    };
    let color = if c.color != t.color {
        seq!["color "@ + c.color + " -> "@ + t.color]
    } else {
        Seq::empty()
    };
    let brightness = if c.brightness != t.brightness {
        seq!["brightness "@ + dec(c.brightness as nat) + " -> "@ + dec(t.brightness as nat)]
    } else {
        Seq::empty()
    };
    mode + color + brightness
}

/// Change the settings of an LED that differ, to a mode that it supports and a colour that is
/// one.
pub open spec fn led_part(p: u32, c: LedModel, t: LedModel) -> Part {
    let at = profile_text(p) + " LED "@ + dec(c.index as nat) + ": "@;
    if c.mode == t.mode && c.color == t.color && c.brightness == t.brightness {
        nothing()
    } else if c.mode != t.mode && !c.modes.contains(t.mode) {
        Err(
            failure(
                at + "mode "@ + dec(t.mode as nat) + " is not supported (supported: "@ + number_list(
                    c.modes,
                ) + ")"@,
            ),
        )
    } else if c.color != t.color && color_of(t.color) is Err {
        Err(color_of(t.color)->Err_0)
    } else {
        one(
            ChangeModel::Led {
                profile: p,
                led: c.index,
                mode: led_mode_change(c, t),
                color: led_color_change(c, t),
                brightness: led_brightness_change(c, t),
            },
            at + join(led_differences(c, t), ", "@),
        )
    }
}

pub open spec fn led_parts(p: u32, c: Seq<LedModel>, t: Seq<LedModel>) -> Seq<Part> {
    Seq::new(c.len(), |i: int| led_part(p, c[i], t[i]))
}

fn led_change_list(c: &LedInfo, t: &LedInfo) -> (r: Vec<String>)
    ensures
        texts(r@) == led_differences(c@, t@),
{
    let mut parts: Vec<String> = Vec::new();
    let ghost want = led_differences(c@, t@);
    if c.mode != t.mode {
        let mut s = "mode ".to_owned();
        push_dec(&mut s, c.mode as u64);
        s.append(" -> ");
        push_dec(&mut s, t.mode as u64);
        parts.push(s);
    }
    if !same(c.color.as_str(), t.color.as_str()) {
        let mut s = "color ".to_owned();
        s.append(c.color.as_str());
        s.append(" -> ");
        s.append(t.color.as_str());
        parts.push(s);
    }
    if c.brightness != t.brightness {
        let mut s = "brightness ".to_owned();
        push_dec(&mut s, c.brightness as u64);
        s.append(" -> ");
        push_dec(&mut s, t.brightness as u64);
        parts.push(s);
    }
    assert(texts(parts@) =~= want);
    parts
}

fn plan_led(p: u32, c: &LedInfo, t: &LedInfo) -> (r: Result<Vec<Planned>, Error>)
    ensures
        is_part(r, led_part(p, c@, t@)),
{
    let mode: Option<u32> = if c.mode != t.mode {
        Some(t.mode)
    } else {
        None
    };
    let color: Option<String> = if !same(c.color.as_str(), t.color.as_str()) {
        Some(t.color.clone())
    } else {
        None
    };
    let brightness: Option<u32> = if c.brightness != t.brightness {
        Some(t.brightness)
    } else {
        None
    };
    if mode.is_none() && color.is_none() && brightness.is_none() {
        return unplanned();
    }
    let mut s = profile_line(p);
    s.append(" LED ");
    push_dec(&mut s, c.index as u64);
    s.append(": ");
    if let Some(m) = mode {
        if !holds(&c.modes, m) {
            s.append("mode ");
            push_dec(&mut s, m as u64);
            s.append(" is not supported (supported: ");
            s.append(list_text(&c.modes).as_str());
            s.append(")");
            return refused(s);
        }
    }
    if let Some(col) = &color {
        if let Err(e) = parse_color(col.as_str()) {
            return Err(e);
        }
    }
    s.append(joined(&led_change_list(c, t), ", ").as_str());
    planned(Change::Led { profile: p, led: c.index, mode, color, brightness }, s)
}

fn plan_leds(p: u32, c: &Vec<LedInfo>, t: &Vec<LedInfo>) -> (r: Result<Vec<Planned>, Error>)
    requires
        c.len() == t.len(),
    ensures
        is_part(r, gather(led_parts(p, views(c@), views(t@)))),
{
    let ghost parts = led_parts(p, views(c@), views(t@));
    let mut out: Vec<Planned> = Vec::new();
    let mut i: usize = 0;
    assert(parts.take(0) =~= Seq::empty());
    assert(views(out@) =~= Seq::empty());
    while i < c.len()
        invariant
            i <= c.len() == t.len(),
            parts == led_parts(p, views(c@), views(t@)),
            gather(parts.take(i as int)) == Ok::<Seq<PlannedModel>, Failure>(views(out@)),
        decreases c.len() - i,
    {
        proof {
            lemma_gather_next(parts, i as int);
            assert(parts[i as int] == led_part(p, c@[i as int]@, t@[i as int]@));
        }
        let next = plan_led(p, &c[i], &t[i]);
        i += 1;
        match then_part(out, next, Ghost(parts[i - 1])) {
            Err(e) => {
                proof {
                    lemma_gather_failed(parts, i as int);
                }
                return Err(e);
            },
            Ok(v) => {
                out = v;
            },
        }
    }
    assert(parts.take(i as int) =~= parts);
    Ok(out)
}

// ----------------------------------------------------------------------- the plan
/// The two profiles have the same number of buttons, slots and LEDs.
pub open spec fn same_shape(c: ProfileModel, t: ProfileModel) -> bool {
    c.buttons.len() == t.buttons.len() && c.resolutions.len() == t.resolutions.len()
        && c.leds.len() == t.leds.len()
}

/// The changes of one profile.
pub open spec fn profile_part(c: ProfileModel, t: ProfileModel) -> Part {
    let p = c.index;
    if t.index != p {
        Err(failure("snapshot profile order differs at profile "@ + dec(p as nat)))
    } else if !same_shape(c, t) {
        Err(
            failure(
                profile_text(p)
                    + ": snapshot has a different number of buttons/resolutions/LEDs than the device"@,
            ),
        )
    } else {
        after(
            after(
                after(
                    after(disabled_part(c, t), rate_part(c, t)),
                    gather(slot_parts(p, c.resolutions, t.resolutions)),
                ),
                gather(button_parts(p, c.buttons, t.buttons)),
            ),
            gather(led_parts(p, c.leds, t.leds)),
        )
    }
}

pub open spec fn profile_parts(c: Seq<ProfileModel>, t: Seq<ProfileModel>) -> Seq<Part> {
    Seq::new(c.len(), |i: int| profile_part(c[i], t[i]))
}

/// Everything that would have to change to turn `c` into `t`, in order, or the first reason
/// why it cannot.
pub open spec fn plan_of(c: SnapshotModel, t: SnapshotModel) -> Part {
    if c.model != t.model {
        Err(
            failure(
                "snapshot is for "@ + t.name + " ("@ + t.model + "), connected device is "@ + c.name
                    + " ("@ + c.model + ")"@,
            ),
        )
    } else if c.profiles.len() != t.profiles.len() {
        Err(
            failure(
                "snapshot has "@ + dec(t.profiles.len()) + " profiles, device has "@ + dec(
                    c.profiles.len(),
                ),
            ),
        )
    } else {
        gather(profile_parts(c.profiles, t.profiles))
    }
}

fn plan_settings(c: &ProfileInfo, t: &ProfileInfo) -> (r: Result<Vec<Planned>, Error>)
    ensures
        is_part(r, after(disabled_part(c@, t@), rate_part(c@, t@))),
{
    match plan_disabled(c, t) {
        Err(e) => Err(e),
        Ok(v) => then_part(v, plan_rate(c, t), Ghost(rate_part(c@, t@))),
    }
}

fn plan_profile(c: &ProfileInfo, t: &ProfileInfo) -> (r: Result<Vec<Planned>, Error>)
    ensures
        is_part(r, profile_part(c@, t@)),
{
    let p: u32 = c.index;
    if t.index != p {
        let mut s = "snapshot profile order differs at profile ".to_owned();
        push_dec(&mut s, p as u64);
        return refused(s);
    }
    if c.buttons.len() != t.buttons.len() || c.resolutions.len() != t.resolutions.len()
        || c.leds.len() != t.leds.len() {
        let mut s = profile_line(p);
        s.append(": snapshot has a different number of buttons/resolutions/LEDs than the device");
        return refused(s);
    }
    let settings = match plan_settings(c, t) {
        Err(e) => return Err(e),
        Ok(v) => v,
    };
    let slots = match then_part(
        settings,
        plan_slots(p, &c.resolutions, &t.resolutions),
        Ghost(gather(slot_parts(p, c@.resolutions, t@.resolutions))),
    ) {
        Err(e) => return Err(e),
        Ok(v) => v,
    };
    let buttons = match then_part(
        slots,
        plan_buttons(p, &c.buttons, &t.buttons),
        Ghost(gather(button_parts(p, c@.buttons, t@.buttons))),
    ) {
        Err(e) => return Err(e),
        Ok(v) => v,
    };
    then_part(
        buttons,
        plan_leds(p, &c.leds, &t.leds),
        Ghost(gather(led_parts(p, c@.leds, t@.leds))),
    )
}

fn plan_profiles(c: &Vec<ProfileInfo>, t: &Vec<ProfileInfo>) -> (r: Result<Vec<Planned>, Error>)
    requires
        c.len() == t.len(),
    ensures
        is_part(r, gather(profile_parts(views(c@), views(t@)))),
{
    let ghost parts = profile_parts(views(c@), views(t@));
    let mut out: Vec<Planned> = Vec::new();
    let mut i: usize = 0;
    assert(parts.take(0) =~= Seq::empty());
    assert(views(out@) =~= Seq::empty());
    while i < c.len()
        invariant
            i <= c.len() == t.len(),
            parts == profile_parts(views(c@), views(t@)),
            gather(parts.take(i as int)) == Ok::<Seq<PlannedModel>, Failure>(views(out@)),
        decreases c.len() - i,
    {
        proof {
            lemma_gather_next(parts, i as int);
            assert(parts[i as int] == profile_part(c@[i as int]@, t@[i as int]@));
        }
        let next = plan_profile(&c[i], &t[i]);
        i += 1;
        match then_part(out, next, Ghost(parts[i - 1])) {
            Err(e) => {
                proof {
                    lemma_gather_failed(parts, i as int);
                }
                return Err(e);
            },
            Ok(v) => {
                out = v;
            },
        }
    }
    assert(parts.take(i as int) =~= parts);
    Ok(out)
}

/// Everything that would have to change to turn `current` into `target`.
/// Errors if the target is for a different device/shape or asks for something
/// the device does not support; nothing is planned in that case.
pub fn plan(current: &Snapshot, target: &Snapshot) -> (r: Result<Vec<Planned>, Error>)
    ensures
        is_part(r, plan_of(current@, target@)),
{
    if !same(current.model.as_str(), target.model.as_str()) {
        let mut s = "snapshot is for ".to_owned();
        s.append(target.name.as_str());
        s.append(" (");
        s.append(target.model.as_str());
        s.append("), connected device is ");
        s.append(current.name.as_str());
        s.append(" (");
        s.append(current.model.as_str());
        s.append(")");
        return refused(s);
    }
    if current.profiles.len() != target.profiles.len() {
        let mut s = "snapshot has ".to_owned();
        push_dec(&mut s, target.profiles.len() as u64);
        s.append(" profiles, device has ");
        push_dec(&mut s, current.profiles.len() as u64);
        return refused(s);
    }
    plan_profiles(&current.profiles, &target.profiles)
}

// ------------------------------------------------------------- disabling profiles
/// How many of the first `n` profiles are enabled.
pub open spec fn enabled_count(s: Seq<ProfileModel>, n: nat) -> nat
    decreases n,
{
    if n == 0 {
        0
    } else if s[n - 1].disabled {
        enabled_count(s, (n - 1) as nat)
    } else {
        enabled_count(s, (n - 1) as nat) + 1
    }
}

/// How many profiles are enabled.
pub fn count_enabled(snap: &Snapshot) -> (r: usize)
    ensures
        r == enabled_count(snap@.profiles, snap@.profiles.len()),
{
    let mut enabled: usize = 0;
    let mut i: usize = 0;
    while i < snap.profiles.len()
        invariant
            i <= snap.profiles.len(),
            enabled <= i,
            enabled == enabled_count(snap@.profiles, i as nat),
        decreases snap.profiles.len() - i,
    {
        assert(snap.profiles@[i as int]@ == snap@.profiles[i as int]);
        if !snap.profiles[i].disabled {
            enabled += 1;
        }
        i += 1;
    }
    enabled
}

/// The rules for disabling a profile. The first that fails is reported.
pub open spec fn disable_rules(s: SnapshotModel, dpi_profiles: Seq<u32>, profile: u32) -> Result<
    (),
    Failure,
> {
    if profile >= s.profiles.len() {
        Err(failure("device has no profile "@ + dec(profile as nat)))
    } else if dpi_profiles.contains(profile) {
        Err(
            failure(
                profile_text(profile)
                    + " is in dpi.profiles, so g502d keeps its DPI in sync; remove it from the config first"@,
            ),
        )
    } else if s.profiles[profile as int].is_active {
        Err(
            failure(
                profile_text(profile)
                    + " is the active profile; switch to another profile first"@,
            ),
        )
    } else if !s.profiles[profile as int].disabled && enabled_count(
        s.profiles,
        s.profiles.len(),
    ) <= 1 {
        Err(failure("refusing to disable the only enabled profile"@))
    } else {
        Ok(())
    }
}

/// Rules for disabling a profile. The first failing rule is the one reported.
pub fn check_can_disable(snap: &Snapshot, dpi_profiles: &[u32], profile: u32) -> (r: Result<
    (),
    Error,
>)
    ensures
        is_outcome(r, disable_rules(snap@, dpi_profiles@, profile)),
{
    if profile as usize >= snap.profiles.len() {
        let mut m = "device has no profile ".to_owned();
        push_dec(&mut m, profile as u64);
        return Err(Error::new(m));
    }
    let p = &snap.profiles[profile as usize];
    assert(p@ == snap@.profiles[profile as int]);
    if holds(dpi_profiles, profile) {
        let mut m = profile_line(profile);
        m.append(
            " is in dpi.profiles, so g502d keeps its DPI in sync; remove it from the config first",
        );
        return Err(Error::new(m));
    }
    if p.is_active {
        let mut m = profile_line(profile);
        m.append(" is the active profile; switch to another profile first");
        return Err(Error::new(m));
    }
    if !p.disabled && count_enabled(snap) <= 1 {
        return Err(Error::new("refusing to disable the only enabled profile".to_owned()));
    }
    Ok(())
}

// ------------------------------------------------------------------------ staging
/// One write that ratbagd stages. Nothing reaches the hardware until the commit.
#[derive(Debug, PartialEq)]
pub enum StageCall {
    ProfileDisabled { profile: u32, disabled: bool },
    ReportRate { profile: u32, hz: u32 },
    SlotDpi { profile: u32, slot: u32, dpi: u32 },
    SlotDisabled { profile: u32, slot: u32, disabled: bool },
    Button { profile: u32, button: u32, kind: u32, value: RawValue },
    Led {
        profile: u32,
        led: u32,
        mode: Option<u32>,
        color: Option<(u8, u8, u8)>,
        brightness: Option<u32>,
    },
}

#[verifier::ext_equal]
pub enum StageModel {
    ProfileDisabled { profile: u32, disabled: bool },
    ReportRate { profile: u32, hz: u32 },
    SlotDpi { profile: u32, slot: u32, dpi: u32 },
    SlotDisabled { profile: u32, slot: u32, disabled: bool },
    Button { profile: u32, button: u32, kind: u32, value: RawModel },
    Led {
        profile: u32,
        led: u32,
        mode: Option<u32>,
        color: Option<(u8, u8, u8)>,
        brightness: Option<u32>,
    },
}

impl View for StageCall {
    type V = StageModel;

    open spec fn view(&self) -> StageModel {
        match *self {
            StageCall::ProfileDisabled { profile, disabled } => StageModel::ProfileDisabled {
                profile,
                disabled,
            },
            StageCall::ReportRate { profile, hz } => StageModel::ReportRate { profile, hz },
            StageCall::SlotDpi { profile, slot, dpi } => StageModel::SlotDpi { profile, slot, dpi },
            StageCall::SlotDisabled { profile, slot, disabled } => StageModel::SlotDisabled {
                profile,
                slot,
                disabled,
            },
            StageCall::Button { profile, button, kind, value } => StageModel::Button {
                profile,
                button,
                kind,
                value: value@,
            },
            StageCall::Led { profile, led, mode, color, brightness } => StageModel::Led {
                profile,
                led,
                mode,
                color,
                brightness,
            },
        }
    }
}

/// The value that is sent for a mapping. A mapping without a value is sent with zero.
pub open spec fn sent_value(v: Option<RawModel>) -> RawModel {
    match v {
        Some(r) => r,
        None => RawModel::Number(0),
    }
}

/// The write for one change.
pub open spec fn stage_call_of(c: ChangeModel) -> Result<StageModel, Failure> {
    match c {
        ChangeModel::ProfileDisabled { profile, to } => Ok(
            StageModel::ProfileDisabled { profile, disabled: to },
        ),
        ChangeModel::ReportRate { profile, to } => Ok(StageModel::ReportRate { profile, hz: to }),
        ChangeModel::Dpi { profile, slot, to } => Ok(StageModel::SlotDpi { profile, slot, dpi: to }),
        ChangeModel::SlotDisabled { profile, slot, to } => Ok(
            StageModel::SlotDisabled { profile, slot, disabled: to },
        ),
        ChangeModel::Button { profile, button, kind, value } => Ok(
            StageModel::Button { profile, button, kind, value: sent_value(value) },
        ),
        ChangeModel::Led { profile, led, mode, color, brightness } => match color {
            None => Ok(StageModel::Led { profile, led, mode, color: None, brightness }),
            Some(text) => match color_of(text) {
                Ok(rgb) => Ok(StageModel::Led { profile, led, mode, color: Some(rgb), brightness }),
                Err(e) => Err(e),
            },
        },
    }
}

/// The write for one change.
pub fn stage_call(c: &Change) -> (r: Result<StageCall, Error>)
    ensures
        crate::error::is_outcome_of(r, stage_call_of(c@)),
{
    match c {
        Change::ProfileDisabled { profile, to } => Ok(
            StageCall::ProfileDisabled { profile: *profile, disabled: *to },
        ),
        Change::ReportRate { profile, to } => Ok(StageCall::ReportRate { profile: *profile, hz: *to }),
        Change::Dpi { profile, slot, to } => Ok(
            StageCall::SlotDpi { profile: *profile, slot: *slot, dpi: *to },
        ),
        Change::SlotDisabled { profile, slot, to } => Ok(
            StageCall::SlotDisabled { profile: *profile, slot: *slot, disabled: *to },
        ),
        Change::Button { profile, button, kind, value } => {
            let sent = match value {
                Some(v) => v.clone(),
                None => RawValue::Number(0),
            };
            Ok(StageCall::Button { profile: *profile, button: *button, kind: *kind, value: sent })
        },
        Change::Led { profile, led, mode, color, brightness } => {
            let rgb: Option<(u8, u8, u8)> = match color {
                None => None,
                Some(text) => match parse_color(text.as_str()) {
                    Ok(rgb) => Some(rgb),
                    Err(e) => return Err(e),
                },
            };
            Ok(
                StageCall::Led {
                    profile: *profile,
                    led: *led,
                    mode: *mode,
                    color: rgb,
                    brightness: *brightness,
                },
            )
        },
    }
}

/// When a change is staged: enabling a profile first, disabling one last.
pub open spec fn rank(c: ChangeModel) -> int {
    match c {
        ChangeModel::ProfileDisabled { to, .. } => if to {
            2
        } else {
            0
        },
        _ => 1,
    }
}

/// The positions below `n` of the changes of one rank, ascending.
pub open spec fn ranked(plan: Seq<PlannedModel>, k: int, n: nat) -> Seq<nat>
    decreases n,
{
    if n == 0 {
        Seq::empty()
    } else if rank(plan[n - 1].change) == k {
        ranked(plan, k, (n - 1) as nat).push((n - 1) as nat)
    } else {
        ranked(plan, k, (n - 1) as nat)
    }
}

/// The positions of the changes in the order in which they are staged.
pub open spec fn staging_order(plan: Seq<PlannedModel>) -> Seq<nat> {
    ranked(plan, 0, plan.len()) + ranked(plan, 1, plan.len()) + ranked(plan, 2, plan.len())
}

fn change_rank(c: &Change) -> (r: u8)
    ensures
        r == rank(c@),
{
    match c {
        Change::ProfileDisabled { to, .. } => if *to {
            2
        } else {
            0
        },
        _ => 1,
    }
}

/// The writes for a plan, in the order in which they are staged: enabling a profile before
/// edits to it, disabling one after, so a profile is never edited while it would be disabled
/// by this same plan. Staging stops at the first that fails.
pub fn stage(plan: &Vec<Planned>) -> (r: Vec<Result<StageCall, Error>>)
    ensures
        r.len() == staging_order(views(plan@)).len(),
        forall|i: int|
            0 <= i < r.len() ==> crate::error::is_outcome_of(
                #[trigger] r@[i],
                stage_call_of(views(plan@)[staging_order(views(plan@))[i] as int].change),
            ),
{
    let ghost p = views(plan@);
    let mut out: Vec<Result<StageCall, Error>> = Vec::new();
    let mut k: u8 = 0;
    let ghost mut done: Seq<nat> = Seq::empty();
    while k < 3
        invariant
            k <= 3,
            p == views(plan@),
            k == 0 ==> done == Seq::<nat>::empty(),
            k == 1 ==> done == ranked(p, 0, p.len()),
            k == 2 ==> done == ranked(p, 0, p.len()) + ranked(p, 1, p.len()),
            k == 3 ==> done == staging_order(p),
            out.len() == done.len(),
            forall|i: int|
                0 <= i < out.len() ==> crate::error::is_outcome_of(
                    #[trigger] out@[i],
                    stage_call_of(p[done[i] as int].change),
                ),
        decreases 3 - k,
    {
        let mut i: usize = 0;
        let ghost start = done;
        assert(start + ranked(p, k as int, 0) =~= start);
        while i < plan.len()
            invariant
                i <= plan.len(),
                p == views(plan@),
                k < 3,
                done == start + ranked(p, k as int, i as nat),
                out.len() == done.len(),
                forall|j: int|
                    0 <= j < out.len() ==> crate::error::is_outcome_of(
                        #[trigger] out@[j],
                        stage_call_of(p[done[j] as int].change),
                    ),
            decreases plan.len() - i,
        {
            assert(p[i as int] == plan@[i as int]@);
            if change_rank(&plan[i].change) == k {
                out.push(stage_call(&plan[i].change));
                proof {
                    let before = done;
                    done = done.push(i as nat);
                    assert(done =~= start + ranked(p, k as int, (i + 1) as nat));
                }
            }
            i += 1;
        }
        k += 1;
        proof {
            if k == 1 {
                assert(done =~= ranked(p, 0, p.len()));
            }
        }
    }
    out
}

/// The positions of one rank are those of its changes, ascending.
proof fn lemma_ranked(plan: Seq<PlannedModel>, k: int, n: nat)
    requires
        n <= plan.len(),
    ensures
        forall|i: int|
            0 <= i < ranked(plan, k, n).len() ==> (#[trigger] ranked(plan, k, n)[i]) < n && rank(
                plan[ranked(plan, k, n)[i] as int].change,
            ) == k,
        forall|i: int, j: int|
            0 <= i < j < ranked(plan, k, n).len() ==> #[trigger] ranked(plan, k, n)[i]
                < #[trigger] ranked(plan, k, n)[j],
        forall|m: nat|
            m < n && rank(plan[m as int].change) == k ==> #[trigger] ranked(plan, k, n).contains(m),
    decreases n,
{
    if n > 0 {
        lemma_ranked(plan, k, (n - 1) as nat);
        let shorter = ranked(plan, k, (n - 1) as nat);
        let s = ranked(plan, k, n);
        assert forall|m: nat| m < n && rank(plan[m as int].change) == k implies #[trigger] s.contains(
            m,
        ) by {
            if m == n - 1 {
                assert(s[s.len() - 1] == m);
            } else {
                assert(shorter.contains(m));
                let i = choose|i: int| 0 <= i < shorter.len() && shorter[i] == m;
                assert(s[i] == m);
            }
        }
    }
}

/// A plan is staged whole: every change once, enabling a profile before everything that is
/// not, disabling one behind everything that is not, and otherwise in the order of the plan.
pub proof fn staging_is_ordered(plan: Seq<PlannedModel>)
    ensures
        forall|i: int|
            0 <= i < staging_order(plan).len() ==> #[trigger] staging_order(plan)[i] < plan.len(),
        forall|m: nat| m < plan.len() ==> #[trigger] staging_order(plan).contains(m),
        forall|i: int, j: int|
            0 <= i < j < staging_order(plan).len() ==> {
                let a = #[trigger] staging_order(plan)[i];
                let b = #[trigger] staging_order(plan)[j];
                let ra = rank(plan[a as int].change);
                let rb = rank(plan[b as int].change);
                ra < rb || (ra == rb && a < b)
            },
{
    let n = plan.len();
    let a = ranked(plan, 0, n);
    let b = ranked(plan, 1, n);
    let c = ranked(plan, 2, n);
    let s = staging_order(plan);
    lemma_ranked(plan, 0, n);
    lemma_ranked(plan, 1, n);
    lemma_ranked(plan, 2, n);
    assert forall|i: int| 0 <= i < s.len() implies #[trigger] s[i] < plan.len() && rank(
        plan[s[i] as int].change,
    ) == (if i < a.len() {
        0int
    } else if i < a.len() + b.len() {
        1
    } else {
        2
    }) by {
        if i < a.len() {
            assert(s[i] == a[i]);
        } else if i < a.len() + b.len() {
            assert(s[i] == b[i - a.len()]);
        } else {
            assert(s[i] == c[i - a.len() - b.len()]);
        }
    }
    assert forall|m: nat| m < plan.len() implies #[trigger] s.contains(m) by {
        let k = rank(plan[m as int].change);
        if k == 0 {
            assert(a.contains(m));
            let i = choose|i: int| 0 <= i < a.len() && a[i] == m;
            assert(s[i] == m);
        } else if k == 1 {
            assert(b.contains(m));
            let i = choose|i: int| 0 <= i < b.len() && b[i] == m;
            assert(s[a.len() + i] == m);
        } else {
            assert(c.contains(m));
            let i = choose|i: int| 0 <= i < c.len() && c[i] == m;
            assert(s[a.len() + b.len() + i] == m);
        }
    }
    assert forall|i: int, j: int| 0 <= i < j < s.len() implies {
        let x = #[trigger] s[i];
        let y = #[trigger] s[j];
        let rx = rank(plan[x as int].change);
        let ry = rank(plan[y as int].change);
        rx < ry || (rx == ry && x < y)
    } by {
        if j < a.len() {
            assert(s[i] == a[i] && s[j] == a[j]);
        } else if i >= a.len() && j < a.len() + b.len() {
            assert(s[i] == b[i - a.len()] && s[j] == b[j - a.len()]);
        } else if i >= a.len() + b.len() {
            assert(s[i] == c[i - a.len() - b.len()] && s[j] == c[j - a.len() - b.len()]);
        }
    }
}

} // verus!
