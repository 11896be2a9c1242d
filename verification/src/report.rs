//! What `g502ctl` prints: the status, the results of DPI commands, the check and the
//! full device report.

use crate::apply::{optional_str, overlay, overlay_of};
use crate::config::{holds, Config, ConfigModel, DeviceConfig, DpiModel};
use crate::daemon::{is_macro_of, tap};
use crate::dpi::Step;
use crate::error::{failure, is_outcome, Error, Failure};
use crate::input::{KEY_F13, KEY_F14};
use crate::keyed::pairs;
use crate::ratbag::{
    ButtonInfo, ButtonModel, LedInfo, LedModel, ProfileInfo, ProfileModel, RawModel,
    ResolutionInfo, ResolutionModel, Snapshot, SnapshotModel,
};
use crate::restore::{disabled_text, disabled_word, dpi_text, nothing, plan, plan_of};
use crate::text::{
    dec, join, joined, list_text, number, number_list, occurs, occurs_in, parse_number, push_dec, quote,
    quoted, texts, views,
};
use vstd::prelude::*;

verus! {

// ----------------------------------------------------------------------------- lines
/// `a` with `b` behind it.
fn push_all(a: &mut Vec<String>, b: Vec<String>)
    ensures
        texts(final(a)@) == texts(old(a)@) + texts(b@),
{
    let mut more = b;
    a.append(&mut more);
    assert(texts(a@) =~= texts(old(a)@) + texts(b@));
}

fn push_line(a: &mut Vec<String>, line: String)
    ensures
        texts(final(a)@) == texts(old(a)@).push(line@),
{
    a.push(line);
    assert(texts(a@) =~= texts(old(a)@).push(line@));
}

// ---------------------------------------------------------------------------- status
/// The position of the first `x`.
pub open spec fn first_index(s: Seq<u32>, x: u32) -> Option<nat>
    decreases s.len(),
{
    if s.len() == 0 {
        None
    } else if s[0] == x {
        Some(0)
    } else {
        match first_index(s.skip(1), x) {
            Some(i) => Some(i + 1),
            None => None,
        }
    }
}

/// Which stage a DPI is.
pub open spec fn label_of(stages: Seq<u32>, dpi: u32) -> Seq<char> {
    match first_index(stages, dpi) {
        Some(i) => "stage "@ + dec(i + 1) + " of "@ + dec(stages.len()),
        None => "off-stage"@,
    }
}

fn position(s: &[u32], x: u32) -> (r: Option<usize>)
    ensures
        match (r, first_index(s@, x)) {
            (Some(i), Some(j)) => i == j && i < s@.len(),
            (None, None) => true,
            _ => false,
        },
{
    let mut i: usize = 0;
    assert(s@.skip(0) =~= s@);
    while i < s.len()
        invariant
            i <= s.len(),
            first_index(s@, x) == (match first_index(s@.skip(i as int), x) {
                Some(j) => Some(i as nat + j),
                None => None,
            }),
        decreases s.len() - i,
    {
        if s[i] == x {
            return Some(i);
        }
        assert(s@.skip(i as int).skip(1) =~= s@.skip(i + 1));
        i += 1;
    }
    None
}

pub fn stage_label(stages: &[u32], dpi: u32) -> (r: String)
    ensures
        r@ == label_of(stages@, dpi),
{
    let count: usize = stages.len();
    match position(stages, dpi) {
        Some(i) => {
            let mut s = "stage ".to_owned();
            push_dec(&mut s, (i + 1) as u64);
            s.append(" of ");
            push_dec(&mut s, count as u64);
            s
        },
        None => "off-stage".to_owned(),
    }
}

/// The state of a profile in words.
pub open spec fn state_words(p: ProfileModel) -> Seq<char> {
    disabled_text(p.disabled) + (if p.is_active {
        ", active"@
    } else {
        ""@
    })
}

fn state_text(p: &ProfileInfo) -> (r: String)
    ensures
        r@ == state_words(p@),
{
    let mut s = disabled_word(p.disabled).to_owned();
    s.append(
        if p.is_active {
            ", active"
        } else {
            ""
        },
    );
    s
}

/// One profile of the status; `dpi` is what its shared slot has, if it can be read.
pub open spec fn status_line(p: ProfileModel, dpi: DpiModel, value: Option<u32>) -> Seq<char> {
    let head = "profile "@ + dec(p.index as nat) + ": "@ + state_words(p) + ", "@ + dec(
        p.report_rate as nat,
    ) + " Hz"@;
    if dpi.profiles.contains(p.index) {
        head + ", slot "@ + dec(dpi.shared_slot as nat) + " = "@ + (match value {
            Some(d) => dec(d as nat) + " DPI"@,
            None => "?"@,
        })
    } else {
        head
    }
}

fn status_text(p: &ProfileInfo, cfg: &Config, value: Option<u32>) -> (r: String)
    ensures
        r@ == status_line(p@, cfg@.dpi, value),
{
    let mut s = "profile ".to_owned();
    push_dec(&mut s, p.index as u64);
    s.append(": ");
    let state = state_text(p);
    s.append(state.as_str());
    s.append(", ");
    push_dec(&mut s, p.report_rate as u64);
    s.append(" Hz");
    if holds(&cfg.dpi.profiles, p.index) {
        s.append(", slot ");
        push_dec(&mut s, cfg.dpi.shared_slot as u64);
        s.append(" = ");
        match value {
            Some(d) => {
                let mut v = String::new();
                push_dec(&mut v, d as u64);
                v.append(" DPI");
                assert(v@ =~= dec(d as nat) + " DPI"@);
                s.append(v.as_str());
            },
            None => {
                s.append("?");
            },
        }
    }
    s
}

/// The synced profiles, of the first `n`, whose shared slot has another DPI.
pub open spec fn out_of_sync(profiles: Seq<u32>, values: Seq<Option<u32>>, shared: u32, n: nat) -> Seq<
    u32,
>
    decreases n,
{
    if n == 0 {
        Seq::empty()
    } else {
        let before = out_of_sync(profiles, values, shared, (n - 1) as nat);
        if values[n - 1] != Some(shared) {
            before.push(profiles[n - 1])
        } else {
            before
        }
    }
}

fn unsynced(profiles: &Vec<u32>, values: &[Option<u32>], shared: u32) -> (r: Vec<u32>)
    requires
        values@.len() == profiles@.len(),
    ensures
        r@ == out_of_sync(profiles@, values@, shared, profiles@.len()),
{
    let mut out: Vec<u32> = Vec::new();
    let mut i: usize = 0;
    while i < profiles.len()
        invariant
            i <= profiles.len() == values@.len(),
            out@ == out_of_sync(profiles@, values@, shared, i as nat),
        decreases profiles.len() - i,
    {
        let same = match values[i] {
            Some(d) => d == shared,
            None => false,
        };
        if !same {
            out.push(profiles[i]);
        }
        i += 1;
    }
    out
}

/// `NAME (MODEL)`.
pub open spec fn device_words(s: SnapshotModel) -> Seq<char> {
    s.name + " ("@ + s.model + ")"@
}

/// The status: the device, its profiles, the shared DPI, and which synced profiles do not
/// have it. `slots` has the shared slot's DPI of each profile of the device, `synced` that
/// of each synced profile, where they can be read.
pub open spec fn status_of(
    s: SnapshotModel,
    c: ConfigModel,
    slots: Seq<Option<u32>>,
    shared: u32,
    synced: Seq<Option<u32>>,
) -> Seq<Seq<char>> {
    let others = out_of_sync(c.dpi.profiles, synced, shared, c.dpi.profiles.len());
    seq![device_words(s)] + Seq::new(
        s.profiles.len(),
        |i: int| status_line(s.profiles[i], c.dpi, slots[i]),
    ) + seq![
        "shared DPI: "@ + dec(shared as nat) + " ("@ + label_of(c.dpi.values, shared) + "; stages "@
            + number_list(c.dpi.values) + ")"@,
    ] + (if others.len() > 0 {
        seq![
            "warning: profiles "@ + number_list(others)
                + " do not match; next change will resync them"@,
        ]
    } else {
        Seq::empty()
    })
}

pub fn status_lines(
    snap: &Snapshot,
    cfg: &Config,
    slots: &[Option<u32>],
    shared: u32,
    synced: &[Option<u32>],
) -> (r: Vec<String>)
    requires
        slots@.len() == snap@.profiles.len(),
        synced@.len() == cfg@.dpi.profiles.len(),
    ensures
        texts(r@) == status_of(snap@, cfg@, slots@, shared, synced@),
{
    let mut lines: Vec<String> = Vec::new();
    let mut first = snap.name.clone();
    first.append(" (");
    first.append(snap.model.as_str());
    first.append(")");
    lines.push(first);
    let ghost rows = Seq::new(
        snap@.profiles.len(),
        |i: int| status_line(snap@.profiles[i], cfg@.dpi, slots@[i]),
    );
    let mut i: usize = 0;
    assert(texts(lines@) =~= seq![device_words(snap@)] + rows.take(0));
    while i < snap.profiles.len()
        invariant
            i <= snap.profiles.len() == slots@.len(),
            rows == Seq::new(
                snap@.profiles.len(),
                |i: int| status_line(snap@.profiles[i], cfg@.dpi, slots@[i]),
            ),
            texts(lines@) == seq![device_words(snap@)] + rows.take(i as int),
        decreases snap.profiles.len() - i,
    {
        push_line(&mut lines, status_text(&snap.profiles[i], cfg, slots[i]));
        assert(snap@.profiles[i as int] == snap.profiles@[i as int]@);
        i += 1;
        assert(texts(lines@) =~= seq![device_words(snap@)] + rows.take(i as int));
    }
    assert(rows.take(rows.len() as int) =~= rows);
    let mut s = "shared DPI: ".to_owned();
    push_dec(&mut s, shared as u64);
    s.append(" (");
    let label = stage_label(&cfg.dpi.values, shared);
    s.append(label.as_str());
    s.append("; stages ");
    let stages = list_text(&cfg.dpi.values);
    s.append(stages.as_str());
    s.append(")");
    push_line(&mut lines, s);
    let others = unsynced(&cfg.dpi.profiles, synced, shared);
    if others.len() > 0 {
        let mut w = "warning: profiles ".to_owned();
        let list = list_text(&others);
        w.append(list.as_str());
        w.append(" do not match; next change will resync them");
        push_line(&mut lines, w);
    }
    assert(texts(lines@) =~= status_of(snap@, cfg@, slots@, shared, synced@));
    lines
}

// ------------------------------------------------------------------------- DPI commands
/// `FROM -> TO DPI`.
pub open spec fn moved_words(from: u32, to: u32) -> Seq<char> {
    dec(from as nat) + " -> "@ + dec(to as nat) + " DPI"@
}

fn moved_text(from: u32, to: u32) -> (r: String)
    ensures
        r@ == moved_words(from, to),
{
    let mut s = String::new();
    push_dec(&mut s, from as u64);
    s.append(" -> ");
    push_dec(&mut s, to as u64);
    s.append(" DPI");
    assert(s@ =~= moved_words(from, to));
    s
}

/// What a step came to.
pub fn step_text(step: Step, moved: Option<(u32, u32)>) -> (r: String)
    ensures
        r@ == (match moved {
            Some((from, to)) => moved_words(from, to),
            None => match step {
                Step::Up => "already at the highest stage"@,
                Step::Down => "already at the lowest stage"@,
            },
        }),
{
    match moved {
        Some((from, to)) => moved_text(from, to),
        None => match step {
            Step::Up => "already at the highest stage".to_owned(),
            Step::Down => "already at the lowest stage".to_owned(),
        },
    }
}

/// A DPI on the command line.
pub fn parse_dpi(arg: &str) -> (r: Result<u32, Error>)
    ensures
        is_outcome(
            r,
            match number(arg@) {
                Some(n) => Ok(n),
                None => Err(failure("not a DPI value: "@ + quoted(arg@))),
            },
        ),
{
    match parse_number(arg) {
        Some(n) => Ok(n),
        None => {
            let mut m = "not a DPI value: ".to_owned();
            let q = quote(arg);
            m.append(q.as_str());
            Err(Error::new(m))
        },
    }
}

/// The device does not accept a DPI in every synced slot.
pub fn unsupported_dpi(dpi: u32) -> (e: Error)
    ensures
        e@ == failure(
            dec(dpi as nat) + " DPI is not supported by the device (see `g502ctl check`)"@,
        ),
{
    let mut m = String::new();
    push_dec(&mut m, dpi as u64);
    m.append(" DPI is not supported by the device (see `g502ctl check`)");
    assert(m@ =~= dec(dpi as nat) + " DPI is not supported by the device (see `g502ctl check`)"@);
    Error::new(m)
}

/// What setting the DPI came to.
pub fn set_text(from: u32, dpi: u32) -> (r: String)
    ensures
        r@ == if from == dpi {
            "already "@ + dec(dpi as nat) + " DPI"@
        } else {
            moved_words(from, dpi)
        },
{
    if from == dpi {
        let mut s = "already ".to_owned();
        push_dec(&mut s, dpi as u64);
        s.append(" DPI");
        s
    } else {
        moved_text(from, dpi)
    }
}

// ----------------------------------------------------------------------- device report
/// The flags of a slot that are set, with commas.
pub open spec fn flag_list(r: ResolutionModel) -> Seq<Seq<char>> {
    let a = if r.is_active {
        seq!["active"@]
    } else {
        Seq::empty()
    };
    let d = if r.is_default {
        seq!["default"@]
    } else {
        Seq::empty()
    };
    let x = if r.is_disabled {
        seq!["disabled"@]
    } else {
        Seq::empty()
    };
    a + d + x
}

/// The lowest and the highest value in a list that ascends.
pub open spec fn range_words(v: Seq<u32>) -> Seq<char> {
    if v.len() == 0 {
        "?"@
    } else {
        dec(v[0] as nat) + ".."@ + dec(v.last() as nat)
    }
}

pub open spec fn slot_line(r: ResolutionModel) -> Seq<char> {
    "  resolution "@ + dec(r.index as nat) + ": "@ + dpi_text(r.dpi) + " DPI ["@ + join(
        flag_list(r),
        ","@,
    ) + "] (accepts "@ + range_words(r.supported_dpi) + ", "@ + dec(r.supported_dpi.len())
        + " values)"@
}

/// A number with at least two places.
pub open spec fn two_places(n: u32) -> Seq<char> {
    if n < 10 {
        " "@ + dec(n as nat)
    } else {
        dec(n as nat)
    }
}

pub open spec fn button_line(b: ButtonModel) -> Seq<char> {
    "  button "@ + two_places(b.index) + ": "@ + b.action
}

pub open spec fn led_line(l: LedModel) -> Seq<char> {
    "  led "@ + dec(l.index as nat) + ": mode "@ + dec(l.mode as nat) + " (modes "@ + number_list(
        l.modes,
    ) + "), color "@ + l.color + ", brightness "@ + dec(l.brightness as nat) + ", color depth "@ + dec(
        l.color_depth as nat,
    )
}

pub open spec fn profile_head(p: ProfileModel) -> Seq<char> {
    "profile "@ + dec(p.index as nat) + " ["@ + state_words(p) + "] report rate "@ + dec(
        p.report_rate as nat,
    ) + " Hz (supports "@ + number_list(p.report_rates) + "), capabilities "@ + number_list(
        p.capabilities,
    )
}

/// The report of a profile; of a disabled one only the first line.
pub open spec fn profile_report(p: ProfileModel) -> Seq<Seq<char>> {
    let head = seq![profile_head(p)];
    if p.disabled {
        head
    } else {
        head + Seq::new(p.resolutions.len(), |i: int| slot_line(p.resolutions[i])) + Seq::new(
            p.buttons.len(),
            |i: int| button_line(p.buttons[i]),
        ) + Seq::new(p.leds.len(), |i: int| led_line(p.leds[i]))
    }
}

pub open spec fn profiles_report(s: Seq<ProfileModel>, n: nat) -> Seq<Seq<char>>
    decreases n,
{
    if n == 0 {
        Seq::empty()
    } else {
        profiles_report(s, (n - 1) as nat) + profile_report(s[n - 1])
    }
}

fn slot_text(r: &ResolutionInfo) -> (s: String)
    ensures
        s@ == slot_line(r@),
{
    let mut flags: Vec<String> = Vec::new();
    if r.is_active {
        flags.push("active".to_owned());
    }
    if r.is_default {
        flags.push("default".to_owned());
    }
    if r.is_disabled {
        flags.push("disabled".to_owned());
    }
    assert(texts(flags@) =~= flag_list(r@));
    let mut range = String::new();
    let n: usize = r.supported_dpi.len();
    if n == 0 {
        range.append("?");
    } else {
        push_dec(&mut range, r.supported_dpi[0] as u64);
        range.append("..");
        push_dec(&mut range, r.supported_dpi[n - 1] as u64);
    }
    assert(range@ =~= range_words(r@.supported_dpi));
    let mut s = "  resolution ".to_owned();
    push_dec(&mut s, r.index as u64);
    s.append(": ");
    let mut value = String::new();
    match r.dpi {
        Some(d) => push_dec(&mut value, d as u64),
        None => value.append("?"),
    }
    assert(value@ =~= dpi_text(r.dpi));
    s.append(value.as_str());
    s.append(" DPI [");
    let flags_text = joined(&flags, ",");
    s.append(flags_text.as_str());
    s.append("] (accepts ");
    s.append(range.as_str());
    s.append(", ");
    push_dec(&mut s, n as u64);
    s.append(" values)");
    s
}

fn button_text(b: &ButtonInfo) -> (s: String)
    ensures
        s@ == button_line(b@),
{
    let mut n = String::new();
    if b.index < 10 {
        n.append(" ");
    }
    push_dec(&mut n, b.index as u64);
    assert(n@ =~= two_places(b.index));
    let mut s = "  button ".to_owned();
    s.append(n.as_str());
    s.append(": ");
    s.append(b.action.as_str());
    s
}

fn led_text(l: &LedInfo) -> (s: String)
    ensures
        s@ == led_line(l@),
{
    let mut s = "  led ".to_owned();
    push_dec(&mut s, l.index as u64);
    s.append(": mode ");
    push_dec(&mut s, l.mode as u64);
    s.append(" (modes ");
    let modes = list_text(&l.modes);
    s.append(modes.as_str());
    s.append("), color ");
    s.append(l.color.as_str());
    s.append(", brightness ");
    push_dec(&mut s, l.brightness as u64);
    s.append(", color depth ");
    push_dec(&mut s, l.color_depth as u64);
    s
}

fn profile_lines(p: &ProfileInfo) -> (r: Vec<String>)
    ensures
        texts(r@) == profile_report(p@),
{
    let mut s = "profile ".to_owned();
    push_dec(&mut s, p.index as u64);
    s.append(" [");
    let state = state_text(p);
    s.append(state.as_str());
    s.append("] report rate ");
    push_dec(&mut s, p.report_rate as u64);
    s.append(" Hz (supports ");
    let rates = list_text(&p.report_rates);
    s.append(rates.as_str());
    s.append("), capabilities ");
    let capabilities = list_text(&p.capabilities);
    s.append(capabilities.as_str());
    let mut lines: Vec<String> = Vec::new();
    lines.push(s);
    let ghost head = seq![profile_head(p@)];
    assert(texts(lines@) =~= head);
    if p.disabled {
        return lines;
    }
    let ghost slots = Seq::new(p@.resolutions.len(), |i: int| slot_line(p@.resolutions[i]));
    let ghost buttons = Seq::new(p@.buttons.len(), |i: int| button_line(p@.buttons[i]));
    let ghost leds = Seq::new(p@.leds.len(), |i: int| led_line(p@.leds[i]));
    let mut i: usize = 0;
    assert(texts(lines@) =~= head + slots.take(0));
    while i < p.resolutions.len()
        invariant
            i <= p.resolutions.len(),
            slots == Seq::new(p@.resolutions.len(), |i: int| slot_line(p@.resolutions[i])),
            texts(lines@) == head + slots.take(i as int),
        decreases p.resolutions.len() - i,
    {
        push_line(&mut lines, slot_text(&p.resolutions[i]));
        assert(p@.resolutions[i as int] == p.resolutions@[i as int]@);
        i += 1;
        assert(texts(lines@) =~= head + slots.take(i as int));
    }
    assert(slots.take(slots.len() as int) =~= slots);
    i = 0;
    assert(texts(lines@) =~= head + slots + buttons.take(0));
    while i < p.buttons.len()
        invariant
            i <= p.buttons.len(),
            buttons == Seq::new(p@.buttons.len(), |i: int| button_line(p@.buttons[i])),
            texts(lines@) == head + slots + buttons.take(i as int),
        decreases p.buttons.len() - i,
    {
        push_line(&mut lines, button_text(&p.buttons[i]));
        assert(p@.buttons[i as int] == p.buttons@[i as int]@);
        i += 1;
        assert(texts(lines@) =~= head + slots + buttons.take(i as int));
    }
    assert(buttons.take(buttons.len() as int) =~= buttons);
    i = 0;
    assert(texts(lines@) =~= head + slots + buttons + leds.take(0));
    while i < p.leds.len()
        invariant
            i <= p.leds.len(),
            leds == Seq::new(p@.leds.len(), |i: int| led_line(p@.leds[i])),
            texts(lines@) == head + slots + buttons + leds.take(i as int),
        decreases p.leds.len() - i,
    {
        push_line(&mut lines, led_text(&p.leds[i]));
        assert(p@.leds[i as int] == p.leds@[i as int]@);
        i += 1;
        assert(texts(lines@) =~= head + slots + buttons + leds.take(i as int));
    }
    assert(leds.take(leds.len() as int) =~= leds);
    lines
}

/// The full device report.
pub fn report_lines(snap: &Snapshot) -> (r: Vec<String>)
    ensures
        texts(r@) == profiles_report(snap@.profiles, snap@.profiles.len()),
{
    let mut lines: Vec<String> = Vec::new();
    let mut i: usize = 0;
    assert(texts(lines@) =~= Seq::empty());
    while i < snap.profiles.len()
        invariant
            i <= snap.profiles.len(),
            texts(lines@) == profiles_report(snap@.profiles, i as nat),
        decreases snap.profiles.len() - i,
    {
        push_all(&mut lines, profile_lines(&snap.profiles[i]));
        assert(snap@.profiles[i as int] == snap.profiles@[i as int]@);
        i += 1;
    }
    lines
}

// ----------------------------------------------------------------------------- check
/// How serious a finding is.
#[derive(Clone, Copy, Debug, PartialEq, Eq)]
pub enum Level {
    Fine,
    Warning,
    Failure,
}

/// One finding of the check.
#[derive(Debug, PartialEq)]
pub struct Finding {
    pub level: Level,
    pub text: String,
}

#[verifier::ext_equal]
pub struct FindingModel {
    pub level: Level,
    pub text: Seq<char>,
}

impl View for Finding {
    type V = FindingModel;

    open spec fn view(&self) -> FindingModel {
        FindingModel { level: self.level, text: self.text@ }
    }
}

pub open spec fn fine(text: Seq<char>) -> FindingModel {
    FindingModel { level: Level::Fine, text }
}

pub open spec fn warning(text: Seq<char>) -> FindingModel {
    FindingModel { level: Level::Warning, text }
}

pub open spec fn failed(text: Seq<char>) -> FindingModel {
    FindingModel { level: Level::Failure, text }
}

/// The mark of a level in front of a finding.
pub open spec fn level_mark(level: Level) -> Seq<char> {
    match level {
        Level::Fine => "[ ok ] "@,
        Level::Warning => "[warn] "@,
        Level::Failure => "[FAIL] "@,
    }
}

impl Finding {
    /// The line that is printed.
    pub fn line(&self) -> (r: String)
        ensures
            r@ == level_mark(self@.level) + self@.text,
    {
        let mut s = match self.level {
            Level::Fine => "[ ok ] ",
            Level::Warning => "[warn] ",
            Level::Failure => "[FAIL] ",
        }.to_owned();
        s.append(self.text.as_str());
        s
    }
}

/// The check as a whole failed: one of its findings is a failure.
pub fn has_failure(findings: &Vec<Finding>) -> (r: bool)
    ensures
        r == exists|i: int|
            0 <= i < findings@.len() && (#[trigger] findings@[i]).level == Level::Failure,
{
    let mut i: usize = 0;
    while i < findings.len()
        invariant
            i <= findings.len(),
            forall|j: int| 0 <= j < i ==> (#[trigger] findings@[j]).level != Level::Failure,
        decreases findings.len() - i,
    {
        if matches!(findings[i].level, Level::Failure) {
            assert(findings@[i as int].level == Level::Failure);
            return true;
        }
        i += 1;
    }
    false
}

fn note(a: &mut Vec<Finding>, level: Level, text: String)
    ensures
        views(final(a)@) == views(old(a)@).push(FindingModel { level, text: text@ }),
{
    a.push(Finding { level, text });
    assert(views(a@) =~= views(old(a)@).push(FindingModel { level, text: text@ }));
}

/// Where the config came from.
pub fn config_finding(path: Option<&str>) -> (r: Finding)
    ensures
        r@ == (match path {
            Some(p) => fine("config "@ + p@),
            None => fine("no config file, using built-in defaults"@),
        }),
{
    match path {
        Some(p) => {
            let mut s = "config ".to_owned();
            s.append(p);
            Finding { level: Level::Fine, text: s }
        },
        None => Finding {
            level: Level::Fine,
            text: "no config file, using built-in defaults".to_owned(),
        },
    }
}

/// The device that was found, and whether it is the tested one.
pub open spec fn device_findings_of(d: DeviceConfig, name: Seq<char>, model: Seq<char>) -> Seq<
    FindingModel,
> {
    let found = fine("ratbagd: "@ + name + " ("@ + model + ")"@);
    if d.vendor != 0x046d || d.product != 0xc08b || !occurs("G502 HERO"@, name) {
        seq![
            found,
            warning(
                "only the Logitech G502 HERO (046d:c08b) has been tested; this device may behave differently"@,
            ),
        ]
    } else {
        seq![found]
    }
}

pub fn device_findings(cfg: &Config, name: &str, model: &str) -> (r: Vec<Finding>)
    ensures
        views(r@) == device_findings_of(cfg@.device, name@, model@),
{
    let mut out: Vec<Finding> = Vec::new();
    let mut s = "ratbagd: ".to_owned();
    s.append(name);
    s.append(" (");
    s.append(model);
    s.append(")");
    note(&mut out, Level::Fine, s);
    if cfg.device.vendor != 0x046d || cfg.device.product != 0xc08b || !occurs_in("G502 HERO", name) {
        note(
            &mut out,
            Level::Warning,
            "only the Logitech G502 HERO (046d:c08b) has been tested; this device may behave differently".to_owned(),
        );
    }
    assert(views(out@) =~= device_findings_of(cfg@.device, name@, model@));
    out
}

/// Whether the shared DPI can be controlled; if not, why.
pub open spec fn control_finding_of(dpi: DpiModel, problem: Option<Failure>) -> FindingModel {
    match problem {
        None => fine(
            "DPI control validated: profiles "@ + number_list(dpi.profiles) + ", slot "@ + dec(
                dpi.shared_slot as nat,
            ) + ", stages "@ + number_list(dpi.values) + " all supported"@,
        ),
        Some(e) => failed("DPI control not usable: "@ + join(e, ": "@)),
    }
}

fn control_finding(cfg: &Config, problem: &Option<Error>) -> (r: Finding)
    ensures
        r@ == control_finding_of(
            cfg@.dpi,
            match *problem {
                Some(e) => Some(e@),
                None => None,
            },
        ),
{
    match problem {
        None => {
            let mut s = "DPI control validated: profiles ".to_owned();
            let profiles = list_text(&cfg.dpi.profiles);
            s.append(profiles.as_str());
            s.append(", slot ");
            push_dec(&mut s, cfg.dpi.shared_slot as u64);
            s.append(", stages ");
            let stages = list_text(&cfg.dpi.values);
            s.append(stages.as_str());
            s.append(" all supported");
            Finding { level: Level::Fine, text: s }
        },
        Some(e) => {
            let mut s = "DPI control not usable: ".to_owned();
            let m = e.message();
            s.append(m.as_str());
            Finding { level: Level::Failure, text: s }
        },
    }
}

/// The shared slot of profile `p`, if the device has it.
pub open spec fn shared_slot_of(s: SnapshotModel, dpi: DpiModel, p: u32) -> Option<ResolutionModel> {
    if p < s.profiles.len() && dpi.shared_slot < s.profiles[p as int].resolutions.len() {
        Some(s.profiles[p as int].resolutions[dpi.shared_slot as int])
    } else {
        None
    }
}

/// The DPI values of the first `n` synced profiles, and a finding for each shared slot
/// that the mouse may not use.
pub open spec fn slots_checked(s: SnapshotModel, dpi: DpiModel, n: nat) -> (
    Seq<Option<u32>>,
    Seq<FindingModel>,
)
    decreases n,
{
    if n == 0 {
        (Seq::empty(), Seq::empty())
    } else {
        let (values, findings) = slots_checked(s, dpi, (n - 1) as nat);
        let p = dpi.profiles[n - 1];
        match shared_slot_of(s, dpi, p) {
            None => (values, findings),
            Some(r) => (
                values.push(r.dpi),
                if r.is_active && r.is_default {
                    findings
                } else {
                    findings.push(
                        warning(
                            "profile "@ + dec(p as nat) + " slot "@ + dec(r.index as nat)
                                + " is not active+default; the mouse may not use the shared DPI"@,
                        ),
                    )
                },
            ),
        }
    }
}

/// `v` without repetitions in a row.
pub open spec fn deduped(v: Seq<Option<u32>>) -> Seq<Option<u32>>
    decreases v.len(),
{
    if v.len() == 0 {
        Seq::empty()
    } else {
        let before = deduped(v.drop_last());
        if before.len() > 0 && before.last() == v.last() {
            before
        } else {
            before.push(v.last())
        }
    }
}

/// A value that may be missing, as in a list of such.
pub open spec fn maybe_text(v: Option<u32>) -> Seq<char> {
    match v {
        Some(d) => "Some("@ + dec(d as nat) + ")"@,
        None => "None"@,
    }
}

pub open spec fn maybe_list(v: Seq<Option<u32>>) -> Seq<char> {
    "["@ + join(Seq::new(v.len(), |i: int| maybe_text(v[i])), ", "@) + "]"@
}

fn maybe_list_text(v: &Vec<Option<u32>>) -> (r: String)
    ensures
        r@ == maybe_list(v@),
{
    let mut parts: Vec<String> = Vec::new();
    let mut i: usize = 0;
    while i < v.len()
        invariant
            i <= v.len(),
            parts.len() == i,
            forall|j: int| 0 <= j < i ==> (#[trigger] parts@[j])@ == maybe_text(v@[j]),
        decreases v.len() - i,
    {
        let part = match v[i] {
            Some(d) => {
                let mut s = "Some(".to_owned();
                push_dec(&mut s, d as u64);
                s.append(")");
                s
            },
            None => "None".to_owned(),
        };
        parts.push(part);
        i += 1;
    }
    assert(texts(parts@) =~= Seq::new(v@.len(), |i: int| maybe_text(v@[i])));
    let mut s = "[".to_owned();
    let list = joined(&parts, ", ");
    s.append(list.as_str());
    s.append("]");
    s
}

/// The findings on the shared slots.
pub open spec fn slot_findings_of(s: SnapshotModel, dpi: DpiModel) -> Seq<FindingModel> {
    let (values, findings) = slots_checked(s, dpi, dpi.profiles.len());
    let different = deduped(values);
    if different.len() > 1 {
        findings.push(
            warning(
                "synced profiles currently disagree on DPI ("@ + maybe_list(different)
                    + "); the next change resyncs them"@,
            ),
        )
    } else {
        findings
    }
}

fn slot_findings(snap: &Snapshot, cfg: &Config) -> (r: Vec<Finding>)
    ensures
        views(r@) == slot_findings_of(snap@, cfg@.dpi),
{
    let mut out: Vec<Finding> = Vec::new();
    let mut different: Vec<Option<u32>> = Vec::new();
    let slot = cfg.dpi.shared_slot;
    let mut i: usize = 0;
    assert(views(out@) =~= Seq::empty());
    assert(different@ =~= deduped(Seq::empty()));
    while i < cfg.dpi.profiles.len()
        invariant
            i <= cfg.dpi.profiles.len(),
            slot == cfg.dpi.shared_slot,
            views(out@) == slots_checked(snap@, cfg@.dpi, i as nat).1,
            different@ == deduped(slots_checked(snap@, cfg@.dpi, i as nat).0),
        decreases cfg.dpi.profiles.len() - i,
    {
        let p = cfg.dpi.profiles[i];
        let ghost values = slots_checked(snap@, cfg@.dpi, i as nat).0;
        if (p as usize) < snap.profiles.len() && (slot as usize)
            < snap.profiles[p as usize].resolutions.len() {
            let r = &snap.profiles[p as usize].resolutions[slot as usize];
            assert(shared_slot_of(snap@, cfg@.dpi, p) == Some(r@)) by {
                assert(snap@.profiles[p as int] == snap.profiles@[p as int]@);
            }
            assert(values.push(r.dpi).drop_last() =~= values);
            let n: usize = different.len();
            let repeated = n > 0 && match (different[n - 1], r.dpi) {
                (Some(a), Some(b)) => a == b,
                (None, None) => true,
                _ => false,
            };
            if !repeated {
                different.push(r.dpi);
            }
            if !(r.is_active && r.is_default) {
                let mut s = "profile ".to_owned();
                push_dec(&mut s, p as u64);
                s.append(" slot ");
                push_dec(&mut s, r.index as u64);
                s.append(" is not active+default; the mouse may not use the shared DPI");
                note(&mut out, Level::Warning, s);
            }
        } else {
            assert(shared_slot_of(snap@, cfg@.dpi, p) is None) by {
                if p < snap@.profiles.len() {
                    assert(snap@.profiles[p as int] == snap.profiles@[p as int]@);
                }
            }
        }
        i += 1;
    }
    if different.len() > 1 {
        let mut s = "synced profiles currently disagree on DPI (".to_owned();
        let list = maybe_list_text(&different);
        s.append(list.as_str());
        s.append("); the next change resyncs them");
        note(&mut out, Level::Warning, s);
    }
    out
}

/// The button taps the key `code` as a macro.
pub open spec fn taps(b: ButtonModel, code: u32) -> bool {
    b.raw_type == 4 && b.raw_value == Some(RawModel::MacroEvents(tap(code)))
}

/// The first `n` buttons of profile `p` that tap the key, as `pPbB`.
pub open spec fn taps_in_profile(p: ProfileModel, code: u32, n: nat) -> Seq<Seq<char>>
    decreases n,
{
    if n == 0 {
        Seq::empty()
    } else {
        let before = taps_in_profile(p, code, (n - 1) as nat);
        if taps(p.buttons[n - 1], code) {
            before.push("p"@ + dec(p.index as nat) + "b"@ + dec(p.buttons[n - 1].index as nat))
        } else {
            before
        }
    }
}

/// The buttons of the first `n` profiles that tap the key.
pub open spec fn taps_in(s: Seq<ProfileModel>, code: u32, n: nat) -> Seq<Seq<char>>
    decreases n,
{
    if n == 0 {
        Seq::empty()
    } else {
        taps_in(s, code, (n - 1) as nat) + taps_in_profile(
            s[n - 1],
            code,
            s[n - 1].buttons.len(),
        )
    }
}

/// Which buttons feed the daemon a key.
pub open spec fn macro_finding_of(s: SnapshotModel, code: u32, name: Seq<char>) -> FindingModel {
    let found = taps_in(s.profiles, code, s.profiles.len());
    if found.len() == 0 {
        warning(
            "no button is mapped to macro "@ + name + "; the daemon will never see it"@,
        )
    } else {
        fine("macro "@ + name + " on "@ + join(found, ", "@))
    }
}

fn profile_taps(p: &ProfileInfo, code: u32) -> (r: Vec<String>)
    ensures
        texts(r@) == taps_in_profile(p@, code, p@.buttons.len()),
{
    let mut out: Vec<String> = Vec::new();
    let mut i: usize = 0;
    assert(texts(out@) =~= Seq::empty());
    while i < p.buttons.len()
        invariant
            i <= p.buttons.len(),
            texts(out@) == taps_in_profile(p@, code, i as nat),
        decreases p.buttons.len() - i,
    {
        let b = &p.buttons[i];
        assert(p@.buttons[i as int] == b@);
        if is_macro_of(b.raw_type, &b.raw_value, code) {
            let mut s = "p".to_owned();
            push_dec(&mut s, p.index as u64);
            s.append("b");
            push_dec(&mut s, b.index as u64);
            push_line(&mut out, s);
        }
        i += 1;
    }
    out
}

fn macro_finding(snap: &Snapshot, code: u32, name: &str) -> (r: Finding)
    ensures
        r@ == macro_finding_of(snap@, code, name@),
{
    let mut found: Vec<String> = Vec::new();
    let mut i: usize = 0;
    assert(texts(found@) =~= Seq::empty());
    while i < snap.profiles.len()
        invariant
            i <= snap.profiles.len(),
            texts(found@) == taps_in(snap@.profiles, code, i as nat),
        decreases snap.profiles.len() - i,
    {
        assert(snap@.profiles[i as int] == snap.profiles@[i as int]@);
        push_all(&mut found, profile_taps(&snap.profiles[i], code));
        i += 1;
    }
    assert(texts(found@).len() == found@.len());
    if found.len() == 0 {
        let mut s = "no button is mapped to macro ".to_owned();
        s.append(name);
        s.append("; the daemon will never see it");
        Finding { level: Level::Warning, text: s }
    } else {
        let mut s = "macro ".to_owned();
        s.append(name);
        s.append(" on ");
        let list = joined(&found, ", ");
        s.append(list.as_str());
        Finding { level: Level::Fine, text: s }
    }
}

/// Whether the endpoint with the two keys can be read.
pub open spec fn endpoint_finding_of(path: Option<Seq<char>>) -> FindingModel {
    match path {
        Some(p) => fine("evdev endpoint "@ + p + " readable (has KEY_F13/KEY_F14)"@),
        None => warning(
            "no readable evdev endpoint with KEY_F13/KEY_F14 (permissions? profile without F13/F14 macros?)"@,
        ),
    }
}

fn endpoint_finding(path: Option<&str>) -> (r: Finding)
    ensures
        r@ == endpoint_finding_of(optional_str(path)),
{
    match path {
        Some(p) => {
            let mut s = "evdev endpoint ".to_owned();
            s.append(p);
            s.append(" readable (has KEY_F13/KEY_F14)");
            Finding { level: Level::Fine, text: s }
        },
        None => Finding {
            level: Level::Warning,
            text: "no readable evdev endpoint with KEY_F13/KEY_F14 (permissions? profile without F13/F14 macros?)".to_owned(),
        },
    }
}

/// How the device compares with the `[profiles.*]` settings: in how many places it
/// differs, or why they cannot be applied.
pub open spec fn config_words(diff: Result<nat, Seq<char>>) -> Seq<char> {
    match diff {
        Ok(n) => if n == 0 {
            "Config: the device matches the [profiles.*] settings in your config."@
        } else {
            "Config: the device differs from your config in "@ + dec(n)
                + " place(s). `g502ctl apply --dry-run` lists them."@
        },
        Err(e) => "Config cannot be applied to this device: "@ + e,
    }
}

/// A count or an error by its text.
pub open spec fn diff_model(d: Result<usize, String>) -> Result<nat, Seq<char>> {
    match d {
        Ok(n) => Ok(n as nat),
        Err(e) => Err(e@),
    }
}

pub fn config_line(diff: &Result<usize, String>) -> (r: String)
    ensures
        r@ == config_words(diff_model(*diff)),
{
    match diff {
        Ok(n) => {
            if *n == 0 {
                return "Config: the device matches the [profiles.*] settings in your config.".to_owned();
            }
            let mut s = "Config: the device differs from your config in ".to_owned();
            push_dec(&mut s, *n as u64);
            s.append(" place(s). `g502ctl apply --dry-run` lists them.");
            s
        },
        Err(e) => {
            let mut s = "Config cannot be applied to this device: ".to_owned();
            s.append(e.as_str());
            s
        },
    }
}

/// In how many places the device differs from `[profiles.*]` in the config, or why that
/// cannot be applied; none where the config names no profiles.
pub open spec fn diff_of(s: SnapshotModel, c: ConfigModel) -> Option<Result<nat, Seq<char>>> {
    if c.profiles.len() == 0 {
        None
    } else {
        match overlay_of(s, c) {
            Err(e) => Some(Err(join(e, ": "@))),
            Ok(t) => match plan_of(s, t) {
                Err(e) => Some(Err(join(e, ": "@))),
                Ok(p) => Some(Ok(p.len())),
            },
        }
    }
}

pub fn config_diff(snap: &Snapshot, cfg: &Config) -> (r: Option<Result<usize, String>>)
    ensures
        match (r, diff_of(snap@, cfg@)) {
            (Some(d), Some(m)) => diff_model(d) == m,
            (None, None) => true,
            _ => false,
        },
{
    if pairs(&cfg.profiles).len() == 0 {
        return None;
    }
    match overlay(snap, cfg) {
        Err(e) => Some(Err(e.message())),
        Ok(t) => match plan(snap, &t) {
            Err(e) => Some(Err(e.message())),
            Ok(p) => Some(Ok(p.len())),
        },
    }
}

/// The finding on the `[profiles.*]` settings, where the config has any: whether the
/// device matches them.
pub open spec fn config_findings_of(s: SnapshotModel, c: ConfigModel) -> Seq<FindingModel> {
    match diff_of(s, c) {
        None => Seq::empty(),
        Some(d) => seq![
            if d == Ok::<nat, Seq<char>>(0) {
                fine(config_words(d))
            } else {
                warning(config_words(d))
            },
        ],
    }
}

/// All findings on a device that was found, in the order they are printed.
pub open spec fn check_of(
    s: SnapshotModel,
    c: ConfigModel,
    problem: Option<Failure>,
    endpoint: Option<Seq<char>>,
) -> Seq<FindingModel> {
    seq![control_finding_of(c.dpi, problem)] + slot_findings_of(s, c.dpi) + seq![
        macro_finding_of(s, KEY_F13 as u32, "F13 (DPI down)"@),
        macro_finding_of(s, KEY_F14 as u32, "F14 (DPI up)"@),
        endpoint_finding_of(endpoint),
    ] + config_findings_of(s, c)
}

fn note_one(a: &mut Vec<Finding>, f: Finding)
    ensures
        views(final(a)@) == views(old(a)@).push(f@),
{
    a.push(f);
    assert(views(a@) =~= views(old(a)@).push(f@));
}

fn note_all(a: &mut Vec<Finding>, b: Vec<Finding>)
    ensures
        views(final(a)@) == views(old(a)@) + views(b@),
{
    let mut more = b;
    a.append(&mut more);
    assert(views(a@) =~= views(old(a)@) + views(b@));
}

/// The check of a device. `problem` is why the shared DPI cannot be controlled,
/// `endpoint` the node with the two keys.
pub fn check(snap: &Snapshot, cfg: &Config, problem: &Option<Error>, endpoint: Option<&str>) -> (r:
    Vec<Finding>)
    ensures
        views(r@) == check_of(
            snap@,
            cfg@,
            match *problem {
                Some(e) => Some(e@),
                None => None,
            },
            optional_str(endpoint),
        ),
{
    let mut out: Vec<Finding> = Vec::new();
    note_one(&mut out, control_finding(cfg, problem));
    let ghost control = views(out@)[0];
    assert(views(out@) =~= seq![control]);
    note_all(&mut out, slot_findings(snap, cfg));
    note_one(&mut out, macro_finding(snap, KEY_F13 as u32, "F13 (DPI down)"));
    note_one(&mut out, macro_finding(snap, KEY_F14 as u32, "F14 (DPI up)"));
    note_one(&mut out, endpoint_finding(endpoint));
    let ghost head = views(out@);
    assert(head =~= seq![control] + slot_findings_of(snap@, cfg@.dpi) + seq![
        macro_finding_of(snap@, KEY_F13 as u32, "F13 (DPI down)"@),
        macro_finding_of(snap@, KEY_F14 as u32, "F14 (DPI up)"@),
        endpoint_finding_of(optional_str(endpoint)),
    ]);
    if let Some(d) = config_diff(snap, cfg) {
        let matches = match d {
            Ok(n) => n == 0,
            Err(_) => false,
        };
        let level = if matches {
            Level::Fine
        } else {
            Level::Warning
        };
        note(&mut out, level, config_line(&d));
    }
    assert(views(out@) =~= head + config_findings_of(snap@, cfg@));
    out
}

// ---------------------------------------------------------------------------- laws
/// A check says that the device matches the config exactly where applying the config
/// would change nothing, and warns of it exactly where the config cannot be applied or
/// would change something.
pub proof fn a_check_reports_whether_the_config_matches(s: SnapshotModel, c: ConfigModel)
    requires
        c.profiles.len() > 0,
    ensures
        config_findings_of(s, c).len() == 1,
        config_findings_of(s, c)[0].level == Level::Fine <==> overlay_of(s, c) is Ok && plan_of(
            s,
            overlay_of(s, c)->Ok_0,
        ) == nothing(),
        config_findings_of(s, c)[0].level == Level::Warning <==> overlay_of(s, c) is Err || plan_of(
            s,
            overlay_of(s, c)->Ok_0,
        ) != nothing(),
{
    if overlay_of(s, c) is Ok {
        let p = plan_of(s, overlay_of(s, c)->Ok_0);
        if p is Ok && p->Ok_0.len() == 0 {
            assert(p->Ok_0 =~= Seq::empty());
        }
    }
}

/// A DPI is labelled with the number of the stage that it is, counted from one; it is off the
/// stages exactly where it is none of them.
pub proof fn a_stage_is_labelled_by_its_place(stages: Seq<u32>, dpi: u32)
    ensures
        first_index(stages, dpi) matches Some(i) ==> i < stages.len() && stages[i as int] == dpi
            && label_of(stages, dpi) == "stage "@ + dec(i + 1) + " of "@ + dec(stages.len())
            && forall|k: int| 0 <= k < i ==> #[trigger] stages[k] != dpi,
        first_index(stages, dpi) is None ==> label_of(stages, dpi) == "off-stage"@ && forall|k: int|
            0 <= k < stages.len() ==> #[trigger] stages[k] != dpi,
    decreases stages.len(),
{
    if stages.len() > 0 && stages[0] != dpi {
        let rest = stages.skip(1);
        a_stage_is_labelled_by_its_place(rest, dpi);
        if first_index(stages, dpi) is Some {
            let i = first_index(stages, dpi)->0;
            assert(rest[i - 1] == stages[i as int]);
            assert forall|k: int| 0 <= k < i implies #[trigger] stages[k] != dpi by {
                if k > 0 {
                    assert(rest[k - 1] == stages[k]);
                }
            }
        } else {
            assert forall|k: int| 0 <= k < stages.len() implies #[trigger] stages[k] != dpi by {
                if k > 0 {
                    assert(rest[k - 1] == stages[k]);
                }
            }
        }
    }
}

/// A synced profile is told to be out of sync exactly where its slot does not have the shared
/// DPI.
pub proof fn profiles_out_of_sync_are_told(
    profiles: Seq<u32>,
    values: Seq<Option<u32>>,
    shared: u32,
    n: nat,
    p: u32,
)
    requires
        n <= profiles.len() == values.len(),
    ensures
        out_of_sync(profiles, values, shared, n).contains(p) <==> exists|i: int|
            0 <= i < n && #[trigger] profiles[i] == p && values[i] != Some(shared),
    decreases n,
{
    if n > 0 {
        let before = out_of_sync(profiles, values, shared, (n - 1) as nat);
        let now = out_of_sync(profiles, values, shared, n);
        profiles_out_of_sync_are_told(profiles, values, shared, (n - 1) as nat, p);
        if before.contains(p) {
            let k = choose|k: int| 0 <= k < before.len() && before[k] == p;
            assert(now[k] == p);
        }
        if now.contains(p) && !before.contains(p) {
            let k = choose|k: int| 0 <= k < now.len() && now[k] == p;
            assert(k < before.len() ==> before[k] == p);
            assert(profiles[n - 1] == p);
        }
        if profiles[n - 1] == p && values[n - 1] != Some(shared) {
            assert(now[before.len() as int] == p);
        }
    }
}

/// A check warns of a device that is not the tested one, by its id or its name, and of no
/// other.
pub proof fn an_untested_device_is_warned_of(d: DeviceConfig, name: Seq<char>, model: Seq<char>)
    ensures
        device_findings_of(d, name, model).len() >= 1,
        device_findings_of(d, name, model)[0].level == Level::Fine,
        device_findings_of(d, name, model).len() == 1 <==> d.vendor == 0x046d && d.product == 0xc08b
            && occurs("G502 HERO"@, name),
        device_findings_of(d, name, model).len() > 1 ==> device_findings_of(d, name, model).len() == 2
            && device_findings_of(d, name, model)[1].level == Level::Warning,
{
}

proof fn lemma_taps_in_profile(p: ProfileModel, code: u32, n: nat)
    requires
        n <= p.buttons.len(),
    ensures
        taps_in_profile(p, code, n).len() > 0 <==> exists|j: int|
            0 <= j < n && taps(#[trigger] p.buttons[j], code),
    decreases n,
{
    if n > 0 {
        lemma_taps_in_profile(p, code, (n - 1) as nat);
        if taps(p.buttons[n - 1], code) {
            assert(taps_in_profile(p, code, n).len() > 0);
        }
    }
}

proof fn lemma_taps_in(s: Seq<ProfileModel>, code: u32, n: nat)
    requires
        n <= s.len(),
    ensures
        taps_in(s, code, n).len() > 0 <==> exists|i: int, j: int|
            0 <= i < n && 0 <= j < s[i].buttons.len() && taps(#[trigger] s[i].buttons[j], code),
    decreases n,
{
    if n > 0 {
        lemma_taps_in(s, code, (n - 1) as nat);
        let last = s[n - 1];
        lemma_taps_in_profile(last, code, last.buttons.len());
        if taps_in_profile(last, code, last.buttons.len()).len() > 0 {
            let j = choose|j: int| 0 <= j < last.buttons.len() && taps(#[trigger] last.buttons[j], code);
            assert(taps(s[n - 1].buttons[j], code));
        }
        if exists|i: int, j: int|
            0 <= i < n && 0 <= j < s[i].buttons.len() && taps(#[trigger] s[i].buttons[j], code) {
            let (i, j) = choose|i: int, j: int|
                0 <= i < n && 0 <= j < s[i].buttons.len() && taps(#[trigger] s[i].buttons[j], code);
            if i == n - 1 {
                assert(taps(last.buttons[j], code));
            }
        }
    }
}

/// A check is fine with a key of g502d exactly where a button of some profile presses and
/// releases it as a macro, and warns otherwise.
pub proof fn a_missing_macro_is_warned_of(s: SnapshotModel, code: u32, name: Seq<char>)
    ensures
        macro_finding_of(s, code, name).level == Level::Fine <==> exists|i: int, j: int|
            0 <= i < s.profiles.len() && 0 <= j < s.profiles[i].buttons.len() && (
            #[trigger] s.profiles[i].buttons[j]).raw_type == 4 && s.profiles[i].buttons[j].raw_value
                == Some(RawModel::MacroEvents(seq![(1u32, code), (2u32, code)])),
        macro_finding_of(s, code, name).level == Level::Fine || macro_finding_of(s, code, name).level
            == Level::Warning,
{
    lemma_taps_in(s.profiles, code, s.profiles.len());
    if macro_finding_of(s, code, name).level == Level::Fine {
        let (i, j) = choose|i: int, j: int|
            0 <= i < s.profiles.len() && 0 <= j < s.profiles[i].buttons.len() && taps(
                #[trigger] s.profiles[i].buttons[j],
                code,
            );
        assert(s.profiles[i].buttons[j].raw_type == 4);
    }
    if exists|i: int, j: int|
        0 <= i < s.profiles.len() && 0 <= j < s.profiles[i].buttons.len() && (
        #[trigger] s.profiles[i].buttons[j]).raw_type == 4 && s.profiles[i].buttons[j].raw_value
            == Some(RawModel::MacroEvents(seq![(1u32, code), (2u32, code)])) {
        let (i, j) = choose|i: int, j: int|
            0 <= i < s.profiles.len() && 0 <= j < s.profiles[i].buttons.len() && (
            #[trigger] s.profiles[i].buttons[j]).raw_type == 4 && s.profiles[i].buttons[j].raw_value
                == Some(RawModel::MacroEvents(seq![(1u32, code), (2u32, code)]));
        assert(taps(s.profiles[i].buttons[j], code));
    }
}

proof fn lemma_deduped(v: Seq<Option<u32>>)
    ensures
        deduped(v).len() == 0 <==> v.len() == 0,
        v.len() > 0 ==> deduped(v).last() == v.last(),
        deduped(v).len() <= 1 <==> forall|i: int, j: int|
            0 <= i < v.len() && 0 <= j < v.len() ==> #[trigger] v[i] == #[trigger] v[j],
    decreases v.len(),
{
    if v.len() > 0 {
        let init = v.drop_last();
        lemma_deduped(init);
        if deduped(v).len() <= 1 {
            assert forall|i: int, j: int|
                0 <= i < v.len() && 0 <= j < v.len() implies #[trigger] v[i] == #[trigger] v[j] by {
                if init.len() > 0 {
                    assert(init[init.len() - 1] == v.last());
                    if i < init.len() {
                        assert(init[i] == init[init.len() - 1]);
                    }
                    if j < init.len() {
                        assert(init[j] == init[init.len() - 1]);
                    }
                }
            }
        }
        if forall|i: int, j: int|
            0 <= i < v.len() && 0 <= j < v.len() ==> #[trigger] v[i] == #[trigger] v[j] {
            assert forall|i: int, j: int|
                0 <= i < init.len() && 0 <= j < init.len() implies #[trigger] init[i]
                == #[trigger] init[j] by {
                assert(v[i] == v[j]);
            }
            if init.len() > 0 {
                assert(v[init.len() - 1] == v[v.len() - 1]);
            }
        }
    }
}

/// Every value comes from a synced slot that the device has, and every such slot has its
/// value among them.
proof fn lemma_slots_checked(s: SnapshotModel, dpi: DpiModel, n: nat)
    requires
        n <= dpi.profiles.len(),
    ensures
        forall|k: int|
            0 <= k < slots_checked(s, dpi, n).0.len() ==> exists|i: int|
                0 <= i < n && shared_slot_of(s, dpi, #[trigger] dpi.profiles[i]) is Some
                    && shared_slot_of(s, dpi, dpi.profiles[i])->0.dpi == #[trigger] slots_checked(
                    s,
                    dpi,
                    n,
                ).0[k],
        forall|i: int|
            0 <= i < n && shared_slot_of(s, dpi, #[trigger] dpi.profiles[i]) is Some
                ==> slots_checked(s, dpi, n).0.contains(
                shared_slot_of(s, dpi, dpi.profiles[i])->0.dpi,
            ),
        slots_checked(s, dpi, n).1.len() == 0 <==> forall|i: int|
            0 <= i < n && shared_slot_of(s, dpi, #[trigger] dpi.profiles[i]) is Some
                ==> shared_slot_of(s, dpi, dpi.profiles[i])->0.is_active && shared_slot_of(
                s,
                dpi,
                dpi.profiles[i],
            )->0.is_default,
        forall|k: int|
            0 <= k < slots_checked(s, dpi, n).1.len() ==> (#[trigger] slots_checked(
                s,
                dpi,
                n,
            ).1[k]).level == Level::Warning,
    decreases n,
{
    if n > 0 {
        lemma_slots_checked(s, dpi, (n - 1) as nat);
        let (values, findings) = slots_checked(s, dpi, (n - 1) as nat);
        let (now, noted) = slots_checked(s, dpi, n);
        let p = dpi.profiles[n - 1];
        assert forall|k: int| 0 <= k < now.len() implies exists|i: int|
            0 <= i < n && shared_slot_of(s, dpi, #[trigger] dpi.profiles[i]) is Some
                && shared_slot_of(s, dpi, dpi.profiles[i])->0.dpi == #[trigger] now[k] by {
            if k < values.len() {
                assert(values[k] == now[k]);
                let i = choose|i: int|
                    0 <= i < n - 1 && shared_slot_of(s, dpi, #[trigger] dpi.profiles[i]) is Some
                        && shared_slot_of(s, dpi, dpi.profiles[i])->0.dpi == values[k];
                assert(shared_slot_of(s, dpi, dpi.profiles[i]) is Some);
            } else {
                assert(shared_slot_of(s, dpi, dpi.profiles[n - 1]) is Some);
            }
        }
        assert forall|i: int|
            0 <= i < n && shared_slot_of(s, dpi, #[trigger] dpi.profiles[i]) is Some implies now.contains(
            shared_slot_of(s, dpi, dpi.profiles[i])->0.dpi,
        ) by {
            let want = shared_slot_of(s, dpi, dpi.profiles[i])->0.dpi;
            if i == n - 1 {
                assert(now[values.len() as int] == want);
            } else {
                assert(values.contains(want));
                let k = choose|k: int| 0 <= k < values.len() && values[k] == want;
                assert(now[k] == want);
            }
        }
        assert forall|k: int| 0 <= k < noted.len() implies (#[trigger] noted[k]).level
            == Level::Warning by {
            if k < findings.len() {
                assert(noted[k] == findings[k]);
            }
        }
        if noted.len() == 0 {
            assert(findings.len() == 0);
        } else if findings.len() == 0 {
            assert(shared_slot_of(s, dpi, dpi.profiles[n - 1]) is Some);
        }
    }
}

/// A check has nothing to say of the shared slots exactly where each that the device has is
/// the active and the default one of its profile, and all have the same DPI. What it has to
/// say are warnings.
pub proof fn shared_slots_are_warned_of(s: SnapshotModel, dpi: DpiModel)
    ensures
        slot_findings_of(s, dpi).len() == 0 <==> {
            &&& forall|i: int|
                0 <= i < dpi.profiles.len() && shared_slot_of(s, dpi, #[trigger] dpi.profiles[i]) is Some
                    ==> shared_slot_of(s, dpi, dpi.profiles[i])->0.is_active && shared_slot_of(
                    s,
                    dpi,
                    dpi.profiles[i],
                )->0.is_default
            &&& forall|i: int, j: int|
                0 <= i < dpi.profiles.len() && 0 <= j < dpi.profiles.len() && shared_slot_of(
                    s,
                    dpi,
                    #[trigger] dpi.profiles[i],
                ) is Some && shared_slot_of(s, dpi, #[trigger] dpi.profiles[j]) is Some
                    ==> shared_slot_of(s, dpi, dpi.profiles[i])->0.dpi == shared_slot_of(
                    s,
                    dpi,
                    dpi.profiles[j],
                )->0.dpi
        },
        forall|k: int|
            0 <= k < slot_findings_of(s, dpi).len() ==> (#[trigger] slot_findings_of(
                s,
                dpi,
            )[k]).level == Level::Warning,
{
    let n = dpi.profiles.len();
    lemma_slots_checked(s, dpi, n);
    let (values, findings) = slots_checked(s, dpi, n);
    lemma_deduped(values);
    if deduped(values).len() <= 1 {
        assert forall|i: int, j: int|
            0 <= i < n && 0 <= j < n && shared_slot_of(s, dpi, #[trigger] dpi.profiles[i]) is Some
                && shared_slot_of(s, dpi, #[trigger] dpi.profiles[j]) is Some implies shared_slot_of(
            s,
            dpi,
            dpi.profiles[i],
        )->0.dpi == shared_slot_of(s, dpi, dpi.profiles[j])->0.dpi by {
            let a = shared_slot_of(s, dpi, dpi.profiles[i])->0.dpi;
            let b = shared_slot_of(s, dpi, dpi.profiles[j])->0.dpi;
            assert(values.contains(a) && values.contains(b));
            let x = choose|x: int| 0 <= x < values.len() && values[x] == a;
            let y = choose|y: int| 0 <= y < values.len() && values[y] == b;
            assert(values[x] == values[y]);
        }
    } else {
        let (x, y) = choose|x: int, y: int|
            0 <= x < values.len() && 0 <= y < values.len() && #[trigger] values[x]
                != #[trigger] values[y];
        let i = choose|i: int|
            0 <= i < n && shared_slot_of(s, dpi, #[trigger] dpi.profiles[i]) is Some
                && shared_slot_of(s, dpi, dpi.profiles[i])->0.dpi == values[x];
        let j = choose|j: int|
            0 <= j < n && shared_slot_of(s, dpi, #[trigger] dpi.profiles[j]) is Some
                && shared_slot_of(s, dpi, dpi.profiles[j])->0.dpi == values[y];
        assert(shared_slot_of(s, dpi, dpi.profiles[i])->0.dpi != shared_slot_of(
            s,
            dpi,
            dpi.profiles[j],
        )->0.dpi);
    }
}

/// A check fails exactly where the shared DPI cannot be controlled; all else that it finds
/// wrong is a warning.
pub proof fn a_check_fails_where_the_dpi_cannot_be_controlled(
    s: SnapshotModel,
    c: ConfigModel,
    problem: Option<Failure>,
    endpoint: Option<Seq<char>>,
)
    ensures
        (exists|i: int|
            0 <= i < check_of(s, c, problem, endpoint).len() && (#[trigger] check_of(
                s,
                c,
                problem,
                endpoint,
            )[i]).level == Level::Failure) <==> problem is Some,
        endpoint_finding_of(endpoint).level == Level::Fine <==> endpoint is Some,
        endpoint_finding_of(endpoint).level == Level::Warning <==> endpoint is None,
{
    let all = check_of(s, c, problem, endpoint);
    let slots = slot_findings_of(s, c.dpi);
    shared_slots_are_warned_of(s, c.dpi);
    assert(all[0] == control_finding_of(c.dpi, problem));
    assert forall|i: int| 0 < i < all.len() implies (#[trigger] all[i]).level != Level::Failure by {
        let n = slots.len() as int;
        if i - 1 < n {
            assert(all[i] == slots[i - 1]);
        } else if i - 1 == n {
            assert(all[i] == macro_finding_of(s, KEY_F13 as u32, "F13 (DPI down)"@));
        } else if i - 1 == n + 1 {
            assert(all[i] == macro_finding_of(s, KEY_F14 as u32, "F14 (DPI up)"@));
        } else if i - 1 == n + 2 {
            assert(all[i] == endpoint_finding_of(endpoint));
        } else {
            assert(all[i] == config_findings_of(s, c)[i - n - 4]);
        }
    }
}

/// A report has one line for a profile and, where it is enabled, one for each of its slots,
/// buttons and LEDs, in that order.
pub proof fn a_report_has_a_line_for_every_part(p: ProfileModel)
    ensures
        p.disabled ==> profile_report(p) == seq![profile_head(p)],
        !p.disabled ==> {
            let lines = profile_report(p);
            let slots = p.resolutions.len() as int;
            let buttons = p.buttons.len() as int;
            &&& lines.len() == 1 + slots + buttons + p.leds.len()
            &&& lines[0] == profile_head(p)
            &&& forall|i: int|
                0 <= i < slots ==> #[trigger] lines[1 + i] == slot_line(p.resolutions[i])
            &&& forall|i: int|
                0 <= i < buttons ==> #[trigger] lines[1 + slots + i] == button_line(p.buttons[i])
            &&& forall|i: int|
                0 <= i < p.leds.len() ==> #[trigger] lines[1 + slots + buttons + i] == led_line(
                    p.leds[i],
                )
        },
{
}

/// The status names the device, every profile in order, and the shared DPI, and warns exactly
/// where a synced profile does not have it.
pub proof fn a_status_tells_what_is_out_of_sync(
    s: SnapshotModel,
    c: ConfigModel,
    slots: Seq<Option<u32>>,
    shared: u32,
    synced: Seq<Option<u32>>,
)
    requires
        synced.len() == c.dpi.profiles.len(),
    ensures
        ({
            let lines = status_of(s, c, slots, shared, synced);
            let n = s.profiles.len() as int;
            &&& lines.len() == n + 2 || lines.len() == n + 3
            &&& lines[0] == s.name + " ("@ + s.model + ")"@
            &&& forall|i: int|
                0 <= i < n ==> #[trigger] lines[i + 1] == status_line(s.profiles[i], c.dpi, slots[i])
            &&& lines[n + 1] == "shared DPI: "@ + dec(shared as nat) + " ("@ + label_of(
                c.dpi.values,
                shared,
            ) + "; stages "@ + number_list(c.dpi.values) + ")"@
            &&& lines.len() == n + 3 <==> exists|i: int|
                0 <= i < synced.len() && #[trigger] synced[i] != Some(shared)
        }),
{
    let profiles = c.dpi.profiles;
    let n = profiles.len();
    let others = out_of_sync(profiles, synced, shared, n);
    if others.len() > 0 {
        profiles_out_of_sync_are_told(profiles, synced, shared, n, others[0]);
        assert(others.contains(others[0]));
        let i = choose|i: int|
            0 <= i < n && #[trigger] profiles[i] == others[0] && synced[i] != Some(shared);
        assert(synced[i] != Some(shared));
    }
    if exists|i: int| 0 <= i < synced.len() && #[trigger] synced[i] != Some(shared) {
        let i = choose|i: int| 0 <= i < synced.len() && #[trigger] synced[i] != Some(shared);
        profiles_out_of_sync_are_told(profiles, synced, shared, n, profiles[i]);
        assert(others.contains(profiles[i]));
        assert(others.len() > 0);
    }
}

/// The device is compared with a config exactly where that names a profile; it differs in as
/// many places as applying the config would change.
pub proof fn differences_are_the_changes_to_apply(s: SnapshotModel, c: ConfigModel)
    ensures
        diff_of(s, c) is None <==> c.profiles.len() == 0,
        diff_of(s, c) matches Some(Ok(n)) ==> overlay_of(s, c) is Ok && plan_of(
            s,
            overlay_of(s, c)->Ok_0,
        ) is Ok && n == plan_of(s, overlay_of(s, c)->Ok_0)->Ok_0.len(),
        diff_of(s, c) matches Some(Err(e)) ==> overlay_of(s, c) is Err || plan_of(
            s,
            overlay_of(s, c)->Ok_0,
        ) is Err,
{
}

/// A slot is listed with its number, its DPI, those of its flags that are set, in their order,
/// and the range and number of the values that it accepts.
pub proof fn a_slot_is_listed_with_its_flags(r: ResolutionModel)
    ensures
        flag_list(r).contains("active"@) <==> r.is_active,
        flag_list(r).contains("default"@) <==> r.is_default,
        flag_list(r).contains("disabled"@) <==> r.is_disabled,
        flag_list(r).len() == (if r.is_active {
            1int
        } else {
            0
        }) + (if r.is_default {
            1int
        } else {
            0
        }) + (if r.is_disabled {
            1int
        } else {
            0
        }),
        slot_line(r) == "  resolution "@ + dec(r.index as nat) + ": "@ + (match r.dpi {
            Some(d) => dec(d as nat),
            None => "?"@,
        }) + " DPI ["@ + join(flag_list(r), ","@) + "] (accepts "@ + (if r.supported_dpi.len() == 0 {
            "?"@
        } else {
            dec(r.supported_dpi[0] as nat) + ".."@ + dec(r.supported_dpi.last() as nat)
        }) + ", "@ + dec(r.supported_dpi.len()) + " values)"@,
{
    reveal_strlit("active");
    reveal_strlit("default");
    reveal_strlit("disabled");
    assert("active"@.len() == 6);
    assert("default"@.len() == 7);
    assert("disabled"@.len() == 8);
    let f = flag_list(r);
    if r.is_active {
        assert(f[0] == "active"@);
    }
    if r.is_disabled {
        assert(f[f.len() - 1] == "disabled"@);
    }
    if r.is_default {
        let i: int = if r.is_active {
            1
        } else {
            0
        };
        assert(f[i] == "default"@);
    }
}

/// A profile, a button and an LED are listed with their numbers and settings.
pub proof fn parts_are_listed_with_their_settings(p: ProfileModel, b: ButtonModel, l: LedModel)
    ensures
        profile_head(p) == "profile "@ + dec(p.index as nat) + " ["@ + ((if p.disabled {
            "disabled"@
        } else {
            "enabled"@
        }) + (if p.is_active {
            ", active"@
        } else {
            ""@
        })) + "] report rate "@ + dec(p.report_rate as nat) + " Hz (supports "@ + number_list(
            p.report_rates,
        ) + "), capabilities "@ + number_list(p.capabilities),
        b.index >= 10 ==> button_line(b) == "  button "@ + dec(b.index as nat) + ": "@ + b.action,
        b.index < 10 ==> button_line(b) == "  button "@ + (" "@ + dec(b.index as nat)) + ": "@ + b.action,
        led_line(l) == "  led "@ + dec(l.index as nat) + ": mode "@ + dec(l.mode as nat) + " (modes "@
            + number_list(l.modes) + "), color "@ + l.color + ", brightness "@ + dec(
            l.brightness as nat,
        ) + ", color depth "@ + dec(l.color_depth as nat),
{
}

} // verus!
