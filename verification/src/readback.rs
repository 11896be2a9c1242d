//! How the lines that an export is made of read, and that an exported config says nothing
//! new to the device it was exported from.
//!
//! The lines stand for the part of TOML that exports are written in. The programs read
//! config files with the `toml` crate, which takes all of TOML.

use crate::action::{
    action_of, led_mode_of, led_mode_text, led_modes_and_names_agree, spelling_of, spelling_reads_back,
};
use crate::apply::{
    button_overlay, buttons_overlay, led_overlay, leds_overlay, normal_color, overlay_of, profile_overlay,
    profiles_overlay, slot_overlay, slots_overlay, with_profile,
};
use crate::config::{
    default_config, has_key, is_shared, profile_rules, profiles_rules, rules, slot_rules, ConfigModel, DeviceConfig,
    DpiModel, LedConfigModel, ProfileConfigModel, ResolutionConfig,
};
use crate::error::Failure;
use crate::export::{
    button_lines, buttons_lines, export_lines, head_lines, led_lines, leds_lines, profile_lines,
    profiles_lines, slot_lines, slots_lines, Line, Setting, Table,
};
use crate::keyed::{entries, lemma_entries_list};
use crate::ratbag::{ButtonModel, LedModel, ProfileModel, ResolutionModel, SnapshotModel};
use crate::restore::{enabled_count, nothing, plan_of};
use crate::settle::{
    agrees, button_agrees, is_indexed, is_numbered, plan_is_empty_exactly_on_agreement, profile_agrees,
};
use crate::text::words;
use vstd::prelude::*;

verus! {

// ------------------------------------------------------------------------ reading
/// What lines have said of one profile.
#[verifier::ext_equal]
pub struct ProfileRead {
    pub enabled: Option<bool>,
    pub report_rate: Option<u32>,
    pub color: Option<Seq<char>>,
    pub leds: Map<u32, LedConfigModel>,
    pub buttons: Map<u32, Seq<char>>,
    pub resolutions: Map<u32, ResolutionConfig>,
}

/// What the lines read so far have said. A key is read in the table that was opened
/// last; one that its table does not have makes the whole invalid.
#[verifier::ext_equal]
pub struct Read {
    pub valid: bool,
    pub table: Option<Table>,
    pub device: DeviceConfig,
    pub dpi: DpiModel,
    pub profiles: Map<u32, ProfileRead>,
}

pub open spec fn unread_profile() -> ProfileRead {
    ProfileRead {
        enabled: None,
        report_rate: None,
        color: None,
        leds: Map::empty(),
        buttons: Map::empty(),
        resolutions: Map::empty(),
    }
}

/// Before the first line: the defaults.
pub open spec fn unread() -> Read {
    Read {
        valid: true,
        table: None,
        device: default_config().device,
        dpi: default_config().dpi,
        profiles: Map::empty(),
    }
}

pub open spec fn profile_read(r: Read, p: u32) -> ProfileRead {
    if r.profiles.contains_key(p) {
        r.profiles[p]
    } else {
        unread_profile()
    }
}

pub open spec fn led_read(e: ProfileRead, i: u32) -> LedConfigModel {
    if e.leds.contains_key(i) {
        e.leds[i]
    } else {
        LedConfigModel { mode: None, color: None, brightness: None }
    }
}

pub open spec fn slot_read(e: ProfileRead, i: u32) -> ResolutionConfig {
    if e.resolutions.contains_key(i) {
        e.resolutions[i]
    } else {
        ResolutionConfig { dpi: None, enabled: None }
    }
}

pub open spec fn with_profile_read(r: Read, p: u32, e: ProfileRead) -> Read {
    Read { profiles: r.profiles.insert(p, e), ..r }
}

pub open spec fn with_led_read(r: Read, p: u32, i: u32, l: LedConfigModel) -> Read {
    let e = profile_read(r, p);
    with_profile_read(r, p, ProfileRead { leds: e.leds.insert(i, l), ..e })
}

pub open spec fn with_slot_read(r: Read, p: u32, i: u32, s: ResolutionConfig) -> Read {
    let e = profile_read(r, p);
    with_profile_read(r, p, ProfileRead { resolutions: e.resolutions.insert(i, s), ..e })
}

/// A table was opened: what it describes is there now, if only by name.
pub open spec fn opened(r: Read, t: Table) -> Read {
    let r = Read { table: Some(t), ..r };
    match t {
        Table::Device => r,
        Table::Dpi => r,
        Table::Profile(p) => with_profile_read(r, p, profile_read(r, p)),
        Table::Led(p, i) => with_led_read(r, p, i, led_read(profile_read(r, p), i)),
        Table::Button(p, _) => with_profile_read(r, p, profile_read(r, p)),
        Table::Slot(p, i) => with_slot_read(r, p, i, slot_read(profile_read(r, p), i)),
    }
}

/// A key was set in the open table.
pub open spec fn assigned(r: Read, s: Setting) -> Read {
    match (r.table, s) {
        (Some(Table::Device), Setting::Vendor(vendor)) => Read {
            device: DeviceConfig { vendor, ..r.device },
            ..r
        },
        (Some(Table::Device), Setting::Product(product)) => Read {
            device: DeviceConfig { product, ..r.device },
            ..r
        },
        (Some(Table::Dpi), Setting::Values(values)) => Read {
            dpi: DpiModel { values, ..r.dpi },
            ..r
        },
        (Some(Table::Dpi), Setting::SharedSlot(shared_slot)) => Read {
            dpi: DpiModel { shared_slot, ..r.dpi },
            ..r
        },
        (Some(Table::Dpi), Setting::Profiles(profiles)) => Read {
            dpi: DpiModel { profiles, ..r.dpi },
            ..r
        },
        (Some(Table::Profile(p)), Setting::Enabled(b)) => with_profile_read(
            r,
            p,
            ProfileRead { enabled: Some(b), ..profile_read(r, p) },
        ),
        (Some(Table::Profile(p)), Setting::ReportRate(n)) => with_profile_read(
            r,
            p,
            ProfileRead { report_rate: Some(n), ..profile_read(r, p) },
        ),
        (Some(Table::Profile(p)), Setting::Color(t)) => with_profile_read(
            r,
            p,
            ProfileRead { color: Some(t), ..profile_read(r, p) },
        ),
        (Some(Table::Led(p, i)), Setting::Mode(t)) => with_led_read(
            r,
            p,
            i,
            LedConfigModel { mode: Some(t), ..led_read(profile_read(r, p), i) },
        ),
        (Some(Table::Led(p, i)), Setting::Color(t)) => with_led_read(
            r,
            p,
            i,
            LedConfigModel { color: Some(t), ..led_read(profile_read(r, p), i) },
        ),
        (Some(Table::Led(p, i)), Setting::Brightness(n)) => with_led_read(
            r,
            p,
            i,
            LedConfigModel { brightness: Some(n), ..led_read(profile_read(r, p), i) },
        ),
        (Some(Table::Button(p, i)), Setting::Onboard(t)) => {
            let e = profile_read(r, p);
            with_profile_read(r, p, ProfileRead { buttons: e.buttons.insert(i, t), ..e })
        },
        (Some(Table::Slot(p, i)), Setting::Dpi(n)) => with_slot_read(
            r,
            p,
            i,
            ResolutionConfig { dpi: Some(n), ..slot_read(profile_read(r, p), i) },
        ),
        (Some(Table::Slot(p, i)), Setting::Enabled(b)) => with_slot_read(
            r,
            p,
            i,
            ResolutionConfig { enabled: Some(b), ..slot_read(profile_read(r, p), i) },
        ),
        _ => Read { valid: false, ..r },
    }
}

pub open spec fn read_line(r: Read, l: Line) -> Read {
    match l {
        Line::Blank => r,
        Line::Comment(_) => r,
        Line::Table(t) => opened(r, t),
        Line::Setting(s) => assigned(r, s),
    }
}

/// Reading lines in order.
pub open spec fn read_lines(r: Read, lines: Seq<Line>) -> Read
    decreases lines.len(),
{
    if lines.len() == 0 {
        r
    } else {
        read_line(read_lines(r, lines.drop_last()), lines.last())
    }
}

pub open spec fn profile_said(e: ProfileRead) -> ProfileConfigModel {
    ProfileConfigModel {
        enabled: e.enabled,
        report_rate: e.report_rate,
        color: e.color,
        leds: entries(e.leds),
        buttons: entries(e.buttons),
        resolutions: entries(e.resolutions),
    }
}

pub open spec fn profiles_said(m: Map<u32, ProfileRead>) -> Seq<(u32, ProfileConfigModel)> {
    Seq::new(entries(m).len(), |i: int| (entries(m)[i].0, profile_said(entries(m)[i].1)))
}

/// The config that lines describe; none where a key stands in the wrong place.
pub open spec fn config_of(lines: Seq<Line>) -> Option<ConfigModel> {
    let r = read_lines(unread(), lines);
    if r.valid {
        Some(
            ConfigModel {
                device: r.device,
                dpi: r.dpi,
                profiles: profiles_said(r.profiles),
            },
        )
    } else {
        None
    }
}

// ------------------------------------------------------------- what export says
/// What an export says of an LED.
pub open spec fn led_exported(l: LedModel) -> LedConfigModel {
    LedConfigModel {
        mode: led_mode_text(l.mode),
        color: Some(l.color),
        brightness: Some(l.brightness),
    }
}

pub open spec fn slot_exported(r: ResolutionModel) -> ResolutionConfig {
    ResolutionConfig { dpi: r.dpi, enabled: Some(!r.is_disabled) }
}

pub open spec fn leds_exported(s: Seq<LedModel>, n: int) -> Map<u32, LedConfigModel> {
    Map::new(|k: u32| k < n, |k: u32| led_exported(s[k as int]))
}

pub open spec fn buttons_exported(s: Seq<ButtonModel>, n: int) -> Map<u32, Seq<char>> {
    Map::new(
        |k: u32| k < n && spelling_of(s[k as int].raw_type, s[k as int].raw_value) is Some,
        |k: u32| spelling_of(s[k as int].raw_type, s[k as int].raw_value)->0,
    )
}

pub open spec fn slots_exported(dpi: DpiModel, p: u32, s: Seq<ResolutionModel>, n: int) -> Map<
    u32,
    ResolutionConfig,
> {
    Map::new(|k: u32| k < n && !is_shared(dpi, p, k), |k: u32| slot_exported(s[k as int]))
}

/// What an export says of a profile: of an enabled one everything that has a
/// spelling and that g502d does not own; of a disabled one only that it is disabled.
pub open spec fn profile_exported(dpi: DpiModel, p: ProfileModel) -> ProfileRead {
    if p.disabled {
        ProfileRead { enabled: Some(false), ..unread_profile() }
    } else {
        ProfileRead {
            enabled: Some(true),
            report_rate: Some(p.report_rate),
            color: None,
            leds: leds_exported(p.leds, p.leds.len() as int),
            buttons: buttons_exported(p.buttons, p.buttons.len() as int),
            resolutions: slots_exported(dpi, p.index, p.resolutions, p.resolutions.len() as int),
        }
    }
}

pub open spec fn profiles_exported(dpi: DpiModel, s: Seq<ProfileModel>, n: int) -> Map<
    u32,
    ProfileRead,
> {
    Map::new(|k: u32| k < n, |k: u32| profile_exported(dpi, s[k as int]))
}

// ----------------------------------------------------------------- reading lemmas
proof fn lemma_read_both(r: Read, a: Seq<Line>, b: Seq<Line>)
    ensures
        read_lines(r, a + b) == read_lines(read_lines(r, a), b),
    decreases b.len(),
{
    if b.len() == 0 {
        assert(a + b =~= a);
    } else {
        assert((a + b).drop_last() =~= a + b.drop_last());
        lemma_read_both(r, a, b.drop_last());
    }
}

proof fn lemma_read_one(r: Read, l: Line)
    ensures
        read_lines(r, seq![l]) == read_line(r, l),
{
    assert(seq![l].drop_last() =~= Seq::empty());
    assert(read_lines(r, Seq::empty()) == r);
}

/// Reading the first line, then the rest.
proof fn lemma_read_first(r: Read, lines: Seq<Line>)
    requires
        lines.len() > 0,
    ensures
        read_lines(r, lines) == read_lines(read_line(r, lines[0]), lines.skip(1)),
{
    assert(lines =~= seq![lines[0]] + lines.skip(1));
    lemma_read_both(r, seq![lines[0]], lines.skip(1));
    lemma_read_one(r, lines[0]);
}

proof fn lemma_head_read(s: SnapshotModel, c: ConfigModel)
    ensures
        ({
            let r = read_lines(unread(), head_lines(s, c));
            r.valid && r.device == c.device && r.dpi == c.dpi && r.profiles == Map::<
                u32,
                ProfileRead,
            >::empty()
        }),
{
    let lines = head_lines(s, c);
    let r0 = unread();
    let r3 = Read { table: Some(Table::Device), ..r0 };
    let r4 = Read { device: DeviceConfig { vendor: c.device.vendor, ..r0.device }, ..r3 };
    let r5 = Read { device: c.device, ..r3 };
    let r7 = Read { table: Some(Table::Dpi), ..r5 };
    let r8 = Read { dpi: DpiModel { values: c.dpi.values, ..r0.dpi }, ..r7 };
    let r9 = Read { dpi: DpiModel { shared_slot: c.dpi.shared_slot, ..r8.dpi }, ..r8 };
    let r10 = Read { dpi: c.dpi, ..r9 };
    assert(lines.len() == 12);
    assert(read_lines(r0, lines.take(0)) == r0);
    assert(lines.take(1).drop_last() =~= lines.take(0));
    assert(lines.take(2).drop_last() =~= lines.take(1));
    assert(lines.take(3).drop_last() =~= lines.take(2));
    assert(lines.take(4).drop_last() =~= lines.take(3));
    assert(lines.take(5).drop_last() =~= lines.take(4));
    assert(lines.take(6).drop_last() =~= lines.take(5));
    assert(lines.take(7).drop_last() =~= lines.take(6));
    assert(lines.take(8).drop_last() =~= lines.take(7));
    assert(lines.take(9).drop_last() =~= lines.take(8));
    assert(lines.take(10).drop_last() =~= lines.take(9));
    assert(lines.take(11).drop_last() =~= lines.take(10));
    assert(lines.drop_last() =~= lines.take(11));
    assert(read_lines(r0, lines.take(1)) == r0);
    assert(read_lines(r0, lines.take(2)) == r0);
    assert(read_lines(r0, lines.take(3)) == r0);
    assert(read_lines(r0, lines.take(4)) == r3);
    assert(read_lines(r0, lines.take(5)) == r4);
    assert(read_lines(r0, lines.take(6)) == r5);
    assert(read_lines(r0, lines.take(7)) == r5);
    assert(read_lines(r0, lines.take(8)) == r7);
    assert(read_lines(r0, lines.take(9)) == r8);
    assert(read_lines(r0, lines.take(10)) == r9);
    assert(read_lines(r0, lines.take(11)) == r10);
    assert(read_lines(r0, lines) == r10);
}

/// Reading only touched profile `p`, which now reads as `e`.
spec fn reads_on(r: Read, after: Read, p: u32, e: ProfileRead) -> bool {
    &&& after.valid == r.valid
    &&& after.device == r.device
    &&& after.dpi == r.dpi
    &&& after.profiles =~= r.profiles.insert(p, e)
}

proof fn lemma_led_read(r: Read, p: u32, l: LedModel)
    requires
        r.profiles.contains_key(p),
        !r.profiles[p].leds.contains_key(l.index),
    ensures
        reads_on(
            r,
            read_lines(r, led_lines(p, l)),
            p,
            ProfileRead {
                leds: r.profiles[p].leds.insert(l.index, led_exported(l)),
                ..r.profiles[p]
            },
        ),
{
    let lines = led_lines(p, l);
    let r1 = read_line(r, lines[0]);
    let r2 = read_line(r1, lines[1]);
    let r3 = read_line(r2, lines[2]);
    let r4 = read_line(r3, lines[3]);
    lemma_read_first(r, lines);
    lemma_read_first(r1, lines.skip(1));
    lemma_read_first(r2, lines.skip(1).skip(1));
    lemma_read_first(r3, lines.skip(1).skip(1).skip(1));
    lemma_read_first(r4, lines.skip(1).skip(1).skip(1).skip(1));
    let base = r.profiles[p];
    let mode = led_mode_text(l.mode);
    let blank = LedConfigModel { mode: None, color: None, brightness: None };
    assert(profile_read(r1, p) =~= (ProfileRead { leds: base.leds.insert(l.index, blank), ..base }));
    assert(profile_read(r2, p) =~= (ProfileRead {
        leds: base.leds.insert(l.index, LedConfigModel { mode, ..blank }),
        ..base
    }));
    assert(profile_read(r3, p) =~= (ProfileRead {
        leds: base.leds.insert(
            l.index,
            LedConfigModel { mode, color: Some(l.color), brightness: None },
        ),
        ..base
    }));
    assert(profile_read(r4, p) =~= (ProfileRead {
        leds: base.leds.insert(l.index, led_exported(l)),
        ..base
    }));
}

proof fn lemma_leds_read(r: Read, p: u32, s: Seq<LedModel>, n: nat)
    requires
        r.profiles.contains_key(p),
        r.profiles[p].leds == Map::<u32, LedConfigModel>::empty(),
        n <= s.len(),
        forall|i: int| 0 <= i < s.len() ==> (#[trigger] s[i]).index == i,
    ensures
        reads_on(
            r,
            read_lines(r, leds_lines(p, s, n)),
            p,
            ProfileRead { leds: leds_exported(s, n as int), ..r.profiles[p] },
        ),
    decreases n,
{
    if n == 0 {
        assert(leds_exported(s, 0) =~= Map::<u32, LedConfigModel>::empty());
        assert((ProfileRead { leds: leds_exported(s, 0), ..r.profiles[p] }) =~= r.profiles[p]);
    } else {
        let m = (n - 1) as nat;
        lemma_leds_read(r, p, s, m);
        let mid = read_lines(r, leds_lines(p, s, m));
        lemma_read_both(r, leds_lines(p, s, m), led_lines(p, s[n - 1]));
        assert(s[n - 1].index == n - 1);
        lemma_led_read(mid, p, s[n - 1]);
        assert(leds_exported(s, m as int).insert(s[n - 1].index, led_exported(s[n - 1]))
            =~= leds_exported(s, n as int));
    }
}

proof fn lemma_button_read(r: Read, p: u32, b: ButtonModel)
    requires
        r.profiles.contains_key(p),
    ensures
        reads_on(
            r,
            read_lines(r, button_lines(p, b)),
            p,
            ProfileRead {
                buttons: match spelling_of(b.raw_type, b.raw_value) {
                    Some(a) => r.profiles[p].buttons.insert(b.index, a),
                    None => r.profiles[p].buttons,
                },
                ..r.profiles[p]
            },
        ),
{
    let lines = button_lines(p, b);
    let r1 = read_line(r, lines[0]);
    let r2 = read_line(r1, lines[1]);
    lemma_read_first(r, lines);
    lemma_read_first(r1, lines.skip(1));
    if spelling_of(b.raw_type, b.raw_value) is Some {
        lemma_read_first(r2, lines.skip(1).skip(1));
    }
}

proof fn lemma_buttons_read(r: Read, p: u32, s: Seq<ButtonModel>, n: nat)
    requires
        r.profiles.contains_key(p),
        r.profiles[p].buttons == Map::<u32, Seq<char>>::empty(),
        n <= s.len(),
        forall|i: int| 0 <= i < s.len() ==> (#[trigger] s[i]).index == i,
    ensures
        reads_on(
            r,
            read_lines(r, buttons_lines(p, s, n)),
            p,
            ProfileRead { buttons: buttons_exported(s, n as int), ..r.profiles[p] },
        ),
    decreases n,
{
    if n == 0 {
        assert(buttons_exported(s, 0) =~= Map::<u32, Seq<char>>::empty());
    } else {
        let m = (n - 1) as nat;
        lemma_buttons_read(r, p, s, m);
        let mid = read_lines(r, buttons_lines(p, s, m));
        lemma_read_both(r, buttons_lines(p, s, m), button_lines(p, s[n - 1]));
        let b = s[n - 1];
        assert(b.index == n - 1);
        lemma_button_read(mid, p, b);
        match spelling_of(b.raw_type, b.raw_value) {
            Some(a) => {
                assert(buttons_exported(s, m as int).insert(b.index, a) =~= buttons_exported(
                    s,
                    n as int,
                ));
            },
            None => {
                assert(buttons_exported(s, m as int) =~= buttons_exported(s, n as int));
            },
        }
    }
}

proof fn lemma_slot_read(r: Read, dpi: DpiModel, p: u32, s: ResolutionModel)
    requires
        r.profiles.contains_key(p),
        !r.profiles[p].resolutions.contains_key(s.index),
    ensures
        reads_on(
            r,
            read_lines(r, slot_lines(dpi, p, s)),
            p,
            ProfileRead {
                resolutions: if is_shared(dpi, p, s.index) {
                    r.profiles[p].resolutions
                } else {
                    r.profiles[p].resolutions.insert(s.index, slot_exported(s))
                },
                ..r.profiles[p]
            },
        ),
{
    let lines = slot_lines(dpi, p, s);
    if !is_shared(dpi, p, s.index) {
        let r1 = read_line(r, lines[0]);
        let r2 = read_line(r1, lines[1]);
        let r3 = read_line(r2, lines[2]);
        lemma_read_first(r, lines);
        lemma_read_first(r1, lines.skip(1));
        lemma_read_first(r2, lines.skip(1).skip(1));
        let base = r.profiles[p];
        let blank = ResolutionConfig { dpi: None, enabled: None };
        assert(profile_read(r1, p) =~= (ProfileRead {
            resolutions: base.resolutions.insert(s.index, blank),
            ..base
        }));
        if s.dpi is Some {
            lemma_read_first(r3, lines.skip(1).skip(1).skip(1));
            assert(profile_read(r2, p) =~= (ProfileRead {
                resolutions: base.resolutions.insert(
                    s.index,
                    ResolutionConfig { dpi: s.dpi, enabled: None },
                ),
                ..base
            }));
            assert(profile_read(r3, p) =~= (ProfileRead {
                resolutions: base.resolutions.insert(s.index, slot_exported(s)),
                ..base
            }));
        } else {
            assert(profile_read(r2, p) =~= (ProfileRead {
                resolutions: base.resolutions.insert(s.index, slot_exported(s)),
                ..base
            }));
        }
    }
}

proof fn lemma_slots_read(r: Read, dpi: DpiModel, p: u32, s: Seq<ResolutionModel>, n: nat)
    requires
        r.profiles.contains_key(p),
        r.profiles[p].resolutions == Map::<u32, ResolutionConfig>::empty(),
        n <= s.len(),
        forall|i: int| 0 <= i < s.len() ==> (#[trigger] s[i]).index == i,
    ensures
        reads_on(
            r,
            read_lines(r, slots_lines(dpi, p, s, n)),
            p,
            ProfileRead { resolutions: slots_exported(dpi, p, s, n as int), ..r.profiles[p] },
        ),
    decreases n,
{
    if n == 0 {
        assert(slots_exported(dpi, p, s, 0) =~= Map::<u32, ResolutionConfig>::empty());
    } else {
        let m = (n - 1) as nat;
        lemma_slots_read(r, dpi, p, s, m);
        let mid = read_lines(r, slots_lines(dpi, p, s, m));
        lemma_read_both(r, slots_lines(dpi, p, s, m), slot_lines(dpi, p, s[n - 1]));
        let x = s[n - 1];
        assert(x.index == n - 1);
        lemma_slot_read(mid, dpi, p, x);
        if is_shared(dpi, p, x.index) {
            assert(slots_exported(dpi, p, s, m as int) =~= slots_exported(dpi, p, s, n as int));
        } else {
            assert(slots_exported(dpi, p, s, m as int).insert(x.index, slot_exported(x))
                =~= slots_exported(dpi, p, s, n as int));
        }
    }
}

proof fn lemma_profile_read(r: Read, dpi: DpiModel, p: ProfileModel)
    requires
        !r.profiles.contains_key(p.index),
        is_indexed(p),
    ensures
        reads_on(
            r,
            read_lines(r, profile_lines(dpi, p)),
            p.index,
            profile_exported(dpi, p),
        ),
{
    let i = p.index;
    if p.disabled {
        let lines = profile_lines(dpi, p);
        let r1 = read_line(r, lines[0]);
        let r2 = read_line(r1, lines[1]);
        lemma_read_first(r, lines);
        lemma_read_first(r1, lines.skip(1));
        lemma_read_first(r2, lines.skip(1).skip(1));
        assert(profile_read(r2, i) =~= profile_exported(dpi, p));
    } else {
        let head = seq![
            Line::Table(Table::Profile(p.index)),
            Line::Setting(Setting::Enabled(true)),
            Line::Setting(Setting::ReportRate(p.report_rate)),
            Line::Blank,
        ];
        let e = ProfileRead {
            enabled: Some(true),
            report_rate: Some(p.report_rate),
            ..unread_profile()
        };
        let r1 = read_line(r, head[0]);
        let r2 = read_line(r1, head[1]);
        let r3 = read_line(r2, head[2]);
        lemma_read_first(r, head);
        lemma_read_first(r1, head.skip(1));
        lemma_read_first(r2, head.skip(1).skip(1));
        lemma_read_first(r3, head.skip(1).skip(1).skip(1));
        let h = read_lines(r, head);
        assert(reads_on(r, h, i, e));
        let ll = leds_lines(i, p.leds, p.leds.len());
        let bl = buttons_lines(i, p.buttons, p.buttons.len());
        let sl = slots_lines(dpi, i, p.resolutions, p.resolutions.len());
        lemma_read_both(r, head, ll);
        lemma_read_both(r, head + ll, bl);
        lemma_read_both(r, head + ll + bl, sl);
        lemma_leds_read(h, i, p.leds, p.leds.len());
        let a = read_lines(h, ll);
        lemma_buttons_read(a, i, p.buttons, p.buttons.len());
        let b = read_lines(a, bl);
        lemma_slots_read(b, dpi, i, p.resolutions, p.resolutions.len());
        let c = read_lines(b, sl);
        assert(c.profiles[i] =~= profile_exported(dpi, p));
    }
}

proof fn lemma_profiles_read(r: Read, dpi: DpiModel, s: Seq<ProfileModel>, n: nat)
    requires
        r.profiles == Map::<u32, ProfileRead>::empty(),
        n <= s.len(),
        forall|i: int| 0 <= i < s.len() ==> (#[trigger] s[i]).index == i && is_indexed(s[i]),
    ensures
        ({
            let after = read_lines(r, profiles_lines(dpi, s, n));
            &&& after.valid == r.valid
            &&& after.device == r.device
            &&& after.dpi == r.dpi
            &&& after.profiles == profiles_exported(dpi, s, n as int)
        }),
    decreases n,
{
    if n == 0 {
        assert(profiles_exported(dpi, s, 0) =~= Map::<u32, ProfileRead>::empty());
    } else {
        let m = (n - 1) as nat;
        lemma_profiles_read(r, dpi, s, m);
        let mid = read_lines(r, profiles_lines(dpi, s, m));
        lemma_read_both(r, profiles_lines(dpi, s, m), profile_lines(dpi, s[n - 1]));
        let p = s[n - 1];
        assert(p.index == n - 1);
        lemma_profile_read(mid, dpi, p);
        assert(profiles_exported(dpi, s, m as int).insert(p.index, profile_exported(dpi, p))
            =~= profiles_exported(dpi, s, n as int));
    }
}

/// The config that an export describes: the settings it was given, and of the device
/// everything that can be said.
pub open spec fn exported_config(s: SnapshotModel, c: ConfigModel) -> ConfigModel {
    ConfigModel {
        device: c.device,
        dpi: c.dpi,
        profiles: profiles_said(profiles_exported(c.dpi, s.profiles, s.profiles.len() as int)),
    }
}

/// An export names everything of the device that a config can say, and keeps the
/// device and DPI settings.
pub proof fn export_is_complete(s: SnapshotModel, c: ConfigModel)
    requires
        is_numbered(s),
    ensures
        config_of(export_lines(s, c)) == Some(exported_config(s, c)),
{
    let n = s.profiles.len();
    lemma_head_read(s, c);
    let h = read_lines(unread(), head_lines(s, c));
    lemma_read_both(unread(), head_lines(s, c), profiles_lines(c.dpi, s.profiles, n));
    lemma_profiles_read(h, c.dpi, s.profiles, n);
}

// ------------------------------------------------------------------ applying it back
/// The colours are in the device's spelling.
pub open spec fn has_plain_colors(s: SnapshotModel) -> bool {
    forall|i: int, j: int|
        0 <= i < s.profiles.len() && 0 <= j < s.profiles[i].leds.len() ==> normal_color(
            (#[trigger] s.profiles[i].leds[j]).color,
        ) == Ok::<Seq<char>, Failure>(s.profiles[i].leds[j].color)
}

proof fn lemma_leds_unchanged(p: u32, s: Seq<LedModel>, c: Seq<(u32, LedConfigModel)>, n: nat)
    requires
        n <= c.len(),
        forall|k: int|
            0 <= k < c.len() ==> (#[trigger] c[k]).0 < s.len() && c[k].1 == led_exported(
                s[c[k].0 as int],
            ),
        forall|j: int|
            0 <= j < s.len() ==> normal_color((#[trigger] s[j]).color) == Ok::<Seq<char>, Failure>(
                s[j].color,
            ),
    ensures
        leds_overlay(p, s, c, n) == Ok::<Seq<LedModel>, Failure>(s),
    decreases n,
{
    if n > 0 {
        lemma_leds_unchanged(p, s, c, (n - 1) as nat);
        let (i, entry) = c[n - 1];
        let l = s[i as int];
        led_modes_and_names_agree(l.mode, Seq::empty());
        assert(led_overlay(l, entry) == Ok::<LedModel, Failure>(l));
        assert(s.update(i as int, l) =~= s);
    }
}

proof fn lemma_buttons_agree(p: u32, s: Seq<ButtonModel>, c: Seq<(u32, Seq<char>)>, n: nat)
    requires
        n <= c.len(),
        forall|k: int|
            0 <= k < c.len() ==> (#[trigger] c[k]).0 < s.len() && spelling_of(
                s[c[k].0 as int].raw_type,
                s[c[k].0 as int].raw_value,
            ) == Some(c[k].1),
    ensures
        buttons_overlay(p, s, c, n) is Ok,
        buttons_overlay(p, s, c, n)->Ok_0.len() == s.len(),
        forall|j: int|
            0 <= j < s.len() ==> button_agrees(
                s[j],
                #[trigger] buttons_overlay(p, s, c, n)->Ok_0[j],
            ),
    decreases n,
{
    if n > 0 {
        lemma_buttons_agree(p, s, c, (n - 1) as nat);
        let t = buttons_overlay(p, s, c, (n - 1) as nat)->Ok_0;
        let (i, entry) = c[n - 1];
        let b = s[i as int];
        assert(button_agrees(b, t[i as int]));
        spelling_reads_back(b.raw_type, b.raw_value);
        assert(button_overlay(t[i as int], entry) is Ok);
        assert(button_agrees(b, button_overlay(t[i as int], entry)->Ok_0));
    }
}

proof fn lemma_slots_unchanged(p: u32, s: Seq<ResolutionModel>, c: Seq<(u32, ResolutionConfig)>, n: nat)
    requires
        n <= c.len(),
        forall|k: int|
            0 <= k < c.len() ==> (#[trigger] c[k]).0 < s.len() && c[k].1 == slot_exported(
                s[c[k].0 as int],
            ),
    ensures
        slots_overlay(p, s, c, n) == Ok::<Seq<ResolutionModel>, Failure>(s),
    decreases n,
{
    if n > 0 {
        lemma_slots_unchanged(p, s, c, (n - 1) as nat);
        let (i, entry) = c[n - 1];
        assert(slot_overlay(s[i as int], entry) == Ok::<ResolutionModel, Failure>(s[i as int]));
        assert(s.update(i as int, s[i as int]) =~= s);
    }
}

/// What an export says of a profile leaves the shared slot alone.
proof fn lemma_exported_slot_rules(dpi: DpiModel, p: ProfileModel)
    ensures
        slot_rules(dpi, p.index, profile_said(profile_exported(dpi, p))) is Ok,
{
    let e = profile_exported(dpi, p);
    let said = profile_said(e);
    lemma_entries_list(e.resolutions, p.resolutions.len() as int);
    if dpi.profiles.contains(p.index) && has_key(said.resolutions, dpi.shared_slot) {
        let k = choose|k: int|
            0 <= k < said.resolutions.len() && (#[trigger] said.resolutions[k]).0 == dpi.shared_slot;
        assert(e.resolutions.contains_key(entries(e.resolutions)[k].0));
        assert(false);
    }
}

/// What an export says of a profile leaves that profile as it is.
proof fn lemma_profile_overlay_agrees(s: SnapshotModel, dpi: DpiModel, i: int)
    requires
        is_numbered(s),
        has_plain_colors(s),
        0 <= i < s.profiles.len(),
    ensures
        ({
            let said = profile_said(profile_exported(dpi, s.profiles[i]));
            let t = profile_overlay(s, dpi, i as u32, said);
            t is Ok && profile_agrees(s.profiles[i], t->Ok_0)
        }),
{
    let p = s.profiles[i];
    assert(p.index == i);
    let e = profile_exported(dpi, p);
    let said = profile_said(e);
    lemma_entries_list(e.leds, p.leds.len() as int);
    lemma_entries_list(e.buttons, p.buttons.len() as int);
    lemma_entries_list(e.resolutions, p.resolutions.len() as int);
    assert forall|k: int| 0 <= k < said.leds.len() implies (#[trigger] said.leds[k]).0 < p.leds.len()
        && said.leds[k].1 == led_exported(p.leds[said.leds[k].0 as int]) by {
        assert(e.leds.contains_key(entries(e.leds)[k].0));
    }
    assert forall|k: int| 0 <= k < said.buttons.len() implies (#[trigger] said.buttons[k]).0
        < p.buttons.len() && spelling_of(
        p.buttons[said.buttons[k].0 as int].raw_type,
        p.buttons[said.buttons[k].0 as int].raw_value,
    ) == Some(said.buttons[k].1) by {
        assert(e.buttons.contains_key(entries(e.buttons)[k].0));
    }
    assert forall|k: int| 0 <= k < said.resolutions.len() implies (
    #[trigger] said.resolutions[k]).0 < p.resolutions.len() && said.resolutions[k].1
        == slot_exported(p.resolutions[said.resolutions[k].0 as int]) by {
        assert(e.resolutions.contains_key(entries(e.resolutions)[k].0));
    }
    assert forall|j: int| 0 <= j < p.leds.len() implies normal_color((#[trigger] p.leds[j]).color)
        == Ok::<Seq<char>, Failure>(p.leds[j].color) by {
        assert(normal_color(s.profiles[i].leds[j].color) is Ok);
    }
    lemma_leds_unchanged(i as u32, p.leds, said.leds, said.leds.len());
    lemma_buttons_agree(i as u32, p.buttons, said.buttons, said.buttons.len());
    lemma_slots_unchanged(i as u32, p.resolutions, said.resolutions, said.resolutions.len());
    lemma_exported_slot_rules(dpi, p);
    let t = profile_overlay(s, dpi, i as u32, said)->Ok_0;
    assert forall|j: int| 0 <= j < p.buttons.len() implies #[trigger] button_agrees(
        p.buttons[j],
        t.buttons[j],
    ) by {
        assert(button_agrees(
            p.buttons[j],
            buttons_overlay(i as u32, p.buttons, said.buttons, said.buttons.len())->Ok_0[j],
        ));
    }
}

proof fn lemma_overlay_agrees(s: SnapshotModel, c: ConfigModel, n: nat)
    requires
        is_numbered(s),
        has_plain_colors(s),
        n <= exported_config(s, c).profiles.len(),
    ensures
        profiles_overlay(s, exported_config(s, c), n) is Ok,
        agrees(s, profiles_overlay(s, exported_config(s, c), n)->Ok_0),
    decreases n,
{
    let x = exported_config(s, c);
    let m = profiles_exported(c.dpi, s.profiles, s.profiles.len() as int);
    lemma_entries_list(m, s.profiles.len() as int);
    if n == 0 {
        assert forall|i: int| 0 <= i < s.profiles.len() implies #[trigger] profile_agrees(
            s.profiles[i],
            s.profiles[i],
        ) by {}
    } else {
        lemma_overlay_agrees(s, c, (n - 1) as nat);
        let t = profiles_overlay(s, x, (n - 1) as nat)->Ok_0;
        let i = entries(m)[n - 1].0;
        assert(m.contains_key(i));
        assert(x.profiles[n - 1] == (i, profile_said(profile_exported(c.dpi, s.profiles[i as int]))));
        lemma_profile_overlay_agrees(s, c.dpi, i as int);
        let p = profile_overlay(s, c.dpi, i, x.profiles[n - 1].1)->Ok_0;
        let u = with_profile(t, i as int, p);
        assert forall|j: int| 0 <= j < s.profiles.len() implies #[trigger] profile_agrees(
            s.profiles[j],
            u.profiles[j],
        ) by {
            assert(profile_agrees(s.profiles[j], t.profiles[j]));
        }
    }
}

proof fn lemma_enabled_agree(s: SnapshotModel, t: SnapshotModel, n: nat)
    requires
        agrees(s, t),
        n <= s.profiles.len(),
    ensures
        enabled_count(s.profiles, n) == enabled_count(t.profiles, n),
    decreases n,
{
    if n > 0 {
        lemma_enabled_agree(s, t, (n - 1) as nat);
        assert(profile_agrees(s.profiles[n - 1], t.profiles[n - 1]));
    }
}

/// Applying an exported config to the device it was exported from is an empty diff.
pub proof fn exported_config_applies_as_an_empty_diff(s: SnapshotModel, c: ConfigModel)
    requires
        is_numbered(s),
        has_plain_colors(s),
    ensures
        ({
            let read = config_of(export_lines(s, c));
            &&& read is Some
            &&& overlay_of(s, read->0) is Ok
            &&& plan_of(s, overlay_of(s, read->0)->Ok_0) == nothing()
        }),
{
    export_is_complete(s, c);
    let x = exported_config(s, c);
    lemma_overlay_agrees(s, c, x.profiles.len());
    lemma_enabled_agree(s, profiles_overlay(s, x, x.profiles.len())->Ok_0, s.profiles.len());
    plan_is_empty_exactly_on_agreement(s, overlay_of(s, x)->Ok_0);
}

proof fn lemma_exported_rules(s: SnapshotModel, c: ConfigModel, n: nat)
    requires
        is_numbered(s),
        n <= exported_config(s, c).profiles.len(),
    ensures
        profiles_rules(exported_config(s, c), n) is Ok,
    decreases n,
{
    let x = exported_config(s, c);
    let m = profiles_exported(c.dpi, s.profiles, s.profiles.len() as int);
    lemma_entries_list(m, s.profiles.len() as int);
    if n > 0 {
        lemma_exported_rules(s, c, (n - 1) as nat);
        let i = entries(m)[n - 1].0;
        assert(m.contains_key(i));
        let p = s.profiles[i as int];
        assert(p.index == i);
        lemma_exported_slot_rules(c.dpi, p);
        assert(profile_rules(c.dpi, i, x.profiles[n - 1].1) is Ok);
    }
}

/// An exported config meets the rules wherever the config that it was exported with
/// does.
pub proof fn exported_config_is_valid(s: SnapshotModel, c: ConfigModel)
    requires
        is_numbered(s),
        rules(c) is Ok,
    ensures
        config_of(export_lines(s, c)) matches Some(x) && rules(x) is Ok,
{
    export_is_complete(s, c);
    lemma_exported_rules(s, c, exported_config(s, c).profiles.len());
}

// ------------------------------------------------------------------ what it says
/// What an export says of an enabled profile is what the profile has.
pub open spec fn says_profile(e: ProfileConfigModel, p: ProfileModel, dpi: DpiModel) -> bool {
    &&& e.report_rate == Some(p.report_rate)
    &&& e.color is None
    &&& forall|j: int| 0 <= j < p.leds.len() ==> has_key(e.leds, #[trigger] p.leds[j].index)
    &&& forall|k: int|
        0 <= k < e.leds.len() ==> {
            let (j, l) = #[trigger] e.leds[k];
            let had = p.leds[j as int];
            &&& j < p.leds.len()
            &&& l.color == Some(had.color)
            &&& l.brightness == Some(had.brightness)
            &&& l.mode matches Some(m) ==> led_mode_of(m) == Ok::<u32, Failure>(had.mode)
            &&& l.mode is None ==> had.mode > 3
        }
    &&& forall|j: int|
        0 <= j < p.buttons.len() && spelling_of(
            (#[trigger] p.buttons[j]).raw_type,
            p.buttons[j].raw_value,
        ) is Some ==> has_key(e.buttons, p.buttons[j].index)
    &&& forall|k: int|
        0 <= k < e.buttons.len() ==> {
            let (j, text) = #[trigger] e.buttons[k];
            let had = p.buttons[j as int];
            &&& j < p.buttons.len()
            &&& action_of(words(text)) is Ok
            &&& action_of(words(text))->Ok_0.0 == had.raw_type
            &&& had.raw_type != 0 ==> action_of(words(text))->Ok_0.1 == had.raw_value
        }
    &&& forall|j: int|
        0 <= j < p.resolutions.len() && !((#[trigger] p.resolutions[j]).index == dpi.shared_slot
            && dpi.profiles.contains(p.index)) ==> has_key(e.resolutions, p.resolutions[j].index)
    &&& forall|k: int|
        0 <= k < e.resolutions.len() ==> {
            let (j, r) = #[trigger] e.resolutions[k];
            let had = p.resolutions[j as int];
            &&& j < p.resolutions.len()
            &&& !(j == dpi.shared_slot && dpi.profiles.contains(p.index))
            &&& r.dpi == had.dpi
            &&& r.enabled == Some(!had.is_disabled)
        }
}

proof fn lemma_says_profile(dpi: DpiModel, p: ProfileModel)
    requires
        is_indexed(p),
        !p.disabled,
    ensures
        says_profile(profile_said(profile_exported(dpi, p)), p, dpi),
{
    let e = profile_exported(dpi, p);
    let said = profile_said(e);
    lemma_entries_list(e.leds, 0x1_0000_0000);
    lemma_entries_list(e.buttons, 0x1_0000_0000);
    lemma_entries_list(e.resolutions, 0x1_0000_0000);
    assert forall|j: int| 0 <= j < p.leds.len() implies has_key(said.leds, #[trigger] p.leds[j].index) by {
        assert(p.leds[j].index == j);
        assert(e.leds.contains_key(p.leds[j].index));
    }
    assert forall|k: int| 0 <= k < said.leds.len() implies ({
        let (j, l) = #[trigger] said.leds[k];
        let had = p.leds[j as int];
        &&& j < p.leds.len()
        &&& l.color == Some(had.color)
        &&& l.brightness == Some(had.brightness)
        &&& l.mode matches Some(m) ==> led_mode_of(m) == Ok::<u32, Failure>(had.mode)
        &&& l.mode is None ==> had.mode > 3
    }) by {
        let (j, l) = said.leds[k];
        assert(e.leds.contains_key(entries(e.leds)[k].0));
        led_modes_and_names_agree(p.leds[j as int].mode, Seq::empty());
    }
    assert forall|j: int|
        0 <= j < p.buttons.len() && spelling_of(
            (#[trigger] p.buttons[j]).raw_type,
            p.buttons[j].raw_value,
        ) is Some implies has_key(said.buttons, p.buttons[j].index) by {
        assert(p.buttons[j].index == j);
        assert(e.buttons.contains_key(p.buttons[j].index));
    }
    assert forall|k: int| 0 <= k < said.buttons.len() implies ({
        let (j, text) = #[trigger] said.buttons[k];
        let had = p.buttons[j as int];
        &&& j < p.buttons.len()
        &&& action_of(words(text)) is Ok
        &&& action_of(words(text))->Ok_0.0 == had.raw_type
        &&& had.raw_type != 0 ==> action_of(words(text))->Ok_0.1 == had.raw_value
    }) by {
        let (j, text) = said.buttons[k];
        assert(e.buttons.contains_key(entries(e.buttons)[k].0));
        spelling_reads_back(p.buttons[j as int].raw_type, p.buttons[j as int].raw_value);
    }
    assert forall|j: int|
        0 <= j < p.resolutions.len() && !((#[trigger] p.resolutions[j]).index == dpi.shared_slot
            && dpi.profiles.contains(p.index)) implies has_key(
        said.resolutions,
        p.resolutions[j].index,
    ) by {
        assert(p.resolutions[j].index == j);
        assert(e.resolutions.contains_key(p.resolutions[j].index));
    }
    assert forall|k: int| 0 <= k < said.resolutions.len() implies ({
        let (j, r) = #[trigger] said.resolutions[k];
        let had = p.resolutions[j as int];
        &&& j < p.resolutions.len()
        &&& !(j == dpi.shared_slot && dpi.profiles.contains(p.index))
        &&& r.dpi == had.dpi
        &&& r.enabled == Some(!had.is_disabled)
    }) by {
        assert(e.resolutions.contains_key(entries(e.resolutions)[k].0));
    }
}

/// An export keeps the device and DPI settings and says of every profile whether it is
/// enabled. Of an enabled one it says the report rate, every LED's mode where it has a name,
/// colour and brightness, every button's action that has a spelling, and the DPI and state of
/// every slot but the one that g502d owns, each as the device has it; of a disabled one
/// nothing more.
pub proof fn an_export_says_what_the_device_has(s: SnapshotModel, c: ConfigModel)
    requires
        is_numbered(s),
    ensures
        config_of(export_lines(s, c)) matches Some(x) && {
            &&& x.device == c.device
            &&& x.dpi == c.dpi
            &&& forall|i: int|
                0 <= i < s.profiles.len() ==> has_key(x.profiles, (#[trigger] s.profiles[i]).index)
            &&& forall|k: int|
                0 <= k < x.profiles.len() ==> {
                    let (i, e) = #[trigger] x.profiles[k];
                    let p = s.profiles[i as int];
                    &&& i < s.profiles.len()
                    &&& e.enabled == Some(!p.disabled)
                    &&& !p.disabled ==> says_profile(e, p, c.dpi)
                    &&& p.disabled ==> e.report_rate is None && e.color is None && e.leds.len() == 0
                        && e.buttons.len() == 0 && e.resolutions.len() == 0
                }
        },
{
    export_is_complete(s, c);
    let x = exported_config(s, c);
    let m = profiles_exported(c.dpi, s.profiles, s.profiles.len() as int);
    lemma_entries_list(m, 0x1_0000_0000);
    assert forall|i: int| 0 <= i < s.profiles.len() implies has_key(
        x.profiles,
        (#[trigger] s.profiles[i]).index,
    ) by {
        assert(s.profiles[i].index == i);
        assert(m.contains_key(s.profiles[i].index));
        let k = choose|k: int|
            0 <= k < entries(m).len() && (#[trigger] entries(m)[k]).0 == s.profiles[i].index;
        assert(x.profiles[k].0 == s.profiles[i].index);
    }
    assert forall|k: int| 0 <= k < x.profiles.len() implies ({
        let (i, e) = #[trigger] x.profiles[k];
        let p = s.profiles[i as int];
        &&& i < s.profiles.len()
        &&& e.enabled == Some(!p.disabled)
        &&& !p.disabled ==> says_profile(e, p, c.dpi)
        &&& p.disabled ==> e.report_rate is None && e.color is None && e.leds.len() == 0
            && e.buttons.len() == 0 && e.resolutions.len() == 0
    }) by {
        let (i, e) = x.profiles[k];
        assert(m.contains_key(entries(m)[k].0));
        let p = s.profiles[i as int];
        assert(p.index == i);
        if p.disabled {
            let none = unread_profile();
            lemma_entries_list(none.leds, 0);
            lemma_entries_list(none.buttons, 0);
            lemma_entries_list(none.resolutions, 0);
            assert(entries(none.leds).len() == 0) by {
                if entries(none.leds).len() > 0 {
                    assert(none.leds.contains_key(entries(none.leds)[0].0));
                }
            }
            assert(entries(none.buttons).len() == 0) by {
                if entries(none.buttons).len() > 0 {
                    assert(none.buttons.contains_key(entries(none.buttons)[0].0));
                }
            }
            assert(entries(none.resolutions).len() == 0) by {
                if entries(none.resolutions).len() > 0 {
                    assert(none.resolutions.contains_key(entries(none.resolutions)[0].0));
                }
            }
        } else {
            lemma_says_profile(c.dpi, p);
        }
    }
}

} // verus!
