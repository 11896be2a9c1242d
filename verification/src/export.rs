//! A config that describes the device as it is: the lines it is made of, and the text
//! they come to.

use crate::action::{action_string, led_mode_name, led_mode_text, spelling_of};
use crate::config::{holds, is_shared, Config, ConfigModel, DpiModel};
use crate::error::Error;
use crate::ratbag::{
    ButtonInfo, ButtonModel, LedInfo, LedModel, ProfileInfo, ProfileModel, ResolutionInfo, ResolutionModel,
    Snapshot, SnapshotModel,
};
use crate::text::{
    bool_str, bool_text, dec, hex_padded, join, list_items, list_text, number_list, number_texts,
    push_dec, push_hex_padded,
};
use vstd::prelude::*;

verus! {

// -------------------------------------------------------------------------- lines
/// The tables of a config.
#[derive(Clone, Copy)]
pub enum Table {
    Device,
    Dpi,
    Profile(u32),
    Led(u32, u32),
    Button(u32, u32),
    Slot(u32, u32),
}

/// A key of a config with its value.
#[verifier::ext_equal]
pub enum Setting {
    Vendor(u16),
    Product(u16),
    Values(Seq<u32>),
    SharedSlot(u32),
    Profiles(Seq<u32>),
    Enabled(bool),
    ReportRate(u32),
    Mode(Seq<char>),
    Color(Seq<char>),
    Brightness(u32),
    Onboard(Seq<char>),
    Dpi(u32),
}

/// One line of a config.
#[verifier::ext_equal]
pub enum Line {
    Blank,
    Comment(Seq<char>),
    Table(Table),
    Setting(Setting),
}

pub open spec fn table_text(t: Table) -> Seq<char> {
    match t {
        Table::Device => "device"@,
        Table::Dpi => "dpi"@,
        Table::Profile(p) => "profiles."@ + dec(p as nat),
        Table::Led(p, i) => "profiles."@ + dec(p as nat) + ".leds."@ + dec(i as nat),
        Table::Button(p, i) => "profiles."@ + dec(p as nat) + ".buttons."@ + dec(i as nat),
        Table::Slot(p, i) => "profiles."@ + dec(p as nat) + ".resolutions."@ + dec(i as nat),
    }
}

pub open spec fn setting_text(s: Setting) -> Seq<char> {
    match s {
        Setting::Vendor(v) => "vendor = 0x"@ + hex_padded(v as nat, 4),
        Setting::Product(v) => "product = 0x"@ + hex_padded(v as nat, 4),
        Setting::Values(v) => "values = ["@ + join(number_texts(v), ", "@) + "]"@,
        Setting::SharedSlot(n) => "shared_slot = "@ + dec(n as nat),
        Setting::Profiles(v) => "profiles = "@ + number_list(v),
        Setting::Enabled(b) => "enabled = "@ + bool_text(b),
        Setting::ReportRate(n) => "report_rate = "@ + dec(n as nat),
        Setting::Mode(t) => "mode = \""@ + t + "\""@,
        Setting::Color(t) => "color = \""@ + t + "\""@,
        Setting::Brightness(n) => "brightness = "@ + dec(n as nat),
        Setting::Onboard(t) => "onboard = \""@ + t + "\""@,
        Setting::Dpi(n) => "dpi = "@ + dec(n as nat),
    }
}

/// The text of a line, with its end.
pub open spec fn line_text(l: Line) -> Seq<char> {
    match l {
        Line::Blank => "\n"@,
        Line::Comment(t) => "# "@ + t + "\n"@,
        Line::Table(t) => "["@ + table_text(t) + "]\n"@,
        Line::Setting(s) => setting_text(s) + "\n"@,
    }
}

/// The text of lines.
pub open spec fn written(lines: Seq<Line>) -> Seq<char>
    decreases lines.len(),
{
    if lines.len() == 0 {
        Seq::empty()
    } else {
        written(lines.drop_last()) + line_text(lines.last())
    }
}

pub open spec fn head_lines(s: SnapshotModel, c: ConfigModel) -> Seq<Line> {
    seq![
        Line::Comment(
            "g502-linux-control config, exported from: "@ + s.name + " ("@ + s.model + ")"@,
        ),
        Line::Comment(
            "`g502ctl apply` writes what is named here and leaves everything else alone."@,
        ),
        Line::Blank,
        Line::Table(Table::Device),
        Line::Setting(Setting::Vendor(c.device.vendor)),
        Line::Setting(Setting::Product(c.device.product)),
        Line::Blank,
        Line::Table(Table::Dpi),
        Line::Setting(Setting::Values(c.dpi.values)),
        Line::Setting(Setting::SharedSlot(c.dpi.shared_slot)),
        Line::Setting(Setting::Profiles(c.dpi.profiles)),
        Line::Blank,
    ]
}

pub open spec fn led_lines(p: u32, l: LedModel) -> Seq<Line> {
    seq![
        Line::Table(Table::Led(p, l.index)),
        match led_mode_text(l.mode) {
            Some(m) => Line::Setting(Setting::Mode(m)),
            None => Line::Comment("mode "@ + dec(l.mode as nat) + " has no name here"@),
        },
        Line::Setting(Setting::Color(l.color)),
        Line::Setting(Setting::Brightness(l.brightness)),
        Line::Blank,
    ]
}

/// A mapping that has no spelling becomes a comment.
pub open spec fn button_lines(p: u32, b: ButtonModel) -> Seq<Line> {
    match spelling_of(b.raw_type, b.raw_value) {
        Some(a) => seq![
            Line::Table(Table::Button(p, b.index)),
            Line::Setting(Setting::Onboard(a)),
            Line::Blank,
        ],
        None => seq![
            Line::Comment(
                "profiles."@ + dec(p as nat) + ".buttons."@ + dec(b.index as nat) + ": "@ + b.action
                    + " (cannot be written in a config)"@,
            ),
            Line::Blank,
        ],
    }
}

/// The slot that g502d owns is left out.
pub open spec fn slot_lines(dpi: DpiModel, p: u32, r: ResolutionModel) -> Seq<Line> {
    if is_shared(dpi, p, r.index) {
        Seq::empty()
    } else {
        let head = seq![Line::Table(Table::Slot(p, r.index))];
        let dpi_line = match r.dpi {
            Some(d) => seq![Line::Setting(Setting::Dpi(d))],
            None => Seq::empty(),
        };
        head + dpi_line + seq![Line::Setting(Setting::Enabled(!r.is_disabled)), Line::Blank]
    }
}

pub open spec fn leds_lines(p: u32, s: Seq<LedModel>, n: nat) -> Seq<Line>
    decreases n,
{
    if n == 0 {
        Seq::empty()
    } else {
        leds_lines(p, s, (n - 1) as nat) + led_lines(p, s[n - 1])
    }
}

pub open spec fn buttons_lines(p: u32, s: Seq<ButtonModel>, n: nat) -> Seq<Line>
    decreases n,
{
    if n == 0 {
        Seq::empty()
    } else {
        buttons_lines(p, s, (n - 1) as nat) + button_lines(p, s[n - 1])
    }
}

pub open spec fn slots_lines(dpi: DpiModel, p: u32, s: Seq<ResolutionModel>, n: nat) -> Seq<Line>
    decreases n,
{
    if n == 0 {
        Seq::empty()
    } else {
        slots_lines(dpi, p, s, (n - 1) as nat) + slot_lines(dpi, p, s[n - 1])
    }
}

/// Of a disabled profile only that it is disabled is recorded.
pub open spec fn profile_lines(dpi: DpiModel, p: ProfileModel) -> Seq<Line> {
    if p.disabled {
        seq![
            Line::Table(Table::Profile(p.index)),
            Line::Setting(Setting::Enabled(false)),
            Line::Blank,
        ]
    } else {
        seq![
            Line::Table(Table::Profile(p.index)),
            Line::Setting(Setting::Enabled(true)),
            Line::Setting(Setting::ReportRate(p.report_rate)),
            Line::Blank,
        ] + leds_lines(p.index, p.leds, p.leds.len()) + buttons_lines(
            p.index,
            p.buttons,
            p.buttons.len(),
        ) + slots_lines(dpi, p.index, p.resolutions, p.resolutions.len())
    }
}

pub open spec fn profiles_lines(dpi: DpiModel, s: Seq<ProfileModel>, n: nat) -> Seq<Line>
    decreases n,
{
    if n == 0 {
        Seq::empty()
    } else {
        profiles_lines(dpi, s, (n - 1) as nat) + profile_lines(dpi, s[n - 1])
    }
}

/// The lines of a config that describes the device as it is.
pub open spec fn export_lines(s: SnapshotModel, c: ConfigModel) -> Seq<Line> {
    head_lines(s, c) + profiles_lines(c.dpi, s.profiles, s.profiles.len())
}

// ------------------------------------------------------------------------ writing
/// A config being written: its text, and the lines it is made of.
struct Writer {
    text: String,
    lines: Ghost<Seq<Line>>,
}

impl Writer {
    spec fn is_consistent(self) -> bool {
        self.text@ == written(self.lines@)
    }

    /// End the line that was begun when the text was `before`.
    fn end(&mut self, Ghost(before): Ghost<Seq<char>>, Ghost(line): Ghost<Line>)
        requires
            before == written(old(self).lines@),
            old(self).text@ + "\n"@ =~= before + line_text(line),
        ensures
            final(self).is_consistent(),
            final(self).lines@ == old(self).lines@.push(line),
    {
        self.text.append("\n");
        self.lines = Ghost(self.lines@.push(line));
        assert(self.lines@.drop_last() =~= old(self).lines@);
    }

    fn blank(&mut self)
        requires
            old(self).is_consistent(),
        ensures
            final(self).is_consistent(),
            final(self).lines@ == old(self).lines@.push(Line::Blank),
    {
        let ghost before = self.text@;
        self.end(Ghost(before), Ghost(Line::Blank));
    }

    fn comment(&mut self, text: &str)
        requires
            old(self).is_consistent(),
        ensures
            final(self).is_consistent(),
            final(self).lines@ == old(self).lines@.push(Line::Comment(text@)),
    {
        let ghost before = self.text@;
        self.text.append("# ");
        self.text.append(text);
        self.end(Ghost(before), Ghost(Line::Comment(text@)));
    }

    fn table(&mut self, t: Table)
        requires
            old(self).is_consistent(),
        ensures
            final(self).is_consistent(),
            final(self).lines@ == old(self).lines@.push(Line::Table(t)),
    {
        let ghost before = self.text@;
        self.text.append("[");
        let name = table_name(t);
        self.text.append(name.as_str());
        self.text.append("]\n");
        self.lines = Ghost(self.lines@.push(Line::Table(t)));
        assert(self.lines@.drop_last() =~= old(self).lines@);
        assert(self.text@ =~= before + line_text(Line::Table(t)));
    }

    /// A key with the text of its value.
    fn setting(&mut self, key: &str, value: &str, close: &str, Ghost(s): Ghost<Setting>)
        requires
            old(self).is_consistent(),
            setting_text(s) =~= key@ + value@ + close@,
        ensures
            final(self).is_consistent(),
            final(self).lines@ == old(self).lines@.push(Line::Setting(s)),
    {
        let ghost before = self.text@;
        self.text.append(key);
        self.text.append(value);
        self.text.append(close);
        self.end(Ghost(before), Ghost(Line::Setting(s)));
    }

    fn number(&mut self, key: &str, n: u32, Ghost(s): Ghost<Setting>)
        requires
            old(self).is_consistent(),
            setting_text(s) =~= key@ + dec(n as nat),
        ensures
            final(self).is_consistent(),
            final(self).lines@ == old(self).lines@.push(Line::Setting(s)),
    {
        let mut t = String::new();
        push_dec(&mut t, n as u64);
        assert(t@ =~= dec(n as nat));
        proof {
            reveal_strlit("");
        }
        self.setting(key, t.as_str(), "", Ghost(s));
    }

    fn id(&mut self, key: &str, n: u16, Ghost(s): Ghost<Setting>)
        requires
            old(self).is_consistent(),
            setting_text(s) =~= key@ + hex_padded(n as nat, 4),
        ensures
            final(self).is_consistent(),
            final(self).lines@ == old(self).lines@.push(Line::Setting(s)),
    {
        let mut t = String::new();
        push_hex_padded(&mut t, n as u32, 4);
        assert(t@ =~= hex_padded(n as nat, 4));
        proof {
            reveal_strlit("");
        }
        self.setting(key, t.as_str(), "", Ghost(s));
    }

    fn enabled(&mut self, b: bool)
        requires
            old(self).is_consistent(),
        ensures
            final(self).is_consistent(),
            final(self).lines@ == old(self).lines@.push(Line::Setting(Setting::Enabled(b))),
    {
        proof {
            reveal_strlit("");
        }
        self.setting("enabled = ", bool_str(b), "", Ghost(Setting::Enabled(b)));
    }
}

fn table_name(t: Table) -> (r: String)
    ensures
        r@ == table_text(t),
{
    match t {
        Table::Device => "device".to_owned(),
        Table::Dpi => "dpi".to_owned(),
        Table::Profile(p) => {
            let mut s = "profiles.".to_owned();
            push_dec(&mut s, p as u64);
            s
        },
        Table::Led(p, i) => part_name(p, ".leds.", i),
        Table::Button(p, i) => part_name(p, ".buttons.", i),
        Table::Slot(p, i) => part_name(p, ".resolutions.", i),
    }
}

fn part_name(p: u32, what: &str, i: u32) -> (r: String)
    ensures
        r@ == "profiles."@ + dec(p as nat) + what@ + dec(i as nat),
{
    let mut s = "profiles.".to_owned();
    push_dec(&mut s, p as u64);
    s.append(what);
    push_dec(&mut s, i as u64);
    s
}

fn write_head(w: &mut Writer, snap: &Snapshot, cfg: &Config)
    requires
        old(w).is_consistent(),
    ensures
        final(w).is_consistent(),
        final(w).lines@ == old(w).lines@ + head_lines(snap@, cfg@),
{
    let mut first = "g502-linux-control config, exported from: ".to_owned();
    first.append(snap.name.as_str());
    first.append(" (");
    first.append(snap.model.as_str());
    first.append(")");
    w.comment(first.as_str());
    w.comment("`g502ctl apply` writes what is named here and leaves everything else alone.");
    w.blank();
    w.table(Table::Device);
    w.id("vendor = 0x", cfg.device.vendor, Ghost(Setting::Vendor(cfg.device.vendor)));
    w.id("product = 0x", cfg.device.product, Ghost(Setting::Product(cfg.device.product)));
    w.blank();
    w.table(Table::Dpi);
    let values = list_items(&cfg.dpi.values);
    w.setting("values = [", values.as_str(), "]", Ghost(Setting::Values(cfg.dpi.values@)));
    w.number("shared_slot = ", cfg.dpi.shared_slot, Ghost(Setting::SharedSlot(cfg.dpi.shared_slot)));
    let profiles = list_text(&cfg.dpi.profiles);
    proof {
        reveal_strlit("");
    }
    w.setting("profiles = ", profiles.as_str(), "", Ghost(Setting::Profiles(cfg.dpi.profiles@)));
    w.blank();
    assert(w.lines@ =~= old(w).lines@ + head_lines(snap@, cfg@));
}

fn write_led(w: &mut Writer, p: u32, l: &LedInfo)
    requires
        old(w).is_consistent(),
    ensures
        final(w).is_consistent(),
        final(w).lines@ == old(w).lines@ + led_lines(p, l@),
{
    w.table(Table::Led(p, l.index));
    match led_mode_name(l.mode) {
        Some(m) => w.setting("mode = \"", m, "\"", Ghost(Setting::Mode(m@))),
        None => {
            let mut s = "mode ".to_owned();
            push_dec(&mut s, l.mode as u64);
            s.append(" has no name here");
            w.comment(s.as_str());
        },
    }
    w.setting("color = \"", l.color.as_str(), "\"", Ghost(Setting::Color(l.color@)));
    w.number("brightness = ", l.brightness, Ghost(Setting::Brightness(l.brightness)));
    w.blank();
    assert(w.lines@ =~= old(w).lines@ + led_lines(p, l@));
}

fn write_button(w: &mut Writer, p: u32, b: &ButtonInfo)
    requires
        old(w).is_consistent(),
    ensures
        final(w).is_consistent(),
        final(w).lines@ == old(w).lines@ + button_lines(p, b@),
{
    match action_string(b.raw_type, &b.raw_value) {
        Some(a) => {
            w.table(Table::Button(p, b.index));
            w.setting("onboard = \"", a.as_str(), "\"", Ghost(Setting::Onboard(a@)));
        },
        None => {
            let mut s = part_name(p, ".buttons.", b.index);
            s.append(": ");
            s.append(b.action.as_str());
            s.append(" (cannot be written in a config)");
            w.comment(s.as_str());
        },
    }
    w.blank();
    assert(w.lines@ =~= old(w).lines@ + button_lines(p, b@));
}

fn write_slot(w: &mut Writer, cfg: &Config, p: u32, r: &ResolutionInfo)
    requires
        old(w).is_consistent(),
    ensures
        final(w).is_consistent(),
        final(w).lines@ == old(w).lines@ + slot_lines(cfg@.dpi, p, r@),
{
    if r.index == cfg.dpi.shared_slot && holds(&cfg.dpi.profiles, p) {
        assert(w.lines@ =~= old(w).lines@ + slot_lines(cfg@.dpi, p, r@));
        return;
    }
    w.table(Table::Slot(p, r.index));
    if let Some(d) = r.dpi {
        w.number("dpi = ", d, Ghost(Setting::Dpi(d)));
    }
    w.enabled(!r.is_disabled);
    w.blank();
    assert(w.lines@ =~= old(w).lines@ + slot_lines(cfg@.dpi, p, r@));
}

fn write_profile(w: &mut Writer, cfg: &Config, p: &ProfileInfo)
    requires
        old(w).is_consistent(),
    ensures
        final(w).is_consistent(),
        final(w).lines@ == old(w).lines@ + profile_lines(cfg@.dpi, p@),
{
    let i = p.index;
    let ghost before = w.lines@;
    w.table(Table::Profile(i));
    w.enabled(!p.disabled);
    if p.disabled {
        w.blank();
        assert(w.lines@ =~= before + profile_lines(cfg@.dpi, p@));
        return;
    }
    w.number("report_rate = ", p.report_rate, Ghost(Setting::ReportRate(p.report_rate)));
    w.blank();
    let ghost head = w.lines@;
    let ghost leds = leds_lines(i, p@.leds, p@.leds.len());
    let ghost buttons = buttons_lines(i, p@.buttons, p@.buttons.len());
    let mut k: usize = 0;
    while k < p.leds.len()
        invariant
            w.is_consistent(),
            k <= p.leds.len(),
            i == p.index,
            w.lines@ == head + leds_lines(i, p@.leds, k as nat),
        decreases p.leds.len() - k,
    {
        write_led(w, i, &p.leds[k]);
        k += 1;
        assert(p@.leds[k - 1] == p.leds@[k - 1]@);
        assert(w.lines@ =~= head + leds_lines(i, p@.leds, k as nat));
    }
    k = 0;
    assert(w.lines@ =~= head + leds + buttons_lines(i, p@.buttons, 0));
    while k < p.buttons.len()
        invariant
            w.is_consistent(),
            k <= p.buttons.len(),
            i == p.index,
            w.lines@ == head + leds + buttons_lines(i, p@.buttons, k as nat),
        decreases p.buttons.len() - k,
    {
        write_button(w, i, &p.buttons[k]);
        k += 1;
        assert(p@.buttons[k - 1] == p.buttons@[k - 1]@);
        assert(w.lines@ =~= head + leds + buttons_lines(i, p@.buttons, k as nat));
    }
    k = 0;
    assert(w.lines@ =~= head + leds + buttons + slots_lines(cfg@.dpi, i, p@.resolutions, 0));
    while k < p.resolutions.len()
        invariant
            w.is_consistent(),
            k <= p.resolutions.len(),
            i == p.index,
            w.lines@ == head + leds + buttons + slots_lines(cfg@.dpi, i, p@.resolutions, k as nat),
        decreases p.resolutions.len() - k,
    {
        write_slot(w, cfg, i, &p.resolutions[k]);
        k += 1;
        assert(p@.resolutions[k - 1] == p.resolutions@[k - 1]@);
        assert(w.lines@ =~= head + leds + buttons + slots_lines(
            cfg@.dpi,
            i,
            p@.resolutions,
            k as nat,
        ));
    }
    assert(w.lines@ =~= before + profile_lines(cfg@.dpi, p@));
}

/// A complete config describing the device as it is, keeping the `[dpi]` and
/// `[device]` settings of `cfg`. Applying it should be an empty diff.
/// Disabled profiles only record that they are disabled; button mappings that the
/// config grammar cannot spell become comments; the daemon's shared slot is left out.
pub fn export(snap: &Snapshot, cfg: &Config) -> (r: Result<String, Error>)
    ensures
        r matches Ok(text) && text@ == written(export_lines(snap@, cfg@)),
{
    let mut w = Writer { text: String::new(), lines: Ghost(Seq::empty()) };
    write_head(&mut w, snap, cfg);
    let ghost head = w.lines@;
    let mut k: usize = 0;
    while k < snap.profiles.len()
        invariant
            w.is_consistent(),
            k <= snap.profiles.len(),
            w.lines@ == head + profiles_lines(cfg@.dpi, snap@.profiles, k as nat),
        decreases snap.profiles.len() - k,
    {
        write_profile(&mut w, cfg, &snap.profiles[k]);
        k += 1;
        assert(snap@.profiles[k - 1] == snap.profiles@[k - 1]@);
        assert(w.lines@ =~= head + profiles_lines(cfg@.dpi, snap@.profiles, k as nat));
    }
    assert(head =~= head_lines(snap@, cfg@));
    Ok(w.text)
}

} // verus!
