//! What the parts of the window show, as plain values: texts, tones and which controls
//! can be used.

use crate::action::{led_mode_name, led_mode_text};
use crate::config::{color_of, holds, parse_color, ConfigModel};
use crate::daemon::{daemon_role, role_of};
use crate::edit::{edit_profile, edit_target, edit_title, Edit, EditModel};
use crate::error::Error;
use crate::gui::{App, AppModel, Data, DataModel};
use crate::ratbag::{
    copy_numbers, ButtonInfo, ButtonModel, LedInfo, LedModel, ProfileInfo, ProfileModel,
    ResolutionInfo, ResolutionModel,
};
use crate::restore::{is_part, nothing, plan, plan_of, Part, Planned};
use crate::text::{dec, join, list_text, number_list, push_dec, texts, views};
use vstd::prelude::*;

verus! {

/// How a text is drawn.
#[derive(Clone, Copy, Debug, PartialEq, Eq)]
pub enum Tone {
    Plain,
    Muted,
    Accent,
    Danger,
}

// --------------------------------------------------------------------------- header
/// The line under the name of the device.
pub fn subtitle(d: &Data) -> (r: String)
    ensures
        r@ == d@.snap.model + "   |   edits are only written when you press Apply"@,
{
    let mut s = d.snap.model.clone();
    s.append("   |   edits are only written when you press Apply");
    s
}

/// The label of a profile's tab.
pub open spec fn tab_words(p: ProfileModel, c: ConfigModel) -> Seq<char> {
    "Profile "@ + dec(p.index as nat) + (if c.dpi.profiles.contains(p.index) {
        "  (DPI sync)"@
    } else {
        ""@
    }) + (if p.disabled {
        "  off"@
    } else {
        ""@
    })
}

pub fn tab_label(d: &Data, p: &ProfileInfo) -> (r: String)
    ensures
        r@ == tab_words(p@, d@.cfg),
{
    let mut s = "Profile ".to_owned();
    push_dec(&mut s, p.index as u64);
    s.append(
        if holds(&d.cfg.dpi.profiles, p.index) {
            "  (DPI sync)"
        } else {
            ""
        },
    );
    s.append(
        if p.disabled {
            "  off"
        } else {
            ""
        },
    );
    s
}

/// The shared DPI and where it is kept.
pub open spec fn dpi_words(d: DataModel) -> Seq<char> {
    "Current: "@ + (match d.shared_dpi {
        Some(v) => dec(v as nat) + " DPI"@,
        None => "unknown"@,
    }) + "   (kept in sync across profiles "@ + number_list(d.cfg.dpi.profiles) + ", slot "@ + dec(
        d.cfg.dpi.shared_slot as nat,
    ) + ")"@
}

pub fn dpi_line(d: &Data) -> (r: String)
    ensures
        r@ == dpi_words(d@),
{
    let now = match d.shared_dpi {
        Some(v) => {
            let mut t = String::new();
            push_dec(&mut t, v as u64);
            t.append(" DPI");
            assert(t@ =~= dec(v as nat) + " DPI"@);
            t
        },
        None => "unknown".to_owned(),
    };
    let mut s = "Current: ".to_owned();
    s.append(now.as_str());
    s.append("   (kept in sync across profiles ");
    let list = list_text(&d.cfg.dpi.profiles);
    s.append(list.as_str());
    s.append(", slot ");
    push_dec(&mut s, d.cfg.dpi.shared_slot as u64);
    s.append(")");
    s
}

/// The stages, and which of them is the current one.
pub fn stage_chips(d: &Data) -> (r: Vec<(u32, bool)>)
    ensures
        r@ == Seq::new(
            d@.cfg.dpi.values.len(),
            |i: int| (d@.cfg.dpi.values[i], d@.shared_dpi == Some(d@.cfg.dpi.values[i])),
        ),
{
    let mut out: Vec<(u32, bool)> = Vec::new();
    let mut i: usize = 0;
    while i < d.cfg.dpi.values.len()
        invariant
            i <= d.cfg.dpi.values.len(),
            out.len() == i,
            forall|j: int|
                0 <= j < i ==> #[trigger] out@[j] == (
                    d@.cfg.dpi.values[j],
                    d@.shared_dpi == Some(d@.cfg.dpi.values[j]),
                ),
        decreases d.cfg.dpi.values.len() - i,
    {
        let v = d.cfg.dpi.values[i];
        let current = match d.shared_dpi {
            Some(s) => s == v,
            None => false,
        };
        out.push((v, current));
        i += 1;
    }
    assert(out@ =~= Seq::new(
        d@.cfg.dpi.values.len(),
        |i: int| (d@.cfg.dpi.values[i], d@.shared_dpi == Some(d@.cfg.dpi.values[i])),
    ));
    out
}

// --------------------------------------------------------------------------- editor
/// Exactly what would change, computed by the same code that writes it.
pub open spec fn preview_of(e: EditModel, d: DataModel) -> Part {
    match edit_target(e, d.snap, d.cfg) {
        Err(f) => Err(f),
        Ok(t) => plan_of(d.snap, t),
    }
}

/// The lines of a preview.
pub open spec fn preview_lines(p: Part) -> Seq<Seq<char>> {
    match p {
        Ok(v) => if v.len() == 0 {
            seq!["No change: the device already has this."@]
        } else {
            Seq::new(v.len(), |i: int| v[i].summary)
        },
        Err(e) => seq![join(e, ": "@)],
    }
}

pub open spec fn preview_tone(p: Part) -> Tone {
    match p {
        Ok(v) => if v.len() == 0 {
            Tone::Muted
        } else {
            Tone::Plain
        },
        Err(_) => Tone::Danger,
    }
}

/// There is something to write, and it can be written.
pub open spec fn is_change(p: Part) -> bool {
    p matches Ok(v) && v.len() > 0
}

/// The button being edited sends a key to g502d.
pub open spec fn touches_daemon(e: EditModel, d: DataModel) -> bool {
    match e {
        EditModel::Button { profile, button, .. } => profile < d.snap.profiles.len() && button
            < d.snap.profiles[profile as int].buttons.len() && ({
            let b = d.snap.profiles[profile as int].buttons[button as int];
            role_of(b.raw_type, b.raw_value) is Some
        }),
        _ => false,
    }
}

/// What to know before applying an edit.
pub open spec fn edit_warning(e: EditModel, d: DataModel, synced: bool) -> Option<(Seq<char>, Tone)> {
    if synced && touches_daemon(e, d) {
        Some(
            (
                "This button sends KEY_F13/KEY_F14 to g502d. Changing it turns off that DPI button."@,
                Tone::Danger,
            ),
        )
    } else if e is Led {
        Some(
            (
                "LED brightness is unreliable on the G502 HERO: ratbagd may report a value the LED does not follow."@,
                Tone::Muted,
            ),
        )
    } else {
        None
    }
}

/// The editor of one setting.
#[derive(Debug, PartialEq)]
pub struct EditorPanel {
    pub title: String,
    pub lines: Vec<String>,
    pub tone: Tone,
    pub warning: Option<(String, Tone)>,
    pub can_apply: bool,
    pub can_cancel: bool,
    pub note: String,
}

#[verifier::ext_equal]
pub struct EditorPanelModel {
    pub title: Seq<char>,
    pub lines: Seq<Seq<char>>,
    pub tone: Tone,
    pub warning: Option<(Seq<char>, Tone)>,
    pub can_apply: bool,
    pub can_cancel: bool,
    pub note: Seq<char>,
}

impl View for EditorPanel {
    type V = EditorPanelModel;

    open spec fn view(&self) -> EditorPanelModel {
        EditorPanelModel {
            title: self.title@,
            lines: texts(self.lines@),
            tone: self.tone,
            warning: match self.warning {
                Some((t, tone)) => Some((t@, tone)),
                None => None,
            },
            can_apply: self.can_apply,
            can_cancel: self.can_cancel,
            note: self.note@,
        }
    }
}

/// The editor shows the diff; Apply can be pressed where there is one to write.
pub open spec fn editor_panel_of(busy: bool, d: DataModel, e: EditModel, synced: bool) -> EditorPanelModel {
    let preview = preview_of(e, d);
    EditorPanelModel {
        title: "Edit "@ + edit_title(e),
        lines: preview_lines(preview),
        tone: preview_tone(preview),
        warning: edit_warning(e, d, synced),
        can_apply: is_change(preview) && !busy,
        can_cancel: !busy,
        note: if busy {
            "Writing to the mouse..."@
        } else {
            "Nothing is written until you press Apply. A backup of the current state is saved first."@
        },
    }
}

fn preview(e: &Edit, d: &Data) -> (r: Result<Vec<Planned>, Error>)
    ensures
        is_part(r, preview_of(e@, d@)),
{
    match e.target(&d.snap, &d.cfg) {
        Err(f) => Err(f),
        Ok(t) => plan(&d.snap, &t),
    }
}

fn summaries(p: &Vec<Planned>) -> (r: Vec<String>)
    ensures
        texts(r@) == Seq::new(p@.len(), |i: int| views(p@)[i].summary),
{
    let mut out: Vec<String> = Vec::new();
    let mut i: usize = 0;
    while i < p.len()
        invariant
            i <= p.len(),
            out.len() == i,
            forall|j: int| 0 <= j < i ==> (#[trigger] out@[j])@ == views(p@)[j].summary,
        decreases p.len() - i,
    {
        out.push(p[i].summary.clone());
        i += 1;
    }
    assert(texts(out@) =~= Seq::new(p@.len(), |i: int| views(p@)[i].summary));
    out
}

fn one_line(t: String) -> (r: Vec<String>)
    ensures
        texts(r@) == seq![t@],
{
    let mut out: Vec<String> = Vec::new();
    out.push(t);
    assert(texts(out@) =~= seq![t@]);
    out
}

fn sends_to_daemon(e: &Edit, d: &Data) -> (r: bool)
    ensures
        r == touches_daemon(e@, d@),
{
    match e {
        Edit::Button(b) => {
            if (b.profile as usize) >= d.snap.profiles.len() {
                return false;
            }
            let p = &d.snap.profiles[b.profile as usize];
            assert(d@.snap.profiles[b.profile as int] == p@);
            if (b.button as usize) >= p.buttons.len() {
                return false;
            }
            let x = &p.buttons[b.button as usize];
            assert(p@.buttons[b.button as int] == x@);
            daemon_role(x.raw_type, &x.raw_value).is_some()
        },
        _ => false,
    }
}

pub fn editor_panel(app: &App, d: &Data, edit: &Edit, synced: bool) -> (r: EditorPanel)
    ensures
        r@ == editor_panel_of(app@.busy, d@, edit@, synced),
{
    let mut title = "Edit ".to_owned();
    let what = edit.title();
    title.append(what.as_str());
    let (lines, tone, change) = match preview(edit, d) {
        Err(e) => (one_line(e.message()), Tone::Danger, false),
        Ok(p) => {
            assert(views(p@).len() == p@.len());
            if p.len() == 0 {
                (
                    one_line("No change: the device already has this.".to_owned()),
                    Tone::Muted,
                    false,
                )
            } else {
                (summaries(&p), Tone::Plain, true)
            }
        },
    };
    let warning = if synced && sends_to_daemon(edit, d) {
        Some(
            (
                "This button sends KEY_F13/KEY_F14 to g502d. Changing it turns off that DPI button.".to_owned(),
                Tone::Danger,
            ),
        )
    } else if matches!(edit, Edit::Led(_)) {
        Some(
            (
                "LED brightness is unreliable on the G502 HERO: ratbagd may report a value the LED does not follow.".to_owned(),
                Tone::Muted,
            ),
        )
    } else {
        None
    };
    let note = if app.busy {
        "Writing to the mouse..."
    } else {
        "Nothing is written until you press Apply. A backup of the current state is saved first."
    };
    EditorPanel {
        title,
        lines,
        tone,
        warning,
        can_apply: change && !app.busy,
        can_cancel: !app.busy,
        note: note.to_owned(),
    }
}

/// The report rates to choose from.
pub fn rate_choices(d: &Data, profile: u32) -> (r: Vec<u32>)
    ensures
        r@ == if profile < d@.snap.profiles.len() {
            d@.snap.profiles[profile as int].report_rates
        } else {
            Seq::empty()
        },
{
    if (profile as usize) < d.snap.profiles.len() {
        assert(d@.snap.profiles[profile as int] == d.snap.profiles@[profile as int]@);
        copy_numbers(&d.snap.profiles[profile as usize].report_rates)
    } else {
        Vec::new()
    }
}

/// What enabling or disabling a profile does.
pub fn profile_edit_text(disable: bool) -> (r: &'static str)
    ensures
        r@ == if disable {
            "The profile will be disabled: the mouse can no longer switch to it."@
        } else {
            "The profile will be enabled with the settings it currently has."@
        },
{
    if disable {
        "The profile will be disabled: the mouse can no longer switch to it."
    } else {
        "The profile will be enabled with the settings it currently has."
    }
}

// ------------------------------------------------------------------------------ rows
/// A button of a profile: what it does, and where that runs.
#[derive(Debug, PartialEq)]
pub struct ButtonRow {
    pub button: u32,
    pub label: String,
    pub action: String,
    pub place: String,
    pub tone: Tone,
    pub can_edit: bool,
}

#[verifier::ext_equal]
pub struct ButtonRowModel {
    pub button: u32,
    pub label: Seq<char>,
    pub action: Seq<char>,
    pub place: Seq<char>,
    pub tone: Tone,
    pub can_edit: bool,
}

impl View for ButtonRow {
    type V = ButtonRowModel;

    open spec fn view(&self) -> ButtonRowModel {
        ButtonRowModel {
            button: self.button,
            label: self.label@,
            action: self.action@,
            place: self.place@,
            tone: self.tone,
            can_edit: self.can_edit,
        }
    }
}

/// A resolution slot of a profile. The one that g502d owns has no editor.
#[derive(Debug, PartialEq)]
pub struct SlotRow {
    pub slot: u32,
    pub text: String,
    pub shared: bool,
    pub can_edit: bool,
}

#[verifier::ext_equal]
pub struct SlotRowModel {
    pub slot: u32,
    pub text: Seq<char>,
    pub shared: bool,
    pub can_edit: bool,
}

impl View for SlotRow {
    type V = SlotRowModel;

    open spec fn view(&self) -> SlotRowModel {
        SlotRowModel {
            slot: self.slot,
            text: self.text@,
            shared: self.shared,
            can_edit: self.can_edit,
        }
    }
}

/// An LED of a profile, with the colour to draw.
#[derive(Debug, PartialEq)]
pub struct LedRow {
    pub led: u32,
    pub color: (u8, u8, u8),
    pub text: String,
    pub can_edit: bool,
}

#[verifier::ext_equal]
pub struct LedRowModel {
    pub led: u32,
    pub color: (u8, u8, u8),
    pub text: Seq<char>,
    pub can_edit: bool,
}

impl View for LedRow {
    type V = LedRowModel;

    open spec fn view(&self) -> LedRowModel {
        LedRowModel {
            led: self.led,
            color: self.color,
            text: self.text@,
            can_edit: self.can_edit,
        }
    }
}

/// The button is the one whose editor is open.
pub open spec fn edits_button(a: AppModel, p: u32, b: u32) -> bool {
    a.editor matches Some(EditModel::Button { profile, button, .. }) && profile == p && button == b
}

pub open spec fn edits_slot(a: AppModel, p: u32, s: u32) -> bool {
    a.editor matches Some(EditModel::Slot { profile, slot, .. }) && profile == p && slot == s
}

pub open spec fn edits_led(a: AppModel, p: u32, l: u32) -> bool {
    a.editor matches Some(EditModel::Led { profile, led, .. }) && profile == p && led == l
}

pub open spec fn edits_rate(a: AppModel, p: u32) -> bool {
    a.editor matches Some(EditModel::Rate { profile, .. }) && profile == p
}

pub open spec fn edits_profile(a: AppModel) -> bool {
    a.editor matches Some(EditModel::Profile { .. })
}

pub open spec fn button_row_of(a: AppModel, p: u32, synced: bool, b: ButtonModel) -> ButtonRowModel {
    let role = if synced {
        role_of(b.raw_type, b.raw_value)
    } else {
        None
    };
    ButtonRowModel {
        button: b.index,
        label: "Button "@ + dec(b.index as nat),
        action: b.action,
        place: match role {
            Some(r) => "onboard macro, read by g502d: "@ + r,
            None => "onboard (stored in the mouse)"@,
        },
        tone: if role is Some {
            Tone::Accent
        } else {
            Tone::Muted
        },
        can_edit: !a.busy && !edits_button(a, p, b.index),
    }
}

pub open spec fn slot_row_of(a: AppModel, c: ConfigModel, p: u32, r: ResolutionModel) -> SlotRowModel {
    let shared = c.dpi.profiles.contains(p) && r.index == c.dpi.shared_slot;
    SlotRowModel {
        slot: r.index,
        text: "Slot "@ + dec(r.index as nat) + ": "@ + (match r.dpi {
            Some(v) => dec(v as nat) + " DPI"@,
            None => "?"@,
        }) + (if shared {
            "  shared, managed by g502d"@
        } else if r.is_disabled {
            "  disabled"@
        } else {
            ""@
        }),
        shared,
        can_edit: !shared && !a.busy && !edits_slot(a, p, r.index),
    }
}

pub open spec fn led_row_of(a: AppModel, p: u32, l: LedModel) -> LedRowModel {
    LedRowModel {
        led: l.index,
        color: match color_of(l.color) {
            Ok(c) => c,
            Err(_) => (128, 128, 128),
        },
        text: "LED "@ + dec(l.index as nat) + ": "@ + (match led_mode_text(l.mode) {
            Some(m) => m,
            None => "mode "@ + dec(l.mode as nat),
        }) + ", #"@ + l.color,
        can_edit: !a.busy && !edits_led(a, p, l.index),
    }
}

fn button_row(app: &App, p: u32, synced: bool, b: &ButtonInfo) -> (r: ButtonRow)
    ensures
        r@ == button_row_of(app@, p, synced, b@),
{
    let role = if synced {
        daemon_role(b.raw_type, &b.raw_value)
    } else {
        None
    };
    let mut label = "Button ".to_owned();
    push_dec(&mut label, b.index as u64);
    let (place, tone) = match role {
        Some(r) => {
            let mut s = "onboard macro, read by g502d: ".to_owned();
            s.append(r);
            (s, Tone::Accent)
        },
        None => ("onboard (stored in the mouse)".to_owned(), Tone::Muted),
    };
    let editing = match &app.editor {
        Some(Edit::Button(e)) => e.profile == p && e.button == b.index,
        _ => false,
    };
    ButtonRow {
        button: b.index,
        label,
        action: b.action.clone(),
        place,
        tone,
        can_edit: !app.busy && !editing,
    }
}

fn slot_row(app: &App, d: &Data, p: u32, r: &ResolutionInfo) -> (s: SlotRow)
    ensures
        s@ == slot_row_of(app@, d@.cfg, p, r@),
{
    let shared = holds(&d.cfg.dpi.profiles, p) && r.index == d.cfg.dpi.shared_slot;
    let mut text = "Slot ".to_owned();
    push_dec(&mut text, r.index as u64);
    text.append(": ");
    let mut dpi = String::new();
    match r.dpi {
        Some(v) => {
            push_dec(&mut dpi, v as u64);
            dpi.append(" DPI");
            assert(dpi@ =~= dec(v as nat) + " DPI"@);
        },
        None => {
            dpi.append("?");
            assert(dpi@ =~= "?"@);
        },
    }
    text.append(dpi.as_str());
    text.append(
        if shared {
            "  shared, managed by g502d"
        } else if r.is_disabled {
            "  disabled"
        } else {
            ""
        },
    );
    let editing = match &app.editor {
        Some(Edit::Slot(e)) => e.profile == p && e.slot == r.index,
        _ => false,
    };
    SlotRow { slot: r.index, text, shared, can_edit: !shared && !app.busy && !editing }
}

fn led_row(app: &App, p: u32, l: &LedInfo) -> (r: LedRow)
    ensures
        r@ == led_row_of(app@, p, l@),
{
    let color = match parse_color(l.color.as_str()) {
        Ok(c) => c,
        Err(_) => (128, 128, 128),
    };
    let mut text = "LED ".to_owned();
    push_dec(&mut text, l.index as u64);
    text.append(": ");
    match led_mode_name(l.mode) {
        Some(m) => text.append(m),
        None => {
            let mut m = "mode ".to_owned();
            push_dec(&mut m, l.mode as u64);
            text.append(m.as_str());
        },
    }
    text.append(", #");
    text.append(l.color.as_str());
    let editing = match &app.editor {
        Some(Edit::Led(e)) => e.profile == p && e.led == l.index,
        _ => false,
    };
    LedRow { led: l.index, color, text, can_edit: !app.busy && !editing }
}

fn button_rows(app: &App, synced: bool, p: &ProfileInfo) -> (r: Vec<ButtonRow>)
    ensures
        views(r@) == Seq::new(
            p@.buttons.len(),
            |i: int| button_row_of(app@, p@.index, synced, p@.buttons[i]),
        ),
{
    let mut out: Vec<ButtonRow> = Vec::new();
    let mut i: usize = 0;
    while i < p.buttons.len()
        invariant
            i <= p.buttons.len(),
            out.len() == i,
            forall|j: int|
                0 <= j < i ==> (#[trigger] out@[j])@ == button_row_of(
                    app@,
                    p@.index,
                    synced,
                    p@.buttons[j],
                ),
        decreases p.buttons.len() - i,
    {
        assert(p@.buttons[i as int] == p.buttons@[i as int]@);
        out.push(button_row(app, p.index, synced, &p.buttons[i]));
        i += 1;
    }
    assert(views(out@) =~= Seq::new(
        p@.buttons.len(),
        |i: int| button_row_of(app@, p@.index, synced, p@.buttons[i]),
    ));
    out
}

fn slot_rows(app: &App, d: &Data, p: &ProfileInfo) -> (r: Vec<SlotRow>)
    ensures
        views(r@) == Seq::new(
            p@.resolutions.len(),
            |i: int| slot_row_of(app@, d@.cfg, p@.index, p@.resolutions[i]),
        ),
{
    let mut out: Vec<SlotRow> = Vec::new();
    let mut i: usize = 0;
    while i < p.resolutions.len()
        invariant
            i <= p.resolutions.len(),
            out.len() == i,
            forall|j: int|
                0 <= j < i ==> (#[trigger] out@[j])@ == slot_row_of(
                    app@,
                    d@.cfg,
                    p@.index,
                    p@.resolutions[j],
                ),
        decreases p.resolutions.len() - i,
    {
        assert(p@.resolutions[i as int] == p.resolutions@[i as int]@);
        out.push(slot_row(app, d, p.index, &p.resolutions[i]));
        i += 1;
    }
    assert(views(out@) =~= Seq::new(
        p@.resolutions.len(),
        |i: int| slot_row_of(app@, d@.cfg, p@.index, p@.resolutions[i]),
    ));
    out
}

fn led_rows(app: &App, p: &ProfileInfo) -> (r: Vec<LedRow>)
    ensures
        views(r@) == Seq::new(p@.leds.len(), |i: int| led_row_of(app@, p@.index, p@.leds[i])),
{
    let mut out: Vec<LedRow> = Vec::new();
    let mut i: usize = 0;
    while i < p.leds.len()
        invariant
            i <= p.leds.len(),
            out.len() == i,
            forall|j: int|
                0 <= j < i ==> (#[trigger] out@[j])@ == led_row_of(app@, p@.index, p@.leds[j]),
        decreases p.leds.len() - i,
    {
        assert(p@.leds[i as int] == p.leds@[i as int]@);
        out.push(led_row(app, p.index, &p.leds[i]));
        i += 1;
    }
    assert(views(out@) =~= Seq::new(
        p@.leds.len(),
        |i: int| led_row_of(app@, p@.index, p@.leds[i]),
    ));
    out
}

// --------------------------------------------------------------------------- profile
/// Everything about a profile. A disabled one can only be enabled.
#[derive(Debug, PartialEq)]
pub struct ProfilePanel {
    pub title: String,
    pub state: String,
    pub disabled: bool,
    /// Whether the profile can be enabled or disabled from here at all.
    pub has_toggle: bool,
    pub can_toggle: bool,
    pub buttons: Vec<ButtonRow>,
    pub slots: Vec<SlotRow>,
    pub rate: String,
    pub can_edit_rate: bool,
    pub leds: Vec<LedRow>,
    pub editor: Option<EditorPanel>,
}

#[verifier::ext_equal]
pub struct ProfilePanelModel {
    pub title: Seq<char>,
    pub state: Seq<char>,
    pub disabled: bool,
    pub has_toggle: bool,
    pub can_toggle: bool,
    pub buttons: Seq<ButtonRowModel>,
    pub slots: Seq<SlotRowModel>,
    pub rate: Seq<char>,
    pub can_edit_rate: bool,
    pub leds: Seq<LedRowModel>,
    pub editor: Option<EditorPanelModel>,
}

impl View for ProfilePanel {
    type V = ProfilePanelModel;

    open spec fn view(&self) -> ProfilePanelModel {
        ProfilePanelModel {
            title: self.title@,
            state: self.state@,
            disabled: self.disabled,
            has_toggle: self.has_toggle,
            can_toggle: self.can_toggle,
            buttons: views(self.buttons@),
            slots: views(self.slots@),
            rate: self.rate@,
            can_edit_rate: self.can_edit_rate,
            leds: views(self.leds@),
            editor: match self.editor {
                Some(e) => Some(e@),
                None => None,
            },
        }
    }
}

/// The open editor, where it is about profile `p`.
pub open spec fn editor_on(a: AppModel, d: DataModel, p: u32, synced: bool) -> Option<
    EditorPanelModel,
> {
    match a.editor {
        Some(e) => if edit_profile(e) == p {
            Some(editor_panel_of(a.busy, d, e, synced))
        } else {
            None
        },
        None => None,
    }
}

pub open spec fn profile_panel_of(a: AppModel, d: DataModel, p: ProfileModel) -> ProfilePanelModel {
    let synced = d.cfg.dpi.profiles.contains(p.index);
    if p.disabled {
        ProfilePanelModel {
            title: "Profile "@ + dec(p.index as nat),
            state: "Disabled on the device."@,
            disabled: true,
            has_toggle: true,
            can_toggle: !a.busy && !edits_profile(a),
            buttons: Seq::empty(),
            slots: Seq::empty(),
            rate: Seq::empty(),
            can_edit_rate: false,
            leds: Seq::empty(),
            editor: editor_on(a, d, p.index, false),
        }
    } else {
        ProfilePanelModel {
            title: "Profile "@ + dec(p.index as nat) + " - buttons"@,
            state: if synced {
                "Profile "@ + dec(p.index as nat)
                    + " keeps the shared DPI in sync through g502d, so it cannot be disabled here."@
            } else {
                "This profile is enabled."@
            },
            disabled: false,
            has_toggle: !synced,
            can_toggle: !synced && !a.busy && !edits_profile(a),
            buttons: Seq::new(
                p.buttons.len(),
                |i: int| button_row_of(a, p.index, synced, p.buttons[i]),
            ),
            slots: Seq::new(
                p.resolutions.len(),
                |i: int| slot_row_of(a, d.cfg, p.index, p.resolutions[i]),
            ),
            rate: "Report rate: "@ + dec(p.report_rate as nat) + " Hz (supports "@ + number_list(
                p.report_rates,
            ) + ")"@,
            can_edit_rate: !a.busy && !edits_rate(a, p.index),
            leds: Seq::new(p.leds.len(), |i: int| led_row_of(a, p.index, p.leds[i])),
            editor: editor_on(a, d, p.index, synced),
        }
    }
}

fn open_editor(app: &App, d: &Data, p: u32, synced: bool) -> (r: Option<EditorPanel>)
    ensures
        match (r, editor_on(app@, d@, p, synced)) {
            (Some(e), Some(m)) => e@ == m,
            (None, None) => true,
            _ => false,
        },
{
    match &app.editor {
        None => None,
        Some(e) => if e.profile() == p {
            Some(editor_panel(app, d, e, synced))
        } else {
            None
        },
    }
}

pub fn profile_panel(app: &App, d: &Data, p: &ProfileInfo) -> (r: ProfilePanel)
    ensures
        r@ == profile_panel_of(app@, d@, p@),
{
    let toggling = matches!(&app.editor, Some(Edit::Profile { .. }));
    let mut title = "Profile ".to_owned();
    push_dec(&mut title, p.index as u64);
    if p.disabled {
        let buttons: Vec<ButtonRow> = Vec::new();
        let slots: Vec<SlotRow> = Vec::new();
        let leds: Vec<LedRow> = Vec::new();
        assert(views(buttons@) =~= Seq::empty());
        assert(views(slots@) =~= Seq::empty());
        assert(views(leds@) =~= Seq::empty());
        return ProfilePanel {
            title,
            state: "Disabled on the device.".to_owned(),
            disabled: true,
            has_toggle: true,
            can_toggle: !app.busy && !toggling,
            buttons,
            slots,
            rate: String::new(),
            can_edit_rate: false,
            leds,
            editor: open_editor(app, d, p.index, false),
        };
    }
    title.append(" - buttons");
    let synced = holds(&d.cfg.dpi.profiles, p.index);
    let state = if synced {
        let mut s = "Profile ".to_owned();
        push_dec(&mut s, p.index as u64);
        s.append(" keeps the shared DPI in sync through g502d, so it cannot be disabled here.");
        s
    } else {
        "This profile is enabled.".to_owned()
    };
    let mut rate = "Report rate: ".to_owned();
    push_dec(&mut rate, p.report_rate as u64);
    rate.append(" Hz (supports ");
    let list = list_text(&p.report_rates);
    rate.append(list.as_str());
    rate.append(")");
    let editing_rate = match &app.editor {
        Some(Edit::Rate { profile, .. }) => *profile == p.index,
        _ => false,
    };
    ProfilePanel {
        title,
        state,
        disabled: false,
        has_toggle: !synced,
        can_toggle: !synced && !app.busy && !toggling,
        buttons: button_rows(app, synced, p),
        slots: slot_rows(app, d, p),
        rate,
        can_edit_rate: !app.busy && !editing_rate,
        leds: led_rows(app, p),
        editor: open_editor(app, d, p.index, synced),
    }
}

// ----------------------------------------------------------------------------- laws
/// Apply can be pressed only where the preview has a change that the device supports,
/// and never during a write.
pub proof fn apply_needs_a_change(busy: bool, d: DataModel, e: EditModel, synced: bool)
    ensures
        editor_panel_of(busy, d, e, synced).can_apply ==> !busy && edit_target(e, d.snap, d.cfg) is Ok
            && plan_of(d.snap, edit_target(e, d.snap, d.cfg)->Ok_0) is Ok && plan_of(
            d.snap,
            edit_target(e, d.snap, d.cfg)->Ok_0,
        )->Ok_0.len() > 0,
{
}

/// The slot that holds the shared DPI of a synced profile cannot be edited, nor such a
/// profile be disabled, from the window.
pub proof fn the_daemons_settings_have_no_editor(a: AppModel, d: DataModel, p: ProfileModel, i: int)
    requires
        d.cfg.dpi.profiles.contains(p.index),
        !p.disabled,
        0 <= i < p.resolutions.len(),
    ensures
        !profile_panel_of(a, d, p).can_toggle,
        p.resolutions[i].index == d.cfg.dpi.shared_slot ==> !profile_panel_of(
            a,
            d,
            p,
        ).slots[i].can_edit,
{
}

/// Apply can be pressed exactly where nothing is being written and the edit would change
/// something that the device supports; the lines are those changes.
pub proof fn apply_can_be_pressed_where_there_is_a_change(
    busy: bool,
    d: DataModel,
    e: EditModel,
    synced: bool,
)
    ensures
        ({
            let panel = editor_panel_of(busy, d, e, synced);
            let target = edit_target(e, d.snap, d.cfg);
            &&& panel.can_cancel == !busy
            &&& panel.can_apply <==> !busy && target is Ok && plan_of(d.snap, target->Ok_0) is Ok
                && plan_of(d.snap, target->Ok_0) != nothing()
            &&& panel.tone == Tone::Danger <==> target is Err || plan_of(d.snap, target->Ok_0) is Err
            &&& target is Ok && plan_of(d.snap, target->Ok_0) is Ok && plan_of(d.snap, target->Ok_0)
                != nothing() ==> {
                let plan = plan_of(d.snap, target->Ok_0)->Ok_0;
                &&& panel.lines.len() == plan.len()
                &&& forall|i: int| 0 <= i < plan.len() ==> #[trigger] panel.lines[i] == plan[i].summary
            }
            &&& target matches Err(f) ==> panel.lines == seq![join(f, ": "@)]
        }),
{
    let target = edit_target(e, d.snap, d.cfg);
    if target is Ok && plan_of(d.snap, target->Ok_0) is Ok {
        let plan = plan_of(d.snap, target->Ok_0)->Ok_0;
        if plan.len() == 0 {
            assert(plan =~= Seq::empty());
        }
    }
}

/// The editor of a button warns exactly where the profile is synced and the button is one of
/// the two that g502d reads.
pub proof fn the_daemons_buttons_are_warned_of(d: DataModel, e: EditModel, synced: bool)
    ensures
        edit_warning(e, d, synced) matches Some((_, tone)) ==> (tone == Tone::Danger <==> synced
            && touches_daemon(e, d)),
        synced && touches_daemon(e, d) ==> edit_warning(e, d, synced) is Some,
        touches_daemon(e, d) ==> e is Button,
        e is Button && !(synced && touches_daemon(e, d)) ==> edit_warning(e, d, synced) is None,
        e is Led ==> edit_warning(e, d, synced) is Some,
{
}

/// The panel of an enabled profile has a row for each of its buttons, slots and LEDs, which
/// shows that part and can be edited while nothing is being written, unless its editor is
/// open or g502d owns it; that of a disabled one has none.
pub proof fn a_panel_shows_the_profile(a: AppModel, d: DataModel, p: ProfileModel, i: int)
    ensures
        ({
            let panel = profile_panel_of(a, d, p);
            let synced = d.cfg.dpi.profiles.contains(p.index);
            &&& panel.disabled == p.disabled
            &&& panel.has_toggle == (p.disabled || !synced)
            &&& panel.can_toggle == (panel.has_toggle && !a.busy && !(a.editor matches Some(
                EditModel::Profile { .. },
            )))
            &&& panel.editor is Some <==> a.editor is Some && edit_profile(a.editor->0) == p.index
            &&& p.disabled ==> panel.buttons.len() == 0 && panel.slots.len() == 0
                && panel.leds.len() == 0 && !panel.can_edit_rate
            &&& !p.disabled ==> panel.buttons.len() == p.buttons.len() && panel.slots.len()
                == p.resolutions.len() && panel.leds.len() == p.leds.len()
            &&& !p.disabled ==> panel.can_edit_rate == (!a.busy && !(a.editor matches Some(
                EditModel::Rate { profile, .. },
            ) && profile == p.index))
            &&& !p.disabled && 0 <= i < p.buttons.len() ==> {
                let row = panel.buttons[i];
                let b = p.buttons[i];
                &&& row.button == b.index
                &&& row.action == b.action
                &&& row.tone == Tone::Accent <==> synced && role_of(b.raw_type, b.raw_value) is Some
                &&& row.can_edit == (!a.busy && !(a.editor matches Some(
                    EditModel::Button { profile, button, .. },
                ) && profile == p.index && button == b.index))
            }
            &&& !p.disabled && 0 <= i < p.resolutions.len() ==> {
                let row = panel.slots[i];
                let r = p.resolutions[i];
                &&& row.slot == r.index
                &&& row.shared == (synced && r.index == d.cfg.dpi.shared_slot)
                &&& row.can_edit == (!row.shared && !a.busy && !(a.editor matches Some(
                    EditModel::Slot { profile, slot, .. },
                ) && profile == p.index && slot == r.index))
            }
            &&& !p.disabled && 0 <= i < p.leds.len() ==> {
                let row = panel.leds[i];
                let l = p.leds[i];
                &&& row.led == l.index
                &&& color_of(l.color) matches Ok(c) ==> row.color == c
                &&& row.can_edit == (!a.busy && !(a.editor matches Some(
                    EditModel::Led { profile, led, .. },
                ) && profile == p.index && led == l.index))
            }
        }),
{
}

/// The texts of a panel show the settings: a tab whether its profile is synced or off, a slot
/// its DPI and whether g502d owns it or it is disabled, an LED its mode and colour, and the
/// header the shared DPI.
pub proof fn texts_show_the_settings(
    a: AppModel,
    d: DataModel,
    p: ProfileModel,
    r: ResolutionModel,
    l: LedModel,
)
    ensures
        tab_words(p, d.cfg) == "Profile "@ + dec(p.index as nat) + (if d.cfg.dpi.profiles.contains(
            p.index,
        ) {
            "  (DPI sync)"@
        } else {
            ""@
        }) + (if p.disabled {
            "  off"@
        } else {
            ""@
        }),
        slot_row_of(a, d.cfg, p.index, r).text == "Slot "@ + dec(r.index as nat) + ": "@ + (
        match r.dpi {
            Some(v) => dec(v as nat) + " DPI"@,
            None => "?"@,
        }) + (if r.index == d.cfg.dpi.shared_slot && d.cfg.dpi.profiles.contains(p.index) {
            "  shared, managed by g502d"@
        } else if r.is_disabled {
            "  disabled"@
        } else {
            ""@
        }),
        led_row_of(a, p.index, l).text == "LED "@ + dec(l.index as nat) + ": "@ + (
        match led_mode_text(l.mode) {
            Some(m) => m,
            None => "mode "@ + dec(l.mode as nat),
        }) + ", #"@ + l.color,
        dpi_words(d) == "Current: "@ + (match d.shared_dpi {
            Some(v) => dec(v as nat) + " DPI"@,
            None => "unknown"@,
        }) + "   (kept in sync across profiles "@ + number_list(d.cfg.dpi.profiles) + ", slot "@ + dec(
            d.cfg.dpi.shared_slot as nat,
        ) + ")"@,
{
}

} // verus!
