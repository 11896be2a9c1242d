//! The state of the window and what its parts show: an edit shows the exact diff, and
//! nothing is written until Apply is pressed.

use crate::config::{Config, ConfigModel};
use crate::edit::{
    edit_profile, editor_for, kind_default, parse_edit_hook, started_from, ButtonEdit, Edit,
    EditModel, Kind, LedEdit, SlotEdit,
};
use crate::ratbag::{ProfileInfo, ProfileModel, Snapshot, SnapshotModel};
use crate::report::diff_model;
use crate::text::{dec, decimal};
use vstd::prelude::*;

verus! {

// ---------------------------------------------------------------------------- state
/// Everything read from the device and config in one go.
#[derive(Debug, PartialEq)]
pub struct Data {
    pub cfg: Config,
    pub snap: Snapshot,
    /// Shared DPI (first synced profile, shared slot), if readable.
    pub shared_dpi: Option<u32>,
    /// How many places the device differs from `[profiles.*]` in the config.
    /// `None` = the config names no profiles; `Some(Err)` = cannot be applied.
    pub config_diff: Option<Result<usize, String>>,
}

#[derive(Debug, PartialEq)]
pub enum Load {
    Loading,
    Ready(Data),
    Failed(String),
}

#[derive(Debug, PartialEq)]
pub struct App {
    pub load: Load,
    pub selected: usize,
    /// Save a picture once everything is loaded, and exit.
    pub screenshot: bool,
    pub editor: Option<Edit>,
    /// What the last write came to, and whether that is good.
    pub notice: Option<(bool, String)>,
    pub busy: bool,
    pub auto_apply: bool,
}

#[derive(Debug, PartialEq)]
pub enum Message {
    Refresh,
    Loaded(Result<Data, String>),
    Select(usize),
    Edit(u32, u32),
    EditLed(u32, u32),
    EditRate(u32),
    EditProfile(u32, bool),
    EditSlot(u32, u32),
    SlotDpi(String),
    SlotEnabled(bool),
    EditKind(Kind),
    EditValue(String),
    LedMode(u32),
    LedColor(String),
    LedBrightness(String),
    RateHz(u32),
    CancelEdit,
    ApplyEdit,
    Applied(Result<String, String>),
    Capture,
    /// Whether there is a window.
    WindowId(bool),
    Captured,
}

/// What to do after a message.
#[derive(Debug, PartialEq)]
pub enum Action {
    Idle,
    /// Read the device and the config.
    Read,
    /// Write an edit through the shared write path.
    Write(Edit),
    /// Go on as if Apply had been pressed.
    Apply,
    /// Wait until everything is drawn, then capture.
    CaptureSoon,
    FindWindow,
    TakeScreenshot,
    /// Save the picture, and exit.
    SaveAndExit,
    Exit,
}

#[verifier::ext_equal]
pub struct DataModel {
    pub cfg: ConfigModel,
    pub snap: SnapshotModel,
    pub shared_dpi: Option<u32>,
    pub config_diff: Option<Result<nat, Seq<char>>>,
}

#[verifier::ext_equal]
pub enum LoadModel {
    Loading,
    Ready(DataModel),
    Failed(Seq<char>),
}

#[verifier::ext_equal]
pub struct AppModel {
    pub load: LoadModel,
    pub selected: usize,
    pub screenshot: bool,
    pub editor: Option<EditModel>,
    pub notice: Option<(bool, Seq<char>)>,
    pub busy: bool,
    pub auto_apply: bool,
}

#[verifier::ext_equal]
pub enum MessageModel {
    Refresh,
    Loaded(Result<DataModel, Seq<char>>),
    Select(usize),
    Edit(u32, u32),
    EditLed(u32, u32),
    EditRate(u32),
    EditProfile(u32, bool),
    EditSlot(u32, u32),
    SlotDpi(Seq<char>),
    SlotEnabled(bool),
    EditKind(Kind),
    EditValue(Seq<char>),
    LedMode(u32),
    LedColor(Seq<char>),
    LedBrightness(Seq<char>),
    RateHz(u32),
    CancelEdit,
    ApplyEdit,
    Applied(Result<Seq<char>, Seq<char>>),
    Capture,
    WindowId(bool),
    Captured,
}

#[verifier::ext_equal]
pub enum ActionModel {
    Idle,
    Read,
    Write(EditModel),
    Apply,
    CaptureSoon,
    FindWindow,
    TakeScreenshot,
    SaveAndExit,
    Exit,
}

impl View for Data {
    type V = DataModel;

    open spec fn view(&self) -> DataModel {
        DataModel {
            cfg: self.cfg@,
            snap: self.snap@,
            shared_dpi: self.shared_dpi,
            config_diff: match self.config_diff {
                Some(d) => Some(diff_model(d)),
                None => None,
            },
        }
    }
}

impl View for Load {
    type V = LoadModel;

    open spec fn view(&self) -> LoadModel {
        match *self {
            Load::Loading => LoadModel::Loading,
            Load::Ready(d) => LoadModel::Ready(d@),
            Load::Failed(e) => LoadModel::Failed(e@),
        }
    }
}

pub open spec fn editor_model(e: Option<Edit>) -> Option<EditModel> {
    match e {
        Some(x) => Some(x@),
        None => None,
    }
}

impl View for App {
    type V = AppModel;

    open spec fn view(&self) -> AppModel {
        AppModel {
            load: self.load@,
            selected: self.selected,
            screenshot: self.screenshot,
            editor: editor_model(self.editor),
            notice: match self.notice {
                Some((ok, t)) => Some((ok, t@)),
                None => None,
            },
            busy: self.busy,
            auto_apply: self.auto_apply,
        }
    }
}

impl View for Message {
    type V = MessageModel;

    open spec fn view(&self) -> MessageModel {
        match *self {
            Message::Refresh => MessageModel::Refresh,
            Message::Loaded(Ok(d)) => MessageModel::Loaded(Ok(d@)),
            Message::Loaded(Err(e)) => MessageModel::Loaded(Err(e@)),
            Message::Select(i) => MessageModel::Select(i),
            Message::Edit(p, b) => MessageModel::Edit(p, b),
            Message::EditLed(p, l) => MessageModel::EditLed(p, l),
            Message::EditRate(p) => MessageModel::EditRate(p),
            Message::EditProfile(p, d) => MessageModel::EditProfile(p, d),
            Message::EditSlot(p, s) => MessageModel::EditSlot(p, s),
            Message::SlotDpi(v) => MessageModel::SlotDpi(v@),
            Message::SlotEnabled(v) => MessageModel::SlotEnabled(v),
            Message::EditKind(k) => MessageModel::EditKind(k),
            Message::EditValue(v) => MessageModel::EditValue(v@),
            Message::LedMode(m) => MessageModel::LedMode(m),
            Message::LedColor(c) => MessageModel::LedColor(c@),
            Message::LedBrightness(b) => MessageModel::LedBrightness(b@),
            Message::RateHz(hz) => MessageModel::RateHz(hz),
            Message::CancelEdit => MessageModel::CancelEdit,
            Message::ApplyEdit => MessageModel::ApplyEdit,
            Message::Applied(Ok(t)) => MessageModel::Applied(Ok(t@)),
            Message::Applied(Err(t)) => MessageModel::Applied(Err(t@)),
            Message::Capture => MessageModel::Capture,
            Message::WindowId(w) => MessageModel::WindowId(w),
            Message::Captured => MessageModel::Captured,
        }
    }
}

impl View for Action {
    type V = ActionModel;

    open spec fn view(&self) -> ActionModel {
        match *self {
            Action::Idle => ActionModel::Idle,
            Action::Read => ActionModel::Read,
            Action::Write(e) => ActionModel::Write(e@),
            Action::Apply => ActionModel::Apply,
            Action::CaptureSoon => ActionModel::CaptureSoon,
            Action::FindWindow => ActionModel::FindWindow,
            Action::TakeScreenshot => ActionModel::TakeScreenshot,
            Action::SaveAndExit => ActionModel::SaveAndExit,
            Action::Exit => ActionModel::Exit,
        }
    }
}

// --------------------------------------------------------------------------- opening
/// The state of a window that opens: an editor that was asked for selects its profile.
pub open spec fn opened_window(
    screenshot: bool,
    profile: Option<usize>,
    editor: Option<EditModel>,
    apply: bool,
) -> AppModel {
    AppModel {
        load: LoadModel::Loading,
        selected: match (editor, profile) {
            (Some(e), _) => edit_profile(e) as usize,
            (None, Some(p)) => p,
            (None, None) => 0,
        },
        screenshot,
        editor,
        notice: None,
        busy: false,
        auto_apply: screenshot && apply,
    }
}

// -------------------------------------------------------------------------- updating
/// The profile at position `p` of what was read, if anything was.
pub open spec fn profile_at(l: LoadModel, p: u32) -> Option<ProfileModel> {
    match l {
        LoadModel::Ready(d) => if p < d.snap.profiles.len() {
            Some(d.snap.profiles[p as int])
        } else {
            None
        },
        _ => None,
    }
}

/// The editor of a button, as it opens.
pub open spec fn button_editor(l: LoadModel, p: u32, b: u32) -> Option<EditModel> {
    match profile_at(l, p) {
        Some(profile) => if b < profile.buttons.len() {
            let x = profile.buttons[b as int];
            let (kind, value) = started_from(x.raw_type, x.raw_value);
            Some(EditModel::Button { profile: p, button: b, kind, value })
        } else {
            None
        },
        None => None,
    }
}

pub open spec fn led_editor(l: LoadModel, p: u32, i: u32) -> Option<EditModel> {
    match profile_at(l, p) {
        Some(profile) => if i < profile.leds.len() {
            let x = profile.leds[i as int];
            Some(
                EditModel::Led {
                    profile: p,
                    led: i,
                    mode: x.mode,
                    color: x.color,
                    brightness: dec(x.brightness as nat),
                },
            )
        } else {
            None
        },
        None => None,
    }
}

pub open spec fn slot_editor(l: LoadModel, p: u32, i: u32) -> Option<EditModel> {
    match profile_at(l, p) {
        Some(profile) => if i < profile.resolutions.len() {
            let x = profile.resolutions[i as int];
            Some(
                EditModel::Slot {
                    profile: p,
                    slot: i,
                    dpi: match x.dpi {
                        Some(d) => dec(d as nat),
                        None => Seq::empty(),
                    },
                    enabled: !x.is_disabled,
                },
            )
        } else {
            None
        },
        None => None,
    }
}

pub open spec fn rate_editor(l: LoadModel, p: u32) -> Option<EditModel> {
    match profile_at(l, p) {
        Some(profile) => Some(EditModel::Rate { profile: p, hz: profile.report_rate }),
        None => None,
    }
}

/// Open an editor, if there is one to open; the last notice goes.
pub open spec fn opened(a: AppModel, editor: Option<EditModel>) -> AppModel {
    AppModel {
        notice: None,
        editor: match editor {
            Some(e) => Some(e),
            None => a.editor,
        },
        ..a
    }
}

/// The open editor after one of its inputs changed; a message for another kind of editor
/// changes nothing.
pub open spec fn typed(e: EditModel, m: MessageModel) -> EditModel {
    match (e, m) {
        (EditModel::Slot { profile, slot, enabled, .. }, MessageModel::SlotDpi(dpi)) => EditModel::Slot {
            profile,
            slot,
            dpi,
            enabled,
        },
        (EditModel::Slot { profile, slot, dpi, .. }, MessageModel::SlotEnabled(enabled)) => EditModel::Slot {
            profile,
            slot,
            dpi,
            enabled,
        },
        (EditModel::Button { profile, button, .. }, MessageModel::EditKind(kind)) => EditModel::Button {
            profile,
            button,
            kind,
            value: kind_default(kind),
        },
        (EditModel::Button { profile, button, kind, .. }, MessageModel::EditValue(value)) => EditModel::Button {
            profile,
            button,
            kind,
            value,
        },
        (EditModel::Led { profile, led, color, brightness, .. }, MessageModel::LedMode(mode)) => EditModel::Led {
            profile,
            led,
            mode,
            color,
            brightness,
        },
        (EditModel::Led { profile, led, mode, brightness, .. }, MessageModel::LedColor(color)) => EditModel::Led {
            profile,
            led,
            mode,
            color,
            brightness,
        },
        (
            EditModel::Led { profile, led, mode, color, .. },
            MessageModel::LedBrightness(brightness),
        ) => EditModel::Led { profile, led, mode, color, brightness },
        (EditModel::Rate { profile, .. }, MessageModel::RateHz(hz)) => EditModel::Rate { profile, hz },
        _ => e,
    }
}

/// The window after an input of its editor changed.
pub open spec fn edited(a: AppModel, m: MessageModel) -> AppModel {
    AppModel {
        editor: match a.editor {
            Some(e) => Some(typed(e, m)),
            None => None,
        },
        ..a
    }
}

/// After a (re)load: in screenshot mode, capture once things have settled.
pub open spec fn after_load_of(a: AppModel) -> ActionModel {
    if a.screenshot && !a.busy {
        ActionModel::CaptureSoon
    } else {
        ActionModel::Idle
    }
}

/// The window after a message, and what to do then.
pub open spec fn updated(a: AppModel, m: MessageModel) -> (AppModel, ActionModel) {
    match m {
        MessageModel::Refresh => (AppModel { load: LoadModel::Loading, ..a }, ActionModel::Read),
        MessageModel::Loaded(result) => {
            let load = match result {
                Ok(d) => LoadModel::Ready(d),
                Err(e) => LoadModel::Failed(e),
            };
            let b = AppModel { load, auto_apply: false, ..a };
            (
                b,
                if a.auto_apply {
                    ActionModel::Apply
                } else {
                    after_load_of(b)
                },
            )
        },
        MessageModel::Select(i) => (AppModel { selected: i, ..a }, ActionModel::Idle),
        MessageModel::Edit(p, b) => (opened(a, button_editor(a.load, p, b)), ActionModel::Idle),
        MessageModel::EditLed(p, i) => (opened(a, led_editor(a.load, p, i)), ActionModel::Idle),
        MessageModel::EditRate(p) => (opened(a, rate_editor(a.load, p)), ActionModel::Idle),
        MessageModel::EditProfile(profile, disable) => (
            opened(a, Some(EditModel::Profile { profile, disable })),
            ActionModel::Idle,
        ),
        MessageModel::EditSlot(p, i) => (opened(a, slot_editor(a.load, p, i)), ActionModel::Idle),
        MessageModel::CancelEdit => (AppModel { editor: None, ..a }, ActionModel::Idle),
        MessageModel::ApplyEdit => match a.editor {
            None => (a, ActionModel::Idle),
            Some(e) => (AppModel { busy: true, ..a }, ActionModel::Write(e)),
        },
        MessageModel::Applied(result) => (
            match result {
                Ok(t) => AppModel { busy: false, editor: None, notice: Some((true, t)), ..a },
                Err(t) => AppModel { busy: false, notice: Some((false, t)), ..a },
            },
            ActionModel::Read,
        ),
        MessageModel::Capture => (a, ActionModel::FindWindow),
        MessageModel::WindowId(found) => (
            a,
            if found {
                ActionModel::TakeScreenshot
            } else {
                ActionModel::Exit
            },
        ),
        MessageModel::Captured => (
            a,
            if a.screenshot {
                ActionModel::SaveAndExit
            } else {
                ActionModel::Exit
            },
        ),
        _ => (edited(a, m), ActionModel::Idle),
    }
}

/// The profile at position `p` of what was read.
fn find_profile(load: &Load, p: u32) -> (r: Option<&ProfileInfo>)
    ensures
        match (r, profile_at(load@, p)) {
            (Some(x), Some(m)) => x@ == m,
            (None, None) => true,
            _ => false,
        },
{
    match load {
        Load::Ready(d) => if (p as usize) < d.snap.profiles.len() {
            assert(d.snap.profiles@[p as int]@ == d@.snap.profiles[p as int]);
            Some(&d.snap.profiles[p as usize])
        } else {
            None
        },
        _ => None,
    }
}

fn open_button(load: &Load, p: u32, b: u32) -> (r: Option<Edit>)
    ensures
        editor_model(r) == button_editor(load@, p, b),
{
    match find_profile(load, p) {
        None => None,
        Some(profile) => {
            if (b as usize) >= profile.buttons.len() {
                return None;
            }
            let x = &profile.buttons[b as usize];
            assert(profile@.buttons[b as int] == x@);
            Some(Edit::Button(editor_for(p, x.raw_type, &x.raw_value, b)))
        },
    }
}

fn open_led(load: &Load, p: u32, i: u32) -> (r: Option<Edit>)
    ensures
        editor_model(r) == led_editor(load@, p, i),
{
    match find_profile(load, p) {
        None => None,
        Some(profile) => {
            if (i as usize) >= profile.leds.len() {
                return None;
            }
            let x = &profile.leds[i as usize];
            assert(profile@.leds[i as int] == x@);
            Some(
                Edit::Led(
                    LedEdit {
                        profile: p,
                        led: i,
                        mode: x.mode,
                        color: x.color.clone(),
                        brightness: decimal(x.brightness as u64),
                    },
                ),
            )
        },
    }
}

fn open_slot(load: &Load, p: u32, i: u32) -> (r: Option<Edit>)
    ensures
        editor_model(r) == slot_editor(load@, p, i),
{
    match find_profile(load, p) {
        None => None,
        Some(profile) => {
            if (i as usize) >= profile.resolutions.len() {
                return None;
            }
            let x = &profile.resolutions[i as usize];
            assert(profile@.resolutions[i as int] == x@);
            let dpi = match x.dpi {
                Some(d) => decimal(d as u64),
                None => String::new(),
            };
            Some(Edit::Slot(SlotEdit { profile: p, slot: i, dpi, enabled: !x.is_disabled }))
        },
    }
}

fn open_rate(load: &Load, p: u32) -> (r: Option<Edit>)
    ensures
        editor_model(r) == rate_editor(load@, p),
{
    match find_profile(load, p) {
        None => None,
        Some(profile) => Some(Edit::Rate { profile: p, hz: profile.report_rate }),
    }
}

/// The open editor after one of its inputs changed.
fn type_into(e: Edit, m: Message) -> (r: Edit)
    ensures
        r@ == typed(e@, m@),
{
    match (e, m) {
        (Edit::Slot(s), Message::SlotDpi(dpi)) => Edit::Slot(SlotEdit { dpi, ..s }),
        (Edit::Slot(s), Message::SlotEnabled(enabled)) => Edit::Slot(SlotEdit { enabled, ..s }),
        (Edit::Button(b), Message::EditKind(kind)) => Edit::Button(
            ButtonEdit { kind, value: kind.default_value().to_owned(), ..b },
        ),
        (Edit::Button(b), Message::EditValue(value)) => Edit::Button(ButtonEdit { value, ..b }),
        (Edit::Led(l), Message::LedMode(mode)) => Edit::Led(LedEdit { mode, ..l }),
        (Edit::Led(l), Message::LedColor(color)) => Edit::Led(LedEdit { color, ..l }),
        (Edit::Led(l), Message::LedBrightness(brightness)) => Edit::Led(
            LedEdit { brightness, ..l },
        ),
        (Edit::Rate { profile, .. }, Message::RateHz(hz)) => Edit::Rate { profile, hz },
        (other, _) => other,
    }
}

impl App {
    /// A window that opens. `profile` and `hook` pick a tab and an editor, `apply` presses
    /// Apply once loaded, all for use in screenshot mode.
    pub fn boot(screenshot: bool, profile: Option<usize>, hook: Option<&str>, apply: bool) -> (r: App)
        ensures
            r@ == opened_window(
                screenshot,
                profile,
                match hook {
                    Some(h) => crate::edit::hook_of(h@),
                    None => None,
                },
                apply,
            ),
    {
        let editor = match hook {
            Some(h) => parse_edit_hook(h),
            None => None,
        };
        let selected: usize = match (&editor, profile) {
            (Some(e), _) => e.profile() as usize,
            (None, Some(p)) => p,
            (None, None) => 0,
        };
        App {
            load: Load::Loading,
            selected,
            screenshot,
            editor,
            notice: None,
            busy: false,
            auto_apply: screenshot && apply,
        }
    }

    /// After a (re)load: in screenshot mode, capture once things have settled.
    fn after_load(&self) -> (r: Action)
        ensures
            r@ == after_load_of(self@),
    {
        if self.screenshot && !self.busy {
            Action::CaptureSoon
        } else {
            Action::Idle
        }
    }

    fn open(&mut self, editor: Option<Edit>) -> (r: Action)
        ensures
            final(self)@ == opened(old(self)@, editor_model(editor)),
            r@ == ActionModel::Idle,
    {
        self.notice = None;
        if editor.is_some() {
            self.editor = editor;
        }
        Action::Idle
    }

    pub fn update(&mut self, message: Message) -> (r: Action)
        ensures
            (final(self)@, r@) == updated(old(self)@, message@),
    {
        match message {
            Message::Refresh => {
                self.load = Load::Loading;
                Action::Read
            },
            Message::Loaded(result) => {
                self.load = match result {
                    Ok(data) => Load::Ready(data),
                    Err(e) => Load::Failed(e),
                };
                if self.auto_apply {
                    self.auto_apply = false;
                    return Action::Apply;
                }
                self.after_load()
            },
            Message::Edit(profile, button) => {
                let editor = open_button(&self.load, profile, button);
                self.open(editor)
            },
            Message::EditLed(profile, led) => {
                let editor = open_led(&self.load, profile, led);
                self.open(editor)
            },
            Message::EditRate(profile) => {
                let editor = open_rate(&self.load, profile);
                self.open(editor)
            },
            Message::EditProfile(profile, disable) => self.open(
                Some(Edit::Profile { profile, disable }),
            ),
            Message::EditSlot(profile, slot) => {
                let editor = open_slot(&self.load, profile, slot);
                self.open(editor)
            },
            Message::CancelEdit => {
                self.editor = None;
                Action::Idle
            },
            Message::ApplyEdit => {
                let edit = match &self.editor {
                    None => return Action::Idle,
                    Some(e) => e.clone(),
                };
                self.busy = true;
                Action::Write(edit)
            },
            Message::Applied(result) => {
                self.busy = false;
                match result {
                    Ok(msg) => {
                        self.editor = None;
                        self.notice = Some((true, msg));
                    },
                    Err(e) => {
                        self.notice = Some((false, e));
                    },
                }
                // Re-read what is really on the device.
                Action::Read
            },
            Message::Select(i) => {
                self.selected = i;
                Action::Idle
            },
            Message::Capture => Action::FindWindow,
            Message::WindowId(true) => Action::TakeScreenshot,
            Message::WindowId(false) => Action::Exit,
            Message::Captured => if self.screenshot {
                Action::SaveAndExit
            } else {
                Action::Exit
            },
            input => {
                let editor = self.editor.take();
                self.editor = match editor {
                    None => None,
                    Some(e) => Some(type_into(e, input)),
                };
                Action::Idle
            },
        }
    }
}

// ----------------------------------------------------------------------------- laws
/// Nothing is written before Apply: a write follows only that message, and writes the
/// edit that is open.
pub proof fn only_apply_writes(a: AppModel, m: MessageModel)
    ensures
        updated(a, m).1 matches ActionModel::Write(e) ==> m == MessageModel::ApplyEdit && a.editor
            == Some(e),
        updated(a, m).1 is Apply ==> a.auto_apply,
{
}

/// Whatever a write came to, the device is read again, and the window can be used.
pub proof fn the_device_is_reread_after_a_write(a: AppModel, r: Result<Seq<char>, Seq<char>>)
    ensures
        updated(a, MessageModel::Applied(r)).1 == ActionModel::Read,
        !updated(a, MessageModel::Applied(r)).0.busy,
        r is Err ==> updated(a, MessageModel::Applied(r)).0.editor == a.editor,
{
}

} // verus!
