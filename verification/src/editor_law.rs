//! What the editors of the window are for: they open on what the device has, each input
//! changes one thing, and what is applied is what they show.

use crate::action::{action_of, description, special_actions_have_their_ids, spelled_value, spelling_of};
use crate::apply::color_text;
use crate::config::{color_of, ConfigModel};
use crate::edit::{
    an_editor_opens_on_the_current_action, edit_profile, edit_target, edit_words, kind_default, lemma_trimmed_word, EditModel, Kind,
};
use crate::error::Failure;
use crate::gui::{
    button_editor, led_editor, opened_window, rate_editor, slot_editor, typed, updated, ActionModel, AppModel, DataModel, LoadModel,
    MessageModel,
};
use crate::overlay_law::{
    color_text_reads_back, disabling_a_profile_sets_only_it, edits_only_profile, setting_a_button_sets_only_it,
    setting_a_report_rate_sets_only_it, setting_a_slot_sets_only_it, setting_an_led_sets_only_it,
};
use crate::ratbag::{RawModel, SnapshotModel};
use crate::text::{dec, is_word, lemma_number_of_dec, number, trimmed};
use vstd::prelude::*;

verus! {

// --------------------------------------------------------------------------- applying
/// What an edit asks for is what it shows: the setting that it names has its values, every
/// other profile stays as it is, and so do the other parts of this one.
pub proof fn an_edit_asks_for_what_it_shows(e: EditModel, s: SnapshotModel, c: ConfigModel)
    ensures
        edit_target(e, s, c) matches Ok(t) ==> match e {
            EditModel::Button { profile, button, kind, value } => {
                let p = s.profiles[profile as int];
                let q = t.profiles[profile as int];
                let b = q.buttons[button as int];
                &&& edits_only_profile(s, t, profile)
                &&& button < p.buttons.len() == q.buttons.len()
                &&& action_of(edit_words(kind, value)) == Ok::<
                    (u32, Option<RawModel>),
                    Failure,
                >((b.raw_type, b.raw_value))
                &&& b.action == description(b.raw_type, b.raw_value)
                &&& forall|k: int|
                    0 <= k < p.buttons.len() && k != button ==> #[trigger] q.buttons[k] == p.buttons[k]
                &&& q.leds == p.leds && q.resolutions == p.resolutions
                &&& q.disabled == p.disabled && q.report_rate == p.report_rate
            },
            EditModel::Led { profile, led, mode, color, brightness } => {
                let p = s.profiles[profile as int];
                let q = t.profiles[profile as int];
                let l = q.leds[led as int];
                &&& edits_only_profile(s, t, profile)
                &&& led < p.leds.len() == q.leds.len()
                &&& l.mode == mode
                &&& color_of(color) is Ok && color_of(l.color) == color_of(color)
                &&& number(trimmed(brightness)) == Some(l.brightness) && l.brightness <= 255
                &&& forall|k: int|
                    0 <= k < p.leds.len() && k != led ==> #[trigger] q.leds[k] == p.leds[k]
                &&& q.buttons == p.buttons && q.resolutions == p.resolutions
                &&& q.disabled == p.disabled && q.report_rate == p.report_rate
            },
            EditModel::Rate { profile, hz } => {
                let p = s.profiles[profile as int];
                let q = t.profiles[profile as int];
                &&& edits_only_profile(s, t, profile)
                &&& q.report_rate == hz
                &&& q.buttons == p.buttons && q.resolutions == p.resolutions && q.leds == p.leds
                &&& q.disabled == p.disabled
            },
            EditModel::Profile { profile, disable } => {
                let p = s.profiles[profile as int];
                let q = t.profiles[profile as int];
                &&& edits_only_profile(s, t, profile)
                &&& q.disabled == disable
                &&& q.buttons == p.buttons && q.resolutions == p.resolutions && q.leds == p.leds
                &&& q.report_rate == p.report_rate
            },
            EditModel::Slot { profile, slot, dpi, enabled } => {
                let p = s.profiles[profile as int];
                let q = t.profiles[profile as int];
                let r = q.resolutions[slot as int];
                &&& edits_only_profile(s, t, profile)
                &&& slot < p.resolutions.len() == q.resolutions.len()
                &&& !(slot == c.dpi.shared_slot && c.dpi.profiles.contains(profile))
                &&& number(trimmed(dpi)) is Some && r.dpi == number(trimmed(dpi))
                &&& r.is_disabled == !enabled
                &&& forall|k: int|
                    0 <= k < p.resolutions.len() && k != slot ==> #[trigger] q.resolutions[k]
                        == p.resolutions[k]
                &&& q.buttons == p.buttons && q.leds == p.leds
                &&& q.disabled == p.disabled && q.report_rate == p.report_rate
            },
        },
{
    match e {
        EditModel::Button { profile, button, kind, value } => {
            setting_a_button_sets_only_it(s, profile, button, edit_words(kind, value));
        },
        EditModel::Led { profile, led, mode, color, brightness } => {
            setting_an_led_sets_only_it(
                s,
                profile,
                led,
                Some(mode),
                Some(color),
                number(trimmed(brightness)),
            );
        },
        EditModel::Rate { profile, hz } => {
            setting_a_report_rate_sets_only_it(s, profile, hz);
        },
        EditModel::Profile { profile, disable } => {
            disabling_a_profile_sets_only_it(s, c.dpi.profiles, profile, disable);
        },
        EditModel::Slot { profile, slot, dpi, enabled } => {
            setting_a_slot_sets_only_it(s, c, profile, slot, number(trimmed(dpi)), Some(enabled));
        },
    }
}

// ---------------------------------------------------------------------------- opening
/// The editors open for the part that was asked for, where what was read has it.
pub proof fn editors_open_for_what_is_there(d: DataModel, p: u32, n: u32)
    ensures
        button_editor(LoadModel::Ready(d), p, n) is Some <==> p < d.snap.profiles.len() && n
            < d.snap.profiles[p as int].buttons.len(),
        led_editor(LoadModel::Ready(d), p, n) is Some <==> p < d.snap.profiles.len() && n
            < d.snap.profiles[p as int].leds.len(),
        slot_editor(LoadModel::Ready(d), p, n) is Some <==> p < d.snap.profiles.len() && n
            < d.snap.profiles[p as int].resolutions.len(),
        rate_editor(LoadModel::Ready(d), p) is Some <==> p < d.snap.profiles.len(),
        button_editor(LoadModel::Ready(d), p, n) matches Some(e) ==> e is Button && e->Button_profile
            == p && e->button == n,
        led_editor(LoadModel::Ready(d), p, n) matches Some(e) ==> e is Led && e->Led_profile == p
            && e->led == n,
        slot_editor(LoadModel::Ready(d), p, n) matches Some(e) ==> e is Slot && e->Slot_profile == p
            && e->slot == n,
        rate_editor(LoadModel::Ready(d), p) matches Some(e) ==> e is Rate && e->Rate_profile == p,
{
}

proof fn lemma_number_reads_back(n: u32)
    ensures
        number(trimmed(dec(n as nat))) == Some(n),
{
    lemma_number_of_dec(n);
    lemma_trimmed_word(dec(n as nat));
}

/// An LED editor that is applied as it opened asks for the LED as it is, where its colour is
/// in the device's spelling and its brightness in range.
pub proof fn an_untouched_led_editor_changes_nothing(d: DataModel, p: u32, n: u32, rgb: (u8, u8, u8))
    requires
        led_editor(LoadModel::Ready(d), p, n) is Some,
        d.snap.profiles[p as int].leds[n as int].color == color_text(rgb),
        d.snap.profiles[p as int].leds[n as int].brightness <= 255,
    ensures
        edit_target(led_editor(LoadModel::Ready(d), p, n)->0, d.snap, d.cfg) == Ok::<
            SnapshotModel,
            Failure,
        >(d.snap),
{
    let l = d.snap.profiles[p as int].leds[n as int];
    lemma_number_reads_back(l.brightness);
    color_text_reads_back(rgb);
    let e = led_editor(LoadModel::Ready(d), p, n)->0;
    let t = edit_target(e, d.snap, d.cfg)->Ok_0;
    assert(t.profiles[p as int].leds =~= d.snap.profiles[p as int].leds);
    assert(t.profiles =~= d.snap.profiles);
}

/// A slot editor that is applied as it opened asks for the slot as it is, where its DPI was
/// read and it is not the one that g502d owns.
pub proof fn an_untouched_slot_editor_changes_nothing(d: DataModel, p: u32, n: u32)
    requires
        slot_editor(LoadModel::Ready(d), p, n) is Some,
        d.snap.profiles[p as int].resolutions[n as int].dpi is Some,
        !(n == d.cfg.dpi.shared_slot && d.cfg.dpi.profiles.contains(p)),
    ensures
        edit_target(slot_editor(LoadModel::Ready(d), p, n)->0, d.snap, d.cfg) == Ok::<
            SnapshotModel,
            Failure,
        >(d.snap),
{
    let r = d.snap.profiles[p as int].resolutions[n as int];
    lemma_number_reads_back(r.dpi->0);
    let e = slot_editor(LoadModel::Ready(d), p, n)->0;
    let t = edit_target(e, d.snap, d.cfg)->Ok_0;
    assert(t.profiles[p as int].resolutions =~= d.snap.profiles[p as int].resolutions);
    assert(t.profiles =~= d.snap.profiles);
}

/// A report rate editor that is applied as it opened asks for the rate as it is.
pub proof fn an_untouched_rate_editor_changes_nothing(d: DataModel, p: u32)
    requires
        rate_editor(LoadModel::Ready(d), p) is Some,
    ensures
        edit_target(rate_editor(LoadModel::Ready(d), p)->0, d.snap, d.cfg) == Ok::<
            SnapshotModel,
            Failure,
        >(d.snap),
{
    let t = edit_target(rate_editor(LoadModel::Ready(d), p)->0, d.snap, d.cfg)->Ok_0;
    assert(t.profiles =~= d.snap.profiles);
}

/// A button editor that is applied as it opened asks for the type and value that the button
/// has, where they have a spelling, and for nothing else.
pub proof fn an_untouched_button_editor_keeps_the_action(d: DataModel, p: u32, n: u32)
    requires
        button_editor(LoadModel::Ready(d), p, n) is Some,
        spelling_of(
            d.snap.profiles[p as int].buttons[n as int].raw_type,
            d.snap.profiles[p as int].buttons[n as int].raw_value,
        ) is Some,
    ensures
        edit_target(button_editor(LoadModel::Ready(d), p, n)->0, d.snap, d.cfg) matches Ok(t) && {
            let was = d.snap.profiles[p as int].buttons[n as int];
            let b = t.profiles[p as int].buttons[n as int];
            &&& b.raw_type == was.raw_type
            &&& b.raw_type != 0 ==> b.raw_value == was.raw_value
        },
{
    let x = d.snap.profiles[p as int].buttons[n as int];
    an_editor_opens_on_the_current_action(x.raw_type, x.raw_value);
    assert(spelled_value(x.raw_type, x.raw_value) == (if x.raw_type == 0 {
        None
    } else {
        x.raw_value
    }));
}

// ----------------------------------------------------------------------------- typing
/// Each input of an editor changes that alone; choosing a kind of action starts with the
/// value that is usual for it, and an input of another editor changes nothing.
pub proof fn an_input_changes_one_thing(e: EditModel, m: MessageModel)
    ensures
        e matches EditModel::Button { profile, button, kind, value } ==> {
            &&& m matches MessageModel::EditKind(k) ==> typed(e, m) == (EditModel::Button {
                profile,
                button,
                kind: k,
                value: kind_default(k),
            })
            &&& m matches MessageModel::EditValue(v) ==> typed(e, m) == (EditModel::Button {
                profile,
                button,
                kind,
                value: v,
            })
            &&& !(m is EditKind || m is EditValue) ==> typed(e, m) == e
        },
        e matches EditModel::Led { profile, led, mode, color, brightness } ==> {
            &&& m matches MessageModel::LedMode(x) ==> typed(e, m) == (EditModel::Led {
                profile,
                led,
                mode: x,
                color,
                brightness,
            })
            &&& m matches MessageModel::LedColor(x) ==> typed(e, m) == (EditModel::Led {
                profile,
                led,
                mode,
                color: x,
                brightness,
            })
            &&& m matches MessageModel::LedBrightness(x) ==> typed(e, m) == (EditModel::Led {
                profile,
                led,
                mode,
                color,
                brightness: x,
            })
            &&& !(m is LedMode || m is LedColor || m is LedBrightness) ==> typed(e, m) == e
        },
        e matches EditModel::Rate { profile, .. } ==> {
            &&& m matches MessageModel::RateHz(x) ==> typed(e, m) == (EditModel::Rate { profile, hz: x })
            &&& !(m is RateHz) ==> typed(e, m) == e
        },
        e matches EditModel::Slot { profile, slot, dpi, enabled } ==> {
            &&& m matches MessageModel::SlotDpi(x) ==> typed(e, m) == (EditModel::Slot {
                profile,
                slot,
                dpi: x,
                enabled,
            })
            &&& m matches MessageModel::SlotEnabled(x) ==> typed(e, m) == (EditModel::Slot {
                profile,
                slot,
                dpi,
                enabled: x,
            })
            &&& !(m is SlotDpi || m is SlotEnabled) ==> typed(e, m) == e
        },
        e is Profile ==> typed(e, m) == e,
{
}

/// What a kind of action starts with when it is chosen is an action of that kind.
pub proof fn a_kind_starts_with_one_of_its_actions()
    ensures
        action_of(edit_words(Kind::Nothing, kind_default(Kind::Nothing))) == Ok::<
            (u32, Option<RawModel>),
            Failure,
        >((0, None)),
        action_of(edit_words(Kind::MouseButton, kind_default(Kind::MouseButton))) == Ok::<
            (u32, Option<RawModel>),
            Failure,
        >((1, Some(RawModel::Number(1)))),
        action_of(edit_words(Kind::Special, kind_default(Kind::Special))) == Ok::<
            (u32, Option<RawModel>),
            Failure,
        >((2, Some(RawModel::Number(0x4000_0001)))),
{
    reveal_strlit("none");
    reveal_strlit("button");
    reveal_strlit("special");
    reveal_strlit("doubleclick");
    reveal_strlit("1");
    assert("button"@.len() == 6);
    assert("special"@.len() == 7);
    assert("none"@.len() == 4);
    special_actions_have_their_ids();
    assert("1"@ =~= dec(1)) by {
        reveal_with_fuel(dec, 2);
    }
    lemma_number_of_dec(1);
    lemma_trimmed_word("1"@);
    assert(is_word("doubleclick"@));
    lemma_trimmed_word("doubleclick"@);
}

// ------------------------------------------------------------------------- the window
/// A message changes only what it is about, and asks for what it is for: reading the device,
/// writing the open edit, or nothing.
pub proof fn a_message_changes_what_it_is_about(a: AppModel, m: MessageModel)
    ensures
        ({
            let (b, act) = updated(a, m);
            &&& b.screenshot == a.screenshot
            &&& b.selected == (if m is Select {
                m->Select_0
            } else {
                a.selected
            })
            &&& m is Refresh ==> b.load == LoadModel::Loading && act == ActionModel::Read
            &&& m matches MessageModel::Loaded(Ok(d)) ==> b.load == LoadModel::Ready(d)
            &&& m matches MessageModel::Loaded(Err(x)) ==> b.load == LoadModel::Failed(x)
            &&& !(m is Refresh || m is Loaded) ==> b.load == a.load
            &&& m is Loaded ==> !b.auto_apply && (act is Apply <==> a.auto_apply) && (act is CaptureSoon
                <==> !a.auto_apply && a.screenshot && !a.busy)
            &&& !(m is Loaded) ==> b.auto_apply == a.auto_apply && !(act is Apply) && !(act is CaptureSoon)
            &&& b.busy == (a.busy && !(m is Applied) || m is ApplyEdit && a.editor is Some)
            &&& act is Read <==> m is Refresh || m is Applied
            &&& m is ApplyEdit && a.editor is Some ==> act == ActionModel::Write(a.editor->0)
            &&& m is CancelEdit ==> b.editor is None
            &&& m matches MessageModel::Applied(Ok(x)) ==> b.editor is None && b.notice == Some(
                (true, x),
            )
            &&& m matches MessageModel::Applied(Err(x)) ==> b.editor == a.editor && b.notice == Some(
                (false, x),
            )
            &&& m is Refresh || m is Loaded || m is Select || m is ApplyEdit || m is Capture
                || m is WindowId || m is Captured ==> b.editor == a.editor && b.notice == a.notice
            &&& m is Edit || m is EditLed || m is EditRate || m is EditProfile || m is EditSlot
                ==> b.notice is None
            &&& m matches MessageModel::Edit(p, n) ==> b.editor == (if button_editor(a.load, p, n) is Some {
                button_editor(a.load, p, n)
            } else {
                a.editor
            })
            &&& m matches MessageModel::EditLed(p, n) ==> b.editor == (if led_editor(a.load, p, n) is Some {
                led_editor(a.load, p, n)
            } else {
                a.editor
            })
            &&& m matches MessageModel::EditSlot(p, n) ==> b.editor == (if slot_editor(a.load, p, n) is Some {
                slot_editor(a.load, p, n)
            } else {
                a.editor
            })
            &&& m matches MessageModel::EditRate(p) ==> b.editor == (if rate_editor(a.load, p) is Some {
                rate_editor(a.load, p)
            } else {
                a.editor
            })
            &&& m matches MessageModel::EditProfile(p, off) ==> b.editor == Some(
                EditModel::Profile { profile: p, disable: off },
            )
            &&& m is Capture ==> act == ActionModel::FindWindow
            &&& m matches MessageModel::WindowId(found) ==> (act is TakeScreenshot <==> found) && (
            act is Exit <==> !found)
            &&& m is Captured ==> (act is SaveAndExit <==> a.screenshot) && (act is Exit
                <==> !a.screenshot)
        }),
{
}

/// An edit can be applied exactly where the device has the part that it is about, its words
/// and numbers are ones, and the rules for disabling profiles and for the slot that g502d owns
/// allow it.
pub proof fn an_edit_can_be_applied_exactly_where(e: EditModel, s: SnapshotModel, c: ConfigModel)
    ensures
        edit_target(e, s, c) is Ok <==> match e {
            EditModel::Button { profile, button, kind, value } => profile < s.profiles.len() && button
                < s.profiles[profile as int].buttons.len() && action_of(edit_words(kind, value)) is Ok,
            EditModel::Led { profile, led, color, brightness, .. } => profile < s.profiles.len()
                && led < s.profiles[profile as int].leds.len() && color_of(color) is Ok && number(
                trimmed(brightness),
            ) is Some && number(trimmed(brightness))->0 <= 255,
            EditModel::Rate { profile, .. } => profile < s.profiles.len(),
            EditModel::Profile { profile, disable } => profile < s.profiles.len() && (disable
                && !s.profiles[profile as int].disabled ==> {
                &&& !c.dpi.profiles.contains(profile)
                &&& !s.profiles[profile as int].is_active
                &&& exists|i: int|
                    0 <= i < s.profiles.len() && i != profile && !(#[trigger] s.profiles[i]).disabled
            }),
            EditModel::Slot { profile, slot, dpi, .. } => profile < s.profiles.len() && slot
                < s.profiles[profile as int].resolutions.len() && number(trimmed(dpi)) is Some && !(
            slot == c.dpi.shared_slot && c.dpi.profiles.contains(profile)),
        },
{
    match e {
        EditModel::Button { profile, button, kind, value } => {
            setting_a_button_sets_only_it(s, profile, button, edit_words(kind, value));
        },
        EditModel::Led { profile, led, mode, color, brightness } => {
            setting_an_led_sets_only_it(
                s,
                profile,
                led,
                Some(mode),
                Some(color),
                number(trimmed(brightness)),
            );
        },
        EditModel::Rate { profile, hz } => {
            setting_a_report_rate_sets_only_it(s, profile, hz);
        },
        EditModel::Profile { profile, disable } => {
            disabling_a_profile_sets_only_it(s, c.dpi.profiles, profile, disable);
        },
        EditModel::Slot { profile, slot, dpi, enabled } => {
            setting_a_slot_sets_only_it(s, c, profile, slot, number(trimmed(dpi)), Some(enabled));
        },
    }
}

/// The words of an edited action are the kind's word and, unless that is none, the value
/// without the spaces at its ends.
pub proof fn an_edited_action_has_its_words(value: Seq<char>)
    ensures
        edit_words(Kind::Nothing, value) == seq!["none"@],
        edit_words(Kind::MouseButton, value) == seq!["button"@, trimmed(value)],
        edit_words(Kind::Special, value) == seq!["special"@, trimmed(value)],
        edit_words(Kind::Key, value) == seq!["key"@, trimmed(value)],
        edit_words(Kind::Macro, value) == seq!["macro"@, trimmed(value)],
{
}

/// A window opens while the device is read, on the editor and the profile that were asked
/// for; it applies by itself only to take a picture.
pub proof fn a_window_opens_on_what_was_asked_for(
    screenshot: bool,
    profile: Option<usize>,
    editor: Option<EditModel>,
    apply: bool,
)
    ensures
        ({
            let a = opened_window(screenshot, profile, editor, apply);
            &&& a.load == LoadModel::Loading
            &&& a.editor == editor
            &&& editor matches Some(e) ==> a.selected == edit_profile(e) as usize
            &&& editor is None ==> a.selected == (if profile is Some {
                profile->0
            } else {
                0
            })
            &&& a.screenshot == screenshot
            &&& a.notice is None
            &&& !a.busy
            &&& a.auto_apply <==> screenshot && apply
        }),
{
}

} // verus!
