//! Config <-> device. `overlay` turns a config into the snapshot the device
//! should end up with (touching only what the config names); the `with_` functions do the
//! same for one setting.

use crate::action::{action_of, describe, description, led_mode_of, parse_action, parse_led_mode};
use crate::config::{
    check_slots, color_of, holds, is_shared, optional, parse_color, profile_key, profile_key_text,
    shared_slot_error, shared_slot_failure, slot_rules, Config, ConfigModel, DpiConfig, DpiModel, LedConfig,
    LedConfigModel, ProfileConfig, ProfileConfigModel, ResolutionConfig,
};
use crate::error::{failure, is_outcome_of, within, Error, Failure};
pub use crate::export::export;
use crate::keyed::pairs;
use crate::ratbag::{
    raw_model, ButtonInfo, ButtonModel, LedInfo, LedModel, ProfileInfo, ProfileModel, RawModel,
    ResolutionInfo, ResolutionModel, Snapshot, SnapshotModel,
};
use crate::restore::{check_can_disable, count_enabled, disable_rules, enabled_count};
use crate::text::{dec, hex_padded, push_dec, push_hex_padded, split_words, str_texts, texts, views, words};
use vstd::prelude::*;

verus! {

// ------------------------------------------------------------------------ colours
/// A colour as `rrggbb`.
pub open spec fn color_text(c: (u8, u8, u8)) -> Seq<char> {
    hex_padded(c.0 as nat, 2) + hex_padded(c.1 as nat, 2) + hex_padded(c.2 as nat, 2)
}

/// The one spelling of a colour that the device's are in.
pub open spec fn normal_color(s: Seq<char>) -> Result<Seq<char>, Failure> {
    match color_of(s) {
        Ok(c) => Ok(color_text(c)),
        Err(e) => Err(e),
    }
}

pub fn color_string(c: (u8, u8, u8)) -> (r: String)
    ensures
        r@ == color_text(c),
{
    let mut s = String::new();
    push_hex_padded(&mut s, c.0 as u32, 2);
    push_hex_padded(&mut s, c.1 as u32, 2);
    push_hex_padded(&mut s, c.2 as u32, 2);
    assert(s@ =~= color_text(c));
    s
}

pub fn normalized(color: &str) -> (r: Result<String, Error>)
    ensures
        is_outcome_of(r, normal_color(color@)),
{
    match parse_color(color) {
        Err(e) => Err(e),
        Ok(c) => Ok(color_string(c)),
    }
}

// ------------------------------------------------------------------------ overlay
/// An LED with what the config says of it.
pub open spec fn led_overlay(l: LedModel, c: LedConfigModel) -> Result<LedModel, Failure> {
    let mode = match c.mode {
        Some(m) => led_mode_of(m),
        None => Ok(l.mode),
    };
    let color = match c.color {
        Some(text) => normal_color(text),
        None => Ok(l.color),
    };
    match (mode, color) {
        (Err(e), _) => Err(e),
        (_, Err(e)) => Err(e),
        (Ok(m), Ok(text)) => Ok(
            LedModel {
                mode: m,
                color: text,
                brightness: match c.brightness {
                    Some(b) => b,
                    None => l.brightness,
                },
                ..l
            },
        ),
    }
}

/// A button with the action that the words stand for.
pub open spec fn button_overlay(b: ButtonModel, onboard: Seq<char>) -> Result<ButtonModel, Failure> {
    match action_of(words(onboard)) {
        Err(e) => Err(e),
        Ok(a) => Ok(button_with(b, a.0, a.1)),
    }
}

/// A button with another mapping.
pub open spec fn button_with(b: ButtonModel, kind: u32, value: Option<RawModel>) -> ButtonModel {
    ButtonModel { action: description(kind, value), raw_type: kind, raw_value: value, ..b }
}

/// A resolution slot with another DPI or state.
pub open spec fn slot_with(r: ResolutionModel, dpi: Option<u32>, enabled: Option<bool>) -> ResolutionModel {
    ResolutionModel {
        dpi: match dpi {
            Some(d) => Some(d),
            None => r.dpi,
        },
        is_disabled: match enabled {
            Some(e) => !e,
            None => r.is_disabled,
        },
        ..r
    }
}

pub open spec fn slot_overlay(r: ResolutionModel, c: ResolutionConfig) -> Result<
    ResolutionModel,
    Failure,
> {
    Ok(slot_with(r, c.dpi, c.enabled))
}

/// `profiles.P.TABLE: profile P has no WHAT N`.
pub open spec fn no_such(profile: u32, table: Seq<char>, what: Seq<char>, n: u32) -> Failure {
    failure(
        profile_key(profile, table) + ": profile "@ + dec(profile as nat) + " has no "@ + what
            + " "@ + dec(n as nat),
    )
}

fn no_such_error(profile: u32, table: &str, what: &str, n: u32) -> (e: Error)
    ensures
        e@ == no_such(profile, table@, what@, n),
{
    let mut m = profile_key_text(profile, table);
    m.append(": profile ");
    push_dec(&mut m, profile as u64);
    m.append(" has no ");
    m.append(what);
    m.append(" ");
    push_dec(&mut m, n as u64);
    Error::new(m)
}

/// The LEDs of profile `p` with the first `n` entries of the config applied, in order; the
/// first that fails is reported.
pub open spec fn leds_overlay(
    p: u32,
    s: Seq<LedModel>,
    c: Seq<(u32, LedConfigModel)>,
    n: nat,
) -> Result<Seq<LedModel>, Failure>
    decreases n,
{
    if n == 0 {
        Ok(s)
    } else {
        let (i, entry) = c[n - 1];
        match leds_overlay(p, s, c, (n - 1) as nat) {
            Err(e) => Err(e),
            Ok(t) => if i >= t.len() {
                Err(no_such(p, "leds"@, "LED"@, i))
            } else {
                match led_overlay(t[i as int], entry) {
                    Err(e) => Err(e),
                    Ok(x) => Ok(t.update(i as int, x)),
                }
            },
        }
    }
}

proof fn lemma_leds_failed(p: u32, s: Seq<LedModel>, c: Seq<(u32, LedConfigModel)>, n: nat, m: nat)
    requires
        n <= m,
        leds_overlay(p, s, c, n) is Err,
    ensures
        leds_overlay(p, s, c, m) == leds_overlay(p, s, c, n),
    decreases m,
{
    if n < m {
        lemma_leds_failed(p, s, c, n, (m - 1) as nat);
    }
}

/// The buttons of profile `p` with the first `n` entries of the config applied, in order; the
/// first that fails is reported.
pub open spec fn buttons_overlay(
    p: u32,
    s: Seq<ButtonModel>,
    c: Seq<(u32, Seq<char>)>,
    n: nat,
) -> Result<Seq<ButtonModel>, Failure>
    decreases n,
{
    if n == 0 {
        Ok(s)
    } else {
        let (i, entry) = c[n - 1];
        match buttons_overlay(p, s, c, (n - 1) as nat) {
            Err(e) => Err(e),
            Ok(t) => if i >= t.len() {
                Err(no_such(p, "buttons"@, "button"@, i))
            } else {
                match button_overlay(t[i as int], entry) {
                    Err(e) => Err(e),
                    Ok(x) => Ok(t.update(i as int, x)),
                }
            },
        }
    }
}

proof fn lemma_buttons_failed(p: u32, s: Seq<ButtonModel>, c: Seq<(u32, Seq<char>)>, n: nat, m: nat)
    requires
        n <= m,
        buttons_overlay(p, s, c, n) is Err,
    ensures
        buttons_overlay(p, s, c, m) == buttons_overlay(p, s, c, n),
    decreases m,
{
    if n < m {
        lemma_buttons_failed(p, s, c, n, (m - 1) as nat);
    }
}

/// The resolution slots of profile `p` with the first `n` entries of the config applied, in order; the
/// first that fails is reported.
pub open spec fn slots_overlay(
    p: u32,
    s: Seq<ResolutionModel>,
    c: Seq<(u32, ResolutionConfig)>,
    n: nat,
) -> Result<Seq<ResolutionModel>, Failure>
    decreases n,
{
    if n == 0 {
        Ok(s)
    } else {
        let (i, entry) = c[n - 1];
        match slots_overlay(p, s, c, (n - 1) as nat) {
            Err(e) => Err(e),
            Ok(t) => if i >= t.len() {
                Err(no_such(p, "resolutions"@, "resolution slot"@, i))
            } else {
                match slot_overlay(t[i as int], entry) {
                    Err(e) => Err(e),
                    Ok(x) => Ok(t.update(i as int, x)),
                }
            },
        }
    }
}

proof fn lemma_slots_failed(p: u32, s: Seq<ResolutionModel>, c: Seq<(u32, ResolutionConfig)>, n: nat, m: nat)
    requires
        n <= m,
        slots_overlay(p, s, c, n) is Err,
    ensures
        slots_overlay(p, s, c, m) == slots_overlay(p, s, c, n),
    decreases m,
{
    if n < m {
        lemma_slots_failed(p, s, c, n, (m - 1) as nat);
    }
}

/// Every LED in one colour.
pub open spec fn leds_colored(s: Seq<LedModel>, color: Seq<char>) -> Seq<LedModel> {
    Seq::new(s.len(), |i: int| LedModel { color, ..s[i] })
}

/// The LEDs with the colour that the config gives the whole profile.
pub open spec fn leds_in_color(s: Seq<LedModel>, color: Option<Seq<char>>) -> Result<
    Seq<LedModel>,
    Failure,
> {
    match color {
        None => Ok(s),
        Some(text) => match normal_color(text) {
            Err(e) => Err(e),
            Ok(c) => Ok(leds_colored(s, c)),
        },
    }
}

/// Whether the config may state `enabled` of a profile: disabling one follows the rules.
pub open spec fn enabled_rules(
    current: SnapshotModel,
    dpi_profiles: Seq<u32>,
    profile: u32,
    enabled: Option<bool>,
) -> Result<(), Failure> {
    if enabled == Some(false) && !current.profiles[profile as int].disabled && disable_rules(
        current,
        dpi_profiles,
        profile,
    ) is Err {
        Err(
            within(
                profile_key(profile, "enabled"@),
                disable_rules(current, dpi_profiles, profile)->Err_0,
            ),
        )
    } else {
        Ok(())
    }
}

/// Profile `profile` of `current` with what the config says of it. What is said of one LED
/// beats what is said of all.
pub open spec fn profile_overlay(
    current: SnapshotModel,
    dpi: DpiModel,
    profile: u32,
    c: ProfileConfigModel,
) -> Result<ProfileModel, Failure> {
    let p = current.profiles[profile as int];
    match enabled_rules(current, dpi.profiles, profile, c.enabled) {
        Err(e) => Err(e),
        Ok(_) => match leds_in_color(p.leds, c.color) {
            Err(e) => Err(e),
            Ok(colored) => match (
                leds_overlay(profile, colored, c.leds, c.leds.len()),
                buttons_overlay(profile, p.buttons, c.buttons, c.buttons.len()),
                slot_rules(dpi, profile, c),
                slots_overlay(profile, p.resolutions, c.resolutions, c.resolutions.len()),
            ) {
                (Err(e), _, _, _) => Err(e),
                (_, Err(e), _, _) => Err(e),
                (_, _, Err(e), _) => Err(e),
                (_, _, _, Err(e)) => Err(e),
                (Ok(leds), Ok(buttons), Ok(_), Ok(resolutions)) => Ok(
                    ProfileModel {
                        disabled: match c.enabled {
                            Some(on) => !on,
                            None => p.disabled,
                        },
                        report_rate: match c.report_rate {
                            Some(hz) => hz,
                            None => p.report_rate,
                        },
                        leds,
                        buttons,
                        resolutions,
                        ..p
                    },
                ),
            },
        },
    }
}

/// A snapshot with one profile replaced.
pub open spec fn with_profile(s: SnapshotModel, i: int, p: ProfileModel) -> SnapshotModel {
    SnapshotModel { profiles: s.profiles.update(i, p), ..s }
}

/// `current` with the first `n` profiles that the config names applied, in order; the first
/// that fails is reported.
pub open spec fn profiles_overlay(current: SnapshotModel, cfg: ConfigModel, n: nat) -> Result<
    SnapshotModel,
    Failure,
>
    decreases n,
{
    if n == 0 {
        Ok(current)
    } else {
        let (i, c) = cfg.profiles[n - 1];
        match profiles_overlay(current, cfg, (n - 1) as nat) {
            Err(e) => Err(e),
            Ok(t) => if i >= current.profiles.len() {
                Err(
                    failure(
                        "config names profile "@ + dec(i as nat) + ", but the device has "@ + dec(
                            current.profiles.len(),
                        ),
                    ),
                )
            } else {
                match profile_overlay(current, cfg.dpi, i, c) {
                    Err(e) => Err(e),
                    Ok(p) => Ok(with_profile(t, i as int, p)),
                }
            },
        }
    }
}

/// Some profile is enabled.
pub open spec fn has_enabled(s: SnapshotModel) -> bool {
    enabled_count(s.profiles, s.profiles.len()) > 0
}

/// Why a config cannot disable all the profiles that are enabled.
pub open spec fn all_disabled_failure() -> Failure {
    within("profiles"@, failure("refusing to disable the only enabled profile"@))
}

/// `current` with everything that the config names applied. The entries of the config
/// may not disable the last enabled profile between them.
pub open spec fn overlay_of(current: SnapshotModel, cfg: ConfigModel) -> Result<
    SnapshotModel,
    Failure,
> {
    match profiles_overlay(current, cfg, cfg.profiles.len()) {
        Err(e) => Err(e),
        Ok(t) => if has_enabled(current) && !has_enabled(t) {
            Err(all_disabled_failure())
        } else {
            Ok(t)
        },
    }
}

proof fn lemma_profiles_failed(current: SnapshotModel, cfg: ConfigModel, n: nat, m: nat)
    requires
        n <= m,
        profiles_overlay(current, cfg, n) is Err,
    ensures
        profiles_overlay(current, cfg, m) == profiles_overlay(current, cfg, n),
    decreases m,
{
    if n < m {
        lemma_profiles_failed(current, cfg, n, (m - 1) as nat);
    }
}

proof fn lemma_profiles_kept(current: SnapshotModel, cfg: ConfigModel, n: nat)
    ensures
        profiles_overlay(current, cfg, n) matches Ok(t) ==> t.profiles.len()
            == current.profiles.len(),
    decreases n,
{
    if n > 0 {
        lemma_profiles_kept(current, cfg, (n - 1) as nat);
    }
}

fn overlay_led(l: &LedInfo, c: &LedConfig) -> (r: Result<LedInfo, Error>)
    ensures
        is_outcome_of(r, led_overlay(l@, c@)),
{
    let mut led = l.clone();
    if let Some(m) = &c.mode {
        match parse_led_mode(m.as_str()) {
            Err(e) => return Err(e),
            Ok(mode) => {
                led.mode = mode;
            },
        }
    }
    if let Some(text) = &c.color {
        match normalized(text.as_str()) {
            Err(e) => return Err(e),
            Ok(color) => {
                led.color = color;
            },
        }
    }
    if let Some(b) = c.brightness {
        led.brightness = b;
    }
    Ok(led)
}

fn overlay_button(b: &ButtonInfo, c: &crate::config::ButtonConfig) -> (r: Result<ButtonInfo, Error>)
    ensures
        is_outcome_of(r, button_overlay(b@, c@)),
{
    let parts = split_words(c.onboard.as_str());
    let mut list: Vec<&str> = Vec::new();
    let mut i: usize = 0;
    while i < parts.len()
        invariant
            i <= parts.len(),
            list.len() == i,
            forall|j: int| 0 <= j < i ==> (#[trigger] list@[j])@ == parts@[j]@,
        decreases parts.len() - i,
    {
        list.push(parts[i].as_str());
        i += 1;
    }
    assert(str_texts(list@) =~= texts(parts@));
    match parse_action(list.as_slice()) {
        Err(e) => Err(e),
        Ok((kind, value)) => Ok(set_button(b, kind, value)),
    }
}

fn set_button(b: &ButtonInfo, kind: u32, value: Option<crate::ratbag::RawValue>) -> (r: ButtonInfo)
    ensures
        r@ == button_with(b@, kind, raw_model(value)),
{
    let mut button = b.clone();
    button.action = describe(kind, &value);
    button.raw_type = kind;
    button.raw_value = value;
    button
}

fn set_slot(r: &ResolutionInfo, dpi: Option<u32>, enabled: Option<bool>) -> (s: ResolutionInfo)
    ensures
        s@ == slot_with(r@, dpi, enabled),
{
    let mut slot = r.clone();
    if dpi.is_some() {
        slot.dpi = dpi;
    }
    if let Some(e) = enabled {
        slot.is_disabled = !e;
    }
    slot
}

fn overlay_slot(r: &ResolutionInfo, c: &ResolutionConfig) -> (s: Result<ResolutionInfo, Error>)
    ensures
        is_outcome_of(s, slot_overlay(r@, c@)),
{
    Ok(set_slot(r, c.dpi, c.enabled))
}

fn color_leds(s: &Vec<LedInfo>, color: &Option<String>) -> (r: Result<Vec<LedInfo>, Error>)
    ensures
        match r {
            Ok(v) => leds_in_color(views(s@), optional(*color)) == Ok::<Seq<LedModel>, Failure>(
                views(v@),
            ),
            Err(e) => leds_in_color(views(s@), optional(*color)) == Err::<Seq<LedModel>, Failure>(
                e@,
            ),
        },
{
    let mut out: Vec<LedInfo> = s.clone();
    assert(views(out@) =~= views(s@));
    match color {
        None => Ok(out),
        Some(text) => match normalized(text.as_str()) {
            Err(e) => Err(e),
            Ok(c) => {
                let mut i: usize = 0;
                while i < out.len()
                    invariant
                        i <= out.len() == s.len(),
                        forall|j: int|
                            0 <= j < i ==> (#[trigger] views(out@)[j]) == (LedModel {
                                color: c@,
                                ..views(s@)[j]
                            }),
                        forall|j: int| i <= j < s.len() ==> (#[trigger] views(out@)[j]) == views(s@)[j],
                    decreases out.len() - i,
                {
                    let ghost before = views(out@);
                    let mut led = out[i].clone();
                    led.color = c.clone();
                    assert(led@ == (LedModel { color: c@, ..before[i as int] }));
                    out[i] = led;
                    assert(views(out@) =~= before.update(i as int, led@));
                    i += 1;
                }
                assert(views(out@) =~= leds_colored(views(s@), c@));
                Ok(out)
            },
        },
    }
}

fn overlay_leds(p: u32, s: &Vec<LedInfo>, c: &ProfileConfig) -> (r: Result<Vec<LedInfo>, Error>)
    ensures
        match r {
            Ok(v) => leds_overlay(p, views(s@), c@.leds, c@.leds.len()) == Ok::<
                Seq<LedModel>,
                Failure,
            >(views(v@)),
            Err(e) => leds_overlay(p, views(s@), c@.leds, c@.leds.len()) == Err::<
                Seq<LedModel>,
                Failure,
            >(e@),
        },
{
    let ghost entries = c@.leds;
    let named = pairs(&c.leds);
    let mut out: Vec<LedInfo> = s.clone();
    assert(views(out@) =~= views(s@));
    let mut k: usize = 0;
    while k < named.len()
        invariant
            k <= named.len() == entries.len(),
            entries == c@.leds,
            forall|j: int|
                0 <= j < named.len() ==> ((#[trigger] named@[j]).0, named@[j].1@) == entries[j],
            leds_overlay(p, views(s@), entries, k as nat) == Ok::<Seq<LedModel>, Failure>(views(out@)),
        decreases named.len() - k,
    {
        let (i, entry) = named[k];
        assert((i, entry@) == entries[k as int]);
        k += 1;
        if i as usize >= out.len() {
            proof {
                lemma_leds_failed(p, views(s@), entries, k as nat, entries.len());
            }
            return Err(no_such_error(p, "leds", "LED", i));
        }
        assert(out@[i as int]@ == views(out@)[i as int]);
        match overlay_led(&out[i as usize], entry) {
            Err(e) => {
                proof {
                    lemma_leds_failed(p, views(s@), entries, k as nat, entries.len());
                }
                return Err(e);
            },
            Ok(x) => {
                let ghost before = views(out@);
                out[i as usize] = x;
                assert(views(out@) =~= before.update(i as int, x@));
            },
        }
    }
    Ok(out)
}

fn overlay_buttons(p: u32, s: &Vec<ButtonInfo>, c: &ProfileConfig) -> (r: Result<Vec<ButtonInfo>, Error>)
    ensures
        match r {
            Ok(v) => buttons_overlay(p, views(s@), c@.buttons, c@.buttons.len()) == Ok::<
                Seq<ButtonModel>,
                Failure,
            >(views(v@)),
            Err(e) => buttons_overlay(p, views(s@), c@.buttons, c@.buttons.len()) == Err::<
                Seq<ButtonModel>,
                Failure,
            >(e@),
        },
{
    let ghost entries = c@.buttons;
    let named = pairs(&c.buttons);
    let mut out: Vec<ButtonInfo> = s.clone();
    assert(views(out@) =~= views(s@));
    let mut k: usize = 0;
    while k < named.len()
        invariant
            k <= named.len() == entries.len(),
            entries == c@.buttons,
            forall|j: int|
                0 <= j < named.len() ==> ((#[trigger] named@[j]).0, named@[j].1@) == entries[j],
            buttons_overlay(p, views(s@), entries, k as nat) == Ok::<Seq<ButtonModel>, Failure>(views(out@)),
        decreases named.len() - k,
    {
        let (i, entry) = named[k];
        assert((i, entry@) == entries[k as int]);
        k += 1;
        if i as usize >= out.len() {
            proof {
                lemma_buttons_failed(p, views(s@), entries, k as nat, entries.len());
            }
            return Err(no_such_error(p, "buttons", "button", i));
        }
        assert(out@[i as int]@ == views(out@)[i as int]);
        match overlay_button(&out[i as usize], entry) {
            Err(e) => {
                proof {
                    lemma_buttons_failed(p, views(s@), entries, k as nat, entries.len());
                }
                return Err(e);
            },
            Ok(x) => {
                let ghost before = views(out@);
                out[i as usize] = x;
                assert(views(out@) =~= before.update(i as int, x@));
            },
        }
    }
    Ok(out)
}

fn overlay_slots(p: u32, s: &Vec<ResolutionInfo>, c: &ProfileConfig) -> (r: Result<Vec<ResolutionInfo>, Error>)
    ensures
        match r {
            Ok(v) => slots_overlay(p, views(s@), c@.resolutions, c@.resolutions.len()) == Ok::<
                Seq<ResolutionModel>,
                Failure,
            >(views(v@)),
            Err(e) => slots_overlay(p, views(s@), c@.resolutions, c@.resolutions.len()) == Err::<
                Seq<ResolutionModel>,
                Failure,
            >(e@),
        },
{
    let ghost entries = c@.resolutions;
    let named = pairs(&c.resolutions);
    let mut out: Vec<ResolutionInfo> = s.clone();
    assert(views(out@) =~= views(s@));
    let mut k: usize = 0;
    while k < named.len()
        invariant
            k <= named.len() == entries.len(),
            entries == c@.resolutions,
            forall|j: int|
                0 <= j < named.len() ==> ((#[trigger] named@[j]).0, named@[j].1@) == entries[j],
            slots_overlay(p, views(s@), entries, k as nat) == Ok::<Seq<ResolutionModel>, Failure>(views(out@)),
        decreases named.len() - k,
    {
        let (i, entry) = named[k];
        assert((i, entry@) == entries[k as int]);
        k += 1;
        if i as usize >= out.len() {
            proof {
                lemma_slots_failed(p, views(s@), entries, k as nat, entries.len());
            }
            return Err(no_such_error(p, "resolutions", "resolution slot", i));
        }
        assert(out@[i as int]@ == views(out@)[i as int]);
        match overlay_slot(&out[i as usize], entry) {
            Err(e) => {
                proof {
                    lemma_slots_failed(p, views(s@), entries, k as nat, entries.len());
                }
                return Err(e);
            },
            Ok(x) => {
                let ghost before = views(out@);
                out[i as usize] = x;
                assert(views(out@) =~= before.update(i as int, x@));
            },
        }
    }
    Ok(out)
}

fn overlay_profile(current: &Snapshot, dpi: &DpiConfig, profile: u32, c: &ProfileConfig) -> (r:
    Result<ProfileInfo, Error>)
    requires
        profile < current.profiles.len(),
    ensures
        is_outcome_of(r, profile_overlay(current@, dpi@, profile, c@)),
{
    let cur = &current.profiles[profile as usize];
    assert(cur@ == current@.profiles[profile as int]);
    let mut p = cur.clone();
    if let Some(enabled) = c.enabled {
        if !enabled && !cur.disabled {
            if let Err(e) = check_can_disable(current, &dpi.profiles, profile) {
                return Err(e.context(profile_key_text(profile, "enabled")));
            }
        }
        p.disabled = !enabled;
    }
    if let Some(hz) = c.report_rate {
        p.report_rate = hz;
    }
    let colored = match color_leds(&cur.leds, &c.color) {
        Err(e) => return Err(e),
        Ok(v) => v,
    };
    p.leds = match overlay_leds(profile, &colored, c) {
        Err(e) => return Err(e),
        Ok(v) => v,
    };
    p.buttons = match overlay_buttons(profile, &cur.buttons, c) {
        Err(e) => return Err(e),
        Ok(v) => v,
    };
    if let Err(e) = check_slots(dpi, profile, c) {
        return Err(e);
    }
    p.resolutions = match overlay_slots(profile, &cur.resolutions, c) {
        Err(e) => return Err(e),
        Ok(v) => v,
    };
    Ok(p)
}

/// `current` with everything named in `cfg.profiles` applied. Feed the result to
/// `restore::plan` to get the diff. Errors if the config refers to something the
/// device does not have or breaks a safety rule.
pub fn overlay(current: &Snapshot, cfg: &Config) -> (r: Result<Snapshot, Error>)
    ensures
        is_outcome_of(r, overlay_of(current@, cfg@)),
{
    let ghost entries = cfg@.profiles;
    let named = pairs(&cfg.profiles);
    let mut t = current.clone();
    let mut k: usize = 0;
    while k < named.len()
        invariant
            k <= named.len() == entries.len(),
            entries == cfg@.profiles,
            forall|j: int|
                0 <= j < named.len() ==> ((#[trigger] named@[j]).0, named@[j].1@) == entries[j],
            profiles_overlay(current@, cfg@, k as nat) == Ok::<SnapshotModel, Failure>(t@),
        decreases named.len() - k,
    {
        let (i, c) = named[k];
        assert((i, c@) == entries[k as int]);
        proof {
            lemma_profiles_kept(current@, cfg@, k as nat);
        }
        k += 1;
        if i as usize >= current.profiles.len() {
            let mut m = "config names profile ".to_owned();
            push_dec(&mut m, i as u64);
            m.append(", but the device has ");
            push_dec(&mut m, current.profiles.len() as u64);
            proof {
                lemma_profiles_failed(current@, cfg@, k as nat, entries.len());
            }
            return Err(Error::new(m));
        }
        match overlay_profile(current, &cfg.dpi, i, c) {
            Err(e) => {
                proof {
                    lemma_profiles_failed(current@, cfg@, k as nat, entries.len());
                }
                return Err(e);
            },
            Ok(p) => {
                let ghost before = t@;
                t.profiles[i as usize] = p;
                assert(t@ =~= with_profile(before, i as int, p@));
            },
        }
    }
    if count_enabled(current) > 0 && count_enabled(&t) == 0 {
        return Err(
            Error::new("refusing to disable the only enabled profile".to_owned()).context(
                "profiles".to_owned(),
            ),
        );
    }
    Ok(t)
}

// ------------------------------------------------------------------ single edits
/// `device has no profile P`.
pub open spec fn no_profile(profile: u32) -> Failure {
    failure("device has no profile "@ + dec(profile as nat))
}

/// `device has no profile P WHAT N`.
pub open spec fn no_part(profile: u32, what: Seq<char>, n: u32) -> Failure {
    failure(
        "device has no profile "@ + dec(profile as nat) + " "@ + what + " "@ + dec(n as nat),
    )
}

fn no_profile_error(profile: u32) -> (e: Error)
    ensures
        e@ == no_profile(profile),
{
    let mut m = "device has no profile ".to_owned();
    push_dec(&mut m, profile as u64);
    Error::new(m)
}

fn no_part_error(profile: u32, what: &str, n: u32) -> (e: Error)
    ensures
        e@ == no_part(profile, what@, n),
{
    let mut m = "device has no profile ".to_owned();
    push_dec(&mut m, profile as u64);
    m.append(" ");
    m.append(what);
    m.append(" ");
    push_dec(&mut m, n as u64);
    Error::new(m)
}

/// `s` with button `b` of profile `p` replaced.
pub open spec fn replace_button(s: SnapshotModel, p: u32, b: u32, x: ButtonModel) -> SnapshotModel {
    let old = s.profiles[p as int];
    with_profile(s, p as int, ProfileModel { buttons: old.buttons.update(b as int, x), ..old })
}

/// `s` with LED `l` of profile `p` replaced.
pub open spec fn replace_led(s: SnapshotModel, p: u32, l: u32, x: LedModel) -> SnapshotModel {
    let old = s.profiles[p as int];
    with_profile(s, p as int, ProfileModel { leds: old.leds.update(l as int, x), ..old })
}

/// `s` with slot `r` of profile `p` replaced.
pub open spec fn replace_slot(s: SnapshotModel, p: u32, r: u32, x: ResolutionModel) -> SnapshotModel {
    let old = s.profiles[p as int];
    with_profile(
        s,
        p as int,
        ProfileModel { resolutions: old.resolutions.update(r as int, x), ..old },
    )
}

/// What `with_button` gives.
pub open spec fn button_edit(
    current: SnapshotModel,
    profile: u32,
    button: u32,
    action: Seq<Seq<char>>,
) -> Result<SnapshotModel, Failure> {
    match action_of(action) {
        Err(e) => Err(e),
        Ok((kind, value)) => if profile < current.profiles.len() && button
            < current.profiles[profile as int].buttons.len() {
            Ok(
                replace_button(
                    current,
                    profile,
                    button,
                    button_with(
                        current.profiles[profile as int].buttons[button as int],
                        kind,
                        value,
                    ),
                ),
            )
        } else {
            Err(no_part(profile, "button"@, button))
        },
    }
}

/// `current` with one button set to `action` (the `button set` grammar, e.g.
/// `["key", "KEY_A"]`). Feed the result to `restore::plan`.
pub fn with_button(current: &Snapshot, profile: u32, button: u32, action: &[&str]) -> (r: Result<
    Snapshot,
    Error,
>)
    ensures
        is_outcome_of(r, button_edit(current@, profile, button, str_texts(action@))),
{
    let (kind, value) = match parse_action(action) {
        Err(e) => return Err(e),
        Ok(a) => a,
    };
    if profile as usize >= current.profiles.len() || button as usize
        >= current.profiles[profile as usize].buttons.len() {
        return Err(no_part_error(profile, "button", button));
    }
    let mut t = current.clone();
    let ghost p = profile as int;
    let ghost before = t@.profiles[p];
    assert(t.profiles@[p]@ == before);
    assert(t.profiles@[p].buttons@[button as int]@ == before.buttons[button as int]);
    let new = set_button(&t.profiles[profile as usize].buttons[button as usize], kind, value);
    t.profiles[profile as usize].buttons[button as usize] = new;
    assert(views(t.profiles@[p].buttons@) =~= before.buttons.update(button as int, new@));
    assert(t@ =~= replace_button(current@, profile, button, new@));
    Ok(t)
}

/// What `with_led` gives.
pub open spec fn led_edit(
    current: SnapshotModel,
    profile: u32,
    led: u32,
    mode: Option<u32>,
    color: Option<Seq<char>>,
    brightness: Option<u32>,
) -> Result<SnapshotModel, Failure> {
    if profile >= current.profiles.len() || led >= current.profiles[profile as int].leds.len() {
        Err(no_part(profile, "LED"@, led))
    } else {
        let l = current.profiles[profile as int].leds[led as int];
        let text = match color {
            Some(c) => normal_color(c),
            None => Ok(l.color),
        };
        match (text, brightness) {
            (Err(e), _) => Err(e),
            (Ok(_), Some(b)) if b > 255 => Err(
                failure("brightness must be 0-255, got "@ + dec(b as nat)),
            ),
            (Ok(c), _) => Ok(
                replace_led(
                    current,
                    profile,
                    led,
                    LedModel {
                        mode: match mode {
                            Some(m) => m,
                            None => l.mode,
                        },
                        color: c,
                        brightness: match brightness {
                            Some(b) => b,
                            None => l.brightness,
                        },
                        ..l
                    },
                ),
            ),
        }
    }
}

/// The text of an optional string slice.
pub open spec fn optional_str(s: Option<&str>) -> Option<Seq<char>> {
    match s {
        Some(t) => Some(t@),
        None => None,
    }
}

/// `current` with one LED changed. Only the given fields change; colour is
/// `RRGGBB` (a leading `#` is fine), brightness 0-255.
pub fn with_led(
    current: &Snapshot,
    profile: u32,
    led: u32,
    mode: Option<u32>,
    color: Option<&str>,
    brightness: Option<u32>,
) -> (r: Result<Snapshot, Error>)
    ensures
        is_outcome_of(
            r,
            led_edit(current@, profile, led, mode, optional_str(color), brightness),
        ),
{
    if profile as usize >= current.profiles.len() || led as usize
        >= current.profiles[profile as usize].leds.len() {
        return Err(no_part_error(profile, "LED", led));
    }
    let mut t = current.clone();
    let ghost p = profile as int;
    let ghost before = t@.profiles[p];
    assert(t.profiles@[p]@ == before);
    assert(t.profiles@[p].leds@[led as int]@ == before.leds[led as int]);
    let mut l = t.profiles[profile as usize].leds[led as usize].clone();
    if let Some(m) = mode {
        l.mode = m;
    }
    if let Some(c) = color {
        match normalized(c) {
            Err(e) => return Err(e),
            Ok(text) => {
                l.color = text;
            },
        }
    }
    if let Some(b) = brightness {
        if b > 255 {
            let mut m = "brightness must be 0-255, got ".to_owned();
            push_dec(&mut m, b as u64);
            return Err(Error::new(m));
        }
        l.brightness = b;
    }
    let ghost new = l@;
    t.profiles[profile as usize].leds[led as usize] = l;
    assert(views(t.profiles@[p].leds@) =~= before.leds.update(led as int, new));
    assert(t@ =~= replace_led(current@, profile, led, new));
    Ok(t)
}

/// What `with_report_rate` gives.
pub open spec fn rate_edit(current: SnapshotModel, profile: u32, hz: u32) -> Result<
    SnapshotModel,
    Failure,
> {
    if profile >= current.profiles.len() {
        Err(no_profile(profile))
    } else {
        Ok(
            with_profile(
                current,
                profile as int,
                ProfileModel { report_rate: hz, ..current.profiles[profile as int] },
            ),
        )
    }
}

/// `current` with one profile's report rate changed. Unsupported rates are
/// caught by `restore::plan`.
pub fn with_report_rate(current: &Snapshot, profile: u32, hz: u32) -> (r: Result<Snapshot, Error>)
    ensures
        is_outcome_of(r, rate_edit(current@, profile, hz)),
{
    if profile as usize >= current.profiles.len() {
        return Err(no_profile_error(profile));
    }
    let mut t = current.clone();
    let ghost before = t@;
    assert(t.profiles@[profile as int]@ == before.profiles[profile as int]);
    t.profiles[profile as usize].report_rate = hz;
    assert(t@ =~= rate_edit(current@, profile, hz)->Ok_0);
    Ok(t)
}

/// What `with_profile_disabled` gives.
pub open spec fn disabled_edit(
    current: SnapshotModel,
    dpi_profiles: Seq<u32>,
    profile: u32,
    disabled: bool,
) -> Result<SnapshotModel, Failure> {
    if profile >= current.profiles.len() {
        Err(no_profile(profile))
    } else if disabled && !current.profiles[profile as int].disabled && disable_rules(
        current,
        dpi_profiles,
        profile,
    ) is Err {
        Err(disable_rules(current, dpi_profiles, profile)->Err_0)
    } else {
        Ok(
            with_profile(
                current,
                profile as int,
                ProfileModel { disabled, ..current.profiles[profile as int] },
            ),
        )
    }
}

/// `current` with a profile enabled or disabled. Disabling follows the safety
/// rules of `check_can_disable` (not a profile g502d syncs, not the active or last
/// enabled profile); an already-disabled profile may be stated as disabled again.
pub fn with_profile_disabled(
    current: &Snapshot,
    dpi_profiles: &[u32],
    profile: u32,
    disabled: bool,
) -> (r: Result<Snapshot, Error>)
    ensures
        is_outcome_of(r, disabled_edit(current@, dpi_profiles@, profile, disabled)),
{
    if profile as usize >= current.profiles.len() {
        return Err(no_profile_error(profile));
    }
    assert(current.profiles@[profile as int]@ == current@.profiles[profile as int]);
    if disabled && !current.profiles[profile as usize].disabled {
        if let Err(e) = check_can_disable(current, dpi_profiles, profile) {
            return Err(e);
        }
    }
    let mut t = current.clone();
    let ghost before = t@;
    assert(t.profiles@[profile as int]@ == before.profiles[profile as int]);
    t.profiles[profile as usize].disabled = disabled;
    assert(t@ =~= disabled_edit(current@, dpi_profiles@, profile, disabled)->Ok_0);
    Ok(t)
}

/// What `with_slot` gives.
pub open spec fn slot_edit(
    current: SnapshotModel,
    cfg: ConfigModel,
    profile: u32,
    slot: u32,
    dpi: Option<u32>,
    enabled: Option<bool>,
) -> Result<SnapshotModel, Failure> {
    if is_shared(cfg.dpi, profile, slot) {
        Err(shared_slot_failure(profile, slot))
    } else if profile >= current.profiles.len() || slot
        >= current.profiles[profile as int].resolutions.len() {
        Err(no_part(profile, "resolution slot"@, slot))
    } else {
        Ok(
            replace_slot(
                current,
                profile,
                slot,
                slot_with(
                    current.profiles[profile as int].resolutions[slot as int],
                    dpi,
                    enabled,
                ),
            ),
        )
    }
}

/// `current` with one resolution slot changed. The shared DPI slot of a profile
/// that g502d syncs is refused: the daemon owns it.
pub fn with_slot(
    current: &Snapshot,
    cfg: &Config,
    profile: u32,
    slot: u32,
    dpi: Option<u32>,
    enabled: Option<bool>,
) -> (r: Result<Snapshot, Error>)
    ensures
        is_outcome_of(r, slot_edit(current@, cfg@, profile, slot, dpi, enabled)),
{
    if slot == cfg.dpi.shared_slot && holds(&cfg.dpi.profiles, profile) {
        return Err(shared_slot_error(profile, slot));
    }
    if profile as usize >= current.profiles.len() || slot as usize
        >= current.profiles[profile as usize].resolutions.len() {
        return Err(no_part_error(profile, "resolution slot", slot));
    }
    let mut t = current.clone();
    let ghost p = profile as int;
    let ghost before = t@.profiles[p];
    assert(t.profiles@[p]@ == before);
    assert(t.profiles@[p].resolutions@[slot as int]@ == before.resolutions[slot as int]);
    let new = set_slot(&t.profiles[profile as usize].resolutions[slot as usize], dpi, enabled);
    t.profiles[profile as usize].resolutions[slot as usize] = new;
    assert(views(t.profiles@[p].resolutions@) =~= before.resolutions.update(slot as int, new@));
    assert(t@ =~= replace_slot(current@, profile, slot, new@));
    Ok(t)
}

} // verus!
