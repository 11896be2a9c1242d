//! What an overlay leaves alone, what it never does, and that it is done once it is applied.

use crate::action::{action_of, description, led_mode_of};
use crate::apply::{
    button_edit, button_overlay, buttons_overlay, color_text, disabled_edit, enabled_rules, has_enabled, led_edit,
    led_overlay, leds_in_color, leds_overlay, normal_color, overlay_of, profile_overlay, profiles_overlay, rate_edit,
    slot_edit, slot_overlay, slots_overlay,
};
use crate::config::{
    color_byte, color_digits, color_of, has_key, lemma_listed, lemma_listed_is_entry, listing, Config, ConfigModel, DpiModel, LedConfigModel, ProfileConfigModel,
    ResolutionConfig,
};
use crate::error::Failure;
use crate::keyed::{entries, lemma_entries_list};
use crate::ratbag::{ButtonModel, LedModel, ProfileModel, ResolutionModel, SnapshotModel};
use crate::restore::{disable_rules, enabled_count};
use crate::text::{hex, hex_digit, hex_padded, words};
use vstd::prelude::*;

verus! {

// ---------------------------------------------------------------- what stays as it is
/// `t` has of `p` all that `c` does not name.
pub open spec fn keeps_unnamed(p: ProfileModel, t: ProfileModel, c: ProfileConfigModel) -> bool {
    &&& t.index == p.index
    &&& t.is_active == p.is_active
    &&& t.report_rates == p.report_rates
    &&& t.capabilities == p.capabilities
    &&& t.leds.len() == p.leds.len()
    &&& t.buttons.len() == p.buttons.len()
    &&& t.resolutions.len() == p.resolutions.len()
    &&& c.enabled is None ==> t.disabled == p.disabled
    &&& c.report_rate is None ==> t.report_rate == p.report_rate
    &&& forall|j: int|
        0 <= j < p.leds.len() && c.color is None && !has_key(c.leds, j as u32) && j <= u32::MAX
            ==> #[trigger] t.leds[j] == p.leds[j]
    &&& forall|j: int|
        0 <= j < p.buttons.len() && !has_key(c.buttons, j as u32) && j <= u32::MAX
            ==> #[trigger] t.buttons[j] == p.buttons[j]
    &&& forall|j: int|
        0 <= j < p.resolutions.len() && !has_key(c.resolutions, j as u32) && j <= u32::MAX
            ==> #[trigger] t.resolutions[j] == p.resolutions[j]
}

proof fn lemma_leds_kept(p: u32, s: Seq<LedModel>, c: Seq<(u32, LedConfigModel)>, n: nat, j: int)
    requires
        n <= c.len(),
        0 <= j < s.len(),
        j <= u32::MAX,
        leds_overlay(p, s, c, n) is Ok,
    ensures
        leds_overlay(p, s, c, n)->Ok_0.len() == s.len(),
        !has_key(c, j as u32) ==> leds_overlay(p, s, c, n)->Ok_0[j] == s[j],
    decreases n,
{
    if n > 0 {
        lemma_leds_kept(p, s, c, (n - 1) as nat, j);
        assert(c[n - 1].0 == j ==> has_key(c, j as u32));
    }
}

proof fn lemma_leds_len(p: u32, s: Seq<LedModel>, c: Seq<(u32, LedConfigModel)>, n: nat)
    requires
        leds_overlay(p, s, c, n) is Ok,
    ensures
        leds_overlay(p, s, c, n)->Ok_0.len() == s.len(),
    decreases n,
{
    if n > 0 {
        lemma_leds_len(p, s, c, (n - 1) as nat);
    }
}

proof fn lemma_buttons_kept(p: u32, s: Seq<ButtonModel>, c: Seq<(u32, Seq<char>)>, n: nat)
    requires
        n <= c.len(),
        buttons_overlay(p, s, c, n) is Ok,
    ensures
        buttons_overlay(p, s, c, n)->Ok_0.len() == s.len(),
        forall|j: int|
            0 <= j < s.len() && j <= u32::MAX && !has_key(c, j as u32)
                ==> #[trigger] buttons_overlay(p, s, c, n)->Ok_0[j] == s[j],
    decreases n,
{
    if n > 0 {
        lemma_buttons_kept(p, s, c, (n - 1) as nat);
        let i = c[n - 1].0;
        assert(has_key(c, i));
        let before = buttons_overlay(p, s, c, (n - 1) as nat)->Ok_0;
        assert forall|j: int|
            0 <= j < s.len() && j <= u32::MAX && !has_key(
                c,
                j as u32,
            ) implies #[trigger] buttons_overlay(p, s, c, n)->Ok_0[j] == s[j] by {
            assert(before[j] == s[j]);
        }
    }
}

proof fn lemma_slots_kept(p: u32, s: Seq<ResolutionModel>, c: Seq<(u32, ResolutionConfig)>, n: nat)
    requires
        n <= c.len(),
        slots_overlay(p, s, c, n) is Ok,
    ensures
        slots_overlay(p, s, c, n)->Ok_0.len() == s.len(),
        forall|j: int|
            0 <= j < s.len() && j <= u32::MAX && !has_key(c, j as u32)
                ==> #[trigger] slots_overlay(p, s, c, n)->Ok_0[j] == s[j],
    decreases n,
{
    if n > 0 {
        lemma_slots_kept(p, s, c, (n - 1) as nat);
        let i = c[n - 1].0;
        assert(has_key(c, i));
        let before = slots_overlay(p, s, c, (n - 1) as nat)->Ok_0;
        assert forall|j: int|
            0 <= j < s.len() && j <= u32::MAX && !has_key(
                c,
                j as u32,
            ) implies #[trigger] slots_overlay(p, s, c, n)->Ok_0[j] == s[j] by {
            assert(before[j] == s[j]);
        }
    }
}

proof fn lemma_profile_kept(
    current: SnapshotModel,
    dpi: DpiModel,
    profile: u32,
    c: ProfileConfigModel,
)
    requires
        profile_overlay(current, dpi, profile, c) is Ok,
    ensures
        keeps_unnamed(
            current.profiles[profile as int],
            profile_overlay(current, dpi, profile, c)->Ok_0,
            c,
        ),
{
    let p = current.profiles[profile as int];
    let t = profile_overlay(current, dpi, profile, c)->Ok_0;
    let colored = leds_in_color(p.leds, c.color)->Ok_0;
    assert(colored.len() == p.leds.len());
    lemma_leds_len(profile, colored, c.leds, c.leds.len());
    assert forall|j: int|
        0 <= j < p.leds.len() && c.color is None && !has_key(c.leds, j as u32) && j
            <= u32::MAX implies #[trigger] t.leds[j] == p.leds[j] by {
        lemma_leds_kept(profile, colored, c.leds, c.leds.len(), j);
    }
    lemma_buttons_kept(profile, p.buttons, c.buttons, c.buttons.len());
    lemma_slots_kept(profile, p.resolutions, c.resolutions, c.resolutions.len());
}

/// Profile `i` of `t` is as it was, or as the config's entry number `k` makes it.
spec fn comes_from(current: SnapshotModel, cfg: ConfigModel, t: SnapshotModel, i: int, k: int) -> bool {
    0 <= k < cfg.profiles.len() && cfg.profiles[k].0 == i && profile_overlay(
        current,
        cfg.dpi,
        cfg.profiles[k].0,
        cfg.profiles[k].1,
    ) == Ok::<ProfileModel, Failure>(t.profiles[i])
}

proof fn lemma_profiles_from(current: SnapshotModel, cfg: ConfigModel, n: nat, i: int)
    requires
        n <= cfg.profiles.len(),
        profiles_overlay(current, cfg, n) is Ok,
        0 <= i < current.profiles.len(),
    ensures
        ({
            let t = profiles_overlay(current, cfg, n)->Ok_0;
            &&& t.name == current.name
            &&& t.model == current.model
            &&& t.profiles.len() == current.profiles.len()
            &&& t.profiles[i] == current.profiles[i] || exists|k: int| comes_from(
                current,
                cfg,
                t,
                i,
                k,
            )
            &&& (forall|k: int| 0 <= k < n ==> (#[trigger] cfg.profiles[k]).0 != i)
                ==> t.profiles[i] == current.profiles[i]
        }),
    decreases n,
{
    if n > 0 {
        lemma_profiles_from(current, cfg, (n - 1) as nat, i);
        let before = profiles_overlay(current, cfg, (n - 1) as nat)->Ok_0;
        let t = profiles_overlay(current, cfg, n)->Ok_0;
        if cfg.profiles[n - 1].0 == i {
            assert(comes_from(current, cfg, t, i, n - 1));
        } else if before.profiles[i] != current.profiles[i] {
            let k = choose|k: int| comes_from(current, cfg, before, i, k);
            assert(comes_from(current, cfg, t, i, k));
        }
    }
}

/// An overlay keeps the device and every profile that the config does not name; of a
/// profile that it names, it keeps all that the entry does not name.
pub proof fn overlay_changes_only_what_is_named(current: SnapshotModel, cfg: ConfigModel, i: int)
    requires
        overlay_of(current, cfg) is Ok,
        0 <= i < current.profiles.len(),
    ensures
        ({
            let t = overlay_of(current, cfg)->Ok_0;
            &&& t.name == current.name
            &&& t.model == current.model
            &&& t.profiles.len() == current.profiles.len()
            &&& i <= u32::MAX && !has_key(cfg.profiles, i as u32) ==> t.profiles[i]
                == current.profiles[i]
            &&& t.profiles[i] == current.profiles[i] || exists|k: int|
                0 <= k < cfg.profiles.len() && (#[trigger] cfg.profiles[k]).0 == i && keeps_unnamed(
                    current.profiles[i],
                    t.profiles[i],
                    cfg.profiles[k].1,
                )
        }),
{
    lemma_profiles_from(current, cfg, cfg.profiles.len(), i);
    let t = overlay_of(current, cfg)->Ok_0;
    if t.profiles[i] != current.profiles[i] {
        let k = choose|k: int| comes_from(current, cfg, t, i, k);
        lemma_profile_kept(
            current,
            cfg.dpi,
            cfg.profiles[k].0,
            cfg.profiles[k].1,
        );
        assert(cfg.profiles[k].0 == i);
        assert(has_key(cfg.profiles, i as u32));
    }
}

/// A config that names no profile, such as the defaults, changes nothing.
pub proof fn overlay_of_a_config_without_profiles_is_the_device(
    current: SnapshotModel,
    cfg: ConfigModel,
)
    requires
        cfg.profiles.len() == 0,
    ensures
        overlay_of(current, cfg) == Ok::<SnapshotModel, Failure>(current),
{
}

/// An overlay never touches the slot that holds the shared DPI of a synced profile.
pub proof fn overlay_leaves_the_shared_slot_alone(
    current: SnapshotModel,
    cfg: ConfigModel,
    profile: u32,
)
    requires
        overlay_of(current, cfg) is Ok,
        cfg.dpi.profiles.contains(profile),
        profile < current.profiles.len(),
        cfg.dpi.shared_slot < current.profiles[profile as int].resolutions.len(),
    ensures
        overlay_of(current, cfg)->Ok_0.profiles[profile as int].resolutions[cfg.dpi.shared_slot as int]
            == current.profiles[profile as int].resolutions[cfg.dpi.shared_slot as int],
{
    let i = profile as int;
    lemma_profiles_from(current, cfg, cfg.profiles.len(), i);
    let t = overlay_of(current, cfg)->Ok_0;
    if t.profiles[i] != current.profiles[i] {
        let k = choose|k: int| comes_from(current, cfg, t, i, k);
        lemma_profile_kept(current, cfg.dpi, cfg.profiles[k].0, cfg.profiles[k].1);
        let j = cfg.dpi.shared_slot as int;
        assert(!has_key(cfg.profiles[k].1.resolutions, j as u32));
        assert(t.profiles[i].resolutions[j] == current.profiles[i].resolutions[j]);
    }
}

/// An overlay disables a profile only where the safety rules allow it: never one that
/// g502d syncs, the active one, or the only enabled one.
pub proof fn overlay_disables_only_what_the_rules_allow(
    current: SnapshotModel,
    cfg: ConfigModel,
    i: int,
)
    requires
        overlay_of(current, cfg) is Ok,
        0 <= i < current.profiles.len(),
        !current.profiles[i].disabled,
        overlay_of(current, cfg)->Ok_0.profiles[i].disabled,
    ensures
        i <= u32::MAX,
        disable_rules(current, cfg.dpi.profiles, i as u32) is Ok,
{
    lemma_profiles_from(current, cfg, cfg.profiles.len(), i);
    let t = overlay_of(current, cfg)->Ok_0;
    let k = choose|k: int| comes_from(current, cfg, t, i, k);
    assert(comes_from(current, cfg, t, i, k));
}

// ------------------------------------------------------------------ an enabled profile
proof fn lemma_count_others(s: Seq<ProfileModel>, i: int, p: ProfileModel, n: nat)
    requires
        n <= s.len(),
        0 <= i < s.len(),
    ensures
        i >= n ==> enabled_count(s.update(i, p), n) == enabled_count(s, n),
        i < n ==> enabled_count(s.update(i, p), n) + (if s[i].disabled {
            0int
        } else {
            1
        }) == enabled_count(s, n) + (if p.disabled {
            0int
        } else {
            1
        }),
    decreases n,
{
    if n > 0 {
        lemma_count_others(s, i, p, (n - 1) as nat);
    }
}

/// An overlay never takes the last enabled profile from a device, however many profiles
/// the config disables.
pub proof fn an_overlay_leaves_an_enabled_profile(current: SnapshotModel, cfg: ConfigModel)
    requires
        overlay_of(current, cfg) is Ok,
        enabled_count(current.profiles, current.profiles.len()) > 0,
    ensures
        ({
            let t = overlay_of(current, cfg)->Ok_0;
            enabled_count(t.profiles, t.profiles.len()) > 0
        }),
{
}

/// Enabling or disabling one profile never leaves the device without an enabled one.
pub proof fn an_enabled_profile_remains(
    current: SnapshotModel,
    dpi_profiles: Seq<u32>,
    profile: u32,
    disabled: bool,
)
    requires
        enabled_count(current.profiles, current.profiles.len()) > 0,
        disabled_edit(current, dpi_profiles, profile, disabled) is Ok,
    ensures
        ({
            let t = disabled_edit(current, dpi_profiles, profile, disabled)->Ok_0;
            enabled_count(t.profiles, t.profiles.len()) > 0
        }),
{
    let p = ProfileModel { disabled, ..current.profiles[profile as int] };
    lemma_count_others(current.profiles, profile as int, p, current.profiles.len());
}

// ------------------------------------------------------------------------ once more
/// No key occurs twice.
pub open spec fn has_distinct_keys<V>(s: Seq<(u32, V)>) -> bool {
    forall|i: int, j: int| 0 <= i < j < s.len() ==> (#[trigger] s[i]).0 != (#[trigger] s[j]).0
}

/// No table of the config has a key twice.
pub open spec fn is_keyed(c: ConfigModel) -> bool {
    &&& has_distinct_keys(c.profiles)
    &&& forall|k: int|
        0 <= k < c.profiles.len() ==> has_distinct_keys((#[trigger] c.profiles[k]).1.leds)
            && has_distinct_keys(c.profiles[k].1.buttons) && has_distinct_keys(
            c.profiles[k].1.resolutions,
        )
}

proof fn lemma_listing_is_keyed<V: View>(m: Map<u32, V>)
    ensures
        has_distinct_keys(listing(m)),
{
    lemma_entries_list(m, 0x1_0000_0000);
    let s = listing(m);
    assert forall|i: int, j: int| 0 <= i < j < s.len() implies (#[trigger] s[i]).0 != (
    #[trigger] s[j]).0 by {
        assert(entries(m)[i].0 < entries(m)[j].0);
    }
}

/// Every config is keyed.
pub proof fn a_config_is_keyed(c: Config)
    ensures
        is_keyed(c@),
{
    lemma_listing_is_keyed(c.profiles@);
    assert forall|k: int| 0 <= k < c@.profiles.len() implies has_distinct_keys(
        (#[trigger] c@.profiles[k]).1.leds,
    ) && has_distinct_keys(c@.profiles[k].1.buttons) && has_distinct_keys(
        c@.profiles[k].1.resolutions,
    ) by {
        let p = entries(c.profiles@)[k].1;
        lemma_listing_is_keyed(p.leds@);
        lemma_listing_is_keyed(p.buttons@);
        lemma_listing_is_keyed(p.resolutions@);
    }
}

proof fn lemma_leds_each(p: u32, s: Seq<LedModel>, c: Seq<(u32, LedConfigModel)>, n: nat)
    requires
        n <= c.len(),
        has_distinct_keys(c),
        leds_overlay(p, s, c, n) is Ok,
    ensures
        ({
            let t = leds_overlay(p, s, c, n)->Ok_0;
            &&& t.len() == s.len()
            &&& forall|k: int|
                0 <= k < n ==> (#[trigger] c[k]).0 < s.len() && led_overlay(s[c[k].0 as int], c[k].1) == Ok::<
                    LedModel,
                    Failure,
                >(t[c[k].0 as int])
            &&& forall|j: int|
                0 <= j < s.len() && (forall|k: int| 0 <= k < n ==> (#[trigger] c[k]).0 != j)
                    ==> #[trigger] t[j] == s[j]
        }),
    decreases n,
{
    if n > 0 {
        lemma_leds_each(p, s, c, (n - 1) as nat);
        let before = leds_overlay(p, s, c, (n - 1) as nat)->Ok_0;
        let t = leds_overlay(p, s, c, n)->Ok_0;
        let i = c[n - 1].0 as int;
        assert(before[i] == s[i]) by {
            assert forall|k: int| 0 <= k < n - 1 implies (#[trigger] c[k]).0 != i by {
                assert(c[k].0 != c[n - 1].0);
            }
        }
        assert forall|k: int| 0 <= k < n implies (#[trigger] c[k]).0 < s.len() && led_overlay(
            s[c[k].0 as int],
            c[k].1,
        ) == Ok::<LedModel, Failure>(t[c[k].0 as int]) by {
            if k < n - 1 {
                assert(c[k].0 != c[n - 1].0);
            }
        }
        assert forall|j: int|
            0 <= j < s.len() && (forall|k: int|
                0 <= k < n ==> (#[trigger] c[k]).0 != j) implies #[trigger] t[j] == s[j] by {
            assert(c[n - 1].0 != j);
            assert(before[j] == s[j]);
        }
    }
}

proof fn lemma_leds_succeed(p: u32, s: Seq<LedModel>, c: Seq<(u32, LedConfigModel)>, n: nat)
    requires
        n <= c.len(),
        has_distinct_keys(c),
        forall|k: int|
            0 <= k < n ==> (#[trigger] c[k]).0 < s.len() && led_overlay(s[c[k].0 as int], c[k].1) is Ok,
    ensures
        leds_overlay(p, s, c, n) is Ok,
    decreases n,
{
    if n > 0 {
        lemma_leds_succeed(p, s, c, (n - 1) as nat);
        lemma_leds_each(p, s, c, (n - 1) as nat);
        let before = leds_overlay(p, s, c, (n - 1) as nat)->Ok_0;
        let i = c[n - 1].0 as int;
        assert(before[i] == s[i]) by {
            assert forall|k: int| 0 <= k < n - 1 implies (#[trigger] c[k]).0 != i by {
                assert(c[k].0 != c[n - 1].0);
            }
        }
    }
}

/// Where each entry makes of `s` what `t` has, and `s` has the rest of `t`, the entries make
/// `t` of `s`.
proof fn lemma_leds_make(p: u32, s: Seq<LedModel>, t: Seq<LedModel>, c: Seq<(u32, LedConfigModel)>)
    requires
        has_distinct_keys(c),
        s.len() == t.len(),
        forall|k: int|
            0 <= k < c.len() ==> (#[trigger] c[k]).0 < s.len() && led_overlay(s[c[k].0 as int], c[k].1) == Ok::<
                LedModel,
                Failure,
            >(t[c[k].0 as int]),
        forall|j: int|
            0 <= j < s.len() && (forall|k: int| 0 <= k < c.len() ==> (#[trigger] c[k]).0 != j)
                ==> #[trigger] s[j] == t[j],
    ensures
        leds_overlay(p, s, c, c.len()) == Ok::<Seq<LedModel>, Failure>(t),
{
    lemma_leds_succeed(p, s, c, c.len());
    lemma_leds_each(p, s, c, c.len());
    let made = leds_overlay(p, s, c, c.len())->Ok_0;
    assert forall|j: int| 0 <= j < t.len() implies made[j] == t[j] by {
        if exists|k: int| 0 <= k < c.len() && (#[trigger] c[k]).0 == j {
            let k = choose|k: int| 0 <= k < c.len() && (#[trigger] c[k]).0 == j;
            assert(led_overlay(s[c[k].0 as int], c[k].1) == Ok::<LedModel, Failure>(made[j]));
        } else {
            assert(made[j] == s[j]);
            assert(s[j] == t[j]);
        }
    }
    assert(made =~= t);
}

proof fn lemma_buttons_each(p: u32, s: Seq<ButtonModel>, c: Seq<(u32, Seq<char>)>, n: nat)
    requires
        n <= c.len(),
        has_distinct_keys(c),
        buttons_overlay(p, s, c, n) is Ok,
    ensures
        ({
            let t = buttons_overlay(p, s, c, n)->Ok_0;
            &&& t.len() == s.len()
            &&& forall|k: int|
                0 <= k < n ==> (#[trigger] c[k]).0 < s.len() && button_overlay(s[c[k].0 as int], c[k].1) == Ok::<
                    ButtonModel,
                    Failure,
                >(t[c[k].0 as int])
            &&& forall|j: int|
                0 <= j < s.len() && (forall|k: int| 0 <= k < n ==> (#[trigger] c[k]).0 != j)
                    ==> #[trigger] t[j] == s[j]
        }),
    decreases n,
{
    if n > 0 {
        lemma_buttons_each(p, s, c, (n - 1) as nat);
        let before = buttons_overlay(p, s, c, (n - 1) as nat)->Ok_0;
        let t = buttons_overlay(p, s, c, n)->Ok_0;
        let i = c[n - 1].0 as int;
        assert(before[i] == s[i]) by {
            assert forall|k: int| 0 <= k < n - 1 implies (#[trigger] c[k]).0 != i by {
                assert(c[k].0 != c[n - 1].0);
            }
        }
        assert forall|k: int| 0 <= k < n implies (#[trigger] c[k]).0 < s.len() && button_overlay(
            s[c[k].0 as int],
            c[k].1,
        ) == Ok::<ButtonModel, Failure>(t[c[k].0 as int]) by {
            if k < n - 1 {
                assert(c[k].0 != c[n - 1].0);
            }
        }
        assert forall|j: int|
            0 <= j < s.len() && (forall|k: int|
                0 <= k < n ==> (#[trigger] c[k]).0 != j) implies #[trigger] t[j] == s[j] by {
            assert(c[n - 1].0 != j);
            assert(before[j] == s[j]);
        }
    }
}

proof fn lemma_buttons_succeed(p: u32, s: Seq<ButtonModel>, c: Seq<(u32, Seq<char>)>, n: nat)
    requires
        n <= c.len(),
        has_distinct_keys(c),
        forall|k: int|
            0 <= k < n ==> (#[trigger] c[k]).0 < s.len() && button_overlay(s[c[k].0 as int], c[k].1) is Ok,
    ensures
        buttons_overlay(p, s, c, n) is Ok,
    decreases n,
{
    if n > 0 {
        lemma_buttons_succeed(p, s, c, (n - 1) as nat);
        lemma_buttons_each(p, s, c, (n - 1) as nat);
        let before = buttons_overlay(p, s, c, (n - 1) as nat)->Ok_0;
        let i = c[n - 1].0 as int;
        assert(before[i] == s[i]) by {
            assert forall|k: int| 0 <= k < n - 1 implies (#[trigger] c[k]).0 != i by {
                assert(c[k].0 != c[n - 1].0);
            }
        }
    }
}

/// Where each entry makes of `s` what `t` has, and `s` has the rest of `t`, the entries make
/// `t` of `s`.
proof fn lemma_buttons_make(p: u32, s: Seq<ButtonModel>, t: Seq<ButtonModel>, c: Seq<(u32, Seq<char>)>)
    requires
        has_distinct_keys(c),
        s.len() == t.len(),
        forall|k: int|
            0 <= k < c.len() ==> (#[trigger] c[k]).0 < s.len() && button_overlay(s[c[k].0 as int], c[k].1) == Ok::<
                ButtonModel,
                Failure,
            >(t[c[k].0 as int]),
        forall|j: int|
            0 <= j < s.len() && (forall|k: int| 0 <= k < c.len() ==> (#[trigger] c[k]).0 != j)
                ==> #[trigger] s[j] == t[j],
    ensures
        buttons_overlay(p, s, c, c.len()) == Ok::<Seq<ButtonModel>, Failure>(t),
{
    lemma_buttons_succeed(p, s, c, c.len());
    lemma_buttons_each(p, s, c, c.len());
    let made = buttons_overlay(p, s, c, c.len())->Ok_0;
    assert forall|j: int| 0 <= j < t.len() implies made[j] == t[j] by {
        if exists|k: int| 0 <= k < c.len() && (#[trigger] c[k]).0 == j {
            let k = choose|k: int| 0 <= k < c.len() && (#[trigger] c[k]).0 == j;
            assert(button_overlay(s[c[k].0 as int], c[k].1) == Ok::<ButtonModel, Failure>(made[j]));
        } else {
            assert(made[j] == s[j]);
            assert(s[j] == t[j]);
        }
    }
    assert(made =~= t);
}

proof fn lemma_slots_each(p: u32, s: Seq<ResolutionModel>, c: Seq<(u32, ResolutionConfig)>, n: nat)
    requires
        n <= c.len(),
        has_distinct_keys(c),
        slots_overlay(p, s, c, n) is Ok,
    ensures
        ({
            let t = slots_overlay(p, s, c, n)->Ok_0;
            &&& t.len() == s.len()
            &&& forall|k: int|
                0 <= k < n ==> (#[trigger] c[k]).0 < s.len() && slot_overlay(s[c[k].0 as int], c[k].1) == Ok::<
                    ResolutionModel,
                    Failure,
                >(t[c[k].0 as int])
            &&& forall|j: int|
                0 <= j < s.len() && (forall|k: int| 0 <= k < n ==> (#[trigger] c[k]).0 != j)
                    ==> #[trigger] t[j] == s[j]
        }),
    decreases n,
{
    if n > 0 {
        lemma_slots_each(p, s, c, (n - 1) as nat);
        let before = slots_overlay(p, s, c, (n - 1) as nat)->Ok_0;
        let t = slots_overlay(p, s, c, n)->Ok_0;
        let i = c[n - 1].0 as int;
        assert(before[i] == s[i]) by {
            assert forall|k: int| 0 <= k < n - 1 implies (#[trigger] c[k]).0 != i by {
                assert(c[k].0 != c[n - 1].0);
            }
        }
        assert forall|k: int| 0 <= k < n implies (#[trigger] c[k]).0 < s.len() && slot_overlay(
            s[c[k].0 as int],
            c[k].1,
        ) == Ok::<ResolutionModel, Failure>(t[c[k].0 as int]) by {
            if k < n - 1 {
                assert(c[k].0 != c[n - 1].0);
            }
        }
        assert forall|j: int|
            0 <= j < s.len() && (forall|k: int|
                0 <= k < n ==> (#[trigger] c[k]).0 != j) implies #[trigger] t[j] == s[j] by {
            assert(c[n - 1].0 != j);
            assert(before[j] == s[j]);
        }
    }
}

proof fn lemma_slots_succeed(p: u32, s: Seq<ResolutionModel>, c: Seq<(u32, ResolutionConfig)>, n: nat)
    requires
        n <= c.len(),
        has_distinct_keys(c),
        forall|k: int|
            0 <= k < n ==> (#[trigger] c[k]).0 < s.len() && slot_overlay(s[c[k].0 as int], c[k].1) is Ok,
    ensures
        slots_overlay(p, s, c, n) is Ok,
    decreases n,
{
    if n > 0 {
        lemma_slots_succeed(p, s, c, (n - 1) as nat);
        lemma_slots_each(p, s, c, (n - 1) as nat);
        let before = slots_overlay(p, s, c, (n - 1) as nat)->Ok_0;
        let i = c[n - 1].0 as int;
        assert(before[i] == s[i]) by {
            assert forall|k: int| 0 <= k < n - 1 implies (#[trigger] c[k]).0 != i by {
                assert(c[k].0 != c[n - 1].0);
            }
        }
    }
}

/// Where each entry makes of `s` what `t` has, and `s` has the rest of `t`, the entries make
/// `t` of `s`.
proof fn lemma_slots_make(p: u32, s: Seq<ResolutionModel>, t: Seq<ResolutionModel>, c: Seq<(u32, ResolutionConfig)>)
    requires
        has_distinct_keys(c),
        s.len() == t.len(),
        forall|k: int|
            0 <= k < c.len() ==> (#[trigger] c[k]).0 < s.len() && slot_overlay(s[c[k].0 as int], c[k].1) == Ok::<
                ResolutionModel,
                Failure,
            >(t[c[k].0 as int]),
        forall|j: int|
            0 <= j < s.len() && (forall|k: int| 0 <= k < c.len() ==> (#[trigger] c[k]).0 != j)
                ==> #[trigger] s[j] == t[j],
    ensures
        slots_overlay(p, s, c, c.len()) == Ok::<Seq<ResolutionModel>, Failure>(t),
{
    lemma_slots_succeed(p, s, c, c.len());
    lemma_slots_each(p, s, c, c.len());
    let made = slots_overlay(p, s, c, c.len())->Ok_0;
    assert forall|j: int| 0 <= j < t.len() implies made[j] == t[j] by {
        if exists|k: int| 0 <= k < c.len() && (#[trigger] c[k]).0 == j {
            let k = choose|k: int| 0 <= k < c.len() && (#[trigger] c[k]).0 == j;
            assert(slot_overlay(s[c[k].0 as int], c[k].1) == Ok::<ResolutionModel, Failure>(made[j]));
        } else {
            assert(made[j] == s[j]);
            assert(s[j] == t[j]);
        }
    }
    assert(made =~= t);
}

/// What a config has made of a profile, it makes of it again.
proof fn lemma_profile_twice(
    current: SnapshotModel,
    t: SnapshotModel,
    dpi: DpiModel,
    profile: u32,
    c: ProfileConfigModel,
)
    requires
        profile < current.profiles.len() == t.profiles.len(),
        has_distinct_keys(c.leds),
        has_distinct_keys(c.buttons),
        has_distinct_keys(c.resolutions),
        profile_overlay(current, dpi, profile, c) == Ok::<ProfileModel, Failure>(
            t.profiles[profile as int],
        ),
    ensures
        profile_overlay(t, dpi, profile, c) == Ok::<ProfileModel, Failure>(
            t.profiles[profile as int],
        ),
{
    let p = current.profiles[profile as int];
    let q = t.profiles[profile as int];
    let colored = leds_in_color(p.leds, c.color)->Ok_0;
    let again = leds_in_color(q.leds, c.color)->Ok_0;
    lemma_leds_each(profile, colored, c.leds, c.leds.len());
    assert forall|k: int| 0 <= k < c.leds.len() implies (#[trigger] c.leds[k]).0 < again.len()
        && led_overlay(again[c.leds[k].0 as int], c.leds[k].1) == Ok::<LedModel, Failure>(
        q.leds[c.leds[k].0 as int],
    ) by {
        assert(led_overlay(colored[c.leds[k].0 as int], c.leds[k].1) == Ok::<LedModel, Failure>(
            q.leds[c.leds[k].0 as int],
        ));
    }
    assert forall|j: int|
        0 <= j < again.len() && (forall|k: int|
            0 <= k < c.leds.len() ==> (#[trigger] c.leds[k]).0 != j) implies #[trigger] again[j]
        == q.leds[j] by {
        assert(q.leds[j] == colored[j]);
    }
    lemma_leds_make(profile, again, q.leds, c.leds);
    lemma_buttons_each(profile, p.buttons, c.buttons, c.buttons.len());
    assert forall|k: int| 0 <= k < c.buttons.len() implies (#[trigger] c.buttons[k]).0
        < q.buttons.len() && button_overlay(q.buttons[c.buttons[k].0 as int], c.buttons[k].1)
        == Ok::<ButtonModel, Failure>(q.buttons[c.buttons[k].0 as int]) by {
        assert(button_overlay(p.buttons[c.buttons[k].0 as int], c.buttons[k].1) is Ok);
    }
    lemma_buttons_make(profile, q.buttons, q.buttons, c.buttons);
    lemma_slots_each(profile, p.resolutions, c.resolutions, c.resolutions.len());
    assert forall|k: int| 0 <= k < c.resolutions.len() implies (#[trigger] c.resolutions[k]).0
        < q.resolutions.len() && slot_overlay(
        q.resolutions[c.resolutions[k].0 as int],
        c.resolutions[k].1,
    ) == Ok::<ResolutionModel, Failure>(q.resolutions[c.resolutions[k].0 as int]) by {
        assert(slot_overlay(p.resolutions[c.resolutions[k].0 as int], c.resolutions[k].1) is Ok);
    }
    lemma_slots_make(profile, q.resolutions, q.resolutions, c.resolutions);
    assert(profile_overlay(t, dpi, profile, c)->Ok_0 =~= q);
}

/// With no key twice, each entry's profile is in the end as that entry makes it.
proof fn lemma_profiles_each(current: SnapshotModel, cfg: ConfigModel, n: nat)
    requires
        n <= cfg.profiles.len(),
        has_distinct_keys(cfg.profiles),
        profiles_overlay(current, cfg, n) is Ok,
    ensures
        ({
            let t = profiles_overlay(current, cfg, n)->Ok_0;
            &&& t.profiles.len() == current.profiles.len()
            &&& forall|k: int|
                0 <= k < n ==> (#[trigger] cfg.profiles[k]).0 < current.profiles.len()
                    && profile_overlay(current, cfg.dpi, cfg.profiles[k].0, cfg.profiles[k].1)
                    == Ok::<ProfileModel, Failure>(t.profiles[cfg.profiles[k].0 as int])
        }),
    decreases n,
{
    if n > 0 {
        lemma_profiles_each(current, cfg, (n - 1) as nat);
        let t = profiles_overlay(current, cfg, n)->Ok_0;
        assert forall|k: int| 0 <= k < n implies (#[trigger] cfg.profiles[k]).0
            < current.profiles.len() && profile_overlay(
            current,
            cfg.dpi,
            cfg.profiles[k].0,
            cfg.profiles[k].1,
        ) == Ok::<ProfileModel, Failure>(t.profiles[cfg.profiles[k].0 as int]) by {
            if k < n - 1 {
                assert(cfg.profiles[k].0 != cfg.profiles[n - 1].0);
            }
        }
    }
}

proof fn lemma_profiles_twice(current: SnapshotModel, t: SnapshotModel, cfg: ConfigModel, n: nat)
    requires
        n <= cfg.profiles.len(),
        is_keyed(cfg),
        profiles_overlay(current, cfg, cfg.profiles.len()) == Ok::<SnapshotModel, Failure>(t),
    ensures
        profiles_overlay(t, cfg, n) == Ok::<SnapshotModel, Failure>(t),
    decreases n,
{
    if n > 0 {
        lemma_profiles_twice(current, t, cfg, (n - 1) as nat);
        lemma_profiles_each(current, cfg, cfg.profiles.len());
        let (i, c) = cfg.profiles[n - 1];
        lemma_profile_twice(current, t, cfg.dpi, i, c);
        assert(t.profiles.update(i as int, t.profiles[i as int]) =~= t.profiles);
    }
}

/// Applying a config a second time changes nothing more.
pub proof fn an_overlay_is_applied_once(current: SnapshotModel, cfg: ConfigModel)
    requires
        overlay_of(current, cfg) is Ok,
        is_keyed(cfg),
    ensures
        overlay_of(overlay_of(current, cfg)->Ok_0, cfg) == overlay_of(current, cfg),
{
    lemma_profiles_twice(current, overlay_of(current, cfg)->Ok_0, cfg, cfg.profiles.len());
}

// ------------------------------------------------------------------------ colours
proof fn lemma_hex_byte(n: u8)
    ensures
        hex_padded(n as nat, 2).len() == 2,
        hex_padded(n as nat, 2)[0] == hex_digit(n as int / 16),
        hex_padded(n as nat, 2)[1] == hex_digit(n as int % 16),
        color_byte(hex_digit(n as int / 16), hex_digit(n as int % 16)) == Some(n),
        (hex_digit(n as int / 16) as u32) < 128,
        (hex_digit(n as int % 16) as u32) < 128,
        hex_digit(n as int / 16) != '#',
{
    reveal_with_fuel(hex, 3);
    assert(n as int / 16 < 16);
}

/// Six digits for a colour stand for that colour, and are its own spelling.
pub proof fn color_text_reads_back(c: (u8, u8, u8))
    ensures
        color_of(color_text(c)) == Ok::<(u8, u8, u8), Failure>(c),
        normal_color(color_text(c)) == Ok::<Seq<char>, Failure>(color_text(c)),
{
    let t = color_text(c);
    lemma_hex_byte(c.0);
    lemma_hex_byte(c.1);
    lemma_hex_byte(c.2);
    assert(t.len() == 6);
    assert(t[0] == hex_padded(c.0 as nat, 2)[0]);
    assert(t[1] == hex_padded(c.0 as nat, 2)[1]);
    assert(t[2] == hex_padded(c.1 as nat, 2)[0]);
    assert(t[3] == hex_padded(c.1 as nat, 2)[1]);
    assert(t[4] == hex_padded(c.2 as nat, 2)[0]);
    assert(t[5] == hex_padded(c.2 as nat, 2)[1]);
    assert(color_digits(t) == t);
    assert(crate::text::is_ascii(t));
}

/// The device's spelling of a colour stands for the same colour, and is its own
/// spelling.
pub proof fn normal_color_is_the_same_color(s: Seq<char>)
    requires
        normal_color(s) is Ok,
    ensures
        color_of(normal_color(s)->Ok_0) == color_of(s),
        normal_color(normal_color(s)->Ok_0) == normal_color(s),
{
    color_text_reads_back(color_of(s)->Ok_0);
}

// --------------------------------------------------------------------- what is named
/// A profile that the config names is as its entry makes it.
proof fn lemma_named_profile(current: SnapshotModel, cfg: Config, i: u32)
    requires
        overlay_of(current, cfg@) is Ok,
        cfg.profiles@.contains_key(i),
    ensures
        i < current.profiles.len() == overlay_of(current, cfg@)->Ok_0.profiles.len(),
        profile_overlay(current, cfg.dpi@, i, cfg.profiles@[i]@) == Ok::<ProfileModel, Failure>(
            overlay_of(current, cfg@)->Ok_0.profiles[i as int],
        ),
        has_distinct_keys(cfg.profiles@[i]@.leds),
        has_distinct_keys(cfg.profiles@[i]@.buttons),
        has_distinct_keys(cfg.profiles@[i]@.resolutions),
{
    a_config_is_keyed(cfg);
    lemma_profiles_each(current, cfg@, cfg@.profiles.len());
    let k = lemma_listed(cfg.profiles@, i);
    assert(cfg@.profiles[k] == (i, cfg.profiles@[i]@));
}

/// A profile that the config names is enabled or disabled and has the report rate as the
/// config gives them; what it does not give stays.
pub proof fn a_named_profile_is_as_named(current: SnapshotModel, cfg: Config, i: u32)
    requires
        overlay_of(current, cfg@) is Ok,
        cfg.profiles@.contains_key(i),
    ensures
        i < overlay_of(current, cfg@)->Ok_0.profiles.len(),
        ({
            let p = current.profiles[i as int];
            let q = overlay_of(current, cfg@)->Ok_0.profiles[i as int];
            let c = cfg.profiles@[i];
            &&& q.disabled == (match c.enabled {
                Some(on) => !on,
                None => p.disabled,
            })
            &&& q.report_rate == (match c.report_rate {
                Some(hz) => hz,
                None => p.report_rate,
            })
            &&& q.index == p.index
            &&& q.is_active == p.is_active
            &&& q.report_rates == p.report_rates
            &&& q.capabilities == p.capabilities
        }),
{
    lemma_named_profile(current, cfg, i);
}

/// An LED that the config names has the mode, colour and brightness that the config gives it;
/// a colour for the whole profile is that of every LED without one of its own; what is not
/// given stays.
pub proof fn a_named_led_is_as_named(current: SnapshotModel, cfg: Config, i: u32, j: u32)
    requires
        overlay_of(current, cfg@) is Ok,
        cfg.profiles@.contains_key(i),
        cfg.profiles@[i].leds@.contains_key(j),
    ensures
        i < overlay_of(current, cfg@)->Ok_0.profiles.len(),
        j < overlay_of(current, cfg@)->Ok_0.profiles[i as int].leds.len(),
        ({
            let was = current.profiles[i as int].leds[j as int];
            let l = overlay_of(current, cfg@)->Ok_0.profiles[i as int].leds[j as int];
            let c = cfg.profiles@[i].leds@[j];
            let whole = cfg.profiles@[i].color;
            &&& c.mode matches Some(m) ==> led_mode_of(m@) == Ok::<u32, Failure>(l.mode)
            &&& c.mode is None ==> l.mode == was.mode
            &&& c.color matches Some(x) ==> color_of(x@) is Ok && l.color == color_text(
                color_of(x@)->Ok_0,
            ) && color_of(l.color) == color_of(x@)
            &&& c.color is None ==> (whole matches Some(x) ==> color_of(x@) is Ok && l.color
                == color_text(color_of(x@)->Ok_0) && color_of(l.color) == color_of(x@))
            &&& c.color is None && whole is None ==> l.color == was.color
            &&& c.brightness matches Some(b) ==> l.brightness == b
            &&& c.brightness is None ==> l.brightness == was.brightness
            &&& l.index == was.index
            &&& l.modes == was.modes
            &&& l.color_depth == was.color_depth
        }),
{
    lemma_named_profile(current, cfg, i);
    let p = current.profiles[i as int];
    let c = cfg.profiles@[i];
    let colored = leds_in_color(p.leds, c@.color)->Ok_0;
    lemma_leds_each(i, colored, c@.leds, c@.leds.len());
    let k = lemma_listed(c.leds@, j);
    assert(c@.leds[k] == (j, c.leds@[j]@));
    if c.leds@[j].color is Some {
        normal_color_is_the_same_color(c.leds@[j].color->0@);
    }
    if c.color is Some {
        normal_color_is_the_same_color(c.color->0@);
    }
}

/// An LED that the config does not name has the colour that the config gives the whole
/// profile, and all else stays.
pub proof fn a_colored_profile_has_its_color(current: SnapshotModel, cfg: Config, i: u32, j: int)
    requires
        overlay_of(current, cfg@) is Ok,
        cfg.profiles@.contains_key(i),
        0 <= j < current.profiles[i as int].leds.len(),
        forall|k: u32| k == j ==> !cfg.profiles@[i].leds@.contains_key(k),
    ensures
        i < overlay_of(current, cfg@)->Ok_0.profiles.len(),
        j < overlay_of(current, cfg@)->Ok_0.profiles[i as int].leds.len(),
        ({
            let was = current.profiles[i as int].leds[j];
            let l = overlay_of(current, cfg@)->Ok_0.profiles[i as int].leds[j];
            let whole = cfg.profiles@[i].color;
            &&& whole matches Some(x) ==> color_of(x@) is Ok && l.color == color_text(
                color_of(x@)->Ok_0,
            ) && color_of(l.color) == color_of(x@)
            &&& whole is None ==> l.color == was.color
            &&& l.mode == was.mode
            &&& l.brightness == was.brightness
            &&& l.index == was.index
            &&& l.modes == was.modes
            &&& l.color_depth == was.color_depth
        }),
{
    lemma_named_profile(current, cfg, i);
    let p = current.profiles[i as int];
    let c = cfg.profiles@[i];
    let colored = leds_in_color(p.leds, c@.color)->Ok_0;
    lemma_leds_each(i, colored, c@.leds, c@.leds.len());
    assert forall|k: int| 0 <= k < c@.leds.len() implies (#[trigger] c@.leds[k]).0 != j by {
        lemma_listed_is_entry(c.leds@, k);
    }
    let l = overlay_of(current, cfg@)->Ok_0.profiles[i as int].leds[j];
    assert(l == colored[j]);
    if c.color is Some {
        normal_color_is_the_same_color(c.color->0@);
    }
}

/// A button that the config names has the type and value that its action stands for, and is
/// described so.
pub proof fn a_named_button_is_as_named(current: SnapshotModel, cfg: Config, i: u32, j: u32)
    requires
        overlay_of(current, cfg@) is Ok,
        cfg.profiles@.contains_key(i),
        cfg.profiles@[i].buttons@.contains_key(j),
    ensures
        i < overlay_of(current, cfg@)->Ok_0.profiles.len(),
        j < overlay_of(current, cfg@)->Ok_0.profiles[i as int].buttons.len(),
        ({
            let was = current.profiles[i as int].buttons[j as int];
            let b = overlay_of(current, cfg@)->Ok_0.profiles[i as int].buttons[j as int];
            let action = action_of(words(cfg.profiles@[i].buttons@[j].onboard@));
            &&& action is Ok
            &&& b.raw_type == action->Ok_0.0
            &&& b.raw_value == action->Ok_0.1
            &&& b.action == description(b.raw_type, b.raw_value)
            &&& b.index == was.index
            &&& b.action_types == was.action_types
        }),
{
    lemma_named_profile(current, cfg, i);
    let c = cfg.profiles@[i];
    lemma_buttons_each(i, current.profiles[i as int].buttons, c@.buttons, c@.buttons.len());
    let k = lemma_listed(c.buttons@, j);
    assert(c@.buttons[k] == (j, c.buttons@[j]@));
}

/// A slot that the config names has the DPI and the state that the config gives it; what is
/// not given stays.
pub proof fn a_named_slot_is_as_named(current: SnapshotModel, cfg: Config, i: u32, j: u32)
    requires
        overlay_of(current, cfg@) is Ok,
        cfg.profiles@.contains_key(i),
        cfg.profiles@[i].resolutions@.contains_key(j),
    ensures
        i < overlay_of(current, cfg@)->Ok_0.profiles.len(),
        j < overlay_of(current, cfg@)->Ok_0.profiles[i as int].resolutions.len(),
        ({
            let was = current.profiles[i as int].resolutions[j as int];
            let r = overlay_of(current, cfg@)->Ok_0.profiles[i as int].resolutions[j as int];
            let c = cfg.profiles@[i].resolutions@[j];
            &&& c.dpi is Some ==> r.dpi == c.dpi
            &&& c.dpi is None ==> r.dpi == was.dpi
            &&& c.enabled matches Some(on) ==> r.is_disabled == !on
            &&& c.enabled is None ==> r.is_disabled == was.is_disabled
            &&& r.index == was.index
            &&& r.is_active == was.is_active
            &&& r.is_default == was.is_default
            &&& r.capabilities == was.capabilities
            &&& r.supported_dpi == was.supported_dpi
        }),
{
    lemma_named_profile(current, cfg, i);
    let c = cfg.profiles@[i];
    lemma_slots_each(
        i,
        current.profiles[i as int].resolutions,
        c@.resolutions,
        c@.resolutions.len(),
    );
    let k = lemma_listed(c.resolutions@, j);
    assert(c@.resolutions[k] == (j, c.resolutions@[j]@));
}

// -------------------------------------------------------------------- when it succeeds
/// What the config says of profile `i` can be applied to it: the profile is there with all
/// the parts named, every name, colour and action is one, the slot of the shared DPI is left
/// alone, and the profile is disabled only where the rules allow it.
pub open spec fn can_be_applied(current: SnapshotModel, cfg: Config, i: u32) -> bool {
    let p = current.profiles[i as int];
    let c = cfg.profiles@[i];
    &&& i < current.profiles.len()
    &&& c.enabled == Some(false) && !p.disabled ==> disable_rules(current, cfg.dpi.profiles@, i) is Ok
    &&& c.color matches Some(x) ==> color_of(x@) is Ok
    &&& forall|j: u32| #[trigger]
        c.leds@.contains_key(j) ==> {
            let l = c.leds@[j];
            &&& j < p.leds.len()
            &&& l.mode matches Some(m) ==> led_mode_of(m@) is Ok
            &&& l.color matches Some(x) ==> color_of(x@) is Ok
        }
    &&& forall|j: u32| #[trigger]
        c.buttons@.contains_key(j) ==> j < p.buttons.len() && action_of(
            words(c.buttons@[j].onboard@),
        ) is Ok
    &&& forall|j: u32| #[trigger]
        c.resolutions@.contains_key(j) ==> j < p.resolutions.len() && !(j == cfg.dpi.shared_slot
            && cfg.dpi.profiles@.contains(i))
}

proof fn lemma_can_be_applied(current: SnapshotModel, cfg: Config, i: u32)
    requires
        cfg.profiles@.contains_key(i),
        i < current.profiles.len(),
    ensures
        profile_overlay(current, cfg.dpi@, i, cfg.profiles@[i]@) is Ok <==> can_be_applied(
            current,
            cfg,
            i,
        ),
{
    let p = current.profiles[i as int];
    let c = cfg.profiles@[i];
    let m = c@;
    a_config_is_keyed(cfg);
    let at = lemma_listed(cfg.profiles@, i);
    assert(cfg@.profiles[at] == (i, m));
    let colored = leds_in_color(p.leds, m.color)->Ok_0;
    if profile_overlay(current, cfg.dpi@, i, m) is Ok {
        lemma_leds_each(i, colored, m.leds, m.leds.len());
        lemma_buttons_each(i, p.buttons, m.buttons, m.buttons.len());
        lemma_slots_each(i, p.resolutions, m.resolutions, m.resolutions.len());
        assert forall|j: u32| #[trigger] c.leds@.contains_key(j) implies ({
            let l = c.leds@[j];
            &&& j < p.leds.len()
            &&& l.mode matches Some(x) ==> led_mode_of(x@) is Ok
            &&& l.color matches Some(x) ==> color_of(x@) is Ok
        }) by {
            let k = lemma_listed(c.leds@, j);
            assert(m.leds[k] == (j, c.leds@[j]@));
        }
        assert forall|j: u32| #[trigger] c.buttons@.contains_key(j) implies j < p.buttons.len()
            && action_of(words(c.buttons@[j].onboard@)) is Ok by {
            let k = lemma_listed(c.buttons@, j);
            assert(m.buttons[k] == (j, c.buttons@[j]@));
        }
        assert forall|j: u32| #[trigger] c.resolutions@.contains_key(j) implies j
            < p.resolutions.len() && !(j == cfg.dpi.shared_slot && cfg.dpi.profiles@.contains(i)) by {
            let k = lemma_listed(c.resolutions@, j);
            assert(m.resolutions[k] == (j, c.resolutions@[j]@));
            assert(j == cfg.dpi.shared_slot ==> has_key(m.resolutions, j));
        }
    } else if can_be_applied(current, cfg, i) {
        assert forall|k: int| 0 <= k < m.leds.len() implies (#[trigger] m.leds[k]).0 < colored.len()
            && led_overlay(colored[m.leds[k].0 as int], m.leds[k].1) is Ok by {
            lemma_listed_is_entry(c.leds@, k);
        }
        lemma_leds_succeed(i, colored, m.leds, m.leds.len());
        assert forall|k: int| 0 <= k < m.buttons.len() implies (#[trigger] m.buttons[k]).0
            < p.buttons.len() && button_overlay(p.buttons[m.buttons[k].0 as int], m.buttons[k].1) is Ok by {
            lemma_listed_is_entry(c.buttons@, k);
        }
        lemma_buttons_succeed(i, p.buttons, m.buttons, m.buttons.len());
        assert forall|k: int| 0 <= k < m.resolutions.len() implies (#[trigger] m.resolutions[k]).0
            < p.resolutions.len() && (m.resolutions[k].0 == cfg.dpi.shared_slot
            ==> !cfg.dpi.profiles@.contains(i)) by {
            lemma_listed_is_entry(c.resolutions@, k);
        }
        lemma_slots_succeed(i, p.resolutions, m.resolutions, m.resolutions.len());
        assert(enabled_rules(current, cfg.dpi@.profiles, i, m.enabled) is Ok);
    }
}

proof fn lemma_profiles_succeed(current: SnapshotModel, cfg: ConfigModel, n: nat)
    requires
        n <= cfg.profiles.len(),
    ensures
        profiles_overlay(current, cfg, n) is Ok <==> forall|k: int|
            0 <= k < n ==> (#[trigger] cfg.profiles[k]).0 < current.profiles.len() && profile_overlay(
                current,
                cfg.dpi,
                cfg.profiles[k].0,
                cfg.profiles[k].1,
            ) is Ok,
    decreases n,
{
    if n > 0 {
        lemma_profiles_succeed(current, cfg, (n - 1) as nat);
        let last = cfg.profiles[n - 1];
        if profiles_overlay(current, cfg, n) is Err && profiles_overlay(
            current,
            cfg,
            (n - 1) as nat,
        ) is Ok {
            assert(!(last.0 < current.profiles.len() && profile_overlay(
                current,
                cfg.dpi,
                last.0,
                last.1,
            ) is Ok));
        }
    }
}

/// How many of the profiles are enabled is more than none exactly where one is.
pub proof fn enabled_profiles_are_counted(s: Seq<ProfileModel>, n: nat)
    requires
        n <= s.len(),
    ensures
        enabled_count(s, n) > 0 <==> exists|i: int| 0 <= i < n && !(#[trigger] s[i]).disabled,
        enabled_count(s, n) > 1 <==> exists|i: int, j: int|
            0 <= i < j < n && !(#[trigger] s[i]).disabled && !(#[trigger] s[j]).disabled,
        enabled_count(s, n) <= n,
    decreases n,
{
    if n > 0 {
        enabled_profiles_are_counted(s, (n - 1) as nat);
        if enabled_count(s, n) > 1 {
            if s[n - 1].disabled {
            } else {
                let i = choose|i: int| 0 <= i < n - 1 && !(#[trigger] s[i]).disabled;
                assert(!s[i].disabled && !s[n - 1].disabled);
            }
        }
        if exists|i: int, j: int|
            0 <= i < j < n && !(#[trigger] s[i]).disabled && !(#[trigger] s[j]).disabled {
            let (i, j) = choose|i: int, j: int|
                0 <= i < j < n && !(#[trigger] s[i]).disabled && !(#[trigger] s[j]).disabled;
            assert(!s[i].disabled && i < n - 1);
        }
        if enabled_count(s, n) > 0 && s[n - 1].disabled {
            let i = choose|i: int| 0 <= i < n - 1 && !(#[trigger] s[i]).disabled;
            assert(!s[i].disabled);
        }
    }
}

/// A profile may be disabled exactly where it is there, g502d does not sync it, it is not the
/// active one, and another is enabled unless it is disabled already.
pub proof fn disabling_needs_another_enabled_profile(
    s: SnapshotModel,
    dpi_profiles: Seq<u32>,
    profile: u32,
)
    ensures
        disable_rules(s, dpi_profiles, profile) is Ok <==> {
            &&& profile < s.profiles.len()
            &&& !dpi_profiles.contains(profile)
            &&& !s.profiles[profile as int].is_active
            &&& s.profiles[profile as int].disabled || exists|i: int|
                0 <= i < s.profiles.len() && i != profile && !(#[trigger] s.profiles[i]).disabled
        },
{
    let n = s.profiles.len();
    enabled_profiles_are_counted(s.profiles, n);
    if profile < n && !s.profiles[profile as int].disabled {
        let a = profile as int;
        if enabled_count(s.profiles, n) > 1 {
            let (i, j) = choose|i: int, j: int|
                0 <= i < j < n && !(#[trigger] s.profiles[i]).disabled && !(
                #[trigger] s.profiles[j]).disabled;
            assert(i != a || j != a);
            assert(!s.profiles[i].disabled && !s.profiles[j].disabled);
        } else if exists|i: int| 0 <= i < n && i != a && !(#[trigger] s.profiles[i]).disabled {
            let i = choose|i: int| 0 <= i < n && i != a && !(#[trigger] s.profiles[i]).disabled;
            if i < a {
                assert(!s.profiles[i].disabled && !s.profiles[a].disabled);
            } else {
                assert(!s.profiles[a].disabled && !s.profiles[i].disabled);
            }
        }
    }
}

/// A config can be applied exactly where what it says of each profile can be, and, if a
/// profile was enabled, one is left so.
pub proof fn an_overlay_succeeds_exactly_where_it_can(current: SnapshotModel, cfg: Config)
    requires
        current.profiles.len() <= u32::MAX,
    ensures
        overlay_of(current, cfg@) is Ok <==> {
            &&& forall|i: u32| #[trigger]
                cfg.profiles@.contains_key(i) ==> can_be_applied(current, cfg, i)
            &&& (exists|i: int|
                0 <= i < current.profiles.len() && !(#[trigger] current.profiles[i]).disabled)
                ==> exists|i: int|
                0 <= i < current.profiles.len() && (if cfg.profiles@.contains_key(i as u32)
                    && cfg.profiles@[i as u32].enabled is Some {
                    cfg.profiles@[i as u32].enabled->0
                } else {
                    !(#[trigger] current.profiles[i]).disabled
                })
        },
{
    let n = cfg@.profiles.len();
    lemma_profiles_succeed(current, cfg@, n);
    if profiles_overlay(current, cfg@, n) is Ok {
        assert forall|i: u32| #[trigger] cfg.profiles@.contains_key(i) implies can_be_applied(
            current,
            cfg,
            i,
        ) by {
            let k = lemma_listed(cfg.profiles@, i);
            assert(cfg@.profiles[k] == (i, cfg.profiles@[i]@));
            lemma_can_be_applied(current, cfg, i);
        }
        let t = profiles_overlay(current, cfg@, n)->Ok_0;
        enabled_profiles_are_counted(current.profiles, current.profiles.len());
        a_config_is_keyed(cfg);
        lemma_profiles_each(current, cfg@, n);
        assert forall|i: int| 0 <= i < current.profiles.len() implies (
        #[trigger] t.profiles[i]).disabled == !(if cfg.profiles@.contains_key(i as u32)
            && cfg.profiles@[i as u32].enabled is Some {
            cfg.profiles@[i as u32].enabled->0
        } else {
            !current.profiles[i].disabled
        }) by {
            if cfg.profiles@.contains_key(i as u32) {
                let k = lemma_listed(cfg.profiles@, i as u32);
                assert(cfg@.profiles[k] == (i as u32, cfg.profiles@[i as u32]@));
            } else {
                lemma_profiles_from(current, cfg@, n, i);
                assert forall|k: int| 0 <= k < n implies (#[trigger] cfg@.profiles[k]).0 != i by {
                    lemma_listed_is_entry(cfg.profiles@, k);
                }
            }
        }
        enabled_profiles_are_counted(t.profiles, t.profiles.len());
        if has_enabled(t) {
            let i = choose|i: int| 0 <= i < t.profiles.len() && !(#[trigger] t.profiles[i]).disabled;
            assert(0 <= i < current.profiles.len());
            let c = current.profiles[i];
        } else {
            assert forall|i: int| 0 <= i < current.profiles.len() implies !(if cfg.profiles@.contains_key(
                i as u32,
            ) && cfg.profiles@[i as u32].enabled is Some {
                cfg.profiles@[i as u32].enabled->0
            } else {
                !(#[trigger] current.profiles[i]).disabled
            }) by {
                assert(t.profiles[i].disabled);
            }
        }
    } else if forall|i: u32| #[trigger]
        cfg.profiles@.contains_key(i) ==> can_be_applied(current, cfg, i) {
        assert forall|k: int| 0 <= k < n implies (#[trigger] cfg@.profiles[k]).0
            < current.profiles.len() && profile_overlay(
            current,
            cfg@.dpi,
            cfg@.profiles[k].0,
            cfg@.profiles[k].1,
        ) is Ok by {
            lemma_listed_is_entry(cfg.profiles@, k);
            assert(can_be_applied(current, cfg, cfg@.profiles[k].0));
            lemma_can_be_applied(current, cfg, cfg@.profiles[k].0);
        }
    }
}

// ------------------------------------------------------------------------ one setting
/// `t` is `s` but for its profile `i`, and that keeps what no edit changes.
pub open spec fn edits_only_profile(s: SnapshotModel, t: SnapshotModel, i: u32) -> bool {
    &&& t.name == s.name
    &&& t.model == s.model
    &&& t.profiles.len() == s.profiles.len()
    &&& i < s.profiles.len()
    &&& forall|k: int| 0 <= k < s.profiles.len() && k != i ==> #[trigger] t.profiles[k] == s.profiles[k]
    &&& t.profiles[i as int].index == s.profiles[i as int].index
    &&& t.profiles[i as int].is_active == s.profiles[i as int].is_active
    &&& t.profiles[i as int].report_rates == s.profiles[i as int].report_rates
    &&& t.profiles[i as int].capabilities == s.profiles[i as int].capabilities
}

/// Setting a button gives it what the action stands for, and changes nothing else.
pub proof fn setting_a_button_sets_only_it(
    s: SnapshotModel,
    profile: u32,
    button: u32,
    action: Seq<Seq<char>>,
)
    ensures
        button_edit(s, profile, button, action) is Ok <==> action_of(action) is Ok && profile
            < s.profiles.len() && button < s.profiles[profile as int].buttons.len(),
        button_edit(s, profile, button, action) matches Ok(t) ==> {
            let p = s.profiles[profile as int];
            let q = t.profiles[profile as int];
            let b = q.buttons[button as int];
            &&& edits_only_profile(s, t, profile)
            &&& q.disabled == p.disabled
            &&& q.report_rate == p.report_rate
            &&& q.leds == p.leds
            &&& q.resolutions == p.resolutions
            &&& q.buttons.len() == p.buttons.len()
            &&& forall|k: int|
                0 <= k < p.buttons.len() && k != button ==> #[trigger] q.buttons[k] == p.buttons[k]
            &&& (b.raw_type, b.raw_value) == action_of(action)->Ok_0
            &&& b.action == description(b.raw_type, b.raw_value)
            &&& b.index == p.buttons[button as int].index
            &&& b.action_types == p.buttons[button as int].action_types
        },
{
}

/// Setting an LED gives it what is given, leaves it what is not, and changes nothing else.
pub proof fn setting_an_led_sets_only_it(
    s: SnapshotModel,
    profile: u32,
    led: u32,
    mode: Option<u32>,
    color: Option<Seq<char>>,
    brightness: Option<u32>,
)
    ensures
        led_edit(s, profile, led, mode, color, brightness) is Ok <==> {
            &&& profile < s.profiles.len()
            &&& led < s.profiles[profile as int].leds.len()
            &&& color matches Some(c) ==> color_of(c) is Ok
            &&& brightness matches Some(b) ==> b <= 255
        },
        led_edit(s, profile, led, mode, color, brightness) matches Ok(t) ==> {
            let p = s.profiles[profile as int];
            let q = t.profiles[profile as int];
            let was = p.leds[led as int];
            let l = q.leds[led as int];
            &&& edits_only_profile(s, t, profile)
            &&& q.disabled == p.disabled
            &&& q.report_rate == p.report_rate
            &&& q.buttons == p.buttons
            &&& q.resolutions == p.resolutions
            &&& q.leds.len() == p.leds.len()
            &&& forall|k: int| 0 <= k < p.leds.len() && k != led ==> #[trigger] q.leds[k] == p.leds[k]
            &&& l.mode == (if mode is Some {
                mode->0
            } else {
                was.mode
            })
            &&& color matches Some(c) ==> l.color == color_text(color_of(c)->Ok_0) && color_of(l.color)
                == color_of(c)
            &&& color is None ==> l.color == was.color
            &&& l.brightness == (if brightness is Some {
                brightness->0
            } else {
                was.brightness
            })
            &&& l.index == was.index
            &&& l.modes == was.modes
            &&& l.color_depth == was.color_depth
        },
{
    if color is Some && color_of(color->0) is Ok {
        normal_color_is_the_same_color(color->0);
    }
}

/// Setting a report rate sets that alone.
pub proof fn setting_a_report_rate_sets_only_it(s: SnapshotModel, profile: u32, hz: u32)
    ensures
        rate_edit(s, profile, hz) is Ok <==> profile < s.profiles.len(),
        rate_edit(s, profile, hz) matches Ok(t) ==> {
            let p = s.profiles[profile as int];
            let q = t.profiles[profile as int];
            &&& edits_only_profile(s, t, profile)
            &&& q.report_rate == hz
            &&& q.disabled == p.disabled
            &&& q.buttons == p.buttons
            &&& q.leds == p.leds
            &&& q.resolutions == p.resolutions
        },
{
}

/// Enabling or disabling a profile sets that alone. A profile that is enabled is disabled only
/// where g502d does not sync it, it is not the active one, and another is enabled.
pub proof fn disabling_a_profile_sets_only_it(
    s: SnapshotModel,
    dpi_profiles: Seq<u32>,
    profile: u32,
    disabled: bool,
)
    ensures
        disabled_edit(s, dpi_profiles, profile, disabled) is Ok <==> {
            &&& profile < s.profiles.len()
            &&& disabled && !s.profiles[profile as int].disabled ==> {
                &&& !dpi_profiles.contains(profile)
                &&& !s.profiles[profile as int].is_active
                &&& exists|i: int|
                    0 <= i < s.profiles.len() && i != profile && !(#[trigger] s.profiles[i]).disabled
            }
        },
        disabled_edit(s, dpi_profiles, profile, disabled) matches Ok(t) ==> {
            let p = s.profiles[profile as int];
            let q = t.profiles[profile as int];
            &&& edits_only_profile(s, t, profile)
            &&& q.disabled == disabled
            &&& q.report_rate == p.report_rate
            &&& q.buttons == p.buttons
            &&& q.leds == p.leds
            &&& q.resolutions == p.resolutions
        },
{
    disabling_needs_another_enabled_profile(s, dpi_profiles, profile);
}

/// Setting a slot gives it what is given, leaves it what is not, and changes nothing else. The
/// slot that holds the shared DPI of a synced profile cannot be set.
pub proof fn setting_a_slot_sets_only_it(
    s: SnapshotModel,
    cfg: ConfigModel,
    profile: u32,
    slot: u32,
    dpi: Option<u32>,
    enabled: Option<bool>,
)
    ensures
        slot_edit(s, cfg, profile, slot, dpi, enabled) is Ok <==> {
            &&& profile < s.profiles.len()
            &&& slot < s.profiles[profile as int].resolutions.len()
            &&& !(slot == cfg.dpi.shared_slot && cfg.dpi.profiles.contains(profile))
        },
        slot_edit(s, cfg, profile, slot, dpi, enabled) matches Ok(t) ==> {
            let p = s.profiles[profile as int];
            let q = t.profiles[profile as int];
            let was = p.resolutions[slot as int];
            let r = q.resolutions[slot as int];
            &&& edits_only_profile(s, t, profile)
            &&& q.disabled == p.disabled
            &&& q.report_rate == p.report_rate
            &&& q.buttons == p.buttons
            &&& q.leds == p.leds
            &&& q.resolutions.len() == p.resolutions.len()
            &&& forall|k: int|
                0 <= k < p.resolutions.len() && k != slot ==> #[trigger] q.resolutions[k]
                    == p.resolutions[k]
            &&& r.dpi == (if dpi is Some {
                dpi
            } else {
                was.dpi
            })
            &&& r.is_disabled == (if enabled is Some {
                !enabled->0
            } else {
                was.is_disabled
            })
            &&& r.index == was.index
            &&& r.is_active == was.is_active
            &&& r.is_default == was.is_default
            &&& r.capabilities == was.capabilities
            &&& r.supported_dpi == was.supported_dpi
        },
{
}

// ------------------------------------------------------------------------ refusals
proof fn lemma_first_entry_in_the_way(current: SnapshotModel, cfg: ConfigModel, n: nat)
    requires
        n <= cfg.profiles.len(),
        profiles_overlay(current, cfg, n) is Err,
    ensures
        exists|k: int|
            0 <= k < n && ((#[trigger] cfg.profiles[k]).0 >= current.profiles.len() || profile_overlay(
                current,
                cfg.dpi,
                cfg.profiles[k].0,
                cfg.profiles[k].1,
            ) == Err::<ProfileModel, Failure>(profiles_overlay(current, cfg, n)->Err_0))
                && profiles_overlay(current, cfg, k as nat) is Ok,
    decreases n,
{
    if n > 0 {
        if profiles_overlay(current, cfg, (n - 1) as nat) is Err {
            lemma_first_entry_in_the_way(current, cfg, (n - 1) as nat);
            let e = profiles_overlay(current, cfg, n)->Err_0;
            let k = choose|k: int|
                0 <= k < n - 1 && ((#[trigger] cfg.profiles[k]).0 >= current.profiles.len()
                    || profile_overlay(current, cfg.dpi, cfg.profiles[k].0, cfg.profiles[k].1)
                    == Err::<ProfileModel, Failure>(e)) && profiles_overlay(current, cfg, k as nat) is Ok;
            assert(cfg.profiles[k] == cfg.profiles[k]);
        } else {
            assert(cfg.profiles[n - 1] == cfg.profiles[n - 1]);
        }
    }
}

/// A config that is refused is refused for the first of its entries, by profile number, that
/// cannot be applied: one for a profile that the device lacks, or one whose own overlay fails
/// for that reason; or else because it would leave no profile enabled.
pub proof fn the_first_entry_in_the_way_is_reported(current: SnapshotModel, cfg: ConfigModel)
    requires
        overlay_of(current, cfg) is Err,
    ensures
        (exists|k: int|
            0 <= k < cfg.profiles.len() && ((#[trigger] cfg.profiles[k]).0 >= current.profiles.len()
                || profile_overlay(current, cfg.dpi, cfg.profiles[k].0, cfg.profiles[k].1) == Err::<
                ProfileModel,
                Failure,
            >(overlay_of(current, cfg)->Err_0)) && forall|j: int|
                0 <= j < k ==> (#[trigger] cfg.profiles[j]).0 < current.profiles.len()
                    && profile_overlay(current, cfg.dpi, cfg.profiles[j].0, cfg.profiles[j].1) is Ok)
            || (profiles_overlay(current, cfg, cfg.profiles.len()) is Ok && has_enabled(current)
            && !has_enabled(profiles_overlay(current, cfg, cfg.profiles.len())->Ok_0)),
{
    let n = cfg.profiles.len();
    if profiles_overlay(current, cfg, n) is Err {
        lemma_first_entry_in_the_way(current, cfg, n);
        let e = overlay_of(current, cfg)->Err_0;
        let k = choose|k: int|
            0 <= k < n && ((#[trigger] cfg.profiles[k]).0 >= current.profiles.len() || profile_overlay(
                current,
                cfg.dpi,
                cfg.profiles[k].0,
                cfg.profiles[k].1,
            ) == Err::<ProfileModel, Failure>(e)) && profiles_overlay(current, cfg, k as nat) is Ok;
        lemma_profiles_succeed(current, cfg, k as nat);
        assert(cfg.profiles[k] == cfg.profiles[k]);
    }
}

} // verus!
