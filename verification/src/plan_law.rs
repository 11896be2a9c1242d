//! What a plan is for, in the settings themselves: when there is one, when it is empty,
//! what its changes are, and what the device has once they are carried out.

use crate::action::description;
use crate::config::color_of;
use crate::error::Failure;
use crate::ratbag::{ProfileModel, RawModel, SnapshotModel};
use crate::restore::{
    after, button_part, button_parts, disabled_part, dpi_part, gather, led_part, led_parts, nothing, plan_of,
    profile_part, profile_parts, rate_part, same_shape, slot_disabled_part, slot_part, slot_parts, ChangeModel, Part,
    PlannedModel,
};
use crate::settle::{
    agrees, button_agrees, carried_out, is_indexed, is_numbered, led_agrees, plan_is_empty_exactly_on_agreement,
    profile_agrees, profile_of, settled, settled_button, settled_led, settled_profile, settled_slot, slot_agrees,
    spells_colors, writing_a_plan_settles_it, carrying_out_a_plan_settles_it, Spelling,
};
use crate::text::{dec, join};
use vstd::prelude::*;

verus! {

// ------------------------------------------------------------------------- nothing
/// A plan is empty exactly where the device is of the target's model and shape and has
/// every restored setting as the target has it: whether each profile is disabled, its report
/// rate, the DPI of each slot as far as the target knows it and whether the slot is disabled,
/// the type of each button's action and, unless that is none, its very value, and the mode,
/// colour and brightness of each LED.
pub proof fn an_empty_plan_means_the_targets_settings(c: SnapshotModel, t: SnapshotModel)
    ensures
        plan_of(c, t) == Ok::<Seq<PlannedModel>, Failure>(Seq::empty()) <==> {
            &&& c.model == t.model
            &&& c.profiles.len() == t.profiles.len()
            &&& forall|i: int|
                0 <= i < c.profiles.len() ==> (#[trigger] c.profiles[i]).index == t.profiles[i].index
                    && c.profiles[i].disabled == t.profiles[i].disabled && c.profiles[i].report_rate
                    == t.profiles[i].report_rate && c.profiles[i].resolutions.len()
                    == t.profiles[i].resolutions.len() && c.profiles[i].buttons.len()
                    == t.profiles[i].buttons.len() && c.profiles[i].leds.len()
                    == t.profiles[i].leds.len()
            &&& forall|i: int, j: int|
                0 <= i < c.profiles.len() && 0 <= j < c.profiles[i].resolutions.len() ==> (
                t.profiles[i].resolutions[j].dpi is Some ==> (
                #[trigger] c.profiles[i].resolutions[j]).dpi == t.profiles[i].resolutions[j].dpi)
                    && c.profiles[i].resolutions[j].is_disabled
                    == t.profiles[i].resolutions[j].is_disabled
            &&& forall|i: int, j: int|
                0 <= i < c.profiles.len() && 0 <= j < c.profiles[i].buttons.len() ==> (
                #[trigger] c.profiles[i].buttons[j]).raw_type == t.profiles[i].buttons[j].raw_type
                    && (t.profiles[i].buttons[j].raw_type != 0 ==> c.profiles[i].buttons[j].raw_value
                    == t.profiles[i].buttons[j].raw_value)
            &&& forall|i: int, j: int|
                0 <= i < c.profiles.len() && 0 <= j < c.profiles[i].leds.len() ==> (
                #[trigger] c.profiles[i].leds[j]).mode == t.profiles[i].leds[j].mode
                    && c.profiles[i].leds[j].color == t.profiles[i].leds[j].color
                    && c.profiles[i].leds[j].brightness == t.profiles[i].leds[j].brightness
        },
{
    plan_is_empty_exactly_on_agreement(c, t);
    if agrees(c, t) {
        assert forall|i: int| 0 <= i < c.profiles.len() implies profile_agrees(
            #[trigger] c.profiles[i],
            t.profiles[i],
        ) by {}
        assert forall|i: int, j: int|
            0 <= i < c.profiles.len() && 0 <= j < c.profiles[i].resolutions.len() implies slot_agrees(
            #[trigger] c.profiles[i].resolutions[j],
            t.profiles[i].resolutions[j],
        ) by {
            assert(profile_agrees(c.profiles[i], t.profiles[i]));
        }
        assert forall|i: int, j: int|
            0 <= i < c.profiles.len() && 0 <= j < c.profiles[i].buttons.len() implies button_agrees(
            #[trigger] c.profiles[i].buttons[j],
            t.profiles[i].buttons[j],
        ) by {
            assert(profile_agrees(c.profiles[i], t.profiles[i]));
        }
        assert forall|i: int, j: int|
            0 <= i < c.profiles.len() && 0 <= j < c.profiles[i].leds.len() implies led_agrees(
            #[trigger] c.profiles[i].leds[j],
            t.profiles[i].leds[j],
        ) by {
            assert(profile_agrees(c.profiles[i], t.profiles[i]));
        }
    } else if c.model == t.model && c.profiles.len() == t.profiles.len() {
        let i = choose|i: int|
            0 <= i < c.profiles.len() && !#[trigger] profile_agrees(c.profiles[i], t.profiles[i]);
        let p = c.profiles[i];
        let q = t.profiles[i];
        assert(c.profiles[i].index == p.index);
        assert(forall|j: int|
            0 <= j < p.resolutions.len() ==> #[trigger] p.resolutions[j]
                == c.profiles[i].resolutions[j]);
        assert(forall|j: int|
            0 <= j < p.buttons.len() ==> #[trigger] p.buttons[j] == c.profiles[i].buttons[j]);
        assert(forall|j: int|
            0 <= j < p.leds.len() ==> #[trigger] p.leds[j] == c.profiles[i].leds[j]);
    }
}

// ------------------------------------------------------------------------- support
/// A profile of the device can be given the settings of `t`: both have the same parts, and
/// what differs is something that the device says it supports.
pub open spec fn can_become(c: ProfileModel, t: ProfileModel) -> bool {
    &&& c.index == t.index
    &&& c.resolutions.len() == t.resolutions.len()
    &&& c.buttons.len() == t.buttons.len()
    &&& c.leds.len() == t.leds.len()
    &&& c.report_rate == t.report_rate || c.report_rates.contains(t.report_rate)
    &&& forall|j: int|
        0 <= j < c.resolutions.len() ==> t.resolutions[j].dpi is None || (
        #[trigger] c.resolutions[j]).dpi == t.resolutions[j].dpi
            || c.resolutions[j].supported_dpi.contains(t.resolutions[j].dpi->0)
    &&& forall|j: int|
        0 <= j < c.buttons.len() ==> {
            let b = #[trigger] c.buttons[j];
            let want = t.buttons[j];
            ||| b.raw_type == want.raw_type && (want.raw_type == 0 || b.raw_value == want.raw_value)
            ||| b.action_types.contains(want.raw_type) && (match want.raw_value {
                Some(RawModel::Number(_)) => want.raw_type <= 3,
                Some(RawModel::MacroEvents(_)) => want.raw_type == 4 || want.raw_type == 0,
                None => want.raw_type == 0,
            })
        }
    &&& forall|j: int|
        0 <= j < c.leds.len() ==> {
            let l = #[trigger] c.leds[j];
            let want = t.leds[j];
            (l.mode == want.mode || l.modes.contains(want.mode)) && (l.color == want.color
                || color_of(want.color) is Ok)
        }
}

proof fn lemma_gather_is_ok(parts: Seq<Part>)
    ensures
        gather(parts) is Ok <==> forall|i: int| 0 <= i < parts.len() ==> #[trigger] parts[i] is Ok,
    decreases parts.len(),
{
    if parts.len() > 0 {
        let init = parts.drop_last();
        lemma_gather_is_ok(init);
        if gather(parts) is Ok {
            assert forall|i: int| 0 <= i < parts.len() implies #[trigger] parts[i] is Ok by {
                if i < init.len() {
                    assert(init[i] is Ok);
                }
            }
        } else if forall|i: int| 0 <= i < parts.len() ==> #[trigger] parts[i] is Ok {
            assert forall|i: int| 0 <= i < init.len() implies #[trigger] init[i] is Ok by {
                assert(parts[i] is Ok);
            }
            assert(parts[parts.len() - 1] is Ok);
        }
    }
}

proof fn lemma_profile_is_ok(c: ProfileModel, t: ProfileModel)
    ensures
        profile_part(c, t) is Ok <==> can_become(c, t),
{
    let p = c.index;
    if t.index == p && same_shape(c, t) {
        let slots = slot_parts(p, c.resolutions, t.resolutions);
        let buttons = button_parts(p, c.buttons, t.buttons);
        let leds = led_parts(p, c.leds, t.leds);
        lemma_gather_is_ok(slots);
        lemma_gather_is_ok(buttons);
        lemma_gather_is_ok(leds);
        assert forall|j: int| 0 <= j < slots.len() implies ((#[trigger] slots[j]) is Ok <==> (
        t.resolutions[j].dpi is None || c.resolutions[j].dpi == t.resolutions[j].dpi
            || c.resolutions[j].supported_dpi.contains(t.resolutions[j].dpi->0))) by {
            assert(slots[j] == slot_part(p, c.resolutions[j], t.resolutions[j]));
        }
        assert forall|j: int| 0 <= j < buttons.len() implies ((#[trigger] buttons[j]) is Ok <==> ({
            let b = c.buttons[j];
            let want = t.buttons[j];
            ||| b.raw_type == want.raw_type && (want.raw_type == 0 || b.raw_value == want.raw_value)
            ||| b.action_types.contains(want.raw_type) && (match want.raw_value {
                Some(RawModel::Number(_)) => want.raw_type <= 3,
                Some(RawModel::MacroEvents(_)) => want.raw_type == 4 || want.raw_type == 0,
                None => want.raw_type == 0,
            })
        })) by {
            assert(buttons[j] == button_part(p, c.buttons[j], t.buttons[j]));
        }
        assert forall|j: int| 0 <= j < leds.len() implies ((#[trigger] leds[j]) is Ok <==> ({
            let l = c.leds[j];
            let want = t.leds[j];
            (l.mode == want.mode || l.modes.contains(want.mode)) && (l.color == want.color
                || color_of(want.color) is Ok)
        })) by {
            assert(leds[j] == led_part(p, c.leds[j], t.leds[j]));
        }
        if profile_part(c, t) is Ok {
            assert(gather(slots) is Ok && gather(buttons) is Ok && gather(leds) is Ok);
            assert forall|j: int| 0 <= j < c.resolutions.len() implies t.resolutions[j].dpi is None || (
            #[trigger] c.resolutions[j]).dpi == t.resolutions[j].dpi
                || c.resolutions[j].supported_dpi.contains(t.resolutions[j].dpi->0) by {
                assert(slots[j] is Ok);
            }
            assert forall|j: int| 0 <= j < c.buttons.len() implies ({
                let b = #[trigger] c.buttons[j];
                let want = t.buttons[j];
                ||| b.raw_type == want.raw_type && (want.raw_type == 0 || b.raw_value
                    == want.raw_value)
                ||| b.action_types.contains(want.raw_type) && (match want.raw_value {
                    Some(RawModel::Number(_)) => want.raw_type <= 3,
                    Some(RawModel::MacroEvents(_)) => want.raw_type == 4 || want.raw_type == 0,
                    None => want.raw_type == 0,
                })
            }) by {
                assert(buttons[j] is Ok);
            }
            assert forall|j: int| 0 <= j < c.leds.len() implies ({
                let l = #[trigger] c.leds[j];
                let want = t.leds[j];
                (l.mode == want.mode || l.modes.contains(want.mode)) && (l.color == want.color
                    || color_of(want.color) is Ok)
            }) by {
                assert(leds[j] is Ok);
            }
        }
        if can_become(c, t) {
            assert forall|j: int| 0 <= j < slots.len() implies #[trigger] slots[j] is Ok by {
                assert(c.resolutions[j] == c.resolutions[j]);
            }
            assert forall|j: int| 0 <= j < buttons.len() implies #[trigger] buttons[j] is Ok by {
                assert(c.buttons[j] == c.buttons[j]);
            }
            assert forall|j: int| 0 <= j < leds.len() implies #[trigger] leds[j] is Ok by {
                assert(c.leds[j] == c.leds[j]);
            }
        }
    }
}

/// There is a plan exactly where the target is of the device's model, has as many profiles,
/// and every profile of the device can be given the settings of the target's.
pub proof fn there_is_a_plan_exactly_for_what_is_supported(c: SnapshotModel, t: SnapshotModel)
    ensures
        plan_of(c, t) is Ok <==> {
            &&& c.model == t.model
            &&& c.profiles.len() == t.profiles.len()
            &&& forall|i: int|
                0 <= i < c.profiles.len() ==> can_become(#[trigger] c.profiles[i], t.profiles[i])
        },
{
    if c.model == t.model && c.profiles.len() == t.profiles.len() {
        let parts = profile_parts(c.profiles, t.profiles);
        lemma_gather_is_ok(parts);
        assert forall|i: int| 0 <= i < parts.len() implies ((#[trigger] parts[i]) is Ok <==> can_become(
            c.profiles[i],
            t.profiles[i],
        )) by {
            lemma_profile_is_ok(c.profiles[i], t.profiles[i]);
        }
        if plan_of(c, t) is Ok {
            assert forall|i: int| 0 <= i < c.profiles.len() implies can_become(
                #[trigger] c.profiles[i],
                t.profiles[i],
            ) by {
                assert(parts[i] is Ok);
            }
        } else if forall|i: int|
            0 <= i < c.profiles.len() ==> can_become(#[trigger] c.profiles[i], t.profiles[i]) {
            assert forall|i: int| 0 <= i < parts.len() implies #[trigger] parts[i] is Ok by {
                assert(can_become(c.profiles[i], t.profiles[i]));
            }
        }
    }
}

// --------------------------------------------------------------------- differences
/// The change gives a setting of `c` the value that it has in `t`, where that is another.
pub open spec fn is_difference(c: ProfileModel, t: ProfileModel, change: ChangeModel) -> bool {
    match change {
        ChangeModel::ProfileDisabled { profile, to } => profile == c.index && to == t.disabled && to
            != c.disabled,
        ChangeModel::ReportRate { profile, to } => profile == c.index && to == t.report_rate && to
            != c.report_rate,
        ChangeModel::Dpi { profile, slot, to } => profile == c.index && slot < c.resolutions.len()
            && t.resolutions[slot as int].dpi == Some(to) && c.resolutions[slot as int].dpi != Some(to),
        ChangeModel::SlotDisabled { profile, slot, to } => profile == c.index && slot
            < c.resolutions.len() && to == t.resolutions[slot as int].is_disabled && to
            != c.resolutions[slot as int].is_disabled,
        ChangeModel::Button { profile, button, kind, value } => profile == c.index && button
            < c.buttons.len() && kind == t.buttons[button as int].raw_type && value
            == t.buttons[button as int].raw_value && (kind != c.buttons[button as int].raw_type || value
            != c.buttons[button as int].raw_value),
        ChangeModel::Led { profile, led, mode, color, brightness } => {
            &&& profile == c.index
            &&& led < c.leds.len()
            &&& mode is Some || color is Some || brightness is Some
            &&& mode matches Some(m) ==> m == t.leds[led as int].mode && m != c.leds[led as int].mode
            &&& color matches Some(x) ==> x == t.leds[led as int].color && x
                != c.leds[led as int].color
            &&& brightness matches Some(b) ==> b == t.leds[led as int].brightness && b
                != c.leds[led as int].brightness
        },
    }
}

/// The summary of a change names the part, the value that the device has and the one that the
/// target has.
pub open spec fn tells_difference(c: ProfileModel, t: ProfileModel, planned: PlannedModel) -> bool {
    let at = "profile "@ + dec(c.index as nat);
    match planned.change {
        ChangeModel::ProfileDisabled { .. } => planned.summary == at + (if t.disabled {
            ": enabled -> disabled"@
        } else {
            ": disabled -> enabled"@
        }),
        ChangeModel::ReportRate { .. } => planned.summary == at + ": report rate "@ + dec(
            c.report_rate as nat,
        ) + " -> "@ + dec(t.report_rate as nat) + " Hz"@,
        ChangeModel::Dpi { slot, .. } => planned.summary == at + " resolution "@ + dec(slot as nat)
            + ": "@ + (match c.resolutions[slot as int].dpi {
            Some(d) => dec(d as nat),
            None => "?"@,
        }) + " -> "@ + dec(t.resolutions[slot as int].dpi->0 as nat) + " DPI"@,
        ChangeModel::SlotDisabled { slot, .. } => planned.summary == at + " resolution "@ + dec(
            slot as nat,
        ) + (if t.resolutions[slot as int].is_disabled {
            ": disabled false -> true"@
        } else {
            ": disabled true -> false"@
        }),
        ChangeModel::Button { button, .. } => planned.summary == at + " button "@ + dec(button as nat)
            + ": "@ + c.buttons[button as int].action + " -> "@ + t.buttons[button as int].action,
        ChangeModel::Led { led, mode, color, brightness, .. } => {
            let l = c.leds[led as int];
            let want = t.leds[led as int];
            let m = if mode is Some {
                seq!["mode "@ + dec(l.mode as nat) + " -> "@ + dec(want.mode as nat)]
            } else {
                Seq::empty()
            };
            let x = if color is Some {
                seq!["color "@ + l.color + " -> "@ + want.color]
            } else {
                Seq::empty()
            };
            let b = if brightness is Some {
                seq!["brightness "@ + dec(l.brightness as nat) + " -> "@ + dec(want.brightness as nat)]
            } else {
                Seq::empty()
            };
            planned.summary == at + " LED "@ + dec(led as nat) + ": "@ + join(m + x + b, ", "@)
        },
    }
}

spec fn all_differences(c: ProfileModel, t: ProfileModel, part: Part) -> bool {
    part matches Ok(v) ==> forall|k: int|
        0 <= k < v.len() ==> is_difference(c, t, (#[trigger] v[k]).change) && tells_difference(
            c,
            t,
            v[k],
        )
}

proof fn lemma_words_both()
    ensures
        ": enabled -> disabled"@ == ": "@ + "enabled"@ + " -> "@ + "disabled"@,
        ": disabled -> enabled"@ == ": "@ + "disabled"@ + " -> "@ + "enabled"@,
        ": disabled false -> true"@ == ": disabled "@ + "false"@ + " -> "@ + "true"@,
        ": disabled true -> false"@ == ": disabled "@ + "true"@ + " -> "@ + "false"@,
{
    reveal_strlit(": enabled -> disabled");
    reveal_strlit(": disabled -> enabled");
    reveal_strlit(": disabled false -> true");
    reveal_strlit(": disabled true -> false");
    reveal_strlit(": ");
    reveal_strlit(" -> ");
    reveal_strlit("enabled");
    reveal_strlit("disabled");
    reveal_strlit(": disabled ");
    reveal_strlit("true");
    reveal_strlit("false");
    assert(": enabled -> disabled"@ =~= ": "@ + "enabled"@ + " -> "@ + "disabled"@);
    assert(": disabled -> enabled"@ =~= ": "@ + "disabled"@ + " -> "@ + "enabled"@);
    assert(": disabled false -> true"@ =~= ": disabled "@ + "false"@ + " -> "@ + "true"@);
    assert(": disabled true -> false"@ =~= ": disabled "@ + "true"@ + " -> "@ + "false"@);
}

proof fn lemma_disabled_told(c: ProfileModel, t: ProfileModel)
    ensures
        all_differences(c, t, disabled_part(c, t)),
{
    lemma_words_both();
    let at = "profile "@ + dec(c.index as nat);
    assert(at + (": "@ + "enabled"@ + " -> "@ + "disabled"@) =~= at + ": "@ + "enabled"@ + " -> "@
        + "disabled"@);
    assert(at + (": "@ + "disabled"@ + " -> "@ + "enabled"@) =~= at + ": "@ + "disabled"@ + " -> "@
        + "enabled"@);
}

proof fn lemma_slot_disabled_told(c: ProfileModel, t: ProfileModel, i: int)
    requires
        0 <= i < c.resolutions.len(),
        c.resolutions[i].index == i,
    ensures
        all_differences(c, t, slot_disabled_part(c.index, c.resolutions[i], t.resolutions[i])),
{
    lemma_words_both();
    let at = "profile "@ + dec(c.index as nat) + " resolution "@ + dec(c.resolutions[i].index as nat);
    assert(at + (": disabled "@ + "false"@ + " -> "@ + "true"@) =~= at + ": disabled "@ + "false"@
        + " -> "@ + "true"@);
    assert(at + (": disabled "@ + "true"@ + " -> "@ + "false"@) =~= at + ": disabled "@ + "true"@
        + " -> "@ + "false"@);
}

proof fn lemma_gather_differences(c: ProfileModel, t: ProfileModel, parts: Seq<Part>)
    requires
        forall|i: int| 0 <= i < parts.len() ==> all_differences(c, t, #[trigger] parts[i]),
    ensures
        all_differences(c, t, gather(parts)),
    decreases parts.len(),
{
    if parts.len() > 0 {
        let init = parts.drop_last();
        assert forall|i: int| 0 <= i < init.len() implies all_differences(c, t, #[trigger] init[i]) by {
            assert(init[i] == parts[i]);
        }
        lemma_gather_differences(c, t, init);
        assert(all_differences(c, t, parts[parts.len() - 1]));
    }
}

proof fn lemma_profile_differences(c: ProfileModel, t: ProfileModel)
    requires
        is_indexed(c),
    ensures
        all_differences(c, t, profile_part(c, t)),
{
    let p = c.index;
    if t.index == p && same_shape(c, t) {
        let d = disabled_part(c, t);
        let r = rate_part(c, t);
        let slots = slot_parts(p, c.resolutions, t.resolutions);
        let buttons = button_parts(p, c.buttons, t.buttons);
        let leds = led_parts(p, c.leds, t.leds);
        assert forall|i: int| 0 <= i < slots.len() implies all_differences(c, t, #[trigger] slots[i]) by {
            assert(c.resolutions[i].index == i);
            assert(all_differences(c, t, dpi_part(p, c.resolutions[i], t.resolutions[i])));
            lemma_slot_disabled_told(c, t, i);
        }
        assert forall|i: int| 0 <= i < buttons.len() implies all_differences(
            c,
            t,
            #[trigger] buttons[i],
        ) by {
            assert(c.buttons[i].index == i);
        }
        assert forall|i: int| 0 <= i < leds.len() implies all_differences(c, t, #[trigger] leds[i]) by {
            assert(c.leds[i].index == i);
        }
        lemma_disabled_told(c, t);
        lemma_gather_differences(c, t, slots);
        lemma_gather_differences(c, t, buttons);
        lemma_gather_differences(c, t, leds);
        assert(all_differences(c, t, after(d, r)));
        assert(all_differences(c, t, after(after(d, r), gather(slots))));
        assert(all_differences(c, t, after(after(after(d, r), gather(slots)), gather(buttons))));
    }
}

proof fn lemma_profiles_differences(c: Seq<ProfileModel>, t: Seq<ProfileModel>, n: int, k: int)
    requires
        0 <= n <= c.len() == t.len(),
        forall|i: int| 0 <= i < c.len() ==> (#[trigger] c[i]).index == i && is_indexed(c[i]),
        gather(profile_parts(c, t).take(n)) is Ok,
        0 <= k < gather(profile_parts(c, t).take(n))->Ok_0.len(),
    ensures
        exists|i: int|
            0 <= i < n && is_difference(
                #[trigger] c[i],
                t[i],
                gather(profile_parts(c, t).take(n))->Ok_0[k].change,
            ) && tells_difference(c[i], t[i], gather(profile_parts(c, t).take(n))->Ok_0[k]),
    decreases n,
{
    let parts = profile_parts(c, t);
    if n > 0 {
        assert(parts.take(n).drop_last() =~= parts.take(n - 1));
        let before = gather(parts.take(n - 1))->Ok_0;
        if k < before.len() {
            lemma_profiles_differences(c, t, n - 1, k);
        } else {
            lemma_profile_differences(c[n - 1], t[n - 1]);
            let own = parts[n - 1]->Ok_0;
            assert(own[k - before.len()] == gather(parts.take(n))->Ok_0[k]);
            assert(is_difference(c[n - 1], t[n - 1], own[k - before.len()].change));
        }
    }
}

/// Every change of a plan gives a setting of the device the value that it has in the target,
/// and the device has another; its summary tells both.
pub proof fn every_planned_change_is_a_difference(c: SnapshotModel, t: SnapshotModel, k: int)
    requires
        is_numbered(c),
        plan_of(c, t) is Ok,
        0 <= k < plan_of(c, t)->Ok_0.len(),
    ensures
        ({
            let planned = plan_of(c, t)->Ok_0[k];
            let i = profile_of(planned.change) as int;
            i < c.profiles.len() && is_difference(c.profiles[i], t.profiles[i], planned.change)
                && tells_difference(c.profiles[i], t.profiles[i], planned)
        }),
{
    let parts = profile_parts(c.profiles, t.profiles);
    assert(parts.take(parts.len() as int) =~= parts);
    lemma_profiles_differences(c.profiles, t.profiles, c.profiles.len() as int, k);
    let change = plan_of(c, t)->Ok_0[k].change;
    let i = choose|i: int|
        0 <= i < c.profiles.len() && is_difference(#[trigger] c.profiles[i], t.profiles[i], change)
            && tells_difference(c.profiles[i], t.profiles[i], plan_of(c, t)->Ok_0[k]);
    assert(c.profiles[i].index == i);
}

// --------------------------------------------------------------------- carrying out
/// `s` has every restored setting of the target, and of the device `c` everything else.
pub open spec fn is_restored(s: SnapshotModel, c: SnapshotModel, t: SnapshotModel) -> bool {
    &&& s.name == c.name
    &&& s.model == c.model
    &&& s.profiles.len() == c.profiles.len()
    &&& forall|i: int|
        0 <= i < s.profiles.len() ==> (#[trigger] s.profiles[i]).disabled == t.profiles[i].disabled
            && s.profiles[i].report_rate == t.profiles[i].report_rate && s.profiles[i].index
            == c.profiles[i].index && s.profiles[i].is_active == c.profiles[i].is_active
            && s.profiles[i].report_rates == c.profiles[i].report_rates && s.profiles[i].capabilities
            == c.profiles[i].capabilities && s.profiles[i].resolutions.len()
            == c.profiles[i].resolutions.len() && s.profiles[i].buttons.len()
            == c.profiles[i].buttons.len() && s.profiles[i].leds.len() == c.profiles[i].leds.len()
    &&& forall|i: int, j: int|
        0 <= i < s.profiles.len() && 0 <= j < s.profiles[i].resolutions.len() ==> {
            let r = #[trigger] s.profiles[i].resolutions[j];
            let was = c.profiles[i].resolutions[j];
            let want = t.profiles[i].resolutions[j];
            &&& r.dpi == (if want.dpi is Some {
                want.dpi
            } else {
                was.dpi
            })
            &&& r.is_disabled == want.is_disabled
            &&& r.index == was.index
            &&& r.is_active == was.is_active
            &&& r.is_default == was.is_default
            &&& r.capabilities == was.capabilities
            &&& r.supported_dpi == was.supported_dpi
        }
    &&& forall|i: int, j: int|
        0 <= i < s.profiles.len() && 0 <= j < s.profiles[i].buttons.len() ==> {
            let b = #[trigger] s.profiles[i].buttons[j];
            let was = c.profiles[i].buttons[j];
            let want = t.profiles[i].buttons[j];
            &&& b.raw_type == want.raw_type
            &&& want.raw_type != 0 ==> b.raw_value == want.raw_value
            &&& b.action == (if was.raw_type == want.raw_type && (want.raw_type == 0 || was.raw_value
                == want.raw_value) {
                was.action
            } else {
                description(want.raw_type, want.raw_value)
            })
            &&& b.index == was.index
            &&& b.action_types == was.action_types
        }
    &&& forall|i: int, j: int|
        0 <= i < s.profiles.len() && 0 <= j < s.profiles[i].leds.len() ==> {
            let l = #[trigger] s.profiles[i].leds[j];
            let was = c.profiles[i].leds[j];
            let want = t.profiles[i].leds[j];
            &&& l.mode == want.mode
            &&& l.color == want.color
            &&& l.brightness == want.brightness
            &&& l.index == was.index
            &&& l.modes == was.modes
            &&& l.color_depth == was.color_depth
        }
}

proof fn lemma_settled_is_restored(c: SnapshotModel, t: SnapshotModel)
    ensures
        is_restored(settled(c, t), c, t),
{
    let s = settled(c, t);
    assert forall|i: int, j: int|
        0 <= i < s.profiles.len() && 0 <= j < s.profiles[i].resolutions.len() implies (
    #[trigger] s.profiles[i].resolutions[j]) == settled_slot(
        c.profiles[i].resolutions[j],
        t.profiles[i].resolutions[j],
    ) by {
        assert(s.profiles[i] == settled_profile(c.profiles[i], t.profiles[i]));
    }
    assert forall|i: int, j: int|
        0 <= i < s.profiles.len() && 0 <= j < s.profiles[i].buttons.len() implies (
    #[trigger] s.profiles[i].buttons[j]) == settled_button(
        c.profiles[i].buttons[j],
        t.profiles[i].buttons[j],
    ) by {
        assert(s.profiles[i] == settled_profile(c.profiles[i], t.profiles[i]));
    }
    assert forall|i: int, j: int|
        0 <= i < s.profiles.len() && 0 <= j < s.profiles[i].leds.len() implies (
    #[trigger] s.profiles[i].leds[j]) == settled_led(c.profiles[i].leds[j], t.profiles[i].leds[j]) by {
        assert(s.profiles[i] == settled_profile(c.profiles[i], t.profiles[i]));
    }
}

/// A device that carries out a plan has every restored setting of the target, each by its own
/// value, and everything else as it was.
pub proof fn a_carried_out_plan_restores_the_target(c: SnapshotModel, t: SnapshotModel)
    requires
        is_numbered(c),
        plan_of(c, t) is Ok,
    ensures
        is_restored(carried_out(c, plan_of(c, t)->Ok_0, Spelling::Given), c, t),
        spells_colors(c, t) ==> is_restored(
            carried_out(c, plan_of(c, t)->Ok_0, Spelling::Plain),
            c,
            t,
        ),
{
    writing_a_plan_settles_it(c, t);
    lemma_settled_is_restored(c, t);
    if spells_colors(c, t) {
        carrying_out_a_plan_settles_it(c, t);
    }
}

// ------------------------------------------------------------------------ refusals
proof fn lemma_first_refusal(parts: Seq<Part>)
    ensures
        gather(parts) matches Err(e) ==> exists|i: int|
            0 <= i < parts.len() && #[trigger] parts[i] == Err::<Seq<PlannedModel>, Failure>(e)
                && forall|k: int| 0 <= k < i ==> #[trigger] parts[k] is Ok,
    decreases parts.len(),
{
    if gather(parts) is Err {
        let init = parts.drop_last();
        lemma_first_refusal(init);
        let e = gather(parts)->Err_0;
        if gather(init) is Err {
            let i = choose|i: int|
                0 <= i < init.len() && #[trigger] init[i] == Err::<Seq<PlannedModel>, Failure>(e)
                    && forall|k: int| 0 <= k < i ==> #[trigger] init[k] is Ok;
            assert(parts[i] == init[i]);
            assert forall|k: int| 0 <= k < i implies #[trigger] parts[k] is Ok by {
                assert(init[k] is Ok);
            }
        } else {
            let i = parts.len() - 1;
            lemma_gather_is_ok(init);
            assert(parts[i] == Err::<Seq<PlannedModel>, Failure>(e));
            assert forall|k: int| 0 <= k < i implies #[trigger] parts[k] is Ok by {
                assert(init[k] is Ok);
            }
        }
    }
}

/// A plan that is refused is refused for the first profile that cannot be given the target's
/// settings, and for the reason that a plan of that profile alone is.
pub proof fn the_first_profile_in_the_way_is_reported(c: SnapshotModel, t: SnapshotModel)
    requires
        c.model == t.model,
        c.profiles.len() == t.profiles.len(),
    ensures
        plan_of(c, t) matches Err(e) ==> exists|i: int|
            0 <= i < c.profiles.len() && profile_part(#[trigger] c.profiles[i], t.profiles[i])
                == Err::<Seq<PlannedModel>, Failure>(e) && !can_become(c.profiles[i], t.profiles[i])
                && forall|k: int|
                0 <= k < i ==> can_become(#[trigger] c.profiles[k], t.profiles[k]),
{
    let parts = profile_parts(c.profiles, t.profiles);
    lemma_first_refusal(parts);
    if plan_of(c, t) is Err {
        let e = plan_of(c, t)->Err_0;
        let i = choose|i: int|
            0 <= i < parts.len() && #[trigger] parts[i] == Err::<Seq<PlannedModel>, Failure>(e)
                && forall|k: int| 0 <= k < i ==> #[trigger] parts[k] is Ok;
        assert(parts[i] == profile_part(c.profiles[i], t.profiles[i]));
        lemma_profile_is_ok(c.profiles[i], t.profiles[i]);
        assert forall|k: int| 0 <= k < i implies can_become(#[trigger] c.profiles[k], t.profiles[k]) by {
            assert(parts[k] is Ok);
            lemma_profile_is_ok(c.profiles[k], t.profiles[k]);
        }
    }
}

} // verus!
