//! What a plan means for the device: when it is empty, that it asks only for what the
//! device supports, and what carrying it out leaves behind.

use crate::apply::{button_with, normal_color, with_profile};
use crate::config::color_of;
use crate::ratbag::{ButtonModel, LedModel, ProfileModel, ResolutionModel, SnapshotModel};
use crate::restore::{
    after, button_part, button_parts, disabled_part, dpi_part, gather, is_well_typed,
    led_brightness_change, led_color_change, led_mode_change, led_part, led_parts, nothing, plan_of,
    profile_part, profile_parts, rate_part, same_shape, slot_disabled_part, slot_part,
    slot_parts, ChangeModel, Part, PlannedModel,
};
use vstd::prelude::*;

verus! {

// ---------------------------------------------------------------------- agreement
pub open spec fn slot_agrees(c: ResolutionModel, t: ResolutionModel) -> bool {
    (t.dpi is None || c.dpi == t.dpi) && c.is_disabled == t.is_disabled
}

/// The mappings are of one type and, unless that is none, of one value.
pub open spec fn button_agrees(c: ButtonModel, t: ButtonModel) -> bool {
    c.raw_type == t.raw_type && (t.raw_type != 0 ==> c.raw_value == t.raw_value)
}

pub open spec fn led_agrees(c: LedModel, t: LedModel) -> bool {
    c.mode == t.mode && c.color == t.color && c.brightness == t.brightness
}

/// Every setting that is restored is in `c` as `t` has it. What `t` does not know
/// (the DPI of a slot) agrees with anything.
pub open spec fn profile_agrees(c: ProfileModel, t: ProfileModel) -> bool {
    &&& c.index == t.index
    &&& same_shape(c, t)
    &&& c.disabled == t.disabled
    &&& c.report_rate == t.report_rate
    &&& forall|i: int|
        0 <= i < c.resolutions.len() ==> #[trigger] slot_agrees(c.resolutions[i], t.resolutions[i])
    &&& forall|i: int| 0 <= i < c.buttons.len() ==> #[trigger] button_agrees(c.buttons[i], t.buttons[i])
    &&& forall|i: int| 0 <= i < c.leds.len() ==> #[trigger] led_agrees(c.leds[i], t.leds[i])
}

pub open spec fn agrees(c: SnapshotModel, t: SnapshotModel) -> bool {
    &&& c.model == t.model
    &&& c.profiles.len() == t.profiles.len()
    &&& forall|i: int|
        0 <= i < c.profiles.len() ==> #[trigger] profile_agrees(c.profiles[i], t.profiles[i])
}

proof fn lemma_after_nothing(a: Part, b: Part)
    ensures
        after(a, b) == nothing() <==> a == nothing() && b == nothing(),
{
    if a is Ok && b is Ok {
        let x = a->Ok_0;
        let y = b->Ok_0;
        if (x + y).len() == 0 {
            assert(x =~= Seq::<PlannedModel>::empty());
            assert(y =~= Seq::<PlannedModel>::empty());
        }
        assert(Seq::<PlannedModel>::empty() + Seq::<PlannedModel>::empty() =~= Seq::<
            PlannedModel,
        >::empty());
        if after(a, b) == nothing() {
            assert((x + y).len() == 0);
        }
    }
}

proof fn lemma_gather_nothing(parts: Seq<Part>)
    ensures
        gather(parts) == nothing() <==> forall|i: int|
            0 <= i < parts.len() ==> #[trigger] parts[i] == nothing(),
    decreases parts.len(),
{
    if parts.len() > 0 {
        let init = parts.drop_last();
        lemma_gather_nothing(init);
        lemma_after_nothing(gather(init), parts.last());
        if forall|i: int| 0 <= i < parts.len() ==> #[trigger] parts[i] == nothing() {
            assert forall|i: int| 0 <= i < init.len() implies #[trigger] init[i] == nothing() by {
                assert(init[i] == parts[i]);
            }
            assert(parts[parts.len() - 1] == nothing());
        }
        if gather(parts) == nothing() {
            assert forall|i: int| 0 <= i < parts.len() implies #[trigger] parts[i]
                == nothing() by {
                if i < parts.len() - 1 {
                    assert(init[i] == parts[i]);
                }
            }
        }
    }
}

proof fn lemma_slot_nothing(p: u32, c: ResolutionModel, t: ResolutionModel)
    ensures
        slot_part(p, c, t) == nothing() <==> slot_agrees(c, t),
{
    lemma_after_nothing(dpi_part(p, c, t), slot_disabled_part(p, c, t));
    if dpi_part(p, c, t) is Ok && c.dpi != t.dpi && t.dpi is Some {
        assert(dpi_part(p, c, t)->Ok_0.len() == 1);
    }
    if c.is_disabled != t.is_disabled {
        assert(slot_disabled_part(p, c, t)->Ok_0.len() == 1);
    }
}

proof fn lemma_button_nothing(p: u32, c: ButtonModel, t: ButtonModel)
    ensures
        button_part(p, c, t) == nothing() <==> button_agrees(c, t),
{
    if !button_agrees(c, t) && button_part(p, c, t) is Ok {
        assert(button_part(p, c, t)->Ok_0.len() == 1);
    }
}

proof fn lemma_led_nothing(p: u32, c: LedModel, t: LedModel)
    ensures
        led_part(p, c, t) == nothing() <==> led_agrees(c, t),
{
    if !led_agrees(c, t) && led_part(p, c, t) is Ok {
        assert(led_part(p, c, t)->Ok_0.len() == 1);
    }
}

proof fn lemma_profile_nothing(c: ProfileModel, t: ProfileModel)
    ensures
        profile_part(c, t) == nothing() <==> profile_agrees(c, t),
{
    let p = c.index;
    if t.index == p && same_shape(c, t) {
        let d = disabled_part(c, t);
        let r = rate_part(c, t);
        let slots = slot_parts(p, c.resolutions, t.resolutions);
        let buttons = button_parts(p, c.buttons, t.buttons);
        let leds = led_parts(p, c.leds, t.leds);
        if c.disabled != t.disabled {
            assert(d->Ok_0.len() == 1);
        }
        if c.report_rate != t.report_rate && r is Ok {
            assert(r->Ok_0.len() == 1);
        }
        lemma_after_nothing(d, r);
        lemma_after_nothing(after(d, r), gather(slots));
        lemma_after_nothing(after(after(d, r), gather(slots)), gather(buttons));
        lemma_after_nothing(
            after(after(after(d, r), gather(slots)), gather(buttons)),
            gather(leds),
        );
        lemma_gather_nothing(slots);
        lemma_gather_nothing(buttons);
        lemma_gather_nothing(leds);
        assert forall|i: int| 0 <= i < slots.len() implies ((#[trigger] slots[i]) == nothing()
            <==> slot_agrees(c.resolutions[i], t.resolutions[i])) by {
            lemma_slot_nothing(p, c.resolutions[i], t.resolutions[i]);
        }
        assert forall|i: int| 0 <= i < buttons.len() implies ((#[trigger] buttons[i]) == nothing()
            <==> button_agrees(c.buttons[i], t.buttons[i])) by {
            lemma_button_nothing(p, c.buttons[i], t.buttons[i]);
        }
        assert forall|i: int| 0 <= i < leds.len() implies ((#[trigger] leds[i]) == nothing()
            <==> led_agrees(c.leds[i], t.leds[i])) by {
            lemma_led_nothing(p, c.leds[i], t.leds[i]);
        }
        if gather(slots) == nothing() {
            assert forall|i: int| 0 <= i < c.resolutions.len() implies #[trigger] slot_agrees(
                c.resolutions[i],
                t.resolutions[i],
            ) by {
                assert(slots[i] == nothing());
            }
        }
        if gather(buttons) == nothing() {
            assert forall|i: int| 0 <= i < c.buttons.len() implies #[trigger] button_agrees(
                c.buttons[i],
                t.buttons[i],
            ) by {
                assert(buttons[i] == nothing());
            }
        }
        if gather(leds) == nothing() {
            assert forall|i: int| 0 <= i < c.leds.len() implies #[trigger] led_agrees(
                c.leds[i],
                t.leds[i],
            ) by {
                assert(leds[i] == nothing());
            }
        }
    }
}

/// There is nothing to write exactly where every restored setting agrees.
pub proof fn plan_is_empty_exactly_on_agreement(c: SnapshotModel, t: SnapshotModel)
    ensures
        plan_of(c, t) == nothing() <==> agrees(c, t),
{
    if c.model == t.model && c.profiles.len() == t.profiles.len() {
        let parts = profile_parts(c.profiles, t.profiles);
        lemma_gather_nothing(parts);
        assert forall|i: int| 0 <= i < parts.len() implies ((#[trigger] parts[i]) == nothing()
            <==> profile_agrees(c.profiles[i], t.profiles[i])) by {
            lemma_profile_nothing(c.profiles[i], t.profiles[i]);
        }
        if gather(parts) == nothing() {
            assert forall|i: int| 0 <= i < c.profiles.len() implies #[trigger] profile_agrees(
                c.profiles[i],
                t.profiles[i],
            ) by {
                assert(parts[i] == nothing());
            }
        }
    }
}

/// A device compared with itself leaves nothing to write.
pub proof fn plan_for_the_same_state_is_empty(s: SnapshotModel)
    ensures
        plan_of(s, s) == nothing(),
{
    plan_is_empty_exactly_on_agreement(s, s);
}

// ---------------------------------------------------------------------- support
/// The device's indices are positions.
pub open spec fn is_indexed(p: ProfileModel) -> bool {
    &&& forall|i: int| 0 <= i < p.resolutions.len() ==> (#[trigger] p.resolutions[i]).index == i
    &&& forall|i: int| 0 <= i < p.buttons.len() ==> (#[trigger] p.buttons[i]).index == i
    &&& forall|i: int| 0 <= i < p.leds.len() ==> (#[trigger] p.leds[i]).index == i
}

/// The device counts profiles, slots, buttons and LEDs from zero.
pub open spec fn is_numbered(s: SnapshotModel) -> bool {
    forall|i: int|
        0 <= i < s.profiles.len() ==> (#[trigger] s.profiles[i]).index == i && is_indexed(
            s.profiles[i],
        )
}

/// The change concerns profile `p`, which has what it names, and asks for a value
/// that `p` says it supports.
pub open spec fn is_supported(p: ProfileModel, c: ChangeModel) -> bool {
    match c {
        ChangeModel::ProfileDisabled { profile, .. } => profile == p.index,
        ChangeModel::ReportRate { profile, to } => profile == p.index && p.report_rates.contains(to),
        ChangeModel::Dpi { profile, slot, to } => profile == p.index && slot < p.resolutions.len()
            && p.resolutions[slot as int].supported_dpi.contains(to),
        ChangeModel::SlotDisabled { profile, slot, .. } => profile == p.index && slot
            < p.resolutions.len(),
        ChangeModel::Button { profile, button, kind, value } => profile == p.index && button
            < p.buttons.len() && p.buttons[button as int].action_types.contains(kind)
            && is_well_typed(kind, value),
        ChangeModel::Led { profile, led, mode, color, .. } => profile == p.index && led
            < p.leds.len() && (mode matches Some(m) ==> p.leds[led as int].modes.contains(m)) && (
        color matches Some(text) ==> color_of(text) is Ok),
    }
}

/// The profile that a change concerns.
pub open spec fn profile_of(c: ChangeModel) -> u32 {
    match c {
        ChangeModel::ProfileDisabled { profile, .. } => profile,
        ChangeModel::ReportRate { profile, .. } => profile,
        ChangeModel::Dpi { profile, .. } => profile,
        ChangeModel::SlotDisabled { profile, .. } => profile,
        ChangeModel::Button { profile, .. } => profile,
        ChangeModel::Led { profile, .. } => profile,
    }
}

/// Every change of the part is supported by `p`.
spec fn all_supported(p: ProfileModel, part: Part) -> bool {
    part matches Ok(v) ==> forall|k: int|
        0 <= k < v.len() ==> is_supported(p, (#[trigger] v[k]).change)
}

proof fn lemma_after_supported(p: ProfileModel, a: Part, b: Part)
    requires
        all_supported(p, a),
        all_supported(p, b),
    ensures
        all_supported(p, after(a, b)),
{
}

proof fn lemma_gather_supported(p: ProfileModel, parts: Seq<Part>)
    requires
        forall|i: int| 0 <= i < parts.len() ==> all_supported(p, #[trigger] parts[i]),
    ensures
        all_supported(p, gather(parts)),
    decreases parts.len(),
{
    if parts.len() > 0 {
        let init = parts.drop_last();
        assert forall|i: int| 0 <= i < init.len() implies all_supported(p, #[trigger] init[i]) by {
            assert(init[i] == parts[i]);
        }
        lemma_gather_supported(p, init);
        lemma_after_supported(p, gather(init), parts.last());
    }
}

proof fn lemma_profile_supported(c: ProfileModel, t: ProfileModel)
    requires
        is_indexed(c),
    ensures
        all_supported(c, profile_part(c, t)),
{
    let p = c.index;
    if t.index == p && same_shape(c, t) {
        let d = disabled_part(c, t);
        let r = rate_part(c, t);
        let slots = slot_parts(p, c.resolutions, t.resolutions);
        let buttons = button_parts(p, c.buttons, t.buttons);
        let leds = led_parts(p, c.leds, t.leds);
        assert forall|i: int| 0 <= i < slots.len() implies all_supported(c, #[trigger] slots[i]) by {
            assert(c.resolutions[i].index == i);
            assert(all_supported(c, dpi_part(p, c.resolutions[i], t.resolutions[i])));
            assert(all_supported(c, slot_disabled_part(p, c.resolutions[i], t.resolutions[i])));
            lemma_after_supported(
                c,
                dpi_part(p, c.resolutions[i], t.resolutions[i]),
                slot_disabled_part(p, c.resolutions[i], t.resolutions[i]),
            );
        }
        assert forall|i: int| 0 <= i < buttons.len() implies all_supported(
            c,
            #[trigger] buttons[i],
        ) by {
            assert(c.buttons[i].index == i);
        }
        assert forall|i: int| 0 <= i < leds.len() implies all_supported(c, #[trigger] leds[i]) by {
            assert(c.leds[i].index == i);
        }
        lemma_gather_supported(c, slots);
        lemma_gather_supported(c, buttons);
        lemma_gather_supported(c, leds);
        lemma_after_supported(c, d, r);
        lemma_after_supported(c, after(d, r), gather(slots));
        lemma_after_supported(c, after(after(d, r), gather(slots)), gather(buttons));
        lemma_after_supported(
            c,
            after(after(after(d, r), gather(slots)), gather(buttons)),
            gather(leds),
        );
    }
}

proof fn lemma_profiles_supported(c: Seq<ProfileModel>, t: Seq<ProfileModel>, n: int, k: int)
    requires
        0 <= n <= c.len() == t.len(),
        forall|i: int| 0 <= i < c.len() ==> (#[trigger] c[i]).index == i && is_indexed(c[i]),
        gather(profile_parts(c, t).take(n)) is Ok,
        0 <= k < gather(profile_parts(c, t).take(n))->Ok_0.len(),
    ensures
        ({
            let change = gather(profile_parts(c, t).take(n))->Ok_0[k].change;
            &&& profile_of(change) < n
            &&& is_supported(c[profile_of(change) as int], change)
        }),
    decreases n,
{
    let parts = profile_parts(c, t);
    if n > 0 {
        assert(parts.take(n).drop_last() =~= parts.take(n - 1));
        let before = gather(parts.take(n - 1))->Ok_0;
        if k < before.len() {
            lemma_profiles_supported(c, t, n - 1, k);
        } else {
            lemma_profile_supported(c[n - 1], t[n - 1]);
            let own = parts[n - 1]->Ok_0;
            assert(own[k - before.len()] == gather(parts.take(n))->Ok_0[k]);
        }
    }
}

/// Every change of a plan names something the device has and asks for a value that
/// the device says it supports.
pub proof fn planned_changes_are_supported(c: SnapshotModel, t: SnapshotModel, k: int)
    requires
        is_numbered(c),
        plan_of(c, t) is Ok,
        0 <= k < plan_of(c, t)->Ok_0.len(),
    ensures
        ({
            let change = plan_of(c, t)->Ok_0[k].change;
            &&& profile_of(change) < c.profiles.len()
            &&& is_supported(c.profiles[profile_of(change) as int], change)
        }),
{
    let parts = profile_parts(c.profiles, t.profiles);
    assert(parts.take(parts.len() as int) =~= parts);
    lemma_profiles_supported(c.profiles, t.profiles, c.profiles.len() as int, k);
}

// ------------------------------------------------------------------ carrying out
/// How a colour that was written reads.
pub enum Spelling {
    /// As it was written.
    Given,
    /// In the one spelling that the device has for it.
    Plain,
}

/// What a colour that was written reads.
pub open spec fn spelled(text: Seq<char>, how: Spelling) -> Seq<char> {
    match how {
        Spelling::Given => text,
        Spelling::Plain => normal_color(text)->Ok_0,
    }
}

/// A profile after one change.
pub open spec fn profile_changed(p: ProfileModel, c: ChangeModel, how: Spelling) -> ProfileModel {
    match c {
        ChangeModel::ProfileDisabled { to, .. } => ProfileModel { disabled: to, ..p },
        ChangeModel::ReportRate { to, .. } => ProfileModel { report_rate: to, ..p },
        ChangeModel::Dpi { slot, to, .. } => ProfileModel {
            resolutions: p.resolutions.update(
                slot as int,
                ResolutionModel { dpi: Some(to), ..p.resolutions[slot as int] },
            ),
            ..p
        },
        ChangeModel::SlotDisabled { slot, to, .. } => ProfileModel {
            resolutions: p.resolutions.update(
                slot as int,
                ResolutionModel { is_disabled: to, ..p.resolutions[slot as int] },
            ),
            ..p
        },
        ChangeModel::Button { button, kind, value, .. } => ProfileModel {
            buttons: p.buttons.update(
                button as int,
                button_with(p.buttons[button as int], kind, value),
            ),
            ..p
        },
        ChangeModel::Led { led, mode, color, brightness, .. } => {
            let l = p.leds[led as int];
            ProfileModel {
                leds: p.leds.update(
                    led as int,
                    LedModel {
                        mode: match mode {
                            Some(m) => m,
                            None => l.mode,
                        },
                        color: match color {
                            Some(text) => spelled(text, how),
                            None => l.color,
                        },
                        brightness: match brightness {
                            Some(b) => b,
                            None => l.brightness,
                        },
                        ..l
                    },
                ),
                ..p
            }
        },
    }
}

/// The device after one change.
pub open spec fn changed(s: SnapshotModel, c: ChangeModel, how: Spelling) -> SnapshotModel {
    let i = profile_of(c) as int;
    with_profile(s, i, profile_changed(s.profiles[i], c, how))
}

/// The device after the changes of a plan, in order.
pub open spec fn carried_out(s: SnapshotModel, plan: Seq<PlannedModel>, how: Spelling) -> SnapshotModel
    decreases plan.len(),
{
    if plan.len() == 0 {
        s
    } else {
        changed(carried_out(s, plan.drop_last(), how), plan.last().change, how)
    }
}

/// A slot of the device, settled to what the target knows of it.
pub open spec fn settled_slot(c: ResolutionModel, t: ResolutionModel) -> ResolutionModel {
    ResolutionModel {
        dpi: if t.dpi is Some {
            t.dpi
        } else {
            c.dpi
        },
        is_disabled: t.is_disabled,
        ..c
    }
}

pub open spec fn settled_button(c: ButtonModel, t: ButtonModel) -> ButtonModel {
    if button_agrees(c, t) {
        c
    } else {
        button_with(c, t.raw_type, t.raw_value)
    }
}

pub open spec fn settled_led(c: LedModel, t: LedModel) -> LedModel {
    LedModel { mode: t.mode, color: t.color, brightness: t.brightness, ..c }
}

/// A profile of the device with every restored setting as in `t`, and all else as
/// it was.
pub open spec fn settled_profile(c: ProfileModel, t: ProfileModel) -> ProfileModel {
    ProfileModel {
        disabled: t.disabled,
        report_rate: t.report_rate,
        resolutions: Seq::new(
            c.resolutions.len(),
            |i: int| settled_slot(c.resolutions[i], t.resolutions[i]),
        ),
        buttons: Seq::new(c.buttons.len(), |i: int| settled_button(c.buttons[i], t.buttons[i])),
        leds: Seq::new(c.leds.len(), |i: int| settled_led(c.leds[i], t.leds[i])),
        ..c
    }
}

/// The device with every restored setting as in `t`, and all else as it was.
pub open spec fn settled(c: SnapshotModel, t: SnapshotModel) -> SnapshotModel {
    SnapshotModel {
        profiles: Seq::new(
            c.profiles.len(),
            |i: int| settled_profile(c.profiles[i], t.profiles[i]),
        ),
        ..c
    }
}

/// The colours that the target changes are in the device's spelling: six lower-case
/// digits.
pub open spec fn spells_colors(c: SnapshotModel, t: SnapshotModel) -> bool {
    forall|i: int, j: int|
        0 <= i < c.profiles.len() && 0 <= j < c.profiles[i].leds.len() && c.profiles[i].leds[j].color
            != t.profiles[i].leds[j].color ==> normal_color(
            #[trigger] t.profiles[i].leds[j].color,
        ) == Ok::<Seq<char>, crate::error::Failure>(t.profiles[i].leds[j].color)
}

/// A profile after changes to it, in order.
spec fn profile_carried(p: ProfileModel, plan: Seq<PlannedModel>, how: Spelling) -> ProfileModel
    decreases plan.len(),
{
    if plan.len() == 0 {
        p
    } else {
        profile_changed(profile_carried(p, plan.drop_last(), how), plan.last().change, how)
    }
}

proof fn lemma_profile_carried_both(p: ProfileModel, a: Seq<PlannedModel>, b: Seq<PlannedModel>, how: Spelling)
    ensures
        profile_carried(p, a + b, how) == profile_carried(profile_carried(p, a, how), b, how),
    decreases b.len(),
{
    if b.len() == 0 {
        assert(a + b =~= a);
    } else {
        assert((a + b).drop_last() =~= a + b.drop_last());
        lemma_profile_carried_both(p, a, b.drop_last(), how);
    }
}

proof fn lemma_carried_both(s: SnapshotModel, a: Seq<PlannedModel>, b: Seq<PlannedModel>, how: Spelling)
    ensures
        carried_out(s, a + b, how) == carried_out(carried_out(s, a, how), b, how),
    decreases b.len(),
{
    if b.len() == 0 {
        assert(a + b =~= a);
    } else {
        assert((a + b).drop_last() =~= a + b.drop_last());
        lemma_carried_both(s, a, b.drop_last(), how);
    }
}

/// Changes to one profile leave the others alone.
proof fn lemma_carried_in_profile(s: SnapshotModel, i: int, plan: Seq<PlannedModel>, how: Spelling)
    requires
        0 <= i < s.profiles.len(),
        forall|k: int| 0 <= k < plan.len() ==> profile_of((#[trigger] plan[k]).change) == i,
    ensures
        carried_out(s, plan, how) == with_profile(s, i, profile_carried(s.profiles[i], plan, how)),
    decreases plan.len(),
{
    if plan.len() == 0 {
        assert(with_profile(s, i, s.profiles[i]) =~= s);
    } else {
        let init = plan.drop_last();
        assert forall|k: int| 0 <= k < init.len() implies profile_of((#[trigger] init[k]).change)
            == i by {
            assert(init[k] == plan[k]);
        }
        lemma_carried_in_profile(s, i, init, how);
        assert(profile_of(plan[plan.len() - 1].change) == i);
        assert(carried_out(s, plan, how) =~= with_profile(s, i, profile_carried(s.profiles[i], plan, how)));
    }
}

proof fn lemma_one_carried(p: ProfileModel, v: Seq<PlannedModel>, how: Spelling)
    requires
        v.len() == 1,
    ensures
        profile_carried(p, v, how) == profile_changed(p, v[0].change, how),
{
    assert(v.drop_last().len() == 0);
    assert(profile_carried(p, v.drop_last(), how) == p);
}

/// The first `n` slots settled.
spec fn slots_done(c: Seq<ResolutionModel>, t: Seq<ResolutionModel>, n: int) -> Seq<ResolutionModel> {
    Seq::new(
        c.len(),
        |i: int|
            if i < n {
                settled_slot(c[i], t[i])
            } else {
                c[i]
            },
    )
}

spec fn buttons_done(c: Seq<ButtonModel>, t: Seq<ButtonModel>, n: int) -> Seq<ButtonModel> {
    Seq::new(
        c.len(),
        |i: int|
            if i < n {
                settled_button(c[i], t[i])
            } else {
                c[i]
            },
    )
}

spec fn leds_done(c: Seq<LedModel>, t: Seq<LedModel>, n: int) -> Seq<LedModel> {
    Seq::new(
        c.len(),
        |i: int|
            if i < n {
                settled_led(c[i], t[i])
            } else {
                c[i]
            },
    )
}

proof fn lemma_slot_carried(p: ProfileModel, q: u32, c: ResolutionModel, t: ResolutionModel, i: int, how: Spelling)
    requires
        0 <= i < p.resolutions.len(),
        p.resolutions[i] == c,
        c.index == i,
        slot_part(q, c, t) is Ok,
    ensures
        profile_carried(p, slot_part(q, c, t)->Ok_0, how) == (ProfileModel {
            resolutions: p.resolutions.update(i, settled_slot(c, t)),
            ..p
        }),
{
    let a = dpi_part(q, c, t)->Ok_0;
    let b = slot_disabled_part(q, c, t)->Ok_0;
    lemma_profile_carried_both(p, a, b, how);
    let mid = profile_carried(p, a, how);
    let x = ResolutionModel {
        dpi: if t.dpi is Some {
            t.dpi
        } else {
            c.dpi
        },
        ..c
    };
    if a.len() == 1 {
        lemma_one_carried(p, a, how);
    } else {
        assert(a.len() == 0);
    }
    assert(mid =~= (ProfileModel { resolutions: p.resolutions.update(i, x), ..p }));
    if b.len() == 1 {
        lemma_one_carried(mid, b, how);
    } else {
        assert(b.len() == 0);
    }
    assert(profile_carried(mid, b, how) =~= (ProfileModel {
        resolutions: p.resolutions.update(i, settled_slot(c, t)),
        ..p
    }));
}

proof fn lemma_slots_carried(
    p: ProfileModel,
    q: u32,
    c: Seq<ResolutionModel>,
    t: Seq<ResolutionModel>,
    n: int, how: Spelling)
    requires
        0 <= n <= c.len() == t.len(),
        p.resolutions == c,
        forall|i: int| 0 <= i < c.len() ==> (#[trigger] c[i]).index == i,
        gather(slot_parts(q, c, t).take(n)) is Ok,
    ensures
        profile_carried(p, gather(slot_parts(q, c, t).take(n))->Ok_0, how) == (ProfileModel {
            resolutions: slots_done(c, t, n),
            ..p
        }),
    decreases n,
{
    let parts = slot_parts(q, c, t);
    if n == 0 {
        assert(parts.take(0).len() == 0);
        assert(slots_done(c, t, 0) =~= c);
    } else {
        assert(parts.take(n).drop_last() =~= parts.take(n - 1));
        lemma_slots_carried(p, q, c, t, n - 1, how);
        let mid = ProfileModel { resolutions: slots_done(c, t, n - 1), ..p };
        lemma_profile_carried_both(p, gather(parts.take(n - 1))->Ok_0, parts[n - 1]->Ok_0, how);
        assert(c[n - 1].index == n - 1);
        lemma_slot_carried(mid, q, c[n - 1], t[n - 1], n - 1, how);
        assert(mid.resolutions.update(n - 1, settled_slot(c[n - 1], t[n - 1])) =~= slots_done(
            c,
            t,
            n,
        ));
    }
}

proof fn lemma_buttons_carried(
    p: ProfileModel,
    q: u32,
    c: Seq<ButtonModel>,
    t: Seq<ButtonModel>,
    n: int, how: Spelling)
    requires
        0 <= n <= c.len() == t.len(),
        p.buttons == c,
        forall|i: int| 0 <= i < c.len() ==> (#[trigger] c[i]).index == i,
        gather(button_parts(q, c, t).take(n)) is Ok,
    ensures
        profile_carried(p, gather(button_parts(q, c, t).take(n))->Ok_0, how) == (ProfileModel {
            buttons: buttons_done(c, t, n),
            ..p
        }),
    decreases n,
{
    let parts = button_parts(q, c, t);
    if n == 0 {
        assert(parts.take(0).len() == 0);
        assert(buttons_done(c, t, 0) =~= c);
    } else {
        assert(parts.take(n).drop_last() =~= parts.take(n - 1));
        lemma_buttons_carried(p, q, c, t, n - 1, how);
        let mid = ProfileModel { buttons: buttons_done(c, t, n - 1), ..p };
        let own = parts[n - 1]->Ok_0;
        lemma_profile_carried_both(p, gather(parts.take(n - 1))->Ok_0, own, how);
        assert(c[n - 1].index == n - 1);
        if own.len() == 1 {
            lemma_one_carried(mid, own, how);
        } else {
            assert(own.len() == 0);
        }
        assert(mid.buttons.update(n - 1, settled_button(c[n - 1], t[n - 1])) =~= buttons_done(
            c,
            t,
            n,
        ));
        if own.len() == 0 {
            assert(mid.buttons =~= buttons_done(c, t, n));
        }
    }
}

proof fn lemma_led_carried(p: ProfileModel, q: u32, c: LedModel, t: LedModel, i: int, how: Spelling)
    requires
        0 <= i < p.leds.len(),
        p.leds[i] == c,
        c.index == i,
        c.color != t.color ==> spelled(t.color, how) == t.color,
        led_part(q, c, t) is Ok,
    ensures
        profile_carried(p, led_part(q, c, t)->Ok_0, how) == (ProfileModel {
            leds: p.leds.update(i, settled_led(c, t)),
            ..p
        }),
{
    let own = led_part(q, c, t)->Ok_0;
    if led_agrees(c, t) {
        assert(own.len() == 0);
        assert(settled_led(c, t) == c);
        assert(p.leds.update(i, c) =~= p.leds);
    } else {
        assert(own.len() == 1);
        lemma_one_carried(p, own, how);
        assert(own[0].change == ChangeModel::Led {
            profile: q,
            led: c.index,
            mode: led_mode_change(c, t),
            color: led_color_change(c, t),
            brightness: led_brightness_change(c, t),
        });
        assert(profile_changed(p, own[0].change, how).leds[i] == settled_led(c, t));
    }
}

proof fn lemma_leds_carried(p: ProfileModel, q: u32, c: Seq<LedModel>, t: Seq<LedModel>, n: int, how: Spelling)
    requires
        0 <= n <= c.len() == t.len(),
        p.leds == c,
        forall|i: int| 0 <= i < c.len() ==> (#[trigger] c[i]).index == i,
        forall|j: int|
            0 <= j < c.len() && c[j].color != t[j].color ==> spelled(#[trigger] t[j].color, how)
                == t[j].color,
        gather(led_parts(q, c, t).take(n)) is Ok,
    ensures
        profile_carried(p, gather(led_parts(q, c, t).take(n))->Ok_0, how) == (ProfileModel {
            leds: leds_done(c, t, n),
            ..p
        }),
    decreases n,
{
    let parts = led_parts(q, c, t);
    if n == 0 {
        assert(parts.take(0).len() == 0);
        assert(leds_done(c, t, 0) =~= c);
    } else {
        assert(parts.take(n).drop_last() =~= parts.take(n - 1));
        lemma_leds_carried(p, q, c, t, n - 1, how);
        let mid = ProfileModel { leds: leds_done(c, t, n - 1), ..p };
        lemma_profile_carried_both(p, gather(parts.take(n - 1))->Ok_0, parts[n - 1]->Ok_0, how);
        assert(c[n - 1].index == n - 1);
        assert(t[n - 1].color == t[n - 1].color);
        lemma_led_carried(mid, q, c[n - 1], t[n - 1], n - 1, how);
        assert(mid.leds.update(n - 1, settled_led(c[n - 1], t[n - 1])) =~= leds_done(c, t, n));
    }
}

proof fn lemma_profile_settled(c: ProfileModel, t: ProfileModel, how: Spelling)
    requires
        is_indexed(c),
        profile_part(c, t) is Ok,
        forall|j: int|
            0 <= j < c.leds.len() && c.leds[j].color != t.leds[j].color ==> spelled(
                #[trigger] t.leds[j].color,
                how,
            ) == t.leds[j].color,
    ensures
        profile_carried(c, profile_part(c, t)->Ok_0, how) == settled_profile(c, t),
{
    let q = c.index;
    let d = disabled_part(c, t)->Ok_0;
    let r = rate_part(c, t)->Ok_0;
    let slots = slot_parts(q, c.resolutions, t.resolutions);
    let buttons = button_parts(q, c.buttons, t.buttons);
    let leds = led_parts(q, c.leds, t.leds);
    let s = gather(slots)->Ok_0;
    let b = gather(buttons)->Ok_0;
    let l = gather(leds)->Ok_0;
    assert(slots.take(slots.len() as int) =~= slots);
    assert(buttons.take(buttons.len() as int) =~= buttons);
    assert(leds.take(leds.len() as int) =~= leds);
    lemma_profile_carried_both(c, d, r, how);
    lemma_profile_carried_both(c, d + r, s, how);
    lemma_profile_carried_both(c, d + r + s, b, how);
    lemma_profile_carried_both(c, d + r + s + b, l, how);
    let p1 = ProfileModel { disabled: t.disabled, ..c };
    if d.len() == 1 {
        lemma_one_carried(c, d, how);
    } else {
        assert(d.len() == 0);
    }
    assert(profile_carried(c, d, how) == p1);
    let p2 = ProfileModel { report_rate: t.report_rate, ..p1 };
    if r.len() == 1 {
        lemma_one_carried(p1, r, how);
    } else {
        assert(r.len() == 0);
    }
    assert(profile_carried(p1, r, how) == p2);
    lemma_slots_carried(p2, q, c.resolutions, t.resolutions, slots.len() as int, how);
    let p3 = profile_carried(p2, s, how);
    lemma_buttons_carried(p3, q, c.buttons, t.buttons, buttons.len() as int, how);
    let p4 = profile_carried(p3, b, how);
    lemma_leds_carried(p4, q, c.leds, t.leds, leds.len() as int, how);
    assert(profile_carried(p4, l, how) =~= settled_profile(c, t));
}

/// The first `n` profiles settled.
spec fn profiles_done(c: Seq<ProfileModel>, t: Seq<ProfileModel>, n: int) -> Seq<ProfileModel> {
    Seq::new(
        c.len(),
        |i: int|
            if i < n {
                settled_profile(c[i], t[i])
            } else {
                c[i]
            },
    )
}

proof fn lemma_part_stays_in_profile(c: ProfileModel, t: ProfileModel)
    requires
        is_indexed(c),
        profile_part(c, t) is Ok,
    ensures
        forall|k: int|
            0 <= k < profile_part(c, t)->Ok_0.len() ==> profile_of(
                (#[trigger] profile_part(c, t)->Ok_0[k]).change,
            ) == c.index,
{
    lemma_profile_supported(c, t);
    let own = profile_part(c, t)->Ok_0;
    assert forall|k: int| 0 <= k < own.len() implies profile_of((#[trigger] own[k]).change)
        == c.index by {
        assert(is_supported(c, own[k].change));
    }
}

proof fn lemma_profile_settled_in(c: SnapshotModel, t: SnapshotModel, i: int, how: Spelling)
    requires
        is_numbered(c),
        how is Plain ==> spells_colors(c, t),
        0 <= i < c.profiles.len(),
        profile_part(c.profiles[i], t.profiles[i]) is Ok,
    ensures
        profile_carried(c.profiles[i], profile_part(c.profiles[i], t.profiles[i])->Ok_0, how)
            == settled_profile(c.profiles[i], t.profiles[i]),
{
    let pc = c.profiles[i];
    let pt = t.profiles[i];
    assert(is_indexed(pc));
    assert forall|j: int|
        0 <= j < pc.leds.len() && pc.leds[j].color != pt.leds[j].color implies spelled(
        #[trigger] pt.leds[j].color,
        how,
    ) == pt.leds[j].color by {
        if how is Plain {
            assert(normal_color(t.profiles[i].leds[j].color) is Ok);
        }
    }
    lemma_profile_settled(pc, pt, how);
}

proof fn lemma_profiles_settled(c: SnapshotModel, t: SnapshotModel, n: int, how: Spelling)
    requires
        is_numbered(c),
        how is Plain ==> spells_colors(c, t),
        0 <= n <= c.profiles.len() == t.profiles.len(),
        gather(profile_parts(c.profiles, t.profiles).take(n)) is Ok,
    ensures
        carried_out(c, gather(profile_parts(c.profiles, t.profiles).take(n))->Ok_0, how) == (
        SnapshotModel { profiles: profiles_done(c.profiles, t.profiles, n), ..c }),
    decreases n,
{
    let parts = profile_parts(c.profiles, t.profiles);
    if n == 0 {
        assert(parts.take(0).len() == 0);
        assert(profiles_done(c.profiles, t.profiles, 0) =~= c.profiles);
    } else {
        let i = n - 1;
        assert(parts.take(n).drop_last() =~= parts.take(i));
        lemma_profiles_settled(c, t, i, how);
        let mid = SnapshotModel { profiles: profiles_done(c.profiles, t.profiles, i), ..c };
        let own = parts[i]->Ok_0;
        assert(parts.take(n).last() == parts[i]);
        lemma_carried_both(c, gather(parts.take(i))->Ok_0, own, how);
        let pc = c.profiles[i];
        let pt = t.profiles[i];
        assert(pc.index == i);
        lemma_part_stays_in_profile(pc, pt);
        lemma_carried_in_profile(mid, i, own, how);
        lemma_profile_settled_in(c, t, i, how);
        assert(with_profile(mid, i, settled_profile(pc, pt)).profiles =~= profiles_done(
            c.profiles,
            t.profiles,
            n,
        ));
    }
}

proof fn lemma_settled(c: SnapshotModel, t: SnapshotModel, how: Spelling)
    requires
        is_numbered(c),
        how is Plain ==> spells_colors(c, t),
        plan_of(c, t) is Ok,
    ensures
        carried_out(c, plan_of(c, t)->Ok_0, how) == settled(c, t),
{
    let parts = profile_parts(c.profiles, t.profiles);
    let n = c.profiles.len() as int;
    assert(parts.take(n) =~= parts);
    lemma_profiles_settled(c, t, n, how);
    assert(settled(c, t).profiles =~= profiles_done(c.profiles, t.profiles, n));
}

/// A device that is settled to a target has nothing left to write.
proof fn lemma_settled_is_done(c: SnapshotModel, t: SnapshotModel)
    requires
        plan_of(c, t) is Ok,
    ensures
        plan_of(settled(c, t), t) == nothing(),
{
    let parts = profile_parts(c.profiles, t.profiles);
    let s = settled(c, t);
    assert forall|i: int| 0 <= i < s.profiles.len() implies #[trigger] profile_agrees(
        s.profiles[i],
        t.profiles[i],
    ) by {
        let pc = c.profiles[i];
        let pt = t.profiles[i];
        assert(parts[i] is Ok) by {
            lemma_gather_ok(parts, i);
        }
        let ps = settled_profile(pc, pt);
        assert forall|j: int| 0 <= j < ps.buttons.len() implies #[trigger] button_agrees(
            ps.buttons[j],
            pt.buttons[j],
        ) by {
            assert(ps.buttons[j] == settled_button(pc.buttons[j], pt.buttons[j]));
        }
        assert forall|j: int| 0 <= j < ps.resolutions.len() implies #[trigger] slot_agrees(
            ps.resolutions[j],
            pt.resolutions[j],
        ) by {}
        assert forall|j: int| 0 <= j < ps.leds.len() implies #[trigger] led_agrees(
            ps.leds[j],
            pt.leds[j],
        ) by {}
    }
    plan_is_empty_exactly_on_agreement(s, t);
}

/// A plan is complete: with every change written into the field that it names, as it is
/// given, every restored setting has the target's value, all else is as it was, and
/// nothing is left to write.
pub proof fn writing_a_plan_settles_it(c: SnapshotModel, t: SnapshotModel)
    requires
        is_numbered(c),
        plan_of(c, t) is Ok,
    ensures
        carried_out(c, plan_of(c, t)->Ok_0, Spelling::Given) == settled(c, t),
        plan_of(settled(c, t), t) == nothing(),
{
    lemma_settled(c, t, Spelling::Given);
    lemma_settled_is_done(c, t);
}

/// The same holds of a device that shows colours in its own spelling, where the target
/// has them in that spelling.
pub proof fn carrying_out_a_plan_settles_it(c: SnapshotModel, t: SnapshotModel)
    requires
        is_numbered(c),
        spells_colors(c, t),
        plan_of(c, t) is Ok,
    ensures
        carried_out(c, plan_of(c, t)->Ok_0, Spelling::Plain) == settled(c, t),
        plan_of(settled(c, t), t) == nothing(),
{
    lemma_settled(c, t, Spelling::Plain);
    lemma_settled_is_done(c, t);
}

proof fn lemma_gather_ok(parts: Seq<Part>, i: int)
    requires
        gather(parts) is Ok,
        0 <= i < parts.len(),
    ensures
        parts[i] is Ok,
    decreases parts.len(),
{
    if i < parts.len() - 1 {
        lemma_gather_ok(parts.drop_last(), i);
    }
}

} // verus!
