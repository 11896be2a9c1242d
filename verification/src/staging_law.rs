//! What the staged writes do: a device that carries them out, in the order in which they are
//! staged, ends up with the settings that the plan was made for.

use crate::action::description;
use crate::apply::{color_text, normal_color, with_profile};
use crate::config::color_of;
use crate::error::{is_outcome_of, Error};
use crate::plan_law::{
    a_carried_out_plan_restores_the_target, an_empty_plan_means_the_targets_settings, can_become,
    every_planned_change_is_a_difference, is_difference, is_restored, there_is_a_plan_exactly_for_what_is_supported,
};
use crate::ratbag::{ButtonModel, LedModel, ProfileModel, RawModel, ResolutionModel, SnapshotModel};
use crate::restore::{
    nothing, plan_of, stage_call_of, staging_is_ordered, staging_order, ChangeModel, PlannedModel, StageCall, StageModel,
};
use crate::settle::{
    carried_out, changed, is_numbered, is_supported, planned_changes_are_supported, profile_of, spells_colors, Spelling,
};
use vstd::prelude::*;

verus! {

// ------------------------------------------------------------------------- one write
/// The write for a change is to the same profile and the same part of it, and sends what the
/// change asks for: a button's very value where the change has one, and an LED's colour where
/// it is one.
pub proof fn a_write_sends_what_the_change_asks(c: ChangeModel)
    ensures
        stage_call_of(c) is Ok <==> !(c matches ChangeModel::Led { color: Some(x), .. } && color_of(x) is Err),
        c matches ChangeModel::ProfileDisabled { profile, to } ==> stage_call_of(c)->Ok_0
            == (StageModel::ProfileDisabled { profile, disabled: to }),
        c matches ChangeModel::ReportRate { profile, to } ==> stage_call_of(c)->Ok_0
            == (StageModel::ReportRate { profile, hz: to }),
        c matches ChangeModel::Dpi { profile, slot, to } ==> stage_call_of(c)->Ok_0
            == (StageModel::SlotDpi { profile, slot, dpi: to }),
        c matches ChangeModel::SlotDisabled { profile, slot, to } ==> stage_call_of(c)->Ok_0
            == (StageModel::SlotDisabled { profile, slot, disabled: to }),
        c matches ChangeModel::Button { profile, button, kind, value: Some(v) } ==> stage_call_of(c)->Ok_0
            == (StageModel::Button { profile, button, kind, value: v }),
        c matches ChangeModel::Button { profile, button, kind, value: None } ==> stage_call_of(c)->Ok_0
            == (StageModel::Button { profile, button, kind, value: RawModel::Number(0) }),
        c matches ChangeModel::Led { profile, led, mode, color: Some(x), brightness } ==> (
        stage_call_of(c) matches Ok(call) ==> call == (StageModel::Led {
            profile,
            led,
            mode,
            color: Some(color_of(x)->Ok_0),
            brightness,
        })),
        c matches ChangeModel::Led { profile, led, mode, color: None, brightness } ==> stage_call_of(c)->Ok_0
            == (StageModel::Led { profile, led, mode, color: None, brightness }),
{
}

// ------------------------------------------------------------------------ the device
/// A device after one write: the part that the write names has what it sends.
pub open spec fn written(s: SnapshotModel, call: StageModel) -> SnapshotModel {
    match call {
        StageModel::ProfileDisabled { profile, disabled } => with_profile(
            s,
            profile as int,
            ProfileModel { disabled, ..s.profiles[profile as int] },
        ),
        StageModel::ReportRate { profile, hz } => with_profile(
            s,
            profile as int,
            ProfileModel { report_rate: hz, ..s.profiles[profile as int] },
        ),
        StageModel::SlotDpi { profile, slot, dpi } => {
            let p = s.profiles[profile as int];
            let r = ResolutionModel { dpi: Some(dpi), ..p.resolutions[slot as int] };
            with_profile(
                s,
                profile as int,
                ProfileModel { resolutions: p.resolutions.update(slot as int, r), ..p },
            )
        },
        StageModel::SlotDisabled { profile, slot, disabled } => {
            let p = s.profiles[profile as int];
            let r = ResolutionModel { is_disabled: disabled, ..p.resolutions[slot as int] };
            with_profile(
                s,
                profile as int,
                ProfileModel { resolutions: p.resolutions.update(slot as int, r), ..p },
            )
        },
        StageModel::Button { profile, button, kind, value } => {
            let p = s.profiles[profile as int];
            let b = ButtonModel {
                raw_type: kind,
                raw_value: Some(value),
                action: description(kind, Some(value)),
                ..p.buttons[button as int]
            };
            with_profile(
                s,
                profile as int,
                ProfileModel { buttons: p.buttons.update(button as int, b), ..p },
            )
        },
        StageModel::Led { profile, led, mode, color, brightness } => {
            let p = s.profiles[profile as int];
            let was = p.leds[led as int];
            let l = LedModel {
                mode: if mode is Some {
                    mode->0
                } else {
                    was.mode
                },
                color: if color is Some {
                    color_text(color->0)
                } else {
                    was.color
                },
                brightness: if brightness is Some {
                    brightness->0
                } else {
                    was.brightness
                },
                ..was
            };
            with_profile(s, profile as int, ProfileModel { leds: p.leds.update(led as int, l), ..p })
        },
    }
}

/// A device after writes, in order.
pub open spec fn all_written(s: SnapshotModel, calls: Seq<StageModel>) -> SnapshotModel
    decreases calls.len(),
{
    if calls.len() == 0 {
        s
    } else {
        written(all_written(s, calls.drop_last()), calls.last())
    }
}

/// The writes that were staged.
pub open spec fn staged_writes(r: Seq<Result<StageCall, Error>>) -> Seq<StageModel> {
    Seq::new(r.len(), |i: int| r[i]->Ok_0@)
}

// ------------------------------------------------------------------------ any order
/// A setting of a device.
enum Place {
    Disabled(int),
    Rate(int),
    Dpi(int, int),
    SlotDisabled(int, int),
    Button(int, int),
    Mode(int, int),
    Color(int, int),
    Brightness(int, int),
}

spec fn hits(call: StageModel, place: Place) -> bool {
    match (call, place) {
        (StageModel::ProfileDisabled { profile, .. }, Place::Disabled(i)) => profile == i,
        (StageModel::ReportRate { profile, .. }, Place::Rate(i)) => profile == i,
        (StageModel::SlotDpi { profile, slot, .. }, Place::Dpi(i, j)) => profile == i && slot == j,
        (StageModel::SlotDisabled { profile, slot, .. }, Place::SlotDisabled(i, j)) => profile == i
            && slot == j,
        (StageModel::Button { profile, button, .. }, Place::Button(i, j)) => profile == i && button
            == j,
        (StageModel::Led { profile, led, mode, .. }, Place::Mode(i, j)) => profile == i && led == j
            && mode is Some,
        (StageModel::Led { profile, led, color, .. }, Place::Color(i, j)) => profile == i && led == j
            && color is Some,
        (StageModel::Led { profile, led, brightness, .. }, Place::Brightness(i, j)) => profile == i
            && led == j && brightness is Some,
        _ => false,
    }
}

spec fn touched(calls: Seq<StageModel>, place: Place) -> bool {
    exists|k: int| 0 <= k < calls.len() && hits(#[trigger] calls[k], place)
}

/// The write sends what `t` has, to a part that `c` has.
spec fn fits(c: SnapshotModel, t: SnapshotModel, call: StageModel) -> bool {
    match call {
        StageModel::ProfileDisabled { profile, disabled } => profile < c.profiles.len() && disabled
            == t.profiles[profile as int].disabled,
        StageModel::ReportRate { profile, hz } => profile < c.profiles.len() && hz
            == t.profiles[profile as int].report_rate,
        StageModel::SlotDpi { profile, slot, dpi } => profile < c.profiles.len() && slot
            < c.profiles[profile as int].resolutions.len() && Some(dpi)
            == t.profiles[profile as int].resolutions[slot as int].dpi,
        StageModel::SlotDisabled { profile, slot, disabled } => profile < c.profiles.len() && slot
            < c.profiles[profile as int].resolutions.len() && disabled
            == t.profiles[profile as int].resolutions[slot as int].is_disabled,
        StageModel::Button { profile, button, kind, value } => profile < c.profiles.len() && button
            < c.profiles[profile as int].buttons.len() && kind
            == t.profiles[profile as int].buttons[button as int].raw_type && value == value_for(
            t.profiles[profile as int].buttons[button as int],
        ),
        StageModel::Led { profile, led, mode, color, brightness } => {
            let l = t.profiles[profile as int].leds[led as int];
            &&& profile < c.profiles.len()
            &&& led < c.profiles[profile as int].leds.len()
            &&& mode is Some ==> mode->0 == l.mode
            &&& color is Some ==> color_text(color->0) == l.color
            &&& brightness is Some ==> brightness->0 == l.brightness
        },
    }
}

spec fn value_for(b: ButtonModel) -> RawModel {
    if b.raw_value is Some {
        b.raw_value->0
    } else {
        RawModel::Number(0)
    }
}

spec fn slot_mixed(
    c: ResolutionModel,
    t: ResolutionModel,
    calls: Seq<StageModel>,
    i: int,
    j: int,
) -> ResolutionModel {
    ResolutionModel {
        dpi: if touched(calls, Place::Dpi(i, j)) {
            t.dpi
        } else {
            c.dpi
        },
        is_disabled: if touched(calls, Place::SlotDisabled(i, j)) {
            t.is_disabled
        } else {
            c.is_disabled
        },
        ..c
    }
}

spec fn button_mixed(
    c: ButtonModel,
    t: ButtonModel,
    calls: Seq<StageModel>,
    i: int,
    j: int,
) -> ButtonModel {
    if touched(calls, Place::Button(i, j)) {
        ButtonModel {
            raw_type: t.raw_type,
            raw_value: Some(value_for(t)),
            action: description(t.raw_type, Some(value_for(t))),
            ..c
        }
    } else {
        c
    }
}

spec fn led_mixed(c: LedModel, t: LedModel, calls: Seq<StageModel>, i: int, j: int) -> LedModel {
    LedModel {
        mode: if touched(calls, Place::Mode(i, j)) {
            t.mode
        } else {
            c.mode
        },
        color: if touched(calls, Place::Color(i, j)) {
            t.color
        } else {
            c.color
        },
        brightness: if touched(calls, Place::Brightness(i, j)) {
            t.brightness
        } else {
            c.brightness
        },
        ..c
    }
}

spec fn profile_mixed(c: ProfileModel, t: ProfileModel, calls: Seq<StageModel>, i: int) -> ProfileModel {
    ProfileModel {
        disabled: if touched(calls, Place::Disabled(i)) {
            t.disabled
        } else {
            c.disabled
        },
        report_rate: if touched(calls, Place::Rate(i)) {
            t.report_rate
        } else {
            c.report_rate
        },
        resolutions: Seq::new(
            c.resolutions.len(),
            |j: int| slot_mixed(c.resolutions[j], t.resolutions[j], calls, i, j),
        ),
        buttons: Seq::new(
            c.buttons.len(),
            |j: int| button_mixed(c.buttons[j], t.buttons[j], calls, i, j),
        ),
        leds: Seq::new(c.leds.len(), |j: int| led_mixed(c.leds[j], t.leds[j], calls, i, j)),
        ..c
    }
}

/// The device with what `t` has wherever a write was made.
spec fn mixed(c: SnapshotModel, t: SnapshotModel, calls: Seq<StageModel>) -> SnapshotModel {
    SnapshotModel {
        profiles: Seq::new(
            c.profiles.len(),
            |i: int| profile_mixed(c.profiles[i], t.profiles[i], calls, i),
        ),
        ..c
    }
}

proof fn lemma_touched_more(calls: Seq<StageModel>, place: Place)
    requires
        calls.len() > 0,
    ensures
        touched(calls, place) <==> touched(calls.drop_last(), place) || hits(calls.last(), place),
{
    let init = calls.drop_last();
    if touched(init, place) {
        let k = choose|k: int| 0 <= k < init.len() && hits(#[trigger] init[k], place);
        assert(hits(calls[k], place));
    }
    if hits(calls.last(), place) {
        assert(hits(calls[calls.len() - 1], place));
    }
    if touched(calls, place) && !hits(calls.last(), place) {
        let k = choose|k: int| 0 <= k < calls.len() && hits(#[trigger] calls[k], place);
        assert(hits(init[k], place));
    }
}

/// What one more write makes of a profile.
proof fn lemma_profile_written(
    c: SnapshotModel,
    t: SnapshotModel,
    calls: Seq<StageModel>,
    i: int,
)
    requires
        calls.len() > 0,
        fits(c, t, calls.last()),
        0 <= i < c.profiles.len(),
    ensures
        written(mixed(c, t, calls.drop_last()), calls.last()).profiles[i] == mixed(
            c,
            t,
            calls,
        ).profiles[i],
{
    let init = calls.drop_last();
    let last = calls.last();
    let p = c.profiles[i];
    let q = t.profiles[i];
    let before = profile_mixed(p, q, init, i);
    let now = profile_mixed(p, q, calls, i);
    let made = written(mixed(c, t, init), last).profiles[i];
    assert(mixed(c, t, init).profiles[i] == before);
    lemma_touched_more(calls, Place::Disabled(i));
    lemma_touched_more(calls, Place::Rate(i));
    assert(made.resolutions =~= now.resolutions) by {
        assert(made.resolutions.len() == now.resolutions.len());
        assert forall|j: int| 0 <= j < now.resolutions.len() implies made.resolutions[j]
            == now.resolutions[j] by {
            lemma_touched_more(calls, Place::Dpi(i, j));
            lemma_touched_more(calls, Place::SlotDisabled(i, j));
            assert(before.resolutions[j] == slot_mixed(p.resolutions[j], q.resolutions[j], init, i, j));
        }
    }
    assert(made.buttons =~= now.buttons) by {
        assert(made.buttons.len() == now.buttons.len());
        assert forall|j: int| 0 <= j < now.buttons.len() implies made.buttons[j] == now.buttons[j] by {
            lemma_touched_more(calls, Place::Button(i, j));
            assert(before.buttons[j] == button_mixed(p.buttons[j], q.buttons[j], init, i, j));
        }
    }
    assert(made.leds =~= now.leds) by {
        assert(made.leds.len() == now.leds.len());
        assert forall|j: int| 0 <= j < now.leds.len() implies made.leds[j] == now.leds[j] by {
            lemma_touched_more(calls, Place::Mode(i, j));
            lemma_touched_more(calls, Place::Color(i, j));
            lemma_touched_more(calls, Place::Brightness(i, j));
            assert(before.leds[j] == led_mixed(p.leds[j], q.leds[j], init, i, j));
        }
    }
    assert(made == now);
}

/// Writes that send what `t` has leave it wherever they were made.
proof fn lemma_all_written(c: SnapshotModel, t: SnapshotModel, calls: Seq<StageModel>)
    requires
        forall|k: int| 0 <= k < calls.len() ==> fits(c, t, #[trigger] calls[k]),
    ensures
        all_written(c, calls) == mixed(c, t, calls),
    decreases calls.len(),
{
    if calls.len() == 0 {
        let m = mixed(c, t, calls);
        assert forall|i: int| 0 <= i < c.profiles.len() implies #[trigger] m.profiles[i]
            == c.profiles[i] by {
            let p = c.profiles[i];
            assert(m.profiles[i].resolutions =~= p.resolutions);
            assert(m.profiles[i].buttons =~= p.buttons);
            assert(m.profiles[i].leds =~= p.leds);
        }
        assert(m.profiles =~= c.profiles);
    } else {
        let init = calls.drop_last();
        assert forall|k: int| 0 <= k < init.len() implies fits(c, t, #[trigger] init[k]) by {
            assert(init[k] == calls[k]);
        }
        lemma_all_written(c, t, init);
        assert(fits(c, t, calls[calls.len() - 1]));
        let made = written(mixed(c, t, init), calls.last());
        let now = mixed(c, t, calls);
        assert(made.profiles.len() == now.profiles.len());
        assert forall|i: int| 0 <= i < now.profiles.len() implies made.profiles[i]
            == now.profiles[i] by {
            lemma_profile_written(c, t, calls, i);
        }
        assert(made.profiles =~= now.profiles);
    }
}

/// Which settings the writes are to does not depend on their order.
proof fn lemma_same_settings(
    c: SnapshotModel,
    t: SnapshotModel,
    a: Seq<StageModel>,
    b: Seq<StageModel>,
)
    requires
        forall|k: int| 0 <= k < a.len() ==> b.contains(#[trigger] a[k]),
        forall|k: int| 0 <= k < b.len() ==> a.contains(#[trigger] b[k]),
    ensures
        mixed(c, t, a) == mixed(c, t, b),
{
    assert forall|place: Place| touched(a, place) == touched(b, place) by {
        if touched(a, place) {
            let k = choose|k: int| 0 <= k < a.len() && hits(#[trigger] a[k], place);
            assert(b.contains(a[k]));
            let m = choose|m: int| 0 <= m < b.len() && b[m] == a[k];
            assert(hits(b[m], place));
        }
        if touched(b, place) {
            let k = choose|k: int| 0 <= k < b.len() && hits(#[trigger] b[k], place);
            assert(a.contains(b[k]));
            let m = choose|m: int| 0 <= m < a.len() && a[m] == b[k];
            assert(hits(a[m], place));
        }
    }
    let x = mixed(c, t, a);
    let y = mixed(c, t, b);
    assert forall|i: int| 0 <= i < c.profiles.len() implies #[trigger] x.profiles[i]
        == y.profiles[i] by {
        assert(x.profiles[i].resolutions =~= y.profiles[i].resolutions);
        assert(x.profiles[i].buttons =~= y.profiles[i].buttons);
        assert(x.profiles[i].leds =~= y.profiles[i].leds);
    }
    assert(x.profiles =~= y.profiles);
}

// --------------------------------------------------------------------- plan and writes
/// Both are the same device, but for the value of buttons that do nothing.
pub open spec fn alike(a: SnapshotModel, b: SnapshotModel) -> bool {
    &&& a.name == b.name
    &&& a.model == b.model
    &&& a.profiles.len() == b.profiles.len()
    &&& forall|i: int|
        0 <= i < a.profiles.len() ==> {
            let p = #[trigger] a.profiles[i];
            let q = b.profiles[i];
            &&& p.index == q.index
            &&& p.disabled == q.disabled
            &&& p.is_active == q.is_active
            &&& p.report_rate == q.report_rate
            &&& p.report_rates == q.report_rates
            &&& p.capabilities == q.capabilities
            &&& p.resolutions == q.resolutions
            &&& p.leds == q.leds
            &&& p.buttons.len() == q.buttons.len()
        }
    &&& forall|i: int, j: int|
        0 <= i < a.profiles.len() && 0 <= j < a.profiles[i].buttons.len() ==> {
            let p = #[trigger] a.profiles[i].buttons[j];
            let q = b.profiles[i].buttons[j];
            &&& p.index == q.index
            &&& p.action_types == q.action_types
            &&& p.action == q.action
            &&& p.raw_type == q.raw_type
            &&& p.raw_type != 0 ==> p.raw_value == q.raw_value
        }
}

/// A write makes of a device what the change makes of it.
proof fn lemma_written_is_changed(a: SnapshotModel, b: SnapshotModel, change: ChangeModel)
    requires
        alike(a, b),
        profile_of(change) < b.profiles.len(),
        is_supported(b.profiles[profile_of(change) as int], change),
    ensures
        stage_call_of(change) is Ok,
        alike(written(a, stage_call_of(change)->Ok_0), changed(b, change, Spelling::Plain)),
{
    let n = profile_of(change) as int;
    let call = stage_call_of(change)->Ok_0;
    let x = written(a, call);
    let y = changed(b, change, Spelling::Plain);
    assert(a.profiles[n].buttons.len() == b.profiles[n].buttons.len());
    assert forall|i: int| 0 <= i < x.profiles.len() implies ({
        let p = #[trigger] x.profiles[i];
        let q = y.profiles[i];
        &&& p.index == q.index
        &&& p.disabled == q.disabled
        &&& p.is_active == q.is_active
        &&& p.report_rate == q.report_rate
        &&& p.report_rates == q.report_rates
        &&& p.capabilities == q.capabilities
        &&& p.resolutions == q.resolutions
        &&& p.leds == q.leds
        &&& p.buttons.len() == q.buttons.len()
    }) by {
        assert(a.profiles[i].index == b.profiles[i].index);
    }
    assert forall|i: int, j: int| 0 <= i < x.profiles.len() && 0 <= j < x.profiles[i].buttons.len() implies ({
        let p = #[trigger] x.profiles[i].buttons[j];
        let q = y.profiles[i].buttons[j];
        &&& p.index == q.index
        &&& p.action_types == q.action_types
        &&& p.action == q.action
        &&& p.raw_type == q.raw_type
        &&& p.raw_type != 0 ==> p.raw_value == q.raw_value
    }) by {
        assert(a.profiles[i].index == b.profiles[i].index);
        assert(a.profiles[i].buttons[j].index == b.profiles[i].buttons[j].index);
    }
}

/// What a device supports does not change with its settings.
proof fn lemma_keeps_support(
    s: SnapshotModel,
    plan: Seq<PlannedModel>,
    change: ChangeModel,
)
    requires
        profile_of(change) < s.profiles.len(),
        is_supported(s.profiles[profile_of(change) as int], change),
        forall|k: int|
            0 <= k < plan.len() ==> profile_of((#[trigger] plan[k]).change) < s.profiles.len()
                && is_supported(s.profiles[profile_of(plan[k].change) as int], plan[k].change),
    ensures
        carried_out(s, plan, Spelling::Plain).profiles.len() == s.profiles.len(),
        is_supported(
            carried_out(s, plan, Spelling::Plain).profiles[profile_of(change) as int],
            change,
        ),
    decreases plan.len(),
{
    if plan.len() > 0 {
        let init = plan.drop_last();
        assert forall|k: int| 0 <= k < init.len() implies profile_of((#[trigger] init[k]).change)
            < s.profiles.len() && is_supported(
            s.profiles[profile_of(init[k].change) as int],
            init[k].change,
        ) by {
            assert(init[k] == plan[k]);
        }
        lemma_keeps_support(s, init, change);
        let last = plan[plan.len() - 1];
        lemma_keeps_support(s, init, last.change);
    }
}

/// Each change of a plan has a write.
proof fn lemma_plan_has_writes(c: SnapshotModel, t: SnapshotModel, k: int)
    requires
        is_numbered(c),
        spells_colors(c, t),
        plan_of(c, t) is Ok,
        0 <= k < plan_of(c, t)->Ok_0.len(),
    ensures
        ({
            let change = plan_of(c, t)->Ok_0[k].change;
            &&& profile_of(change) < c.profiles.len()
            &&& is_supported(c.profiles[profile_of(change) as int], change)
            &&& stage_call_of(change) is Ok
            &&& fits(c, t, stage_call_of(change)->Ok_0)
        }),
{
    let change = plan_of(c, t)->Ok_0[k].change;
    planned_changes_are_supported(c, t, k);
    every_planned_change_is_a_difference(c, t, k);
    let i = profile_of(change) as int;
    assert(c.profiles[i].index == i);
    assert(is_difference(c.profiles[i], t.profiles[i], change));
    match change {
        ChangeModel::Led { led, color: Some(x), .. } => {
            let l = t.profiles[i].leds[led as int];
            assert(l.color == x);
            assert(normal_color(t.profiles[i].leds[led as int].color) is Ok);
            assert(color_text(color_of(x)->Ok_0) == x);
        },
        _ => {},
    }
}

/// The writes for a plan, in the order of the plan.
spec fn plan_writes(plan: Seq<PlannedModel>) -> Seq<StageModel> {
    Seq::new(plan.len(), |k: int| stage_call_of(plan[k].change)->Ok_0)
}

proof fn lemma_plan_written(c: SnapshotModel, plan: Seq<PlannedModel>)
    requires
        forall|k: int|
            0 <= k < plan.len() ==> profile_of((#[trigger] plan[k]).change) < c.profiles.len()
                && is_supported(c.profiles[profile_of(plan[k].change) as int], plan[k].change),
    ensures
        alike(all_written(c, plan_writes(plan)), carried_out(c, plan, Spelling::Plain)),
    decreases plan.len(),
{
    if plan.len() > 0 {
        let init = plan.drop_last();
        assert forall|k: int| 0 <= k < init.len() implies profile_of((#[trigger] init[k]).change)
            < c.profiles.len() && is_supported(
            c.profiles[profile_of(init[k].change) as int],
            init[k].change,
        ) by {
            assert(init[k] == plan[k]);
        }
        lemma_plan_written(c, init);
        let last = plan[plan.len() - 1];
        lemma_keeps_support(c, init, last.change);
        assert(plan_writes(plan).drop_last() =~= plan_writes(init));
        lemma_written_is_changed(
            all_written(c, plan_writes(init)),
            carried_out(c, init, Spelling::Plain),
            last.change,
        );
    }
}

/// `r` is what is staged for a plan.
pub open spec fn is_staged(r: Seq<Result<StageCall, Error>>, plan: Seq<PlannedModel>) -> bool {
    &&& r.len() == staging_order(plan).len()
    &&& forall|i: int|
        0 <= i < r.len() ==> is_outcome_of(
            #[trigger] r[i],
            stage_call_of(plan[staging_order(plan)[i] as int].change),
        )
}

/// What is staged for a plan are writes, none fails; a device that carries them out in their
/// order is in the state of one that carries out the changes of the plan, but for the value
/// of buttons that do nothing; it has every restored setting of the target, all else as it
/// was, and nothing is left to write.
pub proof fn staged_writes_restore_the_target(
    c: SnapshotModel,
    t: SnapshotModel,
    r: Seq<Result<StageCall, Error>>,
)
    requires
        is_numbered(c),
        spells_colors(c, t),
        plan_of(c, t) is Ok,
        is_staged(r, plan_of(c, t)->Ok_0),
    ensures
        forall|i: int| 0 <= i < r.len() ==> #[trigger] r[i] is Ok,
        alike(
            all_written(c, staged_writes(r)),
            carried_out(c, plan_of(c, t)->Ok_0, Spelling::Plain),
        ),
        is_restored(all_written(c, staged_writes(r)), c, t),
        plan_of(all_written(c, staged_writes(r)), t) == nothing(),
{
    let plan = plan_of(c, t)->Ok_0;
    let order = staging_order(plan);
    let a = plan_writes(plan);
    let b = staged_writes(r);
    staging_is_ordered(plan);
    assert forall|k: int| 0 <= k < plan.len() implies profile_of((#[trigger] plan[k]).change)
        < c.profiles.len() && is_supported(
        c.profiles[profile_of(plan[k].change) as int],
        plan[k].change,
    ) by {
        lemma_plan_has_writes(c, t, k);
    }
    assert forall|k: int| 0 <= k < a.len() implies fits(c, t, #[trigger] a[k]) by {
        lemma_plan_has_writes(c, t, k);
    }
    assert forall|i: int| 0 <= i < b.len() implies #[trigger] b[i] == a[order[i] as int] && r[i] is Ok by {
        assert(order[i] < plan.len());
        lemma_plan_has_writes(c, t, order[i] as int);
        assert(is_outcome_of(r[i], stage_call_of(plan[order[i] as int].change)));
    }
    assert forall|i: int| 0 <= i < r.len() implies #[trigger] r[i] is Ok by {
        assert(b[i] == a[order[i] as int]);
    }
    assert forall|k: int| 0 <= k < b.len() implies fits(c, t, #[trigger] b[k]) && a.contains(b[k]) by {
        assert(order[k] < plan.len());
        assert(b[k] == a[order[k] as int]);
    }
    assert forall|k: int| 0 <= k < a.len() implies b.contains(#[trigger] a[k]) by {
        assert(order.contains(k as nat));
        let i = choose|i: int| 0 <= i < order.len() && order[i] == k as nat;
        assert(b[i] == a[k]);
    }
    lemma_all_written(c, t, a);
    lemma_all_written(c, t, b);
    lemma_same_settings(c, t, a, b);
    lemma_plan_written(c, plan);
    a_carried_out_plan_restores_the_target(c, t);
    lemma_alike_restored(
        all_written(c, b),
        carried_out(c, plan, Spelling::Plain),
        c,
        t,
    );
    lemma_restored_is_done(all_written(c, b), c, t);
}

proof fn lemma_alike_restored(a: SnapshotModel, b: SnapshotModel, c: SnapshotModel, t: SnapshotModel)
    requires
        alike(a, b),
        is_restored(b, c, t),
    ensures
        is_restored(a, c, t),
{
    assert forall|i: int| 0 <= i < a.profiles.len() implies (#[trigger] a.profiles[i]).disabled
        == t.profiles[i].disabled && a.profiles[i].report_rate == t.profiles[i].report_rate
        && a.profiles[i].index == c.profiles[i].index && a.profiles[i].is_active
        == c.profiles[i].is_active && a.profiles[i].report_rates == c.profiles[i].report_rates
        && a.profiles[i].capabilities == c.profiles[i].capabilities && a.profiles[i].resolutions.len()
        == c.profiles[i].resolutions.len() && a.profiles[i].buttons.len()
        == c.profiles[i].buttons.len() && a.profiles[i].leds.len() == c.profiles[i].leds.len() by {
        assert(b.profiles[i].disabled == t.profiles[i].disabled);
    }
    assert forall|i: int, j: int|
        0 <= i < a.profiles.len() && 0 <= j < a.profiles[i].resolutions.len() implies (
    #[trigger] a.profiles[i].resolutions[j]) == b.profiles[i].resolutions[j] by {
        assert(a.profiles[i].resolutions == b.profiles[i].resolutions);
    }
    assert forall|i: int, j: int|
        0 <= i < a.profiles.len() && 0 <= j < a.profiles[i].leds.len() implies (
    #[trigger] a.profiles[i].leds[j]) == b.profiles[i].leds[j] by {
        assert(a.profiles[i].leds == b.profiles[i].leds);
    }
    assert forall|i: int, j: int|
        0 <= i < a.profiles.len() && 0 <= j < a.profiles[i].buttons.len() implies ({
        let x = #[trigger] a.profiles[i].buttons[j];
        let y = b.profiles[i].buttons[j];
        x.index == y.index && x.action_types == y.action_types && x.action == y.action && x.raw_type
            == y.raw_type && (x.raw_type != 0 ==> x.raw_value == y.raw_value)
    }) by {
        assert(a.profiles[i].buttons.len() == b.profiles[i].buttons.len());
    }
}

proof fn lemma_restored_is_done(s: SnapshotModel, c: SnapshotModel, t: SnapshotModel)
    requires
        is_numbered(c),
        plan_of(c, t) is Ok,
        is_restored(s, c, t),
    ensures
        plan_of(s, t) == nothing(),
{
    there_is_a_plan_exactly_for_what_is_supported(c, t);
    an_empty_plan_means_the_targets_settings(s, t);
    assert forall|i: int| 0 <= i < s.profiles.len() implies (#[trigger] s.profiles[i]).index
        == t.profiles[i].index && s.profiles[i].disabled == t.profiles[i].disabled
        && s.profiles[i].report_rate == t.profiles[i].report_rate && s.profiles[i].resolutions.len()
        == t.profiles[i].resolutions.len() && s.profiles[i].buttons.len()
        == t.profiles[i].buttons.len() && s.profiles[i].leds.len() == t.profiles[i].leds.len() by {
        assert(can_become(c.profiles[i], t.profiles[i]));
    }
}

/// Every change of a plan is staged once: those that enable a profile first, those that
/// disable one last, and each of these and the others in the order of the plan.
pub proof fn profiles_are_enabled_first_and_disabled_last(plan: Seq<PlannedModel>, i: int, j: int)
    requires
        0 <= i < j < staging_order(plan).len(),
    ensures
        staging_order(plan).len() == plan.len(),
        ({
            let a = staging_order(plan)[i];
            let b = staging_order(plan)[j];
            let x = plan[a as int].change;
            let y = plan[b as int].change;
            let enables = |c: ChangeModel| c matches ChangeModel::ProfileDisabled { to, .. } && !to;
            let disables = |c: ChangeModel| c matches ChangeModel::ProfileDisabled { to, .. } && to;
            &&& a < plan.len() && b < plan.len() && a != b
            &&& enables(y) ==> enables(x)
            &&& disables(x) ==> disables(y)
            &&& enables(x) == enables(y) && disables(x) == disables(y) ==> a < b
        }),
{
    staging_is_ordered(plan);
    let order = staging_order(plan);
    assert(order.no_duplicates()) by {
        assert forall|k: int, m: int|
            0 <= k < order.len() && 0 <= m < order.len() && k != m implies order[k] != order[m] by {
            if k < m {
                assert(order[k] != order[m]);
            } else {
                assert(order[m] != order[k]);
            }
        }
    }
    order.unique_seq_to_set();
    let all = Set::new(|m: nat| m < plan.len());
    assert(order.to_set() =~= all) by {
        assert forall|m: nat| all.contains(m) implies order.to_set().contains(m) by {
            assert(order.contains(m));
        }
    }
    lemma_count_below(plan.len());
}

proof fn lemma_count_below(n: nat)
    ensures
        Set::new(|m: nat| m < n).finite(),
        Set::new(|m: nat| m < n).len() == n,
    decreases n,
{
    let all = Set::new(|m: nat| m < n);
    if n == 0 {
        assert(all =~= Set::empty());
    } else {
        let less = Set::new(|m: nat| m < n - 1);
        lemma_count_below((n - 1) as nat);
        assert(less =~= Set::new(|m: nat| m < (n - 1) as nat));
        assert(all =~= less.insert((n - 1) as nat));
    }
}

} // verus!
