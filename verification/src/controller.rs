//! The shared DPI of the synced profiles: what has to hold before it is written, and the
//! write that puts it into every slot.

use crate::config::{holds, Config, ConfigModel};
use crate::dpi::outcome;
use crate::error::{failure, within, Error, Failure};
use crate::text::{dec, push_dec, views};
use vstd::prelude::*;

verus! {

/// The values that every list has, in the order of the first.
pub open spec fn common(lists: Seq<Seq<u32>>) -> Seq<u32>
    decreases lists.len(),
{
    if lists.len() == 0 {
        Seq::empty()
    } else if lists.len() == 1 {
        lists[0]
    } else {
        kept(common(lists.drop_last()), lists.last())
    }
}

/// The values of `a` that `b` has.
pub open spec fn kept(a: Seq<u32>, b: Seq<u32>) -> Seq<u32>
    decreases a.len(),
{
    if a.len() == 0 {
        Seq::empty()
    } else if b.contains(a.last()) {
        kept(a.drop_last(), b).push(a.last())
    } else {
        kept(a.drop_last(), b)
    }
}

fn keep(a: &Vec<u32>, b: &Vec<u32>) -> (r: Vec<u32>)
    ensures
        r@ == kept(a@, b@),
{
    let mut out: Vec<u32> = Vec::new();
    let mut i: usize = 0;
    while i < a.len()
        invariant
            i <= a.len(),
            out@ == kept(a@.take(i as int), b@),
        decreases a.len() - i,
    {
        if holds(b, a[i]) {
            out.push(a[i]);
        }
        i += 1;
        assert(a@.take(i as int).drop_last() =~= a@.take(i - 1));
    }
    assert(a@.take(a@.len() as int) =~= a@);
    out
}

/// The first stage that a slot does not accept.
pub open spec fn first_missing(stages: Seq<u32>, accepted: Seq<u32>) -> Option<u32>
    decreases stages.len(),
{
    if stages.len() == 0 {
        None
    } else if !accepted.contains(stages[0]) {
        Some(stages[0])
    } else {
        first_missing(stages.skip(1), accepted)
    }
}

fn missing(stages: &Vec<u32>, accepted: &Vec<u32>) -> (r: Option<u32>)
    ensures
        r == first_missing(stages@, accepted@),
{
    let mut i: usize = 0;
    assert(stages@.skip(0) =~= stages@);
    while i < stages.len()
        invariant
            i <= stages.len(),
            first_missing(stages@, accepted@) == first_missing(stages@.skip(i as int), accepted@),
        decreases stages.len() - i,
    {
        if !holds(accepted, stages[i]) {
            return Some(stages[i]);
        }
        assert(stages@.skip(i as int).skip(1) =~= stages@.skip(i + 1));
        i += 1;
    }
    None
}

/// `profile P slot S`.
pub open spec fn slot_name(profile: u32, slot: u32) -> Seq<char> {
    "profile "@ + dec(profile as nat) + " slot "@ + dec(slot as nat)
}

fn slot_text(profile: u32, slot: u32) -> (r: String)
    ensures
        r@ == slot_name(profile, slot),
{
    let mut s = "profile ".to_owned();
    push_dec(&mut s, profile as u64);
    s.append(" slot ");
    push_dec(&mut s, slot as u64);
    s
}

/// What was read of the shared slot of a synced profile, or why it could not be.
pub struct SlotReading {
    /// Whether the profile is disabled.
    pub disabled: Result<bool, Error>,
    /// The slot itself.
    pub slot: Result<(), Error>,
    pub dpi: Result<u32, Error>,
    /// The DPI values that the slot accepts.
    pub accepts: Result<Vec<u32>, Error>,
}

#[verifier::ext_equal]
pub struct SlotReadingModel {
    pub disabled: Result<bool, Failure>,
    pub slot: Result<(), Failure>,
    pub dpi: Result<u32, Failure>,
    pub accepts: Result<Seq<u32>, Failure>,
}

impl View for SlotReading {
    type V = SlotReadingModel;

    open spec fn view(&self) -> SlotReadingModel {
        SlotReadingModel {
            disabled: outcome(self.disabled),
            slot: outcome(self.slot),
            dpi: outcome(self.dpi),
            accepts: match self.accepts {
                Ok(v) => Ok(v@),
                Err(e) => Err(e@),
            },
        }
    }
}

/// What a synced slot accepts, on a device `name` with `count` profiles; the first reason
/// against writing to it otherwise.
pub open spec fn accepted_by(
    name: Seq<char>,
    count: nat,
    c: ConfigModel,
    profile: u32,
    r: SlotReadingModel,
) -> Result<Seq<u32>, Failure> {
    if profile >= count {
        Err(failure(name + ": no profile "@ + dec(profile as nat)))
    } else {
        match (r.disabled, r.slot, r.dpi, r.accepts) {
            (Err(f), _, _, _) => Err(f),
            (Ok(true), _, _, _) => Err(
                failure("profile "@ + dec(profile as nat) + " is disabled on the device"@),
            ),
            (_, Err(f), _, _) => Err(f),
            (_, _, Err(f), _) => Err(within(slot_name(profile, c.dpi.shared_slot), f)),
            (_, _, _, Err(f)) => Err(f),
            (_, _, _, Ok(here)) => match first_missing(c.dpi.values, here) {
                Some(bad) => Err(
                    failure(
                        dec(bad as nat) + " DPI is not supported by "@ + slot_name(
                            profile,
                            c.dpi.shared_slot,
                        ),
                    ),
                ),
                None => Ok(here),
            },
        }
    }
}

/// What each synced slot accepts; the first reason against one of them otherwise.
pub open spec fn all_accepted(
    name: Seq<char>,
    count: nat,
    c: ConfigModel,
    readings: Seq<SlotReadingModel>,
) -> Result<Seq<Seq<u32>>, Failure>
    decreases readings.len(),
{
    if readings.len() == 0 {
        Ok(Seq::empty())
    } else {
        match all_accepted(name, count, c, readings.drop_last()) {
            Err(f) => Err(f),
            Ok(lists) => match accepted_by(
                name,
                count,
                c,
                c.dpi.profiles[readings.len() - 1],
                readings.last(),
            ) {
                Err(f) => Err(f),
                Ok(here) => Ok(lists.push(here)),
            },
        }
    }
}

proof fn lemma_first_failure_stands(
    name: Seq<char>,
    count: nat,
    c: ConfigModel,
    readings: Seq<SlotReadingModel>,
    k: int,
)
    requires
        0 <= k <= readings.len(),
        all_accepted(name, count, c, readings.take(k)) is Err,
    ensures
        all_accepted(name, count, c, readings) == all_accepted(name, count, c, readings.take(k)),
    decreases readings.len() - k,
{
    if k < readings.len() {
        assert(readings.take(k + 1).drop_last() =~= readings.take(k));
        lemma_first_failure_stands(name, count, c, readings, k + 1);
    } else {
        assert(readings.take(k) =~= readings);
    }
}

/// A device whose synced slots have been checked: the only safety check before the shared
/// DPI is written to the mouse.
pub struct Controller {
    name: String,
    /// DPI values every admitted slot accepts; none before the first slot.
    supported: Option<Vec<u32>>,
    slots: Ghost<Seq<Seq<u32>>>,
}

impl Controller {
    #[verifier::type_invariant]
    spec fn is_consistent(self) -> bool {
        match self.supported {
            None => self.slots@.len() == 0,
            Some(v) => self.slots@.len() > 0 && v@ == common(self.slots@),
        }
    }

    /// The values that each admitted slot accepts.
    pub closed spec fn admitted(self) -> Seq<Seq<u32>> {
        self.slots@
    }

    pub closed spec fn named(self) -> Seq<char> {
        self.name@
    }

    /// The device `name` with `count` profiles, once every configured stage is a DPI that
    /// the shared slot of every synced profile accepts, as was read of them.
    pub fn connect(name: String, count: usize, cfg: &Config, readings: Vec<SlotReading>) -> (r:
        Result<Controller, Error>)
        requires
            readings@.len() == cfg@.dpi.profiles.len(),
        ensures
            match (r, all_accepted(name@, count as nat, cfg@, views(readings@))) {
                (Ok(c), Ok(lists)) => c.named() == name@ && c.admitted() == lists,
                (Err(e), Err(f)) => e@ == f,
                _ => false,
            },
    {
        let ghost all = views(readings@);
        let ghost given = readings@;
        let ghost named = name@;
        let mut rest = readings;
        let mut c = Controller { name, supported: None, slots: Ghost(Seq::empty()) };
        let mut i: usize = 0;
        assert(all.take(0) =~= Seq::empty());
        assert(given.skip(0) =~= given);
        while i < cfg.dpi.profiles.len()
            invariant
                i <= cfg.dpi.profiles.len(),
                cfg@.dpi.profiles.len() == given.len(),
                given == readings@,
                named == name@,
                all == views(given),
                rest@ == given.skip(i as int),
                c.named() == named,
                all_accepted(named, count as nat, cfg@, all.take(i as int)) == Ok::<
                    Seq<Seq<u32>>,
                    Failure,
                >(c.admitted()),
            decreases cfg.dpi.profiles.len() - i,
        {
            let reading = rest.remove(0);
            assert(reading@ == all[i as int]);
            assert(all.take(i + 1).drop_last() =~= all.take(i as int));
            assert(given.skip(i as int).remove(0) =~= given.skip(i + 1));
            match c.add_slot(count, cfg, cfg.dpi.profiles[i], reading) {
                Err(e) => {
                    proof {
                        lemma_first_failure_stands(named, count as nat, cfg@, all, i + 1);
                    }
                    return Err(e);
                },
                Ok(next) => {
                    c = next;
                },
            }
            i += 1;
        }
        assert(all.take(i as int) =~= all);
        Ok(c)
    }

    /// The device with the shared slot of one more synced profile.
    fn add_slot(self, count: usize, cfg: &Config, profile: u32, reading: SlotReading) -> (r: Result<
        Controller,
        Error,
    >)
        ensures
            match (r, accepted_by(self.named(), count as nat, cfg@, profile, reading@)) {
                (Ok(c), Ok(here)) => c.named() == self.named() && c.admitted()
                    == self.admitted().push(here),
                (Err(e), Err(f)) => e@ == f,
                _ => false,
            },
    {
        if profile as usize >= count {
            let mut m = self.name.clone();
            m.append(": no profile ");
            push_dec(&mut m, profile as u64);
            return Err(Error::new(m));
        }
        match reading.disabled {
            Err(e) => {
                return Err(e);
            },
            Ok(true) => {
                let mut m = "profile ".to_owned();
                push_dec(&mut m, profile as u64);
                m.append(" is disabled on the device");
                return Err(Error::new(m));
            },
            Ok(false) => {},
        }
        if let Err(e) = reading.slot {
            return Err(e);
        }
        if let Err(e) = reading.dpi {
            return Err(e.context(slot_text(profile, cfg.dpi.shared_slot)));
        }
        match reading.accepts {
            Err(e) => Err(e),
            Ok(here) => self.accept(&cfg.dpi.values, profile, cfg.dpi.shared_slot, here),
        }
    }

    /// Accept the shared slot of a synced profile, which accepts the values `here`: every
    /// configured stage has to be one of them.
    fn accept(self, stages: &Vec<u32>, profile: u32, slot: u32, here: Vec<u32>) -> (r: Result<
        Controller,
        Error,
    >)
        ensures
            match (r, first_missing(stages@, here@)) {
                (Ok(c), None) => c.named() == self.named() && c.admitted() == self.admitted().push(
                    here@,
                ),
                (Err(e), Some(bad)) => e@ == failure(
                    dec(bad as nat) + " DPI is not supported by "@ + slot_name(profile, slot),
                ),
                _ => false,
            },
    {
        proof {
            use_type_invariant(&self);
        }
        if let Some(bad) = missing(stages, &here) {
            let mut m = String::new();
            push_dec(&mut m, bad as u64);
            m.append(" DPI is not supported by ");
            let at = slot_text(profile, slot);
            m.append(at.as_str());
            assert(m@ =~= dec(bad as nat) + " DPI is not supported by "@ + slot_name(profile, slot));
            return Err(Error::new(m));
        }
        let ghost slots = self.slots@.push(here@);
        assert(slots.drop_last() =~= self.slots@);
        match &self.supported {
            None => {
                assert(slots.len() == 1);
                Ok(Controller { name: self.name, supported: Some(here), slots: Ghost(slots) })
            },
            Some(before) => {
                let both = keep(before, &here);
                Ok(Controller { name: self.name, supported: Some(both), slots: Ghost(slots) })
            },
        }
    }

    /// Whether every admitted slot accepts `dpi`; none does before one is admitted.
    pub fn is_supported(&self, dpi: u32) -> (r: bool)
        ensures
            r == common(self.admitted()).contains(dpi),
    {
        proof {
            use_type_invariant(self);
        }
        match &self.supported {
            None => false,
            Some(v) => holds(v, dpi),
        }
    }

    pub fn device_name(&self) -> (r: &str)
        ensures
            r@ == self.named(),
    {
        self.name.as_str()
    }
}

// ---------------------------------------------------------------------------- laws
proof fn lemma_kept(a: Seq<u32>, b: Seq<u32>, d: u32)
    ensures
        kept(a, b).contains(d) <==> a.contains(d) && b.contains(d),
    decreases a.len(),
{
    if a.len() > 0 {
        let init = a.drop_last();
        lemma_kept(init, b, d);
        if a.contains(d) {
            let i = choose|i: int| 0 <= i < a.len() && a[i] == d;
            if i < init.len() {
                assert(init[i] == d);
            }
        }
        if init.contains(d) {
            let i = choose|i: int| 0 <= i < init.len() && init[i] == d;
            assert(a[i] == d);
        }
        if kept(init, b).contains(d) {
            let i = choose|i: int| 0 <= i < kept(init, b).len() && kept(init, b)[i] == d;
            assert(b.contains(a.last()) ==> kept(a, b)[i] == d);
        }
        if d == a.last() && b.contains(d) {
            assert(kept(a, b)[kept(init, b).len() as int] == d);
            assert(a[a.len() - 1] == d);
        }
        if kept(a, b).contains(d) && !kept(init, b).contains(d) {
            let i = choose|i: int| 0 <= i < kept(a, b).len() && kept(a, b)[i] == d;
            assert(i == kept(init, b).len() ==> d == a.last());
            assert(i < kept(init, b).len() ==> kept(init, b)[i] == d);
            assert(a[a.len() - 1] == d);
        }
    }
}

/// A value is supported exactly where every admitted slot accepts it.
pub proof fn supported_by_all_admitted_slots(lists: Seq<Seq<u32>>, d: u32)
    requires
        lists.len() > 0,
    ensures
        common(lists).contains(d) <==> forall|i: int|
            0 <= i < lists.len() ==> (#[trigger] lists[i]).contains(d),
    decreases lists.len(),
{
    if lists.len() > 1 {
        let init = lists.drop_last();
        supported_by_all_admitted_slots(init, d);
        lemma_kept(common(init), lists.last(), d);
        if forall|i: int| 0 <= i < lists.len() ==> (#[trigger] lists[i]).contains(d) {
            assert forall|i: int| 0 <= i < init.len() implies (#[trigger] init[i]).contains(d) by {
                assert(init[i] == lists[i]);
            }
            assert(lists[lists.len() - 1].contains(d));
        }
        if common(lists).contains(d) {
            assert forall|i: int| 0 <= i < lists.len() implies (#[trigger] lists[i]).contains(d) by {
                if i < init.len() {
                    assert(init[i] == lists[i]);
                }
            }
        }
    } else {
        assert(lists[0] == common(lists));
    }
}

proof fn lemma_nothing_missing(stages: Seq<u32>, accepted: Seq<u32>, i: int)
    requires
        first_missing(stages, accepted) is None,
        0 <= i < stages.len(),
    ensures
        accepted.contains(stages[i]),
    decreases stages.len(),
{
    if i > 0 {
        lemma_nothing_missing(stages.skip(1), accepted, i - 1);
        assert(stages.skip(1)[i - 1] == stages[i]);
    }
}

/// Every profile exists, is enabled and shows a DPI, and its slot accepts every stage.
proof fn lemma_all_accepted(
    name: Seq<char>,
    count: nat,
    c: ConfigModel,
    readings: Seq<SlotReadingModel>,
    k: int,
)
    requires
        all_accepted(name, count, c, readings) is Ok,
        0 <= k < readings.len(),
    ensures
        all_accepted(name, count, c, readings)->Ok_0.len() == readings.len(),
        accepted_by(name, count, c, c.dpi.profiles[k], readings[k]) == Ok::<Seq<u32>, Failure>(
            all_accepted(name, count, c, readings)->Ok_0[k],
        ),
    decreases readings.len(),
{
    let before = readings.drop_last();
    if k < before.len() {
        lemma_all_accepted(name, count, c, before, k);
        assert(before[k] == readings[k]);
    } else if before.len() > 0 {
        lemma_all_accepted(name, count, c, before, 0);
    }
}

/// A connected device has every synced profile, enabled and with a readable DPI, and every
/// stage is a DPI that the hardware accepts in all of them.
pub proof fn a_connected_device_takes_every_stage(
    name: Seq<char>,
    count: nat,
    c: ConfigModel,
    readings: Seq<SlotReadingModel>,
)
    requires
        readings.len() == c.dpi.profiles.len(),
        readings.len() > 0,
        all_accepted(name, count, c, readings) is Ok,
    ensures
        forall|k: int|
            0 <= k < readings.len() ==> c.dpi.profiles[k] < count && (#[trigger] readings[k]).disabled
                == Ok::<bool, Failure>(false) && readings[k].dpi is Ok,
        forall|i: int|
            0 <= i < c.dpi.values.len() ==> common(
                all_accepted(name, count, c, readings)->Ok_0,
            ).contains(#[trigger] c.dpi.values[i]),
{
    let lists = all_accepted(name, count, c, readings)->Ok_0;
    assert forall|k: int| 0 <= k < readings.len() implies c.dpi.profiles[k] < count && (
    #[trigger] readings[k]).disabled == Ok::<bool, Failure>(false) && readings[k].dpi is Ok by {
        lemma_all_accepted(name, count, c, readings, k);
    }
    lemma_all_accepted(name, count, c, readings, 0);
    assert forall|i: int| 0 <= i < c.dpi.values.len() implies common(lists).contains(
        #[trigger] c.dpi.values[i],
    ) by {
        supported_by_all_admitted_slots(lists, c.dpi.values[i]);
        assert forall|k: int| 0 <= k < lists.len() implies (#[trigger] lists[k]).contains(
            c.dpi.values[i],
        ) by {
            lemma_all_accepted(name, count, c, readings, k);
            lemma_nothing_missing(c.dpi.values, lists[k], i);
        }
    }
}

proof fn lemma_missing(stages: Seq<u32>, accepted: Seq<u32>)
    ensures
        first_missing(stages, accepted) is None <==> forall|i: int|
            0 <= i < stages.len() ==> accepted.contains(#[trigger] stages[i]),
    decreases stages.len(),
{
    if stages.len() > 0 {
        let rest = stages.skip(1);
        lemma_missing(rest, accepted);
        if first_missing(stages, accepted) is None {
            assert forall|i: int| 0 <= i < stages.len() implies accepted.contains(
                #[trigger] stages[i],
            ) by {
                lemma_nothing_missing(stages, accepted, i);
            }
        } else if accepted.contains(stages[0]) {
            let i = choose|i: int| 0 <= i < rest.len() && !accepted.contains(#[trigger] rest[i]);
            assert(rest[i] == stages[i + 1]);
        }
    }
}

proof fn lemma_accepted_exactly(
    name: Seq<char>,
    count: nat,
    c: ConfigModel,
    readings: Seq<SlotReadingModel>,
)
    ensures
        all_accepted(name, count, c, readings) is Ok <==> forall|k: int|
            0 <= k < readings.len() ==> accepted_by(
                name,
                count,
                c,
                c.dpi.profiles[k],
                #[trigger] readings[k],
            ) is Ok,
    decreases readings.len(),
{
    if readings.len() > 0 {
        let before = readings.drop_last();
        lemma_accepted_exactly(name, count, c, before);
        if all_accepted(name, count, c, readings) is Ok {
            assert forall|k: int| 0 <= k < readings.len() implies accepted_by(
                name,
                count,
                c,
                c.dpi.profiles[k],
                #[trigger] readings[k],
            ) is Ok by {
                lemma_all_accepted(name, count, c, readings, k);
            }
        } else if all_accepted(name, count, c, before) is Err {
            let k = choose|k: int|
                0 <= k < before.len() && accepted_by(
                    name,
                    count,
                    c,
                    c.dpi.profiles[k],
                    #[trigger] before[k],
                ) is Err;
            assert(before[k] == readings[k]);
        } else {
            assert(accepted_by(
                name,
                count,
                c,
                c.dpi.profiles[readings.len() - 1],
                readings[readings.len() - 1],
            ) is Err);
        }
    }
}

/// A device can be used exactly where it has every synced profile, enabled and with its
/// shared slot, DPI and accepted values read, and every stage is a value that each of those
/// slots accepts. What is then known of a slot is what it accepts.
pub proof fn a_device_is_connected_exactly_where_it_takes_every_stage(
    name: Seq<char>,
    count: nat,
    c: ConfigModel,
    readings: Seq<SlotReadingModel>,
)
    ensures
        all_accepted(name, count, c, readings) is Ok <==> forall|k: int|
            0 <= k < readings.len() ==> {
                let r = #[trigger] readings[k];
                &&& c.dpi.profiles[k] < count
                &&& r.disabled == Ok::<bool, Failure>(false)
                &&& r.slot is Ok
                &&& r.dpi is Ok
                &&& r.accepts is Ok
                &&& forall|i: int|
                    0 <= i < c.dpi.values.len() ==> r.accepts->Ok_0.contains(
                        #[trigger] c.dpi.values[i],
                    )
            },
        all_accepted(name, count, c, readings) matches Ok(lists) ==> lists.len() == readings.len()
            && forall|k: int|
            0 <= k < lists.len() ==> readings[k].accepts == Ok::<Seq<u32>, Failure>(
                #[trigger] lists[k],
            ),
{
    lemma_accepted_exactly(name, count, c, readings);
    assert forall|k: int| 0 <= k < readings.len() implies (accepted_by(
        name,
        count,
        c,
        c.dpi.profiles[k],
        #[trigger] readings[k],
    ) is Ok <==> ({
        let r = readings[k];
        &&& c.dpi.profiles[k] < count
        &&& r.disabled == Ok::<bool, Failure>(false)
        &&& r.slot is Ok
        &&& r.dpi is Ok
        &&& r.accepts is Ok
        &&& forall|i: int|
            0 <= i < c.dpi.values.len() ==> r.accepts->Ok_0.contains(#[trigger] c.dpi.values[i])
    })) by {
        if readings[k].accepts is Ok {
            lemma_missing(c.dpi.values, readings[k].accepts->Ok_0);
        }
    }
    if all_accepted(name, count, c, readings) is Ok {
        let lists = all_accepted(name, count, c, readings)->Ok_0;
        if readings.len() > 0 {
            lemma_all_accepted(name, count, c, readings, 0);
        }
        assert forall|k: int| 0 <= k < lists.len() implies readings[k].accepts == Ok::<
            Seq<u32>,
            Failure,
        >(#[trigger] lists[k]) by {
            lemma_all_accepted(name, count, c, readings, k);
        }
    }
}

/// A device that cannot be used is refused for the first synced profile in the way, and for
/// the reason against that one.
pub proof fn the_first_slot_in_the_way_is_reported(
    name: Seq<char>,
    count: nat,
    c: ConfigModel,
    readings: Seq<SlotReadingModel>,
)
    requires
        all_accepted(name, count, c, readings) is Err,
    ensures
        exists|k: int|
            0 <= k < readings.len() && accepted_by(
                name,
                count,
                c,
                c.dpi.profiles[k],
                #[trigger] readings[k],
            ) == Err::<Seq<u32>, Failure>(all_accepted(name, count, c, readings)->Err_0) && forall|
                j: int,
            |
                0 <= j < k ==> accepted_by(
                    name,
                    count,
                    c,
                    c.dpi.profiles[j],
                    #[trigger] readings[j],
                ) is Ok,
    decreases readings.len(),
{
    if readings.len() > 0 {
        let before = readings.drop_last();
        let e = all_accepted(name, count, c, readings)->Err_0;
        if all_accepted(name, count, c, before) is Err {
            the_first_slot_in_the_way_is_reported(name, count, c, before);
            let k = choose|k: int|
                0 <= k < before.len() && accepted_by(
                    name,
                    count,
                    c,
                    c.dpi.profiles[k],
                    #[trigger] before[k],
                ) == Err::<Seq<u32>, Failure>(e) && forall|j: int|
                    0 <= j < k ==> accepted_by(
                        name,
                        count,
                        c,
                        c.dpi.profiles[j],
                        #[trigger] before[j],
                    ) is Ok;
            assert(readings[k] == before[k]);
            assert forall|j: int| 0 <= j < k implies accepted_by(
                name,
                count,
                c,
                c.dpi.profiles[j],
                #[trigger] readings[j],
            ) is Ok by {
                assert(readings[j] == before[j]);
            }
        } else {
            lemma_accepted_exactly(name, count, c, before);
            let k = readings.len() - 1;
            assert(accepted_by(name, count, c, c.dpi.profiles[k], readings[k]) == Err::<
                Seq<u32>,
                Failure,
            >(e));
            assert forall|j: int| 0 <= j < k implies accepted_by(
                name,
                count,
                c,
                c.dpi.profiles[j],
                #[trigger] readings[j],
            ) is Ok by {
                assert(readings[j] == before[j]);
            }
        }
    }
}

} // verus!
