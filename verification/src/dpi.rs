//! DPI stepping. No I/O here except through `DpiBackend` and the channel of presses.

use crate::config::is_ascending;
use crate::error::{Error, Failure};
use std::sync::mpsc::Receiver;
use vstd::prelude::*;

verus! {

#[derive(Clone, Copy, Debug, PartialEq, Eq, Structural)]
pub enum Step {
    Up,
    Down,
}

// ------------------------------------------------------------------------ stepping
/// The first stage above `x`.
pub open spec fn first_above(stages: Seq<u32>, x: u32) -> Option<u32>
    decreases stages.len(),
{
    if stages.len() == 0 {
        None
    } else if stages[0] > x {
        Some(stages[0])
    } else {
        first_above(stages.skip(1), x)
    }
}

/// The last stage below `x`.
pub open spec fn last_below(stages: Seq<u32>, x: u32) -> Option<u32>
    decreases stages.len(),
{
    if stages.len() == 0 {
        None
    } else if stages.last() < x {
        Some(stages.last())
    } else {
        last_below(stages.drop_last(), x)
    }
}

/// One stage from `current`, or `current` where there is none that way.
pub open spec fn stepped(stages: Seq<u32>, current: u32, step: Step) -> u32 {
    let next = match step {
        Step::Up => first_above(stages, current),
        Step::Down => last_below(stages, current),
    };
    match next {
        Some(s) => s,
        None => current,
    }
}

/// Steps one after another.
pub open spec fn all_stepped(stages: Seq<u32>, current: u32, steps: Seq<Step>) -> u32
    decreases steps.len(),
{
    if steps.len() == 0 {
        current
    } else {
        stepped(stages, all_stepped(stages, current, steps.drop_last()), steps.last())
    }
}

/// Move one stage from `current`. `current` need not be a stage (e.g. it was
/// set with `g502ctl dpi set 2000`): Up goes to the next stage above it, Down
/// to the next stage below it. At either end the value stays put.
pub fn step(stages: &[u32], current: u32, direction: Step) -> (r: u32)
    ensures
        r == stepped(stages@, current, direction),
{
    match direction {
        Step::Up => {
            let mut i: usize = 0;
            assert(stages@.skip(0) =~= stages@);
            while i < stages.len()
                invariant
                    direction is Up,
                    i <= stages.len(),
                    first_above(stages@, current) == first_above(stages@.skip(i as int), current),
                decreases stages.len() - i,
            {
                if stages[i] > current {
                    return stages[i];
                }
                assert(stages@.skip(i as int).skip(1) =~= stages@.skip(i + 1));
                i += 1;
            }
            current
        },
        Step::Down => {
            let mut i: usize = stages.len();
            assert(stages@.take(stages@.len() as int) =~= stages@);
            while i > 0
                invariant
                    direction is Down,
                    i <= stages.len(),
                    last_below(stages@, current) == last_below(stages@.take(i as int), current),
                decreases i,
            {
                if stages[i - 1] < current {
                    return stages[i - 1];
                }
                assert(stages@.take(i as int).drop_last() =~= stages@.take(i - 1));
                i -= 1;
            }
            current
        },
    }
}

/// Apply steps one after another. Each step clamps on its own, so
/// Up,Up,Down at the top stage ends one stage below the top, not at the top.
pub fn apply(stages: &[u32], current: u32, steps: &[Step]) -> (r: u32)
    ensures
        r == all_stepped(stages@, current, steps@),
{
    let mut dpi = current;
    let mut i: usize = 0;
    assert(steps@.take(0) =~= Seq::empty());
    while i < steps.len()
        invariant
            i <= steps.len(),
            dpi == all_stepped(stages@, current, steps@.take(i as int)),
        decreases steps.len() - i,
    {
        dpi = step(stages, dpi, steps[i]);
        i += 1;
        assert(steps@.take(i as int).drop_last() =~= steps@.take(i - 1));
    }
    assert(steps@.take(steps@.len() as int) =~= steps@);
    dpi
}

// ------------------------------------------------------------------------- batches
#[verifier::external_type_specification]
#[verifier::external_body]
#[verifier::reject_recursive_types(T)]
pub struct ExReceiver<T>(Receiver<T>);

/// `std::sync::mpsc::Receiver::recv`: blocks until there is a value, which it takes,
/// or until the channel is empty and its senders are gone, which gives `None` here.
/// Which value comes, and when, is up to the senders.
#[verifier::external_body]
fn wait_for_press(rx: &Receiver<Step>) -> (r: Option<Step>) {
    rx.recv().ok()
}

/// `std::sync::mpsc::Receiver::try_recv`: takes a value that is queued already; `None`
/// here where there is none. What is queued is up to the senders.
#[verifier::external_body]
fn queued_press(rx: &Receiver<Step>) -> (r: Option<Step>) {
    rx.try_recv().ok()
}

/// Ask the channel by `receive`, and hand on what it answers.
fn asked<F: Fn(&Receiver<Step>) -> Option<Step>>(receive: F, rx: &Receiver<Step>) -> (r: Option<Step>)
    requires
        call_requires(receive, (rx,)),
    ensures
        call_ensures(receive, (rx,), r),
{
    receive(rx)
}

/// `press` is an answer of the channel to a wait: a press, or `None` because the senders
/// are gone.
pub closed spec fn came_of_waiting(rx: &Receiver<Step>, press: Option<Step>) -> bool {
    call_ensures(wait_for_press, (rx,), press)
}

/// `press` is an answer of the channel to a look at its queue: a press, or `None` because
/// there is none.
pub closed spec fn came_from_queue(rx: &Receiver<Step>, press: Option<Step>) -> bool {
    call_ensures(queued_press, (rx,), press)
}

/// What the channel was asked, with its answer.
pub enum Answer {
    Waited(Option<Step>),
    Looked(Option<Step>),
}

/// The answer is one that the channel gave.
pub open spec fn is_given(rx: &Receiver<Step>, a: Answer) -> bool {
    match a {
        Answer::Waited(press) => came_of_waiting(rx, press),
        Answer::Looked(press) => came_from_queue(rx, press),
    }
}

/// A channel of presses, with a record of every answer it gave.
pub struct Presses<'a> {
    rx: &'a Receiver<Step>,
    record: Ghost<Seq<Answer>>,
}

impl<'a> Presses<'a> {
    /// Every answer so far, in order.
    pub closed spec fn answers(self) -> Seq<Answer> {
        self.record@
    }

    pub closed spec fn channel(self) -> &'a Receiver<Step> {
        self.rx
    }

    #[verifier::type_invariant]
    spec fn is_recorded(self) -> bool {
        forall|i: int| 0 <= i < self.record@.len() ==> is_given(self.rx, #[trigger] self.record@[i])
    }

    /// A channel that has not been asked.
    pub fn new(rx: &'a Receiver<Step>) -> (p: Presses<'a>)
        ensures
            p.channel() == rx,
            p.answers() == Seq::<Answer>::empty(),
    {
        Presses { rx, record: Ghost(Seq::empty()) }
    }

    /// Every answer on the record was given by the channel.
    proof fn lemma_given(&self)
        requires
            self.is_recorded(),
        ensures
            forall|i: int|
                0 <= i < self.answers().len() ==> is_given(
                    self.channel(),
                    #[trigger] self.answers()[i],
                ),
    {
    }

    /// Wait for a press.
    fn wait(self) -> (r: (Option<Step>, Presses<'a>))
        ensures
            r.1.channel() == self.channel(),
            r.1.answers() == self.answers().push(Answer::Waited(r.0)),
    {
        proof {
            use_type_invariant(&self);
        }
        let press = asked(wait_for_press, self.rx);
        (press, Presses { rx: self.rx, record: Ghost(self.record@.push(Answer::Waited(press))) })
    }

    /// Look whether a press is queued.
    fn look(self) -> (r: (Option<Step>, Presses<'a>))
        ensures
            r.1.channel() == self.channel(),
            r.1.answers() == self.answers().push(Answer::Looked(r.0)),
    {
        proof {
            use_type_invariant(&self);
        }
        let press = asked(queued_press, self.rx);
        (press, Presses { rx: self.rx, record: Ghost(self.record@.push(Answer::Looked(press))) })
    }
}

/// The answers of a queue that held these presses.
pub open spec fn queue_answers(steps: Seq<Step>) -> Seq<Answer> {
    Seq::new(steps.len(), |i: int| Answer::Looked(Some(steps[i])))
}

/// A batch by its presses.
pub open spec fn plain_batch(r: Option<Vec<Step>>) -> Option<Seq<Step>> {
    match r {
        Some(steps) => Some(steps@),
        None => None,
    }
}

/// The answers that come to this batch: the press that was waited for, then every press that
/// was queued, up to the answer that there are no more; or that there is no sender.
pub open spec fn batch_answers(r: Option<Seq<Step>>) -> Seq<Answer> {
    match r {
        None => seq![Answer::Waited(None)],
        Some(steps) => seq![Answer::Waited(Some(steps[0]))] + queue_answers(steps.skip(1)) + seq![
            Answer::Looked(None),
        ],
    }
}

/// The press that was waited for, followed by what had queued up meanwhile.
pub fn batch(first: Step, queued: &[Step]) -> (r: Vec<Step>)
    ensures
        r@ == seq![first] + queued@,
{
    let mut steps: Vec<Step> = vec![first];
    let mut i: usize = 0;
    while i < queued.len()
        invariant
            i <= queued.len(),
            steps@ == seq![first] + queued@.take(i as int),
        decreases queued.len() - i,
    {
        steps.push(queued[i]);
        i += 1;
        assert(steps@ =~= seq![first] + queued@.take(i as int));
    }
    assert(queued@.take(queued@.len() as int) =~= queued@);
    steps
}

/// Everything that is queued: presses are taken until the channel says that there are no
/// more, or there is no room for another. No answer is passed over.
fn queued_presses<'a>(presses: Presses<'a>) -> (r: (Vec<Step>, Presses<'a>))
    ensures
        r.1.channel() == presses.channel(),
        r.1.answers() == presses.answers() + queue_answers(r.0@).push(Answer::Looked(None)) || (
        r.0@.len() == usize::MAX && r.1.answers() == presses.answers() + queue_answers(r.0@)),
{
    let mut steps: Vec<Step> = Vec::new();
    let ghost before = presses.answers();
    let ghost channel = presses.channel();
    let mut p = presses;
    assert(before + queue_answers(steps@) =~= before);
    while steps.len() < usize::MAX
        invariant
            before == presses.answers(),
            channel == presses.channel(),
            p.channel() == channel,
            p.answers() == before + queue_answers(steps@),
        decreases usize::MAX - steps.len(),
    {
        let (press, next) = p.look();
        p = next;
        match press {
            None => {
                assert(p.answers() =~= before + queue_answers(steps@).push(Answer::Looked(None)));
                return (steps, p);
            },
            Some(s) => {
                let ghost taken = steps@;
                steps.push(s);
                assert(queue_answers(steps@) =~= queue_answers(taken).push(Answer::Looked(Some(s))));
                assert(p.answers() =~= before + queue_answers(steps@));
            },
        }
    }
    (steps, p)
}

/// The next batch from a channel. Everything that the channel is asked and answers is on its
/// record: the batch holds every press among the answers of this call, in order.
pub fn collect<'a>(presses: Presses<'a>) -> (r: (Option<Vec<Step>>, Presses<'a>))
    ensures
        r.1.channel() == presses.channel(),
        r.0 matches Some(steps) ==> steps@.len() > 0,
        r.1.answers() == presses.answers() + batch_answers(plain_batch(r.0)),
        forall|i: int|
            0 <= i < r.1.answers().len() ==> is_given(r.1.channel(), #[trigger] r.1.answers()[i]),
{
    let ghost before = presses.answers();
    let (press, p) = presses.wait();
    match press {
        None => {
            proof {
                use_type_invariant(&p);
                p.lemma_given();
            }
            assert(p.answers() =~= before + batch_answers(None));
            (None, p)
        },
        Some(first) => {
            let (queued, p) = queued_presses(p);
            let steps = batch(first, &queued);
            proof {
                use_type_invariant(&p);
                p.lemma_given();
            }
            assert(steps.len() == queued@.len() + 1);
            assert(steps@.skip(1) =~= queued@);
            assert(p.answers() =~= before + batch_answers(Some(steps@)));
            (Some(steps), p)
        },
    }
}

/// Collect a batch by `gather`, and hand on what it gives.
fn gathered<'a, F: Fn(Presses<'a>) -> (Option<Vec<Step>>, Presses<'a>)>(
    gather: F,
    presses: Presses<'a>,
) -> (r: (Option<Vec<Step>>, Presses<'a>))
    requires
        call_requires(gather, (presses,)),
    ensures
        call_ensures(gather, (presses,), r),
{
    gather(presses)
}

/// `r` is the whole batch that `collect` makes of the channel, asked from a fresh record: the
/// press that was waited for and every press that was queued, in order, or `None` because the
/// senders are gone.
pub closed spec fn is_collected(rx: &Receiver<Step>, r: Option<Vec<Step>>) -> bool {
    exists|p: Presses, q: Presses|
        p.channel() == rx && p.answers() == Seq::<Answer>::empty() && #[trigger] call_ensures(
            collect,
            (p,),
            (r, q),
        )
}

/// The channel gave every answer that a collected batch is made of.
pub proof fn a_collected_batch_was_answered(rx: &Receiver<Step>, r: Option<Vec<Step>>)
    requires
        is_collected(rx, r),
    ensures
        r matches Some(steps) ==> steps@.len() > 0,
        forall|i: int|
            0 <= i < batch_answers(plain_batch(r)).len() ==> is_given(
                rx,
                #[trigger] batch_answers(plain_batch(r))[i],
            ),
{
    let (p, q) = choose|p: Presses, q: Presses|
        p.channel() == rx && p.answers() == Seq::<Answer>::empty() && #[trigger] call_ensures(
            collect,
            (p,),
            (r, q),
        );
    assert(p.answers() + batch_answers(plain_batch(r)) =~= batch_answers(plain_batch(r)));
    assert(q.answers() == batch_answers(plain_batch(r)));
}

/// Block for the next press, then take everything else already queued.
/// Presses that piled up while the previous write was in flight become one
/// batch; there is no timer, so an idle press is handled immediately.
/// `None` when the sender is gone. Which presses there are is up to the sender.
pub fn next_batch(rx: &Receiver<Step>) -> (r: Option<Vec<Step>>)
    ensures
        is_collected(rx, r),
        match r {
            None => came_of_waiting(rx, None),
            Some(steps) => {
                &&& steps@.len() > 0
                &&& came_of_waiting(rx, Some(steps@[0]))
                &&& forall|i: int|
                    1 <= i < steps@.len() ==> came_from_queue(rx, Some(#[trigger] steps@[i]))
                &&& came_from_queue(rx, None)
            },
        },
{
    let (r, p) = gathered(collect, Presses::new(rx));
    proof {
        a_collected_batch_was_answered(rx, r);
        let all = batch_answers(plain_batch(r));
        match &r {
            None => {
                assert(all[0] == Answer::Waited(None));
            },
            Some(steps) => {
                assert(all[0] == Answer::Waited(Some(steps@[0])));
                assert forall|i: int| 1 <= i < steps@.len() implies came_from_queue(
                    rx,
                    Some(#[trigger] steps@[i]),
                ) by {
                    assert(all[i] == Answer::Looked(Some(steps@[i])));
                }
                assert(all[steps@.len() as int] == Answer::Looked(None));
            },
        }
    }
    r
}

// ------------------------------------------------------------------------- backend
/// One use of a backend, with what came of it.
pub enum Access {
    Read(Result<u32, Failure>),
    Write(u32, Result<(), Failure>),
}

/// A result with its error by its messages.
pub open spec fn outcome<T>(r: Result<T, Error>) -> Result<T, Failure> {
    match r {
        Ok(v) => Ok(v),
        Err(e) => Err(e@),
    }
}

/// Where the shared DPI lives. The real one talks to ratbagd; tests use a fake.
pub trait DpiBackend {
    /// Whether a record of the uses is kept. A backend that keeps none promises nothing.
    open spec fn is_recorded() -> bool {
        false
    }

    /// Every use so far, in order.
    open spec fn accesses(&self) -> Seq<Access> {
        Seq::empty()
    }

    fn get_dpi(&mut self) -> (r: Result<u32, Error>)
        ensures
            Self::is_recorded() ==> final(self).accesses() == old(self).accesses().push(
                Access::Read(outcome(r)),
            ),
    ;

    /// Must write every synced profile in a single hardware transaction.
    fn set_dpi(&mut self, dpi: u32) -> (r: Result<(), Error>)
        ensures
            Self::is_recorded() ==> final(self).accesses() == old(self).accesses().push(
                Access::Write(dpi, outcome(r)),
            ),
    ;
}

/// The DPI to write for a batch that finds the device at `from`; none where it
/// already has it.
pub open spec fn batch_target(stages: Seq<u32>, from: u32, steps: Seq<Step>) -> Option<u32> {
    let to = all_stepped(stages, from, steps);
    if to == from {
        None
    } else {
        Some(to)
    }
}

/// The DPI to write for a batch that finds the device at `from`, if any.
pub fn dpi_to_write(stages: &[u32], from: u32, steps: &[Step]) -> (r: Option<u32>)
    ensures
        r == batch_target(stages@, from, steps@),
{
    let to = apply(stages, from, steps);
    if to == from {
        None
    } else {
        Some(to)
    }
}

/// The DPI to write where `dpi` is asked for and the device is at `from`; none where it
/// already has it.
pub fn dpi_to_set(from: u32, dpi: u32) -> (r: Option<u32>)
    ensures
        r == if from == dpi {
            None
        } else {
            Some(dpi)
        },
{
    if from == dpi {
        None
    } else {
        Some(dpi)
    }
}

/// What a batch does with a backend that answers `read` and, if it is asked to
/// write, `write`: one read, and at most one write.
pub open spec fn batch_accesses(
    stages: Seq<u32>,
    steps: Seq<Step>,
    read: Result<u32, Failure>,
    write: Result<(), Failure>,
) -> Seq<Access> {
    match read {
        Err(_) => seq![Access::Read(read)],
        Ok(from) => match batch_target(stages, from, steps) {
            None => seq![Access::Read(read)],
            Some(to) => seq![Access::Read(read), Access::Write(to, write)],
        },
    }
}

/// What a batch comes to with a backend that answers so.
pub open spec fn batch_outcome(
    stages: Seq<u32>,
    steps: Seq<Step>,
    read: Result<u32, Failure>,
    write: Result<(), Failure>,
) -> Result<Option<(u32, u32)>, Failure> {
    match read {
        Err(e) => Err(e),
        Ok(from) => match batch_target(stages, from, steps) {
            None => Ok(None),
            Some(to) => match write {
                Ok(_) => Ok(Some((from, to))),
                Err(e) => Err(e),
            },
        },
    }
}

/// Read the current DPI, fold all `steps` into it and write once.
/// Returns `Some((from, to))` if a write happened, `None` if nothing changed
/// (already at a boundary, or the steps cancelled out).
pub fn apply_batch<B: DpiBackend>(backend: &mut B, stages: &[u32], steps: &[Step]) -> (r: Result<
    Option<(u32, u32)>,
    Error,
>)
    ensures
        exists|read: Result<u32, Failure>, write: Result<(), Failure>|
            {
                &&& B::is_recorded() ==> final(backend).accesses() == old(backend).accesses()
                    + batch_accesses(stages@, steps@, read, write)
                &&& outcome(r) == #[trigger] batch_outcome(stages@, steps@, read, write)
            },
{
    let ghost before = backend.accesses();
    let got = backend.get_dpi();
    let ghost read = outcome(got);
    let ghost unasked: Result<(), Failure> = Ok(());
    match got {
        Err(e) => {
            assert(B::is_recorded() ==> backend.accesses() =~= before + batch_accesses(
                stages@,
                steps@,
                read,
                unasked,
            ));
            assert(batch_outcome(stages@, steps@, read, unasked) is Err);
            Err(e)
        },
        Ok(from) => match dpi_to_write(stages, from, steps) {
            None => {
                assert(B::is_recorded() ==> backend.accesses() =~= before + batch_accesses(
                    stages@,
                    steps@,
                    read,
                    unasked,
                ));
                assert(batch_outcome(stages@, steps@, read, unasked) is Ok);
                Ok(None)
            },
            Some(to) => {
                let set = backend.set_dpi(to);
                let ghost write = outcome(set);
                assert(B::is_recorded() ==> backend.accesses() =~= before + batch_accesses(
                    stages@,
                    steps@,
                    read,
                    write,
                ));
                assert(batch_outcome(stages@, steps@, read, write) is Ok == write is Ok);
                match set {
                    Err(e) => Err(e),
                    Ok(_) => Ok(Some((from, to))),
                }
            },
        },
    }
}

// ---------------------------------------------------------------------------- laws
/// `Up` goes to the lowest stage above, and stays put exactly where there is none.
pub proof fn up_is_the_next_stage_above(stages: Seq<u32>, current: u32)
    requires
        is_ascending(stages),
    ensures
        ({
            let to = stepped(stages, current, Step::Up);
            ||| to > current && stages.contains(to) && forall|i: int|
                0 <= i < stages.len() && #[trigger] stages[i] > current ==> to <= stages[i]
            ||| to == current && forall|i: int|
                0 <= i < stages.len() ==> #[trigger] stages[i] <= current
        }),
    decreases stages.len(),
{
    if stages.len() > 0 && stages[0] <= current {
        let rest = stages.skip(1);
        assert forall|i: int, j: int| 0 <= i < j < rest.len() implies #[trigger] rest[i]
            < #[trigger] rest[j] by {
            assert(stages[i + 1] < stages[j + 1]);
        }
        assert(is_ascending(rest));
        up_is_the_next_stage_above(rest, current);
        let to = stepped(stages, current, Step::Up);
        if to > current {
            let k = choose|k: int| 0 <= k < rest.len() && rest[k] == to;
            assert(stages[k + 1] == to);
            assert forall|i: int|
                0 <= i < stages.len() && #[trigger] stages[i] > current implies to <= stages[i] by {
                assert(rest[i - 1] == stages[i]);
            }
        } else {
            assert forall|i: int| 0 <= i < stages.len() implies #[trigger] stages[i] <= current by {
                if i > 0 {
                    assert(rest[i - 1] == stages[i]);
                }
            }
        }
    } else if stages.len() > 0 {
        assert(stages.contains(stages[0]));
    }
}

/// `Down` goes to the highest stage below, and stays put exactly where there is none.
pub proof fn down_is_the_next_stage_below(stages: Seq<u32>, current: u32)
    requires
        is_ascending(stages),
    ensures
        ({
            let to = stepped(stages, current, Step::Down);
            ||| to < current && stages.contains(to) && forall|i: int|
                0 <= i < stages.len() && #[trigger] stages[i] < current ==> stages[i] <= to
            ||| to == current && forall|i: int|
                0 <= i < stages.len() ==> #[trigger] stages[i] >= current
        }),
    decreases stages.len(),
{
    if stages.len() > 0 && stages.last() >= current {
        let rest = stages.drop_last();
        assert forall|i: int, j: int| 0 <= i < j < rest.len() implies #[trigger] rest[i]
            < #[trigger] rest[j] by {
            assert(stages[i] < stages[j]);
        }
        assert(is_ascending(rest));
        down_is_the_next_stage_below(rest, current);
        let to = stepped(stages, current, Step::Down);
        if to < current {
            let k = choose|k: int| 0 <= k < rest.len() && rest[k] == to;
            assert(stages[k] == to);
            assert forall|i: int|
                0 <= i < stages.len() && #[trigger] stages[i] < current implies stages[i] <= to by {
                assert(i < rest.len());
                assert(rest[i] == stages[i]);
            }
        } else {
            assert forall|i: int| 0 <= i < stages.len() implies #[trigger] stages[i] >= current by {
                if i < rest.len() {
                    assert(rest[i] == stages[i]);
                }
            }
        }
    } else if stages.len() > 0 {
        assert(stages[stages.len() - 1] == stages.last());
    }
}

/// A step never overtakes: from a higher DPI it ends no lower.
pub proof fn steps_keep_the_order(stages: Seq<u32>, low: u32, high: u32, step: Step)
    requires
        is_ascending(stages),
        low <= high,
    ensures
        stepped(stages, low, step) <= stepped(stages, high, step),
{
    match step {
        Step::Up => {
            up_is_the_next_stage_above(stages, low);
            up_is_the_next_stage_above(stages, high);
            let l = stepped(stages, low, step);
            let h = stepped(stages, high, step);
            if h > high {
                let k = choose|k: int| 0 <= k < stages.len() && stages[k] == h;
                assert(stages[k] > low);
            } else if l > low {
                let k = choose|k: int| 0 <= k < stages.len() && stages[k] == l;
                assert(stages[k] <= high);
            }
        },
        Step::Down => {
            down_is_the_next_stage_below(stages, low);
            down_is_the_next_stage_below(stages, high);
            let l = stepped(stages, low, step);
            let h = stepped(stages, high, step);
            if l < low {
                let k = choose|k: int| 0 <= k < stages.len() && stages[k] == l;
                assert(stages[k] < high);
            } else if h < high {
                let k = choose|k: int| 0 <= k < stages.len() && stages[k] == h;
                assert(stages[k] >= low);
            }
        },
    }
}

/// From a stage with one above it, `Up` and then `Down` is where it started.
pub proof fn up_then_down_returns(stages: Seq<u32>, i: int)
    requires
        is_ascending(stages),
        0 <= i < stages.len() - 1,
    ensures
        stepped(stages, stages[i], Step::Up) == stages[i + 1],
        stepped(stages, stages[i + 1], Step::Down) == stages[i],
{
    up_is_the_next_stage_above(stages, stages[i]);
    let up = stepped(stages, stages[i], Step::Up);
    assert(stages[i + 1] > stages[i]);
    let k = choose|k: int| 0 <= k < stages.len() && stages[k] == up;
    if k <= i {
        if k < i {
            assert(stages[k] < stages[i]);
        }
        assert(false);
    }
    if k > i + 1 {
        assert(stages[i + 1] < stages[k]);
    }
    down_is_the_next_stage_below(stages, stages[i + 1]);
    let down = stepped(stages, stages[i + 1], Step::Down);
    let m = choose|m: int| 0 <= m < stages.len() && stages[m] == down;
    if m < i {
        assert(stages[m] < stages[i]);
    }
    if m > i {
        if m > i + 1 {
            assert(stages[i + 1] < stages[m]);
        }
        assert(false);
    }
}

/// How presses are grouped does not matter: two batches in a row end where one
/// batch of both does.
pub proof fn batches_compose(stages: Seq<u32>, current: u32, a: Seq<Step>, b: Seq<Step>)
    ensures
        all_stepped(stages, current, a + b) == all_stepped(
            stages,
            all_stepped(stages, current, a),
            b,
        ),
    decreases b.len(),
{
    if b.len() == 0 {
        assert(a + b =~= a);
    } else {
        assert((a + b).drop_last() =~= a + b.drop_last());
        batches_compose(stages, current, a, b.drop_last());
    }
}

proof fn lemma_stepped_is_a_stage(stages: Seq<u32>, x: u32)
    ensures
        first_above(stages, x) matches Some(s) ==> stages.contains(s),
        last_below(stages, x) matches Some(s) ==> stages.contains(s),
    decreases stages.len(),
{
    if stages.len() > 0 {
        assert(stages.contains(stages[0]));
        assert(stages.contains(stages[stages.len() - 1]));
        let a = stages.skip(1);
        let b = stages.drop_last();
        lemma_stepped_is_a_stage(a, x);
        lemma_stepped_is_a_stage(b, x);
        if first_above(a, x) is Some {
            let k = choose|k: int| 0 <= k < a.len() && a[k] == first_above(a, x)->0;
            assert(stages[k + 1] == a[k]);
        }
        if last_below(b, x) is Some {
            let k = choose|k: int| 0 <= k < b.len() && b[k] == last_below(b, x)->0;
            assert(stages[k] == b[k]);
        }
    }
}

/// Whatever the presses, the DPI is one of the stages or was not moved.
pub proof fn presses_stay_on_the_stages(stages: Seq<u32>, current: u32, steps: Seq<Step>)
    ensures
        ({
            let to = all_stepped(stages, current, steps);
            to == current || stages.contains(to)
        }),
    decreases steps.len(),
{
    if steps.len() > 0 {
        presses_stay_on_the_stages(stages, current, steps.drop_last());
        lemma_stepped_is_a_stage(stages, all_stepped(stages, current, steps.drop_last()));
    }
}

proof fn lemma_ups_climb(stages: Seq<u32>, current: u32, n: nat, i: int)
    requires
        is_ascending(stages),
        0 <= i < stages.len(),
        i < n,
    ensures
        all_stepped(stages, current, Seq::new(n, |k: int| Step::Up)) >= stages[i],
    decreases n,
{
    let ups = Seq::new(n, |k: int| Step::Up);
    let fewer = Seq::new((n - 1) as nat, |k: int| Step::Up);
    assert(ups.drop_last() =~= fewer);
    let before = all_stepped(stages, current, fewer);
    up_is_the_next_stage_above(stages, before);
    if i > 0 {
        lemma_ups_climb(stages, current, (n - 1) as nat, i - 1);
        let to = stepped(stages, before, Step::Up);
        if to > before {
            let k = choose|k: int| 0 <= k < stages.len() && stages[k] == to;
            if k < i {
                if k < i - 1 {
                    assert(stages[k] < stages[i - 1]);
                }
                assert(false);
            }
            if k > i {
                assert(stages[i] < stages[k]);
            }
        } else {
            assert(stages[i] <= before);
        }
    } else if stepped(stages, before, Step::Up) > before {
        let to = stepped(stages, before, Step::Up);
        let k = choose|k: int| 0 <= k < stages.len() && stages[k] == to;
        if k > 0 {
            assert(stages[0] < stages[k]);
        }
    } else {
        assert(stages[0] <= before);
    }
}

proof fn lemma_ups_never_fall(stages: Seq<u32>, current: u32, n: nat)
    requires
        is_ascending(stages),
    ensures
        all_stepped(stages, current, Seq::new(n, |k: int| Step::Up)) >= current,
    decreases n,
{
    if n > 0 {
        let fewer = Seq::new((n - 1) as nat, |k: int| Step::Up);
        assert(Seq::new(n, |k: int| Step::Up).drop_last() =~= fewer);
        lemma_ups_never_fall(stages, current, (n - 1) as nat);
        up_is_the_next_stage_above(stages, all_stepped(stages, current, fewer));
    }
}

/// As many presses of `Up` as there are stages end at the top; above it they stay where
/// they began.
pub proof fn enough_ups_reach_the_top(stages: Seq<u32>, current: u32, n: nat)
    requires
        is_ascending(stages),
        0 < stages.len() <= n,
    ensures
        all_stepped(stages, current, Seq::new(n, |k: int| Step::Up)) == if current > stages.last() {
            current
        } else {
            stages.last()
        },
{
    let ups = Seq::new(n, |k: int| Step::Up);
    lemma_ups_climb(stages, current, n, stages.len() - 1);
    lemma_ups_never_fall(stages, current, n);
    presses_stay_on_the_stages(stages, current, ups);
    let to = all_stepped(stages, current, ups);
    if to != current {
        let k = choose|k: int| 0 <= k < stages.len() && stages[k] == to;
        if k < stages.len() - 1 {
            assert(stages[k] < stages[stages.len() - 1]);
        }
    }
}

proof fn lemma_downs_descend(stages: Seq<u32>, current: u32, n: nat, i: int)
    requires
        is_ascending(stages),
        0 <= i < stages.len(),
        stages.len() - i <= n,
    ensures
        all_stepped(stages, current, Seq::new(n, |k: int| Step::Down)) <= stages[i],
    decreases n,
{
    let downs = Seq::new(n, |k: int| Step::Down);
    let fewer = Seq::new((n - 1) as nat, |k: int| Step::Down);
    assert(downs.drop_last() =~= fewer);
    let before = all_stepped(stages, current, fewer);
    down_is_the_next_stage_below(stages, before);
    let to = stepped(stages, before, Step::Down);
    if i < stages.len() - 1 {
        lemma_downs_descend(stages, current, (n - 1) as nat, i + 1);
    }
    if to < before {
        let k = choose|k: int| 0 <= k < stages.len() && stages[k] == to;
        if k > i {
            assert(i < stages.len() - 1);
            if k > i + 1 {
                assert(stages[i + 1] < stages[k]);
            }
            assert(false);
        }
        if k < i {
            assert(stages[k] < stages[i]);
        }
    } else {
        assert(stages[i] >= before);
    }
}

proof fn lemma_downs_never_rise(stages: Seq<u32>, current: u32, n: nat)
    requires
        is_ascending(stages),
    ensures
        all_stepped(stages, current, Seq::new(n, |k: int| Step::Down)) <= current,
    decreases n,
{
    if n > 0 {
        let fewer = Seq::new((n - 1) as nat, |k: int| Step::Down);
        assert(Seq::new(n, |k: int| Step::Down).drop_last() =~= fewer);
        lemma_downs_never_rise(stages, current, (n - 1) as nat);
        down_is_the_next_stage_below(stages, all_stepped(stages, current, fewer));
    }
}

/// As many presses of `Down` as there are stages end at the bottom; below it they stay where
/// they began.
pub proof fn enough_downs_reach_the_bottom(stages: Seq<u32>, current: u32, n: nat)
    requires
        is_ascending(stages),
        0 < stages.len() <= n,
    ensures
        all_stepped(stages, current, Seq::new(n, |k: int| Step::Down)) == if current < stages[0] {
            current
        } else {
            stages[0]
        },
{
    let downs = Seq::new(n, |k: int| Step::Down);
    lemma_downs_descend(stages, current, n, 0);
    lemma_downs_never_rise(stages, current, n);
    presses_stay_on_the_stages(stages, current, downs);
    let to = all_stepped(stages, current, downs);
    if to != current {
        let k = choose|k: int| 0 <= k < stages.len() && stages[k] == to;
        if k > 0 {
            assert(stages[0] < stages[k]);
        }
    }
}

/// A batch reads the DPI once. It writes once, the DPI that its steps lead to one after
/// another, exactly where that is not the DPI that was read, and tells both; a failure of the
/// backend is its own.
pub proof fn a_batch_writes_where_its_steps_lead(
    stages: Seq<u32>,
    steps: Seq<Step>,
    read: Result<u32, Failure>,
    write: Result<(), Failure>,
)
    ensures
        batch_accesses(stages, steps, read, write).len() >= 1,
        batch_accesses(stages, steps, read, write)[0] == Access::Read(read),
        read matches Err(e) ==> batch_accesses(stages, steps, read, write).len() == 1 && batch_outcome(
            stages,
            steps,
            read,
            write,
        ) == Err::<Option<(u32, u32)>, Failure>(e),
        read matches Ok(from) ==> {
            let to = all_stepped(stages, from, steps);
            &&& to == from ==> batch_accesses(stages, steps, read, write).len() == 1 && batch_outcome(
                stages,
                steps,
                read,
                write,
            ) == Ok::<Option<(u32, u32)>, Failure>(None)
            &&& to != from ==> batch_accesses(stages, steps, read, write).len() == 2
                && batch_accesses(stages, steps, read, write)[1] == Access::Write(to, write) && (
            write is Ok ==> batch_outcome(stages, steps, read, write) == Ok::<
                Option<(u32, u32)>,
                Failure,
            >(Some((from, to)))) && (write matches Err(e) ==> batch_outcome(
                stages,
                steps,
                read,
                write,
            ) == Err::<Option<(u32, u32)>, Failure>(e))
        },
{
}

/// Steps are taken in the order of the presses: none leaves the DPI, and one more press steps
/// from where those before it led.
pub proof fn presses_are_taken_in_order(stages: Seq<u32>, current: u32, steps: Seq<Step>, last: Step)
    ensures
        all_stepped(stages, current, Seq::<Step>::empty()) == current,
        all_stepped(stages, current, steps.push(last)) == stepped(
            stages,
            all_stepped(stages, current, steps),
            last,
        ),
{
    assert(steps.push(last).drop_last() =~= steps);
}

} // verus!
