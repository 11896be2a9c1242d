//! The write that puts one DPI into the shared slot of every synced profile: slots that
//! have it already are left alone, and everything is committed in one go.

use vstd::prelude::*;

verus! {

/// What to do next.
#[derive(Clone, Copy, Debug, PartialEq, Eq, Structural)]
pub enum SyncStep {
    /// Read the DPI of this slot.
    Read(usize),
    /// Stage the DPI on this slot.
    Stage(usize),
    /// Write everything staged to the hardware.
    Commit,
    Return,
}

/// What came of it.
#[derive(Clone, Copy, Debug, PartialEq, Eq, Structural)]
pub enum SyncDone {
    Read(u32),
    Staged,
    Committed,
    Failed,
}

/// A write of one DPI to a number of slots, and the slot it is at.
#[derive(Clone, Copy, Debug, PartialEq, Eq, Structural)]
pub struct Sync {
    pub slots: usize,
    pub dpi: u32,
    pub at: usize,
}

/// Whether the slot that the write is at is done with.
pub open spec fn is_past(s: Sync, done: SyncDone) -> bool {
    match done {
        SyncDone::Read(dpi) => dpi == s.dpi,
        SyncDone::Staged => true,
        SyncDone::Committed | SyncDone::Failed => false,
    }
}

/// The write after `done`.
pub open spec fn sync_after(s: Sync, done: SyncDone) -> Sync {
    if is_past(s, done) && s.at < s.slots {
        Sync { at: (s.at + 1) as usize, ..s }
    } else {
        s
    }
}

/// The next slot is read, or the whole is committed where there is none.
pub open spec fn at_slot(s: Sync) -> SyncStep {
    if s.at < s.slots {
        SyncStep::Read(s.at)
    } else {
        SyncStep::Commit
    }
}

/// The step that follows on `done`.
pub open spec fn sync_step(s: Sync, done: SyncDone) -> SyncStep {
    match done {
        SyncDone::Read(_) | SyncDone::Staged => if is_past(s, done) {
            at_slot(sync_after(s, done))
        } else {
            SyncStep::Stage(s.at)
        },
        SyncDone::Committed | SyncDone::Failed => SyncStep::Return,
    }
}

impl Sync {
    /// A write of `dpi` to this many slots, and its first step.
    pub fn begin(slots: usize, dpi: u32) -> (r: (Sync, SyncStep))
        ensures
            r.0 == (Sync { slots, dpi, at: 0 }),
            r.1 == at_slot(r.0),
    {
        let s = Sync { slots, dpi, at: 0 };
        (s, s.here())
    }

    fn here(&self) -> (r: SyncStep)
        ensures
            r == at_slot(*self),
    {
        if self.at < self.slots {
            SyncStep::Read(self.at)
        } else {
            SyncStep::Commit
        }
    }

    fn pass(&mut self)
        ensures
            *final(self) == sync_after(*old(self), SyncDone::Staged),
    {
        if self.at < self.slots {
            self.at = self.at + 1;
        }
    }

    /// The step after `done`.
    pub fn next(&mut self, done: SyncDone) -> (r: SyncStep)
        ensures
            *final(self) == sync_after(*old(self), done),
            r == sync_step(*old(self), done),
    {
        match done {
            SyncDone::Read(dpi) => if dpi == self.dpi {
                self.pass();
                self.here()
            } else {
                SyncStep::Stage(self.at)
            },
            SyncDone::Staged => {
                self.pass();
                self.here()
            },
            SyncDone::Committed | SyncDone::Failed => SyncStep::Return,
        }
    }
}

// ---------------------------------------------------------------------------- laws
/// The slots of a mouse: what they hold, what is staged on them, and how often staged
/// values were written to them.
#[verifier::ext_equal]
pub struct Slots {
    pub held: Seq<u32>,
    pub staged: Seq<u32>,
    pub commits: nat,
}

/// A mouse that carries out a step of a write of `dpi`, and what it answers.
pub open spec fn carried_out(m: Slots, dpi: u32, step: SyncStep) -> (Slots, SyncDone) {
    match step {
        SyncStep::Read(i) => (m, SyncDone::Read(m.staged[i as int])),
        SyncStep::Stage(i) => (
            Slots { staged: m.staged.update(i as int, dpi), ..m },
            SyncDone::Staged,
        ),
        SyncStep::Commit => (
            Slots { held: m.staged, commits: m.commits + 1, ..m },
            SyncDone::Committed,
        ),
        SyncStep::Return => (m, SyncDone::Failed),
    }
}

/// The mouse after at most `steps` steps of a write, and the step that is next.
pub open spec fn run(m: Slots, s: Sync, step: SyncStep, steps: nat) -> (Slots, SyncStep)
    decreases steps,
{
    if steps == 0 || step is Return {
        (m, step)
    } else {
        let (after, done) = carried_out(m, s.dpi, step);
        run(after, sync_after(s, done), sync_step(s, done), (steps - 1) as nat)
    }
}

proof fn lemma_run(m: Slots, s: Sync, steps: nat)
    requires
        s.at <= s.slots == m.staged.len(),
        forall|i: int| 0 <= i < s.at ==> #[trigger] m.staged[i] == s.dpi,
        steps >= 2 * (s.slots - s.at) + 1,
    ensures
        ({
            let (after, step) = run(m, s, at_slot(s), steps);
            &&& step == SyncStep::Return
            &&& after.held == Seq::new(m.staged.len(), |i: int| s.dpi)
            &&& after.commits == m.commits + 1
        }),
    decreases s.slots - s.at,
{
    reveal_with_fuel(run, 3);
    let all = Seq::new(m.staged.len(), |i: int| s.dpi);
    if s.at < s.slots {
        let next = Sync { at: (s.at + 1) as usize, ..s };
        if m.staged[s.at as int] == s.dpi {
            lemma_run(m, next, (steps - 1) as nat);
        } else {
            let staged = Slots { staged: m.staged.update(s.at as int, s.dpi), ..m };
            lemma_run(staged, next, (steps - 2) as nat);
            assert(Seq::new(staged.staged.len(), |i: int| s.dpi) =~= all);
        }
    } else {
        assert(m.staged =~= all);
    }
}

/// A write that nothing goes wrong with ends with the DPI in every slot, and has committed
/// exactly once.
pub proof fn a_sync_reaches_every_slot_in_one_commit(m: Slots, s: Sync, steps: nat)
    requires
        s.at == 0,
        s.slots == m.staged.len(),
        m.commits == 0,
        steps >= 2 * s.slots + 1,
    ensures
        ({
            let (after, step) = run(m, s, at_slot(s), steps);
            &&& step == SyncStep::Return
            &&& after.held == Seq::new(m.staged.len(), |i: int| s.dpi)
            &&& after.commits == 1
        }),
{
    lemma_run(m, s, steps);
}

/// A write ends where a step fails: nothing is staged or committed after that.
pub proof fn a_failed_sync_goes_no_further(s: Sync)
    ensures
        sync_step(s, SyncDone::Failed) == SyncStep::Return,
{
}

/// A slot is written exactly where it does not hold the DPI yet; the slots are taken one
/// after another, each once, and the commit comes behind the last.
pub proof fn a_sync_stages_what_differs(s: Sync, read: u32)
    requires
        s.at < s.slots,
    ensures
        read != s.dpi ==> sync_step(s, SyncDone::Read(read)) == SyncStep::Stage(s.at) && sync_after(
            s,
            SyncDone::Read(read),
        ) == s,
        read == s.dpi ==> sync_step(s, SyncDone::Read(read)) == sync_step(s, SyncDone::Staged)
            && sync_after(s, SyncDone::Read(read)) == sync_after(s, SyncDone::Staged),
        sync_after(s, SyncDone::Staged).at == s.at + 1,
        sync_after(s, SyncDone::Staged).slots == s.slots,
        sync_after(s, SyncDone::Staged).dpi == s.dpi,
        s.at + 1 < s.slots ==> sync_step(s, SyncDone::Staged) == SyncStep::Read((s.at + 1) as usize),
        s.at + 1 == s.slots ==> sync_step(s, SyncDone::Staged) == SyncStep::Commit,
        sync_step(s, SyncDone::Committed) == SyncStep::Return,
        sync_step(s, SyncDone::Failed) == SyncStep::Return,
{
}

} // verus!
