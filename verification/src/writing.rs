//! The one write path: show a diff, ask, save the previous state, commit once, re-read
//! and compare.

use crate::command::Flags;
use crate::error::{failure, is_outcome_of, Error, Failure};
use crate::restore::{Planned, PlannedModel};
use crate::text::{dec, push_dec, same, texts, trim, trimmed, views};
use vstd::prelude::*;

verus! {

// --------------------------------------------------------------------------- source
/// The config file that is applied. Without one nothing is, so that nothing can be written
/// that no file asks for.
pub fn config_to_apply(path: Option<&str>) -> (r: Result<String, Error>)
    ensures
        is_outcome_of(
            r,
            match path {
                Some(p) => Ok(p@),
                None => Err(failure("no config file; nothing to apply"@)),
            },
        ),
{
    match path {
        Some(p) => Ok(p.to_owned()),
        None => Err(Error::new("no config file; nothing to apply".to_owned())),
    }
}

// --------------------------------------------------------------------------- review
/// What to do with a plan once it has been shown.
#[derive(Debug, PartialEq)]
pub enum Verdict {
    /// Say this, and write nothing.
    Stop(String),
    /// Fail, and write nothing.
    Refuse(Error),
    Ask,
    Write,
}

/// The lines to show, and what to do then.
#[derive(Debug, PartialEq)]
pub struct Review {
    pub lines: Vec<String>,
    pub verdict: Verdict,
}

#[verifier::ext_equal]
pub enum VerdictModel {
    Stop(Seq<char>),
    Refuse(Failure),
    Ask,
    Write,
}

impl View for Verdict {
    type V = VerdictModel;

    open spec fn view(&self) -> VerdictModel {
        match *self {
            Verdict::Stop(t) => VerdictModel::Stop(t@),
            Verdict::Refuse(e) => VerdictModel::Refuse(e@),
            Verdict::Ask => VerdictModel::Ask,
            Verdict::Write => VerdictModel::Write,
        }
    }
}

/// The lines that show a plan.
pub open spec fn diff_lines(plan: Seq<PlannedModel>, source: Seq<char>) -> Seq<Seq<char>> {
    if plan.len() == 0 {
        Seq::empty()
    } else {
        seq![dec(plan.len()) + " change(s) from "@ + source + ":"@] + Seq::new(
            plan.len(),
            |i: int| "  "@ + plan[i].summary,
        )
    }
}

/// What follows: nothing is written where nothing differs, on a dry run, or without a
/// terminal to ask on; `yes` skips the question.
pub open spec fn verdict_of(plan: Seq<PlannedModel>, source: Seq<char>, flags: Flags, terminal: bool) -> VerdictModel {
    if plan.len() == 0 {
        VerdictModel::Stop("device already matches "@ + source + "; nothing to do"@)
    } else if flags.dry_run {
        VerdictModel::Stop("dry run: nothing was written"@)
    } else if flags.yes {
        VerdictModel::Write
    } else if terminal {
        VerdictModel::Ask
    } else {
        VerdictModel::Refuse(failure("not a terminal; pass --yes to write without asking"@))
    }
}

/// Show a plan that was made from `source`, and decide whether to write it.
pub fn review(plan: &Vec<Planned>, source: &str, flags: Flags, terminal: bool) -> (r: Review)
    ensures
        texts(r.lines@) == diff_lines(views(plan@), source@),
        r.verdict@ == verdict_of(views(plan@), source@, flags, terminal),
{
    let mut lines: Vec<String> = Vec::new();
    if plan.len() == 0 {
        let mut m = "device already matches ".to_owned();
        m.append(source);
        m.append("; nothing to do");
        assert(texts(lines@) =~= Seq::empty());
        return Review { lines, verdict: Verdict::Stop(m) };
    }
    let mut head = String::new();
    push_dec(&mut head, plan.len() as u64);
    head.append(" change(s) from ");
    head.append(source);
    head.append(":");
    assert(head@ =~= dec(plan@.len()) + " change(s) from "@ + source@ + ":"@);
    lines.push(head);
    let mut i: usize = 0;
    while i < plan.len()
        invariant
            i <= plan.len(),
            lines.len() == i + 1,
            lines@[0]@ == head@,
            forall|j: int| 0 <= j < i ==> (#[trigger] lines@[j + 1])@ == "  "@ + plan@[j]@.summary,
        decreases plan.len() - i,
    {
        let mut line = "  ".to_owned();
        line.append(plan[i].summary.as_str());
        lines.push(line);
        i += 1;
    }
    assert(texts(lines@) =~= diff_lines(views(plan@), source@)) by {
        let want = diff_lines(views(plan@), source@);
        assert forall|j: int| 0 <= j < want.len() implies texts(lines@)[j] == want[j] by {
            if j > 0 {
                assert(lines@[(j - 1) + 1]@ == "  "@ + plan@[j - 1]@.summary);
            }
        }
    }
    let verdict = if flags.dry_run {
        Verdict::Stop("dry run: nothing was written".to_owned())
    } else if flags.yes {
        Verdict::Write
    } else if terminal {
        Verdict::Ask
    } else {
        Verdict::Refuse(Error::new("not a terminal; pass --yes to write without asking".to_owned()))
    };
    Review { lines, verdict }
}

/// The answer to the question is a yes: `y`, `Y` or `yes`.
pub fn is_yes(answer: &str) -> (r: bool)
    ensures
        r == (trimmed(answer@) == "y"@ || trimmed(answer@) == "Y"@ || trimmed(answer@) == "yes"@),
{
    let a = trim(answer);
    same(a.as_str(), "y") || same(a.as_str(), "Y") || same(a.as_str(), "yes")
}

// ---------------------------------------------------------------------- the write path
/// One thing to do on the write path.
#[derive(Clone, Copy, Debug, PartialEq, Eq)]
pub enum WriteStep {
    /// Keep other writers out until the end.
    Lock,
    /// Read the device and plan again, in case it changed meanwhile.
    Plan,
    /// Save the state that was read.
    Save,
    /// Stage every change of the plan.
    Stage,
    /// Write everything staged to the hardware.
    Commit,
    /// Read the device and plan once more.
    Verify,
    Return(WriteEnd),
}

/// How a write ended.
#[derive(Clone, Copy, Debug, PartialEq, Eq)]
pub enum WriteEnd {
    /// There was nothing to write.
    Unchanged,
    /// So many changes were written, and the device matches.
    Written(usize),
    /// So many differences remain after the write.
    Remaining(usize),
    /// A step failed.
    Failed,
}

/// What came of a step.
#[derive(Clone, Copy, Debug, PartialEq, Eq)]
pub enum WriteDone {
    Locked,
    /// The plan under the lock has so many changes.
    Planned(usize),
    Saved,
    Staged,
    Committed,
    /// So many differences are left.
    Verified(usize),
    Failed,
}

/// What follows what was done, where the plan had `changes` changes.
pub open spec fn step_after(done: WriteDone, changes: usize) -> WriteStep {
    match done {
        WriteDone::Locked => WriteStep::Plan,
        WriteDone::Planned(n) => if n == 0 {
            WriteStep::Return(WriteEnd::Unchanged)
        } else {
            WriteStep::Save
        },
        WriteDone::Saved => WriteStep::Stage,
        WriteDone::Staged => WriteStep::Commit,
        WriteDone::Committed => WriteStep::Verify,
        WriteDone::Verified(left) => if left == 0 {
            WriteStep::Return(WriteEnd::Written(changes))
        } else {
            WriteStep::Return(WriteEnd::Remaining(left))
        },
        WriteDone::Failed => WriteStep::Return(WriteEnd::Failed),
    }
}

/// A write under way: how many changes its plan has, once it is made.
#[derive(Clone, Copy, Debug, PartialEq, Eq)]
pub struct Write {
    pub changes: usize,
}

impl Write {
    /// A write starts with the lock.
    pub fn begin() -> (r: (Write, WriteStep))
        ensures
            r.0.changes == 0,
            r.1 == WriteStep::Lock,
    {
        (Write { changes: 0 }, WriteStep::Lock)
    }

    /// The step that follows what was done.
    pub fn next(&mut self, done: WriteDone) -> (r: WriteStep)
        ensures
            final(self).changes == (match done {
                WriteDone::Planned(n) => n,
                _ => old(self).changes,
            }),
            r == step_after(done, old(self).changes),
    {
        match done {
            WriteDone::Locked => WriteStep::Plan,
            WriteDone::Planned(n) => {
                self.changes = n;
                if n == 0 {
                    WriteStep::Return(WriteEnd::Unchanged)
                } else {
                    WriteStep::Save
                }
            },
            WriteDone::Saved => WriteStep::Stage,
            WriteDone::Staged => WriteStep::Commit,
            WriteDone::Committed => WriteStep::Verify,
            WriteDone::Verified(left) => if left == 0 {
                WriteStep::Return(WriteEnd::Written(self.changes))
            } else {
                WriteStep::Return(WriteEnd::Remaining(left))
            },
            WriteDone::Failed => WriteStep::Return(WriteEnd::Failed),
        }
    }
}

/// The name of the file that the previous state is saved to.
pub fn backup_name(unix_time: u64) -> (r: String)
    ensures
        r@ == "pre-restore-"@ + dec(unix_time as nat) + ".toml"@,
{
    let mut s = "pre-restore-".to_owned();
    push_dec(&mut s, unix_time);
    s.append(".toml");
    s
}

// -------------------------------------------------------------------------- outcomes
/// `restored N change(s); device now matches SOURCE`.
pub fn restored_text(written: usize, source: &str) -> (r: String)
    ensures
        r@ == "restored "@ + dec(written as nat) + " change(s); device now matches "@ + source@,
{
    let mut s = "restored ".to_owned();
    push_dec(&mut s, written as u64);
    s.append(" change(s); device now matches ");
    s.append(source);
    s
}

/// One line for each difference that a write left, and the error they come to.
pub fn unsettled(left: &Vec<Planned>, saved: &str) -> (r: (Vec<String>, Error))
    ensures
        texts(r.0@) == Seq::new(left@.len(), |i: int| "  still differs: "@ + left@[i]@.summary),
        r.1@ == failure(
            dec(left@.len()) + " difference(s) remain after the write; undo with: g502ctl restore "@
                + saved@,
        ),
{
    let mut lines: Vec<String> = Vec::new();
    let mut i: usize = 0;
    while i < left.len()
        invariant
            i <= left.len(),
            lines.len() == i,
            forall|j: int|
                0 <= j < i ==> (#[trigger] lines@[j])@ == "  still differs: "@ + left@[j]@.summary,
        decreases left.len() - i,
    {
        let mut line = "  still differs: ".to_owned();
        line.append(left[i].summary.as_str());
        lines.push(line);
        i += 1;
    }
    assert(texts(lines@) =~= Seq::new(
        left@.len(),
        |i: int| "  still differs: "@ + left@[i]@.summary,
    ));
    let mut m = String::new();
    push_dec(&mut m, left.len() as u64);
    m.append(" difference(s) remain after the write; undo with: g502ctl restore ");
    m.append(saved);
    assert(m@ =~= dec(left@.len())
        + " difference(s) remain after the write; undo with: g502ctl restore "@ + saved@);
    (lines, Error::new(m))
}

/// What an edit came to: how many changes were written and where the previous state
/// was saved, if there was anything to write.
pub open spec fn edit_outcome(written: nat, title: Seq<char>, backup: Option<Seq<char>>) -> Seq<char> {
    match backup {
        Some(b) => "Wrote "@ + dec(written) + " change(s) to "@ + title
            + ". Previous state saved to "@ + b,
        None => "Nothing to change: the device already has that."@,
    }
}

pub fn edit_outcome_text(written: usize, title: &str, backup: Option<&str>) -> (r: String)
    ensures
        r@ == edit_outcome(written as nat, title@, crate::apply::optional_str(backup)),
{
    match backup {
        Some(b) => {
            let mut s = "Wrote ".to_owned();
            push_dec(&mut s, written as u64);
            s.append(" change(s) to ");
            s.append(title);
            s.append(". Previous state saved to ");
            s.append(b);
            s
        },
        None => "Nothing to change: the device already has that.".to_owned(),
    }
}

// ----------------------------------------------------------------------------- laws
/// Nothing is written without a difference, on a dry run, or unasked: a plan is written at
/// once exactly where it has changes, this is no dry run and `--yes` was given, asked about
/// exactly where there is a terminal instead, and refused otherwise.
pub proof fn writes_only_what_was_agreed(
    plan: Seq<PlannedModel>,
    source: Seq<char>,
    flags: Flags,
    terminal: bool,
)
    ensures
        verdict_of(plan, source, flags, terminal) is Write <==> plan.len() > 0 && !flags.dry_run
            && flags.yes,
        verdict_of(plan, source, flags, terminal) is Ask <==> plan.len() > 0 && !flags.dry_run
            && !flags.yes && terminal,
        verdict_of(plan, source, flags, terminal) is Refuse <==> plan.len() > 0 && !flags.dry_run
            && !flags.yes && !terminal,
        verdict_of(plan, source, flags, terminal) is Stop <==> plan.len() == 0 || flags.dry_run,
{
}

/// Every change of a plan is shown, in its order, under a line that counts them.
pub proof fn every_change_is_shown(plan: Seq<PlannedModel>, source: Seq<char>)
    ensures
        plan.len() == 0 ==> diff_lines(plan, source).len() == 0,
        plan.len() > 0 ==> {
            let lines = diff_lines(plan, source);
            &&& lines.len() == plan.len() + 1
            &&& lines[0] == dec(plan.len()) + " change(s) from "@ + source + ":"@
            &&& forall|i: int|
                0 <= i < plan.len() ==> #[trigger] lines[i + 1] == "  "@ + plan[i].summary
        },
{
}

/// What can come of a step.
pub open spec fn fits(step: WriteStep, done: WriteDone) -> bool {
    match (step, done) {
        (WriteStep::Return(_), _) => false,
        (_, WriteDone::Failed) => true,
        (WriteStep::Lock, WriteDone::Locked) => true,
        (WriteStep::Plan, WriteDone::Planned(_)) => true,
        (WriteStep::Save, WriteDone::Saved) => true,
        (WriteStep::Stage, WriteDone::Staged) => true,
        (WriteStep::Commit, WriteDone::Committed) => true,
        (WriteStep::Verify, WriteDone::Verified(_)) => true,
        _ => false,
    }
}

/// The steps of a write: each follows from what the one before came to.
pub open spec fn is_run(steps: Seq<WriteStep>, done: Seq<WriteDone>, changes: usize) -> bool {
    &&& steps.len() > 0
    &&& done.len() == steps.len() - 1
    &&& steps[0] == WriteStep::Lock
    &&& forall|i: int|
        0 <= i < done.len() ==> fits(steps[i], #[trigger] done[i]) && steps[i + 1] == step_after(
            done[i],
            changes,
        )
    &&& forall|i: int| 0 <= i < done.len() && (#[trigger] done[i]) is Planned ==> done[i]
        == WriteDone::Planned(changes)
}

/// The order of the path.
spec fn depth(s: WriteStep) -> int {
    match s {
        WriteStep::Lock => 0,
        WriteStep::Plan => 1,
        WriteStep::Save => 2,
        WriteStep::Stage => 3,
        WriteStep::Commit => 4,
        WriteStep::Verify => 5,
        WriteStep::Return(_) => 6,
    }
}

proof fn lemma_depth(steps: Seq<WriteStep>, done: Seq<WriteDone>, changes: usize, i: int)
    requires
        is_run(steps, done, changes),
        0 <= i < steps.len(),
    ensures
        !(steps[i] is Return) ==> depth(steps[i]) == i,
    decreases i,
{
    if i > 0 {
        lemma_depth(steps, done, changes, i - 1);
        assert(fits(steps[i - 1], done[i - 1]));
    }
}

/// A write commits at most once, and only behind the lock, with changes to write,
/// the previous state saved and every change staged.
pub proof fn a_commit_is_locked_saved_and_staged(
    steps: Seq<WriteStep>,
    done: Seq<WriteDone>,
    changes: usize,
    i: int,
)
    requires
        is_run(steps, done, changes),
        0 <= i < steps.len(),
        steps[i] == WriteStep::Commit,
    ensures
        i == 4,
        done[0] == WriteDone::Locked,
        done[1] == WriteDone::Planned(changes),
        changes > 0,
        done[2] == WriteDone::Saved,
        done[3] == WriteDone::Staged,
{
    lemma_depth(steps, done, changes, i);
    lemma_depth(steps, done, changes, 3);
    lemma_depth(steps, done, changes, 2);
    lemma_depth(steps, done, changes, 1);
    assert(fits(steps[3], done[3]));
    assert(fits(steps[2], done[2]));
    assert(fits(steps[1], done[1]));
    assert(fits(steps[0], done[0]));
}

/// A write that says so ended with the device re-read and nothing left to write.
pub proof fn a_written_end_was_verified(
    steps: Seq<WriteStep>,
    done: Seq<WriteDone>,
    changes: usize,
    i: int,
    n: usize,
)
    requires
        is_run(steps, done, changes),
        0 <= i < steps.len(),
        steps[i] == WriteStep::Return(WriteEnd::Written(n)),
    ensures
        n == changes,
        i == 6,
        done[4] == WriteDone::Committed,
        done[5] == WriteDone::Verified(0),
{
    assert(fits(steps[i - 1], done[i - 1]));
    lemma_depth(steps, done, changes, i - 1);
    lemma_depth(steps, done, changes, 4);
    assert(fits(steps[4], done[4]));
}

/// A write in which nothing fails goes through all its steps, in order, and ends with what the
/// last look at the device left; where there is nothing to write, it ends once that is known.
pub proof fn a_write_without_failures_reaches_its_end(
    steps: Seq<WriteStep>,
    done: Seq<WriteDone>,
    changes: usize,
)
    requires
        is_run(steps, done, changes),
        steps.last() is Return,
        forall|i: int| 0 <= i < done.len() ==> #[trigger] done[i] != WriteDone::Failed,
    ensures
        steps.len() >= 3,
        steps[1] == WriteStep::Plan,
        changes == 0 ==> steps.len() == 3 && steps.last() == WriteStep::Return(WriteEnd::Unchanged),
        changes > 0 ==> {
            &&& steps.len() == 7
            &&& steps[2] == WriteStep::Save
            &&& steps[3] == WriteStep::Stage
            &&& steps[4] == WriteStep::Commit
            &&& steps[5] == WriteStep::Verify
            &&& done[5] matches WriteDone::Verified(left) && steps.last() == (if left == 0 {
                WriteStep::Return(WriteEnd::Written(changes))
            } else {
                WriteStep::Return(WriteEnd::Remaining(left))
            })
        },
{
    let n = steps.len();
    assert(n >= 2);
    assert(fits(steps[0], done[0]));
    assert(steps[1] == step_after(done[0], changes));
    assert(n >= 3);
    assert(fits(steps[1], done[1]));
    assert(steps[2] == step_after(done[1], changes));
    assert(done[1] is Planned);
    assert(done[1] == WriteDone::Planned(changes));
    if changes == 0 {
        if n > 3 {
            assert(fits(steps[2], done[2]));
        }
    } else {
        assert(n >= 4);
        assert(fits(steps[2], done[2]));
        assert(steps[3] == step_after(done[2], changes));
        assert(n >= 5);
        assert(fits(steps[3], done[3]));
        assert(steps[4] == step_after(done[3], changes));
        assert(n >= 6);
        assert(fits(steps[4], done[4]));
        assert(steps[5] == step_after(done[4], changes));
        assert(n >= 7);
        assert(fits(steps[5], done[5]));
        assert(steps[6] == step_after(done[5], changes));
        if n > 7 {
            assert(fits(steps[6], done[6]));
        }
    }
}

/// A step that fails ends the write as failed, with nothing done after it.
pub proof fn a_failed_step_ends_the_write(
    steps: Seq<WriteStep>,
    done: Seq<WriteDone>,
    changes: usize,
    i: int,
)
    requires
        is_run(steps, done, changes),
        0 <= i < done.len(),
        done[i] == WriteDone::Failed,
    ensures
        steps[i + 1] == WriteStep::Return(WriteEnd::Failed),
        steps.len() == i + 2,
{
    assert(steps[i + 1] == step_after(done[i], changes));
    if steps.len() > i + 2 {
        assert(fits(steps[i + 1], done[i + 1]));
    }
}

} // verus!
