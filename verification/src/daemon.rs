//! What g502d does with presses, and which buttons send them.

use crate::config::Config;
use crate::dpi::outcome;
use crate::error::{Error, Failure};
use crate::input::{KEY_F13, KEY_F14};
use crate::journal::{ERROR, INFO, WARNING};
use crate::ratbag::{event_pairs, raw_model, RawModel, RawValue};
use crate::text::{dec, join, list_text, number_list, push_dec};
use vstd::prelude::*;

verus! {

// ----------------------------------------------------------------------------- keys
/// Press and release of one key.
pub open spec fn tap(code: u32) -> Seq<(u32, u32)> {
    seq![(1u32, code), (2u32, code)]
}

/// What g502d does with an onboard macro, if it is one of its two keys.
pub open spec fn role_of(kind: u32, value: Option<RawModel>) -> Option<Seq<char>> {
    if kind == 4 && value == Some(RawModel::MacroEvents(tap(KEY_F13 as u32))) {
        Some("DPI down (KEY_F13)"@)
    } else if kind == 4 && value == Some(RawModel::MacroEvents(tap(KEY_F14 as u32))) {
        Some("DPI up (KEY_F14)"@)
    } else {
        None
    }
}

/// The mapping is a macro that presses and releases the key `code`.
pub fn is_macro_of(kind: u32, value: &Option<RawValue>, code: u32) -> (r: bool)
    ensures
        r == (kind == 4 && raw_model(*value) == Some(RawModel::MacroEvents(tap(code)))),
{
    if kind != 4 {
        return false;
    }
    match value {
        Some(RawValue::MacroEvents(ev)) => {
            let ghost pairs = event_pairs(ev@);
            if ev.len() != 2 {
                assert(pairs.len() != tap(code).len());
                return false;
            }
            assert(pairs[0] == (ev@[0]@[0], ev@[0]@[1]));
            assert(pairs[1] == (ev@[1]@[0], ev@[1]@[1]));
            let r = ev[0][0] == 1 && ev[0][1] == code && ev[1][0] == 2 && ev[1][1] == code;
            if r {
                assert(pairs =~= tap(code));
            } else {
                assert(pairs[0] != tap(code)[0] || pairs[1] != tap(code)[1]);
            }
            r
        },
        _ => false,
    }
}

/// What g502d does with an onboard macro, if it is one of its two keys.
pub fn daemon_role(kind: u32, value: &Option<RawValue>) -> (r: Option<&'static str>)
    ensures
        crate::apply::optional_str(r) == role_of(kind, raw_model(*value)),
{
    if is_macro_of(kind, value, KEY_F13 as u32) {
        Some("DPI down (KEY_F13)")
    } else if is_macro_of(kind, value, KEY_F14 as u32) {
        Some("DPI up (KEY_F14)")
    } else {
        None
    }
}

// ------------------------------------------------------------------------- the loop
/// What happened to a batch of presses.
#[derive(Clone, Copy, Debug, PartialEq, Eq)]
pub enum DaemonEvent {
    /// A batch arrived.
    Batch,
    Connected,
    /// The device cannot be used.
    NotConnected,
    Applied,
    /// The update failed.
    NotApplied,
}

#[derive(Clone, Copy, Debug, PartialEq, Eq)]
pub enum DaemonAction {
    Connect,
    Apply,
    /// Wait for the next batch.
    Wait,
}

/// Whether there is a connection. ratbagd may be down or the mouse absent at the start,
/// so the connection is made when it is first needed and again after any error.
#[derive(Clone, Copy, Debug, PartialEq, Eq)]
pub struct Daemon {
    pub connected: bool,
}

pub open spec fn daemon_after(d: Daemon, e: DaemonEvent) -> Daemon {
    match e {
        DaemonEvent::Connected => Daemon { connected: true },
        DaemonEvent::NotApplied => Daemon { connected: false },
        _ => d,
    }
}

pub open spec fn daemon_does(d: Daemon, e: DaemonEvent) -> DaemonAction {
    match e {
        DaemonEvent::Batch => if d.connected {
            DaemonAction::Apply
        } else {
            DaemonAction::Connect
        },
        DaemonEvent::Connected => DaemonAction::Apply,
        _ => DaemonAction::Wait,
    }
}

impl Default for Daemon {
    fn default() -> (d: Self)
        ensures
            !d.connected,
    {
        Daemon { connected: false }
    }
}

impl Daemon {
    pub fn react(&mut self, e: DaemonEvent) -> (r: DaemonAction)
        ensures
            *final(self) == daemon_after(*old(self), e),
            r == daemon_does(*old(self), e),
    {
        match e {
            DaemonEvent::Batch => if self.connected {
                DaemonAction::Apply
            } else {
                DaemonAction::Connect
            },
            DaemonEvent::Connected => {
                self.connected = true;
                DaemonAction::Apply
            },
            DaemonEvent::NotConnected => DaemonAction::Wait,
            DaemonEvent::Applied => DaemonAction::Wait,
            DaemonEvent::NotApplied => {
                self.connected = false;
                DaemonAction::Wait
            },
        }
    }
}

/// The line that tells what the daemon is set up for.
pub fn setup_line(cfg: &Config) -> (r: String)
    ensures
        r@ == "stages "@ + number_list(cfg@.dpi.values) + ", shared slot "@ + dec(
            cfg@.dpi.shared_slot as nat,
        ) + ", synced profiles "@ + number_list(cfg@.dpi.profiles),
{
    let mut s = "stages ".to_owned();
    let values = list_text(&cfg.dpi.values);
    s.append(values.as_str());
    s.append(", shared slot ");
    push_dec(&mut s, cfg.dpi.shared_slot as u64);
    s.append(", synced profiles ");
    let profiles = list_text(&cfg.dpi.profiles);
    s.append(profiles.as_str());
    s
}

/// The line for a batch that was dropped because the device cannot be used.
pub fn dropped_line(presses: usize, e: &Error) -> (r: (u8, String))
    ensures
        r.0 == WARNING,
        r.1@ == "cannot use device, dropping "@ + dec(presses as nat) + " press(es): "@ + join(
            e@,
            ": "@,
        ),
{
    let mut s = "cannot use device, dropping ".to_owned();
    push_dec(&mut s, presses as u64);
    s.append(" press(es): ");
    let m = e.message();
    s.append(m.as_str());
    (WARNING, s)
}

/// What is logged of a batch of presses.
pub open spec fn batch_words(r: Result<Option<(u32, u32)>, Failure>, presses: nat) -> (u8, Seq<char>) {
    match r {
        Ok(Some((from, to))) => (
            INFO,
            "dpi "@ + dec(from as nat) + " -> "@ + dec(to as nat) + " ("@ + dec(presses)
                + " press(es))"@,
        ),
        Ok(None) => (INFO, "dpi unchanged ("@ + dec(presses) + " press(es), at boundary)"@),
        Err(e) => (ERROR, "dpi update failed: "@ + join(e, ": "@)),
    }
}

pub fn batch_line(result: &Result<Option<(u32, u32)>, Error>, presses: usize) -> (r: (u8, String))
    ensures
        (r.0, r.1@) == batch_words(outcome(*result), presses as nat),
{
    match result {
        Ok(Some((from, to))) => {
            let mut s = "dpi ".to_owned();
            push_dec(&mut s, *from as u64);
            s.append(" -> ");
            push_dec(&mut s, *to as u64);
            s.append(" (");
            push_dec(&mut s, presses as u64);
            s.append(" press(es))");
            (INFO, s)
        },
        Ok(None) => {
            let mut s = "dpi unchanged (".to_owned();
            push_dec(&mut s, presses as u64);
            s.append(" press(es), at boundary)");
            (INFO, s)
        },
        Err(e) => {
            let mut s = "dpi update failed: ".to_owned();
            let m = e.message();
            s.append(m.as_str());
            (ERROR, s)
        },
    }
}

/// A batch is written only over a connection that was made and has not failed since.
pub proof fn presses_need_a_connection(d: Daemon, e: DaemonEvent)
    ensures
        daemon_does(d, e) is Apply ==> daemon_after(d, e).connected,
        daemon_does(d, e) is Connect ==> !d.connected,
{
}

/// The daemon after a history.
pub open spec fn daemon_at(history: Seq<DaemonEvent>) -> Daemon
    decreases history.len(),
{
    if history.len() == 0 {
        Daemon { connected: false }
    } else {
        daemon_after(daemon_at(history.drop_last()), history.last())
    }
}

/// A batch is written at once where a connection was made at `i` and no update has failed
/// since.
pub proof fn a_connection_is_kept_until_an_update_fails(history: Seq<DaemonEvent>, i: int)
    requires
        0 <= i < history.len(),
        history[i] == DaemonEvent::Connected,
        forall|k: int| i < k < history.len() ==> history[k] != DaemonEvent::NotApplied,
    ensures
        daemon_at(history).connected,
        daemon_does(daemon_at(history), DaemonEvent::Batch) == DaemonAction::Apply,
    decreases history.len(),
{
    if i < history.len() - 1 {
        let before = history.drop_last();
        assert(before[i] == history[i]);
        assert forall|k: int| i < k < before.len() implies before[k] != DaemonEvent::NotApplied by {
            assert(before[k] == history[k]);
        }
        a_connection_is_kept_until_an_update_fails(before, i);
        assert(history[history.len() - 1] != DaemonEvent::NotApplied);
    }
}

/// A batch needs a new connection where none was made since the last update that failed at
/// `i`, or since the start (`i` is -1).
pub proof fn a_failed_update_needs_a_new_connection(history: Seq<DaemonEvent>, i: int)
    requires
        -1 <= i < history.len(),
        i >= 0 ==> history[i] == DaemonEvent::NotApplied,
        forall|k: int| i < k < history.len() ==> history[k] != DaemonEvent::Connected,
    ensures
        !daemon_at(history).connected,
        daemon_does(daemon_at(history), DaemonEvent::Batch) == DaemonAction::Connect,
    decreases history.len(),
{
    if i < history.len() - 1 {
        let before = history.drop_last();
        assert forall|k: int| i < k < before.len() implies before[k] != DaemonEvent::Connected by {
            assert(before[k] == history[k]);
        }
        if i >= 0 {
            assert(before[i] == history[i]);
        }
        a_failed_update_needs_a_new_connection(before, i);
        assert(history[history.len() - 1] != DaemonEvent::Connected);
    }
}

/// A batch that a connection was made for is written; one that none could be made for is
/// dropped, and after either the next one is waited for.
pub proof fn a_batch_is_written_or_dropped(d: Daemon)
    ensures
        daemon_does(d, DaemonEvent::Connected) == DaemonAction::Apply,
        daemon_does(d, DaemonEvent::NotConnected) == DaemonAction::Wait,
        daemon_does(d, DaemonEvent::Applied) == DaemonAction::Wait,
        daemon_does(d, DaemonEvent::NotApplied) == DaemonAction::Wait,
{
}

/// g502d acts on two onboard macros: the press and release of evdev's key 183 steps down, that
/// of its key 184 up.
pub proof fn two_macros_have_a_role(kind: u32, value: Option<RawModel>)
    ensures
        role_of(4, Some(RawModel::MacroEvents(seq![(1u32, 183u32), (2u32, 183u32)]))) == Some(
            "DPI down (KEY_F13)"@,
        ),
        role_of(4, Some(RawModel::MacroEvents(seq![(1u32, 184u32), (2u32, 184u32)]))) == Some(
            "DPI up (KEY_F14)"@,
        ),
        role_of(kind, value) is Some ==> kind == 4 && (value == Some(
            RawModel::MacroEvents(seq![(1u32, 183u32), (2u32, 183u32)]),
        ) || value == Some(RawModel::MacroEvents(seq![(1u32, 184u32), (2u32, 184u32)]))),
{
    let up: Seq<(u32, u32)> = seq![(1u32, 184u32), (2u32, 184u32)];
    assert(up[0] != tap(183)[0]);
}

} // verus!
