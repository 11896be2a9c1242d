//! Lines for the log. Under systemd a `<N>` prefix sets the priority, so
//! `journalctl -p warning` works.

use crate::text::{dec, push_dec};
use vstd::prelude::*;

verus! {

/// syslog priorities.
pub const ERROR: u8 = 3;

pub const WARNING: u8 = 4;

pub const INFO: u8 = 6;

/// A line for the log, with its priority where the journal reads it.
pub open spec fn log_text(level: u8, message: Seq<char>, journal: bool) -> Seq<char> {
    if journal {
        "<"@ + dec(level as nat) + ">"@ + message
    } else {
        message
    }
}

pub fn log_line(level: u8, message: &str, journal: bool) -> (r: String)
    ensures
        r@ == log_text(level, message@, journal),
{
    if journal {
        let mut s = "<".to_owned();
        push_dec(&mut s, level as u64);
        s.append(">");
        s.append(message);
        s
    } else {
        message.to_owned()
    }
}

} // verus!
