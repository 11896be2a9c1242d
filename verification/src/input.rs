//! The G502's keyboard-like evdev endpoint: recognise it, and turn F13/F14 into DPI
//! steps.
//!
//! The profile-1 side buttons send KEY_F13 / KEY_F14 as macros. The endpoint is grabbed
//! exclusively so those keys never reach the desktop. Only one process may do this per
//! node.

use crate::dpi::Step;
use crate::journal::{ERROR, INFO, WARNING};
use vstd::prelude::*;

verus! {

/// evdev's code of the key that steps the DPI down.
pub const KEY_F13: u16 = 183;

/// evdev's code of the key that steps the DPI up.
pub const KEY_F14: u16 = 184;

/// evdev's event type for keys.
pub const EVENT_KEY: u16 = 1;

// ------------------------------------------------------------------------ endpoint
/// What is known of an input node.
#[derive(Debug, PartialEq)]
pub struct Endpoint {
    pub vendor: u16,
    pub product: u16,
    /// The codes of the keys it can emit, if it has keys.
    pub keys: Option<Vec<u16>>,
}

/// The node has our vendor and product and can emit F13 and F14. The plain mouse
/// node shares the ids but has no such keys.
pub open spec fn is_endpoint(e: Endpoint, vendor: u16, product: u16) -> bool {
    &&& e.vendor == vendor
    &&& e.product == product
    &&& e.keys matches Some(k) && k@.contains(KEY_F13) && k@.contains(KEY_F14)
}

fn has_code(v: &Vec<u16>, x: u16) -> (r: bool)
    ensures
        r == v@.contains(x),
{
    let mut i: usize = 0;
    while i < v.len()
        invariant
            i <= v.len(),
            forall|j: int| 0 <= j < i ==> v@[j] != x,
        decreases v.len() - i,
    {
        if v[i] == x {
            assert(v@[i as int] == x);
            return true;
        }
        i += 1;
    }
    false
}

fn is_ours(e: &Endpoint, vendor: u16, product: u16) -> (r: bool)
    ensures
        r == is_endpoint(*e, vendor, product),
{
    if e.vendor != vendor || e.product != product {
        return false;
    }
    match &e.keys {
        None => false,
        Some(k) => has_code(k, KEY_F13) && has_code(k, KEY_F14),
    }
}

/// The position of the first node with our vendor/product that can emit F13 and F14.
pub fn find_endpoint(nodes: &[Endpoint], vendor: u16, product: u16) -> (r: Option<usize>)
    ensures
        match r {
            Some(i) => i < nodes@.len() && is_endpoint(nodes@[i as int], vendor, product) && forall|
                j: int,
            |
                0 <= j < i ==> !is_endpoint(#[trigger] nodes@[j], vendor, product),
            None => forall|j: int|
                0 <= j < nodes@.len() ==> !is_endpoint(#[trigger] nodes@[j], vendor, product),
        },
{
    let mut i: usize = 0;
    while i < nodes.len()
        invariant
            i <= nodes.len(),
            forall|j: int| 0 <= j < i ==> !is_endpoint(#[trigger] nodes@[j], vendor, product),
        decreases nodes.len() - i,
    {
        if is_ours(&nodes[i], vendor, product) {
            return Some(i);
        }
        i += 1;
    }
    None
}

// ------------------------------------------------------------------------- presses
/// One event of the endpoint. For a key, value 1 is a press, 0 a release and 2 an
/// autorepeat.
#[derive(Clone, Copy, Debug, PartialEq, Eq)]
pub struct InputEvent {
    pub kind: u16,
    pub code: u16,
    pub value: i32,
}

/// The step that a key stands for.
pub open spec fn key_step(code: u16) -> Option<Step> {
    if code == KEY_F13 {
        Some(Step::Down)
    } else if code == KEY_F14 {
        Some(Step::Up)
    } else {
        None
    }
}

/// The step that an event asks for: only the press of one of the two keys does.
pub open spec fn event_step(e: InputEvent) -> Option<Step> {
    if e.kind == EVENT_KEY && e.value == 1 {
        key_step(e.code)
    } else {
        None
    }
}

/// The steps that events ask for, in order.
pub open spec fn event_steps(events: Seq<InputEvent>) -> Seq<Step>
    decreases events.len(),
{
    if events.len() == 0 {
        Seq::empty()
    } else {
        let before = event_steps(events.drop_last());
        match event_step(events.last()) {
            Some(s) => before.push(s),
            None => before,
        }
    }
}

pub fn step_for(code: u16) -> (r: Option<Step>)
    ensures
        r == key_step(code),
{
    if code == KEY_F13 {
        Some(Step::Down)
    } else if code == KEY_F14 {
        Some(Step::Up)
    } else {
        None
    }
}

/// The steps of a read from the endpoint. Releases and autorepeat are ignored.
pub fn steps_of(events: &[InputEvent]) -> (r: Vec<Step>)
    ensures
        r@ == event_steps(events@),
{
    let mut steps: Vec<Step> = Vec::new();
    let mut i: usize = 0;
    while i < events.len()
        invariant
            i <= events.len(),
            steps@ == event_steps(events@.take(i as int)),
        decreases events.len() - i,
    {
        let e = events[i];
        if e.kind == EVENT_KEY && e.value == 1 {
            if let Some(s) = step_for(e.code) {
                steps.push(s);
            }
        }
        i += 1;
        assert(events@.take(i as int).drop_last() =~= events@.take(i - 1));
    }
    assert(events@.take(events@.len() as int) =~= events@);
    steps
}

// ------------------------------------------------------------------------ listening
/// What the listener remembers between attempts: a failure is logged once, not on
/// every retry.
#[derive(Clone, Copy, Debug, PartialEq, Eq)]
pub struct Listener {
    pub waiting_logged: bool,
    pub grab_logged: bool,
}

/// What came of the last thing that was done.
#[derive(Clone, Copy, Debug, PartialEq, Eq)]
pub enum Happened {
    /// No endpoint was found.
    NotFound,
    Found,
    /// The endpoint could not be grabbed.
    NotGrabbed,
    Grabbed,
    /// Events were read, and their steps were sent.
    Sent,
    /// Reading failed: the mouse is gone.
    WentAway,
    /// Nobody takes the steps any more.
    ReceiverGone,
}

/// What to log.
#[derive(Clone, Copy, Debug, PartialEq, Eq)]
pub enum Notice {
    Waiting,
    CannotGrab,
    Listening,
    WentAway,
}

/// What to do next.
#[derive(Clone, Copy, Debug, PartialEq, Eq)]
pub enum Next {
    Find,
    Grab,
    Read,
    Stop,
}

/// Log, wait, then go on.
#[derive(Clone, Copy, Debug, PartialEq, Eq)]
pub struct Reaction {
    pub notice: Option<Notice>,
    pub pause_seconds: u64,
    pub next: Next,
}

/// At the start nothing has been logged.
pub open spec fn fresh_listener() -> Listener {
    Listener { waiting_logged: false, grab_logged: false }
}

/// What the listener remembers after something happened.
pub open spec fn remembers(l: Listener, h: Happened) -> Listener {
    match h {
        Happened::NotFound => Listener { waiting_logged: true, ..l },
        Happened::Found => Listener { waiting_logged: false, ..l },
        Happened::NotGrabbed => Listener { grab_logged: true, ..l },
        Happened::Grabbed => Listener { grab_logged: false, ..l },
        _ => l,
    }
}

/// How the listener reacts. It stops only when the receiver is gone.
pub open spec fn reaction(l: Listener, h: Happened) -> Reaction {
    let (notice, pause_seconds, next) = match h {
        Happened::NotFound => (
            if l.waiting_logged {
                None
            } else {
                Some(Notice::Waiting)
            },
            2u64,
            Next::Find,
        ),
        Happened::Found => (None, 0, Next::Grab),
        Happened::NotGrabbed => (
            if l.grab_logged {
                None
            } else {
                Some(Notice::CannotGrab)
            },
            5,
            Next::Find,
        ),
        Happened::Grabbed => (Some(Notice::Listening), 0, Next::Read),
        Happened::Sent => (None, 0, Next::Read),
        Happened::WentAway => (Some(Notice::WentAway), 1, Next::Find),
        Happened::ReceiverGone => (None, 0, Next::Stop),
    };
    Reaction { notice, pause_seconds, next }
}

impl Default for Listener {
    fn default() -> (r: Self)
        ensures
            r == fresh_listener(),
    {
        Listener { waiting_logged: false, grab_logged: false }
    }
}

impl Listener {
    /// Reconnects when the mouse disappears or the grab fails.
    pub fn react(&mut self, h: Happened) -> (r: Reaction)
        ensures
            *final(self) == remembers(*old(self), h),
            r == reaction(*old(self), h),
    {
        let (notice, pause_seconds, next): (Option<Notice>, u64, Next) = match h {
            Happened::NotFound => {
                let notice = if self.waiting_logged {
                    None
                } else {
                    Some(Notice::Waiting)
                };
                self.waiting_logged = true;
                (notice, 2, Next::Find)
            },
            Happened::Found => {
                self.waiting_logged = false;
                (None, 0, Next::Grab)
            },
            Happened::NotGrabbed => {
                let notice = if self.grab_logged {
                    None
                } else {
                    Some(Notice::CannotGrab)
                };
                self.grab_logged = true;
                (notice, 5, Next::Find)
            },
            Happened::Grabbed => {
                self.grab_logged = false;
                (Some(Notice::Listening), 0, Next::Read)
            },
            Happened::Sent => (None, 0, Next::Read),
            Happened::WentAway => (Some(Notice::WentAway), 1, Next::Find),
            Happened::ReceiverGone => (None, 0, Next::Stop),
        };
        Reaction { notice, pause_seconds, next }
    }
}

/// The priority of a notice.
pub open spec fn notice_priority(n: Notice) -> u8 {
    match n {
        Notice::Waiting => WARNING,
        Notice::CannotGrab => ERROR,
        Notice::Listening => INFO,
        Notice::WentAway => WARNING,
    }
}

/// The words of a notice about the node at `path`; `detail` is the error, or the
/// name of the device that is listened to.
pub open spec fn notice_words(n: Notice, path: Seq<char>, detail: Seq<char>) -> Seq<char> {
    match n {
        Notice::Waiting => "G502 keyboard endpoint not found or not readable; waiting"@,
        Notice::CannotGrab => "cannot grab "@ + path + " ("@ + detail
            + "); is another daemon (g502-dpid?) running? retrying every 5s"@,
        Notice::Listening => "listening on "@ + path + " ("@ + detail + ")"@,
        Notice::WentAway => path + " went away: "@ + detail,
    }
}

pub fn notice_text(n: Notice, path: &str, detail: &str) -> (r: (u8, String))
    ensures
        r.0 == notice_priority(n),
        r.1@ == notice_words(n, path@, detail@),
{
    match n {
        Notice::Waiting => (
            WARNING,
            "G502 keyboard endpoint not found or not readable; waiting".to_owned(),
        ),
        Notice::CannotGrab => {
            let mut s = "cannot grab ".to_owned();
            s.append(path);
            s.append(" (");
            s.append(detail);
            s.append("); is another daemon (g502-dpid?) running? retrying every 5s");
            (ERROR, s)
        },
        Notice::Listening => {
            let mut s = "listening on ".to_owned();
            s.append(path);
            s.append(" (");
            s.append(detail);
            s.append(")");
            (INFO, s)
        },
        Notice::WentAway => {
            let mut s = path.to_owned();
            s.append(" went away: ");
            s.append(detail);
            (WARNING, s)
        },
    }
}

// ----------------------------------------------------------------------------- laws
/// The listener after a history.
pub open spec fn listener_after(history: Seq<Happened>) -> Listener
    decreases history.len(),
{
    if history.len() == 0 {
        fresh_listener()
    } else {
        remembers(listener_after(history.drop_last()), history.last())
    }
}

/// What was logged at a point of a history.
pub open spec fn logged_at(history: Seq<Happened>, i: int) -> Option<Notice> {
    reaction(listener_after(history.take(i)), history[i]).notice
}

proof fn lemma_remembers_waiting(history: Seq<Happened>, i: int, j: int)
    requires
        0 <= i < j <= history.len(),
        history[i] == Happened::NotFound,
        forall|k: int| i < k < j ==> history[k] != Happened::Found,
    ensures
        listener_after(history.take(j)).waiting_logged,
    decreases j,
{
    assert(history.take(j).drop_last() =~= history.take(j - 1));
    if j - 1 > i {
        lemma_remembers_waiting(history, i, j - 1);
        assert(history[j - 1] != Happened::Found);
    }
}

proof fn lemma_remembers_grab(history: Seq<Happened>, i: int, j: int)
    requires
        0 <= i < j <= history.len(),
        history[i] == Happened::NotGrabbed,
        forall|k: int| i < k < j ==> history[k] != Happened::Grabbed,
    ensures
        listener_after(history.take(j)).grab_logged,
    decreases j,
{
    assert(history.take(j).drop_last() =~= history.take(j - 1));
    if j - 1 > i {
        lemma_remembers_grab(history, i, j - 1);
        assert(history[j - 1] != Happened::Grabbed);
    }
}

/// A missing endpoint is logged when it is first missed, and not again until it has
/// been found.
pub proof fn a_missing_endpoint_is_logged_once(history: Seq<Happened>, i: int, j: int)
    requires
        0 <= i < j < history.len(),
        history[i] == Happened::NotFound,
        history[j] == Happened::NotFound,
        forall|k: int| i < k < j ==> history[k] != Happened::Found,
    ensures
        logged_at(history, j) is None,
{
    lemma_remembers_waiting(history, i, j);
}

/// A failed grab is logged the first time, and not again until one succeeded.
pub proof fn a_failed_grab_is_logged_once(history: Seq<Happened>, i: int, j: int)
    requires
        0 <= i < j < history.len(),
        history[i] == Happened::NotGrabbed,
        history[j] == Happened::NotGrabbed,
        forall|k: int| i < k < j ==> history[k] != Happened::Grabbed,
    ensures
        logged_at(history, j) is None,
{
    lemma_remembers_grab(history, i, j);
}

/// The steps of two reads in a row are the steps of both together: no press is lost
/// or counted twice.
pub proof fn reads_compose(a: Seq<InputEvent>, b: Seq<InputEvent>)
    ensures
        event_steps(a + b) == event_steps(a) + event_steps(b),
    decreases b.len(),
{
    if b.len() == 0 {
        assert(a + b =~= a);
        assert(event_steps(a) + event_steps(b) =~= event_steps(a));
    } else {
        assert((a + b).drop_last() =~= a + b.drop_last());
        reads_compose(a, b.drop_last());
        assert(event_steps(a + b) =~= event_steps(a) + event_steps(b));
    }
}

/// A key steps the DPI when it is pressed: F13, evdev's key 183, down and F14, its key 184,
/// up. Releases (value 0), autorepeat (value 2), other keys and other events do not.
pub proof fn only_presses_step(e: InputEvent)
    ensures
        event_step(e) == Some(Step::Down) <==> e.kind == 1 && e.value == 1 && e.code == 183,
        event_step(e) == Some(Step::Up) <==> e.kind == 1 && e.value == 1 && e.code == 184,
        event_step(e) is Some ==> event_steps(seq![e]) == seq![event_step(e)->0],
        event_step(e) is None ==> event_steps(seq![e]) == Seq::<Step>::empty(),
{
    assert(seq![e].drop_last() =~= Seq::<InputEvent>::empty());
    assert(event_steps(Seq::<InputEvent>::empty()) == Seq::<Step>::empty());
    if event_step(e) is Some {
        assert(event_steps(seq![e]) =~= seq![event_step(e)->0]);
    }
}

/// A node is the endpoint exactly where it has both ids and can emit evdev's keys 183 and 184.
pub proof fn an_endpoint_has_both_keys(e: Endpoint, vendor: u16, product: u16)
    ensures
        is_endpoint(e, vendor, product) <==> {
            &&& e.vendor == vendor
            &&& e.product == product
            &&& e.keys is Some
            &&& exists|i: int| 0 <= i < e.keys->0@.len() && #[trigger] e.keys->0@[i] == 183
            &&& exists|i: int| 0 <= i < e.keys->0@.len() && #[trigger] e.keys->0@[i] == 184
        },
{
    if e.keys is Some {
        let k = e.keys->0@;
        if exists|i: int| 0 <= i < k.len() && #[trigger] k[i] == 183 {
            let i = choose|i: int| 0 <= i < k.len() && #[trigger] k[i] == 183;
            assert(k.contains(183u16));
        }
        if exists|i: int| 0 <= i < k.len() && #[trigger] k[i] == 184 {
            let i = choose|i: int| 0 <= i < k.len() && #[trigger] k[i] == 184;
            assert(k.contains(184u16));
        }
        if k.contains(183u16) {
            let i = choose|i: int| 0 <= i < k.len() && k[i] == 183u16;
            assert(k[i] == 183);
        }
        if k.contains(184u16) {
            let i = choose|i: int| 0 <= i < k.len() && k[i] == 184u16;
            assert(k[i] == 184);
        }
    }
}

proof fn lemma_not_waiting(history: Seq<Happened>, i: int, j: int)
    requires
        -1 <= i < j <= history.len(),
        i >= 0 ==> history[i] == Happened::Found,
        forall|k: int| i < k < j ==> history[k] != Happened::NotFound,
    ensures
        !listener_after(history.take(j)).waiting_logged,
    decreases j,
{
    if j > 0 {
        assert(history.take(j).drop_last() =~= history.take(j - 1));
        if j - 1 > i {
            lemma_not_waiting(history, i, j - 1);
            assert(history[j - 1] != Happened::NotFound);
        }
    }
}

proof fn lemma_not_failed(history: Seq<Happened>, i: int, j: int)
    requires
        -1 <= i < j <= history.len(),
        i >= 0 ==> history[i] == Happened::Grabbed,
        forall|k: int| i < k < j ==> history[k] != Happened::NotGrabbed,
    ensures
        !listener_after(history.take(j)).grab_logged,
    decreases j,
{
    if j > 0 {
        assert(history.take(j).drop_last() =~= history.take(j - 1));
        if j - 1 > i {
            lemma_not_failed(history, i, j - 1);
            assert(history[j - 1] != Happened::NotGrabbed);
        }
    }
}

/// A missing endpoint is logged the first time that it is missed, from the start (`i` is -1)
/// or since it was last found.
pub proof fn a_missing_endpoint_is_logged(history: Seq<Happened>, i: int, j: int)
    requires
        -1 <= i < j < history.len(),
        i >= 0 ==> history[i] == Happened::Found,
        history[j] == Happened::NotFound,
        forall|k: int| i < k < j ==> history[k] != Happened::NotFound,
    ensures
        logged_at(history, j) == Some(Notice::Waiting),
{
    lemma_not_waiting(history, i, j);
}

/// A failed grab is logged the first time, from the start (`i` is -1) or since one last
/// succeeded.
pub proof fn a_failed_grab_is_logged(history: Seq<Happened>, i: int, j: int)
    requires
        -1 <= i < j < history.len(),
        i >= 0 ==> history[i] == Happened::Grabbed,
        history[j] == Happened::NotGrabbed,
        forall|k: int| i < k < j ==> history[k] != Happened::NotGrabbed,
    ensures
        logged_at(history, j) == Some(Notice::CannotGrab),
{
    lemma_not_failed(history, i, j);
}

/// The listener finds the endpoint, grabs it and reads it, looks for it anew after a failure,
/// and stops only when nobody takes the steps; it waits after a failure and at no other time.
pub proof fn the_listener_goes_on(l: Listener, h: Happened)
    ensures
        reaction(l, h).next == Next::Stop <==> h == Happened::ReceiverGone,
        reaction(l, h).next == Next::Grab <==> h == Happened::Found,
        reaction(l, h).next == Next::Read <==> h == Happened::Grabbed || h == Happened::Sent,
        reaction(l, h).next == Next::Find <==> h == Happened::NotFound || h == Happened::NotGrabbed || h
            == Happened::WentAway,
        reaction(l, h).pause_seconds > 0 <==> reaction(l, h).next == Next::Find,
        h == Happened::NotFound ==> reaction(l, h).pause_seconds == 2,
        h == Happened::NotGrabbed ==> reaction(l, h).pause_seconds == 5,
        h == Happened::WentAway ==> reaction(l, h).pause_seconds == 1,
        h == Happened::Grabbed ==> reaction(l, h).notice == Some(Notice::Listening),
        h == Happened::WentAway ==> reaction(l, h).notice == Some(Notice::WentAway),
        h == Happened::Found || h == Happened::Sent || h == Happened::ReceiverGone ==> reaction(
            l,
            h,
        ).notice is None,
{
}

} // verus!
