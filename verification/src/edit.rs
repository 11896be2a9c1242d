//! Edits of one setting: what is being edited, and the state the device should end up
//! with.

use crate::action::{
    action_of, action_string, led_mode_of, led_mode_text, led_modes_and_names_agree, led_modes_have_their_values,
    parse_led_mode, spelled_value, spelling_of, spelling_reads_back,
};
use crate::apply::{
    button_edit, disabled_edit, led_edit, rate_edit, slot_edit, with_button, with_led,
    with_profile_disabled, with_report_rate, with_slot,
};
use crate::config::{Config, ConfigModel};
use crate::error::{failure, is_outcome_of, Error, Failure};
use crate::ratbag::{raw_model, RawModel, RawValue, Snapshot, SnapshotModel};
use crate::text::{
    chars_of, dec, is_space, is_word, lemma_dec, lemma_number_of_dec, lemma_words_are_words, number, parse_number, push_dec, quote,
    quoted, same, split_words, str_texts, text_of, texts, trim, trimmed, words,
};
use vstd::prelude::*;

verus! {

// ---------------------------------------------------------------------------- kinds
/// The kind of button action being edited (the words `g502ctl button set` takes).
#[derive(Clone, Copy, Debug, PartialEq, Eq)]
pub enum Kind {
    Nothing,
    MouseButton,
    Special,
    Key,
    Macro,
}

/// The kinds in the order they are offered.
pub const KINDS: [Kind; 5] = [
    Kind::MouseButton,
    Kind::Special,
    Kind::Key,
    Kind::Macro,
    Kind::Nothing,
];

pub open spec fn kind_word(k: Kind) -> Seq<char> {
    match k {
        Kind::Nothing => "none"@,
        Kind::MouseButton => "button"@,
        Kind::Special => "special"@,
        Kind::Key => "key"@,
        Kind::Macro => "macro"@,
    }
}

/// The kind that a word stands for.
pub open spec fn kind_of(w: Seq<char>) -> Option<Kind> {
    if w == "button"@ {
        Some(Kind::MouseButton)
    } else if w == "special"@ {
        Some(Kind::Special)
    } else if w == "key"@ {
        Some(Kind::Key)
    } else if w == "macro"@ {
        Some(Kind::Macro)
    } else if w == "none"@ {
        Some(Kind::Nothing)
    } else {
        None
    }
}

/// What a kind starts with when it is chosen.
pub open spec fn kind_default(k: Kind) -> Seq<char> {
    match k {
        Kind::Nothing => ""@,
        Kind::MouseButton => "1"@,
        Kind::Special => "doubleclick"@,
        Kind::Key => "KEY_A"@,
        Kind::Macro => "KEY_A"@,
    }
}

impl Kind {
    /// What the kind is called where it is chosen.
    pub fn label(self) -> (r: &'static str)
        ensures
            r@ == (match self {
                Kind::Nothing => "none (disable button)"@,
                Kind::MouseButton => "mouse button"@,
                Kind::Special => "special action"@,
                Kind::Key => "keyboard key"@,
                Kind::Macro => "key macro (press+release)"@,
            }),
    {
        match self {
            Kind::Nothing => "none (disable button)",
            Kind::MouseButton => "mouse button",
            Kind::Special => "special action",
            Kind::Key => "keyboard key",
            Kind::Macro => "key macro (press+release)",
        }
    }

    pub fn word(self) -> (r: &'static str)
        ensures
            r@ == kind_word(self),
    {
        match self {
            Kind::Nothing => "none",
            Kind::MouseButton => "button",
            Kind::Special => "special",
            Kind::Key => "key",
            Kind::Macro => "macro",
        }
    }

    pub fn from_word(w: &str) -> (r: Option<Kind>)
        ensures
            r == kind_of(w@),
    {
        if same(w, "button") {
            Some(Kind::MouseButton)
        } else if same(w, "special") {
            Some(Kind::Special)
        } else if same(w, "key") {
            Some(Kind::Key)
        } else if same(w, "macro") {
            Some(Kind::Macro)
        } else if same(w, "none") {
            Some(Kind::Nothing)
        } else {
            None
        }
    }

    pub fn default_value(self) -> (r: &'static str)
        ensures
            r@ == kind_default(self),
    {
        match self {
            Kind::Nothing => "",
            Kind::MouseButton => "1",
            Kind::Special => "doubleclick",
            Kind::Key => "KEY_A",
            Kind::Macro => "KEY_A",
        }
    }
}

// ---------------------------------------------------------------------------- edits
#[derive(Debug, PartialEq)]
pub struct ButtonEdit {
    pub profile: u32,
    pub button: u32,
    pub kind: Kind,
    pub value: String,
}

#[derive(Debug, PartialEq)]
pub struct LedEdit {
    pub profile: u32,
    pub led: u32,
    pub mode: u32,
    pub color: String,
    pub brightness: String,
}

#[derive(Debug, PartialEq)]
pub struct SlotEdit {
    pub profile: u32,
    pub slot: u32,
    pub dpi: String,
    pub enabled: bool,
}

/// What is being edited. Each variant knows how to build the snapshot the
/// device should end up with; the preview and the write both start from that.
#[derive(Debug, PartialEq)]
pub enum Edit {
    Button(ButtonEdit),
    Led(LedEdit),
    Rate { profile: u32, hz: u32 },
    /// Enable or disable a whole profile.
    Profile { profile: u32, disable: bool },
    Slot(SlotEdit),
}

#[verifier::ext_equal]
pub enum EditModel {
    Button { profile: u32, button: u32, kind: Kind, value: Seq<char> },
    Led { profile: u32, led: u32, mode: u32, color: Seq<char>, brightness: Seq<char> },
    Rate { profile: u32, hz: u32 },
    Profile { profile: u32, disable: bool },
    Slot { profile: u32, slot: u32, dpi: Seq<char>, enabled: bool },
}

impl View for Edit {
    type V = EditModel;

    open spec fn view(&self) -> EditModel {
        match *self {
            Edit::Button(e) => EditModel::Button {
                profile: e.profile,
                button: e.button,
                kind: e.kind,
                value: e.value@,
            },
            Edit::Led(e) => EditModel::Led {
                profile: e.profile,
                led: e.led,
                mode: e.mode,
                color: e.color@,
                brightness: e.brightness@,
            },
            Edit::Rate { profile, hz } => EditModel::Rate { profile, hz },
            Edit::Profile { profile, disable } => EditModel::Profile { profile, disable },
            Edit::Slot(e) => EditModel::Slot {
                profile: e.profile,
                slot: e.slot,
                dpi: e.dpi@,
                enabled: e.enabled,
            },
        }
    }
}

impl Clone for Edit {
    fn clone(&self) -> (r: Self)
        ensures
            r@ == self@,
    {
        match self {
            Edit::Button(e) => Edit::Button(
                ButtonEdit {
                    profile: e.profile,
                    button: e.button,
                    kind: e.kind,
                    value: e.value.clone(),
                },
            ),
            Edit::Led(e) => Edit::Led(
                LedEdit {
                    profile: e.profile,
                    led: e.led,
                    mode: e.mode,
                    color: e.color.clone(),
                    brightness: e.brightness.clone(),
                },
            ),
            Edit::Rate { profile, hz } => Edit::Rate { profile: *profile, hz: *hz },
            Edit::Profile { profile, disable } => Edit::Profile {
                profile: *profile,
                disable: *disable,
            },
            Edit::Slot(e) => Edit::Slot(
                SlotEdit {
                    profile: e.profile,
                    slot: e.slot,
                    dpi: e.dpi.clone(),
                    enabled: e.enabled,
                },
            ),
        }
    }
}

/// The words `parse_action` understands.
pub open spec fn edit_words(kind: Kind, value: Seq<char>) -> Seq<Seq<char>> {
    match kind {
        Kind::Nothing => seq!["none"@],
        k => seq![kind_word(k), trimmed(value)],
    }
}

/// The profile that an edit is about.
pub open spec fn edit_profile(e: EditModel) -> u32 {
    match e {
        EditModel::Button { profile, .. } => profile,
        EditModel::Led { profile, .. } => profile,
        EditModel::Rate { profile, .. } => profile,
        EditModel::Profile { profile, .. } => profile,
        EditModel::Slot { profile, .. } => profile,
    }
}

/// What an edit is called.
pub open spec fn edit_title(e: EditModel) -> Seq<char> {
    let at = "profile "@ + dec(edit_profile(e) as nat);
    match e {
        EditModel::Button { button, .. } => at + " button "@ + dec(button as nat),
        EditModel::Led { led, .. } => at + " LED "@ + dec(led as nat),
        EditModel::Rate { .. } => at + " report rate"@,
        EditModel::Profile { disable, .. } => at + ": "@ + (if disable {
            "disable"@
        } else {
            "enable"@
        }),
        EditModel::Slot { slot, .. } => at + " resolution slot "@ + dec(slot as nat),
    }
}

/// The state that the device should end up with.
pub open spec fn edit_target(e: EditModel, s: SnapshotModel, c: ConfigModel) -> Result<
    SnapshotModel,
    Failure,
> {
    match e {
        EditModel::Button { profile, button, kind, value } => button_edit(
            s,
            profile,
            button,
            edit_words(kind, value),
        ),
        EditModel::Led { profile, led, mode, color, brightness } => match number(
            trimmed(brightness),
        ) {
            None => Err(
                failure(
                    "brightness must be a number from 0 to 255, got "@ + quoted(trimmed(brightness)),
                ),
            ),
            Some(b) => led_edit(s, profile, led, Some(mode), Some(color), Some(b)),
        },
        EditModel::Rate { profile, hz } => rate_edit(s, profile, hz),
        EditModel::Profile { profile, disable } => disabled_edit(
            s,
            c.dpi.profiles,
            profile,
            disable,
        ),
        EditModel::Slot { profile, slot, dpi, enabled } => match number(trimmed(dpi)) {
            None => Err(
                failure("DPI must be a whole number, got "@ + quoted(trimmed(dpi))),
            ),
            Some(d) => slot_edit(s, c, profile, slot, Some(d), Some(enabled)),
        },
    }
}

/// The words as string slices.
fn slices(parts: &Vec<String>) -> (r: Vec<&str>)
    ensures
        str_texts(r@) == texts(parts@),
{
    let mut list: Vec<&str> = Vec::new();
    let mut i: usize = 0;
    while i < parts.len()
        invariant
            i <= parts.len(),
            list.len() == i,
            forall|j: int| 0 <= j < i ==> (#[trigger] list@[j])@ == parts@[j]@,
        decreases parts.len() - i,
    {
        list.push(parts[i].as_str());
        i += 1;
    }
    assert(str_texts(list@) =~= texts(parts@));
    list
}

impl ButtonEdit {
    /// The words `parse_action` understands.
    pub fn words(&self) -> (r: Vec<String>)
        ensures
            texts(r@) == edit_words(self.kind, self.value@),
    {
        let mut out: Vec<String> = Vec::new();
        out.push(self.kind.word().to_owned());
        if !matches!(self.kind, Kind::Nothing) {
            out.push(trim(self.value.as_str()));
        }
        assert(texts(out@) =~= edit_words(self.kind, self.value@));
        out
    }
}

impl Edit {
    pub fn profile(&self) -> (r: u32)
        ensures
            r == edit_profile(self@),
    {
        match self {
            Edit::Button(e) => e.profile,
            Edit::Led(e) => e.profile,
            Edit::Rate { profile, .. } => *profile,
            Edit::Profile { profile, .. } => *profile,
            Edit::Slot(e) => e.profile,
        }
    }

    pub fn title(&self) -> (r: String)
        ensures
            r@ == edit_title(self@),
    {
        let mut s = "profile ".to_owned();
        push_dec(&mut s, self.profile() as u64);
        match self {
            Edit::Button(e) => {
                s.append(" button ");
                push_dec(&mut s, e.button as u64);
            },
            Edit::Led(e) => {
                s.append(" LED ");
                push_dec(&mut s, e.led as u64);
            },
            Edit::Rate { .. } => s.append(" report rate"),
            Edit::Profile { disable, .. } => {
                s.append(": ");
                s.append(
                    if *disable {
                        "disable"
                    } else {
                        "enable"
                    },
                );
            },
            Edit::Slot(e) => {
                s.append(" resolution slot ");
                push_dec(&mut s, e.slot as u64);
            },
        }
        s
    }

    pub fn target(&self, snap: &Snapshot, cfg: &Config) -> (r: Result<Snapshot, Error>)
        ensures
            is_outcome_of(r, edit_target(self@, snap@, cfg@)),
    {
        match self {
            Edit::Button(e) => {
                let w = e.words();
                let list = slices(&w);
                with_button(snap, e.profile, e.button, list.as_slice())
            },
            Edit::Led(e) => {
                let b = trim(e.brightness.as_str());
                match parse_number(b.as_str()) {
                    None => {
                        let mut m = "brightness must be a number from 0 to 255, got ".to_owned();
                        let q = quote(b.as_str());
                        m.append(q.as_str());
                        Err(Error::new(m))
                    },
                    Some(n) => with_led(
                        snap,
                        e.profile,
                        e.led,
                        Some(e.mode),
                        Some(e.color.as_str()),
                        Some(n),
                    ),
                }
            },
            Edit::Rate { profile, hz } => with_report_rate(snap, *profile, *hz),
            Edit::Profile { profile, disable } => with_profile_disabled(
                snap,
                &cfg.dpi.profiles,
                *profile,
                *disable,
            ),
            Edit::Slot(e) => {
                let d = trim(e.dpi.as_str());
                match parse_number(d.as_str()) {
                    None => {
                        let mut m = "DPI must be a whole number, got ".to_owned();
                        let q = quote(d.as_str());
                        m.append(q.as_str());
                        Err(Error::new(m))
                    },
                    Some(n) => with_slot(
                        snap,
                        cfg,
                        e.profile,
                        e.slot,
                        Some(n),
                        Some(e.enabled),
                    ),
                }
            },
        }
    }
}

// -------------------------------------------------------------------------- editors
/// What the editor of a button starts with: the current action where it has a config
/// spelling.
pub open spec fn started_from(kind: u32, value: Option<RawModel>) -> (Kind, Seq<char>) {
    match spelling_of(kind, value) {
        None => (Kind::MouseButton, "1"@),
        Some(t) => {
            let w = words(t);
            if w.len() == 2 && kind_of(w[0]) is Some {
                (kind_of(w[0])->0, w[1])
            } else if w.len() == 1 && w[0] == "none"@ {
                (Kind::Nothing, ""@)
            } else {
                (Kind::MouseButton, "1"@)
            }
        },
    }
}

pub fn editor_for(profile: u32, kind: u32, value: &Option<RawValue>, button: u32) -> (r: ButtonEdit)
    ensures
        r.profile == profile,
        r.button == button,
        (r.kind, r.value@) == started_from(kind, raw_model(*value)),
{
    match action_string(kind, value) {
        None => ButtonEdit { profile, button, kind: Kind::MouseButton, value: "1".to_owned() },
        Some(t) => {
            let w = split_words(t.as_str());
            assert(texts(w@) == words(t@));
            if w.len() == 2 {
                assert(texts(w@)[0] == w@[0]@ && texts(w@)[1] == w@[1]@);
                if let Some(k) = Kind::from_word(w[0].as_str()) {
                    return ButtonEdit { profile, button, kind: k, value: w[1].clone() };
                }
            } else if w.len() == 1 {
                assert(texts(w@)[0] == w@[0]@);
                if same(w[0].as_str(), "none") {
                    return ButtonEdit { profile, button, kind: Kind::Nothing, value: "".to_owned() };
                }
            }
            ButtonEdit { profile, button, kind: Kind::MouseButton, value: "1".to_owned() }
        },
    }
}

// ------------------------------------------------------------------------- dev hook
/// `s` cut at its first `n - 1` colons.
pub open spec fn cut(s: Seq<char>, n: nat) -> Seq<Seq<char>>
    decreases n,
{
    if n <= 1 || !s.contains(':') {
        seq![s]
    } else {
        let i = s.index_of_first(':')->0;
        seq![s.take(i)] + cut(s.skip(i + 1), (n - 1) as nat)
    }
}

fn colon(chars: &Vec<char>, from: usize) -> (r: usize)
    requires
        from <= chars@.len(),
    ensures
        from <= r <= chars@.len(),
        r < chars@.len() ==> chars@[r as int] == ':',
        forall|j: int| from <= j < r ==> chars@[j] != ':',
{
    let mut i: usize = from;
    while i < chars.len() && chars[i] != ':'
        invariant
            from <= i <= chars@.len(),
            forall|j: int| from <= j < i ==> chars@[j] != ':',
        ensures
            from <= i <= chars@.len(),
            i < chars@.len() ==> chars@[i as int] == ':',
            forall|j: int| from <= j < i ==> chars@[j] != ':',
        decreases chars@.len() - i,
    {
        i += 1;
    }
    i
}

fn cut_at_colons(s: &str, n: usize) -> (r: Vec<String>)
    requires
        n >= 1,
    ensures
        texts(r@) == cut(s@, n as nat),
{
    let chars = chars_of(s);
    let mut out: Vec<String> = Vec::new();
    let mut from: usize = 0;
    let mut left: usize = n;
    assert(s@.skip(0) =~= s@);
    assert(texts(out@) + cut(s@.skip(0), n as nat) =~= cut(s@, n as nat));
    while left > 1
        invariant
            1 <= left <= n,
            from <= chars@.len(),
            chars@ == s@,
            texts(out@) + cut(s@.skip(from as int), left as nat) == cut(s@, n as nat),
        decreases left,
    {
        let ghost rest = s@.skip(from as int);
        let i = colon(&chars, from);
        if i == chars.len() {
            assert(!rest.contains(':'));
            out.push(text_of(&chars, from, i));
            assert(out@.last()@ =~= rest);
            assert(texts(out@) =~= texts(out@.drop_last()) + seq![rest]);
            return out;
        }
        let ghost k = i - from;
        assert(rest[k] == ':');
        assert(rest.index_of_first(':') == Some(k)) by {
            rest.index_of_first_ensures(':');
            let m = rest.index_of_first(':')->0;
            assert(rest[m] == ':');
            if m < k {
                assert(chars@[from + m] != ':');
            }
        }
        let part = text_of(&chars, from, i);
        assert(part@ =~= rest.take(k));
        assert(rest.skip(k + 1) =~= s@.skip(i + 1));
        let ghost before = texts(out@);
        out.push(part);
        assert(texts(out@) =~= before.push(part@));
        from = i + 1;
        left -= 1;
        assert(texts(out@) + cut(s@.skip(from as int), left as nat) =~= before + cut(
            rest,
            (left + 1) as nat,
        ));
    }
    let ghost before = texts(out@);
    let last = text_of(&chars, from, chars.len());
    assert(last@ =~= s@.skip(from as int));
    out.push(last);
    assert(texts(out@) =~= before + seq![last@]);
    out
}

/// `led:P:L:MODE:COLOR:BRIGHTNESS`.
pub open spec fn led_hook(w: Seq<Seq<char>>) -> Option<EditModel> {
    match (number(w[1]), number(w[2]), led_mode_of(w[3])) {
        (Some(profile), Some(led), Ok(mode)) => Some(
            EditModel::Led { profile, led, mode, color: w[4], brightness: w[5] },
        ),
        _ => None,
    }
}

/// `slot:P:S:DPI:enabled|disabled`.
pub open spec fn slot_hook(w: Seq<Seq<char>>) -> Option<EditModel> {
    match (number(w[1]), number(w[2])) {
        (Some(profile), Some(slot)) => Some(
            EditModel::Slot { profile, slot, dpi: w[3], enabled: w[4] != "disabled"@ },
        ),
        _ => None,
    }
}

/// `P:B:KIND` or `P:B:KIND:VALUE`, where the value may have colons.
pub open spec fn button_hook(v: Seq<char>) -> Option<EditModel> {
    let w = cut(v, 4);
    match (number(w[0]), number(w[1]), kind_of(w[2])) {
        (Some(profile), Some(button), Some(kind)) => Some(
            EditModel::Button {
                profile,
                button,
                kind,
                value: if w.len() == 4 {
                    w[3]
                } else {
                    ""@
                },
            },
        ),
        _ => None,
    }
}

/// The edit that a development hook stands for.
pub open spec fn hook_of(v: Seq<char>) -> Option<EditModel> {
    let w = cut(v, 6);
    if w.len() == 6 && w[0] == "led"@ {
        led_hook(w)
    } else if w.len() == 3 && w[0] == "rate"@ {
        match (number(w[1]), number(w[2])) {
            (Some(profile), Some(hz)) => Some(EditModel::Rate { profile, hz }),
            _ => None,
        }
    } else if w.len() == 3 && w[0] == "profile"@ {
        match number(w[1]) {
            Some(profile) => Some(EditModel::Profile { profile, disable: w[2] == "disable"@ }),
            None => None,
        }
    } else if w.len() == 5 && w[0] == "slot"@ {
        slot_hook(w)
    } else if w.len() >= 3 {
        button_hook(v)
    } else {
        None
    }
}

/// How many pieces a cut gives depends on the colons alone.
proof fn lemma_cut_lengths(s: Seq<char>, n: nat, m: nat)
    requires
        1 <= n <= m,
    ensures
        1 <= cut(s, n).len() <= n,
        cut(s, n).len() == if cut(s, m).len() < n {
            cut(s, m).len()
        } else {
            n
        },
        forall|i: int| 0 <= i < cut(s, n).len() - 1 ==> cut(s, n)[i] == cut(s, m)[i],
    decreases n,
{
    if n > 1 && s.contains(':') {
        let i = s.index_of_first(':')->0;
        let rest = s.skip(i + 1);
        lemma_cut_lengths(rest, (n - 1) as nat, (m - 1) as nat);
        assert forall|k: int| 0 <= k < cut(s, n).len() - 1 implies cut(s, n)[k] == cut(
            s,
            m,
        )[k] by {
            if k > 0 {
                assert(cut(s, n)[k] == cut(rest, (n - 1) as nat)[k - 1]);
                assert(cut(s, m)[k] == cut(rest, (m - 1) as nat)[k - 1]);
            }
        }
    }
}

/// `r` is the edit `want`.
pub open spec fn is_edit(r: Option<Edit>, want: Option<EditModel>) -> bool {
    match (r, want) {
        (Some(e), Some(m)) => e@ == m,
        (None, None) => true,
        _ => false,
    }
}

fn parse_button_hook(v: &str) -> (r: Option<Edit>)
    requires
        cut(v@, 6).len() >= 3,
    ensures
        is_edit(r, button_hook(v@)),
{
    let w = cut_at_colons(v, 4);
    let ghost t = texts(w@);
    proof {
        lemma_cut_lengths(v@, 4, 6);
    }
    assert(t.len() == w@.len());
    assert(t[0] == w@[0]@ && t[1] == w@[1]@ && t[2] == w@[2]@);
    match (
        parse_number(w[0].as_str()),
        parse_number(w[1].as_str()),
        Kind::from_word(w[2].as_str()),
    ) {
        (Some(profile), Some(button), Some(kind)) => {
            let value = if w.len() == 4 {
                assert(t[3] == w@[3]@);
                w[3].clone()
            } else {
                "".to_owned()
            };
            Some(Edit::Button(ButtonEdit { profile, button, kind, value }))
        },
        _ => None,
    }
}

/// Dev hook syntax: `P:B:KIND:VALUE`, `led:P:L:MODE:COLOR:BRIGHTNESS`, `rate:P:HZ`,
/// `profile:P:enable|disable`, `slot:P:S:DPI:enabled|disabled`.
pub fn parse_edit_hook(v: &str) -> (r: Option<Edit>)
    ensures
        is_edit(r, hook_of(v@)),
{
    let w = cut_at_colons(v, 6);
    let ghost t = texts(w@);
    assert(t.len() == w@.len());
    assert(forall|i: int| 0 <= i < t.len() ==> #[trigger] t[i] == w@[i]@);
    proof {
        lemma_cut_lengths(v@, 6, 6);
    }
    if w.len() == 6 && same(w[0].as_str(), "led") {
        match (
            parse_number(w[1].as_str()),
            parse_number(w[2].as_str()),
            parse_led_mode(w[3].as_str()),
        ) {
            (Some(profile), Some(led), Ok(mode)) => Some(
                Edit::Led(
                    LedEdit {
                        profile,
                        led,
                        mode,
                        color: w[4].clone(),
                        brightness: w[5].clone(),
                    },
                ),
            ),
            _ => None,
        }
    } else if w.len() == 3 && same(w[0].as_str(), "rate") {
        match (parse_number(w[1].as_str()), parse_number(w[2].as_str())) {
            (Some(profile), Some(hz)) => Some(Edit::Rate { profile, hz }),
            _ => None,
        }
    } else if w.len() == 3 && same(w[0].as_str(), "profile") {
        match parse_number(w[1].as_str()) {
            Some(profile) => Some(
                Edit::Profile { profile, disable: same(w[2].as_str(), "disable") },
            ),
            None => None,
        }
    } else if w.len() == 5 && same(w[0].as_str(), "slot") {
        match (parse_number(w[1].as_str()), parse_number(w[2].as_str())) {
            (Some(profile), Some(slot)) => Some(
                Edit::Slot(
                    SlotEdit {
                        profile,
                        slot,
                        dpi: w[3].clone(),
                        enabled: !same(w[4].as_str(), "disabled"),
                    },
                ),
            ),
            _ => None,
        }
    } else if w.len() >= 3 {
        parse_button_hook(v)
    } else {
        None
    }
}

// ---------------------------------------------------------------------------- laws
/// The words of kinds and the kinds lead to each other.
pub proof fn kinds_and_words_agree(k: Kind, w: Seq<char>)
    ensures
        kind_of(kind_word(k)) == Some(k),
        kind_of(w) matches Some(x) ==> kind_word(x) == w,
{
    reveal_strlit("none");
    reveal_strlit("button");
    reveal_strlit("special");
    reveal_strlit("key");
    reveal_strlit("macro");
    assert("none"@.len() == 4);
    assert("button"@.len() == 6);
    assert("special"@.len() == 7);
    assert("key"@.len() == 3);
    assert("macro"@.len() == 5);
}

pub(crate) proof fn lemma_trimmed_word(w: Seq<char>)
    requires
        is_word(w),
    ensures
        trimmed(w) == w,
{
    if w.len() > 0 {
        assert(!is_space(w[0]));
        assert(!is_space(w[w.len() - 1]));
    }
}

/// The editor of a button opens on the action that the button has: applying it
/// unchanged asks for that action. (A button number of zero can be shown, but is
/// refused when applied.)
pub proof fn an_editor_opens_on_the_current_action(kind: u32, value: Option<RawModel>)
    requires
        spelling_of(kind, value) is Some,
    ensures
        ({
            let (k, v) = started_from(kind, value);
            action_of(edit_words(k, v)) == Ok::<(u32, Option<RawModel>), Failure>(
                (kind, spelled_value(kind, value)),
            )
        }),
{
    spelling_reads_back(kind, value);
    let t = spelling_of(kind, value)->0;
    let w = words(t);
    lemma_words_are_words(t);
    if w.len() == 2 {
        kinds_and_words_agree(Kind::Nothing, w[0]);
        lemma_trimmed_word(w[1]);
        if kind_of(w[0]) is Some {
            let k = kind_of(w[0])->0;
            reveal_strlit("none");
            reveal_strlit("button");
            reveal_strlit("special");
            reveal_strlit("key");
            reveal_strlit("macro");
            assert("none"@.len() == 4);
            assert("button"@.len() == 6);
            assert("special"@.len() == 7);
            assert("key"@.len() == 3);
            assert("macro"@.len() == 5);
            assert(k != Kind::Nothing);
            assert(edit_words(k, w[1]) =~= w);
        }
    } else if w.len() == 1 {
        assert(w[0] == "none"@);
        assert(edit_words(Kind::Nothing, ""@) =~= w);
    }
}

/// The development hook for an edit.
pub open spec fn hook_text(e: EditModel) -> Seq<char> {
    match e {
        EditModel::Button { profile, button, kind, value } => dec(profile as nat) + ":"@ + (dec(
            button as nat,
        ) + ":"@ + (kind_word(kind) + ":"@ + value)),
        EditModel::Led { profile, led, mode, color, brightness } => "led"@ + ":"@ + (dec(
            profile as nat,
        ) + ":"@ + (dec(led as nat) + ":"@ + (led_mode_text(mode)->0 + ":"@ + (color + ":"@
            + brightness)))),
        EditModel::Rate { profile, hz } => "rate"@ + ":"@ + (dec(profile as nat) + ":"@ + dec(
            hz as nat,
        )),
        EditModel::Profile { profile, disable } => "profile"@ + ":"@ + (dec(profile as nat) + ":"@ + (
        if disable {
            "disable"@
        } else {
            "enable"@
        })),
        EditModel::Slot { profile, slot, dpi, enabled } => "slot"@ + ":"@ + (dec(profile as nat)
            + ":"@ + (dec(slot as nat) + ":"@ + (dpi + ":"@ + (if enabled {
            "enabled"@
        } else {
            "disabled"@
        })))),
    }
}

/// The edit has a hook: no colon stands in a text that another follows, and an LED mode has a
/// name.
pub open spec fn has_hook(e: EditModel) -> bool {
    match e {
        EditModel::Led { mode, color, .. } => mode < 4 && !color.contains(':'),
        EditModel::Slot { dpi, .. } => !dpi.contains(':'),
        _ => true,
    }
}

proof fn lemma_cut_first(a: Seq<char>, rest: Seq<char>, n: nat)
    requires
        n > 1,
        !a.contains(':'),
    ensures
        cut(a + ":"@ + rest, n) == seq![a] + cut(rest, (n - 1) as nat),
{
    reveal_strlit(":");
    let s = a + ":"@ + rest;
    let k = a.len() as int;
    assert(s[k] == ':');
    assert(s.contains(':'));
    s.index_of_first_ensures(':');
    let m = s.index_of_first(':')->0;
    assert(m == k) by {
        assert(s[m] == ':');
        if m < k {
            assert(a[m] == ':');
            assert(a.contains(':'));
        }
    }
    assert(s.take(m) =~= a);
    assert(s.skip(m + 1) =~= rest);
}

proof fn lemma_no_colon(n: nat)
    ensures
        !dec(n).contains(':'),
{
    lemma_dec(n);
    let d = dec(n);
    if d.contains(':') {
        let i = choose|i: int| 0 <= i < d.len() && d[i] == ':';
        assert('0' <= d[i] <= '9');
    }
}

proof fn lemma_words_without_colon()
    ensures
        !"led"@.contains(':'),
        !"rate"@.contains(':'),
        !"profile"@.contains(':'),
        !"slot"@.contains(':'),
        !"none"@.contains(':'),
        !"button"@.contains(':'),
        !"special"@.contains(':'),
        !"key"@.contains(':'),
        !"macro"@.contains(':'),
        !"enable"@.contains(':'),
        !"disable"@.contains(':'),
        !"enabled"@.contains(':'),
        !"disabled"@.contains(':'),
        "led"@.len() == 3,
        "rate"@.len() == 4,
        "profile"@.len() == 7,
        "slot"@.len() == 4,
        "rate"@ != "slot"@,
        "enable"@ != "disable"@,
        "enabled"@ != "disabled"@,
{
    reveal_strlit("led");
    reveal_strlit("rate");
    reveal_strlit("profile");
    reveal_strlit("slot");
    reveal_strlit("none");
    reveal_strlit("button");
    reveal_strlit("special");
    reveal_strlit("key");
    reveal_strlit("macro");
    reveal_strlit("enable");
    reveal_strlit("disable");
    reveal_strlit("enabled");
    reveal_strlit("disabled");
    assert("rate"@[0] != "slot"@[0]);
    assert("enable"@[0] != "disable"@[0]);
    assert("enabled"@[0] != "disabled"@[0]);
}

proof fn lemma_mode_without_colon(mode: u32)
    requires
        mode < 4,
    ensures
        !led_mode_text(mode)->0.contains(':'),
        led_mode_of(led_mode_text(mode)->0) == Ok::<u32, Failure>(mode),
{
    led_modes_and_names_agree(mode, Seq::empty());
    led_modes_have_their_values(Seq::empty());
    reveal_strlit("off");
    reveal_strlit("on");
    reveal_strlit("cycle");
    reveal_strlit("breathing");
}

/// A number is none of the words that hooks begin with.
proof fn lemma_number_is_no_word(n: u32)
    ensures
        dec(n as nat) != "led"@,
        dec(n as nat) != "rate"@,
        dec(n as nat) != "profile"@,
        dec(n as nat) != "slot"@,
{
    lemma_dec(n as nat);
    reveal_strlit("led");
    reveal_strlit("rate");
    reveal_strlit("profile");
    reveal_strlit("slot");
    let d = dec(n as nat);
    assert('0' <= d[0] <= '9');
    assert("led"@[0] == 'l');
    assert("rate"@[0] == 'r');
    assert("profile"@[0] == 'p');
    assert("slot"@[0] == 's');
}

proof fn lemma_rate_hook(profile: u32, hz: u32)
    requires
        has_hook(EditModel::Rate { profile, hz }),
    ensures
        hook_of(hook_text(EditModel::Rate { profile, hz })) == Some(
            EditModel::Rate { profile, hz },
        ),
{
    lemma_words_without_colon();
    let v = hook_text(EditModel::Rate { profile, hz });
    let last = dec(hz as nat);
    let second = dec(profile as nat) + ":"@ + last;
    lemma_no_colon(profile as nat);
    lemma_no_colon(hz as nat);
    lemma_number_of_dec(profile);
    lemma_number_of_dec(hz);
    lemma_cut_first("rate"@, second, 6);
    lemma_cut_first(dec(profile as nat), last, 5);
    assert(cut(last, 4) == seq![last]);
    assert(cut(v, 6) =~= seq!["rate"@, dec(profile as nat), last]);
}

proof fn lemma_profile_hook(profile: u32, disable: bool)
    requires
        has_hook(EditModel::Profile { profile, disable }),
    ensures
        hook_of(hook_text(EditModel::Profile { profile, disable })) == Some(
            EditModel::Profile { profile, disable },
        ),
{
    lemma_words_without_colon();
    let v = hook_text(EditModel::Profile { profile, disable });
    let last = if disable {
        "disable"@
    } else {
        "enable"@
    };
    let second = dec(profile as nat) + ":"@ + last;
    lemma_no_colon(profile as nat);
    lemma_number_of_dec(profile);
    lemma_cut_first("profile"@, second, 6);
    lemma_cut_first(dec(profile as nat), last, 5);
    assert(cut(last, 4) == seq![last]);
    assert(cut(v, 6) =~= seq!["profile"@, dec(profile as nat), last]);
}

proof fn lemma_slot_hook(profile: u32, slot: u32, dpi: Seq<char>, enabled: bool)
    requires
        has_hook(EditModel::Slot { profile, slot, dpi, enabled }),
    ensures
        hook_of(hook_text(EditModel::Slot { profile, slot, dpi, enabled })) == Some(
            EditModel::Slot { profile, slot, dpi, enabled },
        ),
{
    lemma_words_without_colon();
    let v = hook_text(EditModel::Slot { profile, slot, dpi, enabled });
    let last = if enabled {
        "enabled"@
    } else {
        "disabled"@
    };
    let fourth = dpi + ":"@ + last;
    let third = dec(slot as nat) + ":"@ + fourth;
    let second = dec(profile as nat) + ":"@ + third;
    lemma_no_colon(profile as nat);
    lemma_no_colon(slot as nat);
    lemma_number_of_dec(profile);
    lemma_number_of_dec(slot);
    lemma_cut_first("slot"@, second, 6);
    lemma_cut_first(dec(profile as nat), third, 5);
    lemma_cut_first(dec(slot as nat), fourth, 4);
    lemma_cut_first(dpi, last, 3);
    assert(cut(last, 2) == seq![last]);
    assert(cut(v, 6) =~= seq![
        "slot"@,
        dec(profile as nat),
        dec(slot as nat),
        dpi,
        last,
    ]);
}

proof fn lemma_led_hook(profile: u32, led: u32, mode: u32, color: Seq<char>, brightness: Seq<char>)
    requires
        has_hook(EditModel::Led { profile, led, mode, color, brightness }),
    ensures
        hook_of(hook_text(EditModel::Led { profile, led, mode, color, brightness })) == Some(
            EditModel::Led { profile, led, mode, color, brightness },
        ),
{
    lemma_words_without_colon();
    let v = hook_text(EditModel::Led { profile, led, mode, color, brightness });
    let name = led_mode_text(mode)->0;
    let fifth = color + ":"@ + brightness;
    let fourth = name + ":"@ + fifth;
    let third = dec(led as nat) + ":"@ + fourth;
    let second = dec(profile as nat) + ":"@ + third;
    lemma_no_colon(profile as nat);
    lemma_no_colon(led as nat);
    lemma_number_of_dec(profile);
    lemma_number_of_dec(led);
    lemma_mode_without_colon(mode);
    lemma_cut_first("led"@, second, 6);
    lemma_cut_first(dec(profile as nat), third, 5);
    lemma_cut_first(dec(led as nat), fourth, 4);
    lemma_cut_first(name, fifth, 3);
    lemma_cut_first(color, brightness, 2);
    assert(cut(brightness, 1) == seq![brightness]);
    assert(cut(v, 6) =~= seq![
        "led"@,
        dec(profile as nat),
        dec(led as nat),
        name,
        color,
        brightness,
    ]);
}

proof fn lemma_button_hook(profile: u32, button: u32, kind: Kind, value: Seq<char>)
    requires
        has_hook(EditModel::Button { profile, button, kind, value }),
    ensures
        hook_of(hook_text(EditModel::Button { profile, button, kind, value })) == Some(
            EditModel::Button { profile, button, kind, value },
        ),
{
    lemma_words_without_colon();
    let v = hook_text(EditModel::Button { profile, button, kind, value });
    let third = kind_word(kind) + ":"@ + value;
    let second = dec(button as nat) + ":"@ + third;
    lemma_no_colon(profile as nat);
    lemma_no_colon(button as nat);
    lemma_number_of_dec(profile);
    lemma_number_of_dec(button);
    lemma_number_is_no_word(profile);
    kinds_and_words_agree(kind, Seq::empty());
    lemma_cut_first(dec(profile as nat), second, 6);
    lemma_cut_first(dec(button as nat), third, 5);
    lemma_cut_first(kind_word(kind), value, 4);
    lemma_cut_lengths(value, 3, 3);
    lemma_cut_first(dec(profile as nat), second, 4);
    lemma_cut_first(dec(button as nat), third, 3);
    lemma_cut_first(kind_word(kind), value, 2);
    assert(cut(value, 1) == seq![value]);
    assert(cut(v, 4) =~= seq![
        dec(profile as nat),
        dec(button as nat),
        kind_word(kind),
        value,
    ]);
    let w = cut(v, 6);
    assert(w[0] == dec(profile as nat));
    assert(w.len() >= 4);
}

/// The hook for an edit stands for that edit.
pub proof fn a_hook_stands_for_its_edit(e: EditModel)
    requires
        has_hook(e),
    ensures
        hook_of(hook_text(e)) == Some(e),
{
    match e {
        EditModel::Rate { profile, hz } => {
            lemma_rate_hook(profile, hz);
        },
        EditModel::Profile { profile, disable } => {
            lemma_profile_hook(profile, disable);
        },
        EditModel::Slot { profile, slot, dpi, enabled } => {
            lemma_slot_hook(profile, slot, dpi, enabled);
        },
        EditModel::Led { profile, led, mode, color, brightness } => {
            lemma_led_hook(profile, led, mode, color, brightness);
        },
        EditModel::Button { profile, button, kind, value } => {
            lemma_button_hook(profile, button, kind, value);
        },
    }
}

} // verus!
