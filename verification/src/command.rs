//! The words of a `g502ctl` command line.

use crate::config::optional;
use crate::dpi::Step;
use crate::text::{dec, lemma_number_of_dec, number, parse_number, same, str_texts, texts};
use vstd::prelude::*;

verus! {

/// How to write: only show the diff, or do not ask.
#[derive(Clone, Copy, Debug, PartialEq, Eq)]
pub struct Flags {
    pub dry_run: bool,
    pub yes: bool,
}

/// What an LED is set to. What is not given stays as it is.
#[derive(Debug, PartialEq)]
pub struct LedOptions {
    pub mode: Option<String>,
    pub color: Option<String>,
    pub brightness: Option<u32>,
}

/// A command of `g502ctl`.
#[derive(Debug, PartialEq)]
pub enum Command {
    Status,
    DpiStep(Step),
    DpiSet(String),
    Check,
    Backup(Option<String>),
    Restore { file: String, flags: Flags },
    Apply { flags: Flags },
    ConfigExport(Option<String>),
    ButtonSet { profile: u32, button: u32, action: Vec<String>, flags: Flags },
    ProfileDisable { profile: u32, disable: bool, flags: Flags },
    ProfileRate { profile: u32, hz: u32, flags: Flags },
    LedSet { profile: u32, led: u32, options: LedOptions, flags: Flags },
}

#[verifier::ext_equal]
pub struct LedOptionsModel {
    pub mode: Option<Seq<char>>,
    pub color: Option<Seq<char>>,
    pub brightness: Option<u32>,
}

#[verifier::ext_equal]
pub enum CommandModel {
    Status,
    DpiStep(Step),
    DpiSet(Seq<char>),
    Check,
    Backup(Option<Seq<char>>),
    Restore { file: Seq<char>, flags: Flags },
    Apply { flags: Flags },
    ConfigExport(Option<Seq<char>>),
    ButtonSet { profile: u32, button: u32, action: Seq<Seq<char>>, flags: Flags },
    ProfileDisable { profile: u32, disable: bool, flags: Flags },
    ProfileRate { profile: u32, hz: u32, flags: Flags },
    LedSet { profile: u32, led: u32, options: LedOptionsModel, flags: Flags },
}

impl View for LedOptions {
    type V = LedOptionsModel;

    open spec fn view(&self) -> LedOptionsModel {
        LedOptionsModel {
            mode: optional(self.mode),
            color: optional(self.color),
            brightness: self.brightness,
        }
    }
}

impl View for Command {
    type V = CommandModel;

    open spec fn view(&self) -> CommandModel {
        match *self {
            Command::Status => CommandModel::Status,
            Command::DpiStep(s) => CommandModel::DpiStep(s),
            Command::DpiSet(t) => CommandModel::DpiSet(t@),
            Command::Check => CommandModel::Check,
            Command::Backup(f) => CommandModel::Backup(optional(f)),
            Command::Restore { file, flags } => CommandModel::Restore { file: file@, flags },
            Command::Apply { flags } => CommandModel::Apply { flags },
            Command::ConfigExport(f) => CommandModel::ConfigExport(optional(f)),
            Command::ButtonSet { profile, button, action, flags } => CommandModel::ButtonSet {
                profile,
                button,
                action: texts(action@),
                flags,
            },
            Command::ProfileDisable { profile, disable, flags } => CommandModel::ProfileDisable {
                profile,
                disable,
                flags,
            },
            Command::ProfileRate { profile, hz, flags } => CommandModel::ProfileRate {
                profile,
                hz,
                flags,
            },
            Command::LedSet { profile, led, options, flags } => CommandModel::LedSet {
                profile,
                led,
                options: options@,
                flags,
            },
        }
    }
}

// -------------------------------------------------------------------------- grammar
pub open spec fn is_flag(w: Seq<char>) -> bool {
    w == "--dry-run"@ || w == "--yes"@
}

/// Words that are all flags, in any order.
pub open spec fn flags_of(w: Seq<Seq<char>>) -> Option<Flags> {
    if forall|i: int| 0 <= i < w.len() ==> is_flag(#[trigger] w[i]) {
        Some(Flags { dry_run: w.contains("--dry-run"@), yes: w.contains("--yes"@) })
    } else {
        None
    }
}

/// How many words come before the first flag.
pub open spec fn plain_words(w: Seq<Seq<char>>) -> nat
    decreases w.len(),
{
    if w.len() == 0 || is_flag(w[0]) {
        0
    } else {
        1 + plain_words(w.skip(1))
    }
}

/// Options and flags of `led set`, in any order; one that is given twice counts the
/// last time.
pub open spec fn led_words(o: LedOptionsModel, flags: Flags, w: Seq<Seq<char>>) -> Option<
    (LedOptionsModel, Flags),
>
    decreases w.len(),
{
    if w.len() == 0 {
        Some((o, flags))
    } else if w[0] == "--dry-run"@ {
        led_words(o, Flags { dry_run: true, ..flags }, w.skip(1))
    } else if w[0] == "--yes"@ {
        led_words(o, Flags { yes: true, ..flags }, w.skip(1))
    } else if w.len() == 1 {
        None
    } else if w[0] == "--mode"@ {
        led_words(LedOptionsModel { mode: Some(w[1]), ..o }, flags, w.skip(2))
    } else if w[0] == "--color"@ {
        led_words(LedOptionsModel { color: Some(w[1]), ..o }, flags, w.skip(2))
    } else if w[0] == "--brightness"@ && number(w[1]) is Some {
        led_words(LedOptionsModel { brightness: number(w[1]), ..o }, flags, w.skip(2))
    } else {
        None
    }
}

pub open spec fn no_options() -> LedOptionsModel {
    LedOptionsModel { mode: None, color: None, brightness: None }
}

pub open spec fn no_flags() -> Flags {
    Flags { dry_run: false, yes: false }
}

/// `dpi up`, `dpi down` or `dpi set DPI`.
pub open spec fn dpi_command(a: Seq<Seq<char>>) -> Option<CommandModel> {
    if a.len() == 2 && a[1] == "up"@ {
        Some(CommandModel::DpiStep(Step::Up))
    } else if a.len() == 2 && a[1] == "down"@ {
        Some(CommandModel::DpiStep(Step::Down))
    } else if a.len() == 3 && a[1] == "set"@ {
        Some(CommandModel::DpiSet(a[2]))
    } else {
        None
    }
}

/// `button set P B ACTION [flags]`.
pub open spec fn button_command(a: Seq<Seq<char>>) -> Option<CommandModel> {
    if a.len() < 5 || a[1] != "set"@ {
        None
    } else {
        let n = plain_words(a.skip(4)) as int;
        match (number(a[2]), number(a[3]), flags_of(a.skip(4 + n))) {
            (Some(profile), Some(button), Some(flags)) if n > 0 => Some(
                CommandModel::ButtonSet {
                    profile,
                    button,
                    action: a.subrange(4, 4 + n),
                    flags,
                },
            ),
            _ => None,
        }
    }
}

/// `profile enable|disable P [flags]` or `profile rate P HZ [flags]`.
pub open spec fn profile_command(a: Seq<Seq<char>>) -> Option<CommandModel> {
    if a.len() < 3 {
        None
    } else if a[1] == "enable"@ || a[1] == "disable"@ {
        match (number(a[2]), flags_of(a.skip(3))) {
            (Some(profile), Some(flags)) => Some(
                CommandModel::ProfileDisable { profile, disable: a[1] == "disable"@, flags },
            ),
            _ => None,
        }
    } else if a[1] == "rate"@ && a.len() >= 4 {
        match (number(a[2]), number(a[3]), flags_of(a.skip(4))) {
            (Some(profile), Some(hz), Some(flags)) => Some(
                CommandModel::ProfileRate { profile, hz, flags },
            ),
            _ => None,
        }
    } else {
        None
    }
}

/// `led set P L [--mode MODE] [--color RRGGBB] [--brightness N] [flags]`.
pub open spec fn led_command(a: Seq<Seq<char>>) -> Option<CommandModel> {
    if a.len() < 4 || a[1] != "set"@ {
        None
    } else {
        match (number(a[2]), number(a[3]), led_words(no_options(), no_flags(), a.skip(4))) {
            (Some(profile), Some(led), Some((options, flags))) => Some(
                CommandModel::LedSet { profile, led, options, flags },
            ),
            _ => None,
        }
    }
}

/// A file that may be named behind the first `n` words. A flag is no file.
pub open spec fn file_word(a: Seq<Seq<char>>, n: int) -> Option<Option<Seq<char>>> {
    if a.len() == n {
        Some(None)
    } else if a.len() == n + 1 && !is_flag(a[n]) {
        Some(Some(a[n]))
    } else {
        None
    }
}

/// The command that the words stand for. Flags stand behind what they belong to, and
/// only on the commands that write profiles.
pub open spec fn command_of(a: Seq<Seq<char>>) -> Option<CommandModel> {
    if a.len() == 0 {
        None
    } else if a[0] == "status"@ {
        if a.len() == 1 {
            Some(CommandModel::Status)
        } else {
            None
        }
    } else if a[0] == "dpi"@ {
        dpi_command(a)
    } else if a[0] == "check"@ {
        if a.len() == 1 {
            Some(CommandModel::Check)
        } else {
            None
        }
    } else if a[0] == "backup"@ {
        match file_word(a, 1) {
            Some(file) => Some(CommandModel::Backup(file)),
            None => None,
        }
    } else if a[0] == "restore"@ {
        if a.len() < 2 {
            None
        } else {
            match flags_of(a.skip(2)) {
                Some(flags) => Some(CommandModel::Restore { file: a[1], flags }),
                None => None,
            }
        }
    } else if a[0] == "apply"@ {
        match flags_of(a.skip(1)) {
            Some(flags) => Some(CommandModel::Apply { flags }),
            None => None,
        }
    } else if a[0] == "config"@ {
        if a.len() < 2 || a[1] != "export"@ {
            None
        } else {
            match file_word(a, 2) {
                Some(file) => Some(CommandModel::ConfigExport(file)),
                None => None,
            }
        }
    } else if a[0] == "button"@ {
        button_command(a)
    } else if a[0] == "profile"@ {
        profile_command(a)
    } else if a[0] == "led"@ {
        led_command(a)
    } else {
        None
    }
}

/// `r` is the command `want`.
pub open spec fn is_command(r: Option<Command>, want: Option<CommandModel>) -> bool {
    match (r, want) {
        (Some(c), Some(m)) => c@ == m,
        (None, None) => true,
        _ => false,
    }
}

// -------------------------------------------------------------------------- parsing
/// The words from position `from` on, all flags.
fn read_flags(a: &[&str], from: usize) -> (r: Option<Flags>)
    requires
        from <= a@.len(),
    ensures
        r == flags_of(str_texts(a@).skip(from as int)),
{
    let ghost w = str_texts(a@).skip(from as int);
    let mut dry_run = false;
    let mut yes = false;
    let mut i: usize = from;
    while i < a.len()
        invariant
            from <= i <= a.len(),
            w == str_texts(a@).skip(from as int),
            forall|j: int| 0 <= j < i - from ==> is_flag(#[trigger] w[j]),
            dry_run == exists|j: int| 0 <= j < i - from && #[trigger] w[j] == "--dry-run"@,
            yes == exists|j: int| 0 <= j < i - from && #[trigger] w[j] == "--yes"@,
        decreases a.len() - i,
    {
        assert(w[i - from] == a@[i as int]@);
        if same(a[i], "--dry-run") {
            dry_run = true;
            if same(a[i], "--yes") {
                yes = true;
            }
        } else if same(a[i], "--yes") {
            yes = true;
        } else {
            assert(!is_flag(w[i - from]));
            return None;
        }
        i += 1;
    }
    Some(Flags { dry_run, yes })
}

fn count_plain(a: &[&str], from: usize) -> (r: usize)
    requires
        from <= a@.len(),
    ensures
        r == plain_words(str_texts(a@).skip(from as int)),
        from + r <= a@.len(),
{
    let ghost w = str_texts(a@).skip(from as int);
    let mut i: usize = from;
    assert(w.skip(0) =~= w);
    while i < a.len()
        invariant
            from <= i <= a.len(),
            w == str_texts(a@).skip(from as int),
            plain_words(w) == i - from + plain_words(w.skip(i - from)),
        decreases a.len() - i,
    {
        assert(w[i - from] == a@[i as int]@);
        assert(w.skip(i - from)[0] == w[i - from]);
        if same(a[i], "--dry-run") || same(a[i], "--yes") {
            return i - from;
        }
        assert(w.skip(i - from).skip(1) =~= w.skip(i - from + 1));
        i += 1;
    }
    i - from
}

fn owned_words(a: &[&str], from: usize, to: usize) -> (r: Vec<String>)
    requires
        from <= to <= a@.len(),
    ensures
        texts(r@) == str_texts(a@).subrange(from as int, to as int),
{
    let mut out: Vec<String> = Vec::new();
    let mut i: usize = from;
    while i < to
        invariant
            from <= i <= to <= a@.len(),
            out.len() == i - from,
            forall|j: int| 0 <= j < i - from ==> (#[trigger] out@[j])@ == a@[from + j]@,
        decreases to - i,
    {
        out.push(a[i].to_owned());
        i += 1;
    }
    assert(texts(out@) =~= str_texts(a@).subrange(from as int, to as int));
    out
}

fn read_led_words(a: &[&str], from: usize) -> (r: Option<(LedOptions, Flags)>)
    requires
        from <= a@.len(),
    ensures
        match (r, led_words(no_options(), no_flags(), str_texts(a@).skip(from as int))) {
            (Some((o, f)), Some((p, g))) => o@ == p && f == g,
            (None, None) => true,
            _ => false,
        },
{
    let ghost all = str_texts(a@);
    let mut o = LedOptions { mode: None, color: None, brightness: None };
    let mut flags = Flags { dry_run: false, yes: false };
    let mut i: usize = from;
    while i < a.len()
        invariant
            from <= i <= a.len(),
            all == str_texts(a@),
            led_words(no_options(), no_flags(), all.skip(from as int)) == led_words(
                o@,
                flags,
                all.skip(i as int),
            ),
        decreases a.len() - i,
    {
        let ghost w = all.skip(i as int);
        assert(w[0] == a@[i as int]@);
        assert(w.skip(1) =~= all.skip(i + 1));
        assert(i + 1 < a@.len() ==> w.skip(2) =~= all.skip(i + 2));
        assert(i + 1 < a@.len() ==> w[1] == a@[i + 1]@);
        if same(a[i], "--dry-run") {
            flags.dry_run = true;
            i += 1;
        } else if same(a[i], "--yes") {
            flags.yes = true;
            i += 1;
        } else if a.len() - i == 1 {
            return None;
        } else if same(a[i], "--mode") {
            o.mode = Some(a[i + 1].to_owned());
            i += 2;
        } else if same(a[i], "--color") {
            o.color = Some(a[i + 1].to_owned());
            i += 2;
        } else if same(a[i], "--brightness") {
            let n = parse_number(a[i + 1]);
            if n.is_none() {
                return None;
            }
            o.brightness = n;
            i += 2;
        } else {
            return None;
        }
    }
    Some((o, flags))
}

fn parse_dpi_command(a: &[&str]) -> (r: Option<Command>)
    ensures
        is_command(r, dpi_command(str_texts(a@))),
{
    if a.len() == 2 && same(a[1], "up") {
        Some(Command::DpiStep(Step::Up))
    } else if a.len() == 2 && same(a[1], "down") {
        Some(Command::DpiStep(Step::Down))
    } else if a.len() == 3 && same(a[1], "set") {
        Some(Command::DpiSet(a[2].to_owned()))
    } else {
        None
    }
}

fn parse_button_command(a: &[&str]) -> (r: Option<Command>)
    ensures
        is_command(r, button_command(str_texts(a@))),
{
    if a.len() < 5 || !same(a[1], "set") {
        return None;
    }
    let n = count_plain(a, 4);
    let flags = read_flags(a, 4 + n);
    match (parse_number(a[2]), parse_number(a[3]), flags) {
        (Some(profile), Some(button), Some(flags)) => {
            if n == 0 {
                return None;
            }
            Some(Command::ButtonSet { profile, button, action: owned_words(a, 4, 4 + n), flags })
        },
        _ => None,
    }
}

fn parse_profile_command(a: &[&str]) -> (r: Option<Command>)
    ensures
        is_command(r, profile_command(str_texts(a@))),
{
    if a.len() < 3 {
        return None;
    }
    let disable = same(a[1], "disable");
    if same(a[1], "enable") || disable {
        match (parse_number(a[2]), read_flags(a, 3)) {
            (Some(profile), Some(flags)) => Some(
                Command::ProfileDisable { profile, disable, flags },
            ),
            _ => None,
        }
    } else if same(a[1], "rate") && a.len() >= 4 {
        match (parse_number(a[2]), parse_number(a[3]), read_flags(a, 4)) {
            (Some(profile), Some(hz), Some(flags)) => Some(
                Command::ProfileRate { profile, hz, flags },
            ),
            _ => None,
        }
    } else {
        None
    }
}

fn parse_led_command(a: &[&str]) -> (r: Option<Command>)
    ensures
        is_command(r, led_command(str_texts(a@))),
{
    if a.len() < 4 || !same(a[1], "set") {
        return None;
    }
    match (parse_number(a[2]), parse_number(a[3]), read_led_words(a, 4)) {
        (Some(profile), Some(led), Some((options, flags))) => Some(
            Command::LedSet { profile, led, options, flags },
        ),
        _ => None,
    }
}

fn optional_file(a: &[&str], n: usize) -> (r: Option<Option<String>>)
    requires
        n <= a@.len(),
    ensures
        match (r, file_word(str_texts(a@), n as int)) {
            (Some(f), Some(g)) => optional(f) == g,
            (None, None) => true,
            _ => false,
        },
{
    if a.len() == n {
        Some(None)
    } else if a.len() - n == 1 && !same(a[n], "--dry-run") && !same(a[n], "--yes") {
        Some(Some(a[n].to_owned()))
    } else {
        None
    }
}

/// The command on a command line, without the program's name; `None` where it is none.
pub fn parse_command(a: &[&str]) -> (r: Option<Command>)
    ensures
        is_command(r, command_of(str_texts(a@))),
{
    if a.len() == 0 {
        return None;
    }
    let ghost w = str_texts(a@);
    assert(w[0] == a@[0]@);
    if same(a[0], "status") {
        if a.len() == 1 {
            Some(Command::Status)
        } else {
            None
        }
    } else if same(a[0], "dpi") {
        parse_dpi_command(a)
    } else if same(a[0], "check") {
        if a.len() == 1 {
            Some(Command::Check)
        } else {
            None
        }
    } else if same(a[0], "backup") {
        match optional_file(a, 1) {
            Some(file) => Some(Command::Backup(file)),
            None => None,
        }
    } else if same(a[0], "restore") {
        if a.len() < 2 {
            return None;
        }
        match read_flags(a, 2) {
            Some(flags) => Some(Command::Restore { file: a[1].to_owned(), flags }),
            None => None,
        }
    } else if same(a[0], "apply") {
        match read_flags(a, 1) {
            Some(flags) => Some(Command::Apply { flags }),
            None => None,
        }
    } else if same(a[0], "config") {
        if a.len() < 2 || !same(a[1], "export") {
            return None;
        }
        match optional_file(a, 2) {
            Some(file) => Some(Command::ConfigExport(file)),
            None => None,
        }
    } else if same(a[0], "button") {
        parse_button_command(a)
    } else if same(a[0], "profile") {
        parse_profile_command(a)
    } else if same(a[0], "led") {
        parse_led_command(a)
    } else {
        None
    }
}

// ----------------------------------------------------------------------------- laws
/// The flags of a command that writes profiles; the others have none.
pub open spec fn flags_in(c: CommandModel) -> Option<Flags> {
    match c {
        CommandModel::Restore { flags, .. } => Some(flags),
        CommandModel::Apply { flags } => Some(flags),
        CommandModel::ButtonSet { flags, .. } => Some(flags),
        CommandModel::ProfileDisable { flags, .. } => Some(flags),
        CommandModel::ProfileRate { flags, .. } => Some(flags),
        CommandModel::LedSet { flags, .. } => Some(flags),
        _ => None,
    }
}

/// A flag behind a command that takes none is rejected, so `g502ctl dpi up --yes`
/// cannot do anything unexpected.
pub proof fn other_commands_reject_flags(a: Seq<Seq<char>>, flag: Seq<char>)
    requires
        command_of(a) is Some,
        flags_in(command_of(a)->0) is None,
        is_flag(flag),
    ensures
        command_of(a.push(flag)) is None,
{
    let b = a.push(flag);
    assert(b[0] == a[0]);
    reveal_strlit("--dry-run");
    reveal_strlit("--yes");
    reveal_strlit("up");
    reveal_strlit("down");
    reveal_strlit("set");
    assert("up"@.len() == 2);
    assert("down"@.len() == 4);
    assert("set"@.len() == 3);
}

/// The words for flags.
pub open spec fn flag_words(f: Flags) -> Seq<Seq<char>> {
    (if f.dry_run {
        seq!["--dry-run"@]
    } else {
        Seq::empty()
    }) + (if f.yes {
        seq!["--yes"@]
    } else {
        Seq::empty()
    })
}

/// The words for an option, if it is given.
pub open spec fn option_words(name: Seq<char>, value: Option<Seq<char>>) -> Seq<Seq<char>> {
    match value {
        Some(v) => seq![name, v],
        None => Seq::empty(),
    }
}

/// The words for a file, if one is given.
pub open spec fn file_words(file: Option<Seq<char>>) -> Seq<Seq<char>> {
    match file {
        Some(f) => seq![f],
        None => Seq::empty(),
    }
}

/// The words for the options of an LED and the flags behind them.
pub open spec fn led_option_words(o: LedOptionsModel, f: Flags) -> Seq<Seq<char>> {
    option_words("--mode"@, o.mode) + (option_words("--color"@, o.color) + (option_words(
        "--brightness"@,
        match o.brightness {
            Some(b) => Some(dec(b as nat)),
            None => None,
        },
    ) + flag_words(f)))
}

/// The words for a command, as its synopsis has them.
pub open spec fn words_for(c: CommandModel) -> Seq<Seq<char>> {
    match c {
        CommandModel::Status => seq!["status"@],
        CommandModel::DpiStep(Step::Up) => seq!["dpi"@, "up"@],
        CommandModel::DpiStep(Step::Down) => seq!["dpi"@, "down"@],
        CommandModel::DpiSet(t) => seq!["dpi"@, "set"@, t],
        CommandModel::Check => seq!["check"@],
        CommandModel::Backup(file) => seq!["backup"@] + file_words(file),
        CommandModel::Restore { file, flags } => seq!["restore"@, file] + flag_words(flags),
        CommandModel::Apply { flags } => seq!["apply"@] + flag_words(flags),
        CommandModel::ConfigExport(file) => seq!["config"@, "export"@] + file_words(file),
        CommandModel::ButtonSet { profile, button, action, flags } => seq![
            "button"@,
            "set"@,
            dec(profile as nat),
            dec(button as nat),
        ] + (action + flag_words(flags)),
        CommandModel::ProfileDisable { profile, disable: true, flags } => seq![
            "profile"@,
            "disable"@,
            dec(profile as nat),
        ] + flag_words(flags),
        CommandModel::ProfileDisable { profile, disable: false, flags } => seq![
            "profile"@,
            "enable"@,
            dec(profile as nat),
        ] + flag_words(flags),
        CommandModel::ProfileRate { profile, hz, flags } => seq![
            "profile"@,
            "rate"@,
            dec(profile as nat),
            dec(hz as nat),
        ] + flag_words(flags),
        CommandModel::LedSet { profile, led, options, flags } => seq![
            "led"@,
            "set"@,
            dec(profile as nat),
            dec(led as nat),
        ] + led_option_words(options, flags),
    }
}

/// The command can be written: a button has an action, and neither a word of it nor a file
/// that may be left out is a flag.
pub open spec fn has_words(c: CommandModel) -> bool {
    match c {
        CommandModel::Backup(Some(f)) => !is_flag(f),
        CommandModel::ConfigExport(Some(f)) => !is_flag(f),
        CommandModel::ButtonSet { action, .. } => action.len() > 0 && forall|i: int|
            0 <= i < action.len() ==> !is_flag(#[trigger] action[i]),
        _ => true,
    }
}

proof fn lemma_flag_words(f: Flags)
    ensures
        flags_of(flag_words(f)) == Some(f),
        forall|i: int| 0 <= i < flag_words(f).len() ==> is_flag(#[trigger] flag_words(f)[i]),
{
    reveal_strlit("--dry-run");
    reveal_strlit("--yes");
    assert("--dry-run"@.len() == 9);
    assert("--yes"@.len() == 5);
    let w = flag_words(f);
    if f.dry_run {
        assert(w[0] == "--dry-run"@);
    }
    if f.yes {
        assert(w[w.len() - 1] == "--yes"@);
    }
}

proof fn lemma_plain_words(action: Seq<Seq<char>>, flags: Seq<Seq<char>>)
    requires
        forall|i: int| 0 <= i < action.len() ==> !is_flag(#[trigger] action[i]),
        flags.len() > 0 ==> is_flag(flags[0]),
    ensures
        plain_words(action + flags) == action.len(),
    decreases action.len(),
{
    let w = action + flags;
    if action.len() > 0 {
        assert(w[0] == action[0]);
        assert(w.skip(1) =~= action.skip(1) + flags);
        lemma_plain_words(action.skip(1), flags);
    } else {
        assert(w =~= flags);
    }
}

proof fn lemma_option_names()
    ensures
        "--dry-run"@.len() == 9,
        "--yes"@.len() == 5,
        "--mode"@.len() == 6,
        "--color"@.len() == 7,
        "--brightness"@.len() == 12,
{
    reveal_strlit("--dry-run");
    reveal_strlit("--yes");
    reveal_strlit("--mode");
    reveal_strlit("--color");
    reveal_strlit("--brightness");
}

proof fn lemma_led_flags(o: LedOptionsModel, f: Flags)
    ensures
        led_words(o, no_flags(), flag_words(f)) == Some((o, f)),
{
    lemma_option_names();
    let w = flag_words(f);
    reveal_with_fuel(led_words, 3);
    if f.dry_run {
        assert(w[0] == "--dry-run"@);
        if f.yes {
            assert(w.skip(1)[0] == "--yes"@);
            assert(w.skip(1).skip(1) =~= Seq::empty());
        } else {
            assert(w.skip(1) =~= Seq::empty());
        }
    } else if f.yes {
        assert(w[0] == "--yes"@);
        assert(w.skip(1) =~= Seq::empty());
    }
}

proof fn lemma_led_option(
    o: LedOptionsModel,
    f: Flags,
    name: Seq<char>,
    value: Option<Seq<char>>,
    rest: Seq<Seq<char>>,
)
    requires
        name == "--brightness"@ ==> (value matches Some(v) ==> number(v) is Some),
        name == "--mode"@ || name == "--color"@ || name == "--brightness"@,
    ensures
        led_words(o, f, option_words(name, value) + rest) == led_words(
            match value {
                None => o,
                Some(v) => if name == "--mode"@ {
                    LedOptionsModel { mode: Some(v), ..o }
                } else if name == "--color"@ {
                    LedOptionsModel { color: Some(v), ..o }
                } else {
                    LedOptionsModel { brightness: number(v), ..o }
                },
            },
            f,
            rest,
        ),
{
    lemma_option_names();
    let w = option_words(name, value) + rest;
    match value {
        None => {
            assert(w =~= rest);
        },
        Some(v) => {
            assert(w[0] == name && w[1] == v);
            assert(w.skip(2) =~= rest);
        },
    }
}

proof fn lemma_led_words(o: LedOptionsModel, f: Flags)
    ensures
        led_words(no_options(), no_flags(), led_option_words(o, f)) == Some((o, f)),
{
    lemma_option_names();
    let brightness = match o.brightness {
        Some(b) => Some(dec(b as nat)),
        None => None,
    };
    if o.brightness is Some {
        lemma_number_of_dec(o.brightness->0);
    }
    let last = flag_words(f);
    let third = option_words("--brightness"@, brightness) + last;
    let second = option_words("--color"@, o.color) + third;
    let a = LedOptionsModel { mode: o.mode, ..no_options() };
    let b = LedOptionsModel { color: o.color, ..a };
    lemma_led_option(no_options(), no_flags(), "--mode"@, o.mode, second);
    lemma_led_option(a, no_flags(), "--color"@, o.color, third);
    lemma_led_option(b, no_flags(), "--brightness"@, brightness, last);
    lemma_led_flags(o, f);
}

proof fn lemma_command_names()
    ensures
        "status"@ != "dpi"@,
        "check"@ != "status"@,
        "check"@ != "dpi"@,
        "backup"@ != "status"@,
        "backup"@ != "dpi"@,
        "backup"@ != "check"@,
        "restore"@ != "status"@,
        "restore"@ != "dpi"@,
        "restore"@ != "check"@,
        "restore"@ != "backup"@,
        "apply"@ != "status"@,
        "apply"@ != "dpi"@,
        "apply"@ != "check"@,
        "apply"@ != "backup"@,
        "apply"@ != "restore"@,
        "config"@ != "status"@,
        "config"@ != "dpi"@,
        "config"@ != "check"@,
        "config"@ != "backup"@,
        "config"@ != "restore"@,
        "config"@ != "apply"@,
        "button"@ != "status"@,
        "button"@ != "dpi"@,
        "button"@ != "check"@,
        "button"@ != "backup"@,
        "button"@ != "restore"@,
        "button"@ != "apply"@,
        "button"@ != "config"@,
        "profile"@ != "status"@,
        "profile"@ != "dpi"@,
        "profile"@ != "check"@,
        "profile"@ != "backup"@,
        "profile"@ != "restore"@,
        "profile"@ != "apply"@,
        "profile"@ != "config"@,
        "profile"@ != "button"@,
        "led"@ != "status"@,
        "led"@ != "dpi"@,
        "led"@ != "check"@,
        "led"@ != "backup"@,
        "led"@ != "restore"@,
        "led"@ != "apply"@,
        "led"@ != "config"@,
        "led"@ != "button"@,
        "led"@ != "profile"@,
{
    reveal_strlit("status");
    reveal_strlit("dpi");
    reveal_strlit("check");
    reveal_strlit("backup");
    reveal_strlit("restore");
    reveal_strlit("apply");
    reveal_strlit("config");
    reveal_strlit("button");
    reveal_strlit("profile");
    reveal_strlit("led");
    assert("status"@.len() == 6 && "status"@[0] == 's');
    assert("dpi"@.len() == 3 && "dpi"@[0] == 'd');
    assert("check"@.len() == 5 && "check"@[0] == 'c');
    assert("backup"@.len() == 6 && "backup"@[0] == 'b' && "backup"@[1] == 'a');
    assert("restore"@.len() == 7 && "restore"@[0] == 'r');
    assert("apply"@.len() == 5 && "apply"@[0] == 'a');
    assert("config"@.len() == 6 && "config"@[0] == 'c');
    assert("button"@.len() == 6 && "button"@[0] == 'b' && "button"@[1] == 'u');
    assert("profile"@.len() == 7 && "profile"@[0] == 'p');
    assert("led"@.len() == 3 && "led"@[0] == 'l');
}

/// The words of a command stand for that command, with each of its arguments, options and
/// flags.
pub proof fn the_words_of_a_command_stand_for_it(c: CommandModel)
    requires
        has_words(c),
    ensures
        command_of(words_for(c)) == Some(c),
{
    lemma_command_names();
    let w = words_for(c);
    match c {
        CommandModel::Status => {},
        CommandModel::DpiStep(_) => {
            reveal_strlit("up");
            reveal_strlit("down");
            assert("up"@.len() == 2);
            assert("down"@.len() == 4);
        },
        CommandModel::DpiSet(_) => {},
        CommandModel::Check => {},
        CommandModel::Backup(file) => {
            assert(w[0] == "backup"@);
        },
        CommandModel::Restore { file, flags } => {
            assert(w[0] == "restore"@ && w[1] == file);
            assert(w.skip(2) =~= flag_words(flags));
            lemma_flag_words(flags);
        },
        CommandModel::Apply { flags } => {
            assert(w[0] == "apply"@);
            assert(w.skip(1) =~= flag_words(flags));
            lemma_flag_words(flags);
        },
        CommandModel::ConfigExport(file) => {
            assert(w[0] == "config"@ && w[1] == "export"@);
        },
        CommandModel::ButtonSet { profile, button, action, flags } => {
            let rest = action + flag_words(flags);
            assert(w[0] == "button"@ && w[1] == "set"@);
            assert(w[2] == dec(profile as nat) && w[3] == dec(button as nat));
            lemma_number_of_dec(profile);
            lemma_number_of_dec(button);
            lemma_flag_words(flags);
            lemma_plain_words(action, flag_words(flags));
            assert(w.skip(4) =~= rest);
            assert(w.skip(4 + action.len() as int) =~= flag_words(flags));
            assert(w.subrange(4, 4 + action.len() as int) =~= action);
        },
        CommandModel::ProfileDisable { profile, disable, flags } => {
            reveal_strlit("enable");
            reveal_strlit("disable");
            assert("enable"@.len() == 6);
            assert("disable"@.len() == 7);
            assert(w[0] == "profile"@ && w[2] == dec(profile as nat));
            assert(w[1] == (if disable {
                "disable"@
            } else {
                "enable"@
            }));
            lemma_number_of_dec(profile);
            lemma_flag_words(flags);
            assert(w.skip(3) =~= flag_words(flags));
        },
        CommandModel::ProfileRate { profile, hz, flags } => {
            reveal_strlit("enable");
            reveal_strlit("disable");
            reveal_strlit("rate");
            assert("enable"@.len() == 6);
            assert("disable"@.len() == 7);
            assert("rate"@.len() == 4);
            assert(w[0] == "profile"@ && w[1] == "rate"@);
            assert(w[2] == dec(profile as nat) && w[3] == dec(hz as nat));
            lemma_number_of_dec(profile);
            lemma_number_of_dec(hz);
            lemma_flag_words(flags);
            assert(w.skip(4) =~= flag_words(flags));
        },
        CommandModel::LedSet { profile, led, options, flags } => {
            assert(w[0] == "led"@ && w[1] == "set"@);
            assert(w[2] == dec(profile as nat) && w[3] == dec(led as nat));
            lemma_number_of_dec(profile);
            lemma_number_of_dec(led);
            assert(w.skip(4) =~= led_option_words(options, flags));
            lemma_led_words(options, flags);
        },
    }
}

/// No other words stand for a command that takes no flags.
pub proof fn a_command_without_flags_is_its_words(a: Seq<Seq<char>>)
    ensures
        command_of(a) matches Some(c) ==> (flags_in(c) is None ==> a == words_for(c)),
{
    if command_of(a) is Some && flags_in(command_of(a)->0) is None {
        assert(a =~= words_for(command_of(a)->0));
    }
}

/// The words of `a` from position `n` on are flags, and they are `f`.
pub open spec fn ends_in_flags(a: Seq<Seq<char>>, n: int, f: Flags) -> bool {
    &&& 0 <= n <= a.len()
    &&& forall|i: int| n <= i < a.len() ==> #[trigger] a[i] == "--dry-run"@ || a[i] == "--yes"@
    &&& f.dry_run <==> exists|i: int| n <= i < a.len() && #[trigger] a[i] == "--dry-run"@
    &&& f.yes <==> exists|i: int| n <= i < a.len() && #[trigger] a[i] == "--yes"@
}

proof fn lemma_ends_in_flags(a: Seq<Seq<char>>, n: int)
    requires
        0 <= n <= a.len(),
    ensures
        flags_of(a.skip(n)) matches Some(f) ==> ends_in_flags(a, n, f),
{
    let w = a.skip(n);
    if flags_of(w) is Some {
        let f = flags_of(w)->0;
        assert forall|i: int| n <= i < a.len() implies #[trigger] a[i] == "--dry-run"@ || a[i]
            == "--yes"@ by {
            assert(w[i - n] == a[i]);
            assert(is_flag(w[i - n]));
        }
        if f.dry_run {
            let j = choose|j: int| 0 <= j < w.len() && w[j] == "--dry-run"@;
            assert(a[n + j] == "--dry-run"@);
        }
        if exists|i: int| n <= i < a.len() && #[trigger] a[i] == "--dry-run"@ {
            let i = choose|i: int| n <= i < a.len() && #[trigger] a[i] == "--dry-run"@;
            assert(w[i - n] == "--dry-run"@);
        }
        if f.yes {
            let j = choose|j: int| 0 <= j < w.len() && w[j] == "--yes"@;
            assert(a[n + j] == "--yes"@);
        }
        if exists|i: int| n <= i < a.len() && #[trigger] a[i] == "--yes"@ {
            let i = choose|i: int| n <= i < a.len() && #[trigger] a[i] == "--yes"@;
            assert(w[i - n] == "--yes"@);
        }
    }
}

proof fn lemma_plain_words_len(w: Seq<Seq<char>>)
    ensures
        plain_words(w) <= w.len(),
        forall|i: int| 0 <= i < plain_words(w) ==> !is_flag(#[trigger] w[i]),
    decreases w.len(),
{
    if w.len() > 0 && !is_flag(w[0]) {
        lemma_plain_words_len(w.skip(1));
        assert forall|i: int| 0 <= i < plain_words(w) implies !is_flag(#[trigger] w[i]) by {
            if i > 0 {
                assert(w.skip(1)[i - 1] == w[i]);
            }
        }
    }
}

/// A command that writes profiles has its name, its arguments in their places, and behind
/// them flags alone; it does without asking, or only shows, exactly where the flag for it
/// is there.
pub proof fn a_command_is_what_its_words_say(a: Seq<Seq<char>>)
    ensures
        command_of(a) matches Some(CommandModel::Restore { file, flags }) ==> a.len() >= 2 && a[0]
            == "restore"@ && a[1] == file && ends_in_flags(a, 2, flags),
        command_of(a) matches Some(CommandModel::Apply { flags }) ==> a[0] == "apply"@
            && ends_in_flags(a, 1, flags),
        command_of(a) matches Some(CommandModel::ButtonSet { profile, button, action, flags }) ==> {
            &&& a.len() >= 5
            &&& a[0] == "button"@
            &&& a[1] == "set"@
            &&& number(a[2]) == Some(profile)
            &&& number(a[3]) == Some(button)
            &&& action.len() > 0
            &&& ends_in_flags(a, 4 + action.len() as int, flags)
            &&& action == a.subrange(4, 4 + action.len() as int)
            &&& forall|i: int| 0 <= i < action.len() ==> !is_flag(#[trigger] action[i])
        },
        command_of(a) matches Some(CommandModel::ProfileDisable { profile, disable, flags }) ==> {
            &&& a.len() >= 3
            &&& a[0] == "profile"@
            &&& a[1] == (if disable {
                "disable"@
            } else {
                "enable"@
            })
            &&& number(a[2]) == Some(profile)
            &&& ends_in_flags(a, 3, flags)
        },
        command_of(a) matches Some(CommandModel::ProfileRate { profile, hz, flags }) ==> {
            &&& a.len() >= 4
            &&& a[0] == "profile"@
            &&& a[1] == "rate"@
            &&& number(a[2]) == Some(profile)
            &&& number(a[3]) == Some(hz)
            &&& ends_in_flags(a, 4, flags)
        },
        command_of(a) matches Some(CommandModel::LedSet { profile, led, .. }) ==> {
            &&& a.len() >= 4
            &&& a[0] == "led"@
            &&& a[1] == "set"@
            &&& number(a[2]) == Some(profile)
            &&& number(a[3]) == Some(led)
        },
{
    if a.len() >= 1 {
        lemma_ends_in_flags(a, 1);
    }
    if a.len() >= 2 {
        lemma_ends_in_flags(a, 2);
    }
    if a.len() >= 3 {
        lemma_ends_in_flags(a, 3);
    }
    if a.len() >= 4 {
        lemma_ends_in_flags(a, 4);
        let w = a.skip(4);
        lemma_plain_words_len(w);
        let n = plain_words(w) as int;
        lemma_ends_in_flags(a, 4 + n);
        let action = a.subrange(4, 4 + n);
        assert forall|i: int| 0 <= i < action.len() implies !is_flag(#[trigger] action[i]) by {
            assert(w[i] == action[i]);
        }
    }
}

/// The options and flags of `led set` come in any order, and one that is given twice counts
/// the last time; a word that is neither, and a brightness that is no number, are rejected.
pub proof fn led_options_come_in_any_order(
    o: LedOptionsModel,
    f: Flags,
    v: Seq<char>,
    rest: Seq<Seq<char>>,
)
    ensures
        led_words(o, f, seq!["--dry-run"@] + rest) == led_words(o, Flags { dry_run: true, ..f }, rest),
        led_words(o, f, seq!["--yes"@] + rest) == led_words(o, Flags { yes: true, ..f }, rest),
        led_words(o, f, seq!["--mode"@, v] + rest) == led_words(
            LedOptionsModel { mode: Some(v), ..o },
            f,
            rest,
        ),
        led_words(o, f, seq!["--color"@, v] + rest) == led_words(
            LedOptionsModel { color: Some(v), ..o },
            f,
            rest,
        ),
        number(v) is Some ==> led_words(o, f, seq!["--brightness"@, v] + rest) == led_words(
            LedOptionsModel { brightness: number(v), ..o },
            f,
            rest,
        ),
        number(v) is None ==> led_words(o, f, seq!["--brightness"@, v] + rest) is None,
        v != "--dry-run"@ && v != "--yes"@ && v != "--mode"@ && v != "--color"@ && v
            != "--brightness"@ ==> led_words(o, f, seq![v] + rest) is None,
        led_words(o, f, Seq::<Seq<char>>::empty()) == Some((o, f)),
{
    lemma_option_names();
    let dry = seq!["--dry-run"@] + rest;
    let yes = seq!["--yes"@] + rest;
    let brightness = seq!["--brightness"@, v] + rest;
    assert(dry[0] == "--dry-run"@ && dry.skip(1) =~= rest);
    assert(yes[0] == "--yes"@ && yes.skip(1) =~= rest);
    lemma_led_option(o, f, "--mode"@, Some(v), rest);
    lemma_led_option(o, f, "--color"@, Some(v), rest);
    if number(v) is Some {
        lemma_led_option(o, f, "--brightness"@, Some(v), rest);
    } else {
        assert(brightness[0] == "--brightness"@ && brightness[1] == v);
    }
    assert((seq![v] + rest)[0] == v);
}

/// Flags come in any order, as often as they like, and each counts where it is there.
pub proof fn flags_come_in_any_order(a: Seq<Seq<char>>, b: Seq<Seq<char>>)
    ensures
        flags_of(a + b) is Some <==> flags_of(a) is Some && flags_of(b) is Some,
        flags_of(a + b) is Some ==> flags_of(a + b)->0 == (Flags {
            dry_run: flags_of(a)->0.dry_run || flags_of(b)->0.dry_run,
            yes: flags_of(a)->0.yes || flags_of(b)->0.yes,
        }),
        flags_of(seq!["--dry-run"@]) == Some(Flags { dry_run: true, yes: false }),
        flags_of(seq!["--yes"@]) == Some(Flags { dry_run: false, yes: true }),
        flags_of(Seq::<Seq<char>>::empty()) == Some(Flags { dry_run: false, yes: false }),
{
    lemma_option_names();
    let w = a + b;
    if flags_of(w) is Some {
        assert forall|i: int| 0 <= i < a.len() implies is_flag(#[trigger] a[i]) by {
            assert(w[i] == a[i]);
        }
        assert forall|i: int| 0 <= i < b.len() implies is_flag(#[trigger] b[i]) by {
            assert(w[a.len() + i] == b[i]);
        }
    }
    assert forall|x: Seq<char>| #[trigger] w.contains(x) == (a.contains(x) || b.contains(x)) by {
        if a.contains(x) {
            let i = choose|i: int| 0 <= i < a.len() && a[i] == x;
            assert(w[i] == x);
        }
        if b.contains(x) {
            let i = choose|i: int| 0 <= i < b.len() && b[i] == x;
            assert(w[a.len() + i] == x);
        }
        if w.contains(x) {
            let i = choose|i: int| 0 <= i < w.len() && w[i] == x;
            if i < a.len() {
                assert(a[i] == x);
            } else {
                assert(b[i - a.len()] == x);
            }
        }
    }
    assert(seq!["--dry-run"@][0] == "--dry-run"@);
    assert(seq!["--yes"@][0] == "--yes"@);
}

} // verus!
