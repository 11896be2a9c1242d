use g502_linux_control::command::{parse_command, Command, Flags, LedOptions};
use g502_linux_control::dpi::Step;
use g502_linux_control::restore::{Change, Planned};
use g502_linux_control::writing::{
    backup_name, config_to_apply, edit_outcome_text, is_yes, restored_text, review, unsettled, Verdict, Write, WriteDone,
    WriteEnd, WriteStep,
};

fn words(line: &str) -> Option<Command> {
    let w: Vec<&str> = line.split(' ').filter(|w| !w.is_empty()).collect();
    parse_command(&w)
}

const NONE: Flags = Flags { dry_run: false, yes: false };
const YES: Flags = Flags { dry_run: false, yes: true };
const DRY: Flags = Flags { dry_run: true, yes: false };
const BOTH: Flags = Flags { dry_run: true, yes: true };

#[test]
fn every_command_has_its_words() {
    assert_eq!(words("status"), Some(Command::Status));
    assert_eq!(words("dpi up"), Some(Command::DpiStep(Step::Up)));
    assert_eq!(words("dpi down"), Some(Command::DpiStep(Step::Down)));
    assert_eq!(words("dpi set 2400"), Some(Command::DpiSet("2400".into())));
    assert_eq!(words("check"), Some(Command::Check));
    assert_eq!(words("backup"), Some(Command::Backup(None)));
    assert_eq!(words("backup a.toml"), Some(Command::Backup(Some("a.toml".into()))));
    assert_eq!(words("restore a.toml"), Some(Command::Restore { file: "a.toml".into(), flags: NONE }));
    assert_eq!(words("restore a.toml --yes --dry-run --yes"), Some(Command::Restore { file: "a.toml".into(), flags: BOTH }));
    assert_eq!(words("apply --dry-run"), Some(Command::Apply { flags: DRY }));
    assert_eq!(words("config export"), Some(Command::ConfigExport(None)));
    assert_eq!(words("config export c.toml"), Some(Command::ConfigExport(Some("c.toml".into()))));
    assert_eq!(words("profile enable 2"), Some(Command::ProfileDisable { profile: 2, disable: false, flags: NONE }));
    assert_eq!(words("profile disable 2 --yes"), Some(Command::ProfileDisable { profile: 2, disable: true, flags: YES }));
    assert_eq!(words("profile rate 0 500"), Some(Command::ProfileRate { profile: 0, hz: 500, flags: NONE }));
    assert_eq!(
        words("button set 1 3 special wheel-left --yes"),
        Some(Command::ButtonSet { profile: 1, button: 3, action: vec!["special".into(), "wheel-left".into()], flags: YES })
    );
    assert_eq!(
        words("button set 1 3 none"),
        Some(Command::ButtonSet { profile: 1, button: 3, action: vec!["none".into()], flags: NONE })
    );
    assert_eq!(
        words("led set 0 1 --color ff0000 --yes --mode on --brightness 9 --mode off"),
        Some(Command::LedSet {
            profile: 0,
            led: 1,
            options: LedOptions { mode: Some("off".into()), color: Some("ff0000".into()), brightness: Some(9) },
            flags: YES,
        })
    );
    assert_eq!(
        words("led set 0 1"),
        Some(Command::LedSet { profile: 0, led: 1, options: LedOptions { mode: None, color: None, brightness: None }, flags: NONE })
    );
}

#[test]
fn other_words_are_no_command() {
    for bad in [
        "", "statu", "status now", "dpi", "dpi set", "dpi up 1", "check --yes", "restore", "restore a b", "restore a.toml --force",
        "apply now", "config", "config import", "config export a b", "button set 1 3", "button set x 3 none", "button set 1 3 --yes",
        "button set 1 3 none --yes extra", "button get 1 3 none", "profile enable", "profile enable x", "profile rate 0",
        "profile rate 0 fast", "profile list 0", "led set 0", "led set 0 1 --mode", "led set 0 1 --brightness bright", "led set 0 1 red",
        "led get 0 1", "restore a.toml --dryrun",
    ] {
        assert_eq!(words(bad), None, "{bad}");
    }
}

#[test]
fn flags_are_rejected_where_they_mean_nothing() {
    for line in ["status", "dpi up", "dpi down", "dpi set 1000", "check", "backup", "backup f", "config export", "config export f"] {
        assert!(words(line).is_some(), "{line}");
        for flag in ["--yes", "--dry-run"] {
            assert_eq!(words(&format!("{line} {flag}")), None, "{line} {flag}");
        }
    }
}

fn plan(lines: &[&str]) -> Vec<Planned> {
    lines.iter().map(|l| Planned { change: Change::ReportRate { profile: 0, to: 500 }, summary: l.to_string() }).collect()
}

#[test]
fn a_plan_is_shown_and_agreed() {
    let r = review(&plan(&[]), "a.toml", NONE, true);
    assert!(r.lines.is_empty());
    assert_eq!(r.verdict, Verdict::Stop("device already matches a.toml; nothing to do".into()));
    let two = plan(&["one", "two"]);
    let r = review(&two, "a.toml", NONE, true);
    assert_eq!(r.lines, vec!["2 change(s) from a.toml:", "  one", "  two"]);
    assert_eq!(r.verdict, Verdict::Ask);
    assert_eq!(review(&two, "a.toml", YES, false).verdict, Verdict::Write);
    assert_eq!(review(&two, "a.toml", BOTH, true).verdict, Verdict::Stop("dry run: nothing was written".into()));
    match review(&two, "a.toml", NONE, false).verdict {
        Verdict::Refuse(e) => assert_eq!(e.to_string(), "not a terminal; pass --yes to write without asking"),
        other => panic!("{other:?}"),
    }
}

#[test]
fn only_a_yes_is_a_yes() {
    for yes in ["y", "Y", "yes", " yes\n", "\ty\r\n"] {
        assert!(is_yes(yes), "{yes:?}");
    }
    for no in ["", "\n", "n", "YES", "Yes", "yes please", "yy"] {
        assert!(!is_yes(no), "{no:?}");
    }
}

#[test]
fn a_write_takes_its_steps_in_order() {
    let (mut w, step) = Write::begin();
    assert_eq!(step, WriteStep::Lock);
    assert_eq!(w.next(WriteDone::Locked), WriteStep::Plan);
    assert_eq!(w.next(WriteDone::Planned(3)), WriteStep::Save);
    assert_eq!(w.next(WriteDone::Saved), WriteStep::Stage);
    assert_eq!(w.next(WriteDone::Staged), WriteStep::Commit);
    assert_eq!(w.next(WriteDone::Committed), WriteStep::Verify);
    assert_eq!(w.next(WriteDone::Verified(0)), WriteStep::Return(WriteEnd::Written(3)));
    assert_eq!(w.next(WriteDone::Verified(2)), WriteStep::Return(WriteEnd::Remaining(2)));
    assert_eq!(w.next(WriteDone::Failed), WriteStep::Return(WriteEnd::Failed));
    let (mut w, _) = Write::begin();
    assert_eq!(w.next(WriteDone::Planned(0)), WriteStep::Return(WriteEnd::Unchanged));
}

#[test]
fn a_write_says_how_it_ended() {
    assert_eq!(backup_name(1_700_000_000), "pre-restore-1700000000.toml");
    assert_eq!(restored_text(3, "a.toml"), "restored 3 change(s); device now matches a.toml");
    let (lines, e) = unsettled(&plan(&["one", "two"]), "/b.toml");
    assert_eq!(lines, vec!["  still differs: one", "  still differs: two"]);
    assert_eq!(e.to_string(), "2 difference(s) remain after the write; undo with: g502ctl restore /b.toml");
    assert_eq!(
        edit_outcome_text(2, "profile 0 LED 1", Some("/b.toml")),
        "Wrote 2 change(s) to profile 0 LED 1. Previous state saved to /b.toml"
    );
    assert_eq!(edit_outcome_text(0, "x", None), "Nothing to change: the device already has that.");
}

#[test]
fn applying_needs_a_config_file() {
    assert_eq!(config_to_apply(Some("/c.toml")).unwrap(), "/c.toml");
    assert_eq!(config_to_apply(None).unwrap_err().to_string(), "no config file; nothing to apply");
}
