use g502_linux_control::action::{
    key_code, key_name, parseable_key_name, special_id, special_name, SPECIAL_BASE,
};
use g502_linux_control::ratbag::{
    action_string, describe, led_mode_name, parse_action, parse_led_mode, special_names, RawValue, LED_MODES,
};

#[test]
fn parses_actions() {
    assert_eq!(parse_action(&["none"]).unwrap(), (0, None));
    assert_eq!(parse_action(&["button", "3"]).unwrap(), (1, Some(RawValue::Number(3))));
    assert_eq!(parse_action(&["key", "KEY_A"]).unwrap(), (3, Some(RawValue::Number(30))));
    assert_eq!(parse_action(&["key", "a"]).unwrap(), (3, Some(RawValue::Number(30))));
    assert_eq!(
        parse_action(&["macro", "KEY_F13"]).unwrap(),
        (4, Some(RawValue::MacroEvents(vec![[1, 183], [2, 183]])))
    );
}

#[test]
fn special_names_match_libratbag_ids() {
    // ids from ratbagctl's ActionSpecial enum
    assert_eq!(parse_action(&["special", "resolution-alternate"]).unwrap().1, Some(RawValue::Number((1 << 30) + 11)));
    assert_eq!(parse_action(&["special", "profile-cycle-up"]).unwrap().1, Some(RawValue::Number((1 << 30) + 13)));
    assert_eq!(parse_action(&["special", "wheel-left"]).unwrap().1, Some(RawValue::Number((1 << 30) + 2)));
    for name in special_names() {
        let id = special_id(name).unwrap();
        assert_eq!(special_name(id), *name);
    }
    assert!(special_id("unknown").is_none());
}

#[test]
fn rejects_bad_actions() {
    assert!(parse_action(&[]).is_err());
    assert!(parse_action(&["button", "0"]).is_err());
    assert!(parse_action(&["button", "x"]).is_err());
    assert!(parse_action(&["special", "nope"]).is_err());
    assert!(parse_action(&["key", "KEY_NOPE_NOT_REAL"]).is_err());
    assert!(parse_action(&["macro"]).is_err());
    assert!(parse_action(&["none", "extra"]).is_err());
}

#[test]
fn led_modes() {
    assert_eq!(parse_led_mode("off").unwrap(), 0);
    assert_eq!(parse_led_mode("on").unwrap(), 1);
    assert_eq!(parse_led_mode("cycle").unwrap(), 2);
    assert_eq!(parse_led_mode("breathing").unwrap(), 3);
    assert!(parse_led_mode("blink").is_err());
}

#[test]
fn describes_actions() {
    assert_eq!(describe(1, &Some(RawValue::Number(9))), "mouse button 9");
    assert_eq!(describe(4, &Some(RawValue::MacroEvents(vec![[1, 183], [2, 183]]))), "macro KEY_F13");
    assert_eq!(
        describe(4, &Some(RawValue::MacroEvents(vec![[1, 29], [1, 46], [3, 50], [2, 46], [2, 29]]))),
        "macro [+KEY_LEFTCTRL +KEY_C wait 50ms -KEY_C -KEY_LEFTCTRL]"
    );
    assert_eq!(describe(2, &Some(RawValue::Number((1 << 30) + 13))), "special profile-cycle-up");
}

#[test]
fn action_errors_say_what_is_wrong() {
    let err = |w: &[&str]| parse_action(w).unwrap_err().to_string();
    assert_eq!(err(&["button", "x\n"]), "not a button number: \"x\\n\"");
    assert_eq!(err(&["button", "0"]), "mouse buttons are numbered from 1");
    assert!(err(&["special", "nope"]).starts_with("unknown special action \"nope\"; known: doubleclick, wheel-left, "));
    assert!(err(&["special", "nope"]).ends_with(", second-mode, battery-level"));
    assert_eq!(
        err(&["key", "KEY_NOPE"]),
        "unknown key \"KEY_NOPE\" (use evdev names such as KEY_A, KEY_F13, KEY_LEFTCTRL)"
    );
    assert_eq!(err(&[]), "action must be one of: none | button N | special NAME | key KEY_X | macro KEY_X");
}

#[test]
fn spellings_read_back() {
    let values = [
        (0, None),
        (1, Some(RawValue::Number(7))),
        (2, Some(RawValue::Number(SPECIAL_BASE + 18))),
        (3, Some(RawValue::Number(30))),
        (4, Some(RawValue::MacroEvents(vec![[1, 184], [2, 184]]))),
    ];
    let texts = ["none", "button 7", "special battery-level", "key KEY_A", "macro KEY_F14"];
    for ((kind, value), text) in values.into_iter().zip(texts) {
        let spelled = action_string(kind, &value).unwrap();
        assert_eq!(spelled, text);
        let words: Vec<&str> = spelled.split_whitespace().collect();
        assert_eq!(parse_action(&words).unwrap(), (kind, value));
    }
}

#[test]
fn some_mappings_have_no_spelling() {
    assert_eq!(action_string(2, &Some(RawValue::Number(SPECIAL_BASE))), None);
    assert_eq!(action_string(2, &Some(RawValue::Number(5))), None);
    assert_eq!(action_string(3, &Some(RawValue::Number(70_000))), None);
    assert_eq!(action_string(4, &Some(RawValue::MacroEvents(vec![[1, 30], [2, 31]]))), None);
    assert_eq!(action_string(4, &Some(RawValue::Number(1))), None);
    assert_eq!(action_string(9, &None), None);
    // A mouse button as a key has a name, but not one that `key` accepts.
    assert_eq!(action_string(3, &Some(RawValue::Number(272))), None);
}

#[test]
fn keys_go_by_their_evdev_names() {
    assert_eq!(key_name(183), "KEY_F13");
    assert_eq!(key_name(u32::from(evdev::KeyCode::KEY_F14.code())), "KEY_F14");
    assert_eq!(key_name(70_000), "key#70000");
    assert_eq!(key_code("leftctrl").unwrap(), u32::from(evdev::KeyCode::KEY_LEFTCTRL.code()));
    assert_eq!(key_code("Key_a").unwrap(), 30);
    assert!(key_code("").is_err());
    assert_eq!(parseable_key_name(30).unwrap(), "KEY_A");
    // Two names share one code; the name that is printed reads back.
    assert_eq!(key_code(&parseable_key_name(153).unwrap()).unwrap(), 153);
    assert_eq!(key_code("direction").unwrap(), key_code("rotate_display").unwrap());
}

#[test]
fn other_letters_are_raised_as_the_language_has_it() {
    // The sharp s becomes two letters, the dotless i a plain one.
    assert!(key_code("\u{df}").is_err());
    assert_eq!(key_code("\u{131}").unwrap(), key_code("i").unwrap());
}

#[test]
fn descriptions_of_unknown_things() {
    assert_eq!(describe(0, &None), "none");
    assert_eq!(describe(7, &None), "unknown type 7");
    assert_eq!(describe(2, &Some(RawValue::Number(1))), "special #0x1");
    assert_eq!(describe(2, &Some(RawValue::Number(SPECIAL_BASE))), "special unknown");
    assert_eq!(describe(4, &Some(RawValue::MacroEvents(vec![[9, 1]]))), "macro [?9:1]");
    assert_eq!(describe(4, &Some(RawValue::MacroEvents(vec![]))), "macro []");
    assert_eq!(describe(3, &Some(RawValue::Number(65_535))), "key unknown key: 65535");
}

#[test]
fn special_names_and_ids_lead_to_each_other() {
    assert_eq!(special_names().len(), 18);
    assert_eq!(special_id("doubleclick"), Some(SPECIAL_BASE + 1));
    assert_eq!(special_name(SPECIAL_BASE + 1), "doubleclick");
    assert_eq!(special_name(SPECIAL_BASE + 19), "#0x40000013");
}

#[test]
fn led_mode_names_and_values_lead_to_each_other() {
    for (i, name) in LED_MODES.iter().enumerate() {
        assert_eq!(led_mode_name(i as u32), Some(*name));
        assert_eq!(parse_led_mode(name).unwrap(), i as u32);
    }
    assert_eq!(led_mode_name(4), None);
    assert_eq!(
        parse_led_mode("blink").unwrap_err().to_string(),
        "unknown LED mode \"blink\"; use one of: off, on, cycle, breathing"
    );
}
