//! Button actions and LED modes: their numbers in ratbagd and their names.

use crate::error::{failure, is_outcome, Error, Failure};
use crate::ratbag::{event_pairs, raw_model, RawModel, RawValue};
use crate::text::{
    ascii_upper, begins, begins_with, dec, hex, is_ascii, is_printed, is_printing, is_word, join, joined,
    lemma_number_of_dec, lemma_numbers_are_printed, lemma_one_word, lemma_printed_both, lemma_printed_join, lemma_two_words, number, parse_number, push_dec, push_hex, quote, quoted, same, str_texts, texts, to_upper, upper, words,
};
use vstd::prelude::*;

verus! {

// -------------------------------------------------------------------------- keys
/// What the `Debug` form of evdev's `KeyCode` reads for a code.
pub uninterp spec fn key_debug(code: u16) -> Seq<char>;

/// The code that evdev's `KeyCode` has under a name.
pub uninterp spec fn key_of_name(name: Seq<char>) -> Option<u16>;

/// Made of `A` to `Z`, `0` to `9` and `_`.
pub open spec fn is_key_word(s: Seq<char>) -> bool {
    forall|i: int|
        0 <= i < s.len() ==> {
            let c = #[trigger] s[i];
            'A' <= c <= 'Z' || '0' <= c <= '9' || c == '_'
        }
}

/// The `Debug` form of `evdev::KeyCode`: the name of the constant with this code, which is
/// made of capitals, digits and underscores, or `unknown key: ` and the code.
#[verifier::external_body]
fn key_code_name(code: u16) -> (r: String)
    ensures
        r@ == key_debug(code),
        is_key_word(r@) || r@ == "unknown key: "@ + dec(code as nat),
{
    format!("{:?}", evdev::KeyCode::new(code))
}

/// `str::parse` for `evdev::KeyCode`: the constant of this name, if there is one. A code that
/// a name leads to is shown under a name that leads back to it; a code with a name that begins
/// with `KEY_` is shown under such a name.
#[verifier::external_body]
fn parse_key_code(name: &str) -> (r: Option<u16>)
    ensures
        r == key_of_name(name@),
        r matches Some(c) ==> key_of_name(key_debug(c)) == Some(c) && is_key_word(key_debug(c)),
        r matches Some(c) ==> begins(name@, "KEY_"@) ==> begins(key_debug(c), "KEY_"@),
{
    name.parse::<evdev::KeyCode>().ok().map(|k| k.code())
}

/// The name of a key code.
pub open spec fn key_text(code: u32) -> Seq<char> {
    if code <= u16::MAX {
        key_debug(code as u16)
    } else {
        "key#"@ + dec(code as nat)
    }
}

pub fn key_name(code: u32) -> (r: String)
    ensures
        r@ == key_text(code),
        begins(r@, "KEY_"@) ==> is_key_word(r@),
        is_printed(r@),
{
    proof {
        reveal_strlit("KEY_");
        reveal_strlit("unknown key: ");
        reveal_strlit("key#");
    }
    if code <= u16::MAX as u32 {
        let r = key_code_name(code as u16);
        proof {
            lemma_numbers_are_printed(code as nat);
            lemma_printed_both("unknown key: "@, dec(code as nat));
            if begins(r@, "KEY_"@) {
                assert(r@.take(4)[0] == 'K');
            }
        }
        r
    } else {
        let mut s = "key#".to_owned();
        push_dec(&mut s, code as u64);
        proof {
            lemma_numbers_are_printed(code as nat);
            lemma_printed_both("key#"@, dec(code as nat));
            if begins(s@, "KEY_"@) {
                assert(s@.take(4)[0] == 'K');
            }
        }
        s
    }
}

/// The full name that a short or lower-case key name stands for.
pub open spec fn full_key_name(name: Seq<char>) -> Seq<char> {
    if begins(upper(name), "KEY_"@) {
        upper(name)
    } else {
        "KEY_"@ + upper(name)
    }
}

/// "KEY_A", "key_a" or "a" to its evdev key code.
pub open spec fn key_code_of(name: Seq<char>) -> Result<u32, Failure> {
    match key_of_name(full_key_name(name)) {
        Some(c) => Ok(c as u32),
        None => Err(
            failure(
                "unknown key "@ + quoted(name)
                    + " (use evdev names such as KEY_A, KEY_F13, KEY_LEFTCTRL)"@,
            ),
        ),
    }
}

/// "KEY_A", "key_a" or "a" -> evdev key code.
pub fn key_code(name: &str) -> (r: Result<u32, Error>)
    ensures
        is_outcome(r, key_code_of(name@)),
        r matches Ok(c) ==> spelled_key(c) is Some,
{
    let up = to_upper(name);
    let full = if begins_with(up.as_str(), "KEY_") {
        up
    } else {
        let mut s = "KEY_".to_owned();
        s.append(up.as_str());
        assert(s@.take("KEY_"@.len() as int) =~= "KEY_"@);
        s
    };
    match parse_key_code(full.as_str()) {
        Some(c) => {
            proof {
                lemma_key_word_is_upper(key_debug(c));
            }
            Ok(c as u32)
        },
        None => {
            let mut m = "unknown key ".to_owned();
            let q = quote(name);
            m.append(q.as_str());
            m.append(" (use evdev names such as KEY_A, KEY_F13, KEY_LEFTCTRL)");
            Err(Error::new(m))
        },
    }
}

/// Capitals, digits and underscores are their own upper case, and hold no space.
proof fn lemma_key_word_is_upper(s: Seq<char>)
    requires
        is_key_word(s),
    ensures
        upper(s) == s,
        is_word(s),
{
    assert(is_ascii(s));
    assert(ascii_upper(s) =~= s);
}

/// The name under which a config can spell a key code: one that leads back to the code.
pub open spec fn spelled_key(code: u32) -> Option<Seq<char>> {
    let name = key_text(code);
    if begins(name, "KEY_"@) && is_key_word(name) && key_code_of(name) == Ok::<u32, Failure>(code) {
        Some(name)
    } else {
        None
    }
}

pub fn parseable_key_name(code: u32) -> (r: Option<String>)
    ensures
        r is Some == spelled_key(code) is Some,
        r matches Some(s) ==> s@ == spelled_key(code)->0,
{
    let name = key_name(code);
    if begins_with(name.as_str(), "KEY_") {
        proof {
            lemma_key_word_is_upper(name@);
        }
        match key_code(name.as_str()) {
            Ok(c) => if c == code {
                Some(name)
            } else {
                None
            },
            Err(_) => None,
        }
    } else {
        None
    }
}

// --------------------------------------------------------------- special actions
/// libratbag `ActionSpecial` names, in id order starting at 1<<30.
pub open spec fn special_list() -> Seq<Seq<char>> {
    seq![
        "unknown"@,
        "doubleclick"@,
        "wheel-left"@,
        "wheel-right"@,
        "wheel-up"@,
        "wheel-down"@,
        "ratchet-mode-switch"@,
        "resolution-cycle-up"@,
        "resolution-cycle-down"@,
        "resolution-up"@,
        "resolution-down"@,
        "resolution-alternate"@,
        "resolution-default"@,
        "profile-cycle-up"@,
        "profile-cycle-down"@,
        "profile-up"@,
        "profile-down"@,
        "second-mode"@,
        "battery-level"@,
    ]
}

/// The id of the first special action, whose name is `unknown`.
pub const SPECIAL_BASE: u32 = 0x4000_0000;

/// Every special name is a single word of small letters and hyphens, and no two are the same.
pub proof fn lemma_special_names()
    ensures
        special_list().len() == 19,
        forall|i: int| 0 <= i < 19 ==> (#[trigger] special_list()[i]).len() > 0,
        forall|i: int, j: int|
            0 <= i < 19 && 0 <= j < special_list()[i].len() ==> {
                let c = #[trigger] special_list()[i][j];
                'a' <= c <= 'z' || c == '-'
            },
        forall|i: int, j: int|
            0 <= i < j < 19 ==> #[trigger] special_list()[i] != #[trigger] special_list()[j],
        forall|i: int| 0 <= i < 19 ==> is_word(#[trigger] special_list()[i]),
{
    reveal_strlit("unknown");
    reveal_strlit("doubleclick");
    reveal_strlit("wheel-left");
    reveal_strlit("wheel-right");
    reveal_strlit("wheel-up");
    reveal_strlit("wheel-down");
    reveal_strlit("ratchet-mode-switch");
    reveal_strlit("resolution-cycle-up");
    reveal_strlit("resolution-cycle-down");
    reveal_strlit("resolution-up");
    reveal_strlit("resolution-down");
    reveal_strlit("resolution-alternate");
    reveal_strlit("resolution-default");
    reveal_strlit("profile-cycle-up");
    reveal_strlit("profile-cycle-down");
    reveal_strlit("profile-up");
    reveal_strlit("profile-down");
    reveal_strlit("second-mode");
    reveal_strlit("battery-level");
    let s = special_list();
    assert(s[0].len() == 7);
    assert(s[1].len() == 11);
    assert(s[2].len() == 10);
    assert(s[3].len() == 11);
    assert(s[4].len() == 8);
    assert(s[5].len() == 10);
    assert(s[6].len() == 19);
    assert(s[7].len() == 19);
    assert(s[8].len() == 21);
    assert(s[9].len() == 13);
    assert(s[10].len() == 15);
    assert(s[11].len() == 20);
    assert(s[12].len() == 18);
    assert(s[13].len() == 16);
    assert(s[14].len() == 18);
    assert(s[15].len() == 10);
    assert(s[16].len() == 12);
    assert(s[17].len() == 11);
    assert(s[18].len() == 13);
    assert(s[1][0] != s[3][0]);
    assert(s[1][0] != s[17][0]);
    assert(s[2][6] != s[5][6]);
    assert(s[2][0] != s[15][0]);
    assert(s[3][0] != s[17][0]);
    assert(s[5][0] != s[15][0]);
    assert(s[6][1] != s[7][1]);
    assert(s[9][0] != s[18][0]);
    assert(s[12][0] != s[14][0]);
    assert forall|i: int, j: int| 0 <= i < j < 19 implies #[trigger] s[i] != #[trigger] s[j] by {
        assert(s[i].len() != s[j].len() || s[i] != s[j]);
    }
}

fn special_at(i: usize) -> (r: &'static str)
    requires
        i < 19,
    ensures
        r@ == special_list()[i as int],
{
    match i {
        0 => "unknown",
        1 => "doubleclick",
        2 => "wheel-left",
        3 => "wheel-right",
        4 => "wheel-up",
        5 => "wheel-down",
        6 => "ratchet-mode-switch",
        7 => "resolution-cycle-up",
        8 => "resolution-cycle-down",
        9 => "resolution-up",
        10 => "resolution-down",
        11 => "resolution-alternate",
        12 => "resolution-default",
        13 => "profile-cycle-up",
        14 => "profile-cycle-down",
        15 => "profile-up",
        16 => "profile-down",
        17 => "second-mode",
        _ => "battery-level",
    }
}

/// The name of a special action; an id without a name in hexadecimal.
pub open spec fn special_text(id: u32) -> Seq<char> {
    if SPECIAL_BASE <= id < SPECIAL_BASE + 19 {
        special_list()[id - SPECIAL_BASE]
    } else {
        "#"@ + "0x"@ + hex(id as nat)
    }
}

pub fn special_name(id: u32) -> (r: String)
    ensures
        r@ == special_text(id),
{
    if id >= SPECIAL_BASE && id - SPECIAL_BASE < 19 {
        special_at((id - SPECIAL_BASE) as usize).to_owned()
    } else {
        let mut s = "#".to_owned();
        s.append("0x");
        push_hex(&mut s, id);
        s
    }
}

/// The id of the special action called `name`; `unknown` is not one that can be named.
pub open spec fn special_id_of(name: Seq<char>) -> Option<u32> {
    if exists|i: int| 1 <= i < 19 && #[trigger] special_list()[i] == name {
        Some(
            (SPECIAL_BASE + choose|i: int| 1 <= i < 19 && #[trigger] special_list()[i] == name) as u32,
        )
    } else {
        None
    }
}

pub fn special_id(name: &str) -> (r: Option<u32>)
    ensures
        r == special_id_of(name@),
{
    let mut i: usize = 1;
    while i < 19
        invariant
            1 <= i <= 19,
            forall|j: int| 1 <= j < i ==> #[trigger] special_list()[j] != name@,
        decreases 19 - i,
    {
        if same(special_at(i), name) {
            proof {
                lemma_special_names();
                let k = choose|k: int| 1 <= k < 19 && #[trigger] special_list()[k] == name@;
                assert(special_list()[i as int] == name@);
                assert(k == i);
            }
            return Some(SPECIAL_BASE + i as u32);
        }
        i += 1;
    }
    None
}

/// The names that `special_id` knows, in id order.
pub open spec fn nameable_specials() -> Seq<Seq<char>> {
    special_list().skip(1)
}

/// The names of the special actions that a button can be given, in id order.
pub fn special_names() -> (r: Vec<&'static str>)
    ensures
        str_texts(r@) == nameable_specials(),
{
    let mut out: Vec<&'static str> = Vec::new();
    let mut i: usize = 1;
    while i < 19
        invariant
            1 <= i <= 19,
            out.len() == i - 1,
            forall|j: int| 0 <= j < i - 1 ==> (#[trigger] out@[j])@ == special_list()[j + 1],
        decreases 19 - i,
    {
        out.push(special_at(i));
        i += 1;
    }
    assert(str_texts(out@) =~= nameable_specials());
    out
}

/// The names of special actions and their ids lead to each other.
pub proof fn special_names_and_ids_agree(id: u32)
    requires
        SPECIAL_BASE < id < SPECIAL_BASE + 19,
    ensures
        special_id_of(special_text(id)) == Some(id),
        is_word(special_text(id)),
{
    lemma_special_names();
    let i = id - SPECIAL_BASE;
    let name = special_list()[i];
    let k = choose|k: int| 1 <= k < 19 && #[trigger] special_list()[k] == name;
    assert(special_list()[i] == name);
    assert(k == i);
}

/// A special action that can be named has an id with that name.
pub proof fn special_ids_and_names_agree(name: Seq<char>)
    ensures
        special_id_of(name) matches Some(id) ==> SPECIAL_BASE < id < SPECIAL_BASE + 19
            && special_text(id) == name,
{
}

/// The special actions have libratbag's own ids, counted from 2^30.
pub proof fn special_actions_have_their_ids()
    ensures
        special_id_of("doubleclick"@) == Some(0x4000_0001u32),
        special_text(0x4000_0001) == "doubleclick"@,
        special_id_of("wheel-left"@) == Some(0x4000_0002u32),
        special_text(0x4000_0002) == "wheel-left"@,
        special_id_of("wheel-right"@) == Some(0x4000_0003u32),
        special_text(0x4000_0003) == "wheel-right"@,
        special_id_of("wheel-up"@) == Some(0x4000_0004u32),
        special_text(0x4000_0004) == "wheel-up"@,
        special_id_of("wheel-down"@) == Some(0x4000_0005u32),
        special_text(0x4000_0005) == "wheel-down"@,
        special_id_of("ratchet-mode-switch"@) == Some(0x4000_0006u32),
        special_text(0x4000_0006) == "ratchet-mode-switch"@,
        special_id_of("resolution-cycle-up"@) == Some(0x4000_0007u32),
        special_text(0x4000_0007) == "resolution-cycle-up"@,
        special_id_of("resolution-cycle-down"@) == Some(0x4000_0008u32),
        special_text(0x4000_0008) == "resolution-cycle-down"@,
        special_id_of("resolution-up"@) == Some(0x4000_0009u32),
        special_text(0x4000_0009) == "resolution-up"@,
        special_id_of("resolution-down"@) == Some(0x4000_000au32),
        special_text(0x4000_000a) == "resolution-down"@,
        special_id_of("resolution-alternate"@) == Some(0x4000_000bu32),
        special_text(0x4000_000b) == "resolution-alternate"@,
        special_id_of("resolution-default"@) == Some(0x4000_000cu32),
        special_text(0x4000_000c) == "resolution-default"@,
        special_id_of("profile-cycle-up"@) == Some(0x4000_000du32),
        special_text(0x4000_000d) == "profile-cycle-up"@,
        special_id_of("profile-cycle-down"@) == Some(0x4000_000eu32),
        special_text(0x4000_000e) == "profile-cycle-down"@,
        special_id_of("profile-up"@) == Some(0x4000_000fu32),
        special_text(0x4000_000f) == "profile-up"@,
        special_id_of("profile-down"@) == Some(0x4000_0010u32),
        special_text(0x4000_0010) == "profile-down"@,
        special_id_of("second-mode"@) == Some(0x4000_0011u32),
        special_text(0x4000_0011) == "second-mode"@,
        special_id_of("battery-level"@) == Some(0x4000_0012u32),
        special_text(0x4000_0012) == "battery-level"@,
        special_text(0x4000_0000) == "unknown"@,
        special_id_of("unknown"@) is None,
{
    special_names_and_ids_agree(0x4000_0001);
    special_names_and_ids_agree(0x4000_0002);
    special_names_and_ids_agree(0x4000_0003);
    special_names_and_ids_agree(0x4000_0004);
    special_names_and_ids_agree(0x4000_0005);
    special_names_and_ids_agree(0x4000_0006);
    special_names_and_ids_agree(0x4000_0007);
    special_names_and_ids_agree(0x4000_0008);
    special_names_and_ids_agree(0x4000_0009);
    special_names_and_ids_agree(0x4000_000a);
    special_names_and_ids_agree(0x4000_000b);
    special_names_and_ids_agree(0x4000_000c);
    special_names_and_ids_agree(0x4000_000d);
    special_names_and_ids_agree(0x4000_000e);
    special_names_and_ids_agree(0x4000_000f);
    special_names_and_ids_agree(0x4000_0010);
    special_names_and_ids_agree(0x4000_0011);
    special_names_and_ids_agree(0x4000_0012);
    lemma_special_names();
    assert(special_list()[0] == "unknown"@);
}

/// An id that is none of a special action prints as a number, and no name has it.
pub proof fn other_special_ids_have_no_name(id: u32, name: Seq<char>)
    requires
        id < 0x4000_0000 || id > 0x4000_0012,
    ensures
        special_text(id) == "#0x"@ + hex(id as nat),
        special_id_of(name) != Some(id),
        special_id_of(special_text(id)) is None,
{
    reveal_strlit("#");
    reveal_strlit("0x");
    reveal_strlit("#0x");
    assert("#0x"@ =~= "#"@ + "0x"@);
    special_ids_and_names_agree(name);
    special_ids_and_names_agree(special_text(id));
    if special_id_of(special_text(id)) is Some {
        lemma_special_names();
        let other = special_id_of(special_text(id))->0;
        assert(special_list()[other - SPECIAL_BASE][0] == '#');
    }
}

proof fn lemma_special_is_printed(id: u32)
    ensures
        is_printed(special_text(id)),
{
    if SPECIAL_BASE <= id < SPECIAL_BASE + 19 {
        lemma_special_names();
        let i = id - SPECIAL_BASE;
        let name = special_text(id);
        assert forall|j: int| 0 <= j < name.len() implies is_printing(#[trigger] name[j]) by {
            assert(name[j] == special_list()[i][j]);
        }
    } else {
        reveal_strlit("#");
        reveal_strlit("0x");
        lemma_numbers_are_printed(id as nat);
        lemma_printed_both("#"@, "0x"@);
        lemma_printed_both("#"@ + "0x"@, hex(id as nat));
    }
}

// ------------------------------------------------------------------ descriptions
/// Press and release of one key.
pub open spec fn is_tap(ev: Seq<(u32, u32)>) -> bool {
    ev.len() == 2 && ev[0].0 == 1 && ev[1].0 == 2 && ev[0].1 == ev[1].1
}

/// One macro event: press, release, wait, or one of another kind.
pub open spec fn event_text(e: (u32, u32)) -> Seq<char> {
    if e.0 == 1 {
        "+"@ + key_text(e.1)
    } else if e.0 == 2 {
        "-"@ + key_text(e.1)
    } else if e.0 == 3 {
        "wait "@ + dec(e.1 as nat) + "ms"@
    } else {
        "?"@ + dec(e.0 as nat) + ":"@ + dec(e.1 as nat)
    }
}

pub open spec fn event_texts(ev: Seq<(u32, u32)>) -> Seq<Seq<char>> {
    Seq::new(ev.len(), |i: int| event_text(ev[i]))
}

/// A mapping in words. Press and release of one key read as just the key.
pub open spec fn description(kind: u32, value: Option<RawModel>) -> Seq<char> {
    match (kind, value) {
        (0, _) => "none"@,
        (1, Some(RawModel::Number(n))) => "mouse button "@ + dec(n as nat),
        (2, Some(RawModel::Number(n))) => "special "@ + special_text(n),
        (3, Some(RawModel::Number(n))) => "key "@ + key_text(n),
        (4, Some(RawModel::MacroEvents(ev))) => if is_tap(ev) {
            "macro "@ + key_text(ev[0].1)
        } else {
            "macro ["@ + join(event_texts(ev), " "@) + "]"@
        },
        (t, _) => "unknown type "@ + dec(t as nat),
    }
}

fn event_step(t: u32, k: u32) -> (r: String)
    ensures
        r@ == event_text((t, k)),
        is_printed(r@),
{
    proof {
        reveal_strlit("+");
        reveal_strlit("-");
        reveal_strlit("wait ");
        reveal_strlit("ms");
        reveal_strlit("?");
        reveal_strlit(":");
        lemma_numbers_are_printed(t as nat);
        lemma_numbers_are_printed(k as nat);
        lemma_printed_both("wait "@, dec(k as nat));
        lemma_printed_both("wait "@ + dec(k as nat), "ms"@);
        lemma_printed_both("?"@, dec(t as nat));
        lemma_printed_both("?"@ + dec(t as nat), ":"@);
        lemma_printed_both("?"@ + dec(t as nat) + ":"@, dec(k as nat));
    }
    if t == 1 {
        let mut s = "+".to_owned();
        let name = key_name(k);
        s.append(name.as_str());
        proof {
            lemma_printed_both("+"@, name@);
        }
        s
    } else if t == 2 {
        let mut s = "-".to_owned();
        let name = key_name(k);
        s.append(name.as_str());
        proof {
            lemma_printed_both("-"@, name@);
        }
        s
    } else if t == 3 {
        let mut s = "wait ".to_owned();
        push_dec(&mut s, k as u64);
        s.append("ms");
        s
    } else {
        let mut s = "?".to_owned();
        push_dec(&mut s, t as u64);
        s.append(":");
        push_dec(&mut s, k as u64);
        s
    }
}

fn taps(ev: &Vec<[u32; 2]>) -> (r: bool)
    ensures
        r == is_tap(event_pairs(ev@)),
{
    ev.len() == 2 && ev[0][0] == 1 && ev[1][0] == 2 && ev[0][1] == ev[1][1]
}

fn describe_macro(ev: &Vec<[u32; 2]>) -> (r: String)
    ensures
        r@ == description(4, Some(RawModel::MacroEvents(event_pairs(ev@)))),
        is_printed(r@),
{
    proof {
        reveal_strlit("macro ");
        reveal_strlit("macro [");
        reveal_strlit("]");
        reveal_strlit(" ");
    }
    if taps(ev) {
        let mut s = "macro ".to_owned();
        let name = key_name(ev[0][1]);
        s.append(name.as_str());
        proof {
            lemma_printed_both("macro "@, name@);
        }
        return s;
    }
    let mut steps: Vec<String> = Vec::new();
    let mut i: usize = 0;
    while i < ev.len()
        invariant
            i <= ev.len(),
            steps.len() == i,
            forall|j: int|
                0 <= j < i ==> (#[trigger] steps@[j])@ == event_text(event_pairs(ev@)[j])
                    && is_printed(steps@[j]@),
        decreases ev.len() - i,
    {
        steps.push(event_step(ev[i][0], ev[i][1]));
        i += 1;
    }
    assert(texts(steps@) =~= event_texts(event_pairs(ev@)));
    let mut s = "macro [".to_owned();
    let list = joined(&steps, " ");
    s.append(list.as_str());
    s.append("]");
    proof {
        lemma_printed_join(texts(steps@), " "@);
        lemma_printed_both("macro ["@, list@);
        lemma_printed_both("macro ["@ + list@, "]"@);
    }
    s
}

/// A mapping in words, e.g. "macro KEY_F13", without control characters.
pub fn describe(kind: u32, value: &Option<RawValue>) -> (r: String)
    ensures
        r@ == description(kind, raw_model(*value)),
        is_printed(r@),
{
    proof {
        reveal_strlit("none");
        reveal_strlit("mouse button ");
        reveal_strlit("special ");
        reveal_strlit("key ");
        reveal_strlit("unknown type ");
        lemma_numbers_are_printed(kind as nat);
        lemma_printed_both("unknown type "@, dec(kind as nat));
    }
    match (kind, value) {
        (0, _) => "none".to_owned(),
        (1, Some(RawValue::Number(n))) => {
            let mut s = "mouse button ".to_owned();
            push_dec(&mut s, *n as u64);
            proof {
                lemma_numbers_are_printed(*n as nat);
                lemma_printed_both("mouse button "@, dec(*n as nat));
            }
            s
        },
        (2, Some(RawValue::Number(n))) => {
            let mut s = "special ".to_owned();
            let name = special_name(*n);
            s.append(name.as_str());
            proof {
                lemma_special_is_printed(*n);
                lemma_printed_both("special "@, name@);
            }
            s
        },
        (3, Some(RawValue::Number(n))) => {
            let mut s = "key ".to_owned();
            let name = key_name(*n);
            s.append(name.as_str());
            proof {
                lemma_printed_both("key "@, name@);
            }
            s
        },
        (4, Some(RawValue::MacroEvents(ev))) => describe_macro(ev),
        (t, _) => {
            let mut s = "unknown type ".to_owned();
            push_dec(&mut s, t as u64);
            s
        },
    }
}

// ---------------------------------------------------------------------- spellings
/// What an action in words stands for, as a ratbagd type and value: `none`, `button N`,
/// `special NAME`, `key KEY_X`, `macro KEY_X`.
pub open spec fn action_of(w: Seq<Seq<char>>) -> Result<(u32, Option<RawModel>), Failure> {
    if w.len() == 1 && w[0] == "none"@ {
        Ok((0, None))
    } else if w.len() == 2 && w[0] == "button"@ {
        match number(w[1]) {
            None => Err(failure("not a button number: "@ + quoted(w[1]))),
            Some(n) => if n < 1 {
                Err(failure("mouse buttons are numbered from 1"@))
            } else {
                Ok((1, Some(RawModel::Number(n))))
            },
        }
    } else if w.len() == 2 && w[0] == "special"@ {
        match special_id_of(w[1]) {
            None => Err(
                failure(
                    "unknown special action "@ + quoted(w[1]) + "; known: "@ + join(
                        nameable_specials(),
                        ", "@,
                    ),
                ),
            ),
            Some(id) => Ok((2, Some(RawModel::Number(id)))),
        }
    } else if w.len() == 2 && w[0] == "key"@ {
        match key_code_of(w[1]) {
            Err(e) => Err(e),
            Ok(c) => Ok((3, Some(RawModel::Number(c)))),
        }
    } else if w.len() == 2 && w[0] == "macro"@ {
        match key_code_of(w[1]) {
            Err(e) => Err(e),
            Ok(c) => Ok((4, Some(RawModel::MacroEvents(seq![(1u32, c), (2u32, c)])))),
        }
    } else {
        Err(
            failure(
                "action must be one of: none | button N | special NAME | key KEY_X | macro KEY_X"@,
            ),
        )
    }
}

/// `r` is the outcome `want` for an action.
pub open spec fn is_action(
    r: Result<(u32, Option<RawValue>), Error>,
    want: Result<(u32, Option<RawModel>), Failure>,
) -> bool {
    match (r, want) {
        (Ok(a), Ok(b)) => a.0 == b.0 && raw_model(a.1) == b.1,
        (Err(e), Err(f)) => e@ == f,
        _ => false,
    }
}

fn unknown_special(name: &str) -> (e: Error)
    ensures
        e@ == failure(
            "unknown special action "@ + quoted(name@) + "; known: "@ + join(
                nameable_specials(),
                ", "@,
            ),
        ),
{
    let known = special_names();
    let mut list: Vec<String> = Vec::new();
    let mut i: usize = 0;
    while i < known.len()
        invariant
            i <= known.len(),
            list.len() == i,
            forall|j: int| 0 <= j < i ==> (#[trigger] list@[j])@ == known@[j]@,
        decreases known.len() - i,
    {
        list.push(known[i].to_owned());
        i += 1;
    }
    assert(texts(list@) =~= str_texts(known@));
    let mut m = "unknown special action ".to_owned();
    m.append(quote(name).as_str());
    m.append("; known: ");
    m.append(joined(&list, ", ").as_str());
    Error::new(m)
}

/// Parse a button action given on the command line into a raw ratbagd
/// (type, value): `none`, `button N`, `special NAME`, `key KEY_X`, `macro KEY_X`.
/// Whatever is accepted also has a spelling.
pub fn parse_action(words: &[&str]) -> (r: Result<(u32, Option<RawValue>), Error>)
    ensures
        is_action(r, action_of(str_texts(words@))),
        r matches Ok(a) ==> spelling_of(a.0, raw_model(a.1)) is Some,
{
    if words.len() == 1 && same(words[0], "none") {
        return Ok((0, None));
    }
    if words.len() == 2 && same(words[0], "button") {
        return match parse_number(words[1]) {
            None => {
                let mut m = "not a button number: ".to_owned();
                m.append(quote(words[1]).as_str());
                Err(Error::new(m))
            },
            Some(n) => if n < 1 {
                Err(Error::new("mouse buttons are numbered from 1".to_owned()))
            } else {
                Ok((1, Some(RawValue::Number(n))))
            },
        };
    }
    if words.len() == 2 && same(words[0], "special") {
        return match special_id(words[1]) {
            None => Err(unknown_special(words[1])),
            Some(id) => {
                proof {
                    special_ids_and_names_agree(words@[1]@);
                    special_names_and_ids_agree(id);
                }
                Ok((2, Some(RawValue::Number(id))))
            },
        };
    }
    if words.len() == 2 && same(words[0], "key") {
        return match key_code(words[1]) {
            Err(e) => Err(e),
            Ok(c) => Ok((3, Some(RawValue::Number(c)))),
        };
    }
    if words.len() == 2 && same(words[0], "macro") {
        return match key_code(words[1]) {
            Err(e) => Err(e),
            Ok(c) => {
                let ev: Vec<[u32; 2]> = vec![[1, c], [2, c]];
                assert(event_pairs(ev@) =~= seq![(1u32, c), (2u32, c)]);
                Ok((4, Some(RawValue::MacroEvents(ev))))
            },
        };
    }
    Err(
        Error::new(
            "action must be one of: none | button N | special NAME | key KEY_X | macro KEY_X".to_owned(),
        ),
    )
}

/// The config/CLI spelling of a mapping, or `None` if it has no such spelling
/// (multi-event macros, unknown ids/keys, mouse button 0).
pub open spec fn spelling_of(kind: u32, value: Option<RawModel>) -> Option<Seq<char>> {
    match (kind, value) {
        (0, _) => Some("none"@),
        (1, Some(RawModel::Number(n))) => if n >= 1 {
            Some("button "@ + dec(n as nat))
        } else {
            None
        },
        (2, Some(RawModel::Number(n))) => if special_id_of(special_text(n)) is Some {
            Some("special "@ + special_text(n))
        } else {
            None
        },
        (3, Some(RawModel::Number(n))) => match spelled_key(n) {
            Some(name) => Some("key "@ + name),
            None => None,
        },
        (4, Some(RawModel::MacroEvents(ev))) => if is_tap(ev) {
            match spelled_key(ev[0].1) {
                Some(name) => Some("macro "@ + name),
                None => None,
            }
        } else {
            None
        },
        _ => None,
    }
}

/// The inverse of `parse_action`: the config/CLI spelling of a mapping, or
/// `None` if it has no such spelling (multi-event macros, unknown ids/keys, mouse
/// button 0).
pub fn action_string(kind: u32, value: &Option<RawValue>) -> (r: Option<String>)
    ensures
        r is Some == spelling_of(kind, raw_model(*value)) is Some,
        r matches Some(s) ==> s@ == spelling_of(kind, raw_model(*value))->0,
{
    match (kind, value) {
        (0, _) => Some("none".to_owned()),
        (1, Some(RawValue::Number(n))) => {
            if *n == 0 {
                return None;
            }
            let mut s = "button ".to_owned();
            push_dec(&mut s, *n as u64);
            Some(s)
        },
        (2, Some(RawValue::Number(n))) => {
            let name = special_name(*n);
            if special_id(name.as_str()).is_none() {
                return None;
            }
            let mut s = "special ".to_owned();
            s.append(name.as_str());
            Some(s)
        },
        (3, Some(RawValue::Number(n))) => match parseable_key_name(*n) {
            Some(name) => {
                let mut s = "key ".to_owned();
                s.append(name.as_str());
                Some(s)
            },
            None => None,
        },
        (4, Some(RawValue::MacroEvents(ev))) => {
            if !taps(ev) {
                return None;
            }
            match parseable_key_name(ev[0][1]) {
                Some(name) => {
                    let mut s = "macro ".to_owned();
                    s.append(name.as_str());
                    Some(s)
                },
                None => None,
            }
        },
        _ => None,
    }
}

/// The value that a mapping keeps in its spelling: all of it, but for type none.
pub open spec fn spelled_value(kind: u32, value: Option<RawModel>) -> Option<RawModel> {
    if kind == 0 {
        None
    } else {
        value
    }
}

/// The spelling of a mapping reads back as that mapping.
pub proof fn spelling_reads_back(kind: u32, value: Option<RawModel>)
    requires
        spelling_of(kind, value) is Some,
    ensures
        action_of(words(spelling_of(kind, value)->0)) == Ok::<(u32, Option<RawModel>), Failure>(
            (kind, spelled_value(kind, value)),
        ),
{
    reveal_strlit("none");
    reveal_strlit("button");
    reveal_strlit("button ");
    reveal_strlit("special");
    reveal_strlit("special ");
    reveal_strlit("key");
    reveal_strlit("key ");
    reveal_strlit("macro");
    reveal_strlit("macro ");
    reveal_strlit("KEY_");
    reveal_strlit(" ");
    let text = spelling_of(kind, value)->0;
    match (kind, value) {
        (0, _) => {
            lemma_one_word("none"@);
        },
        (1, Some(RawModel::Number(n))) => {
            lemma_number_of_dec(n);
            lemma_two_words("button"@, dec(n as nat));
            assert("button "@ =~= "button"@ + " "@);
        },
        (2, Some(RawModel::Number(n))) => {
            special_ids_and_names_agree(special_text(n));
            let id = special_id_of(special_text(n))->0;
            special_names_and_ids_agree(id);
            lemma_special_names();
            if SPECIAL_BASE <= n < SPECIAL_BASE + 19 {
                assert(n == id) by {
                    assert(special_list()[n - SPECIAL_BASE] == special_list()[id - SPECIAL_BASE]);
                }
            } else {
                reveal_strlit("#");
                assert(special_text(n)[0] == '#');
                assert(special_list()[id - SPECIAL_BASE][0] == '#');
                assert(false);
            }
            lemma_two_words("special"@, special_text(n));
            assert("special "@ =~= "special"@ + " "@);
        },
        (3, Some(RawModel::Number(n))) => {
            let name = key_text(n);
            lemma_two_words("key"@, name);
            assert("key "@ =~= "key"@ + " "@);
        },
        (4, Some(RawModel::MacroEvents(ev))) => {
            let name = key_text(ev[0].1);
            lemma_two_words("macro"@, name);
            assert("macro "@ =~= "macro"@ + " "@);
            assert(ev =~= seq![(1u32, ev[0].1), (2u32, ev[0].1)]);
        },
        _ => {},
    }
}

// ---------------------------------------------------------------------- LED modes
/// libratbag `Led.Mode` names, in the order of their values.
pub const LED_MODES: [&'static str; 4] = ["off", "on", "cycle", "breathing"];

/// The name of an LED mode.
pub open spec fn led_mode_text(mode: u32) -> Option<Seq<char>> {
    if mode < 4 {
        Some(LED_MODES[mode as int]@)
    } else {
        None
    }
}

pub fn led_mode_name(mode: u32) -> (r: Option<&'static str>)
    ensures
        r is Some == led_mode_text(mode) is Some,
        r matches Some(s) ==> s@ == led_mode_text(mode)->0,
{
    if mode < 4 {
        Some(LED_MODES[mode as usize])
    } else {
        None
    }
}

/// The value of the LED mode called `name`.
pub open spec fn led_mode_of(name: Seq<char>) -> Result<u32, Failure> {
    if name == "off"@ {
        Ok(0)
    } else if name == "on"@ {
        Ok(1)
    } else if name == "cycle"@ {
        Ok(2)
    } else if name == "breathing"@ {
        Ok(3)
    } else {
        Err(
            failure(
                "unknown LED mode "@ + quoted(name) + "; use one of: "@ + "off, on, cycle, breathing"@,
            ),
        )
    }
}

pub fn parse_led_mode(name: &str) -> (r: Result<u32, Error>)
    ensures
        is_outcome(r, led_mode_of(name@)),
{
    if same(name, "off") {
        Ok(0)
    } else if same(name, "on") {
        Ok(1)
    } else if same(name, "cycle") {
        Ok(2)
    } else if same(name, "breathing") {
        Ok(3)
    } else {
        let mut m = "unknown LED mode ".to_owned();
        m.append(quote(name).as_str());
        m.append("; use one of: ");
        m.append("off, on, cycle, breathing");
        Err(Error::new(m))
    }
}

/// The names of LED modes and their values lead to each other.
pub proof fn led_modes_and_names_agree(mode: u32, name: Seq<char>)
    ensures
        led_mode_text(mode) matches Some(n) ==> led_mode_of(n) == Ok::<u32, Failure>(mode),
        led_mode_of(name) matches Ok(m) ==> led_mode_text(m) == Some(name),
{
    reveal_strlit("off");
    reveal_strlit("on");
    reveal_strlit("cycle");
    reveal_strlit("breathing");
    assert("off"@[1] != "on"@[1]);
    assert("off"@.len() == 3);
    assert("on"@.len() == 2);
    assert("cycle"@.len() == 5);
    assert("breathing"@.len() == 9);
}

/// Actions have libratbag's types: none is 0, a mouse button 1, a special action 2, a key 3
/// and a macro 4, which presses the key and releases it. There are no others.
pub proof fn actions_have_their_types(w: Seq<Seq<char>>)
    ensures
        w == seq!["none"@] ==> action_of(w) == Ok::<(u32, Option<RawModel>), Failure>((0, None)),
        w.len() == 2 && w[0] == "button"@ ==> (action_of(w) is Ok <==> number(w[1]) is Some && number(
            w[1],
        )->0 >= 1),
        w.len() == 2 && w[0] == "special"@ ==> (action_of(w) is Ok <==> special_id_of(w[1]) is Some),
        w.len() == 2 && (w[0] == "key"@ || w[0] == "macro"@) ==> (action_of(w) is Ok <==> key_code_of(
            w[1],
        ) is Ok),
        action_of(w) matches Ok((kind, value)) ==> {
            ||| w == seq!["none"@] && kind == 0 && value is None
            ||| w == seq!["button"@, w[1]] && kind == 1 && number(w[1]) is Some && value == Some(
                RawModel::Number(number(w[1])->0),
            )
            ||| w == seq!["special"@, w[1]] && kind == 2 && special_id_of(w[1]) is Some && value
                == Some(RawModel::Number(special_id_of(w[1])->0))
            ||| w == seq!["key"@, w[1]] && kind == 3 && key_code_of(w[1]) is Ok && value == Some(
                RawModel::Number(key_code_of(w[1])->Ok_0),
            )
            ||| w == seq!["macro"@, w[1]] && kind == 4 && key_code_of(w[1]) is Ok && value == Some(
                RawModel::MacroEvents(
                    seq![(1u32, key_code_of(w[1])->Ok_0), (2u32, key_code_of(w[1])->Ok_0)],
                ),
            )
        },
{
    reveal_strlit("none");
    reveal_strlit("button");
    reveal_strlit("special");
    reveal_strlit("key");
    reveal_strlit("macro");
    assert("button"@.len() == 6);
    assert("special"@.len() == 7);
    assert("key"@.len() == 3);
    assert("macro"@.len() == 5);
    if w.len() == 1 && w[0] == "none"@ {
        assert(w =~= seq!["none"@]);
    }
    if w.len() == 2 {
        assert(w =~= seq![w[0], w[1]]);
    }
}

/// The LED modes have libratbag's values.
pub proof fn led_modes_have_their_values(name: Seq<char>)
    ensures
        led_mode_of("off"@) == Ok::<u32, Failure>(0),
        led_mode_of("on"@) == Ok::<u32, Failure>(1),
        led_mode_of("cycle"@) == Ok::<u32, Failure>(2),
        led_mode_of("breathing"@) == Ok::<u32, Failure>(3),
        led_mode_of(name) is Ok ==> name == "off"@ || name == "on"@ || name == "cycle"@ || name
            == "breathing"@,
        led_mode_text(0) == Some("off"@),
        led_mode_text(1) == Some("on"@),
        led_mode_text(2) == Some("cycle"@),
        led_mode_text(3) == Some("breathing"@),
{
    led_modes_and_names_agree(0, name);
    led_modes_and_names_agree(1, name);
    led_modes_and_names_agree(2, name);
    led_modes_and_names_agree(3, name);
}

/// A key goes by its name in capitals, small letters or both, with or without `KEY_` in front.
pub proof fn a_key_goes_by_its_name(name: Seq<char>)
    requires
        is_ascii(name),
    ensures
        full_key_name(upper(name)) == full_key_name(name),
        begins(upper(name), "KEY_"@) ==> full_key_name(name) == upper(name),
        !begins(upper(name), "KEY_"@) ==> full_key_name(name) == "KEY_"@ + upper(name)
            && full_key_name("KEY_"@ + name) == full_key_name(name) && full_key_name("key_"@ + name)
            == full_key_name(name),
        key_code_of(name) is Ok <==> key_of_name(full_key_name(name)) is Some,
        key_code_of(name) matches Ok(c) ==> key_of_name(full_key_name(name)) == Some(c as u16) && c
            <= 0xffff,
{
    reveal_strlit("KEY_");
    reveal_strlit("key_");
    let up = upper(name);
    assert forall|i: int| 0 <= i < name.len() implies (#[trigger] up[i] as u32) < 128 by {
        assert((name[i] as u32) < 128);
    }
    assert(is_ascii(up));
    assert(upper(up) =~= up);
    let full = "KEY_"@ + name;
    let small = "key_"@ + name;
    assert forall|i: int| 0 <= i < full.len() implies (#[trigger] full[i] as u32) < 128 by {
        if i >= 4 {
            assert(full[i] == name[i - 4]);
            assert((name[i - 4] as u32) < 128);
        }
    }
    assert forall|i: int| 0 <= i < small.len() implies (#[trigger] small[i] as u32) < 128 by {
        if i >= 4 {
            assert(small[i] == name[i - 4]);
            assert((name[i - 4] as u32) < 128);
        }
    }
    assert(is_ascii(full));
    assert(is_ascii(small));
    assert(upper(full) =~= "KEY_"@ + up);
    assert(upper(small) =~= "KEY_"@ + up);
    assert(("KEY_"@ + up).take(4) =~= "KEY_"@);
}

/// Mappings are described by what they do; the press and release of one key read as that key,
/// and other macros as their events in order.
pub proof fn mappings_are_described(n: u32, ev: Seq<(u32, u32)>, code: u32, value: Option<RawModel>)
    ensures
        description(0, value) == "none"@,
        description(1, Some(RawModel::Number(n))) == "mouse button "@ + dec(n as nat),
        description(2, Some(RawModel::Number(n))) == "special "@ + special_text(n),
        description(3, Some(RawModel::Number(n))) == "key "@ + key_text(n),
        description(4, Some(RawModel::MacroEvents(seq![(1u32, code), (2u32, code)]))) == "macro "@
            + key_text(code),
        (forall|k: u32| ev != #[trigger] seq![(1u32, k), (2u32, k)]) ==> description(
            4,
            Some(RawModel::MacroEvents(ev)),
        ) == "macro ["@ + join(Seq::new(ev.len(), |i: int| event_text(ev[i])), " "@) + "]"@,
        n > 4 ==> description(n, value) == "unknown type "@ + dec(n as nat),
        event_text((1, n)) == "+"@ + key_text(n),
        event_text((2, n)) == "-"@ + key_text(n),
        event_text((3, n)) == "wait "@ + dec(n as nat) + "ms"@,
        code > 3 || code == 0 ==> event_text((code, n)) == "?"@ + dec(code as nat) + ":"@ + dec(
            n as nat,
        ),
{
    let pair: Seq<(u32, u32)> = seq![(1u32, code), (2u32, code)];
    assert(is_tap(pair));
    if is_tap(ev) {
        let k = ev[0].1;
        assert(ev =~= seq![(1u32, k), (2u32, k)]);
    }
}

/// A key in range goes by evdev's name for it, one out of range by its number.
pub proof fn key_codes_have_16_bits(code: u32)
    ensures
        code <= 0xffff ==> key_text(code) == key_debug(code as u16),
        code > 0xffff ==> key_text(code) == "key#"@ + dec(code as nat) && spelled_key(code) is None,
{
    reveal_strlit("KEY_");
    reveal_strlit("key#");
    if code > 0xffff {
        let name = key_text(code);
        if begins(name, "KEY_"@) {
            assert(name.take(4)[0] == 'K');
            assert(name[0] == 'k');
        }
    }
}

/// A mapping has a spelling exactly where it does nothing, is a mouse button from one on, one
/// of libratbag's special actions, or a key, or the tap of one, that evdev has a `KEY_` name
/// for which leads back to it.
pub proof fn a_mapping_has_a_spelling_exactly_where(kind: u32, value: Option<RawModel>)
    ensures
        spelling_of(kind, value) is Some <==> {
            ||| kind == 0
            ||| kind == 1 && (value matches Some(RawModel::Number(n)) && n >= 1)
            ||| kind == 2 && (value matches Some(RawModel::Number(n)) && 0x4000_0001 <= n
                <= 0x4000_0012)
            ||| kind == 3 && (value matches Some(RawModel::Number(n)) && spelled_key(n) is Some)
            ||| kind == 4 && (value matches Some(RawModel::MacroEvents(ev)) && ev.len() == 2 && ev
                == seq![(1u32, ev[0].1), (2u32, ev[0].1)] && spelled_key(ev[0].1) is Some)
        },
        spelling_of(kind, value) matches Some(s) ==> {
            &&& kind == 0 ==> s == "none"@
            &&& kind == 1 ==> s == "button "@ + dec(value->0->Number_0 as nat)
            &&& kind == 2 ==> s == "special "@ + special_text(value->0->Number_0)
            &&& kind == 3 ==> s == "key "@ + key_text(value->0->Number_0)
            &&& kind == 4 ==> s == "macro "@ + key_text(value->0->MacroEvents_0[0].1)
        },
{
    match (kind, value) {
        (2, Some(RawModel::Number(n))) => {
            if SPECIAL_BASE < n < SPECIAL_BASE + 19 {
                special_names_and_ids_agree(n);
            } else if n == SPECIAL_BASE {
                special_actions_have_their_ids();
            } else {
                other_special_ids_have_no_name(n, special_text(n));
            }
        },
        (4, Some(RawModel::MacroEvents(ev))) => {
            if is_tap(ev) {
                assert(ev =~= seq![(1u32, ev[0].1), (2u32, ev[0].1)]);
            }
        },
        _ => {},
    }
}

} // verus!
