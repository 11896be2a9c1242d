//! The grammar of exported texts: how such a text reads, as lines and as the tables and
//! settings that they are, and that an export reads as the lines that it was written from.
//!
//! This grammar is a part of TOML, and serves to state what an export says. The programs
//! read config files with the `toml` crate, which takes all of TOML.

use crate::action::{
    key_text, led_mode_text, lemma_special_names, special_id_of, special_ids_and_names_agree, special_list,
    special_text, spelling_of, SPECIAL_BASE,
};
use crate::apply::{normal_color, overlay_of};
use crate::config::{color_of, hex_value, rules, ConfigModel, DpiModel};
use crate::error::Failure;
use crate::export::{
    button_lines, buttons_lines, export_lines, head_lines, led_lines, leds_lines, line_text, profile_lines,
    profiles_lines, setting_text, slot_lines, slots_lines, table_text, written, Line, Setting, Table,
};
use crate::ratbag::{ButtonModel, LedModel, RawModel, ResolutionModel, SnapshotModel};
use crate::readback::{
    config_of, export_is_complete, exported_config, exported_config_applies_as_an_empty_diff,
    exported_config_is_valid, has_plain_colors,
};
use crate::restore::{nothing, plan_of};
use crate::settle::is_numbered;
use crate::text::{
    all_digits, begins, bool_text, dec, hex, hex_digit, hex_padded, is_printed, is_printing, join, lemma_dec,
    lemma_number_of_dec, lemma_printed_both, number, number_list, number_texts,
};
use vstd::prelude::*;

verus! {

// ------------------------------------------------------------------------- pieces
/// `c` does not occur in `s`.
pub open spec fn lacks(s: Seq<char>, c: char) -> bool {
    forall|i: int| 0 <= i < s.len() ==> #[trigger] s[i] != c
}

/// How many characters stand before the first `c`.
pub open spec fn before(s: Seq<char>, c: char) -> nat
    decreases s.len(),
{
    if s.len() == 0 || s[0] == c {
        0
    } else {
        1 + before(s.skip(1), c)
    }
}

/// What stands between the occurrences of `c`, in order.
pub open spec fn pieces(s: Seq<char>, c: char) -> Seq<Seq<char>>
    decreases s.len(),
{
    let n = before(s, c);
    if n >= s.len() {
        seq![s]
    } else {
        seq![s.take(n as int)] + pieces(s.skip(n as int + 1), c)
    }
}

proof fn lemma_before(a: Seq<char>, b: Seq<char>, c: char)
    requires
        lacks(a, c),
    ensures
        before(a, c) == a.len(),
        before(a + seq![c] + b, c) == a.len(),
    decreases a.len(),
{
    let s = a + seq![c] + b;
    if a.len() > 0 {
        assert(a[0] != c);
        assert forall|i: int| 0 <= i < a.skip(1).len() implies #[trigger] a.skip(1)[i] != c by {
            assert(a[i + 1] != c);
        }
        lemma_before(a.skip(1), b, c);
        assert(s[0] == a[0]);
        assert(s.skip(1) =~= a.skip(1) + seq![c] + b);
    } else {
        assert(s[0] == c);
    }
}

proof fn lemma_one_piece(a: Seq<char>, c: char)
    requires
        lacks(a, c),
    ensures
        pieces(a, c) == seq![a],
{
    lemma_before(a, Seq::empty(), c);
}

proof fn lemma_first_piece(a: Seq<char>, b: Seq<char>, c: char)
    requires
        lacks(a, c),
    ensures
        pieces(a + seq![c] + b, c) == seq![a] + pieces(b, c),
{
    let s = a + seq![c] + b;
    lemma_before(a, b, c);
    assert(s.take(a.len() as int) =~= a);
    assert(s.skip(a.len() as int + 1) =~= b);
}

proof fn lemma_before_bounds(s: Seq<char>, c: char)
    ensures
        before(s, c) <= s.len(),
        lacks(s.take(before(s, c) as int), c),
        before(s, c) < s.len() ==> s[before(s, c) as int] == c,
    decreases s.len(),
{
    if s.len() > 0 && s[0] != c {
        let rest = s.skip(1);
        lemma_before_bounds(rest, c);
        let n = before(s, c);
        assert forall|i: int| 0 <= i < n implies #[trigger] s.take(n as int)[i] != c by {
            if i > 0 {
                assert(rest.take(n - 1)[i - 1] != c);
                assert(rest[i - 1] == s[i]);
            }
        }
    }
}

proof fn lemma_last_piece(a: Seq<char>, b: Seq<char>, c: char)
    requires
        lacks(b, c),
    ensures
        pieces(a + seq![c] + b, c) == pieces(a, c).push(b),
    decreases a.len(),
{
    lemma_before_bounds(a, c);
    let n = before(a, c);
    if n >= a.len() {
        assert(a.take(n as int) =~= a);
        lemma_first_piece(a, b, c);
        lemma_one_piece(b, c);
        assert(seq![a] + seq![b] =~= seq![a].push(b));
    } else {
        let first = a.take(n as int);
        let rest = a.skip(n as int + 1);
        lemma_last_piece(rest, b, c);
        assert(a + seq![c] + b =~= first + seq![c] + (rest + seq![c] + b));
        lemma_first_piece(first, rest + seq![c] + b, c);
        assert(seq![first] + pieces(rest, c).push(b) =~= pieces(a, c).push(b));
    }
}

// ------------------------------------------------------------------------- values
/// Without control characters, quotes and backslashes: it can stand between quotes.
pub open spec fn is_quotable(s: Seq<char>) -> bool {
    forall|i: int|
        0 <= i < s.len() ==> is_printing(#[trigger] s[i]) && s[i] != '"' && s[i] != '\\'
}

/// What a quoted text holds.
pub open spec fn string_of(v: Seq<char>) -> Option<Seq<char>> {
    if v.len() >= 2 && v[0] == '"' && v.last() == '"' && is_quotable(v.subrange(1, v.len() - 1)) {
        Some(v.subrange(1, v.len() - 1))
    } else {
        None
    }
}

pub open spec fn bool_of(v: Seq<char>) -> Option<bool> {
    if v == "true"@ {
        Some(true)
    } else if v == "false"@ {
        Some(false)
    } else {
        None
    }
}

/// Every character is a hexadecimal digit.
pub open spec fn all_hex(s: Seq<char>) -> bool {
    forall|i: int| 0 <= i < s.len() ==> hex_value(#[trigger] s[i]) is Some
}

/// The value of hexadecimal digits, read left to right.
pub open spec fn hex_number(s: Seq<char>) -> nat
    decreases s.len(),
{
    if s.len() == 0 {
        0
    } else {
        hex_number(s.drop_last()) * 16 + hex_value(s.last())->0 as nat
    }
}

/// What `0x` and hexadecimal digits stand for.
pub open spec fn id_of(v: Seq<char>) -> Option<u16> {
    let digits = v.skip(2);
    if begins(v, "0x"@) && digits.len() > 0 && all_hex(digits) && hex_number(digits) <= u16::MAX {
        Some(hex_number(digits) as u16)
    } else {
        None
    }
}

/// `s` without a space in front.
pub open spec fn unspaced(s: Seq<char>) -> Seq<char> {
    if s.len() > 0 && s[0] == ' ' {
        s.skip(1)
    } else {
        s
    }
}

/// What `[1, 2, 3]` lists.
pub open spec fn list_of(v: Seq<char>) -> Option<Seq<u32>> {
    if v.len() >= 2 && v[0] == '[' && v.last() == ']' {
        let inner = v.subrange(1, v.len() - 1);
        if inner.len() == 0 {
            Some(Seq::empty())
        } else {
            let items = pieces(inner, ',');
            if forall|i: int| 0 <= i < items.len() ==> number(unspaced(#[trigger] items[i])) is Some {
                Some(Seq::new(items.len(), |i: int| number(unspaced(items[i]))->0))
            } else {
                None
            }
        }
    } else {
        None
    }
}

// -------------------------------------------------------------------------- lines
/// The table that a name in brackets stands for.
pub open spec fn table_of(s: Seq<char>) -> Option<Table> {
    let parts = pieces(s, '.');
    if parts == seq!["device"@] {
        Some(Table::Device)
    } else if parts == seq!["dpi"@] {
        Some(Table::Dpi)
    } else if parts.len() == 2 && parts[0] == "profiles"@ && number(parts[1]) is Some {
        Some(Table::Profile(number(parts[1])->0))
    } else if parts.len() == 4 && parts[0] == "profiles"@ && number(parts[1]) is Some && number(
        parts[3],
    ) is Some {
        let p = number(parts[1])->0;
        let i = number(parts[3])->0;
        if parts[2] == "leds"@ {
            Some(Table::Led(p, i))
        } else if parts[2] == "buttons"@ {
            Some(Table::Button(p, i))
        } else if parts[2] == "resolutions"@ {
            Some(Table::Slot(p, i))
        } else {
            None
        }
    } else {
        None
    }
}

/// A key with the text of its value.
pub open spec fn keyed_setting(key: Seq<char>, v: Seq<char>) -> Option<Setting> {
    if key == "vendor"@ && id_of(v) is Some {
        Some(Setting::Vendor(id_of(v)->0))
    } else if key == "product"@ && id_of(v) is Some {
        Some(Setting::Product(id_of(v)->0))
    } else if key == "values"@ && list_of(v) is Some {
        Some(Setting::Values(list_of(v)->0))
    } else if key == "shared_slot"@ && number(v) is Some {
        Some(Setting::SharedSlot(number(v)->0))
    } else if key == "profiles"@ && list_of(v) is Some {
        Some(Setting::Profiles(list_of(v)->0))
    } else if key == "enabled"@ && bool_of(v) is Some {
        Some(Setting::Enabled(bool_of(v)->0))
    } else if key == "report_rate"@ && number(v) is Some {
        Some(Setting::ReportRate(number(v)->0))
    } else if key == "mode"@ && string_of(v) is Some {
        Some(Setting::Mode(string_of(v)->0))
    } else if key == "color"@ && string_of(v) is Some {
        Some(Setting::Color(string_of(v)->0))
    } else if key == "brightness"@ && number(v) is Some {
        Some(Setting::Brightness(number(v)->0))
    } else if key == "onboard"@ && string_of(v) is Some {
        Some(Setting::Onboard(string_of(v)->0))
    } else if key == "dpi"@ && number(v) is Some {
        Some(Setting::Dpi(number(v)->0))
    } else {
        None
    }
}

/// What `KEY = VALUE` sets.
pub open spec fn setting_of(s: Seq<char>) -> Option<Setting> {
    let n = before(s, ' ') as int;
    if n + 3 <= s.len() && s.subrange(n, n + 3) == " = "@ {
        keyed_setting(s.take(n), s.skip(n + 3))
    } else {
        None
    }
}

/// The line that a text without line breaks is.
pub open spec fn line_of(s: Seq<char>) -> Option<Line> {
    if s.len() == 0 {
        Some(Line::Blank)
    } else if s[0] == '#' {
        if is_printed(s) {
            Some(
                Line::Comment(
                    if begins(s, "# "@) {
                        s.skip(2)
                    } else {
                        s.skip(1)
                    },
                ),
            )
        } else {
            None
        }
    } else if s[0] == '[' && s.last() == ']' {
        match table_of(s.subrange(1, s.len() - 1)) {
            Some(t) => Some(Line::Table(t)),
            None => None,
        }
    } else {
        match setting_of(s) {
            Some(x) => Some(Line::Setting(x)),
            None => None,
        }
    }
}

/// The texts of the lines of a text.
pub open spec fn text_lines(s: Seq<char>) -> Seq<Seq<char>> {
    let all = pieces(s, '\n');
    if all.last().len() == 0 {
        all.drop_last()
    } else {
        all
    }
}

/// The lines of a text; none where one of them is no line of a config.
pub open spec fn lines_of(s: Seq<char>) -> Option<Seq<Line>> {
    let all = text_lines(s);
    if forall|i: int| 0 <= i < all.len() ==> line_of(#[trigger] all[i]) is Some {
        Some(Seq::new(all.len(), |i: int| line_of(all[i])->0))
    } else {
        None
    }
}

/// The config that a text describes.
pub open spec fn config_of_text(s: Seq<char>) -> Option<ConfigModel> {
    match lines_of(s) {
        Some(lines) => config_of(lines),
        None => None,
    }
}

// ------------------------------------------------------------------ lines read back
/// The texts in a line can stand in it.
pub open spec fn is_plain(l: Line) -> bool {
    match l {
        Line::Comment(t) => is_printed(t),
        Line::Setting(Setting::Mode(t)) => is_quotable(t),
        Line::Setting(Setting::Color(t)) => is_quotable(t),
        Line::Setting(Setting::Onboard(t)) => is_quotable(t),
        _ => true,
    }
}

/// The text of a line without its end.
pub open spec fn line_body(l: Line) -> Seq<char> {
    match l {
        Line::Blank => Seq::empty(),
        Line::Comment(t) => "# "@ + t,
        Line::Table(t) => "["@ + table_text(t) + "]"@,
        Line::Setting(s) => setting_text(s),
    }
}

proof fn lemma_line_text(l: Line)
    ensures
        line_text(l) == line_body(l) + seq!['\n'],
{
    reveal_strlit("\n");
    reveal_strlit("]");
    reveal_strlit("]\n");
    assert(line_text(l) =~= line_body(l) + seq!['\n']);
}

proof fn lemma_dec_text(n: u32)
    ensures
        number(dec(n as nat)) == Some(n),
        dec(n as nat).len() > 0,
        all_digits(dec(n as nat)),
        is_printed(dec(n as nat)),
        lacks(dec(n as nat), '.'),
        lacks(dec(n as nat), ','),
        lacks(dec(n as nat), ' '),
        lacks(dec(n as nat), '\n'),
{
    lemma_number_of_dec(n);
    lemma_dec(n as nat);
}

proof fn lemma_hex_text(n: nat)
    ensures
        all_hex(hex(n)),
        hex_number(hex(n)) == n,
        hex(n).len() > 0,
    decreases n,
{
    let s = hex(n);
    if n < 16 {
        assert(s.drop_last() =~= Seq::<char>::empty());
        assert(hex_number(s.drop_last()) == 0);
        assert(hex_value(hex_digit(n as int)) == Some(n as u8));
    } else {
        lemma_hex_text(n / 16);
        assert(s.drop_last() =~= hex(n / 16));
        assert(hex_value(hex_digit((n % 16) as int)) == Some((n % 16) as u8));
        assert forall|i: int| 0 <= i < s.len() implies hex_value(#[trigger] s[i]) is Some by {
            if i < s.len() - 1 {
                assert(s[i] == hex(n / 16)[i]);
            }
        }
    }
}

proof fn lemma_zeros(k: nat, d: Seq<char>)
    requires
        all_hex(d),
    ensures
        all_hex(Seq::new(k, |i: int| '0') + d),
        hex_number(Seq::new(k, |i: int| '0') + d) == hex_number(d),
    decreases d.len(), k,
{
    let s = Seq::new(k, |i: int| '0') + d;
    if d.len() > 0 {
        let e = d.drop_last();
        assert forall|i: int| 0 <= i < e.len() implies hex_value(#[trigger] e[i]) is Some by {
            assert(e[i] == d[i]);
        }
        lemma_zeros(k, e);
        assert(s.drop_last() =~= Seq::new(k, |i: int| '0') + e);
        assert forall|i: int| 0 <= i < s.len() implies hex_value(#[trigger] s[i]) is Some by {
            if i >= k {
                assert(s[i] == d[i - k]);
            }
        }
    } else if k > 0 {
        lemma_zeros((k - 1) as nat, d);
        assert(s.drop_last() =~= Seq::new((k - 1) as nat, |i: int| '0') + d);
        assert(hex_value('0') == Some(0u8));
    }
}

proof fn lemma_id_text(n: u16)
    ensures
        id_of("0x"@ + hex_padded(n as nat, 4)) == Some(n),
        lacks("0x"@ + hex_padded(n as nat, 4), '\n'),
{
    reveal_strlit("0x");
    let d = hex(n as nat);
    lemma_hex_text(n as nat);
    let padded = hex_padded(n as nat, 4);
    if d.len() < 4 {
        lemma_zeros((4 - d.len()) as nat, d);
    }
    let v = "0x"@ + padded;
    assert(v.skip(2) =~= padded);
    assert(v.take(2) =~= "0x"@);
    assert forall|i: int| 0 <= i < v.len() implies #[trigger] v[i] != '\n' by {
        if i >= 2 {
            assert(hex_value(padded[i - 2]) is Some);
        }
    }
}

proof fn lemma_items_text(v: Seq<u32>)
    requires
        v.len() > 0,
    ensures
        ({
            let inner = join(number_texts(v), ", "@);
            let items = pieces(inner, ',');
            &&& inner.len() > 0
            &&& items.len() == v.len()
            &&& lacks(inner, '\n')
            &&& forall|i: int|
                0 <= i < v.len() ==> number(unspaced(#[trigger] items[i])) == Some(v[i])
        }),
    decreases v.len(),
{
    reveal_strlit(", ");
    let texts = number_texts(v);
    let inner = join(texts, ", "@);
    let d = dec(v.last() as nat);
    lemma_dec_text(v.last());
    assert('0' <= d[0] <= '9');
    if v.len() == 1 {
        lemma_one_piece(d, ',');
        assert(inner == d);
    } else {
        let w = v.drop_last();
        lemma_items_text(w);
        assert(texts.drop_last() =~= number_texts(w));
        let init = join(number_texts(w), ", "@);
        let last = seq![' '] + d;
        assert(inner =~= init + seq![','] + last);
        assert forall|i: int| 0 <= i < last.len() implies #[trigger] last[i] != ',' by {
            if i > 0 {
                assert(d[i - 1] != ',');
            }
        }
        lemma_last_piece(init, last, ',');
        assert(unspaced(last) =~= d);
        let items = pieces(inner, ',');
        assert forall|i: int| 0 <= i < v.len() implies number(unspaced(#[trigger] items[i])) == Some(
            v[i],
        ) by {
            if i < w.len() {
                assert(items[i] == pieces(init, ',')[i]);
            }
        }
        assert forall|i: int| 0 <= i < inner.len() implies #[trigger] inner[i] != '\n' by {
            if i < init.len() {
                assert(init[i] != '\n');
            } else if i >= init.len() + 2 {
                assert(d[i - init.len() - 2] != '\n');
            }
        }
    }
}

proof fn lemma_list_text(v: Seq<u32>)
    ensures
        list_of(number_list(v)) == Some(v),
        lacks(number_list(v), '\n'),
{
    reveal_strlit("[");
    reveal_strlit("]");
    let inner = join(number_texts(v), ", "@);
    let t = number_list(v);
    assert(t.subrange(1, t.len() - 1) =~= inner);
    if v.len() == 0 {
        assert(inner.len() == 0);
        assert(list_of(t)->0 =~= v);
    } else {
        lemma_items_text(v);
        assert(list_of(t)->0 =~= v);
    }
    assert forall|i: int| 0 <= i < t.len() implies #[trigger] t[i] != '\n' by {
        if 0 < i < t.len() - 1 {
            assert(t[i] == inner[i - 1]);
        }
    }
}

proof fn lemma_string_text(t: Seq<char>)
    requires
        is_quotable(t),
    ensures
        string_of("\""@ + t + "\""@) == Some(t),
        lacks("\""@ + t + "\""@, '\n'),
{
    reveal_strlit("\"");
    let v = "\""@ + t + "\""@;
    assert(v.subrange(1, v.len() - 1) =~= t);
    assert forall|i: int| 0 <= i < v.len() implies #[trigger] v[i] != '\n' by {
        if 0 < i < v.len() - 1 {
            assert(is_printing(t[i - 1]));
        }
    }
}

proof fn lemma_bool_text(b: bool)
    ensures
        bool_of(bool_text(b)) == Some(b),
        lacks(bool_text(b), '\n'),
{
    reveal_strlit("true");
    reveal_strlit("false");
    assert("true"@.len() != "false"@.len());
}

/// A key and the text of its value, put together, come apart again.
proof fn lemma_split_setting(key: Seq<char>, v: Seq<char>)
    requires
        lacks(key, ' '),
        lacks(key, '\n'),
        lacks(v, '\n'),
    ensures
        setting_of(key + " = "@ + v) == keyed_setting(key, v),
        lacks(key + " = "@ + v, '\n'),
{
    reveal_strlit(" = ");
    let s = key + " = "@ + v;
    let rest = seq!['=', ' '] + v;
    assert(s =~= key + seq![' '] + rest);
    lemma_before(key, rest, ' ');
    let n = key.len() as int;
    assert(s.subrange(n, n + 3) =~= " = "@);
    assert(s.take(n) =~= key);
    assert(s.skip(n + 3) =~= v);
    assert forall|i: int| 0 <= i < s.len() implies #[trigger] s[i] != '\n' by {
        if i < n {
            assert(key[i] != '\n');
        } else if i >= n + 3 {
            assert(v[i - n - 3] != '\n');
        }
    }
}

/// The keys differ, hold neither space nor line break, and begin no other kind of line.
proof fn lemma_keys()
    ensures
        forall|k: Seq<char>| #[trigger]
            is_key(k) ==> k.len() > 0 && lacks(k, ' ') && lacks(k, '\n') && k[0] != '#' && k[0] != '[',
        "vendor"@ != "values"@,
        "vendor"@.len() == 6,
        "values"@.len() == 6,
        "product"@.len() == 7,
        "enabled"@.len() == 7,
        "onboard"@.len() == 7,
        "product"@ != "enabled"@,
        "product"@ != "onboard"@,
        "enabled"@ != "onboard"@,
        "shared_slot"@.len() == 11,
        "report_rate"@.len() == 11,
        "shared_slot"@ != "report_rate"@,
        "profiles"@.len() == 8,
        "mode"@.len() == 4,
        "color"@.len() == 5,
        "brightness"@.len() == 10,
        "dpi"@.len() == 3,
{
    reveal_strlit("vendor");
    reveal_strlit("product");
    reveal_strlit("values");
    reveal_strlit("shared_slot");
    reveal_strlit("profiles");
    reveal_strlit("enabled");
    reveal_strlit("report_rate");
    reveal_strlit("mode");
    reveal_strlit("color");
    reveal_strlit("brightness");
    reveal_strlit("onboard");
    reveal_strlit("dpi");
    assert("vendor"@[1] != "values"@[1]);
    assert("product"@[0] != "enabled"@[0]);
    assert("product"@[0] != "onboard"@[0]);
    assert("enabled"@[0] != "onboard"@[0]);
    assert("shared_slot"@[0] != "report_rate"@[0]);
}

/// A key of a config.
spec fn is_key(k: Seq<char>) -> bool {
    ||| k == "vendor"@
    ||| k == "product"@
    ||| k == "values"@
    ||| k == "shared_slot"@
    ||| k == "profiles"@
    ||| k == "enabled"@
    ||| k == "report_rate"@
    ||| k == "mode"@
    ||| k == "color"@
    ||| k == "brightness"@
    ||| k == "onboard"@
    ||| k == "dpi"@
}

/// The key of a setting.
spec fn key_of(s: Setting) -> Seq<char> {
    match s {
        Setting::Vendor(_) => "vendor"@,
        Setting::Product(_) => "product"@,
        Setting::Values(_) => "values"@,
        Setting::SharedSlot(_) => "shared_slot"@,
        Setting::Profiles(_) => "profiles"@,
        Setting::Enabled(_) => "enabled"@,
        Setting::ReportRate(_) => "report_rate"@,
        Setting::Mode(_) => "mode"@,
        Setting::Color(_) => "color"@,
        Setting::Brightness(_) => "brightness"@,
        Setting::Onboard(_) => "onboard"@,
        Setting::Dpi(_) => "dpi"@,
    }
}

/// The text of the value of a setting.
spec fn value_text(s: Setting) -> Seq<char> {
    match s {
        Setting::Vendor(v) => "0x"@ + hex_padded(v as nat, 4),
        Setting::Product(v) => "0x"@ + hex_padded(v as nat, 4),
        Setting::Values(v) => number_list(v),
        Setting::SharedSlot(n) => dec(n as nat),
        Setting::Profiles(v) => number_list(v),
        Setting::Enabled(b) => bool_text(b),
        Setting::ReportRate(n) => dec(n as nat),
        Setting::Mode(t) => "\""@ + t + "\""@,
        Setting::Color(t) => "\""@ + t + "\""@,
        Setting::Brightness(n) => dec(n as nat),
        Setting::Onboard(t) => "\""@ + t + "\""@,
        Setting::Dpi(n) => dec(n as nat),
    }
}

proof fn lemma_setting_parts(s: Setting)
    ensures
        setting_text(s) == key_of(s) + " = "@ + value_text(s),
{
    reveal_strlit(" = ");
    reveal_strlit("0x");
    reveal_strlit("[");
    reveal_strlit("\"");
    match s {
        Setting::Vendor(_) => {
            reveal_strlit("vendor");
            reveal_strlit("vendor = 0x");
        },
        Setting::Product(_) => {
            reveal_strlit("product");
            reveal_strlit("product = 0x");
        },
        Setting::Values(_) => {
            reveal_strlit("values");
            reveal_strlit("values = [");
        },
        Setting::SharedSlot(_) => {
            reveal_strlit("shared_slot");
            reveal_strlit("shared_slot = ");
        },
        Setting::Profiles(_) => {
            reveal_strlit("profiles");
            reveal_strlit("profiles = ");
        },
        Setting::Enabled(_) => {
            reveal_strlit("enabled");
            reveal_strlit("enabled = ");
        },
        Setting::ReportRate(_) => {
            reveal_strlit("report_rate");
            reveal_strlit("report_rate = ");
        },
        Setting::Mode(_) => {
            reveal_strlit("mode");
            reveal_strlit("mode = \"");
        },
        Setting::Color(_) => {
            reveal_strlit("color");
            reveal_strlit("color = \"");
        },
        Setting::Brightness(_) => {
            reveal_strlit("brightness");
            reveal_strlit("brightness = ");
        },
        Setting::Onboard(_) => {
            reveal_strlit("onboard");
            reveal_strlit("onboard = \"");
        },
        Setting::Dpi(_) => {
            reveal_strlit("dpi");
            reveal_strlit("dpi = ");
        },
    }
    assert(setting_text(s) =~= key_of(s) + " = "@ + value_text(s));
}

proof fn lemma_value_read(s: Setting)
    requires
        is_plain(Line::Setting(s)),
    ensures
        keyed_setting(key_of(s), value_text(s)) == Some(s),
        lacks(value_text(s), '\n'),
{
    lemma_keys();
    match s {
        Setting::Vendor(v) => lemma_id_text(v),
        Setting::Product(v) => lemma_id_text(v),
        Setting::Values(v) => lemma_list_text(v),
        Setting::SharedSlot(n) => lemma_dec_text(n),
        Setting::Profiles(v) => lemma_list_text(v),
        Setting::Enabled(b) => lemma_bool_text(b),
        Setting::ReportRate(n) => lemma_dec_text(n),
        Setting::Mode(t) => lemma_string_text(t),
        Setting::Color(t) => lemma_string_text(t),
        Setting::Brightness(n) => lemma_dec_text(n),
        Setting::Onboard(t) => lemma_string_text(t),
        Setting::Dpi(n) => lemma_dec_text(n),
    }
}

proof fn lemma_two_parts(p: u32)
    ensures
        pieces("profiles."@ + dec(p as nat), '.') == seq!["profiles"@, dec(p as nat)],
{
    reveal_strlit("profiles");
    reveal_strlit("profiles.");
    lemma_dec_text(p);
    let d = dec(p as nat);
    assert("profiles."@ + d =~= "profiles"@ + seq!['.'] + d);
    lemma_first_piece("profiles"@, d, '.');
    lemma_one_piece(d, '.');
    assert(seq!["profiles"@] + seq![d] =~= seq!["profiles"@, d]);
}

proof fn lemma_four_parts(p: u32, dotted: Seq<char>, what: Seq<char>, i: u32)
    requires
        dotted == seq!['.'] + what + seq!['.'],
        lacks(what, '.'),
    ensures
        pieces("profiles."@ + dec(p as nat) + dotted + dec(i as nat), '.') == seq![
            "profiles"@,
            dec(p as nat),
            what,
            dec(i as nat),
        ],
{
    let head = "profiles."@ + dec(p as nat);
    let d = dec(i as nat);
    lemma_two_parts(p);
    lemma_dec_text(i);
    lemma_last_piece(head, what, '.');
    lemma_last_piece(head + seq!['.'] + what, d, '.');
    assert(head + dotted + d =~= head + seq!['.'] + what + seq!['.'] + d);
    assert(seq!["profiles"@, dec(p as nat)].push(what).push(d) =~= seq![
        "profiles"@,
        dec(p as nat),
        what,
        d,
    ]);
}

proof fn lemma_single_table_read()
    ensures
        table_of("device"@) == Some(Table::Device),
        table_of("dpi"@) == Some(Table::Dpi),
        lacks("device"@, '\n'),
        lacks("dpi"@, '\n'),
{
    reveal_strlit("device");
    reveal_strlit("dpi");
    lemma_one_piece("device"@, '.');
    lemma_one_piece("dpi"@, '.');
    assert("dpi"@.len() != "device"@.len());
    assert(seq!["dpi"@][0] != seq!["device"@][0]);
}

proof fn lemma_profile_table_read(p: u32)
    ensures
        table_of(table_text(Table::Profile(p))) == Some(Table::Profile(p)),
        lacks(table_text(Table::Profile(p)), '\n'),
{
    reveal_strlit("profiles.");
    lemma_two_parts(p);
    lemma_dec_text(p);
    assert(pieces(table_text(Table::Profile(p)), '.').len() == 2);
    lemma_lacks_both("profiles."@, dec(p as nat), '\n');
}

proof fn lemma_leds_table_read(p: u32, i: u32)
    ensures
        table_of(table_text(Table::Led(p, i))) == Some(Table::Led(p, i)),
        lacks(table_text(Table::Led(p, i)), '\n'),
{
    let t = Table::Led(p, i);
    reveal_strlit("leds");
    reveal_strlit(".leds.");
    assert("leds"@.len() == 4);
    assert(".leds."@ =~= seq!['.'] + "leds"@ + seq!['.']);
    lemma_part_read(t, p, ".leds."@, "leds"@, i);
    assert(pieces(table_text(t), '.').len() == 4);
}

proof fn lemma_buttons_table_read(p: u32, i: u32)
    ensures
        table_of(table_text(Table::Button(p, i))) == Some(Table::Button(p, i)),
        lacks(table_text(Table::Button(p, i)), '\n'),
{
    let t = Table::Button(p, i);
    reveal_strlit("leds");
    reveal_strlit("buttons");
    reveal_strlit(".buttons.");
    assert("leds"@.len() == 4);
    assert("buttons"@.len() == 7);
    assert(".buttons."@ =~= seq!['.'] + "buttons"@ + seq!['.']);
    lemma_part_read(t, p, ".buttons."@, "buttons"@, i);
    assert(pieces(table_text(t), '.').len() == 4);
}

proof fn lemma_resolutions_table_read(p: u32, i: u32)
    ensures
        table_of(table_text(Table::Slot(p, i))) == Some(Table::Slot(p, i)),
        lacks(table_text(Table::Slot(p, i)), '\n'),
{
    let t = Table::Slot(p, i);
    reveal_strlit("leds");
    reveal_strlit("buttons");
    reveal_strlit("resolutions");
    reveal_strlit(".resolutions.");
    assert("leds"@.len() == 4);
    assert("buttons"@.len() == 7);
    assert("resolutions"@.len() == 11);
    assert(".resolutions."@ =~= seq!['.'] + "resolutions"@ + seq!['.']);
    lemma_part_read(t, p, ".resolutions."@, "resolutions"@, i);
    assert(pieces(table_text(t), '.').len() == 4);
}

proof fn lemma_table_read(t: Table)
    ensures
        table_of(table_text(t)) == Some(t),
        lacks(table_text(t), '\n'),
{
    match t {
        Table::Device => lemma_single_table_read(),
        Table::Dpi => lemma_single_table_read(),
        Table::Profile(p) => lemma_profile_table_read(p),
        Table::Led(p, i) => lemma_leds_table_read(p, i),
        Table::Button(p, i) => lemma_buttons_table_read(p, i),
        Table::Slot(p, i) => lemma_resolutions_table_read(p, i),
    }
}

proof fn lemma_lacks_both(a: Seq<char>, b: Seq<char>, c: char)
    requires
        lacks(a, c),
        lacks(b, c),
    ensures
        lacks(a + b, c),
{
    assert forall|i: int| 0 <= i < (a + b).len() implies #[trigger] (a + b)[i] != c by {
        if i < a.len() {
            assert(a[i] != c);
        } else {
            assert(b[i - a.len()] != c);
        }
    }
}

proof fn lemma_part_read(t: Table, p: u32, dotted: Seq<char>, what: Seq<char>, i: u32)
    requires
        dotted == seq!['.'] + what + seq!['.'],
        lacks(what, '.'),
        lacks(dotted, '\n'),
        table_text(t) == "profiles."@ + dec(p as nat) + dotted + dec(i as nat),
    ensures
        pieces(table_text(t), '.') == seq!["profiles"@, dec(p as nat), what, dec(i as nat)],
        number(dec(p as nat)) == Some(p),
        number(dec(i as nat)) == Some(i),
        lacks(table_text(t), '\n'),
{
    reveal_strlit("profiles.");
    lemma_four_parts(p, dotted, what, i);
    lemma_dec_text(p);
    lemma_dec_text(i);
    lemma_lacks_both("profiles."@, dec(p as nat), '\n');
    lemma_lacks_both("profiles."@ + dec(p as nat), dotted, '\n');
    lemma_lacks_both("profiles."@ + dec(p as nat) + dotted, dec(i as nat), '\n');
}

proof fn lemma_line_read(l: Line)
    requires
        is_plain(l),
    ensures
        line_of(line_body(l)) == Some(l),
        lacks(line_body(l), '\n'),
{
    let s = line_body(l);
    match l {
        Line::Blank => {},
        Line::Comment(t) => {
            reveal_strlit("# ");
            assert(s.take(2) =~= "# "@);
            assert(s.skip(2) =~= t);
            assert forall|i: int| 0 <= i < s.len() implies is_printing(#[trigger] s[i]) by {
                if i >= 2 {
                    assert(is_printing(t[i - 2]));
                }
            }
        },
        Line::Table(t) => {
            reveal_strlit("[");
            reveal_strlit("]");
            lemma_table_read(t);
            assert(s.subrange(1, s.len() - 1) =~= table_text(t));
            lemma_lacks_both("["@, table_text(t), '\n');
            lemma_lacks_both("["@ + table_text(t), "]"@, '\n');
        },
        Line::Setting(x) => {
            lemma_setting_parts(x);
            lemma_keys();
            assert(is_key(key_of(x)));
            lemma_value_read(x);
            lemma_split_setting(key_of(x), value_text(x));
            assert(s[0] == key_of(x)[0]);
        },
    }
}

// ------------------------------------------------------------------- texts read back
proof fn lemma_written_first(lines: Seq<Line>)
    requires
        lines.len() > 0,
    ensures
        written(lines) == line_text(lines[0]) + written(lines.skip(1)),
    decreases lines.len(),
{
    if lines.len() == 1 {
        assert(written(lines.drop_last()) =~= Seq::empty());
        assert(written(lines.skip(1)) =~= Seq::empty());
        assert(written(lines) =~= line_text(lines[0]) + written(lines.skip(1)));
    } else {
        lemma_written_first(lines.drop_last());
        let rest = lines.skip(1);
        assert(lines.drop_last().skip(1) =~= rest.drop_last());
        assert(rest.last() == lines.last());
        assert(written(rest) == written(rest.drop_last()) + line_text(lines.last()));
        assert(written(lines) =~= line_text(lines[0]) + written(lines.skip(1)));
    }
}

proof fn lemma_written_pieces(lines: Seq<Line>)
    requires
        forall|i: int| 0 <= i < lines.len() ==> is_plain(#[trigger] lines[i]),
    ensures
        pieces(written(lines), '\n') == Seq::new(
            lines.len(),
            |i: int| line_body(lines[i]),
        ).push(Seq::empty()),
    decreases lines.len(),
{
    let bodies = Seq::new(lines.len(), |i: int| line_body(lines[i]));
    if lines.len() == 0 {
        lemma_one_piece(Seq::empty(), '\n');
        assert(bodies.push(Seq::empty()) =~= seq![Seq::<char>::empty()]);
    } else {
        let rest = lines.skip(1);
        assert forall|i: int| 0 <= i < rest.len() implies is_plain(#[trigger] rest[i]) by {
            assert(rest[i] == lines[i + 1]);
        }
        lemma_written_pieces(rest);
        lemma_written_first(lines);
        lemma_line_text(lines[0]);
        assert(is_plain(lines[0]));
        lemma_line_read(lines[0]);
        lemma_first_piece(line_body(lines[0]), written(rest), '\n');
        assert(written(lines) =~= line_body(lines[0]) + seq!['\n'] + written(rest));
        assert(seq![line_body(lines[0])] + Seq::new(
            rest.len(),
            |i: int| line_body(rest[i]),
        ).push(Seq::empty()) =~= bodies.push(Seq::empty()));
    }
}

/// The text of lines reads as those lines, where no text in them holds a control
/// character, and none that is quoted holds a quote or a backslash.
pub proof fn written_lines_read_back(lines: Seq<Line>)
    requires
        forall|i: int| 0 <= i < lines.len() ==> is_plain(#[trigger] lines[i]),
    ensures
        lines_of(written(lines)) == Some(lines),
        config_of_text(written(lines)) == config_of(lines),
{
    lemma_written_pieces(lines);
    let bodies = Seq::new(lines.len(), |i: int| line_body(lines[i]));
    let all = text_lines(written(lines));
    assert(bodies.push(Seq::empty()).drop_last() =~= bodies);
    assert(all == bodies);
    assert forall|i: int| 0 <= i < all.len() implies line_of(#[trigger] all[i]) == Some(lines[i]) by {
        assert(is_plain(lines[i]));
        lemma_line_read(lines[i]);
    }
    assert(lines_of(written(lines))->0 =~= lines);
}

// ------------------------------------------------------------------------ exports
proof fn lemma_quotable_both(a: Seq<char>, b: Seq<char>)
    requires
        is_quotable(a),
        is_quotable(b),
    ensures
        is_quotable(a + b),
{
    let s = a + b;
    assert forall|i: int| 0 <= i < s.len() implies is_printing(#[trigger] s[i]) && s[i] != '"' && s[i]
        != '\\' by {
        if i < a.len() {
            assert(is_printing(a[i]));
        } else {
            assert(is_printing(b[i - a.len()]));
        }
    }
}

/// The spelling of a mapping can stand between quotes.
proof fn lemma_spelling_is_quotable(kind: u32, value: Option<RawModel>)
    requires
        spelling_of(kind, value) is Some,
    ensures
        is_quotable(spelling_of(kind, value)->0),
{
    reveal_strlit("none");
    reveal_strlit("button ");
    reveal_strlit("special ");
    reveal_strlit("key ");
    reveal_strlit("macro ");
    match (kind, value) {
        (1, Some(RawModel::Number(n))) => {
            lemma_dec_text(n);
            assert(is_quotable(dec(n as nat)));
            lemma_quotable_both("button "@, dec(n as nat));
        },
        (2, Some(RawModel::Number(n))) => {
            let name = special_text(n);
            special_ids_and_names_agree(name);
            lemma_special_names();
            let k = special_id_of(name)->0 - SPECIAL_BASE;
            assert(name == special_list()[k]);
            assert forall|j: int| 0 <= j < name.len() implies is_printing(#[trigger] name[j])
                && name[j] != '"' && name[j] != '\\' by {
                assert(name[j] == special_list()[k][j]);
            }
            lemma_quotable_both("special "@, name);
        },
        (3, Some(RawModel::Number(n))) => {
            assert(is_quotable(key_text(n)));
            lemma_quotable_both("key "@, key_text(n));
        },
        (4, Some(RawModel::MacroEvents(ev))) => {
            assert(is_quotable(key_text(ev[0].1)));
            lemma_quotable_both("macro "@, key_text(ev[0].1));
        },
        _ => {},
    }
}

proof fn lemma_hex_is_quotable(n: u8)
    ensures
        is_quotable(hex_padded(n as nat, 2)),
{
    let d = hex(n as nat);
    lemma_hex_text(n as nat);
    if d.len() < 2 {
        lemma_zeros((2 - d.len()) as nat, d);
    }
    let s = hex_padded(n as nat, 2);
    assert(all_hex(s));
    assert forall|i: int| 0 <= i < s.len() implies is_printing(#[trigger] s[i]) && s[i] != '"' && s[i]
        != '\\' by {
        assert(hex_value(s[i]) is Some);
    }
}

proof fn lemma_color_is_quotable(t: Seq<char>)
    requires
        normal_color(t) == Ok::<Seq<char>, Failure>(t),
    ensures
        is_quotable(t),
{
    let c = color_of(t)->Ok_0;
    lemma_hex_is_quotable(c.0);
    lemma_hex_is_quotable(c.1);
    lemma_hex_is_quotable(c.2);
    lemma_quotable_both(hex_padded(c.0 as nat, 2), hex_padded(c.1 as nat, 2));
    lemma_quotable_both(
        hex_padded(c.0 as nat, 2) + hex_padded(c.1 as nat, 2),
        hex_padded(c.2 as nat, 2),
    );
}

/// Every line is plain.
spec fn all_plain(lines: Seq<Line>) -> bool {
    forall|i: int| 0 <= i < lines.len() ==> is_plain(#[trigger] lines[i])
}

proof fn lemma_plain_both(a: Seq<Line>, b: Seq<Line>)
    requires
        all_plain(a),
        all_plain(b),
    ensures
        all_plain(a + b),
{
    let s = a + b;
    assert forall|i: int| 0 <= i < s.len() implies is_plain(#[trigger] s[i]) by {
        if i < a.len() {
            assert(is_plain(a[i]));
        } else {
            assert(is_plain(b[i - a.len()]));
        }
    }
}

proof fn lemma_head_is_plain(s: SnapshotModel, c: ConfigModel)
    requires
        is_printed(s.name),
        is_printed(s.model),
    ensures
        all_plain(head_lines(s, c)),
{
    let a = "g502-linux-control config, exported from: "@;
    let b = "`g502ctl apply` writes what is named here and leaves everything else alone."@;
    reveal_strlit("g502-linux-control config, exported from: ");
    reveal_strlit("`g502ctl apply` writes what is named here and leaves everything else alone.");
    reveal_strlit(" (");
    reveal_strlit(")");
    lemma_printed_both(a, s.name);
    lemma_printed_both(a + s.name, " ("@);
    lemma_printed_both(a + s.name + " ("@, s.model);
    lemma_printed_both(a + s.name + " ("@ + s.model, ")"@);
    assert(is_printed(b));
}

proof fn lemma_led_is_plain(p: u32, l: LedModel)
    requires
        normal_color(l.color) == Ok::<Seq<char>, Failure>(l.color),
    ensures
        all_plain(led_lines(p, l)),
{
    lemma_color_is_quotable(l.color);
    reveal_strlit("off");
    reveal_strlit("on");
    reveal_strlit("cycle");
    reveal_strlit("breathing");
    reveal_strlit("mode ");
    reveal_strlit(" has no name here");
    match led_mode_text(l.mode) {
        Some(m) => {
            assert(m == "off"@ || m == "on"@ || m == "cycle"@ || m == "breathing"@);
            assert(is_quotable(m));
        },
        None => {
            lemma_dec_text(l.mode);
            lemma_printed_both("mode "@, dec(l.mode as nat));
            lemma_printed_both("mode "@ + dec(l.mode as nat), " has no name here"@);
        },
    }
}

proof fn lemma_button_is_plain(p: u32, b: ButtonModel)
    requires
        spelling_of(b.raw_type, b.raw_value) is None ==> is_printed(b.action),
    ensures
        all_plain(button_lines(p, b)),
{
    match spelling_of(b.raw_type, b.raw_value) {
        Some(_) => {
            lemma_spelling_is_quotable(b.raw_type, b.raw_value);
        },
        None => {
            reveal_strlit("profiles.");
            reveal_strlit(".buttons.");
            reveal_strlit(": ");
            reveal_strlit(" (cannot be written in a config)");
            lemma_dec_text(p);
            lemma_dec_text(b.index);
            let a = "profiles."@ + dec(p as nat);
            lemma_printed_both("profiles."@, dec(p as nat));
            lemma_printed_both(a, ".buttons."@);
            lemma_printed_both(a + ".buttons."@, dec(b.index as nat));
            let c = a + ".buttons."@ + dec(b.index as nat);
            lemma_printed_both(c, ": "@);
            lemma_printed_both(c + ": "@, b.action);
            lemma_printed_both(c + ": "@ + b.action, " (cannot be written in a config)"@);
        },
    }
}

proof fn lemma_leds_are_plain(p: u32, s: Seq<LedModel>, n: nat)
    requires
        n <= s.len(),
        forall|j: int|
            0 <= j < s.len() ==> normal_color((#[trigger] s[j]).color) == Ok::<Seq<char>, Failure>(
                s[j].color,
            ),
    ensures
        all_plain(leds_lines(p, s, n)),
    decreases n,
{
    if n > 0 {
        lemma_leds_are_plain(p, s, (n - 1) as nat);
        lemma_led_is_plain(p, s[n - 1]);
        lemma_plain_both(leds_lines(p, s, (n - 1) as nat), led_lines(p, s[n - 1]));
    }
}

proof fn lemma_buttons_are_plain(p: u32, s: Seq<ButtonModel>, n: nat)
    requires
        n <= s.len(),
        forall|j: int|
            0 <= j < s.len() && spelling_of((#[trigger] s[j]).raw_type, s[j].raw_value) is None
                ==> is_printed(s[j].action),
    ensures
        all_plain(buttons_lines(p, s, n)),
    decreases n,
{
    if n > 0 {
        lemma_buttons_are_plain(p, s, (n - 1) as nat);
        lemma_button_is_plain(p, s[n - 1]);
        lemma_plain_both(buttons_lines(p, s, (n - 1) as nat), button_lines(p, s[n - 1]));
    }
}

proof fn lemma_slots_are_plain(dpi: DpiModel, p: u32, s: Seq<ResolutionModel>, n: nat)
    requires
        n <= s.len(),
    ensures
        all_plain(slots_lines(dpi, p, s, n)),
    decreases n,
{
    if n > 0 {
        lemma_slots_are_plain(dpi, p, s, (n - 1) as nat);
        assert(all_plain(slot_lines(dpi, p, s[n - 1])));
        lemma_plain_both(slots_lines(dpi, p, s, (n - 1) as nat), slot_lines(dpi, p, s[n - 1]));
    }
}

/// The texts of a device that an export shows in comments hold no control character: its
/// name and model, and what it calls the buttons of enabled profiles that a config cannot
/// spell. (What `describe` calls a button holds none.)
pub open spec fn has_printed_texts(s: SnapshotModel) -> bool {
    &&& is_printed(s.name)
    &&& is_printed(s.model)
    &&& forall|i: int, j: int|
        0 <= i < s.profiles.len() && !s.profiles[i].disabled && 0 <= j < s.profiles[i].buttons.len()
            && spelling_of(
            (#[trigger] s.profiles[i].buttons[j]).raw_type,
            s.profiles[i].buttons[j].raw_value,
        ) is None ==> is_printed(s.profiles[i].buttons[j].action)
}

proof fn lemma_profile_is_plain(s: SnapshotModel, dpi: DpiModel, i: int)
    requires
        has_plain_colors(s),
        has_printed_texts(s),
        0 <= i < s.profiles.len(),
    ensures
        all_plain(profile_lines(dpi, s.profiles[i])),
{
    let p = s.profiles[i];
    if !p.disabled {
        assert forall|j: int| 0 <= j < p.leds.len() implies normal_color((#[trigger] p.leds[j]).color)
            == Ok::<Seq<char>, Failure>(p.leds[j].color) by {
            assert(normal_color(s.profiles[i].leds[j].color) is Ok);
        }
        assert forall|j: int|
            0 <= j < p.buttons.len() && spelling_of(
                (#[trigger] p.buttons[j]).raw_type,
                p.buttons[j].raw_value,
            ) is None implies is_printed(p.buttons[j].action) by {
            assert(s.profiles[i].buttons[j] == p.buttons[j]);
        }
        let head = seq![
            Line::Table(Table::Profile(p.index)),
            Line::Setting(Setting::Enabled(true)),
            Line::Setting(Setting::ReportRate(p.report_rate)),
            Line::Blank,
        ];
        let leds = leds_lines(p.index, p.leds, p.leds.len());
        let buttons = buttons_lines(p.index, p.buttons, p.buttons.len());
        let slots = slots_lines(dpi, p.index, p.resolutions, p.resolutions.len());
        lemma_leds_are_plain(p.index, p.leds, p.leds.len());
        lemma_buttons_are_plain(p.index, p.buttons, p.buttons.len());
        lemma_slots_are_plain(dpi, p.index, p.resolutions, p.resolutions.len());
        lemma_plain_both(head, leds);
        lemma_plain_both(head + leds, buttons);
        lemma_plain_both(head + leds + buttons, slots);
    }
}

proof fn lemma_profiles_are_plain(s: SnapshotModel, dpi: DpiModel, n: nat)
    requires
        has_plain_colors(s),
        has_printed_texts(s),
        n <= s.profiles.len(),
    ensures
        all_plain(profiles_lines(dpi, s.profiles, n)),
    decreases n,
{
    if n > 0 {
        lemma_profiles_are_plain(s, dpi, (n - 1) as nat);
        lemma_profile_is_plain(s, dpi, n - 1);
        lemma_plain_both(
            profiles_lines(dpi, s.profiles, (n - 1) as nat),
            profile_lines(dpi, s.profiles[n - 1]),
        );
    }
}

/// The text of an export reads as the config that it was written for: the device and DPI
/// settings that it was given, and of the device everything that a config can say.
pub proof fn an_exported_text_reads_back(s: SnapshotModel, c: ConfigModel)
    requires
        is_numbered(s),
        has_plain_colors(s),
        has_printed_texts(s),
    ensures
        config_of_text(written(export_lines(s, c))) == Some(exported_config(s, c)),
{
    let n = s.profiles.len();
    lemma_head_is_plain(s, c);
    lemma_profiles_are_plain(s, c.dpi, n);
    lemma_plain_both(head_lines(s, c), profiles_lines(c.dpi, s.profiles, n));
    written_lines_read_back(export_lines(s, c));
    export_is_complete(s, c);
}

/// Applying the text of an export to the device it was exported from is an empty diff.
pub proof fn an_exported_text_applies_as_an_empty_diff(s: SnapshotModel, c: ConfigModel)
    requires
        is_numbered(s),
        has_plain_colors(s),
        has_printed_texts(s),
    ensures
        ({
            let read = config_of_text(written(export_lines(s, c)));
            &&& read is Some
            &&& read->0.device == c.device
            &&& read->0.dpi == c.dpi
            &&& overlay_of(s, read->0) is Ok
            &&& plan_of(s, overlay_of(s, read->0)->Ok_0) == nothing()
            &&& rules(c) is Ok ==> rules(read->0) is Ok
        }),
{
    an_exported_text_reads_back(s, c);
    export_is_complete(s, c);
    exported_config_applies_as_an_empty_diff(s, c);
    if rules(c) is Ok {
        exported_config_is_valid(s, c);
    }
}

} // verus!
