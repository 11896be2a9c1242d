//! Text: numbers in decimal and hexadecimal, words, joins and comparisons.
//!
//! Every function here is stated over the characters of its texts, so a contract
//! elsewhere can spell out a whole message.

use vstd::prelude::*;

verus! {

// ------------------------------------------------------------------ trusted
/// `String::push` appends its character to the text and changes nothing else.
pub assume_specification[ String::push ](s: &mut String, c: char)
    ensures
        final(s)@ == old(s)@.push(c),
;

/// What `str::to_uppercase` makes of a text.
pub uninterp spec fn unicode_upper(s: Seq<char>) -> Seq<char>;

/// What `str::to_lowercase` makes of a text.
pub uninterp spec fn unicode_lower(s: Seq<char>) -> Seq<char>;

/// What the `Debug` form of a `str` reads: the text in double quotes, with quotes,
/// backslashes and unprintable characters escaped.
pub uninterp spec fn quoted(s: Seq<char>) -> Seq<char>;

/// `str::to_uppercase`. Its result is a function of the text alone; a text of ASCII
/// characters comes back with `a` to `z` replaced by `A` to `Z`.
#[verifier::external_body]
fn std_uppercase(s: &str) -> (r: String)
    ensures
        r@ == unicode_upper(s@),
        is_ascii(s@) ==> r@ == ascii_upper(s@),
{
    s.to_uppercase()
}

/// `str::to_lowercase`. Its result is a function of the text alone; a text of ASCII
/// characters comes back with `A` to `Z` replaced by `a` to `z`.
#[verifier::external_body]
fn std_lowercase(s: &str) -> (r: String)
    ensures
        r@ == unicode_lower(s@),
        is_ascii(s@) ==> r@ == ascii_lower(s@),
{
    s.to_lowercase()
}

/// The `Debug` form of a `str`. Its result is a function of the text alone.
#[verifier::external_body]
pub(crate) fn quote(s: &str) -> (r: String)
    ensures
        r@ == quoted(s@),
{
    format!("{s:?}")
}

// ------------------------------------------------------------------- letter case
/// Every character is ASCII.
pub open spec fn is_ascii(s: Seq<char>) -> bool {
    vstd::utf8::is_ascii_chars(s)
}

/// `a` to `z` become `A` to `Z`; other characters stay.
pub open spec fn ascii_upper_char(c: char) -> char {
    if 'a' <= c <= 'z' {
        ((c as u32 - 32) as u32) as char
    } else {
        c
    }
}

pub open spec fn ascii_upper(s: Seq<char>) -> Seq<char> {
    Seq::new(s.len(), |i: int| ascii_upper_char(s[i]))
}

/// The upper case of a text.
pub open spec fn upper(s: Seq<char>) -> Seq<char> {
    if is_ascii(s) {
        ascii_upper(s)
    } else {
        unicode_upper(s)
    }
}

/// The upper case of `s`.
pub fn to_upper(s: &str) -> (r: String)
    ensures
        r@ == upper(s@),
{
    std_uppercase(s)
}

/// `A` to `Z` become `a` to `z`; other characters stay.
pub open spec fn ascii_lower_char(c: char) -> char {
    if 'A' <= c <= 'Z' {
        ((c as u32 + 32) as u32) as char
    } else {
        c
    }
}

pub open spec fn ascii_lower(s: Seq<char>) -> Seq<char> {
    Seq::new(s.len(), |i: int| ascii_lower_char(s[i]))
}

/// The lower case of a text.
pub open spec fn lower(s: Seq<char>) -> Seq<char> {
    if is_ascii(s) {
        ascii_lower(s)
    } else {
        unicode_lower(s)
    }
}

/// The lower case of `s`.
pub fn to_lower(s: &str) -> (r: String)
    ensures
        r@ == lower(s@),
{
    std_lowercase(s)
}

// ---------------------------------------------------------------------- numbers
/// The decimal digit of `d`.
pub open spec fn digit(d: int) -> char {
    (48 + d) as char
}

/// `n` in decimal.
pub open spec fn dec(n: nat) -> Seq<char>
    decreases n,
{
    if n < 10 {
        seq![digit(n as int)]
    } else {
        dec(n / 10).push(digit((n % 10) as int))
    }
}

/// Append `n` in decimal.
pub fn push_dec(s: &mut String, n: u64)
    ensures
        final(s)@ == old(s)@ + dec(n as nat),
    decreases n,
{
    if n >= 10 {
        push_dec(s, n / 10);
        let d: u8 = 48 + (n % 10) as u8;
        s.push(d as char);
    } else {
        let d: u8 = 48 + n as u8;
        s.push(d as char);
    }
}

/// `n` in decimal.
pub fn decimal(n: u64) -> (r: String)
    ensures
        r@ == dec(n as nat),
{
    let mut s = String::new();
    push_dec(&mut s, n);
    s
}

/// A number that may be negative, in decimal.
pub open spec fn signed_dec(n: int) -> Seq<char> {
    if n < 0 {
        "-"@ + dec((-n) as nat)
    } else {
        dec(n as nat)
    }
}

pub fn push_signed(s: &mut String, n: i32)
    ensures
        final(s)@ == old(s)@ + signed_dec(n as int),
{
    if n < 0 {
        s.append("-");
        push_dec(s, (-(n as i64)) as u64);
        assert(s@ =~= old(s)@ + signed_dec(n as int));
    } else {
        push_dec(s, n as u64);
    }
}

/// The lower-case hexadecimal digit of `d`.
pub open spec fn hex_digit(d: int) -> char {
    if d < 10 {
        (48 + d) as char
    } else {
        (87 + d) as char
    }
}

/// `n` in lower-case hexadecimal, without leading zeros.
pub open spec fn hex(n: nat) -> Seq<char>
    decreases n,
{
    if n < 16 {
        seq![hex_digit(n as int)]
    } else {
        hex(n / 16).push(hex_digit((n % 16) as int))
    }
}

/// `n` in lower-case hexadecimal, with zeros in front up to `width` digits.
pub open spec fn hex_padded(n: nat, width: nat) -> Seq<char> {
    let digits = hex(n);
    if digits.len() < width {
        Seq::new((width - digits.len()) as nat, |i: int| '0') + digits
    } else {
        digits
    }
}

fn push_hex_digit(s: &mut String, d: u8)
    requires
        d < 16,
    ensures
        final(s)@ == old(s)@.push(hex_digit(d as int)),
{
    if d < 10 {
        s.push((48 + d) as char);
    } else {
        s.push((87 + d) as char);
    }
}

/// Append `n` in hexadecimal.
pub fn push_hex(s: &mut String, n: u32)
    ensures
        final(s)@ == old(s)@ + hex(n as nat),
    decreases n,
{
    if n >= 16 {
        push_hex(s, n / 16);
        push_hex_digit(s, (n % 16) as u8);
    } else {
        push_hex_digit(s, n as u8);
    }
}

/// How many hexadecimal digits `n` has.
fn hex_len(n: u32) -> (r: usize)
    ensures
        r == hex(n as nat).len(),
        r <= n + 1,
    decreases n,
{
    if n < 16 {
        1
    } else {
        hex_len(n / 16) + 1
    }
}

/// Append `n` in hexadecimal, padded with zeros to `width` digits.
pub fn push_hex_padded(s: &mut String, n: u32, width: usize)
    ensures
        final(s)@ == old(s)@ + hex_padded(n as nat, width as nat),
{
    let len: usize = hex_len(n);
    let ghost before = s@;
    if len < width {
        let missing: usize = width - len;
        let mut i: usize = 0;
        while i < missing
            invariant
                i <= missing,
                s@ == before + Seq::new(i as nat, |j: int| '0'),
            decreases missing - i,
        {
            s.push('0');
            i += 1;
            assert(s@ =~= before + Seq::new(i as nat, |j: int| '0'));
        }
        assert(s@ =~= before + Seq::new((width - hex(n as nat).len()) as nat, |j: int| '0'));
    }
    push_hex(s, n);
    assert(s@ =~= before + hex_padded(n as nat, width as nat));
}

/// The value of the decimal digits `s`, read left to right.
pub open spec fn dec_value(s: Seq<char>) -> nat
    decreases s.len(),
{
    if s.len() == 0 {
        0
    } else {
        dec_value(s.drop_last()) * 10 + (s.last() as u32 - '0' as u32) as nat
    }
}

/// Every character is a decimal digit.
pub open spec fn all_digits(s: Seq<char>) -> bool {
    forall|i: int| 0 <= i < s.len() ==> '0' <= #[trigger] s[i] <= '9'
}

/// What reading `s` as a whole number of 32 bits gives: one or more decimal digits,
/// after an optional plus sign, of a value that fits.
pub open spec fn number(s: Seq<char>) -> Option<u32> {
    let digits = if s.len() > 0 && s[0] == '+' {
        s.skip(1)
    } else {
        s
    };
    if digits.len() > 0 && all_digits(digits) && dec_value(digits) <= u32::MAX {
        Some(dec_value(digits) as u32)
    } else {
        None
    }
}

proof fn lemma_dec_value_monotone(s: Seq<char>, i: int)
    requires
        0 <= i <= s.len(),
        all_digits(s),
    ensures
        dec_value(s.take(i)) <= dec_value(s),
    decreases s.len() - i,
{
    if i == s.len() {
        assert(s.take(i) =~= s);
    } else {
        lemma_dec_value_monotone(s, i + 1);
        assert(s.take(i + 1).drop_last() =~= s.take(i));
        assert(s.take(i + 1).last() == s[i]);
    }
}

/// Read `s` as a whole number of 32 bits.
pub fn parse_number(s: &str) -> (r: Option<u32>)
    ensures
        r == number(s@),
{
    let chars = chars_of(s);
    let mut start: usize = 0;
    if chars.len() > 0 && chars[0] == '+' {
        start = 1;
    }
    let ghost digits = if s@.len() > 0 && s@[0] == '+' {
        s@.skip(1)
    } else {
        s@
    };
    if chars.len() == start {
        return None;
    }
    let mut value: u64 = 0;
    let mut i: usize = start;
    assert(digits.take(0) =~= Seq::<char>::empty());
    while i < chars.len()
        invariant
            start <= i <= chars.len(),
            chars@ == s@,
            start == (if s@.len() > 0 && s@[0] == '+' {
                1int
            } else {
                0int
            }),
            digits == (if s@.len() > 0 && s@[0] == '+' {
                s@.skip(1)
            } else {
                s@
            }),
            digits.len() == chars.len() - start,
            all_digits(digits.take(i - start)),
            value == dec_value(digits.take(i - start)),
            value <= u32::MAX,
        decreases chars.len() - i,
    {
        let c: char = chars[i];
        let ghost n = i - start;
        assert(digits[n] == c);
        if c < '0' || c > '9' {
            assert(!all_digits(digits));
            return None;
        }
        let d: u32 = c as u32 - 48;
        value = value * 10 + d as u64;
        proof {
            assert(digits.take(n + 1).drop_last() =~= digits.take(n));
            assert(digits.take(n + 1).last() == c);
            assert(all_digits(digits.take(n + 1)));
        }
        if value > u32::MAX as u64 {
            proof {
                if all_digits(digits) {
                    lemma_dec_value_monotone(digits, n + 1);
                }
            }
            return None;
        }
        i += 1;
    }
    assert(digits.take(digits.len() as int) =~= digits);
    Some(value as u32)
}

// ------------------------------------------------------------------- characters
/// The characters of `s`.
pub fn chars_of(s: &str) -> (r: Vec<char>)
    ensures
        r@ == s@,
{
    let mut v: Vec<char> = Vec::new();
    for c in it: s.chars()
        invariant
            v@ == it.seq().take(it.index()),
            it.seq() == s@,
    {
        v.push(c);
    }
    v
}

/// The text of the characters `from` to `to` of `chars`.
pub fn text_of(chars: &Vec<char>, from: usize, to: usize) -> (r: String)
    requires
        from <= to <= chars.len(),
    ensures
        r@ == chars@.subrange(from as int, to as int),
{
    let mut s = String::new();
    let mut i: usize = from;
    while i < to
        invariant
            from <= i <= to <= chars.len(),
            s@ == chars@.subrange(from as int, i as int),
        decreases to - i,
    {
        s.push(chars[i]);
        i += 1;
        assert(s@ =~= chars@.subrange(from as int, i as int));
    }
    s
}

/// Whether two texts are the same.
pub fn same(a: &str, b: &str) -> (r: bool)
    ensures
        r == (a@ == b@),
{
    a.to_owned() == b.to_owned()
}

/// Whether `s` begins with `prefix`.
pub open spec fn begins(s: Seq<char>, prefix: Seq<char>) -> bool {
    prefix.len() <= s.len() && s.take(prefix.len() as int) == prefix
}

/// Whether `s` begins with `prefix`.
pub fn begins_with(s: &str, prefix: &str) -> (r: bool)
    ensures
        r == begins(s@, prefix@),
{
    let n: usize = prefix.unicode_len();
    if n <= s.unicode_len() {
        same(s.substring_char(0, n), prefix)
    } else {
        false
    }
}

/// `part` occurs in `s`.
pub open spec fn occurs(part: Seq<char>, s: Seq<char>) -> bool {
    exists|i: int| 0 <= i && #[trigger] begins(s.skip(i), part) && i <= s.len()
}

/// Whether `part` occurs in `s`.
pub fn occurs_in(part: &str, s: &str) -> (r: bool)
    ensures
        r == occurs(part@, s@),
{
    let chars = chars_of(s);
    let mut i: usize = 0;
    while i <= chars.len()
        invariant_except_break
            i <= chars.len() + 1,
            chars@ == s@,
            forall|j: int| 0 <= j < i ==> !#[trigger] begins(s@.skip(j), part@),
        ensures
            forall|j: int| 0 <= j <= s@.len() ==> !#[trigger] begins(s@.skip(j), part@),
        decreases chars.len() + 1 - i,
    {
        let rest = text_of(&chars, i, chars.len());
        assert(rest@ =~= s@.skip(i as int));
        if begins_with(rest.as_str(), part) {
            assert(begins(s@.skip(i as int), part@));
            return true;
        }
        if i == chars.len() {
            break;
        }
        i += 1;
    }
    false
}

// ----------------------------------------------------------------------- printing
/// Not a control character.
pub open spec fn is_printing(c: char) -> bool {
    ' ' <= c && c != '\x7f'
}

/// Without control characters.
pub open spec fn is_printed(s: Seq<char>) -> bool {
    forall|i: int| 0 <= i < s.len() ==> is_printing(#[trigger] s[i])
}

pub proof fn lemma_printed_both(a: Seq<char>, b: Seq<char>)
    requires
        is_printed(a),
        is_printed(b),
    ensures
        is_printed(a + b),
{
    let s = a + b;
    assert forall|i: int| 0 <= i < s.len() implies is_printing(#[trigger] s[i]) by {
        if i < a.len() {
            assert(is_printing(a[i]));
        } else {
            assert(is_printing(b[i - a.len()]));
        }
    }
}

/// Numbers are printed.
pub proof fn lemma_numbers_are_printed(n: nat)
    ensures
        is_printed(dec(n)),
        is_printed(hex(n)),
    decreases n,
{
    lemma_dec(n);
    if n >= 16 {
        lemma_numbers_are_printed(n / 16);
        assert(is_printing(hex_digit((n % 16) as int)));
    }
}

pub proof fn lemma_printed_join(parts: Seq<Seq<char>>, sep: Seq<char>)
    requires
        is_printed(sep),
        forall|i: int| 0 <= i < parts.len() ==> is_printed(#[trigger] parts[i]),
    ensures
        is_printed(join(parts, sep)),
    decreases parts.len(),
{
    if parts.len() > 1 {
        let init = parts.drop_last();
        assert forall|i: int| 0 <= i < init.len() implies is_printed(#[trigger] init[i]) by {
            assert(init[i] == parts[i]);
        }
        lemma_printed_join(init, sep);
        lemma_printed_both(join(init, sep), sep);
        assert(is_printed(parts[parts.len() - 1]));
        lemma_printed_both(join(init, sep) + sep, parts.last());
    } else if parts.len() == 1 {
        assert(is_printed(parts[0]));
    }
}

// -------------------------------------------------------------------------- joins
/// The parts in order, with `sep` between neighbours.
pub open spec fn join(parts: Seq<Seq<char>>, sep: Seq<char>) -> Seq<char>
    decreases parts.len(),
{
    if parts.len() == 0 {
        Seq::empty()
    } else if parts.len() == 1 {
        parts[0]
    } else {
        join(parts.drop_last(), sep) + sep + parts.last()
    }
}

/// The views of a list of values.
pub open spec fn views<T: View>(s: Seq<T>) -> Seq<T::V> {
    Seq::new(s.len(), |i: int| s[i]@)
}

/// The texts of a list of strings.
pub open spec fn texts(s: Seq<String>) -> Seq<Seq<char>> {
    Seq::new(s.len(), |i: int| s[i]@)
}

/// The texts of a list of string slices.
pub open spec fn str_texts(s: Seq<&str>) -> Seq<Seq<char>> {
    Seq::new(s.len(), |i: int| s[i]@)
}

/// Join `parts` with `sep`.
pub fn joined(parts: &Vec<String>, sep: &str) -> (r: String)
    ensures
        r@ == join(texts(parts@), sep@),
{
    let mut s = String::new();
    let mut i: usize = 0;
    assert(texts(parts@).take(0) =~= Seq::<Seq<char>>::empty());
    while i < parts.len()
        invariant
            i <= parts.len(),
            s@ == join(texts(parts@).take(i as int), sep@),
        decreases parts.len() - i,
    {
        let ghost so_far = s@;
        if i > 0 {
            s.append(sep);
        }
        s.append(parts[i].as_str());
        proof {
            let next = texts(parts@).take(i + 1);
            assert(next.drop_last() =~= texts(parts@).take(i as int));
            assert(next.last() == parts@[i as int]@);
            if i == 0 {
                assert(s@ =~= next[0]);
            }
        }
        i += 1;
    }
    assert(texts(parts@).take(i as int) =~= texts(parts@));
    s
}

/// A list of numbers as `[1, 2, 3]`.
pub open spec fn number_list(v: Seq<u32>) -> Seq<char> {
    "["@ + join(number_texts(v), ", "@) + "]"@
}

/// The numbers in decimal.
pub open spec fn number_texts(v: Seq<u32>) -> Seq<Seq<char>> {
    Seq::new(v.len(), |i: int| dec(v[i] as nat))
}

/// The numbers in decimal, `, ` between them.
pub fn list_items(v: &Vec<u32>) -> (r: String)
    ensures
        r@ == join(number_texts(v@), ", "@),
{
    let mut parts: Vec<String> = Vec::new();
    let mut i: usize = 0;
    while i < v.len()
        invariant
            i <= v.len(),
            parts@.len() == i,
            forall|j: int| 0 <= j < i ==> (#[trigger] parts@[j])@ == dec(v@[j] as nat),
        decreases v.len() - i,
    {
        parts.push(decimal(v[i] as u64));
        i += 1;
    }
    assert(texts(parts@) =~= number_texts(v@));
    joined(&parts, ", ")
}

/// The list as `[1, 2, 3]`.
pub fn list_text(v: &Vec<u32>) -> (r: String)
    ensures
        r@ == number_list(v@),
{
    let mut s = "[".to_owned();
    let items = list_items(v);
    s.append(items.as_str());
    s.append("]");
    s
}

/// `true` or `false`.
pub open spec fn bool_text(b: bool) -> Seq<char> {
    if b {
        "true"@
    } else {
        "false"@
    }
}

pub fn bool_str(b: bool) -> (r: &'static str)
    ensures
        r@ == bool_text(b),
{
    if b {
        "true"
    } else {
        "false"
    }
}

// -------------------------------------------------------------------------- words
/// The characters with Unicode's `White_Space` property.
pub open spec fn is_space(c: char) -> bool {
    let n = c as u32;
    ||| 0x09 <= n <= 0x0d
    ||| n == 0x20
    ||| n == 0x85
    ||| n == 0xa0
    ||| n == 0x1680
    ||| 0x2000 <= n <= 0x200a
    ||| n == 0x2028
    ||| n == 0x2029
    ||| n == 0x202f
    ||| n == 0x205f
    ||| n == 0x3000
}

pub fn is_white(c: char) -> (r: bool)
    ensures
        r == is_space(c),
{
    let n: u32 = c as u32;
    (0x09 <= n && n <= 0x0d) || n == 0x20 || n == 0x85 || n == 0xa0 || n == 0x1680 || (0x2000 <= n
        && n <= 0x200a) || n == 0x2028 || n == 0x2029 || n == 0x202f || n == 0x205f || n == 0x3000
}

/// How many characters `s` has before its first space.
pub open spec fn word_len(s: Seq<char>) -> nat
    decreases s.len(),
{
    if s.len() == 0 || is_space(s[0]) {
        0
    } else {
        1 + word_len(s.drop_first())
    }
}

proof fn lemma_word_len(s: Seq<char>)
    ensures
        word_len(s) <= s.len(),
        s.len() > 0 && !is_space(s[0]) ==> word_len(s) > 0,
        word_len(s) < s.len() ==> is_space(s[word_len(s) as int]),
        forall|i: int| 0 <= i < word_len(s) ==> !is_space(#[trigger] s[i]),
    decreases s.len(),
{
    if s.len() != 0 && !is_space(s[0]) {
        let rest = s.drop_first();
        lemma_word_len(rest);
        assert forall|i: int| 0 <= i < word_len(s) implies !is_space(#[trigger] s[i]) by {
            if i > 0 {
                assert(s[i] == rest[i - 1]);
            }
        }
        if word_len(s) < s.len() {
            assert(s[word_len(s) as int] == rest[word_len(rest) as int]);
        }
    }
}

/// `s` has `n` characters before its first space.
proof fn lemma_word_len_is(s: Seq<char>, n: int)
    requires
        0 <= n <= s.len(),
        forall|i: int| 0 <= i < n ==> !is_space(#[trigger] s[i]),
        n < s.len() ==> is_space(s[n]),
    ensures
        word_len(s) == n,
{
    lemma_word_len(s);
    let m = word_len(s) as int;
    if m < n {
        assert(!is_space(s[m]));
    }
    if n < m {
        assert(!is_space(s[n]));
    }
}

/// The words of `s`: its longest runs of characters that are not spaces.
pub open spec fn words(s: Seq<char>) -> Seq<Seq<char>>
    decreases s.len(),
    via words_decreases
{
    if s.len() == 0 {
        Seq::empty()
    } else if is_space(s[0]) {
        words(s.drop_first())
    } else {
        seq![s.take(word_len(s) as int)] + words(s.skip(word_len(s) as int))
    }
}

#[via_fn]
proof fn words_decreases(s: Seq<char>) {
    lemma_word_len(s);
}

/// Without spaces.
pub open spec fn is_word(s: Seq<char>) -> bool {
    forall|i: int| 0 <= i < s.len() ==> !is_space(#[trigger] s[i])
}

/// Words have no spaces.
pub proof fn lemma_words_are_words(s: Seq<char>)
    ensures
        forall|i: int| 0 <= i < words(s).len() ==> is_word(#[trigger] words(s)[i]),
    decreases s.len(),
{
    lemma_word_len(s);
    if s.len() > 0 {
        if is_space(s[0]) {
            lemma_words_are_words(s.drop_first());
            assert(words(s) == words(s.drop_first()));
        } else {
            let n = word_len(s) as int;
            let first = s.take(n);
            let rest = s.skip(n);
            lemma_words_are_words(rest);
            assert forall|i: int| 0 <= i < words(s).len() implies is_word(
                #[trigger] words(s)[i],
            ) by {
                if i > 0 {
                    assert(words(s)[i] == words(rest)[i - 1]);
                } else {
                    assert(words(s)[i] == first);
                }
            }
        }
    }
}

/// A text without spaces is one word.
pub proof fn lemma_one_word(a: Seq<char>)
    requires
        a.len() > 0,
        is_word(a),
    ensures
        words(a) == seq![a],
{
    lemma_word_len_is(a, a.len() as int);
    assert(a.take(a.len() as int) =~= a);
    assert(a.skip(a.len() as int) =~= Seq::<char>::empty());
    assert(words(Seq::<char>::empty()) =~= Seq::<Seq<char>>::empty());
    assert(words(a) =~= seq![a]);
}

/// Two texts without spaces, with a blank between them, are two words.
pub proof fn lemma_two_words(a: Seq<char>, b: Seq<char>)
    requires
        a.len() > 0,
        b.len() > 0,
        is_word(a),
        is_word(b),
    ensures
        words(a + " "@ + b) == seq![a, b],
{
    reveal_strlit(" ");
    let s = a + " "@ + b;
    assert forall|i: int| 0 <= i < a.len() implies !is_space(#[trigger] s[i]) by {
        assert(s[i] == a[i]);
    }
    assert(s[a.len() as int] == ' ');
    lemma_word_len_is(s, a.len() as int);
    assert(s[0] == a[0]);
    assert(s.take(a.len() as int) =~= a);
    let rest = s.skip(a.len() as int);
    assert(rest[0] == ' ');
    assert(rest.drop_first() =~= b);
    lemma_one_word(b);
    assert(words(rest) == words(b));
    assert(words(s) =~= seq![a, b]);
}

/// A number in decimal reads back as that number, and is one word.
pub proof fn lemma_number_of_dec(n: u32)
    ensures
        number(dec(n as nat)) == Some(n),
        is_word(dec(n as nat)),
        dec(n as nat).len() > 0,
{
    lemma_dec(n as nat);
    let s = dec(n as nat);
    assert('0' <= s[0] <= '9');
}

pub proof fn lemma_dec(n: nat)
    ensures
        all_digits(dec(n)),
        dec_value(dec(n)) == n,
        dec(n).len() > 0,
    decreases n,
{
    let s = dec(n);
    if n < 10 {
        assert(s.drop_last() =~= Seq::<char>::empty());
        assert(dec_value(s.drop_last()) == 0);
    } else {
        lemma_dec(n / 10);
        assert(s.drop_last() =~= dec(n / 10));
    }
}

/// Split `s` into its words.
pub fn split_words(s: &str) -> (r: Vec<String>)
    ensures
        texts(r@) == words(s@),
{
    let chars = chars_of(s);
    let mut out: Vec<String> = Vec::new();
    let mut i: usize = 0;
    assert(s@.skip(0) =~= s@);
    assert(texts(out@) + words(s@) =~= words(s@));
    while i < chars.len()
        invariant
            i <= chars.len(),
            chars@ == s@,
            texts(out@) + words(s@.skip(i as int)) == words(s@),
        decreases chars.len() - i,
    {
        let ghost rest = s@.skip(i as int);
        if is_white(chars[i]) {
            i += 1;
            assert(rest.drop_first() =~= s@.skip(i as int));
        } else {
            let start: usize = i;
            while i < chars.len() && !is_white(chars[i])
                invariant
                    start <= i <= chars.len(),
                    chars@ == s@,
                    forall|j: int| start <= j < i ==> !is_space(#[trigger] chars@[j]),
                ensures
                    start <= i <= chars.len(),
                    i < chars.len() ==> is_space(chars@[i as int]),
                    forall|j: int| start <= j < i ==> !is_space(#[trigger] chars@[j]),
                decreases chars.len() - i,
            {
                i += 1;
            }
            proof {
                let n = i - start;
                assert forall|j: int| 0 <= j < n implies !is_space(#[trigger] rest[j]) by {
                    assert(rest[j] == chars@[start + j]);
                }
                if n < rest.len() {
                    assert(rest[n] == chars@[i as int]);
                }
                lemma_word_len_is(rest, n);
                assert(rest[0] == chars@[start as int]);
                if i == start {
                    assert(is_space(chars@[start as int]));
                }
                assert(rest.skip(n) =~= s@.skip(i as int));
                assert(rest.take(n) =~= chars@.subrange(start as int, i as int));
            }
            let ghost before = texts(out@);
            out.push(text_of(&chars, start, i));
            proof {
                let word = chars@.subrange(start as int, i as int);
                assert(texts(out@) =~= before.push(word));
                assert(before.push(word) + words(s@.skip(i as int)) =~= before + (seq![word]
                    + words(s@.skip(i as int))));
            }
        }
    }
    assert(s@.skip(i as int) =~= Seq::<char>::empty());
    assert(texts(out@) + words(s@.skip(i as int)) =~= texts(out@));
    out
}

/// `s` without the spaces at its two ends.
pub open spec fn trimmed(s: Seq<char>) -> Seq<char>
    decreases s.len(),
{
    if s.len() == 0 {
        s
    } else if is_space(s[0]) {
        trimmed(s.drop_first())
    } else if is_space(s.last()) {
        trimmed(s.drop_last())
    } else {
        s
    }
}

/// `s` without the spaces at its two ends.
pub fn trim(s: &str) -> (r: String)
    ensures
        r@ == trimmed(s@),
{
    let chars = chars_of(s);
    let mut from: usize = 0;
    let mut to: usize = chars.len();
    assert(chars@.subrange(0, to as int) =~= s@);
    while from < to && is_white(chars[from])
        invariant
            from <= to == chars.len(),
            trimmed(chars@.subrange(from as int, to as int)) == trimmed(s@),
        ensures
            from <= to == chars.len(),
            trimmed(chars@.subrange(from as int, to as int)) == trimmed(s@),
            from < to ==> !is_space(chars@[from as int]),
        decreases to - from,
    {
        let ghost rest = chars@.subrange(from as int, to as int);
        from += 1;
        assert(rest.drop_first() =~= chars@.subrange(from as int, to as int));
    }
    while from < to && is_white(chars[to - 1])
        invariant
            from <= to <= chars.len(),
            trimmed(chars@.subrange(from as int, to as int)) == trimmed(s@),
            from < to ==> !is_space(chars@[from as int]),
        ensures
            from <= to <= chars.len(),
            trimmed(chars@.subrange(from as int, to as int)) == trimmed(s@),
            from < to ==> !is_space(chars@[from as int]),
            from < to ==> !is_space(chars@[to - 1]),
        decreases to - from,
    {
        let ghost rest = chars@.subrange(from as int, to as int);
        to -= 1;
        assert(rest.drop_last() =~= chars@.subrange(from as int, to as int));
    }
    text_of(&chars, from, to)
}

// ---------------------------------------------------------------------------- laws
/// The spaces are the code points with Unicode's `White_Space` property.
pub proof fn spaces_are_unicodes(c: char)
    ensures
        is_space(c) <==> c == '\u{9}' || c == '\u{a}' || c == '\u{b}' || c == '\u{c}' || c == '\u{d}'
            || c == ' ' || c == '\u{85}' || c == '\u{a0}' || c == '\u{1680}' || c == '\u{2000}' || c
            == '\u{2001}' || c == '\u{2002}' || c == '\u{2003}' || c == '\u{2004}' || c == '\u{2005}'
            || c == '\u{2006}' || c == '\u{2007}' || c == '\u{2008}' || c == '\u{2009}' || c
            == '\u{200a}' || c == '\u{2028}' || c == '\u{2029}' || c == '\u{202f}' || c == '\u{205f}'
            || c == '\u{3000}',
{
}

proof fn lemma_word_len_before(a: Seq<char>, b: Seq<char>)
    requires
        b.len() > 0,
        is_space(b[0]),
    ensures
        word_len(a + b) == word_len(a),
{
    let s = a + b;
    lemma_word_len(a);
    let n = word_len(a) as int;
    assert forall|i: int| 0 <= i < n implies !is_space(#[trigger] s[i]) by {
        assert(s[i] == a[i]);
    }
    if n < a.len() {
        assert(s[n] == a[n]);
    } else {
        assert(s[n] == b[0]);
    }
    lemma_word_len_is(s, n);
}

/// A space parts words: those before it and those behind it are the words of the whole.
pub proof fn a_space_parts_words(a: Seq<char>, c: char, b: Seq<char>)
    requires
        is_space(c),
    ensures
        words(a + seq![c] + b) == words(a) + words(b),
        words(Seq::<char>::empty()) == Seq::<Seq<char>>::empty(),
    decreases a.len(),
{
    let s = a + seq![c] + b;
    let tail = seq![c] + b;
    assert(s =~= a + tail);
    if a.len() == 0 {
        assert(s.drop_first() =~= b);
        assert(words(a) + words(b) =~= words(b));
    } else if is_space(a[0]) {
        assert(s.drop_first() =~= a.drop_first() + seq![c] + b);
        a_space_parts_words(a.drop_first(), c, b);
    } else {
        lemma_word_len(a);
        lemma_word_len_before(a, tail);
        let n = word_len(a) as int;
        assert(s[0] == a[0]);
        assert(s.take(n) =~= a.take(n));
        assert(s.skip(n) =~= a.skip(n) + seq![c] + b);
        a_space_parts_words(a.skip(n), c, b);
        assert(words(s) =~= words(a) + words(b));
    }
}

/// A text without the spaces at its ends is what stands between them, and neither begins nor
/// ends with one.
pub proof fn trimming_takes_the_outer_spaces(a: Seq<char>, s: Seq<char>, b: Seq<char>)
    requires
        forall|i: int| 0 <= i < a.len() ==> is_space(#[trigger] a[i]),
        forall|i: int| 0 <= i < b.len() ==> is_space(#[trigger] b[i]),
        s.len() > 0 ==> !is_space(s[0]) && !is_space(s.last()),
    ensures
        trimmed(a + s + b) == s,
    decreases a.len() + b.len(),
{
    let all = a + s + b;
    if all.len() > 0 {
        if a.len() > 0 {
            assert(all[0] == a[0]);
            assert(all.drop_first() =~= a.drop_first() + s + b);
            assert forall|i: int| 0 <= i < a.drop_first().len() implies is_space(
                #[trigger] a.drop_first()[i],
            ) by {
                assert(a.drop_first()[i] == a[i + 1]);
            }
            trimming_takes_the_outer_spaces(a.drop_first(), s, b);
        } else if s.len() == 0 {
            assert(all =~= b);
            assert(is_space(b[0]));
            assert(all.drop_first() =~= b.drop_first() + s + a);
            assert forall|i: int| 0 <= i < b.drop_first().len() implies is_space(
                #[trigger] b.drop_first()[i],
            ) by {
                assert(b.drop_first()[i] == b[i + 1]);
            }
            trimming_takes_the_outer_spaces(b.drop_first(), s, a);
        } else if b.len() > 0 {
            assert(all[0] == s[0]);
            assert(is_space(b[b.len() - 1]));
            assert(all.last() == b.last());
            assert(all.drop_last() =~= a + s + b.drop_last());
            assert forall|i: int| 0 <= i < b.drop_last().len() implies is_space(
                #[trigger] b.drop_last()[i],
            ) by {
                assert(b.drop_last()[i] == b[i]);
            }
            trimming_takes_the_outer_spaces(a, s, b.drop_last());
        } else {
            assert(all =~= s);
        }
    } else {
        assert(s =~= all);
    }
}

/// A number is read from decimal digits of which each is worth ten of the next, where it fits
/// 32 bits; a plus sign in front changes nothing, and nothing else is a number.
pub proof fn numbers_are_decimal_digits(d: Seq<char>, c: char, s: Seq<char>)
    ensures
        dec_value(Seq::<char>::empty()) == 0,
        '0' <= c <= '9' ==> dec_value(d.push(c)) == 10 * dec_value(d) + (c as int - '0' as int),
        all_digits(d) && d.len() > 0 ==> number(seq!['+'] + d) == number(d),
        all_digits(d) && d.len() > 0 ==> (number(d) is Some <==> dec_value(d) <= 0xffff_ffff),
        all_digits(d) && d.len() > 0 && number(d) is Some ==> number(d)->0 == dec_value(d),
        number(s) is Some ==> s.len() > 0 && forall|i: int|
            0 <= i < s.len() ==> '0' <= #[trigger] s[i] <= '9' || (i == 0 && s[i] == '+' && s.len() > 1),
{
    assert(d.push(c).drop_last() =~= d);
    if all_digits(d) && d.len() > 0 {
        assert('0' <= d[0] <= '9');
        assert((seq!['+'] + d).skip(1) =~= d);
    }
    if number(s) is Some {
        let digits = if s.len() > 0 && s[0] == '+' {
            s.skip(1)
        } else {
            s
        };
        assert forall|i: int| 0 <= i < s.len() implies '0' <= #[trigger] s[i] <= '9' || (i == 0
            && s[i] == '+' && s.len() > 1) by {
            if s[0] == '+' {
                if i > 0 {
                    assert(digits[i - 1] == s[i]);
                }
            } else {
                assert(digits[i] == s[i]);
            }
        }
    }
}

/// A part occurs in a text exactly where the text is something, the part, and something.
pub proof fn a_part_occurs_where_it_stands(part: Seq<char>, s: Seq<char>)
    ensures
        occurs(part, s) <==> exists|a: Seq<char>, b: Seq<char>| s == #[trigger] (a + part + b),
{
    if occurs(part, s) {
        let i = choose|i: int| 0 <= i && #[trigger] begins(s.skip(i), part) && i <= s.len();
        let a = s.take(i);
        let b = s.skip(i + part.len());
        assert(s.skip(i).take(part.len() as int) == part);
        assert forall|k: int| 0 <= k < part.len() implies s[i + k] == #[trigger] part[k] by {
            assert(s.skip(i).take(part.len() as int)[k] == part[k]);
        }
        assert(s =~= a + part + b);
    }
    if exists|a: Seq<char>, b: Seq<char>| s == #[trigger] (a + part + b) {
        let (a, b) = choose|a: Seq<char>, b: Seq<char>| s == #[trigger] (a + part + b);
        let i = a.len() as int;
        assert(s.skip(i).take(part.len() as int) =~= part);
        assert(begins(s.skip(i), part));
    }
}

/// Four hexadecimal digits of a number of 16 bits, the most significant first.
pub proof fn an_id_has_four_digits(n: u16)
    ensures
        ({
            let d = "0123456789abcdef"@;
            hex_padded(n as nat, 4) == seq![
                d[n as int / 4096],
                d[n as int / 256 % 16],
                d[n as int / 16 % 16],
                d[n as int % 16],
            ]
        }),
{
    reveal_strlit("0123456789abcdef");
    reveal_with_fuel(hex, 4);
    let d = "0123456789abcdef"@;
    let n = n as int;
    assert(n / 4096 < 16);
    assert forall|k: int| 0 <= k < 16 implies d[k] == hex_digit(k) by {}
    assert(n / 16 / 16 == n / 256);
    assert(n / 256 / 16 == n / 4096);
    assert(hex_padded(n as nat, 4) =~= seq![
        hex_digit(n / 4096),
        hex_digit(n / 256 % 16),
        hex_digit(n / 16 % 16),
        hex_digit(n % 16),
    ]);
}

/// The letters `a` to `z` and `A` to `Z` differ by 32 in their code; of ASCII nothing else has
/// a case.
pub proof fn ascii_letters_have_two_cases(s: Seq<char>, i: int)
    requires
        is_ascii(s),
        0 <= i < s.len(),
    ensures
        upper(s).len() == s.len(),
        lower(s).len() == s.len(),
        upper(s)[i] as int == (if 'a' <= s[i] <= 'z' {
            s[i] as int - 32
        } else {
            s[i] as int
        }),
        lower(s)[i] as int == (if 'A' <= s[i] <= 'Z' {
            s[i] as int + 32
        } else {
            s[i] as int
        }),
{
}

} // verus!
