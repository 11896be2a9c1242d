//! The configuration: defaults, rules, colours. A missing file means the defaults
//! below (the tested setup).

use crate::error::{failure, is_outcome, within, Error, Failure};
use crate::keyed::{entries, lemma_entries_list, lemma_entries_unique, lists, pairs};
use crate::text::{chars_of, dec, is_ascii, list_text, number_list, push_dec, quote, quoted, text_of};
use std::collections::BTreeMap;
use vstd::prelude::*;

verus! {

#[derive(Debug, Clone, PartialEq)]
pub struct Config {
    pub device: DeviceConfig,
    pub dpi: DpiConfig,
    pub profiles: BTreeMap<u32, ProfileConfig>,
}

#[derive(Debug, Clone, Copy, PartialEq)]
pub struct DeviceConfig {
    pub vendor: u16,
    pub product: u16,
}

#[derive(Debug, Clone, PartialEq)]
pub struct DpiConfig {
    /// Ascending DPI stages.
    pub values: Vec<u32>,
    /// Resolution slot that holds the shared DPI in every synced profile.
    pub shared_slot: u32,
    /// Profiles whose shared slot is kept in sync.
    pub profiles: Vec<u32>,
}

/// What the config says about one profile. What it leaves out stays as it is.
#[derive(Debug, Clone, PartialEq)]
pub struct ProfileConfig {
    pub enabled: Option<bool>,
    pub report_rate: Option<u32>,
    /// RRGGBB, for every LED of the profile.
    pub color: Option<String>,
    pub leds: BTreeMap<u32, LedConfig>,
    pub buttons: BTreeMap<u32, ButtonConfig>,
    pub resolutions: BTreeMap<u32, ResolutionConfig>,
}

#[derive(Debug, Clone, PartialEq)]
pub struct LedConfig {
    /// `off`, `on`, `cycle` or `breathing`.
    pub mode: Option<String>,
    /// RRGGBB.
    pub color: Option<String>,
    pub brightness: Option<u32>,
}

#[derive(Debug, Clone, PartialEq)]
pub struct ButtonConfig {
    /// The action stored in the mouse, e.g. `key KEY_A`.
    pub onboard: String,
}

#[derive(Debug, Clone, Copy, PartialEq)]
pub struct ResolutionConfig {
    pub dpi: Option<u32>,
    pub enabled: Option<bool>,
}

// ------------------------------------------------------------------------ models
/// The values of a `Config`. Tables are listed in ascending key order.
#[verifier::ext_equal]
pub struct ConfigModel {
    pub device: DeviceConfig,
    pub dpi: DpiModel,
    pub profiles: Seq<(u32, ProfileConfigModel)>,
}

#[verifier::ext_equal]
pub struct DpiModel {
    pub values: Seq<u32>,
    pub shared_slot: u32,
    pub profiles: Seq<u32>,
}

#[verifier::ext_equal]
pub struct ProfileConfigModel {
    pub enabled: Option<bool>,
    pub report_rate: Option<u32>,
    pub color: Option<Seq<char>>,
    pub leds: Seq<(u32, LedConfigModel)>,
    pub buttons: Seq<(u32, Seq<char>)>,
    pub resolutions: Seq<(u32, ResolutionConfig)>,
}

#[verifier::ext_equal]
pub struct LedConfigModel {
    pub mode: Option<Seq<char>>,
    pub color: Option<Seq<char>>,
    pub brightness: Option<u32>,
}

/// The text of an optional string.
pub open spec fn optional(s: Option<String>) -> Option<Seq<char>> {
    match s {
        Some(t) => Some(t@),
        None => None,
    }
}

/// The entries of a table in ascending key order, each value by its view.
pub open spec fn listing<V: View>(m: Map<u32, V>) -> Seq<(u32, V::V)> {
    Seq::new(entries(m).len(), |i: int| (entries(m)[i].0, entries(m)[i].1@))
}

/// An entry of a table is among those listed.
pub(crate) proof fn lemma_listed<V: View>(m: Map<u32, V>, key: u32) -> (k: int)
    requires
        m.contains_key(key),
    ensures
        0 <= k < listing(m).len(),
        listing(m)[k] == (key, m[key]@),
{
    lemma_entries_list(m, 0x1_0000_0000);
    let k = choose|k: int| 0 <= k < entries(m).len() && (#[trigger] entries(m)[k]).0 == key;
    assert(m.contains_key(entries(m)[k].0));
    k
}

/// What is listed is an entry of the table.
pub(crate) proof fn lemma_listed_is_entry<V: View>(m: Map<u32, V>, k: int)
    requires
        0 <= k < listing(m).len(),
    ensures
        m.contains_key(listing(m)[k].0),
        listing(m)[k].1 == m[listing(m)[k].0]@,
{
    lemma_entries_list(m, 0x1_0000_0000);
    assert(m.contains_key(entries(m)[k].0));
}

impl View for Config {
    type V = ConfigModel;

    open spec fn view(&self) -> ConfigModel {
        ConfigModel {
            device: self.device,
            dpi: self.dpi@,
            profiles: listing(self.profiles@),
        }
    }
}

impl View for DpiConfig {
    type V = DpiModel;

    open spec fn view(&self) -> DpiModel {
        DpiModel {
            values: self.values@,
            shared_slot: self.shared_slot,
            profiles: self.profiles@,
        }
    }
}

impl View for ProfileConfig {
    type V = ProfileConfigModel;

    open spec fn view(&self) -> ProfileConfigModel {
        ProfileConfigModel {
            enabled: self.enabled,
            report_rate: self.report_rate,
            color: optional(self.color),
            leds: listing(self.leds@),
            buttons: listing(self.buttons@),
            resolutions: listing(self.resolutions@),
        }
    }
}

impl View for LedConfig {
    type V = LedConfigModel;

    open spec fn view(&self) -> LedConfigModel {
        LedConfigModel {
            mode: optional(self.mode),
            color: optional(self.color),
            brightness: self.brightness,
        }
    }
}

impl View for ButtonConfig {
    type V = Seq<char>;

    open spec fn view(&self) -> Seq<char> {
        self.onboard@
    }
}

impl View for ResolutionConfig {
    type V = ResolutionConfig;

    open spec fn view(&self) -> ResolutionConfig {
        *self
    }
}

// ---------------------------------------------------------------------- defaults
/// A table without entries lists nothing.
proof fn lemma_listing_empty<V: View>()
    ensures
        listing(Map::<u32, V>::empty()) == Seq::<(u32, V::V)>::empty(),
{
    let m = Map::<u32, V>::empty();
    assert(lists(m, Seq::<(u32, V)>::empty()));
    lemma_entries_unique(m, Seq::<(u32, V)>::empty());
    assert(listing(m) =~= Seq::<(u32, V::V)>::empty());
}

/// The defaults: the tested mouse, five stages, slot 1 shared by profiles 0 and 1,
/// and nothing said about any profile.
pub open spec fn default_config() -> ConfigModel {
    ConfigModel {
        device: DeviceConfig { vendor: 0x046d, product: 0xc08b },
        dpi: DpiModel {
            values: seq![1000u32, 1800, 2400, 3200, 4000],
            shared_slot: 1,
            profiles: seq![0u32, 1],
        },
        profiles: Seq::empty(),
    }
}

impl Default for Config {
    fn default() -> (r: Self)
        ensures
            r@ == default_config(),
    {
        let r = Config {
            device: DeviceConfig::default(),
            dpi: DpiConfig::default(),
            profiles: BTreeMap::new(),
        };
        proof {
            lemma_listing_empty::<ProfileConfig>();
        }
        r
    }
}

impl Default for DeviceConfig {
    fn default() -> (r: Self)
        ensures
            r == default_config().device,
    {
        DeviceConfig { vendor: 0x046d, product: 0xc08b }
    }
}

impl Default for DpiConfig {
    fn default() -> (r: Self)
        ensures
            r@ == default_config().dpi,
    {
        let r = DpiConfig {
            values: vec![1000, 1800, 2400, 3200, 4000],
            shared_slot: 1,
            profiles: vec![0, 1],
        };
        assert(r.values@ =~= default_config().dpi.values);
        assert(r.profiles@ =~= default_config().dpi.profiles);
        r
    }
}

/// A profile about which nothing is said.
pub open spec fn unsaid_profile() -> ProfileConfigModel {
    ProfileConfigModel {
        enabled: None,
        report_rate: None,
        color: None,
        leds: Seq::empty(),
        buttons: Seq::empty(),
        resolutions: Seq::empty(),
    }
}

impl Default for ProfileConfig {
    fn default() -> (r: Self)
        ensures
            r@ == unsaid_profile(),
    {
        proof {
            lemma_listing_empty::<LedConfig>();
            lemma_listing_empty::<ButtonConfig>();
            lemma_listing_empty::<ResolutionConfig>();
        }
        ProfileConfig {
            enabled: None,
            report_rate: None,
            color: None,
            leds: BTreeMap::new(),
            buttons: BTreeMap::new(),
            resolutions: BTreeMap::new(),
        }
    }
}

impl Default for LedConfig {
    fn default() -> (r: Self)
        ensures
            r@ == (LedConfigModel { mode: None, color: None, brightness: None }),
    {
        LedConfig { mode: None, color: None, brightness: None }
    }
}

impl Default for ResolutionConfig {
    fn default() -> (r: Self)
        ensures
            r == (ResolutionConfig { dpi: None, enabled: None }),
    {
        ResolutionConfig { dpi: None, enabled: None }
    }
}

// ------------------------------------------------------------------------ colours
/// `s` without a leading `#`.
pub open spec fn color_digits(s: Seq<char>) -> Seq<char> {
    if s.len() > 0 && s[0] == '#' {
        s.skip(1)
    } else {
        s
    }
}

/// The value of a hexadecimal digit of either case.
pub open spec fn hex_value(c: char) -> Option<u8> {
    if '0' <= c <= '9' {
        Some((c as u32 - '0' as u32) as u8)
    } else if 'a' <= c <= 'f' {
        Some((c as u32 - 'a' as u32 + 10) as u8)
    } else if 'A' <= c <= 'F' {
        Some((c as u32 - 'A' as u32 + 10) as u8)
    } else {
        None
    }
}

/// The value of two hexadecimal digits.
pub open spec fn color_byte(a: char, b: char) -> Option<u8> {
    match (hex_value(a), hex_value(b)) {
        (Some(x), Some(y)) => Some((16 * x + y) as u8),
        _ => None,
    }
}

/// What `RRGGBB`, after an optional `#`, stands for.
pub open spec fn color_of(s: Seq<char>) -> Result<(u8, u8, u8), Failure> {
    let d = color_digits(s);
    if d.len() != 6 || !is_ascii(d) {
        Err(failure("color must be RRGGBB, got "@ + quoted(d)))
    } else {
        match (color_byte(d[0], d[1]), color_byte(d[2], d[3]), color_byte(d[4], d[5])) {
            (Some(r), Some(g), Some(b)) => Ok((r, g, b)),
            _ => Err(within("bad color "@ + quoted(d), failure("invalid digit found in string"@))),
        }
    }
}

fn hex_digit_value(c: char) -> (r: Option<u8>)
    ensures
        r == hex_value(c),
{
    let n: u32 = c as u32;
    if '0' <= c && c <= '9' {
        Some((n - 48) as u8)
    } else if 'a' <= c && c <= 'f' {
        Some((n - 87) as u8)
    } else if 'A' <= c && c <= 'F' {
        Some((n - 55) as u8)
    } else {
        None
    }
}

fn byte_value(a: char, b: char) -> (r: Option<u8>)
    ensures
        r == color_byte(a, b),
{
    match (hex_digit_value(a), hex_digit_value(b)) {
        (Some(x), Some(y)) => Some(16 * x + y),
        _ => None,
    }
}

/// "RRGGBB" (optionally with a leading '#') to (r, g, b).
pub fn parse_color(s: &str) -> (r: Result<(u8, u8, u8), Error>)
    ensures
        is_outcome(r, color_of(s@)),
{
    let chars = chars_of(s);
    let n: usize = chars.len();
    let start: usize = if n > 0 && chars[0] == '#' {
        1
    } else {
        0
    };
    let digits = text_of(&chars, start, n);
    let ghost d = color_digits(s@);
    assert(digits@ =~= d);
    if n - start != 6 || !digits.as_str().is_ascii() {
        let mut m = "color must be RRGGBB, got ".to_owned();
        let q = quote(digits.as_str());
        m.append(q.as_str());
        return Err(Error::new(m));
    }
    match (
        byte_value(chars[start], chars[start + 1]),
        byte_value(chars[start + 2], chars[start + 3]),
        byte_value(chars[start + 4], chars[start + 5]),
    ) {
        (Some(r), Some(g), Some(b)) => Ok((r, g, b)),
        _ => {
            let mut m = "bad color ".to_owned();
            let q = quote(digits.as_str());
            m.append(q.as_str());
            Err(Error::new("invalid digit found in string".to_owned()).context(m))
        },
    }
}

// ------------------------------------------------------------------------- rules
/// The values are strictly ascending.
pub open spec fn is_ascending(v: Seq<u32>) -> bool {
    forall|i: int, j: int| 0 <= i < j < v.len() ==> #[trigger] v[i] < #[trigger] v[j]
}

/// The stages are positive and strictly ascending.
pub open spec fn ascending_stages(v: Seq<u32>) -> bool {
    &&& forall|i: int| 0 <= i < v.len() ==> #[trigger] v[i] > 0
    &&& is_ascending(v)
}

/// `profiles.N.` followed by `what`.
pub open spec fn profile_key(profile: u32, what: Seq<char>) -> Seq<char> {
    "profiles."@ + dec(profile as nat) + "."@ + what
}

/// Slot `slot` of profile `profile` holds the shared DPI.
pub open spec fn is_shared(dpi: DpiModel, profile: u32, slot: u32) -> bool {
    slot == dpi.shared_slot && dpi.profiles.contains(profile)
}

/// Why the shared slot of a synced profile cannot be changed.
pub open spec fn shared_slot_failure(profile: u32, slot: u32) -> Failure {
    failure(
        "slot "@ + dec(slot as nat) + " of profile "@ + dec(profile as nat)
            + " holds the shared DPI managed by g502d; change dpi.values in the config or use `g502ctl dpi`"@,
    )
}

/// Whether a table has an entry for `key`.
pub open spec fn has_key<V>(s: Seq<(u32, V)>, key: u32) -> bool {
    exists|i: int| 0 <= i < s.len() && (#[trigger] s[i]).0 == key
}

/// The shared slot of a synced profile is left alone.
pub open spec fn slot_rules(dpi: DpiModel, profile: u32, p: ProfileConfigModel) -> Result<(), Failure> {
    if dpi.profiles.contains(profile) && has_key(p.resolutions, dpi.shared_slot) {
        Err(
            within(
                profile_key(profile, "resolutions"@),
                shared_slot_failure(profile, dpi.shared_slot),
            ),
        )
    } else {
        Ok(())
    }
}

/// The rules on what the config says about one profile: its colour is one, and it
/// leaves the shared slot of a synced profile alone.
pub open spec fn profile_rules(dpi: DpiModel, profile: u32, p: ProfileConfigModel) -> Result<
    (),
    Failure,
> {
    if p.color matches Some(c) && color_of(c) is Err {
        Err(within(profile_key(profile, "color"@), color_of(p.color->0)->Err_0))
    } else {
        slot_rules(dpi, profile, p)
    }
}

/// The rules on the first `n` profiles, in order; the first that fails is reported.
pub open spec fn profiles_rules(c: ConfigModel, n: nat) -> Result<(), Failure>
    decreases n,
{
    if n == 0 {
        Ok(())
    } else {
        match profiles_rules(c, (n - 1) as nat) {
            Ok(_) => profile_rules(c.dpi, c.profiles[n - 1].0, c.profiles[n - 1].1),
            Err(e) => Err(e),
        }
    }
}

/// The rules on a config. The first that fails is reported.
pub open spec fn rules(c: ConfigModel) -> Result<(), Failure> {
    if c.dpi.values.len() == 0 {
        Err(failure("dpi.values must not be empty"@))
    } else if !ascending_stages(c.dpi.values) {
        Err(
            failure(
                "dpi.values must be positive and strictly ascending, got "@ + number_list(
                    c.dpi.values,
                ),
            ),
        )
    } else if c.dpi.profiles.len() == 0 {
        Err(failure("dpi.profiles must list at least one profile"@))
    } else {
        profiles_rules(c, c.profiles.len())
    }
}

/// `profiles.N.` followed by `what`.
pub fn profile_key_text(profile: u32, what: &str) -> (r: String)
    ensures
        r@ == profile_key(profile, what@),
{
    let mut s = "profiles.".to_owned();
    push_dec(&mut s, profile as u64);
    s.append(".");
    s.append(what);
    s
}

/// Whether `v` holds `x`.
pub fn holds(v: &[u32], x: u32) -> (r: bool)
    ensures
        r == v@.contains(x),
{
    let mut i: usize = 0;
    while i < v.len()
        invariant
            i <= v.len(),
            forall|j: int| 0 <= j < i ==> v@[j] != x,
        decreases v.len() - i,
    {
        if v[i] == x {
            assert(v@[i as int] == x);
            return true;
        }
        i += 1;
    }
    false
}

/// The error for an edit of the shared slot.
pub fn shared_slot_error(profile: u32, slot: u32) -> (e: Error)
    ensures
        e@ == shared_slot_failure(profile, slot),
{
    let mut m = "slot ".to_owned();
    push_dec(&mut m, slot as u64);
    m.append(" of profile ");
    push_dec(&mut m, profile as u64);
    m.append(
        " holds the shared DPI managed by g502d; change dpi.values in the config or use `g502ctl dpi`",
    );
    Error::new(m)
}

fn stages_ascend(v: &Vec<u32>) -> (r: bool)
    ensures
        r == ascending_stages(v@),
{
    let mut i: usize = 0;
    while i < v.len()
        invariant
            i <= v.len(),
            forall|j: int| 0 <= j < i ==> #[trigger] v@[j] > 0,
            forall|j: int, k: int| 0 <= j < k < i ==> #[trigger] v@[j] < #[trigger] v@[k],
        decreases v.len() - i,
    {
        if v[i] == 0 {
            assert(v@[i as int] == 0);
            return false;
        }
        if i > 0 && v[i - 1] >= v[i] {
            assert(v@[i - 1] >= v@[i as int]);
            return false;
        }
        i += 1;
    }
    true
}

fn check_profile(dpi: &DpiConfig, profile: u32, p: &ProfileConfig) -> (r: Result<(), Error>)
    ensures
        is_outcome(r, profile_rules(dpi@, profile, p@)),
{
    if let Some(c) = &p.color {
        if let Err(e) = parse_color(c.as_str()) {
            return Err(e.context(profile_key_text(profile, "color")));
        }
    }
    check_slots(dpi, profile, p)
}

/// What the config says about a profile leaves the shared slot of a synced one alone.
pub fn check_slots(dpi: &DpiConfig, profile: u32, p: &ProfileConfig) -> (r: Result<(), Error>)
    ensures
        is_outcome(r, slot_rules(dpi@, profile, p@)),
{
    let ghost listed = listing(p.resolutions@);
    let slots = pairs(&p.resolutions);
    let mut named = false;
    let mut i: usize = 0;
    while i < slots.len()
        invariant
            i <= slots.len(),
            listed == listing(p.resolutions@),
            slots.len() == listed.len(),
            forall|j: int| 0 <= j < slots.len() ==> (#[trigger] slots@[j]).0 == listed[j].0,
            named == exists|j: int| 0 <= j < i && (#[trigger] listed[j]).0 == dpi.shared_slot,
        decreases slots.len() - i,
    {
        let key: u32 = slots[i].0;
        assert(listed[i as int].0 == key);
        if key == dpi.shared_slot {
            named = true;
        }
        i += 1;
    }
    assert(named == has_key(listed, dpi.shared_slot));
    if named && holds(&dpi.profiles, profile) {
        return Err(
            shared_slot_error(profile, dpi.shared_slot).context(
                profile_key_text(profile, "resolutions"),
            ),
        );
    }
    Ok(())
}

impl Config {
    /// The config that was found; the defaults where there is none.
    pub fn or_defaults(found: Option<Config>) -> (r: Config)
        ensures
            r@ == (match found {
                Some(c) => c@,
                None => default_config(),
            }),
    {
        match found {
            Some(c) => c,
            None => Config::default(),
        }
    }

    /// Check the rules that a config has to meet.
    pub fn validate(&self) -> (r: Result<(), Error>)
        ensures
            is_outcome(r, rules(self@)),
    {
        let v = &self.dpi.values;
        if v.len() == 0 {
            return Err(Error::new("dpi.values must not be empty".to_owned()));
        }
        if !stages_ascend(v) {
            let mut m = "dpi.values must be positive and strictly ascending, got ".to_owned();
            let list = list_text(v);
            m.append(list.as_str());
            return Err(Error::new(m));
        }
        if self.dpi.profiles.len() == 0 {
            return Err(Error::new("dpi.profiles must list at least one profile".to_owned()));
        }
        let profiles = pairs(&self.profiles);
        let mut i: usize = 0;
        while i < profiles.len()
            invariant
                i <= profiles.len(),
                profiles.len() == self@.profiles.len(),
                forall|j: int|
                    0 <= j < profiles.len() ==> ((#[trigger] profiles@[j]).0, profiles@[j].1@)
                        == self@.profiles[j],
                rules(self@) == profiles_rules(self@, self@.profiles.len()),
                profiles_rules(self@, i as nat) is Ok,
            decreases profiles.len() - i,
        {
            let (index, p) = profiles[i];
            assert((index, p@) == self@.profiles[i as int]);
            let checked = check_profile(&self.dpi, index, p);
            i += 1;
            if checked.is_err() {
                proof {
                    lemma_first_broken_rule(self@, i as nat, self@.profiles.len());
                }
                return checked;
            }
        }
        Ok(())
    }
}

/// Once a profile breaks a rule, the profiles after it change nothing.
proof fn lemma_first_broken_rule(c: ConfigModel, n: nat, m: nat)
    requires
        n <= m,
        profiles_rules(c, n) is Err,
    ensures
        profiles_rules(c, m) == profiles_rules(c, n),
    decreases m,
{
    if n < m {
        lemma_first_broken_rule(c, n, (m - 1) as nat);
    }
}

// ---------------------------------------------------------------------------- laws
proof fn lemma_profiles_pass(c: ConfigModel, n: nat)
    requires
        n <= c.profiles.len(),
    ensures
        profiles_rules(c, n) is Ok <==> forall|k: int|
            0 <= k < n ==> profile_rules(c.dpi, (#[trigger] c.profiles[k]).0, c.profiles[k].1) is Ok,
    decreases n,
{
    if n > 0 {
        lemma_profiles_pass(c, (n - 1) as nat);
        if profiles_rules(c, n) is Err && profiles_rules(c, (n - 1) as nat) is Ok {
            assert(profile_rules(c.dpi, c.profiles[n - 1].0, c.profiles[n - 1].1) is Err);
        }
    }
}

/// A config is valid exactly where it has stages, positive and each above the one before, at
/// least one synced profile, colours that are colours, and nothing on the slot that holds the
/// shared DPI of a synced profile.
pub proof fn a_config_is_valid_exactly_where_it_can_be_used(c: Config)
    ensures
        rules(c@) is Ok <==> {
            &&& c.dpi.values@.len() > 0
            &&& c.dpi.values@[0] > 0
            &&& forall|i: int, j: int|
                0 <= i < j < c.dpi.values@.len() ==> #[trigger] c.dpi.values@[i]
                    < #[trigger] c.dpi.values@[j]
            &&& c.dpi.profiles@.len() > 0
            &&& forall|p: u32| #[trigger]
                c.profiles@.contains_key(p) ==> {
                    &&& c.profiles@[p].color matches Some(x) ==> color_of(x@) is Ok
                    &&& c.dpi.profiles@.contains(p) ==> !c.profiles@[p].resolutions@.contains_key(
                        c.dpi.shared_slot,
                    )
                }
        },
{
    let m = c@;
    let v = c.dpi.values@;
    lemma_profiles_pass(m, m.profiles.len());
    if v.len() > 0 && v[0] > 0 && is_ascending(v) {
        assert forall|i: int| 0 <= i < v.len() implies #[trigger] v[i] > 0 by {
            if i > 0 {
                assert(v[0] < v[i]);
            }
        }
    }
    if profiles_rules(m, m.profiles.len()) is Ok {
        assert forall|p: u32| #[trigger] c.profiles@.contains_key(p) implies {
            &&& c.profiles@[p].color matches Some(x) ==> color_of(x@) is Ok
            &&& c.dpi.profiles@.contains(p) ==> !c.profiles@[p].resolutions@.contains_key(
                c.dpi.shared_slot,
            )
        } by {
            let k = lemma_listed(c.profiles@, p);
            assert(m.profiles[k] == (p, c.profiles@[p]@));
            assert(profile_rules(m.dpi, m.profiles[k].0, m.profiles[k].1) is Ok);
            if c.profiles@[p].resolutions@.contains_key(c.dpi.shared_slot) {
                let j = lemma_listed(c.profiles@[p].resolutions@, c.dpi.shared_slot);
                assert(c.profiles@[p]@.resolutions[j].0 == c.dpi.shared_slot);
                assert(has_key(c.profiles@[p]@.resolutions, c.dpi.shared_slot));
            }
        }
    } else {
        let k = choose|k: int|
            0 <= k < m.profiles.len() && profile_rules(
                m.dpi,
                (#[trigger] m.profiles[k]).0,
                m.profiles[k].1,
            ) is Err;
        lemma_listed_is_entry(c.profiles@, k);
        let p = m.profiles[k].0;
        assert(c.profiles@.contains_key(p));
        if has_key(c.profiles@[p]@.resolutions, c.dpi.shared_slot) {
            let j = choose|j: int|
                0 <= j < c.profiles@[p]@.resolutions.len() && (
                #[trigger] c.profiles@[p]@.resolutions[j]).0 == c.dpi.shared_slot;
            lemma_listed_is_entry(c.profiles@[p].resolutions@, j);
        }
    }
}

/// A colour is six hexadecimal digits of either case, after an optional `#`: two each for red,
/// green and blue, the first of a pair worth sixteen of the second.
pub proof fn a_color_is_six_digits(s: Seq<char>, d: Seq<char>)
    requires
        s == seq!['#'] + d || (s == d && (d.len() > 0 ==> d[0] != '#')),
    ensures
        color_of(s) is Ok <==> d.len() == 6 && forall|i: int|
            0 <= i < 6 ==> '0' <= #[trigger] d[i] <= '9' || 'a' <= d[i] <= 'f' || 'A' <= d[i] <= 'F',
        color_of(s) matches Ok((r, g, b)) ==> {
            let v = |c: char|
                if c <= '9' {
                    c as int - '0' as int
                } else if c <= 'F' {
                    c as int - 'A' as int + 10
                } else {
                    c as int - 'a' as int + 10
                };
            &&& r == 16 * v(d[0]) + v(d[1])
            &&& g == 16 * v(d[2]) + v(d[3])
            &&& b == 16 * v(d[4]) + v(d[5])
        },
{
    assert(color_digits(s) =~= d);
    if color_of(s) is Ok {
        assert forall|i: int| 0 <= i < 6 implies '0' <= #[trigger] d[i] <= '9' || 'a' <= d[i] <= 'f'
            || 'A' <= d[i] <= 'F' by {
            assert(hex_value(d[0]) is Some && hex_value(d[1]) is Some);
            assert(hex_value(d[2]) is Some && hex_value(d[3]) is Some);
            assert(hex_value(d[4]) is Some && hex_value(d[5]) is Some);
            assert(i == 0 || i == 1 || i == 2 || i == 3 || i == 4 || i == 5);
        }
    } else if d.len() == 6 && forall|i: int|
        0 <= i < 6 ==> '0' <= #[trigger] d[i] <= '9' || 'a' <= d[i] <= 'f' || 'A' <= d[i] <= 'F' {
        assert forall|i: int| 0 <= i < d.len() implies hex_value(#[trigger] d[i]) is Some && (
        d[i] as u32) < 128 by {}
        assert(is_ascii(d));
        assert(hex_value(d[0]) is Some && hex_value(d[1]) is Some);
        assert(hex_value(d[2]) is Some && hex_value(d[3]) is Some);
        assert(hex_value(d[4]) is Some && hex_value(d[5]) is Some);
    }
}

/// A config that breaks rules is refused for its stages first, for its synced profiles next,
/// and otherwise for the first entry, by profile number, that breaks one.
pub proof fn the_first_broken_rule_is_reported(c: ConfigModel, k: int)
    requires
        0 <= k < c.profiles.len(),
        c.dpi.values.len() > 0,
        ascending_stages(c.dpi.values),
        c.dpi.profiles.len() > 0,
        profile_rules(c.dpi, c.profiles[k].0, c.profiles[k].1) is Err,
        forall|j: int|
            0 <= j < k ==> profile_rules(c.dpi, (#[trigger] c.profiles[j]).0, c.profiles[j].1) is Ok,
    ensures
        rules(c) == profile_rules(c.dpi, c.profiles[k].0, c.profiles[k].1),
{
    lemma_profiles_pass(c, k as nat);
    assert(profiles_rules(c, (k + 1) as nat) == profile_rules(
        c.dpi,
        c.profiles[k].0,
        c.profiles[k].1,
    ));
    lemma_first_broken_rule(c, (k + 1) as nat, c.profiles.len());
}

} // verus!
