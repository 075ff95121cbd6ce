//! The input engine's decisions: naming input events, what a physical event
//! shows, which mapping an event triggers and what the virtual device then
//! emits, profile and DPI stepping, live activity and button learning.
use vstd::prelude::*;

use crate::bragi::{error_text, linux_code_for_bit, linux_code_table, bit_source, source_for_bit, BragiError};
use crate::model::{find_profile, first_with_id, profile_position, Config, Mapping, MappingView, Profile};
use crate::strmap::{first_key_with, StrMap};
use crate::text::{
    ascii_upper, chars_of, decimal, is_str, lemma_trim_ends, lemma_trim_fixed, lemma_upper_char,
    push_decimal, split_chars, split_on, str_lt, string_of, to_ascii_upper, trim, trim_chars,
    upper_char,
};

verus! {

pub const EV_SYN: u16 = 0;

pub const EV_KEY: u16 = 1;

pub const EV_REL: u16 = 2;

/// How long a released key or a wheel step stays shown as active, in
/// milliseconds.
pub const ACTIVITY_LINGER_MS: u64 = 500;

/// An input event: type, code and value, as evdev and uinput carry them.
#[derive(Clone, Copy, Debug, PartialEq, Eq)]
pub struct InputEvent {
    pub type_: u16,
    pub code: u16,
    pub value: i32,
}

pub open spec fn event(type_: u16, code: u16, value: i32) -> InputEvent {
    InputEvent { type_, code, value }
}

/// The synchronization event that closes a batch.
pub open spec fn syn() -> InputEvent {
    event(EV_SYN, 0, 0)
}

// ---------------------------------------------------------------------------
// Event names
// ---------------------------------------------------------------------------

/// The name of an event as profiles refer to it: `EV_REL:<code>:<±1>` for
/// relative motion (the direction only), `EV_KEY:<code>` for everything else.
pub open spec fn event_name(type_: u16, code: u16, value: i32) -> Seq<char> {
    if type_ == EV_REL {
        "EV_REL:"@ + decimal(code as nat) + ":"@ + (if value > 0 {
            "1"@
        } else {
            "-1"@
        })
    } else {
        "EV_KEY:"@ + decimal(code as nat)
    }
}

pub fn event_source(type_: u16, code: u16, value: i32) -> (r: String)
    ensures
        r@ == event_name(type_, code, value),
{
    if type_ == EV_REL {
        let mut v = chars_of("EV_REL:");
        crate::text::push_decimal(&mut v, code as u64);
        crate::text::push_str(&mut v, ":");
        if value > 0 {
            crate::text::push_str(&mut v, "1");
        } else {
            crate::text::push_str(&mut v, "-1");
        }
        string_of(&v)
    } else {
        let mut v = chars_of("EV_KEY:");
        crate::text::push_decimal(&mut v, code as u64);
        string_of(&v)
    }
}

// ---------------------------------------------------------------------------
// Physical input
// ---------------------------------------------------------------------------

/// A physical control changing state, as the interface shows it.
#[derive(Clone, Debug)]
pub struct PhysicalInput {
    pub source: String,
    pub pressed: bool,
    pub pulse: bool,
}

/// Whether an event is shown, and how: key presses and releases, and the
/// wheel axes (codes 6, 8, 11 and 12) as momentary pulses; pointer motion is
/// not shown.
pub open spec fn shown(e: InputEvent) -> Option<(Seq<char>, bool, bool)> {
    if e.type_ == EV_KEY && (e.value == 0 || e.value == 1) {
        Some((event_name(e.type_, e.code, e.value), e.value == 1, false))
    } else if e.type_ == EV_REL && e.value != 0 && (e.code == 6 || e.code == 8 || e.code == 11
        || e.code == 12) {
        Some((event_name(e.type_, e.code, e.value), true, true))
    } else {
        None
    }
}

pub fn physical_input(e: &InputEvent) -> (r: Option<PhysicalInput>)
    ensures
        match shown(*e) {
            Some((source, pressed, pulse)) => r matches Some(p) && p.source@ == source
                && p.pressed == pressed && p.pulse == pulse,
            None => r is None,
        },
{
    if e.type_ == EV_KEY && (e.value == 0 || e.value == 1) {
        Some(
            PhysicalInput {
                source: event_source(e.type_, e.code, e.value),
                pressed: e.value == 1,
                pulse: false,
            },
        )
    } else if e.type_ == EV_REL && e.value != 0 && (e.code == 6 || e.code == 8 || e.code == 11
        || e.code == 12) {
        Some(
            PhysicalInput {
                source: event_source(e.type_, e.code, e.value),
                pressed: true,
                pulse: true,
            },
        )
    } else {
        None
    }
}

// ---------------------------------------------------------------------------
// Key names
// ---------------------------------------------------------------------------

/// The key codes of the named keys.
pub open spec fn named_key(key: Seq<char>) -> Option<u16> {
    if key == "ESC"@ {
        Some(1u16)
    } else if key == "BACKSPACE"@ {
        Some(14u16)
    } else if key == "TAB"@ {
        Some(15u16)
    } else if key == "ENTER"@ {
        Some(28u16)
    } else if key == "CTRL"@ {
        Some(29u16)
    } else if key == "SHIFT"@ {
        Some(42u16)
    } else if key == "ALT"@ {
        Some(56u16)
    } else if key == "SPACE"@ {
        Some(57u16)
    } else if key == "CAPSLOCK"@ {
        Some(58u16)
    } else if key == "F1"@ {
        Some(59u16)
    } else if key == "F2"@ {
        Some(60u16)
    } else if key == "F3"@ {
        Some(61u16)
    } else if key == "F4"@ {
        Some(62u16)
    } else if key == "F5"@ {
        Some(63u16)
    } else if key == "F6"@ {
        Some(64u16)
    } else if key == "F7"@ {
        Some(65u16)
    } else if key == "F8"@ {
        Some(66u16)
    } else if key == "F9"@ {
        Some(67u16)
    } else if key == "F10"@ {
        Some(68u16)
    } else if key == "F11"@ {
        Some(87u16)
    } else if key == "F12"@ {
        Some(88u16)
    } else if key == "F13"@ {
        Some(183u16)
    } else if key == "F14"@ {
        Some(184u16)
    } else if key == "F15"@ {
        Some(185u16)
    } else if key == "F16"@ {
        Some(186u16)
    } else if key == "F17"@ {
        Some(187u16)
    } else if key == "F18"@ {
        Some(188u16)
    } else if key == "F19"@ {
        Some(189u16)
    } else if key == "F20"@ {
        Some(190u16)
    } else if key == "F21"@ {
        Some(191u16)
    } else if key == "F22"@ {
        Some(192u16)
    } else if key == "F23"@ {
        Some(193u16)
    } else if key == "F24"@ {
        Some(194u16)
    } else if key == "HOME"@ {
        Some(102u16)
    } else if key == "UP"@ {
        Some(103u16)
    } else if key == "PAGEUP"@ {
        Some(104u16)
    } else if key == "LEFT"@ {
        Some(105u16)
    } else if key == "RIGHT"@ {
        Some(106u16)
    } else if key == "END"@ {
        Some(107u16)
    } else if key == "DOWN"@ {
        Some(108u16)
    } else if key == "PAGEDOWN"@ {
        Some(109u16)
    } else if key == "INSERT"@ {
        Some(110u16)
    } else if key == "DELETE"@ {
        Some(111u16)
    } else if key == "MUTE"@ {
        Some(113u16)
    } else if key == "VOLUMEDOWN"@ {
        Some(114u16)
    } else if key == "VOLUMEUP"@ {
        Some(115u16)
    } else if key == "META"@ {
        Some(125u16)
    } else if key == "SUPER"@ {
        Some(125u16)
    } else if key == "STOP"@ {
        Some(128u16)
    } else if key == "CALC"@ {
        Some(140u16)
    } else if key == "MAIL"@ {
        Some(155u16)
    } else if key == "BACK"@ {
        Some(158u16)
    } else if key == "FORWARD"@ {
        Some(159u16)
    } else if key == "NEXTSONG"@ {
        Some(163u16)
    } else if key == "PLAYPAUSE"@ {
        Some(164u16)
    } else if key == "PREVIOUSSONG"@ {
        Some(165u16)
    } else if key == "BTN_LEFT"@ {
        Some(272u16)
    } else if key == "BTN_RIGHT"@ {
        Some(273u16)
    } else if key == "BTN_MIDDLE"@ {
        Some(274u16)
    } else if key == "BTN_SIDE"@ {
        Some(275u16)
    } else if key == "BTN_EXTRA"@ {
        Some(276u16)
    } else if key == "BTN_FORWARD"@ {
        Some(277u16)
    } else if key == "BTN_BACK"@ {
        Some(278u16)
    } else {
        None
    }
}

/// Key codes of the letters A to L.
pub open spec fn letters_a_to_l() -> Seq<u16> {
    seq![30u16, 48, 46, 32, 18, 33, 34, 35, 23, 36, 37, 38]
}

/// Key codes of the letters M to Z.
pub open spec fn letters_m_to_z() -> Seq<u16> {
    seq![50u16, 49, 24, 25, 16, 19, 31, 20, 22, 47, 17, 45, 21, 44]
}

/// The key code of a single upper-case letter or digit.
pub open spec fn single_key(c: char) -> Option<u16> {
    if 'A' <= c && c <= 'L' {
        Some(letters_a_to_l()[(c as u32) - 65])
    } else if 'M' <= c && c <= 'Z' {
        Some(letters_m_to_z()[(c as u32) - 77])
    } else if '1' <= c && c <= '9' {
        Some(((c as u32) - 49 + 2) as u16)
    } else if c == '0' {
        Some(11u16)
    } else {
        None
    }
}

/// The Linux key code a key name stands for: the name is trimmed and read
/// without regard to ASCII case.
pub open spec fn key_code_of(name: Seq<char>) -> Option<u16> {
    let key = ascii_upper(trim(name));
    match named_key(key) {
        Some(code) => Some(code),
        None => if key.len() == 1 {
            single_key(key[0])
        } else {
            None
        },
    }
}

fn named_key_code(key: &Vec<char>) -> (r: Option<u16>)
    ensures
        r == named_key(key@),
{
    if is_str(key, "ESC") {
        return Some(1);
    }
    if is_str(key, "BACKSPACE") {
        return Some(14);
    }
    if is_str(key, "TAB") {
        return Some(15);
    }
    if is_str(key, "ENTER") {
        return Some(28);
    }
    if is_str(key, "CTRL") {
        return Some(29);
    }
    if is_str(key, "SHIFT") {
        return Some(42);
    }
    if is_str(key, "ALT") {
        return Some(56);
    }
    if is_str(key, "SPACE") {
        return Some(57);
    }
    if is_str(key, "CAPSLOCK") {
        return Some(58);
    }
    if is_str(key, "F1") {
        return Some(59);
    }
    if is_str(key, "F2") {
        return Some(60);
    }
    if is_str(key, "F3") {
        return Some(61);
    }
    if is_str(key, "F4") {
        return Some(62);
    }
    if is_str(key, "F5") {
        return Some(63);
    }
    if is_str(key, "F6") {
        return Some(64);
    }
    if is_str(key, "F7") {
        return Some(65);
    }
    if is_str(key, "F8") {
        return Some(66);
    }
    if is_str(key, "F9") {
        return Some(67);
    }
    if is_str(key, "F10") {
        return Some(68);
    }
    if is_str(key, "F11") {
        return Some(87);
    }
    if is_str(key, "F12") {
        return Some(88);
    }
    if is_str(key, "F13") {
        return Some(183);
    }
    if is_str(key, "F14") {
        return Some(184);
    }
    if is_str(key, "F15") {
        return Some(185);
    }
    if is_str(key, "F16") {
        return Some(186);
    }
    if is_str(key, "F17") {
        return Some(187);
    }
    if is_str(key, "F18") {
        return Some(188);
    }
    if is_str(key, "F19") {
        return Some(189);
    }
    if is_str(key, "F20") {
        return Some(190);
    }
    if is_str(key, "F21") {
        return Some(191);
    }
    if is_str(key, "F22") {
        return Some(192);
    }
    if is_str(key, "F23") {
        return Some(193);
    }
    if is_str(key, "F24") {
        return Some(194);
    }
    if is_str(key, "HOME") {
        return Some(102);
    }
    if is_str(key, "UP") {
        return Some(103);
    }
    if is_str(key, "PAGEUP") {
        return Some(104);
    }
    if is_str(key, "LEFT") {
        return Some(105);
    }
    if is_str(key, "RIGHT") {
        return Some(106);
    }
    if is_str(key, "END") {
        return Some(107);
    }
    if is_str(key, "DOWN") {
        return Some(108);
    }
    if is_str(key, "PAGEDOWN") {
        return Some(109);
    }
    if is_str(key, "INSERT") {
        return Some(110);
    }
    if is_str(key, "DELETE") {
        return Some(111);
    }
    if is_str(key, "MUTE") {
        return Some(113);
    }
    if is_str(key, "VOLUMEDOWN") {
        return Some(114);
    }
    if is_str(key, "VOLUMEUP") {
        return Some(115);
    }
    if is_str(key, "META") {
        return Some(125);
    }
    if is_str(key, "SUPER") {
        return Some(125);
    }
    if is_str(key, "STOP") {
        return Some(128);
    }
    if is_str(key, "CALC") {
        return Some(140);
    }
    if is_str(key, "MAIL") {
        return Some(155);
    }
    if is_str(key, "BACK") {
        return Some(158);
    }
    if is_str(key, "FORWARD") {
        return Some(159);
    }
    if is_str(key, "NEXTSONG") {
        return Some(163);
    }
    if is_str(key, "PLAYPAUSE") {
        return Some(164);
    }
    if is_str(key, "PREVIOUSSONG") {
        return Some(165);
    }
    if is_str(key, "BTN_LEFT") {
        return Some(272);
    }
    if is_str(key, "BTN_RIGHT") {
        return Some(273);
    }
    if is_str(key, "BTN_MIDDLE") {
        return Some(274);
    }
    if is_str(key, "BTN_SIDE") {
        return Some(275);
    }
    if is_str(key, "BTN_EXTRA") {
        return Some(276);
    }
    if is_str(key, "BTN_FORWARD") {
        return Some(277);
    }
    if is_str(key, "BTN_BACK") {
        return Some(278);
    }
    None
}

fn single_key_code(c: char) -> (r: Option<u16>)
    ensures
        r == single_key(c),
{
    if 'A' <= c && c <= 'L' {
        let i = (c as u32) - 65;
        let code: u16 = match i {
            0 => 30,
            1 => 48,
            2 => 46,
            3 => 32,
            4 => 18,
            5 => 33,
            6 => 34,
            7 => 35,
            8 => 23,
            9 => 36,
            10 => 37,
            _ => 38,
        };
        Some(code)
    } else if 'M' <= c && c <= 'Z' {
        let i = (c as u32) - 77;
        let code: u16 = match i {
            0 => 50,
            1 => 49,
            2 => 24,
            3 => 25,
            4 => 16,
            5 => 19,
            6 => 31,
            7 => 20,
            8 => 22,
            9 => 47,
            10 => 17,
            11 => 45,
            12 => 21,
            _ => 44,
        };
        Some(code)
    } else if '1' <= c && c <= '9' {
        Some(((c as u32) - 49 + 2) as u16)
    } else if c == '0' {
        Some(11)
    } else {
        None
    }
}

/// The Linux key code of a key name such as `ctrl`, `F13` or `T`.
pub fn key_code(name: &str) -> (r: Option<u16>)
    ensures
        r == key_code_of(name@),
{
    let chars = chars_of(name);
    key_code_chars(&chars)
}

fn key_code_chars(chars: &Vec<char>) -> (r: Option<u16>)
    ensures
        r == key_code_of(chars@),
{
    let trimmed = trim_chars(chars);
    let key = to_ascii_upper(&trimmed);
    match named_key_code(&key) {
        Some(code) => Some(code),
        None => if key.len() == 1 {
            single_key_code(key[0])
        } else {
            None
        },
    }
}

// ---------------------------------------------------------------------------
// Mappings and actions
// ---------------------------------------------------------------------------

/// The mapping that an event named `source` triggers in the active profile:
/// the control whose source it is (the first in id order), and what that
/// control is mapped to.
pub open spec fn mapping_for(c: Config, source: Seq<char>) -> Option<(Seq<char>, MappingView)> {
    let p = c.profiles@[c.active_index()];
    match first_key_with(p.sources.keys(), p.sources.vals(), source) {
        Some(id) => if p.mappings@.contains_key(id) {
            Some((id, p.mappings@[id]))
        } else {
            None
        },
        None => None,
    }
}

/// Finds the control and mapping that an event named `source` triggers.
pub fn find_mapping(config: &Config, source: &str) -> (r: Option<(String, Mapping)>)
    requires
        config.profiles@.len() > 0,
    ensures
        match mapping_for(*config, source@) {
            Some((id, m)) => r matches Some(found) && found.0@ == id && found.1.deep_view() == m,
            None => r is None,
        },
{
    let profile = config.active();
    match profile.sources.first_key_with_value(source) {
        Some(id) => match profile.mappings.get(id.as_str()) {
            Some(mapping) => Some((id.clone(), mapping.clone())),
            None => None,
        },
        None => None,
    }
}

/// Position after a step through `len` profiles from `index`, wrapping.
pub open spec fn profile_step(index: int, len: int, previous: bool) -> int {
    if previous {
        (index + len - 1) % len
    } else {
        (index + 1) % len
    }
}

/// The DPI stage after one step: up or down the ladder of `len` stages,
/// stopping at its ends.
pub open spec fn dpi_step(active: usize, len: nat, previous: bool) -> usize {
    if previous {
        if active == 0 {
            0
        } else if active - 1 < len {
            (active - 1) as usize
        } else {
            (len - 1) as usize
        }
    } else {
        if active + 1 < len {
            (active + 1) as usize
        } else {
            (len - 1) as usize
        }
    }
}

pub open spec fn with_active_dpi(p: Profile, active_dpi: usize) -> Profile {
    Profile {
        id: p.id,
        name: p.name,
        accent: p.accent,
        dpi_stages: p.dpi_stages,
        active_dpi,
        polling_rate: p.polling_rate,
        lighting: p.lighting,
        mappings: p.mappings,
        sources: p.sources,
    }
}

/// `after` is `before` with the internal action applied: `profile` makes the
/// next (or, for `previous`, the preceding) profile active, wrapping around;
/// `dpi` steps the active profile's DPI stage; anything else changes nothing.
pub open spec fn action_applied(
    before: Config,
    after: Config,
    action: Seq<char>,
    direction: Seq<char>,
) -> bool {
    let previous = direction == "previous"@;
    if action == "profile"@ && before.profiles@.len() > 0 {
        let index = match profile_position(before.profiles@, before.active_profile@) {
            Some(i) => i,
            None => 0,
        };
        &&& after.version == before.version
        &&& after.profiles == before.profiles
        &&& after.active_profile == before.profiles@[profile_step(
            index,
            before.profiles@.len() as int,
            previous,
        )].id
    } else if action == "dpi"@ {
        match profile_position(before.profiles@, before.active_profile@) {
            Some(i) => if before.profiles@[i].dpi_stages@.len() > 0 {
                &&& after.version == before.version
                &&& after.active_profile == before.active_profile
                &&& after.profiles@ == before.profiles@.update(
                    i,
                    with_active_dpi(
                        before.profiles@[i],
                        dpi_step(
                            before.profiles@[i].active_dpi,
                            before.profiles@[i].dpi_stages@.len(),
                            previous,
                        ),
                    ),
                )
            } else {
                after == before
            },
            None => after == before,
        }
    } else {
        after == before
    }
}

/// Applies an internal action: profile or DPI stepping.
pub fn internal_action(config: &mut Config, action: &str, direction: &str)
    ensures
        action_applied(*old(config), *final(config), action@, direction@),
{
    let previous = crate::text::str_eq(direction, "previous");
    if crate::text::str_eq(action, "profile") && config.profiles.len() > 0 {
        let len = config.profiles.len();
        let index = match find_profile(&config.profiles, config.active_profile.as_str()) {
            Some(i) => i,
            None => 0,
        };
        let next = if previous {
            if index == 0 {
                len - 1
            } else {
                index - 1
            }
        } else {
            if index + 1 == len {
                0
            } else {
                index + 1
            }
        };
        assert(next as int == profile_step(index as int, len as int, previous)) by (
        nonlinear_arith)
            requires
                index < len,
                previous ==> next == (if index == 0 {
                    len - 1
                } else {
                    index - 1
                }),
                !previous ==> next == (if index + 1 == len {
                    0
                } else {
                    index + 1
                }),
        ;
        config.active_profile = config.profiles[next].id.clone();
    } else if crate::text::str_eq(action, "dpi") {
        match find_profile(&config.profiles, config.active_profile.as_str()) {
            Some(i) => {
                let len = config.profiles[i].dpi_stages.len();
                if len > 0 {
                    let active = config.profiles[i].active_dpi;
                    let stage = if previous {
                        if active == 0 {
                            0
                        } else if active - 1 < len {
                            active - 1
                        } else {
                            len - 1
                        }
                    } else {
                        if active < len - 1 {
                            active + 1
                        } else {
                            len - 1
                        }
                    };
                    config.profiles[i].active_dpi = stage;
                }
            },
            None => {},
        }
    }
}

// ---------------------------------------------------------------------------
// Laws of stepping
// ---------------------------------------------------------------------------

/// Profiles with pairwise distinct ids.
pub open spec fn distinct_ids(ps: Seq<Profile>) -> bool {
    forall|i: int, j: int|
        0 <= i < j < ps.len() ==> (#[trigger] ps[i]).id@ != (#[trigger] ps[j]).id@
}

proof fn lemma_step_round_trip(i: int, n: int)
    requires
        0 <= i < n,
    ensures
        0 <= profile_step(i, n, false) < n,
        profile_step(profile_step(i, n, false), n, true) == i,
        0 <= profile_step(i, n, true) < n,
        profile_step(profile_step(i, n, true), n, false) == i,
{
    if i + 1 < n {
        assert((i + 1) % n == i + 1) by (nonlinear_arith)
            requires
                0 <= i + 1 < n,
        ;
        assert((i + 1 + n - 1) % n == i) by (nonlinear_arith)
            requires
                0 <= i < n,
        ;
    } else {
        assert((i + 1) % n == 0) by (nonlinear_arith)
            requires
                i + 1 == n,
                n > 0,
        ;
        assert((0 + n - 1) % n == i) by (nonlinear_arith)
            requires
                i == n - 1,
                n > 0,
        ;
    }
    if i > 0 {
        assert((i + n - 1) % n == i - 1) by (nonlinear_arith)
            requires
                0 < i < n,
        ;
        assert((i - 1 + 1) % n == i) by (nonlinear_arith)
            requires
                0 < i < n,
        ;
    } else {
        assert((i + n - 1) % n == n - 1) by (nonlinear_arith)
            requires
                i == 0,
                n > 0,
        ;
        assert((n - 1 + 1) % n == 0) by (nonlinear_arith)
            requires
                n > 0,
        ;
    }
}

/// Stepping to the next profile and then to the previous one (or the other
/// way round) makes the first profile active again, when the active profile is
/// in the list and profile ids are distinct.
pub proof fn lemma_profile_round_trip(
    c0: Config,
    c1: Config,
    c2: Config,
    first: Seq<char>,
    second: Seq<char>,
)
    requires
        c0.profiles@.len() > 0,
        profile_position(c0.profiles@, c0.active_profile@) is Some,
        distinct_ids(c0.profiles@),
        (first == "next"@ && second == "previous"@) || (first == "previous"@ && second
            == "next"@),
        action_applied(c0, c1, "profile"@, first),
        action_applied(c1, c2, "profile"@, second),
    ensures
        c2.profiles == c0.profiles,
        c2.active_profile@ == c0.active_profile@,
{
    reveal_strlit("next");
    reveal_strlit("previous");
    assert("next"@.len() == 4);
    assert("previous"@.len() == 8);
    assert("next"@ != "previous"@);
    let ps = c0.profiles@;
    let n = ps.len() as int;
    let i = choose|i: int| first_with_id(ps, c0.active_profile@, i);
    let forward = first == "previous"@;
    lemma_step_round_trip(i, n);
    let j = profile_step(i, n, forward);
    assert(c1.active_profile@ == ps[j].id@);
    assert(first_with_id(ps, c1.active_profile@, j));
    let k = choose|k: int| first_with_id(ps, c1.active_profile@, k);
    assert(k == j) by {
        if k < j {
            assert(ps[k].id@ != c1.active_profile@);
        } else if k > j {
            assert(ps[j].id@ != c1.active_profile@);
        }
    }
    assert(c1.profiles@ == ps);
    assert(profile_position(c1.profiles@, c1.active_profile@) == Some(j));
    let back = second == "previous"@;
    assert(back == !forward);
    assert(profile_step(j, n, back) == i);
    assert(c2.active_profile == ps[i].id);
}

/// A DPI step keeps the active stage on the ladder.
pub proof fn lemma_dpi_step_on_ladder(active: usize, len: nat, previous: bool)
    requires
        0 < len <= usize::MAX,
    ensures
        dpi_step(active, len, previous) < len,
{
}

/// Stepping the DPI up and then down (or down and then up) returns to the
/// same stage, unless the first step was stopped by the end of the ladder.
pub proof fn lemma_dpi_round_trip(active: usize, len: nat)
    requires
        len <= usize::MAX,
        active < len,
    ensures
        active + 1 < len ==> dpi_step(dpi_step(active, len, false), len, true) == active,
        active > 0 ==> dpi_step(dpi_step(active, len, true), len, false) == active,
        active + 1 == len ==> dpi_step(active, len, false) == active,
        active == 0 ==> dpi_step(active, len, true) == active,
{
}

// ---------------------------------------------------------------------------
// What the virtual device emits
// ---------------------------------------------------------------------------

/// Key codes of the parts of a shortcut such as `CTRL+ALT+T`, in order; parts
/// that name no key are skipped.
pub open spec fn shortcut_codes(parts: Seq<Seq<char>>) -> Seq<u16>
    decreases parts.len(),
{
    if parts.len() == 0 {
        seq![]
    } else {
        let r = shortcut_codes(parts.drop_last());
        match key_code_of(parts.last()) {
            Some(code) => r.push(code),
            None => r,
        }
    }
}

pub open spec fn presses(codes: Seq<u16>) -> Seq<InputEvent> {
    codes.map_values(|code: u16| event(EV_KEY, code, 1))
}

pub open spec fn releases(codes: Seq<u16>) -> Seq<InputEvent> {
    codes.map_values(|code: u16| event(EV_KEY, code, 0))
}

/// A shortcut played as a chord: every key pressed in order, a sync, every key
/// released in reverse order, a sync.
pub open spec fn chord(codes: Seq<u16>) -> Seq<InputEvent> {
    presses(codes) + seq![syn()] + releases(codes.reverse()) + seq![syn()]
}

/// The action an event starts: a press (value above 0) of a control mapped to
/// `dpi` or `profile` yields that action and its direction.
pub open spec fn triggered(c: Config, source: Seq<char>, value: i32) -> Option<
    (Seq<char>, Seq<char>),
> {
    match mapping_for(c, source) {
        Some((id, m)) => if (m.action == "dpi"@ || m.action == "profile"@) && value > 0 {
            Some((m.action, m.value))
        } else {
            None
        },
        None => None,
    }
}

/// What the virtual device emits for an event named `source`: an unmapped or
/// `passthrough` event unchanged; nothing for `disabled` or internal actions;
/// the key of a `key` or `media` mapping (pressed and released at once for
/// wheel motion); the chord of a `shortcut` on press.
pub open spec fn source_output(
    c: Config,
    source: Seq<char>,
    type_: u16,
    code: u16,
    value: i32,
) -> Seq<InputEvent> {
    match mapping_for(c, source) {
        None => seq![event(type_, code, value)],
        Some((id, m)) => if m.action == "passthrough"@ {
            seq![event(type_, code, value)]
        } else if m.action == "disabled"@ {
            seq![]
        } else if (m.action == "dpi"@ || m.action == "profile"@) && value > 0 {
            seq![]
        } else if m.action == "key"@ || m.action == "media"@ {
            match key_code_of(m.value) {
                Some(k) => if type_ == EV_REL {
                    seq![event(EV_KEY, k, 1), event(EV_KEY, k, 0)]
                } else {
                    seq![event(EV_KEY, k, value)]
                },
                None => seq![],
            }
        } else if m.action == "shortcut"@ && value > 0 {
            chord(shortcut_codes(split_on(m.value, '+')))
        } else {
            seq![]
        },
    }
}

fn shortcut_key_codes(value: &str) -> (r: Vec<u16>)
    ensures
        r@ == shortcut_codes(split_on(value@, '+')),
{
    let chars = chars_of(value);
    let parts = split_chars(&chars, '+');
    let ghost spec_parts = split_on(chars@, '+');
    let mut codes: Vec<u16> = Vec::new();
    let mut i: usize = 0;
    while i < parts.len()
        invariant
            i <= parts@.len(),
            parts@.len() == spec_parts.len(),
            forall|k: int| 0 <= k < parts@.len() ==> #[trigger] parts@[k]@ == spec_parts[k],
            codes@ == shortcut_codes(spec_parts.take(i as int)),
        decreases parts.len() - i,
    {
        assert(spec_parts.take(i + 1).drop_last() =~= spec_parts.take(i as int));
        assert(spec_parts.take(i + 1).last() == parts@[i as int]@);
        match key_code_chars(&parts[i]) {
            Some(code) => codes.push(code),
            None => {},
        }
        i = i + 1;
    }
    assert(spec_parts.take(parts.len() as int) =~= spec_parts);
    codes
}

fn push_chord(out: &mut Vec<InputEvent>, codes: &Vec<u16>)
    ensures
        final(out)@ == old(out)@ + chord(codes@),
{
    let mut i: usize = 0;
    while i < codes.len()
        invariant
            i <= codes@.len(),
            out@ == old(out)@ + presses(codes@.take(i as int)),
        decreases codes.len() - i,
    {
        out.push(InputEvent { type_: EV_KEY, code: codes[i], value: 1 });
        i = i + 1;
        assert(out@ =~= old(out)@ + presses(codes@.take(i as int)));
    }
    assert(codes@.take(codes@.len() as int) =~= codes@);
    out.push(InputEvent { type_: EV_SYN, code: 0, value: 0 });
    let ghost mid = out@;
    let mut j: usize = codes.len();
    while j > 0
        invariant
            j <= codes@.len(),
            out@ == mid + releases(codes@.reverse().take(codes@.len() - j)),
        decreases j,
    {
        j = j - 1;
        out.push(InputEvent { type_: EV_KEY, code: codes[j], value: 0 });
        assert(codes@.reverse()[codes@.len() - j - 1] == codes@[j as int]);
        assert(out@ =~= mid + releases(codes@.reverse().take(codes@.len() - j)));
    }
    assert(codes@.reverse().take(codes@.len() as int) =~= codes@.reverse());
    out.push(InputEvent { type_: EV_SYN, code: 0, value: 0 });
    assert(final(out)@ =~= old(out)@ + chord(codes@));
}

/// Handles one event named `source`: returns what the virtual device must
/// emit, and applies the internal action the event starts, if any.
pub fn process_source_event(
    config: &mut Config,
    source: &str,
    type_: u16,
    code: u16,
    value: i32,
) -> (r: Vec<InputEvent>)
    requires
        old(config).profiles@.len() > 0,
    ensures
        r@ == source_output(*old(config), source@, type_, code, value),
        match triggered(*old(config), source@, value) {
            Some((action, direction)) => action_applied(
                *old(config),
                *final(config),
                action,
                direction,
            ),
            None => *final(config) == *old(config),
        },
{
    let mut out: Vec<InputEvent> = Vec::new();
    let (_id, mapping) = match find_mapping(config, source) {
        None => {
            out.push(InputEvent { type_, code, value });
            assert(out@ =~= seq![event(type_, code, value)]);
            return out;
        },
        Some(found) => found,
    };
    let action = chars_of(mapping.action.as_str());
    let internal = (is_str(&action, "dpi") || is_str(&action, "profile")) && value > 0;
    if internal {
        internal_action(config, mapping.action.as_str(), mapping.value.as_str());
    }
    if is_str(&action, "passthrough") {
        out.push(InputEvent { type_, code, value });
        assert(out@ =~= seq![event(type_, code, value)]);
    } else if is_str(&action, "disabled") {
    } else if internal {
    } else if is_str(&action, "key") || is_str(&action, "media") {
        match key_code(mapping.value.as_str()) {
            Some(k) => {
                if type_ == EV_REL {
                    out.push(InputEvent { type_: EV_KEY, code: k, value: 1 });
                    out.push(InputEvent { type_: EV_KEY, code: k, value: 0 });
                    assert(out@ =~= seq![event(EV_KEY, k, 1), event(EV_KEY, k, 0)]);
                } else {
                    out.push(InputEvent { type_: EV_KEY, code: k, value });
                    assert(out@ =~= seq![event(EV_KEY, k, value)]);
                }
            },
            None => {},
        }
    } else if is_str(&action, "shortcut") && value > 0 {
        let codes = shortcut_key_codes(mapping.value.as_str());
        push_chord(&mut out, &codes);
        assert(out@ =~= chord(codes@));
    }
    assert(out@ =~= source_output(*old(config), source@, type_, code, value));
    out
}

/// What the virtual device emits for an input event: synchronization events
/// pass through, keys and relative motion go through their mapping, other
/// types are dropped.
pub open spec fn event_output(c: Config, e: InputEvent) -> Seq<InputEvent> {
    if e.type_ == EV_SYN {
        seq![e]
    } else if e.type_ != EV_KEY && e.type_ != EV_REL {
        seq![]
    } else {
        source_output(c, event_name(e.type_, e.code, e.value), e.type_, e.code, e.value)
    }
}

/// The internal action an input event starts, if any.
pub open spec fn event_action(c: Config, e: InputEvent) -> Option<(Seq<char>, Seq<char>)> {
    if e.type_ != EV_KEY && e.type_ != EV_REL {
        None
    } else {
        triggered(c, event_name(e.type_, e.code, e.value), e.value)
    }
}

/// Handles one input event from a grabbed device.
pub fn process_event(config: &mut Config, e: InputEvent) -> (r: Vec<InputEvent>)
    requires
        old(config).profiles@.len() > 0,
    ensures
        r@ == event_output(*old(config), e),
        match event_action(*old(config), e) {
            Some((action, direction)) => action_applied(
                *old(config),
                *final(config),
                action,
                direction,
            ),
            None => *final(config) == *old(config),
        },
{
    if e.type_ == EV_SYN {
        let mut out: Vec<InputEvent> = Vec::new();
        out.push(e);
        assert(out@ =~= seq![e]);
        return out;
    }
    if e.type_ != EV_KEY && e.type_ != EV_REL {
        return Vec::new();
    }
    let source = event_source(e.type_, e.code, e.value);
    process_source_event(config, source.as_str(), e.type_, e.code, e.value)
}

// ---------------------------------------------------------------------------
// Live activity
// ---------------------------------------------------------------------------

/// The activity map after an event: a key press is held until its release; a
/// release, and a wheel or motion step, stays for the linger time from `now`.
pub open spec fn activity_after(
    m: Map<Seq<char>, Option<u64>>,
    e: InputEvent,
    now: u64,
) -> Map<Seq<char>, Option<u64>> {
    let name = event_name(e.type_, e.code, e.value);
    if e.type_ == EV_KEY {
        if e.value == 1 {
            m.insert(name, None)
        } else if e.value == 0 {
            m.insert(name, Some((now + ACTIVITY_LINGER_MS) as u64))
        } else {
            m
        }
    } else if e.type_ == EV_REL && e.value != 0 {
        m.insert(name, Some((now + ACTIVITY_LINGER_MS) as u64))
    } else {
        m
    }
}

/// Records an event in the activity map at time `now` (milliseconds).
pub fn update_activity(activity: &mut StrMap<Option<u64>>, e: &InputEvent, now: u64)
    requires
        now <= u64::MAX - ACTIVITY_LINGER_MS,
    ensures
        final(activity)@ == activity_after(old(activity)@, *e, now),
{
    if e.type_ == EV_KEY {
        let source = event_source(e.type_, e.code, e.value);
        if e.value == 1 {
            activity.insert(source, None);
        } else if e.value == 0 {
            activity.insert(source, Some(now + ACTIVITY_LINGER_MS));
        }
    } else if e.type_ == EV_REL && e.value != 0 {
        activity.insert(
            event_source(e.type_, e.code, e.value),
            Some(now + ACTIVITY_LINGER_MS),
        );
    }
}

// ---------------------------------------------------------------------------
// Driver state
// ---------------------------------------------------------------------------

/// The input a learning button was identified as.
#[derive(Debug)]
pub struct Capture {
    pub button_id: String,
    pub source: String,
    pub node: String,
}

impl Clone for Capture {
    fn clone(&self) -> (r: Self)
        ensures
            r == *self,
    {
        Capture {
            button_id: self.button_id.clone(),
            source: self.source.clone(),
            node: self.node.clone(),
        }
    }
}

/// What the input engine reports of itself.
#[derive(Clone, Debug)]
pub struct DriverStatus {
    pub running: bool,
    pub permission_required: bool,
    pub input_nodes: Vec<String>,
    pub error: String,
    pub learn_button: String,
    pub last_capture: Option<Capture>,
    pub active_sources: Vec<String>,
}

impl Default for DriverStatus {
    fn default() -> (r: Self)
        ensures
            !r.running,
            !r.permission_required,
            r.input_nodes@.len() == 0,
            r.error@.len() == 0,
            r.learn_button@.len() == 0,
            r.last_capture is None,
            r.active_sources@.len() == 0,
    {
        DriverStatus {
            running: false,
            permission_required: false,
            input_nodes: Vec::new(),
            error: String::new(),
            learn_button: String::new(),
            last_capture: None,
            active_sources: Vec::new(),
        }
    }
}

fn copy_strings(v: &Vec<String>) -> (r: Vec<String>)
    ensures
        r@ == v@,
{
    let mut r: Vec<String> = Vec::new();
    let mut i: usize = 0;
    while i < v.len()
        invariant
            i <= v@.len(),
            r@ == v@.take(i as int),
        decreases v.len() - i,
    {
        r.push(v[i].clone());
        i = i + 1;
        assert(r@ =~= v@.take(i as int));
    }
    assert(v@.take(v@.len() as int) =~= v@);
    r
}

fn copy_capture(c: &Option<Capture>) -> (r: Option<Capture>)
    ensures
        r == *c,
{
    match c {
        Some(capture) => Some(capture.clone()),
        None => None,
    }
}

/// `after` is `before` with its error message replaced.
pub open spec fn error_set(before: DriverStatus, after: DriverStatus, error: Seq<char>) -> bool {
    &&& after.running == before.running
    &&& after.permission_required == before.permission_required
    &&& after.input_nodes == before.input_nodes
    &&& after.error@ == error
    &&& after.learn_button == before.learn_button
    &&& after.last_capture == before.last_capture
    &&& after.active_sources == before.active_sources
}

/// The learning step after a press of `source` on `node`: while a button is
/// being learned, the press is recorded as its capture and learning ends.
pub open spec fn capture_after(
    before: DriverStatus,
    after: DriverStatus,
    source: Seq<char>,
    node: Seq<char>,
) -> bool {
    if before.learn_button@.len() > 0 {
        &&& after.learn_button@.len() == 0
        &&& after.last_capture matches Some(c) && c.button_id == before.learn_button
            && c.source@ == source && c.node@ == node
        &&& after.running == before.running
        &&& after.permission_required == before.permission_required
        &&& after.input_nodes == before.input_nodes
        &&& after.error == before.error
        &&& after.active_sources == before.active_sources
    } else {
        after == before
    }
}

/// A press, release or wheel step: an event that identifies the button being
/// learned.
pub open spec fn identifies(e: InputEvent) -> bool {
    e.value != 0 && (e.type_ == EV_KEY || e.type_ == EV_REL)
}

/// The learning state after an event read from `node`: an identifying event is
/// captured while a button is being learned; any other event changes nothing.
pub open spec fn learning_step(
    before: DriverStatus,
    after: DriverStatus,
    e: InputEvent,
    node: Seq<char>,
) -> bool {
    if identifies(e) {
        capture_after(before, after, event_name(e.type_, e.code, e.value), node)
    } else {
        after == before
    }
}

/// The input engine's state: its status, the live activity of the physical
/// controls (keyed by source name, with the time in milliseconds at which each
/// stops being shown, or none while held), and how many readers run.
pub struct InputDriver {
    status: DriverStatus,
    activity: StrMap<Option<u64>>,
    active_readers: usize,
}

pub open spec fn no_nodes_message() -> Seq<char> {
    "No Corsair input nodes found. Reconnect the device after installing udev rules."@
}

impl InputDriver {
    pub closed spec fn current(&self) -> DriverStatus {
        self.status
    }

    pub closed spec fn activity(&self) -> StrMap<Option<u64>> {
        self.activity
    }

    pub closed spec fn readers(&self) -> usize {
        self.active_readers
    }

    /// The driver reports itself running exactly while some reader runs.
    pub open spec fn consistent(&self) -> bool {
        self.current().running == (self.readers() > 0)
    }

    /// A driver for the given input nodes, with no reader running yet; with
    /// no nodes it reports that none were found.
    pub fn new(nodes: Vec<String>) -> (r: Self)
        ensures
            r.current().input_nodes@ == nodes@,
            !r.current().running,
            !r.current().permission_required,
            r.current().learn_button@.len() == 0,
            r.current().last_capture is None,
            r.current().active_sources@.len() == 0,
            r.current().error@ == (if nodes@.len() == 0 {
                no_nodes_message()
            } else {
                Seq::empty()
            }),
            r.activity()@ == Map::<Seq<char>, Option<u64>>::empty(),
            r.readers() == 0,
            r.consistent(),
    {
        let empty = nodes.len() == 0;
        let mut status = DriverStatus::default();
        status.input_nodes = nodes;
        if empty {
            status.error =
                "No Corsair input nodes found. Reconnect the device after installing udev rules.".to_owned();
        }
        InputDriver { status, activity: StrMap::new(), active_readers: 0 }
    }

    /// The virtual output device could not be created.
    pub fn output_failed(&mut self, permission_denied: bool, reason: &str)
        ensures
            final(self).current().permission_required == permission_denied,
            final(self).current().error@ == "Cannot open /dev/uinput: "@ + reason@,
            final(self).current().running == old(self).current().running,
            final(self).current().input_nodes == old(self).current().input_nodes,
            final(self).current().learn_button == old(self).current().learn_button,
            final(self).current().last_capture == old(self).current().last_capture,
            final(self).activity() == old(self).activity(),
            final(self).readers() == old(self).readers(),
            old(self).consistent() ==> final(self).consistent(),
    {
        self.status.permission_required = permission_denied;
        self.status.error = crate::text::concat("Cannot open /dev/uinput: ", reason);
    }

    /// The Wireless SE's control channel could not be enabled: a missing
    /// channel is no error; any other failure is reported.
    pub fn control_failed(&mut self, e: &BragiError)
        ensures
            *e is NotFound ==> final(self).current() == old(self).current(),
            !(*e is NotFound) ==> {
                &&& final(self).current().permission_required == (match *e {
                    BragiError::Io { permission_denied, message } => permission_denied,
                    _ => false,
                })
                &&& final(self).current().error@ == "Cannot enable Wireless SE controls: "@
                    + error_text(*e)
                &&& final(self).current().running == old(self).current().running
                &&& final(self).current().input_nodes == old(self).current().input_nodes
                &&& final(self).current().learn_button == old(self).current().learn_button
                &&& final(self).current().last_capture == old(self).current().last_capture
            },
            final(self).activity() == old(self).activity(),
            final(self).readers() == old(self).readers(),
            old(self).consistent() ==> final(self).consistent(),
    {
        if e.is_not_found() {
            return;
        }
        self.status.permission_required = e.is_permission_denied();
        let message = e.message();
        self.status.error = crate::text::concat(
            "Cannot enable Wireless SE controls: ",
            message.as_str(),
        );
    }

    /// Readers are about to start.
    pub fn readers_starting(&mut self)
        ensures
            error_set(
                old(self).current(),
                final(self).current(),
                "Starting physical input readers\u{2026}"@,
            ),
            final(self).activity() == old(self).activity(),
            final(self).readers() == old(self).readers(),
            old(self).consistent() ==> final(self).consistent(),
    {
        self.status.error = "Starting physical input readers\u{2026}".to_owned();
    }

    /// The control channel's input node joins the reported nodes.
    pub fn add_control_node(&mut self, node: String)
        ensures
            final(self).current().input_nodes@ == old(self).current().input_nodes@.push(node),
            final(self).current().error == old(self).current().error,
            final(self).current().running == old(self).current().running,
            final(self).current().permission_required == old(
                self,
            ).current().permission_required,
            final(self).current().learn_button == old(self).current().learn_button,
            final(self).current().last_capture == old(self).current().last_capture,
            final(self).activity() == old(self).activity(),
            final(self).readers() == old(self).readers(),
            old(self).consistent() ==> final(self).consistent(),
    {
        self.status.input_nodes.push(node);
    }

    /// All readers were launched, `started` of them; with none, the nodes are
    /// reported gone.
    pub fn readers_started(&mut self, started: usize)
        ensures
            started == 0 ==> error_set(
                old(self).current(),
                final(self).current(),
                "Input event nodes disappeared; use Rescan after reconnecting."@,
            ),
            started > 0 ==> final(self).current() == old(self).current(),
            final(self).activity() == old(self).activity(),
            final(self).readers() == old(self).readers(),
            old(self).consistent() ==> final(self).consistent(),
    {
        if started == 0 {
            self.status.error =
                "Input event nodes disappeared; use Rescan after reconnecting.".to_owned();
        }
    }

    /// A reader could not start on `node`: it could not open it (`grab`
    /// false) or not grab it; `control` tells the control channel from an
    /// event node.
    pub fn reader_failed(
        &mut self,
        node: &str,
        control: bool,
        grab: bool,
        permission_denied: bool,
        reason: &str,
    )
        ensures
            final(self).current().permission_required == (old(
                self,
            ).current().permission_required || permission_denied),
            final(self).current().error@ == (if control {
                "Cannot read Wireless SE controls from "@
            } else if grab {
                "Cannot grab "@
            } else {
                "Cannot read "@
            }) + node@ + ": "@ + reason@,
            final(self).current().running == old(self).current().running,
            final(self).current().input_nodes == old(self).current().input_nodes,
            final(self).current().learn_button == old(self).current().learn_button,
            final(self).current().last_capture == old(self).current().last_capture,
            final(self).activity() == old(self).activity(),
            final(self).readers() == old(self).readers(),
            old(self).consistent() ==> final(self).consistent(),
    {
        self.status.permission_required = self.status.permission_required || permission_denied;
        let mut v = if control {
            chars_of("Cannot read Wireless SE controls from ")
        } else if grab {
            chars_of("Cannot grab ")
        } else {
            chars_of("Cannot read ")
        };
        crate::text::push_str(&mut v, node);
        crate::text::push_str(&mut v, ": ");
        crate::text::push_str(&mut v, reason);
        self.status.error = string_of(&v);
    }

    /// A running reader lost its device.
    pub fn disconnected(&mut self, control: bool, reason: &str)
        ensures
            error_set(
                old(self).current(),
                final(self).current(),
                (if control {
                    "Wireless SE control channel disconnected: "@
                } else {
                    "Input disconnected: "@
                }) + reason@,
            ),
            final(self).activity() == old(self).activity(),
            final(self).readers() == old(self).readers(),
            old(self).consistent() ==> final(self).consistent(),
    {
        let prefix = if control {
            "Wireless SE control channel disconnected: "
        } else {
            "Input disconnected: "
        };
        self.status.error = crate::text::concat(prefix, reason);
    }

    /// A reader started: the driver runs and any earlier error is cleared.
    pub fn reader_opened(&mut self)
        ensures
            final(self).readers() == (if old(self).readers() == usize::MAX {
                0
            } else {
                old(self).readers() + 1
            }),
            final(self).current().running,
            !final(self).current().permission_required,
            final(self).current().error@.len() == 0,
            final(self).current().input_nodes == old(self).current().input_nodes,
            final(self).current().learn_button == old(self).current().learn_button,
            final(self).current().last_capture == old(self).current().last_capture,
            final(self).activity() == old(self).activity(),
            old(self).consistent() && old(self).readers() < usize::MAX ==> final(self).consistent(),
    {
        self.active_readers = if self.active_readers == usize::MAX {
            0
        } else {
            self.active_readers + 1
        };
        self.status.running = true;
        self.status.permission_required = false;
        self.status.error = String::new();
    }

    /// A reader stopped; when it was the last, the driver no longer runs.
    pub fn reader_closed(&mut self)
        ensures
            final(self).readers() == (if old(self).readers() == 0 {
                usize::MAX
            } else {
                (old(self).readers() - 1) as usize
            }),
            final(self).current().running == (old(self).current().running && old(self).readers()
                != 1),
            final(self).current().permission_required == old(
                self,
            ).current().permission_required,
            final(self).current().error == old(self).current().error,
            final(self).current().input_nodes == old(self).current().input_nodes,
            final(self).current().learn_button == old(self).current().learn_button,
            final(self).current().last_capture == old(self).current().last_capture,
            final(self).activity() == old(self).activity(),
            old(self).consistent() && old(self).readers() > 0 ==> final(self).consistent(),
    {
        let previous = self.active_readers;
        self.active_readers = if previous == 0 {
            usize::MAX
        } else {
            previous - 1
        };
        if previous == 1 {
            self.status.running = false;
        }
    }

    /// The status at time `now`: activity that has lapsed is dropped, and the
    /// controls still active are listed in ascending order of source name.
    pub fn status(&mut self, now: u64) -> (r: DriverStatus)
        ensures
            final(self).activity()@ == old(self).activity()@.restrict(
                old(self).activity()@.dom().filter(
                    |k: Seq<char>| crate::strmap::live_at(old(self).activity()@[k], now),
                ),
            ),
            final(self).current() == old(self).current(),
            final(self).readers() == old(self).readers(),
            r.running == old(self).current().running,
            r.permission_required == old(self).current().permission_required,
            r.input_nodes@ == old(self).current().input_nodes@,
            r.error == old(self).current().error,
            r.learn_button == old(self).current().learn_button,
            r.last_capture == old(self).current().last_capture,
            r.active_sources@.len() == final(self).activity().keys().len(),
            forall|i: int|
                0 <= i < r.active_sources@.len() ==> #[trigger] r.active_sources@[i]@
                    == final(self).activity().keys()[i],
            forall|i: int, j: int|
                0 <= i < j < r.active_sources@.len() ==> str_lt(
                    #[trigger] r.active_sources@[i]@,
                    #[trigger] r.active_sources@[j]@,
                ),
            forall|k: Seq<char>|
                #![trigger old(self).activity()@.contains_key(k)]
                (exists|i: int| 0 <= i < r.active_sources@.len() && r.active_sources@[i]@ == k)
                    <==> (old(self).activity()@.contains_key(k) && crate::strmap::live_at(
                    old(self).activity()@[k],
                    now,
                )),
            old(self).consistent() ==> final(self).consistent(),
    {
        let ghost before = self.activity@;
        self.activity.retain_live(now);
        let active_sources = self.activity.key_list();
        assert forall|k: Seq<char>| #[trigger] before.contains_key(k) implies (exists|i: int|
            0 <= i < active_sources@.len() && active_sources@[i]@ == k) <==> (
        crate::strmap::live_at(before[k], now)) by {
            assert(self.activity@.contains_key(k) == crate::strmap::live_at(before[k], now));
        }
        assert forall|k: Seq<char>| !#[trigger] before.contains_key(k) implies !(exists|i: int|
            0 <= i < active_sources@.len() && active_sources@[i]@ == k) by {
            assert(!self.activity@.contains_key(k));
        }
        DriverStatus {
            running: self.status.running,
            permission_required: self.status.permission_required,
            input_nodes: copy_strings(&self.status.input_nodes),
            error: self.status.error.clone(),
            learn_button: self.status.learn_button.clone(),
            last_capture: copy_capture(&self.status.last_capture),
            active_sources,
        }
    }

    /// Starts learning `button_id`: the next press identifies it.
    pub fn learn(&mut self, button_id: String)
        ensures
            final(self).current().learn_button == button_id,
            final(self).current().last_capture is None,
            final(self).current().running == old(self).current().running,
            final(self).current().permission_required == old(
                self,
            ).current().permission_required,
            final(self).current().error == old(self).current().error,
            final(self).current().input_nodes == old(self).current().input_nodes,
            final(self).current().active_sources == old(self).current().active_sources,
            final(self).activity() == old(self).activity(),
            final(self).readers() == old(self).readers(),
            old(self).consistent() ==> final(self).consistent(),
    {
        self.status.learn_button = button_id;
        self.status.last_capture = None;
    }

    /// A press of `source` on `node` identifies the button being learned.
    fn capture(&mut self, source: &String, node: &str)
        ensures
            capture_after(old(self).current(), final(self).current(), source@, node@),
            final(self).activity() == old(self).activity(),
            final(self).readers() == old(self).readers(),
    {
        if self.status.learn_button.as_str().unicode_len() > 0 {
            let mut button_id = String::new();
            std::mem::swap(&mut button_id, &mut self.status.learn_button);
            self.status.last_capture = Some(
                Capture { button_id, source: source.clone(), node: node.to_owned() },
            );
        }
    }

    /// Handles an event read from the grabbed device `node` at time `now`:
    /// returns what to show of it and what the virtual device must emit; the
    /// activity, the learning state and the configuration follow it.
    pub fn handle_event(&mut self, config: &mut Config, e: InputEvent, node: &str, now: u64) -> (r: (
        Option<PhysicalInput>,
        Vec<InputEvent>,
    ))
        requires
            old(config).profiles@.len() > 0,
            now <= u64::MAX - ACTIVITY_LINGER_MS,
        ensures
            match shown(e) {
                Some((source, pressed, pulse)) => r.0 matches Some(p) && p.source@ == source
                    && p.pressed == pressed && p.pulse == pulse,
                None => r.0 is None,
            },
            r.1@ == event_output(*old(config), e),
            match event_action(*old(config), e) {
                Some((action, direction)) => action_applied(
                    *old(config),
                    *final(config),
                    action,
                    direction,
                ),
                None => *final(config) == *old(config),
            },
            final(self).activity()@ == activity_after(old(self).activity()@, e, now),
            learning_step(old(self).current(), final(self).current(), e, node@),
            final(self).readers() == old(self).readers(),
            old(self).consistent() ==> final(self).consistent(),
    {
        let physical = physical_input(&e);
        update_activity(&mut self.activity, &e, now);
        if e.value != 0 && (e.type_ == EV_KEY || e.type_ == EV_REL) {
            let source = event_source(e.type_, e.code, e.value);
            self.capture(&source, node);
        }
        let emitted = process_event(config, e);
        (physical, emitted)
    }

    /// Handles a change of extended button `bit` of the control channel
    /// `node` at time `now`: returns what to show and what the virtual device
    /// must emit (the button's Linux key, through its mapping, then a sync).
    pub fn handle_control_button(
        &mut self,
        config: &mut Config,
        bit: u8,
        pressed: bool,
        node: &str,
        now: u64,
    ) -> (r: (PhysicalInput, Vec<InputEvent>))
        requires
            bit < 255,
            old(config).profiles@.len() > 0,
            now <= u64::MAX - ACTIVITY_LINGER_MS,
        ensures
            r.0.source@ == bit_source(bit),
            r.0.pressed == pressed,
            !r.0.pulse,
            r.1@ == source_output(
                *old(config),
                bit_source(bit),
                EV_KEY,
                linux_code_table()[if bit < 15 {
                    bit as int
                } else {
                    15
                }],
                if pressed {
                    1
                } else {
                    0
                },
            ).push(syn()),
            match triggered(
                *old(config),
                bit_source(bit),
                if pressed {
                    1
                } else {
                    0
                },
            ) {
                Some((action, direction)) => action_applied(
                    *old(config),
                    *final(config),
                    action,
                    direction,
                ),
                None => *final(config) == *old(config),
            },
            final(self).activity()@ == old(self).activity()@.insert(
                bit_source(bit),
                if pressed {
                    None
                } else {
                    Some((now + ACTIVITY_LINGER_MS) as u64)
                },
            ),
            pressed ==> capture_after(
                old(self).current(),
                final(self).current(),
                bit_source(bit),
                node@,
            ),
            !pressed ==> final(self).current() == old(self).current(),
            final(self).readers() == old(self).readers(),
            old(self).consistent() ==> final(self).consistent(),
    {
        let source = source_for_bit(bit);
        let physical = PhysicalInput { source: source.clone(), pressed, pulse: false };
        let deadline = if pressed {
            None
        } else {
            Some(now + ACTIVITY_LINGER_MS)
        };
        self.activity.insert(source.clone(), deadline);
        if pressed {
            self.capture(&source, node);
        }
        let value: i32 = if pressed {
            1
        } else {
            0
        };
        let mut emitted = process_source_event(
            config,
            source.as_str(),
            EV_KEY,
            linux_code_for_bit(bit),
            value,
        );
        emitted.push(InputEvent { type_: EV_SYN, code: 0, value: 0 });
        (physical, emitted)
    }
}

// ---------------------------------------------------------------------------
// Laws of the input engine
// ---------------------------------------------------------------------------

/// A key name means the same key once it is trimmed and upper-cased.
pub proof fn lemma_key_name_normal_form(name: Seq<char>)
    ensures
        key_code_of(ascii_upper(trim(name))) == key_code_of(name),
{
    let t = trim(name);
    let u = ascii_upper(t);
    lemma_trim_ends(name);
    if u.len() > 0 {
        lemma_upper_char(t[0]);
        lemma_upper_char(t.last());
        assert(u[0] == upper_char(t[0]));
        assert(u.last() == upper_char(t.last()));
    }
    lemma_trim_fixed(u);
    assert forall|i: int| 0 <= i < u.len() implies #[trigger] upper_char(u[i]) == u[i] by {
        lemma_upper_char(t[i]);
    }
    assert(ascii_upper(u) =~= u);
}

/// A control mapped to a key or a media key sends that key: with the event's
/// own value for a button, and as a press followed by a release for a wheel or
/// motion step. Both actions behave alike, and neither changes a setting.
pub proof fn lemma_key_and_media_send_their_key(
    c: Config,
    source: Seq<char>,
    type_: u16,
    code: u16,
    value: i32,
    k: u16,
)
    requires
        mapping_for(c, source) matches Some((id, m)) && (m.action == "key"@ || m.action
            == "media"@) && key_code_of(m.value) == Some(k),
    ensures
        source_output(c, source, type_, code, value) == (if type_ == EV_REL {
            seq![event(EV_KEY, k, 1), event(EV_KEY, k, 0)]
        } else {
            seq![event(EV_KEY, k, value)]
        }),
        triggered(c, source, value) is None,
{
    reveal_strlit("key");
    reveal_strlit("media");
    reveal_strlit("passthrough");
    reveal_strlit("disabled");
    reveal_strlit("dpi");
    reveal_strlit("profile");
    match mapping_for(c, source) {
        Some((id, m)) => {
            assert("key"@.len() == 3 && "media"@.len() == 5);
            assert("passthrough"@.len() == 11 && "disabled"@.len() == 8);
            assert("profile"@.len() == 7 && "dpi"@.len() == 3);
            assert("key"@[0] != "dpi"@[0]);
            assert(m.action != "passthrough"@);
            assert(m.action != "disabled"@);
            assert(m.action != "dpi"@);
            assert(m.action != "profile"@);
        },
        None => {},
    }
}

/// An event that no control of the active profile claims reaches the virtual
/// device unchanged and changes no setting.
pub proof fn lemma_unmapped_events_pass_through(c: Config, e: InputEvent)
    requires
        e.type_ == EV_KEY || e.type_ == EV_REL,
        mapping_for(c, event_name(e.type_, e.code, e.value)) is None,
    ensures
        event_output(c, e) == seq![e],
        event_action(c, e) is None,
{
}

/// A pressed key stays shown however much time passes, until its release; after
/// the release it is shown for the linger time and no longer.
pub proof fn lemma_press_held_release_lingers(
    m: Map<Seq<char>, Option<u64>>,
    code: u16,
    pressed_at: u64,
    released_at: u64,
    later: u64,
)
    requires
        released_at <= u64::MAX - ACTIVITY_LINGER_MS,
    ensures
        ({
            let held = activity_after(m, event(EV_KEY, code, 1), pressed_at);
            let name = event_name(EV_KEY, code, 1);
            &&& held.contains_key(name)
            &&& crate::strmap::live_at(held[name], later)
            &&& name == event_name(EV_KEY, code, 0)
            &&& ({
                let after = activity_after(held, event(EV_KEY, code, 0), released_at);
                &&& after.contains_key(name)
                &&& crate::strmap::live_at(after[name], later) <==> later < released_at
                    + ACTIVITY_LINGER_MS
            })
        }),
{
}

/// Learning has ended with `button` identified as `source` on `node`.
pub open spec fn captured(s: DriverStatus, button: String, source: Seq<char>, node: Seq<char>) -> bool {
    &&& s.learn_button@.len() == 0
    &&& s.last_capture matches Some(c) && c.button_id == button && c.source@ == source && c.node@
        == node
}

/// Statuses `ss` that follow one another through the events `es`, read from
/// `nodes`, starting while a button is being learned.
pub open spec fn learning_run(
    ss: Seq<DriverStatus>,
    es: Seq<InputEvent>,
    nodes: Seq<Seq<char>>,
) -> bool {
    &&& ss.len() == es.len() + 1
    &&& nodes.len() == es.len()
    &&& ss[0].learn_button@.len() > 0
    &&& forall|i: int|
        0 <= i < es.len() ==> learning_step(#[trigger] ss[i], ss[i + 1], es[i], nodes[i])
}

proof fn lemma_unchanged_before(
    ss: Seq<DriverStatus>,
    es: Seq<InputEvent>,
    nodes: Seq<Seq<char>>,
    f: int,
    k: int,
)
    requires
        learning_run(ss, es, nodes),
        0 <= k <= f < es.len(),
        forall|j: int| 0 <= j < f ==> !identifies(#[trigger] es[j]),
    ensures
        ss[k] == ss[0],
    decreases k,
{
    if k > 0 {
        lemma_unchanged_before(ss, es, nodes, f, k - 1);
        assert(learning_step(ss[k - 1], ss[k], es[k - 1], nodes[k - 1]));
        assert(!identifies(es[k - 1]));
    }
}

proof fn lemma_kept_after(
    ss: Seq<DriverStatus>,
    es: Seq<InputEvent>,
    nodes: Seq<Seq<char>>,
    f: int,
    k: int,
)
    requires
        learning_run(ss, es, nodes),
        0 <= f < es.len(),
        identifies(es[f]),
        forall|j: int| 0 <= j < f ==> !identifies(#[trigger] es[j]),
        f < k < ss.len(),
    ensures
        captured(ss[k], ss[0].learn_button, event_name(es[f].type_, es[f].code, es[f].value), nodes[f]),
    decreases k,
{
    if k == f + 1 {
        lemma_unchanged_before(ss, es, nodes, f, f);
        assert(learning_step(ss[f], ss[f + 1], es[f], nodes[f]));
    } else {
        lemma_kept_after(ss, es, nodes, f, k - 1);
        assert(learning_step(ss[k - 1], ss[k], es[k - 1], nodes[k - 1]));
        assert(ss[k] == ss[k - 1]);
    }
}

/// After a button is set to be learned, the reader's events change nothing
/// until the first one that identifies a button; that one becomes the capture
/// and ends learning, and every later event leaves the capture as it is.
pub proof fn lemma_learning_captures_first_press(
    ss: Seq<DriverStatus>,
    es: Seq<InputEvent>,
    nodes: Seq<Seq<char>>,
    f: int,
)
    requires
        learning_run(ss, es, nodes),
        0 <= f < es.len(),
        identifies(es[f]),
        forall|j: int| 0 <= j < f ==> !identifies(#[trigger] es[j]),
    ensures
        forall|k: int| 0 <= k <= f ==> #[trigger] ss[k] == ss[0],
        forall|k: int|
            f < k < ss.len() ==> captured(
                #[trigger] ss[k],
                ss[0].learn_button,
                event_name(es[f].type_, es[f].code, es[f].value),
                nodes[f],
            ),
{
    assert forall|k: int| 0 <= k <= f implies #[trigger] ss[k] == ss[0] by {
        lemma_unchanged_before(ss, es, nodes, f, k);
    }
    assert forall|k: int| f < k < ss.len() implies captured(
        #[trigger] ss[k],
        ss[0].learn_button,
        event_name(es[f].type_, es[f].code, es[f].value),
        nodes[f],
    ) by {
        lemma_kept_after(ss, es, nodes, f, k);
    }
}

/// Without an identifying event, learning goes on and nothing changes.
pub proof fn lemma_learning_waits_for_a_press(
    ss: Seq<DriverStatus>,
    es: Seq<InputEvent>,
    nodes: Seq<Seq<char>>,
)
    requires
        learning_run(ss, es, nodes),
        forall|j: int| 0 <= j < es.len() ==> !identifies(#[trigger] es[j]),
    ensures
        forall|k: int| 0 <= k < ss.len() ==> #[trigger] ss[k] == ss[0],
{
    assert forall|k: int| 0 <= k < ss.len() implies #[trigger] ss[k] == ss[0] by {
        if k > 0 {
            lemma_waits(ss, es, nodes, k);
        }
    }
}

proof fn lemma_waits(ss: Seq<DriverStatus>, es: Seq<InputEvent>, nodes: Seq<Seq<char>>, k: int)
    requires
        learning_run(ss, es, nodes),
        forall|j: int| 0 <= j < es.len() ==> !identifies(#[trigger] es[j]),
        0 <= k < ss.len(),
    ensures
        ss[k] == ss[0],
    decreases k,
{
    if k > 0 {
        lemma_waits(ss, es, nodes, k - 1);
        assert(learning_step(ss[k - 1], ss[k], es[k - 1], nodes[k - 1]));
        assert(!identifies(es[k - 1]));
    }
}

} // verus!
