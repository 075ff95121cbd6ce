//! The OpenRGB lighting backend: finding the Ironclaw in OpenRGB's device
//! listing, the colour payload of a lighting profile, and the command line
//! that applies it.
use vstd::prelude::*;

use crate::model::{known_lighting_mode, Device, Lighting};
use crate::text::{
    ascii_lower, ascii_upper, chars_of, contains, decimal, has_substring, is_ascii_hexdigit,
    is_hex_color, is_str, is_whitespace, lines, parses_as_usize, parses_usize, push_all, push_str,
    slice_chars, string_of, text_lines, to_ascii_lower, to_ascii_upper, trim, trim_chars, trim_end,
    trim_start, trim_start_char, trim_start_matches, trimmed, upper_char,
};

verus! {

/// What the lighting backend reports.
#[derive(Clone, Debug)]
pub struct RgbStatus {
    pub available: bool,
    pub backend: String,
    pub device_name: String,
    pub reason: String,
    pub last_applied: Option<u64>,
}

impl Default for RgbStatus {
    fn default() -> (r: Self)
        ensures
            !r.available,
            r.backend@.len() == 0,
            r.device_name@.len() == 0,
            r.reason@.len() == 0,
            r.last_applied is None,
    {
        RgbStatus {
            available: false,
            backend: String::new(),
            device_name: String::new(),
            reason: String::new(),
            last_applied: None,
        }
    }
}

/// The lighting backend: its status and the OpenRGB device it drives.
pub struct RgbAdapter {
    pub status: RgbStatus,
    device_selector: String,
}

/// A status that only gives a reason.
pub open spec fn unavailable(s: RgbStatus, reason: Seq<char>) -> bool {
    &&& !s.available
    &&& s.backend@.len() == 0
    &&& s.device_name@.len() == 0
    &&& s.reason@ == reason
    &&& s.last_applied is None
}

pub open spec fn no_device_reason() -> Seq<char> {
    "No Corsair device is connected"@
}

/// `vendor:product` of each device, separated by commas.
pub open spec fn device_ids(ds: Seq<Device>) -> Seq<char>
    decreases ds.len(),
{
    if ds.len() == 0 {
        seq![]
    } else if ds.len() == 1 {
        ds[0].vendor_id@ + ":"@ + ds[0].product_id@
    } else {
        device_ids(ds.drop_last()) + ", "@ + ds.last().vendor_id@ + ":"@ + ds.last().product_id@
    }
}

/// `i` is the first position of `c` in `s`.
pub open spec fn first_index_of(s: Seq<char>, c: char, i: int) -> bool {
    &&& 0 <= i < s.len()
    &&& s[i] == c
    &&& forall|j: int| 0 <= j < i ==> s[j] != c
}

/// `s` split at the first `c`, as `str::split_once` does.
pub open spec fn split_once(s: Seq<char>, c: char) -> Option<(Seq<char>, Seq<char>)> {
    if exists|i: int| first_index_of(s, c, i) {
        let i = choose|i: int| first_index_of(s, c, i);
        Some((s.take(i), s.skip(i + 1)))
    } else {
        None
    }
}

/// An OpenRGB listing line `<index>: <name>` whose name mentions an Ironclaw:
/// the index (the device selector) and the name.
pub open spec fn ironclaw_line(line: Seq<char>) -> Option<(Seq<char>, Seq<char>)> {
    match split_once(trim(line), ':') {
        Some((index, name)) => if parses_as_usize(index) && contains(ascii_lower(name), "ironclaw"@) {
            Some((index, trim(name)))
        } else {
            None
        },
        None => None,
    }
}

/// The first Ironclaw line among `ls`.
pub open spec fn first_ironclaw(ls: Seq<Seq<char>>) -> Option<(Seq<char>, Seq<char>)>
    decreases ls.len(),
{
    if ls.len() == 0 {
        None
    } else {
        match ironclaw_line(ls[0]) {
            Some(found) => Some(found),
            None => first_ironclaw(ls.drop_first()),
        }
    }
}

/// The Ironclaw in OpenRGB's device listing: its selector and name.
pub open spec fn listed_ironclaw(output: Seq<char>) -> Option<(Seq<char>, Seq<char>)> {
    first_ironclaw(lines(output))
}

fn split_once_chars(s: &Vec<char>, c: char) -> (r: Option<(Vec<char>, Vec<char>)>)
    ensures
        match split_once(s@, c) {
            Some((a, b)) => r matches Some(p) && p.0@ == a && p.1@ == b,
            None => r is None,
        },
{
    let mut i: usize = 0;
    while i < s.len()
        invariant
            i <= s@.len(),
            forall|j: int| 0 <= j < i ==> s@[j] != c,
        decreases s.len() - i,
    {
        if s[i] == c {
            assert(first_index_of(s@, c, i as int));
            let ghost k = choose|k: int| first_index_of(s@, c, k);
            assert(k == i) by {
                if k < i {
                    assert(s@[k] != c);
                } else if k > i {
                    assert(s@[i as int] != c);
                }
            }
            let before = slice_chars(s, 0, i);
            let after = slice_chars(s, i + 1, s.len());
            assert(before@ =~= s@.take(i as int));
            assert(after@ =~= s@.skip(i + 1));
            return Some((before, after));
        }
        i = i + 1;
    }
    None
}

fn ironclaw_in_line(line: &Vec<char>) -> (r: Option<(Vec<char>, Vec<char>)>)
    ensures
        match ironclaw_line(line@) {
            Some((a, b)) => r matches Some(p) && p.0@ == a && p.1@ == b,
            None => r is None,
        },
{
    let t = trim_chars(line);
    match split_once_chars(&t, ':') {
        Some((index, name)) => {
            let lower = to_ascii_lower(&name);
            let needle = chars_of("ironclaw");
            if parses_usize(&index) && has_substring(&lower, &needle) {
                Some((index, trim_chars(&name)))
            } else {
                None
            }
        },
        None => None,
    }
}

/// Finds the Ironclaw in OpenRGB's `--list-devices` output: the first line
/// `<index>: <name>` whose name mentions `ironclaw` in any ASCII case.
pub fn openrgb_ironclaw(output: &str) -> (r: Option<(String, String)>)
    ensures
        match listed_ironclaw(output@) {
            Some((selector, name)) => r matches Some(p) && p.0@ == selector && p.1@ == name,
            None => r is None,
        },
{
    let text = chars_of(output);
    let ls = text_lines(&text);
    let ghost all = lines(text@);
    let mut i: usize = 0;
    assert(all.skip(0) =~= all);
    while i < ls.len()
        invariant
            i <= ls@.len(),
            ls@.len() == all.len(),
            all == lines(output@),
            forall|k: int| 0 <= k < ls@.len() ==> #[trigger] ls@[k]@ == all[k],
            first_ironclaw(all) == first_ironclaw(all.skip(i as int)),
        decreases ls.len() - i,
    {
        assert(all.skip(i as int)[0] == all[i as int]);
        match ironclaw_in_line(&ls[i]) {
            Some((selector, name)) => {
                return Some((string_of(&selector), string_of(&name)));
            },
            None => {},
        }
        assert(all.skip(i as int).drop_first() =~= all.skip(i + 1));
        i = i + 1;
    }
    None
}

/// The six hex digits of a colour such as `#38d9c5`: surrounding white space
/// and leading `#` removed.
pub open spec fn color_digits(value: Seq<char>) -> Seq<char> {
    trim_start_char(trim(value), '#')
}

pub open spec fn is_hex6(s: Seq<char>) -> bool {
    s.len() == 6 && forall|i: int| 0 <= i < s.len() ==> is_ascii_hexdigit(s[i])
}

/// A colour as OpenRGB takes it: six upper-case hex digits.
pub open spec fn normalized(value: Seq<char>) -> Result<Seq<char>, Seq<char>> {
    let digits = color_digits(value);
    if is_hex6(digits) {
        Ok(ascii_upper(digits))
    } else {
        Err("Invalid RGB color: "@ + value)
    }
}

pub fn normalized_color(value: &str) -> (r: Result<String, String>)
    ensures
        match normalized(value@) {
            Ok(c) => r matches Ok(s) && s@ == c,
            Err(e) => r matches Err(s) && s@ == e,
        },
{
    let t = trimmed(value);
    let digits = trim_start_matches(&t, '#');
    if is_hex_color(&digits) {
        Ok(string_of(&to_ascii_upper(&digits)))
    } else {
        Err(crate::text::concat("Invalid RGB color: ", value))
    }
}

/// Upper-casing keeps a hex digit a hex digit, and an upper-case one as it is.
proof fn lemma_upper_hexdigit(c: char)
    requires
        is_ascii_hexdigit(c),
    ensures
        is_ascii_hexdigit(upper_char(c)),
        upper_char(upper_char(c)) == upper_char(c),
{
}

/// A colour that normalizes normalizes to itself.
pub proof fn lemma_normalized_is_stable(value: Seq<char>)
    ensures
        normalized(value) matches Ok(c) ==> normalized(c) == Ok::<Seq<char>, Seq<char>>(c),
{
    let d = color_digits(value);
    if is_hex6(d) {
        let c = ascii_upper(d);
        assert forall|i: int| 0 <= i < c.len() implies is_ascii_hexdigit(#[trigger] c[i])
            && upper_char(c[i]) == c[i] by {
            lemma_upper_hexdigit(d[i]);
        }
        assert(!is_whitespace(c[0]) && !is_whitespace(c.last()) && c[0] != '#');
        assert(trim_start(c) == c);
        assert(trim_end(c) == c);
        assert(trim(c) == c);
        assert(trim_start_char(c, '#') == c);
        assert(color_digits(c) == c);
        assert(ascii_upper(c) =~= c);
    }
}

/// A zone is lit unless the profile switches it off.
pub open spec fn zone_lit(zones: Map<Seq<char>, bool>, zone: Seq<char>) -> bool {
    if zones.contains_key(zone) {
        zones[zone]
    } else {
        true
    }
}

pub open spec fn zone_color(zones: Map<Seq<char>, bool>, zone: Seq<char>, color: Seq<char>) -> Seq<
    char,
> {
    if zone_lit(zones, zone) {
        color
    } else {
        "000000"@
    }
}

/// The colours of the three zones, front, wheel and logo, comma separated:
/// the logo takes the primary colour, the wheel the secondary, the front the
/// primary (the secondary for a gradient); switched-off zones and the `off`
/// mode are black.
pub open spec fn colors_payload(l: Lighting) -> Result<Seq<char>, Seq<char>> {
    if l.mode@ == "off"@ {
        Ok("000000"@)
    } else {
        match normalized(l.color@) {
            Err(e) => Err(e),
            Ok(primary) => match normalized(l.secondary_color@) {
                Err(e) => Err(e),
                Ok(secondary) => {
                    let zones = l.zones@;
                    Ok(
                        zone_color(
                            zones,
                            "front"@,
                            if l.mode@ == "gradient"@ {
                                secondary
                            } else {
                                primary
                            },
                        ) + ","@ + zone_color(zones, "wheel"@, secondary) + ","@ + zone_color(
                            zones,
                            "logo"@,
                            primary,
                        ),
                    )
                },
            },
        }
    }
}

fn zone_color_of(lighting: &Lighting, zone: &str, color: &String) -> (r: Vec<char>)
    ensures
        r@ == zone_color(lighting.zones@, zone@, color@),
{
    let lit = match lighting.zones.get(zone) {
        Some(on) => *on,
        None => true,
    };
    if lit {
        chars_of(color.as_str())
    } else {
        chars_of("000000")
    }
}

pub fn lighting_colors(lighting: &Lighting) -> (r: Result<String, String>)
    ensures
        match colors_payload(*lighting) {
            Ok(c) => r matches Ok(s) && s@ == c,
            Err(e) => r matches Err(s) && s@ == e,
        },
{
    if crate::text::str_eq(lighting.mode.as_str(), "off") {
        return Ok("000000".to_owned());
    }
    let primary = match normalized_color(lighting.color.as_str()) {
        Ok(c) => c,
        Err(e) => return Err(e),
    };
    let secondary = match normalized_color(lighting.secondary_color.as_str()) {
        Ok(c) => c,
        Err(e) => return Err(e),
    };
    let gradient = crate::text::str_eq(lighting.mode.as_str(), "gradient");
    let mut v = if gradient {
        zone_color_of(lighting, "front", &secondary)
    } else {
        zone_color_of(lighting, "front", &primary)
    };
    push_str(&mut v, ",");
    let wheel = zone_color_of(lighting, "wheel", &secondary);
    push_all(&mut v, &wheel);
    push_str(&mut v, ",");
    let logo = zone_color_of(lighting, "logo", &primary);
    push_all(&mut v, &logo);
    Ok(string_of(&v))
}

/// The OpenRGB mode that plays a lighting mode.
pub open spec fn openrgb_mode(mode: Seq<char>) -> Option<Seq<char>> {
    if mode == "off"@ || mode == "static"@ || mode == "gradient"@ {
        Some("direct"@)
    } else if mode == "breathing"@ {
        Some("breathing"@)
    } else if mode == "rainbow"@ || mode == "spectrum"@ {
        Some("spectrum cycle"@)
    } else if mode == "wave"@ {
        Some("rainbow wave"@)
    } else if mode == "reactive"@ {
        Some("reactive"@)
    } else {
        None
    }
}

/// OpenRGB is asked for static colours (`direct`) exactly for the off, static
/// and gradient profiles; breathing and reactive profiles keep their effect,
/// rainbow and spectrum become the spectrum cycle and wave the rainbow wave. A
/// mode can be applied exactly when it is one that a profile may name.
pub proof fn lemma_openrgb_mode_meaning(mode: Seq<char>)
    ensures
        (openrgb_mode(mode) == Some("direct"@)) <==> (mode == "off"@ || mode == "static"@ || mode
            == "gradient"@),
        mode == "breathing"@ ==> openrgb_mode(mode) == Some("breathing"@),
        mode == "reactive"@ ==> openrgb_mode(mode) == Some("reactive"@),
        mode == "rainbow"@ || mode == "spectrum"@ ==> openrgb_mode(mode) == Some(
            "spectrum cycle"@,
        ),
        mode == "wave"@ ==> openrgb_mode(mode) == Some("rainbow wave"@),
        openrgb_mode(mode) is Some <==> known_lighting_mode(mode),
{
    reveal_strlit("direct");
    reveal_strlit("breathing");
    reveal_strlit("reactive");
    reveal_strlit("spectrum cycle");
    reveal_strlit("rainbow wave");
    reveal_strlit("off");
    reveal_strlit("static");
    reveal_strlit("gradient");
    reveal_strlit("rainbow");
    reveal_strlit("spectrum");
    reveal_strlit("wave");
    assert("direct"@.len() == 6 && "breathing"@.len() == 9 && "reactive"@.len() == 8);
    assert("spectrum cycle"@.len() == 14 && "rainbow wave"@.len() == 12);
    assert("off"@.len() == 3 && "static"@.len() == 6 && "gradient"@.len() == 8);
    assert("rainbow"@.len() == 7 && "spectrum"@.len() == 8 && "wave"@.len() == 4);
    assert("gradient"@[0] != "reactive"@[0] && "gradient"@[0] != "spectrum"@[0]);
    assert("reactive"@[0] != "spectrum"@[0]);
}

fn openrgb_mode_of(mode: &str) -> (r: Option<&'static str>)
    ensures
        match openrgb_mode(mode@) {
            Some(m) => r matches Some(s) && s@ == m,
            None => r is None,
        },
{
    let m = chars_of(mode);
    if is_str(&m, "off") || is_str(&m, "static") || is_str(&m, "gradient") {
        Some("direct")
    } else if is_str(&m, "breathing") {
        Some("breathing")
    } else if is_str(&m, "rainbow") || is_str(&m, "spectrum") {
        Some("spectrum cycle")
    } else if is_str(&m, "wave") {
        Some("rainbow wave")
    } else if is_str(&m, "reactive") {
        Some("reactive")
    } else {
        None
    }
}

/// The arguments of the `openrgb` command that applies a lighting profile.
pub open spec fn openrgb_args(
    selector: Seq<char>,
    mode: Seq<char>,
    colors: Seq<char>,
    brightness: u8,
    speed: u8,
) -> Seq<Seq<char>> {
    seq![
        "--device"@,
        selector,
        "--mode"@,
        mode,
        "--color"@,
        colors,
        "--brightness"@,
        decimal(brightness as nat),
        "--speed"@,
        decimal(speed as nat),
        "--noautoconnect"@,
        "--loglevel"@,
        "2"@,
    ]
}

impl RgbAdapter {
    pub closed spec fn selector(&self) -> Seq<char> {
        self.device_selector@
    }

    /// The status, as the contracts see it: the `status` field, which
    /// verified code outside this module reads through `status_report`.
    pub closed spec fn report(&self) -> RgbStatus {
        self.status
    }

    /// The status that the backend reports.
    pub fn status_report(&self) -> (r: &RgbStatus)
        ensures
            *r == self.report(),
    {
        &self.status
    }

    /// The backend before OpenRGB was asked: waiting, or without a device.
    pub fn pending(devices: &[Device]) -> (r: Self)
        ensures
            unavailable(
                r.report(),
                if devices@.len() == 0 {
                    no_device_reason()
                } else {
                    "Checking OpenRGB for a compatible Ironclaw controller\u{2026}"@
                },
            ),
            r.selector().len() == 0,
    {
        let mut status = RgbStatus::default();
        status.reason = if devices.len() == 0 {
            "No Corsair device is connected".to_owned()
        } else {
            "Checking OpenRGB for a compatible Ironclaw controller\u{2026}".to_owned()
        };
        RgbAdapter { status, device_selector: String::new() }
    }

    /// The backend from OpenRGB's device listing (`None` when OpenRGB could
    /// not be run); without devices the listing is not consulted.
    pub fn probe(devices: &[Device], listing: Option<String>) -> (r: Self)
        ensures
            devices@.len() == 0 ==> unavailable(r.report(), no_device_reason()) && r.selector().len()
                == 0,
            devices@.len() > 0 ==> match listing {
                None => unavailable(r.report(), "OpenRGB is not installed"@) && r.selector().len()
                    == 0,
                Some(text) => match listed_ironclaw(text@) {
                    None => unavailable(
                        r.report(),
                        "OpenRGB is installed, but does not expose the connected Ironclaw ("@
                            + device_ids(devices@)
                            + "). Lighting profiles and previews remain available."@,
                    ) && r.selector().len() == 0,
                    Some((selector, name)) => {
                        &&& r.report().available
                        &&& r.report().backend@ == "OpenRGB CLI"@
                        &&& r.report().device_name@ == name
                        &&& r.report().reason@.len() == 0
                        &&& r.report().last_applied is None
                        &&& r.selector() == selector
                    },
                },
            },
    {
        let mut status = RgbStatus::default();
        if devices.len() == 0 {
            status.reason = "No Corsair device is connected".to_owned();
            return RgbAdapter { status, device_selector: String::new() };
        }
        let text = match listing {
            None => {
                status.reason = "OpenRGB is not installed".to_owned();
                return RgbAdapter { status, device_selector: String::new() };
            },
            Some(text) => text,
        };
        match openrgb_ironclaw(text.as_str()) {
            None => {
                let mut reason = chars_of(
                    "OpenRGB is installed, but does not expose the connected Ironclaw (",
                );
                let ids = ids_of(devices);
                push_all(&mut reason, &ids);
                push_str(&mut reason, "). Lighting profiles and previews remain available.");
                status.reason = string_of(&reason);
                RgbAdapter { status, device_selector: String::new() }
            },
            Some((selector, device_name)) => {
                status.available = true;
                status.backend = "OpenRGB CLI".to_owned();
                status.device_name = device_name;
                RgbAdapter { status, device_selector: selector }
            },
        }
    }
}

impl RgbAdapter {
    /// The `openrgb` arguments that apply `lighting`, or why it cannot be
    /// applied: the backend is unavailable (its reason), the mode has no
    /// OpenRGB counterpart, or a colour is invalid.
    pub fn apply(&self, lighting: &Lighting) -> (r: Result<Vec<String>, String>)
        ensures
            !self.report().available ==> (r matches Err(e) && e == self.report().reason),
            self.report().available ==> match openrgb_mode(lighting.mode@) {
                None => r matches Err(e) && e@ == "Unsupported RGB mode"@,
                Some(mode) => match colors_payload(*lighting) {
                    Err(e) => r matches Err(s) && s@ == e,
                    Ok(colors) => r matches Ok(args) && args@.len() == 13 && (forall|i: int|
                        0 <= i < 13 ==> #[trigger] args@[i]@ == openrgb_args(
                            self.selector(),
                            mode,
                            colors,
                            lighting.brightness,
                            lighting.speed,
                        )[i]),
                },
            },
    {
        if !self.status.available {
            return Err(self.status.reason.clone());
        }
        let mode = match openrgb_mode_of(lighting.mode.as_str()) {
            Some(m) => m,
            None => return Err("Unsupported RGB mode".to_owned()),
        };
        let colors = match lighting_colors(lighting) {
            Ok(c) => c,
            Err(e) => return Err(e),
        };
        let args = vec![
            "--device".to_owned(),
            self.device_selector.clone(),
            "--mode".to_owned(),
            mode.to_owned(),
            "--color".to_owned(),
            colors,
            "--brightness".to_owned(),
            crate::text::decimal_string(lighting.brightness as u64),
            "--speed".to_owned(),
            crate::text::decimal_string(lighting.speed as u64),
            "--noautoconnect".to_owned(),
            "--loglevel".to_owned(),
            "2".to_owned(),
        ];
        Ok(args)
    }

    /// Records how the `openrgb` command ended: on success the time it was
    /// applied (seconds since the epoch, when known); on failure its trimmed
    /// output is the error.
    pub fn finish_apply(&mut self, success: bool, output: &str, now: Option<u64>) -> (r: Result<
        (),
        String,
    >)
        ensures
            success ==> r is Ok && final(self).report().last_applied == now,
            !success ==> (r matches Err(e) && e@ == trim(output@)) && final(self).report()
                == old(self).report(),
            final(self).report().available == old(self).report().available,
            final(self).report().backend == old(self).report().backend,
            final(self).report().device_name == old(self).report().device_name,
            final(self).report().reason == old(self).report().reason,
            final(self).selector() == old(self).selector(),
    {
        if !success {
            return Err(string_of(&trimmed(output)));
        }
        self.status.last_applied = now;
        Ok(())
    }
}

fn ids_of(devices: &[Device]) -> (r: Vec<char>)
    ensures
        r@ == device_ids(devices@),
{
    let mut r: Vec<char> = Vec::new();
    let mut i: usize = 0;
    while i < devices.len()
        invariant
            i <= devices@.len(),
            r@ == device_ids(devices@.take(i as int)),
        decreases devices.len() - i,
    {
        let ghost prefix = devices@.take(i + 1);
        assert(prefix.drop_last() =~= devices@.take(i as int));
        if i > 0 {
            push_str(&mut r, ", ");
        }
        push_str(&mut r, devices[i].vendor_id.as_str());
        push_str(&mut r, ":");
        push_str(&mut r, devices[i].product_id.as_str());
        i = i + 1;
        if i == 1 {
            assert(r@ =~= device_ids(devices@.take(i as int)));
        } else {
            assert(r@ =~= device_ids(devices@.take(i as int)));
        }
    }
    assert(devices@.take(devices@.len() as int) =~= devices@);
    r
}

} // verus!
