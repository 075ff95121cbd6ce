//! The configuration model: profiles, their button mappings and lighting, the
//! rules a profile must obey, the built-in defaults, and the device list that
//! discovery builds from what the system reports.
use vstd::prelude::*;

use crate::strmap::StrMap;
use crate::text::{
    chars_of, is_ascii_digit, is_ascii_lower, is_str, is_whitespace, trim, trimmed, utf8_len,
    utf8_longer_than,
};


verus! {

// ---------------------------------------------------------------------------
// Types
// ---------------------------------------------------------------------------

/// A connected Corsair device.
#[derive(Clone, Debug)]
pub struct Device {
    pub id: String,
    pub vendor_id: String,
    pub product_id: String,
    pub name: String,
    pub serial: String,
    pub transport: String,
    pub connected: bool,
    pub protocol_supported: bool,
    pub input_nodes: Vec<String>,
}

/// The abstract value of a [`Device`].
pub struct DeviceView {
    pub id: Seq<char>,
    pub vendor_id: Seq<char>,
    pub product_id: Seq<char>,
    pub name: Seq<char>,
    pub serial: Seq<char>,
    pub transport: Seq<char>,
    pub connected: bool,
    pub protocol_supported: bool,
    pub input_nodes: Seq<Seq<char>>,
}

impl View for Device {
    type V = DeviceView;

    open spec fn view(&self) -> DeviceView {
        DeviceView {
            id: self.id@,
            vendor_id: self.vendor_id@,
            product_id: self.product_id@,
            name: self.name@,
            serial: self.serial@,
            transport: self.transport@,
            connected: self.connected,
            protocol_supported: self.protocol_supported,
            input_nodes: self.input_nodes@.map_values(|s: String| s@),
        }
    }
}

/// What a button does: an action kind, its argument and a label.
#[derive(Debug)]
pub struct Mapping {
    pub action: String,
    pub value: String,
    pub label: String,
}

/// The abstract value of a [`Mapping`].
pub struct MappingView {
    pub action: Seq<char>,
    pub value: Seq<char>,
    pub label: Seq<char>,
}

impl DeepView for Mapping {
    type V = MappingView;

    open spec fn deep_view(&self) -> MappingView {
        MappingView { action: self.action@, value: self.value@, label: self.label@ }
    }
}

impl Clone for Mapping {
    fn clone(&self) -> (r: Self)
        ensures
            r == *self,
    {
        Mapping {
            action: self.action.clone(),
            value: self.value.clone(),
            label: self.label.clone(),
        }
    }
}

/// The lighting of one profile.
#[derive(Clone, Debug)]
pub struct Lighting {
    pub mode: String,
    pub color: String,
    pub secondary_color: String,
    pub brightness: u8,
    pub speed: u8,
    pub zones: StrMap<bool>,
}

/// A profile: DPI stages, polling rate, lighting, what each button does
/// (`mappings`) and which input event each button is (`sources`).
#[derive(Clone, Debug)]
pub struct Profile {
    pub id: String,
    pub name: String,
    pub accent: String,
    pub dpi_stages: Vec<u32>,
    pub active_dpi: usize,
    pub polling_rate: u32,
    pub lighting: Lighting,
    pub mappings: StrMap<Mapping>,
    pub sources: StrMap<String>,
}

/// The saved configuration: its profiles and which one is active.
#[derive(Clone, Debug)]
pub struct Config {
    pub version: u8,
    pub active_profile: String,
    pub profiles: Vec<Profile>,
}

/// A physical control of the mouse as the interface presents it.
#[derive(Clone, Debug)]
pub struct ButtonDefinition {
    pub id: &'static str,
    pub name: &'static str,
    pub source: &'static str,
}

// ---------------------------------------------------------------------------
// Buttons
// ---------------------------------------------------------------------------

/// The controls of the mouse, in presentation order: id, name, source.
pub open spec fn button_table() -> Seq<(Seq<char>, Seq<char>, Seq<char>)> {
    seq![
        ("mouse1"@, "Left click"@, "BTN_LEFT"@),
        ("mouse2"@, "Right click"@, "BTN_RIGHT"@),
        ("mouse3"@, "Wheel click"@, "BTN_MIDDLE"@),
        ("wheelup"@, "Wheel up"@, "REL_WHEEL_UP"@),
        ("wheeldn"@, "Wheel down"@, "REL_WHEEL_DOWN"@),
        ("dpiup"@, "DPI up"@, "LEARN"@),
        ("dpidn"@, "DPI down"@, "LEARN"@),
        ("profup"@, "Profile up"@, "LEARN"@),
        ("profdn"@, "Profile down"@, "LEARN"@),
        ("forward"@, "Forward"@, "BTN_FORWARD"@),
        ("back"@, "Back"@, "BTN_BACK"@),
        ("option"@, "Option"@, "LEARN"@),
    ]
}

fn button(id: &'static str, name: &'static str, source: &'static str) -> (r: ButtonDefinition)
    ensures
        r.id@ == id@,
        r.name@ == name@,
        r.source@ == source@,
{
    ButtonDefinition { id, name, source }
}

/// The controls of the mouse.
pub fn buttons() -> (r: Vec<ButtonDefinition>)
    ensures
        r@.len() == button_table().len(),
        forall|i: int|
            0 <= i < r@.len() ==> (#[trigger] r@[i].id@, r@[i].name@, r@[i].source@)
                == button_table()[i],
{
    let r = vec![
        button("mouse1", "Left click", "BTN_LEFT"),
        button("mouse2", "Right click", "BTN_RIGHT"),
        button("mouse3", "Wheel click", "BTN_MIDDLE"),
        button("wheelup", "Wheel up", "REL_WHEEL_UP"),
        button("wheeldn", "Wheel down", "REL_WHEEL_DOWN"),
        button("dpiup", "DPI up", "LEARN"),
        button("dpidn", "DPI down", "LEARN"),
        button("profup", "Profile up", "LEARN"),
        button("profdn", "Profile down", "LEARN"),
        button("forward", "Forward", "BTN_FORWARD"),
        button("back", "Back", "BTN_BACK"),
        button("option", "Option", "LEARN"),
    ];
    assert forall|i: int| 0 <= i < r@.len() implies (#[trigger] r@[i].id@, r@[i].name@, r@[i].source@)
        == button_table()[i] by {}
    r
}

// ---------------------------------------------------------------------------
// Defaults
// ---------------------------------------------------------------------------

pub open spec fn mapping_view(action: Seq<char>, value: Seq<char>, label: Seq<char>) -> MappingView {
    MappingView { action, value, label }
}

/// What each control does in the built-in profile: the centre P+ and P-
/// controls walk the DPI ladder, the side D+ and D- controls send Page Up and
/// Page Down.
pub open spec fn default_mappings() -> Map<Seq<char>, MappingView> {
    map![
        "mouse1"@ => mapping_view("passthrough"@, "BTN_LEFT"@, "Left click"@),
        "mouse2"@ => mapping_view("passthrough"@, "BTN_RIGHT"@, "Right click"@),
        "mouse3"@ => mapping_view("passthrough"@, "BTN_MIDDLE"@, "Wheel click"@),
        "wheelup"@ => mapping_view("passthrough"@, "REL_WHEEL_UP"@, "Scroll up"@),
        "wheeldn"@ => mapping_view("passthrough"@, "REL_WHEEL_DOWN"@, "Scroll down"@),
        "dpiup"@ => mapping_view("key"@, "PAGEUP"@, "Page Up"@),
        "dpidn"@ => mapping_view("key"@, "PAGEDOWN"@, "Page Down"@),
        "profup"@ => mapping_view("dpi"@, "next"@, "Next DPI"@),
        "profdn"@ => mapping_view("dpi"@, "previous"@, "Previous DPI"@),
        "forward"@ => mapping_view("passthrough"@, "BTN_FORWARD"@, "Forward"@),
        "back"@ => mapping_view("passthrough"@, "BTN_BACK"@, "Back"@),
        "option"@ => mapping_view("shortcut"@, "CTRL+ALT+T"@, "Open terminal"@)
    ]
}

/// Which input event each control is in the built-in profile.
pub open spec fn default_sources() -> Map<Seq<char>, Seq<char>> {
    map![
        "mouse1"@ => "EV_KEY:272"@,
        "mouse2"@ => "EV_KEY:273"@,
        "mouse3"@ => "EV_KEY:274"@,
        "wheelup"@ => "EV_REL:8:1"@,
        "wheeldn"@ => "EV_REL:8:-1"@,
        "forward"@ => "EV_KEY:277"@,
        "back"@ => "EV_KEY:278"@
    ]
}

/// The built-in lighting zones, all lit.
pub open spec fn default_zones() -> Map<Seq<char>, bool> {
    map!["logo"@ => true, "wheel"@ => true, "front"@ => true]
}

/// The built-in profile.
pub open spec fn is_default_profile(p: Profile) -> bool {
    &&& p.id@ == "desktop"@
    &&& p.name@ == "Desktop"@
    &&& p.accent@ == "#38d9c5"@
    &&& p.dpi_stages@ == seq![800u32, 1600u32, 3200u32]
    &&& p.active_dpi == 1
    &&& p.polling_rate == 1000
    &&& p.lighting.mode@ == "static"@
    &&& p.lighting.color@ == "#38d9c5"@
    &&& p.lighting.secondary_color@ == "#ff6b35"@
    &&& p.lighting.brightness == 72
    &&& p.lighting.speed == 45
    &&& p.lighting.zones@ == default_zones()
    &&& p.mappings@ == default_mappings()
    &&& p.sources@ == default_sources()
}

fn mapping(action: &str, value: &str, label: &str) -> (r: Mapping)
    ensures
        r.deep_view() == mapping_view(action@, value@, label@),
{
    Mapping { action: action.to_owned(), value: value.to_owned(), label: label.to_owned() }
}

impl Default for Config {
    /// One profile, `desktop`, which is active.
    fn default() -> (r: Self)
        ensures
            r.version == 1,
            r.active_profile@ == "desktop"@,
            r.profiles@.len() == 1,
            is_default_profile(r.profiles@[0]),
    {
        let mut mappings: StrMap<Mapping> = StrMap::new();
        mappings.insert("mouse1".to_owned(), mapping("passthrough", "BTN_LEFT", "Left click"));
        mappings.insert("mouse2".to_owned(), mapping("passthrough", "BTN_RIGHT", "Right click"));
        mappings.insert("mouse3".to_owned(), mapping("passthrough", "BTN_MIDDLE", "Wheel click"));
        mappings.insert("wheelup".to_owned(), mapping("passthrough", "REL_WHEEL_UP", "Scroll up"));
        mappings.insert(
            "wheeldn".to_owned(),
            mapping("passthrough", "REL_WHEEL_DOWN", "Scroll down"),
        );
        mappings.insert("dpiup".to_owned(), mapping("key", "PAGEUP", "Page Up"));
        mappings.insert("dpidn".to_owned(), mapping("key", "PAGEDOWN", "Page Down"));
        mappings.insert("profup".to_owned(), mapping("dpi", "next", "Next DPI"));
        mappings.insert("profdn".to_owned(), mapping("dpi", "previous", "Previous DPI"));
        mappings.insert("forward".to_owned(), mapping("passthrough", "BTN_FORWARD", "Forward"));
        mappings.insert("back".to_owned(), mapping("passthrough", "BTN_BACK", "Back"));
        mappings.insert("option".to_owned(), mapping("shortcut", "CTRL+ALT+T", "Open terminal"));
        let mut sources: StrMap<String> = StrMap::new();
        sources.insert("mouse1".to_owned(), "EV_KEY:272".to_owned());
        sources.insert("mouse2".to_owned(), "EV_KEY:273".to_owned());
        sources.insert("mouse3".to_owned(), "EV_KEY:274".to_owned());
        sources.insert("wheelup".to_owned(), "EV_REL:8:1".to_owned());
        sources.insert("wheeldn".to_owned(), "EV_REL:8:-1".to_owned());
        sources.insert("forward".to_owned(), "EV_KEY:277".to_owned());
        sources.insert("back".to_owned(), "EV_KEY:278".to_owned());
        let mut zones: StrMap<bool> = StrMap::new();
        zones.insert("logo".to_owned(), true);
        zones.insert("wheel".to_owned(), true);
        zones.insert("front".to_owned(), true);
        let lighting = Lighting {
            mode: "static".to_owned(),
            color: "#38d9c5".to_owned(),
            secondary_color: "#ff6b35".to_owned(),
            brightness: 72,
            speed: 45,
            zones,
        };
        let profile = Profile {
            id: "desktop".to_owned(),
            name: "Desktop".to_owned(),
            accent: "#38d9c5".to_owned(),
            dpi_stages: vec![800, 1600, 3200],
            active_dpi: 1,
            polling_rate: 1000,
            lighting,
            mappings,
            sources,
        };
        let active_profile = profile.id.clone();
        let r = Config { version: 1, active_profile, profiles: vec![profile] };
        assert(r.profiles@[0].dpi_stages@ =~= seq![800u32, 1600u32, 3200u32]);
        r
    }
}

// ---------------------------------------------------------------------------
// The active profile
// ---------------------------------------------------------------------------

/// `i` is the first position of a profile with id `id`.
pub open spec fn first_with_id(ps: Seq<Profile>, id: Seq<char>, i: int) -> bool {
    &&& 0 <= i < ps.len()
    &&& ps[i].id@ == id
    &&& forall|j: int| 0 <= j < i ==> (#[trigger] ps[j]).id@ != id
}

/// Position of the first profile with id `id`, if there is one.
pub open spec fn profile_position(ps: Seq<Profile>, id: Seq<char>) -> Option<int> {
    if exists|i: int| first_with_id(ps, id, i) {
        Some(choose|i: int| first_with_id(ps, id, i))
    } else {
        None
    }
}

/// Finds the first profile with id `id`.
pub fn find_profile(ps: &Vec<Profile>, id: &str) -> (r: Option<usize>)
    ensures
        r == (match profile_position(ps@, id@) {
            Some(i) => Some(i as usize),
            None => None,
        }),
        r matches Some(i) ==> first_with_id(ps@, id@, i as int),
        r is None ==> forall|j: int| 0 <= j < ps@.len() ==> (#[trigger] ps@[j]).id@ != id@,
{
    let mut i: usize = 0;
    while i < ps.len()
        invariant
            i <= ps@.len(),
            forall|j: int| 0 <= j < i ==> (#[trigger] ps@[j]).id@ != id@,
        decreases ps.len() - i,
    {
        if crate::text::str_eq(ps[i].id.as_str(), id) {
            assert(first_with_id(ps@, id@, i as int));
            let ghost c = choose|c: int| first_with_id(ps@, id@, c);
            assert(c == i) by {
                if c < i {
                    assert(ps@[c].id@ != id@);
                } else if c > i {
                    assert(ps@[i as int].id@ != id@);
                }
            }
            return Some(i);
        }
        i = i + 1;
    }
    None
}

// ---------------------------------------------------------------------------
// Validation
// ---------------------------------------------------------------------------

pub open spec fn valid_id_char(c: char) -> bool {
    is_ascii_lower(c) || is_ascii_digit(c) || c == '-' || c == '_'
}

pub open spec fn dpi_in_range(dpi: u32) -> bool {
    100 <= dpi <= 26000
}

pub open spec fn supported_polling_rate(rate: u32) -> bool {
    rate == 125 || rate == 250 || rate == 500 || rate == 1000 || rate == 2000
}

/// The lighting modes a profile may name.
pub open spec fn known_lighting_mode(mode: Seq<char>) -> bool {
    ||| mode == "static"@
    ||| mode == "gradient"@
    ||| mode == "breathing"@
    ||| mode == "rainbow"@
    ||| mode == "spectrum"@
    ||| mode == "wave"@
    ||| mode == "reactive"@
    ||| mode == "off"@
}

/// The first rule that `p` breaks, as the message that reports it.
pub open spec fn profile_problem(p: Profile) -> Option<Seq<char>> {
    if p.id@.len() == 0 || utf8_len(p.id@) > 32 || !(forall|i: int|
        0 <= i < p.id@.len() ==> valid_id_char(#[trigger] p.id@[i])) {
        Some("Invalid profile id"@)
    } else if trim(p.name@).len() == 0 || utf8_len(p.name@) > 40 {
        Some("Profile name must be 1\u{2013}40 characters"@)
    } else if p.dpi_stages@.len() == 0 || p.dpi_stages@.len() > 6 || (exists|i: int|
        0 <= i < p.dpi_stages@.len() && !dpi_in_range(#[trigger] p.dpi_stages@[i])) {
        Some("Profiles need 1\u{2013}6 DPI stages between 100 and 26000"@)
    } else if p.active_dpi >= p.dpi_stages@.len() {
        Some("Active DPI stage is out of range"@)
    } else if !supported_polling_rate(p.polling_rate) {
        Some("Unsupported polling rate"@)
    } else if !known_lighting_mode(p.lighting.mode@) {
        Some("Unsupported lighting mode"@)
    } else if p.lighting.brightness > 100 || p.lighting.speed > 100 {
        Some("Lighting values must be 0\u{2013}100"@)
    } else {
        None
    }
}

fn id_chars_valid(id: &Vec<char>) -> (r: bool)
    ensures
        r == (forall|i: int| 0 <= i < id@.len() ==> valid_id_char(#[trigger] id@[i])),
{
    let mut i: usize = 0;
    while i < id.len()
        invariant
            i <= id.len(),
            forall|j: int| 0 <= j < i ==> valid_id_char(#[trigger] id@[j]),
        decreases id.len() - i,
    {
        let c = id[i];
        if !(('a' <= c && c <= 'z') || ('0' <= c && c <= '9') || c == '-' || c == '_') {
            assert(!valid_id_char(id@[i as int]));
            return false;
        }
        i = i + 1;
    }
    true
}

fn dpi_stages_valid(stages: &Vec<u32>) -> (r: bool)
    ensures
        r == !(stages@.len() == 0 || stages@.len() > 6 || (exists|i: int|
            0 <= i < stages@.len() && !dpi_in_range(#[trigger] stages@[i]))),
{
    if stages.len() == 0 || stages.len() > 6 {
        return false;
    }
    let mut i: usize = 0;
    while i < stages.len()
        invariant
            i <= stages@.len(),
            forall|j: int| 0 <= j < i ==> dpi_in_range(#[trigger] stages@[j]),
        decreases stages.len() - i,
    {
        let dpi = stages[i];
        if !(100 <= dpi && dpi <= 26000) {
            assert(!dpi_in_range(stages@[i as int]));
            return false;
        }
        i = i + 1;
    }
    true
}

fn lighting_mode_known(mode: &Vec<char>) -> (r: bool)
    ensures
        r == known_lighting_mode(mode@),
{
    is_str(mode, "static") || is_str(mode, "gradient") || is_str(mode, "breathing") || is_str(
        mode,
        "rainbow",
    ) || is_str(mode, "spectrum") || is_str(mode, "wave") || is_str(mode, "reactive") || is_str(
        mode,
        "off",
    )
}

// ---------------------------------------------------------------------------
// Device defaults
// ---------------------------------------------------------------------------

/// A Wireless SE (`1b1c:2b32`) is among the devices.
pub open spec fn wireless_se_connected(devices: Seq<Device>) -> bool {
    exists|i: int|
        0 <= i < devices.len() && (#[trigger] devices[i]).vendor_id@ == "1b1c"@
            && devices[i].product_id@ == "2b32"@
}

/// The extended-channel sources that a Wireless SE gives its extra controls.
pub open spec fn extended_sources() -> Seq<(Seq<char>, Seq<char>)> {
    seq![
        ("forward"@, "BRAGI_BUTTON:4"@),
        ("back"@, "BRAGI_BUTTON:5"@),
        ("dpiup"@, "BRAGI_BUTTON:6"@),
        ("dpidn"@, "BRAGI_BUTTON:7"@),
        ("profup"@, "BRAGI_BUTTON:8"@),
        ("profdn"@, "BRAGI_BUTTON:9"@),
        ("option"@, "BRAGI_BUTTON:10"@),
    ]
}

/// A source that earlier versions assigned to `button` and that the extended
/// channel replaces.
pub open spec fn legacy_source(button: Seq<char>, current: Seq<char>) -> bool {
    ||| button == "forward"@ && (current == "EV_KEY:276"@ || current == "EV_KEY:277"@)
    ||| button == "back"@ && (current == "EV_KEY:275"@ || current == "EV_KEY:278"@)
    ||| button == "dpiup"@ && current == "BRAGI_BUTTON:8"@
    ||| button == "dpidn"@ && current == "BRAGI_BUTTON:9"@
    ||| button == "profup"@ && current == "BRAGI_BUTTON:6"@
    ||| button == "profdn"@ && current == "BRAGI_BUTTON:7"@
}

/// `button` has no source yet, or a legacy one.
pub open spec fn needs_source(m: Map<Seq<char>, Seq<char>>, button: Seq<char>) -> bool {
    !m.contains_key(button) || legacy_source(button, m[button])
}

/// `m` after the first `n` extended sources were given where needed.
pub open spec fn upgraded(m: Map<Seq<char>, Seq<char>>, n: nat) -> Map<Seq<char>, Seq<char>>
    decreases n,
{
    if n == 0 {
        m
    } else {
        let prev = upgraded(m, (n - 1) as nat);
        let d = extended_sources()[n - 1];
        if needs_source(prev, d.0) {
            prev.insert(d.0, d.1)
        } else {
            prev
        }
    }
}

/// Some of the first `n` extended sources had to be given.
pub open spec fn upgrade_changes(m: Map<Seq<char>, Seq<char>>, n: nat) -> bool
    decreases n,
{
    if n == 0 {
        false
    } else {
        upgrade_changes(m, (n - 1) as nat) || needs_source(
            upgraded(m, (n - 1) as nat),
            extended_sources()[n - 1].0,
        )
    }
}

/// The sources of every profile with the extended sources given.
pub open spec fn upgraded_sources(m: Map<Seq<char>, Seq<char>>) -> Map<Seq<char>, Seq<char>> {
    upgraded(m, 7)
}

/// Profiles equal in everything but their sources.
pub open spec fn same_but_sources(a: Profile, b: Profile) -> bool {
    &&& a.id == b.id
    &&& a.name == b.name
    &&& a.accent == b.accent
    &&& a.dpi_stages == b.dpi_stages
    &&& a.active_dpi == b.active_dpi
    &&& a.polling_rate == b.polling_rate
    &&& a.lighting == b.lighting
    &&& a.mappings == b.mappings
}

/// `after` is `before` with the Wireless SE's extended sources given, and
/// `changed` whether any profile needed them; without a Wireless SE nothing
/// changes.
pub open spec fn defaults_applied(before: Config, after: Config, devices: Seq<Device>, changed: bool) -> bool {
    if !wireless_se_connected(devices) {
        after == before && !changed
    } else {
        &&& after.version == before.version
        &&& after.active_profile == before.active_profile
        &&& after.profiles@.len() == before.profiles@.len()
        &&& forall|i: int|
            0 <= i < before.profiles@.len() ==> {
                &&& same_but_sources(#[trigger] after.profiles@[i], before.profiles@[i])
                &&& after.profiles@[i].sources@ == upgraded_sources(before.profiles@[i].sources@)
            }
        &&& changed == exists|i: int|
            0 <= i < before.profiles@.len() && upgrade_changes(
                (#[trigger] before.profiles@[i]).sources@,
                7,
            )
    }
}

/// Every extra control has a source, and none a legacy one.
pub open spec fn has_extended_sources(m: Map<Seq<char>, Seq<char>>) -> bool {
    forall|k: int|
        0 <= k < 7 ==> m.contains_key(#[trigger] extended_sources()[k].0) && !legacy_source(
            extended_sources()[k].0,
            m[extended_sources()[k].0],
        )
}

proof fn lemma_extended_sources_distinct()
    ensures
        forall|a: int, b: int|
            0 <= a < 7 && 0 <= b < 7 && a != b ==> (#[trigger] extended_sources()[a]).0
                != (#[trigger] extended_sources()[b]).0,
        forall|k: int|
            0 <= k < 7 ==> !legacy_source(
                (#[trigger] extended_sources()[k]).0,
                extended_sources()[k].1,
            ),
{
    reveal_strlit("forward");
    reveal_strlit("back");
    reveal_strlit("dpiup");
    reveal_strlit("dpidn");
    reveal_strlit("profup");
    reveal_strlit("profdn");
    reveal_strlit("option");
    reveal_strlit("BRAGI_BUTTON:4");
    reveal_strlit("BRAGI_BUTTON:5");
    reveal_strlit("BRAGI_BUTTON:6");
    reveal_strlit("BRAGI_BUTTON:7");
    reveal_strlit("BRAGI_BUTTON:8");
    reveal_strlit("BRAGI_BUTTON:9");
    reveal_strlit("BRAGI_BUTTON:10");
    reveal_strlit("EV_KEY:275");
    reveal_strlit("EV_KEY:276");
    reveal_strlit("EV_KEY:277");
    reveal_strlit("EV_KEY:278");
    assert("forward"@.len() == 7);
    assert("back"@.len() == 4);
    assert("dpiup"@.len() == 5);
    assert("dpidn"@.len() == 5);
    assert("profup"@.len() == 6);
    assert("profdn"@.len() == 6);
    assert("option"@.len() == 6);
    assert("dpiup"@[3] != "dpidn"@[3]);
    assert("profup"@[0] != "option"@[0]);
    assert("profdn"@[0] != "option"@[0]);
    assert("profup"@[4] != "profdn"@[4]);
    assert("BRAGI_BUTTON:4"@.len() == 14);
    assert("BRAGI_BUTTON:5"@.len() == 14);
    assert("BRAGI_BUTTON:6"@.len() == 14);
    assert("BRAGI_BUTTON:7"@.len() == 14);
    assert("BRAGI_BUTTON:8"@.len() == 14);
    assert("BRAGI_BUTTON:9"@.len() == 14);
    assert("EV_KEY:276"@.len() == 10);
    assert("EV_KEY:275"@.len() == 10);
    assert("EV_KEY:277"@.len() == 10);
    assert("EV_KEY:278"@.len() == 10);
    assert("BRAGI_BUTTON:6"@[13] != "BRAGI_BUTTON:8"@[13]);
    assert("BRAGI_BUTTON:7"@[13] != "BRAGI_BUTTON:9"@[13]);
    assert("BRAGI_BUTTON:8"@[13] != "BRAGI_BUTTON:6"@[13]);
    assert("BRAGI_BUTTON:9"@[13] != "BRAGI_BUTTON:7"@[13]);
}

proof fn lemma_upgraded_has_extended_sources(m: Map<Seq<char>, Seq<char>>, n: nat)
    requires
        n <= 7,
    ensures
        forall|k: int|
            0 <= k < n ==> upgraded(m, n).contains_key(#[trigger] extended_sources()[k].0)
                && !legacy_source(extended_sources()[k].0, upgraded(m, n)[extended_sources()[k].0]),
    decreases n,
{
    lemma_extended_sources_distinct();
    if n > 0 {
        lemma_upgraded_has_extended_sources(m, (n - 1) as nat);
        let prev = upgraded(m, (n - 1) as nat);
        let d = extended_sources()[n - 1];
        assert forall|k: int| 0 <= k < n implies upgraded(m, n).contains_key(
            #[trigger] extended_sources()[k].0,
        ) && !legacy_source(extended_sources()[k].0, upgraded(m, n)[extended_sources()[k].0]) by {
            if k < n - 1 {
                assert(extended_sources()[k].0 != d.0);
            }
        }
    }
}

proof fn lemma_upgrade_fixed(m: Map<Seq<char>, Seq<char>>, n: nat)
    requires
        n <= 7,
        has_extended_sources(m),
    ensures
        upgraded(m, n) == m,
        !upgrade_changes(m, n),
    decreases n,
{
    if n > 0 {
        lemma_upgrade_fixed(m, (n - 1) as nat);
        let k = n - 1;
        assert(m.contains_key(extended_sources()[k].0));
    }
}

proof fn lemma_upgraded_at(m: Map<Seq<char>, Seq<char>>, n: nat)
    requires
        n <= 7,
    ensures
        forall|k: int|
            0 <= k < n ==> upgraded(m, n).contains_key(#[trigger] extended_sources()[k].0)
                && upgraded(m, n)[extended_sources()[k].0] == (if needs_source(
                m,
                extended_sources()[k].0,
            ) {
                extended_sources()[k].1
            } else {
                m[extended_sources()[k].0]
            }),
        forall|x: Seq<char>|
            #![trigger upgraded(m, n).contains_key(x)]
            #![trigger upgraded(m, n)[x]]
            (forall|k: int| 0 <= k < n ==> x != (#[trigger] extended_sources()[k]).0) ==> (
            upgraded(m, n).contains_key(x) == m.contains_key(x) && upgraded(m, n)[x] == m[x]),
    decreases n,
{
    lemma_extended_sources_distinct();
    if n > 0 {
        lemma_upgraded_at(m, (n - 1) as nat);
        let prev = upgraded(m, (n - 1) as nat);
        let d = extended_sources()[n - 1];
        assert(prev.contains_key(d.0) == m.contains_key(d.0) && prev[d.0] == m[d.0]) by {
            assert forall|k: int| 0 <= k < n - 1 implies d.0 != (
            #[trigger] extended_sources()[k]).0 by {
                assert(extended_sources()[k].0 != d.0);
            }
        }
        assert(needs_source(prev, d.0) == needs_source(m, d.0));
        assert forall|k: int| 0 <= k < n implies upgraded(m, n).contains_key(
            #[trigger] extended_sources()[k].0,
        ) && upgraded(m, n)[extended_sources()[k].0] == (if needs_source(
            m,
            extended_sources()[k].0,
        ) {
            extended_sources()[k].1
        } else {
            m[extended_sources()[k].0]
        }) by {
            if k < n - 1 {
                assert(extended_sources()[k].0 != d.0);
            }
        }
    }
}

/// With a Wireless SE connected, each extra control of every profile is read
/// from the extended channel (forward, back, dpiup, dpidn, profup, profdn and
/// option from buttons 4 to 10) wherever it had no source or one that earlier
/// versions assigned; every other control keeps its source.
pub proof fn lemma_wireless_se_gets_extended_sources(
    before: Config,
    after: Config,
    devices: Seq<Device>,
    changed: bool,
    i: int,
)
    requires
        defaults_applied(before, after, devices, changed),
        exists|j: int|
            0 <= j < devices.len() && (#[trigger] devices[j]).vendor_id@ == "1b1c"@
                && devices[j].product_id@ == "2b32"@,
        0 <= i < before.profiles@.len(),
    ensures
        ({
            let b = before.profiles@[i].sources@;
            let a = after.profiles@[i].sources@;
            &&& (!b.contains_key("forward"@) || b["forward"@] == "EV_KEY:276"@ || b["forward"@]
                == "EV_KEY:277"@) ==> a.contains_key("forward"@) && a["forward"@]
                == "BRAGI_BUTTON:4"@
            &&& (!b.contains_key("back"@) || b["back"@] == "EV_KEY:275"@ || b["back"@]
                == "EV_KEY:278"@) ==> a.contains_key("back"@) && a["back"@] == "BRAGI_BUTTON:5"@
            &&& (!b.contains_key("dpiup"@) || b["dpiup"@] == "BRAGI_BUTTON:8"@) ==> a.contains_key(
                "dpiup"@,
            ) && a["dpiup"@] == "BRAGI_BUTTON:6"@
            &&& (!b.contains_key("dpidn"@) || b["dpidn"@] == "BRAGI_BUTTON:9"@) ==> a.contains_key(
                "dpidn"@,
            ) && a["dpidn"@] == "BRAGI_BUTTON:7"@
            &&& (!b.contains_key("profup"@) || b["profup"@] == "BRAGI_BUTTON:6"@)
                ==> a.contains_key("profup"@) && a["profup"@] == "BRAGI_BUTTON:8"@
            &&& (!b.contains_key("profdn"@) || b["profdn"@] == "BRAGI_BUTTON:7"@)
                ==> a.contains_key("profdn"@) && a["profdn"@] == "BRAGI_BUTTON:9"@
            &&& !b.contains_key("option"@) ==> a.contains_key("option"@) && a["option"@]
                == "BRAGI_BUTTON:10"@
            &&& forall|x: Seq<char>|
                #![trigger a.contains_key(x)]
                x != "forward"@ && x != "back"@ && x != "dpiup"@ && x != "dpidn"@ && x
                    != "profup"@ && x != "profdn"@ && x != "option"@ ==> a.contains_key(x)
                    == b.contains_key(x) && a[x] == b[x]
        }),
{
    let b = before.profiles@[i].sources@;
    assert(wireless_se_connected(devices));
    assert(after.profiles@[i].sources@ == upgraded_sources(b));
    lemma_upgraded_at(b, 7);
    let e = extended_sources();
    assert(e[0].0 == "forward"@ && e[0].1 == "BRAGI_BUTTON:4"@);
    assert(e[1].0 == "back"@ && e[1].1 == "BRAGI_BUTTON:5"@);
    assert(e[2].0 == "dpiup"@ && e[2].1 == "BRAGI_BUTTON:6"@);
    assert(e[3].0 == "dpidn"@ && e[3].1 == "BRAGI_BUTTON:7"@);
    assert(e[4].0 == "profup"@ && e[4].1 == "BRAGI_BUTTON:8"@);
    assert(e[5].0 == "profdn"@ && e[5].1 == "BRAGI_BUTTON:9"@);
    assert(e[6].0 == "option"@ && e[6].1 == "BRAGI_BUTTON:10"@);
    let u = upgraded(b, 7);
    assert(u.contains_key(e[0].0) && u.contains_key(e[1].0) && u.contains_key(e[2].0)
        && u.contains_key(e[3].0) && u.contains_key(e[4].0) && u.contains_key(e[5].0)
        && u.contains_key(e[6].0));
    assert forall|x: Seq<char>|
        x != "forward"@ && x != "back"@ && x != "dpiup"@ && x != "dpidn"@ && x != "profup"@ && x
            != "profdn"@ && x != "option"@ implies #[trigger] u.contains_key(x) == b.contains_key(x)
        && u[x] == b[x] by {
        assert forall|k: int| 0 <= k < 7 implies x != (#[trigger] e[k]).0 by {}
    }
}

/// Giving the extended sources twice changes nothing the second time, and the
/// second time reports no change.
pub proof fn lemma_device_defaults_idempotent(
    c0: Config,
    c1: Config,
    c2: Config,
    devices: Seq<Device>,
    first: bool,
    second: bool,
)
    requires
        defaults_applied(c0, c1, devices, first),
        defaults_applied(c1, c2, devices, second),
    ensures
        !second,
        c2.version == c1.version,
        c2.active_profile == c1.active_profile,
        c2.profiles@.len() == c1.profiles@.len(),
        forall|i: int|
            0 <= i < c1.profiles@.len() ==> same_but_sources(#[trigger] c2.profiles@[i], c1.profiles@[i])
                && c2.profiles@[i].sources@ == c1.profiles@[i].sources@,
{
    if wireless_se_connected(devices) {
        assert forall|i: int| 0 <= i < c1.profiles@.len() implies has_extended_sources(
            (#[trigger] c1.profiles@[i]).sources@,
        ) by {
            lemma_upgraded_has_extended_sources(c0.profiles@[i].sources@, 7);
        }
        assert forall|i: int| 0 <= i < c1.profiles@.len() implies !upgrade_changes(
            (#[trigger] c1.profiles@[i]).sources@,
            7,
        ) && upgraded_sources(c1.profiles@[i].sources@) == c1.profiles@[i].sources@ by {
            lemma_upgrade_fixed(c1.profiles@[i].sources@, 7);
        }
    }
}

fn extended_source(k: usize) -> (r: (&'static str, &'static str))
    requires
        k < 7,
    ensures
        r.0@ == extended_sources()[k as int].0,
        r.1@ == extended_sources()[k as int].1,
{
    match k {
        0 => ("forward", "BRAGI_BUTTON:4"),
        1 => ("back", "BRAGI_BUTTON:5"),
        2 => ("dpiup", "BRAGI_BUTTON:6"),
        3 => ("dpidn", "BRAGI_BUTTON:7"),
        4 => ("profup", "BRAGI_BUTTON:8"),
        5 => ("profdn", "BRAGI_BUTTON:9"),
        _ => ("option", "BRAGI_BUTTON:10"),
    }
}

fn is_legacy_source(button: &str, current: &str) -> (r: bool)
    ensures
        r == legacy_source(button@, current@),
{
    let b = chars_of(button);
    let c = chars_of(current);
    (is_str(&b, "forward") && (is_str(&c, "EV_KEY:276") || is_str(&c, "EV_KEY:277"))) || (is_str(
        &b,
        "back",
    ) && (is_str(&c, "EV_KEY:275") || is_str(&c, "EV_KEY:278"))) || (is_str(&b, "dpiup")
        && is_str(&c, "BRAGI_BUTTON:8")) || (is_str(&b, "dpidn") && is_str(&c, "BRAGI_BUTTON:9"))
        || (is_str(&b, "profup") && is_str(&c, "BRAGI_BUTTON:6")) || (is_str(&b, "profdn")
        && is_str(&c, "BRAGI_BUTTON:7"))
}

fn has_wireless_se(devices: &[Device]) -> (r: bool)
    ensures
        r == wireless_se_connected(devices@),
{
    let mut i: usize = 0;
    while i < devices.len()
        invariant
            i <= devices@.len(),
            forall|j: int|
                0 <= j < i ==> !((#[trigger] devices@[j]).vendor_id@ == "1b1c"@
                    && devices@[j].product_id@ == "2b32"@),
        decreases devices.len() - i,
    {
        if crate::text::str_eq(devices[i].vendor_id.as_str(), "1b1c") && crate::text::str_eq(
            devices[i].product_id.as_str(),
            "2b32",
        ) {
            return true;
        }
        i = i + 1;
    }
    false
}

/// Gives every profile the Wireless SE's extended-channel sources when that
/// mouse is connected: each extra control gets its extended source where it
/// has none or a legacy one. Returns whether any profile changed.
pub fn apply_device_defaults(config: &mut Config, devices: &[Device]) -> (changed: bool)
    ensures
        defaults_applied(*old(config), *final(config), devices@, changed),
{
    if !has_wireless_se(devices) {
        return false;
    }
    let ghost old_profiles = config.profiles@;
    let mut changed = false;
    let mut i: usize = 0;
    while i < config.profiles.len()
        invariant
            i <= config.profiles@.len(),
            config.profiles@.len() == old_profiles.len(),
            config.version == old(config).version,
            config.active_profile == old(config).active_profile,
            old_profiles == old(config).profiles@,
            forall|j: int|
                0 <= j < old_profiles.len() ==> same_but_sources(
                    #[trigger] config.profiles@[j],
                    old_profiles[j],
                ),
            forall|j: int|
                0 <= j < i ==> (#[trigger] config.profiles@[j]).sources@ == upgraded_sources(
                    old_profiles[j].sources@,
                ),
            forall|j: int|
                i <= j < old_profiles.len() ==> (#[trigger] config.profiles@[j]).sources@
                    == old_profiles[j].sources@,
            changed == exists|j: int|
                0 <= j < i && upgrade_changes((#[trigger] old_profiles[j]).sources@, 7),
        decreases old_profiles.len() - i,
    {
        let ghost start = config.profiles@[i as int].sources@;
        let ghost before = config.profiles@;
        let mut k: usize = 0;
        let mut here = false;
        while k < 7
            invariant
                i < config.profiles@.len(),
                config.profiles@.len() == old_profiles.len(),
                config.version == old(config).version,
                config.active_profile == old(config).active_profile,
                k <= 7,
                start == old_profiles[i as int].sources@,
                forall|j: int|
                    0 <= j < old_profiles.len() ==> same_but_sources(
                        #[trigger] config.profiles@[j],
                        old_profiles[j],
                    ),
                before.len() == old_profiles.len(),
                forall|j: int|
                    0 <= j < old_profiles.len() && j != i ==> (#[trigger] config.profiles@[j])
                        == before[j],
                config.profiles@[i as int].sources@ == upgraded(start, k as nat),
                here == upgrade_changes(start, k as nat),
            decreases 7 - k,
        {
            let (button, source) = extended_source(k);
            let replace = match config.profiles[i].sources.get(button) {
                None => true,
                Some(current) => is_legacy_source(button, current.as_str()),
            };
            if replace {
                config.profiles[i].sources.insert(button.to_owned(), source.to_owned());
                here = true;
            }
            k = k + 1;
        }
        changed = changed || here;
        i = i + 1;
    }
    changed
}

impl Config {
    /// Checks a profile against the rules, reporting the first that it breaks.
    pub fn validate_profile(profile: &Profile) -> (r: Result<(), String>)
        ensures
            match profile_problem(*profile) {
                None => r is Ok,
                Some(message) => r matches Err(e) && e@ == message,
            },
    {
        let id = chars_of(profile.id.as_str());
        if id.len() == 0 || utf8_longer_than(&id, 32) || !id_chars_valid(&id) {
            return Err("Invalid profile id".to_owned());
        }
        let name = chars_of(profile.name.as_str());
        if trimmed(profile.name.as_str()).len() == 0 || utf8_longer_than(&name, 40) {
            return Err("Profile name must be 1\u{2013}40 characters".to_owned());
        }
        if !dpi_stages_valid(&profile.dpi_stages) {
            return Err("Profiles need 1\u{2013}6 DPI stages between 100 and 26000".to_owned());
        }
        if profile.active_dpi >= profile.dpi_stages.len() {
            return Err("Active DPI stage is out of range".to_owned());
        }
        let rate = profile.polling_rate;
        if !(rate == 125 || rate == 250 || rate == 500 || rate == 1000 || rate == 2000) {
            return Err("Unsupported polling rate".to_owned());
        }
        let mode = chars_of(profile.lighting.mode.as_str());
        if !lighting_mode_known(&mode) {
            return Err("Unsupported lighting mode".to_owned());
        }
        if profile.lighting.brightness > 100 || profile.lighting.speed > 100 {
            return Err("Lighting values must be 0\u{2013}100".to_owned());
        }
        Ok(())
    }

    /// Stores an edited profile in place of the profile of the same id.
    pub fn save_profile(&mut self, profile: Profile) -> (r: Result<(), String>)
        ensures
            match profile_problem(profile) {
                Some(message) => (r matches Err(e) && e@ == message) && *final(self) == *old(self),
                None => match profile_position(old(self).profiles@, profile.id@) {
                    None => (r matches Err(e) && e@ == "Profile not found"@) && *final(self)
                        == *old(self),
                    Some(i) => {
                        &&& r is Ok
                        &&& final(self).version == old(self).version
                        &&& final(self).active_profile == old(self).active_profile
                        &&& final(self).profiles@ == old(self).profiles@.update(i, profile)
                    },
                },
            },
    {
        match Self::validate_profile(&profile) {
            Err(e) => return Err(e),
            Ok(()) => {},
        }
        match find_profile(&self.profiles, profile.id.as_str()) {
            None => Err("Profile not found".to_owned()),
            Some(i) => {
                self.profiles.set(i, profile);
                Ok(())
            },
        }
    }

    /// Adds a new profile; its id must not be taken.
    pub fn create_profile(&mut self, profile: Profile) -> (r: Result<(), String>)
        ensures
            match profile_problem(profile) {
                Some(message) => (r matches Err(e) && e@ == message) && *final(self) == *old(self),
                None => match profile_position(old(self).profiles@, profile.id@) {
                    Some(i) => (r matches Err(e) && e@ == "Profile already exists"@) && *final(self)
                        == *old(self),
                    None => {
                        &&& r is Ok
                        &&& final(self).version == old(self).version
                        &&& final(self).active_profile == old(self).active_profile
                        &&& final(self).profiles@ == old(self).profiles@.push(profile)
                    },
                },
            },
    {
        match Self::validate_profile(&profile) {
            Err(e) => return Err(e),
            Ok(()) => {},
        }
        match find_profile(&self.profiles, profile.id.as_str()) {
            Some(_) => Err("Profile already exists".to_owned()),
            None => {
                self.profiles.push(profile);
                Ok(())
            },
        }
    }

    /// Makes the profile `profile_id` active and returns the DPI of its active
    /// stage. The profile must exist; the stage must exist too, though the
    /// profile stays active when it does not.
    pub fn activate_profile(&mut self, profile_id: String) -> (r: Result<u32, String>)
        ensures
            match profile_position(old(self).profiles@, profile_id@) {
                None => (r matches Err(e) && e@ == "Profile not found"@) && *final(self)
                    == *old(self),
                Some(i) => {
                    let p = old(self).profiles@[i];
                    &&& final(self).version == old(self).version
                    &&& final(self).profiles == old(self).profiles
                    &&& final(self).active_profile == profile_id
                    &&& final(self).active_index() == i
                    &&& if p.active_dpi < p.dpi_stages@.len() {
                        r == Ok::<u32, String>(p.dpi_stages@[p.active_dpi as int])
                    } else {
                        r matches Err(e) && e@ == "Active DPI stage is missing"@
                    }
                },
            },
    {
        match find_profile(&self.profiles, profile_id.as_str()) {
            None => Err("Profile not found".to_owned()),
            Some(_) => {
                self.active_profile = profile_id;
                let active = self.active();
                if active.active_dpi < active.dpi_stages.len() {
                    Ok(active.dpi_stages[active.active_dpi])
                } else {
                    Err("Active DPI stage is missing".to_owned())
                }
            },
        }
    }

    /// Position of the active profile: the first whose id is `active_profile`,
    /// else the first profile.
    pub open spec fn active_index(self) -> int {
        match profile_position(self.profiles@, self.active_profile@) {
            Some(i) => i,
            None => 0,
        }
    }

    /// The active profile.
    pub fn active(&self) -> (r: &Profile)
        requires
            self.profiles@.len() > 0,
        ensures
            *r == self.profiles@[self.active_index()],
    {
        match find_profile(&self.profiles, self.active_profile.as_str()) {
            Some(i) => &self.profiles[i],
            None => &self.profiles[0],
        }
    }
}

} // verus!
