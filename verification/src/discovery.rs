//! Device discovery: which Corsair devices are connected, over which
//! transport, and which input event nodes belong to each, built from what the
//! system reports about its USB devices and input event nodes.
use vstd::prelude::*;

use crate::model::{Device, DeviceView};
use crate::sorting::{
    device_views, id_key, identity_key, sort_by_key, sort_devices, sort_strings, string_views,
};
use crate::text::{
    chars_of, has_prefix, is_str, push_all, push_str, starts_with, string_of, trim,
    trim_start_char, trim_start_matches, trimmed,
};

verus! {

/// What the system reports of one USB device: the contents of its `idVendor`,
/// `idProduct`, `serial` and `product` attributes (empty where unreadable), and
/// the names of the input nodes whose device lies below it.
pub struct UsbEntry {
    pub id_vendor: String,
    pub id_product: String,
    pub serial: String,
    pub product: String,
    pub input_names: Vec<String>,
}

/// What the system reports of one input node: its name and the contents of its
/// device's `id/vendor`, `id/bustype`, `uniq`, `id/product` and `name`
/// attributes (empty where unreadable).
pub struct InputEntry {
    pub name: String,
    pub vendor: String,
    pub bustype: String,
    pub uniq: String,
    pub product: String,
    pub device_name: String,
}

/// The Unicode lowercase mapping that `str::to_lowercase` applies.
pub uninterp spec fn unicode_lowercase(s: Seq<char>) -> Seq<char>;

/// `str::to_lowercase`: Unicode lowercase of the whole string. Its result is
/// named, not stated: it follows the Unicode tables of the standard library.
#[verifier::external_body]
fn lowercase(s: &str) -> (r: String)
    ensures
        r@ == unicode_lowercase(s@),
{
    s.to_lowercase()
}

// ---------------------------------------------------------------------------
// Definitions
// ---------------------------------------------------------------------------

/// Fallback name, transport and whether the configuration protocol is known,
/// by USB product id.
pub open spec fn usb_model(product: Seq<char>) -> (Seq<char>, Seq<char>, bool) {
    if product == "1b4c"@ {
        ("Ironclaw RGB Wireless"@, "usb"@, true)
    } else if product == "1b66"@ {
        ("Ironclaw RGB Wireless receiver"@, "slipstream"@, true)
    } else if product == "1b5d"@ {
        ("Ironclaw RGB"@, "usb"@, true)
    } else if product == "2b32"@ {
        ("Ironclaw Wireless SE"@, "usb"@, false)
    } else {
        ("Corsair USB device"@, "usb"@, false)
    }
}

pub open spec fn or_else(value: Seq<char>, fallback: Seq<char>) -> Seq<char> {
    if value.len() == 0 {
        fallback
    } else {
        value
    }
}

/// Device paths of the event nodes among `names`, in their order.
pub open spec fn event_node_paths(names: Seq<Seq<char>>) -> Seq<Seq<char>>
    decreases names.len(),
{
    if names.len() == 0 {
        seq![]
    } else {
        let r = event_node_paths(names.drop_last());
        if starts_with(names.last(), "event"@) {
            r.push("/dev/input/"@ + names.last())
        } else {
            r
        }
    }
}

/// The device that a USB entry describes, given its vendor and product ids
/// already trimmed and lowercased: a Corsair one (vendor `1b1c`) or none.
pub open spec fn corsair_usb(
    vendor: Seq<char>,
    product: Seq<char>,
    serial: Seq<char>,
    name: Seq<char>,
    input_names: Seq<Seq<char>>,
) -> Option<DeviceView> {
    if vendor != "1b1c"@ {
        None
    } else {
        let model = usb_model(product);
        let serial = or_else(trim(serial), "no-serial"@);
        Some(
            DeviceView {
                id: "usb-"@ + vendor + "-"@ + product + "-"@ + serial,
                vendor_id: vendor,
                product_id: product,
                name: or_else(trim(name), model.0),
                serial,
                transport: model.1,
                connected: true,
                protocol_supported: model.2,
                input_nodes: sort_by_key(event_node_paths(input_names), identity_key()),
            },
        )
    }
}

/// Only vendor `1b1c` gives a device. Its transport is `slipstream` exactly
/// for the wireless receiver (product `1b66`) and `usb` for every other
/// product; the configuration protocol is known for the Ironclaw RGB Wireless
/// (`1b4c`), its receiver (`1b66`) and the wired Ironclaw RGB (`1b5d`) only;
/// without a product name of its own a device takes its model's name.
pub proof fn lemma_corsair_usb_models(
    vendor: Seq<char>,
    product: Seq<char>,
    serial: Seq<char>,
    name: Seq<char>,
    input_names: Seq<Seq<char>>,
)
    ensures
        vendor != "1b1c"@ ==> corsair_usb(vendor, product, serial, name, input_names) is None,
        vendor == "1b1c"@ ==> corsair_usb(vendor, product, serial, name, input_names) is Some,
        vendor == "1b1c"@ ==> ({
            let d = corsair_usb(vendor, product, serial, name, input_names).unwrap();
            &&& d.vendor_id == vendor
            &&& d.product_id == product
            &&& d.connected
            &&& d.transport == (if product == "1b66"@ {
                "slipstream"@
            } else {
                "usb"@
            })
            &&& d.protocol_supported == (product == "1b4c"@ || product == "1b66"@ || product
                == "1b5d"@)
            &&& trim(name).len() > 0 ==> d.name == trim(name)
            &&& trim(name).len() == 0 ==> d.name == (if product == "1b4c"@ {
                "Ironclaw RGB Wireless"@
            } else if product == "1b66"@ {
                "Ironclaw RGB Wireless receiver"@
            } else if product == "1b5d"@ {
                "Ironclaw RGB"@
            } else if product == "2b32"@ {
                "Ironclaw Wireless SE"@
            } else {
                "Corsair USB device"@
            })
        }),
{
    reveal_strlit("1b4c");
    reveal_strlit("1b66");
    reveal_strlit("1b5d");
    reveal_strlit("2b32");
    assert("1b4c"@[2] != "1b66"@[2] && "1b4c"@[2] != "1b5d"@[2] && "1b66"@[2] != "1b5d"@[2]);
    assert("2b32"@[0] != "1b66"@[0]);
}

/// The device that a USB entry describes, if it is a Corsair one.
pub open spec fn usb_device(e: UsbEntry) -> Option<DeviceView> {
    corsair_usb(
        unicode_lowercase(trim(e.id_vendor@)),
        unicode_lowercase(trim(e.id_product@)),
        e.serial@,
        e.product@,
        string_views(e.input_names@),
    )
}

/// The Corsair devices among the USB entries, in their order.
pub open spec fn usb_devices(es: Seq<UsbEntry>) -> Seq<DeviceView>
    decreases es.len(),
{
    if es.len() == 0 {
        seq![]
    } else {
        let r = usb_devices(es.drop_last());
        match usb_device(es.last()) {
            Some(d) => r.push(d),
            None => r,
        }
    }
}

/// Every input node of the devices, in their order.
pub open spec fn all_nodes(ds: Seq<DeviceView>) -> Seq<Seq<char>>
    decreases ds.len(),
{
    if ds.len() == 0 {
        seq![]
    } else {
        all_nodes(ds.drop_last()) + ds.last().input_nodes
    }
}

/// `i` is the first position of a device with id `id`.
pub open spec fn first_with_device_id(ds: Seq<DeviceView>, id: Seq<char>, i: int) -> bool {
    &&& 0 <= i < ds.len()
    &&& ds[i].id == id
    &&& forall|j: int| 0 <= j < i ==> (#[trigger] ds[j]).id != id
}

pub open spec fn with_node(d: DeviceView, node: Seq<char>) -> DeviceView {
    DeviceView {
        id: d.id,
        vendor_id: d.vendor_id,
        product_id: d.product_id,
        name: d.name,
        serial: d.serial,
        transport: d.transport,
        connected: d.connected,
        protocol_supported: d.protocol_supported,
        input_nodes: d.input_nodes.push(node),
    }
}

/// An input node of a Corsair device on the Bluetooth bus (type 5) that no USB
/// device claims.
pub open spec fn is_bluetooth_node(e: InputEntry, usb_nodes: Seq<Seq<char>>) -> bool {
    &&& starts_with(e.name@, "event"@)
    &&& corsair_bluetooth_ids(
        unicode_lowercase(trim(e.vendor@)),
        unicode_lowercase(trim(e.bustype@)),
    )
    &&& !usb_nodes.contains("/dev/input/"@ + e.name@)
}

/// Vendor and bus ids, trimmed and lowercased, of a Corsair device on the
/// Bluetooth bus (type 5): leading zeros do not count.
pub open spec fn corsair_bluetooth_ids(vendor: Seq<char>, bus: Seq<char>) -> bool {
    trim_start_char(vendor, '0') == "1b1c"@ && trim_start_char(bus, '0') == "5"@
}

/// The device a Bluetooth node belongs to: its unique id, else its name.
pub open spec fn bluetooth_key(e: InputEntry) -> Seq<char> {
    "bluetooth-"@ + or_else(trim(e.uniq@), trim(e.device_name@))
}

/// The device list after considering one input node: a Bluetooth node joins
/// the device of its key, or starts a new one.
pub open spec fn with_input(ds: Seq<DeviceView>, usb_nodes: Seq<Seq<char>>, e: InputEntry) -> Seq<
    DeviceView,
> {
    if !is_bluetooth_node(e, usb_nodes) {
        ds
    } else {
        let node = "/dev/input/"@ + e.name@;
        let key = bluetooth_key(e);
        if exists|i: int| first_with_device_id(ds, key, i) {
            let i = choose|i: int| first_with_device_id(ds, key, i);
            ds.update(i, with_node(ds[i], node))
        } else {
            ds.push(
                DeviceView {
                    id: key,
                    vendor_id: "1b1c"@,
                    product_id: unicode_lowercase(trim(e.product@)),
                    name: trim(e.device_name@),
                    serial: trim(e.uniq@),
                    transport: "bluetooth"@,
                    connected: true,
                    protocol_supported: false,
                    input_nodes: seq![node],
                },
            )
        }
    }
}

/// The device list after considering every input node in turn.
pub open spec fn with_inputs(
    ds: Seq<DeviceView>,
    usb_nodes: Seq<Seq<char>>,
    inputs: Seq<InputEntry>,
) -> Seq<DeviceView>
    decreases inputs.len(),
{
    if inputs.len() == 0 {
        ds
    } else {
        with_input(with_inputs(ds, usb_nodes, inputs.drop_last()), usb_nodes, inputs.last())
    }
}

/// The connected Corsair devices: the USB ones, then those that only the input
/// subsystem shows (Bluetooth), in ascending order of id.
pub open spec fn discovered(usb: Seq<UsbEntry>, inputs: Seq<InputEntry>) -> Seq<DeviceView> {
    let found = usb_devices(usb);
    sort_by_key(with_inputs(found, all_nodes(found), inputs), id_key())
}

// ---------------------------------------------------------------------------
// Executable
// ---------------------------------------------------------------------------

/// The device path of an input node.
fn node_path(name: &str) -> (r: String)
    ensures
        r@ == "/dev/input/"@ + name@,
{
    let mut v = chars_of("/dev/input/");
    push_str(&mut v, name);
    string_of(&v)
}

fn event_paths(names: &Vec<String>) -> (r: Vec<String>)
    ensures
        string_views(r@) == event_node_paths(string_views(names@)),
{
    let event = chars_of("event");
    let mut r: Vec<String> = Vec::new();
    let mut i: usize = 0;
    while i < names.len()
        invariant
            i <= names@.len(),
            event@ == "event"@,
            string_views(r@) == event_node_paths(string_views(names@).take(i as int)),
        decreases names.len() - i,
    {
        let name = chars_of(names[i].as_str());
        assert(string_views(names@).take(i + 1).drop_last() =~= string_views(names@).take(
            i as int,
        ));
        if has_prefix(&name, &event) {
            let ghost before = string_views(r@);
            r.push(node_path(names[i].as_str()));
            assert(string_views(r@) =~= before.push("/dev/input/"@ + names@[i as int]@));
        }
        i = i + 1;
    }
    assert(string_views(names@).take(names.len() as int) =~= string_views(names@));
    r
}

fn fallback_for(product: &Vec<char>) -> (r: (&'static str, &'static str, bool))
    ensures
        r.0@ == usb_model(product@).0,
        r.1@ == usb_model(product@).1,
        r.2 == usb_model(product@).2,
{
    if is_str(product, "1b4c") {
        ("Ironclaw RGB Wireless", "usb", true)
    } else if is_str(product, "1b66") {
        ("Ironclaw RGB Wireless receiver", "slipstream", true)
    } else if is_str(product, "1b5d") {
        ("Ironclaw RGB", "usb", true)
    } else if is_str(product, "2b32") {
        ("Ironclaw Wireless SE", "usb", false)
    } else {
        ("Corsair USB device", "usb", false)
    }
}

/// `value`, or `fallback` where `value` is empty.
fn or_else_string(value: Vec<char>, fallback: &str) -> (r: String)
    ensures
        r@ == or_else(value@, fallback@),
{
    if value.len() == 0 {
        fallback.to_owned()
    } else {
        string_of(&value)
    }
}

/// The lowercase of the trimmed text.
fn normalized(raw: &str) -> (r: String)
    ensures
        r@ == unicode_lowercase(trim(raw@)),
{
    let t = string_of(&trimmed(raw));
    lowercase(t.as_str())
}

/// The device that a USB entry describes, from its vendor and product ids
/// already trimmed and lowercased, its serial, product name and the names of
/// its input nodes; `None` unless the vendor is Corsair's.
pub fn corsair_usb_device(
    vendor: String,
    product: String,
    serial: &str,
    name: &str,
    input_names: &Vec<String>,
) -> (r: Option<Device>)
    ensures
        match corsair_usb(vendor@, product@, serial@, name@, string_views(input_names@)) {
            Some(d) => r matches Some(x) && x@ == d,
            None => r is None,
        },
{
    if !crate::text::str_eq(vendor.as_str(), "1b1c") {
        return None;
    }
    let product_chars = chars_of(product.as_str());
    let (fallback, transport, supported) = fallback_for(&product_chars);
    let serial = or_else_string(trimmed(serial), "no-serial");
    let name = or_else_string(trimmed(name), fallback);
    let mut id = chars_of("usb-");
    push_str(&mut id, vendor.as_str());
    push_str(&mut id, "-");
    push_str(&mut id, product.as_str());
    push_str(&mut id, "-");
    push_str(&mut id, serial.as_str());
    let input_nodes = sort_strings(event_paths(input_names));
    let d = Device {
        id: string_of(&id),
        vendor_id: vendor,
        product_id: product,
        name,
        serial,
        transport: transport.to_owned(),
        connected: true,
        protocol_supported: supported,
        input_nodes,
    };
    assert(d@.input_nodes =~= string_views(d.input_nodes@));
    Some(d)
}

fn usb_device_of(e: &UsbEntry) -> (r: Option<Device>)
    ensures
        match usb_device(*e) {
            Some(d) => r matches Some(x) && x@ == d,
            None => r is None,
        },
{
    let vendor = normalized(e.id_vendor.as_str());
    let product = normalized(e.id_product.as_str());
    corsair_usb_device(vendor, product, e.serial.as_str(), e.product.as_str(), &e.input_names)
}

/// Whether trimmed, lowercased vendor and bus ids are those of a Corsair
/// device on the Bluetooth bus.
pub fn is_corsair_bluetooth(vendor: &str, bus: &str) -> (r: bool)
    ensures
        r == corsair_bluetooth_ids(vendor@, bus@),
{
    let vendor_digits = trim_start_matches(&chars_of(vendor), '0');
    let bus_digits = trim_start_matches(&chars_of(bus), '0');
    is_str(&vendor_digits, "1b1c") && is_str(&bus_digits, "5")
}

/// Whether `s` is among the strings.
fn contains_string(v: &Vec<String>, s: &str) -> (r: bool)
    ensures
        r == string_views(v@).contains(s@),
{
    let mut i: usize = 0;
    while i < v.len()
        invariant
            i <= v@.len(),
            forall|j: int| 0 <= j < i ==> (#[trigger] v@[j])@ != s@,
        decreases v.len() - i,
    {
        if crate::text::str_eq(v[i].as_str(), s) {
            assert(string_views(v@)[i as int] == s@);
            return true;
        }
        i = i + 1;
    }
    assert forall|j: int| 0 <= j < string_views(v@).len() implies string_views(v@)[j] != s@ by {
        assert(v@[j]@ != s@);
    }
    false
}

/// Position of the first device with id `id`.
fn find_device(ds: &Vec<Device>, id: &str) -> (r: Option<usize>)
    ensures
        match r {
            Some(i) => first_with_device_id(device_views(ds@), id@, i as int),
            None => !exists|i: int| first_with_device_id(device_views(ds@), id@, i),
        },
{
    let ghost views = device_views(ds@);
    let mut i: usize = 0;
    while i < ds.len()
        invariant
            i <= ds@.len(),
            views == device_views(ds@),
            forall|j: int| 0 <= j < i ==> (#[trigger] views[j]).id != id@,
        decreases ds.len() - i,
    {
        if crate::text::str_eq(ds[i].id.as_str(), id) {
            assert(views[i as int].id == id@);
            return Some(i);
        }
        assert(views[i as int].id != id@);
        i = i + 1;
    }
    None
}

/// Considers one input node: a Bluetooth node joins the device of its key or
/// starts a new one.
fn add_input(devices: &mut Vec<Device>, usb_nodes: &Vec<String>, e: &InputEntry)
    ensures
        device_views(final(devices)@) == with_input(
            device_views(old(devices)@),
            string_views(usb_nodes@),
            *e,
        ),
{
    let name = chars_of(e.name.as_str());
    let event = chars_of("event");
    if !has_prefix(&name, &event) {
        return;
    }
    let vendor = normalized(e.vendor.as_str());
    let bus = normalized(e.bustype.as_str());
    let node = node_path(e.name.as_str());
    if !is_corsair_bluetooth(vendor.as_str(), bus.as_str()) || contains_string(
        usb_nodes,
        node.as_str(),
    ) {
        return;
    }
    let uniq = trimmed(e.uniq.as_str());
    let device_name = trimmed(e.device_name.as_str());
    let mut key = chars_of("bluetooth-");
    if uniq.len() == 0 {
        push_all(&mut key, &device_name);
    } else {
        push_all(&mut key, &uniq);
    }
    let key = string_of(&key);
    assert(key@ == bluetooth_key(*e));
    let ghost views = device_views(devices@);
    match find_device(devices, key.as_str()) {
        Some(i) => {
            let ghost chosen = choose|c: int| first_with_device_id(views, key@, c);
            assert(chosen == i) by {
                if chosen < i {
                    assert(views[chosen].id != key@);
                } else if chosen > i {
                    assert(views[i as int].id != key@);
                }
            }
            let ghost nv = node@;
            let ghost old_nodes = devices@[i as int].input_nodes@;
            devices[i].input_nodes.push(node);
            assert(devices@[i as int].input_nodes@ == old_nodes.push(node));
            assert(devices@[i as int]@.input_nodes =~= views[i as int].input_nodes.push(nv));
            assert(devices@[i as int]@ == with_node(views[i as int], nv));
            assert(device_views(devices@) =~= views.update(i as int, with_node(views[i as int], nv)));
        },
        None => {
            let product_id = normalized(e.product.as_str());
            let d = Device {
                id: key,
                vendor_id: "1b1c".to_owned(),
                product_id,
                name: string_of(&device_name),
                serial: string_of(&uniq),
                transport: "bluetooth".to_owned(),
                connected: true,
                protocol_supported: false,
                input_nodes: vec![node],
            };
            assert(d@.input_nodes =~= seq!["/dev/input/"@ + e.name@]);
            devices.push(d);
            assert(device_views(devices@) =~= views.push(d@));
        },
    }
}

/// The connected Corsair devices, from what the system reports: each Corsair
/// USB device with its event nodes, then each Bluetooth device assembled from
/// the input nodes that no USB device claims, all in ascending order of id.
pub fn discover_devices_at(usb: &[UsbEntry], inputs: &[InputEntry]) -> (r: Vec<Device>)
    ensures
        device_views(r@) == discovered(usb@, inputs@),
{
    let mut devices: Vec<Device> = Vec::new();
    let mut i: usize = 0;
    while i < usb.len()
        invariant
            i <= usb@.len(),
            device_views(devices@) == usb_devices(usb@.take(i as int)),
        decreases usb.len() - i,
    {
        assert(usb@.take(i + 1).drop_last() =~= usb@.take(i as int));
        let ghost before = device_views(devices@);
        match usb_device_of(&usb[i]) {
            Some(d) => {
                devices.push(d);
                assert(device_views(devices@) =~= before.push(d@));
            },
            None => {},
        }
        i = i + 1;
    }
    assert(usb@.take(usb.len() as int) =~= usb@);
    let ghost found = device_views(devices@);
    let mut usb_nodes: Vec<String> = Vec::new();
    let mut j: usize = 0;
    while j < devices.len()
        invariant
            j <= devices@.len(),
            found == device_views(devices@),
            string_views(usb_nodes@) == all_nodes(found.take(j as int)),
        decreases devices.len() - j,
    {
        assert(found.take(j + 1).drop_last() =~= found.take(j as int));
        let mut t: usize = 0;
        let ghost start = string_views(usb_nodes@);
        while t < devices[j].input_nodes.len()
            invariant
                j < devices@.len(),
                found == device_views(devices@),
                t <= devices@[j as int].input_nodes@.len(),
                string_views(usb_nodes@) == start + found[j as int].input_nodes.take(t as int),
            decreases devices@[j as int].input_nodes@.len() - t,
        {
            let node = devices[j].input_nodes[t].clone();
            let ghost prev = string_views(usb_nodes@);
            usb_nodes.push(node);
            assert(string_views(usb_nodes@) =~= prev.push(node@));
            t = t + 1;
            assert(start + found[j as int].input_nodes.take(t as int) =~= prev.push(node@));
        }
        assert(found[j as int].input_nodes.take(t as int) =~= found[j as int].input_nodes);
        j = j + 1;
    }
    assert(found.take(devices.len() as int) =~= found);
    let mut k: usize = 0;
    while k < inputs.len()
        invariant
            k <= inputs@.len(),
            string_views(usb_nodes@) == all_nodes(found),
            device_views(devices@) == with_inputs(found, all_nodes(found), inputs@.take(k as int)),
        decreases inputs.len() - k,
    {
        assert(inputs@.take(k + 1).drop_last() =~= inputs@.take(k as int));
        add_input(&mut devices, &usb_nodes, &inputs[k]);
        k = k + 1;
    }
    assert(inputs@.take(inputs.len() as int) =~= inputs@);
    sort_devices(devices)
}

} // verus!
