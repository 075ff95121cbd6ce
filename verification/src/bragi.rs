//! The Bragi control channel of the Ironclaw Wireless SE (`1b1c:2b32`):
//! locating its two HID interfaces, the mode packets that switch it between
//! hardware and software control, the checks on its replies, and the decoding
//! of the extended button reports.
use vstd::prelude::*;

use crate::text::{
    chars_of, decimal, hex_byte, lines, push_decimal, push_hex_byte, push_str, same_chars,
    string_of, text_lines,
};

verus! {

pub const PACKET_SIZE: usize = 64;

pub const MODE_PROPERTY: u8 = 0x03;

pub const MODE_HARDWARE: u8 = 0x01;

pub const MODE_SOFTWARE: u8 = 0x02;

/// The `uevent` line of the Wireless SE's HID interfaces.
pub open spec fn ironclaw_se_id() -> Seq<char> {
    "HID_ID=0003:00001B1C:00002B32"@
}

/// First bytes of the report descriptor of the command interface.
pub open spec fn command_descriptor() -> Seq<u8> {
    seq![0x06u8, 0x42u8, 0xffu8, 0x09u8, 0x01u8]
}

/// First bytes of the report descriptor of the input interface.
pub open spec fn input_descriptor() -> Seq<u8> {
    seq![0x06u8, 0x42u8, 0xffu8, 0x09u8, 0x02u8]
}

// ---------------------------------------------------------------------------
// Errors
// ---------------------------------------------------------------------------

/// Why talking to the Bragi channel failed.
#[derive(Debug)]
pub enum BragiError {
    /// The two interfaces are not both present.
    NotFound,
    /// The device reported a mode that is neither hardware nor software.
    UnexpectedMode(u8),
    /// A reply shorter or longer than a packet; holds its length.
    ShortResponse(usize),
    /// No reply came in time.
    TimedOut,
    /// The device answered with an error code.
    Rejected(u8),
    /// The system refused an operation on the interface.
    Io { permission_denied: bool, message: String },
}

/// The text that describes an error.
pub open spec fn error_text(e: BragiError) -> Seq<char> {
    match e {
        BragiError::NotFound => "Wireless SE Bragi interfaces not found"@,
        BragiError::UnexpectedMode(m) => "unexpected Bragi mode "@ + decimal(m as nat),
        BragiError::ShortResponse(n) => "short Bragi response: "@ + decimal(n as nat) + " bytes"@,
        BragiError::TimedOut => "timed out waiting for Bragi response"@,
        BragiError::Rejected(code) => "Bragi command rejected with error 0x"@ + hex_byte(code),
        BragiError::Io { permission_denied, message } => message@,
    }
}

impl BragiError {
    /// The text that describes the error.
    pub fn message(&self) -> (r: String)
        ensures
            r@ == error_text(*self),
    {
        match self {
            BragiError::NotFound => "Wireless SE Bragi interfaces not found".to_owned(),
            BragiError::UnexpectedMode(m) => {
                let mut v = chars_of("unexpected Bragi mode ");
                push_decimal(&mut v, *m as u64);
                string_of(&v)
            },
            BragiError::ShortResponse(n) => {
                let mut v = chars_of("short Bragi response: ");
                push_decimal(&mut v, *n as u64);
                push_str(&mut v, " bytes");
                string_of(&v)
            },
            BragiError::TimedOut => "timed out waiting for Bragi response".to_owned(),
            BragiError::Rejected(code) => {
                let mut v = chars_of("Bragi command rejected with error 0x");
                push_hex_byte(&mut v, *code);
                string_of(&v)
            },
            BragiError::Io { permission_denied, message } => message.clone(),
        }
    }

    /// Whether the interfaces were missing.
    pub fn is_not_found(&self) -> (r: bool)
        ensures
            r == (*self is NotFound),
    {
        match self {
            BragiError::NotFound => true,
            _ => false,
        }
    }

    /// Whether the system denied access.
    pub fn is_permission_denied(&self) -> (r: bool)
        ensures
            r == (match *self {
                BragiError::Io { permission_denied, message } => permission_denied,
                _ => false,
            }),
    {
        match self {
            BragiError::Io { permission_denied, message } => *permission_denied,
            _ => false,
        }
    }
}

// ---------------------------------------------------------------------------
// Locating the interfaces
// ---------------------------------------------------------------------------

/// What the system reports of one hidraw node: its name, the contents of its
/// device's `uevent` and `report_descriptor` (empty where unreadable).
pub struct HidrawNode {
    pub name: String,
    pub uevent: String,
    pub descriptor: Vec<u8>,
}

pub open spec fn bytes_start_with(s: Seq<u8>, prefix: Seq<u8>) -> bool {
    prefix.len() <= s.len() && s.take(prefix.len() as int) == prefix
}

/// The node belongs to a Wireless SE.
pub open spec fn is_ironclaw_se(n: HidrawNode) -> bool {
    lines(n.uevent@).contains(ironclaw_se_id())
}

/// The command and input device paths found among the first `k` nodes: for
/// each, the last Wireless SE node whose descriptor marks it.
pub open spec fn located(nodes: Seq<HidrawNode>, k: nat) -> (Option<Seq<char>>, Option<Seq<char>>)
    decreases k,
{
    if k == 0 || k > nodes.len() {
        (None, None)
    } else {
        let prev = located(nodes, (k - 1) as nat);
        let n = nodes[k - 1];
        let path = "/dev/"@ + n.name@;
        if !is_ironclaw_se(n) {
            prev
        } else if bytes_start_with(n.descriptor@, command_descriptor()) {
            (Some(path), prev.1)
        } else if bytes_start_with(n.descriptor@, input_descriptor()) {
            (prev.0, Some(path))
        } else {
            prev
        }
    }
}

fn has_line(text: &str, line: &str) -> (r: bool)
    ensures
        r == lines(text@).contains(line@),
{
    let t = chars_of(text);
    let target = chars_of(line);
    let ls = text_lines(&t);
    let mut i: usize = 0;
    while i < ls.len()
        invariant
            i <= ls@.len(),
            ls@.len() == lines(t@).len(),
            t@ == text@,
            target@ == line@,
            forall|k: int| 0 <= k < ls@.len() ==> #[trigger] ls@[k]@ == lines(t@)[k],
            forall|k: int| 0 <= k < i ==> lines(t@)[k] != line@,
        decreases ls.len() - i,
    {
        if same_chars(&ls[i], &target) {
            assert(lines(t@)[i as int] == line@);
            return true;
        }
        i = i + 1;
    }
    false
}

fn descriptor_starts_with(descriptor: &Vec<u8>, last: u8) -> (r: bool)
    ensures
        r == bytes_start_with(descriptor@, seq![0x06u8, 0x42u8, 0xffu8, 0x09u8, last]),
{
    let r = descriptor.len() >= 5 && descriptor[0] == 0x06 && descriptor[1] == 0x42
        && descriptor[2] == 0xff && descriptor[3] == 0x09 && descriptor[4] == last;
    if descriptor.len() >= 5 {
        assert(r == (descriptor@.take(5) =~= seq![0x06u8, 0x42u8, 0xffu8, 0x09u8, last]));
    }
    r
}

/// The command and input device paths of the Wireless SE among the hidraw
/// nodes, when both are present.
pub fn discover_at(nodes: &[HidrawNode]) -> (r: Option<(String, String)>)
    ensures
        match located(nodes@, nodes@.len()) {
            (Some(c), Some(i)) => r matches Some(p) && p.0@ == c && p.1@ == i,
            _ => r is None,
        },
{
    let mut command: Option<String> = None;
    let mut input: Option<String> = None;
    let mut k: usize = 0;
    while k < nodes.len()
        invariant
            k <= nodes@.len(),
            match located(nodes@, k as nat) {
                (c, i) => (match command {
                    Some(s) => c == Some(s@),
                    None => c is None,
                }) && (match input {
                    Some(s) => i == Some(s@),
                    None => i is None,
                }),
            },
        decreases nodes.len() - k,
    {
        let n = &nodes[k];
        if has_line(n.uevent.as_str(), "HID_ID=0003:00001B1C:00002B32") {
            let mut path = chars_of("/dev/");
            push_str(&mut path, n.name.as_str());
            if descriptor_starts_with(&n.descriptor, 0x01) {
                command = Some(string_of(&path));
            } else if descriptor_starts_with(&n.descriptor, 0x02) {
                input = Some(string_of(&path));
            }
        }
        k = k + 1;
    }
    match (command, input) {
        (Some(c), Some(i)) => Some((c, i)),
        _ => None,
    }
}

// ---------------------------------------------------------------------------
// Packets and replies
// ---------------------------------------------------------------------------

/// A packet: the given bytes, then zeros up to the packet size.
pub open spec fn packet_of(head: Seq<u8>) -> Seq<u8> {
    head + Seq::new((PACKET_SIZE - head.len()) as nat, |i: int| 0u8)
}

/// The request for the current mode.
pub open spec fn mode_query() -> Seq<u8> {
    packet_of(seq![0x08u8, 0x02u8, MODE_PROPERTY, 0x00u8])
}

/// The command that sets the mode.
pub open spec fn mode_command(mode: u8) -> Seq<u8> {
    packet_of(seq![0x08u8, 0x01u8, MODE_PROPERTY, 0x00u8, mode, 0x00u8])
}

/// What a reply to `packet` means: the reply itself when it is a whole packet
/// that echoes the command byte with a zero status, else the error.
pub open spec fn reply_check(packet: Seq<u8>, reply: Seq<u8>) -> Option<BragiError> {
    if reply.len() != PACKET_SIZE {
        Some(BragiError::ShortResponse(reply.len() as usize))
    } else if reply[1] != packet[1] || reply[2] != 0 {
        Some(BragiError::Rejected(reply[2]))
    } else {
        None
    }
}

fn packet(head: &[u8]) -> (r: Vec<u8>)
    requires
        head@.len() <= PACKET_SIZE,
    ensures
        r@ == packet_of(head@),
{
    let mut r: Vec<u8> = Vec::new();
    let mut i: usize = 0;
    while i < PACKET_SIZE
        invariant
            head@.len() <= PACKET_SIZE,
            i <= PACKET_SIZE,
            r@.len() == i,
            forall|j: int| 0 <= j < i ==> #[trigger] r@[j] == packet_of(head@)[j],
        decreases PACKET_SIZE - i,
    {
        if i < head.len() {
            r.push(head[i]);
        } else {
            r.push(0);
        }
        i = i + 1;
    }
    assert(r@ =~= packet_of(head@));
    r
}

/// Checks a reply to `packet`.
pub fn check_reply(packet: &[u8], reply: Result<Vec<u8>, BragiError>) -> (r: Result<
    Vec<u8>,
    BragiError,
>)
    requires
        packet@.len() == PACKET_SIZE,
    ensures
        match reply {
            Err(e) => r == Err::<Vec<u8>, BragiError>(e),
            Ok(bytes) => match reply_check(packet@, bytes@) {
                None => r == Ok::<Vec<u8>, BragiError>(bytes),
                Some(e) => r == Err::<Vec<u8>, BragiError>(e),
            },
        },
{
    let bytes = match reply {
        Err(e) => return Err(e),
        Ok(bytes) => bytes,
    };
    if bytes.len() != PACKET_SIZE {
        return Err(BragiError::ShortResponse(bytes.len()));
    }
    if bytes[1] != packet[1] || bytes[2] != 0 {
        return Err(BragiError::Rejected(bytes[2]));
    }
    Ok(bytes)
}

/// The controller of the Wireless SE's Bragi channel: where its interfaces
/// are, and whether this program has switched it into software mode.
#[derive(Debug)]
pub struct BragiControl {
    command_path: String,
    input_path: String,
    software_mode: bool,
}

impl BragiControl {
    pub closed spec fn command(&self) -> Seq<char> {
        self.command_path@
    }

    pub closed spec fn input(&self) -> Seq<char> {
        self.input_path@
    }

    /// The device is in software mode because this controller put it there.
    pub closed spec fn in_software_mode(&self) -> bool {
        self.software_mode
    }

    /// Takes charge of the located interfaces; the mode is not switched yet.
    /// Fails when they were not found.
    pub fn activate(located: Option<(String, String)>) -> (r: Result<Self, BragiError>)
        ensures
            match located {
                None => (r matches Err(e) && e is NotFound),
                Some(p) => (r matches Ok(c) && c.command() == p.0@ && c.input() == p.1@
                    && !c.in_software_mode()),
            },
    {
        match located {
            None => Err(BragiError::NotFound),
            Some((command_path, input_path)) => Ok(
                BragiControl { command_path, input_path, software_mode: false },
            ),
        }
    }

    /// The input interface, from which the extended buttons are read.
    pub fn input_path(&self) -> (r: &String)
        ensures
            r@ == self.input(),
    {
        &self.input_path
    }

    /// The command interface, to which the packets go.
    pub fn command_path(&self) -> (r: &String)
        ensures
            r@ == self.command(),
    {
        &self.command_path
    }

    /// The request that asks for the current mode.
    pub fn mode_request() -> (r: Vec<u8>)
        ensures
            r@ == mode_query(),
    {
        packet(&[0x08, 0x02, MODE_PROPERTY, 0x00])
    }

    /// The command that sets `mode`.
    pub fn mode_command(mode: u8) -> (r: Vec<u8>)
        ensures
            r@ == mode_command(mode),
    {
        packet(&[0x08, 0x01, MODE_PROPERTY, 0x00, mode, 0x00])
    }

    /// The current mode, from the reply to the mode request.
    pub fn get_mode(reply: Result<Vec<u8>, BragiError>) -> (r: Result<u8, BragiError>)
        ensures
            match reply {
                Err(e) => r == Err::<u8, BragiError>(e),
                Ok(bytes) => match reply_check(mode_query(), bytes@) {
                    None => r == Ok::<u8, BragiError>(bytes@[3]),
                    Some(e) => r == Err::<u8, BragiError>(e),
                },
            },
    {
        let request = Self::mode_request();
        match check_reply(request.as_slice(), reply) {
            Ok(bytes) => Ok(bytes[3]),
            Err(e) => Err(e),
        }
    }

    /// Decides on the mode the device reported: an unknown mode is an error;
    /// software mode needs no switch; hardware mode needs the returned command.
    pub fn confirm_mode(&mut self, current: u8) -> (r: Result<Option<Vec<u8>>, BragiError>)
        ensures
            final(self).command() == old(self).command(),
            final(self).input() == old(self).input(),
            current != MODE_HARDWARE && current != MODE_SOFTWARE ==> (r matches Err(e)
                && e == BragiError::UnexpectedMode(current)) && final(self).in_software_mode()
                == old(self).in_software_mode(),
            current == MODE_SOFTWARE ==> (r matches Ok(None)) && final(self).in_software_mode(),
            current == MODE_HARDWARE ==> (r matches Ok(Some(p)) && p@ == mode_command(
                MODE_SOFTWARE,
            )) && final(self).in_software_mode() == old(self).in_software_mode(),
    {
        if current != MODE_HARDWARE && current != MODE_SOFTWARE {
            return Err(BragiError::UnexpectedMode(current));
        }
        if current != MODE_SOFTWARE {
            return Ok(Some(Self::mode_command(MODE_SOFTWARE)));
        }
        self.software_mode = true;
        Ok(None)
    }

    /// Records the device's reply to the command that set `mode`.
    pub fn set_mode(&mut self, mode: u8, reply: Result<Vec<u8>, BragiError>) -> (r: Result<
        (),
        BragiError,
    >)
        ensures
            final(self).command() == old(self).command(),
            final(self).input() == old(self).input(),
            match reply {
                Err(e) => r == Err::<(), BragiError>(e) && final(self).in_software_mode()
                    == old(self).in_software_mode(),
                Ok(bytes) => match reply_check(mode_command(mode), bytes@) {
                    None => r is Ok && final(self).in_software_mode() == (mode == MODE_SOFTWARE),
                    Some(e) => r == Err::<(), BragiError>(e) && final(self).in_software_mode()
                        == old(self).in_software_mode(),
                },
            },
    {
        let command = Self::mode_command(mode);
        match check_reply(command.as_slice(), reply) {
            Ok(_) => {
                self.software_mode = mode == MODE_SOFTWARE;
                Ok(())
            },
            Err(e) => Err(e),
        }
    }

    /// On release: the command that gives control back to the hardware, when
    /// this controller had taken it; afterwards it holds no claim.
    pub fn release(&mut self) -> (r: Option<Vec<u8>>)
        ensures
            final(self).command() == old(self).command(),
            final(self).input() == old(self).input(),
            !final(self).in_software_mode(),
            old(self).in_software_mode() ==> (r matches Some(p) && p@ == mode_command(
                MODE_HARDWARE,
            )),
            !old(self).in_software_mode() ==> r is None,
    {
        if self.software_mode {
            self.software_mode = false;
            Some(Self::mode_command(MODE_HARDWARE))
        } else {
            None
        }
    }
}

// ---------------------------------------------------------------------------
// Extended button reports
// ---------------------------------------------------------------------------

/// The button mask of an input report: bytes 2 and 3, little endian, of a
/// whole packet whose report id (byte 1) is 2.
pub open spec fn report_mask(report: Seq<u8>) -> Option<u16> {
    if report.len() == PACKET_SIZE && report[1] == 0x02 {
        Some((report[2] as int + 256 * (report[3] as int)) as u16)
    } else {
        None
    }
}

/// Decodes the button mask of an extended input report.
pub fn button_mask(report: &[u8]) -> (r: Option<u16>)
    ensures
        r == report_mask(report@),
{
    if report.len() == PACKET_SIZE && report[1] == 0x02 {
        Some(report[2] as u16 + 256 * (report[3] as u16))
    } else {
        None
    }
}

/// The source name of bit `bit` of the mask: buttons are numbered from 1.
pub open spec fn bit_source(bit: u8) -> Seq<char> {
    "BRAGI_BUTTON:"@ + decimal(bit as nat + 1)
}

pub fn source_for_bit(bit: u8) -> (r: String)
    requires
        bit < 255,
    ensures
        r@ == bit_source(bit),
{
    let mut v = chars_of("BRAGI_BUTTON:");
    push_decimal(&mut v, bit as u64 + 1);
    string_of(&v)
}

/// The Linux key code that each of the sixteen mask bits stands for.
pub open spec fn linux_code_table() -> Seq<u16> {
    seq![
        272u16, 273, 274, 276, 275, 277, 278, 280, 281, 279, 282, 283, 284, 285, 286, 287,
    ]
}

/// The Linux key code of mask bit `bit`; bits above 15 count as 15.
pub fn linux_code_for_bit(bit: u8) -> (r: u16)
    ensures
        r == linux_code_table()[if bit < 15 {
            bit as int
        } else {
            15
        }],
{
    match bit {
        0 => 272,
        1 => 273,
        2 => 274,
        3 => 276,
        4 => 275,
        5 => 277,
        6 => 278,
        7 => 280,
        8 => 281,
        9 => 279,
        10 => 282,
        11 => 283,
        12 => 284,
        13 => 285,
        14 => 286,
        _ => 287,
    }
}

/// Whether bit `bit` of `x` is set.
pub open spec fn bit_set(x: u16, bit: u8) -> bool {
    (x >> bit) & 1 == 1
}

/// The buttons of bits 3 up to `n` - 1 whose state differs between two masks,
/// with their new state, in bit order.
pub open spec fn changed_buttons(previous: u16, mask: u16, n: nat) -> Seq<(u8, bool)>
    decreases n,
{
    if n <= 3 {
        seq![]
    } else {
        let r = changed_buttons(previous, mask, (n - 1) as nat);
        let bit = (n - 1) as u8;
        if bit_set(previous ^ mask, bit) {
            r.push((bit, bit_set(mask, bit)))
        } else {
            r
        }
    }
}

proof fn lemma_changed_buttons_upto(previous: u16, mask: u16, n: nat)
    requires
        n <= 16,
    ensures
        forall|i: int|
            0 <= i < changed_buttons(previous, mask, n).len() ==> {
                let (b, pressed) = #[trigger] changed_buttons(previous, mask, n)[i];
                &&& 3 <= b < n
                &&& ((previous ^ mask) >> b) & 1 == 1
                &&& pressed == ((mask >> b) & 1 == 1)
            },
        forall|b: u8|
            3 <= b < n && #[trigger] (((previous ^ mask) >> b) & 1) == 1 ==> exists|i: int|
                0 <= i < changed_buttons(previous, mask, n).len() && changed_buttons(
                    previous,
                    mask,
                    n,
                )[i].0 == b,
        forall|i: int, j: int|
            0 <= i < j < changed_buttons(previous, mask, n).len() ==> (#[trigger] changed_buttons(
                previous,
                mask,
                n,
            )[i]).0 < (#[trigger] changed_buttons(previous, mask, n)[j]).0,
    decreases n,
{
    if n > 3 {
        lemma_changed_buttons_upto(previous, mask, (n - 1) as nat);
        let r = changed_buttons(previous, mask, (n - 1) as nat);
        let bit = (n - 1) as u8;
        if bit_set(previous ^ mask, bit) {
            let s = r.push((bit, bit_set(mask, bit)));
            assert(changed_buttons(previous, mask, n) == s);
            assert forall|b: u8|
                3 <= b < n && #[trigger] (((previous ^ mask) >> b) & 1) == 1 implies exists|i: int|
                0 <= i < s.len() && s[i].0 == b by {
                if b < n - 1 {
                    let i = choose|i: int| 0 <= i < r.len() && r[i].0 == b;
                    assert(s[i] == r[i]);
                } else {
                    assert(s[s.len() - 1].0 == b);
                }
            }
            assert forall|i: int| 0 <= i < s.len() implies {
                let (b, pressed) = #[trigger] s[i];
                &&& 3 <= b < n
                &&& ((previous ^ mask) >> b) & 1 == 1
                &&& pressed == ((mask >> b) & 1 == 1)
            } by {
                if i < r.len() {
                    assert(s[i] == r[i]);
                }
            }
            assert forall|i: int, j: int| 0 <= i < j < s.len() implies (#[trigger] s[i]).0 < (
            #[trigger] s[j]).0 by {
                if j < r.len() {
                    assert(s[i] == r[i] && s[j] == r[j]);
                } else {
                    assert(s[i] == r[i]);
                }
            }
        } else {
            assert(changed_buttons(previous, mask, n) == r);
            assert forall|b: u8|
                3 <= b < n && #[trigger] (((previous ^ mask) >> b) & 1) == 1 implies exists|i: int|
                0 <= i < r.len() && r[i].0 == b by {
                if b == n - 1 {
                    assert(b == bit);
                    assert(bit_set(previous ^ mask, b));
                }
            }
        }
    }
}

/// Every extended button (bits 3 to 15) whose bit differs between two masks is
/// reported once, with whether its bit is set in the new mask; nothing else is
/// reported, and the buttons come in ascending bit order.
pub proof fn lemma_button_changes_exact(previous: u16, mask: u16)
    ensures
        forall|i: int|
            0 <= i < changed_buttons(previous, mask, 16).len() ==> {
                let (b, pressed) = #[trigger] changed_buttons(previous, mask, 16)[i];
                &&& 3 <= b < 16
                &&& ((previous ^ mask) >> b) & 1 == 1
                &&& pressed == ((mask >> b) & 1 == 1)
            },
        forall|b: u8|
            3 <= b < 16 && #[trigger] (((previous ^ mask) >> b) & 1) == 1 ==> exists|i: int|
                0 <= i < changed_buttons(previous, mask, 16).len() && changed_buttons(
                    previous,
                    mask,
                    16,
                )[i].0 == b,
        forall|i: int, j: int|
            0 <= i < j < changed_buttons(previous, mask, 16).len() ==> (
            #[trigger] changed_buttons(previous, mask, 16)[i]).0 < (#[trigger] changed_buttons(
                previous,
                mask,
                16,
            )[j]).0,
{
    lemma_changed_buttons_upto(previous, mask, 16);
}

/// The extended buttons (bits 3 to 15) that changed from `previous` to `mask`,
/// each with whether it is now pressed.
pub fn button_changes(previous: u16, mask: u16) -> (r: Vec<(u8, bool)>)
    ensures
        r@ == changed_buttons(previous, mask, 16),
{
    let changed = previous ^ mask;
    let mut r: Vec<(u8, bool)> = Vec::new();
    let mut bit: u8 = 3;
    while bit < 16
        invariant
            3 <= bit <= 16,
            changed == previous ^ mask,
            r@ == changed_buttons(previous, mask, bit as nat),
        decreases 16 - bit,
    {
        if (changed >> bit) & 1 == 1 {
            r.push((bit, (mask >> bit) & 1 == 1));
        }
        bit = bit + 1;
    }
    r
}

} // verus!
