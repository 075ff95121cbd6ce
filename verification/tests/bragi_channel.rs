use corsair_control::bragi::{
    button_changes, button_mask, check_reply, discover_at, linux_code_for_bit, source_for_bit,
    BragiControl, BragiError, HidrawNode, MODE_HARDWARE, MODE_SOFTWARE, PACKET_SIZE,
};

#[test]
fn decodes_extended_button_mask() {
    let mut report = [0_u8; PACKET_SIZE];
    report[1] = 0x02;
    report[2] = 0x80;
    report[3] = 0x02;
    assert_eq!(button_mask(&report), Some(0x0280));
    assert_eq!(source_for_bit(7), "BRAGI_BUTTON:8");
    assert_eq!(linux_code_for_bit(3), 276);
    assert_eq!(linux_code_for_bit(9), 279);
}

#[test]
fn button_mask_needs_a_whole_report_with_id_two() {
    let mut report = [0_u8; PACKET_SIZE];
    report[1] = 0x01;
    report[2] = 0xff;
    assert_eq!(button_mask(&report), None);
    let short = [0_u8, 0x02, 0x01, 0x00];
    assert_eq!(button_mask(&short), None);
}

#[test]
fn high_bits_share_the_last_linux_code() {
    assert_eq!(linux_code_for_bit(0), 272);
    assert_eq!(linux_code_for_bit(15), 287);
    assert_eq!(linux_code_for_bit(40), 287);
    assert_eq!(source_for_bit(0), "BRAGI_BUTTON:1");
    assert_eq!(source_for_bit(99), "BRAGI_BUTTON:100");
}

#[test]
fn reports_only_changed_extended_buttons() {
    // Bits 0-2 are the ordinary buttons and never reported; bit 4 pressed,
    // bit 7 released.
    let previous: u16 = 0b1000_0111;
    let mask: u16 = 0b0001_0000;
    assert_eq!(button_changes(previous, mask), vec![(4, true), (7, false)]);
    assert_eq!(button_changes(mask, mask), vec![]);
}

fn node(name: &str, uevent: &str, last: u8) -> HidrawNode {
    HidrawNode {
        name: name.to_owned(),
        uevent: uevent.to_owned(),
        descriptor: vec![0x06, 0x42, 0xff, 0x09, last, 0xa1],
    }
}

#[test]
fn finds_both_bragi_interfaces() {
    let se = "DRIVER=hid-generic\nHID_ID=0003:00001B1C:00002B32\nHID_NAME=Corsair";
    let nodes = vec![
        node("hidraw0", "HID_ID=0003:0000046D:0000C52B", 0x01),
        node("hidraw3", se, 0x02),
        node("hidraw2", se, 0x01),
        node("hidraw4", se, 0x07),
    ];
    assert_eq!(
        discover_at(&nodes),
        Some(("/dev/hidraw2".to_owned(), "/dev/hidraw3".to_owned()))
    );
    assert_eq!(discover_at(&nodes[..2]), None);
}

#[test]
fn activation_needs_located_interfaces() {
    let err = BragiControl::activate(None).unwrap_err();
    assert!(err.is_not_found());
    assert_eq!(err.message(), "Wireless SE Bragi interfaces not found");
    let control =
        BragiControl::activate(Some(("/dev/hidraw2".to_owned(), "/dev/hidraw3".to_owned())))
            .unwrap();
    assert_eq!(control.command_path(), "/dev/hidraw2");
    assert_eq!(control.input_path(), "/dev/hidraw3");
}

fn reply_to(request: &[u8], status: u8, value: u8) -> Vec<u8> {
    let mut reply = vec![0_u8; PACKET_SIZE];
    reply[1] = request[1];
    reply[2] = status;
    reply[3] = value;
    reply
}

#[test]
fn mode_packets_are_padded_to_a_whole_packet() {
    let request = BragiControl::mode_request();
    assert_eq!(request.len(), PACKET_SIZE);
    assert_eq!(&request[..4], &[0x08, 0x02, 0x03, 0x00]);
    assert!(request[4..].iter().all(|b| *b == 0));
    let command = BragiControl::mode_command(MODE_SOFTWARE);
    assert_eq!(&command[..6], &[0x08, 0x01, 0x03, 0x00, 0x02, 0x00]);
    assert!(command[6..].iter().all(|b| *b == 0));
}

#[test]
fn reads_the_mode_from_a_reply() {
    let request = BragiControl::mode_request();
    assert_eq!(
        BragiControl::get_mode(Ok(reply_to(&request, 0, MODE_HARDWARE))).unwrap(),
        MODE_HARDWARE
    );
    let rejected = BragiControl::get_mode(Ok(reply_to(&request, 0x05, 0))).unwrap_err();
    assert_eq!(rejected.message(), "Bragi command rejected with error 0x05");
    let short = BragiControl::get_mode(Ok(vec![0, 2, 0])).unwrap_err();
    assert_eq!(short.message(), "short Bragi response: 3 bytes");
    let timed_out = BragiControl::get_mode(Err(BragiError::TimedOut)).unwrap_err();
    assert_eq!(timed_out.message(), "timed out waiting for Bragi response");
}

#[test]
fn reply_must_echo_the_command() {
    let request = BragiControl::mode_request();
    let mut wrong = reply_to(&request, 0, 0);
    wrong[1] = 0x09;
    assert!(matches!(
        check_reply(&request, Ok(wrong)),
        Err(BragiError::Rejected(0))
    ));
    let io = BragiError::Io { permission_denied: true, message: "Permission denied".to_owned() };
    assert!(io.is_permission_denied());
    assert_eq!(io.message(), "Permission denied");
}

#[test]
fn software_mode_is_released_to_hardware() {
    let mut control =
        BragiControl::activate(Some(("/dev/hidraw2".to_owned(), "/dev/hidraw3".to_owned())))
            .unwrap();
    let unexpected = control.confirm_mode(7).unwrap_err();
    assert_eq!(unexpected.message(), "unexpected Bragi mode 7");
    let switch = control.confirm_mode(MODE_HARDWARE).unwrap().unwrap();
    assert_eq!(switch, BragiControl::mode_command(MODE_SOFTWARE));
    assert_eq!(control.release(), None);
    control.set_mode(MODE_SOFTWARE, Ok(reply_to(&switch, 0, 0))).unwrap();
    assert_eq!(control.release(), Some(BragiControl::mode_command(MODE_HARDWARE)));
    assert_eq!(control.release(), None);
    assert_eq!(control.confirm_mode(MODE_SOFTWARE).unwrap(), None);
    assert!(control.release().is_some());
}
