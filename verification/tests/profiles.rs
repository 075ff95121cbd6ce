use corsair_control::discovery::{
    corsair_usb_device, discover_devices_at, is_corsair_bluetooth, InputEntry, UsbEntry,
};
use corsair_control::input::{process_source_event, InputEvent, EV_KEY};
use corsair_control::model::{apply_device_defaults, buttons, find_profile, Config, Device};

fn wireless_se() -> Device {
    Device {
        id: "usb-1b1c-2b32-test".into(),
        vendor_id: "1b1c".into(),
        product_id: "2b32".into(),
        name: "Ironclaw Wireless SE".into(),
        serial: "test".into(),
        transport: "usb".into(),
        connected: true,
        protocol_supported: false,
        input_nodes: vec![],
    }
}

#[test]
fn defaults_are_valid() {
    Config::validate_profile(Config::default().active()).unwrap();
}

#[test]
fn rejects_bad_dpi() {
    let mut profile = Config::default().active().clone();
    profile.dpi_stages = vec![50];
    assert!(Config::validate_profile(&profile).is_err());
}

#[test]
fn wireless_se_gets_extended_button_sources() {
    let mut config = Config::default();
    let device = wireless_se();
    assert!(apply_device_defaults(&mut config, &[device]));
    let sources = &config.active().sources;
    assert_eq!(sources.get("forward").unwrap(), "BRAGI_BUTTON:4");
    assert_eq!(sources.get("option").unwrap(), "BRAGI_BUTTON:10");
    assert_eq!(sources.get("dpiup").unwrap(), "BRAGI_BUTTON:6");
    assert_eq!(sources.get("profup").unwrap(), "BRAGI_BUTTON:8");
}

#[test]
fn device_defaults_apply_once() {
    let mut config = Config::default();
    let devices = [wireless_se()];
    assert!(apply_device_defaults(&mut config, &devices));
    assert!(!apply_device_defaults(&mut config, &devices));
    let mut other = wireless_se();
    other.product_id = "1b4c".into();
    let mut fresh = Config::default();
    assert!(!apply_device_defaults(&mut fresh, &[other]));
    assert_eq!(fresh.active().sources.get("forward").unwrap(), "EV_KEY:277");
}

#[test]
fn validation_names_the_first_problem() {
    let base = Config::default().active().clone();
    let mut p = base.clone();
    p.id = "has space".into();
    assert_eq!(Config::validate_profile(&p).unwrap_err(), "Invalid profile id");
    let mut p = base.clone();
    p.name = "   ".into();
    assert_eq!(
        Config::validate_profile(&p).unwrap_err(),
        "Profile name must be 1\u{2013}40 characters"
    );
    let mut p = base.clone();
    p.dpi_stages = vec![];
    assert_eq!(
        Config::validate_profile(&p).unwrap_err(),
        "Profiles need 1\u{2013}6 DPI stages between 100 and 26000"
    );
    let mut p = base.clone();
    p.active_dpi = 3;
    assert_eq!(Config::validate_profile(&p).unwrap_err(), "Active DPI stage is out of range");
    let mut p = base.clone();
    p.polling_rate = 300;
    assert_eq!(Config::validate_profile(&p).unwrap_err(), "Unsupported polling rate");
    let mut p = base.clone();
    p.lighting.mode = "disco".into();
    assert_eq!(Config::validate_profile(&p).unwrap_err(), "Unsupported lighting mode");
    let mut p = base.clone();
    p.lighting.brightness = 101;
    assert_eq!(Config::validate_profile(&p).unwrap_err(), "Lighting values must be 0\u{2013}100");
    let mut p = base;
    p.dpi_stages = vec![100, 26000];
    p.active_dpi = 1;
    assert!(Config::validate_profile(&p).is_ok());
}

#[test]
fn profiles_are_saved_created_and_activated() {
    let mut config = Config::default();
    let mut games = config.active().clone();
    games.id = "games".into();
    assert_eq!(config.save_profile(games.clone()).unwrap_err(), "Profile not found");
    config.create_profile(games.clone()).unwrap();
    assert_eq!(config.create_profile(games.clone()).unwrap_err(), "Profile already exists");
    games.active_dpi = 2;
    config.save_profile(games).unwrap();
    assert_eq!(find_profile(&config.profiles, "games"), Some(1));
    assert_eq!(config.activate_profile("games".into()).unwrap(), 3200);
    assert_eq!(config.active().id, "games");
    assert_eq!(config.activate_profile("work".into()).unwrap_err(), "Profile not found");
    assert_eq!(config.active_profile, "games");
}

#[test]
fn lists_the_mouse_controls() {
    let list = buttons();
    assert_eq!(list.len(), 12);
    assert_eq!(list[0].id, "mouse1");
    assert_eq!(list[11].name, "Option");
    assert_eq!(list[5].source, "LEARN");
}

#[test]
fn discovers_usb_and_bluetooth_devices() {
    let usb = vec![
        UsbEntry {
            id_vendor: " 1B1C\n".into(),
            id_product: "2B32".into(),
            serial: String::new(),
            product: String::new(),
            input_names: vec!["event9".into(), "mouse2".into(), "event3".into()],
        },
        UsbEntry {
            id_vendor: "046d".into(),
            id_product: "c52b".into(),
            serial: "x".into(),
            product: "Receiver".into(),
            input_names: vec![],
        },
    ];
    let inputs = vec![
        InputEntry {
            name: "event12".into(),
            vendor: "00001b1c".into(),
            bustype: "0005".into(),
            uniq: "aa:bb".into(),
            product: "1b4c".into(),
            device_name: "Ironclaw".into(),
        },
        InputEntry {
            name: "event3".into(),
            vendor: "1b1c".into(),
            bustype: "0005".into(),
            uniq: "cc".into(),
            product: "1b4c".into(),
            device_name: "Ironclaw".into(),
        },
    ];
    let devices = discover_devices_at(&usb, &inputs);
    assert_eq!(devices.len(), 2);
    let bt = &devices[0];
    assert_eq!(bt.id, "bluetooth-aa:bb");
    assert_eq!(bt.transport, "bluetooth");
    assert_eq!(bt.input_nodes, vec!["/dev/input/event12".to_owned()]);
    let se = &devices[1];
    assert_eq!(se.id, "usb-1b1c-2b32-no-serial");
    assert_eq!(se.name, "Ironclaw Wireless SE");
    assert_eq!(se.vendor_id, "1b1c");
    assert!(!se.protocol_supported);
    assert_eq!(
        se.input_nodes,
        vec!["/dev/input/event3".to_owned(), "/dev/input/event9".to_owned()]
    );
}

#[test]
fn activation_reports_a_missing_dpi_stage() {
    let mut config = Config::default();
    let mut broken = config.active().clone();
    broken.id = "broken".into();
    broken.active_dpi = 5;
    config.profiles.push(broken);
    assert_eq!(
        config.activate_profile("broken".into()).unwrap_err(),
        "Active DPI stage is missing"
    );
    assert_eq!(config.active().id, "broken");
}

#[test]
fn builds_a_corsair_device_from_lowercased_ids() {
    let names = vec!["event7".to_owned(), "js0".to_owned(), "event2".to_owned()];
    let d = corsair_usb_device("1b1c".into(), "1b66".into(), " abc ", "", &names).unwrap();
    assert_eq!(d.id, "usb-1b1c-1b66-abc");
    assert_eq!(d.name, "Ironclaw RGB Wireless receiver");
    assert_eq!(d.transport, "slipstream");
    assert!(d.protocol_supported);
    assert_eq!(d.input_nodes, vec!["/dev/input/event2".to_owned(), "/dev/input/event7".to_owned()]);
    assert!(corsair_usb_device("1B1C".into(), "1b66".into(), "", "", &names).is_none());
    assert!(corsair_usb_device("046d".into(), "c52b".into(), "", "", &names).is_none());
}

#[test]
fn recognizes_corsair_bluetooth_ids() {
    assert!(is_corsair_bluetooth("00001b1c", "0005"));
    assert!(is_corsair_bluetooth("1b1c", "5"));
    assert!(!is_corsair_bluetooth("1B1C", "0005"));
    assert!(!is_corsair_bluetooth("1b1c", "0003"));
}

#[test]
fn default_controls_walk_dpi_and_page() {
    let config = Config::default();
    let mappings = &config.active().mappings;
    let dpiup = mappings.get("dpiup").unwrap();
    assert_eq!((dpiup.action.as_str(), dpiup.value.as_str()), ("key", "PAGEUP"));
    let dpidn = mappings.get("dpidn").unwrap();
    assert_eq!((dpidn.action.as_str(), dpidn.value.as_str()), ("key", "PAGEDOWN"));
    let profup = mappings.get("profup").unwrap();
    assert_eq!((profup.action.as_str(), profup.value.as_str()), ("dpi", "next"));
    let profdn = mappings.get("profdn").unwrap();
    assert_eq!((profdn.action.as_str(), profdn.value.as_str()), ("dpi", "previous"));
}

#[test]
fn wireless_se_side_controls_page_by_default() {
    let mut config = Config::default();
    assert!(apply_device_defaults(&mut config, &[wireless_se()]));
    let out = process_source_event(&mut config, "BRAGI_BUTTON:6", EV_KEY, 277, 1);
    assert_eq!(out, vec![InputEvent { type_: EV_KEY, code: 104, value: 1 }]);
    let out = process_source_event(&mut config, "BRAGI_BUTTON:8", EV_KEY, 280, 1);
    assert!(out.is_empty());
    assert_eq!(config.active().active_dpi, 2);
}
