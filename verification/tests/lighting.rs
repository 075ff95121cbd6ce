use corsair_control::model::{Device, Lighting};
use corsair_control::rgb::{lighting_colors, normalized_color, openrgb_ironclaw, RgbAdapter};
use corsair_control::strmap::StrMap;

fn lighting(mode: &str, zones: &[(&str, bool)]) -> Lighting {
    let mut map: StrMap<bool> = StrMap::new();
    for (zone, lit) in zones {
        map.insert((*zone).to_owned(), *lit);
    }
    Lighting {
        mode: mode.into(),
        color: "#38d9c5".into(),
        secondary_color: "#ff6b35".into(),
        brightness: 72,
        speed: 45,
        zones: map,
    }
}

fn device() -> Device {
    Device {
        id: "usb-1b1c-2b32-test".into(),
        vendor_id: "1b1c".into(),
        product_id: "2b32".into(),
        name: "Ironclaw Wireless SE".into(),
        serial: "test".into(),
        transport: "usb".into(),
        connected: true,
        protocol_supported: false,
        input_nodes: vec![],
    }
}

#[test]
fn finds_numbered_openrgb_ironclaw() {
    let output = "0: Mainboard\n1: Corsair Ironclaw Wireless SE\n  Type: Mouse\n";
    assert_eq!(
        openrgb_ironclaw(output),
        Some(("1".into(), "Corsair Ironclaw Wireless SE".into()))
    );
}

#[test]
fn creates_three_zone_color_payload() {
    let lighting = lighting("gradient", &[("front", true), ("wheel", false), ("logo", true)]);
    assert_eq!(lighting_colors(&lighting).unwrap(), "FF6B35,000000,38D9C5");
}

#[test]
fn ignores_unnumbered_and_other_devices() {
    assert_eq!(openrgb_ironclaw("Mainboard: ironclaw\nx1: IRONCLAW\n"), None);
    assert_eq!(
        openrgb_ironclaw("  12:   CORSAIR IRONCLAW RGB  \n13: Ironclaw"),
        Some(("12".into(), "CORSAIR IRONCLAW RGB".into()))
    );
    assert_eq!(openrgb_ironclaw(""), None);
}

#[test]
fn normalizes_hex_colors() {
    assert_eq!(normalized_color("  #a1b2c3 ").unwrap(), "A1B2C3");
    assert_eq!(normalized_color("##00ff00").unwrap(), "00FF00");
    assert_eq!(normalized_color("#12345").unwrap_err(), "Invalid RGB color: #12345");
    assert_eq!(normalized_color("zz0000").unwrap_err(), "Invalid RGB color: zz0000");
}

#[test]
fn zones_default_to_lit_and_off_is_black() {
    let statics = lighting("static", &[]);
    assert_eq!(lighting_colors(&statics).unwrap(), "38D9C5,FF6B35,38D9C5");
    let off = lighting("off", &[]);
    assert_eq!(lighting_colors(&off).unwrap(), "000000");
    let mut bad = lighting("static", &[]);
    bad.color = "teal".into();
    assert_eq!(lighting_colors(&bad).unwrap_err(), "Invalid RGB color: teal");
}

#[test]
fn probing_reports_why_lighting_is_unavailable() {
    let none: Vec<Device> = vec![];
    assert_eq!(RgbAdapter::pending(&none).status.reason, "No Corsair device is connected");
    let devices = vec![device()];
    let missing = RgbAdapter::probe(&devices, None);
    assert!(!missing.status.available);
    assert_eq!(missing.status.reason, "OpenRGB is not installed");
    let absent = RgbAdapter::probe(&devices, Some("0: Mainboard\n".into()));
    assert_eq!(
        absent.status.reason,
        "OpenRGB is installed, but does not expose the connected Ironclaw (1b1c:2b32). Lighting profiles and previews remain available."
    );
    assert_eq!(absent.apply(&lighting("static", &[])).unwrap_err(), absent.status.reason);
}

#[test]
fn applies_lighting_through_openrgb() {
    let devices = vec![device()];
    let mut adapter = RgbAdapter::probe(&devices, Some("3: Corsair Ironclaw\n".into()));
    assert!(adapter.status.available);
    assert_eq!(adapter.status.backend, "OpenRGB CLI");
    assert_eq!(adapter.status.device_name, "Corsair Ironclaw");
    let args = adapter.apply(&lighting("wave", &[])).unwrap();
    assert_eq!(
        args,
        vec![
            "--device", "3", "--mode", "rainbow wave", "--color", "38D9C5,FF6B35,38D9C5",
            "--brightness", "72", "--speed", "45", "--noautoconnect", "--loglevel", "2",
        ]
    );
    assert_eq!(adapter.apply(&lighting("disco", &[])).unwrap_err(), "Unsupported RGB mode");
    assert_eq!(adapter.finish_apply(false, "  failed\n", Some(9)).unwrap_err(), "failed");
    assert_eq!(adapter.status.last_applied, None);
    adapter.finish_apply(true, "", Some(9)).unwrap();
    assert_eq!(adapter.status.last_applied, Some(9));
}
