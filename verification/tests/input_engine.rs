use corsair_control::input::{
    event_source, find_mapping, internal_action, key_code, physical_input, process_event,
    process_source_event, update_activity, InputDriver, InputEvent, EV_KEY, EV_REL, EV_SYN,
};
use corsair_control::model::{Config, Mapping};
use corsair_control::strmap::StrMap;

fn key(code: u16, value: i32) -> InputEvent {
    InputEvent { type_: EV_KEY, code, value }
}

fn syn() -> InputEvent {
    InputEvent { type_: EV_SYN, code: 0, value: 0 }
}

#[test]
fn event_sources_include_wheel_direction() {
    assert_eq!(event_source(EV_REL, 8, -1), "EV_REL:8:-1");
    assert_eq!(event_source(EV_KEY, 277, 1), "EV_KEY:277");
}

#[test]
fn parses_shortcut_keys() {
    assert_eq!(key_code("ctrl"), Some(29));
    assert_eq!(key_code("T"), Some(20));
    assert_eq!(key_code("F13"), Some(183));
    assert_eq!(key_code("F24"), Some(194));
}

#[test]
fn physical_key_activity_tracks_holds_and_latches_releases() {
    let mut activity: StrMap<Option<u64>> = StrMap::new();
    let now: u64 = 1_000;
    let mut event = InputEvent { type_: EV_KEY, code: 272, value: 1 };
    update_activity(&mut activity, &event, now);
    assert_eq!(activity.get("EV_KEY:272"), Some(&None));
    event.value = 0;
    update_activity(&mut activity, &event, now);
    assert!(activity.get("EV_KEY:272").unwrap().is_some());
}

#[test]
fn physical_events_ignore_pointer_motion() {
    let event = InputEvent { type_: EV_REL, code: 0, value: 14 };
    assert!(physical_input(&event).is_none());
}

#[test]
fn wheel_steps_are_shown_as_pulses() {
    let shown = physical_input(&InputEvent { type_: EV_REL, code: 8, value: 1 }).unwrap();
    assert_eq!(shown.source, "EV_REL:8:1");
    assert!(shown.pressed && shown.pulse);
    let release = physical_input(&key(273, 0)).unwrap();
    assert_eq!(release.source, "EV_KEY:273");
    assert!(!release.pressed && !release.pulse);
    assert!(physical_input(&key(273, 2)).is_none());
}

#[test]
fn key_names_are_trimmed_and_case_blind() {
    assert_eq!(key_code("  pageup "), Some(104));
    assert_eq!(key_code("a"), Some(30));
    assert_eq!(key_code("9"), Some(10));
    assert_eq!(key_code("F1"), Some(59));
    assert_eq!(key_code("F25"), None);
    assert_eq!(key_code("hyper"), None);
}

#[test]
fn activity_lingers_after_release() {
    let mut activity: StrMap<Option<u64>> = StrMap::new();
    update_activity(&mut activity, &key(272, 0), 1_000);
    assert_eq!(activity.get("EV_KEY:272"), Some(&Some(1_500)));
    update_activity(&mut activity, &InputEvent { type_: EV_REL, code: 0, value: 0 }, 1_000);
    assert_eq!(activity.len(), 1);
}

#[test]
fn unmapped_events_pass_through_unchanged() {
    let mut config = Config::default();
    let event = key(300, 1);
    assert_eq!(process_event(&mut config, event), vec![event]);
    assert_eq!(process_event(&mut config, syn()), vec![syn()]);
    assert_eq!(process_event(&mut config, InputEvent { type_: 4, code: 4, value: 9 }), vec![]);
}

#[test]
fn finds_the_mapping_of_a_source() {
    let config = Config::default();
    let (id, mapping) = find_mapping(&config, "EV_KEY:277").unwrap();
    assert_eq!(id, "forward");
    assert_eq!(mapping.action, "passthrough");
    assert!(find_mapping(&config, "EV_KEY:999").is_none());
}

fn with_mapping(config: &mut Config, id: &str, source: &str, action: &str, value: &str) {
    let profile = &mut config.profiles[0];
    profile.sources.insert(id.to_owned(), source.to_owned());
    profile.mappings.insert(
        id.to_owned(),
        Mapping { action: action.to_owned(), value: value.to_owned(), label: String::new() },
    );
}

#[test]
fn shortcut_presses_then_releases_in_reverse() {
    let mut config = Config::default();
    with_mapping(&mut config, "option", "BRAGI_BUTTON:11", "shortcut", "CTRL+ALT+T");
    let out = process_source_event(&mut config, "BRAGI_BUTTON:11", EV_KEY, 282, 1);
    assert_eq!(
        out,
        vec![key(29, 1), key(56, 1), key(20, 1), syn(), key(20, 0), key(56, 0), key(29, 0), syn()]
    );
    assert_eq!(process_source_event(&mut config, "BRAGI_BUTTON:11", EV_KEY, 282, 0), vec![]);
}

#[test]
fn key_mapping_turns_wheel_steps_into_taps() {
    let mut config = Config::default();
    with_mapping(&mut config, "wheelup", "EV_REL:8:1", "key", "PAGEUP");
    let out = process_event(&mut config, InputEvent { type_: EV_REL, code: 8, value: 1 });
    assert_eq!(out, vec![key(104, 1), key(104, 0)]);
    with_mapping(&mut config, "back", "EV_KEY:278", "key", "pagedown");
    assert_eq!(process_event(&mut config, key(278, 1)), vec![key(109, 1)]);
    assert_eq!(process_event(&mut config, key(278, 0)), vec![key(109, 0)]);
    with_mapping(&mut config, "forward", "EV_KEY:277", "disabled", "");
    assert_eq!(process_event(&mut config, key(277, 1)), vec![]);
}

#[test]
fn dpi_controls_stop_at_the_ends_of_the_ladder() {
    let mut config = Config::default();
    with_mapping(&mut config, "dpiup", "BRAGI_BUTTON:7", "dpi", "next");
    assert_eq!(config.profiles[0].active_dpi, 1);
    assert_eq!(process_source_event(&mut config, "BRAGI_BUTTON:7", EV_KEY, 278, 1), vec![]);
    assert_eq!(config.profiles[0].active_dpi, 2);
    process_source_event(&mut config, "BRAGI_BUTTON:7", EV_KEY, 278, 1);
    assert_eq!(config.profiles[0].active_dpi, 2);
    internal_action(&mut config, "dpi", "previous");
    internal_action(&mut config, "dpi", "previous");
    internal_action(&mut config, "dpi", "previous");
    assert_eq!(config.profiles[0].active_dpi, 0);
}

#[test]
fn profile_actions_cycle_through_profiles() {
    let mut config = Config::default();
    let mut second = config.profiles[0].clone();
    second.id = "games".to_owned();
    config.profiles.push(second);
    internal_action(&mut config, "profile", "next");
    assert_eq!(config.active_profile, "games");
    internal_action(&mut config, "profile", "next");
    assert_eq!(config.active_profile, "desktop");
    internal_action(&mut config, "profile", "previous");
    assert_eq!(config.active_profile, "games");
    internal_action(&mut config, "volume", "next");
    assert_eq!(config.active_profile, "games");
}

#[test]
fn learning_captures_the_next_press() {
    let mut config = Config::default();
    let mut driver = InputDriver::new(vec!["/dev/input/event5".to_owned()]);
    driver.learn("option".to_owned());
    let (_, out) = driver.handle_event(&mut config, key(300, 1), "/dev/input/event5", 10);
    assert_eq!(out, vec![key(300, 1)]);
    driver.handle_event(&mut config, key(301, 1), "/dev/input/event5", 20);
    let status = driver.status(30);
    assert_eq!(status.learn_button, "");
    let capture = status.last_capture.unwrap();
    assert_eq!(capture.button_id, "option");
    assert_eq!(capture.source, "EV_KEY:300");
    assert_eq!(capture.node, "/dev/input/event5");
    assert_eq!(status.active_sources, vec!["EV_KEY:300".to_owned(), "EV_KEY:301".to_owned()]);
}

#[test]
fn control_buttons_emit_their_linux_key() {
    let mut config = Config::default();
    let mut driver = InputDriver::new(vec![]);
    let (shown, out) = driver.handle_control_button(&mut config, 4, true, "/dev/hidraw3", 0);
    assert_eq!(shown.source, "BRAGI_BUTTON:5");
    assert!(shown.pressed);
    assert_eq!(out, vec![key(275, 1), syn()]);
    let (_, out) = driver.handle_control_button(&mut config, 4, false, "/dev/hidraw3", 0);
    assert_eq!(out, vec![key(275, 0), syn()]);
    assert_eq!(driver.status(100).active_sources, vec!["BRAGI_BUTTON:5".to_owned()]);
    assert!(driver.status(500).active_sources.is_empty());
}

#[test]
fn driver_runs_while_readers_run() {
    let mut driver = InputDriver::new(vec![]);
    let status = driver.status(0);
    assert_eq!(
        status.error,
        "No Corsair input nodes found. Reconnect the device after installing udev rules."
    );
    assert!(!status.running);
    driver.readers_starting();
    driver.reader_opened();
    driver.reader_opened();
    assert!(driver.status(0).running);
    driver.reader_closed();
    assert!(driver.status(0).running);
    driver.reader_closed();
    assert!(!driver.status(0).running);
}

#[test]
fn output_failure_reports_permission() {
    let mut driver = InputDriver::new(vec!["/dev/input/event5".to_owned()]);
    driver.output_failed(true, "Permission denied");
    let status = driver.status(0);
    assert!(status.permission_required);
    assert_eq!(status.error, "Cannot open /dev/uinput: Permission denied");
}

#[test]
fn key_names_mean_the_same_in_normal_form() {
    assert_eq!(key_code(" pageup "), key_code("PAGEUP"));
    assert_eq!(key_code("PAGEUP"), Some(104));
    assert_eq!(key_code("super"), key_code("META"));
    assert_eq!(key_code("META"), Some(125));
}
