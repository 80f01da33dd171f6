use gnome_monitor_settings::model::{
    choices_for, feature_definition, normalized_percent, safe_feature_codes, toggle_value, Control,
    ControlKind,
    Monitor, ServiceState, API_VERSION, BRIGHTNESS,
};
use gnome_monitor_settings::{APP_ID, DBUS_INTERFACE, DBUS_NAME, DBUS_PATH};

#[test]
fn application_and_service_have_distinct_bus_names() {
    assert_ne!(APP_ID, DBUS_NAME);
}

#[test]
fn bus_identifiers() {
    assert_eq!(DBUS_PATH, "/io/github/avifenesh/GnomeMonitorSettings");
    assert_eq!(DBUS_INTERFACE, "io.github.avifenesh.GnomeMonitorSettings1");
}

#[test]
fn only_safe_features_are_defined() {
    let codes = safe_feature_codes();
    assert_eq!(codes, vec![0x10, 0x12, 0x62, 0x8d, 0x14, 0x16, 0x18, 0x1a]);
    for code in 0..=255u8 {
        let def = feature_definition(code);
        assert_eq!(def.is_some(), codes.contains(&code));
        if let Some(d) = def {
            assert_eq!(d.code, code);
        }
    }
    let b = feature_definition(BRIGHTNESS).unwrap();
    assert_eq!((b.key, b.title, b.kind), ("brightness", "Brightness", ControlKind::Continuous));
    let p = feature_definition(0x14).unwrap();
    assert_eq!((p.key, p.title, p.kind), ("color_preset", "Colour preset", ControlKind::Choice));
    assert!(feature_definition(0xd6).is_none());
    assert!(feature_definition(0x04).is_none());
}

#[test]
fn named_choices() {
    let mute = choices_for(0x8d);
    assert_eq!(mute.len(), 2);
    assert_eq!((mute[0].value, mute[0].label.as_str()), (1, "Muted"));
    let presets = choices_for(0x14);
    assert_eq!(presets.len(), 8);
    assert_eq!((presets[6].value, presets[6].label.as_str()), (10, "11500 K"));
    assert!(choices_for(0x10).is_empty());
}

fn control(code: u8, current: u16, maximum: u16) -> Control {
    Control {
        code,
        key: String::new(),
        title: String::new(),
        kind: ControlKind::Continuous,
        current,
        maximum,
        writable: true,
        choices: Vec::new(),
    }
}

#[test]
fn finds_the_first_control_with_a_code() {
    let m = Monitor {
        id: "m".to_owned(),
        name: "m".to_owned(),
        manufacturer: String::new(),
        model: String::new(),
        serial: String::new(),
        connector: String::new(),
        bus: 1,
        controls: vec![control(0x12, 1, 2), control(0x10, 3, 4), control(0x10, 5, 6)],
    };
    assert_eq!(m.control(0x10).unwrap().current, 3);
    assert!(m.control(0x62).is_none());
}

#[test]
fn default_state_is_not_ready() {
    let s = ServiceState::default();
    assert_eq!(s.api_version, API_VERSION);
    assert!(!s.ready);
    assert!(s.ddcutil_version.is_none() && s.error.is_none() && s.monitors.is_empty());
}

#[test]
fn normalized_percentages() {
    assert_eq!(normalized_percent(&control(0x10, 50, 200)), 25);
    assert_eq!(normalized_percent(&control(0x10, 7, 0)), 0);
    assert_eq!(normalized_percent(&control(0x10, 199, 200)), 99);
    assert_eq!(normalized_percent(&control(0x10, 200, 200)), 100);
}

#[test]
fn two_state_and_named_value_helpers() {
    let mut c = control(0x8d, 1, 2);
    c.choices = choices_for(0x8d);
    assert!(c.is_on());
    assert_eq!(c.choice_index(2), Some(1));
    assert_eq!(c.choice_index(3), None);
    c.current = 2;
    assert!(!c.is_on());
    assert_eq!(toggle_value(true), 1);
    assert_eq!(toggle_value(false), 2);
}
