use gnome_monitor_settings::backend::{
    attach_controls, parse_detect_output, parse_number, parse_vcp_line, parse_vcp_output, parse_version,
    require_supported_version, BackendError, DdcutilBackend,
};
use gnome_monitor_settings::model::ControlKind;

#[test]
fn parses_only_valid_external_displays() {
    let output = r#"
Invalid display
   I2C bus:          /dev/i2c-11
   DRM connector:    card1-eDP-1
   Monitor:          TMX:TL156VDXP0101:

Display 1
   I2C bus:          /dev/i2c-7
   DRM connector:    card0-HDMI-A-1
   Monitor:          GSM:LG ULTRAGEAR:TESTSERIAL
"#;
    let monitors = parse_detect_output(output);
    assert_eq!(monitors.len(), 1);
    assert_eq!(monitors[0].id, "gsm-lg-ultragear-testserial");
    assert_eq!(monitors[0].name, "LG ULTRAGEAR");
    assert_eq!(monitors[0].bus, 7);
}

#[test]
fn parses_continuous_and_non_continuous_features() {
    let output = "VCP 10 C 15 100\nVCP 14 SNC x00 x0b\nVCP 8D NC 0x02\n";
    let controls = parse_vcp_output(output);
    assert_eq!(controls.len(), 3);
    assert_eq!(controls[0].current, 15);
    assert_eq!(controls[0].maximum, 100);
    assert_eq!(controls[1].current, 11);
    assert_eq!(controls[1].maximum, 11);
    assert_eq!(controls[2].current, 2);
    assert_eq!(controls[2].maximum, 2);
}

#[test]
fn ignores_unknown_and_diagnostic_lines() {
    let output = "VCP 60 SNC x00 x01\nInvalid value\nVCP 12 C 0 0\nVCP 10 C 20 100\n";
    let controls = parse_vcp_output(output);
    assert_eq!(controls.len(), 1);
    assert_eq!(controls[0].code, 0x10);
}

#[test]
fn parses_supported_version_formats() {
    assert_eq!(parse_version("ddcutil version: 2.2.1\n").unwrap(), "2.2.1");
    assert_eq!(parse_version("ddcutil 2.2.7\n").unwrap(), "2.2.7");
    assert!(require_supported_version("2.2.1").is_ok());
    assert!(require_supported_version("2.2.7-dev").is_ok());
    assert!(matches!(
        require_supported_version("2.1.4"),
        Err(BackendError::UnsupportedVersion { .. })
    ));
}

#[test]
fn detect_uses_connector_when_serial_is_missing() {
    let output = "Display 2\r\n   I2C bus:  /dev/i2c-+4\r\n   DRM connector: card0-DP-2\r\n   Monitor: DEL:DELL P2419H:\r\n";
    let monitors = parse_detect_output(output);
    assert_eq!(monitors.len(), 1);
    assert_eq!(monitors[0].id, "del-dell-p2419h-card0-dp-2");
    assert_eq!(monitors[0].name, "DELL P2419H");
    assert_eq!(monitors[0].manufacturer, "DEL");
    assert_eq!(monitors[0].model, "DELL P2419H");
    assert_eq!(monitors[0].serial, "");
    assert_eq!(monitors[0].connector, "card0-DP-2");
    assert_eq!(monitors[0].bus, 4);
    assert!(monitors[0].controls.is_empty());
}

#[test]
fn detect_names_monitor_after_manufacturer_without_model() {
    let output = "Display 1\n I2C bus: /dev/i2c-3\n Monitor: ACME\nDisplay 2\n Monitor: X:Y:Z\n";
    let monitors = parse_detect_output(output);
    // The second block has no bus and is dropped.
    assert_eq!(monitors.len(), 1);
    assert_eq!(monitors[0].name, "ACME");
    assert_eq!(monitors[0].id, "acme");
}

#[test]
fn detect_keeps_colons_in_serial_and_collapses_punctuation() {
    let output = "Display 1\n I2C bus: /dev/i2c-12\n Monitor:  --Ab_C : Model 9 : S/N:42 \n";
    let monitors = parse_detect_output(output);
    assert_eq!(monitors.len(), 1);
    assert_eq!(monitors[0].manufacturer, "--Ab_C");
    assert_eq!(monitors[0].model, "Model 9");
    assert_eq!(monitors[0].serial, "S/N:42");
    assert_eq!(monitors[0].id, "ab-c-model-9-s-n-42");
    assert_eq!(monitors[0].bus, 12);
}

#[test]
fn detect_ignores_blocks_without_identity_or_with_bad_bus() {
    let output = "Display 1\n I2C bus: /dev/i2c-1\nDisplay 2\n I2C bus: /dev/i2c-x\n Monitor: A:B:C\nDisplay 3\n I2C bus: /dev/i2c-4294967296\n Monitor: A:B:C\n";
    assert!(parse_detect_output(output).is_empty());
    assert!(parse_detect_output("").is_empty());
}

#[test]
fn parses_numbers_like_the_terse_output() {
    assert_eq!(parse_number("x0b"), Some(11));
    assert_eq!(parse_number("0x02"), Some(2));
    assert_eq!(parse_number("(sl=0x05)"), Some(5));
    assert_eq!(parse_number("100"), Some(100));
    assert_eq!(parse_number("65535"), Some(65535));
    assert_eq!(parse_number("65536"), None);
    assert_eq!(parse_number("0x+5"), Some(5));
    assert_eq!(parse_number("Z"), None);
    assert_eq!(parse_number(""), None);
}

#[test]
fn parses_a_single_line_into_a_described_control() {
    let c = parse_vcp_line("VCP 0x0x8d NC 0x01").unwrap();
    assert_eq!(c.code, 0x8d);
    assert_eq!(c.key, "mute");
    assert_eq!(c.title, "Monitor mute");
    assert_eq!(c.kind, ControlKind::Toggle);
    assert_eq!(c.current, 1);
    assert_eq!(c.maximum, 2);
    assert!(c.writable);
    assert_eq!(c.choices.len(), 2);
    assert_eq!(c.choices[1].label, "Unmuted");
    let b = parse_vcp_line("  VCP 62 XNC 7  ").unwrap();
    assert_eq!(b.key, "volume");
    assert_eq!((b.current, b.maximum), (7, 7));
    assert!(parse_vcp_line("VCP 10 C 5").is_none());
    assert!(parse_vcp_line("VCP 10").is_none());
    assert!(parse_vcp_line("VCP 10 T 5 6").is_none());
    assert!(parse_vcp_line("vcp 10 C 5 6").is_none());
}

#[test]
fn version_parse_errors_carry_trimmed_output() {
    assert_eq!(
        parse_version("  something else \n"),
        Err(BackendError::Parse("something else".to_owned()))
    );
    assert_eq!(
        parse_version("build info\n  ddcutil 2.3.0 \nddcutil version: 9.9.9\n").unwrap(),
        "9.9.9"
    );
}

#[test]
fn version_components_are_read_leniently() {
    assert!(require_supported_version("3").is_ok());
    assert!(require_supported_version("2.3").is_ok());
    assert!(require_supported_version("2.2").is_err());
    assert!(require_supported_version("2.2.0").is_err());
    assert!(require_supported_version("").is_err());
    assert!(require_supported_version("99999999999.0.0").is_err());
    assert!(require_supported_version("10.x.y").is_ok());
}

#[test]
fn builds_command_lines() {
    let v = DdcutilBackend::version_command();
    assert_eq!(v.args, vec!["--version".to_owned()]);
    assert!(!v.accept_partial);
    let d = DdcutilBackend::detect_command();
    assert_eq!(d.args, vec!["detect".to_owned(), "--brief".to_owned()]);
    assert!(d.accept_partial);
    let r = DdcutilBackend::read_controls_command(7);
    assert_eq!(
        r.args,
        ["getvcp", "10", "12", "62", "8d", "14", "16", "18", "1a", "--terse", "--bus", "7"]
            .iter()
            .map(|s| s.to_string())
            .collect::<Vec<_>>()
    );
    assert!(r.accept_partial);
    let one = DdcutilBackend::read_control_command(18, 0x14).unwrap();
    assert_eq!(one.args, ["getvcp", "14", "--terse", "--bus", "18"].map(String::from).to_vec());
    let w = DdcutilBackend::write_control_command(18, 0x10, 42).unwrap();
    assert_eq!(
        w.args,
        ["setvcp", "10", "42", "--noverify", "--bus", "18"].map(String::from).to_vec()
    );
    assert_eq!(
        DdcutilBackend::write_control_command(3, 0xd6, 1).err(),
        Some(BackendError::Unsupported { monitor_id: "bus-3".to_owned(), code: 0xd6 })
    );
    assert!(DdcutilBackend::read_control_command(3, 0x60).is_err());
}

#[test]
fn interprets_command_outcomes() {
    assert!(DdcutilBackend::command_outcome(true, false, "", "exit status: 0").is_ok());
    assert!(DdcutilBackend::command_outcome(false, true, "boom", "exit status: 1").is_ok());
    assert_eq!(
        DdcutilBackend::command_outcome(false, false, "  no monitor \n", "exit status: 1"),
        Err(BackendError::Command("no monitor".to_owned()))
    );
    assert_eq!(
        DdcutilBackend::command_outcome(false, false, " \n", "exit status: 1"),
        Err(BackendError::Command("exited with exit status: 1".to_owned()))
    );
    assert_eq!(
        DdcutilBackend::read_controls_outcome("junk\n", ""),
        Err(BackendError::Command("no supported safe controls were returned".to_owned()))
    );
    assert_eq!(
        DdcutilBackend::read_controls_outcome("", " busy "),
        Err(BackendError::Command("busy".to_owned()))
    );
    assert_eq!(DdcutilBackend::read_controls_outcome("VCP 10 C 1 2\n", "").unwrap().len(), 1);
    let c = DdcutilBackend::read_control_outcome(0x12, "VCP 10 C 1 2\nVCP 12 C 30 80\n").unwrap();
    assert_eq!((c.code, c.current, c.maximum), (0x12, 30, 80));
    assert_eq!(
        DdcutilBackend::read_control_outcome(0x16, "VCP 10 C 1 2\n"),
        Err(BackendError::Parse("VCP 10 C 1 2\n".to_owned()))
    );
    assert_eq!(DdcutilBackend::version_outcome("ddcutil 2.2.1\n").unwrap(), "2.2.1");
    assert_eq!(
        DdcutilBackend::version_outcome("ddcutil 1.4.1\n"),
        Err(BackendError::UnsupportedVersion { found: "1.4.1".to_owned() })
    );
}

#[test]
fn backend_defaults() {
    let b = DdcutilBackend::default();
    assert_eq!(b.program(), "/usr/bin/ddcutil");
    assert_eq!(b.timeout_secs(), 8);
    assert_eq!(DdcutilBackend::new("/opt/ddcutil").program(), "/opt/ddcutil");
}

#[test]
fn backend_error_messages() {
    assert_eq!(
        BackendError::MissingProgram("/usr/bin/ddcutil".to_owned()).to_string(),
        "ddcutil is not installed at /usr/bin/ddcutil"
    );
    assert_eq!(BackendError::Timeout(8).to_string(), "ddcutil command timed out after 8s");
    assert_eq!(BackendError::Command("x".to_owned()).to_string(), "ddcutil failed: x");
    assert_eq!(
        BackendError::Parse("y".to_owned()).to_string(),
        "ddcutil returned malformed output: y"
    );
    assert_eq!(
        BackendError::UnsupportedVersion { found: "2.1.4".to_owned() }.to_string(),
        "ddcutil 2.1.4 is unsupported; version 2.2.1 or newer is required"
    );
    assert_eq!(
        BackendError::MissingMonitor("one".to_owned()).to_string(),
        "monitor one is no longer connected"
    );
    assert_eq!(
        BackendError::Unsupported { monitor_id: "bus-7".to_owned(), code: 0x0a }.to_string(),
        "monitor bus-7 does not expose writable VCP feature 0x0a"
    );
    assert_eq!(
        BackendError::OutOfRange { code: 0x10, value: 101, maximum: 100 }.to_string(),
        "value 101 exceeds maximum 100 for VCP feature 0x10"
    );
}

#[test]
fn detect_output_read_in_two_parts() {
    let a = "Display 1\n I2C bus: /dev/i2c-7\n Monitor: GSM:LG:ONE\n";
    let b = "Invalid display\n I2C bus: /dev/i2c-9\nDisplay 2\n I2C bus: /dev/i2c-8\n Monitor: DEL:P:TWO\n";
    let mut joined = parse_detect_output(a);
    joined.extend(parse_detect_output(b));
    assert_eq!(parse_detect_output(&format!("{a}{b}")), joined);
    assert_eq!(joined.len(), 2);
}

#[test]
fn reconnected_monitor_keeps_its_id() {
    let before = "Display 1\n I2C bus: /dev/i2c-7\n DRM connector: card0-HDMI-A-1\n Monitor: GSM:LG ULTRAGEAR:TESTSERIAL\n";
    let after = "Display 1\n I2C bus: /dev/i2c-12\n DRM connector: card1-DP-3\n Monitor: GSM:LG ULTRAGEAR:TESTSERIAL\n";
    let m1 = parse_detect_output(before);
    let m2 = parse_detect_output(after);
    assert_eq!(m1[0].id, m2[0].id);
    assert_ne!(m1[0].bus, m2[0].bus);
    let no_serial = parse_detect_output("Display 1\n I2C bus: /dev/i2c-12\n DRM connector: card1-DP-3\n Monitor: GSM:LG:\n");
    assert_eq!(no_serial[0].id, "gsm-lg-card1-dp-3");
}

#[test]
fn attaching_controls_after_discovery() {
    let mut monitors = parse_detect_output("Display 1\n I2C bus: /dev/i2c-7\n Monitor: A:B:C\n");
    let before = monitors[0].clone();
    let failed = attach_controls(&mut monitors[0], Err(BackendError::Timeout(8)));
    assert_eq!(failed, Some(BackendError::Timeout(8)));
    assert_eq!(monitors[0], before);
    let controls = parse_vcp_output("VCP 10 C 3 9\n");
    assert!(attach_controls(&mut monitors[0], Ok(controls.clone())).is_none());
    assert_eq!(monitors[0].controls, controls);
    assert_eq!(monitors[0].id, before.id);
}

#[test]
fn overwritten_bus_line_does_not_change_identity() {
    let before = "Display 1\n I2C bus: /dev/i2c-3\n I2C bus: /dev/i2c-7\n Monitor: GSM:LG:SN1\n";
    let after = "Display 1\n I2C bus: none\n I2C bus: /dev/i2c-9\n Monitor: GSM:LG:SN1\n";
    let m1 = parse_detect_output(before);
    let m2 = parse_detect_output(after);
    assert_eq!(m1.len(), 1);
    assert_eq!(m2.len(), 1);
    assert_eq!(m1[0].id, m2[0].id);
    assert_eq!((m1[0].bus, m2[0].bus), (7, 9));
}
