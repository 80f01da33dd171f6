use std::sync::Mutex as StdMutex;

use gnome_monitor_settings::backend::{BackendError, MonitorBackend};
use gnome_monitor_settings::manager::{
    apply_control_readback, apply_refresh, failure_entry, finish_all_brightness,
    plan_all_brightness, plan_control_write, ready_action, scaled_brightness, write_delay,
    ManagerError, ReadyAction,
    WriteRequest,
};
use gnome_monitor_settings::model::{Choice, Control, ControlKind, Monitor, ServiceState, BRIGHTNESS};

struct FakeBackend {
    monitors: Vec<Monitor>,
    writes: StdMutex<Vec<(u32, u8, u16)>>,
}

impl MonitorBackend for FakeBackend {
    fn version(&self) -> Result<String, BackendError> {
        Ok("2.2.1".to_owned())
    }

    fn discover(&self) -> Result<Vec<Monitor>, BackendError> {
        Ok(self.monitors.clone())
    }

    fn read_control(&self, _bus: u32, code: u8) -> Result<Control, BackendError> {
        let value = self
            .writes
            .lock()
            .unwrap()
            .iter()
            .rev()
            .find(|(_, written_code, _)| *written_code == code)
            .map(|(_, _, value)| *value)
            .unwrap_or(0);
        Ok(Control {
            code,
            key: "brightness".to_owned(),
            title: "Brightness".to_owned(),
            kind: ControlKind::Continuous,
            current: value,
            maximum: 100,
            writable: true,
            choices: Vec::new(),
        })
    }

    fn write_control(&self, bus: u32, code: u8, value: u16) -> Result<(), BackendError> {
        self.writes.lock().unwrap().push((bus, code, value));
        Ok(())
    }
}

fn monitor_with_maximum(id: &str, bus: u32, maximum: u16) -> Monitor {
    Monitor {
        id: id.to_owned(),
        name: id.to_owned(),
        manufacturer: "GSM".to_owned(),
        model: id.to_owned(),
        serial: String::new(),
        connector: format!("card0-HDMI-A-{bus}"),
        bus,
        controls: vec![Control {
            code: BRIGHTNESS,
            key: "brightness".to_owned(),
            title: "Brightness".to_owned(),
            kind: ControlKind::Continuous,
            current: 10,
            maximum,
            writable: true,
            choices: Vec::new(),
        }],
    }
}

fn monitor(id: &str, bus: u32) -> Monitor {
    monitor_with_maximum(id, bus, 100)
}

// The manager's steps, driven synchronously against a backend.
fn refresh(state: &mut ServiceState, backend: &dyn MonitorBackend) -> Result<ServiceState, ManagerError> {
    let outcome = backend
        .version()
        .and_then(|version| backend.discover().map(|monitors| (version, monitors)));
    apply_refresh(state, outcome)?;
    Ok(state.clone())
}

fn set_control(
    state: &mut ServiceState,
    backend: &dyn MonitorBackend,
    monitor_id: &str,
    code: u8,
    value: u16,
) -> Result<ServiceState, ManagerError> {
    let WriteRequest { bus, code, value } = plan_control_write(state, monitor_id, code, value)?;
    let outcome = backend
        .write_control(bus, code, value)
        .and_then(|()| backend.read_control(bus, code));
    apply_control_readback(state, monitor_id, code, outcome)?;
    Ok(state.clone())
}

fn set_all_brightness(
    state: &mut ServiceState,
    backend: &dyn MonitorBackend,
    value: u16,
) -> Result<ServiceState, ManagerError> {
    let targets = plan_all_brightness(state, value)?;
    let mut failures = Vec::new();
    let mut successes = 0;
    for (monitor_id, monitor_value) in targets {
        match set_control(state, backend, &monitor_id, BRIGHTNESS, monitor_value) {
            Ok(_) => successes += 1,
            Err(error) => failures.push(failure_entry(&monitor_id, &error)),
        }
    }
    finish_all_brightness(state, &failures, successes)?;
    Ok(state.clone())
}

#[test]
fn validates_and_reads_back_writes() {
    let backend = FakeBackend { monitors: vec![monitor("one", 18)], writes: StdMutex::new(Vec::new()) };
    let mut state = ServiceState::default();
    refresh(&mut state, &backend).unwrap();

    let state = set_control(&mut state, &backend, "one", BRIGHTNESS, 42).unwrap();
    assert_eq!(state.monitors[0].control(BRIGHTNESS).unwrap().current, 42);
    assert_eq!(backend.writes.lock().unwrap().as_slice(), &[(18, 0x10, 42)]);
}

#[test]
fn rejects_out_of_range_values_without_writing() {
    let backend = FakeBackend { monitors: vec![monitor("one", 18)], writes: StdMutex::new(Vec::new()) };
    let mut state = ServiceState::default();
    refresh(&mut state, &backend).unwrap();

    let error = set_control(&mut state, &backend, "one", BRIGHTNESS, 101).unwrap_err();
    assert!(matches!(error, ManagerError::OutOfRange { .. }));
    assert!(backend.writes.lock().unwrap().is_empty());
}

#[test]
fn updates_every_brightness_capable_monitor() {
    let backend = FakeBackend {
        monitors: vec![monitor("one", 18), monitor_with_maximum("two", 19, 200)],
        writes: StdMutex::new(Vec::new()),
    };
    let mut state = ServiceState::default();
    refresh(&mut state, &backend).unwrap();

    set_all_brightness(&mut state, &backend, 55).unwrap();
    assert_eq!(
        backend.writes.lock().unwrap().as_slice(),
        &[(18, BRIGHTNESS, 55), (19, BRIGHTNESS, 110)]
    );
}

#[test]
fn rejects_invalid_combined_percentage() {
    let backend = FakeBackend { monitors: vec![monitor("one", 18)], writes: StdMutex::new(Vec::new()) };
    let mut state = ServiceState::default();
    refresh(&mut state, &backend).unwrap();

    let error = set_all_brightness(&mut state, &backend, 101).unwrap_err();
    assert!(matches!(error, ManagerError::OutOfRange { .. }));
    assert!(backend.writes.lock().unwrap().is_empty());
}

fn ready_state(monitors: Vec<Monitor>) -> ServiceState {
    let mut state = ServiceState::default();
    apply_refresh(&mut state, Ok(("2.2.1".to_owned(), monitors))).unwrap();
    state
}

#[test]
fn refresh_outcomes_update_the_state() {
    let state = ready_state(vec![monitor("one", 1)]);
    assert!(state.ready);
    assert_eq!(state.ddcutil_version.as_deref(), Some("2.2.1"));
    assert!(state.error.is_none());
    assert_eq!(state.monitors.len(), 1);

    let mut failed = state.clone();
    let err = apply_refresh(&mut failed, Err(BackendError::Timeout(8))).unwrap_err();
    assert_eq!(err, ManagerError::Backend(BackendError::Timeout(8)));
    assert!(!failed.ready);
    assert_eq!(failed.error.as_deref(), Some("ddcutil command timed out after 8s"));
    assert_eq!(failed.monitors, state.monitors);
    assert_eq!(failed.ddcutil_version, state.ddcutil_version);
}

#[test]
fn plans_reject_each_kind_of_bad_request() {
    let mut m = monitor("one", 5);
    m.controls.push(Control {
        code: 0x14,
        key: "color_preset".to_owned(),
        title: "Colour preset".to_owned(),
        kind: ControlKind::Choice,
        current: 1,
        maximum: 11,
        writable: true,
        choices: vec![Choice { value: 1, label: "sRGB".to_owned() }, Choice { value: 4, label: "5000 K".to_owned() }],
    });
    m.controls.push(Control {
        code: 0x12,
        key: "contrast".to_owned(),
        title: "Contrast".to_owned(),
        kind: ControlKind::Continuous,
        current: 1,
        maximum: 100,
        writable: false,
        choices: Vec::new(),
    });
    let state = ready_state(vec![m]);
    assert_eq!(
        plan_control_write(&state, "one", 0xd6, 1),
        Err(ManagerError::Unsupported { monitor_id: "one".to_owned(), code: 0xd6 })
    );
    assert_eq!(
        plan_control_write(&state, "two", 0x10, 1),
        Err(ManagerError::MissingMonitor("two".to_owned()))
    );
    assert_eq!(
        plan_control_write(&state, "one", 0x12, 1),
        Err(ManagerError::Unsupported { monitor_id: "one".to_owned(), code: 0x12 })
    );
    assert_eq!(
        plan_control_write(&state, "one", 0x62, 1),
        Err(ManagerError::Unsupported { monitor_id: "one".to_owned(), code: 0x62 })
    );
    assert_eq!(
        plan_control_write(&state, "one", 0x14, 5),
        Err(ManagerError::OutOfRange { code: 0x14, value: 5, maximum: 11 })
    );
    assert_eq!(
        plan_control_write(&state, "one", 0x14, 4),
        Ok(WriteRequest { bus: 5, code: 0x14, value: 4 })
    );
    assert_eq!(
        plan_control_write(&state, "one", 0x10, 100),
        Ok(WriteRequest { bus: 5, code: 0x10, value: 100 })
    );
}

#[test]
fn readback_outcomes() {
    let state = ready_state(vec![monitor("one", 5)]);
    let mut s = state.clone();
    s.error = Some("old".to_owned());
    let mut readback = state.monitors[0].controls[0].clone();
    readback.current = 77;
    apply_control_readback(&mut s, "one", BRIGHTNESS, Ok(readback.clone())).unwrap();
    assert_eq!(s.monitors[0].controls[0], readback);
    assert!(s.error.is_none());

    let mut t = state.clone();
    assert_eq!(
        apply_control_readback(&mut t, "one", BRIGHTNESS, Err(BackendError::Command("x".to_owned()))),
        Err(ManagerError::Backend(BackendError::Command("x".to_owned())))
    );
    assert_eq!(t, state);
    assert_eq!(
        apply_control_readback(&mut t, "gone", BRIGHTNESS, Ok(readback.clone())),
        Err(ManagerError::MissingMonitor("gone".to_owned()))
    );
    assert_eq!(
        apply_control_readback(&mut t, "one", 0x12, Ok(readback)),
        Err(ManagerError::Unsupported { monitor_id: "one".to_owned(), code: 0x12 })
    );
    assert_eq!(t, state);
}

#[test]
fn combined_brightness_planning() {
    let mut no_brightness = monitor("dark", 3);
    no_brightness.controls.clear();
    let state = ready_state(vec![monitor_with_maximum("a", 1, 37), no_brightness.clone(), monitor_with_maximum("b", 2, 0)]);
    assert_eq!(plan_all_brightness(&state, 50).unwrap(), vec![("a".to_owned(), 19), ("b".to_owned(), 0)]);
    assert_eq!(plan_all_brightness(&state, 100).unwrap()[0].1, 37);
    let only_dark = ready_state(vec![no_brightness]);
    assert_eq!(
        plan_all_brightness(&only_dark, 10),
        Err(ManagerError::Unsupported { monitor_id: "all monitors".to_owned(), code: BRIGHTNESS })
    );
    assert_eq!(
        plan_all_brightness(&state, 101),
        Err(ManagerError::OutOfRange { code: BRIGHTNESS, value: 101, maximum: 100 })
    );
}

#[test]
fn scaled_brightness_values() {
    assert_eq!(scaled_brightness(55, 200), 110);
    assert_eq!(scaled_brightness(50, 37), 19);
    assert_eq!(scaled_brightness(100, 65535), 65535);
    assert_eq!(scaled_brightness(0, 65535), 0);
    assert_eq!(scaled_brightness(1, 49), 0);
    assert_eq!(scaled_brightness(1, 50), 1);
}

#[test]
fn combined_brightness_results() {
    let state = ready_state(vec![monitor("one", 1)]);
    let mut s = state.clone();
    let failures = vec!["one: x".to_owned(), "two: y".to_owned()];
    assert_eq!(
        finish_all_brightness(&mut s, &failures, 0),
        Err(ManagerError::Backend(BackendError::Command("one: x; two: y".to_owned())))
    );
    assert_eq!(s, state);
    finish_all_brightness(&mut s, &failures, 1).unwrap();
    assert_eq!(s.error.as_deref(), Some("Some monitors could not be updated: one: x; two: y"));
    finish_all_brightness(&mut s, &Vec::new(), 2).unwrap();
    assert!(s.error.is_none());
    assert_eq!(
        failure_entry("one", &ManagerError::MissingMonitor("one".to_owned())),
        "one: monitor one is not connected"
    );
}

#[test]
fn partial_combined_failure_is_reported() {
    let backend = FakeBackend { monitors: vec![monitor("one", 18)], writes: StdMutex::new(Vec::new()) };
    let mut state = ready_state(vec![monitor("one", 18), monitor("two", 19)]);
    // "two" has gone from the backend's view but the state still lists it; both writes reach the fake.
    state.monitors[1].controls[0].writable = false;
    let result = set_all_brightness(&mut state, &backend, 30).unwrap();
    assert_eq!(
        result.error.as_deref(),
        Some("Some monitors could not be updated: two: monitor two does not expose writable VCP feature 0x10")
    );
    assert_eq!(backend.writes.lock().unwrap().as_slice(), &[(18, BRIGHTNESS, 30)]);
}

#[test]
fn manager_error_messages() {
    assert_eq!(
        ManagerError::OutOfRange { code: 0x10, value: 101, maximum: 100 }.to_string(),
        "value 101 is invalid for VCP feature 0x10; maximum is 100"
    );
    assert_eq!(ManagerError::Task("panicked".to_owned()).to_string(), "monitor backend task failed: panicked");
    assert_eq!(
        ManagerError::Backend(BackendError::Command("x".to_owned())).to_string(),
        "ddcutil failed: x"
    );
    assert_eq!(
        ManagerError::Unsupported { monitor_id: "all monitors".to_owned(), code: 0x10 }.to_string(),
        "monitor all monitors does not expose writable VCP feature 0x10"
    );
}

#[test]
fn write_delays() {
    assert_eq!(write_delay(None, 120), None);
    assert_eq!(write_delay(Some(20), 120), Some(100));
    assert_eq!(write_delay(Some(120), 120), Some(0));
    assert_eq!(write_delay(Some(121), 120), None);
}

#[test]
fn backend_errors_convert_to_manager_errors() {
    let e: ManagerError = BackendError::Parse("x".to_owned()).into();
    assert_eq!(e, ManagerError::Backend(BackendError::Parse("x".to_owned())));
}

#[test]
fn ready_states_are_used_as_they_are() {
    assert_eq!(ready_action(&ServiceState::default()), ReadyAction::Refresh);
    assert_eq!(ready_action(&ready_state(vec![monitor("one", 1)])), ReadyAction::UseCurrent);
}
