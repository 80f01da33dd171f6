//! The decisions of the monitor manager.  The manager itself (locks, rate
//! limiting, the calls into the backend) drives these functions: each takes
//! the published state and what the backend answered, and gives the next
//! state and the reply.
use vstd::prelude::*;

use crate::backend::{backend_message, BackendError, BackendErrorView};
use crate::model::{
    control_index, control_of, control_views, has_code, has_id, monitor_index, monitor_views,
    spec_feature_definition, feature_definition, ChoiceView, Control, ControlView,
    Monitor, MonitorView, ServiceState, ServiceStateView, API_VERSION, BRIGHTNESS,
};
use crate::text::{
    decimal, decimal_string, hex2, hex2_chars, join, join_strings, lemma_first_index_at,
    lemma_first_index_none, lemma_first_index_props, string_of, string_views,
};

verus! {

// ---------------------------------------------------------------------------
// Errors
// ---------------------------------------------------------------------------
/// Why a request to the manager failed.
#[derive(Clone, Debug, Eq, PartialEq)]
pub enum ManagerError {
    /// The backend failed.
    Backend(BackendError),
    /// No monitor has the given id.
    MissingMonitor(String),
    /// The monitor does not offer the feature for writing.
    Unsupported { monitor_id: String, code: u8 },
    /// The value is above the maximum, or not one of the feature's choices.
    OutOfRange { code: u8, value: u16, maximum: u16 },
    /// The worker running the backend call failed.
    Task(String),
}

/// Model of a `ManagerError`.
pub enum ManagerErrorView {
    Backend(BackendErrorView),
    MissingMonitor(Seq<char>),
    Unsupported { monitor_id: Seq<char>, code: u8 },
    OutOfRange { code: u8, value: u16, maximum: u16 },
    Task(Seq<char>),
}

impl View for ManagerError {
    type V = ManagerErrorView;

    open spec fn view(&self) -> ManagerErrorView {
        match self {
            ManagerError::Backend(e) => ManagerErrorView::Backend(e@),
            ManagerError::MissingMonitor(s) => ManagerErrorView::MissingMonitor(s@),
            ManagerError::Unsupported { monitor_id, code } => ManagerErrorView::Unsupported {
                monitor_id: monitor_id@,
                code: *code,
            },
            ManagerError::OutOfRange { code, value, maximum } => ManagerErrorView::OutOfRange {
                code: *code,
                value: *value,
                maximum: *maximum,
            },
            ManagerError::Task(s) => ManagerErrorView::Task(s@),
        }
    }
}

/// The message shown for a manager error; a backend error shows its own.
pub open spec fn manager_message(e: ManagerErrorView) -> Seq<char> {
    match e {
        ManagerErrorView::Backend(b) => backend_message(b),
        ManagerErrorView::MissingMonitor(id) => "monitor "@ + id + " is not connected"@,
        ManagerErrorView::Unsupported { monitor_id, code } => "monitor "@ + monitor_id
            + " does not expose writable VCP feature 0x"@ + hex2(code),
        ManagerErrorView::OutOfRange { code, value, maximum } => "value "@ + decimal(
            value as nat,
        ) + " is invalid for VCP feature 0x"@ + hex2(code) + "; maximum is "@ + decimal(
            maximum as nat,
        ),
        ManagerErrorView::Task(s) => "monitor backend task failed: "@ + s,
    }
}

impl ManagerError {
    /// The message shown for this error.
    pub fn to_string(&self) -> (r: String)
        ensures
            r@ == manager_message(self@),
    {
        let mut r = String::new();
        match self {
            ManagerError::Backend(e) => {
                r = e.to_string();
            },
            ManagerError::MissingMonitor(id) => {
                r.append("monitor ");
                r.append(id.as_str());
                r.append(" is not connected");
            },
            ManagerError::Unsupported { monitor_id, code } => {
                r.append("monitor ");
                r.append(monitor_id.as_str());
                r.append(" does not expose writable VCP feature 0x");
                r.append(string_of(&hex2_chars(*code)).as_str());
            },
            ManagerError::OutOfRange { code, value, maximum } => {
                r.append("value ");
                r.append(decimal_string(*value as u64).as_str());
                r.append(" is invalid for VCP feature 0x");
                r.append(string_of(&hex2_chars(*code)).as_str());
                r.append("; maximum is ");
                r.append(decimal_string(*maximum as u64).as_str());
            },
            ManagerError::Task(s) => {
                r.append("monitor backend task failed: ");
                r.append(s.as_str());
            },
        }
        assert(r@ =~= manager_message(self@));
        r
    }
}

impl From<BackendError> for ManagerError {
    /// A backend failure, passed on as it is.
    fn from(e: BackendError) -> (r: Self) {
        ManagerError::Backend(e)
    }
}

impl vstd::std_specs::convert::FromSpecImpl<BackendError> for ManagerError {
    open spec fn obeys_from_spec() -> bool {
        true
    }

    open spec fn from_spec(e: BackendError) -> ManagerError {
        ManagerError::Backend(e)
    }
}

/// The model of a result with no value or a manager error.
pub open spec fn unit_result_view(r: Result<(), ManagerError>) -> Result<(), ManagerErrorView> {
    match r {
        Ok(()) => Ok(()),
        Err(e) => Err(e@),
    }
}

// ---------------------------------------------------------------------------
// Refresh
// ---------------------------------------------------------------------------
/// The state after a discovery that found `version` and `monitors`.
pub open spec fn refreshed(version: Seq<char>, monitors: Seq<MonitorView>) -> ServiceStateView {
    ServiceStateView {
        api_version: API_VERSION,
        ready: true,
        ddcutil_version: Some(version),
        error: None,
        monitors,
    }
}

/// The state after a failed discovery: no longer ready, the failure shown,
/// everything else kept.
pub open spec fn refresh_failed(st: ServiceStateView, e: BackendErrorView) -> ServiceStateView {
    ServiceStateView {
        api_version: st.api_version,
        ready: false,
        ddcutil_version: st.ddcutil_version,
        error: Some(backend_message(e)),
        monitors: st.monitors,
    }
}

/// Records the outcome of a discovery (version check, then monitor
/// detection) in `state`; a failure is passed on.
pub fn apply_refresh(state: &mut ServiceState, outcome: Result<(String, Vec<Monitor>), BackendError>) -> (r:
    Result<(), ManagerError>)
    ensures
        match outcome {
            Ok((version, monitors)) => {
                &&& r is Ok
                &&& final(state)@ == refreshed(version@, monitor_views(monitors@))
            },
            Err(e) => {
                &&& unit_result_view(r) == Err::<(), ManagerErrorView>(ManagerErrorView::Backend(e@))
                &&& final(state)@ == refresh_failed(old(state)@, e@)
            },
        },
{
    match outcome {
        Ok((version, monitors)) => {
            *state = ServiceState {
                api_version: API_VERSION,
                ready: true,
                ddcutil_version: Some(version),
                error: None,
                monitors,
            };
            Ok(())
        },
        Err(e) => {
            state.ready = false;
            state.error = Some(e.to_string());
            assert(state@ =~= refresh_failed(old(state)@, e@));
            Err(ManagerError::Backend(e))
        },
    }
}

/// What a request for a ready state does.
#[derive(Clone, Copy, Debug, Eq, PartialEq, Structural)]
pub enum ReadyAction {
    /// The state is ready: reply with it as it is.
    UseCurrent,
    /// The state is not ready: run a discovery first.
    Refresh,
}

/// What a request for a ready state does: a ready state is returned
/// unchanged, any other one is refreshed.
pub fn ready_action(state: &ServiceState) -> (r: ReadyAction)
    ensures
        r == (if state@.ready {
            ReadyAction::UseCurrent
        } else {
            ReadyAction::Refresh
        }),
{
    if state.ready {
        ReadyAction::UseCurrent
    } else {
        ReadyAction::Refresh
    }
}

// ---------------------------------------------------------------------------
// Writing one control
// ---------------------------------------------------------------------------
/// A write the backend is to perform, then read back.
#[derive(Clone, Copy, Debug, Eq, PartialEq, Structural)]
pub struct WriteRequest {
    pub bus: u32,
    pub code: u8,
    pub value: u16,
}

/// `value` is one of `choices`, or there are no choices.
pub open spec fn allowed_choice(choices: Seq<ChoiceView>, value: u16) -> bool {
    choices.len() == 0 || exists|k: int| 0 <= k < choices.len() && choices[k].value == value
}

/// The write that setting feature `code` of monitor `id` to `value` asks
/// for, or why it is refused: the feature must be a safe one, the monitor
/// must be known, its first control with that code must be writable, and
/// the value must not exceed the control's maximum and must be one of its
/// choices, if it has any.
pub open spec fn spec_plan_write(st: ServiceStateView, id: Seq<char>, code: u8, value: u16) -> Result<
    WriteRequest,
    ManagerErrorView,
> {
    if spec_feature_definition(code) is None {
        Err(ManagerErrorView::Unsupported { monitor_id: id, code })
    } else {
        match monitor_index(st.monitors, id) {
            None => Err(ManagerErrorView::MissingMonitor(id)),
            Some(mi) => {
                let m = st.monitors[mi];
                match control_of(m, code) {
                    Some(c) => if !c.writable {
                        Err(ManagerErrorView::Unsupported { monitor_id: id, code })
                    } else if value > c.maximum || !allowed_choice(c.choices, value) {
                        Err(ManagerErrorView::OutOfRange { code, value, maximum: c.maximum })
                    } else {
                        Ok(WriteRequest { bus: m.bus, code, value })
                    },
                    None => Err(ManagerErrorView::Unsupported { monitor_id: id, code }),
                }
            },
        }
    }
}

/// The model of a planned write.
pub open spec fn plan_view(r: Result<WriteRequest, ManagerError>) -> Result<
    WriteRequest,
    ManagerErrorView,
> {
    match r {
        Ok(w) => Ok(w),
        Err(e) => Err(e@),
    }
}

/// Index of the first monitor in `monitors` whose id is `id`.
pub fn find_monitor(monitors: &Vec<Monitor>, id: &String) -> (r: Option<usize>)
    ensures
        match r {
            Some(i) => i < monitors.len() && monitor_index(monitor_views(monitors@), id@) == Some(
                i as int,
            ),
            None => monitor_index(monitor_views(monitors@), id@) is None,
        },
{
    let ghost mv = monitor_views(monitors@);
    let n = monitors.len();
    for i in 0..n
        invariant
            n == monitors.len(),
            mv == monitor_views(monitors@),
            forall|j: int| 0 <= j < i ==> !(has_id(id@))(#[trigger] mv[j]),
    {
        assert(mv[i as int] == monitors@[i as int]@);
        if monitors[i].id == *id {
            proof {
                lemma_first_index_at(mv, has_id(id@), i as int);
            }
            return Some(i);
        }
    }
    proof {
        lemma_first_index_none(mv, has_id(id@));
    }
    None
}

fn choice_allowed(c: &Control, value: u16) -> (r: bool)
    ensures
        r == allowed_choice(c@.choices, value),
{
    let n = c.choices.len();
    if n == 0 {
        return true;
    }
    for k in 0..n
        invariant
            n == c.choices.len(),
            forall|j: int| 0 <= j < k ==> c@.choices[j].value != value,
    {
        assert(c@.choices[k as int] == c.choices@[k as int]@);
        if c.choices[k].value == value {
            return true;
        }
    }
    false
}

/// The write that setting feature `code` of monitor `monitor_id` to `value`
/// asks for, or why it is refused (see `spec_plan_write`).
pub fn plan_control_write(state: &ServiceState, monitor_id: &str, code: u8, value: u16) -> (r: Result<
    WriteRequest,
    ManagerError,
>)
    ensures
        plan_view(r) == spec_plan_write(state@, monitor_id@, code, value),
{
    if feature_definition(code).is_none() {
        return Err(ManagerError::Unsupported { monitor_id: monitor_id.to_owned(), code });
    }
    let id = monitor_id.to_owned();
    let mi = match find_monitor(&state.monitors, &id) {
        Some(i) => i,
        None => return Err(ManagerError::MissingMonitor(id)),
    };
    let monitor = &state.monitors[mi];
    assert(state@.monitors[mi as int] == monitor@);
    match monitor.control(code) {
        None => Err(ManagerError::Unsupported { monitor_id: id, code }),
        Some(c) => {
            proof {
                lemma_first_index_props(monitor@.controls, has_code(code));
                let ci = control_index(monitor@, code).unwrap();
                assert(monitor@.controls[ci] == monitor.controls@[ci]@);
            }
            if !c.writable {
                Err(ManagerError::Unsupported { monitor_id: id, code })
            } else if value > c.maximum || !choice_allowed(c, value) {
                Err(ManagerError::OutOfRange { code, value, maximum: c.maximum })
            } else {
                Ok(WriteRequest { bus: monitor.bus, code, value })
            }
        },
    }
}

/// `st` with control `ci` of monitor `mi` replaced by `c` and the error
/// cleared.
pub open spec fn with_control(st: ServiceStateView, mi: int, ci: int, c: ControlView) -> ServiceStateView {
    let m = st.monitors[mi];
    ServiceStateView {
        api_version: st.api_version,
        ready: st.ready,
        ddcutil_version: st.ddcutil_version,
        error: None,
        monitors: st.monitors.update(
            mi,
            MonitorView {
                id: m.id,
                name: m.name,
                manufacturer: m.manufacturer,
                model: m.model,
                serial: m.serial,
                connector: m.connector,
                bus: m.bus,
                controls: m.controls.update(ci, c),
            },
        ),
    }
}

/// The reply to a write of feature `code` of monitor `id` whose read-back
/// gave `outcome`, and the state after it: a read-back control takes the
/// place of the monitor's first control with that code; a backend failure,
/// or a monitor or control that is gone, leaves the state as it was.
pub open spec fn spec_apply_readback(
    st: ServiceStateView,
    id: Seq<char>,
    code: u8,
    outcome: Result<ControlView, BackendErrorView>,
) -> (Result<(), ManagerErrorView>, ServiceStateView) {
    match outcome {
        Err(e) => (Err(ManagerErrorView::Backend(e)), st),
        Ok(c) => match monitor_index(st.monitors, id) {
            None => (Err(ManagerErrorView::MissingMonitor(id)), st),
            Some(mi) => match control_index(st.monitors[mi], code) {
                None => (Err(ManagerErrorView::Unsupported { monitor_id: id, code }), st),
                Some(ci) => (Ok(()), with_control(st, mi, ci, c)),
            },
        },
    }
}

/// The model of a read-back outcome.
pub open spec fn readback_view(r: Result<Control, BackendError>) -> Result<ControlView, BackendErrorView> {
    match r {
        Ok(c) => Ok(c@),
        Err(e) => Err(e@),
    }
}

/// Records the read-back `outcome` of a write of feature `code` of monitor
/// `monitor_id` (see `spec_apply_readback`).
pub fn apply_control_readback(
    state: &mut ServiceState,
    monitor_id: &str,
    code: u8,
    outcome: Result<Control, BackendError>,
) -> (r: Result<(), ManagerError>)
    ensures
        (unit_result_view(r), final(state)@) == spec_apply_readback(
            old(state)@,
            monitor_id@,
            code,
            readback_view(outcome),
        ),
{
    let updated = match outcome {
        Err(e) => return Err(ManagerError::Backend(e)),
        Ok(c) => c,
    };
    let id = monitor_id.to_owned();
    let mi = match find_monitor(&state.monitors, &id) {
        Some(i) => i,
        None => return Err(ManagerError::MissingMonitor(id)),
    };
    assert(state@.monitors[mi as int] == state.monitors@[mi as int]@);
    let ci = match find_control(&state.monitors[mi].controls, code) {
        Some(i) => i,
        None => return Err(ManagerError::Unsupported { monitor_id: id, code }),
    };
    let ghost before = state@;
    let mut monitor = state.monitors.remove(mi);
    let ghost old_controls = monitor.controls@;
    monitor.controls.set(ci, updated);
    state.monitors.insert(mi, monitor);
    state.error = None;
    proof {
        let target = with_control(before, mi as int, ci as int, updated@);
        assert(control_views(monitor.controls@) =~= control_views(old_controls).update(
            ci as int,
            updated@,
        ));
        assert(monitor_views(state.monitors@) =~= target.monitors);
        assert(state@ =~= target);
    }
    Ok(())
}

fn find_control(controls: &Vec<Control>, code: u8) -> (r: Option<usize>)
    ensures
        match r {
            Some(i) => i < controls.len() && crate::text::first_index(
                control_views(controls@),
                has_code(code),
            ) == Some(i as int),
            None => crate::text::first_index(control_views(controls@), has_code(code)) is None,
        },
{
    let ghost cv = control_views(controls@);
    let n = controls.len();
    for i in 0..n
        invariant
            n == controls.len(),
            cv == control_views(controls@),
            forall|j: int| 0 <= j < i ==> !(has_code(code))(#[trigger] cv[j]),
    {
        assert(cv[i as int] == controls@[i as int]@);
        if controls[i].code == code {
            proof {
                lemma_first_index_at(cv, has_code(code), i as int);
            }
            return Some(i);
        }
    }
    proof {
        lemma_first_index_none(cv, has_code(code));
    }
    None
}

// ---------------------------------------------------------------------------
// Combined brightness
// ---------------------------------------------------------------------------
/// A percentage of `maximum`, rounded to the nearest unit.
pub open spec fn scaled(percent: u16, maximum: u16) -> int {
    (percent * maximum + 50) / 100
}

/// The brightness value for a monitor whose maximum is `maximum`, given a
/// percentage of at most 100.
pub fn scaled_brightness(percent: u16, maximum: u16) -> (r: u16)
    requires
        percent <= 100,
    ensures
        r == scaled(percent, maximum),
        r <= maximum,
{
    let p = percent as u32;
    let m = maximum as u32;
    assert(p * m <= 100 * m) by (nonlinear_arith)
        requires
            p <= 100,
    ;
    let v = (p * m + 50) / 100;
    assert(v <= m) by (nonlinear_arith)
        requires
            v == (p * m + 50) / 100,
            p * m <= 100 * m,
    ;
    v as u16
}

/// For each monitor of `ms` with a brightness control, in order, its id and
/// `percent` of that control's maximum.
pub open spec fn brightness_targets(ms: Seq<MonitorView>, percent: u16) -> Seq<(Seq<char>, u16)>
    decreases ms.len(),
{
    if ms.len() == 0 {
        Seq::empty()
    } else {
        let m = ms.last();
        match control_of(m, BRIGHTNESS) {
            Some(c) => brightness_targets(ms.drop_last(), percent).push(
                (m.id, scaled(percent, c.maximum) as u16),
            ),
            None => brightness_targets(ms.drop_last(), percent),
        }
    }
}

/// The per-monitor writes that setting every monitor to `percent` asks for:
/// refused above 100 percent, and when no monitor has a brightness control.
pub open spec fn spec_plan_all_brightness(st: ServiceStateView, percent: u16) -> Result<
    Seq<(Seq<char>, u16)>,
    ManagerErrorView,
> {
    if percent > 100 {
        Err(ManagerErrorView::OutOfRange { code: BRIGHTNESS, value: percent, maximum: 100 })
    } else if brightness_targets(st.monitors, percent).len() == 0 {
        Err(ManagerErrorView::Unsupported { monitor_id: "all monitors"@, code: BRIGHTNESS })
    } else {
        Ok(brightness_targets(st.monitors, percent))
    }
}

/// The models of a list of per-monitor brightness targets.
pub open spec fn target_views(ts: Seq<(String, u16)>) -> Seq<(Seq<char>, u16)> {
    ts.map_values(|t: (String, u16)| (t.0@, t.1))
}

/// The model of a planned set of brightness writes.
pub open spec fn targets_result_view(r: Result<Vec<(String, u16)>, ManagerError>) -> Result<
    Seq<(Seq<char>, u16)>,
    ManagerErrorView,
> {
    match r {
        Ok(ts) => Ok(target_views(ts@)),
        Err(e) => Err(e@),
    }
}

/// The per-monitor writes that setting every monitor to `percent` asks for
/// (see `spec_plan_all_brightness`).
pub fn plan_all_brightness(state: &ServiceState, percent: u16) -> (r: Result<
    Vec<(String, u16)>,
    ManagerError,
>)
    ensures
        targets_result_view(r) == spec_plan_all_brightness(state@, percent),
{
    if percent > 100 {
        return Err(ManagerError::OutOfRange { code: BRIGHTNESS, value: percent, maximum: 100 });
    }
    let ghost mv = state@.monitors;
    let mut targets: Vec<(String, u16)> = Vec::new();
    let n = state.monitors.len();
    for i in 0..n
        invariant
            n == state.monitors.len(),
            mv == state@.monitors,
            percent <= 100,
            target_views(targets@) == brightness_targets(mv.take(i as int), percent),
    {
        let ghost t = mv.take(i + 1);
        assert(t.drop_last() =~= mv.take(i as int));
        assert(t.last() == state.monitors@[i as int]@);
        let m = &state.monitors[i];
        match m.control(BRIGHTNESS) {
            Some(c) => {
                proof {
                    lemma_first_index_props(m@.controls, has_code(BRIGHTNESS));
                    let ci = control_index(m@, BRIGHTNESS).unwrap();
                    assert(m@.controls[ci] == m.controls@[ci]@);
                }
                let v = scaled_brightness(percent, c.maximum);
                let ghost before = targets@;
                targets.push((m.id.clone(), v));
                assert(target_views(targets@) =~= target_views(before).push((m@.id, v)));
            },
            None => {},
        }
    }
    assert(mv.take(n as int) =~= mv);
    if targets.len() == 0 {
        return Err(
            ManagerError::Unsupported { monitor_id: "all monitors".to_owned(), code: BRIGHTNESS },
        );
    }
    Ok(targets)
}

/// The line recording that writing monitor `monitor_id` failed with `error`.
pub open spec fn failure_line(monitor_id: Seq<char>, error: ManagerErrorView) -> Seq<char> {
    monitor_id + ": "@ + manager_message(error)
}

/// The line recording that writing monitor `monitor_id` failed with `error`.
pub fn failure_entry(monitor_id: &str, error: &ManagerError) -> (r: String)
    ensures
        r@ == failure_line(monitor_id@, error@),
{
    let mut r = monitor_id.to_owned();
    r.append(": ");
    r.append(error.to_string().as_str());
    r
}

/// The reply and the state after the per-monitor writes of a combined
/// brightness change, given the failure lines and the number of writes
/// that succeeded: with no success the failures are returned as one command
/// error and the state is kept; otherwise the state's error lists the
/// failures, or is cleared when there were none.
pub open spec fn spec_finish_all_brightness(
    st: ServiceStateView,
    failures: Seq<Seq<char>>,
    successes: nat,
) -> (Result<(), ManagerErrorView>, ServiceStateView) {
    if successes == 0 {
        (Err(ManagerErrorView::Backend(BackendErrorView::Command(join(failures, "; "@)))), st)
    } else {
        (
            Ok(()),
            ServiceStateView {
                api_version: st.api_version,
                ready: st.ready,
                ddcutil_version: st.ddcutil_version,
                error: if failures.len() == 0 {
                    None
                } else {
                    Some("Some monitors could not be updated: "@ + join(failures, "; "@))
                },
                monitors: st.monitors,
            },
        )
    }
}

/// Records the end of a combined brightness change (see
/// `spec_finish_all_brightness`).
pub fn finish_all_brightness(state: &mut ServiceState, failures: &Vec<String>, successes: usize) -> (r:
    Result<(), ManagerError>)
    ensures
        (unit_result_view(r), final(state)@) == spec_finish_all_brightness(
            old(state)@,
            string_views(failures@),
            successes as nat,
        ),
{
    if successes == 0 {
        return Err(ManagerError::Backend(BackendError::Command(join_strings(failures, "; "))));
    }
    if failures.len() == 0 {
        state.error = None;
    } else {
        let mut text = "Some monitors could not be updated: ".to_owned();
        text.append(join_strings(failures, "; ").as_str());
        state.error = Some(text);
    }
    proof {
        let target = spec_finish_all_brightness(old(state)@, string_views(failures@), successes as nat).1;
        assert(state@ =~= target);
    }
    Ok(())
}

// ---------------------------------------------------------------------------
// Rate limiting
// ---------------------------------------------------------------------------
/// How long a write must wait: the rest of the minimum interval since the
/// previous write of the same feature of the same monitor, if that interval
/// has not passed (`Duration::checked_sub`); no wait for a first write.
pub fn write_delay(since_last_write_ns: Option<u64>, min_interval_ns: u64) -> (r: Option<u64>)
    ensures
        match since_last_write_ns {
            None => r is None,
            Some(e) => if e <= min_interval_ns {
                r == Some((min_interval_ns - e) as u64)
            } else {
                r is None
            },
        },
{
    match since_last_write_ns {
        None => None,
        Some(e) => if e <= min_interval_ns {
            Some(min_interval_ns - e)
        } else {
            None
        },
    }
}

} // verus!
