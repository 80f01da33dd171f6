//! The data the service reports: monitors, their controls, and the table of
//! VCP features that the service is willing to touch.
use vstd::prelude::*;

use crate::text::{first_index, lemma_first_index_at, lemma_first_index_none};

verus! {

/// Version of the JSON state format published over D-Bus.
pub const API_VERSION: u32 = 1;

/// VCP code of the brightness feature.
pub const BRIGHTNESS: u8 = 0x10;

/// One supported VCP feature.
#[derive(Clone, Copy, Debug, Eq, PartialEq)]
pub struct FeatureDefinition {
    pub code: u8,
    pub key: &'static str,
    pub title: &'static str,
    pub kind: ControlKind,
}

/// How a control is presented and written.
#[derive(Clone, Copy, Debug, Eq, PartialEq, Structural)]
pub enum ControlKind {
    Continuous,
    Toggle,
    Choice,
}

/// The current state of one VCP feature of a monitor.
#[derive(Clone, Debug, Eq, PartialEq)]
pub struct Control {
    pub code: u8,
    pub key: String,
    pub title: String,
    pub kind: ControlKind,
    pub current: u16,
    pub maximum: u16,
    pub writable: bool,
    pub choices: Vec<Choice>,
}

/// One named value of a non-continuous feature.
#[derive(Clone, Debug, Eq, PartialEq)]
pub struct Choice {
    pub value: u16,
    pub label: String,
}

/// An external monitor reachable over DDC/CI.
#[derive(Clone, Debug, Eq, PartialEq)]
pub struct Monitor {
    pub id: String,
    pub name: String,
    pub manufacturer: String,
    pub model: String,
    pub serial: String,
    pub connector: String,
    pub bus: u32,
    pub controls: Vec<Control>,
}

/// Everything the service publishes.
#[derive(Clone, Debug, Eq, PartialEq)]
pub struct ServiceState {
    pub api_version: u32,
    pub ready: bool,
    pub ddcutil_version: Option<String>,
    pub error: Option<String>,
    pub monitors: Vec<Monitor>,
}

// ---------------------------------------------------------------------------
// Mathematical models
// ---------------------------------------------------------------------------
/// Model of a `Choice`.
#[verifier::ext_equal]
pub struct ChoiceView {
    pub value: u16,
    pub label: Seq<char>,
}

/// Model of a `Control`.
#[verifier::ext_equal]
pub struct ControlView {
    pub code: u8,
    pub key: Seq<char>,
    pub title: Seq<char>,
    pub kind: ControlKind,
    pub current: u16,
    pub maximum: u16,
    pub writable: bool,
    pub choices: Seq<ChoiceView>,
}

/// Model of a `Monitor`.
#[verifier::ext_equal]
pub struct MonitorView {
    pub id: Seq<char>,
    pub name: Seq<char>,
    pub manufacturer: Seq<char>,
    pub model: Seq<char>,
    pub serial: Seq<char>,
    pub connector: Seq<char>,
    pub bus: u32,
    pub controls: Seq<ControlView>,
}

/// Model of a `ServiceState`.
#[verifier::ext_equal]
pub struct ServiceStateView {
    pub api_version: u32,
    pub ready: bool,
    pub ddcutil_version: Option<Seq<char>>,
    pub error: Option<Seq<char>>,
    pub monitors: Seq<MonitorView>,
}

impl View for Choice {
    type V = ChoiceView;

    open spec fn view(&self) -> ChoiceView {
        ChoiceView { value: self.value, label: self.label@ }
    }
}

/// The models of a sequence of choices.
pub open spec fn choice_views(cs: Seq<Choice>) -> Seq<ChoiceView> {
    cs.map_values(|c: Choice| c@)
}

impl View for Control {
    type V = ControlView;

    open spec fn view(&self) -> ControlView {
        ControlView {
            code: self.code,
            key: self.key@,
            title: self.title@,
            kind: self.kind,
            current: self.current,
            maximum: self.maximum,
            writable: self.writable,
            choices: choice_views(self.choices@),
        }
    }
}

/// The models of a sequence of controls.
pub open spec fn control_views(cs: Seq<Control>) -> Seq<ControlView> {
    cs.map_values(|c: Control| c@)
}

impl View for Monitor {
    type V = MonitorView;

    open spec fn view(&self) -> MonitorView {
        MonitorView {
            id: self.id@,
            name: self.name@,
            manufacturer: self.manufacturer@,
            model: self.model@,
            serial: self.serial@,
            connector: self.connector@,
            bus: self.bus,
            controls: control_views(self.controls@),
        }
    }
}

/// The models of a sequence of monitors.
pub open spec fn monitor_views(ms: Seq<Monitor>) -> Seq<MonitorView> {
    ms.map_values(|m: Monitor| m@)
}

/// The model of an optional string.
pub open spec fn opt_view(s: Option<String>) -> Option<Seq<char>> {
    match s {
        Some(v) => Some(v@),
        None => None,
    }
}

impl View for ServiceState {
    type V = ServiceStateView;

    open spec fn view(&self) -> ServiceStateView {
        ServiceStateView {
            api_version: self.api_version,
            ready: self.ready,
            ddcutil_version: opt_view(self.ddcutil_version),
            error: opt_view(self.error),
            monitors: monitor_views(self.monitors@),
        }
    }
}

/// Selects the controls with VCP code `code`.
pub open spec fn has_code(code: u8) -> spec_fn(ControlView) -> bool {
    |c: ControlView| c.code == code
}

/// Selects the monitors with identifier `id`.
pub open spec fn has_id(id: Seq<char>) -> spec_fn(MonitorView) -> bool {
    |m: MonitorView| m.id == id
}

/// Index of the first control of `m` with VCP code `code`.
pub open spec fn control_index(m: MonitorView, code: u8) -> Option<int> {
    first_index(m.controls, has_code(code))
}

/// The first control of `m` with VCP code `code` (`Monitor::control`).
pub open spec fn control_of(m: MonitorView, code: u8) -> Option<ControlView> {
    match control_index(m, code) {
        Some(i) => Some(m.controls[i]),
        None => None,
    }
}

/// Index of the first monitor of `ms` with identifier `id`.
pub open spec fn monitor_index(ms: Seq<MonitorView>, id: Seq<char>) -> Option<int> {
    first_index(ms, has_id(id))
}

// ---------------------------------------------------------------------------
// Feature table
// ---------------------------------------------------------------------------
/// The VCP codes the service accepts, in the order they are queried.
pub open spec fn safe_codes() -> Seq<u8> {
    seq![0x10u8, 0x12u8, 0x62u8, 0x8du8, 0x14u8, 0x16u8, 0x18u8, 0x1au8]
}

/// The definition of the supported feature `code`, if it is one.
pub open spec fn spec_feature_definition(code: u8) -> Option<FeatureDefinition> {
    if code == 0x10 {
        Some(
            FeatureDefinition {
                code: 0x10,
                key: "brightness",
                title: "Brightness",
                kind: ControlKind::Continuous,
            },
        )
    } else if code == 0x12 {
        Some(
            FeatureDefinition {
                code: 0x12,
                key: "contrast",
                title: "Contrast",
                kind: ControlKind::Continuous,
            },
        )
    } else if code == 0x62 {
        Some(
            FeatureDefinition {
                code: 0x62,
                key: "volume",
                title: "Monitor volume",
                kind: ControlKind::Continuous,
            },
        )
    } else if code == 0x8d {
        Some(
            FeatureDefinition {
                code: 0x8d,
                key: "mute",
                title: "Monitor mute",
                kind: ControlKind::Toggle,
            },
        )
    } else if code == 0x14 {
        Some(
            FeatureDefinition {
                code: 0x14,
                key: "color_preset",
                title: "Colour preset",
                kind: ControlKind::Choice,
            },
        )
    } else if code == 0x16 {
        Some(
            FeatureDefinition {
                code: 0x16,
                key: "red_gain",
                title: "Red gain",
                kind: ControlKind::Continuous,
            },
        )
    } else if code == 0x18 {
        Some(
            FeatureDefinition {
                code: 0x18,
                key: "green_gain",
                title: "Green gain",
                kind: ControlKind::Continuous,
            },
        )
    } else if code == 0x1a {
        Some(
            FeatureDefinition {
                code: 0x1a,
                key: "blue_gain",
                title: "Blue gain",
                kind: ControlKind::Continuous,
            },
        )
    } else {
        None
    }
}

/// The named values of feature `code`.
pub open spec fn spec_choices(code: u8) -> Seq<ChoiceView> {
    if code == 0x8d {
        seq![
            ChoiceView { value: 1, label: "Muted"@ },
            ChoiceView { value: 2, label: "Unmuted"@ },
        ]
    } else if code == 0x14 {
        seq![
            ChoiceView { value: 1, label: "sRGB"@ },
            ChoiceView { value: 4, label: "5000 K"@ },
            ChoiceView { value: 5, label: "6500 K"@ },
            ChoiceView { value: 6, label: "7500 K"@ },
            ChoiceView { value: 7, label: "8200 K"@ },
            ChoiceView { value: 8, label: "9300 K"@ },
            ChoiceView { value: 10, label: "11500 K"@ },
            ChoiceView { value: 11, label: "User 1"@ },
        ]
    } else {
        Seq::empty()
    }
}

/// Law: the features with a definition are exactly the safe codes, and each
/// definition carries its own code.
pub proof fn lemma_safe_features(code: u8)
    ensures
        spec_feature_definition(code) is Some <==> safe_codes().contains(code),
        spec_feature_definition(code) matches Some(d) ==> d.code == code,
{
    if safe_codes().contains(code) {
        let i = choose|i: int| 0 <= i < safe_codes().len() && safe_codes()[i] == code;
        assert(0 <= i < 8);
    }
    if spec_feature_definition(code) is Some {
        let i: int = if code == 0x10 {
            0
        } else if code == 0x12 {
            1
        } else if code == 0x62 {
            2
        } else if code == 0x8d {
            3
        } else if code == 0x14 {
            4
        } else if code == 0x16 {
            5
        } else if code == 0x18 {
            6
        } else {
            7
        };
        assert(safe_codes()[i] == code);
    }
}

/// The definition of the supported feature `code`, if it is one.
pub fn feature_definition(code: u8) -> (r: Option<FeatureDefinition>)
    ensures
        r == spec_feature_definition(code),
{
    match code {
        0x10 => Some(
            FeatureDefinition {
                code: 0x10,
                key: "brightness",
                title: "Brightness",
                kind: ControlKind::Continuous,
            },
        ),
        0x12 => Some(
            FeatureDefinition {
                code: 0x12,
                key: "contrast",
                title: "Contrast",
                kind: ControlKind::Continuous,
            },
        ),
        0x62 => Some(
            FeatureDefinition {
                code: 0x62,
                key: "volume",
                title: "Monitor volume",
                kind: ControlKind::Continuous,
            },
        ),
        0x8d => Some(
            FeatureDefinition {
                code: 0x8d,
                key: "mute",
                title: "Monitor mute",
                kind: ControlKind::Toggle,
            },
        ),
        0x14 => Some(
            FeatureDefinition {
                code: 0x14,
                key: "color_preset",
                title: "Colour preset",
                kind: ControlKind::Choice,
            },
        ),
        0x16 => Some(
            FeatureDefinition {
                code: 0x16,
                key: "red_gain",
                title: "Red gain",
                kind: ControlKind::Continuous,
            },
        ),
        0x18 => Some(
            FeatureDefinition {
                code: 0x18,
                key: "green_gain",
                title: "Green gain",
                kind: ControlKind::Continuous,
            },
        ),
        0x1a => Some(
            FeatureDefinition {
                code: 0x1a,
                key: "blue_gain",
                title: "Blue gain",
                kind: ControlKind::Continuous,
            },
        ),
        _ => None,
    }
}

/// The VCP codes of all supported features, in table order.
pub fn safe_feature_codes() -> (r: Vec<u8>)
    ensures
        r@ == safe_codes(),
{
    let r: Vec<u8> = vec![0x10u8, 0x12u8, 0x62u8, 0x8du8, 0x14u8, 0x16u8, 0x18u8, 0x1au8];
    assert(r@ =~= safe_codes());
    r
}

fn choice(value: u16, label: &str) -> (r: Choice)
    ensures
        r@ == (ChoiceView { value, label: label@ }),
{
    Choice { value, label: label.to_owned() }
}

/// The named values of feature `code` (empty for continuous features).
pub fn choices_for(code: u8) -> (r: Vec<Choice>)
    ensures
        choice_views(r@) == spec_choices(code),
{
    let mut r: Vec<Choice> = Vec::new();
    if code == 0x8d {
        r.push(choice(1, "Muted"));
        r.push(choice(2, "Unmuted"));
    } else if code == 0x14 {
        r.push(choice(1, "sRGB"));
        r.push(choice(4, "5000 K"));
        r.push(choice(5, "6500 K"));
        r.push(choice(6, "7500 K"));
        r.push(choice(7, "8200 K"));
        r.push(choice(8, "9300 K"));
        r.push(choice(10, "11500 K"));
        r.push(choice(11, "User 1"));
    }
    assert(choice_views(r@) =~= spec_choices(code));
    r
}

impl Monitor {
    /// The first control of this monitor with VCP code `code`.
    pub fn control(&self, code: u8) -> (r: Option<&Control>)
        ensures
            match control_index(self@, code) {
                Some(i) => r == Some(&self.controls@[i]),
                None => r is None,
            },
    {
        let n = self.controls.len();
        for i in 0..n
            invariant
                n == self.controls.len(),
                forall|j: int| 0 <= j < i ==> !(has_code(code))(#[trigger] self@.controls[j]),
        {
            assert(self@.controls[i as int] == self.controls@[i as int]@);
            if self.controls[i].code == code {
                proof {
                    lemma_first_index_at(self@.controls, has_code(code), i as int);
                }
                return Some(&self.controls[i]);
            }
        }
        proof {
            lemma_first_index_none(self@.controls, has_code(code));
        }
        None
    }
}

impl Default for ServiceState {
    /// The state before the first discovery: not ready, no monitors.
    fn default() -> (r: Self)
        ensures
            r@ == (ServiceStateView {
                api_version: API_VERSION,
                ready: false,
                ddcutil_version: None,
                error: None,
                monitors: Seq::empty(),
            }),
    {
        let r = ServiceState {
            api_version: API_VERSION,
            ready: false,
            ddcutil_version: None,
            error: None,
            monitors: Vec::new(),
        };
        assert(r@.monitors =~= Seq::<MonitorView>::empty());
        r
    }
}

/// A control's current value as a whole percentage of its maximum, rounded
/// down; 0 for a control whose maximum is 0.  (Like the arithmetic it
/// models, the result keeps only its low 16 bits when the current value is
/// far above the maximum.)
pub open spec fn spec_normalized_percent(current: u16, maximum: u16) -> u16 {
    if maximum == 0 {
        0
    } else {
        ((current as int * 100) / (maximum as int)) as u16
    }
}

/// A control's current value as a percentage of its maximum (see
/// `spec_normalized_percent`); at most 100 when the current value does not
/// exceed the maximum.
pub fn normalized_percent(control: &Control) -> (r: u16)
    ensures
        r == spec_normalized_percent(control.current, control.maximum),
        control.current <= control.maximum ==> r <= 100,
{
    if control.maximum == 0 {
        0
    } else {
        let c = control.current as u32;
        let m = control.maximum as u32;
        let q = (c * 100) / m;
        assert(c <= m ==> q <= 100) by (nonlinear_arith)
            requires
                q == (c as int * 100) / (m as int),
                m > 0,
        ;
        q as u16
    }
}

/// Selects the named values equal to `value`.
pub open spec fn has_value(value: u16) -> spec_fn(ChoiceView) -> bool {
    |c: ChoiceView| c.value == value
}

/// The value that sets a two-state control on (1) or off (2).
pub open spec fn spec_toggle_value(on: bool) -> u16 {
    if on {
        1
    } else {
        2
    }
}

impl Control {
    /// Position of the first named value equal to `value`.
    pub fn choice_index(&self, value: u16) -> (r: Option<usize>)
        ensures
            match first_index(self@.choices, has_value(value)) {
                Some(i) => r == Some(i as usize),
                None => r is None,
            },
    {
        let n = self.choices.len();
        for i in 0..n
            invariant
                n == self.choices.len(),
                forall|j: int| 0 <= j < i ==> !(has_value(value))(#[trigger] self@.choices[j]),
        {
            assert(self@.choices[i as int] == self.choices@[i as int]@);
            if self.choices[i].value == value {
                proof {
                    lemma_first_index_at(self@.choices, has_value(value), i as int);
                }
                return Some(i);
            }
        }
        proof {
            lemma_first_index_none(self@.choices, has_value(value));
        }
        None
    }

    /// Whether a two-state control is on: its current value is 1.
    pub fn is_on(&self) -> (r: bool)
        ensures
            r == (self.current == 1),
    {
        self.current == 1
    }
}

/// The value that sets a two-state control on (1) or off (2).
pub fn toggle_value(on: bool) -> (r: u16)
    ensures
        r == spec_toggle_value(on),
{
    if on {
        1
    } else {
        2
    }
}

} // verus!
