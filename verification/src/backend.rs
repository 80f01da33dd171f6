//! The `ddcutil` side of the service: the command lines it runs, and how its
//! output is read into monitors and controls.
use vstd::prelude::*;

use crate::model::{
    has_code, safe_codes, safe_feature_codes, choice_views, choices_for, control_views, feature_definition, monitor_views, spec_choices,
    spec_feature_definition, Choice, ChoiceView, Control, ControlView, Monitor, MonitorView,
};
use crate::text::{
    append_chars, chars_of, decimal, find_char, first_index, has_prefix, is_char, join,
    keep_nonempty, leading_digits, leading_digits_of, lemma_first_index_at,
    lemma_first_index_none, nonempty, split, split_by, starts_with, trim, trimmed, decimal_string, hex2, hex2_chars, lines, parse_bounded, parse_number_in,
    same_chars, split_lines, split_words, string_of, strip_prefix, strip_repeated, trim_by,
    trimmed_by, views, without_prefix, copy_chars, slice_of, join_chars, string_views, without_repeated_prefix, words, Trimmed,
};

verus! {

// ---------------------------------------------------------------------------
// Errors
// ---------------------------------------------------------------------------
/// Why talking to `ddcutil` failed.
#[derive(Clone, Debug, Eq, PartialEq)]
pub enum BackendError {
    /// The program is not installed at the given path.
    MissingProgram(String),
    /// The command did not finish within the given number of seconds.
    Timeout(u64),
    /// The command failed; the text says how.
    Command(String),
    /// The output could not be read; the text is the output.
    Parse(String),
    /// The installed version is too old.
    UnsupportedVersion { found: String },
    /// The monitor is gone.
    MissingMonitor(String),
    /// The monitor does not offer the feature for writing.
    Unsupported { monitor_id: String, code: u8 },
    /// The value is above the feature's maximum.
    OutOfRange { code: u8, value: u16, maximum: u16 },
}

/// Model of a `BackendError`.
pub enum BackendErrorView {
    MissingProgram(Seq<char>),
    Timeout(u64),
    Command(Seq<char>),
    Parse(Seq<char>),
    UnsupportedVersion { found: Seq<char> },
    MissingMonitor(Seq<char>),
    Unsupported { monitor_id: Seq<char>, code: u8 },
    OutOfRange { code: u8, value: u16, maximum: u16 },
}

impl View for BackendError {
    type V = BackendErrorView;

    open spec fn view(&self) -> BackendErrorView {
        match self {
            BackendError::MissingProgram(p) => BackendErrorView::MissingProgram(p@),
            BackendError::Timeout(s) => BackendErrorView::Timeout(*s),
            BackendError::Command(s) => BackendErrorView::Command(s@),
            BackendError::Parse(s) => BackendErrorView::Parse(s@),
            BackendError::UnsupportedVersion { found } => BackendErrorView::UnsupportedVersion {
                found: found@,
            },
            BackendError::MissingMonitor(s) => BackendErrorView::MissingMonitor(s@),
            BackendError::Unsupported { monitor_id, code } => BackendErrorView::Unsupported {
                monitor_id: monitor_id@,
                code: *code,
            },
            BackendError::OutOfRange { code, value, maximum } => BackendErrorView::OutOfRange {
                code: *code,
                value: *value,
                maximum: *maximum,
            },
        }
    }
}

/// The message shown for a backend error.
pub open spec fn backend_message(e: BackendErrorView) -> Seq<char> {
    match e {
        BackendErrorView::MissingProgram(p) => "ddcutil is not installed at "@ + p,
        BackendErrorView::Timeout(secs) => "ddcutil command timed out after "@ + decimal(
            secs as nat,
        ) + "s"@,
        BackendErrorView::Command(s) => "ddcutil failed: "@ + s,
        BackendErrorView::Parse(s) => "ddcutil returned malformed output: "@ + s,
        BackendErrorView::UnsupportedVersion { found } => "ddcutil "@ + found
            + " is unsupported; version 2.2.1 or newer is required"@,
        BackendErrorView::MissingMonitor(id) => "monitor "@ + id + " is no longer connected"@,
        BackendErrorView::Unsupported { monitor_id, code } => "monitor "@ + monitor_id
            + " does not expose writable VCP feature 0x"@ + hex2(code),
        BackendErrorView::OutOfRange { code, value, maximum } => "value "@ + decimal(
            value as nat,
        ) + " exceeds maximum "@ + decimal(maximum as nat) + " for VCP feature 0x"@ + hex2(code),
    }
}

impl BackendError {
    /// The message shown for this error.
    pub fn to_string(&self) -> (r: String)
        ensures
            r@ == backend_message(self@),
    {
        let mut r = String::new();
        match self {
            BackendError::MissingProgram(p) => {
                r.append("ddcutil is not installed at ");
                r.append(p.as_str());
            },
            BackendError::Timeout(secs) => {
                r.append("ddcutil command timed out after ");
                r.append(decimal_string(*secs).as_str());
                r.append("s");
            },
            BackendError::Command(s) => {
                r.append("ddcutil failed: ");
                r.append(s.as_str());
            },
            BackendError::Parse(s) => {
                r.append("ddcutil returned malformed output: ");
                r.append(s.as_str());
            },
            BackendError::UnsupportedVersion { found } => {
                r.append("ddcutil ");
                r.append(found.as_str());
                r.append(" is unsupported; version 2.2.1 or newer is required");
            },
            BackendError::MissingMonitor(id) => {
                r.append("monitor ");
                r.append(id.as_str());
                r.append(" is no longer connected");
            },
            BackendError::Unsupported { monitor_id, code } => {
                r.append("monitor ");
                r.append(monitor_id.as_str());
                r.append(" does not expose writable VCP feature 0x");
                r.append(string_of(&hex2_chars(*code)).as_str());
            },
            BackendError::OutOfRange { code, value, maximum } => {
                r.append("value ");
                r.append(decimal_string(*value as u64).as_str());
                r.append(" exceeds maximum ");
                r.append(decimal_string(*maximum as u64).as_str());
                r.append(" for VCP feature 0x");
                r.append(string_of(&hex2_chars(*code)).as_str());
            },
        }
        assert(r@ =~= backend_message(self@));
        r
    }
}

// ---------------------------------------------------------------------------
// VCP values
// ---------------------------------------------------------------------------
/// The number a `getvcp --terse` field holds: the field stripped of
/// surrounding characters other than hex digits and `x`, then read as hex
/// after a `0x` or `x` mark, or else as decimal.
pub open spec fn spec_parse_number(field: Seq<char>) -> Option<u16> {
    let v = trim_by(field, Trimmed::NonNumber);
    let hex = match strip_prefix(v, seq!['0', 'x']) {
        Some(h) => Some(h),
        None => strip_prefix(v, seq!['x']),
    };
    let from_hex = match hex {
        Some(h) => parse_bounded(h, 16, 0xffff),
        None => None,
    };
    match from_hex {
        Some(n) => Some(n as u16),
        None => match parse_bounded(v, 10, 0xffff) {
            Some(n) => Some(n as u16),
            None => None,
        },
    }
}

/// The numbers among `fields`, in order (fields that are no number are
/// skipped).
pub open spec fn parse_numbers(fields: Seq<Seq<char>>) -> Seq<u16>
    decreases fields.len(),
{
    if fields.len() == 0 {
        Seq::empty()
    } else {
        match spec_parse_number(fields.last()) {
            Some(n) => parse_numbers(fields.drop_last()).push(n),
            None => parse_numbers(fields.drop_last()),
        }
    }
}

/// The largest value among `choices`.
pub open spec fn max_choice(choices: Seq<ChoiceView>) -> Option<u16>
    decreases choices.len(),
{
    if choices.len() == 0 {
        None
    } else {
        let v = choices.last().value;
        match max_choice(choices.drop_last()) {
            Some(m) => Some(
                if v > m {
                    v
                } else {
                    m
                },
            ),
            None => Some(v),
        }
    }
}

/// Current and maximum value from the kind field and the numbers of a line:
/// a continuous feature (`C`) reports both, with a positive maximum; a
/// non-continuous one (`NC`, `SNC`, `XNC`) reports its value last, and its
/// maximum is the largest named value, or the value itself.
pub open spec fn vcp_values(kind: Seq<char>, numbers: Seq<u16>, choices: Seq<ChoiceView>) -> Option<
    (u16, u16),
> {
    if kind == "C"@ && numbers.len() >= 2 && numbers[1] > 0 {
        Some((numbers[0], numbers[1]))
    } else if (kind == "NC"@ || kind == "SNC"@ || kind == "XNC"@) && numbers.len() > 0 {
        Some(
            (
                numbers.last(),
                match max_choice(choices) {
                    Some(m) => m,
                    None => numbers.last(),
                },
            ),
        )
    } else {
        None
    }
}

/// The control that one line of `getvcp --terse` output reports, when it
/// reports one of a supported feature.
pub open spec fn spec_parse_vcp_line(line: Seq<char>) -> Option<ControlView> {
    let fields = words(line);
    if fields.len() < 3 || fields[0] != "VCP"@ {
        None
    } else {
        match parse_bounded(strip_repeated(fields[1], seq!['0', 'x']), 16, 0xff) {
            None => None,
            Some(c) => match spec_feature_definition(c as u8) {
                None => None,
                Some(def) => {
                    let choices = spec_choices(c as u8);
                    match vcp_values(fields[2], parse_numbers(fields.skip(3)), choices) {
                        None => None,
                        Some((current, maximum)) => Some(
                            ControlView {
                                code: c as u8,
                                key: def.key@,
                                title: def.title@,
                                kind: def.kind,
                                current,
                                maximum,
                                writable: true,
                                choices,
                            },
                        ),
                    }
                },
            },
        }
    }
}

/// The controls reported by `lines`, in order.
pub open spec fn vcp_controls(lines: Seq<Seq<char>>) -> Seq<ControlView>
    decreases lines.len(),
{
    if lines.len() == 0 {
        Seq::empty()
    } else {
        match spec_parse_vcp_line(lines.last()) {
            Some(c) => vcp_controls(lines.drop_last()).push(c),
            None => vcp_controls(lines.drop_last()),
        }
    }
}

/// The controls that `getvcp --terse` output reports.
pub open spec fn spec_parse_vcp_output(output: Seq<char>) -> Seq<ControlView> {
    vcp_controls(lines(output))
}

/// The model of an optional control.
pub open spec fn opt_control_view(c: Option<Control>) -> Option<ControlView> {
    match c {
        Some(c) => Some(c@),
        None => None,
    }
}

fn number_of(field: &Vec<char>) -> (r: Option<u16>)
    ensures
        r == spec_parse_number(field@),
{
    let v = trimmed_by(field, Trimmed::NonNumber);
    let hex_mark: Vec<char> = vec!['0', 'x'];
    let x_mark: Vec<char> = vec!['x'];
    assert(hex_mark@ =~= seq!['0', 'x']);
    assert(x_mark@ =~= seq!['x']);
    let hex = match without_prefix(&v, &hex_mark) {
        Some(h) => Some(h),
        None => without_prefix(&v, &x_mark),
    };
    let from_hex = match hex {
        Some(h) => parse_number_in(&h, 16, 0xffff),
        None => None,
    };
    match from_hex {
        Some(n) => Some(n as u16),
        None => match parse_number_in(&v, 10, 0xffff) {
            Some(n) => Some(n as u16),
            None => None,
        },
    }
}

/// The number a `getvcp --terse` field holds (see `spec_parse_number`).
pub fn parse_number(value: &str) -> (r: Option<u16>)
    ensures
        r == spec_parse_number(value@),
{
    number_of(&chars_of(value))
}

fn largest_choice(choices: &Vec<Choice>) -> (r: Option<u16>)
    ensures
        r == max_choice(choice_views(choices@)),
{
    let mut best: Option<u16> = None;
    let n = choices.len();
    for i in 0..n
        invariant
            n == choices.len(),
            best == max_choice(choice_views(choices@).take(i as int)),
    {
        let ghost t = choice_views(choices@).take(i + 1);
        assert(t.drop_last() =~= choice_views(choices@).take(i as int));
        assert(t.last() == choices@[i as int]@);
        let v = choices[i].value;
        best = match best {
            Some(m) => Some(
                if v > m {
                    v
                } else {
                    m
                },
            ),
            None => Some(v),
        };
    }
    assert(choice_views(choices@).take(n as int) =~= choice_views(choices@));
    best
}

fn is_word(w: &Vec<char>, lit: &str) -> (r: bool)
    ensures
        r == (w@ == lit@),
{
    same_chars(w, &chars_of(lit))
}

fn control_of_line(line: &Vec<char>) -> (r: Option<Control>)
    ensures
        opt_control_view(r) == spec_parse_vcp_line(line@),
{
    let fields = split_words(line);
    let ghost fv = views(fields@);
    if fields.len() < 3 || !is_word(&fields[0], "VCP") {
        return None;
    }
    let hex_mark: Vec<char> = vec!['0', 'x'];
    assert(hex_mark@ =~= seq!['0', 'x']);
    let code_text = without_repeated_prefix(&fields[1], &hex_mark);
    let code: u8 = match parse_number_in(&code_text, 16, 0xff) {
        Some(c) => c as u8,
        None => return None,
    };
    let def = match feature_definition(code) {
        Some(d) => d,
        None => return None,
    };
    let choices = choices_for(code);
    let n = fields.len();
    let mut numbers: Vec<u16> = Vec::new();
    for i in 3..n
        invariant
            n == fields.len(),
            fv == views(fields@),
            numbers@ == parse_numbers(fv.subrange(3, i as int)),
    {
        let ghost t = fv.subrange(3, i + 1);
        assert(t.drop_last() =~= fv.subrange(3, i as int));
        assert(t.last() == fields@[i as int]@);
        match number_of(&fields[i]) {
            Some(v) => numbers.push(v),
            None => {},
        }
    }
    assert(fv.subrange(3, n as int) =~= fv.skip(3));
    let k = numbers.len();
    let values: Option<(u16, u16)> = if is_word(&fields[2], "C") && k >= 2 && numbers[1] > 0 {
        Some((numbers[0], numbers[1]))
    } else if (is_word(&fields[2], "NC") || is_word(&fields[2], "SNC") || is_word(
        &fields[2],
        "XNC",
    )) && k > 0 {
        let last = numbers[k - 1];
        Some(
            (
                last,
                match largest_choice(&choices) {
                    Some(m) => m,
                    None => last,
                },
            ),
        )
    } else {
        None
    };
    match values {
        None => None,
        Some((current, maximum)) => Some(
            Control {
                code,
                key: def.key.to_owned(),
                title: def.title.to_owned(),
                kind: def.kind,
                current,
                maximum,
                writable: true,
                choices,
            },
        ),
    }
}

/// The control that one line of `getvcp --terse` output reports, when it
/// reports one of a supported feature.
pub fn parse_vcp_line(line: &str) -> (r: Option<Control>)
    ensures
        opt_control_view(r) == spec_parse_vcp_line(line@),
{
    control_of_line(&chars_of(line))
}

/// The controls of supported features that `getvcp --terse` output reports,
/// in the order of its lines.
pub fn parse_vcp_output(output: &str) -> (r: Vec<Control>)
    ensures
        control_views(r@) == spec_parse_vcp_output(output@),
{
    let ls = split_lines(&chars_of(output));
    let ghost lv = views(ls@);
    let mut r: Vec<Control> = Vec::new();
    let n = ls.len();
    for i in 0..n
        invariant
            n == ls.len(),
            lv == views(ls@),
            control_views(r@) == vcp_controls(lv.take(i as int)),
    {
        let ghost t = lv.take(i + 1);
        assert(t.drop_last() =~= lv.take(i as int));
        assert(t.last() == ls@[i as int]@);
        match control_of_line(&ls[i]) {
            Some(c) => {
                let ghost before = r@;
                r.push(c);
                assert(control_views(r@) =~= control_views(before).push(c@));
            },
            None => {},
        }
    }
    assert(lv.take(n as int) =~= lv);
    r
}

// ---------------------------------------------------------------------------
// Version
// ---------------------------------------------------------------------------
/// Selects the lines that, trimmed, begin with `p`.
pub open spec fn begins_with_after_trim(p: Seq<char>) -> spec_fn(Seq<char>) -> bool {
    |l: Seq<char>| strip_prefix(trim(l), p) is Some
}

/// What follows `p` on the first line of `ls` that, trimmed, begins with it.
pub open spec fn text_after(ls: Seq<Seq<char>>, p: Seq<char>) -> Option<Seq<char>> {
    match first_index(ls, begins_with_after_trim(p)) {
        Some(i) => strip_prefix(trim(ls[i]), p),
        None => None,
    }
}

/// The version that `ddcutil --version` output names: what follows
/// `ddcutil version: ` on the first line that has it, else what follows
/// `ddcutil ` on the first line that has that; a parse error carrying the
/// trimmed output otherwise.
pub open spec fn spec_parse_version(output: Seq<char>) -> Result<Seq<char>, BackendErrorView> {
    let ls = lines(output);
    match text_after(ls, "ddcutil version: "@) {
        Some(v) => Ok(v),
        None => match text_after(ls, "ddcutil "@) {
            Some(v) => Ok(v),
            None => Err(BackendErrorView::Parse(trim(output))),
        },
    }
}

/// The model of a result that carries a string or a backend error.
pub open spec fn text_result_view(r: Result<String, BackendError>) -> Result<
    Seq<char>,
    BackendErrorView,
> {
    match r {
        Ok(v) => Ok(v@),
        Err(e) => Err(e@),
    }
}

fn first_text_after(ls: &Vec<Vec<char>>, p: &str) -> (r: Option<Vec<char>>)
    ensures
        match r {
            Some(v) => text_after(views(ls@), p@) == Some(v@),
            None => text_after(views(ls@), p@) is None,
        },
{
    let prefix = chars_of(p);
    let ghost lv = views(ls@);
    let n = ls.len();
    for i in 0..n
        invariant
            n == ls.len(),
            lv == views(ls@),
            prefix@ == p@,
            forall|j: int| 0 <= j < i ==> !(begins_with_after_trim(p@))(#[trigger] lv[j]),
    {
        assert(lv[i as int] == ls@[i as int]@);
        let t = trimmed(&ls[i]);
        match without_prefix(&t, &prefix) {
            Some(v) => {
                proof {
                    lemma_first_index_at(lv, begins_with_after_trim(p@), i as int);
                }
                return Some(v);
            },
            None => {},
        }
    }
    proof {
        lemma_first_index_none(lv, begins_with_after_trim(p@));
    }
    None
}

/// The version that `ddcutil --version` output names (see
/// `spec_parse_version`).
pub fn parse_version(output: &str) -> (r: Result<String, BackendError>)
    ensures
        text_result_view(r) == spec_parse_version(output@),
{
    let all = chars_of(output);
    let ls = split_lines(&all);
    match first_text_after(&ls, "ddcutil version: ") {
        Some(v) => Ok(string_of(&v)),
        None => match first_text_after(&ls, "ddcutil ") {
            Some(v) => Ok(string_of(&v)),
            None => Err(BackendError::Parse(string_of(&trimmed(&all)))),
        },
    }
}

/// Component `i` of a dotted version: the number its leading digits write,
/// or 0 when it is missing, has none, or does not fit in `u32`.
pub open spec fn version_component(parts: Seq<Seq<char>>, i: int) -> nat {
    if 0 <= i < parts.len() {
        match parse_bounded(leading_digits(parts[i]), 10, 0xffff_ffff) {
            Some(v) => v,
            None => 0,
        }
    } else {
        0
    }
}

/// The version is 2.2.1 or newer, its first three components compared in
/// order.
pub open spec fn version_supported(version: Seq<char>) -> bool {
    let parts = split_by(version, Some('.'));
    let a = version_component(parts, 0);
    let b = version_component(parts, 1);
    let c = version_component(parts, 2);
    !(a < 2 || (a == 2 && (b < 2 || (b == 2 && c < 1))))
}

fn component(parts: &Vec<Vec<char>>, i: usize) -> (r: u32)
    ensures
        r as nat == version_component(views(parts@), i as int),
{
    if i < parts.len() {
        let digits = leading_digits_of(&parts[i]);
        match parse_number_in(&digits, 10, 0xffff_ffff) {
            Some(v) => v,
            None => 0,
        }
    } else {
        0
    }
}

/// Accepts `version` when it is 2.2.1 or newer.
pub fn require_supported_version(version: &str) -> (r: Result<(), BackendError>)
    ensures
        r is Ok <==> version_supported(version@),
        r matches Err(e) ==> e@ == (BackendErrorView::UnsupportedVersion { found: version@ }),
{
    let parts = split(&chars_of(version), Some('.'));
    let a = component(&parts, 0);
    let b = component(&parts, 1);
    let c = component(&parts, 2);
    if a < 2 || (a == 2 && (b < 2 || (b == 2 && c < 1))) {
        Err(BackendError::UnsupportedVersion { found: version.to_owned() })
    } else {
        Ok(())
    }
}

// ---------------------------------------------------------------------------
// Display detection
// ---------------------------------------------------------------------------
/// What has been read of the display block under way.
#[verifier::ext_equal]
pub struct PendingView {
    pub valid: bool,
    pub bus: Option<u32>,
    pub connector: Seq<char>,
    pub identity: Seq<char>,
}

/// A block with nothing read yet.
pub open spec fn fresh_block(valid: bool) -> PendingView {
    PendingView { valid, bus: None, connector: Seq::empty(), identity: Seq::empty() }
}

/// ASCII letter or digit.
pub open spec fn is_ascii_alnum(c: char) -> bool {
    ('0' <= c && c <= '9') || ('a' <= c && c <= 'z') || ('A' <= c && c <= 'Z')
}

/// `c` in ASCII lower case.
pub open spec fn ascii_lower(c: char) -> char {
    if 'A' <= c && c <= 'Z' {
        ((c as u8) + 32) as char
    } else {
        c
    }
}

/// How a character of the identity appears in a monitor id.
pub open spec fn id_char(c: char) -> char {
    if is_ascii_alnum(c) {
        ascii_lower(c)
    } else {
        '-'
    }
}

/// The monitor id made from `s`: letters and digits in lower case, each run
/// of other characters turned into one `-`, with none at either end.
pub open spec fn normalize_id(s: Seq<char>) -> Seq<char> {
    join(nonempty(split_by(s.map_values(|c: char| id_char(c)), Some('-'))), seq!['-'])
}

/// The first three `:`-separated fields of a `Monitor:` value
/// (`splitn(3, ':')`); the third keeps any further `:`, and missing fields
/// are empty.
pub open spec fn identity_fields(s: Seq<char>) -> (Seq<char>, Seq<char>, Seq<char>) {
    match first_index(s, is_char(':')) {
        None => (s, Seq::empty(), Seq::empty()),
        Some(i) => {
            let rest = s.skip(i + 1);
            match first_index(rest, is_char(':')) {
                None => (s.take(i), rest, Seq::empty()),
                Some(j) => (s.take(i), rest.take(j), rest.skip(j + 1)),
            }
        },
    }
}

/// The monitor a finished block describes: only a valid display with a bus
/// and a non-empty identity gives one.  Its name is the model, or the
/// manufacturer when there is no model; its id is made from manufacturer,
/// model and serial, or the connector when there is no serial.
pub open spec fn monitor_from(p: PendingView) -> Option<MonitorView> {
    match p.bus {
        None => None,
        Some(bus) => if !p.valid || p.identity.len() == 0 {
            None
        } else {
            let (f0, f1, f2) = identity_fields(p.identity);
            let manufacturer = trim(f0);
            let model = trim(f1);
            let serial = trim(f2);
            let name = if model.len() == 0 {
                manufacturer
            } else {
                model
            };
            let last = if serial.len() == 0 {
                p.connector
            } else {
                serial
            };
            Some(
                MonitorView {
                    id: normalize_id(manufacturer + seq!['-'] + model + seq!['-'] + last),
                    name,
                    manufacturer,
                    model,
                    serial,
                    connector: p.connector,
                    bus,
                    controls: Seq::empty(),
                },
            )
        },
    }
}

/// `ms` with the monitor of block `p` added, if it describes one.
pub open spec fn close_block(ms: Seq<MonitorView>, p: PendingView) -> Seq<MonitorView> {
    match monitor_from(p) {
        Some(m) => ms.push(m),
        None => ms,
    }
}

/// The bus number of an `I2C bus:` value `/dev/i2c-N`.
pub open spec fn bus_of(v: Seq<char>) -> Option<u32> {
    match strip_prefix(v, "/dev/i2c-"@) {
        Some(n) => match parse_bounded(n, 10, 0xffff_ffff) {
            Some(b) => Some(b as u32),
            None => None,
        },
        None => None,
    }
}

/// The effect of one line of `detect --brief` output: a `Display ` or
/// `Invalid display` line closes the block under way and opens a new one,
/// valid only for `Display `; `I2C bus:`, `DRM connector:` and `Monitor:`
/// lines fill in the block; other lines are ignored.
pub open spec fn detect_step(ms: Seq<MonitorView>, p: PendingView, line: Seq<char>) -> (
    Seq<MonitorView>,
    PendingView,
) {
    let t = trim(line);
    if starts_with(t, "Display "@) || t == "Invalid display"@ {
        (close_block(ms, p), fresh_block(starts_with(t, "Display "@)))
    } else {
        match strip_prefix(t, "I2C bus:"@) {
            Some(v) => (
                ms,
                PendingView { valid: p.valid, bus: bus_of(trim(v)), connector: p.connector, identity: p.identity },
            ),
            None => match strip_prefix(t, "DRM connector:"@) {
                Some(v) => (
                    ms,
                    PendingView { valid: p.valid, bus: p.bus, connector: trim(v), identity: p.identity },
                ),
                None => match strip_prefix(t, "Monitor:"@) {
                    Some(v) => (
                        ms,
                        PendingView { valid: p.valid, bus: p.bus, connector: p.connector, identity: trim(v) },
                    ),
                    None => (ms, p),
                },
            },
        }
    }
}

/// The monitors closed, and the block under way, after reading `ls`.
pub open spec fn detect_fold(ls: Seq<Seq<char>>) -> (Seq<MonitorView>, PendingView)
    decreases ls.len(),
{
    if ls.len() == 0 {
        (Seq::empty(), fresh_block(false))
    } else {
        let (ms, p) = detect_fold(ls.drop_last());
        detect_step(ms, p, ls.last())
    }
}

/// The monitors that `detect --brief` output describes, in order.
pub open spec fn spec_parse_detect_output(output: Seq<char>) -> Seq<MonitorView> {
    let (ms, p) = detect_fold(lines(output));
    close_block(ms, p)
}

struct Pending {
    valid: bool,
    bus: Option<u32>,
    connector: Vec<char>,
    identity: Vec<char>,
}

impl View for Pending {
    type V = PendingView;

    closed spec fn view(&self) -> PendingView {
        PendingView {
            valid: self.valid,
            bus: self.bus,
            connector: self.connector@,
            identity: self.identity@,
        }
    }
}

fn fresh(valid: bool) -> (r: Pending)
    ensures
        r@ == fresh_block(valid),
{
    let r = Pending { valid, bus: None, connector: Vec::new(), identity: Vec::new() };
    assert(r@ =~= fresh_block(valid));
    r
}

fn lower_ascii(c: char) -> (r: char)
    ensures
        r == ascii_lower(c),
{
    if 'A' <= c && c <= 'Z' {
        ((c as u8) + 32) as char
    } else {
        c
    }
}

/// The monitor id made from `s` (see `normalize_id`).
pub fn monitor_id(s: &Vec<char>) -> (r: Vec<char>)
    ensures
        r@ == normalize_id(s@),
{
    let mut mapped: Vec<char> = Vec::new();
    let n = s.len();
    for i in 0..n
        invariant
            n == s.len(),
            mapped@ == s@.take(i as int).map_values(|c: char| id_char(c)),
    {
        let c = s[i];
        let d = if ('0' <= c && c <= '9') || ('a' <= c && c <= 'z') || ('A' <= c && c <= 'Z') {
            lower_ascii(c)
        } else {
            '-'
        };
        mapped.push(d);
        assert(mapped@ =~= s@.take(i + 1).map_values(|c: char| id_char(c)));
    }
    assert(s@.take(n as int) =~= s@);
    let parts = split(&mapped, Some('-'));
    let kept = keep_nonempty(&parts);
    join_chars(&kept, '-')
}

fn fields_of_identity(s: &Vec<char>) -> (r: (Vec<char>, Vec<char>, Vec<char>))
    ensures
        (r.0@, r.1@, r.2@) == identity_fields(s@),
{
    match find_char(s, ':') {
        None => (copy_chars(s), Vec::new(), Vec::new()),
        Some(i) => {
            let rest = slice_of(s, i + 1, s.len());
            assert(rest@ =~= s@.skip(i + 1));
            let first = slice_of(s, 0, i);
            assert(first@ =~= s@.take(i as int));
            match find_char(&rest, ':') {
                None => (first, rest, Vec::new()),
                Some(j) => {
                    let second = slice_of(&rest, 0, j);
                    let third = slice_of(&rest, j + 1, rest.len());
                    assert(second@ =~= rest@.take(j as int));
                    assert(third@ =~= rest@.skip(j + 1));
                    (first, second, third)
                },
            }
        },
    }
}

fn monitor_of_block(p: &Pending) -> (r: Option<Monitor>)
    ensures
        match r {
            Some(m) => monitor_from(p@) == Some(m@),
            None => monitor_from(p@) is None,
        },
{
    let bus = match p.bus {
        None => return None,
        Some(b) => b,
    };
    if !p.valid || p.identity.len() == 0 {
        return None;
    }
    let (f0, f1, f2) = fields_of_identity(&p.identity);
    let manufacturer = trimmed(&f0);
    let model = trimmed(&f1);
    let serial = trimmed(&f2);
    let name = if model.len() == 0 {
        copy_chars(&manufacturer)
    } else {
        copy_chars(&model)
    };
    let mut identity = copy_chars(&manufacturer);
    identity.push('-');
    append_chars(&mut identity, &model);
    identity.push('-');
    if serial.len() == 0 {
        append_chars(&mut identity, &p.connector);
    } else {
        append_chars(&mut identity, &serial);
    }
    let id = monitor_id(&identity);
    let m = Monitor {
        id: string_of(&id),
        name: string_of(&name),
        manufacturer: string_of(&manufacturer),
        model: string_of(&model),
        serial: string_of(&serial),
        connector: string_of(&p.connector),
        bus,
        controls: Vec::new(),
    };
    proof {
        let last = if serial@.len() == 0 {
            p.connector@
        } else {
            serial@
        };
        assert(identity@ =~= manufacturer@ + seq!['-'] + model@ + seq!['-'] + last);
        assert(m@.controls =~= Seq::<crate::model::ControlView>::empty());
        assert(monitor_from(p@).unwrap() =~= m@);
    }
    Some(m)
}

fn close(p: &Pending, monitors: &mut Vec<Monitor>)
    ensures
        monitor_views(final(monitors)@) == close_block(monitor_views(old(monitors)@), p@),
{
    match monitor_of_block(p) {
        Some(m) => {
            let ghost before = monitors@;
            monitors.push(m);
            assert(monitor_views(monitors@) =~= monitor_views(before).push(m@));
        },
        None => {},
    }
}

fn bus_number(v: &Vec<char>) -> (r: Option<u32>)
    ensures
        r == bus_of(v@),
{
    match without_prefix(v, &chars_of("/dev/i2c-")) {
        Some(n) => parse_number_in(&n, 10, 0xffff_ffff),
        None => None,
    }
}

/// The monitors that `detect --brief` output describes (see
/// `spec_parse_detect_output`); their controls are still empty.
pub fn parse_detect_output(output: &str) -> (r: Vec<Monitor>)
    ensures
        monitor_views(r@) == spec_parse_detect_output(output@),
{
    let ls = split_lines(&chars_of(output));
    let ghost lv = views(ls@);
    let display = chars_of("Display ");
    let invalid = chars_of("Invalid display");
    let i2c = chars_of("I2C bus:");
    let drm = chars_of("DRM connector:");
    let monitor = chars_of("Monitor:");
    let mut monitors: Vec<Monitor> = Vec::new();
    let mut pending = fresh(false);
    let n = ls.len();
    for i in 0..n
        invariant
            n == ls.len(),
            lv == views(ls@),
            display@ == "Display "@,
            invalid@ == "Invalid display"@,
            i2c@ == "I2C bus:"@,
            drm@ == "DRM connector:"@,
            monitor@ == "Monitor:"@,
            monitor_views(monitors@) == detect_fold(lv.take(i as int)).0,
            pending@ == detect_fold(lv.take(i as int)).1,
    {
        let ghost t = lv.take(i + 1);
        assert(t.drop_last() =~= lv.take(i as int));
        assert(t.last() == ls@[i as int]@);
        let line = trimmed(&ls[i]);
        let opens = has_prefix(&line, &display);
        if opens || same_chars(&line, &invalid) {
            close(&pending, &mut monitors);
            pending = fresh(opens);
        } else {
            match without_prefix(&line, &i2c) {
                Some(v) => {
                    pending.bus = bus_number(&trimmed(&v));
                },
                None => match without_prefix(&line, &drm) {
                    Some(v) => {
                        pending.connector = trimmed(&v);
                    },
                    None => match without_prefix(&line, &monitor) {
                        Some(v) => {
                            pending.identity = trimmed(&v);
                        },
                        None => {},
                    },
                },
            }
        }
        assert(pending@ =~= detect_fold(t).1);
    }
    assert(lv.take(n as int) =~= lv);
    close(&pending, &mut monitors);
    monitors
}

// ---------------------------------------------------------------------------
// The ddcutil program
// ---------------------------------------------------------------------------
/// Seconds a `ddcutil` command may run before it is killed.
pub const COMMAND_TIMEOUT_SECS: u64 = 8;

/// Milliseconds between checks whether a running command has finished.
pub const COMMAND_POLL_INTERVAL_MS: u64 = 50;

/// Where `ddcutil` is installed by default.
pub const DEFAULT_PROGRAM: &'static str = "/usr/bin/ddcutil";

/// The interface through which the manager reaches monitors.
pub trait MonitorBackend: Send + Sync {
    /// The installed `ddcutil` version, if it is supported.
    fn version(&self) -> Result<String, BackendError>;

    /// The connected monitors with their controls.
    fn discover(&self) -> Result<Vec<Monitor>, BackendError>;

    /// The current state of feature `code` of the monitor on `bus`.
    fn read_control(&self, bus: u32, code: u8) -> Result<Control, BackendError>;

    /// Sets feature `code` of the monitor on `bus` to `value`.
    fn write_control(&self, bus: u32, code: u8, value: u16) -> Result<(), BackendError>;
}

/// A `ddcutil` invocation: its arguments, and whether output is still read
/// when the program exits with a failure status.
pub struct CommandLine {
    pub args: Vec<String>,
    pub accept_partial: bool,
}

/// The backend that runs the `ddcutil` program.
#[derive(Clone, Debug)]
pub struct DdcutilBackend {
    program: String,
    timeout_secs: u64,
}

impl View for DdcutilBackend {
    type V = (Seq<char>, u64);

    closed spec fn view(&self) -> (Seq<char>, u64) {
        (self.program@, self.timeout_secs)
    }
}

impl Default for DdcutilBackend {
    /// The backend for the program at its default place.
    fn default() -> (r: Self)
        ensures
            r@ == (DEFAULT_PROGRAM@, COMMAND_TIMEOUT_SECS),
    {
        DdcutilBackend::new(DEFAULT_PROGRAM)
    }
}

/// The arguments of `getvcp` for every safe feature of the monitor on `bus`.
pub open spec fn read_controls_args_spec(bus: u32) -> Seq<Seq<char>> {
    seq!["getvcp"@] + safe_codes().map_values(|c: u8| hex2(c)) + seq![
        "--terse"@,
        "--bus"@,
        decimal(bus as nat),
    ]
}

/// The result of a finished command: its output is used when it succeeded
/// or partial output is accepted; otherwise the failure is its trimmed error
/// output, or the exit status when that is empty.
pub open spec fn spec_command_outcome(
    succeeded: bool,
    accept_partial: bool,
    stderr: Seq<char>,
    status: Seq<char>,
) -> Result<(), BackendErrorView> {
    if succeeded || accept_partial {
        Ok(())
    } else {
        Err(
            BackendErrorView::Command(
                if trim(stderr).len() == 0 {
                    "exited with "@ + status
                } else {
                    trim(stderr)
                },
            ),
        )
    }
}

/// The controls read from the output of `getvcp` for all safe features; when
/// there are none, the failure is the trimmed error output, or a note that
/// nothing was returned when that is empty.
pub open spec fn spec_read_controls_outcome(stdout: Seq<char>, stderr: Seq<char>) -> Result<
    Seq<ControlView>,
    BackendErrorView,
> {
    let controls = spec_parse_vcp_output(stdout);
    if controls.len() == 0 {
        Err(
            BackendErrorView::Command(
                if trim(stderr).len() == 0 {
                    "no supported safe controls were returned"@
                } else {
                    trim(stderr)
                },
            ),
        )
    } else {
        Ok(controls)
    }
}

/// The first control with code `code` read from `getvcp` output, or a parse
/// error carrying the output.
pub open spec fn spec_read_control_outcome(code: u8, stdout: Seq<char>) -> Result<
    ControlView,
    BackendErrorView,
> {
    let controls = spec_parse_vcp_output(stdout);
    match first_index(controls, has_code(code)) {
        Some(i) => Ok(controls[i]),
        None => Err(BackendErrorView::Parse(stdout)),
    }
}

/// The models of a result carrying a command line.
pub open spec fn command_result_view(r: Result<CommandLine, BackendError>) -> Result<
    (Seq<Seq<char>>, bool),
    BackendErrorView,
> {
    match r {
        Ok(c) => Ok((string_views(c.args@), c.accept_partial)),
        Err(e) => Err(e@),
    }
}

/// The error for a feature outside the safe set, named after the bus.
pub open spec fn unsupported_on_bus(bus: u32, code: u8) -> BackendErrorView {
    BackendErrorView::Unsupported { monitor_id: "bus-"@ + decimal(bus as nat), code }
}

fn strings_push(v: &mut Vec<String>, s: &str)
    ensures
        string_views(final(v)@) == string_views(old(v)@).push(s@),
{
    let ghost before = v@;
    v.push(s.to_owned());
    assert(string_views(v@) =~= string_views(before).push(s@));
}

fn strings_push_owned(v: &mut Vec<String>, s: String)
    ensures
        string_views(final(v)@) == string_views(old(v)@).push(s@),
{
    let ghost before = v@;
    v.push(s);
    assert(string_views(v@) =~= string_views(before).push(s@));
}

fn hex_string(code: u8) -> (r: String)
    ensures
        r@ == hex2(code),
{
    string_of(&hex2_chars(code))
}

impl DdcutilBackend {
    /// The backend for the program at `program`.
    pub fn new(program: &str) -> (r: Self)
        ensures
            r@ == (program@, COMMAND_TIMEOUT_SECS),
    {
        DdcutilBackend { program: program.to_owned(), timeout_secs: COMMAND_TIMEOUT_SECS }
    }

    /// Path of the program.
    pub fn program(&self) -> (r: &String)
        ensures
            r@ == self@.0,
    {
        &self.program
    }

    /// Seconds a command may run.
    pub fn timeout_secs(&self) -> (r: u64)
        ensures
            r == self@.1,
    {
        self.timeout_secs
    }

    /// `ddcutil --version`.
    pub fn version_command() -> (r: CommandLine)
        ensures
            string_views(r.args@) == seq!["--version"@],
            !r.accept_partial,
    {
        let mut args: Vec<String> = Vec::new();
        strings_push(&mut args, "--version");
        assert(string_views(args@) =~= seq!["--version"@]);
        CommandLine { args, accept_partial: false }
    }

    /// `ddcutil detect --brief`, whose output is read even on failure.
    pub fn detect_command() -> (r: CommandLine)
        ensures
            string_views(r.args@) == seq!["detect"@, "--brief"@],
            r.accept_partial,
    {
        let mut args: Vec<String> = Vec::new();
        strings_push(&mut args, "detect");
        strings_push(&mut args, "--brief");
        assert(string_views(args@) =~= seq!["detect"@, "--brief"@]);
        CommandLine { args, accept_partial: true }
    }

    /// `ddcutil getvcp` for every safe feature of the monitor on `bus`, whose
    /// output is read even on failure.
    pub fn read_controls_command(bus: u32) -> (r: CommandLine)
        ensures
            string_views(r.args@) == read_controls_args_spec(bus),
            r.accept_partial,
    {
        let mut args: Vec<String> = Vec::new();
        strings_push(&mut args, "getvcp");
        let codes = safe_feature_codes();
        let n = codes.len();
        for i in 0..n
            invariant
                n == codes.len(),
                codes@ == safe_codes(),
                string_views(args@) == seq!["getvcp"@] + safe_codes().take(i as int).map_values(
                    |c: u8| hex2(c),
                ),
        {
            strings_push_owned(&mut args, hex_string(codes[i]));
            assert(safe_codes().take(i + 1).map_values(|c: u8| hex2(c)) =~= safe_codes().take(
                i as int,
            ).map_values(|c: u8| hex2(c)).push(hex2(codes@[i as int])));
            assert(string_views(args@) =~= seq!["getvcp"@] + safe_codes().take(i + 1).map_values(
                |c: u8| hex2(c),
            ));
        }
        assert(safe_codes().take(n as int) =~= safe_codes());
        strings_push(&mut args, "--terse");
        strings_push(&mut args, "--bus");
        strings_push_owned(&mut args, decimal_string(bus as u64));
        assert(string_views(args@) =~= read_controls_args_spec(bus));
        CommandLine { args, accept_partial: true }
    }

    /// `ddcutil getvcp` for feature `code` of the monitor on `bus`; refused
    /// for a feature outside the safe set.
    pub fn read_control_command(bus: u32, code: u8) -> (r: Result<CommandLine, BackendError>)
        ensures
            command_result_view(r) == if spec_feature_definition(code) is None {
                Err(unsupported_on_bus(bus, code))
            } else {
                Ok::<(Seq<Seq<char>>, bool), BackendErrorView>(
                    (
                        seq!["getvcp"@, hex2(code), "--terse"@, "--bus"@, decimal(bus as nat)],
                        false,
                    ),
                )
            },
    {
        if feature_definition(code).is_none() {
            return Err(Self::unsupported(bus, code));
        }
        let mut args: Vec<String> = Vec::new();
        strings_push(&mut args, "getvcp");
        strings_push_owned(&mut args, hex_string(code));
        strings_push(&mut args, "--terse");
        strings_push(&mut args, "--bus");
        strings_push_owned(&mut args, decimal_string(bus as u64));
        assert(string_views(args@) =~= seq![
            "getvcp"@,
            hex2(code),
            "--terse"@,
            "--bus"@,
            decimal(bus as nat),
        ]);
        Ok(CommandLine { args, accept_partial: false })
    }

    /// `ddcutil setvcp` of feature `code` of the monitor on `bus` to `value`,
    /// without the program's own verification; refused for a feature outside
    /// the safe set.
    pub fn write_control_command(bus: u32, code: u8, value: u16) -> (r: Result<
        CommandLine,
        BackendError,
    >)
        ensures
            command_result_view(r) == if spec_feature_definition(code) is None {
                Err(unsupported_on_bus(bus, code))
            } else {
                Ok::<(Seq<Seq<char>>, bool), BackendErrorView>(
                    (
                        seq![
                            "setvcp"@,
                            hex2(code),
                            decimal(value as nat),
                            "--noverify"@,
                            "--bus"@,
                            decimal(bus as nat),
                        ],
                        false,
                    ),
                )
            },
    {
        if feature_definition(code).is_none() {
            return Err(Self::unsupported(bus, code));
        }
        let mut args: Vec<String> = Vec::new();
        strings_push(&mut args, "setvcp");
        strings_push_owned(&mut args, hex_string(code));
        strings_push_owned(&mut args, decimal_string(value as u64));
        strings_push(&mut args, "--noverify");
        strings_push(&mut args, "--bus");
        strings_push_owned(&mut args, decimal_string(bus as u64));
        assert(string_views(args@) =~= seq![
            "setvcp"@,
            hex2(code),
            decimal(value as nat),
            "--noverify"@,
            "--bus"@,
            decimal(bus as nat),
        ]);
        Ok(CommandLine { args, accept_partial: false })
    }

    fn unsupported(bus: u32, code: u8) -> (r: BackendError)
        ensures
            r@ == unsupported_on_bus(bus, code),
    {
        let mut id = "bus-".to_owned();
        id.append(decimal_string(bus as u64).as_str());
        BackendError::Unsupported { monitor_id: id, code }
    }

    /// The result of a finished command (see `spec_command_outcome`);
    /// `status` is how the exit status is shown.
    pub fn command_outcome(succeeded: bool, accept_partial: bool, stderr: &str, status: &str) -> (r:
        Result<(), BackendError>)
        ensures
            match r {
                Ok(()) => spec_command_outcome(succeeded, accept_partial, stderr@, status@) is Ok,
                Err(e) => spec_command_outcome(succeeded, accept_partial, stderr@, status@) == Err::<
                    (),
                    BackendErrorView,
                >(e@),
            },
    {
        if succeeded || accept_partial {
            return Ok(());
        }
        let err = trimmed(&chars_of(stderr));
        if err.len() == 0 {
            let mut text = "exited with ".to_owned();
            text.append(status);
            Err(BackendError::Command(text))
        } else {
            Err(BackendError::Command(string_of(&err)))
        }
    }

    /// The controls read from `getvcp` output for all safe features (see
    /// `spec_read_controls_outcome`).
    pub fn read_controls_outcome(stdout: &str, stderr: &str) -> (r: Result<Vec<Control>, BackendError>)
        ensures
            match r {
                Ok(cs) => spec_read_controls_outcome(stdout@, stderr@) == Ok::<
                    Seq<ControlView>,
                    BackendErrorView,
                >(control_views(cs@)),
                Err(e) => spec_read_controls_outcome(stdout@, stderr@) == Err::<
                    Seq<ControlView>,
                    BackendErrorView,
                >(e@),
            },
    {
        let controls = parse_vcp_output(stdout);
        if controls.len() == 0 {
            let err = trimmed(&chars_of(stderr));
            if err.len() == 0 {
                Err(BackendError::Command("no supported safe controls were returned".to_owned()))
            } else {
                Err(BackendError::Command(string_of(&err)))
            }
        } else {
            Ok(controls)
        }
    }

    /// The control with code `code` read from `getvcp` output (see
    /// `spec_read_control_outcome`).
    pub fn read_control_outcome(code: u8, stdout: &str) -> (r: Result<Control, BackendError>)
        ensures
            match r {
                Ok(c) => spec_read_control_outcome(code, stdout@) == Ok::<
                    ControlView,
                    BackendErrorView,
                >(c@),
                Err(e) => spec_read_control_outcome(code, stdout@) == Err::<
                    ControlView,
                    BackendErrorView,
                >(e@),
            },
    {
        let mut controls = parse_vcp_output(stdout);
        let ghost cv = control_views(controls@);
        let n = controls.len();
        let mut i: usize = 0;
        while i < n
            invariant
                n == controls.len(),
                cv == control_views(controls@),
                cv == spec_parse_vcp_output(stdout@),
                i <= n,
                forall|j: int| 0 <= j < i ==> !(has_code(code))(#[trigger] cv[j]),
            decreases n - i,
        {
            assert(cv[i as int] == controls@[i as int]@);
            if controls[i].code == code {
                proof {
                    lemma_first_index_at(cv, has_code(code), i as int);
                }
                let c = controls.swap_remove(i);
                assert(c@ == cv[i as int]);
                return Ok(c);
            }
            i = i + 1;
        }
        proof {
            lemma_first_index_none(cv, has_code(code));
        }
        Err(BackendError::Parse(stdout.to_owned()))
    }

    /// The supported version that `ddcutil --version` output names.
    pub fn version_outcome(stdout: &str) -> (r: Result<String, BackendError>)
        ensures
            match spec_parse_version(stdout@) {
                Ok(v) => if version_supported(v) {
                    text_result_view(r) == Ok::<Seq<char>, BackendErrorView>(v)
                } else {
                    text_result_view(r) == Err::<Seq<char>, BackendErrorView>(
                        BackendErrorView::UnsupportedVersion { found: v },
                    )
                },
                Err(e) => text_result_view(r) == Err::<Seq<char>, BackendErrorView>(e),
            },
    {
        let version = parse_version(stdout)?;
        match require_supported_version(version.as_str()) {
            Ok(()) => Ok(version),
            Err(e) => Err(e),
        }
    }
}

/// `m` with its controls replaced by `controls`.
pub open spec fn with_controls(m: MonitorView, controls: Seq<ControlView>) -> MonitorView {
    MonitorView {
        id: m.id,
        name: m.name,
        manufacturer: m.manufacturer,
        model: m.model,
        serial: m.serial,
        connector: m.connector,
        bus: m.bus,
        controls,
    }
}

/// Records the outcome of reading a discovered monitor's controls: the
/// controls read become the monitor's controls; a failed read leaves the
/// monitor as it was and is handed back to be reported.
pub fn attach_controls(monitor: &mut Monitor, outcome: Result<Vec<Control>, BackendError>) -> (r:
    Option<BackendError>)
    ensures
        match outcome {
            Ok(cs) => r is None && final(monitor)@ == with_controls(old(monitor)@, control_views(cs@)),
            Err(e) => r == Some(e) && final(monitor)@ == old(monitor)@,
        },
{
    match outcome {
        Ok(controls) => {
            monitor.controls = controls;
            assert(monitor@ =~= with_controls(old(monitor)@, control_views(monitor.controls@)));
            None
        },
        Err(e) => Some(e),
    }
}

} // verus!
